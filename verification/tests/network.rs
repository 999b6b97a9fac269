use pdmx::discovery::{Discovery, MAX_PEERS, SEEN_TTL_MS};
use pdmx::dns::{read_name, for_each_record, Writer};
use pdmx::eth::{hostname, instance_name, link_local_from_mac, mac_from_chip_id, net_identity};
use pdmx::mdns::{
    a_record, answer_query, build_query, build_response, count_ones, find_a_record, instance_label,
    names_new, Names, REC_A, REC_NSEC, REC_PTR, REC_SRV, REC_TXT, TYPE_A, TYPE_AAAA,
};
use pdmx::resolver::{
    lookup_target, resolve_request, LookupTarget, MdnsTask, PacketReply, BROWSE_INTERVAL_MS,
    BROWSE_INTERVAL_NO_FPP_MS, QUERY_INTERVAL_MS, TX_CAP,
};
use pdmx::tcp_cmds::{
    after_send, chataigne_status, is_link_local, set_status, status_after, switch_message, switch_update,
    ChataigneStatus, LinkEvent,
};

fn board(n: &str) -> Names {
    names_new(format!("pdmx-{}", n).as_bytes(), format!("PDMX Controller {}", n).as_bytes())
}

fn q(name: &str, t: u16) -> Vec<(Vec<u8>, u16)> {
    vec![(name.as_bytes().to_vec(), t)]
}

#[test]
fn chip_id_to_identity() {
    let mac = mac_from_chip_id(0x0011_2233_4455_6677);
    assert_eq!(mac, [0x02, 0x33, 0x44, 0x55, 0x66, 0x77]);
    assert_eq!(link_local_from_mac(&mac), [169, 254, 156, 191]);
    assert_eq!(hostname(&mac), b"pdmx-6677".to_vec());
    assert_eq!(instance_name(&mac), b"PDMX Controller 6677".to_vec());
    let id = net_identity(0x0011_2233_4455_6677);
    assert_eq!(id.ip, [169, 254, 156, 191]);
    assert_eq!(id.hostname, b"pdmx-6677".to_vec());
    assert_eq!(id.instance, b"PDMX Controller 6677".to_vec());
    let lettered = mac_from_chip_id(0xA1B2);
    assert_eq!(hostname(&lettered), b"pdmx-a1b2".to_vec());
    assert_eq!(instance_name(&lettered), b"PDMX Controller A1B2".to_vec());
}

#[test]
fn link_local_address_is_never_zero_or_broadcast() {
    assert_eq!(link_local_from_mac(&[2, 0, 0, 0, 0, 0]), [169, 254, 1, 1]);
    assert_eq!(link_local_from_mac(&[2, 0, 0, 0xff, 0xff, 0xff]), [169, 254, 1 + (0xffffff % 254) as u8, 1 + ((0xffffff / 254) % 254) as u8]);
}

#[test]
fn names_of_a_board() {
    let n = board("00A1");
    assert_eq!(n.host, b"pdmx-00A1.local".to_vec());
    assert_eq!(n.instance, b"PDMX Controller 00A1._pdmx._tcp.local".to_vec());
    assert_eq!(instance_label(&n.instance), Some(&b"PDMX Controller 00A1"[..]));
    assert_eq!(instance_label(b"_pdmx._tcp.local"), None);
    assert_eq!(instance_label(b"x._PDMX._TCP.LOCAL"), Some(&b"x"[..]));
}

#[test]
fn writer_refuses_what_does_not_fit() {
    let mut w = Writer::new(4);
    assert_eq!(w.bytes(&[1, 2, 3]), Some(()));
    assert_eq!(w.bytes(&[4, 5]), None);
    assert_eq!(w.pos(), 3);
    assert_eq!(w.u16(0x0102), None);
    assert_eq!(w.bytes(&[9]), Some(()));
    assert_eq!(w.into_bytes(), vec![1, 2, 3, 9]);

    let mut w = Writer::new(64);
    assert_eq!(w.name(b"ab.c"), Some(()));
    assert_eq!(w.u32(0x01020304), Some(()));
    assert_eq!(w.into_bytes(), vec![2, b'a', b'b', 1, b'c', 0, 1, 2, 3, 4]);

    let mut w = Writer::new(64);
    assert_eq!(w.name(b"a..b"), None);
    let mut w = Writer::new(64);
    let at = w.record_start(b"x", 1, 1, 120).unwrap();
    assert_eq!(w.bytes(&[7, 7, 7]), Some(()));
    w.record_end(at);
    assert_eq!(w.into_bytes(), vec![1, b'x', 0, 0, 1, 0, 1, 0, 0, 0, 120, 0, 3, 7, 7, 7]);
}

#[test]
fn query_bytes_and_unicast_bit() {
    let p = build_query(&q("fpp.local", TYPE_A), true, 512).unwrap();
    let mut expected = vec![0, 0, 0, 0, 0, 1, 0, 0, 0, 0, 0, 0];
    expected.extend_from_slice(&[3, b'f', b'p', b'p', 5, b'l', b'o', b'c', b'a', b'l', 0, 0, 1, 0x80, 1]);
    assert_eq!(p, expected);
    let p = build_query(&q("fpp.local", TYPE_A), false, 512).unwrap();
    assert_eq!(p[p.len() - 2], 0);
    assert_eq!(build_query(&q("fpp.local", TYPE_A), false, 20), None);
}

#[test]
fn answers_a_query_for_its_own_host() {
    let me = board("0002");
    let query = build_query(&q("pdmx-0002.LOCAL", TYPE_A), false, 512).unwrap();
    let reply = answer_query(&query, &me, [169, 254, 3, 4], 512).unwrap();
    assert_eq!(&reply[..4], &[0, 0, 0x84, 0]);
    assert_eq!(find_a_record(&reply, b"pdmx-0002.local"), Some([169, 254, 3, 4]));
    let (recs, ok) = for_each_record(&reply);
    assert!(ok);
    assert_eq!(recs.len(), 2);
    assert_eq!(recs[0].rtype, TYPE_A);
    assert_eq!(recs[1].rtype, 47);
}

#[test]
fn aaaa_query_gets_only_nsec_and_others_get_nothing() {
    let me = board("0002");
    let query = build_query(&q("pdmx-0002.local", TYPE_AAAA), false, 512).unwrap();
    let reply = answer_query(&query, &me, [169, 254, 3, 4], 512).unwrap();
    let (recs, _) = for_each_record(&reply);
    assert_eq!(recs.len(), 1);
    assert_eq!(recs[0].rtype, 47);
    let query = build_query(&q("someone-else.local", TYPE_A), false, 512).unwrap();
    assert_eq!(answer_query(&query, &me, [169, 254, 3, 4], 512), None);
    // A response is not a query.
    let resp = build_response(&me, [169, 254, 3, 4], REC_A, 0, 512).unwrap();
    assert_eq!(answer_query(&resp, &me, [169, 254, 3, 4], 512), None);
}

#[test]
fn response_record_counts() {
    assert_eq!(count_ones(REC_A | REC_PTR | REC_SRV), 3);
    let me = board("0001");
    let all = REC_A | REC_PTR | REC_SRV | REC_TXT | REC_NSEC;
    let resp = build_response(&me, [169, 254, 1, 2], all, 0, 512).unwrap();
    assert_eq!(&resp[..12], &[0, 0, 0x84, 0, 0, 0, 0, 5, 0, 0, 0, 0]);
    assert_eq!(build_response(&me, [169, 254, 1, 2], all, 0, 40), None);
}

#[test]
fn read_name_follows_pointers() {
    // "ab" at 0, then a pointer to it at 4.
    let p = [2, b'a', b'b', 0, 0xc0, 0x00];
    assert_eq!(read_name(&p, 0), Some((4, b"ab".to_vec())));
    assert_eq!(read_name(&p, 4), Some((6, b"ab".to_vec())));
    // A pointer to itself never ends.
    let looped = [0xc0, 0x00];
    assert_eq!(read_name(&looped, 0), None);
    // Truncated.
    assert_eq!(read_name(&[5, b'a'], 0), None);
}

#[test]
fn a_record_reads_four_bytes() {
    assert_eq!(a_record(&[9, 1, 2, 3, 4], 1), Some([1, 2, 3, 4]));
    assert_eq!(a_record(&[9, 1, 2, 3], 1), None);
}

#[test]
fn discovery_learns_peer_and_forgets_it() {
    let other = board("0001");
    let all = REC_A | REC_PTR | REC_SRV | REC_TXT | REC_NSEC;
    let resp = build_response(&other, [169, 254, 1, 2], all, 0, 512).unwrap();
    let mut d = Discovery::new();
    d.apply_response(&resp, b"PDMX Controller 0002", 1000);
    let peers = d.peers(1000);
    assert_eq!(peers.len(), 1);
    assert_eq!(peers[0].instance_name(), b"PDMX Controller 0001");
    assert_eq!(peers[0].host_name(), b"pdmx-0001.local");
    assert_eq!(peers[0].address(), Some([169, 254, 1, 2]));
    assert_eq!(peers[0].last_seen(), 1000);

    // Our own announcement teaches nothing.
    let mut mine = Discovery::new();
    mine.apply_response(&resp, b"PDMX Controller 0001", 1000);
    assert_eq!(mine.peers(1000).len(), 0);

    // Quiet for SEEN_TTL_MS: gone.
    assert_eq!(d.peers(1000 + SEEN_TTL_MS - 1).len(), 1);
    assert_eq!(d.peers(1000 + SEEN_TTL_MS).len(), 0);
    d.prune(1000 + SEEN_TTL_MS);
    assert_eq!(d.peers(1000).len(), 0);
}

#[test]
fn discovery_watches_fpp() {
    let fpp = names_new(b"fpp", b"FPP");
    let resp = build_response(&fpp, [169, 254, 9, 9], REC_A, 0, 512).unwrap();
    let mut d = Discovery::new();
    assert_eq!(d.fpp_ip(0), None);
    d.apply_response(&resp, b"PDMX Controller 0002", 500);
    assert_eq!(d.fpp_ip(600), Some([169, 254, 9, 9]));
    assert_eq!(d.fpp_ip(500 + SEEN_TTL_MS), None);
    d.prune(500 + SEEN_TTL_MS);
    assert_eq!(d.fpp_ip(500), None);
}

#[test]
fn discovery_keeps_at_most_max_peers() {
    let mut d = Discovery::new();
    for k in 0..(MAX_PEERS + 2) {
        let label = format!("PEER {}", k);
        let r = d.touch(label.as_bytes(), 10);
        assert_eq!(r.is_some(), k < MAX_PEERS);
    }
    assert_eq!(d.peers(10).len(), MAX_PEERS);
    assert_eq!(d.touch(b"PEER 3", 20), Some(3));
}

#[test]
fn lookup_request_trims_dots() {
    assert_eq!(resolve_request("fpp.local."), Some(b"fpp.local".to_vec()));
    assert_eq!(resolve_request("fpp.local..."), Some(b"fpp.local".to_vec()));
    assert_eq!(resolve_request(&"a".repeat(129)), None);
    assert_eq!(resolve_request(&"a".repeat(128)), Some(vec![b'a'; 128]));
}

#[test]
fn lookup_target_literal_or_name() {
    assert_eq!(lookup_target("169.254.7.8"), LookupTarget::Address([169, 254, 7, 8]));
    assert_eq!(lookup_target("fpp.local"), LookupTarget::Query(b"fpp.local".to_vec()));
    assert_eq!(lookup_target("256.1.1.1"), LookupTarget::Query(b"256.1.1.1".to_vec()));
    assert_eq!(lookup_target("0.0.0.0"), LookupTarget::Address([0, 0, 0, 0]));
    assert_eq!(lookup_target("01.2.3.4"), LookupTarget::Query(b"01.2.3.4".to_vec()));
    assert_eq!(lookup_target("1.2.3"), LookupTarget::Query(b"1.2.3".to_vec()));
    assert_eq!(lookup_target(" 1.2.3.4"), LookupTarget::Query(b" 1.2.3.4".to_vec()));
    assert_eq!(lookup_target(&"b".repeat(200)), LookupTarget::Unresolvable);
}

#[test]
fn mdns_task_resolves_and_gives_up() {
    let me = board("0002");
    let mut disc = Discovery::new();
    let mut task = MdnsTask::new(0);
    assert_eq!(task.wake(), 0);

    // First tick: browse, asking for unicast while FPP is unknown.
    let t = task.on_timer(&mut disc, 0);
    assert!(!t.gave_up);
    assert!(t.query.is_none());
    let browse = t.browse.unwrap();
    assert_eq!(browse[5], 2);
    assert_eq!(task.next_browse, BROWSE_INTERVAL_NO_FPP_MS);

    // A lookup: three queries a second apart, then "not found".
    task.on_request(b"host.local".to_vec(), 100);
    assert_eq!(task.wake(), 100);
    for k in 0..3u64 {
        let now = 100 + k * QUERY_INTERVAL_MS;
        let t = task.on_timer(&mut disc, now);
        assert!(!t.gave_up);
        assert_eq!(t.query, build_query(&q("host.local", TYPE_A), false, TX_CAP));
    }
    let t = task.on_timer(&mut disc, 100 + 3 * QUERY_INTERVAL_MS);
    assert!(t.gave_up);
    assert!(t.query.is_none());
    assert!(task.pending.is_none());

    // A lookup answered by a response packet.
    task.on_request(b"pdmx-0001.local".to_vec(), 5000);
    let other = board("0001");
    let resp = build_response(&other, [169, 254, 1, 2], REC_A, 0, 512).unwrap();
    let r = task.on_packet(&mut disc, &resp, &me.instance, &me, [169, 254, 0, 2], 5010);
    assert!(matches!(r, PacketReply::Resolved([169, 254, 1, 2])));
    assert!(task.pending.is_none());

    // A query for us gets an answer.
    let query = build_query(&q("pdmx-0002.local", TYPE_A), false, 512).unwrap();
    match task.on_packet(&mut disc, &query, &me.instance, &me, [169, 254, 0, 2], 5020) {
        PacketReply::Answer(b) => assert_eq!(find_a_record(&b, b"pdmx-0002.local"), Some([169, 254, 0, 2])),
        _ => panic!("expected an answer"),
    }
}

#[test]
fn browse_slows_down_once_fpp_answers() {
    let fpp = names_new(b"fpp", b"FPP");
    let resp = build_response(&fpp, [169, 254, 9, 9], REC_A, 0, 512).unwrap();
    let me = board("0002");
    let mut disc = Discovery::new();
    let mut task = MdnsTask::new(1000);
    let r = task.on_packet(&mut disc, &resp, &me.instance, &me, [169, 254, 0, 2], 1000);
    assert!(matches!(r, PacketReply::Silent));
    let t = task.on_timer(&mut disc, 1000);
    let browse = t.browse.unwrap();
    // Known FPP: no unicast bit on the last question.
    assert_eq!(browse[browse.len() - 2], 0);
    assert_eq!(task.next_browse, 1000 + BROWSE_INTERVAL_MS);
    // Not due yet: nothing.
    let t = task.on_timer(&mut disc, 2000);
    assert!(t.browse.is_none());
    assert_eq!(task.next_browse, 1000 + BROWSE_INTERVAL_MS);
}

#[test]
fn chataigne_messages_and_status() {
    assert_eq!(switch_message(3, true), b"SWITCH_3:1\n".to_vec());
    assert_eq!(switch_message(-2, false), b"SWITCH_-2:0\n".to_vec());
    assert_eq!(switch_update(6, true, true), None);
    assert_eq!(switch_update(6, false, true), Some(b"SWITCH_6:0\n".to_vec()));
    assert_eq!(after_send(true, false, true), Ok(true));
    assert_eq!(after_send(true, false, false), Err(()));
    assert_eq!(after_send(true, true, false), Ok(true));
    assert!(is_link_local([169, 254, 1, 1]));
    assert!(!is_link_local([192, 168, 1, 1]));
    for s in [
        ChataigneStatus::Lookup,
        ChataigneStatus::NoHost,
        ChataigneStatus::NoConn,
        ChataigneStatus::Connected,
        ChataigneStatus::Lost,
    ] {
        assert_eq!(chataigne_status(set_status(s)), s);
    }
    assert_eq!(chataigne_status(200), ChataigneStatus::Lookup);
    assert_eq!(status_after(LinkEvent::NotFound), ChataigneStatus::NoHost);
    assert_eq!(status_after(LinkEvent::ConnectFailed), ChataigneStatus::NoConn);
    assert_eq!(status_after(LinkEvent::Connected), ChataigneStatus::Connected);
    assert_eq!(status_after(LinkEvent::Dropped), ChataigneStatus::Lost);
}

#[test]
fn written_names_read_back() {
    let mut w = Writer::new(128);
    assert_eq!(w.bytes(&[0xaa, 0xbb]), Some(()));
    assert_eq!(w.name(b"pdmx-0001.local"), Some(()));
    assert_eq!(w.bytes(&[0xcc]), Some(()));
    let packet = w.into_bytes();
    let (end, name) = read_name(&packet, 2).unwrap();
    assert_eq!(name, b"pdmx-0001.local".to_vec());
    assert_eq!(packet[end], 0xcc);
}

#[test]
fn too_long_names_read_as_empty() {
    let long = format!("{}.{}.{}", "a".repeat(60), "b".repeat(60), "c".repeat(60));
    let mut w = Writer::new(256);
    assert_eq!(w.name(long.as_bytes()), Some(()));
    let packet = w.into_bytes();
    let (end, name) = read_name(&packet, 0).unwrap();
    assert!(name.is_empty());
    assert_eq!(end, packet.len());
}
