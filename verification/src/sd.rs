//! MP3 playback from the SD card, apart from the card, the decoder and the
//! I2S output: the bitstream buffer that is topped up from the file and
//! drained by the decoder, the resync rule for bytes that never decode, and
//! the packing of decoded samples into I2S words.
use vstd::prelude::*;

verus! {

/// Bytes of MP3 bitstream held ahead of the decoder.
pub const MP3_BUF_SIZE: usize = 16384;
/// Most stereo samples one MP3 frame decodes to.
pub const MAX_FRAME_SAMPLES: usize = 1152;
/// Decoded frames batched into one I2S transfer.
pub const FRAMES_PER_BATCH: usize = 6;
/// Words in one I2S transfer buffer.
pub const OUT_BUF_LEN: usize = 6912;

/// The bitstream not yet decoded, oldest byte first.
pub struct Mp3Buffer {
    data: Vec<u8>,
}

/// What a decode attempt leads to.
#[derive(Clone, Copy, PartialEq, Eq, Debug, Structural)]
pub enum DecodeStep {
    /// Nothing decoded and more bytes may still make a frame: read and try again.
    Wait,
    /// Bytes were dropped from the front (the decoded ones, or one byte to
    /// resync on a stream that will not decode as it stands).
    Advanced,
}

/// What a read of the file gave.
#[derive(Clone, Copy, PartialEq, Eq, Debug, Structural)]
pub enum ReadResult {
    /// This many bytes, now in the buffer.
    Data(usize),
    /// End of file.
    End,
    /// The card failed; treated as the end of the file.
    Failed,
}

/// Bytes dropped from the front after a decode: what the decoder consumed,
/// or one byte when nothing decoded, nothing was consumed, and waiting for
/// more data cannot help (end of file, or the buffer is full); `None` when
/// the buffer should wait for more bytes instead.
pub open spec fn drop_count(len: nat, consumed: nat, frame: bool, eof: bool) -> Option<nat> {
    if consumed == 0 && !frame {
        if eof || len >= MP3_BUF_SIZE {
            Some(1)
        } else {
            None
        }
    } else {
        Some(consumed)
    }
}

impl Mp3Buffer {
    pub closed spec fn view(&self) -> Seq<u8> {
        self.data@
    }

    pub closed spec fn wf(&self) -> bool {
        self.data@.len() <= MP3_BUF_SIZE
    }

    /// Empty.
    pub fn new() -> (b: Mp3Buffer)
        ensures
            b.wf(),
            b.view() == Seq::<u8>::empty(),
    {
        Mp3Buffer { data: Vec::new() }
    }

    /// The bytes waiting for the decoder.
    pub fn contents(&self) -> (s: &[u8])
        ensures
            s@ == self.view(),
    {
        self.data.as_slice()
    }

    /// How many bytes it holds.
    pub fn len(&self) -> (n: usize)
        requires
            self.wf(),
        ensures
            n == self.view().len(),
            n <= MP3_BUF_SIZE,
    {
        self.data.len()
    }

    /// How many more bytes fit.
    pub fn room(&self) -> (n: usize)
        requires
            self.wf(),
        ensures
            n == MP3_BUF_SIZE - self.view().len(),
    {
        MP3_BUF_SIZE - self.data.len()
    }

    /// Whether to read from the file before decoding: only before the end of
    /// the file and while there is room.
    pub fn wants_data(&self, eof: bool) -> (r: bool)
        requires
            self.wf(),
        ensures
            r == (!eof && self.view().len() < MP3_BUF_SIZE),
    {
        !eof && self.data.len() < MP3_BUF_SIZE
    }

    /// Takes the bytes a read brought. Returns whether the file has ended
    /// (after its last byte, or after a failed read).
    pub fn took(&mut self, read: ReadResult, bytes: &[u8]) -> (eof: bool)
        requires
            old(self).wf(),
            read matches ReadResult::Data(n) ==> n <= bytes@.len() && old(self).view().len() + n <= MP3_BUF_SIZE,
        ensures
            final(self).wf(),
            eof == match read {
                ReadResult::Data(n) => n == 0,
                _ => true,
            },
            final(self).view() == match read {
                ReadResult::Data(n) => old(self).view() + bytes@.take(n as int),
                _ => old(self).view(),
            },
    {
        match read {
            ReadResult::Data(n) => {
                let mut i: usize = 0;
                while i < n
                    invariant
                        i <= n,
                        n <= bytes@.len(),
                        old(self).view().len() + n <= MP3_BUF_SIZE,
                        self.data@ == old(self).view() + bytes@.take(i as int),
                    decreases n - i,
                {
                    self.data.push(bytes[i]);
                    proof {
                        assert(bytes@.take(i as int + 1) =~= bytes@.take(i as int).push(bytes@[i as int]));
                    }
                    i = i + 1;
                }
                n == 0
            },
            _ => true,
        }
    }

    /// After the decoder has looked at the contents: drops what it consumed,
    /// or resyncs by one byte (see `drop_count`).
    pub fn after_decode(&mut self, consumed: usize, frame: bool, eof: bool) -> (r: DecodeStep)
        requires
            old(self).wf(),
            old(self).view().len() > 0,
            consumed <= old(self).view().len(),
        ensures
            final(self).wf(),
            match drop_count(old(self).view().len(), consumed as nat, frame, eof) {
                Some(k) => r == DecodeStep::Advanced && final(self).view() == old(self).view().skip(k as int),
                None => r == DecodeStep::Wait && final(self).view() == old(self).view(),
            },
    {
        let len = self.data.len();
        let k: usize = if consumed == 0 && !frame {
            if eof || len >= MP3_BUF_SIZE {
                1
            } else {
                return DecodeStep::Wait;
            }
        } else {
            consumed
        };
        let mut rest: Vec<u8> = Vec::new();
        let mut i: usize = k;
        while i < len
            invariant
                k <= i <= len,
                len == self.data@.len(),
                rest@ == self.data@.subrange(k as int, i as int),
            decreases len - i,
        {
            rest.push(self.data[i]);
            proof {
                assert(self.data@.subrange(k as int, i as int + 1) =~= self.data@.subrange(k as int, i as int).push(self.data@[i as int]));
            }
            i = i + 1;
        }
        proof {
            assert(rest@ =~= self.data@.skip(k as int));
        }
        self.data = rest;
        DecodeStep::Advanced
    }
}

/// Whether a batch has room for one more decoded frame.
pub fn batch_has_room(out_len: usize, out_cap: usize) -> (r: bool)
    ensures
        r == (out_len + MAX_FRAME_SAMPLES <= out_cap),
{
    out_len <= out_cap && out_cap - out_len >= MAX_FRAME_SAMPLES
}

/// One I2S word: the left sample in the high 16 bits, the right in the low.
pub fn pack_stereo(left: u16, right: u16) -> (w: u32)
    ensures
        w == left as u32 * 65536 + right as u32,
{
    let w = ((left as u32) << 16) | (right as u32);
    proof {
        assert((((left as u32) << 16) | (right as u32)) == left as u32 * 65536 + right as u32) by (bit_vector);
    }
    w
}

/// Dropping what the decoder consumed keeps the bytes after it, in order;
/// and a stream that never decodes still moves on by one byte per attempt
/// once the file has ended or the buffer is full, so the decoder is never
/// stuck on the same bytes.
pub proof fn law_resync_always_progresses(len: nat, consumed: nat, frame: bool, eof: bool)
    requires
        0 < len <= MP3_BUF_SIZE,
        consumed <= len,
    ensures
        (eof || len == MP3_BUF_SIZE) ==> (drop_count(len, consumed, frame, eof) matches Some(k) && (k > 0 || frame)),
        drop_count(len, consumed, frame, eof) is None ==> !eof && len < MP3_BUF_SIZE && consumed == 0 && !frame,
{
}

} // verus!
