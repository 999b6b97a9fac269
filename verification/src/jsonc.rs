//! Stripping `//` and `/* */` comments from JSONC configuration text.
use vstd::prelude::*;
use vstd::utf8::encode_utf8;
use crate::heap::{config_chars, config_text_new, config_text_push};

verus! {

/// Largest configuration text, in bytes, after comments are removed.
pub const MAX_CONFIG_LEN: usize = 8192;

/// Where the scanner stands between two characters.
#[derive(Clone, Copy, PartialEq, Eq, Debug)]
pub enum Scan {
    /// Ordinary JSON text.
    Code,
    /// A `/` was read in ordinary text; the next character decides what it starts.
    Slash,
    /// Inside a string literal; `escaped` after an unescaped backslash.
    Str { escaped: bool },
    /// Inside a `//` comment, up to the end of the line.
    Line,
    /// Inside a `/* */` comment; `star` when the last character was `*`.
    Block { star: bool },
}

/// What one input character adds to the output, and the scanner's next state.
/// Strings are copied verbatim (comment markers inside them are text), a line
/// comment becomes the newline that ends it, and a block comment becomes one space.
pub open spec fn scan_step(mode: Scan, c: char) -> (Seq<char>, Scan) {
    match mode {
        Scan::Code => if c == '"' {
            (seq![c], Scan::Str { escaped: false })
        } else if c == '/' {
            (Seq::empty(), Scan::Slash)
        } else {
            (seq![c], Scan::Code)
        },
        Scan::Slash => if c == '/' {
            (Seq::empty(), Scan::Line)
        } else if c == '*' {
            (Seq::empty(), Scan::Block { star: false })
        } else if c == '"' {
            (seq!['/', c], Scan::Str { escaped: false })
        } else {
            (seq!['/', c], Scan::Code)
        },
        Scan::Str { escaped } => if escaped {
            (seq![c], Scan::Str { escaped: false })
        } else if c == '\\' {
            (seq![c], Scan::Str { escaped: true })
        } else if c == '"' {
            (seq![c], Scan::Code)
        } else {
            (seq![c], Scan::Str { escaped: false })
        },
        Scan::Line => if c == '\n' {
            (seq!['\n'], Scan::Code)
        } else {
            (Seq::empty(), Scan::Line)
        },
        Scan::Block { star } => if star && c == '/' {
            (seq![' '], Scan::Code)
        } else {
            (Seq::empty(), Scan::Block { star: c == '*' })
        },
    }
}

/// What the end of the input adds: an unterminated block comment is an
/// error, a trailing lone `/` is kept.
pub open spec fn scan_finish(mode: Scan) -> Option<Seq<char>> {
    match mode {
        Scan::Block { .. } => None,
        Scan::Slash => Some(seq!['/']),
        _ => Some(Seq::empty()),
    }
}

/// `p` followed by the text in `r`, if there is one.
pub open spec fn prefixed(p: Seq<char>, r: Option<Seq<char>>) -> Option<Seq<char>> {
    match r {
        Some(t) => Some(p + t),
        None => None,
    }
}

/// The comment-free text of `s` from position `i` on, scanning in state `mode`.
pub open spec fn strip_from(s: Seq<char>, i: int, mode: Scan) -> Option<Seq<char>>
    decreases s.len() - i,
{
    if i < 0 || i >= s.len() {
        scan_finish(mode)
    } else {
        let (out, next) = scan_step(mode, s[i]);
        prefixed(out, strip_from(s, i + 1, next))
    }
}

/// The comment-free text of `s`, or `None` when a block comment is not closed.
pub open spec fn strip_jsonc(s: Seq<char>) -> Option<Seq<char>> {
    strip_from(s, 0, Scan::Code)
}

/// The UTF-8 length of a concatenation is the sum of the lengths.
pub proof fn lemma_encode_utf8_concat(a: Seq<char>, b: Seq<char>)
    ensures
        encode_utf8(a + b) == encode_utf8(a) + encode_utf8(b),
    decreases a.len(),
{
    if a.len() == 0 {
        assert(a + b =~= b);
        assert(encode_utf8(a) =~= Seq::<u8>::empty());
        assert(encode_utf8(a) + encode_utf8(b) =~= encode_utf8(b));
    } else {
        assert((a + b)[0] == a[0]);
        assert((a + b).drop_first() =~= a.drop_first() + b);
        lemma_encode_utf8_concat(a.drop_first(), b);
        assert(encode_utf8(a + b) =~= encode_utf8(a) + encode_utf8(b));
    }
}

fn push_or_fail(out: &mut heapless::String<8192>, c: char) -> (r: Result<(), ()>)
    ensures
        encode_utf8(config_chars(*old(out)).push(c)).len() <= 8192 ==> {
            &&& r is Ok
            &&& config_chars(*final(out)) == config_chars(*old(out)).push(c)
        },
        encode_utf8(config_chars(*old(out)).push(c)).len() > 8192 ==> r is Err,
{
    proof {
        let t = config_chars(*old(out));
        lemma_encode_utf8_concat(t, seq![c]);
        assert(t + seq![c] =~= t.push(c));
    }
    config_text_push(out, c)
}

/// Removes `//` line comments and `/* */` block comments from JSONC text,
/// leaving string literals untouched. A line comment is replaced by the
/// newline that ends it and a block comment by one space. Fails when a block
/// comment is never closed or the result does not fit in `MAX_CONFIG_LEN` bytes.
pub fn strip_jsonc_comments(input: &str) -> (r: Result<heapless::String<8192>, ()>)
    ensures
        r matches Ok(t) ==> {
            &&& strip_jsonc(input@) == Some(config_chars(t))
            &&& encode_utf8(config_chars(t)).len() <= MAX_CONFIG_LEN
        },
        r is Err ==> strip_jsonc(input@) is None || encode_utf8(strip_jsonc(input@)->0).len()
            > MAX_CONFIG_LEN,
{
    let ghost s = input@;
    let mut output = config_text_new();
    let mut chars = input.chars();
    let mut mode = Scan::Code;
    let ghost mut i: int = 0;
    assert(s.skip(0) =~= s);
    assert(prefixed(Seq::empty(), strip_from(s, 0, Scan::Code)) == strip_from(s, 0, Scan::Code)) by {
        match strip_from(s, 0, Scan::Code) {
            Some(t) => { assert(Seq::<char>::empty() + t =~= t); }
            None => {}
        }
    }
    loop
        invariant
            s == input@,
            0 <= i <= s.len(),
            vstd::std_specs::iter::IteratorSpec::remaining(&chars) == s.skip(i),
            strip_jsonc(s) == prefixed(config_chars(output), strip_from(s, i, mode)),
            encode_utf8(config_chars(output)).len() <= MAX_CONFIG_LEN,
        decreases s.len() - i,
    {
        let ghost before = config_chars(output);
        let next = chars.next();
        match next {
            None => {
                proof {
                    assert(s.skip(i).len() == 0);
                    assert(i == s.len());
                }
                match mode {
                    Scan::Block { .. } => {
                        return Err(());
                    }
                    Scan::Slash => {
                        let pushed = push_or_fail(&mut output, '/');
                        proof {
                            lemma_prefixed_push(before, seq!['/']);
                            assert(before + seq!['/'] =~= before.push('/'));
                        }
                        if pushed.is_err() {
                            return Err(());
                        }
                        proof {
                            assert(before + seq!['/'] =~= before.push('/'));
                        }
                        return Ok(output);
                    }
                    _ => {
                        proof {
                            assert(before + Seq::<char>::empty() =~= before);
                        }
                        return Ok(output);
                    }
                }
            }
            Some(c) => {
                proof {
                    assert(s.skip(i)[0] == s[i]);
                    assert(s.skip(i).drop_first() =~= s.skip(i + 1));
                }
                let ghost step = scan_step(mode, c);
                let ghost rest = strip_from(s, i + 1, step.1);
                proof {
                    lemma_prefixed_assoc(before, step.0, rest);
                }
                let (first, second, next_mode): (Option<char>, Option<char>, Scan) = match mode {
                    Scan::Code => if c == '"' {
                        (Some(c), None, Scan::Str { escaped: false })
                    } else if c == '/' {
                        (None, None, Scan::Slash)
                    } else {
                        (Some(c), None, Scan::Code)
                    },
                    Scan::Slash => if c == '/' {
                        (None, None, Scan::Line)
                    } else if c == '*' {
                        (None, None, Scan::Block { star: false })
                    } else if c == '"' {
                        (Some('/'), Some(c), Scan::Str { escaped: false })
                    } else {
                        (Some('/'), Some(c), Scan::Code)
                    },
                    Scan::Str { escaped } => if escaped {
                        (Some(c), None, Scan::Str { escaped: false })
                    } else if c == '\\' {
                        (Some(c), None, Scan::Str { escaped: true })
                    } else if c == '"' {
                        (Some(c), None, Scan::Code)
                    } else {
                        (Some(c), None, Scan::Str { escaped: false })
                    },
                    Scan::Line => if c == '\n' {
                        (Some('\n'), None, Scan::Code)
                    } else {
                        (None, None, Scan::Line)
                    },
                    Scan::Block { star } => if star && c == '/' {
                        (Some(' '), None, Scan::Code)
                    } else {
                        (None, None, Scan::Block { star: c == '*' })
                    },
                };
                proof {
                    match first {
                        None => { assert(step.0 =~= Seq::<char>::empty()); },
                        Some(a) => match second {
                            None => { assert(step.0 =~= seq![a]); },
                            Some(b) => { assert(step.0 =~= seq![a, b]); },
                        },
                    }
                    assert(next_mode == step.1);
                }
                if let Some(a) = first {
                    let pushed = push_or_fail(&mut output, a);
                    if pushed.is_err() {
                        proof {
                            lemma_overflow(before, step.0, rest, a);
                        }
                        return Err(());
                    }
                }
                if let Some(b) = second {
                    let pushed = push_or_fail(&mut output, b);
                    if pushed.is_err() {
                        proof {
                            lemma_overflow2(before, step.0, rest, b);
                        }
                        return Err(());
                    }
                }
                proof {
                    match first {
                        None => {
                            assert(before + step.0 =~= before);
                        },
                        Some(a) => match second {
                            None => {
                                assert(before + step.0 =~= before.push(a));
                            },
                            Some(b) => {
                                assert(before + step.0 =~= before.push(a).push(b));
                            },
                        },
                    }
                    assert(config_chars(output) == before + step.0);
                    i = i + 1;
                }
                mode = next_mode;
            }
        }
    }
}

proof fn lemma_prefixed_assoc(a: Seq<char>, b: Seq<char>, r: Option<Seq<char>>)
    ensures
        prefixed(a, prefixed(b, r)) == prefixed(a + b, r),
{
    match r {
        Some(t) => { assert(a + (b + t) =~= (a + b) + t); },
        None => {},
    }
}

proof fn lemma_prefixed_push(a: Seq<char>, b: Seq<char>)
    ensures
        prefixed(a, Some(b)) == Some(a + b),
{
}

/// When pushing the first emitted character overflows, the whole result
/// (if any) is longer than the buffer.
proof fn lemma_overflow(before: Seq<char>, emitted: Seq<char>, rest: Option<Seq<char>>, a: char)
    requires
        emitted.len() >= 1,
        emitted[0] == a,
        encode_utf8(before.push(a)).len() > 8192,
    ensures
        match prefixed(before + emitted, rest) {
            None => true,
            Some(t) => encode_utf8(t).len() > 8192,
        },
{
    match rest {
        Some(t) => {
            let whole = before + emitted + t;
            assert(whole =~= before.push(a) + (emitted.drop_first() + t));
            lemma_encode_utf8_concat(before.push(a), emitted.drop_first() + t);
        },
        None => {},
    }
}

/// Same, when the second of two emitted characters overflows.
proof fn lemma_overflow2(before: Seq<char>, emitted: Seq<char>, rest: Option<Seq<char>>, b: char)
    requires
        emitted.len() == 2,
        emitted[1] == b,
        encode_utf8(before.push(emitted[0]).push(b)).len() > 8192,
    ensures
        match prefixed(before + emitted, rest) {
            None => true,
            Some(t) => encode_utf8(t).len() > 8192,
        },
{
    match rest {
        Some(t) => {
            let whole = before + emitted + t;
            assert(whole =~= before.push(emitted[0]).push(b) + t);
            lemma_encode_utf8_concat(before.push(emitted[0]).push(b), t);
        },
        None => {},
    }
}

proof fn lemma_plain_passes(s: Seq<char>, i: int, mode: Scan)
    requires
        0 <= i <= s.len(),
        forall|k: int| 0 <= k < s.len() ==> s[k] != '/',
        mode is Code || mode is Str,
    ensures
        strip_from(s, i, mode) == Some(s.skip(i)),
    decreases s.len() - i,
{
    if i < s.len() {
        let (out, next) = scan_step(mode, s[i]);
        assert(out == seq![s[i]]);
        assert(next is Code || next is Str);
        lemma_plain_passes(s, i + 1, next);
        assert(seq![s[i]] + s.skip(i + 1) =~= s.skip(i));
    } else {
        assert(s.skip(i) =~= Seq::<char>::empty());
    }
}

/// Text without a `/` has no comment to strip: it comes back unchanged.
/// In particular plain JSON (where a `/` can only stand inside a string)
/// with no slash at all passes through as it is.
pub proof fn law_plain_json_unchanged(s: Seq<char>)
    requires
        forall|k: int| 0 <= k < s.len() ==> s[k] != '/',
    ensures
        strip_jsonc(s) == Some(s),
{
    lemma_plain_passes(s, 0, Scan::Code);
    assert(s.skip(0) =~= s);
}

proof fn lemma_string_body(s: Seq<char>, i: int, close: int)
    requires
        0 <= i <= close < s.len(),
        s[close] == '"',
        forall|k: int| i <= k < close ==> s[k] != '"' && s[k] != '\\',
    ensures
        strip_from(s, i, Scan::Str { escaped: false }) == prefixed(
            s.subrange(i, close + 1),
            strip_from(s, close + 1, Scan::Code),
        ),
    decreases close - i,
{
    if i < close {
        lemma_string_body(s, i + 1, close);
        match strip_from(s, close + 1, Scan::Code) {
            Some(t) => {
                assert(seq![s[i]] + (s.subrange(i + 1, close + 1) + t) =~= s.subrange(i, close + 1) + t);
            },
            None => {},
        }
    } else {
        match strip_from(s, close + 1, Scan::Code) {
            Some(t) => {
                assert(seq![s[i]] + t =~= s.subrange(i, close + 1) + t);
            },
            None => {},
        }
    }
}

/// A string literal is copied as it stands, whatever it holds: `//` or
/// `/*` inside quotes is text, not a comment (shown for literals without
/// quotes or backslashes inside).
pub proof fn law_strings_kept(s: Seq<char>, open: int, close: int)
    requires
        0 <= open < close < s.len(),
        s[open] == '"',
        s[close] == '"',
        forall|k: int| open < k < close ==> s[k] != '"' && s[k] != '\\',
    ensures
        strip_from(s, open, Scan::Code) == prefixed(s.subrange(open, close + 1), strip_from(s, close + 1, Scan::Code)),
{
    lemma_string_body(s, open + 1, close);
    match strip_from(s, close + 1, Scan::Code) {
        Some(t) => {
            assert(seq![s[open]] + (s.subrange(open + 1, close + 1) + t) =~= s.subrange(open, close + 1) + t);
        },
        None => {},
    }
}

/// The state in which a second pass over the stripped text stands where the
/// first pass stood in `m`: a pending `/` and the inside of a comment have
/// left nothing in the output yet, so the second pass is still in code.
pub open spec fn rescan_mode(m: Scan) -> Scan {
    match m {
        Scan::Str { escaped } => Scan::Str { escaped },
        _ => Scan::Code,
    }
}

proof fn lemma_strip_shift(p: Seq<char>, q: Seq<char>, j: int, m: Scan)
    requires
        0 <= j <= q.len(),
    ensures
        strip_from(p + q, p.len() + j, m) == strip_from(q, j, m),
    decreases q.len() - j,
{
    if j < q.len() {
        assert((p + q)[p.len() + j] == q[j]);
        let (out, next) = scan_step(m, q[j]);
        lemma_strip_shift(p, q, j + 1, next);
    }
}

proof fn lemma_strip_again(s: Seq<char>, i: int, m: Scan)
    requires
        0 <= i <= s.len(),
        strip_from(s, i, m) is Some,
    ensures
        strip_from(strip_from(s, i, m)->0, 0, rescan_mode(m)) == strip_from(s, i, m),
    decreases s.len() - i,
{
    let r = strip_from(s, i, m)->0;
    if i >= s.len() {
        if m is Slash {
            assert(r =~= seq!['/']);
            assert(strip_from(r, 1, Scan::Slash) == Some(seq!['/']));
            assert(strip_from(r, 0, Scan::Code) == prefixed(Seq::empty(), Some(seq!['/'])));
            assert(Seq::<char>::empty() + seq!['/'] =~= seq!['/']);
        }
    } else {
        let c = s[i];
        let (out, next) = scan_step(m, c);
        lemma_strip_again(s, i + 1, next);
        let r2 = strip_from(s, i + 1, next)->0;
        assert(r == out + r2);
        let om = rescan_mode(m);
        if out.len() == 0 {
            assert(out + r2 =~= r2);
            assert(rescan_mode(next) == om);
        } else if out.len() == 1 {
            lemma_strip_shift(out, r2, 0, next);
            assert((out + r2)[0] == out[0]);
            assert(scan_step(om, out[0]) == (out, next));
            assert(strip_from(out + r2, 0, om) == prefixed(out, strip_from(out + r2, 1, next)));
            assert(rescan_mode(next) == next);
        } else {
            assert(m is Slash);
            lemma_strip_shift(out, r2, 0, next);
            assert((out + r2)[0] == '/');
            assert((out + r2)[1] == c);
            assert(strip_from(out + r2, 1, Scan::Slash) == prefixed(out, strip_from(out + r2, 2, next)));
            assert(strip_from(out + r2, 0, Scan::Code) == prefixed(Seq::empty(), strip_from(out + r2, 1, Scan::Slash)));
            assert(rescan_mode(next) == next);
            assert(Seq::<char>::empty() + (out + r2) =~= out + r2);
        }
    }
}

/// Stripping is idempotent: the stripped text has no comment left in it, so
/// stripping it again gives it back unchanged. (A removed comment leaves a
/// newline or a space behind, never a new `//` or `/*`, and string literals
/// pass through untouched.)
pub proof fn law_strip_idempotent(s: Seq<char>)
    requires
        strip_jsonc(s) is Some,
    ensures
        strip_jsonc(strip_jsonc(s)->0) == strip_jsonc(s),
{
    lemma_strip_again(s, 0, Scan::Code);
}

} // verus!
