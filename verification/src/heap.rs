//! The `heapless` collections the library fills, and the calls it makes on them.
use vstd::prelude::*;
use vstd::utf8::encode_utf8;

verus! {

#[verifier::external_type_specification]
#[verifier::external_body]
pub struct ExHeaplessString<const N: usize>(heapless::String<N>);

/// The characters held by a configuration text buffer.
pub uninterp spec fn config_chars(s: heapless::String<8192>) -> Seq<char>;

/// `heapless::String::<8192>::new`: the buffer starts out empty.
#[verifier::external_body]
pub(crate) fn config_text_new() -> (s: heapless::String<8192>)
    ensures
        config_chars(s) == Seq::<char>::empty(),
{
    heapless::String::new()
}

/// `heapless::String::<8192>::push`: appends `c` when the UTF-8 bytes of the
/// text and of `c` together fit in the 8192-byte buffer; otherwise returns
/// `Err(())` and leaves the text as it was.
#[verifier::external_body]
pub(crate) fn config_text_push(s: &mut heapless::String<8192>, c: char) -> (r: Result<(), ()>)
    ensures
        encode_utf8(config_chars(*old(s))).len() + encode_utf8(seq![c]).len() <= 8192 ==> {
            &&& r is Ok
            &&& config_chars(*final(s)) == config_chars(*old(s)).push(c)
        },
        encode_utf8(config_chars(*old(s))).len() + encode_utf8(seq![c]).len() > 8192 ==> {
            &&& r is Err
            &&& config_chars(*final(s)) == config_chars(*old(s))
        },
{
    s.push(c)
}

#[verifier::external_type_specification]
#[verifier::external_body]
#[verifier::reject_recursive_types(T)]
pub struct ExHeaplessVec<T, const N: usize>(heapless::Vec<T, N>);

/// One remembered sensor: (address, last data value, time in ms it was seen).
pub type MemoryEntry = (u32, u8, u64);

/// The entries of a sensor memory: (address, data, time in ms), at most 8.
pub uninterp spec fn memory_entries(v: heapless::Vec<(u32, u8, u64), 8>) -> Seq<(u32, u8, u64)>;

/// `heapless::Vec::<_, 8>::new`: no entries.
#[verifier::external_body]
pub(crate) fn memory_new() -> (v: heapless::Vec<(u32, u8, u64), 8>)
    ensures
        memory_entries(v) == Seq::<(u32, u8, u64)>::empty(),
{
    heapless::Vec::new()
}

/// `len` of the memory (through `Deref` to a slice): the number of entries.
#[verifier::external_body]
pub(crate) fn memory_len(v: &heapless::Vec<(u32, u8, u64), 8>) -> (n: usize)
    ensures
        n == memory_entries(*v).len(),
{
    v.len()
}

/// Entry `i` of the memory (slice indexing through `Deref`).
#[verifier::external_body]
pub(crate) fn memory_get(v: &heapless::Vec<(u32, u8, u64), 8>, i: usize) -> (e: (u32, u8, u64))
    requires
        i < memory_entries(*v).len(),
    ensures
        e == memory_entries(*v)[i as int],
{
    v[i]
}

/// Overwrites entry `i` (slice indexing through `DerefMut`).
#[verifier::external_body]
pub(crate) fn memory_set(v: &mut heapless::Vec<(u32, u8, u64), 8>, i: usize, e: (u32, u8, u64))
    requires
        i < memory_entries(*old(v)).len(),
    ensures
        memory_entries(*final(v)) == memory_entries(*old(v)).update(i as int, e),
{
    v[i] = e;
}

/// `heapless::Vec::<_, 8>::push`: appends when fewer than 8 entries are
/// held, and otherwise hands the entry back and changes nothing.
#[verifier::external_body]
pub(crate) fn memory_push(v: &mut heapless::Vec<(u32, u8, u64), 8>, e: MemoryEntry) -> (r: Result<(), MemoryEntry>)
    ensures
        memory_entries(*old(v)).len() + 1 <= 8 ==> {
            &&& r is Ok
            &&& memory_entries(*final(v)) == memory_entries(*old(v)).push(e)
        },
        memory_entries(*old(v)).len() >= 8 ==> {
            &&& r == Err::<(), MemoryEntry>(e)
            &&& memory_entries(*final(v)) == memory_entries(*old(v))
        },
{
    v.push(e)
}

} // verus!
