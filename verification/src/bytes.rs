//! Comparing and joining byte strings.

use vstd::prelude::*;

verus! {

/// Whether two byte strings are the same.
pub fn bytes_equal(left: &[u8], right: &[u8]) -> (equal: bool)
    ensures
        equal == (left@ == right@),
{
    if left.len() != right.len() {
        return false;
    }
    let mut at: usize = 0;
    while at < left.len()
        invariant
            left.len() == right.len(),
            at <= left.len(),
            forall|i: int| 0 <= i < at ==> left@[i] == right@[i],
        decreases left.len() - at,
    {
        if left[at] != right[at] {
            return false;
        }
        at += 1;
    }
    assert(left@ =~= right@);
    true
}

/// Whether a byte string begins with another one.
pub fn starts_with(bytes: &[u8], prefix: &[u8]) -> (result: bool)
    ensures
        result == prefix@.is_prefix_of(bytes@),
{
    if bytes.len() < prefix.len() {
        return false;
    }
    let head = vstd::slice::slice_subrange(bytes, 0, prefix.len());
    let equal = bytes_equal(head, prefix);
    assert(equal == prefix@.is_prefix_of(bytes@)) by {
        if equal {
            assert(prefix@ =~= bytes@.subrange(0, prefix@.len() as int));
        }
    }
    equal
}

/// Adds bytes at the end of a buffer.
pub fn append(out: &mut Vec<u8>, bytes: &[u8])
    ensures
        final(out)@ == old(out)@ + bytes@,
{
    out.extend_from_slice(bytes);
    assert(out@ =~= old(out)@ + bytes@);
}

/// A copy of a byte string.
pub fn copy(bytes: &[u8]) -> (copied: Vec<u8>)
    ensures
        copied@ == bytes@,
{
    let mut copied: Vec<u8> = Vec::new();
    append(&mut copied, bytes);
    assert(copied@ =~= bytes@);
    copied
}

/// The bytes of a text of ASCII characters are their numbers.
pub proof fn lemma_ascii_bytes(text: Seq<char>, bytes: Seq<u8>)
    requires
        text.len() == bytes.len(),
        forall|i: int|
            0 <= i < text.len() ==> (#[trigger] text[i]) as int == bytes[i] && bytes[i] < 128,
    ensures
        vstd::utf8::encode_utf8(text) == bytes,
{
    vstd::utf8::is_ascii_chars_encode_utf8(text);
    assert(vstd::utf8::encode_utf8(text) =~= bytes);
}

} // verus!
