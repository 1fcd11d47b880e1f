//! Byte strings: copying, comparing and viewing them.

use vstd::prelude::*;
use vstd::slice::slice_to_vec;
use vstd::string::StringSliceAdditionalSpecFns;
use vstd::utf8::valid_utf8;

verus! {

/// A command as a client sends it: its name and arguments.
pub type Command = Vec<Vec<u8>>;

/// The byte strings that a list holds.
pub open spec fn contents(list: Seq<Vec<u8>>) -> Seq<Seq<u8>> {
    Seq::new(list.len(), |i: int| list[i]@)
}

/// The byte with an ASCII capital letter made small.
pub open spec fn lowercase(byte: u8) -> u8 {
    if 65 <= byte <= 90 {
        (byte + 32) as u8
    } else {
        byte
    }
}

/// Equality of byte strings up to the case of ASCII letters.
pub open spec fn same_ignoring_case(a: Seq<u8>, b: Seq<u8>) -> bool {
    &&& a.len() == b.len()
    &&& forall|i: int| 0 <= i < a.len() ==> lowercase(#[trigger] a[i]) == lowercase(b[i])
}

/// The bytes of a text.
pub open spec fn bytes_of(text: &str) -> Seq<u8> {
    text.spec_bytes()
}

/// Whether an argument spells the keyword `word`, in any case.
pub open spec fn is_word(argument: Seq<u8>, word: &str) -> bool {
    same_ignoring_case(argument, bytes_of(word))
}

/// `std::str::from_utf8`: it accepts exactly the byte strings that are valid UTF-8.
#[verifier::external_body]
pub(crate) fn is_utf8(bytes: &[u8]) -> (result: bool)
    ensures
        result == valid_utf8(bytes@),
{
    std::str::from_utf8(bytes).is_ok()
}

fn to_lowercase(byte: u8) -> (result: u8)
    ensures
        result == lowercase(byte),
{
    if 65 <= byte && byte <= 90 {
        byte + 32
    } else {
        byte
    }
}

/// Compares two byte strings up to the case of ASCII letters.
pub fn eq_ignore_ascii_case(a: &[u8], b: &[u8]) -> (result: bool)
    ensures
        result == same_ignoring_case(a@, b@),
{
    if a.len() != b.len() {
        return false;
    }
    for i in 0..a.len()
        invariant
            a@.len() == b@.len(),
            forall|j: int| 0 <= j < i ==> lowercase(#[trigger] a@[j]) == lowercase(b@[j]),
    {
        if to_lowercase(a[i]) != to_lowercase(b[i]) {
            return false;
        }
    }
    true
}

/// Whether an argument spells the keyword `word`, in any case.
pub fn is_keyword(argument: &[u8], word: &str) -> (result: bool)
    ensures
        result == is_word(argument@, word),
{
    eq_ignore_ascii_case(argument, word.as_bytes())
}

/// Compares two byte strings.
pub fn bytes_equal(a: &[u8], b: &[u8]) -> (result: bool)
    ensures
        result == (a@ == b@),
{
    if a.len() != b.len() {
        return false;
    }
    for i in 0..a.len()
        invariant
            a@.len() == b@.len(),
            forall|j: int| 0 <= j < i ==> a@[j] == b@[j],
    {
        if a[i] != b[i] {
            return false;
        }
    }
    assert(a@ =~= b@);
    true
}

/// Whether an argument is `text`, byte for byte.
pub fn is_text(argument: &[u8], text: &str) -> (result: bool)
    ensures
        result == (argument@ == bytes_of(text)),
{
    bytes_equal(argument, text.as_bytes())
}

/// The bytes of a text.
pub fn to_bytes(text: &str) -> (result: Vec<u8>)
    ensures
        result@ == bytes_of(text),
{
    slice_to_vec(text.as_bytes())
}

/// A copy of a byte string.
pub fn copy_bytes(bytes: &[u8]) -> (result: Vec<u8>)
    ensures
        result@ == bytes@,
{
    slice_to_vec(bytes)
}

/// A copy of the items of a list from index `from` up to, not including, `to`.
pub fn copy_range(list: &[Vec<u8>], from: usize, to: usize) -> (result: Vec<Vec<u8>>)
    requires
        from <= to <= list@.len(),
    ensures
        contents(result@) == contents(list@).subrange(from as int, to as int),
{
    let mut result: Vec<Vec<u8>> = Vec::new();
    for i in from..to
        invariant
            from <= to <= list@.len(),
            result@.len() == i - from,
            forall|j: int| 0 <= j < result@.len() ==> (#[trigger] result@[j])@ == list@[from + j]@,
    {
        result.push(copy_bytes(list[i].as_slice()));
    }
    assert(contents(result@) =~= contents(list@).subrange(from as int, to as int));
    result
}

/// A copy of a list of byte strings.
pub fn copy_list(list: &[Vec<u8>]) -> (result: Vec<Vec<u8>>)
    ensures
        contents(result@) == contents(list@),
{
    let result = copy_range(list, 0, list.len());
    assert(contents(list@).subrange(0, list@.len() as int) =~= contents(list@));
    result
}

/// Appends a byte string to a buffer.
pub fn append(out: &mut Vec<u8>, bytes: &[u8])
    ensures
        final(out)@ == old(out)@ + bytes@,
{
    out.extend_from_slice(bytes);
    assert(out@ =~= old(out)@ + bytes@);
}

} // verus!
