//! The fixed-capacity `heapless` strings and byte vectors that the settings
//! and the form decoder hold, behind their trusted contracts.

use vstd::prelude::*;
use vstd::string::StringSliceAdditionalSpecFns;

verus! {

#[verifier::external_type_specification]
#[verifier::external_body]
pub struct ExHeaplessString<const N: usize>(heapless::String<N>);

#[verifier::external_type_specification]
#[verifier::external_body]
#[verifier::reject_recursive_types(T)]
pub struct ExHeaplessVec<T, const N: usize>(heapless::Vec<T, N>);

/// The characters a `heapless::String<32>` holds.
pub uninterp spec fn string32_text(s: heapless::String<32>) -> Seq<char>;

/// The characters a `heapless::String<64>` holds.
pub uninterp spec fn string64_text(s: heapless::String<64>) -> Seq<char>;

/// The bytes a `heapless::Vec<u8, 16>` holds.
pub uninterp spec fn vec16_items(v: heapless::Vec<u8, 16>) -> Seq<u8>;

/// The bytes a `heapless::Vec<u8, 64>` holds.
pub uninterp spec fn vec64_items(v: heapless::Vec<u8, 64>) -> Seq<u8>;

/// Calls `heapless::String::<32>::try_from(&str)`, which copies the string
/// when its UTF-8 bytes fit the 32-byte capacity and fails otherwise.
#[verifier::external_body]
pub(crate) fn string32_from(s: &str) -> (r: Option<heapless::String<32>>)
    ensures
        r is Some <==> s.spec_bytes().len() <= 32,
        r matches Some(h) ==> string32_text(h) == s@,
{
    heapless::String::try_from(s).ok()
}

/// Calls `heapless::String::<64>::try_from(&str)`, which copies the string
/// when its UTF-8 bytes fit the 64-byte capacity and fails otherwise.
#[verifier::external_body]
pub(crate) fn string64_from(s: &str) -> (r: Option<heapless::String<64>>)
    ensures
        r is Some <==> s.spec_bytes().len() <= 64,
        r matches Some(h) ==> string64_text(h) == s@,
{
    heapless::String::try_from(s).ok()
}

/// Calls `heapless::String::<32>::as_str`: the held text, whose UTF-8 bytes
/// never exceed the capacity.
#[verifier::external_body]
pub(crate) fn string32_as_str(h: &heapless::String<32>) -> (r: &str)
    ensures
        r@ == string32_text(*h),
        r.spec_bytes().len() <= 32,
{
    h.as_str()
}

/// Calls `heapless::String::<64>::as_str`: the held text, whose UTF-8 bytes
/// never exceed the capacity.
#[verifier::external_body]
pub(crate) fn string64_as_str(h: &heapless::String<64>) -> (r: &str)
    ensures
        r@ == string64_text(*h),
        r.spec_bytes().len() <= 64,
{
    h.as_str()
}

/// Calls `heapless::Vec::<u8, 16>::new`: an empty vector.
#[verifier::external_body]
pub(crate) fn vec16_new() -> (r: heapless::Vec<u8, 16>)
    ensures
        vec16_items(r) == Seq::<u8>::empty(),
{
    heapless::Vec::new()
}

/// Calls `heapless::Vec::<u8, 64>::new`: an empty vector.
#[verifier::external_body]
pub(crate) fn vec64_new() -> (r: heapless::Vec<u8, 64>)
    ensures
        vec64_items(r) == Seq::<u8>::empty(),
{
    heapless::Vec::new()
}

/// Calls `heapless::Vec::<u8, 16>::push`: appends when fewer than 16 bytes are
/// held (`true`), and leaves the vector as it was otherwise (`false`).
#[verifier::external_body]
pub(crate) fn vec16_push(v: &mut heapless::Vec<u8, 16>, b: u8) -> (r: bool)
    ensures
        r == (vec16_items(*old(v)).len() < 16),
        r ==> vec16_items(*final(v)) == vec16_items(*old(v)).push(b),
        !r ==> vec16_items(*final(v)) == vec16_items(*old(v)),
{
    v.push(b).is_ok()
}

/// Calls `heapless::Vec::<u8, 64>::push`: appends when fewer than 64 bytes are
/// held (`true`), and leaves the vector as it was otherwise (`false`).
#[verifier::external_body]
pub(crate) fn vec64_push(v: &mut heapless::Vec<u8, 64>, b: u8) -> (r: bool)
    ensures
        r == (vec64_items(*old(v)).len() < 64),
        r ==> vec64_items(*final(v)) == vec64_items(*old(v)).push(b),
        !r ==> vec64_items(*final(v)) == vec64_items(*old(v)),
{
    v.push(b).is_ok()
}

/// Calls `heapless::Vec::<u8, 16>::as_slice`: the held bytes.
#[verifier::external_body]
pub(crate) fn vec16_as_slice(v: &heapless::Vec<u8, 16>) -> (r: &[u8])
    ensures
        r@ == vec16_items(*v),
{
    v.as_slice()
}

/// Calls `heapless::Vec::<u8, 64>::as_slice`: the held bytes.
#[verifier::external_body]
pub(crate) fn vec64_as_slice(v: &heapless::Vec<u8, 64>) -> (r: &[u8])
    ensures
        r@ == vec64_items(*v),
{
    v.as_slice()
}

} // verus!
