//! Draws from the fuzzer's byte source.
use vstd::prelude::*;
use libfuzzer_sys::arbitrary::Unstructured;

verus! {

/// The fuzzer's byte source, carried through as an opaque value.
#[verifier::external_type_specification]
#[verifier::external_body]
pub struct ExUnstructured<'a>(Unstructured<'a>);

/// Relies on `Unstructured::int_in_range`: on success, a value of `lo..=hi`.
/// It panics on an empty range, hence `lo <= hi`.
#[verifier::external_body]
pub(crate) fn draw_in_range(u: &mut Unstructured, lo: usize, hi: usize) -> (r: Option<usize>)
    requires
        lo <= hi,
    ensures
        r matches Some(x) ==> lo <= x <= hi,
{
    u.int_in_range(lo..=hi).ok()
}

/// Relies on `Unstructured::choose_index`: on success, an index below `len`;
/// an error where `len` is 0.
#[verifier::external_body]
pub(crate) fn draw_index(u: &mut Unstructured, len: usize) -> (r: Option<usize>)
    ensures
        len == 0 ==> r is None,
        r matches Some(i) ==> i < len,
{
    u.choose_index(len).ok()
}

/// Relies on `Unstructured::ratio`: a coin that comes up true about
/// `numerator / denominator` of the time. It panics unless
/// `0 < numerator <= denominator`.
#[verifier::external_body]
pub(crate) fn draw_ratio(u: &mut Unstructured, numerator: u32, denominator: u32) -> (r: Option<bool>)
    requires
        0 < numerator <= denominator,
{
    u.ratio(numerator, denominator).ok()
}

/// Relies on `Unstructured::arbitrary` for `usize`: any value.
#[verifier::external_body]
pub(crate) fn draw_usize(u: &mut Unstructured) -> (r: Option<usize>) {
    u.arbitrary::<usize>().ok()
}

} // verus!
