//! Helpers for the text that components show.

use vstd::prelude::*;
use vstd::string::StringSliceAdditionalSpecFns;
use vstd::utf8::is_char_boundary;

verus! {

/// `val` without its last `cut` bytes. The cut has to fall between two
/// characters.
pub fn cut_off_end(val: &str, cut: usize) -> (r: &str)
    requires
        cut <= val.spec_bytes().len(),
        is_char_boundary(val.spec_bytes(), val.spec_bytes().len() - cut),
    ensures
        r.spec_bytes() == val.spec_bytes().subrange(0, val.spec_bytes().len() - cut),
{
    let len: usize = val.as_bytes().len();
    val.split_at(len - cut).0
}

/// Whether `cut` bytes can be cut off the end of `val`: it has that many, and
/// the cut falls between two characters.
pub fn can_cut_off_end(val: &str, cut: usize) -> (r: bool)
    ensures
        r == (cut <= val.spec_bytes().len() && is_char_boundary(
            val.spec_bytes(),
            val.spec_bytes().len() - cut,
        )),
{
    let len: usize = val.as_bytes().len();
    cut <= len && val.is_char_boundary(len - cut)
}

} // verus!
