//! Character properties from outside the library: the Unicode identifier
//! properties of `unic_ucd_ident`, and std's conversion of a code point to a
//! `char`.
use vstd::prelude::*;
use vstd::utf8::is_scalar;

verus! {

/// Whether `c` has the Unicode property ID_Start.
pub uninterp spec fn id_start_property(c: char) -> bool;

/// Whether `c` has the Unicode property ID_Continue.
pub uninterp spec fn id_continue_property(c: char) -> bool;

/// Relies on `unic_ucd_ident::is_id_start`: a lookup of ID_Start in the
/// crate's Unicode tables, a function of the character alone.
#[verifier::external_body]
pub(crate) fn has_id_start(c: char) -> (r: bool)
    ensures
        r == id_start_property(c),
{
    unic_ucd_ident::is_id_start(c)
}

/// Relies on `unic_ucd_ident::is_id_continue`: a lookup of ID_Continue in the
/// crate's Unicode tables, a function of the character alone.
#[verifier::external_body]
pub(crate) fn has_id_continue(c: char) -> (r: bool)
    ensures
        r == id_continue_property(c),
{
    unic_ucd_ident::is_id_continue(c)
}

/// Relies on `std::char::from_u32`: `Some` exactly for Unicode scalar values,
/// holding the character with that code point.
#[verifier::external_body]
pub(crate) fn char_from_u32(v: u32) -> (r: Option<char>)
    ensures
        r == (if is_scalar(v) {
            Some(v as char)
        } else {
            None::<char>
        }),
{
    std::char::from_u32(v)
}

} // verus!
