//! What this library takes on trust from the standard library: three Unicode
//! properties of a character, and the validation of UTF-8.
//!
//! Nothing here is proved. Each contract below restates what the standard
//! library documents of the function it is attached to.

use vstd::prelude::*;
use vstd::string::StringSliceAdditionalSpecFns;
use vstd::utf8::valid_utf8;

verus! {

/// Whether `c` has the Unicode property `White_Space`, as `char::is_whitespace`
/// reports it.
pub uninterp spec fn has_white_space(c: char) -> bool;

/// Whether `c` has the Unicode property `Alphabetic`, as `char::is_alphabetic`
/// reports it.
pub uninterp spec fn has_alphabetic(c: char) -> bool;

/// Whether `c` is alphabetic or numeric in Unicode's sense, as
/// `char::is_alphanumeric` reports it.
pub uninterp spec fn has_alphanumeric(c: char) -> bool;

/// `char::is_whitespace` depends on its argument alone; its answer is named
/// [`has_white_space`]. Nothing is claimed about which characters have the
/// property.
pub assume_specification[ char::is_whitespace ](c: char) -> (r: bool)
    ensures
        r == has_white_space(c),
;

/// `char::is_alphabetic` depends on its argument alone; its answer is named
/// [`has_alphabetic`]. Nothing is claimed about which characters have the
/// property.
pub assume_specification[ char::is_alphabetic ](c: char) -> (r: bool)
    ensures
        r == has_alphabetic(c),
;

/// `char::is_alphanumeric` depends on its argument alone; its answer is named
/// [`has_alphanumeric`]. Nothing is claimed about which characters have the
/// property.
pub assume_specification[ char::is_alphanumeric ](c: char) -> (r: bool)
    ensures
        r == has_alphanumeric(c),
;

/// The error of `core::str::from_utf8`. It is only ever told apart from
/// success; nothing inside it is read.
#[verifier::external_type_specification]
#[verifier::external_body]
pub struct ExUtf8Error(core::str::Utf8Error);

/// `core::str::from_utf8` succeeds exactly on well-formed UTF-8, and the string
/// slice it then returns is made of the very bytes it was given.
pub assume_specification<'a>[ core::str::from_utf8 ](v: &'a [u8]) -> (r: Result<
    &'a str,
    core::str::Utf8Error,
>)
    ensures
        r is Ok <==> valid_utf8(v@),
        r matches Ok(s) ==> s.spec_bytes() == v@,
;

} // verus!
