use vstd::prelude::*;
use crate::codec::is_alnum_seq;

verus! {

/// The Content-Type value of a multipart/mixed part with boundary `b`.
pub open spec fn mixed_content_type_of(b: Seq<char>) -> Seq<char> {
    "multipart/mixed; boundary=\""@ + b + "\""@
}

/// The boundary parameter of a Content-Type value, as mime's parser
/// extracts it: nothing when the value does not parse as a media type or
/// carries no boundary parameter.
pub uninterp spec fn boundary_of(ct: Seq<char>) -> Option<Seq<char>>;

/// Relies on mime's `Mime` parser and `get_param`: yields the boundary
/// parameter with quotes stripped; a value of the exact shape
/// `multipart/mixed; boundary="<token>"` with a nonempty alphanumeric
/// token parses, and its boundary parameter is that token.
#[verifier::external_body]
pub(crate) fn content_type_boundary(ct: &str) -> (r: Option<String>)
    ensures
        r matches Some(b) ==> boundary_of(ct@) == Some(b@),
        r is None ==> boundary_of(ct@) is None,
        r is Some <== exists|b: Seq<char>|
            ct@ == #[trigger] mixed_content_type_of(b) && 1 <= b.len() && is_alnum_seq(b),
{
    match ct.parse::<mime::Mime>() {
        Ok(m) => match m.get_param(mime::BOUNDARY) {
            Some(v) => Some(v.as_str().to_owned()),
            None => None,
        },
        Err(_) => None,
    }
}

} // verus!
