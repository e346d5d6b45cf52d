use actix_http::http::{HeaderMap, HeaderName, HeaderValue};
use vstd::prelude::*;

verus! {

/// The headers of a message, a multimap from header names to values.
#[verifier::external_type_specification]
#[verifier::external_body]
pub struct ExHeaderMap(HeaderMap);

/// What a header map holds: under each header name, in lower case, the values of that header
/// in their order.
pub uninterp spec fn header_values(headers: HeaderMap) -> Map<Seq<char>, Seq<Seq<u8>>>;

/// Whether a text is the name of a header, spelt in letters of lower case, digits and hyphens.
pub open spec fn is_header_name(text: Seq<char>) -> bool {
    &&& 0 < text.len() < 64
    &&& forall|i: int|
        0 <= i < text.len() ==> {
            ||| 'a' <= #[trigger] text[i] <= 'z'
            ||| '0' <= text[i] <= '9'
            ||| text[i] == '-'
        }
}

/// Whether a text can be the value of a header: visible ASCII, spaces and tabs.
pub open spec fn is_header_value(text: Seq<char>) -> bool {
    forall|i: int| 0 <= i < text.len() ==> ' ' <= #[trigger] text[i] <= '~' || text[i] == '\t'
}

/// The bytes of an ASCII text.
pub open spec fn ascii_bytes(text: Seq<char>) -> Seq<u8> {
    text.map_values(|c: char| c as u8)
}

/// Calls `HeaderMap::insert` of `actix_http`: the header is left with the given value alone,
/// whatever values it had, and the other headers stay as they are. The texts are turned into a
/// name and a value by `HeaderName::from_static` and `HeaderValue::from_static`, which panic on
/// texts that are neither.
#[verifier::external_body]
pub(crate) fn insert_header(headers: &mut HeaderMap, name: &'static str, value: &'static str)
    requires
        is_header_name(name@),
        is_header_value(value@),
    ensures
        header_values(*final(headers)) == header_values(*old(headers)).insert(
            name@,
            seq![ascii_bytes(value@)],
        ),
{
    headers.insert(HeaderName::from_static(name), HeaderValue::from_static(value))
}

} // verus!
