//! Headers of the requests that are sent to workers.
use http::{HeaderMap, HeaderValue};
use vstd::prelude::*;

use crate::config::DistributedConfig;
use crate::error::ExecutionError;

verus! {

/// The header map of the http crate.
#[verifier::external_type_specification]
#[verifier::external_body]
#[verifier::reject_recursive_types(T)]
pub struct ExHeaderMap<T>(HeaderMap<T>);

/// The header value of the http crate.
#[verifier::external_type_specification]
#[verifier::external_body]
pub struct ExHeaderValue(HeaderValue);

/// The headers in a map: for each name, in lower case, the bytes of its values in their order.
pub uninterp spec fn headers_of(headers: HeaderMap<HeaderValue>) -> Map<Seq<char>, Seq<Seq<u8>>>;

/// Whether a text can be the name of a header as it stands: lower case letters, digits and a few
/// signs.
pub open spec fn is_header_name(text: Seq<char>) -> bool {
    &&& 0 < text.len() <= 64
    &&& forall|i: int|
        #![trigger text[i]]
        0 <= i < text.len() ==> {
            ||| 'a' <= text[i] <= 'z'
            ||| '0' <= text[i] <= '9'
            ||| text[i] == '.' || text[i] == '_' || text[i] == '-'
        }
}

/// Whether a text consists of visible characters.
pub open spec fn is_visible(text: Seq<char>) -> bool {
    forall|i: int| #![trigger text[i]] 0 <= i < text.len() ==> ' ' <= text[i] <= '~'
}

/// The bytes of a text of visible characters.
pub open spec fn visible_bytes(text: Seq<char>) -> Seq<u8> {
    text.map_values(|c: char| c as u8)
}

/// Sets a header, by `HeaderMap::try_insert` of the http crate with a value made by
/// `HeaderValue::from_str`.
///
/// The claim is that all values of the name are replaced by the new one, and no other header is
/// touched; and that the map refuses, and stays as it was, only where it has more than 6553 names:
/// it grows to at most 32768 slots, and asks for more than that only once a fifth of them is
/// taken.
#[verifier::external_body]
fn try_insert_header(
    headers: &mut HeaderMap<HeaderValue>,
    name: &'static str,
    value: &str,
) -> (inserted: bool)
    requires
        is_header_name(name@),
        is_visible(value@),
    ensures
        inserted ==> headers_of(*final(headers)) == headers_of(*old(headers)).insert(
            name@,
            seq![visible_bytes(value@)],
        ),
        !inserted ==> headers_of(*final(headers)) == headers_of(*old(headers)) && headers_of(
            *old(headers),
        ).dom().len() > 6553,
{
    match HeaderValue::from_str(value) {
        Ok(value) => headers.try_insert(name, value).is_ok(),
        Err(_) => false,
    }
}

/// The headers with the settings that workers need for execution.
pub open spec fn with_distributed_config(
    headers: Map<Seq<char>, Seq<Seq<u8>>>,
    d_cfg: DistributedConfig,
) -> Map<Seq<char>, Seq<Seq<u8>>> {
    headers.insert(
        "distributed.collect_metrics"@,
        seq![
            visible_bytes(
                if d_cfg.collect_metrics {
                    "true"@
                } else {
                    "false"@
                },
            ),
        ],
    )
}

/// Adds the settings that are relevant for execution to the headers of a request. This fails only
/// where the request has no room for another header.
pub fn manually_propagate_distributed_config(
    headers: HeaderMap<HeaderValue>,
    d_cfg: &DistributedConfig,
) -> (propagated: Result<HeaderMap<HeaderValue>, ExecutionError>)
    ensures
        match propagated {
            Ok(propagated) => headers_of(propagated) == with_distributed_config(
                headers_of(headers),
                *d_cfg,
            ),
            Err(error) => error == ExecutionError::TooManyHeaders && headers_of(
                headers,
            ).dom().len() > 6553,
        },
{
    let mut headers = headers;
    let value = if d_cfg.collect_metrics {
        "true"
    } else {
        "false"
    };
    proof {
        reveal_strlit("true");
        reveal_strlit("false");
        reveal_strlit("distributed.collect_metrics");
    }
    if try_insert_header(&mut headers, "distributed.collect_metrics", value) {
        Ok(headers)
    } else {
        Err(ExecutionError::TooManyHeaders)
    }
}

}
