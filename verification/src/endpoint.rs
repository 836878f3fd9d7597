//! Endpoint ids: the public keys that name nodes on the network.
use crate::text;
use vstd::prelude::*;

verus! {

/// What [`iroh::EndpointId`] reads in a text: the key, or the message of the
/// parse error.
pub uninterp spec fn endpoint_key(text: Seq<char>) -> Result<[u8; 32], Seq<char>>;

/// Calls `iroh::EndpointId::from_str` (through `str::parse`), which reads a
/// public key from its hexadecimal or base32 encoding. The contract claims that
/// the key, or the error's message, depends on the text alone, and that the
/// lowercase hexadecimal rendering of a key that was read is read as the same
/// key.
#[verifier::external_body]
fn read_endpoint_key(text: &str) -> (r: Result<[u8; 32], String>)
    ensures
        match r {
            Ok(key) => endpoint_key(text@) == Ok::<[u8; 32], Seq<char>>(key) && endpoint_key(
                text::hex_lower(key@),
            ) == Ok::<[u8; 32], Seq<char>>(key),
            Err(detail) => endpoint_key(text@) == Err::<[u8; 32], Seq<char>>(detail@),
        },
{
    match text.parse::<iroh::EndpointId>() {
        Ok(id) => Ok(*id.as_bytes()),
        Err(err) => Err(err.to_string()),
    }
}

/// A text that is not an endpoint id.
#[derive(Debug, PartialEq, Eq)]
pub struct BadEndpointId {
    /// The text.
    pub node_id: String,
    /// What is wrong with it.
    pub detail: String,
}

/// The canonical rendering of the id in `text`; none when there is no id in it.
pub open spec fn canonical(text: Seq<char>) -> Option<Seq<char>> {
    match endpoint_key(text) {
        Ok(key) => Some(text::hex_lower(key@)),
        Err(_) => None,
    }
}

/// Read an endpoint id and render it canonically.
pub fn parse_endpoint_id(node_id: &String) -> (r: Result<String, BadEndpointId>)
    ensures
        match r {
            Ok(id) => canonical(node_id@) == Some(id@) && canonical(id@) == Some(id@),
            Err(e) => canonical(node_id@) is None && e.node_id@ == node_id@ && endpoint_key(
                node_id@,
            ) == Err::<[u8; 32], Seq<char>>(e.detail@),
        },
{
    match read_endpoint_key(node_id.as_str()) {
        Ok(key) => Ok(text::hex_text(key.as_slice())),
        Err(detail) => Err(BadEndpointId { node_id: node_id.clone(), detail }),
    }
}

/// An id that was read is shown as its key in lowercase hexadecimal, and what is
/// shown is read as the same id; a text that cannot be read is named.
pub proof fn law_ids_have_one_rendering(
    node_id: String,
    r: Result<String, BadEndpointId>,
    again: Result<String, BadEndpointId>,
)
    requires
        call_ensures(parse_endpoint_id, (&node_id,), r),
        r is Ok ==> call_ensures(parse_endpoint_id, (&r->Ok_0,), again),
    ensures
        r is Ok <==> endpoint_key(node_id@) is Ok,
        r matches Ok(id) ==> (endpoint_key(node_id@) matches Ok(key) && id@ == text::hex_lower(
            key@,
        )) && (again matches Ok(same) && same@ == id@),
        r matches Err(bad) ==> bad.node_id@ == node_id@ && endpoint_key(node_id@) == Err::<
            [u8; 32],
            Seq<char>,
        >(bad.detail@),
{
}

} // verus!
