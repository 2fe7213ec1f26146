//! Reading the OAuth token endpoint's reply.

use vstd::prelude::*;

verus! {

/// What the `json` crate shows as field `field` of the JSON text `body`,
/// written as text (a string field as its contents, an absent field as
/// `null`); `None` when `body` is not JSON.
pub uninterp spec fn json_field_text(body: Seq<char>, field: Seq<char>) -> Option<Seq<char>>;

/// Parses `body` with the `json` crate (`json::parse`), indexes the field
/// `field` and writes the value with `to_string`; a parse error gives
/// `None`. The text is named, not stated.
#[verifier::external_body]
fn json_field(body: &str, field: &str) -> (r: Option<String>)
    ensures
        match r {
            Some(t) => json_field_text(body@, field@) == Some(t@),
            None => json_field_text(body@, field@).is_none(),
        },
{
    match json::parse(body) {
        Ok(v) => Some(v[field].to_string()),
        Err(_) => None,
    }
}

/// The name of the field that carries the access token.
pub open spec fn access_token_field() -> Seq<char> {
    seq!['a', 'c', 'c', 'e', 's', 's', '_', 't', 'o', 'k', 'e', 'n']
}

/// The access token in the token endpoint's reply `body`: its
/// `access_token` field as text; `None` when `body` is not JSON.
pub fn access_token_of(body: &str) -> (r: Option<String>)
    ensures
        match r {
            Some(t) => json_field_text(body@, access_token_field()) == Some(t@),
            None => json_field_text(body@, access_token_field()).is_none(),
        },
{
    let field = "access_token";
    proof {
        reveal_strlit("access_token");
    }
    assert(field@ =~= access_token_field());
    json_field(body, field)
}

} // verus!
