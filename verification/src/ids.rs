use vstd::prelude::*;

verus! {

/// Identifiers of dialogues, nodes, branches, variables, characters and
/// projects.  The backing store writes them as UUIDs; inside the verified
/// core they are their 128-bit values.
pub type Id = u128;

/// What parsing an identifier string yields: `Some` of the 128-bit value for
/// a well-formed UUID string, `None` otherwise.  Parsing is a function of the
/// characters alone; the grammar itself (hyphenated, simple, braced and urn
/// forms) is left unstated.
pub uninterp spec fn parsed_id(s: Seq<char>) -> Option<Id>;

/// Relies on `uuid::Uuid::parse_str` (and `Uuid::as_u128`): parsing is
/// deterministic in the input string and never panics.
#[verifier::external_body]
pub(crate) fn parse_id(s: &str) -> (r: Option<Id>)
    ensures
        r == parsed_id(s@),
{
    match uuid::Uuid::parse_str(s) {
        Ok(u) => Some(u.as_u128()),
        Err(_) => None,
    }
}

/// Relies on `uuid::Uuid::new_v4` (and `Uuid::as_u128`) to draw a fresh
/// random identifier.  Nothing is promised of the value.
#[verifier::external_body]
pub(crate) fn fresh_id() -> Id {
    uuid::Uuid::new_v4().as_u128()
}

/// Relies on `chrono::Utc::now` (and `DateTime::timestamp`) for the current
/// time as seconds since the epoch.  Nothing is promised of the value.
#[verifier::external_body]
pub(crate) fn now_timestamp() -> i64 {
    chrono::Utc::now().timestamp()
}

} // verus!
