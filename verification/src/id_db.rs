//! Records of the persistent endpoint database.

use vstd::prelude::*;

verus! {

/// Where an endpoint stands in the persistent database.
#[derive(Clone, Copy, Debug, PartialEq, Eq, Structural)]
pub enum EndPointStatus {
    Pending,
    Active,
    Done,
}

/// A persistent record of an endpoint: its key as text, its standing, an
/// optional nickname and an optional secret.
#[derive(Debug)]
pub struct FrenProxy {
    pub id: String,
    pub status: EndPointStatus,
    pub nickname: Option<String>,
    pub secret: Option<Vec<u8>>,
}

impl FrenProxy {
    /// The record of a newly added endpoint: pending, with no nickname or secret.
    pub fn pending(id: String) -> (r: FrenProxy)
        ensures
            r.id@ == id@,
            r.status == EndPointStatus::Pending,
            r.nickname is None,
            r.secret is None,
    {
        FrenProxy { id, status: EndPointStatus::Pending, nickname: None, secret: None }
    }
}

/// The connection string of the database file at `path`: `turso:` and the path.
pub fn turso_url(path: &str) -> (r: String)
    ensures
        r@ == "turso:"@ + path@,
{
    let mut r = String::from_str("turso:");
    r.append(path);
    r
}

} // verus!
