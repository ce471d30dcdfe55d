//! The editor service: answers information requests of authenticated peers.

use vstd::prelude::*;

use crate::caps::CapModel;
use crate::id_store;
use crate::id_store::Fren;

verus! {

/// ALPN of the editor service: `rcan/editor/0`.
pub const ALPN: [u8; 13] = [114, 99, 97, 110, 47, 101, 100, 105, 116, 111, 114, 47, 48];

/// What the editor does with a new connection.
#[derive(Debug)]
pub enum EditorStep {
    /// Serve the peer's requests.
    Serve,
    /// Close the connection with this code and reason.
    Close { code: u32, reason: Vec<u8> },
}

/// The reason given when a peer without a valid rcan is turned away:
/// `invalid message`.
pub open spec fn invalid_message() -> Seq<u8> {
    seq![105u8, 110, 118, 97, 108, 105, 100, 32, 109, 101, 115, 115, 97, 103, 101]
}

/// A peer whose rcan passes the store's check is served; any other peer's
/// connection is closed with code 1 and the reason `invalid message`.
pub fn editor_gate(check_ok: bool) -> (r: EditorStep)
    ensures
        check_ok ==> r is Serve,
        !check_ok ==> (r matches EditorStep::Close { code, reason } && code == 1 && reason@ == invalid_message()),
{
    if check_ok {
        EditorStep::Serve
    } else {
        let reason = vec![105u8, 110, 118, 97, 108, 105, 100, 32, 109, 101, 115, 115, 97, 103, 101];
        assert(reason@ =~= invalid_message());
        EditorStep::Close { code: 1, reason }
    }
}

/// The answer to an information request carrying `data` from `fren`: the data
/// back when its rcan grants information, otherwise `No info permission`.
pub fn info_reply(fren: &Fren, data: String) -> (r: Result<String, String>)
    ensures
        id_store::fren_permits(fren@, seq![CapModel::Info]) ==> (r matches Ok(s) && s@ == data@),
        !id_store::fren_permits(fren@, seq![CapModel::Info]) ==> (r matches Err(e) && e@ == "No info permission"@),
{
    if fren.can_info() {
        Ok(data)
    } else {
        Err(String::from_str("No info permission"))
    }
}

} // verus!
