//! A credential relay for a KeePass vault: the decrypted vault and its
//! readings, the audit hooks around each request, the handling of requests
//! step by step, and the client's side of the exchange over the socket.
use vstd::prelude::*;

pub mod api;
pub mod api_laws;
pub mod hooks;
pub mod io_util;
pub mod kdbx;
pub mod secret;
pub mod text;
pub mod vault;
pub mod vault_laws;

verus! {

} // verus!
