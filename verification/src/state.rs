//! Small records the daemon and the agent keep in memory.

use vstd::prelude::*;

verus! {

/// A CPU counter sample from `/proc/stat`.
#[derive(Clone, Copy, Debug)]
pub struct CpuSample {
    pub total: u64,
    pub idle_all: u64,
}

/// A signed-in session kept in memory, keyed by its token.
#[derive(Clone, Debug)]
pub struct SessionRecord {
    pub user_id: String,
    pub username: String,
    pub token_hash: String,
}

/// How the terminal agent is set up.
#[derive(Clone, Copy, Debug)]
pub struct AgentStateConfig {
    pub scrollback_bytes: usize,
}

/// The in-memory record of a session whose token is `token`.
pub fn session_record(user_id: String, username: String, token: &str) -> (r: SessionRecord)
    ensures
        r.user_id == user_id,
        r.username == username,
        r.token_hash@ == crate::auth::hex_of(crate::auth::sha256_of(vstd::utf8::encode_utf8(token@))),
{
    SessionRecord { user_id, username, token_hash: crate::auth::token_hash(token) }
}

} // verus!
