//! The canonical log record produced by normalization and persisted in bulk.

use vstd::prelude::*;

verus! {

/// Kind of a stored record: a chat message, or a moderation action
/// (a ban or a timeout) against a user.
#[derive(Clone, Copy, Debug, PartialEq, Eq, Structural)]
pub enum LogType {
    Chat,
    Ban,
}

/// One canonical ingested event. Timestamps are unix seconds; the id is a
/// 128-bit value drawn at normalization time.
#[derive(Debug)]
pub struct Log {
    pub id: u128,
    pub user_id: Option<String>,
    pub username: String,
    pub channel: String,
    pub content: Option<String>,
    pub log_type: LogType,
    pub created_at: Option<i64>,
}

impl Log {
    /// Content presence is strictly coupled to the record's kind: chat
    /// records carry text, moderation records never do.
    pub open spec fn wf(self) -> bool {
        self.content is Some <==> self.log_type == LogType::Chat
    }
}

/// Relies on uuid::Uuid::new_v4: a freshly drawn random identifier. Nothing
/// is promised of the value.
#[verifier::external_body]
pub(crate) fn fresh_id() -> u128 {
    uuid::Uuid::new_v4().as_u128()
}

/// Relies on chrono::Utc::now: the wall clock as unix seconds. Nothing is
/// promised of the value.
#[verifier::external_body]
pub(crate) fn now_timestamp() -> i64 {
    chrono::Utc::now().timestamp()
}

impl Default for Log {
    /// An empty chat record stamped with a fresh id and the current time.
    fn default() -> (r: Self)
        ensures
            r.user_id matches Some(u) && u@ == Seq::<char>::empty(),
            r.username@ == Seq::<char>::empty(),
            r.channel@ == Seq::<char>::empty(),
            r.content is None,
            r.log_type == LogType::Chat,
            r.created_at is Some,
    {
        Log {
            id: fresh_id(),
            user_id: Some(String::new()),
            username: String::new(),
            channel: String::new(),
            content: None,
            log_type: LogType::Chat,
            created_at: Some(now_timestamp()),
        }
    }
}

} // verus!
