//! Plain values exchanged with the read endpoints, and the pagination
//! defaulting every paged endpoint applies.

use vstd::prelude::*;

verus! {

/// Offset applied when a request names none.
pub const DEFAULT_OFFSET: i64 = 0;

/// Limit applied when a request names none.
pub const DEFAULT_LIMIT: i64 = 100;

/// Pagination parameters as a request carries them, either one optional.
pub struct ApiPaginationQuery {
    pub offset: Option<i64>,
    pub limit: Option<i64>,
}

/// A paged response: the offset the data starts at, and the data.
pub struct ApiPaginationResponse<T> {
    pub offset: i64,
    pub data: T,
}

/// Parameters of the channel log endpoint: the message anchoring the page,
/// and pagination.
pub struct ChannelLogsQuery {
    pub message_id: String,
    pub offset: Option<i64>,
    pub limit: Option<i64>,
}

/// Parameters of the username search endpoint.
pub struct SearchQuery {
    pub query: String,
}

/// The offset and limit actually used: the given values where present,
/// else the defaults.
pub open spec fn spec_resolve(offset: Option<i64>, limit: Option<i64>) -> (i64, i64) {
    (
        match offset {
            Some(o) => o,
            None => DEFAULT_OFFSET,
        },
        match limit {
            Some(l) => l,
            None => DEFAULT_LIMIT,
        },
    )
}

impl ApiPaginationQuery {
    /// Resolves the request's pagination against the defaults.
    pub fn resolve(&self) -> (r: (i64, i64))
        ensures
            r == spec_resolve(self.offset, self.limit),
    {
        (
            match self.offset {
                Some(o) => o,
                None => DEFAULT_OFFSET,
            },
            match self.limit {
                Some(l) => l,
                None => DEFAULT_LIMIT,
            },
        )
    }
}

impl ChannelLogsQuery {
    /// Resolves the request's pagination against the defaults.
    pub fn resolve(&self) -> (r: (i64, i64))
        ensures
            r == spec_resolve(self.offset, self.limit),
    {
        (
            match self.offset {
                Some(o) => o,
                None => DEFAULT_OFFSET,
            },
            match self.limit {
                Some(l) => l,
                None => DEFAULT_LIMIT,
            },
        )
    }
}

} // verus!
