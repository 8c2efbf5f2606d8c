//! The routing table that the request handlers share.
//!
//! Any number of readers borrow the state at a time, and each decision is
//! taken on the table that the state holds while it is borrowed.  Putting
//! another table in place needs the state exclusively, so no decision ever
//! sees a replacement half done.  The container that hands the state out to
//! several threads, a read-write lock, is the caller's.

use crate::engine::{route, text_view, RoutingOutcome};
use crate::table::RouteConfig;
use vstd::prelude::*;

verus! {

/// One routing table, held for many readers and replaced as a whole.
pub struct SharedRoutingState {
    table: RouteConfig,
}

impl View for SharedRoutingState {
    type V = RouteConfig;

    /// The table that is in place.
    closed spec fn view(&self) -> RouteConfig {
        self.table
    }
}

impl SharedRoutingState {
    /// Shares `table`: it is the table in place until another one replaces it.
    pub fn new(table: RouteConfig) -> (state: SharedRoutingState)
        ensures
            state@ == table,
    {
        SharedRoutingState { table }
    }

    /// Decides where a request for `host` with the target `path_and_query`
    /// goes.  The whole decision is taken on the table that is in place.
    pub fn resolve(&self, host: &str, path_and_query: Option<&str>) -> (outcome: RoutingOutcome)
        ensures
            outcome@ == route(
                self@.dir.mounts_of(host@),
                self@.http.upstreams_of(host@),
                text_view(path_and_query),
            ),
    {
        self.table.resolve(host, path_and_query)
    }

    /// Puts `table` in place of the table that was shared, and hands that one
    /// back.  The replacement is total: nothing of the old table stays behind.
    pub fn replace(&mut self, table: RouteConfig) -> (previous: RouteConfig)
        ensures
            final(self)@ == table,
            previous == old(self)@,
    {
        let mut incoming = table;
        core::mem::swap(&mut self.table, &mut incoming);
        incoming
    }
}

} // verus!
