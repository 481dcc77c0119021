//! The snapshot store: the connection state and the latest roster, shared
//! between the acquisition loop and the consumer.
use vstd::prelude::*;
use crate::record::CharacterView;
use crate::roster::{empty_roster, valid_roster, Roster};

verus! {

/// Connection state: idle or disconnected.
pub const DISCONNECTED: i64 = 0;

/// Connection state: the last attach could not open the target process.
pub const OPEN_FAILED: i64 = -1;

/// Connection state: the last attach was given a window identifier that is not a number.
pub const BAD_WINDOW_ID: i64 = -2;

/// Connection state: the acquisition loop is asked to end.
pub const SHUTDOWN: i64 = -999;

/// Mathematical value of a `SnapshotStore`.
pub struct StoreView {
    pub connection: int,
    pub roster: Seq<Option<CharacterView>>,
}

/// Latest connection state and roster snapshot. Reads hand out copies, and a
/// publish replaces the whole roster.
pub struct SnapshotStore {
    connection: i64,
    roster: Roster,
}

impl View for SnapshotStore {
    type V = StoreView;

    closed spec fn view(&self) -> StoreView {
        StoreView { connection: self.connection as int, roster: self.roster@ }
    }
}

impl SnapshotStore {
    /// The store holds a roster whose seats hold only their own records.
    pub open spec fn wf(&self) -> bool {
        valid_roster(self@.roster)
    }

    /// A disconnected store with an empty roster.
    pub fn new() -> (r: SnapshotStore)
        ensures
            r@.connection == DISCONNECTED,
            r@.roster == empty_roster(),
            r.wf(),
    {
        SnapshotStore { connection: DISCONNECTED, roster: Roster::new() }
    }

    /// The current connection state.
    pub fn connection(&self) -> (r: i64)
        ensures
            r == self@.connection,
    {
        self.connection
    }

    /// Replaces the connection state; the roster stays.
    pub fn set_connection(&mut self, value: i64)
        ensures
            final(self)@ == (StoreView { connection: value as int, roster: old(self)@.roster }),
    {
        self.connection = value;
    }

    /// An independent copy of the latest roster.
    pub fn roster(&self) -> (r: Roster)
        requires
            self.wf(),
        ensures
            r@ == self@.roster,
            valid_roster(r@),
    {
        self.roster.copy()
    }

    /// Replaces the whole roster; the connection state stays.
    pub fn publish(&mut self, roster: Roster)
        requires
            valid_roster(roster@),
        ensures
            final(self)@ == (StoreView { connection: old(self)@.connection, roster: roster@ }),
            final(self).wf(),
    {
        self.roster = roster;
    }

    /// Asks the acquisition loop to end, and hands back the open handle that
    /// must now be released, if there is one.
    pub fn request_shutdown(&mut self) -> (r: Option<i64>)
        ensures
            final(self)@ == (StoreView { connection: SHUTDOWN as int, roster: old(self)@.roster }),
            r == (if old(self)@.connection > 0 {
                Some(old(self)@.connection as i64)
            } else {
                None::<i64>
            }),
    {
        let open = self.connection;
        self.connection = SHUTDOWN;
        if open > 0 {
            Some(open)
        } else {
            None
        }
    }
}

} // verus!
