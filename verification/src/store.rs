//! The table of the sessions that are open.

use vstd::prelude::*;
use vstd::string::*;
use crate::records::{Record, RecordSession, RecordView, SessionView};
use crate::strmap::StrMap;

verus! {

/// The open sessions, by session identifier.
#[derive(Debug)]
pub struct SessionTable {
    /// The sessions.
    pub sessions: StrMap<RecordSession>,
}

/// What a `SessionTable` holds, as plain values.
pub type TableView = Map<Seq<char>, SessionView>;

/// The table after `record` was recorded under `fingerprint` in the session
/// `session_id`; a table without that session stays as it is.
pub open spec fn table_appended(
    table: TableView,
    session_id: Seq<char>,
    fingerprint: Seq<char>,
    record: RecordView,
) -> TableView {
    if table.contains_key(session_id) {
        table.insert(session_id, table[session_id].appended(fingerprint, record))
    } else {
        table
    }
}

/// The table after a response of `fingerprint` was replayed in the session
/// `session_id`; a table without that session stays as it is.
pub open spec fn table_advanced(
    table: TableView,
    session_id: Seq<char>,
    fingerprint: Seq<char>,
) -> TableView {
    if table.contains_key(session_id) {
        table.insert(session_id, table[session_id].advanced(fingerprint))
    } else {
        table
    }
}

impl View for SessionTable {
    type V = TableView;

    open spec fn view(&self) -> TableView {
        self.sessions.deep_view()
    }
}

impl SessionTable {
    /// A table without sessions.
    pub fn new() -> (table: Self)
        ensures
            table@ == Map::<Seq<char>, SessionView>::empty(),
    {
        let table = SessionTable { sessions: StrMap::new() };
        assert(table@ =~= Map::empty());
        table
    }

    /// Opens a session under `session_id`, to be stored at `filepath`, with
    /// nothing recorded and nothing replayed. An identifier that is in use is
    /// refused, and the table stays as it is: no two sessions share an
    /// identifier, and no open session is lost to a newcomer.
    pub fn create(&mut self, session_id: String, filepath: String) -> (created: bool)
        ensures
            created == !old(self)@.contains_key(session_id@),
            created ==> final(self)@ == old(self)@.insert(
                session_id@,
                SessionView::fresh(filepath@),
            ),
            !created ==> final(self)@ == old(self)@,
    {
        if self.sessions.contains_key(session_id.as_str()) {
            false
        } else {
            let session = RecordSession::new(filepath);
            self.sessions.insert(session_id, session);
            assert(self@ =~= old(self)@.insert(session_id@, SessionView::fresh(filepath@)));
            true
        }
    }

    /// The session that is open under `session_id`.
    pub fn get(&self, session_id: &str) -> (found: Option<&RecordSession>)
        ensures
            match found {
                Some(session) => self@.contains_key(session_id@) && session@ == self@[session_id@]
                    && self.sessions@.contains_key(session_id@) && *session
                    == self.sessions@[session_id@],
                None => !self@.contains_key(session_id@),
            },
    {
        self.sessions.get(session_id)
    }

    /// Whether a session is open under `session_id`.
    pub fn contains(&self, session_id: &str) -> (open: bool)
        ensures
            open == self@.contains_key(session_id@),
    {
        self.sessions.contains_key(session_id)
    }

    /// Closes the session `session_id` and hands it out.
    pub fn remove(&mut self, session_id: &str) -> (taken: Option<RecordSession>)
        ensures
            final(self)@ == old(self)@.remove(session_id@),
            match taken {
                Some(session) => old(self)@.contains_key(session_id@) && session@ == old(
                    self,
                )@[session_id@],
                None => !old(self)@.contains_key(session_id@),
            },
    {
        let taken = self.sessions.remove(session_id);
        assert(self@ =~= old(self)@.remove(session_id@));
        taken
    }

    /// Closes every session.
    pub fn clear(&mut self)
        ensures
            final(self)@ == Map::<Seq<char>, SessionView>::empty(),
    {
        self.sessions.clear();
        assert(self@ =~= Map::empty());
    }

    /// Puts `session` in the place of the session that is open under
    /// `session_id`. Where none is open, nothing changes.
    pub fn update(&mut self, session_id: &str, session: RecordSession) -> (updated: bool)
        ensures
            updated == old(self)@.contains_key(session_id@),
            updated ==> final(self)@ == old(self)@.insert(session_id@, session@),
            !updated ==> final(self)@ == old(self)@,
    {
        if self.sessions.contains_key(session_id) {
            self.sessions.insert(String::from_str(session_id), session);
            assert(self@ =~= old(self)@.insert(session_id@, session@));
            true
        } else {
            false
        }
    }

    /// Records `record` as the last response of `fingerprint` in the session
    /// `session_id`, in one step. Where that session is not open, nothing is
    /// recorded.
    pub fn append_record(&mut self, session_id: &str, fingerprint: String, record: Record) -> (done:
        bool)
        ensures
            done == old(self)@.contains_key(session_id@),
            final(self)@ == table_appended(old(self)@, session_id@, fingerprint@, record@),
    {
        match self.sessions.remove(session_id) {
            Some(session) => {
                let mut session = session;
                session.append(fingerprint, record);
                self.sessions.insert(String::from_str(session_id), session);
                assert(self@ =~= table_appended(old(self)@, session_id@, fingerprint@, record@));
                true
            },
            None => {
                assert(self@ =~= old(self)@);
                false
            },
        }
    }

    /// Moves the cursor of `fingerprint` in the session `session_id` one
    /// response further, in one step. Where that session is not open, nothing
    /// changes.
    pub fn advance_cursor(&mut self, session_id: &str, fingerprint: String) -> (done: bool)
        requires
            old(self)@.contains_key(session_id@) ==> old(self)@[session_id@].cursor(fingerprint@)
                < usize::MAX,
        ensures
            done == old(self)@.contains_key(session_id@),
            final(self)@ == table_advanced(old(self)@, session_id@, fingerprint@),
    {
        match self.sessions.remove(session_id) {
            Some(session) => {
                let mut session = session;
                session.advance(fingerprint);
                self.sessions.insert(String::from_str(session_id), session);
                assert(self@ =~= table_advanced(old(self)@, session_id@, fingerprint@));
                true
            },
            None => {
                assert(self@ =~= old(self)@);
                false
            },
        }
    }
}

} // verus!
