//! What a session holds: the recorded responses and the replay cursors.

use vstd::prelude::*;
use crate::strmap::StrMap;

verus! {

/// How the server was asked to run.
#[derive(Debug, PartialEq, Eq)]
pub struct RecordOptions {
    /// Whether exchanges are to be recorded rather than replayed.
    pub record: bool,
    /// The directory of the snapshot files; empty when nothing is recorded or
    /// replayed.
    pub record_dir: String,
}

/// What the server does with a proxied request.
#[derive(Debug, Clone, Copy, PartialEq, Eq, Structural)]
pub enum Mode {
    /// Requests are forwarded and nothing is kept.
    Passthrough,
    /// Requests are forwarded and each exchange is kept in its session.
    Record,
    /// Requests are answered from a snapshot, upstream is not contacted.
    Replay,
}

/// The mode that a record flag and a snapshot directory stand for. Without a
/// directory the flag counts for nothing.
pub open spec fn mode_of(record: bool, record_dir: Seq<char>) -> Mode {
    if record_dir.len() == 0 {
        Mode::Passthrough
    } else if record {
        Mode::Record
    } else {
        Mode::Replay
    }
}

impl Clone for RecordOptions {
    fn clone(&self) -> (copy: Self)
        ensures
            copy.record == self.record,
            copy.record_dir@ == self.record_dir@,
    {
        RecordOptions { record: self.record, record_dir: self.record_dir.clone() }
    }
}

impl RecordOptions {
    /// The mode these options stand for.
    pub fn mode(&self) -> (mode: Mode)
        ensures
            mode == mode_of(self.record, self.record_dir@),
            self.record_dir@.len() == 0 ==> mode == Mode::Passthrough,
    {
        if self.record_dir.as_str().is_empty() {
            Mode::Passthrough
        } else if self.record {
            Mode::Record
        } else {
            Mode::Replay
        }
    }
}

/// One stored HTTP response.
#[derive(Debug, PartialEq, Eq)]
pub struct Record {
    /// The status as text: a three-digit code, which a reason phrase may follow.
    pub status: String,
    /// The headers as pairs of name and value. Where a name occurs more than
    /// once, the last pair is the one that counts.
    pub headers: Vec<(String, String)>,
    /// The body as text.
    pub body: String,
}

/// What a `Record` holds, as plain text.
pub ghost struct RecordView {
    pub status: Seq<char>,
    pub headers: Seq<(Seq<char>, Seq<char>)>,
    pub body: Seq<char>,
}

impl View for Record {
    type V = RecordView;

    open spec fn view(&self) -> RecordView {
        RecordView { status: self.status@, headers: self.headers.deep_view(), body: self.body@ }
    }
}

impl DeepView for Record {
    type V = RecordView;

    open spec fn deep_view(&self) -> RecordView {
        self@
    }
}

/// A copy of a list of text pairs.
pub fn copy_pairs(pairs: &Vec<(String, String)>) -> (copy: Vec<(String, String)>)
    ensures
        copy.deep_view() == pairs.deep_view(),
{
    let mut copy: Vec<(String, String)> = Vec::new();
    let mut i: usize = 0;
    while i < pairs.len()
        invariant
            i <= pairs.len(),
            copy.len() == i,
            forall|j: int|
                0 <= j < i ==> copy@[j].0@ == pairs@[j].0@ && copy@[j].1@ == pairs@[j].1@,
        decreases pairs.len() - i,
    {
        copy.push((pairs[i].0.clone(), pairs[i].1.clone()));
        i += 1;
    }
    assert(copy.deep_view() =~= pairs.deep_view());
    copy
}

impl Clone for Record {
    fn clone(&self) -> (copy: Self)
        ensures
            copy@ == self@,
    {
        Record {
            status: self.status.clone(),
            headers: copy_pairs(&self.headers),
            body: self.body.clone(),
        }
    }
}

/// A copy of a list of records.
pub fn copy_records(records: &Vec<Record>) -> (copy: Vec<Record>)
    ensures
        copy.deep_view() == records.deep_view(),
{
    let mut copy: Vec<Record> = Vec::new();
    let mut i: usize = 0;
    while i < records.len()
        invariant
            i <= records.len(),
            copy.len() == i,
            forall|j: int| 0 <= j < i ==> copy@[j]@ == records@[j]@,
        decreases records.len() - i,
    {
        copy.push(records[i].clone());
        i += 1;
    }
    assert(copy.deep_view() =~= records.deep_view());
    copy
}

/// The recorded responses of a session or of a snapshot file: for each
/// request fingerprint the responses in the order in which they were
/// recorded, which is the order in which they are replayed.
pub type Logs = Map<Seq<char>, Seq<RecordView>>;

/// The responses recorded under `fingerprint`; none where the fingerprint is
/// unknown.
pub open spec fn log_of(logs: Logs, fingerprint: Seq<char>) -> Seq<RecordView> {
    if logs.contains_key(fingerprint) {
        logs[fingerprint]
    } else {
        Seq::empty()
    }
}

/// The state of one recording or replaying session.
#[derive(Debug, PartialEq, Eq)]
pub struct RecordSession {
    /// For each fingerprint the position of the response to replay next.
    pub states: StrMap<usize>,
    /// Where the snapshot of this session is, or will be, stored.
    pub filepath: String,
    /// The responses recorded in this session.
    pub records: StrMap<Vec<Record>>,
}

/// What a `RecordSession` holds, as plain values.
pub ghost struct SessionView {
    pub states: Map<Seq<char>, nat>,
    pub filepath: Seq<char>,
    pub records: Logs,
}

impl SessionView {
    /// The position of the response to replay next for `fingerprint`: zero
    /// until a response was replayed.
    pub open spec fn cursor(self, fingerprint: Seq<char>) -> nat {
        if self.states.contains_key(fingerprint) {
            self.states[fingerprint]
        } else {
            0
        }
    }

    /// The responses recorded under `fingerprint`.
    pub open spec fn log(self, fingerprint: Seq<char>) -> Seq<RecordView> {
        log_of(self.records, fingerprint)
    }

    /// The session with nothing recorded and nothing replayed.
    pub open spec fn fresh(filepath: Seq<char>) -> SessionView {
        SessionView { states: Map::empty(), filepath, records: Map::empty() }
    }

    /// The session after `record` was recorded under `fingerprint`: it is the
    /// last response of that fingerprint, and nothing else has changed.
    pub open spec fn appended(self, fingerprint: Seq<char>, record: RecordView) -> SessionView {
        SessionView {
            records: self.records.insert(fingerprint, self.log(fingerprint).push(record)),
            ..self
        }
    }

    /// The session after one response of `fingerprint` was replayed: its
    /// cursor is one further, and nothing else has changed.
    pub open spec fn advanced(self, fingerprint: Seq<char>) -> SessionView {
        SessionView {
            states: self.states.insert(fingerprint, self.cursor(fingerprint) + 1),
            ..self
        }
    }

    /// Whether every cursor points into, or just behind, the responses that
    /// `logs` holds for its fingerprint.
    pub open spec fn within(self, logs: Logs) -> bool {
        forall|fingerprint: Seq<char>| #[trigger]
            self.states.contains_key(fingerprint) ==> logs.contains_key(fingerprint)
                && self.cursor(fingerprint) <= logs[fingerprint].len()
    }
}

impl View for RecordSession {
    type V = SessionView;

    open spec fn view(&self) -> SessionView {
        SessionView {
            states: self.states@.map_values(|position: usize| position as nat),
            filepath: self.filepath@,
            records: self.records.deep_view(),
        }
    }
}

impl DeepView for RecordSession {
    type V = SessionView;

    open spec fn deep_view(&self) -> SessionView {
        self@
    }
}

impl Clone for RecordSession {
    fn clone(&self) -> (copy: Self)
        ensures
            copy@ == self@,
    {
        let mut states: StrMap<usize> = StrMap::new();
        let mut i: usize = 0;
        while i < self.states.entries.len()
            invariant
                i <= self.states.entries.len(),
                states.entries@ == self.states.entries@.take(i as int),
            decreases self.states.entries.len() - i,
        {
            states.entries.push((self.states.entries[i].0.clone(), self.states.entries[i].1));
            i += 1;
            assert(states.entries@ =~= self.states.entries@.take(i as int));
        }
        assert(self.states.entries@.take(i as int) == self.states.entries@);
        let mut records: StrMap<Vec<Record>> = StrMap::new();
        let mut j: usize = 0;
        assert(records.entries.deep_view() =~= self.records.entries.deep_view().take(0));
        while j < self.records.entries.len()
            invariant
                j <= self.records.entries.len(),
                records.entries.deep_view() == self.records.entries.deep_view().take(j as int),
            decreases self.records.entries.len() - j,
        {
            let ghost before = records.entries.deep_view();
            let fingerprint = self.records.entries[j].0.clone();
            let log = copy_records(&self.records.entries[j].1);
            records.entries.push((fingerprint, log));
            j += 1;
            assert(records.entries.deep_view() =~= before.push(
                self.records.entries.deep_view()[j - 1],
            ));
            assert(records.entries.deep_view() =~= self.records.entries.deep_view().take(j as int));
        }
        assert(self.records.entries.deep_view().take(j as int) == self.records.entries.deep_view());
        proof {
            records.lemma_deep_view();
            self.records.lemma_deep_view();
        }
        RecordSession { states, filepath: self.filepath.clone(), records }
    }
}

impl RecordSession {
    /// A session that will be stored at `filepath`, with nothing recorded and
    /// nothing replayed yet.
    pub fn new(filepath: String) -> (session: Self)
        ensures
            session@ == SessionView::fresh(filepath@),
    {
        let session = RecordSession { states: StrMap::new(), filepath, records: StrMap::new() };
        assert(session.records.deep_view() =~= Map::empty());
        assert(session@.states =~= Map::empty());
        session
    }

    /// The position of the response to replay next for `fingerprint`.
    pub fn cursor(&self, fingerprint: &str) -> (position: usize)
        ensures
            position == self@.cursor(fingerprint@),
    {
        match self.states.get(fingerprint) {
            Some(position) => *position,
            None => 0,
        }
    }

    /// Records `record` as the last response of `fingerprint`.
    pub fn append(&mut self, fingerprint: String, record: Record)
        ensures
            final(self)@ == old(self)@.appended(fingerprint@, record@),
    {
        let mut log = match self.records.remove(fingerprint.as_str()) {
            Some(log) => log,
            None => Vec::new(),
        };
        let ghost before = log.deep_view();
        assert(before =~= old(self)@.log(fingerprint@));
        log.push(record);
        assert(log.deep_view() =~= before.push(record@));
        self.records.insert(fingerprint, log);
        assert(self.records.deep_view() =~= old(self)@.appended(fingerprint@, record@).records);
    }

    /// Moves the cursor of `fingerprint` one response further.
    pub fn advance(&mut self, fingerprint: String)
        requires
            old(self)@.cursor(fingerprint@) < usize::MAX,
        ensures
            final(self)@ == old(self)@.advanced(fingerprint@),
    {
        let next = self.cursor(fingerprint.as_str()) + 1;
        self.states.insert(fingerprint, next);
        assert(self@.states =~= old(self)@.advanced(fingerprint@).states);
    }
}

/// The content of a snapshot file.
#[derive(Debug, PartialEq, Eq)]
pub struct RecordFile {
    /// The recorded responses, by fingerprint.
    pub records: StrMap<Vec<Record>>,
}

impl View for RecordFile {
    type V = Logs;

    open spec fn view(&self) -> Logs {
        self.records.deep_view()
    }
}

} // verus!
