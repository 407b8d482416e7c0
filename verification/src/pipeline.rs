//! The request pipeline: which handler a request belongs to, and what each
//! handler decides.
//!
//! The server around the library performs what a decision asks for (an
//! exchange with the upstream, reading or writing a snapshot file) and comes
//! back with the outcome. Each function here is one step: it reads and
//! changes the state of the proxy as a whole, so that two requests which are
//! in flight at once are served as if one had come after the other.

use vstd::prelude::*;
use vstd::string::*;
use crate::capture::{
    build_record, last_values, record_of, settle_headers, Upstream, UpstreamView,
};
use crate::forward::{
    authority_of, failure_of, failure_response, fingerprint, fingerprint_of, forward_target,
    forward_target_of, host_addr, request_path, request_path_of, strip_connection,
    without_connection, Target, TargetView, UpstreamError,
};
use crate::records::{
    copy_pairs, log_of, mode_of, Logs, Mode, Record, RecordFile, RecordOptions, RecordView,
    SessionView,
};
use crate::response::{plain, with_cookie, Response, ResponseView};
use crate::session::{
    drop_cookie_value, get_session, is_uuid_text, new_session_id, session_cookie_of, session_of,
    set_cookie_value,
};
use crate::json::writable;
use crate::snapshot::{
    lemma_nothing_recorded, parse, serialize, snapshot_logs, snapshot_text, snapshot_tokens,
    Entries,
};
use crate::strmap::text_map;
use crate::status::{replay_status, replay_status_of};
use crate::store::{table_advanced, table_appended, SessionTable, TableView};
use crate::text::{
    chars_of, decimal, decimal_of, has_prefix, join, starts_with, str_eq, string_of,
    trim_trailing_slashes, without_trailing_slashes,
};

verus! {

/// The handler that a request belongs to.
#[derive(Debug, PartialEq, Eq)]
pub enum Route {
    /// Open a session whose snapshot has the given name.
    StartRecord(String),
    /// Close the session of the request.
    EndRecord,
    /// Close every session.
    ClearSessions,
    /// Everything else is proxied.
    Proxy,
}

/// What a `Route` holds, as plain values.
pub ghost enum RouteView {
    StartRecord(Seq<char>),
    EndRecord,
    ClearSessions,
    Proxy,
}

impl View for Route {
    type V = RouteView;

    open spec fn view(&self) -> RouteView {
        match self {
            Route::StartRecord(name) => RouteView::StartRecord(name@),
            Route::EndRecord => RouteView::EndRecord,
            Route::ClearSessions => RouteView::ClearSessions,
            Route::Proxy => RouteView::Proxy,
        }
    }
}

/// The name of the snapshot in a path of the form `/start-record/{name}`: the
/// name is not empty and holds no slash. Other paths name no snapshot.
pub open spec fn session_name_of(path: Seq<char>) -> Option<Seq<char>> {
    let prefix = "/start-record/"@;
    if starts_with(path, prefix) && path.len() > prefix.len() && !path.skip(
        prefix.len() as int,
    ).contains('/') {
        Some(path.skip(prefix.len() as int))
    } else {
        None
    }
}

/// The handler of a request with the given method and path: the three control
/// endpoints answer to `POST` only, and every other request is proxied.
pub open spec fn route_of(method: Seq<char>, path: Seq<char>) -> RouteView {
    if method != "POST"@ {
        RouteView::Proxy
    } else if path == "/end-record"@ {
        RouteView::EndRecord
    } else if path == "/clear-sessions"@ {
        RouteView::ClearSessions
    } else {
        match session_name_of(path) {
            Some(name) => RouteView::StartRecord(name),
            None => RouteView::Proxy,
        }
    }
}

/// Reads the name of the snapshot from a path of the form
/// `/start-record/{name}`.
pub fn session_name(path: &str) -> (name: Option<String>)
    ensures
        name.deep_view() == session_name_of(path@),
{
    let chars = chars_of(path);
    let prefix = chars_of("/start-record/");
    if !has_prefix(&chars, &prefix) || chars.len() == prefix.len() {
        return None;
    }
    let ghost rest = path@.skip(prefix.len() as int);
    let mut i: usize = prefix.len();
    while i < chars.len()
        invariant
            prefix.len() <= i <= chars.len(),
            chars@ == path@,
            prefix@ == "/start-record/"@,
            starts_with(path@, prefix@),
            rest == path@.skip(prefix.len() as int),
            forall|j: int| 0 <= j < i - prefix.len() ==> rest[j] != '/',
        decreases chars.len() - i,
    {
        if chars[i] == '/' {
            assert(rest[i - prefix.len()] == '/');
            assert(rest.contains('/'));
            return None;
        }
        i += 1;
    }
    assert(path@.subrange(prefix.len() as int, chars.len() as int) == rest);
    Some(string_of(&chars, prefix.len(), chars.len()))
}

/// Finds the handler of a request.
pub fn route(method: &str, path: &str) -> (route: Route)
    ensures
        route@ == route_of(method@, path@),
{
    if !str_eq(method, "POST") {
        Route::Proxy
    } else if str_eq(path, "/end-record") {
        Route::EndRecord
    } else if str_eq(path, "/clear-sessions") {
        Route::ClearSessions
    } else {
        match session_name(path) {
            Some(name) => Route::StartRecord(name),
            None => Route::Proxy,
        }
    }
}

/// Everything that the proxy holds while it runs.
#[derive(Debug)]
pub struct ProxyState {
    /// Whether to record, and where the snapshots are.
    pub options: RecordOptions,
    /// The address of the upstream.
    pub forward_to: String,
    /// The open sessions.
    pub sessions: SessionTable,
}

/// What a `ProxyState` holds, as plain values.
pub ghost struct ProxyStateView {
    pub record: bool,
    pub record_dir: Seq<char>,
    pub forward_to: Seq<char>,
    pub sessions: TableView,
}

impl ProxyStateView {
    /// What the proxy does with a proxied request.
    pub open spec fn mode(self) -> Mode {
        mode_of(self.record, self.record_dir)
    }

    /// This state with other sessions.
    pub open spec fn with_sessions(self, sessions: TableView) -> ProxyStateView {
        ProxyStateView { sessions, ..self }
    }
}

impl View for ProxyState {
    type V = ProxyStateView;

    open spec fn view(&self) -> ProxyStateView {
        ProxyStateView {
            record: self.options.record,
            record_dir: self.options.record_dir@,
            forward_to: self.forward_to@,
            sessions: self.sessions@,
        }
    }
}

/// Where the snapshot with the given name is stored: in the snapshot
/// directory, whose trailing slashes do not count, under the name with
/// `.snap` behind it.
pub open spec fn snapshot_path_of(record_dir: Seq<char>, name: Seq<char>) -> Seq<char> {
    without_trailing_slashes(record_dir) + "/"@ + name + ".snap"@
}

/// Where the snapshot with the given name is stored.
pub fn snapshot_path(record_dir: &str, name: &str) -> (path: String)
    ensures
        path@ == snapshot_path_of(record_dir@, name@),
{
    let mut path = trim_trailing_slashes(record_dir);
    path.append("/");
    path.append(name);
    path.append(".snap");
    path
}

/// The state after a session was asked for under the identifier
/// `session_id`: the session is open, with nothing in it, unless the
/// identifier was in use.
pub open spec fn after_start(state: ProxyStateView, name: Seq<char>, session_id: Seq<char>)
    -> ProxyStateView {
    if state.sessions.contains_key(session_id) {
        state
    } else {
        state.with_sessions(
            state.sessions.insert(
                session_id,
                SessionView::fresh(snapshot_path_of(state.record_dir, name)),
            ),
        )
    }
}

/// The answer to a request for a session under the identifier `session_id`:
/// the session cookie, unless the identifier was in use.
pub open spec fn start_response(state: ProxyStateView, session_id: Seq<char>) -> ResponseView {
    if state.sessions.contains_key(session_id) {
        plain(500, "Session error"@)
    } else {
        with_cookie(200, "Session started"@, session_cookie_of(session_id))
    }
}

/// Whether `after` and `response` are the state and the answer after a
/// session was asked for in the state `before`, under some identifier in the
/// notation of a UUID.
pub open spec fn started(
    before: ProxyStateView,
    name: Seq<char>,
    after: ProxyStateView,
    response: ResponseView,
) -> bool {
    exists|session_id: Seq<char>|
        is_uuid_text(session_id) && after == #[trigger] after_start(before, name, session_id)
            && response == start_response(before, session_id)
}

/// The state after every session was closed.
pub open spec fn after_clear(state: ProxyStateView) -> ProxyStateView {
    state.with_sessions(Map::empty())
}

/// The answer to a request to close every session: it makes the client drop
/// its session cookie.
pub open spec fn clear_response() -> ResponseView {
    with_cookie(200, "Sessions cleared"@, "r-session=; HttpOnly; Max-Age=0"@)
}

impl ProxyState {
    /// What the session `session` has recorded, as the pairs in which it is
    /// kept; nothing where no such session is open.
    pub open spec fn recorded(&self, session: Option<Seq<char>>) -> Entries {
        match session {
            Some(session_id) => if self.sessions.sessions@.contains_key(session_id) {
                self.sessions.sessions@[session_id].records.entries.deep_view()
            } else {
                Seq::empty()
            },
            None => Seq::empty(),
        }
    }

    /// The pairs that a session has recorded stand for the mapping that the
    /// session holds; so a session that holds nothing has no pairs, and its
    /// snapshot can be written.
    pub proof fn lemma_recorded(&self, session_id: Seq<char>)
        requires
            self@.sessions.contains_key(session_id),
        ensures
            text_map(self.recorded(Some(session_id))) == self@.sessions[session_id].records,
            self@.sessions[session_id].records =~= Map::<Seq<char>, Seq<RecordView>>::empty()
                ==> writable(snapshot_tokens(self.recorded(Some(session_id)))) && snapshot_text(
                self.recorded(Some(session_id)),
            ) == seq!['{', '}'],
    {
        self.sessions.sessions@[session_id].records.lemma_deep_view();
        if self@.sessions[session_id].records =~= Map::<Seq<char>, Seq<RecordView>>::empty() {
            lemma_nothing_recorded(self.recorded(Some(session_id)));
        }
    }

    /// The state of a proxy that has just started: no session is open.
    pub fn new(options: RecordOptions, forward_to: String) -> (state: Self)
        ensures
            state@ == (ProxyStateView {
                record: options.record,
                record_dir: options.record_dir@,
                forward_to: forward_to@,
                sessions: Map::empty(),
            }),
    {
        ProxyState { options, forward_to, sessions: SessionTable::new() }
    }

    /// Opens a session under the given identifier, for the snapshot with the
    /// given name.
    pub fn start_record_as(&mut self, name: &str, session_id: String) -> (response: Response)
        ensures
            final(self)@ == after_start(old(self)@, name@, session_id@),
            response@ == start_response(old(self)@, session_id@),
    {
        let filepath = snapshot_path(self.options.record_dir.as_str(), name);
        let cookie = set_cookie_value(session_id.as_str());
        if self.sessions.create(session_id, filepath) {
            Response::text_with_cookie(200, "Session started", cookie)
        } else {
            Response::text(500, "Session error")
        }
    }

    /// Opens a session under a new random identifier, for the snapshot with
    /// the given name, and hands the identifier to the client in a cookie.
    /// Whatever identifier was drawn, the state and the answer are those of
    /// `start_record_as` for it.
    pub fn start_record_handler(&mut self, name: &str) -> (response: Response)
        ensures
            started(old(self)@, name@, final(self)@, response@),
    {
        let session_id = new_session_id();
        let ghost id = session_id@;
        let response = self.start_record_as(name, session_id);
        assert(self@ == after_start(old(self)@, name@, id));
        response
    }

    /// Closes every session, without storing any of them.
    pub fn clear_sessions(&mut self) -> (response: Response)
        ensures
            final(self)@ == after_clear(old(self)@),
            response@ == clear_response(),
    {
        self.sessions.clear();
        Response::text_with_cookie(200, "Sessions cleared", drop_cookie_value())
    }
}

/// What the server is to do for a request.
#[derive(Debug, PartialEq, Eq)]
pub enum Action {
    /// Answer the client; there is nothing else to do.
    Respond(Response),
    /// Write the snapshot of a session to its file, creating the directory
    /// where it is missing, and come back with `persisted`.
    Persist {
        /// The session whose snapshot is written.
        session_id: String,
        /// The file to write.
        filepath: String,
        /// The directory of the snapshots.
        directory: String,
        /// The text of the snapshot.
        data: String,
    },
    /// Forward the request as `target` says and hand the answer on as it
    /// comes, without the headers that `strip_connection` drops.
    Relay {
        /// Where and how the request is sent.
        target: Target,
    },
    /// Connect the client to `addr` and pass bytes both ways.
    Tunnel {
        /// The host and port to connect to.
        addr: String,
    },
    /// Forward the request as `target` says, read the answer to its end, and
    /// come back with `captured`.
    Capture {
        /// The session that records.
        session_id: String,
        /// The fingerprint of the request.
        fingerprint: String,
        /// Where and how the request is sent.
        target: Target,
    },
    /// Read the snapshot file at `filepath`, and come back with `replay`.
    Replay {
        /// The session that replays.
        session_id: String,
        /// The fingerprint of the request.
        fingerprint: String,
        /// The snapshot file of the session.
        filepath: String,
    },
}

/// What an `Action` holds, as plain values.
pub ghost enum ActionView {
    Respond(ResponseView),
    Persist { session_id: Seq<char>, filepath: Seq<char>, directory: Seq<char>, data: Seq<char> },
    Relay { target: TargetView },
    Tunnel { addr: Seq<char> },
    Capture { session_id: Seq<char>, fingerprint: Seq<char>, target: TargetView },
    Replay { session_id: Seq<char>, fingerprint: Seq<char>, filepath: Seq<char> },
}

impl View for Action {
    type V = ActionView;

    open spec fn view(&self) -> ActionView {
        match self {
            Action::Respond(response) => ActionView::Respond(response@),
            Action::Persist { session_id, filepath, directory, data } => ActionView::Persist {
                session_id: session_id@,
                filepath: filepath@,
                directory: directory@,
                data: data@,
            },
            Action::Relay { target } => ActionView::Relay { target: target@ },
            Action::Tunnel { addr } => ActionView::Tunnel { addr: addr@ },
            Action::Capture { session_id, fingerprint, target } => ActionView::Capture {
                session_id: session_id@,
                fingerprint: fingerprint@,
                target: target@,
            },
            Action::Replay { session_id, fingerprint, filepath } => ActionView::Replay {
                session_id: session_id@,
                fingerprint: fingerprint@,
                filepath: filepath@,
            },
        }
    }
}

/// What reading a snapshot file gave.
#[derive(Debug, PartialEq, Eq)]
pub enum SnapshotLoad {
    /// There is no such file.
    Missing,
    /// The file does not hold a snapshot.
    Malformed,
    /// The snapshot that the file holds.
    Loaded(RecordFile),
}

/// What a `SnapshotLoad` holds, as plain values.
pub ghost enum LoadView {
    Missing,
    Malformed,
    Loaded(Logs),
}

impl View for SnapshotLoad {
    type V = LoadView;

    open spec fn view(&self) -> LoadView {
        match self {
            SnapshotLoad::Missing => LoadView::Missing,
            SnapshotLoad::Malformed => LoadView::Malformed,
            SnapshotLoad::Loaded(file) => LoadView::Loaded(file@),
        }
    }
}

/// The answer that a record stands for: the status code that its status
/// begins with, 200 where it begins with none; its headers but for
/// `Connection`, one for each name, with the last value that the record
/// holds for the name; and its body.
pub open spec fn response_of(record: RecordView) -> ResponseView {
    ResponseView {
        status: replay_status_of(record.status),
        headers: last_values(without_connection(record.headers)),
        body: record.body,
    }
}

/// The answer that a record stands for.
pub fn respond_with(record: &Record) -> (response: Response)
    ensures
        response@ == response_of(record@),
{
    Response {
        status: replay_status(record.status.as_str()),
        headers: settle_headers(strip_connection(copy_pairs(&record.headers))),
        body: record.body.clone(),
    }
}

/// The answer to a proxied request that speaks for no open session.
pub open spec fn no_session() -> ResponseView {
    plain(400, "No session started"@)
}

/// What is done for a proxied request. `session` is the session identifier in
/// the cookie of the request, `sent` says where and how the request is
/// forwarded, `addr` is the authority that its target names.
///
/// Without a snapshot directory the request is passed through, whatever the
/// record flag says. With one, the request must speak for an open session:
/// it is then recorded, or replayed, under its fingerprint.
pub open spec fn proxy_action(
    state: ProxyStateView,
    method: Seq<char>,
    target: Seq<char>,
    session: Option<Seq<char>>,
    sent: Option<TargetView>,
    addr: Option<Seq<char>>,
) -> ActionView {
    if state.mode() == Mode::Passthrough {
        if method == "CONNECT"@ {
            match addr {
                Some(addr) => ActionView::Tunnel { addr },
                None => ActionView::Respond(plain(400, "CONNECT must be to a socket address"@)),
            }
        } else {
            match sent {
                Some(target) => ActionView::Relay { target },
                None => ActionView::Respond(failure_of(UpstreamError::Unreachable)),
            }
        }
    } else if session is None || !state.sessions.contains_key(session->0) {
        ActionView::Respond(no_session())
    } else if state.mode() == Mode::Record {
        match sent {
            Some(sent) => ActionView::Capture {
                session_id: session->0,
                fingerprint: fingerprint_of(method, target),
                target: sent,
            },
            None => ActionView::Respond(failure_of(UpstreamError::Unreachable)),
        }
    } else {
        ActionView::Replay {
            session_id: session->0,
            fingerprint: fingerprint_of(method, target),
            filepath: state.sessions[session->0].filepath,
        }
    }
}

/// The state after a request to close the session `session`: while recording
/// the session stays open until its snapshot is written; otherwise it is
/// closed at once.
pub open spec fn after_end(state: ProxyStateView, session: Option<Seq<char>>) -> ProxyStateView {
    match session {
        Some(session_id) => if state.mode() == Mode::Record {
            state
        } else {
            state.with_sessions(state.sessions.remove(session_id))
        },
        None => state,
    }
}

/// The answer to a request to close the session `session`, where the request
/// is answered at once; `None` where the snapshot of the session is to be
/// written first.
pub open spec fn end_response(state: ProxyStateView, session: Option<Seq<char>>) -> Option<
    ResponseView,
> {
    match session {
        None => Some(plain(400, "No session was started"@)),
        Some(session_id) => if state.mode() != Mode::Record {
            Some(plain(200, "Not recording"@))
        } else if !state.sessions.contains_key(session_id) {
            Some(plain(400, "No session was started"@))
        } else {
            None
        },
    }
}

/// Whether `action` asks to write the snapshot of the session `session_id`:
/// to the file of the session, as a text that holds what the session has
/// recorded.
pub open spec fn is_persist_action(
    state: ProxyStateView,
    session_id: Seq<char>,
    action: ActionView,
) -> bool {
    action matches ActionView::Persist { session_id: id, filepath, directory, data } && id
        == session_id && filepath == state.sessions[session_id].filepath && directory
        == state.record_dir && snapshot_logs(data) == Some(state.sessions[session_id].records)
}

/// The answer to a request to close a session whose snapshot cannot be
/// written as a text that is read back.
pub open spec fn unwritable() -> ResponseView {
    plain(500, "Cannot parse in-memory records"@)
}

/// Whether `action` is what is done for a request to close the session
/// `session`, which has recorded `recorded`: the answer, where the request is
/// answered at once; otherwise the snapshot of the session is to be written,
/// with the text of `recorded`. The one other outcome is that the snapshot
/// has no text, which is so exactly where one of the texts in it, a
/// fingerprint, a status, a name or value of a header, a body or the name of a
/// member, is not read back as it is written.
pub open spec fn is_end_action(
    state: ProxyStateView,
    session: Option<Seq<char>>,
    recorded: Entries,
    action: ActionView,
) -> bool {
    match end_response(state, session) {
        Some(response) => action == ActionView::Respond(response),
        None => if writable(snapshot_tokens(recorded)) {
            is_persist_action(state, session->0, action) && (
            action matches ActionView::Persist { data, .. } && data == snapshot_text(recorded))
        } else {
            action == ActionView::Respond(unwritable())
        },
    }
}

/// What reading the snapshot file of a session gave: `text` is the text of
/// the file, if there is a file.
pub open spec fn load_of(text: Option<Seq<char>>) -> LoadView {
    match text {
        None => LoadView::Missing,
        Some(text) => match snapshot_logs(text) {
            Some(logs) => LoadView::Loaded(logs),
            None => LoadView::Malformed,
        },
    }
}

impl SnapshotLoad {
    /// Reads a snapshot from the text of its file, if there is a file.
    pub fn from_text(text: Option<&str>) -> (load: Self)
        ensures
            load@ == load_of(text.deep_view()),
    {
        match text {
            None => SnapshotLoad::Missing,
            Some(text) => match parse(text) {
                Some(file) => SnapshotLoad::Loaded(file),
                None => SnapshotLoad::Malformed,
            },
        }
    }
}

/// The state after the snapshot of `session_id` was written, or was not: a
/// session that is stored is closed, one that could not be stored stays open.
pub open spec fn after_persisted(state: ProxyStateView, session_id: Seq<char>, written: bool)
    -> ProxyStateView {
    if written {
        state.with_sessions(state.sessions.remove(session_id))
    } else {
        state
    }
}

/// The answer after the snapshot of a session was written, or was not.
pub open spec fn persisted_response(written: bool) -> ResponseView {
    if written {
        plain(200, "Record saved"@)
    } else {
        plain(500, "Cannot write to file"@)
    }
}

/// Whether an exchange with the upstream gave a response that is recorded in
/// the session `session_id`.
pub open spec fn is_recorded(state: ProxyStateView, session_id: Seq<char>, upstream: UpstreamView)
    -> bool {
    upstream matches UpstreamView::Answered { status, .. } && 100 <= status <= 999
        && state.sessions.contains_key(session_id)
}

/// The record of an upstream response.
pub open spec fn captured_record(upstream: UpstreamView) -> RecordView
    recommends
        upstream is Answered,
{
    record_of(upstream->status, upstream->headers, upstream->body)
}

/// The state after an exchange with the upstream in record mode: the record
/// of the response is the last one under the fingerprint of the request, and
/// nothing else has changed. An exchange that failed leaves no trace.
pub open spec fn after_captured(
    state: ProxyStateView,
    session_id: Seq<char>,
    fingerprint: Seq<char>,
    upstream: UpstreamView,
) -> ProxyStateView {
    if is_recorded(state, session_id, upstream) {
        state.with_sessions(
            table_appended(state.sessions, session_id, fingerprint, captured_record(upstream)),
        )
    } else {
        state
    }
}

/// The answer after an exchange with the upstream in record mode: what was
/// recorded, or the failure.
pub open spec fn captured_response(
    state: ProxyStateView,
    session_id: Seq<char>,
    upstream: UpstreamView,
) -> ResponseView {
    match upstream {
        UpstreamView::Failed(error) => failure_of(error),
        UpstreamView::Answered { status, headers, body } => if !(100 <= status <= 999) {
            failure_of(UpstreamError::Protocol)
        } else if !state.sessions.contains_key(session_id) {
            no_session()
        } else {
            response_of(record_of(status, headers, body))
        },
    }
}

/// Whether a replay serves a record: the snapshot was read, the session is
/// open, and the snapshot holds a response at the cursor of the fingerprint.
pub open spec fn is_served(
    state: ProxyStateView,
    session_id: Seq<char>,
    fingerprint: Seq<char>,
    load: LoadView,
) -> bool {
    load matches LoadView::Loaded(logs) && state.sessions.contains_key(session_id)
        && logs.contains_key(fingerprint) && state.sessions[session_id].cursor(fingerprint)
        < logs[fingerprint].len()
}

/// The body that tells the client that the snapshot holds no response at the
/// position `position`.
pub open spec fn no_record_at(position: nat) -> Seq<char> {
    "No record in position "@ + decimal_of(position) + " found"@
}

/// The state after a replay: where a record was served, the cursor of the
/// fingerprint is one further; otherwise nothing has changed.
pub open spec fn after_replay(
    state: ProxyStateView,
    session_id: Seq<char>,
    fingerprint: Seq<char>,
    load: LoadView,
) -> ProxyStateView {
    if is_served(state, session_id, fingerprint, load) {
        state.with_sessions(table_advanced(state.sessions, session_id, fingerprint))
    } else {
        state
    }
}

/// The answer of a replay: the record at the cursor of the fingerprint, as it
/// is, or the reason why there is none.
pub open spec fn replay_response(
    state: ProxyStateView,
    session_id: Seq<char>,
    fingerprint: Seq<char>,
    load: LoadView,
) -> ResponseView {
    match load {
        LoadView::Missing => plain(404, "No file found"@),
        LoadView::Malformed => plain(500, "Cannot parse record file"@),
        LoadView::Loaded(logs) => if !state.sessions.contains_key(session_id) {
            no_session()
        } else if !logs.contains_key(fingerprint) {
            plain(404, "No identifier found"@)
        } else if state.sessions[session_id].cursor(fingerprint) >= logs[fingerprint].len() {
            plain(404, no_record_at(state.sessions[session_id].cursor(fingerprint)))
        } else {
            response_of(logs[fingerprint][state.sessions[session_id].cursor(fingerprint) as int])
        },
    }
}

impl ProxyState {
    /// Decides what is done for a proxied request, from the session
    /// identifier in its cookie, the place it is forwarded to and the
    /// authority that its target names.
    pub fn proxy_for(
        &self,
        method: &str,
        target: &str,
        session: Option<String>,
        sent: Option<Target>,
        addr: Option<String>,
    ) -> (action: Action)
        ensures
            action@ == proxy_action(
                self@,
                method@,
                target@,
                session.deep_view(),
                sent.deep_view(),
                addr.deep_view(),
            ),
            self@.record_dir.len() == 0 ==> !(action is Capture) && !(action is Replay),
            self@.record_dir.len() > 0 && session is None ==> action@ == ActionView::Respond(
                no_session(),
            ),
    {
        let mode = self.options.mode();
        if mode == Mode::Passthrough {
            if str_eq(method, "CONNECT") {
                match addr {
                    Some(addr) => Action::Tunnel { addr },
                    None => Action::Respond(
                        Response::text(400, "CONNECT must be to a socket address"),
                    ),
                }
            } else {
                match sent {
                    Some(target) => Action::Relay { target },
                    None => Action::Respond(failure_response(UpstreamError::Unreachable)),
                }
            }
        } else {
            match session {
                None => Action::Respond(Response::text(400, "No session started")),
                Some(session_id) => match self.sessions.get(session_id.as_str()) {
                    None => Action::Respond(Response::text(400, "No session started")),
                    Some(open) => if mode == Mode::Record {
                        match sent {
                            Some(sent) => Action::Capture {
                                session_id,
                                fingerprint: fingerprint(method, target),
                                target: sent,
                            },
                            None => Action::Respond(failure_response(UpstreamError::Unreachable)),
                        }
                    } else {
                        let filepath = open.filepath.clone();
                        Action::Replay {
                            session_id,
                            fingerprint: fingerprint(method, target),
                            filepath,
                        }
                    },
                },
            }
        }
    }

    /// Decides what is done for a proxied request of a client at `peer_ip`.
    pub fn proxy(
        &self,
        method: &str,
        target: &str,
        cookie_header: Option<&str>,
        peer_ip: Option<&str>,
    ) -> (action: Action)
        ensures
            action@ == proxy_action(
                self@,
                method@,
                target@,
                session_of(cookie_header.deep_view()),
                forward_target_of(self@.forward_to, target@, peer_ip.deep_view()),
                authority_of(target@),
            ),
            self@.record_dir.len() == 0 ==> !(action is Capture) && !(action is Replay),
            self@.record_dir.len() > 0 && cookie_header is None ==> action@ == ActionView::Respond(
                no_session(),
            ),
    {
        let session = get_session(cookie_header);
        let sent = forward_target(self.forward_to.as_str(), target, peer_ip);
        let addr = host_addr(target);
        self.proxy_for(method, target, session, sent, addr)
    }

    /// Decides what is done for a request to close the session with the
    /// given identifier.
    pub fn end_record_for(&mut self, session: Option<String>) -> (action: Action)
        ensures
            final(self)@ == after_end(old(self)@, session.deep_view()),
            is_end_action(
                old(self)@,
                session.deep_view(),
                old(self).recorded(session.deep_view()),
                action@,
            ),
            end_response(old(self)@, session.deep_view()) is None && old(
                self,
            )@.sessions[session->0@].records =~= Map::<Seq<char>, Seq<RecordView>>::empty()
                ==> is_persist_action(old(self)@, session->0@, action@) && (
            action@ matches ActionView::Persist { data, .. } && data == seq!['{', '}']),
    {
        match session {
            None => Action::Respond(Response::text(400, "No session was started")),
            Some(session_id) => {
                if self.options.mode() != Mode::Record {
                    let _ = self.sessions.remove(session_id.as_str());
                    Action::Respond(Response::text(200, "Not recording"))
                } else {
                    match self.sessions.get(session_id.as_str()) {
                        None => Action::Respond(Response::text(400, "No session was started")),
                        Some(open) => {
                            proof {
                                self.lemma_recorded(session_id@);
                            }
                            match serialize(&open.records) {
                                Some(data) => Action::Persist {
                                    session_id,
                                    filepath: open.filepath.clone(),
                                    directory: self.options.record_dir.clone(),
                                    data,
                                },
                                None => Action::Respond(
                                    Response::text(500, "Cannot parse in-memory records"),
                                ),
                            }
                        },
                    }
                }
            },
        }
    }

    /// Decides what is done for a request to close the session that the
    /// request speaks for.
    pub fn end_record_handler(&mut self, cookie_header: Option<&str>) -> (action: Action)
        ensures
            final(self)@ == after_end(old(self)@, session_of(cookie_header.deep_view())),
            is_end_action(
                old(self)@,
                session_of(cookie_header.deep_view()),
                old(self).recorded(session_of(cookie_header.deep_view())),
                action@,
            ),
            cookie_header is None ==> action@ == ActionView::Respond(
                plain(400, "No session was started"@),
            ),
            end_response(old(self)@, session_of(cookie_header.deep_view())) is None && old(
                self,
            )@.sessions[session_of(cookie_header.deep_view())->0].records =~= Map::<
                Seq<char>,
                Seq<RecordView>,
            >::empty() ==> is_persist_action(
                old(self)@,
                session_of(cookie_header.deep_view())->0,
                action@,
            ) && (action@ matches ActionView::Persist { data, .. } && data == seq!['{', '}']),
    {
        let session = get_session(cookie_header);
        self.end_record_for(session)
    }

    /// Takes note that the snapshot of `session_id` was written, or could not
    /// be written.
    pub fn persisted(&mut self, session_id: &str, written: bool) -> (response: Response)
        ensures
            final(self)@ == after_persisted(old(self)@, session_id@, written),
            response@ == persisted_response(written),
    {
        if written {
            let _ = self.sessions.remove(session_id);
            Response::text(200, "Record saved")
        } else {
            Response::text(500, "Cannot write to file")
        }
    }

    /// Takes note of how the exchange with the upstream ended for a request
    /// that is recorded, and answers the client.
    pub fn captured(
        &mut self,
        session_id: &str,
        fingerprint: String,
        upstream: Upstream,
    ) -> (response: Response)
        ensures
            final(self)@ == after_captured(old(self)@, session_id@, fingerprint@, upstream@),
            response@ == captured_response(old(self)@, session_id@, upstream@),
            is_recorded(old(self)@, session_id@, upstream@) ==> response.status
                == upstream@->status && response@.headers == captured_record(upstream@).headers,
    {
        match upstream {
            Upstream::Failed(error) => failure_response(error),
            Upstream::Answered { status, headers, body } => {
                if status < 100 || status > 999 {
                    failure_response(UpstreamError::Protocol)
                } else if !self.sessions.contains(session_id) {
                    Response::text(400, "No session started")
                } else {
                    let record = build_record(status, headers, body);
                    let response = respond_with(&record);
                    self.sessions.append_record(session_id, fingerprint, record);
                    response
                }
            },
        }
    }

    /// Answers a request that is replayed, from what reading the snapshot
    /// file of its session gave, and moves the cursor. Choosing the record
    /// and moving the cursor are one step.
    pub fn replay(
        &mut self,
        session_id: &str,
        fingerprint: String,
        load: SnapshotLoad,
    ) -> (response: Response)
        ensures
            final(self)@ == after_replay(old(self)@, session_id@, fingerprint@, load@),
            response@ == replay_response(old(self)@, session_id@, fingerprint@, load@),
            load is Missing ==> response.status == 404,
    {
        match load {
            SnapshotLoad::Missing => Response::text(404, "No file found"),
            SnapshotLoad::Malformed => Response::text(500, "Cannot parse record file"),
            SnapshotLoad::Loaded(file) => {
                let position = match self.sessions.get(session_id) {
                    None => {
                        return Response::text(400, "No session started");
                    },
                    Some(open) => open.cursor(fingerprint.as_str()),
                };
                match file.records.get(fingerprint.as_str()) {
                    None => Response::text(404, "No identifier found"),
                    Some(log) => {
                        assert(file@[fingerprint@] == log.deep_view());
                        if position >= log.len() {
                            let mut body = join(
                                "No record in position ",
                                decimal(position).as_str(),
                            );
                            body.append(" found");
                            Response::text(404, body.as_str())
                        } else {
                            let response = respond_with(&log[position]);
                            self.sessions.advance_cursor(session_id, fingerprint);
                            response
                        }
                    },
                }
            },
        }
    }
}

impl ProxyState {
    /// Handles a request of a client at `peer_ip` as far as it can be handled
    /// without outside work: finds its handler, lets the handler decide, and
    /// says what is to do.
    pub fn handle_request(
        &mut self,
        method: &str,
        target: &str,
        cookie_header: Option<&str>,
        peer_ip: Option<&str>,
    ) -> (action: Action)
        ensures
            route_of(method@, request_path_of(target@)) matches RouteView::StartRecord(name) ==> (
            action@ matches ActionView::Respond(response) && started(
                old(self)@,
                name,
                final(self)@,
                response,
            )),
            route_of(method@, request_path_of(target@)) is EndRecord ==> final(self)@ == after_end(
                old(self)@,
                session_of(cookie_header.deep_view()),
            ) && is_end_action(
                old(self)@,
                session_of(cookie_header.deep_view()),
                old(self).recorded(session_of(cookie_header.deep_view())),
                action@,
            ),
            route_of(method@, request_path_of(target@)) is ClearSessions ==> final(self)@
                == after_clear(old(self)@) && action@ == ActionView::Respond(clear_response()),
            route_of(method@, request_path_of(target@)) is Proxy ==> final(self)@ == old(self)@
                && action@ == proxy_action(
                old(self)@,
                method@,
                target@,
                session_of(cookie_header.deep_view()),
                forward_target_of(old(self)@.forward_to, target@, peer_ip.deep_view()),
                authority_of(target@),
            ),
    {
        let path = request_path(target);
        match route(method, path.as_str()) {
            Route::StartRecord(name) => {
                Action::Respond(self.start_record_handler(name.as_str()))
            },
            Route::EndRecord => self.end_record_handler(cookie_header),
            Route::ClearSessions => Action::Respond(self.clear_sessions()),
            Route::Proxy => self.proxy(method, target, cookie_header, peer_ip),
        }
    }
}

/// The state after `n` replays of one fingerprint in one session, each from
/// the same snapshot.
pub open spec fn replayed(
    state: ProxyStateView,
    session_id: Seq<char>,
    fingerprint: Seq<char>,
    logs: Logs,
    n: nat,
) -> ProxyStateView
    decreases n,
{
    if n == 0 {
        state
    } else {
        after_replay(
            replayed(state, session_id, fingerprint, logs, (n - 1) as nat),
            session_id,
            fingerprint,
            LoadView::Loaded(logs),
        )
    }
}

/// Replays come in the order of the recording. Of `n` replays of one
/// fingerprint in one session, whichever way the requests were in flight, the
/// one that is served as number `k` is answered with the record at the
/// position `k` behind the cursor at which the first began, exactly as the
/// snapshot holds it; so no position is served twice and none is passed
/// over, and after them the cursor has moved by `n` and by no more.
pub proof fn lemma_replays_in_order(
    state: ProxyStateView,
    session_id: Seq<char>,
    fingerprint: Seq<char>,
    logs: Logs,
    n: nat,
)
    requires
        state.sessions.contains_key(session_id),
        logs.contains_key(fingerprint),
        state.sessions[session_id].cursor(fingerprint) + n <= logs[fingerprint].len(),
    ensures
        forall|k: nat|
            k < n ==> #[trigger] replay_response(
                replayed(state, session_id, fingerprint, logs, k),
                session_id,
                fingerprint,
                LoadView::Loaded(logs),
            ) == response_of(
                logs[fingerprint][(state.sessions[session_id].cursor(fingerprint) + k) as int],
            ),
        forall|k: nat|
            k <= n ==> (#[trigger] replayed(
                state,
                session_id,
                fingerprint,
                logs,
                k,
            )).sessions.contains_key(session_id) && replayed(
                state,
                session_id,
                fingerprint,
                logs,
                k,
            ).sessions[session_id].cursor(fingerprint) == state.sessions[session_id].cursor(
                fingerprint,
            ) + k,
    decreases n,
{
    if n > 0 {
        lemma_replays_in_order(state, session_id, fingerprint, logs, (n - 1) as nat);
        let before = replayed(state, session_id, fingerprint, logs, (n - 1) as nat);
        assert(before.sessions.contains_key(session_id));
        assert(is_served(before, session_id, fingerprint, LoadView::Loaded(logs)));
    }
}

/// A cursor moves by exactly one for each record that is served, and not
/// otherwise: it is never set back and never passes a record over. A replay
/// leaves every other session, and every other cursor of its own session, as
/// it was, and never touches what a session has recorded.
pub proof fn lemma_cursor_moves_by_one(
    state: ProxyStateView,
    session_id: Seq<char>,
    fingerprint: Seq<char>,
    load: LoadView,
)
    ensures
        !is_served(state, session_id, fingerprint, load) ==> after_replay(
            state,
            session_id,
            fingerprint,
            load,
        ) == state,
        is_served(state, session_id, fingerprint, load) ==> after_replay(
            state,
            session_id,
            fingerprint,
            load,
        ).sessions[session_id].cursor(fingerprint) == state.sessions[session_id].cursor(
            fingerprint,
        ) + 1,
        after_replay(state, session_id, fingerprint, load).sessions.dom() == state.sessions.dom(),
        forall|other: Seq<char>|
            other != session_id && state.sessions.contains_key(other) ==> #[trigger] after_replay(
                state,
                session_id,
                fingerprint,
                load,
            ).sessions[other] == state.sessions[other],
        state.sessions.contains_key(session_id) ==> {
            let before = state.sessions[session_id];
            let after = after_replay(state, session_id, fingerprint, load).sessions[session_id];
            &&& after.records == before.records
            &&& after.filepath == before.filepath
            &&& forall|other: Seq<char>|
                other != fingerprint ==> #[trigger] after.cursor(other) == before.cursor(other)
        },
{
    assert(after_replay(state, session_id, fingerprint, load).sessions.dom()
        =~= state.sessions.dom());
}

/// Replays of different fingerprints, or in different sessions, are apart:
/// a replay of one changes neither the cursor of the other nor what the
/// other is answered with, so no order between them matters.
pub proof fn lemma_replays_are_apart(
    state: ProxyStateView,
    session_id: Seq<char>,
    fingerprint: Seq<char>,
    load: LoadView,
    other_session: Seq<char>,
    other_fingerprint: Seq<char>,
    other_load: LoadView,
)
    requires
        session_id != other_session || fingerprint != other_fingerprint,
    ensures
        replay_response(
            after_replay(state, other_session, other_fingerprint, other_load),
            session_id,
            fingerprint,
            load,
        ) == replay_response(state, session_id, fingerprint, load),
        after_replay(
            after_replay(state, other_session, other_fingerprint, other_load),
            session_id,
            fingerprint,
            load,
        ) == after_replay(
            after_replay(state, session_id, fingerprint, load),
            other_session,
            other_fingerprint,
            other_load,
        ),
{
    let first = after_replay(state, other_session, other_fingerprint, other_load);
    let second = after_replay(state, session_id, fingerprint, load);
    assert(first.sessions.dom() =~= state.sessions.dom());
    assert(second.sessions.dom() =~= state.sessions.dom());
    let left = after_replay(first, session_id, fingerprint, load);
    let right = after_replay(second, other_session, other_fingerprint, other_load);
    if session_id == other_session && state.sessions.contains_key(session_id) {
        assert(left.sessions[session_id].states =~= right.sessions[session_id].states);
    }
    assert(left.sessions =~= right.sessions);
}

/// Recording under one fingerprint, or in one session, changes nothing of
/// what is recorded under another fingerprint or in another session.
pub proof fn lemma_records_are_apart(
    state: ProxyStateView,
    session_id: Seq<char>,
    fingerprint: Seq<char>,
    other_session: Seq<char>,
    other_fingerprint: Seq<char>,
    upstream: UpstreamView,
)
    requires
        session_id != other_session || fingerprint != other_fingerprint,
        state.sessions.contains_key(session_id),
    ensures
        after_captured(state, other_session, other_fingerprint, upstream).sessions.contains_key(
            session_id,
        ),
        after_captured(
            state,
            other_session,
            other_fingerprint,
            upstream,
        ).sessions[session_id].log(fingerprint) == state.sessions[session_id].log(fingerprint),
        after_captured(
            state,
            other_session,
            other_fingerprint,
            upstream,
        ).sessions[session_id].states == state.sessions[session_id].states,
{
}

/// A cursor never leaves the responses that the snapshot holds: where every
/// cursor of a session pointed into them or just behind them before a
/// replay, it does so after it.
pub proof fn lemma_replay_stays_within(
    state: ProxyStateView,
    session_id: Seq<char>,
    fingerprint: Seq<char>,
    logs: Logs,
)
    requires
        state.sessions.contains_key(session_id),
        state.sessions[session_id].within(logs),
    ensures
        after_replay(
            state,
            session_id,
            fingerprint,
            LoadView::Loaded(logs),
        ).sessions[session_id].within(logs),
{
    let before = state.sessions[session_id];
    let after = after_replay(
        state,
        session_id,
        fingerprint,
        LoadView::Loaded(logs),
    ).sessions[session_id];
    assert forall|other: Seq<char>| #[trigger]
        after.states.contains_key(other) implies logs.contains_key(other) && after.cursor(other)
        <= logs[other].len() by {
        if other != fingerprint {
            assert(before.states.contains_key(other));
        } else if !is_served(state, session_id, fingerprint, LoadView::Loaded(logs)) {
            assert(before.states.contains_key(other));
        }
    }
}

/// The state after the exchanges `exchanges`, in this order, were recorded
/// under one fingerprint in one session.
pub open spec fn captured_all(
    state: ProxyStateView,
    session_id: Seq<char>,
    fingerprint: Seq<char>,
    exchanges: Seq<UpstreamView>,
) -> ProxyStateView
    decreases exchanges.len(),
{
    if exchanges.len() == 0 {
        state
    } else {
        after_captured(
            captured_all(state, session_id, fingerprint, exchanges.drop_last()),
            session_id,
            fingerprint,
            exchanges.last(),
        )
    }
}

/// Whether the upstream answered in each of the exchanges, with a status code
/// of three digits.
pub open spec fn all_answered(exchanges: Seq<UpstreamView>) -> bool {
    forall|i: int|
        0 <= i < exchanges.len() ==> (#[trigger] exchanges[i]) is Answered && 100
            <= exchanges[i]->status <= 999
}

/// A session keeps what it records, in the order of the requests. After `n`
/// answered requests with one fingerprint, the session holds under that
/// fingerprint what it held before and then `n` records, of which number `i`
/// is the record of the response to request number `i`. What it holds under
/// other fingerprints, its cursors and its file are as they were.
pub proof fn lemma_records_in_order(
    state: ProxyStateView,
    session_id: Seq<char>,
    fingerprint: Seq<char>,
    exchanges: Seq<UpstreamView>,
)
    requires
        state.sessions.contains_key(session_id),
        all_answered(exchanges),
    ensures
        captured_all(state, session_id, fingerprint, exchanges).sessions.contains_key(session_id),
        ({
            let before = state.sessions[session_id];
            let after = captured_all(
                state,
                session_id,
                fingerprint,
                exchanges,
            ).sessions[session_id];
            &&& after.log(fingerprint).len() == before.log(fingerprint).len() + exchanges.len()
            &&& after.log(fingerprint).take(before.log(fingerprint).len() as int) == before.log(
                fingerprint,
            )
            &&& forall|i: int|
                0 <= i < exchanges.len() ==> #[trigger] after.log(fingerprint)[before.log(
                    fingerprint,
                ).len() + i] == captured_record(exchanges[i])
            &&& forall|other: Seq<char>|
                other != fingerprint ==> #[trigger] after.log(other) == before.log(other)
            &&& after.states == before.states
            &&& after.filepath == before.filepath
        }),
    decreases exchanges.len(),
{
    let before = state.sessions[session_id];
    if exchanges.len() == 0 {
        assert(before.log(fingerprint).take(before.log(fingerprint).len() as int) == before.log(
            fingerprint,
        ));
    } else {
        let front = exchanges.drop_last();
        assert(all_answered(front)) by {
            assert forall|i: int| 0 <= i < front.len() implies (#[trigger] front[i]) is Answered
                && 100 <= front[i]->status <= 999 by {
                assert(front[i] == exchanges[i]);
            }
        }
        lemma_records_in_order(state, session_id, fingerprint, front);
        let middle = captured_all(state, session_id, fingerprint, front);
        assert(exchanges[exchanges.len() - 1] == exchanges.last());
        assert(is_recorded(middle, session_id, exchanges.last()));
        let after = captured_all(state, session_id, fingerprint, exchanges).sessions[session_id];
        let grown = middle.sessions[session_id].log(fingerprint);
        assert(after.log(fingerprint) == grown.push(captured_record(exchanges.last())));
        assert(after.log(fingerprint).take(before.log(fingerprint).len() as int) =~= grown.take(
            before.log(fingerprint).len() as int,
        ));
        assert forall|other: Seq<char>| other != fingerprint implies #[trigger] after.log(other)
            == before.log(other) by {
            assert(after.log(other) == middle.sessions[session_id].log(other));
        }
        assert forall|i: int| 0 <= i < exchanges.len() implies #[trigger] after.log(
            fingerprint,
        )[before.log(fingerprint).len() + i] == captured_record(exchanges[i]) by {
            if i < front.len() {
                assert(front[i] == exchanges[i]);
                assert(grown[before.log(fingerprint).len() + i] == captured_record(front[i]));
            }
        }
    }
}

/// A session that has just been opened and then records `n` answered
/// requests with one fingerprint holds exactly `n` records under it, the
/// record of each response in the place of its request.
pub proof fn lemma_fresh_session_records(
    state: ProxyStateView,
    name: Seq<char>,
    session_id: Seq<char>,
    fingerprint: Seq<char>,
    exchanges: Seq<UpstreamView>,
)
    requires
        !state.sessions.contains_key(session_id),
        all_answered(exchanges),
    ensures
        ({
            let opened = after_start(state, name, session_id);
            let after = captured_all(
                opened,
                session_id,
                fingerprint,
                exchanges,
            ).sessions[session_id];
            &&& after.log(fingerprint).len() == exchanges.len()
            &&& forall|i: int|
                0 <= i < exchanges.len() ==> #[trigger] after.log(fingerprint)[i]
                    == captured_record(exchanges[i])
        }),
{
    let opened = after_start(state, name, session_id);
    assert(opened.sessions[session_id].log(fingerprint).len() == 0);
    lemma_records_in_order(opened, session_id, fingerprint, exchanges);
    let after = captured_all(opened, session_id, fingerprint, exchanges).sessions[session_id];
    assert forall|i: int| 0 <= i < exchanges.len() implies #[trigger] after.log(fingerprint)[i]
        == captured_record(exchanges[i]) by {
        assert(after.log(fingerprint)[0 + i] == captured_record(exchanges[i]));
    }
}

/// What a session has recorded is what its snapshot holds. Where a session
/// is opened, records `n` answered requests with one fingerprint and is then
/// ended, the snapshot that is written holds under that fingerprint exactly
/// `n` records, the record of each response in the place of its request.
pub proof fn lemma_snapshot_of_recording(
    state: ProxyStateView,
    name: Seq<char>,
    session_id: Seq<char>,
    fingerprint: Seq<char>,
    exchanges: Seq<UpstreamView>,
    action: ActionView,
)
    requires
        !state.sessions.contains_key(session_id),
        all_answered(exchanges),
        is_persist_action(
            captured_all(after_start(state, name, session_id), session_id, fingerprint, exchanges),
            session_id,
            action,
        ),
    ensures
        action matches ActionView::Persist { filepath, data, .. } && filepath == snapshot_path_of(
            state.record_dir,
            name,
        ) && (snapshot_logs(data) matches Some(logs) && log_of(logs, fingerprint).len()
            == exchanges.len() && forall|i: int|
            0 <= i < exchanges.len() ==> #[trigger] log_of(logs, fingerprint)[i]
                == captured_record(exchanges[i])),
{
    let opened = after_start(state, name, session_id);
    lemma_records_in_order(opened, session_id, fingerprint, exchanges);
    lemma_fresh_session_records(state, name, session_id, fingerprint, exchanges);
    lemma_captured_all_keeps_options(opened, session_id, fingerprint, exchanges);
}

/// What was recorded is replayed. Where a session has recorded the answers to
/// `n` requests with one fingerprint and its snapshot was written, a session
/// that replays from that snapshot, and has not yet replayed that
/// fingerprint, answers its request number `k` with exactly what the client
/// was answered with at request number `k` of the recording.
pub proof fn lemma_replay_repeats_recording(
    recording: ProxyStateView,
    name: Seq<char>,
    session_id: Seq<char>,
    fingerprint: Seq<char>,
    exchanges: Seq<UpstreamView>,
    action: ActionView,
    replaying: ProxyStateView,
    replay_session: Seq<char>,
    k: nat,
)
    requires
        !recording.sessions.contains_key(session_id),
        all_answered(exchanges),
        is_persist_action(
            captured_all(
                after_start(recording, name, session_id),
                session_id,
                fingerprint,
                exchanges,
            ),
            session_id,
            action,
        ),
        replaying.sessions.contains_key(replay_session),
        replaying.sessions[replay_session].cursor(fingerprint) == 0,
        k < exchanges.len(),
    ensures
        action matches ActionView::Persist { data, .. } && (load_of(
            Some(data),
        ) matches LoadView::Loaded(logs) && replay_response(
            replayed(replaying, replay_session, fingerprint, logs, k),
            replay_session,
            fingerprint,
            LoadView::Loaded(logs),
        ) == captured_response(
            captured_all(
                after_start(recording, name, session_id),
                session_id,
                fingerprint,
                exchanges.take(k as int),
            ),
            session_id,
            exchanges[k as int],
        )),
{
    let opened = after_start(recording, name, session_id);
    lemma_snapshot_of_recording(recording, name, session_id, fingerprint, exchanges, action);
    match action {
        ActionView::Persist { data, .. } => {
            let logs = snapshot_logs(data)->0;
            assert(log_of(logs, fingerprint)[k as int] == captured_record(exchanges[k as int]));
            assert(logs.contains_key(fingerprint));
            lemma_replays_in_order(replaying, replay_session, fingerprint, logs, k + 1);
            let front = exchanges.take(k as int);
            assert(all_answered(front)) by {
                assert forall|i: int| 0 <= i < front.len() implies (
                #[trigger] front[i]) is Answered && 100 <= front[i]->status <= 999 by {
                    assert(front[i] == exchanges[i]);
                }
            }
            lemma_records_in_order(opened, session_id, fingerprint, front);
        },
        _ => {},
    }
}

/// Recording changes nothing but the sessions.
pub proof fn lemma_captured_all_keeps_options(
    state: ProxyStateView,
    session_id: Seq<char>,
    fingerprint: Seq<char>,
    exchanges: Seq<UpstreamView>,
)
    ensures
        captured_all(state, session_id, fingerprint, exchanges).record == state.record,
        captured_all(state, session_id, fingerprint, exchanges).record_dir == state.record_dir,
        captured_all(state, session_id, fingerprint, exchanges).forward_to == state.forward_to,
    decreases exchanges.len(),
{
    if exchanges.len() > 0 {
        lemma_captured_all_keeps_options(state, session_id, fingerprint, exchanges.drop_last());
    }
}

/// Once every session was closed, a cookie from before opens nothing: with a
/// snapshot directory set, a proxied request is told that no session was
/// started, whatever cookie it brings, and a request to close a session while
/// recording is told that none was started.
pub proof fn lemma_cleared_sessions_are_gone(
    state: ProxyStateView,
    method: Seq<char>,
    target: Seq<char>,
    session: Option<Seq<char>>,
    sent: Option<TargetView>,
    addr: Option<Seq<char>>,
)
    requires
        state.record_dir.len() > 0,
    ensures
        proxy_action(after_clear(state), method, target, session, sent, addr)
            == ActionView::Respond(no_session()),
        state.record ==> end_response(after_clear(state), session) == Some(
            plain(400, "No session was started"@),
        ),
{
}

/// Without a snapshot directory the record flag counts for nothing: a
/// proxied request is passed through, and is neither recorded nor replayed.
pub proof fn lemma_no_directory_is_passthrough(
    state: ProxyStateView,
    method: Seq<char>,
    target: Seq<char>,
    session: Option<Seq<char>>,
    sent: Option<TargetView>,
    addr: Option<Seq<char>>,
)
    requires
        state.record_dir.len() == 0,
    ensures
        state.mode() == Mode::Passthrough,
        proxy_action(state, method, target, session, sent, addr) == proxy_action(
            ProxyStateView { record: !state.record, ..state },
            method,
            target,
            session,
            sent,
            addr,
        ),
        !(proxy_action(state, method, target, session, sent, addr) is Capture),
        !(proxy_action(state, method, target, session, sent, addr) is Replay),
        !(proxy_action(state, method, target, session, sent, addr) is Persist),
{
}

/// With a snapshot directory set, a proxied request without a session cookie
/// is refused as an error of the client.
pub proof fn lemma_no_cookie_is_refused(
    state: ProxyStateView,
    method: Seq<char>,
    target: Seq<char>,
    sent: Option<TargetView>,
    addr: Option<Seq<char>>,
)
    requires
        state.record_dir.len() > 0,
    ensures
        proxy_action(state, method, target, None, sent, addr) == ActionView::Respond(no_session()),
        400 <= no_session().status <= 499,
{
}

/// A replay for which there is no snapshot file is answered with 404, and
/// moves no cursor.
pub proof fn lemma_missing_snapshot(
    state: ProxyStateView,
    session_id: Seq<char>,
    fingerprint: Seq<char>,
)
    ensures
        replay_response(state, session_id, fingerprint, LoadView::Missing) == plain(
            404,
            "No file found"@,
        ),
        after_replay(state, session_id, fingerprint, LoadView::Missing) == state,
{
}

/// A fingerprint under which the snapshot holds no response is answered with
/// 404 from the first replay on, which finds nothing at position 0.
pub proof fn lemma_empty_log_is_exhausted(
    state: ProxyStateView,
    session_id: Seq<char>,
    fingerprint: Seq<char>,
    logs: Logs,
)
    requires
        state.sessions.contains_key(session_id),
        state.sessions[session_id].cursor(fingerprint) == 0,
        logs.contains_key(fingerprint),
        logs[fingerprint].len() == 0,
    ensures
        replay_response(state, session_id, fingerprint, LoadView::Loaded(logs)) == plain(
            404,
            "No record in position 0 found"@,
        ),
        after_replay(state, session_id, fingerprint, LoadView::Loaded(logs)) == state,
{
    reveal_strlit("No record in position ");
    reveal_strlit(" found");
    reveal_strlit("No record in position 0 found");
    assert(decimal_of(0) =~= seq!['0']);
    assert(no_record_at(0) =~= "No record in position 0 found"@);
}

} // verus!
