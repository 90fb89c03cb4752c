use std::collections::HashMap;
use vstd::prelude::*;
use vstd::string::StringSliceAdditionalSpecFns;

use crate::ambient::now_millis;
use crate::build_logs::BuildLogs;
use crate::error::{status_of, AppError};
use crate::executable::{placeholder_pattern, stamp, Executable, ExecutableJson, PLACEHOLDER_LEN};
use crate::messages::{Delivery, IncomingMessage, OutgoingMessage};
use crate::paths::{
    extension_of, file_name_of, file_stem_of, path_extension, path_file_name, path_file_stem,
};
use crate::search::{is_first_match, matches_at};
use crate::session::{
    download_filename, first_token_at, fresh_session, holds_token, is_state_of, remove_token, seen_view,
    DownloadView, Session, SessionDownload, SessionView,
};
use crate::text::{
    correlation_key, decimal_bytes, decimal_text, lemma_decimal_len, parse_correlation_key,
    parse_decimal, parse_unsigned,
};

verus! {

broadcast use vstd::std_specs::hash::group_hash_axioms;

/// The registry: every session and every template, behind one lock held by
/// the caller.
pub struct State {
    /// Sessions by id.
    pub sessions: HashMap<u32, Session>,
    /// The ids of the sessions, oldest first.
    pub order: Vec<u32>,
    /// Templates by id, in the order they were added.
    pub executables: Vec<(String, Executable)>,
    pub build_logs: Option<BuildLogs>,
    pub build_log_url: Option<String>,
    /// The number the next attached connection gets.
    pub next_channel: u64,
}

/// Sessions by id, as values.
pub open spec fn views_of(sessions: Map<u32, Session>) -> Map<u32, SessionView> {
    sessions.map_values(|s: Session| s@)
}

/// The catalog entry `j` describes the template `entry`.
pub open spec fn is_entry_of(j: ExecutableJson, entry: (String, Executable)) -> bool {
    &&& j.id@ == entry.0@
    &&& j.size == entry.1.data@.len()
    &&& j.filename@ == entry.1.filename@
}

/// `js` lists the templates `es`, in order.
pub open spec fn is_catalog(js: Seq<ExecutableJson>, es: Seq<(String, Executable)>) -> bool {
    &&& js.len() == es.len()
    &&& forall|i: int| 0 <= i < js.len() ==> is_entry_of(#[trigger] js[i], es[i])
}

/// `m` is the catalog message for the templates `es`, with the build-log
/// link exactly when `has_logs`.
pub open spec fn is_catalog_message(m: OutgoingMessage, es: Seq<(String, Executable)>, has_logs: bool) -> bool {
    m matches OutgoingMessage::Executables { build_log, executables } && is_catalog(executables@, es)
        && (has_logs ==> (build_log matches Some(link) && link@ == BUILD_LOGS_PATH@)) && (!has_logs
        ==> build_log is None)
}

/// Where clients read the build log.
pub const BUILD_LOGS_PATH: &'static str = "/build-logs";

/// Some template in `es` has the id `id`.
pub open spec fn has_template(es: Seq<(String, Executable)>, id: Seq<char>) -> bool {
    exists|i: int| 0 <= i < es.len() && #[trigger] es[i].0@ == id
}

/// `new` is `old` with the template under `id` replaced, or added at the end.
pub open spec fn puts_template(old: Seq<(String, Executable)>, new: Seq<(String, Executable)>, id: Seq<char>) -> bool {
    &&& new.len() == if has_template(old, id) {
        old.len()
    } else {
        old.len() + 1
    }
    &&& forall|i: int| 0 <= i < old.len() && (#[trigger] old[i]).0@ != id ==> new[i] == old[i]
    &&& has_template(new, id)
}

/// `e` is the template read from `data` under these names, its placeholder
/// span at the first sentinel run.
pub open spec fn is_template_of(e: Executable, data: Seq<u8>, filename: Seq<char>, name: Seq<char>, extension: Seq<char>) -> bool {
    &&& e.data@ == data
    &&& e.filename@ == filename
    &&& e.name@ == name
    &&& e.extension@ == extension
    &&& is_first_match(data, placeholder_pattern(), 0, e.key_start as int)
    &&& e.key_end == e.key_start + PLACEHOLDER_LEN
}

/// A session as it is after a connection numbered `channel` is attached to it.
pub open spec fn attached(views: Map<u32, SessionView>, id: u32, channel: u64) -> Map<u32, SessionView> {
    views.insert(id, SessionView { tx: Some(channel), ..views[id] })
}

/// The session id a cookie value names, if it is a 32-bit decimal number.
pub open spec fn cookie_session(cookie: Option<&str>) -> Option<u32> {
    match cookie {
        Some(c) => parse_unsigned(c.spec_bytes(), 10),
        None => None,
    }
}

/// `s` with the download `d` appended after the others.
pub open spec fn with_download(s: SessionView, d: DownloadView) -> SessionView {
    SessionView { downloads: s.downloads.push(d), ..s }
}

/// `s` without the first download that carries `token`.
pub open spec fn without_token(s: SessionView, token: u32) -> SessionView {
    SessionView { downloads: remove_token(s.downloads, token), ..s }
}

/// A download issued to a session, with the stamped copy of the template.
pub struct IssuedDownload {
    /// The record appended to the session.
    pub download: SessionDownload,
    /// The stamped copy of the template.
    pub data: Vec<u8>,
    /// The session's new state, for its live connection, if it has one.
    pub update: Option<Delivery>,
}

impl State {
    /// `id` is the oldest session that holds a download with `token`.
    pub open spec fn is_oldest_holder(&self, id: u32, token: u32) -> bool {
        &&& self.sessions@.contains_key(id)
        &&& holds_token(self.session_views()[id].downloads, token)
        &&& exists|j: int|
            0 <= j < self.order@.len() && self.order@[j] == id && forall|k: int|
                0 <= k < j ==> !holds_token(
                    self.session_views()[#[trigger] self.order@[k]].downloads,
                    token,
                )
    }

    proof fn lemma_oldest_holder_unique(&self, a: u32, b: u32, token: u32)
        requires
            self.wf(),
            self.is_oldest_holder(a, token),
            self.is_oldest_holder(b, token),
        ensures
            a == b,
    {
        let ja = choose|j: int|
            0 <= j < self.order@.len() && self.order@[j] == a && forall|k: int|
                0 <= k < j ==> !holds_token(
                    self.session_views()[#[trigger] self.order@[k]].downloads,
                    token,
                );
        let jb = choose|j: int|
            0 <= j < self.order@.len() && self.order@[j] == b && forall|k: int|
                0 <= k < j ==> !holds_token(
                    self.session_views()[#[trigger] self.order@[k]].downloads,
                    token,
                );
        if ja < jb {
            assert(!holds_token(self.session_views()[self.order@[ja]].downloads, token));
        } else if jb < ja {
            assert(!holds_token(self.session_views()[self.order@[jb]].downloads, token));
        }
    }

    pub open spec fn session_views(&self) -> Map<u32, SessionView> {
        views_of(self.sessions@)
    }

    pub open spec fn wf(&self) -> bool {
        &&& self.order@.no_duplicates()
        &&& forall|id: u32| #[trigger] self.sessions@.contains_key(id) <==> self.order@.contains(id)
        &&& forall|id: u32| #[trigger]
            self.sessions@.contains_key(id) ==> self.sessions@[id].id == id && (
            self.sessions@[id].tx matches Some(c) ==> c < self.next_channel)
        &&& forall|i: int|
            0 <= i < self.executables@.len() ==> (#[trigger] self.executables@[i]).1.wf()
                && self.executables@[i].1.key_end == self.executables@[i].1.key_start
                + PLACEHOLDER_LEN
        &&& forall|i: int, j: int|
            0 <= i < j < self.executables@.len() ==> (#[trigger] self.executables@[i]).0@ != (
            #[trigger] self.executables@[j]).0@
    }

    /// An empty registry.
    pub fn new() -> (r: State)
        ensures
            r.wf(),
            r.sessions@ == Map::<u32, Session>::empty(),
            r.executables@.len() == 0,
            r.build_logs is None,
            r.build_log_url is None,
    {
        State {
            sessions: HashMap::new(),
            order: Vec::new(),
            executables: Vec::new(),
            build_logs: None,
            build_log_url: None,
            next_channel: 0,
        }
    }

    /// Starts a session under a fresh random id, with no downloads, first
    /// seen now by the clock, and returns the id.
    pub fn new_session(&mut self) -> (r: u32)
        requires
            old(self).wf(),
        ensures
            final(self).wf(),
            final(self).session_views() == old(self).session_views().insert(
                r,
                fresh_session(r, final(self).session_views()[r].first_seen),
            ),
            final(self).executables == old(self).executables,
            final(self).next_channel == old(self).next_channel,
    {
        let now = now_millis();
        self.new_session_at(now)
    }

    /// Starts a session under a fresh random id, with no downloads, first
    /// seen at `now`, and returns the id.
    pub fn new_session_at(&mut self, now: i64) -> (r: u32)
        requires
            old(self).wf(),
        ensures
            final(self).wf(),
            final(self).session_views() == old(self).session_views().insert(r, fresh_session(r, now)),
            final(self).executables == old(self).executables,
            final(self).next_channel == old(self).next_channel,
    {
        let id: u32 = rand::random();
        let session = Session::new(id, now);
        if !self.sessions.contains_key(&id) {
            self.order.push(id);
            proof {
                let o = old(self).order@;
                assert forall|a: int, b: int| 0 <= a < b < self.order@.len() implies self.order@[a]
                    != self.order@[b] by {
                    if b == o.len() {
                        assert(o.contains(o[a]));
                    }
                }
                assert forall|k: u32| self.order@.contains(k) <==> o.contains(k) || k == id by {
                    if self.order@.contains(k) && k != id {
                        let a = choose|a: int| 0 <= a < self.order@.len() && self.order@[a] == k;
                        assert(o[a] == k);
                    }
                    if k == id {
                        assert(self.order@[o.len() as int] == id);
                    }
                    if o.contains(k) {
                        let a = choose|a: int| 0 <= a < o.len() && o[a] == k;
                        assert(self.order@[a] == k);
                    }
                }
            }
        }
        self.sessions.insert(id, session);
        assert(self.session_views() =~= old(self).session_views().insert(id, fresh_session(id, now)));
        id
    }

    /// A copy of the session with this id, if there is one.
    pub fn session_snapshot(&self, id: u32) -> (r: Option<Session>)
        ensures
            r is Some <==> self.sessions@.contains_key(id),
            r matches Some(s) ==> s@ == self.session_views()[id],
    {
        match self.sessions.get(&id) {
            Some(s) => Some(s.snapshot()),
            None => None,
        }
    }

    /// The id of the oldest session that holds a download with `token`, if any does.
    pub fn find_session_by_token(&self, token: u32) -> (r: Option<u32>)
        requires
            self.wf(),
        ensures
            r matches Some(id) ==> self.is_oldest_holder(id, token),
            r is None ==> forall|id: u32| #[trigger]
                self.sessions@.contains_key(id) ==> !holds_token(
                    self.session_views()[id].downloads,
                    token,
                ),
    {
        let mut i: usize = 0;
        while i < self.order.len()
            invariant
                self.wf(),
                i <= self.order@.len(),
                forall|j: int|
                    0 <= j < i ==> !holds_token(
                        self.session_views()[#[trigger] self.order@[j]].downloads,
                        token,
                    ),
            decreases self.order@.len() - i,
        {
            let id = self.order[i];
            assert(self.order@.contains(id));
            match self.sessions.get(&id) {
                Some(s) => {
                    if s.holds(token) {
                        assert(self.order@[i as int] == id);
                        return Some(id);
                    }
                },
                None => {},
            }
            i += 1;
        }
        assert forall|id: u32| #[trigger] self.sessions@.contains_key(id) implies !holds_token(
            self.session_views()[id].downloads,
            token,
        ) by {
            let j = choose|j: int| 0 <= j < self.order@.len() && self.order@[j] == id;
            assert(!holds_token(self.session_views()[self.order@[j]].downloads, token));
        }
        None
    }

    proof fn lemma_replace_session(before: State, after: State, id: u32)
        requires
            before.wf(),
            before.sessions@.contains_key(id),
            after.sessions@ == before.sessions@.insert(id, after.sessions@[id]),
            after.sessions@[id].id == id,
            after.sessions@[id].tx matches Some(c) ==> c < after.next_channel,
            after.order == before.order,
            after.executables == before.executables,
            before.next_channel <= after.next_channel,
        ensures
            after.wf(),
            after.session_views() == before.session_views().insert(id, after.sessions@[id]@),
    {
        assert(after.session_views() =~= before.session_views().insert(id, after.sessions@[id]@));
        assert forall|k: u32| #[trigger] after.sessions@.contains_key(k) implies after.sessions@[k].id
            == k && (after.sessions@[k].tx matches Some(c) ==> c < after.next_channel) by {
            if k != id {
                assert(before.sessions@.contains_key(k));
            }
        }
    }

    /// The position of the template with this id, if there is one.
    pub fn template_index(&self, id: &str) -> (r: Option<usize>)
        ensures
            r matches Some(i) ==> i < self.executables@.len() && self.executables@[i as int].0@ == id@,
            r is None ==> !has_template(self.executables@, id@),
    {
        let key = id.to_owned();
        let mut i: usize = 0;
        while i < self.executables.len()
            invariant
                i <= self.executables@.len(),
                key@ == id@,
                forall|j: int| 0 <= j < i ==> (#[trigger] self.executables@[j]).0@ != id@,
            decreases self.executables@.len() - i,
        {
            if self.executables[i].0 == key {
                return Some(i);
            }
            i += 1;
        }
        None
    }

    /// Adds the template read from `exe_path` as `exe_type`, replacing any
    /// template already under that id.
    pub fn add_executable(&mut self, exe_type: &str, exe_path: &str, data: Vec<u8>) -> (r: Result<(), AppError>)
        requires
            old(self).wf(),
        ensures
            final(self).wf(),
            final(self).sessions == old(self).sessions,
            final(self).order == old(self).order,
            final(self).next_channel == old(self).next_channel,
            (file_name_of(exe_path@) is None || file_stem_of(exe_path@) is None) ==> (r matches Err(
                AppError::ExecutableNotFound { path },
            ) && path@ == exe_path@),
            (file_name_of(exe_path@) is Some && file_stem_of(exe_path@) is Some) ==> (r is Ok <==> exists|j: int|
                #[trigger] matches_at(data@, placeholder_pattern(), j)),
            (file_name_of(exe_path@) is Some && file_stem_of(exe_path@) is Some && !exists|j: int|
                #[trigger] matches_at(data@, placeholder_pattern(), j)) ==> (r matches Err(
                AppError::KeyPatternNotFound { name },
            ) && name@ == file_name_of(exe_path@).unwrap()),
            r matches Err(e) ==> final(self).executables == old(self).executables && (e is ExecutableNotFound || e is KeyPatternNotFound),
            r is Ok ==> puts_template(old(self).executables@, final(self).executables@, exe_type@)
                && forall|i: int|
                0 <= i < final(self).executables@.len() && (#[trigger] final(self).executables@[i]).0@ == exe_type@
                    ==> is_template_of(
                    final(self).executables@[i].1,
                    data@,
                    file_name_of(exe_path@).unwrap(),
                    file_stem_of(exe_path@).unwrap(),
                    match extension_of(exe_path@) {
                        Some(e) => e,
                        None => Seq::<char>::empty(),
                    },
                ),
    {
        let file_name = path_file_name(exe_path);
        let stem = path_file_stem(exe_path);
        let (filename, name) = match (file_name, stem) {
            (Some(f), Some(s)) => (f, s),
            _ => {
                return Err(AppError::ExecutableNotFound { path: exe_path.to_owned() });
            },
        };
        let extension = match path_extension(exe_path) {
            Some(e) => e,
            None => String::new(),
        };
        let exe = match Executable::from_template(data, filename, name, extension) {
            Ok(e) => e,
            Err(e) => {
                return Err(e);
            },
        };
        let key = exe_type.to_owned();
        match self.template_index(exe_type) {
            Some(i) => {
                self.executables.set(i, (key, exe));
                assert(old(self).executables@[i as int].0@ == exe_type@);
                assert(has_template(old(self).executables@, exe_type@));
                assert(self.executables@[i as int].0@ == exe_type@);
                assert forall|a: int, b: int| 0 <= a < b < self.executables@.len() implies (
                #[trigger] self.executables@[a]).0@ != (#[trigger] self.executables@[b]).0@ by {
                    assert(old(self).executables@[a].0@ != old(self).executables@[b].0@);
                }
            },
            None => {
                self.executables.push((key, exe));
                let ghost n = old(self).executables@.len() as int;
                assert(self.executables@[n].0@ == exe_type@);
                assert forall|a: int, b: int| 0 <= a < b < self.executables@.len() implies (
                #[trigger] self.executables@[a]).0@ != (#[trigger] self.executables@[b]).0@ by {
                    if b == n {
                        assert(old(self).executables@[a].0@ != exe_type@);
                    } else {
                        assert(old(self).executables@[a].0@ != old(self).executables@[b].0@);
                    }
                }
            },
        }
        Ok(())
    }

    /// The catalog of templates on offer, in order.
    pub fn executable_json(&self) -> (r: Vec<ExecutableJson>)
        ensures
            is_catalog(r@, self.executables@),
    {
        let mut out: Vec<ExecutableJson> = Vec::new();
        let mut i: usize = 0;
        while i < self.executables.len()
            invariant
                i <= self.executables@.len(),
                out@.len() == i,
                forall|j: int| 0 <= j < i ==> is_entry_of(#[trigger] out@[j], self.executables@[j]),
            decreases self.executables@.len() - i,
        {
            let entry = &self.executables[i];
            out.push(
                ExecutableJson {
                    id: entry.0.clone(),
                    size: entry.1.data.len(),
                    filename: entry.1.filename.clone(),
                },
            );
            i += 1;
        }
        out
    }

    /// Records that the session was seen now, by the clock; a plain request
    /// (not a socket message) also counts as its last request.
    pub fn touch(&mut self, session_id: u32, via_socket: bool) -> (r: Result<(), AppError>)
        requires
            old(self).wf(),
        ensures
            final(self).wf(),
            final(self).order == old(self).order,
            final(self).executables == old(self).executables,
            final(self).next_channel == old(self).next_channel,
            r is Ok <==> old(self).sessions@.contains_key(session_id),
            r is Err ==> r == Err::<(), AppError>(AppError::SessionNotFound { id: session_id })
                && final(self).sessions == old(self).sessions,
            r is Ok ==> final(self).session_views() == old(self).session_views().insert(
                session_id,
                seen_view(
                    old(self).session_views()[session_id],
                    final(self).session_views()[session_id].last_seen,
                    via_socket,
                ),
            ),
    {
        let now = now_millis();
        self.touch_at(session_id, via_socket, now)
    }

    /// Records that the session was seen at `now`; a plain request (not a
    /// socket message) also counts as its last request.
    pub fn touch_at(&mut self, session_id: u32, via_socket: bool, now: i64) -> (r: Result<(), AppError>)
        requires
            old(self).wf(),
        ensures
            final(self).wf(),
            final(self).order == old(self).order,
            final(self).executables == old(self).executables,
            final(self).next_channel == old(self).next_channel,
            r is Ok <==> old(self).sessions@.contains_key(session_id),
            r is Err ==> r == Err::<(), AppError>(AppError::SessionNotFound { id: session_id })
                && final(self).sessions == old(self).sessions,
            r is Ok ==> final(self).session_views() == old(self).session_views().insert(
                session_id,
                seen_view(old(self).session_views()[session_id], now, via_socket),
            ),
    {
        if !self.sessions.contains_key(&session_id) {
            return Err(AppError::SessionNotFound { id: session_id });
        }
        let ghost before = *self;
        let mut session = match self.sessions.remove(&session_id) {
            Some(s) => s,
            None => {
                return Err(AppError::SessionNotFound { id: session_id });
            },
        };
        session.seen_at(now, via_socket);
        self.sessions.insert(session_id, session);
        proof {
            assert(self.sessions@ =~= before.sessions@.insert(session_id, self.sessions@[session_id]));
            State::lemma_replace_session(before, *self, session_id);
        }
        Ok(())
    }

    /// The session a request belongs to, as the clock reads now: the one its
    /// cookie names, seen again, or else a new one. Tells whether it is new.
    pub fn resolve_session(&mut self, cookie: Option<&str>) -> (r: (u32, bool))
        requires
            old(self).wf(),
        ensures
            final(self).wf(),
            final(self).executables == old(self).executables,
            final(self).next_channel == old(self).next_channel,
            ({
                let known = cookie_session(cookie) matches Some(id) && old(self).sessions@.contains_key(id);
                let now = final(self).session_views()[r.0].last_seen;
                &&& known ==> r == (cookie_session(cookie).unwrap(), false)
                    && final(self).session_views() == old(self).session_views().insert(
                    r.0,
                    seen_view(old(self).session_views()[r.0], now, false),
                )
                &&& !known ==> r.1 && final(self).session_views() == old(self).session_views().insert(
                    r.0,
                    fresh_session(r.0, now),
                )
            }),
    {
        let now = now_millis();
        self.resolve_session_at(cookie, now)
    }

    /// The session a request made at `now` belongs to: the one its cookie
    /// names, seen again, or else a new one. Tells whether the session is new.
    pub fn resolve_session_at(&mut self, cookie: Option<&str>, now: i64) -> (r: (u32, bool))
        requires
            old(self).wf(),
        ensures
            final(self).wf(),
            final(self).executables == old(self).executables,
            final(self).next_channel == old(self).next_channel,
            ({
                let known = cookie_session(cookie) matches Some(id) && old(self).sessions@.contains_key(id);
                &&& known ==> r == (cookie_session(cookie).unwrap(), false)
                    && final(self).session_views() == old(self).session_views().insert(
                    r.0,
                    seen_view(old(self).session_views()[r.0], now, false),
                )
                &&& !known ==> r.1 && final(self).session_views() == old(self).session_views().insert(
                    r.0,
                    fresh_session(r.0, now),
                )
            }),
    {
        let parsed = match cookie {
            Some(c) => parse_decimal(c.as_bytes()),
            None => None,
        };
        if let Some(id) = parsed {
            if self.sessions.contains_key(&id) {
                let _ = self.touch_at(id, false, now);
                return (id, false);
            }
        }
        let id = self.new_session_at(now);
        (id, true)
    }

    /// Issues a download of the template `artifact_id` to the session: a fresh
    /// token is appended to its downloads and stamped into a copy of the
    /// template as decimal text.
    pub fn issue_download(&mut self, session_id: u32, artifact_id: &str) -> (r: Result<IssuedDownload, AppError>)
        requires
            old(self).wf(),
        ensures
            final(self).wf(),
            final(self).order == old(self).order,
            final(self).executables == old(self).executables,
            final(self).next_channel == old(self).next_channel,
            !old(self).sessions@.contains_key(session_id) ==> r == Err::<IssuedDownload, AppError>(
                AppError::SessionNotFound { id: session_id },
            ),
            old(self).sessions@.contains_key(session_id) && !has_template(old(self).executables@, artifact_id@)
                ==> (r matches Err(AppError::ArtifactNotFound { artifact }) && artifact@ == artifact_id@),
            old(self).sessions@.contains_key(session_id) && has_template(old(self).executables@, artifact_id@)
                ==> r is Ok,
            r is Err ==> final(self).sessions == old(self).sessions,
            r matches Ok(issued) ==> {
                let s0 = old(self).session_views()[session_id];
                let s1 = with_download(s0, issued.download@);
                let token = issued.download.token;
                &&& final(self).session_views() == old(self).session_views().insert(session_id, s1)
                &&& issued.download.last_used == issued.download.download_time
                &&& forall|i: int|
                    0 <= i < old(self).executables@.len() && (#[trigger] old(self).executables@[i]).0@
                        == artifact_id@ ==> {
                        let e = old(self).executables@[i].1;
                        &&& issued.download@.filename == download_filename(e.name@, token, e.extension@)
                        &&& issued.data@ == stamp(
                            e.data@,
                            e.key_start as int,
                            e.key_end as int,
                            decimal_bytes(token as nat),
                        )
                    }
                &&& s0.tx is None ==> issued.update is None
                &&& s0.tx matches Some(c) ==> (issued.update matches Some(d) && d.channel == c
                    && is_state_of(d.message, s1))
            },
    {
        if !self.sessions.contains_key(&session_id) {
            return Err(AppError::SessionNotFound { id: session_id });
        }
        let idx = match self.template_index(artifact_id) {
            Some(i) => i,
            None => {
                return Err(AppError::ArtifactNotFound { artifact: artifact_id.to_owned() });
            },
        };
        let ghost before = *self;
        let mut session = match self.sessions.remove(&session_id) {
            Some(s) => s,
            None => {
                return Err(AppError::SessionNotFound { id: session_id });
            },
        };
        let download = session.add_download(&self.executables[idx].1);
        let text = decimal_text(download.token);
        proof {
            lemma_decimal_len(download.token);
        }
        let data = match self.executables[idx].1.with_key(text.as_slice()) {
            Ok(d) => d,
            Err(e) => {
                return Err(e);
            },
        };
        let update = match session.send_state() {
            Ok(d) => Some(d),
            Err(_) => None,
        };
        self.sessions.insert(session_id, session);
        proof {
            assert(self.sessions@ =~= before.sessions@.insert(session_id, self.sessions@[session_id]));
            State::lemma_replace_session(before, *self, session_id);
            assert forall|i: int|
                0 <= i < before.executables@.len() && (#[trigger] before.executables@[i]).0@
                    == artifact_id@ implies i == idx by {
                if i != idx {
                    if i < idx {
                        assert(before.executables@[i].0@ != before.executables@[idx as int].0@);
                    } else {
                        assert(before.executables@[idx as int].0@ != before.executables@[i].0@);
                    }
                }
            }
        }
        Ok(IssuedDownload { download, data, update })
    }

    /// Handles a message from the session's live connection. Deleting a
    /// download that the session holds pushes its new state to the connection.
    pub fn handle_incoming(&mut self, session_id: u32, message: IncomingMessage) -> (r: Result<Vec<Delivery>, AppError>)
        requires
            old(self).wf(),
        ensures
            final(self).wf(),
            final(self).order == old(self).order,
            final(self).executables == old(self).executables,
            final(self).next_channel == old(self).next_channel,
            !old(self).sessions@.contains_key(session_id) ==> r == Err::<Vec<Delivery>, AppError>(
                AppError::SessionNotFound { id: session_id },
            ) && final(self).sessions == old(self).sessions,
            old(self).sessions@.contains_key(session_id) ==> match message {
                IncomingMessage::DeleteDownloadToken { id: token } => {
                    let s0 = old(self).session_views()[session_id];
                    let s1 = without_token(s0, token);
                    let pushed = holds_token(s0.downloads, token) && s0.tx is Some;
                    &&& final(self).session_views() == old(self).session_views().insert(session_id, s1)
                    &&& r matches Ok(ds) && ds@.len() == (if pushed { 1int } else { 0int })
                    &&& pushed ==> (r matches Ok(ds) && ds@[0].channel == s0.tx.unwrap() && is_state_of(ds@[0].message, s1))
                },
            },
    {
        match message {
            IncomingMessage::DeleteDownloadToken { id: token } => {
                if !self.sessions.contains_key(&session_id) {
                    return Err(AppError::SessionNotFound { id: session_id });
                }
                let ghost before = *self;
                let mut session = match self.sessions.remove(&session_id) {
                    Some(s) => s,
                    None => {
                        return Err(AppError::SessionNotFound { id: session_id });
                    },
                };
                let mut out: Vec<Delivery> = Vec::new();
                if session.delete_download(token) {
                    match session.send_state() {
                        Ok(d) => out.push(d),
                        Err(_) => {},
                    }
                }
                self.sessions.insert(session_id, session);
                proof {
                    assert(self.sessions@ =~= before.sessions@.insert(session_id, self.sessions@[session_id]));
                    State::lemma_replace_session(before, *self, session_id);
                }
                Ok(out)
            },
        }
    }

    /// Attaches a new live connection to the session: it takes over the
    /// session's events and is sent the session's state, then the catalog.
    pub fn attach(&mut self, session_id: u32) -> (r: Result<(u64, Vec<Delivery>), AppError>)
        requires
            old(self).wf(),
        ensures
            final(self).wf(),
            final(self).order == old(self).order,
            final(self).executables == old(self).executables,
            !old(self).sessions@.contains_key(session_id) ==> r == Err::<(u64, Vec<Delivery>), AppError>(
                AppError::SessionNotFound { id: session_id },
            ),
            old(self).sessions@.contains_key(session_id) && old(self).next_channel == u64::MAX ==> r
                == Err::<(u64, Vec<Delivery>), AppError>(AppError::ChannelsExhausted),
            r is Err ==> final(self).sessions == old(self).sessions && final(self).next_channel == old(
                self,
            ).next_channel,
            old(self).sessions@.contains_key(session_id) && old(self).next_channel < u64::MAX ==> r is Ok,
            r matches Ok((channel, ds)) ==> {
                &&& channel == old(self).next_channel
                &&& final(self).next_channel == channel + 1
                &&& final(self).session_views() == attached(old(self).session_views(), session_id, channel)
                &&& ds@.len() == 2
                &&& ds@[0].channel == channel
                &&& is_state_of(ds@[0].message, final(self).session_views()[session_id])
                &&& ds@[1].channel == channel
                &&& is_catalog_message(ds@[1].message, old(self).executables@, old(self).build_logs is Some)
            },
    {
        if !self.sessions.contains_key(&session_id) {
            return Err(AppError::SessionNotFound { id: session_id });
        }
        if self.next_channel == u64::MAX {
            return Err(AppError::ChannelsExhausted);
        }
        let catalog = OutgoingMessage::Executables {
            build_log: if self.build_logs.is_some() {
                Some(BUILD_LOGS_PATH.to_owned())
            } else {
                None
            },
            executables: self.executable_json(),
        };
        let ghost before = *self;
        let mut session = match self.sessions.remove(&session_id) {
            Some(s) => s,
            None => {
                return Err(AppError::SessionNotFound { id: session_id });
            },
        };
        let channel = self.next_channel;
        self.next_channel = channel + 1;
        session.tx = Some(channel);
        let mut out: Vec<Delivery> = Vec::new();
        match session.send_state() {
            Ok(d) => out.push(d),
            Err(_) => {},
        }
        match session.send_message(catalog) {
            Ok(d) => out.push(d),
            Err(_) => {},
        }
        self.sessions.insert(session_id, session);
        proof {
            assert(self.sessions@ =~= before.sessions@.insert(session_id, self.sessions@[session_id]));
            State::lemma_replace_session(before, *self, session_id);
            assert(self.session_views() =~= attached(before.session_views(), session_id, channel));
        }
        Ok((channel, out))
    }

    /// Answers a phone-home report: finds the session that holds the token
    /// the key names and addresses an alert to its live connection.
    pub fn notify(&self, key: &str) -> (r: Result<Delivery, AppError>)
        requires
            self.wf(),
        ensures
            correlation_key(key.spec_bytes()) is None ==> r == Err::<Delivery, AppError>(
                AppError::MalformedCorrelationKey,
            ),
            correlation_key(key.spec_bytes()) matches Some(t) ==> {
                let holder = exists|id: u32| #[trigger]
                    self.sessions@.contains_key(id) && holds_token(self.session_views()[id].downloads, t);
                &&& !holder ==> r == Err::<Delivery, AppError>(AppError::TokenNotFound { token: t })
                &&& holder ==> (r is Ok || r matches Err(AppError::ChannelUnavailable { .. }))
                &&& holder ==> exists|id: u32| #[trigger] self.is_oldest_holder(id, t)
                &&& forall|id: u32| #[trigger]
                    self.is_oldest_holder(id, t) ==> match self.session_views()[id].tx {
                        Some(channel) => r == Ok::<Delivery, AppError>(
                            Delivery { channel, message: OutgoingMessage::TokenAlert { token: t } },
                        ),
                        None => r == Err::<Delivery, AppError>(
                            AppError::ChannelUnavailable { session: id },
                        ),
                    }
            },
    {
        let token = match parse_correlation_key(key) {
            Some(t) => t,
            None => {
                return Err(AppError::MalformedCorrelationKey);
            },
        };
        let id = match self.find_session_by_token(token) {
            Some(id) => id,
            None => {
                return Err(AppError::TokenNotFound { token });
            },
        };
        proof {
            assert forall|other: u32| #[trigger] self.is_oldest_holder(other, token) implies other
                == id by {
                self.lemma_oldest_holder_unique(other, id, token);
            }
        }
        match self.sessions.get(&id) {
            Some(session) => session.send_message(OutgoingMessage::TokenAlert { token }),
            None => Err(AppError::TokenNotFound { token }),
        }
    }
}

/// Attaching connection B to a session after connection A hands B its events:
/// the session then names B as its connection, and B is not A.
pub proof fn lemma_second_connection_takes_over(views: Map<u32, SessionView>, id: u32, a: u64)
    requires
        views.contains_key(id),
        a < u64::MAX,
    ensures
        ({
            let b = (a + 1) as u64;
            let after = attached(attached(views, id, a), id, b);
            &&& after[id].tx == Some(b)
            &&& b != a
            &&& after.dom() == views.dom()
        }),
{
    let b = (a + 1) as u64;
    assert(attached(attached(views, id, a), id, b).dom() =~= views.dom());
}

/// Deleting a token that a session does not hold leaves the session as it
/// was; deleting one it holds removes exactly the first record with it.
pub proof fn lemma_delete_effect(s: SessionView, token: u32)
    ensures
        !holds_token(s.downloads, token) ==> without_token(s, token) == s,
        holds_token(s.downloads, token) ==> exists|i: int|
            first_token_at(s.downloads, token, i) && #[trigger] without_token(s, token).downloads
                == s.downloads.remove(i),
        holds_token(s.downloads, token) ==> without_token(s, token).downloads.len() + 1
            == s.downloads.len(),
{
    if holds_token(s.downloads, token) {
        let ds = s.downloads;
        let k = choose|k: int| 0 <= k < ds.len() && #[trigger] ds[k].token == token;
        lemma_first_position_exists(ds, token, k);
        let f = choose|i: int| first_token_at(ds, token, i);
        assert(without_token(s, token).downloads == ds.remove(f));
    } else {
        assert(without_token(s, token) == s);
    }
}

proof fn lemma_first_position_exists(ds: Seq<DownloadView>, token: u32, k: int)
    requires
        0 <= k < ds.len(),
        ds[k].token == token,
    ensures
        exists|i: int| first_token_at(ds, token, i),
    decreases k,
{
    if forall|j: int| 0 <= j < k ==> #[trigger] ds[j].token != token {
        assert(first_token_at(ds, token, k));
    } else {
        let j = choose|j: int| 0 <= j < k && #[trigger] ds[j].token == token;
        lemma_first_position_exists(ds, token, j);
    }
}

/// How a phone-home report is answered: a malformed key is a bad request, an
/// unknown token is unauthorized, and a holder without a live connection is
/// not modified.
pub proof fn lemma_notify_statuses(token: u32, session: u32)
    ensures
        status_of(AppError::MalformedCorrelationKey) == 400,
        status_of(AppError::TokenNotFound { token }) == 401,
        status_of(AppError::ChannelUnavailable { session }) == 304,
{
}

} // verus!
