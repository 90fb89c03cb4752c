use vstd::prelude::*;

use crate::ambient::now_millis;
use crate::error::AppError;
use crate::executable::Executable;
use crate::messages::{Delivery, OutgoingMessage};
use crate::text::{append_hex, hex_fixed};

verus! {

/// One issued download: the token burned into the copy and when it was issued.
#[derive(Debug)]
pub struct SessionDownload {
    pub token: u32,
    pub filename: String,
    /// Milliseconds since the Unix epoch.
    pub last_used: i64,
    /// Milliseconds since the Unix epoch.
    pub download_time: i64,
}

pub struct DownloadView {
    pub token: u32,
    pub filename: Seq<char>,
    pub last_used: i64,
    pub download_time: i64,
}

impl View for SessionDownload {
    type V = DownloadView;

    open spec fn view(&self) -> DownloadView {
        DownloadView {
            token: self.token,
            filename: self.filename@,
            last_used: self.last_used,
            download_time: self.download_time,
        }
    }
}

impl SessionDownload {
    /// An independent copy of this record.
    pub fn snapshot(&self) -> (r: SessionDownload)
        ensures
            r@ == self@,
    {
        SessionDownload {
            token: self.token,
            filename: self.filename.clone(),
            last_used: self.last_used,
            download_time: self.download_time,
        }
    }
}

/// Per-client state: identity, timestamps, the downloads issued in order, and
/// the live connection that receives its events, if any.
#[derive(Debug)]
pub struct Session {
    pub id: u32,
    pub downloads: Vec<SessionDownload>,
    /// Milliseconds since the Unix epoch.
    pub first_seen: i64,
    /// The last request or socket message from or to this session.
    pub last_seen: i64,
    /// The last plain request made with this session.
    pub last_request: i64,
    /// The number of the connection that receives this session's events.
    pub tx: Option<u64>,
}

pub struct SessionView {
    pub id: u32,
    pub downloads: Seq<DownloadView>,
    pub first_seen: i64,
    pub last_seen: i64,
    pub last_request: i64,
    pub tx: Option<u64>,
}

impl View for Session {
    type V = SessionView;

    open spec fn view(&self) -> SessionView {
        SessionView {
            id: self.id,
            downloads: self.downloads@.map_values(|d: SessionDownload| d@),
            first_seen: self.first_seen,
            last_seen: self.last_seen,
            last_request: self.last_request,
            tx: self.tx,
        }
    }
}

/// Some download in `ds` carries `token`.
pub open spec fn holds_token(ds: Seq<DownloadView>, token: u32) -> bool {
    exists|i: int| 0 <= i < ds.len() && #[trigger] ds[i].token == token
}

/// `i` is the first position in `ds` whose download carries `token`.
pub open spec fn first_token_at(ds: Seq<DownloadView>, token: u32, i: int) -> bool {
    &&& 0 <= i < ds.len()
    &&& ds[i].token == token
    &&& forall|j: int| 0 <= j < i ==> #[trigger] ds[j].token != token
}

/// `ds` without the first download that carries `token`, if there is one.
pub open spec fn remove_token(ds: Seq<DownloadView>, token: u32) -> Seq<DownloadView> {
    if holds_token(ds, token) {
        ds.remove(choose|i: int| first_token_at(ds, token, i))
    } else {
        ds
    }
}

/// The file name a download of a template is offered under:
/// `{name}-{token as eight hex digits}` and `.{extension}` when there is one.
pub open spec fn download_filename(name: Seq<char>, token: u32, extension: Seq<char>) -> Seq<char> {
    name + seq!['-'] + hex_fixed(token as nat, 8) + if extension.len() > 0 {
        seq!['.'] + extension
    } else {
        Seq::<char>::empty()
    }
}

/// `s` seen at `now`; a plain request (not a socket message) is also its last request.
pub open spec fn seen_view(s: SessionView, now: i64, socket: bool) -> SessionView {
    SessionView {
        last_seen: now,
        last_request: if socket {
            s.last_request
        } else {
            now
        },
        ..s
    }
}

/// The session a fresh id starts with: no downloads, no connection.
pub open spec fn fresh_session(id: u32, now: i64) -> SessionView {
    SessionView {
        id,
        downloads: Seq::empty(),
        first_seen: now,
        last_seen: now,
        last_request: now,
        tx: None,
    }
}

proof fn lemma_first_token_unique(ds: Seq<DownloadView>, token: u32, i: int, j: int)
    requires
        first_token_at(ds, token, i),
        first_token_at(ds, token, j),
    ensures
        i == j,
{
    if i < j {
        assert(ds[i].token != token);
    } else if j < i {
        assert(ds[j].token != token);
    }
}

fn build_filename(exe: &Executable, token: u32) -> (r: String)
    ensures
        r@ == download_filename(exe.name@, token, exe.extension@),
{
    let mut f = exe.name.clone();
    proof {
        reveal_strlit("-");
    }
    f.append("-");
    append_hex(&mut f, token, 8);
    if !exe.extension.as_str().is_empty() {
        proof {
            reveal_strlit(".");
        }
        f.append(".");
        f.append(exe.extension.as_str());
    }
    assert(f@ =~= download_filename(exe.name@, token, exe.extension@));
    f
}

impl Session {
    /// A session with no downloads and no connection, first seen at `now`.
    pub fn new(id: u32, now: i64) -> (r: Session)
        ensures
            r@ == fresh_session(id, now),
    {
        let r = Session {
            id,
            downloads: Vec::new(),
            first_seen: now,
            last_seen: now,
            last_request: now,
            tx: None,
        };
        assert(r@.downloads =~= Seq::<DownloadView>::empty());
        r
    }

    /// Records that the session was seen at `now`; a plain request (not a
    /// socket message) also counts as its last request.
    pub fn seen_at(&mut self, now: i64, socket: bool)
        ensures
            final(self)@ == seen_view(old(self)@, now, socket),
    {
        self.last_seen = now;
        if !socket {
            self.last_request = now;
        }
    }

    /// Records that the session was seen now, by the clock.
    pub fn seen(&mut self, socket: bool)
        ensures
            final(self)@ == seen_view(old(self)@, final(self).last_seen, socket),
    {
        let now = now_millis();
        self.seen_at(now, socket);
    }

    /// Whether some download of this session carries `token`.
    pub fn holds(&self, token: u32) -> (r: bool)
        ensures
            r == holds_token(self@.downloads, token),
    {
        let mut i: usize = 0;
        while i < self.downloads.len()
            invariant
                i <= self.downloads@.len(),
                forall|j: int| 0 <= j < i ==> #[trigger] self.downloads@[j].token != token,
            decreases self.downloads@.len() - i,
        {
            if self.downloads[i].token == token {
                assert(self@.downloads[i as int].token == token);
                return true;
            }
            i += 1;
        }
        assert forall|j: int| 0 <= j < self@.downloads.len() implies #[trigger] self@.downloads[j].token
            != token by {
            assert(self.downloads@[j].token != token);
        }
        false
    }

    /// Issues a download of `exe` with a fresh random token, appended after
    /// the downloads already issued; returns a copy of the new record.
    pub fn add_download(&mut self, exe: &Executable) -> (r: SessionDownload)
        ensures
            final(self)@ == (SessionView {
                downloads: old(self)@.downloads.push(r@),
                ..old(self)@
            }),
            r@.filename == download_filename(exe.name@, r.token, exe.extension@),
            r.last_used == r.download_time,
    {
        let token: u32 = rand::random();
        let now = now_millis();
        let download = SessionDownload {
            token,
            filename: build_filename(exe, token),
            last_used: now,
            download_time: now,
        };
        let copy = download.snapshot();
        self.downloads.push(download);
        assert(self@.downloads =~= old(self)@.downloads.push(copy@));
        copy
    }

    /// Removes the first download that carries `token`; tells whether there was one.
    pub fn delete_download(&mut self, token: u32) -> (r: bool)
        ensures
            r == holds_token(old(self)@.downloads, token),
            final(self)@ == (SessionView {
                downloads: remove_token(old(self)@.downloads, token),
                ..old(self)@
            }),
    {
        let mut i: usize = 0;
        while i < self.downloads.len()
            invariant
                i <= self.downloads@.len(),
                *self == *old(self),
                forall|j: int| 0 <= j < i ==> #[trigger] self.downloads@[j].token != token,
            decreases self.downloads@.len() - i,
        {
            if self.downloads[i].token == token {
                let ghost ds = old(self)@.downloads;
                proof {
                    assert(ds[i as int].token == token);
                    assert forall|j: int| 0 <= j < i implies #[trigger] ds[j].token != token by {
                        assert(self.downloads@[j].token != token);
                    }
                    assert(first_token_at(ds, token, i as int));
                    let k = choose|k: int| first_token_at(ds, token, k);
                    lemma_first_token_unique(ds, token, i as int, k);
                }
                self.downloads.remove(i);
                assert(self@.downloads =~= ds.remove(i as int));
                return true;
            }
            i += 1;
        }
        assert forall|j: int| 0 <= j < old(self)@.downloads.len() implies #[trigger] old(
            self,
        )@.downloads[j].token != token by {
            assert(self.downloads@[j].token != token);
        }
        false
    }

    /// An independent copy of this session.
    pub fn snapshot(&self) -> (r: Session)
        ensures
            r@ == self@,
    {
        let mut downloads: Vec<SessionDownload> = Vec::new();
        let mut i: usize = 0;
        while i < self.downloads.len()
            invariant
                i <= self.downloads@.len(),
                downloads@.len() == i,
                forall|j: int| 0 <= j < i ==> #[trigger] downloads@[j]@ == self.downloads@[j]@,
            decreases self.downloads@.len() - i,
        {
            downloads.push(self.downloads[i].snapshot());
            i += 1;
        }
        let r = Session {
            id: self.id,
            downloads,
            first_seen: self.first_seen,
            last_seen: self.last_seen,
            last_request: self.last_request,
            tx: self.tx,
        };
        assert(r@.downloads =~= self@.downloads);
        r
    }

    /// Addresses `message` to the session's live connection.
    pub fn send_message(&self, message: OutgoingMessage) -> (r: Result<Delivery, AppError>)
        ensures
            match self.tx {
                Some(channel) => r == Ok::<Delivery, AppError>(Delivery { channel, message }),
                None => r == Err::<Delivery, AppError>(AppError::ChannelUnavailable { session: self.id }),
            },
    {
        match self.tx {
            Some(channel) => Ok(Delivery { channel, message }),
            None => Err(AppError::ChannelUnavailable { session: self.id }),
        }
    }

    /// Addresses a snapshot of the session's current state to its live connection.
    pub fn send_state(&self) -> (r: Result<Delivery, AppError>)
        ensures
            match self.tx {
                Some(channel) => r matches Ok(d) && d.channel == channel && is_state_of(d.message, self@),
                None => r == Err::<Delivery, AppError>(AppError::ChannelUnavailable { session: self.id }),
            },
    {
        let message = OutgoingMessage::State { session: self.snapshot() };
        self.send_message(message)
    }
}

/// `m` carries the state `s` of a session.
pub open spec fn is_state_of(m: OutgoingMessage, s: SessionView) -> bool {
    m matches OutgoingMessage::State { session } && session@ == s
}

} // verus!
