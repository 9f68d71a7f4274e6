//! The station frame engine: a single producer publishes prepared frames in
//! order, many listeners walk them, and a time-bounded listener table drives
//! garbage collection of frames that every live listener has passed.

use vstd::prelude::*;
use crate::context::Context;
use crate::strings::{str_eq, clone_string};
use crate::errors::StreamError;
use crate::frame::FrameWithMeta;

verus! {

/// Write-ahead bound in milliseconds: how much audio the engine keeps
/// published beyond what a listener has consumed.
pub const MAX_WRITE_AHEAD_DURATION: u64 = 60000;

/// How long an idle listener or session binding is kept, in milliseconds.
pub const LISTENER_ID_KEEP_ALIVE_DURATION: u64 = 300000;

/// One connected client: its unique attachment id and, when the client sent
/// one, the opaque session string used for reconnect affinity.
pub struct ListenerID {
    pub listener_id: u64,
    pub session_id: Option<String>,
}

/// One node of the station's frame list.
pub struct PreparedFrame {
    /// Strictly monotonic along the list; drawn from the process-wide counter.
    pub id: u64,
    pub frame_with_meta: FrameWithMeta,
}

/// What the station's mailbox handed over when the engine asked for the next
/// frame: a frame, a failure from the source tree, or the end of the source.
pub enum ChildEvent {
    Frame(FrameWithMeta),
    Failed(StreamError),
    Closed,
}

/// A session-to-listener binding with its idle timer.
pub struct SessionEntry {
    pub session_id: String,
    pub listener_id: u64,
    pub last_touch: u64,
}

/// A listener's last delivered frame, by index into the station's frame
/// list, with its idle timer.
pub struct ListenerEntry {
    pub listener_id: u64,
    pub frame_index: usize,
    pub last_touch: u64,
}

/// A live marker recorded when a frame is delivered to a listener; its
/// expiry is what advances the station's garbage-collection head.
pub struct LiveMarker {
    pub listener_id: u64,
    pub frame_index: usize,
    pub inserted_at: u64,
}

/// A session binding is live until it has sat idle for the keep-alive span.
pub open spec fn session_live(e: SessionEntry, now: u64) -> bool {
    now < e.last_touch + LISTENER_ID_KEEP_ALIVE_DURATION
}

/// A listener entry is live until it has sat idle for the keep-alive span.
pub open spec fn listener_live(e: ListenerEntry, now: u64) -> bool {
    now < e.last_touch + LISTENER_ID_KEEP_ALIVE_DURATION
}

/// A delivery marker is live for the write-ahead span after its insertion.
pub open spec fn marker_live(m: LiveMarker, now: u64) -> bool {
    now < m.inserted_at + MAX_WRITE_AHEAD_DURATION
}

/// The listener-tracking table of one station: which session maps to which
/// listener, where each listener last stood, the live delivery markers, and
/// the current head (the frame new listeners start from).
pub struct ListenerFrameData {
    pub sessions: Vec<SessionEntry>,
    pub listeners: Vec<ListenerEntry>,
    pub markers: Vec<LiveMarker>,
    pub current_frame: usize,
}

impl ListenerFrameData {
    /// Well-formed against a station with `frames_len` published frames:
    /// every recorded index points at a frame, and sessions and listeners
    /// are keyed uniquely.
    pub open spec fn wf(&self, frames_len: int) -> bool {
        &&& self.current_frame < frames_len
        &&& forall|i: int|
            0 <= i < self.listeners@.len() ==> (#[trigger] self.listeners@[i]).frame_index
                < frames_len
        &&& forall|i: int|
            0 <= i < self.markers@.len() ==> (#[trigger] self.markers@[i]).frame_index < frames_len
        &&& forall|i: int, j: int|
            0 <= i < j < self.sessions@.len() ==> self.sessions@[i].session_id@
                != self.sessions@[j].session_id@
        &&& forall|i: int, j: int|
            0 <= i < j < self.listeners@.len() ==> self.listeners@[i].listener_id
                != self.listeners@[j].listener_id
    }

    /// An empty table whose head is the station's sentinel frame.
    pub fn new() -> (r: ListenerFrameData)
        ensures
            r.sessions@.len() == 0,
            r.listeners@.len() == 0,
            r.markers@.len() == 0,
            r.current_frame == 0,
    {
        ListenerFrameData {
            sessions: Vec::new(),
            listeners: Vec::new(),
            markers: Vec::new(),
            current_frame: 0,
        }
    }

    /// The head frame index: where a listener without prior affinity starts.
    pub fn get_current_frame(&self) -> (r: usize)
        ensures
            r == self.current_frame,
    {
        self.current_frame
    }

    /// The index of the frame last delivered to `listener_id`, if that
    /// listener is still tracked.
    pub fn get_frame_with_id(&self, listener_id: u64) -> (r: Option<usize>)
        ensures
            match r {
                Some(fi) => exists|k: int|
                    0 <= k < self.listeners@.len() && (#[trigger] self.listeners@[k]).listener_id
                        == listener_id && self.listeners@[k].frame_index == fi,
                None => forall|k: int|
                    0 <= k < self.listeners@.len() ==> (#[trigger] self.listeners@[k]).listener_id
                        != listener_id,
            },
    {
        let mut i: usize = 0;
        while i < self.listeners.len()
            invariant
                i <= self.listeners@.len(),
                forall|k: int|
                    0 <= k < i ==> (#[trigger] self.listeners@[k]).listener_id != listener_id,
            decreases self.listeners@.len() - i,
        {
            if self.listeners[i].listener_id == listener_id {
                return Some(self.listeners[i].frame_index);
            }
            i = i + 1;
        }
        None
    }

    /// The listener bound to `session_id`, if the binding is still tracked;
    /// looking a session up refreshes its idle timer, as the time-bounded
    /// cache it models does.
    pub fn get_listener_id_from_session_id(&mut self, session_id: &str, now: u64) -> (r: Option<
        u64,
    >)
        ensures
            final(self).listeners@ == old(self).listeners@,
            final(self).markers@ == old(self).markers@,
            final(self).current_frame == old(self).current_frame,
            match r {
                Some(lid) => exists|k: int|
                    {
                        &&& 0 <= k < old(self).sessions@.len()
                        &&& (#[trigger] old(self).sessions@[k]).session_id@ == session_id@
                        &&& old(self).sessions@[k].listener_id == lid
                        &&& final(self).sessions@ == old(self).sessions@.update(
                            k,
                            SessionEntry {
                                session_id: old(self).sessions@[k].session_id,
                                listener_id: old(self).sessions@[k].listener_id,
                                last_touch: now,
                            },
                        )
                    },
                None => {
                    &&& final(self).sessions@ == old(self).sessions@
                    &&& forall|k: int|
                        0 <= k < old(self).sessions@.len() ==> (#[trigger] old(
                            self,
                        ).sessions@[k]).session_id@ != session_id@
                },
            },
    {
        let n = self.sessions.len();
        let mut i: usize = 0;
        while i < n
            invariant
                n == self.sessions@.len(),
                i <= n,
                self.sessions@ == old(self).sessions@,
                self.listeners@ == old(self).listeners@,
                self.markers@ == old(self).markers@,
                self.current_frame == old(self).current_frame,
                forall|k: int|
                    0 <= k < i ==> (#[trigger] self.sessions@[k]).session_id@ != session_id@,
            decreases n - i,
        {
            if str_eq(self.sessions[i].session_id.as_str(), session_id) {
                let entry = self.sessions.remove(i);
                let lid = entry.listener_id;
                let refreshed = SessionEntry {
                    session_id: entry.session_id,
                    listener_id: entry.listener_id,
                    last_touch: now,
                };
                self.sessions.insert(i, refreshed);
                proof {
                    assert(self.sessions@ =~= old(self).sessions@.update(
                        i as int,
                        SessionEntry {
                            session_id: old(self).sessions@[i as int].session_id,
                            listener_id: old(self).sessions@[i as int].listener_id,
                            last_touch: now,
                        },
                    ));
                }
                return Some(lid);
            }
            i = i + 1;
        }
        None
    }

    /// Binds (or rebinds) `session_id` to `listener_id` and refreshes the
    /// binding's idle timer.
    pub fn log_session_id(&mut self, session_id: String, listener_id: u64, now: u64)
        ensures
            final(self).listeners@ == old(self).listeners@,
            final(self).markers@ == old(self).markers@,
            final(self).current_frame == old(self).current_frame,
            ({
                ||| exists|k: int|
                    {
                        &&& 0 <= k < old(self).sessions@.len()
                        &&& (#[trigger] old(self).sessions@[k]).session_id@ == session_id@
                        &&& final(self).sessions@ == old(self).sessions@.update(
                            k,
                            SessionEntry { session_id, listener_id, last_touch: now },
                        )
                    }
                ||| {
                    &&& forall|k: int|
                        0 <= k < old(self).sessions@.len() ==> (#[trigger] old(
                            self,
                        ).sessions@[k]).session_id@ != session_id@
                    &&& final(self).sessions@ == old(self).sessions@.push(
                        SessionEntry { session_id, listener_id, last_touch: now },
                    )
                }
            }),
            exists|k: int|
                {
                    &&& 0 <= k < final(self).sessions@.len()
                    &&& (#[trigger] final(self).sessions@[k]).session_id@ == session_id@
                    &&& final(self).sessions@[k].listener_id == listener_id
                },
    {
        let n = self.sessions.len();
        let mut i: usize = 0;
        while i < n
            invariant
                n == self.sessions@.len(),
                i <= n,
                self.sessions@ == old(self).sessions@,
                self.listeners@ == old(self).listeners@,
                self.markers@ == old(self).markers@,
                self.current_frame == old(self).current_frame,
                forall|k: int|
                    0 <= k < i ==> (#[trigger] self.sessions@[k]).session_id@ != session_id@,
            decreases n - i,
        {
            if str_eq(self.sessions[i].session_id.as_str(), session_id.as_str()) {
                self.sessions.set(i, SessionEntry { session_id, listener_id, last_touch: now });
                assert(self.sessions@[i as int].listener_id == listener_id);
                return ;
            }
            i = i + 1;
        }
        self.sessions.push(SessionEntry { session_id, listener_id, last_touch: now });
        assert(self.sessions@[self.sessions@.len() - 1].listener_id == listener_id);
    }

    /// Records that `listener` was delivered the frame at `frame_index`:
    /// refreshes the session binding's idle timer, moves the listener's
    /// last-frame entry, and inserts a live delivery marker.
    pub fn log_current_frame(&mut self, listener: &ListenerID, frame_index: usize, now: u64)
        ensures
            final(self).current_frame == old(self).current_frame,
            final(self).markers@ == old(self).markers@.push(
                LiveMarker {
                    listener_id: listener.listener_id,
                    frame_index: frame_index,
                    inserted_at: now,
                },
            ),
            ({
                ||| exists|k: int|
                    {
                        &&& 0 <= k < old(self).listeners@.len()
                        &&& (#[trigger] old(self).listeners@[k]).listener_id
                            == listener.listener_id
                        &&& final(self).listeners@ == old(self).listeners@.update(
                            k,
                            ListenerEntry {
                                listener_id: listener.listener_id,
                                frame_index,
                                last_touch: now,
                            },
                        )
                    }
                ||| {
                    &&& forall|k: int|
                        0 <= k < old(self).listeners@.len() ==> (#[trigger] old(
                            self,
                        ).listeners@[k]).listener_id != listener.listener_id
                    &&& final(self).listeners@ == old(self).listeners@.push(
                        ListenerEntry {
                            listener_id: listener.listener_id,
                            frame_index,
                            last_touch: now,
                        },
                    )
                }
            }),
            ({
                ||| final(self).sessions@ == old(self).sessions@
                ||| exists|k: int|
                    {
                        &&& 0 <= k < old(self).sessions@.len()
                        &&& final(self).sessions@ == old(self).sessions@.update(
                            k,
                            SessionEntry {
                                session_id: old(self).sessions@[k].session_id,
                                listener_id: old(self).sessions@[k].listener_id,
                                last_touch: now,
                            },
                        )
                    }
            }),
            exists|k: int|
                {
                    &&& 0 <= k < final(self).listeners@.len()
                    &&& (#[trigger] final(self).listeners@[k]).listener_id == listener.listener_id
                    &&& final(self).listeners@[k].frame_index == frame_index
                },
    {
        if let Some(sid) = &listener.session_id {
            let _ = self.get_listener_id_from_session_id(sid.as_str(), now);
        }
        let entry = ListenerEntry { listener_id: listener.listener_id, frame_index, last_touch: now };
        match self.find_listener_index(listener.listener_id) {
            Some(i) => {
                self.listeners.set(i, entry);
                assert(self.listeners@[i as int].frame_index == frame_index);
            },
            None => {
                self.listeners.push(entry);
                assert(self.listeners@[self.listeners@.len() - 1].frame_index == frame_index);
            },
        }
        self.markers.push(
            LiveMarker { listener_id: listener.listener_id, frame_index, inserted_at: now },
        );
    }

    /// Where `listener_id` sits in the listener table, if anywhere.
    fn find_listener_index(&self, listener_id: u64) -> (r: Option<usize>)
        ensures
            match r {
                Some(i) => 0 <= i < self.listeners@.len() && self.listeners@[i as int].listener_id
                    == listener_id,
                None => forall|k: int|
                    0 <= k < self.listeners@.len() ==> (#[trigger] self.listeners@[k]).listener_id
                        != listener_id,
            },
    {
        let mut i: usize = 0;
        while i < self.listeners.len()
            invariant
                i <= self.listeners@.len(),
                forall|k: int|
                    0 <= k < i ==> (#[trigger] self.listeners@[k]).listener_id != listener_id,
            decreases self.listeners@.len() - i,
        {
            if self.listeners[i].listener_id == listener_id {
                return Some(i);
            }
            i = i + 1;
        }
        None
    }
}

impl ListenerFrameData {
    /// Drops every binding and marker whose time ran out, and advances the
    /// head past the frames of the expired delivery markers: this is the
    /// garbage-collection hook that releases aged frames.
    pub fn expire(&mut self, now: u64)
        ensures
            final(self).sessions@ == old(self).sessions@.filter(
                |e: SessionEntry| session_live(e, now),
            ),
            final(self).listeners@ == old(self).listeners@.filter(
                |e: ListenerEntry| listener_live(e, now),
            ),
            final(self).markers@ == old(self).markers@.filter(|m: LiveMarker| marker_live(m, now)),
            final(self).current_frame >= old(self).current_frame,
            forall|i: int|
                0 <= i < old(self).markers@.len() && !marker_live(#[trigger] old(self).markers@[i], now)
                    ==> final(self).current_frame >= old(self).markers@[i].frame_index,
            final(self).current_frame == old(self).current_frame || exists|i: int|
                0 <= i < old(self).markers@.len() && !marker_live(
                    #[trigger] old(self).markers@[i],
                    now,
                ) && final(self).current_frame == old(self).markers@[i].frame_index,
    {
        let mut sessions: Vec<SessionEntry> = Vec::new();
        core::mem::swap(&mut sessions, &mut self.sessions);
        self.sessions = retain_live_sessions(sessions, now);
        let mut listeners: Vec<ListenerEntry> = Vec::new();
        core::mem::swap(&mut listeners, &mut self.listeners);
        self.listeners = retain_live_listeners(listeners, now);

        let mut rest: Vec<LiveMarker> = Vec::new();
        core::mem::swap(&mut rest, &mut self.markers);
        let ghost orig = rest@;
        let ghost pred = |m: LiveMarker| marker_live(m, now);
        let total: usize = rest.len();
        let mut kept: Vec<LiveMarker> = Vec::new();
        let mut processed: usize = 0;
        while rest.len() > 0
            invariant
                orig.len() == total,
                processed + rest@.len() == orig.len(),
                rest@ =~= orig.skip(processed as int),
                kept@ == orig.take(processed as int).filter(pred),
                pred == (|m: LiveMarker| marker_live(m, now)),
                self.sessions@ == old(self).sessions@.filter(
                    |e: SessionEntry| session_live(e, now),
                ),
                self.listeners@ == old(self).listeners@.filter(
                    |e: ListenerEntry| listener_live(e, now),
                ),
                self.current_frame >= old(self).current_frame,
                forall|i: int|
                    0 <= i < processed && !marker_live(#[trigger] orig[i], now)
                        ==> self.current_frame >= orig[i].frame_index,
                self.current_frame == old(self).current_frame || exists|i: int|
                    0 <= i < processed && !marker_live(#[trigger] orig[i], now)
                        && self.current_frame == orig[i].frame_index,
            decreases rest@.len(),
        {
            let m = rest.remove(0);
            proof {
                assert(m == orig[processed as int]);
                assert(rest@ =~= orig.skip(processed as int + 1));
                lemma_filter_take_step(orig, pred, processed as int);
            }
            let live = if now < m.inserted_at {
                true
            } else {
                now - m.inserted_at < MAX_WRITE_AHEAD_DURATION
            };
            if live {
                kept.push(m);
            } else {
                if m.frame_index > self.current_frame {
                    self.current_frame = m.frame_index;
                }
            }
            processed = processed + 1;
        }
        proof {
            assert(orig.take(processed as int) =~= orig);
        }
        self.markers = kept;
    }
}

/// Keeps, in order, exactly the session bindings that are still live at `now`.
fn retain_live_sessions(v: Vec<SessionEntry>, now: u64) -> (r: Vec<SessionEntry>)
    ensures
        r@ == v@.filter(|e: SessionEntry| session_live(e, now)),
{
    let ghost orig = v@;
    let ghost pred = |e: SessionEntry| session_live(e, now);
    let mut rest = v;
    let total: usize = rest.len();
    let mut kept: Vec<SessionEntry> = Vec::new();
    let mut processed: usize = 0;
    while rest.len() > 0
        invariant
            orig.len() == total,
            processed + rest@.len() == orig.len(),
            rest@ =~= orig.skip(processed as int),
            kept@ == orig.take(processed as int).filter(pred),
            pred == (|e: SessionEntry| session_live(e, now)),
        decreases rest@.len(),
    {
        let e = rest.remove(0);
        proof {
            assert(e == orig[processed as int]);
            assert(rest@ =~= orig.skip(processed as int + 1));
            lemma_filter_take_step(orig, pred, processed as int);
        }
        let live = if now < e.last_touch {
            true
        } else {
            now - e.last_touch < LISTENER_ID_KEEP_ALIVE_DURATION
        };
        if live {
            kept.push(e);
        }
        processed = processed + 1;
    }
    proof {
        assert(orig.take(processed as int) =~= orig);
    }
    kept
}

/// Keeps, in order, exactly the listener entries that are still live at `now`.
fn retain_live_listeners(v: Vec<ListenerEntry>, now: u64) -> (r: Vec<ListenerEntry>)
    ensures
        r@ == v@.filter(|e: ListenerEntry| listener_live(e, now)),
{
    let ghost orig = v@;
    let ghost pred = |e: ListenerEntry| listener_live(e, now);
    let mut rest = v;
    let total: usize = rest.len();
    let mut kept: Vec<ListenerEntry> = Vec::new();
    let mut processed: usize = 0;
    while rest.len() > 0
        invariant
            orig.len() == total,
            processed + rest@.len() == orig.len(),
            rest@ =~= orig.skip(processed as int),
            kept@ == orig.take(processed as int).filter(pred),
            pred == (|e: ListenerEntry| listener_live(e, now)),
        decreases rest@.len(),
    {
        let e = rest.remove(0);
        proof {
            assert(e == orig[processed as int]);
            assert(rest@ =~= orig.skip(processed as int + 1));
            lemma_filter_take_step(orig, pred, processed as int);
        }
        let live = if now < e.last_touch {
            true
        } else {
            now - e.last_touch < LISTENER_ID_KEEP_ALIVE_DURATION
        };
        if live {
            kept.push(e);
        }
        processed = processed + 1;
    }
    proof {
        assert(orig.take(processed as int) =~= orig);
    }
    kept
}

/// One station: its name, the list of published frames (index order is
/// publication order), the cursor marking the most recently published frame,
/// the latched finished flag, the current content type, and the listener
/// table.
pub struct Playlist {
    pub name: String,
    pub finished: bool,
    pub frames: Vec<PreparedFrame>,
    pub newest: usize,
    pub content_type: String,
    pub listener_data: ListenerFrameData,
}

impl Playlist {
    /// Well-formed: at least the sentinel frame exists, the newest cursor
    /// points at a frame, ids grow strictly along the list, and the listener
    /// table only refers to published frames.
    pub open spec fn wf(&self) -> bool {
        &&& self.frames@.len() >= 1
        &&& self.newest < self.frames@.len()
        &&& forall|i: int, j: int|
            0 <= i < j < self.frames@.len() ==> self.frames@[i].id < self.frames@[j].id
        &&& self.listener_data.wf(self.frames@.len() as int)
    }

    /// Whether the frame under the newest cursor already has a successor.
    pub open spec fn spec_tail_has_next(&self) -> bool {
        self.newest + 1 < self.frames@.len()
    }

    /// Whether a call to `prepare_frame` would consume a mailbox event.
    pub open spec fn spec_needs_frame(&self) -> bool {
        !self.finished && !self.spec_tail_has_next()
    }

    /// The id of the last published frame.
    pub open spec fn spec_last_id(&self) -> u64 {
        self.frames@.last().id
    }

    /// A fresh station: unfinished, holding only the empty sentinel frame,
    /// which is also the head that new listeners start from.
    pub fn new(name: String, ctx: &mut Context) -> (r: Playlist)
        requires
            old(ctx).id < u64::MAX,
        ensures
            r.wf(),
            r.name@ == name@,
            !r.finished,
            r.frames@.len() == 1,
            r.newest == 0,
            r.frames@[0].id == old(ctx).id,
            r.frames@[0].frame_with_meta.frame@.len() == 0,
            r.frames@[0].frame_with_meta.duration == 0,
            r.frames@[0].frame_with_meta.title@.len() == 0,
            r.frames@[0].frame_with_meta.artist@.len() == 0,
            r.frames@[0].frame_with_meta.content_type@.len() == 0,
            r.content_type@.len() == 0,
            r.listener_data.sessions@.len() == 0,
            r.listener_data.listeners@.len() == 0,
            r.listener_data.markers@.len() == 0,
            r.listener_data.current_frame == 0,
            final(ctx).id == old(ctx).id + 1,
    {
        let id = ctx.get_id();
        let sentinel = PreparedFrame {
            id,
            frame_with_meta: FrameWithMeta {
                frame: Vec::new(),
                title: String::new(),
                artist: String::new(),
                content_type: String::new(),
                duration: 0,
            },
        };
        let mut frames: Vec<PreparedFrame> = Vec::new();
        frames.push(sentinel);
        Playlist {
            name,
            finished: false,
            frames,
            newest: 0,
            content_type: String::new(),
            listener_data: ListenerFrameData::new(),
        }
    }

    /// Publishes at most one frame. A no-op when the station is finished,
    /// and — idempotence — a no-op whenever the frame under the newest
    /// cursor already has a successor, however many times it is called in
    /// that state: no new frame is produced and no event is consumed.
    /// Otherwise it consumes the mailbox event: a closed mailbox latches
    /// `finished`; a source failure is propagated unchanged; a frame is
    /// published at the tail under a fresh id and becomes the new newest
    /// frame, and the station's content type follows it.
    pub fn prepare_frame(&mut self, ctx: &mut Context, event: Option<ChildEvent>) -> (r: Result<
        (),
        StreamError,
    >)
        requires
            old(self).wf(),
            event is Some <==> old(self).spec_needs_frame(),
            old(ctx).id < u64::MAX,
            old(ctx).id > old(self).spec_last_id(),
        ensures
            final(self).wf(),
            final(self).name@ == old(self).name@,
            final(self).listener_data == old(self).listener_data,
            old(self).finished ==> *final(self) == *old(self) && r is Ok && *final(ctx) == *old(
                ctx,
            ),
            !old(self).finished && old(self).spec_tail_has_next() ==> *final(self) == *old(self)
                && r is Ok && *final(ctx) == *old(ctx),
            event matches Some(ChildEvent::Closed) ==> {
                &&& final(self).finished
                &&& final(self).frames@ == old(self).frames@
                &&& final(self).newest == old(self).newest
                &&& final(self).content_type@ == old(self).content_type@
                &&& r is Ok
                &&& *final(ctx) == *old(ctx)
            },
            event matches Some(ChildEvent::Failed(e)) ==> {
                &&& *final(self) == *old(self)
                &&& r matches Err(e2) && e2 == e
                &&& *final(ctx) == *old(ctx)
            },
            event matches Some(ChildEvent::Frame(f)) ==> {
                &&& final(self).frames@ == old(self).frames@.push(
                    PreparedFrame { id: old(ctx).id, frame_with_meta: f },
                )
                &&& final(self).newest == old(self).frames@.len()
                &&& final(self).content_type@ == f.content_type@
                &&& !final(self).finished
                &&& r is Ok
                &&& final(ctx).id == old(ctx).id + 1
            },
    {
        if self.finished {
            return Ok(());
        }
        let n = self.frames.len();
        if self.newest < n - 1 {
            return Ok(());
        }
        match event {
            None => {
                proof {
                    assert(false);
                }
                Ok(())
            },
            Some(ChildEvent::Closed) => {
                self.finished = true;
                Ok(())
            },
            Some(ChildEvent::Failed(e)) => Err(e),
            Some(ChildEvent::Frame(f)) => {
                let id = ctx.get_id();
                self.content_type = clone_string(&f.content_type);
                self.frames.push(PreparedFrame { id, frame_with_meta: f });
                self.newest = self.frames.len() - 1;
                Ok(())
            },
        }
    }

    /// Whether the frame at `i` has a successor in the list.
    pub fn has_next(&self, i: usize) -> (r: bool)
        requires
            i < self.frames@.len(),
        ensures
            r <==> i + 1 < self.frames@.len(),
    {
        let n = self.frames.len();
        i < n - 1
    }

    /// The successor of the frame at `i`, if one has been published.
    pub fn get_next(&self, i: usize) -> (r: Option<usize>)
        requires
            i < self.frames@.len(),
        ensures
            match r {
                Some(j) => j == i + 1 && j < self.frames@.len(),
                None => i + 1 == self.frames@.len(),
            },
    {
        let n = self.frames.len();
        if i < n - 1 {
            Some(i + 1)
        } else {
            None
        }
    }

    /// The frame at index `i`.
    pub fn frame_at(&self, i: usize) -> (r: &PreparedFrame)
        requires
            i < self.frames@.len(),
        ensures
            *r == self.frames@[i as int],
    {
        &self.frames[i]
    }

    /// The head frame index: where a listener without prior affinity starts.
    pub fn get_oldest_prepared_frames(&self) -> (r: usize)
        ensures
            r == self.listener_data.current_frame,
    {
        self.listener_data.get_current_frame()
    }

    /// Whether the station's source has been exhausted.
    pub fn is_finished(&self) -> (r: bool)
        ensures
            r == self.finished,
    {
        self.finished
    }

    /// The content type captured from the most recently published frame.
    pub fn get_content_type(&self) -> (r: &String)
        ensures
            r@ == self.content_type@,
    {
        &self.content_type
    }

    /// Records a delivery: see `ListenerFrameData::log_current_frame`.
    pub fn log_current_frame(&mut self, listener: &ListenerID, frame_index: usize, now: u64)
        requires
            old(self).wf(),
            frame_index < old(self).frames@.len(),
        ensures
            final(self).wf(),
            final(self).frames@ == old(self).frames@,
            final(self).newest == old(self).newest,
            final(self).finished == old(self).finished,
            final(self).name@ == old(self).name@,
            final(self).content_type@ == old(self).content_type@,
            final(self).listener_data.current_frame == old(self).listener_data.current_frame,
            final(self).listener_data.markers@ == old(self).listener_data.markers@.push(
                LiveMarker { listener_id: listener.listener_id, frame_index, inserted_at: now },
            ),
            exists|k: int|
                {
                    &&& 0 <= k < final(self).listener_data.listeners@.len()
                    &&& (#[trigger] final(self).listener_data.listeners@[k]).listener_id
                        == listener.listener_id
                    &&& final(self).listener_data.listeners@[k].frame_index == frame_index
                },
    {
        self.listener_data.log_current_frame(listener, frame_index, now);
    }

    /// Binds a session string to a listener id for reconnect affinity.
    pub fn log_session_id(&mut self, session_id: String, listener_id: u64, now: u64)
        requires
            old(self).wf(),
        ensures
            final(self).wf(),
            final(self).frames@ == old(self).frames@,
            final(self).newest == old(self).newest,
            final(self).finished == old(self).finished,
            final(self).name@ == old(self).name@,
            final(self).content_type@ == old(self).content_type@,
            final(self).listener_data.listeners@ == old(self).listener_data.listeners@,
            final(self).listener_data.markers@ == old(self).listener_data.markers@,
            final(self).listener_data.current_frame == old(self).listener_data.current_frame,
            exists|k: int|
                {
                    &&& 0 <= k < final(self).listener_data.sessions@.len()
                    &&& (#[trigger] final(self).listener_data.sessions@[k]).session_id@
                        == session_id@
                    &&& final(self).listener_data.sessions@[k].listener_id == listener_id
                },
    {
        self.listener_data.log_session_id(session_id, listener_id, now);
    }

    /// The frame index last delivered to this listener, if it is tracked.
    pub fn get_frame_with_id(&self, id: &ListenerID) -> (r: Option<usize>)
        requires
            self.wf(),
        ensures
            match r {
                Some(fi) => fi < self.frames@.len() && exists|k: int|
                    0 <= k < self.listener_data.listeners@.len() && (
                    #[trigger] self.listener_data.listeners@[k]).listener_id == id.listener_id
                        && self.listener_data.listeners@[k].frame_index == fi,
                None => forall|k: int|
                    0 <= k < self.listener_data.listeners@.len() ==> (
                    #[trigger] self.listener_data.listeners@[k]).listener_id != id.listener_id,
            },
    {
        self.listener_data.get_frame_with_id(id.listener_id)
    }

    /// The listener bound to `session_id`, if the binding is still tracked.
    pub fn get_listener_id_from_session_id(&mut self, session_id: &str, now: u64) -> (r: Option<
        u64,
    >)
        requires
            old(self).wf(),
        ensures
            final(self).wf(),
            final(self).frames@ == old(self).frames@,
            final(self).newest == old(self).newest,
            final(self).finished == old(self).finished,
            final(self).name@ == old(self).name@,
            final(self).content_type@ == old(self).content_type@,
            final(self).listener_data.listeners@ == old(self).listener_data.listeners@,
            final(self).listener_data.markers@ == old(self).listener_data.markers@,
            final(self).listener_data.current_frame == old(self).listener_data.current_frame,
            match r {
                Some(lid) => exists|k: int|
                    0 <= k < old(self).listener_data.sessions@.len() && (#[trigger] old(
                        self,
                    ).listener_data.sessions@[k]).session_id@ == session_id@ && old(
                        self,
                    ).listener_data.sessions@[k].listener_id == lid,
                None => forall|k: int|
                    0 <= k < old(self).listener_data.sessions@.len() ==> (#[trigger] old(
                        self,
                    ).listener_data.sessions@[k]).session_id@ != session_id@,
            },
    {
        self.listener_data.get_listener_id_from_session_id(session_id, now)
    }


    /// Releases the payload bytes of every frame before the head — frames
    /// every new listener already starts after — keeping their ids and
    /// metadata, so one station holds payload bytes only for the window
    /// between the head and the tail.
    pub fn release_passed_frames(&mut self)
        requires
            old(self).wf(),
        ensures
            final(self).wf(),
            final(self).name@ == old(self).name@,
            final(self).finished == old(self).finished,
            final(self).newest == old(self).newest,
            final(self).content_type@ == old(self).content_type@,
            final(self).listener_data == old(self).listener_data,
            final(self).frames@.len() == old(self).frames@.len(),
            forall|i: int|
                #![trigger final(self).frames@[i]]
                0 <= i < old(self).frames@.len() ==> final(self).frames@[i].id
                    == old(self).frames@[i].id,
            forall|i: int|
                #![trigger final(self).frames@[i]]
                old(self).listener_data.current_frame <= i < old(self).frames@.len()
                    ==> final(self).frames@[i] == old(self).frames@[i],
            forall|i: int|
                #![trigger final(self).frames@[i]]
                0 <= i < old(self).listener_data.current_frame
                    ==> final(self).frames@[i].frame_with_meta.frame@.len() == 0,
    {
        let head = self.listener_data.get_current_frame();
        let mut i: usize = 0;
        while i < head
            invariant
                head == old(self).listener_data.current_frame,
                head < old(self).frames@.len(),
                i <= head,
                self.name@ == old(self).name@,
                self.finished == old(self).finished,
                self.newest == old(self).newest,
                self.content_type@ == old(self).content_type@,
                self.listener_data == old(self).listener_data,
                self.frames@.len() == old(self).frames@.len(),
                forall|k: int|
                    0 <= k < old(self).frames@.len() ==> (#[trigger] self.frames@[k]).id == old(
                        self,
                    ).frames@[k].id,
                forall|k: int|
                    i <= k < old(self).frames@.len() ==> (#[trigger] self.frames@[k]) == old(
                        self,
                    ).frames@[k],
                forall|k: int|
                    0 <= k < i ==> (#[trigger] self.frames@[k]).frame_with_meta.frame@.len() == 0,
            decreases head - i,
        {
            let ghost pre_frames = self.frames@;
            let node = self.frames.remove(i);
            let released = PreparedFrame {
                id: node.id,
                frame_with_meta: FrameWithMeta {
                    frame: Vec::new(),
                    title: node.frame_with_meta.title,
                    artist: node.frame_with_meta.artist,
                    content_type: node.frame_with_meta.content_type,
                    duration: node.frame_with_meta.duration,
                },
            };
            self.frames.insert(i, released);
            proof {
                assert forall|k: int|
                    0 <= k < self.frames@.len() && k != i implies (#[trigger] self.frames@[k])
                        == pre_frames[k] by {
                    if k < i {
                        assert(self.frames@[k] == pre_frames.remove(i as int)[k]);
                    } else {
                        assert(self.frames@[k] == pre_frames.remove(i as int)[k - 1]);
                    }
                }
            }
            i = i + 1;
        }
    }

    /// Expires idle bindings and aged delivery markers, advancing the head
    /// past the frames of the expired markers.
    pub fn expire(&mut self, now: u64)
        requires
            old(self).wf(),
        ensures
            final(self).wf(),
            final(self).frames@ == old(self).frames@,
            final(self).newest == old(self).newest,
            final(self).finished == old(self).finished,
            final(self).name@ == old(self).name@,
            final(self).content_type@ == old(self).content_type@,
            final(self).listener_data.sessions@ == old(self).listener_data.sessions@.filter(
                |e: SessionEntry| session_live(e, now),
            ),
            final(self).listener_data.listeners@ == old(self).listener_data.listeners@.filter(
                |e: ListenerEntry| listener_live(e, now),
            ),
            final(self).listener_data.markers@ == old(self).listener_data.markers@.filter(
                |m: LiveMarker| marker_live(m, now),
            ),
            final(self).listener_data.current_frame >= old(self).listener_data.current_frame,
            forall|i: int|
                0 <= i < old(self).listener_data.markers@.len() && !marker_live(
                    #[trigger] old(self).listener_data.markers@[i],
                    now,
                ) ==> final(self).listener_data.current_frame >= old(
                    self,
                ).listener_data.markers@[i].frame_index,
            final(self).listener_data.current_frame == old(self).listener_data.current_frame
                || exists|i: int|
                0 <= i < old(self).listener_data.markers@.len() && !marker_live(
                    #[trigger] old(self).listener_data.markers@[i],
                    now,
                ) && final(self).listener_data.current_frame == old(
                    self,
                ).listener_data.markers@[i].frame_index,
    {
        let ghost pre = self.listener_data;
        self.listener_data.expire(now);
        proof {
            lemma_filter_unique(
                pre.sessions@,
                |e: SessionEntry| session_live(e, now),
                |e: SessionEntry| e.session_id@,
            );
            lemma_filter_unique(
                pre.listeners@,
                |e: ListenerEntry| listener_live(e, now),
                |e: ListenerEntry| e.listener_id,
            );
            lemma_filter_elem_in(pre.listeners@, |e: ListenerEntry| listener_live(e, now));
            lemma_filter_elem_in(pre.markers@, |m: LiveMarker| marker_live(m, now));
        }
    }
}

/// Frames later in a station's list carry strictly greater ids. A listener
/// walks the list forward, so of any two frames it is delivered, the earlier
/// one has the smaller id, and conversely.
pub proof fn lemma_frame_ids_increase(p: &Playlist, i: int, j: int)
    requires
        p.wf(),
        0 <= i < p.frames@.len(),
        0 <= j < p.frames@.len(),
    ensures
        i < j <==> p.frames@[i].id < p.frames@[j].id,
{
}

/// Garbage collection never outruns a listener, within the write-ahead
/// window: if the head stood at or before every tracked listener's last
/// delivered frame, and every delivery marker that expired points at a frame
/// no later than the last delivered frame of any listener that survives the
/// expiry, then after the expiry the head still stands at or before every
/// surviving listener's last delivered frame.
pub proof fn lemma_head_behind_listeners(pre: ListenerFrameData, post: ListenerFrameData, now: u64)
    requires
        forall|i: int|
            0 <= i < pre.listeners@.len() ==> pre.current_frame <= (
            #[trigger] pre.listeners@[i]).frame_index,
        forall|i: int, j: int|
            0 <= i < pre.markers@.len() && !marker_live(#[trigger] pre.markers@[i], now) && 0 <= j
                < pre.listeners@.len() && listener_live(#[trigger] pre.listeners@[j], now)
                ==> pre.markers@[i].frame_index <= pre.listeners@[j].frame_index,
        post.listeners@ == pre.listeners@.filter(|e: ListenerEntry| listener_live(e, now)),
        post.current_frame >= pre.current_frame,
        post.current_frame == pre.current_frame || exists|i: int|
            0 <= i < pre.markers@.len() && !marker_live(#[trigger] pre.markers@[i], now)
                && post.current_frame == pre.markers@[i].frame_index,
    ensures
        forall|i: int|
            0 <= i < post.listeners@.len() ==> post.current_frame <= (
            #[trigger] post.listeners@[i]).frame_index,
{
    let pred = |e: ListenerEntry| listener_live(e, now);
    lemma_filter_elem_in(pre.listeners@, pred);
    broadcast use vstd::seq_lib::group_filter_ensures;
    assert forall|i: int|
        0 <= i < post.listeners@.len() implies post.current_frame <= (
    #[trigger] post.listeners@[i]).frame_index by {
        let e = post.listeners@[i];
        assert(pre.listeners@.contains(e));
        let k = choose|k: int| 0 <= k < pre.listeners@.len() && pre.listeners@[k] == e;
        assert(pred(e));
        if post.current_frame == pre.current_frame {
        } else {
            let m = choose|m: int|
                0 <= m < pre.markers@.len() && !marker_live(#[trigger] pre.markers@[m], now)
                    && post.current_frame == pre.markers@[m].frame_index;
            assert(pre.markers@[m].frame_index <= pre.listeners@[k].frame_index);
        }
    }
}

/// Filtering a sequence one element further keeps the old result and appends
/// the new element exactly when the predicate accepts it.
proof fn lemma_filter_take_step<A>(s: Seq<A>, pred: spec_fn(A) -> bool, i: int)
    requires
        0 <= i < s.len(),
    ensures
        s.take(i + 1).filter(pred) == if pred(s[i]) {
            s.take(i).filter(pred).push(s[i])
        } else {
            s.take(i).filter(pred)
        },
{
    reveal(Seq::filter);
    assert(s.take(i + 1).drop_last() =~= s.take(i));
    assert(s.take(i + 1).last() == s[i]);
    if pred(s[i]) {
        assert(s.take(i + 1).filter(pred) =~= s.take(i).filter(pred).push(s[i]));
    }
}

/// Every element of a filtered sequence occurs in the original.
proof fn lemma_filter_elem_in<A>(s: Seq<A>, pred: spec_fn(A) -> bool)
    ensures
        forall|i: int| 0 <= i < s.filter(pred).len() ==> s.contains(#[trigger] s.filter(pred)[i]),
    decreases s.len(),
{
    reveal(Seq::filter);
    if s.len() > 0 {
        let d = s.drop_last();
        lemma_filter_elem_in(d, pred);
        assert forall|i: int| 0 <= i < s.filter(pred).len() implies s.contains(
            #[trigger] s.filter(pred)[i],
        ) by {
            if i < d.filter(pred).len() {
                let x = d.filter(pred)[i];
                let k = choose|k: int| 0 <= k < d.len() && d[k] == x;
                assert(s[k] == x);
            } else {
                assert(s.filter(pred)[i] == s.last());
                assert(s[s.len() - 1] == s.last());
            }
        }
    }
}

/// Filtering keeps entries distinct under any key that was distinct before.
proof fn lemma_filter_unique<A, K>(s: Seq<A>, pred: spec_fn(A) -> bool, key: spec_fn(A) -> K)
    requires
        forall|i: int, j: int| 0 <= i < j < s.len() ==> key(s[i]) != key(s[j]),
    ensures
        forall|i: int, j: int|
            0 <= i < j < s.filter(pred).len() ==> key(s.filter(pred)[i]) != key(s.filter(pred)[j]),
    decreases s.len(),
{
    reveal(Seq::filter);
    if s.len() > 0 {
        let d = s.drop_last();
        lemma_filter_unique(d, pred, key);
        lemma_filter_elem_in(d, pred);
        assert forall|i: int, j: int|
            0 <= i < j < s.filter(pred).len() implies key(s.filter(pred)[i]) != key(
            s.filter(pred)[j],
        ) by {
            if j < d.filter(pred).len() {
            } else if pred(s.last()) && j == d.filter(pred).len() {
                let x = d.filter(pred)[i];
                let k = choose|k: int| 0 <= k < d.len() && d[k] == x;
                assert(key(s[k]) != key(s[s.len() - 1]));
                assert(s.filter(pred)[j] == s.last());
            }
        }
    }
}

} // verus!
