//! The playlist source tree: the local-file track leaf, the silent leaf,
//! and the composite list that plays many children through the shuffle
//! adapter, skipping children that fail.

use vstd::prelude::*;
use crate::errors::StreamError;
use crate::frame::{chunk_track_bytes, chunk_duration, spec_chunk_at, spec_chunk_count, spec_chunk_duration, ByteRate, FrameWithMeta};
use crate::shuffle::{DrainStep, InfiniteShuffleStream};
use crate::strings::clone_string;
use crate::track::{get_content_type_from_path, split_basename, spec_basename, spec_content_type_from_path, spec_split_basename, find_after_last};

verus! {

/// What probing a track's audio reports: the tagged title and artist, when
/// the tags hold them, and the playback duration in milliseconds.
pub struct TrackProbe {
    pub title: Option<String>,
    pub artist: Option<String>,
    pub duration: Option<u64>,
}

/// The title a track ends up with: the tagged one, or the piece of the
/// extension-stripped file name before the first separator.
pub open spec fn spec_track_title(path: Seq<char>, probe_title: Option<Seq<char>>) -> Seq<char> {
    match probe_title {
        Some(t) => t,
        None => spec_split_basename(spec_basename(path)).0,
    }
}

/// The artist a track ends up with: the tagged one, everything after the
/// first separator of the extension-stripped file name, or the fallback.
pub open spec fn spec_track_artist(path: Seq<char>, probe_artist: Option<Seq<char>>) -> Seq<char> {
    match probe_artist {
        Some(a) => a,
        None => match spec_split_basename(spec_basename(path)).1 {
            Some(a) => a,
            None => "Unknown Artist"@,
        },
    }
}

/// A single local audio file played as a track: its resolved metadata and
/// its byte rate, from which each chunk's playback time follows.
pub struct LocalFileTrack {
    pub path: String,
    pub title: String,
    pub artist: String,
    pub content_type: String,
    /// The byte rate as the exact fraction `(size + 1)` bytes over the
    /// track's duration in milliseconds.
    pub byte_per_millisecond: ByteRate,
    pub repeat: bool,
    pub played: bool,
}

impl LocalFileTrack {
    /// Builds the track from its path, the probe's findings, and the file
    /// size. A path whose extension is not recognized is rejected; so is a
    /// probe without a duration; a missing title or artist is derived from
    /// the file name, falling back to the fixed artist name, and a file
    /// without a usable name is rejected when that derivation is needed.
    pub fn new(path: String, probe: TrackProbe, size: u64, repeat: bool) -> (r: Result<
        LocalFileTrack,
        StreamError,
    >)
        requires
            size < u64::MAX,
            probe.duration matches Some(d) ==> d > 0,
        ensures
            spec_content_type_from_path(path@) is None ==> (r matches Err(e) && e is
                UnsupportedFormat),
            spec_content_type_from_path(path@) is Some && probe.duration is None ==> (r matches Err(
                e,
            ) && e is ProbeFailure),
            spec_content_type_from_path(path@) is Some && probe.duration is Some && (probe.title is
                None || probe.artist is None) && spec_basename(path@).len() == 0 ==> (r matches Err(
                e,
            ) && e is ResourceNotFound),
            spec_content_type_from_path(path@) is Some && probe.duration is Some && ((probe.title is
                Some && probe.artist is Some) || spec_basename(path@).len() > 0) ==> (r matches Ok(
                t,
            ) && {
                &&& t.path@ == path@
                &&& Some(t.content_type@) == spec_content_type_from_path(path@)
                &&& (match probe.duration {
                    Some(d) => t.byte_per_millisecond == (ByteRate {
                        bytes: (size + 1) as u64,
                        millis: d,
                    }) && t.byte_per_millisecond.wf(),
                    None => false,
                })
                &&& t.repeat == repeat
                &&& !t.played
                &&& t.title@ == spec_track_title(path@, match probe.title {
                    Some(ref x) => Some(x@),
                    None => None,
                })
                &&& t.artist@ == spec_track_artist(path@, match probe.artist {
                    Some(ref x) => Some(x@),
                    None => None,
                })
            }),
    {
        let content_type = match get_content_type_from_path(path.as_str()) {
            Some(ct) => ct,
            None => {
                return Err(StreamError::UnsupportedFormat(path));
            },
        };
        let duration = match probe.duration {
            Some(d) => d,
            None => {
                return Err(StreamError::ProbeFailure(path));
            },
        };
        let need_split = match (&probe.title, &probe.artist) {
            (Some(_), Some(_)) => false,
            _ => true,
        };
        let mut split_title: Option<String> = None;
        let mut split_artist: Option<String> = None;
        if need_split {
            let base_start = find_after_last(path.as_str(), '/');
            let n = path.as_str().unicode_len();
            if base_start == n {
                return Err(StreamError::ResourceNotFound(path));
            }
            let base = path.as_str().substring_char(base_start, n);
            proof {
                assert(base@ =~= spec_basename(path@));
            }
            let (t, a) = split_basename(base);
            split_title = Some(t);
            split_artist = a;
        }
        let title = match probe.title {
            Some(t) => t,
            None => match split_title {
                Some(t) => t,
                None => {
                    proof {
                        assert(false);
                    }
                    String::new()
                },
            },
        };
        let artist = match probe.artist {
            Some(a) => a,
            None => match split_artist {
                Some(a) => a,
                None => "Unknown Artist".to_owned(),
            },
        };
        Ok(
            LocalFileTrack {
                path,
                title,
                artist,
                content_type,
                byte_per_millisecond: ByteRate { bytes: size + 1, millis: duration },
                repeat,
                played: false,
            },
        )
    }

    /// The title of the currently playing track.
    pub fn current_title(&self) -> (r: &String)
        ensures
            r@ == self.title@,
    {
        &self.title
    }

    /// The artist of the currently playing track.
    pub fn current_artist(&self) -> (r: &String)
        ensures
            r@ == self.artist@,
    {
        &self.artist
    }

    /// The content type of the track.
    pub fn content_type(&self) -> (r: &String)
        ensures
            r@ == self.content_type@,
    {
        &self.content_type
    }

    /// A track is finished when it has been played once and does not repeat.
    pub fn is_finished(&self) -> (r: bool)
        ensures
            r == (self.played && !self.repeat),
    {
        self.played && !self.repeat
    }

    /// One pass over the track's bytes: the bytes are cut into chunks, each
    /// wrapped as a frame carrying this track's metadata and the chunk's
    /// playback time; an empty file is a failure. Without repeat, the pass
    /// marks the track played.
    pub fn stream_frames_from_bytes(&mut self, content: &Vec<u8>) -> (r: Result<
        Vec<FrameWithMeta>,
        StreamError,
    >)
        requires
            old(self).byte_per_millisecond.wf(),
        ensures
            final(self).path@ == old(self).path@,
            final(self).title@ == old(self).title@,
            final(self).artist@ == old(self).artist@,
            final(self).content_type@ == old(self).content_type@,
            final(self).byte_per_millisecond == old(self).byte_per_millisecond,
            final(self).repeat == old(self).repeat,
            content@.len() == 0 <==> r is Err,
            r matches Err(e) ==> ({
                &&& e is IoError
                &&& e.spec_detail() == "file is empty"@
                &&& final(self).played == old(self).played
            }),
            r matches Ok(frames) ==> {
                &&& final(self).played == (old(self).played || !old(self).repeat)
                &&& frames@.len() == spec_chunk_count(content@.len())
                &&& forall|i: int|
                    0 <= i < frames@.len() ==> (#[trigger] frames@[i]).frame@ == spec_chunk_at(
                        content@,
                        i,
                    )
                &&& forall|i: int|
                    0 <= i < frames@.len() ==> (#[trigger] frames@[i]).title@ == old(self).title@
                        && frames@[i].artist@ == old(self).artist@ && frames@[i].content_type@
                        == old(self).content_type@
                &&& forall|i: int|
                    0 <= i < frames@.len() ==> (#[trigger] frames@[i]).duration
                        == spec_chunk_duration(
                        spec_chunk_at(content@, i).len(),
                        old(self).byte_per_millisecond,
                    )
            },
    {
        let mut chunks = match chunk_track_bytes(content) {
            Ok(c) => c,
            Err(_) => {
                return Err(StreamError::IoError("file is empty".to_owned()));
            },
        };
        let ghost chunk_views = chunks@;
        let mut frames: Vec<FrameWithMeta> = Vec::new();
        let mut i: usize = 0;
        let total = chunks.len();
        while chunks.len() > 0
            invariant
                i + chunks@.len() == total,
                total == chunk_views.len(),
                chunks@ =~= chunk_views.skip(i as int),
                self.path@ == old(self).path@,
                self.title@ == old(self).title@,
                self.artist@ == old(self).artist@,
                self.content_type@ == old(self).content_type@,
                self.byte_per_millisecond == old(self).byte_per_millisecond,
                self.repeat == old(self).repeat,
                self.played == old(self).played,
                self.byte_per_millisecond.wf(),
                frames@.len() == i,
                forall|k: int|
                    0 <= k < i ==> (#[trigger] frames@[k]).frame@ == chunk_views[k]@,
                forall|k: int|
                    0 <= k < i ==> (#[trigger] frames@[k]).title@ == old(self).title@
                        && frames@[k].artist@ == old(self).artist@ && frames@[k].content_type@
                        == old(self).content_type@,
                forall|k: int|
                    0 <= k < i ==> (#[trigger] frames@[k]).duration == spec_chunk_duration(
                        chunk_views[k]@.len(),
                        old(self).byte_per_millisecond,
                    ),
                forall|k: int|
                    0 <= k < chunk_views.len() ==> (#[trigger] chunk_views[k])@.len()
                        <= crate::frame::DEFAULT_FRAME_SIZE,
            decreases chunks@.len(),
        {
            let chunk = chunks.remove(0);
            proof {
                assert(chunk == chunk_views[i as int]);
                assert(chunks@ =~= chunk_views.skip(i as int + 1));
            }
            let duration = chunk_duration(chunk.len(), &self.byte_per_millisecond);
            let frame = FrameWithMeta {
                frame: chunk,
                title: clone_string(&self.title),
                artist: clone_string(&self.artist),
                content_type: clone_string(&self.content_type),
                duration,
            };
            frames.push(frame);
            i = i + 1;
        }
        if !self.repeat {
            self.played = true;
        }
        Ok(frames)
    }
}

/// Bytes per MPEG frame of the silent clip: a four-byte header and an
/// empty 128 kb/s, 44.1 kHz Layer III frame body.
pub const SILENT_FRAME_LEN: usize = 417;

/// MPEG frames in the silent clip: about one second at 26 ms per frame.
pub const SILENT_FRAME_COUNT: usize = 38;

/// One second of silence as MPEG audio: each frame is the four header
/// bytes of an MPEG-1 Layer III frame (sync, 128 kb/s, 44.1 kHz, joint
/// stereo) followed by an all-zero frame body, which decodes as silence.
pub open spec fn spec_silent_clip() -> Seq<u8> {
    Seq::new(
        (SILENT_FRAME_COUNT * SILENT_FRAME_LEN) as nat,
        |i: int|
            if i % (SILENT_FRAME_LEN as int) == 0 {
                255u8
            } else if i % (SILENT_FRAME_LEN as int) == 1 {
                251u8
            } else if i % (SILENT_FRAME_LEN as int) == 2 {
                144u8
            } else if i % (SILENT_FRAME_LEN as int) == 3 {
                100u8
            } else {
                0u8
            },
    )
}

/// The degenerate child that plays a fixed one-second silent clip forever.
pub struct Silent {}

impl Silent {
    /// The silent child needs nothing to construct.
    pub fn new() -> (r: Result<Silent, StreamError>)
        ensures
            r is Ok,
    {
        Ok(Silent {})
    }

    /// The silent child never finishes.
    pub fn is_finished(&self) -> (r: bool)
        ensures
            !r,
    {
        false
    }

    /// The silent clip's bytes, exactly as `spec_silent_clip` lays them out.
    pub fn clip(&self) -> (r: Vec<u8>)
        ensures
            r@ == spec_silent_clip(),
    {
        let mut out: Vec<u8> = Vec::new();
        let mut f: usize = 0;
        while f < SILENT_FRAME_COUNT
            invariant
                f <= SILENT_FRAME_COUNT,
                out@.len() == f * SILENT_FRAME_LEN,
                forall|k: int| 0 <= k < out@.len() ==> out@[k] == spec_silent_clip()[k],
            decreases SILENT_FRAME_COUNT - f,
        {
            let mut j: usize = 0;
            while j < SILENT_FRAME_LEN
                invariant
                    f < SILENT_FRAME_COUNT,
                    j <= SILENT_FRAME_LEN,
                    out@.len() == f * SILENT_FRAME_LEN + j,
                    forall|k: int| 0 <= k < out@.len() ==> out@[k] == spec_silent_clip()[k],
                decreases SILENT_FRAME_LEN - j,
            {
                let b: u8 = if j == 0 {
                    255
                } else if j == 1 {
                    251
                } else if j == 2 {
                    144
                } else if j == 3 {
                    100
                } else {
                    0
                };
                let ghost k = out@.len() as int;
                out.push(b);
                proof {
                    vstd::arithmetic::div_mod::lemma_fundamental_div_mod_converse(
                        k,
                        SILENT_FRAME_LEN as int,
                        f as int,
                        j as int,
                    );
                    assert(k % (SILENT_FRAME_LEN as int) == j);
                    assert(k < (SILENT_FRAME_COUNT * SILENT_FRAME_LEN)) by (nonlinear_arith)
                        requires
                            k == f * SILENT_FRAME_LEN + j,
                            f < SILENT_FRAME_COUNT,
                            j < SILENT_FRAME_LEN,
                    ;
                    assert(out@[k] == spec_silent_clip()[k]);
                }
                j = j + 1;
            }
            f = f + 1;
        }
        proof {
            assert(out@ =~= spec_silent_clip());
        }
        out
    }

    /// The next frame: always the silent clip, one second of `audio/mpeg`,
    /// titled `Silent` by `Silent`.
    pub fn frame_with_meta(&self) -> (r: FrameWithMeta)
        ensures
            r.frame@ == spec_silent_clip(),
            r.title@ == "Silent"@,
            r.artist@ == "Silent"@,
            r.content_type@ == "audio/mpeg"@,
            r.duration == 1000,
    {
        FrameWithMeta {
            frame: self.clip(),
            title: "Silent".to_owned(),
            artist: "Silent".to_owned(),
            content_type: "audio/mpeg".to_owned(),
            duration: 1000,
        }
    }
}

/// The composite child: plays many children, one after another, in the
/// order the shuffle adapter emits them (children are carried by their
/// position in the configured list).
pub struct PlaylistChildList {
    pub tracks: InfiniteShuffleStream,
    pub played: bool,
}

impl PlaylistChildList {
    /// Well-formed when its shuffle adapter is.
    pub open spec fn wf(&self) -> bool {
        self.tracks.wf()
    }

    /// A fresh composite over the given repeat and shuffle policy.
    pub fn new(repeat: bool, shuffle: bool) -> (r: PlaylistChildList)
        ensures
            r.wf(),
            r.tracks.repeat == repeat,
            r.tracks.shuffle == shuffle,
            r.tracks.stored@.len() == 0,
            !r.played,
    {
        PlaylistChildList { tracks: InfiniteShuffleStream::new(repeat, shuffle), played: false }
    }

    /// Finished exactly when the shuffle adapter has signalled exhaustion
    /// without repeat.
    pub fn is_finished(&self) -> (r: bool)
        ensures
            r == self.played,
    {
        self.played
    }

    /// The next configured child (by position) arrives from the source:
    /// handed to the shuffle adapter, which emits this or an earlier parked
    /// child, or parks it for later.
    pub fn next_child(&mut self, child: u64) -> (emitted: Option<u64>)
        requires
            old(self).wf(),
        ensures
            final(self).wf(),
            final(self).played == old(self).played,
            final(self).tracks.repeat == old(self).tracks.repeat,
            final(self).tracks.shuffle == old(self).tracks.shuffle,
            !old(self).tracks.shuffle ==> emitted == Some(child) && final(self).tracks.stored@
                == old(self).tracks.stored@,
            match emitted {
                Some(x) => final(self).tracks.stored@.to_multiset().insert(x) == old(
                    self,
                ).tracks.stored@.to_multiset().insert(child),
                None => final(self).tracks.stored@.to_multiset() == old(
                    self,
                ).tracks.stored@.to_multiset().insert(child),
            },
    {
        self.tracks.next_item(child)
    }

    /// A child failed to start or probe: the failure is surfaced inline and
    /// the composite goes on with the next child — one broken track never
    /// finishes the station.
    pub fn on_child_error(&mut self, error: StreamError) -> (r: StreamError)
        ensures
            r == error,
            *final(self) == *old(self),
    {
        error
    }

    /// The configured list ran out: with repeat the list starts over; else
    /// the parked children are drained and, when none is left, the
    /// composite latches finished.
    pub fn on_source_exhausted(&mut self) -> (r: DrainStep)
        requires
            old(self).wf(),
        ensures
            final(self).wf(),
            final(self).tracks.repeat == old(self).tracks.repeat,
            final(self).tracks.shuffle == old(self).tracks.shuffle,
            old(self).tracks.repeat ==> (r is Restart) && final(self).played == old(self).played,
            !old(self).tracks.repeat && old(self).tracks.stored@.len() == 0 ==> (r is Finished)
                && final(self).played,
            !old(self).tracks.repeat && old(self).tracks.stored@.len() > 0 ==> (r is Drained)
                && final(self).played == old(self).played,
            match r {
                DrainStep::Drained(x) => final(self).tracks.stored@.to_multiset().insert(x) == old(
                    self,
                ).tracks.stored@.to_multiset(),
                _ => final(self).tracks.stored@ == old(self).tracks.stored@,
            },
    {
        let step = self.tracks.exhausted_step();
        match &step {
            DrainStep::Finished => {
                self.played = true;
            },
            _ => {},
        }
        step
    }
}

} // verus!
