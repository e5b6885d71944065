//! The media relay's bookkeeping: which publishers each room has and which of
//! their tracks (video, audio) are live, plus the checks on its requests.

use vstd::prelude::*;
use crate::api::{
    error, fails_with, internal, text_outcome, ApiError, BAD_REQUEST, INTERNAL_SERVER_ERROR,
};
use crate::text::{
    chars_of, concat_chars, copy_range, is_ascii_digit, same_text, string_from_chars, trim, trim_str,
};

verus! {

/// The kind of a media track.
pub enum TrackKind {
    Video,
    Audio,
}

/// One publisher of a room and its live tracks.
pub struct PublisherSlot<T> {
    pub room: String,
    pub peer_id: String,
    pub video: Option<T>,
    pub audio: Option<T>,
}

/// A publisher as seen in the registry: room, peer, video track, audio track.
pub type SlotView<T> = (Seq<char>, Seq<char>, Option<T>, Option<T>);

/// The publishers of every room, each `(room, peer)` at most once, in the
/// order they first published.
pub struct RoomRegistry<T> {
    slots: Vec<PublisherSlot<T>>,
}

/// A publisher as listed in a room's status.
pub struct PublisherStatus {
    pub peer_id: String,
    pub has_video: bool,
    pub has_audio: bool,
}

/// The status of a room: its publishers and which tracks each has live.
pub struct RoomStatus {
    pub room: String,
    pub publishers: Vec<PublisherStatus>,
}

/// The index of the publisher `peer` of `room` in `v`, if any.
pub open spec fn find_slot<T>(v: Seq<SlotView<T>>, room: Seq<char>, peer: Seq<char>) -> Option<int>
    decreases v.len(),
{
    if v.len() == 0 {
        None
    } else if v.last().0 == room && v.last().1 == peer {
        Some(v.len() - 1)
    } else {
        find_slot(v.drop_last(), room, peer)
    }
}

/// No `(room, peer)` occurs twice.
pub open spec fn keys_unique<T>(v: Seq<SlotView<T>>) -> bool {
    forall|i: int, j: int|
        0 <= i < v.len() && 0 <= j < v.len() && i != j ==> !(v[i].0 == v[j].0 && v[i].1 == v[j].1)
}

/// `v` with the publisher `peer` of `room` present, added without tracks
/// where it was missing.
pub open spec fn with_publisher<T>(v: Seq<SlotView<T>>, room: Seq<char>, peer: Seq<char>) -> Seq<
    SlotView<T>,
> {
    if find_slot(v, room, peer) is Some {
        v
    } else {
        v.push((room, peer, None, None))
    }
}

/// `s` with its track of kind `kind` set to `t`.
pub open spec fn with_track<T>(s: SlotView<T>, kind: TrackKind, t: Option<T>) -> SlotView<T> {
    match kind {
        TrackKind::Video => (s.0, s.1, t, s.3),
        TrackKind::Audio => (s.0, s.1, s.2, t),
    }
}

/// The publishers of `room` in `v`, in order: peer id, has video, has audio.
pub open spec fn room_publishers<T>(v: Seq<SlotView<T>>, room: Seq<char>) -> Seq<
    (Seq<char>, bool, bool),
>
    decreases v.len(),
{
    if v.len() == 0 {
        Seq::empty()
    } else if v.last().0 == room {
        room_publishers(v.drop_last(), room).push((v.last().1, v.last().2 is Some, v.last().3 is Some))
    } else {
        room_publishers(v.drop_last(), room)
    }
}

pub proof fn lemma_find_slot<T>(v: Seq<SlotView<T>>, room: Seq<char>, peer: Seq<char>)
    ensures
        match find_slot(v, room, peer) {
            Some(i) => 0 <= i < v.len() && v[i].0 == room && v[i].1 == peer,
            None => forall|i: int| 0 <= i < v.len() ==> !(#[trigger] v[i].0 == room && v[i].1 == peer),
        },
    decreases v.len(),
{
    if v.len() > 0 {
        lemma_find_slot(v.drop_last(), room, peer);
        if !(v.last().0 == room && v.last().1 == peer) {
            if find_slot(v.drop_last(), room, peer) is None {
                assert forall|i: int| 0 <= i < v.len() implies !(#[trigger] v[i].0 == room && v[i].1
                    == peer) by {
                    if i < v.len() - 1 {
                        assert(v.drop_last()[i] == v[i]);
                    }
                }
            }
        }
    }
}

pub proof fn lemma_find_unique<T>(v: Seq<SlotView<T>>, room: Seq<char>, peer: Seq<char>, k: int)
    requires
        keys_unique(v),
        0 <= k < v.len(),
        v[k].0 == room,
        v[k].1 == peer,
    ensures
        find_slot(v, room, peer) == Some(k),
{
    lemma_find_slot(v, room, peer);
}

impl<T> View for RoomRegistry<T> {
    type V = Seq<SlotView<T>>;

    closed spec fn view(&self) -> Seq<SlotView<T>> {
        self.slots@.map_values(
            |s: PublisherSlot<T>| (s.room@, s.peer_id@, s.video, s.audio),
        )
    }
}

impl<T> RoomRegistry<T> {
    /// Whether every `(room, peer)` occurs at most once.
    pub open spec fn wf(&self) -> bool {
        keys_unique(self@)
    }

    /// The tracks of the publisher `peer` of `room`, if it is registered.
    pub open spec fn lookup(&self, room: Seq<char>, peer: Seq<char>) -> Option<(Option<T>, Option<T>)> {
        match find_slot(self@, room, peer) {
            Some(i) => Some((self@[i].2, self@[i].3)),
            None => None,
        }
    }

    /// An empty registry.
    pub fn new() -> (r: RoomRegistry<T>)
        ensures
            r@ == Seq::<SlotView<T>>::empty(),
            r.wf(),
    {
        let r = RoomRegistry { slots: Vec::new() };
        assert(r@ =~= Seq::<SlotView<T>>::empty());
        r
    }

    fn index_of(&self, room: &str, peer: &str) -> (r: Option<usize>)
        ensures
            match r {
                Some(i) => find_slot(self@, room@, peer@) == Some(i as int) && i
                    < self.slots@.len(),
                None => find_slot(self@, room@, peer@) is None,
            },
    {
        let mut i: usize = self.slots.len();
        assert(self@.take(self.slots@.len() as int) =~= self@);
        while i > 0
            invariant
                i <= self.slots@.len(),
                find_slot(self@, room@, peer@) == find_slot(self@.take(i as int), room@, peer@),
            decreases i,
        {
            let s = &self.slots[i - 1];
            let ghost t = self@.take(i as int);
            assert(t.last() == self@[i - 1]);
            assert(t.drop_last() =~= self@.take(i - 1));
            if same_text(s.room.as_str(), room) && same_text(s.peer_id.as_str(), peer) {
                return Some(i - 1);
            }
            i = i - 1;
        }
        None
    }

    proof fn lemma_view_push(old_slots: Seq<PublisherSlot<T>>, s: PublisherSlot<T>)
        ensures
            old_slots.push(s).map_values(
                |s: PublisherSlot<T>| (s.room@, s.peer_id@, s.video, s.audio),
            ) == old_slots.map_values(
                |s: PublisherSlot<T>| (s.room@, s.peer_id@, s.video, s.audio),
            ).push((s.room@, s.peer_id@, s.video, s.audio)),
    {
        assert(old_slots.push(s).map_values(
            |s: PublisherSlot<T>| (s.room@, s.peer_id@, s.video, s.audio),
        ) =~= old_slots.map_values(
            |s: PublisherSlot<T>| (s.room@, s.peer_id@, s.video, s.audio),
        ).push((s.room@, s.peer_id@, s.video, s.audio)));
    }

    /// Registers the publisher `peer` of `room`, without tracks, unless it is
    /// registered already.
    pub fn ensure_publisher(&mut self, room: &str, peer: &str) -> (r: usize)
        requires
            old(self).wf(),
        ensures
            final(self).wf(),
            final(self)@ == with_publisher(old(self)@, room@, peer@),
            find_slot(final(self)@, room@, peer@) == Some(r as int),
    {
        match self.index_of(room, peer) {
            Some(i) => i,
            None => {
                let ghost before = self@;
                proof {
                    lemma_find_slot(before, room@, peer@);
                }
                let slot = PublisherSlot {
                    room: room.to_owned(),
                    peer_id: peer.to_owned(),
                    video: None,
                    audio: None,
                };
                proof {
                    Self::lemma_view_push(self.slots@, slot);
                }
                self.slots.push(slot);
                assert(self@ == before.push((room@, peer@, None::<T>, None::<T>)));
                assert(keys_unique(self@)) by {
                    assert forall|i: int, j: int|
                        0 <= i < self@.len() && 0 <= j < self@.len() && i != j implies !(
                        self@[i].0 == self@[j].0 && self@[i].1 == self@[j].1) by {
                        if i < before.len() && j < before.len() {
                            assert(self@[i] == before[i] && self@[j] == before[j]);
                        } else if i < before.len() {
                            assert(self@[i] == before[i]);
                        } else {
                            assert(self@[j] == before[j]);
                        }
                    }
                }
                proof {
                    lemma_find_unique(self@, room@, peer@, before.len() as int);
                }
                self.slots.len() - 1
            },
        }
    }

    fn replace_track(&mut self, i: usize, kind: TrackKind, t: Option<T>)
        requires
            old(self).wf(),
            i < old(self)@.len(),
        ensures
            final(self).wf(),
            final(self)@ == old(self)@.update(i as int, with_track(old(self)@[i as int], kind, t)),
    {
        let ghost before = self@;
        let ghost old_slots = self.slots@;
        let slot = self.slots.remove(i);
        let new_slot = match kind {
            TrackKind::Video => PublisherSlot {
                room: slot.room,
                peer_id: slot.peer_id,
                video: t,
                audio: slot.audio,
            },
            TrackKind::Audio => PublisherSlot {
                room: slot.room,
                peer_id: slot.peer_id,
                video: slot.video,
                audio: t,
            },
        };
        self.slots.insert(i, new_slot);
        assert(self.slots@ =~= old_slots.update(i as int, new_slot));
        assert(self@ =~= before.update(i as int, with_track(before[i as int], kind, t)));
        assert(keys_unique(self@)) by {
            assert forall|a: int, b: int|
                0 <= a < self@.len() && 0 <= b < self@.len() && a != b implies !(self@[a].0
                == self@[b].0 && self@[a].1 == self@[b].1) by {
                assert(self@[a].0 == before[a].0 && self@[a].1 == before[a].1);
                assert(self@[b].0 == before[b].0 && self@[b].1 == before[b].1);
            }
        }
    }

    /// Records the live track `t` of kind `kind` for the publisher `peer` of
    /// `room`, registering the publisher where needed.
    pub fn set_track(&mut self, room: &str, peer: &str, kind: TrackKind, t: T)
        requires
            old(self).wf(),
        ensures
            final(self).wf(),
            ({
                let base = with_publisher(old(self)@, room@, peer@);
                let i = find_slot(base, room@, peer@)->0;
                final(self)@ == base.update(i, with_track(base[i], kind, Some(t)))
            }),
    {
        let i = self.ensure_publisher(room, peer);
        proof {
            lemma_find_slot(self@, room@, peer@);
        }
        self.replace_track(i, kind, Some(t));
    }

    /// Forgets the track of kind `kind` of the publisher `peer` of `room`,
    /// where it is registered.
    pub fn clear_track(&mut self, room: &str, peer: &str, kind: TrackKind)
        requires
            old(self).wf(),
        ensures
            final(self).wf(),
            match find_slot(old(self)@, room@, peer@) {
                Some(i) => final(self)@ == old(self)@.update(
                    i,
                    with_track(old(self)@[i], kind, None),
                ),
                None => final(self)@ == old(self)@,
            },
    {
        match self.index_of(room, peer) {
            Some(i) => {
                proof {
                    lemma_find_slot(self@, room@, peer@);
                }
                self.replace_track(i, kind, None);
            },
            None => {},
        }
    }

    /// Removes the publisher `peer` of `room`, where it is registered.
    pub fn remove_publisher(&mut self, room: &str, peer: &str)
        requires
            old(self).wf(),
        ensures
            final(self).wf(),
            match find_slot(old(self)@, room@, peer@) {
                Some(i) => final(self)@ == old(self)@.remove(i),
                None => final(self)@ == old(self)@,
            },
    {
        match self.index_of(room, peer) {
            Some(i) => {
                let ghost before = self@;
                let ghost old_slots = self.slots@;
                proof {
                    lemma_find_slot(self@, room@, peer@);
                }
                let _ = self.slots.remove(i);
                assert(self.slots@ =~= old_slots.remove(i as int));
                assert(self@ =~= before.remove(i as int));
                assert(keys_unique(self@)) by {
                    assert forall|a: int, b: int|
                        0 <= a < self@.len() && 0 <= b < self@.len() && a != b implies !(
                        self@[a].0 == self@[b].0 && self@[a].1 == self@[b].1) by {
                        let a2 = if a < i { a } else { a + 1 };
                        let b2 = if b < i { b } else { b + 1 };
                        assert(self@[a] == before[a2]);
                        assert(self@[b] == before[b2]);
                    }
                }
            },
            None => {},
        }
    }

    /// The status of `room`: its publishers in order, and which of their
    /// tracks are live.
    pub fn status(&self, room: &str) -> (r: RoomStatus)
        ensures
            r.room@ == room@,
            r.publishers@.len() == room_publishers(self@, room@).len(),
            forall|k: int|
                0 <= k < r.publishers@.len() ==> ((#[trigger] r.publishers@[k]).peer_id@,
                r.publishers@[k].has_video, r.publishers@[k].has_audio) == room_publishers(
                    self@,
                    room@,
                )[k],
    {
        let mut out: Vec<PublisherStatus> = Vec::new();
        let mut i: usize = 0;
        while i < self.slots.len()
            invariant
                i <= self.slots@.len(),
                out@.len() == room_publishers(self@.take(i as int), room@).len(),
                forall|k: int|
                    0 <= k < out@.len() ==> ((#[trigger] out@[k]).peer_id@, out@[k].has_video,
                    out@[k].has_audio) == room_publishers(self@.take(i as int), room@)[k],
            decreases self.slots@.len() - i,
        {
            let s = &self.slots[i];
            let ghost t = self@.take(i + 1);
            assert(t.drop_last() =~= self@.take(i as int));
            assert(t.last() == self@[i as int]);
            if same_text(s.room.as_str(), room) {
                out.push(
                    PublisherStatus {
                        peer_id: s.peer_id.clone(),
                        has_video: s.video.is_some(),
                        has_audio: s.audio.is_some(),
                    },
                );
            }
            i = i + 1;
        }
        assert(self@.take(self.slots@.len() as int) =~= self@);
        RoomStatus { room: room.to_owned(), publishers: out }
    }
}

impl<T: Clone> RoomRegistry<T> {
    /// Copies of the live tracks of the publisher `peer` of `room`: none
    /// where it is not registered.
    pub fn tracks(&self, room: &str, peer: &str) -> (r: (Option<T>, Option<T>))
        ensures
            match self.lookup(room@, peer@) {
                Some((v, a)) => {
                    &&& (r.0 is Some <==> v is Some)
                    &&& (r.1 is Some <==> a is Some)
                    &&& (r.0 matches Some(x) ==> cloned(v->0, x))
                    &&& (r.1 matches Some(x) ==> cloned(a->0, x))
                },
                None => r.0 is None && r.1 is None,
            },
    {
        match self.index_of(room, peer) {
            Some(i) => {
                let s = &self.slots[i];
                assert(self@[i as int] == (s.room@, s.peer_id@, s.video, s.audio));
                let v = match &s.video {
                    Some(x) => Some(x.clone()),
                    None => None,
                };
                let a = match &s.audio {
                    Some(x) => Some(x.clone()),
                    None => None,
                };
                (v, a)
            },
            None => (None, None),
        }
    }
}

/// After a track is recorded, its publisher is registered with that track
/// live, and its other track is as it was.
pub proof fn law_recorded_track_is_live<T>(
    before: Seq<SlotView<T>>,
    room: Seq<char>,
    peer: Seq<char>,
    kind: TrackKind,
    t: T,
)
    requires
        keys_unique(before),
    ensures
        ({
            let base = with_publisher(before, room, peer);
            let i = find_slot(base, room, peer)->0;
            let after = base.update(i, with_track(base[i], kind, Some(t)));
            let prior = find_slot(before, room, peer);
            &&& find_slot(after, room, peer) == Some(i)
            &&& match kind {
                TrackKind::Video => after[i].2 == Some(t) && after[i].3 == (match prior {
                    Some(j) => before[j].3,
                    None => None,
                }),
                TrackKind::Audio => after[i].3 == Some(t) && after[i].2 == (match prior {
                    Some(j) => before[j].2,
                    None => None,
                }),
            }
        }),
{
    let base = with_publisher(before, room, peer);
    lemma_find_slot(before, room, peer);
    if find_slot(before, room, peer) is None {
        lemma_find_unique(base, room, peer, before.len() as int);
    }
    lemma_find_slot(base, room, peer);
    let i = find_slot(base, room, peer)->0;
    let after = base.update(i, with_track(base[i], kind, Some(t)));
    assert(after[i].0 == room && after[i].1 == peer);
    assert(keys_unique(after)) by {
        assert forall|a: int, b: int|
            0 <= a < after.len() && 0 <= b < after.len() && a != b implies !(after[a].0
            == after[b].0 && after[a].1 == after[b].1) by {
            assert(after[a].0 == base[a].0 && after[a].1 == base[a].1);
            assert(after[b].0 == base[b].0 && after[b].1 == base[b].1);
            if find_slot(before, room, peer) is None {
                if a < before.len() && b < before.len() {
                    assert(base[a] == before[a] && base[b] == before[b]);
                } else if a < before.len() {
                    assert(base[a] == before[a]);
                } else {
                    assert(base[b] == before[b]);
                }
            }
        }
    }
    lemma_find_unique(after, room, peer, i);
}

/// After a registered publisher's track is forgotten, the publisher is still
/// registered, that track is no longer live, and its other track is as it
/// was.
pub proof fn law_cleared_track_is_gone<T>(
    before: Seq<SlotView<T>>,
    room: Seq<char>,
    peer: Seq<char>,
    kind: TrackKind,
)
    requires
        keys_unique(before),
        find_slot(before, room, peer) is Some,
    ensures
        ({
            let i = find_slot(before, room, peer)->0;
            let after = before.update(i, with_track(before[i], kind, None));
            &&& find_slot(after, room, peer) == Some(i)
            &&& match kind {
                TrackKind::Video => after[i].2 is None && after[i].3 == before[i].3,
                TrackKind::Audio => after[i].3 is None && after[i].2 == before[i].2,
            }
        }),
{
    lemma_find_slot(before, room, peer);
    let i = find_slot(before, room, peer)->0;
    let after = before.update(i, with_track(before[i], kind, None));
    assert(keys_unique(after)) by {
        assert forall|a: int, b: int|
            0 <= a < after.len() && 0 <= b < after.len() && a != b implies !(after[a].0
            == after[b].0 && after[a].1 == after[b].1) by {
            assert(after[a].0 == before[a].0 && after[a].1 == before[a].1);
            assert(after[b].0 == before[b].0 && after[b].1 == before[b].1);
        }
    }
    lemma_find_unique(after, room, peer, i);
}

/// After a publisher is removed, it is no longer registered.
pub proof fn law_removed_publisher_is_gone<T>(before: Seq<SlotView<T>>, room: Seq<char>, peer: Seq<char>)
    requires
        keys_unique(before),
    ensures
        find_slot(
            match find_slot(before, room, peer) {
                Some(i) => before.remove(i),
                None => before,
            },
            room,
            peer,
        ) is None,
{
    lemma_find_slot(before, room, peer);
    match find_slot(before, room, peer) {
        Some(i) => {
            let after = before.remove(i);
            lemma_find_slot(after, room, peer);
            if find_slot(after, room, peer) is Some {
                let k = find_slot(after, room, peer)->0;
                let k2 = if k < i { k } else { k + 1 };
                assert(after[k] == before[k2]);
            }
        },
        None => {},
    }
}

// ---------------------------------------------------------------- requests

/// The publisher id a publish request names: trimmed and not blank.
pub open spec fn peer_id_rule(peer_id: Option<Seq<char>>) -> Result<Seq<char>, (u16, Seq<char>)> {
    match peer_id {
        Some(p) => if trim(p).len() > 0 {
            Ok(trim(p))
        } else {
            Err((BAD_REQUEST, "peer_id is required"@))
        },
        None => Err((BAD_REQUEST, "peer_id is required"@)),
    }
}

/// Reads the publisher id of a publish request.
pub fn require_peer_id(peer_id: Option<&str>) -> (r: Result<String, ApiError>)
    ensures
        text_outcome(r) == peer_id_rule(
            match peer_id {
                Some(p) => Some(p@),
                None => None,
            },
        ),
{
    match peer_id {
        Some(p) => {
            let t = trim_str(p);
            if t.len() > 0 {
                Ok(string_from_chars(t.as_slice()))
            } else {
                Err(error(BAD_REQUEST, "peer_id is required"))
            }
        },
        None => Err(error(BAD_REQUEST, "peer_id is required")),
    }
}

/// Refuses a session description that is not an offer.
pub fn check_offer_type(sdp_type: &str) -> (r: Result<(), ApiError>)
    ensures
        sdp_type@ == "offer"@ ==> r is Ok,
        sdp_type@ != "offer"@ ==> fails_with(r, BAD_REQUEST, "expected SDP offer"@),
{
    if same_text(sdp_type, "offer") {
        Ok(())
    } else {
        Err(error(BAD_REQUEST, "expected SDP offer"))
    }
}

/// The id of the relayed track of kind `kind` from `publisher`.
pub fn local_track_id(publisher: &str, kind: TrackKind) -> (r: String)
    ensures
        r@ == publisher@ + seq!['-'] + match kind {
            TrackKind::Video => "video"@,
            TrackKind::Audio => "audio"@,
        },
{
    let p = chars_of(publisher);
    let dash: Vec<char> = vec!['-'];
    let k = match kind {
        TrackKind::Video => chars_of("video"),
        TrackKind::Audio => chars_of("audio"),
    };
    let a = concat_chars(&p, &dash);
    let b = concat_chars(&a, &k);
    string_from_chars(b.as_slice())
}

/// The kind of a track a publisher sends, as the media stack reports it.
pub enum CodecKind {
    Unspecified,
    Audio,
    Video,
}

/// The registry slot a received track fills: none for a track that is
/// neither video nor audio.
pub fn received_track_slot(kind: &CodecKind) -> (r: Option<TrackKind>)
    ensures
        match *kind {
            CodecKind::Video => r == Some(TrackKind::Video),
            CodecKind::Audio => r == Some(TrackKind::Audio),
            CodecKind::Unspecified => r is None,
        },
{
    match kind {
        CodecKind::Video => Some(TrackKind::Video),
        CodecKind::Audio => Some(TrackKind::Audio),
        CodecKind::Unspecified => None,
    }
}

/// The kind a received track is named after: video for video, audio for
/// anything else.
pub fn named_track_kind(kind: &CodecKind) -> (r: TrackKind)
    ensures
        (*kind is Video) ==> r == TrackKind::Video,
        !(*kind is Video) ==> r == TrackKind::Audio,
{
    match kind {
        CodecKind::Video => TrackKind::Video,
        _ => TrackKind::Audio,
    }
}

/// A session description sent by a client: its type, its text, and (when
/// publishing) the publisher's id.
pub struct SdpRequest {
    pub sdp_type: String,
    pub sdp: String,
    pub peer_id: Option<String>,
}

#[verifier::external_type_specification]
#[verifier::external_body]
pub struct ExSessionDescription(webrtc::peer_connection::sdp::session_description::RTCSessionDescription);

#[verifier::external_type_specification]
#[verifier::external_body]
pub struct ExWebrtcError(webrtc::Error);

/// Whether `webrtc`'s SDP parser accepts the text `sdp`.
pub uninterp spec fn sdp_parses(sdp: Seq<char>) -> bool;

/// `webrtc`'s `RTCSessionDescription::offer`: the offer carrying `sdp`, once
/// the SDP parser has read it. Claims: whether it succeeds depends on the
/// text alone. Nothing is claimed of the description or of the error, which
/// stay opaque here.
#[verifier::external_body]
fn webrtc_offer(sdp: String) -> (r: Result<
    webrtc::peer_connection::sdp::session_description::RTCSessionDescription,
    webrtc::Error,
>)
    ensures
        r is Ok <==> sdp_parses(sdp@),
{
    webrtc::peer_connection::sdp::session_description::RTCSessionDescription::offer(sdp)
}

/// The offer a client sends: refused unless its type is `offer`; a text the
/// SDP parser does not accept is an internal error.
pub fn offer_from_body(body: &SdpRequest) -> (r: Result<
    webrtc::peer_connection::sdp::session_description::RTCSessionDescription,
    ApiError,
>)
    ensures
        body.sdp_type@ != "offer"@ ==> fails_with(r, BAD_REQUEST, "expected SDP offer"@),
        body.sdp_type@ == "offer"@ ==> (r is Ok <==> sdp_parses(body.sdp@)),
        body.sdp_type@ == "offer"@ && r is Err ==> fails_with(
            r,
            INTERNAL_SERVER_ERROR,
            "internal error"@,
        ),
{
    match check_offer_type(body.sdp_type.as_str()) {
        Err(e) => Err(e),
        Ok(()) => match webrtc_offer(body.sdp.clone()) {
            Ok(d) => Ok(d),
            Err(e) => Err(internal(e)),
        },
    }
}

/// The states of a peer connection.
pub enum PeerState {
    Unspecified,
    New,
    Connecting,
    Connected,
    Disconnected,
    Failed,
    Closed,
}

/// Whether a publisher's connection in state `s` has ended its publication.
pub fn ends_publication(s: &PeerState) -> (r: bool)
    ensures
        r == (*s is Failed || *s is Closed),
{
    match s {
        PeerState::Failed | PeerState::Closed => true,
        _ => false,
    }
}

/// A session description sent to a client.
pub struct SdpResponse {
    pub sdp_type: String,
    pub sdp: String,
}

/// The answer carrying the relay's session description.
pub fn sdp_answer(sdp: String) -> (r: SdpResponse)
    ensures
        r.sdp_type@ == "answer"@,
        r.sdp == sdp,
{
    SdpResponse { sdp_type: "answer".to_owned(), sdp }
}

// ---------------------------------------------------------------- settings

/// The value of the decimal digits `d`.
pub open spec fn digits_value(d: Seq<char>) -> nat
    decreases d.len(),
{
    if d.len() == 0 {
        0
    } else {
        digits_value(d.drop_last()) * 10 + (d.last() as nat - '0' as nat) as nat
    }
}

/// Whether every character of `d` is an ASCII digit.
pub open spec fn all_digits(d: Seq<char>) -> bool {
    forall|i: int| 0 <= i < d.len() ==> is_ascii_digit(#[trigger] d[i])
}

/// What `str::parse::<u16>` reads: an optional `+` and at least one ASCII
/// digit, of a value that fits in 16 bits.
pub open spec fn parse_u16(s: Seq<char>) -> Option<u16> {
    let d = if s.len() > 0 && s[0] == '+' {
        s.drop_first()
    } else {
        s
    };
    if d.len() > 0 && all_digits(d) && digits_value(d) <= u16::MAX {
        Some(digits_value(d) as u16)
    } else {
        None
    }
}

pub proof fn lemma_digits_value_grows(d: Seq<char>, i: int)
    requires
        0 <= i <= d.len(),
        forall|k: int| 0 <= k < d.len() ==> is_ascii_digit(#[trigger] d[k]),
    ensures
        digits_value(d.take(i)) <= digits_value(d),
    decreases d.len() - i,
{
    if i < d.len() {
        lemma_digits_value_grows(d, i + 1);
        let t = d.take(i + 1);
        assert(t.drop_last() =~= d.take(i));
        assert(t.last() == d[i]);
    } else {
        assert(d.take(i) =~= d);
    }
}

/// Reads a port (or another 16-bit number) from a setting; `default` where
/// the setting is missing or not a 16-bit number.
#[verifier::loop_isolation(false)]
pub fn parse_port(raw: Option<&str>, default: u16) -> (r: u16)
    ensures
        r == match raw {
            Some(s) => match parse_u16(s@) {
                Some(v) => v,
                None => default,
            },
            None => default,
        },
{
    let s = match raw {
        Some(s) => s,
        None => return default,
    };
    let cs = chars_of(s);
    let start: usize = if cs.len() > 0 && cs[0] == '+' {
        1
    } else {
        0
    };
    let d = copy_range(&cs, start, cs.len());
    assert(d@ =~= (if cs@.len() > 0 && cs@[0] == '+' {
        cs@.drop_first()
    } else {
        cs@
    }));
    if d.len() == 0 {
        return default;
    }
    let mut i: usize = 0;
    while i < d.len()
        invariant
            i <= d@.len(),
            forall|k: int| 0 <= k < i ==> is_ascii_digit(#[trigger] d@[k]),
        decreases d@.len() - i,
    {
        if !('0' <= d[i] && d[i] <= '9') {
            assert(!is_ascii_digit(d@[i as int]));
            return default;
        }
        i = i + 1;
    }
    let mut acc: u32 = 0;
    let mut j: usize = 0;
    while j < d.len()
        invariant
            j <= d@.len(),
            forall|k: int| 0 <= k < d@.len() ==> is_ascii_digit(#[trigger] d@[k]),
            acc == digits_value(d@.take(j as int)),
            acc <= u16::MAX,
        decreases d@.len() - j,
    {
        let ghost t = d@.take(j + 1);
        assert(t.drop_last() =~= d@.take(j as int));
        assert(t.last() == d@[j as int]);
        let digit = (d[j] as u32) - ('0' as u32);
        let next = acc * 10 + digit;
        if next > 65535 {
            proof {
                lemma_digits_value_grows(d@, j + 1);
            }
            return default;
        }
        acc = next;
        j = j + 1;
    }
    assert(d@.take(d@.len() as int) =~= d@);
    acc as u16
}

} // verus!
