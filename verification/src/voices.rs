//! Which voices the audio side should be rendering: the notes sounding right now, and how the
//! voices already rendering follow them. The tones themselves, and their fades, are the audio
//! front end's.

use vstd::prelude::*;

use crate::pitch::Pitch;
use crate::playback::{track_items, tracks_len, Playback, TrackId};
use crate::time::Tick;
use crate::track::{covering, lists_notes, note_at, Note, Position};
use crate::transport::PlaybackIntent;

verus! {

/// Which note a voice renders: its track and pitch, and the tick it starts at — not just its
/// pitch, so two back-to-back same-pitch notes (no gap between them) are two voices, not one:
/// crossing from one note's start to the next's is a new note event with its own attack.
#[derive(Debug, Clone, Copy, PartialEq, Eq, Structural)]
pub struct VoiceKey {
    /// Which track the note is on.
    pub track: TrackId,
    /// The note's pitch.
    pub pitch: Pitch,
    /// The tick the note starts at.
    pub start: Tick,
}

/// The voice rendering note `n` of track `track`.
pub open spec fn voice_of(track: TrackId, n: Note) -> VoiceKey {
    VoiceKey { track, pitch: n.position.pitch, start: n.position.tick }
}

/// The voices rendering the notes of track number `track`, in order.
pub open spec fn voices_of(track: int, notes: Seq<Note>) -> Seq<VoiceKey> {
    notes.map_values(|n: Note| voice_of(TrackId(track as u8), n))
}

/// The voices for the notes of each track in `found`, track after track.
pub open spec fn all_voices(found: Seq<Seq<Note>>) -> Seq<VoiceKey>
    decreases found.len(),
{
    if found.len() == 0 {
        Seq::empty()
    } else {
        all_voices(found.drop_last()) + voices_of(found.len() - 1, found.last())
    }
}

/// `r` lists the voices that should sound for `playback`: nothing while paused — the transport
/// isn't advancing, so a note sounding at the moment of pause must fade out rather than ring
/// until playback resumes — and otherwise every note sounding at the transport's position, track
/// by track, each track's notes in grid order.
pub open spec fn sounding_now(playback: Playback, r: Seq<VoiceKey>) -> bool {
    if playback.transport.intent != PlaybackIntent::Playing {
        r.len() == 0
    } else {
        exists|found: Seq<Seq<Note>>|
            found.len() == track_items(playback.tracks).len() && (forall|i: int|
                0 <= i < found.len() ==> lists_notes(
                    #[trigger] found[i],
                    track_items(playback.tracks)[i]@,
                    covering(playback.transport.position),
                )) && r == all_voices(found)
    }
}

/// The voices that should sound right now, across every track — see [`sounding_now`].
pub fn sounding_voices(playback: &Playback) -> (r: Vec<VoiceKey>)
    requires
        playback.wf(),
        track_items(playback.tracks).len() <= 256,
    ensures
        sounding_now(*playback, r@),
        playback.transport.intent == PlaybackIntent::Playing ==> forall|i: int, p: Position|
            0 <= i < track_items(playback.tracks).len() && track_items(playback.tracks)[i]@.contains_key(p)
                && #[trigger] note_at(track_items(playback.tracks)[i]@, p).covers(playback.transport.position)
                ==> r@.contains((VoiceKey { track: TrackId(i as u8), pitch: p.pitch, start: p.tick })),
        forall|k: int| 0 <= k < r@.len() ==> renders_a_sounding_note(*playback, #[trigger] r@[k]),
{
    let mut voices: Vec<VoiceKey> = Vec::new();
    if playback.transport.intent != PlaybackIntent::Playing {
        proof {
            lemma_voices_follow_the_notes(*playback, voices@);
        }
        return voices;
    }
    let tick = playback.transport.position;
    let count = tracks_len(&playback.tracks);
    let ghost mut found: Seq<Seq<Note>> = Seq::empty();
    let mut index: usize = 0;
    while index < count
        invariant
            playback.wf(),
            count == track_items(playback.tracks).len(),
            count <= 256,
            tick == playback.transport.position,
            index <= count,
            found.len() == index,
            forall|i: int|
                0 <= i < index ==> lists_notes(
                    #[trigger] found[i],
                    track_items(playback.tracks)[i]@,
                    covering(tick),
                ),
            voices@ == all_voices(found),
        decreases count - index,
    {
        let track_id = TrackId(index as u8);
        let track = playback.track(track_id);
        let notes = track.sounding_at(tick);
        let ghost before = voices@;
        let mut j: usize = 0;
        while j < notes.len()
            invariant
                j <= notes.len(),
                index < 256,
                track_id == TrackId(index as u8),
                voices@ == before + voices_of(index as int, notes@.take(j as int)),
            decreases notes.len() - j,
        {
            let note = notes[j];
            voices.push(VoiceKey { track: track_id, pitch: note.position.pitch, start: note.position.tick });
            assert(voices_of(index as int, notes@.take(j + 1)) =~= voices_of(index as int, notes@.take(j as int)).push(
                voice_of(track_id, note),
            ));
            assert(voices@ =~= before + voices_of(index as int, notes@.take(j + 1)));
            j = j + 1;
        }
        proof {
            assert(notes@.take(notes@.len() as int) =~= notes@);
            let next = found.push(notes@);
            assert(next.drop_last() =~= found);
            assert(all_voices(next) == all_voices(found) + voices_of(index as int, notes@));
            found = next;
        }
        index = index + 1;
    }
    proof {
        lemma_voices_follow_the_notes(*playback, voices@);
    }
    voices
}

/// A voice lies among the voices of `found` exactly when it renders a note listed for a track.
proof fn lemma_all_voices_contains(found: Seq<Seq<Note>>, v: VoiceKey)
    ensures
        all_voices(found).contains(v) <==> exists|i: int, j: int|
            0 <= i < found.len() && 0 <= j < found[i].len() && v == voice_of(TrackId(i as u8), #[trigger] found[i][j]),
    decreases found.len(),
{
    if found.len() > 0 {
        let front = found.drop_last();
        let last = found.len() - 1;
        lemma_all_voices_contains(front, v);
        let a = all_voices(front);
        let b = voices_of(last, found.last());
        assert(all_voices(found) == a + b);
        if all_voices(found).contains(v) {
            let k = choose|k: int| 0 <= k < (a + b).len() && (a + b)[k] == v;
            if k < a.len() {
                assert(a[k] == v);
                assert(a.contains(v));
                let (i, j) = choose|i: int, j: int|
                    0 <= i < front.len() && 0 <= j < front[i].len() && v == voice_of(TrackId(i as u8), #[trigger] front[i][j]);
                assert(found[i][j] == front[i][j]);
            } else {
                assert(b[k - a.len()] == v);
                assert(found[last][k - a.len()] == found.last()[k - a.len()]);
            }
        }
        if exists|i: int, j: int|
            0 <= i < found.len() && 0 <= j < found[i].len() && v == voice_of(TrackId(i as u8), #[trigger] found[i][j]) {
            let (i, j) = choose|i: int, j: int|
                0 <= i < found.len() && 0 <= j < found[i].len() && v == voice_of(TrackId(i as u8), #[trigger] found[i][j]);
            if i < last {
                assert(front[i][j] == found[i][j]);
                assert(a.contains(v));
                let k = choose|k: int| 0 <= k < a.len() && a[k] == v;
                assert((a + b)[k] == v);
            } else {
                assert(b[j] == v);
                assert((a + b)[a.len() + j] == v);
            }
        }
    }
}

/// `v` renders a note of one of `playback`'s tracks that sounds at the transport's position.
pub open spec fn renders_a_sounding_note(playback: Playback, v: VoiceKey) -> bool {
    exists|i: int, p: Position|
        0 <= i < track_items(playback.tracks).len() && track_items(playback.tracks)[i]@.contains_key(p)
            && #[trigger] note_at(track_items(playback.tracks)[i]@, p).covers(playback.transport.position) && v
            == (VoiceKey { track: TrackId(i as u8), pitch: p.pitch, start: p.tick })
}

/// What should sound, stated over the tracks themselves: nothing while paused; while playing,
/// a voice for every note of every track sounding at the transport's position — all the notes
/// of a chord, on every track — and no voice for anything else.
pub proof fn lemma_voices_follow_the_notes(playback: Playback, r: Seq<VoiceKey>)
    requires
        sounding_now(playback, r),
        track_items(playback.tracks).len() <= 256,
    ensures
        playback.transport.intent != PlaybackIntent::Playing ==> r.len() == 0,
        playback.transport.intent == PlaybackIntent::Playing ==> forall|i: int, p: Position|
            0 <= i < track_items(playback.tracks).len() && track_items(playback.tracks)[i]@.contains_key(p)
                && #[trigger] note_at(track_items(playback.tracks)[i]@, p).covers(playback.transport.position)
                ==> r.contains((VoiceKey { track: TrackId(i as u8), pitch: p.pitch, start: p.tick })),
        forall|k: int| 0 <= k < r.len() ==> renders_a_sounding_note(playback, #[trigger] r[k]),
{
    if playback.transport.intent == PlaybackIntent::Playing {
        let ts = track_items(playback.tracks);
        let tick = playback.transport.position;
        let found = choose|found: Seq<Seq<Note>>|
            found.len() == ts.len() && (forall|i: int|
                0 <= i < found.len() ==> lists_notes(#[trigger] found[i], ts[i]@, covering(tick)))
                && r == all_voices(found);
        assert forall|i: int, p: Position|
            0 <= i < ts.len() && ts[i]@.contains_key(p) && #[trigger] note_at(ts[i]@, p).covers(tick) implies r.contains(
            VoiceKey { track: TrackId(i as u8), pitch: p.pitch, start: p.tick },
        ) by {
            assert(lists_notes(found[i], ts[i]@, covering(tick)));
            assert(covering(tick)(note_at(ts[i]@, p)));
            let j = choose|j: int| 0 <= j < found[i].len() && #[trigger] found[i][j].position == p;
            lemma_all_voices_contains(found, VoiceKey { track: TrackId(i as u8), pitch: p.pitch, start: p.tick });
        }
        assert forall|k: int| 0 <= k < r.len() implies renders_a_sounding_note(playback, #[trigger] r[k]) by {
            assert(r.contains(r[k]));
            lemma_all_voices_contains(found, r[k]);
            let (i, j) = choose|i: int, j: int|
                0 <= i < found.len() && 0 <= j < found[i].len() && r[k] == voice_of(TrackId(i as u8), #[trigger] found[i][j]);
            assert(lists_notes(found[i], ts[i]@, covering(tick)));
            let n = found[i][j];
            assert(ts[i]@.contains_key(n.position) && ts[i]@[n.position] == n.length && covering(tick)(n));
            assert(note_at(ts[i]@, n.position) == n);
            assert(note_at(track_items(playback.tracks)[i]@, n.position).covers(playback.transport.position));
            assert(r[k] == (VoiceKey { track: TrackId(i as u8), pitch: n.position.pitch, start: n.position.tick }));
        }
    } else {
        assert(r.len() == 0);
    }
}

/// How the voices already rendering follow the notes sounding now.
#[derive(Debug)]
pub struct VoicePlan {
    /// For each voice, whether it keeps sounding (heads for full level) — otherwise it fades out.
    pub sustained: Vec<bool>,
    /// For each voice, whether it stays: still sustained, or still audible while it fades.
    pub kept: Vec<bool>,
    /// The notes sounding now that no voice renders yet: each gets a new voice, fading in.
    pub spawned: Vec<VoiceKey>,
}

/// Voice `i` of `voices` keeps sounding: its note is among `sounding`, and it is the first voice
/// rendering that note.
pub open spec fn sustains(voices: Seq<VoiceKey>, sounding: Seq<VoiceKey>, i: int) -> bool {
    sounding.contains(voices[i]) && !voices.take(i).contains(voices[i])
}

/// The notes of `sounding`, in order, that no voice of `voices` renders — each once.
pub open spec fn spawned_from(voices: Seq<VoiceKey>, sounding: Seq<VoiceKey>) -> Seq<VoiceKey>
    decreases sounding.len(),
{
    if sounding.len() == 0 {
        Seq::empty()
    } else {
        let rest = spawned_from(voices, sounding.drop_last());
        let k = sounding.last();
        if voices.contains(k) || rest.contains(k) {
            rest
        } else {
            rest.push(k)
        }
    }
}

/// The voices a plan spawns are exactly the notes sounding now that no running voice renders,
/// each spawned once.
pub proof fn lemma_spawned_are_the_unvoiced_notes(voices: Seq<VoiceKey>, sounding: Seq<VoiceKey>)
    ensures
        forall|k: VoiceKey|
            #[trigger] spawned_from(voices, sounding).contains(k) <==> (sounding.contains(k) && !voices.contains(k)),
        forall|a: int, b: int|
            0 <= a < b < spawned_from(voices, sounding).len() ==> #[trigger] spawned_from(voices, sounding)[a]
                != #[trigger] spawned_from(voices, sounding)[b],
    decreases sounding.len(),
{
    if sounding.len() > 0 {
        let front = sounding.drop_last();
        let last = sounding.last();
        lemma_spawned_are_the_unvoiced_notes(voices, front);
        let rest = spawned_from(voices, front);
        let all = spawned_from(voices, sounding);
        assert forall|k: VoiceKey| #[trigger] all.contains(k) <==> (sounding.contains(k) && !voices.contains(k)) by {
            if sounding.contains(k) {
                let w = choose|w: int| 0 <= w < sounding.len() && sounding[w] == k;
                if w < sounding.len() - 1 {
                    assert(front[w] == k);
                }
            }
            if front.contains(k) {
                let w = choose|w: int| 0 <= w < front.len() && front[w] == k;
                assert(sounding[w] == k);
            }
            if !(voices.contains(last) || rest.contains(last)) {
                assert(all == rest.push(last));
                if rest.contains(k) {
                    let w = choose|w: int| 0 <= w < rest.len() && rest[w] == k;
                    assert(all[w] == k);
                }
                if all.contains(k) && k != last {
                    let w = choose|w: int| 0 <= w < all.len() && all[w] == k;
                    assert(rest[w] == k);
                }
                assert(all[all.len() - 1] == last);
            }
        }
        if !(voices.contains(last) || rest.contains(last)) {
            assert(all == rest.push(last));
            assert forall|a: int, b: int| 0 <= a < b < all.len() implies #[trigger] all[a] != #[trigger] all[b] by {
                if b == all.len() - 1 {
                    assert(rest[a] == all[a]);
                    assert(rest.contains(all[a]));
                } else {
                    assert(rest[a] == all[a] && rest[b] == all[b]);
                }
            }
        }
    }
}

/// The first index of `keys` holding `key`, if any.
fn first_index(keys: &Vec<VoiceKey>, key: VoiceKey) -> (r: Option<usize>)
    ensures
        match r {
            Some(i) => i < keys@.len() && keys@[i as int] == key && !keys@.take(i as int).contains(key),
            None => !keys@.contains(key),
        },
{
    let mut i: usize = 0;
    while i < keys.len()
        invariant
            i <= keys.len(),
            !keys@.take(i as int).contains(key),
        decreases keys.len() - i,
    {
        if keys[i] == key {
            return Some(i);
        }
        assert(keys@.take(i + 1) =~= keys@.take(i as int).push(keys@[i as int]));
        i = i + 1;
    }
    assert(keys@.take(keys@.len() as int) =~= keys@);
    None
}

/// Reconcile the voices rendering `voices` (each still `audible` or already silent) with the
/// notes `sounding` now: every voice fades out unless its note still sounds, voices that are
/// silent and fading are dropped, and every sounding note without a voice gets a new one.
pub fn plan_voices(voices: &Vec<VoiceKey>, audible: &Vec<bool>, sounding: &Vec<VoiceKey>) -> (p: VoicePlan)
    requires
        audible@.len() == voices@.len(),
    ensures
        p.sustained@.len() == voices@.len(),
        forall|i: int| 0 <= i < voices@.len() ==> #[trigger] p.sustained@[i] == sustains(voices@, sounding@, i),
        p.kept@.len() == voices@.len(),
        forall|i: int| 0 <= i < voices@.len() ==> #[trigger] p.kept@[i] == (p.sustained@[i] || audible@[i]),
        p.spawned@ == spawned_from(voices@, sounding@),
        forall|k: VoiceKey| #[trigger] p.spawned@.contains(k) <==> (sounding@.contains(k) && !voices@.contains(k)),
        forall|a: int, b: int| 0 <= a < b < p.spawned@.len() ==> #[trigger] p.spawned@[a] != #[trigger] p.spawned@[b],
        forall|i: int|
            0 <= i < voices@.len() ==> (#[trigger] p.sustained@[i] <==> (sounding@.contains(voices@[i]) && forall|
                k: int,
            | 0 <= k < i ==> voices@[k] != voices@[i])),
{
    proof {
        lemma_spawned_are_the_unvoiced_notes(voices@, sounding@);
    }
    let n = voices.len();
    let mut sustained: Vec<bool> = Vec::new();
    let mut i: usize = 0;
    while i < n
        invariant
            n == voices@.len(),
            i <= n,
            sustained@.len() == i,
            forall|k: int| 0 <= k < i ==> !#[trigger] sustained@[k],
        decreases n - i,
    {
        sustained.push(false);
        i = i + 1;
    }
    let mut spawned: Vec<VoiceKey> = Vec::new();
    let mut j: usize = 0;
    assert(sounding@.take(0) =~= Seq::<VoiceKey>::empty());
    while j < sounding.len()
        invariant
            n == voices@.len(),
            j <= sounding.len(),
            sustained@.len() == n,
            forall|k: int|
                0 <= k < n ==> #[trigger] sustained@[k] == (sounding@.take(j as int).contains(voices@[k])
                    && !voices@.take(k).contains(voices@[k])),
            spawned@ == spawned_from(voices@, sounding@.take(j as int)),
        decreases sounding.len() - j,
    {
        let key = sounding[j];
        let ghost before = sustained@;
        let ghost prefix = sounding@.take(j as int);
        assert(sounding@.take(j + 1) =~= prefix.push(key));
        assert(sounding@.take(j + 1).drop_last() =~= prefix);
        match first_index(voices, key) {
            Some(f) => {
                sustained.set(f, true);
                assert forall|k: int| 0 <= k < n implies #[trigger] sustained@[k] == (sounding@.take(j + 1).contains(
                    voices@[k],
                ) && !voices@.take(k).contains(voices@[k])) by {
                    if k == f {
                        assert(sounding@.take(j + 1)[j as int] == key);
                    } else if voices@[k] == key {
                        if k > f {
                            assert(voices@.take(k)[f as int] == key);
                        } else {
                            assert(voices@.take(f as int)[k] == key);
                        }
                    } else {
                        if sounding@.take(j + 1).contains(voices@[k]) {
                            let w = choose|w: int| 0 <= w < j + 1 && #[trigger] sounding@.take(j + 1)[w] == voices@[k];
                            assert(prefix[w] == voices@[k]);
                        }
                        if prefix.contains(voices@[k]) {
                            let w = choose|w: int| 0 <= w < j && #[trigger] prefix[w] == voices@[k];
                            assert(sounding@.take(j + 1)[w] == voices@[k]);
                        }
                    }
                }
                assert(voices@[f as int] == key);
                assert(voices@.contains(key));
            },
            None => {
                assert forall|k: int| 0 <= k < n implies #[trigger] sustained@[k] == (sounding@.take(j + 1).contains(
                    voices@[k],
                ) && !voices@.take(k).contains(voices@[k])) by {
                    assert(voices@[k] != key);
                    if sounding@.take(j + 1).contains(voices@[k]) {
                        let w = choose|w: int| 0 <= w < j + 1 && #[trigger] sounding@.take(j + 1)[w] == voices@[k];
                        assert(prefix[w] == voices@[k]);
                    }
                    if prefix.contains(voices@[k]) {
                        let w = choose|w: int| 0 <= w < j && #[trigger] prefix[w] == voices@[k];
                        assert(sounding@.take(j + 1)[w] == voices@[k]);
                    }
                }
                match first_index(&spawned, key) {
                    Some(_) => {},
                    None => {
                        spawned.push(key);
                    },
                }
            },
        }
        j = j + 1;
    }
    assert(sounding@.take(sounding@.len() as int) =~= sounding@);
    let mut kept: Vec<bool> = Vec::new();
    let mut i: usize = 0;
    while i < n
        invariant
            n == voices@.len(),
            n == audible@.len(),
            sustained@.len() == n,
            i <= n,
            kept@.len() == i,
            forall|k: int| 0 <= k < i ==> #[trigger] kept@[k] == (sustained@[k] || audible@[k]),
        decreases n - i,
    {
        kept.push(sustained[i] || audible[i]);
        i = i + 1;
    }
    proof {
        assert forall|i: int| 0 <= i < voices@.len() implies (#[trigger] sustained@[i] <==> (sounding@.contains(
            voices@[i],
        ) && forall|k: int| 0 <= k < i ==> voices@[k] != voices@[i])) by {
            if voices@.take(i).contains(voices@[i]) {
                let w = choose|w: int| 0 <= w < i && voices@.take(i)[w] == voices@[i];
                assert(voices@[w] == voices@[i]);
            }
            if exists|k: int| 0 <= k < i && voices@[k] == voices@[i] {
                let k = choose|k: int| 0 <= k < i && voices@[k] == voices@[i];
                assert(voices@.take(i)[k] == voices@[i]);
            }
        }
    }
    VoicePlan { sustained, kept, spawned }
}

} // verus!
