//! How a grid of notes is stored: a `BTreeMap` keyed by each note's start, encoded as one
//! integer that sorts tick-first, then pitch — the same order as [`Position`]'s own.

use std::collections::BTreeMap;

use vstd::prelude::*;
use vstd::std_specs::btree::spec_btree_map_iter;
use vstd::std_specs::iter::IteratorSpec;

use crate::pitch::Pitch;
use crate::time::{Length, Tick};
use crate::track::Position;

verus! {

/// The map key for `p`: tick first, then pitch, so key order is position order.
pub open spec fn key(p: Position) -> int {
    p.tick.0 * 256 + p.pitch.0
}

/// The position a map key stands for.
pub open spec fn position_of(k: int) -> Position {
    Position { tick: Tick((k / 256) as u16), pitch: Pitch((k % 256) as u8) }
}

/// Every key a position can have lies below this bound.
pub open spec fn key_bound() -> int {
    0x100_0000
}

/// Keys are one-to-one with positions.
pub proof fn lemma_key_roundtrip(p: Position)
    ensures
        0 <= key(p) < key_bound(),
        position_of(key(p)) == p,
{
}

/// Decoding then encoding a valid key gives it back.
pub proof fn lemma_position_roundtrip(k: int)
    requires
        0 <= k < key_bound(),
    ensures
        key(position_of(k)) == k,
{
}

/// Distinct positions have distinct keys, and key order is tick-then-pitch order.
pub proof fn lemma_key_order(p: Position, q: Position)
    ensures
        key(p) == key(q) <==> p == q,
        key(p) < key(q) <==> (p.tick.0 < q.tick.0 || (p.tick.0 == q.tick.0 && p.pitch.0 < q.pitch.0)),
{
}

/// The map key for `p`.
pub fn key_of(p: Position) -> (k: u32)
    ensures
        k == key(p),
{
    (p.tick.0 as u32) * 256 + (p.pitch.0 as u32)
}

/// The position a valid map key stands for.
pub fn position_at(k: u32) -> (p: Position)
    requires
        k < key_bound(),
    ensures
        p == position_of(k as int),
        key(p) == k,
{
    Position { tick: Tick((k / 256) as u16), pitch: Pitch((k % 256) as u8) }
}

/// Keys strictly increase along `s`.
pub open spec fn strictly_increasing(s: Seq<(u32, Length)>) -> bool {
    forall|i: int, j: int| 0 <= i < j < s.len() ==> s[i].0 < s[j].0
}

/// `r` lists, in increasing key order, exactly the entries of `m` with keys in `[lo, hi]`.
pub open spec fn lists_entries(r: Seq<(u32, Length)>, m: Map<u32, Length>, lo: u32, hi: u32) -> bool {
    &&& strictly_increasing(r)
    &&& forall|i: int|
        0 <= i < r.len() ==> m.contains_key(#[trigger] r[i].0) && m[r[i].0] == r[i].1 && lo <= r[i].0
            <= hi
    &&& forall|k: u32|
        m.contains_key(k) && lo <= k <= hi ==> exists|i: int| 0 <= i < r.len() && #[trigger] r[i].0 == k
}

/// The entries of `m`'s ordered listing `s`, by value.
pub open spec fn plain(s: Seq<(&u32, &Length)>) -> Seq<(u32, Length)> {
    s.map_values(|kv: (&u32, &Length)| (*kv.0, *kv.1))
}

/// Whether an entry's key lies in `[lo, hi]`.
pub open spec fn key_within(lo: u32, hi: u32) -> spec_fn((u32, Length)) -> bool {
    |e: (u32, Length)| lo <= e.0 && e.0 <= hi
}

/// Keeping only some entries of a strictly increasing listing leaves it strictly increasing.
proof fn lemma_filter_increasing(p: Seq<(u32, Length)>, pred: spec_fn((u32, Length)) -> bool)
    requires
        strictly_increasing(p),
    ensures
        strictly_increasing(p.filter(pred)),
        forall|i: int|
            0 <= i < p.filter(pred).len() ==> exists|j: int|
                0 <= j < p.len() && p[j] == #[trigger] p.filter(pred)[i],
    decreases p.len(),
{
    reveal(Seq::filter);
    if p.len() > 0 {
        let t = p.drop_last();
        lemma_filter_increasing(t, pred);
        let r = t.filter(pred);
        assert forall|i: int| 0 <= i < r.len() implies r[i].0 < p.last().0 by {
            let j = choose|j: int| 0 <= j < t.len() && t[j] == #[trigger] r[i];
            assert(p[j] == t[j]);
        }
        let full = p.filter(pred);
        assert forall|i: int|
            0 <= i < full.len() implies exists|j: int| 0 <= j < p.len() && p[j] == #[trigger] full[i] by {
            if i < r.len() {
                let j = choose|j: int| 0 <= j < t.len() && t[j] == #[trigger] r[i];
                assert(p[j] == t[j]);
            } else {
                assert(p[p.len() - 1] == full[i]);
            }
        }
    }
}

/// The ordered listing of a map keyed by integers has strictly increasing keys.
proof fn lemma_listing_increasing(m: &BTreeMap<u32, Length>)
    requires
        vstd::std_specs::btree::increasing_seq(
            spec_btree_map_iter(m).remaining().map_values(|kv: (&u32, &Length)| *kv.0),
        ),
    ensures
        strictly_increasing(plain(spec_btree_map_iter(m).remaining())),
{
    let s = spec_btree_map_iter(m).remaining();
    let p = plain(s);
    let keys = s.map_values(|kv: (&u32, &Length)| *kv.0);
    assert(vstd::laws_cmp::obeys_cmp::<u32>());
    assert forall|i: int, j: int| 0 <= i < j < p.len() implies p[i].0 < p[j].0 by {
        assert(keys[i] == *s[i].0);
        assert(keys[j] == *s[j].0);
        assert(vstd::std_specs::cmp::OrdSpec::cmp_spec(&keys[i], &keys[j]) is Less);
    }
}

/// Every entry of `m` whose key lies in `[lo, hi]`, in increasing key order — what
/// `BTreeMap::range` yields for that key range.
pub fn entries_between(m: &BTreeMap<u32, Length>, lo: u32, hi: u32) -> (r: Vec<(u32, Length)>)
    ensures
        lists_entries(r@, m@, lo, hi),
{
    let ordered = m.iter();
    let ghost s = spec_btree_map_iter(m).remaining();
    let ghost p = plain(s);
    let ghost pred = key_within(lo, hi);
    proof {
        lemma_listing_increasing(m);
    }
    let mut out: Vec<(u32, Length)> = Vec::new();
    for entry in it: ordered
        invariant
            it.seq() == s,
            s == spec_btree_map_iter(m).remaining(),
            p == plain(s),
            pred == key_within(lo, hi),
            out@ == p.take(it.index() as int).filter(pred),
    {
        let (k, v) = entry;
        proof {
            let i = it.index() as int;
            assert(p.take(i + 1) == p.take(i).push(p[i]));
            p.take(i).lemma_filter_push(p[i], pred);
        }
        if lo <= *k && *k <= hi {
            out.push((*k, *v));
        }
    }
    proof {
        assert(p.take(p.len() as int) == p);
        lemma_filter_increasing(p, pred);
        #[allow(deprecated)]
        p.filter_lemma(pred);
        let r = out@;
        assert forall|i: int| 0 <= i < r.len() implies m@.contains_key(#[trigger] r[i].0) && m@[r[i].0]
            == r[i].1 && lo <= r[i].0 <= hi by {
            let j = choose|j: int| 0 <= j < p.len() && p[j] == #[trigger] r[i];
            assert(pred(r[i]));
            assert(m@.contains_key(*s[j].0) && m@[*s[j].0] == *s[j].1);
        }
        assert forall|k: u32| m@.contains_key(k) && lo <= k <= hi implies exists|i: int|
            0 <= i < r.len() && #[trigger] r[i].0 == k by {
            assert(s.contains((&k, &m@[k])));
            let j = choose|j: int| 0 <= j < s.len() && s[j] == (&k, &m@[k]);
            assert(p[j] == (k, m@[k]));
            assert(pred(p[j]));
            assert(r.contains(p[j]));
        }
    }
    out
}

} // verus!
