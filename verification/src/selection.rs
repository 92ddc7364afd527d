//! A non-empty set of ranges, one primary — Helix's multi-cursor model.

use nonempty::NonEmpty;
use vstd::prelude::*;

use crate::range::Range;

verus! {

#[verifier::external_type_specification]
#[verifier::external_body]
#[verifier::reject_recursive_types(T)]
pub struct ExNonEmpty<T>(NonEmpty<T>);

/// The ranges a non-empty list of ranges holds, first to last.
pub uninterp spec fn range_items(ranges: NonEmpty<Range>) -> Seq<Range>;

/// `NonEmpty::new`: a list holding just `range`.
#[verifier::external_body]
fn ranges_single(range: Range) -> (ranges: NonEmpty<Range>)
    ensures
        range_items(ranges) == seq![range],
{
    NonEmpty::new(range)
}

/// `NonEmpty::first`: the head of the list, which always exists.
#[verifier::external_body]
fn ranges_first(ranges: &NonEmpty<Range>) -> (first: Range)
    ensures
        first == range_items(*ranges)[0],
{
    *ranges.first()
}

/// `NonEmpty::last`: the final element of the list, which always exists.
#[verifier::external_body]
fn ranges_last(ranges: &NonEmpty<Range>) -> (last: Range)
    ensures
        last == range_items(*ranges).last(),
{
    *ranges.last()
}

/// `NonEmpty::last_mut`, writing `range` over the final element.
#[verifier::external_body]
fn ranges_set_last(ranges: &mut NonEmpty<Range>, range: Range)
    ensures
        range_items(*final(ranges)) == range_items(*old(ranges)).update(
            range_items(*old(ranges)).len() - 1,
            range,
        ),
{
    *ranges.last_mut() = range;
}

/// `NonEmpty::push`: append `range` at the end.
#[verifier::external_body]
fn ranges_push(ranges: &mut NonEmpty<Range>, range: Range)
    ensures
        range_items(*final(ranges)) == range_items(*old(ranges)).push(range),
{
    ranges.push(range);
}

/// `NonEmpty::iter`, copied out into a `Vec`: every range, first to last.
#[verifier::external_body]
fn ranges_to_vec(ranges: &NonEmpty<Range>) -> (v: Vec<Range>)
    ensures
        v@ == range_items(*ranges),
        v@.len() >= 1,
{
    ranges.iter().copied().collect()
}

/// A list from its head and (possibly empty) tail — the struct's own public fields.
#[verifier::external_body]
fn ranges_from_parts(head: Range, tail: Vec<Range>) -> (ranges: NonEmpty<Range>)
    ensures
        range_items(ranges) == seq![head] + tail@,
{
    NonEmpty { head, tail }
}

/// `a` sorts no later than `b`: by pitch, then by where it starts.
pub open spec fn key_le(a: Range, b: Range) -> bool {
    a.pitch.0 < b.pitch.0 || (a.pitch.0 == b.pitch.0 && a.start().0 <= b.start().0)
}

/// `r` inserted into the sorted `s` after every range sorting no later than it.
pub open spec fn insert_by_key(s: Seq<Range>, r: Range) -> Seq<Range>
    decreases s.len(),
{
    if s.len() == 0 {
        seq![r]
    } else if key_le(s.last(), r) {
        s.push(r)
    } else {
        insert_by_key(s.drop_last(), r).push(s.last())
    }
}

/// `s` stably sorted by pitch, then start.
pub open spec fn sort_by_key(s: Seq<Range>) -> Seq<Range>
    decreases s.len(),
{
    if s.len() == 0 {
        s
    } else {
        insert_by_key(sort_by_key(s.drop_last()), s.last())
    }
}

/// One step of merging: fold `r` into the last range of `acc` if they touch, else append it.
pub open spec fn merge_step(acc: Seq<Range>, r: Range) -> Seq<Range> {
    if acc.len() > 0 && acc.last().touches(r) {
        acc.update(acc.len() - 1, acc.last().merged(r))
    } else {
        acc.push(r)
    }
}

/// Every range of `s`, in order, each merged into its predecessor when they touch.
pub open spec fn merge_all(s: Seq<Range>) -> Seq<Range>
    decreases s.len(),
{
    if s.len() == 0 {
        s
    } else {
        merge_step(merge_all(s.drop_last()), s.last())
    }
}

proof fn lemma_insert_by_key_split(s: Seq<Range>, r: Range, j: int)
    requires
        0 <= j <= s.len(),
        j == 0 || key_le(s[j - 1], r),
        forall|k: int| j <= k < s.len() ==> !key_le(#[trigger] s[k], r),
    ensures
        insert_by_key(s, r) == s.take(j) + seq![r] + s.skip(j),
    decreases s.len(),
{
    if s.len() == 0 {
        assert(s.take(j) + seq![r] + s.skip(j) =~= seq![r]);
    } else if j == s.len() {
        assert(s.take(j) + seq![r] + s.skip(j) =~= s.push(r));
    } else {
        let t = s.drop_last();
        assert(!key_le(s[s.len() - 1], r));
        lemma_insert_by_key_split(t, r, j);
        assert(t.take(j) + seq![r] + t.skip(j) + seq![s.last()] =~= s.take(j) + seq![r] + s.skip(j));
    }
}

/// `r` placed into the sorted `v`, after everything sorting no later than it.
fn insert_sorted(v: &mut Vec<Range>, r: Range)
    ensures
        final(v)@ == insert_by_key(old(v)@, r),
{
    let mut j: usize = v.len();
    while j > 0 && !key_le_exec(v[j - 1], r)
        invariant
            j <= v.len(),
            forall|k: int| j <= k < v.len() ==> !key_le(#[trigger] v@[k], r),
        decreases j,
    {
        j = j - 1;
    }
    proof {
        lemma_insert_by_key_split(v@, r, j as int);
    }
    v.insert(j, r);
    proof {
        assert(v@ =~= old(v)@.take(j as int) + seq![r] + old(v)@.skip(j as int));
    }
}

fn key_le_exec(a: Range, b: Range) -> (le: bool)
    ensures
        le == key_le(a, b),
{
    a.pitch.0 < b.pitch.0 || (a.pitch.0 == b.pitch.0 && a.start().0 <= b.start().0)
}

/// `v` stably sorted by pitch, then start.
fn sorted_by_key(v: &Vec<Range>) -> (r: Vec<Range>)
    ensures
        r@ == sort_by_key(v@),
{
    let mut out: Vec<Range> = Vec::new();
    let mut i: usize = 0;
    while i < v.len()
        invariant
            i <= v.len(),
            out@ == sort_by_key(v@.take(i as int)),
        decreases v.len() - i,
    {
        proof {
            assert(v@.take(i + 1).drop_last() =~= v@.take(i as int));
        }
        insert_sorted(&mut out, v[i]);
        i = i + 1;
    }
    proof {
        assert(v@.take(v@.len() as int) =~= v@);
    }
    out
}

/// One or more [`Range`]s, always at least one — there's no such thing as an empty selection,
/// there's always a cursor somewhere.
#[derive(Debug, PartialEq, Eq)]
pub struct Selection(pub NonEmpty<Range>);

impl Clone for Selection {
    /// The same ranges, in the same order.
    fn clone(&self) -> (s: Selection)
        ensures
            s@ == self@,
    {
        let ranges = ranges_to_vec(&self.0);
        let head = ranges[0];
        let mut tail: Vec<Range> = Vec::new();
        let mut i: usize = 1;
        while i < ranges.len()
            invariant
                1 <= i <= ranges.len(),
                tail@ == ranges@.subrange(1, i as int),
            decreases ranges.len() - i,
        {
            tail.push(ranges[i]);
            i = i + 1;
            proof {
                assert(tail@ =~= ranges@.subrange(1, i as int));
            }
        }
        let s = Selection(ranges_from_parts(head, tail));
        proof {
            assert(s@ =~= self@);
        }
        s
    }
}

impl View for Selection {
    type V = Seq<Range>;

    open spec fn view(&self) -> Seq<Range> {
        range_items(self.0)
    }
}

impl Selection {
    /// Build a selection containing just this one range.
    pub fn single(range: Range) -> (s: Selection)
        ensures
            s@ == seq![range],
    {
        Selection(ranges_single(range))
    }

    /// Return the primary range: the one shown distinctly, and the one a viewport would keep
    /// scrolled into view.
    pub fn primary(&self) -> (r: Range)
        ensures
            r == self@[0],
    {
        ranges_first(&self.0)
    }

    /// Every range in the selection, primary first.
    pub fn ranges(&self) -> (v: Vec<Range>)
        ensures
            v@ == self@,
            v@.len() >= 1,
    {
        ranges_to_vec(&self.0)
    }

    /// Move every range the same way — how a movement key affects every cursor in a multi-cursor
    /// selection at once, not just the primary one.
    pub fn map<F: Fn(Range) -> Range>(&self, f: F) -> (s: Selection)
        requires
            forall|i: int| 0 <= i < self@.len() ==> call_requires(f, (#[trigger] self@[i],)),
        ensures
            s@.len() == self@.len(),
            forall|i: int| 0 <= i < self@.len() ==> call_ensures(f, (self@[i],), #[trigger] s@[i]),
    {
        let ranges = ranges_to_vec(&self.0);
        proof {
            assert(call_requires(f, (self@[0],)));
        }
        let head = f(ranges[0]);
        let mut tail: Vec<Range> = Vec::new();
        let mut i: usize = 1;
        while i < ranges.len()
            invariant
                1 <= i <= ranges.len(),
                ranges@ == self@,
                forall|k: int| 0 <= k < self@.len() ==> call_requires(f, (#[trigger] self@[k],)),
                tail@.len() == i - 1,
                forall|k: int| 1 <= k < i ==> call_ensures(f, (self@[k],), #[trigger] tail@[k - 1]),
            decreases ranges.len() - i,
        {
            proof {
                assert(call_requires(f, (self@[i as int],)));
            }
            let moved = f(ranges[i]);
            tail.push(moved);
            i = i + 1;
        }
        let s = Selection(ranges_from_parts(head, tail));
        proof {
            assert forall|k: int| 0 <= k < self@.len() implies call_ensures(f, (self@[k],), #[trigger] s@[k]) by {
                if k > 0 {
                    assert(s@[k] == tail@[k - 1]);
                }
            }
        }
        s
    }

    /// Merge any ranges that overlap or touch on the same pitch: sort by pitch then start, then
    /// fold each range into its predecessor whenever they touch.
    ///
    /// Applied whenever the selection changes (see `Editor`'s handling of `SetSelection`), so "no
    /// two ranges in a selection overlap" holds by construction, not by caller discipline.
    pub fn normalized(&self) -> (s: Selection)
        ensures
            s@ == merge_all(sort_by_key(self@)),
            s@.len() >= 1,
            is_sorted_by_key(s@),
            forall|i: int, j: int| 0 <= i < j < s@.len() ==> !s@[i].touches(s@[j]) && !s@[j].touches(s@[i]),
            forall|p: crate::track::Position| covered(s@, p) <==> covered(self@, p),
    {
        let ranges = ranges_to_vec(&self.0);
        let sorted = sorted_by_key(&ranges);
        proof {
            lemma_sort_len(ranges@);
        }
        let mut merged = ranges_single(sorted[0]);
        proof {
            reveal_with_fuel(merge_all, 2);
            assert(sorted@.take(1).drop_last() =~= Seq::<Range>::empty());
        }
        let mut i: usize = 1;
        while i < sorted.len()
            invariant
                1 <= i <= sorted.len(),
                range_items(merged) == merge_all(sorted@.take(i as int)),
            decreases sorted.len() - i,
        {
            let range = sorted[i];
            let last = ranges_last(&merged);
            proof {
                assert(sorted@.take(i + 1).drop_last() =~= sorted@.take(i as int));
            }
            if last.touches(range) {
                ranges_set_last(&mut merged, last.merged(range));
            } else {
                ranges_push(&mut merged, range);
            }
            i = i + 1;
        }
        proof {
            assert(sorted@.take(sorted@.len() as int) =~= sorted@);
            lemma_sort(ranges@);
            lemma_merge(sorted@);
            let o = range_items(merged);
            assert forall|i: int, j: int| 0 <= i < j < o.len() implies !o[i].touches(o[j]) && !o[j].touches(o[i]) by {
                lemma_apart_not_touching(o[i], o[j]);
            }
            lemma_apart_sorted(o);
            assert forall|p: crate::track::Position| covered(sorted@, p) <==> covered(ranges@, p) by {
                if covered(sorted@, p) {
                    let i = choose|i: int| 0 <= i < sorted@.len() && #[trigger] sorted@[i].covers(p);
                    assert(sorted@.contains(sorted@[i]));
                    assert(ranges@.contains(sorted@[i]));
                    let k = choose|k: int| 0 <= k < ranges@.len() && ranges@[k] == sorted@[i];
                    assert(ranges@[k].covers(p));
                }
                if covered(ranges@, p) {
                    let i = choose|i: int| 0 <= i < ranges@.len() && #[trigger] ranges@[i].covers(p);
                    assert(ranges@.contains(ranges@[i]));
                    assert(sorted@.contains(ranges@[i]));
                    let k = choose|k: int| 0 <= k < sorted@.len() && sorted@[k] == ranges@[i];
                    assert(sorted@[k].covers(p));
                }
            }
        }
        Selection(merged)
    }
}

/// `s` is sorted by pitch, then start.
pub open spec fn is_sorted_by_key(s: Seq<Range>) -> bool {
    forall|i: int, j: int| 0 <= i < j < s.len() ==> key_le(#[trigger] s[i], #[trigger] s[j])
}

/// `a` lies wholly before `b` with a gap between them: on a lower pitch, or on the same pitch
/// ending more than one tick before `b` starts.
pub open spec fn apart(a: Range, b: Range) -> bool {
    a.pitch.0 < b.pitch.0 || (a.pitch == b.pitch && a.end().0.saturating_add(1) < b.start().0)
}

/// Some range of `s` covers the cell at `p`.
pub open spec fn covered(s: Seq<Range>, p: crate::track::Position) -> bool {
    exists|i: int| 0 <= i < s.len() && #[trigger] s[i].covers(p)
}

/// Inserting into a sorted sequence keeps it sorted, and adds exactly that one element.
proof fn lemma_insert_sorted(s: Seq<Range>, r: Range)
    requires
        is_sorted_by_key(s),
    ensures
        is_sorted_by_key(insert_by_key(s, r)),
        insert_by_key(s, r).len() == s.len() + 1,
        forall|x: Range|
            #![trigger insert_by_key(s, r).contains(x)]
            #![trigger s.contains(x)]
            insert_by_key(s, r).contains(x) <==> (s.contains(x) || x == r),
    decreases s.len(),
{
    if s.len() > 0 {
        let t = s.drop_last();
        assert(is_sorted_by_key(t)) by {
            assert forall|i: int, j: int| 0 <= i < j < t.len() implies key_le(#[trigger] t[i], #[trigger] t[j]) by {
                assert(t[i] == s[i] && t[j] == s[j]);
            }
        }
        if !key_le(s.last(), r) {
            lemma_insert_sorted(t, r);
            let u = insert_by_key(t, r);
            let full = u.push(s.last());
            assert forall|i: int, j: int| 0 <= i < j < full.len() implies key_le(#[trigger] full[i], #[trigger] full[j]) by {
                if j == full.len() - 1 && i < u.len() {
                    assert(u.contains(u[i]));
                    if u[i] == r {
                    } else {
                        let k = choose|k: int| 0 <= k < t.len() && t[k] == u[i];
                        assert(s[k] == t[k]);
                        assert(key_le(s[k], s[s.len() - 1]));
                    }
                }
            }
            assert forall|x: Range| full.contains(x) <==> (s.contains(x) || x == r) by {
                if s.contains(x) {
                    let k = choose|k: int| 0 <= k < s.len() && s[k] == x;
                    if k < s.len() - 1 {
                        assert(t.contains(t[k]));
                        assert(u.contains(x));
                        let m = choose|m: int| 0 <= m < u.len() && u[m] == x;
                        assert(full[m] == x);
                    } else {
                        assert(full[full.len() - 1] == x);
                    }
                }
                if x == r {
                    assert(u.contains(r));
                    let m = choose|m: int| 0 <= m < u.len() && u[m] == r;
                    assert(full[m] == r);
                }
                if full.contains(x) {
                    let m = choose|m: int| 0 <= m < full.len() && full[m] == x;
                    if m < u.len() {
                        assert(u.contains(u[m]));
                        if u[m] != r {
                            let k = choose|k: int| 0 <= k < t.len() && t[k] == u[m];
                            assert(s[k] == t[k]);
                        }
                    } else {
                        assert(s[s.len() - 1] == x);
                    }
                }
            }
        } else {
            let full = s.push(r);
            assert forall|i: int, j: int| 0 <= i < j < full.len() implies key_le(#[trigger] full[i], #[trigger] full[j]) by {
                if j == full.len() - 1 && i < s.len() - 1 {
                    assert(key_le(s[i], s[s.len() - 1]));
                }
            }
            assert forall|x: Range| full.contains(x) <==> (s.contains(x) || x == r) by {
                if s.contains(x) {
                    let k = choose|k: int| 0 <= k < s.len() && s[k] == x;
                    assert(full[k] == x);
                }
                if x == r {
                    assert(full[full.len() - 1] == r);
                }
                if full.contains(x) {
                    let m = choose|m: int| 0 <= m < full.len() && full[m] == x;
                    if m < s.len() {
                        assert(s[m] == x);
                    }
                }
            }
        }
    } else {
        assert(insert_by_key(s, r) =~= seq![r]);
        assert forall|x: Range| insert_by_key(s, r).contains(x) <==> (s.contains(x) || x == r) by {
            if x == r {
                assert(insert_by_key(s, r)[0] == r);
            }
        }
    }
}

/// Sorting yields a sorted sequence holding exactly the ranges it was given.
pub proof fn lemma_sort(s: Seq<Range>)
    ensures
        is_sorted_by_key(sort_by_key(s)),
        sort_by_key(s).len() == s.len(),
        forall|x: Range|
            #![trigger sort_by_key(s).contains(x)]
            #![trigger s.contains(x)]
            sort_by_key(s).contains(x) <==> s.contains(x),
    decreases s.len(),
{
    if s.len() > 0 {
        let t = s.drop_last();
        lemma_sort(t);
        lemma_insert_sorted(sort_by_key(t), s.last());
        assert forall|x: Range| sort_by_key(s).contains(x) <==> s.contains(x) by {
            if t.contains(x) {
                let k = choose|k: int| 0 <= k < t.len() && t[k] == x;
                assert(s[k] == x);
            }
            if s.contains(x) {
                let k = choose|k: int| 0 <= k < s.len() && s[k] == x;
                if k < s.len() - 1 {
                    assert(t[k] == x);
                }
            }
        }
    } else {
        assert forall|x: Range| sort_by_key(s).contains(x) <==> s.contains(x) by {}
    }
}

/// Merging a sorted sequence: the result's ranges lie apart from one another in order, the last
/// one starts where some range of the input starts, and together they cover exactly the cells
/// the input covers.
proof fn lemma_merge(t: Seq<Range>)
    requires
        is_sorted_by_key(t),
        t.len() >= 1,
    ensures
        merge_all(t).len() >= 1,
        forall|i: int, j: int| 0 <= i < j < merge_all(t).len() ==> apart(#[trigger] merge_all(t)[i], #[trigger] merge_all(t)[j]),
        exists|j: int|
            0 <= j < t.len() && #[trigger] t[j].pitch == merge_all(t).last().pitch && t[j].start()
                == merge_all(t).last().start(),
        forall|p: crate::track::Position|
            #![trigger covered(merge_all(t), p)]
            #![trigger covered(t, p)]
            covered(merge_all(t), p) <==> covered(t, p),
    decreases t.len(),
{
    let o = merge_all(t);
    if t.len() == 1 {
        assert(t.drop_last() =~= Seq::<Range>::empty());
        assert(merge_all(t.drop_last()) =~= Seq::<Range>::empty());
        assert(o =~= seq![t[0]]);
        assert(t[0].pitch == o.last().pitch);
        assert forall|p: crate::track::Position| covered(o, p) <==> covered(t, p) by {
            if covered(t, p) {
                assert(o[0].covers(p));
            }
            if covered(o, p) {
                assert(t[0].covers(p));
            }
        }
    } else {
        let t0 = t.drop_last();
        let r = t.last();
        assert(is_sorted_by_key(t0)) by {
            assert forall|i: int, j: int| 0 <= i < j < t0.len() implies key_le(#[trigger] t0[i], #[trigger] t0[j]) by {
                assert(t0[i] == t[i] && t0[j] == t[j]);
            }
        }
        lemma_merge(t0);
        let o0 = merge_all(t0);
        let last = o0.last();
        let jw = choose|j: int|
            0 <= j < t0.len() && #[trigger] t0[j].pitch == last.pitch && t0[j].start() == last.start();
        assert(t[jw] == t0[jw]);
        assert(key_le(t[jw], t[t.len() - 1]));
        assert(key_le(last, r));
        if last.touches(r) {
            let m = last.merged(r);
            assert(o == o0.update(o0.len() - 1, m));
            assert(m.pitch == last.pitch && m.start() == last.start());
            assert forall|i: int, j: int| 0 <= i < j < o.len() implies apart(#[trigger] o[i], #[trigger] o[j]) by {
                if j == o.len() - 1 {
                    assert(apart(o0[i], o0[j]));
                } else {
                    assert(o[i] == o0[i] && o[j] == o0[j]);
                }
            }
            assert(t[jw].pitch == o.last().pitch && t[jw].start() == o.last().start());
            assert forall|p: crate::track::Position| covered(o, p) <==> covered(t, p) by {
                crate::range::lemma_merged_covers_union(last, r, p);
                if covered(o, p) {
                    let i = choose|i: int| 0 <= i < o.len() && #[trigger] o[i].covers(p);
                    if i == o.len() - 1 {
                        if last.covers(p) {
                            assert(covered(o0, p));
                            let k = choose|k: int| 0 <= k < t0.len() && #[trigger] t0[k].covers(p);
                            assert(t[k] == t0[k]);
                        } else {
                            assert(t[t.len() - 1].covers(p));
                        }
                    } else {
                        assert(o0[i] == o[i]);
                        assert(covered(o0, p));
                        let k = choose|k: int| 0 <= k < t0.len() && #[trigger] t0[k].covers(p);
                        assert(t[k] == t0[k]);
                    }
                }
                if covered(t, p) {
                    let k = choose|k: int| 0 <= k < t.len() && #[trigger] t[k].covers(p);
                    if k == t.len() - 1 {
                        assert(o[o.len() - 1].covers(p));
                    } else {
                        assert(t0[k] == t[k]);
                        assert(covered(t0, p));
                        let i = choose|i: int| 0 <= i < o0.len() && #[trigger] o0[i].covers(p);
                        if i == o0.len() - 1 {
                            assert(o[o.len() - 1].covers(p));
                        } else {
                            assert(o[i] == o0[i]);
                        }
                    }
                }
            }
        } else {
            assert(o == o0.push(r));
            assert(apart(last, r));
            assert forall|i: int, j: int| 0 <= i < j < o.len() implies apart(#[trigger] o[i], #[trigger] o[j]) by {
                if j == o.len() - 1 {
                    if i < o0.len() - 1 {
                        assert(apart(o0[i], o0[o0.len() - 1]));
                    }
                } else {
                    assert(o[i] == o0[i] && o[j] == o0[j]);
                }
            }
            assert(t[t.len() - 1].pitch == o.last().pitch && t[t.len() - 1].start() == o.last().start());
            assert forall|p: crate::track::Position| covered(o, p) <==> covered(t, p) by {
                if covered(o, p) {
                    let i = choose|i: int| 0 <= i < o.len() && #[trigger] o[i].covers(p);
                    if i == o.len() - 1 {
                        assert(t[t.len() - 1].covers(p));
                    } else {
                        assert(o0[i] == o[i]);
                        assert(covered(o0, p));
                        let k = choose|k: int| 0 <= k < t0.len() && #[trigger] t0[k].covers(p);
                        assert(t[k] == t0[k]);
                    }
                }
                if covered(t, p) {
                    let k = choose|k: int| 0 <= k < t.len() && #[trigger] t[k].covers(p);
                    if k == t.len() - 1 {
                        assert(o[o.len() - 1].covers(p));
                    } else {
                        assert(t0[k] == t[k]);
                        assert(covered(t0, p));
                        let i = choose|i: int| 0 <= i < o0.len() && #[trigger] o0[i].covers(p);
                        assert(o[i] == o0[i]);
                    }
                }
            }
        }
    }
}

/// Ranges lying apart in order are sorted by pitch, then start.
proof fn lemma_apart_sorted(s: Seq<Range>)
    requires
        forall|i: int, j: int| 0 <= i < j < s.len() ==> apart(#[trigger] s[i], #[trigger] s[j]),
    ensures
        is_sorted_by_key(s),
{
    assert forall|i: int, j: int| 0 <= i < j < s.len() implies key_le(#[trigger] s[i], #[trigger] s[j]) by {
        assert(apart(s[i], s[j]));
    }
}

/// Sorting a sequence that is already sorted changes nothing.
proof fn lemma_sort_sorted(s: Seq<Range>)
    requires
        is_sorted_by_key(s),
    ensures
        sort_by_key(s) == s,
    decreases s.len(),
{
    if s.len() > 0 {
        let t = s.drop_last();
        assert(is_sorted_by_key(t)) by {
            assert forall|i: int, j: int| 0 <= i < j < t.len() implies key_le(#[trigger] t[i], #[trigger] t[j]) by {
                assert(t[i] == s[i] && t[j] == s[j]);
            }
        }
        lemma_sort_sorted(t);
        if t.len() > 0 {
            assert(key_le(s[t.len() - 1], s[s.len() - 1]));
            assert(t.last() == s[t.len() - 1]);
        }
        assert(t.push(s.last()) =~= s);
    }
}

/// Merging a sequence none of whose neighbours touch changes nothing.
proof fn lemma_merge_apart(s: Seq<Range>)
    requires
        forall|i: int, j: int| 0 <= i < j < s.len() ==> !(#[trigger] s[i]).touches(#[trigger] s[j]),
    ensures
        merge_all(s) == s,
    decreases s.len(),
{
    if s.len() > 0 {
        let t = s.drop_last();
        assert forall|i: int, j: int| 0 <= i < j < t.len() implies !(#[trigger] t[i]).touches(#[trigger] t[j]) by {
            assert(t[i] == s[i] && t[j] == s[j]);
        }
        lemma_merge_apart(t);
        if t.len() > 0 {
            assert(!s[t.len() - 1].touches(s[s.len() - 1]));
            assert(t.last() == s[t.len() - 1]);
        }
        assert(t.push(s.last()) =~= s);
    }
}

/// Normalizing twice changes nothing: a normalized selection is already sorted, with no two
/// ranges touching, so normalizing it again gives it back unchanged.
pub proof fn lemma_normalizing_twice(s: Seq<Range>)
    requires
        s.len() >= 1,
    ensures
        is_sorted_by_key(merge_all(sort_by_key(s))),
        merge_all(sort_by_key(merge_all(sort_by_key(s)))) == merge_all(sort_by_key(s)),
{
    let sorted = sort_by_key(s);
    lemma_sort(s);
    lemma_merge(sorted);
    let o = merge_all(sorted);
    lemma_apart_sorted(o);
    lemma_sort_sorted(o);
    assert forall|i: int, j: int| 0 <= i < j < o.len() implies !(#[trigger] o[i]).touches(#[trigger] o[j]) by {
        lemma_apart_not_touching(o[i], o[j]);
    }
    lemma_merge_apart(o);
}

/// Ranges that lie apart never touch.
pub proof fn lemma_apart_not_touching(a: Range, b: Range)
    requires
        apart(a, b),
    ensures
        !a.touches(b),
        !b.touches(a),
{
}

/// Sorting keeps every element: the sorted sequence is as long as the one it was given.
pub proof fn lemma_sort_len(s: Seq<Range>)
    ensures
        sort_by_key(s).len() == s.len(),
    decreases s.len(),
{
    if s.len() > 0 {
        lemma_sort_len(s.drop_last());
        lemma_insert_len(sort_by_key(s.drop_last()), s.last());
    }
}

proof fn lemma_insert_len(s: Seq<Range>, r: Range)
    ensures
        insert_by_key(s, r).len() == s.len() + 1,
    decreases s.len(),
{
    if s.len() > 0 {
        lemma_insert_len(s.drop_last(), r);
    }
}

} // verus!
