//! The parts of building the beat graph that only look at where branches
//! lead: dropping branches past the last branch point, dropping branches that
//! repeat the previous beat's branch, and how far into the song each beat can
//! still reach. Each branch carries a payload (its similarity distance) that
//! these steps keep as it is.

use vstd::prelude::*;
use crate::jukebox::driver::Branch;

verus! {

/// The branches of `s` whose branch satisfies `p`, in order.
pub open spec fn keep<T>(s: Seq<(Branch, T)>, p: spec_fn(Branch) -> bool) -> Seq<(Branch, T)>
    decreases s.len(),
{
    if s.len() == 0 {
        s
    } else {
        let before = keep(s.drop_last(), p);
        if p(s.last().0) {
            before.push(s.last())
        } else {
            before
        }
    }
}

/// The branches of every beat, as values.
pub open spec fn beats_view<T>(beats: Seq<Vec<(Branch, T)>>) -> Seq<Seq<(Branch, T)>> {
    beats.map_values(|v: Vec<(Branch, T)>| v@)
}

/// Before the last branch point, only branches that stay before it are kept.
pub open spec fn bad_branches_dropped<T>(beats: Seq<Seq<(Branch, T)>>, last_index: usize) -> Seq<Seq<(Branch, T)>> {
    Seq::new(
        beats.len(),
        |i: int|
            if i < last_index {
                keep(beats[i], |b: Branch| b.destination < last_index)
            } else {
                beats[i]
            },
    )
}

/// The branches of `v` that lead before `below`.
fn filtered<T: Copy>(v: &Vec<(Branch, T)>, below: usize) -> (r: Vec<(Branch, T)>)
    ensures
        r@ == keep(v@, |b: Branch| b.destination < below),
{
    let mut out: Vec<(Branch, T)> = Vec::new();
    let mut j: usize = 0;
    while j < v.len()
        invariant
            j <= v@.len(),
            out@ == keep(v@.subrange(0, j as int), |b: Branch| b.destination < below),
        decreases v@.len() - j,
    {
        let e = v[j];
        proof {
            let p = v@.subrange(0, j + 1);
            assert(p.drop_last() =~= v@.subrange(0, j as int));
            assert(p.last() == e);
        }
        if e.0.destination < below {
            out.push(e);
        }
        j = j + 1;
    }
    assert(v@.subrange(0, j as int) =~= v@);
    out
}

/// A copy of the branches of `v`.
fn copied<T: Copy>(v: &Vec<(Branch, T)>) -> (r: Vec<(Branch, T)>)
    ensures
        r@ == v@,
{
    let mut out: Vec<(Branch, T)> = Vec::new();
    let mut j: usize = 0;
    while j < v.len()
        invariant
            j <= v@.len(),
            out@ == v@.subrange(0, j as int),
        decreases v@.len() - j,
    {
        out.push(v[j]);
        j = j + 1;
        assert(out@ =~= v@.subrange(0, j as int));
    }
    out
}

/// Drops, before the last branch point, the branches that lead past it.
pub fn filter_out_bad_branches<T: Copy>(beats: &Vec<Vec<(Branch, T)>>, last_index: usize) -> (r: Vec<Vec<(Branch, T)>>)
    ensures
        beats_view(r@) == bad_branches_dropped(beats_view(beats@), last_index),
{
    let ghost target = bad_branches_dropped(beats_view(beats@), last_index);
    let mut out: Vec<Vec<(Branch, T)>> = Vec::new();
    let mut i: usize = 0;
    while i < beats.len()
        invariant
            i <= beats@.len(),
            target == bad_branches_dropped(beats_view(beats@), last_index),
            beats_view(out@) == target.subrange(0, i as int),
        decreases beats@.len() - i,
    {
        let kept = if i < last_index {
            filtered(&beats[i], last_index)
        } else {
            copied(&beats[i])
        };
        let ghost before = beats_view(out@);
        out.push(kept);
        proof {
            assert(beats_view(beats@)[i as int] == beats@[i as int]@);
            assert(beats_view(out@) =~= before.push(kept@));
            assert(target.subrange(0, i + 1) =~= target.subrange(0, i as int).push(target[i as int]));
        }
        i = i + 1;
    }
    assert(target.subrange(0, i as int) =~= target);
    out
}

/// Whether every beat index and branch destination fits an `i64`.
pub open spec fn indices_fit<T>(beats: Seq<Seq<(Branch, T)>>) -> bool {
    &&& beats.len() <= i64::MAX
    &&& forall|i: int, j: int| 0 <= i < beats.len() && 0 <= j < beats[i].len() ==> (#[trigger] beats[i][j]).0.destination <= i64::MAX
}

/// Whether the branch `e` of beat `b` repeats a branch of the beat before: one
/// that jumps back (or ahead) by as many beats. The first beat and the last
/// branch point never count as repeating.
pub open spec fn repeats_previous<T>(beats: Seq<Seq<(Branch, T)>>, b: int, e: Branch, last_point: usize) -> bool {
    &&& b != last_point
    &&& b != 0
    &&& exists|j: int| 0 <= j < beats[b - 1].len() && (b - 1) - (#[trigger] beats[b - 1][j]).0.destination == b - e.destination
}

/// Every beat but the first with the branches that repeat the previous
/// beat's branch dropped.
pub open spec fn sequential_dropped<T>(beats: Seq<Seq<(Branch, T)>>, last_point: usize) -> Seq<Seq<(Branch, T)>> {
    Seq::new(
        beats.len(),
        |i: int|
            if i >= 1 {
                keep(beats[i], |e: Branch| !repeats_previous(beats, i, e, last_point))
            } else {
                beats[i]
            },
    )
}

/// Whether the branch `e` of beat `b` repeats a branch of the beat before.
pub fn has_sequential_branch<T: Copy>(beats: &Vec<Vec<(Branch, T)>>, b: usize, e: Branch, last_point: usize) -> (r: bool)
    requires
        b < beats@.len(),
        indices_fit(beats_view(beats@)),
        e.destination <= i64::MAX,
    ensures
        r == repeats_previous(beats_view(beats@), b as int, e, last_point),
{
    let ghost bv = beats_view(beats@);
    if b == last_point || b == 0 {
        return false;
    }
    let previous = b - 1;
    let distance: i64 = b as i64 - e.destination as i64;
    let prev = &beats[previous];
    assert(bv[previous as int] == prev@);
    let mut j: usize = 0;
    while j < prev.len()
        invariant
            j <= prev@.len(),
            bv == beats_view(beats@),
            previous == b - 1,
            b != last_point,
            b != 0,
            previous < bv.len(),
            bv[previous as int] == prev@,
            indices_fit(bv),
            distance == b - e.destination,
            forall|k: int| 0 <= k < j ==> (previous as int) - (#[trigger] bv[previous as int][k]).0.destination != distance,
        decreases prev@.len() - j,
    {
        assert(bv[previous as int][j as int] == prev@[j as int]);
        if previous as i64 - prev[j].0.destination as i64 == distance {
            proof {
                let w = bv[b - 1][j as int];
                assert(w.0.destination <= i64::MAX);
                assert((b as int - 1) - w.0.destination == b - e.destination);
            }
            return true;
        }
        j = j + 1;
    }
    false
}

/// Drops, from every beat but the first, the branches that repeat a branch of
/// the beat before.
pub fn filter_out_sequential_branches<T: Copy>(beats: &Vec<Vec<(Branch, T)>>, last_point: usize) -> (r: Vec<Vec<(Branch, T)>>)
    requires
        indices_fit(beats_view(beats@)),
    ensures
        beats_view(r@) == sequential_dropped(beats_view(beats@), last_point),
{
    let ghost bv = beats_view(beats@);
    let ghost target = sequential_dropped(bv, last_point);
    let mut out: Vec<Vec<(Branch, T)>> = Vec::new();
    let mut i: usize = 0;
    while i < beats.len()
        invariant
            i <= beats@.len(),
            bv == beats_view(beats@),
            indices_fit(bv),
            target == sequential_dropped(bv, last_point),
            beats_view(out@) == target.subrange(0, i as int),
        decreases beats@.len() - i,
    {
        let v = &beats[i];
        assert(bv[i as int] == v@);
        let kept = if i >= 1 {
            let ghost p = |e: Branch| !repeats_previous(bv, i as int, e, last_point);
            let mut k: Vec<(Branch, T)> = Vec::new();
            let mut j: usize = 0;
            while j < v.len()
                invariant
                    j <= v@.len(),
                    i < beats@.len(),
                    bv == beats_view(beats@),
                    bv[i as int] == v@,
                    indices_fit(bv),
                    p == (|e: Branch| !repeats_previous(bv, i as int, e, last_point)),
                    k@ == keep(v@.subrange(0, j as int), p),
                decreases v@.len() - j,
            {
                let e = v[j];
                proof {
                    let q = v@.subrange(0, j + 1);
                    assert(q.drop_last() =~= v@.subrange(0, j as int));
                    assert(q.last() == e);
                    assert(bv[i as int][j as int] == e);
                }
                if !has_sequential_branch(beats, i, e.0, last_point) {
                    k.push(e);
                }
                j = j + 1;
            }
            assert(v@.subrange(0, j as int) =~= v@);
            k
        } else {
            copied(v)
        };
        let ghost before = beats_view(out@);
        out.push(kept);
        proof {
            assert(beats_view(out@) =~= before.push(kept@));
            assert(target.subrange(0, i + 1) =~= target.subrange(0, i as int).push(target[i as int]));
        }
        i = i + 1;
    }
    assert(target.subrange(0, i as int) =~= target);
    out
}

/// Whether every branch leads to a beat of the graph.
pub open spec fn destinations_in_range<T>(beats: Seq<Seq<(Branch, T)>>) -> bool {
    forall|i: int, j: int| 0 <= i < beats.len() && 0 <= j < beats[i].len() ==> (#[trigger] beats[i][j]).0.destination < beats.len()
}

/// The reach of beat `b` raised to the reach of each destination of `ns`
/// that reaches further, in order.
pub open spec fn raise_by_branches<T>(r: Seq<i64>, ns: Seq<(Branch, T)>, b: int) -> Seq<i64>
    decreases ns.len(),
{
    if ns.len() == 0 {
        r
    } else {
        let r1 = raise_by_branches(r, ns.drop_last(), b);
        let d = ns.last().0.destination as int;
        if r1[d] > r1[b] {
            r1.update(b, r1[d])
        } else {
            r1
        }
    }
}

/// Every reach before `b` raised to at least the reach of `b`.
pub open spec fn raise_prefix(r: Seq<i64>, b: int) -> Seq<i64> {
    Seq::new(r.len(), |i: int| if i < b && r[i] < r[b] { r[b] } else { r[i] })
}

/// One step of a pass, at beat `b`: its reach raised to that of its branches'
/// destinations and of the next beat; when it rose, every earlier beat raised
/// to it. Also whether it rose.
pub open spec fn pass_beat<T>(r: Seq<i64>, beats: Seq<Seq<(Branch, T)>>, b: int) -> (Seq<i64>, bool) {
    let r1 = raise_by_branches(r, beats[b], b);
    let r2 = if b < beats.len() - 1 && r1[b + 1] > r1[b] {
        r1.update(b, r1[b + 1])
    } else {
        r1
    };
    if r2[b] > r[b] {
        (raise_prefix(r2, b), true)
    } else {
        (r2, false)
    }
}

/// A pass over the beats from `b` on: the reaches, and how many rose.
pub open spec fn pass_from<T>(r: Seq<i64>, beats: Seq<Seq<(Branch, T)>>, b: int) -> (Seq<i64>, nat)
    decreases beats.len() - b,
{
    if b < 0 || b >= beats.len() {
        (r, 0)
    } else {
        let (r1, changed) = pass_beat(r, beats, b);
        let (r2, count) = pass_from(r1, beats, b + 1);
        (r2, count + if changed { 1nat } else { 0nat })
    }
}

/// At most `k` passes, stopping after one in which no reach rose.
pub open spec fn passes<T>(r: Seq<i64>, beats: Seq<Seq<(Branch, T)>>, k: nat) -> Seq<i64>
    decreases k,
{
    if k == 0 {
        r
    } else {
        let (r1, count) = pass_from(r, beats, 0);
        if count == 0 {
            r1
        } else {
            passes(r1, beats, (k - 1) as nat)
        }
    }
}

/// How far into the song each beat can reach, counted in beats from the end:
/// starting from its own distance to the end, raised through its branches and
/// the beats after it, in at most a thousand passes.
pub open spec fn reachability<T>(beats: Seq<Seq<(Branch, T)>>) -> Seq<i64> {
    passes(Seq::new(beats.len(), |i: int| (beats.len() - i) as i64), beats, 1000)
}

proof fn lemma_raise_by_branches<T>(r: Seq<i64>, ns: Seq<(Branch, T)>, b: int, n: int)
    requires
        r.len() == n,
        0 <= b < n,
        forall|j: int| 0 <= j < ns.len() ==> (#[trigger] ns[j]).0.destination < n,
    ensures
        raise_by_branches(r, ns, b).len() == n,
        forall|i: int| 0 <= i < n && i != b ==> raise_by_branches(r, ns, b)[i] == r[i],
        raise_by_branches(r, ns, b)[b] >= r[b],
    decreases ns.len(),
{
    if ns.len() > 0 {
        let t = ns.drop_last();
        assert forall|j: int| 0 <= j < t.len() implies (#[trigger] t[j]).0.destination < n by {
            assert(t[j] == ns[j]);
        }
        assert(ns[ns.len() - 1] == ns.last());
        lemma_raise_by_branches(r, t, b, n);
    }
}

/// A pass never lowers a reach.
proof fn lemma_pass_from_raises<T>(r: Seq<i64>, beats: Seq<Seq<(Branch, T)>>, b: int)
    requires
        r.len() == beats.len(),
        destinations_in_range(beats),
        0 <= b,
    ensures
        pass_from(r, beats, b).0.len() == r.len(),
        forall|i: int| 0 <= i < r.len() ==> pass_from(r, beats, b).0[i] >= r[i],
    decreases beats.len() - b,
{
    if b < beats.len() {
        let n = beats.len() as int;
        assert forall|j: int| 0 <= j < beats[b].len() implies (#[trigger] beats[b][j]).0.destination < n by {
            assert(beats[b][j].0.destination < beats.len());
        }
        lemma_raise_by_branches(r, beats[b], b, n);
        let ra = raise_by_branches(r, beats[b], b);
        let rb = if b < beats.len() - 1 && ra[b + 1] > ra[b] {
            ra.update(b, ra[b + 1])
        } else {
            ra
        };
        assert forall|i: int| 0 <= i < r.len() implies rb[i] >= r[i] by {}
        let (r1, changed) = pass_beat(r, beats, b);
        assert forall|i: int| 0 <= i < r.len() implies r1[i] >= r[i] by {
            if rb[b] > r[b] {
                assert(r1 == raise_prefix(rb, b));
            }
        }
        lemma_pass_from_raises(r1, beats, b + 1);
    }
}

proof fn lemma_passes_raise<T>(r: Seq<i64>, beats: Seq<Seq<(Branch, T)>>, k: nat)
    requires
        r.len() == beats.len(),
        destinations_in_range(beats),
    ensures
        passes(r, beats, k).len() == r.len(),
        forall|i: int| 0 <= i < r.len() ==> passes(r, beats, k)[i] >= r[i],
    decreases k,
{
    if k > 0 {
        lemma_pass_from_raises(r, beats, 0);
        let (r1, count) = pass_from(r, beats, 0);
        lemma_passes_raise(r1, beats, (k - 1) as nat);
    }
}

/// A beat reaches at least as far as its own distance to the end.
pub proof fn lemma_reach_at_least_distance_to_end<T>(beats: Seq<Seq<(Branch, T)>>)
    requires
        beats.len() <= i64::MAX,
        destinations_in_range(beats),
    ensures
        reachability(beats).len() == beats.len(),
        forall|i: int| 0 <= i < beats.len() ==> reachability(beats)[i] >= beats.len() - i,
{
    let r0 = Seq::new(beats.len(), |i: int| (beats.len() - i) as i64);
    lemma_passes_raise(r0, beats, 1000);
    assert forall|i: int| 0 <= i < beats.len() implies reachability(beats)[i] >= beats.len() - i by {
        assert(r0[i] == beats.len() - i);
    }
}

/// How far into the song each beat can reach, counted in beats from the end.
pub fn calculate_reachability<T: Copy>(beats: &Vec<Vec<(Branch, T)>>) -> (r: Vec<i64>)
    requires
        beats@.len() <= i64::MAX,
        destinations_in_range(beats_view(beats@)),
    ensures
        r@ == reachability(beats_view(beats@)),
{
    let ghost bv = beats_view(beats@);
    let n = beats.len();
    let mut reaches: Vec<i64> = Vec::new();
    let mut k: usize = 0;
    while k < n
        invariant
            k <= n,
            n == beats@.len(),
            n <= i64::MAX,
            reaches@ == Seq::new(k as nat, |i: int| (n - i) as i64),
        decreases n - k,
    {
        reaches.push((n - k) as i64);
        k = k + 1;
        assert(reaches@ =~= Seq::new(k as nat, |i: int| (n - i) as i64));
    }
    assert(reaches@ =~= Seq::new(bv.len(), |i: int| (bv.len() - i) as i64));
    let mut iter: usize = 0;
    let mut done = false;
    while iter < 1000 && !done
        invariant
            iter <= 1000,
            n == beats@.len(),
            bv == beats_view(beats@),
            bv.len() == n,
            destinations_in_range(bv),
            reaches@.len() == n,
            !done ==> reachability(bv) == passes(reaches@, bv, (1000 - iter) as nat),
            done ==> reachability(bv) == reaches@,
        decreases 2 * (1000 - iter) + (if done {
            0int
        } else {
            1int
        }),
    {
        let ghost start = reaches@;
        let mut change_count: usize = 0;
        let mut b: usize = 0;
        while b < n
            invariant
                b <= n,
                n == beats@.len(),
                bv == beats_view(beats@),
                bv.len() == n,
                destinations_in_range(bv),
                reaches@.len() == n,
                change_count <= b,
                pass_from(start, bv, 0) == ({
                    let (rb, cb) = pass_from(reaches@, bv, b as int);
                    (rb, (cb + change_count) as nat)
                }),
            decreases n - b,
        {
            let ghost before = reaches@;
            let ns = &beats[b];
            assert(bv[b as int] == ns@);
            let old_reach = reaches[b];
            let mut j: usize = 0;
            while j < ns.len()
                invariant
                    j <= ns@.len(),
                    b < n,
                    n == beats@.len(),
                    bv == beats_view(beats@),
                    bv.len() == n,
                    destinations_in_range(bv),
                    bv[b as int] == ns@,
                    before.len() == n,
                    reaches@ == raise_by_branches(before, ns@.subrange(0, j as int), b as int),
                decreases ns@.len() - j,
            {
                proof {
                    let q = ns@.subrange(0, j + 1);
                    assert(q.drop_last() =~= ns@.subrange(0, j as int));
                    assert(q.last() == ns@[j as int]);
                    assert(bv[b as int][j as int] == ns@[j as int]);
                    assert forall|jj: int| 0 <= jj < ns@.subrange(0, j as int).len() implies (#[trigger] ns@.subrange(
                        0,
                        j as int,
                    )[jj]).0.destination < n by {
                        assert(ns@.subrange(0, j as int)[jj] == bv[b as int][jj]);
                    }
                    lemma_raise_by_branches(before, ns@.subrange(0, j as int), b as int, n as int);
                }
                let d = ns[j].0.destination;
                let nr = reaches[d];
                if nr > reaches[b] {
                    reaches.set(b, nr);
                }
                j = j + 1;
            }
            assert(ns@.subrange(0, j as int) =~= ns@);
            proof {
                assert forall|jj: int| 0 <= jj < ns@.len() implies (#[trigger] ns@[jj]).0.destination < n by {
                    assert(ns@[jj] == bv[b as int][jj]);
                }
                lemma_raise_by_branches(before, ns@, b as int, n as int);
            }
            let ghost r1 = reaches@;
            if b < n - 1 {
                let next = reaches[b + 1];
                if next > reaches[b] {
                    reaches.set(b, next);
                }
            }
            let ghost r2 = reaches@;
            if reaches[b] > old_reach {
                change_count = change_count + 1;
                let top = reaches[b];
                let mut i: usize = 0;
                while i < b
                    invariant
                        i <= b,
                        b < n,
                        reaches@.len() == n,
                        r2.len() == n,
                        top == r2[b as int],
                        reaches@ == Seq::new(
                            n as nat,
                            |k: int| if k < i && r2[k] < r2[b as int] { r2[b as int] } else { r2[k] },
                        ),
                    decreases b - i,
                {
                    if reaches[i] < top {
                        reaches.set(i, top);
                    }
                    i = i + 1;
                    assert(reaches@ =~= Seq::new(
                        n as nat,
                        |k: int| if k < i && r2[k] < r2[b as int] { r2[b as int] } else { r2[k] },
                    ));
                }
                assert(reaches@ =~= raise_prefix(r2, b as int));
            }
            proof {
                assert(old_reach == before[b as int]);
                assert(pass_beat(before, bv, b as int) == (reaches@, r2[b as int] > before[b as int]));
            }
            b = b + 1;
        }
        proof {
            assert(pass_from(reaches@, bv, n as int) == (reaches@, 0nat));
        }
        if change_count == 0 {
            done = true;
        } else {
            iter = iter + 1;
        }
    }
    reaches
}

} // verus!
