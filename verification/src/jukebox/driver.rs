//! The decisions of the jukebox driver that do not depend on time or chance:
//! the xorshift generator's state, and which beat follows which — the
//! rotation through each beat's branches, bouncing, and the anti-loop rules
//! that keep the jukebox from taking the same loop over and over.
//!
//! Whether to branch at all is decided elsewhere, from the branch probability
//! and the clock; this module is told the answer.

use vstd::prelude::*;
use crate::assoc::{entries_map, keys_unique, lemma_entries_absent, lemma_entries_at, lemma_entries_push, lemma_entries_update, lemma_entries_remove};
use crate::jukebox::settings::{AntiLoopSettings, LoopCountMode, LoopCounter, LoopIdentity, LoopSkipAction};

verus! {

/// One step of xorshift64: shifts by 13, 7 and 17.
pub open spec fn xorshift_step(x: u64) -> u64 {
    let a = x ^ (x << 13u64);
    let b = a ^ (a >> 7u64);
    b ^ (b << 17u64)
}

/// A dependency-free xorshift64 pseudo-random generator.
pub struct XorShiftRandom {
    state: u64,
}

impl XorShiftRandom {
    /// The generator's state.
    pub closed spec fn state(&self) -> u64 {
        self.state
    }

    /// A generator seeded with `seed`; the state is made odd, so never zero.
    pub fn new(seed: u64) -> (r: Self)
        ensures
            r.state() == seed | 1,
            r.state() != 0,
    {
        assert(seed | 1 != 0) by (bit_vector);
        XorShiftRandom { state: seed | 1 }
    }

    /// Advances the generator and returns the top 53 bits of the new state.
    pub fn next_bits(&mut self) -> (r: u64)
        ensures
            final(self).state() == xorshift_step(old(self).state()),
            r == xorshift_step(old(self).state()) >> 11u64,
            old(self).state() != 0 ==> final(self).state() != 0,
    {
        let mut x = self.state;
        x = x ^ (x << 13u64);
        x = x ^ (x >> 7u64);
        x = x ^ (x << 17u64);
        proof {
            lemma_xorshift_nonzero(self.state);
        }
        self.state = x;
        x >> 11u64
    }
}

/// The state after `n` steps from `s`.
pub open spec fn state_after(s: u64, n: nat) -> u64
    decreases n,
{
    if n == 0 {
        s
    } else {
        xorshift_step(state_after(s, (n - 1) as nat))
    }
}

/// The first `n` draws of `next_bits` from the state `s`.
pub open spec fn draws(s: u64, n: nat) -> Seq<u64>
    decreases n,
{
    if n == 0 {
        Seq::empty()
    } else {
        draws(s, (n - 1) as nat).push(state_after(s, n) >> 11u64)
    }
}

proof fn lemma_state_after_shift(s: u64, n: nat)
    ensures
        state_after(s, n + 1) == state_after(xorshift_step(s), n),
    decreases n,
{
    assert(state_after(s, 0) == s);
    if n > 0 {
        lemma_state_after_shift(s, (n - 1) as nat);
        assert(state_after(s, n + 1) == xorshift_step(state_after(s, n)));
        assert(state_after(xorshift_step(s), n) == xorshift_step(state_after(xorshift_step(s), (n - 1) as nat)));
    } else {
        assert(state_after(s, 1) == xorshift_step(state_after(s, 0)));
    }
}

/// The draws from a state are its next draw, then the draws from the state
/// after it: so a sequence of `next_bits` calls from the state `s` returns
/// `draws(s, n)`.
pub proof fn lemma_draws_step(s: u64, n: nat)
    ensures
        draws(s, n + 1) == seq![xorshift_step(s) >> 11u64] + draws(xorshift_step(s), n),
    decreases n,
{
    lemma_state_after_shift(s, 0);
    assert(state_after(s, 0) == s);
    if n == 0 {
        assert(draws(s, 0) =~= Seq::<u64>::empty());
        assert(draws(s, 1) == draws(s, 0).push(state_after(s, 1) >> 11u64));
        assert(draws(s, 1) =~= seq![state_after(s, 1) >> 11u64]);
        assert(draws(xorshift_step(s), 0) =~= Seq::<u64>::empty());
    } else {
        lemma_draws_step(s, (n - 1) as nat);
        lemma_state_after_shift(s, n);
        assert(draws(s, n + 1) == draws(s, n).push(state_after(s, n + 1) >> 11u64));
        assert(draws(xorshift_step(s), n) == draws(xorshift_step(s), (n - 1) as nat).push(
            state_after(xorshift_step(s), n) >> 11u64,
        ));
        assert(draws(s, n + 1) =~= seq![xorshift_step(s) >> 11u64] + draws(xorshift_step(s), n));
    }
}

/// Seeding with `seed` or with `seed | 1` gives the same generator, hence
/// the same draws however many are made.
pub proof fn lemma_seed_low_bit_ignored(seed: u64, n: nat)
    ensures
        (seed | 1) | 1 == seed | 1,
        draws(seed | 1, n) == draws((seed | 1) | 1, n),
{
    assert((seed | 1) | 1 == seed | 1) by (bit_vector);
}

/// A step of xorshift64 never reaches zero from a non-zero state.
pub proof fn lemma_xorshift_nonzero(x: u64)
    ensures
        x != 0 ==> xorshift_step(x) != 0,
{
    let a = x ^ (x << 13u64);
    let b = a ^ (a >> 7u64);
    assert(x != 0 ==> a != 0) by (bit_vector)
        requires
            a == x ^ (x << 13u64),
    ;
    assert(a != 0 ==> b != 0) by (bit_vector)
        requires
            b == a ^ (a >> 7u64),
    ;
    assert(b != 0 ==> b ^ (b << 17u64) != 0) by (bit_vector);
}

/// A branch of the beat graph: from one beat to another.
#[derive(Debug, Clone, Copy, PartialEq, Eq, Structural)]
pub struct Branch {
    pub source: usize,
    pub destination: usize,
}

/// What makes branches count as the same loop.
#[derive(Debug, Clone, Copy, PartialEq, Eq, Structural)]
pub enum LoopKey {
    Edge(usize, usize),
    Dest(usize),
    Dist(i64),
}

/// The loop a branch belongs to under `identity`.
pub open spec fn loop_key_spec(b: Branch, identity: LoopIdentity) -> LoopKey {
    match identity {
        LoopIdentity::Edge => LoopKey::Edge(b.source, b.destination),
        LoopIdentity::Destination => LoopKey::Dest(b.destination),
        LoopIdentity::Distance => LoopKey::Dist((b.source - b.destination) as i64),
    }
}

/// The loop a branch belongs to under `identity`.
pub fn loop_key(b: Branch, identity: LoopIdentity) -> (r: LoopKey)
    requires
        b.source <= i64::MAX,
        b.destination <= i64::MAX,
    ensures
        r == loop_key_spec(b, identity),
{
    match identity {
        LoopIdentity::Edge => LoopKey::Edge(b.source, b.destination),
        LoopIdentity::Destination => LoopKey::Dest(b.destination),
        LoopIdentity::Distance => LoopKey::Dist(b.source as i64 - b.destination as i64),
    }
}

/// How often a loop has been taken, by its counts (0 when absent).
pub open spec fn count_of(m: Map<LoopKey, usize>, k: LoopKey) -> int {
    if m.contains_key(k) {
        m[k] as int
    } else {
        0
    }
}

/// The state that the branch picker decides from.
#[verifier::ext_equal]
pub struct PickerView {
    pub anti_loop: AntiLoopSettings,
    pub always_follow_last_branch: bool,
    pub last_branch_point: usize,
    pub neighbours: Seq<Seq<Branch>>,
    pub cursor: Seq<usize>,
    pub counts: Map<LoopKey, usize>,
    pub last_key: Option<LoopKey>,
    pub streak: usize,
    pub last_branch: Option<Branch>,
    pub beats_since_last_branch: usize,
    pub jumps: u64,
    pub bouncing: bool,
    pub bounce_seed: Option<usize>,
    pub bounce_count: u64,
}

/// How often the loop `key` has been taken, as the count mode counts it: in
/// total, or in a row.
pub open spec fn loop_count_spec(v: PickerView, key: LoopKey) -> int {
    match v.anti_loop.count_mode {
        LoopCountMode::Cumulative => count_of(v.counts, key),
        LoopCountMode::Consecutive => if v.last_key == Some(key) {
            v.streak as int
        } else {
            0
        },
    }
}

/// The loop counts after taking branch `e`.
pub open spec fn record_take_spec(v: PickerView, e: Branch) -> PickerView {
    if !v.anti_loop.enabled {
        v
    } else {
        let key = loop_key_spec(e, v.anti_loop.identity);
        match v.anti_loop.count_mode {
            LoopCountMode::Cumulative => PickerView {
                counts: v.counts.insert(key, (count_of(v.counts, key) + 1) as usize),
                ..v
            },
            LoopCountMode::Consecutive => if v.last_key == Some(key) {
                PickerView { streak: (v.streak + 1) as usize, ..v }
            } else {
                PickerView { last_key: Some(key), streak: 1, ..v }
            },
        }
    }
}

/// The loop counts after skipping the loop `key`: its count dropped (reset),
/// or kept (retire, which still ends a streak).
pub open spec fn on_skip_spec(v: PickerView, key: LoopKey) -> PickerView {
    match v.anti_loop.counter {
        LoopCounter::Reset => {
            let w = PickerView { counts: v.counts.remove(key), ..v };
            if w.last_key == Some(key) {
                PickerView { last_key: None, streak: 0, ..w }
            } else {
                w
            }
        },
        LoopCounter::Retire => if v.anti_loop.count_mode == LoopCountMode::Consecutive && v.last_key
            == Some(key) {
            PickerView { last_key: None, streak: 0, ..v }
        } else {
            v
        },
    }
}

/// Taking branch `e`: the destination, the branch remembered and counted.
pub open spec fn take_spec(v: PickerView, e: Branch) -> (usize, PickerView) {
    (
        e.destination,
        record_take_spec(
            PickerView {
                beats_since_last_branch: 0,
                last_branch: Some(e),
                jumps: (v.jumps + 1) as u64,
                ..v
            },
            e,
        ),
    )
}

/// The next branch of `beat` in rotation, and the rotation moved on.
pub open spec fn rotate_spec(v: PickerView, beat: int) -> (Branch, PickerView) {
    let ns = v.neighbours[beat];
    let cur = v.cursor[beat] as int;
    let len = ns.len() as int;
    (ns[cur % len], PickerView { cursor: v.cursor.update(beat, ((cur + 1) % len) as usize), ..v })
}

/// Going through at most `k` more branches of `beat` in rotation: the first
/// one other than `skip` whose loop is under the threshold, if any.
pub open spec fn scan_spec(v: PickerView, beat: int, skip: Branch, k: nat) -> (Option<Branch>, PickerView)
    decreases k,
{
    if k == 0 {
        (None, v)
    } else {
        let (e, w) = rotate_spec(v, beat);
        if e == skip {
            scan_spec(w, beat, skip, (k - 1) as nat)
        } else if loop_count_spec(w, loop_key_spec(e, v.anti_loop.identity)) < v.anti_loop.threshold {
            (Some(e), w)
        } else {
            scan_spec(w, beat, skip, (k - 1) as nat)
        }
    }
}

/// Which beat follows once it is decided to branch from beat `next`: the
/// next branch in rotation, unless anti-loop is on and its loop has reached
/// the threshold; then the last branch point is still followed when it has to
/// be, and otherwise the skip action decides: another branch under the
/// threshold if there is one, else going on to `next` (different else
/// continue) or taking the branch anyway (different only); or simply going on
/// to `next` (continue).
pub open spec fn choose_spec(v: PickerView, next: int) -> (usize, PickerView) {
    let (e, v1) = rotate_spec(v, next);
    let key = loop_key_spec(e, v.anti_loop.identity);
    let len = v.neighbours[next].len();
    if !v.anti_loop.enabled || loop_count_spec(v1, key) < v.anti_loop.threshold {
        take_spec(v1, e)
    } else if next == v.last_branch_point && v.always_follow_last_branch && !v.anti_loop.break_last_branch {
        take_spec(v1, e)
    } else {
        match v.anti_loop.skip_action {
            LoopSkipAction::Continue => (next as usize, on_skip_spec(v1, key)),
            LoopSkipAction::DifferentElseContinue => {
                let (d, v2) = scan_spec(v1, next, e, len);
                match d {
                    Some(d) => take_spec(on_skip_spec(v2, key), d),
                    None => (next as usize, on_skip_spec(v2, key)),
                }
            },
            LoopSkipAction::DifferentOnly => {
                let (d, v2) = scan_spec(v1, next, e, len);
                match d {
                    Some(d) => take_spec(on_skip_spec(v2, key), d),
                    None => take_spec(v2, e),
                }
            },
        }
    }
}

/// The beat that follows beat `next` when the driver gets there: `next`
/// itself without branches or when it is decided not to branch.
pub open spec fn select_spec(v: PickerView, next: int, should_branch: bool) -> (usize, PickerView) {
    if v.neighbours[next].len() == 0 || !should_branch {
        (next as usize, v)
    } else {
        choose_spec(v, next)
    }
}

/// What the driver does next after beat `current`, out of `beat_count`.
#[derive(Debug, Clone, Copy, PartialEq, Eq, Structural)]
pub enum StepPlan {
    /// Play this beat.
    Play(usize),
    /// Beat `0` follows, and has branches: decide whether to branch, then
    /// call `select_random_next_beat`.
    AskBranch(usize),
    /// The song ended.
    End,
}

/// A bounce: towards a branch of `beat` (the next in rotation) and back.
pub open spec fn bounce_spec(v: PickerView, beat: int) -> (usize, PickerView) {
    if v.neighbours[beat].len() == 0 {
        (beat as usize, v)
    } else {
        let (e, w) = rotate_spec(v, beat);
        (e.destination, PickerView { last_branch: Some(e), ..w })
    }
}

/// What follows beat `current` when playing in order: while bouncing,
/// alternately the bounce's seed beat and a branch of it; after bouncing, the
/// seed beat; otherwise the next beat, asking about branching when it has
/// branches, or the end.
pub open spec fn plan_spec(v: PickerView, current: usize, beat_count: usize) -> (StepPlan, PickerView) {
    if v.bouncing {
        let v1 = if v.bounce_seed is None {
            PickerView { bounce_seed: Some(current), bounce_count: 0, ..v }
        } else {
            v
        };
        let seed = v1.bounce_seed->0;
        let (pick, v2) = if v1.bounce_count % 2 == 1 {
            bounce_spec(v1, seed as int)
        } else {
            (seed, v1)
        };
        (StepPlan::Play(pick), PickerView { bounce_count: (v2.bounce_count + 1) as u64, ..v2 })
    } else if v.bounce_seed is Some {
        (StepPlan::Play(v.bounce_seed->0), PickerView { bounce_seed: None, ..v })
    } else if current + 1 >= beat_count {
        (StepPlan::End, v)
    } else if v.neighbours[current + 1].len() == 0 {
        (StepPlan::Play((current + 1) as usize), v)
    } else {
        (StepPlan::AskBranch((current + 1) as usize), v)
    }
}

/// Chooses, for the jukebox driver, the beat that follows: rotates through
/// each beat's branches, bounces, and keeps loop counts for the anti-loop
/// rules.
pub struct BranchPicker {
    anti_loop: AntiLoopSettings,
    always_follow_last_branch: bool,
    last_branch_point: usize,
    neighbours: Vec<Vec<Branch>>,
    cursor: Vec<usize>,
    counts: Vec<(LoopKey, usize)>,
    last_key: Option<LoopKey>,
    streak: usize,
    last_branch: Option<Branch>,
    beats_since_last_branch: usize,
    jumps: u64,
    bouncing: bool,
    bounce_seed: Option<usize>,
    bounce_count: u64,
}

/// The branches of every beat, as values.
pub open spec fn neighbours_view(n: Seq<Vec<Branch>>) -> Seq<Seq<Branch>> {
    n.map_values(|v: Vec<Branch>| v@)
}

impl BranchPicker {
    pub closed spec fn view(&self) -> PickerView {
        PickerView {
            anti_loop: self.anti_loop,
            always_follow_last_branch: self.always_follow_last_branch,
            last_branch_point: self.last_branch_point,
            neighbours: neighbours_view(self.neighbours@),
            cursor: self.cursor@,
            counts: entries_map(self.counts@),
            last_key: self.last_key,
            streak: self.streak,
            last_branch: self.last_branch,
            beats_since_last_branch: self.beats_since_last_branch,
            jumps: self.jumps,
            bouncing: self.bouncing,
            bounce_seed: self.bounce_seed,
            bounce_count: self.bounce_count,
        }
    }

    /// The picker's invariant: a rotation position for every beat, within its
    /// branches; beat and branch indices that fit an `i64`; loop counts kept
    /// once per loop.
    pub closed spec fn wf(&self) -> bool {
        &&& self.cursor@.len() == self.neighbours@.len()
        &&& forall|b: int| 0 <= b < self.cursor@.len() ==> (#[trigger] self.cursor@[b] == 0
            || self.cursor@[b] < self.neighbours@[b]@.len())
        &&& self.neighbours@.len() <= i64::MAX
        &&& forall|b: int, j: int| 0 <= b < self.neighbours@.len() && 0 <= j < self.neighbours@[b]@.len()
            ==> (#[trigger] self.neighbours@[b]@[j]).source <= i64::MAX && self.neighbours@[b]@[j].destination
            <= i64::MAX
        &&& keys_unique(self.counts@)
    }

    /// Whether counting one more take of a loop cannot overflow.
    pub open spec fn counts_have_room(v: PickerView) -> bool {
        &&& forall|k: LoopKey| v.counts.contains_key(k) ==> #[trigger] v.counts[k] < usize::MAX
        &&& v.streak < usize::MAX
    }

    /// Whether counting one more branch, jump or bounce cannot overflow.
    pub open spec fn has_room_spec(v: PickerView) -> bool {
        &&& Self::counts_have_room(v)
        &&& v.jumps < u64::MAX
        &&& v.bounce_count < u64::MAX
        &&& v.beats_since_last_branch < usize::MAX
    }

    /// A picker over the branches of each beat (indices fitting an `i64`),
    /// with the anti-loop settings, the last branch point and whether it is
    /// always followed.
    pub fn new(
        neighbours: Vec<Vec<Branch>>,
        last_branch_point: usize,
        anti_loop: AntiLoopSettings,
        always_follow_last_branch: bool,
    ) -> (r: Self)
        requires
            neighbours@.len() <= i64::MAX,
            forall|b: int, j: int| 0 <= b < neighbours@.len() && 0 <= j < neighbours@[b]@.len()
                ==> (#[trigger] neighbours@[b]@[j]).source <= i64::MAX && neighbours@[b]@[j].destination
                <= i64::MAX,
        ensures
            r.wf(),
            r.view() == (PickerView {
                anti_loop,
                always_follow_last_branch,
                last_branch_point,
                neighbours: neighbours_view(neighbours@),
                cursor: Seq::new(neighbours@.len(), |i: int| 0usize),
                counts: Map::empty(),
                last_key: None,
                streak: 0,
                last_branch: None,
                beats_since_last_branch: 0,
                jumps: 0,
                bouncing: false,
                bounce_seed: None,
                bounce_count: 0,
            }),
    {
        let n = neighbours.len();
        let mut cursor: Vec<usize> = Vec::new();
        let mut i: usize = 0;
        while i < n
            invariant
                i <= n,
                cursor@ == Seq::new(i as nat, |k: int| 0usize),
            decreases n - i,
        {
            cursor.push(0);
            i = i + 1;
            assert(cursor@ =~= Seq::new(i as nat, |k: int| 0usize));
        }
        let r = BranchPicker {
            anti_loop,
            always_follow_last_branch,
            last_branch_point,
            neighbours,
            cursor,
            counts: Vec::new(),
            last_key: None,
            streak: 0,
            last_branch: None,
            beats_since_last_branch: 0,
            jumps: 0,
            bouncing: false,
            bounce_seed: None,
            bounce_count: 0,
        };
        assert(entries_map(r.counts@) =~= Map::<LoopKey, usize>::empty());
        r
    }

    /// Whether counting one more branch, jump or bounce cannot overflow.
    pub fn has_room(&self) -> (r: bool)
        requires
            self.wf(),
        ensures
            r == Self::has_room_spec(self.view()),
    {
        let mut i: usize = 0;
        while i < self.counts.len()
            invariant
                self.wf(),
                i <= self.counts@.len(),
                forall|j: int| 0 <= j < i ==> self.counts@[j].1 < usize::MAX,
            decreases self.counts@.len() - i,
        {
            if self.counts[i].1 == usize::MAX {
                proof {
                    lemma_entries_at(self.counts@, i as int);
                    assert(self.view().counts[self.counts@[i as int].0] == usize::MAX);
                }
                return false;
            }
            i = i + 1;
        }
        proof {
            lemma_counts_bounded(self.counts@);
        }
        self.streak < usize::MAX && self.jumps < u64::MAX && self.bounce_count < u64::MAX
            && self.beats_since_last_branch < usize::MAX
    }

    /// The branch taken last, if any.
    pub fn last_branch(&self) -> (r: Option<Branch>)
        ensures
            r == self.view().last_branch,
    {
        self.last_branch
    }

    /// How many branches were taken.
    pub fn jumps(&self) -> (r: u64)
        ensures
            r == self.view().jumps,
    {
        self.jumps
    }

    /// How many beats were played since the last branch.
    pub fn beats_since_last_branch(&self) -> (r: usize)
        ensures
            r == self.view().beats_since_last_branch,
    {
        self.beats_since_last_branch
    }

    /// Counts one more beat played.
    pub fn note_beat(&mut self)
        requires
            old(self).view().beats_since_last_branch < usize::MAX,
        ensures
            final(self).wf() == old(self).wf(),
            final(self).view() == (PickerView {
                beats_since_last_branch: (old(self).view().beats_since_last_branch + 1) as usize,
                ..old(self).view()
            }),
    {
        self.beats_since_last_branch = self.beats_since_last_branch + 1;
    }

    /// Turns bouncing on or off.
    pub fn set_bouncing(&mut self, bouncing: bool)
        ensures
            final(self).wf() == old(self).wf(),
            final(self).view() == (PickerView { bouncing, ..old(self).view() }),
    {
        self.bouncing = bouncing;
    }

    /// Whether beat `beat` has branches.
    pub fn has_neighbours(&self, beat: usize) -> (r: bool)
        requires
            self.wf(),
            beat < self.view().neighbours.len(),
        ensures
            r == (self.view().neighbours[beat as int].len() > 0),
    {
        proof {
            assert(self.view().neighbours[beat as int] == self.neighbours@[beat as int]@);
        }
        self.neighbours[beat].len() > 0
    }

    /// Sets how often the loop `key` counts as taken (its cumulative count).
    pub fn set_loop_count(&mut self, key: LoopKey, count: usize)
        requires
            old(self).wf(),
        ensures
            final(self).wf(),
            final(self).view() == (PickerView { counts: old(self).view().counts.insert(key, count), ..old(self).view() }),
    {
        let ghost s = self.counts@;
        match self.find_count(key) {
            Some(i) => {
                self.counts.set(i, (key, count));
                proof {
                    lemma_entries_update(s, i as int, count);
                }
            },
            None => {
                proof {
                    lemma_entries_absent(s, key);
                    lemma_entries_push(s, key, count);
                }
                self.counts.push((key, count));
            },
        }
        assert(self.view() =~= (PickerView { counts: old(self).view().counts.insert(key, count), ..old(self).view() }));
    }

    fn find_count(&self, key: LoopKey) -> (r: Option<usize>)
        requires
            keys_unique(self.counts@),
        ensures
            match r {
                Some(i) => i < self.counts@.len() && self.counts@[i as int].0 == key,
                None => forall|j: int| 0 <= j < self.counts@.len() ==> self.counts@[j].0 != key,
            },
    {
        let mut i: usize = 0;
        while i < self.counts.len()
            invariant
                i <= self.counts@.len(),
                forall|j: int| 0 <= j < i ==> self.counts@[j].0 != key,
            decreases self.counts@.len() - i,
        {
            if self.counts[i].0 == key {
                return Some(i);
            }
            i = i + 1;
        }
        None
    }

    /// How often the loop `key` has been taken, as the count mode counts it.
    fn loop_count(&self, key: LoopKey) -> (r: usize)
        requires
            self.wf(),
        ensures
            r == loop_count_spec(self.view(), key),
    {
        match self.anti_loop.count_mode {
            LoopCountMode::Cumulative => match self.find_count(key) {
                Some(i) => {
                    proof {
                        lemma_entries_at(self.counts@, i as int);
                    }
                    self.counts[i].1
                },
                None => {
                    proof {
                        lemma_entries_absent(self.counts@, key);
                    }
                    0
                },
            },
            LoopCountMode::Consecutive => if self.last_key == Some(key) {
                self.streak
            } else {
                0
            },
        }
    }

    /// Counts taking branch `e`.
    fn record_take(&mut self, e: Branch)
        requires
            old(self).wf(),
            Self::counts_have_room(old(self).view()),
            e.source <= i64::MAX,
            e.destination <= i64::MAX,
        ensures
            final(self).wf(),
            final(self).view() == record_take_spec(old(self).view(), e),
    {
        if !self.anti_loop.enabled {
            return;
        }
        let key = loop_key(e, self.anti_loop.identity);
        match self.anti_loop.count_mode {
            LoopCountMode::Cumulative => {
                let ghost s = self.counts@;
                match self.find_count(key) {
                    Some(i) => {
                        proof {
                            lemma_entries_at(s, i as int);
                        }
                        let c = self.counts[i].1;
                        self.counts.set(i, (key, c + 1));
                        proof {
                            lemma_entries_update(s, i as int, (c + 1) as usize);
                        }
                    },
                    None => {
                        proof {
                            lemma_entries_absent(s, key);
                            lemma_entries_push(s, key, 1usize);
                        }
                        self.counts.push((key, 1));
                    },
                }
                assert(self.view() =~= record_take_spec(old(self).view(), e));
            },
            LoopCountMode::Consecutive => {
                if self.last_key == Some(key) {
                    self.streak = self.streak + 1;
                } else {
                    self.last_key = Some(key);
                    self.streak = 1;
                }
            },
        }
    }

    /// Counts skipping the loop `key`.
    fn on_skip(&mut self, key: LoopKey)
        requires
            old(self).wf(),
        ensures
            final(self).wf(),
            final(self).view() == on_skip_spec(old(self).view(), key),
    {
        let consecutive = match self.anti_loop.count_mode {
            LoopCountMode::Consecutive => true,
            LoopCountMode::Cumulative => false,
        };
        match self.anti_loop.counter {
            LoopCounter::Reset => {
                let ghost s = self.counts@;
                match self.find_count(key) {
                    Some(i) => {
                        self.counts.remove(i);
                        proof {
                            lemma_entries_remove(s, i as int);
                        }
                    },
                    None => {
                        proof {
                            lemma_entries_absent(s, key);
                            assert(entries_map(s).remove(key) =~= entries_map(s));
                        }
                    },
                }
                if self.last_key == Some(key) {
                    self.last_key = None;
                    self.streak = 0;
                }
                assert(self.view() =~= on_skip_spec(old(self).view(), key));
            },
            LoopCounter::Retire => {
                if consecutive && self.last_key == Some(key) {
                    self.last_key = None;
                    self.streak = 0;
                }
            },
        }
    }

    /// Commits to branch `e`.
    fn take_branch(&mut self, e: Branch) -> (r: usize)
        requires
            old(self).wf(),
            Self::has_room_spec(old(self).view()),
            e.source <= i64::MAX,
            e.destination <= i64::MAX,
        ensures
            final(self).wf(),
            (r, final(self).view()) == take_spec(old(self).view(), e),
    {
        self.beats_since_last_branch = 0;
        self.last_branch = Some(e);
        self.jumps = self.jumps + 1;
        assert(self.view().counts == old(self).view().counts);
        assert(self.view().streak == old(self).view().streak);
        self.record_take(e);
        e.destination
    }

    /// The next branch of `beat` in rotation.
    fn rotate_neighbour(&mut self, beat: usize) -> (r: Branch)
        requires
            old(self).wf(),
            beat < old(self).view().neighbours.len(),
            old(self).view().neighbours[beat as int].len() > 0,
        ensures
            final(self).wf(),
            (r, final(self).view()) == rotate_spec(old(self).view(), beat as int),
            r.source <= i64::MAX,
            r.destination <= i64::MAX,
    {
        proof {
            assert(self.view().neighbours[beat as int] == self.neighbours@[beat as int]@);
        }
        let len = self.neighbours[beat].len();
        let cur = self.cursor[beat];
        let e = self.neighbours[beat][cur % len];
        let next = if cur < len {
            (cur + 1) % len
        } else {
            (cur % len + 1) % len
        };
        proof {
            if cur >= len {
                assert(cur == 0);
            }
        }
        self.cursor.set(beat, next);
        proof {
            assert(neighbours_view(self.neighbours@) =~= old(self).view().neighbours);
            assert(self.view() =~= rotate_spec(old(self).view(), beat as int).1);
        }
        e
    }

    /// The first branch of `beat` in rotation, other than `skip`, whose loop is
    /// under the threshold; looks at each branch once.
    fn first_under_limit_neighbour(&mut self, beat: usize, skip: Branch) -> (r: Option<Branch>)
        requires
            old(self).wf(),
            beat < old(self).view().neighbours.len(),
            old(self).view().neighbours[beat as int].len() > 0,
        ensures
            final(self).wf(),
            (r, final(self).view()) == scan_spec(
                old(self).view(),
                beat as int,
                skip,
                old(self).view().neighbours[beat as int].len(),
            ),
            r matches Some(e) ==> e.source <= i64::MAX && e.destination <= i64::MAX,
            final(self).view() == (PickerView { cursor: final(self).view().cursor, ..old(self).view() }),
    {
        proof {
            assert(self.view().neighbours[beat as int] == self.neighbours@[beat as int]@);
        }
        let len = self.neighbours[beat].len();
        let threshold = self.anti_loop.threshold;
        let ghost v0 = self.view();
        let mut i: usize = 0;
        while i < len
            invariant
                self.wf(),
                i <= len,
                beat < self.view().neighbours.len(),
                len == self.view().neighbours[beat as int].len(),
                threshold == self.view().anti_loop.threshold,
                self.view().anti_loop == v0.anti_loop,
                v0 == old(self).view(),
                self.view() == (PickerView { cursor: self.view().cursor, ..v0 }),
                scan_spec(v0, beat as int, skip, len as nat) == scan_spec(self.view(), beat as int, skip, (len - i) as nat),
            decreases len - i,
        {
            let ghost before = self.view();
            let ghost k = (len - i) as nat;
            let e = self.rotate_neighbour(beat);
            proof {
                assert(self.view() =~= PickerView { cursor: self.view().cursor, ..v0 });
                assert((e == skip) == (e.source == skip.source && e.destination == skip.destination));
                assert(scan_spec(before, beat as int, skip, k) == (if e == skip {
                    scan_spec(self.view(), beat as int, skip, (k - 1) as nat)
                } else if loop_count_spec(self.view(), loop_key_spec(e, before.anti_loop.identity))
                    < before.anti_loop.threshold {
                    (Some(e), self.view())
                } else {
                    scan_spec(self.view(), beat as int, skip, (k - 1) as nat)
                }));
            }
            i = i + 1;
            if !(e.source == skip.source && e.destination == skip.destination) {
                let key = loop_key(e, self.anti_loop.identity);
                if self.loop_count(key) < threshold {
                    return Some(e);
                }
            }
        }
        None
    }

    /// Which beat follows once it is decided to branch from beat `next`.
    fn choose_branch(&mut self, next: usize) -> (r: usize)
        requires
            old(self).wf(),
            Self::has_room_spec(old(self).view()),
            next < old(self).view().neighbours.len(),
            old(self).view().neighbours[next as int].len() > 0,
        ensures
            final(self).wf(),
            (r, final(self).view()) == choose_spec(old(self).view(), next as int),
    {
        let ghost v = self.view();
        let e = self.rotate_neighbour(next);
        if !self.anti_loop.enabled {
            return self.take_branch(e);
        }
        let key = loop_key(e, self.anti_loop.identity);
        if self.loop_count(key) < self.anti_loop.threshold {
            return self.take_branch(e);
        }
        let forced = next == self.last_branch_point && self.always_follow_last_branch;
        if forced && !self.anti_loop.break_last_branch {
            return self.take_branch(e);
        }
        match self.anti_loop.skip_action {
            LoopSkipAction::DifferentElseContinue => {
                match self.first_under_limit_neighbour(next, e) {
                    Some(d) => {
                        self.on_skip(key);
                        proof {
                            lemma_room_after_skip(v, self.view());
                        }
                        self.take_branch(d)
                    },
                    None => {
                        self.on_skip(key);
                        next
                    },
                }
            },
            LoopSkipAction::Continue => {
                self.on_skip(key);
                next
            },
            LoopSkipAction::DifferentOnly => {
                match self.first_under_limit_neighbour(next, e) {
                    Some(d) => {
                        self.on_skip(key);
                        proof {
                            lemma_room_after_skip(v, self.view());
                        }
                        self.take_branch(d)
                    },
                    None => self.take_branch(e),
                }
            },
        }
    }

    /// The beat that follows when the driver reaches beat `next`: a branch of
    /// it when `should_branch` (decided from the branch probability) and it
    /// has branches, chosen under the anti-loop rules; else `next`.
    pub fn select_random_next_beat(&mut self, next: usize, should_branch: bool) -> (r: usize)
        requires
            old(self).wf(),
            Self::has_room_spec(old(self).view()),
            next < old(self).view().neighbours.len(),
        ensures
            final(self).wf(),
            (r, final(self).view()) == select_spec(old(self).view(), next as int, should_branch),
    {
        if !self.has_neighbours(next) || !should_branch {
            return next;
        }
        self.choose_branch(next)
    }

    /// A bounce from `beat`: the next branch of it in rotation (remembered as
    /// the last branch), or `beat` itself when it has none.
    pub fn select_next_neighbor(&mut self, beat: usize) -> (r: usize)
        requires
            old(self).wf(),
            beat < old(self).view().neighbours.len(),
        ensures
            final(self).wf(),
            (r, final(self).view()) == bounce_spec(old(self).view(), beat as int),
    {
        if !self.has_neighbours(beat) {
            return beat;
        }
        let e = self.rotate_neighbour(beat);
        self.last_branch = Some(e);
        e.destination
    }

    /// What follows beat `current`, out of `beat_count` beats, when playing in
    /// order.
    pub fn plan_step(&mut self, current: usize, beat_count: usize) -> (r: StepPlan)
        requires
            old(self).wf(),
            Self::has_room_spec(old(self).view()),
            current < old(self).view().neighbours.len(),
            beat_count == old(self).view().neighbours.len(),
            old(self).view().bounce_seed matches Some(s) ==> s < old(self).view().neighbours.len(),
        ensures
            final(self).wf(),
            (r, final(self).view()) == plan_spec(old(self).view(), current, beat_count),
    {
        if self.bouncing {
            if self.bounce_seed.is_none() {
                self.bounce_seed = Some(current);
                self.bounce_count = 0;
            }
            let seed = match self.bounce_seed {
                Some(s) => s,
                None => current,
            };
            let pick = if self.bounce_count % 2 == 1 {
                self.select_next_neighbor(seed)
            } else {
                seed
            };
            self.bounce_count = self.bounce_count + 1;
            return StepPlan::Play(pick);
        }
        if let Some(seed) = self.bounce_seed {
            self.bounce_seed = None;
            return StepPlan::Play(seed);
        }
        if current + 1 >= beat_count {
            return StepPlan::End;
        }
        if !self.has_neighbours(current + 1) {
            StepPlan::Play(current + 1)
        } else {
            StepPlan::AskBranch(current + 1)
        }
    }
}

proof fn lemma_counts_bounded(s: Seq<(LoopKey, usize)>)
    requires
        forall|j: int| 0 <= j < s.len() ==> s[j].1 < usize::MAX,
    ensures
        forall|k: LoopKey| entries_map(s).contains_key(k) ==> #[trigger] entries_map(s)[k] < usize::MAX,
    decreases s.len(),
{
    if s.len() > 0 {
        let t = s.drop_last();
        assert forall|j: int| 0 <= j < t.len() implies t[j].1 < usize::MAX by {
            assert(t[j] == s[j]);
        }
        lemma_counts_bounded(t);
        assert(s[s.len() - 1].1 < usize::MAX);
        assert forall|k: LoopKey| entries_map(s).contains_key(k) implies #[trigger] entries_map(s)[k] < usize::MAX by {
            if k != s.last().0 {
                assert(entries_map(t).contains_key(k));
                assert(entries_map(s)[k] == entries_map(t)[k]);
            }
        }
    }
}

proof fn lemma_room_after_skip(before: PickerView, after: PickerView)
    requires
        BranchPicker::has_room_spec(before),
        after.jumps == before.jumps,
        after.bounce_count == before.bounce_count,
        after.beats_since_last_branch == before.beats_since_last_branch,
        after.streak <= before.streak,
        forall|k: LoopKey| after.counts.contains_key(k) ==> before.counts.contains_key(k) && #[trigger] after.counts[k]
            == before.counts[k],
    ensures
        BranchPicker::has_room_spec(after),
{
}

/// A scan that finds a branch finds one other than `skip` whose loop is under
/// the threshold, and moves nothing but the rotation.
proof fn lemma_scan_finds_under_limit(v: PickerView, beat: int, skip: Branch, k: nat)
    requires
        0 <= beat < v.neighbours.len(),
        v.neighbours[beat].len() > 0,
        beat < v.cursor.len(),
    ensures
        scan_spec(v, beat, skip, k).1 == (PickerView { cursor: scan_spec(v, beat, skip, k).1.cursor, ..v }),
        scan_spec(v, beat, skip, k).1.cursor.len() == v.cursor.len(),
        scan_spec(v, beat, skip, k).0 matches Some(d) ==> d != skip && loop_count_spec(
            v,
            loop_key_spec(d, v.anti_loop.identity),
        ) < v.anti_loop.threshold,
    decreases k,
{
    if k > 0 {
        let (e, w) = rotate_spec(v, beat);
        assert(w == (PickerView { cursor: w.cursor, ..v }));
        lemma_scan_finds_under_limit(w, beat, skip, (k - 1) as nat);
        let r = scan_spec(w, beat, skip, (k - 1) as nat);
        assert(r.1 =~= PickerView { cursor: r.1.cursor, ..v });
    } else {
        assert(v =~= PickerView { cursor: v.cursor, ..v });
    }
}

/// With anti-loop on, a branch whose loop has reached the threshold is not
/// taken: the jukebox either takes a branch whose loop is under the threshold
/// or goes on to the next beat. This does not hold of the last branch point
/// when it is always followed and may not be broken, nor of "different only",
/// which takes the branch anyway when no other is under the threshold.
pub proof fn lemma_loops_at_limit_are_not_taken(v: PickerView, next: int)
    requires
        0 <= next < v.neighbours.len(),
        v.neighbours.len() <= usize::MAX,
        v.cursor.len() == v.neighbours.len(),
        v.neighbours[next].len() > 0,
        v.jumps < u64::MAX,
        v.anti_loop.enabled,
        v.anti_loop.skip_action != LoopSkipAction::DifferentOnly,
        !(next == v.last_branch_point && v.always_follow_last_branch && !v.anti_loop.break_last_branch),
    ensures
        ({
            let (r, w) = choose_spec(v, next);
            ||| (r == next && w.jumps == v.jumps)
            ||| (w.jumps == v.jumps + 1 && (w.last_branch matches Some(e) && r == e.destination
                && loop_count_spec(v, loop_key_spec(e, v.anti_loop.identity)) < v.anti_loop.threshold))
        }),
{
    let (e, v1) = rotate_spec(v, next);
    assert(v1 == (PickerView { cursor: v1.cursor, ..v }));
    let key = loop_key_spec(e, v.anti_loop.identity);
    let len = v.neighbours[next].len();
    if loop_count_spec(v1, key) >= v.anti_loop.threshold {
        if v.anti_loop.skip_action == LoopSkipAction::DifferentElseContinue {
            lemma_scan_finds_under_limit(v1, next, e, len);
            let (d, v2) = scan_spec(v1, next, e, len);
            if let Some(d) = d {
                let v3 = on_skip_spec(v2, key);
                assert(v3.jumps == v.jumps);
                assert(loop_count_spec(v1, loop_key_spec(d, v.anti_loop.identity)) == loop_count_spec(
                    v,
                    loop_key_spec(d, v.anti_loop.identity),
                ));
            } else {
                assert(on_skip_spec(v2, key).jumps == v.jumps);
            }
        }
    }
}

} // verus!
