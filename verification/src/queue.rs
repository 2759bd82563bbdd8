//! The play queue: the order in which entries are played, the shuffle order,
//! the currently playing entry and the stable per-entry ids.
//!
//! The queue is a state machine. Its operations change the state and record, in
//! an outbox, the effects that the surrounding player has to carry out (load a
//! track, stop, announce a change to media-control clients). The player drains
//! the outbox after each operation with [`Queue::take_effects`].

use vstd::prelude::*;
use rand::seq::SliceRandom;
use rand::Rng;

verus! {

/// Repeat behaviour of the queue.
#[derive(Clone, Copy, PartialEq, Eq, Debug, Structural)]
pub enum RepeatSetting {
    /// No repetition (persisted as "off").
    Off,
    RepeatPlaylist,
    RepeatTrack,
}

/// Events that the player reports to the queue.
#[derive(Clone, Copy, Debug, PartialEq, Eq, Structural)]
pub enum QueueEvent {
    /// The player asks for the next entry to be preloaded, so that the
    /// transition between entries is uninterrupted.
    PreloadTrackRequest,
}

/// What the player reports as its current state.
#[derive(Clone, Copy, Debug, PartialEq, Eq, Structural)]
pub enum PlayerStatus {
    Playing,
    Paused,
    Stopped,
    FinishedTrack,
}

/// An effect that the player has to carry out after a queue operation.
#[derive(Clone, Copy, Debug, PartialEq, Eq)]
pub enum QueueEffect {
    /// Load the entry at this index and start playing it.
    Load(usize),
    /// Stop the player.
    Stop,
    /// Toggle between playing and paused.
    TogglePlayback,
    /// Preload the entry at this index.
    Preload(usize),
    /// A single entry was added after the entry `after_id` (`None`: at the front).
    TrackAdded { id: u64, after_id: Option<u64> },
    /// The entry with this id was removed.
    TrackRemoved(u64),
    /// The whole list of entries changed.
    TrackListReplaced,
    /// The repeat setting changed.
    LoopStatusChanged,
    /// The shuffle setting changed.
    ShuffleStatusChanged,
}

/// The persisted part of a queue: its entries, the playing entry and the
/// shuffle order, as saved between sessions.
pub struct QueueState<T> {
    pub queue: Vec<T>,
    pub current_track: Option<usize>,
    pub random_order: Option<Vec<usize>>,
}

/// `o` lists every index below `n` exactly once.
pub open spec fn is_index_order(o: Seq<usize>, n: nat) -> bool {
    &&& o.len() == n
    &&& o.no_duplicates()
    &&& forall|i: int| 0 <= i < o.len() ==> #[trigger] o[i] < n
}

/// Every index of `o` that is at least `from` moved up by one.
pub open spec fn shift_up(o: Seq<usize>, from: int) -> Seq<usize> {
    o.map_values(|x: usize| if x >= from { (x + 1) as usize } else { x })
}

/// Every index of `o` that is at least `from` moved up by `k`.
pub open spec fn shift_up_by(o: Seq<usize>, from: int, k: nat) -> Seq<usize> {
    o.map_values(|x: usize| if x >= from { (x + k) as usize } else { x })
}

/// The queue of entries of type `T`.
pub struct Queue<T> {
    queue: Vec<T>,
    random_order: Option<Vec<usize>>,
    current_track: Option<usize>,
    ids: Vec<u64>,
    id_counter: u64,
    repeat: RepeatSetting,
    shuffle: bool,
    effects: Vec<QueueEffect>,
}

impl<T> Queue<T> {
    /// The entries, in queue order.
    pub closed spec fn items(&self) -> Seq<T> {
        self.queue@
    }

    /// The stable ids of the entries, aligned with [`Self::items`].
    pub closed spec fn ids(&self) -> Seq<u64> {
        self.ids@
    }

    /// The shuffle order, as indices into the entries.
    pub closed spec fn order(&self) -> Option<Seq<usize>> {
        match self.random_order {
            Some(o) => Some(o@),
            None => None,
        }
    }

    /// The index of the playing entry.
    pub closed spec fn current(&self) -> Option<usize> {
        self.current_track
    }

    /// The id that the next added entry receives.
    pub closed spec fn counter(&self) -> u64 {
        self.id_counter
    }

    pub closed spec fn repeat(&self) -> RepeatSetting {
        self.repeat
    }

    pub closed spec fn shuffled(&self) -> bool {
        self.shuffle
    }

    /// The effects recorded and not yet taken.
    pub closed spec fn effects(&self) -> Seq<QueueEffect> {
        self.effects@
    }

    pub open spec fn len_spec(&self) -> nat {
        self.items().len()
    }

    /// The queue's invariant: ids are aligned with the entries, unique and
    /// below the counter; the playing index is in range; the shuffle order
    /// exists exactly when shuffle is on, lists every index below its own
    /// length once, and is at least as long as the queue.
    ///
    /// The order can be longer than the queue: removing the last entry while
    /// shuffled keeps the order of the one-entry queue.
    pub open spec fn wf(&self) -> bool {
        &&& self.ids().len() == self.items().len()
        &&& self.ids().no_duplicates()
        &&& forall|i: int| 0 <= i < self.ids().len() ==> #[trigger] self.ids()[i] < self.counter()
        &&& self.current() matches Some(c) ==> c < self.items().len()
        &&& self.order() is Some == self.shuffled()
        &&& self.order() matches Some(o) ==> (is_index_order(o, o.len()) && o.len() >= self.items().len())
    }

    /// The shuffle order, if any, lists exactly the entry indices.
    pub open spec fn order_exact(&self) -> bool {
        self.order() matches Some(o) ==> is_index_order(o, self.items().len())
    }

    /// What playing the entry at `i` does to the playing index.
    pub open spec fn play_current(&self, i: usize) -> Option<usize> {
        if i < self.items().len() { Some(i) } else { self.current() }
    }

    /// The effects of playing the entry at `i`: a load when there is such an entry.
    pub open spec fn play_effects(&self, i: usize) -> Seq<QueueEffect> {
        if i < self.items().len() { seq![QueueEffect::Load(i)] } else { Seq::empty() }
    }

    /// Position in play order of the entry at `index`.
    pub open spec fn order_pos(&self, index: usize) -> int {
        match self.order() {
            Some(o) => o.index_of(index),
            None => index as int,
        }
    }

    /// Entry index at position `p` of the play order.
    pub open spec fn at_order_pos(&self, p: int) -> usize {
        match self.order() {
            Some(o) => o[p],
            None => p as usize,
        }
    }

    /// The entry that plays after the current one, if any.
    pub open spec fn next_index_spec(&self) -> Option<usize> {
        match self.current() {
            None => None,
            Some(c) => {
                let p = self.order_pos(c);
                if p + 1 < self.items().len() {
                    Some(self.at_order_pos(p + 1))
                } else {
                    None
                }
            },
        }
    }

    /// The entry that played before the current one, if any.
    pub open spec fn previous_index_spec(&self) -> Option<usize> {
        match self.current() {
            None => None,
            Some(c) => {
                let p = self.order_pos(c);
                if p > 0 {
                    Some(self.at_order_pos(p - 1))
                } else {
                    None
                }
            },
        }
    }

    /// Whether a persisted state can be taken over as it stands.
    pub open spec fn state_ok(len: nat, current: Option<usize>, order: Option<Seq<usize>>, shuffle: bool) -> bool {
        &&& current matches Some(c) ==> c < len
        &&& order is Some == shuffle
        &&& order matches Some(o) ==> (is_index_order(o, o.len()) && o.len() >= len)
    }

    /// Checks that `order` lists every index below `n` exactly once.
    pub fn check_index_order(order: &Vec<usize>, n: usize) -> (b: bool)
        ensures
            b == is_index_order(order@, n as nat),
    {
        if order.len() != n {
            return false;
        }
        let mut seen: Vec<bool> = Vec::new();
        let mut k: usize = 0;
        while k < n
            invariant
                k <= n,
                seen@.len() == k,
                forall|j: int| 0 <= j < k ==> !#[trigger] seen@[j],
            decreases n - k,
        {
            seen.push(false);
            k = k + 1;
        }
        let mut i: usize = 0;
        while i < n
            invariant
                order@.len() == n,
                seen@.len() == n,
                i <= n,
                forall|a: int| 0 <= a < i ==> #[trigger] order@[a] < n,
                forall|a: int, b: int| 0 <= a < i && 0 <= b < i && a != b ==> order@[a] != order@[b],
                forall|v: int| 0 <= v < n ==> (#[trigger] seen@[v] <==> exists|a: int| 0 <= a < i && order@[a] == v),
            decreases n - i,
        {
            let v = order[i];
            if v >= n {
                return false;
            }
            if seen[v] {
                proof {
                    let a = choose|a: int| 0 <= a < i && order@[a] == v;
                    assert(order@[a] == order@[i as int]);
                }
                return false;
            }
            seen.set(v, true);
            proof {
                assert forall|v2: int| 0 <= v2 < n implies (#[trigger] seen@[v2] <==> exists|a: int| 0 <= a < i + 1 && order@[a] == v2) by {
                    if v2 == v as int {
                        assert(order@[i as int] == v2);
                    } else {
                        if exists|a: int| 0 <= a < i + 1 && order@[a] == v2 {
                            let a = choose|a: int| 0 <= a < i + 1 && order@[a] == v2;
                            assert(a != i);
                        }
                    }
                }
            }
            i = i + 1;
        }
        true
    }

    /// Takes over a persisted queue state. Entry ids are numbered from zero.
    pub fn new(state: QueueState<T>, repeat: RepeatSetting, shuffle: bool) -> (q: Self)
        requires
            Self::state_ok(
                state.queue@.len(),
                state.current_track,
                match state.random_order { Some(o) => Some(o@), None => None },
                shuffle,
            ),
        ensures
            q.wf(),
            q.items() == state.queue@,
            q.current() == state.current_track,
            q.order() == (match state.random_order { Some(o) => Some(o@), None => None::<Seq<usize>> }),
            q.ids() == Seq::new(state.queue@.len(), |i: int| i as u64),
            q.counter() == state.queue@.len(),
            q.repeat() == repeat,
            q.shuffled() == shuffle,
            q.effects() == Seq::<QueueEffect>::empty(),
    {
        let n = state.queue.len();
        let mut ids: Vec<u64> = Vec::new();
        let mut k: usize = 0;
        while k < n
            invariant
                k <= n,
                ids@ == Seq::new(k as nat, |i: int| i as u64),
            decreases n - k,
        {
            ids.push(k as u64);
            k = k + 1;
        }
        Queue {
            queue: state.queue,
            random_order: state.random_order,
            current_track: state.current_track,
            ids,
            id_counter: n as u64,
            repeat,
            shuffle,
            effects: Vec::new(),
        }
    }

    /// Takes over any persisted queue state, repairing what does not fit: a
    /// playing index past the end is dropped; with shuffle off there is no
    /// order; with shuffle on, a stored order that lists every index below its
    /// length once, and covers the entries, is kept, else a new one is drawn
    /// (the playing entry first). A state that fits is taken as it is, as by
    /// `new`.
    pub fn restore(state: QueueState<T>, repeat: RepeatSetting, shuffle: bool) -> (q: Self)
        ensures
            q.wf(),
            q.items() == state.queue@,
            q.ids() == Seq::new(state.queue@.len(), |i: int| i as u64),
            q.counter() == state.queue@.len(),
            q.repeat() == repeat,
            q.shuffled() == shuffle,
            q.effects() == Seq::<QueueEffect>::empty(),
            q.current() == (match state.current_track {
                Some(c) => if c < state.queue@.len() { Some(c) } else { None },
                None => None,
            }),
            !shuffle ==> q.order() is None,
            shuffle ==> match state.random_order {
                Some(o) => if is_index_order(o@, o@.len()) && o@.len() >= state.queue@.len() {
                    q.order() == Some(o@)
                } else {
                    q.fresh_order()
                },
                None => q.fresh_order(),
            },
    {
        let n = state.queue.len();
        let current = match state.current_track {
            Some(c) => if c < n { Some(c) } else { None },
            None => None,
        };
        let kept = if shuffle {
            match state.random_order {
                Some(o) => {
                    let l = o.len();
                    if l >= n && Self::check_index_order(&o, l) {
                        Some(o)
                    } else {
                        None
                    }
                },
                None => None,
            }
        } else {
            None
        };
        let redraw = shuffle && kept.is_none();
        let fits = shuffle && !redraw;
        let mut q = Self::new(
            QueueState { queue: state.queue, current_track: current, random_order: kept },
            repeat,
            fits,
        );
        if redraw {
            q.shuffle = true;
            q.generate_random_order();
        }
        q
    }

    /// Whether the queue satisfies its invariant.
    pub fn is_well_formed(&self) -> (b: bool)
        ensures
            b == self.wf(),
    {
        let n = self.queue.len();
        if self.ids.len() != n {
            return false;
        }
        match self.current_track {
            Some(c) => {
                if c >= n {
                    return false;
                }
            },
            None => {},
        }
        if self.random_order.is_some() != self.shuffle {
            return false;
        }
        match &self.random_order {
            Some(o) => {
                if o.len() < n || !Self::check_index_order(o, o.len()) {
                    return false;
                }
            },
            None => {},
        }
        let mut i: usize = 0;
        while i < n
            invariant
                self.ids@.len() == n,
                i <= n,
                forall|a: int| 0 <= a < i ==> #[trigger] self.ids@[a] < self.id_counter,
                forall|a: int, b: int| 0 <= a < i && 0 <= b < n && a != b ==> self.ids@[a] != self.ids@[b],
            decreases n - i,
        {
            if self.ids[i] >= self.id_counter {
                return false;
            }
            let mut j: usize = 0;
            while j < n
                invariant
                    self.ids@.len() == n,
                    i < n,
                    j <= n,
                    forall|b: int| 0 <= b < j && b != i ==> self.ids@[i as int] != self.ids@[b],
                decreases n - j,
            {
                if j != i && self.ids[j] == self.ids[i] {
                    return false;
                }
                j = j + 1;
            }
            i = i + 1;
        }
        true
    }

    /// Hands out the recorded effects and empties the outbox.
    pub fn take_effects(&mut self) -> (e: Vec<QueueEffect>)
        ensures
            e@ == old(self).effects(),
            final(self).effects() == Seq::<QueueEffect>::empty(),
            final(self).items() == old(self).items(),
            final(self).ids() == old(self).ids(),
            final(self).order() == old(self).order(),
            final(self).current() == old(self).current(),
            final(self).counter() == old(self).counter(),
            final(self).repeat() == old(self).repeat(),
            final(self).shuffled() == old(self).shuffled(),
    {
        let mut e = Vec::new();
        std::mem::swap(&mut e, &mut self.effects);
        e
    }

    /// The number of entries.
    pub fn len(&self) -> (n: usize)
        ensures
            n == self.items().len(),
    {
        self.queue.len()
    }

    /// The entries, in queue order.
    pub fn entries(&self) -> (v: &Vec<T>)
        ensures
            v@ == self.items(),
    {
        &self.queue
    }

    /// The index of the playing entry.
    pub fn get_current_index(&self) -> (r: Option<usize>)
        ensures
            r == self.current(),
    {
        self.current_track
    }

    /// The playing entry.
    pub fn get_current(&self) -> (r: Option<&T>)
        requires
            self.wf(),
        ensures
            match self.current() {
                Some(c) => r == Some(&self.items()[c as int]),
                None => r is None,
            },
    {
        match self.current_track {
            Some(c) => Some(&self.queue[c]),
            None => None,
        }
    }

    /// The stable id of the entry at `index`, if any.
    pub fn id_for_index(&self, index: usize) -> (r: Option<u64>)
        requires
            self.wf(),
        ensures
            r == (if index < self.ids().len() { Some(self.ids()[index as int]) } else { None }),
    {
        if index < self.ids.len() {
            Some(self.ids[index])
        } else {
            None
        }
    }

    /// The index of the entry with stable id `id`, if it is still present.
    pub fn index_for_id(&self, id: u64) -> (r: Option<usize>)
        ensures
            match r {
                Some(i) => i < self.ids().len() && self.ids()[i as int] == id
                    && forall|j: int| 0 <= j < i ==> self.ids()[j] != id,
                None => !self.ids().contains(id),
            },
    {
        let mut i: usize = 0;
        while i < self.ids.len()
            invariant
                i <= self.ids@.len(),
                forall|j: int| 0 <= j < i ==> self.ids@[j] != id,
            decreases self.ids@.len() - i,
        {
            if self.ids[i] == id {
                return Some(i);
            }
            i = i + 1;
        }
        None
    }

    /// All entry ids in queue order.
    pub fn track_ids(&self) -> (v: Vec<u64>)
        ensures
            v@ == self.ids(),
    {
        self.ids.clone()
    }

    /// The current repeat behaviour.
    pub fn get_repeat(&self) -> (r: RepeatSetting)
        ensures
            r == self.repeat(),
    {
        self.repeat
    }

    /// Whether shuffle is on.
    pub fn get_shuffle(&self) -> (b: bool)
        ensures
            b == self.shuffled(),
    {
        self.shuffle
    }

    /// The shuffle order.
    pub fn get_random_order(&self) -> (r: Option<Vec<usize>>)
        ensures
            match r {
                Some(v) => self.order() == Some(v@),
                None => self.order() is None,
            },
    {
        match &self.random_order {
            Some(o) => Some(o.clone()),
            None => None,
        }
    }
}


/// A sequence of distinct indices below `n` has at most `n` entries.
pub proof fn lemma_distinct_bounded_len(s: Seq<usize>, n: nat)
    requires
        s.no_duplicates(),
        forall|i: int| 0 <= i < s.len() ==> #[trigger] s[i] < n,
    ensures
        s.len() <= n,
    decreases n,
{
    if n == 0 {
        if s.len() > 0 {
            assert(s[0] < n);
        }
    } else {
        let top = (n - 1) as usize;
        if s.contains(top) {
            let k = choose|k: int| 0 <= k < s.len() && s[k] == top;
            let t = s.remove(k);
            assert forall|i: int| 0 <= i < t.len() implies #[trigger] t[i] < (n - 1) as nat by {
                if i < k {
                    assert(t[i] == s[i]);
                    assert(s[i] != s[k]);
                } else {
                    assert(t[i] == s[i + 1]);
                    assert(s[i + 1] != s[k]);
                }
            }
            assert(t.no_duplicates()) by {
                assert forall|a: int, b: int| 0 <= a < t.len() && 0 <= b < t.len() && a != b implies t[a] != t[b] by {
                    let a2 = if a < k { a } else { a + 1 };
                    let b2 = if b < k { b } else { b + 1 };
                    assert(t[a] == s[a2]);
                    assert(t[b] == s[b2]);
                }
            }
            lemma_distinct_bounded_len(t, (n - 1) as nat);
        } else {
            assert forall|i: int| 0 <= i < s.len() implies #[trigger] s[i] < (n - 1) as nat by {
                assert(s[i] != top);
            }
            lemma_distinct_bounded_len(s, (n - 1) as nat);
        }
    }
}

/// An order that lists every index below `n` once contains each of them.
pub proof fn lemma_index_order_contains(o: Seq<usize>, n: nat, c: usize)
    requires
        is_index_order(o, n),
        c < n,
    ensures
        o.contains(c),
{
    if !o.contains(c) {
        let t = o.map_values(|x: usize| if x > c { (x - 1) as usize } else { x });
        assert forall|i: int| 0 <= i < t.len() implies #[trigger] t[i] < (n - 1) as nat by {
            assert(o[i] < n);
            assert(o[i] != c);
        }
        assert(t.no_duplicates()) by {
            assert forall|a: int, b: int| 0 <= a < t.len() && 0 <= b < t.len() && a != b implies t[a] != t[b] by {
                assert(o[a] != o[b]);
                assert(o[a] != c);
                assert(o[b] != c);
            }
        }
        lemma_distinct_bounded_len(t, (n - 1) as nat);
    }
}

/// In a sequence without duplicates, the index of an element is its position.
pub proof fn lemma_index_of_unique(o: Seq<usize>, k: int)
    requires
        o.no_duplicates(),
        0 <= k < o.len(),
    ensures
        o.index_of(o[k]) == k,
{
    let j = o.index_of(o[k]);
    assert(0 <= j < o.len() && o[j] == o[k]);
}

/// Two sequences with the same multiset: distinctness and membership carry over.
proof fn lemma_same_multiset<A>(a: Seq<A>, b: Seq<A>)
    requires
        a.to_multiset() == b.to_multiset(),
        a.no_duplicates(),
    ensures
        b.no_duplicates(),
        b.len() == a.len(),
        forall|x: A| b.contains(x) <==> a.contains(x),
{
    broadcast use vstd::seq_lib::group_to_multiset_ensures;
    a.lemma_multiset_has_no_duplicates();
    b.lemma_multiset_has_no_duplicates_conv();
    assert(a.len() == a.to_multiset().len());
    assert(b.len() == b.to_multiset().len());
    assert forall|x: A| b.contains(x) <==> a.contains(x) by {
        vstd::seq_lib::to_multiset_contains(a, x);
        vstd::seq_lib::to_multiset_contains(b, x);
    }
}

/// First position of `x` in `o`.
fn position_of(o: &Vec<usize>, x: usize) -> (r: usize)
    requires
        o@.contains(x),
    ensures
        r < o@.len(),
        o@[r as int] == x,
        forall|j: int| 0 <= j < r ==> o@[j] != x,
{
    let mut i: usize = 0;
    while i < o.len()
        invariant
            i <= o@.len(),
            o@.contains(x),
            forall|j: int| 0 <= j < i ==> o@[j] != x,
        decreases o@.len() - i,
    {
        if o[i] == x {
            return i;
        }
        i = i + 1;
    }
    proof {
        let k = choose|k: int| 0 <= k < o@.len() && o@[k] == x;
        assert(o@[k] != x);
    }
    0
}

/// Shuffles `v` in place with the thread-local generator of `rand`.
#[verifier::external_body]
fn shuffle_in_place(v: &mut Vec<usize>)
    ensures
        final(v)@.to_multiset() == old(v)@.to_multiset(),
{
    v.shuffle(&mut rand::rng());
}

/// A uniformly drawn index below `n`, from the thread-local generator of `rand`.
#[verifier::external_body]
fn random_below(n: usize) -> (r: usize)
    requires
        n > 0,
    ensures
        r < n,
{
    rand::rng().random_range(0..n)
}

/// Whether at least one entry is playable.
pub open spec fn any_playable(p: Seq<bool>) -> bool {
    exists|i: int| 0 <= i < p.len() && p[i]
}

fn any_true(p: &[bool]) -> (b: bool)
    ensures
        b == any_playable(p@),
{
    let mut i: usize = 0;
    while i < p.len()
        invariant
            i <= p@.len(),
            forall|j: int| 0 <= j < i ==> !p@[j],
        decreases p@.len() - i,
    {
        if p[i] {
            return true;
        }
        i = i + 1;
    }
    false
}

impl<T> Queue<T> {
    /// Everything but the playing index, the shuffle order and the outbox is unchanged.
    pub open spec fn same_entries(&self, other: &Self) -> bool {
        &&& self.items() == other.items()
        &&& self.ids() == other.ids()
        &&& self.counter() == other.counter()
        &&& self.repeat() == other.repeat()
        &&& self.shuffled() == other.shuffled()
    }

    /// A freshly drawn shuffle order: every entry index once, the playing
    /// entry (if any) first.
    pub open spec fn fresh_order(&self) -> bool {
        &&& self.order() matches Some(o)
        &&& is_index_order(o, self.items().len())
        &&& self.current() matches Some(c) ==> o[0] == c
    }

    /// The entry `next` would play, if any.
    pub open spec fn next_target(&self, manual: bool, playable: Seq<bool>) -> Option<usize> {
        if self.repeat() == RepeatSetting::RepeatTrack && !manual {
            match self.current() {
                Some(c) => if playable[c as int] { Some(c) } else { None },
                None => None,
            }
        } else {
            match self.next_index_spec() {
                Some(i) => Some(i),
                None => if self.repeat() == RepeatSetting::RepeatPlaylist && self.items().len() > 0
                    && any_playable(playable) {
                    Some(self.at_order_pos(0))
                } else {
                    None
                },
            }
        }
    }

    /// `next` turns "repeat track" into "repeat playlist" when skipping manually.
    pub open spec fn next_leaves_repeat_track(&self, manual: bool) -> bool {
        self.repeat() == RepeatSetting::RepeatTrack && manual && self.next_index_spec() is Some
    }

    /// The effects `next` records.
    pub open spec fn next_effects(&self, manual: bool, playable: Seq<bool>) -> Seq<QueueEffect> {
        match self.next_target(manual, playable) {
            Some(i) => if self.next_leaves_repeat_track(manual) {
                self.play_effects(i).push(QueueEffect::LoopStatusChanged)
            } else {
                self.play_effects(i)
            },
            None => if self.repeat() == RepeatSetting::RepeatTrack && !manual {
                Seq::empty()
            } else {
                seq![QueueEffect::Stop]
            },
        }
    }

    /// The entry `previous` would play, if any.
    pub open spec fn previous_target(&self) -> Option<usize> {
        match self.previous_index_spec() {
            Some(i) => Some(i),
            None => if self.repeat() == RepeatSetting::RepeatPlaylist && self.items().len() > 0 {
                Some(self.at_order_pos(self.items().len() - 1))
            } else {
                self.current()
            },
        }
    }

    proof fn lemma_current_in_order(&self)
        requires
            self.wf(),
        ensures
            self.current() matches Some(c) ==> (self.order() matches Some(o) ==> o.contains(c)
                && 0 <= o.index_of(c) < o.len() && o[o.index_of(c)] == c),
    {
        if let Some(c) = self.current() {
            if let Some(o) = self.order() {
                lemma_index_order_contains(o, o.len(), c);
            }
        }
    }

    /// Position in play order of the playing entry `c`.
    fn current_pos(&self, c: usize) -> (p: usize)
        requires
            self.wf(),
            self.current() == Some(c),
        ensures
            p as int == self.order_pos(c),
            self.order() matches Some(o) ==> p < o.len(),
            self.order() is None ==> p == c,
    {
        proof { self.lemma_current_in_order(); }
        match &self.random_order {
            Some(o) => {
                let p = position_of(o, c);
                proof { lemma_index_of_unique(o@, p as int); }
                p
            },
            None => c,
        }
    }

    fn at_pos(&self, p: usize) -> (i: usize)
        requires
            self.wf(),
            self.order() matches Some(o) ==> p < o.len(),
        ensures
            i == self.at_order_pos(p as int),
            self.order_exact() && p < self.items().len() ==> i < self.items().len(),
    {
        match &self.random_order {
            Some(o) => o[p],
            None => p,
        }
    }

    /// The index of the entry that plays after the current one, if any.
    pub fn next_index(&self) -> (r: Option<usize>)
        requires
            self.wf(),
        ensures
            r == self.next_index_spec(),
            self.order_exact() ==> (r matches Some(i) ==> i < self.items().len()),
    {
        match self.current_track {
            Some(c) => {
                let p = self.current_pos(c);
                if p < self.queue.len() - 1 {
                    Some(self.at_pos(p + 1))
                } else {
                    None
                }
            },
            None => None,
        }
    }

    /// The index of the entry that played before the current one, if any.
    pub fn previous_index(&self) -> (r: Option<usize>)
        requires
            self.wf(),
        ensures
            r == self.previous_index_spec(),
            self.order_exact() ==> (r matches Some(i) ==> i < self.items().len()),
    {
        match self.current_track {
            Some(c) => {
                let p = self.current_pos(c);
                if p > 0 {
                    Some(self.at_pos(p - 1))
                } else {
                    None
                }
            },
            None => None,
        }
    }

    /// Draws a new shuffle order: the playing entry first, the others in random order.
    fn generate_random_order(&mut self)
        requires
            old(self).current() matches Some(c) ==> c < old(self).items().len(),
        ensures
            final(self).same_entries(old(self)),
            final(self).current() == old(self).current(),
            final(self).effects() == old(self).effects(),
            final(self).fresh_order(),
    {
        let n = self.queue.len();
        let mut random: Vec<usize> = Vec::new();
        let mut k: usize = 0;
        while k < n
            invariant
                k <= n,
                random@ == Seq::new(k as nat, |i: int| i as usize),
            decreases n - k,
        {
            random.push(k);
            k = k + 1;
        }
        let mut order: Vec<usize> = Vec::new();
        let ghost before = random@;
        assert(before.no_duplicates());
        match self.current_track {
            Some(c) => {
                order.push(c);
                random.remove(c);
            },
            None => {},
        }
        let ghost r1 = random@;
        assert(r1.no_duplicates());
        assert(forall|x: usize| r1.contains(x) ==> x < n && (self.current_track matches Some(c) ==> x != c));
        shuffle_in_place(&mut random);
        proof { lemma_same_multiset(r1, random@); }
        let ghost head = order@;
        let mut j: usize = 0;
        while j < random.len()
            invariant
                j <= random@.len(),
                order@ == head + random@.subrange(0, j as int),
            decreases random@.len() - j,
        {
            order.push(random[j]);
            j = j + 1;
        }
        proof {
            assert(random@.subrange(0, random@.len() as int) == random@);
            let o = order@;
            assert(o.len() == n);
            assert forall|i: int| 0 <= i < o.len() implies #[trigger] o[i] < n by {
                if i >= head.len() {
                    assert(random@.contains(random@[i - head.len()]));
                }
            }
            assert forall|a: int, b: int| 0 <= a < o.len() && 0 <= b < o.len() && a != b implies o[a] != o[b] by {
                if a >= head.len() && b >= head.len() {
                } else if a < head.len() && b >= head.len() {
                    assert(random@.contains(random@[b - head.len()]));
                } else if b < head.len() && a >= head.len() {
                    assert(random@.contains(random@[a - head.len()]));
                }
            }
        }
        self.random_order = Some(order);
    }

    /// Plays the entry at `index` if there is one; reshuffles afterwards if asked and shuffle is on.
    fn play_index(&mut self, index: usize, reshuffle: bool)
        requires
            old(self).wf(),
        ensures
            final(self).wf(),
            final(self).same_entries(old(self)),
            final(self).current() == (if index < old(self).items().len() { Some(index) } else { old(self).current() }),
            final(self).effects() == old(self).effects() + (if index < old(self).items().len() {
                seq![QueueEffect::Load(index)]
            } else {
                Seq::<QueueEffect>::empty()
            }),
            reshuffle && old(self).shuffled() ==> final(self).fresh_order(),
            !(reshuffle && old(self).shuffled()) ==> final(self).order() == old(self).order(),
    {
        if index < self.queue.len() {
            self.effects.push(QueueEffect::Load(index));
            self.current_track = Some(index);
        }
        if reshuffle && self.shuffle {
            self.generate_random_order();
        }
    }

    /// Plays the entry at `index`.
    ///
    /// `reshuffle`: draw a new shuffle order afterwards (when shuffle is on).
    /// `shuffle_index`: when shuffle is on and the queue is not empty, `index`
    /// is ignored and an index is drawn at random.
    pub fn play(&mut self, index: usize, reshuffle: bool, shuffle_index: bool)
        requires
            old(self).wf(),
        ensures
            final(self).wf(),
            final(self).same_entries(old(self)),
            reshuffle && old(self).shuffled() ==> final(self).fresh_order(),
            !(reshuffle && old(self).shuffled()) ==> final(self).order() == old(self).order(),
            ({
                let n = old(self).items().len();
                if n > 0 && shuffle_index && old(self).shuffled() {
                    exists|i: usize| i < n && final(self).current() == Some(i)
                        && final(self).effects() == old(self).effects().push(QueueEffect::Load(i))
                } else if index < n {
                    final(self).current() == Some(index)
                        && final(self).effects() == old(self).effects().push(QueueEffect::Load(index))
                } else {
                    final(self).current() == old(self).current()
                        && final(self).effects() == old(self).effects()
                }
            }),
    {
        let mut index = index;
        let n = self.queue.len();
        if n > 0 && shuffle_index && self.shuffle {
            index = random_below(n);
        }
        self.play_index(index, reshuffle);
        proof {
            if index < n {
                assert(self.effects() == old(self).effects().push(QueueEffect::Load(index)));
            } else {
                assert(self.effects() == old(self).effects());
            }
        }
    }

    /// Stops playback: no entry is playing any more.
    pub fn stop(&mut self)
        requires
            old(self).wf(),
        ensures
            final(self).wf(),
            final(self).same_entries(old(self)),
            final(self).order() == old(self).order(),
            final(self).current() is None,
            final(self).effects() == old(self).effects().push(QueueEffect::Stop),
    {
        self.current_track = None;
        self.effects.push(QueueEffect::Stop);
    }

    /// Plays the next entry. `manual`: the user asked for it, so "repeat track"
    /// does not hold the current entry. `playable[i]` tells whether entry `i` can be played.
    pub fn next(&mut self, manual: bool, playable: &[bool])
        requires
            old(self).wf(),
            playable@.len() == old(self).items().len(),
        ensures
            final(self).wf(),
            final(self).items() == old(self).items(),
            final(self).ids() == old(self).ids(),
            final(self).counter() == old(self).counter(),
            final(self).shuffled() == old(self).shuffled(),
            final(self).order() == old(self).order(),
            final(self).repeat() == (if old(self).next_leaves_repeat_track(manual) {
                RepeatSetting::RepeatPlaylist
            } else {
                old(self).repeat()
            }),
            final(self).current() == (match old(self).next_target(manual, playable@) {
                Some(i) => old(self).play_current(i),
                None => old(self).current(),
            }),
            final(self).effects() == old(self).effects() + old(self).next_effects(manual, playable@),
    {
        let ghost s0 = *self;
        let repeat = self.repeat;
        if repeat == RepeatSetting::RepeatTrack && !manual {
            match self.current_track {
                Some(c) => {
                    if playable[c] {
                        self.play_index(c, false);
                    }
                },
                None => {},
            }
        } else {
            match self.next_index() {
                Some(i) => {
                    self.play_index(i, false);
                    if repeat == RepeatSetting::RepeatTrack && manual {
                        self.set_repeat(RepeatSetting::RepeatPlaylist);
                    }
                },
                None => {
                    let n = self.queue.len();
                    if repeat == RepeatSetting::RepeatPlaylist && n > 0 && any_true(playable) {
                        let first = self.at_pos(0);
                        self.play_index(first, false);
                    } else {
                        self.effects.push(QueueEffect::Stop);
                    }
                },
            }
        }
        proof {
            assert(self.effects() =~= s0.effects() + s0.next_effects(manual, playable@));
        }
    }

    /// Plays the previous entry; with "repeat playlist" wraps to the last one,
    /// otherwise restarts the current entry.
    pub fn previous(&mut self)
        requires
            old(self).wf(),
        ensures
            final(self).wf(),
            final(self).same_entries(old(self)),
            final(self).order() == old(self).order(),
            final(self).current() == (match old(self).previous_target() {
                Some(i) => old(self).play_current(i),
                None => old(self).current(),
            }),
            final(self).effects() == old(self).effects() + (match old(self).previous_target() {
                Some(i) => old(self).play_effects(i),
                None => Seq::<QueueEffect>::empty(),
            }),
    {
        let ghost s0 = *self;
        let n = self.queue.len();
        match self.previous_index() {
            Some(i) => self.play_index(i, false),
            None => {
                if self.repeat == RepeatSetting::RepeatPlaylist && n > 0 {
                    let last = self.at_pos(n - 1);
                    self.play_index(last, false);
                } else {
                    match self.current_track {
                        Some(c) => self.play_index(c, false),
                        None => {},
                    }
                }
            },
        }
        proof {
            assert(self.effects() =~= s0.effects() + (match s0.previous_target() {
                Some(i) => s0.play_effects(i),
                None => Seq::<QueueEffect>::empty(),
            }));
        }
    }

    /// Sets the repeat behaviour.
    pub fn set_repeat(&mut self, new: RepeatSetting)
        ensures
            final(self).items() == old(self).items(),
            final(self).ids() == old(self).ids(),
            final(self).counter() == old(self).counter(),
            final(self).shuffled() == old(self).shuffled(),
            final(self).order() == old(self).order(),
            final(self).current() == old(self).current(),
            final(self).repeat() == new,
            final(self).effects() == old(self).effects().push(QueueEffect::LoopStatusChanged),
            old(self).wf() ==> final(self).wf(),
    {
        self.repeat = new;
        self.effects.push(QueueEffect::LoopStatusChanged);
    }

    /// Turns shuffle on (drawing a fresh order) or off (dropping the order).
    pub fn set_shuffle(&mut self, new: bool)
        requires
            old(self).wf(),
        ensures
            final(self).wf(),
            final(self).items() == old(self).items(),
            final(self).ids() == old(self).ids(),
            final(self).counter() == old(self).counter(),
            final(self).repeat() == old(self).repeat(),
            final(self).current() == old(self).current(),
            final(self).shuffled() == new,
            new ==> final(self).fresh_order(),
            !new ==> final(self).order() is None,
            final(self).effects() == old(self).effects().push(QueueEffect::ShuffleStatusChanged),
    {
        self.shuffle = new;
        if new {
            self.generate_random_order();
        } else {
            self.random_order = None;
        }
        self.effects.push(QueueEffect::ShuffleStatusChanged);
    }

    /// Handles an event of the player.
    pub fn handle_event(&mut self, event: QueueEvent)
        requires
            old(self).wf(),
        ensures
            final(self).wf(),
            final(self).same_entries(old(self)),
            final(self).order() == old(self).order(),
            final(self).current() == old(self).current(),
            final(self).effects() == old(self).effects() + (match old(self).next_index_spec() {
                Some(i) => seq![QueueEffect::Preload(i)],
                None => Seq::<QueueEffect>::empty(),
            }),
    {
        match event {
            QueueEvent::PreloadTrackRequest => {
                match self.next_index() {
                    Some(i) => self.effects.push(QueueEffect::Preload(i)),
                    None => {},
                }
            },
        }
        proof {
            assert(self.effects() =~= old(self).effects() + (match old(self).next_index_spec() {
                Some(i) => seq![QueueEffect::Preload(i)],
                None => Seq::<QueueEffect>::empty(),
            }));
        }
    }

    /// Toggles playback. When stopped, plays the next entry if there is one,
    /// otherwise starts from the first entry.
    pub fn toggleplayback(&mut self, status: PlayerStatus, playable: &[bool])
        requires
            old(self).wf(),
            playable@.len() == old(self).items().len(),
        ensures
            final(self).wf(),
            final(self).items() == old(self).items(),
            final(self).ids() == old(self).ids(),
            final(self).order() == old(self).order(),
            match status {
                PlayerStatus::Playing | PlayerStatus::Paused => {
                    &&& final(self).same_entries(old(self))
                    &&& final(self).current() == old(self).current()
                    &&& final(self).effects() == old(self).effects().push(QueueEffect::TogglePlayback)
                },
                PlayerStatus::Stopped => if old(self).next_index_spec() is Some {
                    &&& final(self).repeat() == old(self).repeat()
                    &&& final(self).current() == (match old(self).next_target(false, playable@) {
                        Some(i) => old(self).play_current(i),
                        None => old(self).current(),
                    })
                    &&& final(self).effects() == old(self).effects() + old(self).next_effects(false, playable@)
                } else {
                    &&& final(self).same_entries(old(self))
                    &&& final(self).current() == (if old(self).items().len() > 0 { Some(0usize) } else { old(self).current() })
                    &&& final(self).effects() == old(self).effects() + (if old(self).items().len() > 0 {
                        seq![QueueEffect::Load(0)]
                    } else {
                        Seq::<QueueEffect>::empty()
                    })
                },
                PlayerStatus::FinishedTrack => {
                    &&& final(self).same_entries(old(self))
                    &&& final(self).current() == old(self).current()
                    &&& final(self).effects() == old(self).effects()
                },
            },
    {
        match status {
            PlayerStatus::Playing | PlayerStatus::Paused => {
                self.effects.push(QueueEffect::TogglePlayback);
            },
            PlayerStatus::Stopped => {
                match self.next_index() {
                    Some(_) => self.next(false, playable),
                    None => self.play_index(0, false),
                }
            },
            PlayerStatus::FinishedTrack => {},
        }
    }
}


/// Moving indices up from `from` and placing `from` at `pos` keeps an order
/// that lists every index below its length once.
proof fn lemma_shift_insert(o: Seq<usize>, from: usize, pos: int)
    requires
        is_index_order(o, o.len()),
        from <= o.len(),
        0 <= pos <= o.len(),
        o.len() <= usize::MAX,
    ensures
        is_index_order(shift_up(o, from as int).insert(pos, from), o.len() + 1),
{
    let t = shift_up(o, from as int);
    let r = t.insert(pos, from);
    assert forall|i: int| 0 <= i < t.len() implies #[trigger] t[i] < o.len() + 1 && t[i] != from by {
        assert(o[i] < o.len());
    }
    assert forall|i: int| 0 <= i < r.len() implies #[trigger] r[i] < o.len() + 1 by {
        if i < pos {
            assert(r[i] == t[i]);
        } else if i > pos {
            assert(r[i] == t[i - 1]);
        }
    }
    assert forall|a: int, b: int| 0 <= a < r.len() && 0 <= b < r.len() && a != b implies r[a] != r[b] by {
        let a2 = if a < pos { a } else { a - 1 };
        let b2 = if b < pos { b } else { b - 1 };
        if a != pos && b != pos {
            assert(r[a] == t[a2]);
            assert(r[b] == t[b2]);
            assert(o[a2] != o[b2]);
        } else if a == pos {
            assert(r[b] == t[b2]);
        } else {
            assert(r[a] == t[a2]);
        }
    }
}

/// Where `shift` moves the entry at index `v`.
pub open spec fn shift_index(v: usize, from: usize, to: usize) -> usize {
    if v == from {
        to
    } else if from < to && from < v && v <= to {
        (v - 1) as usize
    } else if from > to && to <= v && v < from {
        (v + 1) as usize
    } else {
        v
    }
}

/// Removing the element at `from` and inserting it at `to` moves the element
/// at index `v` to `shift_index(v, from, to)`.
proof fn lemma_shift_moves<A>(s: Seq<A>, from: usize, to: usize, v: usize)
    requires
        from < s.len(),
        to < s.len(),
        v < s.len(),
    ensures
        shift_index(v, from, to) < s.len(),
        s.remove(from as int).insert(to as int, s[from as int])[shift_index(v, from, to) as int] == s[v as int],
{
}

/// `shift_index` is a bijection on the indices below `m`.
proof fn lemma_shift_order(o: Seq<usize>, from: usize, to: usize, n: nat)
    requires
        is_index_order(o, o.len()),
        from < n,
        to < n,
        n <= o.len(),
    ensures
        is_index_order(o.map_values(|v: usize| shift_index(v, from, to)), o.len()),
{
    let t = o.map_values(|v: usize| shift_index(v, from, to));
    assert forall|i: int| 0 <= i < t.len() implies #[trigger] t[i] < o.len() by {
        assert(o[i] < o.len());
    }
    assert forall|a: int, b: int| 0 <= a < t.len() && 0 <= b < t.len() && a != b implies t[a] != t[b] by {
        assert(o[a] != o[b]);
    }
}

impl<T> Queue<T> {
    /// `next` is the queue with `track` inserted at `idx`: a fresh id, the
    /// shuffle order and the playing index moved along, and the addition announced.
    pub open spec fn inserted_at(&self, next: &Self, idx: int, track: T) -> bool {
        &&& next.items() == self.items().insert(idx, track)
        &&& next.ids() == self.ids().insert(idx, self.counter())
        &&& next.counter() == self.counter() + 1
        &&& next.repeat() == self.repeat()
        &&& next.shuffled() == self.shuffled()
        &&& next.order() == (match self.order() {
            Some(o) => Some(shift_up(o, idx).push(idx as usize)),
            None => None,
        })
        &&& next.current() == (match self.current() {
            Some(c) => Some(if c >= idx { (c + 1) as usize } else { c }),
            None => None,
        })
        &&& next.effects() == self.effects().push(QueueEffect::TrackAdded {
            id: self.counter(),
            after_id: if idx > 0 { Some(self.ids()[idx - 1]) } else { None },
        })
    }

    /// `next` is the queue with `track` appended at the end.
    pub open spec fn appended(&self, next: &Self, track: T) -> bool {
        &&& next.items() == self.items().push(track)
        &&& next.ids() == self.ids().push(self.counter())
        &&& next.counter() == self.counter() + 1
        &&& next.repeat() == self.repeat()
        &&& next.shuffled() == self.shuffled()
        &&& next.current() == self.current()
        &&& next.order() == (match self.order() {
            Some(o) => Some(o.push(o.len() as usize)),
            None => None,
        })
        &&& next.effects() == self.effects().push(QueueEffect::TrackAdded {
            id: self.counter(),
            after_id: if self.items().len() > 0 { Some(self.ids().last()) } else { None },
        })
    }

    proof fn lemma_fresh_id_keeps_ids(ids: Seq<u64>, counter: u64, idx: int)
        requires
            ids.no_duplicates(),
            forall|i: int| 0 <= i < ids.len() ==> #[trigger] ids[i] < counter,
            0 <= idx <= ids.len(),
            counter < u64::MAX,
        ensures
            ids.insert(idx, counter).no_duplicates(),
            forall|i: int| 0 <= i < ids.len() + 1 ==> #[trigger] ids.insert(idx, counter)[i] < counter + 1,
    {
        let r = ids.insert(idx, counter);
        assert forall|i: int| 0 <= i < ids.len() + 1 implies #[trigger] r[i] < counter + 1 by {
            if i < idx {
                assert(r[i] == ids[i]);
            } else if i > idx {
                assert(r[i] == ids[i - 1]);
            }
        }
        assert forall|a: int, b: int| 0 <= a < r.len() && 0 <= b < r.len() && a != b implies r[a] != r[b] by {
            let a2 = if a < idx { a } else { a - 1 };
            let b2 = if b < idx { b } else { b - 1 };
            if a != idx && b != idx {
                assert(r[a] == ids[a2]);
                assert(r[b] == ids[b2]);
            } else if a == idx {
                assert(r[b] == ids[b2]);
            } else {
                assert(r[a] == ids[a2]);
            }
        }
    }

    fn shift_order_up(o: &mut Vec<usize>, from: usize)
        requires
            forall|i: int| 0 <= i < old(o)@.len() ==> #[trigger] old(o)@[i] < usize::MAX,
        ensures
            final(o)@ == shift_up(old(o)@, from as int),
    {
        let ghost o0 = o@;
        let mut i: usize = 0;
        while i < o.len()
            invariant
                i <= o@.len(),
                o@.len() == o0.len(),
                forall|j: int| 0 <= j < o0.len() ==> #[trigger] o0[j] < usize::MAX,
                forall|j: int| 0 <= j < i ==> o@[j] == shift_up(o0, from as int)[j],
                forall|j: int| i <= j < o@.len() ==> o@[j] == o0[j],
            decreases o@.len() - i,
        {
            let v = o[i];
            assert(v == o0[i as int]);
            assert(o0[i as int] < usize::MAX);
            if v >= from {
                o.set(i, v + 1);
            }
            i = i + 1;
        }
        assert(o@ =~= shift_up(o0, from as int));
    }

    /// Adds `track` at the end of the queue.
    pub fn append(&mut self, track: T)
        requires
            old(self).wf(),
            old(self).counter() < u64::MAX,
        ensures
            final(self).wf(),
            old(self).appended(final(self), track),
            old(self).order_exact() ==> final(self).order_exact(),
    {
        let id = self.id_counter;
        self.id_counter = self.id_counter + 1;
        let ghost ids0 = self.ids@;
        match &mut self.random_order {
            Some(order) => {
                let l = order.len();
                order.push(l);
            },
            None => {},
        }
        let after_id = if self.ids.len() > 0 { Some(self.ids[self.ids.len() - 1]) } else { None };
        self.queue.push(track);
        self.ids.push(id);
        proof {
            Self::lemma_fresh_id_keeps_ids(ids0, id, ids0.len() as int);
            assert(ids0.insert(ids0.len() as int, id) =~= ids0.push(id));
            if let Some(o) = old(self).order() {
                let o2 = o.push(o.len() as usize);
                assert forall|i: int| 0 <= i < o2.len() implies #[trigger] o2[i] < o2.len() by {
                    if i < o.len() {
                        assert(o[i] < o.len());
                    }
                }
            }
        }
        self.effects.push(QueueEffect::TrackAdded { id, after_id });
    }

    /// Inserts `track` at `index` (clamped to the length of the queue) and
    /// returns the new entry's id.
    pub fn insert_at(&mut self, index: usize, track: T) -> (id: u64)
        requires
            old(self).wf(),
            old(self).counter() < u64::MAX,
        ensures
            final(self).wf(),
            id == old(self).counter(),
            old(self).inserted_at(
                final(self),
                if index < old(self).items().len() { index as int } else { old(self).items().len() as int },
                track,
            ),
            old(self).order_exact() ==> final(self).order_exact(),
    {
        let id = self.id_counter;
        let n = self.queue.len();
        let index = if index < n { index } else { n };
        let ghost ids0 = self.ids@;
        if let Some(mut order) = self.random_order.take() {
            let ghost o0 = order@;
            let l = order.len();
            proof {
                assert forall|i: int| 0 <= i < order@.len() implies #[trigger] order@[i] < usize::MAX by {
                    assert(order@[i] < order@.len());
                }
            }
            Self::shift_order_up(&mut order, index);
            order.push(index);
            proof {
                lemma_shift_insert(o0, index, o0.len() as int);
                assert(shift_up(o0, index as int).insert(o0.len() as int, index) =~= order@);
            }
            self.random_order = Some(order);
        }
        self.queue.insert(index, track);
        let after_id = if index > 0 { Some(self.ids[index - 1]) } else { None };
        self.ids.insert(index, id);
        self.id_counter = self.id_counter + 1;
        match self.current_track {
            Some(c) => {
                if c >= index {
                    self.current_track = Some(c + 1);
                }
            },
            None => {},
        }
        proof {
            Self::lemma_fresh_id_keeps_ids(ids0, id, index as int);
        }
        self.effects.push(QueueEffect::TrackAdded { id, after_id });
        id
    }

    /// Inserts `track` right after the playing entry, taking the shuffle order
    /// into account; without a playing entry, appends it.
    pub fn insert_after_current(&mut self, track: T)
        requires
            old(self).wf(),
            old(self).counter() < u64::MAX,
        ensures
            final(self).wf(),
            old(self).order_exact() ==> final(self).order_exact(),
            match old(self).current() {
                None => old(self).appended(final(self), track),
                Some(c) => {
                    &&& final(self).items() == old(self).items().insert(c + 1, track)
                    &&& final(self).ids() == old(self).ids().insert(c + 1, old(self).counter())
                    &&& final(self).counter() == old(self).counter() + 1
                    &&& final(self).repeat() == old(self).repeat()
                    &&& final(self).shuffled() == old(self).shuffled()
                    &&& final(self).current() == old(self).current()
                    &&& final(self).order() == (match old(self).order() {
                        Some(o) => Some(shift_up(o, c + 1).insert(o.index_of(c) + 1, (c + 1) as usize)),
                        None => None,
                    })
                    &&& final(self).effects() == old(self).effects().push(QueueEffect::TrackAdded {
                        id: old(self).counter(),
                        after_id: Some(old(self).ids()[c as int]),
                    })
                },
            },
    {
        let index = match self.current_track {
            Some(c) => c,
            None => {
                self.append(track);
                return;
            },
        };
        proof { self.lemma_current_in_order(); }
        let n = self.queue.len();
        assert(index < n);
        let id = self.id_counter;
        let ghost ids0 = self.ids@;
        if let Some(mut order) = self.random_order.take() {
            let ghost o0 = order@;
            let l = order.len();
            let next_i = position_of(&order, index);
            proof {
                lemma_index_of_unique(o0, next_i as int);
                assert forall|i: int| 0 <= i < order@.len() implies #[trigger] order@[i] < usize::MAX by {
                    assert(order@[i] < order@.len());
                }
            }
            Self::shift_order_up(&mut order, index + 1);
            order.insert(next_i + 1, index + 1);
            proof {
                lemma_shift_insert(o0, (index + 1) as usize, next_i + 1);
            }
            self.random_order = Some(order);
        }
        self.queue.insert(index + 1, track);
        self.ids.insert(index + 1, id);
        self.id_counter = self.id_counter + 1;
        proof {
            Self::lemma_fresh_id_keeps_ids(ids0, id, index + 1);
        }
        let after_id = Some(self.ids[index]);
        self.effects.push(QueueEffect::TrackAdded { id, after_id });
    }

    /// Inserts `track` right after the entry with id `after_id` (`None`: at the
    /// front) and returns the index it was inserted at; `None` when `after_id`
    /// is no longer in the queue.
    pub fn insert_after_id(&mut self, after_id: Option<u64>, track: T) -> (r: Option<usize>)
        requires
            old(self).wf(),
            old(self).counter() < u64::MAX,
        ensures
            final(self).wf(),
            old(self).order_exact() ==> final(self).order_exact(),
            match after_id {
                None => r == Some(0usize) && old(self).inserted_at(final(self), 0, track),
                Some(aid) => if old(self).ids().contains(aid) {
                    &&& r matches Some(i)
                    &&& 0 < i <= old(self).ids().len()
                    &&& old(self).ids()[i - 1] == aid
                    &&& old(self).inserted_at(final(self), i as int, track)
                } else {
                    &&& r is None
                    &&& *final(self) == *old(self)
                },
            },
    {
        let index = match after_id {
            None => 0,
            Some(aid) => match self.index_for_id(aid) {
                Some(pos) => {
                    let l = self.ids.len();
                    pos + 1
                },
                None => return None,
            },
        };
        self.insert_at(index, track);
        Some(index)
    }

    /// Plays the entry with id `id`; nothing when it is no longer in the queue.
    pub fn play_by_id(&mut self, id: u64)
        requires
            old(self).wf(),
        ensures
            final(self).wf(),
            final(self).same_entries(old(self)),
            final(self).order() == old(self).order(),
            if old(self).ids().contains(id) {
                exists|i: int| 0 <= i < old(self).ids().len() && old(self).ids()[i] == id
                    && final(self).current() == Some(i as usize)
                    && final(self).effects() == old(self).effects().push(QueueEffect::Load(i as usize))
            } else {
                &&& final(self).current() == old(self).current()
                &&& final(self).effects() == old(self).effects()
            },
    {
        match self.index_for_id(id) {
            Some(i) => {
                self.play_index(i, false);
                assert(self.effects() == old(self).effects().push(QueueEffect::Load(i)));
            },
            None => {},
        }
    }

    /// Removes all entries and stops playback. A shuffle order is emptied, not dropped.
    pub fn clear(&mut self)
        requires
            old(self).wf(),
        ensures
            final(self).wf(),
            final(self).order_exact(),
            final(self).items() == Seq::<T>::empty(),
            final(self).ids() == Seq::<u64>::empty(),
            final(self).counter() == old(self).counter(),
            final(self).repeat() == old(self).repeat(),
            final(self).shuffled() == old(self).shuffled(),
            final(self).current() is None,
            final(self).order() == (match old(self).order() {
                Some(o) => Some(Seq::<usize>::empty()),
                None => None,
            }),
            final(self).effects() == old(self).effects().push(QueueEffect::Stop).push(QueueEffect::TrackListReplaced),
    {
        self.stop();
        self.queue.clear();
        self.ids.clear();
        match &mut self.random_order {
            Some(o) => o.clear(),
            None => {},
        }
        self.effects.push(QueueEffect::TrackListReplaced);
    }

    /// Moves the entry at `from` to `to`. The shuffle order keeps pointing at
    /// the same entries, and the playing index follows the playing entry
    /// (also when the moved entry passes over it).
    pub fn shift(&mut self, from: usize, to: usize)
        requires
            old(self).wf(),
            from < old(self).items().len(),
            to < old(self).items().len(),
        ensures
            final(self).wf(),
            old(self).order_exact() ==> final(self).order_exact(),
            final(self).items() == old(self).items().remove(from as int).insert(to as int, old(self).items()[from as int]),
            final(self).ids() == old(self).ids().remove(from as int).insert(to as int, old(self).ids()[from as int]),
            final(self).counter() == old(self).counter(),
            final(self).repeat() == old(self).repeat(),
            final(self).shuffled() == old(self).shuffled(),
            final(self).order() == (match old(self).order() {
                Some(o) => Some(o.map_values(|v: usize| shift_index(v, from, to))),
                None => None,
            }),
            final(self).current() == (match old(self).current() {
                Some(c) => Some(shift_index(c, from, to)),
                None => None,
            }),
            final(self).effects() == old(self).effects().push(QueueEffect::TrackListReplaced),
    {
        let ghost ids0 = self.ids@;
        let item = self.queue.remove(from);
        self.queue.insert(to, item);
        let id = self.ids.remove(from);
        self.ids.insert(to, id);
        proof {
            broadcast use vstd::seq_lib::group_to_multiset_ensures;
            let r = self.ids@;
            assert(r.to_multiset() =~= ids0.to_multiset());
            lemma_same_multiset(ids0, r);
            assert forall|i: int| 0 <= i < r.len() implies #[trigger] r[i] < self.id_counter by {
                assert(r.contains(r[i]));
            }
        }
        match &mut self.random_order {
            Some(order) => {
                let ghost o0 = order@;
                let mut i: usize = 0;
                while i < order.len()
                    invariant
                        i <= order@.len(),
                        order@.len() == o0.len(),
                        forall|j: int| 0 <= j < i ==> order@[j] == shift_index(o0[j], from, to),
                        forall|j: int| i <= j < order@.len() ==> order@[j] == o0[j],
                    decreases order@.len() - i,
                {
                    let v = order[i];
                    let w = if v == from {
                        to
                    } else if from < to && v > from && v <= to {
                        v - 1
                    } else if from > to && v >= to && v < from {
                        v + 1
                    } else {
                        v
                    };
                    order.set(i, w);
                    i = i + 1;
                }
                proof {
                    assert(order@ =~= o0.map_values(|v: usize| shift_index(v, from, to)));
                    lemma_shift_order(o0, from, to, self.queue@.len());
                }
            },
            None => {},
        }
        match self.current_track {
            Some(index) => {
                if index == from {
                    self.current_track = Some(to);
                } else if from < to && index > from && index <= to {
                    self.current_track = Some(index - 1);
                } else if from > to && index >= to && index < from {
                    self.current_track = Some(index + 1);
                }
            },
            None => {},
        }
        self.effects.push(QueueEffect::TrackListReplaced);
    }
}


fn any_true_except(p: &[bool], skip: usize) -> (b: bool)
    requires
        skip < p@.len(),
    ensures
        b == any_playable(p@.remove(skip as int)),
{
    let mut i: usize = 0;
    while i < p.len()
        invariant
            skip < p@.len(),
            i <= p@.len(),
            forall|j: int| 0 <= j < i && j != skip ==> !p@[j],
        decreases p@.len() - i,
    {
        if i != skip && p[i] {
            proof {
                let r = p@.remove(skip as int);
                let k = if i < skip { i as int } else { i - 1 };
                assert(r[k] == p@[i as int]);
            }
            return true;
        }
        i = i + 1;
    }
    proof {
        let r = p@.remove(skip as int);
        assert forall|k: int| 0 <= k < r.len() implies !r[k] by {
            if k < skip {
                assert(r[k] == p@[k]);
            } else {
                assert(r[k] == p@[k + 1]);
            }
        }
    }
    false
}

impl<T> Queue<T> {
    /// When the playing entry was the last one and is removed under "repeat
    /// playlist", the entry the queue moves on to (before checking that it
    /// exists).
    pub open spec fn remove_next_target(&self, index: usize, playable: Seq<bool>) -> Option<usize> {
        let n = self.items().len() - 1;
        let p = self.order_pos(index);
        if p + 1 < n {
            Some(self.at_order_pos(p + 1))
        } else if any_playable(playable.remove(index as int)) {
            Some(self.at_order_pos(0))
        } else {
            None
        }
    }

    /// The playing index after removing the entry at `index` (before a new
    /// shuffle order is drawn).
    pub open spec fn removal_current(&self, index: usize, playable: Seq<bool>) -> Option<usize> {
        let n = (self.items().len() - 1) as usize;
        if n == 0 {
            None
        } else {
            match self.current() {
                Some(c) => if c == index {
                    if c == n {
                        if self.repeat() == RepeatSetting::RepeatPlaylist {
                            match self.remove_next_target(index, playable) {
                                Some(i) => if i < n { Some(i) } else { Some(c) },
                                None => Some(c),
                            }
                        } else {
                            None
                        }
                    } else {
                        Some(index)
                    }
                } else if c > index {
                    Some((c - 1) as usize)
                } else {
                    Some(c)
                },
                None => None,
            }
        }
    }

    /// The effects of removing the entry at `index`.
    pub open spec fn removal_effects(&self, index: usize, playable: Seq<bool>) -> Seq<QueueEffect> {
        let n = (self.items().len() - 1) as usize;
        let removed = QueueEffect::TrackRemoved(self.ids()[index as int]);
        if n == 0 {
            seq![QueueEffect::Stop, removed]
        } else {
            let mid = match self.current() {
                Some(c) => if c == index {
                    if c == n {
                        if self.repeat() == RepeatSetting::RepeatPlaylist {
                            match self.remove_next_target(index, playable) {
                                Some(i) => if i < n { seq![QueueEffect::Load(i)] } else { Seq::empty() },
                                None => seq![QueueEffect::Stop],
                            }
                        } else {
                            seq![QueueEffect::Stop]
                        }
                    } else {
                        seq![QueueEffect::Load(index)]
                    }
                } else {
                    Seq::empty()
                },
                None => Seq::empty(),
            };
            mid.push(removed)
        }
    }

    /// Removing the entry at `index` would leave the playing index past the end
    /// while a new shuffle order has to be drawn around it.
    pub open spec fn removal_breaks_shuffle(&self, index: usize, playable: Seq<bool>) -> bool {
        &&& self.shuffled()
        &&& self.items().len() > 1
        &&& self.removal_current(index, playable) == Some((self.items().len() - 1) as usize)
    }

    /// `next` is the queue after removing the entry at `index`.
    pub open spec fn removed_at(&self, next: &Self, index: usize, playable: Seq<bool>) -> bool {
        let n = self.items().len() - 1;
        &&& next.items() == self.items().remove(index as int)
        &&& next.ids() == self.ids().remove(index as int)
        &&& next.counter() == self.counter()
        &&& next.repeat() == self.repeat()
        &&& next.shuffled() == self.shuffled()
        &&& next.current() == self.removal_current(index, playable)
        &&& next.effects() == self.effects() + self.removal_effects(index, playable)
        &&& if n > 0 && self.shuffled() {
            next.fresh_order()
        } else {
            next.order() == self.order()
        }
    }

    /// Whether removing the entry at `index` can go ahead: false exactly when
    /// it would have to draw a shuffle order around a playing index past the end.
    pub fn can_remove(&self, index: usize, playable: &[bool]) -> (b: bool)
        requires
            self.wf(),
            playable@.len() == self.items().len(),
            index < self.items().len(),
        ensures
            b == !self.removal_breaks_shuffle(index, playable@),
    {
        let n0 = self.queue.len();
        if !self.shuffle || n0 <= 1 {
            return true;
        }
        let n = n0 - 1;
        match self.current_track {
            Some(c) => {
                if c == index && c == n && self.repeat == RepeatSetting::RepeatPlaylist {
                    match self.removal_target(index, playable) {
                        Some(i) => i < n,
                        None => false,
                    }
                } else {
                    true
                }
            },
            None => true,
        }
    }

    fn removal_target(&self, index: usize, playable: &[bool]) -> (r: Option<usize>)
        requires
            self.wf(),
            playable@.len() == self.items().len(),
            self.current() == Some(index),
            index == self.items().len() - 1,
            self.items().len() > 1,
        ensures
            r == self.remove_next_target(index, playable@),
    {
        let n = self.queue.len() - 1;
        let p = self.current_pos(index);
        if p < n - 1 {
            Some(self.at_pos(p + 1))
        } else if any_true_except(playable, index) {
            Some(self.at_pos(0))
        } else {
            None
        }
    }

    fn remove_at(&mut self, index: usize, playable: &[bool])
        requires
            old(self).wf(),
            playable@.len() == old(self).items().len(),
            index < old(self).items().len(),
            !old(self).removal_breaks_shuffle(index, playable@),
        ensures
            old(self).removed_at(final(self), index, playable@),
            final(self).current() != Some(final(self).items().len() as usize) ==> final(self).wf(),
    {
        let ghost s0 = *self;
        let n0 = self.queue.len();
        let n = n0 - 1;
        let target = if n > 0 && self.current_track == Some(index) && index == n
            && self.repeat == RepeatSetting::RepeatPlaylist {
            self.removal_target(index, playable)
        } else {
            None
        };
        let rid = self.ids[index];
        self.queue.remove(index);
        self.ids.remove(index);
        proof {
            let r = self.ids@;
            assert(r.no_duplicates()) by {
                assert forall|a: int, b: int| 0 <= a < r.len() && 0 <= b < r.len() && a != b implies r[a] != r[b] by {
                    let a2 = if a < index { a } else { a + 1 };
                    let b2 = if b < index { b } else { b + 1 };
                    assert(r[a] == s0.ids()[a2]);
                    assert(r[b] == s0.ids()[b2]);
                }
            }
            assert forall|i: int| 0 <= i < r.len() implies #[trigger] r[i] < self.id_counter by {
                let i2 = if i < index { i } else { i + 1 };
                assert(r[i] == s0.ids()[i2]);
            }
        }
        if n == 0 {
            self.current_track = None;
            self.effects.push(QueueEffect::Stop);
            self.effects.push(QueueEffect::TrackRemoved(rid));
            proof {
                assert(self.effects() =~= s0.effects() + s0.removal_effects(index, playable@));
            }
            return;
        }
        let ghost mid_start = self.effects@;
        match self.current_track {
            Some(c) => {
                if c == index {
                    if c == n {
                        if self.repeat == RepeatSetting::RepeatPlaylist {
                            match target {
                                Some(i) => {
                                    if i < n {
                                        self.effects.push(QueueEffect::Load(i));
                                        self.current_track = Some(i);
                                    }
                                },
                                None => {
                                    self.effects.push(QueueEffect::Stop);
                                },
                            }
                        } else {
                            self.current_track = None;
                            self.effects.push(QueueEffect::Stop);
                        }
                    } else {
                        self.effects.push(QueueEffect::Load(index));
                        self.current_track = Some(index);
                    }
                } else if c > index {
                    self.current_track = Some(c - 1);
                }
            },
            None => {},
        }
        if self.shuffle {
            self.generate_random_order();
        }
        self.effects.push(QueueEffect::TrackRemoved(rid));
        proof {
            assert(self.effects() =~= s0.effects() + s0.removal_effects(index, playable@));
        }
    }

    /// Removes the entry at `index`; nothing when `index` is out of range.
    /// `playable[i]` tells whether entry `i` (before the removal) can be played.
    ///
    /// Removing the playing entry plays the entry that takes its place; when
    /// it was the last one, "repeat playlist" moves on as `next` does and
    /// otherwise playback stops. With shuffle on a new order is drawn.
    pub fn remove(&mut self, index: usize, playable: &[bool])
        requires
            old(self).wf(),
            playable@.len() == old(self).items().len(),
            index < old(self).items().len() ==> !old(self).removal_breaks_shuffle(index, playable@),
        ensures
            index >= old(self).items().len() ==> *final(self) == *old(self),
            index < old(self).items().len() ==> old(self).removed_at(final(self), index, playable@),
            final(self).current() != Some(final(self).items().len() as usize) ==> final(self).wf(),
    {
        if index >= self.queue.len() {
            return;
        }
        self.remove_at(index, playable);
    }

    /// Removes the entry with id `id`; nothing when it is no longer present.
    /// `playable[i]` tells whether entry `i` (before the removal) can be played.
    pub fn remove_by_id(&mut self, id: u64, playable: &[bool])
        requires
            old(self).wf(),
            playable@.len() == old(self).items().len(),
            forall|i: int| 0 <= i < old(self).ids().len() && old(self).ids()[i] == id
                ==> !old(self).removal_breaks_shuffle(i as usize, playable@),
        ensures
            !old(self).ids().contains(id) ==> *final(self) == *old(self),
            old(self).ids().contains(id) ==> exists|i: int| 0 <= i < old(self).ids().len()
                && old(self).ids()[i] == id && old(self).removed_at(final(self), i as usize, playable@),
            final(self).current() != Some(final(self).items().len() as usize) ==> final(self).wf(),
    {
        match self.index_for_id(id) {
            Some(index) => self.remove_at(index, playable),
            None => {},
        }
    }
}

impl<T: Clone> Queue<T> {
    /// Where `append_next` puts its entries: after the playing entry, at the
    /// end when nothing plays.
    pub open spec fn append_next_index(&self) -> int {
        match self.current() {
            Some(c) => c + 1,
            None => self.items().len() as int,
        }
    }

    /// The shuffle order after `append_next` adds `k` entries: the indices of
    /// the entries after the new ones moved up by `k`, then the new indices
    /// in queue order.
    pub open spec fn order_after_append_next(&self, k: nat) -> Option<Seq<usize>> {
        let first = self.append_next_index();
        match self.order() {
            Some(o) => Some(shift_up_by(o, first, k) + Seq::new(k, |j: int| (first + j) as usize)),
            None => None,
        }
    }

    /// Inserts copies of `tracks` after the playing entry (at the end when
    /// nothing plays) and returns the index of the first one.
    ///
    /// With shuffle on, the order keeps playing every old entry in the same
    /// sequence and plays the new ones after them, in queue order: it still
    /// lists every index once.
    pub fn append_next(&mut self, tracks: &[T]) -> (first: usize)
        requires
            old(self).wf(),
            old(self).counter() + tracks@.len() <= u64::MAX,
            old(self).items().len() + tracks@.len() <= usize::MAX,
            old(self).order() matches Some(o) ==> o.len() + tracks@.len() <= usize::MAX,
        ensures
            first == old(self).append_next_index(),
            final(self).items().len() == old(self).items().len() + tracks@.len(),
            forall|j: int| 0 <= j < first ==> final(self).items()[j] == old(self).items()[j],
            forall|j: int| 0 <= j < tracks@.len() ==> cloned(tracks@[j], #[trigger] final(self).items()[first + j]),
            forall|j: int| first <= j < old(self).items().len()
                ==> final(self).items()[j + tracks@.len()] == old(self).items()[j],
            final(self).ids() == old(self).ids().take(first as int)
                + Seq::new(tracks@.len(), |j: int| (old(self).counter() + j) as u64)
                + old(self).ids().skip(first as int),
            final(self).counter() == old(self).counter() + tracks@.len(),
            final(self).order() == old(self).order_after_append_next(tracks@.len()),
            final(self).current() == old(self).current(),
            final(self).repeat() == old(self).repeat(),
            final(self).shuffled() == old(self).shuffled(),
            final(self).effects() == old(self).effects().push(QueueEffect::TrackListReplaced),
            final(self).wf(),
            old(self).order_exact() ==> final(self).order_exact(),
    {
        let n = self.queue.len();
        let k = tracks.len();
        let first = match self.current_track {
            Some(index) => index + 1,
            None => n,
        };
        if let Some(mut order) = self.random_order.take() {
            let ghost o0 = order@;
            let mut j: usize = 0;
            while j < k
                invariant
                    j <= k,
                    first <= n <= o0.len(),
                    o0.len() + k <= usize::MAX,
                    is_index_order(o0, o0.len()),
                    order@ == shift_up_by(o0, first as int, j as nat) + Seq::new(j as nat, |i: int| (first + i) as usize),
                    is_index_order(order@, (o0.len() + j) as nat),
                decreases k - j,
            {
                let ghost cur = order@;
                proof {
                    assert forall|i: int| 0 <= i < order@.len() implies #[trigger] order@[i] < usize::MAX by {
                        assert(order@[i] < o0.len() + j);
                    }
                }
                Self::shift_order_up(&mut order, first + j);
                order.push(first + j);
                proof {
                    lemma_shift_insert(cur, (first + j) as usize, cur.len() as int);
                    assert(shift_up(cur, (first + j) as int).insert(cur.len() as int, (first + j) as usize) =~= order@);
                    let target = shift_up_by(o0, first as int, (j + 1) as nat) + Seq::new((j + 1) as nat, |i: int| (first + i) as usize);
                    assert forall|i: int| 0 <= i < order@.len() implies order@[i] == target[i] by {
                        if i < o0.len() {
                            assert(cur[i] == shift_up_by(o0, first as int, j as nat)[i]);
                        } else if i < o0.len() + j {
                            assert(cur[i] == (first + (i - o0.len())) as usize);
                        }
                    }
                    assert(order@ =~= target);
                }
                j = j + 1;
            }
            self.random_order = Some(order);
        }
        let ghost items0 = self.queue@;
        let ghost ids0 = self.ids@;
        let ghost order1 = self.random_order;
        let counter0 = self.id_counter;
        let mut j: usize = 0;
        while j < k
            invariant
                j <= k,
                first + k <= usize::MAX,
                self.random_order == order1,
                self.current_track == old(self).current_track,
                self.id_counter == counter0,
                self.effects == old(self).effects,
                self.repeat == old(self).repeat,
                self.shuffle == old(self).shuffle,
                k == tracks@.len(),
                first <= items0.len(),
                ids0.len() == items0.len(),
                counter0 + k <= u64::MAX,
                self.queue@.len() == items0.len() + j,
                forall|a: int| 0 <= a < first ==> self.queue@[a] == items0[a],
                forall|a: int| 0 <= a < j ==> cloned(tracks@[a], #[trigger] self.queue@[first + a]),
                forall|a: int| first <= a < items0.len() ==> self.queue@[a + j] == items0[a],
                self.ids@ == ids0.take(first as int) + Seq::new(j as nat, |i: int| (counter0 + i) as u64)
                    + ids0.skip(first as int),
            decreases k - j,
        {
            let t = tracks[j].clone();
            let ghost q_before = self.queue@;
            self.queue.insert(first + j, t);
            proof {
                assert forall|a: int| 0 <= a < j + 1 implies cloned(tracks@[a], #[trigger] self.queue@[first + a]) by {
                    if a < j {
                        assert(self.queue@[first + a] == q_before[first + a]);
                    }
                }
                assert forall|a: int| first <= a < items0.len() implies self.queue@[a + j + 1] == items0[a] by {
                    assert(self.queue@[a + j + 1] == q_before[a + j]);
                }
            }
            self.ids.insert(first + j, counter0 + j as u64);
            proof {
                assert(self.ids@ =~= ids0.take(first as int) + Seq::new((j + 1) as nat, |i: int| (counter0 + i) as u64)
                    + ids0.skip(first as int));
            }
            j = j + 1;
        }
        self.id_counter = counter0 + k as u64;
        self.effects.push(QueueEffect::TrackListReplaced);
        proof {
            {
                let r = self.ids@;
                let fresh = Seq::new(k as nat, |i: int| (counter0 + i) as u64);
                assert forall|i: int| 0 <= i < r.len() implies #[trigger] r[i] < self.id_counter by {
                    if i < first {
                        assert(r[i] == ids0[i]);
                    } else if i < first + k {
                        assert(r[i] == fresh[i - first]);
                    } else {
                        assert(r[i] == ids0[i - k]);
                    }
                }
                assert forall|a: int, b: int| 0 <= a < r.len() && 0 <= b < r.len() && a != b implies r[a] != r[b] by {
                    if a >= first && a < first + k && b >= first && b < first + k {
                    } else if a >= first && a < first + k {
                        let b2 = if b < first { b } else { b - k };
                        assert(r[b] == ids0[b2]);
                    } else if b >= first && b < first + k {
                        let a2 = if a < first { a } else { a - k };
                        assert(r[a] == ids0[a2]);
                    } else {
                        let a2 = if a < first { a } else { a - k };
                        let b2 = if b < first { b } else { b - k };
                        assert(r[a] == ids0[a2]);
                        assert(r[b] == ids0[b2]);
                    }
                }
            }
        }
        first
    }
}

impl<T> Queue<T> {
    proof fn lemma_lengths_fit(&self)
        ensures
            self.ids().len() <= usize::MAX,
            self.items().len() <= usize::MAX,
    {
        assert(self.ids.len() == self.ids@.len());
        assert(self.queue.len() == self.queue@.len());
    }

    /// Every id present both in `self` and in `next` names the same entry in both.
    pub open spec fn ids_follow_entries(&self, next: &Self) -> bool {
        forall|i: int, j: int|
            0 <= i < self.ids().len() && 0 <= j < next.ids().len() && #[trigger] self.ids()[i]
                == #[trigger] next.ids()[j] ==> self.items()[i] == next.items()[j]
    }

    /// An inserted entry gets the fresh id, which no other entry has; every
    /// other id keeps naming its entry.
    pub proof fn lemma_insert_keeps_ids(&self, next: &Self, idx: int, track: T)
        requires
            self.wf(),
            0 <= idx <= self.items().len(),
            self.inserted_at(next, idx, track),
        ensures
            self.ids_follow_entries(next),
            next.ids()[idx] == self.counter(),
            next.items()[idx] == track,
            forall|j: int| 0 <= j < next.ids().len() && j != idx ==> next.ids()[j] != self.counter(),
    {
        assert forall|i: int, j: int|
            0 <= i < self.ids().len() && 0 <= j < next.ids().len() && #[trigger] self.ids()[i]
                == #[trigger] next.ids()[j] implies self.items()[i] == next.items()[j] by {
            if j == idx {
                assert(self.ids()[i] < self.counter());
            } else if j < idx {
                assert(next.ids()[j] == self.ids()[j]);
                assert(self.ids()[i] == self.ids()[j]);
            } else {
                assert(next.ids()[j] == self.ids()[j - 1]);
                assert(self.ids()[i] == self.ids()[j - 1]);
            }
        }
        assert forall|j: int| 0 <= j < next.ids().len() && j != idx implies next.ids()[j] != self.counter() by {
            if j < idx {
                assert(next.ids()[j] == self.ids()[j]);
            } else {
                assert(next.ids()[j] == self.ids()[j - 1]);
            }
        }
    }

    /// An appended entry gets the fresh id; every other id keeps naming its entry.
    pub proof fn lemma_append_keeps_ids(&self, next: &Self, track: T)
        requires
            self.wf(),
            self.appended(next, track),
        ensures
            self.ids_follow_entries(next),
            next.ids().last() == self.counter(),
            next.items().last() == track,
    {
        assert forall|i: int, j: int|
            0 <= i < self.ids().len() && 0 <= j < next.ids().len() && #[trigger] self.ids()[i]
                == #[trigger] next.ids()[j] implies self.items()[i] == next.items()[j] by {
            if j == self.ids().len() {
                assert(self.ids()[i] < self.counter());
            } else {
                assert(next.ids()[j] == self.ids()[j]);
            }
        }
    }

    /// Removing an entry drops its id only: every other id stays, naming the
    /// same entry.
    pub proof fn lemma_remove_keeps_ids(&self, next: &Self, index: usize, playable: Seq<bool>)
        requires
            self.wf(),
            index < self.items().len(),
            self.removed_at(next, index, playable),
        ensures
            self.ids_follow_entries(next),
            !next.ids().contains(self.ids()[index as int]),
            forall|i: int| 0 <= i < self.ids().len() && i != index ==> next.ids().contains(#[trigger] self.ids()[i]),
    {
        assert forall|i: int, j: int|
            0 <= i < self.ids().len() && 0 <= j < next.ids().len() && #[trigger] self.ids()[i]
                == #[trigger] next.ids()[j] implies self.items()[i] == next.items()[j] by {
            if j < index {
                assert(next.ids()[j] == self.ids()[j]);
            } else {
                assert(next.ids()[j] == self.ids()[j + 1]);
            }
        }
        assert forall|i: int| 0 <= i < self.ids().len() && i != index implies next.ids().contains(
            #[trigger] self.ids()[i],
        ) by {
            if i < index {
                assert(next.ids()[i] == self.ids()[i]);
            } else {
                assert(next.ids()[i - 1] == self.ids()[i]);
            }
        }
        if next.ids().contains(self.ids()[index as int]) {
            let j = choose|j: int| 0 <= j < next.ids().len() && next.ids()[j] == self.ids()[index as int];
            if j < index {
                assert(next.ids()[j] == self.ids()[j]);
            } else {
                assert(next.ids()[j] == self.ids()[j + 1]);
            }
        }
    }

    /// Moving an entry keeps every id naming the same entry.
    pub proof fn lemma_shift_keeps_ids(&self, next: &Self, from: usize, to: usize)
        requires
            self.wf(),
            from < self.items().len(),
            to < self.items().len(),
            next.items() == self.items().remove(from as int).insert(to as int, self.items()[from as int]),
            next.ids() == self.ids().remove(from as int).insert(to as int, self.ids()[from as int]),
        ensures
            self.ids_follow_entries(next),
            forall|i: usize| i < self.ids().len() ==> #[trigger] next.ids()[shift_index(i, from, to) as int] == self.ids()[i as int],
    {
        self.lemma_lengths_fit();
        assert forall|i: usize| i < self.ids().len() implies #[trigger] next.ids()[shift_index(
            i,
            from,
            to,
        ) as int] == self.ids()[i as int] by {
            lemma_shift_moves(self.ids(), from, to, i);
        }
        assert forall|i: int, j: int|
            0 <= i < self.ids().len() && 0 <= j < next.ids().len() && #[trigger] self.ids()[i]
                == #[trigger] next.ids()[j] implies self.items()[i] == next.items()[j] by {
            lemma_shift_moves(self.ids(), from, to, i as usize);
            lemma_shift_moves(self.items(), from, to, i as usize);
            let k = shift_index(i as usize, from, to) as int;
            assert(next.ids()[k] == self.ids()[i]);
            assert(next.ids().no_duplicates()) by {
                broadcast use vstd::seq_lib::group_to_multiset_ensures;
                let r = next.ids();
                assert(r.to_multiset() =~= self.ids().to_multiset());
                lemma_same_multiset(self.ids(), r);
            }
        }
    }

    /// Moving an entry keeps the shuffled play sequence: the shuffle order,
    /// remapped as `shift` does, plays the same entries in the same order.
    pub proof fn lemma_shift_keeps_play_order(&self, next: &Self, from: usize, to: usize)
        requires
            self.wf(),
            self.order_exact(),
            from < self.items().len(),
            to < self.items().len(),
            next.items() == self.items().remove(from as int).insert(to as int, self.items()[from as int]),
            next.order() == (match self.order() {
                Some(o) => Some(o.map_values(|v: usize| shift_index(v, from, to))),
                None => None,
            }),
        ensures
            self.order() matches Some(o) ==> forall|p: int| 0 <= p < o.len() ==> #[trigger] next.items()[next.order()->0[p] as int]
                == self.items()[o[p] as int],
    {
        if let Some(o) = self.order() {
            assert forall|p: int| 0 <= p < o.len() implies #[trigger] next.items()[next.order()->0[p] as int]
                == self.items()[o[p] as int] by {
                assert(o[p] < self.items().len());
                lemma_shift_moves(self.items(), from, to, o[p]);
            }
        }
    }

    /// Moving an entry keeps the playing entry playing.
    pub proof fn lemma_shift_keeps_current_entry(&self, next: &Self, from: usize, to: usize)
        requires
            self.wf(),
            from < self.items().len(),
            to < self.items().len(),
            next.items() == self.items().remove(from as int).insert(to as int, self.items()[from as int]),
            next.current() == (match self.current() {
                Some(c) => Some(shift_index(c, from, to)),
                None => None,
            }),
        ensures
            self.current() matches Some(c) ==> next.items()[next.current()->0 as int] == self.items()[c as int],
    {
        if let Some(c) = self.current() {
            lemma_shift_moves(self.items(), from, to, c);
        }
    }

    /// Appending keeps a shuffle order exact: the new entry's index joins the
    /// end of the order.
    pub proof fn lemma_append_extends_order(&self, next: &Self, track: T)
        requires
            self.wf(),
            self.order_exact(),
            self.appended(next, track),
        ensures
            next.order() == (match self.order() {
                Some(o) => Some(o.push(self.items().len() as usize)),
                None => None,
            }),
            next.order_exact(),
            next.items().last() == track,
            next.current() == self.current(),
    {
        self.lemma_lengths_fit();
        if let Some(o) = self.order() {
            let n = self.items().len();
            let o2 = o.push(n as usize);
            assert forall|i: int| 0 <= i < o2.len() implies #[trigger] o2[i] < n + 1 by {
                if i < o.len() {
                    assert(o[i] < n);
                }
            }
            assert forall|a: int, b: int| 0 <= a < o2.len() && 0 <= b < o2.len() && a != b implies o2[a] != o2[b] by {
                if a < o.len() {
                    assert(o[a] < n);
                }
                if b < o.len() {
                    assert(o[b] < n);
                }
            }
        }
    }

    /// An entry inserted after the playing one plays next, and the shuffle
    /// order stays exact: without the new index, and with the indices above
    /// it lowered again, it is the old order.
    pub proof fn lemma_insert_after_current_plays_next(&self, next: &Self, track: T)
        requires
            self.wf(),
            self.order_exact(),
            self.current() is Some,
            next.items() == self.items().insert(self.current()->0 + 1, track),
            next.current() == self.current(),
            next.order() == (match self.order() {
                Some(o) => Some(shift_up(o, self.current()->0 + 1).insert(o.index_of(self.current()->0) + 1, (self.current()->0 + 1) as usize)),
                None => None,
            }),
        ensures
            next.items()[self.current()->0 + 1] == track,
            next.order_exact(),
            next.next_index_spec() == Some((self.current()->0 + 1) as usize),
            self.order() matches Some(o) ==> next.order()->0.remove(o.index_of(self.current()->0) + 1).map_values(
                |v: usize| if v > self.current()->0 + 1 { (v - 1) as usize } else { v },
            ) == o,
    {
        self.lemma_lengths_fit();
        let c = self.current()->0;
        let n = self.items().len();
        if let Some(o) = self.order() {
            lemma_index_order_contains(o, n, c);
            let q = o.index_of(c);
            assert(0 <= q < o.len() && o[q] == c);
            let o2 = shift_up(o, c + 1).insert(q + 1, (c + 1) as usize);
            lemma_shift_insert(o, (c + 1) as usize, q + 1);
            assert(o2[q] == c);
            lemma_index_of_unique(o2, q);
            let back = o2.remove(q + 1).map_values(|v: usize| if v > c + 1 { (v - 1) as usize } else { v });
            assert(o2.remove(q + 1) =~= shift_up(o, c + 1));
            assert(back =~= o);
        }
    }

    /// Going to the next entry and then back to the previous one returns to
    /// the entry that was playing.
    pub proof fn lemma_previous_undoes_next(&self, later: &Self)
        requires
            self.wf(),
            self.order_exact(),
            later.same_entries(self),
            later.order() == self.order(),
            self.next_index_spec() is Some,
            later.current() == self.next_index_spec(),
        ensures
            later.previous_index_spec() == self.current(),
    {
        self.lemma_lengths_fit();
        let c = self.current()->0;
        let p = self.order_pos(c);
        let i = self.at_order_pos(p + 1);
        assert(later.current() == Some(i));
        if let Some(o) = self.order() {
            lemma_index_order_contains(o, o.len(), c);
            lemma_index_of_unique(o, p + 1);
            assert(later.order_pos(i) == p + 1);
            assert(later.at_order_pos(p) == c);
        } else {
            assert(later.order_pos(i) == p + 1);
            assert(later.at_order_pos(p) == c);
        }
    }

    /// Going to the previous entry and then on to the next one returns to
    /// the entry that was playing.
    pub proof fn lemma_next_undoes_previous(&self, earlier: &Self)
        requires
            self.wf(),
            self.order_exact(),
            earlier.same_entries(self),
            earlier.order() == self.order(),
            self.previous_index_spec() is Some,
            earlier.current() == self.previous_index_spec(),
        ensures
            earlier.next_index_spec() == self.current(),
    {
        self.lemma_lengths_fit();
        let c = self.current()->0;
        let p = self.order_pos(c);
        if let Some(o) = self.order() {
            lemma_index_order_contains(o, o.len(), c);
            lemma_index_of_unique(o, p - 1);
        }
    }

    /// With "repeat playlist" the play order is a ring: from the entry at
    /// play position `p` of `n`, `previous` goes to position `(p + n - 1) % n`
    /// and `next` to position `(p + 1) % n`. So from the first position
    /// `previous` wraps to the last one, and from the last position `next`
    /// wraps to the first.
    pub proof fn lemma_repeat_playlist_is_a_ring(&self, playable: Seq<bool>)
        requires
            self.wf(),
            self.order_exact(),
            self.repeat() == RepeatSetting::RepeatPlaylist,
            self.current() is Some,
            playable.len() == self.items().len(),
            any_playable(playable),
        ensures
            ({
                let n = self.items().len() as int;
                let p = self.order_pos(self.current()->0);
                &&& 0 <= p < n
                &&& self.previous_target() == Some(self.at_order_pos((p + n - 1) % n))
                &&& self.next_target(true, playable) == Some(self.at_order_pos((p + 1) % n))
                &&& self.next_target(false, playable) == Some(self.at_order_pos((p + 1) % n))
                &&& p == 0 ==> self.previous_target() == Some(self.at_order_pos(n - 1))
                &&& p == n - 1 ==> self.next_target(true, playable) == Some(self.at_order_pos(0))
            }),
    {
        self.lemma_lengths_fit();
        let c = self.current()->0;
        let n = self.items().len() as int;
        let p = self.order_pos(c);
        if let Some(o) = self.order() {
            lemma_index_order_contains(o, o.len(), c);
        }
        assert(0 <= p < n);
        if p == 0 {
            assert((p + n - 1) % n == n - 1) by (nonlinear_arith)
                requires p == 0, n > 0;
        } else {
            assert((p + n - 1) % n == p - 1) by (nonlinear_arith)
                requires 0 < p < n;
        }
        if p == n - 1 {
            assert((p + 1) % n == 0) by (nonlinear_arith)
                requires p == n - 1, n > 0;
        } else {
            assert((p + 1) % n == p + 1) by (nonlinear_arith)
                requires 0 <= p < n - 1;
        }
    }

    /// Without "repeat playlist", the play order has ends: `next` from the
    /// entry at play position `p` plays position `p + 1` and stops after the
    /// last one; `previous` plays position `p - 1` and restarts the entry at
    /// the first one. With "repeat track", an automatic `next` plays the same
    /// entry again when it can be played.
    pub proof fn lemma_play_order_ends(&self, manual: bool, playable: Seq<bool>)
        requires
            self.wf(),
            self.order_exact(),
            self.repeat() != RepeatSetting::RepeatPlaylist,
            self.current() is Some,
            playable.len() == self.items().len(),
        ensures
            ({
                let c = self.current()->0;
                let n = self.items().len() as int;
                let p = self.order_pos(c);
                &&& 0 <= p < n
                &&& self.at_order_pos(p) == c
                &&& (self.repeat() == RepeatSetting::RepeatTrack && !manual) ==> self.next_target(manual, playable)
                    == (if playable[c as int] { Some(c) } else { None })
                &&& !(self.repeat() == RepeatSetting::RepeatTrack && !manual) ==> self.next_target(manual, playable)
                    == (if p + 1 < n { Some(self.at_order_pos(p + 1)) } else { None })
                &&& self.previous_target() == (if p > 0 { Some(self.at_order_pos(p - 1)) } else { Some(c) })
            }),
    {
        self.lemma_lengths_fit();
        if let Some(o) = self.order() {
            lemma_index_order_contains(o, o.len(), self.current()->0);
        }
    }

    /// With "repeat playlist", `next` from the entry that `previous` would
    /// play comes back to the entry that is playing, also when `previous`
    /// wraps around the ends of the play order.
    pub proof fn lemma_repeat_playlist_next_undoes_previous(&self, earlier: &Self, playable: Seq<bool>)
        requires
            self.wf(),
            self.order_exact(),
            self.repeat() == RepeatSetting::RepeatPlaylist,
            self.current() is Some,
            earlier.same_entries(self),
            earlier.order() == self.order(),
            earlier.current() == self.previous_target(),
            playable.len() == self.items().len(),
            any_playable(playable),
        ensures
            earlier.next_target(true, playable) == self.current(),
    {
        self.lemma_lengths_fit();
        self.lemma_repeat_playlist_is_a_ring(playable);
        let c = self.current()->0;
        let n = self.items().len() as int;
        let p = self.order_pos(c);
        let q = (p + n - 1) % n;
        let i = self.at_order_pos(q);
        assert(0 <= q < n) by (nonlinear_arith)
            requires q == (p + n - 1) % n, n > 0;
        if let Some(o) = self.order() {
            lemma_index_order_contains(o, o.len(), c);
            lemma_index_of_unique(o, q);
        }
        assert(earlier.wf());
        assert(earlier.order_pos(i) == q);
        earlier.lemma_repeat_playlist_is_a_ring(playable);
        assert((q + 1) % n == p) by (nonlinear_arith)
            requires q == (p + n - 1) % n, 0 <= p < n;
        if let Some(o) = self.order() {
            lemma_index_of_unique(o, p);
        }
    }
}

} // verus!
