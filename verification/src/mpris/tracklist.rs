//! Queue entries as MPRIS track ids, and the id part of Spotify URIs.

use vstd::prelude::*;
use crate::mpris::{no_track_path, queue_prefix, track_path_for_id, track_path_spec};
use crate::queue::Queue;
use crate::text::{decimal_digits, lemma_decimal_round_trip, parse_u64, parsed_u64, str_eq, strip_prefix, strip_prefix_spec};

verus! {

/// The stable id of a queue entry named by the object path, if it is one.
pub open spec fn queue_path_id(path: Seq<char>) -> Option<u64> {
    match strip_prefix_spec(path, queue_prefix()) {
        Some(rest) => parsed_u64(rest),
        None => None,
    }
}

/// Parses `/org/ncspot/queue/<id>` to `id`.
pub fn parse_queue_path(path: &str) -> (r: Option<u64>)
    ensures
        r == queue_path_id(path@),
{
    match strip_prefix(path, "/org/ncspot/queue/") {
        Some(rest) => parse_u64(rest.as_str()),
        None => None,
    }
}

/// The path of a queue entry names that entry.
pub proof fn lemma_track_path_round_trip(id: u64)
    ensures
        queue_path_id(track_path_spec(id)) == Some(id),
{
    let p = track_path_spec(id);
    let d = decimal_digits(id as nat);
    lemma_decimal_round_trip(id as nat);
    assert(p.subrange(0, queue_prefix().len() as int) =~= queue_prefix());
    assert(p.subrange(queue_prefix().len() as int, p.len() as int) =~= d);
}

/// The part of a Spotify URI after its last `:` (all of it without one).
pub open spec fn uri_id_spec(uri: Seq<char>) -> Seq<char>
    decreases uri.len(),
{
    if uri.len() == 0 {
        uri
    } else if uri.last() == ':' {
        Seq::empty()
    } else {
        uri_id_spec(uri.drop_last()).push(uri.last())
    }
}

/// The part of a Spotify URI after its last `:` (all of it without one).
pub fn uri_id(uri: &str) -> (r: String)
    ensures
        r@ == uri_id_spec(uri@),
{
    let n = uri.unicode_len();
    let mut start = n;
    assert(uri@.subrange(0, n as int) =~= uri@);
    assert(uri@.subrange(n as int, n as int) =~= Seq::<char>::empty());
    assert(uri_id_spec(uri@) =~= uri_id_spec(uri@.subrange(0, n as int)) + uri@.subrange(n as int, n as int));
    while start > 0 && uri.get_char(start - 1) != ':'
        invariant
            n == uri@.len(),
            start <= n,
            uri_id_spec(uri@) == uri_id_spec(uri@.subrange(0, start as int)) + uri@.subrange(start as int, n as int),
        decreases start,
    {
        proof {
            let t = uri@.subrange(0, start as int);
            assert(t.drop_last() =~= uri@.subrange(0, start - 1));
            assert(uri_id_spec(t) == uri_id_spec(t.drop_last()).push(t.last()));
            assert(uri_id_spec(t) + uri@.subrange(start as int, n as int) =~= uri_id_spec(t.drop_last())
                + uri@.subrange(start - 1, n as int));
        }
        start = start - 1;
    }
    proof {
        let t = uri@.subrange(0, start as int);
        if start == 0 {
            assert(t.len() == 0);
        } else {
            assert(t.last() == ':');
        }
        assert(uri_id_spec(t) =~= Seq::<char>::empty());
        assert(uri_id_spec(uri@) =~= uri@.subrange(start as int, n as int));
    }
    let mut out = String::new();
    let mut k = start;
    while k < n
        invariant
            n == uri@.len(),
            start <= k <= n,
            out@ == uri@.subrange(start as int, k as int),
        decreases n - k,
    {
        crate::text::push_char(&mut out, uri.get_char(k));
        k = k + 1;
        assert(out@ =~= uri@.subrange(start as int, k as int));
    }
    out
}

/// The object path MPRIS uses for "no track".
pub open spec fn no_track_spec() -> Seq<char> {
    "/org/mpris/MediaPlayer2/TrackList/NoTrack"@
}

/// What an `after_track` path names: the front of the queue (`Some(None)`)
/// for "no track", a queue entry's id, or nothing valid (`None`).
pub open spec fn after_track_spec(path: Seq<char>) -> Option<Option<u64>> {
    if path == no_track_spec() {
        Some(None)
    } else {
        match queue_path_id(path) {
            Some(id) => Some(Some(id)),
            None => None,
        }
    }
}

/// The object path of the playing entry, or "no track".
pub open spec fn current_track_path_spec<T>(queue: Queue<T>) -> Seq<char> {
    match queue.current() {
        Some(c) => track_path_spec(queue.ids()[c as int]),
        None => no_track_spec(),
    }
}

/// The object path of the playing entry, or "no track".
pub fn current_track_path<T>(queue: &Queue<T>) -> (r: String)
    requires
        queue.wf(),
    ensures
        r@ == current_track_path_spec(*queue),
{
    match queue.get_current_index() {
        Some(i) => match queue.id_for_index(i) {
            Some(id) => track_path_for_id(id),
            None => String::from_str(no_track_path()),
        },
        None => String::from_str(no_track_path()),
    }
}

/// The object paths of all queue entries, in queue order.
pub fn tracks<T>(queue: &Queue<T>) -> (r: Vec<String>)
    ensures
        r@.map_values(|p: String| p@) == queue.ids().map_values(|id: u64| track_path_spec(id)),
{
    let ids = queue.track_ids();
    let mut out: Vec<String> = Vec::new();
    let mut i: usize = 0;
    while i < ids.len()
        invariant
            i <= ids@.len(),
            ids@ == queue.ids(),
            out@.map_values(|p: String| p@) == ids@.subrange(0, i as int).map_values(|id: u64| track_path_spec(id)),
        decreases ids@.len() - i,
    {
        let p = track_path_for_id(ids[i]);
        let ghost before = out@.map_values(|p: String| p@);
        out.push(p);
        proof {
            assert(out@.map_values(|p: String| p@) =~= before.push(p@));
            assert(ids@.subrange(0, i + 1).map_values(|id: u64| track_path_spec(id)) =~= ids@.subrange(
                0,
                i as int,
            ).map_values(|id: u64| track_path_spec(id)).push(track_path_spec(ids@[i as int])));
        }
        i = i + 1;
    }
    assert(ids@.subrange(0, i as int) =~= ids@);
    out
}

/// Where the entry with id `id` was added: its index, and the path of the
/// entry before it ("no track" at the front).
pub fn added_after<T>(queue: &Queue<T>, id: u64) -> (r: Option<(usize, String)>)
    requires
        queue.wf(),
    ensures
        !queue.ids().contains(id) ==> r is None,
        queue.ids().contains(id) ==> (r matches Some((i, after)) && i < queue.ids().len() && queue.ids()[i as int]
            == id && after@ == (if i == 0 {
            no_track_spec()
        } else {
            track_path_spec(queue.ids()[i - 1])
        })),
{
    match queue.index_for_id(id) {
        Some(index) => {
            let after = if index == 0 {
                String::from_str(no_track_path())
            } else {
                match queue.id_for_index(index - 1) {
                    Some(prev) => track_path_for_id(prev),
                    None => String::from_str(no_track_path()),
                }
            };
            Some((index, after))
        },
        None => None,
    }
}

/// Adds `track` after the entry that `after_track` names ("no track": at the
/// front) and, when asked, plays it; returns where it was added. Nothing
/// happens when the path names no entry of the queue.
pub fn add_track<T>(queue: &mut Queue<T>, track: T, after_track: &str, set_as_current: bool) -> (r: Option<usize>)
    requires
        old(queue).wf(),
        old(queue).counter() < u64::MAX,
    ensures
        final(queue).wf(),
        match after_track_spec(after_track@) {
            None => r is None && *final(queue) == *old(queue),
            Some(None) => r == Some(0usize),
            Some(Some(aid)) => if old(queue).ids().contains(aid) {
                (r matches Some(i) && 0 < i <= old(queue).ids().len() && old(queue).ids()[i - 1] == aid)
            } else {
                r is None && *final(queue) == *old(queue)
            },
        },
        r matches Some(i) ==> (final(queue).items() == old(queue).items().insert(i as int, track)
            && final(queue).ids() == old(queue).ids().insert(i as int, old(queue).counter())
            && (set_as_current ==> final(queue).current() == Some(i))),
{
    let after_id = if str_eq(after_track, no_track_path()) {
        None
    } else {
        match parse_queue_path(after_track) {
            Some(id) => Some(id),
            None => return None,
        }
    };
    match queue.insert_after_id(after_id, track) {
        Some(index) => {
            if set_as_current {
                queue.play(index, false, false);
            }
            Some(index)
        },
        None => None,
    }
}

/// Removes the entry that `track_id` names, if it names one.
pub fn remove_track<T>(queue: &mut Queue<T>, track_id: &str, playable: &[bool])
    requires
        old(queue).wf(),
        playable@.len() == old(queue).items().len(),
        forall|i: int| 0 <= i < old(queue).ids().len() && queue_path_id(track_id@) == Some(old(queue).ids()[i])
            ==> !old(queue).removal_breaks_shuffle(i as usize, playable@),
    ensures
        queue_path_id(track_id@) is None ==> *final(queue) == *old(queue),
        queue_path_id(track_id@) matches Some(id) ==> (!old(queue).ids().contains(id) ==> *final(queue) == *old(queue)),
        queue_path_id(track_id@) matches Some(id) ==> (old(queue).ids().contains(id) ==> exists|i: int|
            0 <= i < old(queue).ids().len() && old(queue).ids()[i] == id && old(queue).removed_at(
                final(queue),
                i as usize,
                playable@,
            )),
{
    if let Some(id) = parse_queue_path(track_id) {
        queue.remove_by_id(id, playable);
    }
}

/// Plays the entry that `track_id` names, if it names one.
pub fn go_to<T>(queue: &mut Queue<T>, track_id: &str)
    requires
        old(queue).wf(),
    ensures
        final(queue).wf(),
        final(queue).same_entries(old(queue)),
        final(queue).order() == old(queue).order(),
        match queue_path_id(track_id@) {
            Some(id) => if old(queue).ids().contains(id) {
                exists|i: int| 0 <= i < old(queue).ids().len() && old(queue).ids()[i] == id
                    && final(queue).current() == Some(i as usize)
            } else {
                final(queue).current() == old(queue).current()
            },
            None => final(queue).current() == old(queue).current() && final(queue).effects() == old(queue).effects(),
        },
{
    if let Some(id) = parse_queue_path(track_id) {
        queue.play_by_id(id);
    }
}


/// The entry a path names: its id and index, when the path is a queue path
/// and the queue holds that id.
pub open spec fn path_target<T>(queue: Queue<T>, path: Seq<char>) -> Option<(u64, usize)> {
    match queue_path_id(path) {
        Some(id) => if queue.ids().contains(id) {
            Some((id, queue.ids().index_of(id) as usize))
        } else {
            None
        },
        None => None,
    }
}

/// The entries that the first `n` paths name, in order, skipping the others.
pub open spec fn path_targets<T>(queue: Queue<T>, paths: Seq<Seq<char>>, n: int) -> Seq<(u64, usize)>
    decreases n,
{
    if n <= 0 {
        Seq::empty()
    } else {
        let before = path_targets(queue, paths, n - 1);
        match path_target(queue, paths[n - 1]) {
            Some(t) => before.push(t),
            None => before,
        }
    }
}

/// The entries whose metadata is asked for by `paths`: id and index of each
/// path that names an entry of the queue, in order.
pub fn metadata_targets<T>(queue: &Queue<T>, paths: &[String]) -> (r: Vec<(u64, usize)>)
    requires
        queue.wf(),
    ensures
        r@ == path_targets(*queue, paths@.map_values(|p: String| p@), paths@.len() as int),
{
    let ghost pv = paths@.map_values(|p: String| p@);
    let mut out: Vec<(u64, usize)> = Vec::new();
    let mut k: usize = 0;
    while k < paths.len()
        invariant
            queue.wf(),
            k <= paths@.len(),
            pv == paths@.map_values(|p: String| p@),
            out@ == path_targets(*queue, pv, k as int),
        decreases paths@.len() - k,
    {
        assert(pv[k as int] == paths@[k as int]@);
        match parse_queue_path(paths[k].as_str()) {
            Some(id) => match queue.index_for_id(id) {
                Some(index) => {
                    proof {
                        lemma_first_index_is_index_of(queue.ids(), id, index as int);
                    }
                    out.push((id, index));
                },
                None => {},
            },
            None => {},
        }
        k = k + 1;
    }
    out
}

/// In a sequence without duplicates, the first index of a value is its
/// index.
proof fn lemma_first_index_is_index_of(s: Seq<u64>, v: u64, i: int)
    requires
        s.no_duplicates(),
        0 <= i < s.len(),
        s[i] == v,
    ensures
        s.index_of(v) == i,
{
    assert(s.contains(v));
    let c = s.index_of(v);
    assert(0 <= c < s.len() && s[c] == v);
}

} // verus!
