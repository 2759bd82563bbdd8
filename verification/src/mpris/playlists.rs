//! Playlists as MPRIS sees them: paths that name them, the active one, and
//! pages of them.

use vstd::prelude::*;
use crate::text::{str_eq, strip_prefix, strip_prefix_spec};

verus! {

/// Parses `/org/ncspot/playlist/<id>` to `id`.
pub fn parse_playlist_path(path: &str) -> (r: Option<String>)
    ensures
        r.deep_view() == strip_prefix_spec(path@, "/org/ncspot/playlist/"@),
{
    strip_prefix(path, "/org/ncspot/playlist/")
}

/// The value of a playlist entry: its path, name and art URL.
pub open spec fn entry_view(e: (String, String, String)) -> (Seq<char>, Seq<char>, Seq<char>) {
    (e.0@, e.1@, e.2@)
}

/// A page of playlists: `index` items skipped, at most `max_count` taken,
/// optionally in reverse order.
pub open spec fn page_spec<T>(s: Seq<T>, index: int, max_count: int, reverse: bool) -> Seq<T> {
    if index >= s.len() {
        Seq::empty()
    } else {
        let end = if index + max_count < s.len() {
            index + max_count
        } else {
            s.len() as int
        };
        if reverse {
            s.subrange(index, end).reverse()
        } else {
            s.subrange(index, end)
        }
    }
}

fn clone_entry(e: &(String, String, String)) -> (r: (String, String, String))
    ensures
        entry_view(r) == entry_view(*e),
{
    (e.0.clone(), e.1.clone(), e.2.clone())
}

/// A page of playlists: skips `index` items, takes up to `max_count`,
/// optionally reversed.
pub fn page_playlists(
    playlists: &[(String, String, String)],
    index: u32,
    max_count: u32,
    reverse_order: bool,
) -> (r: Vec<(String, String, String)>)
    ensures
        r@.map_values(|e: (String, String, String)| entry_view(e)) == page_spec(
            playlists@.map_values(|e: (String, String, String)| entry_view(e)),
            index as int,
            max_count as int,
            reverse_order,
        ),
{
    let ghost all = playlists@.map_values(|e: (String, String, String)| entry_view(e));
    let start = index as usize;
    let mut out: Vec<(String, String, String)> = Vec::new();
    if start >= playlists.len() {
        assert(out@.map_values(|e: (String, String, String)| entry_view(e)) =~= Seq::<
            (Seq<char>, Seq<char>, Seq<char>),
        >::empty());
        return out;
    }
    let end = if (max_count as usize) < playlists.len() - start {
        start + max_count as usize
    } else {
        playlists.len()
    };
    let ghost slice = all.subrange(start as int, end as int);
    let ghost target = if reverse_order {
        slice.reverse()
    } else {
        slice
    };
    let mut k: usize = 0;
    while k < end - start
        invariant
            start <= end <= playlists@.len(),
            all == playlists@.map_values(|e: (String, String, String)| entry_view(e)),
            slice == all.subrange(start as int, end as int),
            target == (if reverse_order {
                slice.reverse()
            } else {
                slice
            }),
            k <= end - start,
            out@.map_values(|e: (String, String, String)| entry_view(e)) == target.subrange(0, k as int),
        decreases end - start - k,
    {
        let idx = if reverse_order {
            end - 1 - k
        } else {
            start + k
        };
        let e = clone_entry(&playlists[idx]);
        let ghost before = out@.map_values(|e: (String, String, String)| entry_view(e));
        out.push(e);
        proof {
            assert(all[idx as int] == entry_view(playlists@[idx as int]));
            assert(target[k as int] == all[idx as int]);
            assert(out@.map_values(|e: (String, String, String)| entry_view(e)) =~= before.push(entry_view(e)));
            assert(target.subrange(0, k + 1) =~= target.subrange(0, k as int).push(target[k as int]));
        }
        k = k + 1;
    }
    assert(target.subrange(0, k as int) =~= target);
    out
}


/// A character allowed in an element of a D-Bus object path.
pub open spec fn path_char(c: char) -> bool {
    ('A' <= c && c <= 'Z') || ('a' <= c && c <= 'z') || ('0' <= c && c <= '9') || c == '_'
}

/// Whether `id` appended to a valid path with a slash gives a valid D-Bus
/// object path: elements of `[A-Za-z0-9_]`, none empty, separated by single
/// slashes, no trailing slash.
pub open spec fn path_tail_ok(id: Seq<char>) -> bool {
    &&& id.len() > 0
    &&& forall|i: int| 0 <= i < id.len() ==> (path_char(#[trigger] id[i]) || id[i] == '/')
    &&& id[0] != '/'
    &&& id.last() != '/'
    &&& forall|i: int| 0 <= i < id.len() - 1 ==> !(#[trigger] id[i] == '/' && id[i + 1] == '/')
}

/// The object path of the playlist `id`: `/org/ncspot/playlist/<id>`, or
/// `/org/ncspot/playlist/_` when that would not be a valid object path.
pub open spec fn playlist_path_spec(id: Seq<char>) -> Seq<char> {
    if path_tail_ok(id) {
        "/org/ncspot/playlist/"@ + id
    } else {
        "/org/ncspot/playlist/_"@
    }
}

fn is_path_char(c: char) -> (r: bool)
    ensures
        r == path_char(c),
{
    ('A' <= c && c <= 'Z') || ('a' <= c && c <= 'z') || ('0' <= c && c <= '9') || c == '_'
}

fn path_tail_valid(id: &str) -> (r: bool)
    ensures
        r == path_tail_ok(id@),
{
    let n = id.unicode_len();
    if n == 0 {
        return false;
    }
    if id.get_char(0) == '/' || id.get_char(n - 1) == '/' {
        return false;
    }
    let mut i: usize = 0;
    while i < n
        invariant
            n == id@.len(),
            n > 0,
            id@[0] != '/',
            id@.last() != '/',
            i <= n,
            forall|k: int| 0 <= k < i ==> (path_char(#[trigger] id@[k]) || id@[k] == '/'),
            forall|k: int| 0 <= k < i && k < n - 1 ==> !(#[trigger] id@[k] == '/' && id@[k + 1] == '/'),
        decreases n - i,
    {
        let c = id.get_char(i);
        if !(is_path_char(c) || c == '/') {
            return false;
        }
        if c == '/' && i + 1 < n && id.get_char(i + 1) == '/' {
            return false;
        }
        i = i + 1;
    }
    true
}

/// The object path of the playlist `id`.
pub fn playlist_path_for_id(id: &str) -> (r: String)
    ensures
        r@ == playlist_path_spec(id@),
{
    if path_tail_valid(id) {
        let mut r = String::from_str("/org/ncspot/playlist/");
        r.append(id);
        r
    } else {
        String::from_str("/org/ncspot/playlist/_")
    }
}

/// A playlist's object path names the playlist again, when its id makes a
/// valid path.
pub proof fn lemma_playlist_path_round_trip(id: Seq<char>)
    requires
        path_tail_ok(id),
    ensures
        strip_prefix_spec(playlist_path_spec(id), "/org/ncspot/playlist/"@) == Some(id),
{
    let pre = "/org/ncspot/playlist/"@;
    let p = pre + id;
    assert(p.subrange(0, pre.len() as int) =~= pre);
    assert(p.subrange(pre.len() as int, p.len() as int) =~= id);
}

/// The MPRIS entry of a library playlist `(id, name)`: its path, its name,
/// and an empty art URL.
pub open spec fn playlist_entry(p: (Seq<char>, Seq<char>)) -> (Seq<char>, Seq<char>, Seq<char>) {
    (playlist_path_spec(p.0), p.1, Seq::empty())
}

/// The value of a library playlist `(id, name)`.
pub open spec fn library_view(p: (String, String)) -> (Seq<char>, Seq<char>) {
    (p.0@, p.1@)
}

/// The MPRIS entries of the library's playlists, in order.
pub fn all_playlist_tuples(playlists: &[(String, String)]) -> (r: Vec<(String, String, String)>)
    ensures
        r@.len() == playlists@.len(),
        forall|i: int| 0 <= i < r@.len() ==> entry_view(#[trigger] r@[i]) == playlist_entry(library_view(playlists@[i])),
{
    let mut out: Vec<(String, String, String)> = Vec::new();
    let mut i: usize = 0;
    while i < playlists.len()
        invariant
            i <= playlists@.len(),
            out@.len() == i,
            forall|k: int| 0 <= k < i ==> entry_view(#[trigger] out@[k]) == playlist_entry(library_view(playlists@[k])),
        decreases playlists@.len() - i,
    {
        let (id, name) = &playlists[i];
        out.push((playlist_path_for_id(id.as_str()), name.clone(), String::new()));
        i = i + 1;
    }
    out
}

/// The first library playlist with id `id`.
pub open spec fn first_with_id(playlists: Seq<(Seq<char>, Seq<char>)>, id: Seq<char>, n: int) -> Option<int>
    decreases n,
{
    if n <= 0 {
        None
    } else {
        match first_with_id(playlists, id, n - 1) {
            Some(i) => Some(i),
            None => if playlists[n - 1].0 == id {
                Some(n - 1)
            } else {
                None
            },
        }
    }
}

/// The index of the first library playlist with id `id`.
pub fn find_playlist(playlists: &[(String, String)], id: &str) -> (r: Option<usize>)
    ensures
        r == (match first_with_id(playlists@.map_values(|p: (String, String)| library_view(p)), id@, playlists@.len() as int) {
            Some(i) => Some(i as usize),
            None => None::<usize>,
        }),
{
    let ghost lib = playlists@.map_values(|p: (String, String)| library_view(p));
    let mut i: usize = 0;
    while i < playlists.len()
        invariant
            i <= playlists@.len(),
            lib == playlists@.map_values(|p: (String, String)| library_view(p)),
            first_with_id(lib, id@, i as int) is None,
        decreases playlists@.len() - i,
    {
        if str_eq(playlists[i].0.as_str(), id) {
            proof {
                assert(lib[i as int].0 == id@);
                lemma_first_with_id_stays(lib, id@, i as int + 1, playlists@.len() as int);
            }
            return Some(i);
        }
        i = i + 1;
    }
    assert(lib.len() == playlists@.len());
    None
}

/// Once found among the first `n`, the first playlist with an id is the
/// same among the first `m >= n`.
proof fn lemma_first_with_id_stays(playlists: Seq<(Seq<char>, Seq<char>)>, id: Seq<char>, n: int, m: int)
    requires
        n <= m,
        first_with_id(playlists, id, n) is Some,
    ensures
        first_with_id(playlists, id, m) == first_with_id(playlists, id, n),
    decreases m - n,
{
    if m > n {
        lemma_first_with_id_stays(playlists, id, n, m - 1);
    }
}

/// The active playlist as MPRIS reports it: `(true, its entry)` when the
/// active id names a library playlist, else `(false, ("/", "", ""))`.
pub fn active_playlist(active_id: Option<&str>, playlists: &[(String, String)]) -> (r: (bool, (String, String, String)))
    ensures
        ({
            let lib = playlists@.map_values(|p: (String, String)| library_view(p));
            match active_id {
                Some(id) => match first_with_id(lib, id@, lib.len() as int) {
                    Some(i) => r.0 && entry_view(r.1) == (playlist_path_spec(id@), lib[i].1, Seq::<char>::empty()),
                    None => !r.0 && entry_view(r.1) == ("/"@, Seq::<char>::empty(), Seq::<char>::empty()),
                },
                None => !r.0 && entry_view(r.1) == ("/"@, Seq::<char>::empty(), Seq::<char>::empty()),
            }
        }),
{
    if let Some(id) = active_id {
        if let Some(i) = find_playlist(playlists, id) {
            proof {
                lemma_first_with_id_in_range(playlists@.map_values(|p: (String, String)| library_view(p)), id@, playlists@.len() as int);
            }
            return (true, (playlist_path_for_id(id), playlists[i].1.clone(), String::new()));
        }
    }
    (false, (String::from_str("/"), String::new(), String::new()))
}

/// The playlist found by `first_with_id` is one of the first `n`.
proof fn lemma_first_with_id_in_range(playlists: Seq<(Seq<char>, Seq<char>)>, id: Seq<char>, n: int)
    ensures
        first_with_id(playlists, id, n) matches Some(i) ==> 0 <= i < n,
    decreases n,
{
    if n > 0 {
        lemma_first_with_id_in_range(playlists, id, n - 1);
    }
}

/// The playlist to load for an activation of the object path `path`: the
/// first library playlist whose id the path names.
pub fn activate_target(path: &str, playlists: &[(String, String)]) -> (r: Option<usize>)
    ensures
        r == (match strip_prefix_spec(path@, "/org/ncspot/playlist/"@) {
            Some(id) => match first_with_id(playlists@.map_values(|p: (String, String)| library_view(p)), id, playlists@.len() as int) {
                Some(i) => Some(i as usize),
                None => None::<usize>,
            },
            None => None::<usize>,
        }),
{
    match parse_playlist_path(path) {
        Some(id) => find_playlist(playlists, id.as_str()),
        None => None,
    }
}

/// The orderings offered: only the user's own.
pub fn orderings() -> (r: Vec<String>)
    ensures
        r@.len() == 1,
        r@[0]@ == "UserDefined"@,
{
    let mut v: Vec<String> = Vec::new();
    v.push(String::from_str("UserDefined"));
    v
}

} // verus!
