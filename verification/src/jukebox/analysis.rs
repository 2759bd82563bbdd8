//! Where the audio analysis of a track comes from: the cache key of a track,
//! the order in which the analysis sources are asked, and where each source
//! is asked.

use vstd::prelude::*;
use crate::lyrics::sanitize_key;
use crate::text::{push_char, str_eq};

verus! {

/// The cache key of a track: its id with path separators replaced.
pub fn cache_key(track_id: &str) -> (r: String)
    ensures
        r@ == sanitize_key(track_id@),
{
    let n = track_id.unicode_len();
    let mut out = String::new();
    let mut i: usize = 0;
    while i < n
        invariant
            n == track_id@.len(),
            i <= n,
            out@ == sanitize_key(track_id@.subrange(0, i as int)),
        decreases n - i,
    {
        let c = track_id.get_char(i);
        let d = if c == '/' || c == '\\' {
            '_'
        } else {
            c
        };
        push_char(&mut out, d);
        i = i + 1;
        assert(out@ =~= sanitize_key(track_id@.subrange(0, i as int)));
    }
    assert(track_id@.subrange(0, n as int) =~= track_id@);
    out
}

/// The first of the first `n` sources whose id is `id`.
pub open spec fn first_source(sources: Seq<(Seq<char>, bool)>, id: Seq<char>, n: int) -> Option<int>
    decreases n,
{
    if n <= 0 {
        None
    } else {
        match first_source(sources, id, n - 1) {
            Some(i) => Some(i),
            None => if sources[n - 1].0 == id {
                Some(n - 1)
            } else {
                None
            },
        }
    }
}

/// The sources asked, in turn, for the ids of `order`: for each id the first
/// source with that id, when it is enabled.
pub open spec fn source_order_spec(order: Seq<Seq<char>>, sources: Seq<(Seq<char>, bool)>) -> Seq<usize>
    decreases order.len(),
{
    if order.len() == 0 {
        Seq::empty()
    } else {
        let before = source_order_spec(order.drop_last(), sources);
        match first_source(sources, order.last(), sources.len() as int) {
            Some(i) => if sources[i].1 {
                before.push(i as usize)
            } else {
                before
            },
            None => before,
        }
    }
}

/// The value of a source: its id and whether it is enabled.
pub open spec fn source_view(s: (String, bool)) -> (Seq<char>, bool) {
    (s.0@, s.1)
}

proof fn lemma_first_source_stays(sources: Seq<(Seq<char>, bool)>, id: Seq<char>, n: int, m: int)
    requires
        n <= m,
        first_source(sources, id, n) is Some,
    ensures
        first_source(sources, id, m) == first_source(sources, id, n),
    decreases m - n,
{
    if m > n {
        lemma_first_source_stays(sources, id, n, m - 1);
    }
}

proof fn lemma_first_source_in_range(sources: Seq<(Seq<char>, bool)>, id: Seq<char>, n: int)
    ensures
        first_source(sources, id, n) matches Some(i) ==> 0 <= i < n,
    decreases n,
{
    if n > 0 {
        lemma_first_source_in_range(sources, id, n - 1);
    }
}

fn find_source(sources: &[(String, bool)], id: &str) -> (r: Option<usize>)
    ensures
        r == (match first_source(sources@.map_values(|s: (String, bool)| source_view(s)), id@, sources@.len() as int) {
            Some(i) => Some(i as usize),
            None => None::<usize>,
        }),
        r matches Some(i) ==> i < sources@.len(),
{
    let ghost sv = sources@.map_values(|s: (String, bool)| source_view(s));
    let mut i: usize = 0;
    while i < sources.len()
        invariant
            i <= sources@.len(),
            sv == sources@.map_values(|s: (String, bool)| source_view(s)),
            first_source(sv, id@, i as int) is None,
        decreases sources@.len() - i,
    {
        if str_eq(sources[i].0.as_str(), id) {
            proof {
                assert(sv[i as int].0 == id@);
                lemma_first_source_stays(sv, id@, i + 1, sources@.len() as int);
            }
            return Some(i);
        }
        proof {
            assert(sv[i as int].0 == sources@[i as int].0@);
        }
        i = i + 1;
    }
    None
}

/// The sources to ask, in turn, by their index in `sources` (id, enabled).
pub fn source_order(order: &[String], sources: &[(String, bool)]) -> (r: Vec<usize>)
    ensures
        r@ == source_order_spec(order@.map_values(|s: String| s@), sources@.map_values(|s: (String, bool)| source_view(s))),
{
    let ghost ov = order@.map_values(|s: String| s@);
    let ghost sv = sources@.map_values(|s: (String, bool)| source_view(s));
    let mut out: Vec<usize> = Vec::new();
    let mut k: usize = 0;
    while k < order.len()
        invariant
            k <= order@.len(),
            ov == order@.map_values(|s: String| s@),
            sv == sources@.map_values(|s: (String, bool)| source_view(s)),
            out@ == source_order_spec(ov.subrange(0, k as int), sv),
        decreases order@.len() - k,
    {
        let found = find_source(sources, order[k].as_str());
        proof {
            let p = ov.subrange(0, k + 1);
            assert(p.drop_last() =~= ov.subrange(0, k as int));
            assert(p.last() == order@[k as int]@);
            lemma_first_source_in_range(sv, p.last(), sv.len() as int);
        }
        match found {
            Some(i) => {
                assert(sv[i as int].1 == sources@[i as int].1);
                if sources[i].1 {
                    out.push(i);
                }
            },
            None => {},
        }
        k = k + 1;
    }
    assert(ov.subrange(0, k as int) =~= ov);
    out
}


/// The Spotify endpoint of a track's audio analysis.
pub open spec fn spclient_endpoint_spec(track_id: Seq<char>) -> Seq<char> {
    "/audio-attributes/v1/audio-analysis/"@ + track_id + "?format=json"@
}

/// The Spotify endpoint of a track's audio analysis.
pub fn spclient_endpoint(track_id: &str) -> (r: String)
    ensures
        r@ == spclient_endpoint_spec(track_id@),
{
    let mut r = String::from_str("/audio-attributes/v1/audio-analysis/");
    r.append(track_id);
    r.append("?format=json");
    r
}

/// `s` without its trailing slashes.
pub open spec fn trim_trailing_slashes(s: Seq<char>) -> Seq<char>
    decreases s.len(),
{
    if s.len() > 0 && s.last() == '/' {
        trim_trailing_slashes(s.drop_last())
    } else {
        s
    }
}

/// The URL of a track's analysis on an eternalbox instance at `base_url`.
pub open spec fn eternalbox_url_spec(base_url: Seq<char>, track_id: Seq<char>) -> Seq<char> {
    trim_trailing_slashes(base_url) + "/api/analysis/analyse/"@ + track_id
}

/// The URL of a track's analysis on an eternalbox instance.
pub fn eternalbox_url(base_url: &str, track_id: &str) -> (r: String)
    ensures
        r@ == eternalbox_url_spec(base_url@, track_id@),
{
    let mut n = base_url.unicode_len();
    assert(base_url@.subrange(0, n as int) =~= base_url@);
    while n > 0 && base_url.get_char(n - 1) == '/'
        invariant
            n <= base_url@.len(),
            trim_trailing_slashes(base_url@.subrange(0, n as int)) == trim_trailing_slashes(base_url@),
        decreases n,
    {
        proof {
            assert(base_url@.subrange(0, n as int).drop_last() =~= base_url@.subrange(0, n - 1));
        }
        n = n - 1;
    }
    let mut r = String::new();
    let mut i: usize = 0;
    while i < n
        invariant
            n <= base_url@.len(),
            i <= n,
            r@ == base_url@.subrange(0, i as int),
        decreases n - i,
    {
        push_char(&mut r, base_url.get_char(i));
        i = i + 1;
        assert(r@ =~= base_url@.subrange(0, i as int));
    }
    proof {
        let t = base_url@.subrange(0, n as int);
        if n > 0 {
            assert(t.last() == base_url@[n - 1]);
        }
        assert(trim_trailing_slashes(t) == t);
    }
    r.append("/api/analysis/analyse/");
    r.append(track_id);
    r
}

} // verus!
