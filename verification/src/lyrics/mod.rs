//! Lyrics: the data model, the LRC format, romanization, what each provider
//! answers, the cache, and the order in which providers are asked.

pub mod cache;
pub mod json;
pub mod lrc;
pub mod model;
pub mod providers;
pub mod requests;
pub mod romanize;

use vstd::prelude::*;
use crate::lyrics::cache::{LyricsCache, clone_lyrics};
use crate::lyrics::model::{Lyrics, LyricsValue, ProviderId, TrackMeta, provider_key};
use crate::text::push_char;

verus! {

/// How a search for lyrics ended.
pub enum FetchOutcome {
    Found(Lyrics),
    NotFound { tried: Vec<ProviderId> },
    /// At least one provider failed and none found lyrics, so whether lyrics
    /// exist is unknown.
    Error { message: String },
}

/// What a provider answered when asked for lyrics.
pub enum ProviderAnswer {
    Found(Lyrics),
    /// Reachable, but no match.
    Nothing,
    /// A transient failure, with its description; the search goes on.
    Failed(String),
}

/// `s` with path separators (`/` and `\`) replaced by `_`.
pub open spec fn sanitize_key(s: Seq<char>) -> Seq<char> {
    s.map_values(|c: char| if c == '/' || c == '\\' { '_' } else { c })
}

/// The cache key of a track: its Spotify id, else `title|artist`, with path
/// separators replaced so that keys cannot leave the cache directory.
pub open spec fn cache_key_of(t: TrackMeta) -> Seq<char> {
    sanitize_key(
        match t.spotify_id {
            Some(id) => id@,
            None => t.title@ + seq!['|'] + t.artist@,
        },
    )
}

/// The providers of `order` that are registered, in the order given.
pub open spec fn registered_in_order(order: Seq<ProviderId>, registered: Seq<ProviderId>) -> Seq<ProviderId>
    decreases order.len(),
{
    if order.len() == 0 {
        Seq::empty()
    } else {
        let before = registered_in_order(order.drop_last(), registered);
        if registered.contains(order.last()) {
            before.push(order.last())
        } else {
            before
        }
    }
}

/// The failure notes of a search joined by `; `.
pub open spec fn join_notes(notes: Seq<Seq<char>>) -> Seq<char>
    decreases notes.len(),
{
    if notes.len() == 0 {
        Seq::empty()
    } else if notes.len() == 1 {
        notes[0]
    } else {
        join_notes(notes.drop_last()) + seq![';', ' '] + notes.last()
    }
}

/// The note for a provider's failure: `name: description`.
pub open spec fn failure_note(id: ProviderId, message: Seq<char>) -> Seq<char> {
    provider_key(id) + seq![':', ' '] + message
}

/// A search for lyrics in progress: the providers to ask, in order, how far
/// the search has come, the providers asked and the failures met.
pub struct FetchRun {
    key: String,
    hit: Option<Lyrics>,
    candidates: Vec<ProviderId>,
    next: usize,
    tried: Vec<ProviderId>,
    failures: Vec<String>,
}

impl FetchRun {
    /// The cache key of the track searched for.
    pub closed spec fn key(&self) -> Seq<char> {
        self.key@
    }

    /// The lyrics found in the cache, which end the search at once.
    pub closed spec fn cached(&self) -> Option<LyricsValue> {
        match self.hit {
            Some(l) => Some(l@),
            None => None,
        }
    }

    /// The providers to ask, in order.
    pub closed spec fn candidates(&self) -> Seq<ProviderId> {
        self.candidates@
    }

    /// How many candidates have been handed out.
    pub closed spec fn handed_out(&self) -> int {
        self.next as int
    }

    /// The providers that answered, in order.
    pub closed spec fn tried(&self) -> Seq<ProviderId> {
        self.tried@
    }

    /// The failure notes met so far.
    pub closed spec fn failures(&self) -> Seq<Seq<char>> {
        self.failures@.map_values(|s: String| s@)
    }

    pub closed spec fn wf(&self) -> bool {
        self.next <= self.candidates@.len()
    }

    /// The next provider to ask, if any is left.
    pub fn next_provider(&mut self) -> (r: Option<ProviderId>)
        requires
            old(self).wf(),
        ensures
            final(self).wf(),
            final(self).key() == old(self).key(),
            final(self).cached() == old(self).cached(),
            final(self).candidates() == old(self).candidates(),
            final(self).tried() == old(self).tried(),
            final(self).failures() == old(self).failures(),
            old(self).cached() is None && old(self).handed_out() < old(self).candidates().len() ==> (
            r == Some(old(self).candidates()[old(self).handed_out()]) && final(self).handed_out()
                == old(self).handed_out() + 1),
            !(old(self).cached() is None && old(self).handed_out() < old(self).candidates().len()) ==> (
            r is None && final(self).handed_out() == old(self).handed_out()),
    {
        if self.hit.is_none() && self.next < self.candidates.len() {
            let id = self.candidates[self.next];
            self.next = self.next + 1;
            Some(id)
        } else {
            None
        }
    }

    /// How the search ends once every provider has been asked: the cached
    /// lyrics if there were any; else `NotFound` with the providers asked when
    /// none failed; else `Error` with the failure notes joined by `; `.
    pub fn finish(self) -> (r: FetchOutcome)
        ensures
            match self.cached() {
                Some(l) => r matches FetchOutcome::Found(found) && found@ == l,
                None => if self.failures().len() == 0 {
                    r matches FetchOutcome::NotFound { tried } && tried@ == self.tried()
                } else {
                    r matches FetchOutcome::Error { message } && message@ == join_notes(self.failures())
                },
            },
    {
        if let Some(l) = self.hit {
            return FetchOutcome::Found(l);
        }
        if self.failures.len() == 0 {
            return FetchOutcome::NotFound { tried: self.tried };
        }
        let ghost notes = self.failures@.map_values(|s: String| s@);
        let mut message = String::new();
        let mut i: usize = 0;
        while i < self.failures.len()
            invariant
                notes == self.failures@.map_values(|s: String| s@),
                0 < notes.len(),
                i <= notes.len(),
                i > 0 ==> message@ == join_notes(notes.subrange(0, i as int)),
                i == 0 ==> message@ == Seq::<char>::empty(),
            decreases notes.len() - i,
        {
            let ghost before = message@;
            if i > 0 {
                push_char(&mut message, ';');
                push_char(&mut message, ' ');
            }
            message.append(self.failures[i].as_str());
            proof {
                let p = notes.subrange(0, i + 1);
                assert(p.drop_last() =~= notes.subrange(0, i as int));
                assert(p.last() == self.failures@[i as int]@);
                if i > 0 {
                    assert(message@ =~= before + seq![';', ' '] + p.last());
                } else {
                    assert(message@ =~= p[0]);
                }
            }
            i = i + 1;
        }
        assert(notes.subrange(0, i as int) =~= notes);
        FetchOutcome::Error { message }
    }
}

/// The lyrics providers that are registered, and the lyrics cache.
pub struct LyricsManager {
    providers: Vec<ProviderId>,
    cache: LyricsCache,
}

impl LyricsManager {
    /// The registered providers.
    pub closed spec fn providers(&self) -> Seq<ProviderId> {
        self.providers@
    }

    /// The cached lyrics by key.
    pub closed spec fn cached(&self) -> Map<Seq<char>, LyricsValue> {
        self.cache.entries()
    }

    pub closed spec fn wf(&self) -> bool {
        self.cache.wf()
    }

    pub fn new(providers: Vec<ProviderId>, cache: LyricsCache) -> (r: Self)
        requires
            cache.wf(),
        ensures
            r.wf(),
            r.providers() == providers@,
            r.cached() == cache.entries(),
    {
        LyricsManager { providers, cache }
    }

    /// The cache in which lyrics are kept.
    pub fn cache(&self) -> (r: &LyricsCache)
        ensures
            r.entries() == self.cached(),
            self.wf() ==> r.wf(),
    {
        &self.cache
    }

    /// Keeps lyrics read back from disk in the cache.
    pub fn remember(&mut self, key: &str, lyrics: &Lyrics)
        requires
            old(self).wf(),
        ensures
            final(self).wf(),
            final(self).providers() == old(self).providers(),
            final(self).cached() == old(self).cached().insert(key@, lyrics@),
    {
        self.cache.put(key, lyrics);
    }

    /// The cache key of a track.
    pub fn cache_key(track: &TrackMeta) -> (r: String)
        ensures
            r@ == cache_key_of(*track),
    {
        let raw: String = match &track.spotify_id {
            Some(id) => id.clone(),
            None => {
                let mut s = track.title.clone();
                push_char(&mut s, '|');
                s.append(track.artist.as_str());
                s
            },
        };
        assert(raw@ =~= match track.spotify_id {
            Some(id) => id@,
            None => track.title@ + seq!['|'] + track.artist@,
        });
        let n = raw.as_str().unicode_len();
        let mut out = String::new();
        let mut i: usize = 0;
        while i < n
            invariant
                n == raw@.len(),
                i <= n,
                out@ == sanitize_key(raw@.subrange(0, i as int)),
            decreases n - i,
        {
            let c = raw.as_str().get_char(i);
            let d = if c == '/' || c == '\\' {
                '_'
            } else {
                c
            };
            push_char(&mut out, d);
            i = i + 1;
            assert(out@ =~= sanitize_key(raw@.subrange(0, i as int)));
        }
        assert(raw@.subrange(0, n as int) =~= raw@);
        out
    }

    /// Forgets the cached lyrics of a track.
    pub fn invalidate(&mut self, track: &TrackMeta)
        requires
            old(self).wf(),
        ensures
            final(self).wf(),
            final(self).providers() == old(self).providers(),
            final(self).cached() == old(self).cached().remove(cache_key_of(*track)),
    {
        let key = Self::cache_key(track);
        self.cache.remove(key.as_str());
    }

    /// Begins a search for the lyrics of a track: at once found when the
    /// cache holds them, else over the registered providers in `order`.
    pub fn fetch(&self, order: &[ProviderId], track: &TrackMeta) -> (r: FetchRun)
        requires
            self.wf(),
        ensures
            r.wf(),
            r.key() == cache_key_of(*track),
            r.handed_out() == 0,
            r.tried() == Seq::<ProviderId>::empty(),
            r.failures() == Seq::<Seq<char>>::empty(),
            self.cached().contains_key(cache_key_of(*track)) ==> r.cached() == Some(
                self.cached()[cache_key_of(*track)],
            ),
            !self.cached().contains_key(cache_key_of(*track)) ==> r.cached() is None
                && r.candidates() == registered_in_order(order@, self.providers()),
    {
        let key = Self::cache_key(track);
        let hit = self.cache.get(key.as_str());
        let mut candidates: Vec<ProviderId> = Vec::new();
        if hit.is_none() {
            let mut i: usize = 0;
            while i < order.len()
                invariant
                    i <= order@.len(),
                    candidates@ == registered_in_order(order@.subrange(0, i as int), self.providers@),
                decreases order@.len() - i,
            {
                let id = order[i];
                let mut found = false;
                let mut j: usize = 0;
                while j < self.providers.len()
                    invariant
                        j <= self.providers@.len(),
                        found == exists|k: int| 0 <= k < j && self.providers@[k] == id,
                    decreases self.providers@.len() - j,
                {
                    if self.providers[j] == id {
                        found = true;
                    }
                    j = j + 1;
                }
                proof {
                    let p = order@.subrange(0, i + 1);
                    assert(p.drop_last() =~= order@.subrange(0, i as int));
                    assert(p.last() == id);
                    if found {
                        let k = choose|k: int| 0 <= k < j && self.providers@[k] == id;
                        assert(self.providers@.contains(id));
                    }
                }
                if found {
                    candidates.push(id);
                }
                i = i + 1;
            }
            assert(order@.subrange(0, i as int) =~= order@);
        }
        let run = FetchRun {
            key,
            hit,
            candidates,
            next: 0,
            tried: Vec::new(),
            failures: Vec::new(),
        };
        assert(run.failures@.map_values(|s: String| s@) =~= Seq::<Seq<char>>::empty());
        run
    }

    /// Takes in the answer of provider `id`, which was handed out and is
    /// enabled. Found lyrics end the search and are cached; nothing found goes
    /// on; a failure is noted as `name: description` and the search goes on.
    pub fn answer(&mut self, run: &mut FetchRun, id: ProviderId, reply: ProviderAnswer) -> (r: Option<FetchOutcome>)
        requires
            old(self).wf(),
            old(run).wf(),
        ensures
            final(self).wf(),
            final(run).wf(),
            final(self).providers() == old(self).providers(),
            final(run).key() == old(run).key(),
            final(run).cached() == old(run).cached(),
            final(run).candidates() == old(run).candidates(),
            final(run).handed_out() == old(run).handed_out(),
            final(run).tried() == old(run).tried().push(id),
            match reply {
                ProviderAnswer::Found(l) => r == Some(FetchOutcome::Found(l)) && final(self).cached()
                    == old(self).cached().insert(old(run).key(), l@) && final(run).failures()
                    == old(run).failures(),
                ProviderAnswer::Nothing => r is None && final(self).cached() == old(self).cached()
                    && final(run).failures() == old(run).failures(),
                ProviderAnswer::Failed(e) => r is None && final(self).cached() == old(self).cached()
                    && final(run).failures() == old(run).failures().push(failure_note(id, e@)),
            },
    {
        run.tried.push(id);
        match reply {
            ProviderAnswer::Found(l) => {
                self.cache.put(run.key.as_str(), &l);
                Some(FetchOutcome::Found(l))
            },
            ProviderAnswer::Nothing => None,
            ProviderAnswer::Failed(e) => {
                let mut note = String::from_str(id.as_str());
                push_char(&mut note, ':');
                push_char(&mut note, ' ');
                note.append(e.as_str());
                let ghost before = run.failures@.map_values(|s: String| s@);
                run.failures.push(note);
                proof {
                    assert(note@ =~= failure_note(id, e@));
                    assert(run.failures@.map_values(|s: String| s@) =~= before.push(note@));
                }
                None
            },
        }
    }
}

} // verus!
