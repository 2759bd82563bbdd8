//! The in-memory layer of the lyrics cache: lyrics by cache key, and the
//! file name under the cache directory that holds each key on disk.

use vstd::prelude::*;
use crate::lyrics::model::{LineView, LyricLine, Lyrics, LyricsValue, lines_view};
use crate::assoc::{entries_map, keys_unique, lemma_entries_absent, lemma_entries_at, lemma_entries_remove, lemma_entries_update};
use crate::text::push_char;

verus! {

/// The value of an optional text.
fn clone_opt(o: &Option<String>) -> (r: Option<String>)
    ensures
        r.deep_view() == o.deep_view(),
{
    match o {
        Some(t) => Some(t.clone()),
        None => None,
    }
}

/// A copy of lyrics.
pub fn clone_lyrics(l: &Lyrics) -> (r: Lyrics)
    ensures
        r@ == l@,
{
    let mut lines: Vec<LyricLine> = Vec::new();
    let mut i: usize = 0;
    while i < l.lines.len()
        invariant
            i <= l.lines@.len(),
            lines_view(lines@) == lines_view(l.lines@).subrange(0, i as int),
        decreases l.lines@.len() - i,
    {
        let src = &l.lines[i];
        let line = LyricLine {
            start_ms: src.start_ms,
            text: src.text.clone(),
            translation: clone_opt(&src.translation),
            romanization: clone_opt(&src.romanization),
        };
        let ghost before = lines_view(lines@);
        lines.push(line);
        proof {
            assert(line@ == lines_view(l.lines@)[i as int]);
            assert(lines_view(lines@) =~= before.push(line@));
            assert(lines_view(lines@) =~= lines_view(l.lines@).subrange(0, i + 1));
        }
        i = i + 1;
    }
    assert(lines_view(l.lines@).subrange(0, i as int) =~= lines_view(l.lines@));
    Lyrics { provider: l.provider, synced: l.synced, rtl: l.rtl, language: clone_opt(&l.language), lines }
}

/// Lyrics kept in memory by cache key, over a directory that holds them on
/// disk.
pub struct LyricsCache {
    dir: String,
    mem: Vec<(String, Lyrics)>,
}

/// The value of a cache entry.
pub open spec fn entry_view(e: (String, Lyrics)) -> (Seq<char>, LyricsValue) {
    (e.0@, e.1@)
}

impl LyricsCache {
    /// The cached lyrics by key.
    pub closed spec fn entries(&self) -> Map<Seq<char>, LyricsValue> {
        entries_map(self.mem@.map_values(|e: (String, Lyrics)| entry_view(e)))
    }

    /// The cache directory.
    pub closed spec fn directory(&self) -> Seq<char> {
        self.dir@
    }

    /// The cache's internal invariant: no key is held twice.
    pub closed spec fn wf(&self) -> bool {
        keys_unique(self.mem@.map_values(|e: (String, Lyrics)| entry_view(e)))
    }

    pub fn new(dir: String) -> (r: Self)
        ensures
            r.wf(),
            r.entries() == Map::<Seq<char>, LyricsValue>::empty(),
            r.directory() == dir@,
    {
        let r = LyricsCache { dir, mem: Vec::new() };
        assert(r.mem@.map_values(|e: (String, Lyrics)| entry_view(e)) =~= Seq::<(Seq<char>, LyricsValue)>::empty());
        r
    }

    /// The file under the cache directory that holds `key`: `key.json`, after
    /// a `/` unless the directory is empty or already ends with one.
    pub fn path(&self, key: &str) -> (r: String)
        ensures
            r@ == cache_file(self.directory(), key@),
    {
        let mut r = self.dir.clone();
        let n = self.dir.as_str().unicode_len();
        if n > 0 && self.dir.as_str().get_char(n - 1) != '/' {
            push_char(&mut r, '/');
        }
        r.append(key);
        push_char(&mut r, '.');
        push_char(&mut r, 'j');
        push_char(&mut r, 's');
        push_char(&mut r, 'o');
        push_char(&mut r, 'n');
        assert(r@ =~= cache_file(self.directory(), key@));
        r
    }

    /// The index of the entry for `key`, if any.
    fn find(&self, key: &str) -> (r: Option<usize>)
        requires
            self.wf(),
        ensures
            match r {
                Some(i) => i < self.mem@.len() && self.mem@[i as int].0@ == key@,
                None => forall|i: int| 0 <= i < self.mem@.len() ==> self.mem@[i].0@ != key@,
            },
    {
        let mut i: usize = 0;
        while i < self.mem.len()
            invariant
                i <= self.mem@.len(),
                forall|j: int| 0 <= j < i ==> self.mem@[j].0@ != key@,
            decreases self.mem@.len() - i,
        {
            if crate::text::str_eq(self.mem[i].0.as_str(), key) {
                return Some(i);
            }
            i = i + 1;
        }
        None
    }

    /// The lyrics cached in memory under `key`.
    pub fn get(&self, key: &str) -> (r: Option<Lyrics>)
        requires
            self.wf(),
        ensures
            match r {
                Some(l) => self.entries().contains_key(key@) && self.entries()[key@] == l@,
                None => !self.entries().contains_key(key@),
            },
    {
        let ghost s = self.mem@.map_values(|e: (String, Lyrics)| entry_view(e));
        match self.find(key) {
            Some(i) => {
                proof {
                    assert(s[i as int] == entry_view(self.mem@[i as int]));
                    lemma_entries_at(s, i as int);
                }
                Some(clone_lyrics(&self.mem[i].1))
            },
            None => {
                proof {
                    assert forall|j: int| 0 <= j < s.len() implies s[j].0 != key@ by {
                        assert(s[j] == entry_view(self.mem@[j]));
                    }
                    lemma_entries_absent(s, key@);
                }
                None
            },
        }
    }

    /// Keeps `lyrics` in memory under `key`, in place of what was there.
    pub fn put(&mut self, key: &str, lyrics: &Lyrics)
        requires
            old(self).wf(),
        ensures
            final(self).wf(),
            final(self).entries() == old(self).entries().insert(key@, lyrics@),
            final(self).directory() == old(self).directory(),
    {
        let ghost s = self.mem@.map_values(|e: (String, Lyrics)| entry_view(e));
        let copy = clone_lyrics(lyrics);
        let k = String::from_str(key);
        match self.find(key) {
            Some(i) => {
                self.mem.set(i, (k, copy));
                proof {
                    assert(s[i as int] == entry_view(old(self).mem@[i as int]));
                    assert(self.mem@.map_values(|e: (String, Lyrics)| entry_view(e)) =~= s.update(
                        i as int,
                        (key@, lyrics@),
                    ));
                    lemma_entries_update(s, i as int, lyrics@);
                }
            },
            None => {
                self.mem.push((k, copy));
                proof {
                    assert forall|j: int| 0 <= j < s.len() implies s[j].0 != key@ by {
                        assert(s[j] == entry_view(old(self).mem@[j]));
                    }
                    let t = self.mem@.map_values(|e: (String, Lyrics)| entry_view(e));
                    assert(t =~= s.push((key@, lyrics@)));
                    assert(t.drop_last() =~= s);
                }
            },
        }
    }

    /// Drops the lyrics kept in memory under `key`.
    pub fn remove(&mut self, key: &str)
        requires
            old(self).wf(),
        ensures
            final(self).wf(),
            final(self).entries() == old(self).entries().remove(key@),
            final(self).directory() == old(self).directory(),
    {
        let ghost s = self.mem@.map_values(|e: (String, Lyrics)| entry_view(e));
        match self.find(key) {
            Some(i) => {
                self.mem.remove(i);
                proof {
                    assert(s[i as int] == entry_view(old(self).mem@[i as int]));
                    assert(self.mem@.map_values(|e: (String, Lyrics)| entry_view(e)) =~= s.remove(i as int));
                    lemma_entries_remove(s, i as int);
                }
            },
            None => {
                proof {
                    assert forall|j: int| 0 <= j < s.len() implies s[j].0 != key@ by {
                        assert(s[j] == entry_view(old(self).mem@[j]));
                    }
                    lemma_entries_absent(s, key@);
                    assert(self.entries() =~= old(self).entries().remove(key@));
                }
            },
        }
    }
}

/// The name of the file under `dir` that holds the cache key `key`.
pub open spec fn cache_file(dir: Seq<char>, key: Seq<char>) -> Seq<char> {
    let sep = if dir.len() > 0 && dir.last() != '/' {
        seq!['/']
    } else {
        Seq::empty()
    };
    dir + sep + key + seq!['.', 'j', 's', 'o', 'n']
}

/// Reading back a key after keeping lyrics under it gives those lyrics;
/// other keys keep what they had.
pub proof fn lemma_cache_put_then_get(
    m: Map<Seq<char>, LyricsValue>,
    key: Seq<char>,
    lyrics: LyricsValue,
    other: Seq<char>,
)
    ensures
        m.insert(key, lyrics).contains_key(key),
        m.insert(key, lyrics)[key] == lyrics,
        other != key ==> m.insert(key, lyrics).contains_key(other) == m.contains_key(other),
        other != key ==> m.insert(key, lyrics)[other] == m[other],
        !m.remove(key).contains_key(key),
{
}

} // verus!
