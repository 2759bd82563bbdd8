//! The MPRIS metadata of a queue entry: which field comes from where, and
//! the defaults of a missing entry or of a field an episode does not have.

use vstd::prelude::*;

verus! {

/// What the metadata needs of a track.
pub struct TrackInfo {
    pub title: String,
    pub track_number: u32,
    pub disc_number: i32,
    pub duration_ms: u32,
    pub artists: Vec<String>,
    pub album: Option<String>,
    pub album_artists: Vec<String>,
    pub cover_url: Option<String>,
    pub share_url: Option<String>,
}

/// What the metadata needs of a podcast episode.
pub struct EpisodeInfo {
    pub name: String,
    pub duration_ms: u32,
    pub description: String,
    pub release_date: String,
    pub cover_url: Option<String>,
    pub share_url: Option<String>,
}

/// A queue entry, as far as its metadata goes.
pub enum PlayableInfo {
    Track(TrackInfo),
    Episode(EpisodeInfo),
}

/// The MPRIS metadata of an entry. `saved` gives both ratings (1 for a
/// track in the library, else 0).
pub struct Metadata {
    pub track_id: String,
    pub length_us: i64,
    pub art_url: String,
    pub album: String,
    pub album_artists: Vec<String>,
    pub artists: Vec<String>,
    pub disc_number: i32,
    pub title: String,
    pub track_number: i32,
    pub url: String,
    pub saved: bool,
    pub content_created: Option<String>,
    pub comment: Option<Vec<String>>,
}

/// The text of an optional text, empty when absent.
pub open spec fn or_empty(o: Option<String>) -> Seq<char> {
    match o {
        Some(s) => s@,
        None => Seq::empty(),
    }
}

/// The values of a list of texts.
pub open spec fn texts(v: Vec<String>) -> Seq<Seq<char>> {
    v@.map_values(|s: String| s@)
}

fn text_or_empty(o: &Option<String>) -> (r: String)
    ensures
        r@ == or_empty(*o),
{
    match o {
        Some(s) => s.clone(),
        None => String::new(),
    }
}

fn clone_texts(v: &Vec<String>) -> (r: Vec<String>)
    ensures
        texts(r) == texts(*v),
{
    let mut out: Vec<String> = Vec::new();
    let mut i: usize = 0;
    while i < v.len()
        invariant
            i <= v@.len(),
            texts(out) == texts(*v).subrange(0, i as int),
        decreases v@.len() - i,
    {
        let ghost before = texts(out);
        out.push(v[i].clone());
        assert(texts(out) =~= before.push(v@[i as int]@));
        assert(texts(*v).subrange(0, i + 1) =~= texts(*v).subrange(0, i as int).push(v@[i as int]@));
        i = i + 1;
    }
    assert(texts(*v).subrange(0, i as int) =~= texts(*v));
    out
}

/// The metadata of the entry `playable` (none: the defaults) at the object
/// path `track_path`. Length in microseconds; title, art and share URL of
/// either kind; album, artists, disc and track number of tracks only; the
/// release date and description of episodes, when not empty. `saved` says
/// whether the track is in the library; it counts for tracks only.
pub fn build_metadata(playable: Option<&PlayableInfo>, track_path: &str, saved: bool) -> (r: Metadata)
    ensures
        r.track_id@ == track_path@,
        r.saved == (saved && playable matches Some(PlayableInfo::Track(_))),
        match playable {
            None => {
                &&& r.length_us == 0
                &&& r.art_url@ == Seq::<char>::empty()
                &&& r.album@ == Seq::<char>::empty()
                &&& texts(r.album_artists) == Seq::<Seq<char>>::empty()
                &&& texts(r.artists) == Seq::<Seq<char>>::empty()
                &&& r.disc_number == 0
                &&& r.title@ == Seq::<char>::empty()
                &&& r.track_number == 0
                &&& r.url@ == Seq::<char>::empty()
                &&& r.content_created is None
                &&& r.comment is None
            },
            Some(PlayableInfo::Track(t)) => {
                &&& r.length_us == t.duration_ms * 1000
                &&& r.art_url@ == or_empty(t.cover_url)
                &&& r.album@ == or_empty(t.album)
                &&& texts(r.album_artists) == texts(t.album_artists)
                &&& texts(r.artists) == texts(t.artists)
                &&& r.disc_number == t.disc_number
                &&& r.title@ == t.title@
                &&& r.track_number == t.track_number as i32
                &&& r.url@ == or_empty(t.share_url)
                &&& r.content_created is None
                &&& r.comment is None
            },
            Some(PlayableInfo::Episode(e)) => {
                &&& r.length_us == e.duration_ms * 1000
                &&& r.art_url@ == or_empty(e.cover_url)
                &&& r.album@ == Seq::<char>::empty()
                &&& texts(r.album_artists) == Seq::<Seq<char>>::empty()
                &&& texts(r.artists) == Seq::<Seq<char>>::empty()
                &&& r.disc_number == 0
                &&& r.title@ == e.name@
                &&& r.track_number == 0
                &&& r.url@ == or_empty(e.share_url)
                &&& r.content_created.deep_view() == (if e.release_date@.len() == 0 {
                    None
                } else {
                    Some(e.release_date@)
                })
                &&& match r.comment {
                    Some(c) => e.description@.len() > 0 && texts(c) == seq![e.description@],
                    None => e.description@.len() == 0,
                }
            },
        },
{
    let track_id = String::from_str(track_path);
    match playable {
        None => {
            let r = Metadata {
                track_id,
                length_us: 0,
                art_url: String::new(),
                album: String::new(),
                album_artists: Vec::new(),
                artists: Vec::new(),
                disc_number: 0,
                title: String::new(),
                track_number: 0,
                url: String::new(),
                saved: false,
                content_created: None,
                comment: None,
            };
            assert(texts(r.artists) =~= Seq::<Seq<char>>::empty());
            assert(texts(r.album_artists) =~= Seq::<Seq<char>>::empty());
            r
        },
        Some(PlayableInfo::Track(t)) => Metadata {
            track_id,
            length_us: t.duration_ms as i64 * 1000,
            art_url: text_or_empty(&t.cover_url),
            album: text_or_empty(&t.album),
            album_artists: clone_texts(&t.album_artists),
            artists: clone_texts(&t.artists),
            disc_number: t.disc_number,
            title: t.title.clone(),
            track_number: t.track_number as i32,
            url: text_or_empty(&t.share_url),
            saved,
            content_created: None,
            comment: None,
        },
        Some(PlayableInfo::Episode(e)) => {
            let content_created = if e.release_date.unicode_len() == 0 {
                None
            } else {
                Some(e.release_date.clone())
            };
            let comment = if e.description.unicode_len() == 0 {
                None
            } else {
                let mut c: Vec<String> = Vec::new();
                c.push(e.description.clone());
                assert(texts(c) =~= seq![e.description@]);
                Some(c)
            };
            let r = Metadata {
                track_id,
                length_us: e.duration_ms as i64 * 1000,
                art_url: text_or_empty(&e.cover_url),
                album: String::new(),
                album_artists: Vec::new(),
                artists: Vec::new(),
                disc_number: 0,
                title: e.name.clone(),
                track_number: 0,
                url: text_or_empty(&e.share_url),
                saved: false,
                content_created,
                comment,
            };
            assert(texts(r.artists) =~= Seq::<Seq<char>>::empty());
            assert(texts(r.album_artists) =~= Seq::<Seq<char>>::empty());
            r
        },
    }
}

} // verus!
