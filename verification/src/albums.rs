//! The album index: artists with their releases, resolved from the same
//! expression-tree markup as the diary entries and sorted for presentation.
//! Artists come in order of shrinking discography (name as tie-break); each
//! bucket of releases is sorted by publication date.
use vstd::prelude::*;
use vstd::multiset::Multiset;
use vstd::string::StringSliceAdditionalSpecFns;
use vstd::seq_lib::group_seq_lib_default;
use vstd::utf8::encode_utf8;
use crate::date::{spec_days_in_month, Date};
use crate::sexp::{expect_application, ApplicationError, Expression, SpecExpr};
use crate::syntax_error::{Error, ParseResult, SpecSynErr};
use crate::text::{bytes_le, kw, lemma_bytes_le_total, str_le};

verus! {

broadcast use group_seq_lib_default;

/// The whole index: every artist, in presentation order.
#[derive(Debug, PartialEq, Eq)]
pub struct AlbumIndex(pub Vec<Artist>);

/// One artist and their releases.
#[derive(Debug, PartialEq, Eq)]
pub struct Artist {
    name: String,
    albums: AlbumList,
}

/// An artist's releases, one bucket per kind of release.
#[derive(Debug, PartialEq, Eq)]
pub struct AlbumList {
    studio_album: Vec<Album>,
    live_album: Vec<Album>,
    studio_and_live: Vec<Album>,
    compilation: Vec<Album>,
    concert: Vec<Album>,
}

/// One release: its title, its publication date, and the date of the diary
/// entry about it, if one exists.
#[derive(Debug, PartialEq, Eq)]
pub struct Album {
    name: String,
    published_at: Date,
    link_to_diary: Option<Date>,
}

/// The kinds of release the index distinguishes.
#[derive(Clone, Copy, Debug, PartialEq, Eq, Structural)]
pub enum AlbumKind {
    StudioAlbum,
    LiveAlbum,
    StudioAndLive,
    Compilation,
    Concert,
}

/// Mathematical model of an [`Album`]; dates are (year, month, day).
#[verifier::ext_equal]
pub struct SpecAlbum {
    pub name: Seq<char>,
    pub published_at: (u32, u32, u32),
    pub link_to_diary: Option<(u32, u32, u32)>,
}

/// Mathematical model of an [`AlbumList`].
#[verifier::ext_equal]
pub struct SpecAlbumList {
    pub studio_album: Seq<SpecAlbum>,
    pub live_album: Seq<SpecAlbum>,
    pub studio_and_live: Seq<SpecAlbum>,
    pub compilation: Seq<SpecAlbum>,
    pub concert: Seq<SpecAlbum>,
}

/// Mathematical model of an [`Artist`].
#[verifier::ext_equal]
pub struct SpecArtist {
    pub name: Seq<char>,
    pub albums: SpecAlbumList,
}

impl Album {
    /// The release seen as a mathematical value.
    pub closed spec fn model(self) -> SpecAlbum {
        SpecAlbum {
            name: self.name@,
            published_at: (
                self.published_at.spec_year(),
                self.published_at.spec_month(),
                self.published_at.spec_day(),
            ),
            link_to_diary: match self.link_to_diary {
                Some(d) => Some((d.spec_year(), d.spec_month(), d.spec_day())),
                None => None,
            },
        }
    }

    fn new(name: String, published_at: Date, link_to_diary: Option<Date>) -> (r: Self)
        ensures
            r.model() == (SpecAlbum {
                name: name@,
                published_at: (
                    published_at.spec_year(),
                    published_at.spec_month(),
                    published_at.spec_day(),
                ),
                link_to_diary: match link_to_diary {
                    Some(d) => Some((d.spec_year(), d.spec_month(), d.spec_day())),
                    None => None,
                },
            }),
    {
        Self { name, published_at, link_to_diary }
    }

    pub fn name(&self) -> (r: &str)
        ensures
            r@ == self.model().name,
    {
        self.name.as_str()
    }

    pub fn link_to_diary(&self) -> (r: &Option<Date>)
        ensures
            match r {
                Some(d) => self.model().link_to_diary == Some(
                    (d.spec_year(), d.spec_month(), d.spec_day()),
                ),
                None => self.model().link_to_diary is None,
            },
    {
        &self.link_to_diary
    }
}

/// Model of a release list, element-wise.
pub open spec fn albums_model(v: Seq<Album>) -> Seq<SpecAlbum> {
    Seq::new(v.len(), |i: int| v[i].model())
}

/// Date order, year before month before day.
pub open spec fn spec_date_le(a: (u32, u32, u32), b: (u32, u32, u32)) -> bool {
    a.0 < b.0 || (a.0 == b.0 && (a.1 < b.1 || (a.1 == b.1 && a.2 <= b.2)))
}

/// Release order: by publication date.
pub open spec fn spec_album_le(a: SpecAlbum, b: SpecAlbum) -> bool {
    spec_date_le(a.published_at, b.published_at)
}

/// Each release comes no later than the next.
pub open spec fn sorted_albums(s: Seq<SpecAlbum>) -> bool {
    forall|i: int| 0 <= i < s.len() - 1 ==> spec_album_le(#[trigger] s[i], s[i + 1])
}

/// How many releases a list holds over all buckets.
pub open spec fn spec_count(l: SpecAlbumList) -> int {
    l.studio_album.len() + l.live_album.len() + l.studio_and_live.len() + l.compilation.len()
        + l.concert.len() as int
}

/// Artist order: more releases first, names in byte order as tie-break.
pub open spec fn spec_artist_le(a: SpecArtist, b: SpecArtist) -> bool {
    spec_count(a.albums) > spec_count(b.albums) || (spec_count(a.albums) == spec_count(b.albums)
        && bytes_le(encode_utf8(a.name), encode_utf8(b.name)))
}

/// Each artist comes no later than the next.
pub open spec fn sorted_artists(s: Seq<SpecArtist>) -> bool {
    forall|i: int| 0 <= i < s.len() - 1 ==> spec_artist_le(#[trigger] s[i], s[i + 1])
}

/// One bucket list is the sorted rearrangement of another.
pub open spec fn sorted_bucket_of(a: Seq<SpecAlbum>, b: Seq<SpecAlbum>) -> bool {
    sorted_albums(a) && a.to_multiset() == b.to_multiset() && a.len() == b.len()
}

/// Every bucket of `a` is the sorted rearrangement of the same bucket of
/// `b`.
pub open spec fn sorted_list_of(a: SpecAlbumList, b: SpecAlbumList) -> bool {
    sorted_bucket_of(a.studio_album, b.studio_album) && sorted_bucket_of(
        a.live_album,
        b.live_album,
    ) && sorted_bucket_of(a.studio_and_live, b.studio_and_live) && sorted_bucket_of(
        a.compilation,
        b.compilation,
    ) && sorted_bucket_of(a.concert, b.concert)
}

/// An artist as resolved and then put in presentation order: same name, each
/// bucket sorted.
pub open spec fn artist_matches(a: Artist, s: SpecArtist) -> bool {
    a.model().name == s.name && sorted_list_of(a.model().albums, s.albums)
}

impl AlbumList {
    /// The list seen as a mathematical value.
    pub closed spec fn model(self) -> SpecAlbumList {
        SpecAlbumList {
            studio_album: albums_model(self.studio_album@),
            live_album: albums_model(self.live_album@),
            studio_and_live: albums_model(self.studio_and_live@),
            compilation: albums_model(self.compilation@),
            concert: albums_model(self.concert@),
        }
    }

    fn new() -> (r: Self)
        ensures
            r.model().studio_album.len() == 0,
            r.model().live_album.len() == 0,
            r.model().studio_and_live.len() == 0,
            r.model().compilation.len() == 0,
            r.model().concert.len() == 0,
    {
        Self {
            studio_album: Vec::new(),
            live_album: Vec::new(),
            studio_and_live: Vec::new(),
            compilation: Vec::new(),
            concert: Vec::new(),
        }
    }

    /// Put every bucket in date order; which of two same-dated releases
    /// comes first is not specified.
    fn sort(&mut self)
        ensures
            sorted_list_of(final(self).model(), old(self).model()),
    {
        let mut studio_album: Vec<Album> = Vec::new();
        let mut live_album: Vec<Album> = Vec::new();
        let mut studio_and_live: Vec<Album> = Vec::new();
        let mut compilation: Vec<Album> = Vec::new();
        let mut concert: Vec<Album> = Vec::new();
        core::mem::swap(&mut studio_album, &mut self.studio_album);
        core::mem::swap(&mut live_album, &mut self.live_album);
        core::mem::swap(&mut studio_and_live, &mut self.studio_and_live);
        core::mem::swap(&mut compilation, &mut self.compilation);
        core::mem::swap(&mut concert, &mut self.concert);
        self.studio_album = sort_albums(studio_album);
        self.live_album = sort_albums(live_album);
        self.studio_and_live = sort_albums(studio_and_live);
        self.compilation = sort_albums(compilation);
        self.concert = sort_albums(concert);
    }

    /// How many releases the list holds, over all buckets.
    pub fn len(&self) -> (r: usize)
        requires
            spec_count(self.model()) <= usize::MAX,
        ensures
            r == spec_count(self.model()),
    {
        self.studio_album.len() + self.live_album.len() + self.studio_and_live.len()
            + self.compilation.len() + self.concert.len()
    }

    pub fn studio_album(&self) -> (r: &[Album])
        ensures
            albums_model(r@) == self.model().studio_album,
    {
        self.studio_album.as_slice()
    }

    pub fn live_album(&self) -> (r: &[Album])
        ensures
            albums_model(r@) == self.model().live_album,
    {
        self.live_album.as_slice()
    }

    pub fn studio_and_live(&self) -> (r: &[Album])
        ensures
            albums_model(r@) == self.model().studio_and_live,
    {
        self.studio_and_live.as_slice()
    }

    pub fn compilation(&self) -> (r: &[Album])
        ensures
            albums_model(r@) == self.model().compilation,
    {
        self.compilation.as_slice()
    }

    pub fn live(&self) -> (r: &[Album])
        ensures
            albums_model(r@) == self.model().concert,
    {
        self.concert.as_slice()
    }
}

impl Artist {
    /// The artist seen as a mathematical value.
    pub closed spec fn model(self) -> SpecArtist {
        SpecArtist { name: self.name@, albums: self.albums.model() }
    }

    fn new(name: String, albums: AlbumList) -> (r: Self)
        ensures
            r.model() == (SpecArtist { name: name@, albums: albums.model() }),
    {
        Self { name, albums }
    }

    pub fn name(&self) -> (r: &str)
        ensures
            r@ == self.model().name,
    {
        self.name.as_str()
    }

    pub fn albums(&self) -> (r: &AlbumList)
        ensures
            r.model() == self.model().albums,
    {
        &self.albums
    }
}

impl AlbumIndex {
    fn new(artists: Vec<Artist>) -> (r: Self)
        ensures
            r.0 == artists,
    {
        Self(artists)
    }
}

/// Whether `a` is published no later than `b`.
fn album_le(a: &Album, b: &Album) -> (r: bool)
    ensures
        r == spec_album_le(a.model(), b.model()),
{
    let (ay, am, ad) = (a.published_at.year(), a.published_at.month(), a.published_at.day());
    let (by, bm, bd) = (b.published_at.year(), b.published_at.month(), b.published_at.day());
    ay < by || (ay == by && (am < bm || (am == bm && ad <= bd)))
}

/// Whether `a` comes no later than `b` in artist order.  Both lists must be
/// small enough to count.
fn artist_le(a: &Artist, b: &Artist) -> (r: bool)
    requires
        spec_count(a.model().albums) <= usize::MAX,
        spec_count(b.model().albums) <= usize::MAX,
    ensures
        r == spec_artist_le(a.model(), b.model()),
{
    let ca = a.albums.len();
    let cb = b.albums.len();
    ca > cb || (ca == cb && str_le(a.name.as_str(), b.name.as_str()))
}

/// Inserting an element anywhere adds exactly it to the multiset.
proof fn lemma_insert_multiset<A>(s: Seq<A>, i: int, x: A)
    requires
        0 <= i <= s.len(),
    ensures
        s.insert(i, x).to_multiset() == s.to_multiset().insert(x),
{
    let t = s.insert(i, x);
    assert(t.remove(i) =~= s);
    t.to_multiset_ensures();
    s.to_multiset_ensures();
    assert(t.remove(i).to_multiset() =~= t.to_multiset().remove(t[i]));
    assert(t[i] == x);
    assert(t.to_multiset().contains(x)) by {
        assert(t.contains(x));
    }
    assert(t.to_multiset() =~= s.to_multiset().insert(x)) by {
        assert(t.to_multiset().remove(x).insert(x) =~= t.to_multiset());
    }
}

/// Put releases in date order by insertion; the order of equal dates is not
/// specified.
fn sort_albums(v: Vec<Album>) -> (r: Vec<Album>)
    ensures
        sorted_bucket_of(albums_model(r@), albums_model(v@)),
{
    let ghost ms0 = v@.to_multiset();
    let mut rest = v;
    let mut out: Vec<Album> = Vec::new();
    proof {
        out@.to_multiset_ensures();
        rest@.to_multiset_ensures();
        assert(out@.to_multiset().add(rest@.to_multiset()) =~= ms0);
    }
    loop
        invariant
            sorted_albums(albums_model(out@)),
            out@.to_multiset().add(rest@.to_multiset()) == ms0,
            out@.len() + rest@.len() == v@.len(),
        decreases rest@.len(),
    {
        if rest.len() == 0 {
            proof {
                out@.to_multiset_ensures();
                rest@.to_multiset_ensures();
                assert(rest@.to_multiset() =~= Multiset::<Album>::empty());
                assert(out@.to_multiset() =~= ms0);
                assert(albums_model(out@).to_multiset() =~= albums_model(v@).to_multiset()) by {
                    lemma_albums_model_multiset(out@, v@);
                }
            }
            return out;
        }
        let ghost rest0 = rest@;
        let x = rest.remove(0);
        proof {
            rest0.to_multiset_ensures();
            assert(rest0.remove(0).to_multiset() =~= rest0.to_multiset().remove(x));
            assert(rest0.contains(x)) by {
                assert(rest0[0] == x);
            }
        }
        let mut p: usize = 0;
        while p < out.len() && album_le(&out[p], &x)
            invariant
                p <= out@.len(),
                forall|j: int| 0 <= j < p ==> spec_album_le(
                    #[trigger] albums_model(out@)[j],
                    x.model(),
                ),
            decreases out@.len() - p,
        {
            p = p + 1;
        }
        let ghost outp = out@;
        proof {
            if p < outp.len() {
                assert(!spec_album_le(albums_model(outp)[p as int], x.model()));
            }
        }
        out.insert(p, x);
        proof {
            assert(out@ == outp.insert(p as int, x));
            lemma_insert_multiset(outp, p as int, x);
            assert(out@.to_multiset().add(rest@.to_multiset()) =~= ms0);
            let m = albums_model(out@);
            let mo = albums_model(outp);
            assert forall|i: int| 0 <= i < m.len() - 1 implies spec_album_le(
                #[trigger] m[i],
                m[i + 1],
            ) by {
                assert(m[i] == out@[i].model());
                assert(m[i + 1] == out@[i + 1].model());
                if i + 1 < p {
                    assert(out@[i] == outp[i] && out@[i + 1] == outp[i + 1]);
                    assert(spec_album_le(mo[i], mo[i + 1]));
                } else if i + 1 == p {
                    assert(out@[i] == outp[i]);
                    assert(spec_album_le(mo[i], x.model()));
                } else if i == p {
                    assert(out@[i + 1] == outp[i]);
                    if p < outp.len() {
                        assert(!spec_album_le(mo[p as int], x.model()));
                    }
                } else {
                    assert(out@[i] == outp[i - 1] && out@[i + 1] == outp[i]);
                    assert(spec_album_le(mo[i - 1], mo[i]));
                }
            }
        }
    }
}

/// Two equal multisets of releases have equal multisets of models.
proof fn lemma_albums_model_multiset(a: Seq<Album>, b: Seq<Album>)
    requires
        a.to_multiset() == b.to_multiset(),
    ensures
        albums_model(a).to_multiset() == albums_model(b).to_multiset(),
    decreases a.len(),
{
    a.to_multiset_ensures();
    b.to_multiset_ensures();
    if a.len() == 0 {
        assert(b.len() == 0);
        assert(albums_model(a) =~= albums_model(b));
    } else {
        let x = a[0];
        assert(a.contains(x));
        assert(a.to_multiset().contains(x));
        assert(b.to_multiset().contains(x));
        assert(b.contains(x));
        let j = choose|j: int| 0 <= j < b.len() && b[j] == x;
        let a1 = a.remove(0);
        let b1 = b.remove(j);
        assert(a1.to_multiset() =~= b1.to_multiset());
        lemma_albums_model_multiset(a1, b1);
        assert(albums_model(a1) =~= albums_model(a).remove(0));
        assert(albums_model(b1) =~= albums_model(b).remove(j));
        albums_model(a).to_multiset_ensures();
        albums_model(b).to_multiset_ensures();
        assert(albums_model(a).remove(0).to_multiset() =~= albums_model(a).to_multiset().remove(
            x.model(),
        ));
        assert(albums_model(b).remove(j).to_multiset() =~= albums_model(b).to_multiset().remove(
            x.model(),
        ));
        assert(albums_model(a).to_multiset().contains(x.model())) by {
            assert(albums_model(a)[0] == x.model());
            assert(albums_model(a).contains(x.model()));
        }
        assert(albums_model(b).to_multiset().contains(x.model())) by {
            assert(albums_model(b)[j] == x.model());
            assert(albums_model(b).contains(x.model()));
        }
        assert(albums_model(a).to_multiset() =~= albums_model(b).to_multiset()) by {
            let ma = albums_model(a).to_multiset();
            let mb = albums_model(b).to_multiset();
            assert(ma.remove(x.model()) =~= mb.remove(x.model()));
            assert(ma.remove(x.model()).insert(x.model()) =~= ma);
            assert(mb.remove(x.model()).insert(x.model()) =~= mb);
        }
    }
}

/// Model of an artist list, element-wise.
pub open spec fn artists_model(v: Seq<Artist>) -> Seq<SpecArtist> {
    Seq::new(v.len(), |i: int| v[i].model())
}

/// Put artists in presentation order by insertion; the order of artists
/// that compare equal is not specified.
fn sort_artists(v: Vec<Artist>) -> (r: Vec<Artist>)
    requires
        forall|i: int| 0 <= i < v@.len() ==> spec_count(#[trigger] v@[i].model().albums)
            <= usize::MAX,
    ensures
        sorted_artists(artists_model(r@)),
        r@.to_multiset() == v@.to_multiset(),
        r@.len() == v@.len(),
{
    let ghost ms0 = v@.to_multiset();
    let mut rest = v;
    let mut out: Vec<Artist> = Vec::new();
    proof {
        out@.to_multiset_ensures();
        rest@.to_multiset_ensures();
        assert(out@.to_multiset().add(rest@.to_multiset()) =~= ms0);
    }
    loop
        invariant
            sorted_artists(artists_model(out@)),
            out@.to_multiset().add(rest@.to_multiset()) == ms0,
            out@.len() + rest@.len() == v@.len(),
            forall|i: int| 0 <= i < out@.len() ==> spec_count(#[trigger] out@[i].model().albums)
                <= usize::MAX,
            forall|i: int| 0 <= i < rest@.len() ==> spec_count(
                #[trigger] rest@[i].model().albums,
            ) <= usize::MAX,
        decreases rest@.len(),
    {
        if rest.len() == 0 {
            proof {
                out@.to_multiset_ensures();
                rest@.to_multiset_ensures();
                assert(rest@.to_multiset() =~= Multiset::<Artist>::empty());
                assert(out@.to_multiset() =~= ms0);
            }
            return out;
        }
        let ghost rest0 = rest@;
        let x = rest.remove(0);
        proof {
            rest0.to_multiset_ensures();
            assert(rest0.remove(0).to_multiset() =~= rest0.to_multiset().remove(x));
            assert(rest0.contains(x)) by {
                assert(rest0[0] == x);
            }
            assert forall|i: int| 0 <= i < rest@.len() implies spec_count(
                #[trigger] rest@[i].model().albums,
            ) <= usize::MAX by {
                assert(rest@[i] == rest0[i + 1]);
            }
        }
        let mut p: usize = 0;
        while p < out.len() && artist_le(&out[p], &x)
            invariant
                p <= out@.len(),
                forall|j: int| 0 <= j < p ==> spec_artist_le(
                    #[trigger] artists_model(out@)[j],
                    x.model(),
                ),
            decreases out@.len() - p,
        {
            p = p + 1;
        }
        let ghost outp = out@;
        out.insert(p, x);
        proof {
            assert(out@ == outp.insert(p as int, x));
            lemma_insert_multiset(outp, p as int, x);
            assert(out@.to_multiset().add(rest@.to_multiset()) =~= ms0);
            assert forall|i: int| 0 <= i < out@.len() implies spec_count(
                #[trigger] out@[i].model().albums,
            ) <= usize::MAX by {
                if i < p {
                    assert(out@[i] == outp[i]);
                } else if i == p {
                    assert(out@[i] == x);
                } else {
                    assert(out@[i] == outp[i - 1]);
                }
            }
            let m = artists_model(out@);
            let mo = artists_model(outp);
            assert forall|i: int| 0 <= i < m.len() - 1 implies spec_artist_le(
                #[trigger] m[i],
                m[i + 1],
            ) by {
                assert(m[i] == out@[i].model());
                assert(m[i + 1] == out@[i + 1].model());
                if i + 1 < p {
                    assert(out@[i] == outp[i] && out@[i + 1] == outp[i + 1]);
                    assert(spec_artist_le(mo[i], mo[i + 1]));
                } else if i + 1 == p {
                    assert(out@[i] == outp[i]);
                    assert(spec_artist_le(mo[i], x.model()));
                } else if i == p {
                    assert(out@[i + 1] == outp[i]);
                    if p < outp.len() {
                        assert(!spec_artist_le(mo[p as int], x.model()));
                        lemma_bytes_le_total(
                            encode_utf8(x.model().name),
                            encode_utf8(mo[p as int].name),
                        );
                    }
                } else {
                    assert(out@[i] == outp[i - 1] && out@[i + 1] == outp[i]);
                    assert(spec_artist_le(mo[i - 1], mo[i]));
                }
            }
        }
    }
}

/// Three integer operands read positionally as year, month and day; more
/// may follow and are ignored, as the historical files relied on.  A date
/// that does not exist in the calendar is an illegal element.
pub open spec fn spec_parse_date(items: Seq<SpecExpr>) -> Result<(u32, u32, u32), SpecSynErr> {
    if items.len() == 0 {
        Err(SpecSynErr::OperandMismatch)
    } else {
        match items[0] {
            SpecExpr::Integer(y) => if items.len() == 1 {
                Err(SpecSynErr::OperandMismatch)
            } else {
                match items[1] {
                    SpecExpr::Integer(m) => if items.len() == 2 {
                        Err(SpecSynErr::OperandMismatch)
                    } else {
                        match items[2] {
                            SpecExpr::Integer(d) => if 1 <= m <= 12 && 1 <= d
                                <= spec_days_in_month(y, m) {
                                Ok((y, m, d))
                            } else {
                                Err(SpecSynErr::IllegalElement)
                            },
                            _ => Err(SpecSynErr::IllegalElement),
                        }
                    },
                    _ => Err(SpecSynErr::IllegalElement),
                }
            },
            _ => Err(SpecSynErr::IllegalElement),
        }
    }
}

/// One release: a kind keyword, then a quoted title, a publication date
/// tuple, and optionally a diary date tuple; further operands are ignored,
/// as the historical files relied on.
pub open spec fn resolve_album(e: SpecExpr) -> Result<(AlbumKind, SpecAlbum), SpecSynErr> {
    match e {
        SpecExpr::Tuple(items) => if items.len() == 0 {
            Err(SpecSynErr::MissingOperator)
        } else if !(items[0] is Literal) {
            Err(SpecSynErr::IllegalElement)
        } else {
            let op = items[0]->Literal_0;
            let rands = items.subrange(1, items.len() as int);
            if op == "studio"@ {
                resolve_album_body(AlbumKind::StudioAlbum, rands)
            } else if op == "livealbum"@ {
                resolve_album_body(AlbumKind::LiveAlbum, rands)
            } else if op == "compilation"@ {
                resolve_album_body(AlbumKind::Compilation, rands)
            } else if op == "studioandlive"@ {
                resolve_album_body(AlbumKind::StudioAndLive, rands)
            } else if op == "concert"@ {
                resolve_album_body(AlbumKind::Concert, rands)
            } else {
                Err(SpecSynErr::UnknownOperator(op))
            }
        },
        _ => Err(SpecSynErr::IllegalElement),
    }
}

/// The operands of a release: title, date, optional diary date.
pub open spec fn resolve_album_body(kind: AlbumKind, rands: Seq<SpecExpr>) -> Result<
    (AlbumKind, SpecAlbum),
    SpecSynErr,
> {
    if rands.len() == 0 {
        Err(SpecSynErr::OperandMismatch)
    } else {
        match rands[0] {
            SpecExpr::Quoted(name) => if rands.len() == 1 {
                Err(SpecSynErr::OperandMismatch)
            } else {
                match rands[1] {
                    SpecExpr::Tuple(date_items) => match spec_parse_date(date_items) {
                        Err(err) => Err(err),
                        Ok(published_at) => if rands.len() == 2 {
                            Ok(
                                (
                                    kind,
                                    SpecAlbum { name, published_at, link_to_diary: None },
                                ),
                            )
                        } else {
                            match rands[2] {
                                SpecExpr::Tuple(link_items) => match spec_parse_date(link_items) {
                                    Err(err) => Err(err),
                                    Ok(link) => Ok(
                                        (
                                            kind,
                                            SpecAlbum {
                                                name,
                                                published_at,
                                                link_to_diary: Some(link),
                                            },
                                        ),
                                    ),
                                },
                                _ => Err(SpecSynErr::IllegalElement),
                            }
                        },
                    },
                    _ => Err(SpecSynErr::IllegalElement),
                }
            },
            _ => Err(SpecSynErr::IllegalElement),
        }
    }
}

/// An empty release list.
pub open spec fn spec_empty_albums() -> SpecAlbumList {
    SpecAlbumList {
        studio_album: Seq::empty(),
        live_album: Seq::empty(),
        studio_and_live: Seq::empty(),
        compilation: Seq::empty(),
        concert: Seq::empty(),
    }
}

/// `l` with `alb` put at the front of the bucket for `kind`.
pub open spec fn spec_bucket_cons(kind: AlbumKind, alb: SpecAlbum, l: SpecAlbumList) -> SpecAlbumList {
    match kind {
        AlbumKind::StudioAlbum => SpecAlbumList { studio_album: seq![alb] + l.studio_album, ..l },
        AlbumKind::LiveAlbum => SpecAlbumList { live_album: seq![alb] + l.live_album, ..l },
        AlbumKind::StudioAndLive => SpecAlbumList {
            studio_and_live: seq![alb] + l.studio_and_live,
            ..l
        },
        AlbumKind::Compilation => SpecAlbumList { compilation: seq![alb] + l.compilation, ..l },
        AlbumKind::Concert => SpecAlbumList { concert: seq![alb] + l.concert, ..l },
    }
}

/// The releases of an artist, resolved left to right into their buckets.
pub open spec fn fold_albums(rands: Seq<SpecExpr>) -> Result<SpecAlbumList, SpecSynErr>
    decreases rands.len(),
{
    if rands.len() == 0 {
        Ok(spec_empty_albums())
    } else {
        match resolve_album(rands[0]) {
            Err(err) => Err(err),
            Ok((kind, alb)) => match fold_albums(rands.subrange(1, rands.len() as int)) {
                Err(err) => Err(err),
                Ok(l) => Ok(spec_bucket_cons(kind, alb, l)),
            },
        }
    }
}

/// One artist: the `artist` keyword, a quoted name, then the releases.
pub open spec fn resolve_artist(e: SpecExpr) -> Result<SpecArtist, SpecSynErr> {
    match e {
        SpecExpr::Tuple(items) => if items.len() == 0 {
            Err(SpecSynErr::MissingOperator)
        } else if !(items[0] is Literal) {
            Err(SpecSynErr::IllegalElement)
        } else {
            let op = items[0]->Literal_0;
            let rands = items.subrange(1, items.len() as int);
            if op == "artist"@ {
                if rands.len() == 0 {
                    Err(SpecSynErr::OperandMismatch)
                } else {
                    match rands[0] {
                        SpecExpr::Quoted(name) => match fold_albums(
                            rands.subrange(1, rands.len() as int),
                        ) {
                            Err(err) => Err(err),
                            Ok(albums) => Ok(SpecArtist { name, albums }),
                        },
                        _ => Err(SpecSynErr::IllegalElement),
                    }
                }
            } else {
                Err(SpecSynErr::UnknownOperator(op))
            }
        },
        _ => Err(SpecSynErr::IllegalElement),
    }
}

/// The artists of the index, resolved left to right.
pub open spec fn resolve_artists(items: Seq<SpecExpr>) -> Result<Seq<SpecArtist>, SpecSynErr>
    decreases items.len(),
{
    if items.len() == 0 {
        Ok(Seq::empty())
    } else {
        match resolve_artist(items[0]) {
            Err(err) => Err(err),
            Ok(a) => match resolve_artists(items.subrange(1, items.len() as int)) {
                Err(err) => Err(err),
                Ok(rest) => Ok(seq![a] + rest),
            },
        }
    }
}

/// A whole album index: the root must be a tuple of artists.
pub open spec fn resolve_albums(e: SpecExpr) -> Result<Seq<SpecArtist>, SpecSynErr> {
    match e {
        SpecExpr::Tuple(items) => resolve_artists(items),
        _ => Err(SpecSynErr::IllegalElement),
    }
}

/// Bucket-wise concatenation of two release lists.
pub open spec fn spec_concat_lists(a: SpecAlbumList, b: SpecAlbumList) -> SpecAlbumList {
    SpecAlbumList {
        studio_album: a.studio_album + b.studio_album,
        live_album: a.live_album + b.live_album,
        studio_and_live: a.studio_and_live + b.studio_and_live,
        compilation: a.compilation + b.compilation,
        concert: a.concert + b.concert,
    }
}

/// Three integers read positionally as a date; a date that does not exist in
/// the calendar is an illegal element.
fn parse_date(items: Vec<Expression>) -> (r: ParseResult<Date>)
    ensures
        match r {
            Ok(d) => ({
                &&& spec_parse_date(crate::sexp::models(items@)) == Ok::<_, SpecSynErr>(
                    (d.spec_year(), d.spec_month(), d.spec_day()),
                )
                &&& d.spec_valid()
            }),
            Err(e) => spec_parse_date(crate::sexp::models(items@)) == Err::<(u32, u32, u32), _>(
                e.model(),
            ),
        },
{
    proof {
        crate::sexp::lemma_models_index(items@);
    }
    let mut rest = items;
    if rest.len() == 0 {
        return Err(Error::OperandMismatch);
    }
    let first = rest.remove(0);
    proof {
        assert(first == items@[0]);
        assert(crate::sexp::models(items@)[0] == items@[0].model());
    }
    let year = match first {
        Expression::Integer(n) => n,
        _ => {
            return Err(Error::IllegalElement);
        },
    };
    if rest.len() == 0 {
        return Err(Error::OperandMismatch);
    }
    let second = rest.remove(0);
    proof {
        assert(second == items@[1]);
        assert(crate::sexp::models(items@)[1] == items@[1].model());
    }
    let month = match second {
        Expression::Integer(n) => n,
        _ => {
            return Err(Error::IllegalElement);
        },
    };
    if rest.len() == 0 {
        return Err(Error::OperandMismatch);
    }
    let third = rest.remove(0);
    proof {
        assert(third == items@[2]);
        assert(crate::sexp::models(items@)[2] == items@[2].model());
    }
    let day = match third {
        Expression::Integer(n) => n,
        _ => {
            return Err(Error::IllegalElement);
        },
    };
    match Date::new(year, month, day) {
        Some(d) => Ok(d),
        None => Err(Error::IllegalElement),
    }
}

/// One release tuple: keyword, title, date, optional diary date.
fn parse_album(expr: Expression) -> (r: ParseResult<(AlbumKind, Album)>)
    ensures
        match r {
            Ok(p) => resolve_album(expr.model()) == Ok::<_, SpecSynErr>((p.0, p.1.model())),
            Err(e) => resolve_album(expr.model()) == Err::<(AlbumKind, SpecAlbum), _>(e.model()),
        },
{
    match expr {
        Expression::Tuple(t) => {
            proof {
                crate::sexp::lemma_models_index(t@);
            }
            match expect_application(t) {
                Ok((rator, rands)) => {
                    proof {
                        crate::sexp::lemma_models_subrange(t@, 1, t@.len() as int);
                    }
                    if kw(&rator, "studio") {
                        parse_album_body(AlbumKind::StudioAlbum, rands)
                    } else if kw(&rator, "livealbum") {
                        parse_album_body(AlbumKind::LiveAlbum, rands)
                    } else if kw(&rator, "compilation") {
                        parse_album_body(AlbumKind::Compilation, rands)
                    } else if kw(&rator, "studioandlive") {
                        parse_album_body(AlbumKind::StudioAndLive, rands)
                    } else if kw(&rator, "concert") {
                        parse_album_body(AlbumKind::Concert, rands)
                    } else {
                        Err(Error::UnknownOperator(rator))
                    }
                },
                Err(ApplicationError::MissingOperator) => Err(Error::MissingOperator),
                Err(ApplicationError::HeadIsNotLiteral) => Err(Error::IllegalElement),
            }
        },
        _ => Err(Error::IllegalElement),
    }
}

/// The operands of one release tuple.
fn parse_album_body(kind: AlbumKind, rands: Vec<Expression>) -> (r: ParseResult<
    (AlbumKind, Album),
>)
    ensures
        match r {
            Ok(p) => resolve_album_body(kind, crate::sexp::models(rands@)) == Ok::<_, SpecSynErr>(
                (p.0, p.1.model()),
            ),
            Err(e) => resolve_album_body(kind, crate::sexp::models(rands@)) == Err::<
                (AlbumKind, SpecAlbum),
                _,
            >(e.model()),
        },
{
    proof {
        crate::sexp::lemma_models_index(rands@);
    }
    let mut rest = rands;
    if rest.len() == 0 {
        return Err(Error::OperandMismatch);
    }
    let first = rest.remove(0);
    proof {
        assert(first == rands@[0]);
        assert(crate::sexp::models(rands@)[0] == rands@[0].model());
    }
    let name = match first {
        Expression::String(s) => s,
        _ => {
            return Err(Error::IllegalElement);
        },
    };
    if rest.len() == 0 {
        return Err(Error::OperandMismatch);
    }
    let second = rest.remove(0);
    proof {
        assert(second == rands@[1]);
        assert(crate::sexp::models(rands@)[1] == rands@[1].model());
    }
    let date_items = match second {
        Expression::Tuple(items) => items,
        _ => {
            return Err(Error::IllegalElement);
        },
    };
    let published_at = match parse_date(date_items) {
        Ok(d) => d,
        Err(e) => {
            return Err(e);
        },
    };
    if rest.len() == 0 {
        return Ok((kind, Album::new(name, published_at, None)));
    }
    let third = rest.remove(0);
    proof {
        assert(third == rands@[2]);
        assert(crate::sexp::models(rands@)[2] == rands@[2].model());
    }
    let link_items = match third {
        Expression::Tuple(items) => items,
        _ => {
            return Err(Error::IllegalElement);
        },
    };
    let link = match parse_date(link_items) {
        Ok(d) => d,
        Err(e) => {
            return Err(e);
        },
    };
    Ok((kind, Album::new(name, published_at, Some(link))))
}

/// One artist tuple: the `artist` keyword, a quoted name, the releases.
/// The buckets of the returned artist are already in presentation order.
fn parse_artist(expr: Expression) -> (r: ParseResult<Artist>)
    ensures
        match r {
            Ok(artist) => ({
                &&& resolve_artist(expr.model()) matches Ok(sa)
                &&& artist.model().name == sa.name
                &&& sorted_list_of(artist.model().albums, sa.albums)
                &&& spec_count(artist.model().albums) <= usize::MAX
            }),
            Err(e) => resolve_artist(expr.model()) == Err::<SpecArtist, _>(e.model()),
        },
{
    match expr {
        Expression::Tuple(t) => {
            proof {
                crate::sexp::lemma_models_index(t@);
            }
            match expect_application(t) {
                Ok((rator, rands)) => {
                    proof {
                        crate::sexp::lemma_models_subrange(t@, 1, t@.len() as int);
                    }
                    if kw(&rator, "artist") {
                        parse_artist_body(rands)
                    } else {
                        Err(Error::UnknownOperator(rator))
                    }
                },
                Err(ApplicationError::MissingOperator) => Err(Error::MissingOperator),
                Err(ApplicationError::HeadIsNotLiteral) => Err(Error::IllegalElement),
            }
        },
        _ => Err(Error::IllegalElement),
    }
}

/// The operands of one artist tuple: name, then releases.
fn parse_artist_body(rands: Vec<Expression>) -> (r: ParseResult<Artist>)
    ensures
        match r {
            Ok(artist) => ({
                &&& rands@.len() > 0
                &&& rands@[0].model() matches SpecExpr::Quoted(name)
                &&& fold_albums(
                    crate::sexp::models(rands@).subrange(
                        1,
                        crate::sexp::models(rands@).len() as int,
                    ),
                ) matches Ok(albums)
                &&& artist.model().name == name
                &&& sorted_list_of(artist.model().albums, albums)
                &&& spec_count(artist.model().albums) <= usize::MAX
            }),
            Err(e) => ({
                ||| (crate::sexp::models(rands@).len() == 0 && e.model()
                    == SpecSynErr::OperandMismatch)
                ||| (crate::sexp::models(rands@).len() > 0 && !(crate::sexp::models(rands@)[0]
                    is Quoted) && e.model() == SpecSynErr::IllegalElement)
                ||| (crate::sexp::models(rands@).len() > 0 && crate::sexp::models(rands@)[0]
                    is Quoted && fold_albums(
                    crate::sexp::models(rands@).subrange(
                        1,
                        crate::sexp::models(rands@).len() as int,
                    ),
                ) == Err::<SpecAlbumList, SpecSynErr>(e.model()))
            }),
        },
{
    proof {
        crate::sexp::lemma_models_index(rands@);
    }
    let total = rands.len();
    let mut rest = rands;
    if rest.len() == 0 {
        return Err(Error::OperandMismatch);
    }
    let first = rest.remove(0);
    proof {
        assert(first == rands@[0]);
        assert(crate::sexp::models(rands@)[0] == rands@[0].model());
        assert(rest@ =~= rands@.subrange(1, rands@.len() as int));
        crate::sexp::lemma_models_subrange(rands@, 1, rands@.len() as int);
    }
    let name = match first {
        Expression::String(s) => s,
        _ => {
            return Err(Error::IllegalElement);
        },
    };
    let ghost ms0 = crate::sexp::models(rest@);
    let mut album_list = AlbumList::new();
    let ghost mut taken: int = 0;
    proof {
        if fold_albums(ms0) is Ok {
            let l = fold_albums(ms0)->Ok_0;
            assert(spec_concat_lists(album_list.model(), l) =~~= l) by {
                assert(album_list.model().studio_album + l.studio_album =~= l.studio_album);
                assert(album_list.model().live_album + l.live_album =~= l.live_album);
                assert(album_list.model().studio_and_live + l.studio_and_live
                    =~= l.studio_and_live);
                assert(album_list.model().compilation + l.compilation =~= l.compilation);
                assert(album_list.model().concert + l.concert =~= l.concert);
            }
        }
    }
    loop
        invariant
            0 <= taken,
            taken + rest@.len() + 1 == total,
            spec_count(album_list.model()) == taken,
            match fold_albums(crate::sexp::models(rest@)) {
                Ok(tail) => fold_albums(ms0) == Ok::<_, SpecSynErr>(
                    spec_concat_lists(album_list.model(), tail),
                ),
                Err(e) => fold_albums(ms0) == Err::<SpecAlbumList, SpecSynErr>(e),
            },
        decreases rest@.len(),
    {
        if rest.len() == 0 {
            proof {
                let cur = album_list.model();
                assert(spec_concat_lists(cur, spec_empty_albums()) =~~= cur) by {
                    assert(cur.studio_album + Seq::<SpecAlbum>::empty() =~= cur.studio_album);
                    assert(cur.live_album + Seq::<SpecAlbum>::empty() =~= cur.live_album);
                    assert(cur.studio_and_live + Seq::<SpecAlbum>::empty()
                        =~= cur.studio_and_live);
                    assert(cur.compilation + Seq::<SpecAlbum>::empty() =~= cur.compilation);
                    assert(cur.concert + Seq::<SpecAlbum>::empty() =~= cur.concert);
                }
            }
            album_list.sort();
            return Ok(Artist::new(name, album_list));
        }
        let ghost rest0 = rest@;
        let e = rest.remove(0);
        proof {
            crate::sexp::lemma_models_index(rest0);
            assert(rest@ =~= rest0.subrange(1, rest0.len() as int));
            crate::sexp::lemma_models_subrange(rest0, 1, rest0.len() as int);
        }
        match parse_album(e) {
            Ok((kind, alb)) => {
                let ghost cur = album_list.model();
                match kind {
                    AlbumKind::StudioAlbum => album_list.studio_album.push(alb),
                    AlbumKind::LiveAlbum => album_list.live_album.push(alb),
                    AlbumKind::StudioAndLive => album_list.studio_and_live.push(alb),
                    AlbumKind::Compilation => album_list.compilation.push(alb),
                    AlbumKind::Concert => album_list.concert.push(alb),
                }
                proof {
                    taken = taken + 1;
                    let am = alb.model();
                    match kind {
                        AlbumKind::StudioAlbum => {
                            assert(albums_model(album_list.studio_album@) =~= cur.studio_album.push(
                                am,
                            ));
                        },
                        AlbumKind::LiveAlbum => {
                            assert(albums_model(album_list.live_album@) =~= cur.live_album.push(
                                am,
                            ));
                        },
                        AlbumKind::StudioAndLive => {
                            assert(albums_model(album_list.studio_and_live@)
                                =~= cur.studio_and_live.push(am));
                        },
                        AlbumKind::Compilation => {
                            assert(albums_model(album_list.compilation@) =~= cur.compilation.push(
                                am,
                            ));
                        },
                        AlbumKind::Concert => {
                            assert(albums_model(album_list.concert@) =~= cur.concert.push(am));
                        },
                    }
                    if fold_albums(crate::sexp::models(rest@)) is Ok {
                        let tail = fold_albums(crate::sexp::models(rest@))->Ok_0;
                        let want = spec_concat_lists(cur, spec_bucket_cons(kind, am, tail));
                        let got = spec_concat_lists(album_list.model(), tail);
                        assert(got =~~= want) by {
                            assert(cur.studio_album.push(am) + tail.studio_album
                                =~= cur.studio_album + (seq![am] + tail.studio_album));
                            assert(cur.live_album.push(am) + tail.live_album =~= cur.live_album + (
                            seq![am] + tail.live_album));
                            assert(cur.studio_and_live.push(am) + tail.studio_and_live
                                =~= cur.studio_and_live + (seq![am] + tail.studio_and_live));
                            assert(cur.compilation.push(am) + tail.compilation =~= cur.compilation
                                + (seq![am] + tail.compilation));
                            assert(cur.concert.push(am) + tail.concert =~= cur.concert + (seq![am]
                                + tail.concert));
                        }
                    }
                }
            },
            Err(err) => {
                return Err(err);
            },
        }
    }
}

/// Resolve a whole album-index tree and put it in presentation order.  The
/// root must be a tuple of artist tuples.  On success the artists are the
/// resolved ones (their releases sorted by date), ordered by shrinking
/// discography with names as tie-break; the first failure, if any, is
/// surfaced unchanged.
pub fn parse_albums(expr: Expression) -> (r: ParseResult<AlbumIndex>)
    ensures
        match r {
            Ok(index) => ({
                &&& resolve_albums(expr.model()) matches Ok(raw)
                &&& exists|pre: Seq<Artist>|
                    {
                        &&& pre.len() == raw.len()
                        &&& (forall|i: int| 0 <= i < raw.len() ==> artist_matches(
                            #[trigger] pre[i],
                            raw[i],
                        ))
                        &&& index.0@.to_multiset() == pre.to_multiset()
                    }
                &&& sorted_artists(artists_model(index.0@))
                &&& index.0@.len() == raw.len()
            }),
            Err(e) => resolve_albums(expr.model()) == Err::<Seq<SpecArtist>, _>(e.model()),
        },
{
    match expr {
        Expression::Tuple(l) => {
            let ghost ms0 = crate::sexp::models(l@);
            let mut rest = l;
            let mut out: Vec<Artist> = Vec::new();
            let ghost mut raws: Seq<SpecArtist> = Seq::empty();
            proof {
                if resolve_artists(ms0) is Ok {
                    let tail = resolve_artists(ms0)->Ok_0;
                    assert(raws + tail =~= tail);
                }
            }
            loop
                invariant
                    raws.len() == out@.len(),
                    forall|i: int| 0 <= i < out@.len() ==> artist_matches(
                        #[trigger] out@[i],
                        raws[i],
                    ),
                    forall|i: int| 0 <= i < out@.len() ==> spec_count(
                        #[trigger] out@[i].model().albums,
                    ) <= usize::MAX,
                    match resolve_artists(crate::sexp::models(rest@)) {
                        Ok(tail) => resolve_artists(ms0) == Ok::<_, SpecSynErr>(raws + tail),
                        Err(e) => resolve_artists(ms0) == Err::<Seq<SpecArtist>, SpecSynErr>(e),
                    },
                decreases rest@.len(),
            {
                if rest.len() == 0 {
                    proof {
                        assert(raws + Seq::<SpecArtist>::empty() =~= raws);
                    }
                    let ghost pre = out@;
                    let sorted = sort_artists(out);
                    proof {
                        assert(resolve_artists(ms0) == Ok::<_, SpecSynErr>(raws));
                    }
                    return Ok(AlbumIndex::new(sorted));
                }
                let ghost rest0 = rest@;
                let e = rest.remove(0);
                proof {
                    crate::sexp::lemma_models_index(rest0);
                    assert(rest@ =~= rest0.subrange(1, rest0.len() as int));
                    crate::sexp::lemma_models_subrange(rest0, 1, rest0.len() as int);
                }
                match parse_artist(e) {
                    Ok(artist) => {
                        let ghost sa = resolve_artist(e.model())->Ok_0;
                        proof {
                            let raws2 = raws.push(sa);
                            if resolve_artists(crate::sexp::models(rest@)) is Ok {
                                let tail = resolve_artists(crate::sexp::models(rest@))->Ok_0;
                                assert(raws2 + tail =~= raws + (seq![sa] + tail));
                            }
                            raws = raws2;
                        }
                        out.push(artist);
                    },
                    Err(err) => {
                        return Err(err);
                    },
                }
            }
        },
        _ => Err(Error::IllegalElement),
    }
}

} // verus!
