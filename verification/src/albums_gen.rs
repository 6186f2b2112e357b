//! The album-index page: every artist with their releases, grouped by kind.
//! The page is built as text; writing it to disk is the caller's business.
use vstd::prelude::*;
use crate::albums::{albums_model, Album, AlbumIndex, Artist, SpecAlbum, SpecArtist};
use crate::html::{close_tag, open_tag, open_tag_attrs, HtmlWriter};
use crate::text::{dec_chars, dec_chars_pad, push_str, u32_pad, u32_to_string};

verus! {

/// One release: its name, and a link to the diary entry about it if one
/// exists.
pub open spec fn render_album(alb: SpecAlbum) -> Seq<char> {
    alb.name + match alb.link_to_diary {
        Some(d) => " ("@ + open_tag_attrs(
            "a"@,
            seq![
                (
                    "href"@,
                    "/"@ + dec_chars(d.0 as nat) + "/"@ + dec_chars_pad(d.1 as nat, 2, 0x30)
                        + "#"@ + dec_chars_pad(d.2 as nat, 2, 0x30),
                ),
            ],
        ) + dec_chars(d.0 as nat) + "/"@ + dec_chars_pad(d.1 as nat, 2, 0x30) + "/"@
            + dec_chars_pad(d.2 as nat, 2, 0x30) + close_tag("a"@) + ")"@,
        None => Seq::empty(),
    }
}

/// The releases of one section, each on its own list line.
pub open spec fn render_album_lines(albums: Seq<SpecAlbum>) -> Seq<char>
    decreases albums.len(),
{
    if albums.len() == 0 {
        Seq::empty()
    } else {
        render_album_lines(albums.drop_last()) + (open_tag("li"@) + render_album(albums.last())
            + close_tag("li"@))
    }
}

/// One titled section of releases; an empty section renders as nothing.
pub open spec fn render_section(title: Seq<char>, albums: Seq<SpecAlbum>) -> Seq<char> {
    if albums.len() == 0 {
        Seq::empty()
    } else {
        open_tag("h3"@) + title + close_tag("h3"@) + open_tag("ul"@) + render_album_lines(albums)
            + close_tag("ul"@)
    }
}

/// One artist: their name, then their releases by kind.
pub open spec fn render_artist_entry(a: SpecArtist) -> Seq<char> {
    open_tag("dt"@) + open_tag("h2"@) + a.name + close_tag("h2"@) + close_tag("dt"@) + open_tag(
        "dd"@,
    ) + render_section("Studio albums"@, a.albums.studio_album) + render_section(
        "Live albums"@,
        a.albums.live_album,
    ) + render_section("Studio and live album"@, a.albums.studio_and_live) + render_section(
        "Compilations"@,
        a.albums.compilation,
    ) + render_section("Concerts"@, a.albums.concert) + close_tag("dd"@)
}

/// All artists, in the order given.
pub open spec fn render_artist_entries(artists: Seq<SpecArtist>) -> Seq<char>
    decreases artists.len(),
{
    if artists.len() == 0 {
        Seq::empty()
    } else {
        render_artist_entries(artists.drop_last()) + render_artist_entry(artists.last())
    }
}

/// The whole album page.
pub open spec fn render_albums_page(artists: Seq<SpecArtist>) -> Seq<char> {
    "<!DOCTYPE html>"@ + open_tag_attrs("html"@, seq![("lang"@, "ja"@)]) + open_tag("head"@)
        + open_tag_attrs("meta"@, seq![("charset"@, "utf-8"@)]) + open_tag("title"@)
        + "Natuka.ge - Albums"@ + close_tag("title"@) + close_tag("head"@) + open_tag("body"@)
        + open_tag("h1"@) + "Natuka.ge - Albums"@ + close_tag("h1"@) + open_tag_attrs(
        "a"@,
        seq![("href"@, "/"@)],
    ) + "ホーム"@ + close_tag("a"@) + "へ"@ + open_tag("hr"@) + open_tag("dl"@)
        + render_artist_entries(artists) + close_tag("dl"@) + close_tag("body"@) + close_tag(
        "html"@,
    )
}

/// Build the album page for the given index, artists in the order given.
#[verifier::rlimit(100)]
pub fn generate_albums(album_index: AlbumIndex) -> (r: String)
    ensures
        r@ == render_albums_page(crate::albums::artists_model(album_index.0@)),
{
    let mut w = HtmlWriter::new();
    w.doctype();
    let attrs_lang: [(&str, &str); 1] = [("lang", "ja")];
    proof {
        assert(crate::html::attrs_model(attrs_lang@) =~= seq![("lang"@, "ja"@)]);
    }
    w.start_attr("html", attrs_lang.as_slice());
    w.start("head");
    let attrs_charset: [(&str, &str); 1] = [("charset", "utf-8")];
    proof {
        assert(crate::html::attrs_model(attrs_charset@) =~= seq![("charset"@, "utf-8"@)]);
    }
    w.start_attr("meta", attrs_charset.as_slice());
    w.start("title");
    w.raw("Natuka.ge - Albums");
    w.end("title");
    w.end("head");
    w.start("body");
    w.start("h1");
    w.raw("Natuka.ge - Albums");
    w.end("h1");
    let attrs_home: [(&str, &str); 1] = [("href", "/")];
    proof {
        assert(crate::html::attrs_model(attrs_home@) =~= seq![("href"@, "/"@)]);
    }
    w.start_attr("a", attrs_home.as_slice());
    w.raw("ホーム");
    w.end("a");
    w.raw("へ");
    w.start("hr");
    w.start("dl");
    let ghost head0 = w.spec_buf();
    let artists = album_index.0;
    let ghost all = artists@;
    let mut i: usize = 0;
    proof {
        assert(crate::albums::artists_model(all.subrange(0, 0)) =~= Seq::<SpecArtist>::empty());
    }
    while i < artists.len()
        invariant
            i <= all.len(),
            artists@ == all,
            w.spec_buf() == head0 + render_artist_entries(
                crate::albums::artists_model(all.subrange(0, i as int)),
            ),
        decreases all.len() - i,
    {
        let ghost done = crate::albums::artists_model(all.subrange(0, i as int));
        write_artist(&mut w, &artists[i]);
        i = i + 1;
        proof {
            let now = crate::albums::artists_model(all.subrange(0, i as int));
            assert(now.drop_last() =~= done);
            assert(now.last() == all[i - 1].model());
            assert(w.spec_buf() =~= head0 + (render_artist_entries(done) + render_artist_entry(
                all[i - 1].model(),
            )));
        }
    }
    proof {
        assert(all.subrange(0, all.len() as int) =~= all);
    }
    w.end("dl");
    w.end("body");
    w.end("html");
    proof {
        assert(w.spec_buf() =~= render_albums_page(crate::albums::artists_model(all)));
    }
    w.into_string()
}

/// Write one artist's entry.
fn write_artist(w: &mut HtmlWriter, artist: &Artist)
    ensures
        final(w).spec_buf() == old(w).spec_buf() + render_artist_entry(artist.model()),
{
    w.start("dt");
    w.start("h2");
    w.raw(artist.name());
    w.end("h2");
    w.end("dt");
    w.start("dd");
    let album_list = artist.albums();
    write_section(w, "Studio albums", album_list.studio_album());
    write_section(w, "Live albums", album_list.live_album());
    write_section(w, "Studio and live album", album_list.studio_and_live());
    write_section(w, "Compilations", album_list.compilation());
    write_section(w, "Concerts", album_list.live());
    w.end("dd");
    proof {
        assert(w.spec_buf() =~= old(w).spec_buf() + render_artist_entry(artist.model()));
    }
}

/// Write one titled section of releases; an empty one writes nothing.
fn write_section(w: &mut HtmlWriter, title: &str, albums: &[Album])
    ensures
        final(w).spec_buf() == old(w).spec_buf() + render_section(title@, albums_model(albums@)),
{
    if albums.len() == 0 {
        return ;
    }
    w.start("h3");
    w.raw(title);
    w.end("h3");
    w.start("ul");
    let ghost head0 = w.spec_buf();
    let ghost all = albums_model(albums@);
    let mut i: usize = 0;
    proof {
        assert(albums_model(albums@.subrange(0, 0)) =~= Seq::<SpecAlbum>::empty());
        assert(render_album_lines(albums_model(albums@.subrange(0, 0))) =~= Seq::<char>::empty());
    }
    while i < albums.len()
        invariant
            i <= albums@.len(),
            all == albums_model(albums@),
            w.spec_buf() == head0 + render_album_lines(albums_model(albums@.subrange(0, i as int))),
        decreases albums@.len() - i,
    {
        let ghost done = albums_model(albums@.subrange(0, i as int));
        w.start("li");
        write_album(w, &albums[i]);
        w.end("li");
        i = i + 1;
        proof {
            let now = albums_model(albums@.subrange(0, i as int));
            assert(now.drop_last() =~= done);
            assert(now.last() == albums@[i - 1].model());
            assert(w.spec_buf() =~= head0 + (render_album_lines(done) + (open_tag("li"@)
                + render_album(albums@[i - 1].model()) + close_tag("li"@))));
        }
    }
    proof {
        assert(albums@.subrange(0, albums@.len() as int) =~= albums@);
    }
    w.end("ul");
    proof {
        assert(w.spec_buf() =~= old(w).spec_buf() + render_section(
            title@,
            albums_model(albums@),
        ));
    }
}

/// Write one release: its name, and the diary link if it has one.
fn write_album(w: &mut HtmlWriter, album: &Album)
    ensures
        final(w).spec_buf() == old(w).spec_buf() + render_album(album.model()),
{
    w.raw(album.name());
    match album.link_to_diary() {
        Some(diary) => {
            w.raw(" (");
            let y = diary.year();
            let m = diary.month();
            let d = diary.day();
            let mut href = String::new();
            push_str(&mut href, "/");
            let ys = u32_to_string(y);
            push_str(&mut href, ys.as_str());
            push_str(&mut href, "/");
            let ms = u32_pad(m, 2, 0x30);
            push_str(&mut href, ms.as_str());
            push_str(&mut href, "#");
            let ds = u32_pad(d, 2, 0x30);
            push_str(&mut href, ds.as_str());
            let attrs: [(&str, &str); 1] = [("href", href.as_str())];
            proof {
                assert(href@ =~= "/"@ + dec_chars(y as nat) + "/"@ + dec_chars_pad(
                    m as nat,
                    2,
                    0x30,
                ) + "#"@ + dec_chars_pad(d as nat, 2, 0x30));
                assert(crate::html::attrs_model(attrs@) =~= seq![
                    (
                        "href"@,
                        "/"@ + dec_chars(y as nat) + "/"@ + dec_chars_pad(m as nat, 2, 0x30)
                            + "#"@ + dec_chars_pad(d as nat, 2, 0x30),
                    ),
                ]);
            }
            w.start_attr("a", attrs.as_slice());
            w.raw(ys.as_str());
            w.raw("/");
            w.raw(ms.as_str());
            w.raw("/");
            w.raw(ds.as_str());
            w.end("a");
            w.raw(")");
            proof {
                assert(w.spec_buf() =~= old(w).spec_buf() + render_album(album.model()));
            }
        },
        None => {
            proof {
                assert(old(w).spec_buf() + render_album(album.model()) =~= old(w).spec_buf()
                    + album.model().name);
            }
        },
    }
}

} // verus!
