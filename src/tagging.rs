//! The tags a copied track gets.

use vstd::prelude::*;
use crate::initials::{initials, initials_text};
use crate::naming::{Options, album_of, dash, file_stem, stem_chars};
use crate::text::{append_chars, append_str, decimal, decimal_chars, string_of};

verus! {

/// What to write into a copied track's tags; `None` leaves a tag as it is.
pub struct TagPlan {
    pub track: Option<u32>,
    pub title: Option<String>,
    pub artist: Option<String>,
    pub album: Option<String>,
}

/// The end of a numbered title: the artist's initials and the album, or
/// whichever of the two was given.
pub open spec fn title_tail(o: Options) -> Seq<char> {
    match (o.artist, album_of(o)) {
        (Some(a), Some(m)) => initials_text(a@) + dash() + m,
        (Some(a), None) => a@,
        (None, Some(m)) => m,
        (None, None) => Seq::empty(),
    }
}

/// The title of track `serial` made from the source file `name`: the serial and
/// the file's stem, or the stem alone, or the serial and the tail.
pub open spec fn title_text(serial: u64, name: Seq<char>, o: Options) -> Seq<char> {
    if o.file_title_num {
        decimal(serial as nat) + seq!['>'] + file_stem(name)
    } else if o.file_title {
        file_stem(name)
    } else {
        decimal(serial as nat) + seq![' '] + title_tail(o)
    }
}

/// The tags of track `serial`, copied from the source file `name`: the track
/// number unless it is to be left alone; the title, artist and album only when
/// an artist or an album was given.
pub fn tag_plan(serial: u64, name: &str, opts: &Options) -> (r: TagPlan)
    ensures
        r.track == (if opts.drop_tracknumber {
            None
        } else {
            Some(serial as u32)
        }),
        (opts.artist is Some || album_of(*opts) is Some) ==> (r.title matches Some(t) && t@
            == title_text(serial, name@, *opts)),
        (opts.artist is None && album_of(*opts) is None) ==> r.title is None,
        r.artist matches Some(a) ==> opts.artist matches Some(x) && a@ == x@,
        r.artist is None ==> opts.artist is None,
        r.album matches Some(m) ==> album_of(*opts) == Some(m@),
        r.album is None ==> album_of(*opts) is None,
{
    let track = if opts.drop_tracknumber {
        None
    } else {
        Some(serial as u32)
    };
    let artist = match &opts.artist {
        Some(a) => Some(a.clone()),
        None => None,
    };
    let album = opts.album_tag();
    let title = if artist.is_none() && album.is_none() {
        None
    } else {
        let mut v: Vec<char> = Vec::new();
        if opts.file_title_num {
            v = decimal_chars(serial);
            v.push('>');
            append_chars(&mut v, &stem_chars(name));
        } else if opts.file_title {
            v = stem_chars(name);
        } else {
            v = decimal_chars(serial);
            v.push(' ');
            match (&opts.artist, &album) {
                (Some(a), Some(m)) => {
                    let ini = initials(a.as_str());
                    append_str(&mut v, ini.as_str());
                    v.push(' ');
                    v.push('-');
                    v.push(' ');
                    append_str(&mut v, m.as_str());
                },
                (Some(a), None) => append_str(&mut v, a.as_str()),
                (None, Some(m)) => append_str(&mut v, m.as_str()),
                (None, None) => {},
            }
        }
        assert(v@ =~= title_text(serial, name@, *opts));
        Some(string_of(&v))
    };
    TagPlan { track, title, artist, album }
}

} // verus!
