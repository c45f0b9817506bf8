//! Options of a run, destination names and the numbering of the tracks.

use vstd::prelude::*;
use crate::classify::{file_ext, last_dot};
use crate::text::{
    append_chars, append_str, chars_of, decimal, decimal_chars, join_with, joined, padded_decimal,
    string_of, views, zero_padded,
};
use crate::tree::{Direction, SortMode, Source, WalkItem, lemma_reverse_walk, walk_source};

verus! {

/// Everything a run was asked for, fixed before the run starts.
pub struct Options {
    /// Print a line per track rather than a dot.
    pub verbose: bool,
    /// Leave the track number tag alone.
    pub drop_tracknumber: bool,
    /// Keep the source file names as they are (with `tree_dst`).
    pub strip_decorations: bool,
    /// Title tag: the file name.
    pub file_title: bool,
    /// Title tag: the serial number and the file name.
    pub file_title_num: bool,
    pub sort: SortMode,
    /// Keep the source's subdirectories at the destination.
    pub tree_dst: bool,
    /// Copy into the destination itself, creating no directory there.
    pub drop_dst: bool,
    pub direction: Direction,
    /// Put the subdirectories' names into each flat file name.
    pub prepend_subdir_name: bool,
    /// Count only, copy nothing.
    pub count_only: bool,
    /// Remove an existing destination directory first.
    pub overwrite: bool,
    /// Go through the motions without copying.
    pub dry_run: bool,
    /// One name for everything unspecified.
    pub unified_name: Option<String>,
    /// Number put before the destination directory's name.
    pub album_num: Option<u64>,
    pub artist: Option<String>,
    pub album: Option<String>,
}

/// The album tag of a run: the album given, else the unified name.
pub open spec fn album_of(o: Options) -> Option<Seq<char>> {
    match o.album {
        Some(a) => Some(a@),
        None => match o.unified_name {
            Some(u) => Some(u@),
            None => None,
        },
    }
}

impl Options {
    /// The album tag of a run: the album given, else the unified name.
    pub fn album_tag(&self) -> (r: Option<String>)
        ensures
            r matches Some(a) ==> album_of(*self) == Some(a@),
            r is None ==> album_of(*self) is None,
    {
        match &self.album {
            Some(a) => Some(a.clone()),
            None => match &self.unified_name {
                Some(u) => Some(u.clone()),
                None => None,
            },
        }
    }
}

/// `" - "` as characters.
pub open spec fn dash() -> Seq<char> {
    seq![' ', '-', ' ']
}

/// The artist as part of a name: after a dash when `forw_dash`, else before one;
/// nothing without an artist.
pub open spec fn artist_text(o: Options, forw_dash: bool) -> Seq<char> {
    match o.artist {
        Some(a) => if forw_dash {
            dash() + a@
        } else {
            a@ + dash()
        },
        None => Seq::empty(),
    }
}

/// The artist, shaped to be a part of a directory or file name.
pub fn artist_part(opts: &Options, forw_dash: bool) -> (r: String)
    ensures
        r@ == artist_text(*opts, forw_dash),
{
    let mut v: Vec<char> = Vec::new();
    match &opts.artist {
        Some(a) => {
            if forw_dash {
                v.push(' ');
                v.push('-');
                v.push(' ');
                append_str(&mut v, a.as_str());
            } else {
                append_str(&mut v, a.as_str());
                v.push(' ');
                v.push('-');
                v.push(' ');
            }
        },
        None => {},
    }
    assert(v@ =~= artist_text(*opts, forw_dash));
    string_of(&v)
}

/// A file name without its extension, as `Path::file_stem` gives it.
pub open spec fn file_stem(name: Seq<char>) -> Seq<char> {
    if file_ext(name) is Some {
        name.take(last_dot(name))
    } else {
        name
    }
}

/// Name of the directory a run creates at the destination: the album number,
/// then the artist and unified name, or else the source's name (without its
/// extension when the source is a file).
pub open spec fn dst_name(o: Options, src_name: Seq<char>, src_is_file: bool) -> Seq<char> {
    let prefix = match o.album_num {
        Some(n) => zero_padded(decimal(n as nat), 2) + seq!['-'],
        None => Seq::empty(),
    };
    let base = match o.unified_name {
        Some(u) => artist_text(o, false) + u@,
        None => if src_is_file {
            file_stem(src_name)
        } else {
            src_name
        },
    };
    prefix + base
}

/// Name of the destination directory to create, or `None` when the run copies
/// into the destination itself.
pub fn dst_calculate(opts: &Options, src_name: &str, src_is_file: bool) -> (r: Option<String>)
    ensures
        opts.drop_dst ==> r is None,
        !opts.drop_dst ==> (r matches Some(s) && s@ == dst_name(*opts, src_name@, src_is_file)),
{
    if opts.drop_dst {
        return None;
    }
    let mut v: Vec<char> = Vec::new();
    match opts.album_num {
        Some(n) => {
            v = padded_decimal(n, 2);
            v.push('-');
        },
        None => {},
    }
    match &opts.unified_name {
        Some(u) => {
            let a = artist_part(opts, false);
            append_str(&mut v, a.as_str());
            append_str(&mut v, u.as_str());
        },
        None => {
            if src_is_file {
                let stem = stem_chars(src_name);
                append_chars(&mut v, &stem);
            } else {
                append_str(&mut v, src_name);
            }
        },
    }
    assert(v@ =~= dst_name(*opts, src_name@, src_is_file));
    Some(string_of(&v))
}

/// The file name without its extension.
pub fn stem_chars(name: &str) -> (r: Vec<char>)
    ensures
        r@ == file_stem(name@),
{
    let v = chars_of(name);
    let mut j = v.len();
    assert(v@.take(v@.len() as int) =~= v@);
    while j > 0 && v[j - 1] != '.'
        invariant
            j <= v@.len(),
            last_dot(v@) == last_dot(v@.take(j as int)),
        decreases j,
    {
        assert(v@.take(j as int).drop_last() =~= v@.take(j - 1));
        j = j - 1;
    }
    if j > 0 {
        assert(v@.take(j as int).last() == '.');
    }
    let dotdot = v.len() == 2 && v[0] == '.' && v[1] == '.';
    proof {
        if dotdot {
            assert(v@ =~= seq!['.', '.']);
        } else {
            assert(v@ != seq!['.', '.']);
        }
    }
    if dotdot || j <= 1 {
        v
    } else {
        let mut r: Vec<char> = Vec::new();
        let mut k: usize = 0;
        while k < j - 1
            invariant
                k <= j - 1,
                j <= v@.len(),
                r@ == v@.take(k as int),
            decreases j - 1 - k,
        {
            r.push(v[k]);
            k = k + 1;
            assert(r@ =~= v@.take(k as int));
        }
        r
    }
}

/// The mark between subdirectory names in a file name.
pub open spec fn step_mark() -> Seq<char> {
    seq!['\u{1f538}']
}

/// The serial number led by zeros to `width` digits, then, for a flat copy that
/// asks for it, the subdirectories in brackets.
pub open spec fn track_prefix(serial: u64, step: Seq<Seq<char>>, width: nat, o: Options) -> Seq<char> {
    let num = zero_padded(decimal(serial as nat), width);
    if o.prepend_subdir_name && !o.tree_dst && step.len() > 0 {
        num + seq!['-', '['] + joined(step, step_mark()) + seq![']']
    } else {
        num
    }
}

/// The name a track gets at the destination.
pub open spec fn decorated(serial: u64, src: Seq<char>, step: Seq<Seq<char>>, width: nat, o: Options) -> Seq<
    char,
> {
    if o.strip_decorations && o.tree_dst {
        src
    } else {
        let prefix = track_prefix(serial, step, width, o);
        match o.unified_name {
            Some(u) => prefix + seq!['-'] + u@ + artist_text(o, true) + seq!['.']
                + file_ext(src).unwrap(),
            None => prefix + seq!['-'] + src,
        }
    }
}

/// The destination file name of track `serial`, whose source file is named `src`
/// and lies below the subdirectories `step`.
pub fn track_decorate(serial: u64, src: &str, step: &Vec<String>, width: usize, opts: &Options) -> (r:
    String)
    requires
        opts.unified_name is Some ==> file_ext(src@) is Some,
    ensures
        r@ == decorated(serial, src@, views(step@), width as nat, *opts),
{
    if opts.strip_decorations && opts.tree_dst {
        return string_of(&chars_of(src));
    }
    let mut v = padded_decimal(serial, width);
    if opts.prepend_subdir_name && !opts.tree_dst && step.len() > 0 {
        v.push('-');
        v.push('[');
        let j = join_with(step, "\u{1f538}");
        proof {
            reveal_strlit("\u{1f538}");
            assert("\u{1f538}"@ =~= step_mark());
        }
        append_str(&mut v, j.as_str());
        v.push(']');
    }
    assert(v@ =~= track_prefix(serial, views(step@), width as nat, *opts));
    v.push('-');
    match &opts.unified_name {
        Some(u) => {
            append_str(&mut v, u.as_str());
            let a = artist_part(opts, true);
            append_str(&mut v, a.as_str());
            v.push('.');
            let name = chars_of(src);
            let ext = crate::classify::ext_chars(&name);
            match ext {
                Some(x) => append_chars(&mut v, &x),
                None => {},
            }
        },
        None => {
            append_str(&mut v, src);
        },
    }
    assert(v@ =~= decorated(serial, src@, views(step@), width as nat, *opts));
    string_of(&v)
}

/// Digits of the number of tracks: the width of every serial number of a run.
pub open spec fn width_of(total: u64) -> nat {
    decimal(total as nat).len()
}

/// The width of the serial numbers of a run of `total` tracks.
pub fn track_width(total: u64) -> (r: usize)
    ensures
        r == width_of(total),
{
    decimal_chars(total).len()
}

/// Serial number of the `k`-th track copied out of `total`: forward they count
/// up from one, in reverse they count down from `total`.
pub open spec fn serial_at(total: nat, direction: Direction, k: int) -> int {
    match direction {
        Direction::Forward => k + 1,
        Direction::Reverse => total - k,
    }
}

/// The items in copy order, each with its serial number.
pub open spec fn numbered<T>(items: Seq<T>, direction: Direction) -> Seq<(int, T)> {
    Seq::new(items.len(), |k: int| (serial_at(items.len() as nat, direction, k), items[k]))
}

/// Numbering a reverse walk gives the forward numbering read backwards: the copy
/// order runs from the last serial to the first, and every file gets the serial
/// of its place in the forward order.
pub proof fn lemma_reverse_numbering(src: Source, sort: SortMode)
    ensures
        numbered(walk_source(src, sort, Direction::Reverse), Direction::Reverse) == numbered(
            walk_source(src, sort, Direction::Forward),
            Direction::Forward,
        ).reverse(),
        forall|k: int|
            0 <= k < walk_source(src, sort, Direction::Reverse).len() ==> #[trigger] numbered(
                walk_source(src, sort, Direction::Reverse),
                Direction::Reverse,
            )[k] == (
                walk_source(src, sort, Direction::Forward).len() - k,
                walk_source(src, sort, Direction::Forward)[walk_source(
                    src,
                    sort,
                    Direction::Forward,
                ).len() - 1 - k],
            ),
{
    lemma_reverse_walk(src, sort);
    let f = walk_source(src, sort, Direction::Forward);
    let r = walk_source(src, sort, Direction::Reverse);
    assert(numbered(r, Direction::Reverse) =~= numbered(f, Direction::Forward).reverse());
}

/// A track of a run: its serial number and the file it is made from.
pub struct PlannedTrack {
    pub serial: u64,
    pub item: WalkItem,
}

/// Why a run cannot be numbered.
#[derive(PartialEq, Eq, Structural, Clone, Copy, Debug)]
pub enum PlanError {
    /// No audio file was found.
    NoTracks,
    /// The walk met another number of files than the count found.
    CountMismatch,
}

/// Relies on `itertools::zip_eq`: pairs the serials and the items one for one
/// (it panics on different lengths, which `requires` leaves out).
#[verifier::external_body]
fn zip_serials(serials: Vec<u64>, items: Vec<WalkItem>) -> (r: Vec<PlannedTrack>)
    requires
        serials@.len() == items@.len(),
    ensures
        r@.len() == items@.len(),
        forall|k: int|
            0 <= k < r@.len() ==> (#[trigger] r@[k]).serial == serials@[k] && r@[k].item
                == items@[k],
{
    itertools::zip_eq(serials, items).map(|(serial, item)| PlannedTrack { serial, item }).collect()
}

/// Numbers the walk's items for copying: serials from one up, or from
/// `tracks_total` down in reverse; refused when there is nothing to copy or when
/// the walk disagrees with the count.
pub fn album_plan(items: Vec<WalkItem>, tracks_total: u64, direction: Direction) -> (r: Result<
    Vec<PlannedTrack>,
    PlanError,
>)
    ensures
        tracks_total == 0 ==> r == Err::<Vec<PlannedTrack>, PlanError>(PlanError::NoTracks),
        tracks_total > 0 && items@.len() != tracks_total ==> r == Err::<Vec<PlannedTrack>, PlanError>(
            PlanError::CountMismatch,
        ),
        tracks_total > 0 && items@.len() == tracks_total ==> r is Ok,
        r matches Ok(v) ==> v@.len() == items@.len() && forall|k: int|
            0 <= k < v@.len() ==> (#[trigger] v@[k]).serial == serial_at(
                tracks_total as nat,
                direction,
                k,
            ) && v@[k].item == items@[k],
{
    if tracks_total == 0 {
        return Err(PlanError::NoTracks);
    }
    if items.len() as u64 != tracks_total {
        return Err(PlanError::CountMismatch);
    }
    let mut serials: Vec<u64> = Vec::new();
    let mut k: u64 = 0;
    while k < tracks_total
        invariant
            k <= tracks_total,
            serials@.len() == k,
            forall|j: int| 0 <= j < k ==> serials@[j] == serial_at(tracks_total as nat, direction, j),
        decreases tracks_total - k,
    {
        let s = match direction {
            Direction::Forward => k + 1,
            Direction::Reverse => tracks_total - k,
        };
        serials.push(s);
        k = k + 1;
    }
    Ok(zip_serials(serials, items))
}

} // verus!
