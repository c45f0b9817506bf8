//! Decisions of a run around the copy: the source check, the destination
//! directory, and where and how each track is written.

use vstd::prelude::*;
use crate::human::{human_fine, human_text};
use crate::naming::{Options, decorated, track_decorate};
use crate::classify::file_ext;
use crate::text::{append_str, decimal, decimal_chars, string_of, views};
use crate::tree::WalkItem;

verus! {

/// The path `dst`, by its components, lies inside (or is) the path `src`.
pub open spec fn inside(dst: Seq<Seq<char>>, src: Seq<Seq<char>>) -> bool {
    src.len() <= dst.len() && dst.take(src.len() as int) == src
}

/// Whether the path whose components are `dst` lies inside the one whose
/// components are `src`, as `Path::starts_with` tells.
pub fn dst_inside_src(dst: &Vec<String>, src: &Vec<String>) -> (r: bool)
    ensures
        r == inside(views(dst@), views(src@)),
{
    if src.len() > dst.len() {
        return false;
    }
    let mut i: usize = 0;
    while i < src.len()
        invariant
            i <= src@.len(),
            src@.len() <= dst@.len(),
            forall|k: int| 0 <= k < i ==> dst@[k]@ == src@[k]@,
        decreases src.len() - i,
    {
        if dst[i] != src[i] {
            assert(views(dst@).take(src@.len() as int)[i as int] != views(src@)[i as int]);
            return false;
        }
        i = i + 1;
    }
    assert(views(dst@).take(src@.len() as int) =~= views(src@));
    true
}

/// What becomes of a run whose destination may lie inside its source.
#[derive(PartialEq, Eq, Structural, Clone, Copy, Debug)]
pub enum SrcVerdict {
    /// Nothing stands in the way.
    Go,
    /// A dry run goes on, and the nesting is logged.
    GoLogged,
    /// The run stops before copying anything.
    Abort,
}

/// Judges the source against the destination: a copy into a directory inside
/// the source directory is refused, only logged on a dry run; counting is
/// always fine.
pub fn src_check(opts: &Options, src_is_dir: bool, dst_inside: bool) -> (r: SrcVerdict)
    ensures
        r == (if !opts.count_only && src_is_dir && dst_inside {
            if opts.dry_run {
                SrcVerdict::GoLogged
            } else {
                SrcVerdict::Abort
            }
        } else {
            SrcVerdict::Go
        }),
{
    if !opts.count_only && src_is_dir && dst_inside {
        if opts.dry_run {
            SrcVerdict::GoLogged
        } else {
            SrcVerdict::Abort
        }
    } else {
        SrcVerdict::Go
    }
}

/// What to do with the destination directory before copying.
#[derive(PartialEq, Eq, Structural, Clone, Copy, Debug)]
pub enum DstAction {
    /// Use the destination as it is (no directory of its own, or a dry run).
    UseAsIs,
    /// Create it.
    Create,
    /// Remove the existing one, then create it.
    Replace,
    /// It exists and may not be overwritten: stop.
    Refuse,
}

/// Decides how the destination directory is prepared, given whether it exists.
pub fn dst_create(opts: &Options, exists: bool) -> (r: DstAction)
    ensures
        r == (if opts.drop_dst || opts.dry_run {
            DstAction::UseAsIs
        } else if !exists {
            DstAction::Create
        } else if opts.overwrite {
            DstAction::Replace
        } else {
            DstAction::Refuse
        }),
{
    if opts.drop_dst || opts.dry_run {
        DstAction::UseAsIs
    } else if !exists {
        DstAction::Create
    } else if opts.overwrite {
        DstAction::Replace
    } else {
        DstAction::Refuse
    }
}

/// Where track `serial` goes below the destination: its subdirectories when
/// the tree is kept, then its decorated name.
pub open spec fn destination(serial: u64, step: Seq<Seq<char>>, name: Seq<char>, width: nat, o: Options) -> Seq<
    Seq<char>,
> {
    let dirs = if o.tree_dst {
        step
    } else {
        Seq::empty()
    };
    dirs.push(decorated(serial, name, step, width, o))
}

/// The path of track `serial` below the destination, component by component.
pub fn track_destination(serial: u64, item: &WalkItem, width: usize, opts: &Options) -> (r: Vec<
    String,
>)
    requires
        opts.unified_name is Some ==> file_ext(item.name@) is Some,
    ensures
        views(r@) == destination(serial, views(item.step@), item.name@, width as nat, *opts),
{
    let mut r: Vec<String> = Vec::new();
    if opts.tree_dst {
        let mut i: usize = 0;
        while i < item.step.len()
            invariant
                i <= item.step@.len(),
                r@.len() == i,
                forall|k: int| 0 <= k < i ==> r@[k]@ == item.step@[k]@,
            decreases item.step.len() - i,
        {
            r.push(item.step[i].clone());
            i = i + 1;
        }
    }
    r.push(track_decorate(serial, item.name.as_str(), &item.step, width, opts));
    assert(views(r@) =~= destination(serial, views(item.step@), item.name@, width as nat, *opts));
    r
}

/// Whether the subdirectories of a track are created at the destination.
pub fn creates_step_dirs(opts: &Options) -> (r: bool)
    ensures
        r == (opts.tree_dst && !opts.dry_run),
{
    opts.tree_dst && !opts.dry_run
}

/// The column mark of a progress line.
pub open spec fn column() -> Seq<char> {
    seq!['\u{2714}']
}

/// `s` led by spaces up to `width` characters.
pub open spec fn space_padded(s: Seq<char>, width: nat) -> Seq<char> {
    if s.len() < width {
        Seq::new((width - s.len()) as nat, |i: int| ' ') + s
    } else {
        s
    }
}

/// How a size change reads: a sign, then the difference.
pub open spec fn signed(d: int) -> Seq<char> {
    if d >= 0 {
        seq!['+'] + decimal(d as nat)
    } else {
        seq!['-'] + decimal((-d) as nat)
    }
}

/// The line printed for a track: its serial right-aligned to `width`, the
/// total, the destination path, and, when the copy's size differs from the
/// source's, the source size (nothing was written) or the growth.
pub open spec fn track_text(serial: u64, width: nat, total: u64, path: Seq<char>, dst_bytes: u64, src_bytes: u64) -> Seq<
    char,
> {
    let head = space_padded(decimal(serial as nat), width) + seq!['/'] + decimal(total as nat) + seq![' ']
        + column() + seq![' '] + path;
    if dst_bytes == src_bytes {
        head
    } else if dst_bytes == 0 {
        head + seq![' ', ' '] + column() + seq![' '] + human_text(src_bytes as nat)
    } else {
        head + seq![' ', ' '] + column() + seq![' '] + signed(dst_bytes - src_bytes)
    }
}

/// The verbose progress line of a copied track.
pub fn track_line(serial: u64, width: usize, total: u64, path: &str, dst_bytes: u64, src_bytes: u64) -> (r:
    String)
    ensures
        r@ == track_text(serial, width as nat, total, path@, dst_bytes, src_bytes),
{
    let num = decimal_chars(serial);
    let mut v: Vec<char> = Vec::new();
    if num.len() < width {
        let fill = width - num.len();
        let mut i: usize = 0;
        while i < fill
            invariant
                i <= fill,
                v@ == Seq::new(i as nat, |k: int| ' '),
            decreases fill - i,
        {
            v.push(' ');
            i = i + 1;
            assert(v@ =~= Seq::new(i as nat, |k: int| ' '));
        }
    }
    crate::text::append_chars(&mut v, &num);
    assert(v@ =~= space_padded(decimal(serial as nat), width as nat));
    v.push('/');
    crate::text::append_chars(&mut v, &decimal_chars(total));
    v.push(' ');
    v.push('\u{2714}');
    v.push(' ');
    append_str(&mut v, path);
    if dst_bytes != src_bytes {
        v.push(' ');
        v.push(' ');
        v.push('\u{2714}');
        v.push(' ');
        if dst_bytes == 0 {
            append_str(&mut v, human_fine(src_bytes).as_str());
        } else if dst_bytes >= src_bytes {
            v.push('+');
            crate::text::append_chars(&mut v, &decimal_chars(dst_bytes - src_bytes));
        } else {
            v.push('-');
            crate::text::append_chars(&mut v, &decimal_chars(src_bytes - dst_bytes));
        }
    }
    assert(v@ =~= track_text(serial, width as nat, total, path@, dst_bytes, src_bytes));
    string_of(&v)
}

/// The report of a count: the number of tracks and their volume, and, for more
/// than one track, the average size.
pub open spec fn count_text(tracks: u64, bytes: u64) -> Seq<char> {
    let icon = if tracks > 0 {
        seq!['\u{1f7e2}']
    } else {
        seq!['\u{1f4a7}']
    };
    let head = seq![' '] + icon + " Valid: "@ + decimal(tracks as nat) + " file(s); Volume: "@
        + human_text(bytes as nat);
    if tracks > 1 {
        head + "; Average: "@ + human_text((bytes / tracks) as nat)
    } else {
        head
    }
}

/// The report of a count, without the time it took.
pub fn count_report(tracks: u64, bytes: u64) -> (r: String)
    ensures
        r@ == count_text(tracks, bytes),
{
    let mut v: Vec<char> = Vec::new();
    v.push(' ');
    if tracks > 0 {
        v.push('\u{1f7e2}');
    } else {
        v.push('\u{1f4a7}');
    }
    append_str(&mut v, " Valid: ");
    crate::text::append_chars(&mut v, &decimal_chars(tracks));
    append_str(&mut v, " file(s); Volume: ");
    append_str(&mut v, human_fine(bytes).as_str());
    if tracks > 1 {
        append_str(&mut v, "; Average: ");
        append_str(&mut v, human_fine(bytes / tracks).as_str());
    }
    assert(v@ =~= count_text(tracks, bytes));
    string_of(&v)
}

} // verus!
