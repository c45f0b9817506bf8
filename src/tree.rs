//! The source tree: scanning one directory, walking the whole tree, counting it.

use vstd::prelude::*;
use crate::text::views;

verus! {

/// How a file of the source tree was judged.
#[derive(PartialEq, Eq, Structural, Clone, Copy, Debug)]
pub enum Class {
    /// A known audio extension, and its tags could be read.
    Audio,
    /// A known audio extension, but its tags could not be read.
    Suspicious,
    /// Left out by the file-type filter, or not an audio extension.
    Ignored,
}

/// A file of the source tree, with its size in bytes and how it was judged.
pub struct FileEntry {
    pub name: String,
    pub size: u64,
    pub class: Class,
}

/// A directory of the source tree: its name, its subdirectories and its files.
pub struct DirNode {
    pub name: String,
    pub dirs: Vec<DirNode>,
    pub files: Vec<FileEntry>,
}

/// What the copy starts from: one file, or a directory tree.
pub enum Source {
    File(FileEntry),
    Dir(DirNode),
}

/// Order in which names are sorted.
#[derive(PartialEq, Eq, Structural, Clone, Copy, Debug)]
pub enum SortMode {
    /// Runs of digits compare by their numeric value (`track2` before `track10`).
    Natural,
    /// Plain code point order.
    Lexicographic,
}

/// Whether the tree is copied from its first track to its last, or the other way.
#[derive(PartialEq, Eq, Structural, Clone, Copy, Debug)]
pub enum Direction {
    Forward,
    Reverse,
}

/// One audio file met by the walk: the subdirectories leading to it from the
/// walk's root, and its own name.
pub struct WalkItem {
    pub step: Vec<String>,
    pub name: String,
}

pub open spec fn item_view(w: WalkItem) -> (Seq<Seq<char>>, Seq<char>) {
    (views(w.step@), w.name@)
}

pub open spec fn items_view(v: Seq<WalkItem>) -> Seq<(Seq<Seq<char>>, Seq<char>)> {
    v.map_values(|w: WalkItem| item_view(w))
}

/// The names of the directories `ds`, in order.
pub open spec fn dir_names(ds: Seq<DirNode>) -> Seq<Seq<char>> {
    ds.map_values(|c: DirNode| c.name@)
}

/// Names of the audio files among `fs`, in their order.
pub open spec fn audio_names(fs: Seq<FileEntry>) -> Seq<Seq<char>>
    decreases fs.len(),
{
    if fs.len() == 0 {
        Seq::empty()
    } else if fs.last().class == Class::Audio {
        audio_names(fs.drop_last()).push(fs.last().name@)
    } else {
        audio_names(fs.drop_last())
    }
}

/// Code point order on names: `a` comes first or equals `b`.
pub open spec fn lex_le(a: Seq<char>, b: Seq<char>) -> bool
    decreases a.len(),
{
    if a.len() == 0 {
        true
    } else if b.len() == 0 {
        false
    } else if a[0] != b[0] {
        a[0] < b[0]
    } else {
        lex_le(a.skip(1), b.skip(1))
    }
}

/// The names in natural order, as the natural sort arranges them.
pub uninterp spec fn natural_sorted(names: Seq<Seq<char>>) -> Seq<Seq<char>>;

/// The names in code point order.
pub open spec fn lex_sorted(names: Seq<Seq<char>>) -> Seq<Seq<char>> {
    names.sort_by(|a: Seq<char>, b: Seq<char>| lex_le(a, b))
}

/// The names sorted. The natural sort starts from code point order, so the
/// order in which a directory listing gave the names never shows through.
pub open spec fn sorted_names(names: Seq<Seq<char>>, sort: SortMode) -> Seq<Seq<char>> {
    match sort {
        SortMode::Natural => natural_sorted(lex_sorted(names)),
        SortMode::Lexicographic => lex_sorted(names),
    }
}

/// The names sorted, then reversed when the direction is `Reverse`.
pub open spec fn ordered(names: Seq<Seq<char>>, sort: SortMode, direction: Direction) -> Seq<
    Seq<char>,
> {
    match direction {
        Direction::Forward => sorted_names(names, sort),
        Direction::Reverse => sorted_names(names, sort).reverse(),
    }
}

/// Index of the first directory of `ds` named `n`, or `ds.len()` if none is.
pub open spec fn first_named(ds: Seq<DirNode>, n: Seq<char>) -> int
    decreases ds.len(),
{
    if ds.len() == 0 {
        0
    } else if ds[0].name@ == n {
        0
    } else {
        1 + first_named(ds.skip(1), n)
    }
}

/// The items of a walk of `d` that starts at `step`: the subdirectories' items
/// and the directory's own audio files, each group in scan order; forward, the
/// subdirectories come first, in reverse the files do.
pub open spec fn walk_dir(d: DirNode, step: Seq<Seq<char>>, sort: SortMode, direction: Direction) -> Seq<
    (Seq<Seq<char>>, Seq<char>),
>
    decreases d, 0nat,
{
    let files = ordered(audio_names(d.files@), sort, direction).map_values(
        |n: Seq<char>| (step, n),
    );
    let nested = walk_named(d.dirs@, ordered(dir_names(d.dirs@), sort, direction), step, sort, direction);
    match direction {
        Direction::Forward => nested + files,
        Direction::Reverse => files + nested,
    }
}

/// The walk of the first subdirectory of `ds` named `n`, one level below `step`.
pub open spec fn walk_child(
    ds: Seq<DirNode>,
    n: Seq<char>,
    step: Seq<Seq<char>>,
    sort: SortMode,
    direction: Direction,
) -> Seq<(Seq<Seq<char>>, Seq<char>)>
    decreases ds, 0nat,
{
    let i = first_named(ds, n);
    if 0 <= i < ds.len() {
        walk_dir(ds[i], step.push(n), sort, direction)
    } else {
        Seq::empty()
    }
}

/// The walks of the subdirectories `ds` named by `names`, one after the other.
pub open spec fn walk_named(
    ds: Seq<DirNode>,
    names: Seq<Seq<char>>,
    step: Seq<Seq<char>>,
    sort: SortMode,
    direction: Direction,
) -> Seq<(Seq<Seq<char>>, Seq<char>)>
    decreases ds, names.len(),
{
    if names.len() == 0 {
        Seq::empty()
    } else {
        walk_child(ds, names[0], step, sort, direction) + walk_named(
            ds,
            names.skip(1),
            step,
            sort,
            direction,
        )
    }
}

/// The walk of a whole source: a single audio file is its only item.
pub open spec fn walk_source(src: Source, sort: SortMode, direction: Direction) -> Seq<
    (Seq<Seq<char>>, Seq<char>),
> {
    match src {
        Source::File(f) => if f.class == Class::Audio {
            seq![(Seq::<Seq<char>>::empty(), f.name@)]
        } else {
            Seq::empty()
        },
        Source::Dir(d) => walk_dir(d, Seq::empty(), sort, direction),
    }
}

/// Relies on `alphanumeric_sort::sort_str_slice`: the same names, rearranged in
/// natural order.
#[verifier::external_body]
fn sort_natural(names: &mut Vec<String>)
    ensures
        views(final(names)@) == natural_sorted(views(old(names)@)),
        views(final(names)@).to_multiset() == views(old(names)@).to_multiset(),
{
    alphanumeric_sort::sort_str_slice(names)
}

/// Relies on `slice::sort_unstable` and the order of `String`, which compares
/// code points: the same names, sorted.
#[verifier::external_body]
fn sort_lex(names: &mut Vec<String>)
    ensures
        views(final(names)@) == views(old(names)@).sort_by(
            |a: Seq<char>, b: Seq<char>| lex_le(a, b),
        ),
        views(final(names)@).to_multiset() == views(old(names)@).to_multiset(),
{
    names.sort_unstable()
}

fn reversed(v: Vec<String>) -> (r: Vec<String>)
    ensures
        views(r@) == views(v@).reverse(),
{
    let mut r: Vec<String> = Vec::new();
    let mut i = v.len();
    while i > 0
        invariant
            i <= v@.len(),
            r@.len() == v@.len() - i,
            forall|k: int| 0 <= k < r@.len() ==> r@[k]@ == v@[v@.len() - 1 - k]@,
        decreases i,
    {
        i = i - 1;
        r.push(v[i].clone());
    }
    assert(views(r@) =~= views(v@).reverse());
    r
}

/// Arranges `names` as a scan does: sorted, then reversed for `Reverse`.
fn arrange(names: Vec<String>, sort: SortMode, direction: Direction) -> (r: Vec<String>)
    ensures
        views(r@) == ordered(views(names@), sort, direction),
        views(r@).to_multiset() == views(names@).to_multiset(),
{
    let mut v = names;
    sort_lex(&mut v);
    match sort {
        SortMode::Natural => sort_natural(&mut v),
        SortMode::Lexicographic => {},
    }
    match direction {
        Direction::Forward => v,
        Direction::Reverse => {
            let r = reversed(v);
            proof {
                views(v@).lemma_reverse_to_multiset();
            }
            r
        },
    }
}

/// Scans one directory: its subdirectories' names and its audio files' names,
/// each list in scan order.
pub fn dir_groom(dir: &DirNode, sort: SortMode, direction: Direction) -> (r: (
    Vec<String>,
    Vec<String>,
))
    ensures
        views(r.0@) == ordered(dir_names(dir.dirs@), sort, direction),
        views(r.1@) == ordered(audio_names(dir.files@), sort, direction),
        views(r.0@).to_multiset() == dir_names(dir.dirs@).to_multiset(),
        views(r.1@).to_multiset() == audio_names(dir.files@).to_multiset(),
{
    let mut dirs: Vec<String> = Vec::new();
    let mut i: usize = 0;
    while i < dir.dirs.len()
        invariant
            i <= dir.dirs@.len(),
            views(dirs@) == dir_names(dir.dirs@.take(i as int)),
        decreases dir.dirs.len() - i,
    {
        assert(dirs@.len() == i) by {
            assert(views(dirs@).len() == dirs@.len());
            assert(dir_names(dir.dirs@.take(i as int)).len() == i);
        }
        let ghost before = dirs@;
        dirs.push(dir.dirs[i].name.clone());
        i = i + 1;
        assert forall|k: int| 0 <= k < i implies views(dirs@)[k] == dir_names(
            dir.dirs@.take(i as int),
        )[k] by {
            if k < i - 1 {
                assert(views(before)[k] == dir_names(dir.dirs@.take(i - 1))[k]);
            }
        }
        assert(views(dirs@) =~= dir_names(dir.dirs@.take(i as int)));
    }
    assert(dir.dirs@.take(i as int) =~= dir.dirs@);
    let mut files: Vec<String> = Vec::new();
    let mut j: usize = 0;
    while j < dir.files.len()
        invariant
            j <= dir.files@.len(),
            views(files@) == audio_names(dir.files@.take(j as int)),
        decreases dir.files.len() - j,
    {
        assert(dir.files@.take(j + 1).drop_last() =~= dir.files@.take(j as int));
        if dir.files[j].class == Class::Audio {
            files.push(dir.files[j].name.clone());
        }
        j = j + 1;
        assert(views(files@) =~= audio_names(dir.files@.take(j as int)));
    }
    assert(dir.files@.take(j as int) =~= dir.files@);
    (arrange(dirs, sort, direction), arrange(files, sort, direction))
}

/// Lemma: a walk over names ends with the walk of the last name.
pub proof fn lemma_walk_named_snoc(
    ds: Seq<DirNode>,
    names: Seq<Seq<char>>,
    step: Seq<Seq<char>>,
    sort: SortMode,
    direction: Direction,
)
    requires
        names.len() > 0,
    ensures
        walk_named(ds, names, step, sort, direction) == walk_named(
            ds,
            names.drop_last(),
            step,
            sort,
            direction,
        ) + walk_child(ds, names.last(), step, sort, direction),
    decreases names.len(),
{
    if names.len() == 1 {
        assert(names.skip(1) =~= Seq::<Seq<char>>::empty());
        assert(names.drop_last() =~= Seq::<Seq<char>>::empty());
        assert(walk_named(ds, names.skip(1), step, sort, direction) =~= Seq::empty());
        assert(walk_named(ds, names, step, sort, direction) =~= walk_child(ds, names[0], step, sort, direction));
    } else {
        lemma_walk_named_snoc(ds, names.skip(1), step, sort, direction);
        assert(names.skip(1).drop_last() =~= names.drop_last().skip(1));
        assert(names.skip(1).last() == names.last());
        assert(names.drop_last()[0] == names[0]);
        let a = walk_child(ds, names[0], step, sort, direction);
        let b = walk_named(ds, names.skip(1).drop_last(), step, sort, direction);
        let c = walk_child(ds, names.last(), step, sort, direction);
        assert(a + (b + c) =~= (a + b) + c);
    }
}

proof fn lemma_first_named_skip(ds: Seq<DirNode>, n: Seq<char>, i: int)
    requires
        0 <= i <= ds.len(),
        forall|k: int| 0 <= k < i ==> ds[k].name@ != n,
    ensures
        first_named(ds, n) == i + first_named(ds.skip(i), n),
    decreases i,
{
    if i == 0 {
        assert(ds.skip(0) =~= ds);
    } else {
        lemma_first_named_skip(ds.skip(1), n, i - 1);
        assert(ds.skip(1).skip(i - 1) =~= ds.skip(i));
    }
}

/// Index of the first directory of `ds` named `n`, or `ds.len()` if none is.
fn find_named(ds: &Vec<DirNode>, n: &String) -> (r: usize)
    ensures
        r == first_named(ds@, n@),
{
    let mut i: usize = 0;
    while i < ds.len()
        invariant
            i <= ds@.len(),
            forall|k: int| 0 <= k < i ==> ds@[k].name@ != n@,
        decreases ds.len() - i,
    {
        if ds[i].name == *n {
            proof {
                lemma_first_named_skip(ds@, n@, i as int);
            }
            return i;
        }
        i = i + 1;
    }
    proof {
        lemma_first_named_skip(ds@, n@, i as int);
    }
    i
}

fn clone_names(v: &Vec<String>) -> (r: Vec<String>)
    ensures
        views(r@) == views(v@),
{
    let mut r: Vec<String> = Vec::new();
    let mut i: usize = 0;
    while i < v.len()
        invariant
            i <= v@.len(),
            r@.len() == i,
            forall|k: int| 0 <= k < i ==> r@[k]@ == v@[k]@,
        decreases v.len() - i,
    {
        r.push(v[i].clone());
        i = i + 1;
    }
    assert(views(r@) =~= views(v@));
    r
}

/// Walks the tree under `dir`, `step` leading to it from the walk's root: every
/// audio file with the subdirectories leading to it, in copy order.
pub fn dir_walk(dir: &DirNode, step: &Vec<String>, sort: SortMode, direction: Direction) -> (r: Vec<
    WalkItem,
>)
    ensures
        items_view(r@) == walk_dir(*dir, views(step@), sort, direction),
        distinct_names(*dir) ==> r@.len() == dir_totals(*dir).2,
    decreases dir,
{
    let (names, files) = dir_groom(dir, sort, direction);
    let ghost ds = dir.dirs@;
    let ghost st = views(step@);
    let mut nested: Vec<WalkItem> = Vec::new();
    let mut k: usize = 0;
    while k < names.len()
        invariant
            k <= names@.len(),
            ds == dir.dirs@,
            st == views(step@),
            items_view(nested@) == walk_named(ds, views(names@).take(k as int), st, sort, direction),
            distinct_names(*dir) ==> nested@.len() == named_tracks(ds, views(names@).take(k as int)),
        decreases names.len() - k,
    {
        let i = find_named(&dir.dirs, &names[k]);
        let ghost before = nested@;
        if i < dir.dirs.len() {
            let mut sub = clone_names(step);
            sub.push(names[k].clone());
            assert(views(sub@) =~= st.push(names@[k as int]@));
            let mut part = dir_walk(&dir.dirs[i], &sub, sort, direction);
            proof {
                if distinct_names(*dir) {
                    assert(distinct_names(ds[i as int]));
                }
            }
            nested.append(&mut part);
        }
        proof {
            assert(views(names@).take(k + 1).drop_last() =~= views(names@).take(k as int));
            assert(views(names@).take(k + 1).last() == names@[k as int]@);
            let q = views(names@).take(k + 1);
            lemma_walk_named_snoc(ds, q, st, sort, direction);
            assert(q.drop_last() =~= views(names@).take(k as int));
            assert(q.last() == names@[k as int]@);
        }
        k = k + 1;
        assert(items_view(nested@) =~= walk_named(ds, views(names@).take(k as int), st, sort, direction));
    }
    assert(views(names@).take(k as int) =~= views(names@));
    proof {
        if distinct_names(*dir) {
            lemma_named_tracks_perm(ds, views(names@));
            lemma_audio_names_len(dir.files@);
            vstd::seq_lib::to_multiset_len(views(files@));
            vstd::seq_lib::to_multiset_len(audio_names(dir.files@));
        }
    }
    let mut own: Vec<WalkItem> = Vec::new();
    let mut j: usize = 0;
    let ghost fs = ordered(audio_names(dir.files@), sort, direction).map_values(
        |n: Seq<char>| (st, n),
    );
    while j < files.len()
        invariant
            j <= files@.len(),
            st == views(step@),
            views(files@) == ordered(audio_names(dir.files@), sort, direction),
            fs == views(files@).map_values(|n: Seq<char>| (st, n)),
            items_view(own@) == fs.take(j as int),
            own@.len() == j,
        decreases files.len() - j,
    {
        assert(own@.len() == j) by {
            assert(items_view(own@).len() == own@.len());
        }
        let ghost before = own@;
        let item = WalkItem { step: clone_names(step), name: files[j].clone() };
        own.push(item);
        j = j + 1;
        assert forall|k: int| 0 <= k < j implies items_view(own@)[k] == fs.take(j as int)[k] by {
            if k < j - 1 {
                assert(items_view(before)[k] == fs.take(j - 1)[k]);
            }
        }
        assert(items_view(own@) =~= fs.take(j as int));
    }
    assert(fs.take(j as int) =~= fs);
    match direction {
        Direction::Forward => {
            nested.append(&mut own);
            assert(items_view(nested@) =~= walk_dir(*dir, st, sort, direction));
            nested
        },
        Direction::Reverse => {
            own.append(&mut nested);
            assert(items_view(own@) =~= walk_dir(*dir, st, sort, direction));
            own
        },
    }
}

/// Walks a whole source in copy order.
pub fn source_walk(src: &Source, sort: SortMode, direction: Direction) -> (r: Vec<WalkItem>)
    ensures
        items_view(r@) == walk_source(*src, sort, direction),
        source_distinct_names(*src) ==> r@.len() == source_totals(*src).2,
{
    match src {
        Source::File(f) => {
            let mut r: Vec<WalkItem> = Vec::new();
            if f.class == Class::Audio {
                r.push(WalkItem { step: Vec::new(), name: f.name.clone() });
                assert(views(r@[0].step@) =~= Seq::<Seq<char>>::empty());
                assert(items_view(r@) =~= walk_source(*src, sort, direction));
            } else {
                assert(items_view(r@) =~= walk_source(*src, sort, direction));
            }
            r
        },
        Source::Dir(d) => {
            let step: Vec<String> = Vec::new();
            assert(views(step@) =~= Seq::<Seq<char>>::empty());
            dir_walk(d, &step, sort, direction)
        },
    }
}

proof fn lemma_reverse_concat<A>(a: Seq<A>, b: Seq<A>)
    ensures
        (a + b).reverse() == b.reverse() + a.reverse(),
{
    assert((a + b).reverse() =~= b.reverse() + a.reverse());
}

/// Lemma: walking the directories named by `names` reversed, in reverse, gives
/// the forward walk of `names` reversed.
pub proof fn lemma_reverse_named(
    ds: Seq<DirNode>,
    names: Seq<Seq<char>>,
    step: Seq<Seq<char>>,
    sort: SortMode,
)
    ensures
        walk_named(ds, names.reverse(), step, sort, Direction::Reverse) == walk_named(
            ds,
            names,
            step,
            sort,
            Direction::Forward,
        ).reverse(),
    decreases ds, names.len(),
{
    let fwd = walk_named(ds, names, step, sort, Direction::Forward);
    if names.len() == 0 {
        assert(names.reverse() =~= Seq::<Seq<char>>::empty());
        assert(fwd.reverse() =~= Seq::empty());
    } else {
        let r = names.reverse();
        let n = names.last();
        assert(r[0] == n);
        assert(r.skip(1) =~= names.drop_last().reverse());
        lemma_reverse_named(ds, names.drop_last(), step, sort);
        let i = first_named(ds, n);
        if 0 <= i < ds.len() {
            lemma_reverse_dir(ds[i], step.push(n), sort);
        } else {
            assert(Seq::<(Seq<Seq<char>>, Seq<char>)>::empty().reverse() =~= Seq::empty());
        }
        let cf = walk_child(ds, n, step, sort, Direction::Forward);
        let cr = walk_child(ds, n, step, sort, Direction::Reverse);
        assert(cr == cf.reverse());
        let rest = walk_named(ds, names.drop_last(), step, sort, Direction::Forward);
        assert(walk_named(ds, r, step, sort, Direction::Reverse) == cr + walk_named(
            ds,
            r.skip(1),
            step,
            sort,
            Direction::Reverse,
        ));
        lemma_walk_named_snoc(ds, names, step, sort, Direction::Forward);
        lemma_reverse_concat(rest, cf);
    }
}

/// Lemma: the reverse walk of a directory is its forward walk read backwards,
/// at every depth of the tree.
pub proof fn lemma_reverse_dir(d: DirNode, step: Seq<Seq<char>>, sort: SortMode)
    ensures
        walk_dir(d, step, sort, Direction::Reverse) == walk_dir(
            d,
            step,
            sort,
            Direction::Forward,
        ).reverse(),
    decreases d, 0nat,
{
    let ds = d.dirs@;
    let t = sorted_names(dir_names(ds), sort);
    lemma_reverse_named(ds, t, step, sort);
    let sf = sorted_names(audio_names(d.files@), sort);
    let f = |n: Seq<char>| (step, n);
    assert(sf.reverse().map_values(f) =~= sf.map_values(f).reverse());
    lemma_reverse_concat(walk_named(ds, t, step, sort, Direction::Forward), sf.map_values(f));
}

/// Reversing the direction yields exactly the forward copy order read backwards:
/// the same items, in the opposite order, at every nesting level.
pub proof fn lemma_reverse_walk(src: Source, sort: SortMode)
    ensures
        walk_source(src, sort, Direction::Reverse) == walk_source(
            src,
            sort,
            Direction::Forward,
        ).reverse(),
{
    match src {
        Source::File(f) => {
            let w = walk_source(src, sort, Direction::Forward);
            assert(w.reverse() =~= w);
        },
        Source::Dir(d) => {
            lemma_reverse_dir(d, Seq::empty(), sort);
        },
    }
}

/// Totals of a run, in the order suspicious count, suspicious bytes, track
/// count, track bytes.
pub struct RunTotals {
    pub suspicious_count: u64,
    pub suspicious_bytes: u64,
    pub track_count: u64,
    pub track_bytes: u64,
}

pub type Totals = (nat, nat, nat, nat);

pub open spec fn totals_view(t: RunTotals) -> Totals {
    (
        t.suspicious_count as nat,
        t.suspicious_bytes as nat,
        t.track_count as nat,
        t.track_bytes as nat,
    )
}

pub open spec fn no_totals() -> Totals {
    (0, 0, 0, 0)
}

pub open spec fn plus(a: Totals, b: Totals) -> Totals {
    (a.0 + b.0, a.1 + b.1, a.2 + b.2, a.3 + b.3)
}

/// Each total is at most the other's.
pub open spec fn below(a: Totals, b: Totals) -> bool {
    a.0 <= b.0 && a.1 <= b.1 && a.2 <= b.2 && a.3 <= b.3
}

/// Each total fits in a `u64`.
pub open spec fn fits(t: Totals) -> bool {
    below(t, (u64::MAX as nat, u64::MAX as nat, u64::MAX as nat, u64::MAX as nat))
}

/// What one file adds: an audio file is a track, a suspicious one is counted apart.
pub open spec fn file_totals(f: FileEntry) -> Totals {
    match f.class {
        Class::Audio => (0, 0, 1, f.size as nat),
        Class::Suspicious => (1, f.size as nat, 0, 0),
        Class::Ignored => no_totals(),
    }
}

/// Totals of the files `fs`.
pub open spec fn files_totals(fs: Seq<FileEntry>) -> Totals
    decreases fs.len(),
{
    if fs.len() == 0 {
        no_totals()
    } else {
        plus(files_totals(fs.drop_last()), file_totals(fs.last()))
    }
}

/// Totals of the whole tree under `d`.
pub open spec fn dir_totals(d: DirNode) -> Totals
    decreases d, 0nat,
{
    plus(dirs_totals(d.dirs@, d.dirs@.len()), files_totals(d.files@))
}

/// Totals of the trees under the first `k` directories of `ds`.
pub open spec fn dirs_totals(ds: Seq<DirNode>, k: nat) -> Totals
    decreases ds, k,
{
    if k == 0 || k > ds.len() {
        no_totals()
    } else {
        plus(dirs_totals(ds, (k - 1) as nat), dir_totals(ds[k - 1]))
    }
}

/// Totals of a whole source.
pub open spec fn source_totals(src: Source) -> Totals {
    match src {
        Source::File(f) => file_totals(f),
        Source::Dir(d) => dir_totals(d),
    }
}

/// Every directory of the tree under `d` holds subdirectories of distinct names,
/// as a file system's directories do.
pub open spec fn distinct_names(d: DirNode) -> bool
    decreases d,
{
    &&& dir_names(d.dirs@).no_duplicates()
    &&& forall|i: int| 0 <= i < d.dirs@.len() ==> distinct_names(#[trigger] d.dirs@[i])
}

pub open spec fn source_distinct_names(src: Source) -> bool {
    match src {
        Source::File(f) => true,
        Source::Dir(d) => distinct_names(d),
    }
}

fn file_count(f: &FileEntry) -> (r: RunTotals)
    ensures
        totals_view(r) == file_totals(*f),
{
    match f.class {
        Class::Audio => RunTotals {
            suspicious_count: 0,
            suspicious_bytes: 0,
            track_count: 1,
            track_bytes: f.size,
        },
        Class::Suspicious => RunTotals {
            suspicious_count: 1,
            suspicious_bytes: f.size,
            track_count: 0,
            track_bytes: 0,
        },
        Class::Ignored => RunTotals {
            suspicious_count: 0,
            suspicious_bytes: 0,
            track_count: 0,
            track_bytes: 0,
        },
    }
}

fn add_totals(a: &RunTotals, b: &RunTotals) -> (r: Option<RunTotals>)
    ensures
        r is Some <==> fits(plus(totals_view(*a), totals_view(*b))),
        r matches Some(t) ==> totals_view(t) == plus(totals_view(*a), totals_view(*b)),
{
    let sc = a.suspicious_count.checked_add(b.suspicious_count);
    let sb = a.suspicious_bytes.checked_add(b.suspicious_bytes);
    let tc = a.track_count.checked_add(b.track_count);
    let tb = a.track_bytes.checked_add(b.track_bytes);
    match (sc, sb, tc, tb) {
        (Some(sc), Some(sb), Some(tc), Some(tb)) => Some(
            RunTotals { suspicious_count: sc, suspicious_bytes: sb, track_count: tc, track_bytes: tb },
        ),
        _ => None,
    }
}

proof fn lemma_files_prefix(fs: Seq<FileEntry>, j: int)
    requires
        0 <= j <= fs.len(),
    ensures
        below(files_totals(fs.take(j)), files_totals(fs)),
    decreases fs.len(),
{
    if j < fs.len() {
        lemma_files_prefix(fs.drop_last(), j);
        assert(fs.drop_last().take(j) =~= fs.take(j));
    } else {
        assert(fs.take(j) =~= fs);
    }
}

proof fn lemma_dirs_prefix(ds: Seq<DirNode>, k: nat, m: nat)
    requires
        k <= m <= ds.len(),
    ensures
        below(dirs_totals(ds, k), dirs_totals(ds, m)),
    decreases m,
{
    if k < m {
        lemma_dirs_prefix(ds, k, (m - 1) as nat);
    }
}

/// Counts the tree under `dir`: `None` when a total does not fit in a `u64`.
pub fn dir_count(dir: &DirNode) -> (r: Option<RunTotals>)
    ensures
        r is Some <==> fits(dir_totals(*dir)),
        r matches Some(t) ==> totals_view(t) == dir_totals(*dir),
    decreases dir,
{
    let ghost ds = dir.dirs@;
    let ghost fs = dir.files@;
    let mut acc = RunTotals { suspicious_count: 0, suspicious_bytes: 0, track_count: 0, track_bytes: 0 };
    let mut i: usize = 0;
    while i < dir.dirs.len()
        invariant
            ds == dir.dirs@,
            i <= ds.len(),
            totals_view(acc) == dirs_totals(ds, i as nat),
        decreases dir.dirs.len() - i,
    {
        proof {
            lemma_dirs_prefix(ds, (i + 1) as nat, ds.len());
        }
        match dir_count(&dir.dirs[i]) {
            None => {
                return None;
            },
            Some(sub) => {
                match add_totals(&acc, &sub) {
                    None => {
                        return None;
                    },
                    Some(t) => {
                        acc = t;
                    },
                }
            },
        }
        i = i + 1;
    }
    let mut own = RunTotals { suspicious_count: 0, suspicious_bytes: 0, track_count: 0, track_bytes: 0 };
    let mut j: usize = 0;
    assert(fs.take(0) =~= Seq::<FileEntry>::empty());
    while j < dir.files.len()
        invariant
            fs == dir.files@,
            j <= fs.len(),
            totals_view(own) == files_totals(fs.take(j as int)),
        decreases dir.files.len() - j,
    {
        proof {
            lemma_files_prefix(fs, j + 1);
            assert(fs.take(j + 1).drop_last() =~= fs.take(j as int));
        }
        let one = file_count(&dir.files[j]);
        match add_totals(&own, &one) {
            None => {
                return None;
            },
            Some(t) => {
                own = t;
            },
        }
        j = j + 1;
    }
    assert(fs.take(j as int) =~= fs);
    add_totals(&acc, &own)
}

/// Counts a whole source: `None` when a total does not fit in a `u64`.
pub fn tracks_count(src: &Source) -> (r: Option<RunTotals>)
    ensures
        r is Some <==> fits(source_totals(*src)),
        r matches Some(t) ==> totals_view(t) == source_totals(*src),
{
    match src {
        Source::File(f) => Some(file_count(f)),
        Source::Dir(d) => dir_count(d),
    }
}

/// Tracks under the first subdirectory of `ds` named `n`.
pub open spec fn child_tracks(ds: Seq<DirNode>, n: Seq<char>) -> nat {
    let i = first_named(ds, n);
    if 0 <= i < ds.len() {
        dir_totals(ds[i]).2
    } else {
        0
    }
}

/// Tracks under the subdirectories of `ds` named by `names`, summed.
pub open spec fn named_tracks(ds: Seq<DirNode>, names: Seq<Seq<char>>) -> nat
    decreases names.len(),
{
    if names.len() == 0 {
        0
    } else {
        named_tracks(ds, names.drop_last()) + child_tracks(ds, names.last())
    }
}

proof fn lemma_named_tracks_remove(ds: Seq<DirNode>, names: Seq<Seq<char>>, j: int)
    requires
        0 <= j < names.len(),
    ensures
        named_tracks(ds, names) == named_tracks(ds, names.remove(j)) + child_tracks(ds, names[j]),
    decreases names.len(),
{
    if j < names.len() - 1 {
        lemma_named_tracks_remove(ds, names.drop_last(), j);
        assert(names.remove(j).drop_last() =~= names.drop_last().remove(j));
        assert(names.remove(j).last() == names.last());
    } else {
        assert(names.remove(j) =~= names.drop_last());
    }
}

proof fn lemma_first_named_drop_last(ds: Seq<DirNode>, n: Seq<char>)
    requires
        ds.len() > 0,
    ensures
        0 <= first_named(ds, n) <= ds.len(),
        first_named(ds.drop_last(), n) < ds.len() - 1 ==> first_named(ds, n) == first_named(
            ds.drop_last(),
            n,
        ),
        first_named(ds.drop_last(), n) >= ds.len() - 1 ==> first_named(ds, n) == if ds.last().name@
            == n {
            ds.len() - 1
        } else {
            ds.len() as int
        },
    decreases ds.len(),
{
    lemma_first_named_nonneg(ds, n);
    if ds.len() == 1 {
        assert(ds.skip(1).len() == 0);
        assert(ds.drop_last().len() == 0);
        assert(first_named(ds.drop_last(), n) == 0);
        assert(ds.last() == ds[0]);
        if ds[0].name@ != n {
            assert(first_named(ds.skip(1), n) == 0);
            assert(first_named(ds, n) == 1);
        }
    } else if ds[0].name@ != n {
        lemma_first_named_drop_last(ds.skip(1), n);
        assert(ds.skip(1).drop_last() =~= ds.drop_last().skip(1));
        assert(ds.skip(1).last() == ds.last());
        assert(ds.drop_last()[0] == ds[0]);
    } else {
        assert(ds.drop_last()[0] == ds[0]);
    }
}

proof fn lemma_named_tracks_drop(ds: Seq<DirNode>, names: Seq<Seq<char>>)
    requires
        ds.len() > 0,
        !names.contains(ds.last().name@),
    ensures
        named_tracks(ds, names) == named_tracks(ds.drop_last(), names),
    decreases names.len(),
{
    if names.len() > 0 {
        assert(!names.drop_last().contains(ds.last().name@)) by {
            if names.drop_last().contains(ds.last().name@) {
                let k = choose|k: int|
                    0 <= k < names.drop_last().len() && names.drop_last()[k] == ds.last().name@;
                assert(names[k] == ds.last().name@);
            }
        }
        lemma_named_tracks_drop(ds, names.drop_last());
        let n = names.last();
        assert(n != ds.last().name@) by {
            assert(names[names.len() - 1] == n);
        }
        lemma_first_named_drop_last(ds, n);
        let i = first_named(ds.drop_last(), n);
        if 0 <= i < ds.len() - 1 {
            assert(ds.drop_last()[i] == ds[i]);
        }
    }
}

proof fn lemma_dirs_totals_drop_last(ds: Seq<DirNode>, k: nat)
    requires
        k < ds.len(),
    ensures
        dirs_totals(ds, k) == dirs_totals(ds.drop_last(), k),
    decreases k,
{
    if k > 0 {
        lemma_dirs_totals_drop_last(ds, (k - 1) as nat);
    }
}

proof fn lemma_names_drop_last(ds: Seq<DirNode>)
    requires
        ds.len() > 0,
    ensures
        dir_names(ds) == dir_names(ds.drop_last()).push(ds.last().name@),
{
    assert(dir_names(ds) =~= dir_names(ds.drop_last()).push(ds.last().name@));
}

/// Lemma: summed over any arrangement of the subdirectories' distinct names, the
/// tracks are those of all the subdirectories.
proof fn lemma_named_tracks_perm(ds: Seq<DirNode>, names: Seq<Seq<char>>)
    requires
        dir_names(ds).no_duplicates(),
        names.to_multiset() == dir_names(ds).to_multiset(),
    ensures
        named_tracks(ds, names) == dirs_totals(ds, ds.len()).2,
    decreases ds.len(),
{
    broadcast use vstd::seq_lib::group_to_multiset_ensures;

    if ds.len() == 0 {
        assert(names.len() == 0) by {
            assert(names.to_multiset().len() == 0);
        }
    } else {
        let rest = ds.drop_last();
        let n = ds.last().name@;
        lemma_names_drop_last(ds);
        assert(dir_names(ds).to_multiset().count(n) > 0);
        assert(names.contains(n));
        let j = choose|j: int| 0 <= j < names.len() && names[j] == n;
        let others = names.remove(j);
        assert(others.to_multiset() == names.to_multiset().remove(n));
        assert(dir_names(ds).to_multiset() == dir_names(rest).to_multiset().insert(n));
        assert(others.to_multiset() =~= dir_names(rest).to_multiset());
        assert(!dir_names(rest).contains(n)) by {
            if dir_names(rest).contains(n) {
                let k = choose|k: int| 0 <= k < dir_names(rest).len() && dir_names(rest)[k] == n;
                assert(dir_names(ds)[k] == n);
                assert(dir_names(ds)[ds.len() - 1] == n);
            }
        }
        assert(dir_names(rest).no_duplicates()) by {
            assert forall|a: int, b: int|
                0 <= a < dir_names(rest).len() && 0 <= b < dir_names(rest).len() && a != b implies
                dir_names(rest)[a] != dir_names(rest)[b] by {
                assert(dir_names(rest)[a] == dir_names(ds)[a]);
                assert(dir_names(rest)[b] == dir_names(ds)[b]);
            }
        }
        assert(!others.contains(n)) by {
            if others.contains(n) {
                assert(others.to_multiset().count(n) > 0);
                assert(dir_names(rest).to_multiset().count(n) > 0);
            }
        }
        lemma_named_tracks_perm(rest, others);
        lemma_named_tracks_remove(ds, names, j);
        lemma_named_tracks_drop(ds, others);
        lemma_first_named_drop_last(ds, n);
        assert(first_named(rest, n) >= rest.len()) by {
            if first_named(rest, n) < rest.len() {
                lemma_first_named_found(rest, n);
                assert(dir_names(rest)[first_named(rest, n)] == n);
            }
        }
        lemma_dirs_totals_drop_last(ds, (ds.len() - 1) as nat);
    }
}

proof fn lemma_first_named_found(ds: Seq<DirNode>, n: Seq<char>)
    requires
        0 <= first_named(ds, n) < ds.len(),
    ensures
        ds[first_named(ds, n)].name@ == n,
    decreases ds.len(),
{
    if ds.len() > 0 && ds[0].name@ != n {
        lemma_first_named_nonneg(ds.skip(1), n);
        lemma_first_named_found(ds.skip(1), n);
    }
}

proof fn lemma_first_named_nonneg(ds: Seq<DirNode>, n: Seq<char>)
    ensures
        0 <= first_named(ds, n) <= ds.len(),
    decreases ds.len(),
{
    if ds.len() > 0 {
        lemma_first_named_nonneg(ds.skip(1), n);
    }
}

proof fn lemma_audio_names_len(fs: Seq<FileEntry>)
    ensures
        audio_names(fs).len() == files_totals(fs).2,
    decreases fs.len(),
{
    if fs.len() > 0 {
        lemma_audio_names_len(fs.drop_last());
    }
}

proof fn lemma_lex_reflexive(a: Seq<char>)
    ensures
        lex_le(a, a),
    decreases a.len(),
{
    if a.len() > 0 {
        lemma_lex_reflexive(a.skip(1));
    }
}

proof fn lemma_lex_antisymmetric(a: Seq<char>, b: Seq<char>)
    requires
        lex_le(a, b),
        lex_le(b, a),
    ensures
        a == b,
    decreases a.len(),
{
    if a.len() > 0 && b.len() > 0 {
        assert(a[0] == b[0]);
        lemma_lex_antisymmetric(a.skip(1), b.skip(1));
        assert(a =~= seq![a[0]] + a.skip(1));
        assert(b =~= seq![b[0]] + b.skip(1));
    } else {
        assert(a =~= b);
    }
}

proof fn lemma_lex_transitive(a: Seq<char>, b: Seq<char>, c: Seq<char>)
    requires
        lex_le(a, b),
        lex_le(b, c),
    ensures
        lex_le(a, c),
    decreases a.len(),
{
    if a.len() > 0 && b.len() > 0 && c.len() > 0 && a[0] == b[0] && b[0] == c[0] {
        lemma_lex_transitive(a.skip(1), b.skip(1), c.skip(1));
    }
}

proof fn lemma_lex_connected(a: Seq<char>, b: Seq<char>)
    ensures
        lex_le(a, b) || lex_le(b, a),
    decreases a.len(),
{
    if a.len() > 0 && b.len() > 0 {
        if a[0] == b[0] {
            lemma_lex_connected(a.skip(1), b.skip(1));
        }
    }
}

/// Lemma: code point order is a total order.
pub proof fn lemma_lex_total()
    ensures
        vstd::relations::total_ordering(|a: Seq<char>, b: Seq<char>| lex_le(a, b)),
{
    let le = |a: Seq<char>, b: Seq<char>| lex_le(a, b);
    assert forall|a: Seq<char>| #[trigger] le(a, a) by {
        lemma_lex_reflexive(a);
    }
    assert forall|a: Seq<char>, b: Seq<char>| #[trigger] le(a, b) && #[trigger] le(b, a) implies a
        == b by {
        lemma_lex_antisymmetric(a, b);
    }
    assert forall|a: Seq<char>, b: Seq<char>, c: Seq<char>| #[trigger] le(a, b) && #[trigger] le(
        b,
        c,
    ) implies le(a, c) by {
        lemma_lex_transitive(a, b, c);
    }
    assert forall|a: Seq<char>, b: Seq<char>| #[trigger] le(a, b) || #[trigger] le(b, a) by {
        lemma_lex_connected(a, b);
    }
}

/// Lemma: two sequences sorted by one total order that hold the same elements
/// are equal.
proof fn lemma_sorted_unique<A>(a: Seq<A>, b: Seq<A>, le: spec_fn(A, A) -> bool)
    requires
        vstd::relations::total_ordering(le),
        vstd::relations::sorted_by(a, le),
        vstd::relations::sorted_by(b, le),
        a.to_multiset() == b.to_multiset(),
    ensures
        a == b,
    decreases a.len(),
{
    broadcast use vstd::seq_lib::group_to_multiset_ensures;

    assert(a.len() == b.len()) by {
        vstd::seq_lib::to_multiset_len(a);
        vstd::seq_lib::to_multiset_len(b);
    }
    if a.len() > 0 {
        assert(b.contains(a[0])) by {
            assert(a.to_multiset().count(a[0]) > 0);
        }
        assert(a.contains(b[0])) by {
            assert(b.to_multiset().count(b[0]) > 0);
        }
        let j = choose|j: int| 0 <= j < b.len() && b[j] == a[0];
        let k = choose|k: int| 0 <= k < a.len() && a[k] == b[0];
        if j > 0 {
            assert(le(b[0], b[j]));
        } else {
            assert(le(b[0], b[0]));
        }
        if k > 0 {
            assert(le(a[0], a[k]));
        } else {
            assert(le(a[0], a[0]));
        }
        assert(a[0] == b[0]);
        let a1 = a.skip(1);
        let b1 = b.skip(1);
        assert(a =~= seq![a[0]] + a1);
        assert(b =~= seq![b[0]] + b1);
        assert(a1.to_multiset() =~= a.to_multiset().remove(a[0])) by {
            assert(a.remove(0) =~= a1);
        }
        assert(b1.to_multiset() =~= b.to_multiset().remove(b[0])) by {
            assert(b.remove(0) =~= b1);
        }
        assert forall|x: int, y: int| 0 <= x < y < a1.len() implies #[trigger] le(a1[x], a1[y]) by {
            assert(le(a[x + 1], a[y + 1]));
        }
        assert forall|x: int, y: int| 0 <= x < y < b1.len() implies #[trigger] le(b1[x], b1[y]) by {
            assert(le(b[x + 1], b[y + 1]));
        }
        lemma_sorted_unique(a1, b1, le);
    } else {
        assert(a =~= b);
    }
}

/// Lemma: names holding the same elements are put in the same code point order.
pub proof fn lemma_lex_sorted_same(p: Seq<Seq<char>>, q: Seq<Seq<char>>)
    requires
        p.to_multiset() == q.to_multiset(),
    ensures
        lex_sorted(p) == lex_sorted(q),
{
    let le = |a: Seq<char>, b: Seq<char>| lex_le(a, b);
    lemma_lex_total();
    p.lemma_sort_by_ensures(le);
    q.lemma_sort_by_ensures(le);
    lemma_sorted_unique(lex_sorted(p), lex_sorted(q), le);
}

/// `d1` and `d2` list the same audio files and the same subdirectories, with
/// the same contents, each directory perhaps in another order: what two
/// listings of an unchanged tree may differ in.
pub open spec fn same_listing(d1: DirNode, d2: DirNode) -> bool
    decreases d1,
{
    &&& audio_names(d1.files@).to_multiset() == audio_names(d2.files@).to_multiset()
    &&& dir_names(d1.dirs@).to_multiset() == dir_names(d2.dirs@).to_multiset()
    &&& forall|i: int|
        0 <= i < d1.dirs@.len() ==> same_listing(
            #[trigger] d1.dirs@[i],
            d2.dirs@[first_named(d2.dirs@, d1.dirs@[i].name@)],
        )
}

pub open spec fn same_source_listing(s1: Source, s2: Source) -> bool {
    match (s1, s2) {
        (Source::File(f1), Source::File(f2)) => f1.name@ == f2.name@ && f1.class == f2.class,
        (Source::Dir(d1), Source::Dir(d2)) => same_listing(d1, d2),
        _ => false,
    }
}

proof fn lemma_first_named_contains(ds: Seq<DirNode>, n: Seq<char>)
    ensures
        first_named(ds, n) < ds.len() <==> dir_names(ds).contains(n),
    decreases ds.len(),
{
    lemma_first_named_nonneg(ds, n);
    if first_named(ds, n) < ds.len() {
        lemma_first_named_found(ds, n);
        assert(dir_names(ds)[first_named(ds, n)] == n);
    } else if dir_names(ds).contains(n) {
        let k = choose|k: int| 0 <= k < dir_names(ds).len() && dir_names(ds)[k] == n;
        lemma_first_named_skip_to(ds, n, k);
    }
}

proof fn lemma_first_named_skip_to(ds: Seq<DirNode>, n: Seq<char>, k: int)
    requires
        0 <= k < ds.len(),
        ds[k].name@ == n,
    ensures
        first_named(ds, n) <= k,
    decreases k,
{
    if k > 0 && ds[0].name@ != n {
        lemma_first_named_skip_to(ds.skip(1), n, k - 1);
    }
}

proof fn lemma_ordered_same(p: Seq<Seq<char>>, q: Seq<Seq<char>>, sort: SortMode, direction: Direction)
    requires
        p.to_multiset() == q.to_multiset(),
    ensures
        ordered(p, sort, direction) == ordered(q, sort, direction),
{
    lemma_lex_sorted_same(p, q);
}

proof fn lemma_walk_named_listing(
    ds1: Seq<DirNode>,
    ds2: Seq<DirNode>,
    names: Seq<Seq<char>>,
    step: Seq<Seq<char>>,
    sort: SortMode,
    direction: Direction,
)
    requires
        dir_names(ds1).to_multiset() == dir_names(ds2).to_multiset(),
        forall|i: int|
            0 <= i < ds1.len() ==> same_listing(
                #[trigger] ds1[i],
                ds2[first_named(ds2, ds1[i].name@)],
            ),
    ensures
        walk_named(ds1, names, step, sort, direction) == walk_named(ds2, names, step, sort, direction),
    decreases ds1, names.len(),
{
    broadcast use vstd::seq_lib::group_to_multiset_ensures;

    if names.len() > 0 {
        let n = names[0];
        lemma_walk_named_listing(ds1, ds2, names.skip(1), step, sort, direction);
        lemma_first_named_contains(ds1, n);
        lemma_first_named_contains(ds2, n);
        lemma_first_named_nonneg(ds1, n);
        lemma_first_named_nonneg(ds2, n);
        assert(dir_names(ds1).contains(n) <==> dir_names(ds2).contains(n)) by {
            vstd::seq_lib::to_multiset_contains(dir_names(ds1), n);
            vstd::seq_lib::to_multiset_contains(dir_names(ds2), n);
        }
        let i1 = first_named(ds1, n);
        let i2 = first_named(ds2, n);
        if i1 < ds1.len() {
            lemma_first_named_found(ds1, n);
            assert(same_listing(ds1[i1], ds2[i2]));
            lemma_walk_listing(ds1[i1], ds2[i2], step.push(n), sort, direction);
            assert(walk_child(ds1, n, step, sort, direction) == walk_child(ds2, n, step, sort, direction));
        } else {
            assert(i2 >= ds2.len());
            assert(walk_child(ds1, n, step, sort, direction) == walk_child(ds2, n, step, sort, direction));
        }
    } else {
        assert(walk_named(ds1, names, step, sort, direction) =~= walk_named(ds2, names, step, sort, direction));
    }
}

/// Lemma: trees listed alike are walked alike.
proof fn lemma_walk_listing(
    d1: DirNode,
    d2: DirNode,
    step: Seq<Seq<char>>,
    sort: SortMode,
    direction: Direction,
)
    requires
        same_listing(d1, d2),
    ensures
        walk_dir(d1, step, sort, direction) == walk_dir(d2, step, sort, direction),
    decreases d1, 0nat,
{
    lemma_ordered_same(audio_names(d1.files@), audio_names(d2.files@), sort, direction);
    lemma_ordered_same(dir_names(d1.dirs@), dir_names(d2.dirs@), sort, direction);
    lemma_walk_named_listing(
        d1.dirs@,
        d2.dirs@,
        ordered(dir_names(d1.dirs@), sort, direction),
        step,
        sort,
        direction,
    );
}

/// For a fixed sort mode and direction, the walk is a function of what the tree
/// holds: two listings of an unchanged tree, whatever order the file system
/// gave their entries in, are walked into the same sequence.
pub proof fn lemma_walk_deterministic(s1: Source, s2: Source, sort: SortMode, direction: Direction)
    requires
        same_source_listing(s1, s2),
    ensures
        walk_source(s1, sort, direction) == walk_source(s2, sort, direction),
{
    match (s1, s2) {
        (Source::Dir(d1), Source::Dir(d2)) => {
            lemma_walk_listing(d1, d2, Seq::empty(), sort, direction);
        },
        _ => {},
    }
}

} // verus!
