use procrustes::classify::{classify, is_pattern_ok, needs_probe, Filter, FilterError};
use procrustes::naming::{
    album_plan, artist_part, dst_calculate, track_decorate, track_width, Options, PlanError,
};
use procrustes::spinner::{shrink_pretty_text, DummySpinner, Shrinker, Spinner};
use procrustes::tagging::tag_plan;
use procrustes::tree::{
    dir_groom, dir_walk, source_walk, tracks_count, Class, DirNode, Direction, FileEntry, SortMode,
    Source, WalkItem,
};

fn audio(name: &str, size: u64) -> FileEntry {
    FileEntry { name: name.to_string(), size, class: Class::Audio }
}

fn dir(name: &str, dirs: Vec<DirNode>, files: Vec<FileEntry>) -> DirNode {
    DirNode { name: name.to_string(), dirs, files }
}

fn album() -> DirNode {
    dir(
        "Album",
        vec![dir("Disc2", vec![], vec![audio("01 - c.ogg", 30)])],
        vec![audio("01 - a.ogg", 10), audio("02 - b.ogg", 20)],
    )
}

fn options() -> Options {
    Options {
        verbose: false,
        drop_tracknumber: false,
        strip_decorations: false,
        file_title: false,
        file_title_num: false,
        sort: SortMode::Natural,
        tree_dst: false,
        drop_dst: false,
        direction: Direction::Forward,
        prepend_subdir_name: false,
        count_only: false,
        overwrite: false,
        dry_run: false,
        unified_name: None,
        album_num: None,
        artist: None,
        album: None,
    }
}

fn paths(items: &[WalkItem]) -> Vec<String> {
    items
        .iter()
        .map(|w| {
            let mut p = w.step.clone();
            p.push(w.name.clone());
            p.join("/")
        })
        .collect()
}

#[test]
fn natural_and_lexicographic_scan() {
    let d = dir(
        "a",
        vec![],
        vec![audio("track2.ogg", 1), audio("track10.ogg", 1), audio("track1.ogg", 1)],
    );
    let (_, nat) = dir_groom(&d, SortMode::Natural, Direction::Forward);
    assert_eq!(nat, vec!["track1.ogg", "track2.ogg", "track10.ogg"]);
    let (_, lex) = dir_groom(&d, SortMode::Lexicographic, Direction::Forward);
    assert_eq!(lex, vec!["track1.ogg", "track10.ogg", "track2.ogg"]);
    let (_, rev) = dir_groom(&d, SortMode::Natural, Direction::Reverse);
    assert_eq!(rev, vec!["track10.ogg", "track2.ogg", "track1.ogg"]);
}

#[test]
fn scan_keeps_only_audio_files() {
    let d = dir(
        "a",
        vec![dir("z", vec![], vec![]), dir("b", vec![], vec![])],
        vec![
            audio("x.ogg", 1),
            FileEntry { name: "y.mp3".to_string(), size: 1, class: Class::Suspicious },
            FileEntry { name: "cover.jpg".to_string(), size: 1, class: Class::Ignored },
        ],
    );
    let (dirs, files) = dir_groom(&d, SortMode::Natural, Direction::Forward);
    assert_eq!(dirs, vec!["b", "z"]);
    assert_eq!(files, vec!["x.ogg"]);
}

#[test]
fn forward_walk_puts_subdirectories_first() {
    let items = dir_walk(&album(), &vec![], SortMode::Natural, Direction::Forward);
    assert_eq!(paths(&items), vec!["Disc2/01 - c.ogg", "01 - a.ogg", "02 - b.ogg"]);
    assert_eq!(items[0].step, vec!["Disc2".to_string()]);
    assert!(items[1].step.is_empty());
}

#[test]
fn reverse_walk_is_forward_backwards() {
    let tree = dir(
        "root",
        vec![
            dir("cd1", vec![dir("bonus", vec![], vec![audio("b1.ogg", 1)])], vec![
                audio("t1.ogg", 1),
                audio("t2.ogg", 1),
            ]),
            dir("cd2", vec![], vec![audio("t1.ogg", 1)]),
        ],
        vec![audio("intro.ogg", 1)],
    );
    let fwd = paths(&source_walk(&Source::Dir(tree), SortMode::Natural, Direction::Forward));
    let tree = dir(
        "root",
        vec![
            dir("cd1", vec![dir("bonus", vec![], vec![audio("b1.ogg", 1)])], vec![
                audio("t1.ogg", 1),
                audio("t2.ogg", 1),
            ]),
            dir("cd2", vec![], vec![audio("t1.ogg", 1)]),
        ],
        vec![audio("intro.ogg", 1)],
    );
    let rev = paths(&source_walk(&Source::Dir(tree), SortMode::Natural, Direction::Reverse));
    let mut back = fwd.clone();
    back.reverse();
    assert_eq!(rev, back);
    assert_eq!(
        fwd,
        vec!["cd1/bonus/b1.ogg", "cd1/t1.ogg", "cd1/t2.ogg", "cd2/t1.ogg", "intro.ogg"]
    );
}

#[test]
fn walk_is_repeatable() {
    let a = paths(&dir_walk(&album(), &vec![], SortMode::Lexicographic, Direction::Reverse));
    let b = paths(&dir_walk(&album(), &vec![], SortMode::Lexicographic, Direction::Reverse));
    assert_eq!(a, b);
}

#[test]
fn count_agrees_with_walk() {
    let tree = dir(
        "root",
        vec![
            dir("a", vec![dir("deep", vec![], vec![audio("1.mp3", 5)])], vec![]),
            dir("b", vec![], vec![
                audio("x.flac", 7),
                FileEntry { name: "bad.ogg".to_string(), size: 3, class: Class::Suspicious },
            ]),
        ],
        vec![audio("top.ogg", 11), FileEntry { name: "n.txt".to_string(), size: 2, class: Class::Ignored }],
    );
    let t = tracks_count(&Source::Dir(tree)).unwrap();
    assert_eq!(t.track_count, 3);
    assert_eq!(t.track_bytes, 23);
    assert_eq!(t.suspicious_count, 1);
    assert_eq!(t.suspicious_bytes, 3);
    let tree = dir(
        "root",
        vec![
            dir("a", vec![dir("deep", vec![], vec![audio("1.mp3", 5)])], vec![]),
            dir("b", vec![], vec![audio("x.flac", 7)]),
        ],
        vec![audio("top.ogg", 11)],
    );
    let n = source_walk(&Source::Dir(tree), SortMode::Natural, Direction::Forward).len();
    assert_eq!(n as u64, t.track_count);
}

#[test]
fn count_overflow_is_refused() {
    let tree = dir("root", vec![], vec![audio("a.ogg", u64::MAX), audio("b.ogg", 1)]);
    assert!(tracks_count(&Source::Dir(tree)).is_none());
}

#[test]
fn single_file_source() {
    let src = Source::File(audio("song.ogg", 9));
    let items = source_walk(&src, SortMode::Natural, Direction::Forward);
    assert_eq!(paths(&items), vec!["song.ogg"]);
    let t = tracks_count(&src).unwrap();
    assert_eq!((t.track_count, t.track_bytes), (1, 9));
    let bad = Source::File(FileEntry { name: "song.ogg".to_string(), size: 4, class: Class::Suspicious });
    assert!(source_walk(&bad, SortMode::Natural, Direction::Forward).is_empty());
    let t = tracks_count(&bad).unwrap();
    assert_eq!((t.suspicious_count, t.suspicious_bytes, t.track_count), (1, 4, 0));
}

fn decorated_names(direction: Direction) -> Vec<(u64, String)> {
    let mut o = options();
    o.direction = direction;
    let src = Source::Dir(album());
    let total = tracks_count(&src).unwrap().track_count;
    let width = track_width(total);
    let items = source_walk(&src, o.sort, o.direction);
    let plan = album_plan(items, total, o.direction).unwrap();
    plan.iter()
        .map(|t| (t.serial, track_decorate(t.serial, &t.item.name, &t.item.step, width, &o)))
        .collect()
}

#[test]
fn end_to_end_forward_flat() {
    assert_eq!(
        decorated_names(Direction::Forward),
        vec![
            (1, "1-01 - c.ogg".to_string()),
            (2, "2-01 - a.ogg".to_string()),
            (3, "3-02 - b.ogg".to_string()),
        ]
    );
    let o = options();
    let tags: Vec<Option<u32>> = (1..=3).map(|i| tag_plan(i, "01 - a.ogg", &o).track).collect();
    assert_eq!(tags, vec![Some(1), Some(2), Some(3)]);
}

#[test]
fn end_to_end_reverse_keeps_serials() {
    let rev = decorated_names(Direction::Reverse);
    assert_eq!(
        rev,
        vec![
            (3, "3-02 - b.ogg".to_string()),
            (2, "2-01 - a.ogg".to_string()),
            (1, "1-01 - c.ogg".to_string()),
        ]
    );
    let mut fwd = decorated_names(Direction::Forward);
    fwd.reverse();
    assert_eq!(rev, fwd);
}

#[test]
fn decorate_zero_pads() {
    let o = options();
    assert_eq!(track_width(739), 3);
    assert_eq!(track_width(9), 1);
    assert_eq!(track_width(10), 2);
    assert_eq!(track_decorate(1, "x.ogg", &vec![], 3, &o), "001-x.ogg");
    assert_eq!(track_decorate(42, "x.ogg", &vec![], 3, &o), "042-x.ogg");
    assert_eq!(track_decorate(1234, "x.ogg", &vec![], 3, &o), "1234-x.ogg");
}

#[test]
fn decorate_modes() {
    let step = vec!["CD1".to_string(), "Bonus".to_string()];
    let mut o = options();
    o.prepend_subdir_name = true;
    assert_eq!(track_decorate(7, "x.ogg", &step, 2, &o), "07-[CD1\u{1f538}Bonus]-x.ogg");
    assert_eq!(track_decorate(7, "x.ogg", &vec![], 2, &o), "07-x.ogg");
    o.tree_dst = true;
    assert_eq!(track_decorate(7, "x.ogg", &step, 2, &o), "07-x.ogg");
    o.strip_decorations = true;
    assert_eq!(track_decorate(7, "x.ogg", &step, 2, &o), "x.ogg");
    let mut u = options();
    u.unified_name = Some("Ada".to_string());
    assert_eq!(track_decorate(3, "ch.3.mp3", &vec![], 2, &u), "03-Ada.mp3");
    u.artist = Some("Vladimir Nabokov".to_string());
    assert_eq!(track_decorate(3, "ch.3.mp3", &vec![], 2, &u), "03-Ada - Vladimir Nabokov.mp3");
}

#[test]
fn plan_refusals() {
    let items = dir_walk(&album(), &vec![], SortMode::Natural, Direction::Forward);
    assert!(matches!(album_plan(items, 0, Direction::Forward), Err(PlanError::NoTracks)));
    let items = dir_walk(&album(), &vec![], SortMode::Natural, Direction::Forward);
    assert!(matches!(album_plan(items, 4, Direction::Forward), Err(PlanError::CountMismatch)));
    let plan = album_plan(vec![], 0, Direction::Reverse);
    assert!(matches!(plan, Err(PlanError::NoTracks)));
}

#[test]
fn artist_and_destination_names() {
    let mut o = options();
    assert_eq!(artist_part(&o, true), "");
    o.artist = Some("Daniel Defoe".to_string());
    assert_eq!(artist_part(&o, true), " - Daniel Defoe");
    assert_eq!(artist_part(&o, false), "Daniel Defoe - ");
    assert_eq!(dst_calculate(&o, "robinson-crusoe", false), Some("robinson-crusoe".to_string()));
    assert_eq!(dst_calculate(&o, "ada.ogg", true), Some("ada".to_string()));
    o.album_num = Some(7);
    o.unified_name = Some("Robinson Crusoe".to_string());
    assert_eq!(
        dst_calculate(&o, "robinson-crusoe", false),
        Some("07-Daniel Defoe - Robinson Crusoe".to_string())
    );
    o.drop_dst = true;
    assert_eq!(dst_calculate(&o, "robinson-crusoe", false), None);
}

#[test]
fn tag_titles() {
    let mut o = options();
    let plain = tag_plan(5, "05 - song.ogg", &o);
    assert_eq!(plain.track, Some(5));
    assert_eq!(plain.title, None);
    assert_eq!(plain.artist, None);
    assert_eq!(plain.album, None);
    o.artist = Some("Daniel \"Goldeneye\" Defoe".to_string());
    o.album = Some("Robinson Crusoe".to_string());
    let t = tag_plan(5, "05 - song.ogg", &o);
    assert_eq!(t.title, Some("5 D.D. - Robinson Crusoe".to_string()));
    assert_eq!(t.artist, Some("Daniel \"Goldeneye\" Defoe".to_string()));
    assert_eq!(t.album, Some("Robinson Crusoe".to_string()));
    o.file_title = true;
    assert_eq!(tag_plan(5, "05 - song.ogg", &o).title, Some("05 - song".to_string()));
    o.file_title_num = true;
    assert_eq!(tag_plan(5, "05 - song.ogg", &o).title, Some("5>05 - song".to_string()));
    o.drop_tracknumber = true;
    assert_eq!(tag_plan(5, "05 - song.ogg", &o).track, None);
    let mut u = options();
    u.unified_name = Some("Ada".to_string());
    let t = tag_plan(2, "a.ogg", &u);
    assert_eq!(t.album, Some("Ada".to_string()));
    assert_eq!(t.title, Some("2 Ada".to_string()));
}

#[test]
fn filters_and_classes() {
    let any = Filter::from_arg(None).unwrap();
    assert!(is_pattern_ok(&any, "x.txt"));
    assert_eq!(classify(&any, "x.txt", true), Class::Ignored);
    assert_eq!(classify(&any, "x.ogg", true), Class::Audio);
    assert_eq!(classify(&any, "x.ogg", false), Class::Suspicious);
    let ext = Filter::from_arg(Some("ogg".to_string())).unwrap();
    assert!(!needs_probe(&ext, "x.mp3"));
    assert!(needs_probe(&ext, "x.OGG"));
    assert_eq!(classify(&ext, "x.mp3", true), Class::Ignored);
    let glob = Filter::from_arg(Some("*kb.mp3".to_string())).unwrap();
    assert!(is_pattern_ok(&glob, "song 128kb.mp3"));
    assert!(!is_pattern_ok(&glob, "song.mp3"));
    assert_eq!(classify(&glob, "song 128kb.mp3", true), Class::Audio);
    assert!(matches!(Filter::from_arg(Some("[a".to_string())), Err(FilterError::BadPattern)));
}

#[test]
fn progress_lines() {
    let s = "The quick brown fox jumps over the lazy dog! The quick brown fox jumps over the lazy dog!";
    assert_eq!(s.to_string().shrink_pretty(), shrink_pretty_text(s));
    assert_eq!(shrink_pretty_text("short"), "short\u{1f539}");
    let mut d = DummySpinner::new();
    d.message("x".to_string());
    assert_eq!(d.adieu("DummySpinner"), "\u{1f539}DummySpinner::spinner is already None.\u{1f539}");
    d.stop();
}

#[test]
fn listing_order_does_not_matter() {
    let a = dir(
        "root",
        vec![dir("b", vec![], vec![audio("2.ogg", 1), audio("10.ogg", 1)]), dir("a", vec![], vec![audio("x.ogg", 1)])],
        vec![audio("track10.ogg", 1), audio("track2.ogg", 1), audio("Track3.ogg", 1)],
    );
    let b = dir(
        "root",
        vec![dir("a", vec![], vec![audio("x.ogg", 1)]), dir("b", vec![], vec![audio("10.ogg", 1), audio("2.ogg", 1)])],
        vec![audio("Track3.ogg", 1), audio("track2.ogg", 1), audio("track10.ogg", 1)],
    );
    for sort in [SortMode::Natural, SortMode::Lexicographic] {
        for direction in [Direction::Forward, Direction::Reverse] {
            assert_eq!(
                paths(&dir_walk(&a, &vec![], sort, direction)),
                paths(&dir_walk(&b, &vec![], sort, direction))
            );
        }
    }
    assert_eq!(
        paths(&dir_walk(&a, &vec![], SortMode::Natural, Direction::Forward)),
        vec!["a/x.ogg", "b/2.ogg", "b/10.ogg", "Track3.ogg", "track2.ogg", "track10.ogg"]
    );
}
