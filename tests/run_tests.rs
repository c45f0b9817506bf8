use procrustes::naming::Options;
use procrustes::run::{
    count_report, creates_step_dirs, dst_create, dst_inside_src, src_check, track_destination, track_line,
    DstAction, SrcVerdict,
};
use procrustes::tree::{Direction, SortMode, WalkItem};

fn options() -> Options {
    Options {
        verbose: true,
        drop_tracknumber: false,
        strip_decorations: false,
        file_title: false,
        file_title_num: false,
        sort: SortMode::Natural,
        tree_dst: false,
        drop_dst: false,
        direction: Direction::Forward,
        prepend_subdir_name: false,
        count_only: false,
        overwrite: false,
        dry_run: false,
        unified_name: None,
        album_num: None,
        artist: None,
        album: None,
    }
}

fn parts(v: &[&str]) -> Vec<String> {
    v.iter().map(|s| s.to_string()).collect()
}

#[test]
fn nested_destination_is_detected() {
    let src = parts(&["/", "music", "album"]);
    assert!(dst_inside_src(&parts(&["/", "music", "album", "copy"]), &src));
    assert!(dst_inside_src(&src, &src));
    assert!(!dst_inside_src(&parts(&["/", "music", "album2"]), &src));
    assert!(!dst_inside_src(&parts(&["/", "music"]), &src));
}

#[test]
fn source_check_verdicts() {
    let mut o = options();
    assert_eq!(src_check(&o, true, true), SrcVerdict::Abort);
    assert_eq!(src_check(&o, false, true), SrcVerdict::Go);
    assert_eq!(src_check(&o, true, false), SrcVerdict::Go);
    o.dry_run = true;
    assert_eq!(src_check(&o, true, true), SrcVerdict::GoLogged);
    o.dry_run = false;
    o.count_only = true;
    assert_eq!(src_check(&o, true, true), SrcVerdict::Go);
}

#[test]
fn destination_directory_actions() {
    let mut o = options();
    assert_eq!(dst_create(&o, false), DstAction::Create);
    assert_eq!(dst_create(&o, true), DstAction::Refuse);
    o.overwrite = true;
    assert_eq!(dst_create(&o, true), DstAction::Replace);
    o.dry_run = true;
    assert_eq!(dst_create(&o, true), DstAction::UseAsIs);
    o.dry_run = false;
    o.drop_dst = true;
    assert_eq!(dst_create(&o, false), DstAction::UseAsIs);
}

#[test]
fn track_paths() {
    let item = WalkItem { step: parts(&["CD1", "Bonus"]), name: "01 - x.ogg".to_string() };
    let mut o = options();
    assert_eq!(track_destination(4, &item, 2, &o), parts(&["04-01 - x.ogg"]));
    assert!(!creates_step_dirs(&o));
    o.tree_dst = true;
    assert_eq!(track_destination(4, &item, 2, &o), parts(&["CD1", "Bonus", "04-01 - x.ogg"]));
    assert!(creates_step_dirs(&o));
    o.dry_run = true;
    assert!(!creates_step_dirs(&o));
}

#[test]
fn verbose_lines() {
    assert_eq!(track_line(7, 3, 120, "d/x.ogg", 100, 100), "  7/120 \u{2714} d/x.ogg");
    assert_eq!(
        track_line(7, 3, 120, "d/x.ogg", 0, 1800),
        "  7/120 \u{2714} d/x.ogg  \u{2714} 2kB"
    );
    assert_eq!(
        track_line(12, 2, 12, "x.ogg", 105, 100),
        "12/12 \u{2714} x.ogg  \u{2714} +5"
    );
    assert_eq!(track_line(1, 1, 3, "x.ogg", 95, 100), "1/3 \u{2714} x.ogg  \u{2714} -5");
}

#[test]
fn count_reports() {
    assert_eq!(count_report(0, 0), " \u{1f4a7} Valid: 0 file(s); Volume: 0");
    assert_eq!(count_report(1, 1800), " \u{1f7e2} Valid: 1 file(s); Volume: 2kB");
    assert_eq!(
        count_report(2, 3 * 1024 * 1024),
        " \u{1f7e2} Valid: 2 file(s); Volume: 3.0MB; Average: 1.5MB"
    );
}
