use basic_diff::content::{
    chunk_step, compare_matched_files, has_same_contents, modified_times_match, ChunkVerdict,
    CHUNK_LEN,
};
use basic_diff::entry::{types_match, Entry, EntryKind, Report, Side};
use basic_diff::listing::{build_listing, bytes_eq, remove_system_files, sort_entries};
use basic_diff::order::name_le;
use basic_diff::walk::{diff_listing, differs_report, only_report, Action};

fn entry(name: &str, path: &str, side: Side, kind: EntryKind) -> Entry {
    Entry {
        name: name.as_bytes().to_vec(),
        path: path.as_bytes().to_vec(),
        side,
        kind,
    }
}

fn file_a(name: &str, path: &str) -> Entry {
    entry(name, path, Side::A, EntryKind::File)
}

fn file_b(name: &str, path: &str) -> Entry {
    entry(name, path, Side::B, EntryKind::File)
}

fn is_only_in_a(r: &Report, path: &str) -> bool {
    matches!(r, Report::OnlyInA { path: p } if p == path.as_bytes())
}

fn is_only_in_b(r: &Report, path: &str) -> bool {
    matches!(r, Report::OnlyInB { path: p } if p == path.as_bytes())
}

#[test]
fn only_markers_follow_the_side() {
    let a = file_a("x", "a/x");
    let b = file_b("x", "b/x");
    assert!(is_only_in_a(&only_report(&a), "a/x"));
    assert!(is_only_in_b(&only_report(&b), "b/x"));
}

#[test]
fn lone_entries_reported_once_per_side() {
    // "alpha" exists only under A, "zeta" only under B
    let listing = vec![file_a("alpha", "a/alpha"), file_b("zeta", "b/zeta")];
    let actions = diff_listing(&listing);
    assert_eq!(actions.len(), 2);
    assert!(matches!(&actions[0], Action::Emit { report } if is_only_in_a(report, "a/alpha")));
    assert!(matches!(&actions[1], Action::Emit { report } if is_only_in_b(report, "b/zeta")));
}

#[test]
fn identical_listing_yields_no_reports() {
    let listing = vec![
        entry("docs", "a/docs", Side::A, EntryKind::Directory),
        entry("docs", "b/docs", Side::B, EntryKind::Directory),
        file_a("notes.txt", "a/notes.txt"),
        file_b("notes.txt", "b/notes.txt"),
    ];
    let actions = diff_listing(&listing);
    assert_eq!(actions.len(), 2);
    assert!(
        matches!(&actions[0], Action::Recurse { a_path, b_path }
            if a_path == b"a/docs" && b_path == b"b/docs")
    );
    assert!(
        matches!(&actions[1], Action::CompareFiles { a_path, b_path }
            if a_path == b"a/notes.txt" && b_path == b"b/notes.txt")
    );
    // and equal file contents never produce a report, whatever the timestamps
    let bytes = b"same bytes".to_vec();
    assert!(compare_matched_files(
        &b"a/notes.txt".to_vec(),
        &b"b/notes.txt".to_vec(),
        Some(1),
        Some(2),
        &bytes,
        &bytes,
    )
    .is_none());
}

#[test]
fn content_diff_detected_once() {
    // equal names and sizes, different bytes, different timestamps
    let a_bytes = b"aaaa".to_vec();
    let b_bytes = b"aaab".to_vec();
    let r = compare_matched_files(
        &b"a/f".to_vec(),
        &b"b/f".to_vec(),
        Some(10),
        Some(20),
        &a_bytes,
        &b_bytes,
    );
    match r {
        Some(Report::ContentDiffers { path_b, path_a }) => {
            // the peek (second root's) path comes first in the report
            assert_eq!(path_b, b"b/f".to_vec());
            assert_eq!(path_a, b"a/f".to_vec());
        }
        _ => panic!("expected a content-differs report"),
    }
}

#[test]
fn content_diff_detected_with_missing_timestamps() {
    let r = compare_matched_files(
        &b"a/f".to_vec(),
        &b"b/f".to_vec(),
        None,
        None,
        &b"x".to_vec(),
        &b"y".to_vec(),
    );
    assert!(r.is_some());
}

#[test]
fn equal_timestamps_short_circuit() {
    // identical timestamps: trusted equal without looking at the bytes
    let r = compare_matched_files(
        &b"a/f".to_vec(),
        &b"b/f".to_vec(),
        Some(42),
        Some(42),
        &b"one content".to_vec(),
        &b"another one".to_vec(),
    );
    assert!(r.is_none());
}

#[test]
fn timestamp_match_needs_both_sides() {
    assert!(modified_times_match(Some(7), Some(7)));
    assert!(!modified_times_match(Some(7), Some(8)));
    assert!(!modified_times_match(None, Some(7)));
    assert!(!modified_times_match(Some(7), None));
    assert!(!modified_times_match(None, None));
}

#[test]
fn type_mismatch_gives_two_only_reports() {
    // "x" is a file under A and a directory under B
    let listing = vec![
        entry("x", "a/x", Side::A, EntryKind::File),
        entry("x", "b/x", Side::B, EntryKind::Directory),
    ];
    let actions = diff_listing(&listing);
    assert_eq!(actions.len(), 2);
    assert!(matches!(&actions[0], Action::Emit { report } if is_only_in_a(report, "a/x")));
    assert!(matches!(&actions[1], Action::Emit { report } if is_only_in_b(report, "b/x")));
}

#[test]
fn types_match_is_strict() {
    assert!(types_match(EntryKind::File, EntryKind::File));
    assert!(types_match(EntryKind::Directory, EntryKind::Directory));
    assert!(types_match(EntryKind::Other, EntryKind::Other));
    assert!(!types_match(EntryKind::File, EntryKind::Directory));
    assert!(!types_match(EntryKind::File, EntryKind::Other));
    assert!(!types_match(EntryKind::Directory, EntryKind::Other));
}

#[test]
fn matched_other_kinds_are_silent() {
    let listing = vec![
        entry("sock", "a/sock", Side::A, EntryKind::Other),
        entry("sock", "b/sock", Side::B, EntryKind::Other),
    ];
    assert_eq!(diff_listing(&listing).len(), 0);
}

#[test]
fn nested_difference_surfaces_with_full_path() {
    // level 1: a sibling before "sub" and one after it, plus the matched pair
    let level1 = vec![
        file_a("before", "a/before"),
        entry("sub", "a/sub", Side::A, EntryKind::Directory),
        entry("sub", "b/sub", Side::B, EntryKind::Directory),
        file_b("tail", "b/tail"),
    ];
    let actions1 = diff_listing(&level1);
    assert_eq!(actions1.len(), 3);
    assert!(matches!(&actions1[0], Action::Emit { report } if is_only_in_a(report, "a/before")));
    let (sub_a, sub_b) = match &actions1[1] {
        Action::Recurse { a_path, b_path } => (a_path.clone(), b_path.clone()),
        _ => panic!("expected a recursion into the matched subdirectory"),
    };
    assert!(matches!(&actions1[2], Action::Emit { report } if is_only_in_b(report, "b/tail")));
    assert_eq!(sub_a, b"a/sub".to_vec());

    // level 2: only the next directory pair
    let level2 = vec![
        entry("deeper", "a/sub/deeper", Side::A, EntryKind::Directory),
        entry("deeper", "b/sub/deeper", Side::B, EntryKind::Directory),
    ];
    let actions2 = diff_listing(&level2);
    assert!(matches!(&actions2[..], [Action::Recurse { .. }]));

    // level 3: the differing file, three levels down
    let level3 = vec![
        file_a("leaf", "a/sub/deeper/leaf"),
        file_b("leaf", "b/sub/deeper/leaf"),
    ];
    let actions3 = diff_listing(&level3);
    let (leaf_a, leaf_b) = match &actions3[..] {
        [Action::CompareFiles { a_path, b_path }] => (a_path.clone(), b_path.clone()),
        _ => panic!("expected one file comparison"),
    };
    let r = compare_matched_files(
        &leaf_a,
        &leaf_b,
        None,
        None,
        &b"old".to_vec(),
        &b"new".to_vec(),
    );
    match r {
        Some(Report::ContentDiffers { path_b, path_a }) => {
            assert_eq!(path_b, b"b/sub/deeper/leaf".to_vec());
            assert_eq!(path_a, b"a/sub/deeper/leaf".to_vec());
        }
        _ => panic!("expected the nested difference to be reported"),
    }
    assert_eq!(sub_b, b"b/sub".to_vec());
}

#[test]
fn housekeeping_names_are_filtered() {
    assert!(!remove_system_files(&b".DS_Store".to_vec()));
    assert!(!remove_system_files(&b".Trashes".to_vec()));
    assert!(!remove_system_files(&b".com.apple.timemachine.supported".to_vec()));
    assert!(remove_system_files(&b"notes.txt".to_vec()));
    assert!(remove_system_files(&b".hidden".to_vec()));
    // present on one side only, yet never listed and so never reported
    let listing = build_listing(vec![file_a(".DS_Store", "a/.DS_Store")], vec![]);
    assert_eq!(listing.len(), 0);
    assert_eq!(diff_listing(&listing).len(), 0);
}

#[test]
fn listing_is_sorted_with_first_root_ahead() {
    let listing = build_listing(
        vec![file_a("zzz", "a/zzz"), file_a("common", "a/common")],
        vec![file_b("aaa", "b/aaa"), file_b("common", "b/common")],
    );
    let names: Vec<&[u8]> = listing.iter().map(|e| e.name.as_slice()).collect();
    assert_eq!(names, vec![&b"aaa"[..], b"common", b"common", b"zzz"]);
    assert!(matches!(listing[1].side, Side::A));
    assert!(matches!(listing[2].side, Side::B));
}

#[test]
fn sort_entries_orders_by_byte_value() {
    let sorted = sort_entries(vec![
        file_a("b", "a/b"),
        file_a("B", "a/B"),
        file_a("a", "a/a"),
    ]);
    let names: Vec<&[u8]> = sorted.iter().map(|e| e.name.as_slice()).collect();
    // capital letters order before lower-case ones byte-wise
    assert_eq!(names, vec![&b"B"[..], b"a", b"b"]);
}

#[test]
fn name_order_is_bytewise() {
    assert!(name_le(&b"abc".to_vec(), &b"abd".to_vec()));
    assert!(name_le(&b"ab".to_vec(), &b"abc".to_vec()));
    assert!(!name_le(&b"abd".to_vec(), &b"abc".to_vec()));
    assert!(name_le(&b"".to_vec(), &b"".to_vec()));
    assert!(bytes_eq(&b"abc".to_vec(), &b"abc".to_vec()));
    assert!(!bytes_eq(&b"abc".to_vec(), &b"abd".to_vec()));
}

#[test]
fn chunked_comparison_matches_full_comparison() {
    let sizes = [
        0usize,
        1,
        CHUNK_LEN - 1,
        CHUNK_LEN,
        CHUNK_LEN + 1,
        3 * CHUNK_LEN,
        3 * CHUNK_LEN + 7,
    ];
    for &n in sizes.iter() {
        let base: Vec<u8> = (0..n).map(|i| (i % 251) as u8).collect();
        let same = base.clone();
        assert_eq!(has_same_contents(&base, &same), base == same);
        assert!(has_same_contents(&base, &same));
        if n > 0 {
            let mut flipped = base.clone();
            flipped[n - 1] ^= 1;
            assert_eq!(has_same_contents(&base, &flipped), base == flipped);
            assert!(!has_same_contents(&base, &flipped));
            let mut early = base.clone();
            early[0] ^= 1;
            assert!(!has_same_contents(&base, &early));
        }
        let longer: Vec<u8> = (0..n + 1).map(|i| (i % 251) as u8).collect();
        assert!(!has_same_contents(&base, &longer));
    }
}

#[test]
fn two_empty_files_are_equal() {
    assert!(has_same_contents(&Vec::new(), &Vec::new()));
}

#[test]
fn chunk_steps_decide_streamed_equality() {
    assert!(matches!(chunk_step(b"abc", b"abc"), ChunkVerdict::EqualMore));
    assert!(matches!(chunk_step(b"", b""), ChunkVerdict::EqualEnd));
    assert!(matches!(chunk_step(b"abc", b"abd"), ChunkVerdict::Differ));
    assert!(matches!(chunk_step(b"abc", b"ab"), ChunkVerdict::Differ));
    assert!(matches!(chunk_step(b"", b"a"), ChunkVerdict::Differ));
}

#[test]
fn differs_report_prints_peek_path_first() {
    let r = differs_report(&b"a/f".to_vec(), &b"b/f".to_vec());
    match r {
        Report::ContentDiffers { path_b, path_a } => {
            assert_eq!(path_b, b"b/f".to_vec());
            assert_eq!(path_a, b"a/f".to_vec());
        }
        _ => panic!("expected a content-differs report"),
    }
}
