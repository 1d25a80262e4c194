use lamefiles::files::LameFile;
use lamefiles::scan::{
    find_lame_files, get_lame_files, is_eligible, tree_size, FileEntry, ScanError, WalkEvent,
};
use lamefiles::sort::sort_by_size;
use lamefiles::time::Timestamp;

const NOW: i64 = 1_000_000;
const DAY: u64 = 86400;

fn now() -> Timestamp {
    Timestamp::new(NOW, 0)
}

fn days_ago(days: i64) -> Timestamp {
    Timestamp::new(NOW - days * 86400 - 1, 0)
}

fn entry(name: &str, size: u64, is_file: bool, age_days: i64) -> FileEntry {
    FileEntry {
        path: format!("tree/{}", name),
        name: name.to_string(),
        size,
        is_file,
        created: days_ago(age_days),
        modified: days_ago(age_days),
        accessed: days_ago(age_days),
    }
}

fn file(name: &str, size: u64) -> WalkEvent {
    WalkEvent::Found(entry(name, size, true, 0))
}

fn old_file(name: &str, size: u64, age_days: i64) -> WalkEvent {
    WalkEvent::Found(entry(name, size, true, age_days))
}

fn directory(name: &str) -> WalkEvent {
    WalkEvent::Found(entry(name, 4096, false, 400))
}

fn unreadable(depth: usize, message: &str) -> WalkEvent {
    WalkEvent::Unreadable { depth, message: message.to_string() }
}

fn sizes(files: &Vec<LameFile>) -> Vec<u64> {
    files.iter().map(|file| file.size).collect()
}

fn names(files: &Vec<LameFile>) -> Vec<String> {
    files.iter().map(|file| file.name.clone()).collect()
}

fn candidate(name: &str, size: u64) -> LameFile {
    LameFile { size, path: format!("tree/{}", name), name: name.to_string() }
}

#[test]
fn four_files_without_filters() {
    let events = vec![
        directory("tree"),
        file("a", 10),
        file("b", 20),
        file("c", 5),
        file("d", 100),
    ];
    let scan = get_lame_files(events, now(), 0, 0, 0).unwrap();
    assert_eq!(scan.total_size(), 135);
    assert_eq!(sizes(scan.files()), vec![100, 20, 10, 5]);
    assert_eq!(names(scan.files()), vec!["d", "b", "a", "c"]);
    assert!(scan.skipped().is_empty());
}

#[test]
fn a_candidate_keeps_path_name_and_size() {
    let scan = get_lame_files(vec![file("big.bin", 77)], now(), 0, 0, 0).unwrap();
    assert_eq!(scan.files(), &vec![candidate("big.bin", 77)]);
    let (total, files) = scan.into_parts();
    assert_eq!(total, 77);
    assert_eq!(files, vec![candidate("big.bin", 77)]);
}

#[test]
fn an_empty_walk_finds_nothing() {
    let scan = get_lame_files(Vec::new(), now(), 0, 0, 0).unwrap();
    assert_eq!(scan.total_size(), 0);
    assert!(scan.files().is_empty());
    assert!(scan.skipped().is_empty());
}

#[test]
fn directories_neither_count_nor_are_offered() {
    let events = vec![directory("tree"), directory("sub"), file("a", 7), directory("other")];
    let scan = get_lame_files(events, now(), 0, 0, 0).unwrap();
    assert_eq!(scan.total_size(), 7);
    assert_eq!(names(scan.files()), vec!["a"]);
}

#[test]
fn filtered_files_still_count_towards_the_tree() {
    let events = vec![
        old_file("old", 10, 40),
        old_file("recent", 20, 3),
        old_file("ancient", 5, 400),
        old_file("new", 100, 0),
    ];
    let scan = get_lame_files(events, now(), 0, 30 * DAY, 0).unwrap();
    assert_eq!(scan.total_size(), 135);
    assert_eq!(names(scan.files()), vec!["old", "ancient"]);
    let offered: u64 = sizes(scan.files()).iter().sum();
    assert!(offered <= scan.total_size());
}

#[test]
fn each_of_the_three_times_is_held_to_its_own_threshold() {
    let mut mixed = entry("mixed", 9, true, 0);
    mixed.created = days_ago(100);
    mixed.modified = days_ago(50);
    mixed.accessed = days_ago(10);
    assert!(is_eligible(now(), 0, 0, 0, &mixed));
    assert!(is_eligible(now(), 100 * DAY, 50 * DAY, 10 * DAY, &mixed));
    assert!(!is_eligible(now(), 101 * DAY, 0, 0, &mixed));
    assert!(!is_eligible(now(), 0, 51 * DAY, 0, &mixed));
    assert!(!is_eligible(now(), 0, 0, 11 * DAY, &mixed));
    assert!(is_eligible(now(), 99 * DAY, 0, 0, &mixed));
    assert!(!is_eligible(now(), 0, 0, 0, &entry("dir", 9, false, 500)));
    for created in [0, 99, 100, 101] {
        for modified in [0, 49, 50, 51] {
            for accessed in [0, 9, 10, 11] {
                let all_pass = created <= 100 && modified <= 50 && accessed <= 10;
                let events = vec![WalkEvent::Found(mixed.clone())];
                let scan = get_lame_files(
                    events,
                    now(),
                    created * DAY,
                    modified * DAY,
                    accessed * DAY,
                )
                .unwrap();
                assert_eq!(scan.files().len() == 1, all_pass);
                assert_eq!(scan.total_size(), 9);
            }
        }
    }
}

#[test]
fn a_file_from_the_future_is_not_offered_under_a_threshold() {
    let mut ahead = entry("ahead", 3, true, 0);
    ahead.modified = Timestamp::new(NOW + 500, 0);
    assert!(is_eligible(now(), 0, 0, 0, &ahead));
    assert!(!is_eligible(now(), 0, 1, 0, &ahead));
    let scan = get_lame_files(vec![WalkEvent::Found(ahead)], now(), 0, 1, 0).unwrap();
    assert_eq!(scan.total_size(), 3);
    assert!(scan.files().is_empty());
}

#[test]
fn without_thresholds_the_candidates_are_the_whole_tree() {
    let events = vec![file("a", 1), directory("d"), file("b", 2), file("c", 3), file("e", 0)];
    let scan = get_lame_files(events, now(), 0, 0, 0).unwrap();
    let offered: u64 = sizes(scan.files()).iter().sum();
    assert_eq!(offered, scan.total_size());
    assert_eq!(scan.files().len(), 4);
}

#[test]
fn equal_sizes_all_come_out() {
    let events = vec![file("a", 5), file("b", 9), file("c", 5), file("d", 9), file("e", 5)];
    let scan = get_lame_files(events, now(), 0, 0, 0).unwrap();
    assert_eq!(sizes(scan.files()), vec![9, 9, 5, 5, 5]);
    let mut found = names(scan.files());
    found.sort();
    assert_eq!(found, vec!["a", "b", "c", "d", "e"]);
}

#[test]
fn a_place_below_the_root_is_passed_over() {
    let events = vec![
        directory("tree"),
        file("a", 10),
        unreadable(1, "IO error for operation on tree/locked: Permission denied"),
        file("b", 20),
        unreadable(3, "loop"),
    ];
    let scan = get_lame_files(events, now(), 0, 0, 0).unwrap();
    assert_eq!(scan.total_size(), 30);
    assert_eq!(sizes(scan.files()), vec![20, 10]);
    assert_eq!(
        scan.skipped(),
        &vec![
            "IO error for operation on tree/locked: Permission denied. Skipping...".to_string(),
            "loop. Skipping...".to_string(),
        ]
    );
}

#[test]
fn a_root_that_cannot_be_read_fails_the_walk() {
    let events = vec![unreadable(0, "IO error for operation on nowhere: No such file")];
    let failed = get_lame_files(events, now(), 0, 0, 0);
    assert_eq!(
        failed.err(),
        Some(ScanError { message: "IO error for operation on nowhere: No such file".to_string() })
    );
}

#[test]
fn the_first_failure_of_the_root_is_reported() {
    let events = vec![
        directory("tree"),
        unreadable(2, "deep"),
        unreadable(0, "first"),
        file("a", 1),
        unreadable(0, "second"),
    ];
    let failed = get_lame_files(events, now(), 0, 0, 0);
    assert_eq!(failed.err(), Some(ScanError { message: "first".to_string() }));
}

#[test]
fn sorting_ranks_by_size_and_loses_nothing() {
    let mut files = Vec::new();
    let mut seed: u64 = 12345;
    for index in 0..1000 {
        seed = seed.wrapping_mul(6364136223846793005).wrapping_add(1442695040888963407);
        files.push(candidate(&format!("f{}", index), (seed >> 33) % 50));
    }
    let ranked = sort_by_size(files.clone());
    assert_eq!(ranked.len(), files.len());
    for pair in ranked.windows(2) {
        assert!(pair[0].size >= pair[1].size);
    }
    let mut before = files;
    let mut after = ranked;
    before.sort_by(|a, b| a.name.cmp(&b.name));
    after.sort_by(|a, b| a.name.cmp(&b.name));
    assert_eq!(before, after);
}

#[test]
fn sorting_short_lists() {
    assert_eq!(sort_by_size(Vec::new()), Vec::new());
    assert_eq!(sort_by_size(vec![candidate("a", 1)]), vec![candidate("a", 1)]);
    assert_eq!(
        sort_by_size(vec![candidate("a", 1), candidate("b", 2)]),
        vec![candidate("b", 2), candidate("a", 1)]
    );
    assert_eq!(
        sort_by_size(vec![candidate("a", u64::MAX), candidate("b", 0), candidate("c", 7)]),
        vec![candidate("a", u64::MAX), candidate("c", 7), candidate("b", 0)]
    );
}

#[test]
fn the_size_of_the_tree_counts_regular_files_only() {
    assert_eq!(tree_size(&Vec::new()), Some(0));
    let events = vec![
        directory("tree"),
        file("a", 10),
        unreadable(1, "no"),
        old_file("b", 20, 9),
        unreadable(0, "root"),
        file("c", 5),
    ];
    assert_eq!(tree_size(&events), Some(35));
}

#[test]
fn a_tree_too_large_for_a_size_has_none() {
    let fits = vec![file("a", u64::MAX - 1), file("b", 1), directory("d"), file("c", 0)];
    assert_eq!(tree_size(&fits), Some(u64::MAX));
    let scan = get_lame_files(fits, now(), 0, 0, 0).unwrap();
    assert_eq!(scan.total_size(), u64::MAX);
    let beyond = vec![file("a", u64::MAX - 1), file("b", 1), file("c", 1)];
    assert_eq!(tree_size(&beyond), None);
    let beyond = vec![file("a", u64::MAX), directory("d"), file("b", u64::MAX)];
    assert_eq!(tree_size(&beyond), None);
}

#[test]
fn a_tree_of_any_size_can_be_asked_for_its_files() {
    let events = vec![directory("tree"), file("a", 10), old_file("b", 20, 40), file("c", 5)];
    let scan = find_lame_files(events, now(), 30 * DAY, 0, 0).unwrap().unwrap();
    assert_eq!(scan.total_size(), 35);
    assert_eq!(names(scan.files()), vec!["b"]);
    let failed = find_lame_files(vec![file("a", 1), unreadable(0, "gone")], now(), 0, 0, 0);
    assert_eq!(failed.unwrap().err(), Some(ScanError { message: "gone".to_string() }));
    let beyond = vec![file("a", u64::MAX), file("b", 1)];
    assert!(find_lame_files(beyond, now(), 0, 0, 0).is_none());
    let beyond = vec![unreadable(0, "gone"), file("a", u64::MAX), file("b", 1)];
    assert!(find_lame_files(beyond, now(), 0, 0, 0).is_none());
    let fits = vec![file("a", u64::MAX), file("b", 0), directory("d")];
    let scan = find_lame_files(fits, now(), 0, 0, 0).unwrap().unwrap();
    assert_eq!(scan.total_size(), u64::MAX);
    assert_eq!(sizes(scan.files()), vec![u64::MAX, 0]);
}

#[test]
fn an_age_just_beyond_the_threshold_offers_the_file() {
    let mut fresh = entry("fresh", 4, true, 0);
    fresh.created = Timestamp::new(NOW - 11, 500_000_000);
    fresh.modified = Timestamp::new(NOW - 11, 500_000_000);
    fresh.accessed = Timestamp::new(NOW - 11, 500_000_000);
    // 10.5 seconds have passed since each of the three times.
    assert!(is_eligible(now(), 10, 10, 10, &fresh));
    assert!(!is_eligible(now(), 10, 11, 10, &fresh));
    let scan = get_lame_files(vec![WalkEvent::Found(fresh)], now(), 10, 10, 10).unwrap();
    assert_eq!(names(scan.files()), vec!["fresh"]);
}
