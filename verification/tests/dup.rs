use std::collections::hash_map::DefaultHasher;
use std::hash::Hasher;

use sweep::domain::models::{EntryRecord, IndexStats};
use sweep::domain::traits::IndexStore;
use sweep::dup::{bucket, duplicate_groups, groups_from_hashes, DupFinder, FileHasher};

struct FakeStore {
    rows: Vec<(String, u64)>,
}

impl IndexStore for FakeStore {
    fn get_dir_mtime(&self, _: &str) -> Result<Option<i64>, String> {
        Ok(None)
    }
    fn child_entries(&self, _: &str) -> Result<Vec<(String, bool)>, String> {
        Ok(vec![])
    }
    fn upsert_entries(&mut self, _: &[EntryRecord]) -> Result<(), String> {
        Ok(())
    }
    fn delete_paths(&mut self, _: &[String]) -> Result<u64, String> {
        Ok(0)
    }
    fn stats(&self) -> Result<IndexStats, String> {
        Ok(Default::default())
    }
    fn clear(&mut self) -> Result<(), String> {
        Ok(())
    }
    fn meta_get(&self, _: &str) -> Result<Option<String>, String> {
        Ok(None)
    }
    fn meta_set(&mut self, _: &str, _: &str) -> Result<(), String> {
        Ok(())
    }
    fn files_by_size(&self, min_size: u64) -> Result<Vec<(String, u64)>, String> {
        Ok(self.rows.iter().filter(|(_, s)| *s >= min_size).cloned().collect())
    }
}

/// paths containing "same<N>" share a hash; others are unique
struct FakeHasher;
impl FileHasher for FakeHasher {
    fn hash_file(&self, path: &str) -> Result<u64, String> {
        Ok(if path.contains("same1") {
            111
        } else if path.contains("same2") {
            222
        } else {
            let mut h = DefaultHasher::new();
            h.write(path.as_bytes());
            h.finish()
        })
    }
}

fn finder(rows: Vec<(String, u64)>) -> DupFinder<FakeStore, FakeHasher> {
    DupFinder::new(FakeStore { rows }, FakeHasher)
}

#[test]
fn groups_same_size_same_hash_only() {
    let f = finder(vec![
        ("C:\\a\\same1\\x.iso".into(), 100),
        ("C:\\b\\same1\\y.iso".into(), 100),
        ("C:\\c\\same2\\z.bin".into(), 100),
        ("C:\\d\\w.txt".into(), 100),
        ("C:\\e\\v.log".into(), 50),
    ]);
    let g = f.find(10, 50).unwrap();
    assert_eq!(g.len(), 1);
    assert_eq!(g[0].paths, vec!["C:\\a\\same1\\x.iso".to_string(), "C:\\b\\same1\\y.iso".to_string()]);
    assert_eq!(g[0].wasted_bytes, 100);
    assert_eq!(g[0].size_bytes, 100);
}

#[test]
fn min_size_filters_and_zero_sizes_ignored() {
    let f = finder(vec![
        ("C:\\zero1".into(), 0),
        ("C:\\zero2".into(), 0),
        ("C:\\tiny1".into(), 3),
        ("C:\\tiny2".into(), 3),
    ]);
    assert!(f.find(5, 50).unwrap().is_empty());
    assert!(f.find(1, 50).unwrap().is_empty());
}

#[test]
fn multiple_groups_sorted_by_wasted_desc_and_capped() {
    let rows: Vec<(String, u64)> = (0..3)
        .map(|i| (format!("C:\\l\\same2\\big{i}.iso"), 1000))
        .chain((0..4).map(|i| (format!("C:\\s\\same1\\small{i}.bin"), 10)))
        .collect();
    let f = finder(rows.clone());
    let g = f.find(1, 10).unwrap();
    assert_eq!(g[0].size_bytes, 1000);
    assert_eq!(g[0].wasted_bytes, 2000);
    assert_eq!(g[1].size_bytes, 10);
    assert_eq!(g[1].wasted_bytes, 30);

    let f2 = finder(rows);
    let capped = f2.find(1, 1).unwrap();
    assert_eq!(capped.len(), 1);
}

#[test]
fn unreadable_files_are_skipped_not_fatal() {
    struct BrokenHasher;
    impl FileHasher for BrokenHasher {
        fn hash_file(&self, _: &str) -> Result<u64, String> {
            Err("gone".to_string())
        }
    }
    let f = DupFinder::new(FakeStore { rows: vec![("C:\\x".into(), 9), ("C:\\y".into(), 9)] }, BrokenHasher);
    assert!(f.find(1, 10).unwrap().is_empty());
}

#[test]
fn buckets_group_by_number_in_the_requested_order() {
    let entries = vec![("a".to_string(), 5u64), ("b".to_string(), 9), ("c".to_string(), 5)];
    let by_size = bucket(entries.clone(), true);
    assert_eq!(by_size.len(), 2);
    assert_eq!(by_size[0], (9, vec!["b".to_string()]));
    assert_eq!(by_size[1], (5, vec!["a".to_string(), "c".to_string()]));
    let first_seen = bucket(entries, false);
    assert_eq!(first_seen[0].0, 5);
    assert_eq!(first_seen[1].0, 9);
}

#[test]
fn group_paths_are_sorted_keeper_first() {
    let f = finder(vec![("z\\same1".into(), 7), ("a\\same1".into(), 7), ("m\\same1".into(), 7)]);
    let g = f.find(1, 5).unwrap();
    assert_eq!(g[0].paths, vec!["a\\same1".to_string(), "m\\same1".to_string(), "z\\same1".to_string()]);
    assert_eq!(g[0].wasted_bytes, 14);
}

#[test]
fn groups_among_keeps_same_hash_files_of_one_size_together() {
    let f = finder(vec![]);
    let files = vec![
        ("/x/same1/a".to_string(), 40u64),
        ("/y/same1/b".to_string(), 40),
        ("/z/same1/c".to_string(), 30),
        ("/w/same2/d".to_string(), 30),
        ("/v/same2/e".to_string(), 30),
    ];
    let g = f.groups_among(files, 10);
    assert_eq!(g.len(), 2);
    assert_eq!(g[0].size_bytes, 40);
    assert_eq!(g[0].paths, vec!["/x/same1/a".to_string(), "/y/same1/b".to_string()]);
    assert_eq!(g[0].wasted_bytes, 40);
    assert_eq!(g[1].size_bytes, 30);
    assert_eq!(g[1].paths, vec!["/v/same2/e".to_string(), "/w/same2/d".to_string()]);
    assert_eq!(g[1].wasted_bytes, 30);
    assert!(f.groups_among(vec![("/a/same1".to_string(), 9), ("/b/same1".to_string(), 9)], 0).is_empty());
}

#[test]
fn groups_from_hashes_keeps_only_shared_hashes() {
    let hashed = vec![
        ("/c".to_string(), 1u64),
        ("/a".to_string(), 2),
        ("/b".to_string(), 1),
        ("/d".to_string(), 3),
        ("/e".to_string(), 1),
    ];
    let g = groups_from_hashes(100, hashed);
    assert_eq!(g.len(), 1);
    assert_eq!(g[0].size_bytes, 100);
    assert_eq!(g[0].paths, vec!["/b".to_string(), "/c".to_string(), "/e".to_string()]);
    assert_eq!(g[0].wasted_bytes, 200);
    assert!(groups_from_hashes(5, vec![("/x".to_string(), 9)]).is_empty());
}

#[test]
fn duplicate_groups_hashes_each_file_and_drops_failures() {
    let files = vec![
        ("C:\\a\\same1\\x.iso".to_string(), 100u64),
        ("C:\\b\\same1\\y.iso".to_string(), 100),
        ("C:\\c\\same2\\z.bin".to_string(), 100),
        ("C:\\d\\w.txt".to_string(), 100),
        ("C:\\e\\bad.log".to_string(), 100),
        ("C:\\f\\bad.log".to_string(), 100),
    ];
    let hash = |p: &str| -> Result<u64, String> {
        if p.contains("same1") {
            Ok(111)
        } else if p.contains("bad") {
            Err("locked".to_string())
        } else {
            Ok(p.len() as u64)
        }
    };
    let g = duplicate_groups(files, &hash, 10);
    assert_eq!(g.len(), 1);
    assert_eq!(g[0].paths, vec!["C:\\a\\same1\\x.iso".to_string(), "C:\\b\\same1\\y.iso".to_string()]);
    assert_eq!(g[0].wasted_bytes, 100);
}
