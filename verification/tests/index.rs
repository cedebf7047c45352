use std::cell::RefCell;

use sweep::domain::models::{EntryRecord, IndexStats};
use sweep::domain::traits::IndexStore;
use sweep::index::{
    default_excludes, default_roots, join_roots, norm, norm_for, provenance_from_meta, read_provenance, run_stamps, stale_paths,
    IncrementalWalker, IndexConfig, IndexService, RawEntry, WalkerConfig,
};

#[test]
fn defaults_match_the_walker_contract() {
    assert_eq!(default_excludes(), vec!["$recycle.bin", "system volume information", "windows.old"]);
    let c = WalkerConfig::new_default();
    assert_eq!((c.pause_every_dirs, c.pause_for_ms), (25, 5));
    assert_eq!(default_roots(Some("/home/me")), vec!["/home/me"]);
    assert_eq!(default_roots(Some("")), vec!["/"]);
    assert_eq!(default_roots(None), vec!["/"]);
    assert_eq!(norm("/home/me//"), "/home/me");
    assert_eq!(norm("C:\\x\\"), "C:\\x");
}

#[test]
fn provenance_reads_back_what_a_run_wrote() {
    let p = provenance_from_meta(Some("1700".into()), Some("/a;/b".into()), Some("1".into()));
    assert_eq!(p.last_run_unix, Some(1700));
    assert_eq!(p.roots, vec!["/a", "/b"]);
    assert!(p.interrupted);
    let q = provenance_from_meta(Some("soon".into()), Some(String::new()), Some("0".into()));
    assert_eq!(q.last_run_unix, None);
    assert!(q.roots.is_empty());
    assert!(!q.interrupted);
    assert_eq!(provenance_from_meta(Some("-12".into()), None, None).last_run_unix, Some(-12));
    assert_eq!(join_roots(&vec!["/a".into(), "/b".into()]), "/a;/b");
}

#[test]
fn stale_children_are_the_ones_no_longer_listed() {
    let prior = vec![("/d/a".to_string(), false), ("/d/b".to_string(), true)];
    let entries = vec![EntryRecord { path: "/d/a".into(), parent: "/d".into(), size_bytes: 1, mtime_ms: 1, is_dir: false }];
    assert_eq!(stale_paths(&prior, &entries), vec!["/d/b".to_string()]);
}

#[derive(Default)]
struct MemStore {
    meta: RefCell<Vec<(String, String)>>,
    dirs: Vec<(String, i64, Vec<(String, bool)>)>,
    upserts: RefCell<usize>,
}

impl IndexStore for MemStore {
    fn get_dir_mtime(&self, path: &str) -> Result<Option<i64>, String> {
        Ok(self.dirs.iter().find(|d| d.0 == path).map(|d| d.1))
    }
    fn child_entries(&self, parent: &str) -> Result<Vec<(String, bool)>, String> {
        Ok(self.dirs.iter().find(|d| d.0 == parent).map(|d| d.2.clone()).unwrap_or_default())
    }
    fn upsert_entries(&mut self, _entries: &[EntryRecord]) -> Result<(), String> {
        *self.upserts.borrow_mut() += 1;
        Ok(())
    }
    fn delete_paths(&mut self, paths: &[String]) -> Result<u64, String> {
        Ok(paths.len() as u64)
    }
    fn stats(&self) -> Result<IndexStats, String> {
        Ok(IndexStats::default())
    }
    fn clear(&mut self) -> Result<(), String> {
        Ok(())
    }
    fn meta_get(&self, key: &str) -> Result<Option<String>, String> {
        Ok(self.meta.borrow().iter().rev().find(|m| m.0 == key).map(|m| m.1.clone()))
    }
    fn meta_set(&mut self, key: &str, value: &str) -> Result<(), String> {
        self.meta.borrow_mut().push((key.to_string(), value.to_string()));
        Ok(())
    }
    fn files_by_size(&self, _min: u64) -> Result<Vec<(String, u64)>, String> {
        Ok(vec![])
    }
}

fn entry(path: &str, is_dir: bool) -> RawEntry {
    RawEntry { path: path.to_string(), is_symlink: false, is_dir, meta: Some((10, Some(5))) }
}

#[test]
fn walker_skips_unchanged_dirs_and_queues_subdirs() {
    let store = MemStore {
        dirs: vec![("/r/old".to_string(), 7, vec![("/r/old/deep".to_string(), true)])],
        ..Default::default()
    };
    let cfg = WalkerConfig { excludes: vec!["windows.old".into()], pause_every_dirs: 1000, pause_for_ms: 0 };
    let mut w = IncrementalWalker::new(vec!["/r".into(), "/missing".into()], cfg, |p: &str| p == "/r");
    let mtime = |p: &str| if p == "/r/old" { Some(7) } else { Some(1) };
    let read = |p: &str| -> Option<Vec<RawEntry>> {
        match p {
            "/r" => Some(vec![
                entry("/r/old", true),
                entry("/r/f", false),
                RawEntry { path: "/r/link".into(), is_symlink: true, is_dir: false, meta: None },
            ]),
            _ => None,
        }
    };
    let (first, _) = w.next_listing(&store, &mtime, &read).unwrap();
    assert_eq!(first.path, "/r");
    assert!(first.readable);
    assert_eq!(first.entries.len(), 3);
    assert!(first.entries[0].is_dir);
    assert_eq!(first.entries[2].path, "/r/f");
    assert_eq!(first.entries[2].parent, "/r");
    // "/r/old" is unchanged in the index: skipped, its subdirectory queued.
    let (second, _) = w.next_listing(&store, &mtime, &read).unwrap();
    assert_eq!(second.path, "/r/old/deep");
    assert!(!second.readable);
    assert_eq!(w.dirs_skipped(), 1);
    assert!(w.next_listing(&store, &mtime, &read).is_none());
}

#[test]
fn a_run_records_when_what_and_whether_it_finished() {
    let store = MemStore::default();
    let cfg = IndexConfig { roots: vec!["/r".into()], walker: WalkerConfig::new_default() };
    let mut svc = IndexService::new(store, cfg);
    let read = |_: &str| -> Option<Vec<RawEntry>> { Some(vec![entry("/r/a", false)]) };
    let p = svc.run(|| 1234, || false, |_: &str| true, |_: &str| Some(1), read).unwrap();
    assert!(!p.running);
    assert_eq!(p.dirs_scanned, 1);
    assert_eq!(p.files_recorded, 2);
    assert_eq!(p.finished_at_unix, Some(1234));
    let prov = read_provenance(&svc.store).unwrap();
    assert_eq!(prov.last_run_unix, Some(1234));
    assert_eq!(prov.roots, vec!["/r"]);
    assert!(!prov.interrupted);
    assert_eq!(svc.last_run().unwrap(), Some(1234));
    let cancelled = svc.run(|| 99, || true, |_: &str| true, |_: &str| Some(1), |_: &str| None).unwrap();
    assert_eq!(cancelled.dirs_scanned, 0);
    assert!(svc.provenance().unwrap().interrupted);
    assert_eq!(IndexConfig::for_home(None).roots, vec!["/"]);
}

#[test]
fn run_stamps_record_time_roots_and_interruption() {
    let roots = vec!["/a".to_string(), "/b c".to_string()];
    let s = run_stamps(-42, &roots, true);
    assert_eq!(
        s,
        vec![
            ("last_run".to_string(), "-42".to_string()),
            ("last_run_roots".to_string(), "/a;/b c".to_string()),
            ("last_run_interrupted".to_string(), "1".to_string()),
        ]
    );
    assert_eq!(run_stamps(7, &Vec::new(), false)[2].1, "0");
    assert_eq!(run_stamps(7, &Vec::new(), false)[1].1, "");
}

#[test]
fn stamped_values_read_back_as_recorded() {
    let roots = vec!["/home/me".to_string(), "/srv".to_string()];
    let s = run_stamps(-1234567, &roots, true);
    let p = provenance_from_meta(Some(s[0].1.clone()), Some(s[1].1.clone()), Some(s[2].1.clone()));
    assert_eq!(p.last_run_unix, Some(-1234567));
    assert_eq!(p.roots, roots);
    assert!(p.interrupted);
    let s = run_stamps(i64::MAX, &Vec::new(), false);
    let p = provenance_from_meta(Some(s[0].1.clone()), Some(s[1].1.clone()), Some(s[2].1.clone()));
    assert_eq!(p.last_run_unix, Some(i64::MAX));
    assert!(p.roots.is_empty());
    assert!(!p.interrupted);
}

#[test]
fn paths_normalise_per_platform() {
    assert_eq!(norm_for("/home/me//", false), "/home/me");
    assert_eq!(norm_for("C:/Data/", true), "c:/data");
    assert_eq!(norm_for("C:\\Data\\", true), "c:\\data");
}
