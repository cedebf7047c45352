use sweep::domain::models::{UndoItem, UndoJournal, UndoSession};
use sweep::undo::{append_session, match_key, restore_latest, UndoOutcome, UndoResult, UndoService, MAX_SESSIONS};

fn item(path: &str) -> UndoItem {
    UndoItem {
        original_path: path.to_string(),
        trash_path: path.to_string(),
        size_bytes: 10,
    }
}

#[test]
fn newest_session_is_last() {
    let j = UndoJournal {
        sessions: vec![
            UndoSession { session_id: "old".into(), timestamp: 1, items: vec![item("/tmp/old")] },
            UndoSession { session_id: "new".into(), timestamp: 2, items: vec![item("/tmp/new")] },
        ],
    };
    assert_eq!(j.sessions.last().unwrap().session_id, "new");
}

#[test]
fn match_key_folds_separators_and_case() {
    assert_eq!(match_key(r"C:/Users/Me/Cache\a.bin"), match_key(r"c:\users\me\cache\a.bin"));
}

#[test]
fn append_ignores_empty_and_keeps_the_newest_sessions() {
    let mut j = UndoJournal::default();
    append_session(&mut j, vec![], 100);
    assert!(j.sessions.is_empty());
    for n in 0..(MAX_SESSIONS as i64 + 3) {
        append_session(&mut j, vec![item("/tmp/x")], 1000 + n);
    }
    assert_eq!(j.sessions.len(), MAX_SESSIONS);
    assert_eq!(j.sessions[0].timestamp, 1003);
    let last = j.sessions.last().unwrap();
    assert_eq!(last.timestamp, 1022);
    assert_eq!(last.session_id, "1022-20");
    let mut k = UndoJournal::default();
    append_session(&mut k, vec![item("/a")], -5);
    assert_eq!(k.sessions[0].session_id, "-5-0");
}

#[test]
fn undo_restores_what_the_bin_holds_and_reports_the_rest() {
    let empty = UndoJournal::default();
    assert!(matches!(restore_latest(&empty, Ok(vec![]), |_| true), UndoResult::NoSession));
    let mut j = UndoJournal::default();
    append_session(&mut j, vec![item("C:/a"), item("C:/b"), item("C:/c")], 7);
    match restore_latest(&j, Err("x".into()), |_| true) {
        UndoResult::Error(e) => assert_eq!(e, "could not read Recycle Bin index"),
        _ => panic!("expected an error"),
    }
    let bin = vec!["c:\\A".to_string(), "c:\\c".to_string()];
    match UndoService::new().undo(&j, Ok(bin), |k| k == 0) {
        UndoOutcome::Restored { session_id, restored, unrecoverable } => {
            assert_eq!(session_id, "7-0");
            assert_eq!(restored, 1);
            assert_eq!(unrecoverable, vec!["C:/b".to_string(), "C:/c".to_string()]);
        }
        _ => panic!("expected a restore"),
    }
}
