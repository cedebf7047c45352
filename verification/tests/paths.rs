use sweep::paths::{data_dir, home_dir, index_db_path, parent_of, reserve_path};

#[test]
fn sweep_db_env_overrides_index_db_path() {
    let data = data_dir(None, Some("/home/u"));
    assert_eq!(data, "/home/u/.local/share/sweep");
    let expected = "/tmp/sweep-reserve-test/custom.db";
    assert_eq!(index_db_path(Some(expected), &data), expected);
    assert!(reserve_path(Some(expected), &data).ends_with("reserve.bin"));
    assert_eq!(reserve_path(Some(expected), &data), "/tmp/sweep-reserve-test/reserve.bin");
}

#[test]
fn data_paths_fall_back_in_order() {
    assert_eq!(data_dir(Some("/x"), Some("/h")), "/x/sweep");
    assert_eq!(data_dir(Some(""), Some("/h")), "/h/.local/share/sweep");
    assert_eq!(data_dir(None, None), "./.local/share/sweep");
    assert_eq!(index_db_path(Some(""), "/d"), "/d/index.db");
    assert_eq!(index_db_path(None, "/d"), "/d/index.db");
    assert_eq!(reserve_path(None, "/d"), "/d/reserve.bin");
    assert_eq!(home_dir(Some("")), None);
    assert_eq!(home_dir(Some("/h")), Some("/h".to_string()));
    assert_eq!(parent_of("/a/b/"), Some("/a".to_string()));
}
