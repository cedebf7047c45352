use sweep::domain::models::ProcessMemInfo;
use sweep::monitor::{disk_label, disk_rows, rank_processes, RawDisk, TOP_PROCESSES};

fn p(pid: u32, mem: u64) -> ProcessMemInfo {
    ProcessMemInfo { pid, name: format!("p{pid}"), memory_bytes: mem, read_bytes: 0, write_bytes: 0, total_written_bytes: 0 }
}

#[test]
fn blank_disk_names_fall_back_to_the_mount_point() {
    assert_eq!(disk_label("nvme0n1p2", "/"), "nvme0n1p2");
    assert_eq!(disk_label("  ", "/home"), "/home");
    assert_eq!(disk_label("", "/boot"), "/boot");
}

#[test]
fn disk_rows_skip_empty_disks_and_saturate_used_space() {
    let raw = vec![
        RawDisk { name: "a".into(), mount_point: "/".into(), total_bytes: 100, available_bytes: 30 },
        RawDisk { name: "b".into(), mount_point: "/proc".into(), total_bytes: 0, available_bytes: 0 },
        RawDisk { name: "".into(), mount_point: "/odd".into(), total_bytes: 10, available_bytes: 20 },
    ];
    let rows = disk_rows(&raw);
    assert_eq!(rows.len(), 2);
    assert_eq!(rows[0].used_bytes, 70);
    assert_eq!(rows[0].name, "a");
    assert_eq!(rows[1].name, "/odd");
    assert_eq!(rows[1].used_bytes, 0);
    assert_eq!(rows[1].available_bytes, 20);
}

#[test]
fn processes_rank_by_memory_then_pid_and_are_capped() {
    let procs = vec![p(9, 100), p(2, 500), p(5, 100), p(1, 100), p(7, 800)];
    let ranked = rank_processes(procs, 4);
    let order: Vec<u32> = ranked.iter().map(|x| x.pid).collect();
    assert_eq!(order, vec![7, 2, 1, 5]);
    let many: Vec<ProcessMemInfo> = (0..25).map(|i| p(i, (i as u64) % 4)).collect();
    assert_eq!(rank_processes(many, TOP_PROCESSES).len(), 10);
    assert!(rank_processes(Vec::new(), 3).is_empty());
}
