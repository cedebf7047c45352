use sweep::domain::models::MediaType;
use sweep::optimize::{media_for_mount, media_type, rotational_flag_path};
use sweep::storage::{volumes_total_for, VolumeSpace, device_for_mount, drive_letter, normalize_mount, parent_block_device, parse_rotational, seek_penalty_to_media};

const MOUNTS: &str = "\
/dev/nvme0n1p2 / ext4 rw,relatime 0 0
/dev/sda1 /home ext4 rw,relatime 0 0
proc /proc proc rw,nosuid 0 0
tmpfs /run tmpfs rw,nosuid 0 0
";

#[test]
fn parses_rotational_flag() {
    assert_eq!(parse_rotational("0\n"), MediaType::Ssd);
    assert_eq!(parse_rotational("1\n"), MediaType::Hdd);
    assert_eq!(parse_rotational(""), MediaType::Unknown);
    assert_eq!(parse_rotational("garbage"), MediaType::Unknown);
}

#[test]
fn resolves_device_for_exact_mount() {
    assert_eq!(device_for_mount(MOUNTS, "/home").as_deref(), Some("/dev/sda1"));
    assert_eq!(device_for_mount(MOUNTS, "/").as_deref(), Some("/dev/nvme0n1p2"));
}

#[test]
fn prefers_longest_matching_mount() {
    assert_eq!(device_for_mount(MOUNTS, "/home/me/cache").as_deref(), Some("/dev/sda1"));
}

#[test]
fn ignores_pseudo_filesystems() {
    assert_eq!(device_for_mount(MOUNTS, "/proc"), None);
    assert_eq!(device_for_mount(MOUNTS, "/run"), None);
}

#[test]
fn unknown_mount_resolves_to_nothing() {
    assert_eq!(device_for_mount("", "/"), None);
}

#[test]
fn strips_partition_suffix() {
    assert_eq!(parent_block_device("/dev/sda2").as_deref(), Some("sda"));
    assert_eq!(parent_block_device("/dev/vdb1").as_deref(), Some("vdb"));
    assert_eq!(parent_block_device("/dev/nvme0n1p3").as_deref(), Some("nvme0n1"));
    assert_eq!(parent_block_device("/dev/mmcblk0p1").as_deref(), Some("mmcblk0"));
}

#[test]
fn whole_disk_device_is_unchanged() {
    assert_eq!(parent_block_device("/dev/sda").as_deref(), Some("sda"));
    assert_eq!(parent_block_device("/dev/nvme0n1").as_deref(), Some("nvme0n1"));
    assert_eq!(parent_block_device("/dev/mmcblk0").as_deref(), Some("mmcblk0"));
}

#[test]
fn malformed_device_paths_are_rejected() {
    assert_eq!(parent_block_device("sda2"), None);
    assert_eq!(parent_block_device("/dev/"), None);
    assert_eq!(parent_block_device("/dev/123"), None);
}

#[test]
fn unresolvable_mount_is_unknown_media() {
    let read = |_: &str| -> Option<String> { None };
    assert_eq!(media_for_mount("", "/nonexistent", read), MediaType::Unknown);
}

#[test]
fn pseudo_filesystem_is_unknown_media() {
    let mounts = "proc /proc proc rw,nosuid 0 0\n";
    let read = |_: &str| -> Option<String> { None };
    assert_eq!(media_for_mount(mounts, "/proc", read), MediaType::Unknown);
}

#[test]
fn rotational_flag_path_names_the_parent_device() {
    assert_eq!(
        rotational_flag_path(MOUNTS, "/home/me").as_deref(),
        Some("/sys/block/sda/queue/rotational")
    );
    assert_eq!(
        rotational_flag_path(MOUNTS, "/").as_deref(),
        Some("/sys/block/nvme0n1/queue/rotational")
    );
    assert_eq!(rotational_flag_path(MOUNTS, "/run"), None);
    assert_eq!(media_type(Some("0\n")), MediaType::Ssd);
    assert_eq!(media_type(None), MediaType::Unknown);
}

#[test]
fn no_seek_penalty_is_solid_state() {
    assert_eq!(seek_penalty_to_media(0), MediaType::Ssd);
}

#[test]
fn seek_penalty_is_rotational() {
    assert_eq!(seek_penalty_to_media(1), MediaType::Hdd);
    assert_eq!(seek_penalty_to_media(0xFF), MediaType::Hdd);
}

#[test]
fn extracts_drive_letter_from_mount() {
    assert_eq!(drive_letter("C:\\"), Some('C'));
    assert_eq!(drive_letter("d:\\"), Some('D'));
    assert_eq!(drive_letter("\\\\server\\share"), None);
    assert_eq!(drive_letter(""), None);
}

#[test]
fn mount_points_lose_trailing_separators() {
    assert_eq!(normalize_mount("/home/"), "/home");
    assert_eq!(normalize_mount("///"), "/");
    assert_eq!(normalize_mount("C:\\"), "C:");
}

#[test]
fn a_mount_point_matches_only_at_a_component_boundary() {
    let mounts = "/dev/nvme0n1p2 / ext4 rw,relatime 0 0\n/dev/sda1 /home ext4 rw,relatime 0 0\nproc /proc proc rw,nosuid 0 0\ntmpfs /run tmpfs rw,nosuid 0 0\n";
    assert_eq!(device_for_mount(mounts, "/homework"), Some("/dev/nvme0n1p2".to_string()));
    assert_eq!(device_for_mount(mounts, "/home/work"), Some("/dev/sda1".to_string()));
}

fn vol(mount: &str, total: u64) -> Option<VolumeSpace> {
    Some(VolumeSpace { mount: mount.to_string(), total_bytes: total, available_bytes: 0 })
}

#[test]
fn each_volume_is_counted_once() {
    let big = u64::MAX / 2;
    let resolved = vec![vol("/", big), None, vol("/", big), vol("/home", 7), vol("/", big)];
    assert_eq!(volumes_total_for(&resolved), Some((big + 7, vec!["/".to_string(), "/home".to_string()])));
    assert_eq!(volumes_total_for(&vec![None, None]), None);
}
