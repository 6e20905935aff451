use parallel_disk_usage::app::hdd::{
    any_path_is_in_hdd, driver_is_virtual, extract_block_device_name, is_hdd,
    is_virtual_block_device, resolved_device_path,
    is_virtual_driver, parse_block_device_name, path_is_in_hdd, reclassify_virtual_hdd,
    validate_block_device, DiskInfo, DiskKind, FsApi,
};
use parallel_disk_usage::app::mount_point::find_mount_point;
use parallel_disk_usage::app::thread_limit;
use parallel_disk_usage::args::Threads;
use std::path::Path;

/// The filesystem of a machine whose sysfs holds nothing.
struct EmptySysfs;

impl FsApi for EmptySysfs {
    fn canonicalize(path: &str) -> Option<String> {
        Some(path.to_string())
    }
    fn path_exists(_: &str) -> bool {
        false
    }
    fn read_link(_: &str) -> Option<String> {
        None
    }
}

/// The filesystem of this machine, through `std::path::Path`.
struct RealFs;

impl FsApi for RealFs {
    fn canonicalize(path: &str) -> Option<String> {
        Path::new(path)
            .canonicalize()
            .ok()
            .and_then(|path| path.to_str().map(|text| text.to_string()))
    }
    fn path_exists(path: &str) -> bool {
        Path::new(path).exists()
    }
    fn read_link(path: &str) -> Option<String> {
        Path::new(path)
            .read_link()
            .ok()
            .and_then(|path| path.to_str().map(|text| text.to_string()))
    }
}

fn disk(kind: DiskKind, name: &str, mount_point: &str) -> DiskInfo {
    DiskInfo {
        kind,
        name: Some(name.to_string()),
        mount_point: mount_point.to_string(),
    }
}

fn sample_disks() -> Vec<DiskInfo> {
    vec![
        disk(DiskKind::SSD, "/dev/sda", "/"),
        disk(DiskKind::HDD, "/dev/sdb", "/home"),
        disk(DiskKind::HDD, "/dev/sdc", "/mnt/hdd-data"),
        disk(DiskKind::SSD, "/dev/sdd", "/mnt/ssd-data"),
        disk(DiskKind::HDD, "/dev/sde", "/mnt/hdd-data/repo"),
    ]
}

fn any_path_cases() -> Vec<(Vec<&'static str>, bool)> {
    vec![
        (vec![], false),
        (vec!["/"], false),
        (vec!["/home"], true),
        (vec!["/mnt"], false),
        (vec!["/mnt/ssd-data"], false),
        (vec!["/mnt/hdd-data"], true),
        (vec!["/mnt/hdd-data/repo"], true),
        (vec!["/etc/fstab"], false),
        (vec!["/home/usr/file"], true),
        (vec!["/home/data/repo/test"], true),
        (vec!["/usr/share"], false),
        (vec!["/mnt/ssd-data/test"], false),
        (vec!["/etc/fstab", "/home/user/file"], true),
        (vec!["/mnt/hdd-data/file", "/mnt/hdd-data/repo/test"], true),
        (vec!["/usr/share", "/mnt/ssd-data/test"], false),
        (vec!["/etc/fstab", "/home/user", "/mnt/hdd-data", "/usr/share"], true),
    ]
}

fn path_cases() -> Vec<(&'static str, bool)> {
    vec![
        ("/etc/fstab", false),
        ("/mnt/", false),
        ("/mnt/hdd-data/repo/test", true),
        ("/mnt/hdd-data/test/test", true),
        ("/mnt/ssd-data/test/test", false),
    ]
}

#[test]
fn test_test_any_path_in_hdd() {
    let disks = sample_disks();
    for (paths, in_hdd) in any_path_cases() {
        let paths: Vec<String> = paths.iter().map(|path| path.to_string()).collect();
        println!("CASE: {paths:?} → {in_hdd:?}");
        assert_eq!(any_path_is_in_hdd::<EmptySysfs>(&paths, &disks), in_hdd);
    }
}

#[test]
fn test_test_path_in_hdd() {
    let disks = sample_disks();
    for (path, in_hdd) in path_cases() {
        println!("CASE: {path} → {in_hdd:?}");
        assert_eq!(path_is_in_hdd::<EmptySysfs>(path, &disks), in_hdd);
    }
}

#[test]
fn hdd_test_any_path_in_hdd() {
    let disks: Vec<DiskInfo> = sample_disks()
        .into_iter()
        .map(|disk| DiskInfo { name: None, ..disk })
        .collect();
    for (paths, in_hdd) in any_path_cases() {
        let paths: Vec<String> = paths.iter().map(|path| path.to_string()).collect();
        println!("CASE: {paths:?} → {in_hdd:?}");
        assert_eq!(any_path_is_in_hdd::<EmptySysfs>(&paths, &disks), in_hdd);
    }
}

#[test]
fn hdd_test_path_in_hdd() {
    let disks: Vec<DiskInfo> = sample_disks()
        .into_iter()
        .map(|disk| DiskInfo { name: None, ..disk })
        .collect();
    for (path, in_hdd) in path_cases() {
        println!("CASE: {path} → {in_hdd:?}");
        assert_eq!(path_is_in_hdd::<EmptySysfs>(path, &disks), in_hdd);
    }
}

#[test]
fn test_mount_point() {
    let all_mount_points: Vec<String> = ["/", "/home", "/mnt/data", "/mnt/data/repo", "/mnt/repo"]
        .iter()
        .map(|path| path.to_string())
        .collect();
    for (path, expected_mount_point) in [
        ("/etc/fstab", "/"),
        ("/home/user", "/home"),
        ("/mnt/data/repo/test", "/mnt/data/repo"),
        ("/mnt/data/test/test", "/mnt/data/"),
        ("/mnt/repo/test/test", "/mnt/repo/"),
    ] {
        println!("CASE: {path} → {expected_mount_point}");
        let mount_point = find_mount_point(path, &all_mount_points).unwrap();
        assert_eq!(Path::new(mount_point), Path::new(expected_mount_point));
    }
}

#[test]
fn mount_point_of_path_outside_every_mount_point_is_none() {
    let mount_points = vec!["/home".to_string(), "/mnt".to_string()];
    assert_eq!(find_mount_point("/etc/fstab", &mount_points), None);
}

#[test]
fn test_parse_block_device_name() {
    let cases: &[(&str, Option<&str>)] = &[
        ("/dev/sda", Some("sda")),
        ("/dev/sda1", Some("sda")),
        ("/dev/sdb3", Some("sdb")),
        ("/dev/vda", Some("vda")),
        ("/dev/vda1", Some("vda")),
        ("/dev/vdb2", Some("vdb")),
        ("/dev/xvda", Some("xvda")),
        ("/dev/xvda1", Some("xvda")),
        ("/dev/nvme0n1", Some("nvme0n1")),
        ("/dev/nvme0n1p1", Some("nvme0n1")),
        ("/dev/mmcblk0", Some("mmcblk0")),
        ("/dev/mmcblk0p1", Some("mmcblk0")),
        ("vda1", None),
        ("/dev/loop0", Some("loop0")),
    ];
    for (input, expected) in cases {
        let actual = parse_block_device_name(input);
        println!("CASE: {input} → {actual:?} (expected {expected:?})");
        assert_eq!(actual, *expected);
    }
}

struct TestVirtioDiskIsReclassified;

impl FsApi for TestVirtioDiskIsReclassified {
    fn canonicalize(path: &str) -> Option<String> {
        Some(path.to_string())
    }
    fn path_exists(path: &str) -> bool {
        let devices: &[&str] = &["/sys/block/vda"];
        devices.iter().any(|device| *device == path)
    }
    fn read_link(path: &str) -> Option<String> {
        let links: &[(&str, &str)] = &[("/sys/block/vda/device/driver", "/sys/bus/virtio/drivers/virtio_blk")];
        links
            .iter()
            .find(|(link, _)| *link == path)
            .map(|(_, target)| target.to_string())
    }
}

#[test]
fn test_virtio_disk_is_reclassified() {
    assert_eq!(
        reclassify_virtual_hdd::<TestVirtioDiskIsReclassified>(DiskKind::HDD, "/dev/vda1"),
        DiskKind::Unknown(-1),
    );
}

struct TestXenVbdDiskIsReclassified;

impl FsApi for TestXenVbdDiskIsReclassified {
    fn canonicalize(path: &str) -> Option<String> {
        Some(path.to_string())
    }
    fn path_exists(path: &str) -> bool {
        let devices: &[&str] = &["/sys/block/xvda"];
        devices.iter().any(|device| *device == path)
    }
    fn read_link(path: &str) -> Option<String> {
        let links: &[(&str, &str)] = &[("/sys/block/xvda/device/driver", "/sys/bus/xen/drivers/vbd")];
        links
            .iter()
            .find(|(link, _)| *link == path)
            .map(|(_, target)| target.to_string())
    }
}

#[test]
fn test_xen_vbd_disk_is_reclassified() {
    assert_eq!(
        reclassify_virtual_hdd::<TestXenVbdDiskIsReclassified>(DiskKind::HDD, "/dev/xvda1"),
        DiskKind::Unknown(-1),
    );
}

struct TestXenBlkfrontUnderscoreDiskIsReclassified;

impl FsApi for TestXenBlkfrontUnderscoreDiskIsReclassified {
    fn canonicalize(path: &str) -> Option<String> {
        Some(path.to_string())
    }
    fn path_exists(path: &str) -> bool {
        let devices: &[&str] = &["/sys/block/xvda"];
        devices.iter().any(|device| *device == path)
    }
    fn read_link(path: &str) -> Option<String> {
        let links: &[(&str, &str)] = &[("/sys/block/xvda/device/driver", "/sys/bus/xen/drivers/xen_blkfront")];
        links
            .iter()
            .find(|(link, _)| *link == path)
            .map(|(_, target)| target.to_string())
    }
}

#[test]
fn test_xen_blkfront_underscore_disk_is_reclassified() {
    assert_eq!(
        reclassify_virtual_hdd::<TestXenBlkfrontUnderscoreDiskIsReclassified>(DiskKind::HDD, "/dev/xvda1"),
        DiskKind::Unknown(-1),
    );
}

struct TestXenBlkfrontHyphenDiskIsReclassified;

impl FsApi for TestXenBlkfrontHyphenDiskIsReclassified {
    fn canonicalize(path: &str) -> Option<String> {
        Some(path.to_string())
    }
    fn path_exists(path: &str) -> bool {
        let devices: &[&str] = &["/sys/block/xvda"];
        devices.iter().any(|device| *device == path)
    }
    fn read_link(path: &str) -> Option<String> {
        let links: &[(&str, &str)] = &[("/sys/block/xvda/device/driver", "/sys/bus/xen/drivers/xen-blkfront")];
        links
            .iter()
            .find(|(link, _)| *link == path)
            .map(|(_, target)| target.to_string())
    }
}

#[test]
fn test_xen_blkfront_hyphen_disk_is_reclassified() {
    assert_eq!(
        reclassify_virtual_hdd::<TestXenBlkfrontHyphenDiskIsReclassified>(DiskKind::HDD, "/dev/xvda1"),
        DiskKind::Unknown(-1),
    );
}

struct TestVmwarePvscsiDiskIsReclassified;

impl FsApi for TestVmwarePvscsiDiskIsReclassified {
    fn canonicalize(path: &str) -> Option<String> {
        Some(path.to_string())
    }
    fn path_exists(path: &str) -> bool {
        let devices: &[&str] = &["/sys/block/sda"];
        devices.iter().any(|device| *device == path)
    }
    fn read_link(path: &str) -> Option<String> {
        let links: &[(&str, &str)] = &[("/sys/block/sda/device/driver", "/sys/bus/pci/drivers/vmw_pvscsi")];
        links
            .iter()
            .find(|(link, _)| *link == path)
            .map(|(_, target)| target.to_string())
    }
}

#[test]
fn test_vmware_pvscsi_disk_is_reclassified() {
    assert_eq!(
        reclassify_virtual_hdd::<TestVmwarePvscsiDiskIsReclassified>(DiskKind::HDD, "/dev/sda1"),
        DiskKind::Unknown(-1),
    );
}

struct TestHypervStorvscDiskIsReclassified;

impl FsApi for TestHypervStorvscDiskIsReclassified {
    fn canonicalize(path: &str) -> Option<String> {
        Some(path.to_string())
    }
    fn path_exists(path: &str) -> bool {
        let devices: &[&str] = &["/sys/block/sda"];
        devices.iter().any(|device| *device == path)
    }
    fn read_link(path: &str) -> Option<String> {
        let links: &[(&str, &str)] = &[("/sys/block/sda/device/driver", "/sys/bus/vmbus/drivers/hv_storvsc")];
        links
            .iter()
            .find(|(link, _)| *link == path)
            .map(|(_, target)| target.to_string())
    }
}

#[test]
fn test_hyperv_storvsc_disk_is_reclassified() {
    assert_eq!(
        reclassify_virtual_hdd::<TestHypervStorvscDiskIsReclassified>(DiskKind::HDD, "/dev/sda1"),
        DiskKind::Unknown(-1),
    );
}

struct TestPhysicalDiskStaysHdd;

impl FsApi for TestPhysicalDiskStaysHdd {
    fn canonicalize(path: &str) -> Option<String> {
        Some(path.to_string())
    }
    fn path_exists(path: &str) -> bool {
        let devices: &[&str] = &["/sys/block/sda"];
        devices.iter().any(|device| *device == path)
    }
    fn read_link(path: &str) -> Option<String> {
        let links: &[(&str, &str)] = &[("/sys/block/sda/device/driver", "/sys/bus/scsi/drivers/sd")];
        links
            .iter()
            .find(|(link, _)| *link == path)
            .map(|(_, target)| target.to_string())
    }
}

#[test]
fn test_physical_disk_stays_hdd() {
    assert_eq!(
        reclassify_virtual_hdd::<TestPhysicalDiskStaysHdd>(DiskKind::HDD, "/dev/sda1"),
        DiskKind::HDD,
    );
}

struct TestMapperSymlinkResolvesToVirtualPartition;

impl FsApi for TestMapperSymlinkResolvesToVirtualPartition {
    fn canonicalize(path: &str) -> Option<String> {
        [("/dev/mapper/vg0-lv0", "/dev/vda1")]
            .iter()
            .find(|(link, _)| *link == path)
            .map(|(_, target)| target.to_string())
    }
    fn path_exists(path: &str) -> bool {
        let devices: &[&str] = &["/sys/block/vda"];
        devices.iter().any(|device| *device == path)
    }
    fn read_link(path: &str) -> Option<String> {
        let links: &[(&str, &str)] = &[("/sys/block/vda/device/driver", "/sys/bus/virtio/drivers/virtio_blk")];
        links
            .iter()
            .find(|(link, _)| *link == path)
            .map(|(_, target)| target.to_string())
    }
}

#[test]
fn test_mapper_symlink_resolves_to_virtual_partition() {
    assert_eq!(
        reclassify_virtual_hdd::<TestMapperSymlinkResolvesToVirtualPartition>(DiskKind::HDD, "/dev/mapper/vg0-lv0"),
        DiskKind::Unknown(-1),
    );
}

struct TestMapperDmDeviceIsNotCorrected;

impl FsApi for TestMapperDmDeviceIsNotCorrected {
    fn canonicalize(path: &str) -> Option<String> {
        [("/dev/mapper/vg0-lv0", "/dev/dm-0")]
            .iter()
            .find(|(link, _)| *link == path)
            .map(|(_, target)| target.to_string())
    }
    fn path_exists(path: &str) -> bool {
        let devices: &[&str] = &[];
        devices.iter().any(|device| *device == path)
    }
    fn read_link(path: &str) -> Option<String> {
        let links: &[(&str, &str)] = &[];
        links
            .iter()
            .find(|(link, _)| *link == path)
            .map(|(_, target)| target.to_string())
    }
}

#[test]
fn test_mapper_dm_device_is_not_corrected() {
    assert_eq!(
        reclassify_virtual_hdd::<TestMapperDmDeviceIsNotCorrected>(DiskKind::HDD, "/dev/mapper/vg0-lv0"),
        DiskKind::HDD,
    );
}

/// A filesystem that must not be consulted.
struct Untouchable;

impl FsApi for Untouchable {
    fn canonicalize(_: &str) -> Option<String> {
        panic!("canonicalize should not be called for non-HDD disks");
    }
    fn path_exists(_: &str) -> bool {
        panic!("path_exists should not be called for non-HDD disks");
    }
    fn read_link(_: &str) -> Option<String> {
        panic!("read_link should not be called for non-HDD disks");
    }
}

#[test]
fn test_ssd_is_not_corrected() {
    assert_eq!(
        reclassify_virtual_hdd::<Untouchable>(DiskKind::SSD, "/dev/sda1"),
        DiskKind::SSD,
    );
}

#[test]
fn test_linux_real_sysfs_vda_does_not_panic() {
    if Path::new("/sys/block/vda").exists() {
        let _ = is_virtual_block_device::<RealFs>("vda");
    }
}

#[test]
fn test_linux_nonexistent_device_is_not_virtual() {
    assert!(
        !is_virtual_block_device::<RealFs>("nonexistent_device_xyz"),
        "non-existent device should not be detected as virtual"
    );
}

#[test]
fn test_linux_smoke_real_sysfs_vda_does_not_panic() {
    if Path::new("/sys/block/vda").exists() {
        let _ = is_virtual_block_device::<RealFs>("vda");
    }
}

#[test]
fn test_linux_smoke_nonexistent_device_is_not_virtual() {
    assert!(
        !is_virtual_block_device::<RealFs>("nonexistent_device_xyz"),
        "non-existent device should not be detected as virtual"
    );
}

#[test]
fn virtual_drivers_are_recognized() {
    for driver in ["virtio_blk", "vbd", "xen_blkfront", "xen-blkfront", "vmw_pvscsi", "hv_storvsc"] {
        assert!(is_virtual_driver(driver), "{driver}");
    }
    for driver in ["sd", "nvme", "ahci", ""] {
        assert!(!is_virtual_driver(driver), "{driver}");
    }
}

#[test]
fn block_device_is_validated_against_sysfs() {
    assert_eq!(validate_block_device::<TestVirtioDiskIsReclassified>("vda"), Some("vda"));
    assert_eq!(validate_block_device::<TestVirtioDiskIsReclassified>("vdb"), None);
}

#[test]
fn block_device_name_of_mapper_follows_its_link() {
    assert_eq!(
        extract_block_device_name::<TestMapperSymlinkResolvesToVirtualPartition>("/dev/mapper/vg0-lv0"),
        Some("vda".to_string()),
    );
    assert_eq!(
        extract_block_device_name::<TestMapperDmDeviceIsNotCorrected>("/dev/mapper/vg0-lv0"),
        None,
    );
}

#[test]
fn disk_without_name_keeps_its_kind() {
    let unnamed = DiskInfo {
        kind: DiskKind::HDD,
        name: None,
        mount_point: "/".to_string(),
    };
    assert!(is_hdd::<Untouchable>(&unnamed));
    let virtual_disk = disk(DiskKind::HDD, "/dev/vda1", "/");
    assert!(!is_hdd::<TestVirtioDiskIsReclassified>(&virtual_disk));
}

#[test]
fn thread_limit_follows_the_setting() {
    let disks = sample_disks();
    let on_hdd = vec!["/home/user".to_string()];
    let on_ssd = vec!["/usr/share".to_string()];
    assert_eq!(thread_limit::<EmptySysfs>(Threads::Auto, &on_hdd, &disks), Some(1));
    assert_eq!(thread_limit::<EmptySysfs>(Threads::Auto, &on_ssd, &disks), None);
    assert_eq!(thread_limit::<EmptySysfs>(Threads::Max, &on_hdd, &disks), None);
    assert_eq!(thread_limit::<EmptySysfs>(Threads::Fixed(3), &on_hdd, &disks), Some(3));
}

fn run_full_pipeline() {
    let Ok(disks) = sysinfo::Disks::new_with_refreshed_list() else {
        return;
    };
    for disk in disks.iter() {
        let name = disk.name().to_str().unwrap_or_default();
        if let Some(block_dev) = extract_block_device_name::<RealFs>(name) {
            let _ = is_virtual_block_device::<RealFs>(&block_dev);
        }
    }
}

#[test]
fn test_linux_full_pipeline_does_not_panic() {
    run_full_pipeline();
}

#[test]
fn test_linux_smoke_full_pipeline_does_not_panic() {
    run_full_pipeline();
}

#[test]
fn link_device_goes_on_with_a_different_canonical_path() {
    let link = "/dev/mapper/vg0-lv0";
    assert_eq!(resolved_device_path(link, None), None);
    assert_eq!(resolved_device_path(link, Some(link.to_string())), None);
    assert_eq!(
        resolved_device_path(link, Some("/dev/mapper/other".to_string())),
        Some("/dev/mapper/other".to_string()),
    );
    assert_eq!(
        resolved_device_path(link, Some("/dev/vda1".to_string())),
        Some("/dev/vda1".to_string()),
    );
}

/// `/dev/mapper/a` leads to `/dev/mapper/b`, which leads to `/dev/sda1`.
struct ChainedMapperLinks;

impl FsApi for ChainedMapperLinks {
    fn canonicalize(path: &str) -> Option<String> {
        [("/dev/mapper/a", "/dev/mapper/b"), ("/dev/mapper/b", "/dev/sda1"), ("/dev/root", "/dev/root")]
            .iter()
            .find(|(link, _)| *link == path)
            .map(|(_, target)| target.to_string())
    }
    fn path_exists(_: &str) -> bool {
        true
    }
    fn read_link(_: &str) -> Option<String> {
        None
    }
}

#[test]
fn chained_links_are_followed_to_the_device() {
    assert_eq!(
        extract_block_device_name::<ChainedMapperLinks>("/dev/mapper/a"),
        Some("sda".to_string()),
    );
    assert_eq!(extract_block_device_name::<ChainedMapperLinks>("/dev/root"), None);
    assert_eq!(extract_block_device_name::<ChainedMapperLinks>("/dev/mapper/none"), None);
}

#[test]
fn driver_link_target_is_judged_by_its_last_component() {
    assert!(driver_is_virtual("../../../../bus/virtio/drivers/virtio_blk"));
    assert!(driver_is_virtual("/sys/bus/xen/drivers/vbd"));
    assert!(!driver_is_virtual("../../../../bus/scsi/drivers/sd"));
    assert!(!driver_is_virtual("virtio_blk/.."));
    assert!(!driver_is_virtual("/"));
}
