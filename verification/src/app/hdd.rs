use super::mount_point::{find_mount_point, mount_point_index, string_views};
use crate::path_ops::{file_name, join, joined_path, path_equals, path_eq, path_file_name};
use crate::text::{char_is_digit, chars_of, chars_start_with, has_prefix, is_digit, str_equal};
use vstd::prelude::*;

verus! {

/// The kind of a disk, as the system reports it.
#[derive(Debug, Clone, Copy, PartialEq, Eq, Structural)]
pub enum DiskKind {
    /// HDD type.
    HDD,
    /// SSD type.
    SSD,
    /// Unknown type.
    Unknown(isize),
}

/// What the library reads of a mounted disk.
#[derive(Debug, Clone)]
pub struct DiskInfo {
    /// The kind the system reports.
    pub kind: DiskKind,
    /// The device name, when it is valid UTF-8 (such as `/dev/sda1`).
    pub name: Option<String>,
    /// Where the disk is mounted.
    pub mount_point: String,
}

/// Mockable interface to filesystem operations.
///
/// Abstracts system calls like canonicalizing a path, testing whether a path
/// exists, and reading a symbolic link, so tests can substitute an
/// in-memory fake. Paths are UTF-8 strings; `None` stands for an error or
/// for a result that is not valid UTF-8.
pub trait FsApi {
    fn canonicalize(path: &str) -> Option<String>;
    fn path_exists(path: &str) -> bool;
    fn read_link(path: &str) -> Option<String>;
}

/// Sentinel value used to reclassify virtual block devices that were
/// falsely reported as [`DiskKind::HDD`].
pub open spec fn virtual_disk_kind() -> DiskKind {
    DiskKind::Unknown(-1isize)
}

/// `/dev/`
pub open spec fn dev_prefix() -> Seq<char> {
    seq!['/', 'd', 'e', 'v', '/']
}

/// `/dev/mapper/`
pub open spec fn mapper_prefix() -> Seq<char> {
    seq!['/', 'd', 'e', 'v', '/', 'm', 'a', 'p', 'p', 'e', 'r', '/']
}

/// `/dev/root`
pub open spec fn root_prefix() -> Seq<char> {
    seq!['/', 'd', 'e', 'v', '/', 'r', 'o', 'o', 't']
}

/// `name` with its trailing ASCII digits removed.
pub open spec fn trim_trailing_digits(name: Seq<char>) -> Seq<char>
    decreases name.len(),
{
    if name.len() > 0 && is_digit(name.last()) {
        trim_trailing_digits(name.drop_last())
    } else {
        name
    }
}

/// The position of the last `c` in `s`, or -1.
pub open spec fn last_index_of(s: Seq<char>, c: char) -> int
    decreases s.len(),
{
    if s.len() == 0 {
        -1
    } else if s.last() == c {
        s.len() - 1
    } else {
        last_index_of(s.drop_last(), c)
    }
}

/// Every character of `s` is an ASCII digit.
pub open spec fn all_digits(s: Seq<char>) -> bool {
    forall|i: int| 0 <= i < s.len() ==> is_digit(#[trigger] s[i])
}

/// The base block device name of a device path: `None` without the `/dev/`
/// prefix; for `sd*`, `vd*` and `xvd*` the name without its trailing digits;
/// for `nvme*` and `mmcblk*` the part before the last `p` when both parts
/// are non-empty and the part after it is all digits; otherwise the name.
pub open spec fn block_device_name(device_path: Seq<char>) -> Option<Seq<char>> {
    if !has_prefix(device_path, dev_prefix()) {
        None
    } else {
        let name = device_path.skip(5);
        if has_prefix(name, seq!['s', 'd']) || has_prefix(name, seq!['v', 'd']) || has_prefix(
            name,
            seq!['x', 'v', 'd'],
        ) {
            Some(trim_trailing_digits(name))
        } else if has_prefix(name, seq!['n', 'v', 'm', 'e']) || has_prefix(
            name,
            seq!['m', 'm', 'c', 'b', 'l', 'k'],
        ) {
            let p = last_index_of(name, 'p');
            if p > 0 && p + 1 < name.len() && all_digits(name.skip(p + 1)) {
                Some(name.take(p))
            } else {
                Some(name)
            }
        } else {
            Some(name)
        }
    }
}

/// `/dev/mapper/…` and `/dev/root…` devices are symbolic links to resolve.
pub open spec fn is_linked_device(device_path: Seq<char>) -> bool {
    has_prefix(device_path, mapper_prefix()) || has_prefix(device_path, root_prefix())
}

/// The drivers of virtual block devices.
pub open spec fn virtual_drivers() -> Seq<Seq<char>> {
    seq![
        "virtio_blk"@,
        "virtio-blk"@,
        "xen_blkfront"@,
        "xen-blkfront"@,
        "vbd"@,
        "vmw_pvscsi"@,
        "hv_storvsc"@,
    ]
}

/// `/sys/block/<block_dev>`, where sysfs lists a block device.
pub open spec fn sysfs_block_path(block_dev: Seq<char>) -> Seq<char> {
    joined_path("/sys/block"@, block_dev)
}

/// `/sys/block/<block_dev>/device/driver`, the link to the driver of a block
/// device.
pub open spec fn driver_link_path(block_dev: Seq<char>) -> Seq<char> {
    joined_path(sysfs_block_path(block_dev), "device/driver"@)
}

/// The text of an optional string.
pub open spec fn text_of(text: Option<String>) -> Option<Seq<char>> {
    match text {
        Some(t) => Some(t@),
        None => None,
    }
}

/// `Fs::path_exists` was asked about `path` and answered `exists`.
pub open spec fn path_exists_answer<Fs: FsApi>(path: Seq<char>, exists: bool) -> bool {
    exists|p: &str| p@ == path && #[trigger] call_ensures(Fs::path_exists, (p,), exists)
}

/// `Fs::canonicalize` was asked about `path` and answered `canonical`.
pub open spec fn canonicalize_answer<Fs: FsApi>(path: Seq<char>, canonical: Option<Seq<char>>) -> bool {
    exists|p: &str, r: Option<String>|
        p@ == path && #[trigger] call_ensures(Fs::canonicalize, (p,), r) && text_of(r) == canonical
}

/// `Fs::read_link` was asked about `path` and answered `target`.
pub open spec fn read_link_answer<Fs: FsApi>(path: Seq<char>, target: Option<Seq<char>>) -> bool {
    exists|p: &str, r: Option<String>|
        p@ == path && #[trigger] call_ensures(Fs::read_link, (p,), r) && text_of(r) == target
}

/// The last component of `target` names a known virtual block device driver.
pub open spec fn names_virtual_driver(target: Seq<char>) -> bool {
    path_file_name(target) matches Some(driver) && virtual_drivers().contains(driver)
}

/// The path to go on with from a device path that is a link, from what
/// canonicalizing it gave: the canonical path, unless canonicalizing failed
/// or gave the link itself back.
pub open spec fn resolved_path(device_path: Seq<char>, canonical: Option<Seq<char>>) -> Option<Seq<char>> {
    match canonical {
        Some(path) => if path != device_path {
            Some(path)
        } else {
            None
        },
        None => None,
    }
}

/// The most links that are followed in a row: `u64::MAX`.
pub open spec fn max_link_steps() -> nat {
    0xffff_ffff_ffff_ffffnat
}

/// `result` is what validating the block device name of `device_path`
/// against sysfs gives, with the answers of `Fs`: `None` where the path has
/// no block device name; otherwise that name, exactly when `Fs` answered
/// that `/sys/block/<name>` exists.
pub open spec fn validated_name<Fs: FsApi>(device_path: Seq<char>, result: Option<Seq<char>>) -> bool {
    match block_device_name(device_path) {
        None => result is None,
        Some(name) => path_exists_answer::<Fs>(sysfs_block_path(name), result is Some) && (
        result matches Some(b) ==> b == name),
    }
}

/// `result` is the block device name of `device_path`, with the answers of
/// `Fs`, following at most `steps` links: a path that is not a link is
/// validated as it is; a link is canonicalized, and the block device name of
/// the resolved path, if any, is extracted in turn. Past `steps` links there
/// is none.
pub open spec fn extracted_name_within<Fs: FsApi>(
    device_path: Seq<char>,
    steps: nat,
    result: Option<Seq<char>>,
) -> bool
    decreases steps,
{
    if !is_linked_device(device_path) {
        validated_name::<Fs>(device_path, result)
    } else if steps == 0 {
        result is None
    } else {
        exists|canonical: Option<Seq<char>>|
            #[trigger] canonicalize_answer::<Fs>(device_path, canonical) && match resolved_path(
                device_path,
                canonical,
            ) {
                None => result is None,
                Some(resolved) => extracted_name_within::<Fs>(resolved, (steps - 1) as nat, result),
            }
    }
}

/// `result` is the block device name of `device_path`, with the answers of
/// `Fs`, following links as far as [`max_link_steps`].
pub open spec fn extracted_name<Fs: FsApi>(device_path: Seq<char>, result: Option<Seq<char>>) -> bool {
    extracted_name_within::<Fs>(device_path, max_link_steps(), result)
}

/// `is_virtual` is what the driver check of `block_dev` gives, with the
/// answers of `Fs`: `Fs` was asked for the target of the driver link of the
/// device, and the device is virtual exactly when there is a target and it
/// names a virtual driver.
pub open spec fn virtual_answer<Fs: FsApi>(block_dev: Seq<char>, is_virtual: bool) -> bool {
    exists|target: Option<Seq<char>>|
        #[trigger] read_link_answer::<Fs>(driver_link_path(block_dev), target) && is_virtual == (
        target matches Some(t) && names_virtual_driver(t))
}

/// `result` is the kind of a disk of reported kind `kind` named
/// `disk_name`, with the answers of `Fs`: a kind other than HDD stays; an
/// HDD becomes [`virtual_disk_kind`] exactly when its block device was found
/// and its driver is virtual.
pub open spec fn reclassified_kind<Fs: FsApi>(kind: DiskKind, disk_name: Seq<char>, result: DiskKind) -> bool {
    if kind != DiskKind::HDD {
        result == kind
    } else {
        exists|block_dev: Option<Seq<char>>|
            #[trigger] extracted_name_within::<Fs>(disk_name, max_link_steps(), block_dev) && match block_dev {
                None => result == DiskKind::HDD,
                Some(b) => exists|is_virtual: bool|
                    #[trigger] virtual_answer::<Fs>(b, is_virtual) && result == (if is_virtual {
                        virtual_disk_kind()
                    } else {
                        DiskKind::HDD
                    }),
            }
    }
}

/// `hdd` is whether `disk` counts as an HDD, with the answers of `Fs`: a
/// disk without a readable name counts when it is reported as an HDD; a
/// named one when its reclassified kind is HDD.
pub open spec fn hdd_answer<Fs: FsApi>(disk: DiskInfo, hdd: bool) -> bool {
    match disk.name {
        None => hdd == (disk.kind == DiskKind::HDD),
        Some(name) => exists|kind: DiskKind|
            #[trigger] reclassified_kind::<Fs>(disk.kind, name@, kind) && hdd == (kind
                == DiskKind::HDD),
    }
}

proof fn lemma_trim_step(name: Seq<char>)
    requires
        name.len() > 0,
        is_digit(name.last()),
    ensures
        trim_trailing_digits(name) == trim_trailing_digits(name.drop_last()),
{
}

/// What removing the trailing digits of `name` leaves: a prefix of it that
/// does not end in a digit, followed in `name` by digits only.
proof fn lemma_trailing_digits_removed(name: Seq<char>)
    ensures
        ({
            let base = trim_trailing_digits(name);
            &&& base.len() <= name.len()
            &&& name.take(base.len() as int) == base
            &&& base.len() == 0 || !is_digit(base.last())
            &&& forall|i: int| base.len() <= i < name.len() ==> is_digit(#[trigger] name[i])
        }),
    decreases name.len(),
{
    if name.len() > 0 && is_digit(name.last()) {
        let rest = name.drop_last();
        lemma_trailing_digits_removed(rest);
        let base = trim_trailing_digits(rest);
        assert(name.take(base.len() as int) =~= rest.take(base.len() as int));
        assert forall|i: int| base.len() <= i < name.len() implies is_digit(#[trigger] name[i]) by {
            if i < rest.len() {
                assert(name[i] == rest[i]);
            }
        }
    } else {
        assert(name.take(name.len() as int) =~= name);
    }
}

/// For an `sd`, `vd` or `xvd` device, the block device name is the device
/// name with all its trailing partition digits removed: a prefix of the
/// device name that does not end in a digit, after which the device name
/// has only digits.
pub proof fn lemma_disk_name_strips_partition_digits(device_path: Seq<char>)
    requires
        has_prefix(device_path, dev_prefix()),
        has_prefix(device_path.skip(5), seq!['s', 'd']) || has_prefix(device_path.skip(5), seq!['v', 'd'])
            || has_prefix(device_path.skip(5), seq!['x', 'v', 'd']),
    ensures
        block_device_name(device_path) matches Some(base) && {
            let name = device_path.skip(5);
            &&& base.len() <= name.len()
            &&& name.take(base.len() as int) == base
            &&& base.len() == 0 || !is_digit(base.last())
            &&& forall|i: int| base.len() <= i < name.len() ==> is_digit(#[trigger] name[i])
        },
{
    lemma_trailing_digits_removed(device_path.skip(5));
}

/// The last `c` of `s` is where `last_index_of` says, and no `c` comes
/// after it; where it says -1 there is no `c` at all.
proof fn lemma_last_index_of(s: Seq<char>, c: char)
    ensures
        -1 <= last_index_of(s, c) < s.len(),
        last_index_of(s, c) >= 0 ==> s[last_index_of(s, c)] == c,
        forall|i: int| last_index_of(s, c) < i < s.len() ==> #[trigger] s[i] != c,
    decreases s.len(),
{
    if s.len() > 0 && s.last() != c {
        let rest = s.drop_last();
        lemma_last_index_of(rest, c);
        assert forall|i: int| last_index_of(s, c) < i < s.len() implies #[trigger] s[i] != c by {
            if i < rest.len() {
                assert(s[i] == rest[i]);
            }
        }
    }
}

/// For an `nvme` or `mmcblk` device, the block device name is the device
/// name without its partition suffix: where the device name ends in `p`
/// and one or more digits, after a non-empty base, the base; otherwise the
/// whole device name.
pub proof fn lemma_nvme_name_strips_partition_suffix(device_path: Seq<char>)
    requires
        has_prefix(device_path, dev_prefix()),
        !(has_prefix(device_path.skip(5), seq!['s', 'd']) || has_prefix(device_path.skip(5), seq!['v', 'd'])
            || has_prefix(device_path.skip(5), seq!['x', 'v', 'd'])),
        has_prefix(device_path.skip(5), seq!['n', 'v', 'm', 'e']) || has_prefix(
            device_path.skip(5),
            seq!['m', 'm', 'c', 'b', 'l', 'k'],
        ),
    ensures
        block_device_name(device_path) matches Some(base) && {
            let name = device_path.skip(5);
            &&& base.len() <= name.len()
            &&& name.take(base.len() as int) == base
            &&& base.len() < name.len() ==> {
                &&& base.len() > 0
                &&& name[base.len() as int] == 'p'
                &&& base.len() + 1 < name.len()
                &&& forall|i: int| base.len() < i < name.len() ==> is_digit(#[trigger] name[i])
            }
            &&& (exists|q: int|
                0 < q && q + 1 < name.len() && #[trigger] name[q] == 'p' && forall|i: int|
                    q < i < name.len() ==> is_digit(#[trigger] name[i])) ==> base.len()
                < name.len()
        },
{
    let name = device_path.skip(5);
    lemma_last_index_of(name, 'p');
    let p = last_index_of(name, 'p');
    assert(name.take(name.len() as int) =~= name);
    if p > 0 && p + 1 < name.len() && all_digits(name.skip(p + 1)) {
        assert forall|i: int| p < i < name.len() implies is_digit(#[trigger] name[i]) by {
            assert(name.skip(p + 1)[i - p - 1] == name[i]);
        }
    } else {
        if exists|q: int|
            0 < q && q + 1 < name.len() && #[trigger] name[q] == 'p' && forall|i: int|
                q < i < name.len() ==> is_digit(#[trigger] name[i]) {
            let q = choose|q: int|
                0 < q && q + 1 < name.len() && #[trigger] name[q] == 'p' && forall|i: int|
                    q < i < name.len() ==> is_digit(#[trigger] name[i]);
            if p > q {
                assert(is_digit(name[p]));
            }
            assert(p >= q);
            if p < q {
                assert(name[q] != 'p');
            }
            assert(p == q);
            assert forall|k: int| 0 <= k < name.skip(p + 1).len() implies is_digit(
                #[trigger] name.skip(p + 1)[k],
            ) by {
                assert(name.skip(p + 1)[k] == name[k + p + 1]);
            }
            assert(false);
        }
    }
}

/// Parse the base block device name from a device path (pure string parsing).
///
/// This function performs no I/O; it only strips the `/dev/` prefix and
/// partition suffixes to recover the base block device name.
pub fn parse_block_device_name(device_path: &str) -> (name: Option<&str>)
    ensures
        match block_device_name(device_path@) {
            None => name is None,
            Some(n) => name matches Some(s) && s@ == n,
        },
{
    let chars = chars_of(device_path);
    let dev = ['/', 'd', 'e', 'v', '/'];
    if !chars_start_with(chars.as_slice(), &dev) {
        return None;
    }
    let len = chars.len();
    let ghost name = device_path@.skip(5);
    let mut name_chars: Vec<char> = Vec::new();
    for i in 5..len
        invariant
            len == chars@.len(),
            chars@ == device_path@,
            5 <= len,
            name_chars@ == chars@.subrange(5, i as int),
    {
        name_chars.push(chars[i]);
        proof {
            assert(chars@.subrange(5, i + 1) =~= chars@.subrange(5, i as int).push(chars@[i as int]));
        }
    }
    proof {
        assert(name_chars@ =~= name);
    }
    let sd = ['s', 'd'];
    let vd = ['v', 'd'];
    let xvd = ['x', 'v', 'd'];
    let nvme = ['n', 'v', 'm', 'e'];
    let mmcblk = ['m', 'm', 'c', 'b', 'l', 'k'];
    let name_len = name_chars.len();
    proof {
        assert(name.take(name_len as int) =~= name);
    }
    if chars_start_with(name_chars.as_slice(), &sd) || chars_start_with(name_chars.as_slice(), &vd)
        || chars_start_with(name_chars.as_slice(), &xvd) {
        // Strip trailing partition digits: "sda1" → "sda", "vda1" → "vda"
        let mut end = name_len;
        while end > 0 && char_is_digit(name_chars[end - 1])
            invariant
                end <= name_len,
                name_len == name.len(),
                name_chars@ == name,
                trim_trailing_digits(name) == trim_trailing_digits(name.take(end as int)),
            decreases end,
        {
            proof {
                assert(name.take(end as int).drop_last() =~= name.take(end - 1));
                lemma_trim_step(name.take(end as int));
            }
            end = end - 1;
        }
        return Some(device_path.substring_char(5, 5 + end));
    } else if chars_start_with(name_chars.as_slice(), &nvme) || chars_start_with(
        name_chars.as_slice(),
        &mmcblk,
    ) {
        // Strip partition suffix: "nvme0n1p1" → "nvme0n1", "mmcblk0p1" → "mmcblk0"
        let mut i = name_len;
        while i > 0 && name_chars[i - 1] != 'p'
            invariant
                i <= name_len,
                name_len == name.len(),
                name_chars@ == name,
                last_index_of(name, 'p') == last_index_of(name.take(i as int), 'p'),
            decreases i,
        {
            proof {
                assert(name.take(i as int).drop_last() =~= name.take(i - 1));
            }
            i = i - 1;
        }
        proof {
            if i > 0 {
                assert(name.take(i as int).last() == 'p');
            }
        }
        // `i - 1` is the position of the last 'p', if any
        if i > 1 && i < name_len {
            let mut all = true;
            let mut j = i;
            while j < name_len
                invariant
                    i <= j <= name_len,
                    name_len == name.len(),
                    name_chars@ == name,
                    all == forall|k: int| i <= k < j ==> is_digit(name[k]),
                decreases name_len - j,
            {
                all = all && char_is_digit(name_chars[j]);
                j = j + 1;
            }
            proof {
                let suffix = name.skip(i as int);
                if all {
                    assert forall|k: int| 0 <= k < suffix.len() implies is_digit(#[trigger] suffix[k]) by {
                        assert(suffix[k] == name[k + i]);
                        assert(is_digit(name[k + i]));
                    }
                } else {
                    let k = choose|k: int| i <= k < name_len && !is_digit(name[k]);
                    assert(suffix[k - i] == name[k]);
                }
                assert(all == all_digits(suffix));
            }
            if all {
                return Some(device_path.substring_char(5, 5 + (i - 1)));
            }
        }
        return Some(device_path.substring_char(5, len));
    }
    Some(device_path.substring_char(5, len))
}

/// Verify that a block device exists in sysfs.
///
/// Returns `Some(block_dev)` if `/sys/block/<block_dev>` exists, `None` otherwise.
pub fn validate_block_device<'a, Fs: FsApi>(block_dev: &'a str) -> (valid: Option<&'a str>)
    ensures
        path_exists_answer::<Fs>(sysfs_block_path(block_dev@), valid is Some),
        valid matches Some(v) ==> v@ == block_dev@,
{
    let path = join("/sys/block", block_dev);
    let path_text = path.as_str();
    let exists = Fs::path_exists(path_text);
    proof {
        assert(call_ensures(Fs::path_exists, (path_text,), exists));
    }
    if exists {
        Some(block_dev)
    } else {
        None
    }
}

/// Parse and validate, for a device path that is not a link.
fn parse_and_validate<Fs: FsApi>(device_path: &str) -> (block_dev: Option<String>)
    ensures
        validated_name::<Fs>(device_path@, text_of(block_dev)),
{
    match parse_block_device_name(device_path) {
        None => None,
        Some(name) => match validate_block_device::<Fs>(name) {
            None => None,
            Some(valid) => Some(String::from_str(valid)),
        },
    }
}

/// Whether `text` is a device path that is a link to resolve.
fn is_linked_device_path(text: &str) -> (linked: bool)
    ensures
        linked == is_linked_device(text@),
{
    let chars = chars_of(text);
    let mapper = ['/', 'd', 'e', 'v', '/', 'm', 'a', 'p', 'p', 'e', 'r', '/'];
    let root = ['/', 'd', 'e', 'v', '/', 'r', 'o', 'o', 't'];
    chars_start_with(chars.as_slice(), &mapper) || chars_start_with(chars.as_slice(), &root)
}

/// The path to go on with from a device path that is a link, from what
/// canonicalizing it gave: the canonical path, unless canonicalizing failed
/// or gave the link itself back.
pub fn resolved_device_path(device_path: &str, canonical: Option<String>) -> (resolved: Option<String>)
    ensures
        resolved == (match canonical {
            Some(path) => if path@ != device_path@ {
                Some(path)
            } else {
                None::<String>
            },
            None => None::<String>,
        }),
        text_of(resolved) == resolved_path(device_path@, text_of(canonical)),
{
    match canonical {
        None => None,
        Some(path) => {
            if str_equal(path.as_str(), device_path) {
                None
            } else {
                Some(path)
            }
        },
    }
}

/// Resolve a device path through symlinks and then parse the block device name.
///
/// Handles `/dev/mapper/xxx` symlinks and `/dev/root` by following them via
/// `canonicalize`, then delegates to [`parse_block_device_name`] for parsing
/// and [`validate_block_device`] to verify the device exists in sysfs.
///
/// A canonical path that is a link again is resolved in turn, up to
/// [`max_link_steps`] links in a row.
///
/// **Known limitation:** on real LVM setups, `/dev/mapper/vg0-lv0`
/// canonicalizes to a device-mapper device such as `/dev/dm-0`, which has no
/// driver link in sysfs, so virtual-disk correction does nothing for LVM
/// volumes.
pub fn extract_block_device_name<Fs: FsApi>(device_path: &str) -> (block_dev: Option<String>)
    ensures
        extracted_name::<Fs>(device_path@, text_of(block_dev)),
{
    let mut current = String::from_str(device_path);
    let mut steps: u64 = 0xffff_ffff_ffff_ffff;
    loop
        invariant
            forall|result: Option<Seq<char>>|
                #[trigger] extracted_name_within::<Fs>(current@, steps as nat, result)
                    ==> extracted_name::<Fs>(device_path@, result),
        decreases steps,
    {
        if !is_linked_device_path(current.as_str()) {
            let block_dev = parse_and_validate::<Fs>(current.as_str());
            proof {
                assert(extracted_name_within::<Fs>(current@, steps as nat, text_of(block_dev)));
            }
            return block_dev;
        }
        if steps == 0 {
            proof {
                assert(extracted_name_within::<Fs>(current@, 0, None));
            }
            return None;
        }
        let path = current.as_str();
        let canonical = Fs::canonicalize(path);
        proof {
            assert(call_ensures(Fs::canonicalize, (path,), canonical));
            assert(canonicalize_answer::<Fs>(current@, text_of(canonical)));
        }
        match resolved_device_path(path, canonical) {
            None => {
                proof {
                    assert(extracted_name_within::<Fs>(current@, steps as nat, None));
                }
                return None;
            },
            Some(next) => {
                let ghost next_view = next@;
                let ghost old_steps = steps;
                proof {
                    assert forall|result: Option<Seq<char>>|
                        #[trigger] extracted_name_within::<Fs>(next@, (steps - 1) as nat, result)
                            implies extracted_name::<Fs>(device_path@, result) by {
                        assert(is_linked_device(current@));
                        assert(resolved_path(current@, text_of(canonical)) == Some(next@));
                        assert(extracted_name_within::<Fs>(current@, steps as nat, result));
                    }
                }
                current = next;
                steps = steps - 1;
                proof {
                    assert forall|result: Option<Seq<char>>|
                        #[trigger] extracted_name_within::<Fs>(current@, steps as nat, result)
                            implies extracted_name::<Fs>(device_path@, result) by {
                        assert(extracted_name_within::<Fs>(next_view, (old_steps - 1) as nat, result));
                    }
                }
            },
        }
    }
}

/// Whether `name` is the name of a known virtual block device driver.
pub fn is_virtual_driver(name: &str) -> (is_virtual: bool)
    ensures
        is_virtual == virtual_drivers().contains(name@),
{
    let drivers = [
        "virtio_blk",
        "virtio-blk",
        "xen_blkfront",
        "xen-blkfront",
        "vbd",
        "vmw_pvscsi",
        "hv_storvsc",
    ];
    proof {
        assert(drivers@.map_values(|d: &str| d@) =~= virtual_drivers());
    }
    let mut i: usize = 0;
    while i < 7
        invariant
            i <= 7,
            drivers@.map_values(|d: &str| d@) == virtual_drivers(),
            forall|k: int| 0 <= k < i ==> virtual_drivers()[k] != name@,
        decreases 7 - i,
    {
        if str_equal(name, drivers[i]) {
            proof {
                assert(virtual_drivers()[i as int] == name@);
            }
            return true;
        }
        i = i + 1;
    }
    false
}

/// Whether the target of a driver link names a known virtual block device
/// driver in its last component.
pub fn driver_is_virtual(target: &str) -> (is_virtual: bool)
    ensures
        is_virtual == names_virtual_driver(target@),
{
    match file_name(target) {
        None => false,
        Some(driver) => is_virtual_driver(driver.as_str()),
    }
}

/// Check if a block device is backed by a virtual driver.
///
/// Reads the driver symlink at `/sys/block/<dev>/device/driver` and checks
/// if its last component names a known virtual block device driver.
pub fn is_virtual_block_device<Fs: FsApi>(block_dev: &str) -> (is_virtual: bool)
    ensures
        virtual_answer::<Fs>(block_dev@, is_virtual),
{
    let device = join("/sys/block", block_dev);
    let driver_path = join(device.as_str(), "device/driver");
    let driver_text = driver_path.as_str();
    let target = Fs::read_link(driver_text);
    proof {
        assert(call_ensures(Fs::read_link, (driver_text,), target));
        assert(read_link_answer::<Fs>(driver_link_path(block_dev@), text_of(target)));
    }
    match target {
        None => false,
        Some(target) => driver_is_virtual(target.as_str()),
    }
}

/// On Linux, the `rotational` sysfs flag defaults to `1` for virtual block devices
/// (e.g. VirtIO, Xen) because the kernel cannot determine the backing storage type.
/// This causes disks to be falsely reported as HDDs.
///
/// This function checks the block device's driver via sysfs and reclassifies
/// known virtual drivers as `Unknown(-1)` instead of `HDD`.
pub fn reclassify_virtual_hdd<Fs: FsApi>(kind: DiskKind, disk_name: &str) -> (reclassified: DiskKind)
    ensures
        reclassified_kind::<Fs>(kind, disk_name@, reclassified),
        kind != DiskKind::HDD ==> reclassified == kind,
        kind == DiskKind::HDD ==> reclassified == DiskKind::HDD || reclassified == virtual_disk_kind(),
{
    if kind != DiskKind::HDD {
        return kind;
    }
    let block_dev = extract_block_device_name::<Fs>(disk_name);
    match block_dev {
        None => {
            proof {
                assert(extracted_name_within::<Fs>(disk_name@, max_link_steps(), None));
                assert(reclassified_kind::<Fs>(kind, disk_name@, DiskKind::HDD));
            }
            DiskKind::HDD
        },
        Some(name) => {
            let is_virtual = is_virtual_block_device::<Fs>(name.as_str());
            let reclassified = if is_virtual {
                DiskKind::Unknown(-1)
            } else {
                DiskKind::HDD
            };
            proof {
                let found = Some(name@);
                assert(exists|answer: bool|
                    #[trigger] virtual_answer::<Fs>(name@, answer) && reclassified == (if answer {
                        virtual_disk_kind()
                    } else {
                        DiskKind::HDD
                    }));
                assert(extracted_name_within::<Fs>(disk_name@, max_link_steps(), found));
                assert(found->0 == name@);
                assert(reclassified_kind::<Fs>(kind, disk_name@, reclassified));
            }
            reclassified
        },
    }
}

/// Check if a disk is an HDD after applying platform-specific corrections.
pub fn is_hdd<Fs: FsApi>(disk: &DiskInfo) -> (hdd: bool)
    ensures
        hdd_answer::<Fs>(*disk, hdd),
        hdd ==> disk.kind == DiskKind::HDD,
        disk.kind == DiskKind::HDD && disk.name is None ==> hdd,
{
    match &disk.name {
        Some(name) => {
            let kind = reclassify_virtual_hdd::<Fs>(disk.kind, name.as_str());
            proof {
                assert(reclassified_kind::<Fs>(disk.kind, name@, kind));
            }
            kind == DiskKind::HDD
        },
        None => disk.kind == DiskKind::HDD,
    }
}

/// The mount points of the disks.
pub open spec fn mount_points_of(disks: Seq<DiskInfo>) -> Seq<Seq<char>> {
    disks.map_values(|disk: DiskInfo| disk.mount_point@)
}

/// The disk at `index` is mounted at the mount point of `path`.
pub open spec fn holds_path(path: Seq<char>, disks: Seq<DiskInfo>, index: int) -> bool {
    match mount_point_index(path, mount_points_of(disks)) {
        None => false,
        Some(m) => path_equals(disks[index].mount_point@, disks[m].mount_point@),
    }
}

/// `in_hdd` is whether `path` is in an HDD, with the answers of `Fs`: when
/// it is, a disk mounted at the mount point of `path` counts as an HDD; when
/// it is not, every such disk was asked and does not.
pub open spec fn in_hdd_answer<Fs: FsApi>(path: Seq<char>, disks: Seq<DiskInfo>, in_hdd: bool) -> bool {
    &&& in_hdd ==> exists|i: int|
        0 <= i < disks.len() && holds_path(path, disks, i) && #[trigger] hdd_answer::<Fs>(
            disks[i],
            true,
        )
    &&& !in_hdd ==> forall|i: int|
        0 <= i < disks.len() && #[trigger] holds_path(path, disks, i) ==> hdd_answer::<Fs>(
            disks[i],
            false,
        )
}

/// `in_hdd` is what checking the argument `path` gives, with the answers of
/// `Fs`: it was canonicalized; a path that could not be is in no HDD, and a
/// canonical path is checked by [`in_hdd_answer`].
pub open spec fn argument_in_hdd_answer<Fs: FsApi>(path: Seq<char>, disks: Seq<DiskInfo>, in_hdd: bool) -> bool {
    exists|canonical: Option<Seq<char>>|
        #[trigger] canonicalize_answer::<Fs>(path, canonical) && match canonical {
            None => !in_hdd,
            Some(c) => in_hdd_answer::<Fs>(c, disks, in_hdd),
        }
}

/// `in_hdd` is whether any of `paths` is in an HDD, with the answers of
/// `Fs`: when it is, one of them was found in an HDD; when it is not, every
/// one of them was checked and found in none.
pub open spec fn any_in_hdd_answer<Fs: FsApi>(paths: Seq<String>, disks: Seq<DiskInfo>, in_hdd: bool) -> bool {
    &&& in_hdd ==> exists|i: int|
        0 <= i < paths.len() && #[trigger] argument_in_hdd_answer::<Fs>(paths[i]@, disks, true)
    &&& !in_hdd ==> forall|i: int|
        0 <= i < paths.len() ==> #[trigger] argument_in_hdd_answer::<Fs>(paths[i]@, disks, false)
}

/// Check if path is in any HDD.
///
/// The disks mounted at the mount point of `path` are checked with
/// [`is_hdd`]: the answer is `true` only when one of them is reported as an
/// HDD, and it is `true` when one of them is reported as an HDD and has no
/// readable name.
pub fn path_is_in_hdd<Fs: FsApi>(path: &str, disks: &[DiskInfo]) -> (in_hdd: bool)
    ensures
        in_hdd_answer::<Fs>(path@, disks@, in_hdd),
        in_hdd ==> exists|i: int|
            0 <= i < disks@.len() && holds_path(path@, disks@, i) && disks@[i].kind
                == DiskKind::HDD,
        (exists|i: int|
            0 <= i < disks@.len() && holds_path(path@, disks@, i) && disks@[i].kind
                == DiskKind::HDD && disks@[i].name is None) ==> in_hdd,
{
    let mut mount_points: Vec<String> = Vec::new();
    let len = disks.len();
    for i in 0..len
        invariant
            len == disks@.len(),
            mount_points@.len() == i,
            string_views(mount_points@) == mount_points_of(disks@).take(i as int),
    {
        let mount_point = disks[i].mount_point.clone();
        let ghost before = mount_points@;
        mount_points.push(mount_point);
        proof {
            assert forall|k: int| 0 <= k < i + 1 implies #[trigger] string_views(mount_points@)[k]
                == mount_points_of(disks@).take(i + 1)[k] by {
                if k < i {
                    assert(mount_points@[k] == before[k]);
                    assert(string_views(before)[k] == mount_points_of(disks@).take(i as int)[k]);
                }
            }
            assert(string_views(mount_points@) =~= mount_points_of(disks@).take(i + 1));
        }
    }
    proof {
        assert(mount_points_of(disks@).take(len as int) =~= mount_points_of(disks@));
    }
    let mount_point = match find_mount_point(path, mount_points.as_slice()) {
        None => return false,
        Some(mount_point) => mount_point,
    };
    proof {
        crate::app::mount_point::lemma_mount_point_index_contains(path@, mount_points_of(disks@));
        let m = mount_point_index(path@, mount_points_of(disks@))->0;
        assert(string_views(mount_points@)[m] == mount_points@[m]@);
        assert(mount_points_of(disks@)[m] == disks@[m].mount_point@);
    }
    for i in 0..len
        invariant
            len == disks@.len(),
            string_views(mount_points@) == mount_points_of(disks@),
            mount_point_index(path@, mount_points_of(disks@)) matches Some(m) && mount_point@
                == disks@[m].mount_point@,
            forall|k: int|
                0 <= k < i && holds_path(path@, disks@, k) ==> !(disks@[k].kind == DiskKind::HDD
                    && disks@[k].name is None),
            forall|k: int|
                0 <= k < i && #[trigger] holds_path(path@, disks@, k) ==> hdd_answer::<Fs>(
                    disks@[k],
                    false,
                ),
    {
        if path_eq(disks[i].mount_point.as_str(), mount_point) {
            proof {
                assert(holds_path(path@, disks@, i as int));
            }
            let hdd = is_hdd::<Fs>(&disks[i]);
            if hdd {
                return true;
            }
        }
    }
    false
}

/// Check if any path is in any HDD.
///
/// Each path is canonicalized through `Fs`; paths that cannot be are
/// skipped, and the others are checked with [`path_is_in_hdd`].
pub fn any_path_is_in_hdd<Fs: FsApi>(paths: &[String], disks: &[DiskInfo]) -> (in_hdd: bool)
    ensures
        any_in_hdd_answer::<Fs>(paths@, disks@, in_hdd),
        in_hdd ==> exists|path: Seq<char>, i: int|
            0 <= i < disks@.len() && holds_path(path, disks@, i) && disks@[i].kind
                == DiskKind::HDD,
        paths@.len() == 0 ==> !in_hdd,
{
    let len = paths.len();
    for i in 0..len
        invariant
            len == paths@.len(),
            forall|k: int|
                0 <= k < i ==> #[trigger] argument_in_hdd_answer::<Fs>(paths@[k]@, disks@, false),
    {
        let argument = paths[i].as_str();
        let canonical = Fs::canonicalize(argument);
        proof {
            assert(call_ensures(Fs::canonicalize, (argument,), canonical));
            assert(canonicalize_answer::<Fs>(paths@[i as int]@, text_of(canonical)));
        }
        match canonical {
            None => {
                proof {
                    assert(argument_in_hdd_answer::<Fs>(paths@[i as int]@, disks@, false));
                }
            },
            Some(path) => {
                let in_hdd = path_is_in_hdd::<Fs>(path.as_str(), disks);
                proof {
                    assert(argument_in_hdd_answer::<Fs>(paths@[i as int]@, disks@, in_hdd));
                }
                if in_hdd {
                    return true;
                }
            },
        }
    }
    false
}

} // verus!
