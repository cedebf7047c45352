//! Storage detection: parsing of `/proc/mounts`, device names and the kernel's
//! rotational flag, the drive-letter and seek-penalty helpers for Windows
//! volumes, and the volume bookkeeping behind the reserve gate.
use vstd::prelude::*;

use crate::domain::models::MediaType;
use crate::exclusion::{components, path_components, path_under};
use crate::paths::parent_spec;
use crate::text::{
    chars_eq, chars_of, has_prefix, is_ascii_alpha, is_ascii_digit, lines, lines_of, slice_chars,
    starts_with, string_of, trim, trim_chars, views, words, words_of,
};

verus! {

// ---------------------------------------------------------------------------
// /proc/mounts
// ---------------------------------------------------------------------------

pub open spec fn dev_prefix() -> Seq<char> {
    seq!['/', 'd', 'e', 'v', '/']
}

/// `path` lies under the mount point `point`: `point` is a prefix of it that
/// ends at a component boundary (`/home` holds `/home/me`, not `/homework`).
pub open spec fn under_mount(path: Seq<char>, point: Seq<char>) -> bool {
    &&& has_prefix(path, point)
    &&& (point.len() > 0 && point.last() == '/') || (path.len() > point.len() && path[point.len() as int] == '/')
}

fn is_under_mount(path: &Vec<char>, point: &Vec<char>) -> (r: bool)
    ensures
        r == under_mount(path@, point@),
{
    if !starts_with(path, point) {
        return false;
    }
    if point.len() > 0 && point[point.len() - 1] == '/' {
        return true;
    }
    path.len() > point.len() && path[point.len()] == '/'
}

/// The device for `mount`, scanning `/proc/mounts` lines in order: the first
/// line whose mount point equals `mount` decides (a pseudo-filesystem there
/// resolves to nothing); otherwise the `/dev/` device whose mount point is the
/// longest one `mount` lies under (the first among equals).
pub open spec fn device_scan(ls: Seq<Seq<char>>, mount: Seq<char>, best: Option<(nat, Seq<char>)>) -> Option<
    Seq<char>,
>
    decreases ls.len(),
{
    if ls.len() == 0 {
        match best {
            Some(b) => Some(b.1),
            None => None,
        }
    } else {
        let w = words(ls[0]);
        let rest = ls.drop_first();
        if w.len() < 2 {
            device_scan(rest, mount, best)
        } else if mount == w[1] {
            if has_prefix(w[0], dev_prefix()) {
                Some(w[0])
            } else {
                None
            }
        } else if !has_prefix(w[0], dev_prefix()) {
            device_scan(rest, mount, best)
        } else if under_mount(mount, w[1]) && (best is None || w[1].len() > best.unwrap().0) {
            device_scan(rest, mount, Some((w[1].len(), w[0])))
        } else {
            device_scan(rest, mount, best)
        }
    }
}

pub open spec fn device_for_mount_spec(mounts: Seq<char>, mount: Seq<char>) -> Option<Seq<char>> {
    device_scan(lines(mounts), mount, None)
}

spec fn best_of(len: usize, dev: Option<Vec<char>>) -> Option<(nat, Seq<char>)> {
    match dev {
        Some(d) => Some((len as nat, d@)),
        None => None,
    }
}

fn dev_prefix_chars() -> (r: Vec<char>)
    ensures
        r@ == dev_prefix(),
{
    let mut r: Vec<char> = Vec::new();
    r.push('/');
    r.push('d');
    r.push('e');
    r.push('v');
    r.push('/');
    assert(r@ =~= dev_prefix());
    r
}

/// Find the device backing `mount` in `/proc/mounts` content.
///
/// Picks the longest matching mount point so a path under `/home` resolves to
/// the `/home` device rather than to `/`. Pseudo-filesystems are ignored
/// because only real `/dev/*` nodes have a rotational flag, and one mounted
/// exactly at `mount` resolves to nothing.
pub fn device_for_mount(mounts: &str, mount: &str) -> (r: Option<String>)
    ensures
        match r {
            Some(d) => device_for_mount_spec(mounts@, mount@) == Some(d@),
            None => device_for_mount_spec(mounts@, mount@) is None,
        },
{
    let m = chars_of(mount);
    let ls = lines_of(&chars_of(mounts));
    let dev = dev_prefix_chars();
    let ghost all = views(ls@);
    let mut best_len: usize = 0;
    let mut best_dev: Option<Vec<char>> = None;
    let mut i: usize = 0;
    assert(all.skip(0) =~= all);
    while i < ls.len()
        invariant
            i <= ls@.len(),
            all == views(ls@),
            dev@ == dev_prefix(),
            device_scan(
                all.skip(i as int),
                m@,
                best_of(best_len, best_dev),
            ) == device_for_mount_spec(mounts@, mount@),
        decreases ls@.len() - i,
    {
        let ghost rest = all.skip(i as int);
        assert(rest[0] == ls@[i as int]@);
        assert(rest.drop_first() =~= all.skip(i + 1));
        let w = words_of(&ls[i]);
        if w.len() >= 2 {
            let is_dev = starts_with(&w[0], &dev);
            if chars_eq(&m, &w[1]) {
                if is_dev {
                    return Some(string_of(&w[0]));
                } else {
                    return None;
                }
            }
            if is_dev && is_under_mount(&m, &w[1]) {
                let better = match &best_dev {
                    Some(_) => w[1].len() > best_len,
                    None => true,
                };
                if better {
                    best_len = w[1].len();
                    best_dev = Some(slice_chars(&w[0], 0, w[0].len()));
                    assert(w@[0]@.subrange(0, w@[0]@.len() as int) =~= w@[0]@);
                }
            }
        }
        i = i + 1;
    }
    match best_dev {
        Some(d) => Some(string_of(&d)),
        None => None,
    }
}

// ---------------------------------------------------------------------------
// Device names
// ---------------------------------------------------------------------------

pub open spec fn all_digits(s: Seq<char>) -> bool {
    forall|i: int| 0 <= i < s.len() ==> is_ascii_digit(#[trigger] s[i])
}

/// Number of trailing ASCII digits.
pub open spec fn trailing_digits(s: Seq<char>) -> nat
    decreases s.len(),
{
    if s.len() > 0 && is_ascii_digit(s.last()) {
        1 + trailing_digits(s.drop_last())
    } else {
        0
    }
}

/// Index of the last `c` in `s`, or -1.
pub open spec fn last_index(s: Seq<char>, c: char) -> int
    decreases s.len(),
{
    if s.len() == 0 {
        -1
    } else if s.last() == c {
        s.len() - 1
    } else {
        last_index(s.drop_last(), c)
    }
}

pub open spec fn uses_p_partitions(name: Seq<char>) -> bool {
    ||| has_prefix(name, seq!['n', 'v', 'm', 'e'])
    ||| has_prefix(name, seq!['m', 'm', 'c', 'b', 'l', 'k'])
    ||| has_prefix(name, seq!['l', 'o', 'o', 'p'])
}

/// The parent block device of a device path: `/dev/sda2` -> `sda`,
/// `/dev/nvme0n1p3` -> `nvme0n1`, `/dev/mmcblk0p1` -> `mmcblk0`.
pub open spec fn parent_block_device_spec(dev: Seq<char>) -> Option<Seq<char>> {
    if !has_prefix(dev, dev_prefix()) {
        None
    } else {
        let name = dev.skip(5);
        if name.len() == 0 {
            None
        } else if uses_p_partitions(name) {
            let idx = last_index(name, 'p');
            if idx > 0 && name.len() > idx + 1 && all_digits(name.skip(idx + 1)) {
                Some(name.take(idx))
            } else {
                Some(name)
            }
        } else {
            let base = name.take(name.len() - trailing_digits(name));
            if base.len() == 0 {
                None
            } else {
                Some(base)
            }
        }
    }
}

proof fn lemma_last_index(s: Seq<char>, c: char, k: int)
    requires
        -1 <= k < s.len(),
        k >= 0 ==> s[k] == c,
        forall|j: int| k < j < s.len() ==> s[j] != c,
    ensures
        last_index(s, c) == k,
    decreases s.len(),
{
    if s.len() > 0 && s.last() != c {
        lemma_last_index(s.drop_last(), c, k);
    }
}

proof fn lemma_trailing_digits(s: Seq<char>, k: int)
    requires
        0 <= k <= s.len(),
        forall|j: int| s.len() - k <= j < s.len() ==> is_ascii_digit(#[trigger] s[j]),
        k == s.len() || !is_ascii_digit(s[s.len() - k - 1]),
    ensures
        trailing_digits(s) == k,
    decreases k,
{
    if k > 0 {
        lemma_trailing_digits(s.drop_last(), k - 1);
    }
}

fn lit(s: &str) -> (r: Vec<char>)
    ensures
        r@ == s@,
{
    chars_of(s)
}

/// Reduce a partition device path to its parent block device name.
///
/// Devices using the `p<N>` partition convention (nvme, mmcblk, loop) are
/// handled separately from those with plain trailing digits, because
/// `nvme0n1` ends in a digit that is part of the device name.
pub fn parent_block_device(dev: &str) -> (r: Option<String>)
    ensures
        match r {
            Some(d) => parent_block_device_spec(dev@) == Some(d@),
            None => parent_block_device_spec(dev@) is None,
        },
{
    let d = chars_of(dev);
    let prefix = dev_prefix_chars();
    if !starts_with(&d, &prefix) {
        return None;
    }
    let name = slice_chars(&d, 5, d.len());
    assert(name@ =~= d@.skip(5));
    if name.len() == 0 {
        return None;
    }
    let nvme = lit("nvme");
    let mmc = lit("mmcblk");
    let lp = lit("loop");
    proof {
        reveal_strlit("nvme");
        reveal_strlit("mmcblk");
        reveal_strlit("loop");
        assert(nvme@ =~= seq!['n', 'v', 'm', 'e']);
        assert(mmc@ =~= seq!['m', 'm', 'c', 'b', 'l', 'k']);
        assert(lp@ =~= seq!['l', 'o', 'o', 'p']);
    }
    if starts_with(&name, &nvme) || starts_with(&name, &mmc) || starts_with(&name, &lp) {
        let mut k = name.len();
        while k > 0 && name[k - 1] != 'p'
            invariant
                k <= name@.len(),
                forall|j: int| k <= j < name@.len() ==> name@[j] != 'p',
            decreases k,
        {
            k = k - 1;
        }
        proof {
            lemma_last_index(name@, 'p', k - 1);
        }
        if k > 1 && name.len() > k {
            let mut j = k;
            let mut digits = true;
            while j < name.len()
                invariant
                    k <= j <= name@.len(),
                    digits == forall|x: int| k <= x < j ==> is_ascii_digit(#[trigger] name@[x]),
                decreases name@.len() - j,
            {
                if !('0' <= name[j] && name[j] <= '9') {
                    digits = false;
                }
                j = j + 1;
            }
            proof {
                let tail = name@.skip(k as int);
                if digits {
                    assert forall|i: int| 0 <= i < tail.len() implies is_ascii_digit(#[trigger] tail[i]) by {
                        assert(tail[i] == name@[k + i]);
                    }
                } else {
                    let x = choose|x: int| k <= x < name@.len() && !is_ascii_digit(#[trigger] name@[x]);
                    assert(tail[x - k] == name@[x]);
                }
            }
            if digits {
                let base = slice_chars(&name, 0, k - 1);
                assert(base@ =~= name@.take(k - 1));
                return Some(string_of(&base));
            }
        }
        return Some(string_of(&name));
    }
    let mut b = name.len();
    while b > 0 && '0' <= name[b - 1] && name[b - 1] <= '9'
        invariant
            b <= name@.len(),
            forall|j: int| b <= j < name@.len() ==> is_ascii_digit(#[trigger] name@[j]),
        decreases b,
    {
        b = b - 1;
    }
    proof {
        lemma_trailing_digits(name@, name@.len() - b);
    }
    if b == 0 {
        return None;
    }
    let base = slice_chars(&name, 0, b);
    assert(base@ =~= name@.take(b as int));
    Some(string_of(&base))
}

/// The kernel `rotational` flag: `0` is solid state, `1` spinning platters,
/// anything else unknown (surrounding whitespace ignored).
pub open spec fn parse_rotational_spec(raw: Seq<char>) -> MediaType {
    let t = trim(raw);
    if t == seq!['0'] {
        MediaType::Ssd
    } else if t == seq!['1'] {
        MediaType::Hdd
    } else {
        MediaType::Unknown
    }
}

/// Interpret the kernel `rotational` flag (1 = spinning platters, 0 = solid state).
pub fn parse_rotational(raw: &str) -> (r: MediaType)
    ensures
        r == parse_rotational_spec(raw@),
{
    let t = trim_chars(&chars_of(raw));
    if t.len() == 1 && t[0] == '0' {
        assert(t@ =~= seq!['0']);
        return MediaType::Ssd;
    }
    if t.len() == 1 && t[0] == '1' {
        assert(t@ =~= seq!['1']);
        return MediaType::Hdd;
    }
    proof {
        if t@ == seq!['0'] || t@ == seq!['1'] {
            assert(t@.len() == 1);
        }
    }
    MediaType::Unknown
}

/// `DEVICE_SEEK_PENALTY_DESCRIPTOR.IncursSeekPenalty`: any non-zero value
/// means rotational platters.
pub fn seek_penalty_to_media(incurs_seek_penalty: u8) -> (r: MediaType)
    ensures
        r == (if incurs_seek_penalty == 0 {
            MediaType::Ssd
        } else {
            MediaType::Hdd
        }),
{
    if incurs_seek_penalty == 0 {
        MediaType::Ssd
    } else {
        MediaType::Hdd
    }
}

/// The drive letter of a mount point like `C:\`, upper-cased.
pub fn drive_letter(mount: &str) -> (r: Option<char>)
    ensures
        r == (if mount@.len() >= 2 && is_ascii_alpha(mount@[0]) && mount@[1] == ':' {
            Some(crate::text::ascii_upper_char(mount@[0]))
        } else {
            None::<char>
        }),
{
    let m = chars_of(mount);
    if m.len() >= 2 && (('a' <= m[0] && m[0] <= 'z') || ('A' <= m[0] && m[0] <= 'Z')) && m[1] == ':' {
        Some(crate::text::to_ascii_upper_char(m[0]))
    } else {
        None
    }
}

/// A mount point with its trailing separators removed, so `/home/` and
/// `/home` select the same volume; a bare `/` stays addressable.
pub open spec fn trailing_slashes(s: Seq<char>) -> nat
    decreases s.len(),
{
    if s.len() > 0 && (s.last() == '/' || s.last() == '\\') {
        1 + trailing_slashes(s.drop_last())
    } else {
        0
    }
}

pub open spec fn normalize_mount_spec(s: Seq<char>) -> Seq<char> {
    let t = s.take(s.len() - trailing_slashes(s));
    if t.len() == 0 {
        seq!['/']
    } else {
        t
    }
}

proof fn lemma_trailing_slashes(s: Seq<char>, k: int)
    requires
        0 <= k <= s.len(),
        forall|j: int| s.len() - k <= j < s.len() ==> (s[j] == '/' || s[j] == '\\'),
        k == s.len() || !(s[s.len() - k - 1] == '/' || s[s.len() - k - 1] == '\\'),
    ensures
        trailing_slashes(s) == k,
    decreases k,
{
    if k > 0 {
        lemma_trailing_slashes(s.drop_last(), k - 1);
    }
}

/// Normalize a user-supplied mount point for comparison.
pub fn normalize_mount(mount: &str) -> (r: String)
    ensures
        r@ == normalize_mount_spec(mount@),
{
    let m = chars_of(mount);
    let mut n = m.len();
    while n > 0 && (m[n - 1] == '/' || m[n - 1] == '\\')
        invariant
            n <= m@.len(),
            forall|j: int| n <= j < m@.len() ==> (m@[j] == '/' || m@[j] == '\\'),
        decreases n,
    {
        n = n - 1;
    }
    proof {
        lemma_trailing_slashes(m@, m@.len() - n);
    }
    if n == 0 {
        let mut r: Vec<char> = Vec::new();
        r.push('/');
        assert(r@ =~= seq!['/']);
        return string_of(&r);
    }
    let t = slice_chars(&m, 0, n);
    assert(t@ =~= m@.take(n as int));
    string_of(&t)
}

// ---------------------------------------------------------------------------
// Volumes
// ---------------------------------------------------------------------------

/// A mounted volume, and how much room it has.
#[derive(Debug, Clone, PartialEq, Eq)]
pub struct VolumeSpace {
    pub mount: String,
    pub total_bytes: u64,
    pub available_bytes: u64,
}

impl DeepView for VolumeSpace {
    type V = (Seq<char>, u64, u64);

    open spec fn deep_view(&self) -> (Seq<char>, u64, u64) {
        (self.mount@, self.total_bytes, self.available_bytes)
    }
}

impl VolumeSpace {
    /// A copy with the same mount and figures.
    pub fn duplicate(&self) -> (r: VolumeSpace)
        ensures
            r.deep_view() == self.deep_view(),
    {
        VolumeSpace {
            mount: self.mount.clone(),
            total_bytes: self.total_bytes,
            available_bytes: self.available_bytes,
        }
    }
}

/// Two paths with the same components name the same place.
pub open spec fn same_path(a: Seq<char>, b: Seq<char>) -> bool {
    path_components(a) == path_components(b)
}

fn is_same_path(a: &str, b: &str) -> (r: bool)
    ensures
        r == same_path(a@, b@),
{
    let ca = components(&chars_of(a));
    let cb = components(&chars_of(b));
    if ca.len() != cb.len() {
        assert(views(ca@).len() != views(cb@).len());
        return false;
    }
    let mut i: usize = 0;
    while i < ca.len()
        invariant
            ca@.len() == cb@.len(),
            views(ca@) == path_components(a@),
            views(cb@) == path_components(b@),
            i <= ca@.len(),
            forall|j: int| 0 <= j < i ==> ca@[j]@ == cb@[j]@,
        decreases ca@.len() - i,
    {
        if !chars_eq(&ca[i], &cb[i]) {
            assert(views(ca@)[i as int] != views(cb@)[i as int]);
            return false;
        }
        i = i + 1;
    }
    assert(views(ca@) =~= views(cb@));
    true
}

/// Walk the resolved volumes in order, counting each volume (by mount) once.
pub open spec fn distinct_volumes(v: Seq<Option<VolumeSpace>>, seen: Seq<Seq<char>>, total: int) -> (
    int,
    Seq<Seq<char>>,
)
    decreases v.len(),
{
    if v.len() == 0 {
        (total, seen)
    } else {
        match v[0] {
            Some(s) => if exists|k: int| 0 <= k < seen.len() && same_path(seen[k], s.mount@) {
                distinct_volumes(v.drop_first(), seen, total)
            } else {
                distinct_volumes(v.drop_first(), seen.push(s.mount@), total + s.total_bytes)
            },
            None => distinct_volumes(v.drop_first(), seen, total),
        }
    }
}

/// The walk's total never falls below the total it started from.
proof fn lemma_distinct_bounded(v: Seq<Option<VolumeSpace>>, seen: Seq<Seq<char>>, total: int)
    ensures
        distinct_volumes(v, seen, total).0 >= total,
    decreases v.len(),
{
    if v.len() > 0 {
        let rest = v.drop_first();
        match v[0] {
            Some(s) => {
                lemma_distinct_bounded(rest, seen, total);
                lemma_distinct_bounded(rest, seen.push(s.mount@), total + s.total_bytes);
            },
            None => {
                lemma_distinct_bounded(rest, seen, total);
            },
        }
    }
}

fn seen_contains(seen: &Vec<String>, m: &str) -> (r: bool)
    ensures
        r == exists|k: int| 0 <= k < seen@.len() && same_path(seen.deep_view()[k], m@),
{
    let mut i: usize = 0;
    while i < seen.len()
        invariant
            i <= seen@.len(),
            forall|k: int| 0 <= k < i ==> !same_path(seen.deep_view()[k], m@),
        decreases seen@.len() - i,
    {
        assert(seen.deep_view()[i as int] == seen@[i as int]@);
        if is_same_path(seen[i].as_str(), m) {
            return true;
        }
        i = i + 1;
    }
    false
}

/// Summed capacity of the volumes the given paths resolved to, counting a
/// volume once however many paths land on it, with the distinct mounts in
/// first-seen order. `None` when no path resolved.
pub fn volumes_total_for(resolved: &Vec<Option<VolumeSpace>>) -> (r: Option<(u64, Vec<String>)>)
    requires
        distinct_volumes(resolved@, Seq::empty(), 0).0 <= u64::MAX,
    ensures
        match r {
            Some((total, mounts)) => mounts@.len() > 0 && total == distinct_volumes(
                resolved@,
                Seq::empty(),
                0,
            ).0 && mounts.deep_view() == distinct_volumes(resolved@, Seq::empty(), 0).1,
            None => distinct_volumes(resolved@, Seq::empty(), 0).1.len() == 0,
        },
{
    let mut seen: Vec<String> = Vec::new();
    let mut total: u64 = 0;
    let mut i: usize = 0;
    proof {
        lemma_distinct_bounded(resolved@, Seq::empty(), 0);
        assert(resolved@.skip(0) =~= resolved@);
        assert(seen.deep_view() =~= Seq::<Seq<char>>::empty());
    }
    while i < resolved.len()
        invariant
            i <= resolved@.len(),
            distinct_volumes(resolved@, Seq::empty(), 0).0 <= u64::MAX,
            distinct_volumes(resolved@.skip(i as int), seen.deep_view(), total as int)
                == distinct_volumes(resolved@, Seq::empty(), 0),
        decreases resolved@.len() - i,
    {
        let ghost rest = resolved@.skip(i as int);
        assert(rest[0] == resolved@[i as int]);
        assert(rest.drop_first() =~= resolved@.skip(i + 1));
        match &resolved[i] {
            Some(v) => {
                if !seen_contains(&seen, v.mount.as_str()) {
                    proof {
                        lemma_distinct_bounded(rest.drop_first(), seen.deep_view().push(v.mount@), total + v.total_bytes);
                    }
                    let ghost prev = seen.deep_view();
                    seen.push(v.mount.clone());
                    assert(seen.deep_view() =~= prev.push(v.mount@));
                    total = total + v.total_bytes;
                }
            },
            None => {},
        }
        i = i + 1;
    }
    assert(resolved@.skip(resolved@.len() as int) =~= Seq::<Option<VolumeSpace>>::empty());
    if seen.len() == 0 {
        None
    } else {
        Some((total, seen))
    }
}

/// Resolve a path to the first volume whose mount point and the candidate
/// contain one another; the candidate is the path's parent (or the path
/// itself), then that candidate's parent.
pub open spec fn hits(disks: Seq<VolumeSpace>, candidate: Seq<char>) -> Option<VolumeSpace>
    decreases disks.len(),
{
    if disks.len() == 0 {
        None
    } else if same_path(disks[0].mount@, candidate) || path_under(disks[0].mount@, candidate)
        || path_under(candidate, disks[0].mount@) {
        Some(disks[0])
    } else {
        hits(disks.drop_first(), candidate)
    }
}

pub open spec fn volume_of_spec(disks: Seq<VolumeSpace>, path: Seq<char>) -> Option<VolumeSpace> {
    let mount = match parent_spec(path) {
        Some(p) => p,
        None => path,
    };
    match hits(disks, mount) {
        Some(v) => Some(v),
        None => match parent_spec(mount) {
            Some(pp) => hits(disks, pp),
            None => None,
        },
    }
}

fn find_hit(disks: &Vec<VolumeSpace>, candidate: &str) -> (r: Option<usize>)
    ensures
        match r {
            Some(i) => i < disks@.len() && hits(disks@, candidate@) == Some(disks@[i as int]),
            None => hits(disks@, candidate@) is None,
        },
{
    let mut i: usize = 0;
    assert(disks@.skip(0) =~= disks@);
    while i < disks.len()
        invariant
            i <= disks@.len(),
            hits(disks@.skip(i as int), candidate@) == hits(disks@, candidate@),
        decreases disks@.len() - i,
    {
        let m = disks[i].mount.as_str();
        let ghost rest = disks@.skip(i as int);
        assert(rest[0] == disks@[i as int]);
        assert(rest.drop_first() =~= disks@.skip(i + 1));
        if is_same_path(m, candidate) || crate::exclusion::is_under(m, candidate)
            || crate::exclusion::is_under(candidate, m) {
            return Some(i);
        }
        i = i + 1;
    }
    None
}

/// The volume holding `path`, among `disks`, or `None` when none matches.
pub fn volume_of(disks: &Vec<VolumeSpace>, path: &str) -> (r: Option<VolumeSpace>)
    ensures
        r.deep_view() == volume_of_spec(disks@, path@).deep_view(),
{
    let mount = match crate::paths::parent_of(path) {
        Some(p) => p,
        None => path.to_owned(),
    };
    match find_hit(disks, mount.as_str()) {
        Some(i) => Some(disks[i].duplicate()),
        None => match crate::paths::parent_of(mount.as_str()) {
            Some(pp) => match find_hit(disks, pp.as_str()) {
                Some(j) => Some(disks[j].duplicate()),
                None => None,
            },
            None => None,
        },
    }
}

/// Free bytes on the volume holding the index, or 0 when nothing matches.
pub fn free_bytes_on_index_volume(disks: &Vec<VolumeSpace>, index_db_path: &str) -> (r: u64)
    ensures
        r == match volume_of_spec(disks@, index_db_path@) {
            Some(v) => v.available_bytes,
            None => 0,
        },
{
    match volume_of(disks, index_db_path) {
        Some(v) => v.available_bytes,
        None => 0,
    }
}

} // verus!
