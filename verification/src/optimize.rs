//! Drive maintenance: TRIM for solid-state volumes, defrag for rotational ones.
//!
//! The action is chosen from the detected media type and never guessed: an
//! undetectable drive gets no maintenance at all, and a solid-state volume is
//! never defragmented (defrag rewrites large amounts of data, which on flash
//! burns write cycles for no seek benefit).
use vstd::prelude::*;

use crate::domain::models::{MaintenanceAction, MediaType, OptimizeOutcome, VolumeInfo};
use crate::storage::{parse_rotational, parse_rotational_spec};
use crate::text::{
    ascii_lower, chars_of, contains, has_infix, lines, lines_of, owned, push_str, string_of, to_ascii_lower,
    trim, trim_chars, views,
};

verus! {

pub open spec fn unknown_media_reason() -> Seq<char> {
    "media type could not be determined; refusing to guess (defragmenting an SSD would wear it for no benefit)"@
}

/// The maintenance action for a media type: TRIM for solid state, defrag for
/// rotational, nothing for unknown media.
pub open spec fn action_for_spec(media: MediaType) -> MaintenanceAction {
    match media {
        MediaType::Ssd => MaintenanceAction::Trim,
        MediaType::Hdd => MaintenanceAction::Defrag,
        MediaType::Unknown => MaintenanceAction::Unsupported(
            arbitrary(),
        ),
    }
}

/// Choose the maintenance action for a media type.
///
/// This is the safety gate for the whole feature:
/// - solid-state -> TRIM, never defrag (defrag would burn write cycles)
/// - rotational -> defrag, which is where fragmentation actually costs seeks
/// - unknown -> nothing, because acting on a guess could mean defragging flash
pub fn action_for(media: MediaType) -> (r: MaintenanceAction)
    ensures
        media == MediaType::Ssd ==> r == MaintenanceAction::Trim,
        media == MediaType::Hdd ==> r == MaintenanceAction::Defrag,
        media == MediaType::Unknown ==> (r matches MaintenanceAction::Unsupported(reason) && reason@
            == unknown_media_reason()),
{
    match media {
        MediaType::Ssd => MaintenanceAction::Trim,
        MediaType::Hdd => MaintenanceAction::Defrag,
        MediaType::Unknown => MaintenanceAction::Unsupported(
            owned(
                "media type could not be determined; refusing to guess (defragmenting an SSD would wear it for no benefit)",
            ),
        ),
    }
}

/// A solid-state volume is never defragmented, and an unknown one gets no
/// maintenance at all.
pub proof fn lemma_ssd_never_defragmented(media: MediaType, r: MaintenanceAction)
    requires
        media == MediaType::Ssd ==> r == MaintenanceAction::Trim,
        media == MediaType::Hdd ==> r == MaintenanceAction::Defrag,
        media == MediaType::Unknown ==> r is Unsupported,
    ensures
        r == MaintenanceAction::Defrag ==> media == MediaType::Hdd,
        r == MaintenanceAction::Trim ==> media == MediaType::Ssd,
        media != MediaType::Hdd ==> r != MaintenanceAction::Defrag,
{
}

pub open spec fn permission_message() -> Seq<char> {
    "permission denied \u{2014} fstrim requires root (try sudo)"@
}

/// The first line that is not blank once trimmed, trimmed.
pub open spec fn first_nonblank(ls: Seq<Seq<char>>) -> Option<Seq<char>>
    decreases ls.len(),
{
    if ls.len() == 0 {
        None
    } else if trim(ls[0]).len() > 0 {
        Some(trim(ls[0]))
    } else {
        first_nonblank(ls.drop_first())
    }
}

/// One actionable line for a tool failure: a permission problem becomes the
/// instruction to run as root; anything else keeps its first meaningful line
/// (or the whole text when every line is blank).
pub open spec fn summarize_error_spec(raw: Seq<char>) -> Seq<char> {
    let lower = ascii_lower(raw);
    if has_infix(lower, "access denied"@) || has_infix(lower, "access is denied"@) || has_infix(
        lower,
        "permission denied"@,
    ) || has_infix(lower, "operation not permitted"@) {
        permission_message()
    } else {
        match first_nonblank(lines(raw)) {
            Some(l) => l,
            None => raw,
        }
    }
}

/// Reduce a tool failure to one actionable line.
///
/// `fstrim` fails with a multi-line trace when the user is not root; that is
/// by far the most common failure, so it is translated into a single
/// instruction instead of dumped verbatim.
pub fn summarize_error(raw: &str) -> (r: String)
    ensures
        r@ == summarize_error_spec(raw@),
{
    let v = chars_of(raw);
    let lower = to_ascii_lower(&v);
    if contains(&lower, &chars_of("access denied")) || contains(&lower, &chars_of("access is denied"))
        || contains(&lower, &chars_of("permission denied")) || contains(
        &lower,
        &chars_of("operation not permitted"),
    ) {
        return owned("permission denied \u{2014} fstrim requires root (try sudo)");
    }
    let ls = lines_of(&v);
    let ghost all = views(ls@);
    let mut i: usize = 0;
    assert(all.skip(0) =~= all);
    while i < ls.len()
        invariant
            i <= ls@.len(),
            all == views(ls@),
            all == lines(raw@),
            v@ == raw@,
            first_nonblank(all.skip(i as int)) == first_nonblank(lines(raw@)),
            summarize_error_spec(raw@) == match first_nonblank(lines(raw@)) {
                Some(l) => l,
                None => raw@,
            },
        decreases ls@.len() - i,
    {
        let t = trim_chars(&ls[i]);
        assert(all.skip(i as int)[0] == ls@[i as int]@);
        assert(all.skip(i as int).drop_first() =~= all.skip(i + 1));
        if t.len() > 0 {
            return string_of(&t);
        }
        i = i + 1;
    }
    assert(all.skip(i as int) =~= Seq::<Seq<char>>::empty());
    owned(raw)
}

pub open spec fn action_description_spec(action: MaintenanceAction, mount: Seq<char>) -> Seq<char> {
    match action {
        MaintenanceAction::Trim => "re-issue TRIM for unused blocks on "@ + mount + " (solid-state)"@,
        MaintenanceAction::Defrag => "defragment "@ + mount + " (rotational) \u{2014} this can take a long time"@,
        MaintenanceAction::Unsupported(reason) => reason@,
    }
}

/// Human-readable description of what an action will do, for the consent prompt.
pub fn action_description(action: &MaintenanceAction, mount: &str) -> (r: String)
    ensures
        r@ == action_description_spec(*action, mount@),
{
    let mut out: Vec<char> = Vec::new();
    match action {
        MaintenanceAction::Trim => {
            push_str(&mut out, "re-issue TRIM for unused blocks on ");
            push_str(&mut out, mount);
            push_str(&mut out, " (solid-state)");
        },
        MaintenanceAction::Defrag => {
            push_str(&mut out, "defragment ");
            push_str(&mut out, mount);
            push_str(&mut out, " (rotational) \u{2014} this can take a long time");
        },
        MaintenanceAction::Unsupported(reason) => {
            push_str(&mut out, reason.as_str());
        },
    }
    assert(out@ =~= action_description_spec(*action, mount@));
    string_of(&out)
}

/// The media type behind a volume, from the kernel's `rotational` flag of its
/// parent block device (`None` when the device or its flag could not be read).
pub fn media_type(rotational_flag: Option<&str>) -> (r: MediaType)
    ensures
        r == match rotational_flag {
            Some(s) => parse_rotational_spec(s@),
            None => MediaType::Unknown,
        },
{
    match rotational_flag {
        Some(s) => parse_rotational(s),
        None => MediaType::Unknown,
    }
}

/// The sysfs file holding the `rotational` flag of the block device behind
/// `mount`, resolved through `/proc/mounts` content; `None` when the mount
/// has no block device.
pub open spec fn rotational_flag_path_spec(mounts: Seq<char>, mount: Seq<char>) -> Option<Seq<char>> {
    match crate::storage::device_for_mount_spec(mounts, mount) {
        Some(dev) => match crate::storage::parent_block_device_spec(dev) {
            Some(base) => Some("/sys/block/"@ + base + "/queue/rotational"@),
            None => None,
        },
        None => None,
    }
}

pub fn rotational_flag_path(mounts: &str, mount: &str) -> (r: Option<String>)
    ensures
        match r {
            Some(p) => rotational_flag_path_spec(mounts@, mount@) == Some(p@),
            None => rotational_flag_path_spec(mounts@, mount@) is None,
        },
{
    let dev = match crate::storage::device_for_mount(mounts, mount) {
        Some(d) => d,
        None => return None,
    };
    let base = match crate::storage::parent_block_device(dev.as_str()) {
        Some(b) => b,
        None => return None,
    };
    let mut out: Vec<char> = Vec::new();
    push_str(&mut out, "/sys/block/");
    push_str(&mut out, base.as_str());
    push_str(&mut out, "/queue/rotational");
    assert(out@ =~= "/sys/block/"@ + base@ + "/queue/rotational"@);
    Some(string_of(&out))
}

pub open spec fn flag_media(content: Option<String>) -> MediaType {
    match content {
        Some(s) => parse_rotational_spec(s@),
        None => MediaType::Unknown,
    }
}

/// The media type behind `mount`: its block device is resolved through
/// `/proc/mounts` content, and `read` reads that device's `rotational` flag.
/// Anything unresolvable or unreadable is unknown media, so the caller
/// refuses to act rather than guessing.
pub fn media_for_mount<F: Fn(&str) -> Option<String>>(mounts: &str, mount: &str, read: F) -> (r: MediaType)
    requires
        forall|p: &str| #[trigger] read.requires((p,)),
    ensures
        rotational_flag_path_spec(mounts@, mount@) is None ==> r == MediaType::Unknown,
        rotational_flag_path_spec(mounts@, mount@) matches Some(path) ==> exists|p: &str, c: Option<String>|
            p@ == path && #[trigger] read.ensures((p,), c) && r == flag_media(c),
{
    match rotational_flag_path(mounts, mount) {
        None => MediaType::Unknown,
        Some(path) => {
            let p = path.as_str();
            let content = read(p);
            let m = match &content {
                Some(s) => parse_rotational(s.as_str()),
                None => MediaType::Unknown,
            };
            assert(read.ensures((p,), content));
            m
        },
    }
}

/// Service that plans and runs volume maintenance.
pub struct OptimizeService;

/// The outcome of running `action` on `volume`: what the tool reported, or
/// its failure summarized into one line.
pub open spec fn outcome_ok(o: OptimizeOutcome, volume: VolumeInfo, action: MaintenanceAction, dry_run: bool, result: Result<String, String>) -> bool {
    &&& o.volume.mount@ == volume.mount@
    &&& o.volume.media == volume.media
    &&& o.action == action
    &&& match result {
        Ok(m) => o.succeeded && o.applied == !dry_run && o.message@ == m@,
        Err(e) => !o.succeeded && !o.applied && o.message@ == summarize_error_spec(e@),
    }
}

impl OptimizeService {
    /// Create an optimize service. It holds no state; media is probed per call.
    pub fn new() -> (r: OptimizeService) {
        OptimizeService
    }

    /// The volumes sweep can maintain: the mounted ones with a non-zero size,
    /// each with its detected media type, in the order given.
    pub fn volumes(&self, mounted: &Vec<(VolumeInfo, u64)>) -> (r: Vec<VolumeInfo>)
        ensures
            r@.map_values(|v: VolumeInfo| (v.mount@, v.media)) == mounted@.filter(
                |m: (VolumeInfo, u64)| m.1 > 0,
            ).map_values(|m: (VolumeInfo, u64)| (m.0.mount@, m.0.media)),
    {
        let ghost proj = |v: VolumeInfo| (v.mount@, v.media);
        let ghost keep = |m: (VolumeInfo, u64)| m.1 > 0;
        let ghost mproj = |m: (VolumeInfo, u64)| (m.0.mount@, m.0.media);
        let mut out: Vec<VolumeInfo> = Vec::new();
        let mut i: usize = 0;
        while i < mounted.len()
            invariant
                i <= mounted@.len(),
                proj == (|v: VolumeInfo| (v.mount@, v.media)),
                keep == (|m: (VolumeInfo, u64)| m.1 > 0),
                mproj == (|m: (VolumeInfo, u64)| (m.0.mount@, m.0.media)),
                out@.map_values(proj) == mounted@.take(i as int).filter(keep).map_values(mproj),
            decreases mounted@.len() - i,
        {
            let ghost prev = out@.map_values(proj);
            assert(mounted@.take(i + 1).drop_last() =~= mounted@.take(i as int));
            assert(mounted@.take(i + 1).last() == mounted@[i as int]);
            reveal_with_fuel(Seq::filter, 1);
            let m = &mounted[i];
            if m.1 > 0 {
                out.push(VolumeInfo { mount: m.0.mount.clone(), media: m.0.media });
                assert(out@.map_values(proj) =~= prev.push(mproj(mounted@[i as int])));
                assert(mounted@.take(i + 1).filter(keep).map_values(mproj) =~= mounted@.take(
                    i as int,
                ).filter(keep).map_values(mproj).push(mproj(mounted@[i as int])));
            } else {
                assert(mounted@.take(i + 1).filter(keep) == mounted@.take(i as int).filter(keep));
            }
            i = i + 1;
        }
        assert(mounted@.take(mounted@.len() as int) =~= mounted@);
        out
    }

    /// Analyze or maintain one volume.
    ///
    /// Unknown media is refused without running anything. Otherwise
    /// `execute` runs the chosen action (with `dry_run`, an analysis that
    /// modifies nothing) and its report or failure becomes the outcome; the
    /// disk counts as modified only when a real run succeeded.
    pub fn run<F: FnOnce(&VolumeInfo, &MaintenanceAction, bool) -> Result<String, String>>(
        &self,
        volume: &VolumeInfo,
        dry_run: bool,
        execute: F,
    ) -> (r: OptimizeOutcome)
        requires
            forall|a: &MaintenanceAction| #[trigger] execute.requires((volume, a, dry_run)),
        ensures
            volume.media == MediaType::Unknown ==> {
                &&& r.volume.mount@ == volume.mount@
                &&& r.volume.media == volume.media
                &&& r.action is Unsupported
                &&& !r.succeeded
                &&& !r.applied
                &&& r.message@ == unknown_media_reason()
            },
            volume.media != MediaType::Unknown ==> exists|res: Result<String, String>|
                #[trigger] execute.ensures((volume, &r.action, dry_run), res) && outcome_ok(
                    r,
                    *volume,
                    r.action,
                    dry_run,
                    res,
                ) && r.action == action_for_spec(volume.media),
    {
        let action = action_for(volume.media);
        let copy = VolumeInfo { mount: volume.mount.clone(), media: volume.media };
        match &action {
            MaintenanceAction::Unsupported(reason) => {
                let message = reason.clone();
                return OptimizeOutcome {
                    volume: copy,
                    action: MaintenanceAction::Unsupported(message.clone()),
                    succeeded: false,
                    applied: false,
                    message,
                };
            },
            _ => {},
        }
        let result = execute(volume, &action, dry_run);
        match result {
            Ok(message) => {
                let o = OptimizeOutcome { volume: copy, action, succeeded: true, applied: !dry_run, message };
                o
            },
            Err(e) => {
                let message = summarize_error(e.as_str());
                OptimizeOutcome { volume: copy, action, succeeded: false, applied: false, message }
            },
        }
    }
}

} // verus!
