//! Idle heavy writers: background processes that keep writing to disk while
//! nobody uses them. The process table is sampled by the caller (twice, around
//! a window, or once for the lifetime totals); this module decides who counts
//! as an offender and in what order they are reported.
use vstd::prelude::*;

use crate::clean::{lemma_sat_step, sat_nat, saturating};
use crate::domain::models::{IdleReason, IdleSsdOffender};
use crate::paths::{join_path, join_spec};
use crate::sorting::{lemma_sort_map, sort_desc, sorted_desc, SortKey, SpecKey};
use crate::text::{chars_of, contains, has_infix, to_lowercase, unicode_lower};

verus! {

/// Length of the disk-write sampling window of a blocking detection.
pub const DEFAULT_SAMPLE_SECS: u64 = 60;

pub struct IdleConfig {
    pub top: usize,
    pub idle_mins: u64,
    pub min_write_mb: u64,
    pub clean_cache: bool,
}

/// One running process as seen around the sampling window: its cumulative
/// written bytes before the window (when it existed then) and after it.
#[derive(Debug, Clone)]
pub struct ProcessSample {
    pub pid: u32,
    pub name: String,
    pub written_before: Option<u64>,
    pub written_after: u64,
    pub run_time_secs: u64,
    pub memory_bytes: u64,
}

/// An offender as plain values.
pub struct IdleOffenderModel {
    pub pid: u32,
    pub name: Seq<char>,
    pub idle_secs: u64,
    pub write_bytes: u64,
    pub writes_per_hour: u64,
    pub memory_bytes: u64,
    pub reason: IdleReason,
}

impl DeepView for IdleSsdOffender {
    type V = IdleOffenderModel;

    open spec fn deep_view(&self) -> IdleOffenderModel {
        IdleOffenderModel {
            pid: self.pid,
            name: self.name@,
            idle_secs: self.idle_secs,
            write_bytes: self.write_bytes,
            writes_per_hour: self.writes_per_hour,
            memory_bytes: self.memory_bytes,
            reason: self.reason,
        }
    }
}

impl SpecKey for IdleSsdOffender {
    open spec fn key_of(&self) -> u64 {
        self.write_bytes
    }
}

impl SortKey for IdleSsdOffender {
    fn sort_key(&self) -> (k: u64) {
        self.write_bytes
    }
}

impl SpecKey for IdleOffenderModel {
    open spec fn key_of(&self) -> u64 {
        self.write_bytes
    }
}

pub open spec fn offender_models(v: Seq<IdleSsdOffender>) -> Seq<IdleOffenderModel> {
    v.map_values(|o: IdleSsdOffender| o.deep_view())
}

/// Why a process writes, guessed from its (lower-cased) name.
pub open spec fn classify_reason_spec(lower: Seq<char>) -> IdleReason {
    if has_infix(lower, "sync"@) || has_infix(lower, "onedrive"@) || has_infix(lower, "dropbox"@) {
        IdleReason::SyncService
    } else if has_infix(lower, "flush"@) || has_infix(lower, "write"@) || has_infix(lower, "cache"@) {
        IdleReason::BackgroundFlush
    } else {
        IdleReason::Unknown
    }
}

/// Classify a process name into the likely reason for its writes.
pub fn classify_reason(name: &str) -> (r: IdleReason)
    ensures
        r == classify_reason_spec(unicode_lower(name@)),
{
    let lower = chars_of(to_lowercase(name).as_str());
    if contains(&lower, &chars_of("sync")) || contains(&lower, &chars_of("onedrive")) || contains(
        &lower,
        &chars_of("dropbox"),
    ) {
        IdleReason::SyncService
    } else if contains(&lower, &chars_of("flush")) || contains(&lower, &chars_of("write"))
        || contains(&lower, &chars_of("cache")) {
        IdleReason::BackgroundFlush
    } else {
        IdleReason::Unknown
    }
}

/// Bytes written during the window; with no window (`sampled` false) the
/// lifetime total. A process that did not exist before the window counts 0.
pub open spec fn write_delta_spec(s: ProcessSample, sampled: bool) -> u64 {
    if sampled {
        match s.written_before {
            Some(b) => if s.written_after >= b {
                (s.written_after - b) as u64
            } else {
                0
            },
            None => 0,
        }
    } else {
        s.written_after
    }
}

/// Write rate in whole bytes per hour over the process's run time, saturating.
pub open spec fn per_hour_spec(delta: u64, secs: u64) -> u64 {
    if secs == 0 {
        0
    } else if (delta as int) * 3600 / (secs as int) > u64::MAX {
        u64::MAX
    } else {
        ((delta as int) * 3600 / (secs as int)) as u64
    }
}

/// A sample counts when it is not the foreground process, wrote at least the
/// minimum and has been running at least the idle minimum.
pub open spec fn qualifies(min_write: u64, min_idle: u64, sampled: bool, fg: u32) -> spec_fn(ProcessSample) -> bool {
    |s: ProcessSample|
        s.pid != fg && write_delta_spec(s, sampled) >= min_write && s.run_time_secs >= min_idle
}

pub open spec fn offender_of(s: ProcessSample, sampled: bool) -> IdleOffenderModel {
    IdleOffenderModel {
        pid: s.pid,
        name: s.name@,
        idle_secs: s.run_time_secs,
        write_bytes: write_delta_spec(s, sampled),
        writes_per_hour: per_hour_spec(write_delta_spec(s, sampled), s.run_time_secs),
        memory_bytes: s.memory_bytes,
        reason: classify_reason_spec(unicode_lower(s.name@)),
    }
}

/// The offenders among `samples`, in sample order.
pub open spec fn offenders_spec(samples: Seq<ProcessSample>, min_write: u64, min_idle: u64, sampled: bool, fg: u32) -> Seq<
    IdleOffenderModel,
> {
    samples.filter(qualifies(min_write, min_idle, sampled, fg)).map_values(
        |s: ProcessSample| offender_of(s, sampled),
    )
}

fn per_hour(delta: u64, secs: u64) -> (r: u64)
    ensures
        r == per_hour_spec(delta, secs),
{
    if secs == 0 {
        return 0;
    }
    let wide: u128 = (delta as u128) * 3600 / (secs as u128);
    if wide > u64::MAX as u128 {
        u64::MAX
    } else {
        wide as u64
    }
}

fn offender_from(s: &ProcessSample, sampled: bool) -> (r: IdleSsdOffender)
    ensures
        r.deep_view() == offender_of(*s, sampled),
{
    let delta: u64 = if sampled {
        match s.written_before {
            Some(b) => if s.written_after >= b {
                s.written_after - b
            } else {
                0
            },
            None => 0,
        }
    } else {
        s.written_after
    };
    IdleSsdOffender {
        pid: s.pid,
        name: s.name.clone(),
        idle_secs: s.run_time_secs,
        write_bytes: delta,
        writes_per_hour: per_hour(delta, s.run_time_secs),
        memory_bytes: s.memory_bytes,
        reason: classify_reason(s.name.as_str()),
    }
}

pub struct IdleService;

impl IdleService {
    pub fn new() -> (r: IdleService) {
        IdleService
    }

    /// The idle heavy writers among the sampled processes: every process but
    /// the foreground one that wrote at least `min_write_mb` MiB and has run
    /// at least `idle_mins` minutes, heaviest writer first (ties in sample
    /// order), at most `top` of them. With `sampled` the write volume is the
    /// delta across the window, otherwise the lifetime total.
    pub fn offenders(&self, config: &IdleConfig, samples: &Vec<ProcessSample>, sampled: bool, foreground_pid: u32) -> (r:
        Vec<IdleSsdOffender>)
        requires
            config.min_write_mb * 1024 * 1024 <= u64::MAX,
            config.idle_mins * 60 <= u64::MAX,
        ensures
            offender_models(r@) == ({
                let all = sorted_desc(
                    offenders_spec(
                        samples@,
                        (config.min_write_mb * 1024 * 1024) as u64,
                        (config.idle_mins * 60) as u64,
                        sampled,
                        foreground_pid,
                    ),
                );
                if config.top < all.len() {
                    all.take(config.top as int)
                } else {
                    all
                }
            }),
    {
        let min_write: u64 = config.min_write_mb * 1024 * 1024;
        let min_idle: u64 = config.idle_mins * 60;
        let ghost pred = qualifies(min_write, min_idle, sampled, foreground_pid);
        let ghost kept_samples = samples@.filter(pred);
        let mut found: Vec<IdleSsdOffender> = Vec::new();
        let mut i: usize = 0;
        while i < samples.len()
            invariant
                i <= samples@.len(),
                pred == qualifies(min_write, min_idle, sampled, foreground_pid),
                offender_models(found@) == samples@.take(i as int).filter(pred).map_values(
                    |s: ProcessSample| offender_of(s, sampled),
                ),
            decreases samples@.len() - i,
        {
            let s = &samples[i];
            let ghost prev_models = offender_models(found@);
            assert(samples@.take(i + 1).drop_last() =~= samples@.take(i as int));
            assert(samples@.take(i + 1).last() == samples@[i as int]);
            reveal_with_fuel(Seq::filter, 1);
            let delta: u64 = if sampled {
                match s.written_before {
                    Some(b) => if s.written_after >= b {
                        s.written_after - b
                    } else {
                        0
                    },
                    None => 0,
                }
            } else {
                s.written_after
            };
            if s.pid != foreground_pid && delta >= min_write && s.run_time_secs >= min_idle {
                assert(pred(*s));
                let o = offender_from(s, sampled);
                found.push(o);
                assert(offender_models(found@) =~= prev_models.push(offender_of(*s, sampled)));
                assert(samples@.take(i + 1).filter(pred) == samples@.take(i as int).filter(pred).push(
                    samples@[i as int],
                ));
                assert(samples@.take(i + 1).filter(pred).map_values(
                    |s: ProcessSample| offender_of(s, sampled),
                ) =~= prev_models.push(offender_of(*s, sampled)));
            } else {
                assert(!pred(*s));
                assert(samples@.take(i + 1).filter(pred) == samples@.take(i as int).filter(pred));
            }
            i = i + 1;
        }
        assert(samples@.take(samples@.len() as int) =~= samples@);
        let ghost unsorted = found@;
        let mut sorted = sort_desc(found);
        proof {
            lemma_sort_map(unsorted, |o: IdleSsdOffender| o.deep_view());
        }
        let ghost full = sorted@;
        sorted.truncate(config.top);
        assert(offender_models(sorted@) =~= (if config.top < full.len() {
            offender_models(full).take(config.top as int)
        } else {
            offender_models(full)
        }));
        sorted
    }
}

/// Cache directories belonging to a heavy writer, below `local_app_data`:
/// Chrome's and Edge's default-profile `Cache` and `Code Cache`.
pub open spec fn cache_dirs_spec(lower: Seq<char>, local_app_data: Option<Seq<char>>, sep: char) -> Option<
    Seq<Seq<char>>,
> {
    let chrome = has_infix(lower, "chrome"@);
    let edge = has_infix(lower, "msedge"@);
    match local_app_data {
        Some(base) => if chrome || edge {
            let c: Seq<Seq<char>> = if chrome {
                seq![
                    join_spec(base, "Google/Chrome/User Data/Default/Cache"@, sep),
                    join_spec(base, "Google/Chrome/User Data/Default/Code Cache"@, sep),
                ]
            } else {
                seq![]
            };
            let e: Seq<Seq<char>> = if edge {
                seq![
                    join_spec(base, "Microsoft/Edge/User Data/Default/Cache"@, sep),
                    join_spec(base, "Microsoft/Edge/User Data/Default/Code Cache"@, sep),
                ]
            } else {
                seq![]
            };
            Some(c + e)
        } else {
            None
        },
        None => None,
    }
}

/// The cache directories `clean_cache` may trash for a process, or `None`
/// when it has none (or `LOCALAPPDATA` is unset).
pub fn cache_dirs_for_process(name: &str, local_app_data: Option<&str>, sep: char) -> (r: Option<Vec<String>>)
    ensures
        match r {
            Some(v) => cache_dirs_spec(unicode_lower(name@), crate::paths::opt_str(local_app_data), sep)
                == Some(v.deep_view()),
            None => cache_dirs_spec(unicode_lower(name@), crate::paths::opt_str(local_app_data), sep) is None,
        },
{
    let lower = chars_of(to_lowercase(name).as_str());
    let chrome = contains(&lower, &chars_of("chrome"));
    let edge = contains(&lower, &chars_of("msedge"));
    match local_app_data {
        Some(base) => {
            if !(chrome || edge) {
                return None;
            }
            let mut dirs: Vec<String> = Vec::new();
            if chrome {
                dirs.push(join_path(base, "Google/Chrome/User Data/Default/Cache", sep));
                dirs.push(join_path(base, "Google/Chrome/User Data/Default/Code Cache", sep));
            }
            let ghost c = dirs.deep_view();
            if edge {
                dirs.push(join_path(base, "Microsoft/Edge/User Data/Default/Cache", sep));
                dirs.push(join_path(base, "Microsoft/Edge/User Data/Default/Code Cache", sep));
            }
            assert(dirs.deep_view() =~= cache_dirs_spec(
                unicode_lower(name@),
                crate::paths::opt_str(local_app_data),
                sep,
            ).unwrap());
            Some(dirs)
        },
        None => None,
    }
}

/// The cache directories of each offender in turn (see [`cache_dirs_spec`]).
pub open spec fn offender_dirs(offs: Seq<IdleSsdOffender>, local_app_data: Option<Seq<char>>, sep: char) -> Seq<Seq<char>>
    decreases offs.len(),
{
    if offs.len() == 0 {
        Seq::empty()
    } else {
        offender_dirs(offs.drop_last(), local_app_data, sep) + match cache_dirs_spec(
            unicode_lower(offs.last().name@),
            local_app_data,
            sep,
        ) {
            Some(d) => d,
            None => Seq::empty(),
        }
    }
}

/// `o` is what checking `dir` gave: whether `path_exists` found it and, when it
/// did, the size `size_of` gave for it (nothing is counted otherwise).
pub open spec fn dir_checked<E: Fn(&str) -> bool, S: Fn(&str) -> u64>(path_exists: E, size_of: S, dir: Seq<char>, o: (bool, u64)) -> bool {
    &&& exists|p: &str| #[trigger] call_ensures(path_exists, (p,), o.0) && p@ == dir
    &&& o.0 ==> exists|p: &str| #[trigger] call_ensures(size_of, (p,), o.1) && p@ == dir
    &&& !o.0 ==> o.1 == 0
}

/// The sizes counted, summed.
pub open spec fn counted_bytes(os: Seq<(bool, u64)>) -> nat
    decreases os.len(),
{
    if os.len() == 0 {
        0
    } else {
        counted_bytes(os.drop_last()) + (os.last().1 as nat)
    }
}

impl IdleService {
    /// Trash the caches of the offenders: every cache directory that
    /// `path_exists` finds is sized with `size_of` and handed to `remove` (whose
    /// failure is ignored); the sizes of those found are summed (stopping at
    /// `u64::MAX`).
    pub fn clean_cache<E: Fn(&str) -> bool, S: Fn(&str) -> u64, R: Fn(&str) -> Result<(), String>>(
        offenders: &[IdleSsdOffender],
        local_app_data: Option<&str>,
        sep: char,
        path_exists: E,
        size_of: S,
        remove: R,
    ) -> (r: Result<u64, String>)
        requires
            forall|p: &str| #[trigger] path_exists.requires((p,)),
            forall|p: &str| #[trigger] size_of.requires((p,)),
            forall|p: &str| #[trigger] remove.requires((p,)),
        ensures
            r matches Ok(freed) && ({
                let dirs = offender_dirs(offenders@, crate::paths::opt_str(local_app_data), sep);
                exists|os: Seq<(bool, u64)>|
                    #![trigger counted_bytes(os)]
                    os.len() == dirs.len() && (forall|k: int| 0 <= k < dirs.len() ==> #[trigger] dir_checked(path_exists, size_of, dirs[k], os[k]))
                        && freed == sat_nat(counted_bytes(os))
            }),
    {
        let ghost lad = crate::paths::opt_str(local_app_data);
        let ghost offs = offenders@;
        let ghost mut os: Seq<(bool, u64)> = Seq::empty();
        let mut freed: u64 = 0;
        let mut i: usize = 0;
        assert(offs.take(0) =~= Seq::<IdleSsdOffender>::empty());
        while i < offenders.len()
            invariant
                i <= offs.len(),
                offs == offenders@,
                lad == crate::paths::opt_str(local_app_data),
                forall|p: &str| #[trigger] path_exists.requires((p,)),
                forall|p: &str| #[trigger] size_of.requires((p,)),
                forall|p: &str| #[trigger] remove.requires((p,)),
                os.len() == offender_dirs(offs.take(i as int), lad, sep).len(),
                forall|k: int| 0 <= k < os.len() ==> #[trigger] dir_checked(path_exists, size_of, offender_dirs(offs.take(i as int), lad, sep)[k], os[k]),
                freed == sat_nat(counted_bytes(os)),
            decreases offs.len() - i,
        {
            let ghost before = offender_dirs(offs.take(i as int), lad, sep);
            let ghost next = offs.take(i + 1);
            assert(next.drop_last() =~= offs.take(i as int));
            assert(next.last() == offs[i as int]);
            match cache_dirs_for_process(offenders[i].name.as_str(), local_app_data, sep) {
                Some(dirs) => {
                    let ghost ds = dirs.deep_view();
                    assert(offender_dirs(next, lad, sep) == before + ds);
                    let mut j: usize = 0;
                    assert(before + ds.take(0) =~= before);
                    while j < dirs.len()
                        invariant
                            j <= dirs@.len(),
                            ds == dirs.deep_view(),
                            forall|p: &str| #[trigger] path_exists.requires((p,)),
                            forall|p: &str| #[trigger] size_of.requires((p,)),
                            forall|p: &str| #[trigger] remove.requires((p,)),
                            os.len() == (before + ds.take(j as int)).len(),
                            forall|k: int| 0 <= k < os.len() ==> #[trigger] dir_checked(path_exists, size_of, (before + ds.take(j as int))[k], os[k]),
                            freed == sat_nat(counted_bytes(os)),
                        decreases dirs@.len() - j,
                    {
                        let p = dirs[j].as_str();
                        let present = path_exists(p);
                        let mut b: u64 = 0;
                        if present {
                            b = size_of(p);
                            assert(call_ensures(size_of, (p,), b));
                            let _ = remove(p);
                        }
                        proof {
                            assert(p@ == ds[j as int]);
                            let all = before + ds.take(j + 1);
                            assert(all =~= (before + ds.take(j as int)).push(ds[j as int]));
                            assert(call_ensures(path_exists, (p,), present));
                            let o = (present, b);
                            assert(o.0 == present && o.1 == b);
                            assert(exists|q: &str| #[trigger] call_ensures(path_exists, (q,), o.0) && q@ == ds[j as int]);
                            assert(o.0 ==> exists|q: &str| #[trigger] call_ensures(size_of, (q,), o.1) && q@ == ds[j as int]);
                            assert(dir_checked(path_exists, size_of, ds[j as int], o));
                            let no = os.push((present, b));
                            assert(no.drop_last() =~= os);
                            lemma_sat_step(counted_bytes(os), b);
                            assert forall|k: int| 0 <= k < no.len() implies #[trigger] dir_checked(path_exists, size_of, all[k], no[k]) by {
                                if k < os.len() {
                                    assert(no[k] == os[k]);
                                    assert(all[k] == (before + ds.take(j as int))[k]);
                                }
                            }
                            os = no;
                        }
                        freed = saturating(freed, b);
                        j = j + 1;
                    }
                    assert(before + ds.take(j as int) =~= before + ds);
                },
                None => {
                    assert(offender_dirs(next, lad, sep) =~= before);
                },
            }
            i = i + 1;
        }
        assert(offs.take(i as int) =~= offs);
        Ok(freed)
    }
}

} // verus!
