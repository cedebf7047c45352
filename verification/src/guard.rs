//! The guard daemon's decisions.
//!
//! Each poll cycle samples RAM and disk; sustained RAM pressure (three
//! consecutive samples at or above the threshold) leads to a working-set trim,
//! a disk below its minimum to a rescue that escalates from the reserve file
//! to cleaning safe categories to purging the recycle bin, stopping as soon as
//! enough is free. Any intervention starts a cooldown during which the guard
//! does nothing. Processes are only ever closed (gracefully) when the user
//! passed `--allow-kill`.
//!
//! The library holds the state and decides; the caller performs each step
//! (trimming, cleaning, logging, sleeping) and reports back.
use vstd::prelude::*;

use crate::domain::models::{
    CleanCategory, DiskRescuePhase, DiskSnapshot, GuardAction, GuardConfig, GuardLogEntry, GuardLogLevel,
    IdleSsdOffender, KillMode, KillRequest, RamSnapshot, RiskLevel, GUARD_COOLDOWN_SECS,
    GUARD_HYSTERESIS_SAMPLES,
};
use crate::domain::traits::GuardMonitor;
use crate::idle::IdleConfig;
use crate::text::{decimal, decimal_spec, push_chars, push_str, string_of};

verus! {

/// Minimum sustained idle time before guard may gracefully close a process
/// under `--allow-kill` (more than 60 minutes).
pub const GUARD_CLOSE_MIN_IDLE_MINS: u64 = 60;

/// Minimum write rate, in bytes per hour, before guard may gracefully close a
/// process under `--allow-kill` (500 MiB/h).
pub const GUARD_CLOSE_MIN_WRITE_BYTES_PER_HOUR: u64 = 524288000;

pub const GIB: u64 = 1073741824;

// ---------------------------------------------------------------------------
// Log lines
// ---------------------------------------------------------------------------

pub open spec fn level_text(l: GuardLogLevel) -> Seq<char> {
    match l {
        GuardLogLevel::Info => "INFO"@,
        GuardLogLevel::Warn => "WARN"@,
        GuardLogLevel::Action => "ACTION"@,
    }
}

/// `[timestamp] [LEVEL] [message]`, then ` [bytes]` when bytes were freed.
pub open spec fn log_line_spec(ts: Seq<char>, level: GuardLogLevel, msg: Seq<char>, freed: Option<u64>) -> Seq<
    char,
> {
    let head = "["@ + ts + "] ["@ + level_text(level) + "] ["@ + msg + "]"@;
    match freed {
        Some(b) => head + " ["@ + decimal_spec(b) + "]"@,
        None => head,
    }
}

/// The guard's audit log.
pub struct GuardLog;

impl GuardLog {
    /// The line written for `entry` (without its newline).
    pub fn line(entry: &GuardLogEntry) -> (r: String)
        ensures
            r@ == log_line_spec(entry.timestamp@, entry.level, entry.message@, entry.bytes_freed),
    {
        let mut out: Vec<char> = Vec::new();
        push_str(&mut out, "[");
        push_str(&mut out, entry.timestamp.as_str());
        push_str(&mut out, "] [");
        match entry.level {
            GuardLogLevel::Info => push_str(&mut out, "INFO"),
            GuardLogLevel::Warn => push_str(&mut out, "WARN"),
            GuardLogLevel::Action => push_str(&mut out, "ACTION"),
        }
        push_str(&mut out, "] [");
        push_str(&mut out, entry.message.as_str());
        push_str(&mut out, "]");
        match entry.bytes_freed {
            Some(b) => {
                push_str(&mut out, " [");
                let d = decimal(b);
                push_chars(&mut out, &d);
                push_str(&mut out, "]");
            },
            None => {},
        }
        assert(out@ =~= log_line_spec(entry.timestamp@, entry.level, entry.message@, entry.bytes_freed));
        string_of(&out)
    }
}

// ---------------------------------------------------------------------------
// The poll cycle
// ---------------------------------------------------------------------------

/// RAM is under pressure when the used share of total memory is at or above
/// the threshold (in thousandths). An empty total reads as 0% used.
pub open spec fn ram_over_threshold(used: u64, total: u64, permille: u64) -> bool {
    if total == 0 {
        permille == 0
    } else {
        (used as int) * 1000 >= (permille as int) * (total as int)
    }
}

/// The guard is cooling down while `now` is before the end of the cooldown.
pub open spec fn cooling(cooldown_until: Option<u64>, now: u64) -> bool {
    match cooldown_until {
        Some(c) => now < c,
        None => false,
    }
}

/// What one poll cycle is to do, in order.
#[derive(Debug, Clone, Copy, PartialEq, Eq, Structural)]
pub struct CyclePlan {
    /// a cooldown is running: nothing else happens this cycle
    pub cooling_down: bool,
    /// trim working sets (sustained RAM pressure)
    pub trim_ram: bool,
    /// RAM is under pressure but not yet for long enough: the sample number
    pub pressure_sample: Option<u64>,
    /// the disk is below its minimum: rescue up to this many free bytes
    pub rescue_target: Option<u64>,
    /// gracefully close idle heavy writers (only with `--allow-kill`)
    pub close_offenders: bool,
}

pub open spec fn idle_plan() -> CyclePlan {
    CyclePlan {
        cooling_down: true,
        trim_ram: false,
        pressure_sample: None,
        rescue_target: None,
        close_offenders: false,
    }
}

/// The guard daemon: its monitor, configuration and the state carried from
/// one cycle to the next.
pub struct GuardService<M: GuardMonitor> {
    pub monitor: M,
    pub config: GuardConfig,
    /// consecutive samples at or above the RAM threshold
    pub ram_pressure_count: u64,
    /// monotonic second at which the current cooldown ends
    pub cooldown_until: Option<u64>,
}

impl<M: GuardMonitor> GuardService<M> {
    pub fn new(monitor: M, config: GuardConfig) -> (r: Self)
        ensures
            r.monitor == monitor,
            r.config == config,
            r.ram_pressure_count == 0,
            r.cooldown_until is None,
    {
        GuardService { monitor, config, ram_pressure_count: 0, cooldown_until: None }
    }

    /// Read this cycle's RAM and disk snapshots from the monitor.
    /// Both readings come from the monitor; the first failure is returned.
    pub fn sample(&self) -> (r: Result<(RamSnapshot, DiskSnapshot), String>)
        ensures
            r matches Ok((ram, disk)) ==> call_ensures(M::snapshot_ram, (&self.monitor,), Ok::<RamSnapshot, String>(ram))
                && call_ensures(M::snapshot_disk, (&self.monitor,), Ok::<DiskSnapshot, String>(disk)),
            r matches Err(e) ==> call_ensures(M::snapshot_ram, (&self.monitor,), Err::<RamSnapshot, String>(e)) || (exists|ram: RamSnapshot|
                call_ensures(M::snapshot_ram, (&self.monitor,), Ok::<RamSnapshot, String>(ram))) && call_ensures(
                M::snapshot_disk,
                (&self.monitor,),
                Err::<DiskSnapshot, String>(e),
            ),
    {
        let ram_answer = self.monitor.snapshot_ram();
        assert(call_ensures(M::snapshot_ram, (&self.monitor,), ram_answer));
        let ram = match ram_answer {
            Ok(r) => r,
            Err(e) => return Err(e),
        };
        let disk_answer = self.monitor.snapshot_disk();
        assert(call_ensures(M::snapshot_disk, (&self.monitor,), disk_answer));
        let disk = match disk_answer {
            Ok(d) => d,
            Err(e) => return Err(e),
        };
        Ok((ram, disk))
    }

    /// Plan the cycle at monotonic second `now` from its snapshots.
    ///
    /// During a cooldown nothing happens and nothing changes. Otherwise the
    /// cooldown is cleared; a sample at or above the RAM threshold counts
    /// towards the hysteresis (a trim once three are in a row), one below it
    /// resets the count; a disk below `disk_min_gb` GiB is to be rescued; and
    /// idle writers are to be closed exactly when `allow_kill` is set.
    pub fn plan_cycle(&mut self, now: u64, ram: &RamSnapshot, disk: &DiskSnapshot) -> (p: CyclePlan)
        requires
            old(self).config.disk_min_gb * GIB <= u64::MAX,
            old(self).ram_pressure_count < u64::MAX,
        ensures
            final(self).monitor == old(self).monitor,
            final(self).config == old(self).config,
            cooling(old(self).cooldown_until, now) ==> p == idle_plan() && final(self).ram_pressure_count
                == old(self).ram_pressure_count && final(self).cooldown_until == old(self).cooldown_until,
            !cooling(old(self).cooldown_until, now) ==> {
                let over = ram_over_threshold(
                    ram.used_bytes,
                    ram.total_bytes,
                    old(self).config.ram_threshold_permille,
                );
                let count = if over {
                    old(self).ram_pressure_count + 1
                } else {
                    0
                };
                let min = old(self).config.disk_min_gb * GIB;
                &&& final(self).cooldown_until is None
                &&& final(self).ram_pressure_count == count
                &&& !p.cooling_down
                &&& p.trim_ram == (over && count >= GUARD_HYSTERESIS_SAMPLES)
                &&& p.pressure_sample == (if over && count < GUARD_HYSTERESIS_SAMPLES {
                    Some(count as u64)
                } else {
                    None
                })
                &&& p.rescue_target == (if disk.free_bytes < min {
                    Some(min as u64)
                } else {
                    None
                })
                &&& p.close_offenders == old(self).config.allow_kill
            },
    {
        match self.cooldown_until {
            Some(c) => {
                if now < c {
                    return CyclePlan {
                        cooling_down: true,
                        trim_ram: false,
                        pressure_sample: None,
                        rescue_target: None,
                        close_offenders: false,
                    };
                }
            },
            None => {},
        }
        self.cooldown_until = None;
        let over = if ram.total_bytes == 0 {
            self.config.ram_threshold_permille == 0
        } else {
            let used = ram.used_bytes as u128;
            let permille = self.config.ram_threshold_permille as u128;
            let total = ram.total_bytes as u128;
            assert(permille * total <= 0xffff_ffff_ffff_ffffu128 * 0xffff_ffff_ffff_ffffu128) by (nonlinear_arith)
                requires
                    permille <= 0xffff_ffff_ffff_ffffu128,
                    total <= 0xffff_ffff_ffff_ffffu128,
            ;
            used * 1000 >= permille * total
        };
        let mut trim_ram = false;
        let mut pressure_sample: Option<u64> = None;
        if over {
            self.ram_pressure_count = self.ram_pressure_count + 1;
            if self.ram_pressure_count >= GUARD_HYSTERESIS_SAMPLES {
                trim_ram = true;
            } else {
                pressure_sample = Some(self.ram_pressure_count);
            }
        } else {
            self.ram_pressure_count = 0;
        }
        let min = self.config.disk_min_gb * GIB;
        let rescue_target = if disk.free_bytes < min {
            Some(min)
        } else {
            None
        };
        CyclePlan {
            cooling_down: false,
            trim_ram,
            pressure_sample,
            rescue_target,
            close_offenders: self.config.allow_kill,
        }
    }

    /// A planned RAM trim succeeded at second `now`: the cooldown starts and
    /// the hysteresis count starts over.
    pub fn ram_trimmed(&mut self, now: u64)
        requires
            now + GUARD_COOLDOWN_SECS <= u64::MAX,
        ensures
            final(self).monitor == old(self).monitor,
            final(self).config == old(self).config,
            final(self).cooldown_until == Some((now + GUARD_COOLDOWN_SECS) as u64),
            final(self).ram_pressure_count == 0,
    {
        self.cooldown_until = Some(now + GUARD_COOLDOWN_SECS);
        self.ram_pressure_count = 0;
    }

    /// A disk rescue finished at second `now` having freed `freed` bytes. A
    /// rescue that freed something starts the cooldown and reads as a safe
    /// clean; one that freed nothing changes nothing.
    pub fn disk_rescued(&mut self, now: u64, freed: u64) -> (a: GuardAction)
        requires
            now + GUARD_COOLDOWN_SECS <= u64::MAX,
        ensures
            final(self).monitor == old(self).monitor,
            final(self).config == old(self).config,
            final(self).ram_pressure_count == old(self).ram_pressure_count,
            freed > 0 ==> a == GuardAction::DiskCleanSafe && final(self).cooldown_until == Some(
                (now + GUARD_COOLDOWN_SECS) as u64,
            ),
            freed == 0 ==> a == GuardAction::Nothing && final(self).cooldown_until == old(
                self,
            ).cooldown_until,
    {
        if freed > 0 {
            self.cooldown_until = Some(now + GUARD_COOLDOWN_SECS);
            GuardAction::DiskCleanSafe
        } else {
            GuardAction::Nothing
        }
    }
}

/// The action a cycle reports: the disk rescue's outcome when one ran,
/// otherwise a RAM trim when one happened.
pub fn cycle_action(trimmed: bool, rescue: Option<GuardAction>) -> (a: GuardAction)
    ensures
        a == (match rescue {
            Some(r) => r,
            None => if trimmed {
                GuardAction::RamTrim
            } else {
                GuardAction::Nothing
            },
        }),
{
    match rescue {
        Some(r) => r,
        None => if trimmed {
            GuardAction::RamTrim
        } else {
            GuardAction::Nothing
        },
    }
}

// ---------------------------------------------------------------------------
// Disk rescue
// ---------------------------------------------------------------------------

/// The phase after `p`, if any.
pub open spec fn next_phase(p: DiskRescuePhase) -> Option<DiskRescuePhase> {
    match p {
        DiskRescuePhase::Reserve => Some(DiskRescuePhase::CleanSafe),
        DiskRescuePhase::CleanSafe => Some(DiskRescuePhase::PurgeBin),
        DiskRescuePhase::PurgeBin => None,
    }
}

/// An escalating disk rescue: consume the reserve file, then clean the safe
/// categories, then purge the recycle bin, stopping as soon as free space
/// reaches the target. `phase` is the step to perform next (`None`: done).
#[derive(Debug, Clone, Copy)]
pub struct DiskRescue {
    pub free_bytes: u64,
    pub target_bytes: u64,
    pub total_freed: u64,
    pub phase: Option<DiskRescuePhase>,
}

impl DiskRescue {
    /// A rescue of a disk with `free_bytes` free, short of `target_bytes`.
    pub fn start(free_bytes: u64, target_bytes: u64) -> (r: DiskRescue)
        requires
            free_bytes < target_bytes,
        ensures
            r.free_bytes == free_bytes,
            r.target_bytes == target_bytes,
            r.total_freed == 0,
            r.phase == Some(DiskRescuePhase::Reserve),
    {
        DiskRescue { free_bytes, target_bytes, total_freed: 0, phase: Some(DiskRescuePhase::Reserve) }
    }

    /// Record what the current phase freed and move on: the rescue ends once
    /// free space plus everything freed reaches the target, or after the last
    /// phase.
    pub fn record(&mut self, freed: u64)
        requires
            old(self).phase is Some,
            old(self).free_bytes as int + old(self).total_freed as int + freed as int <= u64::MAX,
        ensures
            final(self).free_bytes == old(self).free_bytes,
            final(self).target_bytes == old(self).target_bytes,
            final(self).total_freed == old(self).total_freed + freed,
            final(self).phase == (if old(self).free_bytes + old(self).total_freed + freed >= old(
                self,
            ).target_bytes {
                None
            } else {
                next_phase(old(self).phase.unwrap())
            }),
    {
        self.total_freed = self.total_freed + freed;
        if self.free_bytes + self.total_freed >= self.target_bytes {
            self.phase = None;
        } else {
            self.phase = match self.phase {
                Some(DiskRescuePhase::Reserve) => Some(DiskRescuePhase::CleanSafe),
                Some(DiskRescuePhase::CleanSafe) => Some(DiskRescuePhase::PurgeBin),
                _ => None,
            };
        }
    }
}

/// The Safe categories, in order: the only ones an unattended disk rescue
/// cleans.
pub fn rescue_categories(cats: Vec<CleanCategory>) -> (r: Vec<CleanCategory>)
    ensures
        r@ == cats@.filter(|c: CleanCategory| c.risk == RiskLevel::Safe),
{
    let ghost all = cats@;
    let ghost pred = |c: CleanCategory| c.risk == RiskLevel::Safe;
    let n = cats.len();
    let mut rest = cats;
    let mut out: Vec<CleanCategory> = Vec::new();
    let mut i: usize = 0;
    proof {
        reveal(Seq::filter);
        assert(all.take(0) =~= Seq::<CleanCategory>::empty());
    }
    while i < n
        invariant
            n == all.len(),
            i <= n,
            rest@ == all.skip(i as int),
            pred == (|c: CleanCategory| c.risk == RiskLevel::Safe),
            out@ == all.take(i as int).filter(pred),
        decreases n - i,
    {
        let c = rest.remove(0);
        assert(all[i as int] == c);
        proof {
            reveal(Seq::filter);
            let t = all.take(i + 1);
            assert(t.drop_last() =~= all.take(i as int));
            assert(t.last() == c);
        }
        if c.risk == RiskLevel::Safe {
            out.push(c);
        }
        i = i + 1;
        assert(rest@ =~= all.skip(i as int));
    }
    assert(all.take(n as int) =~= all);
    out
}

/// The bytes credited for purging `count` recycle-bin items (1 KiB each:
/// the bin does not report sizes).
pub fn purged_bin_bytes(count: u64) -> (r: u64)
    requires
        count * 1024 <= u64::MAX,
    ensures
        r == count * 1024,
{
    count * 1024
}

// ---------------------------------------------------------------------------
// Closing idle offenders (--allow-kill)
// ---------------------------------------------------------------------------

/// The idle detection the guard runs before closing offenders: every process
/// idle for at least an hour, whatever it wrote.
pub fn guard_idle_config() -> (c: IdleConfig)
    ensures
        c.top == usize::MAX,
        c.idle_mins == GUARD_CLOSE_MIN_IDLE_MINS,
        c.min_write_mb == 0,
        !c.clean_cache,
{
    IdleConfig { top: usize::MAX, idle_mins: GUARD_CLOSE_MIN_IDLE_MINS, min_write_mb: 0, clean_cache: false }
}

/// The graceful-close request guard makes for an offender writing at least
/// 500 MiB/h (the user consented by passing `--allow-kill`).
pub open spec fn close_request_spec(o: IdleSsdOffender) -> Option<(u32, Seq<char>, u64)> {
    if o.writes_per_hour < GUARD_CLOSE_MIN_WRITE_BYTES_PER_HOUR {
        None
    } else {
        Some((o.pid, o.name@, o.memory_bytes))
    }
}

/// The close requests for the offenders heavy enough to close, in order; each
/// is a consented graceful close that still has to pass the kill gate.
pub fn close_requests(offenders: &Vec<IdleSsdOffender>) -> (r: Vec<KillRequest>)
    ensures
        r@.len() <= offenders@.len(),
        forall|k: int|
            0 <= k < r@.len() ==> #[trigger] r@[k].mode == KillMode::Close && r@[k].consent,
        r@.map_values(|q: KillRequest| (q.pid, q.name@, q.size_bytes)) == offenders@.map_values(
            |o: IdleSsdOffender| close_request_spec(o),
        ).filter(|x: Option<(u32, Seq<char>, u64)>| x is Some).map_values(
            |x: Option<(u32, Seq<char>, u64)>| x.unwrap(),
        ),
{
    let ghost f = |o: IdleSsdOffender| close_request_spec(o);
    let ghost some = |x: Option<(u32, Seq<char>, u64)>| x is Some;
    let ghost un = |x: Option<(u32, Seq<char>, u64)>| x.unwrap();
    let ghost proj = |q: KillRequest| (q.pid, q.name@, q.size_bytes);
    let mut out: Vec<KillRequest> = Vec::new();
    let mut i: usize = 0;
    while i < offenders.len()
        invariant
            i <= offenders@.len(),
            out@.len() <= i,
            f == (|o: IdleSsdOffender| close_request_spec(o)),
            some == (|x: Option<(u32, Seq<char>, u64)>| x is Some),
            un == (|x: Option<(u32, Seq<char>, u64)>| x.unwrap()),
            proj == (|q: KillRequest| (q.pid, q.name@, q.size_bytes)),
            forall|k: int| 0 <= k < out@.len() ==> #[trigger] out@[k].mode == KillMode::Close && out@[k].consent,
            out@.map_values(proj) == offenders@.take(i as int).map_values(f).filter(some).map_values(un),
        decreases offenders@.len() - i,
    {
        let o = &offenders[i];
        let ghost prev = out@.map_values(proj);
        assert(offenders@.take(i + 1).map_values(f) =~= offenders@.take(i as int).map_values(f).push(
            f(offenders@[i as int]),
        ));
        reveal_with_fuel(Seq::filter, 1);
        assert(offenders@.take(i + 1).map_values(f).drop_last() =~= offenders@.take(i as int).map_values(f));
        if o.writes_per_hour >= GUARD_CLOSE_MIN_WRITE_BYTES_PER_HOUR {
            let req = KillRequest {
                pid: o.pid,
                name: o.name.clone(),
                size_bytes: o.memory_bytes,
                mode: KillMode::Close,
                consent: true,
            };
            out.push(req);
            assert(out@.map_values(proj) =~= prev.push((o.pid, o.name@, o.memory_bytes)));
            assert(offenders@.take(i + 1).map_values(f).filter(some) =~= offenders@.take(i as int).map_values(
                f,
            ).filter(some).push(f(offenders@[i as int])));
        } else {
            assert(offenders@.take(i + 1).map_values(f).filter(some) =~= offenders@.take(i as int).map_values(
                f,
            ).filter(some));
        }
        i = i + 1;
    }
    assert(offenders@.take(offenders@.len() as int) =~= offenders@);
    out
}

// ---------------------------------------------------------------------------
// Laws
// ---------------------------------------------------------------------------

/// The hysteresis count after a run of RAM samples (`true`: at or above the
/// threshold) with no cooldown in between, where every planned trim succeeds.
pub open spec fn pressure_after(samples: Seq<bool>) -> nat
    decreases samples.len(),
{
    if samples.len() == 0 {
        0
    } else {
        let before = pressure_after(samples.drop_last());
        if !samples.last() {
            0
        } else if before + 1 >= GUARD_HYSTERESIS_SAMPLES {
            0
        } else {
            before + 1
        }
    }
}

/// A trim is planned on the sample that completes the hysteresis.
pub open spec fn trims_on_last(samples: Seq<bool>) -> bool {
    samples.len() > 0 && samples.last() && pressure_after(samples.drop_last()) + 1
        >= GUARD_HYSTERESIS_SAMPLES
}

proof fn lemma_pressure_is_trailing_run(samples: Seq<bool>)
    ensures
        pressure_after(samples) < GUARD_HYSTERESIS_SAMPLES,
        pressure_after(samples) <= samples.len(),
        forall|j: int|
            samples.len() - pressure_after(samples) <= j < samples.len() ==> #[trigger] samples[j],
    decreases samples.len(),
{
    if samples.len() > 0 {
        lemma_pressure_is_trailing_run(samples.drop_last());
    }
}

/// Hysteresis: a RAM trim is only ever planned after three consecutive
/// samples at or above the threshold.
pub proof fn lemma_trim_needs_consecutive_pressure(samples: Seq<bool>)
    requires
        trims_on_last(samples),
    ensures
        samples.len() >= GUARD_HYSTERESIS_SAMPLES,
        forall|j: int| samples.len() - GUARD_HYSTERESIS_SAMPLES <= j < samples.len() ==> #[trigger] samples[j],
{
    let prefix = samples.drop_last();
    lemma_pressure_is_trailing_run(prefix);
    assert forall|j: int| samples.len() - GUARD_HYSTERESIS_SAMPLES <= j < samples.len() implies #[trigger] samples[j] by {
        if j < samples.len() - 1 {
            assert(samples[j] == prefix[j]);
        }
    }
}

/// A cycle planned during a cooldown does nothing and leaves the state alone;
/// one planned without `--allow-kill` never closes a process.
pub proof fn lemma_cooldown_and_trim_only(
    before_count: u64,
    before_cooldown: Option<u64>,
    after_count: u64,
    after_cooldown: Option<u64>,
    now: u64,
    allow_kill: bool,
    p: CyclePlan,
)
    requires
        cooling(before_cooldown, now) ==> p == idle_plan() && after_count == before_count
            && after_cooldown == before_cooldown,
        !cooling(before_cooldown, now) ==> p.close_offenders == allow_kill && !p.cooling_down,
    ensures
        cooling(before_cooldown, now) ==> !p.trim_ram && p.rescue_target is None && !p.close_offenders,
        !allow_kill ==> !p.close_offenders,
{
}

/// A rescue never runs past the phase at which enough space is free, and a
/// finished rescue either reached the target or went through every phase.
pub proof fn lemma_rescue_stops_when_enough(before: DiskRescue, after: DiskRescue, freed: u64)
    requires
        before.phase is Some,
        after.free_bytes == before.free_bytes,
        after.target_bytes == before.target_bytes,
        after.total_freed == before.total_freed + freed,
        after.phase == (if before.free_bytes + before.total_freed + freed >= before.target_bytes {
            None
        } else {
            next_phase(before.phase.unwrap())
        }),
    ensures
        after.free_bytes + after.total_freed >= after.target_bytes ==> after.phase is None,
        after.phase is None ==> after.free_bytes + after.total_freed >= after.target_bytes
            || before.phase == Some(DiskRescuePhase::PurgeBin),
{
}

} // verus!
