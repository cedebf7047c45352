//! The single registry of built-in category metadata.
//!
//! `sweep clean` and `sweep diagnose` both read id, title, risk and
//! reclaimability from here, so the two commands cannot give opposite verdicts
//! for the same directory. Discovery code only supplies the roots it found on
//! this machine.
use vstd::prelude::*;

use crate::domain::models::{CleanCategory, RiskLevel};
use crate::paths::{join_path, join_spec};

verus! {

#[derive(Debug, Clone, Copy, PartialEq, Eq)]
pub struct CategoryDescriptor {
    pub id: &'static str,
    pub title: &'static str,
    pub risk: RiskLevel,
    /// false = sweep may measure and report this category but must never
    /// remove anything in it
    pub reclaimable: bool,
    /// guidance shown by diagnose (e.g. the correct tool to reclaim it)
    pub hint: Option<&'static str>,
}

pub struct CategoryDescriptorModel {
    pub id: Seq<char>,
    pub title: Seq<char>,
    pub risk: RiskLevel,
    pub reclaimable: bool,
    pub hint: Option<Seq<char>>,
}

pub open spec fn opt_str_view(o: Option<&'static str>) -> Option<Seq<char>> {
    match o {
        Some(s) => Some(s@),
        None => None,
    }
}

impl DeepView for CategoryDescriptor {
    type V = CategoryDescriptorModel;

    open spec fn deep_view(&self) -> CategoryDescriptorModel {
        CategoryDescriptorModel {
            id: self.id@,
            title: self.title@,
            risk: self.risk,
            reclaimable: self.reclaimable,
            hint: opt_str_view(self.hint),
        }
    }
}

/// A reclaimable, safe descriptor without a hint.
pub fn safe(id: &'static str, title: &'static str) -> (d: CategoryDescriptor)
    ensures
        d.id == id,
        d.title == title,
        d.risk == RiskLevel::Safe,
        d.reclaimable,
        d.hint is None,
{
    CategoryDescriptor { id, title, risk: RiskLevel::Safe, reclaimable: true, hint: None }
}

/// The registry, entry by entry.
pub open spec fn registry_model() -> Seq<CategoryDescriptorModel> {
    seq![
        CategoryDescriptorModel { id: "user-temp"@, title: "User temp files"@, risk: RiskLevel::Safe, reclaimable: true, hint: None },
        CategoryDescriptorModel { id: "crash-dumps"@, title: "Crash dumps"@, risk: RiskLevel::Safe, reclaimable: true, hint: None },
        CategoryDescriptorModel { id: "chrome-cache"@, title: "Google Chrome cache"@, risk: RiskLevel::Safe, reclaimable: true, hint: None },
        CategoryDescriptorModel { id: "chrome-code-cache"@, title: "Google Chrome code cache"@, risk: RiskLevel::Safe, reclaimable: true, hint: None },
        CategoryDescriptorModel { id: "chrome-gpu"@, title: "Google Chrome GPU cache"@, risk: RiskLevel::Safe, reclaimable: true, hint: None },
        CategoryDescriptorModel { id: "chromium-cache"@, title: "Chromium cache"@, risk: RiskLevel::Safe, reclaimable: true, hint: None },
        CategoryDescriptorModel { id: "edge-cache"@, title: "Microsoft Edge cache"@, risk: RiskLevel::Safe, reclaimable: true, hint: None },
        CategoryDescriptorModel { id: "edge-code-cache"@, title: "Microsoft Edge code cache"@, risk: RiskLevel::Safe, reclaimable: true, hint: None },
        CategoryDescriptorModel { id: "edge-gpu"@, title: "Microsoft Edge GPU cache"@, risk: RiskLevel::Safe, reclaimable: true, hint: None },
        CategoryDescriptorModel { id: "brave-cache"@, title: "Brave cache"@, risk: RiskLevel::Safe, reclaimable: true, hint: None },
        CategoryDescriptorModel { id: "brave-code-cache"@, title: "Brave code cache"@, risk: RiskLevel::Safe, reclaimable: true, hint: None },
        CategoryDescriptorModel { id: "brave-gpu"@, title: "Brave GPU cache"@, risk: RiskLevel::Safe, reclaimable: true, hint: None },
        CategoryDescriptorModel { id: "vivaldi-cache"@, title: "Vivaldi cache"@, risk: RiskLevel::Safe, reclaimable: true, hint: None },
        CategoryDescriptorModel { id: "vivaldi-code-cache"@, title: "Vivaldi code cache"@, risk: RiskLevel::Safe, reclaimable: true, hint: None },
        CategoryDescriptorModel { id: "vivaldi-gpu"@, title: "Vivaldi GPU cache"@, risk: RiskLevel::Safe, reclaimable: true, hint: None },
        CategoryDescriptorModel { id: "opera-cache"@, title: "Opera cache"@, risk: RiskLevel::Safe, reclaimable: true, hint: None },
        CategoryDescriptorModel { id: "opera-code-cache"@, title: "Opera code cache"@, risk: RiskLevel::Safe, reclaimable: true, hint: None },
        CategoryDescriptorModel { id: "opera-gpu"@, title: "Opera GPU cache"@, risk: RiskLevel::Safe, reclaimable: true, hint: None },
        CategoryDescriptorModel { id: "opera-gx-cache"@, title: "Opera GX cache"@, risk: RiskLevel::Safe, reclaimable: true, hint: None },
        CategoryDescriptorModel { id: "opera-gx-code-cache"@, title: "Opera GX code cache"@, risk: RiskLevel::Safe, reclaimable: true, hint: None },
        CategoryDescriptorModel { id: "opera-gx-gpu"@, title: "Opera GX GPU cache"@, risk: RiskLevel::Safe, reclaimable: true, hint: None },
        CategoryDescriptorModel { id: "firefox-cache"@, title: "Firefox cache"@, risk: RiskLevel::Safe, reclaimable: true, hint: None },
        CategoryDescriptorModel { id: "npm-cache"@, title: "npm package cache"@, risk: RiskLevel::Safe, reclaimable: true, hint: None },
        CategoryDescriptorModel { id: "pip-cache"@, title: "pip package cache"@, risk: RiskLevel::Safe, reclaimable: true, hint: None },
        CategoryDescriptorModel { id: "thumbnails"@, title: "Image thumbnails"@, risk: RiskLevel::Safe, reclaimable: true, hint: None },
        CategoryDescriptorModel { id: "fontconfig"@, title: "Fontconfig cache"@, risk: RiskLevel::Safe, reclaimable: true, hint: None },
        CategoryDescriptorModel { id: "dev-pnpm"@, title: "pnpm store"@, risk: RiskLevel::Safe, reclaimable: true, hint: Some("pnpm uses hardlinks; sweep runs 'pnpm store prune' for safe reclaim"@) },
        CategoryDescriptorModel { id: "dev-cargo"@, title: "cargo cache"@, risk: RiskLevel::Safe, reclaimable: true, hint: None },
        CategoryDescriptorModel { id: "dev-gradle"@, title: "gradle caches"@, risk: RiskLevel::Safe, reclaimable: true, hint: None },
        CategoryDescriptorModel { id: "dev-uv"@, title: "uv cache"@, risk: RiskLevel::Safe, reclaimable: true, hint: None },
        CategoryDescriptorModel { id: "dev-pipx"@, title: "pipx cache"@, risk: RiskLevel::Safe, reclaimable: true, hint: None },
        CategoryDescriptorModel { id: "wu-downloads"@, title: "Windows Update downloads"@, risk: RiskLevel::System, reclaimable: true, hint: None },
        CategoryDescriptorModel { id: "do-cache"@, title: "Delivery Optimization cache"@, risk: RiskLevel::System, reclaimable: true, hint: None },
        CategoryDescriptorModel { id: "winsxs"@, title: "WinSxS reclaimable"@, risk: RiskLevel::System, reclaimable: true, hint: Some("Elevated: dism /Online /Cleanup-Image /StartComponentCleanup"@) },
        CategoryDescriptorModel { id: "driver-store"@, title: "Driver Store"@, risk: RiskLevel::System, reclaimable: false, hint: Some("Elevated: pnputil /enum-drivers, then pnputil /delete-driver <oem##.inf> /uninstall"@) },
        CategoryDescriptorModel { id: "index"@, title: "Index DB"@, risk: RiskLevel::System, reclaimable: false, hint: Some("Managed by sweep; 'sweep index --compact' returns its freed pages"@) },
    ]
}

/// Every built-in category, in registry order.
pub fn registry() -> (r: Vec<CategoryDescriptor>)
    ensures
        r.deep_view() == registry_model(),
{
    let r = vec![
        CategoryDescriptor { id: "user-temp", title: "User temp files", risk: RiskLevel::Safe, reclaimable: true, hint: None },
        CategoryDescriptor { id: "crash-dumps", title: "Crash dumps", risk: RiskLevel::Safe, reclaimable: true, hint: None },
        CategoryDescriptor { id: "chrome-cache", title: "Google Chrome cache", risk: RiskLevel::Safe, reclaimable: true, hint: None },
        CategoryDescriptor { id: "chrome-code-cache", title: "Google Chrome code cache", risk: RiskLevel::Safe, reclaimable: true, hint: None },
        CategoryDescriptor { id: "chrome-gpu", title: "Google Chrome GPU cache", risk: RiskLevel::Safe, reclaimable: true, hint: None },
        CategoryDescriptor { id: "chromium-cache", title: "Chromium cache", risk: RiskLevel::Safe, reclaimable: true, hint: None },
        CategoryDescriptor { id: "edge-cache", title: "Microsoft Edge cache", risk: RiskLevel::Safe, reclaimable: true, hint: None },
        CategoryDescriptor { id: "edge-code-cache", title: "Microsoft Edge code cache", risk: RiskLevel::Safe, reclaimable: true, hint: None },
        CategoryDescriptor { id: "edge-gpu", title: "Microsoft Edge GPU cache", risk: RiskLevel::Safe, reclaimable: true, hint: None },
        CategoryDescriptor { id: "brave-cache", title: "Brave cache", risk: RiskLevel::Safe, reclaimable: true, hint: None },
        CategoryDescriptor { id: "brave-code-cache", title: "Brave code cache", risk: RiskLevel::Safe, reclaimable: true, hint: None },
        CategoryDescriptor { id: "brave-gpu", title: "Brave GPU cache", risk: RiskLevel::Safe, reclaimable: true, hint: None },
        CategoryDescriptor { id: "vivaldi-cache", title: "Vivaldi cache", risk: RiskLevel::Safe, reclaimable: true, hint: None },
        CategoryDescriptor { id: "vivaldi-code-cache", title: "Vivaldi code cache", risk: RiskLevel::Safe, reclaimable: true, hint: None },
        CategoryDescriptor { id: "vivaldi-gpu", title: "Vivaldi GPU cache", risk: RiskLevel::Safe, reclaimable: true, hint: None },
        CategoryDescriptor { id: "opera-cache", title: "Opera cache", risk: RiskLevel::Safe, reclaimable: true, hint: None },
        CategoryDescriptor { id: "opera-code-cache", title: "Opera code cache", risk: RiskLevel::Safe, reclaimable: true, hint: None },
        CategoryDescriptor { id: "opera-gpu", title: "Opera GPU cache", risk: RiskLevel::Safe, reclaimable: true, hint: None },
        CategoryDescriptor { id: "opera-gx-cache", title: "Opera GX cache", risk: RiskLevel::Safe, reclaimable: true, hint: None },
        CategoryDescriptor { id: "opera-gx-code-cache", title: "Opera GX code cache", risk: RiskLevel::Safe, reclaimable: true, hint: None },
        CategoryDescriptor { id: "opera-gx-gpu", title: "Opera GX GPU cache", risk: RiskLevel::Safe, reclaimable: true, hint: None },
        CategoryDescriptor { id: "firefox-cache", title: "Firefox cache", risk: RiskLevel::Safe, reclaimable: true, hint: None },
        CategoryDescriptor { id: "npm-cache", title: "npm package cache", risk: RiskLevel::Safe, reclaimable: true, hint: None },
        CategoryDescriptor { id: "pip-cache", title: "pip package cache", risk: RiskLevel::Safe, reclaimable: true, hint: None },
        CategoryDescriptor { id: "thumbnails", title: "Image thumbnails", risk: RiskLevel::Safe, reclaimable: true, hint: None },
        CategoryDescriptor { id: "fontconfig", title: "Fontconfig cache", risk: RiskLevel::Safe, reclaimable: true, hint: None },
        CategoryDescriptor { id: "dev-pnpm", title: "pnpm store", risk: RiskLevel::Safe, reclaimable: true, hint: Some("pnpm uses hardlinks; sweep runs 'pnpm store prune' for safe reclaim") },
        CategoryDescriptor { id: "dev-cargo", title: "cargo cache", risk: RiskLevel::Safe, reclaimable: true, hint: None },
        CategoryDescriptor { id: "dev-gradle", title: "gradle caches", risk: RiskLevel::Safe, reclaimable: true, hint: None },
        CategoryDescriptor { id: "dev-uv", title: "uv cache", risk: RiskLevel::Safe, reclaimable: true, hint: None },
        CategoryDescriptor { id: "dev-pipx", title: "pipx cache", risk: RiskLevel::Safe, reclaimable: true, hint: None },
        CategoryDescriptor { id: "wu-downloads", title: "Windows Update downloads", risk: RiskLevel::System, reclaimable: true, hint: None },
        CategoryDescriptor { id: "do-cache", title: "Delivery Optimization cache", risk: RiskLevel::System, reclaimable: true, hint: None },
        CategoryDescriptor { id: "winsxs", title: "WinSxS reclaimable", risk: RiskLevel::System, reclaimable: true, hint: Some("Elevated: dism /Online /Cleanup-Image /StartComponentCleanup") },
        CategoryDescriptor { id: "driver-store", title: "Driver Store", risk: RiskLevel::System, reclaimable: false, hint: Some("Elevated: pnputil /enum-drivers, then pnputil /delete-driver <oem##.inf> /uninstall") },
        CategoryDescriptor { id: "index", title: "Index DB", risk: RiskLevel::System, reclaimable: false, hint: Some("Managed by sweep; 'sweep index --compact' returns its freed pages") },
    ];
    assert(r.deep_view() =~= registry_model());
    r
}

/// Index of the first registry entry whose id is `id`, or the registry
/// length when there is none.
pub open spec fn first_with_id(reg: Seq<CategoryDescriptorModel>, id: Seq<char>) -> int
    decreases reg.len(),
{
    if reg.len() == 0 {
        0
    } else if reg[0].id == id {
        0
    } else {
        1 + first_with_id(reg.drop_first(), id)
    }
}

proof fn lemma_first_with_id(reg: Seq<CategoryDescriptorModel>, id: Seq<char>)
    ensures
        0 <= first_with_id(reg, id) <= reg.len(),
        first_with_id(reg, id) < reg.len() ==> reg[first_with_id(reg, id)].id == id,
        forall|j: int| 0 <= j < first_with_id(reg, id) ==> reg[j].id != id,
    decreases reg.len(),
{
    if reg.len() > 0 && reg[0].id != id {
        lemma_first_with_id(reg.drop_first(), id);
        assert forall|j: int| 0 <= j < first_with_id(reg, id) implies reg[j].id != id by {
            if j > 0 {
                assert(reg[j] == reg.drop_first()[j - 1]);
            }
        }
    }
}

/// True when some registry entry has this id.
pub open spec fn registered(id: Seq<char>) -> bool {
    first_with_id(registry_model(), id) < registry_model().len()
}

/// The registry entry for `id`.
pub open spec fn descriptor_for(id: Seq<char>) -> CategoryDescriptorModel {
    registry_model()[first_with_id(registry_model(), id)]
}

/// The registry entry with this id, if any.
pub fn lookup(id: &str) -> (r: Option<CategoryDescriptor>)
    ensures
        r is Some <==> registered(id@),
        r matches Some(d) ==> d.deep_view() == descriptor_for(id@),
{
    let reg = registry();
    let mut i: usize = 0;
    proof {
        lemma_first_with_id(registry_model(), id@);
    }
    while i < reg.len()
        invariant
            reg.deep_view() == registry_model(),
            i <= reg@.len(),
            0 <= first_with_id(registry_model(), id@) <= registry_model().len(),
            first_with_id(registry_model(), id@) < registry_model().len() ==> registry_model()[first_with_id(registry_model(), id@)].id == id@,
            forall|j: int| 0 <= j < first_with_id(registry_model(), id@) ==> registry_model()[j].id != id@,
            forall|j: int| 0 <= j < i ==> registry_model()[j].id != id@,
        decreases reg@.len() - i,
    {
        assert(reg.deep_view()[i as int] == reg@[i as int].deep_view());
        if crate::text::str_eq(reg[i].id, id) {
            return Some(reg[i]);
        }
        i = i + 1;
    }
    None
}

/// Build a built-in [`CleanCategory`] from its registry entry.
///
/// Every built-in category must be registered; an unknown id is a caller error.
pub fn category(id: &str, roots: Vec<String>) -> (c: CleanCategory)
    requires
        registered(id@),
    ensures
        c.id@ == id@,
        c.title@ == descriptor_for(id@).title,
        c.risk == descriptor_for(id@).risk,
        c.reclaimable == descriptor_for(id@).reclaimable,
        c.roots@ == roots@,
        c.cleanup_command is None,
{
    let d = lookup(id).unwrap();
    proof {
        lemma_first_with_id(registry_model(), id@);
    }
    CleanCategory {
        id: crate::text::owned(d.id),
        title: crate::text::owned(d.title),
        roots,
        risk: d.risk,
        cleanup_command: None,
        reclaimable: d.reclaimable,
    }
}

/// `%SystemRoot%`: the variable's value when set and non-empty, otherwise
/// `C:\Windows`.
pub fn system_root(env_value: Option<&str>) -> (r: String)
    ensures
        match env_value {
            Some(v) => if v@.len() > 0 { r@ == v@ } else { r@ == "C:\\Windows"@ },
            None => r@ == "C:\\Windows"@,
        },
{
    match env_value {
        Some(v) => {
            if v.is_empty() {
                crate::text::owned("C:\\Windows")
            } else {
                crate::text::owned(v)
            }
        },
        None => crate::text::owned("C:\\Windows"),
    }
}

/// The Driver Store package repository under a system root.
pub fn driver_store_path(system_root: &str) -> (r: String)
    ensures
        r@ == join_spec(join_spec(join_spec(system_root@, "System32"@, '\\'), "DriverStore"@, '\\'), "FileRepository"@, '\\'),
{
    let a = join_path(system_root, "System32", '\\');
    let b = join_path(a.as_str(), "DriverStore", '\\');
    join_path(b.as_str(), "FileRepository", '\\')
}

} // verus!
