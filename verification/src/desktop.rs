//! Installed applications on Linux: the `.desktop` entries of the
//! application directories.
use vstd::prelude::*;

use crate::domain::models::{InstalledApp, InstalledAppModel};
use crate::paths::{join_path, join_spec};
use crate::sorting::{lemma_sort_asc_map, sort_by_text, sorted_asc, SpecTextKey, TextKey};
use crate::text::{
    ascii_lower, chars_eq, chars_of, lines, lines_of, owned, push_chars, push_str, slice_chars, string_of, to_ascii_lower,
    to_lowercase, trim, trim_chars, unicode_lower, views,
};
use crate::apps::app_models;

verus! {

#[derive(Debug, PartialEq, Clone)]
pub struct ParsedDesktopEntry {
    pub name: String,
    pub version: String,
    pub is_application: bool,
    pub hidden_or_undisplayable: bool,
    /// the `Exec` line (named so because `exec` is a Verus keyword)
    pub exec_command: Option<String>,
}

/// What has been read of the main section so far.
pub struct EntryState {
    pub name: Seq<char>,
    pub version: Seq<char>,
    pub exec_command: Option<Seq<char>>,
    pub is_application: bool,
    pub hidden: bool,
    pub in_main: bool,
    /// the first main section has ended
    pub done: bool,
}

pub open spec fn initial_state() -> EntryState {
    EntryState { name: Seq::empty(), version: Seq::empty(), exec_command: None, is_application: false, hidden: false, in_main: false, done: false }
}

/// Position of the first `c` in `s`, or -1.
pub open spec fn first_index(s: Seq<char>, c: char) -> int
    decreases s.len(),
{
    if s.len() == 0 {
        -1
    } else if s[0] == c {
        0
    } else {
        let r = first_index(s.drop_first(), c);
        if r < 0 {
            -1
        } else {
            r + 1
        }
    }
}

/// One line of a desktop file: the first `[Desktop Entry]` header opens the
/// main section and the next header of any kind closes it for good; inside
/// it, `key=value` lines set the fields this inventory reads (blank lines and
/// `#` comments are skipped).
pub open spec fn entry_step(st: EntryState, raw: Seq<char>) -> EntryState {
    let line = trim(raw);
    if line.len() > 0 && line[0] == '[' && line.last() == ']' {
        if st.in_main {
            EntryState { in_main: false, done: true, ..st }
        } else {
            EntryState { in_main: !st.done && line == "[Desktop Entry]"@, ..st }
        }
    } else if !st.in_main || line.len() == 0 || line[0] == '#' {
        st
    } else {
        let i = first_index(line, '=');
        if i < 0 {
            st
        } else {
            let key = trim(line.take(i));
            let value = trim(line.skip(i + 1));
            if key == "Name"@ {
                EntryState { name: value, ..st }
            } else if key == "Version"@ {
                EntryState { version: value, ..st }
            } else if key == "Exec"@ {
                EntryState { exec_command: Some(value), ..st }
            } else if key == "Type"@ {
                EntryState { is_application: value == "Application"@, ..st }
            } else if (key == "NoDisplay"@ || key == "Hidden"@) && ascii_lower(value) == "true"@ {
                EntryState { hidden: true, ..st }
            } else {
                st
            }
        }
    }
}

pub open spec fn entry_fold(ls: Seq<Seq<char>>) -> EntryState
    decreases ls.len(),
{
    if ls.len() == 0 {
        initial_state()
    } else {
        entry_step(entry_fold(ls.drop_last()), ls.last())
    }
}

pub open spec fn parse_spec(content: Seq<char>) -> EntryState {
    entry_fold(lines(content))
}

fn first_eq(v: &Vec<char>) -> (r: Option<usize>)
    ensures
        match r {
            Some(i) => i < v@.len() && first_index(v@, '=') == i,
            None => first_index(v@, '=') < 0,
        },
{
    let mut i: usize = 0;
    assert(v@.skip(0) =~= v@);
    while i < v.len()
        invariant
            i <= v@.len(),
            first_index(v@, '=') == (if first_index(v@.skip(i as int), '=') < 0 {
                -1
            } else {
                first_index(v@.skip(i as int), '=') + i
            }),
        decreases v@.len() - i,
    {
        assert(v@.skip(i as int)[0] == v@[i as int]);
        assert(v@.skip(i as int).drop_first() =~= v@.skip(i + 1));
        if v[i] == '=' {
            return Some(i);
        }
        i = i + 1;
    }
    None
}

fn eq_lit(v: &Vec<char>, lit: &str) -> (r: bool)
    ensures
        r == (v@ == lit@),
{
    chars_eq(v, &chars_of(lit))
}

/// Parse the first `[Desktop Entry]` section of a desktop file; everything
/// else (e.g. `[Desktop Action ...]` sections) is ignored.
pub fn parse_desktop_entry(content: &str) -> (r: ParsedDesktopEntry)
    ensures
        r.name@ == parse_spec(content@).name,
        r.version@ == parse_spec(content@).version,
        crate::domain::models::opt_view(r.exec_command) == parse_spec(content@).exec_command,
        r.is_application == parse_spec(content@).is_application,
        r.hidden_or_undisplayable == parse_spec(content@).hidden,
{
    let ls = lines_of(&chars_of(content));
    let ghost all = views(ls@);
    let mut name: Vec<char> = Vec::new();
    let mut version: Vec<char> = Vec::new();
    let mut exec: Option<Vec<char>> = None;
    let mut is_application = false;
    let mut hidden = false;
    let mut in_main = false;
    let mut done = false;
    let mut i: usize = 0;
    while i < ls.len()
        invariant
            i <= ls@.len(),
            all == views(ls@),
            all == lines(content@),
            ({
                let st = entry_fold(all.take(i as int));
                &&& st.name == name@
                &&& st.version == version@
                &&& st.exec_command == match exec {
                    Some(e) => Some(e@),
                    None => None,
                }
                &&& st.is_application == is_application
                &&& st.hidden == hidden
                &&& st.in_main == in_main
                &&& st.done == done
            }),
        decreases ls@.len() - i,
    {
        assert(all.take(i + 1).drop_last() =~= all.take(i as int));
        assert(all.take(i + 1).last() == ls@[i as int]@);
        let line = trim_chars(&ls[i]);
        if line.len() > 0 && line[0] == '[' && line[line.len() - 1] == ']' {
            if in_main {
                in_main = false;
                done = true;
            } else {
                in_main = !done && eq_lit(&line, "[Desktop Entry]");
            }
        } else if !in_main || line.len() == 0 || line[0] == '#' {
        } else {
            match first_eq(&line) {
                None => {},
                Some(k) => {
                    let kraw = slice_chars(&line, 0, k);
                    let vraw = slice_chars(&line, k + 1, line.len());
                    assert(kraw@ =~= line@.take(k as int));
                    assert(vraw@ =~= line@.skip(k + 1));
                    let key = trim_chars(&kraw);
                    let value = trim_chars(&vraw);
                    if eq_lit(&key, "Name") {
                        name = value;
                    } else if eq_lit(&key, "Version") {
                        version = value;
                    } else if eq_lit(&key, "Exec") {
                        exec = Some(value);
                    } else if eq_lit(&key, "Type") {
                        is_application = eq_lit(&value, "Application");
                    } else if eq_lit(&key, "NoDisplay") || eq_lit(&key, "Hidden") {
                        let lv = to_ascii_lower(&value);
                        if eq_lit(&lv, "true") {
                            hidden = true;
                        }
                    }
                },
            }
        }
        i = i + 1;
    }
    assert(all.take(ls@.len() as int) =~= all);
    ParsedDesktopEntry {
        name: string_of(&name),
        version: string_of(&version),
        is_application,
        hidden_or_undisplayable: hidden,
        exec_command: match exec {
            Some(e) => Some(string_of(&e)),
            None => None,
        },
    }
}

// ---------------------------------------------------------------------------
// The inventory
// ---------------------------------------------------------------------------

impl SpecTextKey for InstalledApp {
    open spec fn text_key(&self) -> Seq<char> {
        unicode_lower(self.name@)
    }
}

impl TextKey for InstalledApp {
    fn text_key_of(&self) -> (k: Vec<char>) {
        chars_of(to_lowercase(self.name.as_str()).as_str())
    }
}

impl SpecTextKey for InstalledAppModel {
    open spec fn text_key(&self) -> Seq<char> {
        unicode_lower(self.name)
    }
}

/// The application a parsed entry lists, when it lists one: a visible
/// application with a name.
pub open spec fn listed(st: EntryState) -> bool {
    st.is_application && !st.hidden && st.name.len() > 0
}

pub open spec fn app_of(st: EntryState) -> InstalledAppModel {
    InstalledAppModel {
        name: st.name,
        version: st.version,
        publisher: Seq::empty(),
        install_location: None,
        uninstall_command: None,
        size_bytes: None,
        last_run_unix: None,
    }
}

/// Entries count as one application when their lower-cased names and their
/// versions agree.
pub open spec fn dedup_key(a: InstalledAppModel) -> Seq<char> {
    unicode_lower(a.name) + seq!['|'] + a.version
}

/// The applications of the desktop files read, in read order, each
/// name/version listed once (the first file wins).
pub open spec fn listed_apps(files: Seq<Seq<char>>) -> Seq<InstalledAppModel>
    decreases files.len(),
{
    if files.len() == 0 {
        Seq::empty()
    } else {
        let before = listed_apps(files.drop_last());
        let st = parse_spec(files.last());
        if listed(st) && !before.map_values(|a: InstalledAppModel| dedup_key(a)).contains(dedup_key(app_of(st))) {
            before.push(app_of(st))
        } else {
            before
        }
    }
}

/// The `.desktop` files of the application directories.
pub struct DesktopFileInventory {
    pub dirs: Vec<String>,
}

fn key_of(a: &InstalledApp) -> (k: Vec<char>)
    ensures
        k@ == dedup_key(a.deep_view()),
{
    let mut k = chars_of(to_lowercase(a.name.as_str()).as_str());
    k.push('|');
    push_str(&mut k, a.version.as_str());
    assert(k@ =~= dedup_key(a.deep_view()));
    k
}

impl DesktopFileInventory {
    /// The system directory, then the user's (below `home`, when set).
    pub fn new(home: Option<&str>) -> (r: DesktopFileInventory)
        ensures
            r.dirs.deep_view() == match home {
                Some(h) => seq!["/usr/share/applications"@, join_spec(h@, ".local/share/applications"@, '/')],
                None => seq!["/usr/share/applications"@],
            },
    {
        let mut dirs: Vec<String> = Vec::new();
        dirs.push(owned("/usr/share/applications"));
        match home {
            Some(h) => dirs.push(join_path(h, ".local/share/applications", '/')),
            None => {},
        }
        proof {
            match home {
                Some(h) => assert(dirs.deep_view() =~= seq!["/usr/share/applications"@, join_spec(h@, ".local/share/applications"@, '/')]),
                None => assert(dirs.deep_view() =~= seq!["/usr/share/applications"@]),
            }
        }
        DesktopFileInventory { dirs }
    }

    pub fn with_dirs(dirs: Vec<String>) -> (r: DesktopFileInventory)
        ensures
            r.dirs == dirs,
    {
        DesktopFileInventory { dirs }
    }

    /// The installed applications, from the contents of the desktop files
    /// found in the directories (in the order read): visible applications
    /// with a name, each name/version once, sorted by lower-cased name.
    pub fn apps_from_files(&self, files: &Vec<String>) -> (r: Vec<InstalledApp>)
        ensures
            app_models(r@) == sorted_asc(listed_apps(files.deep_view())),
    {
        let ghost fv = files.deep_view();
        let mut apps: Vec<InstalledApp> = Vec::new();
        let mut keys: Vec<Vec<char>> = Vec::new();
        let mut i: usize = 0;
        while i < files.len()
            invariant
                i <= files@.len(),
                fv == files.deep_view(),
                app_models(apps@) == listed_apps(fv.take(i as int)),
                keys@.len() == apps@.len(),
                forall|j: int| 0 <= j < keys@.len() ==> #[trigger] keys@[j]@ == dedup_key(apps@[j].deep_view()),
            decreases files@.len() - i,
        {
            assert(fv.take(i + 1).drop_last() =~= fv.take(i as int));
            assert(fv.take(i + 1).last() == files@[i as int]@);
            let p = parse_desktop_entry(files[i].as_str());
            let ghost st = parse_spec(files@[i as int]@);
            let ghost before = listed_apps(fv.take(i as int));
            if p.is_application && !p.hidden_or_undisplayable && chars_of(p.name.as_str()).len() > 0 {
                let app = InstalledApp {
                    name: p.name,
                    version: p.version,
                    publisher: string_of(&Vec::new()),
                    install_location: None,
                    uninstall_command: None,
                    size_bytes: None,
                    last_run_unix: None,
                };
                assert(app.deep_view() =~= app_of(st));
                let k = key_of(&app);
                let mut dup = false;
                let mut j: usize = 0;
                while j < keys.len()
                    invariant
                        j <= keys@.len(),
                        keys@.len() == apps@.len(),
                        forall|x: int| 0 <= x < keys@.len() ==> #[trigger] keys@[x]@ == dedup_key(apps@[x].deep_view()),
                        dup == exists|x: int| 0 <= x < j && keys@[x]@ == k@,
                    decreases keys@.len() - j,
                {
                    if chars_eq(&keys[j], &k) {
                        dup = true;
                    }
                    j = j + 1;
                }
                let ghost ks = before.map_values(|a: InstalledAppModel| dedup_key(a));
                assert(dup == ks.contains(dedup_key(app_of(st)))) by {
                    if dup {
                        let x = choose|x: int| 0 <= x < keys@.len() && keys@[x]@ == k@;
                        assert(ks[x] == dedup_key(apps@[x].deep_view()));
                    }
                    if ks.contains(dedup_key(app_of(st))) {
                        let x = choose|x: int| 0 <= x < ks.len() && ks[x] == dedup_key(app_of(st));
                        assert(keys@[x]@ == k@);
                    }
                }
                if !dup {
                    let ghost prev = app_models(apps@);
                    let ghost prevk = keys@;
                    apps.push(app);
                    keys.push(k);
                    assert(app_models(apps@) =~= prev.push(app_of(st)));
                    assert forall|x: int| 0 <= x < keys@.len() implies #[trigger] keys@[x]@ == dedup_key(apps@[x].deep_view()) by {
                        if x < prevk.len() {
                            assert(keys@[x] == prevk[x]);
                        }
                    }
                }
            }
            i = i + 1;
        }
        assert(fv.take(files@.len() as int) =~= fv);
        let ghost unsorted = apps@;
        let sorted = sort_by_text(apps);
        proof {
            lemma_sort_asc_map(unsorted, |a: InstalledApp| a.deep_view());
        }
        sorted
    }
}

} // verus!
