use sweep::desktop::{parse_desktop_entry, DesktopFileInventory};

const SAMPLE: &str = "\
[Desktop Entry]
Type=Application
Name=Firefox Web Browser
GenericName=Web Browser
Comment=Browse the Web
Exec=firefox %u
Version=1.0
NoDisplay=false

[Desktop Action NewWindow]
Name=Open a New Window
Exec=firefox --new-window %u
";

#[test]
fn parses_main_entry_and_ignores_actions() {
    let p = parse_desktop_entry(SAMPLE);
    assert_eq!(p.name, "Firefox Web Browser");
    assert_eq!(p.version, "1.0");
    assert!(p.is_application);
    assert!(!p.hidden_or_undisplayable);
    assert_eq!(p.exec_command.as_deref(), Some("firefox %u"));
}

#[test]
fn flags_hidden_entries() {
    let p = parse_desktop_entry("[Desktop Entry]\nType=Application\nName=X\nExec=x\nHidden=true\n");
    assert!(p.hidden_or_undisplayable);
}

#[test]
fn rejects_non_applications() {
    let p = parse_desktop_entry("[Desktop Entry]\nType=Link\nName=Y\n");
    assert!(!p.is_application);
}

#[test]
fn inventory_dedups_by_name_and_version_and_sorts_case_insensitively() {
    let inv = DesktopFileInventory::with_dirs(vec!["/x".to_string()]);
    let files = vec![
        "[Desktop Entry]\nType=Application\nName=Bravo\n".to_string(),
        "[Desktop Entry]\nType=Application\nName=alpha\n".to_string(),
        "[Desktop Entry]\nType=Application\nName=Alpha\n".to_string(),
        "[Desktop Entry]\nType=Application\nName=Zed\nNoDisplay=TRUE\n".to_string(),
        "[Desktop Entry]\nType=Application\n".to_string(),
    ];
    let apps = inv.apps_from_files(&files);
    let names: Vec<&str> = apps.iter().map(|a| a.name.as_str()).collect();
    assert_eq!(names, vec!["alpha", "Bravo"]);
    let dirs = DesktopFileInventory::new(Some("/home/me")).dirs;
    assert_eq!(dirs, vec!["/usr/share/applications", "/home/me/.local/share/applications"]);
}

#[test]
fn inventory_reads_dirs_dedups_and_sorts() {
    let inv = DesktopFileInventory::with_dirs(vec!["/tmp/sweep-desktop-test".to_string()]);
    // b.desktop, a2.desktop, a1.desktop, hidden.desktop, in the order the
    // directory listing hands them over (the first of two equal names wins).
    let files = vec![
        "[Desktop Entry]\nType=Application\nName=Bravo\n".to_string(),
        "[Desktop Entry]\nType=Application\nName=alpha\n".to_string(),
        "[Desktop Entry]\nType=Application\nName=Alpha\n".to_string(),
        "[Desktop Entry]\nType=Application\nName=Zed\nNoDisplay=true\n".to_string(),
    ];
    let apps = inv.apps_from_files(&files);
    let names: Vec<&str> = apps.iter().map(|a| a.name.as_str()).collect();
    assert_eq!(names, vec!["alpha", "Bravo"]);
}

#[test]
fn only_the_first_main_section_is_read() {
    let p = parse_desktop_entry(
        "[Desktop Entry]\nType=Application\nName=A\n[Desktop Action X]\nName=B\n[Desktop Entry]\nName=C\n",
    );
    assert_eq!(p.name, "A");
    assert!(p.is_application);
}
