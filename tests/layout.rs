use reskin::classify::{classify, font_file_name, wm_dir_name, Components};
use reskin::collect::{is_hidden_name, join_segments, visible_files};
use reskin::install::{
    install_destination, install_report, label, planned_components, with_activation, Component,
};
use reskin::recent::record_recent;
use reskin::types::RecentTheme;

fn listing(paths: &[&str]) -> Vec<Vec<String>> {
    paths.iter().map(|p| p.split('/').map(String::from).collect()).collect()
}

#[test]
fn hidden_directories_are_skipped() {
    let l = listing(&[".git/config", "a.css", "sub/.cache/x", ".hidden", "sub/ok/y.png"]);
    let v = visible_files(&l);
    assert_eq!(v, vec!["a.css".to_string(), ".hidden".to_string(), "sub/ok/y.png".to_string()]);
}

#[test]
fn empty_listing_selects_nothing() {
    assert!(visible_files(&vec![]).is_empty());
}

#[test]
fn hidden_names_and_joins() {
    assert!(is_hidden_name(".git"));
    assert!(!is_hidden_name("git"));
    assert!(!is_hidden_name(""));
    assert_eq!(join_segments(&vec!["a".to_string(), "b".to_string(), "c.txt".to_string()]), "a/b/c.txt");
    assert_eq!(join_segments(&vec![]), "");
}

#[test]
fn fonts_only_theme() {
    let c = classify(&listing(&["a.ttf", "b.otf"]));
    assert_eq!(c, Components { gtk: false, icons: false, cursors: false, fonts: true });
}

#[test]
fn unrecognized_theme() {
    let c = classify(&listing(&["readme.txt", "misc/notes.md"]));
    assert_eq!(c, Components { gtk: false, icons: false, cursors: false, fonts: false });
    let plan = planned_components(&c);
    assert!(plan.is_empty());
    assert_eq!(
        install_report("Nord", &plan),
        "Theme 'Nord' installed successfully!\nComponents: No compatible components found"
    );
}

#[test]
fn every_component() {
    let c = classify(&listing(&[
        "gtk-3.0/gtk.css",
        "icons/index.theme",
        "cursors/left_ptr",
        "fonts/Nord.ttf",
    ]));
    assert_eq!(c, Components { gtk: true, icons: true, cursors: true, fonts: true });
    let plan = planned_components(&c);
    assert_eq!(plan, vec![Component::WindowTheme, Component::Icons, Component::Cursors, Component::Fonts]);
    assert_eq!(
        install_report("Nord", &plan),
        "Theme 'Nord' installed successfully!\nComponents: GTK/Window Manager theme, Icons, Cursors, Fonts"
    );
}

#[test]
fn marker_must_be_a_directory() {
    let c = classify(&listing(&["gtk-3.0", "icons", "x/gtk-3.0/a"]));
    assert_eq!(c, Components { gtk: false, icons: false, cursors: false, fonts: false });
}

#[test]
fn classifier_names() {
    assert!(wm_dir_name("xfwm4"));
    assert!(wm_dir_name("gtk-4.0"));
    assert!(!wm_dir_name("gtk-5.0"));
    assert!(font_file_name("a.ttf"));
    assert!(font_file_name(".otf"));
    assert!(!font_file_name("a.ttf.bak"));
    assert!(!font_file_name("tf"));
    assert_eq!(label(Component::Icons), "Icons");
}

#[test]
fn single_component_report() {
    let plan = planned_components(&Components { gtk: false, icons: false, cursors: true, fonts: false });
    assert_eq!(install_report("T", &plan), "Theme 'T' installed successfully!\nComponents: Cursors");
}

#[test]
fn destinations() {
    assert_eq!(install_destination("/home/u", "Nord", Component::WindowTheme), "/home/u/.themes/Nord");
    assert_eq!(install_destination("/home/u", "Nord", Component::Icons), "/home/u/.icons/Nord");
    assert_eq!(install_destination("/home/u", "Nord", Component::Cursors), "/home/u/.icons/Nord");
    assert_eq!(
        install_destination("/home/u", "Nord", Component::Fonts),
        "/home/u/.local/share/fonts/Nord"
    );
}

#[test]
fn activation_outcomes() {
    assert_eq!(with_activation("R".to_string(), Ok("applied".to_string())), "R\n\napplied");
    assert_eq!(
        with_activation("R".to_string(), Err("boom".to_string())),
        "R\n\n\u{26a0}\u{fe0f} Failed to auto-apply: boom"
    );
}

fn entry(name: &str, at: u64) -> RecentTheme {
    RecentTheme { name: name.to_string(), author: "a".to_string(), description: "d".to_string(), installed_at: at }
}

#[test]
fn recent_history_dedups_and_caps() {
    let h = vec![entry("a", 1), entry("b", 2), entry("c", 3), entry("d", 4)];
    let r = record_recent(&h, entry("c", 9));
    let names: Vec<&str> = r.iter().map(|t| t.name.as_str()).collect();
    assert_eq!(names, vec!["c", "a", "b", "d"]);
    assert_eq!(r[0].installed_at, 9);
    let r2 = record_recent(&r, entry("e", 10));
    let names2: Vec<&str> = r2.iter().map(|t| t.name.as_str()).collect();
    assert_eq!(names2, vec!["e", "c", "a", "b"]);
    let r3 = record_recent(&vec![], entry("z", 1));
    assert_eq!(r3.len(), 1);
}

#[test]
fn plain_directory_names() {
    assert!(reskin::collect::plain_name("Nord"));
    assert!(reskin::collect::plain_name("..x"));
    assert!(!reskin::collect::plain_name(""));
    assert!(!reskin::collect::plain_name("."));
    assert!(!reskin::collect::plain_name(".."));
    assert!(!reskin::collect::plain_name("a/b"));
}
