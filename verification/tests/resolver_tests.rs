use gnome_session_restore::find_command::{
    try_find_command_any, try_find_command_by_gtk_app_id, try_find_command_by_sandboxed_app_id,
    try_find_command_by_search_term, try_find_command_by_wm_class, Capability, FindError,
    FindOptions,
};
use gnome_session_restore::index::DesktopIndex;
use gnome_session_restore::session::Exec;
use gnome_session_restore::window::{MetaWindow, WindowGeom};

fn testset_index() -> DesktopIndex {
    let locations = vec![
        "/home/liss/.local/share/applications".to_string(),
        "/usr/share/applications".to_string(),
        "/var/lib/flatpak/exports/share/applications".to_string(),
    ];
    let files = vec![
        "/home/liss/.local/share/applications/tidal.desktop".to_string(),
        "/home/liss/.local/share/applications/net.lutris.multimc-2.desktop".to_string(),
        "/home/liss/.local/share/applications/net.lutris.battlenet-7.desktop".to_string(),
        "/var/lib/flatpak/exports/share/applications/com.jetbrains.CLion.desktop".to_string(),
        "/var/lib/flatpak/exports/share/applications/org.mozilla.firefox.desktop".to_string(),
        "/usr/share/applications/org.gnome.Terminal.desktop".to_string(),
        "/usr/share/applications/org.gimp.GIMP.desktop".to_string(),
    ];
    DesktopIndex::new(locations, files)
}

fn meta(window_class: &str, gtk_app_id: &str, sandboxed_app_id: &str) -> MetaWindow {
    MetaWindow {
        geom: WindowGeom { x: 0, y: 0, width: 0, height: 0, minimized: false },
        pid: 0,
        stable_seq: 0,
        window_class: window_class.to_string(),
        gtk_app_id: gtk_app_id.to_string(),
        sandboxed_app_id: sandboxed_app_id.to_string(),
    }
}

fn find_dummy(window_class: &str, gtk_app_id: &str, sandboxed_app_id: &str) -> Result<Exec, FindError> {
    let options = FindOptions {
        min_wm_class_similarity: 800000,
        min_partial_match_confidence: 600000,
        capabilities: Vec::new(),
    };
    try_find_command_any(
        &options,
        &meta(window_class, gtk_app_id, sandboxed_app_id),
        &testset_index(),
        Err(FindError::ProcSearchDisabledNoOtherOptionFound),
    )
}

#[test]
fn find_chrome_custom_app() {
    let s = find_dummy("chrome-listen.tidal.com__-Spotify", "", "").expect("finding any");

    assert_eq!(
        s,
        Exec::DesktopFile("/home/liss/.local/share/applications/tidal.desktop".into())
    );
}

#[test]
fn find_flatpak_app() {
    let s = find_dummy("jetbrains-clion", "", "com.jetbrains.CLion").expect("finding clion");

    assert_eq!(
        s,
        Exec::DesktopFile(
            "/var/lib/flatpak/exports/share/applications/com.jetbrains.CLion.desktop".into()
        )
    );

    let s = find_dummy("firefox", "", "org.mozilla.firefox").expect("finding firefox");

    assert_eq!(
        s,
        Exec::DesktopFile(
            "/var/lib/flatpak/exports/share/applications/org.mozilla.firefox.desktop".into()
        )
    );
}

#[test]
fn find_gnome_app() {
    let s = find_dummy("gnome-terminal-server", "org.gnome.Terminal", "")
        .expect("finding gnome terminal");

    assert_eq!(
        s,
        Exec::DesktopFile("/usr/share/applications/org.gnome.Terminal.desktop".into())
    );
}

#[test]
fn find_lutris_app() {
    let s = find_dummy("org.multimc.MultiMC", "", "").expect("finding multimc");

    assert_eq!(
        s,
        Exec::DesktopFile(
            "/home/liss/.local/share/applications/net.lutris.multimc-2.desktop".into()
        )
    );

    let s = find_dummy("battle.net.exe", "", "").expect("finding battlenet");

    assert_eq!(
        s,
        Exec::DesktopFile(
            "/home/liss/.local/share/applications/net.lutris.battlenet-7.desktop".into()
        )
    );
}

#[test]
fn resolve_is_deterministic() {
    let a = find_dummy("chrome-listen.tidal.com__-Spotify", "", "");
    let b = find_dummy("chrome-listen.tidal.com__-Spotify", "", "");
    assert_eq!(a, b);
    let c = find_dummy("no.such.app", "", "");
    let d = find_dummy("no.such.app", "", "");
    assert_eq!(c, d);
}

#[test]
fn empty_capabilities_fail_with_search_disabled() {
    let options = FindOptions {
        min_wm_class_similarity: 800000,
        min_partial_match_confidence: 600000,
        capabilities: Vec::new(),
    };
    let r = try_find_command_any(
        &options,
        &meta("zzz-unmatched", "", ""),
        &testset_index(),
        Ok(vec!["/usr/bin/zzz".to_string()]),
    );
    assert_eq!(r.unwrap_err(), FindError::ProcSearchDisabledNoOtherOptionFound);
}

#[test]
fn available_command_denied_without_capability() {
    let options = FindOptions {
        min_wm_class_similarity: 800000,
        min_partial_match_confidence: 600000,
        capabilities: vec![Capability::ProcFsSearch],
    };
    let r = try_find_command_any(
        &options,
        &meta("", "", ""),
        &DesktopIndex::new(Vec::new(), Vec::new()),
        Ok(vec!["/usr/bin/zzz".to_string()]),
    );
    assert_eq!(
        r.unwrap_err(),
        FindError::NotAllowedToUseProcCmdNoOtherOptionFound
    );
}

#[test]
fn command_line_fallback_with_both_capabilities() {
    let options = FindOptions {
        min_wm_class_similarity: 800000,
        min_partial_match_confidence: 600000,
        capabilities: vec![Capability::ProcFsSearch, Capability::UseProcFsCommand],
    };
    let r = try_find_command_any(
        &options,
        &meta("", "", ""),
        &DesktopIndex::new(Vec::new(), Vec::new()),
        Ok(vec!["/usr/bin/xterm".to_string(), "-e".to_string()]),
    );
    assert_eq!(
        r.unwrap(),
        Exec::CmdLine(vec!["/usr/bin/xterm".to_string(), "-e".to_string()])
    );
}

#[test]
fn zombie_record_surfaces_as_error() {
    let options = FindOptions {
        min_wm_class_similarity: 800000,
        min_partial_match_confidence: 600000,
        capabilities: vec![Capability::ProcFsSearch, Capability::UseProcFsCommand],
    };
    let r = try_find_command_any(
        &options,
        &meta("", "", ""),
        &DesktopIndex::new(Vec::new(), Vec::new()),
        Err(FindError::ProcessIsZombie),
    );
    assert_eq!(r.unwrap_err(), FindError::ProcessIsZombie);
    let r = try_find_command_any(
        &options,
        &meta("", "", ""),
        &DesktopIndex::new(Vec::new(), Vec::new()),
        Ok(Vec::new()),
    );
    assert_eq!(r.unwrap_err(), FindError::ProcessIsZombie);
}

#[test]
fn io_failure_surfaces_as_error() {
    let options = FindOptions {
        min_wm_class_similarity: 800000,
        min_partial_match_confidence: 600000,
        capabilities: vec![Capability::ProcFsSearch, Capability::UseProcFsCommand],
    };
    let r = try_find_command_any(
        &options,
        &meta("", "", ""),
        &DesktopIndex::new(Vec::new(), Vec::new()),
        Err(FindError::IOError),
    );
    assert_eq!(r.unwrap_err(), FindError::IOError);
}

#[test]
fn gtk_lookup_misses_cleanly() {
    let r = try_find_command_by_gtk_app_id("org.example.Missing", &testset_index());
    assert_eq!(r.unwrap_err(), FindError::NoSuitableEntryFound);
    let r = try_find_command_by_gtk_app_id("org.gnome.Terminal", &testset_index());
    assert_eq!(
        r.unwrap(),
        Exec::DesktopFile("/usr/share/applications/org.gnome.Terminal.desktop".into())
    );
}

#[test]
fn sandboxed_lookup_searches_in_order() {
    let r = try_find_command_by_sandboxed_app_id("com.jetbrains.CLion", &testset_index());
    assert_eq!(
        r.unwrap(),
        Exec::DesktopFile(
            "/var/lib/flatpak/exports/share/applications/com.jetbrains.CLion.desktop".into()
        )
    );
    let r = try_find_command_by_sandboxed_app_id("org.example.Missing", &testset_index());
    assert_eq!(r.unwrap_err(), FindError::NoSuitableEntryFound);
}

#[test]
fn wm_class_ranking_lowercases_both_sides() {
    let index = DesktopIndex::new(
        vec!["/usr/share/applications".to_string()],
        vec!["/usr/share/applications/libreoffice.desktop".to_string()],
    );
    let (exec, confidence) = try_find_command_by_wm_class("LibreOffice", &index).unwrap();
    assert_eq!(
        exec,
        Exec::DesktopFile("/usr/share/applications/libreoffice.desktop".into())
    );
    assert_eq!(confidence, 1000000);
}

#[test]
fn search_term_ranking_reports_confidence() {
    let (exec, confidence) =
        try_find_command_by_search_term("listen.tidal.com", &testset_index()).unwrap();
    assert_eq!(
        exec,
        Exec::DesktopFile("/home/liss/.local/share/applications/tidal.desktop".into())
    );
    assert_eq!(confidence, 857576);
}

#[test]
fn empty_index_yields_no_suitable_entry() {
    let index = DesktopIndex::new(Vec::new(), Vec::new());
    let r = try_find_command_by_wm_class("firefox", &index);
    assert_eq!(r.unwrap_err(), FindError::NoSuitableEntryFound);
    let r = try_find_command_by_search_term("firefox", &index);
    assert_eq!(r.unwrap_err(), FindError::NoSuitableEntryFound);
}

#[test]
fn wm_class_strategy_accepts_close_match() {
    let options = FindOptions {
        min_wm_class_similarity: 800000,
        min_partial_match_confidence: 600000,
        capabilities: Vec::new(),
    };
    let r = try_find_command_any(
        &options,
        &meta("org.gnome.Terminal", "", ""),
        &testset_index(),
        Err(FindError::ProcSearchDisabledNoOtherOptionFound),
    );
    assert_eq!(
        r.unwrap(),
        Exec::DesktopFile("/usr/share/applications/org.gnome.Terminal.desktop".into())
    );
}

#[test]
fn equal_scores_keep_the_earlier_file() {
    let index = DesktopIndex::new(
        vec!["/usr/share/applications".to_string()],
        vec![
            "/usr/share/applications/ab.desktop".to_string(),
            "/usr/share/applications/xy.desktop".to_string(),
        ],
    );
    let (exec, confidence) = try_find_command_by_wm_class("cd", &index).unwrap();
    assert_eq!(exec, Exec::DesktopFile("/usr/share/applications/ab.desktop".into()));
    assert_eq!(confidence, 0);
}
