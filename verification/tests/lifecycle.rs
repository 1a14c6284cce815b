use lovely_mod_manager::game::LoveGame;
use lovely_mod_manager::manager::{
    disable_marker_path, expectfile_path, get_mod_path, statefile_path, LifecycleError, ModInfo,
    ModManager, ScanEntry, UninstallAction,
};
use lovely_mod_manager::ledger::write_state;

fn fresh_manager() -> ModManager {
    let game = LoveGame::new("Balatro".to_string());
    let (mgr, skipped) = ModManager::new(Vec::new(), game, "/mods".to_string(), None);
    assert_eq!(skipped, 0);
    mgr
}

#[test]
fn install_disable_uninstall_scenario() {
    let mut mgr = fresh_manager();
    assert_eq!(mgr.installed_mods().len(), 0);

    // install: gate passes on a fresh directory, commit records it enabled
    assert_eq!(mgr.install_mod("ns@mod", false, false), Ok(false));
    let statefile = write_state("ns@mod", "1.0.0");
    assert_eq!(statefile, "ns@mod/1.0.0");
    let contents = mgr.install_commit("ns@mod", "1.0.0");
    assert_eq!(contents, "/ns@mod/1.0.0\n");
    let e = mgr.installed_mods().get("ns@mod").expect("installed");
    assert!(e.enabled);
    assert_eq!(e.version, "1.0.0");

    // disable: the line gains the `-` flag
    let contents = mgr.disable_mod("ns@mod").unwrap();
    assert_eq!(contents, "-/ns@mod/1.0.0\n");
    assert!(!mgr.installed_mods().get("ns@mod").unwrap().enabled);

    // uninstall: directory exists, so remove it, then commit empties all
    assert_eq!(mgr.uninstall_mod("ns@mod", true), Ok(UninstallAction::RemoveDir));
    let contents = mgr.uninstall_commit("ns@mod").unwrap();
    assert_eq!(contents, "");
    assert_eq!(mgr.installed_mods().len(), 0);
}

#[test]
fn disable_twice_leaves_identical_ledger() {
    let mut mgr = fresh_manager();
    mgr.install_commit("ns@mod", "1.0.0");
    mgr.install_commit("ns@other", "2.0");
    let once = mgr.disable_mod("ns@mod").unwrap();
    let twice = mgr.disable_mod("ns@mod").unwrap();
    assert_eq!(once, twice);
    assert_eq!(mgr.write_expectfile(), once);
    assert_eq!(mgr.installed_mods().len(), 2);
}

#[test]
fn uninstall_with_absent_directory_is_clean_success() {
    let mut mgr = fresh_manager();
    mgr.install_commit("ns@mod", "1.0.0");
    let before = mgr.write_expectfile();
    assert_eq!(mgr.uninstall_mod("ns@mod", false), Ok(UninstallAction::AlreadyClean));
    // nothing was mutated and nothing needs persisting
    assert_eq!(mgr.write_expectfile(), before);
    assert!(mgr.installed_mods().get("ns@mod").is_some());
}

#[test]
fn uninstall_unknown_mod_is_identifiable_error() {
    let mgr = fresh_manager();
    assert_eq!(mgr.uninstall_mod("ns@mod", true), Err(LifecycleError::NotInstalled));
    assert_eq!(LifecycleError::NotInstalled.message(), "mod not installed");
}

#[test]
fn enable_and_disable_require_installed_mod() {
    let mut mgr = fresh_manager();
    assert_eq!(mgr.disable_mod("ns@mod"), Err(LifecycleError::NotInstalled));
    assert_eq!(mgr.enable_mod("ns@mod"), Err(LifecycleError::NotInstalled));
}

#[test]
fn enable_restores_the_flag_and_keeps_version() {
    let mut mgr = fresh_manager();
    mgr.install_commit("ns@mod", "1.0.0");
    mgr.disable_mod("ns@mod").unwrap();
    let contents = mgr.enable_mod("ns@mod").unwrap();
    assert_eq!(contents, "/ns@mod/1.0.0\n");
    let e = mgr.installed_mods().get("ns@mod").unwrap();
    assert!(e.enabled);
    assert_eq!(e.version, "1.0.0");
}

#[test]
fn install_gate_rejects_already_installed() {
    let mut mgr = fresh_manager();
    mgr.install_commit("ns@mod", "1.0.0");
    // present in the ledger
    assert_eq!(mgr.install_mod("ns@mod", false, false), Err(LifecycleError::AlreadyInstalled));
    // or present on disk
    assert_eq!(mgr.install_mod("ns@new", true, false), Err(LifecycleError::AlreadyInstalled));
    assert_eq!(LifecycleError::AlreadyInstalled.message(), "mod is already installed");
}

#[test]
fn reinstall_gate_asks_for_removal_of_existing_directory() {
    let mut mgr = fresh_manager();
    mgr.install_commit("ns@mod", "1.0.0");
    // reinstall over an existing directory: allowed, and the directory must
    // be removed first so only the new archive's files remain
    assert_eq!(mgr.reinstall_mod("ns@mod", true), Ok(true));
    assert_eq!(mgr.install_mod("ns@mod", true, true), Ok(true));
    // fresh directory: nothing to remove
    assert_eq!(mgr.reinstall_mod("ns@mod", false), Ok(false));
}

#[test]
fn failed_extraction_never_reaches_the_ledger() {
    let mut mgr = fresh_manager();
    // the precondition check allows the install...
    assert_eq!(mgr.install_mod("ns@mod", false, false), Ok(false));
    // ...but extraction fails partway, so the caller never writes a
    // statefile and never commits: the id stays absent from the ledger
    assert!(mgr.installed_mods().get("ns@mod").is_none());
    assert_eq!(mgr.write_expectfile(), "");
}

#[test]
fn rebuild_reports_disk_state_independent_of_stale_ledger() {
    let mut mgr = fresh_manager();
    // stale ledger: claims a mod that is gone and says ns@mod is disabled
    mgr.install_commit("ghost@mod", "9.9");
    mgr.install_commit("ns@mod", "0.9");
    mgr.disable_mod("ns@mod").unwrap();

    let scan = vec![
        ScanEntry { statefile: Some("ns@mod/1.0.0".to_string()), disable_marker: false },
        ScanEntry { statefile: Some("x@y/2.0".to_string()), disable_marker: true },
        ScanEntry { statefile: None, disable_marker: false },
    ];
    let contents = mgr.rebuild_expectfile(&scan).unwrap();
    assert_eq!(mgr.installed_mods().len(), 2);
    // enabled state comes solely from the disable marker, not the old ledger
    let e = mgr.installed_mods().get("ns@mod").unwrap();
    assert!(e.enabled);
    assert_eq!(e.version, "1.0.0");
    assert!(!mgr.installed_mods().get("x@y").unwrap().enabled);
    assert!(mgr.installed_mods().get("ghost@mod").is_none());
    assert_eq!(contents, mgr.write_expectfile());
}

#[test]
fn rebuild_fails_hard_on_corrupt_statefile() {
    let mut mgr = fresh_manager();
    mgr.install_commit("keep@me", "1.0");
    let before = mgr.write_expectfile();
    let scan = vec![ScanEntry { statefile: Some("corrupt".to_string()), disable_marker: false }];
    assert!(mgr.rebuild_expectfile(&scan).is_err());
    // the manager is unchanged
    assert_eq!(mgr.write_expectfile(), before);
}

#[test]
fn load_expectfile_replaces_ledger_and_counts_warnings() {
    let mut mgr = fresh_manager();
    mgr.install_commit("old@mod", "1.0");
    let skipped = mgr.load_expectfile(Some("/a@b/1.0\nbroken\n"));
    assert_eq!(skipped, 1);
    assert_eq!(mgr.installed_mods().len(), 1);
    assert!(mgr.installed_mods().get("old@mod").is_none());
    // an absent file is a first run: empty ledger, no warning
    let skipped = mgr.load_expectfile(None);
    assert_eq!(skipped, 0);
    assert_eq!(mgr.installed_mods().len(), 0);
}

#[test]
fn new_manager_loads_persisted_text() {
    let game = LoveGame::new("Balatro".to_string());
    let (mgr, skipped) =
        ModManager::new(Vec::new(), game, "/mods".to_string(), Some("-/a@b/1.0\n"));
    assert_eq!(skipped, 0);
    assert_eq!(mgr.mods_dir(), "/mods");
    let e = mgr.installed_mods().get("a@b").unwrap();
    assert!(!e.enabled);
}

#[test]
fn replace_game_reloads_ledger_and_keeps_index() {
    let info = ModInfo {
        id: "ns@mod".to_string(),
        title: "Mod".to_string(),
        version: "1.0".to_string(),
        download_url: "https://example.invalid/mod.zip".to_string(),
        folder_name: None,
    };
    let game = LoveGame::new("Balatro".to_string());
    let (mut mgr, _) = ModManager::new(vec![info], game, "/mods".to_string(), None);
    let other = LoveGame::new("Other".to_string());
    let skipped = mgr.replace_game(other, "/elsewhere".to_string(), Some("/a@b/1.0\n"));
    assert_eq!(skipped, 0);
    assert_eq!(mgr.mods_dir(), "/elsewhere");
    assert_eq!(mgr.index.len(), 1);
    assert!(mgr.installed_mods().get("a@b").is_some());
    assert_eq!(mgr.game.name(), "Other");
}

#[test]
fn mod_path_uses_folder_name_when_given() {
    let info = ModInfo {
        id: "ns@mod".to_string(),
        title: "Fancy Mod".to_string(),
        version: "1.0".to_string(),
        download_url: String::new(),
        folder_name: Some("FancyDir".to_string()),
    };
    assert_eq!(get_mod_path("/mods", &info), "/mods/FancyDir");
}

#[test]
fn mod_path_strips_non_ascii_from_title() {
    let info = ModInfo {
        id: "ns@mod".to_string(),
        title: "M\u{00fc}nch\u{2122} Mod".to_string(),
        version: "1.0".to_string(),
        download_url: String::new(),
        folder_name: None,
    };
    assert_eq!(get_mod_path("/mods", &info), "/mods/Mnch Mod");
}

#[test]
fn marker_and_file_paths() {
    assert_eq!(expectfile_path("/mods"), "/mods/.lovely_mod_manager");
    assert_eq!(statefile_path("/mods/FancyDir"), "/mods/FancyDir/.lovely_mod_manager");
    assert_eq!(disable_marker_path("/mods/FancyDir"), "/mods/FancyDir/.lovelyignore");
    assert_eq!(lovely_mod_manager::package_name(), "lovely_mod_manager");
}
