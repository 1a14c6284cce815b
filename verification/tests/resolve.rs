use lovely_mod_manager::game::{balatro_steamid, LoveGame};
use lovely_mod_manager::paths::{
    path_has_suffix_exec, reconcile_native_link, LinkAction, ModsDirPlan, NativeDirState,
    ResolveError,
};

#[test]
fn builders_and_getters() {
    let g = LoveGame::new("Balatro".to_string());
    assert_eq!(g.name(), "Balatro");
    assert!(g.path().is_none());
    assert!(g.steamid().is_none());
    assert!(!g.is_wine());

    let g = g.with_path("/games/Balatro".to_string());
    assert_eq!(g.path().as_deref(), Some("/games/Balatro"));

    let g = g.with_steamid("123".to_string());
    assert_eq!(g.steamid().as_deref(), Some("123"));
    assert!(g.is_wine());
}

#[test]
fn default_balatro_has_known_id_and_compat_layer() {
    let g = LoveGame::default_balatro();
    assert_eq!(g.name(), "Balatro");
    assert!(g.is_wine());
    assert_eq!(g.steamid().as_deref(), Some("2379780"));
    assert_eq!(balatro_steamid(), "2379780");
}

#[test]
fn override_directory_short_circuits() {
    let g = LoveGame::default_balatro();
    let plan = g.get_mods_dir(Some("/tmp/my-mods".to_string()), None, None).unwrap();
    match &plan {
        ModsDirPlan::OverrideDir { dir } => assert_eq!(dir, "/tmp/my-mods"),
        _ => panic!("expected the override plan"),
    }
    assert_eq!(plan.resolved_dir(), "/tmp/my-mods");
}

#[test]
fn native_resolution_appends_name_and_mods() {
    let g = LoveGame::new("Balatro".to_string());
    let plan = g
        .get_mods_dir(None, Some("/home/u/.config".to_string()), None)
        .unwrap();
    match &plan {
        ModsDirPlan::Native { dir } => assert_eq!(dir, "/home/u/.config/Balatro/Mods"),
        _ => panic!("expected the native plan"),
    }
    assert_eq!(plan.resolved_dir(), "/home/u/.config/Balatro/Mods");
}

#[test]
fn missing_config_dir_is_fatal() {
    let g = LoveGame::new("Balatro".to_string());
    assert_eq!(g.get_mods_dir(None, None, None), Err(ResolveError::NoConfigDir));
    assert_eq!(ResolveError::NoConfigDir.message(), "couldn't find config directory");
}

#[test]
fn compat_path_derived_from_install_path() {
    let g = LoveGame::default_balatro()
        .with_path("/data/Steam/steamapps/common/Balatro".to_string());
    let plan = g
        .get_mods_dir(None, Some("/home/u/.config".to_string()), Some("/home/u".to_string()))
        .unwrap();
    match &plan {
        ModsDirPlan::Wine { wine_dir, native_dir } => {
            // the compatibility root is two directory levels above the
            // install path, i.e. the steamapps directory itself
            assert_eq!(
                wine_dir,
                "/data/Steam/steamapps/compatdata/2379780/pfx/drive_c/users/steamuser/AppData/Roaming/Balatro/Mods"
            );
            assert_eq!(native_dir, "/home/u/.config/Balatro/Mods");
        },
        _ => panic!("expected the compatibility plan"),
    }
}

#[test]
fn compat_path_falls_back_to_home_library() {
    let g = LoveGame::default_balatro();
    let plan = g
        .get_mods_dir(None, Some("/home/u/.config".to_string()), Some("/home/u".to_string()))
        .unwrap();
    match &plan {
        ModsDirPlan::Wine { wine_dir, .. } => {
            assert_eq!(
                wine_dir,
                "/home/u/.steam/steam/steamapps/compatdata/2379780/pfx/drive_c/users/steamuser/AppData/Roaming/Balatro/Mods"
            );
        },
        _ => panic!("expected the compatibility plan"),
    }
}

#[test]
fn compat_path_ignores_unrelated_install_path() {
    let g = LoveGame::default_balatro().with_path("/data/elsewhere/Balatro".to_string());
    let plan = g
        .get_mods_dir(None, Some("/c".to_string()), Some("/home/u".to_string()))
        .unwrap();
    match &plan {
        ModsDirPlan::Wine { wine_dir, .. } => {
            assert!(wine_dir.starts_with("/home/u/.steam/steam/steamapps/compatdata/"));
        },
        _ => panic!("expected the compatibility plan"),
    }
}

#[test]
fn missing_home_without_usable_install_path_is_fatal() {
    let g = LoveGame::default_balatro();
    assert_eq!(
        g.get_mods_dir(None, Some("/c".to_string()), None),
        Err(ResolveError::NoHomeDir)
    );
    assert_eq!(ResolveError::NoHomeDir.message(), "couldn't find home directory");
    assert_eq!(ResolveError::MissingSteamId.message(), "steamid not provided for game");
}

#[test]
fn explicit_steamid_overrides_default() {
    let g = LoveGame::new("Balatro".to_string()).with_steamid("111".to_string());
    let plan = g
        .get_mods_dir(None, Some("/c".to_string()), Some("/h".to_string()))
        .unwrap();
    match &plan {
        ModsDirPlan::Wine { wine_dir, .. } => {
            assert_eq!(
                wine_dir,
                "/h/.steam/steam/steamapps/compatdata/111/pfx/drive_c/users/steamuser/AppData/Roaming/Balatro/Mods"
            );
        },
        _ => panic!("expected the compatibility plan"),
    }
}

#[test]
fn suffix_test_is_component_wise() {
    assert!(path_has_suffix_exec(
        "/data/Steam/steamapps/common/Balatro",
        "steamapps/common/Balatro"
    ));
    assert!(path_has_suffix_exec("steamapps/common/Balatro", "steamapps/common/Balatro"));
    // a mere string suffix inside a component does not count
    assert!(!path_has_suffix_exec(
        "/data/Steam/oldsteamapps/common/Balatro",
        "steamapps/common/Balatro"
    ));
    assert!(!path_has_suffix_exec("common/Balatro", "steamapps/common/Balatro"));
}

#[test]
fn link_reconciliation_decisions() {
    assert_eq!(reconcile_native_link(NativeDirState::SymlinkPresent), LinkAction::ReplaceLink);
    assert_eq!(reconcile_native_link(NativeDirState::RealEntry), LinkAction::LeaveAndWarn);
    assert_eq!(reconcile_native_link(NativeDirState::Absent), LinkAction::CreateLink);
}

#[test]
fn detect_respects_explicit_override() {
    // with an override directory the environment plays no part at all
    let g = LoveGame::new("Balatro".to_string());
    let plan = g.detect_mods_dir(Some("/tmp/forced".to_string())).unwrap();
    assert_eq!(plan.resolved_dir(), "/tmp/forced");
}
