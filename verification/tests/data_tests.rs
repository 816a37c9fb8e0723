use std::collections::HashMap;

use freedomwall::data_manager::DataError;
use freedomwall::data_manager::DataManager;
use freedomwall::data_manager::Extension;
use freedomwall::data_manager::ExtensionJson;
use freedomwall::data_manager::GeneralSetting;
use freedomwall::data_manager::Shift;
use freedomwall::data_manager::Target;
use freedomwall::data_manager::Wallpaper;
use freedomwall::data_manager::WallpaperJson;
use freedomwall::data_manager::add_base;
use freedomwall::data_manager::get_base;
use freedomwall::utils::escape_for_js;

fn detail() -> WallpaperJson {
    WallpaperJson {
        author: "someone".to_string(),
        description: "a wallpaper".to_string(),
        setting: HashMap::new(),
        force_size: false,
    }
}

fn rule(wallpaper: &str) -> Target {
    Target {
        targets: vec!["x".to_string()],
        exceptions: Vec::new(),
        alpha: 1000,
        wallpaper: wallpaper.to_string(),
        shift: Shift { up: 0, down: 0, left: 0, right: 0 },
    }
}

fn store() -> DataManager {
    DataManager {
        general: GeneralSetting {
            language: "ja".to_string(),
            wallpapers: vec![rule("ocean"), rule("forest"), rule("ocean")],
            update_interval_ms: 50,
            dev: false,
        },
        wallpapers: vec![
            Wallpaper { name: "ocean".to_string(), path: "w/ocean".to_string(), detail: detail() },
            Wallpaper {
                name: "forest".to_string(),
                path: "w/forest".to_string(),
                detail: detail(),
            },
        ],
        templates: vec!["plain".to_string()],
        extensions: vec![
            Extension {
                name: "clock".to_string(),
                path: "e/clock".to_string(),
                detail: ExtensionJson {
                    description: String::new(),
                    author: String::new(),
                    version: "1.0.0".to_string(),
                    setting: HashMap::new(),
                },
            },
        ],
    }
}

#[test]
fn base_paths() {
    assert_eq!(get_base(), "./");
    assert_eq!(add_base("pages"), ".//pages");
    assert_eq!(add_base(""), ".//");
}

#[test]
fn escape_for_js_backslash_and_backtick() {
    assert_eq!(escape_for_js("a\\b".to_string()), "a\\\\b");
    assert_eq!(escape_for_js("a`b".to_string()), "a\\`b");
    assert_eq!(escape_for_js("`\\".to_string()), "\\`\\\\");
    assert_eq!(escape_for_js("plain".to_string()), "plain");
    assert_eq!(escape_for_js(String::new()), "");
    assert_eq!(escape_for_js("日本語`".to_string()), "日本語\\`");
}

#[test]
fn wallpaper_lookup() {
    let d = store();
    assert_eq!(d.get_wallpaper_index("forest"), Some(1));
    assert_eq!(d.get_wallpaper_index("missing"), None);
    assert_eq!(d.get_wallpaper("ocean").unwrap().path, "w/ocean");
    assert!(d.get_wallpaper("missing").is_none());
    assert_eq!(d.get_wallpaper_by_index(0).unwrap().name, "ocean");
    assert!(matches!(
        d.get_wallpaper_by_index(9),
        Err(DataError::WallpaperNotFound)
    ));
}

#[test]
fn extension_lookup() {
    let d = store();
    let (i, e) = d.get_extension("clock").unwrap();
    assert_eq!(i, 0);
    assert_eq!(e.detail.version, "1.0.0");
    assert!(d.get_extension("missing").is_none());
}

#[test]
fn add_wallpaper_checks_template_and_name() {
    let mut d = store();
    assert!(matches!(
        d.add_wallpaper("nope", "new".to_string(), "w/new".to_string(), detail()),
        Err(DataError::UnknownTemplate)
    ));
    assert!(matches!(
        d.add_wallpaper("plain", "ocean".to_string(), "w/ocean2".to_string(), detail()),
        Err(DataError::AlreadyAdded)
    ));
    assert!(d
        .add_wallpaper("plain", "new".to_string(), "w/new".to_string(), detail())
        .is_ok());
    assert_eq!(d.wallpapers.len(), 3);
    assert_eq!(d.wallpapers[2].name, "new");
}

#[test]
fn remove_wallpaper_entry() {
    let mut d = store();
    assert!(d.remove_wallpaper(0).is_ok());
    assert_eq!(d.wallpapers.len(), 1);
    assert_eq!(d.wallpapers[0].name, "forest");
    assert!(matches!(d.remove_wallpaper(5), Err(DataError::WallpaperNotFound)));
}

#[test]
fn mv_wallpaper_renames_entries() {
    let mut d = store();
    assert!(d.mv_wallpaper("ocean", "sea", "w/sea").is_ok());
    assert_eq!(d.wallpapers[0].name, "sea");
    assert_eq!(d.wallpapers[0].path, "w/sea");
    assert_eq!(d.wallpapers[1].name, "forest");
    assert!(matches!(
        d.mv_wallpaper("missing", "x", "w/x"),
        Err(DataError::WallpaperNotFound)
    ));
}

#[test]
fn wallpaper_setting_indices() {
    let d = store();
    assert_eq!(d.get_wallpaper_setting("ocean"), vec![0, 2]);
    assert_eq!(d.get_wallpaper_setting("forest"), vec![1]);
    assert!(d.get_wallpaper_setting("missing").is_empty());
}

#[test]
fn missing_targets_lists_unfound_names() {
    let found = vec!["index.html".to_string()];
    let wanted = vec!["index.html".to_string(), "data.json".to_string()];
    assert_eq!(
        freedomwall::data_manager::missing_targets(&found, &wanted),
        vec!["data.json".to_string()]
    );
    assert!(freedomwall::data_manager::missing_targets(&wanted, &wanted).is_empty());
    let nothing: Vec<String> = Vec::new();
    assert_eq!(
        freedomwall::data_manager::missing_targets(&nothing, &wanted),
        wanted
    );
}

#[test]
fn remove_rules_of_deleted_profile() {
    let mut d = store();
    d.remove_wallpaper_rules("ocean");
    assert_eq!(d.general.wallpapers.len(), 1);
    assert_eq!(d.general.wallpapers[0].wallpaper, "forest");
}

#[test]
fn rename_rules_requeues_back_to_front() {
    let mut d = store();
    // Tag each rule so the requeue order is visible.
    d.general.wallpapers[0].targets = vec!["first".to_string()];
    d.general.wallpapers[2].targets = vec!["third".to_string()];
    d.rename_wallpaper_rules("ocean", "sea");
    assert_eq!(d.general.wallpapers.len(), 3);
    assert_eq!(d.general.wallpapers[0].wallpaper, "forest");
    // The moved rules stand at the end in descending original order.
    assert_eq!(d.general.wallpapers[1].wallpaper, "sea");
    assert_eq!(d.general.wallpapers[1].targets, vec!["third".to_string()]);
    assert_eq!(d.general.wallpapers[2].wallpaper, "sea");
    assert_eq!(d.general.wallpapers[2].targets, vec!["first".to_string()]);
}
