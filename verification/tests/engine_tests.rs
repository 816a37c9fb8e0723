use std::collections::HashMap;

use freedomwall::data_manager::DataManager;
use freedomwall::data_manager::GeneralSetting;
use freedomwall::data_manager::Shift;
use freedomwall::data_manager::Target;
use freedomwall::data_manager::Wallpaper;
use freedomwall::data_manager::WallpaperJson;
use freedomwall::manager::EngineError;
use freedomwall::manager::Manager;
use freedomwall::snapshot::LiveWindow;
use freedomwall::snapshot::Rect;
use freedomwall::window::Action;

fn rule(targets: &[&str], exceptions: &[&str], wallpaper: &str) -> Target {
    Target {
        targets: targets.iter().map(|s| s.to_string()).collect(),
        exceptions: exceptions.iter().map(|s| s.to_string()).collect(),
        alpha: 800,
        wallpaper: wallpaper.to_string(),
        shift: Shift { up: 0, down: 0, left: 0, right: 0 },
    }
}

fn profile(name: &str) -> Wallpaper {
    Wallpaper {
        name: name.to_string(),
        path: format!("wallpapers/{}", name),
        detail: WallpaperJson {
            author: String::new(),
            description: String::new(),
            setting: HashMap::new(),
            force_size: false,
        },
    }
}

fn store(rules: Vec<Target>, profiles: Vec<Wallpaper>) -> DataManager {
    DataManager {
        general: GeneralSetting {
            language: "en".to_string(),
            wallpapers: rules,
            update_interval_ms: 50,
            dev: false,
        },
        wallpapers: profiles,
        templates: Vec::new(),
        extensions: Vec::new(),
    }
}

fn live(title: &str, x: i64, y: i64, w: i64, h: i64, fg: bool) -> LiveWindow {
    LiveWindow {
        title: title.to_string(),
        rect: Rect { x, y, width: w, height: h },
        is_foreground: fg,
        stack_predecessor: Some(7),
    }
}

fn creations(acts: &[Action]) -> usize {
    acts.iter().filter(|a| matches!(a, Action::Create { .. })).count()
}

fn destroys(acts: &[Action]) -> usize {
    acts.iter().filter(|a| matches!(a, Action::Destroy { .. })).count()
}

fn front_toggles(acts: &[Action]) -> usize {
    acts.iter().filter(|a| matches!(a, Action::SetFront { .. })).count()
}

#[test]
fn scenario_three_ticks() {
    // Tick 1: one overlay is created for profile "ocean" tracking the
    // "Notes" window.  Tick 2: the window moved; the same overlay gets
    // the new rectangle and nothing is created.  Tick 3: the window is
    // gone; the overlay is destroyed and none remain.
    let data = store(vec![rule(&["Notes"], &[], "ocean")], vec![profile("ocean")]);
    let mut m = Manager::new(data);

    let snap1 = vec![live("Notes — Untitled", 0, 0, 640, 480, false)];
    let acts1 = m.process_windows(&snap1).unwrap();
    assert_eq!(creations(&acts1), 1);
    assert_eq!(m.windows.len(), 1);
    assert_eq!(m.windows[0].wallpaper, "ocean");
    assert_eq!(m.windows[0].target, "Notes — Untitled");

    let snap2 = vec![live("Notes — Untitled", 10, 20, 800, 600, false)];
    let acts2 = m.process_windows(&snap2).unwrap();
    assert_eq!(creations(&acts2), 0);
    assert_eq!(m.windows.len(), 1);
    let id = m.windows[0].id;
    assert!(acts2.contains(&Action::SetRect { id, x: 10, y: 20, width: 800, height: 600 }));

    let snap3: Vec<LiveWindow> = Vec::new();
    let acts3 = m.process_windows(&snap3).unwrap();
    assert_eq!(destroys(&acts3), 1);
    assert!(acts3.contains(&Action::Destroy { id }));
    assert_eq!(m.windows.len(), 0);
}

#[test]
fn at_most_one_creation_per_pass() {
    // Two windows newly match two distinct rules in one pass: the first
    // pass creates exactly one overlay, the second the other.
    let data = store(
        vec![rule(&["Alpha"], &[], "ocean"), rule(&["Beta"], &[], "forest")],
        vec![profile("ocean"), profile("forest")],
    );
    let mut m = Manager::new(data);
    let snap = vec![
        live("Alpha One", 0, 0, 100, 100, true),
        live("Beta Two", 0, 0, 100, 100, false),
    ];

    let acts1 = m.process_windows(&snap).unwrap();
    assert_eq!(creations(&acts1), 1);
    assert_eq!(m.windows.len(), 1);

    let acts2 = m.process_windows(&snap).unwrap();
    assert_eq!(creations(&acts2), 1);
    assert_eq!(m.windows.len(), 2);

    let acts3 = m.process_windows(&snap).unwrap();
    assert_eq!(creations(&acts3), 0);
    assert_eq!(destroys(&acts3), 0);
    assert_eq!(m.windows.len(), 2);
}

#[test]
fn idempotent_once_converged() {
    // Once a pass created and destroyed nothing, running it again over
    // the same snapshot keeps count and identities.
    let data = store(vec![rule(&["Editor"], &[], "ocean")], vec![profile("ocean")]);
    let mut m = Manager::new(data);
    let snap = vec![live("Editor — main.rs", 5, 5, 300, 200, true)];
    m.process_windows(&snap).unwrap();
    let ids: Vec<u64> = m.windows.iter().map(|w| w.id).collect();

    let acts = m.process_windows(&snap).unwrap();
    assert_eq!(creations(&acts), 0);
    assert_eq!(destroys(&acts), 0);
    let ids2: Vec<u64> = m.windows.iter().map(|w| w.id).collect();
    assert_eq!(ids, ids2);
}

#[test]
fn cleanup_on_disappearance_and_no_reappearance() {
    let data = store(
        vec![rule(&["Alpha"], &[], "ocean"), rule(&["Beta"], &[], "forest")],
        vec![profile("ocean"), profile("forest")],
    );
    let mut m = Manager::new(data);
    let both = vec![
        live("Alpha One", 0, 0, 100, 100, false),
        live("Beta Two", 0, 0, 100, 100, false),
    ];
    m.process_windows(&both).unwrap();
    m.process_windows(&both).unwrap();
    assert_eq!(m.windows.len(), 2);

    // "Alpha One" disappears: its overlay is destroyed by the end of the
    // next pass and does not come back while the window stays absent.
    let only_beta = vec![live("Beta Two", 0, 0, 100, 100, false)];
    let acts = m.process_windows(&only_beta).unwrap();
    assert_eq!(destroys(&acts), 1);
    assert_eq!(m.windows.len(), 1);
    assert_eq!(m.windows[0].target, "Beta Two");

    let acts2 = m.process_windows(&only_beta).unwrap();
    assert_eq!(creations(&acts2), 0);
    assert_eq!(destroys(&acts2), 0);
    assert_eq!(m.windows.len(), 1);
}

#[test]
fn cleanup_destroys_back_to_front() {
    let data = store(
        vec![rule(&["Alpha"], &[], "ocean"), rule(&["Beta"], &[], "forest")],
        vec![profile("ocean"), profile("forest")],
    );
    let mut m = Manager::new(data);
    let both = vec![
        live("Alpha", 0, 0, 10, 10, false),
        live("Beta", 0, 0, 10, 10, false),
    ];
    m.process_windows(&both).unwrap();
    m.process_windows(&both).unwrap();
    let id0 = m.windows[0].id;
    let id1 = m.windows[1].id;
    let empty: Vec<LiveWindow> = Vec::new();
    let acts = m.process_windows(&empty).unwrap();
    assert_eq!(acts, vec![Action::Destroy { id: id1 }, Action::Destroy { id: id0 }]);
    assert_eq!(m.windows.len(), 0);
}

#[test]
fn front_state_is_edge_triggered() {
    // N ticks with a constant foreground state toggle the front exactly
    // once, on the transition into that state.
    let data = store(vec![rule(&["Game"], &[], "ocean")], vec![profile("ocean")]);
    let mut m = Manager::new(data);

    let bg = vec![live("Game", 0, 0, 100, 100, false)];
    let fg = vec![live("Game", 0, 0, 100, 100, true)];

    m.process_windows(&bg).unwrap(); // creation pass
    let a1 = m.process_windows(&fg).unwrap();
    assert_eq!(front_toggles(&a1), 1);
    let id = m.windows[0].id;
    assert!(a1.contains(&Action::SetFront { id, front: true }));

    let a2 = m.process_windows(&fg).unwrap();
    let a3 = m.process_windows(&fg).unwrap();
    assert_eq!(front_toggles(&a2), 0);
    assert_eq!(front_toggles(&a3), 0);

    let a4 = m.process_windows(&bg).unwrap();
    assert_eq!(front_toggles(&a4), 1);
    assert!(a4.contains(&Action::SetFront { id, front: false }));
}

#[test]
fn restack_only_while_not_pinned() {
    let data = store(vec![rule(&["Game"], &[], "ocean")], vec![profile("ocean")]);
    let mut m = Manager::new(data);
    let bg = vec![live("Game", 0, 0, 100, 100, false)];
    let fg = vec![live("Game", 0, 0, 100, 100, true)];

    m.process_windows(&bg).unwrap();
    let id = m.windows[0].id;
    let a1 = m.process_windows(&bg).unwrap();
    assert!(a1.contains(&Action::SetOrder { id, predecessor: 7 }));
    let a2 = m.process_windows(&fg).unwrap();
    assert!(!a2.iter().any(|a| matches!(a, Action::SetOrder { .. })));
}

#[test]
fn stale_profile_aborts_pass_cleanly() {
    // The rule references a profile the store does not hold: the pass
    // reports it and leaves the state untouched; the next tick retries.
    let data = store(vec![rule(&["Notes"], &[], "missing")], vec![profile("ocean")]);
    let mut m = Manager::new(data);
    let snap = vec![live("Notes", 0, 0, 100, 100, false)];
    match m.process_windows(&snap) {
        Err(EngineError::WallpaperNotFound { name }) => assert_eq!(name, "missing"),
        _ => panic!("expected a stale-profile error"),
    }
    assert_eq!(m.windows.len(), 0);
    assert_eq!(m.count, 0);
}

#[test]
fn own_windows_are_never_matched() {
    let data = store(vec![rule(&["FreedomWall"], &[], "ocean")], vec![profile("ocean")]);
    let mut m = Manager::new(data);
    let snap = vec![live("FreedomWall Setting", 0, 0, 100, 100, false)];
    let acts = m.process_windows(&snap).unwrap();
    assert_eq!(creations(&acts), 0);
    assert_eq!(m.windows.len(), 0);
}

#[test]
fn devtools_skipped_in_dev_mode() {
    let mut data = store(vec![rule(&["DevTools"], &[], "ocean")], vec![profile("ocean")]);
    data.general.dev = true;
    let mut m = Manager::new(data);
    let snap = vec![live("DevTools - page", 0, 0, 100, 100, false)];
    let acts = m.process_windows(&snap).unwrap();
    assert_eq!(creations(&acts), 0);
    assert_eq!(m.windows.len(), 0);
}

#[test]
fn shift_is_applied_to_geometry() {
    let mut r = rule(&["Notes"], &[], "ocean");
    r.shift = Shift { up: -3, down: 4, left: 2, right: -1 };
    let data = store(vec![r], vec![profile("ocean")]);
    let mut m = Manager::new(data);
    let snap = vec![live("Notes", 100, 200, 640, 480, false)];
    m.process_windows(&snap).unwrap();
    let id = m.windows[0].id;
    let acts = m.process_windows(&snap).unwrap();
    assert!(acts.contains(&Action::SetRect { id, x: 102, y: 197, width: 639, height: 484 }));
}

#[test]
fn creation_carries_opacity_and_click_through() {
    let data = store(vec![rule(&["Notes"], &[], "ocean")], vec![profile("ocean")]);
    let mut m = Manager::new(data);
    let snap = vec![live("Notes", 0, 0, 100, 100, false)];
    let acts = m.process_windows(&snap).unwrap();
    let id = m.windows[0].id;
    assert_eq!(
        acts,
        vec![
            Action::Create { id },
            Action::SetClickThrough { id, on: true },
            Action::SetTransparent { id, alpha: 800 },
        ]
    );
    assert!(m.windows[0].click_through);
    assert_eq!(m.windows[0].alpha, 800);
    assert!(!m.windows[0].front);
}

#[test]
fn unique_ids_and_keys_across_churn() {
    let data = store(
        vec![rule(&["Alpha"], &[], "ocean"), rule(&["Beta"], &[], "ocean")],
        vec![profile("ocean")],
    );
    let mut m = Manager::new(data);
    let both = vec![
        live("Alpha", 0, 0, 10, 10, false),
        live("Beta", 0, 0, 10, 10, false),
    ];
    m.process_windows(&both).unwrap();
    m.process_windows(&both).unwrap();
    let only_beta = vec![live("Beta", 0, 0, 10, 10, false)];
    m.process_windows(&only_beta).unwrap();
    m.process_windows(&both).unwrap();
    m.process_windows(&both).unwrap();
    assert_eq!(m.windows.len(), 2);
    assert_ne!(m.windows[0].id, m.windows[1].id);
    assert!(
        (m.windows[0].wallpaper.as_str(), m.windows[0].target.as_str())
            != (m.windows[1].wallpaper.as_str(), m.windows[1].target.as_str())
    );
}

#[test]
fn reset_windows_destroys_back_to_front() {
    let data = store(
        vec![rule(&["Alpha"], &[], "ocean"), rule(&["Beta"], &[], "forest")],
        vec![profile("ocean"), profile("forest")],
    );
    let mut m = Manager::new(data);
    let both = vec![
        live("Alpha", 0, 0, 10, 10, false),
        live("Beta", 0, 0, 10, 10, false),
    ];
    m.process_windows(&both).unwrap();
    m.process_windows(&both).unwrap();
    let id0 = m.windows[0].id;
    let id1 = m.windows[1].id;
    let acts = m.reset_windows();
    assert_eq!(acts, vec![Action::Destroy { id: id1 }, Action::Destroy { id: id0 }]);
    assert_eq!(m.windows.len(), 0);
}

#[test]
fn stop_clears_rules_and_overlays() {
    let data = store(vec![rule(&["Alpha"], &[], "ocean")], vec![profile("ocean")]);
    let mut m = Manager::new(data);
    let snap = vec![live("Alpha", 0, 0, 10, 10, false)];
    m.process_windows(&snap).unwrap();
    let acts = m.stop();
    assert_eq!(acts.len(), 1);
    assert_eq!(m.windows.len(), 0);
    assert!(m.data.general.wallpapers.is_empty());
}

#[test]
fn setters_replace_rules_interval_dev_and_language() {
    let data = store(vec![rule(&["Alpha"], &[], "ocean")], vec![profile("ocean")]);
    let mut m = Manager::new(data);

    m.set_wallpapers(vec![rule(&["Beta"], &[], "ocean")]);
    assert_eq!(m.data.general.wallpapers.len(), 1);
    assert_eq!(m.data.general.wallpapers[0].targets, vec!["Beta".to_string()]);

    m.set_update_interval(250);
    assert_eq!(m.data.general.update_interval_ms, 250);

    m.set_dev(true);
    assert!(m.data.general.dev);

    assert!(m.set_language("en".to_string()).is_ok());
    assert_eq!(m.data.general.language, "en");
    assert!(matches!(
        m.set_language("fr".to_string()),
        Err(EngineError::UnknownLanguage)
    ));
    assert_eq!(m.data.general.language, "en");
}

#[test]
fn remove_destroys_one_overlay() {
    let data = store(vec![rule(&["Alpha"], &[], "ocean")], vec![profile("ocean")]);
    let mut m = Manager::new(data);
    let snap = vec![live("Alpha", 0, 0, 10, 10, false)];
    m.process_windows(&snap).unwrap();
    let id = m.windows[0].id;
    let act = m.remove(0);
    assert_eq!(act, Action::Destroy { id });
    assert_eq!(m.windows.len(), 0);
}
