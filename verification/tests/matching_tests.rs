use freedomwall::data_manager::Shift;
use freedomwall::data_manager::Target;
use freedomwall::matching::match_target;
use freedomwall::matching::target_matches;
use freedomwall::matching::title_hits_any;

fn rule(targets: &[&str], exceptions: &[&str], wallpaper: &str) -> Target {
    Target {
        targets: targets.iter().map(|s| s.to_string()).collect(),
        exceptions: exceptions.iter().map(|s| s.to_string()).collect(),
        alpha: 1000,
        wallpaper: wallpaper.to_string(),
        shift: Shift { up: 0, down: 0, left: 0, right: 0 },
    }
}

#[test]
fn title_contains_any_substring() {
    let pats = vec!["Notes".to_string(), "Mail".to_string()];
    assert!(title_hits_any("Notes — Untitled", &pats));
    assert!(title_hits_any("Inbox - Mail", &pats));
    assert!(!title_hits_any("Terminal", &pats));
    assert!(!title_hits_any("", &pats));
    let none: Vec<String> = Vec::new();
    assert!(!title_hits_any("Notes", &none));
}

#[test]
fn substring_match_is_not_identity() {
    // A window matches on a proper substring of its title, so handing
    // the title back unchanged as the "needle check" would get this
    // wrong in both directions.
    let pats = vec!["Note".to_string()];
    assert!(title_hits_any("Notes — Untitled", &pats));
    let pats2 = vec!["Notes — Untitled and more".to_string()];
    assert!(!title_hits_any("Notes — Untitled", &pats2));
}

#[test]
fn exceptions_disqualify_unless_empty() {
    let r = rule(&["Editor"], &["Preview"], "ocean");
    assert!(target_matches("Editor — main.rs", &r));
    assert!(!target_matches("Editor — Preview", &r));
    let r2 = rule(&["Editor"], &[], "ocean");
    assert!(target_matches("Editor — Preview", &r2));
}

#[test]
fn first_match_wins_over_later_rules() {
    // Rule A's targets and rule B's exceptions both speak about the
    // window; A precedes B, so A governs whatever B says.
    let a = rule(&["Notes"], &[], "ocean");
    let b = rule(&["Untitled"], &["Notes"], "forest");
    let rules = vec![a, b];
    assert_eq!(match_target("Notes — Untitled", &rules), Some(0));

    let rules_swapped = vec![
        rule(&["Untitled"], &["Notes"], "forest"),
        rule(&["Notes"], &[], "ocean"),
    ];
    // With B first, B's exception disqualifies it and A still matches.
    assert_eq!(match_target("Notes — Untitled", &rules_swapped), Some(1));
}

#[test]
fn no_rule_matches_unrelated_title() {
    let rules = vec![rule(&["Notes"], &[], "ocean"), rule(&["Mail"], &[], "forest")];
    assert_eq!(match_target("Terminal", &rules), None);
    let empty: Vec<Target> = Vec::new();
    assert_eq!(match_target("Terminal", &empty), None);
}

#[test]
fn match_target_respects_declaration_order() {
    let rules = vec![
        rule(&["app"], &[], "first"),
        rule(&["app"], &[], "second"),
        rule(&["app"], &[], "third"),
    ];
    assert_eq!(match_target("my app window", &rules), Some(0));
}
