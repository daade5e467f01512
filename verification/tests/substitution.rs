use neptune::gamemode::GameMode;
use neptune::namespace::Namespace;
use neptune::realm::Realm;
use neptune::text::{is_text_path, replace_all, str_chars};

fn chars(s: &str) -> Vec<char> {
    s.chars().collect()
}

fn text(v: &[char]) -> String {
    v.iter().collect()
}

fn skyblock(attributes: Vec<(String, String)>) -> GameMode {
    GameMode::new(
        "skyblock".to_string(),
        Some("Skyblock".to_string()),
        Some("paper".to_string()),
        Some("1.20".to_string()),
        Vec::new(),
        Vec::new(),
        attributes,
    )
    .unwrap()
}

fn survival(gamemode: GameMode, attributes: Vec<(String, String)>) -> Realm {
    Realm::new("survival".to_string(), Some("Survival".to_string()), gamemode, attributes).unwrap()
}

#[test]
fn replace_all_replaces_every_occurrence() {
    let out = replace_all(&chars("a..a..a"), &chars("a"), &chars("bb"));
    assert_eq!(text(&out), "bb..bb..bb");
}

#[test]
fn replace_all_is_literal_and_non_recursive() {
    // The replacement value may itself spell the pattern; the pass never
    // re-scans what it has just written.
    let out = replace_all(&chars("x"), &chars("x"), &chars("xx"));
    assert_eq!(text(&out), "xx");
}

#[test]
fn replacement_is_leftmost_and_non_overlapping() {
    let out = replace_all(&chars("aaa"), &chars("aa"), &chars("b"));
    assert_eq!(text(&out), "ba");
}

#[test]
fn replacements_cover_identity_fields_and_attributes() {
    let g = skyblock(vec![("motd".to_string(), "Welcome".to_string())]);
    let reps = g.get_replacements();
    assert_eq!(
        reps,
        vec![
            ("gamemode_id".to_string(), "skyblock".to_string()),
            ("gamemode_name".to_string(), "Skyblock".to_string()),
            ("gamemode_server".to_string(), "paper".to_string()),
            ("gamemode_version".to_string(), "1.20".to_string()),
            ("gamemode_motd".to_string(), "Welcome".to_string()),
        ]
    );
}

#[test]
fn tokens_are_upper_cased_and_hyphens_become_underscores() {
    let r = survival(skyblock(Vec::new()), vec![("max-players".to_string(), "64".to_string())]);
    let out = r.make_replacements(&chars("slots: $$REALM_MAX_PLAYERS$$"));
    assert_eq!(text(&out), "slots: 64");
}

#[test]
fn identity_fields_substitute() {
    let r = survival(skyblock(Vec::new()), Vec::new());
    let out = r.make_replacements(&chars(
        "$$REALM_ID$$/$$REALM_NAME$$/$$REALM_GAMEMODE_SERVER$$/$$REALM_GAMEMODE_VERSION$$",
    ));
    assert_eq!(text(&out), "survival/Survival/paper/1.20");
}

#[test]
fn realm_attribute_wins_over_gamemode_attribute() {
    // Both keys normalize to the placeholder MAX_PLAYERS; the realm's
    // attribute takes the highest precedence.
    let g = skyblock(vec![("Max-Players".to_string(), "20".to_string())]);
    let r = survival(g, vec![("max_players".to_string(), "100".to_string())]);
    let out = r.make_replacements(&chars("$$REALM_MAX_PLAYERS$$"));
    assert_eq!(text(&out), "100");
}

#[test]
fn second_substitution_pass_is_a_no_op() {
    let g = skyblock(vec![("motd".to_string(), "Hello there".to_string())]);
    let r = survival(g, Vec::new());
    let first = r.make_replacements(&chars("motd=$$REALM_GAMEMODE_MOTD$$ on $$REALM_NAME$$"));
    let second = r.make_replacements(&first);
    assert_eq!(text(&first), "motd=Hello there on Survival");
    assert_eq!(first, second);
}

#[test]
fn unknown_tokens_are_left_alone() {
    let r = survival(skyblock(Vec::new()), Vec::new());
    let out = r.make_replacements(&chars("$$REALM_NO_SUCH_KEY$$"));
    assert_eq!(text(&out), "$$REALM_NO_SUCH_KEY$$");
}

#[test]
fn namespace_overrides_by_normalized_key() {
    let mut ns = Namespace::new();
    ns.set("server-name", "one");
    ns.set("SERVER_NAME", "two");
    let got = ns.get("Server-Name").unwrap();
    assert_eq!(text(&got), "two");
    assert!(ns.get("absent").is_none());
}

#[test]
fn text_extensions_are_recognized() {
    assert!(is_text_path("config.yml"));
    assert!(is_text_path("a/b/config.yaml"));
    assert!(is_text_path("data.json"));
    assert!(is_text_path("eula.txt"));
    assert!(!is_text_path("server.jar"));
    assert!(!is_text_path("plain"));
}

#[test]
fn str_chars_round_trips() {
    let v = str_chars("héllo wörld");
    assert_eq!(text(&v), "héllo wörld");
}
