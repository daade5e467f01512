use neptune::errors::ConfigError;
use neptune::gamemode::GameMode;
use neptune::realm::Realm;

fn full_gamemode() -> Result<GameMode, ConfigError> {
    GameMode::new(
        "skyblock".to_string(),
        Some("Skyblock".to_string()),
        Some("paper".to_string()),
        Some("1.20".to_string()),
        Vec::new(),
        Vec::new(),
        Vec::new(),
    )
}

#[test]
fn gamemode_requires_a_name() {
    let r = GameMode::new(
        "g".to_string(),
        None,
        Some("paper".to_string()),
        Some("1.20".to_string()),
        Vec::new(),
        Vec::new(),
        Vec::new(),
    );
    assert_eq!(r.unwrap_err(), ConfigError::MissingName);
}

#[test]
fn gamemode_requires_a_server() {
    let r = GameMode::new(
        "g".to_string(),
        Some("G".to_string()),
        None,
        Some("1.20".to_string()),
        Vec::new(),
        Vec::new(),
        Vec::new(),
    );
    assert_eq!(r.unwrap_err(), ConfigError::MissingServer);
}

#[test]
fn gamemode_requires_a_version() {
    let r = GameMode::new(
        "g".to_string(),
        Some("G".to_string()),
        Some("paper".to_string()),
        None,
        Vec::new(),
        Vec::new(),
        Vec::new(),
    );
    assert_eq!(r.unwrap_err(), ConfigError::MissingVersion);
}

#[test]
fn realm_requires_a_name() {
    let g = full_gamemode().unwrap();
    let r = Realm::new("survival".to_string(), None, g, Vec::new());
    assert_eq!(r.unwrap_err(), ConfigError::MissingName);
}

#[test]
fn realm_folders_derive_from_its_identifier() {
    let g = full_gamemode().unwrap();
    let r = Realm::new("survival".to_string(), Some("Survival".to_string()), g, Vec::new())
        .unwrap();
    assert_eq!(r.content_folder(), "realm/survival/");
    assert_eq!(r.output_folder(), "out/server/survival");
}

#[test]
fn server_artifact_name_follows_the_package() {
    let g = full_gamemode().unwrap();
    assert_eq!(g.server_artifact_name(), "paper.jar");
}
