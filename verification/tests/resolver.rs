use neptune::errors::BuildError;
use neptune::fsview::FsView;
use neptune::gamemode::GameMode;

fn chars(s: &str) -> Vec<char> {
    s.chars().collect()
}

fn gamemode(version: &str, backups: &[&str], plugins: &[&str]) -> GameMode {
    GameMode::new(
        "skyblock".to_string(),
        Some("Skyblock".to_string()),
        Some("paper".to_string()),
        Some(version.to_string()),
        backups.iter().map(|v| v.to_string()).collect(),
        plugins.iter().map(|p| p.to_string()).collect(),
        Vec::new(),
    )
    .unwrap()
}

#[test]
fn unscoped_tier_is_found_whatever_the_version_list() {
    let mut fs = FsView::new();
    fs.add_file("plugins/WorldEdit.jar".to_string(), chars("we"));
    let g = gamemode("1.20", &["1.19", "1.18"], &[]);
    let r = g.plugin_path("WorldEdit".to_string(), &fs);
    assert_eq!(r, Some(("plugins/WorldEdit.jar".to_string(), None)));

    let g2 = gamemode("9.9", &[], &[]);
    let r2 = g2.plugin_path("WorldEdit".to_string(), &fs);
    assert_eq!(r2, Some(("plugins/WorldEdit.jar".to_string(), None)));
}

#[test]
fn last_backup_version_outranks_unscoped_tier() {
    let mut fs = FsView::new();
    fs.add_file("plugins/v3/Essentials.jar".to_string(), chars("v3"));
    fs.add_file("plugins/Essentials.jar".to_string(), chars("unscoped"));
    let g = gamemode("v1", &["v2", "v3"], &[]);
    let r = g.plugin_path("Essentials".to_string(), &fs);
    assert_eq!(r, Some(("plugins/v3/Essentials.jar".to_string(), None)));
}

#[test]
fn primary_version_outranks_backups() {
    let mut fs = FsView::new();
    fs.add_file("plugins/v1/Essentials.jar".to_string(), chars("v1"));
    fs.add_file("plugins/v2/Essentials.jar".to_string(), chars("v2"));
    let g = gamemode("v1", &["v2"], &[]);
    let r = g.plugin_path("Essentials".to_string(), &fs);
    assert_eq!(r, Some(("plugins/v1/Essentials.jar".to_string(), None)));
}

#[test]
fn companion_folder_rides_along_when_present() {
    let mut fs = FsView::new();
    fs.add_file("plugins/v1/Essentials.jar".to_string(), chars("v1"));
    fs.add_dir("plugins/v1/Essentials/".to_string());
    let g = gamemode("v1", &[], &[]);
    let r = g.plugin_path("Essentials".to_string(), &fs);
    assert_eq!(
        r,
        Some((
            "plugins/v1/Essentials.jar".to_string(),
            Some("plugins/v1/Essentials/".to_string())
        ))
    );
}

#[test]
fn missing_companion_folder_is_not_a_failure() {
    let mut fs = FsView::new();
    fs.add_file("plugins/v1/Essentials.jar".to_string(), chars("v1"));
    let g = gamemode("v1", &[], &[]);
    let r = g.plugin_path("Essentials".to_string(), &fs);
    assert_eq!(r, Some(("plugins/v1/Essentials.jar".to_string(), None)));
}

#[test]
fn absent_from_every_tier_is_not_found() {
    let mut fs = FsView::new();
    fs.add_file("plugins/v1/Other.jar".to_string(), chars("x"));
    let g = gamemode("v1", &["v2"], &[]);
    assert_eq!(g.plugin_path("Essentials".to_string(), &fs), None);
}

#[test]
fn plugin_paths_reports_the_first_missing_plugin() {
    let mut fs = FsView::new();
    fs.add_file("plugins/v1/Found.jar".to_string(), chars("x"));
    let g = gamemode("v1", &[], &["Found", "Lost", "AlsoLost"]);
    let r = g.plugin_paths(&fs);
    assert_eq!(r, Err(BuildError::PluginNotFound("Lost".to_string())));
}

#[test]
fn plugin_paths_pairs_each_placement_with_its_name() {
    let mut fs = FsView::new();
    fs.add_file("plugins/v1/A.jar".to_string(), chars("a"));
    fs.add_file("plugins/B.jar".to_string(), chars("b"));
    let g = gamemode("v1", &[], &["A", "B"]);
    let r = g.plugin_paths(&fs).unwrap();
    assert_eq!(r.len(), 2);
    assert_eq!(r[0], (("plugins/v1/A.jar".to_string(), None), "A".to_string()));
    assert_eq!(r[1], (("plugins/B.jar".to_string(), None), "B".to_string()));
}
