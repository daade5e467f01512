use neptune::errors::BuildError;
use neptune::fsview::FsView;
use neptune::gamemode::GameMode;
use neptune::realm::Realm;
use neptune::tree::FileTree;

fn chars(s: &str) -> Vec<char> {
    s.chars().collect()
}

fn text(v: &[char]) -> String {
    v.iter().collect()
}

fn tree(entries: &[(&str, &str)]) -> FileTree {
    let mut t = FileTree::new();
    for (p, c) in entries {
        t.put(p.to_string(), chars(c));
    }
    t
}

fn get(t: &FileTree, p: &str) -> Option<String> {
    t.get(&p.to_string()).map(|c| text(&c))
}

fn skyblock() -> GameMode {
    GameMode::new(
        "skyblock".to_string(),
        Some("Skyblock".to_string()),
        Some("paper".to_string()),
        Some("1.20".to_string()),
        vec!["1.19".to_string()],
        vec!["Essentials".to_string(), "WorldEdit".to_string()],
        Vec::new(),
    )
    .unwrap()
}

fn survival() -> Realm {
    Realm::new("survival".to_string(), Some("Survival".to_string()), skyblock(), Vec::new())
        .unwrap()
}

#[test]
fn end_to_end_build_composes_the_output_tree() {
    // Essentials exists only under the 1.19 backup tier, WorldEdit only
    // unscoped; the paper package's artifact is renamed to server.jar.
    let mut fs = FsView::new();
    fs.add_file("plugins/1.19/Essentials.jar".to_string(), chars("essentials-1.19"));
    fs.add_file("plugins/WorldEdit.jar".to_string(), chars("worldedit-unscoped"));
    let server = tree(&[("paper.jar", "paper-bytes"), ("config.yml", "motd: $$REALM_NAME$$")]);
    let out = survival()
        .build_files(server, &fs, &FileTree::new(), &FileTree::new())
        .unwrap();
    assert_eq!(get(&out, "server.jar"), Some("paper-bytes".to_string()));
    assert_eq!(get(&out, "paper.jar"), None);
    assert_eq!(get(&out, "plugins/Essentials.jar"), Some("essentials-1.19".to_string()));
    assert_eq!(get(&out, "plugins/WorldEdit.jar"), Some("worldedit-unscoped".to_string()));
    assert_eq!(get(&out, "eula.txt"), Some("eula=true\n".to_string()));
    assert_eq!(get(&out, "config.yml"), Some("motd: Survival".to_string()));
}

#[test]
fn realm_overlay_wins_over_gamemode_overlay_and_server_package() {
    let mut fs = FsView::new();
    fs.add_file("plugins/1.19/Essentials.jar".to_string(), chars("e"));
    fs.add_file("plugins/WorldEdit.jar".to_string(), chars("w"));
    let server = tree(&[("paper.jar", "paper"), ("motd.txt", "from server")]);
    let gamemode_overlay = tree(&[("motd.txt", "from gamemode")]);
    let realm_overlay = tree(&[("motd.txt", "from realm")]);
    let out = survival()
        .build_files(server, &fs, &gamemode_overlay, &realm_overlay)
        .unwrap();
    assert_eq!(get(&out, "motd.txt"), Some("from realm".to_string()));
}

#[test]
fn gamemode_overlay_wins_over_server_package() {
    let mut fs = FsView::new();
    fs.add_file("plugins/1.19/Essentials.jar".to_string(), chars("e"));
    fs.add_file("plugins/WorldEdit.jar".to_string(), chars("w"));
    let server = tree(&[("paper.jar", "paper"), ("motd.txt", "from server")]);
    let gamemode_overlay = tree(&[("motd.txt", "from gamemode")]);
    let out = survival()
        .build_files(server, &fs, &gamemode_overlay, &FileTree::new())
        .unwrap();
    assert_eq!(get(&out, "motd.txt"), Some("from gamemode".to_string()));
}

#[test]
fn companion_folder_files_are_merged_under_the_plugin_folder() {
    let mut fs = FsView::new();
    fs.add_file("plugins/1.19/Essentials.jar".to_string(), chars("e"));
    fs.add_dir("plugins/1.19/Essentials/".to_string());
    fs.add_file("plugins/1.19/Essentials/config.yml".to_string(), chars("cfg"));
    fs.add_file("plugins/WorldEdit.jar".to_string(), chars("w"));
    let server = tree(&[("paper.jar", "paper")]);
    let out = survival()
        .build_files(server, &fs, &FileTree::new(), &FileTree::new())
        .unwrap();
    assert_eq!(get(&out, "plugins/Essentials/config.yml"), Some("cfg".to_string()));
}

#[test]
fn missing_server_artifact_aborts_the_build() {
    let fs = FsView::new();
    let server = tree(&[("readme.txt", "no jar here")]);
    let r = survival().build_files(server, &fs, &FileTree::new(), &FileTree::new());
    assert_eq!(r, Err(BuildError::MissingServerArtifact));
}

#[test]
fn missing_plugin_aborts_the_build() {
    let mut fs = FsView::new();
    fs.add_file("plugins/1.19/Essentials.jar".to_string(), chars("e"));
    let server = tree(&[("paper.jar", "paper")]);
    let r = survival().build_files(server, &fs, &FileTree::new(), &FileTree::new());
    assert_eq!(r, Err(BuildError::PluginNotFound("WorldEdit".to_string())));
}

#[test]
fn second_substitution_pass_over_a_tree_is_a_no_op() {
    let realm = survival();
    let ns = realm.replacement_namespace();
    let mut t = tree(&[("config.yml", "name: $$REALM_NAME$$"), ("blob.bin", "$$REALM_NAME$$")]);
    t.substitute_pass(&ns);
    assert_eq!(get(&t, "config.yml"), Some("name: Survival".to_string()));
    // the non-text file is untouched
    assert_eq!(get(&t, "blob.bin"), Some("$$REALM_NAME$$".to_string()));
    let before: Vec<(String, String)> =
        t.entries.iter().map(|e| (e.0.clone(), text(&e.1))).collect();
    t.substitute_pass(&ns);
    let after: Vec<(String, String)> =
        t.entries.iter().map(|e| (e.0.clone(), text(&e.1))).collect();
    assert_eq!(before, after);
}

#[test]
fn overlay_overwrites_and_appends() {
    let mut base = tree(&[("a.txt", "one"), ("b.txt", "two")]);
    let layer = tree(&[("b.txt", "2"), ("c.txt", "3")]);
    base.overlay(&layer);
    assert_eq!(get(&base, "a.txt"), Some("one".to_string()));
    assert_eq!(get(&base, "b.txt"), Some("2".to_string()));
    assert_eq!(get(&base, "c.txt"), Some("3".to_string()));
}

#[test]
fn remove_deletes_a_path() {
    let mut t = tree(&[("a.txt", "one"), ("b.txt", "two")]);
    t.remove(&"a.txt".to_string());
    assert_eq!(get(&t, "a.txt"), None);
    assert_eq!(get(&t, "b.txt"), Some("two".to_string()));
}
