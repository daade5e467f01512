use vstd::prelude::*;
use vstd::string::StringExecFns;

use crate::errors::{BuildError, ConfigError};
use crate::fsview::{files_under_spec, lemma_has_file_content, FsView};
use crate::gamemode::{lemma_resolve_has_file, resolve_spec, GameMode};
use crate::namespace::{lemma_ns_set_all_last, lemma_ns_set_get_other, normalize_spec, ns_get,
    ns_set, ns_set_all, substitute, substitute_spec, Namespace};
use crate::text::{is_text_path_spec, str_chars};
use crate::tree::{lemma_overlay_last, lemma_subst_tree_get, ns_remove, overlay_spec,
    subst_tree_spec, FileTree};
verus! {

/// A realm descriptor: one deployable instance of a gamemode, with its own
/// display name and attribute overrides. The realm owns its gamemode value
/// exclusively.
#[derive(Debug, PartialEq, Eq)]
pub struct Realm {
    pub id: String,
    pub name: String,
    pub gamemode: GameMode,
    pub attributes: Vec<(String, String)>,
}

impl Realm {
    /// Constructs a realm descriptor from the plain fields a configuration
    /// file yields and the gamemode it references; the display name is
    /// required.
    pub fn new(
        id: String,
        name: Option<String>,
        gamemode: GameMode,
        attributes: Vec<(String, String)>,
    ) -> (r: Result<Realm, ConfigError>)
        ensures
            match r {
                Ok(rm) => {
                    &&& name is Some
                    &&& rm.id == id
                    &&& rm.name == name->0
                    &&& rm.gamemode == gamemode
                    &&& rm.attributes == attributes
                },
                Err(e) => e == ConfigError::MissingName && name is None,
            },
            r is Ok <==> name is Some,
    {
        let name = match name {
            Some(n) => n,
            None => {
                return Err(ConfigError::MissingName);
            },
        };
        Ok(Realm { id, name, gamemode, attributes })
    }

    /// The realm's overlay directory: `realm/<id>/`.
    pub fn content_folder(&self) -> (r: String)
        ensures
            r@ == "realm/"@ + self.id@ + "/"@,
    {
        let mut s = String::from_str("realm/");
        s.append(self.id.as_str());
        s.append("/");
        s
    }

    /// The realm's build output directory: `out/server/<id>`.
    pub fn output_folder(&self) -> (r: String)
        ensures
            r@ == "out/server/"@ + self.id@,
    {
        let mut s = String::from_str("out/server/");
        s.append(self.id.as_str());
        s
    }

    /// The raw replacement pairs, lowest precedence first: gamemode identity
    /// fields and attributes, then the realm identity fields, then the realm
    /// attributes, which outrank everything.
    pub open spec fn raw_pairs(&self) -> Seq<(Seq<char>, Seq<char>)> {
        self.gamemode.replacements_spec() + seq![("id"@, self.id@), ("name"@, self.name@)]
            + self.attributes@.map_values(|p: (String, String)| (p.0@, p.1@))
    }

    /// The merged replacement namespace the substitution pass applies.
    pub open spec fn namespace_spec(&self) -> Seq<(Seq<char>, Seq<char>)> {
        ns_set_all(Seq::<(Seq<char>, Seq<char>)>::empty(), self.raw_pairs())
    }

    /// Merges the replacement namespace: every raw pair is bound in
    /// precedence order, keys normalized, later pairs overriding earlier
    /// ones that normalize to the same placeholder.
    pub fn replacement_namespace(&self) -> (r: Namespace)
        ensures
            r@ == self.namespace_spec(),
    {
        let ghost raw = self.raw_pairs();
        let mut ns = Namespace::new();
        let reps = self.gamemode.get_replacements();
        let mut i: usize = 0;
        proof {
            assert(raw.skip(0) =~= raw);
        }
        while i < reps.len()
            invariant
                i <= reps@.len(),
                reps@.map_values(|p: (String, String)| (p.0@, p.1@)) == self.gamemode
                    .replacements_spec(),
                raw == self.raw_pairs(),
                ns_set_all(Seq::<(Seq<char>, Seq<char>)>::empty(), raw) == ns_set_all(
                    ns@,
                    raw.skip(i as int),
                ),
            decreases reps@.len() - i,
        {
            proof {
                assert(raw[i as int] == (reps@[i as int].0@, reps@[i as int].1@));
                assert(raw.skip(i as int)[0] == raw[i as int]);
                assert(raw.skip(i as int).drop_first() =~= raw.skip(i + 1));
            }
            ns.set(reps[i].0.as_str(), reps[i].1.as_str());
            i += 1;
        }
        let ghost j0 = reps@.len() as int;
        let ghost ns0 = ns@;
        proof {
            assert(raw[j0] == ("id"@, self.id@));
            assert(raw.skip(j0)[0] == raw[j0]);
            assert(raw.skip(j0).drop_first() =~= raw.skip(j0 + 1));
        }
        ns.set("id", self.id.as_str());
        proof {
            assert(ns_set_all(ns0, raw.skip(j0)) == ns_set_all(ns@, raw.skip(j0 + 1)));
        }
        let ghost ns1 = ns@;
        proof {
            assert(raw[j0 + 1] == ("name"@, self.name@));
            assert(raw.skip(j0 + 1)[0] == raw[j0 + 1]);
            assert(raw.skip(j0 + 1).drop_first() =~= raw.skip(j0 + 2));
        }
        ns.set("name", self.name.as_str());
        proof {
            assert(ns_set_all(ns1, raw.skip(j0 + 1)) == ns_set_all(ns@, raw.skip(j0 + 2)));
        }
        let ghost base = reps@.len() as int + 2;
        let mut a: usize = 0;
        while a < self.attributes.len()
            invariant
                a <= self.attributes@.len(),
                base == self.gamemode.replacements_spec().len() + 2,
                raw == self.raw_pairs(),
                ns_set_all(Seq::<(Seq<char>, Seq<char>)>::empty(), raw) == ns_set_all(
                    ns@,
                    raw.skip(base + a),
                ),
            decreases self.attributes@.len() - a,
        {
            proof {
                assert(raw[base + a] == (self.attributes@[a as int].0@, self.attributes@[
                    a as int].1@));
                assert(raw.skip(base + a)[0] == raw[base + a]);
                assert(raw.skip(base + a).drop_first() =~= raw.skip(base + a + 1));
            }
            ns.set(self.attributes[a].0.as_str(), self.attributes[a].1.as_str());
            a += 1;
        }
        proof {
            assert(raw.skip(raw.len() as int) =~= Seq::<(Seq<char>, Seq<char>)>::empty());
        }
        ns
    }

    /// One substitution pass over a single file's text, with the realm's
    /// merged namespace.
    pub fn make_replacements(&self, content: &Vec<char>) -> (r: Vec<char>)
        ensures
            r@ == substitute_spec(content@, self.namespace_spec()),
    {
        let ns = self.replacement_namespace();
        substitute(content, &ns)
    }
}

/// The destination of a plugin's artifact inside the output: the plugin's
/// logical name decides the file name, not the source file's name.
pub open spec fn plugin_dest_spec(name: Seq<char>) -> Seq<char> {
    "plugins/"@ + name + ".jar"@
}

/// The destination of one companion file, under the plugin's folder.
pub open spec fn companion_dest_spec(name: Seq<char>, rest: Seq<char>) -> Seq<char> {
    "plugins/"@ + name + "/"@ + rest
}

/// Merge-copies the files of a resolved companion folder under the
/// plugin's folder in the output.
pub open spec fn place_companions_spec(
    t: Seq<(Seq<char>, Seq<char>)>,
    entries: Seq<(Seq<char>, Seq<char>)>,
    name: Seq<char>,
) -> Seq<(Seq<char>, Seq<char>)>
    decreases entries.len(),
{
    if entries.len() == 0 {
        t
    } else {
        place_companions_spec(
            ns_set(t, companion_dest_spec(name, entries[0].0), entries[0].1),
            entries.drop_first(),
            name,
        )
    }
}

/// Places one resolved plugin: its artifact under its logical name, then
/// its companion files when a companion folder resolved along.
pub open spec fn place_plugin_spec(
    t: Seq<(Seq<char>, Seq<char>)>,
    fs: FsView,
    versions: Seq<Seq<char>>,
    name: Seq<char>,
) -> Seq<(Seq<char>, Seq<char>)> {
    match resolve_spec(fs, versions, name) {
        Some(pl) => {
            let content = match fs.file_content(pl.0) {
                Some(c) => c,
                None => Seq::<char>::empty(),
            };
            let with_jar = ns_set(t, plugin_dest_spec(name), content);
            match pl.1 {
                Some(folder) => place_companions_spec(
                    with_jar,
                    files_under_spec(fs.files_view(), folder),
                    name,
                ),
                None => with_jar,
            }
        },
        None => t,
    }
}

/// Places every plugin of the list, in list order.
pub open spec fn place_plugins_spec(
    t: Seq<(Seq<char>, Seq<char>)>,
    fs: FsView,
    versions: Seq<Seq<char>>,
    names: Seq<Seq<char>>,
) -> Seq<(Seq<char>, Seq<char>)>
    decreases names.len(),
{
    if names.len() == 0 {
        t
    } else {
        place_plugins_spec(
            place_plugin_spec(t, fs, versions, names[0]),
            fs,
            versions,
            names.drop_first(),
        )
    }
}

impl Realm {
    /// The fully composed output tree, step by step: the server package,
    /// its primary artifact renamed to the canonical `server.jar`, the
    /// resolved plugins, the gamemode overlay, the realm overlay, one
    /// substitution pass, and the fixed acceptance file, each later step
    /// overwriting the earlier on path collision.
    pub open spec fn build_tree_spec(
        self,
        server: Seq<(Seq<char>, Seq<char>)>,
        fs: FsView,
        gamemode_overlay: Seq<(Seq<char>, Seq<char>)>,
        realm_overlay: Seq<(Seq<char>, Seq<char>)>,
    ) -> Seq<(Seq<char>, Seq<char>)> {
        let unpacked = overlay_spec(Seq::<(Seq<char>, Seq<char>)>::empty(), server);
        let artifact = self.gamemode.server@ + ".jar"@;
        let renamed = ns_remove(
            ns_set(
                unpacked,
                "server.jar"@,
                match ns_get(unpacked, artifact) {
                    Some(c) => c,
                    None => Seq::<char>::empty(),
                },
            ),
            artifact,
        );
        let with_plugins = place_plugins_spec(
            renamed,
            fs,
            self.gamemode.candidate_versions(),
            self.gamemode.plugins@.map_values(|p: String| p@),
        );
        let with_gamemode = overlay_spec(with_plugins, gamemode_overlay);
        let with_realm = overlay_spec(with_gamemode, realm_overlay);
        let substituted = subst_tree_spec(with_realm, self.namespace_spec());
        ns_set(substituted, "eula.txt"@, "eula=true\n"@)
    }

    /// Composes the whole output tree for this realm, consuming it: the
    /// build either yields the full tree or fails on the first missing
    /// piece, the server package's primary artifact before any plugin.
    pub fn build_files(
        self,
        server: FileTree,
        fs: &FsView,
        gamemode_overlay: &FileTree,
        realm_overlay: &FileTree,
    ) -> (r: Result<FileTree, BuildError>)
        ensures
            r is Ok <==> (ns_get(
                overlay_spec(Seq::<(Seq<char>, Seq<char>)>::empty(), server@),
                self.gamemode.server@ + ".jar"@,
            ) is Some && forall|j: int|
                0 <= j < self.gamemode.plugins@.len() ==> resolve_spec(
                    *fs,
                    self.gamemode.candidate_versions(),
                    (#[trigger] self.gamemode.plugins@[j])@,
                ) is Some),
            r matches Ok(t) ==> t@ == self.build_tree_spec(
                server@,
                *fs,
                gamemode_overlay@,
                realm_overlay@,
            ),
            r == Err::<FileTree, BuildError>(BuildError::MissingServerArtifact) <==> ns_get(
                overlay_spec(Seq::<(Seq<char>, Seq<char>)>::empty(), server@),
                self.gamemode.server@ + ".jar"@,
            ) is None,
            match r {
                Ok(_) => true,
                Err(e) => match e {
                    BuildError::MissingServerArtifact => true,
                    BuildError::PluginNotFound(n) => exists|j: int|
                        {
                            &&& 0 <= j < self.gamemode.plugins@.len()
                            &&& n == self.gamemode.plugins@[j]
                            &&& resolve_spec(
                                *fs,
                                self.gamemode.candidate_versions(),
                                (#[trigger] self.gamemode.plugins@[j])@,
                            ) is None
                            &&& forall|k: int|
                                0 <= k < j ==> resolve_spec(
                                    *fs,
                                    self.gamemode.candidate_versions(),
                                    (#[trigger] self.gamemode.plugins@[k])@,
                                ) is Some
                        },
                },
            },
    {
        let ghost cands = self.gamemode.candidate_versions();
        let ghost names = self.gamemode.plugins@.map_values(|p: String| p@);
        let mut out = FileTree::new();
        out.overlay(&server);
        let ghost unpacked = out@;
        let artifact = self.gamemode.server_artifact_name();
        let content = match out.get(&artifact) {
            Some(c) => c,
            None => {
                return Err(BuildError::MissingServerArtifact);
            },
        };
        out.put(String::from_str("server.jar"), content);
        out.remove(&artifact);
        let ghost renamed = out@;
        let placements = match self.gamemode.plugin_paths(fs) {
            Ok(v) => v,
            Err(e) => {
                return Err(e);
            },
        };
        let mut i: usize = 0;
        proof {
            assert(names.skip(0) =~= names);
        }
        while i < placements.len()
            invariant
                i <= placements@.len(),
                placements@.len() == names.len(),
                cands == self.gamemode.candidate_versions(),
                names == self.gamemode.plugins@.map_values(|p: String| p@),
                forall|j: int|
                    0 <= j < placements@.len() ==> (#[trigger] placements@[j]).1 == self.gamemode
                        .plugins@[j],
                forall|j: int|
                    0 <= j < placements@.len() ==> crate::gamemode::placement_view(
                        Some((#[trigger] placements@[j]).0),
                    ) == resolve_spec(*fs, cands, self.gamemode.plugins@[j]@),
                place_plugins_spec(renamed, *fs, cands, names) == place_plugins_spec(
                    out@,
                    *fs,
                    cands,
                    names.skip(i as int),
                ),
            decreases placements@.len() - i,
        {
            proof {
                assert(names.skip(i as int)[0] == names[i as int]);
                assert(names.skip(i as int).drop_first() =~= names.skip(i + 1));
            }
            let ghost before = out@;
            let ghost pl = resolve_spec(*fs, cands, names[i as int])->Some_0;
            let name = &placements[i].1;
            let jar = &placements[i].0.0;
            let content = match fs.read_file(jar) {
                Some(c) => c,
                None => {
                    // unreachable: a resolved artifact is a file the
                    // snapshot holds, so reading it cannot miss
                    proof {
                        lemma_resolve_has_file(*fs, cands, names[i as int]);
                        lemma_has_file_content(*fs, pl.0);
                        assert(false);
                    }
                    return Err(BuildError::PluginNotFound(placements[i].1.clone()));
                },
            };
            let mut dest = String::from_str("plugins/");
            dest.append(name.as_str());
            dest.append(".jar");
            out.put(dest, content);
            match &placements[i].0.1 {
                Some(folder) => {
                    let ghost with_jar = out@;
                    let comps = fs.files_under(folder);
                    let ghost comp_entries = files_under_spec(fs.files_view(), folder@);
                    let mut c: usize = 0;
                    proof {
                        assert(comp_entries.skip(0) =~= comp_entries);
                    }
                    while c < comps.len()
                        invariant
                            c <= comps@.len(),
                            comps@.map_values(|p: (String, Vec<char>)| (p.0@, p.1@))
                                == comp_entries,
                            names == self.gamemode.plugins@.map_values(|p: String| p@),
                            0 <= i < names.len(),
                            name@ == names[i as int],
                            place_companions_spec(with_jar, comp_entries, names[i as int])
                                == place_companions_spec(
                                out@,
                                comp_entries.skip(c as int),
                                names[i as int],
                            ),
                        decreases comps@.len() - c,
                    {
                        proof {
                            assert(comp_entries.skip(c as int)[0] == comp_entries[c as int]);
                            assert(comp_entries.skip(c as int).drop_first() =~= comp_entries.skip(
                                c + 1,
                            ));
                        }
                        let mut dest2 = String::from_str("plugins/");
                        dest2.append(name.as_str());
                        dest2.append("/");
                        dest2.append(comps[c].0.as_str());
                        out.put(dest2, comps[c].1.clone());
                        c += 1;
                    }
                    proof {
                        assert(comp_entries.skip(comp_entries.len() as int) =~= Seq::<
                            (Seq<char>, Seq<char>),
                        >::empty());
                        assert(out@ == place_companions_spec(
                            with_jar,
                            comp_entries,
                            names[i as int],
                        ));
                        assert(out@ == place_plugin_spec(before, *fs, cands, names[i as int]));
                    }
                },
                None => {
                    proof {
                        assert(out@ == place_plugin_spec(before, *fs, cands, names[i as int]));
                    }
                },
            }
            i += 1;
        }
        proof {
            assert(names.skip(names.len() as int) =~= Seq::<Seq<char>>::empty());
        }
        out.overlay(gamemode_overlay);
        out.overlay(realm_overlay);
        let ns = self.replacement_namespace();
        out.substitute_pass(&ns);
        out.put(String::from_str("eula.txt"), str_chars("eula=true\n"));
        Ok(out)
    }
}

/// Composition precedence: a file the realm overlay provides always wins
/// over same-path files from the server package, the plugins and the
/// gamemode overlay; the substitution pass then rewrites it exactly when it
/// is a text file. The one path outside the realm overlay's reach is the
/// fixed acceptance file, which is written after every overlay.
pub proof fn lemma_realm_overlay_wins(
    r: Realm,
    server: Seq<(Seq<char>, Seq<char>)>,
    fs: FsView,
    gamemode_overlay: Seq<(Seq<char>, Seq<char>)>,
    realm_overlay: Seq<(Seq<char>, Seq<char>)>,
    p: Seq<char>,
    i: int,
)
    requires
        0 <= i < realm_overlay.len(),
        realm_overlay[i].0 == p,
        forall|j: int| i < j < realm_overlay.len() ==> (#[trigger] realm_overlay[j]).0 != p,
        p != "eula.txt"@,
    ensures
        ns_get(r.build_tree_spec(server, fs, gamemode_overlay, realm_overlay), p) == Some(
            if is_text_path_spec(p) {
                substitute_spec(realm_overlay[i].1, r.namespace_spec())
            } else {
                realm_overlay[i].1
            },
        ),
{
    let unpacked = overlay_spec(Seq::<(Seq<char>, Seq<char>)>::empty(), server);
    let artifact = r.gamemode.server@ + ".jar"@;
    let renamed = ns_remove(
        ns_set(
            unpacked,
            "server.jar"@,
            match ns_get(unpacked, artifact) {
                Some(c) => c,
                None => Seq::<char>::empty(),
            },
        ),
        artifact,
    );
    let with_plugins = place_plugins_spec(
        renamed,
        fs,
        r.gamemode.candidate_versions(),
        r.gamemode.plugins@.map_values(|p: String| p@),
    );
    let with_gamemode = overlay_spec(with_plugins, gamemode_overlay);
    let with_realm = overlay_spec(with_gamemode, realm_overlay);
    let substituted = subst_tree_spec(with_realm, r.namespace_spec());
    lemma_overlay_last(with_gamemode, realm_overlay, p, i);
    lemma_subst_tree_get(with_realm, r.namespace_spec(), p);
    lemma_ns_set_get_other(substituted, "eula.txt"@, "eula=true\n"@, p);
}

/// Replacement precedence: when a realm attribute key collides, after
/// normalization, with any gamemode-derived or identity key, the realm
/// attribute's value is the one the merged namespace binds to that
/// placeholder. Among realm attributes themselves the last one with the
/// colliding key decides.
pub proof fn lemma_realm_attribute_wins(r: Realm, i: int)
    requires
        0 <= i < r.attributes@.len(),
        forall|j: int|
            i < j < r.attributes@.len() ==> normalize_spec(
                (#[trigger] r.attributes@[j]).0@,
            ) != normalize_spec(r.attributes@[i].0@),
    ensures
        ns_get(r.namespace_spec(), normalize_spec(r.attributes@[i].0@)) == Some(
            r.attributes@[i].1@,
        ),
{
    let raw = r.raw_pairs();
    let base = r.gamemode.replacements_spec().len() + 2;
    assert(raw[base + i] == (r.attributes@[i].0@, r.attributes@[i].1@));
    assert forall|j: int|
        base + i < j < raw.len() implies normalize_spec((#[trigger] raw[j]).0) != normalize_spec(
        raw[base + i].0,
    ) by {
        let a = j - base;
        assert(raw[j] == (r.attributes@[a].0@, r.attributes@[a].1@));
    }
    lemma_ns_set_all_last(Seq::<(Seq<char>, Seq<char>)>::empty(), raw, base + i);
}

} // verus!
