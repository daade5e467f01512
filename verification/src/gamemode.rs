use vstd::prelude::*;
use vstd::string::StringExecFns;

use crate::errors::{BuildError, ConfigError};
use crate::fsview::FsView;

verus! {

/// A gamemode descriptor: one server-package choice, a pinned primary
/// version with ordered fallback versions, an ordered plugin list and a
/// free-form attribute map, all loaded once per cycle from configuration.
#[derive(Debug, PartialEq, Eq)]
pub struct GameMode {
    pub id: String,
    pub name: String,
    pub server: String,
    pub version: String,
    pub backup_versions: Vec<String>,
    pub plugins: Vec<String>,
    pub attributes: Vec<(String, String)>,
}

/// The artifact path a version tier would hold for a plugin.
pub open spec fn versioned_jar_path_spec(version: Seq<char>, name: Seq<char>) -> Seq<char> {
    "plugins/"@ + version + "/"@ + name + ".jar"@
}

/// The companion-folder path a version tier would hold for a plugin.
pub open spec fn versioned_folder_path_spec(version: Seq<char>, name: Seq<char>) -> Seq<char> {
    "plugins/"@ + version + "/"@ + name + "/"@
}

/// The artifact path of the unscoped fallback tier.
pub open spec fn unscoped_jar_path_spec(name: Seq<char>) -> Seq<char> {
    "plugins/"@ + name + ".jar"@
}

/// The companion-folder path of the unscoped fallback tier.
pub open spec fn unscoped_folder_path_spec(name: Seq<char>) -> Seq<char> {
    "plugins/"@ + name + "/"@
}

/// The companion folder is returned exactly when it exists; its absence is
/// not a failure.
pub open spec fn folder_opt_spec(fs: FsView, folder: Seq<char>) -> Option<Seq<char>> {
    if fs.has_dir(folder) {
        Some(folder)
    } else {
        None
    }
}

/// The first version of the list whose tier holds the plugin's artifact.
pub open spec fn first_matching_version(fs: FsView, versions: Seq<Seq<char>>, name: Seq<char>) -> Option<
    Seq<char>,
>
    decreases versions.len(),
{
    if versions.len() == 0 {
        None
    } else if fs.has_file(versioned_jar_path_spec(versions[0], name)) {
        Some(versions[0])
    } else {
        first_matching_version(fs, versions.drop_first(), name)
    }
}

/// Where a plugin resolves to, over the snapshot: the first matching version
/// tier in list order wins; the unscoped tier is only reached when no listed
/// version matches; no candidate at all is a miss.
pub open spec fn resolve_spec(fs: FsView, versions: Seq<Seq<char>>, name: Seq<char>) -> Option<
    (Seq<char>, Option<Seq<char>>),
> {
    match first_matching_version(fs, versions, name) {
        Some(v) => Some(
            (versioned_jar_path_spec(v, name), folder_opt_spec(fs, versioned_folder_path_spec(v, name))),
        ),
        None => if fs.has_file(unscoped_jar_path_spec(name)) {
            Some(
                (unscoped_jar_path_spec(name), folder_opt_spec(fs, unscoped_folder_path_spec(name))),
            )
        } else {
            None
        },
    }
}

/// A resolved placement, as sequences.
pub open spec fn placement_view(r: Option<(String, Option<String>)>) -> Option<
    (Seq<char>, Option<Seq<char>>),
> {
    match r {
        Some((jar, folder)) => Some(
            (
                jar@,
                match folder {
                    Some(f) => Some(f@),
                    None => None,
                },
            ),
        ),
        None => None,
    }
}

/// Builds `plugins/<version>/<name>.jar`.
pub fn versioned_jar_path(version: &String, name: &String) -> (r: String)
    ensures
        r@ == versioned_jar_path_spec(version@, name@),
{
    let mut s = String::from_str("plugins/");
    s.append(version.as_str());
    s.append("/");
    s.append(name.as_str());
    s.append(".jar");
    s
}

/// Builds `plugins/<version>/<name>/`.
pub fn versioned_folder_path(version: &String, name: &String) -> (r: String)
    ensures
        r@ == versioned_folder_path_spec(version@, name@),
{
    let mut s = String::from_str("plugins/");
    s.append(version.as_str());
    s.append("/");
    s.append(name.as_str());
    s.append("/");
    s
}

/// Builds `plugins/<name>.jar`.
pub fn unscoped_jar_path(name: &String) -> (r: String)
    ensures
        r@ == unscoped_jar_path_spec(name@),
{
    let mut s = String::from_str("plugins/");
    s.append(name.as_str());
    s.append(".jar");
    s
}

/// Builds `plugins/<name>/`.
pub fn unscoped_folder_path(name: &String) -> (r: String)
    ensures
        r@ == unscoped_folder_path_spec(name@),
{
    let mut s = String::from_str("plugins/");
    s.append(name.as_str());
    s.append("/");
    s
}

impl GameMode {
    /// The version order the resolver walks: the pinned primary version
    /// first, then the listed backup versions in order.
    pub open spec fn candidate_versions(&self) -> Seq<Seq<char>> {
        seq![self.version@] + self.backup_versions@.map_values(|v: String| v@)
    }

    /// Constructs a gamemode descriptor from the plain fields a
    /// configuration file yields. The first absent required field is the
    /// error, checked in the order name, server, version.
    pub fn new(
        id: String,
        name: Option<String>,
        server: Option<String>,
        version: Option<String>,
        backup_versions: Vec<String>,
        plugins: Vec<String>,
        attributes: Vec<(String, String)>,
    ) -> (r: Result<GameMode, ConfigError>)
        ensures
            match r {
                Ok(g) => {
                    &&& name is Some && server is Some && version is Some
                    &&& g.id == id
                    &&& g.name == name->0
                    &&& g.server == server->0
                    &&& g.version == version->0
                    &&& g.backup_versions == backup_versions
                    &&& g.plugins == plugins
                    &&& g.attributes == attributes
                },
                Err(e) => {
                    &&& e == ConfigError::MissingName ==> name is None
                    &&& e == ConfigError::MissingServer ==> name is Some && server is None
                    &&& e == ConfigError::MissingVersion ==> name is Some && server is Some
                        && version is None
                    &&& (name is None || server is None || version is None)
                },
            },
            r is Ok <==> (name is Some && server is Some && version is Some),
    {
        let name = match name {
            Some(n) => n,
            None => {
                return Err(ConfigError::MissingName);
            },
        };
        let server = match server {
            Some(s) => s,
            None => {
                return Err(ConfigError::MissingServer);
            },
        };
        let version = match version {
            Some(v) => v,
            None => {
                return Err(ConfigError::MissingVersion);
            },
        };
        Ok(GameMode { id, name, server, version, backup_versions, plugins, attributes })
    }

    /// The name the server package's primary executable artifact carries
    /// inside the package: `<server>.jar`.
    pub fn server_artifact_name(&self) -> (r: String)
        ensures
            r@ == self.server@ + ".jar"@,
    {
        let mut s = self.server.clone();
        s.append(".jar");
        s
    }

    /// Searches for a suitable artifact of the plugin, walking the pinned
    /// version, then each backup version in order, then the unscoped tier;
    /// the companion folder rides along when its directory exists.
    pub fn plugin_path(&self, name: String, fs: &FsView) -> (r: Option<(String, Option<String>)>)
        ensures
            placement_view(r) == resolve_spec(*fs, self.candidate_versions(), name@),
    {
        let ghost cands = self.candidate_versions();
        let mut versions: Vec<String> = Vec::new();
        versions.push(self.version.clone());
        let mut b: usize = 0;
        while b < self.backup_versions.len()
            invariant
                b <= self.backup_versions@.len(),
                versions@.len() == b + 1,
                versions@.map_values(|v: String| v@) =~= cands.subrange(0, b + 1),
                cands == self.candidate_versions(),
            decreases self.backup_versions@.len() - b,
        {
            versions.push(self.backup_versions[b].clone());
            b += 1;
            proof {
                assert(versions@.map_values(|v: String| v@) =~= cands.subrange(0, b + 1));
            }
        }
        proof {
            assert(cands.subrange(0, cands.len() as int) =~= cands);
        }
        let mut i: usize = 0;
        proof {
            assert(cands.skip(0) =~= cands);
        }
        while i < versions.len()
            invariant
                i <= versions@.len(),
                versions@.map_values(|v: String| v@) == cands,
                cands == self.candidate_versions(),
                first_matching_version(*fs, cands, name@) == first_matching_version(
                    *fs,
                    cands.skip(i as int),
                    name@,
                ),
            decreases versions@.len() - i,
        {
            let jar = versioned_jar_path(&versions[i], &name);
            proof {
                assert(cands.skip(i as int)[0] == cands[i as int]);
                assert(cands.skip(i as int).drop_first() =~= cands.skip(i + 1));
            }
            if fs.contains_file(&jar) {
                let folder = versioned_folder_path(&versions[i], &name);
                if fs.contains_dir(&folder) {
                    return Some((jar, Some(folder)));
                } else {
                    return Some((jar, None));
                }
            }
            i += 1;
        }
        proof {
            assert(cands.skip(cands.len() as int) =~= Seq::<Seq<char>>::empty());
        }
        let jar = unscoped_jar_path(&name);
        if fs.contains_file(&jar) {
            let folder = unscoped_folder_path(&name);
            if fs.contains_dir(&folder) {
                return Some((jar, Some(folder)));
            } else {
                return Some((jar, None));
            }
        }
        None
    }

    /// Resolves every plugin of the list in order, pairing each placement
    /// with the plugin's logical name; the first plugin no tier holds makes
    /// the whole resolution fail with `PluginNotFound`.
    pub fn plugin_paths(&self, fs: &FsView) -> (r: Result<
        Vec<((String, Option<String>), String)>,
        BuildError,
    >)
        ensures
            r is Ok <==> (forall|j: int|
                0 <= j < self.plugins@.len() ==> resolve_spec(
                    *fs,
                    self.candidate_versions(),
                    (#[trigger] self.plugins@[j])@,
                ) is Some),
            r matches Ok(v) ==> {
                &&& v@.len() == self.plugins@.len()
                &&& forall|j: int|
                    0 <= j < v@.len() ==> placement_view(Some((#[trigger] v@[j]).0))
                        == resolve_spec(*fs, self.candidate_versions(), self.plugins@[j]@)
                &&& forall|j: int| 0 <= j < v@.len() ==> (#[trigger] v@[j]).1 == self.plugins@[j]
            },
            r matches Err(e) ==> (e matches BuildError::PluginNotFound(n) && exists|j: int|
                {
                    &&& 0 <= j < self.plugins@.len()
                    &&& n == self.plugins@[j]
                    &&& resolve_spec(*fs, self.candidate_versions(), (#[trigger] self.plugins@[j])@)
                        is None
                    &&& forall|k: int|
                        0 <= k < j ==> resolve_spec(
                            *fs,
                            self.candidate_versions(),
                            (#[trigger] self.plugins@[k])@,
                        ) is Some
                }),
    {
        let mut out: Vec<((String, Option<String>), String)> = Vec::new();
        let mut i: usize = 0;
        while i < self.plugins.len()
            invariant
                i <= self.plugins@.len(),
                out@.len() == i,
                forall|j: int|
                    0 <= j < i ==> placement_view(Some((#[trigger] out@[j]).0)) == resolve_spec(
                        *fs,
                        self.candidate_versions(),
                        self.plugins@[j]@,
                    ),
                forall|j: int| 0 <= j < i ==> (#[trigger] out@[j]).1 == self.plugins@[j],
                forall|j: int|
                    0 <= j < i ==> resolve_spec(
                        *fs,
                        self.candidate_versions(),
                        (#[trigger] self.plugins@[j])@,
                    ) is Some,
            decreases self.plugins@.len() - i,
        {
            let name = self.plugins[i].clone();
            match self.plugin_path(name, fs) {
                Some(p) => {
                    out.push((p, self.plugins[i].clone()));
                },
                None => {
                    return Err(BuildError::PluginNotFound(self.plugins[i].clone()));
                },
            }
            i += 1;
        }
        Ok(out)
    }

    /// The gamemode-derived slice of the replacement namespace: the identity
    /// fields under fixed keys, then every attribute under its key prefixed
    /// with `gamemode_`, in attribute order.
    pub fn get_replacements(&self) -> (r: Vec<(String, String)>)
        ensures
            r@.map_values(|p: (String, String)| (p.0@, p.1@)) == self.replacements_spec(),
    {
        let mut r: Vec<(String, String)> = Vec::new();
        r.push((String::from_str("gamemode_id"), self.id.clone()));
        r.push((String::from_str("gamemode_name"), self.name.clone()));
        r.push((String::from_str("gamemode_server"), self.server.clone()));
        r.push((String::from_str("gamemode_version"), self.version.clone()));
        let mut i: usize = 0;
        while i < self.attributes.len()
            invariant
                i <= self.attributes@.len(),
                r@.len() == i + 4,
                r@.map_values(|p: (String, String)| (p.0@, p.1@)) =~= self.replacements_spec()
                    .subrange(0, i + 4),
            decreases self.attributes@.len() - i,
        {
            let mut key = String::from_str("gamemode_");
            key.append(self.attributes[i].0.as_str());
            r.push((key, self.attributes[i].1.clone()));
            i += 1;
            proof {
                assert(r@.map_values(|p: (String, String)| (p.0@, p.1@)) =~= self
                    .replacements_spec().subrange(0, i + 4));
            }
        }
        proof {
            assert(self.replacements_spec().subrange(0, self.replacements_spec().len() as int)
                =~= self.replacements_spec());
        }
        r
    }

    /// The gamemode-derived raw replacement pairs, lowest precedence first.
    pub open spec fn replacements_spec(&self) -> Seq<(Seq<char>, Seq<char>)> {
        seq![
            ("gamemode_id"@, self.id@),
            ("gamemode_name"@, self.name@),
            ("gamemode_server"@, self.server@),
            ("gamemode_version"@, self.version@),
        ] + self.attributes@.map_values(|p: (String, String)| ("gamemode_"@ + p.0@, p.1@))
    }
}

/// When no listed version tier holds the artifact but the unscoped tier
/// does, resolution lands on the unscoped tier, whatever the version list.
pub proof fn lemma_resolve_unscoped(fs: FsView, versions: Seq<Seq<char>>, name: Seq<char>)
    requires
        forall|i: int|
            0 <= i < versions.len() ==> !fs.has_file(
                versioned_jar_path_spec(#[trigger] versions[i], name),
            ),
        fs.has_file(unscoped_jar_path_spec(name)),
    ensures
        resolve_spec(fs, versions, name) == Some(
            (unscoped_jar_path_spec(name), folder_opt_spec(fs, unscoped_folder_path_spec(name))),
        ),
{
    lemma_first_matching_none(fs, versions, name);
}

/// When some listed version tier holds the artifact, resolution lands on
/// the first such tier and never falls through to the unscoped tier.
pub proof fn lemma_resolve_versioned(fs: FsView, versions: Seq<Seq<char>>, name: Seq<char>, i: int)
    requires
        0 <= i < versions.len(),
        fs.has_file(versioned_jar_path_spec(versions[i], name)),
        forall|j: int|
            0 <= j < i ==> !fs.has_file(versioned_jar_path_spec(#[trigger] versions[j], name)),
    ensures
        resolve_spec(fs, versions, name) == Some(
            (
                versioned_jar_path_spec(versions[i], name),
                folder_opt_spec(fs, versioned_folder_path_spec(versions[i], name)),
            ),
        ),
{
    lemma_first_matching_at(fs, versions, name, i);
}

/// When no tier at all holds the artifact, resolution misses.
pub proof fn lemma_resolve_missing(fs: FsView, versions: Seq<Seq<char>>, name: Seq<char>)
    requires
        forall|i: int|
            0 <= i < versions.len() ==> !fs.has_file(
                versioned_jar_path_spec(#[trigger] versions[i], name),
            ),
        !fs.has_file(unscoped_jar_path_spec(name)),
    ensures
        resolve_spec(fs, versions, name) is None,
{
    lemma_first_matching_none(fs, versions, name);
}

/// A successful resolution names an artifact the snapshot really holds.
pub proof fn lemma_resolve_has_file(fs: FsView, versions: Seq<Seq<char>>, name: Seq<char>)
    ensures
        resolve_spec(fs, versions, name) matches Some(pl) ==> fs.has_file(pl.0),
{
    lemma_first_matching_has(fs, versions, name);
}

proof fn lemma_first_matching_has(fs: FsView, versions: Seq<Seq<char>>, name: Seq<char>)
    ensures
        first_matching_version(fs, versions, name) matches Some(v) ==> fs.has_file(
            versioned_jar_path_spec(v, name),
        ),
    decreases versions.len(),
{
    if versions.len() == 0 {
    } else if fs.has_file(versioned_jar_path_spec(versions[0], name)) {
    } else {
        lemma_first_matching_has(fs, versions.drop_first(), name);
    }
}

proof fn lemma_first_matching_none(fs: FsView, versions: Seq<Seq<char>>, name: Seq<char>)
    requires
        forall|i: int|
            0 <= i < versions.len() ==> !fs.has_file(
                versioned_jar_path_spec(#[trigger] versions[i], name),
            ),
    ensures
        first_matching_version(fs, versions, name) is None,
    decreases versions.len(),
{
    if versions.len() == 0 {
    } else {
        assert(forall|j: int|
            0 <= j < versions.drop_first().len() ==> #[trigger] versions.drop_first()[j]
                == versions[j + 1]);
        lemma_first_matching_none(fs, versions.drop_first(), name);
    }
}

proof fn lemma_first_matching_at(fs: FsView, versions: Seq<Seq<char>>, name: Seq<char>, i: int)
    requires
        0 <= i < versions.len(),
        fs.has_file(versioned_jar_path_spec(versions[i], name)),
        forall|j: int|
            0 <= j < i ==> !fs.has_file(versioned_jar_path_spec(#[trigger] versions[j], name)),
    ensures
        first_matching_version(fs, versions, name) == Some(versions[i]),
    decreases versions.len(),
{
    if i == 0 {
    } else {
        assert(forall|j: int|
            0 <= j < versions.drop_first().len() ==> #[trigger] versions.drop_first()[j]
                == versions[j + 1]);
        lemma_first_matching_at(fs, versions.drop_first(), name, i - 1);
    }
}

} // verus!
