//! From a package manifest to the package context.
//!
//! The manifest comes in as plain values: the package's own entries, and
//! for each dependency either a version requirement or the keys of its
//! table with the entries that this library reads.
use crate::utils::context::{
    strs, DepInfoView, PackageContext, PackageContextView, PackageInfoView, SrcTypePath,
    SrcTypePathView,
};
use vstd::prelude::*;

verus! {

/// What the manifest says of one dependency.
#[derive(Debug, Clone, PartialEq, Eq)]
pub enum DepSpec {
    /// `name = "<version requirement>"`
    Version(String),
    /// `name = { .. }`: all keys of the table, and the entries `version`,
    /// `git` and `registry` where the table has them.
    Detailed {
        keys: Vec<String>,
        version: Option<String>,
        git: Option<String>,
        registry: Option<String>,
    },
}

/// What the manifest says of one dependency.
pub enum DepSpecView {
    Version(Seq<char>),
    Detailed {
        keys: Seq<Seq<char>>,
        version: Option<Seq<char>>,
        git: Option<Seq<char>>,
        registry: Option<Seq<char>>,
    },
}

/// The string in `o`, if any.
pub open spec fn opt_str(o: Option<String>) -> Option<Seq<char>> {
    match o {
        Some(s) => Some(s@),
        None => None,
    }
}

impl View for DepSpec {
    type V = DepSpecView;

    open spec fn view(&self) -> DepSpecView {
        match self {
            DepSpec::Version(v) => DepSpecView::Version(v@),
            DepSpec::Detailed { keys, version, git, registry } => DepSpecView::Detailed {
                keys: strs(keys@),
                version: opt_str(*version),
                git: opt_str(*git),
                registry: opt_str(*registry),
            },
        }
    }
}

/// A dependency of the manifest: its name and what is said of it.
#[derive(Debug, Clone, PartialEq, Eq)]
pub struct ManifestDep {
    pub name: String,
    pub spec: DepSpec,
}

/// A dependency of the manifest.
pub struct ManifestDepView {
    pub name: Seq<char>,
    pub spec: DepSpecView,
}

impl View for ManifestDep {
    type V = ManifestDepView;

    open spec fn view(&self) -> ManifestDepView {
        ManifestDepView { name: self.name@, spec: self.spec@ }
    }
}

/// The dependencies of `v`.
pub open spec fn manifest_deps_view(v: Seq<ManifestDep>) -> Seq<ManifestDepView> {
    Seq::new(v.len(), |i: int| v[i]@)
}

/// `key` is one of the keys of a dependency table that the container can
/// hold: `version`, `git`, `registry`.
pub open spec fn allowed_key(key: Seq<char>) -> bool {
    key == "version"@ || key == "git"@ || key == "registry"@
}

/// Every key of `keys` is allowed.
pub open spec fn all_allowed(keys: Seq<Seq<char>>) -> bool {
    forall|i: int| 0 <= i < keys.len() ==> allowed_key(#[trigger] keys[i])
}

impl ManifestDepView {
    /// The dependency as the package context holds it, for the platform
    /// `platform`. Without a version requirement in the manifest the
    /// requirement is "default". The source is the registry where one is
    /// named, else the git repository where one is named, else crates.io.
    /// A dependency whose table has a key that the container cannot hold
    /// is not marked to be written.
    pub open spec fn dep_info(self, platform: Seq<char>) -> DepInfoView {
        match self.spec {
            DepSpecView::Version(v) => DepInfoView {
                name: self.name,
                ver_req: v,
                src: SrcTypePathView::CratesIo,
                src_platform: platform,
                dump: true,
            },
            DepSpecView::Detailed { keys, version, git, registry } => DepInfoView {
                name: self.name,
                ver_req: match version {
                    Some(v) => v,
                    None => "default"@,
                },
                src: match registry {
                    Some(r) => SrcTypePathView::Registry(r),
                    None => match git {
                        Some(g) => SrcTypePathView::Git(g),
                        None => SrcTypePathView::CratesIo,
                    },
                },
                src_platform: platform,
                dump: all_allowed(keys),
            },
        }
    }
}

/// The dependencies of `deps` that the container can hold, as the package
/// context holds them.
pub open spec fn resolved(deps: Seq<ManifestDepView>, platform: Seq<char>) -> Seq<DepInfoView>
    decreases deps.len(),
{
    if deps.len() == 0 {
        Seq::empty()
    } else if deps.last().dep_info(platform).dump {
        resolved(deps.drop_last(), platform).push(deps.last().dep_info(platform))
    } else {
        resolved(deps.drop_last(), platform)
    }
}

/// The names of the dependencies of `deps` that the container cannot
/// hold.
pub open spec fn unresolved(deps: Seq<ManifestDepView>, platform: Seq<char>) -> Seq<Seq<char>>
    decreases deps.len(),
{
    if deps.len() == 0 {
        Seq::empty()
    } else if deps.last().dep_info(platform).dump {
        unresolved(deps.drop_last(), platform)
    } else {
        unresolved(deps.drop_last(), platform).push(deps.last().name)
    }
}

/// Whether `key` is `version`, `git` or `registry`.
pub fn is_allowed_key(key: &String) -> (b: bool)
    ensures
        b == allowed_key(key@),
{
    *key == String::from_str("version") || *key == String::from_str("git") || *key
        == String::from_str("registry")
}

/// Whether every key of `keys` is `version`, `git` or `registry`.
pub fn all_keys_allowed(keys: &Vec<String>) -> (b: bool)
    ensures
        b == all_allowed(strs(keys@)),
{
    let mut i: usize = 0;
    while i < keys.len()
        invariant
            i <= keys@.len(),
            forall|j: int| 0 <= j < i ==> allowed_key(#[trigger] strs(keys@)[j]),
        decreases keys@.len() - i,
    {
        if !is_allowed_key(&keys[i]) {
            assert(!allowed_key(strs(keys@)[i as int]));
            return false;
        }
        i = i + 1;
    }
    true
}

/// A copy of the strings of `v`.
pub fn copy_strings(v: &Vec<String>) -> (r: Vec<String>)
    ensures
        strs(r@) == strs(v@),
{
    let mut r: Vec<String> = Vec::new();
    let mut i: usize = 0;
    while i < v.len()
        invariant
            i <= v@.len(),
            r@.len() == i,
            forall|j: int| 0 <= j < i ==> r@[j]@ == v@[j]@,
        decreases v@.len() - i,
    {
        r.push(v[i].clone());
        i = i + 1;
    }
    assert(strs(r@) =~= strs(v@));
    r
}

/// A package manifest: name and version, license and authors where the
/// manifest names them, and the dependencies in the manifest's order.
#[derive(Debug, Clone, PartialEq, Eq)]
pub struct CrateToml {
    pub name: String,
    pub version: String,
    pub license: Option<String>,
    pub authors: Option<Vec<String>>,
    pub dependencies: Vec<ManifestDep>,
}

impl CrateToml {
    /// The manifest of a package without a name, a version or
    /// dependencies.
    pub fn default() -> (r: Self)
        ensures
            r.name@ == Seq::<char>::empty(),
            r.version@ == Seq::<char>::empty(),
            r.license is None,
            r.authors is None,
            r.dependencies@ == Seq::<ManifestDep>::empty(),
            r.package_info() == PackageInfoView::empty(),
    {
        CrateToml {
            name: String::new(),
            version: String::new(),
            license: None,
            authors: None,
            dependencies: Vec::new(),
        }
    }

    /// The package's description as the manifest gives it: an empty
    /// license and no authors where the manifest names none.
    pub open spec fn package_info(&self) -> PackageInfoView {
        PackageInfoView {
            name: self.name@,
            version: self.version@,
            license: match self.license {
                Some(l) => l@,
                None => Seq::empty(),
            },
            authors: match self.authors {
                Some(a) => strs(a@),
                None => Seq::empty(),
            },
        }
    }

    /// Sets the description of the package in `package_context` from the
    /// manifest.
    pub fn write_package_info_to_package_context(&self, package_context: &mut PackageContext)
        ensures
            final(package_context)@ == (PackageContextView {
                pack_info: self.package_info(),
                ..old(package_context)@
            }),
    {
        let license = match &self.license {
            Some(l) => l.clone(),
            None => String::new(),
        };
        let authors = match &self.authors {
            Some(a) => copy_strings(a),
            None => {
                let v: Vec<String> = Vec::new();
                assert(strs(v@) =~= Seq::<Seq<char>>::empty());
                v
            },
        };
        package_context.set_package_info(self.name.clone(), self.version.clone(), license, authors);
    }

    /// Adds to `package_context` the dependencies of `deps` that the
    /// container can hold, for the platform `platform`, and returns the
    /// names of those that it cannot hold.
    pub fn write_dep_info_to_package_context(
        &self,
        package_context: &mut PackageContext,
        deps: &Vec<ManifestDep>,
        platform: String,
    ) -> (irresolve: Vec<String>)
        ensures
            final(package_context)@ == (PackageContextView {
                dep_infos: old(package_context)@.dep_infos + resolved(
                    manifest_deps_view(deps@),
                    platform@,
                ),
                ..old(package_context)@
            }),
            strs(irresolve@) == unresolved(manifest_deps_view(deps@), platform@),
    {
        let ghost all = manifest_deps_view(deps@);
        let ghost before = package_context@;
        let mut irresolve_depinfos: Vec<String> = Vec::new();
        let mut i: usize = 0;
        proof {
            assert(all.take(0) =~= Seq::<ManifestDepView>::empty());
            assert(before.dep_infos + resolved(all.take(0), platform@) =~= before.dep_infos);
            assert(strs(irresolve_depinfos@) =~= unresolved(all.take(0), platform@));
        }
        while i < deps.len()
            invariant
                i <= deps@.len(),
                all == manifest_deps_view(deps@),
                package_context@ == (PackageContextView {
                    dep_infos: before.dep_infos + resolved(all.take(i as int), platform@),
                    ..before
                }),
                strs(irresolve_depinfos@) == unresolved(all.take(i as int), platform@),
            decreases deps@.len() - i,
        {
            let dep = &deps[i];
            proof {
                assert(all.take(i + 1).drop_last() =~= all.take(i as int));
                assert(all.take(i + 1).last() == dep@);
            }
            let mut ver_req = String::from_str("default");
            let mut src = SrcTypePath::CratesIo;
            let mut dump = true;
            match &dep.spec {
                DepSpec::Version(v) => {
                    ver_req = v.clone();
                },
                DepSpec::Detailed { keys, version, git, registry } => {
                    dump = all_keys_allowed(keys);
                    match version {
                        Some(v) => {
                            ver_req = v.clone();
                        },
                        None => {},
                    }
                    match git {
                        Some(g) => {
                            src = SrcTypePath::Git(g.clone());
                        },
                        None => {},
                    }
                    match registry {
                        Some(r) => {
                            src = SrcTypePath::Registry(r.clone());
                        },
                        None => {},
                    }
                },
            }
            if dump {
                let ghost prev = package_context@.dep_infos;
                package_context.add_dep_info(dep.name.clone(), ver_req, src, platform.clone());
                proof {
                    assert(package_context@.dep_infos =~= before.dep_infos + resolved(
                        all.take(i + 1),
                        platform@,
                    ));
                }
            } else {
                let ghost prev = strs(irresolve_depinfos@);
                irresolve_depinfos.push(dep.name.clone());
                assert(strs(irresolve_depinfos@) =~= prev.push(dep.name@));
            }
            i = i + 1;
        }
        proof {
            assert(all.take(deps@.len() as int) =~= all);
        }
        irresolve_depinfos
    }

    /// Takes description and dependencies of the package from the
    /// manifest into `package_context`, for any platform, and returns the
    /// names of the dependencies that the container cannot hold.
    pub fn write_info_to_package_context(&self, package_context: &mut PackageContext) -> (excluded:
        Vec<String>)
        ensures
            final(package_context)@ == (PackageContextView {
                pack_info: self.package_info(),
                dep_infos: old(package_context)@.dep_infos + resolved(
                    manifest_deps_view(self.dependencies@),
                    Seq::empty(),
                ),
                ..old(package_context)@
            }),
            strs(excluded@) == unresolved(manifest_deps_view(self.dependencies@), Seq::empty()),
    {
        self.write_package_info_to_package_context(package_context);
        self.write_dep_info_to_package_context(package_context, &self.dependencies, String::new())
    }
}

} // verus!
