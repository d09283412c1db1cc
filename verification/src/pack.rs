//! Packing: from a manifest and a packed source tarball to the package
//! context that is encoded.
use crate::utils::context::{PackageContext, PackageContextView};
use crate::utils::from_toml::{manifest_deps_view, resolved, CrateToml};
use vstd::prelude::*;

verus! {

/// A package on its way into a context: the manifest, the tarball, and the
/// context as far as it is filled.
pub struct Packing {
    pub pack_context: PackageContext,
    pub toml: CrateToml,
    pub crate_bin: Vec<u8>,
}

/// The context of the package that `toml` describes, with `crate_bin` as
/// its crate binary: no signatures and no roots yet.
pub open spec fn packed(toml: CrateToml, crate_bin: Seq<u8>) -> PackageContextView {
    PackageContextView {
        pack_info: toml.package_info(),
        dep_infos: resolved(manifest_deps_view(toml.dependencies@), Seq::empty()),
        crate_binary: crate_bin,
        sigs: Seq::empty(),
        root_cas: Seq::empty(),
    }
}

impl Packing {
    /// A packing of the package that `toml` describes and whose tarball
    /// is `crate_bin`, with an empty context.
    pub fn new(toml: CrateToml, crate_bin: Vec<u8>) -> (r: Self)
        ensures
            r.pack_context@ == PackageContextView::empty(),
            r.toml == toml,
            r.crate_bin == crate_bin,
    {
        Packing { pack_context: PackageContext::new(), toml, crate_bin }
    }

    /// Takes the manifest and the tarball into the context.
    pub fn read_crate(&mut self)
        requires
            old(self).pack_context@ == PackageContextView::empty(),
        ensures
            final(self).pack_context@ == packed(old(self).toml, old(self).crate_bin@),
            final(self).toml == old(self).toml,
    {
        let _excluded = self.toml.write_info_to_package_context(&mut self.pack_context);
        let mut bin: Vec<u8> = Vec::new();
        bin.append(&mut self.crate_bin);
        self.pack_context.add_crate_bin(bin);
        proof {
            let r = resolved(manifest_deps_view(self.toml.dependencies@), Seq::empty());
            assert(Seq::<crate::utils::context::DepInfoView>::empty() + r =~= r);
            assert(Seq::<u8>::empty() + old(self).crate_bin@ =~= old(self).crate_bin@);
        }
    }

    /// The context of the package.
    pub fn get_pack_context(self) -> (r: PackageContext)
        requires
            self.pack_context@ == PackageContextView::empty(),
        ensures
            r@ == packed(self.toml, self.crate_bin@),
    {
        let mut packing = self;
        packing.read_crate();
        packing.pack_context
    }
}

/// The context of the package that `toml` describes, with `crate_bin` as
/// its crate binary.
pub fn get_pack_context(toml: CrateToml, crate_bin: Vec<u8>) -> (r: PackageContext)
    ensures
        r@ == packed(toml, crate_bin@),
{
    Packing::new(toml, crate_bin).get_pack_context()
}

/// The file name of the package's container: name, a hyphen, version, and
/// the extension `.scrate`.
pub fn get_pack_name(pack: &PackageContext) -> (name: String)
    ensures
        name@ == pack@.pack_info.name + "-"@ + pack@.pack_info.version + ".scrate"@,
{
    let name = pack.pack_info.name.clone();
    let name = name.concat("-");
    let name = name.concat(pack.pack_info.version.as_str());
    name.concat(".scrate")
}

} // verus!
