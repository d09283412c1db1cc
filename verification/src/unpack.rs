//! Unpacking: from the bytes of a container and the trusted roots to the
//! package context.
use crate::utils::context::{blobs, PackageContext};
use crate::utils::decode::{decode_model, is_own_sig_error, own_sig_error};
use crate::utils::error::DecodeError;
use vstd::prelude::*;

verus! {

/// A container on its way out: its bytes and the roots to check its
/// signatures against.
pub struct Unpacking {
    pub bin: Vec<u8>,
    pub cas: Vec<Vec<u8>>,
}

impl Unpacking {
    /// An unpacking of the container `bin`, with no roots yet.
    pub fn new(bin: Vec<u8>) -> (r: Unpacking)
        ensures
            r.bin == bin,
            blobs(r.cas@) == Seq::<Seq<u8>>::empty(),
    {
        let r = Unpacking { bin, cas: Vec::new() };
        assert(blobs(r.cas@) =~= Seq::<Seq<u8>>::empty());
        r
    }

    /// Adds the root certificate `ca`, as PEM.
    pub fn add_ca(&mut self, ca: Vec<u8>)
        ensures
            final(self).bin == old(self).bin,
            blobs(final(self).cas@) == blobs(old(self).cas@).push(ca@),
    {
        self.cas.push(ca);
        assert(blobs(self.cas@) =~= blobs(old(self).cas@).push(ca@));
    }

    /// The package in the container, its signatures checked against the
    /// roots; see [`PackageContext::decode_from_crate_package`].
    pub fn get_unpack_context(self) -> (r: Result<PackageContext, DecodeError>)
        ensures
            match decode_model(self.bin@, blobs(self.cas@)) {
                Err(e) => r == Err::<PackageContext, DecodeError>(e),
                Ok(m) => match r {
                    Ok(context) => context@ == m && own_sig_error(m.sigs, m.root_cas) is None,
                    Err(e) => {
                        &&& e is SignatureVerifyFailed || e is CryptoProvider
                        &&& m.sigs.len() > 0
                        &&& own_sig_error(m.sigs, m.root_cas) matches Some(too_long)
                            ==> is_own_sig_error(r, too_long)
                    },
                },
            },
    {
        let mut package_context_new = PackageContext::new();
        package_context_new.set_root_cas_bin(self.cas);
        match package_context_new.decode_from_crate_package(self.bin.as_slice()) {
            Ok(_) => Ok(package_context_new),
            Err(e) => Err(e),
        }
    }
}

/// The package in the container `bin`, its signatures checked against the
/// roots `cas`.
pub fn get_unpack_context(bin: Vec<u8>, cas: Vec<Vec<u8>>) -> (r: Result<
    PackageContext,
    DecodeError,
>)
    ensures
        match decode_model(bin@, blobs(cas@)) {
            Err(e) => r == Err::<PackageContext, DecodeError>(e),
            Ok(m) => match r {
                Ok(context) => context@ == m && own_sig_error(m.sigs, m.root_cas) is None,
                Err(e) => {
                    &&& e is SignatureVerifyFailed || e is CryptoProvider
                    &&& m.sigs.len() > 0
                    &&& own_sig_error(m.sigs, m.root_cas) matches Some(too_long)
                        ==> is_own_sig_error(r, too_long)
                },
            },
        },
{
    let mut unpack = Unpacking::new(bin);
    let mut cas = cas;
    let ghost all = blobs(cas@);
    assert(blobs(unpack.cas@).len() == unpack.cas@.len());
    unpack.cas.append(&mut cas);
    assert(blobs(unpack.cas@) =~= all);
    unpack.get_unpack_context()
}

} // verus!
