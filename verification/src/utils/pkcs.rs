//! The crypto provider: SHA-256 digests and PKCS#7 signatures, as OpenSSL
//! makes and checks them.
//!
//! Nothing is proved of what OpenSSL computes. A digest has a name,
//! [`spec_sha256`], so that contracts can say which bytes were hashed. Of a
//! signature nothing is said at all: it holds the time of signing, and
//! whether it verifies depends on the day on which it is checked. What the
//! library does with the provider's answers is verified for every answer.
use crate::utils::context::blobs;
use crate::utils::encode::zero_bytes;
use crate::utils::error::{DecodeError, EncodeError};
use openssl::error::ErrorStack;
use openssl::pkcs7::{Pkcs7, Pkcs7Flags};
use openssl::pkey::{PKey, Private};
use openssl::stack::Stack;
use openssl::x509::store::{X509Store, X509StoreBuilder};
use openssl::x509::X509;
use vstd::prelude::*;
use vstd::slice::slice_to_vec;

verus! {

/// OpenSSL's error stack.
#[verifier::external_type_specification]
#[verifier::external_body]
pub struct ExErrorStack(ErrorStack);

/// An X.509 certificate.
#[verifier::external_type_specification]
#[verifier::external_body]
pub struct ExX509(X509);

/// A key; `T` says whether it has a private part.
#[verifier::external_type_specification]
#[verifier::external_body]
#[verifier::reject_recursive_types(T)]
pub struct ExPKey<T>(PKey<T>);

/// The mark of a key with a private part.
#[verifier::external_type_specification]
#[verifier::external_body]
pub struct ExPrivate(Private);

/// A PKCS#7 structure.
#[verifier::external_type_specification]
#[verifier::external_body]
pub struct ExPkcs7(Pkcs7);

/// A certificate store under construction.
#[verifier::external_type_specification]
#[verifier::external_body]
pub struct ExX509StoreBuilder(X509StoreBuilder);

/// A store of trusted certificates.
#[verifier::external_type_specification]
#[verifier::external_body]
pub struct ExX509Store(X509Store);

/// A stack of certificates, as OpenSSL holds it.
#[verifier::external_body]
pub struct CertStack {
    stack: Stack<X509>,
}

/// The SHA-256 digest of `data`, as the provider computes it.
pub uninterp spec fn spec_sha256(data: Seq<u8>) -> Seq<u8>;

/// `openssl::sha::sha256`: the digest of `data`, 32 bytes.
#[verifier::external_body]
pub(crate) fn sha256(data: &[u8]) -> (digest: [u8; 32])
    ensures
        digest@ == spec_sha256(data@),
{
    openssl::sha::sha256(data)
}

/// `ErrorStack`'s `Display`: the provider's words for its error.
#[verifier::external_body]
pub(crate) fn error_text(e: &ErrorStack) -> String {
    e.to_string()
}

/// The longest input that the provider takes: it counts bytes in a C `int`
/// and does not return for more.
pub const PROVIDER_MAX_INPUT: usize = 0x7fff_ffff;

/// `X509::from_pem`: the certificate that `pem` holds.
#[verifier::external_body]
pub(crate) fn x509_from_pem(pem: &[u8]) -> Result<X509, ErrorStack>
    requires
        pem@.len() <= PROVIDER_MAX_INPUT,
{
    X509::from_pem(pem)
}

/// `PKey::private_key_from_pem`: the private key that `pem` holds.
#[verifier::external_body]
pub(crate) fn private_key_from_pem(pem: &[u8]) -> Result<PKey<Private>, ErrorStack>
    requires
        pem@.len() <= PROVIDER_MAX_INPUT,
{
    PKey::private_key_from_pem(pem)
}

/// `Stack::new`: a stack without certificates.
#[verifier::external_body]
pub(crate) fn cert_stack_new() -> Result<CertStack, ErrorStack> {
    Stack::new().map(|stack| CertStack { stack })
}

/// `Pkcs7::sign` for streaming, binary content: a signed-data structure
/// over `message` by `cert` and `pkey`, with the certificates `certs`
/// added to it.
#[verifier::external_body]
pub(crate) fn pkcs7_sign(
    cert: &X509,
    pkey: &PKey<Private>,
    certs: &CertStack,
    message: &[u8],
) -> Result<Pkcs7, ErrorStack>
    requires
        message@.len() <= PROVIDER_MAX_INPUT,
{
    Pkcs7::sign(cert, pkey, &certs.stack, message, Pkcs7Flags::STREAM | Pkcs7Flags::BINARY)
}

/// `Pkcs7Ref::to_smime` for streaming, binary content: the structure with
/// `message` in S/MIME form.
#[verifier::external_body]
pub(crate) fn pkcs7_to_smime(pkcs7: &Pkcs7, message: &[u8]) -> Result<Vec<u8>, ErrorStack>
    requires
        message@.len() <= PROVIDER_MAX_INPUT,
{
    pkcs7.to_smime(message, Pkcs7Flags::STREAM | Pkcs7Flags::BINARY)
}

/// `Pkcs7::from_smime`: the structure that the S/MIME message `input`
/// holds. The clear text that may come with it is dropped.
#[verifier::external_body]
pub(crate) fn pkcs7_from_smime(input: &[u8]) -> Result<Pkcs7, ErrorStack>
    requires
        input@.len() <= PROVIDER_MAX_INPUT,
{
    Pkcs7::from_smime(input).map(|r| r.0)
}

/// `X509StoreBuilder::new`: a builder of an empty store.
#[verifier::external_body]
pub(crate) fn x509_store_builder_new() -> Result<X509StoreBuilder, ErrorStack> {
    X509StoreBuilder::new()
}

/// `X509StoreBuilderRef::add_cert`: adds `cert` to the store.
#[verifier::external_body]
pub(crate) fn x509_store_add_cert(builder: &mut X509StoreBuilder, cert: X509) -> Result<
    (),
    ErrorStack,
> {
    builder.add_cert(cert)
}

/// `X509StoreBuilder::build`: the store.
#[verifier::external_body]
pub(crate) fn x509_store_build(builder: X509StoreBuilder) -> X509Store {
    builder.build()
}

/// `Pkcs7Ref::verify` for streaming, binary content held in the structure:
/// checks the signatures and the signers' chains against `store`, looking
/// for signers in `certs` too, and hands out the signed content.
#[verifier::external_body]
pub(crate) fn pkcs7_verify(pkcs7: &Pkcs7, certs: &CertStack, store: &X509Store) -> Result<
    Vec<u8>,
    ErrorStack,
> {
    let flags = Pkcs7Flags::STREAM | Pkcs7Flags::BINARY;
    let mut content = Vec::new();
    pkcs7.verify(&certs.stack, store, None, Some(&mut content), flags)?;
    Ok(content)
}

/// The words for an input that is longer than the provider takes.
pub open spec fn too_long_words() -> Seq<char> {
    "input too long for the crypto provider"@
}

/// The words for an input that is longer than the provider takes.
pub fn too_long_text() -> (text: String)
    ensures
        text@ == too_long_words(),
{
    String::from_str("input too long for the crypto provider")
}

/// The bytes `b` are more than the provider takes.
pub open spec fn too_long(b: Seq<u8>) -> bool {
    b.len() > PROVIDER_MAX_INPUT
}

/// One of the byte strings `bs` is more than the provider takes.
pub open spec fn any_too_long(bs: Seq<Seq<u8>>) -> bool {
    exists|i: int| 0 <= i < bs.len() && too_long(#[trigger] bs[i])
}

/// `e` is the encoder's error for an input that is longer than the
/// provider takes.
pub open spec fn is_too_long_encode_error(e: EncodeError) -> bool {
    e matches EncodeError::CryptoProvider(text) && text@ == too_long_words()
}

/// `e` is the decoder's error for an input that is longer than the
/// provider takes.
pub open spec fn is_too_long_decode_error(e: DecodeError) -> bool {
    e matches DecodeError::CryptoProvider(text) && text@ == too_long_words()
}

/// The encoder's error that carries the provider's words `text`.
pub fn encoder_error(text: String) -> (r: EncodeError)
    ensures
        r == EncodeError::CryptoProvider(text),
{
    EncodeError::CryptoProvider(text)
}

/// The decoder's error that carries the provider's words `text`.
pub fn decoder_error(text: String) -> (r: DecodeError)
    ensures
        r == DecodeError::CryptoProvider(text),
{
    DecodeError::CryptoProvider(text)
}

/// The provider's error as an encoder's error: it carries the provider's
/// own words for `e`.
pub fn encode_error(e: &ErrorStack) -> (r: EncodeError)
    ensures
        r is CryptoProvider,
{
    encoder_error(error_text(e))
}

/// The provider's error as a decoder's error: it carries the provider's
/// own words for `e`.
pub fn decode_error(e: &ErrorStack) -> (r: DecodeError)
    ensures
        r is CryptoProvider,
{
    decoder_error(error_text(e))
}

/// What signing comes to, given the provider's answer `signed`: the signed
/// bytes as they are, or the provider's error as an encoder's error.
pub fn signed_or_error(signed: Result<Vec<u8>, ErrorStack>) -> (r: Result<Vec<u8>, EncodeError>)
    ensures
        match signed {
            Ok(bytes) => r == Ok::<Vec<u8>, EncodeError>(bytes),
            Err(_) => r matches Err(e) && e is CryptoProvider,
        },
{
    match signed {
        Ok(bytes) => Ok(bytes),
        Err(e) => Err(encode_error(&e)),
    }
}

/// What checking a signature comes to, given the provider's answer
/// `verified`: the message that the provider recovered, or
/// `SignatureVerifyFailed` where the provider did not accept the
/// signature.
pub fn message_or_failure(verified: Result<Vec<u8>, ErrorStack>) -> (r: Result<
    Vec<u8>,
    DecodeError,
>)
    ensures
        match verified {
            Ok(message) => r == Ok::<Vec<u8>, DecodeError>(message),
            Err(_) => r == Err::<Vec<u8>, DecodeError>(DecodeError::SignatureVerifyFailed),
        },
{
    match verified {
        Ok(message) => Ok(message),
        Err(_) => Err(DecodeError::SignatureVerifyFailed),
    }
}

/// The size of a slot, given the signature `signed` over the probe: the
/// number of its bytes, or the error that signing gave.
pub fn length_or_error(signed: Result<Vec<u8>, EncodeError>) -> (r: Result<usize, EncodeError>)
    ensures
        match signed {
            Ok(bytes) => r == Ok::<usize, EncodeError>(bytes@.len() as usize),
            Err(e) => r == Err::<usize, EncodeError>(e),
        },
{
    match signed {
        Ok(bytes) => Ok(bytes.len()),
        Err(e) => Err(e),
    }
}

/// Whether none of the byte strings `bs` is more than the provider takes.
pub fn all_within_limit(bs: &Vec<Vec<u8>>) -> (b: bool)
    ensures
        b == !any_too_long(blobs(bs@)),
{
    let mut i: usize = 0;
    while i < bs.len()
        invariant
            i <= bs@.len(),
            forall|j: int| 0 <= j < i ==> !too_long(#[trigger] blobs(bs@)[j]),
        decreases bs@.len() - i,
    {
        if bs[i].len() > PROVIDER_MAX_INPUT {
            assert(too_long(blobs(bs@)[i as int]));
            return false;
        }
        i = i + 1;
    }
    true
}

/// A signer's material: certificate and private key as PEM, and the PEM of
/// the root certificates that go with them.
#[derive(Debug, Clone, PartialEq, Eq)]
pub struct PKCS {
    cert_bin: Vec<u8>,
    pkey_bin: Vec<u8>,
    root_ca_bins: Vec<Vec<u8>>,
}

/// What a signer's material holds.
pub struct PKCSView {
    pub cert_bin: Seq<u8>,
    pub pkey_bin: Seq<u8>,
    pub root_ca_bins: Seq<Seq<u8>>,
}

impl PKCSView {
    /// No certificate, no key, no roots.
    pub open spec fn empty() -> PKCSView {
        PKCSView { cert_bin: Seq::empty(), pkey_bin: Seq::empty(), root_ca_bins: Seq::empty() }
    }
}

impl View for PKCS {
    type V = PKCSView;

    closed spec fn view(&self) -> PKCSView {
        PKCSView {
            cert_bin: self.cert_bin@,
            pkey_bin: self.pkey_bin@,
            root_ca_bins: blobs(self.root_ca_bins@),
        }
    }
}

impl PKCS {
    /// Material with no certificate, no key and no roots.
    pub fn new() -> (r: Self)
        ensures
            r@ == PKCSView::empty(),
    {
        let r = Self { cert_bin: Vec::new(), pkey_bin: Vec::new(), root_ca_bins: Vec::new() };
        assert(blobs(r.root_ca_bins@) =~= Seq::<Seq<u8>>::empty());
        r
    }

    /// Takes the signer's certificate and private key, and adds `ca_bins`
    /// to the roots.
    pub fn load_writer(&mut self, cert_bin: Vec<u8>, pkey_bin: Vec<u8>, ca_bins: Vec<Vec<u8>>)
        ensures
            final(self)@ == (PKCSView {
                cert_bin: cert_bin@,
                pkey_bin: pkey_bin@,
                root_ca_bins: old(self)@.root_ca_bins + blobs(ca_bins@),
            }),
    {
        self.cert_bin = cert_bin;
        self.pkey_bin = pkey_bin;
        self.load_reader(ca_bins);
    }

    /// Adds `ca_bins` to the roots.
    pub fn load_reader(&mut self, ca_bins: Vec<Vec<u8>>)
        ensures
            final(self)@ == (PKCSView {
                root_ca_bins: old(self)@.root_ca_bins + blobs(ca_bins@),
                ..old(self)@
            }),
    {
        let mut ca_bins = ca_bins;
        let ghost added = blobs(ca_bins@);
        self.root_ca_bins.append(&mut ca_bins);
        assert(blobs(self.root_ca_bins@) =~= blobs(old(self).root_ca_bins@) + added);
    }

    /// Whether neither the certificate nor the key is more than the
    /// provider takes.
    pub fn within_limit(&self) -> (b: bool)
        ensures
            b == !(too_long(self@.cert_bin) || too_long(self@.pkey_bin)),
    {
        self.cert_bin.len() <= PROVIDER_MAX_INPUT && self.pkey_bin.len() <= PROVIDER_MAX_INPUT
    }

    /// The SHA-256 digest of `bin`.
    pub fn gen_digest_256(&self, bin: &[u8]) -> (digest: Vec<u8>)
        ensures
            digest@ == spec_sha256(bin@),
            digest@.len() == 32,
    {
        let d = sha256(bin);
        slice_to_vec(d.as_slice())
    }

    /// Signs `message` with the signer's certificate and key and returns
    /// the signed-data structure, which holds the message, in S/MIME form.
    /// The message is signed as binary content: signed as text, its line
    /// ends would be rewritten, and a digest that holds a line-feed byte
    /// would not come back from the check as it went in.
    ///
    /// Where certificate, key or message is longer than the provider
    /// takes, the provider is not asked, and the error says so. Else the
    /// provider reads certificate and key and signs; whether it can is the
    /// provider's word, and what it hands out holds the time of signing.
    /// Its answer is taken as [`signed_or_error`] says.
    pub fn encode_pkcs_bin(&self, message: &[u8]) -> (r: Result<Vec<u8>, EncodeError>)
        ensures
            r matches Err(e) ==> e is CryptoProvider,
            too_long(self@.cert_bin) || too_long(self@.pkey_bin) || too_long(message@) ==> (
            r matches Err(e) && is_too_long_encode_error(e)),
    {
        if self.cert_bin.len() > PROVIDER_MAX_INPUT || self.pkey_bin.len() > PROVIDER_MAX_INPUT
            || message.len() > PROVIDER_MAX_INPUT {
            return Err(encoder_error(too_long_text()));
        }
        let cert = match x509_from_pem(self.cert_bin.as_slice()) {
            Ok(x) => x,
            Err(e) => {
                return Err(encode_error(&e));
            },
        };
        let pkey = match private_key_from_pem(self.pkey_bin.as_slice()) {
            Ok(x) => x,
            Err(e) => {
                return Err(encode_error(&e));
            },
        };
        let certs = match cert_stack_new() {
            Ok(x) => x,
            Err(e) => {
                return Err(encode_error(&e));
            },
        };
        let pkcs7 = match pkcs7_sign(&cert, &pkey, &certs, message) {
            Ok(x) => x,
            Err(e) => {
                return Err(encode_error(&e));
            },
        };
        signed_or_error(pkcs7_to_smime(&pkcs7, message))
    }

    /// The number of bytes that the signer's signature over a message of
    /// `message_len` bytes takes: the length of its signature over that
    /// many zero bytes.
    ///
    /// The probe is signed as [`PKCS::encode_pkcs_bin`] signs, so where
    /// certificate or key is longer than the provider takes, or
    /// `message_len` is, the error says so. The signature's length is
    /// taken as [`length_or_error`] says.
    pub fn payload_size(&self, message_len: usize) -> (r: Result<usize, EncodeError>)
        ensures
            r matches Err(e) ==> e is CryptoProvider,
            too_long(self@.cert_bin) || too_long(self@.pkey_bin) || message_len
                > PROVIDER_MAX_INPUT ==> (r matches Err(e) && is_too_long_encode_error(e)),
    {
        let probe = zero_bytes(message_len);
        length_or_error(self.encode_pkcs_bin(probe.as_slice()))
    }

    /// Checks the signed-data structure `signed_bin` against the roots
    /// `root_ca_bins` and returns the message that it holds.
    ///
    /// Where the structure or a root is longer than the provider takes,
    /// the provider is not asked, and the error says so. Else the provider
    /// reads the roots and the structure, which fails with the provider's
    /// error, and checks the signature; its answer is taken as
    /// [`message_or_failure`] says: `SignatureVerifyFailed` where it does
    /// not accept the signature. Whether it accepts depends on the day of
    /// the check.
    pub fn decode_pkcs_bin(signed_bin: &[u8], root_ca_bins: &Vec<Vec<u8>>) -> (r: Result<
        Vec<u8>,
        DecodeError,
    >)
        ensures
            r matches Err(e) ==> e is CryptoProvider || e is SignatureVerifyFailed,
            too_long(signed_bin@) || any_too_long(blobs(root_ca_bins@)) ==> (r matches Err(e)
                && is_too_long_decode_error(e)),
    {
        if signed_bin.len() > PROVIDER_MAX_INPUT || !all_within_limit(root_ca_bins) {
            return Err(decoder_error(too_long_text()));
        }
        let certs = match cert_stack_new() {
            Ok(x) => x,
            Err(e) => {
                return Err(decode_error(&e));
            },
        };
        let mut builder = match x509_store_builder_new() {
            Ok(x) => x,
            Err(e) => {
                return Err(decode_error(&e));
            },
        };
        let mut i: usize = 0;
        while i < root_ca_bins.len()
            invariant
                i <= root_ca_bins@.len(),
                !too_long(signed_bin@),
                !any_too_long(blobs(root_ca_bins@)),
            decreases root_ca_bins@.len() - i,
        {
            assert(!too_long(blobs(root_ca_bins@)[i as int]));
            let root_ca = match x509_from_pem(root_ca_bins[i].as_slice()) {
                Ok(x) => x,
                Err(e) => {
                    return Err(decode_error(&e));
                },
            };
            match x509_store_add_cert(&mut builder, root_ca) {
                Ok(_) => {},
                Err(e) => {
                    return Err(decode_error(&e));
                },
            }
            i = i + 1;
        }
        let store = x509_store_build(builder);
        let pkcs7 = match pkcs7_from_smime(signed_bin) {
            Ok(x) => x,
            Err(e) => {
                return Err(decode_error(&e));
            },
        };
        message_or_failure(pkcs7_verify(&pkcs7, &certs, &store))
    }
}

} // verus!
