use crate_spec::pack::get_pack_context;
use crate_spec::utils::context::{
    DepInfo, PackageContext, PackageInfo, SigInfo, SrcTypePath, SIGTYPE,
};
use crate_spec::utils::error::{DecodeError, EncodeError};
use crate_spec::utils::from_toml::{CrateToml, DepSpec, ManifestDep};
use crate_spec::utils::package::{CratePackage, RawArrayType};
use crate_spec::utils::package::bin::Encode;
use crate_spec::utils::pkcs::{
    all_within_limit, decode_error, decoder_error, encode_error, encoder_error, length_or_error,
    message_or_failure, signed_or_error, too_long_text, PKCS, PROVIDER_MAX_INPUT,
};
use openssl::error::ErrorStack;
use openssl::asn1::Asn1Time;
use openssl::bn::BigNum;
use openssl::hash::MessageDigest;
use openssl::pkcs7::{Pkcs7, Pkcs7Flags};
use openssl::pkey::PKey;
use openssl::rsa::Rsa;
use openssl::stack::Stack;
use openssl::x509::store::X509StoreBuilder;
use openssl::x509::{X509Builder, X509NameBuilder, X509};

fn make_signer(common_name: &str) -> (Vec<u8>, Vec<u8>) {
    let rsa = Rsa::generate(2048).unwrap();
    let pkey = PKey::from_rsa(rsa).unwrap();
    let mut name = X509NameBuilder::new().unwrap();
    name.append_entry_by_text("CN", common_name).unwrap();
    let name = name.build();
    let mut builder = X509Builder::new().unwrap();
    builder.set_version(2).unwrap();
    let serial = BigNum::from_u32(1).unwrap().to_asn1_integer().unwrap();
    builder.set_serial_number(&serial).unwrap();
    builder.set_subject_name(&name).unwrap();
    builder.set_issuer_name(&name).unwrap();
    builder.set_pubkey(&pkey).unwrap();
    builder
        .set_not_before(&Asn1Time::days_from_now(0).unwrap())
        .unwrap();
    builder
        .set_not_after(&Asn1Time::days_from_now(365).unwrap())
        .unwrap();
    builder.sign(&pkey, MessageDigest::sha256()).unwrap();
    let cert = builder.build();
    (
        cert.to_pem().unwrap(),
        pkey.private_key_to_pem_pkcs8().unwrap(),
    )
}

fn manifest() -> CrateToml {
    CrateToml {
        name: "crate-spec".to_string(),
        version: "0.1.0".to_string(),
        license: None,
        authors: None,
        dependencies: vec![
            ManifestDep {
                name: "bincode".to_string(),
                spec: DepSpec::Version("2.0.0-rc.3".to_string()),
            },
            ManifestDep {
                name: "clap".to_string(),
                spec: DepSpec::Detailed {
                    keys: vec!["version".to_string(), "features".to_string()],
                    version: Some("4.0".to_string()),
                    git: None,
                    registry: None,
                },
            },
            ManifestDep {
                name: "toml".to_string(),
                spec: DepSpec::Version("0.8".to_string()),
            },
        ],
    }
}

#[test]
fn pack_test_cmd_cargo_package() {
    let pac = get_pack_context(manifest(), vec![1, 2, 3]);
    println!("{:#?}", pac);
    assert_eq!(pac.pack_info.name, "crate-spec");
    assert_eq!(pac.pack_info.version, "0.1.0");
    assert_eq!(pac.pack_info.license, "");
    assert!(pac.pack_info.authors.is_empty());
    assert_eq!(pac.dep_infos.len(), 2);
    assert_eq!(
        pac.dep_infos[0],
        DepInfo {
            name: "bincode".to_string(),
            ver_req: "2.0.0-rc.3".to_string(),
            src: SrcTypePath::CratesIo,
            src_platform: "".to_string(),
            dump: true,
        }
    );
    assert_eq!(pac.dep_infos[1].name, "toml");
    assert_eq!(pac.crate_binary.bytes, vec![1, 2, 3]);
    assert!(pac.sigs.is_empty());
    assert!(pac.root_cas.is_empty());
}

#[test]
fn test_encode() {
    fn get_pack_info() -> PackageInfo {
        PackageInfo {
            name: "rust-crate".to_string(),
            version: "1.0.0".to_string(),
            license: "MIT".to_string(),
            authors: vec!["shuibing".to_string(), "rust".to_string()],
        }
    }

    fn get_dep_info1() -> DepInfo {
        DepInfo {
            name: "toml".to_string(),
            ver_req: "1.0.0".to_string(),
            src: SrcTypePath::CratesIo,
            src_platform: "ALL".to_string(),
            dump: true,
        }
    }

    fn get_dep_info2() -> DepInfo {
        DepInfo {
            name: "crate-spec".to_string(),
            ver_req: ">=0.8.0".to_string(),
            src: SrcTypePath::Git("http://git.com".to_string()),
            src_platform: "windows".to_string(),
            dump: true,
        }
    }

    fn get_sig_info1() -> SigInfo {
        SigInfo {
            typ: 0,
            size: 10,
            bin: vec![10; 10],
            pkcs: PKCS::new(),
        }
    }

    fn get_sig_info2() -> SigInfo {
        SigInfo {
            typ: 1,
            size: 30,
            bin: vec![15; 30],
            pkcs: PKCS::new(),
        }
    }

    let mut package_context = PackageContext::new();

    package_context.pack_info = get_pack_info();

    package_context.dep_infos.push(get_dep_info1());
    package_context.dep_infos.push(get_dep_info2());
    package_context.crate_binary.bytes = vec![5; 55];

    package_context.sigs.push(get_sig_info1());
    package_context.sigs.push(get_sig_info2());

    match package_context.encode_to_crate_package() {
        Ok((_crate_package, _str_table, bin)) => {
            let crate_package = CratePackage::decode_from_slice(bin.as_slice());
            println!("{:#?}", crate_package);
            assert!(crate_package.is_ok());
        }
        Err(e) => {
            // signers without a certificate cannot sign
            println!("{:#?}", e);
            assert!(matches!(e, EncodeError::CryptoProvider(_)));
        }
    }
}

#[test]
fn decode_test_encode_decode() {
    fn pack_info() -> PackageInfo {
        PackageInfo {
            name: "rust-crate".to_string(),
            version: "1.0.0".to_string(),
            license: "MIT".to_string(),
            authors: vec!["shuibing".to_string(), "rust".to_string()],
        }
    }

    fn dep_info1() -> DepInfo {
        DepInfo {
            name: "toml".to_string(),
            ver_req: "1.0.0".to_string(),
            src: SrcTypePath::CratesIo,
            src_platform: "ALL".to_string(),
            dump: true,
        }
    }

    fn dep_info2() -> DepInfo {
        DepInfo {
            name: "crate-spec".to_string(),
            ver_req: ">=0.8.0".to_string(),
            src: SrcTypePath::Git("http://git.com".to_string()),
            src_platform: "windows".to_string(),
            dump: true,
        }
    }

    fn crate_binary() -> Vec<u8> {
        [15; 100].to_vec()
    }

    let (cert, key) = make_signer("root");
    let sign = || {
        let mut pkcs1 = PKCS::new();
        pkcs1.load_writer(cert.clone(), key.clone(), vec![cert.clone()]);
        pkcs1
    };

    let mut package_context = PackageContext::new();

    package_context.pack_info = pack_info();
    package_context.dep_infos.push(dep_info1());
    package_context.dep_infos.push(dep_info2());
    package_context.crate_binary.bytes = crate_binary();
    package_context.add_sig(sign(), SIGTYPE::CRATEBIN);
    package_context.add_sig(sign(), SIGTYPE::FILE);

    let (_crate_package, _str_table, bin) = package_context.encode_to_crate_package().unwrap();

    let mut package_context_new = PackageContext::new();
    package_context_new.set_root_cas_bin(vec![cert.clone()]);
    let (_crate_package_new, _str_table) = package_context_new
        .decode_from_crate_package(bin.as_slice())
        .unwrap();

    assert_eq!(pack_info(), package_context_new.pack_info);
    assert_eq!(dep_info1(), package_context_new.dep_infos[0]);
    assert_eq!(dep_info2(), package_context_new.dep_infos[1]);
    assert_eq!(crate_binary(), package_context_new.crate_binary.bytes);
}

#[test]
#[allow(non_snake_case)]
fn test_RawArrayType() {
    let a = RawArrayType::<i8> {
        arr: [1, 2, 3].to_vec(),
    };
    let encode_vec = a.encode();
    println!("{:?}", encode_vec);
    let raw_array = RawArrayType::<i8>::decode(encode_vec.as_slice(), 3).unwrap();
    println!("{:?}", raw_array);
    assert_eq!(raw_array.arr, vec![1, 2, 3]);
}

#[test]
#[allow(non_snake_case)]
fn test_PKCS() {
    let (cert, key) = make_signer("root");
    let mut pkcs = PKCS::new();
    pkcs.load_writer(cert.clone(), key, vec![cert.clone()]);
    let bin = "Hello rust!".to_string();
    let digest = pkcs.gen_digest_256(bin.as_bytes());
    let signed_data = pkcs.encode_pkcs_bin(digest.as_slice()).unwrap();
    let digest_de = PKCS::decode_pkcs_bin(signed_data.as_slice(), &vec![cert]).unwrap();
    assert_eq!(digest, digest_de);
}

#[test]
fn test_hash() {
    let data = b"\x42\xF4\x97\xE0";
    let res = PKCS::new().gen_digest_256(data);
    println!("{:?}", res);
    let hex: String = res.iter().map(|b| format!("{:02x}", b)).collect();
    assert_eq!(
        hex,
        "6ece7a801613d44bb4e5f2efb3a66cbfbb682df2ad0de961a95f634c218334d4"
    );
}

#[test]
fn sign_then_recover_message() {
    let (cert, key) = make_signer("signer");
    let mut pkcs = PKCS::new();
    pkcs.load_writer(cert.clone(), key.clone(), vec![]);
    // line ends and zero bytes come back as they went in
    for message in [
        b"foo".to_vec(),
        vec![0x0a, 0x0d, 0x00, 0xff, 0x0a],
        vec![0x0d; 32],
    ] {
        let signed = pkcs.encode_pkcs_bin(&message).unwrap();
        assert_ne!(signed, message);
        let recovered = PKCS::decode_pkcs_bin(&signed, &vec![cert.clone()]).unwrap();
        assert_eq!(recovered, message);
    }
    // the length of a signature depends on the length of the message alone
    assert_eq!(
        pkcs.payload_size(32).unwrap(),
        pkcs.encode_pkcs_bin(&[0x5a; 32]).unwrap().len()
    );
    // a signature that was tampered with
    let signed = pkcs.encode_pkcs_bin(b"foo").unwrap();
    assert!(PKCS::decode_pkcs_bin(b"no signature", &vec![cert.clone()]).is_err());
    let (other, _) = make_signer("somebody else");
    assert!(PKCS::decode_pkcs_bin(&signed, &vec![other]).is_err());
    // a key that does not go with the certificate
    let (_, other_key) = make_signer("third");
    let mut mixed = PKCS::new();
    mixed.load_writer(cert.clone(), other_key, vec![]);
    assert!(mixed.encode_pkcs_bin(b"foo").is_err());
}

#[test]
fn test_pkcs7() {
    let (cert_pem, key_pem) = make_signer("root");
    let (cert1_pem, _) = make_signer("another");
    let cert = X509::from_pem(&cert_pem).unwrap();
    let mut certs = Stack::new().unwrap();
    certs.push(X509::from_pem(&cert1_pem).unwrap()).unwrap();

    let message = "foo";
    let flags = Pkcs7Flags::STREAM;
    let pkey = PKey::private_key_from_pem(&key_pem).unwrap();

    let pkcs7 =
        Pkcs7::sign(&cert, &pkey, &certs, message.as_bytes(), flags).expect("should succeed");

    let signed = pkcs7
        .to_smime(message.as_bytes(), flags)
        .expect("should succeed");

    let (pkcs7_decoded, content) = Pkcs7::from_smime(signed.as_slice()).expect("should succeed");

    let mut output = Vec::new();
    let certs = Stack::new().unwrap();

    let mut store_builder = X509StoreBuilder::new().expect("should succeed");
    let root_ca = X509::from_pem(&cert_pem).unwrap();
    store_builder.add_cert(root_ca).expect("should succeed");
    let store = store_builder.build();

    pkcs7_decoded
        .verify(&certs, &store, None, Some(&mut output), flags)
        .expect("should succeed");

    assert_eq!(output, message.as_bytes());
    assert!(content.is_none());

    // the library's signer and verifier agree with it
    let mut pkcs = PKCS::new();
    pkcs.load_writer(cert_pem.clone(), key_pem, vec![]);
    let signed = pkcs.encode_pkcs_bin(message.as_bytes()).unwrap();
    assert_eq!(
        PKCS::decode_pkcs_bin(&signed, &vec![cert_pem]).unwrap(),
        message.as_bytes()
    );
}

#[test]
fn the_provider_answers_are_taken_as_they_come() {
    assert_eq!(signed_or_error(Ok(vec![1, 2, 3])), Ok(vec![1, 2, 3]));
    assert_eq!(signed_or_error(Ok(vec![])), Ok(vec![]));
    assert!(matches!(
        signed_or_error(Err(ErrorStack::get())),
        Err(EncodeError::CryptoProvider(_))
    ));
    assert_eq!(message_or_failure(Ok(vec![7; 32])), Ok(vec![7; 32]));
    assert_eq!(
        message_or_failure(Err(ErrorStack::get())),
        Err(DecodeError::SignatureVerifyFailed)
    );
    assert_eq!(length_or_error(Ok(vec![0; 2048])), Ok(2048));
    assert_eq!(length_or_error(Ok(vec![])), Ok(0));
    assert_eq!(
        length_or_error(Err(EncodeError::CryptoProvider("words".to_string()))),
        Err(EncodeError::CryptoProvider("words".to_string()))
    );
    assert_eq!(
        encoder_error("words".to_string()),
        EncodeError::CryptoProvider("words".to_string())
    );
    assert_eq!(
        decoder_error("words".to_string()),
        DecodeError::CryptoProvider("words".to_string())
    );
    // the provider's own words for a certificate that is none
    let e = openssl::x509::X509::from_pem(b"no certificate").err().unwrap();
    assert_eq!(encode_error(&e), EncodeError::CryptoProvider(e.to_string()));
    assert_eq!(decode_error(&e), DecodeError::CryptoProvider(e.to_string()));
    assert!(!e.to_string().is_empty());
}

#[test]
fn inputs_longer_than_the_provider_takes() {
    assert_eq!(PROVIDER_MAX_INPUT, i32::MAX as usize);
    assert_eq!(too_long_text(), "input too long for the crypto provider");
    assert!(all_within_limit(&vec![]));
    assert!(all_within_limit(&vec![vec![0; 10], vec![]]));

    let (cert, key) = make_signer("signer");
    let mut pkcs = PKCS::new();
    pkcs.load_writer(cert.clone(), key.clone(), vec![]);
    let signed = pkcs.encode_pkcs_bin(b"foo").unwrap();

    // one buffer of zero bytes, handed from place to place
    let large = vec![0u8; PROVIDER_MAX_INPUT + 1];
    assert_eq!(
        pkcs.encode_pkcs_bin(&large).err(),
        Some(EncodeError::CryptoProvider(too_long_text()))
    );
    assert_eq!(
        PKCS::decode_pkcs_bin(&large, &vec![cert.clone()]).err(),
        Some(DecodeError::CryptoProvider(too_long_text()))
    );
    // a root that is too long is found before any root is read
    let mut roots = vec![b"no certificate".to_vec(), large];
    assert!(!all_within_limit(&roots));
    assert_eq!(
        PKCS::decode_pkcs_bin(&signed, &roots).err(),
        Some(DecodeError::CryptoProvider(too_long_text()))
    );
    let large = roots.pop().unwrap();
    // without it the provider is asked, and has its own words
    match PKCS::decode_pkcs_bin(&signed, &roots) {
        Err(DecodeError::CryptoProvider(words)) => assert_ne!(words, too_long_text()),
        other => panic!("expected the provider's error, got {:?}", other),
    }
    // a root that is too long is found before the provider is asked about a signature
    let mut signed_package = PackageContext::new();
    signed_package.set_package_info("a".into(), "1".into(), "".into(), vec![]);
    signed_package.add_sig(pkcs.clone(), SIGTYPE::CRATEBIN);
    let (package, _table, bin) = signed_package.encode_to_crate_package().unwrap();
    let mut checker = PackageContext::new();
    checker.sigs = signed_package.sigs.clone();
    checker.root_cas = vec![cert.clone(), large];
    assert_eq!(
        checker.check_sigs(&package, &bin),
        Err(DecodeError::CryptoProvider(too_long_text()))
    );
    let large = checker.root_cas.pop().unwrap();
    assert_eq!(checker.check_sigs(&package, &bin), Ok(true));

    let mut long_cert = PKCS::new();
    long_cert.load_writer(large, key.clone(), vec![]);
    assert!(!long_cert.within_limit());
    assert_eq!(
        long_cert.encode_pkcs_bin(b"foo").err(),
        Some(EncodeError::CryptoProvider(too_long_text()))
    );
    assert_eq!(
        long_cert.payload_size(32).err(),
        Some(EncodeError::CryptoProvider(too_long_text()))
    );
    // and a signer that is too long before any signer is asked
    let mut context = PackageContext::new();
    context.set_package_info("a".into(), "1".into(), "".into(), vec![]);
    context.add_sig(pkcs.clone(), SIGTYPE::CRATEBIN);
    context.add_sig(long_cert, SIGTYPE::FILE);
    assert_eq!(
        context.reserve_sig_slots(),
        Err(EncodeError::CryptoProvider(too_long_text()))
    );
    assert_eq!(context.sigs[0].size, 0);
    assert_eq!(
        context.encode_to_crate_package().err(),
        Some(EncodeError::CryptoProvider(too_long_text()))
    );
    assert_eq!(context.sigs[0].size, 0);
    assert!(context.sigs[0].bin.is_empty());
    // a package without a name is told so first
    context.pack_info.name = "".to_string();
    assert_eq!(
        context.encode_to_crate_package().err(),
        Some(EncodeError::ManifestIncomplete)
    );
}
