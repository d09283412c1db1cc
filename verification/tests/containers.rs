use crate_spec::utils::context::{
    DepInfo, PackageContext, PackageInfo, SigInfo, SrcTypePath, StringTable, SIGTYPE,
};
use crate_spec::utils::decode::{
    blobs_within_limit, check_sig_digest, result_of_verdict, sig_types_known, verdict_of_answer,
};
use crate_spec::utils::encode::{
    check_slot, fill_slot, reserve_slot, sig_digest, signers_within_limit, zero_bytes,
};
use crate_spec::utils::error::{DecodeError, EncodeError};
use crate_spec::utils::package::{
    CratePackage, DataSection, PackageSection, SectionIndexEntry, MAGIC_NUMBER,
};
use crate_spec::utils::pkcs::PKCS;
use openssl::asn1::Asn1Time;
use openssl::bn::BigNum;
use openssl::hash::MessageDigest;
use openssl::pkey::PKey;
use openssl::rsa::Rsa;
use openssl::sha::sha256;
use openssl::x509::{X509Builder, X509NameBuilder};

fn make_signer(common_name: &str) -> (Vec<u8>, Vec<u8>) {
    let rsa = Rsa::generate(2048).unwrap();
    let pkey = PKey::from_rsa(rsa).unwrap();
    let mut name = X509NameBuilder::new().unwrap();
    name.append_entry_by_text("CN", common_name).unwrap();
    let name = name.build();
    let mut builder = X509Builder::new().unwrap();
    builder.set_version(2).unwrap();
    let serial = BigNum::from_u32(1).unwrap().to_asn1_integer().unwrap();
    builder.set_serial_number(&serial).unwrap();
    builder.set_subject_name(&name).unwrap();
    builder.set_issuer_name(&name).unwrap();
    builder.set_pubkey(&pkey).unwrap();
    builder
        .set_not_before(&Asn1Time::days_from_now(0).unwrap())
        .unwrap();
    builder
        .set_not_after(&Asn1Time::days_from_now(365).unwrap())
        .unwrap();
    builder.sign(&pkey, MessageDigest::sha256()).unwrap();
    let cert = builder.build();
    (
        cert.to_pem().unwrap(),
        pkey.private_key_to_pem_pkcs8().unwrap(),
    )
}

fn signer(cert: &[u8], key: &[u8]) -> PKCS {
    let mut pkcs = PKCS::new();
    pkcs.load_writer(cert.to_vec(), key.to_vec(), vec![cert.to_vec()]);
    pkcs
}

fn small_package() -> PackageContext {
    let mut context = PackageContext::new();
    context.set_package_info(
        "a".to_string(),
        "0.1.0".to_string(),
        "MIT".to_string(),
        vec!["x".to_string()],
    );
    context.add_crate_bin(vec![0xAA; 16]);
    context
}

fn with_fingerprint(mut bytes: Vec<u8>) -> Vec<u8> {
    let n = bytes.len() - 32;
    let digest = sha256(&bytes[..n]);
    bytes[n..].copy_from_slice(&digest);
    bytes
}

fn decode(bytes: &[u8], roots: Vec<Vec<u8>>) -> Result<PackageContext, DecodeError> {
    let mut context = PackageContext::new();
    context.set_root_cas_bin(roots);
    context.decode_from_crate_package(bytes)?;
    Ok(context)
}

fn u32_at(bytes: &[u8], at: usize) -> u32 {
    u32::from_le_bytes([bytes[at], bytes[at + 1], bytes[at + 2], bytes[at + 3]])
}

#[test]
fn empty_deps_unsigned() {
    let mut context = small_package();
    let (package, table, bin) = context.encode_to_crate_package().unwrap();

    assert_eq!(&bin[0..5], b"CRATE");
    assert_eq!(&bin[0..5], &MAGIC_NUMBER);
    assert_eq!(bin[5], 0);
    assert_eq!(package.crate_header.c_version, 0);
    assert_eq!(package.crate_header.si_num, 3);
    let types: Vec<u8> = package
        .section_index
        .entries
        .arr
        .iter()
        .map(|e| e.sh_type)
        .collect();
    assert_eq!(types, vec![0, 1, 3]);
    match &package.data_sections.col.arr[1] {
        DataSection::DepTableSection(d) => {
            assert_eq!(d.entries.len, 0);
            assert!(d.entries.arr.is_empty());
        }
        other => panic!("not a dependency table: {:?}", other),
    }
    assert_eq!(package.section_index.entries.arr[2].sh_size, 16);
    match &package.data_sections.col.arr[2] {
        DataSection::CrateBinarySection(c) => assert_eq!(c.bin.arr, vec![0xAA; 16]),
        other => panic!("not a crate binary: {:?}", other),
    }
    let n = bin.len() - 32;
    assert_eq!(sha256(&bin[..n]).to_vec(), bin[n..].to_vec());
    assert_eq!(package.finger_print.to_vec(), bin[n..].to_vec());

    // the layout, byte for byte
    assert_eq!(table.to_bytes().len(), 30);
    assert_eq!(u32_at(&bin, 6), 30); // strtable_size
    assert_eq!(u32_at(&bin, 10), 30); // strtable_offset
    assert_eq!(u32_at(&bin, 14), 27); // si_size
    assert_eq!(u32_at(&bin, 18), 60); // si_offset
    assert_eq!(u32_at(&bin, 22), 3); // si_num
    assert_eq!(u32_at(&bin, 26), 87); // ds_offset
    assert_eq!(
        &bin[30..60],
        &[
            0, 0, 0, 0, // ""
            1, 0, 0, 0, b'a', // "a"
            5, 0, 0, 0, b'0', b'.', b'1', b'.', b'0', // "0.1.0"
            3, 0, 0, 0, b'M', b'I', b'T', // "MIT"
            1, 0, 0, 0, b'x', // "x"
        ]
    );
    assert_eq!(
        package.section_index.entries.arr,
        vec![
            SectionIndexEntry::new(0, 0, 20),
            SectionIndexEntry::new(1, 20, 4),
            SectionIndexEntry::new(3, 24, 16),
        ]
    );
    assert_eq!(
        &bin[60..87],
        &[
            0, 0, 0, 0, 0, 20, 0, 0, 0, //
            1, 20, 0, 0, 0, 4, 0, 0, 0, //
            3, 24, 0, 0, 0, 16, 0, 0, 0,
        ]
    );
    assert_eq!(
        &bin[87..107],
        &[4, 0, 0, 0, 9, 0, 0, 0, 18, 0, 0, 0, 1, 0, 0, 0, 25, 0, 0, 0]
    );
    assert_eq!(&bin[107..111], &[0, 0, 0, 0]);
    assert_eq!(&bin[111..127], &[0xAA; 16]);
    assert_eq!(bin.len(), 159);
    assert_eq!(bin, package.encode_to_vec());

    let decoded = decode(&bin, vec![]).unwrap();
    assert_eq!(decoded.pack_info, context.pack_info);
    assert!(decoded.dep_infos.is_empty());
    assert_eq!(decoded.crate_binary, context.crate_binary);
    assert!(decoded.sigs.is_empty());
}

#[test]
fn one_crate_binary_signature() {
    let (cert, key) = make_signer("signer");
    let mut context = small_package();
    context.add_sig(signer(&cert, &key), SIGTYPE::CRATEBIN);
    let (package, _table, bin) = context.encode_to_crate_package().unwrap();
    assert_eq!(package.crate_header.si_num, 4);
    assert_eq!(package.section_index.entries.arr[3].sh_type, 4);
    assert_eq!(context.sigs[0].size, context.sigs[0].bin.len());

    // the digest that was signed is that of the tarball
    let recovered = PKCS::decode_pkcs_bin(&context.sigs[0].bin, &vec![cert.clone()]).unwrap();
    assert_eq!(recovered, sha256(&[0xAA; 16]).to_vec());

    let decoded = decode(&bin, vec![cert.clone()]).unwrap();
    assert_eq!(decoded.pack_info, context.pack_info);
    assert_eq!(decoded.crate_binary, context.crate_binary);
    assert_eq!(decoded.sigs.len(), 1);
    assert_eq!(decoded.sigs[0].typ, 1);
    assert_eq!(decoded.sigs[0].size, context.sigs[0].size);
    assert_eq!(decoded.sigs[0].bin, context.sigs[0].bin);
    assert_eq!(decoded.root_cas, vec![cert.clone()]);

    // another root does not vouch for the signer
    let (other, _) = make_signer("somebody else");
    assert_eq!(
        decode(&bin, vec![other]).err(),
        Some(DecodeError::SignatureVerifyFailed)
    );
    // and no root at all does not either
    assert_eq!(
        decode(&bin, vec![]).err(),
        Some(DecodeError::SignatureVerifyFailed)
    );
}

#[test]
fn two_signatures_both_types() {
    let (cert, key) = make_signer("signer");
    let mut context = small_package();
    context.add_dep_info(
        "toml".to_string(),
        "1.0.0".to_string(),
        SrcTypePath::CratesIo,
        "ALL".to_string(),
    );
    assert_eq!(context.add_sig(signer(&cert, &key), SIGTYPE::CRATEBIN), 0);
    assert_eq!(context.add_sig(signer(&cert, &key), SIGTYPE::FILE), 1);
    let (package, _table, bin) = context.encode_to_crate_package().unwrap();

    let types: Vec<u8> = package
        .section_index
        .entries
        .arr
        .iter()
        .map(|e| e.sh_type)
        .collect();
    assert_eq!(types, vec![0, 1, 3, 4, 4]);
    match (
        &package.data_sections.col.arr[3],
        &package.data_sections.col.arr[4],
    ) {
        (DataSection::SigStructureSection(first), DataSection::SigStructureSection(second)) => {
            assert_eq!(first.sigstruct_type, 1);
            assert_eq!(second.sigstruct_type, 0);
            assert_eq!(first.sigstruct_size as usize, first.sigstruct_sig.arr.len());
            assert_eq!(second.sigstruct_size as usize, second.sigstruct_sig.arr.len());
        }
        other => panic!("not two signatures: {:?}", other),
    }

    // what the whole-container signature signed is the digest of the signed range
    let range = context
        .binary_before_sig(&package, &bin)
        .expect("the signed range lies within the container");
    let recovered = PKCS::decode_pkcs_bin(&context.sigs[1].bin, &vec![cert.clone()]).unwrap();
    assert_eq!(recovered, sha256(&range).to_vec());

    let decoded = decode(&bin, vec![cert.clone()]).unwrap();
    assert_eq!(decoded.pack_info, context.pack_info);
    assert_eq!(decoded.dep_infos, context.dep_infos);
    assert_eq!(decoded.crate_binary, context.crate_binary);
    assert_eq!(decoded.sigs.len(), 2);
    assert_eq!(
        (decoded.sigs[0].typ, decoded.sigs[0].size),
        (1, context.sigs[0].size)
    );
    assert_eq!(
        (decoded.sigs[1].typ, decoded.sigs[1].size),
        (0, context.sigs[1].size)
    );
}

#[test]
fn tampered_tarball() {
    let (cert, key) = make_signer("signer");
    let mut context = small_package();
    context.add_sig(signer(&cert, &key), SIGTYPE::CRATEBIN);
    let (package, _table, bin) = context.encode_to_crate_package().unwrap();

    let entry = &package.section_index.entries.arr[2];
    let at = (package.crate_header.ds_offset + entry.sh_offset) as usize;
    assert_eq!(&bin[at..at + 16], &[0xAA; 16]);

    let mut tampered = bin.clone();
    tampered[at + 3] ^= 0x01;
    // without a new fingerprint the fingerprint gives it away
    assert_eq!(
        decode(&tampered, vec![cert.clone()]).err(),
        Some(DecodeError::FingerprintMismatch)
    );
    let tampered = with_fingerprint(tampered);
    assert_eq!(
        decode(&tampered, vec![cert.clone()]).err(),
        Some(DecodeError::SignatureVerifyFailed)
    );
}

#[test]
fn whole_container_signature_covers_the_string_table() {
    let (cert, key) = make_signer("signer");
    let mut context = small_package();
    context.add_sig(signer(&cert, &key), SIGTYPE::FILE);
    let (package, _table, bin) = context.encode_to_crate_package().unwrap();
    assert!(decode(&bin, vec![cert.clone()]).is_ok());

    // the "M" of the license
    let at = package.crate_header.strtable_offset as usize + 22;
    assert_eq!(bin[at], b'M');
    let mut tampered = bin.clone();
    tampered[at] = b'N';
    let tampered = with_fingerprint(tampered);
    assert_eq!(
        decode(&tampered, vec![cert.clone()]).err(),
        Some(DecodeError::SignatureVerifyFailed)
    );

    // a crate binary signature alone would not have noticed
    let mut light = small_package();
    light.add_sig(signer(&cert, &key), SIGTYPE::CRATEBIN);
    let (_, _, bin) = light.encode_to_crate_package().unwrap();
    let mut tampered = bin.clone();
    tampered[at] = b'N';
    let tampered = with_fingerprint(tampered);
    let decoded = decode(&tampered, vec![cert.clone()]).unwrap();
    assert_eq!(decoded.pack_info.license, "NIT");
}

#[test]
fn whole_container_signature_covers_the_tarball() {
    let (cert, key) = make_signer("signer");
    let mut context = small_package();
    context.add_sig(signer(&cert, &key), SIGTYPE::FILE);
    let (package, _table, bin) = context.encode_to_crate_package().unwrap();
    let entry = &package.section_index.entries.arr[2];
    let at = (package.crate_header.ds_offset + entry.sh_offset) as usize;
    let mut tampered = bin.clone();
    tampered[at] ^= 0x80;
    let tampered = with_fingerprint(tampered);
    assert_eq!(
        decode(&tampered, vec![cert.clone()]).err(),
        Some(DecodeError::SignatureVerifyFailed)
    );
}

fn all_sources() -> Vec<DepInfo> {
    let sources = vec![
        SrcTypePath::CratesIo,
        SrcTypePath::Git("https://git.example/repo".to_string()),
        SrcTypePath::Url("https://example.org/dep.tar".to_string()),
        SrcTypePath::Registry("https://registry.example".to_string()),
        SrcTypePath::P2p("p2p://peer/dep".to_string()),
    ];
    sources
        .into_iter()
        .enumerate()
        .map(|(i, src)| DepInfo {
            name: format!("dep{}", i),
            ver_req: format!("{}.0", i),
            src,
            src_platform: if i % 2 == 0 {
                "".to_string()
            } else {
                "x86_64-unknown-linux-gnu".to_string()
            },
            dump: true,
        })
        .collect()
}

#[test]
fn source_types_round_trip() {
    let mut context = small_package();
    context.dep_infos = all_sources();
    let (package, _table, bin) = context.encode_to_crate_package().unwrap();
    match &package.data_sections.col.arr[1] {
        DataSection::DepTableSection(d) => {
            let codes: Vec<u8> = d.entries.arr.iter().map(|e| e.dep_srctype).collect();
            assert_eq!(codes, vec![0, 1, 2, 3, 4]);
            // crates.io goes with the empty string, which lives at offset 0
            assert_eq!(d.entries.arr[0].dep_srcpath, 0);
            assert_eq!(d.entries.arr[0].dep_platform, 0);
        }
        other => panic!("not a dependency table: {:?}", other),
    }
    let decoded = decode(&bin, vec![]).unwrap();
    assert_eq!(decoded.dep_infos, all_sources());
}

#[test]
fn unknown_source_type() {
    let mut context = small_package();
    context.dep_infos = all_sources();
    let (package, _table, bin) = context.encode_to_crate_package().unwrap();
    let entry = &package.section_index.entries.arr[1];
    let table_at = (package.crate_header.ds_offset + entry.sh_offset) as usize;
    assert_eq!(u32_at(&bin, table_at), 5);
    // the source type of the third entry: count, two entries, two offsets
    let at = table_at + 4 + 2 * 17 + 8;
    assert_eq!(bin[at], 2);
    let mut changed = bin.clone();
    changed[at] = 9;
    let changed = with_fingerprint(changed);
    assert_eq!(
        decode(&changed, vec![]).err(),
        Some(DecodeError::InvalidSourceTypeCode)
    );
}

#[test]
fn string_table_dedup() {
    let info = PackageInfo {
        name: "".to_string(),
        version: "".to_string(),
        license: "".to_string(),
        authors: vec!["alice".to_string(), "alice".to_string()],
    };
    let mut table = StringTable::new();
    let mut section = PackageSection::new();
    info.write_to_package_section(&mut section, &mut table)
        .unwrap();
    assert_eq!(table.to_bytes().len(), (4 + 5) + (4 + 0));
    assert_eq!(
        table.to_bytes(),
        vec![0, 0, 0, 0, 5, 0, 0, 0, b'a', b'l', b'i', b'c', b'e']
    );
    assert_eq!(section.pkg_name, 0);
    assert_eq!(section.pkg_version, 0);
    assert_eq!(section.pkg_license, 0);
    assert_eq!(section.pkg_authors.len, 2);
    assert_eq!(section.pkg_authors.arr, vec![4, 4]);
}

#[test]
fn shared_strings_are_stored_once() {
    let mut context = small_package();
    context.set_package_info(
        "same".to_string(),
        "same".to_string(),
        "same".to_string(),
        vec!["same".to_string(), "other".to_string()],
    );
    context.add_dep_info(
        "same".to_string(),
        "other".to_string(),
        SrcTypePath::Git("same".to_string()),
        "".to_string(),
    );
    let (package, table, bin) = context.encode_to_crate_package().unwrap();
    assert_eq!(table.to_bytes().len(), 4 + (4 + 4) + (4 + 5));
    assert_eq!(package.string_table.arr, table.to_bytes());
    let count = bin.windows(4).filter(|w| w == b"same").count();
    assert_eq!(count, 1);
    let decoded = decode(&bin, vec![]).unwrap();
    assert_eq!(decoded.pack_info, context.pack_info);
    assert_eq!(decoded.dep_infos, context.dep_infos);
}

#[test]
fn offsets_grow_by_sizes() {
    let (cert, key) = make_signer("signer");
    let mut context = small_package();
    context.dep_infos = all_sources();
    context.add_sig(signer(&cert, &key), SIGTYPE::CRATEBIN);
    context.add_sig(signer(&cert, &key), SIGTYPE::FILE);
    let (package, _table, _bin) = context.encode_to_crate_package().unwrap();
    let entries = &package.section_index.entries.arr;
    assert_eq!(entries.len(), 5);
    assert_eq!(entries[0].sh_offset, 0);
    for pair in entries.windows(2) {
        assert!(pair[0].sh_offset <= pair[1].sh_offset);
        assert_eq!(pair[1].sh_offset, pair[0].sh_offset + pair[0].sh_size);
    }
    assert_eq!(entries[0].sh_size as usize, 16 + 4);
    assert_eq!(entries[1].sh_size as usize, 4 + 5 * 17);
    assert_eq!(entries[2].sh_size, 16);
    assert_eq!(entries[3].sh_size as usize, 5 + context.sigs[0].bin.len());
}

#[test]
fn magic_is_checked() {
    let mut context = small_package();
    let (_package, _table, bin) = context.encode_to_crate_package().unwrap();
    let mut changed = bin.clone();
    changed[0] = b'K';
    assert_eq!(
        CratePackage::decode_from_slice(&changed).err(),
        Some(DecodeError::MagicMismatch)
    );
    // the fingerprint is looked at first
    assert_eq!(
        decode(&changed, vec![]).err(),
        Some(DecodeError::FingerprintMismatch)
    );
    let changed = with_fingerprint(changed);
    assert_eq!(
        decode(&changed, vec![]).err(),
        Some(DecodeError::MagicMismatch)
    );
}

#[test]
fn version_is_checked() {
    let mut context = small_package();
    let (_package, _table, bin) = context.encode_to_crate_package().unwrap();
    let mut changed = bin.clone();
    changed[5] = 1;
    let changed = with_fingerprint(changed);
    assert_eq!(
        decode(&changed, vec![]).err(),
        Some(DecodeError::UnsupportedVersion)
    );
}

#[test]
fn only_marked_dependencies_are_written() {
    let mut context = small_package();
    context.dep_infos = all_sources();
    context.dep_infos[1].dump = false;
    context.dep_infos[4].dump = false;
    let (_package, _table, bin) = context.encode_to_crate_package().unwrap();
    let decoded = decode(&bin, vec![]).unwrap();
    let kept: Vec<DepInfo> = all_sources()
        .into_iter()
        .enumerate()
        .filter(|(i, _)| *i != 1 && *i != 4)
        .map(|(_, d)| d)
        .collect();
    assert_eq!(decoded.dep_infos, kept);
    assert!(decoded.dep_infos.iter().all(|d| d.dump));
    // what was not written left no string behind
    assert!(!bin.windows(4).any(|w| w == b"dep1"));
}

#[test]
fn a_package_needs_name_and_version() {
    let mut context = small_package();
    context.pack_info.name = "".to_string();
    assert_eq!(
        context.encode_to_crate_package().err(),
        Some(EncodeError::ManifestIncomplete)
    );
    let mut context = small_package();
    context.pack_info.version = "".to_string();
    assert_eq!(
        context.encode_to_crate_package().err(),
        Some(EncodeError::ManifestIncomplete)
    );
    let mut context = PackageContext::new();
    assert_eq!(
        context.encode_to_crate_package().err(),
        Some(EncodeError::ManifestIncomplete)
    );
}

#[test]
fn a_signer_without_material_cannot_sign() {
    let mut context = small_package();
    context.add_sig(PKCS::new(), SIGTYPE::CRATEBIN);
    let before = context.clone();
    match context.encode_to_crate_package() {
        Err(EncodeError::CryptoProvider(text)) => assert!(!text.is_empty()),
        other => panic!("expected the provider's error, got {:?}", other.err()),
    }
    assert_eq!(context.pack_info, before.pack_info);
    assert_eq!(context.crate_binary, before.crate_binary);
    assert_eq!(context.sigs.len(), 1);
    assert_eq!(context.sigs[0].typ, 1);
}

#[test]
fn roots_that_are_no_certificates() {
    let (cert, key) = make_signer("signer");
    let mut context = small_package();
    context.add_sig(signer(&cert, &key), SIGTYPE::CRATEBIN);
    let (_package, _table, bin) = context.encode_to_crate_package().unwrap();
    match decode(&bin, vec![b"no certificate".to_vec()]) {
        Err(DecodeError::CryptoProvider(text)) => assert!(!text.is_empty()),
        other => panic!("expected the provider's error, got {:?}", other.err()),
    }
    // an unsigned container asks nothing of the roots
    let mut unsigned = small_package();
    let (_package, _table, bin) = unsigned.encode_to_crate_package().unwrap();
    assert!(decode(&bin, vec![b"no certificate".to_vec()]).is_ok());
}

#[test]
fn a_signature_of_unknown_type_does_not_verify() {
    let (cert, key) = make_signer("signer");
    let mut context = small_package();
    context.add_sig(signer(&cert, &key), SIGTYPE::CRATEBIN);
    let (package, _table, bin) = context.encode_to_crate_package().unwrap();
    let entry = &package.section_index.entries.arr[3];
    let at = (package.crate_header.ds_offset + entry.sh_offset) as usize + 4;
    assert_eq!(bin[at], 1);
    let mut changed = bin.clone();
    changed[at] = 7;
    let changed = with_fingerprint(changed);
    assert_eq!(
        decode(&changed, vec![cert.clone()]).err(),
        Some(DecodeError::SignatureVerifyFailed)
    );
    // a crate binary signature passed off as one of the whole container
    let mut changed = bin.clone();
    changed[at] = 0;
    let changed = with_fingerprint(changed);
    assert_eq!(
        decode(&changed, vec![cert.clone()]).err(),
        Some(DecodeError::SignatureVerifyFailed)
    );
}

#[test]
fn a_failed_decode_leaves_the_context_as_it_was() {
    let mut context = small_package();
    let (_package, _table, bin) = context.encode_to_crate_package().unwrap();
    let mut target = PackageContext::new();
    target.set_package_info(
        "kept".to_string(),
        "1".to_string(),
        "".to_string(),
        vec![],
    );
    target.add_root_cas(vec![1, 2, 3]);
    let before = target.clone();
    let mut broken = bin.clone();
    broken[40] ^= 0xff;
    assert!(target.decode_from_crate_package(&broken).is_err());
    assert_eq!(target, before);
    // and a good one replaces the package but keeps the roots
    target.decode_from_crate_package(&bin).unwrap();
    assert_eq!(target.pack_info, context.pack_info);
    assert_eq!(target.root_cas, vec![vec![1, 2, 3]]);
}

#[test]
fn signers_sign_the_digests_of_what_they_cover() {
    let (cert, key) = make_signer("signer");
    let mut context = small_package();
    context.add_sig(signer(&cert, &key), SIGTYPE::CRATEBIN);
    context.add_sig(signer(&cert, &key), SIGTYPE::FILE);
    let (package, _table, bin) = context.encode_to_crate_package().unwrap();
    let range = context.binary_before_sig(&package, &bin).unwrap();
    let messages = context.digests_to_sign(&package);
    assert_eq!(
        messages,
        vec![sha256(&[0xAA; 16]).to_vec(), sha256(&range).to_vec()]
    );
    let digests = context.digests_to_cover(&package, &bin).unwrap();
    assert_eq!(digests.0.to_vec(), messages[1]);
    assert_eq!(digests.1.to_vec(), messages[0]);
    for (sig, message) in context.sigs.iter().zip(messages.iter()) {
        let recovered = PKCS::decode_pkcs_bin(&sig.bin, &vec![cert.clone()]).unwrap();
        assert_eq!(&recovered, message);
    }
    // the range that is signed has no byte of a signature in it
    let mut other = small_package();
    other.add_sig(PKCS::new(), SIGTYPE::FILE);
    other.add_sig(PKCS::new(), SIGTYPE::FILE);
    other.sigs[0].size = 3;
    other.sigs[0].bin = vec![1, 2, 3];
    let mut plain = crate_spec::utils::package::CratePackage::new();
    let mut table = StringTable::new();
    other.set_pack_dep_bin(&mut plain, &mut table).unwrap();
    other.set_sigs(&mut plain, 3).unwrap();
    plain.set_section_index().unwrap();
    plain.set_string_table(&table);
    plain.set_crate_header(0).unwrap();
    assert_eq!(
        other.binary_before_sig(&plain, &plain.encode_to_vec()),
        Some(range)
    );
}

#[test]
fn a_signature_must_fill_its_slot() {
    assert_eq!(check_slot(0, 0), Ok(()));
    assert_eq!(check_slot(2048, 2048), Ok(()));
    assert_eq!(check_slot(2047, 2048), Err(EncodeError::SizeProbeMismatch));
    assert_eq!(check_slot(2049, 2048), Err(EncodeError::SizeProbeMismatch));
    assert_eq!(zero_bytes(3), vec![0, 0, 0]);
    assert_eq!(zero_bytes(0), Vec::<u8>::new());
    assert_eq!(sig_digest(0, &[1; 32], &[2; 32]), vec![1; 32]);
    assert_eq!(sig_digest(1, &[1; 32], &[2; 32]), vec![2; 32]);
}

#[test]
fn slots_are_reserved_before_signing() {
    let (cert, key) = make_signer("signer");
    let mut context = small_package();
    context.add_sig(signer(&cert, &key), SIGTYPE::FILE);
    assert_eq!(context.reserve_sig_slots(), Ok(()));
    let size = context.sigs[0].size;
    assert!(size > 0);
    assert_eq!(context.sigs[0].bin, vec![0; size]);
    let mut package = crate_spec::utils::package::CratePackage::new();
    let mut table = StringTable::new();
    assert_eq!(
        context.encode_to_crate_package_before_sig(&mut table, &mut package),
        Ok(())
    );
    let slots = package.encode_to_vec();
    assert_eq!(context.encode_sig_to_crate_package(&mut package), Ok(()));
    assert_eq!(context.sigs[0].bin.len(), size);
    assert_ne!(context.sigs[0].bin, vec![0; size]);
    assert_eq!(context.encode_to_crate_package_after_sig(&mut package), Ok(()));
    let bin = package.encode_to_vec();
    // putting the signatures in moves nothing
    assert_eq!(bin.len(), slots.len());
    assert_eq!(bin[..118], slots[..118]);
    assert!(decode(&bin, vec![cert.clone()]).is_ok());
}

#[test]
fn one_answer_one_verdict() {
    let all = [1u8; 32];
    let bin = [2u8; 32];
    assert_eq!(verdict_of_answer(0, Ok(all.to_vec()), &all, &bin), Ok(true));
    assert_eq!(verdict_of_answer(1, Ok(bin.to_vec()), &all, &bin), Ok(true));
    assert_eq!(verdict_of_answer(0, Ok(bin.to_vec()), &all, &bin), Ok(false));
    assert_eq!(verdict_of_answer(1, Ok(all.to_vec()), &all, &bin), Ok(false));
    assert_eq!(verdict_of_answer(2, Ok(all.to_vec()), &all, &bin), Ok(false));
    assert_eq!(verdict_of_answer(0, Ok(all[..31].to_vec()), &all, &bin), Ok(false));
    assert_eq!(verdict_of_answer(0, Ok(vec![]), &all, &bin), Ok(false));
    assert_eq!(
        verdict_of_answer(0, Err(DecodeError::SignatureVerifyFailed), &all, &bin),
        Err(DecodeError::SignatureVerifyFailed)
    );
    assert_eq!(
        verdict_of_answer(
            1,
            Err(DecodeError::CryptoProvider("words".to_string())),
            &all,
            &bin
        ),
        Err(DecodeError::CryptoProvider("words".to_string()))
    );
    assert!(check_sig_digest(0, &all, &all, &bin));
    assert!(!check_sig_digest(1, &all, &all, &bin));

    assert_eq!(result_of_verdict(Ok(true)), Ok(()));
    assert_eq!(
        result_of_verdict(Ok(false)),
        Err(DecodeError::SignatureVerifyFailed)
    );
    assert_eq!(
        result_of_verdict(Err(DecodeError::Truncated)),
        Err(DecodeError::Truncated)
    );
    assert_eq!(
        result_of_verdict(Err(DecodeError::CryptoProvider("words".to_string()))),
        Err(DecodeError::CryptoProvider("words".to_string()))
    );
}

#[test]
fn what_is_decided_before_the_provider_is_asked() {
    let (cert, key) = make_signer("signer");
    let mut context = small_package();
    context.add_sig(signer(&cert, &key), SIGTYPE::CRATEBIN);
    let (package, _table, bin) = context.encode_to_crate_package().unwrap();
    let mut decoded = decode(&bin, vec![cert.clone()]).unwrap();
    assert_eq!(decoded.check_sigs(&package, &bin), Ok(true));
    assert!(sig_types_known(&decoded.sigs));
    assert!(blobs_within_limit(&decoded.sigs));

    // bytes that end before the signed range does
    assert_eq!(
        decoded.check_sigs(&package, &bin[..100]),
        Err(DecodeError::Truncated)
    );
    // a type that is neither 0 nor 1, before the provider is asked: the roots are none
    decoded.sigs[0].typ = 2;
    decoded.root_cas = vec![b"no certificate".to_vec()];
    assert!(!sig_types_known(&decoded.sigs));
    assert_eq!(decoded.check_sigs(&package, &bin), Ok(false));
    decoded.sigs[0].typ = 1;
    assert!(matches!(
        decoded.check_sigs(&package, &bin),
        Err(DecodeError::CryptoProvider(_))
    ));
    // without signatures nothing is asked
    decoded.sigs.clear();
    assert_eq!(decoded.check_sigs(&package, &bin[..100]), Ok(true));
    assert!(sig_types_known(&decoded.sigs));
}

#[test]
fn slots_are_reserved_and_filled() {
    let mut sig = SigInfo::new();
    sig.typ = 1;
    sig.bin = vec![9, 9];
    reserve_slot(&mut sig, 3);
    assert_eq!((sig.typ, sig.size, sig.bin.clone()), (1, 3, vec![0, 0, 0]));
    let before = sig.clone();
    assert_eq!(
        fill_slot(&mut sig, vec![1, 2]),
        Err(EncodeError::SizeProbeMismatch)
    );
    assert_eq!(sig, before);
    assert_eq!(
        fill_slot(&mut sig, vec![1, 2, 3, 4]),
        Err(EncodeError::SizeProbeMismatch)
    );
    assert_eq!(sig, before);
    assert_eq!(fill_slot(&mut sig, vec![1, 2, 3]), Ok(()));
    assert_eq!((sig.typ, sig.size, sig.bin.clone()), (1, 3, vec![1, 2, 3]));
    assert!(signers_within_limit(&vec![sig, SigInfo::new()]));
    assert!(signers_within_limit(&vec![]));
    assert!(PKCS::new().within_limit());
}
