use crate_spec::utils::context::{PackageContext, DATASECTIONTYPE};
use crate_spec::utils::error::{DecodeError, EncodeError};
use crate_spec::utils::package::bin::{Decode, Encode};
use crate_spec::utils::package::codec::{
    is_magic_number, read_records, write_bytes, write_records, Record,
};
use crate_spec::utils::package::{
    datasection_type, get_datasection_type, CrateBinarySection, CrateHeader, CratePackage,
    DataSection, DataSectionCollectionType, DepTableEntry, DepTableSection, LenArrayType,
    PackageSection, RawArrayType, SectionIndex, SectionIndexEntry, SigStructureSection,
    CRATEVERSION, FINGERPRINT_LEN, MAGIC_NUMBER, MAGIC_NUMBER_LEN,
};
use crate_spec::utils::pkcs::PKCS;
use openssl::sha::sha256;

fn with_fingerprint(mut bytes: Vec<u8>) -> Vec<u8> {
    let n = bytes.len() - 32;
    let digest = sha256(&bytes[..n]);
    bytes[n..].copy_from_slice(&digest);
    bytes
}

fn decode(bytes: &[u8]) -> Result<PackageContext, DecodeError> {
    let mut context = PackageContext::new();
    context.decode_from_crate_package(bytes)?;
    Ok(context)
}

fn package_section() -> PackageSection {
    PackageSection {
        pkg_name: 4,
        pkg_version: 0x0102_0304,
        pkg_license: 0,
        pkg_authors: LenArrayType::from_vec(vec![7, 0xffff_ffff]),
    }
}

fn dep_entry() -> DepTableEntry {
    DepTableEntry {
        dep_name: 1,
        dep_verreq: 2,
        dep_srctype: 3,
        dep_srcpath: 0x0a0b_0c0d,
        dep_platform: 5,
    }
}

fn sections() -> DataSectionCollectionType {
    let mut collection = DataSectionCollectionType::new();
    collection
        .col
        .arr
        .push(DataSection::PackageSection(package_section()));
    collection
        .col
        .arr
        .push(DataSection::DepTableSection(DepTableSection {
            entries: LenArrayType::from_vec(vec![dep_entry()]),
        }));
    collection
        .col
        .arr
        .push(DataSection::CrateBinarySection(CrateBinarySection {
            bin: RawArrayType::from_vec(vec![9, 8, 7]),
        }));
    collection
        .col
        .arr
        .push(DataSection::SigStructureSection(SigStructureSection {
            sigstruct_size: 2,
            sigstruct_type: 1,
            sigstruct_sig: RawArrayType::from_vec(vec![0xde, 0xad]),
        }));
    collection
}

/// A container over `sections`, laid out, with a string table of one empty string.
fn container(sections: DataSectionCollectionType) -> CratePackage {
    let mut package = CratePackage::new();
    package.data_sections = sections;
    package.string_table = RawArrayType::from_vec(vec![0, 0, 0, 0]);
    package.set_section_index().unwrap();
    package.set_crate_header(0).unwrap();
    package
}

#[test]
fn constants() {
    assert_eq!(MAGIC_NUMBER, [0x43, 0x52, 0x41, 0x54, 0x45]);
    assert_eq!(MAGIC_NUMBER_LEN, 5);
    assert_eq!(FINGERPRINT_LEN, 32);
    assert_eq!(CRATEVERSION, 0);
    assert!(is_magic_number(&MAGIC_NUMBER));
    assert!(!is_magic_number(&[0x43, 0x52, 0x41, 0x54, 0x46]));
    assert_eq!(DATASECTIONTYPE::PACK.code(), 0);
    assert_eq!(DATASECTIONTYPE::DEPTABLE.code(), 1);
    assert_eq!(DATASECTIONTYPE::CRATEBIN.code(), 3);
    assert_eq!(DATASECTIONTYPE::SIGSTRUCTURE.code(), 4);
}

#[test]
fn integers_are_little_endian() {
    let mut out = vec![0xee];
    0x0102_0304u32.write(&mut out);
    assert_eq!(out, vec![0xee, 4, 3, 2, 1]);
    assert_eq!(u32::read(&[4, 3, 2, 1]), 0x0102_0304);
    assert_eq!(u32::exec_width(), 4);
    assert_eq!(u8::exec_width(), 1);
    assert_eq!(u8::read(&[200]), 200);
    let mut out = Vec::new();
    (-1i8).write(&mut out);
    assert_eq!(out, vec![0xff]);
    assert_eq!(i8::read(&[0x80]), -128);
}

#[test]
fn header_bytes() {
    let header = CrateHeader {
        c_version: 0,
        strtable_size: 1,
        strtable_offset: 0x100,
        si_size: 0x10000,
        si_offset: 0x1000000,
        si_num: 5,
        ds_offset: 0xfffffffe,
    };
    let mut out = Vec::new();
    header.write(&mut out);
    assert_eq!(
        out,
        vec![
            0, 1, 0, 0, 0, 0, 1, 0, 0, 0, 0, 1, 0, 0, 0, 0, 1, 5, 0, 0, 0, 0xfe, 0xff, 0xff, 0xff
        ]
    );
    assert_eq!(header.size(), 25);
    assert_eq!(out.len(), CrateHeader::exec_width());
    assert_eq!(CrateHeader::read(&out), header);
    assert_eq!(
        CrateHeader::new(),
        CrateHeader {
            c_version: 0,
            strtable_size: 0,
            strtable_offset: 0,
            si_size: 0,
            si_offset: 0,
            si_num: 0,
            ds_offset: 0
        }
    );
}

#[test]
fn index_entry_bytes() {
    let entry = SectionIndexEntry::new(4, 0x0102, 0x0304_0506);
    let mut out = Vec::new();
    entry.write(&mut out);
    assert_eq!(out, vec![4, 2, 1, 0, 0, 6, 5, 4, 3]);
    assert_eq!(entry.size(), 9);
    assert_eq!(SectionIndexEntry::read(&out), entry);
    assert_eq!(
        SectionIndexEntry::default(),
        SectionIndexEntry::new(0, 0, 0)
    );
}

#[test]
fn dep_entry_bytes() {
    let mut out = Vec::new();
    dep_entry().write(&mut out);
    assert_eq!(
        out,
        vec![1, 0, 0, 0, 2, 0, 0, 0, 3, 0x0d, 0x0c, 0x0b, 0x0a, 5, 0, 0, 0]
    );
    assert_eq!(DepTableEntry::read(&out), dep_entry());
    assert_eq!(DepTableEntry::exec_width(), 17);
    assert_eq!(DepTableEntry::new().dep_srctype, 0);
}

#[test]
fn package_section_bytes() {
    let section = package_section();
    let mut out = Vec::new();
    section.write(&mut out);
    assert_eq!(
        out,
        vec![
            4, 0, 0, 0, 4, 3, 2, 1, 0, 0, 0, 0, 2, 0, 0, 0, 7, 0, 0, 0, 0xff, 0xff, 0xff, 0xff
        ]
    );
    assert_eq!(section.size(), 24);
    assert_eq!(PackageSection::decode(&out), Ok(section));
    // what follows the last author is not looked at
    let mut longer = out.clone();
    longer.push(0x55);
    assert_eq!(PackageSection::decode(&longer), Ok(package_section()));
    assert_eq!(
        PackageSection::decode(&out[..23]),
        Err(DecodeError::Truncated)
    );
    assert_eq!(
        PackageSection::decode(&out[..15]),
        Err(DecodeError::Truncated)
    );
    assert_eq!(PackageSection::new().pkg_authors.len, 0);
}

#[test]
fn dep_table_section_bytes() {
    let section = DepTableSection {
        entries: LenArrayType::from_vec(vec![dep_entry(), DepTableEntry::new()]),
    };
    let mut out = Vec::new();
    section.write(&mut out);
    assert_eq!(out.len(), 4 + 2 * 17);
    assert_eq!(&out[..4], &[2, 0, 0, 0]);
    assert_eq!(section.size(), 38);
    assert_eq!(DepTableSection::decode(&out), Ok(section));
    assert_eq!(
        DepTableSection::decode(&out[..37]),
        Err(DecodeError::Truncated)
    );
    assert_eq!(
        DepTableSection::decode(&[1, 0]),
        Err(DecodeError::Truncated)
    );
    let empty = DepTableSection::new();
    let mut out = Vec::new();
    empty.write(&mut out);
    assert_eq!(out, vec![0, 0, 0, 0]);
}

#[test]
fn crate_binary_section_bytes() {
    let section = CrateBinarySection {
        bin: RawArrayType::from_vec(vec![1, 2, 3, 4]),
    };
    let mut out = Vec::new();
    section.write(&mut out);
    assert_eq!(out, vec![1, 2, 3, 4]);
    assert_eq!(section.size(), 4);
    // exactly as many bytes as asked for are taken
    assert_eq!(
        CrateBinarySection::decode(&[1, 2, 3, 4, 5], 4),
        Ok(section)
    );
    assert_eq!(
        CrateBinarySection::decode(&[1, 2, 3], 4),
        Err(DecodeError::Truncated)
    );
    assert_eq!(
        CrateBinarySection::decode(&[], 0),
        Ok(CrateBinarySection::new())
    );
}

#[test]
fn sig_section_bytes() {
    let section = SigStructureSection {
        sigstruct_size: 3,
        sigstruct_type: 1,
        sigstruct_sig: RawArrayType::from_vec(vec![7, 8, 9]),
    };
    let mut out = Vec::new();
    section.write(&mut out);
    assert_eq!(out, vec![3, 0, 0, 0, 1, 7, 8, 9]);
    assert_eq!(section.size(), 8);
    assert_eq!(SigStructureSection::decode(&out), Ok(section));
    // the size says how many bytes belong to the signature
    let read = SigStructureSection::decode(&[2, 0, 0, 0, 0, 7, 8, 9]).unwrap();
    assert_eq!(read.sigstruct_sig.arr, vec![7, 8]);
    assert_eq!(
        SigStructureSection::decode(&[4, 0, 0, 0, 1, 7, 8, 9]),
        Err(DecodeError::Truncated)
    );
    assert_eq!(
        SigStructureSection::decode(&[0, 0, 0, 0]),
        Err(DecodeError::Truncated)
    );
    assert_eq!(SigStructureSection::new().sigstruct_size, 0);
}

#[test]
fn data_section_types() {
    let all = sections();
    let types: Vec<u8> = all.col.arr.iter().map(datasection_type).collect();
    assert_eq!(types, vec![0, 1, 3, 4]);
    let types: Vec<u8> = all.col.arr.iter().map(get_datasection_type).collect();
    assert_eq!(types, vec![0, 1, 3, 4]);
    for section in all.col.arr.iter() {
        let bytes = section.encode();
        assert_eq!(bytes.len(), section.size());
        assert_eq!(section.checked_size(), Some(bytes.len() as u32));
        assert_eq!(
            DataSection::decode(datasection_type(section), &bytes).as_ref(),
            Ok(section)
        );
    }
    assert_eq!(
        DataSection::decode(2, &[]),
        Err(DecodeError::UnknownSectionType)
    );
    assert_eq!(
        DataSection::decode(5, &[1, 2, 3]),
        Err(DecodeError::UnknownSectionType)
    );
}

#[test]
fn records() {
    let entries = vec![
        SectionIndexEntry::new(0, 0, 20),
        SectionIndexEntry::new(1, 20, 4),
    ];
    let mut out = vec![0xaa];
    write_records(&entries, &mut out);
    assert_eq!(out.len(), 1 + 18);
    assert_eq!(
        read_records::<SectionIndexEntry>(&out[1..], 2),
        Some(entries.clone())
    );
    assert_eq!(
        read_records::<SectionIndexEntry>(&out[1..], 1),
        Some(entries[..1].to_vec())
    );
    assert_eq!(read_records::<SectionIndexEntry>(&out[1..], 3), None);
    assert_eq!(read_records::<u32>(&[], 0), Some(vec![]));
    assert_eq!(read_records::<u32>(&[1, 0, 0], 1), None);
    assert_eq!(read_records::<u32>(&[1, 0, 0, 0, 9], usize::MAX), None);
    let mut out = vec![1];
    write_bytes(&[2, 3], &mut out);
    assert_eq!(out, vec![1, 2, 3]);
}

#[test]
fn test_raw_array_type() {
    let a = RawArrayType::<i8> {
        arr: [1, 2, 3].to_vec(),
    };
    let encode_vec = a.encode();
    println!("{:?}", encode_vec);
    let raw_array = RawArrayType::<i8>::decode(encode_vec.as_slice(), 3).unwrap();
    println!("{:?}", raw_array);
    assert_eq!(encode_vec, vec![1, 2, 3]);
    assert_eq!(raw_array, a);
    assert_eq!(a.size(), 3);
    assert_eq!(a.encode_to_vec(), encode_vec);
    assert_eq!(
        RawArrayType::<i8>::decode(encode_vec.as_slice(), 4).err(),
        Some(DecodeError::Truncated)
    );
    // through the trait, as many elements as the bytes hold are read
    let words = <RawArrayType<u32> as Decode>::decode(&[1, 0, 0, 0, 2, 0, 0, 0, 9]);
    assert_eq!(words.arr, vec![1, 2]);
    let words = <RawArrayType<u32> as Decode>::decode_from_vec(&vec![5, 0, 0, 0]);
    assert_eq!(words.arr, vec![5]);
    let words = <RawArrayType<u32> as Decode>::decode_from_slice(&[5, 0, 0]);
    assert!(words.arr.is_empty());
    assert_eq!(RawArrayType::<u32>::new().arr.len(), 0);
}

#[test]
fn len_arrays() {
    let a = LenArrayType::from_vec(vec![1u32, 2, 3]);
    assert_eq!(a.len, 3);
    assert_eq!(a.arr, vec![1, 2, 3]);
    let b = LenArrayType::copy_from_vec(&vec![4u32, 5]);
    assert_eq!(b.len, 2);
    assert_eq!(b.to_vec(), vec![4, 5]);
    let c = LenArrayType::<u32>::new();
    assert_eq!(c.len, 0);
    assert!(c.arr.is_empty());

    let mut out = vec![0xee];
    a.write(&mut out);
    assert_eq!(out, vec![0xee, 3, 0, 0, 0, 1, 0, 0, 0, 2, 0, 0, 0, 3, 0, 0, 0]);
    assert_eq!(a.size(), 16);
    assert_eq!(LenArrayType::<u32>::decode(&out[1..]), Ok(a));
    assert_eq!(
        LenArrayType::<u32>::decode(&out[1..16]),
        Err(DecodeError::Truncated)
    );
    assert_eq!(
        LenArrayType::<u32>::decode(&[0, 0, 0]),
        Err(DecodeError::Truncated)
    );
    assert_eq!(LenArrayType::<u32>::decode(&[0, 0, 0, 0, 7]), Ok(c));
    // the declared length is what is written, whatever the array holds
    let odd = LenArrayType {
        len: 5,
        arr: vec![9u8],
    };
    let mut out = Vec::new();
    odd.write(&mut out);
    assert_eq!(out, vec![5, 0, 0, 0, 9]);
    assert_eq!(
        LenArrayType::<u8>::decode(&out),
        Err(DecodeError::Truncated)
    );
}

#[test]
fn section_index_counts() {
    let package = container(sections());
    let index = &package.section_index;
    assert_eq!(index.num(), 4);
    assert_eq!(index.section_num(), 4);
    assert_eq!(index.size(), 36);
    assert_eq!(index.none_sig_num(), 3);
    assert_eq!(index.none_sig_size(), 27);
    assert_eq!(index.sig_num(), 1);
    assert_eq!(index.sig_size(), 9);
    // package 24, dependency table 21, crate binary 3
    assert_eq!(index.datasection_size_without_sig(), 48);
    assert_eq!(index.find_section(3), Some(2));
    assert_eq!(index.find_section(2), None);
    assert_eq!(index.section_id_by_type(4), 3);
    assert_eq!(index.get_section_id_by_typ(0), 0);
    assert_eq!(SectionIndex::new().datasection_size_without_sig(), 0);
    assert_eq!(SectionIndex::new().none_sig_num(), 0);

    let mut bytes = Vec::new();
    write_records(&index.entries.arr, &mut bytes);
    assert_eq!(SectionIndex::decode(&bytes, 4).as_ref(), Ok(index));
    assert_eq!(
        SectionIndex::decode(&bytes, 5),
        Err(DecodeError::Truncated)
    );

    let fake = index.encode_fake_to_vec(27, 36);
    assert_eq!(&fake[..27], &bytes[..27]);
    assert_eq!(&fake[27..], &[0; 9]);
    assert_eq!(index.encode_fake_to_vec(0, 2), vec![0, 0]);
    let mut padded = bytes.clone();
    padded.extend([0; 4]);
    assert_eq!(index.encode_fake_to_vec(40, 44), padded);
}

#[test]
fn last_section_that_is_no_signature() {
    let index = SectionIndex {
        entries: RawArrayType::from_vec(vec![
            SectionIndexEntry::new(4, 0, 10),
            SectionIndexEntry::new(3, 10, 7),
            SectionIndexEntry::new(4, 17, 10),
        ]),
    };
    assert_eq!(index.datasection_size_without_sig(), 17);
    assert_eq!(index.none_sig_num(), 1);
    let only_sigs = SectionIndex {
        entries: RawArrayType::from_vec(vec![SectionIndexEntry::new(4, 0, 10)]),
    };
    assert_eq!(only_sigs.datasection_size_without_sig(), 0);
    let large = SectionIndex {
        entries: RawArrayType::from_vec(vec![SectionIndexEntry::new(
            0,
            u32::MAX,
            u32::MAX,
        )]),
    };
    assert_eq!(large.datasection_size_without_sig(), 2 * (u32::MAX as u64));
}

#[test]
fn section_collection() {
    let all = sections();
    assert_eq!(all.size(), 24 + 21 + 3 + 7);
    assert_eq!(
        all.encode_size_offset(),
        vec![(24, 0), (21, 24), (3, 45), (7, 48)]
    );
    let mut bytes = Vec::new();
    all.write(&mut bytes);
    assert_eq!(bytes.len(), 55);
    assert_eq!(all.encode_fake_to_vec(48), bytes[..48].to_vec());
    assert_eq!(all.encode_fake_to_vec(100), bytes);
    assert_eq!(all.encode_fake_to_vec(0), Vec::<u8>::new());
    let package = container(sections());
    assert_eq!(
        DataSectionCollectionType::decode(&bytes, &package.section_index),
        Ok(all)
    );
    assert_eq!(
        DataSectionCollectionType::decode(&bytes[..54], &package.section_index),
        Err(DecodeError::Truncated)
    );
}

#[test]
fn layout_of_a_container() {
    let package = container(sections());
    assert_eq!(
        package.crate_header,
        CrateHeader {
            c_version: 0,
            strtable_size: 4,
            strtable_offset: 30,
            si_size: 36,
            si_offset: 34,
            si_num: 4,
            ds_offset: 70,
        }
    );
    assert_eq!(
        package.section_index.entries.arr,
        vec![
            SectionIndexEntry::new(0, 0, 24),
            SectionIndexEntry::new(1, 24, 21),
            SectionIndexEntry::new(3, 45, 3),
            SectionIndexEntry::new(4, 48, 7),
        ]
    );
    let bytes = package.encode_to_vec();
    assert_eq!(bytes.len(), 70 + 55 + 32);
    assert_eq!(bytes, Encode::encode(&package));
    assert_eq!(CratePackage::decode_from_slice(&bytes), Ok(package));
}

#[test]
fn header_for_entries_yet_to_come() {
    let mut package = container(sections());
    package.set_crate_header(2).unwrap();
    assert_eq!(package.crate_header.si_num, 6);
    assert_eq!(package.crate_header.si_size, 54);
    assert_eq!(package.crate_header.ds_offset, 34 + 54);
    let before = package.clone();
    assert_eq!(
        package.set_crate_header(u32::MAX as usize),
        Err(EncodeError::InputTooLarge)
    );
    assert_eq!(package, before);
    // 30 + 4 + 9 * n must fit in 32 bits
    assert_eq!(package.set_crate_header(477_218_580), Ok(()));
    assert_eq!(package.crate_header.si_num, 477_218_584);
    assert_eq!(package.crate_header.ds_offset, 4_294_967_290);
    assert_eq!(
        package.set_crate_header(477_218_581),
        Err(EncodeError::InputTooLarge)
    );
}

#[test]
fn setters() {
    let mut package = CratePackage::new();
    assert_eq!(package.magic_number, MAGIC_NUMBER);
    assert_eq!(package.finger_print, [0; 32]);
    package.magic_number = [0; 5];
    package.set_magic_numer();
    assert_eq!(package.magic_number, MAGIC_NUMBER);
    let fp: Vec<u8> = (0..32).collect();
    package.set_finger_print(fp.clone());
    assert_eq!(package.finger_print.to_vec(), fp);
    let context = PackageContext::new();
    assert_eq!(
        context.calc_fingerprint(&package),
        sha256(&package.encode_to_vec()[..30]).to_vec()
    );
}

#[test]
fn getters() {
    let package = container(sections());
    assert_eq!(package.package_section(), &package_section());
    assert_eq!(package.get_package_section(), &package_section());
    assert_eq!(package.dep_table_section().entries.arr, vec![dep_entry()]);
    assert_eq!(package.get_dep_table_section().entries.len, 1);
    assert_eq!(package.crate_binary_section().bin.arr, vec![9, 8, 7]);
    assert_eq!(package.get_crate_binary_section().bin.arr, vec![9, 8, 7]);
    assert_eq!(package.sig_structure_section(0).sigstruct_sig.arr, vec![0xde, 0xad]);
    assert_eq!(package.get_sig_structure_section(0).sigstruct_type, 1);
    assert_eq!(datasection_type(package.data_section_by_id(2)), 3);
    assert_eq!(datasection_type(package.get_data_section_by_id(3)), 4);
    assert_eq!(datasection_type(package.data_section_by_type(1)), 1);
    assert_eq!(datasection_type(package.get_data_section_by_typ(0)), 0);
}

#[test]
fn signed_range_has_zeros_for_the_signature_entries() {
    let package = container(sections());
    let bytes = package.encode_to_vec();
    let context = PackageContext::new();
    let range = context.binary_before_sig(&package, &bytes).unwrap();
    assert_eq!(range.len(), 70 + 48);
    assert_eq!(&range[..61], &bytes[..61]);
    assert_eq!(&range[61..70], &[0; 9]);
    assert_ne!(&bytes[61..70], &[0; 9]);
    assert_eq!(&range[70..], &bytes[70..118]);
    assert_eq!(context.get_binary_before_sig(&package, &bytes), Some(range));
    assert_eq!(context.binary_before_sig(&package, &bytes[..117]), None);
    assert_eq!(
        context.binary_before_digest(&bytes),
        bytes[..bytes.len() - 32].to_vec()
    );
    assert_eq!(
        context.get_binary_before_digest(&bytes),
        bytes[..bytes.len() - 32].to_vec()
    );
}

#[test]
fn fingerprint_is_checked() {
    let context = PackageContext::new();
    let bytes = with_fingerprint(container(sections()).encode_to_vec());
    assert!(context.check_fingerprint(&bytes));
    let mut wrong = bytes.clone();
    let last = wrong.len() - 1;
    wrong[last] ^= 1;
    assert!(!context.check_fingerprint(&wrong));
    assert!(!context.check_fingerprint(&bytes[..bytes.len() - 1]));
    assert!(!context.check_fingerprint(&[0; 31]));
    assert!(context.check_fingerprint(&with_fingerprint(vec![0; 32])));
    assert_eq!(decode(&wrong).err(), Some(DecodeError::FingerprintMismatch));
    assert_eq!(decode(&[]).err(), Some(DecodeError::FingerprintMismatch));
}

#[test]
fn sha256_of_known_input() {
    let pkcs = PKCS::new();
    assert_eq!(
        pkcs.gen_digest_256(b"abc"),
        vec![
            0xba, 0x78, 0x16, 0xbf, 0x8f, 0x01, 0xcf, 0xea, 0x41, 0x41, 0x40, 0xde, 0x5d, 0xae,
            0x22, 0x23, 0xb0, 0x03, 0x61, 0xa3, 0x96, 0x17, 0x7a, 0x9c, 0xb4, 0x10, 0xff, 0x61,
            0xf2, 0x00, 0x15, 0xad
        ]
    );
    assert_eq!(
        pkcs.gen_digest_256(b""),
        vec![
            0xe3, 0xb0, 0xc4, 0x42, 0x98, 0xfc, 0x1c, 0x14, 0x9a, 0xfb, 0xf4, 0xc8, 0x99, 0x6f,
            0xb9, 0x24, 0x27, 0xae, 0x41, 0xe4, 0x64, 0x9b, 0x93, 0x4c, 0xa4, 0x95, 0x99, 0x1b,
            0x78, 0x52, 0xb8, 0x55
        ]
    );
}

#[test]
fn truncated_containers() {
    assert_eq!(
        CratePackage::decode_from_slice(b"CRAT"),
        Err(DecodeError::Truncated)
    );
    assert_eq!(
        CratePackage::decode_from_slice(b"CRATE"),
        Err(DecodeError::Truncated)
    );
    assert_eq!(
        CratePackage::decode_from_slice(b"CRATF"),
        Err(DecodeError::MagicMismatch)
    );
    let bytes = container(sections()).encode_to_vec();
    assert_eq!(
        CratePackage::decode_from_slice(&bytes[..61]),
        Err(DecodeError::Truncated)
    );
    // the last data section runs past the end
    assert_eq!(
        CratePackage::decode_from_slice(&bytes[..120]),
        Err(DecodeError::Truncated)
    );
    assert_eq!(
        decode(&with_fingerprint(bytes[..120].to_vec())).err(),
        Some(DecodeError::Truncated)
    );
    // a string table that is said to be longer than the file
    let mut long_table = bytes.clone();
    long_table[6..10].copy_from_slice(&1000u32.to_le_bytes());
    assert_eq!(
        CratePackage::decode_from_slice(&long_table),
        Err(DecodeError::Truncated)
    );
    // an index that is said to have more entries than fit in it
    let mut many = bytes.clone();
    many[22..26].copy_from_slice(&5u32.to_le_bytes());
    assert_eq!(
        CratePackage::decode_from_slice(&many),
        Err(DecodeError::Truncated)
    );
    // offsets at the very top of the range do not wrap around
    let mut top = bytes.clone();
    top[6..10].copy_from_slice(&u32::MAX.to_le_bytes());
    top[10..14].copy_from_slice(&u32::MAX.to_le_bytes());
    assert_eq!(
        CratePackage::decode_from_slice(&top),
        Err(DecodeError::Truncated)
    );
}

#[test]
fn unknown_section_type() {
    let mut package = container(sections());
    package.section_index.entries.arr[1].sh_type = 2;
    let bytes = with_fingerprint(package.encode_to_vec());
    assert_eq!(
        CratePackage::decode_from_slice(&bytes),
        Err(DecodeError::UnknownSectionType)
    );
    assert_eq!(decode(&bytes).err(), Some(DecodeError::UnknownSectionType));
}

#[test]
fn missing_mandatory_sections() {
    for missing in 0..3 {
        let mut all = sections();
        all.col.arr.truncate(3);
        // a package and a dependency without strings but the empty one
        all.col.arr[0] = DataSection::PackageSection(PackageSection::new());
        all.col.arr[1] = DataSection::DepTableSection(DepTableSection {
            entries: LenArrayType::from_vec(vec![DepTableEntry::new()]),
        });
        assert!(decode(&with_fingerprint(
            container(DataSectionCollectionType {
                col: all.col.clone()
            })
            .encode_to_vec()
        ))
        .is_ok());
        all.col.arr.remove(missing);
        let bytes = with_fingerprint(container(all).encode_to_vec());
        assert!(CratePackage::decode_from_slice(&bytes).is_ok());
        assert_eq!(
            decode(&bytes).err(),
            Some(DecodeError::MissingMandatorySection)
        );
    }
    let bytes = with_fingerprint(container(DataSectionCollectionType::new()).encode_to_vec());
    assert_eq!(bytes.len(), 66);
    assert_eq!(
        decode(&bytes).err(),
        Some(DecodeError::MissingMandatorySection)
    );
}

#[test]
fn offsets_that_name_no_string() {
    let mut all = sections();
    all.col.arr.truncate(3);
    // the package section names offsets 4 and 7, the table holds offset 0 alone
    let bytes = with_fingerprint(container(all).encode_to_vec());
    assert_eq!(
        decode(&bytes).err(),
        Some(DecodeError::MalformedStringTable)
    );
}

#[test]
fn malformed_string_tables() {
    let mut all = sections();
    all.col.arr.truncate(3);
    let mut package = container(all);
    // a record whose length runs past the table
    package.string_table = RawArrayType::from_vec(vec![0, 0, 0, 0, 9, 0, 0, 0, b'a']);
    package.set_crate_header(0).unwrap();
    let bytes = with_fingerprint(package.encode_to_vec());
    assert_eq!(
        decode(&bytes).err(),
        Some(DecodeError::MalformedStringTable)
    );
    // a record that is cut within its length
    package.string_table = RawArrayType::from_vec(vec![0, 0, 0, 0, 1, 0]);
    package.set_crate_header(0).unwrap();
    let bytes = with_fingerprint(package.encode_to_vec());
    assert_eq!(
        decode(&bytes).err(),
        Some(DecodeError::MalformedStringTable)
    );
    // a record that is no UTF-8
    package.string_table = RawArrayType::from_vec(vec![0, 0, 0, 0, 2, 0, 0, 0, 0xc3, 0x28]);
    package.set_crate_header(0).unwrap();
    let bytes = with_fingerprint(package.encode_to_vec());
    assert_eq!(decode(&bytes).err(), Some(DecodeError::MalformedUtf8));
}

#[test]
fn sections_are_found_by_their_offsets() {
    // a gap between the sections is passed over
    let mut all = sections();
    all.col.arr.truncate(3);
    let mut package = container(all);
    package.string_table = RawArrayType::from_vec(vec![0, 0, 0, 0]);
    let mut bytes = package.encode_to_vec();
    let ds = package.crate_header.ds_offset as usize;
    // two bytes of padding before the crate binary
    bytes.splice(ds + 45..ds + 45, [0x11, 0x22]);
    let entry = 34 + 2 * 9;
    bytes[entry + 1..entry + 5].copy_from_slice(&47u32.to_le_bytes());
    let read = CratePackage::decode_from_slice(&bytes).unwrap();
    assert_eq!(read.crate_binary_section().bin.arr, vec![9, 8, 7]);
    assert_eq!(read.section_index.entries.arr[2].sh_offset, 47);
}

#[test]
fn defaults_are_the_new_values() {
    assert_eq!(CratePackage::default(), CratePackage::new());
    assert_eq!(CrateHeader::default(), CrateHeader::new());
    assert_eq!(SectionIndex::default(), SectionIndex::new());
    assert_eq!(PackageSection::default(), PackageSection::new());
    assert_eq!(DepTableEntry::default(), DepTableEntry::new());
    assert_eq!(DepTableSection::default(), DepTableSection::new());
    assert_eq!(CrateBinarySection::default(), CrateBinarySection::new());
    assert_eq!(SigStructureSection::default(), SigStructureSection::new());
    assert_eq!(
        DataSectionCollectionType::default(),
        DataSectionCollectionType::new()
    );
    assert_eq!(LenArrayType::<u32>::default(), LenArrayType::new());
    assert_eq!(RawArrayType::<u8>::default(), RawArrayType::new());
}

#[test]
fn a_container_without_a_string_table() {
    // no bytes for the table: the empty string is still at offset 0
    let mut all = sections();
    all.col.arr.truncate(3);
    all.col.arr[0] = DataSection::PackageSection(PackageSection::new());
    all.col.arr[1] = DataSection::DepTableSection(DepTableSection::new());
    let mut package = container(all);
    package.string_table = RawArrayType::new();
    package.set_crate_header(0).unwrap();
    assert_eq!(package.crate_header.strtable_size, 0);
    let decoded = decode(&with_fingerprint(package.encode_to_vec())).unwrap();
    assert_eq!(decoded.pack_info.name, "");
    assert!(decoded.pack_info.authors.is_empty());
    assert_eq!(decoded.crate_binary.bytes, vec![9, 8, 7]);
}
