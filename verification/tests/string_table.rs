use crate_spec::utils::context::{
    intern_strings, CrateBinary, DepInfo, PackageContext, PackageInfo, SigInfo, SrcTypePath,
    StringTable,
};
use crate_spec::utils::error::{DecodeError, EncodeError};
use crate_spec::utils::package::{
    CrateBinarySection, CratePackage, DepTableEntry, LenArrayType, PackageSection, RawArrayType,
    SigStructureSection,
};

#[test]
fn a_new_table_holds_the_empty_string() {
    let table = StringTable::new();
    assert_eq!(table.get_str_by_off(&0), Some("".to_string()));
    assert!(table.contains_str(&"".to_string()));
    assert_eq!(table.get_off_by_str(&"".to_string()), 0);
    assert_eq!(table.to_bytes(), vec![0, 0, 0, 0]);
    assert_eq!(StringTable::default().to_bytes(), vec![0, 0, 0, 0]);
}

#[test]
fn insert_returns_offsets() {
    let mut table = StringTable::new();
    assert_eq!(table.insert_str("ab".to_string()), Ok(4));
    assert_eq!(table.insert_str("héllo".to_string()), Ok(10));
    assert_eq!(table.insert_str("".to_string()), Ok(0));
    assert_eq!(table.insert_str("z".to_string()), Ok(20));
    // a known string keeps its offset and leaves the table as it is
    let before = table.to_bytes();
    assert_eq!(table.insert_str("ab".to_string()), Ok(4));
    assert_eq!(table.insert_str("héllo".to_string()), Ok(10));
    assert_eq!(table.to_bytes(), before);
    assert_eq!(
        before,
        vec![
            0, 0, 0, 0, //
            2, 0, 0, 0, b'a', b'b', //
            6, 0, 0, 0, b'h', 0xc3, 0xa9, b'l', b'l', b'o', //
            1, 0, 0, 0, b'z',
        ]
    );
    assert_eq!(table.get_str_by_off(&4), Some("ab".to_string()));
    assert_eq!(table.get_str_by_off(&10), Some("héllo".to_string()));
    assert_eq!(table.get_str_by_off(&20), Some("z".to_string()));
    // only the start of a record is an offset
    assert_eq!(table.get_str_by_off(&5), None);
    assert_eq!(table.get_str_by_off(&25), None);
    assert_eq!(table.get_str_by_off(&u32::MAX), None);
    assert!(table.contains_str(&"z".to_string()));
    assert!(!table.contains_str(&"y".to_string()));
    assert_eq!(table.get_off_by_str(&"z".to_string()), 20);
}

#[test]
fn get_after_insert() {
    let mut table = StringTable::new();
    let strings = ["one", "two", "", "three", "two", "一二三", "one"];
    let mut offsets = Vec::new();
    for s in strings {
        offsets.push(table.insert_str(s.to_string()).unwrap());
    }
    for (s, off) in strings.iter().zip(offsets.iter()) {
        assert_eq!(table.get_str_by_off(off), Some(s.to_string()));
    }
    assert_eq!(offsets[1], offsets[4]);
    assert_eq!(offsets[0], offsets[6]);
    assert_eq!(offsets[2], 0);
}

#[test]
fn bytes_round_trip() {
    let mut table = StringTable::new();
    for s in ["name", "1.0.0", "MIT OR Apache-2.0", "ünïcödé"] {
        table.insert_str(s.to_string()).unwrap();
    }
    let bytes = table.to_bytes();
    let mut read = StringTable::new();
    assert_eq!(read.read_bytes(&bytes), Ok(()));
    assert_eq!(read.to_bytes(), bytes);
    for off in [0u32, 4, 12, 21, 42] {
        assert_eq!(read.get_str_by_off(&off), table.get_str_by_off(&off));
        assert!(read.get_str_by_off(&off).is_some());
    }
    assert_eq!(read.get_str_by_off(&42), Some("ünïcödé".to_string()));
    // a table that was read goes on where the bytes ended
    assert_eq!(read.insert_str("next".to_string()), Ok(bytes.len() as u32));
    assert_eq!(read.insert_str("name".to_string()), Ok(4));
}

#[test]
fn reading_into_a_new_table() {
    // the first record takes the place of the empty string
    let mut table = StringTable::new();
    assert_eq!(table.read_bytes(&[1, 0, 0, 0, b'x', 0, 0, 0, 0]), Ok(()));
    assert_eq!(table.get_str_by_off(&0), Some("x".to_string()));
    assert_eq!(table.get_str_by_off(&5), Some("".to_string()));
    assert_eq!(table.get_off_by_str(&"".to_string()), 5);
    assert_eq!(table.get_str_by_off(&4), None);
    assert_eq!(table.to_bytes(), vec![1, 0, 0, 0, b'x', 0, 0, 0, 0]);
    // without a record the table keeps the empty string
    let mut table = StringTable::new();
    assert_eq!(table.read_bytes(&[]), Ok(()));
    assert_eq!(table.get_str_by_off(&0), Some("".to_string()));
    assert!(table.contains_str(&"".to_string()));
    assert_eq!(table.to_bytes(), vec![0, 0, 0, 0]);
    assert_eq!(table.insert_str("next".to_string()), Ok(4));
}

#[test]
fn malformed_tables_are_refused() {
    let mut table = StringTable::new();
    let before = table.to_bytes();
    assert_eq!(
        table.read_bytes(&[0, 0, 0]),
        Err(DecodeError::MalformedStringTable)
    );
    assert_eq!(
        table.read_bytes(&[2, 0, 0, 0, b'a']),
        Err(DecodeError::MalformedStringTable)
    );
    assert_eq!(
        table.read_bytes(&[1, 0, 0, 0, b'a', 9]),
        Err(DecodeError::MalformedStringTable)
    );
    assert_eq!(
        table.read_bytes(&[0xff, 0xff, 0xff, 0xff]),
        Err(DecodeError::MalformedStringTable)
    );
    assert_eq!(
        table.read_bytes(&[1, 0, 0, 0, 0xff]),
        Err(DecodeError::MalformedUtf8)
    );
    // an overlong encoding of '/'
    assert_eq!(
        table.read_bytes(&[0, 0, 0, 0, 2, 0, 0, 0, 0xc0, 0xaf]),
        Err(DecodeError::MalformedUtf8)
    );
    // a surrogate
    assert_eq!(
        table.read_bytes(&[3, 0, 0, 0, 0xed, 0xa0, 0x80]),
        Err(DecodeError::MalformedUtf8)
    );
    // the first error in the order of the records
    assert_eq!(
        table.read_bytes(&[1, 0, 0, 0, 0xff, 9, 9]),
        Err(DecodeError::MalformedUtf8)
    );
    // the table is as it was: new
    assert_eq!(table.to_bytes(), before);
    assert_eq!(table.get_str_by_off(&0), Some("".to_string()));
}

#[test]
fn strings_enter_in_order() {
    let mut table = StringTable::new();
    let strings: Vec<String> = ["b", "a", "b", "", "c"]
        .iter()
        .map(|s| s.to_string())
        .collect();
    assert_eq!(intern_strings(&mut table, &strings), Ok(vec![4, 9, 4, 0, 14]));
    assert_eq!(table.to_bytes().len(), 19);
}

#[test]
fn package_info_and_section() {
    let info = PackageInfo::new(
        "rust-crate".to_string(),
        "1.0.0".to_string(),
        "MIT".to_string(),
        vec!["shuibing".to_string(), "rust".to_string()],
    );
    let mut table = StringTable::new();
    let mut section = PackageSection::new();
    assert_eq!(info.write_to_package_section(&mut section, &mut table), Ok(()));
    assert_eq!(
        section,
        PackageSection {
            pkg_name: 4,
            pkg_version: 18,
            pkg_license: 27,
            pkg_authors: LenArrayType::from_vec(vec![34, 46]),
        }
    );
    let mut read = PackageInfo::default();
    assert_eq!(read, PackageInfo::new("".into(), "".into(), "".into(), vec![]));
    assert_eq!(read.read_from_package_section(&section, &table), Ok(()));
    assert_eq!(read, info);
    // authors are replaced, not added to
    assert_eq!(read.read_from_package_section(&section, &table), Ok(()));
    assert_eq!(read.authors.len(), 2);

    section.pkg_authors.arr[1] = 47;
    let before = read.clone();
    assert_eq!(
        read.read_from_package_section(&section, &table),
        Err(DecodeError::MalformedStringTable)
    );
    assert_eq!(read, before);
    section.pkg_authors.arr[1] = 46;
    section.pkg_license = 1;
    assert_eq!(
        read.read_from_package_section(&section, &table),
        Err(DecodeError::MalformedStringTable)
    );
}

#[test]
fn dep_info_and_entry() {
    let dep = DepInfo::new(
        "crate-spec".to_string(),
        ">=0.8.0".to_string(),
        SrcTypePath::Git("http://git.com".to_string()),
        "windows".to_string(),
        true,
    );
    let mut table = StringTable::new();
    let mut entry = DepTableEntry::new();
    assert_eq!(dep.write_to_dep_table_entry(&mut entry, &mut table), Ok(()));
    assert_eq!(
        entry,
        DepTableEntry {
            dep_name: 4,
            dep_verreq: 18,
            dep_srctype: 1,
            dep_srcpath: 29,
            dep_platform: 47,
        }
    );
    let mut read = DepInfo::default();
    assert_eq!(read.ver_req, "default");
    assert_eq!(read.src_platform, "default");
    assert_eq!(read.src, SrcTypePath::CratesIo);
    assert!(read.dump);
    assert_eq!(read.read_from_dep_table_entry(&entry, &table), Ok(()));
    assert_eq!(read, dep);

    // a dependency that was read is one to write, whatever it was before
    let mut unmarked = DepInfo::default();
    unmarked.dump = false;
    assert_eq!(unmarked.read_from_dep_table_entry(&entry, &table), Ok(()));
    assert!(unmarked.dump);

    // for crates.io the path offset is not looked at
    let mut crates_io = entry;
    crates_io.dep_srctype = 0;
    crates_io.dep_srcpath = 12345;
    assert_eq!(read.read_from_dep_table_entry(&crates_io, &table), Ok(()));
    assert_eq!(read.src, SrcTypePath::CratesIo);

    for code in [5u8, 9, 255] {
        let mut bad = entry;
        bad.dep_srctype = code;
        let before = read.clone();
        assert_eq!(
            read.read_from_dep_table_entry(&bad, &table),
            Err(DecodeError::InvalidSourceTypeCode)
        );
        assert_eq!(read, before);
    }
    let mut bad = entry;
    bad.dep_srcpath = 30;
    assert_eq!(
        read.read_from_dep_table_entry(&bad, &table),
        Err(DecodeError::MalformedStringTable)
    );
    // a name that cannot be resolved comes before a bad source type
    let mut bad = entry;
    bad.dep_name = 1;
    bad.dep_srctype = 9;
    assert_eq!(
        read.read_from_dep_table_entry(&bad, &table),
        Err(DecodeError::MalformedStringTable)
    );
}

#[test]
fn source_codes_and_paths() {
    let sources = [
        (SrcTypePath::CratesIo, 0u8, ""),
        (SrcTypePath::Git("g".to_string()), 1, "g"),
        (SrcTypePath::Url("u".to_string()), 2, "u"),
        (SrcTypePath::Registry("r".to_string()), 3, "r"),
        (SrcTypePath::P2p("p".to_string()), 4, "p"),
    ];
    for (src, code, path) in sources {
        assert_eq!(src.code(), code);
        assert_eq!(src.path(), path);
        let dep = DepInfo::new("n".into(), "v".into(), src.clone(), "".into(), true);
        let mut table = StringTable::new();
        let mut entry = DepTableEntry::new();
        dep.write_to_dep_table_entry(&mut entry, &mut table).unwrap();
        assert_eq!(entry.dep_srctype, code);
        let mut read = DepInfo::default();
        read.read_from_dep_table_entry(&entry, &table).unwrap();
        assert_eq!(read.src, src);
    }
}

#[test]
fn crate_binary_and_section() {
    let mut binary = CrateBinary::new();
    assert!(binary.bytes.is_empty());
    binary.set_bin(vec![1, 2, 3]);
    let mut section = CrateBinarySection::new();
    binary.write_to_crate_binary_section(&mut section);
    assert_eq!(section.bin.arr, vec![1, 2, 3]);
    let mut read = CrateBinary::new();
    read.read_from_crate_biary_section(&section);
    assert_eq!(read, binary);
}

#[test]
fn sig_info_and_section() {
    let mut sig = SigInfo::new();
    assert_eq!((sig.typ, sig.size, sig.bin.len()), (0, 0, 0));
    sig.typ = 1;
    sig.size = 3;
    sig.bin = vec![7, 8, 9];
    let mut section = SigStructureSection::new();
    assert_eq!(sig.write_to_sig_structure_section(&mut section), Ok(()));
    assert_eq!(
        section,
        SigStructureSection {
            sigstruct_size: 3,
            sigstruct_type: 1,
            sigstruct_sig: RawArrayType::from_vec(vec![7, 8, 9]),
        }
    );
    let mut read = SigInfo::new();
    read.read_from_sig_structure_section(&section);
    assert_eq!(read, sig);
    if usize::MAX > u32::MAX as usize {
        sig.size = u32::MAX as usize + 1;
        let before = section.clone();
        assert_eq!(
            sig.write_to_sig_structure_section(&mut section),
            Err(EncodeError::InputTooLarge)
        );
        assert_eq!(section, before);
        let mut context = PackageContext::new();
        context.set_package_info("a".into(), "1".into(), "".into(), vec![]);
        context.sigs.push(sig);
        let mut package = CratePackage::new();
        assert_eq!(
            context.set_sigs(&mut package, 3),
            Err(EncodeError::InputTooLarge)
        );
        assert_eq!(package, CratePackage::new());
    }
}
