//! What holds of the codec as a whole: laws that relate the encoder, the
//! decoder and the string table to each other.
use crate::utils::context::{
    dep_entry_of, dep_info_of, intern, intern_all, lemma_intern_all, lemma_lookup,
    lemma_offset_le_total, lookup, lookup_all, off, offs, offset_at, package_info_of,
    package_section_of, parse_table, parse_table_records, read_table, record_len, ser_string, ser_table,
    table_len, DepInfoView, PackageContextView, PackageInfoView, SigInfoView,
};
use crate::utils::decode::{
    binary_in, covered_digests, decode_model, dep_infos_of, deps_in, fingerprint_ok,
    lemma_dep_infos_err, model_of, pack_info_in,
    sig_infos_of, signed_range,
};
use crate::utils::encode::{
    dep_entries_of, dep_strings, dep_table_of, dumped, header_fits, header_of, holds_all,
    lemma_layout,
    messages_to_sign, same_but_sig_payloads, sig_sections, sig_sizes_valid, sig_types_valid,
};
use crate::utils::error::DecodeError;
use crate::utils::package::codec::{
    count_non_sig, first_of_type, index_fits, index_of_sections, lemma_index_fits_at,
    lemma_index_fits_intro, lemma_index_fits_take, last_non_sig, lemma_first_of_type,
    lemma_parse_ser_records, lemma_ser_records_len, lemma_ser_sections_take, non_sig_data_len,
    parse_indexed_section, parse_len_array, parse_package, parse_section, parse_sections,
    section_offset, ser_dep_entry, ser_len_array,
    ser_header, ser_package, ser_package_body, ser_records, ser_section, ser_sections, Record,
};
use crate::utils::package::{
    CratePackageView, DataSectionView, DepTableEntry, DepTableSectionView, SectionIndexEntry,
    MAGIC_NUMBER,
};
use crate::utils::pkcs::{spec_sha256, PKCSView};
use vstd::bytes::{lemma_auto_spec_u32_to_from_le_bytes, spec_u32_to_le_bytes};
use vstd::prelude::*;
use vstd::utf8::{encode_utf8, encode_utf8_decode_utf8, encode_utf8_valid_utf8};

verus! {

/// Offsets in the section index grow by the sizes: the first section starts
/// at 0, and every other section starts where the one before it ends.
pub proof fn lemma_offsets_monotonic(ds: Seq<DataSectionView>)
    requires
        index_fits(ds),
    ensures
        ds.len() > 0 ==> index_of_sections(ds)[0].sh_offset == 0,
        forall|i: int|
            0 <= i < ds.len() - 1 ==> (#[trigger] index_of_sections(ds)[i + 1]).sh_offset
                == index_of_sections(ds)[i].sh_offset + index_of_sections(ds)[i].sh_size,
        forall|i: int|
            0 <= i < ds.len() ==> (#[trigger] index_of_sections(ds)[i]).sh_offset
                + index_of_sections(ds)[i].sh_size <= ser_sections(ds).len(),
{
    let index = index_of_sections(ds);
    if ds.len() > 0 {
        assert(ds.take(0) =~= Seq::<DataSectionView>::empty());
        assert(section_offset(ds, 0) == 0) by {
            reveal(section_offset);
        }
        lemma_index_fits_at(ds, 0);
    }
    assert forall|i: int| 0 <= i < ds.len() implies (#[trigger] index[i]).sh_offset
        + index[i].sh_size <= ser_sections(ds).len() && (i < ds.len() - 1 ==> index[i
        + 1].sh_offset == index[i].sh_offset + index[i].sh_size) by {
        lemma_index_fits_at(ds, i);
        if i < ds.len() - 1 {
            lemma_index_fits_at(ds, i + 1);
        }
    }
}

/// In the container of every package that fits, the offsets in the section
/// index grow by the sizes.
pub proof fn lemma_package_offsets_monotonic(m: PackageContextView, fp: Seq<u8>)
    requires
        m.fits(),
    ensures
        forall|i: int|
            0 <= i < m.package(fp).section_index.len() - 1 ==> (#[trigger] m.package(
                fp,
            ).section_index[i + 1]).sh_offset == m.package(fp).section_index[i].sh_offset
                + m.package(fp).section_index[i].sh_size,
{
    lemma_offsets_monotonic(m.data_sections());
}

/// The last 32 bytes of a package's container are the SHA-256 digest of
/// the bytes before them.
pub proof fn lemma_fingerprint(m: PackageContextView)
    requires
        spec_sha256(m.body()).len() == 32,
    ensures
        fingerprint_ok(m.bytes()),
{
    let b = m.bytes();
    assert(b.take(b.len() - 32) =~= m.body());
    assert(b.skip(b.len() - 32) =~= spec_sha256(m.body()));
}

/// Bytes with a right fingerprint whose first byte is not that of the magic
/// number are refused for their magic number.
pub proof fn lemma_magic_checked(b: Seq<u8>, roots: Seq<Seq<u8>>)
    requires
        fingerprint_ok(b),
        b[0] != 0x43,
    ensures
        decode_model(b, roots) == Err::<PackageContextView, DecodeError>(
            DecodeError::MagicMismatch,
        ),
        parse_package(b) == Err::<CratePackageView, DecodeError>(DecodeError::MagicMismatch),
{
    assert(b.subrange(0, 5)[0] == b[0]);
    assert(MAGIC_NUMBER@[0] == 0x43);
}

/// Entering a string into a table without duplicates leaves it without
/// duplicates.
pub proof fn lemma_intern_no_duplicates(t: Seq<Seq<char>>, s: Seq<char>)
    requires
        t.no_duplicates(),
    ensures
        intern(t, s).no_duplicates(),
{
    if !t.contains(s) {
        let u = t.push(s);
        assert forall|i: int, j: int| 0 <= i < u.len() && 0 <= j < u.len() && i != j implies u[i]
            != u[j] by {
            if i == t.len() {
                assert(t[j] == u[j]);
            } else if j == t.len() {
                assert(t[i] == u[i]);
            }
        }
    }
}

/// Entering strings into a table without duplicates leaves it without
/// duplicates.
pub proof fn lemma_intern_all_no_duplicates(t: Seq<Seq<char>>, ss: Seq<Seq<char>>)
    requires
        t.no_duplicates(),
    ensures
        intern_all(t, ss).no_duplicates(),
    decreases ss.len(),
{
    if ss.len() > 0 {
        lemma_intern_all_no_duplicates(t, ss.drop_last());
        lemma_intern_no_duplicates(intern_all(t, ss.drop_last()), ss.last());
    }
}

/// The string table of a package holds the empty string at offset 0 and
/// each string of the package exactly once, however often the package
/// uses it.
pub proof fn lemma_string_table_dedup(m: PackageContextView)
    ensures
        m.string_table().no_duplicates(),
        m.string_table().len() > 0,
        m.string_table()[0] == Seq::<char>::empty(),
        offset_at(m.string_table(), 0) == 0,
        forall|i: int| 0 <= i < m.strings().len() ==> m.string_table().contains(
            #[trigger] m.strings()[i],
        ),
{
    let t0 = seq![Seq::<char>::empty()];
    assert(t0.no_duplicates());
    lemma_intern_all_no_duplicates(t0, m.strings());
    lemma_intern_all(t0, m.strings());
    assert(m.string_table()[0] == t0[0]);
    assert(m.string_table().take(0) =~= Seq::<Seq<char>>::empty());
}

/// A string that a table holds is found at the offset that the table
/// gives for it.
pub proof fn lemma_lookup_off(t: Seq<Seq<char>>, s: Seq<char>)
    requires
        table_len(t) <= u32::MAX,
        t.contains(s),
    ensures
        lookup(t, off(t, s) as nat) == Some(s),
{
    t.index_of_first_ensures(s);
    let i = t.index_of_first(s).unwrap();
    lemma_offset_le_total(t, i);
    lemma_lookup(t, i);
}

/// Strings that a table holds are found at the offsets that the table
/// gives for them.
pub proof fn lemma_lookup_all_offs(t: Seq<Seq<char>>, ss: Seq<Seq<char>>)
    requires
        table_len(t) <= u32::MAX,
        holds_all(t, ss),
    ensures
        lookup_all(t, offs(t, ss)) == Some(ss),
    decreases ss.len(),
{
    if ss.len() == 0 {
        assert(offs(t, ss) =~= Seq::<u32>::empty());
        assert(ss =~= Seq::<Seq<char>>::empty());
    } else {
        let rest = ss.drop_last();
        assert forall|i: int| 0 <= i < rest.len() implies t.contains(#[trigger] rest[i]) by {
            assert(rest[i] == ss[i]);
        }
        lemma_lookup_all_offs(t, rest);
        assert(offs(t, ss).drop_last() =~= offs(t, rest));
        assert(ss[ss.len() - 1] == ss.last());
        lemma_lookup_off(t, ss.last());
        assert(rest.push(ss.last()) =~= ss);
    }
}

/// A package's description is read back from its package section as it
/// was written.
pub proof fn lemma_package_info_roundtrip(t: Seq<Seq<char>>, info: PackageInfoView)
    requires
        table_len(t) <= u32::MAX,
        holds_all(t, info.strings()),
    ensures
        package_info_of(t, package_section_of(t, info)) == Ok::<PackageInfoView, DecodeError>(info),
{
    let ss = info.strings();
    assert(ss[0] == info.name && ss[1] == info.version && ss[2] == info.license);
    lemma_lookup_off(t, ss[0]);
    lemma_lookup_off(t, ss[1]);
    lemma_lookup_off(t, ss[2]);
    assert forall|i: int| 0 <= i < info.authors.len() implies t.contains(
        #[trigger] info.authors[i],
    ) by {
        assert(ss[3 + i] == info.authors[i]);
    }
    lemma_lookup_all_offs(t, info.authors);
}

/// A dependency is read back from its dependency table entry as it was
/// written, marked as one to write: the kind of its source and the string
/// that goes with it are kept, for each of the five kinds.
pub proof fn lemma_dep_info_roundtrip(t: Seq<Seq<char>>, d: DepInfoView)
    requires
        table_len(t) <= u32::MAX,
        holds_all(t, d.strings()),
    ensures
        dep_info_of(t, dep_entry_of(t, d)) == Ok::<DepInfoView, DecodeError>(
            DepInfoView { dump: true, ..d },
        ),
{
    let ss = d.strings();
    assert(ss[0] == d.name && ss[1] == d.ver_req && ss[2] == d.src.path() && ss[3]
        == d.src_platform);
    lemma_lookup_off(t, ss[0]);
    lemma_lookup_off(t, ss[1]);
    lemma_lookup_off(t, ss[2]);
    lemma_lookup_off(t, ss[3]);
}

/// The length of a table is that of its first record and of the rest.
pub proof fn lemma_table_front(t: Seq<Seq<char>>)
    requires
        t.len() > 0,
    ensures
        table_len(t) == record_len(t[0]) + table_len(t.drop_first()),
        ser_table(t) == ser_string(t[0]) + ser_table(t.drop_first()),
    decreases t.len(),
{
    if t.len() == 1 {
        assert(t.drop_last() =~= Seq::<Seq<char>>::empty());
        assert(t.drop_first() =~= Seq::<Seq<char>>::empty());
        assert(ser_table(t) =~= ser_string(t[0]) + ser_table(t.drop_first()));
    } else {
        lemma_table_front(t.drop_last());
        assert(t.drop_last().drop_first() =~= t.drop_first().drop_last());
        assert(t.drop_first().last() == t.last());
        assert(t.drop_last()[0] == t[0]);
        assert(ser_table(t) =~= ser_string(t[0]) + ser_table(t.drop_first()));
    }
}

/// The records of a table are read back as the strings that were written.
pub proof fn lemma_table_records_roundtrip(t: Seq<Seq<char>>)
    requires
        table_len(t) <= u32::MAX,
    ensures
        parse_table_records(ser_table(t)) == Ok::<Seq<Seq<char>>, DecodeError>(t),
    decreases t.len(),
{
    lemma_auto_spec_u32_to_from_le_bytes();
    if t.len() == 0 {
        assert(t =~= Seq::<Seq<char>>::empty());
    } else {
        let s = t[0];
        let rest = t.drop_first();
        lemma_table_front(t);
        let n = encode_utf8(s).len() as int;
        let b = ser_table(t);
        assert(b.subrange(0, 4) =~= spec_u32_to_le_bytes(n as u32));
        assert(b.subrange(4, 4 + n) =~= encode_utf8(s));
        assert(b.skip(4 + n) =~= ser_table(rest));
        encode_utf8_valid_utf8(s);
        encode_utf8_decode_utf8(s);
        lemma_table_records_roundtrip(rest);
        assert(seq![s] + rest =~= t);
    }
}

/// A string table is read back from its bytes as it was written.
pub proof fn lemma_table_roundtrip(t: Seq<Seq<char>>)
    requires
        table_len(t) <= u32::MAX,
    ensures
        parse_table(ser_table(t)) == Ok::<Seq<Seq<char>>, DecodeError>(t),
        t.len() > 0 ==> read_table(ser_table(t)) == Ok::<Seq<Seq<char>>, DecodeError>(t),
{
    lemma_table_records_roundtrip(t);
    crate::utils::context::lemma_ser_table_len(t);
    if t.len() > 0 {
        lemma_table_front(t);
    }
}

impl DataSectionView {
    /// The counts that the section declares are those of what it holds.
    pub open spec fn wf(self) -> bool {
        match self {
            DataSectionView::PackageSection(p) => p.authors_len == p.authors.len(),
            DataSectionView::DepTableSection(d) => d.entries_len == d.entries.len(),
            DataSectionView::CrateBinarySection(_) => true,
            DataSectionView::SigStructureSection(g) => g.sigstruct_size == g.sigstruct_sig.len(),
        }
    }
}

/// An array with its length in front is read back from its bytes as it
/// was written.
pub proof fn lemma_len_array_roundtrip<T: Record>(len: u32, arr: Seq<T>)
    requires
        len == arr.len(),
    ensures
        parse_len_array::<T>(ser_len_array(len, arr)) == Ok::<(u32, Seq<T>), DecodeError>(
            (len, arr),
        ),
{
    lemma_auto_spec_u32_to_from_le_bytes();
    lemma_ser_records_len(arr);
    let b = ser_len_array(len, arr);
    assert(b.subrange(0, 4) =~= spec_u32_to_le_bytes(len));
    assert(b.skip(4) =~= ser_records(arr) + Seq::<u8>::empty());
    lemma_parse_ser_records(arr, Seq::<u8>::empty());
}

/// A data section is read back from its bytes as it was written.
pub proof fn lemma_section_roundtrip(d: DataSectionView)
    requires
        d.wf(),
    ensures
        parse_section(d.type_code(), ser_section(d)) == Ok::<DataSectionView, DecodeError>(d),
{
    lemma_auto_spec_u32_to_from_le_bytes();
    let b = ser_section(d);
    match d {
        DataSectionView::PackageSection(p) => {
            assert(b.subrange(0, 4) =~= spec_u32_to_le_bytes(p.pkg_name));
            assert(b.subrange(4, 8) =~= spec_u32_to_le_bytes(p.pkg_version));
            assert(b.subrange(8, 12) =~= spec_u32_to_le_bytes(p.pkg_license));
            assert(b.skip(12) =~= ser_len_array(p.authors_len, p.authors));
            lemma_len_array_roundtrip(p.authors_len, p.authors);
        },
        DataSectionView::DepTableSection(t) => {
            lemma_len_array_roundtrip(t.entries_len, t.entries);
        },
        DataSectionView::CrateBinarySection(_) => {},
        DataSectionView::SigStructureSection(g) => {
            assert(b.subrange(0, 4) =~= spec_u32_to_le_bytes(g.sigstruct_size));
            assert(b.subrange(5, 5 + g.sigstruct_size) =~= g.sigstruct_sig);
        },
    }
}

/// The bytes of the first `j` sections come first among the bytes of all.
pub proof fn lemma_ser_sections_prefix(ds: Seq<DataSectionView>, j: int)
    requires
        0 <= j <= ds.len(),
    ensures
        section_offset(ds, j) <= ser_sections(ds).len(),
        ser_sections(ds).subrange(0, section_offset(ds, j) as int) == ser_sections(ds.take(j)),
    decreases ds.len() - j,
{
    reveal(section_offset);
    if j < ds.len() {
        lemma_ser_sections_prefix(ds, j + 1);
        lemma_ser_sections_take(ds, j);
        assert(ser_sections(ds).subrange(0, section_offset(ds, j) as int) =~= ser_sections(
            ds.take(j + 1),
        ).subrange(0, section_offset(ds, j) as int));
        assert(ser_sections(ds.take(j + 1)).subrange(0, section_offset(ds, j) as int)
            =~= ser_sections(ds.take(j)));
    } else {
        assert(ds.take(j) =~= ds);
        assert(ser_sections(ds).subrange(0, ser_sections(ds).len() as int) =~= ser_sections(ds));
    }
}

/// The first `k` data sections are read back, through their index, from
/// the bytes of all sections and whatever follows them.
pub proof fn lemma_sections_roundtrip(ds: Seq<DataSectionView>, rest: Seq<u8>, k: int)
    requires
        0 <= k <= ds.len(),
        index_fits(ds),
        forall|i: int| 0 <= i < ds.len() ==> (#[trigger] ds[i]).wf(),
    ensures
        parse_sections(ser_sections(ds) + rest, index_of_sections(ds).take(k)) == Ok::<
            Seq<DataSectionView>,
            DecodeError,
        >(ds.take(k)),
    decreases k,
{
    let region = ser_sections(ds) + rest;
    let index = index_of_sections(ds);
    if k == 0 {
        assert(index.take(0) =~= Seq::<SectionIndexEntry>::empty());
        assert(ds.take(0) =~= Seq::<DataSectionView>::empty());
    } else {
        let i = k - 1;
        lemma_sections_roundtrip(ds, rest, i);
        assert(index.take(k).drop_last() =~= index.take(i));
        assert(index.take(k).last() == index[i]);
        let e = index[i];
        lemma_ser_sections_take(ds, i);
        lemma_index_fits_at(ds, i);
        lemma_ser_sections_prefix(ds, i + 1);
        lemma_ser_sections_prefix(ds, i);
        let start = section_offset(ds, i) as int;
        let end = section_offset(ds, i + 1) as int;
        assert(e.sh_offset == start);
        assert(e.sh_offset + e.sh_size == end);
        assert(region.subrange(start, end) =~= ser_sections(ds.take(i + 1)).subrange(start, end));
        assert(ser_sections(ds.take(i + 1)).subrange(start, end) =~= ser_section(ds[i]));
        lemma_section_roundtrip(ds[i]);
        assert(ds.take(i).push(ds[i]) =~= ds.take(k));
    }
}

impl CratePackageView {
    /// The container is laid out as the encoder lays it out: magic number
    /// and version are right, the header says where the parts lie, the
    /// index is that of the data sections, the counts in the sections are
    /// right, every field fits, and the fingerprint has 32 bytes.
    pub open spec fn laid_out(self) -> bool {
        &&& self.magic_number == MAGIC_NUMBER@
        &&& header_fits(self.string_table.len(), self.data_sections.len())
        &&& self.crate_header == header_of(self.string_table.len(), self.data_sections.len())
        &&& index_fits(self.data_sections)
        &&& self.section_index == index_of_sections(self.data_sections)
        &&& forall|i: int| 0 <= i < self.data_sections.len() ==> (#[trigger] self.data_sections[i]).wf()
        &&& self.finger_print.len() == 32
    }
}

/// A container that is laid out as the encoder lays it out is read back
/// from its bytes as it was written.
pub proof fn lemma_package_roundtrip(p: CratePackageView)
    requires
        p.laid_out(),
    ensures
        parse_package(ser_package(p)) == Ok::<CratePackageView, DecodeError>(p),
{
    let b = ser_package(p);
    let h = p.crate_header;
    let n = p.data_sections.len();
    h.lemma_record();
    lemma_ser_records_len(p.section_index);
    assert(b.subrange(0, 5) =~= MAGIC_NUMBER@);
    assert(b.subrange(5, 30) =~= ser_header(h));
    assert(b.subrange(h.strtable_offset as int, h.strtable_offset + h.strtable_size)
        =~= p.string_table);
    let si = b.subrange(h.si_offset as int, h.si_offset + h.si_size);
    assert(si =~= ser_records(p.section_index) + Seq::<u8>::empty());
    lemma_parse_ser_records(p.section_index, Seq::<u8>::empty());
    let region = b.skip(h.ds_offset as int);
    assert(region =~= ser_sections(p.data_sections) + p.finger_print);
    lemma_sections_roundtrip(p.data_sections, p.finger_print, n as int);
    assert(p.section_index.take(n as int) =~= p.section_index);
    assert(p.data_sections.take(n as int) =~= p.data_sections);
    assert(b.subrange(b.len() - 32, b.len() as int) =~= p.finger_print);
}

/// The signatures `sigs` as a decoder reads them back: type, size and blob
/// are kept, the signer is not known.
pub open spec fn read_back(sigs: Seq<SigInfoView>) -> Seq<SigInfoView> {
    Seq::new(sigs.len(), |i: int| SigInfoView { pkcs: PKCSView::empty(), ..sigs[i] })
}

/// The package `m` as a decoder reads it back with the roots `roots`: the
/// description, the dependencies that were to be written, the crate
/// binary, and the signatures without their signers.
pub open spec fn decoded_from(m: PackageContextView, roots: Seq<Seq<u8>>) -> PackageContextView {
    PackageContextView {
        pack_info: m.pack_info,
        dep_infos: dumped(m.dep_infos),
        crate_binary: m.crate_binary,
        sigs: read_back(m.sigs),
        root_cas: roots,
    }
}

/// Every dependency that is to be written is marked so.
pub proof fn lemma_dumped_marked(deps: Seq<DepInfoView>)
    ensures
        forall|i: int| 0 <= i < dumped(deps).len() ==> (#[trigger] dumped(deps)[i]).dump,
        dumped(dumped(deps)) == dumped(deps),
    decreases deps.len(),
{
    if deps.len() > 0 {
        lemma_dumped_marked(deps.drop_last());
        if deps.last().dump {
            let d = dumped(deps);
            assert(d.drop_last() =~= dumped(deps.drop_last()));
            assert(d.last() == deps.last());
        }
    }
}

/// Every string of every dependency is among the strings of all.
pub proof fn lemma_dep_strings_hold(deps: Seq<DepInfoView>, t: Seq<Seq<char>>)
    requires
        holds_all(t, dep_strings(deps)),
    ensures
        forall|k: int| 0 <= k < deps.len() ==> holds_all(t, (#[trigger] deps[k]).strings()),
    decreases deps.len(),
{
    if deps.len() > 0 {
        let front = dep_strings(deps.drop_last());
        let back = deps.last().strings();
        let all = dep_strings(deps);
        assert forall|i: int| 0 <= i < front.len() implies t.contains(#[trigger] front[i]) by {
            assert(all[i] == front[i]);
        }
        lemma_dep_strings_hold(deps.drop_last(), t);
        assert forall|j: int| 0 <= j < back.len() implies t.contains(#[trigger] back[j]) by {
            assert(all[front.len() + j] == back[j]);
        }
        assert forall|k: int| 0 <= k < deps.len() implies holds_all(
            t,
            (#[trigger] deps[k]).strings(),
        ) by {
            if k < deps.len() - 1 {
                assert(deps.drop_last()[k] == deps[k]);
            }
        }
    }
}

/// Dependencies are read back from their dependency table entries as they
/// were written.
pub proof fn lemma_dep_infos_roundtrip(t: Seq<Seq<char>>, deps: Seq<DepInfoView>)
    requires
        table_len(t) <= u32::MAX,
        forall|k: int| 0 <= k < deps.len() ==> holds_all(t, (#[trigger] deps[k]).strings()),
        forall|k: int| 0 <= k < deps.len() ==> (#[trigger] deps[k]).dump,
    ensures
        dep_infos_of(t, dep_entries_of(t, deps)) == Ok::<Seq<DepInfoView>, DecodeError>(deps),
    decreases deps.len(),
{
    let es = dep_entries_of(t, deps);
    if deps.len() == 0 {
        assert(deps =~= Seq::<DepInfoView>::empty());
    } else {
        let rest = deps.drop_last();
        let last = deps[deps.len() - 1];
        assert(es.drop_last() =~= dep_entries_of(t, rest));
        assert(es.last() == dep_entry_of(t, last));
        assert(dep_infos_of(t, es.drop_last()) == Ok::<Seq<DepInfoView>, DecodeError>(rest)) by {
            assert forall|k: int| 0 <= k < rest.len() implies holds_all(
                t,
                (#[trigger] rest[k]).strings(),
            ) && rest[k].dump by {
                assert(rest[k] == deps[k]);
            }
            lemma_dep_infos_roundtrip(t, rest);
        }
        assert(dep_info_of(t, es.last()) == Ok::<DepInfoView, DecodeError>(last)) by {
            lemma_dep_info_roundtrip(t, last);
        }
        assert(rest.push(last) =~= deps);
    }
}

/// The signatures are read back from the data sections of a package's
/// container: type, size and blob of each, in their order.
pub proof fn lemma_sig_infos_roundtrip(plain: Seq<DataSectionView>, sigs: Seq<SigInfoView>)
    requires
        plain.len() == 3,
        !(plain[0] is SigStructureSection),
        !(plain[1] is SigStructureSection),
        !(plain[2] is SigStructureSection),
        sig_types_valid(sigs),
        sig_sizes_valid(sigs),
    ensures
        sig_infos_of(plain + sig_sections(sigs)) == read_back(sigs),
    decreases sigs.len(),
{
    let ds = plain + sig_sections(sigs);
    if sigs.len() == 0 {
        assert(ds =~= plain);
        let p2 = plain.drop_last();
        let p1 = p2.drop_last();
        assert(p1.drop_last() =~= Seq::<DataSectionView>::empty());
        assert(sig_infos_of(p1.drop_last()) =~= Seq::<SigInfoView>::empty());
        assert(sig_infos_of(p1) == sig_infos_of(p1.drop_last()));
        assert(sig_infos_of(p2) == sig_infos_of(p1));
        assert(sig_infos_of(plain) == sig_infos_of(p2));
        assert(read_back(sigs) =~= Seq::<SigInfoView>::empty());
    } else {
        let rest = sigs.drop_last();
        assert forall|i: int| 0 <= i < rest.len() implies (#[trigger] rest[i]).typ <= 1
            && rest[i].size == rest[i].bin.len() && rest[i].size <= u32::MAX by {
            assert(rest[i] == sigs[i]);
        }
        lemma_sig_infos_roundtrip(plain, rest);
        assert(ds.drop_last() =~= plain + sig_sections(rest));
        let last = sigs[sigs.len() - 1];
        assert(ds.last() == DataSectionView::SigStructureSection(last.section()));
        assert(last.typ <= 1 && last.size <= u32::MAX);
        assert(read_back(rest).push(SigInfoView { pkcs: PKCSView::empty(), ..last }) =~= read_back(
            sigs,
        ));
    }
}

/// The container of a package that fits is laid out as the decoder
/// expects it.
pub proof fn lemma_package_laid_out(m: PackageContextView, fp: Seq<u8>)
    requires
        m.fits(),
        sig_sizes_valid(m.sigs),
        fp.len() == 32,
    ensures
        m.package(fp).laid_out(),
{
    let p = m.package(fp);
    let t = m.string_table();
    let ds = m.data_sections();
    let plain = m.plain_sections(t);
    crate::utils::context::lemma_ser_table_len(t);
    assert forall|i: int| 0 <= i < ds.len() implies (#[trigger] ds[i]).wf() by {
        if i < 3 {
            assert(ds[i] == plain[i]);
        } else {
            assert(ds[i] == sig_sections(m.sigs)[i - 3]);
            assert(m.sigs[i - 3].size == m.sigs[i - 3].bin.len());
        }
    }
}

/// The string table of a package holds the strings of its description and
/// of its dependencies that are to be written.
pub proof fn lemma_strings_held(m: PackageContextView)
    ensures
        holds_all(m.string_table(), m.pack_info.strings()),
        holds_all(m.string_table(), dep_strings(dumped(m.dep_infos))),
{
    let t = m.string_table();
    lemma_intern_all(seq![Seq::<char>::empty()], m.strings());
    let a = m.pack_info.strings();
    let b = dep_strings(dumped(m.dep_infos));
    assert forall|i: int| 0 <= i < a.len() implies t.contains(#[trigger] a[i]) by {
        assert(m.strings()[i] == a[i]);
    }
    assert forall|i: int| 0 <= i < b.len() implies t.contains(#[trigger] b[i]) by {
        assert(m.strings()[a.len() + i] == b[i]);
    }
}

/// The package is read back from the parts of its container.
pub proof fn lemma_model_of_package(m: PackageContextView, fp: Seq<u8>, roots: Seq<Seq<u8>>)
    requires
        m.fits(),
        sig_types_valid(m.sigs),
        sig_sizes_valid(m.sigs),
    ensures
        model_of(m.package(fp), roots) == Ok::<PackageContextView, DecodeError>(
            decoded_from(m, roots),
        ),
{
    let p = m.package(fp);
    let t = m.string_table();
    let ds = m.data_sections();
    let plain = m.plain_sections(t);
    let deps = dumped(m.dep_infos);
    lemma_table_roundtrip(t);
    lemma_layout(m, fp);
    lemma_strings_held(m);
    assert(ds[0] == plain[0] && ds[1] == plain[1] && ds[2] == plain[2]);
    assert(pack_info_in(p, t) == Ok::<PackageInfoView, DecodeError>(m.pack_info)) by {
        lemma_package_info_roundtrip(t, m.pack_info);
    }
    assert(deps_in(p, t) == Ok::<Seq<DepInfoView>, DecodeError>(deps)) by {
        lemma_dep_strings_hold(deps, t);
        lemma_dumped_marked(m.dep_infos);
        lemma_dep_infos_roundtrip(t, deps);
    }
    assert(binary_in(p) == Ok::<Seq<u8>, DecodeError>(m.crate_binary));
    assert(sig_infos_of(p.data_sections) == read_back(m.sigs)) by {
        lemma_sig_infos_roundtrip(plain, m.sigs);
    }
}

/// Round trip. The container of a package is decoded to that package: its
/// description, the dependencies that were to be written, the crate
/// binary, and the number, types, sizes and blobs of its signatures.
///
/// The package must fit its container, each signature must be of type 0
/// or 1 and as long as its size says, and the digest of the container
/// must have 32 bytes, as every digest that the provider hands out has.
pub proof fn lemma_roundtrip(m: PackageContextView, roots: Seq<Seq<u8>>)
    requires
        m.fits(),
        sig_types_valid(m.sigs),
        sig_sizes_valid(m.sigs),
        spec_sha256(m.body()).len() == 32,
    ensures
        parse_package(m.bytes()) == Ok::<CratePackageView, DecodeError>(
            m.package(spec_sha256(m.body())),
        ),
        decode_model(m.bytes(), roots) == Ok::<PackageContextView, DecodeError>(
            decoded_from(m, roots),
        ),
{
    let fp = spec_sha256(m.body());
    let p = m.package(fp);
    assert(ser_package_body(p) == m.body());
    assert(m.bytes() == ser_package(p));
    lemma_fingerprint(m);
    lemma_package_laid_out(m, fp);
    lemma_package_roundtrip(p);
    lemma_model_of_package(m, fp, roots);
}

/// Round trip without signatures. The container of a package without
/// signatures is decoded to that package, with no signatures: description
/// and crate binary as they were, and the dependencies that were to be
/// written.
pub proof fn lemma_roundtrip_unsigned(m: PackageContextView, roots: Seq<Seq<u8>>)
    requires
        m.fits(),
        m.sigs.len() == 0,
        spec_sha256(m.body()).len() == 32,
    ensures
        decode_model(m.bytes(), roots) == Ok::<PackageContextView, DecodeError>(
            PackageContextView {
                pack_info: m.pack_info,
                dep_infos: dumped(m.dep_infos),
                crate_binary: m.crate_binary,
                sigs: Seq::empty(),
                root_cas: roots,
            },
        ),
{
    lemma_roundtrip(m, roots);
    assert(read_back(m.sigs) =~= Seq::<SigInfoView>::empty());
}

/// Whether byte `i` of a container lies in the part of the section index
/// that is signed as zero bytes: behind the entries that are not
/// signature entries.
pub open spec fn in_signature_index(p: CratePackageView, i: int) -> bool {
    p.crate_header.si_offset + count_non_sig(p.section_index) * 9 <= i < p.crate_header.si_offset
        + p.crate_header.si_size
}

/// Signature coverage, whole container. What a signature over the whole
/// container covers holds every byte of the container up to the end of
/// the last data section that is not a signature, but for the signature
/// entries of the section index, which it holds as zero bytes.
pub proof fn lemma_signed_range_bytes(p: CratePackageView, b: Seq<u8>, i: int)
    requires
        signed_range(p, b) is Some,
        0 <= i < p.crate_header.ds_offset + non_sig_data_len(p.section_index),
    ensures
        signed_range(p, b).unwrap().len() == p.crate_header.ds_offset + non_sig_data_len(
            p.section_index,
        ),
        signed_range(p, b).unwrap()[i] == if in_signature_index(p, i) {
            0u8
        } else {
            b[i]
        },
{
}

/// Signature coverage, whole container. Two byte strings with the same
/// header and section index that differ in a byte before the end of the
/// last data section that is not a signature, and outside the signature
/// entries of the section index, differ in what a signature over the
/// whole container covers.
pub proof fn lemma_signed_range_covers(p: CratePackageView, b1: Seq<u8>, b2: Seq<u8>, i: int)
    requires
        signed_range(p, b1) is Some,
        signed_range(p, b2) is Some,
        0 <= i < p.crate_header.ds_offset + non_sig_data_len(p.section_index),
        !in_signature_index(p, i),
        b1[i] != b2[i],
    ensures
        signed_range(p, b1) != signed_range(p, b2),
{
    lemma_signed_range_bytes(p, b1, i);
    lemma_signed_range_bytes(p, b2, i);
}

/// The section that entry `k` of the index names is read from the bytes
/// at the entry's offset.
pub proof fn lemma_parse_sections_at(region: Seq<u8>, index: Seq<SectionIndexEntry>, k: int)
    requires
        0 <= k < index.len(),
    ensures
        parse_sections(region, index) matches Ok(ds) ==> ds.len() == index.len()
            && parse_indexed_section(region, index[k]) == Ok::<DataSectionView, DecodeError>(
            ds[k],
        ),
    decreases index.len(),
{
    if k < index.len() - 1 {
        lemma_parse_sections_at(region, index.drop_last(), k);
    } else {
        crate::utils::decode::lemma_parse_sections_indexed(region, index.drop_last());
    }
}

/// Signature coverage, crate binary. The crate binary of a container that
/// was read is the bytes of the container at the place that the first
/// index entry of type 3 names: what a signature over the crate binary
/// covers is exactly these bytes.
pub proof fn lemma_crate_binary_bytes(b: Seq<u8>)
    ensures
        parse_package(b) matches Ok(p) ==> match first_of_type(p.section_index, 3) {
            Some(k) => binary_in(p) == Ok::<Seq<u8>, DecodeError>(
                b.subrange(
                    p.crate_header.ds_offset + p.section_index[k].sh_offset,
                    p.crate_header.ds_offset + p.section_index[k].sh_offset
                        + p.section_index[k].sh_size,
                ),
            ),
            None => binary_in(p) == Err::<Seq<u8>, DecodeError>(
                DecodeError::MissingMandatorySection,
            ),
        },
{
    match parse_package(b) {
        Ok(p) => {
            lemma_first_of_type(p.section_index, 3);
            match first_of_type(p.section_index, 3) {
                Some(k) => {
                    let region = b.skip(p.crate_header.ds_offset as int);
                    let e = p.section_index[k];
                    lemma_parse_sections_at(region, p.section_index, k);
                    assert(region.subrange(e.sh_offset as int, e.sh_offset + e.sh_size)
                        =~= b.subrange(
                        p.crate_header.ds_offset + e.sh_offset,
                        p.crate_header.ds_offset + e.sh_offset + e.sh_size,
                    ));
                },
                None => {},
            }
        },
        Err(_) => {},
    }
}

/// In an index whose first `k` entries are not signature entries and
/// whose other entries are, `k` entries are not signature entries, and the
/// last of them is entry `k - 1`.
pub proof fn lemma_non_sig_first(s: Seq<SectionIndexEntry>, k: int)
    requires
        0 <= k <= s.len(),
        forall|i: int| 0 <= i < k ==> (#[trigger] s[i]).sh_type != 4,
        forall|i: int| k <= i < s.len() ==> (#[trigger] s[i]).sh_type == 4,
    ensures
        count_non_sig(s) == k,
        last_non_sig(s) == if k > 0 {
            Some(s[k - 1])
        } else {
            None
        },
    decreases s.len(),
{
    if s.len() > 0 {
        let r = s.drop_last();
        if s.len() > k {
            assert(s[s.len() - 1].sh_type == 4);
            lemma_non_sig_first(r, k);
        } else {
            assert(s[k - 1].sh_type != 4);
            lemma_non_sig_first(r, k - 1);
        }
    }
}

/// The bytes of the first `j` records come first among the bytes of all.
pub proof fn lemma_ser_records_prefix<T: Record>(s: Seq<T>, j: int)
    requires
        0 <= j <= s.len(),
    ensures
        j * T::width() <= ser_records(s).len(),
        ser_records(s).subrange(0, j * T::width()) == ser_records(s.take(j)),
    decreases s.len() - j,
{
    let w = T::width() as int;
    lemma_ser_records_len(s);
    lemma_ser_records_len(s.take(j));
    assert(j * w <= s.len() * w) by (nonlinear_arith)
        requires
            0 <= j <= s.len(),
            w >= 0,
    ;
    if j < s.len() {
        lemma_ser_records_prefix(s, j + 1);
        assert(s.take(j + 1).drop_last() =~= s.take(j));
        assert(j * w <= (j + 1) * w) by (nonlinear_arith)
            requires
                0 <= j,
                w >= 0,
        ;
        assert(ser_records(s).subrange(0, j * w) =~= ser_records(s).subrange(
            0,
            (j + 1) * w,
        ).subrange(0, j * w));
        assert(ser_records(s.take(j + 1)).subrange(0, j * w) =~= ser_records(s.take(j)));
    } else {
        assert(s.take(j) =~= s);
        assert(ser_records(s).subrange(0, ser_records(s).len() as int) =~= ser_records(s));
    }
}

/// What a signature over the whole container covers, for the container of
/// a package: magic number, header and string table, the index entries of
/// the three sections that are not signatures, zero bytes for the index
/// entries of the signatures, and those three sections.
pub open spec fn signed_part(m: PackageContextView) -> Seq<u8> {
    let t = m.string_table();
    let plain = m.plain_sections(t);
    MAGIC_NUMBER@ + ser_header(header_of(table_len(t), m.data_sections().len())) + ser_table(t)
        + ser_records(index_of_sections(plain)) + Seq::new(m.sigs.len() * 9, |i: int| 0u8)
        + ser_sections(plain)
}

/// Bytes of which a window is replaced by zero bytes, cut after `d` bytes
/// of `data`, are the bytes before the window, the zero bytes, and those
/// `d` bytes.
pub proof fn lemma_zeroed_window(
    head: Seq<u8>,
    idx: Seq<u8>,
    data: Seq<u8>,
    tail: Seq<u8>,
    k: int,
    d: int,
)
    requires
        0 <= k <= idx.len(),
        0 <= d <= data.len(),
    ensures
        Seq::new(
            (head.len() + idx.len() + d) as nat,
            |i: int|
                if head.len() + k <= i < head.len() + idx.len() {
                    0u8
                } else {
                    (head + idx + data + tail)[i]
                },
        ) == head + idx.subrange(0, k) + Seq::new((idx.len() - k) as nat, |i: int| 0u8)
            + data.subrange(0, d),
{
    let b = head + idx + data + tail;
    let r = Seq::new(
        (head.len() + idx.len() + d) as nat,
        |i: int|
            if head.len() + k <= i < head.len() + idx.len() {
                0u8
            } else {
                b[i]
            },
    );
    let want = head + idx.subrange(0, k) + Seq::new((idx.len() - k) as nat, |i: int| 0u8)
        + data.subrange(0, d);
    assert(r =~= want);
}

/// Where the parts of a package's container lie, and what the first three
/// index entries and data sections are.
pub proof fn lemma_layout_numbers(m: PackageContextView, fp: Seq<u8>)
    requires
        m.fits(),
    ensures
        ({
            let p = m.package(fp);
            let t = m.string_table();
            let plain = m.plain_sections(t);
            let head = MAGIC_NUMBER@ + ser_header(p.crate_header) + ser_table(t);
            &&& p.crate_header.si_offset == head.len()
            &&& p.crate_header.si_size == ser_records(p.section_index).len()
            &&& p.crate_header.ds_offset == head.len() + ser_records(p.section_index).len()
            &&& ser_records(p.section_index).len() == 27 + m.sigs.len() * 9
            &&& count_non_sig(p.section_index) == 3
            &&& non_sig_data_len(p.section_index) == ser_sections(plain).len()
            &&& ser_sections(plain).len() <= ser_sections(p.data_sections).len()
            &&& ser_records(p.section_index).subrange(0, 27) == ser_records(
                index_of_sections(plain),
            )
            &&& ser_sections(p.data_sections).subrange(0, ser_sections(plain).len() as int)
                == ser_sections(plain)
        }),
{
    let p = m.package(fp);
    let t = m.string_table();
    let ds = m.data_sections();
    let plain = m.plain_sections(t);
    let index = p.section_index;
    let h = p.crate_header;
    assert(ds[0] == plain[0] && ds[1] == plain[1] && ds[2] == plain[2]);
    assert forall|i: int| 3 <= i < index.len() implies (#[trigger] index[i]).sh_type == 4 by {
        assert(ds[i] == sig_sections(m.sigs)[i - 3]);
    }
    lemma_index_fits_at(ds, 0);
    lemma_index_fits_at(ds, 1);
    lemma_index_fits_at(ds, 2);
    lemma_non_sig_first(index, 3);
    assert(ds.take(3) =~= plain);
    lemma_ser_sections_prefix(ds, 3);
    lemma_index_fits_take(ds, 3);
    crate::utils::context::lemma_ser_table_len(t);
    lemma_ser_records_len(index);
    lemma_ser_records_prefix(index, 3);
    h.lemma_record();
}

/// What a signature over the whole container covers is made of the parts
/// of the package that are not signatures, and of the number of
/// signatures.
pub proof fn lemma_signed_range_of_package(m: PackageContextView, fp: Seq<u8>)
    requires
        m.fits(),
    ensures
        signed_range(m.package(fp), ser_package(m.package(fp))) == Some(signed_part(m)),
{
    let p = m.package(fp);
    let t = m.string_table();
    let plain = m.plain_sections(t);
    let head = MAGIC_NUMBER@ + ser_header(p.crate_header) + ser_table(t);
    let idx = ser_records(p.section_index);
    let data = ser_sections(p.data_sections);
    lemma_layout_numbers(m, fp);
    lemma_zeroed_window(head, idx, data, fp, 27, ser_sections(plain).len() as int);
    assert(ser_package(p) == head + idx + data + fp);
    assert(Seq::new((idx.len() - 27) as nat, |i: int| 0u8) =~= Seq::new(
        m.sigs.len() * 9,
        |i: int| 0u8,
    ));
    let total = p.crate_header.ds_offset + non_sig_data_len(p.section_index);
    assert(total == head.len() + idx.len() + ser_sections(plain).len());
    assert(signed_range(p, ser_package(p)).unwrap() =~= signed_part(m));
}

/// What a signature over the whole container covers does not depend on
/// the signatures: the slots that the signers sign over and the blobs
/// that a verifier finds in their place lead to the same bytes.
pub proof fn lemma_signed_range_ignores_signatures(
    m1: PackageContextView,
    m2: PackageContextView,
    fp1: Seq<u8>,
    fp2: Seq<u8>,
)
    requires
        m1.fits(),
        m2.fits(),
        same_but_sig_payloads(m1, m2),
    ensures
        signed_range(m1.package(fp1), ser_package(m1.package(fp1))) == signed_range(
            m2.package(fp2),
            ser_package(m2.package(fp2)),
        ),
{
    lemma_signed_range_of_package(m1, fp1);
    lemma_signed_range_of_package(m2, fp2);
    assert(m1.strings() == m2.strings());
    assert(m1.data_sections().len() == m2.data_sections().len());
}

/// What the signers sign is what a verifier checks. The digests that a
/// verifier computes from the container of a package are those of the
/// signed part and of the crate binary; and neither these nor the messages
/// that the signers sign depend on the sizes and blobs of the signatures,
/// so that it does not matter that the signers sign while the slots are
/// still empty.
pub proof fn lemma_signers_and_verifier_agree(
    slots: PackageContextView,
    m: PackageContextView,
    fp: Seq<u8>,
)
    requires
        m.fits(),
        same_but_sig_payloads(slots, m),
    ensures
        covered_digests(m.package(fp), ser_package(m.package(fp))) == Some(
            (spec_sha256(signed_part(m)), spec_sha256(m.crate_binary)),
        ),
        signed_part(slots) == signed_part(m),
        messages_to_sign(slots) == messages_to_sign(m),
{
    lemma_signed_range_of_package(m, fp);
    lemma_layout(m, fp);
    let ds = m.data_sections();
    assert(ds[2] == m.plain_sections(m.string_table())[2]);
    assert(slots.strings() == m.strings());
    assert(slots.data_sections().len() == m.data_sections().len());
    assert(messages_to_sign(slots) =~= messages_to_sign(m));
}

/// The package `m` without its signatures.
pub open spec fn unsigned(m: PackageContextView) -> PackageContextView {
    PackageContextView { sigs: Seq::empty(), ..m }
}

/// A package that fits its container fits it without its signatures too.
pub proof fn lemma_unsigned_fits(m: PackageContextView)
    requires
        m.fits(),
    ensures
        unsigned(m).fits(),
        unsigned(m).string_table() == m.string_table(),
        unsigned(m).data_sections() == m.plain_sections(m.string_table()),
{
    let u = unsigned(m);
    let t = m.string_table();
    let plain = m.plain_sections(t);
    assert(u.strings() == m.strings());
    assert(sig_sections(u.sigs) =~= Seq::<DataSectionView>::empty());
    assert(u.data_sections() =~= plain);
    assert(m.data_sections().take(3) =~= plain);
    lemma_index_fits_take(m.data_sections(), 3);
}

/// The parts of which the signed part of a container is made can be told
/// from it: the number of signatures, and the bytes of the string table,
/// of the index entries and of the data sections that are not signatures.
pub proof fn lemma_signed_part_parts(m1: PackageContextView, m2: PackageContextView)
    requires
        m1.fits(),
        m2.fits(),
        signed_part(m1) == signed_part(m2),
    ensures
        m1.sigs.len() == m2.sigs.len(),
        table_len(m1.string_table()) == table_len(m2.string_table()),
        ser_table(m1.string_table()) == ser_table(m2.string_table()),
        ser_records(index_of_sections(m1.plain_sections(m1.string_table()))) == ser_records(
            index_of_sections(m2.plain_sections(m2.string_table())),
        ),
        ser_sections(m1.plain_sections(m1.string_table())) == ser_sections(
            m2.plain_sections(m2.string_table()),
        ),
{
    let s = signed_part(m1);
    let t1 = m1.string_table();
    let t2 = m2.string_table();
    let h1 = header_of(table_len(t1), m1.data_sections().len());
    let h2 = header_of(table_len(t2), m2.data_sections().len());
    let i1 = ser_records(index_of_sections(m1.plain_sections(t1)));
    let i2 = ser_records(index_of_sections(m2.plain_sections(t2)));
    let z1 = Seq::new(m1.sigs.len() * 9, |i: int| 0u8);
    let z2 = Seq::new(m2.sigs.len() * 9, |i: int| 0u8);
    let d1 = ser_sections(m1.plain_sections(t1));
    let d2 = ser_sections(m2.plain_sections(t2));
    h1.lemma_record();
    h2.lemma_record();
    crate::utils::context::lemma_ser_table_len(t1);
    crate::utils::context::lemma_ser_table_len(t2);
    lemma_ser_records_len(index_of_sections(m1.plain_sections(t1)));
    lemma_ser_records_len(index_of_sections(m2.plain_sections(t2)));
    assert(s.subrange(5, 30) =~= ser_header(h1));
    assert(signed_part(m2).subrange(5, 30) =~= ser_header(h2));
    assert(h1 == h2);
    let tl = table_len(t1) as int;
    assert(table_len(t2) == tl);
    assert(m1.data_sections().len() == m2.data_sections().len());
    assert(m1.sigs.len() == m2.sigs.len());
    assert(s.subrange(30, 30 + tl) =~= ser_table(t1));
    assert(signed_part(m2).subrange(30, 30 + tl) =~= ser_table(t2));
    assert(s.subrange(30 + tl, 30 + tl + 27) =~= i1);
    assert(signed_part(m2).subrange(30 + tl, 30 + tl + 27) =~= i2);
    let k9 = m1.sigs.len() * 9;
    assert(s.skip(30 + tl + 27 + k9) =~= d1);
    assert(signed_part(m2).skip(30 + tl + 27 + k9) =~= d2);
}

/// Signature coverage. The signed part of a container determines the
/// package: two packages whose containers have the same signed part have
/// the same description, the same dependencies to be written and the same
/// crate binary. So no part of a package can be changed without a change
/// in the bytes whose digest a signature over the whole container signs.
pub proof fn lemma_signed_part_determines_package(m1: PackageContextView, m2: PackageContextView)
    requires
        m1.fits(),
        m2.fits(),
        signed_part(m1) == signed_part(m2),
    ensures
        m1.pack_info == m2.pack_info,
        dumped(m1.dep_infos) == dumped(m2.dep_infos),
        m1.crate_binary == m2.crate_binary,
        m1.sigs.len() == m2.sigs.len(),
{
    let u1 = unsigned(m1);
    let u2 = unsigned(m2);
    let fp = Seq::new(32, |i: int| 0u8);
    let roots = Seq::<Seq<u8>>::empty();
    lemma_signed_part_parts(m1, m2);
    lemma_unsigned_fits(m1);
    lemma_unsigned_fits(m2);
    let p1 = u1.package(fp);
    let p2 = u2.package(fp);
    assert(ser_package(p1) == ser_package(p2));
    assert(sig_sizes_valid(u1.sigs) && sig_types_valid(u1.sigs));
    assert(sig_sizes_valid(u2.sigs) && sig_types_valid(u2.sigs));
    lemma_package_laid_out(u1, fp);
    lemma_package_laid_out(u2, fp);
    lemma_package_roundtrip(p1);
    lemma_package_roundtrip(p2);
    assert(p1 == p2);
    lemma_model_of_package(u1, fp, roots);
    lemma_model_of_package(u2, fp, roots);
    assert(decoded_from(u1, roots) == decoded_from(u2, roots));
}

/// Where the entries before entry `k` can be read, and entry `k` has a
/// name and a version requirement that resolve but a source type code
/// that is none of 0 to 4, the dependency table cannot be read, for its
/// source type code.
pub proof fn lemma_dep_infos_invalid_source(t: Seq<Seq<char>>, es: Seq<DepTableEntry>, k: int)
    requires
        0 <= k < es.len(),
        forall|j: int| 0 <= j < k ==> dep_info_of(t, #[trigger] es[j]) is Ok,
        lookup(t, es[k].dep_name as nat) is Some,
        lookup(t, es[k].dep_verreq as nat) is Some,
        es[k].dep_srctype > 4,
    ensures
        dep_infos_of(t, es) == Err::<Seq<DepInfoView>, DecodeError>(
            DecodeError::InvalidSourceTypeCode,
        ),
{
    lemma_dep_infos_prefix_ok(t, es, k);
    assert(es.take(k + 1).drop_last() =~= es.take(k));
    assert(es.take(k + 1).last() == es[k]);
    lemma_dep_infos_err(t, es, k + 1);
}

/// Where each of the first `n` entries can be read, so can the first `n`
/// together.
pub proof fn lemma_dep_infos_prefix_ok(t: Seq<Seq<char>>, es: Seq<DepTableEntry>, n: int)
    requires
        0 <= n <= es.len(),
        forall|j: int| 0 <= j < n ==> dep_info_of(t, #[trigger] es[j]) is Ok,
    ensures
        dep_infos_of(t, es.take(n)) is Ok,
    decreases n,
{
    if n == 0 {
        assert(es.take(0) =~= Seq::<DepTableEntry>::empty());
    } else {
        lemma_dep_infos_prefix_ok(t, es, n - 1);
        assert(es.take(n).drop_last() =~= es.take(n - 1));
        assert(es.take(n).last() == es[n - 1]);
    }
}

/// An unknown source type is refused. Bytes with a right fingerprint that
/// hold a readable container, string table and package description, and
/// whose dependency table has an entry with a source type code that is
/// none of 0 to 4, are refused with `InvalidSourceTypeCode`, where the
/// entries before that entry can be read and its name and version
/// requirement resolve.
pub proof fn lemma_invalid_source_type(b: Seq<u8>, roots: Seq<Seq<u8>>, k: int)
    requires
        fingerprint_ok(b),
        parse_package(b) is Ok,
        read_table(parse_package(b)->Ok_0.string_table) is Ok,
        pack_info_in(
            parse_package(b)->Ok_0,
            read_table(parse_package(b)->Ok_0.string_table)->Ok_0,
        ) is Ok,
        parse_package(b)->Ok_0.section_of_type(1) matches Some(
            DataSectionView::DepTableSection(d),
        ) && {
            let t = read_table(parse_package(b)->Ok_0.string_table)->Ok_0;
            &&& 0 <= k < d.entries.len()
            &&& forall|j: int| 0 <= j < k ==> dep_info_of(t, #[trigger] d.entries[j]) is Ok
            &&& lookup(t, d.entries[k].dep_name as nat) is Some
            &&& lookup(t, d.entries[k].dep_verreq as nat) is Some
            &&& d.entries[k].dep_srctype > 4
        },
    ensures
        decode_model(b, roots) == Err::<PackageContextView, DecodeError>(
            DecodeError::InvalidSourceTypeCode,
        ),
{
    let p = parse_package(b)->Ok_0;
    let t = read_table(p.string_table)->Ok_0;
    match p.section_of_type(1) {
        Some(DataSectionView::DepTableSection(d)) => {
            lemma_dep_infos_invalid_source(t, d.entries, k);
        },
        _ => {},
    }
}

/// The dependency table entry `e` with the source type code `code`.
pub open spec fn with_code(e: DepTableEntry, code: u8) -> DepTableEntry {
    DepTableEntry { dep_srctype: code, ..e }
}

/// The container of the package `m` with fingerprint `fp`, but with
/// `code` as the source type code of entry `k` of its dependency table.
pub open spec fn with_source_code(
    m: PackageContextView,
    fp: Seq<u8>,
    k: int,
    code: u8,
) -> CratePackageView {
    let p = m.package(fp);
    let d = dep_table_of(m.string_table(), dumped(m.dep_infos));
    let changed = DepTableSectionView {
        entries: d.entries.update(k, with_code(d.entries[k], code)),
        ..d
    };
    CratePackageView {
        data_sections: p.data_sections.update(1, DataSectionView::DepTableSection(changed)),
        ..p
    }
}

/// A section put in the place of one that takes as many bytes leaves
/// every section where it was.
pub proof fn lemma_section_offsets_update(
    ds: Seq<DataSectionView>,
    j: int,
    x: DataSectionView,
    i: int,
)
    requires
        0 <= j < ds.len(),
        0 <= i <= ds.len(),
        ser_section(x).len() == ser_section(ds[j]).len(),
    ensures
        section_offset(ds.update(j, x), i) == section_offset(ds, i),
    decreases i,
{
    reveal(section_offset);
    let ds2 = ds.update(j, x);
    if i == 0 {
        assert(ds2.take(0) =~= ds.take(0));
    } else {
        lemma_section_offsets_update(ds, j, x, i - 1);
        lemma_ser_sections_take(ds, i - 1);
        lemma_ser_sections_take(ds2, i - 1);
    }
}

/// A section put in the place of one of its type that takes as many
/// bytes leaves the section index as it was.
pub proof fn lemma_index_update(ds: Seq<DataSectionView>, j: int, x: DataSectionView)
    requires
        0 <= j < ds.len(),
        index_fits(ds),
        ser_section(x).len() == ser_section(ds[j]).len(),
        x.type_code() == ds[j].type_code(),
    ensures
        index_fits(ds.update(j, x)),
        index_of_sections(ds.update(j, x)) == index_of_sections(ds),
{
    let ds2 = ds.update(j, x);
    assert forall|i: int| 0 <= i < ds2.len() implies (#[trigger] section_offset(ds2, i))
        <= u32::MAX && ser_section(ds2[i]).len() <= u32::MAX && index_of_sections(ds2)[i]
        == index_of_sections(ds)[i] by {
        lemma_section_offsets_update(ds, j, x, i);
        lemma_index_fits_at(ds, i);
    }
    lemma_index_fits_intro(ds2);
    assert(index_of_sections(ds2) =~= index_of_sections(ds));
}

/// The container of a package with another source type code in one entry
/// of its dependency table is laid out as the container of the package
/// is: the code takes no more room.
pub proof fn lemma_with_source_code_laid_out(
    m: PackageContextView,
    fp: Seq<u8>,
    k: int,
    code: u8,
)
    requires
        m.fits(),
        sig_sizes_valid(m.sigs),
        fp.len() == 32,
        0 <= k < dumped(m.dep_infos).len(),
    ensures
        with_source_code(m, fp, k, code).laid_out(),
        with_source_code(m, fp, k, code).section_index == m.package(fp).section_index,
{
    let p = m.package(fp);
    let p2 = with_source_code(m, fp, k, code);
    let ds = p.data_sections;
    let t = m.string_table();
    let d = dep_table_of(t, dumped(m.dep_infos));
    let changed = DepTableSectionView {
        entries: d.entries.update(k, with_code(d.entries[k], code)),
        ..d
    };
    let x = DataSectionView::DepTableSection(changed);
    lemma_package_laid_out(m, fp);
    assert(ds[1] == m.plain_sections(t)[1]);
    lemma_ser_records_len(d.entries);
    lemma_ser_records_len(changed.entries);
    lemma_index_update(ds, 1, x);
    assert forall|i: int| 0 <= i < p2.data_sections.len() implies (
    #[trigger] p2.data_sections[i]).wf() by {
        if i != 1 {
            assert(p2.data_sections[i] == ds[i]);
            assert(ds[i].wf());
        }
    }
}

/// What can be read of the container of a package with a source type
/// code that is none of 0 to 4 in entry `k` of its dependency table: the
/// package's description, the entries before entry `k`, and name and
/// version requirement of entry `k`.
pub proof fn lemma_with_source_code_read(m: PackageContextView, fp: Seq<u8>, k: int, code: u8)
    requires
        m.fits(),
        0 <= k < dumped(m.dep_infos).len(),
    ensures
        ({
            let p2 = with_source_code(m, fp, k, code);
            let t = m.string_table();
            &&& read_table(p2.string_table) == Ok::<Seq<Seq<char>>, DecodeError>(t)
            &&& pack_info_in(p2, t) is Ok
            &&& p2.section_of_type(1) == Some(p2.data_sections[1])
            &&& p2.data_sections[1] matches DataSectionView::DepTableSection(d) && {
                &&& k < d.entries.len()
                &&& forall|j: int| 0 <= j < k ==> dep_info_of(t, #[trigger] d.entries[j]) is Ok
                &&& lookup(t, d.entries[k].dep_name as nat) is Some
                &&& lookup(t, d.entries[k].dep_verreq as nat) is Some
                &&& d.entries[k].dep_srctype == code
            }
        }),
{
    let p2 = with_source_code(m, fp, k, code);
    let t = m.string_table();
    let deps = dumped(m.dep_infos);
    let ds = m.data_sections();
    lemma_layout(m, fp);
    lemma_string_table_dedup(m);
    lemma_table_roundtrip(t);
    lemma_strings_held(m);
    assert(ds[0] == m.plain_sections(t)[0]);
    assert(p2.data_sections[0] == ds[0]);
    assert(p2.section_index == m.package(fp).section_index);
    assert(pack_info_in(p2, t) is Ok) by {
        lemma_package_info_roundtrip(t, m.pack_info);
    }
    lemma_dep_strings_hold(deps, t);
    lemma_dumped_marked(m.dep_infos);
    let es = p2.data_sections[1]->DepTableSection_0.entries;
    assert forall|j: int| 0 <= j < k implies dep_info_of(t, #[trigger] es[j]) is Ok by {
        assert(es[j] == dep_entry_of(t, deps[j]));
        lemma_dep_info_roundtrip(t, deps[j]);
    }
    assert(lookup(t, es[k].dep_name as nat) is Some && lookup(t, es[k].dep_verreq as nat)
        is Some) by {
        let ss = deps[k].strings();
        assert(ss[0] == deps[k].name && ss[1] == deps[k].ver_req);
        lemma_lookup_off(t, ss[0]);
        lemma_lookup_off(t, ss[1]);
    }
}

/// An unknown source type in a container. Take the container of a package
/// that fits, put a source type code that is none of 0 to 4 into one
/// entry of its dependency table, which changes one byte (see
/// [`lemma_with_source_code_bytes`]), and write the fingerprint anew: the
/// bytes are refused with `InvalidSourceTypeCode`.
pub proof fn lemma_unknown_source_type_refused(
    m: PackageContextView,
    roots: Seq<Seq<u8>>,
    k: int,
    code: u8,
)
    requires
        m.fits(),
        sig_sizes_valid(m.sigs),
        0 <= k < dumped(m.dep_infos).len(),
        code > 4,
        spec_sha256(ser_package_body(with_source_code(m, Seq::empty(), k, code))).len() == 32,
    ensures
        ({
            let body = ser_package_body(with_source_code(m, Seq::empty(), k, code));
            decode_model(body + spec_sha256(body), roots) == Err::<
                PackageContextView,
                DecodeError,
            >(DecodeError::InvalidSourceTypeCode)
        }),
{
    let body = ser_package_body(with_source_code(m, Seq::empty(), k, code));
    let fp = spec_sha256(body);
    let b = body + fp;
    let p2 = with_source_code(m, fp, k, code);
    assert(ser_package_body(p2) == body);
    assert(b == ser_package(p2));
    assert(fingerprint_ok(b)) by {
        assert(b.take(b.len() - 32) =~= body);
        assert(b.skip(b.len() - 32) =~= fp);
    }
    assert(parse_package(b) == Ok::<CratePackageView, DecodeError>(p2)) by {
        lemma_with_source_code_laid_out(m, fp, k, code);
        lemma_package_roundtrip(p2);
    }
    lemma_with_source_code_read(m, fp, k, code);
    lemma_invalid_source_type(b, roots, k);
}

/// Another source type code changes one byte of an entry: the ninth.
pub proof fn lemma_ser_dep_entry_code(e: DepTableEntry, code: u8)
    ensures
        ser_dep_entry(with_code(e, code)) == ser_dep_entry(e).update(8, code),
        ser_dep_entry(e).len() == 17,
{
    lemma_auto_spec_u32_to_from_le_bytes();
    assert(ser_dep_entry(with_code(e, code)) =~= ser_dep_entry(e).update(8, code));
}

/// A record put in the place of one from which it differs in one byte
/// changes that byte of the array's bytes.
pub proof fn lemma_ser_records_update<T: Record>(s: Seq<T>, k: int, x: T, r: int, v: u8)
    requires
        0 <= k < s.len(),
        0 <= r < T::width(),
        x.to_bytes() == s[k].to_bytes().update(r, v),
    ensures
        k * T::width() + r < ser_records(s).len(),
        ser_records(s.update(k, x)) == ser_records(s).update(k * T::width() + r, v),
    decreases s.len(),
{
    let w = T::width() as int;
    let n = s.len() as int;
    let s2 = s.update(k, x);
    let a = ser_records(s.drop_last());
    lemma_ser_records_len(s);
    lemma_ser_records_len(s.drop_last());
    s[k].lemma_record();
    s.last().lemma_record();
    assert(k * w + w <= n * w) by (nonlinear_arith)
        requires
            0 <= k < n,
            w > 0,
    ;
    assert((n - 1) * w + w == n * w) by (nonlinear_arith);
    if k == n - 1 {
        assert(s2.drop_last() =~= s.drop_last());
        assert(s2.last() == x);
        assert(ser_records(s2) =~= ser_records(s).update(k * w + r, v));
    } else {
        assert(s2.drop_last() =~= s.drop_last().update(k, x));
        assert(s2.last() == s.last());
        assert(s.drop_last()[k] == s[k]);
        lemma_ser_records_update(s.drop_last(), k, x, r, v);
        assert(ser_records(s2) =~= ser_records(s).update(k * w + r, v));
    }
}

/// A section put in the place of one from which it differs in one byte
/// changes that byte of the sections' bytes.
pub proof fn lemma_ser_sections_update(
    ds: Seq<DataSectionView>,
    j: int,
    x: DataSectionView,
    r: int,
    v: u8,
)
    requires
        0 <= j < ds.len(),
        0 <= r < ser_section(ds[j]).len(),
        ser_section(x) == ser_section(ds[j]).update(r, v),
    ensures
        section_offset(ds, j) + r < ser_sections(ds).len(),
        ser_sections(ds.update(j, x)) == ser_sections(ds).update(section_offset(ds, j) + r, v),
    decreases ds.len(),
{
    reveal(section_offset);
    let n = ds.len() as int;
    let ds2 = ds.update(j, x);
    let a = ser_sections(ds.drop_last());
    if j == n - 1 {
        assert(ds2.drop_last() =~= ds.drop_last());
        assert(ds2.last() == x);
        assert(ds.take(j) =~= ds.drop_last());
        assert(ser_sections(ds2) =~= ser_sections(ds).update(a.len() + r, v));
    } else {
        assert(ds2.drop_last() =~= ds.drop_last().update(j, x));
        assert(ds2.last() == ds.last());
        assert(ds.drop_last()[j] == ds[j]);
        assert(ds.drop_last().take(j) =~= ds.take(j));
        lemma_ser_sections_update(ds.drop_last(), j, x, r, v);
        assert(ser_sections(ds2) =~= ser_sections(ds).update(section_offset(ds, j) + r, v));
    }
}

/// Where the source type code of entry `k` of the dependency table lies
/// in the container of the package `m`: behind magic number, header,
/// string table, section index, the package section, the count of the
/// table, `k` entries, and the entry's name and version requirement.
pub open spec fn source_code_position(m: PackageContextView, k: int) -> int {
    30 + table_len(m.string_table()) + m.data_sections().len() * 9 + section_offset(
        m.data_sections(),
        1,
    ) + 4 + k * 17 + 8
}

/// The container with another source type code in entry `k` of its
/// dependency table is the container of the package with one byte
/// changed: the byte at [`source_code_position`].
pub proof fn lemma_with_source_code_bytes(m: PackageContextView, fp: Seq<u8>, k: int, code: u8)
    requires
        m.fits(),
        0 <= k < dumped(m.dep_infos).len(),
    ensures
        0 <= source_code_position(m, k) < m.body().len(),
        ser_package_body(with_source_code(m, fp, k, code)) == m.body().update(
            source_code_position(m, k),
            code,
        ),
{
    let p = m.package(fp);
    let p2 = with_source_code(m, fp, k, code);
    let ds = m.data_sections();
    let t = m.string_table();
    let d = dep_table_of(t, dumped(m.dep_infos));
    let e2 = with_code(d.entries[k], code);
    let changed = DepTableSectionView { entries: d.entries.update(k, e2), ..d };
    let x = DataSectionView::DepTableSection(changed);
    assert(ds[1] == m.plain_sections(t)[1]);
    assert(ds[1] == DataSectionView::DepTableSection(d));
    lemma_auto_spec_u32_to_from_le_bytes();
    lemma_ser_dep_entry_code(d.entries[k], code);
    lemma_ser_records_update(d.entries, k, e2, 8, code);
    lemma_ser_records_len(d.entries);
    let r = 4 + k * 17 + 8;
    assert(ser_section(x) =~= ser_section(ds[1]).update(r, code));
    lemma_ser_sections_update(ds, 1, x, r, code);
    let head = MAGIC_NUMBER@ + ser_header(p.crate_header) + ser_table(t) + ser_records(
        p.section_index,
    );
    p.crate_header.lemma_record();
    crate::utils::context::lemma_ser_table_len(t);
    lemma_ser_records_len(p.section_index);
    assert(head.len() == 30 + table_len(t) + ds.len() * 9);
    assert(m.body() == head + ser_sections(ds));
    assert(ser_package_body(p2) == head + ser_sections(ds.update(1, x)));
    assert(ser_package_body(p2) =~= m.body().update(source_code_position(m, k), code));
}

} // verus!
