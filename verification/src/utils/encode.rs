//! The encoder: from a package to the bytes of its container.
//!
//! The container is laid out in three steps. First the data sections are
//! written with a slot of zero bytes for every signature, as long as the
//! signer's signature will be. Then the signers sign: what a signature over
//! the whole container covers does not reach into the slots, so the
//! signatures can be put into them afterwards. Last, the fingerprint is
//! taken over all that stands before it.
use crate::utils::context::{
    blobs, dep_entry_of, intern_all, lemma_intern_all, lemma_intern_all_concat,
    lemma_prefix_offset, lemma_prefix_table_len, lemma_ser_table_len, off, offs,
    package_section_of, ser_table, sigs_view, table_len, DepInfoView, PackageContext,
    PackageContextView, PackageInfoView, SigInfo, SigInfoView, StringTable, NOT_SIG_NUM,
};
use crate::utils::decode::{decode_model, fingerprint_ok, lemma_last_non_sig, signed_range};
use crate::utils::error::DecodeError;
use crate::utils::laws::{
    decoded_from, lemma_roundtrip, lemma_signed_range_of_package, signed_part,
};
use crate::utils::error::EncodeError;
use crate::utils::package::codec::{
    first_of_type, index_fits, index_of_sections, last_non_sig, lemma_first_of_type,
    lemma_index_fits_at, lemma_index_fits_intro, lemma_index_fits_not, lemma_ser_records_len,
    lemma_ser_sections_take, section_offset, ser_package, ser_package_body, ser_section,
    ser_sections, zeros, Record,
};
use crate::utils::package::{
    datasection_type, CrateBinarySection, CrateHeader, CratePackage, CratePackageView, DataSection,
    DataSectionCollectionType, DataSectionView, DepTableEntry, DepTableSection,
    DepTableSectionView, LenArrayType, PackageSection, RawArrayType, SectionIndexEntry,
    SigStructureSection, CRATEVERSION, FINGERPRINT_LEN, MAGIC_NUMBER,
};
use crate::utils::pkcs::{
    encoder_error, is_too_long_encode_error, sha256, spec_sha256, too_long, too_long_text,
};
use vstd::bytes::lemma_auto_spec_u32_to_from_le_bytes;
use vstd::pervasive::unreached;
use vstd::prelude::*;
use vstd::slice::{slice_subrange, slice_to_vec};

verus! {

/// The header of a container whose string table takes `strtable_len` bytes
/// and whose section index has `si_num` entries: the string table follows
/// magic number and header, the section index follows the string table, and
/// the data sections follow the section index.
pub open spec fn header_of(strtable_len: nat, si_num: nat) -> CrateHeader {
    CrateHeader {
        c_version: 0,
        strtable_size: strtable_len as u32,
        strtable_offset: 30,
        si_size: (si_num * 9) as u32,
        si_offset: (30 + strtable_len) as u32,
        si_num: si_num as u32,
        ds_offset: (30 + strtable_len + si_num * 9) as u32,
    }
}

/// The fields of `header_of(strtable_len, si_num)` hold what they stand
/// for: none of them overflows.
pub open spec fn header_fits(strtable_len: nat, si_num: nat) -> bool {
    30 + strtable_len + si_num * 9 <= u32::MAX
}

impl DataSection {
    /// The number of bytes that the section is written as, where it fits
    /// in 32 bits.
    pub fn checked_size(&self) -> (r: Option<u32>)
        ensures
            match r {
                Some(n) => n == ser_section(self@).len(),
                None => ser_section(self@).len() > u32::MAX,
            },
    {
        proof {
            lemma_auto_spec_u32_to_from_le_bytes();
        }
        match self {
            DataSection::PackageSection(x) => {
                proof {
                    lemma_ser_records_len(x.pkg_authors.arr@);
                }
                if x.pkg_authors.arr.len() > 0x3fff_fffb {
                    None
                } else {
                    Some((16 + x.pkg_authors.arr.len() * 4) as u32)
                }
            },
            DataSection::DepTableSection(x) => {
                proof {
                    lemma_ser_records_len(x.entries.arr@);
                }
                if x.entries.arr.len() > 0x0f0f_0f0e {
                    None
                } else {
                    Some((4 + x.entries.arr.len() * 17) as u32)
                }
            },
            DataSection::CrateBinarySection(x) => {
                if x.bin.arr.len() > 0xffff_ffff {
                    None
                } else {
                    Some(x.bin.arr.len() as u32)
                }
            },
            DataSection::SigStructureSection(x) => {
                if x.sigstruct_sig.arr.len() > 0xffff_fffa {
                    None
                } else {
                    Some((5 + x.sigstruct_sig.arr.len()) as u32)
                }
            },
        }
    }
}

impl CratePackage {
    /// Makes the section index anew from the data sections: for each its
    /// type, where it starts, counted from the start of the data sections,
    /// and its size. Fails, and changes nothing, where an offset or a size
    /// does not fit in 32 bits.
    pub fn set_section_index(&mut self) -> (r: Result<(), EncodeError>)
        ensures
            match r {
                Ok(_) => {
                    &&& index_fits(old(self)@.data_sections)
                    &&& final(self)@ == (CratePackageView {
                        section_index: index_of_sections(old(self)@.data_sections),
                        ..old(self)@
                    })
                },
                Err(e) => {
                    &&& e == EncodeError::InputTooLarge
                    &&& !index_fits(old(self)@.data_sections)
                    &&& *final(self) == *old(self)
                },
            },
    {
        let ghost ds = self.data_sections@;
        let mut entries: Vec<SectionIndexEntry> = Vec::new();
        let mut offset: u64 = 0;
        let mut i: usize = 0;
        proof {
            reveal(section_offset);
            assert(ds.take(0) =~= Seq::<DataSectionView>::empty());
        }
        while i < self.data_sections.col.arr.len()
            invariant
                i <= ds.len(),
                ds == self.data_sections@,
                ds.len() == self.data_sections.col.arr@.len(),
                *self == *old(self),
                offset == section_offset(ds, i as int),
                offset <= 2 * u32::MAX,
                forall|j: int|
                    0 <= j < i ==> (#[trigger] section_offset(ds, j)) <= u32::MAX && ser_section(
                        ds[j],
                    ).len() <= u32::MAX,
                entries@ == index_of_sections(ds).take(i as int),
            decreases ds.len() - i,
        {
            proof {
                reveal(section_offset);
                lemma_ser_sections_take(ds, i as int);
            }
            let d = &self.data_sections.col.arr[i];
            let size = match d.checked_size() {
                Some(n) => n,
                None => {
                    proof {
                        lemma_index_fits_not(ds, i as int);
                    }
                    return Err(EncodeError::InputTooLarge);
                },
            };
            if offset > u32::MAX as u64 {
                proof {
                    lemma_index_fits_not(ds, i as int);
                }
                return Err(EncodeError::InputTooLarge);
            }
            entries.push(SectionIndexEntry::new(datasection_type(d), offset as u32, size));
            assert(entries@ =~= index_of_sections(ds).take(i + 1));
            offset = offset + size as u64;
            i = i + 1;
        }
        proof {
            assert(ds.take(ds.len() as int) =~= ds);
            assert(index_of_sections(ds).take(ds.len() as int) =~= index_of_sections(ds));
            lemma_index_fits_intro(ds);
        }
        self.section_index.entries.arr = entries;
        Ok(())
    }

    /// Takes the bytes of `str_table` as the string table.
    pub fn set_string_table(&mut self, str_table: &StringTable)
        requires
            str_table.wf(),
        ensures
            final(self)@ == (CratePackageView {
                string_table: ser_table(str_table@),
                ..old(self)@
            }),
    {
        self.string_table = RawArrayType::from_vec(str_table.to_bytes());
    }

    /// Derives the header from the string table and the section index, for
    /// an index that is to get `fake_num` more entries than it has. Fails,
    /// and changes nothing, where an offset or a size does not fit in 32
    /// bits.
    pub fn set_crate_header(&mut self, fake_num: usize) -> (r: Result<(), EncodeError>)
        ensures
            match r {
                Ok(_) => {
                    &&& header_fits(
                        old(self)@.string_table.len(),
                        old(self)@.section_index.len() + fake_num as nat,
                    )
                    &&& final(self)@ == (CratePackageView {
                        crate_header: header_of(
                            old(self)@.string_table.len(),
                            old(self)@.section_index.len() + fake_num as nat,
                        ),
                        ..old(self)@
                    })
                },
                Err(e) => {
                    &&& e == EncodeError::InputTooLarge
                    &&& !header_fits(
                        old(self)@.string_table.len(),
                        old(self)@.section_index.len() + fake_num as nat,
                    )
                    &&& *final(self) == *old(self)
                },
            },
    {
        let st = self.string_table.arr.len();
        let n = self.section_index.entries.arr.len();
        if st > 0xffff_ffff || n > 0xffff_ffff || fake_num > 0xffff_ffff {
            return Err(EncodeError::InputTooLarge);
        }
        let num: u64 = n as u64 + fake_num as u64;
        let ds_offset: u64 = 30 + st as u64 + num * 9;
        if ds_offset > u32::MAX as u64 {
            return Err(EncodeError::InputTooLarge);
        }
        self.crate_header = CrateHeader {
            c_version: CRATEVERSION,
            strtable_size: st as u32,
            strtable_offset: 30,
            si_size: (num * 9) as u32,
            si_offset: (30 + st as u64) as u32,
            si_num: num as u32,
            ds_offset: ds_offset as u32,
        };
        Ok(())
    }

    /// Sets the magic number.
    pub fn set_magic_numer(&mut self)
        ensures
            final(self)@ == (CratePackageView { magic_number: MAGIC_NUMBER@, ..old(self)@ }),
    {
        self.magic_number = MAGIC_NUMBER;
    }

    /// Takes the 32 bytes of `fp` as the fingerprint.
    pub fn set_finger_print(&mut self, fp: Vec<u8>)
        requires
            fp@.len() == 32,
        ensures
            final(self)@ == (CratePackageView { finger_print: fp@, ..old(self)@ }),
    {
        let mut finger_print: [u8; 32] = [0; 32];
        let mut i: usize = 0;
        while i < 32
            invariant
                i <= 32,
                fp@.len() == 32,
                forall|j: int| 0 <= j < i ==> finger_print@[j] == fp@[j],
            decreases 32 - i,
        {
            finger_print[i] = fp[i];
            i = i + 1;
        }
        assert(finger_print@ =~= fp@);
        self.finger_print = finger_print;
    }
}

/// The dependencies among `deps` that are marked to be written, in their
/// order.
pub open spec fn dumped(deps: Seq<DepInfoView>) -> Seq<DepInfoView>
    decreases deps.len(),
{
    if deps.len() == 0 {
        Seq::empty()
    } else if deps.last().dump {
        dumped(deps.drop_last()).push(deps.last())
    } else {
        dumped(deps.drop_last())
    }
}

/// The strings of the dependencies `deps` in the order in which they enter
/// the string table.
pub open spec fn dep_strings(deps: Seq<DepInfoView>) -> Seq<Seq<char>>
    decreases deps.len(),
{
    if deps.len() == 0 {
        Seq::empty()
    } else {
        dep_strings(deps.drop_last()) + deps.last().strings()
    }
}

/// The dependency table entries of `deps`, their strings taken by their
/// offsets in `t`.
pub open spec fn dep_entries_of(t: Seq<Seq<char>>, deps: Seq<DepInfoView>) -> Seq<DepTableEntry> {
    Seq::new(deps.len(), |i: int| dep_entry_of(t, deps[i]))
}

/// The dependency table section of `deps`.
pub open spec fn dep_table_of(t: Seq<Seq<char>>, deps: Seq<DepInfoView>) -> DepTableSectionView {
    DepTableSectionView { entries_len: deps.len() as u32, entries: dep_entries_of(t, deps) }
}

/// The signature sections of the signatures `sigs`, in their order.
pub open spec fn sig_sections(sigs: Seq<SigInfoView>) -> Seq<DataSectionView> {
    Seq::new(sigs.len(), |i: int| DataSectionView::SigStructureSection(sigs[i].section()))
}

/// The first `n` of the sections `ds`, or all where there are fewer.
pub open spec fn first_sections(ds: Seq<DataSectionView>, n: int) -> Seq<DataSectionView> {
    if n <= ds.len() {
        ds.take(n)
    } else {
        ds
    }
}

/// The table `t` holds every string of `ss`.
pub open spec fn holds_all(t: Seq<Seq<char>>, ss: Seq<Seq<char>>) -> bool {
    forall|i: int| 0 <= i < ss.len() ==> t.contains(#[trigger] ss[i])
}

/// The signatures `a` and `b` are by the same signers and of the same
/// types, one for one.
pub open spec fn same_signers(a: Seq<SigInfoView>, b: Seq<SigInfoView>) -> bool {
    &&& a.len() == b.len()
    &&& forall|i: int|
        #![trigger a[i]]
        #![trigger b[i]]
        0 <= i < a.len() ==> a[i].typ == b[i].typ && a[i].pkcs == b[i].pkcs
}

/// Every signature is of type 0 or 1.
pub open spec fn sig_types_valid(sigs: Seq<SigInfoView>) -> bool {
    forall|i: int| 0 <= i < sigs.len() ==> (#[trigger] sigs[i]).typ <= 1
}

/// Every signature's size is the length of its blob and fits in 32 bits.
pub open spec fn sig_sizes_valid(sigs: Seq<SigInfoView>) -> bool {
    forall|i: int|
        0 <= i < sigs.len() ==> (#[trigger] sigs[i]).size == sigs[i].bin.len() && sigs[i].size
            <= u32::MAX
}

impl PackageContextView {
    /// The package has a name and a version.
    pub open spec fn complete(self) -> bool {
        self.pack_info.name.len() > 0 && self.pack_info.version.len() > 0
    }

    /// The strings of the package in the order in which they enter the
    /// string table: those of its description, then those of each
    /// dependency that is to be written.
    pub open spec fn strings(self) -> Seq<Seq<char>> {
        self.pack_info.strings() + dep_strings(dumped(self.dep_infos))
    }

    /// The string table of the package: the empty string, then each string
    /// of the package once, in the order of their first occurrence.
    pub open spec fn string_table(self) -> Seq<Seq<char>> {
        intern_all(seq![Seq::<char>::empty()], self.strings())
    }

    /// The data sections that are not signatures: package, dependency
    /// table, crate binary. Strings are held by their offsets in `t`.
    pub open spec fn plain_sections(self, t: Seq<Seq<char>>) -> Seq<DataSectionView> {
        seq![
            DataSectionView::PackageSection(package_section_of(t, self.pack_info)),
            DataSectionView::DepTableSection(dep_table_of(t, dumped(self.dep_infos))),
            DataSectionView::CrateBinarySection(self.crate_binary),
        ]
    }

    /// The data sections of the package's container: those that are not
    /// signatures, then one signature section for each signature, in their
    /// order.
    pub open spec fn data_sections(self) -> Seq<DataSectionView> {
        self.plain_sections(self.string_table()) + sig_sections(self.sigs)
    }

    /// The counts and the string table of the package fit the fields that
    /// hold them, when the table starts out as `t0`.
    pub open spec fn plain_fits(self, t0: Seq<Seq<char>>) -> bool {
        &&& self.pack_info.authors.len() <= u32::MAX
        &&& dumped(self.dep_infos).len() <= u32::MAX
        &&& table_len(intern_all(t0, self.strings())) <= u32::MAX
    }

    /// Every length and offset of the package's container fits the field
    /// that holds it.
    pub open spec fn fits(self) -> bool {
        &&& self.plain_fits(seq![Seq::<char>::empty()])
        &&& forall|i: int| 0 <= i < self.sigs.len() ==> (#[trigger] self.sigs[i]).size <= u32::MAX
        &&& index_fits(self.data_sections())
        &&& header_fits(table_len(self.string_table()), self.data_sections().len())
    }

    /// The container of the package with the fingerprint `fp`.
    pub open spec fn package(self, fp: Seq<u8>) -> CratePackageView {
        CratePackageView {
            magic_number: MAGIC_NUMBER@,
            crate_header: header_of(table_len(self.string_table()), self.data_sections().len()),
            string_table: ser_table(self.string_table()),
            section_index: index_of_sections(self.data_sections()),
            data_sections: self.data_sections(),
            finger_print: fp,
        }
    }

    /// The bytes of the package's container that the fingerprint covers.
    pub open spec fn body(self) -> Seq<u8> {
        ser_package_body(self.package(Seq::empty()))
    }

    /// The bytes of the package's container: the body, then its SHA-256
    /// digest.
    pub open spec fn bytes(self) -> Seq<u8> {
        self.body() + spec_sha256(self.body())
    }
}

/// A table that grew holds the strings of a description under the offsets
/// that they had.
pub proof fn lemma_package_section_prefix(
    t1: Seq<Seq<char>>,
    t2: Seq<Seq<char>>,
    info: PackageInfoView,
)
    requires
        t1.is_prefix_of(t2),
        holds_all(t1, info.strings()),
    ensures
        package_section_of(t2, info) == package_section_of(t1, info),
{
    let ss = info.strings();
    assert(ss[0] == info.name && ss[1] == info.version && ss[2] == info.license);
    lemma_prefix_offset(t1, t2, ss[0]);
    lemma_prefix_offset(t1, t2, ss[1]);
    lemma_prefix_offset(t1, t2, ss[2]);
    assert forall|i: int| 0 <= i < info.authors.len() implies off(t2, info.authors[i]) == off(
        t1,
        info.authors[i],
    ) by {
        assert(ss[3 + i] == info.authors[i]);
        lemma_prefix_offset(t1, t2, ss[3 + i]);
    }
    assert(offs(t2, info.authors) =~= offs(t1, info.authors));
}

/// A table that grew holds the strings of a dependency under the offsets
/// that they had.
pub proof fn lemma_dep_entry_prefix(t1: Seq<Seq<char>>, t2: Seq<Seq<char>>, d: DepInfoView)
    requires
        t1.is_prefix_of(t2),
        holds_all(t1, d.strings()),
    ensures
        dep_entry_of(t2, d) == dep_entry_of(t1, d),
        holds_all(t2, d.strings()),
{
    let ss = d.strings();
    assert(ss[0] == d.name && ss[1] == d.ver_req && ss[2] == d.src.path() && ss[3]
        == d.src_platform);
    lemma_prefix_offset(t1, t2, ss[0]);
    lemma_prefix_offset(t1, t2, ss[1]);
    lemma_prefix_offset(t1, t2, ss[2]);
    lemma_prefix_offset(t1, t2, ss[3]);
    assert forall|i: int| 0 <= i < ss.len() implies t2.contains(#[trigger] ss[i]) by {
        lemma_prefix_offset(t1, t2, ss[i]);
    }
}

/// The strings of the first `n` dependencies come first among the strings
/// of all.
pub proof fn lemma_dep_strings_take(deps: Seq<DepInfoView>, n: int)
    requires
        0 <= n <= deps.len(),
    ensures
        dep_strings(dumped(deps.take(n))).is_prefix_of(dep_strings(dumped(deps))),
        dumped(deps.take(n)).len() <= dumped(deps).len(),
    decreases deps.len() - n,
{
    if n < deps.len() {
        lemma_dep_strings_take(deps, n + 1);
        assert(deps.take(n + 1).drop_last() =~= deps.take(n));
        let a = dumped(deps.take(n));
        let b = dumped(deps.take(n + 1));
        if deps[n].dump {
            assert(b.drop_last() =~= a);
        }
    } else {
        assert(deps.take(n) =~= deps);
    }
}

/// Entering a list that starts with another list leaves a table that
/// starts with the other's table.
pub proof fn lemma_intern_all_prefix(t: Seq<Seq<char>>, a: Seq<Seq<char>>, b: Seq<Seq<char>>)
    requires
        a.is_prefix_of(b),
    ensures
        intern_all(t, a).is_prefix_of(intern_all(t, b)),
        table_len(intern_all(t, a)) <= table_len(intern_all(t, b)),
{
    lemma_intern_all(t, b);
    assert(b.take(a.len() as int) =~= a);
    lemma_prefix_table_len(intern_all(t, a), intern_all(t, b));
}

impl PackageContext {
    /// Writes the package's description to `ps` and enters its strings
    /// into `str_table`.
    pub fn write_to_package_section(&self, ps: &mut PackageSection, str_table: &mut StringTable) -> (r:
        Result<(), EncodeError>)
        requires
            old(str_table).wf(),
        ensures
            final(str_table).wf(),
            old(str_table)@.is_prefix_of(final(str_table)@),
            match r {
                Ok(_) => {
                    &&& self@.pack_info.authors.len() <= u32::MAX
                    &&& final(str_table)@ == intern_all(
                        old(str_table)@,
                        self@.pack_info.strings(),
                    )
                    &&& final(ps)@ == package_section_of(final(str_table)@, self@.pack_info)
                },
                Err(e) => {
                    &&& e == EncodeError::InputTooLarge
                    &&& *final(ps) == *old(ps)
                    &&& (self@.pack_info.authors.len() > u32::MAX || table_len(
                        intern_all(old(str_table)@, self@.pack_info.strings()),
                    ) > u32::MAX)
                },
            },
    {
        self.pack_info.write_to_package_section(ps, str_table)
    }

    /// Writes the dependencies that are marked to be written to `dts`, in
    /// their order, and enters their strings into `str_table`. Fails, and
    /// leaves `dts` as it is, where there are more than `u32::MAX` of them
    /// or the table would grow beyond `u32::MAX` bytes.
    pub fn write_to_dep_table_section(
        &self,
        dts: &mut DepTableSection,
        str_table: &mut StringTable,
    ) -> (r: Result<(), EncodeError>)
        requires
            old(str_table).wf(),
        ensures
            final(str_table).wf(),
            old(str_table)@.is_prefix_of(final(str_table)@),
            match r {
                Ok(_) => {
                    &&& dumped(self@.dep_infos).len() <= u32::MAX
                    &&& final(str_table)@ == intern_all(
                        old(str_table)@,
                        dep_strings(dumped(self@.dep_infos)),
                    )
                    &&& final(dts)@ == dep_table_of(final(str_table)@, dumped(self@.dep_infos))
                },
                Err(e) => {
                    &&& e == EncodeError::InputTooLarge
                    &&& *final(dts) == *old(dts)
                    &&& (dumped(self@.dep_infos).len() > u32::MAX || table_len(
                        intern_all(old(str_table)@, dep_strings(dumped(self@.dep_infos))),
                    ) > u32::MAX)
                },
            },
    {
        let ghost deps = self@.dep_infos;
        let ghost t0 = str_table@;
        let mut entries: Vec<DepTableEntry> = Vec::new();
        let mut i: usize = 0;
        proof {
            assert(deps.take(0) =~= Seq::<DepInfoView>::empty());
            assert(entries@ =~= dep_entries_of(str_table@, dumped(deps.take(0))));
        }
        while i < self.dep_infos.len()
            invariant
                i <= deps.len(),
                deps == self@.dep_infos,
                deps.len() == self.dep_infos@.len(),
                t0 == old(str_table)@,
                *dts == *old(dts),
                str_table.wf(),
                t0.is_prefix_of(str_table@),
                str_table@ == intern_all(t0, dep_strings(dumped(deps.take(i as int)))),
                entries@ == dep_entries_of(str_table@, dumped(deps.take(i as int))),
                forall|k: int|
                    0 <= k < dumped(deps.take(i as int)).len() ==> holds_all(
                        str_table@,
                        (#[trigger] dumped(deps.take(i as int))[k]).strings(),
                    ),
            decreases deps.len() - i,
        {
            let ghost t1 = str_table@;
            let ghost before = dumped(deps.take(i as int));
            let ghost d = deps[i as int];
            proof {
                assert(deps.take(i + 1).drop_last() =~= deps.take(i as int));
                assert(deps.take(i + 1).last() == d);
                assert(before.push(d).drop_last() =~= before);
                assert(d.dump ==> dumped(deps.take(i + 1)) == before.push(d));
                assert(d.dump ==> dep_strings(dumped(deps.take(i + 1))) == dep_strings(before)
                    + d.strings());
                lemma_dep_strings_take(deps, i + 1);
                lemma_intern_all_concat(t0, dep_strings(before), d.strings());
            }
            if self.dep_infos[i].dump {
                let mut dte = DepTableEntry::new();
                match self.dep_infos[i].write_to_dep_table_entry(&mut dte, str_table) {
                    Ok(_) => {},
                    Err(e) => {
                        proof {
                            lemma_intern_all_prefix(
                                t0,
                                dep_strings(dumped(deps.take(i + 1))),
                                dep_strings(dumped(deps)),
                            );
                        }
                        return Err(e);
                    },
                }
                entries.push(dte);
                proof {
                    let t2 = str_table@;
                    let after = dumped(deps.take(i + 1));
                    lemma_intern_all(t1, d.strings());
                    assert(holds_all(t2, d.strings()));
                    assert forall|k: int| 0 <= k < after.len() implies holds_all(
                        t2,
                        (#[trigger] after[k]).strings(),
                    ) && entries@[k] == dep_entry_of(t2, after[k]) by {
                        if k < before.len() {
                            assert(after[k] == before[k]);
                            lemma_dep_entry_prefix(t1, t2, before[k]);
                        }
                    }
                    assert(entries@ =~= dep_entries_of(t2, after));
                }
            }
            i = i + 1;
        }
        proof {
            assert(deps.take(deps.len() as int) =~= deps);
        }
        if entries.len() > u32::MAX as usize {
            return Err(EncodeError::InputTooLarge);
        }
        dts.entries = LenArrayType { len: entries.len() as u32, arr: entries };
        Ok(())
    }

    /// Copies the crate binary into `cbs`.
    pub fn write_to_crate_binary_section(&self, cbs: &mut CrateBinarySection)
        ensures
            final(cbs)@ == self@.crate_binary,
    {
        self.crate_binary.write_to_crate_binary_section(cbs);
    }

    /// Appends to `dsc` the data sections that are not signatures:
    /// package, dependency table, crate binary. Their strings are entered
    /// into `str_table`. Fails, and leaves `dsc` as it is, where a count
    /// or the string table does not fit in 32 bits.
    pub fn write_to_data_section_collection_without_sig(
        &self,
        dsc: &mut DataSectionCollectionType,
        str_table: &mut StringTable,
    ) -> (r: Result<(), EncodeError>)
        requires
            old(str_table).wf(),
        ensures
            final(str_table).wf(),
            match r {
                Ok(_) => {
                    &&& self@.plain_fits(old(str_table)@)
                    &&& final(str_table)@ == intern_all(old(str_table)@, self@.strings())
                    &&& final(dsc)@ == old(dsc)@ + self@.plain_sections(final(str_table)@)
                },
                Err(e) => {
                    &&& e == EncodeError::InputTooLarge
                    &&& !self@.plain_fits(old(str_table)@)
                    &&& *final(dsc) == *old(dsc)
                },
            },
    {
        let ghost t0 = str_table@;
        let ghost a = self@.pack_info.strings();
        let ghost b = dep_strings(dumped(self@.dep_infos));
        proof {
            lemma_intern_all_concat(t0, a, b);
            lemma_intern_all(t0, a);
            lemma_intern_all(intern_all(t0, a), b);
            lemma_prefix_table_len(intern_all(t0, a), intern_all(t0, a + b));
        }
        let mut package_section = PackageSection::new();
        match self.write_to_package_section(&mut package_section, str_table) {
            Ok(_) => {},
            Err(e) => {
                return Err(e);
            },
        }
        let ghost t1 = str_table@;
        let mut dep_table_section = DepTableSection::new();
        match self.write_to_dep_table_section(&mut dep_table_section, str_table) {
            Ok(_) => {},
            Err(e) => {
                return Err(e);
            },
        }
        let mut binary_section = CrateBinarySection::new();
        self.write_to_crate_binary_section(&mut binary_section);
        proof {
            lemma_package_section_prefix(t1, str_table@, self@.pack_info);
            str_table.lemma_total();
        }
        let ghost before = dsc@;
        dsc.col.arr.push(DataSection::PackageSection(package_section));
        dsc.col.arr.push(DataSection::DepTableSection(dep_table_section));
        dsc.col.arr.push(DataSection::CrateBinarySection(binary_section));
        assert(dsc@ =~= before + self@.plain_sections(str_table@));
        Ok(())
    }

    /// Appends to `dsc` a signature section for each signature, in their
    /// order. Fails, and leaves `dsc` as it is, where a signature's size
    /// does not fit in 32 bits.
    pub fn write_to_data_section_collection_sig(&self, dsc: &mut DataSectionCollectionType) -> (r:
        Result<(), EncodeError>)
        requires
            sig_types_valid(self@.sigs),
        ensures
            match r {
                Ok(_) => {
                    &&& forall|i: int|
                        0 <= i < self@.sigs.len() ==> (#[trigger] self@.sigs[i]).size <= u32::MAX
                    &&& final(dsc)@ == old(dsc)@ + sig_sections(self@.sigs)
                },
                Err(e) => {
                    &&& e == EncodeError::InputTooLarge
                    &&& exists|i: int|
                        0 <= i < self@.sigs.len() && (#[trigger] self@.sigs[i]).size > u32::MAX
                    &&& *final(dsc) == *old(dsc)
                },
            },
    {
        let mut k: usize = 0;
        while k < self.sigs.len()
            invariant
                k <= self.sigs@.len(),
                *dsc == *old(dsc),
                forall|i: int| 0 <= i < k ==> (#[trigger] self@.sigs[i]).size <= u32::MAX,
            decreases self.sigs@.len() - k,
        {
            if self.sigs[k].size > u32::MAX as usize {
                assert(self@.sigs[k as int].size > u32::MAX);
                return Err(EncodeError::InputTooLarge);
            }
            k = k + 1;
        }
        let ghost before = dsc@;
        let mut i: usize = 0;
        while i < self.sigs.len()
            invariant
                i <= self.sigs@.len(),
                sig_types_valid(self@.sigs),
                forall|j: int| 0 <= j < self@.sigs.len() ==> (#[trigger] self@.sigs[j]).size <= u32::MAX,
                dsc@ == before + sig_sections(self@.sigs).take(i as int),
            decreases self.sigs@.len() - i,
        {
            let mut sig = SigStructureSection::new();
            assert(self@.sigs[i as int].typ <= 1);
            assert(self@.sigs[i as int].size <= u32::MAX);
            match self.sigs[i].write_to_sig_structure_section(&mut sig) {
                Ok(_) => {},
                Err(_) => unreached(),
            }
            let ghost prev = dsc@;
            let ghost added = DataSectionView::SigStructureSection(sig@);
            dsc.col.arr.push(DataSection::SigStructureSection(sig));
            proof {
                assert(dsc@ =~= prev.push(added));
                assert(added == sig_sections(self@.sigs)[i as int]);
                assert(sig_sections(self@.sigs).take(i + 1) =~= sig_sections(self@.sigs).take(
                    i as int,
                ).push(added));
            }
            assert(dsc@ =~= before + sig_sections(self@.sigs).take(i + 1));
            i = i + 1;
        }
        assert(sig_sections(self@.sigs).take(self@.sigs.len() as int) =~= sig_sections(self@.sigs));
        Ok(())
    }

    /// Keeps the first `non_sig_num` data sections of `crate_package`, or
    /// all where there are fewer, and puts the signature sections of the
    /// signatures behind them. Fails,
    /// and leaves `crate_package` as it is, where a signature's size does
    /// not fit in 32 bits.
    pub fn set_sigs(&self, crate_package: &mut CratePackage, non_sig_num: usize) -> (r: Result<
        (),
        EncodeError,
    >)
        requires
            sig_types_valid(self@.sigs),
        ensures
            match r {
                Ok(_) => {
                    &&& forall|i: int|
                        0 <= i < self@.sigs.len() ==> (#[trigger] self@.sigs[i]).size <= u32::MAX
                    &&& final(crate_package)@ == (CratePackageView {
                        data_sections: first_sections(
                            old(crate_package)@.data_sections,
                            non_sig_num as int,
                        ) + sig_sections(self@.sigs),
                        ..old(crate_package)@
                    })
                },
                Err(e) => {
                    &&& e == EncodeError::InputTooLarge
                    &&& exists|i: int|
                        0 <= i < self@.sigs.len() && (#[trigger] self@.sigs[i]).size > u32::MAX
                    &&& *final(crate_package) == *old(crate_package)
                },
            },
    {
        let mut k: usize = 0;
        while k < self.sigs.len()
            invariant
                k <= self.sigs@.len(),
                forall|i: int| 0 <= i < k ==> (#[trigger] self@.sigs[i]).size <= u32::MAX,
            decreases self.sigs@.len() - k,
        {
            if self.sigs[k].size > u32::MAX as usize {
                assert(self@.sigs[k as int].size > u32::MAX);
                return Err(EncodeError::InputTooLarge);
            }
            k = k + 1;
        }
        let ghost before = crate_package@.data_sections;
        crate_package.data_sections.col.arr.truncate(non_sig_num);
        assert(crate_package@.data_sections =~= first_sections(before, non_sig_num as int));
        let r = self.write_to_data_section_collection_sig(&mut crate_package.data_sections);
        assert(r is Ok);
        r
    }

    /// Puts the data sections that are not signatures into
    /// `crate_package` and enters their strings into `str_table`.
    pub fn set_pack_dep_bin(&self, crate_package: &mut CratePackage, str_table: &mut StringTable) -> (r:
        Result<(), EncodeError>)
        requires
            old(str_table).wf(),
        ensures
            final(str_table).wf(),
            match r {
                Ok(_) => {
                    &&& self@.plain_fits(old(str_table)@)
                    &&& final(str_table)@ == intern_all(old(str_table)@, self@.strings())
                    &&& final(crate_package)@ == (CratePackageView {
                        data_sections: old(crate_package)@.data_sections + self@.plain_sections(
                            final(str_table)@,
                        ),
                        ..old(crate_package)@
                    })
                },
                Err(e) => {
                    &&& e == EncodeError::InputTooLarge
                    &&& !self@.plain_fits(old(str_table)@)
                    &&& *final(crate_package) == *old(crate_package)
                },
            },
    {
        self.write_to_data_section_collection_without_sig(
            &mut crate_package.data_sections,
            str_table,
        )
    }

    /// The fingerprint of `crate_package`: the SHA-256 digest of its bytes
    /// without the fingerprint.
    pub fn calc_fingerprint(&self, crate_package: &CratePackage) -> (fp: Vec<u8>)
        ensures
            fp@ == spec_sha256(ser_package_body(crate_package@)),
            fp@.len() == 32,
    {
        let bin_all = crate_package.encode_to_vec();
        assert(bin_all@.take(bin_all@.len() - 32) =~= ser_package_body(crate_package@));
        let d = sha256(slice_subrange(bin_all.as_slice(), 0, bin_all.len() - 32));
        slice_to_vec(d.as_slice())
    }
}

/// The packages `a` and `b` differ at most in the sizes and the blobs of
/// their signatures.
pub open spec fn same_but_sig_payloads(a: PackageContextView, b: PackageContextView) -> bool {
    &&& a.pack_info == b.pack_info
    &&& a.dep_infos == b.dep_infos
    &&& a.crate_binary == b.crate_binary
    &&& a.root_cas == b.root_cas
    &&& same_signers(a.sigs, b.sigs)
}

/// The digest that a signature of type `typ` signs: that of the signed
/// range for type 0, that of the crate binary for type 1.
pub open spec fn digest_to_sign(typ: u32, digest_all: Seq<u8>, digest_bin: Seq<u8>) -> Seq<u8> {
    if typ == 0 {
        digest_all
    } else {
        digest_bin
    }
}

/// The digest that a signature of type `typ` signs.
pub fn sig_digest(typ: u32, digest_all: &[u8; 32], digest_bin: &[u8; 32]) -> (d: Vec<u8>)
    requires
        typ <= 1,
    ensures
        d@ == digest_to_sign(typ, digest_all@, digest_bin@),
        d@.len() == 32,
{
    if typ == 0 {
        slice_to_vec(digest_all.as_slice())
    } else {
        slice_to_vec(digest_bin.as_slice())
    }
}

/// The messages that the signers of the package `m` sign, in the order of
/// the signatures: for a signature over the whole container the digest of
/// the signed part of the container, for one over the crate binary the
/// digest of the crate binary.
pub open spec fn messages_to_sign(m: PackageContextView) -> Seq<Seq<u8>> {
    Seq::new(
        m.sigs.len(),
        |i: int|
            digest_to_sign(
                m.sigs[i].typ,
                spec_sha256(signed_part(m)),
                spec_sha256(m.crate_binary),
            ),
    )
}

/// Whether a signature of `signed_len` bytes fills the slot of `size`
/// bytes that was reserved for it.
pub fn check_slot(signed_len: usize, size: usize) -> (r: Result<(), EncodeError>)
    ensures
        r is Ok <==> signed_len == size,
        r matches Err(e) ==> e == EncodeError::SizeProbeMismatch,
{
    if signed_len == size {
        Ok(())
    } else {
        Err(EncodeError::SizeProbeMismatch)
    }
}

/// `n` zero bytes.
pub fn zero_bytes(n: usize) -> (v: Vec<u8>)
    ensures
        v@ == zeros(n as nat),
{
    let mut v: Vec<u8> = Vec::new();
    let mut i: usize = 0;
    while i < n
        invariant
            i <= n,
            v@ == zeros(i as nat),
        decreases n - i,
    {
        v.push(0);
        assert(v@ =~= zeros((i + 1) as nat));
        i = i + 1;
    }
    v
}

/// One of the signers of `sigs` has a certificate or a key that is more
/// than the provider takes.
pub open spec fn any_signer_too_long(sigs: Seq<SigInfoView>) -> bool {
    exists|i: int|
        0 <= i < sigs.len() && (too_long((#[trigger] sigs[i]).pkcs.cert_bin) || too_long(
            sigs[i].pkcs.pkey_bin,
        ))
}

/// Signatures by the same signers have signers of the same lengths.
pub proof fn lemma_same_signers_too_long(a: Seq<SigInfoView>, b: Seq<SigInfoView>)
    requires
        same_signers(a, b),
    ensures
        any_signer_too_long(a) == any_signer_too_long(b),
{
    if any_signer_too_long(a) {
        let i = choose|i: int|
            0 <= i < a.len() && (too_long((#[trigger] a[i]).pkcs.cert_bin) || too_long(
                a[i].pkcs.pkey_bin,
            ));
        assert(b[i].pkcs == a[i].pkcs);
    }
    if any_signer_too_long(b) {
        let i = choose|i: int|
            0 <= i < b.len() && (too_long((#[trigger] b[i]).pkcs.cert_bin) || too_long(
                b[i].pkcs.pkey_bin,
            ));
        assert(a[i].pkcs == b[i].pkcs);
    }
}

/// Whether no signer of `sigs` has a certificate or a key that is more
/// than the provider takes.
pub fn signers_within_limit(sigs: &Vec<SigInfo>) -> (b: bool)
    ensures
        b == !any_signer_too_long(sigs_view(sigs@)),
{
    let mut i: usize = 0;
    while i < sigs.len()
        invariant
            i <= sigs@.len(),
            forall|j: int|
                0 <= j < i ==> !(too_long((#[trigger] sigs_view(sigs@)[j]).pkcs.cert_bin)
                    || too_long(sigs_view(sigs@)[j].pkcs.pkey_bin)),
        decreases sigs@.len() - i,
    {
        if !sigs[i].pkcs.within_limit() {
            assert(too_long(sigs_view(sigs@)[i as int].pkcs.cert_bin) || too_long(
                sigs_view(sigs@)[i as int].pkcs.pkey_bin,
            ));
            return false;
        }
        i = i + 1;
    }
    true
}

/// Reserves the slot of the signature `sig`: `size` as its size, and as
/// many zero bytes as its blob.
pub fn reserve_slot(sig: &mut SigInfo, size: usize)
    ensures
        final(sig)@ == (SigInfoView { size, bin: zeros(size as nat), ..old(sig)@ }),
{
    sig.size = size;
    sig.bin = zero_bytes(size);
}

/// Puts the signature `signed` into the slot of `sig`: it becomes the
/// blob where it is as long as the slot. Fails with `SizeProbeMismatch`,
/// and leaves `sig` as it is, where it is not.
pub fn fill_slot(sig: &mut SigInfo, signed: Vec<u8>) -> (r: Result<(), EncodeError>)
    ensures
        match r {
            Ok(_) => signed@.len() == old(sig)@.size && final(sig)@ == (SigInfoView {
                bin: signed@,
                ..old(sig)@
            }),
            Err(e) => e == EncodeError::SizeProbeMismatch && signed@.len() != old(sig)@.size
                && *final(sig) == *old(sig),
        },
{
    match check_slot(signed.len(), sig.size) {
        Ok(_) => {
            sig.bin = signed;
            Ok(())
        },
        Err(e) => Err(e),
    }
}

/// In the container of a package that fits, every index entry has its data
/// section, the crate binary is the third section, and what a signature
/// over the whole container covers lies within the container's bytes.
pub proof fn lemma_layout(m: PackageContextView, fp: Seq<u8>)
    requires
        m.fits(),
    ensures
        m.package(fp).indexed(),
        first_of_type(m.package(fp).section_index, 0) == Some(0int),
        first_of_type(m.package(fp).section_index, 1) == Some(1int),
        first_of_type(m.package(fp).section_index, 3) == Some(2int),
        signed_range(m.package(fp), ser_package(m.package(fp))) is Some,
{
    let p = m.package(fp);
    let ds = m.data_sections();
    let index = p.section_index;
    let t = m.string_table();
    assert(ds[0] == m.plain_sections(t)[0]);
    assert(ds[1] == m.plain_sections(t)[1]);
    assert(ds[2] == m.plain_sections(t)[2]);
    lemma_index_fits_at(ds, 0);
    lemma_index_fits_at(ds, 1);
    lemma_index_fits_at(ds, 2);
    assert(index[0].sh_type == 0 && index[1].sh_type == 1 && index[2].sh_type == 3);
    assert forall|i: int| 0 <= i < index.len() implies (#[trigger] p.data_sections[i]).type_code()
        == index[i].sh_type by {}
    lemma_first_of_type(index, 0);
    lemma_first_of_type(index, 1);
    lemma_first_of_type(index, 3);
    lemma_last_non_sig(index);
    lemma_ser_table_len(t);
    lemma_ser_records_len(index);
    p.crate_header.lemma_record();
    match last_non_sig(index) {
        Some(e) => {
            let k = choose|k: int| 0 <= k < index.len() && index[k] == e;
            lemma_index_fits_at(ds, k);
        },
        None => {},
    }
}

impl PackageContext {
    /// Reserves a slot for every signature: asks each signer how long its
    /// signature over a digest is, takes that as the signature's size, and
    /// zero bytes of that length as its blob; see [`reserve_slot`].
    ///
    /// Where a signer's certificate or key is longer than the provider
    /// takes, no signer is asked, the error says so, and the package stays
    /// as it is. Else it fails with the provider's error where a signer
    /// cannot sign.
    pub fn reserve_sig_slots(&mut self) -> (r: Result<(), EncodeError>)
        ensures
            same_but_sig_payloads(old(self)@, final(self)@),
            any_signer_too_long(old(self)@.sigs) ==> (r matches Err(e)
                && is_too_long_encode_error(e)) && *final(self) == *old(self),
            match r {
                Ok(_) => forall|i: int|
                    0 <= i < final(self)@.sigs.len() ==> (#[trigger] final(self)@.sigs[i]).bin
                        == zeros(final(self)@.sigs[i].size as nat),
                Err(e) => e is CryptoProvider && old(self)@.sigs.len() > 0,
            },
    {
        if !signers_within_limit(&self.sigs) {
            return Err(encoder_error(too_long_text()));
        }
        let mut i: usize = 0;
        while i < self.sigs.len()
            invariant
                i <= self.sigs@.len(),
                same_but_sig_payloads(old(self)@, self@),
                !any_signer_too_long(old(self)@.sigs),
                forall|j: int|
                    0 <= j < i ==> (#[trigger] self@.sigs[j]).bin == zeros(self@.sigs[j].size as nat),
            decreases self.sigs@.len() - i,
        {
            let size = match self.sigs[i].pkcs.payload_size(FINGERPRINT_LEN) {
                Ok(n) => n,
                Err(e) => {
                    return Err(e);
                },
            };
            let ghost before = self@.sigs;
            reserve_slot(&mut self.sigs[i], size);
            proof {
                assert forall|j: int| 0 <= j < before.len() && j != i implies self@.sigs[j]
                    == before[j] by {}
                assert(self@.sigs[i as int].typ == before[i as int].typ);
                assert(self@.sigs[i as int].pkcs == before[i as int].pkcs);
                assert(self@.sigs[i as int].bin == zeros(self@.sigs[i as int].size as nat));
                assert forall|j: int| 0 <= j < i + 1 implies (#[trigger] self@.sigs[j]).bin
                    == zeros(self@.sigs[j].size as nat) by {
                    if j < i {
                        assert(before[j].bin == zeros(before[j].size as nat));
                    }
                }
            }
            i = i + 1;
        }
        Ok(())
    }

    /// The first step of encoding: lays the container out with a slot of
    /// zero bytes for every signature. `str_table` must be a new table and
    /// `crate_package` must have no data sections yet.
    pub fn encode_to_crate_package_before_sig(
        &mut self,
        str_table: &mut StringTable,
        crate_package: &mut CratePackage,
    ) -> (r: Result<(), EncodeError>)
        requires
            sig_types_valid(old(self)@.sigs),
            old(str_table).wf(),
            old(str_table)@ == seq![Seq::<char>::empty()],
            old(crate_package)@.data_sections.len() == 0,
        ensures
            same_but_sig_payloads(old(self)@, final(self)@),
            final(str_table).wf(),
            old(self)@.complete() && any_signer_too_long(old(self)@.sigs) ==> (r matches Err(e)
                && is_too_long_encode_error(e)),
            match r {
                Ok(_) => {
                    &&& old(self)@.complete()
                    &&& final(self)@.fits()
                    &&& final(str_table)@ == final(self)@.string_table()
                    &&& final(crate_package)@ == final(self)@.package(
                        old(crate_package)@.finger_print,
                    )
                },
                Err(e) => match e {
                    EncodeError::ManifestIncomplete => !old(self)@.complete(),
                    EncodeError::InputTooLarge => old(self)@.complete() && (old(self)@.sigs.len()
                        == 0 ==> !old(self)@.fits()),
                    EncodeError::CryptoProvider(_) => old(self)@.complete() && old(
                        self,
                    )@.sigs.len() > 0,
                    EncodeError::SizeProbeMismatch => false,
                },
            },
    {
        if self.pack_info.name.as_str().is_empty() || self.pack_info.version.as_str().is_empty() {
            return Err(EncodeError::ManifestIncomplete);
        }
        match self.reserve_sig_slots() {
            Ok(_) => {},
            Err(e) => {
                return Err(e);
            },
        }
        proof {
            assert(old(self)@.sigs.len() == 0 ==> self@.sigs =~= old(self)@.sigs);
            assert(self@.strings() == old(self)@.strings());
        }
        crate_package.set_magic_numer();
        match self.set_pack_dep_bin(crate_package, str_table) {
            Ok(_) => {},
            Err(e) => {
                return Err(e);
            },
        }
        proof {
            assert(crate_package@.data_sections =~= self@.plain_sections(str_table@));
            assert(crate_package@.data_sections.take(3) =~= self@.plain_sections(str_table@));
        }
        match self.set_sigs(crate_package, NOT_SIG_NUM) {
            Ok(_) => {},
            Err(e) => {
                return Err(e);
            },
        }
        match crate_package.set_section_index() {
            Ok(_) => {},
            Err(e) => {
                return Err(e);
            },
        }
        crate_package.set_string_table(str_table);
        proof {
            lemma_ser_table_len(str_table@);
        }
        match crate_package.set_crate_header(0) {
            Ok(_) => {},
            Err(e) => {
                return Err(e);
            },
        }
        Ok(())
    }

    /// The message that each signer is to sign, in the order of the
    /// signatures: the digest of what its signature covers in
    /// `crate_package`, the container of this package.
    pub fn digests_to_sign(&self, crate_package: &CratePackage) -> (r: Vec<Vec<u8>>)
        requires
            sig_types_valid(self@.sigs),
            self@.fits(),
            crate_package@ == self@.package(crate_package@.finger_print),
        ensures
            blobs(r@) == messages_to_sign(self@),
    {
        proof {
            lemma_layout(self@, crate_package@.finger_print);
            lemma_signed_range_of_package(self@, crate_package@.finger_print);
        }
        let bin_all = crate_package.encode_to_vec();
        let (digest_all, digest_bin) = match self.digests_to_cover(
            crate_package,
            bin_all.as_slice(),
        ) {
            Some(x) => x,
            None => unreached(),
        };
        let mut messages: Vec<Vec<u8>> = Vec::new();
        let mut i: usize = 0;
        while i < self.sigs.len()
            invariant
                i <= self.sigs@.len(),
                sig_types_valid(self@.sigs),
                digest_all@ == spec_sha256(signed_part(self@)),
                digest_bin@ == spec_sha256(self@.crate_binary),
                messages@.len() == i,
                forall|j: int| 0 <= j < i ==> (#[trigger] messages@[j])@ == messages_to_sign(self@)[j],
            decreases self.sigs@.len() - i,
        {
            assert(self@.sigs[i as int].typ <= 1);
            messages.push(sig_digest(self.sigs[i].typ, &digest_all, &digest_bin));
            i = i + 1;
        }
        assert(blobs(messages@) =~= messages_to_sign(self@));
        messages
    }

    /// Makes the signatures: each signer signs the digest of what its
    /// signature covers in `crate_package`, the container laid out with
    /// the slots; see [`PackageContext::digests_to_sign`]. What a signer
    /// hands out goes into the signature's slot as [`fill_slot`] says, so
    /// it fails with `SizeProbeMismatch` where a signature is not as long
    /// as its slot.
    ///
    /// Where a signer's certificate or key is longer than the provider
    /// takes, no signer is asked, and the error says so. Else it fails
    /// with the provider's error where a signer cannot sign.
    pub fn calc_sigs(&mut self, crate_package: &CratePackage) -> (r: Result<(), EncodeError>)
        requires
            sig_types_valid(old(self)@.sigs),
            old(self)@.fits(),
            crate_package@ == old(self)@.package(crate_package@.finger_print),
        ensures
            same_but_sig_payloads(old(self)@, final(self)@),
            any_signer_too_long(old(self)@.sigs) ==> (r matches Err(e)
                && is_too_long_encode_error(e)),
            match r {
                Ok(_) => forall|i: int|
                    0 <= i < final(self)@.sigs.len() ==> (#[trigger] final(self)@.sigs[i]).size
                        == old(self)@.sigs[i].size && final(self)@.sigs[i].bin.len()
                        == final(self)@.sigs[i].size,
                Err(e) => (e == EncodeError::SizeProbeMismatch || e is CryptoProvider) && old(
                    self,
                )@.sigs.len() > 0,
            },
    {
        if !signers_within_limit(&self.sigs) {
            return Err(encoder_error(too_long_text()));
        }
        let messages = self.digests_to_sign(crate_package);
        assert(blobs(messages@).len() == messages@.len());
        assert(self@.sigs.len() == self.sigs@.len());
        let mut i: usize = 0;
        while i < self.sigs.len()
            invariant
                i <= self.sigs@.len(),
                messages@.len() == self.sigs@.len(),
                same_but_sig_payloads(old(self)@, self@),
                !any_signer_too_long(old(self)@.sigs),
                forall|j: int|
                    0 <= j < self@.sigs.len() ==> (#[trigger] self@.sigs[j]).size == old(
                        self,
                    )@.sigs[j].size,
                forall|j: int|
                    0 <= j < i ==> (#[trigger] self@.sigs[j]).bin.len() == self@.sigs[j].size,
            decreases self.sigs@.len() - i,
        {
            let signed = match self.sigs[i].pkcs.encode_pkcs_bin(messages[i].as_slice()) {
                Ok(x) => x,
                Err(e) => {
                    return Err(e);
                },
            };
            let ghost before = self@.sigs;
            match fill_slot(&mut self.sigs[i], signed) {
                Ok(_) => {},
                Err(e) => {
                    proof {
                        assert(self@.sigs =~= before);
                    }
                    return Err(e);
                },
            }
            proof {
                assert forall|j: int| 0 <= j < before.len() && j != i implies self@.sigs[j]
                    == before[j] by {}
                assert(self@.sigs[i as int].typ == before[i as int].typ);
                assert(self@.sigs[i as int].pkcs == before[i as int].pkcs);
                assert(self@.sigs[i as int].size == before[i as int].size);
                assert forall|j: int| 0 <= j < i + 1 implies (#[trigger] self@.sigs[j]).bin.len()
                    == self@.sigs[j].size by {
                    if j < i {
                        assert(before[j].bin.len() == before[j].size);
                    }
                }
                assert forall|j: int| 0 <= j < self@.sigs.len() implies (
                #[trigger] self@.sigs[j]).size == old(self)@.sigs[j].size by {
                    assert(before[j].size == old(self)@.sigs[j].size);
                }
            }
            i = i + 1;
        }
        Ok(())
    }

    /// The second step of encoding: makes the signatures and puts them
    /// into their slots in `crate_package`.
    pub fn encode_sig_to_crate_package(&mut self, crate_package: &mut CratePackage) -> (r: Result<
        (),
        EncodeError,
    >)
        requires
            sig_types_valid(old(self)@.sigs),
            old(self)@.fits(),
            old(crate_package)@ == old(self)@.package(old(crate_package)@.finger_print),
        ensures
            same_but_sig_payloads(old(self)@, final(self)@),
            any_signer_too_long(old(self)@.sigs) ==> (r matches Err(e)
                && is_too_long_encode_error(e)),
            match r {
                Ok(_) => {
                    &&& sig_sizes_valid(final(self)@.sigs)
                    &&& final(crate_package)@ == (CratePackageView {
                        data_sections: final(self)@.data_sections(),
                        ..old(crate_package)@
                    })
                },
                Err(e) => (e == EncodeError::SizeProbeMismatch || e is CryptoProvider) && old(
                    self,
                )@.sigs.len() > 0,
            },
    {
        match self.calc_sigs(crate_package) {
            Ok(_) => {},
            Err(e) => {
                return Err(e);
            },
        }
        proof {
            assert(self@.strings() == old(self)@.strings());
            let t = self@.string_table();
            assert(crate_package@.data_sections.take(3) =~= self@.plain_sections(t));
            assert forall|i: int| 0 <= i < self@.sigs.len() implies (#[trigger] self@.sigs[i]).size
                <= u32::MAX by {
                assert(old(self)@.sigs[i].size <= u32::MAX);
            }
        }
        match self.set_sigs(crate_package, NOT_SIG_NUM) {
            Ok(_) => Ok(()),
            Err(_) => unreached(),
        }
    }

    /// The third step of encoding: derives section index and header from
    /// the data sections once more and sets the fingerprint.
    pub fn encode_to_crate_package_after_sig(&self, crate_package: &mut CratePackage) -> (r: Result<
        (),
        EncodeError,
    >)
        requires
            old(crate_package)@.magic_number == MAGIC_NUMBER@,
            old(crate_package)@.string_table == ser_table(self@.string_table()),
            old(crate_package)@.data_sections == self@.data_sections(),
        ensures
            match r {
                Ok(_) => {
                    &&& index_fits(self@.data_sections())
                    &&& header_fits(table_len(self@.string_table()), self@.data_sections().len())
                    &&& final(crate_package)@ == self@.package(spec_sha256(self@.body()))
                    &&& final(crate_package)@.finger_print.len() == 32
                },
                Err(e) => {
                    &&& e == EncodeError::InputTooLarge
                    &&& !(index_fits(self@.data_sections()) && header_fits(
                        table_len(self@.string_table()),
                        self@.data_sections().len(),
                    ))
                },
            },
    {
        proof {
            lemma_ser_table_len(self@.string_table());
        }
        match crate_package.set_section_index() {
            Ok(_) => {},
            Err(e) => {
                return Err(e);
            },
        }
        match crate_package.set_crate_header(0) {
            Ok(_) => {},
            Err(e) => {
                return Err(e);
            },
        }
        let finger_print = self.calc_fingerprint(crate_package);
        crate_package.set_finger_print(finger_print);
        Ok(())
    }

    /// Encodes the package: lays its container out, has every signer
    /// sign, and takes the fingerprint. Returns the container, its string
    /// table and its bytes.
    ///
    /// The package must have a name and a version, and every length and
    /// offset must fit in 32 bits. For a package without signatures
    /// nothing else is asked, and the package stays as it is. With
    /// signatures, no signer's certificate or key may be longer than the
    /// provider takes, each signer must be able to sign, and its signature
    /// must be as long as the slot that was reserved for it. The
    /// signatures of the package then hold the signed blobs; on failure
    /// they may hold the slots.
    ///
    /// The bytes that come out are decoded to the package again: see
    /// [`decode_model`] and [`decoded_from`].
    pub fn encode_to_crate_package(&mut self) -> (r: Result<
        (CratePackage, StringTable, Vec<u8>),
        EncodeError,
    >)
        requires
            sig_types_valid(old(self)@.sigs),
        ensures
            same_but_sig_payloads(old(self)@, final(self)@),
            old(self)@.complete() && any_signer_too_long(old(self)@.sigs) ==> (r matches Err(e)
                && is_too_long_encode_error(e)),
            old(self)@.sigs.len() == 0 ==> final(self)@ == old(self)@,
            old(self)@.sigs.len() == 0 ==> (r is Ok <==> old(self)@.complete() && old(
                self,
            )@.fits()),
            match r {
                Ok((crate_package, str_table, bin)) => {
                    &&& old(self)@.complete()
                    &&& final(self)@.fits()
                    &&& sig_sizes_valid(final(self)@.sigs)
                    &&& str_table.wf()
                    &&& str_table@ == final(self)@.string_table()
                    &&& crate_package@ == final(self)@.package(spec_sha256(final(self)@.body()))
                    &&& bin@ == ser_package(crate_package@)
                    &&& bin@ == final(self)@.bytes()
                    &&& fingerprint_ok(bin@)
                    &&& forall|roots: Seq<Seq<u8>>| #[trigger]
                        decode_model(bin@, roots) == Ok::<PackageContextView, DecodeError>(
                            decoded_from(final(self)@, roots),
                        )
                },
                Err(e) => match e {
                    EncodeError::ManifestIncomplete => !old(self)@.complete(),
                    EncodeError::InputTooLarge => old(self)@.complete() && (old(self)@.sigs.len()
                        == 0 ==> !old(self)@.fits()),
                    EncodeError::CryptoProvider(_) => old(self)@.complete() && old(
                        self,
                    )@.sigs.len() > 0,
                    EncodeError::SizeProbeMismatch => old(self)@.complete() && old(
                        self,
                    )@.sigs.len() > 0,
                },
            },
    {
        let mut crate_package = CratePackage::new();
        let mut str_table = StringTable::new();
        match self.encode_to_crate_package_before_sig(&mut str_table, &mut crate_package) {
            Ok(_) => {},
            Err(e) => {
                proof {
                    assert(old(self)@.sigs.len() == 0 ==> self@.sigs =~= old(self)@.sigs);
                }
                return Err(e);
            },
        }
        let ghost m1 = self@;
        match self.encode_sig_to_crate_package(&mut crate_package) {
            Ok(_) => {},
            Err(e) => {
                return Err(e);
            },
        }
        proof {
            assert(old(self)@.sigs.len() == 0 ==> self@.sigs =~= old(self)@.sigs);
            assert(self@.strings() == m1.strings());
        }
        match self.encode_to_crate_package_after_sig(&mut crate_package) {
            Ok(_) => {},
            Err(e) => {
                return Err(e);
            },
        }
        let bin = crate_package.encode_to_vec();
        proof {
            let body = self@.body();
            let fp = spec_sha256(body);
            assert(ser_package_body(crate_package@) == body);
            assert(bin@.take(bin@.len() - 32) =~= body);
            assert(bin@.skip(bin@.len() - 32) =~= fp);
            assert forall|roots: Seq<Seq<u8>>| #[trigger]
                decode_model(bin@, roots) == Ok::<PackageContextView, DecodeError>(
                    decoded_from(self@, roots),
                ) by {
                lemma_roundtrip(self@, roots);
            }
        }
        Ok((crate_package, str_table, bin))
    }
}

} // verus!
