//! The wire format: what bytes a record is written as, and how bytes are read
//! back into a record.
//!
//! All integers are little-endian and of fixed width. A record of fixed width
//! implements [`Record`]; arrays of such records are written element after
//! element, with a count in front only where the format says so.
use crate::utils::error::DecodeError;
use crate::utils::package::{
    CrateBinarySection, CrateHeader, CratePackage, CratePackageView, DataSection,
    DataSectionCollectionType, DataSectionView, DepTableEntry, DepTableSection,
    DepTableSectionView, LenArrayType, PackageSection, PackageSectionView, RawArrayType,
    SectionIndex, SectionIndexEntry, SigStructureSection, SigStructureSectionView, CRATEVERSION,
    MAGIC_NUMBER,
};
use vstd::bytes::{
    lemma_auto_spec_u32_to_from_le_bytes, spec_u32_from_le_bytes, spec_u32_to_le_bytes,
    u32_from_le_bytes, u32_to_le_bytes,
};
use vstd::prelude::*;
use vstd::slice::{slice_subrange, slice_to_vec};

verus! {

/// A value that is written as a fixed number of bytes.
pub trait Record: Sized + Copy {
    /// The number of bytes that every value takes.
    spec fn width() -> nat;

    /// The bytes that the value is written as.
    spec fn to_bytes(self) -> Seq<u8>;

    /// The value that `b` is read as.
    spec fn from_bytes(b: Seq<u8>) -> Self;

    /// A value takes `width()` bytes and is read back from them unchanged.
    proof fn lemma_record(self)
        ensures
            0 < Self::width() <= 32,
            self.to_bytes().len() == Self::width(),
            Self::from_bytes(self.to_bytes()) == self,
    ;

    /// The number of bytes that every value takes.
    fn exec_width() -> (w: usize)
        ensures
            w == Self::width(),
            0 < w <= 32,
    ;

    /// Appends the value's bytes to `out`.
    fn write(&self, out: &mut Vec<u8>)
        ensures
            final(out)@ == old(out)@ + self.to_bytes(),
    ;

    /// Reads a value from exactly `width()` bytes.
    fn read(b: &[u8]) -> (x: Self)
        requires
            b@.len() == Self::width(),
        ensures
            x == Self::from_bytes(b@),
    ;
}

impl Record for u8 {
    open spec fn width() -> nat {
        1
    }

    open spec fn to_bytes(self) -> Seq<u8> {
        seq![self]
    }

    open spec fn from_bytes(b: Seq<u8>) -> u8 {
        b[0]
    }

    proof fn lemma_record(self) {
    }

    fn exec_width() -> (w: usize) {
        1
    }

    fn write(&self, out: &mut Vec<u8>) {
        out.push(*self);
        assert(out@ =~= old(out)@ + seq![*self]);
    }

    fn read(b: &[u8]) -> (x: u8) {
        b[0]
    }
}

impl Record for i8 {
    open spec fn width() -> nat {
        1
    }

    open spec fn to_bytes(self) -> Seq<u8> {
        seq![self as u8]
    }

    open spec fn from_bytes(b: Seq<u8>) -> i8 {
        b[0] as i8
    }

    proof fn lemma_record(self) {
        let x = self;
        assert((x as u8) as i8 == x) by (bit_vector);
    }

    fn exec_width() -> (w: usize) {
        1
    }

    fn write(&self, out: &mut Vec<u8>) {
        out.push(*self as u8);
        assert(out@ =~= old(out)@ + seq![*self as u8]);
    }

    fn read(b: &[u8]) -> (x: i8) {
        b[0] as i8
    }
}

impl Record for u32 {
    open spec fn width() -> nat {
        4
    }

    open spec fn to_bytes(self) -> Seq<u8> {
        spec_u32_to_le_bytes(self)
    }

    open spec fn from_bytes(b: Seq<u8>) -> u32 {
        spec_u32_from_le_bytes(b)
    }

    proof fn lemma_record(self) {
        lemma_auto_spec_u32_to_from_le_bytes();
    }

    fn exec_width() -> (w: usize) {
        4
    }

    fn write(&self, out: &mut Vec<u8>) {
        let mut b = u32_to_le_bytes(*self);
        out.append(&mut b);
    }

    fn read(b: &[u8]) -> (x: u32) {
        u32_from_le_bytes(b)
    }
}

/// The bytes of a section index entry: type, offset, size.
pub open spec fn ser_index_entry(e: SectionIndexEntry) -> Seq<u8> {
    seq![e.sh_type] + spec_u32_to_le_bytes(e.sh_offset) + spec_u32_to_le_bytes(e.sh_size)
}

/// The section index entry that nine bytes are read as.
pub open spec fn parse_index_entry(b: Seq<u8>) -> SectionIndexEntry {
    SectionIndexEntry {
        sh_type: b[0],
        sh_offset: spec_u32_from_le_bytes(b.subrange(1, 5)),
        sh_size: spec_u32_from_le_bytes(b.subrange(5, 9)),
    }
}

impl Record for SectionIndexEntry {
    open spec fn width() -> nat {
        9
    }

    open spec fn to_bytes(self) -> Seq<u8> {
        ser_index_entry(self)
    }

    open spec fn from_bytes(b: Seq<u8>) -> SectionIndexEntry {
        parse_index_entry(b)
    }

    proof fn lemma_record(self) {
        lemma_auto_spec_u32_to_from_le_bytes();
        let b = ser_index_entry(self);
        assert(b.subrange(1, 5) =~= spec_u32_to_le_bytes(self.sh_offset));
        assert(b.subrange(5, 9) =~= spec_u32_to_le_bytes(self.sh_size));
    }

    fn exec_width() -> (w: usize) {
        9
    }

    fn write(&self, out: &mut Vec<u8>) {
        out.push(self.sh_type);
        self.sh_offset.write(out);
        self.sh_size.write(out);
        assert(out@ =~= old(out)@ + ser_index_entry(*self));
    }

    fn read(b: &[u8]) -> (x: SectionIndexEntry) {
        SectionIndexEntry {
            sh_type: b[0],
            sh_offset: u32_from_le_bytes(slice_subrange(b, 1, 5)),
            sh_size: u32_from_le_bytes(slice_subrange(b, 5, 9)),
        }
    }
}

/// The bytes of a dependency table entry: name, version requirement, source
/// type, source path, platform.
pub open spec fn ser_dep_entry(e: DepTableEntry) -> Seq<u8> {
    spec_u32_to_le_bytes(e.dep_name) + spec_u32_to_le_bytes(e.dep_verreq) + seq![e.dep_srctype]
        + spec_u32_to_le_bytes(e.dep_srcpath) + spec_u32_to_le_bytes(e.dep_platform)
}

/// The dependency table entry that seventeen bytes are read as.
pub open spec fn parse_dep_entry(b: Seq<u8>) -> DepTableEntry {
    DepTableEntry {
        dep_name: spec_u32_from_le_bytes(b.subrange(0, 4)),
        dep_verreq: spec_u32_from_le_bytes(b.subrange(4, 8)),
        dep_srctype: b[8],
        dep_srcpath: spec_u32_from_le_bytes(b.subrange(9, 13)),
        dep_platform: spec_u32_from_le_bytes(b.subrange(13, 17)),
    }
}

impl Record for DepTableEntry {
    open spec fn width() -> nat {
        17
    }

    open spec fn to_bytes(self) -> Seq<u8> {
        ser_dep_entry(self)
    }

    open spec fn from_bytes(b: Seq<u8>) -> DepTableEntry {
        parse_dep_entry(b)
    }

    proof fn lemma_record(self) {
        lemma_auto_spec_u32_to_from_le_bytes();
        let b = ser_dep_entry(self);
        assert(b.subrange(0, 4) =~= spec_u32_to_le_bytes(self.dep_name));
        assert(b.subrange(4, 8) =~= spec_u32_to_le_bytes(self.dep_verreq));
        assert(b.subrange(9, 13) =~= spec_u32_to_le_bytes(self.dep_srcpath));
        assert(b.subrange(13, 17) =~= spec_u32_to_le_bytes(self.dep_platform));
    }

    fn exec_width() -> (w: usize) {
        17
    }

    fn write(&self, out: &mut Vec<u8>) {
        self.dep_name.write(out);
        self.dep_verreq.write(out);
        out.push(self.dep_srctype);
        self.dep_srcpath.write(out);
        self.dep_platform.write(out);
        assert(out@ =~= old(out)@ + ser_dep_entry(*self));
    }

    fn read(b: &[u8]) -> (x: DepTableEntry) {
        DepTableEntry {
            dep_name: u32_from_le_bytes(slice_subrange(b, 0, 4)),
            dep_verreq: u32_from_le_bytes(slice_subrange(b, 4, 8)),
            dep_srctype: b[8],
            dep_srcpath: u32_from_le_bytes(slice_subrange(b, 9, 13)),
            dep_platform: u32_from_le_bytes(slice_subrange(b, 13, 17)),
        }
    }
}

/// The bytes of the header: version, then the six layout fields.
pub open spec fn ser_header(h: CrateHeader) -> Seq<u8> {
    seq![h.c_version] + spec_u32_to_le_bytes(h.strtable_size) + spec_u32_to_le_bytes(
        h.strtable_offset,
    ) + spec_u32_to_le_bytes(h.si_size) + spec_u32_to_le_bytes(h.si_offset)
        + spec_u32_to_le_bytes(h.si_num) + spec_u32_to_le_bytes(h.ds_offset)
}

/// The header that twenty-five bytes are read as.
pub open spec fn parse_header(b: Seq<u8>) -> CrateHeader {
    CrateHeader {
        c_version: b[0],
        strtable_size: spec_u32_from_le_bytes(b.subrange(1, 5)),
        strtable_offset: spec_u32_from_le_bytes(b.subrange(5, 9)),
        si_size: spec_u32_from_le_bytes(b.subrange(9, 13)),
        si_offset: spec_u32_from_le_bytes(b.subrange(13, 17)),
        si_num: spec_u32_from_le_bytes(b.subrange(17, 21)),
        ds_offset: spec_u32_from_le_bytes(b.subrange(21, 25)),
    }
}

impl Record for CrateHeader {
    open spec fn width() -> nat {
        25
    }

    open spec fn to_bytes(self) -> Seq<u8> {
        ser_header(self)
    }

    open spec fn from_bytes(b: Seq<u8>) -> CrateHeader {
        parse_header(b)
    }

    proof fn lemma_record(self) {
        lemma_auto_spec_u32_to_from_le_bytes();
        let b = ser_header(self);
        assert(b.subrange(1, 5) =~= spec_u32_to_le_bytes(self.strtable_size));
        assert(b.subrange(5, 9) =~= spec_u32_to_le_bytes(self.strtable_offset));
        assert(b.subrange(9, 13) =~= spec_u32_to_le_bytes(self.si_size));
        assert(b.subrange(13, 17) =~= spec_u32_to_le_bytes(self.si_offset));
        assert(b.subrange(17, 21) =~= spec_u32_to_le_bytes(self.si_num));
        assert(b.subrange(21, 25) =~= spec_u32_to_le_bytes(self.ds_offset));
    }

    fn exec_width() -> (w: usize) {
        25
    }

    fn write(&self, out: &mut Vec<u8>) {
        out.push(self.c_version);
        self.strtable_size.write(out);
        self.strtable_offset.write(out);
        self.si_size.write(out);
        self.si_offset.write(out);
        self.si_num.write(out);
        self.ds_offset.write(out);
        assert(out@ =~= old(out)@ + ser_header(*self));
    }

    fn read(b: &[u8]) -> (x: CrateHeader) {
        CrateHeader {
            c_version: b[0],
            strtable_size: u32_from_le_bytes(slice_subrange(b, 1, 5)),
            strtable_offset: u32_from_le_bytes(slice_subrange(b, 5, 9)),
            si_size: u32_from_le_bytes(slice_subrange(b, 9, 13)),
            si_offset: u32_from_le_bytes(slice_subrange(b, 13, 17)),
            si_num: u32_from_le_bytes(slice_subrange(b, 17, 21)),
            ds_offset: u32_from_le_bytes(slice_subrange(b, 21, 25)),
        }
    }
}

/// The bytes of an array of records: the records' bytes, one after another.
pub open spec fn ser_records<T: Record>(s: Seq<T>) -> Seq<u8>
    decreases s.len(),
{
    if s.len() == 0 {
        Seq::empty()
    } else {
        ser_records(s.drop_last()) + s.last().to_bytes()
    }
}

/// The `n` records that the first `n * width` bytes of `b` are read as.
pub open spec fn parse_records<T: Record>(b: Seq<u8>, n: nat) -> Seq<T> {
    Seq::new(n, |i: int| T::from_bytes(b.subrange(i * T::width(), i * T::width() + T::width())))
}

/// An array of `n` records takes `n * width` bytes.
pub proof fn lemma_ser_records_len<T: Record>(s: Seq<T>)
    ensures
        ser_records(s).len() == s.len() * T::width(),
    decreases s.len(),
{
    if s.len() > 0 {
        lemma_ser_records_len(s.drop_last());
        s.last().lemma_record();
        assert((s.len() - 1) * T::width() + T::width() == s.len() * T::width())
            by (nonlinear_arith);
    }
}

/// Writing one more record appends its bytes.
pub proof fn lemma_ser_records_push<T: Record>(s: Seq<T>, x: T)
    ensures
        ser_records(s.push(x)) == ser_records(s) + x.to_bytes(),
{
    assert(s.push(x).drop_last() =~= s);
}

/// The bytes of record `i` stand at offset `i * width`.
pub proof fn lemma_ser_records_at<T: Record>(s: Seq<T>, i: int)
    requires
        0 <= i < s.len(),
    ensures
        i * T::width() + T::width() <= ser_records(s).len(),
        ser_records(s).subrange(i * T::width(), i * T::width() + T::width()) == s[i].to_bytes(),
    decreases s.len(),
{
    let w = T::width();
    lemma_ser_records_len(s);
    lemma_ser_records_len(s.drop_last());
    s.last().lemma_record();
    assert(i * w + w <= s.len() * w) by (nonlinear_arith)
        requires
            0 <= i < s.len(),
            w > 0,
    ;
    assert((s.len() - 1) * w + w == s.len() * w) by (nonlinear_arith);
    if i == s.len() - 1 {
        assert(ser_records(s).subrange(i * w, i * w + w) =~= s[i].to_bytes());
    } else {
        lemma_ser_records_at(s.drop_last(), i);
        assert(i * w + w <= (s.len() - 1) * w) by (nonlinear_arith)
            requires
                0 <= i < s.len() - 1,
                w > 0,
        ;
        assert(ser_records(s).subrange(i * w, i * w + w) =~= ser_records(
            s.drop_last(),
        ).subrange(i * w, i * w + w));
    }
}

/// Records that were written are read back unchanged, whatever follows them.
pub proof fn lemma_parse_ser_records<T: Record>(s: Seq<T>, rest: Seq<u8>)
    ensures
        parse_records::<T>(ser_records(s) + rest, s.len()) == s,
{
    let b = ser_records(s) + rest;
    let w = T::width();
    assert forall|i: int| 0 <= i < s.len() implies T::from_bytes(
        #[trigger] b.subrange(i * w, i * w + w),
    ) == s[i] by {
        lemma_ser_records_at(s, i);
        s[i].lemma_record();
        assert(b.subrange(i * w, i * w + w) =~= ser_records(s).subrange(i * w, i * w + w));
    }
    assert(parse_records::<T>(b, s.len()) =~= s);
}

/// Appends the bytes of every record of `v` to `out`.
pub fn write_records<T: Record>(v: &Vec<T>, out: &mut Vec<u8>)
    ensures
        final(out)@ == old(out)@ + ser_records(v@),
{
    let mut i: usize = 0;
    while i < v.len()
        invariant
            i <= v@.len(),
            out@ == old(out)@ + ser_records(v@.take(i as int)),
        decreases v@.len() - i,
    {
        v[i].write(out);
        proof {
            lemma_ser_records_push(v@.take(i as int), v@[i as int]);
            assert(v@.take(i as int).push(v@[i as int]) =~= v@.take(i + 1));
        }
        i = i + 1;
    }
    assert(v@.take(v@.len() as int) =~= v@);
}

/// Reads `n` records from the front of `b`; `None` where `b` is too short.
pub fn read_records<T: Record>(b: &[u8], n: usize) -> (r: Option<Vec<T>>)
    ensures
        r is Some <==> n * T::width() <= b@.len(),
        r matches Some(v) ==> v@ == parse_records::<T>(b@, n as nat),
{
    let w = T::exec_width();
    if n > b.len() / w {
        proof {
            assert(n * w > b@.len()) by (nonlinear_arith)
                requires
                    n > (b@.len() as int) / (w as int),
                    w > 0,
            ;
        }
        return None;
    }
    proof {
        assert(n * w <= b@.len()) by (nonlinear_arith)
            requires
                n <= (b@.len() as int) / (w as int),
                w > 0,
        ;
    }
    let mut v: Vec<T> = Vec::new();
    let mut i: usize = 0;
    while i < n
        invariant
            i <= n,
            w == T::width(),
            0 < w <= 32,
            n * w <= b@.len() <= usize::MAX,
            v@ == parse_records::<T>(b@, i as nat),
        decreases n - i,
    {
        proof {
            assert(i * w + w <= n * w) by (nonlinear_arith)
                requires
                    i < n,
                    w > 0,
            ;
        }
        let x = T::read(slice_subrange(b, i * w, i * w + w));
        v.push(x);
        assert(v@ =~= parse_records::<T>(b@, (i + 1) as nat));
        i = i + 1;
    }
    Some(v)
}

/// Appends the bytes of `b` to `out`.
pub fn write_bytes(b: &[u8], out: &mut Vec<u8>)
    ensures
        final(out)@ == old(out)@ + b@,
{
    let mut copy = slice_to_vec(b);
    out.append(&mut copy);
}

/// `r` is the outcome `s`, read through the view of what was decoded.
pub open spec fn decoded_as<T: View>(
    r: Result<T, DecodeError>,
    s: Result<T::V, DecodeError>,
) -> bool {
    match (r, s) {
        (Ok(x), Ok(v)) => x@ == v,
        (Err(e), Err(f)) => e == f,
        _ => false,
    }
}

/// The bytes of a package section: three string offsets, then the authors'
/// offsets with their count in front.
pub open spec fn ser_package_section(p: PackageSectionView) -> Seq<u8> {
    spec_u32_to_le_bytes(p.pkg_name) + spec_u32_to_le_bytes(p.pkg_version) + spec_u32_to_le_bytes(
        p.pkg_license,
    ) + ser_len_array(p.authors_len, p.authors)
}

/// The bytes of a dependency table section: the entries with their count in
/// front.
pub open spec fn ser_dep_table_section(d: DepTableSectionView) -> Seq<u8> {
    ser_len_array(d.entries_len, d.entries)
}

/// The bytes of a signature section: declared size, type, then the blob.
pub open spec fn ser_sig_section(g: SigStructureSectionView) -> Seq<u8> {
    spec_u32_to_le_bytes(g.sigstruct_size) + seq![g.sigstruct_type] + g.sigstruct_sig
}

/// The bytes of a data section. No length stands in front: the section index
/// says where a section ends.
pub open spec fn ser_section(d: DataSectionView) -> Seq<u8> {
    match d {
        DataSectionView::PackageSection(p) => ser_package_section(p),
        DataSectionView::DepTableSection(t) => ser_dep_table_section(t),
        DataSectionView::CrateBinarySection(b) => b,
        DataSectionView::SigStructureSection(g) => ser_sig_section(g),
    }
}

/// The bytes of the data sections, one after another.
pub open spec fn ser_sections(ds: Seq<DataSectionView>) -> Seq<u8>
    decreases ds.len(),
{
    if ds.len() == 0 {
        Seq::empty()
    } else {
        ser_sections(ds.drop_last()) + ser_section(ds.last())
    }
}

/// The bytes of everything that the fingerprint covers: magic number,
/// header, string table, section index and data sections.
pub open spec fn ser_package_body(p: CratePackageView) -> Seq<u8> {
    p.magic_number + ser_header(p.crate_header) + p.string_table + ser_records(p.section_index)
        + ser_sections(p.data_sections)
}

/// The bytes of a container: its body, then the fingerprint.
pub open spec fn ser_package(p: CratePackageView) -> Seq<u8> {
    ser_package_body(p) + p.finger_print
}

/// The package section that `b` is read as. Bytes behind the last author
/// are not looked at.
pub open spec fn parse_package_section(b: Seq<u8>) -> Result<PackageSectionView, DecodeError> {
    if b.len() < 12 {
        Err(DecodeError::Truncated)
    } else {
        match parse_len_array::<u32>(b.skip(12)) {
            Ok((authors_len, authors)) => Ok(
                PackageSectionView {
                    pkg_name: spec_u32_from_le_bytes(b.subrange(0, 4)),
                    pkg_version: spec_u32_from_le_bytes(b.subrange(4, 8)),
                    pkg_license: spec_u32_from_le_bytes(b.subrange(8, 12)),
                    authors_len,
                    authors,
                },
            ),
            Err(e) => Err(e),
        }
    }
}

/// The dependency table section that `b` is read as. Bytes behind the last
/// entry are not looked at.
pub open spec fn parse_dep_table_section(b: Seq<u8>) -> Result<DepTableSectionView, DecodeError> {
    match parse_len_array::<DepTableEntry>(b) {
        Ok((entries_len, entries)) => Ok(DepTableSectionView { entries_len, entries }),
        Err(e) => Err(e),
    }
}

/// The signature section that `b` is read as: the declared size, the type,
/// then as many bytes as the size declares.
pub open spec fn parse_sig_section(b: Seq<u8>) -> Result<SigStructureSectionView, DecodeError> {
    if b.len() < 5 {
        Err(DecodeError::Truncated)
    } else {
        let n = spec_u32_from_le_bytes(b.subrange(0, 4));
        if 5 + n > b.len() {
            Err(DecodeError::Truncated)
        } else {
            Ok(
                SigStructureSectionView {
                    sigstruct_size: n,
                    sigstruct_type: b[4],
                    sigstruct_sig: b.subrange(5, 5 + n),
                },
            )
        }
    }
}

/// The data section of type `t` that `b` is read as.
pub open spec fn parse_section(t: u8, b: Seq<u8>) -> Result<DataSectionView, DecodeError> {
    if t == 0 {
        match parse_package_section(b) {
            Ok(p) => Ok(DataSectionView::PackageSection(p)),
            Err(e) => Err(e),
        }
    } else if t == 1 {
        match parse_dep_table_section(b) {
            Ok(d) => Ok(DataSectionView::DepTableSection(d)),
            Err(e) => Err(e),
        }
    } else if t == 3 {
        Ok(DataSectionView::CrateBinarySection(b))
    } else if t == 4 {
        match parse_sig_section(b) {
            Ok(g) => Ok(DataSectionView::SigStructureSection(g)),
            Err(e) => Err(e),
        }
    } else {
        Err(DecodeError::UnknownSectionType)
    }
}

/// The data section that the index entry `e` names in `region`, the bytes
/// from the start of the data sections on.
pub open spec fn parse_indexed_section(region: Seq<u8>, e: SectionIndexEntry) -> Result<
    DataSectionView,
    DecodeError,
> {
    if !(e.sh_type == 0 || e.sh_type == 1 || e.sh_type == 3 || e.sh_type == 4) {
        Err(DecodeError::UnknownSectionType)
    } else if e.sh_offset + e.sh_size > region.len() {
        Err(DecodeError::Truncated)
    } else {
        parse_section(e.sh_type, region.subrange(e.sh_offset as int, e.sh_offset + e.sh_size))
    }
}

/// The data sections that `index` names in `region`, in the order of the
/// index; the error of the first entry that cannot be read.
pub open spec fn parse_sections(region: Seq<u8>, index: Seq<SectionIndexEntry>) -> Result<
    Seq<DataSectionView>,
    DecodeError,
>
    decreases index.len(),
{
    if index.len() == 0 {
        Ok(Seq::empty())
    } else {
        match parse_sections(region, index.drop_last()) {
            Err(e) => Err(e),
            Ok(ds) => match parse_indexed_section(region, index.last()) {
                Err(e) => Err(e),
                Ok(d) => Ok(ds.push(d)),
            },
        }
    }
}

/// The smallest container: magic number, header and fingerprint.
pub open spec fn min_package_len() -> nat {
    62
}

/// The container that `b` is read as.
///
/// The header says where the string table, the section index and the data
/// sections lie; each index entry says where its section lies, counted from
/// the start of the data sections. The last 32 bytes are the fingerprint.
pub open spec fn parse_package(b: Seq<u8>) -> Result<CratePackageView, DecodeError> {
    if b.len() < 5 {
        Err(DecodeError::Truncated)
    } else if b.subrange(0, 5) != MAGIC_NUMBER@ {
        Err(DecodeError::MagicMismatch)
    } else if b.len() < min_package_len() {
        Err(DecodeError::Truncated)
    } else {
        let h = parse_header(b.subrange(5, 30));
        if h.c_version != 0 {
            Err(DecodeError::UnsupportedVersion)
        } else if h.strtable_offset + h.strtable_size > b.len() {
            Err(DecodeError::Truncated)
        } else if h.si_offset + h.si_size > b.len() || h.si_num * 9 > h.si_size {
            Err(DecodeError::Truncated)
        } else if h.ds_offset > b.len() {
            Err(DecodeError::Truncated)
        } else {
            let index = parse_records::<SectionIndexEntry>(
                b.subrange(h.si_offset as int, h.si_offset + h.si_size),
                h.si_num as nat,
            );
            match parse_sections(b.skip(h.ds_offset as int), index) {
                Err(e) => Err(e),
                Ok(ds) => Ok(
                    CratePackageView {
                        magic_number: b.subrange(0, 5),
                        crate_header: h,
                        string_table: b.subrange(
                            h.strtable_offset as int,
                            h.strtable_offset + h.strtable_size,
                        ),
                        section_index: index,
                        data_sections: ds,
                        finger_print: b.subrange(b.len() - 32, b.len() as int),
                    },
                ),
            }
        }
    }
}

/// The bytes of an array with its length in front: the declared length,
/// then the elements.
pub open spec fn ser_len_array<T: Record>(len: u32, arr: Seq<T>) -> Seq<u8> {
    spec_u32_to_le_bytes(len) + ser_records(arr)
}

/// The array with its length in front that `b` is read as: the declared
/// length, and as many elements. Bytes behind the last element are not
/// looked at.
pub open spec fn parse_len_array<T: Record>(b: Seq<u8>) -> Result<(u32, Seq<T>), DecodeError> {
    if b.len() < 4 {
        Err(DecodeError::Truncated)
    } else {
        let n = spec_u32_from_le_bytes(b.subrange(0, 4));
        if 4 + n * T::width() > b.len() {
            Err(DecodeError::Truncated)
        } else {
            Ok((n, parse_records::<T>(b.skip(4), n as nat)))
        }
    }
}

impl<T: Record> LenArrayType<T> {
    /// The number of bytes that the array is written as.
    pub fn size(&self) -> (n: usize)
        requires
            ser_len_array(self.len, self.arr@).len() <= usize::MAX,
        ensures
            n == ser_len_array(self.len, self.arr@).len(),
    {
        proof {
            lemma_auto_spec_u32_to_from_le_bytes();
            lemma_ser_records_len(self.arr@);
        }
        4 + self.arr.len() * T::exec_width()
    }

    /// Appends the declared length and the elements to `out`.
    pub fn write(&self, out: &mut Vec<u8>)
        ensures
            final(out)@ == old(out)@ + ser_len_array(self.len, self.arr@),
    {
        self.len.write(out);
        write_records(&self.arr, out);
        assert(out@ =~= old(out)@ + ser_len_array(self.len, self.arr@));
    }

    /// Reads a length and as many elements from the front of `bin`.
    pub fn decode(bin: &[u8]) -> (r: Result<Self, DecodeError>)
        ensures
            match (r, parse_len_array::<T>(bin@)) {
                (Ok(a), Ok((n, s))) => a.len == n && a.arr@ == s,
                (Err(e), Err(f)) => e == f,
                _ => false,
            },
    {
        if bin.len() < 4 {
            return Err(DecodeError::Truncated);
        }
        let len = u32_from_le_bytes(slice_subrange(bin, 0, 4));
        match read_records::<T>(slice_subrange(bin, 4, bin.len()), len as usize) {
            None => Err(DecodeError::Truncated),
            Some(arr) => {
                assert(bin@.subrange(4, bin@.len() as int) =~= bin@.skip(4));
                Ok(LenArrayType { len, arr })
            },
        }
    }
}

impl<T: Record> RawArrayType<T> {
    /// The number of bytes that the array is written as.
    pub fn size(&self) -> (n: usize)
        requires
            ser_records(self.arr@).len() <= usize::MAX,
        ensures
            n == ser_records(self.arr@).len(),
    {
        proof {
            lemma_ser_records_len(self.arr@);
        }
        self.arr.len() * T::exec_width()
    }

    /// Reads `elem_num` elements from the front of `bin`.
    pub fn decode(bin: &[u8], elem_num: usize) -> (r: Result<Self, DecodeError>)
        ensures
            r is Ok <==> elem_num * T::width() <= bin@.len(),
            r matches Ok(a) ==> a.arr@ == parse_records::<T>(bin@, elem_num as nat),
            r matches Err(e) ==> e == DecodeError::Truncated,
    {
        match read_records::<T>(bin, elem_num) {
            Some(arr) => Ok(RawArrayType { arr }),
            None => Err(DecodeError::Truncated),
        }
    }
}

impl CrateHeader {
    /// The number of bytes that the header is written as.
    pub fn size(&self) -> (n: usize)
        ensures
            n == ser_header(*self).len(),
            n == 25,
    {
        proof {
            self.lemma_record();
        }
        25
    }
}

impl SectionIndexEntry {
    /// The number of bytes that the entry is written as.
    pub fn size(&self) -> (n: usize)
        ensures
            n == ser_index_entry(*self).len(),
            n == 9,
    {
        proof {
            self.lemma_record();
        }
        9
    }
}

impl PackageSection {
    /// The number of bytes that the section is written as.
    pub fn size(&self) -> (n: usize)
        requires
            ser_package_section(self@).len() <= usize::MAX,
        ensures
            n == ser_package_section(self@).len(),
    {
        proof {
            lemma_auto_spec_u32_to_from_le_bytes();
            lemma_ser_records_len(self.pkg_authors.arr@);
        }
        16 + self.pkg_authors.arr.len() * 4
    }

    /// Appends the section's bytes to `out`.
    pub fn write(&self, out: &mut Vec<u8>)
        ensures
            final(out)@ == old(out)@ + ser_package_section(self@),
    {
        self.pkg_name.write(out);
        self.pkg_version.write(out);
        self.pkg_license.write(out);
        self.pkg_authors.write(out);
        assert(out@ =~= old(out)@ + ser_package_section(self@));
    }

    /// Reads a package section from `bin`.
    pub fn decode(bin: &[u8]) -> (r: Result<Self, DecodeError>)
        ensures
            decoded_as(r, parse_package_section(bin@)),
    {
        if bin.len() < 12 {
            return Err(DecodeError::Truncated);
        }
        let rest = slice_subrange(bin, 12, bin.len());
        proof {
            assert(rest@ =~= bin@.skip(12));
        }
        match LenArrayType::<u32>::decode(rest) {
            Err(e) => Err(e),
            Ok(pkg_authors) => Ok(
                PackageSection {
                    pkg_name: u32_from_le_bytes(slice_subrange(bin, 0, 4)),
                    pkg_version: u32_from_le_bytes(slice_subrange(bin, 4, 8)),
                    pkg_license: u32_from_le_bytes(slice_subrange(bin, 8, 12)),
                    pkg_authors,
                },
            ),
        }
    }
}

impl DepTableSection {
    /// The number of bytes that the section is written as.
    pub fn size(&self) -> (n: usize)
        requires
            ser_dep_table_section(self@).len() <= usize::MAX,
        ensures
            n == ser_dep_table_section(self@).len(),
    {
        proof {
            lemma_auto_spec_u32_to_from_le_bytes();
            lemma_ser_records_len(self.entries.arr@);
        }
        4 + self.entries.arr.len() * 17
    }

    /// Appends the section's bytes to `out`.
    pub fn write(&self, out: &mut Vec<u8>)
        ensures
            final(out)@ == old(out)@ + ser_dep_table_section(self@),
    {
        self.entries.write(out);
    }

    /// Reads a dependency table section from `bin`.
    pub fn decode(bin: &[u8]) -> (r: Result<Self, DecodeError>)
        ensures
            decoded_as(r, parse_dep_table_section(bin@)),
    {
        match LenArrayType::<DepTableEntry>::decode(bin) {
            Err(e) => Err(e),
            Ok(entries) => Ok(DepTableSection { entries }),
        }
    }
}

impl CrateBinarySection {
    /// The number of bytes that the section is written as.
    pub fn size(&self) -> (n: usize)
        ensures
            n == self@.len(),
    {
        self.bin.arr.len()
    }

    /// Appends the section's bytes to `out`.
    pub fn write(&self, out: &mut Vec<u8>)
        ensures
            final(out)@ == old(out)@ + self@,
    {
        write_bytes(self.bin.arr.as_slice(), out);
    }

    /// Reads a crate binary of exactly `size_in_bytes` bytes from the front
    /// of `bin`.
    pub fn decode(bin: &[u8], size_in_bytes: usize) -> (r: Result<Self, DecodeError>)
        ensures
            r is Ok <==> size_in_bytes <= bin@.len(),
            r matches Ok(c) ==> c@ == bin@.subrange(0, size_in_bytes as int),
            r matches Err(e) ==> e == DecodeError::Truncated,
    {
        if size_in_bytes > bin.len() {
            return Err(DecodeError::Truncated);
        }
        Ok(
            CrateBinarySection {
                bin: RawArrayType { arr: slice_to_vec(slice_subrange(bin, 0, size_in_bytes)) },
            },
        )
    }
}

impl SigStructureSection {
    /// The number of bytes that the section is written as.
    pub fn size(&self) -> (n: usize)
        requires
            ser_sig_section(self@).len() <= usize::MAX,
        ensures
            n == ser_sig_section(self@).len(),
    {
        proof {
            lemma_auto_spec_u32_to_from_le_bytes();
        }
        5 + self.sigstruct_sig.arr.len()
    }

    /// Appends the section's bytes to `out`.
    pub fn write(&self, out: &mut Vec<u8>)
        ensures
            final(out)@ == old(out)@ + ser_sig_section(self@),
    {
        self.sigstruct_size.write(out);
        out.push(self.sigstruct_type);
        write_bytes(self.sigstruct_sig.arr.as_slice(), out);
        assert(out@ =~= old(out)@ + ser_sig_section(self@));
    }

    /// Reads a signature section from `bin`: the size, the type, then as
    /// many bytes as the size says.
    pub fn decode(bin: &[u8]) -> (r: Result<Self, DecodeError>)
        ensures
            decoded_as(r, parse_sig_section(bin@)),
    {
        if bin.len() < 5 {
            return Err(DecodeError::Truncated);
        }
        let n = u32_from_le_bytes(slice_subrange(bin, 0, 4));
        if n as usize > bin.len() - 5 {
            return Err(DecodeError::Truncated);
        }
        Ok(
            SigStructureSection {
                sigstruct_size: n,
                sigstruct_type: bin[4],
                sigstruct_sig: RawArrayType {
                    arr: slice_to_vec(slice_subrange(bin, 5, 5 + n as usize)),
                },
            },
        )
    }
}

impl DataSection {
    /// The number of bytes that the section is written as.
    pub fn size(&self) -> (n: usize)
        requires
            ser_section(self@).len() <= usize::MAX,
        ensures
            n == ser_section(self@).len(),
    {
        match self {
            DataSection::PackageSection(x) => x.size(),
            DataSection::DepTableSection(x) => x.size(),
            DataSection::CrateBinarySection(x) => x.size(),
            DataSection::SigStructureSection(x) => x.size(),
        }
    }

    /// Appends the section's bytes to `out`.
    pub fn write(&self, out: &mut Vec<u8>)
        ensures
            final(out)@ == old(out)@ + ser_section(self@),
    {
        match self {
            DataSection::PackageSection(x) => x.write(out),
            DataSection::DepTableSection(x) => x.write(out),
            DataSection::CrateBinarySection(x) => x.write(out),
            DataSection::SigStructureSection(x) => x.write(out),
        }
    }

    /// Reads a data section of type `typ` from `bin`.
    pub fn decode(typ: u8, bin: &[u8]) -> (r: Result<Self, DecodeError>)
        ensures
            decoded_as(r, parse_section(typ, bin@)),
    {
        if typ == 0 {
            match PackageSection::decode(bin) {
                Ok(x) => Ok(DataSection::PackageSection(x)),
                Err(e) => Err(e),
            }
        } else if typ == 1 {
            match DepTableSection::decode(bin) {
                Ok(x) => Ok(DataSection::DepTableSection(x)),
                Err(e) => Err(e),
            }
        } else if typ == 3 {
            match CrateBinarySection::decode(bin, bin.len()) {
                Ok(x) => {
                    assert(bin@.subrange(0, bin@.len() as int) =~= bin@);
                    Ok(DataSection::CrateBinarySection(x))
                },
                Err(e) => Err(e),
            }
        } else if typ == 4 {
            match SigStructureSection::decode(bin) {
                Ok(x) => Ok(DataSection::SigStructureSection(x)),
                Err(e) => Err(e),
            }
        } else {
            Err(DecodeError::UnknownSectionType)
        }
    }
}

/// The number of entries of `s` that are not signature entries.
pub open spec fn count_non_sig(s: Seq<SectionIndexEntry>) -> nat
    decreases s.len(),
{
    if s.len() == 0 {
        0
    } else {
        count_non_sig(s.drop_last()) + if s.last().sh_type != 4 {
            1nat
        } else {
            0nat
        }
    }
}

/// The last entry of `s` that is not a signature entry.
pub open spec fn last_non_sig(s: Seq<SectionIndexEntry>) -> Option<SectionIndexEntry>
    decreases s.len(),
{
    if s.len() == 0 {
        None
    } else if s.last().sh_type != 4 {
        Some(s.last())
    } else {
        last_non_sig(s.drop_last())
    }
}

/// Where, counted from the start of the data sections, the last section
/// that is not a signature ends; 0 where there is none.
pub open spec fn non_sig_data_len(s: Seq<SectionIndexEntry>) -> nat {
    match last_non_sig(s) {
        Some(e) => (e.sh_offset + e.sh_size) as nat,
        None => 0,
    }
}

/// The position of the first entry of `s` with type `typ`.
pub open spec fn first_of_type(s: Seq<SectionIndexEntry>, typ: int) -> Option<int>
    decreases s.len(),
{
    if s.len() == 0 {
        None
    } else {
        match first_of_type(s.drop_last(), typ) {
            Some(i) => Some(i),
            None => if s.last().sh_type == typ {
                Some(s.len() - 1)
            } else {
                None
            },
        }
    }
}

/// `first_of_type` finds an entry of the type, and none of that type
/// stands before it.
pub proof fn lemma_first_of_type(s: Seq<SectionIndexEntry>, typ: int)
    ensures
        match first_of_type(s, typ) {
            Some(i) => 0 <= i < s.len() && s[i].sh_type == typ && forall|j: int|
                0 <= j < i ==> s[j].sh_type != typ,
            None => forall|j: int| 0 <= j < s.len() ==> s[j].sh_type != typ,
        },
    decreases s.len(),
{
    if s.len() > 0 {
        let t = s.drop_last();
        lemma_first_of_type(t, typ);
        assert(forall|j: int| 0 <= j < t.len() ==> t[j] == s[j]);
    }
}

/// There are no more entries that are not signatures than entries.
pub proof fn lemma_count_non_sig_le(s: Seq<SectionIndexEntry>)
    ensures
        count_non_sig(s) <= s.len(),
    decreases s.len(),
{
    if s.len() > 0 {
        lemma_count_non_sig_le(s.drop_last());
    }
}

/// `n` zero bytes.
pub open spec fn zeros(n: nat) -> Seq<u8> {
    Seq::new(n, |i: int| 0u8)
}

impl SectionIndex {
    /// The number of bytes that the index is written as.
    pub fn size(&self) -> (n: usize)
        requires
            ser_records(self@).len() <= usize::MAX,
        ensures
            n == ser_records(self@).len(),
            n == self@.len() * 9,
    {
        proof {
            lemma_ser_records_len(self@);
        }
        self.entries.arr.len() * 9
    }

    /// The number of entries.
    pub fn num(&self) -> (n: usize)
        ensures
            n == self@.len(),
    {
        self.entries.arr.len()
    }

    /// The number of entries that are not signature entries.
    pub fn none_sig_num(&self) -> (n: usize)
        ensures
            n == count_non_sig(self@),
    {
        let mut n: usize = 0;
        let mut i: usize = 0;
        while i < self.entries.arr.len()
            invariant
                i <= self@.len(),
                n == count_non_sig(self@.take(i as int)),
                n <= i,
            decreases self@.len() - i,
        {
            assert(self@.take(i + 1).drop_last() =~= self@.take(i as int));
            if self.entries.arr[i].sh_type != 4 {
                n = n + 1;
            }
            i = i + 1;
        }
        assert(self@.take(self@.len() as int) =~= self@);
        n
    }

    /// The number of bytes that the entries which are not signature entries
    /// are written as.
    pub fn none_sig_size(&self) -> (n: usize)
        requires
            ser_records(self@).len() <= usize::MAX,
        ensures
            n == count_non_sig(self@) * 9,
    {
        proof {
            lemma_ser_records_len(self@);
            lemma_count_non_sig_le(self@);
        }
        self.none_sig_num() * 9
    }

    /// The number of signature entries.
    pub fn sig_num(&self) -> (n: usize)
        ensures
            n == self@.len() - count_non_sig(self@),
    {
        proof {
            lemma_count_non_sig_le(self@);
        }
        self.num() - self.none_sig_num()
    }

    /// The number of bytes that the signature entries are written as.
    pub fn sig_size(&self) -> (n: usize)
        requires
            ser_records(self@).len() <= usize::MAX,
        ensures
            n == (self@.len() - count_non_sig(self@)) * 9,
    {
        proof {
            lemma_count_non_sig_le(self@);
        }
        self.size() - self.none_sig_size()
    }

    /// The index as it is signed: its first `no_sig_size` bytes, or all of
    /// them where there are fewer, then `size - no_sig_size` zero bytes.
    pub fn encode_fake_to_vec(&self, no_sig_size: usize, size: usize) -> (buf: Vec<u8>)
        requires
            no_sig_size <= size,
        ensures
            buf@ == (if no_sig_size <= ser_records(self@).len() {
                ser_records(self@).take(no_sig_size as int)
            } else {
                ser_records(self@)
            }) + zeros((size - no_sig_size) as nat),
    {
        let mut buf: Vec<u8> = Vec::new();
        write_records(&self.entries.arr, &mut buf);
        buf.truncate(no_sig_size);
        let ghost head = buf@;
        let mut i: usize = no_sig_size;
        while i < size
            invariant
                no_sig_size <= i <= size,
                buf@ == head + zeros((i - no_sig_size) as nat),
            decreases size - i,
        {
            buf.push(0);
            assert(buf@ =~= head + zeros((i + 1 - no_sig_size) as nat));
            i = i + 1;
        }
        assert(no_sig_size <= ser_records(self@).len() ==> head =~= ser_records(self@).take(
            no_sig_size as int,
        ));
        buf
    }

    /// Where, counted from the start of the data sections, the signature
    /// sections begin: the end of the last section that is not a signature.
    pub fn datasection_size_without_sig(&self) -> (n: u64)
        ensures
            n == non_sig_data_len(self@),
    {
        let mut i: usize = self.entries.arr.len();
        assert(self@.take(i as int) =~= self@);
        while i > 0
            invariant
                i <= self@.len(),
                last_non_sig(self@) == last_non_sig(self@.take(i as int)),
            decreases i,
        {
            assert(self@.take(i as int).drop_last() =~= self@.take(i - 1));
            let e = self.entries.arr[i - 1];
            if e.sh_type != 4 {
                return e.sh_offset as u64 + e.sh_size as u64;
            }
            i = i - 1;
        }
        0
    }

    /// Reads an index of `elem_num` entries from the front of `bin`.
    pub fn decode(bin: &[u8], elem_num: usize) -> (r: Result<Self, DecodeError>)
        ensures
            r is Ok <==> elem_num * 9 <= bin@.len(),
            r matches Ok(x) ==> x@ == parse_records::<SectionIndexEntry>(bin@, elem_num as nat),
            r matches Err(e) ==> e == DecodeError::Truncated,
    {
        match RawArrayType::<SectionIndexEntry>::decode(bin, elem_num) {
            Ok(entries) => Ok(SectionIndex { entries }),
            Err(e) => Err(e),
        }
    }

    /// The position of the first entry of type `typ`, if there is one.
    pub fn find_section(&self, typ: u8) -> (r: Option<usize>)
        ensures
            match r {
                Some(i) => first_of_type(self@, typ as int) == Some(i as int),
                None => first_of_type(self@, typ as int) is None,
            },
    {
        let mut i: usize = 0;
        while i < self.entries.arr.len()
            invariant
                i <= self@.len(),
                first_of_type(self@.take(i as int), typ as int) is None,
            decreases self@.len() - i,
        {
            assert(self@.take(i + 1).drop_last() =~= self@.take(i as int));
            if self.entries.arr[i].sh_type == typ {
                proof {
                    lemma_first_of_type_prefix(self@, i + 1, typ as int);
                }
                return Some(i);
            }
            i = i + 1;
        }
        assert(self@.take(self@.len() as int) =~= self@);
        None
    }
}

/// What `first_of_type` finds in a prefix, it finds in the whole.
pub proof fn lemma_first_of_type_prefix(s: Seq<SectionIndexEntry>, n: int, typ: int)
    requires
        0 <= n <= s.len(),
        first_of_type(s.take(n), typ) is Some,
    ensures
        first_of_type(s, typ) == first_of_type(s.take(n), typ),
    decreases s.len() - n,
{
    if n < s.len() {
        assert(s.take(n + 1).drop_last() =~= s.take(n));
        lemma_first_of_type_prefix(s, n + 1, typ);
    } else {
        assert(s.take(n) =~= s);
    }
}

/// Where section `i` starts, counted from the start of the data sections:
/// the number of bytes that the sections before it take.
#[verifier::opaque]
pub open spec fn section_offset(ds: Seq<DataSectionView>, i: int) -> nat {
    ser_sections(ds.take(i)).len()
}

/// The index entry of section `i`: its type, where it starts and how many
/// bytes it takes.
pub open spec fn index_entry_of(ds: Seq<DataSectionView>, i: int) -> SectionIndexEntry {
    SectionIndexEntry {
        sh_type: ds[i].type_code(),
        sh_offset: section_offset(ds, i) as u32,
        sh_size: ser_section(ds[i]).len() as u32,
    }
}

/// Every offset and every size of the section index of the data sections
/// `ds` fits in 32 bits.
#[verifier::opaque]
pub open spec fn index_fits(ds: Seq<DataSectionView>) -> bool {
    forall|i: int|
        0 <= i < ds.len() ==> (#[trigger] section_offset(ds, i)) <= u32::MAX && ser_section(ds[i]).len()
            <= u32::MAX
}

/// In an index that fits, an entry holds the offset and the size of its
/// section as they are, and the section ends within the data sections.
pub proof fn lemma_index_fits_at(ds: Seq<DataSectionView>, i: int)
    requires
        index_fits(ds),
        0 <= i < ds.len(),
    ensures
        index_of_sections(ds)[i].sh_offset == section_offset(ds, i),
        index_of_sections(ds)[i].sh_size == ser_section(ds[i]).len(),
        index_of_sections(ds)[i].sh_type == ds[i].type_code(),
        section_offset(ds, i) + ser_section(ds[i]).len() == section_offset(ds, i + 1),
        section_offset(ds, i + 1) <= ser_sections(ds).len(),
{
    reveal(index_fits);
    reveal(section_offset);
    lemma_ser_sections_take(ds, i);
}

/// An index fits where the offset and the size of each of its sections
/// fit in 32 bits.
pub proof fn lemma_index_fits_intro(ds: Seq<DataSectionView>)
    requires
        forall|i: int|
            0 <= i < ds.len() ==> (#[trigger] section_offset(ds, i)) <= u32::MAX && ser_section(
                ds[i],
            ).len() <= u32::MAX,
    ensures
        index_fits(ds),
{
    reveal(index_fits);
    assert forall|i: int| 0 <= i < ds.len() implies (#[trigger] section_offset(ds, i))
        <= u32::MAX && ser_section(ds[i]).len() <= u32::MAX by {}
}

/// An index that does not fit has a section whose offset or size does
/// not fit in 32 bits.
pub proof fn lemma_index_fits_not(ds: Seq<DataSectionView>, i: int)
    requires
        0 <= i < ds.len(),
        section_offset(ds, i) > u32::MAX || ser_section(ds[i]).len() > u32::MAX,
    ensures
        !index_fits(ds),
{
    reveal(index_fits);
    if index_fits(ds) {
        assert(ser_section(ds[i]).len() <= u32::MAX);
        assert(section_offset(ds, i) <= u32::MAX);
    }
}

/// Where the index of data sections fits, so does that of the first `n`
/// of them.
pub proof fn lemma_index_fits_take(ds: Seq<DataSectionView>, n: int)
    requires
        index_fits(ds),
        0 <= n <= ds.len(),
    ensures
        index_fits(ds.take(n)),
        index_of_sections(ds.take(n)) == index_of_sections(ds).take(n),
{
    reveal(index_fits);
    reveal(section_offset);
    let p = ds.take(n);
    assert forall|i: int| 0 <= i < p.len() implies (#[trigger] section_offset(p, i))
        <= u32::MAX && ser_section(p[i]).len() <= u32::MAX by {
        assert(p.take(i) =~= ds.take(i));
        assert(p[i] == ds[i]);
        assert(section_offset(ds, i) <= u32::MAX);
    }
    assert forall|i: int| 0 <= i < p.len() implies index_of_sections(p)[i] == index_of_sections(
        ds,
    )[i] by {
        assert(p.take(i) =~= ds.take(i));
    }
    assert(index_of_sections(p) =~= index_of_sections(ds).take(n));
}

/// The section index of the data sections `ds`.
pub open spec fn index_of_sections(ds: Seq<DataSectionView>) -> Seq<SectionIndexEntry> {
    Seq::new(ds.len(), |i: int| index_entry_of(ds, i))
}

/// Sections written one after another take the sum of their sizes, and a
/// prefix of them takes no more than all.
pub proof fn lemma_ser_sections_take(ds: Seq<DataSectionView>, i: int)
    requires
        0 <= i < ds.len(),
    ensures
        ser_sections(ds.take(i + 1)) == ser_sections(ds.take(i)) + ser_section(ds[i]),
        ser_sections(ds.take(i + 1)).len() <= ser_sections(ds).len(),
    decreases ds.len() - i,
{
    assert(ds.take(i + 1).drop_last() =~= ds.take(i));
    if i + 1 < ds.len() {
        lemma_ser_sections_take(ds, i + 1);
    } else {
        assert(ds.take(i + 1) =~= ds);
    }
}

impl DataSectionCollectionType {
    /// The number of bytes that the data sections are written as.
    pub fn size(&self) -> (n: usize)
        requires
            ser_sections(self@).len() <= usize::MAX,
        ensures
            n == ser_sections(self@).len(),
    {
        let mut n: usize = 0;
        let mut i: usize = 0;
        while i < self.col.arr.len()
            invariant
                i <= self@.len(),
                self@.len() == self.col.arr@.len(),
                n == ser_sections(self@.take(i as int)).len(),
                ser_sections(self@).len() <= usize::MAX,
            decreases self@.len() - i,
        {
            proof {
                lemma_ser_sections_take(self@, i as int);
            }
            n = n + self.col.arr[i].size();
            i = i + 1;
        }
        assert(self@.take(self@.len() as int) =~= self@);
        n
    }

    /// For each data section, the number of bytes it takes and where it
    /// starts, counted from the start of the data sections.
    pub fn encode_size_offset(&self) -> (v: Vec<(usize, usize)>)
        requires
            ser_sections(self@).len() <= usize::MAX,
        ensures
            v@.len() == self@.len(),
            forall|i: int|
                0 <= i < self@.len() ==> (#[trigger] v@[i]).0 == ser_section(self@[i]).len()
                    && v@[i].1 == section_offset(self@, i),
    {
        let mut v: Vec<(usize, usize)> = Vec::new();
        let mut offset: usize = 0;
        let mut i: usize = 0;
        proof {
            reveal(section_offset);
            assert(self@.take(0) =~= Seq::<DataSectionView>::empty());
        }
        while i < self.col.arr.len()
            invariant
                i <= self@.len(),
                self@.len() == self.col.arr@.len(),
                v@.len() == i,
                offset == section_offset(self@, i as int),
                ser_sections(self@).len() <= usize::MAX,
                forall|j: int|
                    0 <= j < i ==> (#[trigger] v@[j]).0 == ser_section(self@[j]).len() && v@[j].1
                        == section_offset(self@, j),
            decreases self@.len() - i,
        {
            proof {
                reveal(section_offset);
                lemma_ser_sections_take(self@, i as int);
            }
            let size = self.col.arr[i].size();
            v.push((size, offset));
            offset = offset + size;
            i = i + 1;
        }
        v
    }

    /// Appends the bytes of all data sections to `out`.
    pub fn write(&self, out: &mut Vec<u8>)
        ensures
            final(out)@ == old(out)@ + ser_sections(self@),
    {
        let mut i: usize = 0;
        while i < self.col.arr.len()
            invariant
                i <= self@.len(),
                self@.len() == self.col.arr@.len(),
                out@ == old(out)@ + ser_sections(self@.take(i as int)),
            decreases self@.len() - i,
        {
            proof {
                lemma_ser_sections_take(self@, i as int);
            }
            self.col.arr[i].write(out);
            i = i + 1;
        }
        assert(self@.take(self@.len() as int) =~= self@);
    }

    /// The first `trunc_len` bytes of the data sections, or all of them
    /// where there are fewer.
    pub fn encode_fake_to_vec(&self, trunc_len: usize) -> (buf: Vec<u8>)
        ensures
            buf@ == if trunc_len <= ser_sections(self@).len() {
                ser_sections(self@).take(trunc_len as int)
            } else {
                ser_sections(self@)
            },
    {
        let mut buf: Vec<u8> = Vec::new();
        self.write(&mut buf);
        assert(buf@ =~= ser_sections(self@));
        buf.truncate(trunc_len);
        assert(trunc_len <= ser_sections(self@).len() ==> buf@ =~= ser_sections(self@).take(
            trunc_len as int,
        ));
        buf
    }

    /// Reads the data sections that `index` names from `region`, the bytes
    /// from the start of the data sections on.
    pub fn decode(region: &[u8], index: &SectionIndex) -> (r: Result<Self, DecodeError>)
        ensures
            decoded_as(r, parse_sections(region@, index@)),
    {
        let mut col: Vec<DataSection> = Vec::new();
        let mut i: usize = 0;
        assert(Seq::new(col@.len(), |k: int| col@[k]@) =~= Seq::<DataSectionView>::empty());
        assert(index@.take(0) =~= Seq::<SectionIndexEntry>::empty());
        while i < index.entries.arr.len()
            invariant
                i <= index@.len(),
                col@.len() == i,
                parse_sections(region@, index@.take(i as int)) == Ok::<
                    Seq<DataSectionView>,
                    DecodeError,
                >(Seq::new(col@.len(), |k: int| col@[k]@)),
            decreases index@.len() - i,
        {
            let e = index.entries.arr[i];
            proof {
                assert(index@.take(i + 1).drop_last() =~= index@.take(i as int));
                if i + 1 < index@.len() {
                    lemma_parse_sections_err(region@, index@, i + 1);
                } else {
                    assert(index@.take(i + 1) =~= index@);
                }
            }
            if !(e.sh_type == 0 || e.sh_type == 1 || e.sh_type == 3 || e.sh_type == 4) {
                return Err(DecodeError::UnknownSectionType);
            }
            if e.sh_offset as u64 + e.sh_size as u64 > region.len() as u64 {
                return Err(DecodeError::Truncated);
            }
            let start = e.sh_offset as usize;
            let end = start + e.sh_size as usize;
            match DataSection::decode(e.sh_type, slice_subrange(region, start, end)) {
                Err(err) => {
                    return Err(err);
                },
                Ok(d) => {
                    let ghost before = Seq::new(col@.len(), |k: int| col@[k]@);
                    col.push(d);
                    assert(Seq::new(col@.len(), |k: int| col@[k]@) =~= before.push(d@));
                },
            }
            i = i + 1;
        }
        assert(index@.take(index@.len() as int) =~= index@);
        Ok(DataSectionCollectionType { col: RawArrayType { arr: col } })
    }
}

/// Where a prefix of the index cannot be read, the whole index cannot, and
/// for the same reason.
pub proof fn lemma_parse_sections_err(region: Seq<u8>, index: Seq<SectionIndexEntry>, n: int)
    requires
        0 <= n <= index.len(),
    ensures
        parse_sections(region, index.take(n)) matches Err(e) ==> parse_sections(region, index)
            == Err::<Seq<DataSectionView>, DecodeError>(e),
    decreases index.len() - n,
{
    if n < index.len() {
        assert(index.take(n + 1).drop_last() =~= index.take(n));
        lemma_parse_sections_err(region, index, n + 1);
    } else {
        assert(index.take(n) =~= index);
    }
}

/// `mn` is the magic number.
pub fn is_magic_number(mn: &[u8; 5]) -> (b: bool)
    ensures
        b == (mn@ == MAGIC_NUMBER@),
{
    let mut i: usize = 0;
    while i < 5
        invariant
            i <= 5,
            forall|j: int| 0 <= j < i ==> mn@[j] == MAGIC_NUMBER@[j],
        decreases 5 - i,
    {
        if mn[i] != MAGIC_NUMBER[i] {
            return false;
        }
        i = i + 1;
    }
    assert(mn@ =~= MAGIC_NUMBER@);
    true
}

impl CratePackage {
    /// The bytes of the container.
    pub fn encode_to_vec(&self) -> (bytes: Vec<u8>)
        ensures
            bytes@ == ser_package(self@),
    {
        let mut out: Vec<u8> = Vec::new();
        write_bytes(self.magic_number.as_slice(), &mut out);
        self.crate_header.write(&mut out);
        write_bytes(self.string_table.arr.as_slice(), &mut out);
        write_records(&self.section_index.entries.arr, &mut out);
        self.data_sections.write(&mut out);
        write_bytes(self.finger_print.as_slice(), &mut out);
        assert(out@ =~= ser_package(self@));
        out
    }

    /// Reads a container from `bin`; the same as [`CratePackage::decode`].
    pub fn decode_from_slice(bin: &[u8]) -> (r: Result<CratePackage, DecodeError>)
        ensures
            decoded_as(r, parse_package(bin@)),
    {
        CratePackage::decode(bin)
    }

    /// Reads a container from `bin`: the magic number and the header, then
    /// string table, section index and data sections where the header and
    /// the index say they lie, and the fingerprint from the end.
    pub fn decode(bin: &[u8]) -> (r: Result<CratePackage, DecodeError>)
        ensures
            decoded_as(r, parse_package(bin@)),
    {
        if bin.len() < 5 {
            return Err(DecodeError::Truncated);
        }
        let mut magic_number: [u8; 5] = [0; 5];
        let mut i: usize = 0;
        while i < 5
            invariant
                i <= 5,
                bin@.len() >= 5,
                forall|j: int| 0 <= j < i ==> magic_number@[j] == bin@[j],
            decreases 5 - i,
        {
            magic_number[i] = bin[i];
            i = i + 1;
        }
        assert(magic_number@ =~= bin@.subrange(0, 5));
        if !is_magic_number(&magic_number) {
            return Err(DecodeError::MagicMismatch);
        }
        if bin.len() < 62 {
            return Err(DecodeError::Truncated);
        }
        let h = CrateHeader::read(slice_subrange(bin, 5, 30));
        if h.c_version != CRATEVERSION {
            return Err(DecodeError::UnsupportedVersion);
        }
        let len = bin.len() as u64;
        if h.strtable_offset as u64 + h.strtable_size as u64 > len {
            return Err(DecodeError::Truncated);
        }
        if h.si_offset as u64 + h.si_size as u64 > len || h.si_num as u64 * 9 > h.si_size as u64 {
            return Err(DecodeError::Truncated);
        }
        if h.ds_offset as u64 > len {
            return Err(DecodeError::Truncated);
        }
        let st_start = h.strtable_offset as usize;
        let st_end = st_start + h.strtable_size as usize;
        let string_table = RawArrayType {
            arr: slice_to_vec(slice_subrange(bin, st_start, st_end)),
        };
        let si_start = h.si_offset as usize;
        let si_end = si_start + h.si_size as usize;
        let section_index = match SectionIndex::decode(
            slice_subrange(bin, si_start, si_end),
            h.si_num as usize,
        ) {
            Ok(x) => x,
            Err(e) => {
                return Err(e);
            },
        };
        let region = slice_subrange(bin, h.ds_offset as usize, bin.len());
        assert(region@ =~= bin@.skip(h.ds_offset as int));
        let data_sections = match DataSectionCollectionType::decode(region, &section_index) {
            Ok(x) => x,
            Err(e) => {
                return Err(e);
            },
        };
        let mut finger_print: [u8; 32] = [0; 32];
        let base = bin.len() - 32;
        let mut k: usize = 0;
        while k < 32
            invariant
                k <= 32,
                base + 32 == bin@.len() <= usize::MAX,
                forall|j: int| 0 <= j < k ==> finger_print@[j] == bin@[base + j],
            decreases 32 - k,
        {
            finger_print[k] = bin[base + k];
            k = k + 1;
        }
        assert(finger_print@ =~= bin@.subrange(bin@.len() - 32, bin@.len() as int));
        Ok(
            CratePackage {
                magic_number,
                crate_header: h,
                string_table,
                section_index,
                data_sections,
                finger_print,
            },
        )
    }
}

} // verus!
