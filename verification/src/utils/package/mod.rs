//! The records of the container, as they stand in memory.
//!
//! Every record here is plain data. What its bytes are, and how bytes become
//! a record again, is said in [`codec`].
pub mod bin;
pub mod codec;

use vstd::prelude::*;

verus! {

/// Unsigned file offset
pub type Off = u32;

/// Unsigned file size
pub type Size = u32;

/// Unsigned type id
pub type Type = u8;

/// Unsigned small int
pub type Uchar = u8;

/// Unsigned string offset
pub type StrOff = u32;

/// An array that is written as its declared length followed by its elements.
#[derive(Debug, Clone, PartialEq, Eq)]
pub struct LenArrayType<T> {
    pub len: Size,
    pub arr: Vec<T>,
}

impl<T> LenArrayType<T> {
    /// The declared length is the number of elements held.
    pub open spec fn wf(&self) -> bool {
        self.len == self.arr@.len()
    }

    /// An array without elements, with 0 as its declared length.
    pub fn new() -> (r: Self)
        ensures
            r.len == 0,
            r.arr@ == Seq::<T>::empty(),
            r.wf(),
    {
        LenArrayType { len: 0, arr: Vec::new() }
    }

    /// Takes `arr` as the elements and its length as the declared length.
    pub fn from_vec(arr: Vec<T>) -> (r: Self)
        requires
            arr@.len() <= u32::MAX,
        ensures
            r.arr == arr,
            r.len == arr@.len(),
            r.wf(),
    {
        Self { len: arr.len() as Size, arr }
    }
}

impl<T: Copy> LenArrayType<T> {
    /// A copy of the elements of `v`, with its length as the declared length.
    pub fn copy_from_vec(v: &Vec<T>) -> (r: Self)
        requires
            v@.len() <= u32::MAX,
        ensures
            r.arr@ == v@,
            r.len == v@.len(),
            r.wf(),
    {
        let mut arr: Vec<T> = Vec::new();
        let mut i: usize = 0;
        while i < v.len()
            invariant
                i <= v@.len(),
                arr@ == v@.take(i as int),
            decreases v@.len() - i,
        {
            arr.push(v[i]);
            i = i + 1;
        }
        Self { len: v.len() as Size, arr }
    }

    /// A copy of the elements.
    pub fn to_vec(&self) -> (r: Vec<T>)
        ensures
            r@ == self.arr@,
    {
        let mut arr: Vec<T> = Vec::new();
        let mut i: usize = 0;
        while i < self.arr.len()
            invariant
                i <= self.arr@.len(),
                arr@ == self.arr@.take(i as int),
            decreases self.arr@.len() - i,
        {
            arr.push(self.arr[i]);
            i = i + 1;
        }
        arr
    }
}

/// An array that is written as its elements alone; a reader learns their
/// number elsewhere.
#[derive(Debug, Clone, PartialEq, Eq)]
pub struct RawArrayType<T> {
    pub arr: Vec<T>,
}

impl<T> RawArrayType<T> {
    /// An array without elements.
    pub fn new() -> (r: Self)
        ensures
            r.arr@ == Seq::<T>::empty(),
    {
        Self { arr: Vec::new() }
    }

    /// The array of the elements `arr`.
    pub fn from_vec(arr: Vec<T>) -> (r: Self)
        ensures
            r.arr == arr,
    {
        Self { arr }
    }
}

/// The number of bytes of the magic number.
pub const MAGIC_NUMBER_LEN: usize = 5;

/// The type of the magic number.
pub type MagicNumberType = [Uchar; 5];

/// The magic number with which every container begins: `CRATE`.
pub const MAGIC_NUMBER: MagicNumberType = [0x43, 0x52, 0x41, 0x54, 0x45];

/// The number of bytes of the fingerprint.
pub const FINGERPRINT_LEN: usize = 32;

/// The type of the fingerprint.
pub type FingerPrintType = [Uchar; 32];

/// The version of the format that this library writes and reads.
pub const CRATEVERSION: Uchar = 0;

/// The header that follows the magic number.
#[derive(Debug, Clone, Copy, PartialEq, Eq)]
pub struct CrateHeader {
    pub c_version: Uchar,
    pub strtable_size: Size,
    pub strtable_offset: Off,
    pub si_size: Size,
    pub si_offset: Off,
    pub si_num: Size,
    pub ds_offset: Off,
}

impl CrateHeader {
    /// The header whose fields are all zero.
    pub open spec fn zero() -> CrateHeader {
        CrateHeader {
            c_version: 0,
            strtable_size: 0,
            strtable_offset: 0,
            si_size: 0,
            si_offset: 0,
            si_num: 0,
            ds_offset: 0,
        }
    }

    /// A header whose fields are all zero.
    pub fn new() -> (r: Self)
        ensures
            r == CrateHeader::zero(),
    {
        Self {
            c_version: 0,
            strtable_size: 0,
            strtable_offset: 0,
            si_size: 0,
            si_offset: 0,
            si_num: 0,
            ds_offset: 0,
        }
    }
}

/// One entry of the section index: where a data section lies and what it is.
#[derive(Debug, Clone, Copy, PartialEq, Eq)]
pub struct SectionIndexEntry {
    pub sh_type: Type,
    pub sh_offset: Off,
    pub sh_size: Size,
}

impl SectionIndexEntry {
    /// An entry whose fields are all zero.
    pub fn default() -> (r: Self)
        ensures
            r == (SectionIndexEntry { sh_type: 0, sh_offset: 0, sh_size: 0 }),
    {
        Self { sh_type: 0, sh_offset: 0, sh_size: 0 }
    }

    /// The entry with these fields.
    pub fn new(sh_type: Type, sh_offset: Off, sh_size: Size) -> (r: Self)
        ensures
            r == (SectionIndexEntry { sh_type, sh_offset, sh_size }),
    {
        Self { sh_type, sh_offset, sh_size }
    }
}

/// The section index: one entry for each data section, in their order.
#[derive(Debug, Clone, PartialEq, Eq)]
pub struct SectionIndex {
    pub entries: RawArrayType<SectionIndexEntry>,
}

impl View for SectionIndex {
    type V = Seq<SectionIndexEntry>;

    open spec fn view(&self) -> Seq<SectionIndexEntry> {
        self.entries.arr@
    }
}

impl SectionIndex {
    /// An index without entries.
    pub fn new() -> (r: Self)
        ensures
            r@ == Seq::<SectionIndexEntry>::empty(),
    {
        Self { entries: RawArrayType::new() }
    }

    /// The number of entries.
    pub fn section_num(&self) -> (n: Size)
        requires
            self@.len() <= u32::MAX,
        ensures
            n == self@.len(),
    {
        self.entries.arr.len() as Size
    }
}

/// The package section: offsets of the package's own strings.
#[derive(Debug, Clone, PartialEq, Eq)]
pub struct PackageSection {
    pub pkg_name: StrOff,
    pub pkg_version: StrOff,
    pub pkg_license: StrOff,
    pub pkg_authors: LenArrayType<StrOff>,
}

/// What a package section holds.
pub struct PackageSectionView {
    pub pkg_name: StrOff,
    pub pkg_version: StrOff,
    pub pkg_license: StrOff,
    pub authors_len: Size,
    pub authors: Seq<StrOff>,
}

impl View for PackageSection {
    type V = PackageSectionView;

    open spec fn view(&self) -> PackageSectionView {
        PackageSectionView {
            pkg_name: self.pkg_name,
            pkg_version: self.pkg_version,
            pkg_license: self.pkg_license,
            authors_len: self.pkg_authors.len,
            authors: self.pkg_authors.arr@,
        }
    }
}

impl PackageSection {
    /// What a new package section holds: offsets that are all 0, and no
    /// authors.
    pub open spec fn new_view() -> PackageSectionView {
        PackageSectionView {
            pkg_name: 0,
            pkg_version: 0,
            pkg_license: 0,
            authors_len: 0,
            authors: Seq::empty(),
        }
    }

    /// A package section whose offsets are all 0, without authors.
    pub fn new() -> (r: Self)
        ensures
            r@ == PackageSection::new_view(),
    {
        Self { pkg_name: 0, pkg_version: 0, pkg_license: 0, pkg_authors: LenArrayType::new() }
    }
}

/// One dependency, as offsets of its strings and the code of its source.
#[derive(Debug, Clone, Copy, PartialEq, Eq)]
pub struct DepTableEntry {
    pub dep_name: StrOff,
    pub dep_verreq: StrOff,
    pub dep_srctype: Type,
    pub dep_srcpath: StrOff,
    pub dep_platform: StrOff,
}

impl DepTableEntry {
    /// The entry whose fields are all 0.
    pub open spec fn zero() -> DepTableEntry {
        DepTableEntry { dep_name: 0, dep_verreq: 0, dep_srctype: 0, dep_srcpath: 0, dep_platform: 0 }
    }

    /// An entry whose fields are all 0.
    pub fn new() -> (r: Self)
        ensures
            r == DepTableEntry::zero(),
    {
        Self { dep_name: 0, dep_verreq: 0, dep_srctype: 0, dep_srcpath: 0, dep_platform: 0 }
    }
}

/// The dependency table section.
#[derive(Debug, Clone, PartialEq, Eq)]
pub struct DepTableSection {
    pub entries: LenArrayType<DepTableEntry>,
}

/// What a dependency table section holds.
pub struct DepTableSectionView {
    pub entries_len: Size,
    pub entries: Seq<DepTableEntry>,
}

impl View for DepTableSection {
    type V = DepTableSectionView;

    open spec fn view(&self) -> DepTableSectionView {
        DepTableSectionView { entries_len: self.entries.len, entries: self.entries.arr@ }
    }
}

impl DepTableSection {
    /// A dependency table without entries.
    pub fn new() -> (r: Self)
        ensures
            r@ == (DepTableSectionView { entries_len: 0, entries: Seq::empty() }),
    {
        Self { entries: LenArrayType::new() }
    }
}

/// The crate binary section: the packed source tarball, byte for byte.
#[derive(Debug, Clone, PartialEq, Eq)]
pub struct CrateBinarySection {
    pub bin: RawArrayType<Uchar>,
}

impl View for CrateBinarySection {
    type V = Seq<u8>;

    open spec fn view(&self) -> Seq<u8> {
        self.bin.arr@
    }
}

impl CrateBinarySection {
    /// A crate binary section without bytes.
    pub fn new() -> (r: Self)
        ensures
            r@ == Seq::<u8>::empty(),
    {
        Self { bin: RawArrayType::new() }
    }
}

/// A signature section: the signature's declared size, what it covers, and
/// the signed blob.
#[derive(Debug, Clone, PartialEq, Eq)]
pub struct SigStructureSection {
    pub sigstruct_size: Size,
    pub sigstruct_type: Type,
    pub sigstruct_sig: RawArrayType<u8>,
}

/// What a signature section holds.
pub struct SigStructureSectionView {
    pub sigstruct_size: Size,
    pub sigstruct_type: Type,
    pub sigstruct_sig: Seq<u8>,
}

impl View for SigStructureSection {
    type V = SigStructureSectionView;

    open spec fn view(&self) -> SigStructureSectionView {
        SigStructureSectionView {
            sigstruct_size: self.sigstruct_size,
            sigstruct_type: self.sigstruct_type,
            sigstruct_sig: self.sigstruct_sig.arr@,
        }
    }
}

impl SigStructureSection {
    /// What a new signature section holds: size 0, type 0 and no blob.
    pub open spec fn new_view() -> SigStructureSectionView {
        SigStructureSectionView { sigstruct_size: 0, sigstruct_type: 0, sigstruct_sig: Seq::empty() }
    }

    /// A signature section of type 0 without a blob.
    pub fn new() -> (r: Self)
        ensures
            r@ == SigStructureSection::new_view(),
    {
        Self { sigstruct_size: 0, sigstruct_type: 0, sigstruct_sig: RawArrayType::new() }
    }
}

/// A data section of one of the four kinds.
#[derive(Debug, Clone, PartialEq, Eq)]
pub enum DataSection {
    /// type code 0
    PackageSection(PackageSection),
    /// type code 1
    DepTableSection(DepTableSection),
    /// type code 3
    CrateBinarySection(CrateBinarySection),
    /// type code 4
    SigStructureSection(SigStructureSection),
}

/// What a data section holds.
pub enum DataSectionView {
    PackageSection(PackageSectionView),
    DepTableSection(DepTableSectionView),
    CrateBinarySection(Seq<u8>),
    SigStructureSection(SigStructureSectionView),
}

impl View for DataSection {
    type V = DataSectionView;

    open spec fn view(&self) -> DataSectionView {
        match self {
            DataSection::PackageSection(x) => DataSectionView::PackageSection(x@),
            DataSection::DepTableSection(x) => DataSectionView::DepTableSection(x@),
            DataSection::CrateBinarySection(x) => DataSectionView::CrateBinarySection(x@),
            DataSection::SigStructureSection(x) => DataSectionView::SigStructureSection(x@),
        }
    }
}

impl DataSectionView {
    /// The type code under which a section of this kind is indexed.
    pub open spec fn type_code(self) -> Type {
        match self {
            DataSectionView::PackageSection(_) => 0,
            DataSectionView::DepTableSection(_) => 1,
            DataSectionView::CrateBinarySection(_) => 3,
            DataSectionView::SigStructureSection(_) => 4,
        }
    }
}

/// The type code under which `d` is indexed.
pub fn datasection_type(d: &DataSection) -> (t: Type)
    ensures
        t == d@.type_code(),
{
    match d {
        DataSection::PackageSection(_) => 0,
        DataSection::DepTableSection(_) => 1,
        DataSection::CrateBinarySection(_) => 3,
        DataSection::SigStructureSection(_) => 4,
    }
}

/// The type code under which `d` is indexed.
pub fn get_datasection_type(d: &DataSection) -> (t: Type)
    ensures
        t == d@.type_code(),
{
    datasection_type(d)
}

/// The data sections of a container, in the order of the section index.
#[derive(Debug, Clone, PartialEq, Eq)]
pub struct DataSectionCollectionType {
    pub col: RawArrayType<DataSection>,
}

impl View for DataSectionCollectionType {
    type V = Seq<DataSectionView>;

    open spec fn view(&self) -> Seq<DataSectionView> {
        Seq::new(self.col.arr@.len(), |i: int| self.col.arr@[i]@)
    }
}

impl DataSectionCollectionType {
    /// No data sections.
    pub fn new() -> (r: Self)
        ensures
            r@ == Seq::<DataSectionView>::empty(),
    {
        Self { col: RawArrayType::new() }
    }
}

/// A whole container: magic number, header, string table, section index,
/// data sections and fingerprint.
#[derive(Debug, Clone, PartialEq, Eq)]
pub struct CratePackage {
    pub magic_number: MagicNumberType,
    pub crate_header: CrateHeader,
    pub string_table: RawArrayType<Uchar>,
    pub section_index: SectionIndex,
    pub data_sections: DataSectionCollectionType,
    pub finger_print: FingerPrintType,
}

/// What a container holds.
pub struct CratePackageView {
    pub magic_number: Seq<u8>,
    pub crate_header: CrateHeader,
    pub string_table: Seq<u8>,
    pub section_index: Seq<SectionIndexEntry>,
    pub data_sections: Seq<DataSectionView>,
    pub finger_print: Seq<u8>,
}

impl View for CratePackage {
    type V = CratePackageView;

    open spec fn view(&self) -> CratePackageView {
        CratePackageView {
            magic_number: self.magic_number@,
            crate_header: self.crate_header,
            string_table: self.string_table.arr@,
            section_index: self.section_index@,
            data_sections: self.data_sections@,
            finger_print: self.finger_print@,
        }
    }
}

impl CratePackage {
    /// What a new container holds: the magic number, a zero header, no
    /// string table, no sections and a zero fingerprint.
    pub open spec fn new_view() -> CratePackageView {
        CratePackageView {
            magic_number: MAGIC_NUMBER@,
            crate_header: CrateHeader::zero(),
            string_table: Seq::empty(),
            section_index: Seq::empty(),
            data_sections: Seq::empty(),
            finger_print: Seq::new(32, |i: int| 0u8),
        }
    }

    /// An empty container: the magic number, a zero header, no sections and
    /// a zero fingerprint.
    pub fn new() -> (r: Self)
        ensures
            r@ == CratePackage::new_view(),
    {
        let r = Self {
            magic_number: MAGIC_NUMBER,
            crate_header: CrateHeader::new(),
            string_table: RawArrayType::new(),
            section_index: SectionIndex::new(),
            data_sections: DataSectionCollectionType::new(),
            finger_print: [0; 32],
        };
        assert(r.finger_print@ =~= Seq::new(32, |i: int| 0u8));
        r
    }
}

impl<T> Default for LenArrayType<T> {
    fn default() -> (r: Self)
        ensures
            r.len == 0,
            r.arr@ == Seq::<T>::empty(),
    {
        Self::new()
    }
}

impl<T> Default for RawArrayType<T> {
    fn default() -> (r: Self)
        ensures
            r.arr@ == Seq::<T>::empty(),
    {
        Self::new()
    }
}

impl Default for CrateHeader {
    fn default() -> (r: Self)
        ensures
            r == CrateHeader::zero(),
    {
        Self::new()
    }
}

impl Default for SectionIndex {
    fn default() -> (r: Self)
        ensures
            r@ == Seq::<SectionIndexEntry>::empty(),
    {
        Self::new()
    }
}

impl Default for PackageSection {
    fn default() -> (r: Self)
        ensures
            r@ == PackageSection::new_view(),
    {
        Self::new()
    }
}

impl Default for DepTableEntry {
    fn default() -> (r: Self)
        ensures
            r == DepTableEntry::zero(),
    {
        Self::new()
    }
}

impl Default for DepTableSection {
    fn default() -> (r: Self)
        ensures
            r@ == (DepTableSectionView { entries_len: 0, entries: Seq::empty() }),
    {
        Self::new()
    }
}

impl Default for CrateBinarySection {
    fn default() -> (r: Self)
        ensures
            r@ == Seq::<u8>::empty(),
    {
        Self::new()
    }
}

impl Default for SigStructureSection {
    fn default() -> (r: Self)
        ensures
            r@ == SigStructureSection::new_view(),
    {
        Self::new()
    }
}

impl Default for DataSectionCollectionType {
    fn default() -> (r: Self)
        ensures
            r@ == Seq::<DataSectionView>::empty(),
    {
        Self::new()
    }
}

impl Default for CratePackage {
    fn default() -> (r: Self)
        ensures
            r@ == CratePackage::new_view(),
    {
        Self::new()
    }
}

} // verus!
