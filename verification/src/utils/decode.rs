//! The decoder: from the bytes of a container back to the package, and the
//! check of its fingerprint and signatures.
use crate::utils::context::{
    blobs, dep_info_of, deps_view, package_info_of, read_table, sigs_view, DepInfo, DepInfoView,
    PackageContext, PackageContextView, PackageInfoView, SigInfo, SigInfoView, StringTable,
};
use crate::utils::encode::sig_types_valid;
use crate::utils::error::DecodeError;
use crate::utils::package::codec::{
    count_non_sig, first_of_type, last_non_sig, lemma_count_non_sig_le, lemma_first_of_type,
    non_sig_data_len, parse_package, parse_sections,
};
use crate::utils::package::{
    CrateBinarySection, CratePackage, CratePackageView, DataSection, DataSectionView,
    DepTableEntry, DepTableSection, PackageSection, SectionIndex, SectionIndexEntry,
    SigStructureSection,
};
use crate::utils::pkcs::{
    all_within_limit, any_too_long, decoder_error, is_too_long_decode_error, sha256, spec_sha256,
    too_long, too_long_text, PKCSView, PKCS, PROVIDER_MAX_INPUT,
};
use vstd::pervasive::unreached;
use vstd::prelude::*;
use vstd::slice::{slice_subrange, slice_to_vec};

verus! {

impl SectionIndex {
    /// The position of the first entry of type `typ`.
    pub fn section_id_by_type(&self, typ: usize) -> (id: usize)
        requires
            first_of_type(self@, typ as int) is Some,
        ensures
            first_of_type(self@, typ as int) == Some(id as int),
            id < self@.len(),
    {
        proof {
            lemma_first_of_type(self@, typ as int);
        }
        if typ > 255 {
            return 0;
        }
        match self.find_section(typ as u8) {
            Some(i) => i,
            None => 0,
        }
    }

    /// The position of the first entry of type `typ`.
    pub fn get_section_id_by_typ(&self, typ: usize) -> (id: usize)
        requires
            first_of_type(self@, typ as int) is Some,
        ensures
            first_of_type(self@, typ as int) == Some(id as int),
            id < self@.len(),
    {
        self.section_id_by_type(typ)
    }
}

impl CratePackageView {
    /// There is a data section for every index entry, of the entry's type.
    pub open spec fn indexed(self) -> bool {
        &&& self.data_sections.len() == self.section_index.len()
        &&& forall|i: int|
            0 <= i < self.section_index.len() ==> (#[trigger] self.data_sections[i]).type_code()
                == self.section_index[i].sh_type
    }

    /// The first data section of type `typ`.
    pub open spec fn section_of_type(self, typ: int) -> Option<DataSectionView> {
        match first_of_type(self.section_index, typ) {
            Some(i) => Some(self.data_sections[i]),
            None => None,
        }
    }

    /// The signature sections, in the order of the index.
    pub open spec fn sig_sections(self) -> Seq<DataSectionView> {
        self.data_sections.filter(|d: DataSectionView| d is SigStructureSection)
    }
}

/// Sections that were read are of the types that the index names.
pub proof fn lemma_parse_sections_indexed(
    region: Seq<u8>,
    index: Seq<SectionIndexEntry>,
)
    ensures
        parse_sections(region, index) matches Ok(ds) ==> ds.len() == index.len() && forall|i: int|
            0 <= i < index.len() ==> (#[trigger] ds[i]).type_code() == index[i].sh_type,
    decreases index.len(),
{
    if index.len() > 0 {
        lemma_parse_sections_indexed(region, index.drop_last());
    }
}

/// A container that was read has a data section for every index entry.
pub proof fn lemma_parse_package_indexed(b: Seq<u8>)
    ensures
        parse_package(b) matches Ok(p) ==> p.indexed(),
{
    match parse_package(b) {
        Ok(p) => {
            lemma_parse_sections_indexed(b.skip(p.crate_header.ds_offset as int), p.section_index);
        },
        Err(_) => {},
    }
}

impl CratePackage {
    /// The data section at position `id`.
    pub fn data_section_by_id(&self, id: usize) -> (d: &DataSection)
        requires
            id < self@.data_sections.len(),
        ensures
            d@ == self@.data_sections[id as int],
    {
        &self.data_sections.col.arr[id]
    }

    /// The first data section of type `typ`.
    pub fn data_section_by_type(&self, typ: usize) -> (d: &DataSection)
        requires
            self@.indexed(),
            first_of_type(self@.section_index, typ as int) is Some,
        ensures
            Some(d@) == self@.section_of_type(typ as int),
            d@.type_code() == typ,
    {
        proof {
            lemma_first_of_type(self@.section_index, typ as int);
        }
        self.data_section_by_id(self.section_index.section_id_by_type(typ))
    }

    /// The package section.
    pub fn package_section(&self) -> (s: &PackageSection)
        requires
            self@.indexed(),
            first_of_type(self@.section_index, 0) is Some,
        ensures
            self@.section_of_type(0) == Some(DataSectionView::PackageSection(s@)),
    {
        match self.data_section_by_type(0) {
            DataSection::PackageSection(pak) => pak,
            _ => unreached(),
        }
    }
}

impl CratePackage {
    /// The dependency table section.
    pub fn dep_table_section(&self) -> (s: &DepTableSection)
        requires
            self@.indexed(),
            first_of_type(self@.section_index, 1) is Some,
        ensures
            self@.section_of_type(1) == Some(DataSectionView::DepTableSection(s@)),
    {
        match self.data_section_by_type(1) {
            DataSection::DepTableSection(dep) => dep,
            _ => unreached(),
        }
    }

    /// The crate binary section.
    pub fn crate_binary_section(&self) -> (s: &CrateBinarySection)
        requires
            self@.indexed(),
            first_of_type(self@.section_index, 3) is Some,
        ensures
            self@.section_of_type(3) == Some(DataSectionView::CrateBinarySection(s@)),
    {
        match self.data_section_by_type(3) {
            DataSection::CrateBinarySection(cra) => cra,
            _ => unreached(),
        }
    }

    /// The signature section `no` positions behind the first one.
    pub fn sig_structure_section(&self, no: usize) -> (s: &SigStructureSection)
        requires
            self@.indexed(),
            first_of_type(self@.section_index, 4) matches Some(base) && base + no
                < self@.section_index.len() && self@.section_index[base + no].sh_type == 4,
        ensures
            self@.data_sections[first_of_type(self@.section_index, 4).unwrap() + no]
                == DataSectionView::SigStructureSection(s@),
    {
        let base = self.section_index.section_id_by_type(4);
        let n = self.section_index.num();
        assert(base + no < n);
        match self.data_section_by_id(no + base) {
            DataSection::SigStructureSection(sig) => sig,
            _ => unreached(),
        }
    }
}

/// The bytes that a signature over the whole container covers: the bytes
/// of `bin` up to the end of the last data section that is not a
/// signature, with zero bytes in place of the index entries behind those
/// that are not signatures. `None` where `bin` ends before that.
pub open spec fn signed_range(p: CratePackageView, bin: Seq<u8>) -> Option<Seq<u8>> {
    let total = p.crate_header.ds_offset + non_sig_data_len(p.section_index);
    if total > bin.len() {
        None
    } else {
        let zero_begin = p.crate_header.si_offset + count_non_sig(p.section_index) * 9;
        let zero_end = p.crate_header.si_offset + p.crate_header.si_size;
        Some(
            Seq::new(
                total as nat,
                |i: int|
                    if zero_begin <= i < zero_end {
                        0u8
                    } else {
                        bin[i]
                    },
            ),
        )
    }
}

/// The last 32 bytes of `b` are the SHA-256 digest of the bytes before
/// them.
pub open spec fn fingerprint_ok(b: Seq<u8>) -> bool {
    b.len() >= 32 && spec_sha256(b.take(b.len() - 32)) == b.skip(b.len() - 32)
}

/// The signatures that the signature sections among `ds` hold, in their
/// order. Who signed is not known from a section.
pub open spec fn sig_infos_of(ds: Seq<DataSectionView>) -> Seq<SigInfoView>
    decreases ds.len(),
{
    if ds.len() == 0 {
        Seq::empty()
    } else {
        match ds.last() {
            DataSectionView::SigStructureSection(g) => sig_infos_of(ds.drop_last()).push(
                SigInfoView {
                    typ: g.sigstruct_type as u32,
                    size: g.sigstruct_size as usize,
                    bin: g.sigstruct_sig,
                    pkcs: PKCSView::empty(),
                },
            ),
            _ => sig_infos_of(ds.drop_last()),
        }
    }
}

/// The dependencies that the entries `es` stand for, their offsets
/// resolved in `t`; the error of the first entry that cannot be read.
pub open spec fn dep_infos_of(t: Seq<Seq<char>>, es: Seq<DepTableEntry>) -> Result<
    Seq<DepInfoView>,
    DecodeError,
>
    decreases es.len(),
{
    if es.len() == 0 {
        Ok(Seq::empty())
    } else {
        match dep_infos_of(t, es.drop_last()) {
            Err(e) => Err(e),
            Ok(ds) => match dep_info_of(t, es.last()) {
                Err(e) => Err(e),
                Ok(d) => Ok(ds.push(d)),
            },
        }
    }
}

/// Where a prefix of the entries cannot be read, the whole table cannot,
/// and for the same reason.
pub proof fn lemma_dep_infos_err(t: Seq<Seq<char>>, es: Seq<DepTableEntry>, n: int)
    requires
        0 <= n <= es.len(),
    ensures
        dep_infos_of(t, es.take(n)) matches Err(e) ==> dep_infos_of(t, es) == Err::<
            Seq<DepInfoView>,
            DecodeError,
        >(e),
    decreases es.len() - n,
{
    if n < es.len() {
        assert(es.take(n + 1).drop_last() =~= es.take(n));
        lemma_dep_infos_err(t, es, n + 1);
    } else {
        assert(es.take(n) =~= es);
    }
}

/// The description of the package in the container `p`, whose string
/// table holds `t`.
pub open spec fn pack_info_in(p: CratePackageView, t: Seq<Seq<char>>) -> Result<
    PackageInfoView,
    DecodeError,
> {
    match p.section_of_type(0) {
        Some(DataSectionView::PackageSection(ps)) => package_info_of(t, ps),
        _ => Err(DecodeError::MissingMandatorySection),
    }
}

/// The dependencies in the container `p`, whose string table holds `t`.
pub open spec fn deps_in(p: CratePackageView, t: Seq<Seq<char>>) -> Result<
    Seq<DepInfoView>,
    DecodeError,
> {
    match p.section_of_type(1) {
        Some(DataSectionView::DepTableSection(d)) => dep_infos_of(t, d.entries),
        _ => Err(DecodeError::MissingMandatorySection),
    }
}

/// The crate binary in the container `p`.
pub open spec fn binary_in(p: CratePackageView) -> Result<Seq<u8>, DecodeError> {
    match p.section_of_type(3) {
        Some(DataSectionView::CrateBinarySection(b)) => Ok(b),
        _ => Err(DecodeError::MissingMandatorySection),
    }
}

/// The package that the container `p` holds, with `roots` as the roots to
/// check signatures against: its string table is read, then description,
/// dependencies, crate binary and signatures are taken from the sections.
pub open spec fn model_of(p: CratePackageView, roots: Seq<Seq<u8>>) -> Result<
    PackageContextView,
    DecodeError,
> {
    match read_table(p.string_table) {
        Err(e) => Err(e),
        Ok(t) => match pack_info_in(p, t) {
            Err(e) => Err(e),
            Ok(pack_info) => match deps_in(p, t) {
                Err(e) => Err(e),
                Ok(dep_infos) => match binary_in(p) {
                    Err(e) => Err(e),
                    Ok(crate_binary) => Ok(
                        PackageContextView {
                            pack_info,
                            dep_infos,
                            crate_binary,
                            sigs: sig_infos_of(p.data_sections),
                            root_cas: roots,
                        },
                    ),
                },
            },
        },
    }
}

/// The package that the bytes `b` hold, before any signature is checked:
/// the fingerprint must be right, the container must be readable, and so
/// must the package in it.
pub open spec fn decode_model(b: Seq<u8>, roots: Seq<Seq<u8>>) -> Result<
    PackageContextView,
    DecodeError,
> {
    if !fingerprint_ok(b) {
        Err(DecodeError::FingerprintMismatch)
    } else {
        match parse_package(b) {
            Err(e) => Err(e),
            Ok(p) => model_of(p, roots),
        }
    }
}

/// The digests that signatures of the container `p` with the bytes `b`
/// must cover: that of the signed range and that of the crate binary.
pub open spec fn covered_digests(p: CratePackageView, b: Seq<u8>) -> Option<(Seq<u8>, Seq<u8>)> {
    match (signed_range(p, b), binary_in(p)) {
        (Some(range), Ok(binary)) => Some((spec_sha256(range), spec_sha256(binary))),
        _ => None,
    }
}

/// The message `recovered` that a signature of type `typ` holds is the
/// digest that such a signature must cover: that of the signed range for
/// type 0, that of the crate binary for type 1.
pub open spec fn sig_covers(
    typ: u32,
    recovered: Seq<u8>,
    digest_all: Seq<u8>,
    digest_bin: Seq<u8>,
) -> bool {
    (typ == 0 && recovered == digest_all) || (typ == 1 && recovered == digest_bin)
}

/// One of the signatures `sigs` has a blob that is more than the provider
/// takes.
pub open spec fn any_blob_too_long(sigs: Seq<SigInfoView>) -> bool {
    exists|i: int| 0 <= i < sigs.len() && too_long((#[trigger] sigs[i]).bin)
}

/// The verdict on one signature of type `typ`, given what came of asking
/// the provider about it: an error stays the error; a message that the
/// provider recovered gives whether it is the digest that the signature
/// must cover.
pub open spec fn sig_verdict(
    typ: u32,
    answer: Result<Seq<u8>, DecodeError>,
    digest_all: Seq<u8>,
    digest_bin: Seq<u8>,
) -> Result<bool, DecodeError> {
    match answer {
        Ok(recovered) => Ok(sig_covers(typ, recovered, digest_all, digest_bin)),
        Err(e) => Err(e),
    }
}

/// What `answer` is as an answer on byte strings.
pub open spec fn answer_view(answer: Result<Vec<u8>, DecodeError>) -> Result<
    Seq<u8>,
    DecodeError,
> {
    match answer {
        Ok(recovered) => Ok(recovered@),
        Err(e) => Err(e),
    }
}

/// The outcome of decoding, given the verdict on the signatures: a
/// verdict of `false` is `SignatureVerifyFailed`, an error stays the
/// error.
pub open spec fn outcome_of_verdict(verdict: Result<bool, DecodeError>) -> Result<
    (),
    DecodeError,
> {
    match verdict {
        Ok(true) => Ok(()),
        Ok(false) => Err(DecodeError::SignatureVerifyFailed),
        Err(e) => Err(e),
    }
}

/// What this library decides of the signatures `sigs` of a container that
/// was read, before the provider is asked, with `roots` as the roots: a
/// signature whose type is neither 0 nor 1 is `SignatureVerifyFailed`; a
/// blob or a root that is longer than the provider takes is the error
/// that says so; `None` where the provider is to be asked, or there are
/// no signatures.
pub open spec fn own_sig_error(sigs: Seq<SigInfoView>, roots: Seq<Seq<u8>>) -> Option<bool> {
    if sigs.len() == 0 {
        None
    } else if !sig_types_valid(sigs) {
        Some(false)
    } else if any_blob_too_long(sigs) || any_too_long(roots) {
        Some(true)
    } else {
        None
    }
}

/// `r` is the failure that [`own_sig_error`] asks for: for `false`
/// `SignatureVerifyFailed`, for `true` the error for an input that is
/// longer than the provider takes.
pub open spec fn is_own_sig_error<T>(r: Result<T, DecodeError>, too_long: bool) -> bool {
    r matches Err(e) && if too_long {
        is_too_long_decode_error(e)
    } else {
        e == DecodeError::SignatureVerifyFailed
    }
}

/// The byte strings `a` and `b` are the same.
pub fn same_bytes(a: &[u8], b: &[u8]) -> (r: bool)
    ensures
        r == (a@ == b@),
{
    if a.len() != b.len() {
        return false;
    }
    let mut i: usize = 0;
    while i < a.len()
        invariant
            i <= a@.len(),
            a@.len() == b@.len(),
            forall|j: int| 0 <= j < i ==> a@[j] == b@[j],
        decreases a@.len() - i,
    {
        if a[i] != b[i] {
            return false;
        }
        i = i + 1;
    }
    assert(a@ =~= b@);
    true
}

/// Whether the message `recovered` that a signature of type `typ` holds is
/// the digest that such a signature must cover.
pub fn check_sig_digest(typ: u32, recovered: &[u8], digest_all: &[u8], digest_bin: &[u8]) -> (r:
    bool)
    ensures
        r == sig_covers(typ, recovered@, digest_all@, digest_bin@),
{
    if typ == 0 {
        same_bytes(recovered, digest_all)
    } else if typ == 1 {
        same_bytes(recovered, digest_bin)
    } else {
        false
    }
}

/// The verdict on one signature of type `typ`, given what came of asking
/// the provider about it.
pub fn verdict_of_answer(
    typ: u32,
    answer: Result<Vec<u8>, DecodeError>,
    digest_all: &[u8],
    digest_bin: &[u8],
) -> (r: Result<bool, DecodeError>)
    ensures
        r == sig_verdict(typ, answer_view(answer), digest_all@, digest_bin@),
{
    match answer {
        Ok(recovered) => Ok(
            check_sig_digest(typ, recovered.as_slice(), digest_all, digest_bin),
        ),
        Err(e) => Err(e),
    }
}

/// The outcome of decoding, given the verdict on the signatures.
pub fn result_of_verdict(verdict: Result<bool, DecodeError>) -> (r: Result<(), DecodeError>)
    ensures
        r == outcome_of_verdict(verdict),
{
    match verdict {
        Ok(true) => Ok(()),
        Ok(false) => Err(DecodeError::SignatureVerifyFailed),
        Err(e) => Err(e),
    }
}

/// Whether every signature of `sigs` is of type 0 or 1.
pub fn sig_types_known(sigs: &Vec<SigInfo>) -> (b: bool)
    ensures
        b == sig_types_valid(sigs_view(sigs@)),
{
    let mut i: usize = 0;
    while i < sigs.len()
        invariant
            i <= sigs@.len(),
            forall|j: int| 0 <= j < i ==> (#[trigger] sigs_view(sigs@)[j]).typ <= 1,
        decreases sigs@.len() - i,
    {
        if sigs[i].typ > 1 {
            assert(sigs_view(sigs@)[i as int].typ > 1);
            return false;
        }
        i = i + 1;
    }
    true
}

/// Whether no signature of `sigs` has a blob that is more than the
/// provider takes.
pub fn blobs_within_limit(sigs: &Vec<SigInfo>) -> (b: bool)
    ensures
        b == !any_blob_too_long(sigs_view(sigs@)),
{
    let mut i: usize = 0;
    while i < sigs.len()
        invariant
            i <= sigs@.len(),
            forall|j: int| 0 <= j < i ==> !too_long((#[trigger] sigs_view(sigs@)[j]).bin),
        decreases sigs@.len() - i,
    {
        if sigs[i].bin.len() > PROVIDER_MAX_INPUT {
            assert(too_long(sigs_view(sigs@)[i as int].bin));
            return false;
        }
        i = i + 1;
    }
    true
}

/// A copy of `v`.
pub fn copy_blobs(v: &Vec<Vec<u8>>) -> (r: Vec<Vec<u8>>)
    ensures
        blobs(r@) == blobs(v@),
{
    let mut r: Vec<Vec<u8>> = Vec::new();
    let mut i: usize = 0;
    while i < v.len()
        invariant
            i <= v@.len(),
            r@.len() == i,
            forall|j: int| 0 <= j < i ==> r@[j]@ == v@[j]@,
        decreases v@.len() - i,
    {
        r.push(slice_to_vec(v[i].as_slice()));
        i = i + 1;
    }
    assert(blobs(r@) =~= blobs(v@));
    r
}

/// The last entry that is not a signature entry is an entry of the index.
pub proof fn lemma_last_non_sig(s: Seq<SectionIndexEntry>)
    ensures
        last_non_sig(s) matches Some(e) ==> exists|k: int| 0 <= k < s.len() && s[k] == e,
    decreases s.len(),
{
    if s.len() > 0 {
        if s.last().sh_type != 4 {
            assert(s[s.len() - 1] == s.last());
        } else {
            lemma_last_non_sig(s.drop_last());
            match last_non_sig(s.drop_last()) {
                Some(e) => {
                    let k = choose|k: int| 0 <= k < s.drop_last().len() && s.drop_last()[k] == e;
                    assert(s[k] == e);
                },
                None => {},
            }
        }
    }
}

/// Every section that was read lies within the region.
pub proof fn lemma_parse_sections_bounds(region: Seq<u8>, index: Seq<SectionIndexEntry>)
    ensures
        parse_sections(region, index) is Ok ==> forall|k: int|
            0 <= k < index.len() ==> (#[trigger] index[k]).sh_offset + index[k].sh_size
                <= region.len(),
    decreases index.len(),
{
    if index.len() > 0 {
        lemma_parse_sections_bounds(region, index.drop_last());
        if parse_sections(region, index) is Ok {
            assert forall|k: int| 0 <= k < index.len() implies (#[trigger] index[k]).sh_offset
                + index[k].sh_size <= region.len() by {
                if k < index.len() - 1 {
                    assert(index.drop_last()[k] == index[k]);
                }
            }
        }
    }
}

/// In a container that was read, what a signature over the whole container
/// covers lies within the bytes.
pub proof fn lemma_signed_range_some(b: Seq<u8>)
    ensures
        parse_package(b) matches Ok(p) ==> signed_range(p, b) is Some,
{
    match parse_package(b) {
        Ok(p) => {
            let region = b.skip(p.crate_header.ds_offset as int);
            lemma_parse_sections_bounds(region, p.section_index);
            lemma_last_non_sig(p.section_index);
        },
        Err(_) => {},
    }
}

/// Reads the dependencies that the entries `entries` stand for, their
/// offsets resolved in `str_table`. Fails with the error of the first
/// entry that cannot be read.
pub fn read_dep_infos(entries: &Vec<DepTableEntry>, str_table: &StringTable) -> (r: Result<
    Vec<DepInfo>,
    DecodeError,
>)
    requires
        str_table.wf(),
    ensures
        match r {
            Ok(v) => dep_infos_of(str_table@, entries@) == Ok::<Seq<DepInfoView>, DecodeError>(
                deps_view(v@),
            ),
            Err(e) => dep_infos_of(str_table@, entries@) == Err::<Seq<DepInfoView>, DecodeError>(
                e,
            ),
        },
{
    let ghost es = entries@;
    let mut dep_infos: Vec<DepInfo> = Vec::new();
    let mut i: usize = 0;
    assert(es.take(0) =~= Seq::<DepTableEntry>::empty());
    assert(deps_view(dep_infos@) =~= Seq::<DepInfoView>::empty());
    while i < entries.len()
        invariant
            i <= es.len(),
            es == entries@,
            str_table.wf(),
            dep_infos_of(str_table@, es.take(i as int)) == Ok::<Seq<DepInfoView>, DecodeError>(
                deps_view(dep_infos@),
            ),
        decreases es.len() - i,
    {
        proof {
            assert(es.take(i + 1).drop_last() =~= es.take(i as int));
            lemma_dep_infos_err(str_table@, es, i + 1);
        }
        let mut dep_info = DepInfo::default();
        match dep_info.read_from_dep_table_entry(&entries[i], str_table) {
            Ok(_) => {},
            Err(e) => {
                return Err(e);
            },
        }
        let ghost before = deps_view(dep_infos@);
        dep_infos.push(dep_info);
        assert(deps_view(dep_infos@) =~= before.push(dep_info@));
        i = i + 1;
    }
    assert(es.take(es.len() as int) =~= es);
    Ok(dep_infos)
}

impl PackageContext {
    /// The bytes that a signature over the whole container covers, for the
    /// container `crate_package` and its bytes `bin`; `None` where `bin`
    /// ends before the last data section that is not a signature does.
    pub fn binary_before_sig(&self, crate_package: &CratePackage, bin: &[u8]) -> (r: Option<
        Vec<u8>,
    >)
        ensures
            match r {
                Some(v) => signed_range(crate_package@, bin@) == Some(v@),
                None => signed_range(crate_package@, bin@) is None,
            },
    {
        let ds_size = crate_package.section_index.datasection_size_without_sig();
        let total_size = crate_package.crate_header.ds_offset as u64 + ds_size;
        if total_size > bin.len() as u64 {
            return None;
        }
        let total = total_size as usize;
        let mut buf = slice_to_vec(slice_subrange(bin, 0, total));
        let non_sig = crate_package.section_index.none_sig_num();
        proof {
            lemma_count_non_sig_le(crate_package@.section_index);
        }
        if non_sig as u64 > total_size {
            assert(buf@ =~= signed_range(crate_package@, bin@).unwrap());
            return Some(buf);
        }
        let zero_begin = crate_package.crate_header.si_offset as u64 + non_sig as u64 * 9;
        let zero_end = crate_package.crate_header.si_offset as u64
            + crate_package.crate_header.si_size as u64;
        let stop = if zero_end < total_size {
            zero_end
        } else {
            total_size
        };
        let mut i: u64 = zero_begin;
        while i < stop
            invariant
                zero_begin <= i,
                i == zero_begin || i <= stop,
                stop <= total,
                stop <= zero_end,
                stop == zero_end || stop == total,
                total <= bin@.len(),
                buf@.len() == total,
                forall|j: int|
                    0 <= j < total ==> buf@[j] == if zero_begin <= j < i {
                        0u8
                    } else {
                        bin@[j]
                    },
            decreases stop + 1 - i,
        {
            buf.set(i as usize, 0);
            i = i + 1;
        }
        assert(buf@ =~= signed_range(crate_package@, bin@).unwrap());
        Some(buf)
    }

    /// The bytes that the fingerprint covers: all of `bin` but its last 32
    /// bytes.
    pub fn binary_before_digest(&self, bin: &[u8]) -> (r: Vec<u8>)
        requires
            bin@.len() >= 32,
        ensures
            r@ == bin@.take(bin@.len() - 32),
    {
        slice_to_vec(slice_subrange(bin, 0, bin.len() - 32))
    }

    /// Whether the last 32 bytes of `bin_all` are the SHA-256 digest of the
    /// bytes before them.
    pub fn check_fingerprint(&self, bin_all: &[u8]) -> (r: bool)
        ensures
            r == fingerprint_ok(bin_all@),
    {
        if bin_all.len() < 32 {
            return false;
        }
        let n = bin_all.len() - 32;
        let digest = sha256(slice_subrange(bin_all, 0, n));
        let tail = slice_subrange(bin_all, n, bin_all.len());
        assert(tail@ =~= bin_all@.skip(n as int));
        same_bytes(digest.as_slice(), tail)
    }

    /// Takes the package's description from the package section of
    /// `crate_package`. Fails, and changes nothing, where there is no
    /// package section or one of its offsets names no record of
    /// `str_table`.
    pub fn pack_info(&mut self, crate_package: &CratePackage, str_table: &StringTable) -> (r:
        Result<(), DecodeError>)
        requires
            crate_package@.indexed(),
            str_table.wf(),
        ensures
            match r {
                Ok(_) => {
                    &&& pack_info_in(crate_package@, str_table@) == Ok::<
                        PackageInfoView,
                        DecodeError,
                    >(final(self)@.pack_info)
                    &&& final(self)@ == (PackageContextView {
                        pack_info: final(self)@.pack_info,
                        ..old(self)@
                    })
                },
                Err(e) => {
                    &&& pack_info_in(crate_package@, str_table@) == Err::<
                        PackageInfoView,
                        DecodeError,
                    >(e)
                    &&& *final(self) == *old(self)
                },
            },
    {
        if crate_package.section_index.find_section(0).is_none() {
            return Err(DecodeError::MissingMandatorySection);
        }
        let ps = crate_package.package_section();
        self.pack_info.read_from_package_section(ps, str_table)
    }

    /// Takes the dependencies from the dependency table section of
    /// `crate_package`. Fails, and changes nothing, where there is no
    /// dependency table, an offset names no record of `str_table`, or a
    /// source code is not one of 0 to 4.
    pub fn deps(&mut self, crate_package: &CratePackage, str_table: &StringTable) -> (r: Result<
        (),
        DecodeError,
    >)
        requires
            crate_package@.indexed(),
            str_table.wf(),
        ensures
            match r {
                Ok(_) => {
                    &&& deps_in(crate_package@, str_table@) == Ok::<Seq<DepInfoView>, DecodeError>(
                        final(self)@.dep_infos,
                    )
                    &&& final(self)@ == (PackageContextView {
                        dep_infos: final(self)@.dep_infos,
                        ..old(self)@
                    })
                },
                Err(e) => {
                    &&& deps_in(crate_package@, str_table@) == Err::<Seq<DepInfoView>, DecodeError>(
                        e,
                    )
                    &&& *final(self) == *old(self)
                },
            },
    {
        if crate_package.section_index.find_section(1).is_none() {
            return Err(DecodeError::MissingMandatorySection);
        }
        let dts = crate_package.dep_table_section();
        let dep_infos = match read_dep_infos(&dts.entries.arr, str_table) {
            Ok(x) => x,
            Err(e) => {
                return Err(e);
            },
        };
        self.dep_infos = dep_infos;
        Ok(())
    }

    /// Takes the crate binary from the crate binary section of
    /// `crate_package`. Fails, and changes nothing, where there is none.
    pub fn binary(&mut self, crate_package: &CratePackage) -> (r: Result<(), DecodeError>)
        requires
            crate_package@.indexed(),
        ensures
            match r {
                Ok(_) => {
                    &&& binary_in(crate_package@) == Ok::<Seq<u8>, DecodeError>(
                        final(self)@.crate_binary,
                    )
                    &&& final(self)@ == (PackageContextView {
                        crate_binary: final(self)@.crate_binary,
                        ..old(self)@
                    })
                },
                Err(e) => {
                    &&& binary_in(crate_package@) == Err::<Seq<u8>, DecodeError>(e)
                    &&& *final(self) == *old(self)
                },
            },
    {
        if crate_package.section_index.find_section(3).is_none() {
            return Err(DecodeError::MissingMandatorySection);
        }
        let cbs = crate_package.crate_binary_section();
        self.crate_binary.read_from_crate_biary_section(cbs);
        Ok(())
    }

    /// Takes the signatures from the signature sections of
    /// `crate_package`, in their order.
    pub fn sigs(&mut self, crate_package: &CratePackage)
        ensures
            final(self)@ == (PackageContextView {
                sigs: sig_infos_of(crate_package@.data_sections),
                ..old(self)@
            }),
    {
        let ghost ds = crate_package@.data_sections;
        let mut sigs: Vec<SigInfo> = Vec::new();
        let mut i: usize = 0;
        assert(ds.take(0) =~= Seq::<DataSectionView>::empty());
        assert(sigs_view(sigs@) =~= Seq::<SigInfoView>::empty());
        while i < crate_package.data_sections.col.arr.len()
            invariant
                i <= ds.len(),
                ds == crate_package@.data_sections,
                ds.len() == crate_package.data_sections.col.arr@.len(),
                sigs_view(sigs@) == sig_infos_of(ds.take(i as int)),
            decreases ds.len() - i,
        {
            proof {
                assert(ds.take(i + 1).drop_last() =~= ds.take(i as int));
            }
            match &crate_package.data_sections.col.arr[i] {
                DataSection::SigStructureSection(sig) => {
                    let mut sig_info = SigInfo::new();
                    sig_info.read_from_sig_structure_section(sig);
                    let ghost before = sigs_view(sigs@);
                    sigs.push(sig_info);
                    assert(sigs_view(sigs@) =~= before.push(sig_info@));
                },
                _ => {},
            }
            i = i + 1;
        }
        assert(ds.take(ds.len() as int) =~= ds);
        self.sigs = sigs;
    }

    /// The two digests that signatures of the container `crate_package`
    /// with the bytes `bin_all` must cover: that of the signed range, for
    /// signatures of type 0, and that of the crate binary, for signatures
    /// of type 1. `None` where the signed range does not lie within
    /// `bin_all` or there is no crate binary.
    pub fn digests_to_cover(&self, crate_package: &CratePackage, bin_all: &[u8]) -> (r: Option<
        ([u8; 32], [u8; 32]),
    >)
        requires
            crate_package@.indexed(),
        ensures
            match r {
                Some((digest_all, digest_bin)) => covered_digests(crate_package@, bin_all@)
                    == Some((digest_all@, digest_bin@)),
                None => covered_digests(crate_package@, bin_all@) is None,
            },
    {
        let range = match self.binary_before_sig(crate_package, bin_all) {
            Some(x) => x,
            None => {
                return None;
            },
        };
        if crate_package.section_index.find_section(3).is_none() {
            return None;
        }
        let digest_all = sha256(range.as_slice());
        let bin_crate = crate_package.crate_binary_section();
        let digest_bin = sha256(bin_crate.bin.arr.as_slice());
        Some((digest_all, digest_bin))
    }

    /// Checks every signature of the package against the container
    /// `crate_package` and its bytes `bin_all`.
    ///
    /// What this library decides comes first, in this order. Nothing is
    /// asked of a package without signatures. The digests to cover must
    /// be there; see [`covered_digests`]. A signature whose type is
    /// neither 0 nor 1 covers nothing, so the verdict is `Ok(false)`. A
    /// blob or a root that is longer than the provider takes gives the
    /// error that says so.
    ///
    /// Then the provider is asked about each signature in turn, with the
    /// signature's blob and the roots of this context as they are. Each
    /// answer is taken as [`verdict_of_answer`] says: the provider's
    /// refusal is an error, and the message that it recovered must be the
    /// digest of what the signature covers. The first answer that is not
    /// `Ok(true)` is the result. Which answers come is the provider's
    /// word.
    pub fn check_sigs(&self, crate_package: &CratePackage, bin_all: &[u8]) -> (r: Result<
        bool,
        DecodeError,
    >)
        requires
            crate_package@.indexed(),
        ensures
            self@.sigs.len() == 0 ==> r == Ok::<bool, DecodeError>(true),
            self@.sigs.len() > 0 && covered_digests(crate_package@, bin_all@) is None ==> r
                == Err::<bool, DecodeError>(DecodeError::Truncated),
            self@.sigs.len() > 0 && covered_digests(crate_package@, bin_all@) is Some
                && !sig_types_valid(self@.sigs) ==> r == Ok::<bool, DecodeError>(false),
            self@.sigs.len() > 0 && covered_digests(crate_package@, bin_all@) is Some
                && sig_types_valid(self@.sigs) && (any_blob_too_long(self@.sigs) || any_too_long(
                self@.root_cas,
            )) ==> (r matches Err(e) && is_too_long_decode_error(e)),
            r == Ok::<bool, DecodeError>(true) ==> sig_types_valid(self@.sigs),
            r matches Err(e) ==> self@.sigs.len() > 0 && (e is CryptoProvider || e
                is SignatureVerifyFailed || (e == DecodeError::Truncated && covered_digests(
                crate_package@,
                bin_all@,
            ) is None)),
    {
        if self.sigs.len() == 0 {
            return Ok(true);
        }
        let (digest_all, digest_bin) = match self.digests_to_cover(crate_package, bin_all) {
            Some(x) => x,
            None => {
                return Err(DecodeError::Truncated);
            },
        };
        if !sig_types_known(&self.sigs) {
            return Ok(false);
        }
        if !blobs_within_limit(&self.sigs) || !all_within_limit(&self.root_cas) {
            return Err(decoder_error(too_long_text()));
        }
        let mut i: usize = 0;
        while i < self.sigs.len()
            invariant
                i <= self.sigs@.len(),
                self@.sigs.len() > 0,
                sig_types_valid(self@.sigs),
                covered_digests(crate_package@, bin_all@) is Some,
                !any_blob_too_long(self@.sigs),
                !any_too_long(self@.root_cas),
            decreases self.sigs@.len() - i,
        {
            let siginfo = &self.sigs[i];
            let answer = PKCS::decode_pkcs_bin(siginfo.bin.as_slice(), &self.root_cas);
            match verdict_of_answer(
                siginfo.typ,
                answer,
                digest_all.as_slice(),
                digest_bin.as_slice(),
            ) {
                Ok(true) => {},
                Ok(false) => {
                    return Ok(false);
                },
                Err(e) => {
                    return Err(e);
                },
            }
            i = i + 1;
        }
        Ok(true)
    }

    /// Reads the package from the bytes `bin` of a container and checks
    /// its signatures against the roots of this context.
    ///
    /// The fingerprint is checked first, then the container is read, then
    /// the package in it; see [`decode_model`]. A container without
    /// signatures is accepted then. With signatures, what this library
    /// decides of them comes first; see [`own_sig_error`]. Then each must
    /// verify, as [`PackageContext::check_sigs`] says; whether it does is
    /// the provider's word, and the verdict is taken as
    /// [`result_of_verdict`] says. On success this context holds the
    /// package, with the roots it had; on failure it is as it was.
    pub fn decode_from_crate_package(&mut self, bin: &[u8]) -> (r: Result<
        (CratePackage, StringTable),
        DecodeError,
    >)
        ensures
            match decode_model(bin@, old(self)@.root_cas) {
                Err(e) => r == Err::<(CratePackage, StringTable), DecodeError>(e) && *final(self)
                    == *old(self),
                Ok(m) => match r {
                    Ok((crate_package, str_table)) => {
                        &&& final(self)@ == m
                        &&& sig_types_valid(m.sigs)
                        &&& own_sig_error(m.sigs, m.root_cas) is None
                        &&& parse_package(bin@) == Ok::<CratePackageView, DecodeError>(
                            crate_package@,
                        )
                        &&& read_table(crate_package@.string_table) == Ok::<
                            Seq<Seq<char>>,
                            DecodeError,
                        >(str_table@)
                        &&& str_table.wf()
                    },
                    Err(e) => {
                        &&& e is SignatureVerifyFailed || e is CryptoProvider
                        &&& m.sigs.len() > 0
                        &&& *final(self) == *old(self)
                        &&& own_sig_error(m.sigs, m.root_cas) matches Some(too_long)
                            ==> is_own_sig_error(r, too_long)
                    },
                },
            },
    {
        if !self.check_fingerprint(bin) {
            return Err(DecodeError::FingerprintMismatch);
        }
        let crate_package = match CratePackage::decode_from_slice(bin) {
            Ok(x) => x,
            Err(e) => {
                return Err(e);
            },
        };
        proof {
            lemma_parse_package_indexed(bin@);
            lemma_signed_range_some(bin@);
            lemma_first_of_type(crate_package@.section_index, 3);
        }
        let mut str_table = StringTable::new();
        match str_table.read_bytes(crate_package.string_table.arr.as_slice()) {
            Ok(_) => {},
            Err(e) => {
                return Err(e);
            },
        }
        let mut decoded = PackageContext::new();
        match decoded.pack_info(&crate_package, &str_table) {
            Ok(_) => {},
            Err(e) => {
                return Err(e);
            },
        }
        match decoded.deps(&crate_package, &str_table) {
            Ok(_) => {},
            Err(e) => {
                return Err(e);
            },
        }
        match decoded.binary(&crate_package) {
            Ok(_) => {},
            Err(e) => {
                return Err(e);
            },
        }
        decoded.sigs(&crate_package);
        decoded.set_root_cas_bin(copy_blobs(&self.root_cas));
        match result_of_verdict(decoded.check_sigs(&crate_package, bin)) {
            Ok(_) => {},
            Err(e) => {
                return Err(e);
            },
        }
        *self = decoded;
        Ok((crate_package, str_table))
    }
}

impl CratePackage {
    /// The data section at position `id`; the same as
    /// [`CratePackage::data_section_by_id`].
    pub fn get_data_section_by_id(&self, id: usize) -> (d: &DataSection)
        requires
            id < self@.data_sections.len(),
        ensures
            d@ == self@.data_sections[id as int],
    {
        self.data_section_by_id(id)
    }

    /// The first data section of type `typ`; the same as
    /// [`CratePackage::data_section_by_type`].
    pub fn get_data_section_by_typ(&self, typ: usize) -> (d: &DataSection)
        requires
            self@.indexed(),
            first_of_type(self@.section_index, typ as int) is Some,
        ensures
            Some(d@) == self@.section_of_type(typ as int),
            d@.type_code() == typ,
    {
        self.data_section_by_type(typ)
    }

    /// The package section; the same as [`CratePackage::package_section`].
    pub fn get_package_section(&self) -> (s: &PackageSection)
        requires
            self@.indexed(),
            first_of_type(self@.section_index, 0) is Some,
        ensures
            self@.section_of_type(0) == Some(DataSectionView::PackageSection(s@)),
    {
        self.package_section()
    }

    /// The dependency table section; the same as
    /// [`CratePackage::dep_table_section`].
    pub fn get_dep_table_section(&self) -> (s: &DepTableSection)
        requires
            self@.indexed(),
            first_of_type(self@.section_index, 1) is Some,
        ensures
            self@.section_of_type(1) == Some(DataSectionView::DepTableSection(s@)),
    {
        self.dep_table_section()
    }

    /// The crate binary section; the same as
    /// [`CratePackage::crate_binary_section`].
    pub fn get_crate_binary_section(&self) -> (s: &CrateBinarySection)
        requires
            self@.indexed(),
            first_of_type(self@.section_index, 3) is Some,
        ensures
            self@.section_of_type(3) == Some(DataSectionView::CrateBinarySection(s@)),
    {
        self.crate_binary_section()
    }

    /// The signature section `no` positions behind the first one; the same
    /// as [`CratePackage::sig_structure_section`].
    pub fn get_sig_structure_section(&self, no: usize) -> (s: &SigStructureSection)
        requires
            self@.indexed(),
            first_of_type(self@.section_index, 4) matches Some(base) && base + no
                < self@.section_index.len() && self@.section_index[base + no].sh_type == 4,
        ensures
            self@.data_sections[first_of_type(self@.section_index, 4).unwrap() + no]
                == DataSectionView::SigStructureSection(s@),
    {
        self.sig_structure_section(no)
    }
}

impl PackageContext {
    /// The bytes that a signature over the whole container covers; the
    /// same as [`PackageContext::binary_before_sig`].
    pub fn get_binary_before_sig(&self, crate_package: &CratePackage, bin: &[u8]) -> (r: Option<
        Vec<u8>,
    >)
        ensures
            match r {
                Some(v) => signed_range(crate_package@, bin@) == Some(v@),
                None => signed_range(crate_package@, bin@) is None,
            },
    {
        self.binary_before_sig(crate_package, bin)
    }

    /// The bytes that the fingerprint covers; the same as
    /// [`PackageContext::binary_before_digest`].
    pub fn get_binary_before_digest(&self, bin: &[u8]) -> (r: Vec<u8>)
        requires
            bin@.len() >= 32,
        ensures
            r@ == bin@.take(bin@.len() - 32),
    {
        self.binary_before_digest(bin)
    }
}

} // verus!
