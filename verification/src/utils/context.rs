//! The package as its author sees it, and the string table through which its
//! strings reach the container.
use crate::utils::error::{DecodeError, EncodeError};
use crate::utils::package::codec::{write_bytes, Record};
use crate::utils::package::{
    CrateBinarySection, DepTableEntry, LenArrayType, PackageSection, PackageSectionView,
    RawArrayType, SigStructureSection, SigStructureSectionView,
};
use crate::utils::pkcs::{PKCSView, PKCS};
use vstd::bytes::{
    lemma_auto_spec_u32_to_from_le_bytes, spec_u32_from_le_bytes, spec_u32_to_le_bytes,
    u32_from_le_bytes,
};
use vstd::prelude::*;
use vstd::slice::{slice_subrange, slice_to_vec};
use vstd::utf8::{decode_utf8, encode_utf8, encode_utf8_decode_utf8, valid_utf8};

verus! {

/// Data sections that are not signatures: package, dependency table, crate
/// binary.
pub const NOT_SIG_NUM: usize = 3;

/// The number of bytes that the string `s` takes in a string table: four for
/// its length, then its UTF-8 bytes.
pub open spec fn record_len(s: Seq<char>) -> nat {
    4 + encode_utf8(s).len()
}

/// The number of bytes that the strings `t` take in a string table.
pub open spec fn table_len(t: Seq<Seq<char>>) -> nat
    decreases t.len(),
{
    if t.len() == 0 {
        0
    } else {
        table_len(t.drop_last()) + record_len(t.last())
    }
}

/// The offset of string `i` of `t`: the bytes that the strings before it
/// take.
pub open spec fn offset_at(t: Seq<Seq<char>>, i: int) -> nat {
    table_len(t.take(i))
}

/// The record of a string: the length of its UTF-8 bytes in four bytes, then
/// those bytes.
pub open spec fn ser_string(s: Seq<char>) -> Seq<u8> {
    spec_u32_to_le_bytes(encode_utf8(s).len() as u32) + encode_utf8(s)
}

/// The bytes of a string table: the records of its strings in the order of
/// their offsets.
pub open spec fn ser_table(t: Seq<Seq<char>>) -> Seq<u8>
    decreases t.len(),
{
    if t.len() == 0 {
        Seq::empty()
    } else {
        ser_table(t.drop_last()) + ser_string(t.last())
    }
}

/// The string of `t` whose record starts at offset `off`.
pub open spec fn lookup(t: Seq<Seq<char>>, off: nat) -> Option<Seq<char>> {
    if exists|i: int| 0 <= i < t.len() && offset_at(t, i) == off {
        let i = choose|i: int| 0 <= i < t.len() && offset_at(t, i) == off;
        Some(t[i])
    } else {
        None
    }
}

/// The offset under which `t` holds the string `s`: that of its first record
/// with this string.
pub open spec fn offset_of(t: Seq<Seq<char>>, s: Seq<char>) -> Option<nat> {
    match t.index_of_first(s) {
        Some(i) => Some(offset_at(t, i)),
        None => None,
    }
}

/// What `acc` followed by the outcome `r` comes to.
pub open spec fn prepend(acc: Seq<Seq<char>>, r: Result<Seq<Seq<char>>, DecodeError>) -> Result<
    Seq<Seq<char>>,
    DecodeError,
> {
    match r {
        Ok(rest) => Ok(acc + rest),
        Err(e) => Err(e),
    }
}

/// The strings that the records in `b` hold, read until `b` is used up.
pub open spec fn parse_table_records(b: Seq<u8>) -> Result<Seq<Seq<char>>, DecodeError>
    decreases b.len(),
{
    if b.len() == 0 {
        Ok(Seq::empty())
    } else if b.len() < 4 {
        Err(DecodeError::MalformedStringTable)
    } else {
        let n = spec_u32_from_le_bytes(b.subrange(0, 4));
        if 4 + n > b.len() {
            Err(DecodeError::MalformedStringTable)
        } else if !valid_utf8(b.subrange(4, 4 + n)) {
            Err(DecodeError::MalformedUtf8)
        } else {
            prepend(seq![decode_utf8(b.subrange(4, 4 + n))], parse_table_records(b.skip(4 + n)))
        }
    }
}

/// The string table that `b` is read as. A table is at most `u32::MAX`
/// bytes long.
pub open spec fn parse_table(b: Seq<u8>) -> Result<Seq<Seq<char>>, DecodeError> {
    if b.len() > u32::MAX {
        Err(DecodeError::MalformedStringTable)
    } else {
        parse_table_records(b)
    }
}

/// What a new table, which holds the empty string at offset 0, holds after
/// the bytes `b` were read into it: as it held nothing but that string,
/// the records of `b`, whose first takes the place of the empty string;
/// and the empty string still where `b` holds no record.
pub open spec fn read_table(b: Seq<u8>) -> Result<Seq<Seq<char>>, DecodeError> {
    if b.len() == 0 {
        Ok(seq![Seq::<char>::empty()])
    } else {
        parse_table(b)
    }
}

/// One more string makes the table longer by its record.
pub proof fn lemma_table_push(t: Seq<Seq<char>>, s: Seq<char>)
    ensures
        table_len(t.push(s)) == table_len(t) + record_len(s),
        ser_table(t.push(s)) == ser_table(t) + ser_string(s),
        offset_at(t.push(s), t.len() as int) == table_len(t),
        forall|i: int| 0 <= i <= t.len() ==> offset_at(t.push(s), i) == offset_at(t, i),
{
    assert(t.push(s).drop_last() =~= t);
    assert(t.push(s).take(t.len() as int) =~= t);
    assert forall|i: int| 0 <= i <= t.len() implies offset_at(t.push(s), i) == offset_at(t, i) by {
        assert(t.push(s).take(i) =~= t.take(i));
    }
}

/// The string after string `i` starts where the record of string `i` ends.
pub proof fn lemma_offset_step(t: Seq<Seq<char>>, i: int)
    requires
        0 <= i < t.len(),
    ensures
        offset_at(t, i + 1) == offset_at(t, i) + record_len(t[i]),
{
    assert(t.take(i + 1).drop_last() =~= t.take(i));
}

/// Every offset lies within the table.
pub proof fn lemma_offset_le_total(t: Seq<Seq<char>>, j: int)
    requires
        0 <= j <= t.len(),
    ensures
        offset_at(t, j) <= table_len(t),
    decreases t.len() - j,
{
    if j < t.len() {
        lemma_offset_step(t, j);
        lemma_offset_le_total(t, j + 1);
    } else {
        assert(t.take(j) =~= t);
    }
}

/// Offsets grow with the position: a later string starts no earlier than
/// an earlier one ends.
pub proof fn lemma_offsets_increase(t: Seq<Seq<char>>, i: int, j: int)
    requires
        0 <= i < j <= t.len(),
    ensures
        offset_at(t, i) + record_len(t[i]) <= offset_at(t, j),
        offset_at(t, j) <= table_len(t),
    decreases j - i,
{
    lemma_offset_le_total(t, j);
    if i + 1 < j {
        lemma_offsets_increase(t, i, j - 1);
        lemma_offset_step(t, j - 1);
    } else {
        lemma_offset_step(t, i);
    }
}

/// A table's bytes are as many as its length says.
pub proof fn lemma_ser_table_len(t: Seq<Seq<char>>)
    ensures
        ser_table(t).len() == table_len(t),
    decreases t.len(),
{
    lemma_auto_spec_u32_to_from_le_bytes();
    if t.len() > 0 {
        lemma_ser_table_len(t.drop_last());
    }
}

/// The record at an offset is the one string that starts there.
pub proof fn lemma_lookup(t: Seq<Seq<char>>, i: int)
    requires
        0 <= i < t.len(),
    ensures
        lookup(t, offset_at(t, i)) == Some(t[i]),
{
    let off = offset_at(t, i);
    let k = choose|k: int| 0 <= k < t.len() && offset_at(t, k) == off;
    if k < i {
        lemma_offsets_increase(t, k, i);
    } else if i < k {
        lemma_offsets_increase(t, i, k);
    }
}

/// `String::from_utf8`: the bytes become a string exactly when they are
/// valid UTF-8, and the string's UTF-8 bytes are then the bytes given.
#[verifier::external_body]
fn string_from_utf8(bytes: Vec<u8>) -> (r: Option<String>)
    ensures
        r is Some <==> valid_utf8(bytes@),
        r matches Some(s) ==> encode_utf8(s@) == bytes@,
{
    String::from_utf8(bytes).ok()
}

/// A string table: strings under the byte offsets at which their records
/// start. No string is entered twice through `insert_str`.
pub struct StringTable {
    strs: Vec<String>,
    offs: Vec<u32>,
    total_bytes: u32,
}

impl View for StringTable {
    type V = Seq<Seq<char>>;

    /// The strings in the order of their offsets.
    closed spec fn view(&self) -> Seq<Seq<char>> {
        Seq::new(self.strs@.len(), |i: int| self.strs@[i]@)
    }
}

impl StringTable {
    /// The offsets and the total are those of the strings held.
    pub closed spec fn wf(&self) -> bool {
        &&& self.offs@.len() == self.strs@.len()
        &&& self.total_bytes == table_len(self@)
        &&& forall|i: int| 0 <= i < self.offs@.len() ==> self.offs@[i] == offset_at(self@, i)
    }

    /// The next free offset.
    pub closed spec fn total(&self) -> u32 {
        self.total_bytes
    }

    /// The next free offset is the length of the table.
    pub proof fn lemma_total(&self)
        requires
            self.wf(),
        ensures
            self.total() == table_len(self@),
    {
    }

    /// A table that holds the empty string at offset 0.
    pub fn default() -> (r: Self)
        ensures
            r.wf(),
            r@ == seq![Seq::<char>::empty()],
    {
        Self::new()
    }

    /// A table that holds the empty string at offset 0.
    pub fn new() -> (r: Self)
        ensures
            r.wf(),
            r@ == seq![Seq::<char>::empty()],
    {
        let mut strs: Vec<String> = Vec::new();
        let mut offs: Vec<u32> = Vec::new();
        strs.push(String::new());
        offs.push(0);
        let r = StringTable { strs, offs, total_bytes: 4 };
        proof {
            let e = Seq::<char>::empty();
            assert(r@ =~= seq![e]);
            assert(encode_utf8(e) =~= Seq::<u8>::empty());
            lemma_table_push(Seq::<Seq<char>>::empty(), e);
            assert(r@ =~= Seq::<Seq<char>>::empty().push(e));
        }
        r
    }

    /// The position of the first string equal to `st`.
    fn find(&self, st: &String) -> (r: Option<usize>)
        ensures
            match r {
                Some(i) => self@.index_of_first(st@) == Some(i as int) && i < self@.len(),
                None => self@.index_of_first(st@) is None,
            },
    {
        let mut i: usize = 0;
        while i < self.strs.len()
            invariant
                i <= self.strs@.len(),
                forall|j: int| 0 <= j < i ==> self@[j] != st@,
            decreases self.strs@.len() - i,
        {
            if self.strs[i] == *st {
                proof {
                    assert(self@[i as int] == st@);
                    assert(self@.contains(st@));
                    self@.index_of_first_ensures(st@);
                }
                return Some(i);
            }
            i = i + 1;
        }
        proof {
            self@.index_of_first_ensures(st@);
        }
        None
    }

    /// Enters `st` and returns its offset. A string that the table holds
    /// keeps its offset and the table stays as it is; a new string goes to
    /// the end. Fails, and changes nothing, where the table would grow
    /// beyond `u32::MAX` bytes.
    pub fn insert_str(&mut self, st: String) -> (r: Result<u32, EncodeError>)
        requires
            old(self).wf(),
        ensures
            final(self).wf(),
            match r {
                Ok(off) => match old(self)@.index_of_first(st@) {
                    Some(i) => final(self)@ == old(self)@ && off == offset_at(old(self)@, i),
                    None => final(self)@ == old(self)@.push(st@) && off == table_len(old(self)@),
                },
                Err(e) => {
                    &&& e == EncodeError::InputTooLarge
                    &&& final(self)@ == old(self)@
                    &&& old(self)@.index_of_first(st@) is None
                    &&& table_len(old(self)@) + record_len(st@) > u32::MAX
                },
            },
    {
        match self.find(&st) {
            Some(i) => Ok(self.offs[i]),
            None => {
                let st_len = st.as_str().as_bytes().len();
                if st_len > u32::MAX as usize || st_len as u64 + 4 + self.total_bytes as u64
                    > u32::MAX as u64 {
                    return Err(EncodeError::InputTooLarge);
                }
                let ret_val = self.total_bytes;
                proof {
                    lemma_table_push(self@, st@);
                }
                let ghost before = self@;
                self.strs.push(st);
                self.offs.push(ret_val);
                self.total_bytes = self.total_bytes + 4 + st_len as u32;
                assert(self@ =~= before.push(st@));
                assert forall|k: int| 0 <= k < self.offs@.len() implies self.offs@[k] == offset_at(
                    self@,
                    k,
                ) by {
                    if k < before.len() {
                        assert(offset_at(before.push(st@), k) == offset_at(before, k));
                    }
                }
                Ok(ret_val)
            },
        }
    }

    /// The table holds `st`.
    pub fn contains_str(&self, st: &String) -> (b: bool)
        ensures
            b == self@.contains(st@),
    {
        proof {
            self@.index_of_first_ensures(st@);
        }
        self.find(st).is_some()
    }

    /// The offset of `st`.
    pub fn get_off_by_str(&self, st: &String) -> (off: u32)
        requires
            self.wf(),
            self@.contains(st@),
        ensures
            Some(off as nat) == offset_of(self@, st@),
    {
        proof {
            self@.index_of_first_ensures(st@);
        }
        match self.find(st) {
            Some(i) => self.offs[i],
            None => 0,
        }
    }

    /// The string at offset `off`; `None` where no record starts there.
    pub fn get_str_by_off(&self, off: &u32) -> (r: Option<String>)
        requires
            self.wf(),
        ensures
            match r {
                Some(s) => lookup(self@, *off as nat) == Some(s@),
                None => lookup(self@, *off as nat) is None,
            },
    {
        let mut i: usize = 0;
        while i < self.offs.len()
            invariant
                i <= self.offs@.len(),
                self.wf(),
                forall|j: int| 0 <= j < i ==> offset_at(self@, j) != *off,
            decreases self.offs@.len() - i,
        {
            if self.offs[i] == *off {
                proof {
                    lemma_lookup(self@, i as int);
                }
                return Some(self.strs[i].clone());
            }
            i = i + 1;
        }
        None
    }

    /// The bytes of the table: its records in the order of their offsets.
    pub fn to_bytes(&self) -> (bytes: Vec<u8>)
        requires
            self.wf(),
        ensures
            bytes@ == ser_table(self@),
    {
        let mut bytes: Vec<u8> = Vec::new();
        let mut i: usize = 0;
        while i < self.strs.len()
            invariant
                i <= self.strs@.len(),
                self.wf(),
                bytes@ == ser_table(self@.take(i as int)),
            decreases self.strs@.len() - i,
        {
            let st = self.strs[i].as_str().as_bytes();
            proof {
                assert(self@.take(i + 1).drop_last() =~= self@.take(i as int));
                lemma_offsets_increase(self@, i as int, i + 1);
                lemma_offsets_increase(self@, i as int, self@.len() as int);
            }
            (st.len() as u32).write(&mut bytes);
            write_bytes(st, &mut bytes);
            assert(bytes@ =~= ser_table(self@.take(i as int)) + ser_string(self@[i as int]));
            i = i + 1;
        }
        assert(self@.take(self@.len() as int) =~= self@);
        bytes
    }

    /// Reads `bytes` into this table, which must be new: records of a
    /// length and that many bytes of UTF-8, until `bytes` is used up. Each
    /// string is entered under the offset at which its record starts, so
    /// the first record takes the place of the empty string at offset 0.
    /// Where `bytes` holds no record, the table keeps the empty string.
    /// On failure the table stays as it was.
    pub fn read_bytes(&mut self, bytes: &[u8]) -> (r: Result<(), DecodeError>)
        requires
            old(self).wf(),
            old(self)@ == seq![Seq::<char>::empty()],
        ensures
            match r {
                Ok(_) => {
                    &&& read_table(bytes@) == Ok::<Seq<Seq<char>>, DecodeError>(final(self)@)
                    &&& final(self).wf()
                    &&& bytes@.len() > 0 ==> table_len(final(self)@) == bytes@.len()
                    &&& bytes@.len() == 0 ==> *final(self) == *old(self)
                },
                Err(e) => {
                    &&& read_table(bytes@) == Err::<Seq<Seq<char>>, DecodeError>(e)
                    &&& *final(self) == *old(self)
                },
            },
    {
        if bytes.len() == 0 {
            return Ok(());
        }
        if bytes.len() > u32::MAX as usize {
            return Err(DecodeError::MalformedStringTable);
        }
        let mut strs: Vec<String> = Vec::new();
        let mut offs: Vec<u32> = Vec::new();
        let mut i: usize = 0;
        assert(bytes@.skip(0) =~= bytes@);
        while i < bytes.len()
            invariant
                i <= bytes@.len() <= u32::MAX,
                offs@.len() == strs@.len(),
                i == table_len(Seq::new(strs@.len(), |k: int| strs@[k]@)),
                forall|k: int|
                    0 <= k < offs@.len() ==> offs@[k] == offset_at(
                        Seq::new(strs@.len(), |k: int| strs@[k]@),
                        k,
                    ),
                parse_table_records(bytes@) == prepend(
                    Seq::new(strs@.len(), |k: int| strs@[k]@),
                    parse_table_records(bytes@.skip(i as int)),
                ),
            decreases bytes@.len() - i,
        {
            let ghost acc = Seq::new(strs@.len(), |k: int| strs@[k]@);
            let ghost rest = bytes@.skip(i as int);
            if bytes.len() - i < 4 {
                return Err(DecodeError::MalformedStringTable);
            }
            let len = u32_from_le_bytes(slice_subrange(bytes, i, i + 4)) as usize;
            assert(bytes@.subrange(i as int, i + 4) =~= rest.subrange(0, 4));
            if len > bytes.len() - i - 4 {
                return Err(DecodeError::MalformedStringTable);
            }
            let raw = slice_to_vec(slice_subrange(bytes, i + 4, i + 4 + len));
            assert(raw@ =~= rest.subrange(4, 4 + len));
            let st = match string_from_utf8(raw) {
                Some(st) => st,
                None => {
                    return Err(DecodeError::MalformedUtf8);
                },
            };
            proof {
                encode_utf8_decode_utf8(st@);
                lemma_table_push(acc, st@);
                assert(rest.skip(4 + len) =~= bytes@.skip(i + 4 + len));
                let tail = parse_table_records(bytes@.skip(i + 4 + len));
                match tail {
                    Ok(more) => {
                        assert(acc + (seq![st@] + more) =~= acc.push(st@) + more);
                    },
                    Err(_) => {},
                }
            }
            strs.push(st);
            offs.push(i as u32);
            assert(Seq::new(strs@.len(), |k: int| strs@[k]@) =~= acc.push(st@));
            i = i + 4 + len;
        }
        proof {
            let acc = Seq::new(strs@.len(), |k: int| strs@[k]@);
            assert(acc + Seq::<Seq<char>>::empty() =~= acc);
        }
        self.strs = strs;
        self.offs = offs;
        self.total_bytes = i as u32;
        Ok(())
    }
}

/// The table `t` after the string `s` was entered: `t` itself where it holds
/// `s`, else `t` with `s` at its end.
pub open spec fn intern(t: Seq<Seq<char>>, s: Seq<char>) -> Seq<Seq<char>> {
    if t.contains(s) {
        t
    } else {
        t.push(s)
    }
}

/// The table `t` after the strings `ss` were entered one after another.
pub open spec fn intern_all(t: Seq<Seq<char>>, ss: Seq<Seq<char>>) -> Seq<Seq<char>>
    decreases ss.len(),
{
    if ss.len() == 0 {
        t
    } else {
        intern(intern_all(t, ss.drop_last()), ss.last())
    }
}

/// The offset of `s` in `t` as a section holds it.
pub open spec fn off(t: Seq<Seq<char>>, s: Seq<char>) -> u32 {
    match offset_of(t, s) {
        Some(o) => o as u32,
        None => 0,
    }
}

/// The offsets of the strings `ss` in `t`.
pub open spec fn offs(t: Seq<Seq<char>>, ss: Seq<Seq<char>>) -> Seq<u32> {
    Seq::new(ss.len(), |i: int| off(t, ss[i]))
}

/// A table that grew holds every string that it held, under the offset
/// that it had.
pub proof fn lemma_prefix_offset(t1: Seq<Seq<char>>, t2: Seq<Seq<char>>, s: Seq<char>)
    requires
        t1.is_prefix_of(t2),
        t1.contains(s),
    ensures
        t2.contains(s),
        offset_of(t2, s) == offset_of(t1, s),
        off(t2, s) == off(t1, s),
{
    t1.index_of_first_ensures(s);
    let i = t1.index_of_first(s).unwrap();
    assert(t2[i] == t1[i]);
    assert(t2.contains(s));
    t2.index_of_first_ensures(s);
    let j = t2.index_of_first(s).unwrap();
    if j < i {
        assert(t1[j] == t2[j]);
    }
    assert(t2.take(i) =~= t1.take(i));
}

/// A table that grew is no shorter in bytes.
pub proof fn lemma_prefix_table_len(t1: Seq<Seq<char>>, t2: Seq<Seq<char>>)
    requires
        t1.is_prefix_of(t2),
    ensures
        table_len(t1) <= table_len(t2),
{
    lemma_offset_le_total(t2, t1.len() as int);
    assert(t2.take(t1.len() as int) =~= t1);
}

/// Entering a string keeps what the table held and makes it hold the
/// string.
pub proof fn lemma_intern(t: Seq<Seq<char>>, s: Seq<char>)
    ensures
        t.is_prefix_of(intern(t, s)),
        intern(t, s).contains(s),
        !t.contains(s) ==> offset_of(intern(t, s), s) == Some(table_len(t)),
{
    let u = intern(t, s);
    if !t.contains(s) {
        assert(u[t.len() as int] == s);
        assert(u.contains(s));
        u.index_of_first_ensures(s);
        let i = u.index_of_first(s).unwrap();
        if i < t.len() {
            assert(t[i] == s);
        }
        lemma_table_push(t, s);
    }
}

/// Entering strings keeps what the table held, makes it hold each of them,
/// and goes through the tables of the shorter lists on the way.
pub proof fn lemma_intern_all(t: Seq<Seq<char>>, ss: Seq<Seq<char>>)
    ensures
        t.is_prefix_of(intern_all(t, ss)),
        forall|i: int| 0 <= i < ss.len() ==> intern_all(t, ss).contains(#[trigger] ss[i]),
        forall|k: int|
            0 <= k <= ss.len() ==> (#[trigger] intern_all(t, ss.take(k))).is_prefix_of(
                intern_all(t, ss),
            ),
    decreases ss.len(),
{
    let u = intern_all(t, ss);
    if ss.len() > 0 {
        let rest = ss.drop_last();
        let v = intern_all(t, rest);
        lemma_intern_all(t, rest);
        lemma_intern(v, ss.last());
        assert forall|i: int| 0 <= i < ss.len() implies u.contains(#[trigger] ss[i]) by {
            if i < rest.len() {
                assert(rest[i] == ss[i]);
                lemma_prefix_offset(v, u, ss[i]);
            }
        }
        assert forall|k: int| 0 <= k <= ss.len() implies (#[trigger] intern_all(
            t,
            ss.take(k),
        )).is_prefix_of(u) by {
            if k < ss.len() {
                assert(ss.take(k) =~= rest.take(k));
            } else {
                assert(ss.take(k) =~= ss);
            }
        }
    } else {
        assert forall|k: int| 0 <= k <= ss.len() implies (#[trigger] intern_all(
            t,
            ss.take(k),
        )).is_prefix_of(u) by {
            assert(ss.take(k) =~= ss);
        }
    }
}

/// Entering two lists one after the other is entering their concatenation.
pub proof fn lemma_intern_all_concat(t: Seq<Seq<char>>, a: Seq<Seq<char>>, b: Seq<Seq<char>>)
    ensures
        intern_all(t, a + b) == intern_all(intern_all(t, a), b),
    decreases b.len(),
{
    if b.len() == 0 {
        assert(a + b =~= a);
    } else {
        lemma_intern_all_concat(t, a, b.drop_last());
        assert((a + b).drop_last() =~= a + b.drop_last());
    }
}

/// Enters the strings of `ss` into `table` in their order and returns their
/// offsets. Fails where the table would grow beyond `u32::MAX` bytes.
pub fn intern_strings(table: &mut StringTable, ss: &Vec<String>) -> (r: Result<
    Vec<u32>,
    EncodeError,
>)
    requires
        old(table).wf(),
    ensures
        final(table).wf(),
        old(table)@.is_prefix_of(final(table)@),
        match r {
            Ok(v) => {
                &&& final(table)@ == intern_all(old(table)@, strs(ss@))
                &&& v@ == offs(final(table)@, strs(ss@))
                &&& forall|i: int|
                    0 <= i < ss@.len() ==> offset_of(final(table)@, #[trigger] strs(ss@)[i])
                        == Some(v@[i] as nat)
            },
            Err(e) => {
                &&& e == EncodeError::InputTooLarge
                &&& table_len(intern_all(old(table)@, strs(ss@))) > u32::MAX
            },
        },
{
    let ghost all = strs(ss@);
    let mut v: Vec<u32> = Vec::new();
    let mut i: usize = 0;
    assert(all.take(0) =~= Seq::<Seq<char>>::empty());
    while i < ss.len()
        invariant
            i <= ss@.len(),
            all == strs(ss@),
            table.wf(),
            old(table)@.is_prefix_of(table@),
            table@ == intern_all(old(table)@, all.take(i as int)),
            v@.len() == i,
            forall|k: int| 0 <= k < i ==> offset_of(table@, #[trigger] all[k]) == Some(v@[k] as nat),
        decreases ss@.len() - i,
    {
        let ghost before = table@;
        let ghost s = all[i as int];
        proof {
            assert(all.take(i + 1).drop_last() =~= all.take(i as int));
            lemma_intern(before, s);
            before.index_of_first_ensures(s);
            lemma_intern_all(old(table)@, all);
        }
        match table.insert_str(ss[i].clone()) {
            Err(e) => {
                proof {
                    lemma_prefix_table_len(
                        intern_all(old(table)@, all.take(i + 1)),
                        intern_all(old(table)@, all),
                    );
                    lemma_table_push(before, s);
                }
                return Err(e);
            },
            Ok(o) => {
                proof {
                    assert forall|k: int| 0 <= k < i implies offset_of(table@, #[trigger] all[k])
                        == Some(v@[k] as nat) by {
                        before.index_of_first_ensures(all[k]);
                        lemma_prefix_offset(before, table@, all[k]);
                    }
                    lemma_offset_le_total(before, before.len() as int);
                }
                v.push(o);
            },
        }
        i = i + 1;
    }
    proof {
        assert(all.take(ss@.len() as int) =~= all);
        lemma_offset_le_total(table@, table@.len() as int);
        assert forall|k: int| 0 <= k < all.len() implies v@[k] == off(table@, all[k]) by {
            table@.index_of_first_ensures(all[k]);
            lemma_offset_le_total(table@, table@.index_of_first(all[k]).unwrap());
        }
        assert(v@ =~= offs(table@, all));
    }
    Ok(v)
}

/// What a signature covers.
#[derive(Debug, Clone, Copy, PartialEq, Eq)]
pub enum SIGTYPE {
    /// The whole container up to the signature sections.
    FILE,
    /// The crate binary alone.
    CRATEBIN,
}

impl SIGTYPE {
    /// The code of the kind in a signature section: 0 for the whole
    /// container, 1 for the crate binary.
    pub open spec fn code(self) -> u32 {
        match self {
            SIGTYPE::FILE => 0,
            SIGTYPE::CRATEBIN => 1,
        }
    }
}

/// The kinds of data sections.
#[derive(Debug, Clone, Copy, PartialEq, Eq)]
pub enum DATASECTIONTYPE {
    PACK,
    DEPTABLE,
    CRATEBIN,
    SIGSTRUCTURE,
}

impl DATASECTIONTYPE {
    /// The type code of the kind in the section index.
    pub open spec fn spec_code(self) -> u8 {
        match self {
            DATASECTIONTYPE::PACK => 0,
            DATASECTIONTYPE::DEPTABLE => 1,
            DATASECTIONTYPE::CRATEBIN => 3,
            DATASECTIONTYPE::SIGSTRUCTURE => 4,
        }
    }

    /// The type code of the kind in the section index.
    pub fn code(&self) -> (c: u8)
        ensures
            c == self.spec_code(),
    {
        match self {
            DATASECTIONTYPE::PACK => 0,
            DATASECTIONTYPE::DEPTABLE => 1,
            DATASECTIONTYPE::CRATEBIN => 3,
            DATASECTIONTYPE::SIGSTRUCTURE => 4,
        }
    }
}

/// The strings of `v`.
pub open spec fn strs(v: Seq<String>) -> Seq<Seq<char>> {
    Seq::new(v.len(), |i: int| v[i]@)
}

/// The byte strings of `v`.
pub open spec fn blobs(v: Seq<Vec<u8>>) -> Seq<Seq<u8>> {
    Seq::new(v.len(), |i: int| v[i]@)
}

/// A package's own description.
#[derive(Debug, Clone, PartialEq, Eq)]
pub struct PackageInfo {
    pub name: String,
    pub version: String,
    pub license: String,
    pub authors: Vec<String>,
}

/// What a package's description holds.
pub struct PackageInfoView {
    pub name: Seq<char>,
    pub version: Seq<char>,
    pub license: Seq<char>,
    pub authors: Seq<Seq<char>>,
}

impl View for PackageInfo {
    type V = PackageInfoView;

    open spec fn view(&self) -> PackageInfoView {
        PackageInfoView {
            name: self.name@,
            version: self.version@,
            license: self.license@,
            authors: strs(self.authors@),
        }
    }
}

impl PackageInfoView {
    /// The description whose strings are all empty.
    pub open spec fn empty() -> PackageInfoView {
        PackageInfoView {
            name: Seq::empty(),
            version: Seq::empty(),
            license: Seq::empty(),
            authors: Seq::empty(),
        }
    }

    /// The strings of the description in the order in which they enter the
    /// string table.
    pub open spec fn strings(self) -> Seq<Seq<char>> {
        seq![self.name, self.version, self.license] + self.authors
    }
}

impl PackageInfo {
    /// A description whose strings are all empty and that names no authors.
    pub fn default() -> (r: Self)
        ensures
            r@ == PackageInfoView::empty(),
    {
        let r = Self {
            name: String::new(),
            version: String::new(),
            license: String::new(),
            authors: Vec::new(),
        };
        assert(r@.authors =~= Seq::empty());
        r
    }

    /// The description with these parts.
    pub fn new(name: String, version: String, license: String, authors: Vec<String>) -> (r: Self)
        ensures
            r.name == name,
            r.version == version,
            r.license == license,
            r.authors == authors,
    {
        Self { name, version, license, authors }
    }
}

/// Where a dependency comes from.
#[derive(Debug, Clone, PartialEq, Eq)]
pub enum SrcTypePath {
    CratesIo,
    Git(String),
    Url(String),
    Registry(String),
    P2p(String),
}

/// Where a dependency comes from.
pub enum SrcTypePathView {
    CratesIo,
    Git(Seq<char>),
    Url(Seq<char>),
    Registry(Seq<char>),
    P2p(Seq<char>),
}

impl View for SrcTypePath {
    type V = SrcTypePathView;

    open spec fn view(&self) -> SrcTypePathView {
        match self {
            SrcTypePath::CratesIo => SrcTypePathView::CratesIo,
            SrcTypePath::Git(s) => SrcTypePathView::Git(s@),
            SrcTypePath::Url(s) => SrcTypePathView::Url(s@),
            SrcTypePath::Registry(s) => SrcTypePathView::Registry(s@),
            SrcTypePath::P2p(s) => SrcTypePathView::P2p(s@),
        }
    }
}

impl SrcTypePathView {
    /// The code of the source in a dependency table entry.
    pub open spec fn code(self) -> u8 {
        match self {
            SrcTypePathView::CratesIo => 0,
            SrcTypePathView::Git(_) => 1,
            SrcTypePathView::Url(_) => 2,
            SrcTypePathView::Registry(_) => 3,
            SrcTypePathView::P2p(_) => 4,
        }
    }

    /// The string that goes with the source; empty for `CratesIo`.
    pub open spec fn path(self) -> Seq<char> {
        match self {
            SrcTypePathView::CratesIo => Seq::empty(),
            SrcTypePathView::Git(s) => s,
            SrcTypePathView::Url(s) => s,
            SrcTypePathView::Registry(s) => s,
            SrcTypePathView::P2p(s) => s,
        }
    }

    /// The source with code `code` and string `path`, for a code from 0 to
    /// 4. The string of `CratesIo` is not kept.
    pub open spec fn from_code(code: u8, path: Seq<char>) -> SrcTypePathView {
        if code == 0 {
            SrcTypePathView::CratesIo
        } else if code == 1 {
            SrcTypePathView::Git(path)
        } else if code == 2 {
            SrcTypePathView::Url(path)
        } else if code == 3 {
            SrcTypePathView::Registry(path)
        } else {
            SrcTypePathView::P2p(path)
        }
    }
}

/// A dependency of the package.
#[derive(Debug, Clone, PartialEq, Eq)]
pub struct DepInfo {
    pub name: String,
    pub ver_req: String,
    pub src: SrcTypePath,
    pub src_platform: String,
    /// only a dependency marked so is written to the dependency table
    pub dump: bool,
}

/// What a dependency holds.
pub struct DepInfoView {
    pub name: Seq<char>,
    pub ver_req: Seq<char>,
    pub src: SrcTypePathView,
    pub src_platform: Seq<char>,
    pub dump: bool,
}

impl View for DepInfo {
    type V = DepInfoView;

    open spec fn view(&self) -> DepInfoView {
        DepInfoView {
            name: self.name@,
            ver_req: self.ver_req@,
            src: self.src@,
            src_platform: self.src_platform@,
            dump: self.dump,
        }
    }
}

impl DepInfoView {
    /// The strings of the dependency in the order in which they enter the
    /// string table.
    pub open spec fn strings(self) -> Seq<Seq<char>> {
        seq![self.name, self.ver_req, self.src.path(), self.src_platform]
    }
}

/// The dependencies of `v`.
pub open spec fn deps_view(v: Seq<DepInfo>) -> Seq<DepInfoView> {
    Seq::new(v.len(), |i: int| v[i]@)
}

impl DepInfo {
    /// A dependency on crates.io with the version requirement and the
    /// platform both "default".
    pub fn default() -> (r: Self)
        ensures
            r@ == (DepInfoView {
                name: Seq::empty(),
                ver_req: "default"@,
                src: SrcTypePathView::CratesIo,
                src_platform: "default"@,
                dump: true,
            }),
    {
        Self {
            name: String::new(),
            ver_req: String::from_str("default"),
            src: SrcTypePath::CratesIo,
            src_platform: String::from_str("default"),
            dump: true,
        }
    }

    /// The dependency with these parts.
    pub fn new(name: String, ver_req: String, src: SrcTypePath, src_platform: String, dump: bool) -> (r:
        Self)
        ensures
            r.name == name,
            r.ver_req == ver_req,
            r.src == src,
            r.src_platform == src_platform,
            r.dump == dump,
    {
        Self { name, ver_req, src, src_platform, dump }
    }
}

/// The packed source tarball.
#[derive(Debug, Clone, PartialEq, Eq)]
pub struct CrateBinary {
    pub bytes: Vec<u8>,
}

impl View for CrateBinary {
    type V = Seq<u8>;

    open spec fn view(&self) -> Seq<u8> {
        self.bytes@
    }
}

impl CrateBinary {
    /// An empty crate binary.
    pub fn new() -> (r: Self)
        ensures
            r@ == Seq::<u8>::empty(),
    {
        Self { bytes: Vec::new() }
    }

    /// Takes `bytes` as the crate binary.
    pub fn set_bin(&mut self, bytes: Vec<u8>)
        ensures
            final(self).bytes == bytes,
    {
        self.bytes = bytes;
    }

    /// Copies the tarball into the section.
    pub fn write_to_crate_binary_section(&self, cbs: &mut CrateBinarySection)
        ensures
            final(cbs)@ == self@,
    {
        cbs.bin.arr = slice_to_vec(self.bytes.as_slice());
    }

    /// Copies the tarball out of the section.
    pub fn read_from_crate_biary_section(&mut self, cbs: &CrateBinarySection)
        ensures
            final(self)@ == cbs@,
    {
        self.bytes = slice_to_vec(cbs.bin.arr.as_slice());
    }
}

/// A signature of the package: what it covers, how long the signed blob is,
/// the blob, and the signer's material.
#[derive(Debug, Clone, PartialEq, Eq)]
pub struct SigInfo {
    pub typ: u32,
    pub size: usize,
    pub bin: Vec<u8>,
    pub pkcs: PKCS,
}

/// What a signature holds.
pub struct SigInfoView {
    pub typ: u32,
    pub size: usize,
    pub bin: Seq<u8>,
    pub pkcs: PKCSView,
}

impl View for SigInfo {
    type V = SigInfoView;

    open spec fn view(&self) -> SigInfoView {
        SigInfoView { typ: self.typ, size: self.size, bin: self.bin@, pkcs: self.pkcs@ }
    }
}

impl SigInfoView {
    /// The signature section of the signature.
    pub open spec fn section(self) -> SigStructureSectionView {
        SigStructureSectionView {
            sigstruct_size: self.size as u32,
            sigstruct_type: self.typ as u8,
            sigstruct_sig: self.bin,
        }
    }
}

/// The signatures of `v`.
pub open spec fn sigs_view(v: Seq<SigInfo>) -> Seq<SigInfoView> {
    Seq::new(v.len(), |i: int| v[i]@)
}

impl SigInfo {
    /// A signature over the whole container, not yet made, with no signer.
    pub fn new() -> (r: Self)
        ensures
            r@ == (SigInfoView { typ: 0, size: 0, bin: Seq::empty(), pkcs: PKCSView::empty() }),
    {
        SigInfo { typ: 0, size: 0, bin: Vec::new(), pkcs: PKCS::new() }
    }

    /// Takes type, size and blob from the section; the signer stays.
    pub fn read_from_sig_structure_section(&mut self, sig: &SigStructureSection)
        ensures
            final(self)@ == (SigInfoView {
                typ: sig.sigstruct_type as u32,
                size: sig.sigstruct_size as usize,
                bin: sig.sigstruct_sig.arr@,
                pkcs: old(self).pkcs@,
            }),
    {
        self.typ = sig.sigstruct_type as u32;
        self.size = sig.sigstruct_size as usize;
        self.bin = slice_to_vec(sig.sigstruct_sig.arr.as_slice());
    }

    /// Writes type, size and blob to the section. Fails, and leaves the
    /// section as it is, where the size does not fit in 32 bits.
    pub fn write_to_sig_structure_section(&self, sig: &mut SigStructureSection) -> (r: Result<
        (),
        EncodeError,
    >)
        requires
            self.typ <= u8::MAX,
        ensures
            match r {
                Ok(_) => self.size <= u32::MAX && final(sig)@ == self@.section(),
                Err(e) => e == EncodeError::InputTooLarge && self.size > u32::MAX && *final(sig)
                    == *old(sig),
            },
    {
        if self.size > u32::MAX as usize {
            return Err(EncodeError::InputTooLarge);
        }
        sig.sigstruct_type = self.typ as u8;
        sig.sigstruct_size = self.size as u32;
        sig.sigstruct_sig = RawArrayType::from_vec(slice_to_vec(self.bin.as_slice()));
        Ok(())
    }
}

/// The package section of `info`, its strings taken by their offsets in
/// `t`.
pub open spec fn package_section_of(
    t: Seq<Seq<char>>,
    info: PackageInfoView,
) -> PackageSectionView {
    PackageSectionView {
        pkg_name: off(t, info.name),
        pkg_version: off(t, info.version),
        pkg_license: off(t, info.license),
        authors_len: info.authors.len() as u32,
        authors: offs(t, info.authors),
    }
}

/// The strings at the offsets `os` in `t`; `None` where one of the offsets
/// names no record.
pub open spec fn lookup_all(t: Seq<Seq<char>>, os: Seq<u32>) -> Option<Seq<Seq<char>>>
    decreases os.len(),
{
    if os.len() == 0 {
        Some(Seq::empty())
    } else {
        match (lookup_all(t, os.drop_last()), lookup(t, os.last() as nat)) {
            (Some(ss), Some(s)) => Some(ss.push(s)),
            _ => None,
        }
    }
}

/// The description that the package section `ps` stands for, its offsets
/// resolved in `t`.
pub open spec fn package_info_of(t: Seq<Seq<char>>, ps: PackageSectionView) -> Result<
    PackageInfoView,
    DecodeError,
> {
    match (
        lookup(t, ps.pkg_name as nat),
        lookup(t, ps.pkg_version as nat),
        lookup(t, ps.pkg_license as nat),
        lookup_all(t, ps.authors),
    ) {
        (Some(name), Some(version), Some(license), Some(authors)) => Ok(
            PackageInfoView { name, version, license, authors },
        ),
        _ => Err(DecodeError::MalformedStringTable),
    }
}

/// The dependency table entry of `d`, its strings taken by their offsets
/// in `t`.
pub open spec fn dep_entry_of(t: Seq<Seq<char>>, d: DepInfoView) -> DepTableEntry {
    DepTableEntry {
        dep_name: off(t, d.name),
        dep_verreq: off(t, d.ver_req),
        dep_srctype: d.src.code(),
        dep_srcpath: off(t, d.src.path()),
        dep_platform: off(t, d.src_platform),
    }
}

/// The source that the entry `e` names: for code 0 crates.io, whatever its
/// path offset; for codes 1 to 4 the source with the string at the path
/// offset. `None` where that offset names no record.
pub open spec fn src_of(t: Seq<Seq<char>>, e: DepTableEntry) -> Option<SrcTypePathView> {
    if e.dep_srctype == 0 {
        Some(SrcTypePathView::CratesIo)
    } else {
        match lookup(t, e.dep_srcpath as nat) {
            Some(p) => Some(SrcTypePathView::from_code(e.dep_srctype, p)),
            None => None,
        }
    }
}

/// The dependency that the entry `e` stands for, its offsets resolved in
/// `t`. A dependency that was read is marked as one to write.
pub open spec fn dep_info_of(t: Seq<Seq<char>>, e: DepTableEntry) -> Result<
    DepInfoView,
    DecodeError,
> {
    match (lookup(t, e.dep_name as nat), lookup(t, e.dep_verreq as nat)) {
        (Some(name), Some(ver_req)) => if e.dep_srctype > 4 {
            Err(DecodeError::InvalidSourceTypeCode)
        } else {
            match (src_of(t, e), lookup(t, e.dep_platform as nat)) {
                (Some(src), Some(src_platform)) => Ok(
                    DepInfoView { name, ver_req, src, src_platform, dump: true },
                ),
                _ => Err(DecodeError::MalformedStringTable),
            }
        },
        _ => Err(DecodeError::MalformedStringTable),
    }
}

impl PackageInfo {
    /// Enters name, version, license and authors into `str_table`, in this
    /// order, and writes their offsets to `ps`. Fails, and leaves `ps` as
    /// it is, where there are more than `u32::MAX` authors or the table
    /// would grow beyond `u32::MAX` bytes.
    pub fn write_to_package_section(
        &self,
        ps: &mut PackageSection,
        str_table: &mut StringTable,
    ) -> (r: Result<(), EncodeError>)
        requires
            old(str_table).wf(),
        ensures
            final(str_table).wf(),
            old(str_table)@.is_prefix_of(final(str_table)@),
            match r {
                Ok(_) => {
                    &&& self@.authors.len() <= u32::MAX
                    &&& final(str_table)@ == intern_all(old(str_table)@, self@.strings())
                    &&& final(ps)@ == package_section_of(final(str_table)@, self@)
                },
                Err(e) => {
                    &&& e == EncodeError::InputTooLarge
                    &&& *final(ps) == *old(ps)
                    &&& (self@.authors.len() > u32::MAX || table_len(
                        intern_all(old(str_table)@, self@.strings()),
                    ) > u32::MAX)
                },
            },
    {
        if self.authors.len() > u32::MAX as usize {
            return Err(EncodeError::InputTooLarge);
        }
        let mut ss: Vec<String> = Vec::new();
        ss.push(self.name.clone());
        ss.push(self.version.clone());
        ss.push(self.license.clone());
        let mut i: usize = 0;
        while i < self.authors.len()
            invariant
                i <= self.authors@.len(),
                ss@.len() == 3 + i,
                ss@[0]@ == self.name@,
                ss@[1]@ == self.version@,
                ss@[2]@ == self.license@,
                forall|k: int| 0 <= k < i ==> ss@[3 + k]@ == self.authors@[k]@,
            decreases self.authors@.len() - i,
        {
            ss.push(self.authors[i].clone());
            i = i + 1;
        }
        assert(strs(ss@) =~= self@.strings());
        let v = match intern_strings(str_table, &ss) {
            Ok(v) => v,
            Err(e) => {
                return Err(e);
            },
        };
        let mut authors: Vec<u32> = Vec::new();
        let mut k: usize = 0;
        while k < self.authors.len()
            invariant
                k <= self.authors@.len(),
                v@.len() == 3 + self.authors@.len(),
                v@.len() <= usize::MAX,
                authors@ == v@.subrange(3, 3 + k),
            decreases self.authors@.len() - k,
        {
            authors.push(v[3 + k]);
            assert(authors@ =~= v@.subrange(3, 3 + k + 1));
            k = k + 1;
        }
        ps.pkg_name = v[0];
        ps.pkg_version = v[1];
        ps.pkg_license = v[2];
        ps.pkg_authors = LenArrayType { len: self.authors.len() as u32, arr: authors };
        proof {
            let t = str_table@;
            assert(self@.strings()[0] == self@.name);
            assert(self@.strings()[1] == self@.version);
            assert(self@.strings()[2] == self@.license);
            assert forall|j: int| 0 <= j < self@.authors.len() implies authors@[j] == off(
                t,
                self@.authors[j],
            ) by {
                assert(self@.strings()[3 + j] == self@.authors[j]);
            }
            assert(authors@ =~= offs(t, self@.authors));
        }
        Ok(())
    }

    /// Takes name, version, license and authors from `ps`, each offset
    /// resolved in `str_table`. Fails, and changes nothing, where an
    /// offset names no record of the table.
    pub fn read_from_package_section(&mut self, ps: &PackageSection, str_table: &StringTable) -> (r:
        Result<(), DecodeError>)
        requires
            str_table.wf(),
        ensures
            match r {
                Ok(_) => package_info_of(str_table@, ps@) == Ok::<PackageInfoView, DecodeError>(
                    final(self)@,
                ),
                Err(e) => {
                    &&& package_info_of(str_table@, ps@) == Err::<PackageInfoView, DecodeError>(e)
                    &&& *final(self) == *old(self)
                },
            },
    {
        let name = match str_table.get_str_by_off(&ps.pkg_name) {
            Some(s) => s,
            None => {
                return Err(DecodeError::MalformedStringTable);
            },
        };
        let version = match str_table.get_str_by_off(&ps.pkg_version) {
            Some(s) => s,
            None => {
                return Err(DecodeError::MalformedStringTable);
            },
        };
        let license = match str_table.get_str_by_off(&ps.pkg_license) {
            Some(s) => s,
            None => {
                return Err(DecodeError::MalformedStringTable);
            },
        };
        let mut authors: Vec<String> = Vec::new();
        let mut i: usize = 0;
        let ghost os = ps@.authors;
        assert(os.take(0) =~= Seq::<u32>::empty());
        assert(strs(authors@) =~= Seq::<Seq<char>>::empty());
        while i < ps.pkg_authors.arr.len()
            invariant
                i <= os.len(),
                os == ps.pkg_authors.arr@,
                str_table.wf(),
                lookup_all(str_table@, os.take(i as int)) == Some(strs(authors@)),
            decreases os.len() - i,
        {
            proof {
                assert(os.take(i + 1).drop_last() =~= os.take(i as int));
                lemma_lookup_all_none(str_table@, os, i + 1);
            }
            match str_table.get_str_by_off(&ps.pkg_authors.arr[i]) {
                Some(s) => {
                    let ghost before = strs(authors@);
                    authors.push(s);
                    assert(strs(authors@) =~= before.push(s@));
                },
                None => {
                    return Err(DecodeError::MalformedStringTable);
                },
            }
            i = i + 1;
        }
        assert(os.take(os.len() as int) =~= os);
        self.name = name;
        self.version = version;
        self.license = license;
        self.authors = authors;
        Ok(())
    }
}

/// Where a prefix of the offsets cannot be resolved, the whole list cannot.
pub proof fn lemma_lookup_all_none(t: Seq<Seq<char>>, os: Seq<u32>, n: int)
    requires
        0 <= n <= os.len(),
    ensures
        lookup_all(t, os.take(n)) is None ==> lookup_all(t, os) is None,
    decreases os.len() - n,
{
    if n < os.len() {
        assert(os.take(n + 1).drop_last() =~= os.take(n));
        lemma_lookup_all_none(t, os, n + 1);
    } else {
        assert(os.take(n) =~= os);
    }
}

impl SrcTypePath {
    /// The code of the source in a dependency table entry.
    pub fn code(&self) -> (c: u8)
        ensures
            c == self@.code(),
    {
        match self {
            SrcTypePath::CratesIo => 0,
            SrcTypePath::Git(_) => 1,
            SrcTypePath::Url(_) => 2,
            SrcTypePath::Registry(_) => 3,
            SrcTypePath::P2p(_) => 4,
        }
    }

    /// The string that goes with the source; empty for `CratesIo`.
    pub fn path(&self) -> (p: String)
        ensures
            p@ == self@.path(),
    {
        match self {
            SrcTypePath::CratesIo => String::new(),
            SrcTypePath::Git(s) => s.clone(),
            SrcTypePath::Url(s) => s.clone(),
            SrcTypePath::Registry(s) => s.clone(),
            SrcTypePath::P2p(s) => s.clone(),
        }
    }
}

impl DepInfo {
    /// Enters name, version requirement, source string and platform into
    /// `str_table`, in this order, and writes their offsets and the code of
    /// the source to `dte`. Fails, and leaves `dte` as it is, where the
    /// table would grow beyond `u32::MAX` bytes.
    pub fn write_to_dep_table_entry(&self, dte: &mut DepTableEntry, str_table: &mut StringTable) -> (r:
        Result<(), EncodeError>)
        requires
            old(str_table).wf(),
        ensures
            final(str_table).wf(),
            old(str_table)@.is_prefix_of(final(str_table)@),
            match r {
                Ok(_) => {
                    &&& final(str_table)@ == intern_all(old(str_table)@, self@.strings())
                    &&& *final(dte) == dep_entry_of(final(str_table)@, self@)
                },
                Err(e) => {
                    &&& e == EncodeError::InputTooLarge
                    &&& *final(dte) == *old(dte)
                    &&& table_len(intern_all(old(str_table)@, self@.strings())) > u32::MAX
                },
            },
    {
        let mut ss: Vec<String> = Vec::new();
        ss.push(self.name.clone());
        ss.push(self.ver_req.clone());
        ss.push(self.src.path());
        ss.push(self.src_platform.clone());
        assert(strs(ss@) =~= self@.strings());
        let v = match intern_strings(str_table, &ss) {
            Ok(v) => v,
            Err(e) => {
                return Err(e);
            },
        };
        dte.dep_name = v[0];
        dte.dep_verreq = v[1];
        dte.dep_srctype = self.src.code();
        dte.dep_srcpath = v[2];
        dte.dep_platform = v[3];
        proof {
            assert(self@.strings()[0] == self@.name);
            assert(self@.strings()[1] == self@.ver_req);
            assert(self@.strings()[2] == self@.src.path());
            assert(self@.strings()[3] == self@.src_platform);
        }
        Ok(())
    }

    /// Takes the dependency from `dte`, each offset resolved in
    /// `str_table`, and marks it as one to write. Fails, and changes
    /// nothing, where an offset names no record of the table or the source
    /// code is not one of 0 to 4.
    pub fn read_from_dep_table_entry(&mut self, dte: &DepTableEntry, str_table: &StringTable) -> (r:
        Result<(), DecodeError>)
        requires
            str_table.wf(),
        ensures
            match r {
                Ok(_) => dep_info_of(str_table@, *dte) == Ok::<DepInfoView, DecodeError>(
                    final(self)@,
                ),
                Err(e) => {
                    &&& dep_info_of(str_table@, *dte) == Err::<DepInfoView, DecodeError>(e)
                    &&& *final(self) == *old(self)
                },
            },
    {
        let name = match str_table.get_str_by_off(&dte.dep_name) {
            Some(s) => s,
            None => {
                return Err(DecodeError::MalformedStringTable);
            },
        };
        let ver_req = match str_table.get_str_by_off(&dte.dep_verreq) {
            Some(s) => s,
            None => {
                return Err(DecodeError::MalformedStringTable);
            },
        };
        if dte.dep_srctype > 4 {
            return Err(DecodeError::InvalidSourceTypeCode);
        }
        let src = if dte.dep_srctype == 0 {
            SrcTypePath::CratesIo
        } else {
            let p = match str_table.get_str_by_off(&dte.dep_srcpath) {
                Some(s) => s,
                None => {
                    return Err(DecodeError::MalformedStringTable);
                },
            };
            if dte.dep_srctype == 1 {
                SrcTypePath::Git(p)
            } else if dte.dep_srctype == 2 {
                SrcTypePath::Url(p)
            } else if dte.dep_srctype == 3 {
                SrcTypePath::Registry(p)
            } else {
                SrcTypePath::P2p(p)
            }
        };
        let src_platform = match str_table.get_str_by_off(&dte.dep_platform) {
            Some(s) => s,
            None => {
                return Err(DecodeError::MalformedStringTable);
            },
        };
        self.dump = true;
        self.name = name;
        self.ver_req = ver_req;
        self.src = src;
        self.src_platform = src_platform;
        Ok(())
    }
}

/// The package with all that goes into its container, and the root
/// certificates against which a container's signatures are checked.
#[derive(Debug, Clone, PartialEq, Eq)]
pub struct PackageContext {
    pub pack_info: PackageInfo,
    pub dep_infos: Vec<DepInfo>,
    pub crate_binary: CrateBinary,
    pub sigs: Vec<SigInfo>,
    pub root_cas: Vec<Vec<u8>>,
}

/// What a package context holds.
pub struct PackageContextView {
    pub pack_info: PackageInfoView,
    pub dep_infos: Seq<DepInfoView>,
    pub crate_binary: Seq<u8>,
    pub sigs: Seq<SigInfoView>,
    pub root_cas: Seq<Seq<u8>>,
}

impl View for PackageContext {
    type V = PackageContextView;

    open spec fn view(&self) -> PackageContextView {
        PackageContextView {
            pack_info: self.pack_info@,
            dep_infos: deps_view(self.dep_infos@),
            crate_binary: self.crate_binary@,
            sigs: sigs_view(self.sigs@),
            root_cas: blobs(self.root_cas@),
        }
    }
}

impl PackageContextView {
    /// The context of a package of which nothing is known yet.
    pub open spec fn empty() -> PackageContextView {
        PackageContextView {
            pack_info: PackageInfoView::empty(),
            dep_infos: Seq::empty(),
            crate_binary: Seq::empty(),
            sigs: Seq::empty(),
            root_cas: Seq::empty(),
        }
    }
}

impl PackageContext {
    /// The context of a package of which nothing is known yet.
    pub fn new() -> (r: Self)
        ensures
            r@ == PackageContextView::empty(),
    {
        let r = Self {
            pack_info: PackageInfo::default(),
            crate_binary: CrateBinary::new(),
            dep_infos: Vec::new(),
            sigs: Vec::new(),
            root_cas: Vec::new(),
        };
        proof {
            assert(r@.dep_infos =~= Seq::empty());
            assert(r@.sigs =~= Seq::empty());
            assert(r@.root_cas =~= Seq::empty());
        }
        r
    }

    /// Sets the package's description.
    pub fn set_package_info(
        &mut self,
        name: String,
        version: String,
        license: String,
        authors: Vec<String>,
    )
        ensures
            final(self)@ == (PackageContextView {
                pack_info: PackageInfoView {
                    name: name@,
                    version: version@,
                    license: license@,
                    authors: strs(authors@),
                },
                ..old(self)@
            }),
    {
        self.pack_info = PackageInfo { name, version, license, authors };
    }

    /// Adds a dependency that is to be written to the container.
    pub fn add_dep_info(
        &mut self,
        name: String,
        ver_req: String,
        src: SrcTypePath,
        src_platform: String,
    )
        ensures
            final(self)@ == (PackageContextView {
                dep_infos: old(self)@.dep_infos.push(
                    DepInfoView {
                        name: name@,
                        ver_req: ver_req@,
                        src: src@,
                        src_platform: src_platform@,
                        dump: true,
                    },
                ),
                ..old(self)@
            }),
    {
        self.dep_infos.push(DepInfo { name, ver_req, src, src_platform, dump: true });
        assert(deps_view(self.dep_infos@) =~= deps_view(old(self).dep_infos@).push(
            self.dep_infos@.last()@,
        ));
    }

    /// The number of dependencies.
    pub fn get_dep_num(&self) -> (n: usize)
        ensures
            n == self@.dep_infos.len(),
    {
        self.dep_infos.len()
    }

    /// Adds a signature of the given kind that `pkcs` is to make, and
    /// returns its position among the signatures.
    pub fn add_sig(&mut self, pkcs: PKCS, sign_type: SIGTYPE) -> (n: usize)
        ensures
            n == old(self)@.sigs.len(),
            final(self)@ == (PackageContextView {
                sigs: old(self)@.sigs.push(
                    SigInfoView { typ: sign_type.code(), size: 0, bin: Seq::empty(), pkcs: pkcs@ },
                ),
                ..old(self)@
            }),
    {
        let typ: u32 = match sign_type {
            SIGTYPE::FILE => 0,
            SIGTYPE::CRATEBIN => 1,
        };
        let n = self.sigs.len();
        self.sigs.push(SigInfo { typ, size: 0, bin: Vec::new(), pkcs });
        assert(sigs_view(self.sigs@) =~= sigs_view(old(self).sigs@).push(self.sigs@.last()@));
        n
    }

    /// The number of signatures.
    pub fn get_sig_num(&self) -> (n: usize)
        ensures
            n == self@.sigs.len(),
    {
        self.sigs.len()
    }

    /// Takes `root_ca_bins` as the roots, each a certificate as PEM.
    pub fn set_root_cas_bin(&mut self, root_ca_bins: Vec<Vec<u8>>)
        ensures
            final(self)@ == (PackageContextView { root_cas: blobs(root_ca_bins@), ..old(self)@ }),
    {
        self.root_cas = root_ca_bins;
    }

    /// Adds the root certificate `root_ca`, as PEM.
    pub fn add_root_cas(&mut self, root_ca: Vec<u8>)
        ensures
            final(self)@ == (PackageContextView {
                root_cas: old(self)@.root_cas.push(root_ca@),
                ..old(self)@
            }),
    {
        self.root_cas.push(root_ca);
        assert(blobs(self.root_cas@) =~= blobs(old(self).root_cas@).push(root_ca@));
    }

    /// Takes `bin` as the crate binary.
    pub fn add_crate_bin(&mut self, bin: Vec<u8>)
        ensures
            final(self)@ == (PackageContextView { crate_binary: bin@, ..old(self)@ }),
    {
        let mut c = CrateBinary::new();
        c.set_bin(bin);
        self.crate_binary = c;
    }
}

} // verus!
