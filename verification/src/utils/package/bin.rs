//! Encoding to bytes and decoding from bytes, as traits.
use crate::utils::package::codec::{
    parse_records, read_records, ser_package, ser_records, ser_section, write_records, Record,
};
use crate::utils::package::{CratePackage, DataSection, RawArrayType};
use vstd::prelude::*;

verus! {

/// A value that can be written as bytes.
pub trait Encode {
    /// The bytes that the value is written as.
    spec fn encoding(&self) -> Seq<u8>;

    /// The bytes of the value.
    fn encode(&self) -> (bytes: Vec<u8>)
        ensures
            bytes@ == self.encoding(),
    ;

    /// The bytes of the value.
    fn encode_to_vec(&self) -> (bytes: Vec<u8>)
        ensures
            bytes@ == self.encoding(),
    ;
}

/// A kind of value that can be read from bytes.
pub trait Decode {
    /// What reading gives.
    type Output;

    /// `out` is what `bin` is read as.
    spec fn decoded(bin: Seq<u8>, out: Self::Output) -> bool;

    /// Reads a value from `bin`.
    fn decode(bin: &[u8]) -> (out: Self::Output)
        ensures
            Self::decoded(bin@, out),
    ;

    /// Reads a value from `bin`.
    fn decode_from_vec(bin: &Vec<u8>) -> (out: Self::Output)
        ensures
            Self::decoded(bin@, out),
    ;

    /// Reads a value from `bin`.
    fn decode_from_slice(bin: &[u8]) -> (out: Self::Output)
        ensures
            Self::decoded(bin@, out),
    ;
}

impl<T: Record> Encode for RawArrayType<T> {
    open spec fn encoding(&self) -> Seq<u8> {
        ser_records(self.arr@)
    }

    fn encode(&self) -> (bytes: Vec<u8>) {
        let mut bytes: Vec<u8> = Vec::new();
        write_records(&self.arr, &mut bytes);
        assert(bytes@ =~= ser_records(self.arr@));
        bytes
    }

    fn encode_to_vec(&self) -> (bytes: Vec<u8>) {
        self.encode()
    }
}

impl<T: Record> Decode for RawArrayType<T> {
    type Output = RawArrayType<T>;

    /// As many records as `bin` holds in full are read from its front.
    open spec fn decoded(bin: Seq<u8>, out: RawArrayType<T>) -> bool {
        out.arr@ == parse_records::<T>(bin, (bin.len() as int / T::width() as int) as nat)
    }

    fn decode(bin: &[u8]) -> (out: RawArrayType<T>) {
        let w = T::exec_width();
        let n = bin.len() / w;
        proof {
            assert(n * w <= bin@.len()) by (nonlinear_arith)
                requires
                    n == (bin@.len() as int) / (w as int),
                    w > 0,
            ;
        }
        match read_records::<T>(bin, n) {
            Some(arr) => RawArrayType { arr },
            None => vstd::pervasive::unreached(),
        }
    }

    fn decode_from_vec(bin: &Vec<u8>) -> (out: RawArrayType<T>) {
        <Self as Decode>::decode(bin.as_slice())
    }

    fn decode_from_slice(bin: &[u8]) -> (out: RawArrayType<T>) {
        <Self as Decode>::decode(bin)
    }
}

impl Encode for DataSection {
    open spec fn encoding(&self) -> Seq<u8> {
        ser_section(self@)
    }

    fn encode(&self) -> (bytes: Vec<u8>) {
        let mut bytes: Vec<u8> = Vec::new();
        self.write(&mut bytes);
        assert(bytes@ =~= ser_section(self@));
        bytes
    }

    fn encode_to_vec(&self) -> (bytes: Vec<u8>) {
        self.encode()
    }
}

impl Encode for CratePackage {
    open spec fn encoding(&self) -> Seq<u8> {
        ser_package(self@)
    }

    fn encode(&self) -> (bytes: Vec<u8>) {
        CratePackage::encode_to_vec(self)
    }

    fn encode_to_vec(&self) -> (bytes: Vec<u8>) {
        CratePackage::encode_to_vec(self)
    }
}

} // verus!
