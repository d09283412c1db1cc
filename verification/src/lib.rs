//! A signed, self-describing binary container for source packages.
//!
//! A container holds a package's identity, its dependency table, the packed
//! source tarball and any number of signatures. A producer fills a
//! [`utils::context::PackageContext`] and encodes it; a consumer decodes the
//! bytes, which checks the fingerprint and every signature against the roots
//! that it trusts, and gets the package back.
//!
//! # The bytes of a container
//!
//! All integers are little-endian and of fixed width.
//!
//! | bytes | what |
//! |---|---|
//! | 0..5 | the magic number, `CRATE` |
//! | 5 | the version, 0 |
//! | 6..30 | six `u32`: size and offset of the string table, size and offset of the section index, its number of entries, and the offset of the data sections |
//! | from the string table's offset | the string table: for each string its length as `u32`, then its UTF-8 bytes |
//! | from the index's offset | the section index: for each data section its type as `u8`, its offset and its size as `u32` |
//! | from the data sections' offset | the data sections |
//! | the last 32 | the SHA-256 digest of all bytes before it |
//!
//! An index entry's offset counts from the start of the data sections. The
//! types are 0 for the package section, 1 for the dependency table, 3 for the
//! crate binary and 4 for a signature. Sections hold strings by their offsets
//! in the string table; offset 0 is the empty string.
//!
//! # What is proved
//!
//! Every function of this crate is verified with Verus against its contract,
//! but for the calls into OpenSSL in [`utils::pkcs`], whose answers are taken
//! as they come, and the call of `String::from_utf8` when a string table is
//! read. [`utils::laws`] states what holds of encoder and decoder
//! together: a container is decoded to the package that it was encoded from,
//! its fingerprint is right, its string table holds every string once, and
//! what the signers sign is what a verifier checks.
pub mod pack;
pub mod unpack;
pub mod utils;
