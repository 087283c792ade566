//! Plumbing for a content-addressed version-control repository.
//!
//! Everything here works on bytes and plain values that the caller has read
//! from, or will write to, the repository; nothing here touches the file
//! system. Every function has a contract, stated over the mathematical view
//! of its arguments, and is proved to meet it.
//!
//! - [`objects`]: the type tokens, the header `<type> <size>\0` and the
//!   framing of content behind it.
//! - [`store`]: the names of objects, their paths, and what is written to and
//!   read from their files.
//! - [`tree`]: the entries of tree objects and their listing.
//! - [`index`]: the index file, its records and its flags.
//! - [`refs`]: references by path, the symbolic `HEAD`, and their listing.
//! - [`hex`], [`text`]: hexadecimal, decimal, UTF-8 and the order of byte
//!   strings.
//! - [`digest`], [`zlib`]: SHA-1 and zlib, as the `sha1` and `flate2` crates
//!   compute them. These two, the UTF-8 check in [`text`] and the clock in
//!   [`index`] are the only places where a contract is taken on trust.
//! - [`error`]: the kinds of failure and a short text for each error.

pub mod digest;
pub mod error;
pub mod hex;
pub mod index;
pub mod objects;
pub mod refs;
pub mod store;
pub mod text;
pub mod tree;
pub mod zlib;
