//! Decoder for the binary graph files that hold coloured de Bruijn k-mer
//! graphs: a header that names the colours, followed by one fixed-size
//! record per k-mer.
//!
//! The decoders work on byte slices and tell "more bytes are needed"
//! ([`DecodeError::Incomplete`]) apart from "these bytes are wrong", so that
//! a [`Stream`] can take its input in pieces of any size.

pub mod codec;
pub mod error;
pub mod header;
pub mod header_laws;
pub mod kmer;
pub mod stream;
pub mod stream_laws;
pub mod text;
pub mod wire;

pub use codec::{edges, nu, nucleotides};
pub use error::{DecodeError, Field};
pub use header::{cleaning, header, Cleaning, Header};
pub use kmer::{kmer, Kmer};
pub use stream::{mccortex, Batch, McCortex, Stream};
