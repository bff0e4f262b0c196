//! Decoders for the compressed hunks of CHD disc images.
//!
//! A hunk is a fixed-size block of the image, compressed on its own. Each
//! codec turns the compressed bytes of one hunk back into the exact
//! uncompressed bytes and reports how many bytes it produced and consumed.
//! All codecs work on byte slices that are already in memory.
//!
//! - [`compression`] holds the interface of the codecs and the codecs:
//!   [`LzmaCodec`] for headerless LZMA streams, [`ZlibCodec`] for raw
//!   deflate streams, [`RawFlacCodec`] for FLAC audio and [`CdFlCodec`] for
//!   CD sectors stored as FLAC audio and deflated subcode.
//! - [`cdrom`] holds the layout of CD frames and puts frames together.
//! - [`chdcorefile`] says how a seekable file of a C file interface is
//!   driven.
//!
//! The decoders for LZMA, deflate and FLAC themselves are those of the
//! crates `lzma_rs_perf_exp`, `flate2` and `claxon`. What they return is
//! taken as given; everything the codecs do with it is proved.
pub mod arith;
pub mod cdrom;
pub mod chdcorefile;
pub mod compression;
pub mod error;
pub mod header;

pub use crate::chdcorefile::CoreFile;
pub use crate::compression::flac::CdFlCodec;
pub use crate::compression::flac::RawFlacCodec;
pub use crate::compression::lzma::get_lzma_dict_size;
pub use crate::compression::lzma::LzmaCodec;
pub use crate::compression::zlib::ZlibCodec;
pub use crate::compression::CompressionCodec;
pub use crate::compression::CompressionCodecType;
pub use crate::compression::DecompressLength;
pub use crate::compression::InternalCodec;
pub use crate::error::ChdError;
pub use crate::header::CodecType;
