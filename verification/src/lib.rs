//! A structural codec for the Mach object container format.
//!
//! The crate decodes a byte buffer into a typed value (a thin header with its
//! load commands, or a fat wrapper with one thin header per architecture
//! slot) and encodes such a value back into bytes.  Every executable function
//! is specified against a mathematical model of the wire format, and the
//! model itself is shown to be lossless.
//!
//! The modules, from the leaves up:
//!
//! - [`wire`]: 32-bit and 64-bit integers in either byte order;
//! - [`names`]: texts in NUL-padded fields of fixed width;
//! - [`tags`]: the registries of magic numbers, processor types and file
//!   types, and the resolver of magic numbers;
//! - [`ident`]: the 128-bit identifier of an image;
//! - [`section`], [`payload`], [`command`]: the records that load commands
//!   consist of, and the model of their bytes;
//! - [`command_read`], [`command_write`]: the decoder and the encoder of
//!   load commands;
//! - [`header`]: the header of a single image and its commands;
//! - [`fat`]: the fat wrapper and its architecture slots;
//! - [`command_laws`], [`header_laws`], [`fat_laws`]: what is proved of the
//!   model, above all that decoding undoes encoding and that encoding
//!   gives back the bytes that were decoded.
//!
//! The counts and sizes of the wire format are not stored in the values:
//! they are computed when a value is written, and checked when bytes are
//! read.

pub mod command;
pub mod command_laws;
pub mod command_read;
pub mod command_write;
pub mod errors;
pub mod fat;
pub mod fat_laws;
pub mod header;
pub mod header_laws;
pub mod ident;
pub mod names;
pub mod payload;
pub mod section;
pub mod tags;
pub mod wire;

pub use command::{BuildVersion, DylibCommand, LoadCommand, PathCommand, Segment};
pub use command_read::decode_command;
pub use command_write::encode_command;
pub use errors::{DecodeError, EncodeError, NameField};
pub use fat::{decode_fat, encode_fat, FatArch, FatHeader};
pub use header::{decode_mach, decode_mach_at, encode_mach, MachHeader};
pub use names::{map_cstring, map_cstring_bytes};
pub use payload::{
    BuildToolVersion, DyldInfo, DynamicSymbolTable, EncryptionInfo, EncryptionInfo64, EntryPoint,
    FileRange, MinimumOsVersion, SymbolTable,
};
pub use section::Section;
pub use tags::{
    peek_magic, Container, CpuSubtype, CpuType, FileType, Layout, MagicKind, Width,
};
pub use wire::ByteOrder;
