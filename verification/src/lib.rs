//! Decoder for the DL family of USB display command streams.
//!
//! The decoder consumes a captured bulk-transfer byte stream, maintains a
//! 16 MiB graphics RAM image, a 256-byte register file and a 512-row
//! decompression table, and reports one event per decoded command.

pub mod decompnode;
pub mod dldecoder;
pub mod laws;
pub mod model;
pub mod stream;

pub use decompnode::DecompNode;
pub use dldecoder::DLDecoder;
pub use model::DLDecoderResult;
pub use model::DLError;
pub use stream::ByteStream;
