//! The whole-buffer netpbm codec: shared bitmap pixel loaders and the
//! decoder that dispatches a full file buffer by its magic number.

pub mod decoder;
pub mod encoder;
pub mod pbm;
