//! Split a file's bytes into two XOR-complementary parts, verify a split,
//! recombine a pair, and plan a secure overwrite-and-remove of the source.
//!
//! One part (`.xor1`) is uniformly random; the other (`.xor2`) is the
//! byte-wise XOR of the original with the random part. Neither part alone
//! carries any information about the original; XOR-ing them restores it.
//! Paths are handled as plain byte strings; reading and writing the actual
//! files is left to the caller.

use vstd::prelude::*;

mod chunks;
mod codec;
mod entropy;
mod erase;
mod mixer;
mod paths;

pub use chunks::CHUNK_SIZE;
pub use codec::{
    combine_files, split_file, uses_full_verification, verify_files, verify_full, verify_sampled,
    VERIFY_FULL_THRESHOLD,
};
pub use erase::{erase_schedule, EraseStep};
pub use mixer::xor_buffers;
pub use paths::{
    append_extension, check_pair_exists, resolve_output_path, resolve_xor_pair,
    strip_xor_extension,
};

verus! {

/// Why an operation could not proceed.
#[derive(Debug, Clone, Copy, PartialEq, Eq, Structural)]
pub enum SplinchError {
    /// The path does not end in `.xor1` or `.xor2`.
    InvalidExtension,
    /// The sibling of a `.xor1`/`.xor2` file does not exist.
    PartnerNotFound,
    /// The two parts of a pair have different lengths.
    SizeMismatch,
}

} // verus!
