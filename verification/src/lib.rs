//! A brute-force proof-of-work nonce search over fixed-width big-endian
//! blocks: combine a data block with a candidate nonce by modular big-endian
//! addition, hash the combination, and accept the first nonce whose digest
//! carries enough leading zero bits.

pub mod arith;
pub mod difficulty;
pub mod digest;
pub mod error;
pub mod format;
pub mod pad;
pub mod search;
pub mod value;

pub use arith::{add_blocks, add_blocks_checked, add_with_carry, xor_blocks};
pub use difficulty::count_leading_zeros_in_block;
pub use digest::{hash, Digest, DIGEST_LENGTH};
pub use error::PowError;
pub use format::{byte_to_bits, format_bit, format_byte, format_bytes};
pub use pad::{
    generate_initial_pad, generate_initial_pad_, next_pad, next_pad_, next_pad_assume_valid,
};
pub use search::{find_nonce_for_difficulty, validate_difficulty};
