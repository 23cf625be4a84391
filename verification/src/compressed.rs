//! The binary form inside an LZ4 block that carries its length in front:
//! the shape in which programs embed the fifteen-minute grid.

use crate::bytes::{le_value4, read_u32_le};
use crate::codec::{
    all_fit, decoded, deltas_fit, encoded, fits_i32, ints, lemma_decode_inverts_encode, GridModel,
};
use crate::error::GridError;
use crate::grid::MemoryGrid;
use vstd::prelude::*;

verus! {

/// `lz4_flex::block::DecompressError`, of which nothing is looked at but that
/// there is one.
#[verifier::external_type_specification]
#[verifier::external_body]
pub struct ExDecompressError(lz4_flex::block::DecompressError);

/// What `lz4_flex::block::decompress_size_prepended` makes of a block:
/// the bytes that the block holds, or `None` where it reports an error.
pub uninterp spec fn lz4_block(input: Seq<u8>) -> Option<Seq<u8>>;

/// The longest block that is handed to the decompressor: 8 MiB. Within it
/// no length that the block spells can leave 32 bits.
pub const MAX_BLOCK_LEN: usize = 0x0080_0000;

/// The longest binary form that is handed to the compressor: 7 MiB, so that
/// the block stays within `MAX_BLOCK_LEN`.
pub const MAX_BINARY_LEN: usize = 0x0070_0000;

/// The length that a block claims in its first four bytes is one that a
/// vector can have on this machine.
pub open spec fn claims_possible_length(input: Seq<u8>) -> bool {
    input.len() >= 4 ==> le_value4(input, 0) <= isize::MAX
}

/// The block can be handed to the decompressor: it is no longer than
/// `MAX_BLOCK_LEN`, and the length it claims is a possible one.
pub open spec fn admissible(input: Seq<u8>) -> bool {
    input.len() <= MAX_BLOCK_LEN && claims_possible_length(input)
}

/// Calls `lz4_flex::block::decompress_size_prepended`. Trusted: on an
/// admissible block the outcome depends on the bytes of `input` alone, and
/// `lz4_block` is the name of it. Longer blocks are kept away, since on them
/// the decompressor adds up lengths beyond 32 bits, and so are blocks that
/// claim a length beyond what a vector can have, since the buffer for it
/// could not be made.
#[verifier::external_body]
fn decompress_size_prepended(input: &[u8]) -> (r: Result<
    Vec<u8>,
    lz4_flex::block::DecompressError,
>)
    requires
        admissible(input@),
    ensures
        match r {
            Ok(v) => lz4_block(input@) == Some(v@),
            Err(_) => lz4_block(input@) is None,
        },
{
    lz4_flex::block::decompress_size_prepended(input)
}

/// Calls `lz4_flex::block::compress_prepend_size`. Trusted, as the crate
/// documents it: the block starts with the length of `input` as four
/// little-endian bytes, it is no longer than the buffer that the crate
/// makes for it (`get_maximum_output_size` and the four bytes in front), and
/// `decompress_size_prepended` gives `input` back. Which bytes follow the
/// length is left open. The input is bounded so that the size of that buffer
/// can be computed in 32 bits.
#[verifier::external_body]
fn compress_prepend_size(input: &[u8]) -> (out: Vec<u8>)
    requires
        input.len() <= 0x0200_0000,
    ensures
        4 <= out.len() <= 24 + input.len() * 110 / 100,
        le_value4(out@, 0) == input.len(),
        lz4_block(out@) == Some(input@),
{
    lz4_flex::block::compress_prepend_size(input)
}

/// What loading the compressed block `blob` gives. A block that is not
/// admissible counts as damaged.
pub open spec fn loaded(blob: Seq<u8>) -> Result<GridModel, GridError> {
    if !admissible(blob) {
        Err(GridError::Decompress)
    } else {
        match lz4_block(blob) {
            Some(bytes) => decoded(bytes),
            None => Err(GridError::Decompress),
        }
    }
}

/// Tells whether the block can be handed to the decompressor.
pub fn is_admissible(blob: &[u8]) -> (ok: bool)
    ensures
        ok == admissible(blob@),
{
    if blob.len() > MAX_BLOCK_LEN {
        return false;
    }
    if blob.len() < 4 {
        return true;
    }
    let claimed: u32 = read_u32_le(blob, 0);
    (claimed as u64) <= (isize::MAX as u64)
}

/// Loads the embedded grid: `blob` is the LZ4 block, with its length in
/// front, that holds the binary form. A block longer than `MAX_BLOCK_LEN` is
/// turned away as damaged.
pub fn load_embedded_egm96_grid15(blob: &[u8]) -> (r: Result<MemoryGrid, GridError>)
    ensures
        match r {
            Ok(g) => g.wf() && loaded(blob@) == Ok::<GridModel, GridError>(g.model()),
            Err(e) => loaded(blob@) == Err::<GridModel, GridError>(e),
        },
{
    if !is_admissible(blob) {
        return Err(GridError::Decompress);
    }
    match decompress_size_prepended(blob) {
        Ok(bytes) => MemoryGrid::from_binary_reader(bytes.as_slice()),
        Err(_) => Err(GridError::Decompress),
    }
}

impl MemoryGrid {
    /// Length of the binary form in bytes.
    pub open spec fn binary_len(&self) -> int {
        16 + 4 * self.grid_info.point_count()
    }

    /// Dumps the geoid model as an LZ4 block with its length in front. The
    /// block is one that can be loaded, and loading it gives the grid back.
    pub fn to_compressed(&self) -> (blob: Vec<u8>)
        requires
            self.wf(),
            deltas_fit(ints(self.samples()), self.grid_info.x_num as int),
            self.binary_len() <= MAX_BINARY_LEN,
        ensures
            4 <= blob.len() <= MAX_BLOCK_LEN,
            le_value4(blob@, 0) == self.binary_len(),
            loaded(blob@) == Ok::<GridModel, GridError>(self.model()),
    {
        let mut bytes: Vec<u8> = Vec::new();
        self.to_binary_writer(&mut bytes);
        proof {
            let p = ints(self.samples());
            assert(encoded(self.grid_info, p).len() == self.binary_len());
            assert(all_fit(p)) by {
                assert forall|i: int| 0 <= i < p.len() implies fits_i32(
                    #[trigger] p[i],
                ) by {
                    assert(p[i] == self.samples()[i]);
                }
            }
            lemma_decode_inverts_encode(self.grid_info, p);
            assert(bytes@ =~= encoded(self.grid_info, p));
        }
        compress_prepend_size(bytes.as_slice())
    }
}

} // verus!
