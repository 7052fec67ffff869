//! Reading samples of a fixed width.

use crate::bits::{bit_range, bits_value};
use hayro_syntax::bit_reader::BitReader;
use vstd::prelude::*;

verus! {

/// The sample of a number of bits that starts at a bit.
pub open spec fn sample_at(data: Seq<u8>, position: int, width: int) -> u32 {
    bits_value(bit_range(data, position, position + width)) as u32
}

/// Read the sample of `width` bits that starts at a bit, by `hayro_syntax`'s
/// `bit_reader::BitReader::read`.
///
/// The sample is the number that its bits denote, the most significant first. There is none if
/// the data ends before it. Samples of eight bits have to start at a byte.
#[verifier::external_body]
pub(crate) fn read_sample(data: &[u8], position: usize, width: u8) -> (sample: Option<u32>)
    requires
        1 <= width <= 32,
        position + width <= usize::MAX,
        width == 8 ==> position % 8 == 0,
    ensures
        sample == if position + width <= 8 * data@.len() {
            Some(sample_at(data@, position as int, width as int))
        } else {
            None
        },
{
    BitReader::new_with(data, position).read(width)
}

} // verus!
