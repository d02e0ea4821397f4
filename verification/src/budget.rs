//! The ceiling on what one call may allocate.
use vstd::prelude::*;

use crate::error::{Error, ErrorView};

verus! {

/// A ceiling on what one call may allocate, in decompressed bytes.
///
/// A point count is a number in an untrusted file. One gibibyte is comfortably
/// above what a file decoded in one piece needs, and far below the point where a
/// request stops being real.
pub const MAX_DECODED_BYTES: u64 = 0x4000_0000;

/// `point_count * point_size`, or the largest `u64` when that does not hold it.
pub open spec fn saturated_bytes(point_count: nat, point_size: nat) -> nat {
    if point_count * point_size > u64::MAX {
        u64::MAX as nat
    } else {
        point_count * point_size
    }
}

/// The bytes that the points take, or the refusal to decode so many.
pub open spec fn budgeted(point_count: nat, point_size: nat) -> Result<nat, ErrorView> {
    if point_count * point_size <= MAX_DECODED_BYTES {
        Ok(point_count * point_size)
    } else {
        Err(
            ErrorView::OverBudget {
                point_count,
                point_size,
                bytes: saturated_bytes(point_count, point_size),
            },
        )
    }
}

/// A request is granted exactly when its points take no more than a gibibyte, and then
/// to the byte. A refusal repeats the request, with the bytes that it asks for, as far
/// as 64 bits count.
pub proof fn lemma_budget(point_count: nat, point_size: nat)
    ensures
        budgeted(point_count, point_size) is Ok <==> point_count * point_size <= 1_073_741_824,
        budgeted(point_count, point_size) matches Ok(bytes) ==> bytes == point_count * point_size,
        budgeted(point_count, point_size) matches Err(e) ==> (e matches ErrorView::OverBudget {
            point_count: count,
            point_size: size,
            bytes,
        } && count == point_count && size == point_size && bytes <= point_count * point_size && bytes
            <= u64::MAX && (bytes == point_count * point_size || bytes == u64::MAX)),
{
}

/// The bytes that `point_count` records of `point_size` bytes take, if that is
/// within [`MAX_DECODED_BYTES`].
pub fn check_budget(point_count: u64, point_size: u64) -> (r: Result<usize, Error>)
    ensures
        match r {
            Ok(bytes) => budgeted(point_count as nat, point_size as nat) == Ok::<nat, ErrorView>(
                bytes as nat,
            ),
            Err(e) => budgeted(point_count as nat, point_size as nat) == Err::<nat, ErrorView>(e@),
        },
        r is Ok <==> point_count * point_size <= 1_073_741_824,
        r matches Ok(bytes) ==> bytes == point_count * point_size,
        r matches Err(e) ==> (e matches Error::OverBudget { point_count: count, point_size: size, bytes }
            && count == point_count && size == point_size && bytes == (if point_count * point_size
            <= u64::MAX {
            point_count * point_size
        } else {
            u64::MAX as int
        })),
{
    let bytes: u64 = match point_count.checked_mul(point_size) {
        Some(product) => product,
        None => u64::MAX,
    };
    if bytes > MAX_DECODED_BYTES {
        return Err(Error::OverBudget { point_count, point_size, bytes });
    }
    Ok(bytes as usize)
}

} // verus!
