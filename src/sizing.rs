//! The decision taken after each call of a platform function that fills
//! caller-provided buffers.
//!
//! Such a function is called with buffers of a first size. When it fails
//! because they are too small it writes the sizes it needs into its size
//! arguments, and the caller allocates again and repeats the call. The
//! caller performs the calls; this module decides what follows each one.

use vstd::prelude::*;

verus! {

/// How many calls are made before the caller gives up.
pub const SIZING_ATTEMPTS: u32 = 5;

/// What the caller does after a call.
#[derive(Clone, Copy, Debug, PartialEq, Eq, Structural)]
pub enum SizingStep {
    /// The call succeeded: decode the buffers.
    Decode,
    /// The platform asked for other sizes: allocate them and call again.
    Retry,
    /// The call failed without asking for other sizes: report the error.
    Fail(i32),
    /// The platform kept asking for other sizes: stop.
    GiveUp,
}

/// Whether some size differs between the two lists.
pub open spec fn sizes_changed(before: Seq<u32>, after: Seq<u32>) -> bool {
    exists|i: int| 0 <= i < before.len() && before[i] != after[i]
}

/// Decide what follows call number `attempt` (counting from zero), given
/// whether it succeeded, the error it reported, and the size arguments
/// before and after it.
pub fn next_sizing_step(
    attempt: u32,
    succeeded: bool,
    error: i32,
    before: &[u32],
    after: &[u32],
) -> (r: SizingStep)
    requires
        before@.len() == after@.len(),
    ensures
        succeeded ==> r == SizingStep::Decode,
        !succeeded && !sizes_changed(before@, after@) ==> r == SizingStep::Fail(error),
        !succeeded && sizes_changed(before@, after@) && attempt + 1 < SIZING_ATTEMPTS ==> r
            == SizingStep::Retry,
        !succeeded && sizes_changed(before@, after@) && attempt + 1 >= SIZING_ATTEMPTS ==> r
            == SizingStep::GiveUp,
{
    if succeeded {
        return SizingStep::Decode;
    }
    let mut changed = false;
    let mut i: usize = 0;
    while i < before.len()
        invariant
            before@.len() == after@.len(),
            i <= before@.len(),
            changed <==> exists|j: int| 0 <= j < i && before@[j] != after@[j],
        decreases before@.len() - i,
    {
        if before[i] != after[i] {
            changed = true;
        }
        i += 1;
    }
    if !changed {
        SizingStep::Fail(error)
    } else if attempt < SIZING_ATTEMPTS - 1 {
        SizingStep::Retry
    } else {
        SizingStep::GiveUp
    }
}

} // verus!
