//! The order of inputs: that of their encodings, compared byte by byte.

use core::cmp::Ordering;
use vstd::prelude::*;
use vstd::std_specs::cmp::PartialOrdSpecImpl;
use crate::encoding::input_encoding;
use crate::transaction::TransactionInput;

verus! {

/// Where `left` stands against `right` when their bytes are compared from the
/// first on and an end comes before any byte: negative before, zero at the
/// same place, positive after.
pub open spec fn byte_order(left: Seq<u8>, right: Seq<u8>) -> int
    decreases left.len(),
{
    if left.len() == 0 {
        if right.len() == 0 {
            0
        } else {
            -1
        }
    } else if right.len() == 0 {
        1
    } else if left[0] != right[0] {
        if left[0] < right[0] {
            -1
        } else {
            1
        }
    } else {
        byte_order(left.drop_first(), right.drop_first())
    }
}

/// Bytes that agree do not decide the order.
pub proof fn lemma_byte_order_skip(left: Seq<u8>, right: Seq<u8>, count: int)
    requires
        0 <= count <= left.len(),
        count <= right.len(),
        forall|k: int| 0 <= k < count ==> left[k] == right[k],
    ensures
        byte_order(left, right) == byte_order(left.skip(count), right.skip(count)),
    decreases count,
{
    if count == 0 {
        assert(left.skip(0) =~= left);
        assert(right.skip(0) =~= right);
    } else {
        assert(left[0] == right[0]);
        lemma_byte_order_skip(left.drop_first(), right.drop_first(), count - 1);
        assert(left.drop_first().skip(count - 1) =~= left.skip(count));
        assert(right.drop_first().skip(count - 1) =~= right.skip(count));
    }
}

/// Of two sequences that start with parts of one length, the first parts
/// decide the order unless they are equal, and then the rest decides.
pub proof fn lemma_byte_order_parts(
    left_head: Seq<u8>,
    left_tail: Seq<u8>,
    right_head: Seq<u8>,
    right_tail: Seq<u8>,
)
    requires
        left_head.len() == right_head.len(),
    ensures
        byte_order(left_head + left_tail, right_head + right_tail) == if byte_order(
            left_head,
            right_head,
        ) != 0 {
            byte_order(left_head, right_head)
        } else {
            byte_order(left_tail, right_tail)
        },
    decreases left_head.len(),
{
    if left_head.len() == 0 {
        assert(left_head + left_tail =~= left_tail);
        assert(right_head + right_tail =~= right_tail);
    } else {
        assert((left_head + left_tail)[0] == left_head[0]);
        assert((right_head + right_tail)[0] == right_head[0]);
        assert((left_head + left_tail).drop_first() =~= left_head.drop_first() + left_tail);
        assert((right_head + right_tail).drop_first() =~= right_head.drop_first() + right_tail);
        lemma_byte_order_parts(
            left_head.drop_first(),
            left_tail,
            right_head.drop_first(),
            right_tail,
        );
    }
}

/// Compares two byte strings from the first byte on: -1 where `left` comes
/// first, 0 where they are equal, 1 where `right` comes first.
pub fn compare_bytes(left: &[u8], right: &[u8]) -> (order: i8)
    ensures
        order == byte_order(left@, right@),
{
    let mut i: usize = 0;
    while i < left.len() && i < right.len()
        invariant
            i <= left@.len(),
            i <= right@.len(),
            forall|k: int| 0 <= k < i ==> left@[k] == right@[k],
        decreases left@.len() - i,
    {
        if left[i] != right[i] {
            proof {
                lemma_byte_order_skip(left@, right@, i as int);
                assert(left@.skip(i as int)[0] == left@[i as int]);
                assert(right@.skip(i as int)[0] == right@[i as int]);
            }
            if left[i] < right[i] {
                return -1;
            } else {
                return 1;
            }
        }
        i += 1;
    }
    proof {
        lemma_byte_order_skip(left@, right@, i as int);
    }
    if left.len() < right.len() {
        -1
    } else if left.len() > right.len() {
        1
    } else {
        0
    }
}

/// Compares two inputs as their encodings compare: by the outpoint, then by
/// the signature.
pub fn compare_inputs(left: &TransactionInput, right: &TransactionInput) -> (order: i8)
    ensures
        order == byte_order(input_encoding(*left), input_encoding(*right)),
{
    proof {
        lemma_byte_order_parts(left.outpoint@, left.sigscript@, right.outpoint@, right.sigscript@);
    }
    let first: i8 = compare_bytes(left.outpoint.as_slice(), right.outpoint.as_slice());
    if first != 0 {
        first
    } else {
        compare_bytes(left.sigscript.as_slice(), right.sigscript.as_slice())
    }
}

impl PartialOrd for TransactionInput {
    fn partial_cmp(&self, other: &TransactionInput) -> (order: Option<Ordering>) {
        let rank: i8 = compare_inputs(self, other);
        if rank < 0 {
            Some(Ordering::Less)
        } else if rank == 0 {
            Some(Ordering::Equal)
        } else {
            Some(Ordering::Greater)
        }
    }
}

impl PartialOrdSpecImpl for TransactionInput {
    open spec fn obeys_partial_cmp_spec() -> bool {
        true
    }

    open spec fn partial_cmp_spec(&self, other: &TransactionInput) -> Option<Ordering> {
        let rank = byte_order(input_encoding(*self), input_encoding(*other));
        if rank < 0 {
            Some(Ordering::Less)
        } else if rank == 0 {
            Some(Ordering::Equal)
        } else {
            Some(Ordering::Greater)
        }
    }
}

} // verus!
