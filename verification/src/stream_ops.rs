//! The engine's observable effect on the unconsumed stream, as a small
//! algebra of operations: a fill leaves the stream unchanged and a consume
//! drops a prefix, so any sequence of calls leaves the stream a suffix of
//! the original.

use vstd::prelude::*;

verus! {

/// One call into the engine, reduced to what the unconsumed stream can
/// observe of it.
///
/// A fill to any expected size — with whatever sliding and pulling it does —
/// is observably the identity on the stream, as the contract of
/// [`crate::EnsuredBufReader::fill_buf_to_expected_size`] states; a consume
/// of `amt` bytes drops exactly the first `amt` bytes, as the contract of
/// [`crate::EnsuredBufReader::consume`] states.
pub enum EngineOp {
    /// A fill of the valid region to the given expected size.
    Peek { expected_size: usize },
    /// Consuming the given count of bytes off the front of the stream.
    Consume { amt: usize },
}

/// The unconsumed stream after one operation.
pub open spec fn apply_op(s: Seq<u8>, op: EngineOp) -> Seq<u8> {
    match op {
        EngineOp::Peek { .. } => s,
        EngineOp::Consume { amt } => s.skip(amt as int),
    }
}

/// The unconsumed stream after a sequence of operations, applied left to
/// right.
pub open spec fn stream_after_ops(s: Seq<u8>, ops: Seq<EngineOp>) -> Seq<u8>
    decreases ops.len(),
{
    if ops.len() == 0 {
        s
    } else {
        stream_after_ops(apply_op(s, ops[0]), ops.skip(1))
    }
}

/// Whether each consume in the sequence stays within the bytes then
/// unconsumed — the precondition every real consume call carries.
pub open spec fn ops_in_bounds(s: Seq<u8>, ops: Seq<EngineOp>) -> bool
    decreases ops.len(),
{
    ops.len() == 0 || {
        &&& (ops[0] matches EngineOp::Consume { amt } ==> amt <= s.len())
        &&& ops_in_bounds(apply_op(s, ops[0]), ops.skip(1))
    }
}

/// The total number of bytes the sequence consumes.
pub open spec fn consumed_total(ops: Seq<EngineOp>) -> int
    decreases ops.len(),
{
    if ops.len() == 0 {
        0
    } else {
        (match ops[0] {
            EngineOp::Peek { .. } => 0,
            EngineOp::Consume { amt } => amt as int,
        }) + consumed_total(ops.skip(1))
    }
}

/// After any sequence of fills and in-bounds consumes, the unconsumed
/// stream is exactly the original stream minus the prefix of consumed
/// bytes: fills fetch and slide, but never lose, duplicate or reorder a
/// byte, and consumes only ever drop from the front.
pub proof fn lemma_ops_leave_suffix(s: Seq<u8>, ops: Seq<EngineOp>)
    requires
        ops_in_bounds(s, ops),
    ensures
        0 <= consumed_total(ops) <= s.len(),
        stream_after_ops(s, ops) == s.skip(consumed_total(ops)),
    decreases ops.len(),
{
    if ops.len() == 0 {
        assert(s.skip(0) =~= s);
    } else {
        let s1 = apply_op(s, ops[0]);
        lemma_ops_leave_suffix(s1, ops.skip(1));
        let rest = consumed_total(ops.skip(1));
        match ops[0] {
            EngineOp::Peek { .. } => {
                assert(consumed_total(ops) == rest);
            },
            EngineOp::Consume { amt } => {
                assert(s.skip(amt as int).skip(rest) =~= s.skip(amt + rest));
            },
        }
    }
}

} // verus!
