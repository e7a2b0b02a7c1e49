//! A convergent replicated data type (CRDT) library.
//!
//! A CRDT can be updated independently at many replicas and later reconciled
//! into one deterministic state without any coordination between the sites.
//! The library provides the replication contract itself — a full-state
//! `merge` and a single-operation `apply`, together with the algebraic laws
//! that make convergence independent of delivery order and duplication — and
//! its simplest concrete instance, the grow-only set [`set::GSet`].

use vstd::prelude::*;

pub mod element;
pub mod set;

verus! {

/// The contract every convergent replicated data type satisfies.
///
/// A replica is described abstractly by its view `Self::V`; an operation by
/// the view of `Self::Operation`. The two reconciliation paths are pinned
/// down by two abstract state transformers: `join`, the effect of folding a
/// whole remote state in, and `step`, the effect of one operation. The proof
/// obligations below are the join-semilattice laws: they guarantee that any
/// two replicas which have observed the same set of updates — in any order,
/// with any duplication — converge to an identical state.
pub trait Crdt: View + Sized {
    /// The record transmitted for operation-based replication.
    type Operation: View;

    /// The abstract effect of merging the state `b` into the state `a`.
    spec fn join(a: Self::V, b: Self::V) -> Self::V;

    /// The abstract effect of applying one operation `op` to the state `s`.
    spec fn step(s: Self::V, op: <Self::Operation as View>::V) -> Self::V;

    /// The state a freshly created replica starts from.
    spec fn start() -> Self::V;

    /// Merging is commutative: the two replicas may fold each other in, in
    /// either direction, and reach equal states.
    proof fn join_commutative(a: Self::V, b: Self::V)
        ensures
            Self::join(a, b) == Self::join(b, a),
    ;

    /// Merging is associative: reconciling three or more replicas converges
    /// to the same state whatever the order of the merges.
    proof fn join_associative(a: Self::V, b: Self::V, c: Self::V)
        ensures
            Self::join(Self::join(a, b), c) == Self::join(a, Self::join(b, c)),
    ;

    /// Merging is idempotent: folding the same state in twice has no effect
    /// beyond folding it in once.
    proof fn join_idempotent(a: Self::V)
        ensures
            Self::join(a, a) == a,
    ;

    /// Applying is idempotent per operation: a duplicated record is harmless.
    proof fn step_idempotent(s: Self::V, op: <Self::Operation as View>::V)
        ensures
            Self::step(Self::step(s, op), op) == Self::step(s, op),
    ;

    /// Applying is commutative: two records delivered in either order leave
    /// the replica in the same state.
    proof fn step_commutative(
        s: Self::V,
        op1: <Self::Operation as View>::V,
        op2: <Self::Operation as View>::V,
    )
        ensures
            Self::step(Self::step(s, op1), op2) == Self::step(Self::step(s, op2), op1),
    ;

    /// The two replication strategies agree: applying an operation is the
    /// same as merging in the state that the operation alone would have
    /// produced on a fresh replica.
    proof fn step_joins(s: Self::V, op: <Self::Operation as View>::V)
        ensures
            Self::step(s, op) == Self::join(s, Self::step(Self::start(), op)),
    ;

    /// Fold a whole remote replica state into this one (state-based
    /// replication).
    fn merge(&mut self, other: Self)
        ensures
            final(self)@ == Self::join(old(self)@, other@),
    ;

    /// Incorporate one operation record (operation-based replication).
    fn apply(&mut self, op: Self::Operation)
        ensures
            final(self)@ == Self::step(old(self)@, op@),
    ;
}

} // verus!
