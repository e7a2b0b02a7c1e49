//! A grow-only set: a replicated set whose only mutation is insertion.
//!
//! Any two replicas that have observed the same insertions — in any order,
//! with any duplication — hold equal element sets. A replica's view is the
//! mathematical set of its elements; `merge` computes set union in place and
//! `apply` inserts the one element an operation record carries.

use core::cmp::Ordering;
use vstd::prelude::*;
use vstd::std_specs::cmp::PartialEqSpec;
use vstd::std_specs::cmp::PartialOrdSpec;

use crate::Crdt;
use crate::element::Element;

verus! {

broadcast use vstd::set::group_set_axioms;

/// A grow-only set.
///
/// The elements are kept, each exactly once, in an unordered container; the
/// view of the set is the mathematical `Set` of those elements.
#[derive(Debug)]
pub struct GSet<T: Element> {
    elements: Vec<T>,
}

/// An insert operation over [`GSet`] replicas.
///
/// The record carries exactly the element that was inserted when it was
/// generated; its view is that element. It is safe to duplicate, delay and
/// replay: applying it is idempotent.
#[derive(Debug)]
pub struct GSetOp<T: Element> {
    element: T,
}

impl<T: Element> View for GSet<T> {
    type V = Set<T>;

    closed spec fn view(&self) -> Set<T> {
        self.elements@.to_set()
    }
}

impl<T: Element> View for GSetOp<T> {
    type V = T;

    closed spec fn view(&self) -> T {
        self.element
    }
}

/// Converting a sequence extended by one element to a set inserts that
/// element into the set of the original sequence.
proof fn lemma_to_set_push<T>(s: Seq<T>, e: T)
    ensures
        s.push(e).to_set() == s.to_set().insert(e),
{
    assert forall|x: T| #[trigger] s.push(e).to_set().contains(x) implies s.to_set().insert(
        e,
    ).contains(x) by {
        let i = choose|i: int| 0 <= i < s.push(e).len() && s.push(e)[i] == x;
        if i < s.len() {
            assert(s[i] == x);
        }
    };
    assert forall|x: T| s.to_set().insert(e).contains(x) implies #[trigger] s.push(
        e,
    ).to_set().contains(x) by {
        if s.to_set().contains(x) {
            let i = choose|i: int| 0 <= i < s.len() && s[i] == x;
            assert(s.push(e)[i] == x);
        } else {
            assert(s.push(e)[s.len() as int] == e);
        }
    };
    assert(s.push(e).to_set() =~= s.to_set().insert(e));
}

/// Lengthening a prefix by one element inserts that element into the prefix's
/// set.
proof fn lemma_take_to_set_step<T>(s: Seq<T>, i: int)
    requires
        0 <= i < s.len(),
    ensures
        s.take(i + 1).to_set() == s.take(i).to_set().insert(s[i]),
{
    assert(s.take(i + 1) =~= s.take(i).push(s[i]));
    lemma_to_set_push(s.take(i), s[i]);
}

impl<T: Element> GSet<T> {
    /// Each element is held exactly once.
    #[verifier::type_invariant]
    spec fn well_formed(self) -> bool {
        self.elements@.no_duplicates()
    }

    /// Create a new, empty grow-only set.
    pub fn new() -> (s: GSet<T>)
        ensures
            s@ == Set::<T>::empty(),
    {
        let s = GSet { elements: Vec::new() };
        proof {
            assert(s@ =~= Set::<T>::empty());
        }
        s
    }

    /// Returns true if the set contains the value.
    pub fn contains(&self, value: &T) -> (r: bool)
        ensures
            r == self@.contains(*value),
    {
        let n = self.elements.len();
        let mut i: usize = 0;
        while i < n
            invariant
                n == self.elements@.len(),
                i <= n,
                forall|k: int| 0 <= k < i ==> self.elements@[k] != *value,
            decreases n - i,
        {
            if self.elements[i].same_as(value) {
                assert(self.elements@.contains(*value));
                return true;
            }
            i += 1;
        }
        assert(!self.elements@.contains(*value));
        false
    }

    /// Insert an element into a grow-only set.
    ///
    /// If the element was not already present, returns an operation record
    /// carrying it, to be broadcast to the other replicas; if it was already
    /// present, returns nothing — re-broadcasting would be redundant, though
    /// always safe.
    pub fn insert(&mut self, element: T) -> (op: Option<GSetOp<T>>)
        ensures
            final(self)@ == old(self)@.insert(element),
            old(self)@.contains(element) ==> op is None,
            !old(self)@.contains(element) ==> (op matches Some(o) && o@ == element),
    {
        proof {
            use_type_invariant(&*self);
        }
        if self.contains(&element) {
            proof {
                assert(old(self)@.insert(element) =~= old(self)@);
            }
            None
        } else {
            let ghost prior = self.elements@;
            let mut held: Vec<T> = Vec::new();
            core::mem::swap(&mut held, &mut self.elements);
            held.push(element.duplicate());
            self.elements = held;
            proof {
                lemma_to_set_push(prior, element);
            }
            Some(GSetOp { element })
        }
    }

    /// Returns the number of elements in the set.
    pub fn len(&self) -> (n: usize)
        ensures
            n == self@.len(),
    {
        proof {
            use_type_invariant(&*self);
            self.elements@.unique_seq_to_set();
        }
        self.elements.len()
    }

    /// Returns true if the set contains no elements.
    pub fn is_empty(&self) -> (r: bool)
        ensures
            r == (self@ == Set::<T>::empty()),
    {
        let r = self.elements.len() == 0;
        proof {
            if r {
                assert(self@ =~= Set::<T>::empty());
            } else {
                assert(self@.contains(self.elements@[0]));
            }
        }
        r
    }

    /// Returns true if every element of this set is an element of `other`.
    pub fn is_subset(&self, other: &GSet<T>) -> (r: bool)
        ensures
            r == self@.subset_of(other@),
    {
        let n = self.elements.len();
        let mut i: usize = 0;
        while i < n
            invariant
                n == self.elements@.len(),
                i <= n,
                forall|k: int| 0 <= k < i ==> other@.contains(#[trigger] self.elements@[k]),
            decreases n - i,
        {
            if !other.contains(&self.elements[i]) {
                assert(self@.contains(self.elements@[i as int]));
                return false;
            }
            i += 1;
        }
        proof {
            assert forall|x: T| self@.contains(x) implies other@.contains(x) by {
                let k = choose|k: int| 0 <= k < self.elements@.len() && self.elements@[k] == x;
                assert(other@.contains(self.elements@[k]));
            };
        }
        true
    }

    /// Returns true if this set and `other` have no element in common.
    pub fn is_disjoint(&self, other: &GSet<T>) -> (r: bool)
        ensures
            r == self@.disjoint(other@),
    {
        let n = self.elements.len();
        let mut i: usize = 0;
        while i < n
            invariant
                n == self.elements@.len(),
                i <= n,
                forall|k: int| 0 <= k < i ==> !other@.contains(#[trigger] self.elements@[k]),
            decreases n - i,
        {
            if other.contains(&self.elements[i]) {
                assert(self@.contains(self.elements@[i as int]));
                return false;
            }
            i += 1;
        }
        proof {
            assert forall|x: T| self@.contains(x) implies !other@.contains(x) by {
                let k = choose|k: int| 0 <= k < self.elements@.len() && self.elements@[k] == x;
                assert(!other@.contains(self.elements@[k]));
            };
        }
        true
    }
}

impl<T: Element> Crdt for GSet<T> {
    type Operation = GSetOp<T>;

    /// Merging is set union.
    open spec fn join(a: Set<T>, b: Set<T>) -> Set<T> {
        a.union(b)
    }

    /// Applying an operation inserts the element it carries.
    open spec fn step(s: Set<T>, op: T) -> Set<T> {
        s.insert(op)
    }

    /// A fresh replica is empty.
    open spec fn start() -> Set<T> {
        Set::<T>::empty()
    }

    proof fn join_commutative(a: Set<T>, b: Set<T>) {
        assert(a.union(b) =~= b.union(a));
    }

    proof fn join_associative(a: Set<T>, b: Set<T>, c: Set<T>) {
        assert(a.union(b).union(c) =~= a.union(b.union(c)));
    }

    proof fn join_idempotent(a: Set<T>) {
        assert(a.union(a) =~= a);
    }

    proof fn step_idempotent(s: Set<T>, op: T) {
        assert(s.insert(op).insert(op) =~= s.insert(op));
    }

    proof fn step_commutative(s: Set<T>, op1: T, op2: T) {
        assert(s.insert(op1).insert(op2) =~= s.insert(op2).insert(op1));
    }

    proof fn step_joins(s: Set<T>, op: T) {
        assert(s.insert(op) =~= s.union(Set::<T>::empty().insert(op)));
    }

    /// Merge a replica into the set.
    ///
    /// This method is used to perform state-based replication: the result
    /// holds every element of either replica, the least upper bound of the
    /// two under the subset order.
    fn merge(&mut self, other: GSet<T>) {
        let n = other.elements.len();
        proof {
            assert(old(self)@.union(other.elements@.take(0).to_set()) =~= old(self)@);
        }
        let mut i: usize = 0;
        while i < n
            invariant
                n == other.elements@.len(),
                i <= n,
                self@ == old(self)@.union(other.elements@.take(i as int).to_set()),
            decreases n - i,
        {
            let e = other.elements[i].duplicate();
            self.insert(e);
            proof {
                lemma_take_to_set_step(other.elements@, i as int);
                assert(old(self)@.union(other.elements@.take(i + 1).to_set()) =~= old(
                    self,
                )@.union(other.elements@.take(i as int).to_set()).insert(
                    other.elements@[i as int],
                ));
            }
            i += 1;
        }
        proof {
            assert(other.elements@.take(n as int) =~= other.elements@);
        }
    }

    /// Apply an insert operation to the set.
    ///
    /// This method is used to perform operation-based replication. Applying
    /// an operation to a `GSet` is idempotent, so duplicated delivery is
    /// harmless.
    fn apply(&mut self, op: GSetOp<T>) {
        self.insert(op.element);
    }
}

impl<T: Element> PartialEq for GSet<T> {
    /// Two grow-only sets are equal exactly when they hold the same
    /// elements, independent of insertion order or history.
    fn eq(&self, other: &GSet<T>) -> (r: bool) {
        let r = self.is_subset(other) && other.is_subset(self);
        proof {
            if r {
                assert(self@ =~= other@);
            }
        }
        r
    }
}

impl<T: Element> vstd::std_specs::cmp::PartialEqSpecImpl for GSet<T> {
    open spec fn obeys_eq_spec() -> bool {
        true
    }

    open spec fn eq_spec(&self, other: &GSet<T>) -> bool {
        self@ == other@
    }
}

impl<T: Element> Eq for GSet<T> {

}

impl<T: Element> PartialOrd for GSet<T> {
    /// The lattice order of the replicas: a replica precedes exactly those
    /// replicas that hold every one of its elements. Two sets neither of
    /// which contains the other are incomparable, and the comparison
    /// reports no order at all rather than an arbitrary tie-break.
    fn partial_cmp(&self, other: &GSet<T>) -> (r: Option<Ordering>) {
        let below = self.is_subset(other);
        let above = other.is_subset(self);
        if below && above {
            proof {
                assert(self@ =~= other@);
            }
            Some(Ordering::Equal)
        } else if below {
            Some(Ordering::Less)
        } else if above {
            Some(Ordering::Greater)
        } else {
            None
        }
    }
}

impl<T: Element> vstd::std_specs::cmp::PartialOrdSpecImpl for GSet<T> {
    open spec fn obeys_partial_cmp_spec() -> bool {
        true
    }

    open spec fn partial_cmp_spec(&self, other: &GSet<T>) -> Option<Ordering> {
        if self@ == other@ {
            Some(Ordering::Equal)
        } else if self@.subset_of(other@) {
            Some(Ordering::Less)
        } else if other@.subset_of(self@) {
            Some(Ordering::Greater)
        } else {
            None
        }
    }
}

impl<T: Element> Clone for GSet<T> {
    /// An equal, independently owned replica.
    fn clone(&self) -> (r: Self)
        ensures
            r@ == self@,
    {
        proof {
            use_type_invariant(&*self);
        }
        let n = self.elements.len();
        let mut copied: Vec<T> = Vec::new();
        let mut i: usize = 0;
        while i < n
            invariant
                n == self.elements@.len(),
                i <= n,
                copied@ == self.elements@.take(i as int),
            decreases n - i,
        {
            copied.push(self.elements[i].duplicate());
            proof {
                assert(copied@ =~= self.elements@.take(i + 1));
            }
            i += 1;
        }
        proof {
            assert(copied@ =~= self.elements@);
        }
        GSet { elements: copied }
    }
}

impl<T: Element> Default for GSet<T> {
    /// The empty set.
    fn default() -> (s: Self)
        ensures
            s@ == Set::<T>::empty(),
    {
        GSet::new()
    }
}

impl<T: Element> Clone for GSetOp<T> {
    /// An equal record, safe to broadcast more than once.
    fn clone(&self) -> (r: Self)
        ensures
            r == *self,
    {
        GSetOp { element: self.element.duplicate() }
    }
}

impl<T: Element> PartialEq for GSetOp<T> {
    /// Two operations are equal exactly when they carry equal elements.
    fn eq(&self, other: &GSetOp<T>) -> (r: bool) {
        self.element.same_as(&other.element)
    }
}

impl<T: Element> vstd::std_specs::cmp::PartialEqSpecImpl for GSetOp<T> {
    open spec fn obeys_eq_spec() -> bool {
        true
    }

    open spec fn eq_spec(&self, other: &GSetOp<T>) -> bool {
        self@ == other@
    }
}

impl<T: Element> Eq for GSetOp<T> {

}

/// The comparison of two grow-only sets is exactly the subset relation.
///
/// `a` compares less than or equal to `b` precisely when `a` is a subset of
/// `b`; the comparison reports `Equal` precisely when the element sets are
/// equal, which is also what `==` decides; and when neither set contains the
/// other, the comparison reports no order at all.
pub proof fn lemma_partial_order_consistency<T: Element>(a: GSet<T>, b: GSet<T>)
    ensures
        a.eq_spec(&b) <==> a@ == b@,
        (a.partial_cmp_spec(&b) matches Some(o) && (o == Ordering::Less || o == Ordering::Equal))
            <==> a@.subset_of(b@),
        (a.partial_cmp_spec(&b) matches Some(o) && (o == Ordering::Greater || o == Ordering::Equal))
            <==> b@.subset_of(a@),
        a.partial_cmp_spec(&b) == Some(Ordering::Equal) <==> a@ == b@,
        a.partial_cmp_spec(&b) is None <==> (!a@.subset_of(b@) && !b@.subset_of(a@)),
{
    if a@.subset_of(b@) && b@.subset_of(a@) {
        assert(a@ =~= b@);
    }
}

/// Merging computes the least upper bound of the two replicas under the
/// subset order: the merged state is above both, and below every state that
/// is above both.
pub proof fn lemma_merge_is_least_upper_bound<T: Element>(a: Set<T>, b: Set<T>, c: Set<T>)
    ensures
        a.subset_of(<GSet<T> as Crdt>::join(a, b)),
        b.subset_of(<GSet<T> as Crdt>::join(a, b)),
        a.subset_of(c) && b.subset_of(c) ==> <GSet<T> as Crdt>::join(a, b).subset_of(c),
{
}

/// The set a replica's view reaches after inserting, in order, every element
/// of the sequence `q`, starting from the view `s`.
pub open spec fn after_inserting<T>(s: Set<T>, q: Seq<T>) -> Set<T>
    decreases q.len(),
{
    if q.len() == 0 {
        s
    } else {
        after_inserting(s, q.drop_last()).insert(q.last())
    }
}

/// Operation delivery and snapshot exchange are equivalent replication
/// strategies: delivering the elements of `q` one by one to a replica in
/// state `s` leaves it exactly as merging a snapshot that holds the set of
/// those elements would.
pub proof fn lemma_applying_all_joins<T>(s: Set<T>, q: Seq<T>)
    ensures
        after_inserting(s, q) == s.union(q.to_set()),
    decreases q.len(),
{
    if q.len() == 0 {
        assert(after_inserting(s, q) =~= s.union(q.to_set()));
    } else {
        lemma_applying_all_joins(s, q.drop_last());
        assert(q =~= q.drop_last().push(q.last()));
        lemma_to_set_push(q.drop_last(), q.last());
        assert(after_inserting(s, q) =~= s.union(q.to_set()));
    }
}

/// Local insert monotonicity: after inserting each element of an arbitrary
/// sequence into an initially empty replica, every inserted element is
/// contained in the final set, and the size of the final set is the number
/// of distinct elements inserted.
pub proof fn lemma_local_insert_monotonicity<T>(q: Seq<T>)
    ensures
        after_inserting(Set::<T>::empty(), q) == q.to_set(),
        forall|i: int| 0 <= i < q.len() ==> after_inserting(Set::<T>::empty(), q).contains(q[i]),
        after_inserting(Set::<T>::empty(), q).len() == q.to_set().len(),
{
    lemma_applying_all_joins(Set::<T>::empty(), q);
    assert(after_inserting(Set::<T>::empty(), q) =~= q.to_set());
    assert forall|i: int| 0 <= i < q.len() implies after_inserting(Set::<T>::empty(), q).contains(
        q[i],
    ) by {
        assert(q.contains(q[i]));
    };
}

} // verus!
