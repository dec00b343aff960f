//! The value model: primitive scalars, sets of primitives, and the tagged
//! `Data` union stored under each key.

use vstd::prelude::*;

verus! {

/// An opaque scalar that can live inside a set value: equatable and
/// hashable, with no further structure assumed by the set engine.
#[derive(PartialEq, Eq, Structural, Clone, Copy, Debug, Hash)]
pub enum Primitive {
    Int(i64),
    Flag(bool),
}

/// A finite set of primitives, represented as a vector without duplicates.
/// Its abstract view is the mathematical set of its elements.
pub struct PrimitiveSet {
    elems: Vec<Primitive>,
}

impl View for PrimitiveSet {
    type V = Set<Primitive>;

    closed spec fn view(&self) -> Set<Primitive> {
        self.elems@.to_set()
    }
}

impl PrimitiveSet {
    /// Representation invariant: no element occurs twice.
    pub closed spec fn wf(&self) -> bool {
        self.elems@.no_duplicates()
    }

    /// The empty set.
    pub fn new() -> (s: PrimitiveSet)
        ensures
            s.wf(),
            s@ == Set::<Primitive>::empty(),
    {
        let s = PrimitiveSet { elems: Vec::new() };
        proof {
            assert(s@ =~= Set::<Primitive>::empty());
        }
        s
    }

    /// Membership test by linear scan.
    pub fn contains(&self, p: Primitive) -> (b: bool)
        ensures
            b == self@.contains(p),
    {
        let mut i: usize = 0;
        while i < self.elems.len()
            invariant
                i <= self.elems@.len(),
                forall|j: int| 0 <= j < i ==> self.elems@[j] != p,
            decreases self.elems@.len() - i,
        {
            if self.elems[i] == p {
                assert(self.elems@.contains(p));
                return true;
            }
            i += 1;
        }
        assert(!self.elems@.contains(p));
        false
    }

    /// Adds an element; a no-op when it is already present.
    pub fn insert(&mut self, p: Primitive)
        requires
            old(self).wf(),
        ensures
            final(self).wf(),
            final(self)@ == old(self)@.insert(p),
    {
        if !self.contains(p) {
            self.elems.push(p);
        }
        proof {
            broadcast use vstd::seq_lib::group_seq_properties;

            assert(self@ =~= old(self)@.insert(p));
        }
    }

    /// An owned copy holding the same elements.
    pub fn duplicate(&self) -> (r: PrimitiveSet)
        ensures
            r@ == self@,
            self.wf() ==> r.wf(),
    {
        let mut v: Vec<Primitive> = Vec::new();
        let mut i: usize = 0;
        while i < self.elems.len()
            invariant
                i <= self.elems@.len(),
                v@ == self.elems@.take(i as int),
            decreases self.elems@.len() - i,
        {
            v.push(self.elems[i]);
            proof {
                assert(v@ =~= self.elems@.take(i + 1));
            }
            i += 1;
        }
        proof {
            assert(v@ =~= self.elems@);
        }
        PrimitiveSet { elems: v }
    }

    /// The elements as a duplicate-free vector.
    pub fn elements(&self) -> (v: &Vec<Primitive>)
        requires
            self.wf(),
        ensures
            v@.no_duplicates(),
            v@.to_set() == self@,
    {
        &self.elems
    }

    /// Wraps a duplicate-free vector of elements as a set.
    pub fn from_elements(v: Vec<Primitive>) -> (s: PrimitiveSet)
        requires
            v@.no_duplicates(),
        ensures
            s.wf(),
            s@ == v@.to_set(),
    {
        PrimitiveSet { elems: v }
    }

    /// Cardinality.
    pub fn len(&self) -> (n: usize)
        requires
            self.wf(),
        ensures
            n == self@.len(),
    {
        proof {
            self.elems@.unique_seq_to_set();
        }
        self.elems.len()
    }
}

/// A stored value: the tagged union kept under each store key. The set
/// engine only distinguishes set values from everything else.
pub enum Data {
    SetValue(PrimitiveSet),
    Scalar(Primitive),
}

/// The abstract form of a stored value.
pub enum DataModel {
    SetValue(Set<Primitive>),
    Scalar(Primitive),
}

impl View for Data {
    type V = DataModel;

    open spec fn view(&self) -> DataModel {
        match self {
            Data::SetValue(s) => DataModel::SetValue(s@),
            Data::Scalar(p) => DataModel::Scalar(*p),
        }
    }
}

/// Representation invariant of a stored value: a set value carries a
/// well-formed set.
pub open spec fn data_wf(d: Data) -> bool {
    match d {
        Data::SetValue(s) => s.wf(),
        Data::Scalar(_) => true,
    }
}

} // verus!
