//! Footnote numbering: one mapping from footnote name to ordinal, shared
//! across a whole render. The first time a name is seen it receives the next
//! sequential integer starting at 1; later sightings reuse that ordinal.

use vstd::prelude::*;

verus! {

/// The ordinal a name gets from a first-seen list of names: its position
/// (1-based) if it is already listed, the next fresh ordinal otherwise.
pub open spec fn note_ordinal(names: Seq<Seq<u8>>, name: Seq<u8>) -> nat {
    if names.contains(name) {
        (names.index_of(name) + 1) as nat
    } else {
        (names.len() + 1) as nat
    }
}

/// The first-seen list after one sighting of a name: unchanged if the name is
/// already listed, extended by it otherwise.
pub open spec fn note_assign(names: Seq<Seq<u8>>, name: Seq<u8>) -> Seq<Seq<u8>> {
    if names.contains(name) {
        names
    } else {
        names.push(name)
    }
}

/// No name occurs twice in the first-seen list.
pub open spec fn names_unique(names: Seq<Seq<u8>>) -> bool {
    forall|i: int, j: int| 0 <= i < j < names.len() ==> names[i] != names[j]
}

/// The footnote name-to-ordinal mapping of one render: the names in
/// first-seen order, each name at most once. A name's ordinal is its 1-based
/// position in the list.
pub struct Notes {
    names: Vec<Vec<u8>>,
}

impl Notes {
    /// The names in first-seen order.
    pub closed spec fn view(&self) -> Seq<Seq<u8>> {
        Seq::new(self.names@.len(), |i: int| self.names@[i]@)
    }

    /// Every name is listed at most once.
    pub closed spec fn wf(&self) -> bool {
        names_unique(self@)
    }

    pub fn new() -> (r: Notes)
        ensures
            r@ == Seq::<Seq<u8>>::empty(),
            r.wf(),
    {
        let r = Notes { names: Vec::new() };
        proof {
            assert(r@ =~= Seq::<Seq<u8>>::empty());
        }
        r
    }

    /// Assign or reuse the ordinal of one name: the ordinal already held if
    /// the name was sighted before, the next sequential ordinal otherwise.
    pub fn ordinal(&mut self, name: &Vec<u8>) -> (ord: usize)
        requires
            old(self).wf(),
            old(self)@.len() < usize::MAX,
        ensures
            final(self).wf(),
            final(self)@ == note_assign(old(self)@, name@),
            ord == note_ordinal(old(self)@, name@),
    {
        let mut i: usize = 0;
        while i < self.names.len()
            invariant
                self == old(self),
                old(self).wf(),
                i <= self@.len(),
                forall|k: int| 0 <= k < i ==> self@[k] != name@,
            decreases self@.len() - i,
        {
            if crate::escape::bytes_eq(&self.names[i], name) {
                proof {
                    assert(self@[i as int] == name@);
                    assert(self@.contains(name@));
                    let j = self@.index_of(name@);
                    assert(self@[j] == name@);
                    assert(j == i as int);
                }
                return i + 1;
            }
            i += 1;
        }
        proof {
            assert(!self@.contains(name@));
        }
        let mut copy: Vec<u8> = Vec::new();
        let mut k: usize = 0;
        while k < name.len()
            invariant
                k <= name@.len(),
                copy@ == name@.take(k as int),
            decreases name@.len() - k,
        {
            copy.push(name[k]);
            k += 1;
        }
        proof {
            assert(name@.take(name@.len() as int) =~= name@);
        }
        let n = self.names.len();
        self.names.push(copy);
        proof {
            assert(final(self)@ =~= old(self)@.push(name@));
        }
        n + 1
    }
}

/// Sightings of one name always yield one ordinal: after any sighting of
/// `name`, a later sighting of `name` yields the same ordinal, whatever other
/// names were sighted in between.
pub proof fn lemma_note_ordinal_stable(names: Seq<Seq<u8>>, name: Seq<u8>, other: Seq<u8>)
    requires
        names_unique(names),
    ensures
        names_unique(note_assign(names, other)),
        note_ordinal(note_assign(names, name), name) == note_ordinal(names, name),
        names.contains(name) ==> note_ordinal(note_assign(names, other), name) == note_ordinal(
            names,
            name,
        ),
{
    lemma_note_assign_unique(names, other);
    lemma_note_assign_unique(names, name);
    let assigned = note_assign(names, name);
    assert(assigned.contains(name)) by {
        if names.contains(name) {
            let i = names.index_of(name);
            assert(assigned[i] == name);
        } else {
            assert(assigned[names.len() as int] == name);
        }
    }
    lemma_unique_index_of(assigned, name);
    if names.contains(name) {
        lemma_unique_index_of(names, name);
        let withother = note_assign(names, other);
        assert(withother.contains(name)) by {
            let i = names.index_of(name);
            assert(withother[i] == name);
        }
        lemma_unique_index_of(withother, name);
        let i = names.index_of(name);
        assert(withother[i] == name);
    } else {
        assert(assigned[names.len() as int] == name);
    }
}

/// The first-seen list after a whole series of sightings, in order. A
/// render's footnote list evolves by exactly such a series: one sighting per
/// reference or definition event, in the order they are consumed.
pub open spec fn note_assign_all(names: Seq<Seq<u8>>, sightings: Seq<Seq<u8>>) -> Seq<Seq<u8>>
    decreases sightings.len(),
{
    if sightings.len() == 0 {
        names
    } else {
        note_assign_all(note_assign(names, sightings[0]), sightings.drop_first())
    }
}

/// Once a name has been sighted, no series of later sightings changes its
/// ordinal: however the rest of the render sights this or other names, every
/// later rendering of the name shows the ordinal it was first given.
pub proof fn lemma_note_ordinal_stable_all(
    names: Seq<Seq<u8>>,
    name: Seq<u8>,
    sightings: Seq<Seq<u8>>,
)
    requires
        names_unique(names),
        names.contains(name),
    ensures
        names_unique(note_assign_all(names, sightings)),
        note_assign_all(names, sightings).contains(name),
        note_ordinal(note_assign_all(names, sightings), name) == note_ordinal(names, name),
    decreases sightings.len(),
{
    if sightings.len() > 0 {
        let next = note_assign(names, sightings[0]);
        lemma_note_ordinal_stable(names, name, sightings[0]);
        assert(next.contains(name)) by {
            let i = names.index_of(name);
            assert(names[i] == name);
            assert(next[i] == name);
        }
        lemma_note_ordinal_stable_all(next, name, sightings.drop_first());
    }
}

/// Assigning keeps the first-seen list free of duplicates.
pub proof fn lemma_note_assign_unique(names: Seq<Seq<u8>>, name: Seq<u8>)
    requires
        names_unique(names),
    ensures
        names_unique(note_assign(names, name)),
{
    if !names.contains(name) {
        let pushed = names.push(name);
        assert forall|i: int, j: int| 0 <= i < j < pushed.len() implies pushed[i] != pushed[j] by {
            if j == names.len() {
                assert(pushed[i] == names[i]);
            }
        }
    }
}

/// In a duplicate-free list, a listed name's ordinal is its 1-based position:
/// ordinals increase strictly in first-seen order.
pub proof fn lemma_note_ordinal_is_position(names: Seq<Seq<u8>>, i: int)
    requires
        names_unique(names),
        0 <= i < names.len(),
    ensures
        note_ordinal(names, names[i]) == i + 1,
{
    assert(names.contains(names[i]));
    lemma_unique_index_of(names, names[i]);
}

/// Ordinals increase strictly in first-seen order: of two names first seen at
/// different points, the earlier one holds the smaller ordinal.
pub proof fn lemma_note_ordinals_increase(names: Seq<Seq<u8>>, i: int, j: int)
    requires
        names_unique(names),
        0 <= i < j < names.len(),
    ensures
        note_ordinal(names, names[i]) < note_ordinal(names, names[j]),
{
    lemma_note_ordinal_is_position(names, i);
    lemma_note_ordinal_is_position(names, j);
}

proof fn lemma_unique_index_of(names: Seq<Seq<u8>>, name: Seq<u8>)
    requires
        names_unique(names),
        names.contains(name),
    ensures
        0 <= names.index_of(name) < names.len(),
        names[names.index_of(name)] == name,
        forall|i: int| 0 <= i < names.len() && names[i] == name ==> i == names.index_of(name),
{
    let j = names.index_of(name);
    assert(names[j] == name);
    assert forall|i: int| 0 <= i < names.len() && names[i] == name implies i == j by {
        if i < j {
            assert(names[i] != names[j]);
        } else if j < i {
            assert(names[j] != names[i]);
        }
    }
}

} // verus!
