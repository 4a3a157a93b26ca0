//! The slotted vector itself.

use vstd::prelude::*;
use crate::node::Node;
use crate::slots::Slots;

verus! {

/// `Vec` with slots which allow to `pop` values from an index
/// which will be reused by a later `push`.
///
/// The vacant slots form a singly linked list that lives in the slots
/// themselves: `free` is its head, and each vacant slot holds the index of the
/// next one. A removal puts its slot at the head, and an insertion takes the
/// head, so the slot vacated last is reused first.
#[derive(Debug)]
pub struct VecList<T> {
    // next free slot
    free: Option<usize>,
    // slots
    data: Vec<Node<T>>,
}

impl<T> View for VecList<T> {
    type V = Slots<T>;

    /// The abstract state: what each slot shows to a lookup, and the vacant
    /// slots in the order in which the embedded free list links them.
    closed spec fn view(&self) -> Slots<T> {
        Slots {
            cells: self.data@.map_values(|node: Node<T>| node.content()),
            vacant: self.chain().map_values(|index: usize| index as int),
        }
    }
}

// The free list and what holds of it.
impl<T> VecList<T> {
    /// The link that leads to position `k` of `chain`: the index found there,
    /// or `None` past the end of the chain.
    spec fn link(chain: Seq<usize>, k: int) -> Option<usize> {
        if 0 <= k < chain.len() {
            Some(chain[k])
        } else {
            None
        }
    }

    /// Position `k` of `chain` names a vacant slot whose link leads to
    /// position `k + 1`.
    spec fn linked(&self, chain: Seq<usize>, k: int) -> bool {
        &&& chain[k] < self.data@.len()
        &&& self.data@[chain[k] as int] == Node::<T>::Vacant(Self::link(chain, k + 1))
    }

    /// `chain` is the free list: it starts at `free`, each of its slots is
    /// vacant and links to the one after it, the last one links nowhere, and
    /// it visits every vacant slot exactly once.
    spec fn threads(&self, chain: Seq<usize>) -> bool {
        &&& self.free == Self::link(chain, 0)
        &&& forall|k: int| 0 <= k < chain.len() ==> #[trigger] self.linked(chain, k)
        &&& chain.no_duplicates()
        &&& forall|i: int|
            0 <= i < self.data@.len() && (#[trigger] self.data@[i]) is Vacant ==> exists|k: int|
                0 <= k < chain.len() && #[trigger] chain[k] == i
    }

    /// The free list, read off the links of the vacant slots.
    spec fn chain(&self) -> Seq<usize> {
        choose|chain: Seq<usize>| self.threads(chain)
    }

    /// The free list embedded in the vacant slots is intact: following the
    /// links from the head visits every vacant slot exactly once and ends.
    pub closed spec fn wf(&self) -> bool {
        exists|chain: Seq<usize>| self.threads(chain)
    }

    /// Two chains that both thread the free list agree on every link.
    proof fn lemma_links_agree(&self, a: Seq<usize>, b: Seq<usize>, k: nat)
        requires
            self.threads(a),
            self.threads(b),
        ensures
            Self::link(a, k as int) == Self::link(b, k as int),
        decreases k,
    {
        if k > 0 {
            self.lemma_links_agree(a, b, (k - 1) as nat);
            if k - 1 < a.len() {
                assert(self.linked(a, k - 1));
                assert(self.linked(b, k - 1));
            }
        }
    }

    /// The free list is threaded by one chain only, so a chain that threads
    /// it is the one that the view shows.
    proof fn lemma_chain_unique(&self, chain: Seq<usize>)
        requires
            self.threads(chain),
        ensures
            self.wf(),
            self.chain() == chain,
            self@.vacant == chain.map_values(|index: usize| index as int),
    {
        let other = self.chain();
        assert(self.threads(other));
        assert forall|k: int| 0 <= k implies Self::link(chain, k) == Self::link(other, k) by {
            self.lemma_links_agree(chain, other, k as nat);
        }
        assert(Self::link(chain, chain.len() as int) == Self::link(other, chain.len() as int));
        assert(Self::link(chain, other.len() as int) == Self::link(other, other.len() as int));
        assert forall|k: int| 0 <= k < chain.len() implies chain[k] == other[k] by {
            assert(Self::link(chain, k) == Self::link(other, k));
        }
        assert(chain =~= other);
    }

    /// A well-formed vector has a well-formed abstract state.
    pub proof fn lemma_view_wf(&self)
        requires
            self.wf(),
        ensures
            self@.wf(),
    {
        let chain = self.chain();
        let vacant = self@.vacant;
        assert(self.threads(chain));
        assert forall|k: int| 0 <= k < vacant.len()
            implies 0 <= #[trigger] vacant[k] < self@.cells.len()
                && self@.cells[vacant[k]] is None by {
            assert(self.linked(chain, k));
        }
        assert forall|i: int| 0 <= i < self@.cells.len() && (#[trigger] self@.cells[i]) is None
            implies vacant.contains(i) by {
            assert(self.data@[i] is Vacant);
            let k = choose|k: int| 0 <= k < chain.len() && #[trigger] chain[k] == i;
            assert(vacant[k] == i);
        }
    }

    /// A vector without slots is well formed and shows the empty state.
    proof fn lemma_empty(&self)
        requires
            self.free is None,
            self.data@.len() == 0,
        ensures
            self.wf(),
            self@ == Slots::<T>::empty(),
    {
        self.lemma_chain_unique(Seq::empty());
        assert(self@.cells =~= Seq::empty());
        assert(self@.vacant =~= Seq::empty());
    }

    /// The head of the free list is the vacant slot that the next insertion
    /// takes.
    proof fn lemma_head(&self, head: usize)
        requires
            self.wf(),
            self.free == Some(head),
        ensures
            head < self.data@.len(),
            self.data@[head as int] is Vacant,
            self@.next_index() == head,
    {
        let chain = self.chain();
        assert(self.threads(chain));
        assert(self.linked(chain, 0));
    }

    /// Filling the head of the free list with `value` and moving the head to
    /// the slot that it linked to is the insertion of `value`.
    proof fn lemma_reused(&self, after: &Self, head: usize, value: T)
        requires
            self.wf(),
            self.free == Some(head),
            head < self.data@.len(),
            self.data@[head as int] == Node::<T>::Vacant(after.free),
            after.data@ == self.data@.update(head as int, Node::Occupied(value)),
        ensures
            after.wf(),
            after@ == self@.push(value),
    {
        let chain = self.chain();
        let rest = chain.drop_first();
        assert(self.threads(chain));
        assert(self.linked(chain, 0));
        assert forall|k: int| 0 <= k < rest.len() implies #[trigger] after.linked(rest, k) by {
            assert(self.linked(chain, k + 1));
            assert(Self::link(rest, k + 1) == Self::link(chain, k + 2));
        }
        assert forall|i: int| 0 <= i < after.data@.len() && (#[trigger] after.data@[i]) is Vacant
            implies exists|k: int| 0 <= k < rest.len() && #[trigger] rest[k] == i by {
            assert(self.data@[i] is Vacant);
            let k = choose|k: int| 0 <= k < chain.len() && #[trigger] chain[k] == i;
            assert(rest[k - 1] == i);
        }
        after.lemma_chain_unique(rest);
        assert(after@.cells =~= self@.push(value).cells);
        assert(after@.vacant =~= self@.push(value).vacant);
    }

    /// With no vacant slot, a new slot at the end that holds `value` is the
    /// insertion of `value`.
    proof fn lemma_appended(&self, after: &Self, value: T)
        requires
            self.wf(),
            self.free is None,
            after.free is None,
            after.data@ == self.data@.push(Node::Occupied(value)),
        ensures
            after.wf(),
            after@ == self@.push(value),
            self@.next_index() == self.data@.len(),
    {
        let chain = self.chain();
        assert(self.threads(chain));
        assert(chain.len() == 0);
        after.lemma_chain_unique(chain);
        assert(after@.cells =~= self@.push(value).cells);
    }

    /// Turning the occupied slot `index` into a vacant one that links to the
    /// old head, and making it the head, is the removal at `index`.
    proof fn lemma_vacated(&self, after: &Self, index: usize)
        requires
            self.wf(),
            index < self.data@.len(),
            self.data@[index as int] is Occupied,
            after.free == Some(index),
            after.data@ == self.data@.update(index as int, Node::Vacant(self.free)),
        ensures
            after.wf(),
            after@ == self@.pop(index as int),
    {
        let chain = self.chain();
        let grown = seq![index] + chain;
        assert(self.threads(chain));
        assert forall|k: int| 0 <= k < grown.len() implies #[trigger] after.linked(grown, k) by {
            if k > 0 {
                assert(self.linked(chain, k - 1));
            }
            assert(Self::link(grown, k + 1) == Self::link(chain, k));
        }
        assert forall|j: int, k: int| 0 <= j < k < grown.len() implies grown[j] != grown[k] by {
            if j == 0 {
                assert(self.linked(chain, k - 1));
            }
        }
        assert forall|i: int| 0 <= i < after.data@.len() && (#[trigger] after.data@[i]) is Vacant
            implies exists|k: int| 0 <= k < grown.len() && #[trigger] grown[k] == i by {
            if i == index {
                assert(grown[0] == i);
            } else {
                let k = choose|k: int| 0 <= k < chain.len() && #[trigger] chain[k] == i;
                assert(grown[k + 1] == i);
            }
        }
        after.lemma_chain_unique(grown);
        assert(after@.cells =~= self@.pop(index as int).cells);
        assert(after@.vacant =~= self@.pop(index as int).vacant);
    }

    /// The free list does not depend on the stored values: `after` has the
    /// vacant slots of `self`, and values where `self` has values.
    proof fn lemma_values_replaced(&self, after: &Self)
        requires
            self.wf(),
            after.free == self.free,
            after.data@.len() == self.data@.len(),
            forall|j: int|
                0 <= j < self.data@.len() ==> if self.data@[j] is Vacant {
                    #[trigger] after.data@[j] == self.data@[j]
                } else {
                    after.data@[j] is Occupied
                },
        ensures
            after.wf(),
            after@.vacant == self@.vacant,
    {
        let chain = self.chain();
        assert(self.threads(chain));
        assert forall|k: int| 0 <= k < chain.len() implies #[trigger] after.linked(chain, k) by {
            assert(self.linked(chain, k));
            assert(after.data@[chain[k] as int] == self.data@[chain[k] as int]);
        }
        assert forall|i: int| 0 <= i < after.data@.len() && (#[trigger] after.data@[i]) is Vacant
            implies exists|k: int| 0 <= k < chain.len() && #[trigger] chain[k] == i by {
            assert(self.data@[i] is Vacant);
        }
        after.lemma_chain_unique(chain);
    }

    /// `after` differs from `self` at most in the value that slot `index`
    /// holds: a vacant slot stayed as it was, and an occupied one stayed
    /// occupied.
    spec fn overwritten(&self, after: &Self, index: usize) -> bool {
        &&& after.free == self.free
        &&& after.data@ == self.data@.update(index as int, after.data@[index as int])
        &&& if self.data@[index as int] is Vacant {
            after.data@[index as int] == self.data@[index as int]
        } else {
            after.data@[index as int] is Occupied
        }
    }

    /// Where only the value at `index` was replaced, the free list is as it
    /// was, and the view shows the new value in place of the old one.
    proof fn lemma_overwritten(&self, after: &Self, index: usize)
        requires
            self.wf(),
            index < self.data@.len(),
            self.overwritten(after, index),
        ensures
            after.wf(),
            after@ == (match after.data@[index as int] {
                Node::Vacant(_) => self@,
                Node::Occupied(value) => self@.write(index as int, value),
            }),
    {
        self.lemma_values_replaced(after);
        match after.data@[index as int] {
            Node::Vacant(_) => {
                assert(after@.cells =~= self@.cells);
            },
            Node::Occupied(value) => {
                assert(after@.cells =~= self@.write(index as int, value).cells);
            },
        }
    }
}

impl<T> VecList<T> {
    /// Create new empty `VecList`
    pub fn new() -> (list: Self)
        ensures
            list.wf(),
            list@ == Slots::<T>::empty(),
    {
        let list = VecList { free: None, data: Vec::new() };
        proof {
            list.lemma_empty();
        }
        list
    }

    /// Create new empty `VecList` with room reserved for `cap` slots.
    /// The capacity changes nothing that can be observed: the first
    /// insertion still gets index 0.
    pub fn with_capacity(cap: usize) -> (list: Self)
        ensures
            list.wf(),
            list@ == Slots::<T>::empty(),
    {
        let list = VecList { free: None, data: Vec::with_capacity(cap) };
        proof {
            list.lemma_empty();
        }
        list
    }

    /// Push new value into `VecList` returning index
    /// where value is placed: the slot that was vacated last, or a new slot
    /// at the end where no slot is vacant.
    pub fn push(&mut self, value: T) -> (index: usize)
        requires
            old(self).wf(),
        ensures
            final(self).wf(),
            final(self)@ == old(self)@.push(value),
            index == old(self)@.next_index(),
            final(self)@.get(index as int) == Some(value),
            final(self)@.upper_bound() >= old(self)@.upper_bound(),
    {
        proof {
            self.lemma_view_wf();
        }
        if let Some(free) = self.free {
            proof {
                self.lemma_head(free);
            }
            let next = self.data[free].expect_vacant();
            self.data[free] = Node::Occupied(value);
            self.free = next;
            proof {
                old(self).lemma_reused(self, free, value);
            }
            free
        } else {
            // No free nodes available
            self.data.push(Node::Occupied(value));
            proof {
                old(self).lemma_appended(self, value);
            }
            self.data.len() - 1
        }
    }

    /// Pop value from specified index, leaving its slot vacant for the next
    /// insertion. Returns `None`, and changes nothing, if index is unused:
    /// out of bounds, `upper_bound()` itself included, or vacant.
    pub fn pop(&mut self, index: usize) -> (value: Option<T>)
        requires
            old(self).wf(),
        ensures
            final(self).wf(),
            value == old(self)@.get(index as int),
            final(self)@ == old(self)@.pop(index as int),
            value is None ==> final(self)@ == old(self)@,
            final(self)@.get(index as int) is None,
            final(self)@.upper_bound() == old(self)@.upper_bound(),
    {
        if index >= self.data.len() {
            None
        } else {
            let value = self.data[index].free(self.free);
            if value.is_some() {
                self.free = Some(index);
                proof {
                    old(self).lemma_vacated(self, index);
                }
            } else {
                proof {
                    old(self).lemma_overwritten(self, index);
                }
            }
            value
        }
    }

    /// Returns a reference to the value of given index or `None` if there is
    /// no value: the index is out of bounds or its slot is vacant.
    pub fn get(&self, index: usize) -> (value: Option<&T>)
        ensures
            match value {
                Some(found) => self@.get(index as int) == Some(*found),
                None => self@.get(index as int) is None,
            },
    {
        if index < self.data.len() {
            match &self.data[index] {
                Node::Vacant(_) => None,
                Node::Occupied(value) => Some(value),
            }
        } else {
            None
        }
    }

    /// Returns a mutable reference to the value of given index or `None` if
    /// there is no value: the index is out of bounds or its slot is vacant.
    pub fn get_mut(&mut self, index: usize) -> (value: Option<&mut T>)
        requires
            old(self).wf(),
        ensures
            final(self).wf(),
            match value {
                Some(found) => old(self)@.get(index as int) == Some(*found) && final(self)@
                    == old(self)@.write(index as int, *final(found)),
                None => old(self)@.get(index as int) is None && final(self)@ == old(self)@,
            },
            final(self)@.upper_bound() == old(self)@.upper_bound(),
    {
        if index < self.data.len() {
            proof {
                // What holds of the vector once the caller is done with the
                // reference, whatever the slot then holds.
                assert forall|after: Self|
                    #![trigger after.wf()]
                    #![trigger after.view()]
                    self.overwritten(&after, index) implies after.wf() && after@ == (
                    match after.data@[index as int] {
                        Node::Vacant(_) => self@,
                        Node::Occupied(value) => self@.write(index as int, value),
                    }) by {
                    self.lemma_overwritten(&after, index);
                }
            }
            match &mut self.data[index] {
                Node::Vacant(_) => None,
                Node::Occupied(value) => Some(value),
            }
        } else {
            None
        }
    }

    /// Get upper bound (exclusive) of occupied indices: the number of slots
    /// ever handed out, vacant ones included.
    pub fn upper_bound(&self) -> (bound: usize)
        ensures
            bound == self@.upper_bound(),
    {
        self.data.len()
    }
}

impl<T: Clone> Clone for VecList<T> {
    /// The copy has the slots and the free list of `self`, with every
    /// stored value cloned.
    fn clone(&self) -> (copy: Self)
        ensures
            self.wf() ==> copy.wf() && copy@.vacant == self@.vacant,
            copy@.cells.len() == self@.cells.len(),
            forall|i: int|
                0 <= i < self@.cells.len() ==> match (self@.cells[i], #[trigger] copy@.cells[i]) {
                    (Some(value), Some(cloned_value)) => cloned(value, cloned_value),
                    (None, None) => true,
                    _ => false,
                },
    {
        let copy = VecList { free: self.free, data: self.data.clone() };
        proof {
            assert forall|j: int| 0 <= j < self.data@.len() implies if self.data@[j] is Vacant {
                #[trigger] copy.data@[j] == self.data@[j]
            } else {
                copy.data@[j] is Occupied
            } by {
                self.data@[j].lemma_cloned(copy.data@[j]);
            }
            if self.wf() {
                self.lemma_values_replaced(&copy);
            }
            assert forall|i: int| 0 <= i < self@.cells.len() implies match (
                self@.cells[i],
                #[trigger] copy@.cells[i],
            ) {
                (Some(value), Some(cloned_value)) => cloned(value, cloned_value),
                (None, None) => true,
                _ => false,
            } by {
                self.data@[i].lemma_cloned(copy.data@[i]);
            }
        }
        copy
    }
}

impl<T> Default for VecList<T> {
    /// The empty `VecList`.
    fn default() -> (list: Self)
        ensures
            list.wf(),
            list@ == Slots::<T>::empty(),
    {
        VecList::new()
    }
}

impl<T> vstd::std_specs::core::IndexSpecImpl<usize> for VecList<T> {
    /// Direct access is for an index that is known to hold a value.
    open spec fn index_req(&self, index: &usize) -> bool {
        self@.occupied(*index as int)
    }
}

impl<T> core::ops::Index<usize> for VecList<T> {
    type Output = T;

    /// The value at `index`, which must hold one.
    fn index(&self, index: usize) -> (value: &T)
        ensures
            self@.get(index as int) == Some(*value),
    {
        self.get(index).expect("Expect occupied")
    }
}

impl<T> core::ops::IndexMut<usize> for VecList<T> {
    /// The value at `index`, which must hold one, for writing.
    fn index_mut(&mut self, index: usize) -> (value: &mut T)
        requires
            old(self).wf(),
            old(self)@.occupied(index as int),
        ensures
            final(self).wf(),
            old(self)@.get(index as int) == Some(*value),
            final(self)@ == old(self)@.write(index as int, *final(value)),
            final(self)@.upper_bound() == old(self)@.upper_bound(),
    {
        self.get_mut(index).expect("Expect occupied")
    }
}

} // verus!
