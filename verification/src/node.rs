//! A single slot of the backing storage.

use vstd::prelude::*;
use vstd::pervasive::unreached;

verus! {

/// One slot: either a stored value, or a link in the list of vacant slots.
#[derive(Debug)]
pub(crate) enum Node<T> {
    /// A vacant slot, holding the index of the next vacant slot, if any.
    Vacant(Option<usize>),
    /// A slot holding a value.
    Occupied(T),
}

impl<T> Node<T> {
    /// What the slot shows to a lookup: its value, or nothing where it is vacant.
    pub(crate) open spec fn content(self) -> Option<T> {
        match self {
            Node::Vacant(_) => None,
            Node::Occupied(value) => Some(value),
        }
    }

    /// The link stored in a vacant slot.
    pub(crate) fn expect_vacant(&self) -> (next: Option<usize>)
        requires
            self is Vacant,
        ensures
            *self == Node::<T>::Vacant(next),
    {
        match *self {
            Node::Vacant(next) => next,
            Node::Occupied(_) => unreached(),
        }
    }

    /// The value stored in an occupied slot.
    pub(crate) fn expect_occupied(self) -> (value: T)
        requires
            self is Occupied,
        ensures
            self == Node::Occupied(value),
    {
        match self {
            Node::Vacant(_) => unreached(),
            Node::Occupied(value) => value,
        }
    }

    /// Vacates an occupied slot, leaving `next` as its link, and hands out the
    /// value it held. A slot that is already vacant is left as it is.
    pub(crate) fn free(&mut self, next: Option<usize>) -> (value: Option<T>)
        ensures
            value == old(self).content(),
            *final(self) == (if *old(self) is Occupied {
                Node::Vacant(next)
            } else {
                *old(self)
            }),
    {
        match *self {
            Node::Vacant(_) => return None,
            _ => {},
        };
        let mut taken = Node::Vacant(next);
        core::mem::swap(self, &mut taken);
        Some(taken.expect_occupied())
    }
}

impl<T: Clone> Node<T> {
    /// `copy` may come out of cloning `self`: a vacant slot is copied as it
    /// is, and the value of an occupied slot is cloned.
    pub closed spec fn cloned_to(self, copy: Self) -> bool {
        match self {
            Node::Vacant(_) => copy == self,
            Node::Occupied(value) => copy matches Node::Occupied(cloned_value) && cloned(
                value,
                cloned_value,
            ),
        }
    }

    /// Cloning keeps a vacant slot as it is, and an occupied slot occupied.
    pub(crate) proof fn lemma_cloned(self, copy: Self)
        requires
            cloned(self, copy),
        ensures
            match (self, copy) {
                (Node::Vacant(_), _) => copy == self,
                (Node::Occupied(value), Node::Occupied(cloned_value)) => cloned(
                    value,
                    cloned_value,
                ),
                _ => false,
            },
    {
    }
}

impl<T: Clone> Clone for Node<T> {
    fn clone(&self) -> (copy: Self)
        ensures
            self.cloned_to(copy),
    {
        match self {
            Node::Vacant(next) => Node::Vacant(*next),
            Node::Occupied(value) => Node::Occupied(value.clone()),
        }
    }
}

} // verus!
