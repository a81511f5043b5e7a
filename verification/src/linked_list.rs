//! A singly linked list with owned nodes, viewed as the sequence of its
//! values from front to back.

use vstd::prelude::*;

verus! {

/// A list of `T`: the first node, if any, and a cached length.
pub struct LinkedList<T> {
    head: Option<Box<Node<T>>>,
    size: usize,
}

/// One owned node: a value and the rest of the list.
pub struct Node<T> {
    value: T,
    next: Option<Box<Node<T>>>,
}

/// The values hanging off a node link, front to back.
pub closed spec fn opt_seq<T>(node: Option<Box<Node<T>>>) -> Seq<T>
    decreases node,
{
    match node {
        Option::None => Seq::empty(),
        Option::Some(b) => seq![b.value] + opt_seq(b.next),
    }
}

impl<T> Node<T> {
    pub closed spec fn view(&self) -> Seq<T> {
        seq![self.value] + opt_seq(self.next)
    }

    /// A node holding `value` in front of `next`.
    pub fn new(value: T, next: Option<Box<Node<T>>>) -> (r: Node<T>)
        ensures
            r@ == seq![value] + opt_seq(next),
    {
        Node { value, next }
    }
}

impl<T> LinkedList<T> {
    pub closed spec fn view(&self) -> Seq<T> {
        opt_seq(self.head)
    }

    /// The cached length agrees with the number of values.
    pub closed spec fn wf(&self) -> bool {
        self.size == self@.len()
    }

    /// An empty list.
    pub fn new() -> (r: LinkedList<T>)
        ensures
            r.wf(),
            r@ == Seq::<T>::empty(),
    {
        LinkedList { head: None, size: 0 }
    }

    pub fn get_size(&self) -> (r: usize)
        requires
            self.wf(),
        ensures
            r == self@.len(),
    {
        self.size
    }

    pub fn is_empty(&self) -> (r: bool)
        requires
            self.wf(),
        ensures
            r == (self@.len() == 0),
    {
        self.get_size() == 0
    }

    /// Puts `value` at the front of the list.
    pub fn push_front(&mut self, value: T)
        requires
            old(self).wf(),
            old(self)@.len() < usize::MAX,
        ensures
            final(self).wf(),
            final(self)@ == seq![value] + old(self)@,
    {
        let next = self.head.take();
        proof {
            assert(opt_seq(next) == old(self)@);
        }
        let new_node: Box<Node<T>> = Box::new(Node::new(value, next));
        self.head = Some(new_node);
        self.size = self.size + 1;
        proof {
            assert(self@ =~= seq![value] + old(self)@);
        }
    }

    /// Takes the front value off the list, if there is one.
    pub fn pop_front(&mut self) -> (r: Option<T>)
        requires
            old(self).wf(),
        ensures
            final(self).wf(),
            old(self)@.len() == 0 ==> r is None && final(self)@ == old(self)@,
            old(self)@.len() > 0 ==> (r matches Some(v) && v == old(self)@[0] && final(self)@
                == old(self)@.skip(1)),
    {
        match self.head.take() {
            None => None,
            Some(node) => {
                let Node { value, next } = *node;
                self.head = next;
                self.size = self.size - 1;
                proof {
                    assert(old(self)@ == seq![value] + opt_seq(next));
                    assert(final(self)@ =~= old(self)@.skip(1));
                }
                Some(value)
            },
        }
    }

    /// A borrowing cursor positioned at the front of the list.
    pub fn iter(&self) -> (r: LinkedListIter<'_, T>)
        ensures
            r.remaining() == self@,
    {
        LinkedListIter { current: &self.head }
    }
}

/// A cursor over a list, yielding references to its values in order.
pub struct LinkedListIter<'a, T> {
    current: &'a Option<Box<Node<T>>>,
}

impl<'a, T> LinkedListIter<'a, T> {
    /// The values not yet yielded.
    pub closed spec fn remaining(&self) -> Seq<T> {
        opt_seq(*self.current)
    }

    /// Yields the next value, or `None` at the end of the list.
    pub fn next(&mut self) -> (r: Option<&'a T>)
        ensures
            old(self).remaining().len() == 0 ==> r is None && final(self).remaining() == old(
                self,
            ).remaining(),
            old(self).remaining().len() > 0 ==> (r matches Some(v) && *v == old(
                self,
            ).remaining()[0] && final(self).remaining() == old(self).remaining().skip(1)),
    {
        match self.current {
            Some(node) => {
                self.current = &node.next;
                proof {
                    assert(old(self).remaining() == seq![node.value] + opt_seq(node.next));
                    assert(final(self).remaining() =~= old(self).remaining().skip(1));
                }
                Some(&node.value)
            },
            None => None,
        }
    }
}

} // verus!
