//! A singly linked list that knows its length.

use vstd::prelude::*;
use vstd::std_specs::cmp::PartialEqSpec;
use vstd::string::StringExecFns;

verus! {

/// One link of the list: a value and the rest of the list.
pub struct ListNode<T> {
    pub val: T,
    pub next: Option<Box<ListNode<T>>>,
}

/// A list of values, first value at the head.
pub struct LinkedList<T> {
    head: Option<Box<ListNode<T>>>,
    size: u32,
}

/// The values from a link onwards, in order.
pub open spec fn values_from<T>(link: Option<Box<ListNode<T>>>) -> Seq<T>
    decreases link,
{
    match link {
        None => Seq::empty(),
        Some(node) => seq![node.val] + values_from(node.next),
    }
}

impl<T> ListNode<T> {
    /// A link that holds `val` and has nothing behind it.
    pub fn new(val: T) -> (node: Self)
        ensures
            node.val == val,
            node.next is None,
    {
        ListNode { val, next: None }
    }
}

/// Hangs `new_node` behind the last link that follows `node`.
fn append_node<T>(node: &mut Box<ListNode<T>>, new_node: Box<ListNode<T>>)
    requires
        new_node.next is None,
    ensures
        values_from(Some(*final(node))) == values_from(Some(*old(node))).push(new_node.val),
    decreases values_from(Some(*old(node))).len(),
{
    let ghost before = values_from(Some(*node));
    let ghost rest = values_from(node.next);
    proof {
        assert(values_from::<T>(None) =~= Seq::<T>::empty());
        assert(before =~= seq![node.val] + rest);
    }
    match &mut node.next {
        None => {
            node.next = Some(new_node);
            proof {
                assert(values_from(new_node.next) =~= Seq::<T>::empty());
                assert(values_from(node.next) =~= seq![new_node.val]);
                assert(values_from(Some(*node)) =~= before.push(new_node.val));
            }
        },
        Some(next) => {
            append_node(next, new_node);
            proof {
                assert(values_from(Some(*node)) =~= before.push(new_node.val));
            }
        },
    }
}

impl<T> LinkedList<T> {
    /// The values of the list, first value first.
    pub closed spec fn view(&self) -> Seq<T> {
        values_from(self.head)
    }

    /// The recorded length is the number of values.
    pub closed spec fn wf(&self) -> bool {
        self.size as int == values_from(self.head).len()
    }

    /// The number of values.
    pub fn len(&self) -> (n: u32)
        requires
            self.wf(),
        ensures
            n == self.view().len(),
    {
        self.size
    }

    /// A list of one value.
    pub fn new(val: T) -> (list: Self)
        ensures
            list.wf(),
            list.view() == seq![val],
    {
        let list = LinkedList { head: Some(Box::new(ListNode::new(val))), size: 1 };
        proof {
            assert(values_from::<T>(None) =~= Seq::<T>::empty());
            assert(values_from(list.head) =~= seq![val]);
        }
        list
    }

    /// Puts `val` before all other values.
    pub fn push_front(&mut self, val: T)
        requires
            old(self).wf(),
            old(self).view().len() < u32::MAX,
        ensures
            final(self).wf(),
            final(self).view() == seq![val] + old(self).view(),
    {
        let mut new_node = Box::new(ListNode::new(val));
        match self.head.take() {
            Some(old_head) => {
                new_node.next = Some(old_head);
            },
            None => {
                new_node.next = None;
            },
        }
        self.head = Some(new_node);
        self.size = self.size + 1;
    }

    /// Puts `val` behind all other values.
    pub fn push_back(&mut self, val: T)
        requires
            old(self).wf(),
            old(self).view().len() < u32::MAX,
        ensures
            final(self).wf(),
            final(self).view() == old(self).view().push(val),
    {
        let new_node = Box::new(ListNode::new(val));
        match &mut self.head {
            None => {
                self.head = Some(new_node);
                proof {
                    assert(values_from::<T>(None) =~= Seq::<T>::empty());
                    assert(values_from(self.head) =~= Seq::<T>::empty().push(val));
                }
            },
            Some(head) => {
                append_node(head, new_node);
            },
        }
        self.size = self.size + 1;
    }

    /// Takes the first value off the list, if there is one.
    pub fn pop_front(&mut self) -> (front: Option<T>)
        requires
            old(self).wf(),
        ensures
            final(self).wf(),
            old(self).view().len() == 0 ==> front is None && final(self).view() == old(self).view(),
            old(self).view().len() > 0 ==> front == Some(old(self).view()[0]) && final(self).view()
                == old(self).view().skip(1),
    {
        match self.head.take() {
            None => None,
            Some(node) => {
                let node = *node;
                proof {
                    assert(old(self).view() =~= seq![node.val] + values_from(node.next));
                    assert(old(self).view().skip(1) =~= values_from(node.next));
                }
                self.head = node.next;
                self.size = self.size - 1;
                Some(node.val)
            },
        }
    }

    /// The first value, if there is one.
    pub fn peek_front(&self) -> (front: Option<&T>)
        ensures
            self.view().len() == 0 ==> front is None,
            self.view().len() > 0 ==> front == Some(&self.view()[0]),
    {
        match &self.head {
            None => None,
            Some(node) => Some(&node.val),
        }
    }

    /// The last value, if there is one.
    pub fn peek_back(&self) -> (back: Option<&T>)
        ensures
            self.view().len() == 0 ==> back is None,
            self.view().len() > 0 ==> back == Some(&self.view().last()),
    {
        let mut current: &Box<ListNode<T>> = match &self.head {
            None => {
                return None;
            },
            Some(node) => node,
        };
        loop
            invariant
                values_from(Some(*current)).len() > 0,
                self.view().len() > 0,
                values_from(Some(*current)).last() == self.view().last(),
            decreases values_from(Some(*current)).len(),
        {
            proof {
                assert(values_from(Some(*current)) =~= seq![current.val] + values_from(
                    current.next,
                ));
                assert(values_from::<T>(None) =~= Seq::<T>::empty());
            }
            match &current.next {
                None => {
                    return Some(&current.val);
                },
                Some(next) => {
                    proof {
                        assert(values_from(Some(*next)) =~= seq![next.val] + values_from(next.next));
                    }
                    current = next;
                },
            }
        }
    }

    /// Whether some value of the list equals `val`.
    pub fn contains(&self, val: &T) -> (found: bool) where T: PartialEq
        ensures
            T::obeys_eq_spec() ==> (found <==> exists|i: int|
                0 <= i < self.view().len() && (#[trigger] self.view()[i]).eq_spec(val)),
    {
        let mut current: &Option<Box<ListNode<T>>> = &self.head;
        let ghost mut seen: int = 0;
        loop
            invariant
                0 <= seen <= self.view().len(),
                values_from(*current) == self.view().skip(seen),
                T::obeys_eq_spec() ==> forall|i: int|
                    0 <= i < seen ==> !(#[trigger] self.view()[i]).eq_spec(val),
            decreases self.view().len() - seen,
        {
            match current {
                None => {
                    proof {
                        assert(values_from::<T>(None) =~= Seq::<T>::empty());
                        assert(self.view().skip(seen).len() == 0);
                    }
                    return false;
                },
                Some(node) => {
                    proof {
                        assert(values_from(*current) =~= seq![node.val] + values_from(node.next));
                        assert(self.view().skip(seen)[0] == node.val);
                        assert(self.view()[seen] == node.val);
                        assert(self.view().skip(seen + 1) =~= self.view().skip(seen).skip(1));
                        assert((seq![node.val] + values_from(node.next)).skip(1) =~= values_from(
                            node.next,
                        ));
                    }
                    if node.val == *val {
                        return true;
                    }
                    current = &node.next;
                    proof {
                        seen = seen + 1;
                    }
                },
            }
        }
    }
}

/// The names joined by arrows.
pub open spec fn joined(names: Seq<String>) -> Seq<char>
    decreases names.len(),
{
    if names.len() == 0 {
        Seq::empty()
    } else if names.len() == 1 {
        names[0]@
    } else {
        joined(names.drop_last()) + " -> "@ + names.last()@
    }
}

/// The text of a list of names.
pub open spec fn list_text(names: Seq<String>) -> Seq<char> {
    if names.len() == 0 {
        "Empty list"@
    } else {
        joined(names)
    }
}

impl LinkedList<String> {
    /// Writes the names of the list, joined by arrows; an empty list says so.
    pub fn to_text(&self) -> (text: String)
        ensures
            text@ == list_text(self.view()),
    {
        let mut current: &Option<Box<ListNode<String>>> = &self.head;
        let mut text: String = String::new();
        let mut first: bool = true;
        let ghost mut seen: int = 0;
        proof {
            assert(self.view().skip(0) =~= self.view());
            assert(self.view().take(0) =~= Seq::<String>::empty());
        }
        loop
            invariant
                0 <= seen <= self.view().len(),
                first == (seen == 0),
                values_from(*current) == self.view().skip(seen),
                text@ == joined(self.view().take(seen)),
            decreases self.view().len() - seen,
        {
            match current {
                None => {
                    proof {
                        assert(values_from::<String>(None) =~= Seq::<String>::empty());
                        assert(self.view().skip(seen).len() == 0);
                        assert(self.view().take(seen) =~= self.view());
                    }
                    if first {
                        return String::from_str("Empty list");
                    }
                    return text;
                },
                Some(node) => {
                    proof {
                        assert(values_from(*current) =~= seq![node.val] + values_from(node.next));
                        assert(self.view().skip(seen)[0] == node.val);
                        assert(self.view()[seen] == node.val);
                        assert(self.view().skip(seen + 1) =~= self.view().skip(seen).skip(1));
                        assert((seq![node.val] + values_from(node.next)).skip(1) =~= values_from(
                            node.next,
                        ));
                        assert(self.view().take(seen + 1).drop_last() =~= self.view().take(seen));
                        assert(self.view().take(seen + 1).last() == node.val);
                    }
                    if !first {
                        text.append(" -> ");
                    }
                    text.append(node.val.as_str());
                    first = false;
                    current = &node.next;
                    proof {
                        seen = seen + 1;
                    }
                },
            }
        }
    }
}

} // verus!
