//! A singly linked list with O(1) append, indexed lookup, and a stable merge
//! of two sorted lists.
//!
//! Nodes live in a growable arena (`Vec`) owned by the list, and link to their
//! successors by arena index. Because nodes are created only by `add`, which
//! always appends at the tail, a well-formed list's traversal order coincides
//! with its arena order; the `next` links and the `start`/`end` handles are
//! still maintained and are what `get` follows.
//!
//! A list owns its nodes through the arena alone, so dropping a list releases
//! every node exactly once, without chasing links and without recursion.

use vstd::multiset::Multiset;
use vstd::prelude::*;
use vstd::std_specs::cmp::PartialOrdSpec;

verus! {

/// `x` compares less-or-equal to `y` under `T`'s order.
pub open spec fn spec_le<T: PartialOrd>(x: T, y: T) -> bool {
    x.partial_cmp_spec(&y) matches Some(
        core::cmp::Ordering::Less
        | core::cmp::Ordering::Equal,
    )
}

/// Cloning a `T` yields a value equal to the original (true of the primitive
/// integer types, for instance).
pub open spec fn clone_is_identity<T: Clone>() -> bool {
    forall|x: T, y: T| #[trigger] vstd::pervasive::cloned::<T>(x, y) ==> y == x
}

/// The sequence is non-decreasing: each element compares less-or-equal to
/// its successor.
pub open spec fn sorted<T: PartialOrd>(s: Seq<T>) -> bool {
    forall|i: int| 0 <= i < s.len() - 1 ==> #[trigger] spec_le(s[i], s[i + 1])
}

/// `T`'s order is a total preorder: any two values are comparable, and
/// less-or-equal is transitive (true of the primitive integer types).
pub open spec fn total_preorder<T: PartialOrd>() -> bool {
    &&& forall|x: T, y: T| #![trigger spec_le(x, y)] spec_le(x, y) || spec_le(y, x)
    &&& forall|x: T, y: T, z: T|
        #![trigger spec_le(x, y), spec_le(y, z)]
        spec_le(x, y) && spec_le(y, z) ==> spec_le(x, z)
}

/// The stable two-pointer merge of two sequences: at each step the head of
/// `a` is taken when it compares less-or-equal to the head of `b` (so ties
/// favour `a`), and once either sequence is exhausted the rest of the other
/// follows unchanged.
pub open spec fn merge_spec<T: PartialOrd>(a: Seq<T>, b: Seq<T>) -> Seq<T>
    decreases a.len() + b.len(),
{
    if a.len() == 0 {
        b
    } else if b.len() == 0 {
        a
    } else if spec_le(a[0], b[0]) {
        seq![a[0]] + merge_spec(a.skip(1), b)
    } else {
        seq![b[0]] + merge_spec(a, b.skip(1))
    }
}

/// One element holder plus the arena index of its successor, or `None` for
/// the last node of a list.
pub struct Node<T> {
    pub val: T,
    pub next: Option<usize>,
}

impl<T> Node<T> {
    /// A fresh node holding `t`, with no successor.
    pub fn new(t: T) -> (n: Node<T>)
        ensures
            n.val == t,
            n.next is None,
    {
        Node { val: t, next: None }
    }
}

/// A singly linked list: an arena of nodes, the index of the first and the
/// last node, and the number of elements.
pub struct LinkedList<T> {
    pub nodes: Vec<Node<T>>,
    pub start: Option<usize>,
    pub end: Option<usize>,
    pub length: u32,
}

impl<T> View for LinkedList<T> {
    type V = Seq<T>;

    open spec fn view(&self) -> Seq<T> {
        self.nodes@.map(|i: int, n: Node<T>| n.val)
    }
}

impl<T> Default for LinkedList<T> {
    /// The empty list.
    fn default() -> (l: Self)
        ensures
            l.wf(),
            l@ == Seq::<T>::empty(),
            l.length == 0,
    {
        Self::new()
    }
}

impl<T> LinkedList<T> {
    /// Well-formedness: following `next` links from `start` visits exactly
    /// `length` nodes, in arena order, and ends at the node `end` points to.
    pub open spec fn wf(&self) -> bool {
        &&& self.nodes@.len() == self.length
        &&& forall|i: int|
            0 <= i < self.nodes@.len() ==> (#[trigger] self.nodes@[i].next) == (
            if i + 1 < self.nodes@.len() {
                Some((i + 1) as usize)
            } else {
                None::<usize>
            })
        &&& self.start == (if self.nodes@.len() == 0 {
            None::<usize>
        } else {
            Some(0usize)
        })
        &&& self.end == (if self.nodes@.len() == 0 {
            None::<usize>
        } else {
            Some((self.nodes@.len() - 1) as usize)
        })
    }

    /// The empty list.
    pub fn new() -> (l: Self)
        ensures
            l.wf(),
            l@ == Seq::<T>::empty(),
            l.length == 0,
    {
        let l = LinkedList { nodes: Vec::new(), start: None, end: None, length: 0 };
        proof {
            assert(l@ =~= Seq::<T>::empty());
        }
        l
    }

    /// Appends `obj` at the tail: the new node is linked after the current
    /// last node (or becomes the first node of an empty list) and becomes the
    /// new last node. The count grows by one.
    pub fn add(&mut self, obj: T)
        requires
            old(self).wf(),
            old(self).length < u32::MAX,
        ensures
            final(self).wf(),
            final(self)@ == old(self)@.push(obj),
            final(self).length == old(self).length + 1,
            final(self)@[final(self).length - 1] == obj,
    {
        let idx: usize = self.nodes.len();
        match self.end {
            None => {
                self.start = Some(idx);
            },
            Some(end_idx) => {
                self.nodes[end_idx].next = Some(idx);
            },
        }
        self.nodes.push(Node { val: obj, next: None });
        self.end = Some(idx);
        self.length = self.length + 1;
        proof {
            assert(self@ =~= old(self)@.push(obj));
        }
    }

    /// Walks `index` links from the first node and returns a reference to the
    /// value found there, or `None` when `index` is negative or at least the
    /// element count.
    pub fn get(&self, index: i32) -> (r: Option<&T>)
        requires
            self.wf(),
        ensures
            0 <= index < self@.len() ==> (r matches Some(v) && *v == self@[index as int]),
            !(0 <= index < self@.len()) ==> r is None,
    {
        if index < 0 {
            return None;
        }
        let mut cur: Option<usize> = self.start;
        let mut remaining: i32 = index;
        loop
            invariant
                self.wf(),
                0 <= remaining <= index,
                cur == (if index - remaining < self.nodes@.len() {
                    Some((index - remaining) as usize)
                } else {
                    None::<usize>
                }),
            decreases remaining,
        {
            match cur {
                None => {
                    return None;
                },
                Some(i) => {
                    if remaining == 0 {
                        let node = &self.nodes[i];
                        return Some(&node.val);
                    }
                    cur = self.nodes[i].next;
                    remaining = remaining - 1;
                },
            }
        }
    }
}

impl<T: PartialOrd + Clone> LinkedList<T> {
    /// Consumes two lists, each assumed (not checked) to be individually
    /// sorted, and produces the stable two-pointer merge of their element
    /// sequences: `merge_spec` pins the result exactly, whether or not the
    /// inputs were sorted.
    pub fn merge(list_a: LinkedList<T>, list_b: LinkedList<T>) -> (merged: LinkedList<T>)
        requires
            list_a.wf(),
            list_b.wf(),
            list_a.length + list_b.length <= u32::MAX,
            T::obeys_partial_cmp_spec(),
            clone_is_identity::<T>(),
        ensures
            merged.wf(),
            merged@ == merge_spec(list_a@, list_b@),
            merged.length == list_a.length + list_b.length,
            merged@.len() == list_a@.len() + list_b@.len(),
            merged@.to_multiset() == list_a@.to_multiset().add(list_b@.to_multiset()),
            total_preorder::<T>() && sorted(list_a@) && sorted(list_b@) ==> sorted(merged@),
            list_a@.len() == 0 ==> merged@ == list_b@,
            list_b@.len() == 0 ==> merged@ == list_a@,
    {
        let mut merged = LinkedList::new();
        let mut a_curr: Option<usize> = list_a.start;
        let mut b_curr: Option<usize> = list_b.start;
        let ghost mut ai: int = 0;
        let ghost mut bi: int = 0;
        proof {
            assert(list_a@.skip(0) =~= list_a@);
            assert(list_b@.skip(0) =~= list_b@);
            assert(merged@ + merge_spec(list_a@.skip(0), list_b@.skip(0)) =~= merge_spec(
                list_a@,
                list_b@,
            ));
        }

        loop
            invariant
                list_a.wf(),
                list_b.wf(),
                merged.wf(),
                T::obeys_partial_cmp_spec(),
                clone_is_identity::<T>(),
                list_a.length + list_b.length <= u32::MAX,
                0 <= ai <= list_a@.len(),
                0 <= bi <= list_b@.len(),
                a_curr == (if ai < list_a@.len() {
                    Some(ai as usize)
                } else {
                    None::<usize>
                }),
                b_curr == (if bi < list_b@.len() {
                    Some(bi as usize)
                } else {
                    None::<usize>
                }),
                merged.length == ai + bi,
                merged@ + merge_spec(list_a@.skip(ai), list_b@.skip(bi)) == merge_spec(
                    list_a@,
                    list_b@,
                ),
            decreases list_a@.len() - ai + list_b@.len() - bi,
        {
            let choose_a: bool = match (a_curr, b_curr) {
                (Some(a), Some(b)) => {
                    let a_node = &list_a.nodes[a];
                    let b_node = &list_b.nodes[b];
                    a_node.val <= b_node.val
                },
                (Some(_), None) => true,
                (None, Some(_)) => false,
                (None, None) => {
                    proof {
                        assert(merged@ + merge_spec(list_a@.skip(ai), list_b@.skip(bi)) =~= merged@);
                        lemma_merge_spec_len(list_a@, list_b@);
                        lemma_merge_spec_multiset(list_a@, list_b@);
                        if total_preorder::<T>() && sorted(list_a@) && sorted(list_b@) {
                            lemma_merge_spec_sorted(list_a@, list_b@);
                        }
                        lemma_merge_spec_empty(list_a@, list_b@);
                        if list_a@.len() == 0 {
                            assert(list_a@ =~= Seq::<T>::empty());
                        }
                        if list_b@.len() == 0 {
                            assert(list_b@ =~= Seq::<T>::empty());
                        }
                    }
                    return merged;
                },
            };

            if choose_a {
                let a_idx = a_curr.unwrap();
                let a_node = &list_a.nodes[a_idx];
                proof {
                    assert(list_a@.skip(ai)[0] == list_a@[ai]);
                    assert(list_a@.skip(ai).skip(1) =~= list_a@.skip(ai + 1));
                    if bi < list_b@.len() {
                        assert(list_b@.skip(bi)[0] == list_b@[bi]);
                        assert(merge_spec(list_a@.skip(ai), list_b@.skip(bi)) == seq![list_a@[ai]]
                            + merge_spec(list_a@.skip(ai + 1), list_b@.skip(bi)));
                    } else {
                        assert(list_b@.skip(bi) =~= Seq::<T>::empty());
                        assert(merge_spec(list_a@.skip(ai), list_b@.skip(bi)) == list_a@.skip(ai));
                        assert(merge_spec(list_a@.skip(ai + 1), list_b@.skip(bi)) == list_a@.skip(
                            ai + 1,
                        ));
                        assert(list_a@.skip(ai) =~= seq![list_a@[ai]] + list_a@.skip(ai + 1));
                    }
                    assert((merged@ + seq![list_a@[ai]]) + merge_spec(
                        list_a@.skip(ai + 1),
                        list_b@.skip(bi),
                    ) =~= merged@ + merge_spec(list_a@.skip(ai), list_b@.skip(bi)));
                }
                let ghost pre_merged = merged@;
                let copied = a_node.val.clone();
                proof {
                    assert(vstd::pervasive::cloned::<T>(a_node.val, copied));
                    assert(copied == list_a@[ai]);
                }
                merged.add(copied);
                a_curr = a_node.next;
                proof {
                    assert(merged@ =~= pre_merged + seq![list_a@[ai]]);
                    ai = ai + 1;
                }
            } else {
                let b_idx = b_curr.unwrap();
                let b_node = &list_b.nodes[b_idx];
                proof {
                    assert(list_b@.skip(bi)[0] == list_b@[bi]);
                    assert(list_b@.skip(bi).skip(1) =~= list_b@.skip(bi + 1));
                    if ai < list_a@.len() {
                        assert(list_a@.skip(ai)[0] == list_a@[ai]);
                        assert(merge_spec(list_a@.skip(ai), list_b@.skip(bi)) == seq![list_b@[bi]]
                            + merge_spec(list_a@.skip(ai), list_b@.skip(bi + 1)));
                    } else {
                        assert(list_a@.skip(ai) =~= Seq::<T>::empty());
                        assert(merge_spec(list_a@.skip(ai), list_b@.skip(bi)) == list_b@.skip(bi));
                        assert(merge_spec(list_a@.skip(ai), list_b@.skip(bi + 1)) == list_b@.skip(
                            bi + 1,
                        ));
                        assert(list_b@.skip(bi) =~= seq![list_b@[bi]] + list_b@.skip(bi + 1));
                    }
                    assert((merged@ + seq![list_b@[bi]]) + merge_spec(
                        list_a@.skip(ai),
                        list_b@.skip(bi + 1),
                    ) =~= merged@ + merge_spec(list_a@.skip(ai), list_b@.skip(bi)));
                }
                let ghost pre_merged = merged@;
                let copied = b_node.val.clone();
                proof {
                    assert(vstd::pervasive::cloned::<T>(b_node.val, copied));
                    assert(copied == list_b@[bi]);
                }
                merged.add(copied);
                b_curr = b_node.next;
                proof {
                    assert(merged@ =~= pre_merged + seq![list_b@[bi]]);
                    bi = bi + 1;
                }
            }
        }
    }
}

/// The merge of two sequences has their combined length.
pub proof fn lemma_merge_spec_len<T: PartialOrd>(a: Seq<T>, b: Seq<T>)
    ensures
        merge_spec(a, b).len() == a.len() + b.len(),
    decreases a.len() + b.len(),
{
    if a.len() == 0 {
    } else if b.len() == 0 {
    } else if spec_le(a[0], b[0]) {
        lemma_merge_spec_len(a.skip(1), b);
    } else {
        lemma_merge_spec_len(a, b.skip(1));
    }
}

/// The merge of two sequences holds exactly the elements of both: its
/// multiset of elements is the multiset union of theirs, so it is a valid
/// interleaving of the two inputs.
pub proof fn lemma_merge_spec_multiset<T: PartialOrd>(a: Seq<T>, b: Seq<T>)
    ensures
        merge_spec(a, b).to_multiset() == a.to_multiset().add(b.to_multiset()),
    decreases a.len() + b.len(),
{
    broadcast use vstd::seq_lib::lemma_multiset_commutative;
    broadcast use vstd::seq_lib::group_to_multiset_ensures;
    broadcast use vstd::multiset::group_multiset_axioms;

    if a.len() == 0 {
        assert(a =~= Seq::<T>::empty());
        assert(a.to_multiset() =~= Multiset::<T>::empty());
        assert(merge_spec(a, b).to_multiset() =~= a.to_multiset().add(b.to_multiset()));
    } else if b.len() == 0 {
        assert(b =~= Seq::<T>::empty());
        assert(b.to_multiset() =~= Multiset::<T>::empty());
        assert(merge_spec(a, b).to_multiset() =~= a.to_multiset().add(b.to_multiset()));
    } else if spec_le(a[0], b[0]) {
        lemma_merge_spec_multiset(a.skip(1), b);
        assert(a =~= seq![a[0]] + a.skip(1));
        assert(merge_spec(a, b).to_multiset() =~= a.to_multiset().add(b.to_multiset()));
    } else {
        lemma_merge_spec_multiset(a, b.skip(1));
        assert(b =~= seq![b[0]] + b.skip(1));
        assert(merge_spec(a, b).to_multiset() =~= a.to_multiset().add(b.to_multiset()));
    }
}

/// The first element of a nonempty merge is the first element of one of the
/// two inputs.
proof fn lemma_merge_spec_head<T: PartialOrd>(a: Seq<T>, b: Seq<T>)
    requires
        a.len() + b.len() > 0,
    ensures
        merge_spec(a, b).len() > 0,
        (a.len() > 0 && merge_spec(a, b)[0] == a[0]) || (b.len() > 0 && merge_spec(a, b)[0]
            == b[0]),
{
    if a.len() == 0 {
    } else if b.len() == 0 {
    } else if spec_le(a[0], b[0]) {
        assert((seq![a[0]] + merge_spec(a.skip(1), b))[0] == a[0]);
    } else {
        assert((seq![b[0]] + merge_spec(a, b.skip(1)))[0] == b[0]);
    }
}

/// Merging two sorted sequences yields a sorted sequence.
pub proof fn lemma_merge_spec_sorted<T: PartialOrd>(a: Seq<T>, b: Seq<T>)
    requires
        total_preorder::<T>(),
        sorted(a),
        sorted(b),
    ensures
        sorted(merge_spec(a, b)),
    decreases a.len() + b.len(),
{
    if a.len() == 0 {
    } else if b.len() == 0 {
    } else if spec_le(a[0], b[0]) {
        assert forall|i: int| 0 <= i < a.skip(1).len() - 1 implies #[trigger] spec_le(
            a.skip(1)[i],
            a.skip(1)[i + 1],
        ) by {
            assert(a.skip(1)[i] == a[i + 1]);
            assert(a.skip(1)[i + 1] == a[i + 2]);
            assert(spec_le(a[i + 1], a[i + 2]));
        }
        lemma_merge_spec_sorted(a.skip(1), b);
        lemma_merge_spec_head(a.skip(1), b);
        let m = merge_spec(a.skip(1), b);
        if a.skip(1).len() > 0 && m[0] == a.skip(1)[0] {
            assert(a.skip(1)[0] == a[1]);
            assert(spec_le(a[0], a[1]));
        }
        assert(spec_le(a[0], m[0]));
        assert forall|i: int| 0 <= i < (seq![a[0]] + m).len() - 1 implies #[trigger] spec_le(
            (seq![a[0]] + m)[i],
            (seq![a[0]] + m)[i + 1],
        ) by {
            if i == 0 {
                assert((seq![a[0]] + m)[0] == a[0]);
                assert((seq![a[0]] + m)[1] == m[0]);
            } else {
                assert((seq![a[0]] + m)[i] == m[i - 1]);
                assert((seq![a[0]] + m)[i + 1] == m[i]);
                let j = i - 1;
                assert(spec_le(m[j], m[j + 1]));
            }
        }
    } else {
        assert(spec_le(b[0], a[0]));
        assert forall|i: int| 0 <= i < b.skip(1).len() - 1 implies #[trigger] spec_le(
            b.skip(1)[i],
            b.skip(1)[i + 1],
        ) by {
            assert(b.skip(1)[i] == b[i + 1]);
            assert(b.skip(1)[i + 1] == b[i + 2]);
            assert(spec_le(b[i + 1], b[i + 2]));
        }
        lemma_merge_spec_sorted(a, b.skip(1));
        lemma_merge_spec_head(a, b.skip(1));
        let m = merge_spec(a, b.skip(1));
        if b.skip(1).len() > 0 && m[0] == b.skip(1)[0] {
            assert(b.skip(1)[0] == b[1]);
            assert(spec_le(b[0], b[1]));
        }
        assert(spec_le(b[0], m[0]));
        assert forall|i: int| 0 <= i < (seq![b[0]] + m).len() - 1 implies #[trigger] spec_le(
            (seq![b[0]] + m)[i],
            (seq![b[0]] + m)[i + 1],
        ) by {
            if i == 0 {
                assert((seq![b[0]] + m)[0] == b[0]);
                assert((seq![b[0]] + m)[1] == m[0]);
            } else {
                assert((seq![b[0]] + m)[i] == m[i - 1]);
                assert((seq![b[0]] + m)[i + 1] == m[i]);
                let j = i - 1;
                assert(spec_le(m[j], m[j + 1]));
            }
        }
    }
}

/// Merging the empty sequence with any sequence, on either side, yields that
/// sequence unchanged.
pub proof fn lemma_merge_spec_empty<T: PartialOrd>(a: Seq<T>, b: Seq<T>)
    ensures
        merge_spec(Seq::<T>::empty(), b) == b,
        merge_spec(a, Seq::<T>::empty()) == a,
{
    if a.len() == 0 {
        assert(a =~= Seq::<T>::empty());
    }
}

/// One append grows the element count by one, and the element at the new
/// last position is the appended value; so a list built by `n` appends from
/// the empty list counts `n` elements and ends in the value appended last.
pub proof fn lemma_add_count_last<T>(before: LinkedList<T>, after: LinkedList<T>, v: T)
    requires
        after.wf(),
        after@ == before@.push(v),
        after.length == before.length + 1,
    ensures
        after@.len() == before@.len() + 1,
        after@[after.length - 1] == v,
{
    assert(after@.len() == after.nodes@.len());
    assert(after.length == after@.len());
    assert(before@.push(v)[before@.len() as int] == v);
}

} // verus!
