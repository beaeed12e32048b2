//! Full join of two key-sorted sequences of key-value pairs, used for state
//! diffing.

use vstd::prelude::*;

verus! {

/// Element of a [full join](full_join) between two sorted sequences of
/// key-value pairs (a "left" and a "right" one).
#[derive(Debug, Clone, PartialEq, Eq, Hash)]
pub enum FullJoinItem<K, T, U> {
    /// The key is contained only in the left sequence, with its left value.
    Left(K, T),
    /// The key is contained only in the right sequence, with its right
    /// value.
    Right(K, U),
    /// The key is contained in both sequences, with the left and the right
    /// value.
    Both(K, T, U),
}

impl<K, T, U> FullJoinItem<K, T, U> {
    /// The item as a key and a pair of optional values.
    pub fn into_options(self) -> (r: (K, Option<T>, Option<U>))
        ensures
            r == match self {
                FullJoinItem::Left(k, t) => (k, Some(t), None::<U>),
                FullJoinItem::Right(k, u) => (k, None::<T>, Some(u)),
                FullJoinItem::Both(k, t, u) => (k, Some(t), Some(u)),
            },
    {
        match self {
            FullJoinItem::Left(k, t) => (k, Some(t), None),
            FullJoinItem::Right(k, u) => (k, None, Some(u)),
            FullJoinItem::Both(k, t, u) => (k, Some(t), Some(u)),
        }
    }
}

/// The full join of two sequences of key-value pairs, assumed sorted by
/// ascending key: all elements of both sides appear, in key order, and a key
/// present on both sides yields a single [`FullJoinItem::Both`].
pub open spec fn spec_full_join<T, U>(left: Seq<(u64, T)>, right: Seq<(u64, U)>) -> Seq<
    FullJoinItem<u64, T, U>,
>
    decreases left.len() + right.len(),
{
    if left.len() == 0 && right.len() == 0 {
        Seq::empty()
    } else if right.len() == 0 {
        seq![FullJoinItem::Left(left[0].0, left[0].1)] + spec_full_join(
            left.subrange(1, left.len() as int),
            right,
        )
    } else if left.len() == 0 {
        seq![FullJoinItem::Right(right[0].0, right[0].1)] + spec_full_join(
            left,
            right.subrange(1, right.len() as int),
        )
    } else if left[0].0 < right[0].0 {
        seq![FullJoinItem::Left(left[0].0, left[0].1)] + spec_full_join(
            left.subrange(1, left.len() as int),
            right,
        )
    } else if left[0].0 > right[0].0 {
        seq![FullJoinItem::Right(right[0].0, right[0].1)] + spec_full_join(
            left,
            right.subrange(1, right.len() as int),
        )
    } else {
        seq![FullJoinItem::Both(left[0].0, left[0].1, right[0].1)] + spec_full_join(
            left.subrange(1, left.len() as int),
            right.subrange(1, right.len() as int),
        )
    }
}

/// A cursor over the full join of two key-sorted sequences: each call of
/// [`FullJoinIter::next`] yields the join element with the smallest
/// remaining key.
#[derive(Debug, Clone)]
pub struct FullJoinIter<T, U> {
    left: Vec<(u64, T)>,
    right: Vec<(u64, U)>,
}

impl<T, U> FullJoinIter<T, U> {
    /// The left elements not yet consumed.
    pub closed spec fn left_spec(&self) -> Seq<(u64, T)> {
        self.left@
    }

    /// The right elements not yet consumed.
    pub closed spec fn right_spec(&self) -> Seq<(u64, U)> {
        self.right@
    }

    /// A cursor at the start of both sequences.
    pub fn new(left: Vec<(u64, T)>, right: Vec<(u64, U)>) -> (r: Self)
        ensures
            r.left_spec() == left@,
            r.right_spec() == right@,
    {
        FullJoinIter { left, right }
    }

    /// The next element of the join, consuming the side (or sides) with the
    /// smallest key; `None` once both sequences are exhausted.
    pub fn next(&mut self) -> (r: Option<FullJoinItem<u64, T, U>>)
        ensures
            r is None <==> old(self).left_spec().len() == 0 && old(self).right_spec().len() == 0,
            r is None ==> final(self).left_spec() == old(self).left_spec()
                && final(self).right_spec() == old(self).right_spec(),
            r matches Some(item) ==> spec_full_join(old(self).left_spec(), old(self).right_spec())
                == seq![item] + spec_full_join(final(self).left_spec(), final(self).right_spec()),
            r is Some ==> final(self).left_spec().len() + final(self).right_spec().len() < old(
                self,
            ).left_spec().len() + old(self).right_spec().len(),
    {
        let has_left = self.left.len() > 0;
        let has_right = self.right.len() > 0;
        if !has_left && !has_right {
            None
        } else if !has_right {
            let (k, t) = self.left.remove(0);
            proof {
                assert(self.left@ =~= old(self).left_spec().subrange(
                    1,
                    old(self).left_spec().len() as int,
                ));
            }
            Some(FullJoinItem::Left(k, t))
        } else if !has_left {
            let (k, u) = self.right.remove(0);
            proof {
                assert(self.right@ =~= old(self).right_spec().subrange(
                    1,
                    old(self).right_spec().len() as int,
                ));
            }
            Some(FullJoinItem::Right(k, u))
        } else if self.left[0].0 < self.right[0].0 {
            let (k, t) = self.left.remove(0);
            proof {
                assert(self.left@ =~= old(self).left_spec().subrange(
                    1,
                    old(self).left_spec().len() as int,
                ));
            }
            Some(FullJoinItem::Left(k, t))
        } else if self.left[0].0 > self.right[0].0 {
            let (k, u) = self.right.remove(0);
            proof {
                assert(self.right@ =~= old(self).right_spec().subrange(
                    1,
                    old(self).right_spec().len() as int,
                ));
            }
            Some(FullJoinItem::Right(k, u))
        } else {
            let (k, t) = self.left.remove(0);
            let (k2, u) = self.right.remove(0);
            proof {
                assert(self.left@ =~= old(self).left_spec().subrange(
                    1,
                    old(self).left_spec().len() as int,
                ));
                assert(self.right@ =~= old(self).right_spec().subrange(
                    1,
                    old(self).right_spec().len() as int,
                ));
                assert(k == k2);
            }
            Some(FullJoinItem::Both(k, t, u))
        }
    }
}

/// The full join of two key-value sequences, assumed sorted by ascending
/// key.
///
/// Every element of either side appears in the result, in key order: a key
/// present only on the left yields [`FullJoinItem::Left`], only on the right
/// [`FullJoinItem::Right`], and on both sides a single
/// [`FullJoinItem::Both`] carrying both values.
pub fn full_join<T, U>(left: Vec<(u64, T)>, right: Vec<(u64, U)>) -> (r: Vec<
    FullJoinItem<u64, T, U>,
>)
    ensures
        r@ == spec_full_join(left@, right@),
{
    let ghost full = spec_full_join(left@, right@);
    let mut it = FullJoinIter::new(left, right);
    let mut result: Vec<FullJoinItem<u64, T, U>> = Vec::new();
    loop
        invariant
            full =~= result@ + spec_full_join(it.left_spec(), it.right_spec()),
        ensures
            it.left_spec().len() == 0 && it.right_spec().len() == 0,
            full =~= result@ + spec_full_join(it.left_spec(), it.right_spec()),
        decreases it.left_spec().len() + it.right_spec().len(),
    {
        let ghost before = result@;
        let ghost l0 = it.left_spec();
        let ghost r0 = it.right_spec();
        match it.next() {
            Some(item) => {
                result.push(item);
                proof {
                    assert(result@ =~= before + seq![item]);
                    assert(before + (seq![item] + spec_full_join(it.left_spec(), it.right_spec()))
                        =~= (before + seq![item]) + spec_full_join(
                        it.left_spec(),
                        it.right_spec(),
                    ));
                }
            },
            None => {
                break ;
            },
        }
    }
    assert(spec_full_join(it.left_spec(), it.right_spec()) =~= Seq::<
        FullJoinItem<u64, T, U>,
    >::empty());
    assert(result@ =~= full);
    result
}

} // verus!
