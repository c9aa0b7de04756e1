//! The [`Adder`] container: folds items with the inner type's own
//! in-place combining operation.

use vstd::prelude::*;

verus! {

/// An in-place combining operation, the capability that [`Adder`] folds with.
///
/// `combine` destructively merges one item into `self` (for a numeric type,
/// in-place addition). `combined` is the specification-level value of that
/// merge, and `can_combine` says on which pairs the merge is defined at all
/// (for a machine integer, that the sum does not overflow).
pub trait Combine<Item>: Sized {
    /// Whether `item` may be combined into `self`.
    spec fn can_combine(self, item: Item) -> bool;

    /// The value of `self` after combining `item` into it.
    spec fn combined(self, item: Item) -> Self;

    /// Destructively combine `item` into `self`.
    fn combine(&mut self, item: Item)
        requires
            old(self).can_combine(item),
        ensures
            *final(self) == old(self).combined(item),
    ;
}

/// A default starting value, the capability that default construction
/// and building from a sequence rest on.
pub trait HasDefault: Sized {
    /// The default value.
    spec fn spec_default() -> Self;

    /// Produce the default value.
    fn default_value() -> (r: Self)
        ensures
            r == Self::spec_default(),
    ;
}

/// The left fold of `items` into `init`: each item combined in order,
/// first to last.
pub open spec fn combined_seq<Inner: Combine<Item>, Item>(init: Inner, items: Seq<Item>) -> Inner
    decreases items.len(),
{
    if items.len() == 0 {
        init
    } else {
        combined_seq(init.combined(items[0]), items.skip(1))
    }
}

/// Whether every step of the left fold of `items` into `init` is defined.
pub open spec fn can_combine_seq<Inner: Combine<Item>, Item>(
    init: Inner,
    items: Seq<Item>,
) -> bool
    decreases items.len(),
{
    items.len() == 0 || {
        &&& init.can_combine(items[0])
        &&& can_combine_seq(init.combined(items[0]), items.skip(1))
    }
}

/// A container holding one accumulated value, updated in place by
/// combining each pushed item into it with the inner type's [`Combine`]
/// operation.
#[derive(Debug)]
pub struct Adder<Inner>(pub Inner);

impl<Inner> Adder<Inner> {
    /// Deconstruct the container and return the owned inner value.
    pub fn into_inner(self) -> (r: Inner)
        ensures
            r == self.0,
    {
        self.0
    }

    /// A read-only view of the current inner value.
    pub fn read(&self) -> (r: &Inner)
        ensures
            *r == self.0,
    {
        &self.0
    }

    /// Combine one item into the inner value.
    pub fn push<Item>(&mut self, item: Item)
        where
            Inner: Combine<Item>,
        requires
            old(self).0.can_combine(item),
        ensures
            final(self).0 == old(self).0.combined(item),
    {
        self.0.combine(item);
    }

    /// Combine every item of `items` into the inner value, first to last.
    pub fn extend<Item>(&mut self, items: Vec<Item>)
        where
            Inner: Combine<Item>,
        requires
            can_combine_seq(old(self).0, items@),
        ensures
            final(self).0 == combined_seq(old(self).0, items@),
    {
        let ghost init = old(self).0;
        let ghost all = items@;
        let mut items = items;
        let ghost mut taken: Seq<Item> = Seq::empty();
        while items.len() > 0
            invariant
                all == taken + items@,
                self.0 == combined_seq(init, taken),
                can_combine_seq(self.0, items@),
            decreases items@.len(),
        {
            let ghost before = items@;
            let ghost prev = self.0;
            let item = items.remove(0);
            let ghost item_g = item;
            proof {
                assert(items@ =~= before.skip(1));
            }
            self.push(item);
            proof {
                lemma_combined_seq_push(init, taken, item_g);
                taken = taken.push(item_g);
                assert(all =~= taken + items@);
            }
        }
        proof {
            assert(taken =~= all);
        }
    }

    /// Build a container from the inner type's default value and a sequence
    /// of items, combined in order — the same as default construction
    /// followed by [`Adder::extend`].
    pub fn from_items<Item>(items: Vec<Item>) -> (r: Self)
        where
            Inner: Combine<Item> + HasDefault,
        requires
            can_combine_seq(Inner::spec_default(), items@),
        ensures
            r.0 == combined_seq(Inner::spec_default(), items@),
    {
        let mut r = Self::default();
        r.extend(items);
        r
    }
}

impl<Inner: HasDefault> Default for Adder<Inner> {
    /// Construct a container wrapping the inner type's default value.
    fn default() -> (r: Self)
        ensures
            r.0 == Inner::spec_default(),
    {
        Adder(Inner::default_value())
    }
}

impl<Inner> From<Inner> for Adder<Inner> {
    /// Wrap an initial value.
    fn from(inner: Inner) -> (r: Self) {
        Adder(inner)
    }
}

impl<Inner> vstd::std_specs::convert::FromSpecImpl<Inner> for Adder<Inner> {
    open spec fn obeys_from_spec() -> bool {
        true
    }

    open spec fn from_spec(inner: Inner) -> Self {
        Adder(inner)
    }
}

impl Combine<usize> for usize {
    open spec fn can_combine(self, item: usize) -> bool {
        self + item <= usize::MAX
    }

    open spec fn combined(self, item: usize) -> usize {
        (self + item) as usize
    }

    fn combine(&mut self, item: usize) {
        *self = *self + item;
    }
}

impl HasDefault for usize {
    open spec fn spec_default() -> usize {
        0
    }

    fn default_value() -> (r: usize) {
        0
    }
}

/// Law: folding a sequence and then one more item is one more application of
/// the combining operation — so unwrapping after any number of pushes yields
/// exactly that many sequential applications of the combining rule, starting
/// from the construction-time initial value.
pub proof fn lemma_combined_seq_push<Inner: Combine<Item>, Item>(
    init: Inner,
    items: Seq<Item>,
    item: Item,
)
    ensures
        combined_seq(init, items.push(item)) == combined_seq(init, items).combined(item),
        can_combine_seq(init, items.push(item)) == (can_combine_seq(init, items)
            && combined_seq(init, items).can_combine(item)),
    decreases items.len(),
{
    if items.len() == 0 {
        reveal_with_fuel(combined_seq, 2);
        reveal_with_fuel(can_combine_seq, 2);
        assert(items.push(item)[0] == item);
        assert(items.push(item).skip(1) =~= Seq::<Item>::empty());
    } else {
        assert(items.push(item)[0] == items[0]);
        assert(items.push(item).skip(1) =~= items.skip(1).push(item));
        lemma_combined_seq_push(init.combined(items[0]), items.skip(1), item);
    }
}

/// Law: extending with `a` and then with `b` ends in the same inner value as
/// extending once with the concatenation `a + b`, and the combined extension
/// is defined exactly when both halves are.
pub proof fn lemma_combined_seq_concat<Inner: Combine<Item>, Item>(
    init: Inner,
    a: Seq<Item>,
    b: Seq<Item>,
)
    ensures
        combined_seq(init, a + b) == combined_seq(combined_seq(init, a), b),
        can_combine_seq(init, a + b) == (can_combine_seq(init, a)
            && can_combine_seq(combined_seq(init, a), b)),
    decreases a.len(),
{
    if a.len() == 0 {
        assert(a + b =~= b);
    } else {
        assert((a + b)[0] == a[0]);
        assert((a + b).skip(1) =~= a.skip(1) + b);
        lemma_combined_seq_concat(init.combined(a[0]), a.skip(1), b);
    }
}

} // verus!
