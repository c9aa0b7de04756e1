//! The [`DynFolder`] container: folds items with a combining function
//! chosen by the caller at construction time.

use std::marker::PhantomData;
use vstd::prelude::*;

use crate::adder::HasDefault;

verus! {

/// Every step of folding `items` into `init` with `f`, first to last, is
/// permitted: `f` may be called on the current value and the next item,
/// whatever value any earlier call may have returned.
pub open spec fn dyn_fold_req<Inner, Func: Fn(&Inner, Item) -> Inner, Item>(
    f: Func,
    init: Inner,
    items: Seq<Item>,
) -> bool
    decreases items.len(),
{
    items.len() == 0 || {
        &&& call_requires(f, (&init, items[0]))
        &&& forall|mid: Inner|
            #[trigger] call_ensures(f, (&init, items[0]), mid) ==> dyn_fold_req(
                f,
                mid,
                items.skip(1),
            )
    }
}

/// `result` is a value in which folding `items` into `init` with `f`, first
/// to last, can end: each step's output is one that `f`'s postcondition
/// allows for the value so far and the next item.
pub open spec fn dyn_folds_to<Inner, Func: Fn(&Inner, Item) -> Inner, Item>(
    f: Func,
    init: Inner,
    items: Seq<Item>,
    result: Inner,
) -> bool
    decreases items.len(),
{
    if items.len() == 0 {
        result == init
    } else {
        exists|mid: Inner|
            #[trigger] call_ensures(f, (&init, items[0]), mid) && dyn_folds_to(
                f,
                mid,
                items.skip(1),
                result,
            )
    }
}

/// A container holding one accumulated value together with the combining
/// function that updates it: folding an item replaces the inner value with
/// `func(&inner, item)`.
///
/// The third type parameter fixes the item type that the stored function
/// accepts; no value of it is stored.
pub struct DynFolder<Inner, Func, Item>(pub Inner, pub Func, pub PhantomData<Item>);

impl<Inner, Func, Item> DynFolder<Inner, Func, Item> {
    /// Deconstruct the container and return the owned inner value.
    pub fn into_inner(self) -> (r: Inner)
        ensures
            r == self.0,
    {
        self.0
    }

    /// A read-only view of the current inner value.
    pub fn read(&self) -> (r: &Inner)
        ensures
            *r == self.0,
    {
        &self.0
    }
}

impl<Inner, Func, Item> DynFolder<Inner, Func, Item> where Func: Fn(&Inner, Item) -> Inner {
    /// Call the stored combining function exactly once, on the current inner
    /// value and `item`, and keep what it returns as the new inner value.
    /// The stored function itself never changes.
    pub fn fold(&mut self, item: Item)
        requires
            call_requires(old(self).1, (&old(self).0, item)),
        ensures
            final(self).1 == old(self).1,
            call_ensures(old(self).1, (&old(self).0, item), final(self).0),
    {
        self.0 = (self.1)(&self.0, item);
    }

    /// Fold every item of `items` into the inner value, first to last.
    pub fn extend(&mut self, items: Vec<Item>)
        requires
            dyn_fold_req(old(self).1, old(self).0, items@),
        ensures
            final(self).1 == old(self).1,
            dyn_folds_to(old(self).1, old(self).0, items@, final(self).0),
    {
        let ghost f = old(self).1;
        let ghost init = old(self).0;
        let ghost all = items@;
        let mut items = items;
        let ghost mut taken: Seq<Item> = Seq::empty();
        while items.len() > 0
            invariant
                self.1 == f,
                all == taken + items@,
                dyn_folds_to(f, init, taken, self.0),
                dyn_fold_req(f, self.0, items@),
            decreases items@.len(),
        {
            let ghost before = items@;
            let ghost prev = self.0;
            let item = items.remove(0);
            let ghost item_g = item;
            proof {
                assert(items@ =~= before.skip(1));
            }
            self.fold(item);
            proof {
                lemma_dyn_folds_to_snoc(f, init, taken, item_g, prev, self.0);
                taken = taken.push(item_g);
                assert(all =~= taken + items@);
            }
        }
        proof {
            assert(taken =~= all);
        }
    }
}

impl<Inner, Func, Item> From<(Inner, Func)> for DynFolder<Inner, Func, Item> where
    Func: Fn(&Inner, Item) -> Inner,
 {
    /// Wrap an initial value and a combining function.
    fn from(innerfunc: (Inner, Func)) -> (r: Self) {
        DynFolder(innerfunc.0, innerfunc.1, PhantomData)
    }
}

impl<Inner, Func, Item> vstd::std_specs::convert::FromSpecImpl<(Inner, Func)> for DynFolder<Inner, Func, Item> where
    Func: Fn(&Inner, Item) -> Inner,
 {
    open spec fn obeys_from_spec() -> bool {
        true
    }

    open spec fn from_spec(innerfunc: (Inner, Func)) -> Self {
        DynFolder(innerfunc.0, innerfunc.1, PhantomData)
    }
}

impl<Inner, Func, Item> From<Func> for DynFolder<Inner, Func, Item> where
    Inner: HasDefault,
    Func: Fn(&Inner, Item) -> Inner,
 {
    /// Wrap the inner type's default value and a combining function.
    fn from(func: Func) -> (r: Self) {
        DynFolder(Inner::default_value(), func, PhantomData)
    }
}

impl<Inner, Func, Item> vstd::std_specs::convert::FromSpecImpl<Func> for DynFolder<Inner, Func, Item> where
    Inner: HasDefault,
    Func: Fn(&Inner, Item) -> Inner,
 {
    open spec fn obeys_from_spec() -> bool {
        true
    }

    open spec fn from_spec(func: Func) -> Self {
        DynFolder(Inner::spec_default(), func, PhantomData)
    }
}

/// Extending a fold by one more item at the back: if `items` can end in
/// `mid` and one more call on `mid` and `item` can return `result`, the
/// whole sequence with `item` appended can end in `result`.
proof fn lemma_dyn_folds_to_snoc<Inner, Func: Fn(&Inner, Item) -> Inner, Item>(
    f: Func,
    init: Inner,
    items: Seq<Item>,
    item: Item,
    mid: Inner,
    result: Inner,
)
    requires
        dyn_folds_to(f, init, items, mid),
        call_ensures(f, (&mid, item), result),
    ensures
        dyn_folds_to(f, init, items.push(item), result),
    decreases items.len(),
{
    if items.len() == 0 {
        reveal_with_fuel(dyn_folds_to, 2);
        assert(items.push(item)[0] == item);
        assert(items.push(item).skip(1) =~= Seq::<Item>::empty());
        assert(call_ensures(f, (&init, item), result) && dyn_folds_to(
            f,
            result,
            items.push(item).skip(1),
            result,
        ));
    } else {
        let m0 = choose|m0: Inner|
            #[trigger] call_ensures(f, (&init, items[0]), m0) && dyn_folds_to(
                f,
                m0,
                items.skip(1),
                mid,
            );
        lemma_dyn_folds_to_snoc(f, m0, items.skip(1), item, mid, result);
        assert(items.push(item)[0] == items[0]);
        assert(items.push(item).skip(1) =~= items.skip(1).push(item));
        assert(call_ensures(f, (&init, items.push(item)[0]), m0) && dyn_folds_to(
            f,
            m0,
            items.push(item).skip(1),
            result,
        ));
    }
}

/// Law: unwrapping after any number of folds yields exactly that many
/// sequential calls of the stored combining function, starting from the
/// construction-time initial value — folding `items` and then one more
/// `item` can end in `result` exactly when folding `items` can end in some
/// value on which one more call can return `result`.
pub proof fn lemma_dyn_folds_to_push<Inner, Func: Fn(&Inner, Item) -> Inner, Item>(
    f: Func,
    init: Inner,
    items: Seq<Item>,
    item: Item,
    result: Inner,
)
    ensures
        dyn_folds_to(f, init, items.push(item), result) <==> (exists|mid: Inner|
            #[trigger] dyn_folds_to(f, init, items, mid) && call_ensures(f, (&mid, item), result)),
    decreases items.len(),
{
    if dyn_folds_to(f, init, items.push(item), result) {
        if items.len() == 0 {
            reveal_with_fuel(dyn_folds_to, 2);
            assert(items.push(item)[0] == item);
            assert(items.push(item).skip(1) =~= Seq::<Item>::empty());
            let m = choose|m: Inner|
                #[trigger] call_ensures(f, (&init, item), m) && dyn_folds_to(
                    f,
                    m,
                    items.push(item).skip(1),
                    result,
                );
            assert(m == result);
            assert(dyn_folds_to(f, init, items, init) && call_ensures(f, (&init, item), result));
        } else {
            assert(items.push(item)[0] == items[0]);
            assert(items.push(item).skip(1) =~= items.skip(1).push(item));
            let m0 = choose|m0: Inner|
                #[trigger] call_ensures(f, (&init, items[0]), m0) && dyn_folds_to(
                    f,
                    m0,
                    items.skip(1).push(item),
                    result,
                );
            lemma_dyn_folds_to_push(f, m0, items.skip(1), item, result);
            let mid = choose|mid: Inner|
                #[trigger] dyn_folds_to(f, m0, items.skip(1), mid) && call_ensures(
                    f,
                    (&mid, item),
                    result,
                );
            assert(call_ensures(f, (&init, items[0]), m0) && dyn_folds_to(
                f,
                m0,
                items.skip(1),
                mid,
            ));
            assert(dyn_folds_to(f, init, items, mid));
        }
    }
    if exists|mid: Inner|
        #[trigger] dyn_folds_to(f, init, items, mid) && call_ensures(f, (&mid, item), result) {
        let mid = choose|mid: Inner|
            #[trigger] dyn_folds_to(f, init, items, mid) && call_ensures(f, (&mid, item), result);
        lemma_dyn_folds_to_snoc(f, init, items, item, mid, result);
    }
}

/// Law: extending is associative with itself — folding the concatenation
/// `a + b` can end in `result` exactly when folding `a` can end in some
/// value from which folding `b` can end in `result`. So extending with `a`
/// and then with `b` ends as extending once with `a + b` does.
pub proof fn lemma_dyn_folds_to_concat<Inner, Func: Fn(&Inner, Item) -> Inner, Item>(
    f: Func,
    init: Inner,
    a: Seq<Item>,
    b: Seq<Item>,
    result: Inner,
)
    ensures
        dyn_folds_to(f, init, a + b, result) <==> (exists|mid: Inner|
            #[trigger] dyn_folds_to(f, init, a, mid) && dyn_folds_to(f, mid, b, result)),
    decreases a.len(),
{
    if a.len() == 0 {
        assert(a + b =~= b);
        if dyn_folds_to(f, init, a + b, result) {
            assert(dyn_folds_to(f, init, a, init) && dyn_folds_to(f, init, b, result));
        }
        if exists|mid: Inner|
            #[trigger] dyn_folds_to(f, init, a, mid) && dyn_folds_to(f, mid, b, result) {
            let mid = choose|mid: Inner|
                #[trigger] dyn_folds_to(f, init, a, mid) && dyn_folds_to(f, mid, b, result);
            assert(mid == init);
        }
    } else {
        assert((a + b)[0] == a[0]);
        assert((a + b).skip(1) =~= a.skip(1) + b);
        if dyn_folds_to(f, init, a + b, result) {
            let m0 = choose|m0: Inner|
                #[trigger] call_ensures(f, (&init, a[0]), m0) && dyn_folds_to(
                    f,
                    m0,
                    a.skip(1) + b,
                    result,
                );
            lemma_dyn_folds_to_concat(f, m0, a.skip(1), b, result);
            let mid = choose|mid: Inner|
                #[trigger] dyn_folds_to(f, m0, a.skip(1), mid) && dyn_folds_to(f, mid, b, result);
            assert(call_ensures(f, (&init, a[0]), m0) && dyn_folds_to(f, m0, a.skip(1), mid));
            assert(dyn_folds_to(f, init, a, mid));
        }
        if exists|mid: Inner|
            #[trigger] dyn_folds_to(f, init, a, mid) && dyn_folds_to(f, mid, b, result) {
            let mid = choose|mid: Inner|
                #[trigger] dyn_folds_to(f, init, a, mid) && dyn_folds_to(f, mid, b, result);
            let m0 = choose|m0: Inner|
                #[trigger] call_ensures(f, (&init, a[0]), m0) && dyn_folds_to(
                    f,
                    m0,
                    a.skip(1),
                    mid,
                );
            lemma_dyn_folds_to_concat(f, m0, a.skip(1), b, result);
            assert(dyn_folds_to(f, m0, a.skip(1), mid) && dyn_folds_to(f, mid, b, result));
            assert(dyn_folds_to(f, m0, a.skip(1) + b, result));
            assert(call_ensures(f, (&init, (a + b)[0]), m0) && dyn_folds_to(
                f,
                m0,
                (a + b).skip(1),
                result,
            ));
        }
    }
}

} // verus!
