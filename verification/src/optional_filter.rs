//! A filter that can be switched off: items pass through a predicate only
//! when a condition says so.

use vstd::prelude::*;

verus! {

/// The items of `items` whose flag in `keep` is set, in their order.
pub open spec fn retained<T>(items: Seq<T>, keep: Seq<bool>) -> Seq<T>
    recommends
        keep.len() == items.len(),
    decreases items.len(),
{
    if items.len() == 0 {
        Seq::empty()
    } else {
        let head = retained(items.drop_last(), keep.drop_last());
        if keep.last() {
            head.push(items.last())
        } else {
            head
        }
    }
}

/// Whether `keep` holds, for each item, an answer that `predicate` can give
/// for it.
pub open spec fn answers_of<T, P: Fn(&T) -> bool>(
    items: Seq<T>,
    keep: Seq<bool>,
    predicate: P,
) -> bool {
    &&& keep.len() == items.len()
    &&& forall|i: int|
        0 <= i < items.len() ==> call_ensures(predicate, (&items[i],), #[trigger] keep[i])
}

/// Whether `out` holds exactly the items of `items` that `predicate`
/// accepted, in their order.
pub open spec fn is_selection<T, P: Fn(&T) -> bool>(items: Seq<T>, out: Seq<T>, predicate: P) -> bool {
    exists|keep: Seq<bool>| #[trigger] answers_of(items, keep, predicate) && out == retained(items, keep)
}

/// What an optional filter yields for `items`: the selection made by
/// `predicate` where `condition` holds, all of `items` where it does not.
pub open spec fn is_optional_selection<T, P: Fn(&T) -> bool>(
    items: Seq<T>,
    out: Seq<T>,
    predicate: P,
    condition: bool,
) -> bool {
    if condition {
        is_selection(items, out, predicate)
    } else {
        out == items
    }
}

/// Whether `predicate` may be called on every item of `items`.
pub open spec fn callable_on<T, P: Fn(&T) -> bool>(items: Seq<T>, predicate: P) -> bool {
    forall|i: int| 0 <= i < items.len() ==> call_requires(predicate, (&#[trigger] items[i],))
}

/// The items that an optional filter let through, handed out one by one in
/// their order.
pub struct OptionalFilter<T> {
    // The items still to be handed out, the next one last.
    stack: Vec<T>,
}

impl<T> View for OptionalFilter<T> {
    type V = Seq<T>;

    /// The items still to be handed out, the next one first.
    closed spec fn view(&self) -> Seq<T> {
        self.stack@.reverse()
    }
}

/// Moves the items of `items` into a vector in the opposite order.
fn reversed<T>(items: Vec<T>) -> (out: Vec<T>)
    ensures
        out@ == items@.reverse(),
{
    let ghost orig = items@;
    let mut items = items;
    let mut out: Vec<T> = Vec::new();
    while items.len() > 0
        invariant
            items@.len() <= orig.len(),
            items@ == orig.take(items@.len() as int),
            out@.len() + items@.len() == orig.len(),
            forall|j: int| 0 <= j < out@.len() ==> out@[j] == orig[orig.len() - 1 - j],
        decreases items@.len(),
    {
        match items.pop() {
            Some(x) => {
                out.push(x);
            },
            None => {},
        }
    }
    proof {
        assert(out@ =~= orig.reverse());
    }
    out
}

impl<T> OptionalFilter<T> {
    /// Wraps the items that passed.
    pub fn new(items: Vec<T>) -> (r: OptionalFilter<T>)
        ensures
            r@ == items@,
    {
        let stack = reversed(items);
        proof {
            assert(stack@.reverse() =~= items@);
        }
        OptionalFilter { stack }
    }

    /// Hands out the next item, if one is left.
    pub fn next(&mut self) -> (r: Option<T>)
        ensures
            old(self)@.len() == 0 ==> r is None && final(self)@ == old(self)@,
            old(self)@.len() > 0 ==> r == Some(old(self)@[0]) && final(self)@ == old(self)@.skip(1),
    {
        let ghost before = self.stack@;
        let r = self.stack.pop();
        proof {
            if before.len() > 0 {
                assert(self.stack@.reverse() =~= before.reverse().skip(1));
            }
        }
        r
    }

    /// Hands out all the items that are left, in their order.
    pub fn collect(self) -> (v: Vec<T>)
        ensures
            v@ == self@,
    {
        reversed(self.stack)
    }
}

/// Selects from `items` what `predicate` accepts.
pub(crate) fn select<T, P: Fn(&T) -> bool>(items: Vec<T>, predicate: &P) -> (out: Vec<T>)
    requires
        callable_on(items@, *predicate),
    ensures
        is_selection(items@, out@, *predicate),
{
    let ghost orig = items@;
    let ghost mut keep: Seq<bool> = Seq::empty();
    let total: usize = items.len();
    let mut source = OptionalFilter::new(items);
    let mut out: Vec<T> = Vec::new();
    let mut done: usize = 0;
    loop
        invariant
            done <= orig.len() == total,
            source@ == orig.skip(done as int),
            answers_of(orig.take(done as int), keep, *predicate),
            out@ == retained(orig.take(done as int), keep),
            callable_on(orig, *predicate),
        ensures
            done == orig.len(),
        decreases orig.len() - done,
    {
        match source.next() {
            None => {
                break ;
            },
            Some(item) => {
                assert(item == orig[done as int]);
                let pass: bool = predicate(&item);
                proof {
                    let ghost longer = orig.take(done + 1);
                    assert(longer.drop_last() =~= orig.take(done as int));
                    assert(keep.push(pass).drop_last() =~= keep);
                    assert(orig.skip(done as int).skip(1) =~= orig.skip(done + 1));
                    keep = keep.push(pass);
                }
                if pass {
                    out.push(item);
                }
                done = done + 1;
            },
        }
    }
    proof {
        assert(orig.take(done as int) =~= orig);
    }
    out
}

/// Filtering under a condition.
pub trait FilterAdaptorWithCondition: Sized {
    type Item;

    /// The items, in the order in which they are filtered.
    spec fn items(&self) -> Seq<Self::Item>;

    /// Lets through what `predicate` accepts where `condition` holds, and
    /// everything where it does not.
    fn opt_filter<P>(self, predicate: P, condition: bool) -> (r: OptionalFilter<Self::Item>) where
        P: Fn(&Self::Item) -> bool,

        requires
            condition ==> callable_on(self.items(), predicate),
        ensures
            is_optional_selection(self.items(), r@, predicate, condition),
    ;
}

impl<T> FilterAdaptorWithCondition for Vec<T> {
    type Item = T;

    open spec fn items(&self) -> Seq<T> {
        self@
    }

    fn opt_filter<P>(self, predicate: P, condition: bool) -> (r: OptionalFilter<T>) where
        P: Fn(&T) -> bool,
     {
        if condition {
            OptionalFilter::new(select(self, &predicate))
        } else {
            OptionalFilter::new(self)
        }
    }
}

/// Filtering by a predicate that may be absent.
pub trait OptFilterAdaptor: Sized {
    type Item;

    /// The items, in the order in which they are filtered.
    spec fn items(&self) -> Seq<Self::Item>;

    /// Lets through what the predicate accepts where there is one, and
    /// everything where there is none.
    fn opt_filter_option<P>(self, predicate: Option<P>) -> (r: OptionalFilter<Self::Item>) where
        P: Fn(&Self::Item) -> bool,

        requires
            predicate matches Some(p) ==> callable_on(self.items(), p),
        ensures
            match predicate {
                Some(p) => is_selection(self.items(), r@, p),
                None => r@ == self.items(),
            },
    ;
}

impl<T> OptFilterAdaptor for Vec<T> {
    type Item = T;

    open spec fn items(&self) -> Seq<T> {
        self@
    }

    fn opt_filter_option<P>(self, predicate: Option<P>) -> (r: OptionalFilter<T>) where
        P: Fn(&T) -> bool,
     {
        match predicate {
            Some(p) => OptionalFilter::new(select(self, &p)),
            None => OptionalFilter::new(self),
        }
    }
}

} // verus!
