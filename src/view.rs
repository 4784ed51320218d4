use vstd::prelude::*;

use crate::selection::{answers_as, is_total, lemma_selected_step, selected};

verus! {

/// `predicate`, reached through a reference, may be called on `x`.
spec fn callable_at<T, F: Fn(&T) -> bool>(predicate: &F, x: &T) -> bool {
    (*predicate).requires((x,))
}

/// `predicate`, reached through a reference, may answer `b` for `x`.
spec fn may_answer<T, F: Fn(&T) -> bool>(predicate: &F, x: &T, b: bool) -> bool {
    (*predicate).ensures((x,), b)
}

/// Filters a DBView using the given predicate.
pub fn filter_one<'a, T, F>(view: &DBView<'a, T>, predicate: F) -> (r: DBView<'a, T>) where
    F: Fn(&T) -> bool,

    requires
        is_total(predicate),
    ensures
        forall|p: spec_fn(T) -> bool|
                #[trigger] answers_as(predicate, p) ==> r@ == selected(view@, p),
{
    view.select_where(predicate)
}

/// Filters two DBView structs using the same predicate, producing two separate results. This is
/// the moral equivalent of doing the two filters separately.
pub fn filter_two<'a, 'b, T, F>(view_a: &DBView<'a, T>, view_b: &DBView<'b, T>, predicate: F) -> (r: (
    DBView<'a, T>,
    DBView<'b, T>,
)) where F: Fn(&T) -> bool,

    requires
        is_total(predicate),
    ensures
        forall|p: spec_fn(T) -> bool|
                #[trigger] answers_as(predicate, p) ==> r.0@ == selected(view_a@, p),
        forall|p: spec_fn(T) -> bool|
                #[trigger] answers_as(predicate, p) ==> r.1@ == selected(view_b@, p),
{
    // One predicate value serves both views, each through its own borrow.
    let pred: &F = &predicate;
    let shared = |x: &T| -> (b: bool)
        requires
            callable_at(pred, x),
        ensures
            may_answer(pred, x, b),
        { pred(x) };
    let ra = view_a.select_where(shared);
    let rb = view_b.select_where(shared);
    proof {
        assert forall|p: spec_fn(T) -> bool| #[trigger]
            answers_as(predicate, p) implies answers_as(shared, p) by {
            assert forall|x: &T, b: bool| #[trigger] shared.ensures((x,), b) implies b == p(*x) by {
                assert(may_answer(pred, x, b));
            }
        }
    }
    (ra, rb)
}

/// A read-only selection of records borrowed from a `DB`, in the order in
/// which the store holds them.
#[derive(Debug, PartialEq, Eq)]
pub struct DBView<'a, T> where T: 'a {
    entries: Vec<&'a T>,
}

impl<'a, T> View for DBView<'a, T> {
    type V = Seq<T>;

    /// The values of the selected records, in order.
    closed spec fn view(&self) -> Seq<T> {
        self.entries@.map_values(|r: &T| *r)
    }
}

impl<'a, T> DBView<'a, T> {
    /// Wraps borrowed records, in the given order, as a view.
    pub(crate) fn from_entries(entries: Vec<&'a T>) -> (r: DBView<'a, T>)
        ensures
            r@ == entries@.map_values(|e: &T| *e),
    {
        DBView { entries }
    }

    /// Creates a new DBView containing all entries in `self` which satisfy `predicate`
    pub fn select_where<F>(&self, predicate: F) -> (r: DBView<'a, T>) where F: Fn(&T) -> bool
        requires
            is_total(predicate),
        ensures
            forall|p: spec_fn(T) -> bool|
                #[trigger] answers_as(predicate, p) ==> r@ == selected(self@, p),
    {
        let ghost s = self@;
        let mut entries: Vec<&'a T> = Vec::new();
        let n: usize = self.entries.len();
        let mut i: usize = 0;
        while i < n
            invariant
                n == s.len(),
                s == self@,
                i <= n,
                is_total(predicate),
                forall|p: spec_fn(T) -> bool|
                    #[trigger] answers_as(predicate, p) ==> entries@.map_values(|e: &T| *e)
                        == selected(s.take(i as int), p),
            decreases n - i,
        {
            let t: &'a T = self.entries[i];
            let b = predicate(t);
            let ghost before = entries@.map_values(|e: &T| *e);
            if b {
                entries.push(t);
            }
            proof {
                assert(entries@.map_values(|e: &T| *e) =~= if b {
                    before.push(s[i as int])
                } else {
                    before
                });
                assert forall|p: spec_fn(T) -> bool| #[trigger] answers_as(predicate, p) implies entries@.map_values(
                    |e: &T| *e,
                ) == selected(s.take(i as int + 1), p) by {
                    lemma_selected_step(s, p, i as int);
                }
            }
            i = i + 1;
        }
        proof {
            assert(s.take(n as int) =~= s);
        }
        DBView { entries }
    }

    /// Returns the number of entries in the DBView
    pub fn len(&self) -> (r: usize)
        ensures
            r == self@.len(),
    {
        self.entries.len()
    }
}

} // verus!
