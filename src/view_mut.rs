use vstd::prelude::*;

use crate::selection::{answers_as, is_total, lemma_selected_step, selected};

verus! {

/// An exclusive selection of records borrowed from a `DB`, in the order in
/// which the store holds them. While it lives, nothing else reaches them.
#[derive(Debug, PartialEq, Eq)]
pub struct DBViewMut<'a, T> where T: 'a {
    entries: Vec<&'a mut T>,
}

impl<'a, T> View for DBViewMut<'a, T> {
    type V = Seq<T>;

    /// The current values of the selected records, in order.
    closed spec fn view(&self) -> Seq<T> {
        self.entries@.map_values(|r: &mut T| *r)
    }
}

impl<'a, T> DBViewMut<'a, T> {
    /// Wraps exclusively borrowed records, in the given order, as a view.
    pub(crate) fn from_entries(entries: Vec<&'a mut T>) -> (r: DBViewMut<'a, T>)
        ensures
            r@ == entries@.map_values(|e: &mut T| *e),
    {
        DBViewMut { entries }
    }

    /// Creates a new DBViewMut containing all entries in `self` which satisfy `predicate`,
    /// handing over the exclusive borrows that survive
    pub fn select_where_mut<F>(self, predicate: F) -> (r: DBViewMut<'a, T>) where
        F: Fn(&T) -> bool,

        requires
            is_total(predicate),
        ensures
            forall|p: spec_fn(T) -> bool|
                #[trigger] answers_as(predicate, p) ==> r@ == selected(self@, p),
    {
        let ghost s = self@;
        let mut entries: Vec<&'a mut T> = Vec::new();
        for t in it: self.entries.into_iter()
            invariant
                s == it.seq().map_values(|e: &mut T| *e),
                is_total(predicate),
                forall|p: spec_fn(T) -> bool|
                    #[trigger] answers_as(predicate, p) ==> entries@.map_values(|e: &mut T| *e)
                        == selected(s.take(it.index() as int), p),
        {
            let ghost i: int = it.index() as int;
            let b = predicate(&*t);
            let ghost before = entries@.map_values(|e: &mut T| *e);
            if b {
                entries.push(t);
            }
            proof {
                assert(entries@.map_values(|e: &mut T| *e) =~= if b {
                    before.push(s[i])
                } else {
                    before
                });
                assert forall|p: spec_fn(T) -> bool| #[trigger] answers_as(predicate, p) implies entries@.map_values(
                    |e: &mut T| *e,
                ) == selected(s.take(i + 1), p) by {
                    lemma_selected_step(s, p, i);
                }
            }
        }
        proof {
            assert(s.take(s.len() as int) =~= s);
        }
        DBViewMut { entries }
    }

    /// Returns the number of entries in the DBViewMut
    pub fn len(&self) -> (r: usize)
        ensures
            r == self@.len(),
    {
        self.entries.len()
    }
}

} // verus!
