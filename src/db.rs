use vstd::prelude::*;

use crate::selection::{answers_as, is_total, lemma_select_all, lemma_selected_step, selected};
use crate::view::DBView;
use crate::view_mut::DBViewMut;

verus! {

/// A store that owns its records, kept in the order they were given.
#[derive(Debug, PartialEq, Eq)]
pub struct DB<T> {
    data: Vec<T>,
}

impl<T> View for DB<T> {
    type V = Seq<T>;

    /// The records, in order.
    closed spec fn view(&self) -> Seq<T> {
        self.data@
    }
}

impl<T> DB<T> {
    /// Creates a DB from the given list of entries
    pub fn new(data: Vec<T>) -> (r: DB<T>)
        ensures
            r@ == data@,
    {
        DB { data: data }
    }

    /// Creates a new DBView containing all entries in `self` which satisfy `predicate`
    pub fn select_where<F>(&self, predicate: F) -> (r: DBView<'_, T>) where F: Fn(&T) -> bool
        requires
            is_total(predicate),
        ensures
            forall|p: spec_fn(T) -> bool|
                #[trigger] answers_as(predicate, p) ==> r@ == selected(self@, p),
    {
        let ghost s = self.data@;
        let mut entries: Vec<&T> = Vec::new();
        let n: usize = self.data.len();
        let mut i: usize = 0;
        while i < n
            invariant
                n == s.len(),
                s == self.data@,
                i <= n,
                is_total(predicate),
                forall|p: spec_fn(T) -> bool|
                    #[trigger] answers_as(predicate, p) ==> entries@.map_values(|e: &T| *e)
                        == selected(s.take(i as int), p),
            decreases n - i,
        {
            let t: &T = &self.data[i];
            let b = predicate(t);
            let ghost before = entries@.map_values(|e: &T| *e);
            if b {
                entries.push(t);
            }
            proof {
                assert(entries@.map_values(|e: &T| *e) =~= if b {
                    before.push(s[i as int])
                } else {
                    before
                });
                assert forall|p: spec_fn(T) -> bool| #[trigger] answers_as(predicate, p) implies entries@.map_values(
                    |e: &T| *e,
                ) == selected(s.take(i as int + 1), p) by {
                    lemma_selected_step(s, p, i as int);
                }
            }
            i = i + 1;
        }
        proof {
            assert(s.take(n as int) =~= s);
        }
        DBView::from_entries(entries)
    }

    /// Creates a new DBViewMut containing all entries in `self` which satisfy `predicate`
    pub fn select_where_mut<F>(&mut self, predicate: F) -> (r: DBViewMut<'_, T>) where
        F: Fn(&T) -> bool,

        requires
            is_total(predicate),
        ensures
            forall|p: spec_fn(T) -> bool|
                #[trigger] answers_as(predicate, p) ==> r@ == selected(old(self)@, p),
            final(self)@.len() == old(self)@.len(),
    {
        let ghost s = self.data@;
        let ghost after = final(self)@;
        let n: usize = self.data.len();
        let mut entries: Vec<&mut T> = Vec::new();
        let mut rest: &mut [T] = self.data.as_mut_slice();
        let mut i: usize = 0;
        while i < n
            invariant
                n == s.len(),
                i <= n,
                is_total(predicate),
                rest@ == s.subrange(i as int, n as int),
                after.len() == i + final(rest)@.len(),
                forall|p: spec_fn(T) -> bool|
                    #[trigger] answers_as(predicate, p) ==> entries@.map_values(|e: &mut T| *e)
                        == selected(s.take(i as int), p),
            decreases n - i,
        {
            let cur: &mut [T] = rest;
            let (head, tail) = cur.split_at_mut(1);
            rest = tail;
            let t: &mut T = head.first_mut().unwrap();
            let b = predicate(&*t);
            let ghost before = entries@.map_values(|e: &mut T| *e);
            if b {
                entries.push(t);
            }
            proof {
                assert(entries@.map_values(|e: &mut T| *e) =~= if b {
                    before.push(s[i as int])
                } else {
                    before
                });
                assert forall|p: spec_fn(T) -> bool| #[trigger] answers_as(predicate, p) implies entries@.map_values(
                    |e: &mut T| *e,
                ) == selected(s.take(i as int + 1), p) by {
                    lemma_selected_step(s, p, i as int);
                }
            }
            i = i + 1;
        }
        proof {
            assert(s.take(n as int) =~= s);
        }
        DBViewMut::from_entries(entries)
    }

    /// Returns a DBView consisting on the entirety of `self`
    pub fn as_view(&self) -> (r: DBView<'_, T>)
        ensures
            r@ == self@,
    {
        let everything = |_t: &T| -> (b: bool)
            ensures
                b,
            { true };
        let r = self.select_where(everything);
        proof {
            assert(answers_as(everything, |x: T| true));
            lemma_select_all(self@, |x: T| true);
        }
        r
    }

    /// Returns a DBViewMut consisting on the entirety of `self`
    pub fn as_view_mut(&mut self) -> (r: DBViewMut<'_, T>)
        ensures
            r@ == old(self)@,
            final(self)@.len() == old(self)@.len(),
    {
        let everything = |_t: &T| -> (b: bool)
            ensures
                b,
            { true };
        let r = self.select_where_mut(everything);
        proof {
            assert(answers_as(everything, |x: T| true));
            lemma_select_all(old(self)@, |x: T| true);
        }
        r
    }

    /// Returns the number of entries in the DB
    pub fn len(&self) -> (r: usize)
        ensures
            r == self@.len(),
    {
        self.data.len()
    }
}

} // verus!
