use vstd::prelude::*;

verus! {

/// `predicate` may be called on every record.
pub open spec fn is_total<T, F: Fn(&T) -> bool>(predicate: F) -> bool {
    forall|x: &T| #[trigger] predicate.requires((x,))
}

/// Every answer that `predicate` may give agrees with the condition `p`.
pub open spec fn answers_as<T, F: Fn(&T) -> bool>(predicate: F, p: spec_fn(T) -> bool) -> bool {
    forall|x: &T, b: bool| #[trigger] predicate.ensures((x,), b) ==> b == p(*x)
}

/// The records of `s` that satisfy `p`, in their order in `s`: what a
/// selection by a predicate answering as `p` holds.
pub open spec fn selected<T>(s: Seq<T>, p: spec_fn(T) -> bool) -> Seq<T> {
    s.filter(p)
}

/// The number of records of `s` that satisfy `p`.
pub open spec fn count_where<T>(s: Seq<T>, p: spec_fn(T) -> bool) -> nat
    decreases s.len(),
{
    if s.len() == 0 {
        0
    } else {
        count_where(s.drop_last(), p) + if p(s.last()) {
            1nat
        } else {
            0nat
        }
    }
}

/// One more step of a selection pass: the answer for `s[i]` decides whether
/// it joins the records selected from the first `i`.
pub proof fn lemma_selected_step<T>(s: Seq<T>, p: spec_fn(T) -> bool, i: int)
    requires
        0 <= i < s.len(),
    ensures
        selected(s.take(i + 1), p) == if p(s[i]) {
            selected(s.take(i), p).push(s[i])
        } else {
            selected(s.take(i), p)
        },
{
    reveal(Seq::filter);
    assert(s.take(i + 1).drop_last() =~= s.take(i));
}

/// A condition that every record meets selects the whole sequence.
pub proof fn lemma_select_all<T>(s: Seq<T>, p: spec_fn(T) -> bool)
    requires
        forall|x: T| #[trigger] p(x),
    ensures
        selected(s, p) == s,
    decreases s.len(),
{
    reveal(Seq::filter);
    if s.len() > 0 {
        lemma_select_all(s.drop_last(), p);
        assert(s.drop_last().push(s.last()) =~= s);
    }
}

/// A selection holds as many records as satisfy its condition.
pub proof fn lemma_select_len_is_count<T>(s: Seq<T>, p: spec_fn(T) -> bool)
    ensures
        selected(s, p).len() == count_where(s, p),
    decreases s.len(),
{
    reveal(Seq::filter);
    if s.len() > 0 {
        lemma_select_len_is_count(s.drop_last(), p);
    }
}

/// Narrowing a selection by `q` gives what one selection by "`p` and `q`"
/// gives.
pub proof fn lemma_narrowing_composes<T>(s: Seq<T>, p: spec_fn(T) -> bool, q: spec_fn(T) -> bool)
    ensures
        selected(selected(s, p), q) == selected(s, |x: T| p(x) && q(x)),
    decreases s.len(),
{
    reveal(Seq::filter);
    if s.len() > 0 {
        lemma_narrowing_composes(s.drop_last(), p, q);
        let inner = selected(s.drop_last(), p);
        if p(s.last()) {
            assert(selected(s, p).drop_last() =~= inner);
        }
    }
}

/// Nothing is selected from an empty sequence.
pub proof fn lemma_empty_selection<T>(s: Seq<T>, p: spec_fn(T) -> bool)
    requires
        s.len() == 0,
    ensures
        selected(s, p).len() == 0,
{
    reveal(Seq::filter);
}

/// A condition that no record meets selects nothing.
pub proof fn lemma_select_none<T>(s: Seq<T>, p: spec_fn(T) -> bool)
    requires
        forall|x: T| !#[trigger] p(x),
    ensures
        selected(s, p).len() == 0,
{
    s.lemma_all_neg_filter_empty(p);
}

} // verus!
