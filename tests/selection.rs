use dbview::{filter_one, filter_two, DB};

#[test]
fn select_even_numbers() {
    let db = DB::new(vec![1, 2, 3, 4, 5]);
    let v = db.select_where(|x: &i32| *x % 2 == 0);
    let expected = DB::new(vec![2, 4]);
    assert_eq!(v, expected.as_view());
    assert_eq!(v.len(), 2);
}

#[test]
fn select_count_matches_records_satisfying() {
    let db = DB::new(vec![7, 10, 13, 20, 21, 30]);
    let v = db.select_where(|x: &i32| *x >= 13);
    assert_eq!(v.len(), 4);
    let expected = DB::new(vec![13, 20, 21, 30]);
    assert_eq!(v, expected.as_view());
}

#[test]
fn select_keeps_store_order_and_duplicates() {
    let db = DB::new(vec![5, 1, 5, 3, 1, 5]);
    let v = db.select_where(|x: &i32| *x != 3);
    let expected = DB::new(vec![5, 1, 5, 1, 5]);
    assert_eq!(v, expected.as_view());
}

#[test]
fn narrow_strings_twice() {
    let db = DB::new(vec!["a", "bb", "ccc"]);
    let v = db.select_where(|s: &&str| s.len() > 1);
    let w = v.select_where(|s: &&str| s.len() > 2);
    let expected = DB::new(vec!["ccc"]);
    assert_eq!(w, expected.as_view());
    assert_eq!(w.len(), 1);
}

#[test]
fn narrowing_composes_with_conjunction() {
    let db = DB::new(vec![1, 2, 3, 4, 5, 6, 7, 8, 9, 10, 11, 12]);
    let v = db.as_view();
    let stepwise = v.select_where(|x: &i32| *x % 2 == 0).select_where(|x: &i32| *x % 3 == 0);
    let at_once = v.select_where(|x: &i32| *x % 2 == 0 && *x % 3 == 0);
    assert_eq!(stepwise, at_once);
    let expected = DB::new(vec![6, 12]);
    assert_eq!(at_once, expected.as_view());
}

#[test]
fn narrowing_leaves_view_unchanged() {
    let db = DB::new(vec![1, 2, 3, 4]);
    let v = db.as_view();
    let before = v.len();
    let v2 = v.select_where(|x: &i32| *x > 2);
    assert_eq!(v.len(), before);
    assert_eq!(v.len(), 4);
    assert_eq!(v2.len(), 2);
    assert_eq!(v, db.as_view());
}

#[test]
fn whole_views_have_store_length() {
    let mut db = DB::new(vec![3, 1, 4, 1, 5]);
    assert_eq!(db.as_view().len(), db.len());
    let n = db.len();
    assert_eq!(db.as_view_mut().len(), n);
    assert_eq!(db.len(), 5);
}

#[test]
fn whole_view_equals_always_true_selection() {
    let db = DB::new(vec![9, 8, 7]);
    assert_eq!(db.as_view(), db.select_where(|_x: &i32| true));
}

#[test]
fn empty_store_selects_nothing() {
    let mut db: DB<i32> = DB::new(Vec::new());
    assert_eq!(db.len(), 0);
    let v = db.as_view();
    assert_eq!(v.len(), 0);
    assert_eq!(v.select_where(|_x: &i32| true).len(), 0);
    assert_eq!(db.select_where(|_x: &i32| true).len(), 0);
    let m = db.as_view_mut();
    assert_eq!(m.len(), 0);
    assert_eq!(m.select_where_mut(|_x: &i32| true).len(), 0);
    assert_eq!(db.select_where_mut(|_x: &i32| true).len(), 0);
}

#[test]
fn always_false_selects_nothing() {
    let mut db = DB::new(vec![1, 2, 3]);
    assert_eq!(db.select_where(|_x: &i32| false).len(), 0);
    assert_eq!(db.as_view().select_where(|_x: &i32| false).len(), 0);
    assert_eq!(db.select_where_mut(|_x: &i32| false).len(), 0);
}

#[test]
fn mutable_view_narrowed() {
    let mut db = DB::new(vec![1, 2, 3, 4]);
    let evens = db.select_where_mut(|x: &i32| *x % 2 == 0);
    assert_eq!(evens.len(), 2);
    let big = evens.select_where_mut(|x: &i32| *x > 2);
    assert_eq!(big.len(), 1);
    let mut other = DB::new(vec![4]);
    assert_eq!(big, other.as_view_mut());
}

#[test]
fn mutable_view_leaves_store_length() {
    let mut db = DB::new(vec![1, 2, 3, 4]);
    let m = db.select_where_mut(|x: &i32| *x > 1);
    assert_eq!(m.len(), 3);
    drop(m);
    assert_eq!(db.len(), 4);
    assert_eq!(db.as_view(), DB::new(vec![1, 2, 3, 4]).as_view());
}

#[test]
fn filter_one_matches_select_where() {
    let db = DB::new(vec![10, 15, 20, 25]);
    let v = db.as_view();
    let pred = |x: &i32| *x % 10 == 5;
    assert_eq!(filter_one(&v, pred), v.select_where(pred));
    let expected = DB::new(vec![15, 25]);
    assert_eq!(filter_one(&v, pred), expected.as_view());
}

#[test]
fn filter_two_unrelated_stores() {
    let a_db = DB::new(vec![1, 5, 9, 12]);
    let b_db = DB::new(vec![20, 3, 8]);
    let a = a_db.as_view();
    let (ra, rb) = {
        let b = b_db.as_view();
        let pred = |x: &i32| *x > 4;
        let pair = filter_two(&a, &b, pred);
        assert_eq!(pair.0, a.select_where(pred));
        assert_eq!(pair.1, b.select_where(pred));
        pair
    };
    assert_eq!(ra, DB::new(vec![5, 9, 12]).as_view());
    assert_eq!(rb, DB::new(vec![20, 8]).as_view());
}
