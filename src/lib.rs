//! An in-memory record store with read-only and exclusive views selected by
//! predicates, without copying the records.

mod db;
mod selection;
mod view;
mod view_mut;

pub use db::DB;
pub use selection::{
    answers_as, count_where, is_total, lemma_empty_selection, lemma_narrowing_composes,
    lemma_select_len_is_count, lemma_select_none, selected,
};
pub use view::{filter_one, filter_two, DBView};
pub use view_mut::DBViewMut;
