//! Pushed-down filters. The engine does not apply again what it pushes down,
//! so a scan must; a filter that cannot be evaluated here lets every row pass.
use vstd::prelude::*;

use crate::text;
use crate::text::TextOrder;
use crate::types::{CompareOp, Duckvalue, DuckvalueView, ScanFilter, ScanFilterView};

verus! {

/// The cell of the row `(k, v)` in `column`, if there is such a column.
pub open spec fn cell(k: Seq<char>, v: Seq<char>, column: u32) -> Option<Seq<char>> {
    if column == 0 {
        Some(k)
    } else if column == 1 {
        Some(v)
    } else {
        None
    }
}

/// Whether text `a` stands in the relation `op` to text `b`. No text is NULL.
pub open spec fn text_holds(op: CompareOp, a: Seq<char>, b: Seq<char>) -> bool {
    match op {
        CompareOp::Eq => a == b,
        CompareOp::Ne => a != b,
        CompareOp::Lt => text::text_less(a, b),
        CompareOp::Le => text::text_less(a, b) || a == b,
        CompareOp::Gt => text::text_less(b, a),
        CompareOp::Ge => text::text_less(b, a) || a == b,
        CompareOp::IsNull => false,
        CompareOp::IsNotNull => true,
    }
}

/// Whether the row `(k, v)` passes the filter `f`. The columns hold no NULL.
/// Only text can be compared: a filter on an unknown column passes, and so does
/// a comparison with a value that is not text, NULL among them.
pub open spec fn passes(k: Seq<char>, v: Seq<char>, f: ScanFilterView) -> bool {
    match cell(k, v, f.column) {
        None => true,
        Some(c) => if f.op == CompareOp::IsNull {
            false
        } else if f.op == CompareOp::IsNotNull {
            true
        } else {
            match f.value {
                DuckvalueView::Text(t) => text_holds(f.op, c, t),
                DuckvalueView::Null => true,
                DuckvalueView::Other(_) => true,
            }
        },
    }
}

/// Whether the row `(k, v)` passes all of `filters`.
pub open spec fn passes_all(k: Seq<char>, v: Seq<char>, filters: Seq<ScanFilterView>) -> bool {
    forall|i: int| 0 <= i < filters.len() ==> passes(k, v, #[trigger] filters[i])
}

/// The cell of the row `(k, v)` in `column`: 0 is the key, 1 the value.
pub fn kv_cell<'a>(k: &'a str, v: &'a str, column: u32) -> (r: Option<&'a str>)
    ensures
        match cell(k@, v@, column) {
            Some(c) => r matches Some(s) && s@ == c,
            None => r is None,
        },
{
    match column {
        0 => Some(k),
        1 => Some(v),
        _ => None,
    }
}

/// Whether the row `(k, v)` passes `filter`.
pub fn eval_filter(k: &str, v: &str, filter: &ScanFilter) -> (r: bool)
    ensures
        r == passes(k@, v@, filter@),
{
    let cell = match kv_cell(k, v, filter.column) {
        Some(c) => c,
        None => return true,
    };
    match filter.op {
        CompareOp::IsNull => false,
        CompareOp::IsNotNull => true,
        op => {
            let rhs = match &filter.value {
                Duckvalue::Text(t) => t.as_str(),
                Duckvalue::Null => return true,
                Duckvalue::Other(_) => return true,
            };
            let order = text::text_order(cell, rhs);
            match op {
                CompareOp::Eq => order == TextOrder::Equal,
                CompareOp::Ne => order != TextOrder::Equal,
                CompareOp::Lt => order == TextOrder::Less,
                CompareOp::Le => order != TextOrder::Greater,
                CompareOp::Gt => order == TextOrder::Greater,
                CompareOp::Ge => order != TextOrder::Less,
                CompareOp::IsNull => false,
                CompareOp::IsNotNull => true,
            }
        },
    }
}

/// Whether the row `(k, v)` passes all of `filters`.
pub(crate) fn eval_filters(k: &str, v: &str, filters: &Vec<ScanFilter>) -> (r: bool)
    ensures
        r == passes_all(k@, v@, filters@.map_values(|f: ScanFilter| f@)),
{
    let ghost fs = filters@.map_values(|f: ScanFilter| f@);
    let mut i: usize = 0;
    while i < filters.len()
        invariant
            fs == filters@.map_values(|f: ScanFilter| f@),
            i <= filters.len(),
            forall|j: int| 0 <= j < i ==> passes(k@, v@, #[trigger] fs[j]),
        decreases filters.len() - i,
    {
        if !eval_filter(k, v, &filters[i]) {
            assert(!passes(k@, v@, fs[i as int]));
            return false;
        }
        i = i + 1;
    }
    true
}

} // verus!
