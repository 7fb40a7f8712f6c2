//! What each call answers, in plain terms: when it is accepted, and with which
//! words it is refused. The handles, names and messages stand here as the host
//! knows them.
use vstd::prelude::*;

use crate::checks;
use crate::checks::{CATALOG_HANDLE, HANDLE, STORAGE_TYPE, TABLE_NAME};
use crate::filter;
use crate::guest;
use crate::reading;
use crate::rows;
use crate::rows::{KvRows, RowsView};
use crate::state::{Cursor, CursorView, KvState, StateView};
use crate::text;
use crate::types;
use crate::types::{
    Columndef, CompareOp, Duckerror, DuckerrorView, Duckvalue, DuckvalueView, Logicaltype,
    ScanFilter, ScanFilterView, ScanRequest, ScanRequestView,
};
use crate::writing;
use crate::writing::{INSERT_WIDTH, UPDATE_WIDTH};

verus! {

/// One callback handle, one catalog and one table are served, under the type
/// that the host attaches by.
pub proof fn law_what_is_served()
    ensures
        HANDLE == 1,
        CATALOG_HANDLE == 1,
        TABLE_NAME@ == "kv_store"@,
        STORAGE_TYPE@ == "synthetic_mutating"@,
{
}

/// Contracts speak of a value by its text, and tell NULL, text and all else
/// apart.
pub proof fn law_values_are_seen_as_they_are(v: Duckvalue)
    ensures
        match v {
            Duckvalue::Null => v@ is Null,
            Duckvalue::Text(t) => v@ == DuckvalueView::Text(t@),
            Duckvalue::Other(t) => v@ == DuckvalueView::Other(t@),
        },
{
}

/// Contracts speak of rows of values cell by cell.
pub proof fn law_rows_are_seen_cell_by_cell(rows: Seq<Vec<Duckvalue>>, row: Seq<Duckvalue>)
    ensures
        types::cells(row).len() == row.len(),
        forall|j: int| 0 <= j < row.len() ==> #[trigger] types::cells(row)[j] == row[j]@,
        types::grid(rows).len() == rows.len(),
        forall|i: int|
            0 <= i < rows.len() ==> (#[trigger] types::grid(rows)[i]).len() == rows[i]@.len(),
        forall|i: int, j: int|
            0 <= i < rows.len() && 0 <= j < rows[i]@.len() ==> #[trigger] types::grid(rows)[i][j]
                == rows[i]@[j]@,
{
}

/// Contracts speak of a scan request field by field.
pub proof fn law_requests_are_seen_as_they_are(r: ScanRequest, f: ScanFilter)
    ensures
        r@.table == r.table@,
        r@.projection == r.projection@,
        r@.limit == r.limit,
        r@.filters.len() == r.filters@.len(),
        forall|i: int| 0 <= i < r.filters@.len() ==> #[trigger] r@.filters[i] == r.filters@[i]@,
        f@.column == f.column,
        f@.op == f.op,
        f@.value == f.value@,
{
}

/// Contracts speak of columns by name and type.
pub proof fn law_columns_are_seen_as_they_are(defs: Seq<Columndef>)
    ensures
        reading::columns(defs).len() == defs.len(),
        forall|i: int|
            0 <= i < defs.len() ==> #[trigger] reading::columns(defs)[i] == (
                defs[i].name@,
                defs[i].logical,
            ),
{
}

/// Contracts speak of the stored rows by rowid, key and value.
pub proof fn law_stored_rows_are_seen_as_they_are(
    r: KvRows,
    kv: (String, String),
    listed: (i64, String, String),
)
    ensures
        r@.next_rowid == r.next_rowid,
        forall|id: i64| #[trigger] r@.rows.contains_key(id) <==> r.rows@.contains_key(id),
        forall|id: i64|
            r.rows@.contains_key(id) ==> #[trigger] r@.rows[id] == (
                r.rows@[id].0@,
                r.rows@[id].1@,
            ),
        rows::pair(kv) == (kv.0@, kv.1@),
        rows::row(listed) == (listed.0, listed.1@, listed.2@),
{
}

/// Contracts speak of the state field by field.
pub proof fn law_the_state_is_seen_as_it_is(st: KvState, c: Cursor)
    ensures
        st@.committed == st.committed@,
        st.shadow is None ==> st@.shadow is None,
        st.shadow matches Some(rows) ==> st@.shadow == Some(rows@),
        st@.next_txn == st.next_txn,
        st@.active_txn == st.active_txn,
        st@.created == st.created,
        st@.attached == st.attached,
        st@.next_scan == st.next_scan,
        forall|id: u32| #[trigger] st@.scans.contains_key(id) <==> st.scans@.contains_key(id),
        forall|id: u32|
            st.scans@.contains_key(id) ==> #[trigger] st@.scans[id] == st.scans@[id]@,
        c@.pos == c.pos,
        c@.rows == types::grid(c.rows@),
{
}

/// A new backend has no rows, no table, no transaction and no scan.
pub proof fn law_a_new_backend_is_empty()
    ensures
        ({
            let st = StateView::empty();
            &&& st.committed.rows == Map::<i64, rows::Pair>::empty()
            &&& st.committed.next_rowid == 0
            &&& st.shadow is None
            &&& st.active_txn is None
            &&& st.next_txn == 0
            &&& !st.created
            &&& !st.attached
            &&& st.scans == Map::<u32, CursorView>::empty()
            &&& st.next_scan == 0
        }),
{
}

/// A read sees the rows of the open transaction, and the committed rows if
/// none is open, and a write changes those; a fetch can be made from every
/// position up to the end.
pub proof fn law_what_a_read_sees(st: StateView, rows: RowsView, c: CursorView)
    ensures
        st.shadow matches Some(own) ==> {
            &&& st.visible() == own
            &&& st.with_visible(rows) == (StateView { shadow: Some(rows), ..st })
        },
        st.shadow is None ==> {
            &&& st.visible() == st.committed
            &&& st.with_visible(rows) == (StateView { committed: rows, ..st })
        },
        c.wf() <==> c.pos <= c.rows.len(),
{
}

/// A call refuses with an error if it returns that error, in kind and wording.
pub proof fn law_refusing_is_returning_the_error<T>(
    r: Result<T, Duckerror>,
    why: DuckerrorView,
    words: Seq<char>,
)
    ensures
        checks::refuses(r, why) <==> r is Err && match r->Err_0 {
            Duckerror::Invalidargument(m) => why == DuckerrorView::Invalidargument(m@),
            Duckerror::Invalidstate(m) => why == DuckerrorView::Invalidstate(m@),
            Duckerror::Unsupported(m) => why == DuckerrorView::Unsupported(m@),
            Duckerror::Internal(m) => why == DuckerrorView::Internal(m@),
        },
        guest::unsupported(r, words) <==> r is Err && r->Err_0 is Unsupported
            && r->Err_0->Unsupported_0@ == words,
{
}

/// The words of every refusal, with the number or the name that it is about.
pub proof fn law_refusals_say_what_is_wrong(
    n: u32,
    m: u32,
    name: Seq<char>,
    ids: nat,
    rows: nat,
)
    ensures
        checks::unknown_handle(n) == DuckerrorView::Invalidargument(
            "synthetic-storage: unknown callback handle "@ + text::decimal(n as nat)
                + " (only 1 is served)"@,
        ),
        checks::unknown_catalog(n) == DuckerrorView::Invalidargument(
            "synthetic-storage: unknown catalog handle "@ + text::decimal(n as nat)
                + " (only 1 is served)"@,
        ),
        checks::other_txn(n, m) == DuckerrorView::Invalidstate(
            "synthetic-storage: txn "@ + text::decimal(n as nat)
                + " not active (current active txn is "@ + text::decimal(m as nat) + ")"@,
        ),
        checks::no_txn(n) == DuckerrorView::Invalidstate(
            "synthetic-storage: txn "@ + text::decimal(n as nat)
                + " not active (no live transaction)"@,
        ),
        checks::not_created(name) == DuckerrorView::Invalidstate(
            "synthetic-storage: table '"@ + name + "' has not been created"@,
        ),
        checks::unknown_table(name) == DuckerrorView::Invalidargument(
            "synthetic-storage: unknown table '"@ + name + "' (only 'kv_store' is served)"@,
        ),
        checks::not_text(name) == DuckerrorView::Invalidargument(
            "synthetic-storage: expected TEXT for kv column, got "@ + name,
        ),
        reading::outside_schema(n) == DuckerrorView::Invalidargument(
            "synthetic-storage: projection index "@ + text::decimal(n as nat)
                + " out of range (schema has 2 cols)"@,
        ),
        reading::unknown_scan(n) == DuckerrorView::Invalidstate(
            "synthetic-storage: unknown scan handle "@ + text::decimal(n as nat),
        ),
        writing::nested_txn() == DuckerrorView::Invalidstate(
            "synthetic-storage: nested transaction on same catalog"@,
        ),
        writing::length_mismatch(ids, rows) == DuckerrorView::Invalidargument(
            "synthetic-storage: UPDATE rowids ("@ + text::decimal(ids) + ") / rows ("@
                + text::decimal(rows) + ") length mismatch"@,
        ),
{
    reveal_strlit(" (only ");
    reveal_strlit(" is served)");
    reveal_strlit(" (only 1 is served)");
    reveal_strlit("' (only '");
    reveal_strlit("kv_store");
    reveal_strlit("' is served)");
    reveal_strlit("' (only 'kv_store' is served)");
    reveal_with_fuel(text::decimal, 2);
    let one = text::decimal(1);
    assert(one =~= seq!['1']);
    let number = text::decimal(n as nat);
    assert(" (only "@ + one + " is served)"@ =~= " (only 1 is served)"@);
    assert("synthetic-storage: unknown callback handle "@ + number + " (only "@ + one
        + " is served)"@ =~= "synthetic-storage: unknown callback handle "@ + number
        + " (only 1 is served)"@);
    assert("synthetic-storage: unknown catalog handle "@ + number + " (only "@ + one
        + " is served)"@ =~= "synthetic-storage: unknown catalog handle "@ + number
        + " (only 1 is served)"@);
    assert("' (only '"@ + "kv_store"@ + "' is served)"@ =~= "' (only 'kv_store' is served)"@);
    assert("synthetic-storage: unknown table '"@ + name + "' (only '"@ + "kv_store"@
        + "' is served)"@ =~= "synthetic-storage: unknown table '"@ + name
        + "' (only 'kv_store' is served)"@);
}

/// A row that cannot be stored is refused for its width if it has not two
/// cells, else for the first cell that is neither text nor NULL.
pub proof fn law_bad_rows_are_refused_by_their_fault(row: Seq<DuckvalueView>)
    ensures
        row.len() != 2 ==> {
            &&& writing::row_error(row, INSERT_WIDTH@) == DuckerrorView::Invalidargument(
                "synthetic-storage: kv_store INSERT expects 2 columns, got "@ + text::decimal(
                    row.len(),
                ),
            )
            &&& writing::row_error(row, UPDATE_WIDTH@) == DuckerrorView::Invalidargument(
                "synthetic-storage: kv_store UPDATE expects 2 columns, got "@ + text::decimal(
                    row.len(),
                ),
            )
        },
        row.len() == 2 ==> forall|message: Seq<char>, rendering: Seq<char>|
            #![trigger writing::row_error(row, message), checks::not_text(rendering)]
            row[0] == DuckvalueView::Other(rendering) || (!(row[0] is Other) && row[1]
                == DuckvalueView::Other(rendering)) ==> writing::row_error(row, message)
                == checks::not_text(rendering),
{
}

/// The served handle is 1 and so is the served catalog; any other is refused,
/// the handle before the catalog.
pub proof fn law_handles_are_looked_at_first(handle: u32, catalog: u32)
    ensures
        checks::handle_refusal(handle) is None <==> handle == 1,
        handle != 1 ==> checks::handle_refusal(handle) == Some(checks::unknown_handle(handle)),
        checks::catalog_refusal(handle, catalog) is None <==> handle == 1 && catalog == 1,
        handle != 1 ==> checks::catalog_refusal(handle, catalog) == Some(
            checks::unknown_handle(handle),
        ),
        handle == 1 && catalog != 1 ==> checks::catalog_refusal(handle, catalog) == Some(
            checks::unknown_catalog(catalog),
        ),
{
}

/// A call in a transaction is accepted exactly if the handle is the served one
/// and the transaction the open one, whichever number it has.
pub proof fn law_calls_in_the_open_transaction_are_accepted(st: StateView, handle: u32, txn: u32)
    ensures
        checks::transaction_refusal(st, handle, txn) is None <==> handle == 1 && st.active_txn
            == Some(txn),
        handle != 1 ==> checks::transaction_refusal(st, handle, txn) == Some(
            checks::unknown_handle(handle),
        ),
        handle == 1 && st.active_txn is None ==> checks::transaction_refusal(st, handle, txn)
            == Some(checks::no_txn(txn)),
        handle == 1 ==> (st.active_txn matches Some(other) ==> (other != txn
            ==> checks::transaction_refusal(st, handle, txn) == Some(
            checks::other_txn(txn, other),
        ))),
        checks::txn_refusal(st, txn) == checks::transaction_refusal(st, 1, txn),
{
}

/// A transaction can be begun exactly if the handles are the served ones and
/// no transaction is open.
pub proof fn law_begin_is_accepted_while_none_is_open(st: StateView, handle: u32, catalog: u32)
    ensures
        writing::begin_refusal(st, handle, catalog) is None <==> handle == 1 && catalog == 1
            && st.active_txn is None,
        handle != 1 || catalog != 1 ==> writing::begin_refusal(st, handle, catalog)
            == checks::catalog_refusal(handle, catalog),
        handle == 1 && catalog == 1 && st.active_txn is Some ==> writing::begin_refusal(
            st,
            handle,
            catalog,
        ) == Some(writing::nested_txn()),
{
}

/// The table can be created exactly if the handle is the served one, the
/// transaction the open one, whichever number it has, and the name the served
/// one, whether or not it has been created before.
pub proof fn law_create_is_accepted_for_the_served_name(
    st: StateView,
    handle: u32,
    txn: u32,
    table: Seq<char>,
)
    ensures
        writing::create_refusal(st, handle, txn, table) is None <==> handle == 1 && st.active_txn
            == Some(txn) && table == "kv_store"@,
        handle != 1 || st.active_txn != Some(txn) ==> writing::create_refusal(
            st,
            handle,
            txn,
            table,
        ) == checks::transaction_refusal(st, handle, txn),
        handle == 1 && st.active_txn == Some(txn) && table != "kv_store"@
            ==> writing::create_refusal(st, handle, txn, table) == Some(
            checks::unknown_table(table),
        ),
{
}

/// The table is served exactly if it has been created and is named right.
pub proof fn law_the_created_table_is_accepted(st: StateView, table: Seq<char>)
    ensures
        checks::table_refusal(st, table) is None <==> st.created && table == "kv_store"@,
        !st.created ==> checks::table_refusal(st, table) == Some(checks::not_created(table)),
        st.created && table != "kv_store"@ ==> checks::table_refusal(st, table) == Some(
            checks::unknown_table(table),
        ),
{
}

/// A write is accepted exactly if the handle is the served one, the
/// transaction the open one, and the table the served one and created. Of an
/// update there must be as many rowids as rows, which is looked at before the
/// transaction.
pub proof fn law_writes_to_the_created_table_are_accepted(
    st: StateView,
    handle: u32,
    txn: u32,
    table: Seq<char>,
    ids: nat,
    rows: nat,
)
    ensures
        checks::write_refusal(st, handle, txn, table) is None <==> handle == 1 && st.active_txn
            == Some(txn) && st.created && table == "kv_store"@,
        handle != 1 || st.active_txn != Some(txn) ==> checks::write_refusal(st, handle, txn, table)
            == checks::transaction_refusal(st, handle, txn),
        handle == 1 && st.active_txn == Some(txn) ==> checks::write_refusal(st, handle, txn, table)
            == checks::table_refusal(st, table),
        handle != 1 ==> writing::update_refusal(st, handle, txn, table, ids, rows) == Some(
            checks::unknown_handle(handle),
        ),
        handle == 1 && ids != rows ==> writing::update_refusal(st, handle, txn, table, ids, rows)
            == Some(writing::length_mismatch(ids, rows)),
        handle == 1 && ids == rows ==> writing::update_refusal(st, handle, txn, table, ids, rows)
            == checks::write_refusal(st, handle, txn, table),
{
}

/// A scan is accepted exactly if the handles are the served ones, the table is
/// the served one and created, and every column asked for is 0 or 1. It is
/// refused for the first of these that does not hold, and of the columns for
/// the first that is neither.
pub proof fn law_scans_of_the_created_table_are_accepted(
    st: StateView,
    handle: u32,
    catalog: u32,
    request: ScanRequestView,
)
    ensures
        reading::scan_refusal(st, handle, catalog, request) is None <==> {
            &&& handle == 1
            &&& catalog == 1
            &&& st.created
            &&& request.table == "kv_store"@
            &&& forall|i: int|
                0 <= i < request.projection.len() ==> #[trigger] request.projection[i] < 2
        },
        handle != 1 || catalog != 1 ==> reading::scan_refusal(st, handle, catalog, request)
            == checks::catalog_refusal(handle, catalog),
        handle == 1 && catalog == 1 && !(st.created && request.table == "kv_store"@)
            ==> reading::scan_refusal(st, handle, catalog, request) == checks::table_refusal(
            st,
            request.table,
        ),
        handle == 1 && catalog == 1 && st.created && request.table == "kv_store"@ ==> forall|i: int|
            0 <= i < request.projection.len() && #[trigger] request.projection[i] >= 2 && (forall|
                j: int,
            |
                0 <= j < i ==> request.projection[j] < 2) ==> reading::scan_refusal(
                st,
                handle,
                catalog,
                request,
            ) == Some(reading::outside_schema(request.projection[i])),
{
    let p = request.projection;
    if exists|i: int| reading::first_outside(p, i) {
        let i = choose|i: int| reading::first_outside(p, i);
        assert(p[i] >= 2);
        assert forall|k: int|
            0 <= k < p.len() && #[trigger] p[k] >= 2 && (forall|j: int|
                0 <= j < k ==> p[j] < 2) implies k == i by {
            if k < i {
                assert(p[k] < 2);
            } else if i < k {
                assert(p[i] < 2);
            }
        }
    } else {
        lemma_none_outside(p, p.len() as int);
        assert forall|i: int| 0 <= i < p.len() implies #[trigger] p[i] < 2 by {}
    }
}

/// Without a first column outside the schema there is none.
proof fn lemma_none_outside(p: Seq<u32>, n: int)
    requires
        0 <= n <= p.len(),
        !(exists|i: int| reading::first_outside(p, i)),
    ensures
        forall|i: int| 0 <= i < n ==> p[i] < 2,
    decreases n,
{
    if n > 0 {
        lemma_none_outside(p, n - 1);
        assert(!reading::first_outside(p, n - 1));
    }
}

/// A fetch is accepted exactly if the handle is the served one and the scan is
/// open, wherever its position is.
pub proof fn law_fetches_from_open_scans_are_accepted(st: StateView, handle: u32, scan: u32)
    ensures
        reading::scan_call_refusal(st, handle, scan) is None <==> handle == 1
            && st.scans.contains_key(scan),
        handle != 1 ==> reading::scan_call_refusal(st, handle, scan) == Some(
            checks::unknown_handle(handle),
        ),
        handle == 1 && !st.scans.contains_key(scan) ==> reading::scan_call_refusal(
            st,
            handle,
            scan,
        ) == Some(reading::unknown_scan(scan)),
{
}

/// The catalog lists the table once it has been created, and nothing else ever;
/// then the table has a text key and a text value, and nothing else ever has a
/// column.
pub proof fn law_the_catalog_describes_the_created_table(st: StateView, table: Seq<char>)
    ensures
        !st.created ==> reading::listed_tables(st).len() == 0,
        st.created ==> reading::listed_tables(st).len() == 1 && reading::listed_tables(st)[0]
            == "kv_store"@,
        !(st.created && table == "kv_store"@) ==> reading::described_columns(st, table).len() == 0,
        st.created && table == "kv_store"@ ==> reading::described_columns(st, table)
            == reading::schema(),
        reading::schema().len() == 2,
        reading::schema()[0] == ("key"@, Logicaltype::Text),
        reading::schema()[1] == ("value"@, Logicaltype::Text),
{
}

/// Handles are given out one after the other from 1 on, and from 1 again after
/// the greatest.
pub proof fn law_handles_are_given_out_in_turn(last: u32)
    ensures
        last < u32::MAX ==> reading::next_handle(last) == last + 1,
        reading::next_handle(u32::MAX) == 1,
{
}

/// Column 0 is the key and column 1 the value; there is no other.
pub proof fn law_columns_are_key_and_value(k: Seq<char>, v: Seq<char>, column: u32)
    ensures
        filter::cell(k, v, 0) == Some(k),
        filter::cell(k, v, 1) == Some(v),
        column >= 2 ==> filter::cell(k, v, column) is None,
{
}

/// How a cell compares with text. With `n` the number of characters on which
/// the two agree, the one that ends there is the smaller, else the one whose
/// next character has the smaller code point; if both end there, they are the
/// same.
pub proof fn law_filters_compare_by_code_points(
    k: Seq<char>,
    v: Seq<char>,
    column: u32,
    t: Seq<char>,
    n: int,
)
    requires
        column < 2,
        ({
            let c = if column == 0 {
                k
            } else {
                v
            };
            &&& 0 <= n <= c.len()
            &&& n <= t.len()
            &&& forall|i: int| 0 <= i < n ==> c[i] == t[i]
            &&& n == c.len() || n == t.len() || c[n] != t[n]
        }),
    ensures
        ({
            let c = if column == 0 {
                k
            } else {
                v
            };
            let less = n < t.len() && (n == c.len() || (c[n] as u32) < (t[n] as u32));
            let greater = n < c.len() && (n == t.len() || (t[n] as u32) < (c[n] as u32));
            let holds = |op: CompareOp|
                filter::passes(
                    k,
                    v,
                    (ScanFilterView { column, op, value: DuckvalueView::Text(t) }),
                );
            &&& holds(CompareOp::Lt) <==> less
            &&& holds(CompareOp::Le) <==> !greater
            &&& holds(CompareOp::Gt) <==> greater
            &&& holds(CompareOp::Ge) <==> !less
            &&& holds(CompareOp::Eq) <==> c == t
            &&& holds(CompareOp::Ne) <==> c != t
            &&& c == t <==> !less && !greater
        }),
{
    let c = if column == 0 {
        k
    } else {
        v
    };
    if n < t.len() && (n == c.len() || (c[n] as u32) < (t[n] as u32)) {
        text::law_text_is_ordered_by_code_points(c, t, n);
    } else if n < c.len() && (n == t.len() || (t[n] as u32) < (c[n] as u32)) {
        text::law_text_is_ordered_by_code_points(t, c, n);
    } else {
        if n < c.len() && n < t.len() {
            vstd::utf8::char_u32_cast(c[n], c[n] as u32);
            vstd::utf8::char_u32_cast(t[n], t[n] as u32);
        }
        assert(c =~= t);
        text::law_text_order_is_total(c, t);
    }
}

/// A row has to pass every filter of a list and nothing more.
pub proof fn law_every_filter_has_to_pass(
    k: Seq<char>,
    v: Seq<char>,
    filters: Seq<ScanFilterView>,
)
    ensures
        filter::passes_all(k, v, filters) <==> forall|i: int|
            0 <= i < filters.len() ==> #[trigger] filter::passes(k, v, filters[i]),
{
}

} // verus!
