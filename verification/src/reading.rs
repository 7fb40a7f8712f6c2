//! The read side: attaching, describing the table, and scanning it.
use vstd::prelude::*;
use vstd::string::StringExecFns;

use crate::checks;
use crate::checks::{CATALOG_HANDLE, TABLE_NAME};
use crate::filter;
use crate::guest::Component;
use crate::rows;
use crate::rows::{KvRows, Pair, Row};
use crate::state::{visible_view, Cursor, CursorView, KvState, StateView};
use crate::text;
use crate::types;
use crate::types::{
    Columndef, Duckerror, DuckerrorView, Duckvalue, DuckvalueView, Logicaltype, ScanFilter,
    ScanRequest, ScanRequestView,
};

verus! {

/// The handle that follows `last`: one more, and 1 after the greatest.
pub open spec fn next_handle(last: u32) -> u32 {
    if last == u32::MAX {
        1
    } else {
        (last + 1) as u32
    }
}

/// The names and types of a list of columns.
pub open spec fn columns(defs: Seq<Columndef>) -> Seq<(Seq<char>, Logicaltype)> {
    defs.map_values(|c: Columndef| (c.name@, c.logical))
}

/// The schema of the table: a text key and a text value.
pub open spec fn schema() -> Seq<(Seq<char>, Logicaltype)> {
    seq![("key"@, Logicaltype::Text), ("value"@, Logicaltype::Text)]
}

/// The tables that the catalog lists: the served one, once it has been created.
pub open spec fn listed_tables(st: StateView) -> Seq<Seq<char>> {
    if st.created {
        seq![TABLE_NAME@]
    } else {
        Seq::empty()
    }
}

/// The columns of `table`: none, if it is not served or has not been created.
pub open spec fn described_columns(st: StateView, table: Seq<char>) -> Seq<
    (Seq<char>, Logicaltype),
> {
    if st.created && table == TABLE_NAME@ {
        schema()
    } else {
        Seq::empty()
    }
}

/// The columns that a projection asks for: an empty one asks for all.
pub open spec fn projected_columns(projection: Seq<u32>) -> Seq<u32> {
    if projection.len() == 0 {
        seq![0u32, 1u32]
    } else {
        projection
    }
}

/// `projection[i]` is the first index outside the schema.
pub open spec fn first_outside(projection: Seq<u32>, i: int) -> bool {
    &&& 0 <= i < projection.len()
    &&& projection[i] >= 2
    &&& forall|j: int| 0 <= j < i ==> projection[j] < 2
}

/// The error for a projection index outside the schema.
pub open spec fn outside_schema(column: u32) -> DuckerrorView {
    DuckerrorView::Invalidargument(
        "synthetic-storage: projection index "@ + text::decimal(column as nat)
            + " out of range (schema has 2 cols)"@,
    )
}

/// Why a projection is refused, if it is.
pub open spec fn projection_refusal(projection: Seq<u32>) -> Option<DuckerrorView> {
    if exists|i: int| first_outside(projection, i) {
        let i = choose|i: int| first_outside(projection, i);
        Some(outside_schema(projection[i]))
    } else {
        None
    }
}

/// Why a scan is refused, if it is.
pub open spec fn scan_refusal(
    st: StateView,
    handle: u32,
    catalog: u32,
    request: ScanRequestView,
) -> Option<DuckerrorView> {
    match checks::catalog_refusal(handle, catalog) {
        Some(why) => Some(why),
        None => match checks::table_refusal(st, request.table) {
            Some(why) => Some(why),
            None => projection_refusal(request.projection),
        },
    }
}

/// The cells of the row `(k, v)` in the columns `cols`.
pub open spec fn project(k: Seq<char>, v: Seq<char>, cols: Seq<u32>) -> Seq<DuckvalueView> {
    cols.map_values(
        |c: u32|
            DuckvalueView::Text(
                if c == 0 {
                    k
                } else {
                    v
                },
            ),
    )
}

/// How many rows a scan may return: a limit of 0 counts as 1.
pub open spec fn row_budget(limit: usize) -> nat {
    if limit == 0 {
        1
    } else {
        limit as nat
    }
}

/// The first rows of `s`, as many as `limit` admits.
pub open spec fn limited<A>(s: Seq<A>, limit: Option<u64>) -> Seq<A> {
    match limit {
        None => s,
        Some(n) => if s.len() <= row_budget(n as usize) {
            s
        } else {
            s.take(row_budget(n as usize) as int)
        },
    }
}

/// The rows of `m` that pass all filters of `request`, by increasing rowid.
pub open spec fn kept_rows(m: Map<i64, Pair>, request: ScanRequestView) -> Seq<Row> {
    rows::listing(m).filter(|r: Row| filter::passes_all(r.1, r.2, request.filters))
}

/// What a scan of `m` returns: of the rows that pass all filters, by
/// increasing rowid, the first ones within the limit, each projected.
pub open spec fn scanned(m: Map<i64, Pair>, request: ScanRequestView) -> Seq<Seq<DuckvalueView>> {
    limited(kept_rows(m, request), request.limit).map_values(
        |r: Row| project(r.1, r.2, projected_columns(request.projection)),
    )
}

/// The error for a scan handle that is not open.
pub open spec fn unknown_scan(scan: u32) -> DuckerrorView {
    DuckerrorView::Invalidstate(
        "synthetic-storage: unknown scan handle "@ + text::decimal(scan as nat),
    )
}

/// Why a call on an open scan is refused, if it is.
pub open spec fn scan_call_refusal(st: StateView, handle: u32, scan: u32) -> Option<
    DuckerrorView,
> {
    match checks::handle_refusal(handle) {
        Some(why) => Some(why),
        None => if st.scans.contains_key(scan) {
            None
        } else {
            Some(unknown_scan(scan))
        },
    }
}

/// Where a cursor stands after at most `max_rows` more rows.
pub open spec fn advanced(c: CursorView, max_rows: u32) -> nat {
    if c.pos + max_rows <= c.rows.len() {
        c.pos + max_rows as nat
    } else {
        c.rows.len()
    }
}

/// The rows that a cursor hands out next, at most `max_rows` of them.
pub open spec fn batch(c: CursorView, max_rows: u32) -> Seq<Seq<DuckvalueView>> {
    c.rows.subrange(c.pos as int, advanced(c, max_rows) as int)
}

/// The state after an attach.
pub open spec fn after_attach(st: StateView, handle: u32) -> StateView {
    if checks::handle_refusal(handle) is Some {
        st
    } else {
        StateView { attached: true, ..st }
    }
}

/// The state after a detach: rows and table stay.
pub open spec fn after_detach(st: StateView, handle: u32, catalog: u32) -> StateView {
    if checks::catalog_refusal(handle, catalog) is Some {
        st
    } else {
        StateView { attached: false, ..st }
    }
}

/// The state after a scan is opened: a new cursor stands before the first of
/// the rows that are visible now.
pub open spec fn after_scan_open(
    st: StateView,
    handle: u32,
    catalog: u32,
    request: ScanRequestView,
) -> StateView {
    if scan_refusal(st, handle, catalog, request) is Some {
        st
    } else {
        let id = next_handle(st.next_scan);
        let cursor = CursorView { rows: scanned(st.visible().rows, request), pos: 0 };
        StateView { next_scan: id, scans: st.scans.insert(id, cursor), ..st }
    }
}

/// The state after rows of a scan are handed out: its cursor has moved on.
pub open spec fn after_scan_next(
    st: StateView,
    handle: u32,
    scan: u32,
    max_rows: u32,
) -> StateView {
    if scan_call_refusal(st, handle, scan) is Some {
        st
    } else {
        let c = st.scans[scan];
        let moved = CursorView { pos: advanced(c, max_rows), ..c };
        StateView { scans: st.scans.insert(scan, moved), ..st }
    }
}

/// The state after a scan is closed.
pub open spec fn after_scan_close(st: StateView, handle: u32, scan: u32) -> StateView {
    if checks::handle_refusal(handle) is Some {
        st
    } else {
        StateView { scans: st.scans.remove(scan), ..st }
    }
}

/// The handle that follows `last`.
pub(crate) fn handle_after(last: u32) -> (r: u32)
    ensures
        r == next_handle(last),
{
    let next = last.wrapping_add(1);
    if next < 1 {
        1
    } else {
        next
    }
}

/// The schema of the table.
pub fn kv_schema() -> (r: Vec<Columndef>)
    ensures
        columns(r@) == schema(),
{
    let mut defs: Vec<Columndef> = Vec::new();
    defs.push(Columndef { name: "key".to_string(), logical: Logicaltype::Text });
    defs.push(Columndef { name: "value".to_string(), logical: Logicaltype::Text });
    assert(columns(defs@) =~= schema());
    defs
}

/// The columns that `projection` asks for, or the refusal of the first index
/// outside the schema.
fn checked_projection(projection: &Vec<u32>) -> (r: Result<Vec<u32>, Duckerror>)
    ensures
        match projection_refusal(projection@) {
            Some(why) => checks::refuses(r, why),
            None => r matches Ok(cols) && {
                &&& cols@ == projected_columns(projection@)
                &&& forall|i: int| 0 <= i < cols@.len() ==> cols@[i] < 2
            },
        },
{
    let mut cols: Vec<u32> = Vec::new();
    if projection.len() == 0 {
        cols.push(0);
        cols.push(1);
        assert(cols@ =~= projected_columns(projection@));
        return Ok(cols);
    }
    let mut i: usize = 0;
    while i < projection.len()
        invariant
            i <= projection.len(),
            cols@ == projection@.take(i as int),
            forall|j: int| 0 <= j < i ==> projection@[j] < 2,
        decreases projection.len() - i,
    {
        let column = projection[i];
        if column >= 2 {
            let mut m = "synthetic-storage: projection index ".to_string();
            text::append_decimal(&mut m, column as u64);
            m.append(" out of range (schema has 2 cols)");
            assert(first_outside(projection@, i as int));
            return Err(Duckerror::Invalidargument(m));
        }
        cols.push(column);
        i = i + 1;
        assert(projection@.take(i as int) =~= projection@.take(i - 1).push(column));
    }
    assert(projection@.take(i as int) =~= projection@);
    Ok(cols)
}

/// The cells of the row `(k, v)` in the columns `cols`.
fn project_row(k: &String, v: &String, cols: &Vec<u32>) -> (r: Vec<Duckvalue>)
    ensures
        types::cells(r@) == project(k@, v@, cols@),
{
    let mut out: Vec<Duckvalue> = Vec::new();
    let mut i: usize = 0;
    while i < cols.len()
        invariant
            i <= cols.len(),
            out@.len() == i,
            forall|j: int| 0 <= j < i ==> (#[trigger] out@[j])@ == project(k@, v@, cols@)[j],
        decreases cols.len() - i,
    {
        if cols[i] == 0 {
            out.push(Duckvalue::Text(k.clone()));
        } else {
            out.push(Duckvalue::Text(v.clone()));
        }
        i = i + 1;
    }
    assert(types::cells(out@) =~= project(k@, v@, cols@));
    out
}

/// What a scan of `store` returns.
fn scan_store(store: &KvRows, request: &ScanRequest, cols: &Vec<u32>) -> (r: Vec<Vec<Duckvalue>>)
    requires
        cols@ == projected_columns(request@.projection),
    ensures
        types::grid(r@) == scanned(store@.rows, request@),
{
    let src = store.ordered();
    let limit: usize = match request.limit {
        Some(n) => #[verifier::truncate] (n as usize),
        None => usize::MAX,
    };
    let ghost list = rows::listing(store@.rows);
    let ghost keep = |r: Row| filter::passes_all(r.1, r.2, request@.filters);
    let ghost show = |r: Row| project(r.1, r.2, cols@);
    let ghost budget = row_budget(limit);
    let mut out: Vec<Vec<Duckvalue>> = Vec::new();
    let mut i: usize = 0;
    proof {
        reveal(Seq::filter);
        assert(list.take(0) =~= Seq::empty());
        assert(types::grid(out@) =~= list.take(0).filter(keep).map_values(show));
    }
    while i < src.len()
        invariant
            src@.map_values(|x: (i64, String, String)| rows::row(x)) == list,
            list == rows::listing(store@.rows),
            keep == (|r: Row| filter::passes_all(r.1, r.2, request@.filters)),
            show == (|r: Row| project(r.1, r.2, cols@)),
            cols@ == projected_columns(request@.projection),
            match request.limit {
                Some(n) => limit == n as usize,
                None => limit == usize::MAX,
            },
            budget == row_budget(limit),
            i <= src.len(),
            out@.len() < budget,
            types::grid(out@) == list.take(i as int).filter(keep).map_values(show),
        decreases src.len() - i,
    {
        let ghost before = out@;
        let ghost r = list[i as int];
        proof {
            reveal(Seq::filter);
            assert(list.take(i + 1).drop_last() =~= list.take(i as int));
            assert(list.take(i + 1).last() == r);
        }
        let k = &src[i].1;
        let v = &src[i].2;
        i = i + 1;
        if filter::eval_filters(k.as_str(), v.as_str(), &request.filters) {
            let cells = project_row(k, v, cols);
            out.push(cells);
            assert(types::grid(out@) =~= types::grid(before).push(show(r)));
            assert(list.take(i as int).filter(keep).map_values(show) =~= list.take(
                i - 1,
            ).filter(keep).map_values(show).push(show(r)));
            if out.len() >= limit {
                proof {
                    let kept = list.filter(keep);
                    let part = list.take(i as int).filter(keep);
                    lemma_filter_prefix(list, keep, i as int);
                    assert(part.len() == types::grid(out@).len());
                    if kept.len() <= part.len() {
                        assert(kept =~= part);
                    } else {
                        assert(kept.take(part.len() as int) =~= part);
                    }
                }
                return out;
            }
        }
    }
    assert(list.take(i as int) =~= list);
    assert(types::grid(out@).len() == list.filter(keep).len());
    out
}

/// Filtering the first `n` items keeps the first items of filtering them all.
proof fn lemma_filter_prefix<A>(s: Seq<A>, p: spec_fn(A) -> bool, n: int)
    requires
        0 <= n <= s.len(),
    ensures
        s.filter(p).len() <= s.len(),
        s.take(n).filter(p).len() <= s.filter(p).len(),
        s.filter(p).take(s.take(n).filter(p).len() as int) == s.take(n).filter(p),
{
    s.lemma_filter_len(p);
    assert(s =~= s.take(n) + s.skip(n));
    Seq::filter_distributes_over_add(s.take(n), s.skip(n), p);
    assert(s.filter(p).take(s.take(n).filter(p).len() as int) =~= s.take(n).filter(p));
}

/// The refusal of a scan handle that is not open.
fn refuse_scan(scan: u32) -> (r: Duckerror)
    ensures
        r@ == unknown_scan(scan),
{
    let mut m = "synthetic-storage: unknown scan handle ".to_string();
    text::append_decimal(&mut m, scan as u64);
    Duckerror::Invalidstate(m)
}

/// A copy of one row.
fn row_copy(row: &Vec<Duckvalue>) -> (r: Vec<Duckvalue>)
    ensures
        types::cells(r@) == types::cells(row@),
{
    let mut out: Vec<Duckvalue> = Vec::new();
    let mut i: usize = 0;
    while i < row.len()
        invariant
            i <= row.len(),
            out@.len() == i,
            forall|j: int| 0 <= j < i ==> (#[trigger] out@[j])@ == row@[j]@,
        decreases row.len() - i,
    {
        out.push(row[i].clone());
        i = i + 1;
    }
    assert(types::cells(out@) =~= types::cells(row@));
    out
}

/// Copies of the rows from index `start` up to `end`.
fn rows_between(all: &Vec<Vec<Duckvalue>>, start: usize, end: usize) -> (r: Vec<Vec<Duckvalue>>)
    requires
        start <= end <= all.len(),
    ensures
        types::grid(r@) == types::grid(all@).subrange(start as int, end as int),
{
    let mut out: Vec<Vec<Duckvalue>> = Vec::new();
    let mut i: usize = start;
    while i < end
        invariant
            start <= i <= end <= all.len(),
            out@.len() == i - start,
            forall|j: int|
                0 <= j < out@.len() ==> types::cells((#[trigger] out@[j])@) == types::grid(
                    all@,
                )[start + j],
        decreases end - i,
    {
        out.push(row_copy(&all[i]));
        i = i + 1;
    }
    assert(types::grid(out@) =~= types::grid(all@).subrange(start as int, end as int));
    out
}

impl Component {
    /// Attaches the one catalog. Repeated attaches share it.
    pub fn storage_attach(
        st: &mut KvState,
        handle: u32,
        _dsn: String,
        _options: Vec<(String, String)>,
    ) -> (r: Result<u32, Duckerror>)
        ensures
            match checks::handle_refusal(handle) {
                Some(why) => checks::refuses(r, why),
                None => r == Ok::<u32, Duckerror>(CATALOG_HANDLE),
            },
            final(st)@ == after_attach(old(st)@, handle),
            old(st).wf() ==> final(st).wf(),
    {
        checks::require_handle(handle)?;
        st.attached = true;
        Ok(CATALOG_HANDLE)
    }

    /// Accepts a staged blob and ignores it: the store keeps nothing on disk.
    pub fn attach_blob(handle: u32, _dsn: String, _bytes: Vec<u8>) -> (r: Result<(), Duckerror>)
        ensures
            match checks::handle_refusal(handle) {
                Some(why) => checks::refuses(r, why),
                None => r is Ok,
            },
    {
        checks::require_handle(handle)?;
        Ok(())
    }

    /// The tables of the catalog: the served one, once it has been created.
    pub fn storage_list_tables(st: &KvState, handle: u32, catalog: u32) -> (r: Result<
        Vec<String>,
        Duckerror,
    >)
        ensures
            match checks::catalog_refusal(handle, catalog) {
                Some(why) => checks::refuses(r, why),
                None => r matches Ok(names) && names@.map_values(|n: String| n@) == listed_tables(
                    st@,
                ),
            },
    {
        checks::require_handle(handle)?;
        checks::require_catalog(catalog)?;
        let mut names: Vec<String> = Vec::new();
        if st.created {
            names.push(TABLE_NAME.to_string());
            assert(names@.map_values(|n: String| n@) =~= seq![TABLE_NAME@]);
        }
        assert(!st.created ==> names@.map_values(|n: String| n@) =~= Seq::empty());
        Ok(names)
    }

    /// The columns of a table: none, if the table is not served or has not
    /// been created. This is no error, so that the engine can ask whether a
    /// name is free.
    pub fn storage_table_columns(st: &KvState, handle: u32, catalog: u32, table: String) -> (r:
        Result<Vec<Columndef>, Duckerror>)
        ensures
            match checks::catalog_refusal(handle, catalog) {
                Some(why) => checks::refuses(r, why),
                None => r matches Ok(defs) && columns(defs@) == described_columns(st@, table@),
            },
    {
        checks::require_handle(handle)?;
        checks::require_catalog(catalog)?;
        if !st.created || !text::text_eq(table.as_str(), TABLE_NAME) {
            let none: Vec<Columndef> = Vec::new();
            assert(columns(none@) =~= Seq::empty());
            return Ok(none);
        }
        Ok(kv_schema())
    }

    /// Opens a scan of the rows that are visible now. What happens to the
    /// rows later does not change what the scan returns.
    pub fn storage_scan_open(
        st: &mut KvState,
        handle: u32,
        catalog: u32,
        request: ScanRequest,
    ) -> (r: Result<u32, Duckerror>)
        ensures
            match scan_refusal(old(st)@, handle, catalog, request@) {
                Some(why) => checks::refuses(r, why),
                None => r == Ok::<u32, Duckerror>(next_handle(old(st)@.next_scan)),
            },
            final(st)@ == after_scan_open(old(st)@, handle, catalog, request@),
            old(st).wf() ==> final(st).wf(),
    {
        checks::require_handle(handle)?;
        checks::require_catalog(catalog)?;
        checks::require_table(st, request.table.as_str())?;
        let cols = checked_projection(&request.projection)?;
        let found = scan_store(visible_view(st), &request, &cols);
        let id = handle_after(st.next_scan);
        st.next_scan = id;
        let cursor = Cursor { rows: found, pos: 0 };
        let ghost scans = st.scans@.insert(id, cursor).map_values(|c: Cursor| c@);
        assert(scans =~= old(st)@.scans.insert(id, cursor@));
        st.scans.insert(id, cursor);
        Ok(id)
    }

    /// The next rows of a scan, `max_rows` of them or as many as are left.
    pub fn storage_scan_next(st: &mut KvState, handle: u32, scan: u32, max_rows: u32) -> (r: Result<
        Vec<Vec<Duckvalue>>,
        Duckerror,
    >)
        requires
            old(st)@.scans.contains_key(scan) ==> old(st)@.scans[scan].wf(),
        ensures
            match scan_call_refusal(old(st)@, handle, scan) {
                Some(why) => checks::refuses(r, why),
                None => r matches Ok(rows) && types::grid(rows@) == batch(
                    old(st)@.scans[scan],
                    max_rows,
                ),
            },
            final(st)@ == after_scan_next(old(st)@, handle, scan, max_rows),
            old(st).wf() ==> final(st).wf(),
    {
        checks::require_handle(handle)?;
        match st.scans.remove(&scan) {
            None => {
                assert(st@.scans =~= old(st)@.scans);
                Err(refuse_scan(scan))
            },
            Some(cur) => {
                let mut cur = cur;
                assert(cur@ == old(st)@.scans[scan]);
                let left = cur.rows.len() - cur.pos;
                let end: usize = if max_rows as usize <= left {
                    cur.pos + max_rows as usize
                } else {
                    cur.rows.len()
                };
                let batch = rows_between(&cur.rows, cur.pos, end);
                cur.pos = end;
                let ghost moved = cur@;
                st.scans.insert(scan, cur);
                assert(st@.scans =~= old(st)@.scans.insert(scan, moved));
                Ok(batch)
            },
        }
    }

    /// Closes a scan, and says whether it was open.
    pub fn storage_scan_close(st: &mut KvState, handle: u32, scan: u32) -> (r: Result<
        bool,
        Duckerror,
    >)
        ensures
            match checks::handle_refusal(handle) {
                Some(why) => checks::refuses(r, why),
                None => r == Ok::<bool, Duckerror>(old(st)@.scans.contains_key(scan)),
            },
            final(st)@ == after_scan_close(old(st)@, handle, scan),
            old(st).wf() ==> final(st).wf(),
    {
        checks::require_handle(handle)?;
        let was_open = st.scans.remove(&scan).is_some();
        assert(st@.scans =~= old(st)@.scans.remove(scan));
        Ok(was_open)
    }

    /// Detaches the catalog, and says whether it was attached. The rows and
    /// the table stay, for the next attach to find.
    pub fn storage_detach(st: &mut KvState, handle: u32, catalog: u32) -> (r: Result<
        bool,
        Duckerror,
    >)
        ensures
            match checks::catalog_refusal(handle, catalog) {
                Some(why) => checks::refuses(r, why),
                None => r == Ok::<bool, Duckerror>(old(st)@.attached),
            },
            final(st)@ == after_detach(old(st)@, handle, catalog),
            old(st).wf() ==> final(st).wf(),
    {
        checks::require_handle(handle)?;
        checks::require_catalog(catalog)?;
        let was = st.attached;
        st.attached = false;
        Ok(was)
    }
}

} // verus!
