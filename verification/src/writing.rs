//! The write side: transactions, creating the table, and changing its rows.
//! A transaction works on a copy of the committed rows, which a commit puts in
//! their place and a rollback drops.
use vstd::prelude::*;
use vstd::string::StringExecFns;

use crate::checks;
use crate::checks::TABLE_NAME;
use crate::guest::Component;
use crate::reading;
use crate::rows;
use crate::rows::{KvRows, Pair, RowsView};
use crate::state::{current_view_mut, KvState, StateView};
use crate::text;
use crate::types;
use crate::types::{Columndef, Duckerror, DuckerrorView, Duckvalue, DuckvalueView};

verus! {

/// The message, but for the number, for an inserted row of the wrong width.
pub const INSERT_WIDTH: &'static str =
    "synthetic-storage: kv_store INSERT expects 2 columns, got ";

/// The message, but for the number, for an updated row of the wrong width.
pub const UPDATE_WIDTH: &'static str =
    "synthetic-storage: kv_store UPDATE expects 2 columns, got ";

/// The error for a transaction while another is open.
pub open spec fn nested_txn() -> DuckerrorView {
    DuckerrorView::Invalidstate("synthetic-storage: nested transaction on same catalog"@)
}

/// Why a transaction cannot be opened, if it cannot.
pub open spec fn begin_refusal(st: StateView, handle: u32, catalog: u32) -> Option<DuckerrorView> {
    match checks::catalog_refusal(handle, catalog) {
        Some(why) => Some(why),
        None => if st.active_txn is Some {
            Some(nested_txn())
        } else {
            None
        },
    }
}

/// The state after a transaction is opened: it sees the committed rows.
pub open spec fn after_begin(st: StateView, handle: u32, catalog: u32) -> StateView {
    if begin_refusal(st, handle, catalog) is Some {
        st
    } else {
        let txn = reading::next_handle(st.next_txn);
        StateView { next_txn: txn, active_txn: Some(txn), shadow: Some(st.committed), ..st }
    }
}

/// The state after a commit: the transaction's rows are the committed ones.
pub open spec fn after_commit(st: StateView, handle: u32, txn: u32) -> StateView {
    if checks::transaction_refusal(st, handle, txn) is Some {
        st
    } else {
        StateView { committed: st.visible(), shadow: None, active_txn: None, ..st }
    }
}

/// The state after a rollback: the transaction's rows are gone.
pub open spec fn after_rollback(st: StateView, handle: u32, txn: u32) -> StateView {
    if checks::transaction_refusal(st, handle, txn) is Some {
        st
    } else {
        StateView { shadow: None, active_txn: None, ..st }
    }
}

/// Why the table cannot be created, if it cannot.
pub open spec fn create_refusal(st: StateView, handle: u32, txn: u32, table: Seq<char>) -> Option<
    DuckerrorView,
> {
    match checks::transaction_refusal(st, handle, txn) {
        Some(why) => Some(why),
        None => if table != TABLE_NAME@ {
            Some(checks::unknown_table(table))
        } else {
            None
        },
    }
}

/// The error for a row of the wrong width, `message` being all but the number.
pub open spec fn wrong_width(message: Seq<char>, width: nat) -> DuckerrorView {
    DuckerrorView::Invalidargument(message + text::decimal(width))
}

/// The key and value that a row is stored as, if it can be stored.
pub open spec fn stored_pair(row: Seq<DuckvalueView>) -> Option<Pair> {
    if row.len() != 2 {
        None
    } else {
        match (checks::stored_text(row[0]), checks::stored_text(row[1])) {
            (Some(k), Some(v)) => Some((k, v)),
            _ => None,
        }
    }
}

/// The error for a row that cannot be stored: for its width, else for its
/// first cell that is neither text nor NULL.
pub open spec fn row_error(row: Seq<DuckvalueView>, width_message: Seq<char>) -> DuckerrorView {
    if row.len() != 2 {
        wrong_width(width_message, row.len())
    } else if row[0] is Other {
        checks::not_text(row[0]->Other_0)
    } else {
        checks::not_text(row[1]->Other_0)
    }
}

/// How many rows can be stored before the first that cannot.
pub open spec fn storable(rows: Seq<Seq<DuckvalueView>>) -> nat
    decreases rows.len(),
{
    if rows.len() == 0 {
        0
    } else {
        let n = storable(rows.drop_last());
        if n == rows.len() - 1 && stored_pair(rows.last()) is Some {
            n + 1
        } else {
            n
        }
    }
}

/// What the rows before the first that cannot be stored are stored as.
pub open spec fn stored_pairs(rows: Seq<Seq<DuckvalueView>>) -> Seq<Pair> {
    rows.take(storable(rows) as int).map_values(|row: Seq<DuckvalueView>| stored_pair(row)->0)
}

/// The rowid that follows `last`: one more, and 1 after the greatest or after a
/// negative one.
pub open spec fn next_rowid(last: i64) -> i64 {
    if 0 <= last < i64::MAX {
        (last + 1) as i64
    } else {
        1
    }
}

/// `rows` with `pairs` added in turn, each under the next rowid.
pub open spec fn inserted(rows: RowsView, pairs: Seq<Pair>) -> RowsView
    decreases pairs.len(),
{
    if pairs.len() == 0 {
        rows
    } else {
        let before = inserted(rows, pairs.drop_last());
        let id = next_rowid(before.next_rowid);
        RowsView { rows: before.rows.insert(id, pairs.last()), next_rowid: id }
    }
}

/// `m` with each of `pairs` in turn put under the rowid at the same place.
pub open spec fn assigned(m: Map<i64, Pair>, ids: Seq<i64>, pairs: Seq<Pair>) -> Map<i64, Pair>
    decreases pairs.len(),
{
    if pairs.len() == 0 {
        m
    } else {
        assigned(m, ids, pairs.drop_last()).insert(ids[pairs.len() - 1], pairs.last())
    }
}

/// How many of `ids` already name a row, in `m` or by an earlier place.
pub open spec fn already_there(m: Map<i64, Pair>, ids: Seq<i64>) -> nat
    decreases ids.len(),
{
    if ids.len() == 0 {
        0
    } else {
        already_there(m, ids.drop_last()) + if m.contains_key(ids.last())
            || ids.drop_last().contains(ids.last()) {
            1nat
        } else {
            0nat
        }
    }
}

/// The error for an update with unequal numbers of rowids and rows.
pub open spec fn length_mismatch(ids: nat, rows: nat) -> DuckerrorView {
    DuckerrorView::Invalidargument(
        "synthetic-storage: UPDATE rowids ("@ + text::decimal(ids) + ") / rows ("@ + text::decimal(
            rows,
        ) + ") length mismatch"@,
    )
}

/// Why an update is refused before any row is looked at, if it is.
pub open spec fn update_refusal(
    st: StateView,
    handle: u32,
    txn: u32,
    table: Seq<char>,
    ids: nat,
    rows: nat,
) -> Option<DuckerrorView> {
    match checks::handle_refusal(handle) {
        Some(why) => Some(why),
        None => if ids != rows {
            Some(length_mismatch(ids, rows))
        } else {
            checks::write_refusal(st, handle, txn, table)
        },
    }
}

/// The state after the table is created.
pub open spec fn after_create(st: StateView, handle: u32, txn: u32, table: Seq<char>) -> StateView {
    if create_refusal(st, handle, txn, table) is Some {
        st
    } else {
        StateView { created: true, ..st }
    }
}

/// The state after an insert: the rows before the first that cannot be stored
/// have been added.
pub open spec fn after_insert(
    st: StateView,
    handle: u32,
    txn: u32,
    table: Seq<char>,
    rows: Seq<Seq<DuckvalueView>>,
) -> StateView {
    if checks::write_refusal(st, handle, txn, table) is Some {
        st
    } else {
        st.with_visible(inserted(st.visible(), stored_pairs(rows)))
    }
}

/// The state after a delete: no row is left under the rowids.
pub open spec fn after_delete(
    st: StateView,
    handle: u32,
    txn: u32,
    table: Seq<char>,
    ids: Seq<i64>,
) -> StateView {
    if checks::write_refusal(st, handle, txn, table) is Some {
        st
    } else {
        let before = st.visible();
        st.with_visible(RowsView { rows: before.rows.remove_keys(ids.to_set()), ..before })
    }
}

/// The state after an update: the rows before the first that cannot be stored
/// stand under their rowids.
pub open spec fn after_update(
    st: StateView,
    handle: u32,
    txn: u32,
    table: Seq<char>,
    ids: Seq<i64>,
    rows: Seq<Seq<DuckvalueView>>,
) -> StateView {
    if update_refusal(st, handle, txn, table, ids.len(), rows.len()) is Some {
        st
    } else {
        let before = st.visible();
        st.with_visible(
            RowsView { rows: assigned(before.rows, ids, stored_pairs(rows)), ..before },
        )
    }
}

/// The rowid that follows `last`.
fn rowid_after(last: i64) -> (r: i64)
    ensures
        r == next_rowid(last),
{
    let next = last.wrapping_add(1);
    if next < 1 {
        1
    } else {
        next
    }
}

/// Accepts an update with as many rowids as rows.
pub fn require_equal_lengths(rowids: usize, rows: usize) -> (r: Result<(), Duckerror>)
    ensures
        if rowids == rows {
            r is Ok
        } else {
            checks::refuses(r, length_mismatch(rowids as nat, rows as nat))
        },
{
    if rowids == rows {
        Ok(())
    } else {
        let mut m = "synthetic-storage: UPDATE rowids (".to_string();
        text::append_decimal(&mut m, rowids as u64);
        m.append(") / rows (");
        text::append_decimal(&mut m, rows as u64);
        m.append(") length mismatch");
        Err(Duckerror::Invalidargument(m))
    }
}

/// The key and value that a row is stored as.
fn row_pair(row: &Vec<Duckvalue>, width_message: &str) -> (r: Result<(String, String), Duckerror>)
    ensures
        match stored_pair(types::cells(row@)) {
            Some(kv) => r matches Ok(p) && rows::pair(p) == kv,
            None => checks::refuses(r, row_error(types::cells(row@), width_message@)),
        },
{
    if row.len() != 2 {
        let mut m = width_message.to_string();
        text::append_decimal(&mut m, row.len() as u64);
        return Err(Duckerror::Invalidargument(m));
    }
    let key = checks::dv_to_text(&row[0])?;
    let value = checks::dv_to_text(&row[1])?;
    Ok((key, value))
}

impl KvRows {
    /// Adds a row under the next rowid.
    fn push_row(&mut self, kv: (String, String))
        ensures
            final(self)@ == (RowsView {
                rows: old(self)@.rows.insert(
                    next_rowid(old(self)@.next_rowid),
                    rows::pair(kv),
                ),
                next_rowid: next_rowid(old(self)@.next_rowid),
            }),
    {
        let id = rowid_after(self.next_rowid);
        self.next_rowid = id;
        self.rows.insert(id, kv);
        assert(self@.rows =~= old(self)@.rows.insert(id, rows::pair(kv)));
    }

    /// Puts a row under `id`, and says whether it replaced one.
    fn put_row(&mut self, id: i64, kv: (String, String)) -> (r: bool)
        ensures
            r == old(self)@.rows.contains_key(id),
            final(self)@ == (RowsView {
                rows: old(self)@.rows.insert(id, rows::pair(kv)),
                ..old(self)@
            }),
    {
        let replaced = self.rows.insert(id, kv).is_some();
        assert(self@.rows =~= old(self)@.rows.insert(id, rows::pair(kv)));
        replaced
    }

    /// Removes the row under `id`, and says whether there was one.
    fn drop_row(&mut self, id: i64) -> (r: bool)
        ensures
            r == old(self)@.rows.contains_key(id),
            final(self)@ == (RowsView { rows: old(self)@.rows.remove(id), ..old(self)@ }),
    {
        let was_there = self.rows.remove(&id).is_some();
        assert(self@.rows =~= old(self)@.rows.remove(id));
        was_there
    }

    /// Adds rows in turn, and says how many, or refuses at the first that
    /// cannot be stored.
    fn insert_all(&mut self, rows: &Vec<Vec<Duckvalue>>) -> (r: Result<u64, Duckerror>)
        ensures
            ({
                let given = types::grid(rows@);
                let n = storable(given);
                &&& final(self)@ == inserted(old(self)@, stored_pairs(given))
                &&& if n == given.len() {
                    r matches Ok(count) && count == n
                } else {
                    checks::refuses(r, row_error(given[n as int], INSERT_WIDTH@))
                }
            }),
    {
        let ghost given = types::grid(rows@);
        let mut count: u64 = 0;
        let mut i: usize = 0;
        assert(given.take(0) =~= Seq::empty());
        assert(stored_pairs(given.take(0)) =~= Seq::empty());
        while i < rows.len()
            invariant
                given == types::grid(rows@),
                i <= rows.len(),
                count == i,
                storable(given.take(i as int)) == i,
                self@ == inserted(old(self)@, stored_pairs(given.take(i as int))),
            decreases rows.len() - i,
        {
            proof {
                assert(given[i as int] == types::cells(rows[i as int]@));
                if stored_pair(given[i as int]) is Some {
                    lemma_storable_step(given, i as int);
                    assert(stored_pairs(given.take(i + 1)).drop_last() =~= stored_pairs(
                        given.take(i as int),
                    ));
                } else {
                    lemma_storable_stops(given, i as int);
                    assert(given.take(i as int).take(i as int) =~= given.take(i as int));
                }
            }
            let kv = row_pair(&rows[i], INSERT_WIDTH)?;
            self.push_row(kv);
            count = count + 1;
            i = i + 1;
        }
        assert(given.take(i as int) =~= given);
        Ok(count)
    }

    /// Puts rows in turn under the rowids at the same places, and says how
    /// many replaced a row, or refuses at the first that cannot be stored.
    fn update_all(&mut self, rowids: &Vec<i64>, rows: &Vec<Vec<Duckvalue>>) -> (r: Result<
        u64,
        Duckerror,
    >)
        requires
            rowids@.len() == rows@.len(),
        ensures
            ({
                let given = types::grid(rows@);
                let n = storable(given);
                &&& final(self)@ == (RowsView {
                    rows: assigned(old(self)@.rows, rowids@, stored_pairs(given)),
                    ..old(self)@
                })
                &&& if n == given.len() {
                    r matches Ok(count) && count == already_there(old(self)@.rows, rowids@)
                } else {
                    checks::refuses(r, row_error(given[n as int], UPDATE_WIDTH@))
                }
            }),
    {
        let ghost given = types::grid(rows@);
        let mut count: u64 = 0;
        let mut i: usize = 0;
        assert(given.take(0) =~= Seq::empty());
        assert(stored_pairs(given.take(0)) =~= Seq::empty());
        assert(rowids@.take(0) =~= Seq::empty());
        while i < rows.len()
            invariant
                given == types::grid(rows@),
                rowids@.len() == rows@.len(),
                i <= rows.len(),
                count <= i,
                count == already_there(old(self)@.rows, rowids@.take(i as int)),
                storable(given.take(i as int)) == i,
                self@ == (RowsView {
                    rows: assigned(
                        old(self)@.rows,
                        rowids@,
                        stored_pairs(given.take(i as int)),
                    ),
                    ..old(self)@
                }),
            decreases rows.len() - i,
        {
            proof {
                let pairs = stored_pairs(given.take(i as int));
                assert(given[i as int] == types::cells(rows[i as int]@));
                lemma_assigned_dom(old(self)@.rows, rowids@, pairs);
                let earlier = rowids@.take(i as int);
                assert(rowids@.take(i + 1).drop_last() =~= earlier);
                assert(rowids@.take(i + 1).last() == rowids@[i as int]);
                assert(rowids@.take(pairs.len() as int) =~= earlier);
                assert(self@.rows.contains_key(rowids@[i as int]) <==> old(
                    self,
                )@.rows.contains_key(rowids@[i as int]) || earlier.contains(rowids@[i as int]));
                if stored_pair(given[i as int]) is Some {
                    lemma_storable_step(given, i as int);
                    assert(stored_pairs(given.take(i + 1)).drop_last() =~= pairs);
                } else {
                    lemma_storable_stops(given, i as int);
                    assert(given.take(i as int).take(i as int) =~= given.take(i as int));
                }
            }
            let kv = row_pair(&rows[i], UPDATE_WIDTH)?;
            if self.put_row(rowids[i], kv) {
                count = count + 1;
            }
            i = i + 1;
        }
        assert(given.take(i as int) =~= given);
        assert(rowids@.take(i as int) =~= rowids@);
        Ok(count)
    }

    /// Removes the rows under the rowids, and says how many there were.
    fn delete_all(&mut self, rowids: &Vec<i64>) -> (r: u64)
        ensures
            r == old(self)@.rows.dom().intersect(rowids@.to_set()).len(),
            final(self)@ == (RowsView {
                rows: old(self)@.rows.remove_keys(rowids@.to_set()),
                ..old(self)@
            }),
    {
        let ghost m = self@.rows;
        let mut count: u64 = 0;
        let mut i: usize = 0;
        proof {
            assert(m.dom() =~= self.rows@.dom());
            assert(rowids@.take(0).to_set() =~= Set::empty());
            assert(m.dom().intersect(rowids@.take(0).to_set()) =~= Set::empty());
            assert(m.remove_keys(rowids@.take(0).to_set()) =~= m);
        }
        while i < rowids.len()
            invariant
                m == old(self)@.rows,
                m.dom().finite(),
                i <= rowids.len(),
                count <= i,
                count == m.dom().intersect(rowids@.take(i as int).to_set()).len(),
                self@ == (RowsView {
                    rows: m.remove_keys(rowids@.take(i as int).to_set()),
                    ..old(self)@
                }),
            decreases rowids.len() - i,
        {
            let id = rowids[i];
            proof {
                let gone = rowids@.take(i as int).to_set();
                lemma_to_set_push(rowids@.take(i as int), id);
                assert(rowids@.take(i + 1) =~= rowids@.take(i as int).push(id));
                assert(m.remove_keys(gone).remove(id) =~= m.remove_keys(gone.insert(id)));
                if m.contains_key(id) && !gone.contains(id) {
                    assert(m.dom().intersect(gone.insert(id)) =~= m.dom().intersect(gone).insert(
                        id,
                    ));
                } else {
                    assert(m.dom().intersect(gone.insert(id)) =~= m.dom().intersect(gone));
                }
            }
            if self.drop_row(id) {
                count = count + 1;
            }
            i = i + 1;
        }
        assert(rowids@.take(i as int) =~= rowids@);
        count
    }
}

/// The items of a sequence with one more at its end.
proof fn lemma_to_set_push<A>(s: Seq<A>, a: A)
    ensures
        s.push(a).to_set() == s.to_set().insert(a),
{
    let t = s.push(a);
    assert forall|x: A| t.to_set().contains(x) <==> s.to_set().insert(a).contains(x) by {
        if s.contains(x) {
            let j = choose|j: int| 0 <= j < s.len() && s[j] == x;
            assert(t[j] == x);
        }
        assert(t[s.len() as int] == a);
    }
    assert(t.to_set() =~= s.to_set().insert(a));
}

impl Component {
    /// Opens a transaction on the committed rows. One can be open at a time.
    pub fn begin_transaction(st: &mut KvState, handle: u32, catalog: u32) -> (r: Result<
        u32,
        Duckerror,
    >)
        ensures
            match begin_refusal(old(st)@, handle, catalog) {
                Some(why) => checks::refuses(r, why),
                None => r == Ok::<u32, Duckerror>(reading::next_handle(old(st)@.next_txn)),
            },
            final(st)@ == after_begin(old(st)@, handle, catalog),
            old(st).wf() ==> final(st).wf(),
    {
        checks::require_handle(handle)?;
        checks::require_catalog(catalog)?;
        if st.active_txn.is_some() {
            return Err(
                Duckerror::Invalidstate(
                    "synthetic-storage: nested transaction on same catalog".to_string(),
                ),
            );
        }
        let txn = reading::handle_after(st.next_txn);
        st.next_txn = txn;
        st.active_txn = Some(txn);
        st.shadow = Some(st.committed.clone());
        Ok(txn)
    }

    /// Commits the open transaction: its rows become the committed ones.
    pub fn commit_transaction(st: &mut KvState, handle: u32, txn: u32) -> (r: Result<
        (),
        Duckerror,
    >)
        ensures
            match checks::transaction_refusal(old(st)@, handle, txn) {
                Some(why) => checks::refuses(r, why),
                None => r is Ok,
            },
            final(st)@ == after_commit(old(st)@, handle, txn),
            old(st).wf() ==> final(st).wf(),
    {
        checks::require_handle(handle)?;
        checks::require_txn(st, txn)?;
        if let Some(shadow) = st.shadow.take() {
            st.committed = shadow;
        }
        st.active_txn = None;
        Ok(())
    }

    /// Rolls the open transaction back: its rows are dropped.
    pub fn rollback_transaction(st: &mut KvState, handle: u32, txn: u32) -> (r: Result<
        (),
        Duckerror,
    >)
        ensures
            match checks::transaction_refusal(old(st)@, handle, txn) {
                Some(why) => checks::refuses(r, why),
                None => r is Ok,
            },
            final(st)@ == after_rollback(old(st)@, handle, txn),
            old(st).wf() ==> final(st).wf(),
    {
        checks::require_handle(handle)?;
        checks::require_txn(st, txn)?;
        st.shadow = None;
        st.active_txn = None;
        Ok(())
    }

    /// Creates the served table. Its schema is fixed: the columns asked for
    /// are not looked at.
    pub fn create_table(
        st: &mut KvState,
        handle: u32,
        txn: u32,
        table: String,
        _columns: Vec<Columndef>,
    ) -> (r: Result<(), Duckerror>)
        ensures
            match create_refusal(old(st)@, handle, txn, table@) {
                Some(why) => checks::refuses(r, why),
                None => r is Ok,
            },
            final(st)@ == after_create(old(st)@, handle, txn, table@),
            old(st).wf() ==> final(st).wf(),
    {
        checks::require_handle(handle)?;
        checks::require_txn(st, txn)?;
        if !text::text_eq(table.as_str(), TABLE_NAME) {
            return Err(checks::refuse_table(table.as_str()));
        }
        st.created = true;
        Ok(())
    }

    /// Inserts rows, and says how many. At the first row that cannot be stored
    /// the call refuses; the rows before it stay inserted.
    pub fn insert_rows(
        st: &mut KvState,
        handle: u32,
        txn: u32,
        table: String,
        rows: Vec<Vec<Duckvalue>>,
    ) -> (r: Result<u64, Duckerror>)
        ensures
            match checks::write_refusal(old(st)@, handle, txn, table@) {
                Some(why) => checks::refuses(r, why),
                None => {
                    let given = types::grid(rows@);
                    let n = storable(given);
                    if n == given.len() {
                        r matches Ok(count) && count == n
                    } else {
                        checks::refuses(r, row_error(given[n as int], INSERT_WIDTH@))
                    }
                },
            },
            final(st)@ == after_insert(old(st)@, handle, txn, table@, types::grid(rows@)),
            old(st).wf() ==> final(st).wf(),
    {
        checks::require_handle(handle)?;
        checks::require_txn(st, txn)?;
        checks::require_table(st, table.as_str())?;
        proof {
            lemma_inserted_wf(st@.visible(), stored_pairs(types::grid(rows@)));
        }
        current_view_mut(st).insert_all(&rows)
    }

    /// Deletes rows by rowid, and says how many there were. A rowid that names
    /// no row, or that has been named before, counts for nothing.
    pub fn delete_rows(
        st: &mut KvState,
        handle: u32,
        txn: u32,
        table: String,
        rowids: Vec<i64>,
    ) -> (r: Result<u64, Duckerror>)
        ensures
            match checks::write_refusal(old(st)@, handle, txn, table@) {
                Some(why) => checks::refuses(r, why),
                None => r matches Ok(count) && count == old(st)@.visible().rows.dom().intersect(
                    rowids@.to_set(),
                ).len(),
            },
            final(st)@ == after_delete(old(st)@, handle, txn, table@, rowids@),
            old(st).wf() ==> final(st).wf(),
    {
        checks::require_handle(handle)?;
        checks::require_txn(st, txn)?;
        checks::require_table(st, table.as_str())?;
        proof {
            let m = st@.visible().rows;
            let ids = rowids@.to_set();
            assert(m.remove_keys(ids).dom() =~= m.dom().difference(ids));
        }
        Ok(current_view_mut(st).delete_all(&rowids))
    }

    /// Puts rows under the rowids at the same places, and says how many of
    /// them replaced a row. At the first row that cannot be stored the call
    /// refuses; the rows before it stay put.
    pub fn update_rows(
        st: &mut KvState,
        handle: u32,
        txn: u32,
        table: String,
        rowids: Vec<i64>,
        rows: Vec<Vec<Duckvalue>>,
    ) -> (r: Result<u64, Duckerror>)
        ensures
            match update_refusal(
                old(st)@,
                handle,
                txn,
                table@,
                rowids@.len(),
                rows@.len(),
            ) {
                Some(why) => checks::refuses(r, why),
                None => {
                    let given = types::grid(rows@);
                    let n = storable(given);
                    if n == given.len() {
                        r matches Ok(count) && count == already_there(
                            old(st)@.visible().rows,
                            rowids@,
                        )
                    } else {
                        checks::refuses(r, row_error(given[n as int], UPDATE_WIDTH@))
                    }
                },
            },
            final(st)@ == after_update(
                old(st)@,
                handle,
                txn,
                table@,
                rowids@,
                types::grid(rows@),
            ),
            old(st).wf() ==> final(st).wf(),
    {
        checks::require_handle(handle)?;
        require_equal_lengths(rowids.len(), rows.len())?;
        checks::require_txn(st, txn)?;
        checks::require_table(st, table.as_str())?;
        proof {
            lemma_assigned_finite(st@.visible().rows, rowids@, stored_pairs(types::grid(rows@)));
        }
        current_view_mut(st).update_all(&rowids, &rows)
    }
}

/// No more rows can be stored than there are.
pub proof fn lemma_storable_bound(rows: Seq<Seq<DuckvalueView>>)
    ensures
        storable(rows) <= rows.len(),
    decreases rows.len(),
{
    if rows.len() > 0 {
        lemma_storable_bound(rows.drop_last());
    }
}

/// Storing stops at the first row that cannot be stored.
proof fn lemma_storable_stops(rows: Seq<Seq<DuckvalueView>>, i: int)
    requires
        0 <= i < rows.len(),
        storable(rows.take(i)) == i,
        stored_pair(rows[i]) is None,
    ensures
        storable(rows) == i,
    decreases rows.len(),
{
    if i == rows.len() - 1 {
        assert(rows.drop_last() =~= rows.take(i));
    } else {
        assert(rows.drop_last().take(i) =~= rows.take(i));
        lemma_storable_stops(rows.drop_last(), i);
    }
}

/// One more row that can be stored adds what it is stored as.
proof fn lemma_storable_step(rows: Seq<Seq<DuckvalueView>>, i: int)
    requires
        0 <= i < rows.len(),
        storable(rows.take(i)) == i,
        stored_pair(rows[i]) is Some,
    ensures
        storable(rows.take(i + 1)) == i + 1,
        stored_pairs(rows.take(i + 1)) == stored_pairs(rows.take(i)).push(stored_pair(rows[i])->0),
{
    assert(rows.take(i + 1).drop_last() =~= rows.take(i));
    assert(stored_pairs(rows.take(i + 1)) =~= stored_pairs(rows.take(i)).push(
        stored_pair(rows[i])->0,
    ));
}

/// Inserting keeps the rows finite and the counter from going negative.
pub proof fn lemma_inserted_wf(rows: RowsView, pairs: Seq<Pair>)
    ensures
        rows.wf() ==> inserted(rows, pairs).wf(),
    decreases pairs.len(),
{
    if pairs.len() > 0 {
        lemma_inserted_wf(rows, pairs.drop_last());
    }
}

/// Updating keeps the rows finite.
pub proof fn lemma_assigned_finite(m: Map<i64, Pair>, ids: Seq<i64>, pairs: Seq<Pair>)
    ensures
        m.dom().finite() ==> assigned(m, ids, pairs).dom().finite(),
    decreases pairs.len(),
{
    if pairs.len() > 0 {
        lemma_assigned_finite(m, ids, pairs.drop_last());
    }
}

/// The rows after an update are those before it and those that it names.
pub proof fn lemma_assigned_dom(m: Map<i64, Pair>, ids: Seq<i64>, pairs: Seq<Pair>)
    requires
        pairs.len() <= ids.len(),
    ensures
        forall|id: i64|
            assigned(m, ids, pairs).contains_key(id) <==> m.contains_key(id) || ids.take(
                pairs.len() as int,
            ).contains(id),
    decreases pairs.len(),
{
    if pairs.len() > 0 {
        let n = pairs.len() as int;
        lemma_assigned_dom(m, ids, pairs.drop_last());
        assert(ids.take(n) =~= ids.take(n - 1).push(ids[n - 1]));
        assert forall|id: i64|
            ids.take(n).contains(id) <==> ids.take(n - 1).contains(id) || id == ids[n - 1] by {
            let shorter = ids.take(n - 1);
            if shorter.contains(id) {
                let j = choose|j: int| 0 <= j < shorter.len() && shorter[j] == id;
                assert(ids.take(n)[j] == id);
            }
            assert(ids.take(n)[n - 1] == ids[n - 1]);
        }
    }
}

} // verus!
