//! The state of the backend: the committed rows, the open transaction and the
//! open scans.
use std::collections::{BTreeMap, HashMap};
use vstd::prelude::*;

use crate::rows::{KvRows, RowsView};
use crate::types;
use crate::types::{Duckvalue, DuckvalueView};

verus! {

/// An open scan: the rows as they were when it was opened, and how many of
/// them have been handed out.
pub struct Cursor {
    /// The rows, each in projection order.
    pub rows: Vec<Vec<Duckvalue>>,
    /// The index of the next row to hand out.
    pub pos: usize,
}

/// What a [`Cursor`] holds.
#[verifier::ext_equal]
pub struct CursorView {
    /// The rows, each in projection order.
    pub rows: Seq<Seq<DuckvalueView>>,
    /// The index of the next row to hand out.
    pub pos: nat,
}

impl View for Cursor {
    type V = CursorView;

    open spec fn view(&self) -> CursorView {
        CursorView { rows: types::grid(self.rows@), pos: self.pos as nat }
    }
}

/// The state of the backend.
pub struct KvState {
    /// The rows as of the last commit.
    pub committed: KvRows,
    /// The rows as the open transaction sees them, if one is open.
    pub shadow: Option<KvRows>,
    /// The transaction handle given out last, or 0.
    pub next_txn: u32,
    /// The handle of the open transaction, if one is open.
    pub active_txn: Option<u32>,
    /// Whether the table has ever been created.
    pub created: bool,
    /// Whether the catalog is attached.
    pub attached: bool,
    /// The open scans by handle.
    pub scans: HashMap<u32, Cursor>,
    /// The scan handle given out last, or 0.
    pub next_scan: u32,
}

/// What a [`KvState`] holds.
#[verifier::ext_equal]
pub struct StateView {
    /// The rows as of the last commit.
    pub committed: RowsView,
    /// The rows as the open transaction sees them, if one is open.
    pub shadow: Option<RowsView>,
    /// The transaction handle given out last, or 0.
    pub next_txn: u32,
    /// The handle of the open transaction, if one is open.
    pub active_txn: Option<u32>,
    /// Whether the table has ever been created.
    pub created: bool,
    /// Whether the catalog is attached.
    pub attached: bool,
    /// The open scans by handle.
    pub scans: Map<u32, CursorView>,
    /// The scan handle given out last, or 0.
    pub next_scan: u32,
}

/// The optional rows of a transaction.
pub open spec fn shadow_view(shadow: Option<KvRows>) -> Option<RowsView> {
    match shadow {
        Some(rows) => Some(rows@),
        None => None,
    }
}

impl View for KvState {
    type V = StateView;

    open spec fn view(&self) -> StateView {
        StateView {
            committed: self.committed@,
            shadow: shadow_view(self.shadow),
            next_txn: self.next_txn,
            active_txn: self.active_txn,
            created: self.created,
            attached: self.attached,
            scans: self.scans@.map_values(|c: Cursor| c@),
            next_scan: self.next_scan,
        }
    }
}

impl RowsView {
    /// There are finitely many rows, and the counter has not gone negative.
    pub open spec fn wf(self) -> bool {
        &&& self.rows.dom().finite()
        &&& self.next_rowid >= 0
    }
}

impl CursorView {
    /// The position lies within the rows or at their end.
    pub open spec fn wf(self) -> bool {
        self.pos <= self.rows.len()
    }
}

impl StateView {
    /// What holds of every state that the backend reaches: a transaction is
    /// open exactly while it has rows of its own, its handle is the last one
    /// given out, no handle is 0, and every cursor is within its rows.
    pub open spec fn wf(self) -> bool {
        &&& self.committed.wf()
        &&& self.shadow matches Some(rows) ==> rows.wf()
        &&& self.active_txn is Some <==> self.shadow is Some
        &&& self.active_txn matches Some(txn) ==> txn == self.next_txn && txn != 0
        &&& forall|id: u32| #[trigger] self.scans.contains_key(id) ==> id != 0 && self.scans[id].wf()
    }

    /// The rows that a read sees now: those of the open transaction, if there
    /// is one, else the committed rows.
    pub open spec fn visible(self) -> RowsView {
        match self.shadow {
            Some(rows) => rows,
            None => self.committed,
        }
    }

    /// This state with `rows` in place of what a read sees now.
    pub open spec fn with_visible(self, rows: RowsView) -> StateView {
        match self.shadow {
            Some(_) => StateView { shadow: Some(rows), ..self },
            None => StateView { committed: rows, ..self },
        }
    }
}

impl KvState {
    /// What holds of every state that the backend reaches.
    pub open spec fn wf(self) -> bool {
        self@.wf()
    }
}

impl RowsView {
    /// No rows, and no rowid given out.
    pub open spec fn empty() -> RowsView {
        RowsView { rows: Map::empty(), next_rowid: 0 }
    }
}

impl StateView {
    /// A backend that nothing has been done to.
    pub open spec fn empty() -> StateView {
        StateView {
            committed: RowsView::empty(),
            shadow: None,
            next_txn: 0,
            active_txn: None,
            created: false,
            attached: false,
            scans: Map::empty(),
            next_scan: 0,
        }
    }
}

impl Default for KvRows {
    fn default() -> (r: Self)
        ensures
            r@ == RowsView::empty(),
    {
        let r = KvRows { rows: BTreeMap::new(), next_rowid: 0 };
        assert(r@ =~= RowsView::empty());
        r
    }
}

impl Clone for KvRows {
    fn clone(&self) -> (r: Self)
        ensures
            r@ == self@,
    {
        KvRows { rows: self.rows.clone(), next_rowid: self.next_rowid }
    }
}

impl Default for KvState {
    fn default() -> (r: Self)
        ensures
            r@ == StateView::empty(),
            r.wf(),
    {
        let r = KvState {
            committed: KvRows::default(),
            shadow: None,
            next_txn: 0,
            active_txn: None,
            created: false,
            attached: false,
            scans: HashMap::new(),
            next_scan: 0,
        };
        assert(r@ =~= StateView::empty());
        r
    }
}

/// The rows that a write changes: those of the open transaction, if there is
/// one, else the committed rows.
pub fn current_view_mut(st: &mut KvState) -> (r: &mut KvRows)
    ensures
        (*r)@ == old(st)@.visible(),
        final(st)@ == old(st)@.with_visible((*final(r))@),
{
    match &mut st.shadow {
        Some(rows) => rows,
        None => &mut st.committed,
    }
}

/// The rows that a read sees now: those of the open transaction, if there is
/// one, else the committed rows.
pub fn visible_view(st: &KvState) -> (r: &KvRows)
    ensures
        r@ == st@.visible(),
{
    match &st.shadow {
        Some(rows) => rows,
        None => &st.committed,
    }
}

} // verus!
