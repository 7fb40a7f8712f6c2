//! The values that cross the host boundary, each with the mathematical value
//! that contracts speak of.
use vstd::prelude::*;

verus! {

/// A cell value. The store holds text, and reads NULL as empty text; of every
/// other host value it needs only the debug rendering, for its refusals.
#[derive(Debug, PartialEq, Eq)]
pub enum Duckvalue {
    /// SQL NULL.
    Null,
    /// Text.
    Text(String),
    /// Any other host value, by its debug rendering.
    Other(String),
}

/// What a [`Duckvalue`] stands for.
pub enum DuckvalueView {
    /// SQL NULL.
    Null,
    /// Text.
    Text(Seq<char>),
    /// Any other host value, by its debug rendering.
    Other(Seq<char>),
}

impl View for Duckvalue {
    type V = DuckvalueView;

    open spec fn view(&self) -> DuckvalueView {
        match self {
            Duckvalue::Null => DuckvalueView::Null,
            Duckvalue::Text(t) => DuckvalueView::Text(t@),
            Duckvalue::Other(t) => DuckvalueView::Other(t@),
        }
    }
}

impl Clone for Duckvalue {
    fn clone(&self) -> (r: Self)
        ensures
            r@ == self@,
    {
        match self {
            Duckvalue::Null => Duckvalue::Null,
            Duckvalue::Text(t) => Duckvalue::Text(t.clone()),
            Duckvalue::Other(t) => Duckvalue::Other(t.clone()),
        }
    }
}

/// The values of one row.
pub open spec fn cells(row: Seq<Duckvalue>) -> Seq<DuckvalueView> {
    row.map_values(|v: Duckvalue| v@)
}

/// The values of a list of rows.
pub open spec fn grid(rows: Seq<Vec<Duckvalue>>) -> Seq<Seq<DuckvalueView>> {
    rows.map_values(|row: Vec<Duckvalue>| cells(row@))
}

/// Why a call is refused, with a message for the user.
#[derive(Debug, PartialEq, Eq)]
pub enum Duckerror {
    /// The arguments cannot be served.
    Invalidargument(String),
    /// The call does not fit the current state.
    Invalidstate(String),
    /// The backend does not offer the function.
    Unsupported(String),
    /// The backend itself failed.
    Internal(String),
}

/// What a [`Duckerror`] says.
pub enum DuckerrorView {
    /// The arguments cannot be served.
    Invalidargument(Seq<char>),
    /// The call does not fit the current state.
    Invalidstate(Seq<char>),
    /// The backend does not offer the function.
    Unsupported(Seq<char>),
    /// The backend itself failed.
    Internal(Seq<char>),
}

impl View for Duckerror {
    type V = DuckerrorView;

    open spec fn view(&self) -> DuckerrorView {
        match self {
            Duckerror::Invalidargument(m) => DuckerrorView::Invalidargument(m@),
            Duckerror::Invalidstate(m) => DuckerrorView::Invalidstate(m@),
            Duckerror::Unsupported(m) => DuckerrorView::Unsupported(m@),
            Duckerror::Internal(m) => DuckerrorView::Internal(m@),
        }
    }
}

/// The type of a column.
#[derive(Debug, Clone, Copy, PartialEq, Eq, Structural)]
pub enum Logicaltype {
    /// TEXT.
    Text,
    /// Any type that the store does not serve.
    Other,
}

/// A column of a table.
#[derive(Debug, PartialEq, Eq)]
pub struct Columndef {
    /// The column's name.
    pub name: String,
    /// The column's type.
    pub logical: Logicaltype,
}

/// What a backend asks of the host.
#[derive(Debug, Clone, Copy, PartialEq, Eq, Structural)]
pub enum Capabilitykind {
    /// To serve a catalog, and so to stay instantiated for the session.
    Catalog,
}

/// What a backend says of itself when it is loaded.
#[derive(Debug, PartialEq, Eq)]
pub struct Loadresult {
    /// The ATTACH type that the backend serves.
    pub name: String,
    /// The backend's version.
    pub version: Option<String>,
    /// What the backend asks of the host.
    pub required: Vec<Capabilitykind>,
}

/// The comparison of a pushed-down filter.
#[derive(Debug, Clone, Copy, PartialEq, Eq, Structural)]
pub enum CompareOp {
    /// `=`
    Eq,
    /// `<>`
    Ne,
    /// `<`
    Lt,
    /// `<=`
    Le,
    /// `>`
    Gt,
    /// `>=`
    Ge,
    /// `IS NULL`
    IsNull,
    /// `IS NOT NULL`
    IsNotNull,
}

/// A pushed-down filter: a column, a comparison and a right-hand side.
#[derive(Debug, PartialEq, Eq)]
pub struct ScanFilter {
    /// The column's index in the schema.
    pub column: u32,
    /// The comparison.
    pub op: CompareOp,
    /// The right-hand side.
    pub value: Duckvalue,
}

/// What a [`ScanFilter`] asks.
pub struct ScanFilterView {
    /// The column's index in the schema.
    pub column: u32,
    /// The comparison.
    pub op: CompareOp,
    /// The right-hand side.
    pub value: DuckvalueView,
}

impl View for ScanFilter {
    type V = ScanFilterView;

    open spec fn view(&self) -> ScanFilterView {
        ScanFilterView { column: self.column, op: self.op, value: self.value@ }
    }
}

/// A request to scan a table.
#[derive(Debug, PartialEq, Eq)]
pub struct ScanRequest {
    /// The table's name.
    pub table: String,
    /// The columns to return, by index; empty for all of them.
    pub projection: Vec<u32>,
    /// The filters, all of which a row has to pass.
    pub filters: Vec<ScanFilter>,
    /// How many rows to return at most, where 0 counts as 1; none for all rows.
    pub limit: Option<u64>,
}

/// What a [`ScanRequest`] asks.
pub struct ScanRequestView {
    /// The table's name.
    pub table: Seq<char>,
    /// The columns to return, by index; empty for all of them.
    pub projection: Seq<u32>,
    /// The filters, all of which a row has to pass.
    pub filters: Seq<ScanFilterView>,
    /// How many rows to return at most, where 0 counts as 1; none for all rows.
    pub limit: Option<u64>,
}

impl View for ScanRequest {
    type V = ScanRequestView;

    open spec fn view(&self) -> ScanRequestView {
        ScanRequestView {
            table: self.table@,
            projection: self.projection@,
            filters: self.filters@.map_values(|f: ScanFilter| f@),
            limit: self.limit,
        }
    }
}

} // verus!
