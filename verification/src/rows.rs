//! The rows of the table: a map from rowid to key and value.
use std::collections::BTreeMap;
use vstd::prelude::*;

verus! {

/// A key and its value.
pub type Pair = (Seq<char>, Seq<char>);

/// A row: its rowid, its key and its value.
pub type Row = (i64, Seq<char>, Seq<char>);

/// What a [`KvRows`] holds.
#[verifier::ext_equal]
pub struct RowsView {
    /// The rows by rowid.
    pub rows: Map<i64, Pair>,
    /// The rowid given out last, or 0.
    pub next_rowid: i64,
}

/// The rows of the table, with the counter that numbers them.
pub struct KvRows {
    /// The rows by rowid.
    pub rows: BTreeMap<i64, (String, String)>,
    /// The rowid given out last, or 0.
    pub next_rowid: i64,
}

/// A stored pair as text.
pub open spec fn pair(kv: (String, String)) -> Pair {
    (kv.0@, kv.1@)
}

/// A listed row as text.
pub open spec fn row(r: (i64, String, String)) -> Row {
    (r.0, r.1@, r.2@)
}

impl View for KvRows {
    type V = RowsView;

    open spec fn view(&self) -> RowsView {
        RowsView {
            rows: self.rows@.map_values(|kv: (String, String)| pair(kv)),
            next_rowid: self.next_rowid,
        }
    }
}

/// `s` lists the rows of `m`: every row once, by increasing rowid.
pub open spec fn is_listing(m: Map<i64, Pair>, s: Seq<Row>) -> bool {
    &&& forall|i: int, j: int| 0 <= i < j < s.len() ==> s[i].0 < s[j].0
    &&& forall|i: int| 0 <= i < s.len() ==> m.contains_pair(#[trigger] s[i].0, (s[i].1, s[i].2))
    &&& forall|id: i64| #[trigger]
        m.contains_key(id) ==> exists|i: int| 0 <= i < s.len() && #[trigger] s[i].0 == id
}

/// The rows of `m` by increasing rowid.
pub open spec fn listing(m: Map<i64, Pair>) -> Seq<Row> {
    choose|s: Seq<Row>| is_listing(m, s)
}

impl KvRows {
    /// The rows by increasing rowid.
    pub fn ordered(&self) -> (r: Vec<(i64, String, String)>)
        ensures
            r@.map_values(|x: (i64, String, String)| row(x)) == listing(self@.rows),
            is_listing(self@.rows, listing(self@.rows)),
    {
        let mut out: Vec<(i64, String, String)> = Vec::new();
        let entries = self.rows.iter();
        let ghost seq = vstd::std_specs::iter::IteratorSpec::remaining(&entries);
        for kv in it: entries
            invariant
                it.seq() == seq,
                out@.len() == it.index(),
                forall|i: int|
                    0 <= i < out@.len() ==> {
                        &&& (#[trigger] out@[i]).0 == *it.seq()[i].0
                        &&& out@[i].1@ == it.seq()[i].1.0@
                        &&& out@[i].2@ == it.seq()[i].1.1@
                    },
        {
            out.push((*kv.0, kv.1.0.clone(), kv.1.1.clone()));
        }
        proof {
            let s = out@.map_values(|x: (i64, String, String)| row(x));
            let m = self@.rows;
            let ids = seq.map_values(|kv: (&i64, &(String, String))| *kv.0);
            assert(vstd::std_specs::btree::increasing_seq(ids));
            assert forall|i: int, j: int| 0 <= i < j < s.len() implies s[i].0 < s[j].0 by {
                assert(vstd::std_specs::cmp::OrdSpec::cmp_spec(&ids[i], &ids[j]) is Less);
            }
            assert forall|i: int| 0 <= i < s.len() implies m.contains_pair(
                #[trigger] s[i].0,
                (s[i].1, s[i].2),
            ) by {
                assert(self.rows@.contains_key(*seq[i].0));
            }
            assert forall|id: i64| #[trigger] m.contains_key(id) implies exists|i: int|
                0 <= i < s.len() && #[trigger] s[i].0 == id by {
                assert(self.rows@.contains_key(id));
                let i = choose|i: int| 0 <= i < seq.len() && seq[i] == (&id, &self.rows@[id]);
                assert(s[i].0 == id);
            }
            assert(is_listing(m, s));
            lemma_listing_unique(self@.rows, s, listing(self@.rows));
        }
        out
    }
}

/// A map has at most one listing.
pub proof fn lemma_listing_unique(m: Map<i64, Pair>, s: Seq<Row>, t: Seq<Row>)
    requires
        is_listing(m, s),
        is_listing(m, t),
    ensures
        s == t,
{
    lemma_listings_agree(m, s, t, s.len() as int);
    lemma_listings_agree(m, t, s, t.len() as int);
    assert(s =~= t);
}

/// Two listings of one map agree as far as the first one goes.
proof fn lemma_listings_agree(m: Map<i64, Pair>, s: Seq<Row>, t: Seq<Row>, n: int)
    requires
        is_listing(m, s),
        is_listing(m, t),
        0 <= n <= s.len(),
    ensures
        n <= t.len(),
        forall|i: int| 0 <= i < n ==> s[i] == t[i],
    decreases n,
{
    if n > 0 {
        lemma_listings_agree(m, s, t, n - 1);
        let k = n - 1;
        assert(m.contains_key(s[k].0));
        let j = choose|j: int| 0 <= j < t.len() && #[trigger] t[j].0 == s[k].0;
        if j < k {
            assert(s[j] == t[j]);
        }
        assert(m.contains_key(t[k].0));
        let i = choose|i: int| 0 <= i < s.len() && #[trigger] s[i].0 == t[k].0;
        if i < k {
            assert(s[i] == t[i]);
        }
        assert(t[k].0 == s[k].0);
        assert(m.contains_pair(s[k].0, (s[k].1, s[k].2)));
        assert(m.contains_pair(t[k].0, (t[k].1, t[k].2)));
    }
}

/// A finite, non-empty set of rowids has a greatest one.
proof fn lemma_greatest(ids: Set<i64>) -> (g: i64)
    requires
        ids.finite(),
        ids.len() > 0,
    ensures
        ids.contains(g),
        forall|id: i64| ids.contains(id) ==> id <= g,
    decreases ids.len(),
{
    let a = ids.choose();
    let rest = ids.remove(a);
    if rest.len() == 0 {
        assert forall|id: i64| ids.contains(id) implies id <= a by {
            if id != a {
                assert(rest.contains(id));
            }
        }
        a
    } else {
        let b = lemma_greatest(rest);
        assert forall|id: i64| ids.contains(id) && id != a implies id <= b by {
            assert(rest.contains(id));
        }
        if a > b {
            a
        } else {
            b
        }
    }
}

/// A finite map has a listing, and [`listing`] is it.
pub proof fn lemma_listing(m: Map<i64, Pair>)
    requires
        m.dom().finite(),
    ensures
        is_listing(m, listing(m)),
    decreases m.dom().len(),
{
    if m.dom().len() == 0 {
        assert(m.dom() =~= Set::empty());
        assert(is_listing(m, Seq::empty()));
    } else {
        let g = lemma_greatest(m.dom());
        let rest = m.remove(g);
        lemma_listing(rest);
        let s = listing(rest).push((g, m[g].0, m[g].1));
        lemma_listing_push(rest, listing(rest), g, m[g]);
        assert(rest.insert(g, m[g]) =~= m);
        assert(is_listing(m, s));
    }
}

/// A row whose rowid is above all others is listed last.
pub proof fn lemma_listing_push(m: Map<i64, Pair>, s: Seq<Row>, id: i64, kv: Pair)
    requires
        is_listing(m, s),
        forall|other: i64| #[trigger] m.contains_key(other) ==> other < id,
    ensures
        is_listing(m.insert(id, kv), s.push((id, kv.0, kv.1))),
{
    let m2 = m.insert(id, kv);
    let t = s.push((id, kv.0, kv.1));
    assert forall|i: int, j: int| 0 <= i < j < t.len() implies t[i].0 < t[j].0 by {
        if j == s.len() {
            assert(m.contains_pair(s[i].0, (s[i].1, s[i].2)));
            assert(m.contains_key(s[i].0));
        }
    }
    assert forall|i: int| 0 <= i < t.len() implies m2.contains_pair(
        #[trigger] t[i].0,
        (t[i].1, t[i].2),
    ) by {
        if i < s.len() {
            assert(m.contains_pair(s[i].0, (s[i].1, s[i].2)));
            assert(m.contains_key(s[i].0));
        }
    }
    assert forall|x: i64| #[trigger] m2.contains_key(x) implies exists|i: int|
        0 <= i < t.len() && #[trigger] t[i].0 == x by {
        if x == id {
            assert(t[s.len() as int].0 == x);
        } else {
            assert(m.contains_key(x));
            let i = choose|i: int| 0 <= i < s.len() && #[trigger] s[i].0 == x;
            assert(t[i].0 == x);
        }
    }
}

} // verus!
