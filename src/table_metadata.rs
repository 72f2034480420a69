//! Columns of a table as the schema catalog describes them, and the order in
//! which they are handed out.
use vstd::multiset::Multiset;
use vstd::prelude::*;

verus! {

/// The role of a column in its table.
#[derive(Debug, PartialEq, Eq, Structural, Copy, Clone)]
pub enum ColumnKind {
    PartitionKey,
    Clustering,
    Static,
    Regular,
}

/// A column definition read from the schema catalog.
#[derive(Debug, PartialEq, Clone)]
pub struct ColumnInTable {
    pub column_name: String,
    pub kind: ColumnKind,
    /// Ordinal position among the columns of the same kind.
    pub position: i32,
    /// The CQL type as the catalog writes it, e.g. `text` or `map<int, text>`.
    pub data_type: String,
}

/// The declared CQL type of a column.
#[derive(Debug, PartialEq, Clone)]
pub struct ColumnType {
    pub cql_type: String,
}

/// Where columns of a kind stand: partition key, clustering key, static, regular.
pub open spec fn kind_rank(k: ColumnKind) -> int {
    match k {
        ColumnKind::PartitionKey => 0,
        ColumnKind::Clustering => 1,
        ColumnKind::Static => 2,
        ColumnKind::Regular => 3,
    }
}

/// `a` may stand before `b`: by kind, then by position.
pub open spec fn column_le(a: ColumnInTable, b: ColumnInTable) -> bool {
    kind_rank(a.kind) < kind_rank(b.kind) || (kind_rank(a.kind) == kind_rank(b.kind)
        && a.position <= b.position)
}

/// `c` placed into `s` after every column that may stand before it.
pub open spec fn insert_ordered(s: Seq<ColumnInTable>, c: ColumnInTable) -> Seq<ColumnInTable>
    decreases s.len(),
{
    if s.len() == 0 || column_le(s.last(), c) {
        s.push(c)
    } else {
        insert_ordered(s.drop_last(), c).push(s.last())
    }
}

/// The columns of `s` in catalog order: ordered by `column_le`, columns with
/// equal kind and position keeping the order in which they came.
pub open spec fn ordered_columns(s: Seq<ColumnInTable>) -> Seq<ColumnInTable>
    decreases s.len(),
{
    if s.len() == 0 {
        s
    } else {
        insert_ordered(ordered_columns(s.drop_last()), s.last())
    }
}

/// The kind that the catalog's text for it names.
pub open spec fn kind_named(s: Seq<char>) -> Option<ColumnKind> {
    if s == "partition_key"@ {
        Some(ColumnKind::PartitionKey)
    } else if s == "clustering"@ {
        Some(ColumnKind::Clustering)
    } else if s == "static"@ {
        Some(ColumnKind::Static)
    } else if s == "regular"@ {
        Some(ColumnKind::Regular)
    } else {
        None
    }
}

pub open spec fn sorted_columns(s: Seq<ColumnInTable>) -> bool {
    forall|i: int, j: int| 0 <= i < j < s.len() ==> column_le(#[trigger] s[i], #[trigger] s[j])
}

fn same_text(a: &str, b: &str) -> (r: bool)
    ensures
        r == (a@ == b@),
{
    let n = a.unicode_len();
    if n != b.unicode_len() {
        return false;
    }
    let mut i: usize = 0;
    while i < n
        invariant
            0 <= i <= n,
            n == a@.len(),
            n == b@.len(),
            a@.subrange(0, i as int) == b@.subrange(0, i as int),
        decreases n - i,
    {
        if a.get_char(i) != b.get_char(i) {
            return false;
        }
        assert(a@.subrange(0, i + 1) =~= a@.subrange(0, i as int).push(a@[i as int]));
        assert(b@.subrange(0, i + 1) =~= b@.subrange(0, i as int).push(b@[i as int]));
        i = i + 1;
    }
    assert(a@ =~= a@.subrange(0, n as int));
    assert(b@ =~= b@.subrange(0, n as int));
    true
}

impl ColumnKind {
    /// Reads the catalog's name of a column kind.
    pub fn from_catalog(s: &str) -> (r: Option<ColumnKind>)
        ensures
            r == kind_named(s@),
    {
        if same_text(s, "partition_key") {
            Some(ColumnKind::PartitionKey)
        } else if same_text(s, "clustering") {
            Some(ColumnKind::Clustering)
        } else if same_text(s, "static") {
            Some(ColumnKind::Static)
        } else if same_text(s, "regular") {
            Some(ColumnKind::Regular)
        } else {
            None
        }
    }
}

fn kind_rank_of(k: ColumnKind) -> (r: u8)
    ensures
        r as int == kind_rank(k),
{
    match k {
        ColumnKind::PartitionKey => 0,
        ColumnKind::Clustering => 1,
        ColumnKind::Static => 2,
        ColumnKind::Regular => 3,
    }
}

fn column_precedes(a: &ColumnInTable, b: &ColumnInTable) -> (r: bool)
    ensures
        r == column_le(*a, *b),
{
    let ra = kind_rank_of(a.kind);
    let rb = kind_rank_of(b.kind);
    ra < rb || (ra == rb && a.position <= b.position)
}

proof fn lemma_insert_ordered_at(s: Seq<ColumnInTable>, c: ColumnInTable, j: int)
    requires
        0 <= j <= s.len(),
        j == 0 || column_le(s[j - 1], c),
        forall|k: int| j <= k < s.len() ==> !column_le(#[trigger] s[k], c),
    ensures
        insert_ordered(s, c) == s.insert(j, c),
    decreases s.len(),
{
    if j == s.len() {
        assert(s.push(c) =~= s.insert(j, c));
    } else {
        let t = s.drop_last();
        assert(!column_le(s[s.len() - 1], c));
        lemma_insert_ordered_at(t, c, j);
        assert(t.insert(j, c).push(s.last()) =~= s.insert(j, c));
    }
}

proof fn lemma_insert_ordered_len(s: Seq<ColumnInTable>, c: ColumnInTable)
    ensures
        insert_ordered(s, c).len() == s.len() + 1,
    decreases s.len(),
{
    if s.len() > 0 && !column_le(s.last(), c) {
        lemma_insert_ordered_len(s.drop_last(), c);
    }
}

proof fn lemma_ordered_columns_len(s: Seq<ColumnInTable>)
    ensures
        ordered_columns(s).len() == s.len(),
    decreases s.len(),
{
    if s.len() > 0 {
        lemma_ordered_columns_len(s.drop_last());
        lemma_insert_ordered_len(ordered_columns(s.drop_last()), s.last());
    }
}

proof fn lemma_insert_ordered_sorted(s: Seq<ColumnInTable>, c: ColumnInTable)
    requires
        sorted_columns(s),
    ensures
        sorted_columns(insert_ordered(s, c)),
        insert_ordered(s, c).to_multiset() =~= s.to_multiset().insert(c),
    decreases s.len(),
{
    broadcast use vstd::seq_lib::group_to_multiset_ensures;

    if s.len() == 0 || column_le(s.last(), c) {
    } else {
        let t = s.drop_last();
        let last = s.last();
        assert(s =~= t.push(last));
        lemma_insert_ordered_sorted(t, c);
        let u = insert_ordered(t, c);
        assert forall|k: int| 0 <= k < u.len() implies column_le(#[trigger] u[k], last) by {
            assert(u.to_multiset().count(u[k]) > 0);
            if u[k] != c {
                assert(t.to_multiset().count(u[k]) > 0);
                assert(t.contains(u[k]));
                let m = choose|m: int| 0 <= m < t.len() && t[m] == u[k];
                assert(s[m] == t[m]);
            }
        }
        assert forall|a: int, b: int| 0 <= a < b < u.push(last).len() implies column_le(
            #[trigger] u.push(last)[a],
            #[trigger] u.push(last)[b],
        ) by {
            if b == u.len() as int {
                assert(u.push(last)[b] == last);
            } else {
                assert(u.push(last)[a] == u[a]);
                assert(u.push(last)[b] == u[b]);
            }
        }
    }
}

/// The catalog order is sorted by `column_le` and holds exactly the columns
/// it was given.
pub proof fn lemma_ordered_columns(s: Seq<ColumnInTable>)
    ensures
        sorted_columns(ordered_columns(s)),
        ordered_columns(s).to_multiset() =~= s.to_multiset(),
        ordered_columns(s).len() == s.len(),
    decreases s.len(),
{
    broadcast use vstd::seq_lib::group_to_multiset_ensures;

    lemma_ordered_columns_len(s);
    if s.len() > 0 {
        lemma_ordered_columns(s.drop_last());
        lemma_insert_ordered_sorted(ordered_columns(s.drop_last()), s.last());
        assert(s =~= s.drop_last().push(s.last()));
    }
}

proof fn lemma_sorted_fixed(s: Seq<ColumnInTable>)
    requires
        sorted_columns(s),
    ensures
        ordered_columns(s) == s,
    decreases s.len(),
{
    if s.len() > 0 {
        let t = s.drop_last();
        assert(sorted_columns(t)) by {
            assert forall|i: int, j: int| 0 <= i < j < t.len() implies column_le(
                #[trigger] t[i],
                #[trigger] t[j],
            ) by {
                assert(t[i] == s[i] && t[j] == s[j]);
            }
        }
        lemma_sorted_fixed(t);
        if t.len() > 0 {
            assert(column_le(s[t.len() - 1], s[s.len() - 1]));
        }
        assert(t.push(s.last()) =~= s);
    }
}

/// Columns already in catalog order stay as they are, so ordering twice
/// gives the same sequence as ordering once.
pub proof fn lemma_ordered_columns_stable(s: Seq<ColumnInTable>)
    ensures
        sorted_columns(s) ==> ordered_columns(s) == s,
        ordered_columns(ordered_columns(s)) == ordered_columns(s),
{
    if sorted_columns(s) {
        lemma_sorted_fixed(s);
    }
    lemma_ordered_columns(s);
    lemma_sorted_fixed(ordered_columns(s));
}

/// No two distinct columns of `m` share a kind and a position.
pub open spec fn places_distinct(m: Multiset<ColumnInTable>) -> bool {
    forall|x: ColumnInTable, y: ColumnInTable|
        m.contains(x) && m.contains(y) && x.kind == y.kind && x.position == y.position ==> x == y
}

proof fn lemma_le_at_end(s: Seq<ColumnInTable>, x: ColumnInTable)
    requires
        sorted_columns(s),
        s.contains(x),
    ensures
        column_le(x, s.last()),
{
    let k = choose|k: int| 0 <= k < s.len() && s[k] == x;
    if k < s.len() - 1 {
        assert(column_le(s[k], s[s.len() - 1]));
    }
}

proof fn lemma_sorted_unique(a: Seq<ColumnInTable>, b: Seq<ColumnInTable>)
    requires
        sorted_columns(a),
        sorted_columns(b),
        a.to_multiset() == b.to_multiset(),
        places_distinct(a.to_multiset()),
    ensures
        a == b,
    decreases a.len(),
{
    broadcast use vstd::seq_lib::group_to_multiset_ensures;

    if a.len() == 0 {
        assert(b.to_multiset().len() == 0);
        assert(b =~= a);
    } else {
        assert(b.to_multiset().len() > 0);
        let x = a.last();
        let y = b.last();
        assert(a.to_multiset().count(x) > 0);
        assert(b.to_multiset().count(y) > 0);
        assert(b.contains(x));
        assert(a.contains(y));
        lemma_le_at_end(a, y);
        lemma_le_at_end(b, x);
        assert(kind_rank(x.kind) == kind_rank(y.kind));
        assert(x.kind == y.kind);
        assert(a.to_multiset().contains(x) && a.to_multiset().contains(y));
        assert(x == y);
        let a1 = a.drop_last();
        let b1 = b.drop_last();
        assert(a =~= a1.push(x));
        assert(b =~= b1.push(x));
        assert(a1.to_multiset() =~= a.to_multiset().remove(x));
        assert(b1.to_multiset() =~= b.to_multiset().remove(x));
        assert(sorted_columns(a1)) by {
            assert forall|i: int, j: int| 0 <= i < j < a1.len() implies column_le(
                #[trigger] a1[i],
                #[trigger] a1[j],
            ) by {
                assert(a1[i] == a[i] && a1[j] == a[j]);
            }
        }
        assert(sorted_columns(b1)) by {
            assert forall|i: int, j: int| 0 <= i < j < b1.len() implies column_le(
                #[trigger] b1[i],
                #[trigger] b1[j],
            ) by {
                assert(b1[i] == b[i] && b1[j] == b[j]);
            }
        }
        assert(places_distinct(a1.to_multiset())) by {
            assert forall|p: ColumnInTable, q: ColumnInTable|
                a1.to_multiset().contains(p) && a1.to_multiset().contains(q) && p.kind == q.kind
                    && p.position == q.position implies p == q by {
                assert(a.to_multiset().count(p) >= a1.to_multiset().count(p));
                assert(a.to_multiset().count(q) >= a1.to_multiset().count(q));
                assert(a.to_multiset().contains(p) && a.to_multiset().contains(q));
            }
        }
        lemma_sorted_unique(a1, b1);
    }
}

/// Where no two columns share a kind and a position, the catalog order of a
/// set of columns does not depend on the order in which they arrive.
pub proof fn lemma_order_ignores_arrival(a: Seq<ColumnInTable>, b: Seq<ColumnInTable>)
    requires
        a.to_multiset() == b.to_multiset(),
        places_distinct(a.to_multiset()),
    ensures
        ordered_columns(a) == ordered_columns(b),
{
    lemma_ordered_columns(a);
    lemma_ordered_columns(b);
    lemma_sorted_unique(ordered_columns(a), ordered_columns(b));
}

/// Orders catalog columns: partition key first, then clustering, static and
/// regular columns, each group by position; ties keep their order.
pub fn sort_columns(columns: &mut Vec<ColumnInTable>)
    ensures
        final(columns)@ == ordered_columns(old(columns)@),
        sorted_columns(final(columns)@),
        final(columns)@.to_multiset() == old(columns)@.to_multiset(),
{
    let ghost orig = columns@;
    let n = columns.len();
    let mut i: usize = 0;
    while i < n
        invariant
            0 <= i <= n,
            n == orig.len(),
            columns@.len() == n,
            columns@.subrange(0, i as int) == ordered_columns(orig.subrange(0, i as int)),
            columns@.subrange(i as int, n as int) == orig.subrange(i as int, n as int),
        decreases n - i,
    {
        let ghost before = columns@.subrange(0, i as int);
        assert(columns@[i as int] == orig[i as int]) by {
            assert(columns@.subrange(i as int, n as int)[0] == orig.subrange(i as int, n as int)[0]);
        }
        let ghost pre = columns@;
        let x = columns.remove(i);
        let ghost removed = columns@;
        assert(columns@.subrange(0, i as int) =~= before);
        let mut j: usize = i;
        while j > 0 && !column_precedes(&columns[j - 1], &x)
            invariant
                0 <= j <= i,
                i < n,
                columns@ == removed,
                removed.len() == n - 1,
                removed.subrange(0, i as int) == before,
                forall|k: int| j <= k < i ==> !column_le(#[trigger] before[k], x),
            decreases j,
        {
            assert(columns@[j - 1] == before[j - 1]);
            j = j - 1;
        }
        proof {
            if j > 0 {
                assert(columns@[j - 1] == before[j - 1]);
            }
            lemma_insert_ordered_at(before, x, j as int);
        }
        columns.insert(j, x);
        proof {
            let prefix = orig.subrange(0, i + 1);
            assert(prefix.drop_last() =~= orig.subrange(0, i as int));
            assert(prefix.last() == x);
            assert(columns@.subrange(0, i + 1) =~= before.insert(j as int, x));
            assert(columns@.subrange(i + 1, n as int) =~= removed.subrange(i as int, n - 1));
            assert(removed.subrange(i as int, n - 1) =~= orig.subrange(i + 1, n as int)) by {
                assert forall|k: int| 0 <= k < n - 1 - i implies #[trigger] removed.subrange(i as int, n - 1)[k]
                    == orig.subrange(i + 1, n as int)[k] by {
                    assert(removed[i + k] == pre[i + k + 1]);
                    assert(pre.subrange(i as int, n as int)[k + 1] == orig.subrange(i as int, n as int)[k + 1]);
                }
            }
        }
        i = i + 1;
    }
    assert(columns@ =~= columns@.subrange(0, n as int));
    assert(orig =~= orig.subrange(0, n as int));
    proof {
        lemma_ordered_columns(orig);
    }
}

} // verus!
