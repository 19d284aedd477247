use linked_hash_map::LinkedHashMap;
use vstd::prelude::*;

use crate::site::{lines_view, CsvLine, CustomSite, Entry, SiteValue};

verus! {

#[verifier::external_type_specification]
#[verifier::external_body]
#[verifier::reject_recursive_types(K)]
#[verifier::reject_recursive_types(V)]
#[verifier::reject_recursive_types(S)]
pub struct ExLinkedHashMap<K, V, S>(LinkedHashMap<K, V, S>);

/// The entries of a site map, oldest first: the order in which it iterates.
pub uninterp spec fn site_entries(m: LinkedHashMap<String, CustomSite>) -> Seq<Entry>;

/// No two entries share a key.
pub open spec fn keys_unique(es: Seq<Entry>) -> bool {
    forall|i: int, j: int| 0 <= i < j < es.len() ==> es[i].0 != es[j].0
}

/// Some entry has key `k`.
pub open spec fn has_key(es: Seq<Entry>, k: Seq<char>) -> bool {
    exists|i: int| 0 <= i < es.len() && es[i].0 == k
}

/// The entries without the one under key `k`, in their order.
pub open spec fn remove_key(es: Seq<Entry>, k: Seq<char>) -> Seq<Entry>
    decreases es.len(),
{
    if es.len() == 0 {
        es
    } else {
        let rest = remove_key(es.drop_last(), k);
        if es.last().0 == k {
            rest
        } else {
            rest.push(es.last())
        }
    }
}

/// Storing `v` under `k`: the value replaces any earlier one under `k`, and
/// the entry moves to the end of the order.
pub open spec fn insert_entry(es: Seq<Entry>, k: Seq<char>, v: SiteValue) -> Seq<Entry> {
    remove_key(es, k).push((k, v))
}

/// The document built by storing each row under its key, in row order.
pub open spec fn unflatten(rows: Seq<Entry>) -> Seq<Entry>
    decreases rows.len(),
{
    if rows.len() == 0 {
        rows
    } else {
        insert_entry(unflatten(rows.drop_last()), rows.last().0, rows.last().1)
    }
}

/// Relies on `LinkedHashMap::new`: the map starts empty.
#[verifier::external_body]
fn new_site_map() -> (m: LinkedHashMap<String, CustomSite>)
    ensures
        site_entries(m) == Seq::<Entry>::empty(),
{
    LinkedHashMap::new()
}

/// Relies on `LinkedHashMap::insert`: the value replaces any earlier value
/// under the key, and the entry is moved to the end of the iteration order.
#[verifier::external_body]
fn insert_site(m: &mut LinkedHashMap<String, CustomSite>, k: String, v: CustomSite)
    ensures
        site_entries(*final(m)) == insert_entry(site_entries(*old(m)), k@, v@),
{
    m.insert(k, v);
}

/// Relies on `LinkedHashMap::iter`: it yields each entry once, oldest first,
/// and a map holds each key at most once.
#[verifier::external_body]
fn site_list(m: &LinkedHashMap<String, CustomSite>) -> (r: Vec<(String, CustomSite)>)
    ensures
        r@.len() == site_entries(*m).len(),
        forall|i: int|
            0 <= i < r@.len() ==> (#[trigger] r@[i]).0@ == site_entries(*m)[i].0 && r@[i].1@
                == site_entries(*m)[i].1,
        forall|i: int, j: int| 0 <= i < j < r@.len() ==> r@[i].0@ != r@[j].0@,
{
    m.iter().map(|(k, v)| (k.clone(), v.clone())).collect()
}

/// The rows of a site map: one per entry, in the map's order, each with its key.
pub fn map_to_lines(map: LinkedHashMap<String, CustomSite>) -> (r: Vec<CsvLine>)
    ensures
        lines_view(r@) == site_entries(map),
        keys_unique(lines_view(r@)),
{
    let entries = site_list(&map);
    let mut lines: Vec<CsvLine> = Vec::new();
    let mut i: usize = 0;
    while i < entries.len()
        invariant
            i <= entries@.len(),
            entries@.len() == site_entries(map).len(),
            forall|j: int|
                0 <= j < entries@.len() ==> (#[trigger] entries@[j]).0@ == site_entries(map)[j].0
                    && entries@[j].1@ == site_entries(map)[j].1,
            lines@.len() == i,
            forall|j: int| 0 <= j < i ==> (#[trigger] lines@[j])@ == site_entries(map)[j],
        decreases entries@.len() - i,
    {
        let line = CsvLine::from_entry(&entries[i].0, &entries[i].1);
        lines.push(line);
        i = i + 1;
    }
    assert(lines_view(lines@) =~= site_entries(map));
    proof {
        let es = site_entries(map);
        assert forall|a: int, b: int| 0 <= a < b < es.len() implies es[a].0 != es[b].0 by {
            assert(entries@[a].0@ != entries@[b].0@);
        }
    }
    lines
}

/// The site map that stores each row under its key, in row order. A later row
/// with a key already stored replaces that entry and moves it to the end.
pub fn lines_to_map(lines: Vec<CsvLine>) -> (r: LinkedHashMap<String, CustomSite>)
    ensures
        site_entries(r) == unflatten(lines_view(lines@)),
{
    let mut map = new_site_map();
    let mut i: usize = 0;
    while i < lines.len()
        invariant
            i <= lines@.len(),
            site_entries(map) == unflatten(lines_view(lines@).take(i as int)),
        decreases lines@.len() - i,
    {
        let (k, v) = lines[i].to_entry();
        insert_site(&mut map, k, v);
        proof {
            let rows = lines_view(lines@).take(i + 1);
            assert(rows.drop_last() =~= lines_view(lines@).take(i as int));
        }
        i = i + 1;
    }
    assert(lines_view(lines@).take(i as int) =~= lines_view(lines@));
    map
}

/// Removing a key that no entry has leaves the entries as they are.
proof fn lemma_remove_absent_key(es: Seq<Entry>, k: Seq<char>)
    requires
        !has_key(es, k),
    ensures
        remove_key(es, k) == es,
    decreases es.len(),
{
    if es.len() > 0 {
        let d = es.drop_last();
        assert(!has_key(d, k)) by {
            if has_key(d, k) {
                let i = choose|i: int| 0 <= i < d.len() && d[i].0 == k;
                assert(es[i].0 == k);
            }
        }
        lemma_remove_absent_key(d, k);
        assert(es.last().0 != k);
        assert(d.push(es.last()) =~= es);
    }
}

/// Rows whose keys are all distinct are stored as they are: the document has
/// one entry per row, in row order, with the row's values.
pub proof fn lemma_unflatten_distinct(rows: Seq<Entry>)
    requires
        keys_unique(rows),
    ensures
        unflatten(rows) == rows,
    decreases rows.len(),
{
    if rows.len() > 0 {
        let d = rows.drop_last();
        assert(keys_unique(d));
        lemma_unflatten_distinct(d);
        assert(!has_key(d, rows.last().0)) by {
            if has_key(d, rows.last().0) {
                let i = choose|i: int| 0 <= i < d.len() && d[i].0 == rows.last().0;
                assert(rows[i].0 == rows[rows.len() - 1].0);
            }
        }
        lemma_remove_absent_key(d, rows.last().0);
        assert(d.push(rows.last()) =~= rows);
    }
}

/// Turning a document into rows and storing the rows again, with no edit in
/// between, gives back the same keys, values and order.
pub proof fn lemma_round_trip(m: LinkedHashMap<String, CustomSite>)
    requires
        keys_unique(site_entries(m)),
    ensures
        unflatten(site_entries(m)) == site_entries(m),
{
    lemma_unflatten_distinct(site_entries(m));
}

/// Deleting a row from rows with distinct keys leaves its key out of the
/// stored document.
pub proof fn lemma_deleted_row_absent(rows: Seq<Entry>, i: int)
    requires
        keys_unique(rows),
        0 <= i < rows.len(),
    ensures
        !has_key(unflatten(rows.remove(i)), rows[i].0),
{
    let r = rows.remove(i);
    assert forall|a: int| 0 <= a < r.len() implies r[a].0 != rows[i].0 by {
        if a < i {
            assert(r[a] == rows[a]);
        } else {
            assert(r[a] == rows[a + 1]);
        }
    }
    assert(keys_unique(r)) by {
        assert forall|a: int, b: int| 0 <= a < b < r.len() implies r[a].0 != r[b].0 by {
            let a2 = if a < i { a } else { a + 1 };
            let b2 = if b < i { b } else { b + 1 };
            assert(r[a] == rows[a2] && r[b] == rows[b2]);
        }
    }
    lemma_unflatten_distinct(r);
}

/// Adding a row under a fresh key to rows with distinct keys stores exactly
/// that row at that place, beside the others unchanged.
pub proof fn lemma_added_row_present(rows: Seq<Entry>, j: int, k: Seq<char>, v: SiteValue)
    requires
        keys_unique(rows),
        !has_key(rows, k),
        0 <= j <= rows.len(),
    ensures
        unflatten(rows.insert(j, (k, v))) == unflatten(rows).insert(j, (k, v)),
        has_key(unflatten(rows.insert(j, (k, v))), k),
{
    let r = rows.insert(j, (k, v));
    assert(keys_unique(r)) by {
        assert forall|a: int, b: int| 0 <= a < b < r.len() implies r[a].0 != r[b].0 by {
            if a != j && b != j {
                let a2 = if a < j { a } else { a - 1 };
                let b2 = if b < j { b } else { b - 1 };
                assert(r[a] == rows[a2] && r[b] == rows[b2]);
            } else if a == j {
                assert(r[b] == rows[b - 1]);
            } else {
                assert(r[a] == rows[a]);
            }
        }
    }
    lemma_unflatten_distinct(r);
    lemma_unflatten_distinct(rows);
    assert(r[j].0 == k);
}

/// Changing only the URL of one row, among rows with distinct keys, changes
/// only that entry of the stored document, and only its URL.
pub proof fn lemma_url_edit_local(rows: Seq<Entry>, i: int, url: Seq<char>)
    requires
        keys_unique(rows),
        0 <= i < rows.len(),
    ensures
        unflatten(rows.update(i, (rows[i].0, SiteValue { url, ..rows[i].1 }))) == unflatten(
            rows,
        ).update(i, (rows[i].0, SiteValue { url, ..rows[i].1 })),
{
    let r = rows.update(i, (rows[i].0, SiteValue { url, ..rows[i].1 }));
    assert(keys_unique(r)) by {
        assert forall|a: int, b: int| 0 <= a < b < r.len() implies r[a].0 != r[b].0 by {
            assert(r[a].0 == rows[a].0 && r[b].0 == rows[b].0);
        }
    }
    lemma_unflatten_distinct(r);
    lemma_unflatten_distinct(rows);
}

} // verus!
