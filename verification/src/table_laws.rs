//! What holds of every match-action table: which entry a lookup selects,
//! and how putting entries in and taking them out relate.

use vstd::prelude::*;
use crate::field::FieldView;
use crate::key::KeyView;
use crate::table::{prefix_position, EntryView, TableView};

verus! {

/// At most one entry wins a lookup.
pub proof fn lemma_winner_unique(t: TableView, fields: Seq<FieldView>, i: int, j: int)
    requires
        t.wins(fields, i),
        t.wins(fields, j),
    ensures
        i == j,
{
    assert(t.matches_at(fields, i));
    assert(t.matches_at(fields, j));
}

/// Whether entry `i` would win a lookup of `fields` in the table of the
/// first `n` entries alone.
pub open spec fn wins_among(t: TableView, fields: Seq<FieldView>, n: int, i: int) -> bool {
    &&& i < n
    &&& t.matches_at(fields, i)
    &&& forall|j: int|
        j < n && #[trigger] t.matches_at(fields, j) ==> t.rank(t.entries[j]) < t.rank(t.entries[i])
            || (t.rank(t.entries[j]) == t.rank(t.entries[i]) && i <= j)
}

/// Where one of the first `n` entries matches, one of them wins among them.
pub proof fn lemma_winner_among(t: TableView, fields: Seq<FieldView>, n: int)
    requires
        0 <= n,
    ensures
        (exists|j: int| j < n && t.matches_at(fields, j)) ==> exists|i: int|
            wins_among(t, fields, n, i),
    decreases n,
{
    if n > 0 {
        let last = n - 1;
        lemma_winner_among(t, fields, last);
        if exists|j: int| j < last && t.matches_at(fields, j) {
            let i = choose|i: int| wins_among(t, fields, last, i);
            if t.matches_at(fields, last) && t.rank(t.entries[last]) > t.rank(t.entries[i]) {
                assert(wins_among(t, fields, n, last));
            } else {
                assert(wins_among(t, fields, n, i));
            }
        } else if t.matches_at(fields, last) {
            assert(wins_among(t, fields, n, last));
        }
    }
}

/// A lookup selects an entry exactly where some entry matches, and the
/// entry it selects wins.
pub proof fn lemma_lookup_total(t: TableView, fields: Seq<FieldView>)
    ensures
        t.winner(fields) is None <==> forall|j: int| !t.matches_at(fields, j),
        t.winner(fields) matches Some(i) ==> t.wins(fields, i),
        t.lookup(fields) is None <==> t.winner(fields) is None,
{
    let n = t.entries.len() as int;
    lemma_winner_among(t, fields, n);
    if exists|j: int| t.matches_at(fields, j) {
        let j = choose|j: int| t.matches_at(fields, j);
        assert(j < n && t.matches_at(fields, j));
        let i = choose|i: int| wins_among(t, fields, n, i);
        assert(t.wins(fields, i));
    }
    if t.winner(fields) is Some {
        let i = choose|i: int| t.wins(fields, i);
        assert(t.matches_at(fields, i));
    }
}

/// Two lookups of the same fields in tables of the same shape and entries
/// select the same entry, whatever the tables are called.
pub proof fn lemma_lookup_deterministic(
    a: TableView,
    b: TableView,
    fields_a: Seq<FieldView>,
    fields_b: Seq<FieldView>,
)
    requires
        a.shape == b.shape,
        a.prioritized == b.prioritized,
        a.entries == b.entries,
        fields_a == fields_b,
    ensures
        a.winner(fields_a) == b.winner(fields_b),
        a.lookup(fields_a) == b.lookup(fields_b),
{
    assert forall|i: int| a.wins(fields_a, i) == b.wins(fields_b, i) by {
        assert forall|j: int| a.matches_at(fields_a, j) == b.matches_at(fields_b, j) by {}
        assert forall|j: int| a.rank(a.entries[j]) == b.rank(b.entries[j]) by {}
    }
    if a.winner(fields_a) is Some {
        let i = choose|i: int| a.wins(fields_a, i);
        let j = choose|j: int| b.wins(fields_b, j);
        assert(b.wins(fields_b, i));
        lemma_winner_unique(b, fields_b, i, j);
    } else if b.winner(fields_b) is Some {
        let j = choose|j: int| b.wins(fields_b, j);
        assert(a.wins(fields_a, j));
    }
}

/// In a table with a longest-prefix position no matching entry has a longer
/// prefix there than the entry that a lookup selects.
pub proof fn lemma_longest_prefix_wins(t: TableView, fields: Seq<FieldView>, j: int)
    requires
        prefix_position(t.shape) is Some,
        t.winner(fields) is Some,
        t.matches_at(fields, j),
    ensures
        ({
            let p = prefix_position(t.shape).unwrap();
            let i = t.winner(fields).unwrap();
            t.entries[j].keyset[p].prefix_len() <= t.entries[i].keyset[p].prefix_len()
        }),
{
    lemma_lookup_total(t, fields);
}

/// Among matching entries of the same rank a lookup selects the oldest.
pub proof fn lemma_oldest_wins_ties(t: TableView, fields: Seq<FieldView>, j: int)
    requires
        t.winner(fields) is Some,
        t.matches_at(fields, j),
        t.rank(t.entries[j]) == t.rank(t.entries[t.winner(fields).unwrap()]),
    ensures
        t.winner(fields).unwrap() <= j,
{
    lemma_lookup_total(t, fields);
}

/// Taking out a keyset that the table does not hold leaves the table as it
/// was.
pub proof fn lemma_remove_absent(t: TableView, keyset: Seq<KeyView>)
    requires
        forall|i: int| !t.holds_at(keyset, i),
    ensures
        t.removed(keyset) == t,
{
}

/// Taking a keyset out twice is taking it out once.
pub proof fn lemma_remove_idempotent(t: TableView, keyset: Seq<KeyView>)
    requires
        t.wf(),
    ensures
        t.removed(keyset).removed(keyset) == t.removed(keyset),
{
    lemma_removed_wf(t, keyset);
}

/// Putting an entry in under a keyset that the table does not hold, and
/// taking that keyset out again, gives the table as it was.
pub proof fn lemma_insert_then_remove(t: TableView, e: EntryView)
    requires
        forall|i: int| !t.holds_at(e.keyset, i),
    ensures
        t.inserted(e).removed(e.keyset) == t,
{
    let n = t.inserted(e);
    assert(n.entries == t.entries.push(e));
    let last = t.entries.len() as int;
    assert(n.holds_at(e.keyset, last));
    let c = choose|c: int| n.holds_at(e.keyset, c);
    assert(n.holds_at(e.keyset, c));
    if c < last {
        assert(t.holds_at(e.keyset, c));
    }
    assert(n.entries.remove(last) =~= t.entries);
}

/// After a keyset is put in, the table holds it, with the entry that was
/// put in, as its newest entry.
pub proof fn lemma_inserted_holds(t: TableView, e: EntryView)
    requires
        t.wf(),
    ensures
        t.inserted(e).entries.len() > 0,
        t.inserted(e).entries.last() == e,
        t.inserted(e).position(e.keyset) == Some(t.inserted(e).entries.len() - 1),
{
    lemma_removed_wf(t, e.keyset);
    let n = t.inserted(e);
    let r = t.removed(e.keyset);
    let last = n.entries.len() - 1;
    assert(n.holds_at(e.keyset, last));
    let c = choose|c: int| n.holds_at(e.keyset, c);
    assert(n.holds_at(e.keyset, c));
    if c < last {
        assert(r.holds_at(e.keyset, c));
    }
}

/// Taking an entry out leaves a well-formed table well-formed.
pub proof fn lemma_removed_wf(t: TableView, keyset: Seq<KeyView>)
    requires
        t.wf(),
    ensures
        t.removed(keyset).wf(),
        forall|i: int| !t.removed(keyset).holds_at(keyset, i),
{
    match t.position(keyset) {
        Some(k) => {
            let r = t.removed(keyset);
            assert(t.holds_at(keyset, k));
            assert forall|i: int| 0 <= i < r.entries.len() implies r.fits(
                (#[trigger] r.entries[i]).keyset,
            ) by {
                if i < k {
                    assert(r.entries[i] == t.entries[i]);
                } else {
                    assert(r.entries[i] == t.entries[i + 1]);
                }
                assert(r.fits(r.entries[i].keyset) == t.fits(r.entries[i].keyset));
            }
            assert forall|i: int, j: int| 0 <= i < j < r.entries.len() implies (
            #[trigger] r.entries[i]).keyset != (#[trigger] r.entries[j]).keyset by {
                let ii = if i < k {
                    i
                } else {
                    i + 1
                };
                let jj = if j < k {
                    j
                } else {
                    j + 1
                };
                assert(r.entries[i] == t.entries[ii]);
                assert(r.entries[j] == t.entries[jj]);
            }
            assert forall|i: int| !r.holds_at(keyset, i) by {
                if 0 <= i < r.entries.len() {
                    let ii = if i < k {
                        i
                    } else {
                        i + 1
                    };
                    assert(r.entries[i] == t.entries[ii]);
                    if ii < k {
                        assert(t.entries[ii].keyset != t.entries[k].keyset);
                    } else {
                        assert(t.entries[k].keyset != t.entries[ii].keyset);
                    }
                }
            }
        },
        None => {
            assert forall|i: int| !t.holds_at(keyset, i) by {}
        },
    }
}

/// Putting an entry of the table's shape in leaves a well-formed table
/// well-formed.
pub proof fn lemma_inserted_wf(t: TableView, e: EntryView)
    requires
        t.wf(),
        t.fits(e.keyset),
    ensures
        t.inserted(e).wf(),
{
    lemma_removed_wf(t, e.keyset);
    let r = t.removed(e.keyset);
    let n = t.inserted(e);
    assert forall|i: int| 0 <= i < n.entries.len() implies n.fits(
        (#[trigger] n.entries[i]).keyset,
    ) by {
        if i < r.entries.len() {
            assert(n.entries[i] == r.entries[i]);
            assert(r.fits(r.entries[i].keyset));
        }
        assert(n.fits(n.entries[i].keyset) == t.fits(n.entries[i].keyset));
    }
    assert forall|i: int, j: int| 0 <= i < j < n.entries.len() implies (#[trigger] n.entries[i]).keyset
        != (#[trigger] n.entries[j]).keyset by {
        assert(n.entries[i] == r.entries[i]);
        if j < r.entries.len() {
            assert(n.entries[j] == r.entries[j]);
        } else {
            assert(!r.holds_at(e.keyset, i));
        }
    }
}

} // verus!
