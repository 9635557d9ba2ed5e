//! Match-action tables.

use vstd::prelude::*;
use vstd::std_specs::cmp::PartialEqSpecImpl;
use vstd::string::*;
use crate::error::TableError;
use crate::field::{bytes_copy, bytes_equal, FieldValue, FieldView};
use crate::key::{KeyView, MatchKey, MatchKind};
use crate::table_laws::{lemma_inserted_wf, lemma_removed_wf, lemma_winner_unique};

verus! {

/// What each key of a keyset stands for.
pub open spec fn key_views(keys: Seq<MatchKey>) -> Seq<KeyView> {
    keys.map_values(|k: MatchKey| k@)
}

/// What each field of a lookup stands for.
pub open spec fn field_views(fields: Seq<FieldValue>) -> Seq<FieldView> {
    fields.map_values(|f: FieldValue| f@)
}

/// What each entry of a table stands for.
pub open spec fn entry_views(entries: Seq<Entry>) -> Seq<EntryView> {
    entries.map_values(|e: Entry| e@)
}

/// Whether every key of `keyset` matches the field at its position. A keyset
/// matches no list of fields of another length.
pub open spec fn keyset_matches(keyset: Seq<KeyView>, fields: Seq<FieldView>) -> bool {
    &&& keyset.len() == fields.len()
    &&& forall|p: int| 0 <= p < keyset.len() ==> (#[trigger] keyset[p]).matches(fields[p])
}

/// Whether `p` is the first position of `shape` that matches by longest
/// prefix.
pub open spec fn is_prefix_position(shape: Seq<MatchKind>, p: int) -> bool {
    &&& 0 <= p < shape.len()
    &&& shape[p] == MatchKind::LongestPrefix
    &&& forall|q: int| 0 <= q < p ==> shape[q] != MatchKind::LongestPrefix
}

/// The first position of `shape` that matches by longest prefix, if any.
pub open spec fn prefix_position(shape: Seq<MatchKind>) -> Option<int> {
    if exists|p: int| is_prefix_position(shape, p) {
        Some(choose|p: int| is_prefix_position(shape, p))
    } else {
        None
    }
}

/// An entry of a table: a keyset, and the action with its parameters that a
/// match selects. The priority counts only in a table made with priorities.
#[derive(Debug, Eq)]
pub struct Entry {
    pub keyset: Vec<MatchKey>,
    pub priority: u32,
    pub action_id: u32,
    pub params: Vec<u8>,
}

/// What an [`Entry`] stands for.
pub struct EntryView {
    pub keyset: Seq<KeyView>,
    pub priority: u32,
    pub action_id: u32,
    pub params: Seq<u8>,
}

/// What a [`MatchedAction`] stands for.
pub struct ActionView {
    pub action_id: u32,
    pub params: Seq<u8>,
}

impl EntryView {
    /// The action that the entry selects.
    pub open spec fn action(self) -> ActionView {
        ActionView { action_id: self.action_id, params: self.params }
    }
}

impl View for Entry {
    type V = EntryView;

    open spec fn view(&self) -> EntryView {
        EntryView {
            keyset: key_views(self.keyset@),
            priority: self.priority,
            action_id: self.action_id,
            params: self.params@,
        }
    }
}

/// The action of the entry that a lookup selected. The parameters are those
/// held by the table.
#[derive(Debug, Clone, Copy, PartialEq, Eq)]
pub struct MatchedAction<'a> {
    pub action_id: u32,
    pub params: &'a [u8],
}

impl<'a> View for MatchedAction<'a> {
    type V = ActionView;

    open spec fn view(&self) -> ActionView {
        ActionView { action_id: self.action_id, params: self.params@ }
    }
}

/// What a [`MatchTable`] stands for: its name, the kind of key at each
/// position, whether priorities count, and its entries, oldest first.
pub struct TableView {
    pub name: Seq<char>,
    pub shape: Seq<MatchKind>,
    pub prioritized: bool,
    pub entries: Seq<EntryView>,
}

impl TableView {
    /// Whether `keyset` has the table's shape: as many keys, each of the
    /// kind of its position.
    pub open spec fn fits(self, keyset: Seq<KeyView>) -> bool {
        &&& keyset.len() == self.shape.len()
        &&& forall|p: int| 0 <= p < keyset.len() ==> (#[trigger] keyset[p]).kind() == self.shape[p]
    }

    /// Whether `e` is the reason for which `keyset` does not fit: the
    /// lengths where they differ, else the first key of another kind.
    pub open spec fn rejects(self, keyset: Seq<KeyView>, e: TableError) -> bool {
        match e {
            TableError::ArityMismatch { expected, found } => {
                &&& expected == self.shape.len()
                &&& found == keyset.len()
                &&& expected != found
            },
            TableError::KindMismatch { position } => {
                &&& keyset.len() == self.shape.len()
                &&& position < keyset.len()
                &&& keyset[position as int].kind() != self.shape[position as int]
                &&& forall|q: int|
                    0 <= q < position ==> (#[trigger] keyset[q]).kind() == self.shape[q]
            },
        }
    }

    /// Whether entry `i` has exactly the keyset `keyset`.
    pub open spec fn holds_at(self, keyset: Seq<KeyView>, i: int) -> bool {
        0 <= i < self.entries.len() && self.entries[i].keyset == keyset
    }

    /// The index of the entry with the keyset `keyset`, if there is one.
    pub open spec fn position(self, keyset: Seq<KeyView>) -> Option<int> {
        if exists|i: int| self.holds_at(keyset, i) {
            Some(choose|i: int| self.holds_at(keyset, i))
        } else {
            None
        }
    }

    /// Every entry has the table's shape, and no two have the same keyset.
    pub open spec fn wf(self) -> bool {
        &&& forall|i: int|
            0 <= i < self.entries.len() ==> self.fits((#[trigger] self.entries[i]).keyset)
        &&& forall|i: int, j: int|
            0 <= i < j < self.entries.len() ==> (#[trigger] self.entries[i]).keyset != (
            #[trigger] self.entries[j]).keyset
    }

    /// The table without the entry of keyset `keyset`.
    pub open spec fn removed(self, keyset: Seq<KeyView>) -> TableView {
        match self.position(keyset) {
            Some(i) => TableView { entries: self.entries.remove(i), ..self },
            None => self,
        }
    }

    /// The table with `e` as its newest entry, in place of any entry of the
    /// same keyset.
    pub open spec fn inserted(self, e: EntryView) -> TableView {
        let t = self.removed(e.keyset);
        TableView { entries: t.entries.push(e), ..t }
    }

    /// By what an entry is preferred among those that match: the length of
    /// its prefix where the shape has a longest-prefix position, else its
    /// priority where priorities count, else nothing.
    pub open spec fn rank(self, e: EntryView) -> nat {
        match prefix_position(self.shape) {
            Some(p) => e.keyset[p].prefix_len(),
            None => if self.prioritized {
                e.priority as nat
            } else {
                0
            },
        }
    }

    /// Whether entry `i` matches `fields`.
    pub open spec fn matches_at(self, fields: Seq<FieldView>, i: int) -> bool {
        0 <= i < self.entries.len() && keyset_matches(self.entries[i].keyset, fields)
    }

    /// Whether entry `i` is the one that a lookup of `fields` selects: it
    /// matches, no matching entry has a higher rank, and none of the same
    /// rank is older.
    pub open spec fn wins(self, fields: Seq<FieldView>, i: int) -> bool {
        &&& self.matches_at(fields, i)
        &&& forall|j: int| #[trigger]
            self.matches_at(fields, j) ==> self.rank(self.entries[j]) < self.rank(self.entries[i])
                || (self.rank(self.entries[j]) == self.rank(self.entries[i]) && i <= j)
    }

    /// The index of the entry that a lookup of `fields` selects.
    pub open spec fn winner(self, fields: Seq<FieldView>) -> Option<int> {
        if exists|i: int| self.wins(fields, i) {
            Some(choose|i: int| self.wins(fields, i))
        } else {
            None
        }
    }

    /// The action that a lookup of `fields` selects.
    pub open spec fn lookup(self, fields: Seq<FieldView>) -> Option<ActionView> {
        match self.winner(fields) {
            Some(i) => Some(self.entries[i].action()),
            None => None,
        }
    }
}

/// Whether two keysets are the same, key by key.
pub fn keyset_same(a: &[MatchKey], b: &[MatchKey]) -> (r: bool)
    ensures
        r == (key_views(a@) == key_views(b@)),
{
    if a.len() != b.len() {
        return false;
    }
    let mut p: usize = 0;
    while p < a.len()
        invariant
            p <= a@.len(),
            a@.len() == b@.len(),
            forall|q: int| 0 <= q < p ==> a@[q]@ == b@[q]@,
        decreases a@.len() - p,
    {
        if a[p] != b[p] {
            assert(key_views(a@)[p as int] != key_views(b@)[p as int]);
            return false;
        }
        p += 1;
    }
    assert(key_views(a@) =~= key_views(b@));
    true
}

/// Whether every key of `keyset` matches the field at its position.
pub fn keyset_matches_fields(keyset: &[MatchKey], fields: &[FieldValue]) -> (r: bool)
    ensures
        r == keyset_matches(key_views(keyset@), field_views(fields@)),
{
    if keyset.len() != fields.len() {
        return false;
    }
    let mut p: usize = 0;
    while p < keyset.len()
        invariant
            p <= keyset@.len(),
            keyset@.len() == fields@.len(),
            forall|q: int|
                0 <= q < p ==> (#[trigger] key_views(keyset@)[q]).matches(field_views(fields@)[q]),
        decreases keyset@.len() - p,
    {
        if !keyset[p].matches(&fields[p]) {
            assert(!key_views(keyset@)[p as int].matches(field_views(fields@)[p as int]));
            return false;
        }
        p += 1;
    }
    true
}

/// A copy of a keyset.
pub fn keyset_copy(keyset: &[MatchKey]) -> (r: Vec<MatchKey>)
    ensures
        key_views(r@) == key_views(keyset@),
{
    let mut r: Vec<MatchKey> = Vec::with_capacity(keyset.len());
    let mut p: usize = 0;
    while p < keyset.len()
        invariant
            p <= keyset@.len(),
            r@.len() == p,
            forall|q: int| 0 <= q < p ==> r@[q]@ == keyset@[q]@,
        decreases keyset@.len() - p,
    {
        r.push(keyset[p].clone());
        p += 1;
    }
    assert(key_views(r@) =~= key_views(keyset@));
    r
}

/// Two entries are equal where their keysets, priorities, actions and
/// parameters are.
impl PartialEq for Entry {
    fn eq(&self, other: &Entry) -> (r: bool) {
        keyset_same(self.keyset.as_slice(), other.keyset.as_slice()) && self.priority
            == other.priority && self.action_id == other.action_id && bytes_equal(
            self.params.as_slice(),
            other.params.as_slice(),
        )
    }
}

impl PartialEqSpecImpl for Entry {
    open spec fn obeys_eq_spec() -> bool {
        true
    }

    open spec fn eq_spec(&self, other: &Entry) -> bool {
        self@ == other@
    }
}

impl Clone for Entry {
    fn clone(&self) -> (r: Self)
        ensures
            r@ == self@,
    {
        Entry {
            keyset: keyset_copy(self.keyset.as_slice()),
            priority: self.priority,
            action_id: self.action_id,
            params: bytes_copy(self.params.as_slice()),
        }
    }
}

/// A match-action table: entries of one shape, oldest first, no two with the
/// same keyset. Every table that the constructors make is well-formed, and
/// the operations keep it so.
#[derive(Debug)]
pub struct MatchTable {
    name: String,
    shape: Vec<MatchKind>,
    prioritized: bool,
    entries: Vec<Entry>,
}

impl View for MatchTable {
    type V = TableView;

    closed spec fn view(&self) -> TableView {
        TableView {
            name: self.name@,
            shape: self.shape@,
            prioritized: self.prioritized,
            entries: entry_views(self.entries@),
        }
    }
}

impl MatchTable {
    /// An empty table of the given name and shape, in which the older of
    /// two matching entries is preferred.
    pub fn new(name: String, shape: Vec<MatchKind>) -> (t: MatchTable)
        ensures
            t@ == (TableView {
                name: name@,
                shape: shape@,
                prioritized: false,
                entries: Seq::empty(),
            }),
            t@.wf(),
    {
        let t = MatchTable { name, shape, prioritized: false, entries: Vec::new() };
        assert(t@.entries =~= Seq::empty());
        t
    }

    /// An empty table of the given name and shape, in which the entry of
    /// the higher priority is preferred among those that match, unless the
    /// shape has a longest-prefix position.
    pub fn with_priorities(name: String, shape: Vec<MatchKind>) -> (t: MatchTable)
        ensures
            t@ == (TableView {
                name: name@,
                shape: shape@,
                prioritized: true,
                entries: Seq::empty(),
            }),
            t@.wf(),
    {
        let t = MatchTable { name, shape, prioritized: true, entries: Vec::new() };
        assert(t@.entries =~= Seq::empty());
        t
    }

    /// The table's name.
    pub fn name(&self) -> (n: &String)
        ensures
            n@ == self@.name,
    {
        &self.name
    }

    /// The kind of key at each position.
    pub fn shape(&self) -> (s: &Vec<MatchKind>)
        ensures
            s@ == self@.shape,
    {
        &self.shape
    }

    /// Whether priorities count in this table.
    pub fn is_prioritized(&self) -> (b: bool)
        ensures
            b == self@.prioritized,
    {
        self.prioritized
    }

    /// The number of entries.
    pub fn len(&self) -> (n: usize)
        ensures
            n == self@.entries.len(),
    {
        self.entries.len()
    }

    /// The entries, oldest first.
    pub fn entries(&self) -> (e: &Vec<Entry>)
        ensures
            entry_views(e@) == self@.entries,
    {
        &self.entries
    }

    /// Whether `keyset` has the table's shape, and if not, why.
    pub fn check(&self, keyset: &[MatchKey]) -> (r: Result<(), TableError>)
        ensures
            r is Ok <==> self@.fits(key_views(keyset@)),
            r matches Err(e) ==> self@.rejects(key_views(keyset@), e),
    {
        if keyset.len() != self.shape.len() {
            return Err(
                TableError::ArityMismatch { expected: self.shape.len(), found: keyset.len() },
            );
        }
        let mut p: usize = 0;
        while p < keyset.len()
            invariant
                p <= keyset@.len(),
                keyset@.len() == self.shape@.len(),
                forall|q: int|
                    0 <= q < p ==> (#[trigger] key_views(keyset@)[q]).kind() == self.shape@[q],
            decreases keyset@.len() - p,
        {
            if keyset[p].kind() != self.shape[p] {
                assert(key_views(keyset@)[p as int].kind() != self.shape@[p as int]);
                return Err(TableError::KindMismatch { position: p });
            }
            p += 1;
        }
        Ok(())
    }

    /// The index of the entry with exactly the keyset `keyset`.
    pub fn find(&self, keyset: &[MatchKey]) -> (r: Option<usize>)
        requires
            self@.wf(),
        ensures
            match r {
                Some(i) => self@.position(key_views(keyset@)) == Some(i as int),
                None => self@.position(key_views(keyset@)) is None,
            },
    {
        let ghost wanted = key_views(keyset@);
        let mut i: usize = 0;
        while i < self.entries.len()
            invariant
                i <= self.entries@.len(),
                wanted == key_views(keyset@),
                self@.wf(),
                forall|j: int| 0 <= j < i ==> !self@.holds_at(wanted, j),
            decreases self.entries@.len() - i,
        {
            if keyset_same(self.entries[i].keyset.as_slice(), keyset) {
                proof {
                    assert(self@.holds_at(wanted, i as int));
                    let c = choose|c: int| self@.holds_at(wanted, c);
                    assert(self@.holds_at(wanted, c));
                    assert(c == i);
                }
                return Some(i);
            }
            i += 1;
        }
        None
    }

    /// Puts an entry of priority 0 into the table: see
    /// [`MatchTable::insert_with_priority`].
    pub fn insert(&mut self, keyset: Vec<MatchKey>, action_id: u32, params: Vec<u8>) -> (r: Result<
        (),
        TableError,
    >)
        requires
            old(self)@.wf(),
        ensures
            final(self)@.wf(),
            r is Ok <==> old(self)@.fits(key_views(keyset@)),
            r is Ok ==> final(self)@ == old(self)@.inserted(
                EntryView { keyset: key_views(keyset@), priority: 0, action_id, params: params@ },
            ),
            r matches Err(e) ==> final(self)@ == old(self)@ && old(self)@.rejects(
                key_views(keyset@),
                e,
            ),
    {
        self.insert_with_priority(keyset, 0, action_id, params)
    }

    /// Puts an entry into the table as its newest, in place of any entry of
    /// the same keyset. A keyset that has not the table's shape is turned
    /// down, and the table stays as it was.
    pub fn insert_with_priority(
        &mut self,
        keyset: Vec<MatchKey>,
        priority: u32,
        action_id: u32,
        params: Vec<u8>,
    ) -> (r: Result<(), TableError>)
        requires
            old(self)@.wf(),
        ensures
            final(self)@.wf(),
            r is Ok <==> old(self)@.fits(key_views(keyset@)),
            r is Ok ==> final(self)@ == old(self)@.inserted(
                EntryView { keyset: key_views(keyset@), priority, action_id, params: params@ },
            ),
            r matches Err(e) ==> final(self)@ == old(self)@ && old(self)@.rejects(
                key_views(keyset@),
                e,
            ),
    {
        match self.check(keyset.as_slice()) {
            Err(e) => { return Err(e); },
            Ok(()) => {},
        }
        let ghost before = self@;
        let ghost e = EntryView { keyset: key_views(keyset@), priority, action_id, params: params@ };
        proof {
            lemma_removed_wf(before, e.keyset);
            lemma_inserted_wf(before, e);
        }
        match self.find(keyset.as_slice()) {
            Some(i) => {
                assert(entry_views(self.entries@.remove(i as int)) =~= before.entries.remove(
                    i as int,
                ));
                self.entries.remove(i);
            },
            None => {},
        }
        assert(self@ == before.removed(e.keyset));
        let entry = Entry { keyset, priority, action_id, params };
        assert(entry_views(self.entries@.push(entry)) =~= before.removed(e.keyset).entries.push(e));
        self.entries.push(entry);
        Ok(())
    }

    /// Takes the entry with exactly the keyset `keyset` out of the table.
    /// Where there is none the table stays as it was.
    pub fn remove(&mut self, keyset: &[MatchKey])
        requires
            old(self)@.wf(),
        ensures
            final(self)@.wf(),
            final(self)@ == old(self)@.removed(key_views(keyset@)),
    {
        proof {
            lemma_removed_wf(self@, key_views(keyset@));
        }
        let ghost before = self@;
        match self.find(keyset) {
            Some(i) => {
                assert(entry_views(self.entries@.remove(i as int)) =~= before.entries.remove(
                    i as int,
                ));
                self.entries.remove(i);
            },
            None => {},
        }
    }

    /// The first position of the shape that matches by longest prefix.
    fn prefix_position(&self) -> (r: Option<usize>)
        ensures
            match r {
                Some(p) => prefix_position(self@.shape) == Some(p as int),
                None => prefix_position(self@.shape) is None,
            },
    {
        let mut p: usize = 0;
        while p < self.shape.len()
            invariant
                p <= self.shape@.len(),
                forall|q: int| 0 <= q < p ==> self.shape@[q] != MatchKind::LongestPrefix,
            decreases self.shape@.len() - p,
        {
            if self.shape[p] == MatchKind::LongestPrefix {
                proof {
                    assert(is_prefix_position(self@.shape, p as int));
                    let c = choose|c: int| is_prefix_position(self@.shape, c);
                    assert(is_prefix_position(self@.shape, c));
                    assert(c == p);
                }
                return Some(p);
            }
            p += 1;
        }
        None
    }

    /// The index of the entry that a lookup of `fields` selects: among the
    /// entries of which every key matches its field, the one of the longest
    /// prefix where the shape has a longest-prefix position, else of the
    /// highest priority where priorities count; among equals the oldest.
    pub fn lookup_index(&self, fields: &[FieldValue]) -> (r: Option<usize>)
        requires
            self@.wf(),
        ensures
            match r {
                Some(i) => self@.winner(field_views(fields@)) == Some(i as int) && self@.wins(
                    field_views(fields@),
                    i as int,
                ),
                None => self@.winner(field_views(fields@)) is None,
            },
            r is None <==> forall|j: int| !self@.matches_at(field_views(fields@), j),
    {
        let ghost t = self@;
        let ghost fv = field_views(fields@);
        let at = self.prefix_position();
        let mut best: Option<usize> = None;
        let mut best_rank: u64 = 0;
        let mut i: usize = 0;
        while i < self.entries.len()
            invariant
                i <= self.entries@.len(),
                t == self@,
                t.wf(),
                fv == field_views(fields@),
                match at {
                    Some(p) => prefix_position(t.shape) == Some(p as int),
                    None => prefix_position(t.shape) is None,
                },
                match best {
                    Some(b) => {
                        &&& b < i
                        &&& t.matches_at(fv, b as int)
                        &&& best_rank == t.rank(t.entries[b as int])
                        &&& forall|j: int|
                            0 <= j < i && #[trigger] t.matches_at(fv, j) ==> t.rank(t.entries[j])
                                < best_rank || (t.rank(t.entries[j]) == best_rank && b <= j)
                    },
                    None => forall|j: int| 0 <= j < i ==> !t.matches_at(fv, j),
                },
            decreases self.entries@.len() - i,
        {
            let entry = &self.entries[i];
            assert(entry@ == t.entries[i as int]);
            if keyset_matches_fields(entry.keyset.as_slice(), fields) {
                assert(t.fits(t.entries[i as int].keyset));
                let rank: u64 = match at {
                    Some(p) => entry.keyset[p].prefix_len() as u64,
                    None => if self.prioritized {
                        entry.priority as u64
                    } else {
                        0
                    },
                };
                assert(rank == t.rank(t.entries[i as int]));
                if best.is_none() || rank > best_rank {
                    best = Some(i);
                    best_rank = rank;
                }
            }
            i += 1;
        }
        proof {
            match best {
                Some(b) => {
                    assert(t.wins(fv, b as int));
                    lemma_winner_unique(t, fv, b as int, choose|c: int| t.wins(fv, c));
                },
                None => {
                    assert(forall|j: int| !t.matches_at(fv, j));
                },
            }
        }
        best
    }

    /// The action of the entry that a lookup of `fields` selects, or `None`
    /// where no entry matches.
    pub fn lookup(&self, fields: &[FieldValue]) -> (r: Option<MatchedAction<'_>>)
        requires
            self@.wf(),
        ensures
            match r {
                Some(m) => self@.lookup(field_views(fields@)) == Some(m@),
                None => self@.lookup(field_views(fields@)) is None,
            },
            r is None <==> forall|j: int| !self@.matches_at(field_views(fields@), j),
    {
        match self.lookup_index(fields) {
            Some(i) => {
                let entry = &self.entries[i];
                Some(MatchedAction { action_id: entry.action_id, params: entry.params.as_slice() })
            },
            None => None,
        }
    }
}

/// A copy of a table is the table as it was when the copy was made; later
/// changes to the one do not reach the other.
impl Clone for MatchTable {
    fn clone(&self) -> (t: Self)
        ensures
            t@ == self@,
    {
        let mut shape: Vec<MatchKind> = Vec::with_capacity(self.shape.len());
        let mut p: usize = 0;
        while p < self.shape.len()
            invariant
                p <= self.shape@.len(),
                shape@ == self.shape@.subrange(0, p as int),
            decreases self.shape@.len() - p,
        {
            shape.push(self.shape[p]);
            assert(shape@ =~= self.shape@.subrange(0, p as int + 1));
            p += 1;
        }
        assert(shape@ =~= self.shape@);
        let mut entries: Vec<Entry> = Vec::with_capacity(self.entries.len());
        let mut i: usize = 0;
        while i < self.entries.len()
            invariant
                i <= self.entries@.len(),
                entries@.len() == i,
                forall|j: int| 0 <= j < i ==> entries@[j]@ == self.entries@[j]@,
            decreases self.entries@.len() - i,
        {
            entries.push(self.entries[i].clone());
            i += 1;
        }
        assert(entry_views(entries@) =~= entry_views(self.entries@));
        MatchTable { name: self.name.clone(), shape, prioritized: self.prioritized, entries }
    }
}

} // verus!
