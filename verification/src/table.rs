//! A table from names to handles.

use vstd::prelude::*;

verus! {

struct Entry {
    id: String,
    handle: u64,
}

/// A finite map from names to handles.
pub struct Table {
    entries: Vec<Entry>,
}

/// No two entries have the same name.
pub open spec fn ids_once(entries: Seq<(Seq<char>, u64)>) -> bool {
    forall|i: int, j: int|
        0 <= i < j < entries.len() ==> (#[trigger] entries[i]).0 != (#[trigger] entries[j]).0
}

/// Some entry has this name.
pub open spec fn has_id(entries: Seq<(Seq<char>, u64)>, id: Seq<char>) -> bool {
    exists|i: int| 0 <= i < entries.len() && (#[trigger] entries[i]).0 == id
}

/// Where the entry with this name stands.
pub open spec fn index_of_id(entries: Seq<(Seq<char>, u64)>, id: Seq<char>) -> int {
    choose|i: int| 0 <= i < entries.len() && (#[trigger] entries[i]).0 == id
}

/// The map that the entries list.
pub open spec fn entries_map(entries: Seq<(Seq<char>, u64)>) -> Map<Seq<char>, u64> {
    Map::new(
        |id: Seq<char>| has_id(entries, id),
        |id: Seq<char>| entries[index_of_id(entries, id)].1,
    )
}

/// The entries whose flag is set, in their order.
pub open spec fn kept(entries: Seq<(Seq<char>, u64)>, keep: Seq<bool>) -> Seq<(Seq<char>, u64)>
    decreases entries.len(),
{
    if entries.len() == 0 {
        Seq::empty()
    } else {
        let rest = kept(entries.drop_last(), keep);
        if keep[entries.len() - 1] {
            rest.push(entries.last())
        } else {
            rest
        }
    }
}

/// The names of the entries whose flag is not set, in their order.
pub open spec fn dropped(entries: Seq<(Seq<char>, u64)>, keep: Seq<bool>) -> Seq<Seq<char>>
    decreases entries.len(),
{
    if entries.len() == 0 {
        Seq::empty()
    } else {
        let rest = dropped(entries.drop_last(), keep);
        if keep[entries.len() - 1] {
            rest
        } else {
            rest.push(entries.last().0)
        }
    }
}

/// The characters of each string.
pub open spec fn strings_view(strings: Seq<String>) -> Seq<Seq<char>> {
    Seq::new(strings.len(), |i: int| strings[i]@)
}

/// An entry's name leads to its handle.
pub proof fn lemma_entry_in_map(entries: Seq<(Seq<char>, u64)>, i: int)
    requires
        ids_once(entries),
        0 <= i < entries.len(),
    ensures
        entries_map(entries).dom().contains(entries[i].0),
        entries_map(entries)[entries[i].0] == entries[i].1,
{
    let id = entries[i].0;
    assert(has_id(entries, id));
    let j = index_of_id(entries, id);
    assert(0 <= j < entries.len() && entries[j].0 == id);
    if i < j {
        assert(entries[i].0 != entries[j].0);
    } else if j < i {
        assert(entries[j].0 != entries[i].0);
    }
}

/// The map has as many names as there are entries.
pub proof fn lemma_entries_map_len(entries: Seq<(Seq<char>, u64)>)
    requires
        ids_once(entries),
    ensures
        entries_map(entries).dom().finite(),
        entries_map(entries).dom().len() == entries.len(),
    decreases entries.len(),
{
    let dom = entries_map(entries).dom();
    if entries.len() == 0 {
        assert(dom =~= Set::<Seq<char>>::empty());
    } else {
        let rest = entries.drop_last();
        let last = entries.last().0;
        assert forall|i: int, j: int| 0 <= i < j < rest.len() implies (#[trigger] rest[i]).0 != (
        #[trigger] rest[j]).0 by {
            assert(entries[i].0 != entries[j].0);
        }
        lemma_entries_map_len(rest);
        let rest_dom = entries_map(rest).dom();
        assert(!rest_dom.contains(last)) by {
            if has_id(rest, last) {
                let i = index_of_id(rest, last);
                assert(rest[i].0 == last);
                assert(entries[i].0 != entries[entries.len() - 1].0);
            }
        }
        assert forall|id: Seq<char>| dom.contains(id) == rest_dom.insert(last).contains(id) by {
            if has_id(entries, id) {
                let i = index_of_id(entries, id);
                assert(entries[i].0 == id);
                if i < rest.len() {
                    assert(rest[i].0 == id);
                    assert(has_id(rest, id));
                }
            }
            if has_id(rest, id) {
                let i = index_of_id(rest, id);
                assert(rest[i].0 == id);
                assert(entries[i].0 == id);
            }
            assert(entries[entries.len() - 1].0 == last);
        }
        assert(dom =~= rest_dom.insert(last));
    }
}

/// What is kept are the entries whose flag is set.
proof fn lemma_kept(entries: Seq<(Seq<char>, u64)>, keep: Seq<bool>)
    requires
        ids_once(entries),
        entries.len() <= keep.len(),
    ensures
        ids_once(kept(entries, keep)),
        forall|a: int|
            0 <= a < kept(entries, keep).len() ==> entries.contains(
                #[trigger] kept(entries, keep)[a],
            ),
        forall|i: int|
            0 <= i < entries.len() ==> (has_id(kept(entries, keep), (#[trigger] entries[i]).0)
                == keep[i]),
    decreases entries.len(),
{
    let out = kept(entries, keep);
    if entries.len() > 0 {
        let init = entries.drop_last();
        let rest = kept(init, keep);
        let last = entries.last();
        let n = init.len() as int;
        assert forall|i: int, j: int| 0 <= i < j < init.len() implies (#[trigger] init[i]).0 != (
        #[trigger] init[j]).0 by {
            assert(entries[i].0 != entries[j].0);
        }
        lemma_kept(init, keep);
        assert(!has_id(rest, last.0)) by {
            if has_id(rest, last.0) {
                let a = index_of_id(rest, last.0);
                assert(init.contains(rest[a]));
                let i = init.index_of(rest[a]);
                assert(entries[i].0 != entries[n].0);
            }
        }
        assert forall|a: int| 0 <= a < out.len() implies entries.contains(#[trigger] out[a]) by {
            if a < rest.len() {
                assert(out[a] == rest[a]);
                assert(init.contains(rest[a]));
                let i = init.index_of(rest[a]);
                assert(entries[i] == rest[a]);
            } else {
                assert(entries[n] == out[a]);
            }
        }
        assert forall|i: int, j: int| 0 <= i < j < out.len() implies (#[trigger] out[i]).0 != (
        #[trigger] out[j]).0 by {
            assert(out[i] == rest[i]);
            if j < rest.len() {
                assert(rest[i].0 != rest[j].0);
            } else {
                assert(rest[i].0 != last.0);
            }
        }
        assert forall|i: int| 0 <= i < entries.len() implies (has_id(out, (
        #[trigger] entries[i]).0) == keep[i]) by {
            if i < n {
                assert(init[i] == entries[i]);
                assert(has_id(rest, init[i].0) == keep[i]);
                if has_id(rest, init[i].0) {
                    let a = index_of_id(rest, init[i].0);
                    assert(out[a] == rest[a]);
                }
                if has_id(out, init[i].0) {
                    let a = index_of_id(out, init[i].0);
                    if a < rest.len() {
                        assert(rest[a].0 == init[i].0);
                    } else {
                        assert(entries[i].0 != entries[n].0);
                    }
                }
            } else if keep[n] {
                assert(out[rest.len() as int].0 == last.0);
            }
        }
    }
}

/// What is dropped are the names of the entries whose flag is not set.
proof fn lemma_dropped(entries: Seq<(Seq<char>, u64)>, keep: Seq<bool>, id: Seq<char>)
    requires
        entries.len() <= keep.len(),
    ensures
        dropped(entries, keep).contains(id) <==> exists|i: int|
            0 <= i < entries.len() && (#[trigger] entries[i]).0 == id && !keep[i],
    decreases entries.len(),
{
    let out = dropped(entries, keep);
    if entries.len() > 0 {
        let init = entries.drop_last();
        let rest = dropped(init, keep);
        let n = init.len() as int;
        lemma_dropped(init, keep, id);
        if out.contains(id) {
            let a = out.index_of(id);
            if a < rest.len() {
                assert(rest[a] == id);
                assert(rest.contains(id));
                let i = choose|i: int|
                    0 <= i < init.len() && (#[trigger] init[i]).0 == id && !keep[i];
                assert(entries[i].0 == id && !keep[i]);
            } else {
                assert(entries[n].0 == id && !keep[n]);
            }
        }
        if exists|i: int| 0 <= i < entries.len() && (#[trigger] entries[i]).0 == id && !keep[i] {
            let i = choose|i: int|
                0 <= i < entries.len() && (#[trigger] entries[i]).0 == id && !keep[i];
            if i < n {
                assert(init[i].0 == id && !keep[i]);
                let a = rest.index_of(id);
                assert(out[a] == id);
            } else {
                assert(out[rest.len() as int] == id);
            }
        }
    }
}

/// Keeping some entries parts them: an entry is kept or its name is dropped, as its flag says,
/// and nothing else is kept or dropped.
pub proof fn retaining_parts_the_entries(entries: Seq<(Seq<char>, u64)>, keep: Seq<bool>)
    requires
        ids_once(entries),
        entries.len() <= keep.len(),
    ensures
        kept(entries, keep).len() + dropped(entries, keep).len() == entries.len(),
        forall|i: int|
            0 <= i < entries.len() ==> {
                &&& kept(entries, keep).contains(#[trigger] entries[i]) == keep[i]
                &&& dropped(entries, keep).contains(entries[i].0) == !keep[i]
            },
        forall|a: int|
            0 <= a < kept(entries, keep).len() ==> entries.contains(
                #[trigger] kept(entries, keep)[a],
            ),
        forall|id: Seq<char>| #[trigger]
            dropped(entries, keep).contains(id) ==> exists|i: int|
                0 <= i < entries.len() && (#[trigger] entries[i]).0 == id,
{
    lemma_kept(entries, keep);
    lemma_parts_len(entries, keep);
    let out = kept(entries, keep);
    assert forall|i: int| 0 <= i < entries.len() implies {
        &&& out.contains(#[trigger] entries[i]) == keep[i]
        &&& dropped(entries, keep).contains(entries[i].0) == !keep[i]
    } by {
        assert(has_id(out, entries[i].0) == keep[i]);
        if keep[i] {
            let a = index_of_id(out, entries[i].0);
            assert(entries.contains(out[a]));
            let b = entries.index_of(out[a]);
            if b < i {
                assert(entries[b].0 != entries[i].0);
            } else if i < b {
                assert(entries[i].0 != entries[b].0);
            }
            assert(out[a] == entries[i]);
        }
        if out.contains(entries[i]) {
            assert(out[out.index_of(entries[i])].0 == entries[i].0);
        }
        lemma_dropped(entries, keep, entries[i].0);
        if dropped(entries, keep).contains(entries[i].0) {
            let b = choose|b: int|
                0 <= b < entries.len() && (#[trigger] entries[b]).0 == entries[i].0 && !keep[b];
            if b < i {
                assert(entries[b].0 != entries[i].0);
            } else if i < b {
                assert(entries[i].0 != entries[b].0);
            }
        }
    }
    assert forall|id: Seq<char>| #[trigger]
        dropped(entries, keep).contains(id) implies exists|i: int|
        0 <= i < entries.len() && (#[trigger] entries[i]).0 == id by {
        lemma_dropped(entries, keep, id);
    }
}

proof fn lemma_parts_len(entries: Seq<(Seq<char>, u64)>, keep: Seq<bool>)
    ensures
        kept(entries, keep).len() + dropped(entries, keep).len() == entries.len(),
    decreases entries.len(),
{
    if entries.len() > 0 {
        lemma_parts_len(entries.drop_last(), keep);
    }
}

impl View for Table {
    type V = Map<Seq<char>, u64>;

    open spec fn view(&self) -> Map<Seq<char>, u64> {
        entries_map(self.entries())
    }
}

impl Table {
    /// The entries, in the order in which [`Table::handles`] and [`Table::ids`] list them.
    pub closed spec fn entries(&self) -> Seq<(Seq<char>, u64)> {
        Seq::new(self.entries@.len(), |i: int| (self.entries@[i].id@, self.entries@[i].handle))
    }

    /// No name comes twice.
    pub open spec fn wf(&self) -> bool {
        ids_once(self.entries())
    }

    /// The empty table.
    pub fn new() -> (table: Table)
        ensures
            table.wf(),
            table.entries() == Seq::<(Seq<char>, u64)>::empty(),
            table@ == Map::<Seq<char>, u64>::empty(),
    {
        let table = Table { entries: Vec::new() };
        assert(table.entries() =~= Seq::<(Seq<char>, u64)>::empty());
        assert(table@ =~= Map::<Seq<char>, u64>::empty());
        table
    }

    /// How many names the table holds.
    pub fn len(&self) -> (n: usize)
        requires
            self.wf(),
        ensures
            n == self@.dom().len(),
            n == self.entries().len(),
    {
        proof {
            lemma_entries_map_len(self.entries());
        }
        self.entries.len()
    }

    fn position(&self, id: &String) -> (found: Option<usize>)
        requires
            self.wf(),
        ensures
            match found {
                Some(i) => {
                    &&& i < self.entries().len()
                    &&& self.entries()[i as int].0 == id@
                    &&& self@.dom().contains(id@)
                    &&& self@[id@] == self.entries()[i as int].1
                },
                None => !self@.dom().contains(id@),
            },
    {
        let mut i: usize = 0;
        while i < self.entries.len()
            invariant
                i <= self.entries.len(),
                self.wf(),
                forall|a: int| 0 <= a < i ==> (#[trigger] self.entries()[a]).0 != id@,
            decreases self.entries.len() - i,
        {
            if self.entries[i].id == *id {
                proof {
                    lemma_entry_in_map(self.entries(), i as int);
                }
                return Some(i);
            }
            i = i + 1;
        }
        assert(!has_id(self.entries(), id@));
        None
    }

    /// The handle under a name.
    pub fn get(&self, id: &String) -> (handle: Option<u64>)
        requires
            self.wf(),
        ensures
            handle == (if self@.dom().contains(id@) {
                Some(self@[id@])
            } else {
                None
            }),
    {
        match self.position(id) {
            Some(i) => Some(self.entries[i].handle),
            None => None,
        }
    }

    /// Puts a handle under a name, in place of one that was there.
    pub fn insert(&mut self, id: String, handle: u64)
        requires
            old(self).wf(),
        ensures
            final(self).wf(),
            final(self)@ == old(self)@.insert(id@, handle),
    {
        let ghost before = self.entries();
        let ghost name = id@;
        match self.position(&id) {
            Some(i) => {
                self.entries.set(i, Entry { id, handle });
                let ghost after = self.entries();
                proof {
                    assert(after =~= before.update(i as int, (name, handle)));
                    assert forall|k: Seq<char>| has_id(after, k) == has_id(before, k) by {
                        if has_id(after, k) {
                            let a = index_of_id(after, k);
                            assert(after[a].0 == k);
                            assert(before[a].0 == k);
                        }
                        if has_id(before, k) {
                            let a = index_of_id(before, k);
                            assert(before[a].0 == k);
                            assert(after[a].0 == k);
                        }
                    }
                    assert(forall|a: int| 0 <= a < after.len() ==> (#[trigger] after[a]).0 == before[a].0);
                    assert forall|k: Seq<char>| #[trigger] has_id(after, k) implies entries_map(
                        after,
                    )[k] == entries_map(before).insert(name, handle)[k] by {
                        let a = index_of_id(after, k);
                        assert(after[a].0 == k && before[a].0 == k);
                        lemma_entry_in_map(after, a);
                        lemma_entry_in_map(before, a);
                        if a != i as int {
                            assert(after[a] == before[a]);
                            if k == name {
                                if a < i {
                                    assert(before[a].0 != before[i as int].0);
                                } else {
                                    assert(before[i as int].0 != before[a].0);
                                }
                            }
                        }
                    }
                    assert(self@ =~= old(self)@.insert(name, handle));
                }
            },
            None => {
                self.entries.push(Entry { id, handle });
                let ghost after = self.entries();
                proof {
                    assert(after =~= before.push((name, handle)));
                    assert forall|i: int, j: int| 0 <= i < j < after.len() implies (
                    #[trigger] after[i]).0 != (#[trigger] after[j]).0 by {
                        assert(after[i] == before[i]);
                        if j == before.len() {
                            assert(!has_id(before, name));
                            assert(before[i].0 != name);
                        } else {
                            assert(before[i].0 != before[j].0);
                        }
                    }
                    assert forall|k: Seq<char>|
                        has_id(after, k) == (has_id(before, k) || k == name) by {
                        if has_id(after, k) {
                            let a = index_of_id(after, k);
                            assert(after[a].0 == k);
                            if a < before.len() {
                                assert(before[a].0 == k);
                            }
                        }
                        if has_id(before, k) {
                            let a = index_of_id(before, k);
                            assert(before[a].0 == k);
                            assert(after[a].0 == k);
                        }
                        assert(after[before.len() as int].0 == name);
                    }
                    assert forall|k: Seq<char>| #[trigger] has_id(after, k) implies entries_map(
                        after,
                    )[k] == entries_map(before).insert(name, handle)[k] by {
                        let a = index_of_id(after, k);
                        assert(after[a].0 == k);
                        lemma_entry_in_map(after, a);
                        if a < before.len() {
                            assert(after[a] == before[a]);
                            lemma_entry_in_map(before, a);
                            assert(k != name);
                        }
                    }
                    assert(self@ =~= old(self)@.insert(name, handle));
                }
            },
        }
    }

    /// Takes a name out; returns the handle that was there.
    pub fn remove(&mut self, id: &String) -> (handle: Option<u64>)
        requires
            old(self).wf(),
        ensures
            final(self).wf(),
            final(self)@ == old(self)@.remove(id@),
            handle == (if old(self)@.dom().contains(id@) {
                Some(old(self)@[id@])
            } else {
                None
            }),
    {
        let ghost before = self.entries();
        match self.position(id) {
            Some(i) => {
                let entry = self.entries.remove(i);
                let ghost after = self.entries();
                let ghost at = i as int;
                proof {
                    assert(after =~= before.remove(at));
                    assert forall|a: int, b: int| 0 <= a < b < after.len() implies (
                    #[trigger] after[a]).0 != (#[trigger] after[b]).0 by {
                        let a0 = if a < at { a } else { a + 1 };
                        let b0 = if b < at { b } else { b + 1 };
                        assert(after[a] == before[a0] && after[b] == before[b0]);
                        assert(before[a0].0 != before[b0].0);
                    }
                    assert forall|k: Seq<char>|
                        has_id(after, k) == (has_id(before, k) && k != id@) by {
                        if has_id(after, k) {
                            let a = index_of_id(after, k);
                            let a0 = if a < at { a } else { a + 1 };
                            assert(before[a0].0 == k);
                            if a0 < at {
                                assert(before[a0].0 != before[at].0);
                            } else {
                                assert(before[at].0 != before[a0].0);
                            }
                        }
                        if has_id(before, k) && k != id@ {
                            let a = index_of_id(before, k);
                            let a1 = if a < at { a } else { a - 1 };
                            assert(after[a1].0 == k);
                        }
                    }
                    assert forall|k: Seq<char>| #[trigger] has_id(after, k) implies entries_map(
                        after,
                    )[k] == entries_map(before)[k] by {
                        let a = index_of_id(after, k);
                        let a0 = if a < at { a } else { a + 1 };
                        assert(after[a] == before[a0]);
                        lemma_entry_in_map(after, a);
                        lemma_entry_in_map(before, a0);
                    }
                    assert(self@ =~= old(self)@.remove(id@));
                }
                Some(entry.handle)
            },
            None => {
                assert(self@ =~= old(self)@.remove(id@));
                None
            },
        }
    }

    /// The handles of all entries.
    pub fn handles(&self) -> (handles: Vec<u64>)
        ensures
            handles@.len() == self.entries().len(),
            forall|i: int|
                0 <= i < handles@.len() ==> #[trigger] handles@[i] == self.entries()[i].1,
    {
        let mut handles: Vec<u64> = Vec::new();
        let mut i: usize = 0;
        while i < self.entries.len()
            invariant
                i <= self.entries.len(),
                handles@.len() == i,
                forall|a: int| 0 <= a < i ==> #[trigger] handles@[a] == self.entries()[a].1,
            decreases self.entries.len() - i,
        {
            handles.push(self.entries[i].handle);
            i = i + 1;
        }
        handles
    }

    /// The names of all entries.
    pub fn ids(&self) -> (ids: Vec<String>)
        ensures
            ids@.len() == self.entries().len(),
            forall|i: int| 0 <= i < ids@.len() ==> (#[trigger] ids@[i])@ == self.entries()[i].0,
    {
        let mut ids: Vec<String> = Vec::new();
        let mut i: usize = 0;
        while i < self.entries.len()
            invariant
                i <= self.entries.len(),
                ids@.len() == i,
                forall|a: int| 0 <= a < i ==> (#[trigger] ids@[a])@ == self.entries()[a].0,
            decreases self.entries.len() - i,
        {
            ids.push(self.entries[i].id.clone());
            i = i + 1;
        }
        ids
    }

    /// Keeps the entries whose flag is set and takes the others out; returns the names that
    /// were taken out.
    pub fn retain(&mut self, keep: &Vec<bool>) -> (removed: Vec<String>)
        requires
            old(self).wf(),
            keep@.len() == old(self).entries().len(),
        ensures
            final(self).wf(),
            final(self).entries() == kept(old(self).entries(), keep@),
            strings_view(removed@) == dropped(old(self).entries(), keep@),
            final(self)@ == old(self)@.remove_keys(
                dropped(old(self).entries(), keep@).to_set(),
            ),
            forall|i: int|
                0 <= i < keep@.len() ==> final(self)@.dom().contains(
                    (#[trigger] old(self).entries()[i]).0,
                ) == keep@[i],
            forall|id: Seq<char>| #[trigger]
                final(self)@.dom().contains(id) ==> old(self)@.dom().contains(id)
                    && final(self)@[id] == old(self)@[id],
            removed@.len() + final(self).entries().len() == old(self).entries().len(),
            forall|a: int|
                0 <= a < removed@.len() ==> old(self)@.dom().contains((#[trigger] removed@[a])@)
                    && !final(self)@.dom().contains(removed@[a]@),
            forall|i: int|
                0 <= i < keep@.len() && !keep@[i] ==> exists|a: int|
                    0 <= a < removed@.len() && (#[trigger] removed@[a])@ == (
                    #[trigger] old(self).entries()[i]).0,
    {
        let ghost before = self.entries();
        let mut entries: Vec<Entry> = Vec::new();
        let mut removed: Vec<String> = Vec::new();
        let mut i: usize = 0;
        let n: usize = self.entries.len();
        assert(strings_view(removed@) =~= dropped(before.take(0), keep@));
        while i < n
            invariant
                i <= n,
                n == self.entries.len(),
                n == keep.len(),
                before == self.entries(),
                Seq::new(entries@.len(), |a: int| (entries@[a].id@, entries@[a].handle)) == kept(
                    before.take(i as int),
                    keep@,
                ),
                strings_view(removed@) == dropped(before.take(i as int), keep@),
            decreases n - i,
        {
            let ghost taken = before.take(i as int + 1);
            let ghost old_entries = entries@;
            let ghost old_removed = removed@;
            assert(taken.drop_last() =~= before.take(i as int));
            assert(taken.last() == before[i as int]);
            let id = self.entries[i].id.clone();
            if keep[i] {
                entries.push(Entry { id, handle: self.entries[i].handle });
                assert(Seq::new(entries@.len(), |a: int| (entries@[a].id@, entries@[a].handle))
                    =~= Seq::new(
                    old_entries.len(),
                    |a: int| (old_entries[a].id@, old_entries[a].handle),
                ).push(taken.last()));
            } else {
                removed.push(id);
                assert(strings_view(removed@) =~= strings_view(old_removed).push(taken.last().0));
            }
            i = i + 1;
        }
        assert(before.take(n as int) =~= before);
        self.entries = entries;
        proof {
            let after = self.entries();
            assert(after =~= kept(before, keep@));
            lemma_kept(before, keep@);
            assert forall|k: Seq<char>| #[trigger] has_id(after, k) implies has_id(before, k)
                && entries_map(after)[k] == entries_map(before)[k] by {
                let a = index_of_id(after, k);
                assert(before.contains(after[a]));
                let b = before.index_of(after[a]);
                assert(before[b] == after[a]);
                lemma_entry_in_map(after, a);
                lemma_entry_in_map(before, b);
            }
            let gone = dropped(before, keep@).to_set();
            assert forall|k: Seq<char>|
                has_id(after, k) == (has_id(before, k) && !gone.contains(k)) by {
                lemma_dropped(before, keep@, k);
                if has_id(before, k) {
                    let b = index_of_id(before, k);
                    assert(before[b].0 == k);
                    assert(has_id(after, before[b].0) == keep@[b]);
                    if gone.contains(k) {
                        let i = choose|i: int|
                            0 <= i < before.len() && (#[trigger] before[i]).0 == k && !keep@[i];
                        assert(has_id(after, before[i].0) == keep@[i]);
                    }
                }
            }
            assert(self@ =~= old(self)@.remove_keys(gone));
            let names = dropped(before, keep@);
            retaining_parts_the_entries(before, keep@);
            assert forall|a: int| 0 <= a < removed@.len() implies old(self)@.dom().contains(
                (#[trigger] removed@[a])@,
            ) && !self@.dom().contains(removed@[a]@) by {
                assert(names[a] == removed@[a]@);
                assert(names.contains(names[a]));
                lemma_dropped(before, keep@, names[a]);
            }
            assert forall|i: int| 0 <= i < keep@.len() && !keep@[i] implies exists|a: int|
                0 <= a < removed@.len() && (#[trigger] removed@[a])@ == (
                #[trigger] before[i]).0 by {
                lemma_dropped(before, keep@, before[i].0);
                let a = names.index_of(before[i].0);
                assert(removed@[a]@ == before[i].0);
            }
        }
        removed
    }
}

/// The entries list the map: a name leads to a handle exactly where there is an entry of the two.
pub proof fn entries_list_the_map(table: &Table, id: Seq<char>, handle: u64)
    requires
        table.wf(),
    ensures
        table.entries().contains((id, handle)) <==> table@.dom().contains(id) && table@[id]
            == handle,
        table@.dom().finite(),
        table@.dom().len() == table.entries().len(),
{
    let entries = table.entries();
    lemma_entries_map_len(entries);
    if entries.contains((id, handle)) {
        lemma_entry_in_map(entries, entries.index_of((id, handle)));
    }
    if table@.dom().contains(id) {
        let i = index_of_id(entries, id);
        assert(entries[i].0 == id);
        lemma_entry_in_map(entries, i);
        assert(entries[i] == (id, entries[i].1));
    }
}

} // verus!
