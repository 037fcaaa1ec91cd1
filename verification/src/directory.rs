//! The directory: the registry of currently joined connections, mapping each
//! connection identity to its display name. It is the single source of truth
//! for who is in the room; sessions insert on a completed handshake and
//! remove on departure, and broadcasts enumerate it to pick recipients.
//!
//! The outbound write capability of each connection is owned by the transport
//! layer and is addressed by the same identity, so the directory itself holds
//! only plain values.
use vstd::prelude::*;

verus! {

/// One joined connection: its identity and its display name.
pub struct UserRecord {
    pub id: u64,
    pub name: String,
}

/// The abstract content of the directory: identities with their names, in
/// roster order.
pub type Entry = (u64, Seq<char>);

pub struct Directory {
    entries: Vec<UserRecord>,
}

/// Does the abstract directory hold an entry for `id`?
pub open spec fn dir_has(d: Seq<Entry>, id: u64) -> bool {
    exists|i: int| 0 <= i < d.len() && (#[trigger] d[i]).0 == id
}

/// The index of the entry for `id`.
pub open spec fn dir_index_of(d: Seq<Entry>, id: u64) -> int {
    choose|i: int| 0 <= i < d.len() && (#[trigger] d[i]).0 == id
}

/// The display name registered for `id`, or the empty name if `id` is not
/// present.
pub open spec fn dir_name_of(d: Seq<Entry>, id: u64) -> Seq<char> {
    if dir_has(d, id) {
        d[dir_index_of(d, id)].1
    } else {
        Seq::empty()
    }
}

/// The names of all entries, in roster order.
pub open spec fn dir_names(d: Seq<Entry>) -> Seq<Seq<char>> {
    d.map_values(|e: Entry| e.1)
}

/// Every entry except the one for `id`: what a departure leaves behind, and
/// the recipient set of a broadcast sent by `id`.
pub open spec fn dir_excluding(d: Seq<Entry>, id: u64) -> Seq<Entry> {
    d.filter(|e: Entry| e.0 != id)
}

/// How the exclusion grows entry by entry.
pub proof fn lemma_dir_excluding_push(d: Seq<Entry>, e: Entry, id: u64)
    ensures
        e.0 != id ==> dir_excluding(d.push(e), id) == dir_excluding(d, id).push(e),
        e.0 == id ==> dir_excluding(d.push(e), id) == dir_excluding(d, id),
{
    assert(d.push(e).drop_last() =~= d);
    assert(d.push(e).last() == e);
    reveal(Seq::filter);
}

proof fn lemma_dir_excluding_empty(id: u64)
    ensures
        dir_excluding(Seq::<Entry>::empty(), id) == Seq::<Entry>::empty(),
{
    reveal(Seq::filter);
}

/// Excluding an identity that is not present changes nothing.
pub proof fn lemma_dir_excluding_absent(d: Seq<Entry>, id: u64)
    requires
        !dir_has(d, id),
    ensures
        dir_excluding(d, id) == d,
    decreases d.len(),
{
    if d.len() == 0 {
        lemma_dir_excluding_empty(id);
        assert(d =~= Seq::<Entry>::empty());
    } else {
        let prefix = d.drop_last();
        assert(d =~= prefix.push(d.last()));
        assert(forall|j: int| 0 <= j < prefix.len() ==> prefix[j] == d[j]);
        assert(!dir_has(prefix, id));
        assert(d[d.len() - 1].0 != id);
        lemma_dir_excluding_absent(prefix, id);
        lemma_dir_excluding_push(prefix, d.last(), id);
    }
}

/// How membership by identity reacts to appending an entry.
pub proof fn lemma_dir_has_push(s: Seq<Entry>, e: Entry)
    ensures
        forall|x: u64| #[trigger] dir_has(s.push(e), x) <==> (dir_has(s, x) || e.0 == x),
{
    assert forall|x: u64| #[trigger] dir_has(s.push(e), x) <==> (dir_has(s, x) || e.0 == x) by {
        let t = s.push(e);
        if dir_has(s, x) {
            let i = choose|i: int| 0 <= i < s.len() && (#[trigger] s[i]).0 == x;
            assert(t[i].0 == x);
        }
        if e.0 == x {
            assert(t[s.len() as int].0 == x);
        }
        if dir_has(t, x) {
            let i = choose|i: int| 0 <= i < t.len() && (#[trigger] t[i]).0 == x;
            if i < s.len() {
                assert(s[i].0 == x);
            }
        }
    }
}

/// The exclusion holds exactly the entries of other identities.
pub proof fn lemma_dir_excluding_membership(d: Seq<Entry>, id: u64)
    ensures
        forall|e: Entry| #[trigger] dir_excluding(d, id).contains(e) <==> (d.contains(e) && e.0
            != id),
        forall|x: u64| #[trigger] dir_has(dir_excluding(d, id), x) <==> (x != id && dir_has(d, x)),
    decreases d.len(),
{
    if d.len() == 0 {
        lemma_dir_excluding_empty(id);
    } else {
        let prefix = d.drop_last();
        assert(d =~= prefix.push(d.last()));
        lemma_dir_excluding_membership(prefix, id);
        lemma_dir_excluding_push(prefix, d.last(), id);
        assert forall|e: Entry| #[trigger] dir_excluding(d, id).contains(e) <==> (d.contains(e)
            && e.0 != id) by {
            let ex = dir_excluding(d, id);
            let exp = dir_excluding(prefix, id);
            if d.last().0 != id {
                assert(ex == exp.push(d.last()));
                assert(ex.contains(e) <==> (exp.contains(e) || e == d.last()));
            } else {
                assert(ex == exp);
            }
            assert(d.contains(e) <==> (prefix.contains(e) || e == d.last()));
        }
        lemma_dir_has_push(prefix, d.last());
        if d.last().0 != id {
            lemma_dir_has_push(dir_excluding(prefix, id), d.last());
        }
        assert forall|x: u64| #[trigger] dir_has(dir_excluding(d, id), x) <==> (x != id && dir_has(
            d,
            x,
        )) by {
            let exp = dir_excluding(prefix, id);
            assert(dir_has(exp, x) <==> (x != id && dir_has(prefix, x)));
        }
    }
}

/// `dir_has` is membership of some entry with that identity.
proof fn lemma_dir_has_contains(d: Seq<Entry>, id: u64)
    ensures
        dir_has(d, id) <==> exists|e: Entry| #[trigger] d.contains(e) && e.0 == id,
{
    if dir_has(d, id) {
        let i = choose|i: int| 0 <= i < d.len() && (#[trigger] d[i]).0 == id;
        assert(d.contains(d[i]));
    }
    if exists|e: Entry| #[trigger] d.contains(e) && e.0 == id {
        let e = choose|e: Entry| #[trigger] d.contains(e) && e.0 == id;
        let i = choose|i: int| 0 <= i < d.len() && d[i] == e;
        assert(d[i].0 == id);
    }
}

/// Removing the single entry for `id` equals excluding `id`, when identities
/// are unique.
proof fn lemma_remove_unique_is_excluding(d: Seq<Entry>, id: u64, i: int)
    requires
        0 <= i < d.len(),
        d[i].0 == id,
        forall|p: int, q: int| 0 <= p < q < d.len() ==> (#[trigger] d[p]).0 != (#[trigger] d[q]).0,
    ensures
        d.remove(i) =~= dir_excluding(d, id),
    decreases d.len(),
{
    let prefix = d.drop_last();
    assert(d =~= prefix.push(d.last()));
    lemma_dir_excluding_push(prefix, d.last(), id);
    if i == d.len() - 1 {
        assert(forall|j: int| 0 <= j < prefix.len() ==> (#[trigger] prefix[j]).0 != id);
        assert(!dir_has(prefix, id));
        lemma_dir_excluding_absent(prefix, id);
        assert(d.remove(i) =~= prefix);
    } else {
        assert(prefix[i] == d[i]);
        lemma_remove_unique_is_excluding(prefix, id, i);
        assert(d.last().0 != id);
        assert(d.remove(i) =~= prefix.remove(i).push(d.last()));
    }
}

impl View for Directory {
    type V = Seq<Entry>;

    closed spec fn view(&self) -> Seq<Entry> {
        Seq::new(self.entries@.len(), |i: int| (self.entries@[i].id, self.entries@[i].name@))
    }
}

impl Directory {
    /// Identities are unique: at most one entry per connection.
    pub open spec fn wf(&self) -> bool {
        forall|i: int, j: int|
            0 <= i < j < self@.len() ==> (#[trigger] self@[i]).0 != (#[trigger] self@[j]).0
    }

    pub open spec fn has(&self, id: u64) -> bool {
        dir_has(self@, id)
    }

    pub fn new() -> (d: Directory)
        ensures
            d@ =~= Seq::<Entry>::empty(),
            d.wf(),
    {
        Directory { entries: Vec::new() }
    }

    pub fn len(&self) -> (n: usize)
        ensures
            n == self@.len(),
    {
        self.entries.len()
    }

    fn find_index(&self, id: u64) -> (r: Option<usize>)
        ensures
            match r {
                Some(i) => 0 <= i < self@.len() && self@[i as int].0 == id,
                None => !self.has(id),
            },
    {
        let mut i: usize = 0;
        while i < self.entries.len()
            invariant
                0 <= i <= self@.len(),
                self@.len() == self.entries@.len(),
                forall|j: int| 0 <= j < i ==> (#[trigger] self@[j]).0 != id,
            decreases self.entries@.len() - i,
        {
            if self.entries[i].id == id {
                return Some(i);
            }
            i = i + 1;
        }
        None
    }

    pub fn contains(&self, id: u64) -> (r: bool)
        ensures
            r == self.has(id),
    {
        self.find_index(id).is_some()
    }

    /// Adds the entry for `id`, or replaces its name if `id` is already
    /// registered; idempotent per identity.
    pub fn insert(&mut self, id: u64, name: String)
        requires
            old(self).wf(),
        ensures
            final(self).wf(),
            old(self).has(id) ==> final(self)@ =~= old(self)@.update(
                dir_index_of(old(self)@, id),
                (id, name@),
            ),
            !old(self).has(id) ==> final(self)@ =~= old(self)@.push((id, name@)),
    {
        let found = self.find_index(id);
        match found {
            Some(i) => {
                proof {
                    let oi = dir_index_of(old(self)@, id);
                    assert(old(self)@[oi].0 == id);
                    assert(oi == i as int);
                }
                self.entries[i] = UserRecord { id, name };
                proof {
                    assert(self@ =~= old(self)@.update(i as int, (id, name@)));
                    assert forall|p: int, q: int| 0 <= p < q < self@.len() implies (
                    #[trigger] self@[p]).0 != (#[trigger] self@[q]).0 by {
                        assert(old(self)@[p].0 != old(self)@[q].0);
                    }
                }
            },
            None => {
                self.entries.push(UserRecord { id, name });
                proof {
                    assert(self@ =~= old(self)@.push((id, name@)));
                    assert forall|p: int, q: int| 0 <= p < q < self@.len() implies (
                    #[trigger] self@[p]).0 != (#[trigger] self@[q]).0 by {
                        if q < self@.len() - 1 {
                            assert(old(self)@[p].0 != old(self)@[q].0);
                        } else {
                            assert(old(self)@[p].0 != id);
                        }
                    }
                }
            },
        }
    }

    /// Deletes the entry for `id` if present; a no-op otherwise.
    pub fn remove(&mut self, id: u64)
        requires
            old(self).wf(),
        ensures
            final(self).wf(),
            !final(self).has(id),
            final(self)@ =~= dir_excluding(old(self)@, id),
    {
        let found = self.find_index(id);
        match found {
            Some(i) => {
                proof {
                    lemma_remove_unique_is_excluding(old(self)@, id, i as int);
                }
                self.entries.remove(i);
                proof {
                    assert(self@ =~= old(self)@.remove(i as int));
                    lemma_dir_excluding_membership(old(self)@, id);
                    lemma_dir_has_contains(self@, id);
                }
            },
            None => {
                proof {
                    lemma_dir_excluding_absent(old(self)@, id);
                }
            },
        }
    }

    /// The display names of all joined users, in roster order.
    pub fn lookup_roster(&self) -> (r: Vec<String>)
        ensures
            r.deep_view() =~= dir_names(self@),
    {
        let mut r: Vec<String> = Vec::new();
        let mut i: usize = 0;
        while i < self.entries.len()
            invariant
                0 <= i <= self@.len(),
                self@.len() == self.entries@.len(),
                r.deep_view() =~= dir_names(self@.take(i as int)),
                forall|j: int| 0 <= j < self@.len() ==> (#[trigger] self@[j]).1
                    == self.entries@[j].name@,
            decreases self.entries@.len() - i,
        {
            r.push(self.entries[i].name.clone());
            proof {
                assert(dir_names(self@.take(i + 1)) =~= dir_names(self@.take(i as int)).push(
                    self@[i as int].1,
                ));
                assert(r.deep_view() =~= dir_names(self@.take(i + 1)));
            }
            i = i + 1;
        }
        proof {
            assert(self@.take(self@.len() as int) =~= self@);
        }
        r
    }

    /// A point-in-time copy of every entry except the excluded identity:
    /// the recipient set of a broadcast by `excluding`.
    pub fn snapshot_recipients(&self, excluding: u64) -> (r: Vec<(u64, String)>)
        ensures
            r.deep_view() =~= dir_excluding(self@, excluding),
    {
        let mut r: Vec<(u64, String)> = Vec::new();
        let mut i: usize = 0;
        while i < self.entries.len()
            invariant
                0 <= i <= self@.len(),
                self@.len() == self.entries@.len(),
                r.deep_view() =~= dir_excluding(self@.take(i as int), excluding),
                forall|j: int| 0 <= j < self@.len() ==> #[trigger] self@[j] == (
                self.entries@[j].id,
                self.entries@[j].name@,
                ),
            decreases self.entries@.len() - i,
        {
            proof {
                assert(self@.take(i + 1).drop_last() =~= self@.take(i as int));
                assert(self@.take(i + 1) =~= self@.take(i as int).push(self@[i as int]));
                lemma_dir_excluding_push(self@.take(i as int), self@[i as int], excluding);
            }
            if self.entries[i].id != excluding {
                r.push((self.entries[i].id, self.entries[i].name.clone()));
            }
            proof {
                assert(r.deep_view() =~= dir_excluding(self@.take(i + 1), excluding));
            }
            i = i + 1;
        }
        proof {
            assert(self@.take(self@.len() as int) =~= self@);
        }
        r
    }

    /// The display name registered for `id`, if any.
    pub fn get_name(&self, id: u64) -> (r: Option<String>)
        requires
            self.wf(),
        ensures
            match r {
                Some(n) => self.has(id) && n@ == dir_name_of(self@, id),
                None => !self.has(id),
            },
    {
        let found = self.find_index(id);
        match found {
            Some(i) => {
                proof {
                    let oi = dir_index_of(self@, id);
                    assert(self@[oi].0 == id);
                    assert(oi == i as int);
                }
                Some(self.entries[i].name.clone())
            },
            None => None,
        }
    }
}

} // verus!
