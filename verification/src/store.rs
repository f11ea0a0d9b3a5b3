//! The recipe store: a mapping from integer identifier to recipe name with
//! create / replace / read-one / read-all operations, viewed in contracts as
//! a `Map<usize, Seq<char>>`.

use vstd::prelude::*;

verus! {

/// The two logical outcomes beyond success: a create against an occupied
/// identifier, and a replace or read against a missing one. Both are
/// expected results the caller branches on, never faults.
#[derive(Clone, Copy, Debug, PartialEq, Eq, Structural)]
pub enum StoreError {
    Conflict,
    NotFound,
}

/// A create applies only when the identifier is absent.
pub open spec fn create_allowed(m: Map<usize, Seq<char>>, id: usize) -> bool {
    !m.contains_key(id)
}

/// The mapping after a create: extended by the pair when the identifier was
/// absent, untouched when it was occupied.
pub open spec fn after_create(m: Map<usize, Seq<char>>, id: usize, name: Seq<char>) -> Map<
    usize,
    Seq<char>,
> {
    if create_allowed(m, id) {
        m.insert(id, name)
    } else {
        m
    }
}

/// A replace applies only when the identifier is present.
pub open spec fn replace_allowed(m: Map<usize, Seq<char>>, id: usize) -> bool {
    m.contains_key(id)
}

/// The mapping after a replace: the name overwritten when the identifier was
/// present, untouched when it was absent. A replace never creates an entry.
pub open spec fn after_replace(m: Map<usize, Seq<char>>, id: usize, name: Seq<char>) -> Map<
    usize,
    Seq<char>,
> {
    if replace_allowed(m, id) {
        m.insert(id, name)
    } else {
        m
    }
}

/// What a read of one identifier observes: the current name, or nothing.
pub open spec fn lookup(m: Map<usize, Seq<char>>, id: usize) -> Option<Seq<char>> {
    if m.contains_key(id) {
        Some(m[id])
    } else {
        None
    }
}

/// No two positions of the entry list carry the same identifier.
spec fn distinct_keys(s: Seq<(usize, String)>) -> bool {
    forall|i: int, j: int|
        0 <= i < j < s.len() ==> (#[trigger] s[i]).0 != (#[trigger] s[j]).0
}

/// Some position of the entry list carries the identifier.
spec fn has_key(s: Seq<(usize, String)>, k: usize) -> bool {
    exists|i: int| 0 <= i < s.len() && (#[trigger] s[i]).0 == k
}

/// The mapping that an entry list denotes; a later position wins, though the
/// store never holds two positions with one identifier.
spec fn entries_map(s: Seq<(usize, String)>) -> Map<usize, Seq<char>>
    decreases s.len(),
{
    if s.len() == 0 {
        Map::empty()
    } else {
        entries_map(s.drop_last()).insert(s.last().0, s.last().1@)
    }
}

/// On a duplicate-free entry list, the denoted mapping contains exactly the
/// listed identifiers, each bound to the name listed beside it.
proof fn lemma_entries_map_props(s: Seq<(usize, String)>)
    requires
        distinct_keys(s),
    ensures
        forall|k: usize| #[trigger] entries_map(s).contains_key(k) <==> has_key(s, k),
        forall|i: int|
            0 <= i < s.len() ==> entries_map(s).contains_key((#[trigger] s[i]).0)
                && entries_map(s)[s[i].0] == s[i].1@,
    decreases s.len(),
{
    if s.len() == 0 {
    } else {
        let t = s.drop_last();
        let last = s.last();
        assert(forall|i: int| 0 <= i < t.len() ==> t[i] == s[i]);
        lemma_entries_map_props(t);
        assert forall|k: usize| #[trigger] entries_map(s).contains_key(k) implies has_key(s, k) by {
            if k == last.0 {
                assert((s[s.len() - 1]).0 == k);
            } else {
                assert(entries_map(t).contains_key(k));
                let i = choose|i: int| 0 <= i < t.len() && (#[trigger] t[i]).0 == k;
                assert((s[i]).0 == k);
            }
        }
        assert forall|k: usize| has_key(s, k) implies entries_map(s).contains_key(k) by {
            let i = choose|i: int| 0 <= i < s.len() && (#[trigger] s[i]).0 == k;
            if i == s.len() - 1 {
                assert(k == last.0);
            } else {
                assert((t[i]).0 == k);
                assert(has_key(t, k));
            }
        }
        assert forall|i: int|
            0 <= i < s.len() implies entries_map(s).contains_key((s[i]).0) && entries_map(
            s,
        )[s[i].0] == s[i].1@ by {
            if i == s.len() - 1 {
            } else {
                assert(t[i] == s[i]);
                assert((s[i]).0 != last.0);
            }
        }
    }
}

/// The store: holds the id-to-name mapping. Its entry list never carries an
/// identifier twice, so the list and the mapping it denotes agree pointwise.
pub struct RecipeStore {
    entries: Vec<(usize, String)>,
}

impl View for RecipeStore {
    type V = Map<usize, Seq<char>>;

    closed spec fn view(&self) -> Map<usize, Seq<char>> {
        entries_map(self.entries@)
    }
}

impl RecipeStore {
    /// Well-formedness: no identifier occupies two entries. Constructors
    /// establish it and every operation preserves it.
    pub closed spec fn wf(&self) -> bool {
        distinct_keys(self.entries@)
    }

    /// An empty store.
    pub fn new() -> (r: RecipeStore)
        ensures
            r.wf(),
            r@ == Map::<usize, Seq<char>>::empty(),
    {
        RecipeStore { entries: Vec::new() }
    }

    /// The position of the entry carrying `id`, if any.
    fn index_of(&self, id: usize) -> (r: Option<usize>)
        ensures
            (r matches Some(i) ==> i < self.entries@.len() && (self.entries@[i as int]).0 == id),
            (r is None ==> forall|j: int|
                0 <= j < self.entries@.len() ==> (#[trigger] self.entries@[j]).0 != id),
    {
        let n = self.entries.len();
        let mut i: usize = 0;
        while i < n
            invariant
                n == self.entries@.len(),
                i <= n,
                forall|j: int| 0 <= j < i ==> (#[trigger] self.entries@[j]).0 != id,
            decreases n - i,
        {
            if self.entries[i].0 == id {
                return Some(i);
            }
            i = i + 1;
        }
        None
    }

    /// Inserts the pair only if `id` is absent; an occupied identifier is a
    /// conflict and leaves the store untouched. Never overwrites.
    pub fn create(&mut self, id: usize, name: String) -> (r: Result<(), StoreError>)
        requires
            old(self).wf(),
        ensures
            final(self).wf(),
            final(self)@ == after_create(old(self)@, id, name@),
            r is Ok <==> create_allowed(old(self)@, id),
            (r matches Err(e) ==> e == StoreError::Conflict),
    {
        proof {
            lemma_entries_map_props(self.entries@);
        }
        match self.index_of(id) {
            Some(_) => Err(StoreError::Conflict),
            None => {
                let ghost pre = self.entries@;
                let pair = (id, name);
                let ghost gpair = pair;
                self.entries.push(pair);
                proof {
                    assert(self.entries@.drop_last() =~= pre);
                    assert(entries_map(self.entries@) == entries_map(pre).insert(id, gpair.1@));
                    assert(!has_key(pre, id));
                }
                Ok(())
            },
        }
    }

    /// Overwrites the name only if `id` is present; a missing identifier is
    /// not-found and leaves the store untouched. Never creates an entry.
    pub fn replace(&mut self, id: usize, name: String) -> (r: Result<(), StoreError>)
        requires
            old(self).wf(),
        ensures
            final(self).wf(),
            final(self)@ == after_replace(old(self)@, id, name@),
            r is Ok <==> replace_allowed(old(self)@, id),
            (r matches Err(e) ==> e == StoreError::NotFound),
    {
        proof {
            lemma_entries_map_props(self.entries@);
        }
        match self.index_of(id) {
            Some(i) => {
                let ghost pre = self.entries@;
                let _ = self.entries.remove(i);
                let pair = (id, name);
                let ghost gpair = pair;
                self.entries.push(pair);
                proof {
                    lemma_replace_entries(pre, i as int, gpair);
                    assert(self.entries@ == pre.remove(i as int).push(gpair));
                }
                Ok(())
            },
            None => Err(StoreError::NotFound),
        }
    }

    /// Returns the current name for `id`, or nothing when it is absent.
    pub fn get(&self, id: usize) -> (r: Option<String>)
        requires
            self.wf(),
        ensures
            (r matches Some(name) ==> lookup(self@, id) == Some(name@)),
            (r is None ==> lookup(self@, id) is None),
    {
        proof {
            lemma_entries_map_props(self.entries@);
        }
        match self.index_of(id) {
            Some(i) => Some(self.entries[i].1.clone()),
            None => None,
        }
    }

    /// A snapshot of every current pair, in unspecified order: one entry per
    /// live identifier, each carrying that identifier's current name.
    pub fn list(&self) -> (r: Vec<(usize, String)>)
        requires
            self.wf(),
        ensures
            forall|i: int|
                0 <= i < r@.len() ==> self@.contains_key((#[trigger] r@[i]).0)
                    && self@[r@[i].0] == r@[i].1@,
            forall|k: usize|
                #[trigger] self@.contains_key(k) ==> exists|i: int|
                    0 <= i < r@.len() && (#[trigger] r@[i]).0 == k,
            forall|i: int, j: int|
                0 <= i < j < r@.len() ==> (#[trigger] r@[i]).0 != (#[trigger] r@[j]).0,
    {
        proof {
            lemma_entries_map_props(self.entries@);
        }
        let n = self.entries.len();
        let mut out: Vec<(usize, String)> = Vec::new();
        let mut i: usize = 0;
        while i < n
            invariant
                n == self.entries@.len(),
                i <= n,
                out@.len() == i,
                forall|j: int| 0 <= j < i ==> #[trigger] out@[j] == self.entries@[j],
            decreases n - i,
        {
            let id = self.entries[i].0;
            let name = self.entries[i].1.clone();
            out.push((id, name));
            i = i + 1;
        }
        proof {
            assert(out@ =~= self.entries@);
        }
        out
    }
}

/// Removing the one entry that carries an identifier and appending a fresh
/// pair for it denotes exactly the overwritten mapping, and keeps the entry
/// list duplicate-free.
proof fn lemma_replace_entries(s: Seq<(usize, String)>, i: int, pair: (usize, String))
    requires
        distinct_keys(s),
        0 <= i < s.len(),
        (s[i]).0 == pair.0,
    ensures
        distinct_keys(s.remove(i).push(pair)),
        entries_map(s.remove(i).push(pair)) == entries_map(s).insert(pair.0, pair.1@),
{
    let t = s.remove(i);
    let u = t.push(pair);
    let id = pair.0;
    assert(forall|j: int| 0 <= j < i ==> t[j] == s[j]);
    assert(forall|j: int| i <= j < t.len() ==> t[j] == s[j + 1]);
    assert forall|j: int, l: int| 0 <= j < l < t.len() implies (#[trigger] t[j]).0 != (
    #[trigger] t[l]).0 by {
        if j < i {
            if l < i {
                assert((s[j]).0 != (s[l]).0);
            } else {
                assert((s[j]).0 != (s[l + 1]).0);
            }
        } else {
            assert((s[j + 1]).0 != (s[l + 1]).0);
        }
    }
    assert(distinct_keys(t));
    assert forall|j: int| 0 <= j < t.len() implies (#[trigger] t[j]).0 != id by {
        if j < i {
            assert((s[j]).0 != (s[i]).0);
        } else {
            assert((s[i]).0 != (s[j + 1]).0);
        }
    }
    assert forall|j: int, l: int| 0 <= j < l < u.len() implies (#[trigger] u[j]).0 != (
    #[trigger] u[l]).0 by {
        if l < u.len() - 1 {
            assert((t[j]).0 != (t[l]).0);
        } else {
            assert((t[j]).0 != id);
        }
    }
    lemma_entries_map_props(s);
    lemma_entries_map_props(u);
    let m1 = entries_map(u);
    let m2 = entries_map(s).insert(id, pair.1@);
    assert forall|k: usize| m1.contains_key(k) implies m2.contains_key(k) by {
        let j = choose|j: int| 0 <= j < u.len() && (#[trigger] u[j]).0 == k;
        if j < u.len() - 1 {
            if j < i {
                assert((s[j]).0 == k);
            } else {
                assert((s[j + 1]).0 == k);
            }
            assert(has_key(s, k));
        }
    }
    assert forall|k: usize| m2.contains_key(k) implies m1.contains_key(k) by {
        if k == id {
            assert((u[u.len() - 1]).0 == k);
        } else {
            assert(entries_map(s).contains_key(k));
            let j = choose|j: int| 0 <= j < s.len() && (#[trigger] s[j]).0 == k;
            if j < i {
                assert((u[j]).0 == k);
            } else {
                assert(j != i);
                assert((u[j - 1]).0 == k);
            }
            assert(has_key(u, k));
        }
    }
    assert forall|k: usize| m1.contains_key(k) && m2.contains_key(k) implies m1[k] == m2[k] by {
        if k == id {
            assert((u[u.len() - 1]).0 == k);
            assert(m1[k] == pair.1@);
        } else {
            let j = choose|j: int| 0 <= j < u.len() && (#[trigger] u[j]).0 == k;
            assert(j < u.len() - 1);
            assert(m1[k] == (u[j]).1@);
            if j < i {
                assert(s[j] == u[j]);
                assert(entries_map(s)[k] == (s[j]).1@);
            } else {
                assert(s[j + 1] == u[j]);
                assert(entries_map(s)[k] == (s[j + 1]).1@);
            }
        }
    }
    assert(m1 =~= m2);
}

} // verus!
