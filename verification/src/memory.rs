//! Scoped memory: a run-lifetime key-value store partitioned into named
//! scopes. Agents commit structured output under their own scope and read
//! the scopes of agents that ran before them. Keys are unique within a
//! scope and the last write wins; usage is counted per scope.

use vstd::map::*;
use vstd::prelude::*;

use crate::scan::str_eq;

verus! {

struct MemEntry {
    key: String,
    value: String,
}

struct MemScope {
    name: String,
    entries: Vec<MemEntry>,
    uses: u64,
}

/// The store, modelled as a map from scope name to a map from key to the
/// stored serialized value (see [`Memory::view`]).
pub struct Memory {
    scopes: Vec<MemScope>,
}

spec fn entries_map(es: Seq<MemEntry>) -> Map<Seq<char>, Seq<char>>
    decreases es.len(),
{
    if es.len() == 0 {
        Map::empty()
    } else {
        entries_map(es.drop_last()).insert(es.last().key@, es.last().value@)
    }
}

spec fn entry_keys(es: Seq<MemEntry>) -> Seq<Seq<char>> {
    es.map_values(|e: MemEntry| e.key@)
}

proof fn lemma_entries_map_dom(es: Seq<MemEntry>)
    ensures
        entries_map(es).dom() =~= entry_keys(es).to_set(),
    decreases es.len(),
{
    if es.len() > 0 {
        lemma_entries_map_dom(es.drop_last());
        assert(entry_keys(es).drop_last() =~= entry_keys(es.drop_last()));
        assert(entry_keys(es) =~= entry_keys(es).drop_last().push(es.last().key@));
        seq_to_set_push(entry_keys(es).drop_last(), es.last().key@);
    }
}

proof fn seq_to_set_push<A>(s: Seq<A>, a: A)
    ensures
        s.push(a).to_set() =~= s.to_set().insert(a),
{
    assert forall|x: A| s.push(a).to_set().contains(x) implies s.to_set().insert(a).contains(
        x,
    ) by {
        let i = choose|i: int| 0 <= i < s.push(a).len() && s.push(a)[i] == x;
        if i < s.len() {
            assert(s[i] == x);
        }
    }
    assert forall|x: A| s.to_set().insert(a).contains(x) implies s.push(a).to_set().contains(
        x,
    ) by {
        if s.to_set().contains(x) {
            let i = choose|i: int| 0 <= i < s.len() && s[i] == x;
            assert(s.push(a)[i] == x);
        } else {
            assert(s.push(a)[s.len() as int] == x);
        }
    }
}

impl MemScope {
    spec fn wf(self) -> bool {
        forall|i: int, j: int|
            0 <= i < j < self.entries.len() ==> self.entries[i].key@ != self.entries[j].key@
    }
}

impl Memory {
    /// Internal well-formedness: scope names are unique, and keys are
    /// unique within each scope.
    pub closed spec fn wf(self) -> bool {
        &&& forall|i: int, j: int|
            0 <= i < j < self.scopes.len() ==> self.scopes[i].name@ != self.scopes[j].name@
        &&& forall|i: int| 0 <= i < self.scopes.len() ==> (#[trigger] self.scopes[i]).wf()
    }

    /// The stored data: scope name -> key -> value.
    pub closed spec fn view(self) -> Map<Seq<char>, Map<Seq<char>, Seq<char>>> {
        Map::new(
            |sc: Seq<char>| exists|i: int| 0 <= i < self.scopes.len() && self.scopes[i].name@ == sc,
            |sc: Seq<char>|
                entries_map(
                    self.scopes[choose|i: int|
                        0 <= i < self.scopes.len() && self.scopes[i].name@ == sc].entries@,
                ),
        )
    }

    /// How often each scope has been touched by `store` or `get`.
    pub closed spec fn usage(self) -> Map<Seq<char>, int> {
        Map::new(
            |sc: Seq<char>| exists|i: int| 0 <= i < self.scopes.len() && self.scopes[i].name@ == sc,
            |sc: Seq<char>|
                self.scopes[choose|i: int|
                    0 <= i < self.scopes.len() && self.scopes[i].name@ == sc].uses as int,
        )
    }

    /// The keys of `scope` in first-store order.
    pub closed spec fn keys_in_order(self, sc: Seq<char>) -> Seq<Seq<char>> {
        if exists|i: int| 0 <= i < self.scopes.len() && self.scopes[i].name@ == sc {
            entry_keys(
                self.scopes[choose|i: int|
                    0 <= i < self.scopes.len() && self.scopes[i].name@ == sc].entries@,
            )
        } else {
            Seq::empty()
        }
    }

    /// The number of scopes that have ever been written.
    pub closed spec fn scope_count(self) -> nat {
        self.scopes@.len()
    }

    /// A fresh, empty store.
    pub fn new() -> (r: Memory)
        ensures
            r.wf(),
            r@ == Map::<Seq<char>, Map<Seq<char>, Seq<char>>>::empty(),
            r.usage() == Map::<Seq<char>, int>::empty(),
    {
        let r = Memory { scopes: Vec::new() };
        proof {
            assert(r@ =~= Map::<Seq<char>, Map<Seq<char>, Seq<char>>>::empty());
            assert(r.usage() =~= Map::<Seq<char>, int>::empty());
        }
        r
    }

    fn find_scope(&self, scope: &str) -> (r: Option<usize>)
        requires
            self.wf(),
        ensures
            match r {
                Some(i) => i < self.scopes.len() && self.scopes@[i as int].name@ == scope@,
                None => forall|i: int|
                    0 <= i < self.scopes.len() ==> self.scopes[i].name@ != scope@,
            },
    {
        let mut i: usize = 0;
        while i < self.scopes.len()
            invariant
                0 <= i <= self.scopes.len(),
                forall|t: int| 0 <= t < i ==> self.scopes[t].name@ != scope@,
            decreases self.scopes.len() - i,
        {
            if str_eq(self.scopes[i].name.as_str(), scope) {
                return Some(i);
            }
            i = i + 1;
        }
        None
    }

    proof fn lemma_view_at(self, i: int)
        requires
            self.wf(),
            0 <= i < self.scopes.len(),
        ensures
            self@.contains_key(self.scopes[i].name@),
            self@[self.scopes[i].name@] == entries_map(self.scopes[i].entries@),
            self.usage()[self.scopes[i].name@] == self.scopes[i].uses as int,
            self.keys_in_order(self.scopes[i].name@) == entry_keys(self.scopes[i].entries@),
    {
        let sc = self.scopes[i].name@;
        let w = choose|j: int| 0 <= j < self.scopes.len() && self.scopes[j].name@ == sc;
        assert(0 <= w < self.scopes.len() && self.scopes[w].name@ == sc);
        if w != i {
            assert(false);
        }
    }

    proof fn lemma_view_absent(self, sc: Seq<char>)
        requires
            forall|i: int| 0 <= i < self.scopes.len() ==> self.scopes[i].name@ != sc,
        ensures
            !self@.contains_key(sc),
            !self.usage().contains_key(sc),
            self.keys_in_order(sc) == Seq::<Seq<char>>::empty(),
    {
    }

    /// Store `value` under `(scope, key)`. A first write to a scope creates
    /// it; a repeated key overwrites in place, so the last write wins.
    pub fn store(&mut self, scope: &str, key: &str, value: String)
        requires
            old(self).wf(),
        ensures
            final(self).wf(),
            final(self)@ =~= old(self)@.insert(
                scope@,
                (if old(self)@.contains_key(scope@) {
                    old(self)@[scope@]
                } else {
                    Map::empty()
                }).insert(key@, value@),
            ),
            final(self).keys_in_order(scope@) == (if old(self).keys_in_order(scope@).contains(
                key@,
            ) {
                old(self).keys_in_order(scope@)
            } else {
                old(self).keys_in_order(scope@).push(key@)
            }),
            forall|sc: Seq<char>|
                sc != scope@ ==> final(self).keys_in_order(sc) == old(self).keys_in_order(sc),
            final(self).usage() =~= old(self).usage().insert(
                scope@,
                bump(
                    if old(self).usage().contains_key(scope@) {
                        old(self).usage()[scope@]
                    } else {
                        0
                    },
                ),
            ),
    {
        let found = self.find_scope(scope);
        match found {
            Some(i) => {
                proof {
                    self.lemma_view_at(i as int);
                }
                let ghost oldself = *self;
                let mut sc_rec = self.scopes.remove(i);
                let ghost old_entries = sc_rec.entries@;
                let hit = find_entry_index(&sc_rec.entries, key);
                match hit {
                    Some(h) => {
                        sc_rec.entries[h] = MemEntry { key: string_copy(key), value };
                        proof {
                            lemma_entries_update(old_entries, h as int, sc_rec.entries@);
                            assert(entry_keys(old_entries)[h as int] == key@);
                            assert(entry_keys(old_entries).contains(key@));
                        }
                    },
                    None => {
                        sc_rec.entries.push(MemEntry { key: string_copy(key), value });
                        proof {
                            assert(sc_rec.entries@.drop_last() =~= old_entries);
                            assert(entry_keys(sc_rec.entries@) =~= entry_keys(old_entries).push(
                                key@,
                            ));
                            assert(!entry_keys(old_entries).contains(key@)) by {
                                if entry_keys(old_entries).contains(key@) {
                                    let t = choose|t: int|
                                        0 <= t < old_entries.len() && entry_keys(old_entries)[t]
                                            == key@;
                                    assert(old_entries[t].key@ == key@);
                                }
                            }
                        }
                    },
                }
                sc_rec.uses = bump_u64(sc_rec.uses);
                self.scopes.insert(i, sc_rec);
                proof {
                    assert(self.scopes@ =~= oldself.scopes@.update(i as int, sc_rec));
                    assert(self.wf());
                    self.lemma_view_at(i as int);
                    assert forall|sc: Seq<char>| sc != scope@ implies self.keys_in_order(sc)
                        == oldself.keys_in_order(sc) by {
                        lemma_other_scopes(oldself, *self, i as int, sc);
                    }
                    assert_maps_equal!(
                        self@,
                        oldself@.insert(scope@, oldself@[scope@].insert(key@, value@)),
                        sc => {
                            if sc != scope@ {
                                lemma_other_scopes(oldself, *self, i as int, sc);
                            }
                        }
                    );
                    if oldself.keys_in_order(scope@).contains(key@) {
                        assert(self.keys_in_order(scope@) == oldself.keys_in_order(scope@));
                    }
                    assert_maps_equal!(
                        self.usage(),
                        oldself.usage().insert(scope@, bump(oldself.usage()[scope@])),
                        sc => {
                            if sc != scope@ {
                                lemma_other_scopes(oldself, *self, i as int, sc);
                            }
                        }
                    );
                }
            },
            None => {
                proof {
                    self.lemma_view_absent(scope@);
                }
                let ghost oldself = *self;
                let mut entries: Vec<MemEntry> = Vec::new();
                entries.push(MemEntry { key: string_copy(key), value });
                self.scopes.push(MemScope { name: string_copy(scope), entries, uses: 1 });
                proof {
                    let i = self.scopes.len() - 1;
                    assert(self.wf());
                    self.lemma_view_at(i);
                    assert(self.scopes[i].entries@.drop_last() =~= Seq::<MemEntry>::empty());
                    assert(entries_map(Seq::<MemEntry>::empty()) =~= Map::<
                        Seq<char>,
                        Seq<char>,
                    >::empty());
                    assert(entries_map(self.scopes[i].entries@) =~= Map::<
                        Seq<char>,
                        Seq<char>,
                    >::empty().insert(key@, value@));
                    assert(entry_keys(self.scopes[i].entries@) =~= Seq::<
                        Seq<char>,
                    >::empty().push(key@));
                    assert forall|sc: Seq<char>| sc != scope@ implies self.keys_in_order(sc)
                        == oldself.keys_in_order(sc) by {
                        lemma_other_scopes(oldself, *self, i, sc);
                    }
                    assert_maps_equal!(
                        self@,
                        oldself@.insert(
                            scope@,
                            Map::<Seq<char>, Seq<char>>::empty().insert(key@, value@),
                        ),
                        sc => {
                            if sc != scope@ {
                                lemma_other_scopes(oldself, *self, i, sc);
                            }
                        }
                    );
                    assert_maps_equal!(
                        self.usage(),
                        oldself.usage().insert(scope@, 1int),
                        sc => {
                            if sc != scope@ {
                                lemma_other_scopes(oldself, *self, i, sc);
                            }
                        }
                    );
                }
            },
        }
    }

    /// Read the value under `(scope, key)`, counting the access.
    pub fn get(&mut self, scope: &str, key: &str) -> (r: Option<String>)
        requires
            old(self).wf(),
        ensures
            final(self).wf(),
            final(self)@ == old(self)@,
            forall|sc: Seq<char>| final(self).keys_in_order(sc) == old(self).keys_in_order(sc),
            match r {
                Some(v) => old(self)@.contains_key(scope@) && old(self)@[scope@].contains_key(
                    key@,
                ) && v@ == old(self)@[scope@][key@],
                None => !(old(self)@.contains_key(scope@) && old(self)@[scope@].contains_key(
                    key@,
                )),
            },
            final(self).usage() =~= (if old(self)@.contains_key(scope@) {
                old(self).usage().insert(scope@, bump(old(self).usage()[scope@]))
            } else {
                old(self).usage()
            }),
    {
        let found = self.find_scope(scope);
        match found {
            Some(i) => {
                proof {
                    self.lemma_view_at(i as int);
                }
                let ghost oldself = *self;
                let mut sc_rec = self.scopes.remove(i);
                let r = lookup_entry(&sc_rec.entries, key);
                sc_rec.uses = bump_u64(sc_rec.uses);
                self.scopes.insert(i, sc_rec);
                proof {
                    assert(self.scopes@ =~= oldself.scopes@.update(i as int, sc_rec));
                    assert(self.wf());
                    self.lemma_view_at(i as int);
                    assert forall|sc: Seq<char>| sc != scope@ implies self.keys_in_order(sc)
                        == oldself.keys_in_order(sc) by {
                        lemma_other_scopes(oldself, *self, i as int, sc);
                    }
                    assert_maps_equal!(
                        self@,
                        oldself@,
                        sc => {
                            if sc != scope@ {
                                lemma_other_scopes(oldself, *self, i as int, sc);
                            }
                        }
                    );
                    assert_maps_equal!(
                        self.usage(),
                        oldself.usage().insert(scope@, bump(oldself.usage()[scope@])),
                        sc => {
                            if sc != scope@ {
                                lemma_other_scopes(oldself, *self, i as int, sc);
                            }
                        }
                    );
                }
                r
            },
            None => {
                proof {
                    self.lemma_view_absent(scope@);
                }
                None
            },
        }
    }

    /// Is there a value under `(scope, key)`? Does not count as a use.
    pub fn has(&self, scope: &str, key: &str) -> (r: bool)
        requires
            self.wf(),
        ensures
            r == (self@.contains_key(scope@) && self@[scope@].contains_key(key@)),
    {
        match self.find_scope(scope) {
            Some(i) => {
                proof {
                    self.lemma_view_at(i as int);
                }
                let r = lookup_entry(&self.scopes[i].entries, key);
                r.is_some()
            },
            None => {
                proof {
                    self.lemma_view_absent(scope@);
                }
                false
            },
        }
    }

    /// All keys of `scope`, in first-store order; empty for an unknown
    /// scope. The result enumerates the scope's key set exactly, without
    /// duplicates.
    pub fn list_keys(&self, scope: &str) -> (r: Vec<String>)
        requires
            self.wf(),
        ensures
            r@.map_values(|k: String| k@) == self.keys_in_order(scope@),
            r@.map_values(|k: String| k@).to_set() =~= (if self@.contains_key(scope@) {
                self@[scope@].dom()
            } else {
                Set::empty()
            }),
            forall|i: int, j: int| 0 <= i < j < r@.len() ==> r@[i]@ != r@[j]@,
    {
        match self.find_scope(scope) {
            Some(i) => {
                proof {
                    self.lemma_view_at(i as int);
                    lemma_entries_map_dom(self.scopes[i as int].entries@);
                }
                let entries = &self.scopes[i].entries;
                let mut r: Vec<String> = Vec::new();
                let mut k: usize = 0;
                while k < entries.len()
                    invariant
                        0 <= k <= entries.len(),
                        r@.len() == k,
                        forall|t: int| 0 <= t < k ==> r@[t]@ == entries@[t].key@,
                    decreases entries.len() - k,
                {
                    r.push(string_copy(entries[k].key.as_str()));
                    k = k + 1;
                }
                proof {
                    assert(r@.map_values(|k: String| k@) =~= entry_keys(entries@));
                }
                r
            },
            None => {
                proof {
                    self.lemma_view_absent(scope@);
                }
                let r: Vec<String> = Vec::new();
                proof {
                    assert(r@.map_values(|k: String| k@) =~= Seq::<Seq<char>>::empty());
                    assert(r@.map_values(|k: String| k@).to_set() =~= Set::empty());
                }
                r
            },
        }
    }

    /// Usage counters, one pair per known scope.
    pub fn usage_stats(&self) -> (r: Vec<(String, u64)>)
        requires
            self.wf(),
        ensures
            r@.len() == self.scope_count(),
            forall|i: int|
                0 <= i < r@.len() ==> self.usage().contains_key(#[trigger] r@[i].0@)
                    && r@[i].1 as int == self.usage()[r@[i].0@],
            forall|i: int, j: int| 0 <= i < j < r@.len() ==> r@[i].0@ != r@[j].0@,
    {
        let mut r: Vec<(String, u64)> = Vec::new();
        let mut k: usize = 0;
        while k < self.scopes.len()
            invariant
                self.wf(),
                0 <= k <= self.scopes.len(),
                r@.len() == k,
                forall|i: int| 0 <= i < k ==> (#[trigger] r@[i].0@) == self.scopes@[i].name@,
                forall|i: int|
                    0 <= i < k ==> self.usage().contains_key(#[trigger] r@[i].0@) && r@[i].1 as int
                        == self.usage()[r@[i].0@],
            decreases self.scopes.len() - k,
        {
            proof {
                self.lemma_view_at(k as int);
            }
            r.push((string_copy(self.scopes[k].name.as_str()), self.scopes[k].uses));
            k = k + 1;
        }
        r
    }
}

/// A saturating increment: usage counters never overflow.
pub open spec fn bump(n: int) -> int {
    if n >= u64::MAX {
        n
    } else {
        n + 1
    }
}

fn bump_u64(n: u64) -> (r: u64)
    ensures
        r as int == bump(n as int),
{
    if n == u64::MAX {
        n
    } else {
        n + 1
    }
}

fn string_copy(s: &str) -> (r: String)
    ensures
        r@ == s@,
{
    String::from_str(s)
}

fn find_entry_index(entries: &Vec<MemEntry>, key: &str) -> (r: Option<usize>)
    ensures
        match r {
            Some(h) => h < entries@.len() && entries@[h as int].key@ == key@,
            None => forall|t: int| 0 <= t < entries@.len() ==> entries@[t].key@ != key@,
        },
{
    let mut k: usize = 0;
    while k < entries.len()
        invariant
            0 <= k <= entries.len(),
            forall|t: int| 0 <= t < k ==> entries@[t].key@ != key@,
        decreases entries.len() - k,
    {
        if str_eq(entries[k].key.as_str(), key) {
            return Some(k);
        }
        k = k + 1;
    }
    None
}

fn lookup_entry(entries: &Vec<MemEntry>, key: &str) -> (r: Option<String>)
    ensures
        match r {
            Some(v) => entries_map(entries@).contains_key(key@) && v@ == entries_map(
                entries@,
            )[key@],
            None => !entries_map(entries@).contains_key(key@),
        },
{
    let mut k: usize = 0;
    let mut r: Option<String> = None;
    while k < entries.len()
        invariant
            0 <= k <= entries.len(),
            match r {
                Some(v) => entries_map(entries@.subrange(0, k as int)).contains_key(key@) && v@
                    == entries_map(entries@.subrange(0, k as int))[key@],
                None => !entries_map(entries@.subrange(0, k as int)).contains_key(key@),
            },
        decreases entries.len() - k,
    {
        proof {
            assert(entries@.subrange(0, k + 1).drop_last() =~= entries@.subrange(0, k as int));
            assert(entries@.subrange(0, k + 1).last() == entries@[k as int]);
        }
        if str_eq(entries[k].key.as_str(), key) {
            r = Some(string_copy(entries[k].value.as_str()));
        }
        k = k + 1;
    }
    proof {
        assert(entries@.subrange(0, entries@.len() as int) =~= entries@);
    }
    r
}

proof fn lemma_entries_update(old_es: Seq<MemEntry>, h: int, new_es: Seq<MemEntry>)
    requires
        0 <= h < old_es.len(),
        new_es.len() == old_es.len(),
        forall|t: int| 0 <= t < old_es.len() && t != h ==> new_es[t] == old_es[t],
        new_es[h].key@ == old_es[h].key@,
        forall|i: int, j: int| 0 <= i < j < old_es.len() ==> old_es[i].key@ != old_es[j].key@,
    ensures
        entries_map(new_es) =~= entries_map(old_es).insert(new_es[h].key@, new_es[h].value@),
        entry_keys(new_es) =~= entry_keys(old_es),
    decreases old_es.len(),
{
    assert(entry_keys(new_es) =~= entry_keys(old_es));
    if old_es.len() > 0 {
        if h == old_es.len() - 1 {
            assert(new_es.drop_last() =~= old_es.drop_last());
        } else {
            lemma_entries_update(old_es.drop_last(), h, new_es.drop_last());
            lemma_entries_map_dom(old_es.drop_last());
            assert(!entry_keys(old_es.drop_last()).contains(old_es.last().key@)) by {
                if entry_keys(old_es.drop_last()).contains(old_es.last().key@) {
                    let i = choose|i: int|
                        0 <= i < old_es.len() - 1 && entry_keys(old_es.drop_last())[i]
                            == old_es.last().key@;
                    assert(old_es[i].key@ == old_es[old_es.len() - 1].key@);
                }
            }
        }
    }
}

/// Memory writes are scope-isolated: a store under scope `a`, which takes a
/// memory satisfying [`Memory::store`]'s contract from `pre` to `post`,
/// leaves every other scope `b` exactly as it was — so a value stored under
/// `(a, k)` never becomes visible under `(b, k)`.
pub proof fn lemma_store_scope_isolated(
    pre: Map<Seq<char>, Map<Seq<char>, Seq<char>>>,
    post: Map<Seq<char>, Map<Seq<char>, Seq<char>>>,
    a: Seq<char>,
    k: Seq<char>,
    v: Seq<char>,
    b: Seq<char>,
)
    requires
        post == pre.insert(
            a,
            (if pre.contains_key(a) {
                pre[a]
            } else {
                Map::empty()
            }).insert(k, v),
        ),
        b != a,
    ensures
        post.contains_key(b) == pre.contains_key(b),
        post.contains_key(b) ==> post[b] == pre[b],
{
}

/// Round trip between `store` and `list_keys`: a store under `(a, k)` makes
/// the key set of scope `a` exactly the old key set plus `k`, so after `n`
/// distinct stores the listed keys are exactly the `n` keys written, each
/// once ([`Memory::list_keys`] returns a duplicate-free enumeration of that
/// set, and a repeated key leaves the set unchanged: the last value wins).
pub proof fn lemma_store_key_set(
    pre: Map<Seq<char>, Map<Seq<char>, Seq<char>>>,
    post: Map<Seq<char>, Map<Seq<char>, Seq<char>>>,
    a: Seq<char>,
    k: Seq<char>,
    v: Seq<char>,
)
    requires
        post == pre.insert(
            a,
            (if pre.contains_key(a) {
                pre[a]
            } else {
                Map::empty()
            }).insert(k, v),
        ),
    ensures
        post.contains_key(a),
        post[a].dom() =~= (if pre.contains_key(a) {
            pre[a].dom()
        } else {
            Set::empty()
        }).insert(k),
        post[a][k] == v,
{
}

/// Scopes other than the one touched keep their data, keys and counters.
proof fn lemma_other_scopes(m1: Memory, m2: Memory, i: int, sc: Seq<char>)
    requires
        m1.wf(),
        m2.wf(),
        0 <= i < m2.scopes.len(),
        m2.scopes.len() == m1.scopes.len() || m2.scopes.len() == m1.scopes.len() + 1,
        forall|t: int| 0 <= t < m1.scopes.len() && t != i ==> m2.scopes[t] == m1.scopes[t],
        i < m1.scopes.len() ==> m2.scopes[i].name@ == m1.scopes[i].name@,
        m2.scopes.len() == m1.scopes.len() + 1 ==> i == m1.scopes.len(),
        sc != m2.scopes[i].name@,
    ensures
        m2.keys_in_order(sc) == m1.keys_in_order(sc),
        m2@.contains_key(sc) == m1@.contains_key(sc),
        m2@.contains_key(sc) ==> m2@[sc] == m1@[sc],
        m2.usage().contains_key(sc) == m1.usage().contains_key(sc),
        m2.usage().contains_key(sc) ==> m2.usage()[sc] == m1.usage()[sc],
{
    if exists|t: int| 0 <= t < m1.scopes.len() && m1.scopes[t].name@ == sc {
        let t = choose|t: int| 0 <= t < m1.scopes.len() && m1.scopes[t].name@ == sc;
        m1.lemma_view_at(t);
        assert(m2.scopes[t].name@ == sc);
        m2.lemma_view_at(t);
    } else {
        m1.lemma_view_absent(sc);
        assert(forall|t: int| 0 <= t < m2.scopes.len() ==> m2.scopes[t].name@ != sc);
        m2.lemma_view_absent(sc);
    }
}

} // verus!
