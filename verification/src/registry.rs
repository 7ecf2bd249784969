//! A registry: an ordered association from canonical identifiers to entities,
//! with unique keys, scanned linearly. Each build stage's output registry is
//! the reference registry of the stages below it.

use vstd::prelude::*;
use crate::ident::Identifier;

verus! {

/// An ordered mapping from `Identifier` to `V` with pairwise distinct keys.
pub struct Registry<V> {
    pub items: Vec<(Identifier, V)>,
}

/// The keys of `items` are pairwise distinct.
pub open spec fn keys_unique<V>(items: Seq<(Identifier, V)>) -> bool {
    forall|i: int, j: int|
        0 <= i < j < items.len() ==> (#[trigger] items[i]).0@ != (#[trigger] items[j]).0@
}

/// The first position at or after `i` whose key is `k`, if any.
pub open spec fn find_at<V>(items: Seq<(Identifier, V)>, k: Seq<char>, i: int) -> Option<int>
    decreases items.len() - i,
{
    if i < 0 || i >= items.len() {
        None
    } else if items[i].0@ == k {
        Some(i)
    } else {
        find_at(items, k, i + 1)
    }
}

/// The registry holds the key `k`.
pub open spec fn has_key<V>(items: Seq<(Identifier, V)>, k: Seq<char>) -> bool {
    find_at(items, k, 0) is Some
}

pub proof fn lemma_find_at_bounds<V>(items: Seq<(Identifier, V)>, k: Seq<char>, i: int)
    requires
        0 <= i <= items.len(),
    ensures
        find_at(items, k, i) matches Some(j) ==> (i <= j < items.len() && items[j].0@ == k),
        find_at(items, k, i) is None ==> forall|q: int|
            i <= q < items.len() ==> (#[trigger] items[q]).0@ != k,
    decreases items.len() - i,
{
    if i < items.len() && items[i].0@ != k {
        lemma_find_at_bounds(items, k, i + 1);
    }
}

/// Appending an absent key keeps the keys pairwise distinct.
pub proof fn lemma_push_keeps_unique<V>(items: Seq<(Identifier, V)>, id: Identifier, v: V)
    requires
        keys_unique(items),
        !has_key(items, id@),
    ensures
        keys_unique(items.push((id, v))),
{
    lemma_find_at_bounds(items, id@, 0);
    let p = items.push((id, v));
    assert forall|i: int, j: int|
        0 <= i < j < p.len() implies (#[trigger] p[i]).0@ != (#[trigger] p[j]).0@ by {
        if j < items.len() {
            assert(p[i] == items[i] && p[j] == items[j]);
        } else {
            assert(p[i] == items[i] && p[j] == (id, v));
        }
    }
}

impl<V> Registry<V> {
    /// The empty registry.
    pub fn new() -> (r: Registry<V>)
        ensures
            r.items@.len() == 0,
    {
        Registry { items: Vec::new() }
    }

    /// How many entries the registry holds.
    pub fn len(&self) -> (r: usize)
        ensures
            r == self.items@.len(),
    {
        self.items.len()
    }

    /// The position of the first entry keyed `k`; exact counterpart of
    /// `find_at` from position zero.
    pub fn find(&self, k: &str) -> (r: Option<usize>)
        ensures
            r is Some <==> has_key(self.items@, k@),
            r matches Some(i) ==> find_at(self.items@, k@, 0) == Some(i as int),
    {
        let n = self.items.len();
        let mut i: usize = 0;
        while i < n
            invariant
                0 <= i <= n,
                n == self.items@.len(),
                find_at(self.items@, k@, 0) == find_at(self.items@, k@, i as int),
            decreases n - i,
        {
            if crate::text::str_eq(self.items[i].0.as_str(), k) {
                return Some(i);
            }
            i += 1;
        }
        None
    }

    /// Whether the registry holds the key.
    pub fn contains_key(&self, id: &Identifier) -> (r: bool)
        ensures
            r == has_key(self.items@, id@),
    {
        self.find(id.as_str()).is_some()
    }

    /// The entity keyed `id`, if any.
    pub fn get(&self, id: &Identifier) -> (r: Option<&V>)
        ensures
            r is Some <==> has_key(self.items@, id@),
            r matches Some(v) ==> (find_at(self.items@, id@, 0) matches Some(i) && *v
                == self.items@[i].1),
    {
        match self.find(id.as_str()) {
            Some(i) => {
                proof {
                    lemma_find_at_bounds(self.items@, id@, 0);
                }
                Some(&self.items[i].1)
            },
            None => None,
        }
    }

    /// Appends an entry under a key the registry does not hold yet.
    pub fn push_new(&mut self, id: Identifier, v: V)
        requires
            !has_key(old(self).items@, id@),
        ensures
            final(self).items@ == old(self).items@.push((id, v)),
    {
        self.items.push((id, v));
    }

    /// Inserts the entry, replacing the existing entry under the same key
    /// when there is one.
    pub fn set_entry(&mut self, id: Identifier, v: V)
        ensures
            (match find_at(old(self).items@, id@, 0) {
                Some(i) => final(self).items@ == old(self).items@.update(i, (id, v)),
                None => final(self).items@ == old(self).items@.push((id, v)),
            }),
            keys_unique(old(self).items@) ==> keys_unique(final(self).items@),
    {
        proof {
            lemma_find_at_bounds(self.items@, id@, 0);
        }
        let ghost idg = id;
        let ghost vg = v;
        match self.find(id.as_str()) {
            Some(i) => {
                let ghost olditems = self.items@;
                let _prev = self.items.remove(i);
                self.items.insert(i, (id, v));
                proof {
                    assert(self.items@ =~= olditems.update(i as int, (idg, vg)));
                    if keys_unique(olditems) {
                        lemma_update_keeps_unique(olditems, i as int, idg, vg);
                    }
                }
            },
            None => {
                let ghost olditems = self.items@;
                self.items.push((id, v));
                proof {
                    if keys_unique(olditems) {
                        lemma_push_keeps_unique(olditems, idg, vg);
                    }
                }
            },
        }
    }
}

/// Some alias in the list lower-cases to `target`.
pub open spec fn alias_list_has(v: Seq<String>, target: Seq<char>) -> bool {
    exists|k: int| 0 <= k < v.len() && crate::text::lower_of((#[trigger] v[k])@) == target
}

/// The first alias entry at or after `i` carrying an alias that lower-cases
/// to `target`, if any.
pub open spec fn alias_match_at(
    items: Seq<(Identifier, Vec<String>)>,
    target: Seq<char>,
    i: int,
) -> Option<int>
    decreases items.len() - i,
{
    if i < 0 || i >= items.len() {
        None
    } else if alias_list_has(items[i].1@, target) {
        Some(i)
    } else {
        alias_match_at(items, target, i + 1)
    }
}

/// An externally supplied mapping from canonical identifier to the known
/// alias names of that territory.
pub struct AliasTable {
    pub items: Vec<(Identifier, Vec<String>)>,
}

impl AliasTable {
    /// The empty alias table.
    pub fn new() -> (r: AliasTable)
        ensures
            r.items@.len() == 0,
    {
        AliasTable { items: Vec::new() }
    }

    /// The first entry carrying an alias whose lower-case form is `target`;
    /// exact counterpart of `alias_match_at` from position zero, with
    /// `target` the lower-case form of the given text.
    pub fn find_alias(&self, target_lc: &str) -> (r: Option<usize>)
        ensures
            r is Some <==> alias_match_at(self.items@, target_lc@, 0) is Some,
            r matches Some(i) ==> (alias_match_at(self.items@, target_lc@, 0) == Some(i as int)
                && i < self.items@.len()),
    {
        let n = self.items.len();
        let mut i: usize = 0;
        while i < n
            invariant
                0 <= i <= n,
                n == self.items@.len(),
                alias_match_at(self.items@, target_lc@, 0) == alias_match_at(
                    self.items@,
                    target_lc@,
                    i as int,
                ),
            decreases n - i,
        {
            let lst = &self.items[i].1;
            let m = lst.len();
            let mut k: usize = 0;
            let mut hit = false;
            while k < m
                invariant
                    0 <= k <= m,
                    m == lst@.len(),
                    hit <==> exists|q: int|
                        0 <= q < k && crate::text::lower_of((#[trigger] lst@[q])@) == target_lc@,
                decreases m - k,
            {
                let lc = crate::text::lowercase(lst[k].as_str());
                if crate::text::str_eq(lc.as_str(), target_lc) {
                    hit = true;
                }
                k += 1;
            }
            proof {
                if hit {
                    assert(alias_list_has(self.items@[i as int].1@, target_lc@));
                } else {
                    assert(!alias_list_has(self.items@[i as int].1@, target_lc@));
                }
            }
            if hit {
                return Some(i);
            }
            i += 1;
        }
        None
    }
}


/// Some alias in the list lower-cases to either target.
pub open spec fn alias_list_has2(v: Seq<String>, t1: Seq<char>, t2: Seq<char>) -> bool {
    exists|k: int|
        0 <= k < v.len() && (crate::text::lower_of((#[trigger] v[k])@) == t1
            || crate::text::lower_of(v[k]@) == t2)
}

/// The first alias entry at or after `i` carrying an alias that lower-cases
/// to either target, if any.
pub open spec fn alias_match2_at(
    items: Seq<(Identifier, Vec<String>)>,
    t1: Seq<char>,
    t2: Seq<char>,
    i: int,
) -> Option<int>
    decreases items.len() - i,
{
    if i < 0 || i >= items.len() {
        None
    } else if alias_list_has2(items[i].1@, t1, t2) {
        Some(i)
    } else {
        alias_match2_at(items, t1, t2, i + 1)
    }
}

/// Some alias in the list is exactly `t`.
pub open spec fn alias_list_exact(v: Seq<String>, t: Seq<char>) -> bool {
    exists|k: int| 0 <= k < v.len() && (#[trigger] v[k])@ == t
}

/// The first alias entry at or after `i` carrying exactly the alias `t`.
pub open spec fn alias_exact_at(items: Seq<(Identifier, Vec<String>)>, t: Seq<char>, i: int) -> Option<
    int,
>
    decreases items.len() - i,
{
    if i < 0 || i >= items.len() {
        None
    } else if alias_list_exact(items[i].1@, t) {
        Some(i)
    } else {
        alias_exact_at(items, t, i + 1)
    }
}

impl AliasTable {
    /// The first entry carrying an alias whose lower-case form is either
    /// target; exact counterpart of `alias_match2_at` from position zero.
    #[verifier::loop_isolation(false)]
    pub fn find_alias_either(&self, t1_lc: &str, t2_lc: &str) -> (r: Option<usize>)
        ensures
            r is Some <==> alias_match2_at(self.items@, t1_lc@, t2_lc@, 0) is Some,
            r matches Some(i) ==> (alias_match2_at(self.items@, t1_lc@, t2_lc@, 0) == Some(
                i as int,
            ) && i < self.items@.len()),
    {
        let n = self.items.len();
        let mut i: usize = 0;
        while i < n
            invariant
                0 <= i <= n,
                alias_match2_at(self.items@, t1_lc@, t2_lc@, 0) == alias_match2_at(
                    self.items@,
                    t1_lc@,
                    t2_lc@,
                    i as int,
                ),
            decreases n - i,
        {
            let lst = &self.items[i].1;
            let m = lst.len();
            let mut k: usize = 0;
            let mut hit = false;
            while k < m
                invariant
                    0 <= k <= m,
                    hit <==> exists|q: int|
                        0 <= q < k && (crate::text::lower_of((#[trigger] lst@[q])@) == t1_lc@
                            || crate::text::lower_of(lst@[q]@) == t2_lc@),
                decreases m - k,
            {
                let lc = crate::text::lowercase(lst[k].as_str());
                if crate::text::str_eq(lc.as_str(), t1_lc) || crate::text::str_eq(
                    lc.as_str(),
                    t2_lc,
                ) {
                    hit = true;
                }
                k += 1;
            }
            proof {
                if hit {
                    assert(alias_list_has2(self.items@[i as int].1@, t1_lc@, t2_lc@));
                } else {
                    assert(!alias_list_has2(self.items@[i as int].1@, t1_lc@, t2_lc@));
                }
            }
            if hit {
                return Some(i);
            }
            i += 1;
        }
        None
    }

    /// The first entry carrying exactly the alias `t`; exact counterpart of
    /// `alias_exact_at` from position zero.
    #[verifier::loop_isolation(false)]
    pub fn find_exact(&self, t: &str) -> (r: Option<usize>)
        ensures
            r is Some <==> alias_exact_at(self.items@, t@, 0) is Some,
            r matches Some(i) ==> (alias_exact_at(self.items@, t@, 0) == Some(i as int) && i
                < self.items@.len()),
    {
        let n = self.items.len();
        let mut i: usize = 0;
        while i < n
            invariant
                0 <= i <= n,
                alias_exact_at(self.items@, t@, 0) == alias_exact_at(self.items@, t@, i as int),
            decreases n - i,
        {
            let lst = &self.items[i].1;
            let m = lst.len();
            let mut k: usize = 0;
            let mut hit = false;
            while k < m
                invariant
                    0 <= k <= m,
                    hit <==> exists|q: int| 0 <= q < k && (#[trigger] lst@[q])@ == t@,
                decreases m - k,
            {
                if crate::text::str_eq(lst[k].as_str(), t) {
                    hit = true;
                }
                k += 1;
            }
            proof {
                if hit {
                    assert(alias_list_exact(self.items@[i as int].1@, t@));
                } else {
                    assert(!alias_list_exact(self.items@[i as int].1@, t@));
                }
            }
            if hit {
                return Some(i);
            }
            i += 1;
        }
        None
    }
}


/// Replacing the entry at a found key keeps the keys pairwise distinct.
pub proof fn lemma_update_keeps_unique<V>(items: Seq<(Identifier, V)>, i: int, id: Identifier, v: V)
    requires
        keys_unique(items),
        0 <= i < items.len(),
        id@ == items[i].0@,
    ensures
        keys_unique(items.update(i, (id, v))),
{
    let p = items.update(i, (id, v));
    assert forall|a: int, b: int|
        0 <= a < b < p.len() implies (#[trigger] p[a]).0@ != (#[trigger] p[b]).0@ by {
        assert(items[a].0@ != items[b].0@);
    }
}

} // verus!
