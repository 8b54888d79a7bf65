//! The sets and maps that code generation keeps, keyed by identifier numbers and by names.

use std::collections::{HashMap, HashSet};
use vstd::prelude::*;

use crate::codegen::print::{replace_whole_word, words_replaced};
use crate::sorting::push_new;
use crate::text::{
    all_replaced, cat2, clone_texts, decimal, lemma_decimal_injective, owned, replace_all, same, texts,
    wide_decimal_text,
};

verus! {

broadcast use {vstd::std_specs::hash::group_hash_axioms, vstd::set::group_set_axioms};

// ---------------------------------------------------------------------------
// IdSet
// ---------------------------------------------------------------------------

/// A set of identifier numbers.
pub struct IdSet {
    ids: HashSet<u32>,
}

impl View for IdSet {
    type V = Set<u32>;

    closed spec fn view(&self) -> Set<u32> {
        self.ids@
    }
}

impl IdSet {
    pub fn is_empty(&self) -> (r: bool)
        ensures
            r == (self@ == Set::<u32>::empty()),
    {
        self.ids.is_empty()
    }

    pub fn new() -> (r: Self)
        ensures
            r@ == Set::<u32>::empty(),
    {
        IdSet { ids: HashSet::new() }
    }

    /// Adds `id`; the result tells whether it is new.
    pub fn insert(&mut self, id: u32) -> (r: bool)
        ensures
            final(self)@ == old(self)@.insert(id),
            r == !old(self)@.contains(id),
    {
        self.ids.insert(id)
    }

    pub fn remove(&mut self, id: u32)
        ensures
            final(self)@ == old(self)@.remove(id),
    {
        self.ids.remove(&id);
    }

    pub fn contains(&self, id: u32) -> (r: bool)
        ensures
            r == self@.contains(id),
    {
        self.ids.contains(&id)
    }
}

// ---------------------------------------------------------------------------
// NameSet
// ---------------------------------------------------------------------------

/// The names that stand in `v`.
pub open spec fn name_set(v: Seq<String>) -> Set<Seq<char>> {
    Set::new(|n: Seq<char>| exists|i: int| 0 <= i < v.len() && (#[trigger] v[i])@ == n)
}

/// A finite set of names.
pub struct NameSet {
    names: Vec<String>,
}

impl View for NameSet {
    type V = Set<Seq<char>>;

    closed spec fn view(&self) -> Set<Seq<char>> {
        name_set(self.names@)
    }
}

proof fn lemma_name_set_push(v: Seq<String>, s: String)
    ensures
        name_set(v.push(s)) == name_set(v).insert(s@),
{
    assert forall|n: Seq<char>| name_set(v.push(s)).contains(n) <==> name_set(v).insert(
        s@,
    ).contains(n) by {
        if name_set(v).contains(n) {
            let i = choose|i: int| 0 <= i < v.len() && (#[trigger] v[i])@ == n;
            assert(v.push(s)[i]@ == n);
        }
        if n == s@ {
            assert(v.push(s)[v.len() as int]@ == n);
        }
    }
    assert(name_set(v.push(s)) =~= name_set(v).insert(s@));
}

proof fn lemma_name_set_finite(v: Seq<String>)
    ensures
        name_set(v).finite(),
        name_set(v).len() <= v.len(),
    decreases v.len(),
{
    if v.len() == 0 {
        assert(name_set(v) =~= Set::<Seq<char>>::empty());
    } else {
        lemma_name_set_finite(v.drop_last());
        lemma_name_set_push(v.drop_last(), v.last());
        assert(v.drop_last().push(v.last()) =~= v);
    }
}

impl NameSet {
    /// The names in the order in which they were added.
    pub closed spec fn list(&self) -> Seq<Seq<char>> {
        texts(self.names@)
    }

    pub proof fn lemma_list(&self)
        ensures
            self@ == self.list().to_set(),
    {
        assert forall|n: Seq<char>| self@.contains(n) <==> self.list().to_set().contains(n) by {
            if self@.contains(n) {
                let i = choose|i: int|
                    0 <= i < self.names@.len() && (#[trigger] self.names@[i])@ == n;
                assert(self.list()[i] == n);
            }
            if self.list().contains(n) {
                let i = choose|i: int| 0 <= i < self.list().len() && self.list()[i] == n;
                assert(self.names@[i]@ == n);
            }
        }
        assert(self@ =~= self.list().to_set());
    }

    pub fn new() -> (r: Self)
        ensures
            r@ == Set::<Seq<char>>::empty(),
            r.list() == Seq::<Seq<char>>::empty(),
    {
        let r = NameSet { names: Vec::new() };
        proof {
            assert(r@ =~= Set::<Seq<char>>::empty());
            assert(r.list() =~= Seq::<Seq<char>>::empty());
        }
        r
    }

    /// The names in the order in which they were added.
    pub fn in_order(&self) -> (r: &Vec<String>)
        ensures
            texts(r@) == self.list(),
    {
        &self.names
    }

    pub fn copy(&self) -> (r: Self)
        ensures
            r.list() == self.list(),
            r@ == self@,
    {
        let r = NameSet { names: clone_texts(&self.names) };
        proof {
            self.lemma_list();
            r.lemma_list();
        }
        r
    }

    pub fn contains(&self, name: &str) -> (r: bool)
        ensures
            r == self@.contains(name@),
    {
        let mut i: usize = 0;
        while i < self.names.len()
            invariant
                i <= self.names@.len(),
                forall|k: int| 0 <= k < i ==> (#[trigger] self.names@[k])@ != name@,
            decreases self.names@.len() - i,
        {
            if same(&self.names[i], name) {
                return true;
            }
            i = i + 1;
        }
        false
    }

    /// Adds `name`; the result tells whether it is new.
    pub fn insert(&mut self, name: &str) -> (r: bool)
        ensures
            final(self)@ == old(self)@.insert(name@),
            final(self).list() == push_new(old(self).list(), name@),
            r == !old(self)@.contains(name@),
    {
        proof {
            self.lemma_list();
        }
        if self.contains(name) {
            proof {
                assert(self@.insert(name@) =~= self@);
            }
            return false;
        }
        let s = owned(name);
        proof {
            lemma_name_set_push(self.names@, s);
        }
        self.names.push(s);
        proof {
            assert(self.list() =~= old(self).list().push(name@));
        }
        true
    }

    pub fn remove(&mut self, name: &str)
        ensures
            final(self)@ == old(self)@.remove(name@),
    {
        let mut kept: Vec<String> = Vec::new();
        let ghost all = self.names@;
        let mut i: usize = 0;
        proof {
            assert(all.take(0) =~= Seq::<String>::empty());
            assert(name_set(kept@) =~= name_set(all.take(0)).remove(name@));
        }
        while i < self.names.len()
            invariant
                i <= self.names@.len(),
                self.names@ == all,
                name_set(kept@) == name_set(all.take(i as int)).remove(name@),
            decreases self.names@.len() - i,
        {
            proof {
                assert(all.take(i as int + 1) =~= all.take(i as int).push(all[i as int]));
                lemma_name_set_push(all.take(i as int), all[i as int]);
            }
            if !same(&self.names[i], name) {
                let s = self.names[i].clone();
                proof {
                    lemma_name_set_push(kept@, s);
                }
                kept.push(s);
            }
            proof {
                assert(name_set(kept@) =~= name_set(all.take(i as int + 1)).remove(name@));
            }
            i = i + 1;
        }
        proof {
            assert(all.take(all.len() as int) =~= all);
        }
        self.names = kept;
    }

    pub fn is_empty(&self) -> (r: bool)
        ensures
            r == (self@ =~= Set::<Seq<char>>::empty()),
    {
        proof {
            if self.names@.len() > 0 {
                assert(self@.contains(self.names@[0]@));
            } else {
                assert(self@ =~= Set::<Seq<char>>::empty());
            }
        }
        self.names.len() == 0
    }

    pub proof fn lemma_finite(&self)
        ensures
            self@.finite(),
            self@.len() <= usize::MAX,
    {
        lemma_name_set_finite(self.names@);
        assert(self.names@.len() == self.names.len());
    }
}

// ---------------------------------------------------------------------------
// Fresh names
// ---------------------------------------------------------------------------

/// `base` followed by the decimal representation of `n`.
pub open spec fn numbered(base: Seq<char>, n: nat) -> Seq<char> {
    base + decimal(n)
}

/// The least number from `from` on whose numbered name is not `taken`.
pub open spec fn least_free(base: Seq<char>, from: nat, taken: Set<Seq<char>>) -> nat {
    choose|n: nat|
        {
            &&& from <= n
            &&& !taken.contains(#[trigger] numbered(base, n))
            &&& forall|m: nat| from <= m < n ==> taken.contains(#[trigger] numbered(base, m))
        }
}

pub proof fn lemma_numbered_injective(base: Seq<char>, a: nat, b: nat)
    ensures
        numbered(base, a) == numbered(base, b) ==> a == b,
{
    if numbered(base, a) == numbered(base, b) {
        assert(numbered(base, a).skip(base.len() as int) =~= decimal(a));
        assert(numbered(base, b).skip(base.len() as int) =~= decimal(b));
        lemma_decimal_injective(a, b);
    }
}

/// A finite set holds no more numbered names in a row than it has elements.
pub proof fn lemma_taken_run(base: Seq<char>, from: nat, to: nat, taken: Set<Seq<char>>)
    requires
        from <= to,
        taken.finite(),
        forall|m: nat| from <= m < to ==> taken.contains(#[trigger] numbered(base, m)),
    ensures
        to - from <= taken.len(),
    decreases to - from,
{
    if from < to {
        let last = (to - 1) as nat;
        let rest = taken.remove(numbered(base, last));
        assert forall|m: nat| from <= m < last implies rest.contains(
            #[trigger] numbered(base, m),
        ) by {
            lemma_numbered_injective(base, m, last);
        }
        lemma_taken_run(base, from, last, rest);
        assert(taken.contains(numbered(base, last)));
    }
}

/// The number that `least_free` chooses is the one with its defining property.
pub proof fn lemma_least_free(base: Seq<char>, from: nat, n: nat, taken: Set<Seq<char>>)
    requires
        from <= n,
        !taken.contains(numbered(base, n)),
        forall|m: nat| from <= m < n ==> taken.contains(#[trigger] numbered(base, m)),
    ensures
        least_free(base, from, taken) == n,
{
    let k = least_free(base, from, taken);
    assert(from <= k && !taken.contains(numbered(base, k)) && forall|m: nat|
        from <= m < k ==> taken.contains(#[trigger] numbered(base, m)));
    if k < n {
        assert(taken.contains(numbered(base, k)));
    }
    if n < k {
        assert(taken.contains(numbered(base, n)));
    }
}

proof fn lemma_some_free(base: Seq<char>, from: nat, k: nat, taken: Set<Seq<char>>)
    requires
        taken.finite(),
        forall|m: nat| from <= m < k ==> taken.contains(#[trigger] numbered(base, m)),
        from <= k <= from + taken.len() + 1,
    ensures
        exists|n: nat|
            {
                &&& k <= n
                &&& !taken.contains(#[trigger] numbered(base, n))
                &&& forall|m: nat| from <= m < n ==> taken.contains(#[trigger] numbered(base, m))
            },
    decreases from + taken.len() + 1 - k,
{
    if taken.contains(numbered(base, k)) {
        lemma_taken_run(base, from, k + 1, taken);
        lemma_some_free(base, from, k + 1, taken);
    }
}

/// The first free name is free, and all names before it are taken.
pub proof fn lemma_first_free(base: Seq<char>, from: nat, taken: Set<Seq<char>>)
    requires
        taken.finite(),
    ensures
        ({
            let n = least_free(base, from, taken);
            &&& from <= n
            &&& !taken.contains(numbered(base, n))
            &&& forall|m: nat| from <= m < n ==> taken.contains(#[trigger] numbered(base, m))
        }),
{
    lemma_some_free(base, from, from, taken);
}

/// `base` where it is not `taken`, else the first of `base0`, `base1`, ... that is not.
pub open spec fn free_name(base: Seq<char>, taken: Set<Seq<char>>) -> Seq<char> {
    if taken.contains(base) {
        numbered(base, least_free(base, 0, taken))
    } else {
        base
    }
}

/// Such a name is not taken.
pub proof fn lemma_free_name(base: Seq<char>, taken: Set<Seq<char>>)
    requires
        taken.finite(),
    ensures
        !taken.contains(free_name(base, taken)),
{
    lemma_first_free(base, 0, taken);
}

/// Searches the first name `base{n}`, with `n` counting up from `from`, that stands neither in
/// `first` nor in `second`.
pub fn find_free_name(base: &str, from: u64, first: &NameSet, second: &NameSet) -> (r: String)
    ensures
        r@ == numbered(base@, least_free(base@, from as nat, first@.union(second@))),
        !first@.contains(r@),
        !second@.contains(r@),
{
    let ghost taken = first@.union(second@);
    proof {
        first.lemma_finite();
        second.lemma_finite();
        vstd::set_lib::lemma_len_union(first@, second@);
    }
    let mut n: u128 = from as u128;
    loop
        invariant
            from <= n,
            first@.len() + second@.len() <= 2 * usize::MAX,
            taken == first@.union(second@),
            taken.finite(),
            taken.len() <= first@.len() + second@.len(),
            forall|m: nat| from <= m < n ==> taken.contains(#[trigger] numbered(base@, m)),
        decreases taken.len() + 1 - (n - from),
    {
        let digits = wide_decimal_text(n);
        let name = cat2(base, &digits);
        assert(name@ == numbered(base@, n as nat));
        if !first.contains(&name) && !second.contains(&name) {
            proof {
                lemma_least_free(base@, from as nat, n as nat, taken);
            }
            return name;
        }
        proof {
            lemma_taken_run(base@, from as nat, (n + 1) as nat, taken);
        }
        n = n + 1;
    }
}

/// The first of `base`, `base0`, `base1`, ... that stands neither in `first` nor in `second`.
pub fn choose_free_name(base: &str, first: &NameSet, second: &NameSet) -> (r: String)
    ensures
        r@ == free_name(base@, first@.union(second@)),
        !first@.contains(r@),
        !second@.contains(r@),
{
    if first.contains(base) || second.contains(base) {
        find_free_name(base, 0, first, second)
    } else {
        owned(base)
    }
}

// ---------------------------------------------------------------------------
// IdTexts
// ---------------------------------------------------------------------------

/// The pairs as a map; of two pairs with one key the first counts.
pub open spec fn id_texts(s: Seq<(u32, String)>) -> Map<u32, Seq<char>>
    decreases s.len(),
{
    if s.len() == 0 {
        Map::empty()
    } else {
        id_texts(s.drop_first()).insert(s[0].0, s[0].1@)
    }
}

/// The pairs with `t` under `id`: in place of what was there, else at the end.
pub open spec fn put_pair(pairs: Seq<(u32, Seq<char>)>, id: u32, t: Seq<char>) -> Seq<
    (u32, Seq<char>),
>
    decreases pairs.len(),
{
    if pairs.len() == 0 {
        seq![(id, t)]
    } else if pairs[0].0 == id {
        seq![(id, t)] + pairs.drop_first()
    } else {
        seq![pairs[0]] + put_pair(pairs.drop_first(), id, t)
    }
}

proof fn lemma_put_pair(pairs: Seq<(u32, Seq<char>)>, id: u32, t: Seq<char>, i: int)
    requires
        0 <= i <= pairs.len(),
        i < pairs.len() ==> pairs[i].0 == id,
        forall|k: int| 0 <= k < i ==> (#[trigger] pairs[k]).0 != id,
    ensures
        i < pairs.len() ==> put_pair(pairs, id, t) == pairs.update(i, (id, t)),
        i == pairs.len() ==> put_pair(pairs, id, t) == pairs.push((id, t)),
    decreases i,
{
    if i == 0 {
        if pairs.len() > 0 {
            assert(put_pair(pairs, id, t) =~= pairs.update(0, (id, t)));
        } else {
            assert(put_pair(pairs, id, t) =~= pairs.push((id, t)));
        }
    } else {
        let rest = pairs.drop_first();
        assert(pairs[0].0 != id);
        assert forall|k: int| 0 <= k < i - 1 implies (#[trigger] rest[k]).0 != id by {
            assert(rest[k] == pairs[k + 1]);
        }
        lemma_put_pair(rest, id, t, i - 1);
        if i < pairs.len() {
            assert(put_pair(pairs, id, t) =~= pairs.update(i, (id, t)));
        } else {
            assert(put_pair(pairs, id, t) =~= pairs.push((id, t)));
        }
    }
}

/// A map from identifier numbers to texts that remembers in which order its keys came.
pub struct IdTexts {
    pub entries: Vec<(u32, String)>,
}

impl View for IdTexts {
    type V = Map<u32, Seq<char>>;

    open spec fn view(&self) -> Map<u32, Seq<char>> {
        id_texts(self.entries@)
    }
}

proof fn lemma_id_texts_lookup(s: Seq<(u32, String)>, i: int, id: u32)
    requires
        0 <= i < s.len(),
        s[i].0 == id,
        forall|k: int| 0 <= k < i ==> (#[trigger] s[k]).0 != id,
    ensures
        id_texts(s).contains_key(id),
        id_texts(s)[id] == s[i].1@,
    decreases i,
{
    if i > 0 {
        assert(s.drop_first()[i - 1] == s[i]);
        assert forall|k: int| 0 <= k < i - 1 implies (#[trigger] s.drop_first()[k]).0 != id by {
            assert(s.drop_first()[k] == s[k + 1]);
        }
        assert(s[0].0 != id);
        lemma_id_texts_lookup(s.drop_first(), i - 1, id);
    }
}

proof fn lemma_id_texts_absent(s: Seq<(u32, String)>, id: u32)
    requires
        forall|k: int| 0 <= k < s.len() ==> (#[trigger] s[k]).0 != id,
    ensures
        !id_texts(s).contains_key(id),
    decreases s.len(),
{
    if s.len() > 0 {
        assert forall|k: int| 0 <= k < s.drop_first().len() implies (
        #[trigger] s.drop_first()[k]).0 != id by {
            assert(s.drop_first()[k] == s[k + 1]);
        }
        assert(s[0].0 != id);
        lemma_id_texts_absent(s.drop_first(), id);
    }
}

proof fn lemma_id_texts_update(s: Seq<(u32, String)>, i: int, id: u32, t: String)
    requires
        0 <= i < s.len(),
        s[i].0 == id,
        forall|k: int| 0 <= k < i ==> (#[trigger] s[k]).0 != id,
    ensures
        id_texts(s.update(i, (id, t))) == id_texts(s).insert(id, t@),
    decreases i,
{
    let u = s.update(i, (id, t));
    if i == 0 {
        assert(u.drop_first() =~= s.drop_first());
        assert(id_texts(u) =~= id_texts(s).insert(id, t@));
    } else {
        assert(u.drop_first() =~= s.drop_first().update(i - 1, (id, t)));
        assert forall|k: int| 0 <= k < i - 1 implies (#[trigger] s.drop_first()[k]).0 != id by {
            assert(s.drop_first()[k] == s[k + 1]);
        }
        assert(s[0].0 != id);
        lemma_id_texts_update(s.drop_first(), i - 1, id, t);
        assert(id_texts(u) =~= id_texts(s).insert(id, t@));
    }
}

proof fn lemma_id_texts_push(s: Seq<(u32, String)>, id: u32, t: String)
    requires
        forall|k: int| 0 <= k < s.len() ==> (#[trigger] s[k]).0 != id,
    ensures
        id_texts(s.push((id, t))) == id_texts(s).insert(id, t@),
    decreases s.len(),
{
    let u = s.push((id, t));
    if s.len() == 0 {
        assert(u.drop_first() =~= s);
        assert(id_texts(u) =~= id_texts(s).insert(id, t@));
    } else {
        assert(u.drop_first() =~= s.drop_first().push((id, t)));
        assert forall|k: int| 0 <= k < s.drop_first().len() implies (
        #[trigger] s.drop_first()[k]).0 != id by {
            assert(s.drop_first()[k] == s[k + 1]);
        }
        assert(s[0].0 != id);
        lemma_id_texts_push(s.drop_first(), id, t);
        assert(id_texts(u) =~= id_texts(s).insert(id, t@));
    }
}

proof fn lemma_id_texts_map(s: Seq<(u32, String)>, t: Seq<(u32, String)>, f: spec_fn(Seq<char>) -> Seq<char>)
    requires
        s.len() == t.len(),
        forall|k: int| 0 <= k < s.len() ==> (#[trigger] t[k]).0 == s[k].0 && t[k].1@ == f(s[k].1@),
    ensures
        id_texts(t) == id_texts(s).map_values(f),
    decreases s.len(),
{
    if s.len() == 0 {
        assert(id_texts(t) =~= id_texts(s).map_values(f));
    } else {
        assert forall|k: int| 0 <= k < s.drop_first().len() implies (
        #[trigger] t.drop_first()[k]).0 == s.drop_first()[k].0 && t.drop_first()[k].1@ == f(
            s.drop_first()[k].1@,
        ) by {
            assert(t.drop_first()[k] == t[k + 1]);
        }
        lemma_id_texts_map(s.drop_first(), t.drop_first(), f);
        assert(t[0].0 == s[0].0);
        assert(id_texts(t) =~= id_texts(s).map_values(f));
    }
}

impl IdTexts {
    /// The pairs in the order in which their keys were first inserted.
    pub open spec fn pairs(&self) -> Seq<(u32, Seq<char>)> {
        self.entries@.map_values(|e: (u32, String)| (e.0, e.1@))
    }

    pub fn new() -> (r: Self)
        ensures
            r@ == Map::<u32, Seq<char>>::empty(),
            r.pairs() == Seq::<(u32, Seq<char>)>::empty(),
    {
        let r = IdTexts { entries: Vec::new() };
        proof {
            assert(r.pairs() =~= Seq::<(u32, Seq<char>)>::empty());
        }
        r
    }

    /// The position of `id`, or the number of pairs where it has none.
    fn position(&self, id: u32) -> (r: usize)
        ensures
            r <= self.entries@.len(),
            r < self.entries@.len() ==> self.entries@[r as int].0 == id,
            forall|k: int| 0 <= k < r ==> (#[trigger] self.entries@[k]).0 != id,
            r < self.entries@.len() <==> self@.contains_key(id),
    {
        let mut i: usize = 0;
        while i < self.entries.len()
            invariant
                i <= self.entries@.len(),
                forall|k: int| 0 <= k < i ==> (#[trigger] self.entries@[k]).0 != id,
            decreases self.entries@.len() - i,
        {
            if self.entries[i].0 == id {
                proof {
                    lemma_id_texts_lookup(self.entries@, i as int, id);
                }
                return i;
            }
            i = i + 1;
        }
        proof {
            lemma_id_texts_absent(self.entries@, id);
        }
        i
    }

    pub fn contains(&self, id: u32) -> (r: bool)
        ensures
            r == self@.contains_key(id),
    {
        self.position(id) < self.entries.len()
    }

    pub fn get(&self, id: u32) -> (r: Option<&String>)
        ensures
            match r {
                Some(s) => self@.contains_key(id) && s@ == self@[id],
                None => !self@.contains_key(id),
            },
    {
        let i: usize = self.position(id);
        if i < self.entries.len() {
            proof {
                lemma_id_texts_lookup(self.entries@, i as int, id);
            }
            Some(&self.entries[i].1)
        } else {
            None
        }
    }

    pub fn insert(&mut self, id: u32, s: String)
        ensures
            final(self)@ == old(self)@.insert(id, s@),
            final(self).pairs() == put_pair(old(self).pairs(), id, s@),
            !old(self)@.contains_key(id) ==> final(self).pairs() == old(self).pairs().push(
                (id, s@),
            ),
    {
        let i: usize = self.position(id);
        let ghost before = self.entries@;
        proof {
            assert forall|k: int| 0 <= k < i implies (#[trigger] self.pairs()[k]).0 != id by {
                assert(self.entries@[k].0 != id);
            }
            lemma_put_pair(self.pairs(), id, s@, i as int);
        }
        if i < self.entries.len() {
            proof {
                lemma_id_texts_update(before, i as int, id, s);
            }
            self.entries.set(i, (id, s));
            proof {
                assert(self.pairs() =~= old(self).pairs().update(i as int, (id, s@)));
            }
        } else {
            proof {
                lemma_id_texts_push(before, id, s);
            }
            self.entries.push((id, s));
            proof {
                assert(self.pairs() =~= old(self).pairs().push((id, s@)));
            }
        }
    }

    /// Replaces every `old_text` by `new_text` in all texts.
    pub fn replace_in_all(&mut self, old_text: &str, new_text: &str)
        requires
            old_text@.len() > 0,
        ensures
            final(self)@ == old(self)@.map_values(
                |t: Seq<char>| all_replaced(t, old_text@, new_text@),
            ),
    {
        let ghost before = self.entries@;
        let mut i: usize = 0;
        while i < self.entries.len()
            invariant
                i <= self.entries@.len(),
                self.entries@.len() == before.len(),
                old_text@.len() > 0,
                forall|k: int|
                    0 <= k < i ==> (#[trigger] self.entries@[k]).0 == before[k].0
                        && self.entries@[k].1@ == all_replaced(before[k].1@, old_text@, new_text@),
                forall|k: int| i <= k < before.len() ==> #[trigger] self.entries@[k] == before[k],
            decreases self.entries@.len() - i,
        {
            let key: u32 = self.entries[i].0;
            let t = replace_all(&self.entries[i].1, old_text, new_text);
            self.entries.set(i, (key, t));
            i = i + 1;
        }
        proof {
            lemma_id_texts_map(
                before,
                self.entries@,
                |t: Seq<char>| all_replaced(t, old_text@, new_text@),
            );
        }
    }

    /// Replaces every whole word `old_text` by `new_text` in all texts.
    pub fn replace_words_in_all(&mut self, old_text: &str, new_text: &str)
        ensures
            final(self)@ == old(self)@.map_values(
                |t: Seq<char>| words_replaced(t, old_text@, new_text@),
            ),
    {
        let ghost before = self.entries@;
        let mut i: usize = 0;
        while i < self.entries.len()
            invariant
                i <= self.entries@.len(),
                self.entries@.len() == before.len(),
                forall|k: int|
                    0 <= k < i ==> (#[trigger] self.entries@[k]).0 == before[k].0
                        && self.entries@[k].1@ == words_replaced(
                        before[k].1@,
                        old_text@,
                        new_text@,
                    ),
                forall|k: int| i <= k < before.len() ==> #[trigger] self.entries@[k] == before[k],
            decreases self.entries@.len() - i,
        {
            let key: u32 = self.entries[i].0;
            let t = replace_whole_word(&self.entries[i].1, old_text, new_text);
            self.entries.set(i, (key, t));
            i = i + 1;
        }
        proof {
            lemma_id_texts_map(
                before,
                self.entries@,
                |t: Seq<char>| words_replaced(t, old_text@, new_text@),
            );
        }
    }
}

// ---------------------------------------------------------------------------
// NameMap
// ---------------------------------------------------------------------------

/// The new name under `name`: the one of the first pair with that key.
pub open spec fn renamed_to(pairs: Seq<(Seq<char>, Seq<char>)>, name: Seq<char>) -> Option<Seq<char>>
    decreases pairs.len(),
{
    if pairs.len() == 0 {
        None
    } else if pairs[0].0 == name {
        Some(pairs[0].1)
    } else {
        renamed_to(pairs.drop_first(), name)
    }
}

/// New names for old ones, in the order in which they were given.
pub struct NameMap {
    pub entries: Vec<(String, String)>,
}

impl View for NameMap {
    type V = Seq<(Seq<char>, Seq<char>)>;

    open spec fn view(&self) -> Seq<(Seq<char>, Seq<char>)> {
        self.entries@.map_values(|e: (String, String)| (e.0@, e.1@))
    }
}

impl NameMap {
    pub fn new() -> (r: Self)
        ensures
            r@ == Seq::<(Seq<char>, Seq<char>)>::empty(),
    {
        let r = NameMap { entries: Vec::new() };
        proof {
            assert(r@ =~= Seq::<(Seq<char>, Seq<char>)>::empty());
        }
        r
    }

    pub fn get(&self, name: &str) -> (r: Option<&String>)
        ensures
            match r {
                Some(s) => renamed_to(self@, name@) == Some(s@),
                None => renamed_to(self@, name@) is None,
            },
    {
        let mut i: usize = 0;
        proof {
            assert(self@.skip(0) =~= self@);
        }
        while i < self.entries.len()
            invariant
                i <= self.entries@.len(),
                renamed_to(self@.skip(i as int), name@) == renamed_to(self@, name@),
            decreases self.entries@.len() - i,
        {
            proof {
                assert(self@.skip(i as int).drop_first() =~= self@.skip(i as int + 1));
            }
            if same(&self.entries[i].0, name) {
                return Some(&self.entries[i].1);
            }
            i = i + 1;
        }
        None
    }

    /// Adds a pair behind the others.
    pub fn push(&mut self, name: String, new_name: String)
        ensures
            final(self)@ == old(self)@.push((name@, new_name@)),
    {
        self.entries.push((name, new_name));
        proof {
            assert(self@ =~= old(self)@.push((name@, new_name@)));
        }
    }
}

// ---------------------------------------------------------------------------
// IdLevels
// ---------------------------------------------------------------------------

/// A map from identifier numbers to precedence levels.
pub struct IdLevels {
    levels: HashMap<u32, u8>,
}

impl View for IdLevels {
    type V = Map<u32, u8>;

    closed spec fn view(&self) -> Map<u32, u8> {
        self.levels@
    }
}

impl IdLevels {
    pub fn new() -> (r: Self)
        ensures
            r@ == Map::<u32, u8>::empty(),
    {
        IdLevels { levels: HashMap::new() }
    }

    pub fn get(&self, id: u32) -> (r: Option<u8>)
        ensures
            match r {
                Some(level) => self@.contains_key(id) && level == self@[id],
                None => !self@.contains_key(id),
            },
    {
        match self.levels.get(&id) {
            Some(level) => Some(*level),
            None => None,
        }
    }

    pub fn insert(&mut self, id: u32, level: u8)
        ensures
            final(self)@ == old(self)@.insert(id, level),
    {
        self.levels.insert(id, level);
    }
}

// ---------------------------------------------------------------------------
// Lists
// ---------------------------------------------------------------------------

/// The elements of a list from the last to the first.
pub fn reversed<T>(v: Vec<T>) -> (r: Vec<T>)
    ensures
        r@ == v@.reverse(),
{
    let ghost whole = v@;
    let mut v = v;
    let mut r: Vec<T> = Vec::new();
    while v.len() > 0
        invariant
            v@.len() + r@.len() == whole.len(),
            v@ == whole.take(v@.len() as int),
            r@ == whole.skip(v@.len() as int).reverse(),
        decreases v@.len(),
    {
        let ghost n = v@.len() as int;
        let last = v.pop();
        if let Some(x) = last {
            r.push(x);
        }
        proof {
            assert(v@ =~= whole.take(n - 1));
            assert(r@ =~= whole.skip(n - 1).reverse());
        }
    }
    proof {
        assert(whole.skip(0) =~= whole);
    }
    r
}

} // verus!
