//! The order of texts, and lists of texts that are sorted or free of repetition.

use vstd::prelude::*;

use crate::text::{chars_of, same, texts};

verus! {

broadcast use crate::text::group_texts;

/// Whether `a` comes before `b` in the order of their characters.
pub open spec fn text_less(a: Seq<char>, b: Seq<char>) -> bool
    decreases a.len(),
{
    if b.len() == 0 {
        false
    } else if a.len() == 0 {
        true
    } else if a[0] == b[0] {
        text_less(a.skip(1), b.skip(1))
    } else {
        (a[0] as int) < (b[0] as int)
    }
}

fn char_less(a: char, b: char) -> (r: bool)
    ensures
        r == ((a as int) < (b as int)),
{
    (a as u32) < (b as u32)
}

pub fn is_text_less(a: &str, b: &str) -> (r: bool)
    ensures
        r == text_less(a@, b@),
{
    let x = chars_of(a);
    let y = chars_of(b);
    let mut i: usize = 0;
    proof {
        assert(x@.skip(0) =~= a@);
        assert(y@.skip(0) =~= b@);
    }
    while i < x.len() && i < y.len()
        invariant
            i <= x@.len(),
            i <= y@.len(),
            text_less(x@.skip(i as int), y@.skip(i as int)) == text_less(a@, b@),
        decreases x@.len() - i,
    {
        proof {
            assert(x@.skip(i as int).skip(1) =~= x@.skip(i as int + 1));
            assert(y@.skip(i as int).skip(1) =~= y@.skip(i as int + 1));
        }
        if x[i] != y[i] {
            return char_less(x[i], y[i]);
        }
        i = i + 1;
    }
    i < y.len()
}

/// Whether `a` comes before `b`: by its rank, then by its text.
pub open spec fn ranked_less(a: (nat, Seq<char>), b: (nat, Seq<char>)) -> bool {
    a.0 < b.0 || a.0 == b.0 && text_less(a.1, b.1)
}

/// The sorted list `s` with `x` put in its place.
pub open spec fn inserted(s: Seq<(nat, Seq<char>)>, x: (nat, Seq<char>)) -> Seq<(nat, Seq<char>)>
    decreases s.len(),
{
    if s.len() > 0 && ranked_less(x, s.last()) {
        inserted(s.drop_last(), x).push(s.last())
    } else {
        s.push(x)
    }
}

/// The first `n` elements, sorted by rank and text.
pub open spec fn sorted_upto(s: Seq<(nat, Seq<char>)>, n: int) -> Seq<(nat, Seq<char>)>
    decreases n,
{
    if n <= 0 {
        Seq::empty()
    } else {
        inserted(sorted_upto(s, n - 1), s[n - 1])
    }
}

pub open spec fn with_ranks(s: Seq<Seq<char>>, rank: spec_fn(Seq<char>) -> nat) -> Seq<
    (nat, Seq<char>),
> {
    s.map_values(|t: Seq<char>| (rank(t), t))
}

/// The texts sorted by rank and, among those of one rank, by their characters.
pub open spec fn sorted_by(s: Seq<Seq<char>>, rank: spec_fn(Seq<char>) -> nat) -> Seq<Seq<char>> {
    sorted_upto(with_ranks(s, rank), s.len() as int).map_values(|p: (nat, Seq<char>)| p.1)
}

/// The texts in the order of their characters.
pub open spec fn sorted(s: Seq<Seq<char>>) -> Seq<Seq<char>> {
    sorted_by(s, |t: Seq<char>| 0nat)
}

proof fn lemma_inserted_at(s: Seq<(nat, Seq<char>)>, x: (nat, Seq<char>), p: int)
    requires
        0 <= p <= s.len(),
        forall|k: int| p <= k < s.len() ==> ranked_less(x, #[trigger] s[k]),
        p > 0 ==> !ranked_less(x, s[p - 1]),
    ensures
        inserted(s, x) == s.insert(p, x),
    decreases s.len(),
{
    if p == s.len() {
        assert(s.insert(p, x) =~= s.push(x));
    } else {
        let front = s.drop_last();
        assert(ranked_less(x, s[s.len() - 1]));
        assert forall|k: int| p <= k < front.len() implies ranked_less(x, #[trigger] front[k]) by {
            assert(front[k] == s[k]);
        }
        lemma_inserted_at(front, x, p);
        assert(front.insert(p, x).push(s.last()) =~= s.insert(p, x));
    }
}

pub open spec fn pair_views(v: Seq<(usize, String)>) -> Seq<(nat, Seq<char>)> {
    v.map_values(|e: (usize, String)| (e.0 as nat, e.1@))
}

/// Sorts texts by their ranks and, among those of one rank, by their characters.
pub fn sort_ranked(v: Vec<(usize, String)>) -> (r: Vec<String>)
    ensures
        texts(r@) == sorted_upto(pair_views(v@), v@.len() as int).map_values(
            |p: (nat, Seq<char>)| p.1,
        ),
{
    let mut out: Vec<(usize, String)> = Vec::new();
    let ghost all = pair_views(v@);
    let mut i: usize = 0;
    proof {
        assert(pair_views(out@) =~= sorted_upto(all, 0));
    }
    while i < v.len()
        invariant
            all == pair_views(v@),
            i <= v@.len(),
            pair_views(out@) == sorted_upto(all, i as int),
        decreases v@.len() - i,
    {
        let item: (usize, String) = (v[i].0, v[i].1.clone());
        let ghost x = (item.0 as nat, item.1@);
        let ghost before = out@;
        let mut p: usize = out.len();
        while p > 0 && (item.0 < out[p - 1].0 || (item.0 == out[p - 1].0 && is_text_less(
            &item.1,
            &out[p - 1].1,
        )))
            invariant
                out@ == before,
                x == (item.0 as nat, item.1@),
                p <= out@.len(),
                forall|k: int| p <= k < out@.len() ==> ranked_less(x, #[trigger] pair_views(out@)[k]),
            decreases p,
        {
            p = p - 1;
        }
        proof {
            lemma_inserted_at(pair_views(before), x, p as int);
        }
        out.insert(p, item);
        proof {
            assert(pair_views(out@) =~= pair_views(before).insert(p as int, x));
            assert(all[i as int] == x);
        }
        i = i + 1;
    }
    let mut r: Vec<String> = Vec::new();
    let mut j: usize = 0;
    while j < out.len()
        invariant
            j <= out@.len(),
            r@.len() == j,
            forall|k: int| 0 <= k < j ==> (#[trigger] r@[k])@ == out@[k].1@,
        decreases out@.len() - j,
    {
        r.push(out[j].1.clone());
        j = j + 1;
    }
    proof {
        assert(texts(r@) =~= pair_views(out@).map_values(|p: (nat, Seq<char>)| p.1));
    }
    r
}

/// Sorts texts in the order of their characters.
pub fn sort_texts(v: &Vec<String>) -> (r: Vec<String>)
    ensures
        texts(r@) == sorted(texts(v@)),
{
    let mut pairs: Vec<(usize, String)> = Vec::new();
    let mut i: usize = 0;
    while i < v.len()
        invariant
            i <= v@.len(),
            pairs@.len() == i,
            forall|k: int|
                0 <= k < i ==> (#[trigger] pairs@[k]).0 == 0 && pairs@[k].1@ == v@[k]@,
        decreases v@.len() - i,
    {
        pairs.push((0, v[i].clone()));
        i = i + 1;
    }
    proof {
        assert(pair_views(pairs@) =~= with_ranks(texts(v@), |t: Seq<char>| 0nat));
    }
    sort_ranked(pairs)
}

/// `s` with `x` at the end, unless it holds it already.
pub open spec fn push_new(s: Seq<Seq<char>>, x: Seq<char>) -> Seq<Seq<char>> {
    if s.contains(x) {
        s
    } else {
        s.push(x)
    }
}

pub fn holds_text(v: &Vec<String>, x: &str) -> (r: bool)
    ensures
        r == texts(v@).contains(x@),
{
    let mut i: usize = 0;
    while i < v.len()
        invariant
            i <= v@.len(),
            forall|k: int| 0 <= k < i ==> (#[trigger] v@[k])@ != x@,
        decreases v@.len() - i,
    {
        if same(&v[i], x) {
            proof {
                assert(texts(v@)[i as int] == x@);
            }
            return true;
        }
        i = i + 1;
    }
    proof {
        if texts(v@).contains(x@) {
            let k = choose|k: int| 0 <= k < texts(v@).len() && texts(v@)[k] == x@;
            assert(v@[k]@ == x@);
        }
    }
    false
}

/// Adds a text that is not there yet.
pub fn add_new(v: &mut Vec<String>, x: &str)
    ensures
        texts(final(v)@) == push_new(texts(old(v)@), x@),
{
    if !holds_text(v, x) {
        v.push(crate::text::owned(x));
    }
}

/// `s` and the first `n` of `more`, each one once.
pub open spec fn push_all_new(s: Seq<Seq<char>>, more: Seq<Seq<char>>, n: int) -> Seq<Seq<char>>
    decreases n,
{
    if n <= 0 {
        s
    } else {
        push_new(push_all_new(s, more, n - 1), more[n - 1])
    }
}

pub fn add_all_new(v: &mut Vec<String>, more: &Vec<String>)
    ensures
        texts(final(v)@) == push_all_new(texts(old(v)@), texts(more@), more@.len() as int),
{
    let ghost start = texts(v@);
    let mut i: usize = 0;
    while i < more.len()
        invariant
            i <= more@.len(),
            texts(v@) == push_all_new(start, texts(more@), i as int),
        decreases more@.len() - i,
    {
        assert(texts(more@)[i as int] == more@[i as int]@);
        add_new(v, &more[i]);
        i = i + 1;
    }
}

/// The first `n` texts without those that repeat the one before.
pub open spec fn deduped(s: Seq<Seq<char>>, n: int) -> Seq<Seq<char>>
    decreases n,
{
    if n <= 0 {
        Seq::empty()
    } else {
        let front = deduped(s, n - 1);
        if front.len() > 0 && front.last() == s[n - 1] {
            front
        } else {
            front.push(s[n - 1])
        }
    }
}

pub fn dedup_texts(v: &Vec<String>) -> (r: Vec<String>)
    ensures
        texts(r@) == deduped(texts(v@), v@.len() as int),
{
    let mut out: Vec<String> = Vec::new();
    let mut i: usize = 0;
    while i < v.len()
        invariant
            i <= v@.len(),
            texts(out@) == deduped(texts(v@), i as int),
        decreases v@.len() - i,
    {
        assert(texts(v@)[i as int] == v@[i as int]@);
        assert(texts(out@).len() > 0 ==> texts(out@).last() == out@[out@.len() - 1]@);
        if out.len() == 0 || !same(&out[out.len() - 1], &v[i]) {
            out.push(v[i].clone());
        }
        i = i + 1;
    }
    out
}

// ---------------------------------------------------------------------------
// Laws
// ---------------------------------------------------------------------------

/// The order of texts is total: of two different texts one comes first.
pub proof fn lemma_text_less_total(a: Seq<char>, b: Seq<char>)
    ensures
        text_less(a, b) || text_less(b, a) || a == b,
    decreases a.len(),
{
    if a.len() > 0 && b.len() > 0 && a[0] == b[0] {
        lemma_text_less_total(a.skip(1), b.skip(1));
        if a.skip(1) == b.skip(1) {
            assert(a =~= seq![a[0]] + a.skip(1));
            assert(b =~= seq![b[0]] + b.skip(1));
        }
    } else if a.len() == 0 && b.len() == 0 {
        assert(a =~= b);
    }
}

/// No text comes before itself, and of two texts at most one comes before the other.
pub proof fn lemma_text_less_asymmetric(a: Seq<char>, b: Seq<char>)
    ensures
        !(text_less(a, b) && text_less(b, a)),
    decreases a.len(),
{
    if a.len() > 0 && b.len() > 0 && a[0] == b[0] {
        lemma_text_less_asymmetric(a.skip(1), b.skip(1));
    }
}

pub proof fn lemma_text_less_transitive(a: Seq<char>, b: Seq<char>, c: Seq<char>)
    requires
        text_less(a, b),
        text_less(b, c),
    ensures
        text_less(a, c),
    decreases a.len(),
{
    if a.len() > 0 && b.len() > 0 && c.len() > 0 && a[0] == b[0] && b[0] == c[0] {
        lemma_text_less_transitive(a.skip(1), b.skip(1), c.skip(1));
    }
}

proof fn lemma_ranked_chain(a: (nat, Seq<char>), b: (nat, Seq<char>), c: (nat, Seq<char>))
    requires
        !ranked_less(b, a),
        !ranked_less(c, b),
    ensures
        !ranked_less(c, a),
{
    if ranked_less(c, a) {
        lemma_text_less_total(b.1, a.1);
        lemma_text_less_total(c.1, b.1);
        if c.0 == a.0 {
            if a.1 != b.1 && b.1 != c.1 {
                lemma_text_less_transitive(a.1, b.1, c.1);
            }
            lemma_text_less_asymmetric(a.1, c.1);
        }
    }
}

pub open spec fn in_order(s: Seq<(nat, Seq<char>)>) -> bool {
    forall|i: int, j: int| 0 <= i < j < s.len() ==> !ranked_less(#[trigger] s[j], #[trigger] s[i])
}

proof fn lemma_inserted_in_order(s: Seq<(nat, Seq<char>)>, x: (nat, Seq<char>))
    requires
        in_order(s),
    ensures
        in_order(inserted(s, x)),
        inserted(s, x).len() == s.len() + 1,
        forall|k: int|
            0 <= k < inserted(s, x).len() ==> (#[trigger] inserted(s, x)[k] == x || s.contains(
                inserted(s, x)[k],
            )),
    decreases s.len(),
{
    let r = inserted(s, x);
    if s.len() > 0 && ranked_less(x, s.last()) {
        let front = s.drop_last();
        lemma_inserted_in_order(front, x);
        let f = inserted(front, x);
        assert forall|k: int| 0 <= k < r.len() implies (#[trigger] r[k] == x || s.contains(r[k])) by {
            if k < f.len() {
                assert(f[k] == r[k]);
                if f[k] != x {
                    let m = choose|m: int| 0 <= m < front.len() && front[m] == f[k];
                    assert(s[m] == r[k]);
                }
            } else {
                assert(s[s.len() - 1] == r[k]);
            }
        }
        assert forall|i: int, j: int| 0 <= i < j < r.len() implies !ranked_less(
            #[trigger] r[j],
            #[trigger] r[i],
        ) by {
            if j < f.len() {
                assert(r[j] == f[j] && r[i] == f[i]);
            } else {
                assert(r[i] == f[i]);
                if f[i] == x {
                    lemma_text_less_asymmetric(x.1, s.last().1);
                } else {
                    let m = choose|m: int| 0 <= m < front.len() && front[m] == f[i];
                    assert(s[m] == f[i]);
                }
            }
        }
    } else {
        assert forall|i: int, j: int| 0 <= i < j < r.len() implies !ranked_less(
            #[trigger] r[j],
            #[trigger] r[i],
        ) by {
            if j == s.len() {
                lemma_text_less_asymmetric(s.last().1, s.last().1);
                if i < s.len() - 1 {
                    lemma_ranked_chain(s[i], s.last(), x);
                }
            }
        }
    }
}

/// Sorting gives a list in order that holds the same texts as often.
pub proof fn lemma_sorted_upto(s: Seq<(nat, Seq<char>)>, n: int)
    requires
        0 <= n <= s.len(),
    ensures
        in_order(sorted_upto(s, n)),
        sorted_upto(s, n).to_multiset() == s.take(n).to_multiset(),
    decreases n,
{
    broadcast use vstd::seq_lib::group_to_multiset_ensures;

    if n > 0 {
        lemma_sorted_upto(s, n - 1);
        lemma_inserted_in_order(sorted_upto(s, n - 1), s[n - 1]);
        lemma_inserted_multiset(sorted_upto(s, n - 1), s[n - 1]);
        assert(s.take(n) =~= s.take(n - 1).push(s[n - 1]));
    } else {
        assert(s.take(n) =~= Seq::empty());
    }
}

proof fn lemma_inserted_multiset(s: Seq<(nat, Seq<char>)>, x: (nat, Seq<char>))
    ensures
        inserted(s, x).to_multiset() == s.to_multiset().insert(x),
    decreases s.len(),
{
    broadcast use vstd::seq_lib::group_to_multiset_ensures;

    if s.len() > 0 && ranked_less(x, s.last()) {
        lemma_inserted_multiset(s.drop_last(), x);
        assert(s =~= s.drop_last().push(s.last()));
        assert(s.to_multiset().insert(x) =~= s.drop_last().to_multiset().insert(x).insert(s.last()));
    }
}

/// The sorted list of texts: none comes after a greater one, and each is there as often as before.
pub proof fn lemma_sorted(s: Seq<Seq<char>>)
    ensures
        forall|i: int, j: int|
            0 <= i < j < sorted(s).len() ==> !text_less(
                #[trigger] sorted(s)[j],
                #[trigger] sorted(s)[i],
            ),
        sorted(s).to_multiset() == s.to_multiset(),
{
    let rank = |t: Seq<char>| 0nat;
    let pairs = with_ranks(s, rank);
    let r = sorted_upto(pairs, s.len() as int);
    lemma_sorted_upto(pairs, s.len() as int);
    assert(pairs.take(s.len() as int) =~= pairs);
    lemma_all_zero(pairs, s.len() as int);
    assert forall|i: int, j: int| 0 <= i < j < sorted(s).len() implies !text_less(
        #[trigger] sorted(s)[j],
        #[trigger] sorted(s)[i],
    ) by {
        assert(!ranked_less(r[j], r[i]));
    }
    lemma_second_multiset(pairs, r);
    assert(pairs.map_values(|p: (nat, Seq<char>)| p.1) =~= s);
}

proof fn lemma_all_zero(s: Seq<(nat, Seq<char>)>, n: int)
    requires
        0 <= n <= s.len(),
        forall|k: int| 0 <= k < s.len() ==> (#[trigger] s[k]).0 == 0,
    ensures
        forall|k: int| 0 <= k < sorted_upto(s, n).len() ==> (#[trigger] sorted_upto(s, n)[k]).0 == 0,
    decreases n,
{
    if n > 0 {
        lemma_all_zero(s, n - 1);
        lemma_sorted_upto(s, n - 1);
        lemma_inserted_in_order(sorted_upto(s, n - 1), s[n - 1]);
        let f = sorted_upto(s, n - 1);
        let r = inserted(f, s[n - 1]);
        assert forall|k: int| 0 <= k < r.len() implies (#[trigger] r[k]).0 == 0 by {
            if r[k] != s[n - 1] {
                let m = choose|m: int| 0 <= m < f.len() && f[m] == r[k];
                assert(f[m].0 == 0);
            }
        }
    }
}

proof fn lemma_second_multiset(a: Seq<(nat, Seq<char>)>, b: Seq<(nat, Seq<char>)>)
    requires
        a.to_multiset() == b.to_multiset(),
    ensures
        a.map_values(|p: (nat, Seq<char>)| p.1).to_multiset() == b.map_values(
            |p: (nat, Seq<char>)| p.1,
        ).to_multiset(),
    decreases a.len(),
{
    broadcast use vstd::seq_lib::group_to_multiset_ensures;

    let f = |p: (nat, Seq<char>)| p.1;
    assert(a.len() == a.to_multiset().len());
    assert(b.len() == b.to_multiset().len());
    if a.len() == 0 {
        assert(a.map_values(f) =~= b.map_values(f));
    } else {
        let x = a.last();
        assert(a.to_multiset().count(x) > 0) by {
            assert(a.contains(x));
        }
        assert(b.contains(x));
        let m = choose|m: int| 0 <= m < b.len() && b[m] == x;
        let a1 = a.drop_last();
        let b1 = b.remove(m);
        assert(a =~= a1.push(x));
        assert(b1.to_multiset() =~= b.to_multiset().remove(x));
        assert(a1.to_multiset() =~= a.to_multiset().remove(x));
        lemma_second_multiset(a1, b1);
        assert(a.map_values(f) =~= a1.map_values(f).push(x.1));
        assert(b1.map_values(f) =~= b.map_values(f).remove(m));
        assert(b.map_values(f)[m] == x.1);
        assert(b.map_values(f).contains(x.1));
        assert(b.map_values(f).to_multiset() =~= b1.map_values(f).to_multiset().insert(x.1));
    }
}

// ---------------------------------------------------------------------------
// Orders of keys
// ---------------------------------------------------------------------------

/// The positions `order`, sorted by their keys, with `i` put in its place behind those whose keys are
/// not greater.
pub open spec fn placed(order: Seq<int>, keys: Seq<Seq<char>>, i: int) -> Seq<int>
    decreases order.len(),
{
    if order.len() > 0 && text_less(keys[i], keys[order.last()]) {
        placed(order.drop_last(), keys, i).push(order.last())
    } else {
        order.push(i)
    }
}

/// The first `n` positions in the order of their keys; those with one key stay in their order.
pub open spec fn order_upto(keys: Seq<Seq<char>>, n: int) -> Seq<int>
    decreases n,
{
    if n <= 0 {
        Seq::empty()
    } else {
        placed(order_upto(keys, n - 1), keys, n - 1)
    }
}

/// All positions in the order of their keys.
pub open spec fn key_order(keys: Seq<Seq<char>>) -> Seq<int> {
    order_upto(keys, keys.len() as int)
}

pub open spec fn positions(v: Seq<usize>) -> Seq<int> {
    v.map_values(|i: usize| i as int)
}

proof fn lemma_placed_at(order: Seq<int>, keys: Seq<Seq<char>>, i: int, p: int)
    requires
        0 <= p <= order.len(),
        forall|k: int| p <= k < order.len() ==> text_less(keys[i], keys[#[trigger] order[k]]),
        p > 0 ==> !text_less(keys[i], keys[order[p - 1]]),
    ensures
        placed(order, keys, i) == order.insert(p, i),
    decreases order.len(),
{
    if p == order.len() {
        assert(order.insert(p, i) =~= order.push(i));
    } else {
        let front = order.drop_last();
        assert(text_less(keys[i], keys[order[order.len() - 1]]));
        assert forall|k: int| p <= k < front.len() implies text_less(
            keys[i],
            keys[#[trigger] front[k]],
        ) by {
            assert(front[k] == order[k]);
        }
        lemma_placed_at(front, keys, i, p);
        assert(front.insert(p, i).push(order.last()) =~= order.insert(p, i));
    }
}

/// The positions of texts in the order of their characters; equal texts stay in their order.
pub fn sort_positions(keys: &Vec<String>) -> (r: Vec<usize>)
    ensures
        positions(r@) == key_order(texts(keys@)),
        r@.len() == keys@.len(),
        forall|k: int| 0 <= k < r@.len() ==> #[trigger] r@[k] < keys@.len(),
{
    let mut r: Vec<usize> = Vec::new();
    let ghost all = texts(keys@);
    let mut i: usize = 0;
    proof {
        assert(positions(r@) =~= order_upto(all, 0));
    }
    while i < keys.len()
        invariant
            all == texts(keys@),
            i <= keys@.len(),
            r@.len() == i,
            forall|k: int| 0 <= k < r@.len() ==> #[trigger] r@[k] < i,
            positions(r@) == order_upto(all, i as int),
        decreases keys@.len() - i,
    {
        let ghost before = r@;
        let mut p: usize = r.len();
        while p > 0 && is_text_less(&keys[i], &keys[r[p - 1]])
            invariant
                all == texts(keys@),
                i < keys@.len(),
                r@ == before,
                p <= r@.len(),
                forall|k: int| 0 <= k < r@.len() ==> #[trigger] r@[k] < i,
                forall|k: int|
                    p <= k < r@.len() ==> text_less(
                        all[i as int],
                        all[#[trigger] positions(before)[k]],
                    ),
            decreases p,
        {
            p = p - 1;
        }
        proof {
            lemma_placed_at(positions(before), all, i as int, p as int);
        }
        r.insert(p, i);
        proof {
            assert(positions(r@) =~= positions(before).insert(p as int, i as int));
        }
        i = i + 1;
    }
    r
}

/// Whether position `a` comes before position `b`: by its key, else by itself.
pub open spec fn key_before(keys: Seq<Seq<char>>, a: int, b: int) -> bool {
    text_less(keys[a], keys[b]) || (keys[a] == keys[b] && a < b)
}

pub open spec fn keys_in_order(keys: Seq<Seq<char>>, order: Seq<int>) -> bool {
    forall|p: int, q: int|
        0 <= p < q < order.len() ==> key_before(keys, #[trigger] order[p], #[trigger] order[q])
}

proof fn lemma_placed(order: Seq<int>, keys: Seq<Seq<char>>, i: int)
    requires
        forall|p: int| 0 <= p < order.len() ==> 0 <= #[trigger] order[p] < i,
        keys_in_order(keys, order),
    ensures
        placed(order, keys, i).len() == order.len() + 1,
        forall|x: int| #[trigger]
            placed(order, keys, i).contains(x) <==> order.contains(x) || x == i,
        keys_in_order(keys, placed(order, keys, i)),
    decreases order.len(),
{
    let out = placed(order, keys, i);
    if order.len() > 0 && text_less(keys[i], keys[order.last()]) {
        let front = order.drop_last();
        let last = order.last();
        let inner = placed(front, keys, i);
        lemma_placed(front, keys, i);
        assert forall|p: int| 0 <= p < inner.len() implies key_before(
            keys,
            #[trigger] inner[p],
            last,
        ) by {
            assert(inner.contains(inner[p]));
            if inner[p] != i {
                let k = choose|k: int| 0 <= k < front.len() && front[k] == inner[p];
                assert(order[k] == inner[p]);
                assert(key_before(keys, order[k], order[order.len() - 1]));
            }
        }
        assert forall|p: int, q: int| 0 <= p < q < out.len() implies key_before(
            keys,
            #[trigger] out[p],
            #[trigger] out[q],
        ) by {
            assert(out[p] == inner[p]);
            if q < inner.len() {
                assert(out[q] == inner[q]);
            }
        }
        assert forall|x: int| out.contains(x) <==> order.contains(x) || x == i by {
            if out.contains(x) {
                let k = choose|k: int| 0 <= k < out.len() && out[k] == x;
                if k < inner.len() {
                    assert(inner.contains(x));
                    if x != i {
                        let j = choose|j: int| 0 <= j < front.len() && front[j] == x;
                        assert(order[j] == x);
                    }
                } else {
                    assert(order[order.len() - 1] == x);
                }
            }
            if order.contains(x) {
                let k = choose|k: int| 0 <= k < order.len() && order[k] == x;
                if k < front.len() {
                    assert(front[k] == x);
                    assert(inner.contains(x));
                    let j = choose|j: int| 0 <= j < inner.len() && inner[j] == x;
                    assert(out[j] == x);
                } else {
                    assert(out[out.len() - 1] == x);
                }
            }
            if x == i {
                assert(inner.contains(x));
                let j = choose|j: int| 0 <= j < inner.len() && inner[j] == x;
                assert(out[j] == x);
            }
        }
    } else {
        assert forall|p: int, q: int| 0 <= p < q < out.len() implies key_before(
            keys,
            #[trigger] out[p],
            #[trigger] out[q],
        ) by {
            if q == order.len() {
                let last = order.last();
                lemma_text_less_total(keys[i], keys[last]);
                assert(key_before(keys, last, i));
                if p < order.len() - 1 {
                    assert(key_before(keys, order[p], order[order.len() - 1]));
                    if text_less(keys[order[p]], keys[last]) && text_less(keys[last], keys[i]) {
                        lemma_text_less_transitive(keys[order[p]], keys[last], keys[i]);
                    }
                }
            } else {
                assert(out[p] == order[p] && out[q] == order[q]);
            }
        }
        assert forall|x: int| out.contains(x) <==> order.contains(x) || x == i by {
            if out.contains(x) {
                let k = choose|k: int| 0 <= k < out.len() && out[k] == x;
                if k < order.len() {
                    assert(order[k] == x);
                }
            }
            if order.contains(x) {
                let k = choose|k: int| 0 <= k < order.len() && order[k] == x;
                assert(out[k] == x);
            }
            if x == i {
                assert(out[order.len() as int] == x);
            }
        }
    }
}

/// The order of keys holds each position once, and goes by the keys; equal keys stay in their order.
pub proof fn lemma_order_upto(keys: Seq<Seq<char>>, n: int)
    requires
        0 <= n <= keys.len(),
    ensures
        order_upto(keys, n).len() == n,
        forall|x: int| #[trigger] order_upto(keys, n).contains(x) <==> 0 <= x < n,
        keys_in_order(keys, order_upto(keys, n)),
    decreases n,
{
    if n > 0 {
        let order = order_upto(keys, n - 1);
        lemma_order_upto(keys, n - 1);
        assert forall|p: int| 0 <= p < order.len() implies 0 <= #[trigger] order[p] < n - 1 by {
            assert(order.contains(order[p]));
        }
        lemma_placed(order, keys, n - 1);
    }
}

} // verus!
