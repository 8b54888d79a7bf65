//! Text primitives: concatenation, searching, trimming and joining of strings, stated over the
//! sequence of characters that a string holds.

use vstd::prelude::*;

verus! {

/// The characters of every string of `v`, in order.
pub open spec fn texts(v: Seq<String>) -> Seq<Seq<char>> {
    v.map_values(|s: String| s@)
}

pub broadcast proof fn lemma_texts_push(v: Seq<String>, s: String)
    ensures
        #[trigger] texts(v.push(s)) == texts(v).push(s@),
{
    assert(texts(v.push(s)) =~= texts(v).push(s@));
}

pub broadcast proof fn lemma_texts_add(a: Seq<String>, b: Seq<String>)
    ensures
        #[trigger] texts(a + b) == texts(a) + texts(b),
{
    assert(texts(a + b) =~= texts(a) + texts(b));
}

pub broadcast proof fn lemma_texts_empty()
    ensures
        #[trigger] texts(Seq::<String>::empty()) == Seq::<Seq<char>>::empty(),
{
    assert(texts(Seq::<String>::empty()) =~= Seq::<Seq<char>>::empty());
}

pub broadcast group group_texts {
    lemma_texts_push,
    lemma_texts_add,
    lemma_texts_empty,
}

// ---------------------------------------------------------------------------
// Construction
// ---------------------------------------------------------------------------

/// An owned copy of `s`.
pub fn owned(s: &str) -> (r: String)
    ensures
        r@ == s@,
{
    String::from_str(s)
}

/// Appends one character: `String::push` adds `c` behind what the string holds.
#[verifier::external_body]
pub(crate) fn push_char(s: &mut String, c: char)
    ensures
        final(s)@ == old(s)@.push(c),
{
    s.push(c)
}

/// Whether two strings hold the same characters, as `==` on `str` decides it.
#[verifier::external_body]
pub(crate) fn same(a: &str, b: &str) -> (r: bool)
    ensures
        r == (a@ == b@),
{
    a == b
}

pub fn cat2(a: &str, b: &str) -> (r: String)
    ensures
        r@ == a@ + b@,
{
    let mut r = String::from_str(a);
    r.append(b);
    r
}

pub fn cat3(a: &str, b: &str, c: &str) -> (r: String)
    ensures
        r@ == a@ + b@ + c@,
{
    let mut r = cat2(a, b);
    r.append(c);
    r
}

pub fn cat4(a: &str, b: &str, c: &str, d: &str) -> (r: String)
    ensures
        r@ == a@ + b@ + c@ + d@,
{
    let mut r = cat3(a, b, c);
    r.append(d);
    r
}

pub fn cat5(a: &str, b: &str, c: &str, d: &str, e: &str) -> (r: String)
    ensures
        r@ == a@ + b@ + c@ + d@ + e@,
{
    let mut r = cat4(a, b, c, d);
    r.append(e);
    r
}

pub fn cat6(a: &str, b: &str, c: &str, d: &str, e: &str, f: &str) -> (r: String)
    ensures
        r@ == a@ + b@ + c@ + d@ + e@ + f@,
{
    let mut r = cat5(a, b, c, d, e);
    r.append(f);
    r
}

pub fn cat7(a: &str, b: &str, c: &str, d: &str, e: &str, f: &str, g: &str) -> (r: String)
    ensures
        r@ == a@ + b@ + c@ + d@ + e@ + f@ + g@,
{
    let mut r = cat6(a, b, c, d, e, f);
    r.append(g);
    r
}

/// The characters of `s` as a vector.
pub fn chars_of(s: &str) -> (r: Vec<char>)
    ensures
        r@ == s@,
{
    let mut out: Vec<char> = Vec::new();
    for c in it: s.chars()
        invariant
            it.seq() == s@,
            out@ == s@.take(it.index() as int),
    {
        proof {
            assert(s@.take(it.index() as int + 1) == s@.take(it.index() as int).push(c));
        }
        out.push(c);
    }
    proof {
        assert(s@.take(s@.len() as int) == s@);
    }
    out
}

/// The string made of `cs[from..to]`.
pub fn from_chars(cs: &Vec<char>, from: usize, to: usize) -> (r: String)
    requires
        from <= to <= cs@.len(),
    ensures
        r@ == cs@.subrange(from as int, to as int),
{
    let mut out = String::new();
    let mut i: usize = from;
    while i < to
        invariant
            from <= i <= to <= cs@.len(),
            out@ == cs@.subrange(from as int, i as int),
        decreases to - i,
    {
        push_char(&mut out, cs[i]);
        proof {
            assert(cs@.subrange(from as int, i as int + 1) == cs@.subrange(
                from as int,
                i as int,
            ).push(cs@[i as int]));
        }
        i = i + 1;
    }
    out
}

// ---------------------------------------------------------------------------
// Decimal numbers
// ---------------------------------------------------------------------------

/// The character of the decimal digit `d`.
pub open spec fn digit(d: nat) -> char {
    if d == 0 {
        '0'
    } else if d == 1 {
        '1'
    } else if d == 2 {
        '2'
    } else if d == 3 {
        '3'
    } else if d == 4 {
        '4'
    } else if d == 5 {
        '5'
    } else if d == 6 {
        '6'
    } else if d == 7 {
        '7'
    } else if d == 8 {
        '8'
    } else {
        '9'
    }
}

/// The decimal representation of `n`, without leading zeros.
pub open spec fn decimal(n: nat) -> Seq<char>
    decreases n,
{
    if n < 10 {
        seq![digit(n)]
    } else {
        decimal(n / 10).push(digit(n % 10))
    }
}

fn digit_char(d: u128) -> (c: char)
    requires
        d < 10,
    ensures
        c == digit(d as nat),
{
    if d == 0 {
        '0'
    } else if d == 1 {
        '1'
    } else if d == 2 {
        '2'
    } else if d == 3 {
        '3'
    } else if d == 4 {
        '4'
    } else if d == 5 {
        '5'
    } else if d == 6 {
        '6'
    } else if d == 7 {
        '7'
    } else if d == 8 {
        '8'
    } else {
        '9'
    }
}

/// Writes `n` in decimal.
pub fn decimal_text(n: u64) -> (r: String)
    ensures
        r@ == decimal(n as nat),
{
    wide_decimal_text(n as u128)
}

/// Writes `n` in decimal.
pub fn wide_decimal_text(n: u128) -> (r: String)
    ensures
        r@ == decimal(n as nat),
    decreases n,
{
    let mut out: String = if n < 10 {
        String::new()
    } else {
        wide_decimal_text(n / 10)
    };
    push_char(&mut out, digit_char(n % 10));
    proof {
        if n < 10 {
            assert(out@ =~= decimal(n as nat));
        }
    }
    out
}

/// Different numbers have different decimal representations.
pub proof fn lemma_decimal_injective(a: nat, b: nat)
    ensures
        decimal(a) == decimal(b) ==> a == b,
        decimal(a).len() > 0,
    decreases a,
{
    if decimal(a) == decimal(b) {
        if a < 10 && b < 10 {
            assert(decimal(a)[0] == decimal(b)[0]);
        } else if a < 10 {
            lemma_decimal_injective_len(b / 10);
            assert(decimal(b).len() == decimal(b / 10).len() + 1);
        } else if b < 10 {
            lemma_decimal_injective_len(a / 10);
            assert(decimal(a).len() == decimal(a / 10).len() + 1);
        } else {
            assert(decimal(a).drop_last() =~= decimal(a / 10));
            assert(decimal(b).drop_last() =~= decimal(b / 10));
            assert(decimal(a).last() == digit(a % 10));
            assert(decimal(b).last() == digit(b % 10));
            lemma_decimal_injective(a / 10, b / 10);
        }
    }
    lemma_decimal_injective_len(a);
}

proof fn lemma_decimal_injective_len(a: nat)
    ensures
        decimal(a).len() > 0,
{
}

// ---------------------------------------------------------------------------
// Searching
// ---------------------------------------------------------------------------

/// Whether `s` begins with `p`.
pub open spec fn has_prefix(s: Seq<char>, p: Seq<char>) -> bool {
    p.len() <= s.len() && s.subrange(0, p.len() as int) == p
}

/// Whether `s` ends with `p`.
pub open spec fn has_suffix(s: Seq<char>, p: Seq<char>) -> bool {
    p.len() <= s.len() && s.subrange(s.len() - p.len(), s.len() as int) == p
}

/// Whether `p` stands in `s` at position `i`.
pub open spec fn occurs_at(s: Seq<char>, p: Seq<char>, i: int) -> bool {
    0 <= i <= s.len() - p.len() && s.subrange(i, i + p.len()) == p
}

/// Whether `p` stands in `s` somewhere.
pub open spec fn has_infix(s: Seq<char>, p: Seq<char>) -> bool {
    exists|i: int| #[trigger] occurs_at(s, p, i)
}

/// Whether `p` stands in `s` at position `i`.
pub fn chars_occur_at(s: &Vec<char>, p: &Vec<char>, i: usize) -> (r: bool)
    ensures
        r == occurs_at(s@, p@, i as int),
{
    let n: usize = s.len();
    if i > n || p.len() > n - i {
        return false;
    }
    let mut j: usize = 0;
    while j < p.len()
        invariant
            j <= p@.len(),
            n == s@.len(),
            i + p@.len() <= n,
            forall|k: int| 0 <= k < j ==> s@[i + k] == p@[k],
        decreases p@.len() - j,
    {
        if s[i + j] != p[j] {
            proof {
                assert(s@.subrange(i as int, i + p@.len())[j as int] != p@[j as int]);
            }
            return false;
        }
        j = j + 1;
    }
    proof {
        assert(s@.subrange(i as int, i + p@.len()) =~= p@);
    }
    true
}

pub fn chars_starts_with(s: &Vec<char>, p: &Vec<char>) -> (r: bool)
    ensures
        r == has_prefix(s@, p@),
{
    chars_occur_at(s, p, 0)
}

pub fn chars_ends_with(s: &Vec<char>, p: &Vec<char>) -> (r: bool)
    ensures
        r == has_suffix(s@, p@),
{
    if p.len() > s.len() {
        return false;
    }
    chars_occur_at(s, p, s.len() - p.len())
}

pub fn starts_with(s: &str, p: &str) -> (r: bool)
    ensures
        r == has_prefix(s@, p@),
{
    let a = chars_of(s);
    let b = chars_of(p);
    chars_starts_with(&a, &b)
}

pub fn ends_with(s: &str, p: &str) -> (r: bool)
    ensures
        r == has_suffix(s@, p@),
{
    let a = chars_of(s);
    let b = chars_of(p);
    chars_ends_with(&a, &b)
}

pub fn contains(s: &str, p: &str) -> (r: bool)
    ensures
        r == has_infix(s@, p@),
{
    let a = chars_of(s);
    let b = chars_of(p);
    if b.len() > a.len() {
        return false;
    }
    let mut i: usize = 0;
    while i <= a.len() - b.len()
        invariant
            a@ == s@,
            b@ == p@,
            b@.len() <= a@.len(),
            i <= a@.len() - b@.len() + 1,
            forall|k: int| 0 <= k < i ==> !#[trigger] occurs_at(a@, b@, k),
        decreases a@.len() + 1 - i,
    {
        if chars_occur_at(&a, &b, i) {
            return true;
        }
        if i == a.len() - b.len() {
            return false;
        }
        i = i + 1;
    }
    false
}

/// Whether `s` begins with `c`.
pub open spec fn first_is(s: Seq<char>, c: char) -> bool {
    s.len() > 0 && s[0] == c
}

/// Whether `s` ends with `c`.
pub open spec fn last_is(s: Seq<char>, c: char) -> bool {
    s.len() > 0 && s.last() == c
}

pub fn starts_with_char(s: &str, c: char) -> (r: bool)
    ensures
        r == first_is(s@, c),
{
    let a = chars_of(s);
    a.len() > 0 && a[0] == c
}

pub fn ends_with_char(s: &str, c: char) -> (r: bool)
    ensures
        r == last_is(s@, c),
{
    let a = chars_of(s);
    a.len() > 0 && a[a.len() - 1] == c
}

pub fn contains_char(s: &str, c: char) -> (r: bool)
    ensures
        r == s@.contains(c),
{
    let a = chars_of(s);
    let mut i: usize = 0;
    while i < a.len()
        invariant
            i <= a@.len(),
            a@ == s@,
            forall|k: int| 0 <= k < i ==> a@[k] != c,
        decreases a@.len() - i,
    {
        if a[i] == c {
            return true;
        }
        i = i + 1;
    }
    false
}

/// `s` without its first `n` characters.
pub fn skip_chars(s: &str, n: usize) -> (r: String)
    requires
        n <= s@.len(),
    ensures
        r@ == s@.skip(n as int),
{
    let a = chars_of(s);
    let r = from_chars(&a, n, a.len());
    proof {
        assert(r@ =~= s@.skip(n as int));
    }
    r
}

/// The first position from `i` on at which `p` stands in `s`.
pub open spec fn find_from(s: Seq<char>, p: Seq<char>, i: int) -> Option<int>
    decreases s.len() + 1 - i,
{
    if i < 0 || i > s.len() {
        None
    } else if occurs_at(s, p, i) {
        Some(i)
    } else {
        find_from(s, p, i + 1)
    }
}

/// The position at which `p` first stands in the characters `s`.
pub fn chars_find(s: &Vec<char>, p: &Vec<char>) -> (r: Option<usize>)
    ensures
        match r {
            Some(i) => find_from(s@, p@, 0) == Some(i as int) && occurs_at(s@, p@, i as int),
            None => find_from(s@, p@, 0) is None,
        },
{
    let mut i: usize = 0;
    loop
        invariant
            i <= s@.len(),
            find_from(s@, p@, i as int) == find_from(s@, p@, 0),
        decreases s@.len() - i,
    {
        if chars_occur_at(s, p, i) {
            return Some(i);
        }
        if i == s.len() {
            proof {
                assert(find_from(s@, p@, i as int + 1) is None);
            }
            return None;
        }
        i = i + 1;
    }
}

/// `s` from position `i` on, with every `old` replaced by `new`, from left to right.
pub open spec fn all_replaced_from(s: Seq<char>, old: Seq<char>, new: Seq<char>, i: int) -> Seq<char>
    decreases s.len() - i,
{
    if i < 0 || i >= s.len() || old.len() == 0 {
        Seq::empty()
    } else if occurs_at(s, old, i) {
        new + all_replaced_from(s, old, new, i + old.len())
    } else {
        seq![s[i]] + all_replaced_from(s, old, new, i + 1)
    }
}

/// `s` with every `old` replaced by `new`.
pub open spec fn all_replaced(s: Seq<char>, old: Seq<char>, new: Seq<char>) -> Seq<char> {
    all_replaced_from(s, old, new, 0)
}

pub fn replace_all(s: &str, old_text: &str, new_text: &str) -> (r: String)
    requires
        old_text@.len() > 0,
    ensures
        r@ == all_replaced(s@, old_text@, new_text@),
{
    let cs = chars_of(s);
    let os = chars_of(old_text);
    let mut out = String::new();
    let mut i: usize = 0;
    let ghost goal = all_replaced(s@, old_text@, new_text@);
    proof {
        assert(out@ + goal =~= goal);
    }
    while i < cs.len()
        invariant
            i <= cs@.len(),
            cs@ == s@,
            os@ == old_text@,
            os@.len() > 0,
            out@ + all_replaced_from(s@, old_text@, new_text@, i as int) == goal,
        decreases cs@.len() - i,
    {
        let ghost before = out@;
        let n: usize = os.len();
        if chars_occur_at(&cs, &os, i) {
            out.append(new_text);
            proof {
                let rest = all_replaced_from(s@, old_text@, new_text@, i + n);
                assert(before + new_text@ + rest =~= before + (new_text@ + rest));
            }
            i = i + n;
        } else {
            push_char(&mut out, cs[i]);
            proof {
                let rest = all_replaced_from(s@, old_text@, new_text@, i + 1);
                assert(before.push(cs@[i as int]) + rest =~= before + (seq![cs@[i as int]] + rest));
            }
            i = i + 1;
        }
    }
    proof {
        assert(out@ + Seq::<char>::empty() =~= out@);
    }
    out
}

// ---------------------------------------------------------------------------
// Character classes
// ---------------------------------------------------------------------------

pub open spec fn ascii_digit(c: char) -> bool {
    '0' <= c <= '9'
}

pub open spec fn ascii_upper(c: char) -> bool {
    'A' <= c <= 'Z'
}

pub open spec fn ascii_alphabetic(c: char) -> bool {
    'a' <= c <= 'z' || 'A' <= c <= 'Z'
}

pub open spec fn ascii_alphanumeric(c: char) -> bool {
    ascii_alphabetic(c) || ascii_digit(c)
}

pub fn is_ascii_digit(c: char) -> (r: bool)
    ensures
        r == ascii_digit(c),
{
    '0' <= c && c <= '9'
}

pub fn is_ascii_upper(c: char) -> (r: bool)
    ensures
        r == ascii_upper(c),
{
    'A' <= c && c <= 'Z'
}

pub fn is_ascii_alphabetic(c: char) -> (r: bool)
    ensures
        r == ascii_alphabetic(c),
{
    ('a' <= c && c <= 'z') || ('A' <= c && c <= 'Z')
}

pub fn is_ascii_alphanumeric(c: char) -> (r: bool)
    ensures
        r == ascii_alphanumeric(c),
{
    is_ascii_alphabetic(c) || is_ascii_digit(c)
}

/// Whether every character of `s` is a decimal digit.
pub open spec fn all_digits(s: Seq<char>) -> bool {
    forall|i: int| 0 <= i < s.len() ==> ascii_digit(#[trigger] s[i])
}

/// A name of the shape `t0`, `t1`, ...: the letter `t` and at least one decimal digit.
pub open spec fn temp_name(s: Seq<char>) -> bool {
    s.len() >= 2 && s[0] == 't' && all_digits(s.skip(1))
}

pub fn is_temp_name_text(s: &str) -> (r: bool)
    ensures
        r == temp_name(s@),
{
    let a = chars_of(s);
    if a.len() < 2 || a[0] != 't' {
        return false;
    }
    let mut i: usize = 1;
    while i < a.len()
        invariant
            1 <= i <= a@.len(),
            a@ == s@,
            forall|k: int| 1 <= k < i ==> ascii_digit(a@[k]),
        decreases a@.len() - i,
    {
        if !is_ascii_digit(a[i]) {
            proof {
                assert(s@.skip(1)[i - 1] == a@[i as int]);
            }
            return false;
        }
        i = i + 1;
    }
    proof {
        assert forall|k: int| 0 <= k < s@.skip(1).len() implies ascii_digit(
            #[trigger] s@.skip(1)[k],
        ) by {
            assert(s@.skip(1)[k] == a@[k + 1]);
        }
    }
    true
}

/// Whether `c` has the Unicode property `White_Space`.
pub open spec fn whitespace(c: char) -> bool {
    let code = c as int;
    ||| 9 <= code <= 13
    ||| code == 0x20
    ||| code == 0x85
    ||| code == 0xA0
    ||| code == 0x1680
    ||| 0x2000 <= code <= 0x200A
    ||| code == 0x2028
    ||| code == 0x2029
    ||| code == 0x202F
    ||| code == 0x205F
    ||| code == 0x3000
}

pub fn is_whitespace(c: char) -> (r: bool)
    ensures
        r == whitespace(c),
{
    let code: u32 = c as u32;
    (9 <= code && code <= 13) || code == 0x20 || code == 0x85 || code == 0xA0 || code == 0x1680 || (
    0x2000 <= code && code <= 0x200A) || code == 0x2028 || code == 0x2029 || code == 0x202F || code
        == 0x205F || code == 0x3000
}

/// What `char::is_alphanumeric` answers for `c`.
pub uninterp spec fn alphanumeric(c: char) -> bool;

/// `char::is_alphanumeric`: whether `c` is a letter or a number in Unicode. On ASCII that is a letter
/// or a decimal digit.
#[verifier::external_body]
pub(crate) fn is_alphanumeric(c: char) -> (r: bool)
    ensures
        r == alphanumeric(c),
        c <= '\x7f' ==> r == ascii_alphanumeric(c),
{
    c.is_alphanumeric()
}

/// What `char::is_uppercase` answers for `c`.
pub uninterp spec fn uppercase(c: char) -> bool;

/// `char::is_uppercase`: whether `c` has the Unicode property `Uppercase`. On ASCII that is `A` to `Z`.
#[verifier::external_body]
pub(crate) fn is_uppercase(c: char) -> (r: bool)
    ensures
        r == uppercase(c),
        c <= '\x7f' ==> r == ascii_upper(c),
{
    c.is_uppercase()
}

// ---------------------------------------------------------------------------
// Trimming
// ---------------------------------------------------------------------------

/// `s` without leading whitespace.
pub open spec fn trim_start(s: Seq<char>) -> Seq<char>
    decreases s.len(),
{
    if s.len() > 0 && whitespace(s[0]) {
        trim_start(s.skip(1))
    } else {
        s
    }
}

/// `s` without trailing whitespace.
pub open spec fn trim_end(s: Seq<char>) -> Seq<char>
    decreases s.len(),
{
    if s.len() > 0 && whitespace(s.last()) {
        trim_end(s.drop_last())
    } else {
        s
    }
}

/// `s` without leading and trailing whitespace.
pub open spec fn trimmed(s: Seq<char>) -> Seq<char> {
    trim_end(trim_start(s))
}

pub fn trim(s: &str) -> (r: String)
    ensures
        r@ == trimmed(s@),
{
    let a = chars_of(s);
    let mut from: usize = 0;
    proof {
        assert(a@.skip(0) =~= s@);
    }
    while from < a.len() && is_whitespace(a[from])
        invariant
            from <= a@.len(),
            trim_start(a@.skip(from as int)) == trim_start(s@),
        ensures
            from <= a@.len(),
            a@.skip(from as int) == trim_start(s@),
        decreases a@.len() - from,
    {
        proof {
            assert(a@.skip(from as int).skip(1) =~= a@.skip(from as int + 1));
        }
        from = from + 1;
    }
    let mut to: usize = a.len();
    let ghost body = a@.skip(from as int);
    proof {
        assert(a@.subrange(from as int, to as int) =~= body);
    }
    while to > from && is_whitespace(a[to - 1])
        invariant
            from <= to <= a@.len(),
            trim_end(a@.subrange(from as int, to as int)) == trim_end(body),
        ensures
            from <= to <= a@.len(),
            a@.subrange(from as int, to as int) == trim_end(body),
        decreases to,
    {
        proof {
            assert(a@.subrange(from as int, to as int).drop_last() =~= a@.subrange(
                from as int,
                to as int - 1,
            ));
        }
        to = to - 1;
    }
    from_chars(&a, from, to)
}

pub fn trim_left(s: &str) -> (r: String)
    ensures
        r@ == trim_start(s@),
{
    let a = chars_of(s);
    let mut from: usize = 0;
    proof {
        assert(a@.skip(0) =~= s@);
    }
    while from < a.len() && is_whitespace(a[from])
        invariant
            from <= a@.len(),
            trim_start(a@.skip(from as int)) == trim_start(s@),
        ensures
            from <= a@.len(),
            a@.skip(from as int) == trim_start(s@),
        decreases a@.len() - from,
    {
        proof {
            assert(a@.skip(from as int).skip(1) =~= a@.skip(from as int + 1));
        }
        from = from + 1;
    }
    let r = from_chars(&a, from, a.len());
    proof {
        assert(r@ =~= a@.skip(from as int));
    }
    r
}

pub fn trim_right(s: &str) -> (r: String)
    ensures
        r@ == trim_end(s@),
{
    let a = chars_of(s);
    let mut to: usize = a.len();
    proof {
        assert(a@.take(to as int) =~= s@);
    }
    while to > 0 && is_whitespace(a[to - 1])
        invariant
            to <= a@.len(),
            trim_end(a@.take(to as int)) == trim_end(s@),
        ensures
            to <= a@.len(),
            a@.take(to as int) == trim_end(s@),
        decreases to,
    {
        proof {
            assert(a@.take(to as int).drop_last() =~= a@.take(to as int - 1));
        }
        to = to - 1;
    }
    let r = from_chars(&a, 0, to);
    proof {
        assert(r@ =~= a@.take(to as int));
    }
    r
}

/// `s` without all the copies of `p` that stand at its beginning.
pub open spec fn without_prefixes(s: Seq<char>, p: Seq<char>) -> Seq<char>
    decreases s.len(),
{
    if p.len() > 0 && has_prefix(s, p) {
        without_prefixes(s.skip(p.len() as int), p)
    } else {
        s
    }
}

pub fn strip_prefixes(s: &str, p: &str) -> (r: String)
    requires
        p@.len() > 0,
    ensures
        r@ == without_prefixes(s@, p@),
{
    let a = chars_of(s);
    let b = chars_of(p);
    let n: usize = a.len();
    let mut from: usize = 0;
    proof {
        assert(a@.skip(0) =~= s@);
    }
    while chars_occur_at(&a, &b, from)
        invariant
            from <= a@.len(),
            b@ == p@,
            p@.len() > 0,
            n == a@.len(),
            without_prefixes(a@.skip(from as int), p@) == without_prefixes(s@, p@),
        decreases a@.len() - from,
    {
        proof {
            let rest = a@.skip(from as int);
            assert(rest.subrange(0, p@.len() as int) =~= a@.subrange(
                from as int,
                from + p@.len(),
            ));
            assert(rest.skip(p@.len() as int) =~= a@.skip(from + p@.len()));
        }
        from = from + b.len();
    }
    proof {
        let rest = a@.skip(from as int);
        if has_prefix(rest, p@) {
            assert(rest.subrange(0, p@.len() as int) =~= a@.subrange(
                from as int,
                from + p@.len(),
            ));
        }
    }
    let r = from_chars(&a, from, a.len());
    proof {
        assert(r@ =~= a@.skip(from as int));
    }
    r
}

/// `s` without all the characters `c` that stand at its end.
pub open spec fn without_trailing(s: Seq<char>, c: char) -> Seq<char>
    decreases s.len(),
{
    if s.len() > 0 && s.last() == c {
        without_trailing(s.drop_last(), c)
    } else {
        s
    }
}

pub fn strip_trailing(s: &str, c: char) -> (r: String)
    ensures
        r@ == without_trailing(s@, c),
{
    let a = chars_of(s);
    let mut to: usize = a.len();
    proof {
        assert(a@.take(to as int) =~= s@);
    }
    while to > 0 && a[to - 1] == c
        invariant
            to <= a@.len(),
            without_trailing(a@.take(to as int), c) == without_trailing(s@, c),
        ensures
            to <= a@.len(),
            a@.take(to as int) == without_trailing(s@, c),
        decreases to,
    {
        proof {
            assert(a@.take(to as int).drop_last() =~= a@.take(to as int - 1));
        }
        to = to - 1;
    }
    let r = from_chars(&a, 0, to);
    proof {
        assert(r@ =~= a@.take(to as int));
    }
    r
}

// ---------------------------------------------------------------------------
// Lines
// ---------------------------------------------------------------------------

/// The position of the first line feed from `i` on, or the end.
pub open spec fn line_end(s: Seq<char>, i: int) -> int
    decreases s.len() - i,
{
    if i < 0 || i >= s.len() || s[i] == '\n' {
        i
    } else {
        line_end(s, i + 1)
    }
}

/// A line without the carriage return in front of its line feed.
pub open spec fn without_return(line: Seq<char>) -> Seq<char> {
    if line.len() > 0 && line.last() == '\r' {
        line.drop_last()
    } else {
        line
    }
}

/// The lines of `s` from `i` on. A line ends with a line feed, or a carriage return and a line feed; a
/// last line without one counts if it is not empty.
pub open spec fn lines_from(s: Seq<char>, i: int) -> Seq<Seq<char>>
    decreases s.len() - i,
    via lines_from_decreases
{
    if i < 0 || i >= s.len() {
        Seq::empty()
    } else {
        let e = line_end(s, i);
        if e < s.len() {
            seq![without_return(s.subrange(i, e))] + lines_from(s, e + 1)
        } else {
            seq![s.subrange(i, e)]
        }
    }
}

#[via_fn]
proof fn lines_from_decreases(s: Seq<char>, i: int) {
    if 0 <= i < s.len() {
        lemma_line_end(s, i);
    }
}

proof fn lemma_line_end(s: Seq<char>, i: int)
    requires
        0 <= i <= s.len(),
    ensures
        i <= line_end(s, i) <= s.len(),
    decreases s.len() - i,
{
    if i < s.len() && s[i] != '\n' {
        lemma_line_end(s, i + 1);
    }
}

pub open spec fn lines_of(s: Seq<char>) -> Seq<Seq<char>> {
    lines_from(s, 0)
}

pub fn lines(s: &str) -> (r: Vec<String>)
    ensures
        texts(r@) == lines_of(s@),
{
    let a = chars_of(s);
    let mut out: Vec<String> = Vec::new();
    let mut i: usize = 0;
    proof {
        assert(texts(out@) + lines_of(s@) =~= lines_of(s@));
    }
    while i < a.len()
        invariant
            a@ == s@,
            i <= a@.len(),
            texts(out@) + lines_from(s@, i as int) == lines_of(s@),
        decreases a@.len() - i,
    {
        let mut e: usize = i;
        while e < a.len() && a[e] != '\n'
            invariant
                i <= e <= a@.len(),
                line_end(a@, i as int) == line_end(a@, e as int),
            decreases a@.len() - e,
        {
            e = e + 1;
        }
        proof {
            lemma_texts_push(out@, out@[0]);
        }
        let ghost before = out@;
        if e < a.len() {
            let to: usize = if e > i && a[e - 1] == '\r' {
                e - 1
            } else {
                e
            };
            let line = from_chars(&a, i, to);
            proof {
                assert(line@ =~= without_return(s@.subrange(i as int, e as int)));
                lemma_texts_push(before, line);
                let rest = lines_from(s@, e + 1);
                assert(texts(before).push(line@) + rest =~= texts(before) + (seq![line@] + rest));
            }
            out.push(line);
            i = e + 1;
        } else {
            let line = from_chars(&a, i, e);
            proof {
                lemma_texts_push(before, line);
                assert(texts(before).push(line@) + Seq::<Seq<char>>::empty() =~= texts(before)
                    + seq![line@]);
            }
            out.push(line);
            i = e;
        }
    }
    proof {
        assert(texts(out@) + Seq::<Seq<char>>::empty() =~= texts(out@));
    }
    out
}

// ---------------------------------------------------------------------------
// Joining and repeating
// ---------------------------------------------------------------------------

/// The parts with `sep` between each two of them.
pub open spec fn joined(parts: Seq<Seq<char>>, sep: Seq<char>) -> Seq<char>
    decreases parts.len(),
{
    if parts.len() == 0 {
        Seq::empty()
    } else if parts.len() == 1 {
        parts[0]
    } else {
        joined(parts.drop_last(), sep) + sep + parts.last()
    }
}

pub fn join(parts: &Vec<String>, sep: &str) -> (r: String)
    ensures
        r@ == joined(texts(parts@), sep@),
{
    if parts.len() == 0 {
        return String::new();
    }
    let mut out = parts[0].clone();
    let mut i: usize = 1;
    proof {
        assert(texts(parts@).take(1) =~= seq![parts@[0]@]);
    }
    while i < parts.len()
        invariant
            1 <= i <= parts@.len(),
            out@ == joined(texts(parts@).take(i as int), sep@),
        decreases parts@.len() - i,
    {
        out.append(sep);
        out.append(&parts[i]);
        proof {
            let t = texts(parts@);
            assert(t.take(i as int + 1).drop_last() =~= t.take(i as int));
            assert(t.take(i as int + 1).last() == parts@[i as int]@);
        }
        i = i + 1;
    }
    proof {
        assert(texts(parts@).take(parts@.len() as int) =~= texts(parts@));
    }
    out
}

/// The parts one behind the other.
pub open spec fn concatenated(parts: Seq<Seq<char>>) -> Seq<char>
    decreases parts.len(),
{
    if parts.len() == 0 {
        Seq::empty()
    } else {
        concatenated(parts.drop_last()) + parts.last()
    }
}

/// `n` copies of `s`, one behind the other.
pub open spec fn repeated(s: Seq<char>, n: nat) -> Seq<char>
    decreases n,
{
    if n == 0 {
        Seq::empty()
    } else {
        repeated(s, (n - 1) as nat) + s
    }
}

pub fn repeat(s: &str, n: usize) -> (r: String)
    ensures
        r@ == repeated(s@, n as nat),
{
    let mut out = String::new();
    let mut i: usize = 0;
    while i < n
        invariant
            i <= n,
            out@ == repeated(s@, i as nat),
        decreases n - i,
    {
        out.append(s);
        i = i + 1;
    }
    out
}

/// Every string of `v`, copied.
pub fn clone_texts(v: &Vec<String>) -> (r: Vec<String>)
    ensures
        texts(r@) == texts(v@),
{
    let mut out: Vec<String> = Vec::new();
    let mut i: usize = 0;
    while i < v.len()
        invariant
            i <= v@.len(),
            out@.len() == i,
            forall|k: int| 0 <= k < i ==> out@[k]@ == v@[k]@,
        decreases v@.len() - i,
    {
        out.push(v[i].clone());
        i = i + 1;
    }
    proof {
        assert(texts(out@) =~= texts(v@));
    }
    out
}

/// Appends copies of all strings of `more` to `v`.
pub fn extend_texts(v: &mut Vec<String>, more: &Vec<String>)
    ensures
        texts(final(v)@) == texts(old(v)@) + texts(more@),
{
    let ghost start = texts(v@);
    let mut i: usize = 0;
    while i < more.len()
        invariant
            i <= more@.len(),
            texts(v@) == start + texts(more@).take(i as int),
        decreases more@.len() - i,
    {
        let ghost before = v@;
        v.push(more[i].clone());
        proof {
            lemma_texts_push(before, v@.last());
            assert(texts(more@).take(i as int + 1) =~= texts(more@).take(i as int).push(
                more@[i as int]@,
            ));
            assert(texts(v@) =~= start + texts(more@).take(i as int + 1));
        }
        i = i + 1;
    }
    proof {
        assert(texts(more@).take(more@.len() as int) =~= texts(more@));
    }
}

/// The position of the first `c` in `s` from `i` on; the length of `s` where there is none.
pub open spec fn char_index(s: Seq<char>, c: char, i: int) -> int
    decreases s.len() - i,
{
    if i < 0 || i >= s.len() || s[i] == c {
        i
    } else {
        char_index(s, c, i + 1)
    }
}

/// What stands in front of the first `c`; all of `s` where there is none.
pub open spec fn before(s: Seq<char>, c: char) -> Seq<char> {
    s.take(char_index(s, c, 0))
}

pub fn text_before(s: &str, c: char) -> (r: String)
    ensures
        r@ == before(s@, c),
{
    let a = chars_of(s);
    let mut i: usize = 0;
    while i < a.len() && a[i] != c
        invariant
            i <= a@.len(),
            a@ == s@,
            char_index(s@, c, i as int) == char_index(s@, c, 0),
        decreases a@.len() - i,
    {
        i = i + 1;
    }
    let r = from_chars(&a, 0, i);
    proof {
        assert(s@.take(i as int) =~= a@.subrange(0, i as int));
    }
    r
}

} // verus!
