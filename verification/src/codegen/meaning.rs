//! What the lines of a memoized block do when they are run.

use vstd::prelude::*;

use crate::codegen::emit::{memo_lines, memo_results, value_lines, Memo};
use crate::codegen::lines::{
    all_at, changed_tests, memo_head, slot_loads, slot_stores, slot_sum, Line,
};
use crate::codegen::scopes::{scope_lines, without_lets};
use crate::text::{decimal, find_from, joined, lemma_decimal_injective, occurs_at};

verus! {

// ---------------------------------------------------------------------------
// Finding a text in another
// ---------------------------------------------------------------------------

/// Whether a character does not occur in a text.
pub open spec fn without(s: Seq<char>, c: char) -> bool {
    forall|i: int| 0 <= i < s.len() ==> #[trigger] s[i] != c
}

proof fn lemma_find(s: Seq<char>, p: Seq<char>, i: int, at: int)
    requires
        0 <= i <= at,
        occurs_at(s, p, at),
        forall|j: int| i <= j < at ==> !#[trigger] occurs_at(s, p, j),
    ensures
        find_from(s, p, i) == Some(at),
    decreases at - i,
{
    if i < at {
        assert(!occurs_at(s, p, i));
        lemma_find(s, p, i + 1, at);
    }
}

proof fn lemma_find_none(s: Seq<char>, p: Seq<char>, i: int)
    requires
        0 <= i,
        forall|j: int| i <= j <= s.len() ==> !#[trigger] occurs_at(s, p, j),
    ensures
        find_from(s, p, i) is None,
    decreases s.len() + 1 - i,
{
    if i <= s.len() {
        assert(!occurs_at(s, p, i));
        lemma_find_none(s, p, i + 1);
    }
}

/// A text in which the character `p[k]` does not occur does not hold `p`.
proof fn lemma_absent(s: Seq<char>, p: Seq<char>, k: int)
    requires
        0 <= k < p.len(),
        without(s, p[k]),
    ensures
        find_from(s, p, 0) is None,
{
    assert forall|j: int| 0 <= j <= s.len() implies !#[trigger] occurs_at(s, p, j) by {
        if occurs_at(s, p, j) {
            assert(s.subrange(j, j + p.len())[k] == p[k]);
            assert(s[j + k] == p[k]);
        }
    }
    lemma_find_none(s, p, 0);
}

/// Behind a text in which the first character of `p` does not occur, `p` is found at once.
proof fn lemma_found_behind(a: Seq<char>, p: Seq<char>, b: Seq<char>)
    requires
        p.len() > 0,
        without(a, p[0]),
    ensures
        find_from(a + p + b, p, 0) == Some(a.len() as int),
        (a + p + b).take(a.len() as int) == a,
        (a + p + b).skip((a.len() + p.len()) as int) == b,
{
    let s = a + p + b;
    assert(s.subrange(a.len() as int, (a.len() + p.len()) as int) =~= p);
    assert forall|j: int| 0 <= j < a.len() implies !#[trigger] occurs_at(s, p, j) by {
        if occurs_at(s, p, j) {
            assert(s.subrange(j, j + p.len())[0] == p[0]);
            assert(a[j] == p[0]);
        }
    }
    lemma_find(s, p, 0, a.len() as int);
    assert(s.take(a.len() as int) =~= a);
    assert(s.skip((a.len() + p.len()) as int) =~= b);
}

/// ` || ` is found behind a text without bars.
proof fn lemma_or_found(a: Seq<char>, b: Seq<char>)
    requires
        without(a, '|'),
    ensures
        find_from(a + " || "@ + b, " || "@, 0) == Some(a.len() as int),
        (a + " || "@ + b).take(a.len() as int) == a,
        (a + " || "@ + b).skip(a.len() as int + 4) == b,
{
    reveal_strlit(" || ");
    let p = " || "@;
    let s = a + p + b;
    assert(s.subrange(a.len() as int, a.len() as int + 4) =~= p);
    assert forall|j: int| 0 <= j < a.len() implies !#[trigger] occurs_at(s, p, j) by {
        if occurs_at(s, p, j) {
            let part = s.subrange(j, j + 4);
            assert(part[1] == '|' && part[2] == '|');
            assert(s[j + 1] == '|' && s[j + 2] == '|');
            if j + 1 < a.len() {
                assert(a[j + 1] == '|');
            } else {
                assert(s[j + 1] == p[0]);
            }
        }
    }
    lemma_find(s, p, 0, a.len() as int);
    assert(s.take(a.len() as int) =~= a);
    assert(s.skip(a.len() as int + 4) =~= b);
}

// ---------------------------------------------------------------------------
// Running lines
// ---------------------------------------------------------------------------

/// What places hold, by their texts.
pub type Places = Map<Seq<char>, int>;

/// What is not spelled out here: when another test is true, and what another statement does.
pub struct Runner {
    pub truth: spec_fn(Seq<char>, Places) -> bool,
    pub step: spec_fn(Seq<char>, Places) -> Places,
}

/// Whether a comparison is true.
pub open spec fn compared(m: Runner, t: Seq<char>, mem: Places) -> bool {
    match find_from(t, " !== "@, 0) {
        Some(p) => mem[t.take(p)] != mem[t.skip(p + 5)],
        None => match find_from(t, " === "@, 0) {
            Some(p) => mem[t.take(p)] == mem[t.skip(p + 5)],
            None => (m.truth)(t, mem),
        },
    }
}

/// Whether all of the tests between `&&` are true.
pub open spec fn all_true(m: Runner, t: Seq<char>, mem: Places) -> bool
    decreases t.len(),
{
    match find_from(t, " && "@, 0) {
        Some(p) => if 0 <= p && p + 4 <= t.len() {
            all_true(m, t.take(p), mem) && all_true(m, t.skip(p + 4), mem)
        } else {
            false
        },
        None => compared(m, t, mem),
    }
}

/// Whether a condition is true: one of the parts between `||` is.
pub open spec fn is_true(m: Runner, t: Seq<char>, mem: Places) -> bool
    decreases t.len(),
{
    match find_from(t, " || "@, 0) {
        Some(p) => if 0 <= p && p + 4 <= t.len() {
            is_true(m, t.take(p), mem) || is_true(m, t.skip(p + 4), mem)
        } else {
            false
        },
        None => all_true(m, t, mem),
    }
}

/// The place that a statement assigns to, and what it assigns.
pub open spec fn assigned(t: Seq<char>) -> Option<(Seq<char>, Seq<char>)> {
    match find_from(t, " = "@, 0) {
        Some(p) => if p + 3 < t.len() && t.last() == ';' {
            Some((t.take(p), t.subrange(p + 3, t.len() - 1)))
        } else {
            None
        },
        None => None,
    }
}

/// What holds behind a statement.
pub open spec fn exec(m: Runner, t: Seq<char>, mem: Places) -> Places {
    match assigned(t) {
        Some((place, value)) => mem.insert(place, mem[value]),
        None => (m.step)(t, mem),
    }
}

/// What holds behind the statements on the first `n` lines.
pub open spec fn run(m: Runner, lines: Seq<Line>, n: int, mem: Places) -> Places
    decreases n,
{
    if n <= 0 {
        mem
    } else {
        exec(m, lines[n - 1].1, run(m, lines, n - 1, mem))
    }
}

/// The first line from `i` on that is indented by `indent`.
pub open spec fn next_at(lines: Seq<Line>, indent: nat, i: int) -> int
    decreases lines.len() - i,
{
    if i < 0 || i >= lines.len() || lines[i].0 == indent {
        i
    } else {
        next_at(lines, indent, i + 1)
    }
}

/// Whether lines are an `if` statement with both branches.
pub open spec fn is_if(lines: Seq<Line>) -> bool {
    let indent = lines[0].0;
    let head = lines[0].1;
    let a = next_at(lines, indent, 1);
    let b = next_at(lines, indent, a + 1);
    &&& lines.len() > 0
    &&& head.len() >= 7
    &&& head.take(4) == "if ("@
    &&& head.skip(head.len() - 3) == ") {"@
    &&& a < b < lines.len()
    &&& lines[a] == (indent, "} else {"@)
    &&& lines[b] == (indent, "}"@)
    &&& b == lines.len() - 1
}

/// What holds behind an `if` statement.
pub open spec fn run_if(m: Runner, lines: Seq<Line>, mem: Places) -> Places {
    let indent = lines[0].0;
    let head = lines[0].1;
    let a = next_at(lines, indent, 1);
    let b = next_at(lines, indent, a + 1);
    if is_true(m, head.subrange(4, head.len() - 3), mem) {
        run(m, lines.subrange(1, a), a - 1, mem)
    } else {
        run(m, lines.subrange(a + 1, b), b - a - 1, mem)
    }
}

proof fn lemma_run_front(m: Runner, a: Seq<Line>, b: Seq<Line>, n: int, mem: Places)
    requires
        n <= a.len(),
    ensures
        run(m, a + b, n, mem) == run(m, a, n, mem),
    decreases n,
{
    if n > 0 {
        lemma_run_front(m, a, b, n - 1, mem);
        assert((a + b)[n - 1] == a[n - 1]);
    }
}

proof fn lemma_run_add(m: Runner, a: Seq<Line>, b: Seq<Line>, n: int, mem: Places)
    requires
        0 <= n <= b.len(),
    ensures
        run(m, a + b, a.len() + n, mem) == run(m, b, n, run(m, a, a.len() as int, mem)),
    decreases n,
{
    if n > 0 {
        lemma_run_add(m, a, b, n - 1, mem);
        assert((a + b)[a.len() + n - 1] == b[n - 1]);
    } else {
        lemma_run_front(m, a, b, a.len() as int, mem);
    }
}

proof fn lemma_next_at(lines: Seq<Line>, indent: nat, i: int, at: int)
    requires
        0 <= i <= at < lines.len(),
        lines[at].0 == indent,
        forall|j: int| i <= j < at ==> (#[trigger] lines[j]).0 != indent,
    ensures
        next_at(lines, indent, i) == at,
    decreases at - i,
{
    if i < at {
        lemma_next_at(lines, indent, i + 1, at);
    }
}

/// Lines of which all are indented by one more.
pub open spec fn all_inside(lines: Seq<Line>, indent: nat) -> bool {
    forall|i: int| 0 <= i < lines.len() ==> (#[trigger] lines[i]).0 == indent + 1
}

proof fn lemma_if_runs(
    m: Runner,
    indent: nat,
    cond: Seq<char>,
    yes: Seq<Line>,
    no: Seq<Line>,
    lines: Seq<Line>,
    mem: Places,
)
    requires
        all_inside(yes, indent),
        all_inside(no, indent),
        lines == seq![(indent, "if ("@ + cond + ") {"@)] + yes + seq![(indent, "} else {"@)] + no + seq![
            (indent, "}"@),
        ],
    ensures
        is_if(lines),
        run_if(m, lines, mem) == if is_true(m, cond, mem) {
            run(m, yes, yes.len() as int, mem)
        } else {
            run(m, no, no.len() as int, mem)
        },
{
    reveal_strlit("if (");
    reveal_strlit(") {");
    let head = "if ("@ + cond + ") {"@;
    let a = 1 + yes.len() as int;
    let b = a + 1 + no.len() as int;
    assert(lines[0] == (indent, head));
    assert forall|j: int| 1 <= j < a implies (#[trigger] lines[j]).0 != indent by {
        assert(lines[j] == yes[j - 1]);
    }
    assert(lines[a] == (indent, "} else {"@));
    lemma_next_at(lines, indent, 1, a);
    assert forall|j: int| a + 1 <= j < b implies (#[trigger] lines[j]).0 != indent by {
        assert(lines[j] == no[j - a - 1]);
    }
    assert(lines[b] == (indent, "}"@));
    lemma_next_at(lines, indent, a + 1, b);
    assert(head.take(4) =~= "if ("@);
    assert(head.skip(head.len() - 3) =~= ") {"@);
    assert(head.subrange(4, head.len() - 3) =~= cond);
    assert(lines.subrange(1, a) =~= yes);
    assert(lines.subrange(a + 1, b) =~= no);
}

// ---------------------------------------------------------------------------
// The guard
// ---------------------------------------------------------------------------

/// Whether a text is the name of the cache or of a variable, or the path of a property.
pub open spec fn is_simple(s: Seq<char>) -> bool {
    &&& s.len() > 0
    &&& without(s, ' ')
    &&& without(s, '|')
    &&& without(s, '&')
}

pub open spec fn all_simple(v: Seq<Seq<char>>) -> bool {
    forall|i: int| 0 <= i < v.len() ==> is_simple(#[trigger] v[i])
}

/// The text of a slot of the cache.
pub open spec fn slot(cache: Seq<char>, k: int) -> Seq<char> {
    cache + "["@ + decimal(k as nat) + "]"@
}

proof fn lemma_decimal_digits(n: nat)
    ensures
        forall|i: int|
            0 <= i < decimal(n).len() ==> '0' <= #[trigger] decimal(n)[i] && decimal(n)[i] <= '9',
        decimal(n).len() > 0,
    decreases n,
{
    if n >= 10 {
        lemma_decimal_digits(n / 10);
    }
}

proof fn lemma_slot_simple(cache: Seq<char>, k: int)
    requires
        is_simple(cache),
    ensures
        is_simple(slot(cache, k)),
        slot(cache, k).last() == ']',
{
    reveal_strlit("[");
    reveal_strlit("]");
    lemma_decimal_digits(k as nat);
    let s = slot(cache, k);
    let d = decimal(k as nat);
    assert forall|i: int| 0 <= i < s.len() implies #[trigger] s[i] != ' ' && s[i] != '|' && s[i]
        != '&' by {
        if i < cache.len() {
            assert(s[i] == cache[i]);
        } else if i == cache.len() {
            assert(s[i] == '[');
        } else if i < s.len() - 1 {
            assert(s[i] == d[i - cache.len() - 1]);
        } else {
            assert(s[i] == ']');
        }
    }
}

proof fn lemma_slots_differ(cache: Seq<char>, i: int, j: int)
    requires
        0 <= i,
        0 <= j,
        i != j,
    ensures
        slot(cache, i) != slot(cache, j),
{
    reveal_strlit("[");
    reveal_strlit("]");
    if slot(cache, i) == slot(cache, j) {
        let a = slot(cache, i);
        let d = decimal(i as nat);
        let e = decimal(j as nat);
        assert(a.len() == cache.len() + 1 + d.len() + 1);
        assert(slot(cache, j).len() == cache.len() + 1 + e.len() + 1);
        assert(a.subrange(cache.len() as int + 1, a.len() - 1) =~= d);
        assert(slot(cache, j).subrange(cache.len() as int + 1, a.len() - 1) =~= e);
        lemma_decimal_injective(i as nat, j as nat);
    }
}

/// Whether a dependency differs from what its slot holds.
pub open spec fn differs(
    cache: Seq<char>,
    start: int,
    deps: Seq<Seq<char>>,
    i: int,
    mem: Places,
) -> bool {
    mem[slot(cache, start + i)] != mem[deps[i]]
}

/// Whether one of the dependencies differs from what its slot holds.
pub open spec fn some_differs(cache: Seq<char>, start: int, deps: Seq<Seq<char>>, mem: Places) -> bool {
    exists|i: int| 0 <= i < deps.len() && #[trigger] differs(cache, start, deps, i, mem)
}

proof fn lemma_joined_front(parts: Seq<Seq<char>>, sep: Seq<char>)
    requires
        parts.len() > 1,
    ensures
        joined(parts, sep) == parts[0] + sep + joined(parts.skip(1), sep),
    decreases parts.len(),
{
    if parts.len() == 2 {
        assert(parts.drop_last().len() == 1);
        assert(joined(parts.drop_last(), sep) == parts[0]);
        assert(joined(parts.skip(1), sep) == parts[1]);
    } else {
        lemma_joined_front(parts.drop_last(), sep);
        let rest = parts.skip(1);
        assert(parts.drop_last().skip(1) =~= rest.drop_last());
        assert(rest.last() == parts.last());
        assert(joined(parts, sep) =~= parts[0] + sep + joined(rest, sep));
    }
}

/// Whether a text is a test without bars and ampersands.
pub open spec fn is_test(s: Seq<char>) -> bool {
    without(s, '|') && without(s, '&')
}

proof fn lemma_test_true(m: Runner, t: Seq<char>, mem: Places)
    requires
        is_test(t),
    ensures
        is_true(m, t, mem) == compared(m, t, mem),
{
    reveal_strlit(" || ");
    reveal_strlit(" && ");
    lemma_absent(t, " || "@, 1);
    lemma_absent(t, " && "@, 1);
}

proof fn lemma_tests_true(m: Runner, tests: Seq<Seq<char>>, mem: Places)
    requires
        tests.len() > 0,
        forall|i: int| 0 <= i < tests.len() ==> is_test(#[trigger] tests[i]),
    ensures
        is_true(m, joined(tests, " || "@), mem) <==> exists|i: int|
            0 <= i < tests.len() && compared(m, #[trigger] tests[i], mem),
    decreases tests.len(),
{
    lemma_test_true(m, tests[0], mem);
    if tests.len() > 1 {
        let rest = tests.skip(1);
        let or = " || "@;
        assert forall|i: int| 0 <= i < rest.len() implies is_test(#[trigger] rest[i]) by {
            assert(is_test(tests[i + 1]));
        }
        lemma_joined_front(tests, or);
        lemma_or_found(tests[0], joined(rest, or));
        lemma_tests_true(m, rest, mem);
        reveal_strlit(" || ");
        if exists|i: int| 0 <= i < rest.len() && compared(m, #[trigger] rest[i], mem) {
            let i = choose|i: int| 0 <= i < rest.len() && compared(m, #[trigger] rest[i], mem);
            assert(compared(m, tests[i + 1], mem));
        }
        if exists|i: int| 0 <= i < tests.len() && compared(m, #[trigger] tests[i], mem) {
            let i = choose|i: int| 0 <= i < tests.len() && compared(m, #[trigger] tests[i], mem);
            if i > 0 {
                assert(compared(m, rest[i - 1], mem));
            }
        }
    } else {
        assert(joined(tests, " || "@) == tests[0]);
    }
}

/// The head of a memoized block with dependencies is an `if` whose condition is true exactly where at
/// least one of the dependencies differs from what its slot holds.
pub proof fn lemma_guard_sees_every_change(
    m: Runner,
    cache: Seq<char>,
    start: u64,
    deps: Seq<Seq<char>>,
    mem: Places,
)
    requires
        deps.len() > 0,
        start + deps.len() <= u64::MAX,
        is_simple(cache),
        all_simple(deps),
    ensures
        ({
            let head = memo_head(cache, start, deps);
            &&& head.len() >= 7
            &&& head.take(4) == "if ("@
            &&& head.skip(head.len() - 3) == ") {"@
            &&& is_true(m, head.subrange(4, head.len() - 3), mem) <==> some_differs(
                cache,
                start as int,
                deps,
                mem,
            )
        }),
{
    reveal_strlit("if (");
    reveal_strlit(") {");
    reveal_strlit(" !== ");
    let head = memo_head(cache, start, deps);
    let tests = changed_tests(cache, start, deps);
    let cond = joined(tests, " || "@);
    assert(head =~= "if ("@ + cond + ") {"@);
    assert(head.take(4) =~= "if ("@);
    assert(head.skip(head.len() - 3) =~= ") {"@);
    assert(head.subrange(4, head.len() - 3) =~= cond);
    assert forall|i: int| 0 <= i < tests.len() implies is_test(#[trigger] tests[i]) && compared(
        m,
        tests[i],
        mem,
    ) == differs(cache, start as int, deps, i, mem) by {
        let s = slot(cache, start + i);
        assert(is_simple(deps[i]));
        lemma_slot_simple(cache, start + i);
        assert(tests[i] == s + " !== "@ + deps[i]);
        lemma_found_behind(s, " !== "@, deps[i]);
        assert forall|j: int| 0 <= j < tests[i].len() implies #[trigger] tests[i][j] != '|'
            && tests[i][j] != '&' by {
            if j < s.len() {
                assert(tests[i][j] == s[j]);
            } else if j < s.len() + 5 {
                assert(tests[i][j] == " !== "@[j - s.len()]);
            } else {
                assert(tests[i][j] == deps[i][j - s.len() - 5]);
            }
        }
    }
    lemma_tests_true(m, tests, mem);
    if some_differs(cache, start as int, deps, mem) {
        let i = choose|i: int|
            0 <= i < deps.len() && #[trigger] differs(cache, start as int, deps, i, mem);
        assert(compared(m, tests[i], mem));
    }
    if exists|i: int| 0 <= i < tests.len() && compared(m, #[trigger] tests[i], mem) {
        let i = choose|i: int| 0 <= i < tests.len() && compared(m, #[trigger] tests[i], mem);
        assert(differs(cache, start as int, deps, i, mem));
    }
}

/// The head of a memoized block without dependencies is an `if` whose condition is true exactly where the
/// first slot still holds the sentinel.
pub proof fn lemma_constant_guard(m: Runner, cache: Seq<char>, start: u64, mem: Places)
    requires
        is_simple(cache),
    ensures
        ({
            let head = memo_head(cache, start, Seq::empty());
            &&& head.len() >= 7
            &&& head.take(4) == "if ("@
            &&& head.skip(head.len() - 3) == ") {"@
            &&& is_true(m, head.subrange(4, head.len() - 3), mem) <==> mem[slot(
                cache,
                start as int,
            )] == mem["Symbol.for(\"react.memo_cache_sentinel\")"@]
        }),
{
    reveal_strlit("if (");
    reveal_strlit(") {");
    reveal_strlit(" === ");
    reveal_strlit(" !== ");
    reveal_strlit(" === Symbol.for(\"react.memo_cache_sentinel\")) {");
    reveal_strlit("Symbol.for(\"react.memo_cache_sentinel\")");
    let head = memo_head(cache, start, Seq::empty());
    let s = slot(cache, start as int);
    let word = "Symbol.for(\"react.memo_cache_sentinel\")"@;
    let cond = s + " === "@ + word;
    lemma_slot_simple(cache, start as int);
    assert(head =~= "if ("@ + cond + ") {"@);
    assert(head.take(4) =~= "if ("@);
    assert(head.skip(head.len() - 3) =~= ") {"@);
    assert(head.subrange(4, head.len() - 3) =~= cond);
    lemma_found_behind(s, " === "@, word);
    assert forall|j: int| 0 <= j < cond.len() implies #[trigger] cond[j] != '|' && cond[j] != '&' by {
        if j < s.len() {
            assert(cond[j] == s[j]);
        } else if j < s.len() + 5 {
            assert(cond[j] == " === "@[j - s.len()]);
        } else {
            assert(cond[j] == word[j - s.len() - 5]);
        }
    }
    lemma_test_true(m, cond, mem);
    assert(find_from(cond, " !== "@, 0) is None) by {
        assert forall|j: int| 0 <= j <= cond.len() implies !#[trigger] occurs_at(cond, " !== "@, j) by {
            if occurs_at(cond, " !== "@, j) {
                let part = cond.subrange(j, j + 5);
                assert(part[0] == ' ' && part[1] == '!');
                assert(cond[j] == ' ' && cond[j + 1] == '!');
                if j < s.len() {
                    assert(cond[j] == s[j]);
                } else if j < s.len() + 5 {
                    assert(cond[j] == " === "@[j - s.len()]);
                    if j + 1 < s.len() + 5 {
                        assert(cond[j + 1] == " === "@[j + 1 - s.len()]);
                    } else {
                        assert(cond[j + 1] == word[0]);
                    }
                } else {
                    assert(cond[j] == word[j - s.len() - 5]);
                }
            }
        }
        lemma_find_none(cond, " !== "@, 0);
    }
}

// ---------------------------------------------------------------------------
// The memoized block
// ---------------------------------------------------------------------------

/// Whether a text is no slot of the cache.
pub open spec fn no_slot(cache: Seq<char>, s: Seq<char>) -> bool {
    forall|k: int| 0 <= k ==> s != #[trigger] slot(cache, k)
}

pub open spec fn no_slots(cache: Seq<char>, v: Seq<Seq<char>>) -> bool {
    forall|i: int| 0 <= i < v.len() ==> no_slot(cache, #[trigger] v[i])
}

/// Whether no text occurs twice.
pub open spec fn distinct(v: Seq<Seq<char>>) -> bool {
    forall|i: int, j: int| 0 <= i < j < v.len() ==> #[trigger] v[i] != #[trigger] v[j]
}

/// Whether behind `after` the results were computed from `mem`, where `done` is what the body of the block
/// did, and are kept together with what the dependencies were then.
pub open spec fn computed(
    cache: Seq<char>,
    start: int,
    deps: Seq<Seq<char>>,
    names: Seq<Seq<char>>,
    done: Places,
    after: Places,
) -> bool {
    &&& forall|x: Seq<char>| #[trigger] no_slot(cache, x) ==> after[x] == done[x]
    &&& forall|i: int|
        0 <= i < deps.len() ==> after[slot(cache, start + i)] == done[#[trigger] deps[i]]
    &&& forall|k: int|
        0 <= k < names.len() ==> after[slot(cache, start + deps.len() + k)] == done[
            #[trigger] names[k]
        ]
}

/// Whether behind `after` the results are those that the cache holds, and all else is as in `mem`.
pub open spec fn loaded(
    cache: Seq<char>,
    start: int,
    names: Seq<Seq<char>>,
    mem: Places,
    after: Places,
) -> bool {
    &&& forall|k: int|
        0 <= k < names.len() ==> after[#[trigger] names[k]] == mem[slot(cache, start + k)]
    &&& forall|x: Seq<char>| !names.contains(x) ==> #[trigger] after[x] == mem[x]
}

proof fn lemma_assigned(place: Seq<char>, value: Seq<char>)
    requires
        without(place, ' '),
    ensures
        assigned(place + " = "@ + value + ";"@) == Some((place, value)),
{
    reveal_strlit(" = ");
    reveal_strlit(";");
    let t = place + " = "@ + value + ";"@;
    lemma_found_behind(place, " = "@, value + ";"@);
    assert(t =~= place + " = "@ + (value + ";"@));
    assert(t.last() == ';');
    assert(t.subrange(place.len() as int + 3, t.len() - 1) =~= value);
}

proof fn lemma_stores_run(
    m: Runner,
    indent: nat,
    cache: Seq<char>,
    start: u64,
    values: Seq<Seq<char>>,
    n: int,
    mem: Places,
)
    requires
        0 <= n <= values.len(),
        start + values.len() <= u64::MAX,
        is_simple(cache),
        no_slots(cache, values),
    ensures
        ({
            let lines = all_at(indent, slot_stores(cache, start, values));
            let after = run(m, lines, n, mem);
            &&& lines.len() == values.len()
            &&& all_inside(lines, (indent - 1) as nat) || indent == 0
            &&& forall|i: int|
                0 <= i < n ==> after[slot(cache, start + i)] == mem[#[trigger] values[i]]
            &&& forall|x: Seq<char>| #[trigger] no_slot(cache, x) ==> after[x] == mem[x]
            &&& forall|k: int|
                0 <= k && !(start <= k < start + n) ==> after[#[trigger] slot(cache, k)] == mem[slot(
                    cache,
                    k,
                )]
        }),
    decreases n,
{
    let lines = all_at(indent, slot_stores(cache, start, values));
    if n > 0 {
        lemma_stores_run(m, indent, cache, start, values, n - 1, mem);
        let before = run(m, lines, n - 1, mem);
        let after = run(m, lines, n, mem);
        let at = start + n - 1;
        lemma_slot_simple(cache, at);
        lemma_assigned(slot(cache, at), values[n - 1]);
        assert(lines[n - 1].1 == slot(cache, at) + " = "@ + values[n - 1] + ";"@);
        assert(no_slot(cache, values[n - 1]));
        assert(after == before.insert(slot(cache, at), mem[values[n - 1]]));
        assert forall|i: int| 0 <= i < n implies after[slot(cache, start + i)] == mem[
            #[trigger] values[i]
        ] by {
            if i < n - 1 {
                lemma_slots_differ(cache, start + i, at);
            }
        }
        assert forall|x: Seq<char>| #[trigger] no_slot(cache, x) implies after[x] == mem[x] by {
            assert(x != slot(cache, at));
        }
        assert forall|k: int| 0 <= k && !(start <= k < start + n) implies after[
            #[trigger] slot(cache, k)
        ] == mem[slot(cache, k)] by {
            lemma_slots_differ(cache, k, at);
        }
    }
}

proof fn lemma_loads_run(
    m: Runner,
    indent: nat,
    cache: Seq<char>,
    start: u64,
    names: Seq<Seq<char>>,
    n: int,
    mem: Places,
)
    requires
        0 <= n <= names.len(),
        start + names.len() <= u64::MAX,
        all_simple(names),
        no_slots(cache, names),
        distinct(names),
    ensures
        ({
            let lines = all_at(indent, slot_loads(cache, start, names));
            &&& lines.len() == names.len()
            &&& loaded(cache, start as int, names.take(n), mem, run(m, lines, n, mem))
        }),
    decreases n,
{
    let lines = all_at(indent, slot_loads(cache, start, names));
    if n > 0 {
        lemma_loads_run(m, indent, cache, start, names, n - 1, mem);
        let before = run(m, lines, n - 1, mem);
        let after = run(m, lines, n, mem);
        let at = start + n - 1;
        let old = names.take(n - 1);
        let now = names.take(n);
        assert(is_simple(names[n - 1]));
        lemma_assigned(names[n - 1], slot(cache, at));
        assert(lines[n - 1].1 == names[n - 1] + " = "@ + slot(cache, at) + ";"@);
        assert(!old.contains(slot(cache, at))) by {
            if old.contains(slot(cache, at)) {
                let q = choose|q: int| 0 <= q < old.len() && old[q] == slot(cache, at);
                assert(no_slot(cache, names[q]));
            }
        }
        assert(before[slot(cache, at)] == mem[slot(cache, at)]);
        assert(after == before.insert(names[n - 1], mem[slot(cache, at)]));
        assert forall|k: int| 0 <= k < now.len() implies after[#[trigger] now[k]] == mem[slot(
            cache,
            start + k,
        )] by {
            if k < n - 1 {
                assert(now[k] == old[k]);
                assert(names[k] != names[n - 1]);
            }
        }
        assert forall|x: Seq<char>| !now.contains(x) implies #[trigger] after[x] == mem[x] by {
            assert(now[n - 1] == names[n - 1]);
            if old.contains(x) {
                let q = choose|q: int| 0 <= q < old.len() && old[q] == x;
                assert(now[q] == x);
            }
        }
    } else {
        assert(names.take(0) =~= Seq::empty());
    }
}

/// Whether lines are memoization as it should be: they compute and keep where `again` tells so, and
/// otherwise take the results from the cache.
pub open spec fn memoizes(
    m: Runner,
    lines: Seq<Line>,
    cache: Seq<char>,
    start: int,
    deps: Seq<Seq<char>>,
    names: Seq<Seq<char>>,
    body: Seq<Line>,
    again: bool,
    mem: Places,
) -> bool {
    is_if(lines) && if again {
        computed(
            cache,
            start,
            deps,
            names,
            run(m, body, body.len() as int, mem),
            run_if(m, lines, mem),
        )
    } else {
        loaded(cache, start + deps.len(), names, mem, run_if(m, lines, mem))
    }
}

/// When a memoized block has to compute: where a dependency differs from what its slot holds, and without
/// dependencies where the first slot still holds the sentinel.
pub open spec fn must_compute(cache: Seq<char>, start: int, deps: Seq<Seq<char>>, mem: Places) -> bool {
    if deps.len() == 0 {
        mem[slot(cache, start)] == mem["Symbol.for(\"react.memo_cache_sentinel\")"@]
    } else {
        some_differs(cache, start, deps, mem)
    }
}

proof fn lemma_memo_lines_run(
    m: Runner,
    indent: nat,
    cache: Seq<char>,
    start: u64,
    deps: Seq<Seq<char>>,
    names: Seq<Seq<char>>,
    body: Seq<Line>,
    lines: Seq<Line>,
    mem: Places,
)
    requires
        start + deps.len() + names.len() <= u64::MAX,
        is_simple(cache),
        all_simple(deps),
        all_simple(names),
        no_slots(cache, deps),
        no_slots(cache, names),
        distinct(names),
        all_inside(body, indent),
        ({
            let results = (start + deps.len()) as u64;
            lines == seq![(indent, memo_head(cache, start, deps))] + (body + all_at(
                indent + 1,
                slot_stores(cache, start, deps),
            ) + all_at(indent + 1, slot_stores(cache, results, names))) + seq![
                (indent, "} else {"@),
            ] + all_at(indent + 1, slot_loads(cache, results, names)) + seq![(indent, "}"@)]
        }),
    ensures
        memoizes(
            m,
            lines,
            cache,
            start as int,
            deps,
            names,
            body,
            must_compute(cache, start as int, deps, mem),
            mem,
        ),
{
    let results = (start + deps.len()) as u64;
    let puts = all_at(indent + 1, slot_stores(cache, start, deps));
    let keeps = all_at(indent + 1, slot_stores(cache, results, names));
    let loads = all_at(indent + 1, slot_loads(cache, results, names));
    let head = memo_head(cache, start, deps);
    if deps.len() == 0 {
        assert(deps =~= Seq::empty());
        lemma_constant_guard(m, cache, start, mem);
    } else {
        lemma_guard_sees_every_change(m, cache, start, deps, mem);
    }
    let cond = head.subrange(4, head.len() - 3);
    reveal_strlit("if (");
    reveal_strlit(") {");
    assert(head =~= head.take(4) + cond + head.skip(head.len() - 3));
    let yes = body + puts + keeps;
    let b = run(m, body, body.len() as int, mem);
    let d = deps.len() as int;
    let o = names.len() as int;
    lemma_stores_run(m, indent + 1, cache, start, deps, d, b);
    let p = run(m, puts, d, b);
    lemma_stores_run(m, indent + 1, cache, results, names, o, p);
    lemma_loads_run(m, indent + 1, cache, results, names, o, mem);
    assert(names.take(o) =~= names);
    lemma_run_add(m, body, puts, d, mem);
    lemma_run_add(m, body + puts, keeps, o, mem);
    lemma_if_runs(m, indent, cond, yes, loads, lines, mem);
    let after = run(m, keeps, o, p);
    assert(run(m, yes, yes.len() as int, mem) == after);
    assert forall|i: int| 0 <= i < deps.len() implies after[slot(cache, start + i)] == b[
        #[trigger] deps[i]
    ] by {
        assert(after[slot(cache, start + i)] == p[slot(cache, start + i)]);
    }
    assert forall|k: int| 0 <= k < names.len() implies after[slot(cache, start + deps.len() + k)] == b[
        #[trigger] names[k]
    ] by {
        assert(after[slot(cache, results + k)] == p[names[k]]);
        assert(no_slot(cache, names[k]));
    }
}

/// The memoized block of a scope computes the results exactly where a dependency differs from what its
/// slot holds (without dependencies: where nothing is kept yet). Then the slots hold the results and what
/// the dependencies were. Otherwise the results are taken from the slots.
pub proof fn lemma_scope_lines_memoize(
    m: Runner,
    cache: Seq<char>,
    start: u64,
    deps: Seq<Seq<char>>,
    names: Seq<Seq<char>>,
    stmts: Seq<Seq<char>>,
    mem: Places,
)
    requires
        start + deps.len() + names.len() <= u64::MAX,
        is_simple(cache),
        all_simple(deps),
        all_simple(names),
        no_slots(cache, deps),
        no_slots(cache, names),
        distinct(names),
    ensures
        memoizes(
            m,
            scope_lines(cache, start, deps, names, stmts),
            cache,
            start as int,
            deps,
            names,
            all_at(2, without_lets(stmts, names, stmts.len() as int)),
            must_compute(cache, start as int, deps, mem),
            mem,
        ),
{
    let results = (start + deps.len()) as u64;
    let body = all_at(2, without_lets(stmts, names, stmts.len() as int));
    let lines = scope_lines(cache, start, deps, names, stmts);
    assert(slot_sum(start, deps.len() as u64) == results);
    assert(lines =~= seq![(1nat, memo_head(cache, start, deps))] + (body + all_at(
        2,
        slot_stores(cache, start, deps),
    ) + all_at(2, slot_stores(cache, results, names))) + seq![(1nat, "} else {"@)] + all_at(
        2,
        slot_loads(cache, results, names),
    ) + seq![(1nat, "}"@)]);
    lemma_memo_lines_run(m, 1, cache, start, deps, names, body, lines, mem);
}

/// So does the memoized block of a function, behind the declaration of its result.
pub proof fn lemma_memo_lines_memoize(m: Runner, indent: nat, memo: Memo, mem: Places)
    requires
        memo.deps.len() + 1 + memo.extra.len() <= u64::MAX,
        is_simple(memo.cache),
        all_simple(memo.deps),
        all_simple(seq![memo.var] + memo.extra),
        no_slots(memo.cache, memo.deps),
        no_slots(memo.cache, seq![memo.var] + memo.extra),
        distinct(seq![memo.var] + memo.extra),
    ensures
        ({
            let names = seq![memo.var] + memo.extra;
            let lines = memo_lines(indent, memo);
            let body = all_at(
                indent + 1,
                without_lets(memo.stmts, names, memo.stmts.len() as int),
            ) + match memo.value {
                Some(v) => seq![(indent + 1, memo.var + " = "@ + v + ";"@)],
                None => Seq::empty(),
            };
            &&& lines.len() > 0
            &&& lines[0] == (indent, "let "@ + memo.var + ";"@)
            &&& memoizes(
                m,
                lines.skip(1),
                memo.cache,
                0,
                memo.deps,
                names,
                body,
                must_compute(memo.cache, 0, memo.deps, mem),
                mem,
            )
        }),
{
    let names = seq![memo.var] + memo.extra;
    let lines = memo_lines(indent, memo);
    let first = all_at(indent + 1, without_lets(memo.stmts, names, memo.stmts.len() as int));
    let value: Seq<Line> = match memo.value {
        Some(v) => seq![(indent + 1, memo.var + " = "@ + v + ";"@)],
        None => Seq::empty(),
    };
    let body = first + value;
    let n = memo.deps.len() as u64;
    assert(names == memo_results(memo));
    assert(value =~= value_lines(indent + 1, memo));
    assert(lines.skip(1) =~= seq![(indent, memo_head(memo.cache, 0, memo.deps))] + (body + all_at(
        indent + 1,
        slot_stores(memo.cache, 0, memo.deps),
    ) + all_at(indent + 1, slot_stores(memo.cache, n, names))) + seq![(indent, "} else {"@)] + all_at(
        indent + 1,
        slot_loads(memo.cache, n, names),
    ) + seq![(indent, "}"@)]);
    assert forall|i: int| 0 <= i < body.len() implies (#[trigger] body[i]).0 == indent + 1 by {
        if i < first.len() {
            assert(body[i] == first[i]);
        } else {
            assert(body[i] == value[i - first.len()]);
        }
    }
    lemma_memo_lines_run(
        m,
        indent,
        memo.cache,
        0,
        memo.deps,
        names,
        body,
        lines.skip(1),
        mem,
    );
}

} // verus!
