//! Lines of generated text, and the numbers of cache slots in them.

use vstd::prelude::*;

use crate::text::{
    all_replaced, cat2, cat3, cat4, cat5, decimal, decimal_text, repeat, repeated, replace_all,
    texts,
};

verus! {

broadcast use crate::text::group_texts;

/// A line and how deep it is indented.
pub type Line = (nat, Seq<char>);

pub open spec fn line_views(v: Seq<(usize, String)>) -> Seq<Line> {
    v.map_values(|l: (usize, String)| (l.0 as nat, l.1@))
}

/// `indent` times two blanks.
pub open spec fn padding(indent: nat) -> Seq<char> {
    repeated("  "@, indent)
}

/// A line as it is written: each line in it indented, with a line break at the end.
pub open spec fn line_text(line: Line) -> Seq<char> {
    padding(line.0) + all_replaced(line.1, "\n"@, "\n"@ + padding(line.0)) + "\n"@
}

/// The first `n` lines as they are written.
pub open spec fn lines_text(lines: Seq<Line>, n: int) -> Seq<char>
    decreases n,
{
    if n <= 0 {
        Seq::empty()
    } else {
        lines_text(lines, n - 1) + line_text(lines[n - 1])
    }
}

/// Each statement on a line.
pub open spec fn all_at(indent: nat, stmts: Seq<Seq<char>>) -> Seq<Line> {
    stmts.map_values(|s: Seq<char>| (indent, s))
}

/// Writes a line, indented.
pub fn emit_line(output: &mut String, indent: usize, line: &str)
    ensures
        final(output)@ == old(output)@ + line_text((indent as nat, line@)),
{
    let pad = repeat("  ", indent);
    let brk = cat2("\n", &pad);
    proof {
        reveal_strlit("\n");
    }
    let body = replace_all(line, "\n", &brk);
    let whole = cat3(&pad, &body, "\n");
    output.append(&whole);
}

/// Writes all lines.
pub fn write_lines(lines: &Vec<(usize, String)>) -> (r: String)
    ensures
        r@ == lines_text(line_views(lines@), lines@.len() as int),
{
    let mut out = String::new();
    let mut i: usize = 0;
    proof {
        assert(out@ =~= lines_text(line_views(lines@), 0));
    }
    while i < lines.len()
        invariant
            i <= lines@.len(),
            out@ == lines_text(line_views(lines@), i as int),
        decreases lines@.len() - i,
    {
        assert(line_views(lines@)[i as int] == (lines@[i as int].0 as nat, lines@[i as int].1@));
        emit_line(&mut out, lines[i].0, &lines[i].1);
        i = i + 1;
    }
    out
}

/// Adds a line.
pub fn add_line(lines: &mut Vec<(usize, String)>, indent: usize, text: String)
    ensures
        line_views(final(lines)@) == line_views(old(lines)@).push((indent as nat, text@)),
{
    let ghost before = lines@;
    let ghost t = text@;
    lines.push((indent, text));
    proof {
        assert(line_views(lines@) =~= line_views(before).push((indent as nat, t)));
    }
}

/// Adds a line for each statement.
pub fn add_stmts(lines: &mut Vec<(usize, String)>, indent: usize, stmts: &Vec<String>)
    ensures
        line_views(final(lines)@) == line_views(old(lines)@) + all_at(indent as nat, texts(stmts@)),
{
    let ghost start = line_views(lines@);
    let ghost all = texts(stmts@);
    let mut i: usize = 0;
    proof {
        assert(start =~= start + all_at(indent as nat, all.take(0)));
    }
    while i < stmts.len()
        invariant
            i <= stmts@.len(),
            all == texts(stmts@),
            line_views(lines@) == start + all_at(indent as nat, all.take(i as int)),
        decreases stmts@.len() - i,
    {
        let ghost before = line_views(lines@);
        add_line(lines, indent, stmts[i].clone());
        proof {
            assert(all[i as int] == stmts@[i as int]@);
            assert(all.take(i as int + 1) =~= all.take(i as int).push(all[i as int]));
            assert(before.push((indent as nat, all[i as int])) =~= start + all_at(
                indent as nat,
                all.take(i as int + 1),
            ));
        }
        i = i + 1;
    }
    proof {
        assert(all.take(i as int) =~= all);
    }
}

/// Adds lines behind lines.
pub fn add_lines(lines: &mut Vec<(usize, String)>, more: Vec<(usize, String)>)
    ensures
        line_views(final(lines)@) == line_views(old(lines)@) + line_views(more@),
{
    let ghost a = lines@;
    let ghost b = more@;
    let mut rest = more;
    lines.append(&mut rest);
    proof {
        assert(line_views(lines@) =~= line_views(a) + line_views(b));
    }
}

// ---------------------------------------------------------------------------
// Slots
// ---------------------------------------------------------------------------

/// A sum of numbers of slots, as far as they can be counted.
pub open spec fn slot_sum(a: u64, b: u64) -> u64 {
    if a + b > u64::MAX {
        u64::MAX
    } else {
        (a + b) as u64
    }
}

pub fn add_slots(a: u64, b: u64) -> (r: u64)
    ensures
        r == slot_sum(a, b),
{
    if a > u64::MAX - b {
        u64::MAX
    } else {
        a + b
    }
}

/// A number of slots as a cache has it.
pub open spec fn cache_count(n: u64) -> u32 {
    if n > u32::MAX {
        u32::MAX
    } else {
        n as u32
    }
}

pub fn to_cache_count(n: u64) -> (r: u32)
    ensures
        r == cache_count(n),
{
    if n > u32::MAX as u64 {
        u32::MAX
    } else {
        n as u32
    }
}

/// A slot of the cache.
pub open spec fn slot_text(cache: Seq<char>, k: u64) -> Seq<char> {
    cache + "["@ + decimal(k as nat) + "]"@
}

pub fn slot_str(cache: &str, k: u64) -> (r: String)
    ensures
        r@ == slot_text(cache@, k),
{
    let d = decimal_text(k);
    cat4(cache, "[", &d, "]")
}

/// The statement that makes the cache.
pub open spec fn cache_stmt(cache: Seq<char>, n: u64) -> Seq<char> {
    "const "@ + cache + " = _c("@ + decimal(n as nat) + ");"@
}

pub fn cache_stmt_str(cache: &str, n: u64) -> (r: String)
    ensures
        r@ == cache_stmt(cache@, n),
{
    let d = decimal_text(n);
    cat5("const ", cache, " = _c(", &d, ");")
}

pub open spec fn let_stmt(name: Seq<char>) -> Seq<char> {
    "let "@ + name + ";"@
}

pub fn let_stmt_str(name: &str) -> (r: String)
    ensures
        r@ == let_stmt(name@),
{
    cat3("let ", name, ";")
}

pub open spec fn assign_stmt(target: Seq<char>, value: Seq<char>) -> Seq<char> {
    target + " = "@ + value + ";"@
}

pub fn assign_stmt_str(target: &str, value: &str) -> (r: String)
    ensures
        r@ == assign_stmt(target@, value@),
{
    cat4(target, " = ", value, ";")
}

pub open spec fn return_line(value: Seq<char>) -> Seq<char> {
    "return "@ + value + ";"@
}

/// The test of whether a dependency has changed.
pub open spec fn changed_test(cache: Seq<char>, k: u64, dep: Seq<char>) -> Seq<char> {
    slot_text(cache, k) + " !== "@ + dep
}

/// The tests of the dependencies, which have the slots from `start` on.
pub open spec fn changed_tests(cache: Seq<char>, start: u64, deps: Seq<Seq<char>>) -> Seq<Seq<char>> {
    Seq::new(deps.len(), |i: int| changed_test(cache, slot_sum(start, i as u64), deps[i]))
}

/// The head of the memoized block: whether a dependency has changed; without any, whether nothing is
/// cached yet.
pub open spec fn memo_head(cache: Seq<char>, start: u64, deps: Seq<Seq<char>>) -> Seq<char> {
    if deps.len() == 0 {
        "if ("@ + slot_text(cache, start) + " === Symbol.for(\"react.memo_cache_sentinel\")) {"@
    } else {
        "if ("@ + crate::text::joined(changed_tests(cache, start, deps), " || "@) + ") {"@
    }
}

pub fn memo_head_str(cache: &str, start: u64, deps: &Vec<String>) -> (r: String)
    ensures
        r@ == memo_head(cache@, start, texts(deps@)),
{
    if deps.len() == 0 {
        let slot = slot_str(cache, start);
        return cat3("if (", &slot, " === Symbol.for(\"react.memo_cache_sentinel\")) {");
    }
    let mut tests: Vec<String> = Vec::new();
    let mut i: usize = 0;
    while i < deps.len()
        invariant
            i <= deps@.len(),
            tests@.len() == i,
            forall|k: int|
                0 <= k < i ==> (#[trigger] tests@[k])@ == changed_test(
                    cache@,
                    slot_sum(start, k as u64),
                    deps@[k]@,
                ),
        decreases deps@.len() - i,
    {
        let slot = slot_str(cache, add_slots(start, i as u64));
        tests.push(cat3(&slot, " !== ", &deps[i]));
        i = i + 1;
    }
    proof {
        assert(texts(tests@) =~= changed_tests(cache@, start, texts(deps@)));
    }
    let all = crate::text::join(&tests, " || ");
    cat3("if (", &all, ") {")
}

/// The stores of values in the slots from `start` on.
pub open spec fn slot_stores(cache: Seq<char>, start: u64, values: Seq<Seq<char>>) -> Seq<Seq<char>> {
    Seq::new(
        values.len(),
        |i: int| assign_stmt(slot_text(cache, slot_sum(start, i as u64)), values[i]),
    )
}

/// The loads of variables from the slots from `start` on.
pub open spec fn slot_loads(cache: Seq<char>, start: u64, names: Seq<Seq<char>>) -> Seq<Seq<char>> {
    Seq::new(
        names.len(),
        |i: int| assign_stmt(names[i], slot_text(cache, slot_sum(start, i as u64))),
    )
}

pub fn slot_store_strs(cache: &str, start: u64, values: &Vec<String>) -> (r: Vec<String>)
    ensures
        texts(r@) == slot_stores(cache@, start, texts(values@)),
{
    let mut out: Vec<String> = Vec::new();
    let mut i: usize = 0;
    while i < values.len()
        invariant
            i <= values@.len(),
            out@.len() == i,
            forall|k: int|
                0 <= k < i ==> (#[trigger] out@[k])@ == assign_stmt(
                    slot_text(cache@, slot_sum(start, k as u64)),
                    values@[k]@,
                ),
        decreases values@.len() - i,
    {
        let slot = slot_str(cache, add_slots(start, i as u64));
        out.push(assign_stmt_str(&slot, &values[i]));
        i = i + 1;
    }
    proof {
        assert(texts(out@) =~= slot_stores(cache@, start, texts(values@)));
    }
    out
}

pub fn slot_load_strs(cache: &str, start: u64, names: &Vec<String>) -> (r: Vec<String>)
    ensures
        texts(r@) == slot_loads(cache@, start, texts(names@)),
{
    let mut out: Vec<String> = Vec::new();
    let mut i: usize = 0;
    while i < names.len()
        invariant
            i <= names@.len(),
            out@.len() == i,
            forall|k: int|
                0 <= k < i ==> (#[trigger] out@[k])@ == assign_stmt(
                    names@[k]@,
                    slot_text(cache@, slot_sum(start, k as u64)),
                ),
        decreases names@.len() - i,
    {
        let slot = slot_str(cache, add_slots(start, i as u64));
        out.push(assign_stmt_str(&names[i], &slot));
        i = i + 1;
    }
    proof {
        assert(texts(out@) =~= slot_loads(cache@, start, texts(names@)));
    }
    out
}

} // verus!
