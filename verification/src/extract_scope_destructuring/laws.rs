//! What holds of every extraction: its temporaries differ, and a second one changes nothing.

use vstd::prelude::*;

use crate::extract_scope_destructuring::{
    advanced, after_block, after_cases, after_option, after_stmt, after_terminal, after_upto,
    block_extracted, cases_extracted, count_upto, extracted_upto, is_assignment, is_declared,
    is_mixed, is_rewritten, operand_extracted, operands_extracted, option_extracted,
    pattern_operands, reassigned_ids, replaced_all, replaced_places, scope_seen, stmt_count,
    stmt_extracted, terminal_extracted, to_rewrite, with_declarations, Seen,
};
use crate::hir::{
    IdentifierId, InstructionValue, Place, ReactiveStatement, ReactiveSwitchCase, ReactiveTerminal,
    ScopeDeclaration,
};

verus! {

// ---------------------------------------------------------------------------
// Numbers
// ---------------------------------------------------------------------------

proof fn lemma_advanced(n: u32, k: nat)
    ensures
        advanced(n, k) == (n + k) % 0x1_0000_0000,
    decreases k,
{
    if k > 0 {
        lemma_advanced(n, (k - 1) as nat);
    }
}

/// The numbers of two temporaries differ, unless all numbers were used up between them.
pub proof fn lemma_numbers_differ(n: u32, j: nat, k: nat)
    requires
        j < k < j + 0x1_0000_0000,
    ensures
        advanced(n, j) != advanced(n, k),
{
    lemma_advanced(n, j);
    lemma_advanced(n, k);
}

/// A run of numbers can be cut in two.
pub proof fn lemma_numbers_run_on(n: u32, j: nat, k: nat)
    ensures
        advanced(advanced(n, j), k) == advanced(n, j + k),
    decreases k,
{
    if k > 0 {
        lemma_numbers_run_on(n, j, (k - 1) as nat);
    }
}

// ---------------------------------------------------------------------------
// How many temporaries there are
// ---------------------------------------------------------------------------

/// How many temporaries a statement takes.
pub open spec fn taken_stmt(s: ReactiveStatement, seen: Seen) -> nat
    decreases s, 0nat, 0nat,
{
    match s {
        ReactiveStatement::Instruction(instr) => match to_rewrite(*instr, seen.declared) {
            Some(ops) => replaced_all(ops, seen.declared).len(),
            None => 0,
        },
        ReactiveStatement::Terminal(t) => taken_terminal(t.terminal, seen),
        ReactiveStatement::Scope(b) => taken_block(b.instructions@, scope_seen(seen, b)),
        ReactiveStatement::PrunedScope(b) => taken_block(b.instructions@, seen),
    }
}

/// How many temporaries the first `n` statements take.
pub open spec fn taken_upto(block: Seq<ReactiveStatement>, seen: Seen, n: int) -> nat
    decreases block, 0nat, n,
{
    if n <= 0 || n > block.len() {
        0
    } else {
        taken_upto(block, seen, n - 1) + taken_stmt(block[n - 1], after_upto(block, seen, n - 1))
    }
}

pub open spec fn taken_block(block: Seq<ReactiveStatement>, seen: Seen) -> nat
    decreases block, 1nat, 0nat,
{
    taken_upto(block, seen, block.len() as int)
}

pub open spec fn taken_option(block: Option<Vec<ReactiveStatement>>, seen: Seen) -> nat
    decreases block, 0nat, 0nat,
{
    match block {
        Some(b) => taken_block(b@, seen),
        None => 0,
    }
}

pub open spec fn taken_cases(cases: Seq<ReactiveSwitchCase>, seen: Seen, n: int) -> nat
    decreases cases, 0nat, n,
{
    if n <= 0 || n > cases.len() {
        0
    } else {
        taken_cases(cases, seen, n - 1) + taken_option(
            cases[n - 1].block,
            after_cases(cases, seen, n - 1),
        )
    }
}

pub open spec fn taken_terminal(t: ReactiveTerminal, seen: Seen) -> nat
    decreases t, 0nat, 0nat,
{
    match t {
        ReactiveTerminal::If { consequent, alternate, .. } => taken_block(consequent@, seen)
            + taken_option(alternate, after_block(consequent@, seen)),
        ReactiveTerminal::Switch { cases, .. } => taken_cases(cases@, seen, cases@.len() as int),
        ReactiveTerminal::DoWhile { loop_block, .. } => taken_block(loop_block@, seen),
        ReactiveTerminal::While { loop_block, .. } => taken_block(loop_block@, seen),
        ReactiveTerminal::For { init, update, loop_block, .. } => {
            let first = after_block(init@, seen);
            taken_block(init@, seen) + taken_option(update, first) + taken_block(
                loop_block@,
                after_option(update, first),
            )
        },
        ReactiveTerminal::ForOf { init, loop_block } => taken_block(init@, seen) + taken_block(
            loop_block@,
            after_block(init@, seen),
        ),
        ReactiveTerminal::ForIn { init, loop_block } => taken_block(init@, seen) + taken_block(
            loop_block@,
            after_block(init@, seen),
        ),
        ReactiveTerminal::Label { block } => taken_block(block@, seen),
        ReactiveTerminal::Try { block, handler, .. } => taken_block(block@, seen) + taken_block(
            handler@,
            after_block(block@, seen),
        ),
        _ => 0,
    }
}

/// Whether `late` is what is known once `k` more numbers are taken: nothing that was declared before
/// is forgotten.
pub open spec fn advances(seen: Seen, late: Seen, k: nat) -> bool {
    late.next == advanced(seen.next, k) && seen.declared.subset_of(late.declared)
}

proof fn lemma_advances_twice(a: Seen, b: Seen, c: Seen, j: nat, k: nat)
    requires
        advances(a, b, j),
        advances(b, c, k),
    ensures
        advances(a, c, j + k),
{
    lemma_numbers_run_on(a.next, j, k);
}

proof fn lemma_declarations_kept(
    declared: Set<u32>,
    entries: Seq<(IdentifierId, ScopeDeclaration)>,
    n: int,
)
    ensures
        declared.subset_of(with_declarations(declared, entries, n)),
    decreases n,
{
    if n > 0 {
        lemma_declarations_kept(declared, entries, n - 1);
    }
}

proof fn lemma_stmt_advances(s: ReactiveStatement, seen: Seen)
    ensures
        advances(seen, after_stmt(s, seen), taken_stmt(s, seen)),
    decreases s, 0nat, 0nat,
{
    match s {
        ReactiveStatement::Instruction(_) => {},
        ReactiveStatement::Terminal(t) => {
            lemma_terminal_advances(t.terminal, seen);
        },
        ReactiveStatement::Scope(b) => {
            let entries = b.scope.declarations.entries@;
            lemma_declarations_kept(seen.declared, entries, entries.len() as int);
            lemma_block_advances(b.instructions@, scope_seen(seen, b));
        },
        ReactiveStatement::PrunedScope(b) => {
            lemma_block_advances(b.instructions@, seen);
        },
    }
}

proof fn lemma_upto_advances(block: Seq<ReactiveStatement>, seen: Seen, n: int)
    ensures
        advances(seen, after_upto(block, seen, n), taken_upto(block, seen, n)),
    decreases block, 0nat, n,
{
    if 0 < n <= block.len() {
        let mid = after_upto(block, seen, n - 1);
        lemma_upto_advances(block, seen, n - 1);
        lemma_stmt_advances(block[n - 1], mid);
        lemma_advances_twice(
            seen,
            mid,
            after_upto(block, seen, n),
            taken_upto(block, seen, n - 1),
            taken_stmt(block[n - 1], mid),
        );
    }
}

/// A block takes its numbers from the next one on, one after the other.
pub proof fn lemma_block_advances(block: Seq<ReactiveStatement>, seen: Seen)
    ensures
        advances(seen, after_block(block, seen), taken_block(block, seen)),
    decreases block, 1nat, 0nat,
{
    lemma_upto_advances(block, seen, block.len() as int);
}

proof fn lemma_option_advances(block: Option<Vec<ReactiveStatement>>, seen: Seen)
    ensures
        advances(seen, after_option(block, seen), taken_option(block, seen)),
    decreases block, 0nat, 0nat,
{
    if let Some(b) = block {
        lemma_block_advances(b@, seen);
    }
}

proof fn lemma_cases_advance(cases: Seq<ReactiveSwitchCase>, seen: Seen, n: int)
    ensures
        advances(seen, after_cases(cases, seen, n), taken_cases(cases, seen, n)),
    decreases cases, 0nat, n,
{
    if 0 < n <= cases.len() {
        let mid = after_cases(cases, seen, n - 1);
        lemma_cases_advance(cases, seen, n - 1);
        lemma_option_advances(cases[n - 1].block, mid);
        lemma_advances_twice(
            seen,
            mid,
            after_cases(cases, seen, n),
            taken_cases(cases, seen, n - 1),
            taken_option(cases[n - 1].block, mid),
        );
    }
}

/// Two blocks, one after the other.
proof fn lemma_two_advance(a: Seq<ReactiveStatement>, b: Seq<ReactiveStatement>, seen: Seen)
    requires
        advances(seen, after_block(a, seen), taken_block(a, seen)),
        advances(
            after_block(a, seen),
            after_block(b, after_block(a, seen)),
            taken_block(b, after_block(a, seen)),
        ),
    ensures
        advances(
            seen,
            after_block(b, after_block(a, seen)),
            taken_block(a, seen) + taken_block(b, after_block(a, seen)),
        ),
{
    let mid = after_block(a, seen);
    lemma_advances_twice(
        seen,
        mid,
        after_block(b, mid),
        taken_block(a, seen),
        taken_block(b, mid),
    );
}

proof fn lemma_terminal_advances(t: ReactiveTerminal, seen: Seen)
    ensures
        advances(seen, after_terminal(t, seen), taken_terminal(t, seen)),
    decreases t, 0nat, 0nat,
{
    match t {
        ReactiveTerminal::If { consequent, alternate, .. } => {
            let mid = after_block(consequent@, seen);
            lemma_block_advances(consequent@, seen);
            lemma_option_advances(alternate, mid);
            lemma_advances_twice(
                seen,
                mid,
                after_option(alternate, mid),
                taken_block(consequent@, seen),
                taken_option(alternate, mid),
            );
        },
        ReactiveTerminal::Switch { cases, .. } => {
            lemma_cases_advance(cases@, seen, cases@.len() as int);
        },
        ReactiveTerminal::DoWhile { loop_block, .. } => {
            lemma_block_advances(loop_block@, seen);
        },
        ReactiveTerminal::While { loop_block, .. } => {
            lemma_block_advances(loop_block@, seen);
        },
        ReactiveTerminal::For { init, update, loop_block, .. } => {
            let first = after_block(init@, seen);
            let second = after_option(update, first);
            lemma_block_advances(init@, seen);
            lemma_option_advances(update, first);
            lemma_block_advances(loop_block@, second);
            lemma_advances_twice(
                seen,
                first,
                second,
                taken_block(init@, seen),
                taken_option(update, first),
            );
            lemma_advances_twice(
                seen,
                second,
                after_block(loop_block@, second),
                taken_block(init@, seen) + taken_option(update, first),
                taken_block(loop_block@, second),
            );
        },
        ReactiveTerminal::ForOf { init, loop_block } => {
            lemma_block_advances(init@, seen);
            lemma_block_advances(loop_block@, after_block(init@, seen));
            lemma_two_advance(init@, loop_block@, seen);
        },
        ReactiveTerminal::ForIn { init, loop_block } => {
            lemma_block_advances(init@, seen);
            lemma_block_advances(loop_block@, after_block(init@, seen));
            lemma_two_advance(init@, loop_block@, seen);
        },
        ReactiveTerminal::Label { block } => {
            lemma_block_advances(block@, seen);
        },
        ReactiveTerminal::Try { block, handler, .. } => {
            lemma_block_advances(block@, seen);
            lemma_block_advances(handler@, after_block(block@, seen));
            lemma_two_advance(block@, handler@, seen);
        },
        _ => {},
    }
}

/// The temporaries of two extractions, one after the other, differ: number `j` of the first one from
/// number `k` of the second one, unless all numbers were used up between them.
pub proof fn lemma_extractions_differ(
    block: Seq<ReactiveStatement>,
    seen: Seen,
    j: nat,
    k: nat,
)
    requires
        j < taken_block(block, seen),
        taken_block(block, seen) + k < j + 0x1_0000_0000,
    ensures
        advanced(seen.next, j) != advanced(after_block(block, seen).next, k),
{
    let n = taken_block(block, seen);
    lemma_block_advances(block, seen);
    lemma_numbers_run_on(seen.next, n, k);
    lemma_numbers_differ(seen.next, j, n + k);
}

// ---------------------------------------------------------------------------
// After an extraction nothing is mixed
// ---------------------------------------------------------------------------

/// Whether the first `k` numbers from `next` on are new: no variable of `declared` has one of them.
pub open spec fn new_numbers(declared: Set<u32>, next: u32, k: nat) -> bool {
    forall|i: nat| i < k ==> !declared.contains(#[trigger] advanced(next, i))
}

proof fn lemma_new_part(declared: Set<u32>, part: Set<u32>, next: u32, j: nat, k: nat, n: nat)
    requires
        new_numbers(declared, next, n),
        part.subset_of(declared),
        j + k <= n,
    ensures
        new_numbers(part, advanced(next, j), k),
{
    assert forall|i: nat| i < k implies !part.contains(
        #[trigger] advanced(advanced(next, j), i),
    ) by {
        lemma_numbers_run_on(next, j, i);
        assert(!declared.contains(advanced(next, j + i)));
    }
}

proof fn lemma_replaced_grows(ops: Seq<Place>, ids: Set<u32>, i: int, n: int)
    requires
        0 <= i < n <= ops.len(),
        ids.contains(ops[i].identifier.id.0),
    ensures
        replaced_places(ops, ids, i).len() < replaced_places(ops, ids, n).len(),
    decreases n,
{
    if i < n - 1 {
        lemma_replaced_grows(ops, ids, i, n - 1);
    }
}

/// A rewritten pattern mixes nothing: where the temporaries are new, it binds no variable that is
/// declared already.
pub proof fn lemma_nothing_mixed(
    before: Seq<Place>,
    after: Seq<Place>,
    declared: Set<u32>,
    next: u32,
)
    requires
        operands_extracted(before, after, reassigned_ids(before, declared), next),
        new_numbers(declared, next, replaced_all(before, declared).len()),
    ensures
        forall|i: int| 0 <= i < after.len() ==> !is_declared(declared, #[trigger] after[i]),
        !is_mixed(after, declared),
{
    let ids = reassigned_ids(before, declared);
    assert forall|i: int| 0 <= i < after.len() implies !is_declared(declared, #[trigger] after[i]) by {
        assert(operand_extracted(before, ids, next, i, after[i]));
        if is_declared(declared, before[i]) {
            assert(ids.contains(before[i].identifier.id.0));
        }
        if ids.contains(before[i].identifier.id.0) {
            lemma_replaced_grows(before, ids, i, before.len() as int);
            assert(!declared.contains(advanced(next, replaced_places(before, ids, i).len())));
        }
    }
}

/// Whether no destructuring in a statement mixes declared and new variables, at any depth.
pub open spec fn settled_stmt(s: ReactiveStatement, seen: Seen) -> bool
    decreases s, 0nat, 0nat,
{
    match s {
        ReactiveStatement::Instruction(instr) => to_rewrite(*instr, seen.declared) is None,
        ReactiveStatement::Terminal(t) => settled_terminal(t.terminal, seen),
        ReactiveStatement::Scope(b) => settled_block(b.instructions@, scope_seen(seen, b)),
        ReactiveStatement::PrunedScope(b) => settled_block(b.instructions@, seen),
    }
}

pub open spec fn settled_upto(block: Seq<ReactiveStatement>, seen: Seen, n: int) -> bool
    decreases block, 0nat, n,
{
    if n <= 0 || n > block.len() {
        true
    } else {
        settled_upto(block, seen, n - 1) && settled_stmt(
            block[n - 1],
            after_upto(block, seen, n - 1),
        )
    }
}

/// Whether no destructuring in a block mixes declared and new variables, at any depth.
pub open spec fn settled_block(block: Seq<ReactiveStatement>, seen: Seen) -> bool
    decreases block, 1nat, 0nat,
{
    settled_upto(block, seen, block.len() as int)
}

pub open spec fn settled_option(block: Option<Vec<ReactiveStatement>>, seen: Seen) -> bool
    decreases block, 0nat, 0nat,
{
    match block {
        Some(b) => settled_block(b@, seen),
        None => true,
    }
}

pub open spec fn settled_cases(cases: Seq<ReactiveSwitchCase>, seen: Seen, n: int) -> bool
    decreases cases, 0nat, n,
{
    if n <= 0 || n > cases.len() {
        true
    } else {
        settled_cases(cases, seen, n - 1) && settled_option(
            cases[n - 1].block,
            after_cases(cases, seen, n - 1),
        )
    }
}

pub open spec fn settled_terminal(t: ReactiveTerminal, seen: Seen) -> bool
    decreases t, 0nat, 0nat,
{
    match t {
        ReactiveTerminal::If { consequent, alternate, .. } => settled_block(consequent@, seen)
            && settled_option(alternate, after_block(consequent@, seen)),
        ReactiveTerminal::Switch { cases, .. } => settled_cases(cases@, seen, cases@.len() as int),
        ReactiveTerminal::DoWhile { loop_block, .. } => settled_block(loop_block@, seen),
        ReactiveTerminal::While { loop_block, .. } => settled_block(loop_block@, seen),
        ReactiveTerminal::For { init, update, loop_block, .. } => {
            let first = after_block(init@, seen);
            settled_block(init@, seen) && settled_option(update, first) && settled_block(
                loop_block@,
                after_option(update, first),
            )
        },
        ReactiveTerminal::ForOf { init, loop_block } => settled_block(init@, seen) && settled_block(
            loop_block@,
            after_block(init@, seen),
        ),
        ReactiveTerminal::ForIn { init, loop_block } => settled_block(init@, seen) && settled_block(
            loop_block@,
            after_block(init@, seen),
        ),
        ReactiveTerminal::Label { block } => settled_block(block@, seen),
        ReactiveTerminal::Try { block, handler, .. } => settled_block(block@, seen)
            && settled_block(handler@, after_block(block@, seen)),
        _ => true,
    }
}

/// What a second extraction knows where the first one knew `seen`.
pub open spec fn again(seen: Seen, next: u32) -> Seen {
    Seen { declared: seen.declared, next }
}

proof fn lemma_stmt_settled(
    s: ReactiveStatement,
    out: Seq<ReactiveStatement>,
    m: int,
    seen: Seen,
    next: u32,
)
    requires
        stmt_extracted(s, out, m, seen),
        new_numbers(after_stmt(s, seen).declared, seen.next, taken_stmt(s, seen)),
    ensures
        forall|k: int|
            0 <= k < stmt_count(s, seen.declared) ==> settled_stmt(
                #[trigger] out[m + k],
                again(seen, next),
            ) && after_stmt(out[m + k], again(seen, next)) == again(after_stmt(s, seen), next),
    decreases s, 0nat, 0nat,
{
    match s {
        ReactiveStatement::Instruction(instr) => {
            if let Some(ops) = to_rewrite(*instr, seen.declared) {
                assert(is_rewritten(out[m], *instr, seen));
                if let ReactiveStatement::Instruction(i) = out[m] {
                    if let InstructionValue::Destructure { lvalue, .. } = i.value {
                        lemma_nothing_mixed(
                            ops,
                            pattern_operands(lvalue.pattern),
                            seen.declared,
                            seen.next,
                        );
                    }
                }
                assert forall|k: int| 0 <= k < stmt_count(s, seen.declared) implies settled_stmt(
                    #[trigger] out[m + k],
                    again(seen, next),
                ) && after_stmt(out[m + k], again(seen, next)) == again(
                    after_stmt(s, seen),
                    next,
                ) by {
                    if k > 0 {
                        assert(is_assignment(
                            out[m + 1 + (k - 1)],
                            *instr,
                            replaced_all(ops, seen.declared)[k - 1],
                            advanced(seen.next, (k - 1) as nat),
                        ));
                    }
                }
            }
        },
        ReactiveStatement::Terminal(t) => {
            if let ReactiveStatement::Terminal(u) = out[m] {
                lemma_terminal_settled(t.terminal, u.terminal, seen, next);
            }
        },
        ReactiveStatement::Scope(b) => {
            if let ReactiveStatement::Scope(d) = out[m] {
                lemma_block_settled(b.instructions@, d.instructions@, scope_seen(seen, b), next);
                assert(scope_seen(again(seen, next), d) == again(scope_seen(seen, b), next));
            }
        },
        ReactiveStatement::PrunedScope(b) => {
            if let ReactiveStatement::PrunedScope(d) = out[m] {
                lemma_block_settled(b.instructions@, d.instructions@, seen, next);
            }
        },
    }
}

/// Settled statements, one after the other, that all know the same.
proof fn lemma_run_settled(
    out: Seq<ReactiveStatement>,
    start: Seen,
    m: int,
    k: int,
    early: Seen,
    late: Seen,
)
    requires
        0 <= m,
        0 <= k,
        m + k <= out.len(),
        settled_upto(out, start, m),
        after_upto(out, start, m) == early,
        forall|i: int|
            0 <= i < k ==> settled_stmt(#[trigger] out[m + i], early) && after_stmt(out[m + i], early)
                == late,
        k > 1 ==> early == late,
    ensures
        settled_upto(out, start, m + k),
        k > 0 ==> after_upto(out, start, m + k) == late,
    decreases k,
{
    if k > 0 {
        lemma_run_settled(out, start, m, k - 1, early, late);
        assert(settled_stmt(out[m + (k - 1)], early));
    }
}

proof fn lemma_upto_settled(
    block: Seq<ReactiveStatement>,
    out: Seq<ReactiveStatement>,
    seen: Seen,
    next: u32,
    n: int,
)
    requires
        0 <= n <= block.len(),
        extracted_upto(block, out, seen, n),
        count_upto(block, seen, n) <= out.len(),
        new_numbers(after_upto(block, seen, n).declared, seen.next, taken_upto(block, seen, n)),
    ensures
        settled_upto(out, again(seen, next), count_upto(block, seen, n) as int),
        after_upto(out, again(seen, next), count_upto(block, seen, n) as int) == again(
            after_upto(block, seen, n),
            next,
        ),
    decreases block, 0nat, n,
{
    if n > 0 {
        let mid = after_upto(block, seen, n - 1);
        let s = block[n - 1];
        let late = after_upto(block, seen, n);
        let j = taken_upto(block, seen, n - 1);
        let k = taken_stmt(s, mid);
        let m = count_upto(block, seen, n - 1) as int;
        let c = stmt_count(s, mid.declared) as int;
        lemma_upto_advances(block, seen, n - 1);
        lemma_stmt_advances(s, mid);
        assert(advanced(seen.next, 0) == seen.next);
        lemma_new_part(late.declared, mid.declared, seen.next, 0, j, j + k);
        lemma_upto_settled(block, out, seen, next, n - 1);
        lemma_new_part(late.declared, late.declared, seen.next, j, k, j + k);
        lemma_stmt_settled(s, out, m, mid, next);
        if c > 1 {
            assert(s is Instruction);
            assert(again(mid, next) == again(late, next));
        }
        lemma_run_settled(out, again(seen, next), m, c, again(mid, next), again(late, next));
    }
}

/// After an extraction no destructuring mixes declared and new variables any more, at any depth, where
/// the numbers of its temporaries are new.
pub proof fn lemma_block_settled(
    block: Seq<ReactiveStatement>,
    out: Seq<ReactiveStatement>,
    seen: Seen,
    next: u32,
)
    requires
        block_extracted(block, out, seen),
        new_numbers(after_block(block, seen).declared, seen.next, taken_block(block, seen)),
    ensures
        settled_block(out, again(seen, next)),
        after_block(out, again(seen, next)) == again(after_block(block, seen), next),
    decreases block, 1nat, 0nat,
{
    lemma_upto_settled(block, out, seen, next, block.len() as int);
}

proof fn lemma_option_settled(
    block: Option<Vec<ReactiveStatement>>,
    out: Option<Vec<ReactiveStatement>>,
    seen: Seen,
    next: u32,
)
    requires
        option_extracted(block, out, seen),
        new_numbers(after_option(block, seen).declared, seen.next, taken_option(block, seen)),
    ensures
        settled_option(out, again(seen, next)),
        after_option(out, again(seen, next)) == again(after_option(block, seen), next),
    decreases block, 0nat, 0nat,
{
    if let Some(b) = block {
        if let Some(o) = out {
            lemma_block_settled(b@, o@, seen, next);
        }
    }
}

proof fn lemma_cases_settled(
    cases: Seq<ReactiveSwitchCase>,
    out: Seq<ReactiveSwitchCase>,
    seen: Seen,
    next: u32,
    n: int,
)
    requires
        0 <= n <= cases.len(),
        cases.len() == out.len(),
        cases_extracted(cases, out, seen, n),
        new_numbers(after_cases(cases, seen, n).declared, seen.next, taken_cases(cases, seen, n)),
    ensures
        settled_cases(out, again(seen, next), n),
        after_cases(out, again(seen, next), n) == again(after_cases(cases, seen, n), next),
    decreases cases, 0nat, n,
{
    if n > 0 {
        let mid = after_cases(cases, seen, n - 1);
        let late = after_cases(cases, seen, n);
        let j = taken_cases(cases, seen, n - 1);
        let k = taken_option(cases[n - 1].block, mid);
        lemma_cases_advance(cases, seen, n - 1);
        lemma_option_advances(cases[n - 1].block, mid);
        assert(advanced(seen.next, 0) == seen.next);
        lemma_new_part(late.declared, mid.declared, seen.next, 0, j, j + k);
        lemma_cases_settled(cases, out, seen, next, n - 1);
        lemma_new_part(late.declared, late.declared, seen.next, j, k, j + k);
        lemma_option_settled(cases[n - 1].block, out[n - 1].block, mid, next);
    }
}

/// Of two parts, one after the other, both have new numbers where the whole has.
proof fn lemma_new_parts(seen: Seen, mid: Seen, late: Seen, j: nat, k: nat)
    requires
        advances(seen, mid, j),
        advances(mid, late, k),
        new_numbers(late.declared, seen.next, j + k),
    ensures
        new_numbers(mid.declared, seen.next, j),
        new_numbers(late.declared, mid.next, k),
{
    assert(advanced(seen.next, 0) == seen.next);
    lemma_new_part(late.declared, mid.declared, seen.next, 0, j, j + k);
    lemma_new_part(late.declared, late.declared, seen.next, j, k, j + k);
}

proof fn lemma_terminal_settled(t: ReactiveTerminal, u: ReactiveTerminal, seen: Seen, next: u32)
    requires
        terminal_extracted(t, u, seen),
        new_numbers(after_terminal(t, seen).declared, seen.next, taken_terminal(t, seen)),
    ensures
        settled_terminal(u, again(seen, next)),
        after_terminal(u, again(seen, next)) == again(after_terminal(t, seen), next),
    decreases t, 0nat, 0nat,
{
    match (t, u) {
        (
            ReactiveTerminal::If { consequent, alternate, .. },
            ReactiveTerminal::If { consequent: c1, alternate: a1, .. },
        ) => {
            let mid = after_block(consequent@, seen);
            lemma_block_advances(consequent@, seen);
            lemma_option_advances(alternate, mid);
            lemma_new_parts(
                seen,
                mid,
                after_option(alternate, mid),
                taken_block(consequent@, seen),
                taken_option(alternate, mid),
            );
            lemma_block_settled(consequent@, c1@, seen, next);
            lemma_option_settled(alternate, a1, mid, next);
        },
        (ReactiveTerminal::Switch { cases, .. }, ReactiveTerminal::Switch { cases: c1, .. }) => {
            lemma_cases_settled(cases@, c1@, seen, next, cases@.len() as int);
        },
        (
            ReactiveTerminal::DoWhile { loop_block, .. },
            ReactiveTerminal::DoWhile { loop_block: l1, .. },
        ) => {
            lemma_block_settled(loop_block@, l1@, seen, next);
        },
        (
            ReactiveTerminal::While { loop_block, .. },
            ReactiveTerminal::While { loop_block: l1, .. },
        ) => {
            lemma_block_settled(loop_block@, l1@, seen, next);
        },
        (
            ReactiveTerminal::For { init, update, loop_block, .. },
            ReactiveTerminal::For { init: i1, update: u1, loop_block: l1, .. },
        ) => {
            let first = after_block(init@, seen);
            let second = after_option(update, first);
            let late = after_block(loop_block@, second);
            let a = taken_block(init@, seen);
            let b = taken_option(update, first);
            lemma_block_advances(init@, seen);
            lemma_option_advances(update, first);
            lemma_block_advances(loop_block@, second);
            lemma_advances_twice(seen, first, second, a, b);
            lemma_new_parts(seen, second, late, a + b, taken_block(loop_block@, second));
            lemma_new_parts(seen, first, second, a, b);
            lemma_block_settled(init@, i1@, seen, next);
            lemma_option_settled(update, u1, first, next);
            lemma_block_settled(loop_block@, l1@, second, next);
        },
        (
            ReactiveTerminal::ForOf { init, loop_block },
            ReactiveTerminal::ForOf { init: i1, loop_block: l1 },
        ) => {
            lemma_two_new(init@, loop_block@, seen);
            lemma_block_settled(init@, i1@, seen, next);
            lemma_block_settled(loop_block@, l1@, after_block(init@, seen), next);
        },
        (
            ReactiveTerminal::ForIn { init, loop_block },
            ReactiveTerminal::ForIn { init: i1, loop_block: l1 },
        ) => {
            lemma_two_new(init@, loop_block@, seen);
            lemma_block_settled(init@, i1@, seen, next);
            lemma_block_settled(loop_block@, l1@, after_block(init@, seen), next);
        },
        (ReactiveTerminal::Label { block }, ReactiveTerminal::Label { block: b1 }) => {
            lemma_block_settled(block@, b1@, seen, next);
        },
        (
            ReactiveTerminal::Try { block, handler, .. },
            ReactiveTerminal::Try { block: b1, handler: d1, .. },
        ) => {
            lemma_two_new(block@, handler@, seen);
            lemma_block_settled(block@, b1@, seen, next);
            lemma_block_settled(handler@, d1@, after_block(block@, seen), next);
        },
        _ => {},
    }
}

/// Of two blocks, one after the other, both have new numbers where both together have.
proof fn lemma_two_new(a: Seq<ReactiveStatement>, b: Seq<ReactiveStatement>, seen: Seen)
    requires
        new_numbers(
            after_block(b, after_block(a, seen)).declared,
            seen.next,
            taken_block(a, seen) + taken_block(b, after_block(a, seen)),
        ),
    ensures
        new_numbers(after_block(a, seen).declared, seen.next, taken_block(a, seen)),
        new_numbers(
            after_block(b, after_block(a, seen)).declared,
            after_block(a, seen).next,
            taken_block(b, after_block(a, seen)),
        ),
{
    let mid = after_block(a, seen);
    lemma_block_advances(a, seen);
    lemma_block_advances(b, mid);
    lemma_new_parts(seen, mid, after_block(b, mid), taken_block(a, seen), taken_block(b, mid));
}

// ---------------------------------------------------------------------------
// What mixes nothing stays as it is
// ---------------------------------------------------------------------------

/// Whether two statements are the same, at any depth.
pub open spec fn same_stmt(s: ReactiveStatement, t: ReactiveStatement) -> bool
    decreases s, 0nat, 0nat,
{
    match s {
        ReactiveStatement::Instruction(_) => t == s,
        ReactiveStatement::Terminal(a) => t matches ReactiveStatement::Terminal(b) && b.label
            == a.label && same_terminal(a.terminal, b.terminal),
        ReactiveStatement::Scope(a) => t matches ReactiveStatement::Scope(b) && b.scope == a.scope
            && same_block(a.instructions@, b.instructions@),
        ReactiveStatement::PrunedScope(a) => t matches ReactiveStatement::PrunedScope(b) && b.scope
            == a.scope && same_block(a.instructions@, b.instructions@),
    }
}

pub open spec fn same_upto(a: Seq<ReactiveStatement>, b: Seq<ReactiveStatement>, n: int) -> bool
    decreases a, 0nat, n,
{
    if n <= 0 || n > a.len() {
        true
    } else {
        same_upto(a, b, n - 1) && same_stmt(a[n - 1], b[n - 1])
    }
}

/// Whether two blocks are the same, statement by statement, at any depth.
pub open spec fn same_block(a: Seq<ReactiveStatement>, b: Seq<ReactiveStatement>) -> bool
    decreases a, 1nat, 0nat,
{
    a.len() == b.len() && same_upto(a, b, a.len() as int)
}

pub open spec fn same_option(
    a: Option<Vec<ReactiveStatement>>,
    b: Option<Vec<ReactiveStatement>>,
) -> bool
    decreases a, 0nat, 0nat,
{
    match a {
        Some(x) => b matches Some(y) && same_block(x@, y@),
        None => b is None,
    }
}

pub open spec fn same_cases(a: Seq<ReactiveSwitchCase>, b: Seq<ReactiveSwitchCase>, n: int) -> bool
    decreases a, 0nat, n,
{
    if n <= 0 || n > a.len() {
        true
    } else {
        same_cases(a, b, n - 1) && b[n - 1].test == a[n - 1].test && same_option(
            a[n - 1].block,
            b[n - 1].block,
        )
    }
}

pub open spec fn same_terminal(t: ReactiveTerminal, u: ReactiveTerminal) -> bool
    decreases t, 0nat, 0nat,
{
    match t {
        ReactiveTerminal::If { test, consequent, alternate } => u matches ReactiveTerminal::If {
            test: test1,
            consequent: c1,
            alternate: a1,
        } && test1 == test && same_block(consequent@, c1@) && same_option(alternate, a1),
        ReactiveTerminal::Switch { test, cases } => u matches ReactiveTerminal::Switch {
            test: test1,
            cases: c1,
        } && test1 == test && c1@.len() == cases@.len() && same_cases(
            cases@,
            c1@,
            cases@.len() as int,
        ),
        ReactiveTerminal::DoWhile { loop_block, test } => u matches ReactiveTerminal::DoWhile {
            loop_block: l1,
            test: test1,
        } && test1 == test && same_block(loop_block@, l1@),
        ReactiveTerminal::While { test, loop_block } => u matches ReactiveTerminal::While {
            test: test1,
            loop_block: l1,
        } && test1 == test && same_block(loop_block@, l1@),
        ReactiveTerminal::For { init, test, update, update_value, loop_block } => u
            matches ReactiveTerminal::For {
            init: i1,
            test: test1,
            update: u1,
            update_value: v1,
            loop_block: l1,
        } && test1 == test && v1 == update_value && same_block(init@, i1@) && same_option(update, u1)
            && same_block(loop_block@, l1@),
        ReactiveTerminal::ForOf { init, loop_block } => u matches ReactiveTerminal::ForOf {
            init: i1,
            loop_block: l1,
        } && same_block(init@, i1@) && same_block(loop_block@, l1@),
        ReactiveTerminal::ForIn { init, loop_block } => u matches ReactiveTerminal::ForIn {
            init: i1,
            loop_block: l1,
        } && same_block(init@, i1@) && same_block(loop_block@, l1@),
        ReactiveTerminal::Label { block } => u matches ReactiveTerminal::Label { block: b1 }
            && same_block(block@, b1@),
        ReactiveTerminal::Try { block, handler_binding, handler } => u
            matches ReactiveTerminal::Try {
            block: b1,
            handler_binding: h1,
            handler: d1,
        } && h1 == handler_binding && same_block(block@, b1@) && same_block(handler@, d1@),
        _ => u == t,
    }
}

proof fn lemma_stmt_stays(s: ReactiveStatement, out: Seq<ReactiveStatement>, m: int, seen: Seen)
    requires
        settled_stmt(s, seen),
        stmt_extracted(s, out, m, seen),
    ensures
        same_stmt(s, out[m]),
        stmt_count(s, seen.declared) == 1,
        taken_stmt(s, seen) == 0,
    decreases s, 0nat, 0nat,
{
    match s {
        ReactiveStatement::Instruction(_) => {},
        ReactiveStatement::Terminal(t) => {
            if let ReactiveStatement::Terminal(u) = out[m] {
                lemma_terminal_stays(t.terminal, u.terminal, seen);
            }
        },
        ReactiveStatement::Scope(b) => {
            if let ReactiveStatement::Scope(d) = out[m] {
                lemma_block_stays(b.instructions@, d.instructions@, scope_seen(seen, b));
            }
        },
        ReactiveStatement::PrunedScope(b) => {
            if let ReactiveStatement::PrunedScope(d) = out[m] {
                lemma_block_stays(b.instructions@, d.instructions@, seen);
            }
        },
    }
}

proof fn lemma_upto_stays(
    block: Seq<ReactiveStatement>,
    out: Seq<ReactiveStatement>,
    seen: Seen,
    n: int,
)
    requires
        0 <= n <= block.len(),
        settled_upto(block, seen, n),
        extracted_upto(block, out, seen, n),
    ensures
        same_upto(block, out, n),
        count_upto(block, seen, n) == n,
        taken_upto(block, seen, n) == 0,
    decreases block, 0nat, n,
{
    if n > 0 {
        lemma_upto_stays(block, out, seen, n - 1);
        lemma_stmt_stays(block[n - 1], out, n - 1, after_upto(block, seen, n - 1));
    }
}

/// A block in which no destructuring mixes declared and new variables stays as it is, at any depth, and
/// takes no numbers.
pub proof fn lemma_block_stays(
    block: Seq<ReactiveStatement>,
    out: Seq<ReactiveStatement>,
    seen: Seen,
)
    requires
        settled_block(block, seen),
        block_extracted(block, out, seen),
    ensures
        same_block(block, out),
        taken_block(block, seen) == 0,
    decreases block, 1nat, 0nat,
{
    lemma_upto_stays(block, out, seen, block.len() as int);
}

proof fn lemma_option_stays(
    block: Option<Vec<ReactiveStatement>>,
    out: Option<Vec<ReactiveStatement>>,
    seen: Seen,
)
    requires
        settled_option(block, seen),
        option_extracted(block, out, seen),
    ensures
        same_option(block, out),
        taken_option(block, seen) == 0,
    decreases block, 0nat, 0nat,
{
    if let Some(b) = block {
        if let Some(o) = out {
            lemma_block_stays(b@, o@, seen);
        }
    }
}

proof fn lemma_cases_stay(
    cases: Seq<ReactiveSwitchCase>,
    out: Seq<ReactiveSwitchCase>,
    seen: Seen,
    n: int,
)
    requires
        0 <= n <= cases.len(),
        settled_cases(cases, seen, n),
        cases_extracted(cases, out, seen, n),
    ensures
        same_cases(cases, out, n),
        taken_cases(cases, seen, n) == 0,
    decreases cases, 0nat, n,
{
    if n > 0 {
        lemma_cases_stay(cases, out, seen, n - 1);
        lemma_option_stays(cases[n - 1].block, out[n - 1].block, after_cases(cases, seen, n - 1));
    }
}

proof fn lemma_terminal_stays(t: ReactiveTerminal, u: ReactiveTerminal, seen: Seen)
    requires
        settled_terminal(t, seen),
        terminal_extracted(t, u, seen),
    ensures
        same_terminal(t, u),
        taken_terminal(t, seen) == 0,
    decreases t, 0nat, 0nat,
{
    match (t, u) {
        (
            ReactiveTerminal::If { consequent, alternate, .. },
            ReactiveTerminal::If { consequent: c1, alternate: a1, .. },
        ) => {
            lemma_block_stays(consequent@, c1@, seen);
            lemma_option_stays(alternate, a1, after_block(consequent@, seen));
        },
        (ReactiveTerminal::Switch { cases, .. }, ReactiveTerminal::Switch { cases: c1, .. }) => {
            lemma_cases_stay(cases@, c1@, seen, cases@.len() as int);
        },
        (
            ReactiveTerminal::DoWhile { loop_block, .. },
            ReactiveTerminal::DoWhile { loop_block: l1, .. },
        ) => {
            lemma_block_stays(loop_block@, l1@, seen);
        },
        (
            ReactiveTerminal::While { loop_block, .. },
            ReactiveTerminal::While { loop_block: l1, .. },
        ) => {
            lemma_block_stays(loop_block@, l1@, seen);
        },
        (
            ReactiveTerminal::For { init, update, loop_block, .. },
            ReactiveTerminal::For { init: i1, update: u1, loop_block: l1, .. },
        ) => {
            let first = after_block(init@, seen);
            lemma_block_stays(init@, i1@, seen);
            lemma_option_stays(update, u1, first);
            lemma_block_stays(loop_block@, l1@, after_option(update, first));
        },
        (
            ReactiveTerminal::ForOf { init, loop_block },
            ReactiveTerminal::ForOf { init: i1, loop_block: l1 },
        ) => {
            lemma_block_stays(init@, i1@, seen);
            lemma_block_stays(loop_block@, l1@, after_block(init@, seen));
        },
        (
            ReactiveTerminal::ForIn { init, loop_block },
            ReactiveTerminal::ForIn { init: i1, loop_block: l1 },
        ) => {
            lemma_block_stays(init@, i1@, seen);
            lemma_block_stays(loop_block@, l1@, after_block(init@, seen));
        },
        (ReactiveTerminal::Label { block }, ReactiveTerminal::Label { block: b1 }) => {
            lemma_block_stays(block@, b1@, seen);
        },
        (
            ReactiveTerminal::Try { block, handler, .. },
            ReactiveTerminal::Try { block: b1, handler: d1, .. },
        ) => {
            lemma_block_stays(block@, b1@, seen);
            lemma_block_stays(handler@, d1@, after_block(block@, seen));
        },
        _ => {},
    }
}

/// A second extraction changes nothing and takes no numbers, where the numbers that the first one took
/// were new: `out` is what the first one makes of `block`, `twice` what the second one makes of `out`.
pub proof fn lemma_second_changes_nothing(
    block: Seq<ReactiveStatement>,
    out: Seq<ReactiveStatement>,
    twice: Seq<ReactiveStatement>,
    seen: Seen,
    next: u32,
)
    requires
        block_extracted(block, out, seen),
        block_extracted(out, twice, again(seen, next)),
        new_numbers(after_block(block, seen).declared, seen.next, taken_block(block, seen)),
    ensures
        same_block(out, twice),
        after_block(out, again(seen, next)).next == next,
{
    lemma_block_settled(block, out, seen, next);
    lemma_block_stays(out, twice, again(seen, next));
}

} // verus!
