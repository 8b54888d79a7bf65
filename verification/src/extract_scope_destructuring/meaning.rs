//! What an extraction is for: inside a scope, no destructuring binds anew what the scope declares.

use vstd::prelude::*;

use crate::extract_scope_destructuring::laws::{
    again, lemma_block_settled, lemma_block_stays, lemma_numbers_differ, new_numbers, same_block,
    settled_block, settled_cases, settled_option, settled_stmt, settled_terminal, settled_upto,
    taken_block,
};
use crate::extract_scope_destructuring::{
    advanced, after_block, after_cases, after_option, after_stmt, after_terminal, after_upto,
    block_extracted, instruction_extracted, is_assignment, is_declared, is_mixed, is_rewritten,
    operand_extracted, param_declarations, pattern_operands, reassigned_ids, replaced_all,
    replaced_places, scope_seen, to_rewrite, with_declarations, Seen,
};
use crate::codegen::reads::property_values;
use crate::graph::element_places;
use crate::hir::{
    Argument, ArrayElement, IdentifierId, InstructionValue, ObjectPropertyOrSpread, Pattern, Place,
    ReactiveInstruction, ReactiveScope, ReactiveStatement, ReactiveSwitchCase, ReactiveTerminal,
    ScopeDeclaration,
};

verus! {

// ---------------------------------------------------------------------------
// What is declared where
// ---------------------------------------------------------------------------

/// Whether a scope declares a variable.
pub open spec fn scope_declares(scope: ReactiveScope, d: u32) -> bool {
    exists|i: int|
        0 <= i < scope.declarations.entries@.len() && (
        #[trigger] scope.declarations.entries@[i]).1.identifier.declaration_id.0 == d
}

/// Whether a parameter declares a variable.
pub open spec fn params_declare(params: Seq<Argument>, d: u32) -> bool {
    exists|i: int|
        0 <= i < params.len() && match #[trigger] params[i] {
            Argument::Place(p) => p.identifier.declaration_id.0 == d,
            Argument::Spread(p) => p.identifier.declaration_id.0 == d,
        }
}

/// Whether a scope in a statement declares a variable, at any depth.
pub open spec fn stmt_declares(s: ReactiveStatement, d: u32) -> bool
    decreases s, 0nat, 0nat,
{
    match s {
        ReactiveStatement::Instruction(_) => false,
        ReactiveStatement::Terminal(t) => terminal_declares(t.terminal, d),
        ReactiveStatement::Scope(b) => scope_declares(b.scope, d) || block_declares(
            b.instructions@,
            d,
        ),
        ReactiveStatement::PrunedScope(b) => block_declares(b.instructions@, d),
    }
}

/// Whether a scope in the first `n` statements declares a variable.
pub open spec fn upto_declares(block: Seq<ReactiveStatement>, d: u32, n: int) -> bool
    decreases block, 0nat, n,
{
    if n <= 0 || n > block.len() {
        false
    } else {
        upto_declares(block, d, n - 1) || stmt_declares(block[n - 1], d)
    }
}

/// Whether a scope in a block declares a variable, at any depth.
pub open spec fn block_declares(block: Seq<ReactiveStatement>, d: u32) -> bool
    decreases block, 1nat, 0nat,
{
    upto_declares(block, d, block.len() as int)
}

pub open spec fn option_declares(block: Option<Vec<ReactiveStatement>>, d: u32) -> bool
    decreases block, 0nat, 0nat,
{
    match block {
        Some(b) => block_declares(b@, d),
        None => false,
    }
}

pub open spec fn cases_declare(cases: Seq<ReactiveSwitchCase>, d: u32, n: int) -> bool
    decreases cases, 0nat, n,
{
    if n <= 0 || n > cases.len() {
        false
    } else {
        cases_declare(cases, d, n - 1) || option_declares(cases[n - 1].block, d)
    }
}

pub open spec fn terminal_declares(t: ReactiveTerminal, d: u32) -> bool
    decreases t, 0nat, 0nat,
{
    match t {
        ReactiveTerminal::If { consequent, alternate, .. } => block_declares(consequent@, d)
            || option_declares(alternate, d),
        ReactiveTerminal::Switch { cases, .. } => cases_declare(cases@, d, cases@.len() as int),
        ReactiveTerminal::DoWhile { loop_block, .. } => block_declares(loop_block@, d),
        ReactiveTerminal::While { loop_block, .. } => block_declares(loop_block@, d),
        ReactiveTerminal::For { init, update, loop_block, .. } => block_declares(init@, d)
            || option_declares(update, d) || block_declares(loop_block@, d),
        ReactiveTerminal::ForOf { init, loop_block } => block_declares(init@, d) || block_declares(
            loop_block@,
            d,
        ),
        ReactiveTerminal::ForIn { init, loop_block } => block_declares(init@, d) || block_declares(
            loop_block@,
            d,
        ),
        ReactiveTerminal::Label { block } => block_declares(block@, d),
        ReactiveTerminal::Try { block, handler, .. } => block_declares(block@, d) || block_declares(
            handler@,
            d,
        ),
        _ => false,
    }
}

/// The variables that the parameters of a function or the scopes in its body declare.
pub open spec fn known(params: Seq<Argument>, body: Seq<ReactiveStatement>) -> Set<u32> {
    Set::new(|d: u32| params_declare(params, d) || block_declares(body, d))
}

/// `around` and the variables that a scope declares.
pub open spec fn inside(around: Set<u32>, scope: ReactiveScope) -> Set<u32> {
    Set::new(|d: u32| around.contains(d) || scope_declares(scope, d))
}

proof fn lemma_params_declare(params: Seq<Argument>, d: u32, n: int)
    requires
        0 <= n <= params.len(),
    ensures
        param_declarations(params, n).contains(d) <==> params_declare(params.take(n), d),
    decreases n,
{
    if n > 0 {
        lemma_params_declare(params, d, n - 1);
        let a = params.take(n - 1);
        let b = params.take(n);
        assert(b[n - 1] == params[n - 1]);
        assert(forall|i: int| 0 <= i < n - 1 ==> a[i] == b[i]);
        if params_declare(a, d) {
            let i = choose|i: int|
                0 <= i < a.len() && match #[trigger] a[i] {
                    Argument::Place(p) => p.identifier.declaration_id.0 == d,
                    Argument::Spread(p) => p.identifier.declaration_id.0 == d,
                };
            assert(b[i] == a[i]);
        }
        if params_declare(b, d) {
            let i = choose|i: int|
                0 <= i < b.len() && match #[trigger] b[i] {
                    Argument::Place(p) => p.identifier.declaration_id.0 == d,
                    Argument::Spread(p) => p.identifier.declaration_id.0 == d,
                };
            if i < n - 1 {
                assert(a[i] == b[i]);
            }
        }
    }
}

proof fn lemma_entries_declare(
    declared: Set<u32>,
    entries: Seq<(IdentifierId, ScopeDeclaration)>,
    d: u32,
    n: int,
)
    requires
        0 <= n <= entries.len(),
    ensures
        with_declarations(declared, entries, n).contains(d) <==> declared.contains(d) || exists|i: int|
            0 <= i < n && (#[trigger] entries[i]).1.identifier.declaration_id.0 == d,
    decreases n,
{
    if n > 0 {
        lemma_entries_declare(declared, entries, d, n - 1);
        if entries[n - 1].1.identifier.declaration_id.0 == d {
            assert(0 <= n - 1 < n);
        }
    }
}

/// Inside a scope every variable that the scope declares counts as declared, and nothing else is added.
pub proof fn lemma_scope_variables_are_declared(seen: Seen, block: crate::hir::ReactiveScopeBlock, d: u32)
    ensures
        scope_seen(seen, block).declared.contains(d) <==> seen.declared.contains(d)
            || scope_declares(block.scope, d),
        scope_seen(seen, block).next == seen.next,
{
    let entries = block.scope.declarations.entries@;
    lemma_entries_declare(seen.declared, entries, d, entries.len() as int);
}

proof fn lemma_stmt_known(s: ReactiveStatement, seen: Seen, d: u32)
    ensures
        after_stmt(s, seen).declared.contains(d) <==> seen.declared.contains(d) || stmt_declares(s, d),
    decreases s, 0nat, 0nat,
{
    match s {
        ReactiveStatement::Instruction(_) => {},
        ReactiveStatement::Terminal(t) => {
            lemma_terminal_known(t.terminal, seen, d);
        },
        ReactiveStatement::Scope(b) => {
            lemma_scope_variables_are_declared(seen, b, d);
            lemma_block_known(b.instructions@, scope_seen(seen, b), d);
        },
        ReactiveStatement::PrunedScope(b) => {
            lemma_block_known(b.instructions@, seen, d);
        },
    }
}

proof fn lemma_upto_known(block: Seq<ReactiveStatement>, seen: Seen, d: u32, n: int)
    requires
        n <= block.len(),
    ensures
        after_upto(block, seen, n).declared.contains(d) <==> seen.declared.contains(d)
            || upto_declares(block, d, n),
    decreases block, 0nat, n,
{
    if n > 0 {
        lemma_upto_known(block, seen, d, n - 1);
        lemma_stmt_known(block[n - 1], after_upto(block, seen, n - 1), d);
    }
}

/// What counts as declared behind a block: what was, and what the scopes in it declare.
pub proof fn lemma_block_known(block: Seq<ReactiveStatement>, seen: Seen, d: u32)
    ensures
        after_block(block, seen).declared.contains(d) <==> seen.declared.contains(d)
            || block_declares(block, d),
    decreases block, 1nat, 0nat,
{
    lemma_upto_known(block, seen, d, block.len() as int);
}

proof fn lemma_option_known(block: Option<Vec<ReactiveStatement>>, seen: Seen, d: u32)
    ensures
        after_option(block, seen).declared.contains(d) <==> seen.declared.contains(d)
            || option_declares(block, d),
    decreases block, 0nat, 0nat,
{
    if let Some(b) = block {
        lemma_block_known(b@, seen, d);
    }
}

proof fn lemma_cases_known(cases: Seq<ReactiveSwitchCase>, seen: Seen, d: u32, n: int)
    requires
        n <= cases.len(),
    ensures
        after_cases(cases, seen, n).declared.contains(d) <==> seen.declared.contains(d)
            || cases_declare(cases, d, n),
    decreases cases, 0nat, n,
{
    if n > 0 {
        lemma_cases_known(cases, seen, d, n - 1);
        lemma_option_known(cases[n - 1].block, after_cases(cases, seen, n - 1), d);
    }
}

proof fn lemma_terminal_known(t: ReactiveTerminal, seen: Seen, d: u32)
    ensures
        after_terminal(t, seen).declared.contains(d) <==> seen.declared.contains(d)
            || terminal_declares(t, d),
    decreases t, 0nat, 0nat,
{
    match t {
        ReactiveTerminal::If { consequent, alternate, .. } => {
            lemma_block_known(consequent@, seen, d);
            lemma_option_known(alternate, after_block(consequent@, seen), d);
        },
        ReactiveTerminal::Switch { cases, .. } => {
            lemma_cases_known(cases@, seen, d, cases@.len() as int);
        },
        ReactiveTerminal::DoWhile { loop_block, .. } => {
            lemma_block_known(loop_block@, seen, d);
        },
        ReactiveTerminal::While { loop_block, .. } => {
            lemma_block_known(loop_block@, seen, d);
        },
        ReactiveTerminal::For { init, update, loop_block, .. } => {
            let first = after_block(init@, seen);
            lemma_block_known(init@, seen, d);
            lemma_option_known(update, first, d);
            lemma_block_known(loop_block@, after_option(update, first), d);
        },
        ReactiveTerminal::ForOf { init, loop_block } => {
            lemma_block_known(init@, seen, d);
            lemma_block_known(loop_block@, after_block(init@, seen), d);
        },
        ReactiveTerminal::ForIn { init, loop_block } => {
            lemma_block_known(init@, seen, d);
            lemma_block_known(loop_block@, after_block(init@, seen), d);
        },
        ReactiveTerminal::Label { block } => {
            lemma_block_known(block@, seen, d);
        },
        ReactiveTerminal::Try { block, handler, .. } => {
            lemma_block_known(block@, seen, d);
            lemma_block_known(handler@, after_block(block@, seen), d);
        },
        _ => {},
    }
}

// ---------------------------------------------------------------------------
// What a pattern binds
// ---------------------------------------------------------------------------

/// Whether a pattern binds a variable that is in `vars` (with `yes`) or is not.
pub open spec fn binds(pattern: Pattern, vars: Set<u32>, yes: bool) -> bool {
    match pattern {
        Pattern::Array(a) => exists|i: int|
            0 <= i < a.items@.len() && match #[trigger] a.items@[i] {
                ArrayElement::Place(p) => vars.contains(p.identifier.declaration_id.0) == yes,
                ArrayElement::Spread(p) => vars.contains(p.identifier.declaration_id.0) == yes,
                ArrayElement::Hole => false,
            },
        Pattern::Object(o) => exists|i: int|
            0 <= i < o.properties@.len() && match #[trigger] o.properties@[i] {
                ObjectPropertyOrSpread::Property(p) => vars.contains(
                    p.place.identifier.declaration_id.0,
                ) == yes,
                ObjectPropertyOrSpread::Spread(p) => vars.contains(p.identifier.declaration_id.0)
                    == yes,
            },
    }
}

/// Whether one of the places is of a variable that is in `vars` (with `yes`) or is not.
pub open spec fn holds(ops: Seq<Place>, vars: Set<u32>, yes: bool) -> bool {
    exists|i: int|
        0 <= i < ops.len() && vars.contains((#[trigger] ops[i]).identifier.declaration_id.0) == yes
}

proof fn lemma_elements_bound(items: Seq<ArrayElement>, vars: Set<u32>, yes: bool, n: int)
    requires
        0 <= n <= items.len(),
    ensures
        holds(element_places(items, n), vars, yes) <==> exists|i: int|
            0 <= i < n && match #[trigger] items[i] {
                ArrayElement::Place(p) => vars.contains(p.identifier.declaration_id.0) == yes,
                ArrayElement::Spread(p) => vars.contains(p.identifier.declaration_id.0) == yes,
                ArrayElement::Hole => false,
            },
    decreases n,
{
    if n > 0 {
        lemma_elements_bound(items, vars, yes, n - 1);
        let front = element_places(items, n - 1);
        let all = element_places(items, n);
        if holds(front, vars, yes) {
            let i = choose|i: int|
                0 <= i < front.len() && vars.contains(
                    (#[trigger] front[i]).identifier.declaration_id.0,
                ) == yes;
            assert(all[i] == front[i]);
        }
        if holds(all, vars, yes) {
            let i = choose|i: int|
                0 <= i < all.len() && vars.contains((#[trigger] all[i]).identifier.declaration_id.0)
                    == yes;
            if i < front.len() {
                assert(front[i] == all[i]);
            } else {
                assert(match items[n - 1] {
                    ArrayElement::Place(p) => vars.contains(p.identifier.declaration_id.0) == yes,
                    ArrayElement::Spread(p) => vars.contains(p.identifier.declaration_id.0) == yes,
                    ArrayElement::Hole => false,
                });
            }
        }
        if match items[n - 1] {
            ArrayElement::Place(p) => vars.contains(p.identifier.declaration_id.0) == yes,
            ArrayElement::Spread(p) => vars.contains(p.identifier.declaration_id.0) == yes,
            ArrayElement::Hole => false,
        } {
            assert(vars.contains(all[front.len() as int].identifier.declaration_id.0) == yes);
        }
    }
}

proof fn lemma_pattern_bound(pattern: Pattern, vars: Set<u32>, yes: bool)
    ensures
        holds(pattern_operands(pattern), vars, yes) <==> binds(pattern, vars, yes),
{
    match pattern {
        Pattern::Array(a) => {
            lemma_elements_bound(a.items@, vars, yes, a.items@.len() as int);
        },
        Pattern::Object(o) => {
            let ops = property_values(o.properties@);
            assert(ops.len() == o.properties@.len());
            if holds(ops, vars, yes) {
                let i = choose|i: int|
                    0 <= i < ops.len() && vars.contains(
                        (#[trigger] ops[i]).identifier.declaration_id.0,
                    ) == yes;
                let q = o.properties@[i];
                assert(binds(pattern, vars, yes));
            }
            if binds(pattern, vars, yes) {
                let i = choose|i: int|
                    0 <= i < o.properties@.len() && match #[trigger] o.properties@[i] {
                        ObjectPropertyOrSpread::Property(p) => vars.contains(
                            p.place.identifier.declaration_id.0,
                        ) == yes,
                        ObjectPropertyOrSpread::Spread(p) => vars.contains(
                            p.identifier.declaration_id.0,
                        ) == yes,
                    };
                assert(vars.contains(ops[i].identifier.declaration_id.0) == yes);
            }
        },
    }
}

proof fn lemma_mixed_bound(pattern: Pattern, declared: Set<u32>)
    ensures
        is_mixed(pattern_operands(pattern), declared) <==> binds(pattern, declared, true) && binds(
            pattern,
            declared,
            false,
        ),
{
    let ops = pattern_operands(pattern);
    lemma_pattern_bound(pattern, declared, true);
    lemma_pattern_bound(pattern, declared, false);
    if is_mixed(ops, declared) {
        let i = choose|i: int| 0 <= i < ops.len() && is_declared(declared, #[trigger] ops[i]);
        let j = choose|j: int| 0 <= j < ops.len() && !is_declared(declared, #[trigger] ops[j]);
        assert(declared.contains(ops[i].identifier.declaration_id.0) == true);
        assert(declared.contains(ops[j].identifier.declaration_id.0) == false);
    }
    if holds(ops, declared, true) && holds(ops, declared, false) {
        let i = choose|i: int|
            0 <= i < ops.len() && declared.contains((#[trigger] ops[i]).identifier.declaration_id.0)
                == true;
        let j = choose|j: int|
            0 <= j < ops.len() && declared.contains((#[trigger] ops[j]).identifier.declaration_id.0)
                == false;
        assert(is_declared(declared, ops[i]));
        assert(!is_declared(declared, ops[j]));
    }
}

proof fn lemma_binds_more(pattern: Pattern, small: Set<u32>, large: Set<u32>)
    requires
        small.subset_of(large),
    ensures
        binds(pattern, small, true) ==> binds(pattern, large, true),
        binds(pattern, large, false) ==> binds(pattern, small, false),
{
    let ops = pattern_operands(pattern);
    lemma_pattern_bound(pattern, small, true);
    lemma_pattern_bound(pattern, small, false);
    lemma_pattern_bound(pattern, large, true);
    lemma_pattern_bound(pattern, large, false);
    if holds(ops, small, true) {
        let i = choose|i: int|
            0 <= i < ops.len() && small.contains((#[trigger] ops[i]).identifier.declaration_id.0)
                == true;
        assert(large.contains(ops[i].identifier.declaration_id.0) == true);
    }
    if holds(ops, large, false) {
        let i = choose|i: int|
            0 <= i < ops.len() && large.contains((#[trigger] ops[i]).identifier.declaration_id.0)
                == false;
        assert(small.contains(ops[i].identifier.declaration_id.0) == false);
    }
}

// ---------------------------------------------------------------------------
// Every destructuring
// ---------------------------------------------------------------------------

/// What is asked of a pattern where the variables `around` are declared by a parameter or by a scope that
/// encloses it.
pub type Demand = spec_fn(Pattern, Set<u32>) -> bool;

/// Whether every destructuring in a statement meets a demand, at any depth.
pub open spec fn stmt_meets(s: ReactiveStatement, around: Set<u32>, f: Demand) -> bool
    decreases s, 0nat, 0nat,
{
    match s {
        ReactiveStatement::Instruction(instr) => match instr.value {
            InstructionValue::Destructure { lvalue, .. } => f(lvalue.pattern, around),
            _ => true,
        },
        ReactiveStatement::Terminal(t) => terminal_meets(t.terminal, around, f),
        ReactiveStatement::Scope(b) => block_meets(b.instructions@, inside(around, b.scope), f),
        ReactiveStatement::PrunedScope(b) => block_meets(b.instructions@, around, f),
    }
}

pub open spec fn upto_meets(block: Seq<ReactiveStatement>, around: Set<u32>, f: Demand, n: int) -> bool
    decreases block, 0nat, n,
{
    if n <= 0 || n > block.len() {
        true
    } else {
        upto_meets(block, around, f, n - 1) && stmt_meets(block[n - 1], around, f)
    }
}

/// Whether every destructuring in a block meets a demand, at any depth.
pub open spec fn block_meets(block: Seq<ReactiveStatement>, around: Set<u32>, f: Demand) -> bool
    decreases block, 1nat, 0nat,
{
    upto_meets(block, around, f, block.len() as int)
}

pub open spec fn option_meets(block: Option<Vec<ReactiveStatement>>, around: Set<u32>, f: Demand) -> bool
    decreases block, 0nat, 0nat,
{
    match block {
        Some(b) => block_meets(b@, around, f),
        None => true,
    }
}

pub open spec fn cases_meet(cases: Seq<ReactiveSwitchCase>, around: Set<u32>, f: Demand, n: int) -> bool
    decreases cases, 0nat, n,
{
    if n <= 0 || n > cases.len() {
        true
    } else {
        cases_meet(cases, around, f, n - 1) && option_meets(cases[n - 1].block, around, f)
    }
}

pub open spec fn terminal_meets(t: ReactiveTerminal, around: Set<u32>, f: Demand) -> bool
    decreases t, 0nat, 0nat,
{
    match t {
        ReactiveTerminal::If { consequent, alternate, .. } => block_meets(consequent@, around, f)
            && option_meets(alternate, around, f),
        ReactiveTerminal::Switch { cases, .. } => cases_meet(cases@, around, f, cases@.len() as int),
        ReactiveTerminal::DoWhile { loop_block, .. } => block_meets(loop_block@, around, f),
        ReactiveTerminal::While { loop_block, .. } => block_meets(loop_block@, around, f),
        ReactiveTerminal::For { init, update, loop_block, .. } => block_meets(init@, around, f)
            && option_meets(update, around, f) && block_meets(loop_block@, around, f),
        ReactiveTerminal::ForOf { init, loop_block } => block_meets(init@, around, f)
            && block_meets(loop_block@, around, f),
        ReactiveTerminal::ForIn { init, loop_block } => block_meets(init@, around, f)
            && block_meets(loop_block@, around, f),
        ReactiveTerminal::Label { block } => block_meets(block@, around, f),
        ReactiveTerminal::Try { block, handler, .. } => block_meets(block@, around, f)
            && block_meets(handler@, around, f),
        _ => true,
    }
}

/// No pattern binds both a variable that is declared around it and one that is declared nowhere.
pub open spec fn binds_nothing_anew(known: Set<u32>) -> Demand {
    |p: Pattern, around: Set<u32>| !(binds(p, around, true) && binds(p, known, false))
}

/// A pattern binds either variables only that are declared around it, or none that is declared anywhere.
pub open spec fn is_plain(known: Set<u32>) -> Demand {
    |p: Pattern, around: Set<u32>| !binds(p, around, false) || !binds(p, known, true)
}

/// Whether at some point of a walk at least the variables `around` count as declared.
pub open spec fn covers(seen: Seen, around: Set<u32>) -> bool {
    around.subset_of(seen.declared)
}

/// Whether what is declared behind some point is at most `known`.
pub open spec fn within(seen: Seen, known: Set<u32>) -> bool {
    seen.declared.subset_of(known)
}

proof fn lemma_stmt_grows(s: ReactiveStatement, seen: Seen)
    ensures
        seen.declared.subset_of(after_stmt(s, seen).declared),
{
    assert forall|d: u32| #[trigger] seen.declared.contains(d) implies after_stmt(s, seen).declared.contains(d) by {
        lemma_stmt_known(s, seen, d);
    }
}

proof fn lemma_upto_grows(block: Seq<ReactiveStatement>, seen: Seen, n: int)
    requires
        n <= block.len(),
    ensures
        seen.declared.subset_of(after_upto(block, seen, n).declared),
{
    assert forall|d: u32| #[trigger] seen.declared.contains(d) implies after_upto(block, seen, n).declared.contains(d) by {
        lemma_upto_known(block, seen, d, n);
    }
}

proof fn lemma_block_grows(block: Seq<ReactiveStatement>, seen: Seen)
    ensures
        seen.declared.subset_of(after_block(block, seen).declared),
{
    assert forall|d: u32| #[trigger] seen.declared.contains(d) implies after_block(block, seen).declared.contains(d) by {
        lemma_block_known(block, seen, d);
    }
}

proof fn lemma_option_grows(block: Option<Vec<ReactiveStatement>>, seen: Seen)
    ensures
        seen.declared.subset_of(after_option(block, seen).declared),
{
    assert forall|d: u32| #[trigger] seen.declared.contains(d) implies after_option(block, seen).declared.contains(d) by {
        lemma_option_known(block, seen, d);
    }
}

proof fn lemma_cases_grow(cases: Seq<ReactiveSwitchCase>, seen: Seen, n: int)
    requires
        n <= cases.len(),
    ensures
        seen.declared.subset_of(after_cases(cases, seen, n).declared),
{
    assert forall|d: u32| #[trigger] seen.declared.contains(d) implies after_cases(cases, seen, n).declared.contains(d) by {
        lemma_cases_known(cases, seen, d, n);
    }
}

proof fn lemma_stmt_clean(s: ReactiveStatement, seen: Seen, around: Set<u32>, known: Set<u32>)
    requires
        covers(seen, around),
        within(after_stmt(s, seen), known),
        settled_stmt(s, seen),
    ensures
        stmt_meets(s, around, binds_nothing_anew(known)),
    decreases s, 0nat, 0nat,
{
    match s {
        ReactiveStatement::Instruction(instr) => {
            if let InstructionValue::Destructure { lvalue, .. } = instr.value {
                let p = lvalue.pattern;
                lemma_mixed_bound(p, seen.declared);
                lemma_binds_more(p, around, seen.declared);
                lemma_binds_more(p, seen.declared, known);
            }
        },
        ReactiveStatement::Terminal(t) => {
            lemma_terminal_clean(t.terminal, seen, around, known);
        },
        ReactiveStatement::Scope(b) => {
            let now = scope_seen(seen, b);
            assert(covers(now, inside(around, b.scope))) by {
                assert forall|d: u32| #[trigger] inside(around, b.scope).contains(d) implies now.declared.contains(
                    d,
                ) by {
                    lemma_scope_variables_are_declared(seen, b, d);
                }
            }
            lemma_block_clean(b.instructions@, now, inside(around, b.scope), known);
        },
        ReactiveStatement::PrunedScope(b) => {
            lemma_block_clean(b.instructions@, seen, around, known);
        },
    }
}

proof fn lemma_upto_clean(
    block: Seq<ReactiveStatement>,
    seen: Seen,
    around: Set<u32>,
    known: Set<u32>,
    n: int,
)
    requires
        n <= block.len(),
        covers(seen, around),
        within(after_upto(block, seen, n), known),
        settled_upto(block, seen, n),
    ensures
        upto_meets(block, around, binds_nothing_anew(known), n),
    decreases block, 0nat, n,
{
    if n > 0 {
        let mid = after_upto(block, seen, n - 1);
        lemma_stmt_grows(block[n - 1], mid);
        lemma_upto_grows(block, seen, n - 1);
        lemma_upto_clean(block, seen, around, known, n - 1);
        lemma_stmt_clean(block[n - 1], mid, around, known);
    }
}

proof fn lemma_block_clean(
    block: Seq<ReactiveStatement>,
    seen: Seen,
    around: Set<u32>,
    known: Set<u32>,
)
    requires
        covers(seen, around),
        within(after_block(block, seen), known),
        settled_block(block, seen),
    ensures
        block_meets(block, around, binds_nothing_anew(known)),
    decreases block, 1nat, 0nat,
{
    lemma_upto_clean(block, seen, around, known, block.len() as int);
}

proof fn lemma_option_clean(
    block: Option<Vec<ReactiveStatement>>,
    seen: Seen,
    around: Set<u32>,
    known: Set<u32>,
)
    requires
        covers(seen, around),
        within(after_option(block, seen), known),
        settled_option(block, seen),
    ensures
        option_meets(block, around, binds_nothing_anew(known)),
    decreases block, 0nat, 0nat,
{
    if let Some(b) = block {
        lemma_block_clean(b@, seen, around, known);
    }
}

proof fn lemma_cases_clean(
    cases: Seq<ReactiveSwitchCase>,
    seen: Seen,
    around: Set<u32>,
    known: Set<u32>,
    n: int,
)
    requires
        n <= cases.len(),
        covers(seen, around),
        within(after_cases(cases, seen, n), known),
        settled_cases(cases, seen, n),
    ensures
        cases_meet(cases, around, binds_nothing_anew(known), n),
    decreases cases, 0nat, n,
{
    if n > 0 {
        let mid = after_cases(cases, seen, n - 1);
        lemma_option_grows(cases[n - 1].block, mid);
        lemma_cases_grow(cases, seen, n - 1);
        lemma_cases_clean(cases, seen, around, known, n - 1);
        lemma_option_clean(cases[n - 1].block, mid, around, known);
    }
}

proof fn lemma_terminal_clean(t: ReactiveTerminal, seen: Seen, around: Set<u32>, known: Set<u32>)
    requires
        covers(seen, around),
        within(after_terminal(t, seen), known),
        settled_terminal(t, seen),
    ensures
        terminal_meets(t, around, binds_nothing_anew(known)),
    decreases t, 0nat, 0nat,
{
    match t {
        ReactiveTerminal::If { consequent, alternate, .. } => {
            let mid = after_block(consequent@, seen);
            lemma_block_grows(consequent@, seen);
            lemma_option_grows(alternate, mid);
            lemma_block_clean(consequent@, seen, around, known);
            lemma_option_clean(alternate, mid, around, known);
        },
        ReactiveTerminal::Switch { cases, .. } => {
            lemma_cases_clean(cases@, seen, around, known, cases@.len() as int);
        },
        ReactiveTerminal::DoWhile { loop_block, .. } => {
            lemma_block_clean(loop_block@, seen, around, known);
        },
        ReactiveTerminal::While { loop_block, .. } => {
            lemma_block_clean(loop_block@, seen, around, known);
        },
        ReactiveTerminal::For { init, update, loop_block, .. } => {
            let first = after_block(init@, seen);
            let second = after_option(update, first);
            lemma_block_grows(init@, seen);
            lemma_option_grows(update, first);
            lemma_block_grows(loop_block@, second);
            lemma_block_clean(init@, seen, around, known);
            lemma_option_clean(update, first, around, known);
            lemma_block_clean(loop_block@, second, around, known);
        },
        ReactiveTerminal::ForOf { init, loop_block } => {
            let first = after_block(init@, seen);
            lemma_block_grows(init@, seen);
            lemma_block_grows(loop_block@, first);
            lemma_block_clean(init@, seen, around, known);
            lemma_block_clean(loop_block@, first, around, known);
        },
        ReactiveTerminal::ForIn { init, loop_block } => {
            let first = after_block(init@, seen);
            lemma_block_grows(init@, seen);
            lemma_block_grows(loop_block@, first);
            lemma_block_clean(init@, seen, around, known);
            lemma_block_clean(loop_block@, first, around, known);
        },
        ReactiveTerminal::Label { block } => {
            lemma_block_clean(block@, seen, around, known);
        },
        ReactiveTerminal::Try { block, handler, .. } => {
            let first = after_block(block@, seen);
            lemma_block_grows(block@, seen);
            lemma_block_grows(handler@, first);
            lemma_block_clean(block@, seen, around, known);
            lemma_block_clean(handler@, first, around, known);
        },
        _ => {},
    }
}

proof fn lemma_stmt_plain(s: ReactiveStatement, seen: Seen, around: Set<u32>, known: Set<u32>)
    requires
        covers(seen, around),
        within(after_stmt(s, seen), known),
        stmt_meets(s, around, is_plain(known)),
    ensures
        settled_stmt(s, seen),
    decreases s, 0nat, 0nat,
{
    match s {
        ReactiveStatement::Instruction(instr) => {
            if let InstructionValue::Destructure { lvalue, .. } = instr.value {
                let p = lvalue.pattern;
                lemma_mixed_bound(p, seen.declared);
                lemma_binds_more(p, around, seen.declared);
                lemma_binds_more(p, seen.declared, known);
            }
        },
        ReactiveStatement::Terminal(t) => {
            lemma_terminal_plain(t.terminal, seen, around, known);
        },
        ReactiveStatement::Scope(b) => {
            let now = scope_seen(seen, b);
            assert(covers(now, inside(around, b.scope))) by {
                assert forall|d: u32| #[trigger] inside(around, b.scope).contains(d) implies now.declared.contains(
                    d,
                ) by {
                    lemma_scope_variables_are_declared(seen, b, d);
                }
            }
            lemma_block_plain(b.instructions@, now, inside(around, b.scope), known);
        },
        ReactiveStatement::PrunedScope(b) => {
            lemma_block_plain(b.instructions@, seen, around, known);
        },
    }
}

proof fn lemma_upto_plain(
    block: Seq<ReactiveStatement>,
    seen: Seen,
    around: Set<u32>,
    known: Set<u32>,
    n: int,
)
    requires
        n <= block.len(),
        covers(seen, around),
        within(after_upto(block, seen, n), known),
        upto_meets(block, around, is_plain(known), n),
    ensures
        settled_upto(block, seen, n),
    decreases block, 0nat, n,
{
    if n > 0 {
        let mid = after_upto(block, seen, n - 1);
        lemma_stmt_grows(block[n - 1], mid);
        lemma_upto_grows(block, seen, n - 1);
        lemma_upto_plain(block, seen, around, known, n - 1);
        lemma_stmt_plain(block[n - 1], mid, around, known);
    }
}

proof fn lemma_block_plain(
    block: Seq<ReactiveStatement>,
    seen: Seen,
    around: Set<u32>,
    known: Set<u32>,
)
    requires
        covers(seen, around),
        within(after_block(block, seen), known),
        block_meets(block, around, is_plain(known)),
    ensures
        settled_block(block, seen),
    decreases block, 1nat, 0nat,
{
    lemma_upto_plain(block, seen, around, known, block.len() as int);
}

proof fn lemma_option_plain(
    block: Option<Vec<ReactiveStatement>>,
    seen: Seen,
    around: Set<u32>,
    known: Set<u32>,
)
    requires
        covers(seen, around),
        within(after_option(block, seen), known),
        option_meets(block, around, is_plain(known)),
    ensures
        settled_option(block, seen),
    decreases block, 0nat, 0nat,
{
    if let Some(b) = block {
        lemma_block_plain(b@, seen, around, known);
    }
}

proof fn lemma_cases_plain(
    cases: Seq<ReactiveSwitchCase>,
    seen: Seen,
    around: Set<u32>,
    known: Set<u32>,
    n: int,
)
    requires
        n <= cases.len(),
        covers(seen, around),
        within(after_cases(cases, seen, n), known),
        cases_meet(cases, around, is_plain(known), n),
    ensures
        settled_cases(cases, seen, n),
    decreases cases, 0nat, n,
{
    if n > 0 {
        let mid = after_cases(cases, seen, n - 1);
        lemma_option_grows(cases[n - 1].block, mid);
        lemma_cases_grow(cases, seen, n - 1);
        lemma_cases_plain(cases, seen, around, known, n - 1);
        lemma_option_plain(cases[n - 1].block, mid, around, known);
    }
}

proof fn lemma_terminal_plain(t: ReactiveTerminal, seen: Seen, around: Set<u32>, known: Set<u32>)
    requires
        covers(seen, around),
        within(after_terminal(t, seen), known),
        terminal_meets(t, around, is_plain(known)),
    ensures
        settled_terminal(t, seen),
    decreases t, 0nat, 0nat,
{
    match t {
        ReactiveTerminal::If { consequent, alternate, .. } => {
            let mid = after_block(consequent@, seen);
            lemma_block_grows(consequent@, seen);
            lemma_option_grows(alternate, mid);
            lemma_block_plain(consequent@, seen, around, known);
            lemma_option_plain(alternate, mid, around, known);
        },
        ReactiveTerminal::Switch { cases, .. } => {
            lemma_cases_plain(cases@, seen, around, known, cases@.len() as int);
        },
        ReactiveTerminal::DoWhile { loop_block, .. } => {
            lemma_block_plain(loop_block@, seen, around, known);
        },
        ReactiveTerminal::While { loop_block, .. } => {
            lemma_block_plain(loop_block@, seen, around, known);
        },
        ReactiveTerminal::For { init, update, loop_block, .. } => {
            let first = after_block(init@, seen);
            let second = after_option(update, first);
            lemma_block_grows(init@, seen);
            lemma_option_grows(update, first);
            lemma_block_grows(loop_block@, second);
            lemma_block_plain(init@, seen, around, known);
            lemma_option_plain(update, first, around, known);
            lemma_block_plain(loop_block@, second, around, known);
        },
        ReactiveTerminal::ForOf { init, loop_block } => {
            let first = after_block(init@, seen);
            lemma_block_grows(init@, seen);
            lemma_block_grows(loop_block@, first);
            lemma_block_plain(init@, seen, around, known);
            lemma_block_plain(loop_block@, first, around, known);
        },
        ReactiveTerminal::ForIn { init, loop_block } => {
            let first = after_block(init@, seen);
            lemma_block_grows(init@, seen);
            lemma_block_grows(loop_block@, first);
            lemma_block_plain(init@, seen, around, known);
            lemma_block_plain(loop_block@, first, around, known);
        },
        ReactiveTerminal::Label { block } => {
            lemma_block_plain(block@, seen, around, known);
        },
        ReactiveTerminal::Try { block, handler, .. } => {
            let first = after_block(block@, seen);
            lemma_block_grows(block@, seen);
            lemma_block_grows(handler@, first);
            lemma_block_plain(block@, seen, around, known);
            lemma_block_plain(handler@, first, around, known);
        },
        _ => {},
    }
}

// ---------------------------------------------------------------------------
// Functions
// ---------------------------------------------------------------------------

/// The variables that the parameters of a function declare.
pub open spec fn of_params(params: Seq<Argument>) -> Set<u32> {
    Set::new(|d: u32| params_declare(params, d))
}

proof fn lemma_start(params: Seq<Argument>, body: Seq<ReactiveStatement>, next: u32)
    ensures
        param_declarations(params, params.len() as int) == of_params(params),
        after_block(
            body,
            Seen { declared: param_declarations(params, params.len() as int), next },
        ).declared == known(params, body),
{
    let all = param_declarations(params, params.len() as int);
    let seen = Seen { declared: all, next };
    assert(params.take(params.len() as int) =~= params);
    assert forall|d: u32| #[trigger] all.contains(d) <==> params_declare(params, d) by {
        lemma_params_declare(params, d, params.len() as int);
    }
    assert(all =~= of_params(params));
    let after = after_block(body, seen).declared;
    assert forall|d: u32| #[trigger] after.contains(d) <==> known(params, body).contains(d) by {
        lemma_block_known(body, seen, d);
    }
    assert(after =~= known(params, body));
}

/// What a scope declares, or a parameter, is not bound anew: after the extraction, no destructuring inside
/// binds both such a variable and one that is declared nowhere. The numbers of the temporaries have to be
/// new.
pub proof fn lemma_declared_is_not_bound_anew(
    params: Seq<Argument>,
    body: Seq<ReactiveStatement>,
    out: Seq<ReactiveStatement>,
    next: u32,
)
    requires
        ({
            let seen = Seen { declared: param_declarations(params, params.len() as int), next };
            &&& block_extracted(body, out, seen)
            &&& new_numbers(known(params, body), next, taken_block(body, seen))
        }),
    ensures
        block_meets(out, of_params(params), binds_nothing_anew(known(params, body))),
{
    let seen = Seen { declared: param_declarations(params, params.len() as int), next };
    lemma_start(params, body, next);
    lemma_block_settled(body, out, seen, next);
    lemma_block_clean(out, again(seen, next), of_params(params), known(params, body));
}

/// A function in which each destructuring binds either variables only that are declared around it, or none
/// that is declared anywhere, stays as it is.
pub proof fn lemma_plain_function_stays(
    params: Seq<Argument>,
    body: Seq<ReactiveStatement>,
    out: Seq<ReactiveStatement>,
    next: u32,
)
    requires
        block_extracted(
            body,
            out,
            Seen { declared: param_declarations(params, params.len() as int), next },
        ),
        block_meets(body, of_params(params), is_plain(known(params, body))),
    ensures
        same_block(body, out),
{
    let seen = Seen { declared: param_declarations(params, params.len() as int), next };
    lemma_start(params, body, next);
    lemma_block_plain(body, seen, of_params(params), known(params, body));
    lemma_block_stays(body, out, seen);
}

// ---------------------------------------------------------------------------
// What the variables get
// ---------------------------------------------------------------------------

/// What variables hold.
pub type Store = Map<u32, int>;

/// The first `n` places get the parts of a value.
pub open spec fn bound(ops: Seq<Place>, parts: spec_fn(int) -> int, n: int, store: Store) -> Store
    decreases n,
{
    if n <= 0 {
        store
    } else {
        bound(ops, parts, n - 1, store).insert(
            ops[n - 1].identifier.declaration_id.0,
            parts(n - 1),
        )
    }
}

/// What a statement does to variables: a destructuring gives them the parts of its value, a store gives one
/// what another one holds.
pub open spec fn performed(s: ReactiveStatement, parts: spec_fn(int) -> int, store: Store) -> Store {
    match s {
        ReactiveStatement::Instruction(instr) => match instr.value {
            InstructionValue::Destructure { lvalue, .. } => bound(
                pattern_operands(lvalue.pattern),
                parts,
                pattern_operands(lvalue.pattern).len() as int,
                store,
            ),
            InstructionValue::StoreLocal { lvalue, value, .. } => store.insert(
                lvalue.place.identifier.declaration_id.0,
                store[value.identifier.declaration_id.0],
            ),
            _ => store,
        },
        _ => store,
    }
}

/// What the `n` statements from `m` on do to variables.
pub open spec fn performed_all(
    out: Seq<ReactiveStatement>,
    m: int,
    n: int,
    parts: spec_fn(int) -> int,
    store: Store,
) -> Store
    decreases n,
{
    if n <= 0 {
        store
    } else {
        performed(out[m + n - 1], parts, performed_all(out, m, n - 1, parts, store))
    }
}

proof fn lemma_bound(ops: Seq<Place>, parts: spec_fn(int) -> int, n: int, store: Store)
    requires
        0 <= n <= ops.len(),
        forall|i: int, j: int|
            0 <= i < j < ops.len() ==> (#[trigger] ops[i]).identifier.declaration_id != (
            #[trigger] ops[j]).identifier.declaration_id,
    ensures
        forall|i: int|
            0 <= i < n ==> bound(ops, parts, n, store)[(
            #[trigger] ops[i]).identifier.declaration_id.0] == parts(i),
    decreases n,
{
    if n > 0 {
        lemma_bound(ops, parts, n - 1, store);
    }
}

proof fn lemma_replaced_at(ops: Seq<Place>, ids: Set<u32>, r: int, n: int) -> (i: int)
    requires
        0 <= n <= ops.len(),
        0 <= r < replaced_places(ops, ids, n).len(),
    ensures
        0 <= i < n,
        ids.contains(ops[i].identifier.id.0),
        replaced_places(ops, ids, n)[r] == ops[i],
        replaced_places(ops, ids, i).len() == r,
    decreases n,
{
    let front = replaced_places(ops, ids, n - 1);
    if r < front.len() {
        lemma_replaced_at(ops, ids, r, n - 1)
    } else {
        n - 1
    }
}

proof fn lemma_replaced_len(ops: Seq<Place>, ids: Set<u32>, i: int, j: int)
    requires
        0 <= i < j <= ops.len(),
    ensures
        replaced_places(ops, ids, i).len() <= replaced_places(ops, ids, j).len(),
        ids.contains(ops[i].identifier.id.0) ==> replaced_places(ops, ids, i).len() < replaced_places(
            ops,
            ids,
            j,
        ).len(),
    decreases j,
{
    if i < j - 1 {
        lemma_replaced_len(ops, ids, i, j - 1);
    }
}

/// A destructuring that is taken apart gives the variables what it gave them before: each variable of the
/// pattern gets its part of the value.
pub proof fn lemma_variables_get_their_parts(
    instr: ReactiveInstruction,
    out: Seq<ReactiveStatement>,
    m: int,
    seen: Seen,
    parts: spec_fn(int) -> int,
    store: Store,
)
    requires
        instruction_extracted(instr, out, m, seen),
        instr.value matches InstructionValue::Destructure { lvalue, .. } && {
            let ops = pattern_operands(lvalue.pattern);
            &&& is_mixed(ops, seen.declared)
            &&& forall|i: int, j: int|
                0 <= i < j < ops.len() ==> (#[trigger] ops[i]).identifier.declaration_id != (
                #[trigger] ops[j]).identifier.declaration_id
            &&& ops.len() < 0x1_0000_0000
            &&& forall|i: int, k: nat|
                0 <= i < ops.len() && k < ops.len() ==> (
                #[trigger] ops[i]).identifier.declaration_id.0 != #[trigger] advanced(seen.next, k)
        },
    ensures
        instr.value matches InstructionValue::Destructure { lvalue, .. } && {
            let ops = pattern_operands(lvalue.pattern);
            let n = replaced_all(ops, seen.declared).len() as int;
            forall|i: int|
                0 <= i < ops.len() ==> performed_all(out, m, 1 + n, parts, store)[(
                #[trigger] ops[i]).identifier.declaration_id.0] == parts(i)
        },
{
    if let InstructionValue::Destructure { lvalue, .. } = instr.value {
        let ops = pattern_operands(lvalue.pattern);
        let ids = reassigned_ids(ops, seen.declared);
        let all = replaced_all(ops, seen.declared);
        lemma_replaced_few(ops, ids, ops.len() as int);
        assert(to_rewrite(instr, seen.declared) == Some(ops));
        assert(is_rewritten(out[m], instr, seen));
        assert(all == replaced_places(ops, ids, ops.len() as int));
        assert forall|r: int| 0 <= r < all.len() implies is_assignment(
            out[m + 1 + r],
            instr,
            #[trigger] all[r],
            advanced(seen.next, r as nat),
        ) by {
            lemma_assignment_at(instr, out, m, seen, r);
        }
        if let ReactiveStatement::Instruction(first) = out[m] {
            if let InstructionValue::Destructure { lvalue: lv, .. } = first.value {
                let after = pattern_operands(lv.pattern);
                assert forall|i: int, j: int| 0 <= i < j < after.len() implies (
                #[trigger] after[i]).identifier.declaration_id != (
                #[trigger] after[j]).identifier.declaration_id by {
                    assert(operand_extracted(ops, ids, seen.next, i, after[i]));
                    assert(operand_extracted(ops, ids, seen.next, j, after[j]));
                    let a = replaced_places(ops, ids, i).len();
                    let b = replaced_places(ops, ids, j).len();
                    lemma_replaced_len(ops, ids, i, ops.len() as int);
                    lemma_replaced_len(ops, ids, j, ops.len() as int);
                    lemma_replaced_len(ops, ids, i, j);
                    if ids.contains(ops[i].identifier.id.0) && ids.contains(ops[j].identifier.id.0) {
                        lemma_numbers_differ(seen.next, a, b);
                    }
                    if ids.contains(ops[i].identifier.id.0) {
                        assert(ops[j].identifier.declaration_id.0 != advanced(seen.next, a));
                    }
                    if ids.contains(ops[j].identifier.id.0) {
                        assert(ops[i].identifier.declaration_id.0 != advanced(seen.next, b));
                    }
                }
                lemma_bound(after, parts, after.len() as int, store);
                assert(performed_all(out, m, 0, parts, store) == store);
                let start = performed_all(out, m, 1, parts, store);
                assert(start == bound(after, parts, after.len() as int, store));
                assert forall|i: int| 0 <= i < ops.len() implies start[
                if ids.contains((#[trigger] ops[i]).identifier.id.0) {
                    advanced(seen.next, replaced_places(ops, ids, i).len())
                } else {
                    ops[i].identifier.declaration_id.0
                }] == parts(i) by {
                    assert(operand_extracted(ops, ids, seen.next, i, after[i]));
                    assert(start[after[i].identifier.declaration_id.0] == parts(i));
                }
                assert forall|r: int|
                    0 <= r < replaced_places(ops, ids, ops.len() as int).len() implies is_assignment(
                    out[m + 1 + r],
                    instr,
                    #[trigger] replaced_places(ops, ids, ops.len() as int)[r],
                    advanced(seen.next, r as nat),
                ) by {
                    assert(is_assignment(out[m + 1 + r], instr, all[r], advanced(seen.next, r as nat)));
                }
                lemma_stores(instr, ops, ids, out, m, seen, parts, store, all.len() as int);
            }
        }
    }
}

proof fn lemma_assignment_at(
    instr: ReactiveInstruction,
    out: Seq<ReactiveStatement>,
    m: int,
    seen: Seen,
    r: int,
)
    requires
        instruction_extracted(instr, out, m, seen),
        to_rewrite(instr, seen.declared) is Some,
        0 <= r < replaced_all(to_rewrite(instr, seen.declared)->0, seen.declared).len(),
    ensures
        is_assignment(
            out[m + 1 + r],
            instr,
            replaced_all(to_rewrite(instr, seen.declared)->0, seen.declared)[r],
            advanced(seen.next, r as nat),
        ),
{
    if let Some(ops) = to_rewrite(instr, seen.declared) {
        assert(is_assignment(
            out[m + 1 + r],
            instr,
            replaced_all(ops, seen.declared)[r],
            advanced(seen.next, r as nat),
        ));
    }
}

proof fn lemma_replaced_few(ops: Seq<Place>, ids: Set<u32>, n: int)
    requires
        0 <= n <= ops.len(),
    ensures
        replaced_places(ops, ids, n).len() <= n,
    decreases n,
{
    if n > 0 {
        lemma_replaced_few(ops, ids, n - 1);
    }
}

/// Where the part of the operand at `i` is after the first `n` assignments.
pub open spec fn where_is(ops: Seq<Place>, ids: Set<u32>, next: u32, i: int, n: int) -> u32 {
    let k = replaced_places(ops, ids, i).len();
    if ids.contains(ops[i].identifier.id.0) && k >= n {
        advanced(next, k)
    } else {
        ops[i].identifier.declaration_id.0
    }
}

proof fn lemma_stores(
    instr: ReactiveInstruction,
    ops: Seq<Place>,
    ids: Set<u32>,
    out: Seq<ReactiveStatement>,
    m: int,
    seen: Seen,
    parts: spec_fn(int) -> int,
    store: Store,
    n: int,
)
    requires
        0 <= n <= replaced_places(ops, ids, ops.len() as int).len(),
        forall|r: int|
            0 <= r < replaced_places(ops, ids, ops.len() as int).len() ==> is_assignment(
                out[m + 1 + r],
                instr,
                #[trigger] replaced_places(ops, ids, ops.len() as int)[r],
                advanced(seen.next, r as nat),
            ),
        ops.len() < 0x1_0000_0000,
        forall|i: int, j: int|
            0 <= i < j < ops.len() ==> (#[trigger] ops[i]).identifier.declaration_id != (
            #[trigger] ops[j]).identifier.declaration_id,
        forall|i: int, k: nat|
            0 <= i < ops.len() && k < ops.len() ==> (#[trigger] ops[i]).identifier.declaration_id.0
                != #[trigger] advanced(seen.next, k),
        forall|i: int|
            0 <= i < ops.len() ==> performed_all(out, m, 1, parts, store)[
            if ids.contains((#[trigger] ops[i]).identifier.id.0) {
                advanced(seen.next, replaced_places(ops, ids, i).len())
            } else {
                ops[i].identifier.declaration_id.0
            }] == parts(i),
    ensures
        forall|i: int|
            0 <= i < ops.len() ==> performed_all(out, m, 1 + n, parts, store)[#[trigger] where_is(
                ops,
                ids,
                seen.next,
                i,
                n,
            )] == parts(i),
        n == replaced_places(ops, ids, ops.len() as int).len() ==> forall|i: int|
            0 <= i < ops.len() ==> performed_all(out, m, 1 + n, parts, store)[(
            #[trigger] ops[i]).identifier.declaration_id.0] == parts(i),
    decreases n,
{
    let last = ops.len() as int;
    lemma_replaced_few(ops, ids, last);
    let now = performed_all(out, m, 1 + n, parts, store);
    if n > 0 {
        lemma_stores(instr, ops, ids, out, m, seen, parts, store, n - 1);
        let before = performed_all(out, m, n, parts, store);
        let all = replaced_places(ops, ids, last);
        let r = n - 1;
        let a = lemma_replaced_at(ops, ids, r, last);
        assert(is_assignment(out[m + 1 + r], instr, all[r], advanced(seen.next, r as nat)));
        assert(now == performed(out[m + 1 + r], parts, before));
        assert(where_is(ops, ids, seen.next, a, r) == advanced(seen.next, r as nat));
        assert(before[advanced(seen.next, r as nat)] == parts(a));
        assert(now == before.insert(ops[a].identifier.declaration_id.0, parts(a)));
        assert forall|i: int| 0 <= i < ops.len() implies now[#[trigger] where_is(
            ops,
            ids,
            seen.next,
            i,
            n,
        )] == parts(i) by {
            let k = replaced_places(ops, ids, i).len();
            lemma_replaced_few(ops, ids, i);
            assert(before[where_is(ops, ids, seen.next, i, r)] == parts(i));
            if i != a {
                if ids.contains(ops[i].identifier.id.0) {
                    if i < a {
                        lemma_replaced_len(ops, ids, i, a);
                    } else {
                        lemma_replaced_len(ops, ids, a, i);
                    }
                    assert(k != r);
                }
                assert(where_is(ops, ids, seen.next, i, n) == where_is(ops, ids, seen.next, i, r));
                if ids.contains(ops[i].identifier.id.0) && k >= n {
                    assert(ops[a].identifier.declaration_id.0 != advanced(seen.next, k));
                } else if i < a {
                    assert(ops[i].identifier.declaration_id != ops[a].identifier.declaration_id);
                } else {
                    assert(ops[a].identifier.declaration_id != ops[i].identifier.declaration_id);
                }
            }
        }
    } else {
        assert forall|i: int| 0 <= i < ops.len() implies now[#[trigger] where_is(
            ops,
            ids,
            seen.next,
            i,
            n,
        )] == parts(i) by {
            let p = ops[i];
        }
    }
    if n == replaced_places(ops, ids, last).len() {
        assert forall|i: int| 0 <= i < ops.len() implies now[(
        #[trigger] ops[i]).identifier.declaration_id.0] == parts(i) by {
            lemma_replaced_len(ops, ids, i, last);
            assert(where_is(ops, ids, seen.next, i, n) == ops[i].identifier.declaration_id.0);
        }
    }
}

} // verus!
