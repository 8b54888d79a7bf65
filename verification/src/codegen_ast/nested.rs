//! What the statements of a block hold at any depth: property loads, and references to variables.

use vstd::prelude::*;

use crate::codegen::reads::{pattern_reads, push_pattern_reads};
use crate::collections::IdSet;
use crate::extract_scope_destructuring::{each_pattern_operand, pattern_operands};
use crate::graph::{operands, operands_of, pointees, refs_are};
use crate::hir::{
    Identifier, InstructionValue, Place, ReactiveInstruction, ReactiveScope,
    ReactiveScopeDependency, ReactiveStatement, ReactiveSwitchCase, ReactiveTerminal,
};

verus! {

// ---------------------------------------------------------------------------
// Property loads
// ---------------------------------------------------------------------------

/// Whether a value loads a property, at any depth of the values that it is made of.
pub open spec fn loads_property(value: InstructionValue) -> bool
    decreases value, 0int,
{
    match value {
        InstructionValue::PropertyLoad { .. } => true,
        InstructionValue::ComputedLoad { .. } => true,
        InstructionValue::ReactiveOptionalExpression { value, .. } => loads_property(*value),
        InstructionValue::ReactiveSequenceExpression { instructions, value } => {
            instrs_load_property(instructions@, instructions@.len() as int) || loads_property(
                *value,
            )
        },
        InstructionValue::ReactiveLogicalExpression { left, right, .. } => loads_property(*left)
            || loads_property(*right),
        InstructionValue::ReactiveConditionalExpression { test, consequent, alternate } => {
            loads_property(*test) || loads_property(*consequent) || loads_property(*alternate)
        },
        _ => false,
    }
}

/// Whether one of the first `n` instructions loads a property.
pub open spec fn instrs_load_property(instrs: Seq<ReactiveInstruction>, n: int) -> bool
    decreases instrs, n,
{
    if n <= 0 || n > instrs.len() {
        false
    } else {
        instrs_load_property(instrs, n - 1) || loads_property(instrs[n - 1].value)
    }
}

pub fn value_has_any_property_load(value: &InstructionValue) -> (r: bool)
    ensures
        r == loads_property(*value),
    decreases value, 0int,
{
    match value {
        InstructionValue::PropertyLoad { .. } => true,
        InstructionValue::ComputedLoad { .. } => true,
        InstructionValue::ReactiveOptionalExpression { value, .. } => {
            value_has_any_property_load(value)
        },
        InstructionValue::ReactiveSequenceExpression { instructions: instrs, value } => {
            any_property_load(instrs) || value_has_any_property_load(value)
        },
        InstructionValue::ReactiveLogicalExpression { left, right, .. } => {
            value_has_any_property_load(left) || value_has_any_property_load(right)
        },
        InstructionValue::ReactiveConditionalExpression { test, consequent, alternate } => {
            value_has_any_property_load(test) || value_has_any_property_load(consequent)
                || value_has_any_property_load(alternate)
        },
        _ => false,
    }
}

fn any_property_load(instrs: &Vec<ReactiveInstruction>) -> (r: bool)
    ensures
        r == instrs_load_property(instrs@, instrs@.len() as int),
    decreases instrs, 0int,
{
    let mut found = false;
    let mut i: usize = 0;
    while i < instrs.len()
        invariant
            i <= instrs@.len(),
            found == instrs_load_property(instrs@, i as int),
        decreases instrs@.len() - i,
    {
        assert(decreases_to!(instrs => instrs@));
        assert(decreases_to!(instrs@ => instrs@[i as int]));
        let here = value_has_any_property_load(&instrs[i].value);
        found = found || here;
        i = i + 1;
    }
    found
}

/// Whether a statement loads a property, at any depth.
pub open spec fn stmt_loads_property(s: ReactiveStatement) -> bool
    decreases s, 0nat, 0nat,
{
    match s {
        ReactiveStatement::Instruction(instr) => loads_property(instr.value),
        ReactiveStatement::Scope(b) => block_loads_property(b.instructions@),
        ReactiveStatement::PrunedScope(b) => block_loads_property(b.instructions@),
        ReactiveStatement::Terminal(t) => terminal_loads_property(t.terminal),
    }
}

/// Whether one of the first `n` statements loads a property, at any depth.
pub open spec fn stmts_load_property(block: Seq<ReactiveStatement>, n: int) -> bool
    decreases block, 0nat, n,
{
    if n <= 0 || n > block.len() {
        false
    } else {
        stmts_load_property(block, n - 1) || stmt_loads_property(block[n - 1])
    }
}

/// Whether a block loads a property, at any depth.
pub open spec fn block_loads_property(block: Seq<ReactiveStatement>) -> bool
    decreases block, 1nat, 0nat,
{
    stmts_load_property(block, block.len() as int)
}

pub open spec fn option_loads_property(block: Option<Vec<ReactiveStatement>>) -> bool
    decreases block, 0nat, 0nat,
{
    match block {
        Some(b) => block_loads_property(b@),
        None => false,
    }
}

pub open spec fn cases_load_property(cases: Seq<ReactiveSwitchCase>, n: int) -> bool
    decreases cases, 0nat, n,
{
    if n <= 0 || n > cases.len() {
        false
    } else {
        cases_load_property(cases, n - 1) || option_loads_property(cases[n - 1].block)
    }
}

pub open spec fn update_loads_property(value: Option<Box<InstructionValue>>) -> bool {
    value matches Some(v) && loads_property(*v)
}

pub open spec fn terminal_loads_property(t: ReactiveTerminal) -> bool
    decreases t, 0nat, 0nat,
{
    match t {
        ReactiveTerminal::If { consequent, alternate, .. } => block_loads_property(consequent@)
            || option_loads_property(alternate),
        ReactiveTerminal::Switch { cases, .. } => cases_load_property(cases@, cases@.len() as int),
        ReactiveTerminal::For { init, update, update_value, loop_block, .. } => {
            block_loads_property(init@) || option_loads_property(update) || update_loads_property(
                update_value,
            ) || block_loads_property(loop_block@)
        },
        ReactiveTerminal::While { loop_block, .. } => block_loads_property(loop_block@),
        ReactiveTerminal::DoWhile { loop_block, .. } => block_loads_property(loop_block@),
        ReactiveTerminal::ForOf { init, loop_block } => block_loads_property(init@)
            || block_loads_property(loop_block@),
        ReactiveTerminal::ForIn { init, loop_block } => block_loads_property(init@)
            || block_loads_property(loop_block@),
        ReactiveTerminal::Label { block } => block_loads_property(block@),
        ReactiveTerminal::Try { block, handler, .. } => block_loads_property(block@)
            || block_loads_property(handler@),
        _ => false,
    }
}

/// Checks if a block loads a property, at any depth.
pub fn body_has_any_property_loads(instructions: &Vec<ReactiveStatement>) -> (r: bool)
    ensures
        r == block_loads_property(instructions@),
    decreases instructions, 0nat,
{
    let mut found = false;
    let mut i: usize = 0;
    while i < instructions.len()
        invariant
            i <= instructions@.len(),
            found == stmts_load_property(instructions@, i as int),
        decreases instructions@.len() - i,
    {
        assert(decreases_to!(instructions => instructions@));
        assert(decreases_to!(instructions@ => instructions@[i as int]));
        let here = match &instructions[i] {
            ReactiveStatement::Instruction(instr) => value_has_any_property_load(&instr.value),
            ReactiveStatement::Scope(b) => body_has_any_property_loads(&b.instructions),
            ReactiveStatement::PrunedScope(b) => body_has_any_property_loads(&b.instructions),
            ReactiveStatement::Terminal(t) => terminal_has_property_loads(&t.terminal),
        };
        assert(here == stmt_loads_property(instructions@[i as int]));
        found = found || here;
        i = i + 1;
    }
    found
}

fn option_has_property_loads(block: &Option<Vec<ReactiveStatement>>) -> (r: bool)
    ensures
        r == option_loads_property(*block),
    decreases block, 0nat,
{
    match block {
        Some(b) => body_has_any_property_loads(b),
        None => false,
    }
}

fn cases_have_property_loads(cases: &Vec<ReactiveSwitchCase>) -> (r: bool)
    ensures
        r == cases_load_property(cases@, cases@.len() as int),
    decreases cases, 0nat,
{
    let mut found = false;
    let mut i: usize = 0;
    while i < cases.len()
        invariant
            i <= cases@.len(),
            found == cases_load_property(cases@, i as int),
        decreases cases@.len() - i,
    {
        assert(decreases_to!(cases => cases@));
        assert(decreases_to!(cases@ => cases@[i as int]));
        assert(decreases_to!(cases@[i as int] => cases@[i as int].block));
        let here = option_has_property_loads(&cases[i].block);
        found = found || here;
        i = i + 1;
    }
    found
}

fn terminal_has_property_loads(terminal: &ReactiveTerminal) -> (r: bool)
    ensures
        r == terminal_loads_property(*terminal),
    decreases terminal, 0nat,
{
    match terminal {
        ReactiveTerminal::If { consequent, alternate, .. } => {
            body_has_any_property_loads(consequent) || option_has_property_loads(alternate)
        },
        ReactiveTerminal::Switch { cases, .. } => cases_have_property_loads(cases),
        ReactiveTerminal::For { init, update, update_value, loop_block, .. } => {
            let updates = match update_value {
                Some(v) => value_has_any_property_load(v),
                None => false,
            };
            body_has_any_property_loads(init) || option_has_property_loads(update) || updates
                || body_has_any_property_loads(loop_block)
        },
        ReactiveTerminal::While { loop_block, .. } => body_has_any_property_loads(loop_block),
        ReactiveTerminal::DoWhile { loop_block, .. } => body_has_any_property_loads(loop_block),
        ReactiveTerminal::ForOf { init, loop_block } => body_has_any_property_loads(init)
            || body_has_any_property_loads(loop_block),
        ReactiveTerminal::ForIn { init, loop_block } => body_has_any_property_loads(init)
            || body_has_any_property_loads(loop_block),
        ReactiveTerminal::Label { block } => body_has_any_property_loads(block),
        ReactiveTerminal::Try { block, handler, .. } => body_has_any_property_loads(block)
            || body_has_any_property_loads(handler),
        _ => false,
    }
}

// ---------------------------------------------------------------------------
// References
// ---------------------------------------------------------------------------

pub open spec fn place_decls(places: Seq<Place>) -> Set<u32> {
    Set::new(
        |d: u32|
            exists|i: int|
                0 <= i < places.len() && (#[trigger] places[i]).identifier.declaration_id.0 == d,
    )
}

/// The places that a value assigns to.
pub open spec fn target_places(value: InstructionValue) -> Seq<Place> {
    match value {
        InstructionValue::StoreLocal { lvalue, .. } => seq![lvalue.place],
        InstructionValue::Destructure { lvalue, .. } => pattern_operands(lvalue.pattern)
            + pattern_reads(lvalue.pattern),
        InstructionValue::PrefixUpdate { lvalue, .. } => seq![lvalue],
        InstructionValue::PostfixUpdate { lvalue, .. } => seq![lvalue],
        _ => Seq::empty(),
    }
}

/// The variables that a value reads, assigns to or captures, at any depth of the values that it is made
/// of.
pub open spec fn value_mentions(value: InstructionValue) -> Set<u32>
    decreases value, 0int,
{
    match value {
        InstructionValue::ReactiveOptionalExpression { value, .. } => value_mentions(*value),
        InstructionValue::ReactiveSequenceExpression { instructions, value } => {
            instrs_mentions(instructions@, instructions@.len() as int).union(value_mentions(*value))
        },
        InstructionValue::ReactiveLogicalExpression { left, right, .. } => value_mentions(
            *left,
        ).union(value_mentions(*right)),
        InstructionValue::ReactiveConditionalExpression { test, consequent, alternate } => {
            value_mentions(*test).union(value_mentions(*consequent)).union(
                value_mentions(*alternate),
            )
        },
        _ => place_decls(operands(value)).union(place_decls(target_places(value))),
    }
}

/// The variables that the first `n` instructions mention.
pub open spec fn instrs_mentions(instrs: Seq<ReactiveInstruction>, n: int) -> Set<u32>
    decreases instrs, n,
{
    if n <= 0 || n > instrs.len() {
        Set::empty()
    } else {
        instrs_mentions(instrs, n - 1).union(value_mentions(instrs[n - 1].value))
    }
}

pub open spec fn dependency_decls(deps: Seq<ReactiveScopeDependency>, n: int) -> Set<u32>
    decreases n,
{
    if n <= 0 {
        Set::empty()
    } else {
        dependency_decls(deps, n - 1).insert(deps[n - 1].identifier.declaration_id.0)
    }
}

pub open spec fn identifier_decls(idents: Seq<Identifier>, n: int) -> Set<u32>
    decreases n,
{
    if n <= 0 {
        Set::empty()
    } else {
        identifier_decls(idents, n - 1).insert(idents[n - 1].declaration_id.0)
    }
}

/// The variables that a scope depends on or assigns to.
pub open spec fn scope_mentions(scope: ReactiveScope) -> Set<u32> {
    dependency_decls(scope.dependencies@, scope.dependencies@.len() as int).union(
        identifier_decls(scope.reassignments@, scope.reassignments@.len() as int),
    )
}

/// The variables that a statement mentions, at any depth.
pub open spec fn stmt_mentions(s: ReactiveStatement) -> Set<u32>
    decreases s, 0nat, 0nat,
{
    match s {
        ReactiveStatement::Instruction(instr) => value_mentions(instr.value),
        ReactiveStatement::Scope(b) => scope_mentions(b.scope).union(
            block_mentions(b.instructions@),
        ),
        ReactiveStatement::PrunedScope(b) => scope_mentions(b.scope).union(
            block_mentions(b.instructions@),
        ),
        ReactiveStatement::Terminal(t) => terminal_mentions(t.terminal),
    }
}

/// The variables that the first `n` statements mention, at any depth.
pub open spec fn stmts_mentions(block: Seq<ReactiveStatement>, n: int) -> Set<u32>
    decreases block, 0nat, n,
{
    if n <= 0 || n > block.len() {
        Set::empty()
    } else {
        stmts_mentions(block, n - 1).union(stmt_mentions(block[n - 1]))
    }
}

pub open spec fn block_mentions(block: Seq<ReactiveStatement>) -> Set<u32>
    decreases block, 1nat, 0nat,
{
    stmts_mentions(block, block.len() as int)
}

pub open spec fn option_mentions(block: Option<Vec<ReactiveStatement>>) -> Set<u32>
    decreases block, 0nat, 0nat,
{
    match block {
        Some(b) => block_mentions(b@),
        None => Set::empty(),
    }
}

pub open spec fn optional_decl(place: Option<Place>) -> Set<u32> {
    match place {
        Some(p) => Set::empty().insert(p.identifier.declaration_id.0),
        None => Set::empty(),
    }
}

pub open spec fn cases_mentions(cases: Seq<ReactiveSwitchCase>, n: int) -> Set<u32>
    decreases cases, 0nat, n,
{
    if n <= 0 || n > cases.len() {
        Set::empty()
    } else {
        cases_mentions(cases, n - 1).union(optional_decl(cases[n - 1].test)).union(
            option_mentions(cases[n - 1].block),
        )
    }
}

pub open spec fn update_mentions(value: Option<Box<InstructionValue>>) -> Set<u32> {
    match value {
        Some(v) => value_mentions(*v),
        None => Set::empty(),
    }
}

pub open spec fn terminal_mentions(t: ReactiveTerminal) -> Set<u32>
    decreases t, 0nat, 0nat,
{
    match t {
        ReactiveTerminal::Return { value } => optional_decl(Some(value)),
        ReactiveTerminal::Throw { value } => optional_decl(Some(value)),
        ReactiveTerminal::If { test, consequent, alternate } => optional_decl(Some(test)).union(
            block_mentions(consequent@),
        ).union(option_mentions(alternate)),
        ReactiveTerminal::Switch { test, cases } => optional_decl(Some(test)).union(
            cases_mentions(cases@, cases@.len() as int),
        ),
        ReactiveTerminal::DoWhile { loop_block, test } => block_mentions(loop_block@).union(
            optional_decl(Some(test)),
        ),
        ReactiveTerminal::While { test, loop_block } => optional_decl(Some(test)).union(
            block_mentions(loop_block@),
        ),
        ReactiveTerminal::For { init, test, update, update_value, loop_block } => {
            block_mentions(init@).union(optional_decl(Some(test))).union(
                option_mentions(update),
            ).union(update_mentions(update_value)).union(block_mentions(loop_block@))
        },
        ReactiveTerminal::ForOf { init, loop_block } => block_mentions(init@).union(
            block_mentions(loop_block@),
        ),
        ReactiveTerminal::ForIn { init, loop_block } => block_mentions(init@).union(
            block_mentions(loop_block@),
        ),
        ReactiveTerminal::Label { block } => block_mentions(block@),
        ReactiveTerminal::Try { block, handler, .. } => block_mentions(block@).union(
            block_mentions(handler@),
        ),
        _ => Set::empty(),
    }
}

fn add_places(places: &Vec<&Place>, refs: &mut IdSet)
    ensures
        final(refs)@ == old(refs)@.union(place_decls(pointees(places@))),
{
    let ghost all = pointees(places@);
    let ghost start = refs@;
    let mut i: usize = 0;
    while i < places.len()
        invariant
            all == pointees(places@),
            i <= places@.len(),
            forall|d: u32| #[trigger]
                refs@.contains(d) <==> start.contains(d) || exists|k: int|
                    0 <= k < i && (#[trigger] all[k]).identifier.declaration_id.0 == d,
        decreases places@.len() - i,
    {
        let ghost before = refs@;
        refs.insert(places[i].identifier.declaration_id.0);
        proof {
            assert forall|d: u32| #[trigger] refs@.contains(d) <==> start.contains(d) || exists|
                k: int,
            |
                0 <= k < i + 1 && (#[trigger] all[k]).identifier.declaration_id.0 == d by {
                if before.contains(d) && !start.contains(d) {
                    let k = choose|k: int|
                        0 <= k < i && (#[trigger] all[k]).identifier.declaration_id.0 == d;
                    assert(all[k].identifier.declaration_id.0 == d);
                }
                if d == all[i as int].identifier.declaration_id.0 {
                    assert(0 <= i < i + 1);
                }
                if exists|k: int|
                    0 <= k < i + 1 && (#[trigger] all[k]).identifier.declaration_id.0 == d {
                    let k = choose|k: int|
                        0 <= k < i + 1 && (#[trigger] all[k]).identifier.declaration_id.0 == d;
                    if k < i {
                        assert(before.contains(d));
                    }
                }
            }
        }
        i = i + 1;
    }
    proof {
        assert(refs@ =~= start.union(place_decls(all)));
    }
}

fn add_targets(value: &InstructionValue, refs: &mut IdSet)
    ensures
        final(refs)@ == old(refs)@.union(place_decls(target_places(*value))),
{
    let mut places: Vec<&Place> = Vec::new();
    match value {
        InstructionValue::StoreLocal { lvalue, .. } => {
            places.push(&lvalue.place);
        },
        InstructionValue::Destructure { lvalue, .. } => {
            places = each_pattern_operand(&lvalue.pattern);
            assert(refs_are(places@, pattern_operands(lvalue.pattern)));
            push_pattern_reads(&mut places, &lvalue.pattern);
        },
        InstructionValue::PrefixUpdate { lvalue, .. } => {
            places.push(lvalue);
        },
        InstructionValue::PostfixUpdate { lvalue, .. } => {
            places.push(lvalue);
        },
        _ => {},
    }
    proof {
        assert(pointees(places@) =~= target_places(*value));
    }
    add_places(&places, refs);
}

/// Adds the variables that a value mentions.
pub fn collect_value_mentions(value: &InstructionValue, refs: &mut IdSet)
    ensures
        final(refs)@ == old(refs)@.union(value_mentions(*value)),
    decreases value, 0int,
{
    match value {
        InstructionValue::ReactiveOptionalExpression { value, .. } => {
            collect_value_mentions(value, refs);
        },
        InstructionValue::ReactiveSequenceExpression { instructions: instrs, value } => {
            collect_instrs_mentions(instrs, refs);
            collect_value_mentions(value, refs);
        },
        InstructionValue::ReactiveLogicalExpression { left, right, .. } => {
            collect_value_mentions(left, refs);
            collect_value_mentions(right, refs);
        },
        InstructionValue::ReactiveConditionalExpression { test, consequent, alternate } => {
            collect_value_mentions(test, refs);
            collect_value_mentions(consequent, refs);
            collect_value_mentions(alternate, refs);
        },
        _ => {
            let places = operands_of(value);
            assert(pointees(places@) =~= operands(*value));
            add_places(&places, refs);
            add_targets(value, refs);
        },
    }
    proof {
        assert(refs@ =~= old(refs)@.union(value_mentions(*value)));
    }
}

fn collect_instrs_mentions(instrs: &Vec<ReactiveInstruction>, refs: &mut IdSet)
    ensures
        final(refs)@ == old(refs)@.union(instrs_mentions(instrs@, instrs@.len() as int)),
    decreases instrs, 0int,
{
    let ghost start = refs@;
    let mut i: usize = 0;
    proof {
        assert(refs@ =~= start.union(Set::empty()));
    }
    while i < instrs.len()
        invariant
            i <= instrs@.len(),
            refs@ == start.union(instrs_mentions(instrs@, i as int)),
        decreases instrs@.len() - i,
    {
        assert(decreases_to!(instrs => instrs@));
        assert(decreases_to!(instrs@ => instrs@[i as int]));
        collect_value_mentions(&instrs[i].value, refs);
        proof {
            assert(refs@ =~= start.union(instrs_mentions(instrs@, i as int + 1)));
        }
        i = i + 1;
    }
}

fn collect_scope_mentions(scope: &ReactiveScope, refs: &mut IdSet)
    ensures
        final(refs)@ == old(refs)@.union(scope_mentions(*scope)),
{
    let ghost start = refs@;
    let mut i: usize = 0;
    proof {
        assert(refs@ =~= start.union(Set::empty()));
    }
    while i < scope.dependencies.len()
        invariant
            i <= scope.dependencies@.len(),
            refs@ == start.union(dependency_decls(scope.dependencies@, i as int)),
        decreases scope.dependencies@.len() - i,
    {
        refs.insert(scope.dependencies[i].identifier.declaration_id.0);
        proof {
            assert(refs@ =~= start.union(dependency_decls(scope.dependencies@, i as int + 1)));
        }
        i = i + 1;
    }
    let ghost mid = refs@;
    i = 0;
    proof {
        assert(refs@ =~= mid.union(Set::empty()));
    }
    while i < scope.reassignments.len()
        invariant
            i <= scope.reassignments@.len(),
            refs@ == mid.union(identifier_decls(scope.reassignments@, i as int)),
        decreases scope.reassignments@.len() - i,
    {
        refs.insert(scope.reassignments[i].declaration_id.0);
        proof {
            assert(refs@ =~= mid.union(identifier_decls(scope.reassignments@, i as int + 1)));
        }
        i = i + 1;
    }
    proof {
        assert(refs@ =~= start.union(scope_mentions(*scope)));
    }
}

/// Adds the variables that a statement mentions, at any depth.
pub fn collect_stmt_mentions(s: &ReactiveStatement, refs: &mut IdSet)
    ensures
        final(refs)@ == old(refs)@.union(stmt_mentions(*s)),
    decreases s, 0nat,
{
    match s {
        ReactiveStatement::Instruction(instr) => {
            collect_value_mentions(&instr.value, refs);
        },
        ReactiveStatement::Scope(b) => {
            collect_scope_mentions(&b.scope, refs);
            collect_block_mentions(&b.instructions, refs);
        },
        ReactiveStatement::PrunedScope(b) => {
            collect_scope_mentions(&b.scope, refs);
            collect_block_mentions(&b.instructions, refs);
        },
        ReactiveStatement::Terminal(t) => {
            collect_terminal_mentions(&t.terminal, refs);
        },
    }
    proof {
        assert(refs@ =~= old(refs)@.union(stmt_mentions(*s)));
    }
}

fn collect_block_mentions(block: &Vec<ReactiveStatement>, refs: &mut IdSet)
    ensures
        final(refs)@ == old(refs)@.union(block_mentions(block@)),
    decreases block, 0nat,
{
    let ghost start = refs@;
    let mut i: usize = 0;
    proof {
        assert(refs@ =~= start.union(Set::empty()));
    }
    while i < block.len()
        invariant
            i <= block@.len(),
            refs@ == start.union(stmts_mentions(block@, i as int)),
        decreases block@.len() - i,
    {
        assert(decreases_to!(block => block@));
        assert(decreases_to!(block@ => block@[i as int]));
        collect_stmt_mentions(&block[i], refs);
        proof {
            assert(refs@ =~= start.union(stmts_mentions(block@, i as int + 1)));
        }
        i = i + 1;
    }
}

fn collect_option_mentions(block: &Option<Vec<ReactiveStatement>>, refs: &mut IdSet)
    ensures
        final(refs)@ == old(refs)@.union(option_mentions(*block)),
    decreases block, 0nat,
{
    if let Some(b) = block {
        collect_block_mentions(b, refs);
    }
    proof {
        assert(refs@ =~= old(refs)@.union(option_mentions(*block)));
    }
}

fn collect_cases_mentions(cases: &Vec<ReactiveSwitchCase>, refs: &mut IdSet)
    ensures
        final(refs)@ == old(refs)@.union(cases_mentions(cases@, cases@.len() as int)),
    decreases cases, 0nat,
{
    let ghost start = refs@;
    let mut i: usize = 0;
    proof {
        assert(refs@ =~= start.union(Set::empty()));
    }
    while i < cases.len()
        invariant
            i <= cases@.len(),
            refs@ == start.union(cases_mentions(cases@, i as int)),
        decreases cases@.len() - i,
    {
        assert(decreases_to!(cases => cases@));
        assert(decreases_to!(cases@ => cases@[i as int]));
        assert(decreases_to!(cases@[i as int] => cases@[i as int].block));
        if let Some(p) = &cases[i].test {
            refs.insert(p.identifier.declaration_id.0);
        }
        collect_option_mentions(&cases[i].block, refs);
        proof {
            assert(refs@ =~= start.union(cases_mentions(cases@, i as int + 1)));
        }
        i = i + 1;
    }
}

fn collect_terminal_mentions(terminal: &ReactiveTerminal, refs: &mut IdSet)
    ensures
        final(refs)@ == old(refs)@.union(terminal_mentions(*terminal)),
    decreases terminal, 0nat,
{
    match terminal {
        ReactiveTerminal::Return { value } => {
            refs.insert(value.identifier.declaration_id.0);
        },
        ReactiveTerminal::Throw { value } => {
            refs.insert(value.identifier.declaration_id.0);
        },
        ReactiveTerminal::If { test, consequent, alternate } => {
            refs.insert(test.identifier.declaration_id.0);
            collect_block_mentions(consequent, refs);
            collect_option_mentions(alternate, refs);
        },
        ReactiveTerminal::Switch { test, cases } => {
            refs.insert(test.identifier.declaration_id.0);
            collect_cases_mentions(cases, refs);
        },
        ReactiveTerminal::DoWhile { loop_block, test } => {
            collect_block_mentions(loop_block, refs);
            refs.insert(test.identifier.declaration_id.0);
        },
        ReactiveTerminal::While { test, loop_block } => {
            refs.insert(test.identifier.declaration_id.0);
            collect_block_mentions(loop_block, refs);
        },
        ReactiveTerminal::For { init, test, update, update_value, loop_block } => {
            collect_block_mentions(init, refs);
            refs.insert(test.identifier.declaration_id.0);
            collect_option_mentions(update, refs);
            if let Some(v) = update_value {
                collect_value_mentions(v, refs);
            }
            collect_block_mentions(loop_block, refs);
        },
        ReactiveTerminal::ForOf { init, loop_block } => {
            collect_block_mentions(init, refs);
            collect_block_mentions(loop_block, refs);
        },
        ReactiveTerminal::ForIn { init, loop_block } => {
            collect_block_mentions(init, refs);
            collect_block_mentions(loop_block, refs);
        },
        ReactiveTerminal::Label { block } => {
            collect_block_mentions(block, refs);
        },
        ReactiveTerminal::Try { block, handler, .. } => {
            collect_block_mentions(block, refs);
            collect_block_mentions(handler, refs);
        },
        _ => {},
    }
    proof {
        assert(refs@ =~= old(refs)@.union(terminal_mentions(*terminal)));
    }
}

} // verus!
