//! Extraction of scope declarations from destructuring patterns.
//!
//! A destructuring can bind variables that a scope around it or before it declares, and which are
//! declared with `let` in front of that scope, together with variables that are new. Both cannot be one
//! statement. Such a destructuring is rewritten: the variables that are declared already are replaced by
//! fresh temporaries, and an assignment from the temporary follows for each of them.

pub mod laws;
pub mod meaning;

use vstd::prelude::*;

use crate::collections::{reversed, IdSet};
use crate::graph::{element_places, pointees};
use crate::hir::{
    Argument, ArrayElement, ArrayPattern, DeclarationId, Identifier, IdentifierId, IdentifierName,
    InstructionKind, InstructionValue, LValue, LValuePattern, MutableRange, ObjectPattern,
    ObjectProperty, ObjectPropertyOrSpread, Pattern, Place, ReactiveFunction, ReactiveInstruction,
    ReactiveScopeBlock, ReactiveStatement, ReactiveSwitchCase, ReactiveTerminal,
    ReactiveTerminalStatement, ScopeDeclaration,
};
use crate::codegen::reads::property_values;
use crate::text::{cat2, decimal, decimal_text};

verus! {

// ---------------------------------------------------------------------------
// Numbers of temporaries
// ---------------------------------------------------------------------------

/// The number behind `n`; the first one behind the last.
pub open spec fn next_id(n: u32) -> u32 {
    if n == u32::MAX {
        0
    } else {
        (n + 1) as u32
    }
}

/// The number `k` places behind `n`.
pub open spec fn advanced(n: u32, k: nat) -> u32
    decreases k,
{
    if k == 0 {
        n
    } else {
        next_id(advanced(n, (k - 1) as nat))
    }
}

fn take_id(next: &mut u32) -> (id: u32)
    ensures
        id == *old(next),
        *final(next) == next_id(*old(next)),
{
    let id: u32 = *next;
    if id == u32::MAX {
        *next = 0;
    } else {
        *next = id + 1;
    }
    id
}

// ---------------------------------------------------------------------------
// Patterns
// ---------------------------------------------------------------------------

/// The places that a pattern binds.
pub open spec fn pattern_operands(pattern: Pattern) -> Seq<Place> {
    match pattern {
        Pattern::Array(a) => element_places(a.items@, a.items@.len() as int),
        Pattern::Object(o) => property_values(o.properties@),
    }
}

pub open spec fn is_declared(declared: Set<u32>, p: Place) -> bool {
    declared.contains(p.identifier.declaration_id.0)
}

/// Whether a pattern binds both variables that are declared and variables that are not.
pub open spec fn is_mixed(ops: Seq<Place>, declared: Set<u32>) -> bool {
    (exists|i: int| 0 <= i < ops.len() && is_declared(declared, #[trigger] ops[i])) && (exists|i: int|
        0 <= i < ops.len() && !is_declared(declared, #[trigger] ops[i]))
}

/// The identifiers of a pattern that are declared already.
pub open spec fn reassigned_ids(ops: Seq<Place>, declared: Set<u32>) -> Set<u32> {
    Set::new(
        |id: u32|
            exists|i: int|
                0 <= i < ops.len() && is_declared(declared, #[trigger] ops[i]) && ops[i].identifier.id.0
                    == id,
    )
}

/// Those of the first `n` places whose identifiers stand in `ids`.
pub open spec fn replaced_places(ops: Seq<Place>, ids: Set<u32>, n: int) -> Seq<Place>
    decreases n,
{
    if n <= 0 {
        Seq::empty()
    } else {
        let front = replaced_places(ops, ids, n - 1);
        if ids.contains(ops[n - 1].identifier.id.0) {
            front.push(ops[n - 1])
        } else {
            front
        }
    }
}

/// Whether `t` is the temporary number `k` for the place `p`.
pub open spec fn is_temporary(t: Place, p: Place, k: u32) -> bool {
    &&& t.identifier.id == IdentifierId(k)
    &&& t.identifier.declaration_id == DeclarationId(k)
    &&& t.identifier.name matches Some(IdentifierName::Promoted(s)) && s@ == "#t"@ + decimal(k as nat)
    &&& t.identifier.mutable_range.start.0 == 0
    &&& t.identifier.mutable_range.end.0 == 0
    &&& t.identifier.scope is None
    &&& t.identifier.type_ == p.identifier.type_
    &&& t.identifier.loc == p.loc
    &&& t.effect == p.effect
    &&& t.reactive == p.reactive
    &&& t.loc == p.loc
}

/// Whether `after` are the places `before` with those in `ids` replaced by temporaries, numbered from
/// `next` on.
pub open spec fn operands_extracted(
    before: Seq<Place>,
    after: Seq<Place>,
    ids: Set<u32>,
    next: u32,
) -> bool {
    &&& after.len() == before.len()
    &&& forall|i: int|
        0 <= i < before.len() ==> operand_extracted(before, ids, next, i, #[trigger] after[i])
}

pub open spec fn operand_extracted(
    before: Seq<Place>,
    ids: Set<u32>,
    next: u32,
    i: int,
    p: Place,
) -> bool {
    if ids.contains(before[i].identifier.id.0) {
        is_temporary(p, before[i], advanced(next, replaced_places(before, ids, i).len()))
    } else {
        p == before[i]
    }
}

pub open spec fn same_element(a: ArrayElement, b: ArrayElement) -> bool {
    match a {
        ArrayElement::Place(_) => b is Place,
        ArrayElement::Spread(_) => b is Spread,
        ArrayElement::Hole => b is Hole,
    }
}

pub open spec fn same_property(a: ObjectPropertyOrSpread, b: ObjectPropertyOrSpread) -> bool {
    match a {
        ObjectPropertyOrSpread::Property(p) => b matches ObjectPropertyOrSpread::Property(q) && q.key
            == p.key && q.type_ == p.type_,
        ObjectPropertyOrSpread::Spread(_) => b is Spread,
    }
}

/// Whether two patterns differ at most in the places that they bind.
pub open spec fn same_shape(a: Pattern, b: Pattern) -> bool {
    match a {
        Pattern::Array(x) => b matches Pattern::Array(y) && y.items@.len() == x.items@.len() && forall|
            i: int,
        |
            0 <= i < x.items@.len() ==> same_element(#[trigger] x.items@[i], y.items@[i]),
        Pattern::Object(x) => b matches Pattern::Object(y) && y.properties@.len()
            == x.properties@.len() && forall|i: int|
            0 <= i < x.properties@.len() ==> same_property(
                #[trigger] x.properties@[i],
                y.properties@[i],
            ),
    }
}

// ---------------------------------------------------------------------------
// Statements
// ---------------------------------------------------------------------------

/// What is known on the way: the variables that are declared, and the next number of a temporary.
pub struct Seen {
    pub declared: Set<u32>,
    pub next: u32,
}

/// The places of a destructuring that has to be rewritten.
pub open spec fn to_rewrite(instr: ReactiveInstruction, declared: Set<u32>) -> Option<Seq<Place>> {
    match instr.value {
        InstructionValue::Destructure { lvalue, .. } => {
            let ops = pattern_operands(lvalue.pattern);
            if is_mixed(ops, declared) {
                Some(ops)
            } else {
                None
            }
        },
        _ => None,
    }
}

/// The places of a destructuring that binds variables which are declared already.
pub open spec fn with_reassigned(instr: ReactiveInstruction, declared: Set<u32>) -> Option<
    Seq<Place>,
> {
    match instr.value {
        InstructionValue::Destructure { lvalue, .. } => {
            let ops = pattern_operands(lvalue.pattern);
            if exists|i: int| 0 <= i < ops.len() && is_declared(declared, #[trigger] ops[i]) {
                Some(ops)
            } else {
                None
            }
        },
        _ => None,
    }
}

pub open spec fn replaced_all(ops: Seq<Place>, declared: Set<u32>) -> Seq<Place> {
    replaced_places(ops, reassigned_ids(ops, declared), ops.len() as int)
}

/// `declared` and the first `n` declarations of a scope.
pub open spec fn with_declarations(
    declared: Set<u32>,
    entries: Seq<(IdentifierId, ScopeDeclaration)>,
    n: int,
) -> Set<u32>
    decreases n,
{
    if n <= 0 {
        declared
    } else {
        with_declarations(declared, entries, n - 1).insert(
            entries[n - 1].1.identifier.declaration_id.0,
        )
    }
}

pub open spec fn scope_seen(seen: Seen, block: ReactiveScopeBlock) -> Seen {
    let entries = block.scope.declarations.entries@;
    Seen {
        declared: with_declarations(seen.declared, entries, entries.len() as int),
        ..seen
    }
}

/// What is known behind a statement.
pub open spec fn after_stmt(s: ReactiveStatement, seen: Seen) -> Seen
    decreases s, 0nat, 0nat,
{
    match s {
        ReactiveStatement::Instruction(instr) => match to_rewrite(*instr, seen.declared) {
            Some(ops) => Seen {
                next: advanced(seen.next, replaced_all(ops, seen.declared).len()),
                ..seen
            },
            None => seen,
        },
        ReactiveStatement::Terminal(t) => after_terminal(t.terminal, seen),
        ReactiveStatement::Scope(b) => after_block(b.instructions@, scope_seen(seen, b)),
        ReactiveStatement::PrunedScope(b) => after_block(b.instructions@, seen),
    }
}

/// What is known behind the first `n` statements.
pub open spec fn after_upto(block: Seq<ReactiveStatement>, seen: Seen, n: int) -> Seen
    decreases block, 0nat, n,
{
    if n <= 0 || n > block.len() {
        seen
    } else {
        after_stmt(block[n - 1], after_upto(block, seen, n - 1))
    }
}

pub open spec fn after_block(block: Seq<ReactiveStatement>, seen: Seen) -> Seen
    decreases block, 1nat, 0nat,
{
    after_upto(block, seen, block.len() as int)
}

pub open spec fn after_option(block: Option<Vec<ReactiveStatement>>, seen: Seen) -> Seen
    decreases block, 0nat, 0nat,
{
    match block {
        Some(b) => after_block(b@, seen),
        None => seen,
    }
}

/// What is known behind the first `n` cases.
pub open spec fn after_cases(cases: Seq<ReactiveSwitchCase>, seen: Seen, n: int) -> Seen
    decreases cases, 0nat, n,
{
    if n <= 0 || n > cases.len() {
        seen
    } else {
        after_option(cases[n - 1].block, after_cases(cases, seen, n - 1))
    }
}

pub open spec fn after_terminal(t: ReactiveTerminal, seen: Seen) -> Seen
    decreases t, 0nat, 0nat,
{
    match t {
        ReactiveTerminal::If { consequent, alternate, .. } => after_option(
            alternate,
            after_block(consequent@, seen),
        ),
        ReactiveTerminal::Switch { cases, .. } => after_cases(cases@, seen, cases@.len() as int),
        ReactiveTerminal::DoWhile { loop_block, .. } => after_block(loop_block@, seen),
        ReactiveTerminal::While { loop_block, .. } => after_block(loop_block@, seen),
        ReactiveTerminal::For { init, update, loop_block, .. } => after_block(
            loop_block@,
            after_option(update, after_block(init@, seen)),
        ),
        ReactiveTerminal::ForOf { init, loop_block } => after_block(
            loop_block@,
            after_block(init@, seen),
        ),
        ReactiveTerminal::ForIn { init, loop_block } => after_block(
            loop_block@,
            after_block(init@, seen),
        ),
        ReactiveTerminal::Label { block } => after_block(block@, seen),
        ReactiveTerminal::Try { block, handler, .. } => after_block(
            handler@,
            after_block(block@, seen),
        ),
        _ => seen,
    }
}

/// Into how many statements a statement is rewritten.
pub open spec fn stmt_count(s: ReactiveStatement, declared: Set<u32>) -> nat {
    match s {
        ReactiveStatement::Instruction(instr) => match to_rewrite(*instr, declared) {
            Some(ops) => 1 + replaced_all(ops, declared).len(),
            None => 1,
        },
        _ => 1,
    }
}

/// Into how many statements the first `n` statements are rewritten.
pub open spec fn count_upto(block: Seq<ReactiveStatement>, seen: Seen, n: int) -> nat
    decreases n,
{
    if n <= 0 {
        0
    } else {
        count_upto(block, seen, n - 1) + stmt_count(
            block[n - 1],
            after_upto(block, seen, n - 1).declared,
        )
    }
}

/// Whether `s` is the assignment of the temporary number `k` to the place `p` behind `instr`.
pub open spec fn is_assignment(
    s: ReactiveStatement,
    instr: ReactiveInstruction,
    p: Place,
    k: u32,
) -> bool {
    s matches ReactiveStatement::Instruction(i) && {
        &&& i.id == instr.id
        &&& i.lvalue is None
        &&& i.loc == instr.loc
        &&& i.value matches InstructionValue::StoreLocal { lvalue, value, loc } && {
            &&& lvalue.kind == InstructionKind::Reassign
            &&& lvalue.place == p
            &&& is_temporary(value, p, k)
            &&& instr.value matches InstructionValue::Destructure { loc: l, .. } && loc == l
        }
    }
}

/// Whether `s` is the destructuring `instr` with temporaries in place of what is declared.
pub open spec fn is_rewritten(s: ReactiveStatement, instr: ReactiveInstruction, seen: Seen) -> bool {
    s matches ReactiveStatement::Instruction(i) && {
        &&& i.id == instr.id
        &&& i.lvalue == instr.lvalue
        &&& i.loc == instr.loc
        &&& instr.value matches InstructionValue::Destructure { lvalue, value, loc } && {
            &&& i.value matches InstructionValue::Destructure { lvalue: lv, value: v, loc: l } && {
                &&& lv.kind == lvalue.kind
                &&& v == value
                &&& l == loc
                &&& same_shape(lvalue.pattern, lv.pattern)
                &&& operands_extracted(
                    pattern_operands(lvalue.pattern),
                    pattern_operands(lv.pattern),
                    reassigned_ids(pattern_operands(lvalue.pattern), seen.declared),
                    seen.next,
                )
            }
        }
    }
}

/// Whether the statements `out` from position `m` on are what an instruction is rewritten into.
pub open spec fn instruction_extracted(
    instr: ReactiveInstruction,
    out: Seq<ReactiveStatement>,
    m: int,
    seen: Seen,
) -> bool {
    destructure_extracted(instr, to_rewrite(instr, seen.declared), out, m, seen)
}

/// Whether the statements `out` from position `m` on are a destructuring with temporaries for those of
/// the places `places` that are declared already, and the assignments of them; without `places`, the
/// instruction itself.
pub open spec fn destructure_extracted(
    instr: ReactiveInstruction,
    places: Option<Seq<Place>>,
    out: Seq<ReactiveStatement>,
    m: int,
    seen: Seen,
) -> bool {
    match places {
        Some(ops) => is_rewritten(out[m], instr, seen) && forall|r: int|
            0 <= r < replaced_all(ops, seen.declared).len() ==> is_assignment(
                out[m + 1 + r],
                instr,
                #[trigger] replaced_all(ops, seen.declared)[r],
                advanced(seen.next, r as nat),
            ),
        None => out[m] == ReactiveStatement::Instruction(Box::new(instr)),
    }
}

/// Whether the statements `out` from position `m` on are what a statement is rewritten into.
pub open spec fn stmt_extracted(
    s: ReactiveStatement,
    out: Seq<ReactiveStatement>,
    m: int,
    seen: Seen,
) -> bool
    decreases s, 0nat, 0nat,
{
    match s {
        ReactiveStatement::Instruction(instr) => instruction_extracted(*instr, out, m, seen),
        ReactiveStatement::Terminal(t) => out[m] matches ReactiveStatement::Terminal(u) && u.label
            == t.label && terminal_extracted(t.terminal, u.terminal, seen),
        ReactiveStatement::Scope(b) => out[m] matches ReactiveStatement::Scope(d) && d.scope
            == b.scope && block_extracted(b.instructions@, d.instructions@, scope_seen(seen, b)),
        ReactiveStatement::PrunedScope(b) => out[m] matches ReactiveStatement::PrunedScope(d)
            && d.scope == b.scope && block_extracted(b.instructions@, d.instructions@, seen),
    }
}

/// Whether `out` begins with what the first `n` statements are rewritten into.
pub open spec fn extracted_upto(
    block: Seq<ReactiveStatement>,
    out: Seq<ReactiveStatement>,
    seen: Seen,
    n: int,
) -> bool
    decreases block, 0nat, n,
{
    if n <= 0 || n > block.len() {
        true
    } else {
        extracted_upto(block, out, seen, n - 1) && stmt_extracted(
            block[n - 1],
            out,
            count_upto(block, seen, n - 1) as int,
            after_upto(block, seen, n - 1),
        )
    }
}

/// Whether `out` is what a block is rewritten into.
pub open spec fn block_extracted(
    block: Seq<ReactiveStatement>,
    out: Seq<ReactiveStatement>,
    seen: Seen,
) -> bool
    decreases block, 1nat, 0nat,
{
    out.len() == count_upto(block, seen, block.len() as int) && extracted_upto(
        block,
        out,
        seen,
        block.len() as int,
    )
}

pub open spec fn option_extracted(
    block: Option<Vec<ReactiveStatement>>,
    out: Option<Vec<ReactiveStatement>>,
    seen: Seen,
) -> bool
    decreases block, 0nat, 0nat,
{
    match block {
        Some(b) => out matches Some(o) && block_extracted(b@, o@, seen),
        None => out is None,
    }
}

pub open spec fn cases_extracted(
    cases: Seq<ReactiveSwitchCase>,
    out: Seq<ReactiveSwitchCase>,
    seen: Seen,
    n: int,
) -> bool
    decreases cases, 0nat, n,
{
    if n <= 0 || n > cases.len() {
        true
    } else {
        cases_extracted(cases, out, seen, n - 1) && out[n - 1].test == cases[n - 1].test
            && option_extracted(
            cases[n - 1].block,
            out[n - 1].block,
            after_cases(cases, seen, n - 1),
        )
    }
}

/// Whether `u` is what the blocks of a terminal are rewritten into; all else stays as it is.
pub open spec fn terminal_extracted(t: ReactiveTerminal, u: ReactiveTerminal, seen: Seen) -> bool
    decreases t, 0nat, 0nat,
{
    match t {
        ReactiveTerminal::If { test, consequent, alternate } => u matches ReactiveTerminal::If {
            test: test1,
            consequent: c1,
            alternate: a1,
        } && test1 == test && block_extracted(consequent@, c1@, seen) && option_extracted(
            alternate,
            a1,
            after_block(consequent@, seen),
        ),
        ReactiveTerminal::Switch { test, cases } => u matches ReactiveTerminal::Switch {
            test: test1,
            cases: c1,
        } && test1 == test && c1@.len() == cases@.len() && cases_extracted(
            cases@,
            c1@,
            seen,
            cases@.len() as int,
        ),
        ReactiveTerminal::DoWhile { loop_block, test } => u matches ReactiveTerminal::DoWhile {
            loop_block: l1,
            test: test1,
        } && test1 == test && block_extracted(loop_block@, l1@, seen),
        ReactiveTerminal::While { test, loop_block } => u matches ReactiveTerminal::While {
            test: test1,
            loop_block: l1,
        } && test1 == test && block_extracted(loop_block@, l1@, seen),
        ReactiveTerminal::For { init, test, update, update_value, loop_block } => u
            matches ReactiveTerminal::For {
            init: i1,
            test: test1,
            update: u1,
            update_value: v1,
            loop_block: l1,
        } && test1 == test && v1 == update_value && block_extracted(init@, i1@, seen)
            && option_extracted(update, u1, after_block(init@, seen)) && block_extracted(
            loop_block@,
            l1@,
            after_option(update, after_block(init@, seen)),
        ),
        ReactiveTerminal::ForOf { init, loop_block } => u matches ReactiveTerminal::ForOf {
            init: i1,
            loop_block: l1,
        } && block_extracted(init@, i1@, seen) && block_extracted(
            loop_block@,
            l1@,
            after_block(init@, seen),
        ),
        ReactiveTerminal::ForIn { init, loop_block } => u matches ReactiveTerminal::ForIn {
            init: i1,
            loop_block: l1,
        } && block_extracted(init@, i1@, seen) && block_extracted(
            loop_block@,
            l1@,
            after_block(init@, seen),
        ),
        ReactiveTerminal::Label { block } => u matches ReactiveTerminal::Label { block: b1 }
            && block_extracted(block@, b1@, seen),
        ReactiveTerminal::Try { block, handler_binding, handler } => u
            matches ReactiveTerminal::Try {
            block: b1,
            handler_binding: h1,
            handler: d1,
        } && h1 == handler_binding && block_extracted(block@, b1@, seen) && block_extracted(
            handler@,
            d1@,
            after_block(block@, seen),
        ),
        _ => u == t,
    }
}

// ---------------------------------------------------------------------------
// Rewriting
// ---------------------------------------------------------------------------

/// All places that a pattern binds.
pub fn each_pattern_operand(pattern: &Pattern) -> (places: Vec<&Place>)
    ensures
        pointees(places@) == pattern_operands(*pattern),
{
    let mut places: Vec<&Place> = Vec::new();
    match pattern {
        Pattern::Array(a) => {
            let mut i: usize = 0;
            proof {
                assert(pointees(places@) =~= element_places(a.items@, 0));
            }
            while i < a.items.len()
                invariant
                    i <= a.items@.len(),
                    pointees(places@) == element_places(a.items@, i as int),
                decreases a.items@.len() - i,
            {
                let ghost before = places@;
                match &a.items[i] {
                    ArrayElement::Place(p) => {
                        places.push(p);
                        proof {
                            assert(pointees(places@) =~= pointees(before).push(*p));
                        }
                    },
                    ArrayElement::Spread(p) => {
                        places.push(p);
                        proof {
                            assert(pointees(places@) =~= pointees(before).push(*p));
                        }
                    },
                    ArrayElement::Hole => {},
                }
                i = i + 1;
            }
        },
        Pattern::Object(o) => {
            let mut i: usize = 0;
            while i < o.properties.len()
                invariant
                    i <= o.properties@.len(),
                    places@.len() == i,
                    forall|k: int|
                        0 <= k < i ==> *(#[trigger] places@[k]) == property_values(o.properties@)[k],
                decreases o.properties@.len() - i,
            {
                match &o.properties[i] {
                    ObjectPropertyOrSpread::Property(p) => {
                        places.push(&p.place);
                    },
                    ObjectPropertyOrSpread::Spread(p) => {
                        places.push(p);
                    },
                }
                i = i + 1;
            }
            proof {
                assert(pointees(places@) =~= property_values(o.properties@));
            }
        },
    }
    places
}

/// Whether an instruction is a destructuring that binds both variables that are declared already and
/// new ones.
pub fn should_transform_destructure(instr: &ReactiveInstruction, declared: &IdSet) -> (r: bool)
    ensures
        r == to_rewrite(*instr, declared@) is Some,
{
    if let InstructionValue::Destructure { lvalue, .. } = &instr.value {
        let places = each_pattern_operand(&lvalue.pattern);
        let ghost ops = pattern_operands(lvalue.pattern);
        let mut has_reassigned = false;
        let mut has_declaration = false;
        let mut i: usize = 0;
        proof {
            assert(pointees(places@).len() == places@.len());
        }
        while i < places.len()
            invariant
                i <= places@.len(),
                pointees(places@) == ops,
                ops.len() == places@.len(),
                has_reassigned == exists|k: int|
                    0 <= k < i && is_declared(declared@, #[trigger] ops[k]),
                has_declaration == exists|k: int|
                    0 <= k < i && !is_declared(declared@, #[trigger] ops[k]),
            decreases places@.len() - i,
        {
            assert(*places@[i as int] == ops[i as int]);
            if declared.contains(places[i].identifier.declaration_id.0) {
                has_reassigned = true;
            } else {
                has_declaration = true;
            }
            i = i + 1;
        }
        has_reassigned && has_declaration
    } else {
        false
    }
}

/// The temporary number `id` for a place.
fn place_to_temporary(place: &Place, id: u32) -> (t: Place)
    ensures
        is_temporary(t, *place, id),
{
    Place {
        identifier: Identifier {
            id: IdentifierId(id),
            declaration_id: DeclarationId(id),
            name: Some(IdentifierName::Promoted(cat2("#t", decimal_text(id as u64).as_str()))),
            mutable_range: MutableRange::default(),
            scope: None,
            type_: place.identifier.type_,
            loc: place.loc,
        },
        effect: place.effect,
        reactive: place.reactive,
        loc: place.loc,
    }
}

/// Whether `renamed` holds the places `originals`, each with its temporary, numbered from `next` on.
spec fn renaming(renamed: Seq<(Place, Place)>, originals: Seq<Place>, next: u32) -> bool {
    &&& renamed.len() == originals.len()
    &&& forall|r: int|
        0 <= r < renamed.len() ==> (#[trigger] renamed[r]).0 == originals[r] && is_temporary(
            renamed[r].1,
            originals[r],
            advanced(next, r as nat),
        )
}

/// The place that stands in the pattern for `place`.
fn map_operand(place: Place, ids: &IdSet, next: &mut u32, renamed: &mut Vec<(Place, Place)>) -> (r:
    Place)
    ensures
        ids@.contains(place.identifier.id.0) ==> is_temporary(r, place, *old(next)) && *final(next)
            == next_id(*old(next)) && final(renamed)@.len() == old(renamed)@.len() + 1
            && final(renamed)@ == old(renamed)@.push(final(renamed)@.last())
            && final(renamed)@.last().0 == place && is_temporary(
            final(renamed)@.last().1,
            place,
            *old(next),
        ),
        !ids@.contains(place.identifier.id.0) ==> r == place && *final(next) == *old(next)
            && final(renamed)@ == old(renamed)@,
{
    if ids.contains(place.identifier.id.0) {
        let id: u32 = take_id(next);
        let bound = place_to_temporary(&place, id);
        let read = place_to_temporary(&place, id);
        renamed.push((place, read));
        bound
    } else {
        place
    }
}

proof fn lemma_replaced_prefix(a: Seq<Place>, b: Seq<Place>, ids: Set<u32>, n: int)
    requires
        n <= a.len(),
        n <= b.len(),
        forall|i: int| 0 <= i < n ==> a[i] == b[i],
    ensures
        replaced_places(a, ids, n) == replaced_places(b, ids, n),
    decreases n,
{
    if n > 0 {
        lemma_replaced_prefix(a, b, ids, n - 1);
    }
}

/// One more operand.
proof fn lemma_operand_mapped(
    before: Seq<Place>,
    after: Seq<Place>,
    ids: Set<u32>,
    next: u32,
    p: Place,
    q: Place,
    renamed0: Seq<(Place, Place)>,
    renamed1: Seq<(Place, Place)>,
)
    requires
        operands_extracted(before, after, ids, next),
        renaming(renamed0, replaced_places(before, ids, before.len() as int), next),
        ids.contains(p.identifier.id.0) ==> is_temporary(q, p, advanced(next, renamed0.len()))
            && renamed1.len() == renamed0.len() + 1 && renamed1 == renamed0.push(renamed1.last())
            && renamed1.last().0 == p && is_temporary(
            renamed1.last().1,
            p,
            advanced(next, renamed0.len()),
        ),
        !ids.contains(p.identifier.id.0) ==> q == p && renamed1 == renamed0,
    ensures
        operands_extracted(before.push(p), after.push(q), ids, next),
        renaming(
            renamed1,
            replaced_places(before.push(p), ids, before.len() as int + 1),
            next,
        ),
{
    let n = before.len() as int;
    lemma_replaced_prefix(before, before.push(p), ids, n);
    assert forall|i: int| 0 <= i < n + 1 implies operand_extracted(
        before.push(p),
        ids,
        next,
        i,
        #[trigger] after.push(q)[i],
    ) by {
        if i < n {
            lemma_replaced_prefix(before, before.push(p), ids, i);
            assert(operand_extracted(before, ids, next, i, after[i]));
        }
    }
}

proof fn lemma_elements_prefix(a: Seq<ArrayElement>, b: Seq<ArrayElement>, n: int)
    requires
        n <= a.len(),
        n <= b.len(),
        forall|i: int| 0 <= i < n ==> a[i] == b[i],
    ensures
        element_places(a, n) == element_places(b, n),
    decreases n,
{
    if n > 0 {
        lemma_elements_prefix(a, b, n - 1);
    }
}

fn map_elements(
    items: Vec<ArrayElement>,
    ids: &IdSet,
    next: &mut u32,
    renamed: &mut Vec<(Place, Place)>,
) -> (out: Vec<ArrayElement>)
    requires
        old(renamed)@.len() == 0,
    ensures
        out@.len() == items@.len(),
        forall|i: int| 0 <= i < items@.len() ==> same_element(#[trigger] items@[i], out@[i]),
        operands_extracted(
            element_places(items@, items@.len() as int),
            element_places(out@, items@.len() as int),
            ids@,
            *old(next),
        ),
        renaming(
            final(renamed)@,
            replaced_places(
                element_places(items@, items@.len() as int),
                ids@,
                element_places(items@, items@.len() as int).len() as int,
            ),
            *old(next),
        ),
        *final(next) == advanced(*old(next), final(renamed)@.len()),
{
    let ghost whole = items@;
    let ghost first = *next;
    let mut rest = reversed(items);
    let mut out: Vec<ArrayElement> = Vec::new();
    while rest.len() > 0
        invariant
            rest@ == whole.skip(out@.len() as int).reverse(),
            out@.len() + rest@.len() == whole.len(),
            forall|i: int| 0 <= i < out@.len() ==> same_element(#[trigger] whole[i], out@[i]),
            operands_extracted(
                element_places(whole, out@.len() as int),
                element_places(out@, out@.len() as int),
                ids@,
                first,
            ),
            renaming(
                renamed@,
                replaced_places(
                    element_places(whole, out@.len() as int),
                    ids@,
                    element_places(whole, out@.len() as int).len() as int,
                ),
                first,
            ),
            *next == advanced(first, renamed@.len()),
        decreases rest@.len(),
    {
        let ghost n = out@.len() as int;
        let ghost before = element_places(whole, n);
        let ghost after = element_places(out@, n);
        let ghost out0 = out@;
        let ghost renamed0 = renamed@;
        let last = rest.pop();
        if let Some(item) = last {
            assert(item == whole[n]);
            match item {
                ArrayElement::Place(p) => {
                    let ghost original = p;
                    let q = map_operand(p, ids, next, renamed);
                    out.push(ArrayElement::Place(q));
                    proof {
                        lemma_operand_mapped(before, after, ids@, first, original, q, renamed0, renamed@);
                    }
                },
                ArrayElement::Spread(p) => {
                    let ghost original = p;
                    let q = map_operand(p, ids, next, renamed);
                    out.push(ArrayElement::Spread(q));
                    proof {
                        lemma_operand_mapped(before, after, ids@, first, original, q, renamed0, renamed@);
                    }
                },
                ArrayElement::Hole => {
                    out.push(ArrayElement::Hole);
                },
            }
        }
        proof {
            lemma_elements_prefix(out0, out@, n);
            assert(rest@ =~= whole.skip(n + 1).reverse());
        }
    }
    out
}

fn map_properties(
    properties: Vec<ObjectPropertyOrSpread>,
    ids: &IdSet,
    next: &mut u32,
    renamed: &mut Vec<(Place, Place)>,
) -> (out: Vec<ObjectPropertyOrSpread>)
    requires
        old(renamed)@.len() == 0,
    ensures
        out@.len() == properties@.len(),
        forall|i: int|
            0 <= i < properties@.len() ==> same_property(#[trigger] properties@[i], out@[i]),
        operands_extracted(
            property_values(properties@),
            property_values(out@),
            ids@,
            *old(next),
        ),
        renaming(
            final(renamed)@,
            replaced_places(
                property_values(properties@),
                ids@,
                property_values(properties@).len() as int,
            ),
            *old(next),
        ),
        *final(next) == advanced(*old(next), final(renamed)@.len()),
{
    let ghost whole = properties@;
    let ghost first = *next;
    let mut rest = reversed(properties);
    let mut out: Vec<ObjectPropertyOrSpread> = Vec::new();
    while rest.len() > 0
        invariant
            rest@ == whole.skip(out@.len() as int).reverse(),
            out@.len() + rest@.len() == whole.len(),
            forall|i: int| 0 <= i < out@.len() ==> same_property(#[trigger] whole[i], out@[i]),
            operands_extracted(
                property_values(whole.take(out@.len() as int)),
                property_values(out@),
                ids@,
                first,
            ),
            renaming(
                renamed@,
                replaced_places(
                    property_values(whole.take(out@.len() as int)),
                    ids@,
                    out@.len() as int,
                ),
                first,
            ),
            *next == advanced(first, renamed@.len()),
        decreases rest@.len(),
    {
        let ghost n = out@.len() as int;
        let ghost before = property_values(whole.take(n));
        let ghost after = property_values(out@);
        let ghost renamed0 = renamed@;
        let last = rest.pop();
        if let Some(item) = last {
            assert(item == whole[n]);
            match item {
                ObjectPropertyOrSpread::Property(p) => {
                    let ObjectProperty { key, type_, place } = p;
                    let ghost original = place;
                    let q = map_operand(place, ids, next, renamed);
                    out.push(
                        ObjectPropertyOrSpread::Property(ObjectProperty { key, type_, place: q }),
                    );
                    proof {
                        lemma_operand_mapped(before, after, ids@, first, original, q, renamed0, renamed@);
                        assert(property_values(whole.take(n + 1)) =~= before.push(original));
                        assert(property_values(out@) =~= after.push(q));
                    }
                },
                ObjectPropertyOrSpread::Spread(p) => {
                    let ghost original = p;
                    let q = map_operand(p, ids, next, renamed);
                    out.push(ObjectPropertyOrSpread::Spread(q));
                    proof {
                        lemma_operand_mapped(before, after, ids@, first, original, q, renamed0, renamed@);
                        assert(property_values(whole.take(n + 1)) =~= before.push(original));
                        assert(property_values(out@) =~= after.push(q));
                    }
                },
            }
        }
        proof {
            assert(rest@ =~= whole.skip(n + 1).reverse());
        }
    }
    proof {
        assert(whole.take(whole.len() as int) =~= whole);
    }
    out
}

/// The identifiers of a pattern that are declared already.
fn reassigned_in(pattern: &Pattern, declared: &IdSet) -> (ids: IdSet)
    ensures
        ids@ == reassigned_ids(pattern_operands(*pattern), declared@),
{
    let places = each_pattern_operand(pattern);
    let ghost ops = pattern_operands(*pattern);
    let mut ids = IdSet::new();
    let mut i: usize = 0;
    proof {
        assert(pointees(places@).len() == places@.len());
    }
    while i < places.len()
        invariant
            i <= places@.len(),
            pointees(places@) == ops,
            ops.len() == places@.len(),
            forall|id: u32|
                ids@.contains(id) <==> exists|k: int|
                    0 <= k < i && is_declared(declared@, #[trigger] ops[k])
                        && ops[k].identifier.id.0 == id,
        decreases places@.len() - i,
    {
        assert(*places@[i as int] == ops[i as int]);
        if declared.contains(places[i].identifier.declaration_id.0) {
            ids.insert(places[i].identifier.id.0);
        }
        i = i + 1;
    }
    proof {
        assert(ids@ =~= reassigned_ids(ops, declared@));
    }
    ids
}

/// A destructuring with temporaries for what is declared already, and the assignments behind it. What
/// binds nothing that is declared, and every other instruction, stays as it is.
pub fn do_transform_destructure(
    instr: ReactiveInstruction,
    declared: &IdSet,
    next: &mut u32,
) -> (out: Vec<ReactiveStatement>)
    ensures
        destructure_extracted(
            instr,
            with_reassigned(instr, declared@),
            out@,
            0,
            Seen { declared: declared@, next: *old(next) },
        ),
        match with_reassigned(instr, declared@) {
            Some(ops) => {
                let k = replaced_all(ops, declared@).len();
                out@.len() == 1 + k && *final(next) == advanced(*old(next), k)
            },
            None => out@.len() == 1 && *final(next) == *old(next),
        },
{
    let ghost whole = instr;
    let ghost seen = Seen { declared: declared@, next: *next };
    let mut out: Vec<ReactiveStatement> = Vec::new();
    let ids = match &instr.value {
        InstructionValue::Destructure { lvalue, .. } => reassigned_in(&lvalue.pattern, declared),
        _ => IdSet::new(),
    };
    if ids.is_empty() {
        proof {
            if let InstructionValue::Destructure { lvalue, .. } = whole.value {
                let ops = pattern_operands(lvalue.pattern);
                assert forall|i: int| 0 <= i < ops.len() implies !is_declared(
                    declared@,
                    #[trigger] ops[i],
                ) by {
                    if is_declared(declared@, ops[i]) {
                        assert(ids@.contains(ops[i].identifier.id.0));
                    }
                }
            }
        }
        out.push(ReactiveStatement::Instruction(Box::new(instr)));
        return out;
    }
    let ReactiveInstruction { id, lvalue: target, value, loc } = instr;
    match value {
        InstructionValue::Destructure { lvalue, value: source, loc: source_loc } => {
            let LValuePattern { pattern, kind } = lvalue;
            let ghost ops = pattern_operands(pattern);
            proof {
                if !exists|i: int| 0 <= i < ops.len() && is_declared(declared@, #[trigger] ops[i]) {
                    assert(ids@ =~= Set::empty());
                }
            }
            let mut renamed: Vec<(Place, Place)> = Vec::new();
            let pattern = match pattern {
                Pattern::Array(a) => {
                    let items = map_elements(a.items, &ids, next, &mut renamed);
                    Pattern::Array(ArrayPattern { items })
                },
                Pattern::Object(o) => {
                    let properties = map_properties(o.properties, &ids, next, &mut renamed);
                    Pattern::Object(ObjectPattern { properties })
                },
            };
            out.push(
                ReactiveStatement::Instruction(
                    Box::new(
                        ReactiveInstruction {
                            id,
                            lvalue: target,
                            value: InstructionValue::Destructure {
                                lvalue: LValuePattern { pattern, kind },
                                value: source,
                                loc: source_loc,
                            },
                            loc,
                        },
                    ),
                ),
            );
            proof {
                assert(is_rewritten(out@[0], whole, seen));
            }
            let ghost originals = replaced_all(ops, declared@);
            let ghost pairs = renamed@;
            let mut rest = reversed(renamed);
            while rest.len() > 0
                invariant
                    whole.id == id,
                    whole.loc == loc,
                    whole.value matches InstructionValue::Destructure { loc: l, .. } && source_loc == l,
                    renaming(pairs, originals, seen.next),
                    rest@ == pairs.skip(out@.len() - 1).reverse(),
                    out@.len() + rest@.len() == pairs.len() + 1,
                    out@.len() >= 1,
                    is_rewritten(out@[0], whole, seen),
                    forall|r: int|
                        0 <= r < out@.len() - 1 ==> is_assignment(
                            out@[1 + r],
                            whole,
                            #[trigger] originals[r],
                            advanced(seen.next, r as nat),
                        ),
                decreases rest@.len(),
            {
                let ghost n = out@.len() - 1;
                let ghost out0 = out@;
                let last = rest.pop();
                if let Some(pair) = last {
                    assert(pair == pairs[n]);
                    let (original, temporary) = pair;
                    out.push(
                        ReactiveStatement::Instruction(
                            Box::new(
                                ReactiveInstruction {
                                    id,
                                    lvalue: None,
                                    value: InstructionValue::StoreLocal {
                                        lvalue: LValue {
                                            kind: InstructionKind::Reassign,
                                            place: original,
                                        },
                                        value: temporary,
                                        loc: source_loc,
                                    },
                                    loc,
                                },
                            ),
                        ),
                    );
                    proof {
                        assert(out@[1 + n] == out@.last());
                        assert(is_assignment(
                            out@[1 + n],
                            whole,
                            originals[n],
                            advanced(seen.next, n as nat),
                        ));
                    }
                }
                proof {
                    assert(rest@ =~= pairs.skip(n + 1).reverse());
                    assert forall|r: int| 0 <= r < n implies is_assignment(
                        out@[1 + r],
                        whole,
                        #[trigger] originals[r],
                        advanced(seen.next, r as nat),
                    ) by {
                        assert(out@[1 + r] == out0[1 + r]);
                    }
                }
            }
        },
        _ => {},
    }
    out
}

/// The statements that a statement is rewritten into.
fn transform_statement(statement: ReactiveStatement, declared: &mut IdSet, next: &mut u32) -> (out:
    Vec<ReactiveStatement>)
    ensures
        out@.len() == stmt_count(statement, old(declared)@),
        stmt_extracted(
            statement,
            out@,
            0,
            Seen { declared: old(declared)@, next: *old(next) },
        ),
        after_stmt(statement, Seen { declared: old(declared)@, next: *old(next) }) == (Seen {
            declared: final(declared)@,
            next: *final(next),
        }),
    decreases statement, 0nat,
{
    let mut out: Vec<ReactiveStatement> = Vec::new();
    match statement {
        ReactiveStatement::Instruction(instr) => {
            if should_transform_destructure(&instr, declared) {
                return do_transform_destructure(*instr, declared, next);
            }
            out.push(ReactiveStatement::Instruction(instr));
        },
        ReactiveStatement::Terminal(t) => {
            let ReactiveTerminalStatement { terminal, label } = *t;
            let terminal = transform_terminal(terminal, declared, next);
            out.push(
                ReactiveStatement::Terminal(Box::new(ReactiveTerminalStatement { terminal, label })),
            );
        },
        ReactiveStatement::Scope(b) => {
            let ReactiveScopeBlock { scope, instructions } = b;
            declare_scope(&scope.declarations.entries, declared);
            let instructions = transform_block(instructions, declared, next);
            out.push(ReactiveStatement::Scope(ReactiveScopeBlock { scope, instructions }));
        },
        ReactiveStatement::PrunedScope(b) => {
            let ReactiveScopeBlock { scope, instructions } = b;
            let instructions = transform_block(instructions, declared, next);
            out.push(ReactiveStatement::PrunedScope(ReactiveScopeBlock { scope, instructions }));
        },
    }
    out
}

fn declare_scope(entries: &Vec<(IdentifierId, ScopeDeclaration)>, declared: &mut IdSet)
    ensures
        final(declared)@ == with_declarations(old(declared)@, entries@, entries@.len() as int),
{
    let mut i: usize = 0;
    while i < entries.len()
        invariant
            i <= entries@.len(),
            declared@ == with_declarations(old(declared)@, entries@, i as int),
        decreases entries@.len() - i,
    {
        declared.insert(entries[i].1.identifier.declaration_id.0);
        i = i + 1;
    }
}

/// What stands at a position does not depend on what stands before it and behind it.
proof fn lemma_shifted(
    s: ReactiveStatement,
    a: Seq<ReactiveStatement>,
    i: int,
    b: Seq<ReactiveStatement>,
    j: int,
    seen: Seen,
)
    requires
        stmt_extracted(s, a, i, seen),
        forall|k: int| 0 <= k < stmt_count(s, seen.declared) ==> #[trigger] a[i + k] == b[j + k],
    ensures
        stmt_extracted(s, b, j, seen),
{
    assert(a[i + 0] == b[j + 0]);
    if let ReactiveStatement::Instruction(instr) = s {
        if let Some(ops) = to_rewrite(*instr, seen.declared) {
            assert forall|r: int| 0 <= r < replaced_all(ops, seen.declared).len() implies is_assignment(
                b[j + 1 + r],
                *instr,
                #[trigger] replaced_all(ops, seen.declared)[r],
                advanced(seen.next, r as nat),
            ) by {
                assert(a[i + (1 + r)] == b[j + (1 + r)]);
                assert(a[i + 1 + r] == b[j + 1 + r]);
            }
        }
    }
}

/// What a block begins with does not depend on what comes behind.
proof fn lemma_extended(
    block: Seq<ReactiveStatement>,
    a: Seq<ReactiveStatement>,
    b: Seq<ReactiveStatement>,
    seen: Seen,
    n: int,
)
    requires
        0 <= n <= block.len(),
        extracted_upto(block, a, seen, n),
        forall|k: int| 0 <= k < count_upto(block, seen, n) ==> #[trigger] a[k] == b[k],
    ensures
        extracted_upto(block, b, seen, n),
    decreases n,
{
    if n > 0 {
        lemma_extended(block, a, b, seen, n - 1);
        let m = count_upto(block, seen, n - 1) as int;
        lemma_shifted(block[n - 1], a, m, b, m, after_upto(block, seen, n - 1));
    }
}

/// The statements that a block is rewritten into.
fn transform_block(block: Vec<ReactiveStatement>, declared: &mut IdSet, next: &mut u32) -> (out: Vec<
    ReactiveStatement,
>)
    ensures
        block_extracted(block@, out@, Seen { declared: old(declared)@, next: *old(next) }),
        after_block(block@, Seen { declared: old(declared)@, next: *old(next) }) == (Seen {
            declared: final(declared)@,
            next: *final(next),
        }),
    decreases block, 0nat,
{
    let ghost whole = block@;
    let ghost seen = Seen { declared: declared@, next: *next };
    let ghost mut n: int = 0;
    let mut rest = reversed(block);
    let mut out: Vec<ReactiveStatement> = Vec::new();
    while rest.len() > 0
        invariant
            0 <= n <= whole.len(),
            whole == block@,
            n + rest@.len() == whole.len(),
            rest@ == whole.skip(n).reverse(),
            out@.len() == count_upto(whole, seen, n),
            extracted_upto(whole, out@, seen, n),
            after_upto(whole, seen, n) == (Seen { declared: declared@, next: *next }),
        decreases rest@.len(),
    {
        let ghost here = after_upto(whole, seen, n);
        let ghost out0 = out@;
        let last = rest.pop();
        if let Some(statement) = last {
            assert(statement == whole[n]);
            assert(decreases_to!(block => block@));
            assert(decreases_to!(block@ => block@[n]));
            let mut produced = transform_statement(statement, declared, next);
            let ghost made = produced@;
            out.append(&mut produced);
            proof {
                assert(out@ =~= out0 + made);
                assert forall|k: int| 0 <= k < made.len() implies #[trigger] made[0 + k] == out@[out0.len()
                    + k] by {}
                lemma_shifted(whole[n], made, 0, out@, out0.len() as int, here);
                lemma_extended(whole, out0, out@, seen, n);
            }
        }
        proof {
            assert(rest@ =~= whole.skip(n + 1).reverse());
            n = n + 1;
        }
    }
    out
}

fn transform_option(
    block: Option<Vec<ReactiveStatement>>,
    declared: &mut IdSet,
    next: &mut u32,
) -> (out: Option<Vec<ReactiveStatement>>)
    ensures
        option_extracted(block, out, Seen { declared: old(declared)@, next: *old(next) }),
        after_option(block, Seen { declared: old(declared)@, next: *old(next) }) == (Seen {
            declared: final(declared)@,
            next: *final(next),
        }),
    decreases block, 0nat,
{
    match block {
        Some(b) => Some(transform_block(b, declared, next)),
        None => None,
    }
}

fn transform_cases(cases: Vec<ReactiveSwitchCase>, declared: &mut IdSet, next: &mut u32) -> (out: Vec<
    ReactiveSwitchCase,
>)
    ensures
        out@.len() == cases@.len(),
        cases_extracted(
            cases@,
            out@,
            Seen { declared: old(declared)@, next: *old(next) },
            cases@.len() as int,
        ),
        after_cases(
            cases@,
            Seen { declared: old(declared)@, next: *old(next) },
            cases@.len() as int,
        ) == (Seen { declared: final(declared)@, next: *final(next) }),
    decreases cases, 0nat,
{
    let ghost whole = cases@;
    let ghost seen = Seen { declared: declared@, next: *next };
    let mut rest = reversed(cases);
    let mut out: Vec<ReactiveSwitchCase> = Vec::new();
    while rest.len() > 0
        invariant
            whole == cases@,
            out@.len() + rest@.len() == whole.len(),
            rest@ == whole.skip(out@.len() as int).reverse(),
            cases_extracted(whole, out@, seen, out@.len() as int),
            after_cases(whole, seen, out@.len() as int) == (Seen {
                declared: declared@,
                next: *next,
            }),
        decreases rest@.len(),
    {
        let ghost n = out@.len() as int;
        let ghost out0 = out@;
        let last = rest.pop();
        if let Some(case) = last {
            assert(case == whole[n]);
            assert(decreases_to!(cases => cases@));
            assert(decreases_to!(cases@ => cases@[n]));
            let ReactiveSwitchCase { test, block } = case;
            assert(decreases_to!(cases@[n] => cases@[n].block));
            let block = transform_option(block, declared, next);
            out.push(ReactiveSwitchCase { test, block });
            proof {
                lemma_cases_extended(whole, out0, out@, seen, n);
            }
        }
        proof {
            assert(rest@ =~= whole.skip(n + 1).reverse());
        }
    }
    out
}

proof fn lemma_cases_extended(
    cases: Seq<ReactiveSwitchCase>,
    a: Seq<ReactiveSwitchCase>,
    b: Seq<ReactiveSwitchCase>,
    seen: Seen,
    n: int,
)
    requires
        0 <= n <= cases.len(),
        cases_extracted(cases, a, seen, n),
        forall|k: int| 0 <= k < n ==> #[trigger] a[k] == b[k],
    ensures
        cases_extracted(cases, b, seen, n),
    decreases n,
{
    if n > 0 {
        lemma_cases_extended(cases, a, b, seen, n - 1);
        assert(a[n - 1] == b[n - 1]);
    }
}

/// A terminal with its blocks rewritten.
fn transform_terminal(terminal: ReactiveTerminal, declared: &mut IdSet, next: &mut u32) -> (out:
    ReactiveTerminal)
    ensures
        terminal_extracted(terminal, out, Seen { declared: old(declared)@, next: *old(next) }),
        after_terminal(terminal, Seen { declared: old(declared)@, next: *old(next) }) == (Seen {
            declared: final(declared)@,
            next: *final(next),
        }),
    decreases terminal, 0nat,
{
    match terminal {
        ReactiveTerminal::If { test, consequent, alternate } => {
            let consequent = transform_block(consequent, declared, next);
            let alternate = transform_option(alternate, declared, next);
            ReactiveTerminal::If { test, consequent, alternate }
        },
        ReactiveTerminal::Switch { test, cases } => {
            let cases = transform_cases(cases, declared, next);
            ReactiveTerminal::Switch { test, cases }
        },
        ReactiveTerminal::DoWhile { loop_block, test } => {
            let loop_block = transform_block(loop_block, declared, next);
            ReactiveTerminal::DoWhile { loop_block, test }
        },
        ReactiveTerminal::While { test, loop_block } => {
            let loop_block = transform_block(loop_block, declared, next);
            ReactiveTerminal::While { test, loop_block }
        },
        ReactiveTerminal::For { init, test, update, update_value, loop_block } => {
            let init = transform_block(init, declared, next);
            let update = transform_option(update, declared, next);
            let loop_block = transform_block(loop_block, declared, next);
            ReactiveTerminal::For { init, test, update, update_value, loop_block }
        },
        ReactiveTerminal::ForOf { init, loop_block } => {
            let init = transform_block(init, declared, next);
            let loop_block = transform_block(loop_block, declared, next);
            ReactiveTerminal::ForOf { init, loop_block }
        },
        ReactiveTerminal::ForIn { init, loop_block } => {
            let init = transform_block(init, declared, next);
            let loop_block = transform_block(loop_block, declared, next);
            ReactiveTerminal::ForIn { init, loop_block }
        },
        ReactiveTerminal::Label { block } => {
            let block = transform_block(block, declared, next);
            ReactiveTerminal::Label { block }
        },
        ReactiveTerminal::Try { block, handler_binding, handler } => {
            let block = transform_block(block, declared, next);
            let handler = transform_block(handler, declared, next);
            ReactiveTerminal::Try { block, handler_binding, handler }
        },
        other => other,
    }
}

/// The variables that the first `n` parameters declare.
pub open spec fn param_declarations(params: Seq<Argument>, n: int) -> Set<u32>
    decreases n,
{
    if n <= 0 {
        Set::empty()
    } else {
        param_declarations(params, n - 1).insert(
            params[n - 1].place_of().identifier.declaration_id.0,
        )
    }
}

/// Rewrites each destructuring that binds both variables that are declared already, by a parameter or
/// by a scope that encloses it or comes before it, and new ones. The temporaries are numbered from `next_temp_id` on, which is
/// left at the first number that is free.
pub fn extract_scope_destructuring(func: &mut ReactiveFunction, next_temp_id: &mut u32)
    ensures
        final(func).loc == old(func).loc,
        final(func).id == old(func).id,
        final(func).name_hint == old(func).name_hint,
        final(func).params == old(func).params,
        final(func).generator == old(func).generator,
        final(func).async_ == old(func).async_,
        final(func).directives == old(func).directives,
        ({
            let seen = Seen {
                declared: param_declarations(
                    old(func).params@,
                    old(func).params@.len() as int,
                ),
                next: *old(next_temp_id),
            };
            block_extracted(old(func).body@, final(func).body@, seen) && *final(next_temp_id)
                == after_block(old(func).body@, seen).next
        }),
{
    let mut declared = IdSet::new();
    let mut i: usize = 0;
    while i < func.params.len()
        invariant
            i <= func.params@.len(),
            *func == *old(func),
            *next_temp_id == *old(next_temp_id),
            declared@ == param_declarations(func.params@, i as int),
        decreases func.params@.len() - i,
    {
        declared.insert(func.params[i].place().identifier.declaration_id.0);
        i = i + 1;
    }
    let mut body: Vec<ReactiveStatement> = Vec::new();
    std::mem::swap(&mut body, &mut func.body);
    func.body = transform_block(body, &mut declared, next_temp_id);
}

} // verus!
