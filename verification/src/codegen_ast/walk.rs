//! What the walk over a reactive function gives.

use vstd::prelude::*;

use crate::codegen_ast::assemble::{
    any_changed, early_return, memo_changed, memo_checked, memo_once, memo_with_vars,
};
use crate::codegen_ast::js::{
    ArmModel, CatchModel, Ex, St, Text, VariableKind,
};
use crate::codegen_ast::loops::{for_init, left_from};
use crate::codegen_ast::make::assign_expr;
use crate::codegen_ast::memo::{front_of, Front};
use crate::codegen_ast::nested::block_loads_property;
use crate::codegen_ast::pieces::{
    catch_marked, chained, function_expr, fused_call, kept, label_text, labeled, prepared, sequence,
    value_is_kept, with_last_value, without_void_return,
};
use crate::codegen_ast::scan::{
    collection_from, is_pair, repeats_call, scope_loc, strictly_trivial, suppressed,
    trivial_or_calls,
};
use crate::codegen_ast::state::{
    after_place, after_resolving, after_writing, close_block, open_block, own_name, place_expr,
    resolved_name, start, with_decl, with_declared, with_temp, written_name, Cx, Settings,
};
use crate::codegen_ast::stores::{
    assignment, declare_code, destructure_code, store_code, var_code,
};
use crate::codegen_ast::ternary::fused_from;
use crate::codegen_ast::values::{named_expr, pure, simple_value};
use crate::hir::{
    BlockId, FunctionExpressionType, InstructionKind, InstructionValue, LValue, LoweredFunction, Place,
    ReactiveFunction, ReactiveInstruction, ReactiveScope, ReactiveStatement, ReactiveSwitchCase,
    ReactiveTerminal, ReactiveTerminalTargetKind, Type,
};

verus! {

// ---------------------------------------------------------------------------
// The start of a walk
// ---------------------------------------------------------------------------

pub open spec fn function_name(func: ReactiveFunction) -> Text {
    match func.id {
        Some(s) => s@,
        None => Seq::empty(),
    }
}

/// The settings for a function inside of another: nothing is memoized differently, and its labels
/// are left out.
pub open spec fn nested_settings(s: Settings, func: ReactiveFunction) -> Settings {
    Settings {
        change_variables: false,
        hook_guards: false,
        change_detection: false,
        no_features: false,
        always_recompute: false,
        name_functions: s.name_functions,
        quiet: true,
        fbt: Set::empty(),
        initializers: s.initializers,
        cache: "$"@,
        function: function_name(func),
    }
}

/// What remains noted of identifiers without names after the walk over a nested function.
pub open spec fn unnamed_after(inner: Cx) -> Option<u32> {
    if inner.error is Some {
        inner.unnamed
    } else {
        None
    }
}

// ---------------------------------------------------------------------------
// Values
// ---------------------------------------------------------------------------

/// The assignment that a store makes.
pub open spec fn assign_store(cx: Cx, lvalue: LValue, value: Place) -> (Cx, Ex) {
    (
        after_writing(after_place(cx, value), lvalue.place.identifier),
        assign_expr(written_name(lvalue.place.identifier), place_expr(cx, value)),
    )
}

/// The expression for a value, where it has one.
pub open spec fn value_code(cx: Cx, value: InstructionValue) -> (Cx, Option<Ex>)
    decreases value, 0nat, 0nat,
{
    match value {
        InstructionValue::FunctionExpression { name, lowered_func, expr_type } => {
            let arrow = expr_type == FunctionExpressionType::ArrowFunctionExpression;
            let made = lowered_code(
                cx,
                lowered_func,
                match name {
                    Some(s) => Some(s@),
                    None => None,
                },
                arrow,
                !cx.settings.name_functions,
            );
            (
                made.0,
                Some(
                    if cx.settings.name_functions && name is None && lowered_func.func.id is Some {
                        named_expr(made.1, (lowered_func.func.id->0)@)
                    } else {
                        made.1
                    },
                ),
            )
        },
        InstructionValue::ObjectMethod { lowered_func } => {
            let made = lowered_code(cx, lowered_func, None, false, true);
            (made.0, Some(made.1))
        },
        InstructionValue::ReactiveSequenceExpression { instructions, value } => {
            let front = seq_code(cx, instructions@, *value, instructions@.len() as int);
            if value_is_kept(instructions@, *value) && front.1.len() > 0 {
                (front.0, sequence(front.1))
            } else {
                let last = value_code(front.0, *value);
                (
                    last.0,
                    match last.1 {
                        Some(e) => sequence(front.1.push(e)),
                        None => None,
                    },
                )
            }
        },
        InstructionValue::ReactiveOptionalExpression { value, .. } => {
            let inner = value_code(cx, *value);
            (
                inner.0,
                match inner.1 {
                    Some(e) => Some(chained(e)),
                    None => None,
                },
            )
        },
        InstructionValue::ReactiveLogicalExpression { operator, left, right } => {
            let l = value_code(cx, *left);
            if l.1 is None {
                (l.0, None)
            } else {
                let r = value_code(l.0, *right);
                (
                    r.0,
                    match r.1 {
                        Some(e) => Some(Ex::Logical(operator, Box::new(l.1->0), Box::new(e))),
                        None => None,
                    },
                )
            }
        },
        InstructionValue::ReactiveConditionalExpression { test, consequent, alternate } => {
            let t = value_code(cx, *test);
            if t.1 is None {
                (t.0, None)
            } else {
                let c = value_code(t.0, *consequent);
                if c.1 is None {
                    (c.0, None)
                } else {
                    let a = value_code(c.0, *alternate);
                    (
                        a.0,
                        match a.1 {
                            Some(e) => Some(
                                Ex::Conditional(
                                    Box::new(t.1->0),
                                    Box::new(c.1->0),
                                    Box::new(e),
                                ),
                            ),
                            None => None,
                        },
                    )
                }
            }
        },
        _ => simple_value(cx, value),
    }
}

/// What a store stores, and where.
pub open spec fn stored(value: InstructionValue) -> Option<(LValue, Place)> {
    match value {
        InstructionValue::StoreLocal { lvalue, value, .. } => Some((lvalue, value)),
        InstructionValue::StoreContext { lvalue, value } => Some((lvalue, value)),
        _ => None,
    }
}

/// The expression for an instruction in a sequence.
pub open spec fn item_code(cx: Cx, instr: ReactiveInstruction) -> (Cx, Option<Ex>)
    decreases instr, 0nat, 0nat,
{
    match stored(instr.value) {
        Some((lvalue, value)) => {
            if lvalue.kind == InstructionKind::Reassign {
                let s = assign_store(cx, lvalue, value);
                (s.0, Some(s.1))
            } else {
                (after_place(cx, value), Some(place_expr(cx, value)))
            }
        },
        None => value_code(cx, instr.value),
    }
}

/// What an instruction of a sequence computes stands for its temporary.
pub open spec fn after_item(cx: Cx, instr: ReactiveInstruction, e: Option<Ex>) -> Cx {
    if e is Some && instr.lvalue is Some && (instr.lvalue->0).identifier.name is None {
        with_temp(cx, (instr.lvalue->0).identifier.declaration_id.0, e->0)
    } else {
        cx
    }
}

/// The expressions of the first `n` instructions of the sequence for `value` that have to be kept.
pub open spec fn seq_code(
    cx: Cx,
    instrs: Seq<ReactiveInstruction>,
    value: InstructionValue,
    n: int,
) -> (Cx, Seq<Ex>)
    decreases instrs, 0nat, n,
{
    if n <= 0 || n > instrs.len() {
        (cx, Seq::empty())
    } else {
        let front = seq_code(cx, instrs, value, n - 1);
        let instr = instrs[n - 1];
        let item = item_code(front.0, instr);
        (
            after_item(item.0, instr, item.1),
            if item.1 is Some && kept(instrs, n - 1, value) {
                front.1.push(item.1->0)
            } else {
                front.1
            },
        )
    }
}

/// The expression for a nested function that is made from its reactive tree.
pub open spec fn reactive_code(cx: Cx, lowered: LoweredFunction, name: Option<Text>, arrow: bool) -> (
    Cx,
    Ex,
)
    decreases lowered, 0nat, 0nat,
{
    let func = *lowered.reactive;
    let inner = start(nested_settings(cx.settings, func), Set::empty(), Map::empty());
    let out = block_code(prepared(inner, func).0, func.body@);
    (
        Cx { unnamed: unnamed_after(out.0), ..cx },
        function_expr(
            name,
            lowered.func,
            func.params@,
            arrow,
            with_last_value(without_void_return(out.1)),
        ),
    )
}

/// The expression for a nested function: the one that was made elsewhere, where it may be taken, else
/// one from its reactive tree.
pub open spec fn lowered_code(
    cx: Cx,
    lowered: LoweredFunction,
    name: Option<Text>,
    arrow: bool,
    direct: bool,
) -> (Cx, Ex)
    decreases lowered, 1nat, 0nat,
{
    if direct && !repeats_call(lowered.func) && lowered.direct is Some {
        (cx, Ex::Direct { ticket: (lowered.direct->0).ticket, arrow })
    } else {
        reactive_code(cx, lowered, name, arrow)
    }
}

// ---------------------------------------------------------------------------
// Statements
// ---------------------------------------------------------------------------

/// Whether an instruction with this value is a statement of its own, and computes nothing.
pub open spec fn is_statement(value: InstructionValue) -> bool {
    ||| value is DeclareLocal
    ||| value is DeclareContext
    ||| value is StoreLocal
    ||| value is StoreContext
    ||| value is Destructure
    ||| value is Debugger
    ||| value is StartMemoize
    ||| value is FinishMemoize
}

/// The statement for an instruction that is one of its own, where it has one.
#[verifier::opaque]
pub open spec fn statement_code(cx: Cx, instr: ReactiveInstruction) -> (Cx, Option<St>) {
    match instr.value {
        InstructionValue::DeclareLocal { lvalue } => declare_code(cx, lvalue),
        InstructionValue::DeclareContext { lvalue } => declare_code(cx, lvalue),
        InstructionValue::StoreLocal { lvalue, value, .. } => {
            if lvalue.kind == InstructionKind::Reassign && instr.lvalue is Some && (
            instr.lvalue->0).identifier.name is None {
                let s = assign_store(cx, lvalue, value);
                (with_temp(s.0, (instr.lvalue->0).identifier.declaration_id.0, s.1), None)
            } else {
                store_code(cx, lvalue, value)
            }
        },
        InstructionValue::StoreContext { lvalue, value } => {
            if lvalue.kind == InstructionKind::Reassign && instr.lvalue is Some {
                outer_store_code(cx, lvalue, value, instr.lvalue->0)
            } else {
                store_code(cx, lvalue, value)
            }
        },
        InstructionValue::Destructure { lvalue, value, .. } => destructure_code(cx, lvalue, value),
        InstructionValue::Debugger => (cx, Some(St::Debugger)),
        InstructionValue::StartMemoize => (cx, None),
        InstructionValue::FinishMemoize { .. } => (cx, None),
        _ => (cx, None),
    }
}

/// The statement for an instruction, where it has one.
pub open spec fn instruction_code(cx: Cx, instr: ReactiveInstruction) -> (Cx, Option<St>)
    decreases instr, 1nat, 0nat,
{
    if is_statement(instr.value) {
        statement_code(cx, instr)
    } else {
        computed_code(jsx_noted(cx, instr), instr)
    }
}

/// The statement for an instruction that computes a value.
pub open spec fn computed_code(cx: Cx, instr: ReactiveInstruction) -> (Cx, Option<St>)
    decreases instr, 0nat, 0nat,
{
    let out = value_code(cx, instr.value);
    optional_result_code(out.0, instr.lvalue, out.1)
}

/// An assignment to a variable of an enclosing function whose value is used.
#[verifier::opaque]
pub open spec fn outer_store_code(cx: Cx, lvalue: LValue, value: Place, outer: Place) -> (Cx, Option<St>) {
    let s = assign_store(cx, lvalue, value);
    let decl = outer.identifier.declaration_id.0;
    if outer.identifier.name is None {
        (with_temp(s.0, decl, s.1), None)
    } else {
        let out = var_code(
            with_declared(after_resolving(s.0, outer.identifier), outer.identifier.id.0),
            resolved_name(s.0, outer.identifier),
            VariableKind::Const,
            Some(s.1),
            decl,
        );
        (out.0, Some(out.1))
    }
}

/// Text in an element is noted as such.
pub open spec fn jsx_noted(cx: Cx, instr: ReactiveInstruction) -> Cx {
    if instr.value is JSXText && instr.lvalue is Some {
        Cx {
            jsx_texts: cx.jsx_texts.insert((instr.lvalue->0).identifier.declaration_id.0),
            ..cx
        }
    } else {
        cx
    }
}

/// What is done with the value of an instruction.
#[verifier::opaque]
pub open spec fn result_code(cx: Cx, lvalue: Option<Place>, e: Ex) -> (Cx, Option<St>) {
    match lvalue {
        None => (
            cx,
            if pure(e) {
                None
            } else {
                Some(St::Expression(e))
            },
        ),
        Some(lv) => {
            let id = lv.identifier.id.0;
            let decl = lv.identifier.declaration_id.0;
            if lv.identifier.name is None {
                (with_temp(cx, decl, e), None)
            } else {
                let name = resolved_name(cx, lv.identifier);
                let after = after_resolving(cx, lv.identifier);
                if after.declared.contains(id) {
                    (after, Some(assignment(name, e)))
                } else {
                    let out = var_code(
                        with_decl(with_declared(after, id), decl),
                        name,
                        VariableKind::Const,
                        Some(e),
                        decl,
                    );
                    (out.0, Some(out.1))
                }
            }
        },
    }
}

/// What is done with the value of an instruction, where it has one.
pub open spec fn optional_result_code(cx: Cx, lvalue: Option<Place>, e: Option<Ex>) -> (Cx, Option<St>) {
    match e {
        Some(e) => result_code(cx, lvalue, e),
        None => (cx, None),
    }
}

pub open spec fn one_or_none(s: Option<St>) -> Seq<St> {
    match s {
        Some(s) => seq![s],
        None => Seq::empty(),
    }
}

/// A value that goes into its places is kept for them.
pub open spec fn inlined_code(cx: Cx, s: ReactiveStatement) -> Cx
    decreases s, 0nat, 0nat,
{
    match s {
        ReactiveStatement::Instruction(instr) => match instr.lvalue {
            Some(lv) => {
                let decl = lv.identifier.declaration_id.0;
                let out = value_code(cx, instr.value);
                match out.1 {
                    Some(e) => Cx {
                        inlined: out.0.inlined.insert(decl),
                        ..with_temp(out.0, decl, e)
                    },
                    None => out.0,
                }
            },
            None => cx,
        },
        _ => cx,
    }
}

/// The statements for a statement.
pub open spec fn stmt_code(cx: Cx, s: ReactiveStatement) -> (Cx, Seq<St>)
    decreases s, 0nat, 0nat,
{
    match s {
        ReactiveStatement::Instruction(instr) => {
            let out = instruction_code(cx, *instr);
            (out.0, one_or_none(out.1))
        },
        ReactiveStatement::Terminal(t) => {
            let out = terminal_code(cx, t.terminal);
            (out.0, labeled(out.1, t.label, cx.settings.quiet))
        },
        ReactiveStatement::Scope(b) => scope_code(cx, b.scope, b.instructions@),
        ReactiveStatement::PrunedScope(b) => block_code(cx, b.instructions@),
    }
}

/// The statement that a pair becomes.
pub open spec fn pair_code(cx: Cx, first: ReactiveStatement, second: ReactiveStatement) -> (Cx, Option<St>) {
    match first {
        ReactiveStatement::Instruction(a) => match second {
            ReactiveStatement::Instruction(b) => fused_call(cx, *a, *b),
            _ => (cx, None),
        },
        _ => (cx, None),
    }
}

/// The statement that the statements at `i` and behind it become, where they are a pair.
pub open spec fn pair_at(cx: Cx, block: Seq<ReactiveStatement>, i: int) -> (Cx, Option<St>) {
    if is_pair(block, i) {
        pair_code(cx, block[i], block[i + 1])
    } else {
        (cx, None)
    }
}

/// The statements for the statements from `i` on.
pub open spec fn block_from(cx: Cx, block: Seq<ReactiveStatement>, i: int) -> (Cx, Seq<St>)
    decreases block, 0nat, block.len() - i,
{
    if i < 0 || i >= block.len() {
        (cx, Seq::empty())
    } else if suppressed(block, block.len() as int).contains(i) {
        block_from(inlined_code(cx, block[i]), block, i + 1)
    } else {
        let pair = pair_at(cx, block, i);
        if pair.1 is Some {
            let rest = block_from(pair.0, block, i + 2);
            (rest.0, seq![pair.1->0] + rest.1)
        } else {
            let here = stmt_code(pair.0, block[i]);
            let rest = block_from(here.0, block, i + 1);
            (rest.0, here.1 + rest.1)
        }
    }
}

/// The statements for a block.
pub open spec fn block_code(cx: Cx, block: Seq<ReactiveStatement>) -> (Cx, Seq<St>)
    decreases block, 1nat, 0nat,
{
    block_from(catch_marked(cx, block, block.len() as int), block, 0)
}

/// The statements for a block with names of its own.
pub open spec fn scoped_code(cx: Cx, block: Seq<ReactiveStatement>) -> (Cx, Seq<St>)
    decreases block, 2nat, 0nat,
{
    let out = block_code(open_block(cx), block);
    (close_block(out.0), out.1)
}

// ---------------------------------------------------------------------------
// Terminals
// ---------------------------------------------------------------------------

pub open spec fn jump_label(kind: ReactiveTerminalTargetKind, target: BlockId) -> Option<Text> {
    if kind == ReactiveTerminalTargetKind::Labeled {
        Some(label_text(target))
    } else {
        None
    }
}

pub open spec fn optional_place(cx: Cx, place: Option<Place>) -> (Cx, Option<Ex>) {
    match place {
        Some(p) => (after_place(cx, p), Some(place_expr(cx, p))),
        None => (cx, None),
    }
}

/// The statements for an optional block with names of its own; nothing where it comes to nothing.
pub open spec fn else_code(cx: Cx, block: Option<Vec<ReactiveStatement>>) -> (Cx, Option<Seq<St>>)
    decreases block, 0nat, 0nat,
{
    match block {
        Some(b) => {
            let out = scoped_code(cx, b@);
            (
                out.0,
                if out.1.len() == 0 {
                    None
                } else {
                    Some(out.1)
                },
            )
        },
        None => (cx, None),
    }
}

/// The statements for an optional block.
pub open spec fn option_code(cx: Cx, block: Option<Vec<ReactiveStatement>>) -> (Cx, Seq<St>)
    decreases block, 0nat, 0nat,
{
    match block {
        Some(b) => block_code(cx, b@),
        None => (cx, Seq::empty()),
    }
}

/// The body of a case: one that only breaks falls through.
pub open spec fn arm_body(stmts: Seq<St>) -> Seq<St> {
    if stmts.len() == 0 || (stmts.len() == 1 && stmts[0] == St::Break(None)) {
        Seq::empty()
    } else {
        seq![St::Block(stmts)]
    }
}

/// The first `n` cases of a switch.
pub open spec fn cases_code(cx: Cx, cases: Seq<ReactiveSwitchCase>, n: int) -> (Cx, Seq<ArmModel>)
    decreases cases, 0nat, n,
{
    if n <= 0 || n > cases.len() {
        (cx, Seq::empty())
    } else {
        let front = cases_code(cx, cases, n - 1);
        let test = optional_place(front.0, cases[n - 1].test);
        let body = option_code(test.0, cases[n - 1].block);
        (body.0, front.1.push(ArmModel { test: test.1, body: arm_body(body.1) }))
    }
}

/// The expression of the last of the first `n` statements that assigns or updates something.
pub open spec fn last_update(stmts: Seq<St>, n: int) -> Option<Ex>
    decreases n,
{
    if n <= 0 || n > stmts.len() {
        None
    } else {
        match stmts[n - 1] {
            St::Expression(e) => {
                if e is Assign || e is Update {
                    Some(e)
                } else {
                    last_update(stmts, n - 1)
                }
            },
            _ => last_update(stmts, n - 1),
        }
    }
}

/// The expression that the last statement is.
pub open spec fn last_expr(stmts: Seq<St>) -> Option<Ex> {
    if stmts.len() > 0 && stmts.last() is Expression {
        Some(stmts.last()->Expression_0)
    } else {
        None
    }
}

/// What a `for` loop does behind an update that assigns `e`: the variable is read again where its
/// value is the value of the update.
pub open spec fn update_with(cx: Cx, e: Ex, value: InstructionValue) -> (Cx, Option<Ex>) {
    let read = match value {
        InstructionValue::LoadLocal { place } => Some(place),
        InstructionValue::LoadContext { place } => Some(place),
        _ => None,
    };
    match read {
        Some(p) => (after_place(cx, p), Some(Ex::Sequence(seq![e, place_expr(cx, p)]))),
        None => (cx, Some(e)),
    }
}

/// The expression for the value of an update in which nothing is assigned.
pub open spec fn update_value_code(cx: Cx, value: InstructionValue) -> (Cx, Option<Ex>)
    decreases value, 1nat, 0nat,
{
    if value is LoadLocal || value is LoadContext {
        (cx, None)
    } else {
        match stored(value) {
            Some((lvalue, v)) => {
                if lvalue.kind == InstructionKind::Reassign {
                    let s = assign_store(cx, lvalue, v);
                    (s.0, Some(s.1))
                } else {
                    value_code(cx, value)
                }
            },
            None => value_code(cx, value),
        }
    }
}

/// The statements for the block that updates a `for` loop.
pub open spec fn update_block(cx: Cx, update: Option<Vec<ReactiveStatement>>) -> (Cx, Option<Seq<St>>)
    decreases update, 0nat, 0nat,
{
    match update {
        Some(b) => {
            let out = block_code(cx, b@);
            (out.0, Some(out.1))
        },
        None => (cx, None),
    }
}

/// What a `for` loop does after each round, where the block for it comes to `stmts` and has a value.
pub open spec fn value_update(cx: Cx, stmts: Option<Seq<St>>, value: InstructionValue) -> (Cx, Option<Ex>)
    decreases value, 2nat, 0nat,
{
    match stmts {
        Some(s) => match last_update(s, s.len() as int) {
            Some(e) => update_with(cx, e, value),
            None => update_value_code(cx, value),
        },
        None => value_code(cx, value),
    }
}

/// What a `for` loop does after each round, where the block for it has no value.
pub open spec fn plain_update(stmts: Option<Seq<St>>) -> Option<Ex> {
    match stmts {
        Some(s) => match last_update(s, s.len() as int) {
            Some(e) => Some(e),
            None => last_expr(s),
        },
        None => None,
    }
}

/// What a `for` loop does after each round, where the block for it comes to `stmts`.
pub open spec fn for_update(
    cx: Cx,
    stmts: Option<Seq<St>>,
    value: Option<Box<InstructionValue>>,
) -> (Cx, Option<Ex>)
    decreases value, 0nat, 0nat,
{
    match value {
        Some(v) => value_update(cx, stmts, *v),
        None => (cx, plain_update(stmts)),
    }
}

/// The statements for a terminal.
pub open spec fn terminal_code(cx: Cx, t: ReactiveTerminal) -> (Cx, Seq<St>)
    decreases t, 0nat, 0nat,
{
    match t {
        ReactiveTerminal::Return { value } => {
            let e = place_expr(cx, value);
            (
                after_place(cx, value),
                seq![
                    St::Return(
                        if e == Ex::Identifier("undefined"@) {
                            None
                        } else {
                            Some(e)
                        },
                    ),
                ],
            )
        },
        ReactiveTerminal::Throw { value } => (
            after_place(cx, value),
            seq![St::Throw(place_expr(cx, value))],
        ),
        ReactiveTerminal::Break { target, target_kind } => (
            cx,
            if target_kind == ReactiveTerminalTargetKind::Implicit {
                Seq::empty()
            } else {
                seq![St::Break(jump_label(target_kind, target))]
            },
        ),
        ReactiveTerminal::Continue { target, target_kind } => (
            cx,
            if target_kind == ReactiveTerminalTargetKind::Implicit {
                Seq::empty()
            } else {
                seq![St::Continue(jump_label(target_kind, target))]
            },
        ),
        ReactiveTerminal::If { test, consequent, alternate } => {
            let c = scoped_code(after_place(cx, test), consequent@);
            let a = else_code(c.0, alternate);
            (
                a.0,
                seq![
                    St::If { test: place_expr(cx, test), consequent: c.1, alternate: a.1 },
                ],
            )
        },
        ReactiveTerminal::Switch { test, cases } => {
            let arms = cases_code(after_place(cx, test), cases@, cases@.len() as int);
            (
                arms.0,
                seq![St::Switch { discriminant: place_expr(cx, test), arms: arms.1 }],
            )
        },
        ReactiveTerminal::While { test, loop_block } => {
            let body = scoped_code(after_place(cx, test), loop_block@);
            (body.0, seq![St::While { test: place_expr(cx, test), body: body.1 }])
        },
        ReactiveTerminal::DoWhile { loop_block, test } => {
            let body = scoped_code(after_place(cx, test), loop_block@);
            (body.0, seq![St::DoWhile { body: body.1, test: place_expr(cx, test) }])
        },
        ReactiveTerminal::For { init, test, update, update_value, loop_block } => {
            let first = block_code(cx, init@);
            let after = after_place(first.0, test);
            let block = update_block(after, update);
            let step = for_update(block.0, block.1, update_value);
            let body = scoped_code(step.0, loop_block@);
            (
                body.0,
                seq![
                    St::For {
                        init: for_init(first.1),
                        test: Some(place_expr(first.0, test)),
                        update: step.1,
                        body: body.1,
                    },
                ],
            )
        },
        ReactiveTerminal::ForOf { init, loop_block } => {
            let right = optional_place(cx, collection_from(init@, 0));
            let first = block_code(right.0, init@);
            let left = left_from(first.1, 0);
            if left is Some && right.1 is Some {
                let body = block_code(first.0, loop_block@);
                (
                    body.0,
                    seq![St::ForOf { left: left->0, right: right.1->0, body: body.1 }],
                )
            } else {
                (first.0, Seq::empty())
            }
        },
        ReactiveTerminal::ForIn { init, loop_block } => {
            let right = optional_place(cx, collection_from(init@, 0));
            let first = block_code(right.0, init@);
            let left = left_from(first.1, 0);
            if left is Some && right.1 is Some {
                let body = block_code(first.0, loop_block@);
                (
                    body.0,
                    seq![St::ForIn { left: left->0, right: right.1->0, body: body.1 }],
                )
            } else {
                (first.0, Seq::empty())
            }
        },
        ReactiveTerminal::Label { block } => block_code(cx, block@),
        ReactiveTerminal::Try { block, handler_binding, handler } => {
            let tried = block_code(cx, block@);
            let caught = block_code(tried.0, handler@);
            let param = match handler_binding {
                Some(p) => {
                    if p.identifier.name is Some {
                        Some(own_name(p.identifier))
                    } else {
                        None
                    }
                },
                None => None,
            };
            (
                caught.0,
                seq![
                    St::Try {
                        block: tried.1,
                        handler: Some(CatchModel { param, body: caught.1 }),
                        finalizer: None,
                    },
                ],
            )
        },
    }
}

// ---------------------------------------------------------------------------
// Scopes
// ---------------------------------------------------------------------------

/// Whether all declarations of a scope are without names.
pub open spec fn all_unnamed(scope: ReactiveScope) -> bool {
    forall|i: int|
        0 <= i < scope.declarations.entries@.len() ==> (
        #[trigger] scope.declarations.entries@[i]).1.identifier.name is None
}

/// Whether a scope is not memoized: it gives nothing, nothing with a name, or only what costs nothing
/// to compute.
pub open spec fn is_inlined(scope: ReactiveScope, block: Seq<ReactiveStatement>) -> bool {
    let entries = scope.declarations.entries@;
    let constant = scope.dependencies@.len() == 0 && scope.reassignments@.len() == 0;
    ||| entries.len() == 0 && scope.reassignments@.len() == 0
    ||| constant && all_unnamed(scope)
    ||| constant && entries.len() == 1 && (strictly_trivial(block) || (
    entries[0].1.identifier.type_ == Type::Primitive && trivial_or_calls(block)))
}

/// The statement behind a scope that can return early.
pub open spec fn returns_early(scope: ReactiveScope) -> Seq<St> {
    match scope.early_return_value {
        Some(v) => seq![early_return(v.value)],
        None => Seq::empty(),
    }
}

/// The statements of a memoized scope without those behind an early return, where its body is `body`
/// and nothing is compared for debugging.
/// With variables for what has changed, these come before the declarations.
pub open spec fn memo_code(cx: Cx, front: Front, body: Seq<St>) -> (Cx, Seq<St>) {
    let head = front.chains + front.declared;
    if front.deps.len() == 0 {
        let out = memo_once(cx, front.outputs, body);
        (out.0, head + seq![out.1])
    } else if cx.settings.change_variables {
        let out = memo_with_vars(cx, front.declared, front.deps, front.outputs, body);
        (out.0, front.chains + out.1)
    } else {
        (
            cx,
            head + seq![
                memo_changed(
                    cx,
                    any_changed(cx.settings.cache, front.deps, front.deps.len() as int),
                    front.deps,
                    front.outputs,
                    body,
                ),
            ],
        )
    }
}

/// The statements of a memoized scope whose results are compared with those from before.
pub open spec fn checked_code(
    cx: Cx,
    front: Front,
    loc: Text,
    body: Seq<St>,
    again: Seq<St>,
) -> Seq<St> {
    front.chains + front.declared + seq![
        memo_checked(cx, front.deps, front.outputs, loc, body, again),
    ]
}

/// The statements for a scope.
pub open spec fn scope_code(cx: Cx, scope: ReactiveScope, block: Seq<ReactiveStatement>) -> (Cx, Seq<St>)
    decreases block, 2nat, 0nat,
{
    if is_inlined(scope, block) {
        block_code(cx, block)
    } else {
        let front = front_of(cx, scope, block, block_loads_property(block));
        let out = block_code(front.cx, block);
        let body = fused_from(out.1, 0);
        if cx.settings.change_detection && front.deps.len() > 0 {
            let noted = Cx { structural: true, ..out.0 };
            let again = block_code(noted, block);
            (
                again.0,
                checked_code(again.0, front, scope_loc(scope, block), body, again.1),
            )
        } else {
            let memo = memo_code(out.0, front, body);
            (memo.0, memo.1 + returns_early(scope))
        }
    }
}

} // verus!
