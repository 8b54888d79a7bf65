//! The walk over a reactive function.

use std::rc::Rc;
use vstd::prelude::*;

use crate::codegen_ast::assemble::{
    assemble_changed, assemble_checked, assemble_once, assemble_with_vars, early_return_stmt,
};
use crate::codegen_ast::computed::{codegen_computed, inline_value};
use crate::codegen_ast::fuse::fuse_scope_body_ternaries;
use crate::codegen_ast::js::{
    arm_models, expr_model, expr_models, lemma_expr_models, lemma_stmt_models, option_expr,
    option_stmts, option_text, stmt_model, stmt_models, unfold_arm, unfold_expr, unfold_stmt,
    CatchClause, Ex, Expr, St, Stmt, SwitchArm, Text, VariableKind,
};
use crate::codegen_ast::loops::{extract_for_of_left, reconstruct_for_init};
use crate::codegen_ast::make::{
    add_stmt, add_stmts, assign, expression, logical, no_stmts, one_stmt,
};
use crate::codegen_ast::memo::{front_of, is_front, scope_front, Front, ScopeFront};
use crate::codegen_ast::nested::{block_loads_property, body_has_any_property_loads};
use crate::codegen_ast::pieces::{
    add_last_value, attach_label, crate_label_name, end_chain, is_kept, is_undefined, is_value_kept,
    make_function_expr, mark_catches, prepare, sequence_of, strip_void_return,
    try_fuse_destructure_into_call,
};
use crate::codegen_ast::scan::{
    extract_for_collection, format_change_detection_scope_loc,
    has_destructure_consuming_side_effecting_temp, is_fusible_pair,
    pre_scan_destructure_call_fusion, scope_body_is_strictly_trivial,
    scope_body_is_trivial_or_calls, suppressed,
};
use crate::codegen_ast::state::{own_name_of, place_expr, CodegenContext, WalkSettings};
use crate::codegen_ast::stores::{
    codegen_declare, codegen_destructure, codegen_store, emit_assignment_stmt, emit_var_decl_stmt,
    option_stmt,
};
use crate::codegen_ast::values::{
    codegen_simple_value, is_pure_expression, wrap_named_anonymous_function_expression,
};
use crate::codegen_ast::walk::{
    after_item, all_unnamed, arm_body, assign_store, block_code, block_from, cases_code,
    checked_code, else_code, for_update, instruction_code, is_inlined, is_statement, item_code,
    jump_label, jsx_noted, last_expr, last_update, lowered_code, memo_code, nested_settings,
    one_or_none, option_code, optional_place, optional_result_code, outer_store_code, pair_at,
    plain_update, reactive_code, result_code, scope_code, scoped_code, seq_code, statement_code,
    stmt_code, stored, terminal_code, update_block, update_value_code, update_with, value_code,
    value_update,
};
use crate::collections::{IdSet, IdTexts, NameSet};
use crate::hir::{
    BlockId, FunctionExpressionType, InstructionKind, InstructionValue, LValue, LoweredFunction, Place,
    ReactiveInstruction, ReactiveScope, ReactiveStatement, ReactiveSwitchCase, ReactiveTerminal,
    ReactiveTerminalTargetKind, Type,
};
use crate::text::owned;

verus! {

broadcast use crate::codegen_ast::js::group_js;

// ---------------------------------------------------------------------------
// Values
// ---------------------------------------------------------------------------

/// The assignment that a store makes.
fn codegen_assign_store(cx: &mut CodegenContext, lvalue: &LValue, value: &Place) -> (r: Rc<Expr>)
    ensures
        (final(cx)@, expr_model(*r)) == assign_store(old(cx)@, *lvalue, *value),
{
    let e = cx.codegen_place(value);
    let name = cx.identifier_name(&lvalue.place.identifier);
    assign(name.as_str(), e)
}

fn owned_name(name: &Option<String>) -> (r: Option<String>)
    ensures
        option_text(r) == option_text(*name),
{
    match name {
        Some(s) => Some(owned(s.as_str())),
        None => None,
    }
}

fn conditional(test: Rc<Expr>, consequent: Rc<Expr>, alternate: Rc<Expr>) -> (r: Rc<Expr>)
    ensures
        expr_model(*r) == Ex::Conditional(
            Box::new(expr_model(*test)),
            Box::new(expr_model(*consequent)),
            Box::new(expr_model(*alternate)),
        ),
{
    Rc::new(Expr::Conditional(test, consequent, alternate))
}

/// The expression for a value, where it has one.
pub fn codegen_instruction_value(cx: &mut CodegenContext, value: &InstructionValue) -> (r: Option<Rc<Expr>>)
    ensures
        (final(cx)@, option_expr(r)) == value_code(old(cx)@, *value),
    decreases value, 0nat, 0nat,
{
    match value {
        InstructionValue::FunctionExpression { name, lowered_func, expr_type } => {
            let arrow = *expr_type == FunctionExpressionType::ArrowFunctionExpression;
            let named = cx.name_functions();
            let e = codegen_lowered_function(cx, lowered_func, owned_name(name), arrow, !named);
            if named && name.is_none() {
                match &lowered_func.func.id {
                    Some(hint) => Some(wrap_named_anonymous_function_expression(e, hint.as_str())),
                    None => Some(e),
                }
            } else {
                Some(e)
            }
        },
        InstructionValue::ObjectMethod { lowered_func } => Some(
            codegen_lowered_function(cx, lowered_func, None, false, true),
        ),
        InstructionValue::ReactiveSequenceExpression { instructions, value } => {
            let mut exprs = codegen_sequence_items(cx, instructions, value);
            proof {
                lemma_expr_models(exprs@);
            }
            if is_value_kept(instructions, value) && exprs.len() > 0 {
                return sequence_of(exprs);
            }
            match codegen_instruction_value(cx, value) {
                Some(e) => {
                    exprs.push(e);
                    sequence_of(exprs)
                },
                None => None,
            }
        },
        InstructionValue::ReactiveOptionalExpression { value, .. } => {
            match codegen_instruction_value(cx, value) {
                Some(e) => Some(end_chain(e)),
                None => None,
            }
        },
        InstructionValue::ReactiveLogicalExpression { operator, left, right } => {
            let l = match codegen_instruction_value(cx, left) {
                Some(e) => e,
                None => {
                    return None;
                },
            };
            match codegen_instruction_value(cx, right) {
                Some(e) => Some(logical(*operator, l, e)),
                None => None,
            }
        },
        InstructionValue::ReactiveConditionalExpression { test, consequent, alternate } => {
            let t = match codegen_instruction_value(cx, test) {
                Some(e) => e,
                None => {
                    return None;
                },
            };
            let c = match codegen_instruction_value(cx, consequent) {
                Some(e) => e,
                None => {
                    return None;
                },
            };
            match codegen_instruction_value(cx, alternate) {
                Some(e) => Some(conditional(t, c, e)),
                None => None,
            }
        },
        _ => codegen_simple_value(cx, value),
    }
}

/// What a store stores, and where.
fn stored_by(value: &InstructionValue) -> (r: Option<(&LValue, &Place)>)
    ensures
        r is Some == stored(*value) is Some,
        r matches Some(p) ==> stored(*value) == Some((*p.0, *p.1)),
{
    match value {
        InstructionValue::StoreLocal { lvalue, value, .. } => Some((lvalue, value)),
        InstructionValue::StoreContext { lvalue, value } => Some((lvalue, value)),
        _ => None,
    }
}

/// The expression for an instruction in a sequence.
fn codegen_sequence_item(cx: &mut CodegenContext, instr: &ReactiveInstruction) -> (r: Option<Rc<Expr>>)
    ensures
        (final(cx)@, option_expr(r)) == item_code(old(cx)@, *instr),
    decreases instr, 0nat, 0nat,
{
    match stored_by(&instr.value) {
        Some((lvalue, value)) => {
            if lvalue.kind == InstructionKind::Reassign {
                Some(codegen_assign_store(cx, lvalue, value))
            } else {
                Some(cx.codegen_place(value))
            }
        },
        None => codegen_instruction_value(cx, &instr.value),
    }
}

/// What an instruction of a sequence computes stands for its temporary.
fn keep_item(cx: &mut CodegenContext, instr: &ReactiveInstruction, e: &Rc<Expr>)
    ensures
        final(cx)@ == after_item(old(cx)@, *instr, Some(expr_model(**e))),
{
    if let Some(lv) = &instr.lvalue {
        if lv.identifier.name.is_none() {
            cx.set_temp(lv.identifier.declaration_id, Rc::clone(e));
        }
    }
}

/// The expressions of a sequence that have to be kept.
fn codegen_sequence_items(
    cx: &mut CodegenContext,
    instrs: &Vec<ReactiveInstruction>,
    value: &InstructionValue,
) -> (r: Vec<Rc<Expr>>)
    ensures
        (final(cx)@, expr_models(r@)) == seq_code(
            old(cx)@,
            instrs@,
            *value,
            instrs@.len() as int,
        ),
    decreases instrs, 0nat, 0nat,
{
    let mut exprs: Vec<Rc<Expr>> = Vec::new();
    let mut i: usize = 0;
    while i < instrs.len()
        invariant
            i <= instrs@.len(),
            (cx@, expr_models(exprs@)) == seq_code(old(cx)@, instrs@, *value, i as int),
        decreases instrs@.len() - i,
    {
        assert(decreases_to!(instrs => instrs@));
        assert(decreases_to!(instrs@ => instrs@[i as int]));
        let instr = &instrs[i];
        if let Some(e) = codegen_sequence_item(cx, instr) {
            keep_item(cx, instr, &e);
            if is_kept(instrs, i, value) {
                exprs.push(e);
            }
        }
        i += 1;
    }
    exprs
}

/// The expression for a nested function that is made from its reactive tree.
fn lower_function_expression_via_reactive(
    cx: &mut CodegenContext,
    lowered: &LoweredFunction,
    name: Option<String>,
    arrow: bool,
) -> (r: Rc<Expr>)
    ensures
        (final(cx)@, expr_model(*r)) == reactive_code(
            old(cx)@,
            *lowered,
            option_text(name),
            arrow,
        ),
    decreases lowered, 0nat, 0nat,
{
    let func = &*lowered.reactive;
    let function = match &func.id {
        Some(s) => owned(s.as_str()),
        None => String::new(),
    };
    let settings = WalkSettings {
        change_variables: false,
        hook_guards: false,
        change_detection: false,
        no_features: false,
        always_recompute: false,
        name_functions: cx.name_functions(),
        quiet: true,
        fbt: IdSet::new(),
        initializers: cx.initializers(),
        cache: owned("$"),
        function,
    };
    assert(settings@ == nested_settings(cx@.settings, *func));
    let mut inner = CodegenContext::new(settings, NameSet::new(), IdTexts::new());
    let _ = prepare(&mut inner, func, false);
    let mut body = codegen_block(&mut inner, &func.body);
    strip_void_return(&mut body);
    add_last_value(&mut body);
    if inner.error().is_some() {
        cx.set_unnamed(inner.unnamed());
    } else {
        cx.set_unnamed(None);
    }
    make_function_expr(name, &lowered.func, &func.params, arrow, body)
}

/// The expression for a nested function: the one that was made elsewhere, where it may be taken, else
/// one from its reactive tree.
fn codegen_lowered_function(
    cx: &mut CodegenContext,
    lowered: &LoweredFunction,
    name: Option<String>,
    arrow: bool,
    direct: bool,
) -> (r: Rc<Expr>)
    ensures
        (final(cx)@, expr_model(*r)) == lowered_code(
            old(cx)@,
            *lowered,
            option_text(name),
            arrow,
            direct,
        ),
    decreases lowered, 1nat, 0nat,
{
    if direct && !has_destructure_consuming_side_effecting_temp(&lowered.func) {
        if let Some(d) = &lowered.direct {
            return Rc::new(Expr::Direct { ticket: d.ticket, arrow });
        }
    }
    lower_function_expression_via_reactive(cx, lowered, name, arrow)
}

// ---------------------------------------------------------------------------
// Statements
// ---------------------------------------------------------------------------

/// An assignment to a variable of an enclosing function whose value is used.
fn codegen_outer_store(cx: &mut CodegenContext, lvalue: &LValue, value: &Place, outer: &Place) -> (r: Option<
    Stmt,
>)
    ensures
        (final(cx)@, option_stmt(r)) == outer_store_code(old(cx)@, *lvalue, *value, *outer),
{
    proof {
        reveal(outer_store_code);
    }
    let e = codegen_assign_store(cx, lvalue, value);
    let decl = outer.identifier.declaration_id;
    if outer.identifier.name.is_none() {
        cx.set_temp(decl, e);
        None
    } else {
        let name = cx.resolve_identifier_name(&outer.identifier);
        cx.declare(outer.identifier.id);
        Some(emit_var_decl_stmt(cx, name.as_str(), VariableKind::Const, Some(e), decl))
    }
}

/// What is done with the value of an instruction.
fn codegen_result(cx: &mut CodegenContext, lvalue: &Option<Place>, e: Rc<Expr>) -> (r: Option<Stmt>)
    ensures
        (final(cx)@, option_stmt(r)) == result_code(old(cx)@, *lvalue, expr_model(*e)),
{
    proof {
        reveal(result_code);
    }
    let lv = match lvalue {
        Some(lv) => lv,
        None => {
            return if is_pure_expression(&e) {
                None
            } else {
                Some(expression(e))
            };
        },
    };
    let decl = lv.identifier.declaration_id;
    if lv.identifier.name.is_none() {
        cx.set_temp(decl, e);
        return None;
    }
    let name = cx.resolve_identifier_name(&lv.identifier);
    if cx.is_declared(lv.identifier.id) {
        Some(emit_assignment_stmt(name.as_str(), e))
    } else {
        cx.declare(lv.identifier.id);
        cx.declare_decl(decl);
        Some(emit_var_decl_stmt(cx, name.as_str(), VariableKind::Const, Some(e), decl))
    }
}

/// What is done with the value of an instruction, where it has one.
pub fn codegen_optional_result(cx: &mut CodegenContext, lvalue: &Option<Place>, e: Option<Rc<Expr>>) -> (r:
    Option<Stmt>)
    ensures
        (final(cx)@, option_stmt(r)) == optional_result_code(old(cx)@, *lvalue, option_expr(e)),
{
    match e {
        Some(e) => codegen_result(cx, lvalue, e),
        None => None,
    }
}

fn is_statement_value(value: &InstructionValue) -> (r: bool)
    ensures
        r == is_statement(*value),
{
    match value {
        InstructionValue::DeclareLocal { .. } => true,
        InstructionValue::DeclareContext { .. } => true,
        InstructionValue::StoreLocal { .. } => true,
        InstructionValue::StoreContext { .. } => true,
        InstructionValue::Destructure { .. } => true,
        InstructionValue::Debugger => true,
        InstructionValue::StartMemoize => true,
        InstructionValue::FinishMemoize { .. } => true,
        _ => false,
    }
}

/// The statement for an instruction that is one of its own, where it has one.
fn codegen_statement_instruction(cx: &mut CodegenContext, instr: &ReactiveInstruction) -> (r: Option<Stmt>)
    ensures
        (final(cx)@, option_stmt(r)) == statement_code(old(cx)@, *instr),
{
    proof {
        reveal(statement_code);
    }
    match &instr.value {
        InstructionValue::DeclareLocal { lvalue } => codegen_declare(cx, lvalue),
        InstructionValue::DeclareContext { lvalue } => codegen_declare(cx, lvalue),
        InstructionValue::StoreLocal { lvalue, value, .. } => {
            if lvalue.kind == InstructionKind::Reassign {
                if let Some(lv) = &instr.lvalue {
                    if lv.identifier.name.is_none() {
                        let e = codegen_assign_store(cx, lvalue, value);
                        cx.set_temp(lv.identifier.declaration_id, e);
                        return None;
                    }
                }
            }
            codegen_store(cx, lvalue, value)
        },
        InstructionValue::StoreContext { lvalue, value } => {
            if lvalue.kind == InstructionKind::Reassign {
                if let Some(lv) = &instr.lvalue {
                    return codegen_outer_store(cx, lvalue, value, lv);
                }
            }
            codegen_store(cx, lvalue, value)
        },
        InstructionValue::Destructure { lvalue, value, .. } => codegen_destructure(cx, lvalue, value),
        InstructionValue::Debugger => Some(Stmt::Debugger),
        InstructionValue::StartMemoize => None,
        InstructionValue::FinishMemoize { .. } => None,
        _ => None,
    }
}

/// The statement for an instruction, where it has one.
pub fn codegen_instruction(cx: &mut CodegenContext, instr: &ReactiveInstruction) -> (r: Option<Stmt>)
    ensures
        (final(cx)@, option_stmt(r)) == instruction_code(old(cx)@, *instr),
    decreases instr, 1nat, 0nat,
{
    if is_statement_value(&instr.value) {
        codegen_statement_instruction(cx, instr)
    } else {
        note_jsx(cx, instr);
        codegen_computed(cx, instr)
    }
}

/// Text in an element is noted as such.
fn note_jsx(cx: &mut CodegenContext, instr: &ReactiveInstruction)
    ensures
        final(cx)@ == jsx_noted(old(cx)@, *instr),
{
    if let InstructionValue::JSXText { .. } = &instr.value {
        if let Some(lv) = &instr.lvalue {
            cx.note_jsx_text(lv.identifier.declaration_id);
        }
    }
}

fn option_stmts_of(s: Option<Stmt>) -> (r: Vec<Stmt>)
    ensures
        stmt_models(r@) == one_or_none(option_stmt(s)),
{
    match s {
        Some(s) => one_stmt(s),
        None => no_stmts(),
    }
}

/// The statements for a statement.
fn codegen_statement(cx: &mut CodegenContext, s: &ReactiveStatement) -> (r: Vec<Stmt>)
    ensures
        (final(cx)@, stmt_models(r@)) == stmt_code(old(cx)@, *s),
    decreases s, 0nat, 0nat,
{
    match s {
        ReactiveStatement::Instruction(instr) => option_stmts_of(codegen_instruction(cx, instr)),
        ReactiveStatement::Terminal(t) => {
            let quiet = cx.quiet();
            let stmts = codegen_terminal(cx, &t.terminal);
            attach_label(stmts, &t.label, quiet)
        },
        ReactiveStatement::Scope(b) => codegen_reactive_scope(cx, &b.scope, &b.instructions),
        ReactiveStatement::PrunedScope(b) => codegen_block(cx, &b.instructions),
    }
}

/// The statement that the statements at `i` and behind it become together, where they do.
fn codegen_pair(cx: &mut CodegenContext, block: &Vec<ReactiveStatement>, i: usize) -> (r: Option<Stmt>)
    requires
        i < block@.len(),
    ensures
        (final(cx)@, option_stmt(r)) == pair_at(old(cx)@, block@, i as int),
{
    if block.len() - i < 2 {
        return None;
    }
    match &block[i] {
        ReactiveStatement::Instruction(a) => match &block[i + 1] {
            ReactiveStatement::Instruction(b) => {
                if is_fusible_pair(a, b) {
                    try_fuse_destructure_into_call(cx, a, b)
                } else {
                    None
                }
            },
            _ => None,
        },
        _ => None,
    }
}

/// The statements for a block.
pub fn codegen_block(cx: &mut CodegenContext, block: &Vec<ReactiveStatement>) -> (r: Vec<Stmt>)
    ensures
        (final(cx)@, stmt_models(r@)) == block_code(old(cx)@, block@),
    decreases block, 1nat, 0nat,
{
    mark_catches(cx, block);
    let flags = pre_scan_destructure_call_fusion(block);
    let mut out = no_stmts();
    let mut i: usize = 0;
    let ghost goal = block_code(old(cx)@, block@);
    proof {
        let rest = block_from(cx@, block@, 0);
        assert(stmt_models(out@) + rest.1 =~= rest.1);
    }
    while i < block.len()
        invariant
            i <= block@.len(),
            flags@.len() == block@.len(),
            forall|k: int|
                0 <= k < block@.len() ==> #[trigger] flags@[k] == suppressed(
                    block@,
                    block@.len() as int,
                ).contains(k),
            ({
                let rest = block_from(cx@, block@, i as int);
                goal == (rest.0, stmt_models(out@) + rest.1)
            }),
        decreases block@.len() - i,
    {
        assert(decreases_to!(block => block@));
        assert(decreases_to!(block@ => block@[i as int]));
        let ghost before = stmt_models(out@);
        if flags[i] {
            inline_value(cx, &block[i]);
            i += 1;
        } else {
            match codegen_pair(cx, block, i) {
                Some(s) => {
                    let ghost rest = block_from(cx@, block@, i + 2);
                    proof {
                        assert(before.push(stmt_model(s)) + rest.1 =~= before + (seq![
                            stmt_model(s),
                        ] + rest.1));
                    }
                    add_stmt(&mut out, s);
                    i += 2;
                },
                None => {
                    let here = codegen_statement(cx, &block[i]);
                    let ghost rest = block_from(cx@, block@, i + 1);
                    proof {
                        assert((before + stmt_models(here@)) + rest.1 =~= before + (stmt_models(here@)
                            + rest.1));
                    }
                    add_stmts(&mut out, here);
                    i += 1;
                },
            }
        }
    }
    out
}

// ---------------------------------------------------------------------------
// Terminals
// ---------------------------------------------------------------------------

fn return_stmt(e: Rc<Expr>) -> (r: Stmt)
    ensures
        stmt_model(r) == St::Return(
            if expr_model(*e) == Ex::Identifier("undefined"@) {
                None
            } else {
                Some(expr_model(*e))
            },
        ),
{
    if is_undefined(&e) {
        Stmt::Return(None)
    } else {
        Stmt::Return(Some(e))
    }
}

fn label_of(kind: ReactiveTerminalTargetKind, target: BlockId) -> (r: Option<String>)
    ensures
        option_text(r) == jump_label(kind, target),
{
    if kind == ReactiveTerminalTargetKind::Labeled {
        Some(crate_label_name(target))
    } else {
        None
    }
}

fn codegen_optional_place(cx: &mut CodegenContext, place: Option<&Place>) -> (r: Option<Rc<Expr>>)
    ensures
        (final(cx)@, option_expr(r)) == optional_place(
            old(cx)@,
            match place {
                Some(p) => Some(*p),
                None => None,
            },
        ),
{
    match place {
        Some(p) => Some(cx.codegen_place(p)),
        None => None,
    }
}

/// The statements for a block with names of its own.
fn codegen_scoped_block(cx: &mut CodegenContext, block: &Vec<ReactiveStatement>) -> (r: Vec<Stmt>)
    ensures
        (final(cx)@, stmt_models(r@)) == scoped_code(old(cx)@, block@),
    decreases block, 2nat, 0nat,
{
    cx.push_name_scope();
    let r = codegen_block(cx, block);
    cx.pop_name_scope();
    r
}

/// The statements for an optional block with names of its own; nothing where it comes to nothing.
fn codegen_else(cx: &mut CodegenContext, block: &Option<Vec<ReactiveStatement>>) -> (r: Option<Vec<Stmt>>)
    ensures
        (final(cx)@, option_stmts(r)) == else_code(old(cx)@, *block),
    decreases block, 0nat, 0nat,
{
    match block {
        Some(b) => {
            let stmts = codegen_scoped_block(cx, b);
            proof {
                lemma_stmt_models(stmts@);
            }
            if stmts.len() == 0 {
                None
            } else {
                Some(stmts)
            }
        },
        None => None,
    }
}

/// The statements for an optional block.
fn codegen_optional_block(cx: &mut CodegenContext, block: &Option<Vec<ReactiveStatement>>) -> (r: Vec<Stmt>)
    ensures
        (final(cx)@, stmt_models(r@)) == option_code(old(cx)@, *block),
    decreases block, 0nat, 0nat,
{
    match block {
        Some(b) => codegen_block(cx, b),
        None => no_stmts(),
    }
}

fn is_plain_break(s: &Stmt) -> (r: bool)
    ensures
        r == (stmt_model(*s) == St::Break(None)),
{
    proof {
        unfold_stmt(s);
    }
    match s {
        Stmt::Break(l) => l.is_none(),
        _ => false,
    }
}

fn case_body(stmts: Vec<Stmt>) -> (r: Vec<Stmt>)
    ensures
        stmt_models(r@) == arm_body(stmt_models(stmts@)),
{
    proof {
        lemma_stmt_models(stmts@);
    }
    if stmts.len() == 0 || (stmts.len() == 1 && is_plain_break(&stmts[0])) {
        no_stmts()
    } else {
        one_stmt(Stmt::Block(stmts))
    }
}

/// The cases of a switch.
fn codegen_cases(cx: &mut CodegenContext, cases: &Vec<ReactiveSwitchCase>) -> (r: Vec<SwitchArm>)
    ensures
        (final(cx)@, arm_models(r@)) == cases_code(old(cx)@, cases@, cases@.len() as int),
    decreases cases, 0nat, 0nat,
{
    let mut arms: Vec<SwitchArm> = Vec::new();
    let mut i: usize = 0;
    while i < cases.len()
        invariant
            i <= cases@.len(),
            (cx@, arm_models(arms@)) == cases_code(old(cx)@, cases@, i as int),
        decreases cases@.len() - i,
    {
        assert(decreases_to!(cases => cases@));
        assert(decreases_to!(cases@ => cases@[i as int]));
        let case = &cases[i];
        let test = codegen_optional_place(cx, case.test.as_ref());
        let stmts = codegen_optional_block(cx, &case.block);
        let arm = SwitchArm { test, body: case_body(stmts) };
        proof {
            unfold_arm(&arm);
        }
        arms.push(arm);
        i += 1;
    }
    arms
}

fn updating(s: &Stmt) -> (r: Option<Rc<Expr>>)
    ensures
        option_expr(r) == match stmt_model(*s) {
            St::Expression(e) => {
                if e is Assign || e is Update {
                    Some(e)
                } else {
                    None
                }
            },
            _ => None,
        },
{
    proof {
        unfold_stmt(s);
    }
    match s {
        Stmt::Expression(e) => {
            proof {
                unfold_expr(&**e);
            }
            match &**e {
                Expr::Assign(..) => Some(Rc::clone(e)),
                Expr::Update { .. } => Some(Rc::clone(e)),
                _ => None,
            }
        },
        _ => None,
    }
}

/// The expression of the last statement that assigns or updates something.
fn find_last_update(stmts: &Vec<Stmt>) -> (r: Option<Rc<Expr>>)
    ensures
        option_expr(r) == last_update(stmt_models(stmts@), stmts@.len() as int),
{
    proof {
        lemma_stmt_models(stmts@);
    }
    let ghost models = stmt_models(stmts@);
    let mut n: usize = stmts.len();
    while n > 0
        invariant
            n <= stmts@.len(),
            models == stmt_models(stmts@),
            models.len() == stmts@.len(),
            forall|k: int| 0 <= k < stmts@.len() ==> #[trigger] models[k] == stmt_model(stmts@[k]),
            last_update(models, stmts@.len() as int) == last_update(models, n as int),
        decreases n,
    {
        assert(models[n - 1] == stmt_model(stmts@[n - 1]));
        if let Some(e) = updating(&stmts[n - 1]) {
            return Some(e);
        }
        n -= 1;
    }
    None
}

fn find_last_expr(stmts: &Vec<Stmt>) -> (r: Option<Rc<Expr>>)
    ensures
        option_expr(r) == last_expr(stmt_models(stmts@)),
{
    proof {
        lemma_stmt_models(stmts@);
    }
    if stmts.len() == 0 {
        return None;
    }
    let s = &stmts[stmts.len() - 1];
    proof {
        unfold_stmt(s);
    }
    match s {
        Stmt::Expression(e) => Some(Rc::clone(e)),
        _ => None,
    }
}

fn codegen_update_with(cx: &mut CodegenContext, e: Rc<Expr>, value: &InstructionValue) -> (r: Option<
    Rc<Expr>,
>)
    ensures
        (final(cx)@, option_expr(r)) == update_with(old(cx)@, expr_model(*e), *value),
{
    let read = match value {
        InstructionValue::LoadLocal { place } => Some(place),
        InstructionValue::LoadContext { place } => Some(place),
        _ => None,
    };
    match read {
        Some(p) => {
            let mut exprs: Vec<Rc<Expr>> = Vec::new();
            exprs.push(e);
            exprs.push(cx.codegen_place(p));
            assert(expr_models(exprs@) =~= seq![expr_model(*e), place_expr(old(cx)@, *p)]);
            Some(Rc::new(Expr::Sequence(exprs)))
        },
        None => Some(e),
    }
}

fn is_load(value: &InstructionValue) -> (r: bool)
    ensures
        r == (value is LoadLocal || value is LoadContext),
{
    match value {
        InstructionValue::LoadLocal { .. } => true,
        InstructionValue::LoadContext { .. } => true,
        _ => false,
    }
}

/// The expression for the value of an update in which nothing is assigned.
fn codegen_update_value(cx: &mut CodegenContext, value: &InstructionValue) -> (r: Option<Rc<Expr>>)
    ensures
        (final(cx)@, option_expr(r)) == update_value_code(old(cx)@, *value),
    decreases value, 1nat, 0nat,
{
    if is_load(value) {
        return None;
    }
    if let Some((lvalue, v)) = stored_by(value) {
        if lvalue.kind == InstructionKind::Reassign {
            return Some(codegen_assign_store(cx, lvalue, v));
        }
    }
    codegen_instruction_value(cx, value)
}

/// The statements for the block that updates a `for` loop.
fn codegen_update_block(cx: &mut CodegenContext, update: &Option<Vec<ReactiveStatement>>) -> (r: Option<
    Vec<Stmt>,
>)
    ensures
        (final(cx)@, option_stmts(r)) == update_block(old(cx)@, *update),
    decreases update, 0nat, 0nat,
{
    match update {
        Some(b) => Some(codegen_block(cx, b)),
        None => None,
    }
}

/// What a `for` loop does after each round, where the block for it comes to `stmts` and has a value.
fn codegen_value_update(
    cx: &mut CodegenContext,
    stmts: Option<Vec<Stmt>>,
    value: &InstructionValue,
) -> (r: Option<Rc<Expr>>)
    ensures
        (final(cx)@, option_expr(r)) == value_update(old(cx)@, option_stmts(stmts), *value),
    decreases value, 2nat, 0nat,
{
    match &stmts {
        Some(s) => {
            proof {
                lemma_stmt_models(s@);
            }
            match find_last_update(s) {
                Some(e) => codegen_update_with(cx, e, value),
                None => codegen_update_value(cx, value),
            }
        },
        None => codegen_instruction_value(cx, value),
    }
}

/// What a `for` loop does after each round, where the block for it has no value.
fn find_plain_update(stmts: Option<Vec<Stmt>>) -> (r: Option<Rc<Expr>>)
    ensures
        option_expr(r) == plain_update(option_stmts(stmts)),
{
    match &stmts {
        Some(s) => {
            proof {
                lemma_stmt_models(s@);
            }
            match find_last_update(s) {
                Some(e) => Some(e),
                None => find_last_expr(s),
            }
        },
        None => None,
    }
}

/// What a `for` loop does after each round, where the block for it comes to `stmts`.
fn codegen_for_update(
    cx: &mut CodegenContext,
    stmts: Option<Vec<Stmt>>,
    value: &Option<Box<InstructionValue>>,
) -> (r: Option<Rc<Expr>>)
    ensures
        (final(cx)@, option_expr(r)) == for_update(old(cx)@, option_stmts(stmts), *value),
    decreases value, 0nat, 0nat,
{
    match value {
        Some(v) => codegen_value_update(cx, stmts, v),
        None => find_plain_update(stmts),
    }
}

/// The statements for a terminal.
pub fn codegen_terminal(cx: &mut CodegenContext, terminal: &ReactiveTerminal) -> (r: Vec<Stmt>)
    ensures
        (final(cx)@, stmt_models(r@)) == terminal_code(old(cx)@, *terminal),
    decreases terminal, 0nat, 0nat,
{
    match terminal {
        ReactiveTerminal::Return { value } => {
            let e = cx.codegen_place(value);
            one_stmt(return_stmt(e))
        },
        ReactiveTerminal::Throw { value } => one_stmt(Stmt::Throw(cx.codegen_place(value))),
        ReactiveTerminal::Break { target, target_kind } => {
            if *target_kind == ReactiveTerminalTargetKind::Implicit {
                no_stmts()
            } else {
                one_stmt(Stmt::Break(label_of(*target_kind, *target)))
            }
        },
        ReactiveTerminal::Continue { target, target_kind } => {
            if *target_kind == ReactiveTerminalTargetKind::Implicit {
                no_stmts()
            } else {
                one_stmt(Stmt::Continue(label_of(*target_kind, *target)))
            }
        },
        ReactiveTerminal::If { test, consequent, alternate } => {
            let test = cx.codegen_place(test);
            let consequent = codegen_scoped_block(cx, consequent);
            let alternate = codegen_else(cx, alternate);
            one_stmt(Stmt::If { test, consequent, alternate })
        },
        ReactiveTerminal::Switch { test, cases } => {
            let discriminant = cx.codegen_place(test);
            let arms = codegen_cases(cx, cases);
            one_stmt(Stmt::Switch { discriminant, arms })
        },
        ReactiveTerminal::While { test, loop_block } => {
            let test = cx.codegen_place(test);
            let body = codegen_scoped_block(cx, loop_block);
            one_stmt(Stmt::While { test, body })
        },
        ReactiveTerminal::DoWhile { loop_block, test } => {
            let test = cx.codegen_place(test);
            let body = codegen_scoped_block(cx, loop_block);
            one_stmt(Stmt::DoWhile { body, test })
        },
        ReactiveTerminal::For { init, test, update, update_value, loop_block } => {
            let init = reconstruct_for_init(codegen_block(cx, init));
            let test = Some(cx.codegen_place(test));
            let stmts = codegen_update_block(cx, update);
            let update = codegen_for_update(cx, stmts, update_value);
            let body = codegen_scoped_block(cx, loop_block);
            one_stmt(Stmt::For { init, test, update, body })
        },
        ReactiveTerminal::ForOf { init, loop_block } => {
            let right = codegen_optional_place(cx, extract_for_collection(init));
            let left = extract_for_of_left(codegen_block(cx, init));
            match (left, right) {
                (Some(left), Some(right)) => {
                    let body = codegen_block(cx, loop_block);
                    one_stmt(Stmt::ForOf { left, right, body })
                },
                _ => no_stmts(),
            }
        },
        ReactiveTerminal::ForIn { init, loop_block } => {
            let right = codegen_optional_place(cx, extract_for_collection(init));
            let left = extract_for_of_left(codegen_block(cx, init));
            match (left, right) {
                (Some(left), Some(right)) => {
                    let body = codegen_block(cx, loop_block);
                    one_stmt(Stmt::ForIn { left, right, body })
                },
                _ => no_stmts(),
            }
        },
        ReactiveTerminal::Label { block } => codegen_block(cx, block),
        ReactiveTerminal::Try { block, handler_binding, handler } => {
            let block = codegen_block(cx, block);
            let body = codegen_block(cx, handler);
            let param = match handler_binding {
                Some(p) => own_name_of(&p.identifier),
                None => None,
            };
            one_stmt(Stmt::Try { block, handler: Some(CatchClause { param, body }), finalizer: None })
        },
    }
}

// ---------------------------------------------------------------------------
// Scopes
// ---------------------------------------------------------------------------

fn are_all_unnamed(scope: &ReactiveScope) -> (r: bool)
    ensures
        r == all_unnamed(*scope),
{
    let entries = &scope.declarations.entries;
    let mut i: usize = 0;
    while i < entries.len()
        invariant
            i <= entries@.len(),
            entries == &scope.declarations.entries,
            forall|k: int| 0 <= k < i ==> (#[trigger] entries@[k]).1.identifier.name is None,
        decreases entries@.len() - i,
    {
        if entries[i].1.identifier.name.is_some() {
            assert(scope.declarations.entries@[i as int].1.identifier.name is Some);
            return false;
        }
        i += 1;
    }
    true
}

/// Whether a scope is not memoized.
fn is_scope_inlined(scope: &ReactiveScope, block: &Vec<ReactiveStatement>) -> (r: bool)
    ensures
        r == is_inlined(*scope, block@),
{
    let entries = &scope.declarations.entries;
    let reassigns = scope.reassignments.len() > 0;
    if entries.len() == 0 && !reassigns {
        return true;
    }
    if scope.dependencies.len() > 0 || reassigns {
        return false;
    }
    if are_all_unnamed(scope) {
        return true;
    }
    if entries.len() != 1 {
        return false;
    }
    scope_body_is_strictly_trivial(block) || (entries[0].1.identifier.type_ == Type::Primitive
        && scope_body_is_trivial_or_calls(block))
}

/// The statements of a memoized scope without those behind an early return.
fn assemble_memo(cx: &mut CodegenContext, front: ScopeFront, body: Vec<Stmt>) -> (r: Vec<Stmt>)
    ensures
        forall|m: Front|
            #[trigger] is_front(front, m) ==> (final(cx)@, stmt_models(r@)) == memo_code(
                old(cx)@,
                m,
                stmt_models(body@),
            ),
{
    let mut out = front.chains;
    if front.deps.len() == 0 {
        add_stmts(&mut out, front.declared);
        let s = assemble_once(cx, &front.outputs, body);
        add_stmt(&mut out, s);
    } else if cx.change_variables() {
        let stmts = assemble_with_vars(cx, front.declared, &front.deps, &front.outputs, body);
        add_stmts(&mut out, stmts);
    } else {
        add_stmts(&mut out, front.declared);
        let s = assemble_changed(cx, &front.deps, &front.outputs, body);
        add_stmt(&mut out, s);
    }
    out
}

/// The statements of a memoized scope, where it is compared with its results from before.
fn assemble_memo_checked(
    cx: &CodegenContext,
    front: ScopeFront,
    loc: String,
    body: Vec<Stmt>,
    again: Vec<Stmt>,
) -> (r: Vec<Stmt>)
    requires
        front.deps@.len() > 0,
    ensures
        forall|m: Front|
            #[trigger] is_front(front, m) ==> stmt_models(r@) == checked_code(
                cx@,
                m,
                loc@,
                stmt_models(body@),
                stmt_models(again@),
            ),
{
    let mut out = front.chains;
    add_stmts(&mut out, front.declared);
    let s = assemble_checked(cx, &front.deps, &front.outputs, loc.as_str(), body, again);
    add_stmt(&mut out, s);
    out
}

/// The statements for a scope.
pub fn codegen_reactive_scope(
    cx: &mut CodegenContext,
    scope: &ReactiveScope,
    block: &Vec<ReactiveStatement>,
) -> (r: Vec<Stmt>)
    ensures
        (final(cx)@, stmt_models(r@)) == scope_code(old(cx)@, *scope, block@),
    decreases block, 2nat, 0nat,
{
    if is_scope_inlined(scope, block) {
        return codegen_block(cx, block);
    }
    let checks = cx.change_detection();
    let ghost m = front_of(cx@, *scope, block@, block_loads_property(block@));
    let front = scope_front(cx, scope, block, body_has_any_property_loads(block));
    assert(m.deps.len() == front.deps@.len());
    let mut body = codegen_block(cx, block);
    fuse_scope_body_ternaries(&mut body);
    if checks && front.deps.len() > 0 {
        cx.note_structural_check();
        let again = codegen_block(cx, block);
        let loc = format_change_detection_scope_loc(scope, block);
        assemble_memo_checked(cx, front, loc, body, again)
    } else {
        let mut out = assemble_memo(cx, front, body);
        if let Some(v) = &scope.early_return_value {
            add_stmt(&mut out, early_return_stmt(&v.value));
        }
        out
    }
}

} // verus!
