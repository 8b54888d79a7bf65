//! The steps of the walk over a function that need no other statements.

use std::rc::Rc;
use vstd::prelude::*;

use crate::codegen_ast::js::{
    expr_model, expr_models, function_model, item_models, lemma_expr_models, lemma_item_push,
    lemma_stmt_models, option_expr, option_text, stmt_model, stmt_models, unfold_expr, unfold_stmt,
    Ex, Expr, Function, FunctionModel, Item, ItemModel, St, Stmt, Text,
};
use crate::codegen_ast::loops::{assigned, assigned_in};
use crate::codegen_ast::make::{
    add_stmt, add_stmts, assign_to, call, call_expr, expression, ident, one_stmt, parenthesized,
};
use crate::codegen_ast::nested::{collect_value_mentions, value_mentions};
use crate::codegen_ast::scan::{
    arg_position, call_args, call_args_of, collect_preferred_decl_names, find_arg_position,
    is_codegen_temp, is_fusible, is_kept_always, is_sequence_side_effecting_value, kept_always,
    preferred_block, side_effecting,
};
use crate::codegen_ast::state::{
    after_place, after_writing, own_name, own_name_of, place_expr, with_decl, with_decl_name,
    with_declared, with_name, written_name, written_name_of, CodegenContext, Cx,
};
use crate::codegen_ast::stores::{
    build_assignment_target_from_pattern, callee_code, codegen_method_call_callee, option_stmt,
    pattern_code,
};
use crate::collections::{IdSet, IdTexts};
use crate::hir::{
    Argument, BlockId, HIRFunction, Identifier, InstructionValue, Place, ReactiveFunction,
    ReactiveInstruction, ReactiveLabel, ReactiveStatement, ReactiveTerminal,
};
use crate::text::{cat2, clone_texts, decimal, decimal_text, owned, same, temp_name, texts};

verus! {

broadcast use {crate::codegen_ast::js::group_js, crate::text::group_texts};

// ---------------------------------------------------------------------------
// Labels
// ---------------------------------------------------------------------------

/// The label of a block.
pub open spec fn label_text(id: BlockId) -> Text {
    "bb"@ + decimal(id.0 as nat)
}

pub fn crate_label_name(block_id: BlockId) -> (r: String)
    ensures
        r@ == label_text(block_id),
{
    cat2("bb", decimal_text(block_id.0 as u64).as_str())
}

/// The statements with a label in front. A declaration cannot have one: it is put into a block.
pub open spec fn labeled(stmts: Seq<St>, label: Option<ReactiveLabel>, quiet: bool) -> Seq<St> {
    if label is Some && !(label->0).implicit && !quiet && stmts.len() > 0 {
        let text = label_text((label->0).id);
        if stmts[0] is Variable || stmts[0] is Function {
            seq![St::Labeled { label: text, body: Box::new(St::Block(stmts)) }]
        } else {
            seq![St::Labeled { label: text, body: Box::new(stmts[0]) }] + stmts.skip(1)
        }
    } else {
        stmts
    }
}

fn is_declaration(s: &Stmt) -> (r: bool)
    ensures
        r == (stmt_model(*s) is Variable || stmt_model(*s) is Function),
{
    proof {
        unfold_stmt(s);
    }
    match s {
        Stmt::Variable(_) => true,
        Stmt::Function { .. } => true,
        _ => false,
    }
}

fn put_label(label: String, s: Stmt) -> (r: Stmt)
    ensures
        stmt_model(r) == (St::Labeled { label: label@, body: Box::new(stmt_model(s)) }),
{
    Stmt::Labeled { label, body: Box::new(s) }
}

fn block_of(stmts: Vec<Stmt>) -> (r: Stmt)
    ensures
        stmt_model(r) == St::Block(stmt_models(stmts@)),
{
    Stmt::Block(stmts)
}

proof fn lemma_skip_one(v: Seq<Stmt>)
    requires
        v.len() > 0,
    ensures
        stmt_models(v)[0] == stmt_model(v[0]),
        stmt_models(v.remove(0)) == stmt_models(v).skip(1),
        stmt_models(v).len() == v.len(),
{
    lemma_stmt_models(v);
    lemma_stmt_models(v.remove(0));
    assert(stmt_models(v.remove(0)) =~= stmt_models(v).skip(1));
}

fn label_first(stmts: Vec<Stmt>, label: String) -> (r: Vec<Stmt>)
    requires
        stmts@.len() > 0,
    ensures
        stmt_models(r@) == seq![
            St::Labeled { label: label@, body: Box::new(stmt_models(stmts@)[0]) },
        ] + stmt_models(stmts@).skip(1),
{
    proof {
        lemma_skip_one(stmts@);
    }
    let mut rest = stmts;
    let first = rest.remove(0);
    let mut r = one_stmt(put_label(label, first));
    add_stmts(&mut r, rest);
    r
}

/// Puts a label in front of statements.
pub fn attach_label(stmts: Vec<Stmt>, label: &Option<ReactiveLabel>, quiet: bool) -> (r: Vec<Stmt>)
    ensures
        stmt_models(r@) == labeled(stmt_models(stmts@), *label, quiet),
{
    proof {
        lemma_stmt_models(stmts@);
    }
    match label {
        Some(l) => {
            if l.implicit || quiet || stmts.len() == 0 {
                return stmts;
            }
            let name = crate_label_name(l.id);
            assert(stmt_models(stmts@)[0] == stmt_model(stmts@[0]));
            if is_declaration(&stmts[0]) {
                one_stmt(put_label(name, block_of(stmts)))
            } else {
                label_first(stmts, name)
            }
        },
        None => stmts,
    }
}

// ---------------------------------------------------------------------------
// Handlers
// ---------------------------------------------------------------------------

/// What the handlers among the first `n` statements catch counts as declared.
pub open spec fn catch_marked(cx: Cx, block: Seq<ReactiveStatement>, n: int) -> Cx
    decreases n,
{
    if n <= 0 {
        cx
    } else {
        let front = catch_marked(cx, block, n - 1);
        match block[n - 1] {
            ReactiveStatement::Terminal(t) => match t.terminal {
                ReactiveTerminal::Try { handler_binding, .. } => match handler_binding {
                    Some(p) => {
                        let marked = with_decl(
                            with_declared(front, p.identifier.id.0),
                            p.identifier.declaration_id.0,
                        );
                        if p.identifier.name is Some {
                            with_name(marked, own_name(p.identifier))
                        } else {
                            marked
                        }
                    },
                    None => front,
                },
                _ => front,
            },
            _ => front,
        }
    }
}

pub fn mark_catches(cx: &mut CodegenContext, block: &Vec<ReactiveStatement>)
    ensures
        final(cx)@ == catch_marked(old(cx)@, block@, block@.len() as int),
{
    let mut i: usize = 0;
    while i < block.len()
        invariant
            i <= block@.len(),
            cx@ == catch_marked(old(cx)@, block@, i as int),
        decreases block@.len() - i,
    {
        if let ReactiveStatement::Terminal(t) = &block[i] {
            if let ReactiveTerminal::Try { handler_binding: Some(p), .. } = &t.terminal {
                cx.declare(p.identifier.id);
                cx.declare_decl(p.identifier.declaration_id);
                if let Some(name) = own_name_of(&p.identifier) {
                    cx.declare_name(name.as_str());
                }
            }
        }
        i = i + 1;
    }
}

// ---------------------------------------------------------------------------
// Destructurings in calls
// ---------------------------------------------------------------------------

/// The first `n` arguments, with `e` at position `at`.
pub open spec fn args_with(cx: Cx, args: Seq<Argument>, at: int, e: Ex, n: int) -> (Cx, Seq<ItemModel>)
    decreases n,
{
    if n <= 0 {
        (cx, Seq::empty())
    } else {
        let front = args_with(cx, args, at, e, n - 1);
        if n - 1 == at {
            (front.0, front.1.push(ItemModel::Value(e)))
        } else {
            let p = args[n - 1].place_of();
            (
                after_place(front.0, p),
                front.1.push(
                    match args[n - 1] {
                        Argument::Place(_) => ItemModel::Value(place_expr(front.0, p)),
                        Argument::Spread(_) => ItemModel::Spread(place_expr(front.0, p)),
                    },
                ),
            )
        }
    }
}

fn codegen_args_with(cx: &mut CodegenContext, args: &Vec<Argument>, at: usize, e: Rc<Expr>) -> (r: Vec<Item>)
    ensures
        (final(cx)@, item_models(r@)) == args_with(
            old(cx)@,
            args@,
            at as int,
            expr_model(*e),
            args@.len() as int,
        ),
{
    let mut r: Vec<Item> = Vec::new();
    let mut i: usize = 0;
    while i < args.len()
        invariant
            i <= args@.len(),
            (cx@, item_models(r@)) == args_with(
                old(cx)@,
                args@,
                at as int,
                expr_model(*e),
                i as int,
            ),
        decreases args@.len() - i,
    {
        let item = if i == at {
            Item::Value(e.clone())
        } else {
            let p = cx.codegen_place(args[i].place());
            match &args[i] {
                Argument::Place(_) => Item::Value(p),
                Argument::Spread(_) => Item::Spread(p),
            }
        };
        proof {
            lemma_item_push(r@, item);
        }
        r.push(item);
        i = i + 1;
    }
    r
}

/// The call `value` with the expression `e` as its argument at a position.
pub open spec fn call_with(cx: Cx, value: InstructionValue, at: int, e: Ex) -> (Cx, Option<Ex>) {
    match value {
        InstructionValue::MethodCall { receiver, property, args, receiver_optional, call_optional } => {
            let f = callee_code(cx, receiver, property, receiver_optional);
            let a = args_with(f.0, args@, at, e, args@.len() as int);
            (a.0, Some(call_expr(f.1, a.1, call_optional)))
        },
        InstructionValue::CallExpression { callee, args, optional } => {
            let a = args_with(after_place(cx, callee), args@, at, e, args@.len() as int);
            (a.0, Some(call_expr(place_expr(cx, callee), a.1, optional)))
        },
        _ => (cx, None),
    }
}

fn codegen_call_with(cx: &mut CodegenContext, value: &InstructionValue, at: usize, e: Rc<Expr>) -> (r:
    Option<Rc<Expr>>)
    ensures
        (final(cx)@, option_expr(r)) == call_with(old(cx)@, *value, at as int, expr_model(*e)),
{
    match value {
        InstructionValue::MethodCall { receiver, property, args, receiver_optional, call_optional } => {
            let f = codegen_method_call_callee(cx, receiver, property, *receiver_optional);
            let a = codegen_args_with(cx, args, at, e);
            Some(call(f, a, *call_optional))
        },
        InstructionValue::CallExpression { callee, args, optional } => {
            let f = cx.codegen_place(callee);
            let a = codegen_args_with(cx, args, at, e);
            Some(call(f, a, *optional))
        },
        _ => None,
    }
}

/// The call `second` with the assignment by destructuring `first` in the place of the argument that
/// is its value.
pub open spec fn fused_call(cx: Cx, first: ReactiveInstruction, second: ReactiveInstruction) -> (
    Cx,
    Option<St>,
) {
    match first.value {
        InstructionValue::Destructure { lvalue, value, .. } => {
            let rhs = place_expr(cx, value);
            let target = pattern_code(after_place(cx, value), lvalue.pattern, false);
            match target.1 {
                Some(t) => {
                    let at = arg_position(
                        call_args(second.value)->0,
                        value.identifier.declaration_id.0,
                        0,
                    )->0;
                    let out = call_with(
                        target.0,
                        second.value,
                        at,
                        Ex::Parenthesized(Box::new(Ex::Assign(t, Box::new(rhs)))),
                    );
                    (
                        out.0,
                        match out.1 {
                            Some(e) => Some(St::Expression(e)),
                            None => None,
                        },
                    )
                },
                None => (target.0, None),
            }
        },
        _ => (cx, None),
    }
}

/// Puts an assignment by destructuring into the call behind it.
pub fn try_fuse_destructure_into_call(
    cx: &mut CodegenContext,
    first: &ReactiveInstruction,
    second: &ReactiveInstruction,
) -> (r: Option<Stmt>)
    requires
        is_fusible(*first, *second),
    ensures
        (final(cx)@, option_stmt(r)) == fused_call(old(cx)@, *first, *second),
{
    match &first.value {
        InstructionValue::Destructure { lvalue, value, .. } => {
            let rhs = cx.codegen_place(value);
            let target = match build_assignment_target_from_pattern(cx, &lvalue.pattern) {
                Some(t) => t,
                None => {
                    return None;
                },
            };
            let e = parenthesized(assign_to(target, rhs));
            let args = match call_args_of(&second.value) {
                Some(a) => a,
                None => {
                    return None;
                },
            };
            let at: usize = match find_arg_position(args, value.identifier.declaration_id.0) {
                Some(k) => k,
                None => {
                    return None;
                },
            };
            match codegen_call_with(cx, &second.value, at, e) {
                Some(c) => Some(expression(c)),
                None => None,
            }
        },
        _ => None,
    }
}

// ---------------------------------------------------------------------------
// Parameters
// ---------------------------------------------------------------------------

/// The name of a parameter: its own, one that the body gives it, or one made from its number. Without
/// memoization a temporary is called by its position.
pub open spec fn param_name(
    identifier: Identifier,
    preferred: Map<u32, Text>,
    no_features: bool,
    index: nat,
) -> Text {
    let decl = identifier.declaration_id.0;
    let raw = if identifier.name is None && preferred.contains_key(decl) {
        preferred[decl]
    } else {
        written_name(identifier)
    };
    if no_features && temp_name(raw) {
        "t"@ + decimal(index)
    } else {
        raw
    }
}

/// A parameter without any name is noted, but where there is no memoization.
pub open spec fn after_param(cx: Cx, identifier: Identifier, preferred: Map<u32, Text>) -> Cx {
    if identifier.name is None && !preferred.contains_key(identifier.declaration_id.0)
        && !cx.settings.no_features {
        after_writing(cx, identifier)
    } else {
        cx
    }
}

/// The names of the first `n` parameters.
pub open spec fn param_names(cx: Cx, params: Seq<Argument>, preferred: Map<u32, Text>, n: int) -> (Cx, Seq<
    Text,
>)
    decreases n,
{
    if n <= 0 {
        (cx, Seq::empty())
    } else {
        let front = param_names(cx, params, preferred, n - 1);
        let identifier = params[n - 1].place_of().identifier;
        (
            after_param(front.0, identifier, preferred),
            front.1.push(
                param_name(identifier, preferred, cx.settings.no_features, (n - 1) as nat),
            ),
        )
    }
}

/// The first `n` parameters are declared.
pub open spec fn params_declared(cx: Cx, params: Seq<Argument>, n: int) -> Cx
    decreases n,
{
    if n <= 0 {
        cx
    } else {
        let identifier = params[n - 1].place_of().identifier;
        let front = with_declared(params_declared(cx, params, n - 1), identifier.id.0);
        if identifier.name is Some {
            with_decl_name(
                with_name(front, own_name(identifier)),
                identifier.declaration_id.0,
                own_name(identifier),
            )
        } else {
            front
        }
    }
}

/// What is known before the body of a function, and the names of its parameters.
pub open spec fn prepared(cx: Cx, func: ReactiveFunction) -> (Cx, Seq<Text>) {
    let n = func.params@.len() as int;
    let named = param_names(cx, func.params@, preferred_block(Map::empty(), func.body@), n);
    (params_declared(named.0, func.params@, n), named.1)
}

proof fn lemma_param_names(cx: Cx, params: Seq<Argument>, preferred: Map<u32, Text>, n: int)
    ensures
        ({
            let r = param_names(cx, params, preferred, n).0;
            r == (Cx { unnamed: r.unnamed, ..cx })
        }),
    decreases n,
{
    if n > 0 {
        lemma_param_names(cx, params, preferred, n - 1);
    }
}

proof fn lemma_params_declared(cx: Cx, params: Seq<Argument>, n: int)
    ensures
        ({
            let r = params_declared(cx, params, n);
            &&& r == (Cx {
                declared: r.declared,
                declared_names: r.declared_names,
                decl_names: r.decl_names,
                ..cx
            })
            &&& cx.declared.subset_of(r.declared)
        }),
    decreases n,
{
    if n > 0 {
        lemma_params_declared(cx, params, n - 1);
    }
}

/// The parameters of a function change nothing but what is declared, and note one without a name.
pub proof fn lemma_prepared(cx: Cx, func: ReactiveFunction)
    ensures
        ({
            let r = prepared(cx, func).0;
            &&& r == (Cx {
                unnamed: r.unnamed,
                declared: r.declared,
                declared_names: r.declared_names,
                decl_names: r.decl_names,
                ..cx
            })
            &&& cx.declared.subset_of(r.declared)
        }),
{
    let n = func.params@.len() as int;
    let preferred = preferred_block(Map::empty(), func.body@);
    lemma_param_names(cx, func.params@, preferred, n);
    lemma_params_declared(param_names(cx, func.params@, preferred, n).0, func.params@, n);
}

fn name_params(
    cx: &mut CodegenContext,
    params: &Vec<Argument>,
    preferred: &IdTexts,
    no_features: bool,
) -> (r: Vec<String>)
    requires
        no_features == old(cx)@.settings.no_features,
    ensures
        (final(cx)@, texts(r@)) == param_names(
            old(cx)@,
            params@,
            preferred@,
            params@.len() as int,
        ),
{
    let mut r: Vec<String> = Vec::new();
    let mut i: usize = 0;
    while i < params.len()
        invariant
            i <= params@.len(),
            cx@.settings == old(cx)@.settings,
            no_features == old(cx)@.settings.no_features,
            (cx@, texts(r@)) == param_names(old(cx)@, params@, preferred@, i as int),
        decreases params@.len() - i,
    {
        let identifier = &params[i].place().identifier;
        let known = if identifier.name.is_none() {
            preferred.get(identifier.declaration_id.0)
        } else {
            None
        };
        let raw = match known {
            Some(s) => owned(s),
            None => {
                if identifier.name.is_none() && !no_features {
                    cx.identifier_name(identifier)
                } else {
                    written_name_of(identifier)
                }
            },
        };
        let name = if no_features && is_codegen_temp(raw.as_str()) {
            cat2("t", decimal_text(i as u64).as_str())
        } else {
            raw
        };
        r.push(name);
        i = i + 1;
    }
    r
}

fn declare_params(cx: &mut CodegenContext, params: &Vec<Argument>)
    ensures
        final(cx)@ == params_declared(old(cx)@, params@, params@.len() as int),
{
    let mut i: usize = 0;
    while i < params.len()
        invariant
            i <= params@.len(),
            cx@ == params_declared(old(cx)@, params@, i as int),
        decreases params@.len() - i,
    {
        let identifier = &params[i].place().identifier;
        cx.declare(identifier.id);
        if let Some(name) = own_name_of(identifier) {
            cx.declare_name(name.as_str());
            cx.set_decl_name(identifier.declaration_id, name.as_str());
        }
        i = i + 1;
    }
}

/// Prepares the walk over the body of a function; the result is the names of its parameters.
pub fn prepare(cx: &mut CodegenContext, func: &ReactiveFunction, no_features: bool) -> (r: Vec<String>)
    requires
        no_features == old(cx)@.settings.no_features,
    ensures
        (final(cx)@, texts(r@)) == prepared(old(cx)@, *func),
{
    let preferred = collect_preferred_decl_names(&func.body);
    let names = name_params(cx, &func.params, &preferred, no_features);
    declare_params(cx, &func.params);
    names
}

// ---------------------------------------------------------------------------
// Bodies
// ---------------------------------------------------------------------------

/// The statements of a body without a return of nothing at their end.
pub open spec fn without_void_return(stmts: Seq<St>) -> Seq<St> {
    if stmts.len() > 0 && (stmts.last() == St::Return(None) || stmts.last() == St::Return(
        Some(Ex::Identifier("undefined"@)),
    )) {
        stmts.drop_last()
    } else {
        stmts
    }
}

/// Whether an expression is `undefined`.
pub fn is_undefined(e: &Expr) -> (r: bool)
    ensures
        r == (expr_model(*e) == Ex::Identifier("undefined"@)),
{
    proof {
        unfold_expr(e);
    }
    match e {
        Expr::Identifier(s) => same(s.as_str(), "undefined"),
        _ => false,
    }
}

fn is_void_return(s: &Stmt) -> (r: bool)
    ensures
        r == (stmt_model(*s) == St::Return(None) || stmt_model(*s) == St::Return(
            Some(Ex::Identifier("undefined"@)),
        )),
{
    proof {
        unfold_stmt(s);
    }
    match s {
        Stmt::Return(Some(e)) => is_undefined(e),
        Stmt::Return(None) => true,
        _ => false,
    }
}

proof fn lemma_drop_last(v: Seq<Stmt>)
    requires
        v.len() > 0,
    ensures
        stmt_models(v).len() == v.len(),
        stmt_models(v).last() == stmt_model(v.last()),
        stmt_models(v.drop_last()) == stmt_models(v).drop_last(),
{
    lemma_stmt_models(v);
    lemma_stmt_models(v.drop_last());
    assert(stmt_models(v.drop_last()) =~= stmt_models(v).drop_last());
}

fn drop_stmt(stmts: &mut Vec<Stmt>)
    requires
        old(stmts)@.len() > 0,
    ensures
        final(stmts)@ == old(stmts)@.drop_last(),
{
    stmts.pop();
}

pub fn strip_void_return(stmts: &mut Vec<Stmt>)
    ensures
        stmt_models(final(stmts)@) == without_void_return(stmt_models(old(stmts)@)),
{
    let n: usize = stmts.len();
    proof {
        lemma_stmt_models(stmts@);
    }
    if n == 0 {
        return;
    }
    proof {
        lemma_drop_last(stmts@);
    }
    if is_void_return(&stmts[n - 1]) {
        drop_stmt(stmts);
    }
}

/// The variable that the last statement assigns.
pub open spec fn last_assigned(stmts: Seq<St>) -> Option<Text> {
    if stmts.len() == 0 {
        None
    } else {
        match stmts.last() {
            St::Expression(e) => match assigned(e) {
                Some(p) => Some(p.0),
                None => None,
            },
            _ => None,
        }
    }
}

/// The statements with the variable behind them that the last one assigns.
pub open spec fn with_last_value(stmts: Seq<St>) -> Seq<St> {
    match last_assigned(stmts) {
        Some(name) => stmts.push(St::Expression(Ex::Identifier(name))),
        None => stmts,
    }
}

fn assigned_by(s: &Stmt) -> (r: Option<String>)
    ensures
        option_text(r) == match stmt_model(*s) {
            St::Expression(e) => match assigned(e) {
                Some(p) => Some(p.0),
                None => None,
            },
            _ => None,
        },
{
    proof {
        unfold_stmt(s);
    }
    match s {
        Stmt::Expression(e) => match assigned_in(e) {
            Some((name, _)) => Some(owned(name.as_str())),
            None => None,
        },
        _ => None,
    }
}

pub fn add_last_value(stmts: &mut Vec<Stmt>)
    ensures
        stmt_models(final(stmts)@) == with_last_value(stmt_models(old(stmts)@)),
{
    let n: usize = stmts.len();
    proof {
        lemma_stmt_models(stmts@);
    }
    if n == 0 {
        return;
    }
    proof {
        lemma_drop_last(stmts@);
    }
    if let Some(name) = assigned_by(&stmts[n - 1]) {
        add_stmt(stmts, expression(ident(name.as_str())));
    }
}

// ---------------------------------------------------------------------------
// Nested functions
// ---------------------------------------------------------------------------

/// The names of the plain parameters among the first `n`.
pub open spec fn plain_params(params: Seq<Argument>, n: int) -> Seq<Text>
    decreases n,
{
    if n <= 0 {
        Seq::empty()
    } else {
        let front = plain_params(params, n - 1);
        match params[n - 1] {
            Argument::Place(p) => front.push(written_name(p.identifier)),
            Argument::Spread(_) => front,
        }
    }
}

/// The name of the last rest parameter among the first `n`.
pub open spec fn rest_param(params: Seq<Argument>, n: int) -> Option<Text>
    decreases n,
{
    if n <= 0 {
        None
    } else {
        match params[n - 1] {
            Argument::Spread(p) => Some(written_name(p.identifier)),
            Argument::Place(_) => rest_param(params, n - 1),
        }
    }
}

/// A nested function with a body.
pub open spec fn nested_function(func: HIRFunction, params: Seq<Argument>, body: Seq<St>) -> FunctionModel {
    FunctionModel {
        params: plain_params(params, params.len() as int),
        rest: rest_param(params, params.len() as int),
        directives: texts(func.directives@),
        body,
        async_: func.async_,
        generator: func.generator,
    }
}

/// What a body that is one return returns.
pub open spec fn only_returned(body: Seq<St>) -> Option<Ex> {
    if body.len() == 1 {
        match body[0] {
            St::Return(Some(e)) => Some(e),
            _ => None,
        }
    } else {
        None
    }
}

/// A function as an expression. An arrow that only returns a value has that value for its body.
pub open spec fn function_expr(
    name: Option<Text>,
    func: HIRFunction,
    params: Seq<Argument>,
    arrow: bool,
    body: Seq<St>,
) -> Ex {
    if arrow {
        if func.directives@.len() == 0 && only_returned(body) is Some {
            Ex::Arrow {
                is_expression: true,
                function: FunctionModel {
                    generator: false,
                    ..nested_function(func, params, seq![St::Expression(only_returned(body)->0)])
                },
            }
        } else {
            Ex::Arrow {
                is_expression: false,
                function: FunctionModel {
                    generator: false,
                    ..nested_function(func, params, body)
                },
            }
        }
    } else {
        Ex::Function { id: name, function: nested_function(func, params, body) }
    }
}

fn plain_params_of(params: &Vec<Argument>) -> (r: (Vec<String>, Option<String>))
    ensures
        texts(r.0@) == plain_params(params@, params@.len() as int),
        option_text(r.1) == rest_param(params@, params@.len() as int),
{
    let mut names: Vec<String> = Vec::new();
    let mut rest: Option<String> = None;
    let mut i: usize = 0;
    while i < params.len()
        invariant
            i <= params@.len(),
            texts(names@) == plain_params(params@, i as int),
            option_text(rest) == rest_param(params@, i as int),
        decreases params@.len() - i,
    {
        match &params[i] {
            Argument::Place(p) => {
                names.push(written_name_of(&p.identifier));
            },
            Argument::Spread(p) => {
                rest = Some(written_name_of(&p.identifier));
            },
        }
        i = i + 1;
    }
    (names, rest)
}

fn returned_alone(body: &Vec<Stmt>) -> (r: Option<Rc<Expr>>)
    ensures
        option_expr(r) == only_returned(stmt_models(body@)),
{
    proof {
        lemma_stmt_models(body@);
    }
    if body.len() != 1 {
        return None;
    }
    proof {
        assert(stmt_models(body@)[0] == stmt_model(body@[0]));
        unfold_stmt(&body@[0]);
    }
    match &body[0] {
        Stmt::Return(Some(e)) => Some(e.clone()),
        _ => None,
    }
}

fn make_function(
    func: &HIRFunction,
    params: &Vec<Argument>,
    body: Vec<Stmt>,
    generator: bool,
) -> (r: Function)
    ensures
        function_model(r) == (FunctionModel {
            generator,
            ..nested_function(*func, params@, stmt_models(body@))
        }),
{
    let (names, rest) = plain_params_of(params);
    Function {
        params: names,
        rest,
        directives: clone_texts(&func.directives),
        body,
        async_: func.async_,
        generator,
    }
}

fn arrow_expr(is_expression: bool, function: Function) -> (r: Rc<Expr>)
    ensures
        expr_model(*r) == (Ex::Arrow { is_expression, function: function_model(function) }),
{
    Rc::new(Expr::Arrow { is_expression, function: Box::new(function) })
}

/// Makes an expression of a nested function.
pub fn make_function_expr(
    name: Option<String>,
    func: &HIRFunction,
    params: &Vec<Argument>,
    arrow: bool,
    body: Vec<Stmt>,
) -> (r: Rc<Expr>)
    ensures
        expr_model(*r) == function_expr(
            option_text(name),
            *func,
            params@,
            arrow,
            stmt_models(body@),
        ),
{
    if arrow {
        if func.directives.len() == 0 {
            if let Some(e) = returned_alone(&body) {
                let short = one_stmt(expression(e));
                return arrow_expr(true, make_function(func, params, short, false));
            }
        }
        return arrow_expr(false, make_function(func, params, body, false));
    }
    let function = make_function(func, params, body, func.generator);
    Rc::new(Expr::Function { id: name, function: Box::new(function) })
}

// ---------------------------------------------------------------------------
// Sequences and chains
// ---------------------------------------------------------------------------

/// An optional chain that ends here.
pub open spec fn chained(e: Ex) -> Ex {
    match e {
        Ex::StaticMember { .. } => Ex::Chain(Box::new(e)),
        Ex::ComputedMember { .. } => Ex::Chain(Box::new(e)),
        Ex::Call { .. } => Ex::Chain(Box::new(e)),
        _ => e,
    }
}

pub fn end_chain(e: Rc<Expr>) -> (r: Rc<Expr>)
    ensures
        expr_model(*r) == chained(expr_model(*e)),
{
    proof {
        unfold_expr(&*e);
    }
    let chain = match &*e {
        Expr::StaticMember { .. } => true,
        Expr::ComputedMember { .. } => true,
        Expr::Call { .. } => true,
        _ => false,
    };
    if chain {
        Rc::new(Expr::Chain(e))
    } else {
        e
    }
}

/// Whether the result of the instruction at `i` has no name, and an instruction behind it or the value of
/// the sequence reads it: there it is written in place.
pub open spec fn read_behind(instrs: Seq<ReactiveInstruction>, i: int, value: InstructionValue) -> bool {
    match instrs[i].lvalue {
        Some(lv) => {
            let decl = lv.identifier.declaration_id.0;
            lv.identifier.name is None && (value_mentions(value).contains(decl) || exists|k: int|
                i < k < instrs.len() && value_mentions((#[trigger] instrs[k]).value).contains(decl))
        },
        None => false,
    }
}

/// Whether the instruction at `i` has to be kept in the sequence for `value`.
pub open spec fn kept(instrs: Seq<ReactiveInstruction>, i: int, value: InstructionValue) -> bool {
    side_effecting(instrs[i].value) && (kept_always(instrs[i].value) || !read_behind(instrs, i, value))
}

fn is_read_behind(instrs: &Vec<ReactiveInstruction>, i: usize, value: &InstructionValue) -> (r: bool)
    requires
        i < instrs@.len(),
    ensures
        r == read_behind(instrs@, i as int, *value),
{
    let decl: u32 = match &instrs[i].lvalue {
        Some(lv) => {
            if lv.identifier.name.is_some() {
                return false;
            }
            lv.identifier.declaration_id.0
        },
        None => {
            return false;
        },
    };
    let mut refs = IdSet::new();
    collect_value_mentions(value, &mut refs);
    if refs.contains(decl) {
        return true;
    }
    let n: usize = instrs.len();
    assert(i < n);
    let mut k: usize = i + 1;
    while k < instrs.len()
        invariant
            i < k <= instrs@.len(),
            instrs@[i as int].lvalue matches Some(lv) && lv.identifier.name is None
                && lv.identifier.declaration_id.0 == decl,
            forall|m: int|
                i < m < k ==> !value_mentions((#[trigger] instrs@[m]).value).contains(decl),
        decreases instrs@.len() - k,
    {
        let mut refs = IdSet::new();
        collect_value_mentions(&instrs[k].value, &mut refs);
        if refs.contains(decl) {
            assert(value_mentions(instrs@[k as int].value).contains(decl));
            return true;
        }
        k = k + 1;
    }
    false
}

pub fn is_kept(instrs: &Vec<ReactiveInstruction>, i: usize, value: &InstructionValue) -> (r: bool)
    requires
        i < instrs@.len(),
    ensures
        r == kept(instrs@, i as int, *value),
{
    is_sequence_side_effecting_value(&instrs[i].value) && (is_kept_always(&instrs[i].value)
        || !is_read_behind(instrs, i, value))
}

/// Whether an instruction computes the variable `decl`.
pub open spec fn computes(instr: ReactiveInstruction, decl: u32) -> bool {
    instr.lvalue matches Some(lv) && lv.identifier.declaration_id.0 == decl
}

/// Whether the value of a sequence is what one of its instructions computes that has to be kept.
pub open spec fn value_is_kept(instrs: Seq<ReactiveInstruction>, value: InstructionValue) -> bool {
    match value {
        InstructionValue::LoadLocal { place } => exists|i: int|
            0 <= i < instrs.len() && computes(
                #[trigger] instrs[i],
                place.identifier.declaration_id.0,
            ) && kept(instrs, i, value),
        _ => false,
    }
}

pub fn is_value_kept(instrs: &Vec<ReactiveInstruction>, value: &InstructionValue) -> (r: bool)
    ensures
        r == value_is_kept(instrs@, *value),
{
    let decl: u32 = match value {
        InstructionValue::LoadLocal { place } => place.identifier.declaration_id.0,
        _ => {
            return false;
        },
    };
    let mut i: usize = 0;
    while i < instrs.len()
        invariant
            i <= instrs@.len(),
            *value matches InstructionValue::LoadLocal { place } && decl
                == place.identifier.declaration_id.0,
            forall|k: int|
                0 <= k < i ==> !(computes(#[trigger] instrs@[k], decl) && kept(instrs@, k, *value)),
        decreases instrs@.len() - i,
    {
        let same_decl = match &instrs[i].lvalue {
            Some(lv) => lv.identifier.declaration_id.0 == decl,
            None => false,
        };
        if same_decl && is_kept(instrs, i, value) {
            assert(computes(instrs@[i as int], decl));
            return true;
        }
        i = i + 1;
    }
    false
}

/// Expressions one behind the other: the last, where there is one, else nothing.
pub open spec fn sequence(exprs: Seq<Ex>) -> Option<Ex> {
    if exprs.len() == 0 {
        None
    } else if exprs.len() == 1 {
        Some(exprs[0])
    } else {
        Some(Ex::Sequence(exprs))
    }
}

pub fn sequence_of(exprs: Vec<Rc<Expr>>) -> (r: Option<Rc<Expr>>)
    ensures
        option_expr(r) == sequence(expr_models(exprs@)),
{
    proof {
        lemma_expr_models(exprs@);
    }
    if exprs.len() == 0 {
        None
    } else if exprs.len() == 1 {
        assert(expr_models(exprs@)[0] == expr_model(*exprs@[0]));
        Some(exprs[0].clone())
    } else {
        Some(Rc::new(Expr::Sequence(exprs)))
    }
}

} // verus!
