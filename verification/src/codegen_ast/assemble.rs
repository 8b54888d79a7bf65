//! The statements around the body of a memoized scope.

use std::rc::Rc;
use vstd::prelude::*;

use crate::codegen_ast::js::{
    expr_model, item_models, stmt_model, stmt_models, Ex, Expr, Item, St, Stmt, Target, TargetModel,
    Text, VariableKind,
};
use crate::codegen_ast::make::{
    add_item, add_stmt, add_stmts, assign, assign_expr, assign_to, binary, boolean, call, call_expr,
    declare_var, expression, ident, logical, one_stmt, symbol, symbol_expr, text, values, var_stmt,
};
use crate::codegen_ast::memo::output_models;
use crate::codegen_ast::state::{
    after_synthesizing, cache_access, synthesized, temp_models, with_slot, written_name,
    written_name_of, CodegenContext, Cx,
};
use crate::hir::{BinaryOperator, Identifier, LogicalOperator, UnaryOperator};
use crate::text::{cat2, decimal, decimal_text, texts};

verus! {

broadcast use {crate::codegen_ast::js::group_js, crate::text::group_texts};

/// The symbol that an unused slot of the cache holds.
pub const MEMO_CACHE_SENTINEL: &'static str = "react.memo_cache_sentinel";

/// The symbol that tells that a scope did not return.
pub const EARLY_RETURN_SENTINEL: &'static str = "react.early_return_sentinel";

/// The function that compares values for debugging.
pub const STRUCTURAL_CHECK_IDENT: &'static str = "$structuralCheck";

// ---------------------------------------------------------------------------
// Slots
// ---------------------------------------------------------------------------

/// The assignment of a value to a slot.
pub open spec fn cache_assign(cache: Text, slot: u32, e: Ex) -> Ex {
    Ex::Assign(TargetModel::Member(Box::new(cache_access(cache, slot))), Box::new(e))
}

fn assign_slot(cx: &CodegenContext, slot: u32, e: Rc<Expr>) -> (r: Stmt)
    ensures
        stmt_model(r) == St::Expression(
            cache_assign(cx@.settings.cache, slot, expr_model(*e)),
        ),
{
    expression(assign_to(Target::Member(cx.cache_access(slot)), e))
}

/// The statements that put the first `n` dependencies into their slots.
pub open spec fn dep_stores(cache: Text, deps: Seq<(u32, Ex)>, n: int) -> Seq<St>
    decreases n,
{
    if n <= 0 {
        Seq::empty()
    } else {
        dep_stores(cache, deps, n - 1).push(
            St::Expression(cache_assign(cache, deps[n - 1].0, deps[n - 1].1)),
        )
    }
}

/// The statements that put the first `n` results into their slots.
pub open spec fn output_stores(cache: Text, outs: Seq<(Text, u32)>, n: int) -> Seq<St>
    decreases n,
{
    if n <= 0 {
        Seq::empty()
    } else {
        output_stores(cache, outs, n - 1).push(
            St::Expression(cache_assign(cache, outs[n - 1].1, Ex::Identifier(outs[n - 1].0))),
        )
    }
}

/// The statements that take the first `n` results from their slots.
pub open spec fn output_loads(cache: Text, outs: Seq<(Text, u32)>, n: int) -> Seq<St>
    decreases n,
{
    if n <= 0 {
        Seq::empty()
    } else {
        output_loads(cache, outs, n - 1).push(
            St::Expression(assign_expr(outs[n - 1].0, cache_access(cache, outs[n - 1].1))),
        )
    }
}

fn add_dep_stores(cx: &CodegenContext, deps: &Vec<(u32, Rc<Expr>)>, stmts: &mut Vec<Stmt>)
    ensures
        stmt_models(final(stmts)@) == stmt_models(old(stmts)@) + dep_stores(
            cx@.settings.cache,
            temp_models(deps@),
            deps@.len() as int,
        ),
{
    let ghost all = temp_models(deps@);
    let mut i: usize = 0;
    proof {
        assert(stmt_models(stmts@) =~= stmt_models(stmts@) + dep_stores(cx@.settings.cache, all, 0));
    }
    while i < deps.len()
        invariant
            i <= deps@.len(),
            all == temp_models(deps@),
            stmt_models(stmts@) == stmt_models(old(stmts)@) + dep_stores(
                cx@.settings.cache,
                all,
                i as int,
            ),
        decreases deps@.len() - i,
    {
        assert(all[i as int] == (deps@[i as int].0, expr_model(*deps@[i as int].1)));
        add_stmt(stmts, assign_slot(cx, deps[i].0, deps[i].1.clone()));
        proof {
            assert(stmt_models(stmts@) =~= stmt_models(old(stmts)@) + dep_stores(
                cx@.settings.cache,
                all,
                i as int + 1,
            ));
        }
        i = i + 1;
    }
}

fn add_output_stores(cx: &CodegenContext, outs: &Vec<(String, u32)>, stmts: &mut Vec<Stmt>)
    ensures
        stmt_models(final(stmts)@) == stmt_models(old(stmts)@) + output_stores(
            cx@.settings.cache,
            output_models(outs@),
            outs@.len() as int,
        ),
{
    let ghost all = output_models(outs@);
    let mut i: usize = 0;
    proof {
        assert(stmt_models(stmts@) =~= stmt_models(stmts@) + output_stores(
            cx@.settings.cache,
            all,
            0,
        ));
    }
    while i < outs.len()
        invariant
            i <= outs@.len(),
            all == output_models(outs@),
            stmt_models(stmts@) == stmt_models(old(stmts)@) + output_stores(
                cx@.settings.cache,
                all,
                i as int,
            ),
        decreases outs@.len() - i,
    {
        assert(all[i as int] == (outs@[i as int].0@, outs@[i as int].1));
        add_stmt(stmts, assign_slot(cx, outs[i].1, ident(outs[i].0.as_str())));
        proof {
            assert(stmt_models(stmts@) =~= stmt_models(old(stmts)@) + output_stores(
                cx@.settings.cache,
                all,
                i as int + 1,
            ));
        }
        i = i + 1;
    }
}

fn load_outputs(cx: &CodegenContext, outs: &Vec<(String, u32)>) -> (r: Vec<Stmt>)
    ensures
        stmt_models(r@) == output_loads(
            cx@.settings.cache,
            output_models(outs@),
            outs@.len() as int,
        ),
        r@.len() == outs@.len(),
{
    let ghost all = output_models(outs@);
    let mut r: Vec<Stmt> = Vec::new();
    let mut i: usize = 0;
    while i < outs.len()
        invariant
            i <= outs@.len(),
            all == output_models(outs@),
            r@.len() == i,
            stmt_models(r@) == output_loads(cx@.settings.cache, all, i as int),
        decreases outs@.len() - i,
    {
        assert(all[i as int] == (outs@[i as int].0@, outs@[i as int].1));
        let e = cx.cache_access(outs[i].1);
        r.push(expression(assign(outs[i].0.as_str(), e)));
        i = i + 1;
    }
    r
}

// ---------------------------------------------------------------------------
// Tests
// ---------------------------------------------------------------------------

/// The test whether a dependency has changed.
pub open spec fn changed(cache: Text, dep: (u32, Ex)) -> Ex {
    Ex::Binary(
        BinaryOperator::StrictNotEq,
        Box::new(cache_access(cache, dep.0)),
        Box::new(dep.1),
    )
}

fn changed_test(cx: &CodegenContext, slot: u32, e: &Rc<Expr>) -> (r: Rc<Expr>)
    ensures
        expr_model(*r) == changed(cx@.settings.cache, (slot, expr_model(**e))),
{
    binary(BinaryOperator::StrictNotEq, cx.cache_access(slot), e.clone())
}

pub open spec fn or(a: Ex, b: Ex) -> Ex {
    Ex::Logical(LogicalOperator::Or, Box::new(a), Box::new(b))
}

/// Whether one of the first `n` dependencies has changed; `n` is not 0.
pub open spec fn any_changed(cache: Text, deps: Seq<(u32, Ex)>, n: int) -> Ex
    decreases n,
{
    if n <= 1 {
        changed(cache, deps[0])
    } else {
        or(any_changed(cache, deps, n - 1), changed(cache, deps[n - 1]))
    }
}

fn any_changed_test(cx: &CodegenContext, deps: &Vec<(u32, Rc<Expr>)>) -> (r: Rc<Expr>)
    requires
        deps@.len() > 0,
    ensures
        expr_model(*r) == any_changed(
            cx@.settings.cache,
            temp_models(deps@),
            deps@.len() as int,
        ),
{
    let ghost all = temp_models(deps@);
    let ghost cache = cx@.settings.cache;
    assert(all[0] == (deps@[0].0, expr_model(*deps@[0].1)));
    let mut r = changed_test(cx, deps[0].0, &deps[0].1);
    let mut i: usize = 1;
    while i < deps.len()
        invariant
            1 <= i <= deps@.len(),
            all == temp_models(deps@),
            cache == cx@.settings.cache,
            expr_model(*r) == any_changed(cache, all, i as int),
        decreases deps@.len() - i,
    {
        assert(all[i as int] == (deps@[i as int].0, expr_model(*deps@[i as int].1)));
        r = logical(LogicalOperator::Or, r, changed_test(cx, deps[i].0, &deps[i].1));
        i = i + 1;
    }
    r
}

/// Whether one of the first `n` variables is true; `n` is not 0.
pub open spec fn any_true(names: Seq<Text>, n: int) -> Ex
    decreases n,
{
    if n <= 1 {
        Ex::Identifier(names[0])
    } else {
        or(any_true(names, n - 1), Ex::Identifier(names[n - 1]))
    }
}

fn any_true_test(names: &Vec<String>) -> (r: Rc<Expr>)
    requires
        names@.len() > 0,
    ensures
        expr_model(*r) == any_true(texts(names@), names@.len() as int),
{
    let ghost all = texts(names@);
    let mut r = ident(names[0].as_str());
    let mut i: usize = 1;
    while i < names.len()
        invariant
            1 <= i <= names@.len(),
            all == texts(names@),
            expr_model(*r) == any_true(all, i as int),
        decreases names@.len() - i,
    {
        r = logical(LogicalOperator::Or, r, ident(names[i].as_str()));
        i = i + 1;
    }
    r
}

/// The test, which is always true where everything is computed anew.
pub open spec fn full_test(cx: Cx, test: Ex) -> Ex {
    if cx.settings.always_recompute {
        or(test, Ex::Boolean(true))
    } else {
        test
    }
}

fn complete_test(cx: &CodegenContext, test: Rc<Expr>) -> (r: Rc<Expr>)
    ensures
        expr_model(*r) == full_test(cx@, expr_model(*test)),
{
    if cx.always_recompute() {
        logical(LogicalOperator::Or, test, boolean(true))
    } else {
        test
    }
}

/// The statement that computes, or else loads.
pub open spec fn memo_if(test: Ex, computes: Seq<St>, loads: Seq<St>) -> St {
    St::If {
        test,
        consequent: computes,
        alternate: if loads.len() == 0 {
            None
        } else {
            Some(loads)
        },
    }
}

fn memo_if_stmt(test: Rc<Expr>, computes: Vec<Stmt>, loads: Vec<Stmt>) -> (r: Stmt)
    ensures
        stmt_model(r) == memo_if(
            expr_model(*test),
            stmt_models(computes@),
            stmt_models(loads@),
        ),
{
    proof {
        crate::codegen_ast::js::lemma_stmt_models(loads@);
    }
    let alternate = if loads.len() == 0 {
        None
    } else {
        Some(loads)
    };
    Stmt::If { test, consequent: computes, alternate }
}

fn plain_if(test: Rc<Expr>, consequent: Vec<Stmt>) -> (r: Stmt)
    ensures
        stmt_model(r) == (St::If {
            test: expr_model(*test),
            consequent: stmt_models(consequent@),
            alternate: None,
        }),
{
    Stmt::If { test, consequent, alternate: None }
}

// ---------------------------------------------------------------------------
// A scope without dependencies
// ---------------------------------------------------------------------------

/// The statements of a scope without dependencies: the first slot tells whether it was computed.
pub open spec fn memo_once(cx: Cx, outs: Seq<(Text, u32)>, body: Seq<St>) -> (Cx, St) {
    let cache = cx.settings.cache;
    let n = outs.len() as int;
    let slot = if n > 0 {
        outs[0].1
    } else {
        cx.next_slot
    };
    let after = if n > 0 {
        cx
    } else {
        with_slot(cx)
    };
    let test = Ex::Binary(
        BinaryOperator::StrictEq,
        Box::new(cache_access(cache, slot)),
        Box::new(symbol_expr(MEMO_CACHE_SENTINEL@)),
    );
    (
        after,
        memo_if(
            full_test(cx, test),
            body + output_stores(cache, outs, n),
            output_loads(cache, outs, n),
        ),
    )
}

pub fn assemble_once(cx: &mut CodegenContext, outs: &Vec<(String, u32)>, body: Vec<Stmt>) -> (r: Stmt)
    ensures
        (final(cx)@, stmt_model(r)) == memo_once(
            old(cx)@,
            output_models(outs@),
            stmt_models(body@),
        ),
{
    let ghost all = output_models(outs@);
    assert(all.len() == outs@.len());
    let slot: u32 = if outs.len() > 0 {
        assert(all[0] == (outs@[0].0@, outs@[0].1));
        outs[0].1
    } else {
        cx.alloc_cache_slot()
    };
    let test = binary(BinaryOperator::StrictEq, cx.cache_access(slot), symbol(MEMO_CACHE_SENTINEL));
    let test = complete_test(cx, test);
    let mut body = body;
    add_output_stores(cx, outs, &mut body);
    let loads = load_outputs(cx, outs);
    memo_if_stmt(test, body, loads)
}

// ---------------------------------------------------------------------------
// A scope with dependencies
// ---------------------------------------------------------------------------

/// What is done where a dependency has changed.
pub open spec fn computes(
    cache: Text,
    deps: Seq<(u32, Ex)>,
    outs: Seq<(Text, u32)>,
    body: Seq<St>,
) -> Seq<St> {
    body + dep_stores(cache, deps, deps.len() as int) + output_stores(
        cache,
        outs,
        outs.len() as int,
    )
}

fn compute_stmts(
    cx: &CodegenContext,
    deps: &Vec<(u32, Rc<Expr>)>,
    outs: &Vec<(String, u32)>,
    body: Vec<Stmt>,
) -> (r: Vec<Stmt>)
    ensures
        stmt_models(r@) == computes(
            cx@.settings.cache,
            temp_models(deps@),
            output_models(outs@),
            stmt_models(body@),
        ),
{
    let mut body = body;
    assert(temp_models(deps@).len() == deps@.len());
    assert(output_models(outs@).len() == outs@.len());
    add_dep_stores(cx, deps, &mut body);
    add_output_stores(cx, outs, &mut body);
    body
}

/// The statement of a scope with dependencies.
pub open spec fn memo_changed(
    cx: Cx,
    test: Ex,
    deps: Seq<(u32, Ex)>,
    outs: Seq<(Text, u32)>,
    body: Seq<St>,
) -> St {
    let cache = cx.settings.cache;
    memo_if(
        full_test(cx, test),
        computes(cache, deps, outs, body),
        output_loads(cache, outs, outs.len() as int),
    )
}

fn assemble_with_test(
    cx: &CodegenContext,
    test: Rc<Expr>,
    deps: &Vec<(u32, Rc<Expr>)>,
    outs: &Vec<(String, u32)>,
    body: Vec<Stmt>,
) -> (r: Stmt)
    ensures
        stmt_model(r) == memo_changed(
            cx@,
            expr_model(*test),
            temp_models(deps@),
            output_models(outs@),
            stmt_models(body@),
        ),
{
    assert(output_models(outs@).len() == outs@.len());
    let test = complete_test(cx, test);
    let body = compute_stmts(cx, deps, outs, body);
    let loads = load_outputs(cx, outs);
    memo_if_stmt(test, body, loads)
}

/// The statement of a scope that compares its dependencies.
pub fn assemble_changed(
    cx: &CodegenContext,
    deps: &Vec<(u32, Rc<Expr>)>,
    outs: &Vec<(String, u32)>,
    body: Vec<Stmt>,
) -> (r: Stmt)
    requires
        deps@.len() > 0,
    ensures
        stmt_model(r) == memo_changed(
            cx@,
            any_changed(cx@.settings.cache, temp_models(deps@), deps@.len() as int),
            temp_models(deps@),
            output_models(outs@),
            stmt_models(body@),
        ),
{
    let test = any_changed_test(cx, deps);
    assemble_with_test(cx, test, deps, outs, body)
}

/// The variables that tell which of the first `n` dependencies have changed.
pub struct Changes {
    pub cx: Cx,
    pub stmts: Seq<St>,
    pub names: Seq<Text>,
}

pub open spec fn change_vars(cx: Cx, deps: Seq<(u32, Ex)>, n: int) -> Changes
    decreases n,
{
    if n <= 0 {
        Changes { cx, stmts: Seq::empty(), names: Seq::empty() }
    } else {
        let front = change_vars(cx, deps, n - 1);
        let base = "c_"@ + decimal((n - 1) as nat);
        let name = synthesized(front.cx, base);
        Changes {
            cx: after_synthesizing(front.cx, base),
            stmts: front.stmts.push(
                var_stmt(
                    VariableKind::Const,
                    name,
                    Some(changed(cx.settings.cache, deps[n - 1])),
                ),
            ),
            names: front.names.push(name),
        }
    }
}

fn declare_changes(cx: &mut CodegenContext, deps: &Vec<(u32, Rc<Expr>)>) -> (r: (
    Vec<Stmt>,
    Vec<String>,
))
    ensures
        ({
            let c = change_vars(old(cx)@, temp_models(deps@), deps@.len() as int);
            &&& final(cx)@ == c.cx
            &&& stmt_models(r.0@) == c.stmts
            &&& texts(r.1@) == c.names
        }),
        r.1@.len() == deps@.len(),
{
    let ghost all = temp_models(deps@);
    let mut stmts: Vec<Stmt> = Vec::new();
    let mut names: Vec<String> = Vec::new();
    let mut i: usize = 0;
    while i < deps.len()
        invariant
            i <= deps@.len(),
            all == temp_models(deps@),
            names@.len() == i,
            cx@.settings == old(cx)@.settings,
            ({
                let c = change_vars(old(cx)@, all, i as int);
                &&& cx@ == c.cx
                &&& stmt_models(stmts@) == c.stmts
                &&& texts(names@) == c.names
            }),
        decreases deps@.len() - i,
    {
        assert(all[i as int] == (deps@[i as int].0, expr_model(*deps@[i as int].1)));
        let base = cat2("c_", decimal_text(i as u64).as_str());
        let name = cx.synthesize_name(base.as_str());
        let test = changed_test(cx, deps[i].0, &deps[i].1);
        add_stmt(&mut stmts, declare_var(VariableKind::Const, name.as_str(), Some(test)));
        names.push(name);
        i = i + 1;
    }
    (stmts, names)
}

/// The statements of a scope that compares its dependencies in variables of their own. The
/// declarations of the scope come behind these.
pub open spec fn memo_with_vars(
    cx: Cx,
    declared: Seq<St>,
    deps: Seq<(u32, Ex)>,
    outs: Seq<(Text, u32)>,
    body: Seq<St>,
) -> (Cx, Seq<St>) {
    let c = change_vars(cx, deps, deps.len() as int);
    (
        c.cx,
        c.stmts + declared + seq![
            memo_changed(c.cx, any_true(c.names, deps.len() as int), deps, outs, body),
        ],
    )
}

pub fn assemble_with_vars(
    cx: &mut CodegenContext,
    declared: Vec<Stmt>,
    deps: &Vec<(u32, Rc<Expr>)>,
    outs: &Vec<(String, u32)>,
    body: Vec<Stmt>,
) -> (r: Vec<Stmt>)
    requires
        deps@.len() > 0,
    ensures
        (final(cx)@, stmt_models(r@)) == memo_with_vars(
            old(cx)@,
            stmt_models(declared@),
            temp_models(deps@),
            output_models(outs@),
            stmt_models(body@),
        ),
{
    assert(temp_models(deps@).len() == deps@.len());
    let (stmts, names) = declare_changes(cx, deps);
    let mut stmts = stmts;
    add_stmts(&mut stmts, declared);
    let test = any_true_test(&names);
    let last = assemble_with_test(cx, test, deps, outs, body);
    let ghost before = stmt_models(stmts@);
    let ghost put = stmt_model(last);
    add_stmt(&mut stmts, last);
    assert(stmt_models(stmts@) =~= before + seq![put]);
    stmts
}

// ---------------------------------------------------------------------------
// Change detection
// ---------------------------------------------------------------------------

/// The statement that compares two values.
pub open spec fn check_stmt(
    function: Text,
    old_value: Ex,
    name: Text,
    phase: Text,
    loc: Text,
) -> St {
    St::Expression(
        call_expr(
            Ex::Identifier(STRUCTURAL_CHECK_IDENT@),
            values(
                seq![
                    old_value,
                    Ex::Identifier(name),
                    Ex::Text(name),
                    Ex::Text(function),
                    Ex::Text(phase),
                    Ex::Text(loc),
                ],
            ),
            false,
        ),
    )
}

/// The call that compares an old value with the value of a variable.
pub fn build_structural_check_call(
    function: &str,
    old_value: Rc<Expr>,
    name: &str,
    phase: &str,
    loc: &str,
) -> (r: Stmt)
    ensures
        stmt_model(r) == check_stmt(function@, expr_model(*old_value), name@, phase@, loc@),
{
    let ghost first = old_value@;
    let mut args: Vec<Item> = Vec::new();
    add_item(&mut args, old_value);
    add_item(&mut args, ident(name));
    add_item(&mut args, text(name));
    add_item(&mut args, text(function));
    add_item(&mut args, text(phase));
    add_item(&mut args, text(loc));
    proof {
        assert(item_models(args@) =~= values(
            seq![
                first,
                Ex::Identifier(name@),
                Ex::Text(name@),
                Ex::Text(function@),
                Ex::Text(phase@),
                Ex::Text(loc@),
            ],
        ));
    }
    expression(call(ident(STRUCTURAL_CHECK_IDENT), args, false))
}

/// The comparisons of the first `n` results with what the cache holds.
pub open spec fn cached_checks(cx: Cx, outs: Seq<(Text, u32)>, loc: Text, n: int) -> Seq<St>
    decreases n,
{
    if n <= 0 {
        Seq::empty()
    } else {
        let name = outs[n - 1].0;
        let old_name = "old$"@ + name;
        cached_checks(cx, outs, loc, n - 1).push(
            var_stmt(
                VariableKind::Let,
                old_name,
                Some(cache_access(cx.settings.cache, outs[n - 1].1)),
            ),
        ).push(check_stmt(cx.settings.function, Ex::Identifier(old_name), name, "cached"@, loc))
    }
}

/// The comparisons of the first `n` results with what was computed before, which they get back.
pub open spec fn recomputed_checks(cx: Cx, outs: Seq<(Text, u32)>, loc: Text, n: int) -> Seq<St>
    decreases n,
{
    if n <= 0 {
        Seq::empty()
    } else {
        let name = outs[n - 1].0;
        let slot = cache_access(cx.settings.cache, outs[n - 1].1);
        recomputed_checks(cx, outs, loc, n - 1).push(
            check_stmt(cx.settings.function, slot, name, "recomputed"@, loc),
        ).push(St::Expression(assign_expr(name, slot)))
    }
}

fn check_cached(cx: &CodegenContext, outs: &Vec<(String, u32)>, loc: &str) -> (r: Vec<Stmt>)
    ensures
        stmt_models(r@) == cached_checks(cx@, output_models(outs@), loc@, outs@.len() as int),
        outs@.len() == 0 <==> r@.len() == 0,
{
    let ghost all = output_models(outs@);
    let mut r: Vec<Stmt> = Vec::new();
    let mut i: usize = 0;
    while i < outs.len()
        invariant
            i <= outs@.len(),
            all == output_models(outs@),
            i == 0 <==> r@.len() == 0,
            stmt_models(r@) == cached_checks(cx@, all, loc@, i as int),
        decreases outs@.len() - i,
    {
        assert(all[i as int] == (outs@[i as int].0@, outs@[i as int].1));
        let name = outs[i].0.as_str();
        let old_name = cat2("old$", name);
        let value = cx.cache_access(outs[i].1);
        r.push(declare_var(VariableKind::Let, old_name.as_str(), Some(value)));
        r.push(
            build_structural_check_call(
                cx.function(),
                ident(old_name.as_str()),
                name,
                "cached",
                loc,
            ),
        );
        i = i + 1;
    }
    r
}

fn add_recomputed_checks(
    cx: &CodegenContext,
    outs: &Vec<(String, u32)>,
    loc: &str,
    stmts: &mut Vec<Stmt>,
)
    ensures
        stmt_models(final(stmts)@) == stmt_models(old(stmts)@) + recomputed_checks(
            cx@,
            output_models(outs@),
            loc@,
            outs@.len() as int,
        ),
{
    let ghost all = output_models(outs@);
    let mut i: usize = 0;
    proof {
        assert(stmt_models(stmts@) =~= stmt_models(stmts@) + recomputed_checks(cx@, all, loc@, 0));
    }
    while i < outs.len()
        invariant
            i <= outs@.len(),
            all == output_models(outs@),
            stmt_models(stmts@) == stmt_models(old(stmts)@) + recomputed_checks(
                cx@,
                all,
                loc@,
                i as int,
            ),
        decreases outs@.len() - i,
    {
        assert(all[i as int] == (outs@[i as int].0@, outs@[i as int].1));
        let name = outs[i].0.as_str();
        let slot: u32 = outs[i].1;
        let check = build_structural_check_call(
            cx.function(),
            cx.cache_access(slot),
            name,
            "recomputed",
            loc,
        );
        add_stmt(stmts, check);
        add_stmt(stmts, expression(assign(name, cx.cache_access(slot))));
        proof {
            assert(stmt_models(stmts@) =~= stmt_models(old(stmts)@) + recomputed_checks(
                cx@,
                all,
                loc@,
                i as int + 1,
            ));
        }
        i = i + 1;
    }
}

/// The block of a scope whose results are computed twice and compared.
pub open spec fn memo_checked(
    cx: Cx,
    deps: Seq<(u32, Ex)>,
    outs: Seq<(Text, u32)>,
    loc: Text,
    body: Seq<St>,
    again: Seq<St>,
) -> St {
    let cache = cx.settings.cache;
    let n = outs.len() as int;
    let condition = Ex::Identifier("condition"@);
    let test = any_changed(cache, deps, deps.len() as int);
    let unchanged = if n == 0 {
        Seq::empty()
    } else {
        seq![
            St::If {
                test: Ex::Unary(UnaryOperator::Not, Box::new(condition)),
                consequent: cached_checks(cx, outs, loc, n),
                alternate: None,
            },
        ]
    };
    let last = St::If {
        test: condition,
        consequent: again + recomputed_checks(cx, outs, loc, n),
        alternate: None,
    };
    St::Block(
        body + seq![var_stmt(VariableKind::Let, "condition"@, Some(test))] + unchanged + dep_stores(
            cache,
            deps,
            deps.len() as int,
        ) + output_stores(cache, outs, n) + seq![last],
    )
}

pub fn assemble_checked(
    cx: &CodegenContext,
    deps: &Vec<(u32, Rc<Expr>)>,
    outs: &Vec<(String, u32)>,
    loc: &str,
    body: Vec<Stmt>,
    again: Vec<Stmt>,
) -> (r: Stmt)
    requires
        deps@.len() > 0,
    ensures
        stmt_model(r) == memo_checked(
            cx@,
            temp_models(deps@),
            output_models(outs@),
            loc@,
            stmt_models(body@),
            stmt_models(again@),
        ),
{
    let ghost cache = cx@.settings.cache;
    let ghost d = temp_models(deps@);
    let ghost o = output_models(outs@);
    let ghost b = stmt_models(body@);
    assert(d.len() == deps@.len());
    assert(o.len() == outs@.len());
    let mut stmts = body;
    let test = any_changed_test(cx, deps);
    let ghost first = seq![var_stmt(VariableKind::Let, "condition"@, Some(test@))];
    add_stmt(&mut stmts, declare_var(VariableKind::Let, "condition", Some(test)));
    assert(stmt_models(stmts@) =~= b + first);
    let cached = check_cached(cx, outs, loc);
    let ghost mut unchanged = Seq::<St>::empty();
    if cached.len() > 0 {
        let negated = Rc::new(Expr::Unary(UnaryOperator::Not, ident("condition")));
        let s = plain_if(negated, cached);
        proof {
            unchanged = seq![stmt_model(s)];
        }
        add_stmt(&mut stmts, s);
    }
    assert(stmt_models(stmts@) =~= b + first + unchanged);
    add_dep_stores(cx, deps, &mut stmts);
    add_output_stores(cx, outs, &mut stmts);
    let ghost middle = stmt_models(stmts@);
    let mut again = again;
    add_recomputed_checks(cx, outs, loc, &mut again);
    let last = plain_if(ident("condition"), again);
    let ghost put = stmt_model(last);
    add_stmt(&mut stmts, last);
    assert(stmt_models(stmts@) =~= middle + seq![put]);
    Stmt::Block(stmts)
}

// ---------------------------------------------------------------------------
// Early returns
// ---------------------------------------------------------------------------

/// The statement that returns what a scope returned early.
pub open spec fn early_return(value: Identifier) -> St {
    let name = Ex::Identifier(written_name(value));
    St::If {
        test: Ex::Binary(
            BinaryOperator::StrictNotEq,
            Box::new(name),
            Box::new(symbol_expr(EARLY_RETURN_SENTINEL@)),
        ),
        consequent: seq![St::Return(Some(name))],
        alternate: None,
    }
}

pub fn early_return_stmt(value: &Identifier) -> (r: Stmt)
    ensures
        stmt_model(r) == early_return(*value),
{
    let name = written_name_of(value);
    let test = binary(
        BinaryOperator::StrictNotEq,
        ident(name.as_str()),
        symbol(EARLY_RETURN_SENTINEL),
    );
    let returned = one_stmt(Stmt::Return(Some(ident(name.as_str()))));
    plain_if(test, returned)
}

} // verus!
