//! What stands in front of the body of a memoized scope.

use std::rc::Rc;
use vstd::prelude::*;

use crate::codegen_ast::deps::{
    codegen_dependency_expr, dep_key, dep_sort_key_with_cx, dependency_expr, exact_temp,
    find_temp_matching_dep, find_temp_with_optional_chain_for_dep, optional_temp,
};
use crate::codegen_ast::js::{
    option_text, option_texts, stmt_models, Ex, Expr, St, Stmt, Text, VariableKind,
};
use crate::codegen_ast::make::{add_stmt, declare_var, ident, var_stmt};
use crate::codegen_ast::scan::is_codegen_temp;
use crate::codegen_ast::state::{
    own_name, own_name_of, temp_at, temp_models, with_block_name, with_decl, with_decl_name,
    with_declared, with_name, with_slot, with_temp, CodegenContext, Cx,
};
use crate::collections::{least_free, numbered, IdSet, IdTexts, NameSet};
use crate::hir::{
    DeclarationId, Identifier, IdentifierId, ReactiveScope, ReactiveScopeDependency, ReactiveStatement,
    ReactiveTerminal, ScopeDeclaration,
};
use crate::sorting::{key_order, positions, sort_positions};
use crate::text::{ascii_digit, chars_of, owned, temp_name, texts};

verus! {

broadcast use crate::codegen_ast::js::group_js;

// ---------------------------------------------------------------------------
// The variables of a scope
// ---------------------------------------------------------------------------

/// A variable that a scope declares.
pub struct Var {
    pub name: Text,
    pub id: u32,
    pub decl: u32,
}

pub struct ScopeVar {
    pub name: String,
    pub id: IdentifierId,
    pub decl: DeclarationId,
}

pub open spec fn var_model(v: ScopeVar) -> Var {
    Var { name: v.name@, id: v.id.0, decl: v.decl.0 }
}

pub open spec fn var_models(v: Seq<ScopeVar>) -> Seq<Var> {
    v.map_values(|x: ScopeVar| var_model(x))
}

/// The variables that the handlers among the first `n` statements catch.
pub open spec fn caught(block: Seq<ReactiveStatement>, n: int) -> Set<u32>
    decreases n,
{
    if n <= 0 {
        Set::empty()
    } else {
        let front = caught(block, n - 1);
        match block[n - 1] {
            ReactiveStatement::Terminal(t) => match t.terminal {
                ReactiveTerminal::Try { handler_binding, .. } => match handler_binding {
                    Some(p) => front.insert(p.identifier.declaration_id.0),
                    None => front,
                },
                _ => front,
            },
            _ => front,
        }
    }
}

fn collect_caught(block: &Vec<ReactiveStatement>) -> (r: IdSet)
    ensures
        r@ == caught(block@, block@.len() as int),
{
    let mut r = IdSet::new();
    let mut i: usize = 0;
    while i < block.len()
        invariant
            i <= block@.len(),
            r@ == caught(block@, i as int),
        decreases block@.len() - i,
    {
        if let ReactiveStatement::Terminal(t) = &block[i] {
            if let ReactiveTerminal::Try { handler_binding: Some(p), .. } = &t.terminal {
                r.insert(p.identifier.declaration_id.0);
            }
        }
        i = i + 1;
    }
    r
}

/// The named variables among the first `n` declarations, without those that are caught.
pub open spec fn scope_vars(
    entries: Seq<(IdentifierId, ScopeDeclaration)>,
    catches: Set<u32>,
    n: int,
) -> Seq<Var>
    decreases n,
{
    if n <= 0 {
        Seq::empty()
    } else {
        let front = scope_vars(entries, catches, n - 1);
        let identifier = entries[n - 1].1.identifier;
        if catches.contains(identifier.declaration_id.0) || identifier.name is None {
            front
        } else {
            front.push(
                Var {
                    name: own_name(identifier),
                    id: entries[n - 1].0.0,
                    decl: identifier.declaration_id.0,
                },
            )
        }
    }
}

pub open spec fn var_names(vars: Seq<Var>) -> Seq<Text> {
    vars.map_values(|v: Var| v.name)
}

/// The variables in the order of their names.
pub open spec fn sorted_vars(vars: Seq<Var>) -> Seq<Var> {
    key_order(var_names(vars)).map_values(|i: int| vars[i])
}

/// The variables that a scope declares, in the order of their names.
pub open spec fn vars_of(scope: ReactiveScope, block: Seq<ReactiveStatement>) -> Seq<Var> {
    let entries = scope.declarations.entries@;
    sorted_vars(scope_vars(entries, caught(block, block.len() as int), entries.len() as int))
}

fn collect_vars(entries: &Vec<(IdentifierId, ScopeDeclaration)>, catches: &IdSet) -> (r: Vec<ScopeVar>)
    ensures
        var_models(r@) == scope_vars(entries@, catches@, entries@.len() as int),
{
    let mut r: Vec<ScopeVar> = Vec::new();
    let mut i: usize = 0;
    proof {
        assert(var_models(r@) =~= Seq::<Var>::empty());
    }
    while i < entries.len()
        invariant
            i <= entries@.len(),
            var_models(r@) == scope_vars(entries@, catches@, i as int),
        decreases entries@.len() - i,
    {
        let identifier = &entries[i].1.identifier;
        let ghost before = r@;
        if !catches.contains(identifier.declaration_id.0) {
            if let Some(name) = own_name_of(identifier) {
                r.push(ScopeVar { name, id: entries[i].0, decl: identifier.declaration_id });
                proof {
                    assert(var_models(r@) =~= var_models(before).push(var_model(r@.last())));
                }
            }
        }
        i = i + 1;
    }
    r
}

fn names_of(vars: &Vec<ScopeVar>) -> (r: Vec<String>)
    ensures
        texts(r@) == var_names(var_models(vars@)),
        r@.len() == vars@.len(),
{
    let mut r: Vec<String> = Vec::new();
    let mut i: usize = 0;
    while i < vars.len()
        invariant
            i <= vars@.len(),
            r@.len() == i,
            forall|k: int| 0 <= k < i ==> (#[trigger] r@[k])@ == vars@[k].name@,
        decreases vars@.len() - i,
    {
        r.push(owned(vars[i].name.as_str()));
        i = i + 1;
    }
    proof {
        assert(texts(r@) =~= var_names(var_models(vars@)));
    }
    r
}

fn sort_vars(vars: &Vec<ScopeVar>) -> (r: Vec<ScopeVar>)
    ensures
        var_models(r@) == sorted_vars(var_models(vars@)),
{
    let names = names_of(vars);
    let order = sort_positions(&names);
    let ghost all = var_models(vars@);
    let mut r: Vec<ScopeVar> = Vec::new();
    let mut i: usize = 0;
    while i < order.len()
        invariant
            i <= order@.len(),
            order@.len() == vars@.len(),
            forall|k: int| 0 <= k < order@.len() ==> #[trigger] order@[k] < vars@.len(),
            r@.len() == i,
            forall|k: int|
                0 <= k < i ==> var_model(#[trigger] r@[k]) == var_model(vars@[order@[k] as int]),
        decreases order@.len() - i,
    {
        let v = &vars[order[i]];
        r.push(ScopeVar { name: owned(v.name.as_str()), id: v.id, decl: v.decl });
        i = i + 1;
    }
    proof {
        assert(positions(order@) == key_order(var_names(all)));
        assert forall|k: int| 0 <= k < r@.len() implies #[trigger] var_models(r@)[k] == sorted_vars(
            all,
        )[k] by {
            assert(positions(order@)[k] == order@[k] as int);
        }
        assert(positions(order@).len() == r@.len());
        assert(var_models(r@) =~= sorted_vars(all));
    }
    r
}

fn scope_vars_of(scope: &ReactiveScope, block: &Vec<ReactiveStatement>) -> (r: Vec<ScopeVar>)
    ensures
        var_models(r@) == vars_of(*scope, block@),
{
    let catches = collect_caught(block);
    let vars = collect_vars(&scope.declarations.entries, &catches);
    sort_vars(&vars)
}

// ---------------------------------------------------------------------------
// Names that collide with dependencies
// ---------------------------------------------------------------------------

/// The number that digits denote.
pub open spec fn digits_value(s: Text) -> nat
    decreases s.len(),
{
    if s.len() == 0 {
        0
    } else {
        (digits_value(s.drop_last()) * 10 + (s.last() as nat - '0' as nat)) as nat
    }
}

/// The number behind that of a temporary; one that is too large counts as 0.
pub open spec fn number_behind(name: Text) -> nat {
    let v = digits_value(name.skip(1));
    if v <= u32::MAX {
        v + 1
    } else {
        1
    }
}

fn number_behind_of(name: &str) -> (r: u64)
    requires
        temp_name(name@),
    ensures
        r == number_behind(name@),
{
    let cs = chars_of(name);
    let ghost digits = name@.skip(1);
    let mut value: u64 = 0;
    let mut over = false;
    let mut i: usize = 1;
    proof {
        assert(digits.take(0) =~= Seq::<char>::empty());
    }
    while i < cs.len()
        invariant
            1 <= i <= cs@.len(),
            cs@ == name@,
            digits == name@.skip(1),
            temp_name(name@),
            !over ==> value == digits_value(digits.take(i - 1)) && value <= u32::MAX,
            over ==> digits_value(digits.take(i - 1)) > u32::MAX,
        decreases cs@.len() - i,
    {
        proof {
            assert(digits[i - 1] == cs@[i as int]);
            assert(ascii_digit(digits[i - 1]));
            assert(digits.take(i as int).drop_last() =~= digits.take(i - 1));
            assert(digits.take(i as int).last() == cs@[i as int]);
        }
        if !over {
            let d: u64 = (cs[i] as u64) - ('0' as u64);
            value = value * 10 + d;
            if value > u32::MAX as u64 {
                over = true;
            }
        }
        i = i + 1;
    }
    proof {
        assert(digits.take(cs@.len() - 1) =~= digits);
    }
    if over {
        1
    } else {
        value + 1
    }
}

/// The names of the first `n` dependencies.
pub open spec fn dep_roots(deps: Seq<ReactiveScopeDependency>, n: int) -> Set<Text>
    decreases n,
{
    if n <= 0 {
        Set::empty()
    } else {
        let front = dep_roots(deps, n - 1);
        if deps[n - 1].identifier.name is Some {
            front.insert(own_name(deps[n - 1].identifier))
        } else {
            front
        }
    }
}

fn collect_roots(deps: &Vec<ReactiveScopeDependency>) -> (r: NameSet)
    ensures
        r@ == dep_roots(deps@, deps@.len() as int),
{
    let mut r = NameSet::new();
    let mut i: usize = 0;
    while i < deps.len()
        invariant
            i <= deps@.len(),
            r@ == dep_roots(deps@, i as int),
        decreases deps@.len() - i,
    {
        if let Some(name) = own_name_of(&deps[i].identifier) {
            r.insert(name.as_str());
        }
        i = i + 1;
    }
    r
}

/// The first temporary from `from` on that is neither declared nor used in the source.
pub open spec fn fresh_temp(cx: Cx, from: nat) -> Text {
    numbered("t"@, least_free("t"@, from, cx.declared_names.union(cx.taken)))
}

/// The first `n` variables get other names where they are temporaries that are called like a
/// dependency.
pub open spec fn shifted(cx: Cx, vars: Seq<Var>, roots: Set<Text>, n: int) -> (Cx, Map<u32, Text>)
    decreases n,
{
    if n <= 0 {
        (cx, Map::empty())
    } else {
        let front = shifted(cx, vars, roots, n - 1);
        let v = vars[n - 1];
        if temp_name(v.name) && roots.contains(v.name) {
            let fresh = fresh_temp(front.0, number_behind(v.name));
            (
                with_name(with_decl_name(front.0, v.decl, fresh), fresh),
                front.1.insert(v.decl, fresh),
            )
        } else {
            front
        }
    }
}

fn shift_names(cx: &mut CodegenContext, vars: &Vec<ScopeVar>, roots: &NameSet) -> (r: IdTexts)
    ensures
        (final(cx)@, r@) == shifted(old(cx)@, var_models(vars@), roots@, vars@.len() as int),
{
    let ghost all = var_models(vars@);
    let mut r = IdTexts::new();
    let mut i: usize = 0;
    while i < vars.len()
        invariant
            i <= vars@.len(),
            all == var_models(vars@),
            (cx@, r@) == shifted(old(cx)@, all, roots@, i as int),
        decreases vars@.len() - i,
    {
        assert(all[i as int] == var_model(vars@[i as int]));
        let name = vars[i].name.as_str();
        if is_codegen_temp(name) && roots.contains(name) {
            let from: u64 = number_behind_of(name);
            let fresh = cx.fresh_temp_name(from);
            cx.set_decl_name(vars[i].decl, fresh.as_str());
            cx.declare_name(fresh.as_str());
            r.insert(vars[i].decl.0, fresh);
        }
        i = i + 1;
    }
    r
}

/// The name of a variable, after names were shifted.
pub open spec fn final_name(names: Map<u32, Text>, v: Var) -> Text {
    if names.contains_key(v.decl) {
        names[v.decl]
    } else {
        v.name
    }
}

fn final_name_of(names: &IdTexts, v: &ScopeVar) -> (r: String)
    ensures
        r@ == final_name(names@, var_model(*v)),
{
    match names.get(v.decl.0) {
        Some(s) => owned(s),
        None => owned(v.name.as_str()),
    }
}

// ---------------------------------------------------------------------------
// Declarations
// ---------------------------------------------------------------------------

/// A variable is declared under a name in the innermost open block.
pub open spec fn declared_as(cx: Cx, id: u32, decl: u32, name: Text) -> Cx {
    with_block_name(with_name(with_decl(with_declared(cx, id), decl), name), name)
}

pub open spec fn is_new(cx: Cx, id: u32, decl: u32) -> bool {
    !cx.declared.contains(id) && !cx.declared_decls.contains(decl)
}

/// The declarations of those of the first `n` variables that are not declared yet.
pub open spec fn declare_vars(cx: Cx, vars: Seq<Var>, names: Map<u32, Text>, n: int) -> (Cx, Seq<St>)
    decreases n,
{
    if n <= 0 {
        (cx, Seq::empty())
    } else {
        let front = declare_vars(cx, vars, names, n - 1);
        let v = vars[n - 1];
        if is_new(front.0, v.id, v.decl) {
            let name = final_name(names, v);
            (
                declared_as(front.0, v.id, v.decl, name),
                front.1.push(var_stmt(VariableKind::Let, name, None)),
            )
        } else {
            front
        }
    }
}

/// The declarations of those of the first `n` assigned variables that are not declared yet.
pub open spec fn declare_reassigned(cx: Cx, idents: Seq<Identifier>, n: int) -> (Cx, Seq<St>)
    decreases n,
{
    if n <= 0 {
        (cx, Seq::empty())
    } else {
        let front = declare_reassigned(cx, idents, n - 1);
        let x = idents[n - 1];
        let id = x.id.0;
        let decl = x.declaration_id.0;
        if is_new(front.0, id, decl) {
            if x.name is Some && !front.0.declared_names.contains(own_name(x)) {
                (
                    declared_as(front.0, id, decl, own_name(x)),
                    front.1.push(var_stmt(VariableKind::Let, own_name(x), None)),
                )
            } else {
                (with_decl(with_declared(front.0, id), decl), front.1)
            }
        } else {
            front
        }
    }
}

fn declare_as(cx: &mut CodegenContext, id: IdentifierId, decl: DeclarationId, name: &str) -> (r: Stmt)
    ensures
        final(cx)@ == declared_as(old(cx)@, id.0, decl.0, name@),
        crate::codegen_ast::js::stmt_model(r) == var_stmt(VariableKind::Let, name@, None),
{
    cx.declare(id);
    cx.declare_decl(decl);
    cx.declare_name(name);
    cx.register_scoped_name(name);
    declare_var(VariableKind::Let, name, None)
}

fn declare_scope_vars(cx: &mut CodegenContext, vars: &Vec<ScopeVar>, names: &IdTexts) -> (r: Vec<Stmt>)
    ensures
        (final(cx)@, stmt_models(r@)) == declare_vars(
            old(cx)@,
            var_models(vars@),
            names@,
            vars@.len() as int,
        ),
{
    let ghost all = var_models(vars@);
    let mut r: Vec<Stmt> = Vec::new();
    let mut i: usize = 0;
    while i < vars.len()
        invariant
            i <= vars@.len(),
            all == var_models(vars@),
            (cx@, stmt_models(r@)) == declare_vars(old(cx)@, all, names@, i as int),
        decreases vars@.len() - i,
    {
        assert(all[i as int] == var_model(vars@[i as int]));
        let v = &vars[i];
        if !cx.is_declared(v.id) && !cx.is_decl_declared(v.decl) {
            let name = final_name_of(names, v);
            let s = declare_as(cx, v.id, v.decl, name.as_str());
            add_stmt(&mut r, s);
        }
        i = i + 1;
    }
    r
}

fn declare_reassignments(cx: &mut CodegenContext, idents: &Vec<Identifier>) -> (r: Vec<Stmt>)
    ensures
        (final(cx)@, stmt_models(r@)) == declare_reassigned(
            old(cx)@,
            idents@,
            idents@.len() as int,
        ),
{
    let mut r: Vec<Stmt> = Vec::new();
    let mut i: usize = 0;
    while i < idents.len()
        invariant
            i <= idents@.len(),
            (cx@, stmt_models(r@)) == declare_reassigned(old(cx)@, idents@, i as int),
        decreases idents@.len() - i,
    {
        let x = &idents[i];
        if !cx.is_declared(x.id) && !cx.is_decl_declared(x.declaration_id) {
            let name = own_name_of(x);
            let fresh = match &name {
                Some(n) => !cx.is_name_declared(n.as_str()),
                None => false,
            };
            match name {
                Some(n) => {
                    if fresh {
                        let s = declare_as(cx, x.id, x.declaration_id, n.as_str());
                        add_stmt(&mut r, s);
                    } else {
                        cx.declare(x.id);
                        cx.declare_decl(x.declaration_id);
                    }
                },
                None => {
                    cx.declare(x.id);
                    cx.declare_decl(x.declaration_id);
                },
            }
        }
        i = i + 1;
    }
    r
}

// ---------------------------------------------------------------------------
// Dependencies
// ---------------------------------------------------------------------------

pub open spec fn dep_keys(cx: Cx, deps: Seq<ReactiveScopeDependency>) -> Seq<Text> {
    deps.map_values(|d: ReactiveScopeDependency| dep_key(cx, d))
}

/// The dependencies in the order of the names under which they are known.
pub open spec fn dep_order(cx: Cx, deps: Seq<ReactiveScopeDependency>) -> Seq<int> {
    key_order(dep_keys(cx, deps))
}

fn order_deps(cx: &CodegenContext, deps: &Vec<ReactiveScopeDependency>) -> (r: Vec<usize>)
    ensures
        positions(r@) == dep_order(cx@, deps@),
        r@.len() == deps@.len(),
        forall|k: int| 0 <= k < r@.len() ==> #[trigger] r@[k] < deps@.len(),
{
    let mut keys: Vec<String> = Vec::new();
    let mut i: usize = 0;
    while i < deps.len()
        invariant
            i <= deps@.len(),
            keys@.len() == i,
            forall|k: int| 0 <= k < i ==> (#[trigger] keys@[k])@ == dep_key(cx@, deps@[k]),
        decreases deps@.len() - i,
    {
        keys.push(dep_sort_key_with_cx(cx, &deps[i]));
        i = i + 1;
    }
    proof {
        assert(texts(keys@) =~= dep_keys(cx@, deps@));
    }
    sort_positions(&keys)
}

/// Whether a step of a path is optional.
pub open spec fn has_optional(dep: ReactiveScopeDependency) -> bool {
    exists|i: int| 0 <= i < dep.path@.len() && (#[trigger] dep.path@[i]).optional
}

fn has_optional_step(dep: &ReactiveScopeDependency) -> (r: bool)
    ensures
        r == has_optional(*dep),
{
    let mut i: usize = 0;
    while i < dep.path.len()
        invariant
            i <= dep.path@.len(),
            forall|k: int| 0 <= k < i ==> !(#[trigger] dep.path@[k]).optional,
        decreases dep.path@.len() - i,
    {
        if dep.path[i].optional {
            return true;
        }
        i = i + 1;
    }
    false
}

/// The temporary that computes a dependency by an optional chain.
pub open spec fn chain_temp(temps: Seq<(u32, Ex)>, dep: ReactiveScopeDependency) -> Option<u32> {
    if has_optional(dep) {
        exact_temp(temps, dep, 0)
    } else {
        optional_temp(temps, dep)
    }
}

/// What comes of the optional chains among the first `n` dependencies.
pub struct Chains {
    pub cx: Cx,
    /// The declarations of variables for them.
    pub stmts: Seq<St>,
    /// The variable for each dependency.
    pub names: Seq<Option<Text>>,
}

/// The optional chains among the first `n` dependencies get variables. Where `loads` tells that the
/// body loads properties itself, none does.
pub open spec fn chains(
    cx: Cx,
    deps: Seq<ReactiveScopeDependency>,
    order: Seq<int>,
    loads: bool,
    n: int,
) -> Chains
    decreases n,
{
    if n <= 0 {
        Chains { cx, stmts: Seq::empty(), names: Seq::empty() }
    } else {
        let front = chains(cx, deps, order, loads, n - 1);
        let temp = chain_temp(front.cx.temps, deps[order[n - 1]]);
        if temp is Some && !loads && temp_at(front.cx.temps, temp->0) is Some {
            let name = fresh_temp(front.cx, 0);
            Chains {
                cx: with_name(with_temp(front.cx, temp->0, Ex::Identifier(name)), name),
                stmts: front.stmts.push(
                    var_stmt(VariableKind::Const, name, temp_at(front.cx.temps, temp->0)),
                ),
                names: front.names.push(Some(name)),
            }
        } else {
            Chains { names: front.names.push(None), ..front }
        }
    }
}

fn extract_chains(
    cx: &mut CodegenContext,
    deps: &Vec<ReactiveScopeDependency>,
    order: &Vec<usize>,
    loads: bool,
) -> (r: (Vec<Stmt>, Vec<Option<String>>))
    requires
        forall|k: int| 0 <= k < order@.len() ==> #[trigger] order@[k] < deps@.len(),
    ensures
        ({
            let c = chains(old(cx)@, deps@, positions(order@), loads, order@.len() as int);
            &&& final(cx)@ == c.cx
            &&& stmt_models(r.0@) == c.stmts
            &&& option_texts(r.1@) == c.names
        }),
        r.1@.len() == order@.len(),
{
    let ghost places = positions(order@);
    let mut stmts: Vec<Stmt> = Vec::new();
    let mut names: Vec<Option<String>> = Vec::new();
    let mut i: usize = 0;
    proof {
        assert(option_texts(names@) =~= Seq::<Option<Text>>::empty());
    }
    while i < order.len()
        invariant
            i <= order@.len(),
            forall|k: int| 0 <= k < order@.len() ==> #[trigger] order@[k] < deps@.len(),
            places == positions(order@),
            names@.len() == i,
            ({
                let c = chains(old(cx)@, deps@, places, loads, i as int);
                &&& cx@ == c.cx
                &&& stmt_models(stmts@) == c.stmts
                &&& option_texts(names@) == c.names
            }),
        decreases order@.len() - i,
    {
        assert(places[i as int] == order@[i as int] as int);
        let dep = &deps[order[i]];
        let found = if has_optional_step(dep) {
            find_temp_matching_dep(cx, dep)
        } else {
            find_temp_with_optional_chain_for_dep(cx, dep)
        };
        let ghost before = names@;
        let name = match found {
            Some(decl) => {
                if loads {
                    None
                } else {
                    extract_chain(cx, DeclarationId(decl), &mut stmts)
                }
            },
            None => None,
        };
        let ghost put = option_text(name);
        names.push(name);
        proof {
            assert(option_texts(names@) =~= option_texts(before).push(put));
        }
        i = i + 1;
    }
    (stmts, names)
}

fn extract_chain(cx: &mut CodegenContext, decl: DeclarationId, stmts: &mut Vec<Stmt>) -> (r: Option<String>)
    ensures
        match temp_at(old(cx)@.temps, decl.0) {
            Some(e) => {
                let name = fresh_temp(old(cx)@, 0);
                &&& option_text(r) == Some(name)
                &&& final(cx)@ == with_name(
                    with_temp(old(cx)@, decl.0, Ex::Identifier(name)),
                    name,
                )
                &&& stmt_models(final(stmts)@) == stmt_models(old(stmts)@).push(
                    var_stmt(VariableKind::Const, name, Some(e)),
                )
            },
            None => {
                &&& r is None
                &&& final(cx)@ == old(cx)@
                &&& stmt_models(final(stmts)@) == stmt_models(old(stmts)@)
            },
        },
{
    match cx.temp(decl) {
        Some(e) => {
            let name = cx.fresh_temp_name(0);
            add_stmt(stmts, declare_var(VariableKind::Const, name.as_str(), Some(e)));
            cx.set_temp(decl, ident(name.as_str()));
            cx.declare_name(name.as_str());
            Some(name)
        },
        None => None,
    }
}

/// The first `n` dependencies with their slots. One without a name has none.
pub open spec fn dep_slots(
    cx: Cx,
    deps: Seq<ReactiveScopeDependency>,
    order: Seq<int>,
    names: Seq<Option<Text>>,
    n: int,
) -> (Cx, Seq<(u32, Ex)>)
    decreases n,
{
    if n <= 0 {
        (cx, Seq::empty())
    } else {
        let front = dep_slots(cx, deps, order, names, n - 1);
        let e = match names[n - 1] {
            Some(name) => Some(Ex::Identifier(name)),
            None => dependency_expr(deps[order[n - 1]]),
        };
        match e {
            Some(e) => (with_slot(front.0), front.1.push((front.0.next_slot, e))),
            None => front,
        }
    }
}

fn take_dep_slots(
    cx: &mut CodegenContext,
    deps: &Vec<ReactiveScopeDependency>,
    order: &Vec<usize>,
    names: &Vec<Option<String>>,
) -> (r: Vec<(u32, Rc<Expr>)>)
    requires
        forall|k: int| 0 <= k < order@.len() ==> #[trigger] order@[k] < deps@.len(),
        names@.len() == order@.len(),
    ensures
        (final(cx)@, temp_models(r@)) == dep_slots(
            old(cx)@,
            deps@,
            positions(order@),
            option_texts(names@),
            order@.len() as int,
        ),
{
    let ghost places = positions(order@);
    let ghost known = option_texts(names@);
    let mut r: Vec<(u32, Rc<Expr>)> = Vec::new();
    let mut i: usize = 0;
    proof {
        assert(temp_models(r@) =~= Seq::<(u32, Ex)>::empty());
    }
    while i < order.len()
        invariant
            i <= order@.len(),
            forall|k: int| 0 <= k < order@.len() ==> #[trigger] order@[k] < deps@.len(),
            names@.len() == order@.len(),
            places == positions(order@),
            known == option_texts(names@),
            (cx@, temp_models(r@)) == dep_slots(old(cx)@, deps@, places, known, i as int),
        decreases order@.len() - i,
    {
        assert(places[i as int] == order@[i as int] as int);
        assert(known[i as int] == option_text(names@[i as int]));
        let e = match &names[i] {
            Some(name) => Some(ident(name.as_str())),
            None => codegen_dependency_expr(&deps[order[i]]),
        };
        if let Some(e) = e {
            let ghost before = r@;
            let ghost model = e@;
            let slot: u32 = cx.alloc_cache_slot();
            r.push((slot, e));
            proof {
                assert(temp_models(r@) =~= temp_models(before).push((slot, model)));
            }
        }
        i = i + 1;
    }
    r
}

// ---------------------------------------------------------------------------
// Outputs
// ---------------------------------------------------------------------------

pub open spec fn output_models(v: Seq<(String, u32)>) -> Seq<(Text, u32)> {
    v.map_values(|o: (String, u32)| (o.0@, o.1))
}

/// The slots of the first `n` variables, behind `start`.
pub open spec fn var_slots(
    cx: Cx,
    vars: Seq<Var>,
    names: Map<u32, Text>,
    n: int,
) -> (Cx, Seq<(Text, u32)>)
    decreases n,
{
    if n <= 0 {
        (cx, Seq::empty())
    } else {
        let front = var_slots(cx, vars, names, n - 1);
        (
            with_slot(front.0),
            front.1.push((final_name(names, vars[n - 1]), front.0.next_slot)),
        )
    }
}

pub open spec fn is_var(vars: Seq<Var>, decl: u32) -> bool {
    exists|i: int| 0 <= i < vars.len() && (#[trigger] vars[i]).decl == decl
}

/// The slots of the named ones among the first `n` assigned variables that the scope does not declare.
pub open spec fn reassigned_slots(
    cx: Cx,
    idents: Seq<Identifier>,
    vars: Seq<Var>,
    n: int,
) -> (Cx, Seq<(Text, u32)>)
    decreases n,
{
    if n <= 0 {
        (cx, Seq::empty())
    } else {
        let front = reassigned_slots(cx, idents, vars, n - 1);
        let x = idents[n - 1];
        if is_var(vars, x.declaration_id.0) || x.name is None {
            front
        } else {
            (with_slot(front.0), front.1.push((own_name(x), front.0.next_slot)))
        }
    }
}

fn is_scope_var(vars: &Vec<ScopeVar>, decl: DeclarationId) -> (r: bool)
    ensures
        r == is_var(var_models(vars@), decl.0),
{
    let ghost all = var_models(vars@);
    let mut i: usize = 0;
    while i < vars.len()
        invariant
            i <= vars@.len(),
            all == var_models(vars@),
            forall|k: int| 0 <= k < i ==> (#[trigger] all[k]).decl != decl.0,
        decreases vars@.len() - i,
    {
        assert(all[i as int] == var_model(vars@[i as int]));
        if vars[i].decl.0 == decl.0 {
            return true;
        }
        i = i + 1;
    }
    false
}

fn take_var_slots(cx: &mut CodegenContext, vars: &Vec<ScopeVar>, names: &IdTexts) -> (r: Vec<
    (String, u32),
>)
    ensures
        (final(cx)@, output_models(r@)) == var_slots(
            old(cx)@,
            var_models(vars@),
            names@,
            vars@.len() as int,
        ),
{
    let ghost all = var_models(vars@);
    let mut r: Vec<(String, u32)> = Vec::new();
    let mut i: usize = 0;
    proof {
        assert(output_models(r@) =~= Seq::<(Text, u32)>::empty());
    }
    while i < vars.len()
        invariant
            i <= vars@.len(),
            all == var_models(vars@),
            (cx@, output_models(r@)) == var_slots(old(cx)@, all, names@, i as int),
        decreases vars@.len() - i,
    {
        assert(all[i as int] == var_model(vars@[i as int]));
        let ghost before = r@;
        let slot: u32 = cx.alloc_cache_slot();
        let name = final_name_of(names, &vars[i]);
        let ghost put = name@;
        r.push((name, slot));
        proof {
            assert(output_models(r@) =~= output_models(before).push((put, slot)));
        }
        i = i + 1;
    }
    r
}

fn take_reassigned_slots(
    cx: &mut CodegenContext,
    idents: &Vec<Identifier>,
    vars: &Vec<ScopeVar>,
) -> (r: Vec<(String, u32)>)
    ensures
        (final(cx)@, output_models(r@)) == reassigned_slots(
            old(cx)@,
            idents@,
            var_models(vars@),
            idents@.len() as int,
        ),
{
    let ghost all = var_models(vars@);
    let mut r: Vec<(String, u32)> = Vec::new();
    let mut i: usize = 0;
    proof {
        assert(output_models(r@) =~= Seq::<(Text, u32)>::empty());
    }
    while i < idents.len()
        invariant
            i <= idents@.len(),
            all == var_models(vars@),
            (cx@, output_models(r@)) == reassigned_slots(old(cx)@, idents@, all, i as int),
        decreases idents@.len() - i,
    {
        let x = &idents[i];
        let ghost before = r@;
        if !is_scope_var(vars, x.declaration_id) {
            if let Some(name) = own_name_of(x) {
                let slot: u32 = cx.alloc_cache_slot();
                let ghost put = name@;
                r.push((name, slot));
                proof {
                    assert(output_models(r@) =~= output_models(before).push((put, slot)));
                }
            }
        }
        i = i + 1;
    }
    r
}

// ---------------------------------------------------------------------------
// All of it
// ---------------------------------------------------------------------------

/// What stands in front of the body of a scope.
pub struct Front {
    pub cx: Cx,
    /// The variables for optional chains.
    pub chains: Seq<St>,
    /// The declarations of the variables of the scope.
    pub declared: Seq<St>,
    /// The dependencies with their slots.
    pub deps: Seq<(u32, Ex)>,
    /// The results with their slots.
    pub outputs: Seq<(Text, u32)>,
}

pub struct ScopeFront {
    pub chains: Vec<Stmt>,
    pub declared: Vec<Stmt>,
    pub deps: Vec<(u32, Rc<Expr>)>,
    pub outputs: Vec<(String, u32)>,
}

/// What stands in front of the body of a scope; `loads` tells whether the body loads properties.
pub open spec fn front_of(cx: Cx, scope: ReactiveScope, block: Seq<ReactiveStatement>, loads: bool) -> Front {
    let vars = vars_of(scope, block);
    let n = vars.len() as int;
    let deps = scope.dependencies@;
    let idents = scope.reassignments@;
    let renamed = shifted(cx, vars, dep_roots(deps, deps.len() as int), n);
    let own = declare_vars(renamed.0, vars, renamed.1, n);
    let other = declare_reassigned(own.0, idents, idents.len() as int);
    let order = dep_order(other.0, deps);
    let c = chains(other.0, deps, order, loads, deps.len() as int);
    let d = dep_slots(c.cx, deps, order, c.names, deps.len() as int);
    let outs = var_slots(d.0, vars, renamed.1, n);
    let more = reassigned_slots(outs.0, idents, vars, idents.len() as int);
    Front {
        cx: more.0,
        chains: c.stmts,
        declared: own.1 + other.1,
        deps: d.1,
        outputs: outs.1 + more.1,
    }
}

pub open spec fn is_front(f: ScopeFront, m: Front) -> bool {
    &&& stmt_models(f.chains@) == m.chains
    &&& stmt_models(f.declared@) == m.declared
    &&& temp_models(f.deps@) == m.deps
    &&& output_models(f.outputs@) == m.outputs
}

/// Makes what stands in front of the body of a scope.
pub fn scope_front(
    cx: &mut CodegenContext,
    scope: &ReactiveScope,
    block: &Vec<ReactiveStatement>,
    loads: bool,
) -> (r: ScopeFront)
    ensures
        is_front(r, front_of(old(cx)@, *scope, block@, loads)),
        final(cx)@ == front_of(old(cx)@, *scope, block@, loads).cx,
{
    let vars = scope_vars_of(scope, block);
    proof {
        assert(var_models(vars@).len() == vars@.len());
    }
    let roots = collect_roots(&scope.dependencies);
    let names = shift_names(cx, &vars, &roots);
    let mut declared = declare_scope_vars(cx, &vars, &names);
    let other = declare_reassignments(cx, &scope.reassignments);
    crate::codegen_ast::make::add_stmts(&mut declared, other);
    let order = order_deps(cx, &scope.dependencies);
    let (chain_stmts, chain_names) = extract_chains(cx, &scope.dependencies, &order, loads);
    let deps = take_dep_slots(cx, &scope.dependencies, &order, &chain_names);
    let mut outputs = take_var_slots(cx, &vars, &names);
    let mut more = take_reassigned_slots(cx, &scope.reassignments, &vars);
    let ghost first = outputs@;
    let ghost second = more@;
    outputs.append(&mut more);
    proof {
        assert(output_models(outputs@) =~= output_models(first) + output_models(second));
    }
    ScopeFront { chains: chain_stmts, declared, deps, outputs }
}

} // verus!
