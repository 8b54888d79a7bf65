//! The heads of loops, put together from statements.

use std::rc::Rc;
use vstd::prelude::*;

use crate::codegen_ast::js::{
    unfold_stmt, unfold_target, unfold_declaration, unfold_declarator, unfold_expr, binding_model,
    binding_models, key_model, lemma_binding_models, option_text, option_texts, Binding, Key,
    declaration_model, declarator_model, declarator_models, expr_model, left_model,
    lemma_declarator_models, lemma_stmt_models, option_declaration, stmt_model, stmt_models,
    target_model, Declaration, DeclarationModel, Declarator, DeclaratorModel, Ex, Expr, ForLeft,
    ForLeftModel, St, Stmt, Target, TargetModel, Text, VariableKind,
};
use crate::codegen_ast::make::{declaration, one_declaration};
use crate::codegen_ast::values::{expression_to_simple_assignment_target, simple_target};
use crate::codegen_ast::stores::option_target;
use crate::collections::reversed;
use crate::text::{owned, same};

verus! {

broadcast use crate::codegen_ast::js::group_js;

// ---------------------------------------------------------------------------
// The start of a `for` loop
// ---------------------------------------------------------------------------

/// The last of the first `n` declarators that declares `name` without a value.
pub open spec fn open_declarator(v: Seq<DeclaratorModel>, name: Text, n: int) -> Option<int>
    decreases n,
{
    if n <= 0 || n > v.len() {
        None
    } else if v[n - 1].init is None && v[n - 1].target == TargetModel::Identifier(name) {
        Some(n - 1)
    } else {
        open_declarator(v, name, n - 1)
    }
}

/// The statements from `i` on are merged into the declarators: a declaration adds its own, and an
/// assignment gives a declared variable its value.
pub open spec fn merged(stmts: Seq<St>, i: int, v: Seq<DeclaratorModel>) -> Option<Seq<DeclaratorModel>>
    decreases stmts.len() - i,
{
    if i < 0 || i >= stmts.len() {
        Some(v)
    } else {
        match stmts[i] {
            St::Variable(d) => merged(stmts, i + 1, v + d.declarators),
            St::Expression(Ex::Assign(TargetModel::Identifier(name), e)) => match open_declarator(
                v,
                name,
                v.len() as int,
            ) {
                Some(k) => merged(
                    stmts,
                    i + 1,
                    v.update(k, DeclaratorModel { target: v[k].target, init: Some(*e) }),
                ),
                None => None,
            },
            _ => None,
        }
    }
}

/// What a `for` loop starts with: the one declaration that the statements come to, if they come to
/// one.
pub open spec fn for_init(stmts: Seq<St>) -> Option<DeclarationModel> {
    if stmts.len() == 0 {
        None
    } else if stmts.len() == 1 {
        match stmts[0] {
            St::Variable(d) => Some(d),
            St::Expression(Ex::Assign(TargetModel::Identifier(name), e)) => Some(
                one_declaration(VariableKind::Let, TargetModel::Identifier(name), Some(*e)),
            ),
            _ => None,
        }
    } else {
        match merged(stmts, 0, Seq::empty()) {
            Some(v) => {
                if v.len() == 0 {
                    None
                } else {
                    Some(DeclarationModel { kind: VariableKind::Let, declarators: v })
                }
            },
            None => None,
        }
    }
}

/// What an assignment to a variable assigns.
pub open spec fn assigned(e: Ex) -> Option<(Text, Ex)> {
    match e {
        Ex::Assign(TargetModel::Identifier(name), value) => Some((name, *value)),
        _ => None,
    }
}

/// What an assignment to a variable assigns.
pub fn assigned_in(e: &Expr) -> (r: Option<(&String, &Rc<Expr>)>)
    ensures
        r is Some == assigned(expr_model(*e)) is Some,
        r matches Some(p) ==> assigned(expr_model(*e)) == Some((p.0@, expr_model(**p.1))),
{
    proof {
        unfold_expr(e);
    }
    match e {
        Expr::Assign(target, value) => {
            proof {
                unfold_target(target);
            }
            match target {
                Target::Identifier(name) => Some((name, value)),
                _ => None,
            }
        },
        _ => None,
    }
}

fn find_open_declarator(v: &Vec<Declarator>, name: &str) -> (r: Option<usize>)
    ensures
        r is Some == open_declarator(declarator_models(v@), name@, v@.len() as int) is Some,
        r matches Some(k) ==> k < v@.len() && open_declarator(
            declarator_models(v@),
            name@,
            v@.len() as int,
        ) == Some(k as int),
{
    let ghost all = declarator_models(v@);
    proof {
        lemma_declarator_models(v@);
    }
    let mut n: usize = v.len();
    while n > 0
        invariant
            n <= v@.len(),
            all == declarator_models(v@),
            all.len() == v@.len(),
            forall|i: int| 0 <= i < v@.len() ==> #[trigger] all[i] == declarator_model(v@[i]),
            open_declarator(all, name@, v@.len() as int) == open_declarator(all, name@, n as int),
        decreases n,
    {
        let d = &v[n - 1];
        assert(all[n - 1] == declarator_model(v@[n - 1]));
        proof {
            unfold_declarator(d);
            unfold_target(&d.target);
        }
        let fits = d.init.is_none() && match &d.target {
            Target::Identifier(s) => same(s.as_str(), name),
            _ => false,
        };
        assert(fits == (all[n - 1].init is None && all[n - 1].target == TargetModel::Identifier(
            name@,
        )));
        if fits {
            return Some(n - 1);
        }
        n = n - 1;
    }
    None
}

fn add_declarators(v: &mut Vec<Declarator>, more: Vec<Declarator>)
    ensures
        declarator_models(final(v)@) == declarator_models(old(v)@) + declarator_models(more@),
{
    let mut more = more;
    let ghost added = more@;
    v.append(&mut more);
    proof {
        lemma_declarator_models(old(v)@);
        lemma_declarator_models(added);
        lemma_declarator_models(v@);
        assert(declarator_models(v@) =~= declarator_models(old(v)@) + declarator_models(added));
    }
}

proof fn lemma_updated(v: Seq<Declarator>, k: int, d: Declarator)
    requires
        0 <= k < v.len(),
    ensures
        declarator_models(v)[k] == declarator_model(v[k]),
        declarator_models(v.update(k, d)) == declarator_models(v).update(k, declarator_model(d)),
{
    lemma_declarator_models(v);
    lemma_declarator_models(v.update(k, d));
    assert(declarator_models(v.update(k, d)) =~= declarator_models(v).update(
        k,
        declarator_model(d),
    ));
}

fn replace_at(v: &mut Vec<Declarator>, k: usize, init: Option<Rc<Expr>>)
    requires
        k < old(v)@.len(),
    ensures
        final(v)@ == old(v)@.update(
            k as int,
            (Declarator { target: old(v)@[k as int].target, init }),
        ),
{
    v[k].init = init;
}

fn set_init(v: &mut Vec<Declarator>, k: usize, e: Rc<Expr>)
    requires
        k < old(v)@.len(),
    ensures
        declarator_models(final(v)@) == declarator_models(old(v)@).update(
            k as int,
            DeclaratorModel {
                target: declarator_models(old(v)@)[k as int].target,
                init: Some(expr_model(*e)),
            },
        ),
{
    let init = Some(e);
    let ghost put = Declarator { target: v@[k as int].target, init };
    proof {
        unfold_declarator(&v@[k as int]);
        unfold_declarator(&put);
    }
    replace_at(v, k, init);
    proof {
        lemma_updated(old(v)@, k as int, put);
    }
}

/// A statement in front of a loop, by what it does for the loop.
enum Head {
    Declares(Declaration),
    Computes(Rc<Expr>),
    Other,
}

spec fn is_head(h: Head, s: St) -> bool {
    match h {
        Head::Declares(d) => s == St::Variable(declaration_model(d)),
        Head::Computes(e) => s == St::Expression(expr_model(*e)),
        Head::Other => !(s is Variable) && !(s is Expression),
    }
}

fn head_of(s: Stmt) -> (h: Head)
    ensures
        is_head(h, stmt_model(s)),
{
    proof {
        unfold_stmt(&s);
    }
    match s {
        Stmt::Variable(d) => Head::Declares(d),
        Stmt::Expression(e) => Head::Computes(e),
        _ => Head::Other,
    }
}

fn declares_assigned(name: &str, value: &Rc<Expr>) -> (r: Declaration)
    ensures
        declaration_model(r) == one_declaration(
            VariableKind::Let,
            TargetModel::Identifier(name@),
            Some(expr_model(**value)),
        ),
{
    let target = Target::Identifier(owned(name));
    assert(target_model(target) == TargetModel::Identifier(name@));
    declaration(VariableKind::Let, target, Some(value.clone()))
}

/// Merges one more statement into the declarators; the result tells whether that could be done.
fn merge(v: &mut Vec<Declarator>, s: Stmt) -> (r: bool)
    ensures
        forall|stmts: Seq<St>, i: int|
            0 <= i < stmts.len() && #[trigger] stmts[i] == stmt_model(s) ==> if r {
                merged(stmts, i, declarator_models(old(v)@)) == merged(
                    stmts,
                    i + 1,
                    declarator_models(final(v)@),
                )
            } else {
                merged(stmts, i, declarator_models(old(v)@)) is None
            },
{
    proof {
        lemma_declarator_models(v@);
    }
    match head_of(s) {
        Head::Declares(d) => {
            proof {
                unfold_declaration(&d);
            }
            add_declarators(v, d.declarators);
            true
        },
        Head::Computes(e) => match assigned_in(&e) {
            Some((name, value)) => match find_open_declarator(v, name.as_str()) {
                Some(k) => {
                    set_init(v, k, value.clone());
                    true
                },
                None => false,
            },
            None => false,
        },
        Head::Other => false,
    }
}

fn single_init(s: Stmt) -> (r: Option<Declaration>)
    ensures
        option_declaration(r) == for_init(seq![stmt_model(s)]),
{
    match head_of(s) {
        Head::Declares(d) => Some(d),
        Head::Computes(e) => match assigned_in(&e) {
            Some((name, value)) => Some(declares_assigned(name.as_str(), value)),
            None => None,
        },
        Head::Other => None,
    }
}

fn merged_init(stmts: Vec<Stmt>) -> (r: Option<Vec<Declarator>>)
    ensures
        r is Some == merged(stmt_models(stmts@), 0, Seq::empty()) is Some,
        r matches Some(v) ==> merged(stmt_models(stmts@), 0, Seq::empty()) == Some(
            declarator_models(v@),
        ),
{
    let ghost all = stmt_models(stmts@);
    let ghost whole = stmts@;
    proof {
        lemma_stmt_models(stmts@);
    }
    let mut v: Vec<Declarator> = Vec::new();
    let mut rest = reversed(stmts);
    let ghost mut i: int = 0;
    while rest.len() > 0
        invariant
            0 <= i <= whole.len(),
            all.len() == whole.len(),
            forall|k: int| 0 <= k < whole.len() ==> #[trigger] all[k] == stmt_model(whole[k]),
            i + rest@.len() == whole.len(),
            rest@ == whole.skip(i).reverse(),
            all == stmt_models(whole),
            whole == stmts@,
            merged(all, 0, Seq::empty()) == merged(all, i, declarator_models(v@)),
        decreases rest@.len(),
    {
        let last = rest.pop();
        if let Some(s) = last {
            assert(s == whole[i]);
            assert(all[i] == stmt_model(whole[i]));
            if !merge(&mut v, s) {
                return None;
            }
        }
        proof {
            assert(rest@ =~= whole.skip(i + 1).reverse());
            i = i + 1;
        }
    }
    Some(v)
}

/// Puts the start of a `for` loop together.
pub fn reconstruct_for_init(stmts: Vec<Stmt>) -> (r: Option<Declaration>)
    ensures
        option_declaration(r) == for_init(stmt_models(stmts@)),
{
    proof {
        lemma_stmt_models(stmts@);
    }
    if stmts.len() == 0 {
        return None;
    }
    if stmts.len() == 1 {
        let mut stmts = stmts;
        proof {
            assert(stmt_models(stmts@) =~= seq![stmt_model(stmts@[0])]);
        }
        return match stmts.pop() {
            Some(s) => single_init(s),
            None => None,
        };
    }
    match merged_init(stmts) {
        Some(v) => {
            proof {
                lemma_declarator_models(v@);
            }
            if v.len() == 0 {
                None
            } else {
                Some(Declaration { kind: VariableKind::Let, declarators: v })
            }
        },
        None => None,
    }
}

// ---------------------------------------------------------------------------
// What a `for`-`of` or a `for`-`in` loop binds
// ---------------------------------------------------------------------------

/// The declarators without their values.
pub open spec fn stripped(v: Seq<DeclaratorModel>) -> Seq<DeclaratorModel> {
    v.map_values(|d: DeclaratorModel| DeclaratorModel { target: d.target, init: None })
}

/// What an expression in front of the loop binds: the target of an assignment, or what can be
/// assigned to.
pub open spec fn bound_by(e: Ex) -> Option<TargetModel> {
    match e {
        Ex::Assign(t, _) => Some(t),
        _ => simple_target(e),
    }
}

/// The first thing from `i` on that binds a variable.
pub open spec fn left_from(stmts: Seq<St>, i: int) -> Option<ForLeftModel>
    decreases stmts.len() - i,
{
    if i < 0 || i >= stmts.len() {
        None
    } else {
        match left_in(stmts[i]) {
            Some(l) => Some(l),
            None => left_from(stmts, i + 1),
        }
    }
}

pub open spec fn option_left(l: Option<ForLeft>) -> Option<ForLeftModel> {
    match l {
        Some(l) => Some(left_model(l)),
        None => None,
    }
}

fn strip(v: Vec<Declarator>) -> (r: Vec<Declarator>)
    ensures
        declarator_models(r@) == stripped(declarator_models(v@)),
{
    let ghost whole = v@;
    let mut rest = reversed(v);
    let mut r: Vec<Declarator> = Vec::new();
    while rest.len() > 0
        invariant
            r@.len() + rest@.len() == whole.len(),
            rest@ == whole.skip(r@.len() as int).reverse(),
            forall|k: int|
                0 <= k < r@.len() ==> (#[trigger] r@[k]).target == whole[k].target && r@[k].init is None,
        decreases rest@.len(),
    {
        let ghost n = r@.len() as int;
        let last = rest.pop();
        if let Some(d) = last {
            assert(d == whole[n]);
            r.push(Declarator { target: d.target, init: None });
        }
        proof {
            assert(rest@ =~= whole.skip(n + 1).reverse());
        }
    }
    proof {
        lemma_declarator_models(r@);
        lemma_declarator_models(whole);
        assert forall|k: int| 0 <= k < whole.len() implies #[trigger] declarator_models(r@)[k]
            == stripped(declarator_models(whole))[k] by {
            unfold_declarator(&r@[k]);
            unfold_declarator(&whole[k]);
        }
        assert(declarator_models(r@) =~= stripped(declarator_models(whole)));
    }
    r
}

/// What an expression in front of the loop binds.
fn target_of(e: Rc<Expr>) -> (r: Option<Target>)
    ensures
        option_target(r) == bound_by(expr_model(*e)),
{
    proof {
        unfold_expr(&*e);
    }
    let assigns = match &*e {
        Expr::Assign(_, _) => true,
        _ => false,
    };
    if assigns {
        if let Expr::Assign(t, _) = &*e {
            return Some(copy_target(t));
        }
    }
    expression_to_simple_assignment_target(e)
}

fn copy_names(v: &Vec<Option<String>>) -> (r: Vec<Option<String>>)
    ensures
        option_texts(r@) == option_texts(v@),
{
    let mut r: Vec<Option<String>> = Vec::new();
    let mut i: usize = 0;
    while i < v.len()
        invariant
            i <= v@.len(),
            r@.len() == i,
            forall|k: int|
                0 <= k < i ==> option_text(#[trigger] r@[k])
                    == option_text(v@[k]),
        decreases v@.len() - i,
    {
        r.push(copy_name(&v[i]));
        i = i + 1;
    }
    proof {
        assert(option_texts(r@) =~= option_texts(v@));
    }
    r
}

fn copy_name(s: &Option<String>) -> (r: Option<String>)
    ensures
        option_text(r) == option_text(*s),
{
    match s {
        Some(t) => Some(owned(t.as_str())),
        None => None,
    }
}

fn copy_key(k: &Key) -> (r: Key)
    ensures
        key_model(r) == key_model(*k),
{
    match k {
        Key::Name(s) => Key::Name(owned(s.as_str())),
        Key::Text(s) => Key::Text(owned(s.as_str())),
        Key::Number(s) => {
            Key::Number(owned(s.as_str()))
        },
        Key::Computed(e) => {
            Key::Computed(e.clone())
        },
    }
}

fn copy_bindings(v: &Vec<Binding>) -> (r: Vec<Binding>)
    ensures
        binding_models(r@) == binding_models(v@),
{
    let mut r: Vec<Binding> = Vec::new();
    let mut i: usize = 0;
    while i < v.len()
        invariant
            i <= v@.len(),
            r@.len() == i,
            forall|k: int|
                0 <= k < i ==> binding_model(#[trigger] r@[k])
                    == binding_model(v@[k]),
        decreases v@.len() - i,
    {
        let b = Binding {
            key: copy_key(&v[i].key),
            name: owned(v[i].name.as_str()),
            shorthand: v[i].shorthand,
        };
        assert(binding_model(b) == binding_model(
            v@[i as int],
        ));
        r.push(b);
        i = i + 1;
    }
    proof {
        lemma_binding_models(r@);
        lemma_binding_models(v@);
        assert(binding_models(r@)
            =~= binding_models(v@));
    }
    r
}

fn copy_target(t: &Target) -> (r: Target)
    ensures
        target_model(r) == target_model(*t),
{
    match t {
        Target::Identifier(s) => Target::Identifier(owned(s.as_str())),
        Target::Array { elements, rest } => Target::Array {
            elements: copy_names(elements),
            rest: copy_name(rest),
        },
        Target::Object { properties, rest } => Target::Object {
            properties: copy_bindings(properties),
            rest: copy_name(rest),
        },
        Target::Member(e) => Target::Member(e.clone()),
    }
}

/// What a statement binds for a loop.
pub open spec fn left_in(s: St) -> Option<ForLeftModel> {
    match s {
        St::Variable(d) => Some(
            ForLeftModel::Declaration(
                DeclarationModel { kind: d.kind, declarators: stripped(d.declarators) },
            ),
        ),
        St::Expression(e) => match bound_by(e) {
            Some(t) => Some(ForLeftModel::Target(t)),
            None => None,
        },
        _ => None,
    }
}

fn left_of(s: Stmt) -> (r: Option<ForLeft>)
    ensures
        option_left(r) == left_in(stmt_model(s)),
{
    match head_of(s) {
        Head::Declares(d) => {
            proof {
                unfold_declaration(&d);
            }
            let kind = d.kind;
            let declarators = strip(d.declarators);
            Some(ForLeft::Declaration(Declaration { kind, declarators }))
        },
        Head::Computes(e) => match target_of(e) {
            Some(t) => Some(ForLeft::Target(t)),
            None => None,
        },
        Head::Other => None,
    }
}

/// What a `for`-`of` or a `for`-`in` loop binds: the variables of the first declaration, or what the
/// first assignment assigns to.
pub fn extract_for_of_left(stmts: Vec<Stmt>) -> (r: Option<ForLeft>)
    ensures
        option_left(r) == left_from(stmt_models(stmts@), 0),
{
    let ghost all = stmt_models(stmts@);
    let ghost whole = stmts@;
    proof {
        lemma_stmt_models(stmts@);
    }
    let mut rest = reversed(stmts);
    let ghost mut i: int = 0;
    while rest.len() > 0
        invariant
            0 <= i <= whole.len(),
            all == stmt_models(whole),
            whole == stmts@,
            all.len() == whole.len(),
            forall|k: int| 0 <= k < whole.len() ==> #[trigger] all[k] == stmt_model(whole[k]),
            i + rest@.len() == whole.len(),
            rest@ == whole.skip(i).reverse(),
            left_from(all, 0) == left_from(all, i),
        decreases rest@.len(),
    {
        let last = rest.pop();
        if let Some(s) = last {
            assert(s == whole[i]);
            assert(all[i] == stmt_model(whole[i]));
            let left = left_of(s);
            if left.is_some() {
                return left;
            }
        }
        proof {
            assert(rest@ =~= whole.skip(i + 1).reverse());
            i = i + 1;
        }
    }
    None
}

} // verus!
