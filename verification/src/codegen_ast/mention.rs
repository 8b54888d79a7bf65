//! Where the trees of a function name a variable.

use std::rc::Rc;
use vstd::prelude::*;

use crate::codegen_ast::js::{
    ArmModel, Binding, BindingModel, CatchClause, CatchModel, Declaration, DeclarationModel,
    Declarator, DeclaratorModel, Ex, Expr, ForLeft, ForLeftModel, Function, Item, ItemModel,
    JsxAttr, JsxAttrModel, JsxChild, JsxChildModel, JsxName, JsxNameModel, Key, KeyModel,
    Member, MemberModel, St, Stmt, SwitchArm, Target, TargetModel, Text, arm_model, arm_models,
    binding_model, binding_models, declaration_model, declarator_model, declarator_models,
    expr_model, expr_models, function_model, item_model, item_models, jsx_attr_model,
    jsx_attr_models, jsx_child_model, jsx_child_models, jsx_name_model, key_model, left_model,
    lemma_arm_models, lemma_binding_models, lemma_declarator_models, lemma_expr_models,
    lemma_item_models, lemma_jsx_attr_models, lemma_jsx_child_models, lemma_member_models,
    lemma_stmt_models, member_model, member_models, option_catch, option_declaration,
    option_expr, option_stmts, option_text, option_texts, stmt_model, stmt_models,
    target_model, unfold_arm, unfold_binding, unfold_declaration, unfold_declarator,
    unfold_expr, unfold_function, unfold_item, unfold_jsx_attr, unfold_jsx_child,
    unfold_jsx_name, unfold_key, unfold_left, unfold_member, unfold_stmt, unfold_target,
};
use crate::text::same;

verus! {

broadcast use crate::codegen_ast::js::group_js;

// ---------------------------------------------------------------------------
// What it is to name a variable
// ---------------------------------------------------------------------------

/// Whether an expression names a variable, at any depth, as a value or as a target. What stands in a
/// function that was made elsewhere is not seen.
pub open spec fn ex_names(e: Ex, name: Text) -> bool
    decreases e, 0int,
{
    match e {
        Ex::Identifier(s) => s == name,
        Ex::Template { exprs, .. } => exs_name(exprs, name, exprs.len() as int),
        Ex::TaggedTemplate { tag, .. } => ex_names(*tag, name),
        Ex::Binary(_, l, r) => ex_names(*l, name) || ex_names(*r, name),
        Ex::Unary(_, a) => ex_names(*a, name),
        Ex::Delete(a) => ex_names(*a, name),
        Ex::Logical(_, l, r) => ex_names(*l, name) || ex_names(*r, name),
        Ex::Conditional(t, c, a) => ex_names(*t, name) || ex_names(*c, name) || ex_names(*a, name),
        Ex::Call { callee, args, .. } => ex_names(*callee, name) || items_name(
            args,
            name,
            args.len() as int,
        ),
        Ex::New { callee, args } => ex_names(*callee, name) || items_name(
            args,
            name,
            args.len() as int,
        ),
        Ex::StaticMember { object, .. } => ex_names(*object, name),
        Ex::ComputedMember { object, property, .. } => ex_names(*object, name) || ex_names(
            *property,
            name,
        ),
        Ex::Chain(a) => ex_names(*a, name),
        Ex::Array(items) => items_name(items, name, items.len() as int),
        Ex::Object(members) => members_name(members, name, members.len() as int),
        Ex::Assign(t, v) => target_names(t, name) || ex_names(*v, name),
        Ex::Update { target, .. } => target_names(target, name),
        Ex::Sequence(exprs) => exs_name(exprs, name, exprs.len() as int),
        Ex::Parenthesized(a) => ex_names(*a, name),
        Ex::Await(a) => ex_names(*a, name),
        Ex::As(a, _) => ex_names(*a, name),
        Ex::Satisfies(a, _) => ex_names(*a, name),
        Ex::Arrow { function, .. } => sts_name(function.body, name, function.body.len() as int),
        Ex::Function { function, .. } => sts_name(function.body, name, function.body.len() as int),
        Ex::JsxElement { name: tag, attributes, children } => {
            jsx_name_names(tag, name) || attrs_name(attributes, name, attributes.len() as int)
                || match children {
                Some(v) => children_name(v, name, v.len() as int),
                None => false,
            }
        },
        Ex::JsxFragment(v) => children_name(v, name, v.len() as int),
        _ => false,
    }
}

pub open spec fn item_names(i: ItemModel, name: Text) -> bool
    decreases i, 0int,
{
    match i {
        ItemModel::Value(e) => ex_names(e, name),
        ItemModel::Spread(e) => ex_names(e, name),
        ItemModel::Hole => false,
    }
}

pub open spec fn key_names(k: KeyModel, name: Text) -> bool
    decreases k, 0int,
{
    match k {
        KeyModel::Computed(e) => ex_names(*e, name),
        _ => false,
    }
}

pub open spec fn member_names(m: MemberModel, name: Text) -> bool
    decreases m, 0int,
{
    match m {
        MemberModel::Spread(e) => ex_names(e, name),
        MemberModel::Property { key, value, .. } => key_names(key, name) || ex_names(value, name),
    }
}

pub open spec fn binding_names(b: BindingModel, name: Text) -> bool
    decreases b, 0int,
{
    b.name == name || key_names(b.key, name)
}

pub open spec fn target_names(t: TargetModel, name: Text) -> bool
    decreases t, 0int,
{
    match t {
        TargetModel::Identifier(s) => s == name,
        TargetModel::Array { elements, rest } => elements.contains(Some(name)) || rest == Some(name),
        TargetModel::Object { properties, rest } => {
            bindings_name(properties, name, properties.len() as int) || rest == Some(name)
        },
        TargetModel::Member(e) => ex_names(*e, name),
    }
}

pub open spec fn jsx_name_names(n: JsxNameModel, name: Text) -> bool
    decreases n, 0int,
{
    match n {
        JsxNameModel::Component(e) => ex_names(*e, name),
        _ => false,
    }
}

pub open spec fn attr_names(a: JsxAttrModel, name: Text) -> bool
    decreases a, 0int,
{
    match a {
        JsxAttrModel::Attribute { value, .. } => ex_names(value, name),
        JsxAttrModel::Spread(e) => ex_names(e, name),
    }
}

pub open spec fn child_names(c: JsxChildModel, name: Text) -> bool
    decreases c, 0int,
{
    ex_names(c.value, name)
}

pub open spec fn option_names(e: Option<Ex>, name: Text) -> bool
    decreases e, 0int,
{
    match e {
        Some(e) => ex_names(e, name),
        None => false,
    }
}

pub open spec fn declarator_names(d: DeclaratorModel, name: Text) -> bool
    decreases d, 0int,
{
    target_names(d.target, name) || option_names(d.init, name)
}

pub open spec fn declaration_names(d: DeclarationModel, name: Text) -> bool
    decreases d, 0int,
{
    declarators_name(d.declarators, name, d.declarators.len() as int)
}

pub open spec fn arm_names(a: ArmModel, name: Text) -> bool
    decreases a, 0int,
{
    option_names(a.test, name) || sts_name(a.body, name, a.body.len() as int)
}

pub open spec fn left_names(l: ForLeftModel, name: Text) -> bool
    decreases l, 0int,
{
    match l {
        ForLeftModel::Declaration(d) => declaration_names(d, name),
        ForLeftModel::Target(t) => target_names(t, name),
    }
}

pub open spec fn optional_sts_name(b: Option<Seq<St>>, name: Text) -> bool
    decreases b, 0int,
{
    match b {
        Some(v) => sts_name(v, name, v.len() as int),
        None => false,
    }
}

pub open spec fn catch_names(c: Option<CatchModel>, name: Text) -> bool
    decreases c, 0int,
{
    match c {
        Some(c) => c.param == Some(name) || sts_name(c.body, name, c.body.len() as int),
        None => false,
    }
}

pub open spec fn optional_declaration_names(d: Option<DeclarationModel>, name: Text) -> bool
    decreases d, 0int,
{
    match d {
        Some(d) => declaration_names(d, name),
        None => false,
    }
}

/// Whether a statement names a variable, at any depth.
pub open spec fn st_names(s: St, name: Text) -> bool
    decreases s, 0int,
{
    match s {
        St::Expression(e) => ex_names(e, name),
        St::Variable(d) => declaration_names(d, name),
        St::Function { name: own, function } => own == name || ex_names(function, name),
        St::Return(e) => option_names(e, name),
        St::Throw(e) => ex_names(e, name),
        St::If { test, consequent, alternate } => {
            ex_names(test, name) || sts_name(consequent, name, consequent.len() as int)
                || optional_sts_name(alternate, name)
        },
        St::Block(v) => sts_name(v, name, v.len() as int),
        St::Switch { discriminant, arms } => ex_names(discriminant, name) || arms_name(
            arms,
            name,
            arms.len() as int,
        ),
        St::While { test, body } => ex_names(test, name) || sts_name(body, name, body.len() as int),
        St::DoWhile { body, test } => sts_name(body, name, body.len() as int) || ex_names(test, name),
        St::For { init, test, update, body } => {
            optional_declaration_names(init, name) || option_names(test, name) || option_names(
                update,
                name,
            ) || sts_name(body, name, body.len() as int)
        },
        St::ForOf { left, right, body } => {
            left_names(left, name) || ex_names(right, name) || sts_name(
                body,
                name,
                body.len() as int,
            )
        },
        St::ForIn { left, right, body } => {
            left_names(left, name) || ex_names(right, name) || sts_name(
                body,
                name,
                body.len() as int,
            )
        },
        St::Labeled { body, .. } => st_names(*body, name),
        St::Try { block, handler, finalizer } => {
            sts_name(block, name, block.len() as int) || catch_names(handler, name)
                || optional_sts_name(finalizer, name)
        },
        _ => false,
    }
}

/// Whether one of the first `n` expressions names a variable.
pub open spec fn exs_name(s: Seq<Ex>, name: Text, n: int) -> bool
    decreases s, n,
{
    if n <= 0 || n > s.len() {
        false
    } else {
        exs_name(s, name, n - 1) || ex_names(s[n - 1], name)
    }
}

/// Whether one of the first `n` items names a variable.
pub open spec fn items_name(s: Seq<ItemModel>, name: Text, n: int) -> bool
    decreases s, n,
{
    if n <= 0 || n > s.len() {
        false
    } else {
        items_name(s, name, n - 1) || item_names(s[n - 1], name)
    }
}

/// Whether one of the first `n` members names a variable.
pub open spec fn members_name(s: Seq<MemberModel>, name: Text, n: int) -> bool
    decreases s, n,
{
    if n <= 0 || n > s.len() {
        false
    } else {
        members_name(s, name, n - 1) || member_names(s[n - 1], name)
    }
}

/// Whether one of the first `n` properties names a variable.
pub open spec fn bindings_name(s: Seq<BindingModel>, name: Text, n: int) -> bool
    decreases s, n,
{
    if n <= 0 || n > s.len() {
        false
    } else {
        bindings_name(s, name, n - 1) || binding_names(s[n - 1], name)
    }
}

/// Whether one of the first `n` attributes names a variable.
pub open spec fn attrs_name(s: Seq<JsxAttrModel>, name: Text, n: int) -> bool
    decreases s, n,
{
    if n <= 0 || n > s.len() {
        false
    } else {
        attrs_name(s, name, n - 1) || attr_names(s[n - 1], name)
    }
}

/// Whether one of the first `n` children names a variable.
pub open spec fn children_name(s: Seq<JsxChildModel>, name: Text, n: int) -> bool
    decreases s, n,
{
    if n <= 0 || n > s.len() {
        false
    } else {
        children_name(s, name, n - 1) || child_names(s[n - 1], name)
    }
}

/// Whether one of the first `n` declarators names a variable.
pub open spec fn declarators_name(s: Seq<DeclaratorModel>, name: Text, n: int) -> bool
    decreases s, n,
{
    if n <= 0 || n > s.len() {
        false
    } else {
        declarators_name(s, name, n - 1) || declarator_names(s[n - 1], name)
    }
}

/// Whether one of the first `n` arms names a variable.
pub open spec fn arms_name(s: Seq<ArmModel>, name: Text, n: int) -> bool
    decreases s, n,
{
    if n <= 0 || n > s.len() {
        false
    } else {
        arms_name(s, name, n - 1) || arm_names(s[n - 1], name)
    }
}

/// Whether one of the first `n` statements names a variable.
pub open spec fn sts_name(s: Seq<St>, name: Text, n: int) -> bool
    decreases s, n,
{
    if n <= 0 || n > s.len() {
        false
    } else {
        sts_name(s, name, n - 1) || st_names(s[n - 1], name)
    }
}

// ---------------------------------------------------------------------------
// Looking for it
// ---------------------------------------------------------------------------

/// Checks if an expression names a variable.
pub fn does_ex_name(e: &Expr, name: &str) -> (r: bool)
    ensures
        r == ex_names(expr_model(*e), name@),
    decreases e, 0int,
{
    proof {
        unfold_expr(e);
    }
    match e {
        Expr::Identifier(s) => same(s.as_str(), name),
        Expr::Template { exprs, .. } => do_exs_name(exprs, name),
        Expr::TaggedTemplate { tag, .. } => does_ex_name(tag, name),
        Expr::Binary(_, l, r) => does_ex_name(l, name) || does_ex_name(r, name),
        Expr::Unary(_, a) => does_ex_name(a, name),
        Expr::Delete(a) => does_ex_name(a, name),
        Expr::Logical(_, l, r) => does_ex_name(l, name) || does_ex_name(r, name),
        Expr::Conditional(t, c, a) => {
            does_ex_name(t, name) || does_ex_name(c, name) || does_ex_name(a, name)
        },
        Expr::Call { callee, args, .. } => does_ex_name(callee, name) || do_items_name(args, name),
        Expr::New { callee, args } => does_ex_name(callee, name) || do_items_name(args, name),
        Expr::StaticMember { object, .. } => does_ex_name(object, name),
        Expr::ComputedMember { object, property, .. } => {
            does_ex_name(object, name) || does_ex_name(property, name)
        },
        Expr::Chain(a) => does_ex_name(a, name),
        Expr::Array(items) => do_items_name(items, name),
        Expr::Object(members) => do_members_name(members, name),
        Expr::Assign(t, v) => does_target_name(t, name) || does_ex_name(v, name),
        Expr::Update { target, .. } => does_target_name(target, name),
        Expr::Sequence(exprs) => do_exs_name(exprs, name),
        Expr::Parenthesized(a) => does_ex_name(a, name),
        Expr::Await(a) => does_ex_name(a, name),
        Expr::As(a, _) => does_ex_name(a, name),
        Expr::Satisfies(a, _) => does_ex_name(a, name),
        Expr::Arrow { function, .. } => does_function_name(function, name),
        Expr::Function { function, .. } => does_function_name(function, name),
        Expr::JsxElement { name: tag, attributes, children } => {
            let found = does_jsx_name_name(tag, name) || do_attrs_name(attributes, name);
            match children {
                Some(v) => found || do_children_name(v, name),
                None => found,
            }
        },
        Expr::JsxFragment(v) => do_children_name(v, name),
        _ => false,
    }
}

fn does_function_name(f: &Function, name: &str) -> (r: bool)
    ensures
        r == sts_name(function_model(*f).body, name@, function_model(*f).body.len() as int),
    decreases f, 0int,
{
    proof {
        unfold_function(f);
    }
    do_sts_name(&f.body, name)
}

fn does_item_name(i: &Item, name: &str) -> (r: bool)
    ensures
        r == item_names(item_model(*i), name@),
    decreases i, 0int,
{
    proof {
        unfold_item(i);
    }
    match i {
        Item::Value(e) => does_ex_name(e, name),
        Item::Spread(e) => does_ex_name(e, name),
        Item::Hole => false,
    }
}

fn does_key_name(k: &Key, name: &str) -> (r: bool)
    ensures
        r == key_names(key_model(*k), name@),
    decreases k, 0int,
{
    proof {
        unfold_key(k);
    }
    match k {
        Key::Computed(e) => does_ex_name(e, name),
        _ => false,
    }
}

fn does_member_name(m: &Member, name: &str) -> (r: bool)
    ensures
        r == member_names(member_model(*m), name@),
    decreases m, 0int,
{
    proof {
        unfold_member(m);
    }
    match m {
        Member::Spread(e) => does_ex_name(e, name),
        Member::Property { key, value, .. } => does_key_name(key, name) || does_ex_name(value, name),
    }
}

fn does_binding_name(b: &Binding, name: &str) -> (r: bool)
    ensures
        r == binding_names(binding_model(*b), name@),
    decreases b, 0int,
{
    proof {
        unfold_binding(b);
    }
    same(b.name.as_str(), name) || does_key_name(&b.key, name)
}

fn is_name(s: &Option<String>, name: &str) -> (r: bool)
    ensures
        r == (option_text(*s) == Some(name@)),
{
    match s {
        Some(t) => same(t.as_str(), name),
        None => false,
    }
}

fn holds_name(v: &Vec<Option<String>>, name: &str) -> (r: bool)
    ensures
        r == option_texts(v@).contains(Some(name@)),
{
    let ghost all = option_texts(v@);
    let mut i: usize = 0;
    while i < v.len()
        invariant
            all == option_texts(v@),
            i <= v@.len(),
            forall|k: int| 0 <= k < i ==> #[trigger] all[k] != Some(name@),
        decreases v@.len() - i,
    {
        if is_name(&v[i], name) {
            assert(all[i as int] == Some(name@));
            return true;
        }
        i = i + 1;
    }
    false
}

fn does_target_name(t: &Target, name: &str) -> (r: bool)
    ensures
        r == target_names(target_model(*t), name@),
    decreases t, 0int,
{
    proof {
        unfold_target(t);
    }
    match t {
        Target::Identifier(s) => same(s.as_str(), name),
        Target::Array { elements, rest } => holds_name(elements, name) || is_name(rest, name),
        Target::Object { properties, rest } => do_bindings_name(properties, name) || is_name(
            rest,
            name,
        ),
        Target::Member(e) => does_ex_name(e, name),
    }
}

fn does_jsx_name_name(n: &JsxName, name: &str) -> (r: bool)
    ensures
        r == jsx_name_names(jsx_name_model(*n), name@),
    decreases n, 0int,
{
    proof {
        unfold_jsx_name(n);
    }
    match n {
        JsxName::Component(e) => does_ex_name(e, name),
        _ => false,
    }
}

fn does_attr_name(a: &JsxAttr, name: &str) -> (r: bool)
    ensures
        r == attr_names(jsx_attr_model(*a), name@),
    decreases a, 0int,
{
    proof {
        unfold_jsx_attr(a);
    }
    match a {
        JsxAttr::Attribute { value, .. } => does_ex_name(value, name),
        JsxAttr::Spread(e) => does_ex_name(e, name),
    }
}

fn does_child_name(c: &JsxChild, name: &str) -> (r: bool)
    ensures
        r == child_names(jsx_child_model(*c), name@),
    decreases c, 0int,
{
    proof {
        unfold_jsx_child(c);
    }
    does_ex_name(&c.value, name)
}

fn does_option_name(e: &Option<Rc<Expr>>, name: &str) -> (r: bool)
    ensures
        r == option_names(option_expr(*e), name@),
    decreases e, 0int,
{
    match e {
        Some(e) => does_ex_name(e, name),
        None => false,
    }
}

fn does_declarator_name(d: &Declarator, name: &str) -> (r: bool)
    ensures
        r == declarator_names(declarator_model(*d), name@),
    decreases d, 0int,
{
    proof {
        unfold_declarator(d);
    }
    does_target_name(&d.target, name) || does_option_name(&d.init, name)
}

fn does_declaration_name(d: &Declaration, name: &str) -> (r: bool)
    ensures
        r == declaration_names(declaration_model(*d), name@),
    decreases d, 0int,
{
    proof {
        unfold_declaration(d);
    }
    do_declarators_name(&d.declarators, name)
}

fn does_arm_name(a: &SwitchArm, name: &str) -> (r: bool)
    ensures
        r == arm_names(arm_model(*a), name@),
    decreases a, 0int,
{
    proof {
        unfold_arm(a);
    }
    does_option_name(&a.test, name) || do_sts_name(&a.body, name)
}

fn does_left_name(l: &ForLeft, name: &str) -> (r: bool)
    ensures
        r == left_names(left_model(*l), name@),
    decreases l, 0int,
{
    proof {
        unfold_left(l);
    }
    match l {
        ForLeft::Declaration(d) => does_declaration_name(d, name),
        ForLeft::Target(t) => does_target_name(t, name),
    }
}

fn do_optional_sts_name(b: &Option<Vec<Stmt>>, name: &str) -> (r: bool)
    ensures
        r == optional_sts_name(option_stmts(*b), name@),
    decreases b, 0int,
{
    match b {
        Some(v) => do_sts_name(v, name),
        None => false,
    }
}

fn does_catch_name(c: &Option<CatchClause>, name: &str) -> (r: bool)
    ensures
        r == catch_names(option_catch(*c), name@),
    decreases c, 0int,
{
    match c {
        Some(c) => is_name(&c.param, name) || do_sts_name(&c.body, name),
        None => false,
    }
}

fn does_optional_declaration_name(d: &Option<Declaration>, name: &str) -> (r: bool)
    ensures
        r == optional_declaration_names(option_declaration(*d), name@),
    decreases d, 0int,
{
    match d {
        Some(d) => does_declaration_name(d, name),
        None => false,
    }
}

/// Checks if a statement names a variable.
pub fn does_stmt_name(s: &Stmt, name: &str) -> (r: bool)
    ensures
        r == st_names(stmt_model(*s), name@),
    decreases s, 0int,
{
    proof {
        unfold_stmt(s);
    }
    match s {
        Stmt::Expression(e) => does_ex_name(e, name),
        Stmt::Variable(d) => does_declaration_name(d, name),
        Stmt::Function { name: own, function } => same(own.as_str(), name) || does_ex_name(
            function,
            name,
        ),
        Stmt::Return(e) => does_option_name(e, name),
        Stmt::Throw(e) => does_ex_name(e, name),
        Stmt::If { test, consequent, alternate } => {
            does_ex_name(test, name) || do_sts_name(consequent, name) || do_optional_sts_name(
                alternate,
                name,
            )
        },
        Stmt::Block(v) => do_sts_name(v, name),
        Stmt::Switch { discriminant, arms } => does_ex_name(discriminant, name) || do_arms_name(
            arms,
            name,
        ),
        Stmt::While { test, body } => does_ex_name(test, name) || do_sts_name(body, name),
        Stmt::DoWhile { body, test } => do_sts_name(body, name) || does_ex_name(test, name),
        Stmt::For { init, test, update, body } => {
            does_optional_declaration_name(init, name) || does_option_name(test, name)
                || does_option_name(update, name) || do_sts_name(body, name)
        },
        Stmt::ForOf { left, right, body } => {
            does_left_name(left, name) || does_ex_name(right, name) || do_sts_name(body, name)
        },
        Stmt::ForIn { left, right, body } => {
            does_left_name(left, name) || does_ex_name(right, name) || do_sts_name(body, name)
        },
        Stmt::Labeled { body, .. } => does_stmt_name(body, name),
        Stmt::Try { block, handler, finalizer } => {
            do_sts_name(block, name) || does_catch_name(handler, name) || do_optional_sts_name(
                finalizer,
                name,
            )
        },
        _ => false,
    }
}

fn do_exs_name(v: &Vec<Rc<Expr>>, name: &str) -> (r: bool)
    ensures
        r == exs_name(expr_models(v@), name@, expr_models(v@).len() as int),
    decreases v, 0int,
{
    let ghost all = expr_models(v@);
    proof {
        lemma_expr_models(v@);
    }
    let mut found = false;
    let mut i: usize = 0;
    while i < v.len()
        invariant
            i <= v@.len(),
            all.len() == v@.len(),
            forall|k: int| 0 <= k < v@.len() ==> #[trigger] all[k] == expr_model(*v@[k]),
            found == exs_name(all, name@, i as int),
        decreases v@.len() - i,
    {
        assert(decreases_to!(v => v@));
        assert(decreases_to!(v@ => v@[i as int]));
        found = found || does_ex_name(&v[i], name);
        i = i + 1;
    }
    found
}

fn do_items_name(v: &Vec<Item>, name: &str) -> (r: bool)
    ensures
        r == items_name(item_models(v@), name@, item_models(v@).len() as int),
    decreases v, 0int,
{
    let ghost all = item_models(v@);
    proof {
        lemma_item_models(v@);
    }
    let mut found = false;
    let mut i: usize = 0;
    while i < v.len()
        invariant
            i <= v@.len(),
            all.len() == v@.len(),
            forall|k: int| 0 <= k < v@.len() ==> #[trigger] all[k] == item_model(v@[k]),
            found == items_name(all, name@, i as int),
        decreases v@.len() - i,
    {
        assert(decreases_to!(v => v@));
        assert(decreases_to!(v@ => v@[i as int]));
        found = found || does_item_name(&v[i], name);
        i = i + 1;
    }
    found
}

fn do_members_name(v: &Vec<Member>, name: &str) -> (r: bool)
    ensures
        r == members_name(member_models(v@), name@, member_models(v@).len() as int),
    decreases v, 0int,
{
    let ghost all = member_models(v@);
    proof {
        lemma_member_models(v@);
    }
    let mut found = false;
    let mut i: usize = 0;
    while i < v.len()
        invariant
            i <= v@.len(),
            all.len() == v@.len(),
            forall|k: int| 0 <= k < v@.len() ==> #[trigger] all[k] == member_model(v@[k]),
            found == members_name(all, name@, i as int),
        decreases v@.len() - i,
    {
        assert(decreases_to!(v => v@));
        assert(decreases_to!(v@ => v@[i as int]));
        found = found || does_member_name(&v[i], name);
        i = i + 1;
    }
    found
}

fn do_bindings_name(v: &Vec<Binding>, name: &str) -> (r: bool)
    ensures
        r == bindings_name(binding_models(v@), name@, binding_models(v@).len() as int),
    decreases v, 0int,
{
    let ghost all = binding_models(v@);
    proof {
        lemma_binding_models(v@);
    }
    let mut found = false;
    let mut i: usize = 0;
    while i < v.len()
        invariant
            i <= v@.len(),
            all.len() == v@.len(),
            forall|k: int| 0 <= k < v@.len() ==> #[trigger] all[k] == binding_model(v@[k]),
            found == bindings_name(all, name@, i as int),
        decreases v@.len() - i,
    {
        assert(decreases_to!(v => v@));
        assert(decreases_to!(v@ => v@[i as int]));
        found = found || does_binding_name(&v[i], name);
        i = i + 1;
    }
    found
}

fn do_attrs_name(v: &Vec<JsxAttr>, name: &str) -> (r: bool)
    ensures
        r == attrs_name(jsx_attr_models(v@), name@, jsx_attr_models(v@).len() as int),
    decreases v, 0int,
{
    let ghost all = jsx_attr_models(v@);
    proof {
        lemma_jsx_attr_models(v@);
    }
    let mut found = false;
    let mut i: usize = 0;
    while i < v.len()
        invariant
            i <= v@.len(),
            all.len() == v@.len(),
            forall|k: int| 0 <= k < v@.len() ==> #[trigger] all[k] == jsx_attr_model(v@[k]),
            found == attrs_name(all, name@, i as int),
        decreases v@.len() - i,
    {
        assert(decreases_to!(v => v@));
        assert(decreases_to!(v@ => v@[i as int]));
        found = found || does_attr_name(&v[i], name);
        i = i + 1;
    }
    found
}

fn do_children_name(v: &Vec<JsxChild>, name: &str) -> (r: bool)
    ensures
        r == children_name(jsx_child_models(v@), name@, jsx_child_models(v@).len() as int),
    decreases v, 0int,
{
    let ghost all = jsx_child_models(v@);
    proof {
        lemma_jsx_child_models(v@);
    }
    let mut found = false;
    let mut i: usize = 0;
    while i < v.len()
        invariant
            i <= v@.len(),
            all.len() == v@.len(),
            forall|k: int| 0 <= k < v@.len() ==> #[trigger] all[k] == jsx_child_model(v@[k]),
            found == children_name(all, name@, i as int),
        decreases v@.len() - i,
    {
        assert(decreases_to!(v => v@));
        assert(decreases_to!(v@ => v@[i as int]));
        found = found || does_child_name(&v[i], name);
        i = i + 1;
    }
    found
}

fn do_declarators_name(v: &Vec<Declarator>, name: &str) -> (r: bool)
    ensures
        r == declarators_name(declarator_models(v@), name@, declarator_models(v@).len() as int),
    decreases v, 0int,
{
    let ghost all = declarator_models(v@);
    proof {
        lemma_declarator_models(v@);
    }
    let mut found = false;
    let mut i: usize = 0;
    while i < v.len()
        invariant
            i <= v@.len(),
            all.len() == v@.len(),
            forall|k: int| 0 <= k < v@.len() ==> #[trigger] all[k] == declarator_model(v@[k]),
            found == declarators_name(all, name@, i as int),
        decreases v@.len() - i,
    {
        assert(decreases_to!(v => v@));
        assert(decreases_to!(v@ => v@[i as int]));
        found = found || does_declarator_name(&v[i], name);
        i = i + 1;
    }
    found
}

fn do_arms_name(v: &Vec<SwitchArm>, name: &str) -> (r: bool)
    ensures
        r == arms_name(arm_models(v@), name@, arm_models(v@).len() as int),
    decreases v, 0int,
{
    let ghost all = arm_models(v@);
    proof {
        lemma_arm_models(v@);
    }
    let mut found = false;
    let mut i: usize = 0;
    while i < v.len()
        invariant
            i <= v@.len(),
            all.len() == v@.len(),
            forall|k: int| 0 <= k < v@.len() ==> #[trigger] all[k] == arm_model(v@[k]),
            found == arms_name(all, name@, i as int),
        decreases v@.len() - i,
    {
        assert(decreases_to!(v => v@));
        assert(decreases_to!(v@ => v@[i as int]));
        found = found || does_arm_name(&v[i], name);
        i = i + 1;
    }
    found
}

fn do_sts_name(v: &Vec<Stmt>, name: &str) -> (r: bool)
    ensures
        r == sts_name(stmt_models(v@), name@, stmt_models(v@).len() as int),
    decreases v, 0int,
{
    let ghost all = stmt_models(v@);
    proof {
        lemma_stmt_models(v@);
    }
    let mut found = false;
    let mut i: usize = 0;
    while i < v.len()
        invariant
            i <= v@.len(),
            all.len() == v@.len(),
            forall|k: int| 0 <= k < v@.len() ==> #[trigger] all[k] == stmt_model(v@[k]),
            found == sts_name(all, name@, i as int),
        decreases v@.len() - i,
    {
        assert(decreases_to!(v => v@));
        assert(decreases_to!(v@ => v@[i as int]));
        found = found || does_stmt_name(&v[i], name);
        i = i + 1;
    }
    found
}

} // verus!
