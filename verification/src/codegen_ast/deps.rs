//! The dependencies of scopes as expressions.

use std::rc::Rc;
use vstd::prelude::*;

use crate::codegen::print::{float_text, is_float_text};
use crate::codegen_ast::js::{unfold_expr, expr_model, option_expr, Ex, Expr, Text};
use crate::codegen_ast::make::{computed_member, ident, static_member};
use crate::codegen_ast::state::{
    own_name, temp_models, written_name, written_name_of, CodegenContext, Cx,
};
use crate::hir::{DependencyPathEntry, ReactiveScopeDependency};
use crate::text::{cat3, owned, same};

verus! {

broadcast use crate::codegen_ast::js::group_js;

/// One step of a path matches: whether it does, and whether only the expression is optional there.
pub open spec fn step_matches(entry: DependencyPathEntry, name: Text, optional: bool, relaxed: bool) -> bool {
    name == entry.property@ && (optional == entry.optional || (relaxed && optional
        && !entry.optional))
}

/// Whether an expression is the first `n` steps of a dependency's path, and whether it is optional
/// at a step at which the path is not; `mismatch` tells it of the steps behind.
pub open spec fn matches_path(
    e: Ex,
    dep: ReactiveScopeDependency,
    n: int,
    relaxed: bool,
    mismatch: bool,
) -> (bool, bool)
    decreases n,
{
    if n <= 0 {
        if e is Identifier && dep.identifier.name is Some {
            (e->Identifier_0 == own_name(dep.identifier), mismatch)
        } else {
            (false, false)
        }
    } else {
        let entry = dep.path@[n - 1];
        match e {
            Ex::StaticMember { object, property, optional } => {
                if step_matches(entry, property, optional, relaxed) {
                    matches_path(*object, dep, n - 1, relaxed, mismatch || optional != entry.optional)
                } else {
                    (false, false)
                }
            },
            Ex::ComputedMember { object, property, optional } => {
                if *property is Number && step_matches(
                    entry,
                    property->Number_0,
                    optional,
                    relaxed,
                ) {
                    matches_path(*object, dep, n - 1, relaxed, mismatch || optional != entry.optional)
                } else {
                    (false, false)
                }
            },
            _ => (false, false),
        }
    }
}

pub open spec fn matches_dep(e: Ex, dep: ReactiveScopeDependency) -> bool {
    matches_path(e, dep, dep.path@.len() as int, false, false).0
}

/// Whether an expression is a dependency's path with optional steps where the path has none.
pub open spec fn matches_dep_optionally(e: Ex, dep: ReactiveScopeDependency) -> bool {
    let m = matches_path(e, dep, dep.path@.len() as int, true, false);
    m.0 && m.1
}

fn is_step(entry: &DependencyPathEntry, name: &str, optional: bool, relaxed: bool) -> (r: bool)
    ensures
        r == step_matches(*entry, name@, optional, relaxed),
{
    same(name, entry.property.as_str()) && (optional == entry.optional || (relaxed && optional
        && !entry.optional))
}

fn expr_matches_dep_path_inner(
    e: &Expr,
    dep: &ReactiveScopeDependency,
    n: usize,
    relaxed: bool,
    mismatch: bool,
) -> (r: (bool, bool))
    requires
        n <= dep.path@.len(),
    ensures
        r == matches_path(expr_model(*e), *dep, n as int, relaxed, mismatch),
    decreases n,
{
    proof {
        unfold_expr(e);
    }
    if n == 0 {
        if let Expr::Identifier(s) = e {
            if let Some(name) = &dep.identifier.name {
                return (same(s.as_str(), name.value()), mismatch);
            }
        }
        return (false, false);
    }
    let entry = &dep.path[n - 1];
    match e {
        Expr::StaticMember { object, property, optional } => {
            if is_step(entry, property.as_str(), *optional, relaxed) {
                expr_matches_dep_path_inner(
                    object,
                    dep,
                    n - 1,
                    relaxed,
                    mismatch || *optional != entry.optional,
                )
            } else {
                (false, false)
            }
        },
        Expr::ComputedMember { object, property, optional } => {
            proof {
                unfold_expr(&**property);
            }
            match &**property {
                Expr::Number(s) => {
                    if is_step(entry, s.as_str(), *optional, relaxed) {
                        expr_matches_dep_path_inner(
                            object,
                            dep,
                            n - 1,
                            relaxed,
                            mismatch || *optional != entry.optional,
                        )
                    } else {
                        (false, false)
                    }
                },
                _ => (false, false),
            }
        },
        _ => (false, false),
    }
}

/// Whether an expression is the path of a dependency.
pub fn expr_matches_dep_path(e: &Expr, dep: &ReactiveScopeDependency) -> (r: bool)
    ensures
        r == matches_dep(expr_model(*e), *dep),
{
    expr_matches_dep_path_inner(e, dep, dep.path.len(), false, false).0
}

/// Whether an expression is the path of a dependency, if optional steps of the expression may stand
/// for others, and whether there is such a step.
pub fn expr_matches_dep_path_relaxed(e: &Expr, dep: &ReactiveScopeDependency) -> (r: (bool, bool))
    ensures
        r == matches_path(expr_model(*e), *dep, dep.path@.len() as int, true, false),
{
    expr_matches_dep_path_inner(e, dep, dep.path.len(), true, false)
}

/// The first temporary from `i` on whose expression is the path of a dependency.
pub open spec fn exact_temp(temps: Seq<(u32, Ex)>, dep: ReactiveScopeDependency, i: int) -> Option<u32>
    decreases temps.len() - i,
{
    if i < 0 || i >= temps.len() {
        None
    } else if matches_dep(temps[i].1, dep) {
        Some(temps[i].0)
    } else {
        exact_temp(temps, dep, i + 1)
    }
}

/// The first temporary from `i` on whose expression is the path with more optional steps.
pub open spec fn relaxed_temp(temps: Seq<(u32, Ex)>, dep: ReactiveScopeDependency, i: int) -> Option<u32>
    decreases temps.len() - i,
{
    if i < 0 || i >= temps.len() {
        None
    } else if matches_dep_optionally(temps[i].1, dep) {
        Some(temps[i].0)
    } else {
        relaxed_temp(temps, dep, i + 1)
    }
}

/// The first temporary whose expression is the path with more optional steps, where no temporary is
/// the path itself.
pub open spec fn optional_temp(temps: Seq<(u32, Ex)>, dep: ReactiveScopeDependency) -> Option<u32> {
    if exact_temp(temps, dep, 0) is Some {
        None
    } else {
        relaxed_temp(temps, dep, 0)
    }
}

/// Searches the temporary whose expression is the path of a dependency.
pub fn find_temp_matching_dep(cx: &CodegenContext, dep: &ReactiveScopeDependency) -> (r: Option<u32>)
    ensures
        r == exact_temp(cx@.temps, *dep, 0),
{
    let temps = cx.temps();
    let ghost all = cx@.temps;
    let mut i: usize = 0;
    while i < temps.len()
        invariant
            i <= temps@.len(),
            all == cx@.temps,
            temp_models(temps@) == all,
            exact_temp(all, *dep, 0) == exact_temp(all, *dep, i as int),
        decreases temps@.len() - i,
    {
        assert(all[i as int] == (temps@[i as int].0, expr_model(*temps@[i as int].1)));
        if expr_matches_dep_path(&temps[i].1, dep) {
            return Some(temps[i].0);
        }
        i = i + 1;
    }
    assert(all.len() == temps@.len());
    None
}

/// Searches the temporary whose expression is the path of a dependency with more optional steps. A
/// temporary that is the path itself makes it needless.
pub fn find_temp_with_optional_chain_for_dep(cx: &CodegenContext, dep: &ReactiveScopeDependency) -> (r:
    Option<u32>)
    ensures
        r == optional_temp(cx@.temps, *dep),
{
    if find_temp_matching_dep(cx, dep).is_some() {
        return None;
    }
    let temps = cx.temps();
    let ghost all = cx@.temps;
    let mut i: usize = 0;
    while i < temps.len()
        invariant
            i <= temps@.len(),
            all == cx@.temps,
            temp_models(temps@) == all,
            exact_temp(all, *dep, 0) is None,
            relaxed_temp(all, *dep, 0) == relaxed_temp(all, *dep, i as int),
        decreases temps@.len() - i,
    {
        assert(all[i as int] == (temps@[i as int].0, expr_model(*temps@[i as int].1)));
        let (matches, optional) = expr_matches_dep_path_relaxed(&temps[i].1, dep);
        if matches && optional {
            return Some(temps[i].0);
        }
        i = i + 1;
    }
    assert(all.len() == temps@.len());
    None
}

/// The expression `e` with the first `n` steps of a path behind it.
pub open spec fn path_expr(e: Ex, path: Seq<DependencyPathEntry>, n: int) -> Ex
    decreases n,
{
    if n <= 0 {
        e
    } else {
        step_expr(path_expr(e, path, n - 1), path[n - 1])
    }
}

/// The expression `e` with one step behind it: a computed one where the property reads as a number.
pub open spec fn step_expr(e: Ex, entry: DependencyPathEntry) -> Ex {
    if float_text(entry.property@) {
        Ex::ComputedMember {
            object: Box::new(e),
            property: Box::new(Ex::Number(entry.property@)),
            optional: entry.optional,
        }
    } else {
        Ex::StaticMember {
            object: Box::new(e),
            property: entry.property@,
            optional: entry.optional,
        }
    }
}

fn codegen_step(e: Rc<Expr>, entry: &DependencyPathEntry) -> (r: Rc<Expr>)
    ensures
        expr_model(*r) == step_expr(expr_model(*e), *entry),
{
    if is_float_text(entry.property.as_str()) {
        let key = Rc::new(Expr::Number(owned(entry.property.as_str())));
        assert(expr_model(*key) == Ex::Number(entry.property@));
        computed_member(e, key, entry.optional)
    } else {
        static_member(e, entry.property.as_str(), entry.optional)
    }
}

/// The expression for a dependency; one without a name has none.
pub open spec fn dependency_expr(dep: ReactiveScopeDependency) -> Option<Ex> {
    match dep.identifier.name {
        Some(n) => Some(
            path_expr(Ex::Identifier(n.text()), dep.path@, dep.path@.len() as int),
        ),
        None => None,
    }
}

pub fn codegen_dependency_expr(dep: &ReactiveScopeDependency) -> (r: Option<Rc<Expr>>)
    ensures
        option_expr(r) == dependency_expr(*dep),
{
    let mut e = match &dep.identifier.name {
        Some(n) => ident(n.value()),
        None => {
            return None;
        },
    };
    let ghost root = e@;
    let mut i: usize = 0;
    while i < dep.path.len()
        invariant
            i <= dep.path@.len(),
            expr_model(*e) == path_expr(root, dep.path@, i as int),
        decreases dep.path@.len() - i,
    {
        e = codegen_step(e, &dep.path[i]);
        i = i + 1;
    }
    Some(e)
}

/// A text with the first `n` steps of a path behind it.
pub open spec fn path_text(root: Text, path: Seq<DependencyPathEntry>, n: int) -> Text
    decreases n,
{
    if n <= 0 {
        root
    } else {
        path_text(root, path, n - 1) + "."@ + path[n - 1].property@
    }
}

/// The text by which dependencies are sorted: the name under which the variable is known, and the
/// path.
pub open spec fn dep_key(cx: Cx, dep: ReactiveScopeDependency) -> Text {
    let decl = dep.identifier.declaration_id.0;
    let root = if cx.decl_names.contains_key(decl) {
        cx.decl_names[decl]
    } else {
        written_name(dep.identifier)
    };
    path_text(root, dep.path@, dep.path@.len() as int)
}

pub fn dep_sort_key_with_cx(cx: &CodegenContext, dep: &ReactiveScopeDependency) -> (r: String)
    ensures
        r@ == dep_key(cx@, *dep),
{
    let root = match cx.decl_name(dep.identifier.declaration_id) {
        Some(n) => n,
        None => written_name_of(&dep.identifier),
    };
    let ghost start = root@;
    let mut key = root;
    let mut i: usize = 0;
    while i < dep.path.len()
        invariant
            i <= dep.path@.len(),
            key@ == path_text(start, dep.path@, i as int),
        decreases dep.path@.len() - i,
    {
        key = cat3(key.as_str(), ".", dep.path[i].property.as_str());
        i = i + 1;
    }
    key
}

} // verus!
