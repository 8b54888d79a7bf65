//! What the code of a memoized scope does when it is run.

use vstd::prelude::*;

use crate::codegen::print::float_text;
use crate::codegen_ast::assemble::{
    any_changed, any_true, change_vars, dep_stores, full_test, memo_changed, memo_once,
    output_loads, output_stores,
};
use crate::codegen_ast::deps::{dependency_expr, path_expr};
use crate::codegen_ast::js::{Ex, ItemModel, St, TargetModel, Text};
use crate::codegen_ast::laws::{
    dep_numbers, follows, lemma_block, lemma_scope_slots, lemma_synthesized_is_new, output_numbers,
};
use crate::codegen_ast::memo::{
    caught, chains, declare_reassigned, declare_vars, dep_keys, dep_order, dep_roots, dep_slots,
    final_name, front_of, scope_vars, shifted, var_names, var_slots, vars_of, Var,
};
use crate::codegen_ast::nested::block_loads_property;
use crate::codegen_ast::state::{synthesized, Cx};
use crate::codegen_ast::ternary::fused_from;
use crate::codegen_ast::walk::{block_code, is_inlined, scope_code};
use crate::hir::{
    BinaryOperator, DependencyPathEntry, IdentifierId, LogicalOperator, ReactiveScope,
    ReactiveScopeDependency, ReactiveStatement, ScopeDeclaration,
};
use crate::sorting::{key_order, order_upto, placed, text_less};
use crate::text::{decimal, lemma_decimal_injective, temp_name};

verus! {

// ---------------------------------------------------------------------------
// Running code
// ---------------------------------------------------------------------------

/// A value, as far as strict equality and truth tell values apart.
pub enum Value {
    Bool(bool),
    Other(int),
}

/// What the variables and the slots of the cache hold.
pub struct Memory {
    pub vars: Map<Text, Value>,
    pub slots: Map<Text, Value>,
}

/// What runs the code: the name of the cache, what a variable without a value holds, which other values
/// are true, and what the expressions and statements do that are not spelled out here. Such expressions
/// read variables only.
pub struct Machine {
    pub cache: Text,
    pub nothing: Value,
    pub truth: spec_fn(int) -> bool,
    pub value: spec_fn(Ex, Map<Text, Value>) -> Value,
    pub step: spec_fn(St, Memory) -> Memory,
}

pub open spec fn is_true(m: Machine, v: Value) -> bool {
    match v {
        Value::Bool(b) => b,
        Value::Other(x) => (m.truth)(x),
    }
}

/// The slot of the cache that an expression stands for.
pub open spec fn slot_of(m: Machine, e: Ex) -> Option<Text> {
    match e {
        Ex::ComputedMember { object, property, .. } => {
            if *object == Ex::Identifier(m.cache) && *property is Number {
                Some(property->Number_0)
            } else {
                None
            }
        },
        _ => None,
    }
}

/// The value of an expression.
pub open spec fn value_of(m: Machine, e: Ex, mem: Memory) -> Value
    decreases e,
{
    match e {
        Ex::Identifier(s) => mem.vars[s],
        Ex::Boolean(b) => Value::Bool(b),
        Ex::Binary(BinaryOperator::StrictEq, l, r) => Value::Bool(
            value_of(m, *l, mem) == value_of(m, *r, mem),
        ),
        Ex::Binary(BinaryOperator::StrictNotEq, l, r) => Value::Bool(
            value_of(m, *l, mem) != value_of(m, *r, mem),
        ),
        Ex::Logical(LogicalOperator::Or, l, r) => {
            if is_true(m, value_of(m, *l, mem)) {
                value_of(m, *l, mem)
            } else {
                value_of(m, *r, mem)
            }
        },
        Ex::Logical(LogicalOperator::And, l, r) => {
            if is_true(m, value_of(m, *l, mem)) {
                value_of(m, *r, mem)
            } else {
                value_of(m, *l, mem)
            }
        },
        _ => match slot_of(m, e) {
            Some(t) => mem.slots[t],
            None => (m.value)(e, mem.vars),
        },
    }
}

/// What holds behind a statement.
pub open spec fn exec(m: Machine, s: St, mem: Memory) -> Memory
    decreases s, 0int,
{
    match s {
        St::Expression(Ex::Assign(TargetModel::Identifier(name), e)) => Memory {
            vars: mem.vars.insert(name, value_of(m, *e, mem)),
            ..mem
        },
        St::Expression(Ex::Assign(TargetModel::Member(t), e)) => match slot_of(m, *t) {
            Some(slot) => Memory { slots: mem.slots.insert(slot, value_of(m, *e, mem)), ..mem },
            None => (m.step)(s, mem),
        },
        St::Variable(d) => {
            if d.declarators.len() == 1 && d.declarators[0].target is Identifier {
                let name = d.declarators[0].target->Identifier_0;
                Memory {
                    vars: mem.vars.insert(
                        name,
                        match d.declarators[0].init {
                            Some(e) => value_of(m, e, mem),
                            None => m.nothing,
                        },
                    ),
                    ..mem
                }
            } else {
                (m.step)(s, mem)
            }
        },
        St::If { test, consequent, alternate } => {
            if is_true(m, value_of(m, test, mem)) {
                run(m, consequent, consequent.len() as int, mem)
            } else {
                match alternate {
                    Some(a) => run(m, a, a.len() as int, mem),
                    None => mem,
                }
            }
        },
        _ => (m.step)(s, mem),
    }
}

/// What holds behind the first `n` statements.
pub open spec fn run(m: Machine, stmts: Seq<St>, n: int, mem: Memory) -> Memory
    decreases stmts, n,
{
    if n <= 0 || n > stmts.len() {
        mem
    } else {
        exec(m, stmts[n - 1], run(m, stmts, n - 1, mem))
    }
}

proof fn lemma_run_front(m: Machine, a: Seq<St>, b: Seq<St>, n: int, mem: Memory)
    requires
        n <= a.len(),
    ensures
        run(m, a + b, n, mem) == run(m, a, n, mem),
    decreases n,
{
    if n > 0 {
        lemma_run_front(m, a, b, n - 1, mem);
        assert((a + b)[n - 1] == a[n - 1]);
    }
}

/// Statements run one behind the other.
pub proof fn lemma_run_add(m: Machine, a: Seq<St>, b: Seq<St>, n: int, mem: Memory)
    requires
        0 <= n <= b.len(),
    ensures
        run(m, a + b, a.len() + n, mem) == run(m, b, n, run(m, a, a.len() as int, mem)),
    decreases n,
{
    if n > 0 {
        lemma_run_add(m, a, b, n - 1, mem);
        assert((a + b)[a.len() + n - 1] == b[n - 1]);
    } else {
        lemma_run_front(m, a, b, a.len() as int, mem);
    }
}

// ---------------------------------------------------------------------------
// Dependencies and results
// ---------------------------------------------------------------------------

/// The key under which the cache holds a slot.
pub open spec fn key(slot: u32) -> Text {
    decimal(slot as nat)
}

/// Whether the value of an expression does not come from the cache.
pub open spec fn steady(m: Machine, e: Ex) -> bool {
    forall|mem: Memory, slots: Map<Text, Value>|
        #![trigger value_of(m, e, Memory { vars: mem.vars, slots })]
        value_of(m, e, Memory { vars: mem.vars, slots }) == value_of(m, e, mem)
}

pub open spec fn all_steady(m: Machine, deps: Seq<(u32, Ex)>) -> bool {
    forall|i: int| 0 <= i < deps.len() ==> steady(m, (#[trigger] deps[i]).1)
}

/// Whether a dependency differs from what its slot holds.
pub open spec fn differs(m: Machine, dep: (u32, Ex), mem: Memory) -> bool {
    mem.slots[key(dep.0)] != value_of(m, dep.1, mem)
}

/// Whether one of the dependencies differs from what its slot holds.
pub open spec fn some_differs(m: Machine, deps: Seq<(u32, Ex)>, mem: Memory) -> bool {
    exists|i: int| 0 <= i < deps.len() && differs(m, #[trigger] deps[i], mem)
}

/// Whether no two of the slots are one.
pub open spec fn apart(deps: Seq<(u32, Ex)>, outs: Seq<(Text, u32)>) -> bool {
    &&& forall|i: int, j: int|
        0 <= i < j < deps.len() ==> (#[trigger] deps[i]).0 != (#[trigger] deps[j]).0
    &&& forall|i: int, j: int|
        0 <= i < j < outs.len() ==> (#[trigger] outs[i]).1 != (#[trigger] outs[j]).1
    &&& forall|i: int, j: int|
        0 <= i < deps.len() && 0 <= j < outs.len() ==> (#[trigger] deps[i]).0 != (
        #[trigger] outs[j]).1
}

/// Whether no result behind the one at `k` has the same name.
pub open spec fn last_of_name(outs: Seq<(Text, u32)>, k: int) -> bool {
    forall|j: int| k < j < outs.len() ==> (#[trigger] outs[j]).0 != outs[k].0
}

/// Whether a variable is none of the results.
pub open spec fn no_result(outs: Seq<(Text, u32)>, name: Text) -> bool {
    forall|j: int| 0 <= j < outs.len() ==> (#[trigger] outs[j]).0 != name
}

/// Whether behind `after` the results were computed by `body` from `mem`, and are kept together with what
/// the dependencies are then.
pub open spec fn computed(
    m: Machine,
    deps: Seq<(u32, Ex)>,
    outs: Seq<(Text, u32)>,
    body: Seq<St>,
    mem: Memory,
    after: Memory,
) -> bool {
    let b = run(m, body, body.len() as int, mem);
    &&& after.vars == b.vars
    &&& forall|i: int|
        0 <= i < deps.len() ==> after.slots[key((#[trigger] deps[i]).0)] == value_of(m, deps[i].1, b)
    &&& forall|k: int|
        0 <= k < outs.len() ==> after.slots[key((#[trigger] outs[k]).1)] == b.vars[outs[k].0]
}

/// Whether behind `after` the results are those that the cache holds, and all else is as in `mem`.
pub open spec fn loaded(m: Machine, outs: Seq<(Text, u32)>, mem: Memory, after: Memory) -> bool {
    &&& after.slots == mem.slots
    &&& forall|k: int|
        0 <= k < outs.len() && #[trigger] last_of_name(outs, k) ==> after.vars[outs[k].0]
            == mem.slots[key(outs[k].1)]
    &&& forall|name: Text| #[trigger]
        no_result(outs, name) ==> after.vars[name] == mem.vars[name]
}

proof fn lemma_dep_stores_run(m: Machine, deps: Seq<(u32, Ex)>, n: int, mem: Memory)
    requires
        0 <= n <= deps.len(),
        apart(deps, Seq::empty()),
        all_steady(m, deps),
    ensures
        dep_stores(m.cache, deps, n).len() == n,
        ({
            let after = run(m, dep_stores(m.cache, deps, n), n, mem);
            &&& after.vars == mem.vars
            &&& forall|i: int|
                0 <= i < n ==> after.slots[key((#[trigger] deps[i]).0)] == value_of(
                    m,
                    deps[i].1,
                    mem,
                )
        }),
    decreases n,
{
    if n > 0 {
        lemma_dep_stores_run(m, deps, n - 1, mem);
        let front = dep_stores(m.cache, deps, n - 1);
        let all = dep_stores(m.cache, deps, n);
        let before = run(m, front, n - 1, mem);
        assert(all =~= front + seq![all[n - 1]]);
        lemma_run_front(m, front, seq![all[n - 1]], n - 1, mem);
        let after = run(m, all, n, mem);
        assert(after == exec(m, all[n - 1], before));
        assert(steady(m, deps[n - 1].1));
        assert(value_of(m, deps[n - 1].1, Memory { vars: mem.vars, slots: before.slots }) == value_of(
            m,
            deps[n - 1].1,
            mem,
        ));
        assert forall|i: int| 0 <= i < n implies after.slots[key((#[trigger] deps[i]).0)] == value_of(
            m,
            deps[i].1,
            mem,
        ) by {
            lemma_decimal_injective(deps[i].0 as nat, deps[n - 1].0 as nat);
        }
    }
}

proof fn lemma_output_stores_run(m: Machine, outs: Seq<(Text, u32)>, n: int, mem: Memory)
    requires
        0 <= n <= outs.len(),
        apart(Seq::empty(), outs),
    ensures
        output_stores(m.cache, outs, n).len() == n,
        ({
            let after = run(m, output_stores(m.cache, outs, n), n, mem);
            &&& after.vars == mem.vars
            &&& forall|k: int|
                0 <= k < n ==> after.slots[key((#[trigger] outs[k]).1)] == mem.vars[outs[k].0]
            &&& forall|slot: u32|
                (forall|k: int| 0 <= k < n ==> (#[trigger] outs[k]).1 != slot) ==> after.slots[
                    #[trigger] key(slot)
                ] == mem.slots[key(slot)]
        }),
    decreases n,
{
    if n > 0 {
        lemma_output_stores_run(m, outs, n - 1, mem);
        let front = output_stores(m.cache, outs, n - 1);
        let all = output_stores(m.cache, outs, n);
        let before = run(m, front, n - 1, mem);
        assert(all =~= front + seq![all[n - 1]]);
        lemma_run_front(m, front, seq![all[n - 1]], n - 1, mem);
        let after = run(m, all, n, mem);
        assert(after == exec(m, all[n - 1], before));
        assert forall|k: int| 0 <= k < n implies after.slots[key((#[trigger] outs[k]).1)]
            == mem.vars[outs[k].0] by {
            lemma_decimal_injective(outs[k].1 as nat, outs[n - 1].1 as nat);
        }
        assert forall|slot: u32|
            (forall|k: int| 0 <= k < n ==> (#[trigger] outs[k]).1 != slot) implies after.slots[
            #[trigger] key(slot)
        ] == mem.slots[key(slot)] by {
            assert(outs[n - 1].1 != slot);
            lemma_decimal_injective(slot as nat, outs[n - 1].1 as nat);
        }
    }
}

proof fn lemma_output_loads_run(m: Machine, outs: Seq<(Text, u32)>, n: int, mem: Memory)
    requires
        0 <= n <= outs.len(),
    ensures
        output_loads(m.cache, outs, n).len() == n,
        loaded(m, outs.take(n), mem, run(m, output_loads(m.cache, outs, n), n, mem)),
    decreases n,
{
    if n > 0 {
        lemma_output_loads_run(m, outs, n - 1, mem);
        let front = output_loads(m.cache, outs, n - 1);
        let all = output_loads(m.cache, outs, n);
        let before = run(m, front, n - 1, mem);
        assert(all =~= front + seq![all[n - 1]]);
        lemma_run_front(m, front, seq![all[n - 1]], n - 1, mem);
        let after = run(m, all, n, mem);
        assert(after == exec(m, all[n - 1], before));
        let now = outs.take(n);
        let old = outs.take(n - 1);
        assert(forall|k: int| 0 <= k < n - 1 ==> now[k] == old[k]);
        assert forall|k: int| 0 <= k < now.len() && #[trigger] last_of_name(now, k) implies after.vars[
            now[k].0
        ] == mem.slots[key(now[k].1)] by {
            if k < n - 1 {
                assert(now[n - 1].0 != now[k].0);
                assert forall|j: int| k < j < old.len() implies (#[trigger] old[j]).0 != old[k].0 by {
                    assert(now[j].0 != now[k].0);
                }
                assert(last_of_name(old, k));
            }
        }
        assert forall|name: Text| #[trigger] no_result(now, name) implies after.vars[name]
            == mem.vars[name] by {
            assert(now[n - 1].0 != name);
            assert forall|j: int| 0 <= j < old.len() implies (#[trigger] old[j]).0 != name by {
                assert(now[j].0 != name);
            }
            assert(no_result(old, name));
        }
    } else {
        assert(outs.take(0) =~= Seq::empty());
    }
}

// ---------------------------------------------------------------------------
// The guard
// ---------------------------------------------------------------------------

proof fn lemma_any_changed(m: Machine, deps: Seq<(u32, Ex)>, n: int, mem: Memory)
    requires
        0 < n <= deps.len(),
    ensures
        is_true(m, value_of(m, any_changed(m.cache, deps, n), mem)) <==> some_differs(
            m,
            deps.take(n),
            mem,
        ),
        value_of(m, any_changed(m.cache, deps, n), mem) is Bool,
    decreases n,
{
    reveal_with_fuel(value_of, 3);
    let now = deps.take(n);
    assert(now[n - 1] == deps[n - 1]);
    if n > 1 {
        lemma_any_changed(m, deps, n - 1, mem);
        let old = deps.take(n - 1);
        if some_differs(m, old, mem) {
            let i = choose|i: int| 0 <= i < old.len() && differs(m, #[trigger] old[i], mem);
            assert(differs(m, now[i], mem));
        }
        if some_differs(m, now, mem) && !differs(m, now[n - 1], mem) {
            let i = choose|i: int| 0 <= i < now.len() && differs(m, #[trigger] now[i], mem);
            assert(differs(m, old[i], mem));
        }
        if differs(m, deps[n - 1], mem) {
            assert(differs(m, now[n - 1], mem));
        }
    } else {
        if differs(m, deps[0], mem) {
            assert(differs(m, now[0], mem));
        }
    }
}

/// The guard of a memoized scope is true exactly where at least one of the dependencies differs from what
/// its slot holds.
pub proof fn lemma_guard_sees_every_change(m: Machine, deps: Seq<(u32, Ex)>, mem: Memory)
    requires
        deps.len() > 0,
    ensures
        is_true(m, value_of(m, any_changed(m.cache, deps, deps.len() as int), mem)) <==> some_differs(
            m,
            deps,
            mem,
        ),
{
    lemma_any_changed(m, deps, deps.len() as int, mem);
    assert(deps.take(deps.len() as int) =~= deps);
}

// ---------------------------------------------------------------------------
// The memoized block
// ---------------------------------------------------------------------------

/// Whether a statement is memoization as it should be: it computes and keeps where `again` tells so, and
/// otherwise takes the results from the cache.
pub open spec fn memoizes(
    m: Machine,
    s: St,
    deps: Seq<(u32, Ex)>,
    outs: Seq<(Text, u32)>,
    body: Seq<St>,
    again: bool,
    mem: Memory,
) -> bool {
    if again {
        computed(m, deps, outs, body, mem, exec(m, s, mem))
    } else {
        loaded(m, outs, mem, exec(m, s, mem))
    }
}

proof fn lemma_full_test(m: Machine, cx: Cx, test: Ex, mem: Memory)
    ensures
        is_true(m, value_of(m, full_test(cx, test), mem)) <==> is_true(m, value_of(m, test, mem))
            || cx.settings.always_recompute,
{
    reveal_with_fuel(value_of, 2);
}

proof fn lemma_memo_changed_runs(
    m: Machine,
    cx: Cx,
    test: Ex,
    deps: Seq<(u32, Ex)>,
    outs: Seq<(Text, u32)>,
    body: Seq<St>,
    mem: Memory,
)
    requires
        m.cache == cx.settings.cache,
        apart(deps, outs),
        all_steady(m, deps),
    ensures
        memoizes(
            m,
            memo_changed(cx, test, deps, outs, body),
            deps,
            outs,
            body,
            is_true(m, value_of(m, test, mem)) || cx.settings.always_recompute,
            mem,
        ),
{
    let s = memo_changed(cx, test, deps, outs, body);
    let d = deps.len() as int;
    let o = outs.len() as int;
    let puts = dep_stores(m.cache, deps, d);
    let keeps = output_stores(m.cache, outs, o);
    let loads = output_loads(m.cache, outs, o);
    lemma_full_test(m, cx, test, mem);
    let b = run(m, body, body.len() as int, mem);
    lemma_dep_stores_run(m, deps, d, b);
    let p = run(m, puts, d, b);
    lemma_output_stores_run(m, outs, o, p);
    lemma_output_loads_run(m, outs, o, mem);
    assert(outs.take(o) =~= outs);
    lemma_run_add(m, body, puts, d, mem);
    lemma_run_add(m, body + puts, keeps, o, mem);
    let after = run(m, keeps, o, p);
    assert forall|i: int| 0 <= i < deps.len() implies after.slots[key((#[trigger] deps[i]).0)]
        == value_of(m, deps[i].1, b) by {
        assert(forall|k: int| 0 <= k < outs.len() ==> (#[trigger] outs[k]).1 != deps[i].0);
        assert(after.slots[key(deps[i].0)] == p.slots[key(deps[i].0)]);
    }
    if loads.len() == 0 {
        assert(outs =~= Seq::empty());
    }
}

/// A memoized scope with dependencies computes its results exactly where at least one dependency differs
/// from what its slot holds, or where it is asked to compute always. Then the cache holds the results and
/// what the dependencies were. Otherwise the results are those of the cache.
pub proof fn lemma_changed_scope_computes(
    m: Machine,
    cx: Cx,
    deps: Seq<(u32, Ex)>,
    outs: Seq<(Text, u32)>,
    body: Seq<St>,
    mem: Memory,
)
    requires
        deps.len() > 0,
        m.cache == cx.settings.cache,
        apart(deps, outs),
        all_steady(m, deps),
    ensures
        memoizes(
            m,
            memo_changed(
                cx,
                any_changed(cx.settings.cache, deps, deps.len() as int),
                deps,
                outs,
                body,
            ),
            deps,
            outs,
            body,
            some_differs(m, deps, mem) || cx.settings.always_recompute,
            mem,
        ),
{
    let test = any_changed(cx.settings.cache, deps, deps.len() as int);
    lemma_guard_sees_every_change(m, deps, mem);
    lemma_memo_changed_runs(m, cx, test, deps, outs, body, mem);
}

/// A memoized scope without dependencies computes its results exactly where the slot of the first one
/// holds nothing yet, or where it is asked to compute always.
pub proof fn lemma_constant_scope_computes_once(
    m: Machine,
    cx: Cx,
    outs: Seq<(Text, u32)>,
    body: Seq<St>,
    mem: Memory,
)
    requires
        outs.len() > 0,
        m.cache == cx.settings.cache,
        apart(Seq::empty(), outs),
    ensures
        ({
            let sentinel = Ex::Call {
                callee: Box::new(
                    Ex::StaticMember {
                        object: Box::new(Ex::Identifier("Symbol"@)),
                        property: "for"@,
                        optional: false,
                    },
                ),
                type_arg: None,
                args: seq![ItemModel::Value(Ex::Text("react.memo_cache_sentinel"@))],
                optional: false,
            };
            memoizes(
                m,
                memo_once(cx, outs, body).1,
                Seq::empty(),
                outs,
                body,
                mem.slots[key(outs[0].1)] == (m.value)(sentinel, mem.vars)
                    || cx.settings.always_recompute,
                mem,
            )
        }),
{
    reveal_with_fuel(value_of, 3);
    let o = outs.len() as int;
    let keeps = output_stores(m.cache, outs, o);
    let b = run(m, body, body.len() as int, mem);
    lemma_output_stores_run(m, outs, o, b);
    lemma_output_loads_run(m, outs, o, mem);
    assert(outs.take(o) =~= outs);
    lemma_run_add(m, body, keeps, o, mem);
}

/// What a memoized scope has kept, it gives back: run again with the cache as it was left and the
/// dependencies as they were, the results are those from before.
pub proof fn lemma_results_come_back(
    m: Machine,
    cx: Cx,
    deps: Seq<(u32, Ex)>,
    outs: Seq<(Text, u32)>,
    body: Seq<St>,
    first: Memory,
    second: Memory,
    k: int,
)
    requires
        deps.len() > 0,
        m.cache == cx.settings.cache,
        !cx.settings.always_recompute,
        apart(deps, outs),
        all_steady(m, deps),
        0 <= k < outs.len(),
        last_of_name(outs, k),
        ({
            let s = memo_changed(
                cx,
                any_changed(cx.settings.cache, deps, deps.len() as int),
                deps,
                outs,
                body,
            );
            let after = exec(m, s, first);
            let base = if some_differs(m, deps, first) {
                run(m, body, body.len() as int, first)
            } else {
                first
            };
            &&& second.slots == after.slots
            &&& forall|i: int|
                0 <= i < deps.len() ==> value_of(m, (#[trigger] deps[i]).1, second) == value_of(
                    m,
                    deps[i].1,
                    base,
                )
        }),
    ensures
        ({
            let s = memo_changed(
                cx,
                any_changed(cx.settings.cache, deps, deps.len() as int),
                deps,
                outs,
                body,
            );
            exec(m, s, second).vars[outs[k].0] == exec(m, s, first).vars[outs[k].0]
        }),
{
    lemma_changed_scope_computes(m, cx, deps, outs, body, first);
    lemma_changed_scope_computes(m, cx, deps, outs, body, second);
    if some_differs(m, deps, first) {
        assert(!some_differs(m, deps, second));
    } else {
        assert forall|i: int| 0 <= i < deps.len() implies !differs(m, #[trigger] deps[i], second) by {
            assert(!differs(m, deps[i], first));
        }
        assert(!some_differs(m, deps, second));
    }
}

// ---------------------------------------------------------------------------
// Scopes
// ---------------------------------------------------------------------------

proof fn lemma_placed_holds(order: Seq<int>, keys: Seq<Text>, i: int)
    ensures
        placed(order, keys, i).len() == order.len() + 1,
        placed(order, keys, i).contains(i),
        forall|x: int| #[trigger] order.contains(x) ==> placed(order, keys, i).contains(x),
        forall|x: int| #[trigger] placed(order, keys, i).contains(x) ==> x == i || order.contains(x),
    decreases order.len(),
{
    let all = placed(order, keys, i);
    if order.len() > 0 && text_less(keys[i], keys[order.last()]) {
        let front = order.drop_last();
        lemma_placed_holds(front, keys, i);
        let p = placed(front, keys, i);
        assert(all == p.push(order.last()));
        assert(all[p.len() as int] == order.last());
        assert forall|x: int| #[trigger] p.contains(x) implies all.contains(x) by {
            let k = choose|k: int| 0 <= k < p.len() && p[k] == x;
            assert(all[k] == x);
        }
        assert(p.contains(i));
        assert forall|x: int| #[trigger] order.contains(x) implies all.contains(x) by {
            let k = choose|k: int| 0 <= k < order.len() && order[k] == x;
            if k < front.len() {
                assert(front[k] == x);
                assert(front.contains(x));
                assert(p.contains(x));
            }
        }
        assert forall|x: int| #[trigger] all.contains(x) implies x == i || order.contains(x) by {
            let k = choose|k: int| 0 <= k < all.len() && all[k] == x;
            if k < p.len() {
                assert(p[k] == x);
                assert(p.contains(x));
                if x != i {
                    assert(front.contains(x));
                    let q = choose|q: int| 0 <= q < front.len() && front[q] == x;
                    assert(order[q] == x);
                }
            } else {
                assert(order[order.len() - 1] == x);
            }
        }
    } else {
        assert(all[order.len() as int] == i);
        assert forall|x: int| #[trigger] order.contains(x) implies all.contains(x) by {
            let k = choose|k: int| 0 <= k < order.len() && order[k] == x;
            assert(all[k] == x);
        }
        assert forall|x: int| #[trigger] all.contains(x) implies x == i || order.contains(x) by {
            let k = choose|k: int| 0 <= k < all.len() && all[k] == x;
            if k < order.len() {
                assert(order[k] == x);
            }
        }
    }
}

/// An order of keys holds every position.
pub proof fn lemma_order_holds(keys: Seq<Text>, n: int)
    requires
        0 <= n,
    ensures
        order_upto(keys, n).len() == n,
        forall|x: int| #[trigger] order_upto(keys, n).contains(x) <==> 0 <= x < n,
    decreases n,
{
    if n > 0 {
        lemma_order_holds(keys, n - 1);
        lemma_placed_holds(order_upto(keys, n - 1), keys, n - 1);
        assert forall|x: int| #[trigger] order_upto(keys, n).contains(x) <==> 0 <= x < n by {
            if 0 <= x < n - 1 {
                assert(order_upto(keys, n - 1).contains(x));
            }
        }
    }
}

/// The variable and the steps, with whether they are optional, that an expression goes along.
pub open spec fn path_in(e: Ex) -> Option<(Text, Seq<(Text, bool)>)>
    decreases e,
{
    match e {
        Ex::Identifier(s) => Some((s, Seq::empty())),
        Ex::StaticMember { object, property, optional } => match path_in(*object) {
            Some((root, steps)) => if float_text(property) {
                None
            } else {
                Some((root, steps.push((property, optional))))
            },
            None => None,
        },
        Ex::ComputedMember { object, property, optional } => match path_in(*object) {
            Some((root, steps)) => if *property is Number {
                Some((root, steps.push((property->Number_0, optional))))
            } else {
                None
            },
            None => None,
        },
        _ => None,
    }
}

/// The steps of a path.
pub open spec fn steps_of(path: Seq<DependencyPathEntry>) -> Seq<(Text, bool)> {
    path.map_values(|p: DependencyPathEntry| (p.property@, p.optional))
}

proof fn lemma_path_reads_back(name: Text, path: Seq<DependencyPathEntry>, n: int)
    requires
        0 <= n <= path.len(),
    ensures
        path_in(path_expr(Ex::Identifier(name), path, n)) == Some((name, steps_of(path.take(n)))),
    decreases n,
{
    reveal_with_fuel(path_in, 2);
    if n > 0 {
        lemma_path_reads_back(name, path, n - 1);
        assert(steps_of(path.take(n)) =~= steps_of(path.take(n - 1)).push(
            (path[n - 1].property@, path[n - 1].optional),
        ));
    } else {
        assert(steps_of(path.take(0)) =~= Seq::empty());
    }
}

/// The expression for a dependency reads back as its variable and its path, each step optional where the
/// path says so.
pub proof fn lemma_dependency_reads_back(dep: ReactiveScopeDependency)
    requires
        dep.identifier.name is Some,
    ensures
        dependency_expr(dep) is Some,
        path_in(dependency_expr(dep)->0) == Some(
            ((dep.identifier.name->0).text(), steps_of(dep.path@)),
        ),
{
    lemma_path_reads_back((dep.identifier.name->0).text(), dep.path@, dep.path@.len() as int);
    assert(dep.path@.take(dep.path@.len() as int) =~= dep.path@);
}

/// Whether one of the statements declares a variable with a value.
pub open spec fn sets(stmts: Seq<St>, name: Text) -> bool {
    exists|q: int| 0 <= q < stmts.len() && set_by(#[trigger] stmts[q], name)
}

pub open spec fn set_by(s: St, name: Text) -> bool {
    s matches St::Variable(d) && d.declarators.len() == 1 && d.declarators[0].target
        == TargetModel::Identifier(name) && d.declarators[0].init is Some
}

/// Whether an expression stands for a dependency: it is its path, or a variable that `stmts` set.
pub open spec fn stands_for(e: Ex, dep: ReactiveScopeDependency, stmts: Seq<St>) -> bool {
    ||| path_in(e) == Some(((dep.identifier.name->0).text(), steps_of(dep.path@)))
    ||| e is Identifier && sets(stmts, e->Identifier_0)
}

proof fn lemma_chain_names(
    cx: Cx,
    deps: Seq<ReactiveScopeDependency>,
    order: Seq<int>,
    loads: bool,
    n: int,
)
    requires
        0 <= n,
    ensures
        chains(cx, deps, order, loads, n).names.len() == n,
        forall|i: int|
            0 <= i < n ==> ((#[trigger] chains(cx, deps, order, loads, n).names[i]) matches Some(t)
                ==> sets(chains(cx, deps, order, loads, n).stmts, t)),
    decreases n,
{
    if n > 0 {
        lemma_chain_names(cx, deps, order, loads, n - 1);
        let front = chains(cx, deps, order, loads, n - 1);
        let all = chains(cx, deps, order, loads, n);
        assert forall|i: int| 0 <= i < n implies ((#[trigger] all.names[i]) matches Some(t) ==> sets(
            all.stmts,
            t,
        )) by {
            if let Some(t) = all.names[i] {
                if i < n - 1 {
                    assert(front.names[i] == Some(t));
                    assert(sets(front.stmts, t));
                    let q = choose|q: int|
                        0 <= q < front.stmts.len() && set_by(#[trigger] front.stmts[q], t);
                    assert(set_by(all.stmts[q], t));
                } else {
                    assert(set_by(all.stmts[all.stmts.len() - 1], t));
                }
            }
        }
    }
}

proof fn lemma_dep_has_slot(
    cx: Cx,
    deps: Seq<ReactiveScopeDependency>,
    order: Seq<int>,
    names: Seq<Option<Text>>,
    stmts: Seq<St>,
    k: int,
    n: int,
)
    requires
        0 <= k < n,
        deps[order[k]].identifier.name is Some,
        names[k] matches Some(t) ==> sets(stmts, t),
    ensures
        ({
            let slots = dep_slots(cx, deps, order, names, n).1;
            exists|i: int|
                0 <= i < slots.len() && stands_for((#[trigger] slots[i]).1, deps[order[k]], stmts)
        }),
    decreases n,
{
    let all = dep_slots(cx, deps, order, names, n).1;
    let front = dep_slots(cx, deps, order, names, n - 1).1;
    if k < n - 1 {
        lemma_dep_has_slot(cx, deps, order, names, stmts, k, n - 1);
        let i = choose|i: int|
            0 <= i < front.len() && stands_for((#[trigger] front[i]).1, deps[order[k]], stmts);
        assert(all[i] == front[i]);
    } else {
        lemma_dependency_reads_back(deps[order[k]]);
        assert(stands_for(all[all.len() - 1].1, deps[order[k]], stmts));
    }
}

/// Each dependency of a scope that has a name is compared: one of the expressions that the guard compares
/// stands for it.
pub proof fn lemma_every_dependency_is_compared(
    cx: Cx,
    scope: ReactiveScope,
    block: Seq<ReactiveStatement>,
    loads: bool,
    j: int,
)
    requires
        0 <= j < scope.dependencies@.len(),
        scope.dependencies@[j].identifier.name is Some,
    ensures
        ({
            let front = front_of(cx, scope, block, loads);
            exists|i: int|
                0 <= i < front.deps.len() && stands_for(
                    (#[trigger] front.deps[i]).1,
                    scope.dependencies@[j],
                    front.chains,
                )
        }),
{
    let vars = vars_of(scope, block);
    let deps = scope.dependencies@;
    let idents = scope.reassignments@;
    let renamed = shifted(cx, vars, dep_roots(deps, deps.len() as int), vars.len() as int);
    let own = declare_vars(renamed.0, vars, renamed.1, vars.len() as int);
    let other = declare_reassigned(own.0, idents, idents.len() as int);
    let order = dep_order(other.0, deps);
    let n = deps.len() as int;
    let c = chains(other.0, deps, order, loads, n);
    let keys = dep_keys(other.0, deps);
    lemma_order_holds(keys, n);
    assert(keys.len() == n);
    assert(order.contains(j));
    let k = choose|k: int| 0 <= k < order.len() && order[k] == j;
    lemma_chain_names(other.0, deps, order, loads, n);
    lemma_dep_has_slot(c.cx, deps, order, c.names, c.stmts, k, n);
    let slots = dep_slots(c.cx, deps, order, c.names, n).1;
    let i = choose|i: int|
        0 <= i < slots.len() && stands_for((#[trigger] slots[i]).1, deps[order[k]], c.stmts);
    let front = front_of(cx, scope, block, loads);
    assert(front.deps == slots && front.chains == c.stmts);
    assert(stands_for(front.deps[i].1, deps[j], front.chains));
}

proof fn lemma_vars_hold(
    entries: Seq<(IdentifierId, ScopeDeclaration)>,
    catches: Set<u32>,
    j: int,
    n: int,
)
    requires
        0 <= j < n,
        entries[j].1.identifier.name is Some,
        !catches.contains(entries[j].1.identifier.declaration_id.0),
    ensures
        exists|i: int|
            0 <= i < scope_vars(entries, catches, n).len() && (#[trigger] scope_vars(
                entries,
                catches,
                n,
            )[i]).decl == entries[j].1.identifier.declaration_id.0 && scope_vars(
                entries,
                catches,
                n,
            )[i].name == (entries[j].1.identifier.name->0).text(),
    decreases n,
{
    let all = scope_vars(entries, catches, n);
    let front = scope_vars(entries, catches, n - 1);
    if j < n - 1 {
        lemma_vars_hold(entries, catches, j, n - 1);
        let i = choose|i: int|
            0 <= i < front.len() && (#[trigger] front[i]).decl
                == entries[j].1.identifier.declaration_id.0 && front[i].name == (
            entries[j].1.identifier.name->0).text();
        assert(all[i] == front[i]);
    } else {
        assert(all[all.len() - 1].decl == entries[j].1.identifier.declaration_id.0);
    }
}

proof fn lemma_vars_come(
    entries: Seq<(IdentifierId, ScopeDeclaration)>,
    catches: Set<u32>,
    i: int,
    n: int,
)
    requires
        0 <= n <= entries.len(),
        0 <= i < scope_vars(entries, catches, n).len(),
    ensures
        exists|j: int|
            0 <= j < n && (#[trigger] entries[j]).1.identifier.name is Some
                && entries[j].1.identifier.declaration_id.0 == scope_vars(entries, catches, n)[i].decl
                && (entries[j].1.identifier.name->0).text() == scope_vars(entries, catches, n)[i].name,
    decreases n,
{
    if n > 0 {
        let front = scope_vars(entries, catches, n - 1);
        if i < front.len() {
            lemma_vars_come(entries, catches, i, n - 1);
        } else {
            assert(entries[n - 1].1.identifier.name is Some);
        }
    }
}

proof fn lemma_var_slots_hold(cx: Cx, vars: Seq<Var>, names: Map<u32, Text>, k: int, n: int)
    requires
        0 <= k < n,
    ensures
        var_slots(cx, vars, names, n).1.len() == n,
        var_slots(cx, vars, names, n).1[k].0 == final_name(names, vars[k]),
    decreases n,
{
    reveal_with_fuel(var_slots, 2);
    if k < n - 1 {
        lemma_var_slots_hold(cx, vars, names, k, n - 1);
    } else if n > 1 {
        lemma_var_slots_hold(cx, vars, names, 0, n - 1);
    }
}

proof fn lemma_shifted_roots(cx: Cx, vars: Seq<Var>, roots: Set<Text>, k: int, n: int)
    requires
        0 <= n <= vars.len(),
        0 <= k < vars.len(),
        !(exists|i: int|
            0 <= i < vars.len() && (#[trigger] vars[i]).decl == vars[k].decl && temp_name(
                vars[i].name,
            )),
    ensures
        !shifted(cx, vars, roots, n).1.contains_key(vars[k].decl),
    decreases n,
{
    if n > 0 {
        lemma_shifted_roots(cx, vars, roots, k, n - 1);
    }
}

/// The declarations of a scope that have names are among its results, under their names; only one that is
/// named like a temporary may get another. A catch binding is none.
pub proof fn lemma_every_declaration_is_a_result(
    cx: Cx,
    scope: ReactiveScope,
    block: Seq<ReactiveStatement>,
    loads: bool,
    j: int,
)
    requires
        0 <= j < scope.declarations.entries@.len(),
        scope.declarations.entries@[j].1.identifier.name is Some,
        !caught(block, block.len() as int).contains(
            scope.declarations.entries@[j].1.identifier.declaration_id.0,
        ),
        forall|i: int|
            0 <= i < scope.declarations.entries@.len() && (
            #[trigger] scope.declarations.entries@[i]).1.identifier.declaration_id
                == scope.declarations.entries@[j].1.identifier.declaration_id ==> (
            scope.declarations.entries@[i].1.identifier.name matches Some(t) ==> !temp_name(t.text())),
    ensures
        exists|k: int|
            0 <= k < front_of(cx, scope, block, loads).outputs.len() && (#[trigger] front_of(
                cx,
                scope,
                block,
                loads,
            ).outputs[k]).0 == (scope.declarations.entries@[j].1.identifier.name->0).text(),
{
    let entries = scope.declarations.entries@;
    let catches = caught(block, block.len() as int);
    let plain = scope_vars(entries, catches, entries.len() as int);
    lemma_vars_hold(entries, catches, j, entries.len() as int);
    let name = (entries[j].1.identifier.name->0).text();
    let i = choose|i: int|
        0 <= i < plain.len() && (#[trigger] plain[i]).decl
            == entries[j].1.identifier.declaration_id.0 && plain[i].name == name;
    let order = key_order(var_names(plain));
    lemma_order_holds(var_names(plain), plain.len() as int);
    assert(order.contains(i));
    let k = choose|k: int| 0 <= k < order.len() && order[k] == i;
    let vars = vars_of(scope, block);
    assert(vars[k] == plain[i]);
    let deps = scope.dependencies@;
    let idents = scope.reassignments@;
    let n = vars.len() as int;
    let roots = dep_roots(deps, deps.len() as int);
    let renamed = shifted(cx, vars, roots, n);
    assert forall|q: int| 0 <= q < vars.len() && (#[trigger] vars[q]).decl == vars[k].decl implies !temp_name(
        vars[q].name,
    ) by {
        assert(vars[q] == plain[order[q]]);
        assert(order.contains(order[q]));
        lemma_vars_come(entries, catches, order[q], entries.len() as int);
    }
    lemma_shifted_roots(cx, vars, roots, k, n);
    let own = declare_vars(renamed.0, vars, renamed.1, n);
    let other = declare_reassigned(own.0, idents, idents.len() as int);
    let c = chains(other.0, deps, dep_order(other.0, deps), loads, deps.len() as int);
    let d = dep_slots(c.cx, deps, dep_order(other.0, deps), c.names, deps.len() as int);
    lemma_var_slots_hold(d.0, vars, renamed.1, k, n);
    let outs = front_of(cx, scope, block, loads).outputs;
    assert(outs[k] == var_slots(d.0, vars, renamed.1, n).1[k]);
}

/// The slots of a scope's dependencies and results are apart, as long as there are enough.
proof fn lemma_scope_slots_apart(
    cx: Cx,
    scope: ReactiveScope,
    block: Seq<ReactiveStatement>,
    loads: bool,
)
    requires
        ({
            let front = front_of(cx, scope, block, loads);
            cx.next_slot + front.deps.len() + front.outputs.len() <= u32::MAX
        }),
    ensures
        ({
            let front = front_of(cx, scope, block, loads);
            apart(front.deps, front.outputs)
        }),
{
    lemma_scope_slots(cx, scope, block, loads);
    let front = front_of(cx, scope, block, loads);
    let d = dep_numbers(front.deps);
    let o = output_numbers(front.outputs);
    let all = d + o;
    assert forall|i: int| 0 <= i < front.deps.len() implies (#[trigger] front.deps[i]).0 == cx.next_slot
        + i by {
        assert(all[i] == d[i]);
    }
    assert forall|i: int| 0 <= i < front.outputs.len() implies (#[trigger] front.outputs[i]).1
        == cx.next_slot + front.deps.len() + i by {
        assert(all[d.len() + i] == o[i]);
    }
}

/// The statements of a memoized scope: those that declare its variables, then one that computes its
/// results exactly where a dependency differs from what its slot holds, keeps them then, and takes them
/// from the cache otherwise.
pub proof fn lemma_scope_is_memoized(
    m: Machine,
    cx: Cx,
    scope: ReactiveScope,
    block: Seq<ReactiveStatement>,
    mem: Memory,
)
    requires
        !is_inlined(scope, block),
        !cx.settings.change_detection,
        !cx.settings.change_variables,
        m.cache == cx.settings.cache,
        ({
            let front = front_of(cx, scope, block, block_loads_property(block));
            &&& front.deps.len() > 0
            &&& all_steady(m, front.deps)
            &&& cx.next_slot + front.deps.len() + front.outputs.len() <= u32::MAX
        }),
    ensures
        ({
            let front = front_of(cx, scope, block, block_loads_property(block));
            let body = fused_from(block_code(front.cx, block).1, 0);
            let out = scope_code(cx, scope, block).1;
            let at = front.chains.len() + front.declared.len();
            &&& out.len() > at
            &&& out.take(at as int) == front.chains + front.declared
            &&& memoizes(
                m,
                out[at as int],
                front.deps,
                front.outputs,
                body,
                some_differs(m, front.deps, mem) || cx.settings.always_recompute,
                mem,
            )
        }),
{
    let loads = block_loads_property(block);
    let front = front_of(cx, scope, block, loads);
    lemma_scope_slots(cx, scope, block, loads);
    lemma_scope_slots_apart(cx, scope, block, loads);
    lemma_block(front.cx, block);
    let out = block_code(front.cx, block);
    assert(out.0.settings == cx.settings) by {
        reveal(follows);
    }
    let body = fused_from(out.1, 0);
    lemma_changed_scope_computes(m, out.0, front.deps, front.outputs, body, mem);
    let at = front.chains.len() + front.declared.len();
    let code = scope_code(cx, scope, block).1;
    assert(code[at as int] == memo_changed(
        out.0,
        any_changed(cx.settings.cache, front.deps, front.deps.len() as int),
        front.deps,
        front.outputs,
        body,
    ));
    assert(code.take(at as int) =~= front.chains + front.declared);
}

// ---------------------------------------------------------------------------
// Variables for what has changed
// ---------------------------------------------------------------------------

/// Whether the value of an expression does not come from the cache, nor from the variables.
pub open spec fn untouched(m: Machine, e: Ex, names: Set<Text>) -> bool {
    forall|mem: Memory, vars: Map<Text, Value>|
        #![trigger value_of(m, e, Memory { vars, slots: mem.slots })]
        (forall|x: Text| !names.contains(x) ==> #[trigger] vars[x] == mem.vars[x]) ==> value_of(
            m,
            e,
            Memory { vars, slots: mem.slots },
        ) == value_of(m, e, mem)
}

proof fn lemma_change_vars_run(m: Machine, cx: Cx, deps: Seq<(u32, Ex)>, n: int, mem: Memory)
    requires
        0 <= n <= deps.len(),
        m.cache == cx.settings.cache,
        cx.taken.finite(),
        cx.declared_names.finite(),
        forall|i: int|
            0 <= i < deps.len() ==> untouched(
                m,
                (#[trigger] deps[i]).1,
                change_vars(cx, deps, deps.len() as int).names.to_set(),
            ),
    ensures
        ({
            let c = change_vars(cx, deps, n);
            let after = run(m, c.stmts, n, mem);
            &&& c.stmts.len() == n
            &&& c.names.len() == n
            &&& c.cx.taken.finite()
            &&& c.cx.declared_names.finite()
            &&& after.slots == mem.slots
            &&& forall|i: int| 0 <= i < n ==> c.cx.taken.contains(#[trigger] c.names[i])
            &&& forall|i: int|
                0 <= i < n ==> after.vars[#[trigger] c.names[i]] == Value::Bool(
                    differs(m, deps[i], mem),
                )
            &&& forall|x: Text|
                !c.names.to_set().contains(x) ==> #[trigger] after.vars[x] == mem.vars[x]
        }),
    decreases n,
{
    reveal_with_fuel(value_of, 2);
    if n > 0 {
        lemma_change_vars_run(m, cx, deps, n - 1, mem);
        let front = change_vars(cx, deps, n - 1);
        let c = change_vars(cx, deps, n);
        let base = "c_"@ + decimal((n - 1) as nat);
        let name = synthesized(front.cx, base);
        lemma_synthesized_is_new(front.cx, base);
        let before = run(m, front.stmts, n - 1, mem);
        assert(c.stmts =~= front.stmts + seq![c.stmts[n - 1]]);
        lemma_run_front(m, front.stmts, seq![c.stmts[n - 1]], n - 1, mem);
        let after = run(m, c.stmts, n, mem);
        assert(after == exec(m, c.stmts[n - 1], before));
        let all = change_vars(cx, deps, deps.len() as int).names.to_set();
        lemma_change_names_grow(cx, deps, n - 1, deps.len() as int);
        assert(untouched(m, deps[n - 1].1, all));
        assert forall|x: Text| !all.contains(x) implies #[trigger] before.vars[x] == mem.vars[x] by {
            if front.names.to_set().contains(x) {
                let q = choose|q: int| 0 <= q < front.names.len() && front.names[q] == x;
                assert(all.contains(front.names[q]));
            }
        }
        assert(before == Memory { vars: before.vars, slots: mem.slots });
        assert(value_of(m, deps[n - 1].1, Memory { vars: before.vars, slots: mem.slots }) == value_of(
            m,
            deps[n - 1].1,
            mem,
        ));
        assert(after.vars[name] == Value::Bool(differs(m, deps[n - 1], mem)));
        assert forall|i: int| 0 <= i < n implies after.vars[#[trigger] c.names[i]] == Value::Bool(
            differs(m, deps[i], mem),
        ) by {
            if i < n - 1 {
                assert(c.names[i] == front.names[i]);
                assert(front.cx.taken.contains(front.names[i]));
            }
        }
        assert forall|x: Text| !c.names.to_set().contains(x) implies #[trigger] after.vars[x]
            == mem.vars[x] by {
            assert(c.names[n - 1] == name);
            assert(c.names.to_set().contains(name));
            if front.names.to_set().contains(x) {
                let q = choose|q: int| 0 <= q < front.names.len() && front.names[q] == x;
                assert(c.names[q] == x);
                assert(c.names.to_set().contains(x));
            }
        }
        assert forall|i: int| 0 <= i < n implies c.cx.taken.contains(#[trigger] c.names[i]) by {
            if i < n - 1 {
                assert(c.names[i] == front.names[i]);
            }
        }
    }
}

proof fn lemma_change_names_grow(cx: Cx, deps: Seq<(u32, Ex)>, k: int, n: int)
    requires
        0 <= k <= n,
    ensures
        change_vars(cx, deps, k).names.len() == k,
        forall|i: int|
            0 <= i < k ==> change_vars(cx, deps, n).names.to_set().contains(
                #[trigger] change_vars(cx, deps, k).names[i],
            ),
    decreases n,
{
    let a = change_vars(cx, deps, k).names;
    let b = change_vars(cx, deps, n).names;
    if k < n {
        lemma_change_names_grow(cx, deps, k, n - 1);
        let f = change_vars(cx, deps, n - 1).names;
        assert forall|i: int| 0 <= i < k implies b.to_set().contains(#[trigger] a[i]) by {
            assert(f.to_set().contains(a[i]));
            let q = choose|q: int| 0 <= q < f.len() && f[q] == a[i];
            assert(b[q] == a[i]);
        }
    } else {
        if n > 0 {
            lemma_change_names_grow(cx, deps, n - 1, n - 1);
        }
        assert(a.len() == k);
        assert forall|i: int| 0 <= i < k implies b.to_set().contains(#[trigger] a[i]) by {
            assert(b[i] == a[i]);
        }
    }
}

proof fn lemma_any_true(m: Machine, names: Seq<Text>, n: int, mem: Memory)
    requires
        0 < n <= names.len(),
    ensures
        is_true(m, value_of(m, any_true(names, n), mem)) <==> exists|i: int|
            0 <= i < n && is_true(m, mem.vars[#[trigger] names[i]]),
    decreases n,
{
    reveal_with_fuel(value_of, 2);
    if n > 1 {
        lemma_any_true(m, names, n - 1, mem);
        if is_true(m, mem.vars[names[n - 1]]) {
            assert(0 <= n - 1 < n);
        }
    } else {
        assert(is_true(m, mem.vars[names[0]]) <==> is_true(m, value_of(m, any_true(names, n), mem)));
    }
}

/// With variables for what has changed, the guard is true exactly where at least one of the dependencies
/// differed from its slot when they were set.
pub proof fn lemma_change_variables_see_every_change(
    m: Machine,
    cx: Cx,
    deps: Seq<(u32, Ex)>,
    mem: Memory,
)
    requires
        deps.len() > 0,
        m.cache == cx.settings.cache,
        cx.taken.finite(),
        cx.declared_names.finite(),
        forall|i: int|
            0 <= i < deps.len() ==> untouched(
                m,
                (#[trigger] deps[i]).1,
                change_vars(cx, deps, deps.len() as int).names.to_set(),
            ),
    ensures
        ({
            let c = change_vars(cx, deps, deps.len() as int);
            is_true(
                m,
                value_of(
                    m,
                    any_true(c.names, deps.len() as int),
                    run(m, c.stmts, c.stmts.len() as int, mem),
                ),
            ) <==> some_differs(m, deps, mem)
        }),
{
    let n = deps.len() as int;
    let c = change_vars(cx, deps, n);
    lemma_change_vars_run(m, cx, deps, n, mem);
    let after = run(m, c.stmts, n, mem);
    lemma_any_true(m, c.names, n, after);
    if some_differs(m, deps, mem) {
        let i = choose|i: int| 0 <= i < deps.len() && differs(m, #[trigger] deps[i], mem);
        assert(is_true(m, after.vars[c.names[i]]));
    }
    if exists|i: int| 0 <= i < n && is_true(m, after.vars[#[trigger] c.names[i]]) {
        let i = choose|i: int| 0 <= i < n && is_true(m, after.vars[#[trigger] c.names[i]]);
        assert(differs(m, deps[i], mem));
    }
}

} // verus!
