//! What holds of every walk over a function.

use vstd::prelude::*;

use crate::codegen_ast::assemble::{
    cache_assign, change_vars, dep_stores, memo_changed, output_loads, output_stores,
};
use crate::codegen_ast::js::{BindingModel, Ex, St, Text};
use crate::codegen_ast::memo::{
    chains, declare_reassigned, declare_vars, dep_order, dep_roots, dep_slots, final_name, fresh_temp,
    front_of,    reassigned_slots,
    shifted, var_slots, vars_of, Front, Var,
};
use crate::codegen_ast::make::assign_expr;
use crate::codegen_ast::nested::block_loads_property;
use crate::codegen_ast::pieces::{args_with, call_with, catch_marked, fused_call, lemma_prepared};
use crate::codegen_ast::scan::{
    arg_position, call_args, collection_from, is_pair, strictly_trivial, trivial_or_calls,
};
use crate::codegen_ast::state::{
    after_place, after_resolving, after_writing, cache_access, open_block, own_name, place_expr, start,
    synthesized, with_slot, with_temp, written_name, Cx,
};
use crate::codegen_ast::stores::{
    after_operand, all_declared, args_code, array_code, callee_code, declare_code, destructure_code,
    elements_code, is_key_name, key_code, members_code, object_code, pattern_code, store_code,
};
use crate::codegen_ast::ternary::fused_from;
use crate::codegen_ast::values::{
    attributes_code, children_code, element_code, places_code, simple_value, tag_code,
};
use crate::codegen_ast::walk::{
    after_item, assign_store, block_code, block_from, cases_code, computed_code, else_code,
    for_update, inlined_code, instruction_code, is_inlined, is_statement, item_code, jsx_noted,
    last_update, lowered_code, memo_code, option_code, optional_place, optional_result_code,
    outer_store_code, pair_at, reactive_code, result_code, scope_code, scoped_code, seq_code,
    statement_code, stmt_code, stored, terminal_code, update_block, update_value_code, update_with,
    value_code, value_update,
};
use crate::codegen_ast::{
    cache_name, entered, function_code, is_refreshed, prologue, walk_settings, CodegenOptions,
};
use crate::collections::{lemma_first_free, lemma_free_name};
use crate::extract_scope_destructuring::pattern_operands;
use crate::hir::{
    Argument, ArrayElement, FunctionExpressionType, Identifier, InstructionValue, JsxAttribute,
    JsxTag, LValue, LValuePattern, LoweredFunction, ObjectPropertyOrSpread, Pattern, Place,
    ReactiveFunction, ReactiveInstruction, ReactiveScope, ReactiveScopeDependency,
    ReactiveStatement, ReactiveSwitchCase, ReactiveTerminal,
};

verus! {

/// Whether a walk can come from one state to another: settings stay, what is declared stays declared,
/// slots are only taken, each block that is opened is closed, the first error stays, and guards and
/// checks come only where they are switched on.
#[verifier::opaque]
pub open spec fn follows(a: Cx, b: Cx) -> bool {
    &&& b.settings == a.settings
    &&& a.next_slot <= b.next_slot
    &&& a.blocks.len() == b.blocks.len()
    &&& a.declared.subset_of(b.declared)
    &&& a.declared_decls.subset_of(b.declared_decls)
    &&& a.taken.subset_of(b.taken)
    &&& a.guards ==> b.guards
    &&& b.guards ==> a.guards || (a.settings.hook_guards && !a.settings.no_features)
    &&& a.structural ==> b.structural
    &&& b.structural ==> a.structural || a.settings.change_detection
    &&& a.error is Some ==> b.error == a.error
}

/// A walk goes on from where another one ended.
pub proof fn lemma_follows(a: Cx, b: Cx, c: Cx)
    requires
        follows(a, b),
        follows(b, c),
    ensures
        follows(a, c),
{
    reveal(follows);
}

// ---------------------------------------------------------------------------
// Values
// ---------------------------------------------------------------------------

proof fn lemma_args(cx: Cx, args: Seq<Argument>, n: int)
    ensures
        follows(cx, args_code(cx, args, n).0),
    decreases n,
{
    reveal(follows);
    if n > 0 {
        lemma_args(cx, args, n - 1);
    }
}

proof fn lemma_args_with(cx: Cx, args: Seq<Argument>, at: int, e: Ex, n: int)
    ensures
        follows(cx, args_with(cx, args, at, e, n).0),
    decreases n,
{
    reveal(follows);
    if n > 0 {
        lemma_args_with(cx, args, at, e, n - 1);
    }
}

proof fn lemma_elements(cx: Cx, elements: Seq<ArrayElement>, n: int)
    ensures
        follows(cx, elements_code(cx, elements, n).0),
    decreases n,
{
    reveal(follows);
    if n > 0 {
        lemma_elements(cx, elements, n - 1);
    }
}

proof fn lemma_members(cx: Cx, properties: Seq<ObjectPropertyOrSpread>, n: int)
    ensures
        follows(cx, members_code(cx, properties, n).0),
    decreases n,
{
    reveal(follows);
    if n > 0 {
        lemma_members(cx, properties, n - 1);
    }
}

proof fn lemma_places(cx: Cx, places: Seq<Place>, n: int)
    ensures
        follows(cx, places_code(cx, places, n).0),
    decreases n,
{
    reveal(follows);
    if n > 0 {
        lemma_places(cx, places, n - 1);
    }
}

proof fn lemma_attributes(cx: Cx, props: Seq<JsxAttribute>, n: int)
    ensures
        follows(cx, attributes_code(cx, props, n).0),
    decreases n,
{
    reveal(follows);
    if n > 0 {
        lemma_attributes(cx, props, n - 1);
    }
}

proof fn lemma_children(cx: Cx, children: Seq<Place>, n: int)
    ensures
        follows(cx, children_code(cx, children, n).0),
    decreases n,
{
    reveal(follows);
    if n > 0 {
        lemma_children(cx, children, n - 1);
    }
}

proof fn lemma_element(cx: Cx, tag: JsxTag, props: Seq<JsxAttribute>, children: Option<Vec<Place>>)
    ensures
        follows(cx, element_code(cx, tag, props, children).0),
{
    reveal(follows);
    let name = tag_code(cx, tag);
    assert(follows(cx, name.0));
    lemma_attributes(name.0, props, props.len() as int);
    if let Some(c) = children {
        let attributes = attributes_code(name.0, props, props.len() as int);
        lemma_children(attributes.0, c@, c@.len() as int);
    }
}

proof fn lemma_callee(cx: Cx, receiver: Place, property: Place, optional: bool)
    ensures
        follows(cx, callee_code(cx, receiver, property, optional).0),
{
    reveal(follows);
}

proof fn lemma_place(cx: Cx, p: Place)
    ensures
        follows(cx, after_place(cx, p)),
{
    reveal(follows);
}

proof fn lemma_two_places(cx: Cx, p: Place, q: Place)
    ensures
        follows(cx, after_place(after_place(cx, p), q)),
{
    reveal(follows);
}

proof fn lemma_simple_value(cx: Cx, value: InstructionValue)
    ensures
        follows(cx, simple_value(cx, value).0),
{
    reveal(follows);
    reveal(simple_value);
    match value {
        InstructionValue::LoadLocal { place } => {
            lemma_place(cx, place);
            assert(follows(cx, simple_value(cx, value).0));
        },
        InstructionValue::LoadContext { place } => {
            lemma_place(cx, place);
            assert(follows(cx, simple_value(cx, value).0));
        },
        InstructionValue::StoreLocal { value: v, .. } => {
            lemma_place(cx, v);
            assert(follows(cx, simple_value(cx, value).0));
        },
        InstructionValue::StoreContext { value: v, .. } => {
            lemma_place(cx, v);
            assert(follows(cx, simple_value(cx, value).0));
        },
        InstructionValue::GetIterator { collection } => {
            lemma_place(cx, collection);
            assert(follows(cx, simple_value(cx, value).0));
        },
        InstructionValue::IteratorNext { collection, .. } => {
            lemma_place(cx, collection);
            assert(follows(cx, simple_value(cx, value).0));
        },
        InstructionValue::NextPropertyOf { value: v } => {
            lemma_place(cx, v);
            assert(follows(cx, simple_value(cx, value).0));
        },
        InstructionValue::UnaryExpression { value: v, .. } => {
            lemma_place(cx, v);
            assert(follows(cx, simple_value(cx, value).0));
        },
        InstructionValue::TypeCastExpression { value: v, .. } => {
            lemma_place(cx, v);
            assert(follows(cx, simple_value(cx, value).0));
        },
        InstructionValue::TaggedTemplateExpression { tag, .. } => {
            lemma_place(cx, tag);
            assert(follows(cx, simple_value(cx, value).0));
        },
        InstructionValue::PropertyLoad { object, .. } => {
            lemma_place(cx, object);
            assert(follows(cx, simple_value(cx, value).0));
        },
        InstructionValue::PropertyDelete { object, .. } => {
            lemma_place(cx, object);
            assert(follows(cx, simple_value(cx, value).0));
        },
        InstructionValue::StoreGlobal { value: v, .. } => {
            lemma_place(cx, v);
            assert(follows(cx, simple_value(cx, value).0));
        },
        InstructionValue::PrefixUpdate { lvalue, .. } => {
            lemma_place(cx, lvalue);
            assert(follows(cx, simple_value(cx, value).0));
        },
        InstructionValue::PostfixUpdate { lvalue, .. } => {
            lemma_place(cx, lvalue);
            assert(follows(cx, simple_value(cx, value).0));
        },
        InstructionValue::Await { value: v } => {
            lemma_place(cx, v);
            assert(follows(cx, simple_value(cx, value).0));
        },
        InstructionValue::BinaryExpression { left, right, .. } => {
            lemma_two_places(cx, left, right);
            assert(follows(cx, simple_value(cx, value).0));
        },
        InstructionValue::LogicalExpression { left, right, .. } => {
            lemma_two_places(cx, left, right);
            assert(follows(cx, simple_value(cx, value).0));
        },
        InstructionValue::ComputedLoad { object, property, .. } => {
            lemma_two_places(cx, object, property);
            assert(follows(cx, simple_value(cx, value).0));
        },
        InstructionValue::PropertyStore { object, value: v, .. } => {
            lemma_two_places(cx, object, v);
            assert(follows(cx, simple_value(cx, value).0));
        },
        InstructionValue::ComputedDelete { object, property } => {
            lemma_two_places(cx, object, property);
            assert(follows(cx, simple_value(cx, value).0));
        },
        InstructionValue::Ternary { test, consequent, alternate } => {
            lemma_two_places(cx, test, consequent);
            lemma_place(after_place(after_place(cx, test), consequent), alternate);
            assert(follows(cx, simple_value(cx, value).0));
        },
        InstructionValue::ComputedStore { object, property, value: v } => {
            lemma_two_places(cx, object, property);
            lemma_place(after_place(after_place(cx, object), property), v);
            assert(follows(cx, simple_value(cx, value).0));
        },
        InstructionValue::CallExpression { callee, args, .. } => {
            lemma_place(cx, callee);
            lemma_args(after_place(cx, callee), args@, args@.len() as int);
            assert(follows(cx, simple_value(cx, value).0));
        },
        InstructionValue::NewExpression { callee, args } => {
            lemma_place(cx, callee);
            lemma_args(after_place(cx, callee), args@, args@.len() as int);
            assert(follows(cx, simple_value(cx, value).0));
        },
        InstructionValue::MethodCall { receiver, property, args, receiver_optional, .. } => {
            lemma_callee(cx, receiver, property, receiver_optional);
            let f = callee_code(cx, receiver, property, receiver_optional);
            lemma_args(f.0, args@, args@.len() as int);
            assert(follows(cx, simple_value(cx, value).0));
        },
        InstructionValue::ArrayExpression { elements } => {
            lemma_elements(cx, elements@, elements@.len() as int);
            assert(follows(cx, simple_value(cx, value).0));
        },
        InstructionValue::ObjectExpression { properties } => {
            lemma_members(cx, properties@, properties@.len() as int);
            assert(follows(cx, simple_value(cx, value).0));
        },
        InstructionValue::TemplateLiteral { subexprs, .. } => {
            lemma_places(cx, subexprs@, subexprs@.len() as int);
            assert(follows(cx, simple_value(cx, value).0));
        },
        InstructionValue::JsxExpression { tag, props, children } => {
            lemma_element(cx, tag, props@, children);
            assert(follows(cx, simple_value(cx, value).0));
        },
        InstructionValue::JsxFragment { children } => {
            lemma_children(cx, children@, children@.len() as int);
            assert(follows(cx, simple_value(cx, value).0));
        },
        _ => {
            assert(simple_value(cx, value).0 == cx);
        },
    }
}

// ---------------------------------------------------------------------------
// Stores
// ---------------------------------------------------------------------------

proof fn lemma_declare(cx: Cx, lvalue: LValue)
    ensures
        follows(cx, declare_code(cx, lvalue).0),
{
    reveal(declare_code);
    reveal(follows);
}

proof fn lemma_store(cx: Cx, lvalue: LValue, value: Place)
    ensures
        follows(cx, store_code(cx, lvalue, value).0),
{
    reveal(store_code);
    reveal(follows);
    let cx1 = after_place(cx, value);
    let cx2 = after_resolving(cx1, lvalue.place.identifier);
    assert(follows(cx, cx1));
    assert(follows(cx1, cx2));
    let r = store_code(cx, lvalue, value).0;
    if r != with_temp(cx1, lvalue.place.identifier.declaration_id.0, place_expr(cx, value)) {
        assert(follows(cx2, r));
    }
}

proof fn lemma_array(cx: Cx, items: Seq<ArrayElement>, declares: bool, i: int, elements: Seq<Option<Text>>)
    ensures
        follows(cx, array_code(cx, items, declares, i, elements).0),
    decreases items.len() - i,
{
    reveal(follows);
    if 0 <= i < items.len() {
        match items[i] {
            ArrayElement::Place(p) => {
                let next = after_operand(cx, p, declares);
                lemma_array(
                    next,
                    items,
                    declares,
                    i + 1,
                    elements.push(Some(written_name(p.identifier))),
                );
            },
            ArrayElement::Spread(p) => {},
            ArrayElement::Hole => {
                lemma_array(cx, items, declares, i + 1, elements.push(None));
            },
        }
    }
}

proof fn lemma_object(
    cx: Cx,
    properties: Seq<ObjectPropertyOrSpread>,
    declares: bool,
    i: int,
    bindings: Seq<BindingModel>,
)
    ensures
        follows(cx, object_code(cx, properties, declares, i, bindings).0),
    decreases properties.len() - i,
{
    reveal(follows);
    if 0 <= i < properties.len() {
        match properties[i] {
            ObjectPropertyOrSpread::Property(p) => {
                let name = written_name(p.place.identifier);
                let key = key_code(
                    after_operand(cx, p.place, declares),
                    p.key,
                );
                assert(follows(cx, key.0));
                lemma_object(
                    key.0,
                    properties,
                    declares,
                    i + 1,
                    bindings.push(
                        BindingModel {
                            key: key.1,
                            name,
                            shorthand: is_key_name(p.key, name),
                        },
                    ),
                );
            },
            ObjectPropertyOrSpread::Spread(p) => {},
        }
    }
}

proof fn lemma_pattern(cx: Cx, pattern: Pattern, declares: bool)
    ensures
        follows(cx, pattern_code(cx, pattern, declares).0),
{
    reveal(follows);
    match pattern {
        Pattern::Array(a) => lemma_array(cx, a.items@, declares, 0, Seq::empty()),
        Pattern::Object(o) => lemma_object(cx, o.properties@, declares, 0, Seq::empty()),
    }
}

proof fn lemma_all_declared(cx: Cx, ops: Seq<Place>, i: int)
    ensures
        follows(cx, all_declared(cx, ops, i).0),
    decreases ops.len() - i,
{
    reveal(follows);
    if 0 <= i < ops.len() {
        lemma_all_declared(after_writing(cx, ops[i].identifier), ops, i + 1);
    }
}

proof fn lemma_destructure(cx: Cx, lvalue: LValuePattern, value: Place)
    ensures
        follows(cx, destructure_code(cx, lvalue, value).0),
{
    reveal(destructure_code);
    reveal(follows);
    let cx1 = after_place(cx, value);
    let ops = pattern_operands(lvalue.pattern);
    let known = all_declared(cx1, ops, 0).0;
    lemma_all_declared(cx1, ops, 0);
    lemma_pattern(known, lvalue.pattern, false);
    lemma_pattern(known, lvalue.pattern, true);
    lemma_pattern(cx1, lvalue.pattern, false);
}

proof fn lemma_call_with(cx: Cx, value: InstructionValue, at: int, e: Ex)
    ensures
        follows(cx, call_with(cx, value, at, e).0),
{
    reveal(follows);
    match value {
        InstructionValue::MethodCall { receiver, property, args, receiver_optional, .. } => {
            let f = callee_code(cx, receiver, property, receiver_optional);
            lemma_callee(cx, receiver, property, receiver_optional);
            lemma_args_with(f.0, args@, at, e, args@.len() as int);
        },
        InstructionValue::CallExpression { callee, args, .. } => {
            lemma_args_with(after_place(cx, callee), args@, at, e, args@.len() as int);
        },
        _ => {},
    }
}

proof fn lemma_fused(cx: Cx, first: ReactiveInstruction, second: ReactiveInstruction)
    ensures
        follows(cx, fused_call(cx, first, second).0),
{
    reveal(follows);
    if let InstructionValue::Destructure { lvalue, value, .. } = first.value {
        let cx1 = after_place(cx, value);
        let target = pattern_code(cx1, lvalue.pattern, false);
        lemma_pattern(cx1, lvalue.pattern, false);
        if let Some(t) = target.1 {
            let at = arg_position(
                call_args(second.value)->0,
                value.identifier.declaration_id.0,
                0,
            )->0;
            let e = Ex::Parenthesized(
                Box::new(
                    Ex::Assign(t, Box::new(place_expr(cx, value))),
                ),
            );
            lemma_call_with(target.0, second.value, at, e);
        }
    }
}

proof fn lemma_catches(cx: Cx, block: Seq<ReactiveStatement>, n: int)
    ensures
        follows(cx, catch_marked(cx, block, n)),
    decreases n,
{
    reveal(follows);
    if n > 0 {
        lemma_catches(cx, block, n - 1);
    }
}

// ---------------------------------------------------------------------------
// Scopes
// ---------------------------------------------------------------------------

proof fn lemma_shifted(cx: Cx, vars: Seq<Var>, roots: Set<Text>, n: int)
    ensures
        follows(cx, shifted(cx, vars, roots, n).0),
        shifted(cx, vars, roots, n).0.next_slot == cx.next_slot,
    decreases n,
{
    reveal(follows);
    if n > 0 {
        lemma_shifted(cx, vars, roots, n - 1);
    }
}

proof fn lemma_declare_vars(cx: Cx, vars: Seq<Var>, names: Map<u32, Text>, n: int)
    ensures
        follows(cx, declare_vars(cx, vars, names, n).0),
        declare_vars(cx, vars, names, n).0.next_slot == cx.next_slot,
    decreases n,
{
    reveal(follows);
    if n > 0 {
        lemma_declare_vars(cx, vars, names, n - 1);
    }
}

proof fn lemma_declare_reassigned(cx: Cx, idents: Seq<Identifier>, n: int)
    ensures
        follows(cx, declare_reassigned(cx, idents, n).0),
        declare_reassigned(cx, idents, n).0.next_slot == cx.next_slot,
    decreases n,
{
    reveal(follows);
    if n > 0 {
        lemma_declare_reassigned(cx, idents, n - 1);
    }
}

proof fn lemma_chains(cx: Cx, deps: Seq<ReactiveScopeDependency>, order: Seq<int>, loads: bool, n: int)
    ensures
        follows(cx, chains(cx, deps, order, loads, n).cx),
        chains(cx, deps, order, loads, n).cx.next_slot == cx.next_slot,
    decreases n,
{
    reveal(follows);
    if n > 0 {
        lemma_chains(cx, deps, order, loads, n - 1);
    }
}

/// Whether the numbers of `slots` are those from `from` on, one behind the other, while there are
/// numbers left.
pub open spec fn in_turn(slots: Seq<u32>, from: u32) -> bool {
    forall|i: int|
        0 <= i < slots.len() ==> #[trigger] slots[i] == if from + i <= u32::MAX {
            from + i
        } else {
            u32::MAX as int
        }
}

/// The number behind the slots `from`, `from + 1`, ... of which there are `n`.
pub open spec fn slot_behind(from: u32, n: nat) -> u32 {
    if from + n <= u32::MAX {
        (from + n) as u32
    } else {
        u32::MAX
    }
}

pub open spec fn dep_numbers(deps: Seq<(u32, Ex)>) -> Seq<u32> {
    deps.map_values(|d: (u32, Ex)| d.0)
}

pub open spec fn output_numbers(outs: Seq<(Text, u32)>) -> Seq<u32> {
    outs.map_values(|o: (Text, u32)| o.1)
}

proof fn lemma_dep_slots(
    cx: Cx,
    deps: Seq<ReactiveScopeDependency>,
    order: Seq<int>,
    names: Seq<Option<Text>>,
    n: int,
)
    ensures
        ({
            let r = dep_slots(cx, deps, order, names, n);
            &&& follows(cx, r.0)
            &&& in_turn(dep_numbers(r.1), cx.next_slot)
            &&& r.0.next_slot == slot_behind(cx.next_slot, r.1.len())
        }),
    decreases n,
{
    reveal(follows);
    if n > 0 {
        lemma_dep_slots(cx, deps, order, names, n - 1);
        let front = dep_slots(cx, deps, order, names, n - 1);
        assert forall|e: Ex| dep_numbers(#[trigger] front.1.push((front.0.next_slot, e)))
            =~= dep_numbers(front.1).push(front.0.next_slot) by {}
    }
}

proof fn lemma_var_slots(cx: Cx, vars: Seq<Var>, names: Map<u32, Text>, n: int)
    ensures
        ({
            let r = var_slots(cx, vars, names, n);
            &&& follows(cx, r.0)
            &&& in_turn(output_numbers(r.1), cx.next_slot)
            &&& r.0.next_slot == slot_behind(cx.next_slot, r.1.len())
        }),
    decreases n,
{
    reveal(follows);
    if n > 0 {
        lemma_var_slots(cx, vars, names, n - 1);
        let front = var_slots(cx, vars, names, n - 1);
        let last = (final_name(names, vars[n - 1]), front.0.next_slot);
        assert(output_numbers(front.1.push(last)) =~= output_numbers(front.1).push(last.1));
    }
}

proof fn lemma_reassigned_slots(cx: Cx, idents: Seq<Identifier>, vars: Seq<Var>, n: int)
    ensures
        ({
            let r = reassigned_slots(cx, idents, vars, n);
            &&& follows(cx, r.0)
            &&& in_turn(output_numbers(r.1), cx.next_slot)
            &&& r.0.next_slot == slot_behind(cx.next_slot, r.1.len())
        }),
    decreases n,
{
    reveal(follows);
    if n > 0 {
        lemma_reassigned_slots(cx, idents, vars, n - 1);
        let front = reassigned_slots(cx, idents, vars, n - 1);
        let last = (own_name(idents[n - 1]), front.0.next_slot);
        assert(output_numbers(front.1.push(last)) =~= output_numbers(front.1).push(last.1));
    }
}

/// Each dependency and each result of a scope has a slot of its own, and they are taken in turn: first
/// those of the dependencies, then those of the results.
pub proof fn lemma_scope_slots(cx: Cx, scope: ReactiveScope, block: Seq<ReactiveStatement>, loads: bool)
    ensures
        ({
            let front = front_of(cx, scope, block, loads);
            &&& follows(cx, front.cx)
            &&& in_turn(
                dep_numbers(front.deps) + output_numbers(front.outputs),
                cx.next_slot,
            )
            &&& front.cx.next_slot == slot_behind(
                cx.next_slot,
                front.deps.len() + front.outputs.len(),
            )
        }),
{
    reveal(follows);
    let vars = vars_of(scope, block);
    let n = vars.len() as int;
    let deps = scope.dependencies@;
    let idents = scope.reassignments@;
    let roots = dep_roots(deps, deps.len() as int);
    let renamed = shifted(cx, vars, roots, n);
    lemma_shifted(cx, vars, roots, n);
    let own = declare_vars(renamed.0, vars, renamed.1, n);
    lemma_declare_vars(renamed.0, vars, renamed.1, n);
    let other = declare_reassigned(own.0, idents, idents.len() as int);
    lemma_declare_reassigned(own.0, idents, idents.len() as int);
    let order = dep_order(other.0, deps);
    let c = chains(other.0, deps, order, loads, deps.len() as int);
    lemma_chains(other.0, deps, order, loads, deps.len() as int);
    lemma_follows(cx, renamed.0, own.0);
    lemma_follows(cx, own.0, other.0);
    lemma_follows(cx, other.0, c.cx);
    let d = dep_slots(c.cx, deps, order, c.names, deps.len() as int);
    lemma_dep_slots(c.cx, deps, order, c.names, deps.len() as int);
    let outs = var_slots(d.0, vars, renamed.1, n);
    lemma_var_slots(d.0, vars, renamed.1, n);
    let more = reassigned_slots(outs.0, idents, vars, idents.len() as int);
    lemma_reassigned_slots(outs.0, idents, vars, idents.len() as int);
    lemma_follows(cx, c.cx, d.0);
    lemma_follows(cx, d.0, outs.0);
    lemma_follows(cx, outs.0, more.0);
    assert(output_numbers(outs.1 + more.1) =~= output_numbers(outs.1) + output_numbers(more.1));
}

proof fn lemma_change_vars(cx: Cx, deps: Seq<(u32, Ex)>, n: int)
    ensures
        follows(cx, change_vars(cx, deps, n).cx),
    decreases n,
{
    reveal(follows);
    if n > 0 {
        lemma_change_vars(cx, deps, n - 1);
    }
}

// ---------------------------------------------------------------------------
// The walk
// ---------------------------------------------------------------------------

proof fn lemma_assign_store(cx: Cx, lvalue: LValue, value: Place)
    ensures
        follows(cx, assign_store(cx, lvalue, value).0),
{
    reveal(follows);
}

proof fn lemma_result(cx: Cx, lvalue: Option<Place>, e: Option<Ex>)
    ensures
        follows(cx, optional_result_code(cx, lvalue, e).0),
{
    reveal(follows);
    reveal(result_code);
    if let Some(lv) = lvalue {
        let after = after_resolving(cx, lv.identifier);
        assert(follows(cx, after));
    }
}

proof fn lemma_outer_store(cx: Cx, lvalue: LValue, value: Place, outer: Place)
    ensures
        follows(cx, outer_store_code(cx, lvalue, value, outer).0),
{
    reveal(outer_store_code);
    reveal(follows);
    lemma_assign_store(cx, lvalue, value);
    let s = assign_store(cx, lvalue, value).0;
    assert(follows(s, after_resolving(s, outer.identifier)));
}

proof fn lemma_same(cx: Cx)
    ensures
        follows(cx, cx),
{
    reveal(follows);
}

proof fn lemma_optional_place(cx: Cx, place: Option<Place>)
    ensures
        follows(cx, optional_place(cx, place).0),
{
    reveal(follows);
}

proof fn lemma_jsx_noted(cx: Cx, instr: ReactiveInstruction)
    ensures
        follows(cx, jsx_noted(cx, instr)),
{
    reveal(follows);
}

proof fn lemma_after_item(cx: Cx, instr: ReactiveInstruction, e: Option<Ex>)
    ensures
        follows(cx, after_item(cx, instr, e)),
{
    reveal(follows);
}

proof fn lemma_temp(cx: Cx, id: u32, e: Ex)
    ensures
        follows(cx, with_temp(cx, id, e)),
        follows(cx, Cx { inlined: cx.inlined.insert(id), ..with_temp(cx, id, e) }),
{
    reveal(follows);
}

proof fn lemma_reactive(cx: Cx, lowered: LoweredFunction, name: Option<Text>, arrow: bool)
    ensures
        follows(cx, reactive_code(cx, lowered, name, arrow).0),
{
    reveal(follows);
}

proof fn lemma_lowered(cx: Cx, lowered: LoweredFunction, name: Option<Text>, arrow: bool, direct: bool)
    ensures
        follows(cx, lowered_code(cx, lowered, name, arrow, direct).0),
{
    lemma_same(cx);
    lemma_reactive(cx, lowered, name, arrow);
}

proof fn lemma_update_with(cx: Cx, e: Ex, value: InstructionValue)
    ensures
        follows(cx, update_with(cx, e, value).0),
{
    reveal(follows);
}

proof fn lemma_value(cx: Cx, value: InstructionValue)
    ensures
        follows(cx, value_code(cx, value).0),
    decreases value, 0nat, 0nat,
{
    match value {
        InstructionValue::FunctionExpression { name, lowered_func, expr_type } => {
            lemma_lowered(
                cx,
                lowered_func,
                match name {
                    Some(s) => Some(s@),
                    None => None,
                },
                expr_type == FunctionExpressionType::ArrowFunctionExpression,
                !cx.settings.name_functions,
            );
        },
        InstructionValue::ObjectMethod { lowered_func } => {
            lemma_lowered(cx, lowered_func, None, false, true);
        },
        InstructionValue::ReactiveSequenceExpression { instructions, value } => {
            let front = seq_code(cx, instructions@, *value, instructions@.len() as int);
            lemma_seq(cx, instructions@, *value, instructions@.len() as int);
            lemma_value(front.0, *value);
            lemma_follows(cx, front.0, value_code(front.0, *value).0);
        },
        InstructionValue::ReactiveOptionalExpression { value, .. } => {
            lemma_value(cx, *value);
        },
        InstructionValue::ReactiveLogicalExpression { left, right, .. } => {
            let l = value_code(cx, *left).0;
            lemma_value(cx, *left);
            lemma_value(l, *right);
            lemma_follows(cx, l, value_code(l, *right).0);
        },
        InstructionValue::ReactiveConditionalExpression { test, consequent, alternate } => {
            let t = value_code(cx, *test).0;
            let c = value_code(t, *consequent).0;
            lemma_value(cx, *test);
            lemma_value(t, *consequent);
            lemma_value(c, *alternate);
            lemma_follows(cx, t, c);
            lemma_follows(cx, c, value_code(c, *alternate).0);
        },
        _ => {
            lemma_simple_value(cx, value);
        },
    }
}

proof fn lemma_item(cx: Cx, instr: ReactiveInstruction)
    ensures
        follows(cx, item_code(cx, instr).0),
    decreases instr, 0nat, 0nat,
{
    match stored(instr.value) {
        Some((lvalue, value)) => {
            lemma_assign_store(cx, lvalue, value);
            lemma_place(cx, value);
        },
        None => {
            lemma_value(cx, instr.value);
        },
    }
}

proof fn lemma_seq(cx: Cx, instrs: Seq<ReactiveInstruction>, value: InstructionValue, n: int)
    ensures
        follows(cx, seq_code(cx, instrs, value, n).0),
    decreases instrs, 0nat, n,
{
    lemma_same(cx);
    if 0 < n <= instrs.len() {
        let front = seq_code(cx, instrs, value, n - 1).0;
        let item = item_code(front, instrs[n - 1]);
        lemma_seq(cx, instrs, value, n - 1);
        lemma_item(front, instrs[n - 1]);
        lemma_follows(cx, front, item.0);
        lemma_after_item(item.0, instrs[n - 1], item.1);
        lemma_follows(cx, item.0, after_item(item.0, instrs[n - 1], item.1));
    }
}

proof fn lemma_computed(cx: Cx, instr: ReactiveInstruction)
    ensures
        follows(cx, computed_code(cx, instr).0),
    decreases instr, 0nat, 0nat,
{
    let out = value_code(cx, instr.value);
    lemma_value(cx, instr.value);
    lemma_result(out.0, instr.lvalue, out.1);
    lemma_follows(cx, out.0, optional_result_code(out.0, instr.lvalue, out.1).0);
}

proof fn lemma_statement(cx: Cx, instr: ReactiveInstruction)
    ensures
        follows(cx, statement_code(cx, instr).0),
{
    reveal(statement_code);
    match instr.value {
        InstructionValue::DeclareLocal { lvalue } => {
            lemma_declare(cx, lvalue);
        },
        InstructionValue::DeclareContext { lvalue } => {
            lemma_declare(cx, lvalue);
        },
        InstructionValue::StoreLocal { lvalue, value, .. } => {
            let s = assign_store(cx, lvalue, value);
            lemma_assign_store(cx, lvalue, value);
            lemma_store(cx, lvalue, value);
            if instr.lvalue is Some {
                let decl = (instr.lvalue->0).identifier.declaration_id.0;
                lemma_temp(s.0, decl, s.1);
                lemma_follows(cx, s.0, with_temp(s.0, decl, s.1));
            }
        },
        InstructionValue::StoreContext { lvalue, value } => {
            lemma_store(cx, lvalue, value);
            if instr.lvalue is Some {
                lemma_outer_store(cx, lvalue, value, instr.lvalue->0);
            }
        },
        InstructionValue::Destructure { lvalue, value, .. } => {
            lemma_destructure(cx, lvalue, value);
        },
        InstructionValue::Debugger => lemma_same(cx),
        InstructionValue::StartMemoize => lemma_same(cx),
        InstructionValue::FinishMemoize { .. } => lemma_same(cx),
        _ => lemma_same(cx),
    }
}

#[verifier::spinoff_prover]
#[verifier::rlimit(60)]
proof fn lemma_instruction(cx: Cx, instr: ReactiveInstruction)
    ensures
        follows(cx, instruction_code(cx, instr).0),
    decreases instr, 1nat, 0nat,
{
    if is_statement(instr.value) {
        lemma_statement(cx, instr);
    } else {
        let noted = jsx_noted(cx, instr);
        lemma_jsx_noted(cx, instr);
        lemma_computed(noted, instr);
        lemma_follows(cx, noted, computed_code(noted, instr).0);
    }
}

proof fn lemma_inlined(cx: Cx, s: ReactiveStatement)
    ensures
        follows(cx, inlined_code(cx, s)),
    decreases s, 0nat, 0nat,
{
    lemma_same(cx);
    if let ReactiveStatement::Instruction(instr) = s {
        lemma_value(cx, instr.value);
        let out = value_code(cx, instr.value);
        if let Some(lv) = instr.lvalue {
            let decl = lv.identifier.declaration_id.0;
            if let Some(e) = out.1 {
                lemma_temp(out.0, decl, e);
                lemma_follows(
                    cx,
                    out.0,
                    Cx { inlined: out.0.inlined.insert(decl), ..with_temp(out.0, decl, e) },
                );
            }
        }
    }
}

proof fn lemma_stmt(cx: Cx, s: ReactiveStatement)
    ensures
        follows(cx, stmt_code(cx, s).0),
    decreases s, 0nat, 0nat,
{
    match s {
        ReactiveStatement::Instruction(instr) => lemma_instruction(cx, *instr),
        ReactiveStatement::Terminal(t) => lemma_terminal(cx, t.terminal),
        ReactiveStatement::Scope(b) => lemma_scope(cx, b.scope, b.instructions@),
        ReactiveStatement::PrunedScope(b) => lemma_block(cx, b.instructions@),
    }
}

proof fn lemma_pair(cx: Cx, block: Seq<ReactiveStatement>, i: int)
    ensures
        follows(cx, pair_at(cx, block, i).0),
{
    lemma_same(cx);
    if is_pair(block, i) {
        if let ReactiveStatement::Instruction(a) = block[i] {
            if let ReactiveStatement::Instruction(b) = block[i + 1] {
                lemma_fused(cx, *a, *b);
            }
        }
    }
}

proof fn lemma_block_from(cx: Cx, block: Seq<ReactiveStatement>, i: int)
    ensures
        follows(cx, block_from(cx, block, i).0),
    decreases block, 0nat, block.len() - i,
{
    lemma_same(cx);
    if 0 <= i < block.len() {
        let skipped = inlined_code(cx, block[i]);
        lemma_inlined(cx, block[i]);
        lemma_block_from(skipped, block, i + 1);
        lemma_follows(cx, skipped, block_from(skipped, block, i + 1).0);
        let pair = pair_at(cx, block, i).0;
        lemma_pair(cx, block, i);
        lemma_same(pair);
        if i + 2 <= block.len() {
            lemma_block_from(pair, block, i + 2);
        }
        lemma_follows(cx, pair, block_from(pair, block, i + 2).0);
        let here = stmt_code(pair, block[i]).0;
        lemma_stmt(pair, block[i]);
        lemma_block_from(here, block, i + 1);
        lemma_follows(cx, pair, here);
        lemma_follows(cx, here, block_from(here, block, i + 1).0);
    }
}

/// The statements of a block keep what every walk keeps.
pub proof fn lemma_block(cx: Cx, block: Seq<ReactiveStatement>)
    ensures
        follows(cx, block_code(cx, block).0),
    decreases block, 1nat, 0nat,
{
    let marked = catch_marked(cx, block, block.len() as int);
    lemma_catches(cx, block, block.len() as int);
    lemma_block_from(marked, block, 0);
    lemma_follows(cx, marked, block_from(marked, block, 0).0);
}

proof fn lemma_scoped(cx: Cx, block: Seq<ReactiveStatement>)
    ensures
        follows(cx, scoped_code(cx, block).0),
    decreases block, 2nat, 0nat,
{
    reveal(follows);
    lemma_block(open_block(cx), block);
    assert(block_code(open_block(cx), block).0.blocks.len() == cx.blocks.len() + 1);
}

proof fn lemma_else(cx: Cx, block: Option<Vec<ReactiveStatement>>)
    ensures
        follows(cx, else_code(cx, block).0),
    decreases block, 0nat, 0nat,
{
    lemma_same(cx);
    if let Some(b) = block {
        lemma_scoped(cx, b@);
    }
}

proof fn lemma_option(cx: Cx, block: Option<Vec<ReactiveStatement>>)
    ensures
        follows(cx, option_code(cx, block).0),
    decreases block, 0nat, 0nat,
{
    lemma_same(cx);
    if let Some(b) = block {
        lemma_block(cx, b@);
    }
}

proof fn lemma_cases(cx: Cx, cases: Seq<ReactiveSwitchCase>, n: int)
    ensures
        follows(cx, cases_code(cx, cases, n).0),
    decreases cases, 0nat, n,
{
    lemma_same(cx);
    if 0 < n <= cases.len() {
        let front = cases_code(cx, cases, n - 1).0;
        let test = optional_place(front, cases[n - 1].test).0;
        lemma_cases(cx, cases, n - 1);
        lemma_optional_place(front, cases[n - 1].test);
        lemma_follows(cx, front, test);
        lemma_option(test, cases[n - 1].block);
        lemma_follows(cx, test, option_code(test, cases[n - 1].block).0);
    }
}

proof fn lemma_update_value(cx: Cx, value: InstructionValue)
    ensures
        follows(cx, update_value_code(cx, value).0),
    decreases value, 1nat, 0nat,
{
    lemma_same(cx);
    lemma_value(cx, value);
    if let Some((lvalue, v)) = stored(value) {
        lemma_assign_store(cx, lvalue, v);
    }
}

proof fn lemma_update_block(cx: Cx, update: Option<Vec<ReactiveStatement>>)
    ensures
        follows(cx, update_block(cx, update).0),
    decreases update, 0nat, 0nat,
{
    lemma_same(cx);
    if let Some(b) = update {
        lemma_block(cx, b@);
    }
}

proof fn lemma_value_update(cx: Cx, stmts: Option<Seq<St>>, value: InstructionValue)
    ensures
        follows(cx, value_update(cx, stmts, value).0),
    decreases value, 2nat, 0nat,
{
    if let Some(s) = stmts {
        if let Some(e) = last_update(s, s.len() as int) {
            lemma_update_with(cx, e, value);
        }
    }
    lemma_value(cx, value);
    lemma_update_value(cx, value);
}

proof fn lemma_for_update(cx: Cx, stmts: Option<Seq<St>>, value: Option<Box<InstructionValue>>)
    ensures
        follows(cx, for_update(cx, stmts, value).0),
    decreases value, 0nat, 0nat,
{
    lemma_same(cx);
    if let Some(v) = value {
        lemma_value_update(cx, stmts, *v);
    }
}

proof fn lemma_terminal(cx: Cx, t: ReactiveTerminal)
    ensures
        follows(cx, terminal_code(cx, t).0),
    decreases t, 0nat, 0nat,
{
    match t {
        ReactiveTerminal::If { test, consequent, alternate } => {
            let cx1 = after_place(cx, test);
            let c = scoped_code(cx1, consequent@).0;
            lemma_place(cx, test);
            lemma_scoped(cx1, consequent@);
            lemma_else(c, alternate);
            lemma_follows(cx, cx1, c);
            lemma_follows(cx, c, else_code(c, alternate).0);
        },
        ReactiveTerminal::Switch { test, cases } => {
            let cx1 = after_place(cx, test);
            lemma_place(cx, test);
            lemma_cases(cx1, cases@, cases@.len() as int);
            lemma_follows(cx, cx1, cases_code(cx1, cases@, cases@.len() as int).0);
        },
        ReactiveTerminal::While { test, loop_block } => {
            let cx1 = after_place(cx, test);
            lemma_place(cx, test);
            lemma_scoped(cx1, loop_block@);
            lemma_follows(cx, cx1, scoped_code(cx1, loop_block@).0);
        },
        ReactiveTerminal::DoWhile { loop_block, test } => {
            let cx1 = after_place(cx, test);
            lemma_place(cx, test);
            lemma_scoped(cx1, loop_block@);
            lemma_follows(cx, cx1, scoped_code(cx1, loop_block@).0);
        },
        ReactiveTerminal::For { init, test, update, update_value, loop_block } => {
            let first = block_code(cx, init@).0;
            let after = after_place(first, test);
            let block = update_block(after, update);
            let step = for_update(block.0, block.1, update_value).0;
            lemma_block(cx, init@);
            lemma_place(first, test);
            lemma_update_block(after, update);
            lemma_for_update(block.0, block.1, update_value);
            lemma_scoped(step, loop_block@);
            lemma_follows(cx, first, after);
            lemma_follows(cx, after, block.0);
            lemma_follows(cx, block.0, step);
            lemma_follows(cx, step, scoped_code(step, loop_block@).0);
        },
        ReactiveTerminal::ForOf { init, loop_block } => {
            lemma_for_each(cx, init@);
            let first = block_code(
                optional_place(cx, collection_from(init@, 0)).0,
                init@,
            ).0;
            lemma_block(first, loop_block@);
            lemma_follows(cx, first, block_code(first, loop_block@).0);
        },
        ReactiveTerminal::ForIn { init, loop_block } => {
            lemma_for_each(cx, init@);
            let first = block_code(
                optional_place(cx, collection_from(init@, 0)).0,
                init@,
            ).0;
            lemma_block(first, loop_block@);
            lemma_follows(cx, first, block_code(first, loop_block@).0);
        },
        ReactiveTerminal::Label { block } => lemma_block(cx, block@),
        ReactiveTerminal::Try { block, handler, .. } => {
            let tried = block_code(cx, block@).0;
            lemma_block(cx, block@);
            lemma_block(tried, handler@);
            lemma_follows(cx, tried, block_code(tried, handler@).0);
        },
        ReactiveTerminal::Return { value } => lemma_place(cx, value),
        ReactiveTerminal::Throw { value } => lemma_place(cx, value),
        ReactiveTerminal::Break { .. } => lemma_same(cx),
        ReactiveTerminal::Continue { .. } => lemma_same(cx),
    }
}

proof fn lemma_for_each(cx: Cx, init: Seq<ReactiveStatement>)
    ensures
        follows(
            cx,
            block_code(
                optional_place(cx, collection_from(init, 0)).0,
                init,
            ).0,
        ),
    decreases init, 2nat, 0nat,
{
    let right = optional_place(cx, collection_from(init, 0)).0;
    lemma_optional_place(cx, collection_from(init, 0));
    lemma_block(right, init);
    lemma_follows(cx, right, block_code(right, init).0);
}

proof fn lemma_memo(cx: Cx, front: Front, body: Seq<St>)
    ensures
        follows(cx, memo_code(cx, front, body).0),
{
    reveal(follows);
    lemma_change_vars(cx, front.deps, front.deps.len() as int);
}

/// A scope keeps what every walk keeps.
pub proof fn lemma_scope(cx: Cx, scope: ReactiveScope, block: Seq<ReactiveStatement>)
    ensures
        follows(cx, scope_code(cx, scope, block).0),
        !is_inlined(scope, block) ==> follows(
            front_of(cx, scope, block, block_loads_property(block)).cx,
            scope_code(cx, scope, block).0,
        ),
    decreases block, 2nat, 0nat,
{
    lemma_block(cx, block);
    let loads = block_loads_property(block);
    let front = front_of(cx, scope, block, loads);
    lemma_scope_slots(cx, scope, block, loads);
    let out = block_code(front.cx, block);
    lemma_block(front.cx, block);
    lemma_follows(cx, front.cx, out.0);
    assert(out.0.settings == cx.settings) by {
        reveal(follows);
    }
    let noted = Cx { structural: true, ..out.0 };
    lemma_block(noted, block);
    let body = fused_from(out.1, 0);
    lemma_memo(out.0, front, body);
    lemma_follows(cx, out.0, memo_code(out.0, front, body).0);
    lemma_follows(front.cx, out.0, memo_code(out.0, front, body).0);
    if cx.settings.change_detection {
        assert(follows(out.0, noted)) by {
            reveal(follows);
        }
        lemma_follows(cx, out.0, noted);
        lemma_follows(cx, noted, block_code(noted, block).0);
        lemma_follows(front.cx, out.0, noted);
        lemma_follows(front.cx, noted, block_code(noted, block).0);
    }
}

/// The slots that a memoized scope uses for its dependencies and results.
pub open spec fn slots_used(cx: Cx, scope: ReactiveScope, block: Seq<ReactiveStatement>) -> Seq<u32> {
    let front = front_of(cx, scope, block, block_loads_property(block));
    dep_numbers(front.deps) + output_numbers(front.outputs)
}

/// No slot serves two scopes: those of a scope that comes later lie behind those of an earlier one,
/// while there are numbers left.
pub proof fn lemma_scopes_share_no_slot(
    cx: Cx,
    scope: ReactiveScope,
    block: Seq<ReactiveStatement>,
    later: Cx,
    other: ReactiveScope,
    other_block: Seq<ReactiveStatement>,
    i: int,
    j: int,
)
    requires
        !is_inlined(scope, block),
        follows(scope_code(cx, scope, block).0, later),
        later.next_slot < u32::MAX,
        0 <= i < slots_used(cx, scope, block).len(),
        0 <= j < slots_used(later, other, other_block).len(),
    ensures
        slots_used(cx, scope, block)[i] < slots_used(later, other, other_block)[j],
{
    reveal(follows);
    lemma_scope(cx, scope, block);
    lemma_scope_slots(cx, scope, block, block_loads_property(block));
    lemma_scope_slots(later, other, other_block, block_loads_property(other_block));
}

// ---------------------------------------------------------------------------
// Memoized blocks
// ---------------------------------------------------------------------------

proof fn lemma_output_stores(cache: Text, outs: Seq<(Text, u32)>, n: int)
    requires
        0 <= n <= outs.len(),
    ensures
        output_stores(cache, outs, n) == Seq::new(
            n as nat,
            |k: int|
                St::Expression(cache_assign(cache, outs[k].1, Ex::Identifier(outs[k].0))),
        ),
        output_loads(cache, outs, n) == Seq::new(
            n as nat,
            |k: int| St::Expression(assign_expr(outs[k].0, cache_access(cache, outs[k].1))),
        ),
    decreases n,
{
    if n > 0 {
        lemma_output_stores(cache, outs, n - 1);
    }
    assert(output_stores(cache, outs, n) =~= Seq::new(
        n as nat,
        |k: int| St::Expression(cache_assign(cache, outs[k].1, Ex::Identifier(outs[k].0))),
    ));
    assert(output_loads(cache, outs, n) =~= Seq::new(
        n as nat,
        |k: int| St::Expression(assign_expr(outs[k].0, cache_access(cache, outs[k].1))),
    ));
}

/// A memoized block with dependencies computes and stores, or loads: each result is stored in a slot at
/// the end of the one branch, and loaded from the same slot in the other.
pub proof fn lemma_stored_is_loaded(
    cx: Cx,
    test: Ex,
    deps: Seq<(u32, Ex)>,
    outs: Seq<(Text, u32)>,
    body: Seq<St>,
    i: int,
)
    requires
        0 <= i < outs.len(),
    ensures
        ({
            let cache = cx.settings.cache;
            let memo = memo_changed(cx, test, deps, outs, body);
            &&& memo is If
            &&& memo->If_consequent.len() == body.len() + deps.len() + outs.len()
            &&& memo->If_consequent[body.len() + deps.len() + i] == St::Expression(
                cache_assign(cache, outs[i].1, Ex::Identifier(outs[i].0)),
            )
            &&& memo->alternate is Some
            &&& memo->alternate->0[i] == St::Expression(
                assign_expr(outs[i].0, cache_access(cache, outs[i].1)),
            )
        }),
{
    let cache = cx.settings.cache;
    lemma_output_stores(cache, outs, outs.len() as int);
    lemma_dep_store_count(cache, deps, deps.len() as int);
}

proof fn lemma_dep_store_count(cache: Text, deps: Seq<(u32, Ex)>, n: int)
    requires
        0 <= n,
    ensures
        dep_stores(cache, deps, n).len() == n,
    decreases n,
{
    if n > 0 {
        lemma_dep_store_count(cache, deps, n - 1);
    }
}

// ---------------------------------------------------------------------------
// Functions
// ---------------------------------------------------------------------------

/// The state behind the body of a function comes from the state behind its parameters.
pub proof fn lemma_function(func: ReactiveFunction, options: CodegenOptions)
    ensures
        follows(entered(func, options).0, function_code(func, options).0),
        entered(func, options).0.settings == walk_settings(func, options),
        entered(func, options).0.next_slot == 0,
        !entered(func, options).0.guards,
        !entered(func, options).0.structural,
        is_refreshed(options) ==> function_code(func, options).0.next_slot > 0,
{
    reveal(follows);
    lemma_prepared(
        start(
            walk_settings(func, options),
            options.unique_identifiers@,
            options.param_name_overrides@,
        ),
        func,
    );
    let cx = entered(func, options).0;
    lemma_block(cx, func.body@);
    lemma_block(with_slot(cx), func.body@);
}

/// Hook guards come only where they are asked for and memoization is not switched off.
pub proof fn lemma_guards_are_asked_for(func: ReactiveFunction, options: CodegenOptions)
    ensures
        function_code(func, options).0.guards ==> options.enable_emit_hook_guards
            && !options.disable_memoization_features,
{
    reveal(follows);
    lemma_function(func, options);
}

/// Results are compared with those from before only where this is asked for.
pub proof fn lemma_checks_are_asked_for(func: ReactiveFunction, options: CodegenOptions)
    ensures
        function_code(func, options).0.structural ==> options.enable_change_detection_for_debugging,
{
    reveal(follows);
    lemma_function(func, options);
}

/// Where memoization is switched off, no cache is declared; else one is declared where, and only where,
/// slots are used.
pub proof fn lemma_cache_iff_slots(func: ReactiveFunction, options: CodegenOptions)
    ensures
        ({
            let cx = function_code(func, options).0;
            prologue(cx, options) is Some <==> cx.next_slot > 0
                && !options.disable_memoization_features
        }),
{
}

/// A fast refresh takes the first slot, and the cache is declared for it even where nothing else is
/// memoized.
pub proof fn lemma_refresh_takes_first_slot(func: ReactiveFunction, options: CodegenOptions)
    requires
        is_refreshed(options),
        !options.disable_memoization_features,
    ensures
        ({
            let p = prologue(function_code(func, options).0, options);
            &&& p is Some
            &&& (p->0).fast_refresh is Some
            &&& ((p->0).fast_refresh->0).cache_index == 0
            &&& (p->0).size > 0
        }),
{
    lemma_function(func, options);
}

/// The name of the cache, where it is chosen, is not used by the source.
pub proof fn lemma_cache_name_is_free(options: CodegenOptions)
    requires
        options.cache_binding_name is None,
        options.unique_identifiers@.finite(),
    ensures
        !options.unique_identifiers@.contains(cache_name(options)),
{
    lemma_free_name("$"@, options.unique_identifiers@);
}

// ---------------------------------------------------------------------------
// Names
// ---------------------------------------------------------------------------

/// A name that is made up is neither used by the source nor declared.
pub proof fn lemma_synthesized_is_new(cx: Cx, base: Text)
    requires
        cx.taken.finite(),
        cx.declared_names.finite(),
    ensures
        !cx.taken.contains(synthesized(cx, base)),
        !cx.declared_names.contains(synthesized(cx, base)),
{
    lemma_free_name(base, cx.taken.union(cx.declared_names));
}

/// So is the name of a fresh temporary.
pub proof fn lemma_fresh_temp_is_new(cx: Cx, from: nat)
    requires
        cx.taken.finite(),
        cx.declared_names.finite(),
    ensures
        !cx.taken.contains(fresh_temp(cx, from)),
        !cx.declared_names.contains(fresh_temp(cx, from)),
{
    lemma_first_free("t"@, from, cx.declared_names.union(cx.taken));
}

/// A body that costs nothing to compute is also one that at most calls something.
pub proof fn lemma_trivial_at_most_calls(block: Seq<ReactiveStatement>)
    requires
        strictly_trivial(block),
    ensures
        trivial_or_calls(block),
{
}

/// In a nested function labels are left out.
pub proof fn lemma_nested_functions_have_no_labels(cx: Cx, s: ReactiveStatement)
    requires
        cx.settings.quiet,
        s is Terminal,
    ensures
        stmt_code(cx, s) == terminal_code(cx, (s->Terminal_0).terminal),
{
}

/// A nested function takes no slots of the function around it, and declares nothing there.
pub proof fn lemma_nested_functions_stay_apart(
    cx: Cx,
    lowered: LoweredFunction,
    name: Option<Text>,
    arrow: bool,
    direct: bool,
)
    ensures
        ({
            let r = lowered_code(cx, lowered, name, arrow, direct).0;
            r == (Cx { unnamed: r.unnamed, ..cx })
        }),
{
    let r = reactive_code(cx, lowered, name, arrow).0;
    assert(r == (Cx { unnamed: r.unnamed, ..cx }));
}

} // verus!
