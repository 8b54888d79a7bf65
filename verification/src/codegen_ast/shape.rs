//! What the trees of values and of control flow are made of.

use vstd::prelude::*;

use crate::codegen_ast::js::{Ex, ItemModel, St, TargetModel, Text};
use crate::codegen_ast::meaning::{exec, is_true, run, value_of, Machine, Memory};
use crate::codegen_ast::state::{after_place, inlined_expr, place_expr, Cx};
use crate::codegen_ast::stores::{args_code, elements_code};
use crate::codegen_ast::values::{places_code, simple_value};
use crate::codegen_ast::walk::{scoped_code, terminal_code};
use crate::hir::{
    Argument, ArrayElement, BinaryOperator, InstructionValue, LogicalOperator, Place,
    PrimitiveValue, PropertyLiteral, ReactiveStatement, ReactiveTerminal,
    ReactiveTerminalTargetKind, TemplateQuasi, UnaryOperator,
};

verus! {

// ---------------------------------------------------------------------------
// Places
// ---------------------------------------------------------------------------

/// What is known after the first `n` places are written.
pub open spec fn written(cx: Cx, places: Seq<Place>, n: int) -> Cx
    decreases n,
{
    if n <= 0 {
        cx
    } else {
        after_place(written(cx, places, n - 1), places[n - 1])
    }
}

/// Whether none of the places is of the same declaration as `p`.
pub open spec fn elsewhere(places: Seq<Place>, p: Place) -> bool {
    forall|i: int|
        0 <= i < places.len() ==> (#[trigger] places[i]).identifier.declaration_id
            != p.identifier.declaration_id
}

/// Whether an expression stands for a place, where the places `before` are written before it: what is
/// written in its place, else the name of its variable. The name is that of the first place of a variable
/// that is written.
pub open spec fn stands(cx: Cx, before: Seq<Place>, p: Place, e: Ex) -> bool {
    &&& inlined_expr(cx, p) matches Some(x) ==> e == x
    &&& inlined_expr(cx, p) is None ==> e is Identifier
    &&& elsewhere(before, p) && inlined_expr(cx, p) is None ==> e == Ex::Identifier(
        if cx.decl_names.contains_key(p.identifier.declaration_id.0) {
            cx.decl_names[p.identifier.declaration_id.0]
        } else {
            match p.identifier.name {
                Some(n) => n.text(),
                None => "t"@ + crate::text::decimal(p.identifier.declaration_id.0 as nat),
            }
        },
    )
}

proof fn lemma_written(cx: Cx, places: Seq<Place>, n: int, p: Place)
    requires
        0 <= n <= places.len(),
    ensures
        inlined_expr(written(cx, places, n), p) == inlined_expr(cx, p),
        elsewhere(places.take(n), p) ==> {
            let d = p.identifier.declaration_id.0;
            let after = written(cx, places, n);
            &&& after.decl_names.contains_key(d) == cx.decl_names.contains_key(d)
            &&& cx.decl_names.contains_key(d) ==> after.decl_names[d] == cx.decl_names[d]
        },
    decreases n,
{
    if n > 0 {
        lemma_written(cx, places, n - 1, p);
        if elsewhere(places.take(n), p) {
            assert(places.take(n)[n - 1] == places[n - 1]);
            assert forall|i: int| 0 <= i < n - 1 implies (
            #[trigger] places.take(n - 1)[i]).identifier.declaration_id
                != p.identifier.declaration_id by {
                assert(places.take(n)[i] == places[i]);
            }
        }
    }
}

/// The expression for a place that is written behind others stands for it.
pub proof fn lemma_place_stands(cx: Cx, before: Seq<Place>, p: Place)
    ensures
        stands(cx, before, p, place_expr(written(cx, before, before.len() as int), p)),
{
    lemma_written(cx, before, before.len() as int, p);
    assert(before.take(before.len() as int) =~= before);
}

// ---------------------------------------------------------------------------
// Operators
// ---------------------------------------------------------------------------

/// The tree of a binary expression has its operator, its left operand on the left and its right operand on
/// the right.
pub proof fn lemma_binary_tree(cx: Cx, operator: BinaryOperator, left: Place, right: Place)
    ensures
        simple_value(cx, InstructionValue::BinaryExpression { operator, left, right }).1 matches Some(
            Ex::Binary(o, l, r),
        ) && o == operator && stands(cx, Seq::empty(), left, *l) && stands(cx, seq![left], right, *r),
{
    reveal(simple_value);
    lemma_place_stands(cx, Seq::empty(), left);
    lemma_place_stands(cx, seq![left], right);
    reveal_with_fuel(written, 2);
}

/// So has that of a logical expression.
pub proof fn lemma_logical_tree(cx: Cx, operator: LogicalOperator, left: Place, right: Place)
    ensures
        simple_value(cx, InstructionValue::LogicalExpression { operator, left, right }).1 matches Some(
            Ex::Logical(o, l, r),
        ) && o == operator && stands(cx, Seq::empty(), left, *l) && stands(cx, seq![left], right, *r),
{
    reveal(simple_value);
    lemma_place_stands(cx, Seq::empty(), left);
    lemma_place_stands(cx, seq![left], right);
    reveal_with_fuel(written, 2);
}

/// The tree of a unary expression has its operator and its operand.
pub proof fn lemma_unary_tree(cx: Cx, operator: UnaryOperator, value: Place)
    ensures
        simple_value(cx, InstructionValue::UnaryExpression { operator, value }).1 matches Some(
            Ex::Unary(o, v),
        ) && o == operator && stands(cx, Seq::empty(), value, *v),
        simple_value(cx, InstructionValue::Await { value }).1 matches Some(Ex::Await(v)) && stands(
            cx,
            Seq::empty(),
            value,
            *v,
        ),
{
    reveal(simple_value);
    lemma_place_stands(cx, Seq::empty(), value);
}

/// The tree of a conditional has its test, then what it gives where the test holds, then what it gives
/// where it does not.
pub proof fn lemma_conditional_tree(cx: Cx, test: Place, consequent: Place, alternate: Place)
    ensures
        simple_value(cx, InstructionValue::Ternary { test, consequent, alternate }).1 matches Some(
            Ex::Conditional(t, c, a),
        ) && stands(cx, Seq::empty(), test, *t) && stands(cx, seq![test], consequent, *c) && stands(
            cx,
            seq![test, consequent],
            alternate,
            *a,
        ),
{
    reveal(simple_value);
    lemma_place_stands(cx, Seq::empty(), test);
    lemma_place_stands(cx, seq![test], consequent);
    lemma_place_stands(cx, seq![test, consequent], alternate);
    reveal_with_fuel(written, 3);
}

/// The tree of a primitive value is a literal of that value.
pub proof fn lemma_primitive_tree(cx: Cx, value: PrimitiveValue)
    ensures
        simple_value(cx, InstructionValue::Primitive { value }).1 == Some(
            match value {
                PrimitiveValue::Null => Ex::Null,
                PrimitiveValue::Undefined => Ex::Identifier("undefined"@),
                PrimitiveValue::Boolean(b) => Ex::Boolean(b),
                PrimitiveValue::Number(n) => Ex::Number(n.display@),
                PrimitiveValue::String(s) => Ex::Text(s@),
            },
        ),
{
    reveal(simple_value);
}

// ---------------------------------------------------------------------------
// Members
// ---------------------------------------------------------------------------

/// Whether an expression is the property of an object, by name or by number.
pub open spec fn is_member(e: Ex, object: Ex, property: PropertyLiteral, optional: bool) -> bool {
    match e {
        Ex::StaticMember { object: o, property: p, optional: q } => {
            &&& *o == object
            &&& property matches PropertyLiteral::String(s) && p == s@
            &&& q == optional
        },
        Ex::ComputedMember { object: o, property: p, optional: q } => {
            &&& *o == object
            &&& match property {
                PropertyLiteral::String(s) => *p == Ex::Text(s@),
                PropertyLiteral::Number(n) => *p == Ex::Number(n.display@),
            }
            &&& q == optional
        },
        _ => false,
    }
}

/// A property is loaded from, stored in and deleted from its object, under its name.
pub proof fn lemma_property_trees(
    cx: Cx,
    object: Place,
    property: PropertyLiteral,
    value: Place,
    optional: bool,
)
    ensures
        ({
            let o = place_expr(cx, object);
            &&& stands(cx, Seq::empty(), object, o)
            &&& simple_value(cx, InstructionValue::PropertyLoad { object, property, optional }).1
                matches Some(e) && is_member(e, o, property, optional)
            &&& simple_value(cx, InstructionValue::PropertyStore { object, property, value }).1
                matches Some(Ex::Assign(TargetModel::Member(t), v)) && is_member(
                *t,
                o,
                property,
                false,
            ) && stands(cx, seq![object], value, *v)
            &&& simple_value(cx, InstructionValue::PropertyDelete { object, property }).1 matches Some(
                Ex::Delete(t),
            ) && is_member(*t, o, property, false)
        }),
{
    reveal(simple_value);
    lemma_place_stands(cx, Seq::empty(), object);
    lemma_place_stands(cx, seq![object], value);
    reveal_with_fuel(written, 2);
}

/// An element is loaded from, stored in and deleted from its object, under its key.
pub proof fn lemma_computed_trees(cx: Cx, object: Place, property: Place, value: Place, optional: bool)
    ensures
        ({
            let o = place_expr(cx, object);
            &&& stands(cx, Seq::empty(), object, o)
            &&& simple_value(cx, InstructionValue::ComputedLoad { object, property, optional }).1
                matches Some(Ex::ComputedMember { object: x, property: p, optional: q }) && *x == o
                && stands(cx, seq![object], property, *p) && q == optional
            &&& simple_value(cx, InstructionValue::ComputedStore { object, property, value }).1
                matches Some(Ex::Assign(TargetModel::Member(t), v)) && (*t
                matches Ex::ComputedMember { object: x, property: p, .. } && *x == o && stands(
                cx,
                seq![object],
                property,
                *p,
            )) && stands(cx, seq![object, property], value, *v)
            &&& simple_value(cx, InstructionValue::ComputedDelete { object, property }).1 matches Some(
                Ex::Delete(t),
            ) && (*t matches Ex::ComputedMember { object: x, property: p, .. } && *x == o && stands(
                cx,
                seq![object],
                property,
                *p,
            ))
        }),
{
    reveal(simple_value);
    lemma_place_stands(cx, Seq::empty(), object);
    lemma_place_stands(cx, seq![object], property);
    lemma_place_stands(cx, seq![object, property], value);
    reveal_with_fuel(written, 3);
}

// ---------------------------------------------------------------------------
// Lists
// ---------------------------------------------------------------------------

/// The places of arguments.
pub open spec fn places_of(args: Seq<Argument>) -> Seq<Place> {
    args.map_values(
        |a: Argument|
            match a {
                Argument::Place(p) => p,
                Argument::Spread(p) => p,
            },
    )
}

/// Whether the items are the arguments, one for one: values where they are values, spread where they are
/// spread.
pub open spec fn are_arguments(cx: Cx, before: Seq<Place>, args: Seq<Argument>, items: Seq<ItemModel>) -> bool {
    &&& items.len() == args.len()
    &&& forall|i: int|
        0 <= i < args.len() ==> match #[trigger] args[i] {
            Argument::Place(p) => items[i] matches ItemModel::Value(e) && stands(
                cx,
                before + places_of(args).take(i),
                p,
                e,
            ),
            Argument::Spread(p) => items[i] matches ItemModel::Spread(e) && stands(
                cx,
                before + places_of(args).take(i),
                p,
                e,
            ),
        }
}

proof fn lemma_written_more(cx: Cx, a: Seq<Place>, b: Seq<Place>, n: int)
    requires
        0 <= n <= b.len(),
    ensures
        written(cx, a + b, a.len() + n) == written(written(cx, a, a.len() as int), b, n),
    decreases n,
{
    if n > 0 {
        lemma_written_more(cx, a, b, n - 1);
        assert((a + b)[a.len() + n - 1] == b[n - 1]);
    } else {
        lemma_written_front(cx, a, b, a.len() as int);
    }
}

proof fn lemma_written_front(cx: Cx, a: Seq<Place>, b: Seq<Place>, n: int)
    requires
        n <= a.len(),
    ensures
        written(cx, a + b, n) == written(cx, a, n),
    decreases n,
{
    if n > 0 {
        lemma_written_front(cx, a, b, n - 1);
        assert((a + b)[n - 1] == a[n - 1]);
    }
}

proof fn lemma_args(cx: Cx, before: Seq<Place>, args: Seq<Argument>, n: int)
    requires
        0 <= n <= args.len(),
    ensures
        ({
            let start = written(cx, before, before.len() as int);
            let r = args_code(start, args, n);
            let all = before + places_of(args).take(n);
            &&& r.0 == written(cx, all, all.len() as int)
            &&& are_arguments(cx, before, args.take(n), r.1)
        }),
    decreases n,
{
    let start = written(cx, before, before.len() as int);
    let places = places_of(args);
    if n > 0 {
        lemma_args(cx, before, args, n - 1);
        let front = args_code(start, args, n - 1);
        let r = args_code(start, args, n);
        let old = before + places.take(n - 1);
        let all = before + places.take(n);
        let p = args[n - 1].place_of();
        assert(places[n - 1] == p);
        assert(all =~= old + seq![p]);
        lemma_written_front(cx, old, seq![p], old.len() as int);
        assert(all[all.len() - 1] == p);
        assert(written(cx, all, all.len() as int) == after_place(written(cx, old, old.len() as int), p));
        lemma_place_stands(cx, old, p);
        let now = args.take(n);
        assert forall|i: int| 0 <= i < now.len() implies match #[trigger] now[i] {
            Argument::Place(p) => r.1[i] matches ItemModel::Value(e) && stands(
                cx,
                before + places_of(now).take(i),
                p,
                e,
            ),
            Argument::Spread(p) => r.1[i] matches ItemModel::Spread(e) && stands(
                cx,
                before + places_of(now).take(i),
                p,
                e,
            ),
        } by {
            assert(places_of(now).take(i) =~= places.take(i));
            if i < n - 1 {
                assert(args.take(n - 1)[i] == now[i]);
                assert(places_of(args.take(n - 1)).take(i) =~= places.take(i));
                assert(r.1[i] == front.1[i]);
            }
        }
    } else {
        assert(before + places.take(0) =~= before);
        assert(args.take(0) =~= Seq::empty());
    }
}

/// A call has its function and all its arguments, one for one.
pub proof fn lemma_call_tree(cx: Cx, callee: Place, args: Vec<Argument>, optional: bool)
    requires
        !cx.settings.hook_guards,
    ensures
        simple_value(cx, InstructionValue::CallExpression { callee, args, optional }).1 matches Some(
            Ex::Call { callee: f, args: items, optional: o, type_arg },
        ) && stands(cx, Seq::empty(), callee, *f) && are_arguments(cx, seq![callee], args@, items) && o
            == optional && type_arg is None,
        simple_value(cx, InstructionValue::NewExpression { callee, args }).1 matches Some(
            Ex::New { callee: f, args: items },
        ) && stands(cx, Seq::empty(), callee, *f) && are_arguments(cx, seq![callee], args@, items),
{
    reveal(simple_value);
    lemma_place_stands(cx, Seq::empty(), callee);
    reveal_with_fuel(written, 2);
    lemma_args(cx, seq![callee], args@, args@.len() as int);
    assert(args@.take(args@.len() as int) =~= args@);
    lemma_args_settings(after_place(cx, callee), args@, args@.len() as int);
}

proof fn lemma_args_settings(cx: Cx, args: Seq<Argument>, n: int)
    ensures
        args_code(cx, args, n).0.settings == cx.settings,
    decreases n,
{
    if n > 0 {
        lemma_args_settings(cx, args, n - 1);
    }
}

/// The places of the elements of an array.
pub open spec fn element_places(elements: Seq<ArrayElement>, n: int) -> Seq<Place>
    decreases n,
{
    if n <= 0 {
        Seq::empty()
    } else {
        let front = element_places(elements, n - 1);
        match elements[n - 1] {
            ArrayElement::Place(p) => front.push(p),
            ArrayElement::Spread(p) => front.push(p),
            ArrayElement::Hole => front,
        }
    }
}

proof fn lemma_elements(cx: Cx, elements: Seq<ArrayElement>, n: int)
    requires
        0 <= n <= elements.len(),
    ensures
        ({
            let r = elements_code(cx, elements, n);
            let all = element_places(elements, n);
            &&& r.0 == written(cx, all, all.len() as int)
            &&& r.1.len() == n
            &&& forall|i: int|
                0 <= i < n ==> match #[trigger] elements[i] {
                    ArrayElement::Place(p) => r.1[i] matches ItemModel::Value(e) && stands(
                        cx,
                        element_places(elements, i),
                        p,
                        e,
                    ),
                    ArrayElement::Spread(p) => r.1[i] matches ItemModel::Spread(e) && stands(
                        cx,
                        element_places(elements, i),
                        p,
                        e,
                    ),
                    ArrayElement::Hole => r.1[i] is Hole,
                }
        }),
    decreases n,
{
    if n > 0 {
        lemma_elements(cx, elements, n - 1);
        let old = element_places(elements, n - 1);
        match elements[n - 1] {
            ArrayElement::Place(p) => {
                lemma_place_stands(cx, old, p);
                assert(old.push(p) =~= old + seq![p]);
                lemma_written_front(cx, old, seq![p], old.len() as int);
            },
            ArrayElement::Spread(p) => {
                lemma_place_stands(cx, old, p);
                assert(old.push(p) =~= old + seq![p]);
                lemma_written_front(cx, old, seq![p], old.len() as int);
            },
            ArrayElement::Hole => {},
        }
    }
}

/// An array has all its elements, one for one.
pub proof fn lemma_array_tree(cx: Cx, elements: Vec<ArrayElement>)
    ensures
        simple_value(cx, InstructionValue::ArrayExpression { elements }).1 matches Some(
            Ex::Array(items),
        ) && items.len() == elements@.len() && forall|i: int|
            0 <= i < elements@.len() ==> match #[trigger] elements@[i] {
                ArrayElement::Place(p) => items[i] matches ItemModel::Value(e) && stands(
                    cx,
                    element_places(elements@, i),
                    p,
                    e,
                ),
                ArrayElement::Spread(p) => items[i] matches ItemModel::Spread(e) && stands(
                    cx,
                    element_places(elements@, i),
                    p,
                    e,
                ),
                ArrayElement::Hole => items[i] is Hole,
            },
{
    reveal(simple_value);
    lemma_elements(cx, elements@, elements@.len() as int);
}

proof fn lemma_places(cx: Cx, places: Seq<Place>, n: int)
    requires
        0 <= n <= places.len(),
    ensures
        ({
            let r = places_code(cx, places, n);
            &&& r.0 == written(cx, places, n)
            &&& r.1.len() == n
            &&& forall|i: int|
                0 <= i < n ==> stands(cx, places.take(i), places[i], #[trigger] r.1[i])
        }),
    decreases n,
{
    if n > 0 {
        lemma_places(cx, places, n - 1);
        let old = places.take(n - 1);
        lemma_place_stands(cx, old, places[n - 1]);
        assert(places =~= old + places.skip(n - 1));
        lemma_written_front(cx, old, places.skip(n - 1), n - 1);
    }
}

/// A template has all its pieces and all its expressions.
pub proof fn lemma_template_tree(cx: Cx, subexprs: Vec<Place>, quasis: Vec<TemplateQuasi>)
    ensures
        simple_value(cx, InstructionValue::TemplateLiteral { subexprs, quasis }).1 matches Some(
            Ex::Template { quasis: pieces, exprs },
        ) && exprs.len() == subexprs@.len() && pieces.len() == quasis@.len() && (forall|i: int|
            0 <= i < exprs.len() ==> stands(
                cx,
                subexprs@.take(i),
                subexprs@[i],
                #[trigger] exprs[i],
            )) && (forall|i: int| 0 <= i < pieces.len() ==> (#[trigger] pieces[i]).raw == quasis@[i].raw@),
{
    reveal(simple_value);
    lemma_places(cx, subexprs@, subexprs@.len() as int);
}

// ---------------------------------------------------------------------------
// Control flow
// ---------------------------------------------------------------------------

/// A conditional terminal runs the statements of the one block where its test is true, and those of the
/// other one, where there is one, where it is not.
pub proof fn lemma_if_tree_runs(
    m: Machine,
    cx: Cx,
    test: Place,
    consequent: Vec<ReactiveStatement>,
    alternate: Option<Vec<ReactiveStatement>>,
    mem: Memory,
)
    ensures
        ({
            let out = terminal_code(cx, ReactiveTerminal::If { test, consequent, alternate }).1;
            let yes = scoped_code(after_place(cx, test), consequent@);
            let t = place_expr(cx, test);
            &&& stands(cx, Seq::empty(), test, t)
            &&& out.len() == 1
            &&& is_true(m, value_of(m, t, mem)) ==> exec(m, out[0], mem) == run(
                m,
                yes.1,
                yes.1.len() as int,
                mem,
            )
            &&& !is_true(m, value_of(m, t, mem)) ==> exec(m, out[0], mem) == match alternate {
                Some(a) => {
                    let no = scoped_code(yes.0, a@);
                    run(m, no.1, no.1.len() as int, mem)
                },
                None => mem,
            }
        }),
{
    lemma_place_stands(cx, Seq::empty(), test);
}

/// A loop holds its test and the statements of its body; a `do` loop tests behind them.
pub proof fn lemma_loop_trees(cx: Cx, test: Place, loop_block: Vec<ReactiveStatement>)
    ensures
        ({
            let body = scoped_code(after_place(cx, test), loop_block@).1;
            let first = terminal_code(cx, ReactiveTerminal::While { test, loop_block }).1;
            let last = terminal_code(cx, ReactiveTerminal::DoWhile { loop_block, test }).1;
            &&& first.len() == 1
            &&& first[0] matches St::While { test: t, body: b } && stands(cx, Seq::empty(), test, t)
                && b == body
            &&& last.len() == 1
            &&& last[0] matches St::DoWhile { body: b, test: t } && stands(
                cx,
                Seq::empty(),
                test,
                t,
            ) && b == body
        }),
{
    lemma_place_stands(cx, Seq::empty(), test);
}

/// A return gives the value of its place, a throw throws it. A jump is written unless it goes without
/// saying: a break as a break, a continue as a continue, with a label exactly where it needs one.
pub proof fn lemma_jump_trees(
    cx: Cx,
    value: Place,
    target: crate::hir::BlockId,
    target_kind: ReactiveTerminalTargetKind,
)
    ensures
        ({
            let e = place_expr(cx, value);
            let r = terminal_code(cx, ReactiveTerminal::Return { value }).1;
            let t = terminal_code(cx, ReactiveTerminal::Throw { value }).1;
            let b = terminal_code(cx, ReactiveTerminal::Break { target, target_kind }).1;
            let c = terminal_code(cx, ReactiveTerminal::Continue { target, target_kind }).1;
            &&& stands(cx, Seq::empty(), value, e)
            &&& r == seq![
                if e == Ex::Identifier("undefined"@) {
                    St::Return(None)
                } else {
                    St::Return(Some(e))
                },
            ]
            &&& t == seq![St::Throw(e)]
            &&& match target_kind {
                ReactiveTerminalTargetKind::Implicit => b.len() == 0 && c.len() == 0,
                ReactiveTerminalTargetKind::Unlabeled => b == seq![St::Break(None)] && c == seq![
                    St::Continue(None),
                ],
                ReactiveTerminalTargetKind::Labeled => b.len() == 1 && c.len() == 1 && (b[0]
                    matches St::Break(Some(x)) && c[0] matches St::Continue(Some(y)) && x == y),
            }
        }),
{
    lemma_place_stands(cx, Seq::empty(), value);
}

} // verus!
