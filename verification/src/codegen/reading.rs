//! How the texts of expressions read: their operators, their operands and the children of elements.

use vstd::prelude::*;

use crate::codegen::context::{
    argument_text, branch_text, logical_operand_text, operand_text, place_text, Ctx,
};
use crate::codegen::exprs::{
    attribute_text, attributes_text, callee_text, child_text, children_text, constructor_text,
    element_text, has_element_child, has_text_child, jsx_text, member_base, plain_expr,
    simple_attribute, spaced, tag_text, template_text,
};
use crate::codegen::print::{
    binary_text, left_level, logical_precedence, logical_text, right_level, unary_text, update_text,
    UNARY_LEVEL,
};
use crate::codegen::structure::{lemma_joined_lists, lemma_occurs, lists};
use crate::hir::{
    Argument, ArrayElement, BinaryOperator, InstructionValue, JsxAttribute, JsxTag, LogicalOperator,
    Place, PropertyLiteral, TemplateQuasi, UnaryOperator, UpdateOperator,
};
use crate::text::{joined, occurs_at};

verus! {

// ---------------------------------------------------------------------------
// Operators
// ---------------------------------------------------------------------------

/// The binary operator that a text spells.
pub open spec fn binary_in(t: Seq<char>) -> Option<BinaryOperator> {
    if t == seq!['=', '='] {
        Some(BinaryOperator::Eq)
    } else if t == seq!['!', '='] {
        Some(BinaryOperator::NotEq)
    } else if t == seq!['=', '=', '='] {
        Some(BinaryOperator::StrictEq)
    } else if t == seq!['!', '=', '='] {
        Some(BinaryOperator::StrictNotEq)
    } else if t == seq!['<'] {
        Some(BinaryOperator::Lt)
    } else if t == seq!['<', '='] {
        Some(BinaryOperator::LtEq)
    } else if t == seq!['>'] {
        Some(BinaryOperator::Gt)
    } else if t == seq!['>', '='] {
        Some(BinaryOperator::GtEq)
    } else if t == seq!['<', '<'] {
        Some(BinaryOperator::LShift)
    } else if t == seq!['>', '>'] {
        Some(BinaryOperator::RShift)
    } else if t == seq!['>', '>', '>'] {
        Some(BinaryOperator::URShift)
    } else if t == seq!['+'] {
        Some(BinaryOperator::Add)
    } else if t == seq!['-'] {
        Some(BinaryOperator::Sub)
    } else if t == seq!['*'] {
        Some(BinaryOperator::Mul)
    } else if t == seq!['/'] {
        Some(BinaryOperator::Div)
    } else if t == seq!['%'] {
        Some(BinaryOperator::Mod)
    } else if t == seq!['*', '*'] {
        Some(BinaryOperator::Exp)
    } else if t == seq!['|'] {
        Some(BinaryOperator::BitOr)
    } else if t == seq!['^'] {
        Some(BinaryOperator::BitXor)
    } else if t == seq!['&'] {
        Some(BinaryOperator::BitAnd)
    } else if t == seq!['i', 'n'] {
        Some(BinaryOperator::In)
    } else if t == seq!['i', 'n', 's', 't', 'a', 'n', 'c', 'e', 'o', 'f'] {
        Some(BinaryOperator::InstanceOf)
    } else {
        None
    }
}

/// The spelling of a binary operator reads back as that operator.
#[verifier::rlimit(60)]
pub proof fn lemma_binary_operator_reads_back(op: BinaryOperator)
    ensures
        binary_in(binary_text(op)) == Some(op),
{
    let t = binary_text(op);
    match op {
        BinaryOperator::Eq => {
            reveal_strlit("==");
            assert(t =~= seq!['=', '=']);
        },
        BinaryOperator::NotEq => {
            reveal_strlit("!=");
            assert(t =~= seq!['!', '=']);
            assert(t[0] != '=');
        },
        BinaryOperator::StrictEq => {
            reveal_strlit("===");
            assert(t =~= seq!['=', '=', '=']);
            assert(t.len() == 3);
        },
        BinaryOperator::StrictNotEq => {
            reveal_strlit("!==");
            assert(t =~= seq!['!', '=', '=']);
            assert(t.len() == 3 && t[0] == '!');
        },
        BinaryOperator::Lt => {
            reveal_strlit("<");
            assert(t =~= seq!['<']);
            assert(t.len() == 1 && t[0] == '<');
        },
        BinaryOperator::LtEq => {
            reveal_strlit("<=");
            assert(t =~= seq!['<', '=']);
            assert(t.len() == 2 && t[0] == '<' && t[1] == '=');
        },
        BinaryOperator::Gt => {
            reveal_strlit(">");
            assert(t =~= seq!['>']);
            assert(t.len() == 1 && t[0] == '>');
        },
        BinaryOperator::GtEq => {
            reveal_strlit(">=");
            assert(t =~= seq!['>', '=']);
            assert(t.len() == 2 && t[0] == '>' && t[1] == '=');
        },
        BinaryOperator::LShift => {
            reveal_strlit("<<");
            assert(t =~= seq!['<', '<']);
            assert(t.len() == 2 && t[0] == '<' && t[1] == '<');
        },
        BinaryOperator::RShift => {
            reveal_strlit(">>");
            assert(t =~= seq!['>', '>']);
            assert(t.len() == 2 && t[0] == '>' && t[1] == '>');
        },
        BinaryOperator::URShift => {
            reveal_strlit(">>>");
            assert(t =~= seq!['>', '>', '>']);
            assert(t.len() == 3 && t[0] == '>');
        },
        BinaryOperator::Add => {
            reveal_strlit("+");
            assert(t =~= seq!['+']);
            assert(t.len() == 1 && t[0] == '+');
        },
        BinaryOperator::Sub => {
            reveal_strlit("-");
            assert(t =~= seq!['-']);
            assert(t.len() == 1 && t[0] == '-');
        },
        BinaryOperator::Mul => {
            reveal_strlit("*");
            assert(t =~= seq!['*']);
            assert(t.len() == 1 && t[0] == '*');
        },
        BinaryOperator::Div => {
            reveal_strlit("/");
            assert(t =~= seq!['/']);
            assert(t.len() == 1 && t[0] == '/');
        },
        BinaryOperator::Mod => {
            reveal_strlit("%");
            assert(t =~= seq!['%']);
            assert(t.len() == 1 && t[0] == '%');
        },
        BinaryOperator::Exp => {
            reveal_strlit("**");
            assert(t =~= seq!['*', '*']);
            assert(t.len() == 2 && t[0] == '*');
        },
        BinaryOperator::BitOr => {
            reveal_strlit("|");
            assert(t =~= seq!['|']);
            assert(t.len() == 1 && t[0] == '|');
        },
        BinaryOperator::BitXor => {
            reveal_strlit("^");
            assert(t =~= seq!['^']);
            assert(t.len() == 1 && t[0] == '^');
        },
        BinaryOperator::BitAnd => {
            reveal_strlit("&");
            assert(t =~= seq!['&']);
            assert(t.len() == 1 && t[0] == '&');
        },
        BinaryOperator::In => {
            reveal_strlit("in");
            assert(t =~= seq!['i', 'n']);
            assert(t.len() == 2 && t[0] == 'i');
        },
        BinaryOperator::InstanceOf => {
            reveal_strlit("instanceof");
            assert(t =~= seq!['i', 'n', 's', 't', 'a', 'n', 'c', 'e', 'o', 'f']);
            assert(t.len() == 10);
        },
    }
}

/// The other operators are spelled as JavaScript has them.
pub proof fn lemma_other_operators_read_back()
    ensures
        logical_text(LogicalOperator::And) == seq!['&', '&'],
        logical_text(LogicalOperator::Or) == seq!['|', '|'],
        logical_text(LogicalOperator::NullishCoalescing) == seq!['?', '?'],
        unary_text(UnaryOperator::Minus) == seq!['-'],
        unary_text(UnaryOperator::Plus) == seq!['+'],
        unary_text(UnaryOperator::Not) == seq!['!'],
        unary_text(UnaryOperator::BitNot) == seq!['~'],
        unary_text(UnaryOperator::TypeOf) == seq!['t', 'y', 'p', 'e', 'o', 'f', ' '],
        unary_text(UnaryOperator::Void) == seq!['v', 'o', 'i', 'd', ' '],
        update_text(UpdateOperator::Increment) == seq!['+', '+'],
        update_text(UpdateOperator::Decrement) == seq!['-', '-'],
{
    reveal_strlit("&&");
    reveal_strlit("||");
    reveal_strlit("??");
    reveal_strlit("-");
    reveal_strlit("+");
    reveal_strlit("!");
    reveal_strlit("~");
    reveal_strlit("typeof ");
    reveal_strlit("void ");
    reveal_strlit("++");
    reveal_strlit("--");
    assert("&&"@ =~= seq!['&', '&']);
    assert("||"@ =~= seq!['|', '|']);
    assert("??"@ =~= seq!['?', '?']);
    assert("-"@ =~= seq!['-']);
    assert("+"@ =~= seq!['+']);
    assert("!"@ =~= seq!['!']);
    assert("~"@ =~= seq!['~']);
    assert("typeof "@ =~= seq!['t', 'y', 'p', 'e', 'o', 'f', ' ']);
    assert("void "@ =~= seq!['v', 'o', 'i', 'd', ' ']);
    assert("++"@ =~= seq!['+', '+']);
    assert("--"@ =~= seq!['-', '-']);
}

// ---------------------------------------------------------------------------
// Operands
// ---------------------------------------------------------------------------

/// Whether a text is an expression in parentheses.
pub open spec fn in_parens(t: Seq<char>, e: Seq<char>) -> bool {
    t.len() == e.len() + 2 && t[0] == '(' && t.last() == ')' && t.subrange(1, t.len() - 1) == e
}

/// Whether a text is an expression, in parentheses exactly where `wrapped` tells so.
pub open spec fn is_operand(t: Seq<char>, e: Seq<char>, wrapped: bool) -> bool {
    if wrapped {
        in_parens(t, e)
    } else {
        t == e
    }
}

/// Whether an expression binds less tightly than `min`.
pub open spec fn binds_less(c: Ctx, p: Place, min: int) -> bool {
    c.levels.contains_key(p.identifier.id.0) && 0 < c.levels[p.identifier.id.0] < min
}

proof fn lemma_parens(e: Seq<char>)
    ensures
        in_parens("("@ + e + ")"@, e),
{
    reveal_strlit("(");
    reveal_strlit(")");
    let t = "("@ + e + ")"@;
    assert(t.subrange(1, t.len() - 1) =~= e);
}

/// An operand is put in parentheses exactly where it binds less tightly than it must.
pub proof fn lemma_operand_reads(c: Ctx, p: Place, min: int)
    ensures
        is_operand(operand_text(c, p, min), place_text(c, p), binds_less(c, p, min)),
{
    lemma_parens(place_text(c, p));
}

/// A binary expression is its left operand, its operator and its right operand. Each operand is in
/// parentheses exactly where it would group otherwise.
pub proof fn lemma_binary_reads(c: Ctx, operator: BinaryOperator, left: Place, right: Place) -> (r: (
    Seq<char>,
    Seq<char>,
    Seq<char>,
))
    ensures
        ({
            let e = plain_expr(c, InstructionValue::BinaryExpression { operator, left, right });
            let (a, o, b) = r;
            &&& e == Some(a + seq![' '] + o + seq![' '] + b)
            &&& binary_in(o) == Some(operator)
            &&& is_operand(a, place_text(c, left), binds_less(c, left, left_level(operator) as int))
            &&& is_operand(b, place_text(c, right), binds_less(c, right, right_level(operator) as int))
        }),
{
    reveal_strlit(" ");
    assert(" "@ =~= seq![' ']);
    lemma_binary_operator_reads_back(operator);
    lemma_operand_reads(c, left, left_level(operator) as int);
    lemma_operand_reads(c, right, right_level(operator) as int);
    (
        operand_text(c, left, left_level(operator) as int),
        binary_text(operator),
        operand_text(c, right, right_level(operator) as int),
    )
}

/// A logical expression is its left operand, its operator and its right operand.
pub proof fn lemma_logical_reads(c: Ctx, operator: LogicalOperator, left: Place, right: Place) -> (r: (
    Seq<char>,
    Seq<char>,
))
    ensures
        ({
            let e = plain_expr(c, InstructionValue::LogicalExpression { operator, left, right });
            let o = match operator {
                LogicalOperator::And => seq!['&', '&'],
                LogicalOperator::Or => seq!['|', '|'],
                LogicalOperator::NullishCoalescing => seq!['?', '?'],
            };
            let (a, b) = r;
            &&& e == Some(a + seq![' '] + o + seq![' '] + b)
            &&& is_operand(a, place_text(c, left), false) || is_operand(a, place_text(c, left), true)
            &&& is_operand(b, place_text(c, right), false) || is_operand(b, place_text(c, right), true)
        }),
{
    reveal_strlit(" ");
    assert(" "@ =~= seq![' ']);
    lemma_other_operators_read_back();
    lemma_parens(place_text(c, left));
    lemma_parens(place_text(c, right));
    (
        logical_operand_text(c, left, logical_precedence(operator)),
        logical_operand_text(c, right, logical_precedence(operator)),
    )
}

/// A conditional expression is its test, then what it gives where the test holds, then what it gives where
/// it does not.
pub proof fn lemma_conditional_reads(c: Ctx, test: Place, consequent: Place, alternate: Place) -> (r: (
    Seq<char>,
    Seq<char>,
    Seq<char>,
))
    ensures
        ({
            let e = plain_expr(c, InstructionValue::Ternary { test, consequent, alternate });
            let (t, y, n) = r;
            &&& e == Some(t + seq![' ', '?', ' '] + y + seq![' ', ':', ' '] + n)
            &&& is_operand(t, place_text(c, test), binds_less(c, test, 4))
            &&& is_operand(y, place_text(c, consequent), false) || is_operand(
                y,
                place_text(c, consequent),
                true,
            )
            &&& is_operand(n, place_text(c, alternate), false) || is_operand(
                n,
                place_text(c, alternate),
                true,
            )
        }),
{
    reveal_strlit(" ? ");
    reveal_strlit(" : ");
    assert(" ? "@ =~= seq![' ', '?', ' ']);
    assert(" : "@ =~= seq![' ', ':', ' ']);
    lemma_operand_reads(c, test, 4);
    lemma_parens(place_text(c, consequent));
    lemma_parens(place_text(c, alternate));
    (operand_text(c, test, 4), branch_text(c, consequent), branch_text(c, alternate))
}

/// A unary expression is its operator and its operand, which keeps its grouping.
pub proof fn lemma_unary_reads(c: Ctx, operator: UnaryOperator, value: Place) -> (r: Seq<char>)
    ensures
        plain_expr(c, InstructionValue::UnaryExpression { operator, value }) == Some(
            unary_text(operator) + r,
        ),
        ({
            let v = operand_text(c, value, UNARY_LEVEL as int);
            &&& is_operand(v, place_text(c, value), binds_less(c, value, UNARY_LEVEL as int))
            &&& is_operand(r, v, false) || in_parens(r, v)
        }),
{
    lemma_operand_reads(c, value, UNARY_LEVEL as int);
    let v = operand_text(c, value, UNARY_LEVEL as int);
    lemma_parens(v);
    let e = plain_expr(c, InstructionValue::UnaryExpression { operator, value })->0;
    let r = e.skip(unary_text(operator).len() as int);
    assert(e =~= unary_text(operator) + r);
    assert(r =~= v || r =~= "("@ + v + ")"@);
    r
}

/// An update stands on the side of its variable that the instruction says.
pub proof fn lemma_update_reads(c: Ctx, lvalue: Place, value: Place, operation: UpdateOperator)
    ensures
        ({
            let sign = match operation {
                UpdateOperator::Increment => seq!['+', '+'],
                UpdateOperator::Decrement => seq!['-', '-'],
            };
            &&& plain_expr(c, InstructionValue::PrefixUpdate { lvalue, value, operation }) == Some(
                sign + place_text(c, value),
            )
            &&& plain_expr(c, InstructionValue::PostfixUpdate { lvalue, value, operation }) == Some(
                place_text(c, value) + sign,
            )
        }),
{
    lemma_other_operators_read_back();
}

// ---------------------------------------------------------------------------
// Lists
// ---------------------------------------------------------------------------

/// Whether a text is an argument: the expression of its place, behind three dots where it is spread.
pub open spec fn is_argument(c: Ctx, a: Argument, t: Seq<char>) -> bool {
    match a {
        Argument::Place(p) => t == place_text(c, p),
        Argument::Spread(p) => t == seq!['.', '.', '.'] + place_text(c, p),
    }
}

/// The arguments of a call stand between parentheses, all of them and in their order.
pub proof fn lemma_call_reads(c: Ctx, callee: Place, args: Vec<Argument>, optional: bool) -> (r: (
    Seq<Seq<char>>,
    Seq<int>,
    Seq<char>,
))
    ensures
        ({
            let e = plain_expr(c, InstructionValue::CallExpression { callee, args, optional });
            let (parts, at, f) = r;
            let open = f + if optional {
                seq!['?', '.', '(']
            } else {
                seq!['(']
            };
            &&& parts.len() == args@.len()
            &&& forall|i: int| 0 <= i < args@.len() ==> is_argument(c, #[trigger] args@[i], parts[i])
            &&& f == place_text(c, callee) || in_parens(f, place_text(c, callee))
            &&& e matches Some(text) && {
                &&& text.len() > open.len()
                &&& text.take(open.len() as int) == open
                &&& lists(text, parts, seq![',', ' '], at, open.len() as int, text.len() - 1)
                &&& text.last() == ')'
            }
        }),
{
    reveal_strlit("?.(");
    reveal_strlit("(");
    reveal_strlit(")");
    reveal_strlit(", ");
    reveal_strlit("...");
    assert("..."@ =~= seq!['.', '.', '.']);
    assert("?.("@ =~= seq!['?', '.', '(']);
    assert("("@ =~= seq!['(']);
    assert(", "@ =~= seq![',', ' ']);
    let f = callee_text(c, callee);
    lemma_parens(place_text(c, callee));
    let parts = args@.map_values(|a: Argument| argument_text(c, a));
    let open = f + if optional {
        seq!['?', '.', '(']
    } else {
        seq!['(']
    };
    let at = lemma_joined_lists(open, parts, ", "@, ")"@);
    let text = open + joined(parts, ", "@) + ")"@;
    assert(plain_expr(c, InstructionValue::CallExpression { callee, args, optional }) == Some(text));
    assert(text.take(open.len() as int) =~= open);
    (parts, at, f)
}

/// So do those of a constructor.
pub proof fn lemma_new_reads(c: Ctx, callee: Place, args: Vec<Argument>) -> (r: (
    Seq<Seq<char>>,
    Seq<int>,
    Seq<char>,
))
    ensures
        ({
            let e = plain_expr(c, InstructionValue::NewExpression { callee, args });
            let (parts, at, f) = r;
            let open = seq!['n', 'e', 'w', ' '] + f + seq!['('];
            &&& parts.len() == args@.len()
            &&& forall|i: int| 0 <= i < args@.len() ==> is_argument(c, #[trigger] args@[i], parts[i])
            &&& f == place_text(c, callee) || in_parens(f, place_text(c, callee))
            &&& e matches Some(text) && {
                &&& text.len() > open.len()
                &&& text.take(open.len() as int) == open
                &&& lists(text, parts, seq![',', ' '], at, open.len() as int, text.len() - 1)
                &&& text.last() == ')'
            }
        }),
{
    reveal_strlit("new ");
    reveal_strlit("(");
    reveal_strlit(")");
    reveal_strlit(", ");
    reveal_strlit("...");
    assert("..."@ =~= seq!['.', '.', '.']);
    assert("new "@ =~= seq!['n', 'e', 'w', ' ']);
    assert("("@ =~= seq!['(']);
    assert(", "@ =~= seq![',', ' ']);
    let f = constructor_text(c, callee);
    lemma_parens(place_text(c, callee));
    let parts = args@.map_values(|a: Argument| argument_text(c, a));
    let open = seq!['n', 'e', 'w', ' '] + f + seq!['('];
    let at = lemma_joined_lists(open, parts, ", "@, ")"@);
    let text = open + joined(parts, ", "@) + ")"@;
    assert(plain_expr(c, InstructionValue::NewExpression { callee, args }) == Some(text));
    assert(text.take(open.len() as int) =~= open);
    (parts, at, f)
}

/// Whether a text is an element of an array: the expression of its place, behind three dots where it is
/// spread, or nothing for a hole.
pub open spec fn is_element(c: Ctx, e: ArrayElement, t: Seq<char>) -> bool {
    match e {
        ArrayElement::Place(p) => t == place_text(c, p),
        ArrayElement::Spread(p) => t == seq!['.', '.', '.'] + place_text(c, p),
        ArrayElement::Hole => t.len() == 0,
    }
}

/// The elements of an array stand between brackets, all of them and in their order.
pub proof fn lemma_array_reads(c: Ctx, elements: Vec<ArrayElement>) -> (r: (Seq<Seq<char>>, Seq<int>))
    ensures
        ({
            let e = plain_expr(c, InstructionValue::ArrayExpression { elements });
            let (parts, at) = r;
            &&& parts.len() == elements@.len()
            &&& forall|i: int|
                0 <= i < elements@.len() ==> is_element(c, #[trigger] elements@[i], parts[i])
            &&& e matches Some(text) && {
                &&& text.len() >= 2
                &&& text[0] == '['
                &&& lists(text, parts, seq![',', ' '], at, 1, text.len() - 1)
                &&& text.last() == ']'
            }
        }),
{
    reveal_strlit("[");
    reveal_strlit("]");
    reveal_strlit(", ");
    reveal_strlit("...");
    reveal_strlit("");
    assert("..."@ =~= seq!['.', '.', '.']);
    assert(", "@ =~= seq![',', ' ']);
    let parts = elements@.map_values(|e: ArrayElement| element_text(c, e));
    let at = lemma_joined_lists("["@, parts, ", "@, "]"@);
    (parts, at)
}

/// A property is loaded from its object, behind a dot.
pub proof fn lemma_property_load_reads(c: Ctx, object: Place, property: PropertyLiteral, optional: bool)
    ensures
        property matches PropertyLiteral::String(s) ==> ({
            let e = plain_expr(c, InstructionValue::PropertyLoad { object, property, optional });
            let dot = if optional {
                seq!['?', '.']
            } else {
                seq!['.']
            };
            &&& e == Some(member_base(c, object) + dot + s@)
            &&& member_base(c, object) == place_text(c, object) || in_parens(
                member_base(c, object),
                place_text(c, object),
            )
        }),
{
    reveal_strlit("?.");
    reveal_strlit(".");
    assert("?."@ =~= seq!['?', '.']);
    assert("."@ =~= seq!['.']);
    lemma_parens(place_text(c, object));
}

/// The pieces of a template stand in their order, each with its expression behind it between `${` and
/// `}`: where the first `n` pieces end.
pub open spec fn pieces_read(
    c: Ctx,
    text: Seq<char>,
    quasis: Seq<TemplateQuasi>,
    subexprs: Seq<Place>,
    at: Seq<int>,
    n: int,
) -> bool {
    &&& at.len() == n + 1
    &&& at[0] == 1
    &&& forall|i: int|
        0 <= i < n ==> {
            let piece = (#[trigger] quasis[i]).raw@;
            let e = if i < subexprs.len() {
                seq!['$', '{'] + place_text(c, subexprs[i]) + seq!['}']
            } else {
                Seq::empty()
            };
            &&& occurs_at(text, piece + e, at[i])
            &&& at[i + 1] == at[i] + piece.len() + e.len()
        }
}

proof fn lemma_pieces_read(
    c: Ctx,
    quasis: Seq<TemplateQuasi>,
    subexprs: Seq<Place>,
    n: int,
    after: Seq<char>,
) -> (at: Seq<int>)
    requires
        0 <= n <= quasis.len(),
    ensures
        ({
            let inner = template_text(c, quasis, subexprs, n);
            &&& pieces_read(c, inner + after, quasis, subexprs, at, n)
            &&& at[n] == inner.len()
            &&& inner.len() > 0
            &&& inner[0] == '`'
        }),
    decreases n,
{
    reveal_strlit("`");
    reveal_strlit("${");
    reveal_strlit("}");
    assert("${"@ =~= seq!['$', '{']);
    assert("}"@ =~= seq!['}']);
    let inner = template_text(c, quasis, subexprs, n);
    if n == 0 {
        seq![1int]
    } else {
        let front = template_text(c, quasis, subexprs, n - 1);
        let piece = quasis[n - 1].raw@;
        let e = if n - 1 < subexprs.len() {
            seq!['$', '{'] + place_text(c, subexprs[n - 1]) + seq!['}']
        } else {
            Seq::empty()
        };
        let rest = (piece + e) + after;
        let old = lemma_pieces_read(c, quasis, subexprs, n - 1, rest);
        assert(inner =~= front + (piece + e));
        assert(inner + after =~= front + rest);
        assert(inner + after =~= front + (piece + e) + after);
        lemma_occurs(front, piece + e, after);
        let at = old.push(inner.len() as int);
        assert forall|i: int| 0 <= i < n implies {
            let p = (#[trigger] quasis[i]).raw@;
            let x = if i < subexprs.len() {
                seq!['$', '{'] + place_text(c, subexprs[i]) + seq!['}']
            } else {
                Seq::empty()
            };
            &&& occurs_at(inner + after, p + x, at[i])
            &&& at[i + 1] == at[i] + p.len() + x.len()
        } by {
            assert(at[i] == old[i]);
            if i < n - 1 {
                assert(at[i + 1] == old[i + 1]);
            }
        }
        at
    }
}

/// A template with expressions holds all its pieces and all its expressions, in turn, between backquotes.
pub proof fn lemma_template_reads(c: Ctx, quasis: Vec<TemplateQuasi>, subexprs: Vec<Place>) -> (at: Seq<
    int,
>)
    requires
        subexprs@.len() > 0,
    ensures
        plain_expr(c, InstructionValue::TemplateLiteral { subexprs, quasis }) matches Some(text) && {
            &&& text.len() >= 2
            &&& text[0] == '`'
            &&& text.last() == '`'
            &&& pieces_read(c, text, quasis@, subexprs@, at, quasis@.len() as int)
            &&& at[quasis@.len() as int] == text.len() - 1
        },
{
    reveal_strlit("`");
    lemma_pieces_read(c, quasis@, subexprs@, quasis@.len() as int, "`"@)
}

// ---------------------------------------------------------------------------
// Elements
// ---------------------------------------------------------------------------

/// Whether a text is an expression in braces.
pub open spec fn is_container(t: Seq<char>, e: Seq<char>) -> bool {
    t.len() == e.len() + 2 && t[0] == '{' && t.last() == '}' && t.subrange(1, t.len() - 1) == e
}

/// Whether a text is a child of an element: text and elements as they are, everything else as an expression
/// in braces.
pub open spec fn is_child(c: Ctx, p: Place, t: Seq<char>) -> bool {
    let id = p.identifier.id.0;
    if c.text_ids.contains(id) || c.element_ids.contains(id) {
        t == place_text(c, p)
    } else {
        is_container(t, place_text(c, p))
    }
}

/// Whether there are only blanks in a text from `from` to `to`.
pub open spec fn blanks(text: Seq<char>, from: int, to: int) -> bool {
    from <= to && forall|i: int| from <= i < to ==> #[trigger] text[i] == ' '
}

/// Whether a text is its parts one behind the other, each at its place in `at`, and nothing else but
/// blanks; with `tight` no blanks either.
pub open spec fn one_by_one(text: Seq<char>, parts: Seq<Seq<char>>, at: Seq<int>, tight: bool) -> bool {
    let n = parts.len() as int;
    &&& at.len() == parts.len()
    &&& n == 0 ==> blanks(text, 0, text.len() as int)
    &&& n > 0 ==> blanks(text, 0, at[0]) && blanks(
        text,
        at[n - 1] + parts[n - 1].len(),
        text.len() as int,
    )
    &&& forall|i: int| 0 <= i < n ==> occurs_at(text, #[trigger] parts[i], at[i])
    &&& forall|i: int|
        0 <= i < n - 1 ==> blanks(text, (#[trigger] at[i]) + parts[i].len(), at[i + 1])
    &&& tight && n > 0 ==> at[0] == 0 && at[n - 1] + parts[n - 1].len() == text.len()
    &&& tight ==> forall|i: int|
        0 <= i < n - 1 ==> (#[trigger] at[i]) + parts[i].len() == at[i + 1]
}

proof fn lemma_child(c: Ctx, p: Place)
    ensures
        is_child(c, p, child_text(c, p)),
{
    reveal_strlit("{");
    reveal_strlit("}");
    let e = place_text(c, p);
    let t = "{"@ + e + "}"@;
    assert(t.subrange(1, t.len() - 1) =~= e);
}

proof fn lemma_spaced_grows(parts: Seq<Seq<char>>, i: int, n: int)
    requires
        0 <= i <= n <= parts.len(),
    ensures
        spaced(parts, i).len() <= spaced(parts, n).len(),
        spaced(parts, n).take(spaced(parts, i).len() as int) == spaced(parts, i),
    decreases n,
{
    let a = spaced(parts, i);
    let b = spaced(parts, n);
    if i < n {
        lemma_spaced_grows(parts, i, n - 1);
        let f = spaced(parts, n - 1);
        assert(b.take(f.len() as int) =~= f);
        assert(b.take(a.len() as int) =~= f.take(a.len() as int));
    } else {
        assert(b.take(a.len() as int) =~= a);
    }
}

proof fn lemma_spaced_reads(parts: Seq<Seq<char>>) -> (at: Seq<int>)
    requires
        parts.len() > 0,
    ensures
        one_by_one(spaced(parts, parts.len() as int), parts, at, false),
{
    reveal_strlit(" ");
    let n = parts.len() as int;
    let text = spaced(parts, n);
    let at = Seq::new(parts.len(), |i: int| spaced(parts, i).len() as int);
    assert forall|i: int| 0 <= i < n implies occurs_at(text, #[trigger] parts[i], at[i]) && blanks(
        text,
        at[i] + parts[i].len(),
        spaced(parts, i + 1).len() as int,
    ) by {
        let a = spaced(parts, i);
        let b = spaced(parts, i + 1);
        lemma_spaced_grows(parts, i + 1, n);
        lemma_spaced_grows(parts, i, i + 1);
        let both = a + parts[i];
        assert(text.take(b.len() as int) == b);
        assert(b.take(both.len() as int) =~= both);
        assert(text.subrange(at[i], at[i] + parts[i].len()) =~= parts[i]) by {
            assert forall|k: int| 0 <= k < parts[i].len() implies text[a.len() + k] == parts[i][k] by {
                assert(text.take(b.len() as int)[a.len() + k] == text[a.len() + k]);
                assert(b.take(both.len() as int)[a.len() + k] == b[a.len() + k]);
                assert(both[a.len() + k] == parts[i][k]);
            }
        }
        assert forall|k: int| both.len() <= k < b.len() implies #[trigger] text[k] == ' ' by {
            assert(text.take(b.len() as int)[k] == text[k]);
        }
    }
    assert(blanks(text, 0, at[0])) by {
        lemma_spaced_grows(parts, 0, n);
        assert(text.take(1)[0] == ' ');
    }
    assert forall|i: int| 0 <= i < n - 1 implies blanks(
        text,
        (#[trigger] at[i]) + parts[i].len(),
        at[i + 1],
    ) by {
        let p = parts[i];
        assert(occurs_at(text, p, at[i]));
    }
    assert(occurs_at(text, parts[n - 1], at[n - 1]));
    at
}

/// The children of an element are written one for one and in their order: text as it is, elements as they
/// are, and every other child as its expression in braces. There are no blanks round them where one of
/// them is text.
pub proof fn lemma_children_read(c: Ctx, kids: Seq<Place>) -> (r: (Seq<Seq<char>>, Seq<int>))
    ensures
        ({
            let (parts, at) = r;
            &&& parts.len() == kids.len()
            &&& forall|i: int| 0 <= i < kids.len() ==> is_child(c, #[trigger] kids[i], parts[i])
            &&& one_by_one(
                children_text(c, kids),
                parts,
                at,
                exists|i: int|
                    0 <= i < kids.len() && c.text_ids.contains((#[trigger] kids[i]).identifier.id.0),
            )
        }),
{
    reveal_strlit("");
    let parts = kids.map_values(|p: Place| child_text(c, p));
    assert forall|i: int| 0 <= i < kids.len() implies is_child(c, #[trigger] kids[i], parts[i]) by {
        lemma_child(c, kids[i]);
    }
    let text = children_text(c, kids);
    if parts.len() == 0 {
        (parts, Seq::empty())
    } else if has_text_child(c, kids) {
        let at = lemma_joined_lists(Seq::empty(), parts, ""@, Seq::empty());
        assert(text =~= Seq::<char>::empty() + joined(parts, ""@) + Seq::<char>::empty());
        assert(at.last() == at[parts.len() - 1]);
        assert(parts.last() == parts[parts.len() - 1]);
        assert forall|i: int| 0 <= i < parts.len() - 1 implies blanks(
            text,
            (#[trigger] at[i]) + parts[i].len(),
            at[i + 1],
        ) by {}
        (parts, at)
    } else if parts.len() == 1 && !has_element_child(c, kids) {
        assert(text.subrange(0, text.len() as int) =~= parts[0]);
        (parts, seq![0int])
    } else {
        (parts, lemma_spaced_reads(parts))
    }
}

/// Whether a text is an attribute: a simple string as it is, every other value as its expression in
/// braces, and spread attributes in braces behind three dots.
pub open spec fn is_attribute(c: Ctx, a: JsxAttribute, t: Seq<char>) -> bool {
    match a {
        JsxAttribute::Attribute { name, place } => {
            let head = seq![' '] + name@ + seq!['='];
            &&& t.len() >= head.len()
            &&& t.take(head.len() as int) == head
            &&& if simple_attribute(place_text(c, place)) {
                t.skip(head.len() as int) == place_text(c, place)
            } else {
                is_container(t.skip(head.len() as int), place_text(c, place))
            }
        },
        JsxAttribute::SpreadAttribute { argument } => {
            t == seq![' ', '{', '.', '.', '.'] + place_text(c, argument) + seq!['}']
        },
    }
}

proof fn lemma_attribute(c: Ctx, a: JsxAttribute)
    ensures
        is_attribute(c, a, attribute_text(c, a)),
{
    reveal_strlit(" ");
    reveal_strlit("=");
    reveal_strlit("={");
    reveal_strlit("}");
    reveal_strlit(" {...");
    let t = attribute_text(c, a);
    match a {
        JsxAttribute::Attribute { name, place } => {
            let head = seq![' '] + name@ + seq!['='];
            let v = place_text(c, place);
            assert(t.take(head.len() as int) =~= head);
            if simple_attribute(v) {
                assert(t.skip(head.len() as int) =~= v);
            } else {
                let box_ = t.skip(head.len() as int);
                assert(box_.subrange(1, box_.len() - 1) =~= v);
            }
        },
        JsxAttribute::SpreadAttribute { argument } => {
            assert(t =~= seq![' ', '{', '.', '.', '.'] + place_text(c, argument) + seq!['}']);
        },
    }
}

proof fn lemma_attributes(c: Ctx, before: Seq<char>, props: Seq<JsxAttribute>, n: int, after: Seq<char>) -> (r: (
    Seq<Seq<char>>,
    Seq<int>,
))
    requires
        0 <= n <= props.len(),
    ensures
        ({
            let (parts, at) = r;
            &&& parts.len() == n
            &&& forall|i: int| 0 <= i < n ==> is_attribute(c, #[trigger] props[i], parts[i])
            &&& lists(
                before + attributes_text(c, props, n) + after,
                parts,
                Seq::empty(),
                at,
                before.len() as int,
                (before.len() + attributes_text(c, props, n).len()) as int,
            )
        }),
    decreases n,
{
    if n == 0 {
        (Seq::empty(), Seq::empty())
    } else {
        let part = attribute_text(c, props[n - 1]);
        lemma_attribute(c, props[n - 1]);
        let inner = attributes_text(c, props, n - 1);
        let (olds, old) = lemma_attributes(c, before, props, n - 1, part + after);
        let text = before + attributes_text(c, props, n) + after;
        assert(text =~= before + inner + (part + after));
        assert(text =~= (before + inner) + part + after);
        lemma_occurs(before + inner, part, after);
        let parts = olds.push(part);
        let at = old.push((before.len() + inner.len()) as int);
        assert forall|i: int| 0 <= i < n implies is_attribute(c, #[trigger] props[i], parts[i]) by {}
        assert forall|i: int| 0 <= i < parts.len() implies occurs_at(text, #[trigger] parts[i], at[i]) by {
            if i < n - 1 {
                assert(occurs_at(text, olds[i], old[i]));
            }
        }
        if n > 1 {
            assert(old.last() == old[n - 2] && olds.last() == olds[n - 2]);
        }
        assert forall|i: int| 0 <= i < parts.len() - 1 implies at[i + 1] == #[trigger] at[i]
            + parts[i].len() + Seq::<char>::empty().len() && occurs_at(
            text,
            Seq::<char>::empty(),
            at[i] + parts[i].len(),
        ) by {
            assert(occurs_at(text, parts[i], at[i]));
            assert(text.subrange(at[i] + parts[i].len(), at[i] + parts[i].len()) =~= Seq::<char>::empty());
            if i < n - 2 {
                assert(old[i + 1] == old[i] + olds[i].len() + Seq::<char>::empty().len());
            }
        }
        assert(at.last() == at[n - 1] && parts.last() == parts[n - 1]);
        (parts, at)
    }
}

/// An element is its name, all its attributes in their order, and its children between the opening and the
/// closing tag, which have one name; without children it closes itself.
pub proof fn lemma_element_reads(
    c: Ctx,
    tag: JsxTag,
    props: Vec<JsxAttribute>,
    children: Option<Vec<Place>>,
) -> (r: (Seq<Seq<char>>, Seq<int>, int))
    requires
        !(tag is Fragment),
    ensures
        ({
            let e = plain_expr(c, InstructionValue::JsxExpression { tag, props, children });
            let name = match tag {
                JsxTag::BuiltinTag(s) => s@,
                JsxTag::Component(p) => place_text(c, p),
                JsxTag::Fragment => Seq::empty(),
            };
            let kids = match children {
                Some(k) => k@,
                None => Seq::empty(),
            };
            let head = seq!['<'] + name;
            let tail = if kids.len() == 0 {
                seq![' ', '/', '>']
            } else {
                seq!['>'] + children_text(c, kids) + seq!['<', '/'] + name + seq!['>']
            };
            let (parts, at, mid) = r;
            &&& parts.len() == props@.len()
            &&& forall|i: int| 0 <= i < props@.len() ==> is_attribute(c, #[trigger] props@[i], parts[i])
            &&& e matches Some(text) && {
                &&& head.len() <= mid <= text.len()
                &&& text.take(head.len() as int) == head
                &&& lists(text, parts, Seq::empty(), at, head.len() as int, mid)
                &&& text.skip(mid) == tail
            }
        }),
{
    reveal_strlit("<");
    reveal_strlit(">");
    reveal_strlit("</");
    reveal_strlit(" />");
    let name = tag_text(c, tag);
    let attrs = attributes_text(c, props@, props@.len() as int);
    let kids = match children {
        Some(k) => k@,
        None => Seq::empty(),
    };
    let head = seq!['<'] + name;
    let tail = if kids.len() == 0 {
        seq![' ', '/', '>']
    } else {
        seq!['>'] + children_text(c, kids) + seq!['<', '/'] + name + seq!['>']
    };
    assert("<"@ =~= seq!['<']);
    assert(">"@ =~= seq!['>']);
    assert("</"@ =~= seq!['<', '/']);
    assert(" />"@ =~= seq![' ', '/', '>']);
    let text = jsx_text(c, tag, props@, children);
    assert(text =~= head + attrs + tail);
    let (parts, at) = lemma_attributes(c, head, props@, props@.len() as int, tail);
    let mid = (head.len() + attrs.len()) as int;
    assert(text.take(head.len() as int) =~= head);
    assert(text.skip(mid) =~= tail);
    (parts, at, mid)
}

} // verus!
