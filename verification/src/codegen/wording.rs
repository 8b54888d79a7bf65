//! How the texts of functions, and of expressions inside of others, read.

use vstd::prelude::*;

use crate::codegen::context::{
    branch_text, logical_operand_text, operand_text, parens, place_text, Ctx,
};
use crate::codegen::exprs::{
    callee_text, children_text, constructor_text, declaration_text, expr_level, literal_key_text,
    member_base, plain_expr, quotes, unary_expr, with_written,
};
use crate::codegen::inner::{body_text, directive_text, indented, param_text, params_text};
use crate::codegen::print::{
    binary_precedence, denoted, escaped, lemma_escaped_denotes, left_level, logical_precedence,
    number_text, right_level, utf16, valid_identifier,
};
use crate::codegen::reading::{in_parens, is_operand};
use crate::codegen::structure::{lemma_joined_lists, lists};
use crate::hir::{
    Argument, BinaryOperator, Instruction, InstructionValue, LogicalOperator, ObjectPropertyKey,
    Place, PrimitiveValue, TypeAnnotationKind, UnaryOperator,
};
use crate::text::{has_infix, has_prefix, joined};

verus! {

// ---------------------------------------------------------------------------
// Expressions inside of others
// ---------------------------------------------------------------------------

proof fn lemma_in_parens(e: Seq<char>)
    ensures
        in_parens(parens(e), e),
{
    reveal_strlit("(");
    reveal_strlit(")");
    let t = parens(e);
    assert(t.subrange(1, t.len() - 1) =~= e);
}

/// What is written for an instruction is read where its result is used, and how tightly it binds is known
/// there. No other place reads differently.
pub proof fn lemma_written_reads_back(c: Ctx, instr: Instruction, e: Seq<char>, other: Place)
    ensures
        ({
            let after = with_written(c, instr, Some(e));
            let id = instr.lvalue.identifier.id.0;
            &&& place_text(after, instr.lvalue) == e
            &&& expr_level(c, instr) > 0 ==> after.levels.contains_key(id) && after.levels[id]
                == expr_level(c, instr)
            &&& other.identifier.id.0 != id ==> place_text(after, other) == place_text(c, other)
                && after.levels.contains_key(other.identifier.id.0) == c.levels.contains_key(
                other.identifier.id.0,
            )
            &&& with_written(c, instr, None) == c
        }),
{
}

/// How tightly a binary operator binds in JavaScript: a larger number binds more tightly.
pub open spec fn rank(op: BinaryOperator) -> int {
    match op {
        BinaryOperator::Exp => 9,
        BinaryOperator::Mul => 8,
        BinaryOperator::Div => 8,
        BinaryOperator::Mod => 8,
        BinaryOperator::Add => 7,
        BinaryOperator::Sub => 7,
        BinaryOperator::LShift => 6,
        BinaryOperator::RShift => 6,
        BinaryOperator::URShift => 6,
        BinaryOperator::Lt => 5,
        BinaryOperator::LtEq => 5,
        BinaryOperator::Gt => 5,
        BinaryOperator::GtEq => 5,
        BinaryOperator::In => 5,
        BinaryOperator::InstanceOf => 5,
        BinaryOperator::Eq => 4,
        BinaryOperator::NotEq => 4,
        BinaryOperator::StrictEq => 4,
        BinaryOperator::StrictNotEq => 4,
        BinaryOperator::BitAnd => 3,
        BinaryOperator::BitXor => 2,
        BinaryOperator::BitOr => 1,
    }
}

/// Operators bind as JavaScript has it.
pub proof fn lemma_operators_bind(a: BinaryOperator, b: BinaryOperator, l: LogicalOperator)
    ensures
        binary_precedence(a) < binary_precedence(b) <==> rank(a) < rank(b),
        logical_precedence(l) < binary_precedence(a),
        logical_precedence(LogicalOperator::Or) < logical_precedence(LogicalOperator::And),
{
}

/// A binary expression inside of another one is put in parentheses exactly where it would group
/// otherwise: where it binds less tightly, or as tightly on the side from which the other one does not
/// group.
pub proof fn lemma_nested_binary_groups(
    c: Ctx,
    instr: Instruction,
    e: Seq<char>,
    outer: BinaryOperator,
)
    requires
        instr.value is BinaryExpression,
    ensures
        ({
            let inner = instr.value->BinaryExpression_operator;
            let after = with_written(c, instr, Some(e));
            let p = instr.lvalue;
            &&& is_operand(
                operand_text(after, p, left_level(outer) as int),
                e,
                rank(inner) < rank(outer) || (rank(inner) == rank(outer) && outer
                    == BinaryOperator::Exp),
            )
            &&& is_operand(
                operand_text(after, p, right_level(outer) as int),
                e,
                rank(inner) < rank(outer) || (rank(inner) == rank(outer) && outer
                    != BinaryOperator::Exp),
            )
        }),
{
    lemma_in_parens(e);
    let inner = instr.value->BinaryExpression_operator;
    lemma_operators_bind(inner, outer, LogicalOperator::And);
    lemma_operators_bind(outer, inner, LogicalOperator::And);
}

/// A logical expression inside of another one with a different operator is put in parentheses; so is a
/// conditional, in an operand and in a branch. Inside of a binary expression both are.
pub proof fn lemma_nested_logical_groups(
    c: Ctx,
    instr: Instruction,
    e: Seq<char>,
    outer: LogicalOperator,
    binary: BinaryOperator,
)
    requires
        instr.value is LogicalExpression || instr.value is Ternary,
    ensures
        ({
            let after = with_written(c, instr, Some(e));
            let p = instr.lvalue;
            &&& is_operand(
                logical_operand_text(after, p, logical_precedence(outer)),
                e,
                instr.value is Ternary || instr.value->LogicalExpression_operator != outer,
            )
            &&& in_parens(operand_text(after, p, left_level(binary) as int), e)
            &&& in_parens(operand_text(after, p, right_level(binary) as int), e)
            &&& instr.value is Ternary ==> in_parens(branch_text(after, p), e)
        }),
{
    lemma_in_parens(e);
}

/// A function that is called at once, and a call behind `new`, are put in parentheses; a sign in front of
/// the same sign is kept apart from it.
pub proof fn lemma_called_function_is_wrapped(c: Ctx, p: Place)
    ensures
        has_infix(place_text(c, p), "=>"@) || has_prefix(place_text(c, p), "function"@) ==> in_parens(
            callee_text(c, p),
            place_text(c, p),
        ),
        place_text(c, p).contains('(') ==> in_parens(constructor_text(c, p), place_text(c, p)),
        ({
            let t = unary_expr(c, UnaryOperator::Minus, p);
            t.len() > 1 && t[0] == '-' ==> t[1] != '-'
        }),
        ({
            let t = unary_expr(c, UnaryOperator::Plus, p);
            t.len() > 1 && t[0] == '+' ==> t[1] != '+'
        }),
{
    lemma_in_parens(place_text(c, p));
    reveal_strlit("(");
    reveal_strlit("-");
    reveal_strlit("+");
}

// ---------------------------------------------------------------------------
// Literals
// ---------------------------------------------------------------------------

/// Whether a text is a literal between double quotes that denotes the string.
pub open spec fn denotes_string(t: Seq<char>, s: Seq<char>) -> bool {
    &&& t.len() >= 2 && t[0] == '"' && t.last() == '"'
    &&& denoted(t.subrange(1, t.len() - 1)) == Some(utf16(s))
}

proof fn lemma_quoted_denotes(s: Seq<char>)
    ensures
        denotes_string(quotes(escaped(s)), s),
{
    reveal_strlit("\"");
    lemma_escaped_denotes(s);
    let t = quotes(escaped(s));
    assert(t.subrange(1, t.len() - 1) =~= escaped(s));
}

/// The literal of a primitive value denotes that value.
pub proof fn lemma_primitive_reads(c: Ctx, value: PrimitiveValue)
    ensures
        plain_expr(c, InstructionValue::Primitive { value }) matches Some(t) && match value {
            PrimitiveValue::Null => t == seq!['n', 'u', 'l', 'l'],
            PrimitiveValue::Undefined => t == seq![
                'u',
                'n',
                'd',
                'e',
                'f',
                'i',
                'n',
                'e',
                'd',
            ],
            PrimitiveValue::Boolean(true) => t == seq!['t', 'r', 'u', 'e'],
            PrimitiveValue::Boolean(false) => t == seq!['f', 'a', 'l', 's', 'e'],
            PrimitiveValue::Number(n) => t == number_text(n),
            PrimitiveValue::String(s) => denotes_string(t, s@),
        },
{
    reveal_strlit("null");
    reveal_strlit("undefined");
    reveal_strlit("true");
    reveal_strlit("false");
    assert("null"@ =~= seq!['n', 'u', 'l', 'l']);
    assert("undefined"@ =~= seq!['u', 'n', 'd', 'e', 'f', 'i', 'n', 'e', 'd']);
    assert("true"@ =~= seq!['t', 'r', 'u', 'e']);
    assert("false"@ =~= seq!['f', 'a', 'l', 's', 'e']);
    if let PrimitiveValue::String(s) = value {
        lemma_quoted_denotes(s@);
    }
}

/// The key of a property in an object literal names the property.
pub proof fn lemma_literal_key_reads(c: Ctx, key: ObjectPropertyKey)
    ensures
        ({
            let t = literal_key_text(c, key);
            match key {
                ObjectPropertyKey::Identifier(s) => t == s@,
                ObjectPropertyKey::String(s) => denotes_string(t, s@) || (t == s@ && valid_identifier(
                    s@,
                )),
                ObjectPropertyKey::Number(n) => t == number_text(n),
                ObjectPropertyKey::Computed(p) => t == seq!['['] + place_text(c, p) + seq![']'],
            }
        }),
{
    reveal_strlit("[");
    reveal_strlit("]");
    assert("["@ =~= seq!['[']);
    assert("]"@ =~= seq![']']);
    if let ObjectPropertyKey::String(s) = key {
        lemma_quoted_denotes(s@);
    }
}

// ---------------------------------------------------------------------------
// Functions
// ---------------------------------------------------------------------------

/// The parameters of a function stand in their order, each under its name, the rest behind three dots.
pub proof fn lemma_params_read(params: Seq<Argument>) -> (r: (Seq<Seq<char>>, Seq<int>))
    ensures
        ({
            let (parts, at) = r;
            let text = params_text(params);
            &&& parts.len() == params.len()
            &&& lists(text, parts, seq![',', ' '], at, 0, text.len() as int)
            &&& forall|i: int|
                0 <= i < params.len() ==> match #[trigger] params[i] {
                    Argument::Place(p) => p.identifier.name matches Some(n) ==> parts[i] == n.text(),
                    Argument::Spread(p) => p.identifier.name matches Some(n) ==> parts[i] == seq![
                        '.',
                        '.',
                        '.',
                    ] + n.text(),
                }
        }),
{
    reveal_strlit("...");
    reveal_strlit(", ");
    assert("..."@ =~= seq!['.', '.', '.']);
    assert(", "@ =~= seq![',', ' ']);
    let parts = Seq::new(params.len(), |i: int| param_text(params, i));
    let at = lemma_joined_lists(Seq::empty(), parts, ", "@, Seq::empty());
    assert(Seq::<char>::empty() + joined(parts, ", "@) + Seq::<char>::empty() =~= params_text(params));
    (parts, at)
}

/// A function with the keyword has its name, its parameters and its body, in this order.
pub proof fn lemma_declaration_reads(name: Seq<char>, params: Seq<char>, body: Seq<char>)
    ensures
        ({
            let head = seq!['f', 'u', 'n', 'c', 't', 'i', 'o', 'n', ' '] + name + seq!['('] + params
                + seq![')', ' ', '{'];
            declaration_text(name, params, body) == if body.len() == 0 {
                head + seq!['}']
            } else {
                head + seq!['\n'] + body + seq!['\n', '}']
            }
        }),
{
    reveal_strlit("function ");
    reveal_strlit("(");
    reveal_strlit(") {}");
    reveal_strlit(") {\n");
    reveal_strlit("\n}");
    assert("function "@ =~= seq!['f', 'u', 'n', 'c', 't', 'i', 'o', 'n', ' ']);
    assert("("@ =~= seq!['(']);
    assert("\n}"@ =~= seq!['\n', '}']);
    let front = seq!['f', 'u', 'n', 'c', 't', 'i', 'o', 'n', ' '] + name + seq!['('] + params;
    assert(front + ") {}"@ =~= front + seq![')', ' ', '{'] + seq!['}']);
    assert(front + ") {\n"@ =~= front + seq![')', ' ', '{'] + seq!['\n']);
}

proof fn lemma_statement_line(s: Seq<char>)
    ensures
        indented(s) == seq![' ', ' '] + s,
{
    reveal_strlit("  ");
    assert("  "@ =~= seq![' ', ' ']);
}

proof fn lemma_directive_line(s: Seq<char>)
    ensures
        indented(directive_text(s)) == seq![' ', ' ', '"'] + s + seq!['"', ';'],
{
    lemma_statement_line(directive_text(s));
    reveal_strlit("\"");
    reveal_strlit("\";");
    assert(seq![' ', ' '] + directive_text(s) =~= seq![' ', ' ', '"'] + s + seq!['"', ';']);
}

proof fn lemma_returning_line(s: Seq<char>)
    ensures
        indented("return "@ + s + ";"@) == seq![' ', ' ', 'r', 'e', 't', 'u', 'r', 'n', ' '] + s + seq![
            ';',
        ],
{
    lemma_statement_line("return "@ + s + ";"@);
    reveal_strlit("return ");
    reveal_strlit(";");
    assert(seq![' ', ' '] + ("return "@ + s + ";"@) =~= seq![
        ' ',
        ' ',
        'r',
        'e',
        't',
        'u',
        'r',
        'n',
        ' ',
    ] + s + seq![';']);
}

/// The body of a function has its directives first, then its statements, each on a line of its own and
/// indented, and then returns its value, unless that is undefined.
pub proof fn lemma_body_reads(
    directives: Seq<Seq<char>>,
    stmts: Seq<Seq<char>>,
    ret: Option<Seq<char>>,
) -> (r: (Seq<Seq<char>>, Seq<int>))
    ensures
        ({
            let (parts, at) = r;
            let text = body_text(directives, stmts, ret);
            let valued = ret is Some && ret != Some("undefined"@);
            let d = directives.len() as int;
            let n = d + stmts.len();
            &&& lists(text, parts, seq!['\n'], at, 0, text.len() as int)
            &&& parts.len() == n + if valued {
                1int
            } else {
                0
            }
            &&& forall|i: int|
                0 <= i < d ==> #[trigger] parts[i] == seq![' ', ' ', '"'] + directives[i] + seq![
                    '"',
                    ';',
                ]
            &&& forall|i: int|
                d <= i < n ==> #[trigger] parts[i] == seq![' ', ' '] + stmts[i - d]
            &&& valued ==> parts[n] == seq![' ', ' ', 'r', 'e', 't', 'u', 'r', 'n', ' '] + ret->0
                + seq![';']
        }),
{
    let lines = directives.map_values(|d: Seq<char>| directive_text(d)) + stmts;
    let valued = ret is Some && ret != Some("undefined"@);
    let all = match ret {
        Some(r) => if r == "undefined"@ {
            lines
        } else {
            lines.push("return "@ + r + ";"@)
        },
        None => lines,
    };
    let parts = all.map_values(|l: Seq<char>| indented(l));
    let at = lemma_joined_lists(Seq::empty(), parts, "\n"@, Seq::empty());
    let text = body_text(directives, stmts, ret);
    assert(text == joined(parts, "\n"@));
    assert(Seq::<char>::empty() + joined(parts, "\n"@) + Seq::<char>::empty() =~= text);
    assert("\n"@ == seq!['\n']) by {
        reveal_strlit("\n");
        assert("\n"@ =~= seq!['\n']);
    }
    let d = directives.len() as int;
    let n = d + stmts.len();
    assert forall|i: int| 0 <= i < d implies #[trigger] parts[i] == seq![' ', ' ', '"']
        + directives[i] + seq!['"', ';'] by {
        assert(all[i] == directive_text(directives[i]));
        lemma_directive_line(directives[i]);
    }
    assert forall|i: int| d <= i < n implies #[trigger] parts[i] == seq![' ', ' '] + stmts[i - d] by {
        assert(all[i] == stmts[i - d]);
        lemma_statement_line(stmts[i - d]);
    }
    if valued {
        assert(all[n] == "return "@ + ret->0 + ";"@);
        lemma_returning_line(ret->0);
    }
    (parts, at)
}

// ---------------------------------------------------------------------------
// Other expressions
// ---------------------------------------------------------------------------

/// A regular expression stands between slashes with its flags behind it; a tagged template has its text
/// between backquotes behind its tag; a fragment has its children between empty tags.
pub proof fn lemma_other_texts_read(
    c: Ctx,
    pattern: String,
    flags: String,
    tag: Place,
    raw: String,
    cooked: Option<String>,
    children: Vec<Place>,
)
    ensures
        plain_expr(c, InstructionValue::RegExpLiteral { pattern, flags }) == Some(
            seq!['/'] + pattern@ + seq!['/'] + flags@,
        ),
        plain_expr(c, InstructionValue::TaggedTemplateExpression { tag, raw, cooked }) == Some(
            member_base(c, tag) + seq!['`'] + raw@ + seq!['`'],
        ),
        children@.len() > 0 ==> plain_expr(c, InstructionValue::JsxFragment { children }) == Some(
            seq!['<', '>'] + children_text(c, children@) + seq!['<', '/', '>'],
        ),
        children@.len() == 0 ==> plain_expr(c, InstructionValue::JsxFragment { children }) == Some(
            seq!['<', '>', '<', '/', '>'],
        ),
{
    reveal_strlit("/");
    reveal_strlit("`");
    reveal_strlit("<>");
    reveal_strlit("</>");
    reveal_strlit("<></>");
    assert("/"@ =~= seq!['/']);
    assert("`"@ =~= seq!['`']);
    assert("<>"@ =~= seq!['<', '>']);
    assert("</>"@ =~= seq!['<', '/', '>']);
    assert("<></>"@ =~= seq!['<', '>', '<', '/', '>']);
}

/// A value is cast to the type that is written behind it.
pub proof fn lemma_cast_reads(c: Ctx, value: Place, type_annotation: String, type_annotation_kind: TypeAnnotationKind)
    ensures
        ({
            let e = plain_expr(
                c,
                InstructionValue::TypeCastExpression { value, type_annotation, type_annotation_kind },
            );
            let v = operand_text(c, value, binary_precedence(BinaryOperator::In) as int);
            match type_annotation_kind {
                TypeAnnotationKind::As => e == Some(v + seq![' ', 'a', 's', ' '] + type_annotation@),
                TypeAnnotationKind::Satisfies => e == Some(
                    v + seq![' ', 's', 'a', 't', 'i', 's', 'f', 'i', 'e', 's', ' ']
                        + type_annotation@,
                ),
                TypeAnnotationKind::Cast => e == Some(
                    seq!['('] + place_text(c, value) + seq![':', ' '] + type_annotation@ + seq![')'],
                ),
            }
        }),
{
    reveal_strlit(" as ");
    reveal_strlit(" satisfies ");
    reveal_strlit("(");
    reveal_strlit(": ");
    reveal_strlit(")");
    assert(" as "@ =~= seq![' ', 'a', 's', ' ']);
    assert(" satisfies "@ =~= seq![' ', 's', 'a', 't', 'i', 's', 'f', 'i', 'e', 's', ' ']);
    assert("("@ =~= seq!['(']);
    assert(": "@ =~= seq![':', ' ']);
    assert(")"@ =~= seq![')']);
}

} // verus!
