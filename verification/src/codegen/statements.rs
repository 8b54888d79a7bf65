//! How the texts of statements and of object literals read.

use vstd::prelude::*;

use crate::codegen::context::{name_text, operand_text, place_text, Ctx};
use crate::codegen::exprs::{
    has_method, is_method, literal_key_text, member_base, pattern_element_text, pattern_key_text,
    pattern_property_text, pattern_text, plain_expr, plain_stmt, property_text,
};
use crate::codegen::print::{number_text, UNARY_LEVEL};
use crate::codegen::reading::in_parens;
use crate::codegen::structure::{lemma_joined_lists, lists};
use crate::hir::{
    ArrayElement, Instruction, InstructionKind, InstructionValue, ObjectPropertyKey,
    ObjectPropertyOrSpread, Pattern, Place, PropertyLiteral,
};

verus! {

// ---------------------------------------------------------------------------
// Stores
// ---------------------------------------------------------------------------

/// Whether a kind of variable may be declared as a constant: it is never assigned again.
pub open spec fn is_constant(kind: InstructionKind) -> bool {
    match kind {
        InstructionKind::Const => true,
        InstructionKind::HoistedConst => true,
        _ => false,
    }
}

/// Whether a kind stores in a variable that is declared elsewhere.
pub open spec fn only_assigns(kind: InstructionKind) -> bool {
    match kind {
        InstructionKind::Reassign => true,
        InstructionKind::Function => true,
        InstructionKind::HoistedFunction => true,
        _ => false,
    }
}

/// What stands in front of a variable that is declared: `const`, or `let`.
pub open spec fn declaring(constant: bool) -> Seq<char> {
    if constant {
        seq!['c', 'o', 'n', 's', 't', ' ']
    } else {
        seq!['l', 'e', 't', ' ']
    }
}

/// `target = value;` behind `head`.
pub open spec fn assigning(head: Seq<char>, target: Seq<char>, value: Seq<char>) -> Seq<char> {
    head + target + seq![' ', '=', ' '] + value + seq![';']
}

proof fn lemma_assigning(target: Seq<char>, value: Seq<char>)
    ensures
        target + " = "@ + value + ";"@ == assigning(Seq::empty(), target, value),
        "const"@ + " "@ + target + " = "@ + value + ";"@ == assigning(declaring(true), target, value),
        "let"@ + " "@ + target + " = "@ + value + ";"@ == assigning(declaring(false), target, value),
        "let "@ + target + ";"@ == declaring(false) + target + seq![';'],
{
    reveal_strlit(" = ");
    reveal_strlit(";");
    reveal_strlit(" ");
    reveal_strlit("let");
    reveal_strlit("let ");
    reveal_strlit("const");
    assert(" = "@ =~= seq![' ', '=', ' ']);
    assert(";"@ =~= seq![';']);
    assert("let "@ =~= declaring(false));
    assert("let"@ + " "@ =~= declaring(false));
    assert("const"@ + " "@ =~= declaring(true));
    assert(Seq::<char>::empty() + target =~= target);
}

/// A store gives its value to its variable. It declares the variable unless that is declared elsewhere,
/// and as a constant only where it is one. A variable whose value is undefined is declared without one, at
/// most once. A parameter gets its default with the parameters, and has no statement.
pub proof fn lemma_store_stmt_reads(c: Ctx, instr: Instruction)
    requires
        instr.value is StoreLocal,
    ensures
        ({
            let lvalue = instr.value->StoreLocal_lvalue;
            let identifier = lvalue.place.identifier;
            let name = name_text(c, identifier);
            let value = place_text(c, instr.value->StoreLocal_value);
            let stmt = plain_stmt(c, instr);
            let assigned = c.promoted.contains(identifier.id.0) || only_assigns(lvalue.kind);
            if c.param_defaults.contains(identifier.id.0) {
                stmt is None
            } else if assigned {
                stmt == Some(assigning(Seq::empty(), name, value))
            } else if value == "undefined"@ {
                if c.declared.contains(name) {
                    stmt is None
                } else {
                    stmt == Some(declaring(false) + name + seq![';'])
                }
            } else {
                stmt == Some(assigning(declaring(is_constant(lvalue.kind)), name, value))
            }
        }),
{
    let lvalue = instr.value->StoreLocal_lvalue;
    lemma_assigning(
        name_text(c, lvalue.place.identifier),
        place_text(c, instr.value->StoreLocal_value),
    );
    reveal_strlit("");
}

/// A variable is declared without a value where nothing has declared it and no `catch` does.
pub proof fn lemma_declare_stmt_reads(c: Ctx, instr: Instruction)
    requires
        instr.value is DeclareLocal,
    ensures
        ({
            let lvalue = instr.value->DeclareLocal_lvalue;
            let name = name_text(c, lvalue.place.identifier);
            plain_stmt(c, instr) == if lvalue.kind == InstructionKind::Catch || c.declared.contains(
                name,
            ) {
                None
            } else {
                Some(declaring(false) + name + seq![';'])
            }
        }),
{
    let lvalue = instr.value->DeclareLocal_lvalue;
    lemma_assigning(name_text(c, lvalue.place.identifier), Seq::empty());
}

/// A property is stored by an assignment to the text by which it is loaded.
pub proof fn lemma_property_store_reads(c: Ctx, instr: Instruction)
    requires
        instr.value is PropertyStore || instr.value is ComputedStore,
    ensures
        match instr.value {
            InstructionValue::PropertyStore { object, property, value } => {
                let load = plain_expr(
                    c,
                    InstructionValue::PropertyLoad { object, property, optional: false },
                );
                &&& load is Some
                &&& plain_stmt(c, instr) == Some(
                    assigning(Seq::empty(), load->0, place_text(c, value)),
                )
            },
            InstructionValue::ComputedStore { object, property, value } => {
                let load = plain_expr(
                    c,
                    InstructionValue::ComputedLoad { object, property, optional: false },
                );
                &&& load is Some
                &&& plain_stmt(c, instr) == Some(
                    assigning(Seq::empty(), load->0, place_text(c, value)),
                )
            },
            _ => true,
        },
{
    match instr.value {
        InstructionValue::PropertyStore { object, property, value } => {
            let load = plain_expr(
                c,
                InstructionValue::PropertyLoad { object, property, optional: false },
            );
            lemma_assigning(load->0, place_text(c, value));
        },
        InstructionValue::ComputedStore { object, property, value } => {
            let load = plain_expr(
                c,
                InstructionValue::ComputedLoad { object, property, optional: false },
            );
            lemma_assigning(load->0, place_text(c, value));
        },
        _ => {},
    }
}

/// A global is stored by an assignment to its name.
pub proof fn lemma_global_store_reads(c: Ctx, instr: Instruction)
    requires
        instr.value is StoreGlobal,
    ensures
        plain_stmt(c, instr) == Some(
            assigning(
                Seq::empty(),
                instr.value->StoreGlobal_name@,
                place_text(c, instr.value->StoreGlobal_value),
            ),
        ),
{
    lemma_assigning(
        instr.value->StoreGlobal_name@,
        place_text(c, instr.value->StoreGlobal_value),
    );
}

// ---------------------------------------------------------------------------
// Effects
// ---------------------------------------------------------------------------

/// Whether an instruction does something besides giving a value.
pub open spec fn acts(value: InstructionValue) -> bool {
    match value {
        InstructionValue::CallExpression { .. } => true,
        InstructionValue::MethodCall { .. } => true,
        InstructionValue::NewExpression { .. } => true,
        InstructionValue::PropertyDelete { .. } => true,
        InstructionValue::ComputedDelete { .. } => true,
        InstructionValue::PrefixUpdate { .. } => true,
        InstructionValue::PostfixUpdate { .. } => true,
        InstructionValue::TaggedTemplateExpression { .. } => true,
        InstructionValue::Await { .. } => true,
        _ => false,
    }
}

/// What an instruction does is not lost and not done twice: where no other instruction reads its result,
/// its expression is a statement of its own; where one does, it is written there only.
pub proof fn lemma_effect_is_written_once(c: Ctx, instr: Instruction)
    requires
        acts(instr.value),
        instr.lvalue.identifier.name is None,
    ensures
        plain_expr(c, instr.value) is Some,
        plain_stmt(c, instr) == if c.consumed.contains(instr.lvalue.identifier.id.0) {
            None
        } else {
            Some(plain_expr(c, instr.value)->0 + seq![';'])
        },
{
    reveal_strlit(";");
    assert(";"@ =~= seq![';']);
}

/// A store to a property or to a global is always written.
pub proof fn lemma_outer_store_is_written(c: Ctx, instr: Instruction)
    requires
        instr.value is PropertyStore || instr.value is ComputedStore || instr.value is StoreGlobal
            || instr.value is Debugger,
    ensures
        plain_stmt(c, instr) is Some,
{
}

/// A value that only names, loads or builds something has no statement of its own.
pub proof fn lemma_plain_value_has_no_statement(c: Ctx, instr: Instruction)
    requires
        instr.value is Primitive || instr.value is LoadLocal || instr.value is LoadGlobal
            || instr.value is ArrayExpression || instr.value is ObjectExpression
            || instr.value is BinaryExpression || instr.value is UnaryExpression
            || instr.value is JsxExpression || instr.value is JsxFragment,
    ensures
        plain_stmt(c, instr) is None,
        plain_expr(c, instr.value) is Some,
{
}

// ---------------------------------------------------------------------------
// Members
// ---------------------------------------------------------------------------

/// An element is loaded from its object by its key in brackets, or behind a dot by the name between its
/// quotes.
pub proof fn lemma_computed_load_reads(c: Ctx, object: Place, property: Place, optional: bool)
    ensures
        ({
            let e = plain_expr(c, InstructionValue::ComputedLoad { object, property, optional });
            let o = member_base(c, object);
            let key = place_text(c, property);
            let dot = if optional {
                seq!['?', '.']
            } else {
                Seq::empty()
            };
            let by_key = o + dot + seq!['['] + key + seq![']'];
            let by_name = o + if optional {
                seq!['?', '.']
            } else {
                seq!['.']
            } + key.subrange(1, key.len() - 1);
            &&& e == Some(by_key) || (key.len() >= 2 && key[0] == key.last() && (key[0] == '"'
                || key[0] == '\'') && e == Some(by_name))
        }),
{
    reveal_strlit("?.");
    reveal_strlit(".");
    reveal_strlit("?.[");
    reveal_strlit("[");
    reveal_strlit("]");
    assert("?."@ =~= seq!['?', '.']);
    assert("."@ =~= seq!['.']);
    assert("]"@ =~= seq![']']);
    let o = member_base(c, object);
    assert(o + "?.["@ =~= o + seq!['?', '.'] + seq!['[']);
    assert(o + "["@ =~= o + Seq::<char>::empty() + seq!['[']);
}

/// A deletion is `delete` in front of what is deleted; an awaited value stands behind `await`.
pub proof fn lemma_delete_reads(c: Ctx, object: Place, property: PropertyLiteral, value: Place)
    ensures
        ({
            let load = plain_expr(
                c,
                InstructionValue::PropertyLoad { object, property, optional: false },
            )->0;
            let awaited = plain_expr(c, InstructionValue::Await { value })->0;
            let rest = awaited.skip(6);
            &&& plain_expr(c, InstructionValue::PropertyDelete { object, property }) == Some(
                seq!['d', 'e', 'l', 'e', 't', 'e', ' '] + load,
            )
            &&& awaited.take(6) == seq!['a', 'w', 'a', 'i', 't', ' ']
            &&& rest == place_text(c, value) || in_parens(rest, place_text(c, value))
        }),
{
    reveal_strlit("delete ");
    reveal_strlit("await ");
    reveal_strlit("(");
    reveal_strlit(")");
    assert("delete "@ =~= seq!['d', 'e', 'l', 'e', 't', 'e', ' ']);
    let awaited = plain_expr(c, InstructionValue::Await { value })->0;
    let v = place_text(c, value);
    assert(awaited.take(6) =~= seq!['a', 'w', 'a', 'i', 't', ' ']);
    let wrapped = "("@ + v + ")"@;
    assert(wrapped.subrange(1, wrapped.len() - 1) =~= v);
    let operand = operand_text(c, value, UNARY_LEVEL as int);
    assert(awaited.skip(6) =~= operand);
}

// ---------------------------------------------------------------------------
// Patterns
// ---------------------------------------------------------------------------

/// Whether a text binds an item of an array pattern.
pub open spec fn binds_item(c: Ctx, e: ArrayElement, t: Seq<char>) -> bool {
    match e {
        ArrayElement::Place(p) => t == name_text(c, p.identifier),
        ArrayElement::Spread(p) => t == seq!['.', '.', '.'] + name_text(c, p.identifier),
        ArrayElement::Hole => t.len() == 0,
    }
}

/// Whether a text spells a key of a pattern: its name, or its text between quotes, or its number, or its
/// value in brackets.
pub open spec fn spells_key(c: Ctx, key: ObjectPropertyKey, t: Seq<char>) -> bool {
    match key {
        ObjectPropertyKey::Identifier(s) => t == s@,
        ObjectPropertyKey::String(s) => t == s@ || (t.len() == s@.len() + 2 && t[0] == '"' && t.last()
            == '"' && t.subrange(1, t.len() - 1) == s@),
        ObjectPropertyKey::Number(n) => t == number_text(n),
        ObjectPropertyKey::Computed(p) => t == seq!['['] + place_text(c, p) + seq![']'],
    }
}

/// Whether a text binds a property of an object pattern: its key and its variable, or the key alone
/// where both are the same.
pub open spec fn binds_property(c: Ctx, p: ObjectPropertyOrSpread, t: Seq<char>, key: Seq<char>) -> bool {
    match p {
        ObjectPropertyOrSpread::Property(q) => {
            let name = name_text(c, q.place.identifier);
            &&& spells_key(c, q.key, key)
            &&& t == key + seq![':', ' '] + name || (t == key && key == name)
        },
        ObjectPropertyOrSpread::Spread(q) => t == seq!['.', '.', '.'] + place_text(c, q),
    }
}

/// Whether a text is the pattern with the given parts, which are listed in it at `at`.
pub open spec fn is_pattern(
    c: Ctx,
    pattern: Pattern,
    text: Seq<char>,
    parts: Seq<Seq<char>>,
    keys: Seq<Seq<char>>,
    at: Seq<int>,
) -> bool {
    match pattern {
        Pattern::Array(a) => {
            &&& parts.len() == a.items@.len()
            &&& forall|i: int|
                0 <= i < parts.len() ==> binds_item(c, #[trigger] a.items@[i], parts[i])
            &&& text.len() >= 2 && text[0] == '[' && text.last() == ']'
            &&& lists(text, parts, seq![',', ' '], at, 1, text.len() - 1)
        },
        Pattern::Object(o) => {
            &&& parts.len() == o.properties@.len()
            &&& forall|i: int|
                0 <= i < parts.len() ==> binds_property(
                    c,
                    #[trigger] o.properties@[i],
                    parts[i],
                    keys[i],
                )
            &&& text.len() >= 4 && text[0] == '{' && text[1] == ' ' && text[text.len() - 2] == ' '
                && text.last() == '}'
            &&& lists(text, parts, seq![',', ' '], at, 2, text.len() - 2)
        },
    }
}

proof fn lemma_quotes(s: Seq<char>)
    ensures
        ({
            let t = "\""@ + s + "\""@;
            t.len() == s.len() + 2 && t[0] == '"' && t.last() == '"' && t.subrange(1, t.len() - 1) == s
        }),
{
    reveal_strlit("\"");
    let t = "\""@ + s + "\""@;
    assert(t.subrange(1, t.len() - 1) =~= s);
}

/// A pattern binds all its variables, each at its place or behind its key.
pub proof fn lemma_pattern_reads(c: Ctx, pattern: Pattern) -> (r: (
    Seq<Seq<char>>,
    Seq<Seq<char>>,
    Seq<int>,
))
    ensures
        is_pattern(c, pattern, pattern_text(c, pattern), r.0, r.1, r.2),
{
    reveal_strlit("[");
    reveal_strlit("]");
    reveal_strlit("{ ");
    reveal_strlit(" }");
    reveal_strlit(", ");
    reveal_strlit("...");
    reveal_strlit(": ");
    reveal_strlit("");
    assert("..."@ =~= seq!['.', '.', '.']);
    assert(", "@ =~= seq![',', ' ']);
    assert(": "@ =~= seq![':', ' ']);
    assert("["@ =~= seq!['[']);
    assert("]"@ =~= seq![']']);
    match pattern {
        Pattern::Array(a) => {
            let parts = a.items@.map_values(|e: ArrayElement| pattern_element_text(c, e));
            let at = lemma_joined_lists("["@, parts, ", "@, "]"@);
            (parts, parts, at)
        },
        Pattern::Object(o) => {
            let parts = o.properties@.map_values(
                |p: ObjectPropertyOrSpread| pattern_property_text(c, p),
            );
            let keys = o.properties@.map_values(
                |p: ObjectPropertyOrSpread|
                    match p {
                        ObjectPropertyOrSpread::Property(q) => pattern_key_text(c, q.key),
                        ObjectPropertyOrSpread::Spread(_) => Seq::empty(),
                    },
            );
            let at = lemma_joined_lists("{ "@, parts, ", "@, " }"@);
            assert forall|i: int| 0 <= i < parts.len() implies binds_property(
                c,
                #[trigger] o.properties@[i],
                parts[i],
                keys[i],
            ) by {
                if let ObjectPropertyOrSpread::Property(q) = o.properties@[i] {
                    if let ObjectPropertyKey::String(s) = q.key {
                        lemma_quotes(s@);
                    }
                }
            }
            (parts, keys, at)
        },
    }
}

/// A destructuring takes its value apart by its pattern: in a declaration, as a constant unless it may
/// change, or in an assignment, which stands in parentheses where its pattern starts with a brace.
pub proof fn lemma_destructure_stmt_reads(c: Ctx, instr: Instruction)
    requires
        instr.value is Destructure,
    ensures
        ({
            let lvalue = instr.value->Destructure_lvalue;
            let value = instr.value->Destructure_value;
            let pat = pattern_text(c, lvalue.pattern);
            let val = place_text(c, value);
            let stmt = plain_stmt(c, instr);
            if c.param_loads.contains(value.identifier.id.0) {
                stmt is None
            } else if lvalue.kind == InstructionKind::Reassign {
                if lvalue.pattern is Object {
                    stmt == Some(seq!['('] + pat + seq![' ', '=', ' '] + val + seq![')', ';'])
                } else {
                    stmt == Some(assigning(Seq::empty(), pat, val))
                }
            } else {
                ||| stmt == Some(assigning(declaring(false), pat, val))
                ||| stmt == Some(assigning(declaring(true), pat, val)) && lvalue.kind
                    != InstructionKind::Let && lvalue.kind != InstructionKind::HoistedLet
            }
        }),
{
    let lvalue = instr.value->Destructure_lvalue;
    let pat = pattern_text(c, lvalue.pattern);
    let val = place_text(c, instr.value->Destructure_value);
    lemma_assigning(pat, val);
    reveal_strlit("(");
    reveal_strlit(" = ");
    reveal_strlit(");");
    assert("("@ =~= seq!['(']);
    assert(" = "@ =~= seq![' ', '=', ' ']);
    assert(");"@ =~= seq![')', ';']);
}

// ---------------------------------------------------------------------------
// Object literals
// ---------------------------------------------------------------------------

/// Whether a text is a property of an object literal: its value behind its key, or the key alone where
/// both are the same.
pub open spec fn is_property(c: Ctx, p: ObjectPropertyOrSpread, t: Seq<char>) -> bool {
    match p {
        ObjectPropertyOrSpread::Property(q) => {
            let key = literal_key_text(c, q.key);
            let value = place_text(c, q.place);
            t == key + seq![':', ' '] + value || (t == key && key == value)
        },
        ObjectPropertyOrSpread::Spread(q) => t == seq!['.', '.', '.'] + place_text(c, q),
    }
}

/// An object literal without methods has all its properties, in their order.
pub proof fn lemma_object_reads(c: Ctx, properties: Vec<ObjectPropertyOrSpread>) -> (r: (
    Seq<Seq<char>>,
    Seq<int>,
))
    requires
        properties@.len() > 0,
        !has_method(properties@),
    ensures
        ({
            let e = plain_expr(c, InstructionValue::ObjectExpression { properties });
            let (parts, at) = r;
            &&& parts.len() == properties@.len()
            &&& forall|i: int|
                0 <= i < parts.len() ==> is_property(c, #[trigger] properties@[i], parts[i])
            &&& e matches Some(text) && {
                &&& text.len() >= 4 && text[0] == '{' && text[1] == ' '
                &&& text[text.len() - 2] == ' ' && text.last() == '}'
                &&& lists(text, parts, seq![',', ' '], at, 2, text.len() - 2)
            }
        }),
{
    reveal_strlit("{ ");
    reveal_strlit(" }");
    reveal_strlit(", ");
    reveal_strlit("...");
    reveal_strlit(": ");
    assert("..."@ =~= seq!['.', '.', '.']);
    assert(", "@ =~= seq![',', ' ']);
    assert(": "@ =~= seq![':', ' ']);
    let parts = properties@.map_values(|p: ObjectPropertyOrSpread| property_text(c, p));
    let at = lemma_joined_lists("{ "@, parts, ", "@, " }"@);
    assert forall|i: int| 0 <= i < parts.len() implies is_property(
        c,
        #[trigger] properties@[i],
        parts[i],
    ) by {
        assert(!is_method(properties@[i]));
    }
    (parts, at)
}

} // verus!
