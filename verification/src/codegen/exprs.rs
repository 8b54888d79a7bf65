//! How instructions are written as expressions and statements, apart from the bodies of nested
//! functions.

use vstd::prelude::*;

use crate::codegen::context::{
    arguments_text, branch_text, logical_operand_text, method_text, name_text, operand_text, parens,
    place_text, quoted, strip_quotes, unquoted, Context, Ctx,
};
use crate::codegen::print::{
    all_word_chars, binary_op_precedence, binary_op_str, binary_precedence, binary_text,
    escape_js_string, escaped, format_number, has_only_word_chars, instr_precedence,
    is_valid_identifier, left_level, logical_op_precedence, logical_op_str, logical_precedence,
    logical_text, number_text, operand_levels, right_level, unary_op_str, unary_text, update_op_str,
    update_text, valid_identifier, value_precedence, ARROW_LEVEL, OBJECT_LEVEL, UNARY_LEVEL,
};
use crate::hir::{
    ArrayElement, BinaryOperator, FunctionExpressionType, Instruction, InstructionKind,
    InstructionValue, JsxAttribute, JsxTag, ObjectPropertyKey, ObjectPropertyOrSpread,
    ObjectPropertyType, Pattern, Place, PrimitiveValue, PropertyLiteral, TemplateQuasi,
    TypeAnnotationKind, UnaryOperator,
};
use crate::text::{
    cat2, cat3, cat4, cat5, cat6, chars_find, chars_of, contains, contains_char, ends_with_char,
    find_from, first_is, from_chars, has_infix, has_prefix, join, joined, last_is, lines, lines_of,
    owned, push_char, same, skip_chars, starts_with, starts_with_char, strip_prefixes,
    strip_trailing, texts, trim, trim_end, trim_left, trim_right, trim_start, trimmed,
    without_prefixes, without_trailing,
};

verus! {

broadcast use crate::text::group_texts;

// ---------------------------------------------------------------------------
// Primitives and object literals
// ---------------------------------------------------------------------------

pub open spec fn bool_text(b: bool) -> Seq<char> {
    if b {
        "true"@
    } else {
        "false"@
    }
}

/// `s` in double quotes.
pub open spec fn quotes(s: Seq<char>) -> Seq<char> {
    "\""@ + s + "\""@
}

pub open spec fn primitive_text(value: PrimitiveValue) -> Seq<char> {
    match value {
        PrimitiveValue::Null => "null"@,
        PrimitiveValue::Undefined => "undefined"@,
        PrimitiveValue::Boolean(b) => bool_text(b),
        PrimitiveValue::Number(n) => number_text(n),
        PrimitiveValue::String(s) => quotes(escaped(s@)),
    }
}

pub fn primitive_str(value: &PrimitiveValue) -> (r: String)
    ensures
        r@ == primitive_text(*value),
{
    match value {
        PrimitiveValue::Null => owned("null"),
        PrimitiveValue::Undefined => owned("undefined"),
        PrimitiveValue::Boolean(b) => if *b {
            owned("true")
        } else {
            owned("false")
        },
        PrimitiveValue::Number(n) => format_number(n),
        PrimitiveValue::String(s) => {
            let e = escape_js_string(s);
            cat3("\"", &e, "\"")
        },
    }
}

pub open spec fn element_text(c: Ctx, e: ArrayElement) -> Seq<char> {
    match e {
        ArrayElement::Place(p) => place_text(c, p),
        ArrayElement::Spread(p) => "..."@ + place_text(c, p),
        ArrayElement::Hole => ""@,
    }
}

pub open spec fn array_text(c: Ctx, elements: Seq<ArrayElement>) -> Seq<char> {
    "["@ + joined(elements.map_values(|e: ArrayElement| element_text(c, e)), ", "@) + "]"@
}

pub open spec fn literal_key_text(c: Ctx, key: ObjectPropertyKey) -> Seq<char> {
    match key {
        ObjectPropertyKey::Identifier(s) => s@,
        ObjectPropertyKey::String(s) => if valid_identifier(s@) {
            s@
        } else {
            quotes(escaped(s@))
        },
        ObjectPropertyKey::Number(n) => number_text(n),
        ObjectPropertyKey::Computed(p) => "["@ + place_text(c, p) + "]"@,
    }
}

/// The parameters and the body of a function text: what stands from its first parenthesis on.
pub open spec fn method_tail(value: Seq<char>) -> Option<Seq<char>> {
    if has_prefix(value, "function"@) {
        let rest = trim_start(value.skip(8));
        match find_from(rest, "("@, 0) {
            Some(i) => Some(rest.skip(i)),
            None => None,
        }
    } else {
        None
    }
}

pub open spec fn property_text(c: Ctx, prop: ObjectPropertyOrSpread) -> Seq<char> {
    match prop {
        ObjectPropertyOrSpread::Property(p) => {
            let key = literal_key_text(c, p.key);
            let value = place_text(c, p.place);
            if p.type_ == ObjectPropertyType::Method {
                match method_tail(value) {
                    Some(tail) => key + tail,
                    None => key + ": "@ + value,
                }
            } else if key == value {
                key
            } else {
                key + ": "@ + value
            }
        },
        ObjectPropertyOrSpread::Spread(p) => "..."@ + place_text(c, p),
    }
}

pub open spec fn is_method(prop: ObjectPropertyOrSpread) -> bool {
    prop matches ObjectPropertyOrSpread::Property(p) && p.type_ == ObjectPropertyType::Method
}

pub open spec fn has_method(props: Seq<ObjectPropertyOrSpread>) -> bool {
    exists|i: int| 0 <= i < props.len() && is_method(#[trigger] props[i])
}

/// The first `n` lines of a property of several lines, indented.
pub open spec fn block_lines(ls: Seq<Seq<char>>, n: int) -> Seq<char>
    decreases n,
{
    if n <= 0 {
        Seq::empty()
    } else {
        let line = ls[n - 1];
        block_lines(ls, n - 1) + if n == ls.len() && trimmed(line) == "}"@ {
            "  },\n"@
        } else if n == 1 {
            "  "@ + line + "\n"@
        } else {
            "    "@ + trimmed(line) + "\n"@
        }
    }
}

/// A property of an object literal that is written over several lines.
pub open spec fn property_block(prop: Seq<char>) -> Seq<char> {
    let ls = lines_of(prop);
    if ls.len() == 1 {
        "  "@ + prop + ",\n"@
    } else {
        block_lines(ls, ls.len() as int)
    }
}

/// The first `n` properties, each on lines of its own.
pub open spec fn property_blocks(props: Seq<Seq<char>>, n: int) -> Seq<char>
    decreases n,
{
    if n <= 0 {
        "{\n"@
    } else {
        property_blocks(props, n - 1) + property_block(props[n - 1])
    }
}

pub open spec fn object_text(c: Ctx, properties: Seq<ObjectPropertyOrSpread>) -> Seq<char> {
    let props = properties.map_values(|p: ObjectPropertyOrSpread| property_text(c, p));
    if props.len() == 0 {
        "{}"@
    } else if has_method(properties) {
        property_blocks(props, props.len() as int) + "}"@
    } else {
        "{ "@ + joined(props, ", "@) + " }"@
    }
}

fn property_block_str(prop: &str) -> (r: String)
    ensures
        r@ == property_block(prop@),
{
    let ls = lines(prop);
    if ls.len() == 1 {
        return cat3("  ", prop, ",\n");
    }
    let mut out = String::new();
    let mut i: usize = 0;
    while i < ls.len()
        invariant
            i <= ls@.len(),
            texts(ls@) == lines_of(prop@),
            out@ == block_lines(lines_of(prop@), i as int),
        decreases ls@.len() - i,
    {
        let t = trim(&ls[i]);
        assert(ls@[i as int]@ == lines_of(prop@)[i as int]);
        let piece = if i == ls.len() - 1 && same(&t, "}") {
            owned("  },\n")
        } else if i == 0 {
            cat3("  ", &ls[i], "\n")
        } else {
            cat3("    ", &t, "\n")
        };
        out.append(&piece);
        i = i + 1;
    }
    out
}

// ---------------------------------------------------------------------------
// JSX
// ---------------------------------------------------------------------------

/// Printable ASCII that needs no escape in an attribute.
pub open spec fn simple_attribute_char(ch: char) -> bool {
    ' ' <= ch <= '~' && ch != '\\' && ch != '{' && ch != '}'
}

pub open spec fn simple_attribute(value: Seq<char>) -> bool {
    quoted(value) && forall|i: int|
        0 <= i < unquoted(value).len() ==> simple_attribute_char(#[trigger] unquoted(value)[i])
}

pub open spec fn attribute_text(c: Ctx, attr: JsxAttribute) -> Seq<char> {
    match attr {
        JsxAttribute::Attribute { name, place } => {
            let value = place_text(c, place);
            if simple_attribute(value) {
                " "@ + name@ + "="@ + value
            } else {
                " "@ + name@ + "={"@ + value + "}"@
            }
        },
        JsxAttribute::SpreadAttribute { argument } => " {..."@ + place_text(c, argument) + "}"@,
    }
}

/// The first `n` attributes.
pub open spec fn attributes_text(c: Ctx, props: Seq<JsxAttribute>, n: int) -> Seq<char>
    decreases n,
{
    if n <= 0 {
        Seq::empty()
    } else {
        attributes_text(c, props, n - 1) + attribute_text(c, props[n - 1])
    }
}

/// A child: text and elements as they are, another expression in braces.
pub open spec fn child_text(c: Ctx, p: Place) -> Seq<char> {
    let id = p.identifier.id.0;
    if c.text_ids.contains(id) || c.element_ids.contains(id) {
        place_text(c, p)
    } else {
        "{"@ + place_text(c, p) + "}"@
    }
}

/// A blank and the first `n` children, each followed by a blank unless it ends with one.
pub open spec fn spaced(parts: Seq<Seq<char>>, n: int) -> Seq<char>
    decreases n,
{
    if n <= 0 {
        " "@
    } else {
        let r = spaced(parts, n - 1) + parts[n - 1];
        if last_is(r, ' ') {
            r
        } else {
            r.push(' ')
        }
    }
}

pub open spec fn has_text_child(c: Ctx, kids: Seq<Place>) -> bool {
    exists|i: int| 0 <= i < kids.len() && c.text_ids.contains((#[trigger] kids[i]).identifier.id.0)
}

pub open spec fn has_element_child(c: Ctx, kids: Seq<Place>) -> bool {
    exists|i: int|
        0 <= i < kids.len() && c.element_ids.contains((#[trigger] kids[i]).identifier.id.0)
}

/// The children of an element. Text brings its own blanks; else blanks are put round the children,
/// unless there is one child that is no element.
pub open spec fn children_text(c: Ctx, kids: Seq<Place>) -> Seq<char> {
    let parts = kids.map_values(|p: Place| child_text(c, p));
    if parts.len() == 0 {
        ""@
    } else if has_text_child(c, kids) {
        joined(parts, ""@)
    } else if parts.len() == 1 && !has_element_child(c, kids) {
        parts[0]
    } else {
        spaced(parts, parts.len() as int)
    }
}

pub open spec fn tag_text(c: Ctx, tag: JsxTag) -> Seq<char> {
    match tag {
        JsxTag::BuiltinTag(name) => name@,
        JsxTag::Component(place) => place_text(c, place),
        JsxTag::Fragment => ""@,
    }
}

pub open spec fn fragment_text(c: Ctx, kids: Seq<Place>) -> Seq<char> {
    if kids.len() == 0 {
        "<></>"@
    } else {
        "<>"@ + children_text(c, kids) + "</>"@
    }
}

pub open spec fn jsx_text(
    c: Ctx,
    tag: JsxTag,
    props: Seq<JsxAttribute>,
    children: Option<Vec<Place>>,
) -> Seq<char> {
    let name = tag_text(c, tag);
    let attrs = attributes_text(c, props, props.len() as int);
    let kids = match children {
        Some(k) => k@,
        None => Seq::empty(),
    };
    if tag is Fragment {
        fragment_text(c, kids)
    } else if kids.len() == 0 {
        "<"@ + name + attrs + " />"@
    } else {
        "<"@ + name + attrs + ">"@ + children_text(c, kids) + "</"@ + name + ">"@
    }
}

// ---------------------------------------------------------------------------
// Patterns
// ---------------------------------------------------------------------------

pub open spec fn pattern_element_text(c: Ctx, e: ArrayElement) -> Seq<char> {
    match e {
        ArrayElement::Place(p) => name_text(c, p.identifier),
        ArrayElement::Spread(p) => "..."@ + name_text(c, p.identifier),
        ArrayElement::Hole => ""@,
    }
}

pub open spec fn pattern_array_text(c: Ctx, items: Seq<ArrayElement>) -> Seq<char> {
    "["@ + joined(items.map_values(|e: ArrayElement| pattern_element_text(c, e)), ", "@) + "]"@
}

pub open spec fn pattern_key_text(c: Ctx, key: ObjectPropertyKey) -> Seq<char> {
    match key {
        ObjectPropertyKey::String(s) => if all_word_chars(s@) {
            s@
        } else {
            quotes(s@)
        },
        ObjectPropertyKey::Identifier(s) => s@,
        ObjectPropertyKey::Number(n) => number_text(n),
        ObjectPropertyKey::Computed(p) => "["@ + place_text(c, p) + "]"@,
    }
}

/// `key: name`, or the key alone where both are the same.
pub open spec fn keyed(key: Seq<char>, name: Seq<char>) -> Seq<char> {
    if key == name {
        key
    } else {
        key + ": "@ + name
    }
}

pub open spec fn pattern_property_text(c: Ctx, prop: ObjectPropertyOrSpread) -> Seq<char> {
    match prop {
        ObjectPropertyOrSpread::Property(p) => keyed(
            pattern_key_text(c, p.key),
            name_text(c, p.place.identifier),
        ),
        ObjectPropertyOrSpread::Spread(place) => "..."@ + place_text(c, place),
    }
}

/// A pattern on the left of a destructuring assignment.
pub open spec fn pattern_text(c: Ctx, pattern: Pattern) -> Seq<char> {
    match pattern {
        Pattern::Array(arr) => pattern_array_text(c, arr.items@),
        Pattern::Object(obj) => "{ "@ + joined(
            obj.properties@.map_values(|p: ObjectPropertyOrSpread| pattern_property_text(c, p)),
            ", "@,
        ) + " }"@,
    }
}

pub open spec fn loop_key_text(c: Ctx, key: ObjectPropertyKey) -> Seq<char> {
    match key {
        ObjectPropertyKey::String(s) => s@,
        ObjectPropertyKey::Identifier(s) => s@,
        ObjectPropertyKey::Number(n) => n.display@,
        ObjectPropertyKey::Computed(p) => "["@ + place_text(c, p) + "]"@,
    }
}

pub open spec fn loop_property_text(c: Ctx, prop: ObjectPropertyOrSpread) -> Seq<char> {
    match prop {
        ObjectPropertyOrSpread::Property(p) => keyed(
            loop_key_text(c, p.key),
            name_text(c, p.place.identifier),
        ),
        ObjectPropertyOrSpread::Spread(place) => "..."@ + name_text(c, place.identifier),
    }
}

/// A pattern in the head of a `for` loop.
pub open spec fn loop_pattern_text(c: Ctx, pattern: Pattern) -> Seq<char> {
    match pattern {
        Pattern::Array(arr) => pattern_array_text(c, arr.items@),
        Pattern::Object(obj) => "{ "@ + joined(
            obj.properties@.map_values(|p: ObjectPropertyOrSpread| loop_property_text(c, p)),
            ", "@,
        ) + " }"@,
    }
}

// ---------------------------------------------------------------------------
// Expressions
// ---------------------------------------------------------------------------

/// The first `n` pieces of a template literal, each with the expression behind it.
pub open spec fn template_text(
    c: Ctx,
    quasis: Seq<TemplateQuasi>,
    subexprs: Seq<Place>,
    n: int,
) -> Seq<char>
    decreases n,
{
    if n <= 0 {
        "`"@
    } else {
        let r = template_text(c, quasis, subexprs, n - 1) + quasis[n - 1].raw@;
        if n <= subexprs.len() {
            r + "${"@ + place_text(c, subexprs[n - 1]) + "}"@
        } else {
            r
        }
    }
}

/// A template literal. One without expressions becomes a plain string where its text allows.
pub open spec fn template_expr(c: Ctx, quasis: Seq<TemplateQuasi>, subexprs: Seq<Place>) -> Seq<char> {
    if subexprs.len() == 0 && quasis.len() == 1 && !quasis[0].raw@.contains('`') && !has_infix(
        quasis[0].raw@,
        "${"@,
    ) {
        quotes(quasis[0].raw@)
    } else {
        template_text(c, quasis, subexprs, quasis.len() as int) + "`"@
    }
}

/// A callee that is a function expression is put in parentheses.
pub open spec fn callee_text(c: Ctx, callee: Place) -> Seq<char> {
    let s = place_text(c, callee);
    if has_infix(s, "=>"@) || has_prefix(s, "function"@) {
        parens(s)
    } else {
        member_base(c, callee)
    }
}

/// The expression for a place as the object of a member access.
pub open spec fn member_base(c: Ctx, p: Place) -> Seq<char> {
    operand_text(c, p, OBJECT_LEVEL as int)
}

/// What stands behind `new`: a call in it is put in parentheses too.
pub open spec fn constructor_text(c: Ctx, callee: Place) -> Seq<char> {
    let s = place_text(c, callee);
    if s.contains('(') {
        parens(s)
    } else {
        member_base(c, callee)
    }
}

/// A unary operator and its operand. A sign before the same sign is set off by parentheses.
pub open spec fn unary_expr(c: Ctx, operator: UnaryOperator, value: Place) -> Seq<char> {
    let v = operand_text(c, value, UNARY_LEVEL as int);
    if (operator == UnaryOperator::Minus && first_is(v, '-')) || (operator == UnaryOperator::Plus
        && first_is(v, '+')) {
        unary_text(operator) + parens(v)
    } else {
        unary_text(operator) + v
    }
}

/// How tightly the expression for an instruction binds; 0 for one that needs no parentheses.
pub open spec fn expr_level(c: Ctx, instr: Instruction) -> u8 {
    match instr.value {
        InstructionValue::Primitive { value } => match value {
            PrimitiveValue::Number(n) => if first_is(number_text(n), '-') {
                UNARY_LEVEL
            } else {
                0
            },
            _ => 0,
        },
        InstructionValue::TypeCastExpression { type_annotation_kind, .. } => {
            if type_annotation_kind == TypeAnnotationKind::Cast {
                0
            } else {
                binary_precedence(BinaryOperator::In)
            }
        },
        InstructionValue::StoreLocal { value, .. } => if c.levels.contains_key(
            value.identifier.id.0,
        ) {
            c.levels[value.identifier.id.0]
        } else {
            0
        },
        InstructionValue::FunctionExpression { expr_type, .. } => {
            if expr_type == FunctionExpressionType::ArrowFunctionExpression
                && !c.outlined.contains_key(instr.lvalue.identifier.id.0) {
                ARROW_LEVEL
            } else {
                0
            }
        },
        _ => value_precedence(instr.value),
    }
}

/// The context after an instruction has been written as `expr`: how tightly that binds is noted with
/// it.
pub open spec fn with_written(c: Ctx, instr: Instruction, expr: Option<Seq<char>>) -> Ctx {
    let id = instr.lvalue.identifier.id.0;
    match expr {
        Some(e) => Ctx {
            exprs: c.exprs.insert(id, e),
            levels: if expr_level(c, instr) > 0 {
                c.levels.insert(id, expr_level(c, instr))
            } else {
                c.levels
            },
            ..c
        },
        None => c,
    }
}

pub open spec fn call_text(callee: Seq<char>, args: Seq<char>, optional: bool) -> Seq<char> {
    if optional {
        callee + "?.("@ + args + ")"@
    } else {
        callee + "("@ + args + ")"@
    }
}

pub open spec fn method_call_text(
    receiver: Seq<char>,
    method: (Seq<char>, bool),
    args: Seq<char>,
    receiver_optional: bool,
    call_optional: bool,
) -> Seq<char> {
    let callee = if method.1 {
        receiver + if receiver_optional {
            "?."@
        } else {
            ""@
        } + "["@ + method.0 + "]"@
    } else {
        receiver + if receiver_optional {
            "?."@
        } else {
            "."@
        } + method.0
    };
    call_text(callee, args, call_optional)
}

pub open spec fn property_load_text(
    object: Seq<char>,
    property: PropertyLiteral,
    optional: bool,
) -> Seq<char> {
    match property {
        PropertyLiteral::String(s) => object + if optional {
            "?."@
        } else {
            "."@
        } + s@,
        PropertyLiteral::Number(n) => object + if optional {
            "?.["@
        } else {
            "["@
        } + number_text(n) + "]"@,
    }
}

/// `object[property]`, with a quoted name written behind a dot.
pub open spec fn computed_load_text(
    object: Seq<char>,
    property: Seq<char>,
    optional: bool,
) -> Seq<char> {
    if quoted(property) && valid_identifier(unquoted(property)) {
        object + if optional {
            "?."@
        } else {
            "."@
        } + unquoted(property)
    } else {
        object + if optional {
            "?.["@
        } else {
            "["@
        } + property + "]"@
    }
}

pub open spec fn type_cast_text(
    c: Ctx,
    value: Place,
    annotation: Seq<char>,
    kind: TypeAnnotationKind,
) -> Seq<char> {
    let v = operand_text(c, value, binary_precedence(BinaryOperator::In) as int);
    match kind {
        TypeAnnotationKind::Cast => "("@ + place_text(c, value) + ": "@ + annotation + ")"@,
        TypeAnnotationKind::As => v + " as "@ + annotation,
        TypeAnnotationKind::Satisfies => v + " satisfies "@ + annotation,
    }
}

/// The expression for an instruction that is no function expression, where it has one.
pub open spec fn plain_expr(c: Ctx, value: InstructionValue) -> Option<Seq<char>> {
    match value {
        InstructionValue::Primitive { value } => Some(primitive_text(value)),
        InstructionValue::ArrayExpression { elements } => Some(array_text(c, elements@)),
        InstructionValue::ObjectExpression { properties } => Some(object_text(c, properties@)),
        InstructionValue::CallExpression { callee, args, optional } => Some(
            call_text(callee_text(c, callee), arguments_text(c, args@), optional),
        ),
        InstructionValue::MethodCall {
            receiver,
            property,
            args,
            receiver_optional,
            call_optional,
        } => Some(
            method_call_text(
                member_base(c, receiver),
                method_text(c, property, member_base(c, receiver)),
                arguments_text(c, args@),
                receiver_optional,
                call_optional,
            ),
        ),
        InstructionValue::BinaryExpression { operator, left, right } => Some(
            operand_text(c, left, left_level(operator) as int) + " "@ + binary_text(operator) + " "@
                + operand_text(c, right, right_level(operator) as int),
        ),
        InstructionValue::UnaryExpression { operator, value } => Some(
            unary_expr(c, operator, value),
        ),
        InstructionValue::LoadLocal { place } => Some(name_text(c, place.identifier)),
        InstructionValue::LoadGlobal { binding } => Some(binding.text()),
        InstructionValue::PropertyLoad { object, property, optional } => Some(
            property_load_text(member_base(c, object), property, optional),
        ),
        InstructionValue::ComputedLoad { object, property, optional } => Some(
            computed_load_text(member_base(c, object), place_text(c, property), optional),
        ),
        InstructionValue::JsxExpression { tag, props, children } => Some(
            jsx_text(c, tag, props@, children),
        ),
        InstructionValue::JsxFragment { children } => Some(fragment_text(c, children@)),
        InstructionValue::TemplateLiteral { subexprs, quasis } => Some(
            template_expr(c, quasis@, subexprs@),
        ),
        InstructionValue::NewExpression { callee, args } => Some(
            "new "@ + constructor_text(c, callee) + "("@ + arguments_text(c, args@) + ")"@,
        ),
        InstructionValue::StoreLocal { value, .. } => Some(place_text(c, value)),
        InstructionValue::JSXText { value } => Some(value@),
        InstructionValue::RegExpLiteral { pattern, flags } => Some(
            "/"@ + pattern@ + "/"@ + flags@,
        ),
        InstructionValue::Await { value } => Some(
            "await "@ + operand_text(c, value, UNARY_LEVEL as int),
        ),
        InstructionValue::PrefixUpdate { value, operation, .. } => Some(
            update_text(operation) + place_text(c, value),
        ),
        InstructionValue::PostfixUpdate { value, operation, .. } => Some(
            place_text(c, value) + update_text(operation),
        ),
        InstructionValue::MetaProperty { meta, property } => Some(meta@ + "."@ + property@),
        InstructionValue::PropertyDelete { object, property } => Some(
            "delete "@ + property_load_text(member_base(c, object), property, false),
        ),
        InstructionValue::ComputedDelete { object, property } => Some(
            "delete "@ + member_base(c, object) + "["@ + place_text(c, property) + "]"@,
        ),
        InstructionValue::TaggedTemplateExpression { tag, raw, .. } => Some(
            member_base(c, tag) + "`"@ + raw@ + "`"@,
        ),
        InstructionValue::Ternary { test, consequent, alternate } => Some(
            operand_text(c, test, 4) + " ? "@ + branch_text(c, consequent) + " : "@ + branch_text(
                c,
                alternate,
            ),
        ),
        InstructionValue::LogicalExpression { operator, left, right } => Some(
            logical_operand_text(c, left, logical_precedence(operator)) + " "@ + logical_text(
                operator,
            ) + " "@ + logical_operand_text(c, right, logical_precedence(operator)),
        ),
        InstructionValue::TypeCastExpression { value, type_annotation, type_annotation_kind } => {
            Some(type_cast_text(c, value, type_annotation@, type_annotation_kind))
        },
        _ => None,
    }
}

/// A function expression with the given parameters and body. An arrow function whose body is one
/// `return` is written with an expression body.
pub open spec fn function_text(
    expr_type: FunctionExpressionType,
    name: Seq<char>,
    params: Seq<char>,
    body: Seq<char>,
) -> Seq<char> {
    match expr_type {
        FunctionExpressionType::ArrowFunctionExpression => {
            let t = trimmed(body);
            if t.len() == 0 {
                "("@ + params + ") => {}"@
            } else if has_prefix(t, "return "@) {
                let e = trim_end(without_trailing(without_prefixes(t, "return "@), ';'));
                if e.contains('\n') {
                    "("@ + params + ") => (\n"@ + e + "\n)"@
                } else if has_infix(e, " ? "@) && has_infix(e, " : "@) {
                    "("@ + params + ") => ("@ + e + ")"@
                } else {
                    "("@ + params + ") => "@ + e
                }
            } else {
                "("@ + params + ") => {\n"@ + body + "\n}"@
            }
        },
        _ => declaration_text(name, params, body),
    }
}

/// A function with the keyword `function`.
pub open spec fn declaration_text(name: Seq<char>, params: Seq<char>, body: Seq<char>) -> Seq<char> {
    if body.len() == 0 {
        "function "@ + name + "("@ + params + ") {}"@
    } else {
        "function "@ + name + "("@ + params + ") {\n"@ + body + "\n}"@
    }
}

pub fn function_str(
    expr_type: FunctionExpressionType,
    name: &str,
    params: &str,
    body: &str,
) -> (r: String)
    ensures
        r@ == function_text(expr_type, name@, params@, body@),
{
    match expr_type {
        FunctionExpressionType::ArrowFunctionExpression => {
            let t = trim(body);
            if t.as_str().is_empty() {
                cat3("(", params, ") => {}")
            } else if starts_with(&t, "return ") {
                proof {
                    reveal_strlit("return ");
                }
                let a = strip_prefixes(&t, "return ");
                let b = strip_trailing(&a, ';');
                let e = trim_right(&b);
                if contains_char(&e, '\n') {
                    cat5("(", params, ") => (\n", &e, "\n)")
                } else if contains(&e, " ? ") && contains(&e, " : ") {
                    cat5("(", params, ") => (", &e, ")")
                } else {
                    cat4("(", params, ") => ", &e)
                }
            } else {
                cat5("(", params, ") => {\n", body, "\n}")
            }
        },
        _ => declaration_str(name, params, body),
    }
}

pub fn declaration_str(name: &str, params: &str, body: &str) -> (r: String)
    ensures
        r@ == declaration_text(name@, params@, body@),
{
    if body.is_empty() {
        cat5("function ", name, "(", params, ") {}")
    } else {
        let head = cat5("function ", name, "(", params, ") {\n");
        cat3(&head, body, "\n}")
    }
}

fn call_str(callee: &str, args: &str, optional: bool) -> (r: String)
    ensures
        r@ == call_text(callee@, args@, optional),
{
    if optional {
        cat4(callee, "?.(", args, ")")
    } else {
        cat4(callee, "(", args, ")")
    }
}

fn method_call_str(
    receiver: &str,
    method: &str,
    is_computed: bool,
    args: &str,
    receiver_optional: bool,
    call_optional: bool,
) -> (r: String)
    ensures
        r@ == method_call_text(
            receiver@,
            (method@, is_computed),
            args@,
            receiver_optional,
            call_optional,
        ),
{
    let callee = if is_computed {
        let link = if receiver_optional {
            "?."
        } else {
            ""
        };
        cat5(receiver, link, "[", method, "]")
    } else {
        let link = if receiver_optional {
            "?."
        } else {
            "."
        };
        cat3(receiver, link, method)
    };
    call_str(&callee, args, call_optional)
}

fn property_load_str(object: &str, property: &PropertyLiteral, optional: bool) -> (r: String)
    ensures
        r@ == property_load_text(object@, *property, optional),
{
    match property {
        PropertyLiteral::String(s) => {
            let dot = if optional {
                "?."
            } else {
                "."
            };
            cat3(object, dot, s)
        },
        PropertyLiteral::Number(n) => {
            let num = format_number(n);
            let open_bracket = if optional {
                "?.["
            } else {
                "["
            };
            cat4(object, open_bracket, &num, "]")
        },
    }
}

fn computed_load_str(object: &str, property: &str, optional: bool) -> (r: String)
    ensures
        r@ == computed_load_text(object@, property@, optional),
{
    if let Some(inner) = strip_quotes(property) {
        if is_valid_identifier(&inner) {
            let dot = if optional {
                "?."
            } else {
                "."
            };
            return cat3(object, dot, &inner);
        }
    }
    let open_bracket = if optional {
        "?.["
    } else {
        "["
    };
    cat4(object, open_bracket, property, "]")
}

fn has_method_property(props: &Vec<ObjectPropertyOrSpread>) -> (r: bool)
    ensures
        r == has_method(props@),
{
    let mut i: usize = 0;
    while i < props.len()
        invariant
            i <= props@.len(),
            forall|k: int| 0 <= k < i ==> !is_method(#[trigger] props@[k]),
        decreases props@.len() - i,
    {
        if let ObjectPropertyOrSpread::Property(p) = &props[i] {
            if p.type_ == ObjectPropertyType::Method {
                assert(is_method(props@[i as int]));
                return true;
            }
        }
        i = i + 1;
    }
    false
}

fn method_tail_of(value: &str) -> (r: Option<String>)
    ensures
        match r {
            Some(t) => method_tail(value@) == Some(t@),
            None => method_tail(value@) is None,
        },
{
    if starts_with(value, "function") {
        proof {
            reveal_strlit("function");
        }
        let tail = skip_chars(value, 8);
        let rest = trim_left(&tail);
        let cs = chars_of(&rest);
        let paren = chars_of("(");
        match chars_find(&cs, &paren) {
            Some(i) => {
                let t = from_chars(&cs, i, cs.len());
                proof {
                    assert(t@ =~= rest@.skip(i as int));
                }
                Some(t)
            },
            None => None,
        }
    } else {
        None
    }
}

fn is_simple_attribute(value: &str) -> (r: bool)
    ensures
        r == simple_attribute(value@),
{
    match strip_quotes(value) {
        Some(inner) => {
            let cs = chars_of(&inner);
            let mut i: usize = 0;
            while i < cs.len()
                invariant
                    i <= cs@.len(),
                    cs@ == unquoted(value@),
                    forall|k: int| 0 <= k < i ==> simple_attribute_char(#[trigger] cs@[k]),
                decreases cs@.len() - i,
            {
                let ch = cs[i];
                if !(' ' <= ch && ch <= '~' && ch != '\\' && ch != '{' && ch != '}') {
                    assert(!simple_attribute_char(unquoted(value@)[i as int]));
                    return false;
                }
                i = i + 1;
            }
            true
        },
        None => false,
    }
}

impl Context {
    fn element_str(&self, e: &ArrayElement) -> (r: String)
        ensures
            r@ == element_text(self@, *e),
    {
        match e {
            ArrayElement::Place(p) => self.resolve_place(p),
            ArrayElement::Spread(p) => {
                let s = self.resolve_place(p);
                cat2("...", &s)
            },
            ArrayElement::Hole => owned(""),
        }
    }

    fn array_str(&self, elements: &Vec<ArrayElement>) -> (r: String)
        ensures
            r@ == array_text(self@, elements@),
    {
        let mut parts: Vec<String> = Vec::new();
        let mut i: usize = 0;
        while i < elements.len()
            invariant
                i <= elements@.len(),
                parts@.len() == i,
                forall|k: int|
                    0 <= k < i ==> (#[trigger] parts@[k])@ == element_text(self@, elements@[k]),
            decreases elements@.len() - i,
        {
            let part = self.element_str(&elements[i]);
            parts.push(part);
            i = i + 1;
        }
        proof {
            assert(texts(parts@) =~= elements@.map_values(
                |e: ArrayElement| element_text(self@, e),
            ));
        }
        let inner = join(&parts, ", ");
        cat3("[", &inner, "]")
    }

    fn literal_key_str(&self, key: &ObjectPropertyKey) -> (r: String)
        ensures
            r@ == literal_key_text(self@, *key),
    {
        match key {
            ObjectPropertyKey::Identifier(s) => s.clone(),
            ObjectPropertyKey::String(s) => if is_valid_identifier(s) {
                s.clone()
            } else {
                let e = escape_js_string(s);
                cat3("\"", &e, "\"")
            },
            ObjectPropertyKey::Number(n) => format_number(n),
            ObjectPropertyKey::Computed(p) => {
                let s = self.resolve_place(p);
                cat3("[", &s, "]")
            },
        }
    }

    fn property_str(&self, prop: &ObjectPropertyOrSpread) -> (r: String)
        ensures
            r@ == property_text(self@, *prop),
    {
        match prop {
            ObjectPropertyOrSpread::Property(p) => {
                let key = self.literal_key_str(&p.key);
                let value = self.resolve_place(&p.place);
                if p.type_ == ObjectPropertyType::Method {
                    match method_tail_of(&value) {
                        Some(tail) => cat2(&key, &tail),
                        None => cat3(&key, ": ", &value),
                    }
                } else if same(&key, &value) {
                    key
                } else {
                    cat3(&key, ": ", &value)
                }
            },
            ObjectPropertyOrSpread::Spread(p) => {
                let s = self.resolve_place(p);
                cat2("...", &s)
            },
        }
    }

    fn object_str(&self, properties: &Vec<ObjectPropertyOrSpread>) -> (r: String)
        ensures
            r@ == object_text(self@, properties@),
    {
        let mut parts: Vec<String> = Vec::new();
        let mut i: usize = 0;
        while i < properties.len()
            invariant
                i <= properties@.len(),
                parts@.len() == i,
                forall|k: int|
                    0 <= k < i ==> (#[trigger] parts@[k])@ == property_text(self@, properties@[k]),
            decreases properties@.len() - i,
        {
            let part = self.property_str(&properties[i]);
            parts.push(part);
            i = i + 1;
        }
        let ghost props = properties@.map_values(
            |p: ObjectPropertyOrSpread| property_text(self@, p),
        );
        proof {
            assert(texts(parts@) =~= props);
        }
        if parts.len() == 0 {
            owned("{}")
        } else if has_method_property(properties) {
            let mut out = owned("{\n");
            let mut k: usize = 0;
            while k < parts.len()
                invariant
                    k <= parts@.len(),
                    texts(parts@) == props,
                    out@ == property_blocks(props, k as int),
                decreases parts@.len() - k,
            {
                assert(parts@[k as int]@ == props[k as int]);
                let piece = property_block_str(&parts[k]);
                out.append(&piece);
                k = k + 1;
            }
            cat2(&out, "}")
        } else {
            let inner = join(&parts, ", ");
            cat3("{ ", &inner, " }")
        }
    }

    fn attribute_str(&self, attr: &JsxAttribute) -> (r: String)
        ensures
            r@ == attribute_text(self@, *attr),
    {
        match attr {
            JsxAttribute::Attribute { name, place } => {
                let value = self.resolve_place(place);
                if is_simple_attribute(&value) {
                    cat4(" ", name, "=", &value)
                } else {
                    cat5(" ", name, "={", &value, "}")
                }
            },
            JsxAttribute::SpreadAttribute { argument } => {
                let value = self.resolve_place(argument);
                cat3(" {...", &value, "}")
            },
        }
    }

    fn jsx_child_str(&self, place: &Place) -> (r: String)
        ensures
            r@ == child_text(self@, *place),
    {
        let s = self.resolve_place(place);
        if self.jsx_text_ids.contains(place.identifier.id.0) || self.jsx_element_ids.contains(
            place.identifier.id.0,
        ) {
            s
        } else {
            cat3("{", &s, "}")
        }
    }

    /// Joins the children of an element.
    pub fn join_jsx_children(&self, kids: &Vec<Place>) -> (r: String)
        ensures
            r@ == children_text(self@, kids@),
    {
        let mut parts: Vec<String> = Vec::new();
        let mut has_text = false;
        let mut has_element = false;
        let mut i: usize = 0;
        while i < kids.len()
            invariant
                i <= kids@.len(),
                parts@.len() == i,
                forall|k: int| 0 <= k < i ==> (#[trigger] parts@[k])@ == child_text(self@, kids@[k]),
                has_text == exists|k: int|
                    0 <= k < i && self@.text_ids.contains((#[trigger] kids@[k]).identifier.id.0),
                has_element == exists|k: int|
                    0 <= k < i && self@.element_ids.contains((#[trigger] kids@[k]).identifier.id.0),
            decreases kids@.len() - i,
        {
            let part = self.jsx_child_str(&kids[i]);
            parts.push(part);
            if self.jsx_text_ids.contains(kids[i].identifier.id.0) {
                has_text = true;
                assert(self@.text_ids.contains(kids@[i as int].identifier.id.0));
            }
            if self.jsx_element_ids.contains(kids[i].identifier.id.0) {
                has_element = true;
                assert(self@.element_ids.contains(kids@[i as int].identifier.id.0));
            }
            i = i + 1;
        }
        let ghost all = kids@.map_values(|p: Place| child_text(self@, p));
        proof {
            assert(texts(parts@) =~= all);
        }
        if parts.len() == 0 {
            return owned("");
        }
        if has_text {
            return join(&parts, "");
        }
        if parts.len() == 1 && !has_element {
            return parts[0].clone();
        }
        let mut out = owned(" ");
        let mut k: usize = 0;
        while k < parts.len()
            invariant
                k <= parts@.len(),
                texts(parts@) == all,
                out@ == spaced(all, k as int),
            decreases parts@.len() - k,
        {
            assert(parts@[k as int]@ == all[k as int]);
            out.append(&parts[k]);
            if !ends_with_char(&out, ' ') {
                push_char(&mut out, ' ');
            }
            k = k + 1;
        }
        out
    }

    fn fragment_str(&self, kids: &Vec<Place>) -> (r: String)
        ensures
            r@ == fragment_text(self@, kids@),
    {
        if kids.len() == 0 {
            owned("<></>")
        } else {
            let inner = self.join_jsx_children(kids);
            cat3("<>", &inner, "</>")
        }
    }

    /// A JSX element.
    pub fn jsx_to_string(
        &self,
        tag: &JsxTag,
        props: &Vec<JsxAttribute>,
        children: &Option<Vec<Place>>,
    ) -> (r: String)
        ensures
            r@ == jsx_text(self@, *tag, props@, *children),
    {
        let name = match tag {
            JsxTag::BuiltinTag(name) => name.clone(),
            JsxTag::Component(place) => self.resolve_place(place),
            JsxTag::Fragment => {
                return match children {
                    Some(kids) => self.fragment_str(kids),
                    None => owned("<></>"),
                };
            },
        };
        let mut attrs = String::new();
        let mut i: usize = 0;
        while i < props.len()
            invariant
                i <= props@.len(),
                attrs@ == attributes_text(self@, props@, i as int),
            decreases props@.len() - i,
        {
            let piece = self.attribute_str(&props[i]);
            attrs.append(&piece);
            i = i + 1;
        }
        if let Some(kids) = children {
            if kids.len() > 0 {
                let inner = self.join_jsx_children(kids);
                let head = cat4("<", &name, &attrs, ">");
                return cat5(&head, &inner, "</", &name, ">");
            }
        }
        cat4("<", &name, &attrs, " />")
    }

    fn pattern_array_str(&self, items: &Vec<ArrayElement>) -> (r: String)
        ensures
            r@ == pattern_array_text(self@, items@),
    {
        let mut parts: Vec<String> = Vec::new();
        let mut i: usize = 0;
        while i < items.len()
            invariant
                i <= items@.len(),
                parts@.len() == i,
                forall|k: int|
                    0 <= k < i ==> (#[trigger] parts@[k])@ == pattern_element_text(self@, items@[k]),
            decreases items@.len() - i,
        {
            let part = match &items[i] {
                ArrayElement::Place(p) => self.identifier_name(&p.identifier),
                ArrayElement::Spread(p) => {
                    let s = self.identifier_name(&p.identifier);
                    cat2("...", &s)
                },
                ArrayElement::Hole => owned(""),
            };
            parts.push(part);
            i = i + 1;
        }
        proof {
            assert(texts(parts@) =~= items@.map_values(
                |e: ArrayElement| pattern_element_text(self@, e),
            ));
        }
        let inner = join(&parts, ", ");
        cat3("[", &inner, "]")
    }

    fn pattern_property_str(&self, prop: &ObjectPropertyOrSpread) -> (r: String)
        ensures
            r@ == pattern_property_text(self@, *prop),
    {
        match prop {
            ObjectPropertyOrSpread::Property(p) => {
                let key = match &p.key {
                    ObjectPropertyKey::String(s) => if has_only_word_chars(s) {
                        s.clone()
                    } else {
                        cat3("\"", s, "\"")
                    },
                    ObjectPropertyKey::Identifier(s) => s.clone(),
                    ObjectPropertyKey::Number(n) => format_number(n),
                    ObjectPropertyKey::Computed(q) => {
                        let s = self.resolve_place(q);
                        cat3("[", &s, "]")
                    },
                };
                let binding = self.identifier_name(&p.place.identifier);
                if same(&key, &binding) {
                    key
                } else {
                    cat3(&key, ": ", &binding)
                }
            },
            ObjectPropertyOrSpread::Spread(place) => {
                let s = self.resolve_place(place);
                cat2("...", &s)
            },
        }
    }

    /// A destructuring pattern.
    pub fn pattern_to_string(&self, pattern: &Pattern) -> (r: String)
        ensures
            r@ == pattern_text(self@, *pattern),
    {
        match pattern {
            Pattern::Array(arr) => self.pattern_array_str(&arr.items),
            Pattern::Object(obj) => {
                let mut parts: Vec<String> = Vec::new();
                let mut i: usize = 0;
                while i < obj.properties.len()
                    invariant
                        i <= obj.properties@.len(),
                        parts@.len() == i,
                        forall|k: int|
                            0 <= k < i ==> (#[trigger] parts@[k])@ == pattern_property_text(
                                self@,
                                obj.properties@[k],
                            ),
                    decreases obj.properties@.len() - i,
                {
                    let part = self.pattern_property_str(&obj.properties[i]);
                    parts.push(part);
                    i = i + 1;
                }
                proof {
                    assert(texts(parts@) =~= obj.properties@.map_values(
                        |p: ObjectPropertyOrSpread| pattern_property_text(self@, p),
                    ));
                }
                let inner = join(&parts, ", ");
                cat3("{ ", &inner, " }")
            },
        }
    }

    fn loop_property_str(&self, prop: &ObjectPropertyOrSpread) -> (r: String)
        ensures
            r@ == loop_property_text(self@, *prop),
    {
        match prop {
            ObjectPropertyOrSpread::Property(p) => {
                let key = match &p.key {
                    ObjectPropertyKey::String(s) => s.clone(),
                    ObjectPropertyKey::Identifier(s) => s.clone(),
                    ObjectPropertyKey::Number(n) => n.display.clone(),
                    ObjectPropertyKey::Computed(q) => {
                        let s = self.resolve_place(q);
                        cat3("[", &s, "]")
                    },
                };
                let name = self.identifier_name(&p.place.identifier);
                if same(&key, &name) {
                    key
                } else {
                    cat3(&key, ": ", &name)
                }
            },
            ObjectPropertyOrSpread::Spread(place) => {
                let s = self.identifier_name(&place.identifier);
                cat2("...", &s)
            },
        }
    }

    /// A destructuring pattern in the head of a `for` loop.
    pub fn format_destructure_pattern(&self, pattern: &Pattern) -> (r: String)
        ensures
            r@ == loop_pattern_text(self@, *pattern),
    {
        match pattern {
            Pattern::Array(arr) => self.pattern_array_str(&arr.items),
            Pattern::Object(obj) => {
                let mut parts: Vec<String> = Vec::new();
                let mut i: usize = 0;
                while i < obj.properties.len()
                    invariant
                        i <= obj.properties@.len(),
                        parts@.len() == i,
                        forall|k: int|
                            0 <= k < i ==> (#[trigger] parts@[k])@ == loop_property_text(
                                self@,
                                obj.properties@[k],
                            ),
                    decreases obj.properties@.len() - i,
                {
                    let part = self.loop_property_str(&obj.properties[i]);
                    parts.push(part);
                    i = i + 1;
                }
                proof {
                    assert(texts(parts@) =~= obj.properties@.map_values(
                        |p: ObjectPropertyOrSpread| loop_property_text(self@, p),
                    ));
                }
                let inner = join(&parts, ", ");
                cat3("{ ", &inner, " }")
            },
        }
    }

    fn template_str(&self, quasis: &Vec<TemplateQuasi>, subexprs: &Vec<Place>) -> (r: String)
        ensures
            r@ == template_expr(self@, quasis@, subexprs@),
    {
        if subexprs.len() == 0 && quasis.len() == 1 {
            let raw = &quasis[0].raw;
            if !contains_char(raw, '`') && !contains(raw, "${") {
                return cat3("\"", raw, "\"");
            }
        }
        let mut out = owned("`");
        let mut i: usize = 0;
        while i < quasis.len()
            invariant
                i <= quasis@.len(),
                out@ == template_text(self@, quasis@, subexprs@, i as int),
            decreases quasis@.len() - i,
        {
            out.append(&quasis[i].raw);
            if i < subexprs.len() {
                let e = self.resolve_place(&subexprs[i]);
                out.append("${");
                out.append(&e);
                out.append("}");
            }
            i = i + 1;
        }
        cat2(&out, "`")
    }

    fn callee_str(&self, callee: &Place) -> (r: String)
        ensures
            r@ == callee_text(self@, *callee),
    {
        let s = self.resolve_place(callee);
        if contains(&s, "=>") || starts_with(&s, "function") {
            cat3("(", &s, ")")
        } else {
            self.resolve_object(callee)
        }
    }

    fn resolve_object(&self, place: &Place) -> (r: String)
        ensures
            r@ == member_base(self@, *place),
    {
        self.resolve_place_with_min_prec(place, OBJECT_LEVEL)
    }

    fn constructor_str(&self, callee: &Place) -> (r: String)
        ensures
            r@ == constructor_text(self@, *callee),
    {
        let s = self.resolve_place(callee);
        if contains_char(&s, '(') {
            cat3("(", &s, ")")
        } else {
            self.resolve_object(callee)
        }
    }

    fn unary_str(&self, operator: &UnaryOperator, value: &Place) -> (r: String)
        ensures
            r@ == unary_expr(self@, *operator, *value),
    {
        let v = self.resolve_place_with_min_prec(value, UNARY_LEVEL);
        let sign = match operator {
            UnaryOperator::Minus => starts_with_char(&v, '-'),
            UnaryOperator::Plus => starts_with_char(&v, '+'),
            _ => false,
        };
        if sign {
            cat4(unary_op_str(operator), "(", &v, ")")
        } else {
            cat2(unary_op_str(operator), &v)
        }
    }

    /// How tightly the expression for an instruction binds.
    fn level_of(&self, instr: &Instruction) -> (r: u8)
        ensures
            r == expr_level(self@, *instr),
    {
        match &instr.value {
            InstructionValue::Primitive { value } => match value {
                PrimitiveValue::Number(n) => {
                    let text = format_number(n);
                    if starts_with_char(&text, '-') {
                        UNARY_LEVEL
                    } else {
                        0
                    }
                },
                _ => 0,
            },
            InstructionValue::TypeCastExpression { type_annotation_kind, .. } => {
                if *type_annotation_kind == TypeAnnotationKind::Cast {
                    0
                } else {
                    binary_op_precedence(&BinaryOperator::In)
                }
            },
            InstructionValue::StoreLocal { value, .. } => {
                match self.expr_precedence.get(value.identifier.id.0) {
                    Some(level) => level,
                    None => 0,
                }
            },
            InstructionValue::FunctionExpression { expr_type, .. } => {
                if *expr_type == FunctionExpressionType::ArrowFunctionExpression
                    && !self.outlined_map.contains(instr.lvalue.identifier.id.0) {
                    ARROW_LEVEL
                } else {
                    0
                }
            },
            _ => instr_precedence(&instr.value),
        }
    }

    /// Notes the expression for an instruction, and how tightly it binds.
    pub fn note_expr(&mut self, instr: &Instruction, expr: String)
        ensures
            final(self)@ == with_written(old(self)@, *instr, Some(expr@)),
    {
        let level: u8 = self.level_of(instr);
        if level > 0 {
            self.expr_precedence.insert(instr.lvalue.identifier.id.0, level);
        }
        self.expr_map.insert(instr.lvalue.identifier.id.0, expr);
    }

    fn type_cast_str(
        &self,
        value: &Place,
        type_annotation: &str,
        kind: TypeAnnotationKind,
    ) -> (r: String)
        ensures
            r@ == type_cast_text(self@, *value, type_annotation@, kind),
    {
        let v = self.resolve_place_with_min_prec(value, binary_op_precedence(&BinaryOperator::In));
        match kind {
            TypeAnnotationKind::Cast => {
                let inner = self.resolve_place(value);
                cat5("(", &inner, ": ", type_annotation, ")")
            },
            TypeAnnotationKind::As => cat3(&v, " as ", type_annotation),
            TypeAnnotationKind::Satisfies => cat3(&v, " satisfies ", type_annotation),
        }
    }

    /// The expression for a value that is no function expression.
    pub fn plain_expr_str(&self, value: &InstructionValue) -> (r: Option<String>)
        ensures
            match r {
                Some(s) => plain_expr(self@, *value) == Some(s@),
                None => plain_expr(self@, *value) is None,
            },
    {
        match value {
            InstructionValue::Primitive { value } => Some(primitive_str(value)),
            InstructionValue::ArrayExpression { elements } => Some(self.array_str(elements)),
            InstructionValue::ObjectExpression { properties } => Some(self.object_str(properties)),
            InstructionValue::CallExpression { callee, args, optional } => {
                let f = self.callee_str(callee);
                let a = self.resolve_args(args);
                Some(call_str(&f, &a, *optional))
            },
            InstructionValue::MethodCall {
                receiver,
                property,
                args,
                receiver_optional,
                call_optional,
            } => {
                let recv = self.resolve_object(receiver);
                let (prop, is_computed) = self.resolve_method_property(property, &recv);
                let a = self.resolve_args(args);
                Some(
                    method_call_str(&recv, &prop, is_computed, &a, *receiver_optional, *call_optional),
                )
            },
            InstructionValue::BinaryExpression { operator, left, right } => {
                let (left_min, right_min) = operand_levels(operator);
                let l = self.resolve_place_with_min_prec(left, left_min);
                let r = self.resolve_place_with_min_prec(right, right_min);
                let op = binary_op_str(operator);
                Some(cat5(&l, " ", op, " ", &r))
            },
            InstructionValue::UnaryExpression { operator, value } => Some(
                self.unary_str(operator, value),
            ),
            InstructionValue::LoadLocal { place } => Some(self.identifier_name(&place.identifier)),
            InstructionValue::LoadGlobal { binding } => Some(owned(binding.name())),
            InstructionValue::PropertyLoad { object, property, optional } => {
                let obj = self.resolve_object(object);
                Some(property_load_str(&obj, property, *optional))
            },
            InstructionValue::ComputedLoad { object, property, optional } => {
                let obj = self.resolve_object(object);
                let prop = self.resolve_place(property);
                Some(computed_load_str(&obj, &prop, *optional))
            },
            InstructionValue::JsxExpression { tag, props, children } => Some(
                self.jsx_to_string(tag, props, children),
            ),
            InstructionValue::JsxFragment { children } => Some(self.fragment_str(children)),
            InstructionValue::TemplateLiteral { subexprs, quasis } => Some(
                self.template_str(quasis, subexprs),
            ),
            InstructionValue::NewExpression { callee, args } => {
                let f = self.constructor_str(callee);
                let a = self.resolve_args(args);
                Some(cat5("new ", &f, "(", &a, ")"))
            },
            InstructionValue::StoreLocal { value, .. } => Some(self.resolve_place(value)),
            InstructionValue::JSXText { value } => Some(value.clone()),
            InstructionValue::RegExpLiteral { pattern, flags } => Some(
                cat4("/", pattern, "/", flags),
            ),
            InstructionValue::Await { value } => {
                let v = self.resolve_place_with_min_prec(value, UNARY_LEVEL);
                Some(cat2("await ", &v))
            },
            InstructionValue::PrefixUpdate { value, operation, .. } => {
                let v = self.resolve_place(value);
                Some(cat2(update_op_str(operation), &v))
            },
            InstructionValue::PostfixUpdate { value, operation, .. } => {
                let v = self.resolve_place(value);
                Some(cat2(&v, update_op_str(operation)))
            },
            InstructionValue::MetaProperty { meta, property } => Some(cat3(meta, ".", property)),
            InstructionValue::PropertyDelete { object, property } => {
                let obj = self.resolve_object(object);
                let target = property_load_str(&obj, property, false);
                Some(cat2("delete ", &target))
            },
            InstructionValue::ComputedDelete { object, property } => {
                let obj = self.resolve_object(object);
                let prop = self.resolve_place(property);
                Some(cat5("delete ", &obj, "[", &prop, "]"))
            },
            InstructionValue::TaggedTemplateExpression { tag, raw, .. } => {
                let t = self.resolve_object(tag);
                Some(cat4(&t, "`", raw, "`"))
            },
            InstructionValue::Ternary { test, consequent, alternate } => {
                let t = self.resolve_place_with_min_prec(test, 4);
                let c = self.resolve_branch(consequent);
                let a = self.resolve_branch(alternate);
                Some(cat5(&t, " ? ", &c, " : ", &a))
            },
            InstructionValue::LogicalExpression { operator, left, right } => {
                let prec: u8 = logical_op_precedence(operator);
                let l = self.resolve_place_with_logical_parens(left, prec);
                let r = self.resolve_place_with_logical_parens(right, prec);
                let op = logical_op_str(operator);
                Some(cat5(&l, " ", op, " ", &r))
            },
            InstructionValue::TypeCastExpression { value, type_annotation, type_annotation_kind } => {
                Some(self.type_cast_str(value, type_annotation, *type_annotation_kind))
            },
            _ => None,
        }
    }
}

// ---------------------------------------------------------------------------
// Statements
// ---------------------------------------------------------------------------

/// The keyword of a declaration; none for an assignment.
pub open spec fn store_keyword(kind: InstructionKind) -> Seq<char> {
    match kind {
        InstructionKind::Const | InstructionKind::HoistedConst => "const"@,
        InstructionKind::Let | InstructionKind::HoistedLet | InstructionKind::Catch => "let"@,
        InstructionKind::Reassign | InstructionKind::Function | InstructionKind::HoistedFunction => {
            ""@
        },
    }
}

pub fn store_keyword_str(kind: InstructionKind) -> (r: &'static str)
    ensures
        r@ == store_keyword(kind),
{
    match kind {
        InstructionKind::Const | InstructionKind::HoistedConst => "const",
        InstructionKind::Let | InstructionKind::HoistedLet | InstructionKind::Catch => "let",
        InstructionKind::Reassign | InstructionKind::Function | InstructionKind::HoistedFunction => {
            ""
        },
    }
}

/// The keyword of a destructuring declaration; none for an assignment.
pub open spec fn destructure_keyword(kind: InstructionKind) -> Seq<char> {
    match kind {
        InstructionKind::Let | InstructionKind::HoistedLet => "let"@,
        InstructionKind::Reassign => ""@,
        _ => "const"@,
    }
}

/// Whether the kind of a store declares a variable.
pub open spec fn declares(kind: InstructionKind) -> bool {
    match kind {
        InstructionKind::Reassign | InstructionKind::Function | InstructionKind::HoistedFunction => {
            false
        },
        _ => true,
    }
}

/// A store: an assignment, or a declaration, which loses an initial `undefined`.
pub open spec fn store_stmt(
    c: Ctx,
    kind: InstructionKind,
    place: Place,
    value: Place,
) -> Option<Seq<char>> {
    let id = place.identifier.id.0;
    let name = name_text(c, place.identifier);
    let val = place_text(c, value);
    if c.param_defaults.contains(id) {
        None
    } else if c.promoted.contains(id) || !declares(kind) {
        Some(name + " = "@ + val + ";"@)
    } else if val == "undefined"@ {
        if c.declared.contains(name) {
            None
        } else {
            Some("let "@ + name + ";"@)
        }
    } else {
        Some(store_keyword(kind) + " "@ + name + " = "@ + val + ";"@)
    }
}

pub open spec fn destructure_stmt(
    c: Ctx,
    kind: InstructionKind,
    pattern: Pattern,
    value: Place,
) -> Option<Seq<char>> {
    let val = place_text(c, value);
    let pat = pattern_text(c, pattern);
    if c.param_loads.contains(value.identifier.id.0) {
        None
    } else if kind == InstructionKind::Reassign {
        if pattern is Object {
            Some("("@ + pat + " = "@ + val + ");"@)
        } else {
            Some(pat + " = "@ + val + ";"@)
        }
    } else {
        Some(destructure_keyword(kind) + " "@ + pat + " = "@ + val + ";"@)
    }
}

pub open spec fn property_store_stmt(
    object: Seq<char>,
    property: PropertyLiteral,
    value: Seq<char>,
) -> Seq<char> {
    property_load_text(object, property, false) + " = "@ + value + ";"@
}

pub open spec fn computed_store_stmt(
    object: Seq<char>,
    property: Seq<char>,
    value: Seq<char>,
) -> Seq<char> {
    computed_load_text(object, property, false) + " = "@ + value + ";"@
}

/// `e` as a statement of its own.
pub open spec fn as_stmt(e: Option<Seq<char>>) -> Option<Seq<char>> {
    match e {
        Some(s) => Some(s + ";"@),
        None => None,
    }
}

/// The statement for an instruction that declares no function, where it has one. Instructions whose
/// result another one reads, and temporaries, have none.
pub open spec fn plain_stmt(c: Ctx, instr: Instruction) -> Option<Seq<char>> {
    let used = c.consumed.contains(instr.lvalue.identifier.id.0);
    match instr.value {
        InstructionValue::StoreLocal { lvalue, value, .. } => store_stmt(
            c,
            lvalue.kind,
            lvalue.place,
            value,
        ),
        InstructionValue::DeclareLocal { lvalue } => {
            let name = name_text(c, lvalue.place.identifier);
            if lvalue.kind == InstructionKind::Catch || c.declared.contains(name) {
                None
            } else {
                Some("let "@ + name + ";"@)
            }
        },
        InstructionValue::Destructure { lvalue, value, .. } => destructure_stmt(
            c,
            lvalue.kind,
            lvalue.pattern,
            value,
        ),
        InstructionValue::CallExpression { .. }
        | InstructionValue::MethodCall { .. }
        | InstructionValue::NewExpression { .. } => {
            if instr.lvalue.identifier.name is None && !used {
                as_stmt(plain_expr(c, instr.value))
            } else {
                None
            }
        },
        InstructionValue::PropertyStore { object, property, value } => Some(
            property_store_stmt(member_base(c, object), property, place_text(c, value)),
        ),
        InstructionValue::ComputedStore { object, property, value } => Some(
            computed_store_stmt(
                member_base(c, object),
                place_text(c, property),
                place_text(c, value),
            ),
        ),
        InstructionValue::StoreGlobal { name, value } => Some(
            name@ + " = "@ + place_text(c, value) + ";"@,
        ),
        InstructionValue::Debugger => Some("debugger;"@),
        InstructionValue::PropertyDelete { .. }
        | InstructionValue::ComputedDelete { .. }
        | InstructionValue::PrefixUpdate { .. }
        | InstructionValue::PostfixUpdate { .. }
        | InstructionValue::LogicalExpression { .. }
        | InstructionValue::Ternary { .. }
        | InstructionValue::TaggedTemplateExpression { .. }
        | InstructionValue::Await { .. } => {
            if used {
                None
            } else {
                as_stmt(plain_expr(c, instr.value))
            }
        },
        _ => None,
    }
}

impl Context {
    fn store_stmt_str(&self, kind: InstructionKind, place: &Place, value: &Place) -> (r: Option<
        String,
    >)
        ensures
            match r {
                Some(s) => store_stmt(self@, kind, *place, *value) == Some(s@),
                None => store_stmt(self@, kind, *place, *value) is None,
            },
    {
        if self.param_default_stores.contains(place.identifier.id.0) {
            return None;
        }
        let name = self.identifier_name(&place.identifier);
        let val = self.resolve_place(value);
        let declared = match kind {
            InstructionKind::Reassign
            | InstructionKind::Function
            | InstructionKind::HoistedFunction => false,
            _ => true,
        };
        if self.promoted_store_ids.contains(place.identifier.id.0) || !declared {
            Some(cat4(&name, " = ", &val, ";"))
        } else if same(&val, "undefined") {
            if self.emitted_let_decls.contains(&name) {
                return None;
            }
            Some(cat3("let ", &name, ";"))
        } else {
            Some(cat6(store_keyword_str(kind), " ", &name, " = ", &val, ";"))
        }
    }

    fn destructure_stmt_str(&self, kind: InstructionKind, pattern: &Pattern, value: &Place) -> (r:
        Option<String>)
        ensures
            match r {
                Some(s) => destructure_stmt(self@, kind, *pattern, *value) == Some(s@),
                None => destructure_stmt(self@, kind, *pattern, *value) is None,
            },
    {
        if self.destructured_param_load_ids.contains(value.identifier.id.0) {
            return None;
        }
        let val = self.resolve_place(value);
        let pat = self.pattern_to_string(pattern);
        match kind {
            InstructionKind::Reassign => {
                if let Pattern::Object(_) = pattern {
                    Some(cat5("(", &pat, " = ", &val, ");"))
                } else {
                    Some(cat4(&pat, " = ", &val, ";"))
                }
            },
            InstructionKind::Let | InstructionKind::HoistedLet => Some(
                cat6("let", " ", &pat, " = ", &val, ";"),
            ),
            _ => Some(cat6("const", " ", &pat, " = ", &val, ";")),
        }
    }

    fn expr_stmt_str(&self, value: &InstructionValue) -> (r: Option<String>)
        ensures
            match r {
                Some(s) => as_stmt(plain_expr(self@, *value)) == Some(s@),
                None => as_stmt(plain_expr(self@, *value)) is None,
            },
    {
        match self.plain_expr_str(value) {
            Some(e) => Some(cat2(&e, ";")),
            None => None,
        }
    }

    /// The statement for an instruction that declares no function.
    pub fn plain_stmt_str(&self, instr: &Instruction) -> (r: Option<String>)
        ensures
            match r {
                Some(s) => plain_stmt(self@, *instr) == Some(s@),
                None => plain_stmt(self@, *instr) is None,
            },
    {
        let used = self.consumed_temps.contains(instr.lvalue.identifier.id.0);
        match &instr.value {
            InstructionValue::StoreLocal { lvalue, value, .. } => self.store_stmt_str(
                lvalue.kind,
                &lvalue.place,
                value,
            ),
            InstructionValue::DeclareLocal { lvalue } => {
                if lvalue.kind == InstructionKind::Catch {
                    return None;
                }
                let name = self.identifier_name(&lvalue.place.identifier);
                if self.emitted_let_decls.contains(&name) {
                    return None;
                }
                Some(cat3("let ", &name, ";"))
            },
            InstructionValue::Destructure { lvalue, value, .. } => self.destructure_stmt_str(
                lvalue.kind,
                &lvalue.pattern,
                value,
            ),
            InstructionValue::CallExpression { .. }
            | InstructionValue::MethodCall { .. }
            | InstructionValue::NewExpression { .. } => {
                if instr.lvalue.identifier.name.is_none() && !used {
                    self.expr_stmt_str(&instr.value)
                } else {
                    None
                }
            },
            InstructionValue::PropertyStore { object, property, value } => {
                let obj = self.resolve_object(object);
                let val = self.resolve_place(value);
                let target = property_load_str(&obj, property, false);
                Some(cat4(&target, " = ", &val, ";"))
            },
            InstructionValue::ComputedStore { object, property, value } => {
                let obj = self.resolve_object(object);
                let prop = self.resolve_place(property);
                let val = self.resolve_place(value);
                let target = computed_load_str(&obj, &prop, false);
                Some(cat4(&target, " = ", &val, ";"))
            },
            InstructionValue::StoreGlobal { name, value } => {
                let val = self.resolve_place(value);
                Some(cat4(name, " = ", &val, ";"))
            },
            InstructionValue::Debugger => Some(owned("debugger;")),
            InstructionValue::PropertyDelete { .. }
            | InstructionValue::ComputedDelete { .. }
            | InstructionValue::PrefixUpdate { .. }
            | InstructionValue::PostfixUpdate { .. }
            | InstructionValue::LogicalExpression { .. }
            | InstructionValue::Ternary { .. }
            | InstructionValue::TaggedTemplateExpression { .. }
            | InstructionValue::Await { .. } => {
                if used {
                    return None;
                }
                self.expr_stmt_str(&instr.value)
            },
            _ => None,
        }
    }
}

} // verus!
