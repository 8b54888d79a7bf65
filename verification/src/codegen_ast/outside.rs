//! What the JavaScript parser knows of texts.

use vstd::prelude::*;

use crate::codegen_ast::js::{type_model, Text, TsType, TypeModel};
use crate::text::{cat3, owned};

verus! {

/// Whether a text is the name of an identifier: an identifier start, then identifier parts.
pub uninterp spec fn identifier_text(s: Seq<char>) -> bool;

/// Calls `oxc_syntax::identifier::is_identifier_name`, which tells whether a text is the name of an
/// identifier. The contract names what it returns; the tables of characters are left unsaid.
#[verifier::external_body]
pub(crate) fn is_identifier_name(s: &str) -> (r: bool)
    ensures
        r == identifier_text(s@),
{
    oxc_syntax::identifier::is_identifier_name(s)
}

/// What parsing a text as TypeScript with JSX gives: whether the parser gave up, how many errors it
/// found, and whether the program starts with a declaration whose first variable has a type.
pub uninterp spec fn parsed_text(s: Seq<char>) -> (bool, nat, bool);

/// Calls `oxc_parser::Parser::parse` on a text, as TypeScript with JSX. The contract names what it
/// returns: `panicked`, the number of `errors`, and whether the first statement of the program is a
/// variable declaration whose first declarator has a type annotation. The grammar is left unsaid.
#[verifier::external_body]
pub(crate) fn parse_text(s: &str) -> (r: (bool, usize, bool))
    ensures
        (r.0, r.1 as nat, r.2) == parsed_text(s@),
{
    let allocator = oxc_allocator::Allocator::default();
    let source_type = oxc_span::SourceType::ts().with_jsx(true);
    let parsed = oxc_parser::Parser::new(&allocator, s, source_type).parse();
    let annotated = match parsed.program.body.first() {
        Some(oxc_ast::ast::Statement::VariableDeclaration(d)) => {
            d.declarations.first().is_some_and(|v| v.type_annotation.is_some())
        },
        _ => false,
    };
    (parsed.panicked, parsed.errors.len(), annotated)
}

/// A declaration whose variable has the type that a text denotes.
pub open spec fn type_source(s: Text) -> Text {
    "const __t: "@ + s + " = null;"@
}

/// The type that a text denotes, given what parsing `type_source` of it gave.
pub open spec fn type_from(s: Text, parsed: (bool, nat, bool)) -> TypeModel {
    if !parsed.0 && parsed.1 == 0 && parsed.2 {
        TypeModel::Source(s)
    } else {
        TypeModel::Reference(s)
    }
}

/// Takes a text for a type where the parser accepts it, else for the name of a type.
pub fn choose_type(s: &str, panicked: bool, errors: usize, annotated: bool) -> (r: TsType)
    ensures
        type_model(r) == type_from(s@, (panicked, errors as nat, annotated)),
{
    if !panicked && errors == 0 && annotated {
        TsType::Source(owned(s))
    } else {
        TsType::Reference(owned(s))
    }
}

/// The type that a text denotes.
pub open spec fn parsed_type(s: Text) -> TypeModel {
    type_from(s, parsed_text(type_source(s)))
}

/// Parses the text of a type annotation.
pub fn parse_ts_type(s: &str) -> (r: TsType)
    ensures
        type_model(r) == parsed_type(s@),
{
    let source = cat3("const __t: ", s, " = null;");
    let (panicked, errors, annotated) = parse_text(source.as_str());
    choose_type(s, panicked, errors, annotated)
}

} // verus!
