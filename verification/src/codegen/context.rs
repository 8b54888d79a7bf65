//! What is known of the identifiers of a function while its code is written: the names and the
//! expressions that stand for them.

use vstd::prelude::*;

use crate::codegen::print::{is_valid_identifier, valid_identifier};
use crate::collections::{renamed_to, IdLevels, IdSet, IdTexts, NameMap, NameSet};
use crate::hir::{Argument, Identifier, Place};
use crate::text::{
    cat2, cat3, chars_of, chars_starts_with, decimal, decimal_text, from_chars, has_prefix, join,
    joined, owned, same, texts,
};

verus! {

broadcast use crate::text::group_texts;

/// The mathematical content of a [`Context`].
#[verifier::ext_equal]
pub struct Ctx {
    /// The expression that stands for an identifier.
    pub exprs: Map<u32, Seq<char>>,
    /// How tightly that expression binds.
    pub levels: Map<u32, u8>,
    /// New names of single identifiers.
    pub id_names: Map<u32, Seq<char>>,
    /// New names of source names.
    pub source_names: Seq<(Seq<char>, Seq<char>)>,
    /// Names of unnamed identifiers.
    pub temps: Map<u32, Seq<char>>,
    /// The same, in the order in which they were given.
    pub temp_pairs: Seq<(u32, Seq<char>)>,
    /// The number of the next temporary name.
    pub counter: u64,
    pub text_ids: Set<u32>,
    pub element_ids: Set<u32>,
    /// The names of functions that moved out.
    pub outlined: Map<u32, Seq<char>>,
    pub outlined_pairs: Seq<(u32, Seq<char>)>,
    /// The names of the function around.
    pub outer_names: Set<Seq<char>>,
    pub consumed: Set<u32>,
    pub promoted: Set<u32>,
    pub param_defaults: Set<u32>,
    pub param_loads: Set<u32>,
    /// The names that have their `let` already.
    pub declared: Set<Seq<char>>,
    pub loop_ends: Set<u32>,
    pub loop_tests: Set<u32>,
}

/// The names and expressions of the identifiers of a function.
pub struct Context {
    /// From an identifier to the expression that is written in its place.
    pub expr_map: IdTexts,
    /// From an identifier to the precedence of that expression, where it is an operator expression.
    pub expr_precedence: IdLevels,
    /// New names of declarations that shadow another one.
    pub id_rename_map: IdTexts,
    /// New names of source variables that clash with generated names.
    pub source_rename_map: NameMap,
    /// Names of unnamed temporaries: `t0`, `t1`, ...
    pub temp_name_map: IdTexts,
    /// The number of the next temporary name.
    pub temp_name_counter: u64,
    /// Identifiers of JSX text, which is written without braces.
    pub jsx_text_ids: IdSet,
    /// Identifiers of JSX elements and fragments, which are written without braces.
    pub jsx_element_ids: IdSet,
    /// The names of function expressions that were moved out of the function.
    pub outlined_map: IdTexts,
    /// The names of the variables and parameters around.
    pub outer_scope_names: NameSet,
    /// Temporaries that some instruction or terminal reads.
    pub consumed_temps: IdSet,
    /// Variables that are declared in front of the memoized block.
    pub promoted_store_ids: IdSet,
    /// Variables that take a parameter's default.
    pub param_default_stores: IdSet,
    /// Loads of parameters that have a pattern.
    pub destructured_param_load_ids: IdSet,
    /// Names that have their `let` already.
    pub emitted_let_decls: NameSet,
    /// Blocks behind a loop: the targets of `break`.
    pub loop_fallthrough_blocks: IdSet,
    /// Blocks that test a loop: the targets of `continue`.
    pub loop_test_blocks: IdSet,
}

impl View for Context {
    type V = Ctx;

    open spec fn view(&self) -> Ctx {
        Ctx {
            exprs: self.expr_map@,
            levels: self.expr_precedence@,
            id_names: self.id_rename_map@,
            source_names: self.source_rename_map@,
            temps: self.temp_name_map@,
            temp_pairs: self.temp_name_map.pairs(),
            counter: self.temp_name_counter,
            text_ids: self.jsx_text_ids@,
            element_ids: self.jsx_element_ids@,
            outlined: self.outlined_map@,
            outlined_pairs: self.outlined_map.pairs(),
            outer_names: self.outer_scope_names@,
            consumed: self.consumed_temps@,
            promoted: self.promoted_store_ids@,
            param_defaults: self.param_default_stores@,
            param_loads: self.destructured_param_load_ids@,
            declared: self.emitted_let_decls@,
            loop_ends: self.loop_fallthrough_blocks@,
            loop_tests: self.loop_test_blocks@,
        }
    }
}

/// A context in which nothing is known.
pub open spec fn empty_ctx() -> Ctx {
    Ctx {
        exprs: Map::empty(),
        levels: Map::empty(),
        id_names: Map::empty(),
        source_names: Seq::empty(),
        temps: Map::empty(),
        temp_pairs: Seq::empty(),
        counter: 0,
        text_ids: Set::empty(),
        element_ids: Set::empty(),
        outlined: Map::empty(),
        outlined_pairs: Seq::empty(),
        outer_names: Set::empty(),
        consumed: Set::empty(),
        promoted: Set::empty(),
        param_defaults: Set::empty(),
        param_loads: Set::empty(),
        declared: Set::empty(),
        loop_ends: Set::empty(),
        loop_tests: Set::empty(),
    }
}

/// The number after `n`; the largest number has none and stays.
pub open spec fn next_number(n: u64) -> u64 {
    if n == u64::MAX {
        n
    } else {
        (n + 1) as u64
    }
}

pub fn bump(n: u64) -> (r: u64)
    ensures
        r == next_number(n),
{
    if n == u64::MAX {
        n
    } else {
        n + 1
    }
}

/// `t` and a number.
pub open spec fn temp_text(n: nat) -> Seq<char> {
    "t"@ + decimal(n)
}

pub fn temp_name_of(n: u64) -> (r: String)
    ensures
        r@ == temp_text(n as nat),
{
    let d = decimal_text(n);
    cat2("t", &d)
}

/// The name that stands in for an identifier that has none: `_t` and its number.
pub open spec fn fallback_text(id: u32) -> Seq<char> {
    "_t"@ + decimal(id as nat)
}

pub fn fallback_name(id: u32) -> (r: String)
    ensures
        r@ == fallback_text(id),
{
    let d = decimal_text(id as u64);
    cat2("_t", &d)
}

/// The context after `id` has got a temporary name, if it had none.
pub open spec fn with_temp_name(c: Ctx, id: u32) -> Ctx {
    if c.temps.contains_key(id) {
        c
    } else {
        Ctx {
            temps: c.temps.insert(id, temp_text(c.counter as nat)),
            temp_pairs: c.temp_pairs.push((id, temp_text(c.counter as nat))),
            counter: next_number(c.counter),
            ..c
        }
    }
}

/// The name under which a source variable is written.
pub open spec fn source_text(c: Ctx, name: Seq<char>) -> Seq<char> {
    match renamed_to(c.source_names, name) {
        Some(n) => n,
        None => name,
    }
}

/// The name under which an identifier is written.
pub open spec fn name_text(c: Ctx, id: Identifier) -> Seq<char> {
    if c.id_names.contains_key(id.id.0) {
        c.id_names[id.id.0]
    } else {
        match id.name {
            Some(n) => source_text(c, n.text()),
            None => if c.temps.contains_key(id.id.0) {
                c.temps[id.id.0]
            } else {
                fallback_text(id.id.0)
            },
        }
    }
}

/// The expression for a place: the one that stands for it, else its name.
pub open spec fn place_text(c: Ctx, p: Place) -> Seq<char> {
    if c.exprs.contains_key(p.identifier.id.0) {
        c.exprs[p.identifier.id.0]
    } else {
        name_text(c, p.identifier)
    }
}

/// `s` in parentheses.
pub open spec fn parens(s: Seq<char>) -> Seq<char> {
    "("@ + s + ")"@
}

/// The expression for a place as an operand that must bind at least as tightly as `min`.
pub open spec fn operand_text(c: Ctx, p: Place, min: int) -> Seq<char> {
    let id = p.identifier.id.0;
    if c.levels.contains_key(id) && 0 < c.levels[id] < min {
        parens(place_text(c, p))
    } else {
        place_text(c, p)
    }
}

/// The expression for a place as an operand of a logical operator: another logical operator, a
/// conditional or an arrow function is put in parentheses.
pub open spec fn logical_operand_text(c: Ctx, p: Place, level: u8) -> Seq<char> {
    let id = p.identifier.id.0;
    if c.levels.contains_key(id) && 0 < c.levels[id] <= 6 && c.levels[id] != level {
        parens(place_text(c, p))
    } else {
        place_text(c, p)
    }
}

/// The expression for a place as a branch of a conditional: another conditional, or `??`, is put in
/// parentheses.
pub open spec fn branch_text(c: Ctx, p: Place) -> Seq<char> {
    let id = p.identifier.id.0;
    if c.levels.contains_key(id) && 3 <= c.levels[id] < 5 {
        parens(place_text(c, p))
    } else {
        place_text(c, p)
    }
}

pub open spec fn argument_text(c: Ctx, a: Argument) -> Seq<char> {
    match a {
        Argument::Place(p) => place_text(c, p),
        Argument::Spread(p) => "..."@ + place_text(c, p),
    }
}

pub open spec fn arguments_text(c: Ctx, args: Seq<Argument>) -> Seq<char> {
    joined(args.map_values(|a: Argument| argument_text(c, a)), ", "@)
}

/// Whether `s` begins and ends with a double quote and is more than one of them.
pub open spec fn quoted(s: Seq<char>) -> bool {
    s.len() >= 2 && s[0] == '"' && s.last() == '"'
}

/// What stands between the quotes.
pub open spec fn unquoted(s: Seq<char>) -> Seq<char> {
    s.subrange(1, s.len() - 1)
}

/// How the property of a method call is written: its text, and whether it stands in brackets. A quoted
/// name, or a name behind the receiver and a dot, is written behind a dot.
pub open spec fn method_text(c: Ctx, property: Place, receiver: Seq<char>) -> (Seq<char>, bool) {
    let p = place_text(c, property);
    if quoted(p) {
        (unquoted(p), false)
    } else if has_prefix(p, receiver) && has_prefix(p.skip(receiver.len() as int), "."@)
        && valid_identifier(p.skip(receiver.len() as int).skip(1)) {
        (p.skip(receiver.len() as int).skip(1), false)
    } else if has_prefix(p, receiver) && has_prefix(p.skip(receiver.len() as int), "?."@)
        && valid_identifier(p.skip(receiver.len() as int).skip(2)) {
        (p.skip(receiver.len() as int).skip(2), false)
    } else {
        (p, true)
    }
}

/// The name of a variable that a place loads or is, if it is one.
pub open spec fn named_var(c: Ctx, p: Place) -> Option<Seq<char>> {
    let id = p.identifier.id.0;
    if c.exprs.contains_key(id) && valid_identifier(c.exprs[id]) {
        Some(c.exprs[id])
    } else {
        match p.identifier.name {
            Some(n) => Some(n.text()),
            None => None,
        }
    }
}

/// The name of a place, or of the variable that it loads.
pub open spec fn resolved_name(c: Ctx, p: Place) -> Option<Seq<char>> {
    let id = p.identifier.id.0;
    match p.identifier.name {
        Some(n) => Some(n.text()),
        None => if c.exprs.contains_key(id) && valid_identifier(c.exprs[id]) {
            Some(c.exprs[id])
        } else {
            None
        },
    }
}

/// Splits a quoted text.
pub fn strip_quotes(s: &str) -> (r: Option<String>)
    ensures
        match r {
            Some(t) => quoted(s@) && t@ == unquoted(s@),
            None => !quoted(s@),
        },
{
    let cs = chars_of(s);
    if cs.len() >= 2 && cs[0] == '"' && cs[cs.len() - 1] == '"' {
        Some(from_chars(&cs, 1, cs.len() - 1))
    } else {
        None
    }
}

impl Context {
    pub fn new() -> (r: Self)
        ensures
            r@ == empty_ctx(),
    {
        Context {
            expr_map: IdTexts::new(),
            expr_precedence: IdLevels::new(),
            id_rename_map: IdTexts::new(),
            source_rename_map: NameMap::new(),
            temp_name_map: IdTexts::new(),
            temp_name_counter: 0,
            jsx_text_ids: IdSet::new(),
            jsx_element_ids: IdSet::new(),
            outlined_map: IdTexts::new(),
            outer_scope_names: NameSet::new(),
            consumed_temps: IdSet::new(),
            promoted_store_ids: IdSet::new(),
            param_default_stores: IdSet::new(),
            destructured_param_load_ids: IdSet::new(),
            emitted_let_decls: NameSet::new(),
            loop_fallthrough_blocks: IdSet::new(),
            loop_test_blocks: IdSet::new(),
        }
    }

    /// Gives an unnamed identifier the next temporary name, unless it has one.
    pub fn assign_temp_name(&mut self, id: u32)
        ensures
            final(self)@ == with_temp_name(old(self)@, id),
    {
        if !self.temp_name_map.contains(id) {
            let name = temp_name_of(self.temp_name_counter);
            self.temp_name_counter = bump(self.temp_name_counter);
            self.temp_name_map.insert(id, name);
        }
    }

    fn source_name(&self, name: &str) -> (r: String)
        ensures
            r@ == source_text(self@, name@),
    {
        match self.source_rename_map.get(name) {
            Some(n) => n.clone(),
            None => owned(name),
        }
    }

    /// The name under which an identifier is written.
    pub fn identifier_name(&self, id: &Identifier) -> (r: String)
        ensures
            r@ == name_text(self@, *id),
    {
        if let Some(renamed) = self.id_rename_map.get(id.id.0) {
            return renamed.clone();
        }
        match &id.name {
            Some(n) => self.source_name(n.value()),
            None => match self.temp_name_map.get(id.id.0) {
                Some(name) => name.clone(),
                None => fallback_name(id.id.0),
            },
        }
    }

    /// The expression for a place.
    pub fn resolve_place(&self, place: &Place) -> (r: String)
        ensures
            r@ == place_text(self@, *place),
    {
        if let Some(expr) = self.expr_map.get(place.identifier.id.0) {
            return expr.clone();
        }
        self.identifier_name(&place.identifier)
    }

    pub fn resolve_place_with_min_prec(&self, place: &Place, min_prec: u8) -> (r: String)
        ensures
            r@ == operand_text(self@, *place, min_prec as int),
    {
        let expr = self.resolve_place(place);
        if let Some(prec) = self.expr_precedence.get(place.identifier.id.0) {
            if prec > 0 && prec < min_prec {
                return cat3("(", &expr, ")");
            }
        }
        expr
    }

    pub fn resolve_place_with_logical_parens(&self, place: &Place, parent_prec: u8) -> (r: String)
        ensures
            r@ == logical_operand_text(self@, *place, parent_prec),
    {
        let expr = self.resolve_place(place);
        if let Some(prec) = self.expr_precedence.get(place.identifier.id.0) {
            if 0 < prec && prec <= 6 && prec != parent_prec {
                return cat3("(", &expr, ")");
            }
        }
        expr
    }

    pub fn resolve_branch(&self, place: &Place) -> (r: String)
        ensures
            r@ == branch_text(self@, *place),
    {
        let expr = self.resolve_place(place);
        if let Some(prec) = self.expr_precedence.get(place.identifier.id.0) {
            if 3 <= prec && prec < 5 {
                return cat3("(", &expr, ")");
            }
        }
        expr
    }

    /// Resolves the property of a method call to its text and whether it stands in brackets.
    pub fn resolve_method_property(&self, place: &Place, receiver_expr: &str) -> (r: (String, bool))
        ensures
            (r.0@, r.1) == method_text(self@, *place, receiver_expr@),
    {
        let resolved = self.resolve_place(place);
        if let Some(inner) = strip_quotes(&resolved) {
            return (inner, false);
        }
        let cs = chars_of(&resolved);
        let rs = chars_of(receiver_expr);
        if chars_starts_with(&cs, &rs) {
            let n: usize = rs.len();
            let rest = from_chars(&cs, n, cs.len());
            proof {
                reveal_strlit(".");
                reveal_strlit("?.");
                assert(rest@ =~= resolved@.skip(n as int));
            }
            let ts = chars_of(&rest);
            if crate::text::starts_with(&rest, ".") {
                let name = from_chars(&ts, 1, ts.len());
                proof {
                    assert(name@ =~= rest@.skip(1));
                }
                if is_valid_identifier(&name) {
                    return (name, false);
                }
            }
            if crate::text::starts_with(&rest, "?.") {
                let name = from_chars(&ts, 2, ts.len());
                proof {
                    assert(name@ =~= rest@.skip(2));
                }
                if is_valid_identifier(&name) {
                    return (name, false);
                }
            }
        }
        (resolved, true)
    }

    fn resolve_argument(&self, a: &Argument) -> (r: String)
        ensures
            r@ == argument_text(self@, *a),
    {
        match a {
            Argument::Place(p) => self.resolve_place(p),
            Argument::Spread(p) => {
                let s = self.resolve_place(p);
                cat2("...", &s)
            },
        }
    }

    /// The arguments of a call, with commas between them.
    pub fn resolve_args(&self, args: &Vec<Argument>) -> (r: String)
        ensures
            r@ == arguments_text(self@, args@),
    {
        let mut parts: Vec<String> = Vec::new();
        let mut i: usize = 0;
        while i < args.len()
            invariant
                i <= args@.len(),
                parts@.len() == i,
                forall|k: int| 0 <= k < i ==> (#[trigger] parts@[k])@ == argument_text(self@, args@[k]),
            decreases args@.len() - i,
        {
            let part = self.resolve_argument(&args[i]);
            parts.push(part);
            i = i + 1;
        }
        proof {
            assert(texts(parts@) =~= args@.map_values(|a: Argument| argument_text(self@, a)));
        }
        join(&parts, ", ")
    }

    /// The name of the variable that a place loads or is.
    pub fn get_named_var(&self, place: &Place) -> (r: Option<String>)
        ensures
            match r {
                Some(s) => named_var(self@, *place) == Some(s@),
                None => named_var(self@, *place) is None,
            },
    {
        if let Some(expr) = self.expr_map.get(place.identifier.id.0) {
            if is_valid_identifier(expr) {
                return Some(expr.clone());
            }
        }
        match &place.identifier.name {
            Some(n) => Some(owned(n.value())),
            None => None,
        }
    }

    /// The name of a place, or of the variable that it loads.
    pub fn resolve_to_name(&self, place: &Place) -> (r: Option<String>)
        ensures
            match r {
                Some(s) => resolved_name(self@, *place) == Some(s@),
                None => resolved_name(self@, *place) is None,
            },
    {
        if let Some(n) = &place.identifier.name {
            return Some(owned(n.value()));
        }
        if let Some(expr) = self.expr_map.get(place.identifier.id.0) {
            if is_valid_identifier(expr) {
                return Some(expr.clone());
            }
        }
        None
    }
}

} // verus!
