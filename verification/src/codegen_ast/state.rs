//! What code generation keeps track of while it walks over a function.

use std::rc::Rc;
use vstd::prelude::*;

use crate::codegen_ast::js::{expr_model, option_expr, Ex, Expr, Text};
use crate::codegen_ast::make::{computed_member, ident, number};
use crate::collections::{
    choose_free_name, find_free_name, free_name, least_free, numbered, IdSet, IdTexts, NameSet,
};
use crate::hir::{DeclarationId, Identifier, IdentifierId, Place};
use crate::text::{cat2, decimal, decimal_text, owned};

verus! {

broadcast use crate::codegen_ast::js::group_js;

// ---------------------------------------------------------------------------
// Models
// ---------------------------------------------------------------------------

/// The value that a `let` declaration starts with although the assignment of it was removed.
#[derive(Debug)]
pub struct PreservedInitializer {
    pub declaration: DeclarationId,
    /// The text of the value: a keyword, a number, or else a string.
    pub text: String,
}

/// What does not change during a walk.
pub struct Settings {
    pub change_variables: bool,
    pub hook_guards: bool,
    pub change_detection: bool,
    pub no_features: bool,
    pub always_recompute: bool,
    pub name_functions: bool,
    /// Whether labels are left out.
    pub quiet: bool,
    pub fbt: Set<u32>,
    pub initializers: Seq<PreservedInitializer>,
    pub cache: Text,
    pub function: Text,
}

/// The state of a walk.
pub struct Cx {
    pub settings: Settings,
    pub declared: Set<u32>,
    pub declared_decls: Set<u32>,
    pub declared_names: Set<Text>,
    /// The names that the source uses.
    pub taken: Set<Text>,
    /// The expressions that stand for temporaries, in the order in which these came.
    pub temps: Seq<(u32, Ex)>,
    pub next_slot: u32,
    pub guards: bool,
    pub structural: bool,
    pub decl_names: Map<u32, Text>,
    /// The names that are declared in each open block.
    pub blocks: Seq<Seq<Text>>,
    /// The named variables whose values are put in their places.
    pub inlined: Set<u32>,
    pub jsx_texts: Set<u32>,
    /// The first identifier without a name that had to be resolved.
    pub error: Option<u32>,
    /// The first identifier without a name that had to be written.
    pub unnamed: Option<u32>,
}

/// The state at the start of a walk.
pub open spec fn start(settings: Settings, taken: Set<Text>, names: Map<u32, Text>) -> Cx {
    Cx {
        settings,
        declared: Set::empty(),
        declared_decls: Set::empty(),
        declared_names: Set::empty(),
        taken,
        temps: Seq::empty(),
        next_slot: 0,
        guards: false,
        structural: false,
        decl_names: names,
        blocks: Seq::empty(),
        inlined: Set::empty(),
        jsx_texts: Set::empty(),
        error: None,
        unnamed: None,
    }
}

/// What stands for a temporary.
pub open spec fn temp_at(temps: Seq<(u32, Ex)>, id: u32) -> Option<Ex>
    decreases temps.len(),
{
    if temps.len() == 0 {
        None
    } else if temps[0].0 == id {
        Some(temps[0].1)
    } else {
        temp_at(temps.drop_first(), id)
    }
}

/// The temporaries with `e` for `id`: in place of what was there, else at the end.
pub open spec fn put_temp(temps: Seq<(u32, Ex)>, id: u32, e: Ex) -> Seq<(u32, Ex)>
    decreases temps.len(),
{
    if temps.len() == 0 {
        seq![(id, e)]
    } else if temps[0].0 == id {
        seq![(id, e)] + temps.drop_first()
    } else {
        seq![temps[0]] + put_temp(temps.drop_first(), id, e)
    }
}

pub open spec fn with_temp(cx: Cx, id: u32, e: Ex) -> Cx {
    Cx { temps: put_temp(cx.temps, id, e), ..cx }
}

pub open spec fn with_declared(cx: Cx, id: u32) -> Cx {
    Cx { declared: cx.declared.insert(id), ..cx }
}

pub open spec fn with_decl(cx: Cx, decl: u32) -> Cx {
    Cx { declared_decls: cx.declared_decls.insert(decl), ..cx }
}

pub open spec fn with_name(cx: Cx, name: Text) -> Cx {
    Cx { declared_names: cx.declared_names.insert(name), ..cx }
}

pub open spec fn with_decl_name(cx: Cx, decl: u32, name: Text) -> Cx {
    Cx { decl_names: cx.decl_names.insert(decl, name), ..cx }
}

pub open spec fn has_name(identifier: Identifier) -> bool {
    identifier.name is Some
}

/// The name of an identifier that has one.
pub open spec fn own_name(identifier: Identifier) -> Text {
    match identifier.name {
        Some(n) => n.text(),
        None => Seq::empty(),
    }
}

pub open spec fn temp_text(n: nat) -> Text {
    "t"@ + decimal(n)
}

/// The name of an identifier, or one made from its number.
pub open spec fn written_name(identifier: Identifier) -> Text {
    match identifier.name {
        Some(n) => n.text(),
        None => temp_text(identifier.id.0 as nat),
    }
}

/// An identifier is written: one without a name is noted.
pub open spec fn after_writing(cx: Cx, identifier: Identifier) -> Cx {
    if identifier.name is None && cx.unnamed is None {
        Cx { unnamed: Some(identifier.id.0), ..cx }
    } else {
        cx
    }
}

/// The name under which an identifier is known.
pub open spec fn resolved_name(cx: Cx, identifier: Identifier) -> Text {
    if cx.decl_names.contains_key(identifier.declaration_id.0) {
        cx.decl_names[identifier.declaration_id.0]
    } else {
        written_name(identifier)
    }
}

/// The name of an identifier is resolved: one without a name is an error.
pub open spec fn after_resolving(cx: Cx, identifier: Identifier) -> Cx {
    if cx.decl_names.contains_key(identifier.declaration_id.0) {
        cx
    } else if identifier.name is None && cx.error is None {
        after_writing(Cx { error: Some(identifier.id.0), ..cx }, identifier)
    } else {
        after_writing(cx, identifier)
    }
}

/// `base`, or the first of `base0`, `base1`, ... that nothing else is called.
pub open spec fn synthesized(cx: Cx, base: Text) -> Text {
    free_name(base, cx.taken.union(cx.declared_names))
}

pub open spec fn after_synthesizing(cx: Cx, base: Text) -> Cx {
    let name = synthesized(cx, base);
    Cx { taken: cx.taken.insert(name), declared_names: cx.declared_names.insert(name), ..cx }
}

/// The number behind `n`; the last one stays.
pub open spec fn next_slot(n: u32) -> u32 {
    if n == u32::MAX {
        n
    } else {
        (n + 1) as u32
    }
}

pub open spec fn with_slot(cx: Cx) -> Cx {
    Cx { next_slot: next_slot(cx.next_slot), ..cx }
}

pub open spec fn open_block(cx: Cx) -> Cx {
    Cx { blocks: cx.blocks.push(Seq::empty()), ..cx }
}

pub open spec fn without_names(names: Set<Text>, gone: Seq<Text>, n: int) -> Set<Text>
    decreases n,
{
    if n <= 0 {
        names
    } else {
        without_names(names, gone, n - 1).remove(gone[n - 1])
    }
}

/// A block ends: the names that were declared in it can be declared again.
pub open spec fn close_block(cx: Cx) -> Cx {
    if cx.blocks.len() == 0 {
        cx
    } else {
        let gone = cx.blocks.last();
        Cx {
            blocks: cx.blocks.drop_last(),
            declared_names: without_names(cx.declared_names, gone, gone.len() as int),
            ..cx
        }
    }
}

/// A name is declared in the innermost open block.
pub open spec fn with_block_name(cx: Cx, name: Text) -> Cx {
    if cx.blocks.len() == 0 {
        cx
    } else {
        Cx { blocks: cx.blocks.drop_last().push(cx.blocks.last().push(name)), ..cx }
    }
}

/// What stands for a place among the temporaries, where the place is taken from them.
pub open spec fn inlined_expr(cx: Cx, place: Place) -> Option<Ex> {
    let decl = place.identifier.declaration_id.0;
    if place.identifier.name is None || cx.inlined.contains(decl) {
        temp_at(cx.temps, decl)
    } else {
        None
    }
}

/// The expression for a place.
pub open spec fn place_expr(cx: Cx, place: Place) -> Ex {
    let decl = place.identifier.declaration_id.0;
    match inlined_expr(cx, place) {
        Some(e) => e,
        None => Ex::Identifier(
            if cx.decl_names.contains_key(decl) {
                cx.decl_names[decl]
            } else if place.identifier.name is Some {
                own_name(place.identifier)
            } else {
                temp_text(decl as nat)
            },
        ),
    }
}

/// A place is written: its name is kept for its declaration.
pub open spec fn after_place(cx: Cx, place: Place) -> Cx {
    let decl = place.identifier.declaration_id.0;
    if inlined_expr(cx, place) is None && !cx.decl_names.contains_key(decl)
        && place.identifier.name is Some {
        with_decl_name(cx, decl, own_name(place.identifier))
    } else {
        cx
    }
}

/// The slot of the cache with a number.
pub open spec fn cache_access(cache: Text, index: u32) -> Ex {
    Ex::ComputedMember {
        object: Box::new(Ex::Identifier(cache)),
        property: Box::new(Ex::Number(decimal(index as nat))),
        optional: false,
    }
}

pub open spec fn temp_models(v: Seq<(u32, Rc<Expr>)>) -> Seq<(u32, Ex)> {
    v.map_values(|t: (u32, Rc<Expr>)| (t.0, expr_model(*t.1)))
}

pub open spec fn block_models(v: Seq<Vec<String>>) -> Seq<Seq<Text>> {
    v.map_values(|b: Vec<String>| crate::text::texts(b@))
}

// ---------------------------------------------------------------------------
// Identifiers
// ---------------------------------------------------------------------------

/// Whether an identifier is a temporary: one without a name.
pub fn is_temp_identifier(identifier: &Identifier) -> (r: bool)
    ensures
        r == (identifier.name is None),
{
    identifier.name.is_none()
}

/// The name of an identifier that has one.
pub fn own_name_of(identifier: &Identifier) -> (r: Option<String>)
    ensures
        r is Some == identifier.name is Some,
        r matches Some(s) ==> s@ == own_name(*identifier),
{
    match &identifier.name {
        Some(n) => Some(owned(n.value())),
        None => None,
    }
}

pub fn temp_text_of(n: u32) -> (r: String)
    ensures
        r@ == temp_text(n as nat),
{
    cat2("t", decimal_text(n as u64).as_str())
}

/// The name of an identifier, or one made from its number.
pub fn written_name_of(identifier: &Identifier) -> (r: String)
    ensures
        r@ == written_name(*identifier),
{
    match &identifier.name {
        Some(n) => owned(n.value()),
        None => temp_text_of(identifier.id.0),
    }
}

// ---------------------------------------------------------------------------
// The state
// ---------------------------------------------------------------------------

/// What a walk starts with.
pub struct WalkSettings<'a> {
    pub change_variables: bool,
    pub hook_guards: bool,
    pub change_detection: bool,
    pub no_features: bool,
    pub always_recompute: bool,
    pub name_functions: bool,
    /// Whether labels are left out.
    pub quiet: bool,
    pub fbt: IdSet,
    pub initializers: &'a Vec<PreservedInitializer>,
    pub cache: String,
    pub function: String,
}

impl<'a> View for WalkSettings<'a> {
    type V = Settings;

    open spec fn view(&self) -> Settings {
        Settings {
            change_variables: self.change_variables,
            hook_guards: self.hook_guards,
            change_detection: self.change_detection,
            no_features: self.no_features,
            always_recompute: self.always_recompute,
            name_functions: self.name_functions,
            quiet: self.quiet,
            fbt: self.fbt@,
            initializers: self.initializers@,
            cache: self.cache@,
            function: self.function@,
        }
    }
}

pub struct CodegenContext<'a> {
    settings: WalkSettings<'a>,
    declared: IdSet,
    declared_decls: IdSet,
    declared_names: NameSet,
    taken: NameSet,
    temps: Vec<(u32, Rc<Expr>)>,
    next_slot: u32,
    guards: bool,
    structural: bool,
    decl_names: IdTexts,
    blocks: Vec<Vec<String>>,
    inlined: IdSet,
    jsx_texts: IdSet,
    error: Option<u32>,
    unnamed: Option<u32>,
}

impl<'a> View for CodegenContext<'a> {
    type V = Cx;

    closed spec fn view(&self) -> Cx {
        Cx {
            settings: self.settings@,
            declared: self.declared@,
            declared_decls: self.declared_decls@,
            declared_names: self.declared_names@,
            taken: self.taken@,
            temps: temp_models(self.temps@),
            next_slot: self.next_slot,
            guards: self.guards,
            structural: self.structural,
            decl_names: self.decl_names@,
            blocks: block_models(self.blocks@),
            inlined: self.inlined@,
            jsx_texts: self.jsx_texts@,
            error: self.error,
            unnamed: self.unnamed,
        }
    }
}

proof fn lemma_temp_found(temps: Seq<(u32, Ex)>, id: u32, i: int)
    requires
        0 <= i <= temps.len(),
        i < temps.len() ==> temps[i].0 == id,
        forall|k: int| 0 <= k < i ==> (#[trigger] temps[k]).0 != id,
    ensures
        i < temps.len() ==> temp_at(temps, id) == Some(temps[i].1),
        i == temps.len() ==> temp_at(temps, id) is None,
        forall|e: Ex|
            i < temps.len() ==> #[trigger] put_temp(temps, id, e) == temps.update(i, (id, e)),
        forall|e: Ex|
            i == temps.len() ==> #[trigger] put_temp(temps, id, e) == temps.push((id, e)),
    decreases i,
{
    if i == 0 {
        assert forall|e: Ex| i < temps.len() implies #[trigger] put_temp(temps, id, e)
            == temps.update(i, (id, e)) by {
            assert(put_temp(temps, id, e) =~= temps.update(0, (id, e)));
        }
        assert forall|e: Ex| i == temps.len() implies #[trigger] put_temp(temps, id, e)
            == temps.push((id, e)) by {
            assert(put_temp(temps, id, e) =~= temps.push((id, e)));
        }
    } else {
        let rest = temps.drop_first();
        assert(temps[0].0 != id);
        assert forall|k: int| 0 <= k < i - 1 implies (#[trigger] rest[k]).0 != id by {
            assert(rest[k] == temps[k + 1]);
        }
        lemma_temp_found(rest, id, i - 1);
        assert forall|e: Ex| i < temps.len() implies #[trigger] put_temp(temps, id, e)
            == temps.update(i, (id, e)) by {
            assert(put_temp(rest, id, e) == rest.update(i - 1, (id, e)));
            assert(put_temp(temps, id, e) =~= temps.update(i, (id, e)));
        }
        assert forall|e: Ex| i == temps.len() implies #[trigger] put_temp(temps, id, e)
            == temps.push((id, e)) by {
            assert(put_temp(rest, id, e) == rest.push((id, e)));
            assert(put_temp(temps, id, e) =~= temps.push((id, e)));
        }
    }
}

impl<'a> CodegenContext<'a> {
    /// The state at the start of a walk, where the source uses the names `taken` and some declarations
    /// have names already.
    pub fn new(settings: WalkSettings<'a>, taken: NameSet, names: IdTexts) -> (r: Self)
        ensures
            r@ == start(settings@, taken@, names@),
    {
        let r = CodegenContext {
            settings,
            declared: IdSet::new(),
            declared_decls: IdSet::new(),
            declared_names: NameSet::new(),
            taken,
            temps: Vec::new(),
            next_slot: 0,
            guards: false,
            structural: false,
            decl_names: names,
            blocks: Vec::new(),
            inlined: IdSet::new(),
            jsx_texts: IdSet::new(),
            error: None,
            unnamed: None,
        };
        assert(r@.temps =~= Seq::empty());
        assert(r@.blocks =~= Seq::empty());
        r
    }

    // -- settings ------------------------------------------------------------

    pub fn change_variables(&self) -> (r: bool)
        ensures
            r == self@.settings.change_variables,
    {
        self.settings.change_variables
    }

    pub fn hook_guards(&self) -> (r: bool)
        ensures
            r == (self@.settings.hook_guards && !self@.settings.no_features),
    {
        self.settings.hook_guards && !self.settings.no_features
    }

    pub fn change_detection(&self) -> (r: bool)
        ensures
            r == self@.settings.change_detection,
    {
        self.settings.change_detection
    }

    pub fn always_recompute(&self) -> (r: bool)
        ensures
            r == self@.settings.always_recompute,
    {
        self.settings.always_recompute
    }

    pub fn name_functions(&self) -> (r: bool)
        ensures
            r == self@.settings.name_functions,
    {
        self.settings.name_functions
    }

    pub fn quiet(&self) -> (r: bool)
        ensures
            r == self@.settings.quiet,
    {
        self.settings.quiet
    }

    pub fn is_fbt_operand(&self, id: IdentifierId) -> (r: bool)
        ensures
            r == self@.settings.fbt.contains(id.0),
    {
        self.settings.fbt.contains(id.0)
    }

    pub fn initializers(&self) -> (r: &'a Vec<PreservedInitializer>)
        ensures
            r@ == self@.settings.initializers,
    {
        self.settings.initializers
    }

    pub fn function(&self) -> (r: &str)
        ensures
            r@ == self@.settings.function,
    {
        self.settings.function.as_str()
    }

    /// A context knows finitely many names.
    pub proof fn lemma_names_finite(&self)
        ensures
            self@.taken.finite(),
            self@.declared_names.finite(),
    {
        self.taken.lemma_finite();
        self.declared_names.lemma_finite();
    }

    // -- declarations --------------------------------------------------------

    pub fn is_declared(&self, id: IdentifierId) -> (r: bool)
        ensures
            r == self@.declared.contains(id.0),
    {
        self.declared.contains(id.0)
    }

    pub fn declare(&mut self, id: IdentifierId)
        ensures
            final(self)@ == with_declared(old(self)@, id.0),
    {
        self.declared.insert(id.0);
    }

    pub fn is_decl_declared(&self, decl: DeclarationId) -> (r: bool)
        ensures
            r == self@.declared_decls.contains(decl.0),
    {
        self.declared_decls.contains(decl.0)
    }

    pub fn declare_decl(&mut self, decl: DeclarationId)
        ensures
            final(self)@ == with_decl(old(self)@, decl.0),
    {
        self.declared_decls.insert(decl.0);
    }

    pub fn is_name_declared(&self, name: &str) -> (r: bool)
        ensures
            r == self@.declared_names.contains(name@),
    {
        self.declared_names.contains(name)
    }

    pub fn declare_name(&mut self, name: &str)
        ensures
            final(self)@ == with_name(old(self)@, name@),
    {
        self.declared_names.insert(name);
    }

    // -- names ---------------------------------------------------------------

    /// The name under which a declaration is known, where it is known.
    pub fn decl_name(&self, decl: DeclarationId) -> (r: Option<String>)
        ensures
            r is Some == self@.decl_names.contains_key(decl.0),
            r matches Some(s) ==> s@ == self@.decl_names[decl.0],
    {
        match self.decl_names.get(decl.0) {
            Some(s) => Some(owned(s)),
            None => None,
        }
    }

    pub fn set_decl_name(&mut self, decl: DeclarationId, name: &str)
        ensures
            final(self)@ == with_decl_name(old(self)@, decl.0, name@),
    {
        self.decl_names.insert(decl.0, owned(name));
    }

    /// The name of an identifier. One without a name is noted.
    pub fn identifier_name(&mut self, identifier: &Identifier) -> (r: String)
        ensures
            r@ == written_name(*identifier),
            final(self)@ == after_writing(old(self)@, *identifier),
    {
        if identifier.name.is_none() && self.unnamed.is_none() {
            self.unnamed = Some(identifier.id.0);
        }
        written_name_of(identifier)
    }

    /// The name under which an identifier is known. One without a name is an error.
    pub fn resolve_identifier_name(&mut self, identifier: &Identifier) -> (r: String)
        ensures
            r@ == resolved_name(old(self)@, *identifier),
            final(self)@ == after_resolving(old(self)@, *identifier),
    {
        if let Some(name) = self.decl_name(identifier.declaration_id) {
            return name;
        }
        if identifier.name.is_none() && self.error.is_none() {
            self.error = Some(identifier.id.0);
        }
        self.identifier_name(identifier)
    }

    /// A name that nothing else has: `base`, or `base` and a number.
    pub fn synthesize_name(&mut self, base: &str) -> (r: String)
        ensures
            r@ == synthesized(old(self)@, base@),
            !old(self)@.taken.contains(r@),
            !old(self)@.declared_names.contains(r@),
            final(self)@ == after_synthesizing(old(self)@, base@),
    {
        let name = choose_free_name(base, &self.taken, &self.declared_names);
        self.taken.insert(&name);
        self.declared_names.insert(&name);
        name
    }

    /// The first of `t{from}`, ... that is neither declared nor used in the source.
    pub fn fresh_temp_name(&self, from: u64) -> (r: String)
        ensures
            r@ == numbered(
                "t"@,
                least_free("t"@, from as nat, self@.declared_names.union(self@.taken)),
            ),
            !self@.taken.contains(r@),
            !self@.declared_names.contains(r@),
    {
        find_free_name("t", from, &self.declared_names, &self.taken)
    }

    /// Opens a block.
    pub fn push_name_scope(&mut self)
        ensures
            final(self)@ == open_block(old(self)@),
    {
        self.blocks.push(Vec::new());
        proof {
            assert(crate::text::texts(Seq::<String>::empty()) =~= Seq::<Text>::empty());
            assert(block_models(self.blocks@) =~= block_models(old(self).blocks@).push(
                Seq::empty(),
            ));
        }
    }

    /// Ends a block: the names that were declared in it can be declared again.
    pub fn pop_name_scope(&mut self)
        ensures
            final(self)@ == close_block(old(self)@),
    {
        let ghost before = self.blocks@;
        let last = self.blocks.pop();
        if let Some(names) = last {
            let ghost gone = crate::text::texts(names@);
            proof {
                assert(block_models(self.blocks@) =~= block_models(before).drop_last());
                assert(block_models(before).last() == gone);
            }
            let ghost start = self.declared_names@;
            let ghost here = self@;
            let mut i: usize = 0;
            while i < names.len()
                invariant
                    i <= names@.len(),
                    gone == crate::text::texts(names@),
                    self@ == (Cx { declared_names: without_names(start, gone, i as int), ..here }),
                decreases names@.len() - i,
            {
                self.declared_names.remove(&names[i]);
                i = i + 1;
            }
        }
    }

    /// Notes that a name is declared in the innermost open block.
    pub fn register_scoped_name(&mut self, name: &str)
        ensures
            final(self)@ == with_block_name(old(self)@, name@),
    {
        let ghost before = self.blocks@;
        let last = self.blocks.pop();
        if let Some(names) = last {
            let mut names = names;
            let ghost old_names = names@;
            names.push(owned(name));
            self.blocks.push(names);
            proof {
                assert(crate::text::texts(names@) =~= crate::text::texts(old_names).push(name@));
                assert(block_models(self.blocks@) =~= block_models(before).drop_last().push(
                    block_models(before).last().push(name@),
                ));
            }
        }
    }

    // -- temporaries ---------------------------------------------------------

    /// The position of a temporary, or the number of temporaries where it has none.
    fn temp_position(&self, decl: DeclarationId) -> (r: usize)
        ensures
            r <= self.temps@.len(),
            ({
                let temps = temp_models(self.temps@);
                &&& r < temps.len() ==> temps[r as int].0 == decl.0 && temp_at(temps, decl.0)
                    == Some(temps[r as int].1)
                &&& r == temps.len() ==> temp_at(temps, decl.0) is None
                &&& forall|e: Ex|
                    r < temps.len() ==> #[trigger] put_temp(temps, decl.0, e) == temps.update(
                        r as int,
                        (decl.0, e),
                    )
                &&& forall|e: Ex|
                    r == temps.len() ==> #[trigger] put_temp(temps, decl.0, e) == temps.push(
                        (decl.0, e),
                    )
            }),
    {
        let mut i: usize = 0;
        while i < self.temps.len() && self.temps[i].0 != decl.0
            invariant
                i <= self.temps@.len(),
                forall|k: int| 0 <= k < i ==> (#[trigger] self.temps@[k]).0 != decl.0,
            decreases self.temps@.len() - i,
        {
            i = i + 1;
        }
        proof {
            assert forall|k: int| 0 <= k < i implies (#[trigger] temp_models(self.temps@)[k]).0
                != decl.0 by {
                assert(self.temps@[k].0 != decl.0);
            }
            lemma_temp_found(temp_models(self.temps@), decl.0, i as int);
        }
        i
    }

    /// The expression that stands for a temporary.
    pub fn temp(&self, decl: DeclarationId) -> (r: Option<Rc<Expr>>)
        ensures
            option_expr(r) == temp_at(self@.temps, decl.0),
    {
        let i: usize = self.temp_position(decl);
        if i < self.temps.len() {
            Some(self.temps[i].1.clone())
        } else {
            None
        }
    }

    /// Lets an expression stand for a temporary.
    pub fn set_temp(&mut self, decl: DeclarationId, expr: Rc<Expr>)
        ensures
            final(self)@ == with_temp(old(self)@, decl.0, expr_model(*expr)),
    {
        let ghost before = temp_models(self.temps@);
        let i: usize = self.temp_position(decl);
        let ghost model = expr@;
        if i < self.temps.len() {
            self.temps.set(i, (decl.0, expr));
            proof {
                assert(temp_models(self.temps@) =~= before.update(i as int, (decl.0, model)));
            }
        } else {
            self.temps.push((decl.0, expr));
            proof {
                assert(temp_models(self.temps@) =~= before.push((decl.0, model)));
            }
        }
    }

    /// All temporaries, in the order in which they came.
    pub fn temps(&self) -> (r: &Vec<(u32, Rc<Expr>)>)
        ensures
            temp_models(r@) == self@.temps,
    {
        &self.temps
    }

    pub fn inline_decl(&mut self, decl: DeclarationId)
        ensures
            final(self)@ == (Cx { inlined: old(self)@.inlined.insert(decl.0), ..old(self)@ }),
    {
        self.inlined.insert(decl.0);
    }

    pub fn note_jsx_text(&mut self, decl: DeclarationId)
        ensures
            final(self)@ == (Cx { jsx_texts: old(self)@.jsx_texts.insert(decl.0), ..old(self)@ }),
    {
        self.jsx_texts.insert(decl.0);
    }

    pub fn is_jsx_text(&self, decl: DeclarationId) -> (r: bool)
        ensures
            r == self@.jsx_texts.contains(decl.0),
    {
        self.jsx_texts.contains(decl.0)
    }

    // -- the cache and the guards --------------------------------------------

    pub fn slots(&self) -> (r: u32)
        ensures
            r == self@.next_slot,
    {
        self.next_slot
    }

    /// The next slot of the cache.
    pub fn alloc_cache_slot(&mut self) -> (slot: u32)
        ensures
            slot == old(self)@.next_slot,
            final(self)@ == with_slot(old(self)@),
    {
        let slot: u32 = self.next_slot;
        if slot < u32::MAX {
            self.next_slot = slot + 1;
        }
        slot
    }

    /// The slot of the cache with a number.
    pub fn cache_access(&self, index: u32) -> (r: Rc<Expr>)
        ensures
            expr_model(*r) == cache_access(self@.settings.cache, index),
    {
        computed_member(ident(self.settings.cache.as_str()), number(index), false)
    }

    pub fn note_guard(&mut self)
        ensures
            final(self)@ == (Cx { guards: true, ..old(self)@ }),
    {
        self.guards = true;
    }

    pub fn has_guards(&self) -> (r: bool)
        ensures
            r == self@.guards,
    {
        self.guards
    }

    pub fn note_structural_check(&mut self)
        ensures
            final(self)@ == (Cx { structural: true, ..old(self)@ }),
    {
        self.structural = true;
    }

    pub fn has_structural_check(&self) -> (r: bool)
        ensures
            r == self@.structural,
    {
        self.structural
    }

    pub fn error(&self) -> (r: Option<u32>)
        ensures
            r == self@.error,
    {
        self.error
    }

    pub fn unnamed(&self) -> (r: Option<u32>)
        ensures
            r == self@.unnamed,
    {
        self.unnamed
    }

    pub fn set_unnamed(&mut self, id: Option<u32>)
        ensures
            final(self)@ == (Cx { unnamed: id, ..old(self)@ }),
    {
        self.unnamed = id;
    }

    // -- places --------------------------------------------------------------

    /// The expression for a place: what stands for a temporary, else a name.
    pub fn codegen_place(&mut self, place: &Place) -> (r: Rc<Expr>)
        ensures
            expr_model(*r) == place_expr(old(self)@, *place),
            final(self)@ == after_place(old(self)@, *place),
    {
        let decl = place.identifier.declaration_id;
        if is_temp_identifier(&place.identifier) || self.inlined.contains(decl.0) {
            if let Some(e) = self.temp(decl) {
                return e;
            }
        }
        if let Some(name) = self.decl_name(decl) {
            return Rc::new(Expr::Identifier(name));
        }
        if let Some(name) = own_name_of(&place.identifier) {
            self.set_decl_name(decl, name.as_str());
            return Rc::new(Expr::Identifier(name));
        }
        Rc::new(Expr::Identifier(temp_text_of(decl.0)))
    }
}

} // verus!
