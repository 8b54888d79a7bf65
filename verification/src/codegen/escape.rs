//! Whether memoizing a function is worth while: what it allocates, and where that goes.

use vstd::prelude::*;

use crate::codegen::context::{place_text, Context, Ctx};
use crate::codegen::flow::{
    close_over_flow, flow_closure, id_produces_primitive, primitive_id, result_id,
};
use crate::codegen::hooks::{hook_call, looks_like_hook_call};
use crate::codegen::promote::{does_make_object, makes_object};
use crate::collections::{IdSet, NameSet};
use crate::extract_scope_destructuring::{each_pattern_operand, pattern_operands};
use crate::graph::{
    argument_places, instructions, instructions_of, lemma_instruction_smaller, pointees, refs_are,
};
use crate::hir::{
    Argument, BasicBlock, DeclarationId, HIRFunction, Identifier, IdentifierName, Instruction,
    InstructionKind, InstructionValue, LoweredFunction, NonLocalBinding, Place, Terminal,
};
use crate::text::cat2;

verus! {

// ---------------------------------------------------------------------------
// Allocations
// ---------------------------------------------------------------------------

/// Whether an instruction makes, or may make, a new object. A function that stands outside is none,
/// and hooks are taken to keep theirs.
pub open spec fn allocates(c: Ctx, instr: Instruction) -> bool {
    match instr.value {
        InstructionValue::ObjectExpression { .. } => true,
        InstructionValue::ArrayExpression { .. } => true,
        InstructionValue::JsxExpression { .. } => true,
        InstructionValue::JsxFragment { .. } => true,
        InstructionValue::ObjectMethod { .. } => true,
        InstructionValue::RegExpLiteral { .. } => true,
        InstructionValue::NewExpression { .. } => true,
        InstructionValue::TaggedTemplateExpression { .. } => true,
        InstructionValue::MethodCall { .. } => true,
        InstructionValue::FunctionExpression { .. } => !c.outlined.contains_key(result_id(instr)),
        InstructionValue::CallExpression { callee, .. } => !calls_hook(c, callee),
        _ => false,
    }
}

pub open spec fn calls_hook(c: Ctx, callee: Place) -> bool {
    hook_call(place_text(c, callee) + "()"@)
}

/// Whether a body has nothing to memoize: it does nothing, or it allocates nothing.
pub open spec fn trivial_body(c: Ctx, func: HIRFunction, empty: bool) -> bool {
    empty || forall|i: int|
        0 <= i < instructions(func).len() ==> !allocates(c, #[trigger] instructions(func)[i])
}

/// The results of those of the first `n` instructions that allocate.
pub open spec fn allocations(c: Ctx, instrs: Seq<Instruction>, n: int) -> Set<u32>
    decreases n,
{
    if n <= 0 {
        Set::empty()
    } else {
        let front = allocations(c, instrs, n - 1);
        if allocates(c, instrs[n - 1]) {
            front.insert(result_id(instrs[n - 1]))
        } else {
            front
        }
    }
}

pub open spec fn any_argument(ids: Set<u32>, args: Seq<Argument>) -> bool {
    exists|i: int|
        0 <= i < args.len() && ids.contains((#[trigger] args[i]).place_of().identifier.id.0)
}

/// Whether one of the instructions makes the object `id`.
pub open spec fn made_here(instrs: Seq<Instruction>, id: u32) -> bool {
    exists|i: int|
        0 <= i < instrs.len() && result_id(#[trigger] instrs[i]) == id && makes_object(
            instrs[i].value,
        )
}

pub open spec fn any_declared(places: Seq<Place>, decl: DeclarationId) -> bool {
    exists|i: int|
        0 <= i < places.len() && (#[trigger] places[i]).identifier.declaration_id == decl
}

/// Whether an instruction gives a variable another value than an object that is made here.
pub open spec fn sets_otherwise(
    instrs: Seq<Instruction>,
    instr: Instruction,
    decl: DeclarationId,
) -> bool {
    match instr.value {
        InstructionValue::StoreLocal { lvalue, value, .. } => lvalue.place.identifier.declaration_id
            == decl && !made_here(instrs, value.identifier.id.0),
        InstructionValue::StoreContext { lvalue, .. } => lvalue.place.identifier.declaration_id
            == decl,
        InstructionValue::Destructure { lvalue, .. } => any_declared(
            pattern_operands(lvalue.pattern),
            decl,
        ),
        InstructionValue::PrefixUpdate { lvalue, .. } => lvalue.identifier.declaration_id == decl,
        InstructionValue::PostfixUpdate { lvalue, .. } => lvalue.identifier.declaration_id == decl,
        _ => false,
    }
}

pub open spec fn stores_to(instr: Instruction, decl: DeclarationId) -> bool {
    instr.value matches InstructionValue::StoreLocal { lvalue, .. }
        && lvalue.place.identifier.declaration_id == decl
}

/// Whether a variable, which is no parameter, only ever holds objects that are made here.
pub open spec fn holds_made(func: HIRFunction, decl: DeclarationId) -> bool {
    let instrs = instructions(func);
    &&& !any_declared(argument_places(func.params@), decl)
    &&& exists|i: int| 0 <= i < instrs.len() && stores_to(#[trigger] instrs[i], decl)
    &&& forall|i: int|
        0 <= i < instrs.len() ==> !sets_otherwise(instrs, #[trigger] instrs[i], decl)
}

pub open spec fn loads_made(func: HIRFunction, instr: Instruction, id: u32) -> bool {
    result_id(instr) == id && (instr.value matches InstructionValue::LoadLocal { place }
        && holds_made(func, place.identifier.declaration_id))
}

/// Whether a place is an object that the function makes, or a load of a variable that only holds such
/// objects.
pub open spec fn local_object(func: HIRFunction, id: u32) -> bool {
    made_here(instructions(func), id) || exists|i: int|
        0 <= i < instructions(func).len() && loads_made(func, #[trigger] instructions(func)[i], id)
}

/// Whether an instruction hands one of `ids` to a call of something that is no hook, or stores it in an
/// object that is not local to the function.
pub open spec fn lets_escape(c: Ctx, func: HIRFunction, ids: Set<u32>, instr: Instruction) -> bool {
    match instr.value {
        InstructionValue::CallExpression { callee, args, .. } => !calls_hook(c, callee)
            && any_argument(ids, args@),
        InstructionValue::MethodCall { args, .. } => any_argument(ids, args@),
        InstructionValue::PropertyStore { object, value, .. } => ids.contains(
            value.identifier.id.0,
        ) && !local_object(func, object.identifier.id.0),
        InstructionValue::ComputedStore { object, value, .. } => ids.contains(
            value.identifier.id.0,
        ) && !local_object(func, object.identifier.id.0),
        _ => false,
    }
}

pub open spec fn returns_any(ids: Set<u32>, block: BasicBlock) -> bool {
    block.terminal matches Terminal::Return { value, .. } && ids.contains(value.identifier.id.0)
}

/// Whether one of `ids` leaves the function: it is returned, handed to a call or stored in an object.
pub open spec fn some_escape(c: Ctx, func: HIRFunction, ids: Set<u32>) -> bool {
    (exists|b: int|
        0 <= b < func.body.blocks@.len() && returns_any(
            ids,
            (#[trigger] func.body.blocks@[b]).1,
        )) || (exists|i: int|
        0 <= i < instructions(func).len() && lets_escape(
            c,
            func,
            ids,
            #[trigger] instructions(func)[i],
        ))
}

/// Whether something that the function allocates leaves it.
pub open spec fn escapes(c: Ctx, func: HIRFunction) -> bool {
    let instrs = instructions(func);
    some_escape(c, func, flow_closure(instrs, allocations(c, instrs, instrs.len() as int)))
}

impl Context {
    pub fn does_call_hook(&self, callee: &Place) -> (r: bool)
        ensures
            r == calls_hook(self@, *callee),
    {
        let name = self.resolve_place(callee);
        let call = cat2(&name, "()");
        looks_like_hook_call(&call)
    }

    fn does_allocate(&self, instr: &Instruction) -> (r: bool)
        ensures
            r == allocates(self@, *instr),
    {
        match &instr.value {
            InstructionValue::ObjectExpression { .. } => true,
            InstructionValue::ArrayExpression { .. } => true,
            InstructionValue::JsxExpression { .. } => true,
            InstructionValue::JsxFragment { .. } => true,
            InstructionValue::ObjectMethod { .. } => true,
            InstructionValue::RegExpLiteral { .. } => true,
            InstructionValue::NewExpression { .. } => true,
            InstructionValue::TaggedTemplateExpression { .. } => true,
            InstructionValue::MethodCall { .. } => true,
            InstructionValue::FunctionExpression { .. } => !self.outlined_map.contains(
                instr.lvalue.identifier.id.0,
            ),
            InstructionValue::CallExpression { callee, .. } => !self.does_call_hook(callee),
            _ => false,
        }
    }

    /// Checks if a body has nothing to memoize: `empty` says that it does nothing.
    pub fn is_trivial_body(&self, func: &HIRFunction, empty: bool) -> (r: bool)
        ensures
            r == trivial_body(self@, *func, empty),
    {
        if empty {
            return true;
        }
        let instrs = instructions_of(func);
        let ghost all = instructions(*func);
        let mut i: usize = 0;
        while i < instrs.len()
            invariant
                !empty,
                all == instructions(*func),
                refs_are(instrs@, all),
                i <= instrs@.len(),
                forall|k: int| 0 <= k < i ==> !allocates(self@, #[trigger] all[k]),
            decreases instrs@.len() - i,
        {
            if self.does_allocate(instrs[i]) {
                assert(allocates(self@, all[i as int]));
                return false;
            }
            i = i + 1;
        }
        true
    }

    fn find_allocations(&self, instrs: &Vec<&Instruction>) -> (ids: IdSet)
        ensures
            ids@ == allocations(self@, pointees(instrs@), instrs@.len() as int),
    {
        let ghost all = pointees(instrs@);
        let mut ids = IdSet::new();
        let mut i: usize = 0;
        while i < instrs.len()
            invariant
                all == pointees(instrs@),
                i <= instrs@.len(),
                ids@ == allocations(self@, all, i as int),
            decreases instrs@.len() - i,
        {
            if self.does_allocate(instrs[i]) {
                ids.insert(instrs[i].lvalue.identifier.id.0);
            }
            i = i + 1;
        }
        ids
    }

    /// Checks if something that the function allocates leaves it.
    pub fn allocations_escape(&self, func: &HIRFunction) -> (r: bool)
        ensures
            r == escapes(self@, *func),
    {
        let instrs = instructions_of(func);
        let mut ids = self.find_allocations(&instrs);
        close_over_flow(&instrs, &mut ids);
        self.does_some_escape(func, &instrs, &ids)
    }

    fn does_let_escape(
        &self,
        func: &HIRFunction,
        instrs: &Vec<&Instruction>,
        ids: &IdSet,
        instr: &Instruction,
    ) -> (r: bool)
        requires
            refs_are(instrs@, instructions(*func)),
        ensures
            r == lets_escape(self@, *func, ids@, *instr),
    {
        match &instr.value {
            InstructionValue::CallExpression { callee, args, .. } => !self.does_call_hook(callee)
                && holds_argument(ids, args),
            InstructionValue::MethodCall { args, .. } => holds_argument(ids, args),
            InstructionValue::PropertyStore { object, value, .. } => ids.contains(
                value.identifier.id.0,
            ) && !is_local_object(func, instrs, object.identifier.id.0),
            InstructionValue::ComputedStore { object, value, .. } => ids.contains(
                value.identifier.id.0,
            ) && !is_local_object(func, instrs, object.identifier.id.0),
            _ => false,
        }
    }

    fn does_some_escape(&self, func: &HIRFunction, instrs: &Vec<&Instruction>, ids: &IdSet) -> (r:
        bool)
        requires
            refs_are(instrs@, instructions(*func)),
        ensures
            r == some_escape(self@, *func, ids@),
    {
        let mut b: usize = 0;
        while b < func.body.blocks.len()
            invariant
                b <= func.body.blocks@.len(),
                forall|k: int|
                    0 <= k < b ==> !returns_any(ids@, (#[trigger] func.body.blocks@[k]).1),
            decreases func.body.blocks@.len() - b,
        {
            if let Terminal::Return { value, .. } = &func.body.blocks[b].1.terminal {
                if ids.contains(value.identifier.id.0) {
                    assert(returns_any(ids@, func.body.blocks@[b as int].1));
                    return true;
                }
            }
            b = b + 1;
        }
        let ghost all = instructions(*func);
        let mut i: usize = 0;
        while i < instrs.len()
            invariant
                all == instructions(*func),
                refs_are(instrs@, all),
                i <= instrs@.len(),
                forall|k: int| 0 <= k < i ==> !lets_escape(self@, *func, ids@, #[trigger] all[k]),
            decreases instrs@.len() - i,
        {
            if self.does_let_escape(func, instrs, ids, instrs[i]) {
                assert(lets_escape(self@, *func, ids@, all[i as int]));
                return true;
            }
            i = i + 1;
        }
        false
    }
}

fn is_made_here(instrs: &Vec<&Instruction>, id: u32) -> (r: bool)
    ensures
        forall|all: Seq<Instruction>| #[trigger]
            refs_are(instrs@, all) ==> r == made_here(all, id),
{
    let mut i: usize = 0;
    while i < instrs.len()
        invariant
            i <= instrs@.len(),
            forall|k: int|
                0 <= k < i ==> !(result_id(*(#[trigger] instrs@[k])) == id && makes_object(
                    instrs@[k].value,
                )),
        decreases instrs@.len() - i,
    {
        if instrs[i].lvalue.identifier.id.0 == id && does_make_object(&instrs[i].value) {
            proof {
                assert forall|all: Seq<Instruction>| #[trigger] refs_are(
                    instrs@,
                    all,
                ) implies made_here(all, id) by {
                    assert(result_id(all[i as int]) == id && makes_object(all[i as int].value));
                }
            }
            return true;
        }
        i = i + 1;
    }
    proof {
        assert forall|all: Seq<Instruction>| #[trigger] refs_are(instrs@, all) implies !made_here(
            all,
            id,
        ) by {
            assert forall|k: int| 0 <= k < all.len() implies !(result_id(#[trigger] all[k]) == id
                && makes_object(all[k].value)) by {
                assert(*instrs@[k] == all[k]);
            }
        }
    }
    false
}

fn is_any_declared(places: &Vec<&Place>, decl: DeclarationId) -> (r: bool)
    ensures
        r == any_declared(pointees(places@), decl),
{
    let ghost all = pointees(places@);
    let mut i: usize = 0;
    while i < places.len()
        invariant
            all == pointees(places@),
            i <= places@.len(),
            forall|k: int| 0 <= k < i ==> (#[trigger] all[k]).identifier.declaration_id != decl,
        decreases places@.len() - i,
    {
        if places[i].identifier.declaration_id == decl {
            assert(all[i as int].identifier.declaration_id == decl);
            return true;
        }
        i = i + 1;
    }
    false
}

fn does_set_otherwise(instrs: &Vec<&Instruction>, instr: &Instruction, decl: DeclarationId) -> (r:
    bool)
    ensures
        forall|all: Seq<Instruction>| #[trigger]
            refs_are(instrs@, all) ==> r == sets_otherwise(all, *instr, decl),
{
    match &instr.value {
        InstructionValue::StoreLocal { lvalue, value, .. } => lvalue.place.identifier.declaration_id
            == decl && !is_made_here(instrs, value.identifier.id.0),
        InstructionValue::StoreContext { lvalue, .. } => lvalue.place.identifier.declaration_id
            == decl,
        InstructionValue::Destructure { lvalue, .. } => {
            let places = each_pattern_operand(&lvalue.pattern);
            is_any_declared(&places, decl)
        },
        InstructionValue::PrefixUpdate { lvalue, .. } => lvalue.identifier.declaration_id == decl,
        InstructionValue::PostfixUpdate { lvalue, .. } => lvalue.identifier.declaration_id == decl,
        _ => false,
    }
}

fn does_hold_made(func: &HIRFunction, instrs: &Vec<&Instruction>, decl: DeclarationId) -> (r: bool)
    requires
        refs_are(instrs@, instructions(*func)),
    ensures
        r == holds_made(*func, decl),
{
    let mut p: usize = 0;
    while p < func.params.len()
        invariant
            p <= func.params@.len(),
            forall|k: int|
                0 <= k < p ==> (#[trigger] argument_places(func.params@)[k]).identifier.declaration_id
                    != decl,
        decreases func.params@.len() - p,
    {
        if func.params[p].place().identifier.declaration_id == decl {
            assert(argument_places(func.params@)[p as int].identifier.declaration_id == decl);
            return false;
        }
        p = p + 1;
    }
    let ghost all = instructions(*func);
    let mut stored = false;
    let mut i: usize = 0;
    while i < instrs.len()
        invariant
            all == instructions(*func),
            refs_are(instrs@, all),
            i <= instrs@.len(),
            forall|k: int| 0 <= k < i ==> !sets_otherwise(all, #[trigger] all[k], decl),
            stored <==> exists|k: int| 0 <= k < i && stores_to(#[trigger] all[k], decl),
        decreases instrs@.len() - i,
    {
        if does_set_otherwise(instrs, instrs[i], decl) {
            assert(sets_otherwise(all, all[i as int], decl));
            return false;
        }
        let ghost before = stored;
        if let InstructionValue::StoreLocal { lvalue, .. } = &instrs[i].value {
            if lvalue.place.identifier.declaration_id == decl {
                stored = true;
            }
        }
        proof {
            assert(stored == (before || stores_to(all[i as int], decl)));
            if before {
                let k = choose|k: int| 0 <= k < i && stores_to(#[trigger] all[k], decl);
                assert(0 <= k < i + 1 && stores_to(all[k], decl));
            }
        }
        i = i + 1;
    }
    stored
}

fn is_local_object(func: &HIRFunction, instrs: &Vec<&Instruction>, id: u32) -> (r: bool)
    requires
        refs_are(instrs@, instructions(*func)),
    ensures
        r == local_object(*func, id),
{
    if is_made_here(instrs, id) {
        return true;
    }
    let ghost all = instructions(*func);
    let mut i: usize = 0;
    while i < instrs.len()
        invariant
            all == instructions(*func),
            refs_are(instrs@, all),
            i <= instrs@.len(),
            forall|k: int| 0 <= k < i ==> !loads_made(*func, #[trigger] all[k], id),
        decreases instrs@.len() - i,
    {
        if instrs[i].lvalue.identifier.id.0 == id {
            if let InstructionValue::LoadLocal { place } = &instrs[i].value {
                if does_hold_made(func, instrs, place.identifier.declaration_id) {
                    assert(loads_made(*func, all[i as int], id));
                    return true;
                }
            }
        }
        i = i + 1;
    }
    false
}

fn holds_argument(ids: &IdSet, args: &Vec<Argument>) -> (r: bool)
    ensures
        r == any_argument(ids@, args@),
{
    let mut i: usize = 0;
    while i < args.len()
        invariant
            i <= args@.len(),
            forall|k: int|
                0 <= k < i ==> !ids@.contains((#[trigger] args@[k]).place_of().identifier.id.0),
        decreases args@.len() - i,
    {
        if ids.contains(args[i].place().identifier.id.0) {
            return true;
        }
        i = i + 1;
    }
    false
}

// ---------------------------------------------------------------------------
// Primitive results
// ---------------------------------------------------------------------------

pub open spec fn returns_value(block: BasicBlock) -> bool {
    block.terminal is Return
}

pub open spec fn returns_primitive_at(instrs: Seq<Instruction>, block: BasicBlock) -> bool {
    block.terminal matches Terminal::Return { value, .. } ==> primitive_id(
        instrs,
        instrs.len(),
        value.identifier.id.0,
        Set::empty(),
    ).0
}

/// Whether the function returns, and each value that it returns is known to be primitive.
pub open spec fn returns_primitive(func: HIRFunction) -> bool {
    (exists|b: int|
        0 <= b < func.body.blocks@.len() && returns_value((#[trigger] func.body.blocks@[b]).1)) && (
    forall|b: int|
        0 <= b < func.body.blocks@.len() ==> returns_primitive_at(
            instructions(func),
            (#[trigger] func.body.blocks@[b]).1,
        ))
}

/// Checks if each value that the function returns is known to be primitive.
pub fn returns_primitive_value(func: &HIRFunction) -> (r: bool)
    ensures
        r == returns_primitive(*func),
{
    let instrs = instructions_of(func);
    let ghost all = instructions(*func);
    let mut any = false;
    let mut b: usize = 0;
    while b < func.body.blocks.len()
        invariant
            all == instructions(*func),
            pointees(instrs@) == all,
            b <= func.body.blocks@.len(),
            any ==> exists|k: int|
                0 <= k < b && returns_value((#[trigger] func.body.blocks@[k]).1),
            !any ==> forall|k: int|
                0 <= k < b ==> !returns_value((#[trigger] func.body.blocks@[k]).1),
            forall|k: int|
                0 <= k < b ==> returns_primitive_at(all, (#[trigger] func.body.blocks@[k]).1),
        decreases func.body.blocks@.len() - b,
    {
        if let Terminal::Return { value, .. } = &func.body.blocks[b].1.terminal {
            assert(returns_value(func.body.blocks@[b as int].1));
            any = true;
            let mut visited = IdSet::new();
            let depth: usize = instrs.len();
            if !id_produces_primitive(&instrs, depth, value.identifier.id.0, &mut visited) {
                assert(!returns_primitive_at(all, func.body.blocks@[b as int].1));
                return false;
            }
        }
        b = b + 1;
    }
    any
}

// ---------------------------------------------------------------------------
// Captured names
// ---------------------------------------------------------------------------

/// The name of an identifier that has one in the source.
pub open spec fn source_name_of(id: Identifier) -> Option<Seq<char>> {
    match id.name {
        Some(IdentifierName::Named(n)) => Some(n@),
        _ => None,
    }
}

pub fn source_name(id: &Identifier) -> (r: Option<&String>)
    ensures
        match r {
            Some(s) => source_name_of(*id) == Some(s@),
            None => source_name_of(*id) is None,
        },
{
    match &id.name {
        Some(IdentifierName::Named(n)) => Some(n),
        _ => None,
    }
}

/// The place that a parameter binds.
pub open spec fn param_place(param: Argument) -> Place {
    match param {
        Argument::Place(p) => p,
        Argument::Spread(p) => p,
    }
}

pub fn place_of_param(param: &Argument) -> (r: &Place)
    ensures
        *r == param_place(*param),
{
    match param {
        Argument::Place(p) => p,
        Argument::Spread(p) => p,
    }
}

/// The source names of the first `n` parameters.
pub open spec fn own_params(params: Seq<Argument>, n: int) -> Set<Seq<char>>
    decreases n,
{
    if n <= 0 {
        Set::empty()
    } else {
        let front = own_params(params, n - 1);
        match source_name_of(param_place(params[n - 1]).identifier) {
            Some(name) => front.insert(name),
            None => front,
        }
    }
}

/// The variables that an instruction declares.
pub open spec fn declared_places(value: InstructionValue) -> Seq<Place> {
    match value {
        InstructionValue::DeclareLocal { lvalue } => seq![lvalue.place],
        InstructionValue::DeclareContext { lvalue } => seq![lvalue.place],
        InstructionValue::StoreLocal { lvalue, .. } => if lvalue.kind == InstructionKind::Reassign {
            Seq::empty()
        } else {
            seq![lvalue.place]
        },
        InstructionValue::StoreContext { lvalue, .. } => if lvalue.kind == InstructionKind::Reassign {
            Seq::empty()
        } else {
            seq![lvalue.place]
        },
        InstructionValue::Destructure { lvalue, .. } => if lvalue.kind == InstructionKind::Reassign {
            Seq::empty()
        } else {
            pattern_operands(lvalue.pattern)
        },
        _ => Seq::empty(),
    }
}

/// The variables that an instruction loads, assigns or updates.
pub open spec fn referred_places(value: InstructionValue) -> Seq<Place> {
    match value {
        InstructionValue::LoadLocal { place } => seq![place],
        InstructionValue::LoadContext { place } => seq![place],
        InstructionValue::StoreLocal { lvalue, .. } => if lvalue.kind == InstructionKind::Reassign {
            seq![lvalue.place]
        } else {
            Seq::empty()
        },
        InstructionValue::StoreContext { lvalue, .. } => if lvalue.kind == InstructionKind::Reassign {
            seq![lvalue.place]
        } else {
            Seq::empty()
        },
        InstructionValue::Destructure { lvalue, .. } => if lvalue.kind == InstructionKind::Reassign {
            pattern_operands(lvalue.pattern)
        } else {
            Seq::empty()
        },
        InstructionValue::PrefixUpdate { lvalue, .. } => seq![lvalue],
        InstructionValue::PostfixUpdate { lvalue, .. } => seq![lvalue],
        _ => Seq::empty(),
    }
}

/// The name of the global that an instruction loads.
pub open spec fn referred_global(value: InstructionValue) -> Option<Seq<char>> {
    match value {
        InstructionValue::LoadGlobal { binding } => match binding {
            NonLocalBinding::Global { name } => Some(name@),
            NonLocalBinding::ModuleLocal { name } => Some(name@),
            _ => None,
        },
        _ => None,
    }
}

/// `names` and the source names of the first `n` places.
pub open spec fn with_place_sources(names: Set<Seq<char>>, places: Seq<Place>, n: int) -> Set<Seq<char>>
    decreases n,
{
    if n <= 0 {
        names
    } else {
        let front = with_place_sources(names, places, n - 1);
        match source_name_of(places[n - 1].identifier) {
            Some(name) => front.insert(name),
            None => front,
        }
    }
}

/// `names` and those that the first `n` instructions declare.
pub open spec fn own_names(names: Set<Seq<char>>, instrs: Seq<Instruction>, n: int) -> Set<Seq<char>>
    decreases n,
{
    if n <= 0 {
        names
    } else {
        let places = declared_places(instrs[n - 1].value);
        with_place_sources(own_names(names, instrs, n - 1), places, places.len() as int)
    }
}

/// `names` and those that a function declares: its parameters and its variables.
pub open spec fn function_names(names: Set<Seq<char>>, func: HIRFunction) -> Set<Seq<char>> {
    let instrs = instructions(func);
    own_names(
        names.union(own_params(func.params@, func.params@.len() as int)),
        instrs,
        instrs.len() as int,
    )
}

/// Whether a name is an `outer` one that is not `own`.
pub open spec fn is_outside(outer: Set<Seq<char>>, own: Set<Seq<char>>, name: Option<Seq<char>>) -> bool {
    name is Some && !own.contains(name->0) && outer.contains(name->0)
}

/// Whether an instruction refers to an `outer` name that is not one of the function's `own`.
pub open spec fn refers_outside(
    outer: Set<Seq<char>>,
    own: Set<Seq<char>>,
    instr: Instruction,
) -> bool {
    is_outside(outer, own, referred_global(instr.value)) || exists|i: int|
        0 <= i < referred_places(instr.value).len() && is_outside(
            outer,
            own,
            source_name_of((#[trigger] referred_places(instr.value)[i]).identifier),
        )
}

/// Whether a function, or one inside of it, refers to an `outer` name that is neither its own nor
/// `hidden` by a function around it.
pub open spec fn captures_beyond(outer: Set<Seq<char>>, hidden: Set<Seq<char>>, func: HIRFunction) -> bool
    decreases func, 1nat, 0nat,
{
    (exists|i: int|
        0 <= i < instructions(func).len() && refers_outside(
            outer,
            function_names(hidden, func),
            #[trigger] instructions(func)[i],
        )) || nested_captures(outer, function_names(hidden, func), func, instructions(func).len() as int)
}

/// Whether a function among the first `n` instructions captures an `outer` name.
pub open spec fn nested_captures(
    outer: Set<Seq<char>>,
    own: Set<Seq<char>>,
    func: HIRFunction,
    n: int,
) -> bool
    decreases func, 0nat, n,
{
    if n <= 0 || n > instructions(func).len() {
        false
    } else {
        let instr = instructions(func)[n - 1];
        proof {
            lemma_instruction_smaller(func, n - 1);
        }
        nested_captures(outer, own, func, n - 1) || match instr.value {
            InstructionValue::FunctionExpression { lowered_func, .. } => captures_beyond(
                outer,
                own,
                lowered_func.func,
            ),
            InstructionValue::ObjectMethod { lowered_func } => captures_beyond(
                outer,
                own,
                lowered_func.func,
            ),
            _ => false,
        }
    }
}

/// Whether a function, or one inside of it, refers to an `outer` name that is not its own.
pub open spec fn captures(outer: Set<Seq<char>>, func: HIRFunction) -> bool {
    captures_beyond(outer, Set::empty(), func)
}

/// Whether a function expression can stand outside: it has no name and captures none.
pub open spec fn outlinable(outer: Set<Seq<char>>, lowered: LoweredFunction) -> bool {
    lowered.func.id is None && !captures(outer, lowered.func)
}

/// Adds the source names of parameters.
pub fn add_own_params(names: &mut NameSet, params: &Vec<Argument>)
    ensures
        final(names)@ == old(names)@.union(own_params(params@, params@.len() as int)),
{
    let ghost start = names@;
    let mut i: usize = 0;
    proof {
        assert(start =~= start.union(own_params(params@, 0)));
    }
    while i < params.len()
        invariant
            i <= params@.len(),
            names@ == start.union(own_params(params@, i as int)),
        decreases params@.len() - i,
    {
        if let Some(name) = source_name(&place_of_param(&params[i]).identifier) {
            names.insert(name);
        }
        proof {
            assert(names@ =~= start.union(own_params(params@, i as int + 1)));
        }
        i = i + 1;
    }
}

/// The variables that an instruction declares.
fn declared_places_of(value: &InstructionValue) -> (places: Vec<&Place>)
    ensures
        pointees(places@) == declared_places(*value),
{
    let mut places: Vec<&Place> = Vec::new();
    match value {
        InstructionValue::DeclareLocal { lvalue } => {
            places.push(&lvalue.place);
        },
        InstructionValue::DeclareContext { lvalue } => {
            places.push(&lvalue.place);
        },
        InstructionValue::StoreLocal { lvalue, .. } => {
            if lvalue.kind != InstructionKind::Reassign {
                places.push(&lvalue.place);
            }
        },
        InstructionValue::StoreContext { lvalue, .. } => {
            if lvalue.kind != InstructionKind::Reassign {
                places.push(&lvalue.place);
            }
        },
        InstructionValue::Destructure { lvalue, .. } => {
            if lvalue.kind != InstructionKind::Reassign {
                places = each_pattern_operand(&lvalue.pattern);
            }
        },
        _ => {},
    }
    proof {
        assert(pointees(places@) =~= declared_places(*value));
    }
    places
}

/// The variables that an instruction loads, assigns or updates.
fn referred_places_of(value: &InstructionValue) -> (places: Vec<&Place>)
    ensures
        pointees(places@) == referred_places(*value),
{
    let mut places: Vec<&Place> = Vec::new();
    match value {
        InstructionValue::LoadLocal { place } => {
            places.push(place);
        },
        InstructionValue::LoadContext { place } => {
            places.push(place);
        },
        InstructionValue::StoreLocal { lvalue, .. } => {
            if lvalue.kind == InstructionKind::Reassign {
                places.push(&lvalue.place);
            }
        },
        InstructionValue::StoreContext { lvalue, .. } => {
            if lvalue.kind == InstructionKind::Reassign {
                places.push(&lvalue.place);
            }
        },
        InstructionValue::Destructure { lvalue, .. } => {
            if lvalue.kind == InstructionKind::Reassign {
                places = each_pattern_operand(&lvalue.pattern);
            }
        },
        InstructionValue::PrefixUpdate { lvalue, .. } => {
            places.push(lvalue);
        },
        InstructionValue::PostfixUpdate { lvalue, .. } => {
            places.push(lvalue);
        },
        _ => {},
    }
    proof {
        assert(pointees(places@) =~= referred_places(*value));
    }
    places
}

fn find_referred_global(value: &InstructionValue) -> (r: Option<&String>)
    ensures
        match r {
            Some(s) => referred_global(*value) == Some(s@),
            None => referred_global(*value) is None,
        },
{
    match value {
        InstructionValue::LoadGlobal { binding } => match binding {
            NonLocalBinding::Global { name } => Some(name),
            NonLocalBinding::ModuleLocal { name } => Some(name),
            _ => None,
        },
        _ => None,
    }
}

fn add_place_sources(names: &mut NameSet, places: &Vec<&Place>)
    ensures
        final(names)@ == with_place_sources(
            old(names)@,
            pointees(places@),
            places@.len() as int,
        ),
{
    let ghost start = names@;
    let ghost all = pointees(places@);
    let mut i: usize = 0;
    while i < places.len()
        invariant
            all == pointees(places@),
            i <= places@.len(),
            names@ == with_place_sources(start, all, i as int),
        decreases places@.len() - i,
    {
        if let Some(name) = source_name(&places[i].identifier) {
            names.insert(name);
        }
        i = i + 1;
    }
}

fn find_function_names(hidden: &NameSet, func: &HIRFunction, instrs: &Vec<&Instruction>) -> (names: NameSet)
    requires
        refs_are(instrs@, instructions(*func)),
    ensures
        names@ == function_names(hidden@, *func),
{
    let mut names = hidden.copy();
    add_own_params(&mut names, &func.params);
    let ghost start = names@;
    let ghost all = instructions(*func);
    let mut i: usize = 0;
    while i < instrs.len()
        invariant
            refs_are(instrs@, all),
            i <= instrs@.len(),
            names@ == own_names(start, all, i as int),
        decreases instrs@.len() - i,
    {
        let places = declared_places_of(&instrs[i].value);
        assert(pointees(places@).len() == places@.len());
        add_place_sources(&mut names, &places);
        i = i + 1;
    }
    names
}

fn does_refer_outside(outer: &NameSet, own: &NameSet, instr: &Instruction) -> (r: bool)
    ensures
        r == refers_outside(outer@, own@, *instr),
{
    if let Some(name) = find_referred_global(&instr.value) {
        if !own.contains(name) && outer.contains(name) {
            return true;
        }
    }
    let places = referred_places_of(&instr.value);
    let ghost all = referred_places(instr.value);
    assert(all.len() == places@.len());
    let mut i: usize = 0;
    while i < places.len()
        invariant
            all == pointees(places@),
            all == referred_places(instr.value),
            i <= places@.len(),
            forall|k: int|
                0 <= k < i ==> !is_outside(
                    outer@,
                    own@,
                    source_name_of((#[trigger] all[k]).identifier),
                ),
        decreases places@.len() - i,
    {
        assert(all[i as int] == *places@[i as int]);
        if let Some(name) = source_name(&places[i].identifier) {
            if !own.contains(name) && outer.contains(name) {
                assert(is_outside(outer@, own@, source_name_of(all[i as int].identifier)));
                return true;
            }
        }
        i = i + 1;
    }
    false
}

fn does_capture_beyond(outer: &NameSet, hidden: &NameSet, func: &HIRFunction) -> (r: bool)
    ensures
        r == captures_beyond(outer@, hidden@, *func),
    decreases func,
{
    let instrs = instructions_of(func);
    let own = find_function_names(hidden, func, &instrs);
    let ghost all = instructions(*func);
    let mut i: usize = 0;
    while i < instrs.len()
        invariant
            all == instructions(*func),
            own@ == function_names(hidden@, *func),
            refs_are(instrs@, all),
            i <= instrs@.len(),
            forall|k: int| 0 <= k < i ==> !refers_outside(outer@, own@, #[trigger] all[k]),
        decreases instrs@.len() - i,
    {
        if does_refer_outside(outer, &own, instrs[i]) {
            assert(refers_outside(outer@, own@, all[i as int]));
            return true;
        }
        i = i + 1;
    }
    let mut j: usize = 0;
    while j < instrs.len()
        invariant
            all == instructions(*func),
            own@ == function_names(hidden@, *func),
            refs_are(instrs@, all),
            j <= instrs@.len(),
            !nested_captures(outer@, own@, *func, j as int),
        decreases instrs@.len() - j,
    {
        proof {
            lemma_instruction_smaller(*func, j as int);
        }
        let nested = match &instrs[j].value {
            InstructionValue::FunctionExpression { lowered_func, .. } => does_capture_beyond(
                outer,
                &own,
                &lowered_func.func,
            ),
            InstructionValue::ObjectMethod { lowered_func } => does_capture_beyond(
                outer,
                &own,
                &lowered_func.func,
            ),
            _ => false,
        };
        if nested {
            proof {
                assert(nested_captures(outer@, own@, *func, j as int + 1));
                lemma_nested_captures_more(outer@, own@, *func, j as int + 1, all.len() as int);
            }
            return true;
        }
        j = j + 1;
    }
    false
}

/// Checks if a function, or one inside of it, refers to an `outer` name that is not its own.
pub fn function_captures_outer_names(outer: &NameSet, func: &HIRFunction) -> (r: bool)
    ensures
        r == captures(outer@, *func),
{
    let hidden = NameSet::new();
    assert(hidden@ =~= Set::empty());
    does_capture_beyond(outer, &hidden, func)
}

proof fn lemma_nested_captures_more(
    outer: Set<Seq<char>>,
    own: Set<Seq<char>>,
    func: HIRFunction,
    m: int,
    n: int,
)
    requires
        0 <= m <= n <= instructions(func).len(),
        nested_captures(outer, own, func, m),
    ensures
        nested_captures(outer, own, func, n),
    decreases n - m,
{
    if m < n {
        lemma_nested_captures_more(outer, own, func, m, n - 1);
    }
}

/// Checks if a function expression can stand outside: it has no name and captures none.
pub fn can_outline_function(outer: &NameSet, lowered_func: &LoweredFunction) -> (r: bool)
    ensures
        r == outlinable(outer@, *lowered_func),
{
    if lowered_func.func.id.is_some() {
        return false;
    }
    !function_captures_outer_names(outer, &lowered_func.func)
}

} // verus!
