//! Which variable holds the result of the memoized block under its own name.

use vstd::prelude::*;

use crate::codegen::context::{named_var, resolved_name, Context, Ctx};
use crate::codegen::deps::identifier_text;
use crate::codegen::flow::{definition, find_definition};
use crate::codegen::print::{is_valid_identifier, valid_identifier};
use crate::collections::IdSet;
use crate::graph::pointees;
use crate::hir::{Instruction, InstructionValue, Place};
use crate::text::{before, contains_char, same, text_before};

verus! {

pub open spec fn names_var(c: Ctx, p: Place, name: Seq<char>) -> bool {
    resolved_name(c, p) == Some(name)
}

/// Whether an instruction may change the object in a variable: by a store into it or a call on it.
pub open spec fn mutates(c: Ctx, instr: Instruction, name: Seq<char>) -> bool {
    match instr.value {
        InstructionValue::PropertyStore { object, .. } => names_var(c, object, name),
        InstructionValue::ComputedStore { object, .. } => names_var(c, object, name),
        InstructionValue::MethodCall { receiver, .. } => names_var(c, receiver, name),
        _ => false,
    }
}

pub open spec fn mutated_var(c: Ctx, instrs: Seq<Instruction>, name: Seq<char>) -> bool {
    exists|i: int| 0 <= i < instrs.len() && mutates(c, #[trigger] instrs[i], name)
}

/// The value that an instruction stores in the variable `name`.
pub open spec fn stores_in(instr: Instruction, name: Seq<char>) -> Option<Place> {
    match instr.value {
        InstructionValue::StoreLocal { lvalue, value, .. } => if identifier_text(
            lvalue.place.identifier,
        ) == Some(name) {
            Some(value)
        } else {
            None
        },
        _ => None,
    }
}

/// Whether an instruction makes an object that nothing else holds yet.
pub open spec fn makes_object(value: InstructionValue) -> bool {
    match value {
        InstructionValue::ObjectExpression { .. } => true,
        InstructionValue::ArrayExpression { .. } => true,
        InstructionValue::JsxExpression { .. } => true,
        InstructionValue::JsxFragment { .. } => true,
        InstructionValue::FunctionExpression { .. } => true,
        InstructionValue::NewExpression { .. } => true,
        _ => false,
    }
}

/// Whether an instruction stores an object that is made here in a variable.
pub open spec fn stores_object(instrs: Seq<Instruction>, instr: Instruction, name: Seq<char>) -> bool {
    match stores_in(instr, name) {
        Some(value) => match definition(instrs, value.identifier.id.0, 0) {
            Some(d) => makes_object(instrs[d].value),
            None => false,
        },
        None => false,
    }
}

/// Whether a variable is given a new object somewhere.
pub open spec fn allocating_var(instrs: Seq<Instruction>, name: Seq<char>) -> bool {
    exists|i: int| 0 <= i < instrs.len() && stores_object(instrs, #[trigger] instrs[i], name)
}

/// Whether a variable is worth keeping: the object in it is new or is changed.
pub open spec fn is_scope_root(c: Ctx, instrs: Seq<Instruction>, name: Seq<char>) -> bool {
    mutated_var(c, instrs, name) || allocating_var(instrs, name)
}

/// The variable in front of the first `sep` of an expression, where it is worth keeping.
pub open spec fn root_before(c: Ctx, instrs: Seq<Instruction>, expr: Seq<char>, sep: char) -> Option<
    Seq<char>,
> {
    let root = before(expr, sep);
    if expr.contains(sep) && valid_identifier(root) && is_scope_root(c, instrs, root) {
        Some(root)
    } else {
        None
    }
}

/// The variable that an expression reads a property or an element of.
pub open spec fn root_of(c: Ctx, instrs: Seq<Instruction>, expr: Seq<char>) -> Option<Seq<char>> {
    match root_before(c, instrs, expr, '.') {
        Some(r) => Some(r),
        None => root_before(c, instrs, expr, '['),
    }
}

/// The variable that `name` is taken from by a store from instruction `i` on.
pub open spec fn source_root(c: Ctx, instrs: Seq<Instruction>, name: Seq<char>, i: int) -> Option<
    Seq<char>,
>
    decreases instrs.len() - i,
{
    if i < 0 || i >= instrs.len() {
        None
    } else {
        let found = match stores_in(instrs[i], name) {
            Some(value) => if c.exprs.contains_key(value.identifier.id.0) {
                root_of(c, instrs, c.exprs[value.identifier.id.0])
            } else {
                None
            },
            None => None,
        };
        match found {
            Some(r) => Some(r),
            None => source_root(c, instrs, name, i + 1),
        }
    }
}

/// The variable that holds what is returned: the one that the returned variable is taken from, or
/// that variable itself, as far as they are worth keeping.
pub open spec fn scope_output_var(c: Ctx, instrs: Seq<Instruction>, value: Place) -> Option<Seq<char>> {
    match named_var(c, value) {
        None => None,
        Some(name) => match source_root(c, instrs, name, 0) {
            Some(r) => Some(r),
            None => if is_scope_root(c, instrs, name) {
                Some(name)
            } else {
                None
            },
        },
    }
}

/// Whether a place holds a global.
pub open spec fn loads_global(instrs: Seq<Instruction>, value: Place) -> bool {
    match definition(instrs, value.identifier.id.0, 0) {
        Some(d) => instrs[d].value is LoadGlobal,
        None => false,
    }
}

pub open spec fn is_load(instr: Instruction, name: Seq<char>) -> bool {
    instr.value matches InstructionValue::LoadLocal { place } && identifier_text(place.identifier)
        == Some(name)
}

/// How often the first `n` instructions load a variable.
pub open spec fn load_count(instrs: Seq<Instruction>, name: Seq<char>, n: int) -> nat
    decreases n,
{
    if n <= 0 {
        0
    } else {
        load_count(instrs, name, n - 1) + if is_load(instrs[n - 1], name) {
            1nat
        } else {
            0nat
        }
    }
}

/// `ids` and the variables called `name` that the first `n` instructions store into.
pub open spec fn with_stores(ids: Set<u32>, instrs: Seq<Instruction>, name: Seq<char>, n: int) -> Set<
    u32,
>
    decreases n,
{
    if n <= 0 {
        ids
    } else {
        let front = with_stores(ids, instrs, name, n - 1);
        match instrs[n - 1].value {
            InstructionValue::StoreLocal { lvalue, .. } => if identifier_text(
                lvalue.place.identifier,
            ) == Some(name) {
                front.insert(lvalue.place.identifier.id.0)
            } else {
                front
            },
            _ => front,
        }
    }
}

fn has_name(p: &Place, name: &str) -> (r: bool)
    ensures
        r == (identifier_text(p.identifier) == Some(name@)),
{
    match &p.identifier.name {
        Some(n) => same(n.value(), name),
        None => false,
    }
}

fn find_stored<'a>(instr: &'a Instruction, name: &str) -> (r: Option<&'a Place>)
    ensures
        match r {
            Some(p) => stores_in(*instr, name@) == Some(*p),
            None => stores_in(*instr, name@) is None,
        },
{
    match &instr.value {
        InstructionValue::StoreLocal { lvalue, value, .. } => {
            if has_name(&lvalue.place, name) {
                Some(value)
            } else {
                None
            }
        },
        _ => None,
    }
}

/// Checks if an instruction makes an object that nothing else holds yet.
pub fn does_make_object(value: &InstructionValue) -> (r: bool)
    ensures
        r == makes_object(*value),
{
    match value {
        InstructionValue::ObjectExpression { .. } => true,
        InstructionValue::ArrayExpression { .. } => true,
        InstructionValue::JsxExpression { .. } => true,
        InstructionValue::JsxFragment { .. } => true,
        InstructionValue::FunctionExpression { .. } => true,
        InstructionValue::NewExpression { .. } => true,
        _ => false,
    }
}

/// Checks if a variable is given a new object somewhere.
pub fn is_allocating_var(instrs: &Vec<&Instruction>, var_name: &str) -> (r: bool)
    ensures
        r == allocating_var(pointees(instrs@), var_name@),
{
    let ghost all = pointees(instrs@);
    let mut i: usize = 0;
    while i < instrs.len()
        invariant
            all == pointees(instrs@),
            i <= instrs@.len(),
            forall|k: int| 0 <= k < i ==> !stores_object(all, #[trigger] all[k], var_name@),
        decreases instrs@.len() - i,
    {
        if let Some(value) = find_stored(instrs[i], var_name) {
            if let Some(d) = find_definition(instrs, value.identifier.id.0) {
                if does_make_object(&instrs[d].value) {
                    assert(stores_object(all, all[i as int], var_name@));
                    return true;
                }
            }
        }
        i = i + 1;
    }
    false
}

/// Checks if a place holds a global.
pub fn is_return_place_from_load_global(instrs: &Vec<&Instruction>, place: &Place) -> (r: bool)
    ensures
        r == loads_global(pointees(instrs@), *place),
{
    match find_definition(instrs, place.identifier.id.0) {
        Some(d) => match &instrs[d].value {
            InstructionValue::LoadGlobal { .. } => true,
            _ => false,
        },
        None => false,
    }
}

/// How often a variable is loaded.
pub fn count_loads_of_var(instrs: &Vec<&Instruction>, var_name: &str) -> (r: usize)
    ensures
        r == load_count(pointees(instrs@), var_name@, instrs@.len() as int),
{
    let ghost all = pointees(instrs@);
    let mut count: usize = 0;
    let mut i: usize = 0;
    while i < instrs.len()
        invariant
            all == pointees(instrs@),
            i <= instrs@.len(),
            count <= i,
            count == load_count(all, var_name@, i as int),
        decreases instrs@.len() - i,
    {
        if let InstructionValue::LoadLocal { place } = &instrs[i].value {
            if has_name(place, var_name) {
                count = count + 1;
            }
        }
        i = i + 1;
    }
    count
}

/// Adds the variables called `promoted_name` that are stored into.
pub fn find_promoted_stores(instrs: &Vec<&Instruction>, promoted_name: &str, ids: &mut IdSet)
    ensures
        final(ids)@ == with_stores(
            old(ids)@,
            pointees(instrs@),
            promoted_name@,
            instrs@.len() as int,
        ),
{
    let ghost all = pointees(instrs@);
    let ghost start = ids@;
    let mut i: usize = 0;
    while i < instrs.len()
        invariant
            all == pointees(instrs@),
            i <= instrs@.len(),
            ids@ == with_stores(start, all, promoted_name@, i as int),
        decreases instrs@.len() - i,
    {
        if let InstructionValue::StoreLocal { lvalue, .. } = &instrs[i].value {
            if has_name(&lvalue.place, promoted_name) {
                ids.insert(lvalue.place.identifier.id.0);
            }
        }
        i = i + 1;
    }
}

impl Context {
    pub fn does_name_var(&self, p: &Place, name: &str) -> (r: bool)
        ensures
            r == names_var(self@, *p, name@),
    {
        match self.resolve_to_name(p) {
            Some(n) => same(&n, name),
            None => false,
        }
    }

    /// Checks if the object in a variable may be changed.
    pub fn is_mutated_var(&self, instrs: &Vec<&Instruction>, var_name: &str) -> (r: bool)
        ensures
            r == mutated_var(self@, pointees(instrs@), var_name@),
    {
        let ghost all = pointees(instrs@);
        let mut i: usize = 0;
        while i < instrs.len()
            invariant
                all == pointees(instrs@),
                i <= instrs@.len(),
                forall|k: int| 0 <= k < i ==> !mutates(self@, #[trigger] all[k], var_name@),
            decreases instrs@.len() - i,
        {
            let found = match &instrs[i].value {
                InstructionValue::PropertyStore { object, .. } => self.does_name_var(
                    object,
                    var_name,
                ),
                InstructionValue::ComputedStore { object, .. } => self.does_name_var(
                    object,
                    var_name,
                ),
                InstructionValue::MethodCall { receiver, .. } => self.does_name_var(
                    receiver,
                    var_name,
                ),
                _ => false,
            };
            if found {
                assert(mutates(self@, all[i as int], var_name@));
                return true;
            }
            i = i + 1;
        }
        false
    }

    fn find_root_before(&self, instrs: &Vec<&Instruction>, expr: &str, sep: char) -> (r: Option<
        String,
    >)
        ensures
            match r {
                Some(s) => root_before(self@, pointees(instrs@), expr@, sep) == Some(s@),
                None => root_before(self@, pointees(instrs@), expr@, sep) is None,
            },
    {
        if !contains_char(expr, sep) {
            return None;
        }
        let root = text_before(expr, sep);
        if is_valid_identifier(&root) && (self.is_mutated_var(instrs, &root) || is_allocating_var(
            instrs,
            &root,
        )) {
            Some(root)
        } else {
            None
        }
    }

    fn find_root(&self, instrs: &Vec<&Instruction>, expr: &str) -> (r: Option<String>)
        ensures
            match r {
                Some(s) => root_of(self@, pointees(instrs@), expr@) == Some(s@),
                None => root_of(self@, pointees(instrs@), expr@) is None,
            },
    {
        match self.find_root_before(instrs, expr, '.') {
            Some(r) => Some(r),
            None => self.find_root_before(instrs, expr, '['),
        }
    }

    /// The variable that holds what is returned.
    pub fn find_scope_output_var(&self, instrs: &Vec<&Instruction>, return_place: &Place) -> (r:
        Option<String>)
        ensures
            match r {
                Some(s) => scope_output_var(self@, pointees(instrs@), *return_place) == Some(s@),
                None => scope_output_var(self@, pointees(instrs@), *return_place) is None,
            },
    {
        let name: String = match self.get_named_var(return_place) {
            Some(n) => n,
            None => {
                return None;
            },
        };
        let ghost all = pointees(instrs@);
        let mut i: usize = 0;
        while i < instrs.len()
            invariant
                all == pointees(instrs@),
                named_var(self@, *return_place) == Some(name@),
                i <= instrs@.len(),
                source_root(self@, all, name@, i as int) == source_root(self@, all, name@, 0),
            decreases instrs@.len() - i,
        {
            if let Some(value) = find_stored(instrs[i], &name) {
                if let Some(expr) = self.expr_map.get(value.identifier.id.0) {
                    if let Some(root) = self.find_root(instrs, expr) {
                        return Some(root);
                    }
                }
            }
            i = i + 1;
        }
        if self.is_mutated_var(instrs, &name) || is_allocating_var(instrs, &name) {
            Some(name)
        } else {
            None
        }
    }
}

} // verus!
