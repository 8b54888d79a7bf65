//! Where a statement stands: in front of the memoized block, in it or behind it.

use vstd::prelude::*;

use crate::codegen::context::{place_text, Context, Ctx};
use crate::codegen::deps::identifier_text;
use crate::codegen::escape::calls_hook;
use crate::codegen::flow::result_id;
use crate::codegen::hooks::{hook_call, looks_like_hook_call};
use crate::codegen::print::{is_literal_primitive, literal_primitive};
use crate::codegen::promote::names_var;
use crate::collections::IdSet;
use crate::graph::{operands, operands_of, pointees, refs_are};
use crate::hir::{
    Argument, DeclarationId, Instruction, InstructionValue, Place,
};
use crate::text::{chars_of, has_prefix, same, starts_with};

verus! {

// ---------------------------------------------------------------------------
// Behind the block
// ---------------------------------------------------------------------------

/// Whether an expression reads a property or an element of the variable.
pub open spec fn reads_part(expr: Seq<char>, var: Seq<char>) -> bool {
    has_prefix(expr, var) && expr.len() > var.len() && (expr[var.len() as int] == '.'
        || expr[var.len() as int] == '[')
}

/// Whether a place holds the variable.
pub open spec fn holds_var(c: Ctx, p: Place, var: Seq<char>) -> bool {
    names_var(c, p, var) || (c.exprs.contains_key(p.identifier.id.0) && c.exprs[p.identifier.id.0]
        == var)
}

pub open spec fn passes_var(c: Ctx, args: Seq<Argument>, var: Seq<char>) -> bool {
    exists|i: int| 0 <= i < args.len() && holds_var(c, (#[trigger] args[i]).place_of(), var)
}

/// Whether an instruction reads from the promoted variable and so stands behind the block: it stores a
/// part of it elsewhere, or hands it to a call.
pub open spec fn post_scope(c: Ctx, instr: Instruction, promoted: Option<Seq<char>>) -> bool {
    match promoted {
        None => false,
        Some(var) => match instr.value {
            InstructionValue::StoreLocal { lvalue, value, .. } => {
                let id = value.identifier.id.0;
                match identifier_text(lvalue.place.identifier) {
                    Some(name) => name != var && c.exprs.contains_key(id) && reads_part(
                        c.exprs[id],
                        var,
                    ),
                    None => false,
                }
            },
            InstructionValue::CallExpression { args, .. } => passes_var(c, args@, var),
            InstructionValue::MethodCall { args, .. } => passes_var(c, args@, var),
            _ => false,
        },
    }
}

/// Whether a function is known to change none of its arguments.
pub open spec fn readonly_callee(expr: Seq<char>) -> bool {
    has_prefix(expr, "console."@) || has_prefix(expr, "global.console."@) || expr == "identity"@
}

/// Whether an object is known to have methods only that change none of their arguments.
pub open spec fn readonly_receiver(expr: Seq<char>) -> bool {
    expr == "console"@ || expr == "global.console"@
}

/// Whether an instruction hands the promoted variable to a function that does not change it.
pub open spec fn readonly_call(c: Ctx, instr: Instruction, promoted: Option<Seq<char>>) -> bool {
    match promoted {
        None => false,
        Some(var) => match instr.value {
            InstructionValue::CallExpression { callee, args, .. } => {
                let id = callee.identifier.id.0;
                c.exprs.contains_key(id) && readonly_callee(c.exprs[id]) && passes_var(c, args@, var)
            },
            InstructionValue::MethodCall { receiver, args, .. } => readonly_receiver(
                place_text(c, receiver),
            ) && passes_var(c, args@, var),
            _ => false,
        },
    }
}

// ---------------------------------------------------------------------------
// In front of the block
// ---------------------------------------------------------------------------

pub open spec fn hook_value(c: Ctx, value: Place) -> bool {
    c.exprs.contains_key(value.identifier.id.0) && hook_call(c.exprs[value.identifier.id.0])
}

/// Whether an instruction calls a hook, or binds what a hook returns.
pub open spec fn hook_stmt(c: Ctx, instr: Instruction) -> bool {
    match instr.value {
        InstructionValue::StoreLocal { value, .. } => hook_value(c, value),
        InstructionValue::Destructure { value, .. } => hook_value(c, value),
        InstructionValue::CallExpression { callee, .. } => calls_hook(c, callee),
        _ => false,
    }
}

/// Whether a place holds the variable of a declaration: it is that variable, or a load of it.
pub open spec fn loaded_from(instrs: Seq<Instruction>, decl: DeclarationId, p: Place) -> bool {
    p.identifier.declaration_id == decl || exists|i: int|
        0 <= i < instrs.len() && result_id(#[trigger] instrs[i]) == p.identifier.id.0 && (
        instrs[i].value matches InstructionValue::LoadLocal { place }
            && place.identifier.declaration_id == decl)
}

/// Whether an instruction calls the variable of a declaration.
pub open spec fn calls_variable(
    instrs: Seq<Instruction>,
    decl: DeclarationId,
    instr: Instruction,
) -> bool {
    instr.value matches InstructionValue::CallExpression { callee, .. } && loaded_from(
        instrs,
        decl,
        callee,
    )
}

/// Whether an instruction stores a function that stands outside in a variable that is not called.
pub open spec fn outlined_store(c: Ctx, instrs: Seq<Instruction>, instr: Instruction) -> bool {
    match instr.value {
        InstructionValue::StoreLocal { lvalue, value, .. } => c.outlined.contains_key(
            value.identifier.id.0,
        ) && !(exists|i: int|
            0 <= i < instrs.len() && calls_variable(
                instrs,
                lvalue.place.identifier.declaration_id,
                #[trigger] instrs[i],
            )),
        _ => false,
    }
}

/// Whether an instruction only hands on a value and is no statement.
pub open spec fn plain_flow(value: InstructionValue) -> bool {
    match value {
        InstructionValue::DeclareLocal { .. } => true,
        InstructionValue::LoadLocal { .. } => true,
        InstructionValue::LoadContext { .. } => true,
        InstructionValue::Primitive { .. } => true,
        InstructionValue::LoadGlobal { .. } => true,
        _ => false,
    }
}

/// Whether each operand is known in front of the block.
pub open spec fn all_known(known: Set<u32>, places: Seq<Place>) -> bool {
    forall|i: int| 0 <= i < places.len() ==> known.contains((#[trigger] places[i]).identifier.id.0)
}

/// Whether an instruction stands in front of the block: it comes before the first scope and uses only
/// what is known there.
pub open spec fn pre_scope(start: Option<u32>, known: Set<u32>, instr: Instruction) -> bool {
    match start {
        None => false,
        Some(s) => instr.id.0 < s && !plain_flow(instr.value) && all_known(
            known,
            operands(instr.value),
        ),
    }
}

/// Whether an instruction calls a global function or a method of a global.
pub open spec fn calls_global(globals: Set<u32>, instr: Instruction) -> bool {
    match instr.value {
        InstructionValue::MethodCall { receiver, .. } => globals.contains(receiver.identifier.id.0),
        InstructionValue::CallExpression { callee, .. } => globals.contains(
            callee.identifier.id.0,
        ),
        _ => false,
    }
}

/// Whether each argument is a literal, or known in front of the block.
pub open spec fn args_known(c: Ctx, known: Set<u32>, args: Seq<Argument>) -> bool {
    forall|i: int|
        0 <= i < args.len() ==> arg_known(c, known, (#[trigger] args[i]).place_of().identifier.id.0)
}

pub open spec fn arg_known(c: Ctx, known: Set<u32>, id: u32) -> bool {
    known.contains(id) || (c.exprs.contains_key(id) && literal_primitive(c.exprs[id]))
}

/// Whether a call can be made in front of the block.
pub open spec fn call_known(c: Ctx, known: Set<u32>, instr: Instruction) -> bool {
    match instr.value {
        InstructionValue::CallExpression { args, .. } => args_known(c, known, args@),
        InstructionValue::MethodCall { args, .. } => args_known(c, known, args@),
        _ => true,
    }
}

// ---------------------------------------------------------------------------
// Execution
// ---------------------------------------------------------------------------

fn does_read_part(expr: &str, var: &str) -> (r: bool)
    ensures
        r == reads_part(expr@, var@),
{
    if !starts_with(expr, var) {
        return false;
    }
    let es = chars_of(expr);
    let vs = chars_of(var);
    es.len() > vs.len() && (es[vs.len()] == '.' || es[vs.len()] == '[')
}

impl Context {
    fn does_pass_var(&self, args: &Vec<Argument>, var: &str) -> (r: bool)
        ensures
            r == passes_var(self@, args@, var@),
    {
        let mut i: usize = 0;
        while i < args.len()
            invariant
                i <= args@.len(),
                forall|k: int|
                    0 <= k < i ==> !holds_var(self@, (#[trigger] args@[k]).place_of(), var@),
            decreases args@.len() - i,
        {
            let place = args[i].place();
            let by_expr = match self.expr_map.get(place.identifier.id.0) {
                Some(expr) => same(expr, var),
                None => false,
            };
            if by_expr || self.does_name_var(place, var) {
                return true;
            }
            i = i + 1;
        }
        false
    }

    /// Checks if an instruction reads from the promoted variable and so stands behind the block.
    pub fn is_post_scope_instruction(&self, instr: &Instruction, promoted_var: Option<&String>) -> (r:
        bool)
        ensures
            r == post_scope(
                self@,
                *instr,
                match promoted_var {
                    Some(v) => Some(v@),
                    None => None,
                },
            ),
    {
        let var: &String = match promoted_var {
            Some(v) => v,
            None => {
                return false;
            },
        };
        match &instr.value {
            InstructionValue::StoreLocal { lvalue, value, .. } => match &lvalue.place.identifier.name {
                Some(name) => {
                    if same(name.value(), var) {
                        return false;
                    }
                    match self.expr_map.get(value.identifier.id.0) {
                        Some(expr) => does_read_part(expr, var),
                        None => false,
                    }
                },
                None => false,
            },
            InstructionValue::CallExpression { args, .. } => self.does_pass_var(args, var),
            InstructionValue::MethodCall { args, .. } => self.does_pass_var(args, var),
            _ => false,
        }
    }

    /// Checks if an instruction hands the promoted variable to a function that does not change it.
    pub fn is_readonly_post_scope_call(
        &self,
        instr: &Instruction,
        promoted_var: Option<&String>,
    ) -> (r: bool)
        ensures
            r == readonly_call(
                self@,
                *instr,
                match promoted_var {
                    Some(v) => Some(v@),
                    None => None,
                },
            ),
    {
        let var: &String = match promoted_var {
            Some(v) => v,
            None => {
                return false;
            },
        };
        match &instr.value {
            InstructionValue::CallExpression { callee, args, .. } => {
                match self.expr_map.get(callee.identifier.id.0) {
                    Some(expr) => (starts_with(expr, "console.") || starts_with(
                        expr,
                        "global.console.",
                    ) || same(expr, "identity")) && self.does_pass_var(args, var),
                    None => false,
                }
            },
            InstructionValue::MethodCall { receiver, args, .. } => {
                let object = self.resolve_place(receiver);
                (same(&object, "console") || same(&object, "global.console")) && self.does_pass_var(
                    args,
                    var,
                )
            },
            _ => false,
        }
    }

    fn is_hook_value(&self, value: &Place) -> (r: bool)
        ensures
            r == hook_value(self@, *value),
    {
        match self.expr_map.get(value.identifier.id.0) {
            Some(expr) => looks_like_hook_call(expr),
            None => false,
        }
    }

    /// Checks if an instruction calls a hook, or binds what a hook returns.
    pub fn is_hook_call_stmt(&self, instr: &Instruction) -> (r: bool)
        ensures
            r == hook_stmt(self@, *instr),
    {
        match &instr.value {
            InstructionValue::StoreLocal { value, .. } => self.is_hook_value(value),
            InstructionValue::Destructure { value, .. } => self.is_hook_value(value),
            InstructionValue::CallExpression { callee, .. } => self.does_call_hook(callee),
            _ => false,
        }
    }

    /// Checks if an instruction stores a function that stands outside in a variable that is not
    /// called. Such a store does not depend on what is memoized.
    pub fn is_outlined_store(&self, instrs: &Vec<&Instruction>, instr: &Instruction) -> (r: bool)
        ensures
            r == outlined_store(self@, pointees(instrs@), *instr),
    {
        match &instr.value {
            InstructionValue::StoreLocal { lvalue, value, .. } => {
                self.outlined_map.contains(value.identifier.id.0) && !is_variable_called(
                    instrs,
                    lvalue.place.identifier.declaration_id,
                )
            },
            _ => false,
        }
    }

    fn is_arg_known(&self, known: &IdSet, id: u32) -> (r: bool)
        ensures
            r == arg_known(self@, known@, id),
    {
        if known.contains(id) {
            return true;
        }
        match self.expr_map.get(id) {
            Some(expr) => is_literal_primitive(expr),
            None => false,
        }
    }

    /// Checks if a call can be made in front of the block: each argument is a literal, or known there.
    pub fn call_args_are_prescope(&self, instr: &Instruction, known: &IdSet) -> (r: bool)
        ensures
            r == call_known(self@, known@, *instr),
    {
        let args = match &instr.value {
            InstructionValue::CallExpression { args, .. } => args,
            InstructionValue::MethodCall { args, .. } => args,
            _ => {
                return true;
            },
        };
        let mut i: usize = 0;
        while i < args.len()
            invariant
                i <= args@.len(),
                call_known(self@, known@, *instr) == args_known(self@, known@, args@),
                forall|k: int|
                    0 <= k < i ==> arg_known(
                        self@,
                        known@,
                        (#[trigger] args@[k]).place_of().identifier.id.0,
                    ),
            decreases args@.len() - i,
        {
            if !self.is_arg_known(known, args[i].place().identifier.id.0) {
                return false;
            }
            i = i + 1;
        }
        true
    }
}

fn is_loaded_from(instrs: &Vec<&Instruction>, decl: DeclarationId, p: &Place) -> (r: bool)
    ensures
        r == loaded_from(pointees(instrs@), decl, *p),
{
    if p.identifier.declaration_id == decl {
        return true;
    }
    let ghost all = pointees(instrs@);
    let mut i: usize = 0;
    while i < instrs.len()
        invariant
            all == pointees(instrs@),
            i <= instrs@.len(),
            forall|k: int|
                0 <= k < i ==> !(result_id(#[trigger] all[k]) == p.identifier.id.0 && (
                all[k].value matches InstructionValue::LoadLocal { place }
                    && place.identifier.declaration_id == decl)),
        decreases instrs@.len() - i,
    {
        if instrs[i].lvalue.identifier.id.0 == p.identifier.id.0 {
            if let InstructionValue::LoadLocal { place } = &instrs[i].value {
                if place.identifier.declaration_id == decl {
                    assert(result_id(all[i as int]) == p.identifier.id.0);
                    return true;
                }
            }
        }
        i = i + 1;
    }
    false
}

fn is_variable_called(instrs: &Vec<&Instruction>, decl: DeclarationId) -> (r: bool)
    ensures
        r == exists|i: int|
            0 <= i < pointees(instrs@).len() && calls_variable(
                pointees(instrs@),
                decl,
                #[trigger] pointees(instrs@)[i],
            ),
{
    let ghost all = pointees(instrs@);
    let mut i: usize = 0;
    while i < instrs.len()
        invariant
            all == pointees(instrs@),
            i <= instrs@.len(),
            forall|k: int| 0 <= k < i ==> !calls_variable(all, decl, #[trigger] all[k]),
        decreases instrs@.len() - i,
    {
        if let InstructionValue::CallExpression { callee, .. } = &instrs[i].value {
            if is_loaded_from(instrs, decl, callee) {
                assert(calls_variable(all, decl, all[i as int]));
                return true;
            }
        }
        i = i + 1;
    }
    false
}

fn is_plain_flow(value: &InstructionValue) -> (r: bool)
    ensures
        r == plain_flow(*value),
{
    match value {
        InstructionValue::DeclareLocal { .. } => true,
        InstructionValue::LoadLocal { .. } => true,
        InstructionValue::LoadContext { .. } => true,
        InstructionValue::Primitive { .. } => true,
        InstructionValue::LoadGlobal { .. } => true,
        _ => false,
    }
}

/// Checks if an instruction stands in front of the block: it comes before the first scope and uses
/// only what is known there.
pub fn is_pre_scope_instruction(scope_start: Option<u32>, known: &IdSet, instr: &Instruction) -> (r:
    bool)
    ensures
        r == pre_scope(scope_start, known@, *instr),
{
    match scope_start {
        None => false,
        Some(s) => {
            if instr.id.0 >= s || is_plain_flow(&instr.value) {
                return false;
            }
            let places = operands_of(&instr.value);
            let ghost all = operands(instr.value);
            let mut i: usize = 0;
            while i < places.len()
                invariant
                    scope_start == Some(s),
                    instr.id.0 < s,
                    !plain_flow(instr.value),
                    all == operands(instr.value),
                    refs_are(places@, all),
                    i <= places@.len(),
                    forall|k: int|
                        0 <= k < i ==> known@.contains((#[trigger] all[k]).identifier.id.0),
                decreases places@.len() - i,
            {
                if !known.contains(places[i].identifier.id.0) {
                    assert(!known@.contains(all[i as int].identifier.id.0));
                    return false;
                }
                i = i + 1;
            }
            true
        },
    }
}

/// Checks if an instruction calls a global function or a method of a global.
pub fn is_side_effect_only_call(instr: &Instruction, global_ids: &IdSet) -> (r: bool)
    ensures
        r == calls_global(global_ids@, *instr),
{
    match &instr.value {
        InstructionValue::MethodCall { receiver, .. } => global_ids.contains(
            receiver.identifier.id.0,
        ),
        InstructionValue::CallExpression { callee, .. } => global_ids.contains(
            callee.identifier.id.0,
        ),
        _ => false,
    }
}

} // verus!
