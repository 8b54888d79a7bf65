//! Instructions that compute a value.

use vstd::prelude::*;

use crate::codegen_ast::generate::{codegen_instruction_value, codegen_optional_result};
use crate::codegen_ast::js::Stmt;
use crate::codegen_ast::state::CodegenContext;
use crate::codegen_ast::stores::option_stmt;
use crate::codegen_ast::walk::{computed_code, inlined_code};
use crate::hir::{ReactiveInstruction, ReactiveStatement};

verus! {

/// The statement for an instruction that computes a value.
pub fn codegen_computed(cx: &mut CodegenContext, instr: &ReactiveInstruction) -> (r: Option<Stmt>)
    ensures
        (final(cx)@, option_stmt(r)) == computed_code(old(cx)@, *instr),
    decreases instr, 0nat, 0nat,
{
    let e = codegen_instruction_value(cx, &instr.value);
    codegen_optional_result(cx, &instr.lvalue, e)
}

/// Keeps a value that goes into its places for them.
pub fn inline_value(cx: &mut CodegenContext, s: &ReactiveStatement)
    ensures
        final(cx)@ == inlined_code(old(cx)@, *s),
    decreases s, 0nat, 0nat,
{
    if let ReactiveStatement::Instruction(instr) = s {
        if let Some(lv) = &instr.lvalue {
            let decl = lv.identifier.declaration_id;
            if let Some(e) = codegen_instruction_value(cx, &instr.value) {
                cx.set_temp(decl, e);
                cx.inline_decl(decl);
            }
        }
    }
}

} // verus!
