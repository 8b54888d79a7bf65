//! Questions about the instructions of a reactive function.

use vstd::prelude::*;

use crate::codegen::reads::{pattern_reads, push_pattern_reads};
use crate::codegen_ast::js::Text;
use crate::codegen_ast::nested::{collect_stmt_mentions, stmt_mentions};
use crate::codegen_ast::state::own_name;
use crate::collections::{IdSet, IdTexts};
use crate::extract_scope_destructuring::{each_pattern_operand, pattern_operands};
use crate::graph::{instructions, instructions_of, operands, operands_of, pointees, refs_are};
use crate::hir::{
    Argument, HIRFunction, Identifier, IdentifierId, Instruction, InstructionKind, InstructionValue,
    Place, ReactiveInstruction, ReactiveScope, ReactiveStatement, ReactiveSwitchCase,
    ReactiveTerminal, ScopeDeclaration, SourceLocation,
};
use crate::text::{
    ascii_upper, cat5, chars_of, decimal, decimal_text, has_prefix, is_ascii_upper, is_temp_name_text,
    owned, starts_with, temp_name,
};

verus! {

// ---------------------------------------------------------------------------
// Names
// ---------------------------------------------------------------------------

/// Whether a name is that of a hook: `use` and an upper case letter.
pub open spec fn hook_name(name: Text) -> bool {
    has_prefix(name, "use"@) && name.len() >= 4 && ascii_upper(name[3])
}

pub fn is_hook_name_str(name: &str) -> (r: bool)
    ensures
        r == hook_name(name@),
{
    if !starts_with(name, "use") {
        return false;
    }
    let cs = chars_of(name);
    cs.len() >= 4 && is_ascii_upper(cs[3])
}

/// Whether a name is that of a temporary: `t` and digits.
pub fn is_codegen_temp(name: &str) -> (r: bool)
    ensures
        r == temp_name(name@),
{
    is_temp_name_text(name)
}

// ---------------------------------------------------------------------------
// References
// ---------------------------------------------------------------------------

pub open spec fn decl_of(p: Place) -> u32 {
    p.identifier.declaration_id.0
}

/// The declarations of the first `n` arguments.
pub open spec fn arg_decls(args: Seq<Argument>, n: int) -> Set<u32>
    decreases n,
{
    if n <= 0 {
        Set::empty()
    } else {
        arg_decls(args, n - 1).insert(decl_of(args[n - 1].place_of()))
    }
}

/// The declarations that a load, a destructuring, a call or a property load refers to.
pub open spec fn value_refs(value: InstructionValue) -> Set<u32> {
    match value {
        InstructionValue::LoadLocal { place } => Set::empty().insert(decl_of(place)),
        InstructionValue::LoadContext { place } => Set::empty().insert(decl_of(place)),
        InstructionValue::Destructure { value, .. } => Set::empty().insert(decl_of(value)),
        InstructionValue::MethodCall { receiver, property, args, .. } => arg_decls(
            args@,
            args@.len() as int,
        ).insert(decl_of(receiver)).insert(decl_of(property)),
        InstructionValue::CallExpression { callee, args, .. } => arg_decls(
            args@,
            args@.len() as int,
        ).insert(decl_of(callee)),
        InstructionValue::PropertyLoad { object, .. } => Set::empty().insert(decl_of(object)),
        _ => Set::empty(),
    }
}

fn collect_arg_refs(args: &Vec<Argument>, refs: &mut IdSet)
    ensures
        final(refs)@ == old(refs)@.union(arg_decls(args@, args@.len() as int)),
{
    let mut i: usize = 0;
    proof {
        assert(refs@ =~= refs@.union(arg_decls(args@, 0)));
    }
    while i < args.len()
        invariant
            i <= args@.len(),
            refs@ == old(refs)@.union(arg_decls(args@, i as int)),
        decreases args@.len() - i,
    {
        refs.insert(args[i].place().identifier.declaration_id.0);
        proof {
            assert(refs@ =~= old(refs)@.union(arg_decls(args@, i as int + 1)));
        }
        i = i + 1;
    }
}

/// Adds the declarations that a value refers to.
pub fn collect_value_refs(value: &InstructionValue, refs: &mut IdSet)
    ensures
        final(refs)@ == old(refs)@.union(value_refs(*value)),
{
    match value {
        InstructionValue::LoadLocal { place } => {
            refs.insert(place.identifier.declaration_id.0);
        },
        InstructionValue::LoadContext { place } => {
            refs.insert(place.identifier.declaration_id.0);
        },
        InstructionValue::Destructure { value: v, .. } => {
            refs.insert(v.identifier.declaration_id.0);
        },
        InstructionValue::MethodCall { receiver, property, args, .. } => {
            refs.insert(receiver.identifier.declaration_id.0);
            refs.insert(property.identifier.declaration_id.0);
            collect_arg_refs(args, refs);
        },
        InstructionValue::CallExpression { callee, args, .. } => {
            refs.insert(callee.identifier.declaration_id.0);
            collect_arg_refs(args, refs);
        },
        InstructionValue::PropertyLoad { object, .. } => {
            refs.insert(object.identifier.declaration_id.0);
        },
        _ => {},
    }
    proof {
        assert(refs@ =~= old(refs)@.union(value_refs(*value)));
    }
}

// ---------------------------------------------------------------------------
// Destructurings that a call takes up
// ---------------------------------------------------------------------------

/// The first argument from `i` on that is the variable `decl`, and no spread of it.
pub open spec fn arg_position(args: Seq<Argument>, decl: u32, i: int) -> Option<int>
    decreases args.len() - i,
{
    if i < 0 || i >= args.len() {
        None
    } else if args[i] matches Argument::Place(p) && decl_of(p) == decl {
        Some(i)
    } else {
        arg_position(args, decl, i + 1)
    }
}

pub fn find_arg_position(args: &Vec<Argument>, decl: u32) -> (r: Option<usize>)
    ensures
        r is Some == arg_position(args@, decl, 0) is Some,
        r matches Some(i) ==> i < args@.len() && arg_position(args@, decl, 0) == Some(i as int),
{
    let mut i: usize = 0;
    while i < args.len()
        invariant
            i <= args@.len(),
            arg_position(args@, decl, 0) == arg_position(args@, decl, i as int),
        decreases args@.len() - i,
    {
        if let Argument::Place(p) = &args[i] {
            if p.identifier.declaration_id.0 == decl {
                return Some(i);
            }
        }
        i = i + 1;
    }
    None
}

/// The arguments of a call.
pub open spec fn call_args(value: InstructionValue) -> Option<Seq<Argument>> {
    match value {
        InstructionValue::MethodCall { args, .. } => Some(args@),
        InstructionValue::CallExpression { args, .. } => Some(args@),
        _ => None,
    }
}

pub fn call_args_of(value: &InstructionValue) -> (r: Option<&Vec<Argument>>)
    ensures
        r is Some == call_args(*value) is Some,
        r matches Some(a) ==> call_args(*value) == Some(a@),
{
    match value {
        InstructionValue::MethodCall { args, .. } => Some(args),
        InstructionValue::CallExpression { args, .. } => Some(args),
        _ => None,
    }
}

/// Whether an assignment by destructuring is followed by a call that gets the same value as an
/// argument, and neither result is used.
pub open spec fn is_fusible(first: ReactiveInstruction, second: ReactiveInstruction) -> bool {
    &&& first.lvalue is None
    &&& second.lvalue is None
    &&& first.value matches InstructionValue::Destructure { lvalue, value, .. } && lvalue.kind
        == InstructionKind::Reassign && call_args(second.value) is Some && arg_position(
        call_args(second.value)->0,
        decl_of(value),
        0,
    ) is Some
}

pub fn is_fusible_pair(first: &ReactiveInstruction, second: &ReactiveInstruction) -> (r: bool)
    ensures
        r == is_fusible(*first, *second),
{
    if first.lvalue.is_some() || second.lvalue.is_some() {
        return false;
    }
    match &first.value {
        InstructionValue::Destructure { lvalue, value, .. } => {
            if lvalue.kind != InstructionKind::Reassign {
                return false;
            }
            match call_args_of(&second.value) {
                Some(args) => find_arg_position(args, value.identifier.declaration_id.0).is_some(),
                None => false,
            }
        },
        _ => false,
    }
}

/// Whether the statements at `i` and behind it are such a pair.
pub open spec fn is_pair(block: Seq<ReactiveStatement>, i: int) -> bool {
    &&& 0 <= i < block.len() - 1
    &&& block[i] matches ReactiveStatement::Instruction(a) && block[i + 1]
        matches ReactiveStatement::Instruction(b) && is_fusible(*a, *b)
}

pub open spec fn stmt_refs(s: ReactiveStatement) -> Set<u32> {
    match s {
        ReactiveStatement::Instruction(instr) => value_refs(instr.value),
        _ => Set::empty(),
    }
}

/// The declarations that the first `n` statements mention at any depth, without those at `i` and behind
/// it.
pub open spec fn outside_refs(block: Seq<ReactiveStatement>, i: int, n: int) -> Set<u32>
    decreases n,
{
    if n <= 0 {
        Set::empty()
    } else {
        let front = outside_refs(block, i, n - 1);
        if n - 1 != i && n - 1 != i + 1 {
            front.union(stmt_mentions(block[n - 1]))
        } else {
            front
        }
    }
}

/// The statements from `j` on backwards whose values only the pair uses.
pub open spec fn private_to_pair(
    block: Seq<ReactiveStatement>,
    inside: Set<u32>,
    outside: Set<u32>,
    j: int,
) -> Set<int>
    decreases j + 1,
{
    if j < 0 || j >= block.len() {
        Set::empty()
    } else {
        match block[j] {
            ReactiveStatement::Instruction(instr) => match instr.lvalue {
                Some(lv) => {
                    if lv.identifier.name is None {
                        private_to_pair(block, inside, outside, j - 1)
                    } else if inside.contains(decl_of(lv)) && !outside.contains(decl_of(lv)) {
                        private_to_pair(block, inside, outside, j - 1).insert(j)
                    } else {
                        Set::empty()
                    }
                },
                None => Set::empty(),
            },
            _ => Set::empty(),
        }
    }
}

/// The statements whose values go to one of the first `n` pairs alone.
pub open spec fn suppressed(block: Seq<ReactiveStatement>, n: int) -> Set<int>
    decreases n,
{
    if n <= 0 {
        Set::empty()
    } else {
        let i = n - 1;
        let front = suppressed(block, i);
        if is_pair(block, i) {
            front.union(
                private_to_pair(
                    block,
                    stmt_refs(block[i]).union(stmt_refs(block[i + 1])),
                    outside_refs(block, i, block.len() as int),
                    i - 1,
                ),
            )
        } else {
            front
        }
    }
}

fn collect_outside_refs(block: &Vec<ReactiveStatement>, i: usize) -> (refs: IdSet)
    requires
        i + 1 < block@.len(),
    ensures
        refs@ == outside_refs(block@, i as int, block@.len() as int),
{
    let mut refs = IdSet::new();
    let mut j: usize = 0;
    while j < block.len()
        invariant
            j <= block@.len(),
            i + 1 < block@.len(),
            refs@ == outside_refs(block@, i as int, j as int),
        decreases block@.len() - j,
    {
        if j != i && j != i + 1 {
            collect_stmt_mentions(&block[j], &mut refs);
        }
        j = j + 1;
    }
    refs
}

fn mark_private(
    block: &Vec<ReactiveStatement>,
    inside: &IdSet,
    outside: &IdSet,
    i: usize,
    flags: &mut Vec<bool>,
)
    requires
        i <= block@.len(),
        old(flags)@.len() == block@.len(),
    ensures
        final(flags)@.len() == block@.len(),
        forall|k: int|
            0 <= k < block@.len() ==> #[trigger] final(flags)@[k] == (old(flags)@[k]
                || private_to_pair(block@, inside@, outside@, i - 1).contains(k)),
{
    let ghost goal = private_to_pair(block@, inside@, outside@, i - 1);
    let ghost start = flags@;
    let mut j: usize = i;
    proof {
        assert forall|k: int| 0 <= k < block@.len() implies (#[trigger] flags@[k] || private_to_pair(
            block@,
            inside@,
            outside@,
            j - 1,
        ).contains(k)) == (start[k] || goal.contains(k)) by {}
    }
    while j > 0
        invariant
            j <= i <= block@.len(),
            flags@.len() == block@.len(),
            start == old(flags)@,
            goal == private_to_pair(block@, inside@, outside@, i - 1),
            forall|k: int|
                0 <= k < block@.len() ==> (#[trigger] flags@[k] || private_to_pair(
                    block@,
                    inside@,
                    outside@,
                    j - 1,
                ).contains(k)) == (start[k] || goal.contains(k)),
        decreases j,
    {
        let p: usize = j - 1;
        let ghost before = flags@;
        match &block[p] {
            ReactiveStatement::Instruction(instr) => match &instr.lvalue {
                Some(lv) => {
                    if lv.identifier.name.is_some() {
                        let decl: u32 = lv.identifier.declaration_id.0;
                        if inside.contains(decl) && !outside.contains(decl) {
                            flags.set(p, true);
                        } else {
                            return;
                        }
                    }
                },
                None => {
                    return;
                },
            },
            _ => {
                return;
            },
        }
        proof {
            assert forall|k: int| 0 <= k < block@.len() implies (#[trigger] flags@[k]
                || private_to_pair(block@, inside@, outside@, p - 1).contains(k)) == (start[k]
                || goal.contains(k)) by {
                assert((before[k] || private_to_pair(block@, inside@, outside@, j - 1).contains(k))
                    == (start[k] || goal.contains(k)));
            }
        }
        j = p;
    }
}

/// Which instructions of a block only compute what an assignment by destructuring, and the call
/// behind it, use.
pub fn pre_scan_destructure_call_fusion(block: &Vec<ReactiveStatement>) -> (flags: Vec<bool>)
    ensures
        flags@.len() == block@.len(),
        forall|k: int|
            0 <= k < block@.len() ==> #[trigger] flags@[k] == suppressed(
                block@,
                block@.len() as int,
            ).contains(k),
{
    let mut flags: Vec<bool> = Vec::new();
    let n: usize = block.len();
    let mut i: usize = 0;
    while i < n
        invariant
            i <= n,
            n == block@.len(),
            flags@.len() == i,
            forall|k: int| 0 <= k < i ==> !#[trigger] flags@[k],
        decreases n - i,
    {
        flags.push(false);
        i = i + 1;
    }
    i = 0;
    while i < n
        invariant
            i <= n,
            n == block@.len(),
            flags@.len() == n,
            forall|k: int|
                0 <= k < n ==> #[trigger] flags@[k] == suppressed(block@, i as int).contains(k),
        decreases n - i,
    {
        if i + 1 < n {
            if let ReactiveStatement::Instruction(a) = &block[i] {
                if let ReactiveStatement::Instruction(b) = &block[i + 1] {
                    if is_fusible_pair(a, b) {
                        let mut inside = IdSet::new();
                        collect_value_refs(&a.value, &mut inside);
                        collect_value_refs(&b.value, &mut inside);
                        let outside = collect_outside_refs(block, i);
                        proof {
                            assert(inside@ =~= stmt_refs(block@[i as int]).union(
                                stmt_refs(block@[i + 1]),
                            ));
                        }
                        mark_private(block, &inside, &outside, i, &mut flags);
                    }
                }
            }
        }
        i = i + 1;
    }
    flags
}

proof fn lemma_outside_refs(block: Seq<ReactiveStatement>, i: int, n: int, k: int, decl: u32)
    requires
        0 <= k < n <= block.len(),
        k != i,
        k != i + 1,
        !outside_refs(block, i, n).contains(decl),
    ensures
        !stmt_mentions(block[k]).contains(decl),
    decreases n,
{
    if k < n - 1 {
        lemma_outside_refs(block, i, n - 1, k, decl);
    }
}

/// Whether the statement at `j` gives a named variable a value that the pair at `i` refers to and no
/// other statement mentions.
pub open spec fn only_for_pair(block: Seq<ReactiveStatement>, i: int, j: int) -> bool {
    &&& 0 <= j < i
    &&& is_pair(block, i)
    &&& block[j] matches ReactiveStatement::Instruction(instr) && (instr.lvalue matches Some(lv)
        && lv.identifier.name is Some && stmt_refs(block[i]).union(
        stmt_refs(block[i + 1]),
    ).contains(decl_of(lv)) && forall|k: int|
        0 <= k < block.len() && k != i && k != i + 1 ==> !stmt_mentions(
            #[trigger] block[k],
        ).contains(decl_of(lv)))
}

proof fn lemma_private_to_pair(block: Seq<ReactiveStatement>, i: int, m: int, j: int)
    requires
        is_pair(block, i),
        m < i,
        private_to_pair(
            block,
            stmt_refs(block[i]).union(stmt_refs(block[i + 1])),
            outside_refs(block, i, block.len() as int),
            m,
        ).contains(j),
    ensures
        only_for_pair(block, i, j),
    decreases m + 1,
{
    if j == m {
        if let ReactiveStatement::Instruction(instr) = block[j] {
            if let Some(lv) = instr.lvalue {
                assert forall|k: int|
                    0 <= k < block.len() && k != i && k != i + 1 implies !stmt_mentions(
                    #[trigger] block[k],
                ).contains(decl_of(lv)) by {
                    if lv.identifier.name is Some {
                        lemma_outside_refs(block, i, block.len() as int, k, decl_of(lv));
                    } else {
                        lemma_private_below(block, i, m - 1, j);
                    }
                }
                if lv.identifier.name is None {
                    lemma_private_below(block, i, m - 1, j);
                }
            }
        }
    } else {
        lemma_private_to_pair(block, i, m - 1, j);
    }
}

proof fn lemma_private_below(block: Seq<ReactiveStatement>, i: int, m: int, j: int)
    requires
        m < j,
    ensures
        !private_to_pair(
            block,
            stmt_refs(block[i]).union(stmt_refs(block[i + 1])),
            outside_refs(block, i, block.len() as int),
            m,
        ).contains(j),
    decreases m + 1,
{
    if m >= 0 {
        lemma_private_below(block, i, m - 1, j);
    }
}

/// Where the declaration of a variable is left out for a pair, the pair refers to the variable, and no
/// other statement of the block mentions it.
pub proof fn lemma_suppressed_only_for_pair(block: Seq<ReactiveStatement>, n: int, j: int)
    requires
        suppressed(block, n).contains(j),
    ensures
        exists|i: int| #[trigger] only_for_pair(block, i, j),
    decreases n,
{
    let i = n - 1;
    if suppressed(block, i).contains(j) {
        lemma_suppressed_only_for_pair(block, i, j);
    } else {
        lemma_private_to_pair(block, i, i - 1, j);
        assert(only_for_pair(block, i, j));
    }
}

// ---------------------------------------------------------------------------
// Kinds of values
// ---------------------------------------------------------------------------

/// Whether a value stands in a sequence of expressions although it is also written where it is used: it
/// calls a function, assigns to a variable or updates one.
pub open spec fn kept_always(value: InstructionValue) -> bool {
    match value {
        InstructionValue::CallExpression { .. } => true,
        InstructionValue::MethodCall { .. } => true,
        InstructionValue::PostfixUpdate { .. } => true,
        InstructionValue::PrefixUpdate { .. } => true,
        InstructionValue::StoreLocal { lvalue, .. } => lvalue.kind == InstructionKind::Reassign,
        InstructionValue::StoreContext { lvalue, .. } => lvalue.kind == InstructionKind::Reassign,
        InstructionValue::ReactiveSequenceExpression { .. } => true,
        _ => false,
    }
}

pub fn is_kept_always(value: &InstructionValue) -> (r: bool)
    ensures
        r == kept_always(*value),
{
    match value {
        InstructionValue::CallExpression { .. } => true,
        InstructionValue::MethodCall { .. } => true,
        InstructionValue::PostfixUpdate { .. } => true,
        InstructionValue::PrefixUpdate { .. } => true,
        InstructionValue::StoreLocal { lvalue, .. } => lvalue.kind == InstructionKind::Reassign,
        InstructionValue::StoreContext { lvalue, .. } => lvalue.kind == InstructionKind::Reassign,
        InstructionValue::ReactiveSequenceExpression { .. } => true,
        _ => false,
    }
}

/// Whether a value does something that a sequence of expressions has to keep: it calls, waits,
/// assigns, updates or deletes.
pub open spec fn side_effecting(value: InstructionValue) -> bool {
    match value {
        InstructionValue::NewExpression { .. } => true,
        InstructionValue::TaggedTemplateExpression { .. } => true,
        InstructionValue::Await { .. } => true,
        InstructionValue::StoreGlobal { .. } => true,
        InstructionValue::PropertyStore { .. } => true,
        InstructionValue::ComputedStore { .. } => true,
        InstructionValue::PropertyDelete { .. } => true,
        InstructionValue::ComputedDelete { .. } => true,
        _ => kept_always(value),
    }
}

pub fn is_sequence_side_effecting_value(value: &InstructionValue) -> (r: bool)
    ensures
        r == side_effecting(*value),
{
    match value {
        InstructionValue::NewExpression { .. } => true,
        InstructionValue::TaggedTemplateExpression { .. } => true,
        InstructionValue::Await { .. } => true,
        InstructionValue::StoreGlobal { .. } => true,
        InstructionValue::PropertyStore { .. } => true,
        InstructionValue::ComputedStore { .. } => true,
        InstructionValue::PropertyDelete { .. } => true,
        InstructionValue::ComputedDelete { .. } => true,
        _ => is_kept_always(value),
    }
}

/// Whether a value is a load, a store, a declaration, an operator or a cast.
pub open spec fn trivial_value(value: InstructionValue) -> bool {
    match value {
        InstructionValue::Primitive { .. } => true,
        InstructionValue::LoadLocal { .. } => true,
        InstructionValue::LoadContext { .. } => true,
        InstructionValue::StoreLocal { .. } => true,
        InstructionValue::StoreContext { .. } => true,
        InstructionValue::DeclareLocal { .. } => true,
        InstructionValue::DeclareContext { .. } => true,
        InstructionValue::BinaryExpression { .. } => true,
        InstructionValue::UnaryExpression { .. } => true,
        InstructionValue::TypeCastExpression { .. } => true,
        InstructionValue::LoadGlobal { .. } => true,
        _ => false,
    }
}

/// Whether a value is trivial, a call, a property load or a destructuring.
pub open spec fn trivial_or_call(value: InstructionValue) -> bool {
    trivial_value(value) || match value {
        InstructionValue::CallExpression { .. } => true,
        InstructionValue::MethodCall { .. } => true,
        InstructionValue::PropertyLoad { .. } => true,
        InstructionValue::Destructure { .. } => true,
        _ => false,
    }
}

fn is_trivial_value(value: &InstructionValue) -> (r: bool)
    ensures
        r == trivial_value(*value),
{
    match value {
        InstructionValue::Primitive { .. } => true,
        InstructionValue::LoadLocal { .. } => true,
        InstructionValue::LoadContext { .. } => true,
        InstructionValue::StoreLocal { .. } => true,
        InstructionValue::StoreContext { .. } => true,
        InstructionValue::DeclareLocal { .. } => true,
        InstructionValue::DeclareContext { .. } => true,
        InstructionValue::BinaryExpression { .. } => true,
        InstructionValue::UnaryExpression { .. } => true,
        InstructionValue::TypeCastExpression { .. } => true,
        InstructionValue::LoadGlobal { .. } => true,
        _ => false,
    }
}

/// Whether a block holds only instructions with trivial values and calls.
pub open spec fn trivial_or_calls(block: Seq<ReactiveStatement>) -> bool {
    forall|i: int|
        0 <= i < block.len() ==> (#[trigger] block[i] matches ReactiveStatement::Instruction(instr)
            && trivial_or_call(instr.value))
}

/// Whether a block holds only instructions with trivial values.
pub open spec fn strictly_trivial(block: Seq<ReactiveStatement>) -> bool {
    forall|i: int|
        0 <= i < block.len() ==> (#[trigger] block[i] matches ReactiveStatement::Instruction(instr)
            && trivial_value(instr.value))
}

pub fn scope_body_is_trivial_or_calls(instructions: &Vec<ReactiveStatement>) -> (r: bool)
    ensures
        r == trivial_or_calls(instructions@),
{
    let mut i: usize = 0;
    while i < instructions.len()
        invariant
            i <= instructions@.len(),
            forall|k: int|
                0 <= k < i ==> (#[trigger] instructions@[k] matches ReactiveStatement::Instruction(
                    instr,
                ) && trivial_or_call(instr.value)),
        decreases instructions@.len() - i,
    {
        let fine = match &instructions[i] {
            ReactiveStatement::Instruction(instr) => is_trivial_value(&instr.value)
                || match &instr.value {
                InstructionValue::CallExpression { .. } => true,
                InstructionValue::MethodCall { .. } => true,
                InstructionValue::PropertyLoad { .. } => true,
                InstructionValue::Destructure { .. } => true,
                _ => false,
            },
            _ => false,
        };
        if !fine {
            assert(!(instructions@[i as int] matches ReactiveStatement::Instruction(instr)
                && trivial_or_call(instr.value)));
            return false;
        }
        i = i + 1;
    }
    true
}

pub fn scope_body_is_strictly_trivial(instructions: &Vec<ReactiveStatement>) -> (r: bool)
    ensures
        r == strictly_trivial(instructions@),
{
    let mut i: usize = 0;
    while i < instructions.len()
        invariant
            i <= instructions@.len(),
            forall|k: int|
                0 <= k < i ==> (#[trigger] instructions@[k] matches ReactiveStatement::Instruction(
                    instr,
                ) && trivial_value(instr.value)),
        decreases instructions@.len() - i,
    {
        let fine = match &instructions[i] {
            ReactiveStatement::Instruction(instr) => is_trivial_value(&instr.value),
            _ => false,
        };
        if !fine {
            assert(!(instructions@[i as int] matches ReactiveStatement::Instruction(instr)
                && trivial_value(instr.value)));
            return false;
        }
        i = i + 1;
    }
    true
}

/// The collection that the first iteration step from `i` on goes over.
pub open spec fn collection_from(init: Seq<ReactiveStatement>, i: int) -> Option<Place>
    decreases init.len() - i,
{
    if i < 0 || i >= init.len() {
        None
    } else {
        match init[i] {
            ReactiveStatement::Instruction(instr) => match instr.value {
                InstructionValue::IteratorNext { collection, .. } => Some(collection),
                InstructionValue::NextPropertyOf { value } => Some(value),
                _ => collection_from(init, i + 1),
            },
            _ => collection_from(init, i + 1),
        }
    }
}

/// The collection that a `for`-`of` or a `for`-`in` loop goes over.
pub fn extract_for_collection(init: &Vec<ReactiveStatement>) -> (r: Option<&Place>)
    ensures
        r is Some == collection_from(init@, 0) is Some,
        r matches Some(p) ==> collection_from(init@, 0) == Some(*p),
{
    let mut i: usize = 0;
    while i < init.len()
        invariant
            i <= init@.len(),
            collection_from(init@, 0) == collection_from(init@, i as int),
        decreases init@.len() - i,
    {
        if let ReactiveStatement::Instruction(instr) = &init[i] {
            match &instr.value {
                InstructionValue::IteratorNext { collection, .. } => {
                    return Some(collection);
                },
                InstructionValue::NextPropertyOf { value } => {
                    return Some(value);
                },
                _ => {},
            }
        }
        i = i + 1;
    }
    None
}

// ---------------------------------------------------------------------------
// Uses that a direct lowering sees
// ---------------------------------------------------------------------------

pub open spec fn arg_places(args: Seq<Argument>) -> Seq<Place> {
    args.map_values(|a: Argument| a.place_of())
}

/// The places that a direct lowering takes for uses of their temporaries.
pub open spec fn tracked_places(value: InstructionValue) -> Seq<Place> {
    match value {
        InstructionValue::LoadLocal { place } => seq![place],
        InstructionValue::LoadContext { place } => seq![place],
        InstructionValue::StoreLocal { value, .. } => seq![value],
        InstructionValue::StoreContext { value, .. } => seq![value],
        InstructionValue::BinaryExpression { left, right, .. } => seq![left, right],
        InstructionValue::UnaryExpression { value, .. } => seq![value],
        InstructionValue::TypeCastExpression { value, .. } => seq![value],
        InstructionValue::CallExpression { callee, args, .. } => seq![callee] + arg_places(args@),
        InstructionValue::NewExpression { callee, args } => seq![callee] + arg_places(args@),
        InstructionValue::MethodCall { receiver, property, args, .. } => seq![receiver, property]
            + arg_places(args@),
        InstructionValue::PropertyLoad { object, .. } => seq![object],
        InstructionValue::PropertyDelete { object, .. } => seq![object],
        InstructionValue::PropertyStore { object, value, .. } => seq![object, value],
        InstructionValue::ComputedLoad { object, property, .. } => seq![object, property],
        InstructionValue::ComputedDelete { object, property } => seq![object, property],
        InstructionValue::ComputedStore { object, property, value } => seq![object, property, value],
        InstructionValue::StoreGlobal { value, .. } => seq![value],
        InstructionValue::LogicalExpression { left, right, .. } => seq![left, right],
        InstructionValue::Ternary { test, consequent, alternate } => seq![
            test,
            consequent,
            alternate,
        ],
        InstructionValue::PrefixUpdate { lvalue, .. } => seq![lvalue],
        InstructionValue::PostfixUpdate { lvalue, .. } => seq![lvalue],
        _ => Seq::empty(),
    }
}

/// Whether one of the places is the temporary `id`.
pub open spec fn names_temp(places: Seq<Place>, id: u32) -> bool {
    exists|i: int|
        0 <= i < places.len() && (#[trigger] places[i]).identifier.name is None
            && places[i].identifier.id.0 == id
}

/// The temporaries among the places.
pub open spec fn temps_in(places: Seq<Place>) -> Set<u32> {
    Set::new(|id: u32| names_temp(places, id))
}

fn record(place: &Place, used: &mut IdSet)
    ensures
        final(used)@ == old(used)@.union(temps_in(seq![*place])),
{
    if place.identifier.name.is_none() {
        used.insert(place.identifier.id.0);
        proof {
            assert(seq![*place][0] == *place);
        }
    }
    proof {
        assert(used@ =~= old(used)@.union(temps_in(seq![*place])));
    }
}

proof fn lemma_temps_in_add(a: Seq<Place>, b: Seq<Place>)
    ensures
        temps_in(a + b) == temps_in(a).union(temps_in(b)),
{
    assert forall|id: u32| temps_in(a + b).contains(id) <==> temps_in(a).union(temps_in(b)).contains(
        id,
    ) by {
        if names_temp(a + b, id) {
            let i = choose|i: int|
                0 <= i < (a + b).len() && (#[trigger] (a + b)[i]).identifier.name is None && (a
                    + b)[i].identifier.id.0 == id;
            if i < a.len() {
                assert(a[i] == (a + b)[i]);
            } else {
                assert(b[i - a.len()] == (a + b)[i]);
            }
        }
        if names_temp(a, id) {
            let i = choose|i: int|
                0 <= i < a.len() && (#[trigger] a[i]).identifier.name is None
                    && a[i].identifier.id.0 == id;
            assert((a + b)[i] == a[i]);
        }
        if names_temp(b, id) {
            let i = choose|i: int|
                0 <= i < b.len() && (#[trigger] b[i]).identifier.name is None
                    && b[i].identifier.id.0 == id;
            assert((a + b)[a.len() + i] == b[i]);
        }
    }
    assert(temps_in(a + b) =~= temps_in(a).union(temps_in(b)));
}

fn record_args(args: &Vec<Argument>, used: &mut IdSet)
    ensures
        final(used)@ == old(used)@.union(temps_in(arg_places(args@))),
{
    let ghost places = arg_places(args@);
    let mut i: usize = 0;
    proof {
        assert(used@ =~= used@.union(temps_in(places.take(0))));
    }
    while i < args.len()
        invariant
            i <= args@.len(),
            places == arg_places(args@),
            used@ == old(used)@.union(temps_in(places.take(i as int))),
        decreases args@.len() - i,
    {
        record(args[i].place(), used);
        proof {
            assert(places.take(i as int + 1) =~= places.take(i as int) + seq![places[i as int]]);
            lemma_temps_in_add(places.take(i as int), seq![places[i as int]]);
            assert(used@ =~= old(used)@.union(temps_in(places.take(i as int + 1))));
        }
        i = i + 1;
    }
    proof {
        assert(places.take(args@.len() as int) =~= places);
    }
}

fn record2(a: &Place, b: &Place, used: &mut IdSet)
    ensures
        final(used)@ == old(used)@.union(temps_in(seq![*a, *b])),
{
    record(a, used);
    record(b, used);
    proof {
        lemma_temps_in_add(seq![*a], seq![*b]);
        assert(seq![*a, *b] =~= seq![*a] + seq![*b]);
        assert(used@ =~= old(used)@.union(temps_in(seq![*a, *b])));
    }
}

fn record3(a: &Place, b: &Place, c: &Place, used: &mut IdSet)
    ensures
        final(used)@ == old(used)@.union(temps_in(seq![*a, *b, *c])),
{
    record2(a, b, used);
    record(c, used);
    proof {
        lemma_temps_in_add(seq![*a, *b], seq![*c]);
        assert(seq![*a, *b, *c] =~= seq![*a, *b] + seq![*c]);
        assert(used@ =~= old(used)@.union(temps_in(seq![*a, *b, *c])));
    }
}

/// Adds the temporaries that a direct lowering takes for used.
pub fn collect_tracked_temp_uses(value: &InstructionValue, used: &mut IdSet)
    ensures
        final(used)@ == old(used)@.union(temps_in(tracked_places(*value))),
{
    match value {
        InstructionValue::LoadLocal { place } => record(place, used),
        InstructionValue::LoadContext { place } => record(place, used),
        InstructionValue::StoreLocal { value: v, .. } => record(v, used),
        InstructionValue::StoreContext { value: v, .. } => record(v, used),
        InstructionValue::BinaryExpression { left, right, .. } => record2(left, right, used),
        InstructionValue::UnaryExpression { value: v, .. } => record(v, used),
        InstructionValue::TypeCastExpression { value: v, .. } => record(v, used),
        InstructionValue::CallExpression { callee, args, .. } => {
            record(callee, used);
            record_args(args, used);
            proof {
                lemma_temps_in_add(seq![*callee], arg_places(args@));
                assert(used@ =~= old(used)@.union(temps_in(tracked_places(*value))));
            }
        },
        InstructionValue::NewExpression { callee, args } => {
            record(callee, used);
            record_args(args, used);
            proof {
                lemma_temps_in_add(seq![*callee], arg_places(args@));
                assert(used@ =~= old(used)@.union(temps_in(tracked_places(*value))));
            }
        },
        InstructionValue::MethodCall { receiver, property, args, .. } => {
            record2(receiver, property, used);
            record_args(args, used);
            proof {
                lemma_temps_in_add(seq![*receiver, *property], arg_places(args@));
                assert(used@ =~= old(used)@.union(temps_in(tracked_places(*value))));
            }
        },
        InstructionValue::PropertyLoad { object, .. } => record(object, used),
        InstructionValue::PropertyDelete { object, .. } => record(object, used),
        InstructionValue::PropertyStore { object, value: v, .. } => record2(object, v, used),
        InstructionValue::ComputedLoad { object, property, .. } => record2(object, property, used),
        InstructionValue::ComputedDelete { object, property } => record2(object, property, used),
        InstructionValue::ComputedStore { object, property, value: v } => {
            record3(object, property, v, used)
        },
        InstructionValue::StoreGlobal { value: v, .. } => record(v, used),
        InstructionValue::LogicalExpression { left, right, .. } => record2(left, right, used),
        InstructionValue::Ternary { test, consequent, alternate } => {
            record3(test, consequent, alternate, used)
        },
        InstructionValue::PrefixUpdate { lvalue, .. } => record(lvalue, used),
        InstructionValue::PostfixUpdate { lvalue, .. } => record(lvalue, used),
        _ => {
            proof {
                assert(used@ =~= old(used)@.union(temps_in(Seq::empty())));
            }
        },
    }
}

/// Whether an instruction calls something for a temporary.
pub open spec fn calls_for_temp(instr: Instruction) -> bool {
    instr.lvalue.identifier.name is None && match instr.value {
        InstructionValue::CallExpression { .. } => true,
        InstructionValue::MethodCall { .. } => true,
        InstructionValue::NewExpression { .. } => true,
        _ => false,
    }
}

/// The temporaries that a direct lowering of the first `n` instructions takes for used.
pub open spec fn tracked_uses(instrs: Seq<Instruction>, n: int) -> Set<u32>
    decreases n,
{
    if n <= 0 {
        Set::empty()
    } else {
        tracked_uses(instrs, n - 1).union(temps_in(tracked_places(instrs[n - 1].value)))
    }
}

/// Whether a direct lowering of a function would write a call twice: the call stands for a temporary
/// that the lowering does not take for used.
pub open spec fn repeats_call(func: HIRFunction) -> bool {
    let instrs = instructions(func);
    exists|i: int|
        0 <= i < instrs.len() && calls_for_temp(#[trigger] instrs[i]) && !tracked_uses(
            instrs,
            instrs.len() as int,
        ).contains(instrs[i].lvalue.identifier.id.0)
}

/// Whether a direct lowering of a function would write a call twice.
pub fn has_destructure_consuming_side_effecting_temp(hir_func: &HIRFunction) -> (r: bool)
    ensures
        r == repeats_call(*hir_func),
{
    let all = instructions_of(hir_func);
    let ghost instrs = instructions(*hir_func);
    let mut used = IdSet::new();
    let mut i: usize = 0;
    proof {
        assert(pointees(all@).len() == all@.len());
    }
    while i < all.len()
        invariant
            i <= all@.len(),
            all@.len() == instrs.len(),
            pointees(all@) == instrs,
            used@ == tracked_uses(instrs, i as int),
        decreases all@.len() - i,
    {
        assert(*all@[i as int] == instrs[i as int]);
        collect_tracked_temp_uses(&all[i].value, &mut used);
        i = i + 1;
    }
    i = 0;
    while i < all.len()
        invariant
            i <= all@.len(),
            all@.len() == instrs.len(),
            pointees(all@) == instrs,
            instrs == instructions(*hir_func),
            used@ == tracked_uses(instrs, instrs.len() as int),
            forall|k: int|
                0 <= k < i ==> !(calls_for_temp(#[trigger] instrs[k]) && !used@.contains(
                    instrs[k].lvalue.identifier.id.0,
                )),
        decreases all@.len() - i,
    {
        let instr = all[i];
        assert(*all@[i as int] == instrs[i as int]);
        let calls = match &instr.value {
            InstructionValue::CallExpression { .. } => true,
            InstructionValue::MethodCall { .. } => true,
            InstructionValue::NewExpression { .. } => true,
            _ => false,
        };
        if calls && instr.lvalue.identifier.name.is_none() && !used.contains(
            instr.lvalue.identifier.id.0,
        ) {
            assert(calls_for_temp(instrs[i as int]));
            return true;
        }
        i = i + 1;
    }
    false
}

// ---------------------------------------------------------------------------
// Preferred names
// ---------------------------------------------------------------------------

/// The first name of a declaration is kept.
pub open spec fn remembered(names: Map<u32, Text>, ident: Identifier) -> Map<u32, Text> {
    let decl = ident.declaration_id.0;
    if ident.name is Some && !names.contains_key(decl) {
        names.insert(decl, own_name(ident))
    } else {
        names
    }
}

pub fn remember_ident(names: &mut IdTexts, ident: &Identifier)
    ensures
        final(names)@ == remembered(old(names)@, *ident),
{
    if let Some(name) = &ident.name {
        if !names.contains(ident.declaration_id.0) {
            names.insert(ident.declaration_id.0, owned(name.value()));
        }
    }
}

/// The names of the first `n` places are kept.
pub open spec fn remembered_places(names: Map<u32, Text>, places: Seq<Place>, n: int) -> Map<u32, Text>
    decreases n,
{
    if n <= 0 {
        names
    } else {
        remembered(remembered_places(names, places, n - 1), places[n - 1].identifier)
    }
}

/// The places of a value, those that it assigns to included.
pub open spec fn named_places(value: InstructionValue) -> Seq<Place> {
    match value {
        InstructionValue::DeclareLocal { lvalue } => seq![lvalue.place],
        InstructionValue::DeclareContext { lvalue } => seq![lvalue.place],
        InstructionValue::StoreLocal { lvalue, value, .. } => seq![lvalue.place, value],
        InstructionValue::Destructure { lvalue, value, .. } => seq![value] + pattern_operands(
            lvalue.pattern,
        ) + pattern_reads(lvalue.pattern),
        InstructionValue::PrefixUpdate { lvalue, value, .. } => seq![lvalue, value],
        InstructionValue::PostfixUpdate { lvalue, value, .. } => seq![lvalue, value],
        _ => operands(value),
    }
}

fn remember_places(names: &mut IdTexts, places: &Vec<&Place>)
    ensures
        final(names)@ == remembered_places(
            old(names)@,
            pointees(places@),
            pointees(places@).len() as int,
        ),
{
    let ghost all = pointees(places@);
    let mut i: usize = 0;
    proof {
        assert(all.len() == places@.len());
    }
    while i < places.len()
        invariant
            i <= places@.len(),
            all == pointees(places@),
            all.len() == places@.len(),
            names@ == remembered_places(old(names)@, all, i as int),
        decreases places@.len() - i,
    {
        assert(*places@[i as int] == all[i as int]);
        remember_ident(names, &places[i].identifier);
        i = i + 1;
    }
}

fn named_places_of(value: &InstructionValue) -> (places: Vec<&Place>)
    ensures
        pointees(places@) == named_places(*value),
{
    let mut places: Vec<&Place> = Vec::new();
    match value {
        InstructionValue::DeclareLocal { lvalue } => places.push(&lvalue.place),
        InstructionValue::DeclareContext { lvalue } => places.push(&lvalue.place),
        InstructionValue::StoreLocal { lvalue, value: v, .. } => {
            places.push(&lvalue.place);
            places.push(v);
        },
        InstructionValue::Destructure { lvalue, value: v, .. } => {
            places.push(v);
            let ghost before = places@;
            let mut more = each_pattern_operand(&lvalue.pattern);
            let ghost added = more@;
            places.append(&mut more);
            proof {
                assert(pointees(places@) =~= pointees(before) + pointees(added));
                assert(refs_are(places@, seq![*v] + pattern_operands(lvalue.pattern)));
            }
            push_pattern_reads(&mut places, &lvalue.pattern);
        },
        InstructionValue::PrefixUpdate { lvalue, value: v, .. } => {
            places.push(lvalue);
            places.push(v);
        },
        InstructionValue::PostfixUpdate { lvalue, value: v, .. } => {
            places.push(lvalue);
            places.push(v);
        },
        _ => {
            places = operands_of(value);
        },
    }
    proof {
        assert(pointees(places@) =~= named_places(*value));
    }
    places
}

/// The names that a value gives to declarations are kept, at any depth of the values that it is made of.
pub open spec fn remembered_value(names: Map<u32, Text>, value: InstructionValue) -> Map<u32, Text>
    decreases value, 0int,
{
    match value {
        InstructionValue::ReactiveOptionalExpression { value, .. } => remembered_value(names, *value),
        InstructionValue::ReactiveSequenceExpression { instructions, value } => remembered_value(
            remembered_instrs(names, instructions@, instructions@.len() as int),
            *value,
        ),
        InstructionValue::ReactiveLogicalExpression { left, right, .. } => remembered_value(
            remembered_value(names, *left),
            *right,
        ),
        InstructionValue::ReactiveConditionalExpression { test, consequent, alternate } => {
            remembered_value(
                remembered_value(remembered_value(names, *test), *consequent),
                *alternate,
            )
        },
        _ => remembered_places(names, named_places(value), named_places(value).len() as int),
    }
}

/// The name that an instruction gives to its result is kept.
pub open spec fn remembered_result(names: Map<u32, Text>, instr: ReactiveInstruction) -> Map<u32, Text> {
    match instr.lvalue {
        Some(lv) => remembered(names, lv.identifier),
        None => names,
    }
}

/// The names that the first `n` instructions give to declarations are kept.
pub open spec fn remembered_instrs(names: Map<u32, Text>, instrs: Seq<ReactiveInstruction>, n: int) -> Map<
    u32,
    Text,
>
    decreases instrs, n,
{
    if n <= 0 || n > instrs.len() {
        names
    } else {
        remembered_value(
            remembered_result(remembered_instrs(names, instrs, n - 1), instrs[n - 1]),
            instrs[n - 1].value,
        )
    }
}

/// Keeps the names that a value gives to declarations.
pub fn scan_instruction_value_identifiers(value: &InstructionValue, names: &mut IdTexts)
    ensures
        final(names)@ == remembered_value(old(names)@, *value),
    decreases value, 0int,
{
    match value {
        InstructionValue::ReactiveOptionalExpression { value: v, .. } => {
            scan_instruction_value_identifiers(v, names);
        },
        InstructionValue::ReactiveSequenceExpression { instructions, value: v } => {
            scan_instructions(instructions, names);
            scan_instruction_value_identifiers(v, names);
        },
        InstructionValue::ReactiveLogicalExpression { left, right, .. } => {
            scan_instruction_value_identifiers(left, names);
            scan_instruction_value_identifiers(right, names);
        },
        InstructionValue::ReactiveConditionalExpression { test, consequent, alternate } => {
            scan_instruction_value_identifiers(test, names);
            scan_instruction_value_identifiers(consequent, names);
            scan_instruction_value_identifiers(alternate, names);
        },
        _ => {
            let places = named_places_of(value);
            remember_places(names, &places);
        },
    }
}

fn scan_instructions(instrs: &Vec<ReactiveInstruction>, names: &mut IdTexts)
    ensures
        final(names)@ == remembered_instrs(old(names)@, instrs@, instrs@.len() as int),
    decreases instrs, 0int,
{
    let mut i: usize = 0;
    while i < instrs.len()
        invariant
            i <= instrs@.len(),
            names@ == remembered_instrs(old(names)@, instrs@, i as int),
        decreases instrs@.len() - i,
    {
        assert(decreases_to!(instrs => instrs@));
        assert(decreases_to!(instrs@ => instrs@[i as int]));
        if let Some(lv) = &instrs[i].lvalue {
            remember_ident(names, &lv.identifier);
        }
        scan_instruction_value_identifiers(&instrs[i].value, names);
        i = i + 1;
    }
}

/// The names of the first `n` declarations of a scope are kept.
pub open spec fn remembered_entries(
    names: Map<u32, Text>,
    entries: Seq<(IdentifierId, ScopeDeclaration)>,
    n: int,
) -> Map<u32, Text>
    decreases n,
{
    if n <= 0 {
        names
    } else {
        remembered(remembered_entries(names, entries, n - 1), entries[n - 1].1.identifier)
    }
}

/// The names of the first `n` identifiers are kept.
pub open spec fn remembered_idents(names: Map<u32, Text>, idents: Seq<Identifier>, n: int) -> Map<u32, Text>
    decreases n,
{
    if n <= 0 {
        names
    } else {
        remembered(remembered_idents(names, idents, n - 1), idents[n - 1])
    }
}

/// The names of what a scope declares and assigns are kept.
pub open spec fn remembered_scope(names: Map<u32, Text>, scope: ReactiveScope) -> Map<u32, Text> {
    let entries = scope.declarations.entries@;
    remembered_idents(
        remembered_entries(names, entries, entries.len() as int),
        scope.reassignments@,
        scope.reassignments@.len() as int,
    )
}

fn remember_scope(names: &mut IdTexts, scope: &ReactiveScope)
    ensures
        final(names)@ == remembered_scope(old(names)@, *scope),
{
    let ghost entries = scope.declarations.entries@;
    let mut i: usize = 0;
    while i < scope.declarations.entries.len()
        invariant
            i <= entries.len(),
            entries == scope.declarations.entries@,
            names@ == remembered_entries(old(names)@, entries, i as int),
        decreases entries.len() - i,
    {
        remember_ident(names, &scope.declarations.entries[i].1.identifier);
        i = i + 1;
    }
    i = 0;
    while i < scope.reassignments.len()
        invariant
            i <= scope.reassignments@.len(),
            names@ == remembered_idents(
                remembered_entries(old(names)@, entries, entries.len() as int),
                scope.reassignments@,
                i as int,
            ),
        decreases scope.reassignments@.len() - i,
    {
        remember_ident(names, &scope.reassignments[i]);
        i = i + 1;
    }
}

pub open spec fn preferred_stmt(names: Map<u32, Text>, s: ReactiveStatement) -> Map<u32, Text>
    decreases s, 0nat, 0nat,
{
    match s {
        ReactiveStatement::Instruction(instr) => remembered_value(
            remembered_result(names, *instr),
            instr.value,
        ),
        ReactiveStatement::Scope(b) => preferred_block(
            remembered_scope(names, b.scope),
            b.instructions@,
        ),
        ReactiveStatement::PrunedScope(b) => preferred_block(
            remembered_scope(names, b.scope),
            b.instructions@,
        ),
        ReactiveStatement::Terminal(t) => preferred_terminal(names, t.terminal),
    }
}

/// The names that the first `n` statements give to declarations, each the first one.
pub open spec fn preferred_upto(names: Map<u32, Text>, block: Seq<ReactiveStatement>, n: int) -> Map<
    u32,
    Text,
>
    decreases block, 0nat, n,
{
    if n <= 0 || n > block.len() {
        names
    } else {
        preferred_stmt(preferred_upto(names, block, n - 1), block[n - 1])
    }
}

pub open spec fn preferred_block(names: Map<u32, Text>, block: Seq<ReactiveStatement>) -> Map<u32, Text>
    decreases block, 1nat, 0nat,
{
    preferred_upto(names, block, block.len() as int)
}

pub open spec fn preferred_option(names: Map<u32, Text>, block: Option<Vec<ReactiveStatement>>) -> Map<
    u32,
    Text,
>
    decreases block, 0nat, 0nat,
{
    match block {
        Some(b) => preferred_block(names, b@),
        None => names,
    }
}

/// The name of a place, where there is one, is kept.
pub open spec fn remembered_optional(names: Map<u32, Text>, place: Option<Place>) -> Map<u32, Text> {
    match place {
        Some(p) => remembered(names, p.identifier),
        None => names,
    }
}

/// The names that the value of an update gives to declarations are kept.
pub open spec fn remembered_update(names: Map<u32, Text>, value: Option<Box<InstructionValue>>) -> Map<
    u32,
    Text,
> {
    match value {
        Some(v) => remembered_value(names, *v),
        None => names,
    }
}

pub open spec fn preferred_cases(names: Map<u32, Text>, cases: Seq<ReactiveSwitchCase>, n: int) -> Map<
    u32,
    Text,
>
    decreases cases, 0nat, n,
{
    if n <= 0 || n > cases.len() {
        names
    } else {
        preferred_option(
            remembered_optional(preferred_cases(names, cases, n - 1), cases[n - 1].test),
            cases[n - 1].block,
        )
    }
}

pub open spec fn preferred_terminal(names: Map<u32, Text>, t: ReactiveTerminal) -> Map<u32, Text>
    decreases t, 0nat, 0nat,
{
    match t {
        ReactiveTerminal::Return { value } => remembered(names, value.identifier),
        ReactiveTerminal::Throw { value } => remembered(names, value.identifier),
        ReactiveTerminal::If { test, consequent, alternate } => preferred_option(
            preferred_block(remembered(names, test.identifier), consequent@),
            alternate,
        ),
        ReactiveTerminal::Switch { test, cases } => preferred_cases(
            remembered(names, test.identifier),
            cases@,
            cases@.len() as int,
        ),
        ReactiveTerminal::DoWhile { loop_block, test } => remembered(
            preferred_block(names, loop_block@),
            test.identifier,
        ),
        ReactiveTerminal::While { test, loop_block } => preferred_block(
            remembered(names, test.identifier),
            loop_block@,
        ),
        ReactiveTerminal::For { init, test, update, update_value, loop_block } => {
            let started = remembered(preferred_block(names, init@), test.identifier);
            let updated = remembered_update(preferred_option(started, update), update_value);
            preferred_block(updated, loop_block@)
        },
        ReactiveTerminal::ForOf { init, loop_block } => preferred_block(
            preferred_block(names, init@),
            loop_block@,
        ),
        ReactiveTerminal::ForIn { init, loop_block } => preferred_block(
            preferred_block(names, init@),
            loop_block@,
        ),
        ReactiveTerminal::Label { block } => preferred_block(names, block@),
        ReactiveTerminal::Try { block, handler_binding, handler } => preferred_block(
            remembered_optional(preferred_block(names, block@), handler_binding),
            handler@,
        ),
        _ => names,
    }
}

/// The names that a block gives to declarations, each the first one.
pub fn collect_preferred_decl_names(block: &Vec<ReactiveStatement>) -> (names: IdTexts)
    ensures
        names@ == preferred_block(Map::empty(), block@),
{
    let mut names = IdTexts::new();
    collect_preferred_decl_names_impl(block, &mut names);
    names
}

pub fn collect_preferred_decl_names_impl(block: &Vec<ReactiveStatement>, names: &mut IdTexts)
    ensures
        final(names)@ == preferred_block(old(names)@, block@),
    decreases block, 0nat,
{
    let mut i: usize = 0;
    while i < block.len()
        invariant
            i <= block@.len(),
            names@ == preferred_upto(old(names)@, block@, i as int),
        decreases block@.len() - i,
    {
        assert(decreases_to!(block => block@));
        assert(decreases_to!(block@ => block@[i as int]));
        let ghost before = names@;
        match &block[i] {
            ReactiveStatement::Instruction(instr) => {
                if let Some(lv) = &instr.lvalue {
                    remember_ident(names, &lv.identifier);
                }
                scan_instruction_value_identifiers(&instr.value, names);
            },
            ReactiveStatement::Scope(b) => {
                remember_scope(names, &b.scope);
                collect_preferred_decl_names_impl(&b.instructions, names);
            },
            ReactiveStatement::PrunedScope(b) => {
                remember_scope(names, &b.scope);
                collect_preferred_decl_names_impl(&b.instructions, names);
            },
            ReactiveStatement::Terminal(t) => {
                collect_preferred_decl_names_in_terminal(&t.terminal, names);
            },
        }
        assert(names@ == preferred_stmt(before, block@[i as int]));
        i = i + 1;
    }
}

fn collect_preferred_option(block: &Option<Vec<ReactiveStatement>>, names: &mut IdTexts)
    ensures
        final(names)@ == preferred_option(old(names)@, *block),
    decreases block, 0nat,
{
    if let Some(b) = block {
        collect_preferred_decl_names_impl(b, names);
    }
}

fn remember_optional(names: &mut IdTexts, place: &Option<Place>)
    ensures
        final(names)@ == remembered_optional(old(names)@, *place),
{
    if let Some(p) = place {
        remember_ident(names, &p.identifier);
    }
}

fn collect_preferred_cases(cases: &Vec<ReactiveSwitchCase>, names: &mut IdTexts)
    ensures
        final(names)@ == preferred_cases(old(names)@, cases@, cases@.len() as int),
    decreases cases, 0nat,
{
    let mut i: usize = 0;
    while i < cases.len()
        invariant
            i <= cases@.len(),
            names@ == preferred_cases(old(names)@, cases@, i as int),
        decreases cases@.len() - i,
    {
        assert(decreases_to!(cases => cases@));
        assert(decreases_to!(cases@ => cases@[i as int]));
        assert(decreases_to!(cases@[i as int] => cases@[i as int].block));
        remember_optional(names, &cases[i].test);
        collect_preferred_option(&cases[i].block, names);
        i = i + 1;
    }
}

pub fn collect_preferred_decl_names_in_terminal(terminal: &ReactiveTerminal, names: &mut IdTexts)
    ensures
        final(names)@ == preferred_terminal(old(names)@, *terminal),
    decreases terminal, 0nat,
{
    match terminal {
        ReactiveTerminal::Return { value } => {
            remember_ident(names, &value.identifier);
        },
        ReactiveTerminal::Throw { value } => {
            remember_ident(names, &value.identifier);
        },
        ReactiveTerminal::If { test, consequent, alternate } => {
            remember_ident(names, &test.identifier);
            collect_preferred_decl_names_impl(consequent, names);
            collect_preferred_option(alternate, names);
        },
        ReactiveTerminal::Switch { test, cases } => {
            remember_ident(names, &test.identifier);
            collect_preferred_cases(cases, names);
        },
        ReactiveTerminal::DoWhile { loop_block, test } => {
            collect_preferred_decl_names_impl(loop_block, names);
            remember_ident(names, &test.identifier);
        },
        ReactiveTerminal::While { test, loop_block } => {
            remember_ident(names, &test.identifier);
            collect_preferred_decl_names_impl(loop_block, names);
        },
        ReactiveTerminal::For { init, test, update, update_value, loop_block } => {
            collect_preferred_decl_names_impl(init, names);
            remember_ident(names, &test.identifier);
            collect_preferred_option(update, names);
            if let Some(value) = update_value {
                scan_instruction_value_identifiers(value, names);
            }
            collect_preferred_decl_names_impl(loop_block, names);
        },
        ReactiveTerminal::ForOf { init, loop_block } => {
            collect_preferred_decl_names_impl(init, names);
            collect_preferred_decl_names_impl(loop_block, names);
        },
        ReactiveTerminal::ForIn { init, loop_block } => {
            collect_preferred_decl_names_impl(init, names);
            collect_preferred_decl_names_impl(loop_block, names);
        },
        ReactiveTerminal::Label { block } => {
            collect_preferred_decl_names_impl(block, names);
        },
        ReactiveTerminal::Try { block, handler_binding, handler } => {
            collect_preferred_decl_names_impl(block, names);
            remember_optional(names, handler_binding);
            collect_preferred_decl_names_impl(handler, names);
        },
        _ => {},
    }
}

// ---------------------------------------------------------------------------
// Source lines
// ---------------------------------------------------------------------------

/// The lines that a location starts and ends on.
pub open spec fn loc_lines(loc: SourceLocation) -> Seq<u32> {
    match loc {
        SourceLocation::Source(range) => seq![range.start.line, range.end.line],
        SourceLocation::Generated => Seq::empty(),
    }
}

/// The lines of the first `n` instructions among the statements.
pub open spec fn block_lines(block: Seq<ReactiveStatement>, n: int) -> Seq<u32>
    decreases n,
{
    if n <= 0 {
        Seq::empty()
    } else {
        block_lines(block, n - 1) + match block[n - 1] {
            ReactiveStatement::Instruction(instr) => loc_lines(instr.loc),
            _ => Seq::empty(),
        }
    }
}

pub open spec fn entry_lines(entries: Seq<(IdentifierId, ScopeDeclaration)>, n: int) -> Seq<u32>
    decreases n,
{
    if n <= 0 {
        Seq::empty()
    } else {
        entry_lines(entries, n - 1) + loc_lines(entries[n - 1].1.identifier.loc)
    }
}

pub open spec fn ident_lines(idents: Seq<Identifier>, n: int) -> Seq<u32>
    decreases n,
{
    if n <= 0 {
        Seq::empty()
    } else {
        ident_lines(idents, n - 1) + loc_lines(idents[n - 1].loc)
    }
}

/// The lines of what a scope declares and assigns and of its instructions.
pub open spec fn scope_lines(scope: ReactiveScope, block: Seq<ReactiveStatement>) -> Seq<u32> {
    let entries = scope.declarations.entries@;
    entry_lines(entries, entries.len() as int) + ident_lines(
        scope.reassignments@,
        scope.reassignments@.len() as int,
    ) + block_lines(block, block.len() as int)
}

pub open spec fn is_least(lines: Seq<u32>, x: u32) -> bool {
    lines.contains(x) && forall|i: int| 0 <= i < lines.len() ==> x <= #[trigger] lines[i]
}

pub open spec fn is_greatest(lines: Seq<u32>, x: u32) -> bool {
    lines.contains(x) && forall|i: int| 0 <= i < lines.len() ==> #[trigger] lines[i] <= x
}

/// The first and the last line of a scope, as they are written.
pub open spec fn is_scope_loc(r: Text, lines: Seq<u32>) -> bool {
    if lines.len() == 0 {
        r == "unknown location"@
    } else {
        exists|a: u32, b: u32|
            #![trigger is_least(lines, a), is_greatest(lines, b)]
            is_least(lines, a) && is_greatest(lines, b) && r == "("@ + decimal(a as nat) + ":"@
                + decimal(b as nat) + ")"@
    }
}

/// The first and the last line of a scope, as they are written.
pub open spec fn scope_loc(scope: ReactiveScope, block: Seq<ReactiveStatement>) -> Text {
    choose|r: Text| is_scope_loc(r, scope_lines(scope, block))
}

proof fn lemma_scope_loc(lines: Seq<u32>, r: Text, s: Text)
    requires
        is_scope_loc(r, lines),
        is_scope_loc(s, lines),
    ensures
        r == s,
{
    if lines.len() > 0 {
        let (a, b) = choose|a: u32, b: u32|
            #![trigger is_least(lines, a), is_greatest(lines, b)]
            is_least(lines, a) && is_greatest(lines, b) && r == "("@ + decimal(a as nat) + ":"@
                + decimal(b as nat) + ")"@;
        let (c, d) = choose|c: u32, d: u32|
            #![trigger is_least(lines, c), is_greatest(lines, d)]
            is_least(lines, c) && is_greatest(lines, d) && s == "("@ + decimal(c as nat) + ":"@
                + decimal(d as nat) + ")"@;
        assert(a == c);
        assert(b == d);
    }
}

fn push_lines(lines: &mut Vec<u32>, loc: &SourceLocation)
    ensures
        final(lines)@ == old(lines)@ + loc_lines(*loc),
{
    if let SourceLocation::Source(range) = loc {
        lines.push(range.start.line);
        lines.push(range.end.line);
    }
    proof {
        assert(lines@ =~= old(lines)@ + loc_lines(*loc));
    }
}

/// Adds the lines of the instructions of a block.
pub fn collect_block_lines(block: &Vec<ReactiveStatement>, lines: &mut Vec<u32>)
    ensures
        final(lines)@ == old(lines)@ + block_lines(block@, block@.len() as int),
{
    let mut i: usize = 0;
    proof {
        assert(lines@ =~= old(lines)@ + block_lines(block@, 0));
    }
    while i < block.len()
        invariant
            i <= block@.len(),
            lines@ == old(lines)@ + block_lines(block@, i as int),
        decreases block@.len() - i,
    {
        if let ReactiveStatement::Instruction(instr) = &block[i] {
            push_lines(lines, &instr.loc);
        }
        proof {
            assert(lines@ =~= old(lines)@ + block_lines(block@, i as int + 1));
        }
        i = i + 1;
    }
}

/// The first and the last line of a scope: `(first:last)`.
pub fn format_change_detection_scope_loc(scope: &ReactiveScope, instructions: &Vec<ReactiveStatement>) -> (r:
    String)
    ensures
        r@ == scope_loc(*scope, instructions@),
        is_scope_loc(r@, scope_lines(*scope, instructions@)),
{
    let mut lines: Vec<u32> = Vec::new();
    let ghost entries = scope.declarations.entries@;
    let mut i: usize = 0;
    while i < scope.declarations.entries.len()
        invariant
            i <= entries.len(),
            entries == scope.declarations.entries@,
            lines@ == entry_lines(entries, i as int),
        decreases entries.len() - i,
    {
        push_lines(&mut lines, &scope.declarations.entries[i].1.identifier.loc);
        i = i + 1;
    }
    i = 0;
    proof {
        assert(lines@ =~= entry_lines(entries, entries.len() as int) + ident_lines(
            scope.reassignments@,
            0,
        ));
    }
    while i < scope.reassignments.len()
        invariant
            i <= scope.reassignments@.len(),
            lines@ == entry_lines(entries, entries.len() as int) + ident_lines(
                scope.reassignments@,
                i as int,
            ),
        decreases scope.reassignments@.len() - i,
    {
        push_lines(&mut lines, &scope.reassignments[i].loc);
        proof {
            assert(lines@ =~= entry_lines(entries, entries.len() as int) + ident_lines(
                scope.reassignments@,
                i as int + 1,
            ));
        }
        i = i + 1;
    }
    collect_block_lines(instructions, &mut lines);
    let ghost all = scope_lines(*scope, instructions@);
    assert(lines@ =~= all);
    let r = if lines.len() == 0 {
        owned("unknown location")
    } else {
        let mut low: u32 = lines[0];
        let mut high: u32 = lines[0];
        let mut k: usize = 1;
        while k < lines.len()
            invariant
                1 <= k <= lines@.len(),
                lines@.contains(low),
                lines@.contains(high),
                forall|j: int| 0 <= j < k ==> low <= #[trigger] lines@[j] <= high,
            decreases lines@.len() - k,
        {
            if lines[k] < low {
                low = lines[k];
            }
            if lines[k] > high {
                high = lines[k];
            }
            k = k + 1;
        }
        proof {
            assert(is_least(all, low) && is_greatest(all, high));
        }
        cat5(
            "(",
            decimal_text(low as u64).as_str(),
            ":",
            decimal_text(high as u64).as_str(),
            ")",
        )
    };
    proof {
        assert(is_scope_loc(r@, all));
        lemma_scope_loc(all, r@, scope_loc(*scope, instructions@));
    }
    r
}

} // verus!
