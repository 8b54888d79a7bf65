//! Functions with several scopes: each scope gets a memoized block of its own.

use vstd::prelude::*;

use crate::codegen::analyze::{Gen, Generator};
use crate::codegen::blocks::{
    full_depth, option_text, row_view, terminal_stmt, Rendering, Walk, Walker,
};
use crate::codegen::classify::hook_stmt;
use crate::codegen::context::{
    bump, name_text, next_number, place_text, temp_name_of, temp_text, Context, Ctx,
};
use crate::codegen::deps::{dotted, dotted_path};
use crate::codegen::inner::walk_of;
use crate::codegen::lines::{
    add_line, add_lines, add_slots, add_stmts, all_at, cache_stmt, cache_stmt_str, let_stmt,
    let_stmt_str, line_views, memo_head, memo_head_str, return_line, slot_load_strs, slot_loads,
    slot_store_strs, slot_stores, slot_sum, Line,
};
use crate::codegen::owned::{case_blocks_of, find_owned_blocks, owned_blocks};
use crate::collections::{IdSet, NameSet};
use crate::graph::{case_blocks, instructions, instructions_of, pointees};
use crate::hir::{
    BasicBlock, BlockId, HIRFunction, Identifier, IdentifierId, IdentifierName, Instruction,
    ReactiveScope, ReactiveScopeDependency, ReturnVariant, ScopeDeclaration, Terminal,
};
use crate::text::{cat3, clone_texts, owned, same, texts};

verus! {

broadcast use crate::text::group_texts;

// ---------------------------------------------------------------------------
// Scopes
// ---------------------------------------------------------------------------

/// A scope: where it starts, what it depends on and which variables it hands out.
#[verifier::ext_equal]
pub struct ScopeText {
    pub id: u32,
    pub start: u32,
    pub deps: Seq<Seq<char>>,
    pub names: Seq<Seq<char>>,
}

/// A scope: where it starts, what it depends on and which variables it hands out.
pub struct ScopeCodegenInfo {
    pub id: u32,
    pub start: u32,
    pub deps: Vec<String>,
    pub decl_names: Vec<String>,
}

impl View for ScopeCodegenInfo {
    type V = ScopeText;

    open spec fn view(&self) -> ScopeText {
        ScopeText {
            id: self.id,
            start: self.start,
            deps: texts(self.deps@),
            names: texts(self.decl_names@),
        }
    }
}

pub open spec fn scope_views(v: Seq<ScopeCodegenInfo>) -> Seq<ScopeText> {
    v.map_values(|s: ScopeCodegenInfo| s@)
}

/// The name of an identifier of a scope: its source name, else the one that it is written under.
pub open spec fn scope_name(c: Ctx, id: Identifier) -> Seq<char> {
    match id.name {
        Some(IdentifierName::Named(n)) => n@,
        _ => name_text(c, id),
    }
}

pub open spec fn dep_text(c: Ctx, d: ReactiveScopeDependency) -> Seq<char> {
    dotted(scope_name(c, d.identifier), d.path@, d.path@.len() as int)
}

pub open spec fn scope_text(c: Ctx, scope: ReactiveScope) -> ScopeText {
    ScopeText {
        id: scope.id.0,
        start: scope.range.start.0,
        deps: scope.dependencies@.map_values(|d: ReactiveScopeDependency| dep_text(c, d)),
        names: scope.declarations.entries@.map_values(
            |d: (IdentifierId, ScopeDeclaration)| scope_name(c, d.1.identifier),
        ),
    }
}

pub open spec fn has_scope_id(list: Seq<ScopeText>, id: u32) -> bool {
    exists|k: int| 0 <= k < list.len() && (#[trigger] list[k]).id == id
}

/// The scopes of the first `n` instructions, each one once.
pub open spec fn scopes_upto(c: Ctx, instrs: Seq<Instruction>, n: int) -> Seq<ScopeText>
    decreases n,
{
    if n <= 0 {
        Seq::empty()
    } else {
        let front = scopes_upto(c, instrs, n - 1);
        match instrs[n - 1].lvalue.identifier.scope {
            Some(scope) => if has_scope_id(front, scope.id.0) {
                front
            } else {
                front.push(scope_text(c, *scope))
            },
            None => front,
        }
    }
}

/// The sorted list `s` with `x` behind those that start no later.
pub open spec fn scope_inserted(s: Seq<ScopeText>, x: ScopeText) -> Seq<ScopeText>
    decreases s.len(),
{
    if s.len() > 0 && x.start < s.last().start {
        scope_inserted(s.drop_last(), x).push(s.last())
    } else {
        s.push(x)
    }
}

/// The first `n` scopes in the order in which they start.
pub open spec fn scopes_sorted(s: Seq<ScopeText>, n: int) -> Seq<ScopeText>
    decreases n,
{
    if n <= 0 {
        Seq::empty()
    } else {
        scope_inserted(scopes_sorted(s, n - 1), s[n - 1])
    }
}

/// The scopes of a function in the order in which they start.
pub open spec fn scopes_of(c: Ctx, func: HIRFunction) -> Seq<ScopeText> {
    let all = scopes_upto(c, instructions(func), instructions(func).len() as int);
    scopes_sorted(all, all.len() as int)
}

/// How many slots a scope takes: one for each dependency and output. Without outputs there is one.
pub open spec fn scope_slots(s: ScopeText) -> u64 {
    slot_sum(
        s.deps.len() as u64,
        if s.names.len() == 0 {
            1
        } else {
            s.names.len() as u64
        },
    )
}

/// How many slots the first `n` scopes take.
pub open spec fn slots_upto(scopes: Seq<ScopeText>, n: int) -> u64
    decreases n,
{
    if n <= 0 {
        0
    } else {
        slot_sum(slots_upto(scopes, n - 1), scope_slots(scopes[n - 1]))
    }
}

impl Context {
    fn scope_name_str(&self, id: &Identifier) -> (r: String)
        ensures
            r@ == scope_name(self@, *id),
    {
        match &id.name {
            Some(IdentifierName::Named(n)) => n.clone(),
            _ => self.identifier_name(id),
        }
    }

    fn scope_info(&self, scope: &ReactiveScope) -> (r: ScopeCodegenInfo)
        ensures
            r@ == scope_text(self@, *scope),
    {
        let mut deps: Vec<String> = Vec::new();
        let mut i: usize = 0;
        while i < scope.dependencies.len()
            invariant
                i <= scope.dependencies@.len(),
                deps@.len() == i,
                forall|k: int|
                    0 <= k < i ==> (#[trigger] deps@[k])@ == dep_text(
                        self@,
                        scope.dependencies@[k],
                    ),
            decreases scope.dependencies@.len() - i,
        {
            let name = self.scope_name_str(&scope.dependencies[i].identifier);
            deps.push(dotted_path(&name, &scope.dependencies[i].path));
            i = i + 1;
        }
        let entries = &scope.declarations.entries;
        let mut names: Vec<String> = Vec::new();
        let mut j: usize = 0;
        while j < entries.len()
            invariant
                j <= entries@.len(),
                names@.len() == j,
                forall|k: int|
                    0 <= k < j ==> (#[trigger] names@[k])@ == scope_name(
                        self@,
                        entries@[k].1.identifier,
                    ),
            decreases entries@.len() - j,
        {
            names.push(self.scope_name_str(&entries[j].1.identifier));
            j = j + 1;
        }
        let r = ScopeCodegenInfo {
            id: scope.id.0,
            start: scope.range.start.0,
            deps,
            decl_names: names,
        };
        proof {
            assert(r@ =~= scope_text(self@, *scope));
        }
        r
    }

    /// The scopes of a function in the order in which they start.
    pub fn collect_scope_codegen_info(&self, func: &HIRFunction) -> (r: Vec<ScopeCodegenInfo>)
        ensures
            scope_views(r@) == scopes_of(self@, *func),
    {
        let instrs = instructions_of(func);
        let ghost all = instructions(*func);
        let mut found: Vec<ScopeCodegenInfo> = Vec::new();
        let mut i: usize = 0;
        proof {
            assert(scope_views(found@) =~= scopes_upto(self@, all, 0));
        }
        while i < instrs.len()
            invariant
                all == pointees(instrs@),
                i <= instrs@.len(),
                scope_views(found@) == scopes_upto(self@, all, i as int),
            decreases instrs@.len() - i,
        {
            if let Some(scope) = &instrs[i].lvalue.identifier.scope {
                if !knows_scope(&found, scope.id.0) {
                    let ghost before = found@;
                    let info = self.scope_info(scope);
                    let ghost view = info@;
                    found.push(info);
                    proof {
                        assert(scope_views(found@) =~= scope_views(before).push(view));
                    }
                }
            }
            i = i + 1;
        }
        proof {
            assert(scope_views(found@).len() == found@.len());
        }
        sort_scopes(found)
    }
}

fn knows_scope(list: &Vec<ScopeCodegenInfo>, id: u32) -> (r: bool)
    ensures
        r == has_scope_id(scope_views(list@), id),
{
    let ghost all = scope_views(list@);
    let mut i: usize = 0;
    while i < list.len()
        invariant
            all == scope_views(list@),
            i <= list@.len(),
            forall|k: int| 0 <= k < i ==> (#[trigger] all[k]).id != id,
        decreases list@.len() - i,
    {
        if list[i].id == id {
            assert(all[i as int].id == id);
            return true;
        }
        i = i + 1;
    }
    false
}

proof fn lemma_scope_inserted_at(s: Seq<ScopeText>, x: ScopeText, p: int)
    requires
        0 <= p <= s.len(),
        forall|k: int| p <= k < s.len() ==> x.start < (#[trigger] s[k]).start,
        p > 0 ==> x.start >= s[p - 1].start,
    ensures
        scope_inserted(s, x) == s.insert(p, x),
    decreases s.len(),
{
    if p == s.len() {
        assert(s.insert(p, x) =~= s.push(x));
    } else {
        let front = s.drop_last();
        assert(x.start < s[s.len() - 1].start);
        assert forall|k: int| p <= k < front.len() implies x.start < (#[trigger] front[k]).start by {
            assert(front[k] == s[k]);
        }
        lemma_scope_inserted_at(front, x, p);
        assert(front.insert(p, x).push(s.last()) =~= s.insert(p, x));
    }
}

fn sort_scopes(list: Vec<ScopeCodegenInfo>) -> (r: Vec<ScopeCodegenInfo>)
    ensures
        scope_views(r@) == scopes_sorted(scope_views(list@), list@.len() as int),
{
    let ghost all = scope_views(list@);
    let n: usize = list.len();
    let mut rest = list;
    let mut out: Vec<ScopeCodegenInfo> = Vec::new();
    let mut i: usize = 0;
    proof {
        assert(scope_views(out@) =~= scopes_sorted(all, 0));
        assert(scope_views(rest@) =~= all.skip(0));
    }
    while rest.len() > 0
        invariant
            all.len() == n,
            i <= n,
            rest@.len() == n - i,
            scope_views(rest@) == all.skip(i as int),
            scope_views(out@) == scopes_sorted(all, i as int),
        decreases rest@.len(),
    {
        let ghost before_rest = rest@;
        let info = rest.remove(0);
        let ghost x = info@;
        let ghost before = out@;
        proof {
            assert(scope_views(before_rest)[0] == x);
            assert(all.skip(i as int)[0] == all[i as int]);
            assert forall|k: int| 0 <= k < rest@.len() implies scope_views(rest@)[k] == all.skip(
                i as int + 1,
            )[k] by {
                assert(scope_views(before_rest)[k + 1] == all.skip(i as int)[k + 1]);
            }
            assert(scope_views(rest@) =~= all.skip(i as int + 1));
        }
        let mut p: usize = out.len();
        while p > 0 && info.start < out[p - 1].start
            invariant
                out@ == before,
                x == info@,
                p <= out@.len(),
                forall|k: int|
                    p <= k < out@.len() ==> x.start < (#[trigger] scope_views(out@)[k]).start,
            decreases p,
        {
            p = p - 1;
        }
        proof {
            lemma_scope_inserted_at(scope_views(before), x, p as int);
        }
        out.insert(p, info);
        proof {
            assert(scope_views(out@) =~= scope_views(before).insert(p as int, x));
        }
        i = i + 1;
    }
    out
}

// ---------------------------------------------------------------------------
// Statements and their scopes
// ---------------------------------------------------------------------------

/// A statement, the scope that it belongs to, and whether it calls a hook.
#[verifier::ext_equal]
pub struct Tagged {
    pub scope: Option<u32>,
    pub stmt: Seq<char>,
    pub hook: bool,
}

/// A statement, the scope that it belongs to, and whether it calls a hook.
pub struct TaggedStmt {
    pub scope_id: Option<u32>,
    pub stmt: String,
    pub is_hook: bool,
}

impl View for TaggedStmt {
    type V = Tagged;

    open spec fn view(&self) -> Tagged {
        Tagged { scope: self.scope_id, stmt: self.stmt@, hook: self.is_hook }
    }
}

pub open spec fn tagged_views(v: Seq<TaggedStmt>) -> Seq<Tagged> {
    v.map_values(|t: TaggedStmt| t@)
}

pub open spec fn scope_of(instr: Instruction) -> Option<u32> {
    match instr.lvalue.identifier.scope {
        Some(scope) => Some(scope.id.0),
        None => None,
    }
}

/// The statements of the first `n` instructions of a block.
pub open spec fn tagged_row(c: Ctx, instrs: Seq<Instruction>, row: Seq<Rendering>, n: int) -> Seq<
    Tagged,
>
    decreases n,
{
    if n <= 0 {
        Seq::empty()
    } else {
        let front = tagged_row(c, instrs, row, n - 1);
        match row[n - 1].stmt {
            Some(s) => front.push(
                Tagged {
                    scope: scope_of(instrs[n - 1]),
                    stmt: s,
                    hook: hook_stmt(c, instrs[n - 1]),
                },
            ),
            None => front,
        }
    }
}

/// The blocks whose instructions tell the scope of a terminal.
pub open spec fn scope_blocks(terminal: Terminal) -> Seq<BlockId> {
    match terminal {
        Terminal::For { init, test, update, loop_block, .. } => match update {
            Some(u) => seq![init, test, loop_block, u],
            None => seq![init, test, loop_block],
        },
        Terminal::ForOf { init, test, loop_block, .. } => seq![init, test, loop_block],
        Terminal::ForIn { init, loop_block, .. } => seq![init, loop_block],
        Terminal::While { test, loop_block, .. } => seq![test, loop_block],
        Terminal::DoWhile { loop_block, test, .. } => seq![loop_block, test],
        Terminal::If { consequent, alternate, .. } => seq![consequent, alternate],
        Terminal::Branch { consequent, alternate, .. } => seq![consequent, alternate],
        Terminal::Switch { cases, .. } => case_blocks(cases@),
        Terminal::Try { block, handler, .. } => seq![block, handler],
        _ => Seq::empty(),
    }
}

/// The first scope of an instruction from `i` on.
pub open spec fn first_scope(instrs: Seq<Instruction>, i: int) -> Option<u32>
    decreases instrs.len() - i,
{
    if i < 0 || i >= instrs.len() {
        None
    } else if scope_of(instrs[i]) is Some {
        scope_of(instrs[i])
    } else {
        first_scope(instrs, i + 1)
    }
}

/// The first scope in one of the blocks `ids`, from block `b` on.
pub open spec fn scope_within(blocks: Seq<(BlockId, BasicBlock)>, ids: Seq<BlockId>, b: int) -> Option<
    u32,
>
    decreases blocks.len() - b,
{
    if b < 0 || b >= blocks.len() {
        None
    } else if ids.contains(blocks[b].1.id) && first_scope(
        blocks[b].1.instructions@,
        0,
    ) is Some {
        first_scope(blocks[b].1.instructions@, 0)
    } else {
        scope_within(blocks, ids, b + 1)
    }
}

/// The statement for a terminal of a function with several scopes; `try` is none.
pub open spec fn scoped_stmt(w: Walk, terminal: Terminal) -> Option<Seq<char>> {
    match terminal {
        Terminal::Try { .. } => None,
        _ => terminal_stmt(w, full_depth(w.blocks), terminal, false),
    }
}

/// The statements of the first `n` blocks that stand on their own, and the value that is returned.
pub open spec fn tagged_blocks(w: Walk, owned: Set<u32>, n: int) -> (Seq<Tagged>, Option<Seq<char>>)
    decreases n,
{
    if n <= 0 {
        (Seq::empty(), None)
    } else {
        let front = tagged_blocks(w, owned, n - 1);
        let block = w.blocks[n - 1].1;
        if owned.contains(block.id.0) {
            front
        } else {
            let stmts = front.0 + tagged_row(
                w.c,
                block.instructions@,
                w.rows[n - 1],
                block.instructions@.len() as int,
            );
            let all = match scoped_stmt(w, block.terminal) {
                Some(s) => stmts.push(
                    Tagged {
                        scope: scope_within(w.blocks, scope_blocks(block.terminal), 0),
                        stmt: s,
                        hook: false,
                    },
                ),
                None => stmts,
            };
            (
                all,
                match block.terminal {
                    Terminal::Return { value, return_variant } => if return_variant
                        == ReturnVariant::Void {
                        front.1
                    } else {
                        Some(place_text(w.c, value))
                    },
                    _ => front.1,
                },
            )
        }
    }
}

/// Statements that follow each other and belong to one scope, or to none.
#[verifier::ext_equal]
pub struct Group {
    pub scope: Option<u32>,
    pub stmts: Seq<Seq<char>>,
}

/// Statements that follow each other and belong to one scope, or to none.
pub struct Segment {
    pub scope_id: Option<u32>,
    pub stmts: Vec<String>,
}

impl View for Segment {
    type V = Group;

    open spec fn view(&self) -> Group {
        Group { scope: self.scope_id, stmts: texts(self.stmts@) }
    }
}

pub open spec fn segment_views(v: Seq<Segment>) -> Seq<Group> {
    v.map_values(|s: Segment| s@)
}

/// What the statements have been grouped into so far: groups that are complete, and the current one.
#[verifier::ext_equal]
pub struct Groups {
    pub done: Seq<Group>,
    pub current: Group,
}

pub open spec fn flushed(g: Groups) -> Seq<Group> {
    if g.current.stmts.len() > 0 {
        g.done.push(g.current)
    } else {
        g.done
    }
}

/// A statement goes to the current group where that has the same scope. A call of a hook stands on its
/// own, outside of all scopes.
pub open spec fn with_tagged(g: Groups, t: Tagged) -> Groups {
    if t.hook {
        Groups {
            done: flushed(g).push(Group { scope: None, stmts: seq![t.stmt] }),
            current: if g.current.stmts.len() > 0 {
                Group { scope: None, stmts: Seq::empty() }
            } else {
                g.current
            },
        }
    } else if t.scope == g.current.scope {
        Groups { current: Group { stmts: g.current.stmts.push(t.stmt), ..g.current }, ..g }
    } else {
        Groups { done: flushed(g), current: Group { scope: t.scope, stmts: seq![t.stmt] } }
    }
}

pub open spec fn grouped_upto(tagged: Seq<Tagged>, n: int) -> Groups
    decreases n,
{
    if n <= 0 {
        Groups { done: Seq::empty(), current: Group { scope: None, stmts: Seq::empty() } }
    } else {
        with_tagged(grouped_upto(tagged, n - 1), tagged[n - 1])
    }
}

/// The statements in groups that belong to one scope each.
pub open spec fn grouped(tagged: Seq<Tagged>) -> Seq<Group> {
    flushed(grouped_upto(tagged, tagged.len() as int))
}

// ---------------------------------------------------------------------------
// Lines
// ---------------------------------------------------------------------------

/// What has been written so far: the next temporary name, and the variables that are declared.
#[verifier::ext_equal]
pub struct Written {
    pub lines: Seq<Line>,
    pub counter: u64,
    pub declared: Set<Seq<char>>,
}

/// The declarations of the first `n` names that are not declared yet.
pub open spec fn with_lets(wr: Written, names: Seq<Seq<char>>, n: int) -> Written
    decreases n,
{
    if n <= 0 {
        wr
    } else {
        let front = with_lets(wr, names, n - 1);
        if front.declared.contains(names[n - 1]) {
            front
        } else {
            Written {
                lines: front.lines.push((1, let_stmt(names[n - 1]))),
                declared: front.declared.insert(names[n - 1]),
                ..front
            }
        }
    }
}

/// Whether a statement is the declaration of one of the names.
pub open spec fn declares_one(stmt: Seq<char>, names: Seq<Seq<char>>) -> bool {
    exists|k: int| 0 <= k < names.len() && stmt == let_stmt(#[trigger] names[k])
}

/// The first `n` statements without declarations of the names.
pub open spec fn without_lets(stmts: Seq<Seq<char>>, names: Seq<Seq<char>>, n: int) -> Seq<Seq<char>>
    decreases n,
{
    if n <= 0 {
        Seq::empty()
    } else {
        let front = without_lets(stmts, names, n - 1);
        if declares_one(stmts[n - 1], names) {
            front
        } else {
            front.push(stmts[n - 1])
        }
    }
}

/// The memoized block of a scope whose slots begin at `start`.
pub open spec fn scope_lines(
    cache: Seq<char>,
    start: u64,
    deps: Seq<Seq<char>>,
    names: Seq<Seq<char>>,
    stmts: Seq<Seq<char>>,
) -> Seq<Line> {
    let results = slot_sum(start, deps.len() as u64);
    seq![(1nat, memo_head(cache, start, deps))] + all_at(
        2,
        without_lets(stmts, names, stmts.len() as int),
    ) + all_at(2, slot_stores(cache, start, deps)) + all_at(2, slot_stores(cache, results, names))
        + seq![(1nat, "} else {"@)] + all_at(2, slot_loads(cache, results, names)) + seq![
        (1nat, "}"@),
    ]
}

/// The position of a scope from `i` on; 0 where it is unknown.
pub open spec fn scope_index(scopes: Seq<ScopeText>, id: u32, i: int) -> int
    decreases scopes.len() - i,
{
    if i < 0 || i >= scopes.len() {
        0
    } else if scopes[i].id == id {
        i
    } else {
        scope_index(scopes, id, i + 1)
    }
}

/// What is written after one group more.
pub open spec fn with_group(wr: Written, cache: Seq<char>, scopes: Seq<ScopeText>, g: Group) -> Written {
    match g.scope {
        None => Written { lines: wr.lines + all_at(1, g.stmts), ..wr },
        Some(id) => {
            let k = scope_index(scopes, id, 0);
            let unnamed = scopes[k].names.len() == 0;
            let names = if unnamed {
                seq![temp_text(wr.counter as nat)]
            } else {
                scopes[k].names
            };
            let lets = with_lets(
                Written {
                    counter: if unnamed {
                        next_number(wr.counter)
                    } else {
                        wr.counter
                    },
                    ..wr
                },
                names,
                names.len() as int,
            );
            Written {
                lines: lets.lines + scope_lines(
                    cache,
                    slots_upto(scopes, k),
                    scopes[k].deps,
                    names,
                    g.stmts,
                ),
                ..lets
            }
        },
    }
}

pub open spec fn with_groups(
    wr: Written,
    cache: Seq<char>,
    scopes: Seq<ScopeText>,
    groups: Seq<Group>,
    n: int,
) -> Written
    decreases n,
{
    if n <= 0 {
        wr
    } else {
        with_group(with_groups(wr, cache, scopes, groups, n - 1), cache, scopes, groups[n - 1])
    }
}

/// The line that returns a value, where there is one.
pub open spec fn return_lines(indent: nat, ret: Option<Seq<char>>) -> Seq<Line> {
    match ret {
        Some(r) => if r == "undefined"@ {
            Seq::empty()
        } else {
            seq![(indent, return_line(r))]
        },
        None => Seq::empty(),
    }
}

/// The lines of a function with several scopes, and the number of slots.
pub open spec fn multi_scope_lines(g: Gen, func: HIRFunction) -> (Seq<Line>, u64) {
    let scopes = scopes_of(g.c, func);
    let w = walk_of(g.c, func);
    let tagged = tagged_blocks(w, owned_blocks(w.blocks, None), w.blocks.len() as int);
    let total = slots_upto(scopes, scopes.len() as int);
    let groups = grouped(tagged.0);
    let written = with_groups(
        Written {
            lines: seq![(1nat, cache_stmt(g.cache_var, total))],
            counter: g.c.counter,
            declared: g.c.declared,
        },
        g.cache_var,
        scopes,
        groups,
        groups.len() as int,
    );
    (written.lines + return_lines(1, tagged.1), total)
}

// ---------------------------------------------------------------------------
// Execution
// ---------------------------------------------------------------------------

fn scope_id_of(instr: &Instruction) -> (r: Option<u32>)
    ensures
        r == scope_of(*instr),
{
    match &instr.lvalue.identifier.scope {
        Some(scope) => Some(scope.id.0),
        None => None,
    }
}

fn scope_blocks_of(terminal: &Terminal) -> (r: Vec<BlockId>)
    ensures
        r@ == scope_blocks(*terminal),
{
    match terminal {
        Terminal::For { init, test, update, loop_block, .. } => match update {
            Some(u) => vec![*init, *test, *loop_block, *u],
            None => vec![*init, *test, *loop_block],
        },
        Terminal::ForOf { init, test, loop_block, .. } => vec![*init, *test, *loop_block],
        Terminal::ForIn { init, loop_block, .. } => vec![*init, *loop_block],
        Terminal::While { test, loop_block, .. } => vec![*test, *loop_block],
        Terminal::DoWhile { loop_block, test, .. } => vec![*loop_block, *test],
        Terminal::If { consequent, alternate, .. } => vec![*consequent, *alternate],
        Terminal::Branch { consequent, alternate, .. } => vec![*consequent, *alternate],
        Terminal::Switch { cases, .. } => case_blocks_of(cases),
        Terminal::Try { block, handler, .. } => vec![*block, *handler],
        _ => Vec::new(),
    }
}

fn holds_block(ids: &Vec<BlockId>, id: BlockId) -> (r: bool)
    ensures
        r == ids@.contains(id),
{
    let mut i: usize = 0;
    while i < ids.len()
        invariant
            i <= ids@.len(),
            forall|k: int| 0 <= k < i ==> #[trigger] ids@[k] != id,
        decreases ids@.len() - i,
    {
        if ids[i] == id {
            return true;
        }
        i = i + 1;
    }
    false
}

fn find_first_scope(instrs: &Vec<Instruction>) -> (r: Option<u32>)
    ensures
        r == first_scope(instrs@, 0),
{
    let mut i: usize = 0;
    while i < instrs.len()
        invariant
            i <= instrs@.len(),
            first_scope(instrs@, i as int) == first_scope(instrs@, 0),
        decreases instrs@.len() - i,
    {
        if let Some(id) = scope_id_of(&instrs[i]) {
            return Some(id);
        }
        i = i + 1;
    }
    None
}

/// The scope of the statement that a terminal makes: that of the first instruction in its blocks that
/// has one.
pub fn find_scope_in_block_instructions(
    blocks: &Vec<(BlockId, BasicBlock)>,
    terminal: &Terminal,
) -> (r: Option<u32>)
    ensures
        r == scope_within(blocks@, scope_blocks(*terminal), 0),
{
    let ids = scope_blocks_of(terminal);
    let mut b: usize = 0;
    while b < blocks.len()
        invariant
            ids@ == scope_blocks(*terminal),
            b <= blocks@.len(),
            scope_within(blocks@, ids@, b as int) == scope_within(blocks@, ids@, 0),
        decreases blocks@.len() - b,
    {
        if holds_block(&ids, blocks[b].1.id) {
            if let Some(id) = find_first_scope(&blocks[b].1.instructions) {
                return Some(id);
            }
        }
        b = b + 1;
    }
    None
}

impl<'a> Walker<'a> {
    fn tag_row(&self, b: usize) -> (r: Vec<TaggedStmt>)
        requires
            self.wf(),
            b < self.blocks@.len(),
        ensures
            tagged_views(r@) == tagged_row(
                self@.c,
                self.blocks@[b as int].1.instructions@,
                self@.rows[b as int],
                self.blocks@[b as int].1.instructions@.len() as int,
            ),
    {
        let instrs = &self.blocks[b].1.instructions;
        let row = self.row(b);
        let ghost view = row_view(row@);
        let mut out: Vec<TaggedStmt> = Vec::new();
        let mut i: usize = 0;
        proof {
            assert(tagged_views(out@) =~= tagged_row(self@.c, instrs@, view, 0));
        }
        while i < instrs.len()
            invariant
                i <= instrs@.len(),
                row@.len() == instrs@.len(),
                view == row_view(row@),
                tagged_views(out@) == tagged_row(self@.c, instrs@, view, i as int),
            decreases instrs@.len() - i,
        {
            assert(view[i as int] == row@[i as int]@);
            if let Some(s) = &row[i].stmt {
                let ghost before = out@;
                let tagged = TaggedStmt {
                    scope_id: scope_id_of(&instrs[i]),
                    stmt: s.clone(),
                    is_hook: self.cg.is_hook_call_stmt(&instrs[i]),
                };
                let ghost t = tagged@;
                out.push(tagged);
                proof {
                    assert(tagged_views(out@) =~= tagged_views(before).push(t));
                }
            }
            i = i + 1;
        }
        out
    }

    fn scoped_stmt_str(&self, terminal: &Terminal) -> (r: Option<String>)
        requires
            self.wf(),
        ensures
            option_text(r) == scoped_stmt(self@, *terminal),
    {
        match terminal {
            Terminal::Try { .. } => None,
            _ => self.terminal_stmt_str(self.blocks.len(), terminal, false),
        }
    }

    fn tag_blocks(&self, owned: &IdSet) -> (r: (Vec<TaggedStmt>, Option<String>))
        requires
            self.wf(),
        ensures
            (tagged_views(r.0@), option_text(r.1)) == tagged_blocks(
                self@,
                owned@,
                self.blocks@.len() as int,
            ),
    {
        let mut all: Vec<TaggedStmt> = Vec::new();
        let mut ret: Option<String> = None;
        let mut b: usize = 0;
        proof {
            assert(tagged_views(all@) =~= Seq::empty());
        }
        while b < self.blocks.len()
            invariant
                self.wf(),
                b <= self.blocks@.len(),
                (tagged_views(all@), option_text(ret)) == tagged_blocks(self@, owned@, b as int),
            decreases self.blocks@.len() - b,
        {
            let block = &self.blocks[b].1;
            if !owned.contains(block.id.0) {
                let mut own = self.tag_row(b);
                let ghost x = all@;
                let ghost y = own@;
                all.append(&mut own);
                proof {
                    assert(tagged_views(all@) =~= tagged_views(x) + tagged_views(y));
                }
                if let Some(s) = self.scoped_stmt_str(&block.terminal) {
                    let ghost before = all@;
                    let tagged = TaggedStmt {
                        scope_id: find_scope_in_block_instructions(self.blocks, &block.terminal),
                        stmt: s,
                        is_hook: false,
                    };
                    let ghost t = tagged@;
                    all.push(tagged);
                    proof {
                        assert(tagged_views(all@) =~= tagged_views(before).push(t));
                    }
                }
                if let Terminal::Return { value, return_variant } = &block.terminal {
                    if *return_variant != ReturnVariant::Void {
                        ret = Some(self.cg.resolve_place(value));
                    }
                }
            }
            b = b + 1;
        }
        (all, ret)
    }
}

fn push_segment(segments: &mut Vec<Segment>, scope_id: Option<u32>, stmts: Vec<String>)
    ensures
        segment_views(final(segments)@) == segment_views(old(segments)@).push(
            Group { scope: scope_id, stmts: texts(stmts@) },
        ),
{
    let ghost before = segments@;
    let ghost g = Group { scope: scope_id, stmts: texts(stmts@) };
    segments.push(Segment { scope_id, stmts });
    proof {
        assert(segment_views(segments@) =~= segment_views(before).push(g));
    }
}

fn group_stmts(tagged: &Vec<TaggedStmt>) -> (segments: Vec<Segment>)
    ensures
        segment_views(segments@) == grouped(tagged_views(tagged@)),
{
    let ghost all = tagged_views(tagged@);
    let mut segments: Vec<Segment> = Vec::new();
    let mut scope: Option<u32> = None;
    let mut stmts: Vec<String> = Vec::new();
    let mut i: usize = 0;
    proof {
        assert((Groups {
            done: segment_views(segments@),
            current: Group { scope, stmts: texts(stmts@) },
        }) =~= grouped_upto(all, 0));
    }
    while i < tagged.len()
        invariant
            all == tagged_views(tagged@),
            i <= tagged@.len(),
            (Groups {
                done: segment_views(segments@),
                current: Group { scope, stmts: texts(stmts@) },
            }) == grouped_upto(all, i as int),
        decreases tagged@.len() - i,
    {
        let t = &tagged[i];
        let ghost g = grouped_upto(all, i as int);
        assert(all[i as int] == t@);
        if t.is_hook {
            if stmts.len() > 0 {
                push_segment(&mut segments, scope, stmts);
                scope = None;
                stmts = Vec::new();
            }
            let mut one: Vec<String> = Vec::new();
            one.push(t.stmt.clone());
            assert(texts(one@) =~= seq![t.stmt@]);
            push_segment(&mut segments, None, one);
        } else {
            let stays = match (t.scope_id, scope) {
                (Some(a), Some(b)) => a == b,
                (None, None) => true,
                _ => false,
            };
            if !stays {
                if stmts.len() > 0 {
                    push_segment(&mut segments, scope, stmts);
                }
                stmts = Vec::new();
                scope = t.scope_id;
            }
            stmts.push(t.stmt.clone());
        }
        proof {
            assert((Groups {
                done: segment_views(segments@),
                current: Group { scope, stmts: texts(stmts@) },
            }) =~= with_tagged(g, all[i as int]));
        }
        i = i + 1;
    }
    if stmts.len() > 0 {
        push_segment(&mut segments, scope, stmts);
    }
    segments
}

fn does_declare_one(stmt: &str, names: &Vec<String>) -> (r: bool)
    ensures
        r == declares_one(stmt@, texts(names@)),
{
    let ghost all = texts(names@);
    let mut i: usize = 0;
    while i < names.len()
        invariant
            all == texts(names@),
            i <= names@.len(),
            forall|k: int| 0 <= k < i ==> stmt@ != let_stmt(#[trigger] all[k]),
        decreases names@.len() - i,
    {
        let decl = let_stmt_str(&names[i]);
        assert(all[i as int] == names@[i as int]@);
        if same(stmt, &decl) {
            return true;
        }
        i = i + 1;
    }
    false
}

/// The statements without declarations of the names.
pub fn drop_lets(stmts: &Vec<String>, names: &Vec<String>) -> (r: Vec<String>)
    ensures
        texts(r@) == without_lets(texts(stmts@), texts(names@), stmts@.len() as int),
{
    let mut out: Vec<String> = Vec::new();
    let mut i: usize = 0;
    while i < stmts.len()
        invariant
            i <= stmts@.len(),
            texts(out@) == without_lets(texts(stmts@), texts(names@), i as int),
        decreases stmts@.len() - i,
    {
        assert(texts(stmts@)[i as int] == stmts@[i as int]@);
        if !does_declare_one(&stmts[i], names) {
            out.push(stmts[i].clone());
        }
        i = i + 1;
    }
    out
}

fn write_scope(
    cache: &str,
    start: u64,
    deps: &Vec<String>,
    names: &Vec<String>,
    stmts: &Vec<String>,
) -> (lines: Vec<(usize, String)>)
    ensures
        line_views(lines@) == scope_lines(
            cache@,
            start,
            texts(deps@),
            texts(names@),
            texts(stmts@),
        ),
{
    let mut lines: Vec<(usize, String)> = Vec::new();
    let results: u64 = add_slots(start, deps.len() as u64);
    let head = memo_head_str(cache, start, deps);
    let ghost h = head@;
    add_line(&mut lines, 1, head);
    proof {
        assert(line_views(lines@) =~= seq![(1nat, h)]);
    }
    let body = drop_lets(stmts, names);
    add_stmts(&mut lines, 2, &body);
    let dep_stores = slot_store_strs(cache, start, deps);
    add_stmts(&mut lines, 2, &dep_stores);
    let name_stores = slot_store_strs(cache, results, names);
    add_stmts(&mut lines, 2, &name_stores);
    let ghost before = line_views(lines@);
    add_line(&mut lines, 1, owned("} else {"));
    proof {
        assert(line_views(lines@) =~= before + seq![(1nat, "} else {"@)]);
    }
    let loads = slot_load_strs(cache, results, names);
    add_stmts(&mut lines, 2, &loads);
    let ghost before_end = line_views(lines@);
    add_line(&mut lines, 1, owned("}"));
    proof {
        assert(line_views(lines@) =~= before_end + seq![(1nat, "}"@)]);
    }
    lines
}

fn find_scope_index(scopes: &Vec<ScopeCodegenInfo>, id: u32) -> (r: usize)
    ensures
        r == scope_index(scope_views(scopes@), id, 0),
        scopes@.len() > 0 ==> r < scopes@.len(),
{
    let ghost all = scope_views(scopes@);
    let mut i: usize = 0;
    while i < scopes.len()
        invariant
            all == scope_views(scopes@),
            i <= scopes@.len(),
            scope_index(all, id, i as int) == scope_index(all, id, 0),
        decreases scopes@.len() - i,
    {
        if scopes[i].id == id {
            return i;
        }
        i = i + 1;
    }
    0
}

fn count_slots(scopes: &Vec<ScopeCodegenInfo>, n: usize) -> (r: u64)
    requires
        n <= scopes@.len(),
    ensures
        r == slots_upto(scope_views(scopes@), n as int),
{
    let ghost all = scope_views(scopes@);
    let mut total: u64 = 0;
    let mut i: usize = 0;
    while i < n
        invariant
            all == scope_views(scopes@),
            i <= n <= scopes@.len(),
            total == slots_upto(all, i as int),
        decreases n - i,
    {
        assert(all[i as int] == scopes@[i as int]@);
        let outputs: u64 = if scopes[i].decl_names.len() == 0 {
            1
        } else {
            scopes[i].decl_names.len() as u64
        };
        total = add_slots(total, add_slots(scopes[i].deps.len() as u64, outputs));
        i = i + 1;
    }
    total
}

fn write_lets(lines: &mut Vec<(usize, String)>, declared: &mut NameSet, names: &Vec<String>)
    ensures
        forall|counter: u64|
            #![trigger with_lets(
                Written { lines: line_views(old(lines)@), counter, declared: old(declared)@ },
                texts(names@),
                names@.len() as int,
            )]
            (Written { lines: line_views(final(lines)@), counter, declared: final(declared)@ })
                == with_lets(
                Written { lines: line_views(old(lines)@), counter, declared: old(declared)@ },
                texts(names@),
                names@.len() as int,
            ),
{
    let ghost start_lines = line_views(lines@);
    let ghost start_declared = declared@;
    let mut i: usize = 0;
    while i < names.len()
        invariant
            i <= names@.len(),
            forall|counter: u64|
                #![trigger with_lets(
                    Written { lines: start_lines, counter, declared: start_declared },
                    texts(names@),
                    i as int,
                )]
                (Written { lines: line_views(lines@), counter, declared: declared@ }) == with_lets(
                    Written { lines: start_lines, counter, declared: start_declared },
                    texts(names@),
                    i as int,
                ),
        decreases names@.len() - i,
    {
        assert(texts(names@)[i as int] == names@[i as int]@);
        let ghost before_lines = line_views(lines@);
        let ghost before_declared = declared@;
        if !declared.contains(&names[i]) {
            add_line(lines, 1, let_stmt_str(&names[i]));
            declared.insert(&names[i]);
        }
        proof {
            assert forall|counter: u64|
                #![trigger with_lets(
                    Written { lines: start_lines, counter, declared: start_declared },
                    texts(names@),
                    i as int + 1,
                )]
                (Written { lines: line_views(lines@), counter, declared: declared@ }) == with_lets(
                    Written { lines: start_lines, counter, declared: start_declared },
                    texts(names@),
                    i as int + 1,
                ) by {
                let front = with_lets(
                    Written { lines: start_lines, counter, declared: start_declared },
                    texts(names@),
                    i as int,
                );
                assert(front == (Written {
                    lines: before_lines,
                    counter,
                    declared: before_declared,
                }));
            }
        }
        i = i + 1;
    }
}

pub fn write_return(lines: &mut Vec<(usize, String)>, indent: usize, ret: &Option<String>)
    ensures
        line_views(final(lines)@) == line_views(old(lines)@) + return_lines(
            indent as nat,
            option_text(*ret),
        ),
{
    let ghost before = line_views(lines@);
    if let Some(value) = ret {
        if !same(value, "undefined") {
            add_line(lines, indent, cat3("return ", value, ";"));
            proof {
                assert(before.push((indent as nat, return_line(value@))) =~= before + seq![
                    (indent as nat, return_line(value@)),
                ]);
            }
            return;
        }
    }
    proof {
        assert(before + Seq::empty() =~= before);
    }
}

impl Generator {
    /// The lines of a function with several scopes, and the number of slots.
    pub fn emit_function_multi_scope(&self, func: &HIRFunction, scopes: &Vec<ScopeCodegenInfo>) -> (r:
        (Vec<(usize, String)>, u64))
        requires
            scope_views(scopes@) == scopes_of(self@.c, *func),
            scopes@.len() > 0,
        ensures
            (line_views(r.0@), r.1) == multi_scope_lines(self@, *func),
    {
        let ghost views = scope_views(scopes@);
        let rows = self.cx.render_rows(func);
        let owned = find_owned_blocks(&func.body.blocks, None);
        let walker = Walker { cg: &self.cx, blocks: &func.body.blocks, rows: &rows };
        let (tagged, ret) = walker.tag_blocks(&owned);
        let segments = group_stmts(&tagged);
        let ghost groups = segment_views(segments@);
        let total: u64 = count_slots(scopes, scopes.len());
        let mut lines: Vec<(usize, String)> = Vec::new();
        add_line(&mut lines, 1, cache_stmt_str(&self.cache_var, total));
        let mut declared = self.cx.emitted_let_decls.copy();
        let mut counter: u64 = self.cx.temp_name_counter;
        let ghost start = Written {
            lines: seq![(1nat, cache_stmt(self@.cache_var, total))],
            counter: self@.c.counter,
            declared: self@.c.declared,
        };
        let mut i: usize = 0;
        proof {
            assert(views.len() == scopes@.len());
            assert(line_views(lines@) =~= start.lines);
            assert(groups.len() == segments@.len());
        }
        while i < segments.len()
            invariant
                views == scope_views(scopes@),
                scopes@.len() > 0,
                groups == segment_views(segments@),
                i <= segments@.len(),
                (Written { lines: line_views(lines@), counter, declared: declared@ })
                    == with_groups(start, self.cache_var@, views, groups, i as int),
            decreases segments@.len() - i,
        {
            let ghost before = Written { lines: line_views(lines@), counter, declared: declared@ };
            let segment = &segments[i];
            assert(groups[i as int] == segment@);
            match segment.scope_id {
                None => {
                    add_stmts(&mut lines, 1, &segment.stmts);
                },
                Some(id) => {
                    let k: usize = find_scope_index(scopes, id);
                    assert(views[k as int] == scopes@[k as int]@);
                    let mut names: Vec<String> = Vec::new();
                    if scopes[k].decl_names.len() == 0 {
                        names.push(temp_name_of(counter));
                        assert(texts(names@) =~= seq![temp_text(counter as nat)]);
                        counter = bump(counter);
                    } else {
                        names = clone_texts(&scopes[k].decl_names);
                    }
                    assert(texts(names@).len() == names@.len());
                    write_lets(&mut lines, &mut declared, &names);
                    let slot: u64 = count_slots(scopes, k);
                    let more = write_scope(
                        &self.cache_var,
                        slot,
                        &scopes[k].deps,
                        &names,
                        &segment.stmts,
                    );
                    add_lines(&mut lines, more);
                },
            }
            proof {
                assert((Written { lines: line_views(lines@), counter, declared: declared@ })
                    =~= with_group(before, self.cache_var@, views, groups[i as int]));
            }
            i = i + 1;
        }
        write_return(&mut lines, 1, &ret);
        (lines, total)
    }
}

} // verus!
