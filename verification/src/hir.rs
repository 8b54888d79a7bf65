//! The intermediate representation that code generation reads: the control flow graph of a function
//! and the tree of its reactive scopes.

use vstd::prelude::*;

verus! {

// ---------------------------------------------------------------------------
// Numbers that name things
// ---------------------------------------------------------------------------

#[derive(Debug, Clone, Copy, PartialEq, Eq, PartialOrd, Ord, Hash, Structural)]
pub struct IdentifierId(pub u32);

#[derive(Debug, Clone, Copy, PartialEq, Eq, PartialOrd, Ord, Hash, Structural)]
pub struct DeclarationId(pub u32);

#[derive(Debug, Clone, Copy, PartialEq, Eq, PartialOrd, Ord, Hash, Structural)]
pub struct ScopeId(pub u32);

#[derive(Debug, Clone, Copy, PartialEq, Eq, PartialOrd, Ord, Hash, Structural)]
pub struct InstructionId(pub u32);

#[derive(Debug, Clone, Copy, PartialEq, Eq, PartialOrd, Ord, Hash, Structural)]
pub struct BlockId(pub u32);

// ---------------------------------------------------------------------------
// Source locations and types
// ---------------------------------------------------------------------------

#[derive(Debug, Clone, Copy, PartialEq, Eq, Structural)]
pub struct Position {
    pub line: u32,
    pub column: u32,
}

#[derive(Debug, Clone, Copy, PartialEq, Eq, Structural)]
pub struct SourceRange {
    pub start: Position,
    pub end: Position,
}

#[derive(Debug, Clone, Copy, PartialEq, Eq, Structural)]
pub enum SourceLocation {
    Generated,
    Source(SourceRange),
}

/// The instructions from `start` up to, and without, `end`.
#[derive(Debug, Clone, Copy, PartialEq, Eq, Structural)]
pub struct MutableRange {
    pub start: InstructionId,
    pub end: InstructionId,
}

impl Default for MutableRange {
    fn default() -> (r: Self)
        ensures
            r == (MutableRange { start: InstructionId(0), end: InstructionId(0) }),
    {
        MutableRange { start: InstructionId(0), end: InstructionId(0) }
    }
}

#[derive(Debug, Clone, Copy, PartialEq, Eq, Structural)]
pub enum Type {
    Primitive,
    Poly,
    Object,
    Function,
    TypeVar { id: u32 },
}

#[derive(Debug, Clone, Copy, PartialEq, Eq, Structural)]
pub enum Effect {
    Unknown,
    Freeze,
    Read,
    Capture,
    ConditionallyMutate,
    Mutate,
    Store,
}

// ---------------------------------------------------------------------------
// Identifiers and places
// ---------------------------------------------------------------------------

#[derive(Debug)]
pub enum IdentifierName {
    /// A name that stands in the source.
    Named(String),
    /// A name that was given to a temporary.
    Promoted(String),
}

impl IdentifierName {
    pub open spec fn text(self) -> Seq<char> {
        match self {
            IdentifierName::Named(s) => s@,
            IdentifierName::Promoted(s) => s@,
        }
    }

    pub fn value(&self) -> (r: &str)
        ensures
            r@ == self.text(),
    {
        match self {
            IdentifierName::Named(s) => s.as_str(),
            IdentifierName::Promoted(s) => s.as_str(),
        }
    }
}

#[derive(Debug)]
pub struct Identifier {
    pub id: IdentifierId,
    pub declaration_id: DeclarationId,
    pub name: Option<IdentifierName>,
    pub mutable_range: MutableRange,
    pub scope: Option<Box<ReactiveScope>>,
    pub type_: Type,
    pub loc: SourceLocation,
}

#[derive(Debug)]
pub struct Place {
    pub identifier: Identifier,
    pub effect: Effect,
    pub reactive: bool,
    pub loc: SourceLocation,
}

#[derive(Debug)]
pub enum Argument {
    Place(Place),
    Spread(Place),
}

impl Argument {
    pub open spec fn place_of(self) -> Place {
        match self {
            Argument::Place(p) => p,
            Argument::Spread(p) => p,
        }
    }

    pub fn place(&self) -> (r: &Place)
        ensures
            *r == self.place_of(),
    {
        match self {
            Argument::Place(p) => p,
            Argument::Spread(p) => p,
        }
    }
}

// ---------------------------------------------------------------------------
// Reactive scopes
// ---------------------------------------------------------------------------

/// One step of a property path.
#[derive(Debug)]
pub struct DependencyPathEntry {
    pub property: String,
    pub optional: bool,
}

#[derive(Debug)]
pub struct ReactiveScopeDependency {
    pub identifier: Identifier,
    pub path: Vec<DependencyPathEntry>,
}

/// The scope that a declaration belongs to.
#[derive(Debug, Clone, Copy, PartialEq, Eq, Structural)]
pub struct DeclarationScope {
    pub id: ScopeId,
}

pub fn make_declaration_scope(id: ScopeId) -> (r: DeclarationScope)
    ensures
        r.id == id,
{
    DeclarationScope { id }
}

#[derive(Debug)]
pub struct ScopeDeclaration {
    pub identifier: Identifier,
    pub scope: DeclarationScope,
}

/// The declarations of a scope, each under its identifier, in the order in which they were made.
#[derive(Debug)]
pub struct ScopeDeclarations {
    pub entries: Vec<(IdentifierId, ScopeDeclaration)>,
}

#[derive(Debug)]
pub struct EarlyReturnValue {
    pub value: Identifier,
}

#[derive(Debug)]
pub struct ReactiveScope {
    pub id: ScopeId,
    pub range: MutableRange,
    pub dependencies: Vec<ReactiveScopeDependency>,
    pub declarations: ScopeDeclarations,
    pub reassignments: Vec<Identifier>,
    pub merged_id: Option<ScopeId>,
    pub early_return_value: Option<EarlyReturnValue>,
}

impl ScopeDeclarations {
    /// No identifier stands there twice.
    pub open spec fn wf(self) -> bool {
        forall|i: int, j: int|
            0 <= i < j < self.entries@.len() ==> (#[trigger] self.entries@[i]).0 != (
            #[trigger] self.entries@[j]).0
    }

    pub fn new() -> (r: Self)
        ensures
            r.wf(),
            r.entries@ == Seq::<(IdentifierId, ScopeDeclaration)>::empty(),
    {
        ScopeDeclarations { entries: Vec::new() }
    }

    pub open spec fn holds_at(self, i: int, id: IdentifierId) -> bool {
        0 <= i < self.entries@.len() && self.entries@[i].0 == id
    }

    /// Puts `declaration` under `id`: in the place of the one that stands there, else at the end.
    pub fn insert(&mut self, id: IdentifierId, declaration: ScopeDeclaration)
        requires
            old(self).wf(),
        ensures
            final(self).wf(),
            forall|i: int| #[trigger]
                old(self).holds_at(i, id) ==> final(self).entries@ == old(self).entries@.update(
                    i,
                    (id, declaration),
                ),
            !(exists|i: int| #[trigger] old(self).holds_at(i, id)) ==> final(self).entries@
                == old(self).entries@.push((id, declaration)),
    {
        let mut i: usize = 0;
        while i < self.entries.len()
            invariant
                i <= self.entries@.len(),
                self.entries@ == old(self).entries@,
                old(self).wf(),
                forall|k: int| 0 <= k < i ==> !#[trigger] old(self).holds_at(k, id),
            decreases self.entries@.len() - i,
        {
            if self.entries[i].0 == id {
                assert(old(self).holds_at(i as int, id));
                self.entries.set(i, (id, declaration));
                proof {
                    assert forall|k: int| #[trigger] old(self).holds_at(k, id) implies k == i by {
                        assert(old(self).entries@[k].0 == old(self).entries@[i as int].0);
                    }
                    assert forall|a: int, b: int| 0 <= a < b < self.entries@.len() implies (
                    #[trigger] self.entries@[a]).0 != (#[trigger] self.entries@[b]).0 by {
                        assert(old(self).entries@[a].0 != old(self).entries@[b].0);
                    }
                }
                return;
            }
            i = i + 1;
        }
        self.entries.push((id, declaration));
        proof {
            assert forall|a: int, b: int| 0 <= a < b < self.entries@.len() implies (
            #[trigger] self.entries@[a]).0 != (#[trigger] self.entries@[b]).0 by {
                assert(!old(self).holds_at(a, id));
                if b < i {
                    assert(old(self).entries@[a].0 != old(self).entries@[b].0);
                }
            }
        }
    }
}

// ---------------------------------------------------------------------------
// Instruction values
// ---------------------------------------------------------------------------

/// A number, by what can be written of it.
#[derive(Debug)]
pub struct NumberLiteral {
    /// The shortest decimal text that denotes the number.
    pub display: String,
    /// The number itself, where it is a whole number from 0 up to, and without, 10 to the 15th power.
    pub integer: Option<u64>,
}

#[derive(Debug)]
pub enum PrimitiveValue {
    Null,
    Undefined,
    Boolean(bool),
    Number(NumberLiteral),
    String(String),
}

#[derive(Debug)]
pub enum PropertyLiteral {
    String(String),
    Number(NumberLiteral),
}

#[derive(Debug, Clone, Copy, PartialEq, Eq, Structural)]
pub enum InstructionKind {
    Const,
    Let,
    Reassign,
    Catch,
    HoistedConst,
    HoistedLet,
    HoistedFunction,
    Function,
}

#[derive(Debug)]
pub struct LValue {
    pub kind: InstructionKind,
    pub place: Place,
}

#[derive(Debug)]
pub enum ArrayElement {
    Place(Place),
    Spread(Place),
    Hole,
}

#[derive(Debug)]
pub enum ObjectPropertyKey {
    String(String),
    Identifier(String),
    Number(NumberLiteral),
    Computed(Place),
}

#[derive(Debug, Clone, Copy, PartialEq, Eq, Structural)]
pub enum ObjectPropertyType {
    Property,
    Method,
}

#[derive(Debug)]
pub struct ObjectProperty {
    pub key: ObjectPropertyKey,
    pub type_: ObjectPropertyType,
    pub place: Place,
}

#[derive(Debug)]
pub enum ObjectPropertyOrSpread {
    Property(ObjectProperty),
    Spread(Place),
}

#[derive(Debug)]
pub struct ArrayPattern {
    pub items: Vec<ArrayElement>,
}

#[derive(Debug)]
pub struct ObjectPattern {
    pub properties: Vec<ObjectPropertyOrSpread>,
}

#[derive(Debug)]
pub enum Pattern {
    Array(ArrayPattern),
    Object(ObjectPattern),
}

#[derive(Debug)]
pub struct LValuePattern {
    pub pattern: Pattern,
    pub kind: InstructionKind,
}

#[derive(Debug, Clone, Copy, PartialEq, Eq, Structural)]
pub enum BinaryOperator {
    Eq,
    NotEq,
    StrictEq,
    StrictNotEq,
    Lt,
    LtEq,
    Gt,
    GtEq,
    LShift,
    RShift,
    URShift,
    Add,
    Sub,
    Mul,
    Div,
    Mod,
    Exp,
    BitOr,
    BitXor,
    BitAnd,
    In,
    InstanceOf,
}

#[derive(Debug, Clone, Copy, PartialEq, Eq, Structural)]
pub enum UnaryOperator {
    Minus,
    Plus,
    Not,
    BitNot,
    TypeOf,
    Void,
}

#[derive(Debug, Clone, Copy, PartialEq, Eq, Structural)]
pub enum LogicalOperator {
    And,
    Or,
    NullishCoalescing,
}

#[derive(Debug, Clone, Copy, PartialEq, Eq, Structural)]
pub enum UpdateOperator {
    Increment,
    Decrement,
}

#[derive(Debug, Clone, Copy, PartialEq, Eq, Structural)]
pub enum FunctionExpressionType {
    ArrowFunctionExpression,
    FunctionExpression,
    FunctionDeclaration,
}

#[derive(Debug, Clone, Copy, PartialEq, Eq, Structural)]
pub enum TypeAnnotationKind {
    /// A Flow cast, `(value: Type)`.
    Cast,
    As,
    Satisfies,
}

#[derive(Debug)]
pub struct TemplateQuasi {
    pub raw: String,
    pub cooked: Option<String>,
}

#[derive(Debug)]
pub enum JsxTag {
    BuiltinTag(String),
    Component(Place),
    Fragment,
}

#[derive(Debug)]
pub enum JsxAttribute {
    Attribute { name: String, place: Place },
    SpreadAttribute { argument: Place },
}

/// What a global name is bound to.
#[allow(inconsistent_fields)]
#[derive(Debug)]
pub enum NonLocalBinding {
    Global { name: String },
    ModuleLocal { name: String },
    ImportDefault { name: String, module: String },
    ImportNamespace { name: String, module: String },
    ImportSpecifier { name: String, module: String, imported: String },
}

impl NonLocalBinding {
    pub open spec fn text(self) -> Seq<char> {
        match self {
            NonLocalBinding::Global { name } => name@,
            NonLocalBinding::ModuleLocal { name } => name@,
            NonLocalBinding::ImportDefault { name, .. } => name@,
            NonLocalBinding::ImportNamespace { name, .. } => name@,
            NonLocalBinding::ImportSpecifier { name, .. } => name@,
        }
    }

    pub fn name(&self) -> (r: &str)
        ensures
            r@ == self.text(),
    {
        match self {
            NonLocalBinding::Global { name } => name.as_str(),
            NonLocalBinding::ModuleLocal { name } => name.as_str(),
            NonLocalBinding::ImportDefault { name, .. } => name.as_str(),
            NonLocalBinding::ImportNamespace { name, .. } => name.as_str(),
            NonLocalBinding::ImportSpecifier { name, .. } => name.as_str(),
        }
    }
}

/// An expression for a function that was made from its control flow graph outside of this library.
#[derive(Debug, Clone, Copy, PartialEq, Eq, Structural)]
pub struct DirectLowering {
    /// The number under which the caller finds the expression again.
    pub ticket: u32,
}

/// A nested function: its control flow graph, its reactive tree, and, where the caller could make one
/// from the graph alone, the expression for it.
#[derive(Debug)]
pub struct LoweredFunction {
    pub func: HIRFunction,
    pub reactive: Box<ReactiveFunction>,
    pub direct: Option<DirectLowering>,
}

#[allow(inconsistent_fields)]
#[derive(Debug)]
pub enum InstructionValue {
    LoadLocal { place: Place },
    LoadContext { place: Place },
    DeclareLocal { lvalue: LValue },
    DeclareContext { lvalue: LValue },
    StoreLocal { lvalue: LValue, value: Place, loc: SourceLocation },
    StoreContext { lvalue: LValue, value: Place },
    Destructure { lvalue: LValuePattern, value: Place, loc: SourceLocation },
    Primitive { value: PrimitiveValue },
    JSXText { value: String },
    BinaryExpression { operator: BinaryOperator, left: Place, right: Place },
    UnaryExpression { operator: UnaryOperator, value: Place },
    LogicalExpression { operator: LogicalOperator, left: Place, right: Place },
    Ternary { test: Place, consequent: Place, alternate: Place },
    CallExpression { callee: Place, args: Vec<Argument>, optional: bool },
    MethodCall {
        receiver: Place,
        property: Place,
        args: Vec<Argument>,
        receiver_optional: bool,
        call_optional: bool,
    },
    NewExpression { callee: Place, args: Vec<Argument> },
    TypeCastExpression {
        value: Place,
        type_annotation: String,
        type_annotation_kind: TypeAnnotationKind,
    },
    ObjectExpression { properties: Vec<ObjectPropertyOrSpread> },
    ArrayExpression { elements: Vec<ArrayElement> },
    JsxExpression { tag: JsxTag, props: Vec<JsxAttribute>, children: Option<Vec<Place>> },
    JsxFragment { children: Vec<Place> },
    PropertyLoad { object: Place, property: PropertyLiteral, optional: bool },
    PropertyStore { object: Place, property: PropertyLiteral, value: Place },
    PropertyDelete { object: Place, property: PropertyLiteral },
    ComputedLoad { object: Place, property: Place, optional: bool },
    ComputedStore { object: Place, property: Place, value: Place },
    ComputedDelete { object: Place, property: Place },
    LoadGlobal { binding: NonLocalBinding },
    StoreGlobal { name: String, value: Place },
    TaggedTemplateExpression { tag: Place, raw: String, cooked: Option<String> },
    TemplateLiteral { subexprs: Vec<Place>, quasis: Vec<TemplateQuasi> },
    RegExpLiteral { pattern: String, flags: String },
    MetaProperty { meta: String, property: String },
    Await { value: Place },
    GetIterator { collection: Place },
    IteratorNext { iterator: Place, collection: Place },
    NextPropertyOf { value: Place },
    PrefixUpdate { lvalue: Place, value: Place, operation: UpdateOperator },
    PostfixUpdate { lvalue: Place, value: Place, operation: UpdateOperator },
    ObjectMethod { lowered_func: LoweredFunction },
    FunctionExpression {
        name: Option<String>,
        lowered_func: LoweredFunction,
        expr_type: FunctionExpressionType,
    },
    StartMemoize,
    FinishMemoize { decl: Place },
    ReactiveSequenceExpression {
        instructions: Vec<ReactiveInstruction>,
        value: Box<InstructionValue>,
    },
    ReactiveOptionalExpression { value: Box<InstructionValue>, optional: bool },
    ReactiveLogicalExpression {
        operator: LogicalOperator,
        left: Box<InstructionValue>,
        right: Box<InstructionValue>,
    },
    ReactiveConditionalExpression {
        test: Box<InstructionValue>,
        consequent: Box<InstructionValue>,
        alternate: Box<InstructionValue>,
    },
    Debugger,
}

// ---------------------------------------------------------------------------
// The control flow graph
// ---------------------------------------------------------------------------

#[derive(Debug)]
pub struct Instruction {
    pub id: InstructionId,
    pub lvalue: Place,
    pub value: InstructionValue,
    pub loc: SourceLocation,
}

#[derive(Debug, Clone, Copy, PartialEq, Eq, Structural)]
pub enum ReturnVariant {
    Void,
    Explicit,
    Implicit,
}

#[derive(Debug, Clone, Copy, PartialEq, Eq, Structural)]
pub enum GotoVariant {
    Break,
    Continue,
    Try,
}

#[derive(Debug)]
pub struct SwitchCase {
    pub test: Option<Place>,
    pub block: BlockId,
}

#[allow(inconsistent_fields)]
#[derive(Debug)]
pub enum Terminal {
    Return { value: Place, return_variant: ReturnVariant },
    Throw { value: Place },
    Goto { block: BlockId, variant: GotoVariant },
    If { test: Place, consequent: BlockId, alternate: BlockId, fallthrough: BlockId },
    Branch { test: Place, consequent: BlockId, alternate: BlockId, fallthrough: BlockId },
    Switch { test: Place, cases: Vec<SwitchCase>, fallthrough: BlockId },
    For {
        init: BlockId,
        test: BlockId,
        update: Option<BlockId>,
        loop_block: BlockId,
        fallthrough: BlockId,
    },
    ForOf { init: BlockId, test: BlockId, loop_block: BlockId, fallthrough: BlockId },
    ForIn { init: BlockId, loop_block: BlockId, fallthrough: BlockId },
    While { test: BlockId, loop_block: BlockId, fallthrough: BlockId },
    DoWhile { loop_block: BlockId, test: BlockId, fallthrough: BlockId },
    Try {
        block: BlockId,
        handler_binding: Option<Place>,
        handler: BlockId,
        fallthrough: BlockId,
    },
    /// A terminal that code generation only follows.
    Other { successors: Vec<BlockId> },
}

#[derive(Debug)]
pub struct Phi {
    pub place: Place,
    /// The value that comes from each predecessor.
    pub operands: Vec<(BlockId, Place)>,
}

#[derive(Debug)]
pub struct BasicBlock {
    pub id: BlockId,
    pub instructions: Vec<Instruction>,
    pub terminal: Terminal,
    pub phis: Vec<Phi>,
}

#[derive(Debug)]
pub struct HIR {
    pub entry: BlockId,
    pub blocks: Vec<(BlockId, BasicBlock)>,
}

#[derive(Debug)]
pub struct HIRFunction {
    pub id: Option<String>,
    pub params: Vec<Argument>,
    /// The places of the enclosing function that this one captures.
    pub context: Vec<Place>,
    pub body: HIR,
    pub directives: Vec<String>,
    pub generator: bool,
    pub async_: bool,
}

// ---------------------------------------------------------------------------
// The reactive tree
// ---------------------------------------------------------------------------

pub type ReactiveBlock = Vec<ReactiveStatement>;

#[derive(Debug)]
pub struct ReactiveInstruction {
    pub id: InstructionId,
    pub lvalue: Option<Place>,
    pub value: InstructionValue,
    pub loc: SourceLocation,
}

#[derive(Debug, Clone, Copy, PartialEq, Eq, Structural)]
pub enum ReactiveTerminalTargetKind {
    Implicit,
    Labeled,
    Unlabeled,
}

#[derive(Debug)]
pub struct ReactiveSwitchCase {
    pub test: Option<Place>,
    pub block: Option<Vec<ReactiveStatement>>,
}

#[allow(inconsistent_fields)]
#[derive(Debug)]
pub enum ReactiveTerminal {
    Break { target: BlockId, target_kind: ReactiveTerminalTargetKind },
    Continue { target: BlockId, target_kind: ReactiveTerminalTargetKind },
    Return { value: Place },
    Throw { value: Place },
    If {
        test: Place,
        consequent: Vec<ReactiveStatement>,
        alternate: Option<Vec<ReactiveStatement>>,
    },
    Switch { test: Place, cases: Vec<ReactiveSwitchCase> },
    DoWhile { loop_block: Vec<ReactiveStatement>, test: Place },
    While { test: Place, loop_block: Vec<ReactiveStatement> },
    For {
        init: Vec<ReactiveStatement>,
        test: Place,
        update: Option<Vec<ReactiveStatement>>,
        update_value: Option<Box<InstructionValue>>,
        loop_block: Vec<ReactiveStatement>,
    },
    ForOf { init: Vec<ReactiveStatement>, loop_block: Vec<ReactiveStatement> },
    ForIn { init: Vec<ReactiveStatement>, loop_block: Vec<ReactiveStatement> },
    Label { block: Vec<ReactiveStatement> },
    Try {
        block: Vec<ReactiveStatement>,
        handler_binding: Option<Place>,
        handler: Vec<ReactiveStatement>,
    },
}

#[derive(Debug, Clone, Copy, PartialEq, Eq, Structural)]
pub struct ReactiveLabel {
    pub id: BlockId,
    pub implicit: bool,
}

#[derive(Debug)]
pub struct ReactiveTerminalStatement {
    pub terminal: ReactiveTerminal,
    pub label: Option<ReactiveLabel>,
}

#[derive(Debug)]
pub struct ReactiveScopeBlock {
    pub scope: ReactiveScope,
    pub instructions: Vec<ReactiveStatement>,
}

#[derive(Debug)]
pub enum ReactiveStatement {
    Instruction(Box<ReactiveInstruction>),
    Terminal(Box<ReactiveTerminalStatement>),
    Scope(ReactiveScopeBlock),
    PrunedScope(ReactiveScopeBlock),
}

#[derive(Debug)]
pub struct ReactiveFunction {
    pub loc: SourceLocation,
    pub id: Option<String>,
    pub name_hint: Option<String>,
    pub params: Vec<Argument>,
    pub generator: bool,
    pub async_: bool,
    pub body: Vec<ReactiveStatement>,
    pub directives: Vec<String>,
}

} // verus!
