//! The JavaScript syntax trees that code generation builds.
//!
//! Each tree type stands beside its model, in which texts and lists are sequences.

use std::rc::Rc;
use vstd::prelude::*;

use crate::hir::{BinaryOperator, LogicalOperator, UnaryOperator, UpdateOperator};
use crate::text::texts;

verus! {

#[derive(Debug, Clone, Copy, PartialEq, Eq, Structural)]
pub enum VariableKind {
    Const,
    Let,
}

#[derive(Debug, Clone, Copy, PartialEq, Eq, Structural)]
pub struct RegExpFlags {
    pub g: bool,
    pub i: bool,
    pub m: bool,
    pub s: bool,
    pub u: bool,
    pub y: bool,
    pub d: bool,
    pub v: bool,
}

// ---------------------------------------------------------------------------
// Trees
// ---------------------------------------------------------------------------

/// A type annotation.
#[derive(Debug)]
pub enum TsType {
    /// A type that the parser understands.
    Source(String),
    /// Any other text, taken for the name of a type.
    Reference(String),
}

/// A piece of text of a template.
#[derive(Debug)]
pub struct Quasi {
    pub raw: String,
    pub cooked: Option<String>,
}

/// An argument of a call, or an element of an array.
#[derive(Debug)]
pub enum Item {
    Value(Rc<Expr>),
    Spread(Rc<Expr>),
    Hole,
}

/// The key of a property.
#[derive(Debug)]
pub enum Key {
    Name(String),
    Text(String),
    Number(String),
    Computed(Rc<Expr>),
}

/// A member of an object.
#[derive(Debug)]
pub enum Member {
    Spread(Rc<Expr>),
    Property { key: Key, value: Rc<Expr>, method: bool, shorthand: bool },
}

/// A property of an object pattern.
#[derive(Debug)]
pub struct Binding {
    pub key: Key,
    pub name: String,
    pub shorthand: bool,
}

/// What a declaration or an assignment binds.
#[derive(Debug)]
pub enum Target {
    Identifier(String),
    Array { elements: Vec<Option<String>>, rest: Option<String> },
    Object { properties: Vec<Binding>, rest: Option<String> },
    /// A member of an object.
    Member(Rc<Expr>),
}

#[derive(Debug)]
pub enum JsxName {
    Builtin(String),
    Component(Rc<Expr>),
    Fragment,
}

#[derive(Debug)]
pub enum JsxAttr {
    /// `fbt` tells that the value is an operand of a translated text.
    Attribute { name: String, value: Rc<Expr>, fbt: bool },
    Spread(Rc<Expr>),
}

#[derive(Debug)]
pub struct JsxChild {
    pub value: Rc<Expr>,
    /// Whether the child is text, and no string that an expression gives.
    pub text: bool,
}

#[derive(Debug)]
pub struct Function {
    pub params: Vec<String>,
    pub rest: Option<String>,
    pub directives: Vec<String>,
    pub body: Vec<Stmt>,
    pub async_: bool,
    pub generator: bool,
}

#[allow(inconsistent_fields)]
#[derive(Debug)]
pub enum Expr {
    Identifier(String),
    Null,
    Boolean(bool),
    /// A number, by a text that reads as it.
    Number(String),
    Text(String),
    RegExp { pattern: String, flags: RegExpFlags },
    Template { quasis: Vec<Quasi>, exprs: Vec<Rc<Expr>> },
    TaggedTemplate { tag: Rc<Expr>, quasi: Quasi },
    Binary(BinaryOperator, Rc<Expr>, Rc<Expr>),
    Unary(UnaryOperator, Rc<Expr>),
    Delete(Rc<Expr>),
    Logical(LogicalOperator, Rc<Expr>, Rc<Expr>),
    Conditional(Rc<Expr>, Rc<Expr>, Rc<Expr>),
    Call { callee: Rc<Expr>, type_arg: Option<TsType>, args: Vec<Item>, optional: bool },
    New { callee: Rc<Expr>, args: Vec<Item> },
    StaticMember { object: Rc<Expr>, property: String, optional: bool },
    ComputedMember { object: Rc<Expr>, property: Rc<Expr>, optional: bool },
    /// An optional chain that ends here.
    Chain(Rc<Expr>),
    Array(Vec<Item>),
    Object(Vec<Member>),
    Assign(Target, Rc<Expr>),
    Update { operator: UpdateOperator, prefix: bool, target: Target },
    Sequence(Vec<Rc<Expr>>),
    Parenthesized(Rc<Expr>),
    Await(Rc<Expr>),
    Meta(String, String),
    As(Rc<Expr>, TsType),
    Satisfies(Rc<Expr>, TsType),
    Arrow { is_expression: bool, function: Box<Function> },
    Function { id: Option<String>, function: Box<Function> },
    /// A function that was made elsewhere.
    Direct { ticket: u32, arrow: bool },
    JsxElement { name: JsxName, attributes: Vec<JsxAttr>, children: Option<Vec<JsxChild>> },
    JsxFragment(Vec<JsxChild>),
}

#[derive(Debug)]
pub struct Declarator {
    pub target: Target,
    pub init: Option<Rc<Expr>>,
}

#[derive(Debug)]
pub struct Declaration {
    pub kind: VariableKind,
    pub declarators: Vec<Declarator>,
}

#[derive(Debug)]
pub struct SwitchArm {
    pub test: Option<Rc<Expr>>,
    pub body: Vec<Stmt>,
}

/// What a `for`-`of` or a `for`-`in` loop binds.
#[derive(Debug)]
pub enum ForLeft {
    Declaration(Declaration),
    Target(Target),
}

#[derive(Debug)]
pub struct CatchClause {
    pub param: Option<String>,
    pub body: Vec<Stmt>,
}

#[allow(inconsistent_fields)]
#[derive(Debug)]
pub enum Stmt {
    Expression(Rc<Expr>),
    Variable(Declaration),
    /// The declaration of a function; `function` is a function expression.
    Function { name: String, function: Rc<Expr> },
    Return(Option<Rc<Expr>>),
    Throw(Rc<Expr>),
    Break(Option<String>),
    Continue(Option<String>),
    If { test: Rc<Expr>, consequent: Vec<Stmt>, alternate: Option<Vec<Stmt>> },
    Block(Vec<Stmt>),
    Switch { discriminant: Rc<Expr>, arms: Vec<SwitchArm> },
    While { test: Rc<Expr>, body: Vec<Stmt> },
    DoWhile { body: Vec<Stmt>, test: Rc<Expr> },
    For {
        init: Option<Declaration>,
        test: Option<Rc<Expr>>,
        update: Option<Rc<Expr>>,
        body: Vec<Stmt>,
    },
    ForOf { left: ForLeft, right: Rc<Expr>, body: Vec<Stmt> },
    ForIn { left: ForLeft, right: Rc<Expr>, body: Vec<Stmt> },
    Labeled { label: String, body: Box<Stmt> },
    Try { block: Vec<Stmt>, handler: Option<CatchClause>, finalizer: Option<Vec<Stmt>> },
    Debugger,
    Empty,
}

// ---------------------------------------------------------------------------
// Models
// ---------------------------------------------------------------------------

pub type Text = Seq<char>;

pub enum TypeModel {
    Source(Text),
    Reference(Text),
}

#[verifier::ext_equal]
pub struct QuasiModel {
    pub raw: Text,
    pub cooked: Option<Text>,
}

pub enum ItemModel {
    Value(Ex),
    Spread(Ex),
    Hole,
}

pub enum KeyModel {
    Name(Text),
    Text(Text),
    Number(Text),
    Computed(Box<Ex>),
}

pub enum MemberModel {
    Spread(Ex),
    Property { key: KeyModel, value: Ex, method: bool, shorthand: bool },
}

pub struct BindingModel {
    pub key: KeyModel,
    pub name: Text,
    pub shorthand: bool,
}

pub enum TargetModel {
    Identifier(Text),
    Array { elements: Seq<Option<Text>>, rest: Option<Text> },
    Object { properties: Seq<BindingModel>, rest: Option<Text> },
    Member(Box<Ex>),
}

pub enum JsxNameModel {
    Builtin(Text),
    Component(Box<Ex>),
    Fragment,
}

pub enum JsxAttrModel {
    Attribute { name: Text, value: Ex, fbt: bool },
    Spread(Ex),
}

pub struct JsxChildModel {
    pub value: Ex,
    pub text: bool,
}

#[verifier::ext_equal]
pub struct FunctionModel {
    pub params: Seq<Text>,
    pub rest: Option<Text>,
    pub directives: Seq<Text>,
    pub body: Seq<St>,
    pub async_: bool,
    pub generator: bool,
}

/// The model of an expression.
#[allow(inconsistent_fields)]
pub enum Ex {
    Identifier(Text),
    Null,
    Boolean(bool),
    Number(Text),
    Text(Text),
    RegExp { pattern: Text, flags: RegExpFlags },
    Template { quasis: Seq<QuasiModel>, exprs: Seq<Ex> },
    TaggedTemplate { tag: Box<Ex>, quasi: QuasiModel },
    Binary(BinaryOperator, Box<Ex>, Box<Ex>),
    Unary(UnaryOperator, Box<Ex>),
    Delete(Box<Ex>),
    Logical(LogicalOperator, Box<Ex>, Box<Ex>),
    Conditional(Box<Ex>, Box<Ex>, Box<Ex>),
    Call { callee: Box<Ex>, type_arg: Option<TypeModel>, args: Seq<ItemModel>, optional: bool },
    New { callee: Box<Ex>, args: Seq<ItemModel> },
    StaticMember { object: Box<Ex>, property: Text, optional: bool },
    ComputedMember { object: Box<Ex>, property: Box<Ex>, optional: bool },
    Chain(Box<Ex>),
    Array(Seq<ItemModel>),
    Object(Seq<MemberModel>),
    Assign(TargetModel, Box<Ex>),
    Update { operator: UpdateOperator, prefix: bool, target: TargetModel },
    Sequence(Seq<Ex>),
    Parenthesized(Box<Ex>),
    Await(Box<Ex>),
    Meta(Text, Text),
    As(Box<Ex>, TypeModel),
    Satisfies(Box<Ex>, TypeModel),
    Arrow { is_expression: bool, function: FunctionModel },
    Function { id: Option<Text>, function: FunctionModel },
    Direct { ticket: u32, arrow: bool },
    JsxElement {
        name: JsxNameModel,
        attributes: Seq<JsxAttrModel>,
        children: Option<Seq<JsxChildModel>>,
    },
    JsxFragment(Seq<JsxChildModel>),
}

pub struct DeclaratorModel {
    pub target: TargetModel,
    pub init: Option<Ex>,
}

pub struct DeclarationModel {
    pub kind: VariableKind,
    pub declarators: Seq<DeclaratorModel>,
}

pub struct ArmModel {
    pub test: Option<Ex>,
    pub body: Seq<St>,
}

pub enum ForLeftModel {
    Declaration(DeclarationModel),
    Target(TargetModel),
}

pub struct CatchModel {
    pub param: Option<Text>,
    pub body: Seq<St>,
}

/// The model of a statement.
#[allow(inconsistent_fields)]
pub enum St {
    Expression(Ex),
    Variable(DeclarationModel),
    Function { name: Text, function: Ex },
    Return(Option<Ex>),
    Throw(Ex),
    Break(Option<Text>),
    Continue(Option<Text>),
    If { test: Ex, consequent: Seq<St>, alternate: Option<Seq<St>> },
    Block(Seq<St>),
    Switch { discriminant: Ex, arms: Seq<ArmModel> },
    While { test: Ex, body: Seq<St> },
    DoWhile { body: Seq<St>, test: Ex },
    For {
        init: Option<DeclarationModel>,
        test: Option<Ex>,
        update: Option<Ex>,
        body: Seq<St>,
    },
    ForOf { left: ForLeftModel, right: Ex, body: Seq<St> },
    ForIn { left: ForLeftModel, right: Ex, body: Seq<St> },
    Labeled { label: Text, body: Box<St> },
    Try { block: Seq<St>, handler: Option<CatchModel>, finalizer: Option<Seq<St>> },
    Debugger,
    Empty,
}

// ---------------------------------------------------------------------------
// From trees to models
// ---------------------------------------------------------------------------

pub open spec fn option_text(s: Option<String>) -> Option<Text> {
    match s {
        Some(t) => Some(t@),
        None => None,
    }
}

pub open spec fn option_texts(v: Seq<Option<String>>) -> Seq<Option<Text>> {
    v.map_values(|s: Option<String>| option_text(s))
}

pub open spec fn type_model(t: TsType) -> TypeModel {
    match t {
        TsType::Source(s) => TypeModel::Source(s@),
        TsType::Reference(s) => TypeModel::Reference(s@),
    }
}

pub open spec fn quasi_model(q: Quasi) -> QuasiModel {
    QuasiModel { raw: q.raw@, cooked: option_text(q.cooked) }
}

pub open spec fn quasi_models(v: Seq<Quasi>) -> Seq<QuasiModel> {
    v.map_values(|q: Quasi| quasi_model(q))
}

pub closed spec fn key_model(k: Key) -> KeyModel
    decreases k,
{
    match k {
        Key::Name(s) => KeyModel::Name(s@),
        Key::Text(s) => KeyModel::Text(s@),
        Key::Number(s) => KeyModel::Number(s@),
        Key::Computed(e) => KeyModel::Computed(Box::new(expr_model(*e))),
    }
}

pub closed spec fn item_model(i: Item) -> ItemModel
    decreases i,
{
    match i {
        Item::Value(e) => ItemModel::Value(expr_model(*e)),
        Item::Spread(e) => ItemModel::Spread(expr_model(*e)),
        Item::Hole => ItemModel::Hole,
    }
}

pub closed spec fn member_model(m: Member) -> MemberModel
    decreases m,
{
    match m {
        Member::Spread(e) => MemberModel::Spread(expr_model(*e)),
        Member::Property { key, value, method, shorthand } => MemberModel::Property {
            key: key_model(key),
            value: expr_model(*value),
            method,
            shorthand,
        },
    }
}

pub closed spec fn binding_model(b: Binding) -> BindingModel
    decreases b,
{
    BindingModel { key: key_model(b.key), name: b.name@, shorthand: b.shorthand }
}

pub closed spec fn target_model(t: Target) -> TargetModel
    decreases t,
{
    match t {
        Target::Identifier(s) => TargetModel::Identifier(s@),
        Target::Array { elements, rest } => TargetModel::Array {
            elements: option_texts(elements@),
            rest: option_text(rest),
        },
        Target::Object { properties, rest } => TargetModel::Object {
            properties: binding_models(properties@),
            rest: option_text(rest),
        },
        Target::Member(e) => TargetModel::Member(Box::new(expr_model(*e))),
    }
}

pub closed spec fn jsx_name_model(n: JsxName) -> JsxNameModel
    decreases n,
{
    match n {
        JsxName::Builtin(s) => JsxNameModel::Builtin(s@),
        JsxName::Component(e) => JsxNameModel::Component(Box::new(expr_model(*e))),
        JsxName::Fragment => JsxNameModel::Fragment,
    }
}

pub closed spec fn jsx_attr_model(a: JsxAttr) -> JsxAttrModel
    decreases a,
{
    match a {
        JsxAttr::Attribute { name, value, fbt } => JsxAttrModel::Attribute {
            name: name@,
            value: expr_model(*value),
            fbt,
        },
        JsxAttr::Spread(e) => JsxAttrModel::Spread(expr_model(*e)),
    }
}

pub closed spec fn jsx_child_model(c: JsxChild) -> JsxChildModel
    decreases c,
{
    JsxChildModel { value: expr_model(*c.value), text: c.text }
}

pub closed spec fn function_model(f: Function) -> FunctionModel
    decreases f,
{
    FunctionModel {
        params: texts(f.params@),
        rest: option_text(f.rest),
        directives: texts(f.directives@),
        body: stmt_models(f.body@),
        async_: f.async_,
        generator: f.generator,
    }
}

pub closed spec fn expr_model(e: Expr) -> Ex
    decreases e,
{
    match e {
        Expr::Identifier(s) => Ex::Identifier(s@),
        Expr::Null => Ex::Null,
        Expr::Boolean(b) => Ex::Boolean(b),
        Expr::Number(s) => Ex::Number(s@),
        Expr::Text(s) => Ex::Text(s@),
        Expr::RegExp { pattern, flags } => Ex::RegExp { pattern: pattern@, flags },
        Expr::Template { quasis, exprs } => Ex::Template {
            quasis: quasi_models(quasis@),
            exprs: expr_models(exprs@),
        },
        Expr::TaggedTemplate { tag, quasi } => Ex::TaggedTemplate {
            tag: Box::new(expr_model(*tag)),
            quasi: quasi_model(quasi),
        },
        Expr::Binary(op, l, r) => Ex::Binary(
            op,
            Box::new(expr_model(*l)),
            Box::new(expr_model(*r)),
        ),
        Expr::Unary(op, a) => Ex::Unary(op, Box::new(expr_model(*a))),
        Expr::Delete(a) => Ex::Delete(Box::new(expr_model(*a))),
        Expr::Logical(op, l, r) => Ex::Logical(
            op,
            Box::new(expr_model(*l)),
            Box::new(expr_model(*r)),
        ),
        Expr::Conditional(t, c, a) => Ex::Conditional(
            Box::new(expr_model(*t)),
            Box::new(expr_model(*c)),
            Box::new(expr_model(*a)),
        ),
        Expr::Call { callee, type_arg, args, optional } => Ex::Call {
            callee: Box::new(expr_model(*callee)),
            type_arg: match type_arg {
                Some(t) => Some(type_model(t)),
                None => None,
            },
            args: item_models(args@),
            optional,
        },
        Expr::New { callee, args } => Ex::New {
            callee: Box::new(expr_model(*callee)),
            args: item_models(args@),
        },
        Expr::StaticMember { object, property, optional } => Ex::StaticMember {
            object: Box::new(expr_model(*object)),
            property: property@,
            optional,
        },
        Expr::ComputedMember { object, property, optional } => Ex::ComputedMember {
            object: Box::new(expr_model(*object)),
            property: Box::new(expr_model(*property)),
            optional,
        },
        Expr::Chain(a) => Ex::Chain(Box::new(expr_model(*a))),
        Expr::Array(items) => Ex::Array(item_models(items@)),
        Expr::Object(members) => Ex::Object(member_models(members@)),
        Expr::Assign(t, a) => Ex::Assign(target_model(t), Box::new(expr_model(*a))),
        Expr::Update { operator, prefix, target } => Ex::Update {
            operator,
            prefix,
            target: target_model(target),
        },
        Expr::Sequence(exprs) => Ex::Sequence(expr_models(exprs@)),
        Expr::Parenthesized(a) => Ex::Parenthesized(Box::new(expr_model(*a))),
        Expr::Await(a) => Ex::Await(Box::new(expr_model(*a))),
        Expr::Meta(m, p) => Ex::Meta(m@, p@),
        Expr::As(a, t) => Ex::As(Box::new(expr_model(*a)), type_model(t)),
        Expr::Satisfies(a, t) => Ex::Satisfies(Box::new(expr_model(*a)), type_model(t)),
        Expr::Arrow { is_expression, function } => Ex::Arrow {
            is_expression,
            function: function_model(*function),
        },
        Expr::Function { id, function } => Ex::Function {
            id: option_text(id),
            function: function_model(*function),
        },
        Expr::Direct { ticket, arrow } => Ex::Direct { ticket, arrow },
        Expr::JsxElement { name, attributes, children } => Ex::JsxElement {
            name: jsx_name_model(name),
            attributes: jsx_attr_models(attributes@),
            children: match children {
                Some(c) => Some(jsx_child_models(c@)),
                None => None,
            },
        },
        Expr::JsxFragment(children) => Ex::JsxFragment(jsx_child_models(children@)),
    }
}

pub closed spec fn declarator_model(d: Declarator) -> DeclaratorModel
    decreases d,
{
    DeclaratorModel { target: target_model(d.target), init: (match d.init {
        Some(x) => Some(expr_model(*x)),
        None => None,
    }) }
}

pub closed spec fn declaration_model(d: Declaration) -> DeclarationModel
    decreases d,
{
    DeclarationModel { kind: d.kind, declarators: declarator_models(d.declarators@) }
}

pub closed spec fn arm_model(a: SwitchArm) -> ArmModel
    decreases a,
{
    ArmModel { test: (match a.test {
        Some(x) => Some(expr_model(*x)),
        None => None,
    }), body: stmt_models(a.body@) }
}

pub closed spec fn left_model(l: ForLeft) -> ForLeftModel
    decreases l,
{
    match l {
        ForLeft::Declaration(d) => ForLeftModel::Declaration(declaration_model(d)),
        ForLeft::Target(t) => ForLeftModel::Target(target_model(t)),
    }
}

pub closed spec fn stmt_model(s: Stmt) -> St
    decreases s,
{
    match s {
        Stmt::Expression(e) => St::Expression(expr_model(*e)),
        Stmt::Variable(d) => St::Variable(declaration_model(d)),
        Stmt::Function { name, function } => St::Function {
            name: name@,
            function: expr_model(*function),
        },
        Stmt::Return(e) => St::Return((match e {
        Some(x) => Some(expr_model(*x)),
        None => None,
    })),
        Stmt::Throw(e) => St::Throw(expr_model(*e)),
        Stmt::Break(l) => St::Break(option_text(l)),
        Stmt::Continue(l) => St::Continue(option_text(l)),
        Stmt::If { test, consequent, alternate } => St::If {
            test: expr_model(*test),
            consequent: stmt_models(consequent@),
            alternate: (match alternate {
        Some(x) => Some(stmt_models(x@)),
        None => None,
    }),
        },
        Stmt::Block(b) => St::Block(stmt_models(b@)),
        Stmt::Switch { discriminant, arms } => St::Switch {
            discriminant: expr_model(*discriminant),
            arms: arm_models(arms@),
        },
        Stmt::While { test, body } => St::While {
            test: expr_model(*test),
            body: stmt_models(body@),
        },
        Stmt::DoWhile { body, test } => St::DoWhile {
            body: stmt_models(body@),
            test: expr_model(*test),
        },
        Stmt::For { init, test, update, body } => St::For {
            init: (match init {
        Some(x) => Some(declaration_model(x)),
        None => None,
    }),
            test: (match test {
        Some(x) => Some(expr_model(*x)),
        None => None,
    }),
            update: (match update {
        Some(x) => Some(expr_model(*x)),
        None => None,
    }),
            body: stmt_models(body@),
        },
        Stmt::ForOf { left, right, body } => St::ForOf {
            left: left_model(left),
            right: expr_model(*right),
            body: stmt_models(body@),
        },
        Stmt::ForIn { left, right, body } => St::ForIn {
            left: left_model(left),
            right: expr_model(*right),
            body: stmt_models(body@),
        },
        Stmt::Labeled { label, body } => St::Labeled {
            label: label@,
            body: Box::new(stmt_model(*body)),
        },
        Stmt::Try { block, handler, finalizer } => St::Try {
            block: stmt_models(block@),
            handler: (match handler {
        Some(x) => Some(CatchModel { param: option_text(x.param), body: stmt_models(x.body@) }),
        None => None,
    }),
            finalizer: (match finalizer {
        Some(x) => Some(stmt_models(x@)),
        None => None,
    }),
        },
        Stmt::Debugger => St::Debugger,
        Stmt::Empty => St::Empty,
    }
}

// ---------------------------------------------------------------------------
// One level of a model
// ---------------------------------------------------------------------------

pub open spec fn option_expr(e: Option<Rc<Expr>>) -> Option<Ex> {
    match e {
        Some(e) => Some(expr_model(*e)),
        None => None,
    }
}

pub open spec fn option_declaration(d: Option<Declaration>) -> Option<DeclarationModel> {
    match d {
        Some(d) => Some(declaration_model(d)),
        None => None,
    }
}

pub open spec fn option_stmts(b: Option<Vec<Stmt>>) -> Option<Seq<St>> {
    match b {
        Some(b) => Some(stmt_models(b@)),
        None => None,
    }
}

pub open spec fn option_catch(c: Option<CatchClause>) -> Option<CatchModel> {
    match c {
        Some(c) => Some(CatchModel { param: option_text(c.param), body: stmt_models(c.body@) }),
        None => None,
    }
}

/// `key_model`, one level deep.
pub open spec fn key_shape(k: Key) -> KeyModel {
    match k {
        Key::Name(s) => KeyModel::Name(s@),
        Key::Text(s) => KeyModel::Text(s@),
        Key::Number(s) => KeyModel::Number(s@),
        Key::Computed(e) => KeyModel::Computed(Box::new(expr_model(*e))),
    }
}

/// `item_model`, one level deep.
pub open spec fn item_shape(i: Item) -> ItemModel {
    match i {
        Item::Value(e) => ItemModel::Value(expr_model(*e)),
        Item::Spread(e) => ItemModel::Spread(expr_model(*e)),
        Item::Hole => ItemModel::Hole,
    }
}

/// `member_model`, one level deep.
pub open spec fn member_shape(m: Member) -> MemberModel {
    match m {
        Member::Spread(e) => MemberModel::Spread(expr_model(*e)),
        Member::Property { key, value, method, shorthand } => MemberModel::Property {
            key: key_model(key),
            value: expr_model(*value),
            method,
            shorthand,
        },
    }
}

/// `binding_model`, one level deep.
pub open spec fn binding_shape(b: Binding) -> BindingModel {
    BindingModel { key: key_model(b.key), name: b.name@, shorthand: b.shorthand }
}

/// `target_model`, one level deep.
pub open spec fn target_shape(t: Target) -> TargetModel {
    match t {
        Target::Identifier(s) => TargetModel::Identifier(s@),
        Target::Array { elements, rest } => TargetModel::Array {
            elements: option_texts(elements@),
            rest: option_text(rest),
        },
        Target::Object { properties, rest } => TargetModel::Object {
            properties: binding_models(properties@),
            rest: option_text(rest),
        },
        Target::Member(e) => TargetModel::Member(Box::new(expr_model(*e))),
    }
}

/// `jsx_name_model`, one level deep.
pub open spec fn jsx_name_shape(n: JsxName) -> JsxNameModel {
    match n {
        JsxName::Builtin(s) => JsxNameModel::Builtin(s@),
        JsxName::Component(e) => JsxNameModel::Component(Box::new(expr_model(*e))),
        JsxName::Fragment => JsxNameModel::Fragment,
    }
}

/// `jsx_attr_model`, one level deep.
pub open spec fn jsx_attr_shape(a: JsxAttr) -> JsxAttrModel {
    match a {
        JsxAttr::Attribute { name, value, fbt } => JsxAttrModel::Attribute {
            name: name@,
            value: expr_model(*value),
            fbt,
        },
        JsxAttr::Spread(e) => JsxAttrModel::Spread(expr_model(*e)),
    }
}

/// `jsx_child_model`, one level deep.
pub open spec fn jsx_child_shape(c: JsxChild) -> JsxChildModel {
    JsxChildModel { value: expr_model(*c.value), text: c.text }
}

/// `function_model`, one level deep.
pub open spec fn function_shape(f: Function) -> FunctionModel {
    FunctionModel {
        params: texts(f.params@),
        rest: option_text(f.rest),
        directives: texts(f.directives@),
        body: stmt_models(f.body@),
        async_: f.async_,
        generator: f.generator,
    }
}

/// `expr_model`, one level deep.
pub open spec fn expr_shape(e: Expr) -> Ex {
    match e {
        Expr::Identifier(s) => Ex::Identifier(s@),
        Expr::Null => Ex::Null,
        Expr::Boolean(b) => Ex::Boolean(b),
        Expr::Number(s) => Ex::Number(s@),
        Expr::Text(s) => Ex::Text(s@),
        Expr::RegExp { pattern, flags } => Ex::RegExp { pattern: pattern@, flags },
        Expr::Template { quasis, exprs } => Ex::Template {
            quasis: quasi_models(quasis@),
            exprs: expr_models(exprs@),
        },
        Expr::TaggedTemplate { tag, quasi } => Ex::TaggedTemplate {
            tag: Box::new(expr_model(*tag)),
            quasi: quasi_model(quasi),
        },
        Expr::Binary(op, l, r) => Ex::Binary(
            op,
            Box::new(expr_model(*l)),
            Box::new(expr_model(*r)),
        ),
        Expr::Unary(op, a) => Ex::Unary(op, Box::new(expr_model(*a))),
        Expr::Delete(a) => Ex::Delete(Box::new(expr_model(*a))),
        Expr::Logical(op, l, r) => Ex::Logical(
            op,
            Box::new(expr_model(*l)),
            Box::new(expr_model(*r)),
        ),
        Expr::Conditional(t, c, a) => Ex::Conditional(
            Box::new(expr_model(*t)),
            Box::new(expr_model(*c)),
            Box::new(expr_model(*a)),
        ),
        Expr::Call { callee, type_arg, args, optional } => Ex::Call {
            callee: Box::new(expr_model(*callee)),
            type_arg: match type_arg {
                Some(t) => Some(type_model(t)),
                None => None,
            },
            args: item_models(args@),
            optional,
        },
        Expr::New { callee, args } => Ex::New {
            callee: Box::new(expr_model(*callee)),
            args: item_models(args@),
        },
        Expr::StaticMember { object, property, optional } => Ex::StaticMember {
            object: Box::new(expr_model(*object)),
            property: property@,
            optional,
        },
        Expr::ComputedMember { object, property, optional } => Ex::ComputedMember {
            object: Box::new(expr_model(*object)),
            property: Box::new(expr_model(*property)),
            optional,
        },
        Expr::Chain(a) => Ex::Chain(Box::new(expr_model(*a))),
        Expr::Array(items) => Ex::Array(item_models(items@)),
        Expr::Object(members) => Ex::Object(member_models(members@)),
        Expr::Assign(t, a) => Ex::Assign(target_model(t), Box::new(expr_model(*a))),
        Expr::Update { operator, prefix, target } => Ex::Update {
            operator,
            prefix,
            target: target_model(target),
        },
        Expr::Sequence(exprs) => Ex::Sequence(expr_models(exprs@)),
        Expr::Parenthesized(a) => Ex::Parenthesized(Box::new(expr_model(*a))),
        Expr::Await(a) => Ex::Await(Box::new(expr_model(*a))),
        Expr::Meta(m, p) => Ex::Meta(m@, p@),
        Expr::As(a, t) => Ex::As(Box::new(expr_model(*a)), type_model(t)),
        Expr::Satisfies(a, t) => Ex::Satisfies(Box::new(expr_model(*a)), type_model(t)),
        Expr::Arrow { is_expression, function } => Ex::Arrow {
            is_expression,
            function: function_model(*function),
        },
        Expr::Function { id, function } => Ex::Function {
            id: option_text(id),
            function: function_model(*function),
        },
        Expr::Direct { ticket, arrow } => Ex::Direct { ticket, arrow },
        Expr::JsxElement { name, attributes, children } => Ex::JsxElement {
            name: jsx_name_model(name),
            attributes: jsx_attr_models(attributes@),
            children: match children {
                Some(c) => Some(jsx_child_models(c@)),
                None => None,
            },
        },
        Expr::JsxFragment(children) => Ex::JsxFragment(jsx_child_models(children@)),
    }
}

/// `declarator_model`, one level deep.
pub open spec fn declarator_shape(d: Declarator) -> DeclaratorModel {
    DeclaratorModel { target: target_model(d.target), init: option_expr(d.init) }
}

/// `declaration_model`, one level deep.
pub open spec fn declaration_shape(d: Declaration) -> DeclarationModel {
    DeclarationModel { kind: d.kind, declarators: declarator_models(d.declarators@) }
}

/// `arm_model`, one level deep.
pub open spec fn arm_shape(a: SwitchArm) -> ArmModel {
    ArmModel { test: option_expr(a.test), body: stmt_models(a.body@) }
}

/// `left_model`, one level deep.
pub open spec fn left_shape(l: ForLeft) -> ForLeftModel {
    match l {
        ForLeft::Declaration(d) => ForLeftModel::Declaration(declaration_model(d)),
        ForLeft::Target(t) => ForLeftModel::Target(target_model(t)),
    }
}

/// `stmt_model`, one level deep.
pub open spec fn stmt_shape(s: Stmt) -> St {
    match s {
        Stmt::Expression(e) => St::Expression(expr_model(*e)),
        Stmt::Variable(d) => St::Variable(declaration_model(d)),
        Stmt::Function { name, function } => St::Function {
            name: name@,
            function: expr_model(*function),
        },
        Stmt::Return(e) => St::Return(option_expr(e)),
        Stmt::Throw(e) => St::Throw(expr_model(*e)),
        Stmt::Break(l) => St::Break(option_text(l)),
        Stmt::Continue(l) => St::Continue(option_text(l)),
        Stmt::If { test, consequent, alternate } => St::If {
            test: expr_model(*test),
            consequent: stmt_models(consequent@),
            alternate: option_stmts(alternate),
        },
        Stmt::Block(b) => St::Block(stmt_models(b@)),
        Stmt::Switch { discriminant, arms } => St::Switch {
            discriminant: expr_model(*discriminant),
            arms: arm_models(arms@),
        },
        Stmt::While { test, body } => St::While {
            test: expr_model(*test),
            body: stmt_models(body@),
        },
        Stmt::DoWhile { body, test } => St::DoWhile {
            body: stmt_models(body@),
            test: expr_model(*test),
        },
        Stmt::For { init, test, update, body } => St::For {
            init: option_declaration(init),
            test: option_expr(test),
            update: option_expr(update),
            body: stmt_models(body@),
        },
        Stmt::ForOf { left, right, body } => St::ForOf {
            left: left_model(left),
            right: expr_model(*right),
            body: stmt_models(body@),
        },
        Stmt::ForIn { left, right, body } => St::ForIn {
            left: left_model(left),
            right: expr_model(*right),
            body: stmt_models(body@),
        },
        Stmt::Labeled { label, body } => St::Labeled {
            label: label@,
            body: Box::new(stmt_model(*body)),
        },
        Stmt::Try { block, handler, finalizer } => St::Try {
            block: stmt_models(block@),
            handler: option_catch(handler),
            finalizer: option_stmts(finalizer),
        },
        Stmt::Debugger => St::Debugger,
        Stmt::Empty => St::Empty,
    }
}

pub proof fn unfold_key(k: &Key)
    ensures
        key_model(*k) == key_shape(*k),
{
}

pub proof fn unfold_item(i: &Item)
    ensures
        item_model(*i) == item_shape(*i),
{
}

pub proof fn unfold_member(m: &Member)
    ensures
        member_model(*m) == member_shape(*m),
{
}

pub proof fn unfold_binding(b: &Binding)
    ensures
        binding_model(*b) == binding_shape(*b),
{
}

pub proof fn unfold_target(t: &Target)
    ensures
        target_model(*t) == target_shape(*t),
{
}

pub proof fn unfold_jsx_name(n: &JsxName)
    ensures
        jsx_name_model(*n) == jsx_name_shape(*n),
{
}

pub proof fn unfold_jsx_attr(a: &JsxAttr)
    ensures
        jsx_attr_model(*a) == jsx_attr_shape(*a),
{
}

pub proof fn unfold_jsx_child(c: &JsxChild)
    ensures
        jsx_child_model(*c) == jsx_child_shape(*c),
{
}

pub proof fn unfold_function(f: &Function)
    ensures
        function_model(*f) == function_shape(*f),
{
}

pub proof fn unfold_expr(e: &Expr)
    ensures
        expr_model(*e) == expr_shape(*e),
{
}

pub proof fn unfold_declarator(d: &Declarator)
    ensures
        declarator_model(*d) == declarator_shape(*d),
{
}

pub proof fn unfold_declaration(d: &Declaration)
    ensures
        declaration_model(*d) == declaration_shape(*d),
{
}

pub proof fn unfold_arm(a: &SwitchArm)
    ensures
        arm_model(*a) == arm_shape(*a),
{
}

pub proof fn unfold_left(l: &ForLeft)
    ensures
        left_model(*l) == left_shape(*l),
{
}

pub proof fn unfold_stmt(s: &Stmt)
    ensures
        stmt_model(*s) == stmt_shape(*s),
{
}

// ---------------------------------------------------------------------------
// Lists
// ---------------------------------------------------------------------------

pub closed spec fn expr_models(v: Seq<Rc<Expr>>) -> Seq<Ex>
    decreases v,
{
    if v.len() == 0 {
        Seq::empty()
    } else {
        expr_models(v.drop_last()).push(expr_model(*v.last()))
    }
}

pub broadcast proof fn lemma_expr_models(v: Seq<Rc<Expr>>)
    ensures
        (#[trigger] expr_models(v)).len() == v.len(),
        forall|i: int| 0 <= i < v.len() ==> #[trigger] expr_models(v)[i] == expr_model(*v[i]),
    decreases v.len(),
{
    if v.len() > 0 {
        lemma_expr_models(v.drop_last());
    }
}

pub broadcast proof fn lemma_expr_push(v: Seq<Rc<Expr>>, x: Rc<Expr>)
    ensures
        #[trigger] expr_models(v.push(x)) == expr_models(v).push(expr_model(*x)),
{
    assert(v.push(x).drop_last() =~= v);
}

pub closed spec fn item_models(v: Seq<Item>) -> Seq<ItemModel>
    decreases v,
{
    if v.len() == 0 {
        Seq::empty()
    } else {
        item_models(v.drop_last()).push(item_model(v.last()))
    }
}

pub broadcast proof fn lemma_item_models(v: Seq<Item>)
    ensures
        (#[trigger] item_models(v)).len() == v.len(),
        forall|i: int| 0 <= i < v.len() ==> #[trigger] item_models(v)[i] == item_model(v[i]),
    decreases v.len(),
{
    if v.len() > 0 {
        lemma_item_models(v.drop_last());
    }
}

pub broadcast proof fn lemma_item_push(v: Seq<Item>, x: Item)
    ensures
        #[trigger] item_models(v.push(x)) == item_models(v).push(item_model(x)),
{
    assert(v.push(x).drop_last() =~= v);
}

pub closed spec fn member_models(v: Seq<Member>) -> Seq<MemberModel>
    decreases v,
{
    if v.len() == 0 {
        Seq::empty()
    } else {
        member_models(v.drop_last()).push(member_model(v.last()))
    }
}

pub broadcast proof fn lemma_member_models(v: Seq<Member>)
    ensures
        (#[trigger] member_models(v)).len() == v.len(),
        forall|i: int| 0 <= i < v.len() ==> #[trigger] member_models(v)[i] == member_model(v[i]),
    decreases v.len(),
{
    if v.len() > 0 {
        lemma_member_models(v.drop_last());
    }
}

pub broadcast proof fn lemma_member_push(v: Seq<Member>, x: Member)
    ensures
        #[trigger] member_models(v.push(x)) == member_models(v).push(member_model(x)),
{
    assert(v.push(x).drop_last() =~= v);
}

pub closed spec fn binding_models(v: Seq<Binding>) -> Seq<BindingModel>
    decreases v,
{
    if v.len() == 0 {
        Seq::empty()
    } else {
        binding_models(v.drop_last()).push(binding_model(v.last()))
    }
}

pub broadcast proof fn lemma_binding_models(v: Seq<Binding>)
    ensures
        (#[trigger] binding_models(v)).len() == v.len(),
        forall|i: int| 0 <= i < v.len() ==> #[trigger] binding_models(v)[i] == binding_model(v[i]),
    decreases v.len(),
{
    if v.len() > 0 {
        lemma_binding_models(v.drop_last());
    }
}

pub broadcast proof fn lemma_binding_push(v: Seq<Binding>, x: Binding)
    ensures
        #[trigger] binding_models(v.push(x)) == binding_models(v).push(binding_model(x)),
{
    assert(v.push(x).drop_last() =~= v);
}

pub closed spec fn jsx_attr_models(v: Seq<JsxAttr>) -> Seq<JsxAttrModel>
    decreases v,
{
    if v.len() == 0 {
        Seq::empty()
    } else {
        jsx_attr_models(v.drop_last()).push(jsx_attr_model(v.last()))
    }
}

pub broadcast proof fn lemma_jsx_attr_models(v: Seq<JsxAttr>)
    ensures
        (#[trigger] jsx_attr_models(v)).len() == v.len(),
        forall|i: int| 0 <= i < v.len() ==> #[trigger] jsx_attr_models(v)[i] == jsx_attr_model(v[i]),
    decreases v.len(),
{
    if v.len() > 0 {
        lemma_jsx_attr_models(v.drop_last());
    }
}

pub broadcast proof fn lemma_jsx_attr_push(v: Seq<JsxAttr>, x: JsxAttr)
    ensures
        #[trigger] jsx_attr_models(v.push(x)) == jsx_attr_models(v).push(jsx_attr_model(x)),
{
    assert(v.push(x).drop_last() =~= v);
}

pub closed spec fn jsx_child_models(v: Seq<JsxChild>) -> Seq<JsxChildModel>
    decreases v,
{
    if v.len() == 0 {
        Seq::empty()
    } else {
        jsx_child_models(v.drop_last()).push(jsx_child_model(v.last()))
    }
}

pub broadcast proof fn lemma_jsx_child_models(v: Seq<JsxChild>)
    ensures
        (#[trigger] jsx_child_models(v)).len() == v.len(),
        forall|i: int| 0 <= i < v.len() ==> #[trigger] jsx_child_models(v)[i] == jsx_child_model(v[i]),
    decreases v.len(),
{
    if v.len() > 0 {
        lemma_jsx_child_models(v.drop_last());
    }
}

pub broadcast proof fn lemma_jsx_child_push(v: Seq<JsxChild>, x: JsxChild)
    ensures
        #[trigger] jsx_child_models(v.push(x)) == jsx_child_models(v).push(jsx_child_model(x)),
{
    assert(v.push(x).drop_last() =~= v);
}

pub closed spec fn declarator_models(v: Seq<Declarator>) -> Seq<DeclaratorModel>
    decreases v,
{
    if v.len() == 0 {
        Seq::empty()
    } else {
        declarator_models(v.drop_last()).push(declarator_model(v.last()))
    }
}

pub broadcast proof fn lemma_declarator_models(v: Seq<Declarator>)
    ensures
        (#[trigger] declarator_models(v)).len() == v.len(),
        forall|i: int| 0 <= i < v.len() ==> #[trigger] declarator_models(v)[i] == declarator_model(v[i]),
    decreases v.len(),
{
    if v.len() > 0 {
        lemma_declarator_models(v.drop_last());
    }
}

pub broadcast proof fn lemma_declarator_push(v: Seq<Declarator>, x: Declarator)
    ensures
        #[trigger] declarator_models(v.push(x)) == declarator_models(v).push(declarator_model(x)),
{
    assert(v.push(x).drop_last() =~= v);
}

pub closed spec fn arm_models(v: Seq<SwitchArm>) -> Seq<ArmModel>
    decreases v,
{
    if v.len() == 0 {
        Seq::empty()
    } else {
        arm_models(v.drop_last()).push(arm_model(v.last()))
    }
}

pub broadcast proof fn lemma_arm_models(v: Seq<SwitchArm>)
    ensures
        (#[trigger] arm_models(v)).len() == v.len(),
        forall|i: int| 0 <= i < v.len() ==> #[trigger] arm_models(v)[i] == arm_model(v[i]),
    decreases v.len(),
{
    if v.len() > 0 {
        lemma_arm_models(v.drop_last());
    }
}

pub broadcast proof fn lemma_arm_push(v: Seq<SwitchArm>, x: SwitchArm)
    ensures
        #[trigger] arm_models(v.push(x)) == arm_models(v).push(arm_model(x)),
{
    assert(v.push(x).drop_last() =~= v);
}

pub closed spec fn stmt_models(v: Seq<Stmt>) -> Seq<St>
    decreases v,
{
    if v.len() == 0 {
        Seq::empty()
    } else {
        stmt_models(v.drop_last()).push(stmt_model(v.last()))
    }
}

pub broadcast proof fn lemma_stmt_models(v: Seq<Stmt>)
    ensures
        (#[trigger] stmt_models(v)).len() == v.len(),
        forall|i: int| 0 <= i < v.len() ==> #[trigger] stmt_models(v)[i] == stmt_model(v[i]),
    decreases v.len(),
{
    if v.len() > 0 {
        lemma_stmt_models(v.drop_last());
    }
}

pub broadcast proof fn lemma_stmt_push(v: Seq<Stmt>, x: Stmt)
    ensures
        #[trigger] stmt_models(v.push(x)) == stmt_models(v).push(stmt_model(x)),
{
    assert(v.push(x).drop_last() =~= v);
}

pub broadcast proof fn lemma_stmt_add(a: Seq<Stmt>, b: Seq<Stmt>)
    ensures
        #[trigger] stmt_models(a + b) == stmt_models(a) + stmt_models(b),
{
    lemma_stmt_models(a);
    lemma_stmt_models(b);
    lemma_stmt_models(a + b);
    assert(stmt_models(a + b) =~= stmt_models(a) + stmt_models(b));
}

pub broadcast proof fn lemma_expr_empty()
    ensures
        #[trigger] expr_models(Seq::<Rc<Expr>>::empty()) == Seq::<Ex>::empty(),
{
}

pub broadcast proof fn lemma_item_empty()
    ensures
        #[trigger] item_models(Seq::<Item>::empty()) == Seq::<ItemModel>::empty(),
{
}

pub broadcast proof fn lemma_member_empty()
    ensures
        #[trigger] member_models(Seq::<Member>::empty()) == Seq::<MemberModel>::empty(),
{
}

pub broadcast proof fn lemma_binding_empty()
    ensures
        #[trigger] binding_models(Seq::<Binding>::empty()) == Seq::<BindingModel>::empty(),
{
}

pub broadcast proof fn lemma_jsx_attr_empty()
    ensures
        #[trigger] jsx_attr_models(Seq::<JsxAttr>::empty()) == Seq::<JsxAttrModel>::empty(),
{
}

pub broadcast proof fn lemma_jsx_child_empty()
    ensures
        #[trigger] jsx_child_models(Seq::<JsxChild>::empty()) == Seq::<JsxChildModel>::empty(),
{
}

pub broadcast proof fn lemma_declarator_empty()
    ensures
        #[trigger] declarator_models(Seq::<Declarator>::empty()) == Seq::<DeclaratorModel>::empty(),
{
}

pub broadcast proof fn lemma_arm_empty()
    ensures
        #[trigger] arm_models(Seq::<SwitchArm>::empty()) == Seq::<ArmModel>::empty(),
{
}

pub broadcast proof fn lemma_stmt_empty()
    ensures
        #[trigger] stmt_models(Seq::<Stmt>::empty()) == Seq::<St>::empty(),
{
}

// ---------------------------------------------------------------------------
// Models of what is put together
// ---------------------------------------------------------------------------

pub broadcast proof fn lemma_item_is_value(a0: Rc<Expr>)
    ensures
        #[trigger] item_model(Item::Value(a0)) == item_shape(Item::Value(a0)),
{
}

pub broadcast proof fn lemma_item_is_spread(a0: Rc<Expr>)
    ensures
        #[trigger] item_model(Item::Spread(a0)) == item_shape(Item::Spread(a0)),
{
}

pub broadcast proof fn lemma_item_is_hole(e: Item)
    requires
        e == Item::Hole,
    ensures
        #[trigger] item_model(e) == item_shape(Item::Hole),
{
}

pub broadcast proof fn lemma_key_is_name(a0: String)
    ensures
        #[trigger] key_model(Key::Name(a0)) == key_shape(Key::Name(a0)),
{
}

pub broadcast proof fn lemma_key_is_text(a0: String)
    ensures
        #[trigger] key_model(Key::Text(a0)) == key_shape(Key::Text(a0)),
{
}

pub broadcast proof fn lemma_key_is_number(a0: String)
    ensures
        #[trigger] key_model(Key::Number(a0)) == key_shape(Key::Number(a0)),
{
}

pub broadcast proof fn lemma_key_is_computed(a0: Rc<Expr>)
    ensures
        #[trigger] key_model(Key::Computed(a0)) == key_shape(Key::Computed(a0)),
{
}

pub broadcast proof fn lemma_member_is_spread(a0: Rc<Expr>)
    ensures
        #[trigger] member_model(Member::Spread(a0)) == member_shape(Member::Spread(a0)),
{
}

pub broadcast proof fn lemma_member_is_property(key: Key, value: Rc<Expr>, method: bool, shorthand: bool)
    ensures
        #[trigger] member_model(Member::Property { key, value, method, shorthand }) == member_shape(Member::Property { key, value, method, shorthand }),
{
}

pub broadcast proof fn lemma_target_is_identifier(a0: String)
    ensures
        #[trigger] target_model(Target::Identifier(a0)) == target_shape(Target::Identifier(a0)),
{
}

pub broadcast proof fn lemma_target_is_array(elements: Vec<Option<String>>, rest: Option<String>)
    ensures
        #[trigger] target_model(Target::Array { elements, rest }) == target_shape(Target::Array { elements, rest }),
{
}

pub broadcast proof fn lemma_target_is_object(properties: Vec<Binding>, rest: Option<String>)
    ensures
        #[trigger] target_model(Target::Object { properties, rest }) == target_shape(Target::Object { properties, rest }),
{
}

pub broadcast proof fn lemma_target_is_member(a0: Rc<Expr>)
    ensures
        #[trigger] target_model(Target::Member(a0)) == target_shape(Target::Member(a0)),
{
}

pub broadcast proof fn lemma_jsx_name_is_builtin(a0: String)
    ensures
        #[trigger] jsx_name_model(JsxName::Builtin(a0)) == jsx_name_shape(JsxName::Builtin(a0)),
{
}

pub broadcast proof fn lemma_jsx_name_is_component(a0: Rc<Expr>)
    ensures
        #[trigger] jsx_name_model(JsxName::Component(a0)) == jsx_name_shape(JsxName::Component(a0)),
{
}

pub broadcast proof fn lemma_jsx_name_is_fragment(e: JsxName)
    requires
        e == JsxName::Fragment,
    ensures
        #[trigger] jsx_name_model(e) == jsx_name_shape(JsxName::Fragment),
{
}

pub broadcast proof fn lemma_jsx_attr_is_attribute(name: String, value: Rc<Expr>, fbt: bool)
    ensures
        #[trigger] jsx_attr_model(JsxAttr::Attribute { name, value, fbt }) == jsx_attr_shape(JsxAttr::Attribute { name, value, fbt }),
{
}

pub broadcast proof fn lemma_jsx_attr_is_spread(a0: Rc<Expr>)
    ensures
        #[trigger] jsx_attr_model(JsxAttr::Spread(a0)) == jsx_attr_shape(JsxAttr::Spread(a0)),
{
}

pub broadcast proof fn lemma_expr_is_identifier(a0: String)
    ensures
        #[trigger] expr_model(Expr::Identifier(a0)) == expr_shape(Expr::Identifier(a0)),
{
}

pub broadcast proof fn lemma_expr_is_null(e: Expr)
    requires
        e == Expr::Null,
    ensures
        #[trigger] expr_model(e) == expr_shape(Expr::Null),
{
}

pub broadcast proof fn lemma_expr_is_boolean(a0: bool)
    ensures
        #[trigger] expr_model(Expr::Boolean(a0)) == expr_shape(Expr::Boolean(a0)),
{
}

pub broadcast proof fn lemma_expr_is_number(a0: String)
    ensures
        #[trigger] expr_model(Expr::Number(a0)) == expr_shape(Expr::Number(a0)),
{
}

pub broadcast proof fn lemma_expr_is_text(a0: String)
    ensures
        #[trigger] expr_model(Expr::Text(a0)) == expr_shape(Expr::Text(a0)),
{
}

pub broadcast proof fn lemma_expr_is_reg_exp(pattern: String, flags: RegExpFlags)
    ensures
        #[trigger] expr_model(Expr::RegExp { pattern, flags }) == expr_shape(Expr::RegExp { pattern, flags }),
{
}

pub broadcast proof fn lemma_expr_is_template(quasis: Vec<Quasi>, exprs: Vec<Rc<Expr>>)
    ensures
        #[trigger] expr_model(Expr::Template { quasis, exprs }) == expr_shape(Expr::Template { quasis, exprs }),
{
}

pub broadcast proof fn lemma_expr_is_tagged_template(tag: Rc<Expr>, quasi: Quasi)
    ensures
        #[trigger] expr_model(Expr::TaggedTemplate { tag, quasi }) == expr_shape(Expr::TaggedTemplate { tag, quasi }),
{
}

pub broadcast proof fn lemma_expr_is_binary(a0: BinaryOperator, a1: Rc<Expr>, a2: Rc<Expr>)
    ensures
        #[trigger] expr_model(Expr::Binary(a0, a1, a2)) == expr_shape(Expr::Binary(a0, a1, a2)),
{
}

pub broadcast proof fn lemma_expr_is_unary(a0: UnaryOperator, a1: Rc<Expr>)
    ensures
        #[trigger] expr_model(Expr::Unary(a0, a1)) == expr_shape(Expr::Unary(a0, a1)),
{
}

pub broadcast proof fn lemma_expr_is_delete(a0: Rc<Expr>)
    ensures
        #[trigger] expr_model(Expr::Delete(a0)) == expr_shape(Expr::Delete(a0)),
{
}

pub broadcast proof fn lemma_expr_is_logical(a0: LogicalOperator, a1: Rc<Expr>, a2: Rc<Expr>)
    ensures
        #[trigger] expr_model(Expr::Logical(a0, a1, a2)) == expr_shape(Expr::Logical(a0, a1, a2)),
{
}

pub broadcast proof fn lemma_expr_is_conditional(a0: Rc<Expr>, a1: Rc<Expr>, a2: Rc<Expr>)
    ensures
        #[trigger] expr_model(Expr::Conditional(a0, a1, a2)) == expr_shape(Expr::Conditional(a0, a1, a2)),
{
}

pub broadcast proof fn lemma_expr_is_call(callee: Rc<Expr>, type_arg: Option<TsType>, args: Vec<Item>, optional: bool)
    ensures
        #[trigger] expr_model(Expr::Call { callee, type_arg, args, optional }) == expr_shape(Expr::Call { callee, type_arg, args, optional }),
{
}

pub broadcast proof fn lemma_expr_is_new(callee: Rc<Expr>, args: Vec<Item>)
    ensures
        #[trigger] expr_model(Expr::New { callee, args }) == expr_shape(Expr::New { callee, args }),
{
}

pub broadcast proof fn lemma_expr_is_static_member(object: Rc<Expr>, property: String, optional: bool)
    ensures
        #[trigger] expr_model(Expr::StaticMember { object, property, optional }) == expr_shape(Expr::StaticMember { object, property, optional }),
{
}

pub broadcast proof fn lemma_expr_is_computed_member(object: Rc<Expr>, property: Rc<Expr>, optional: bool)
    ensures
        #[trigger] expr_model(Expr::ComputedMember { object, property, optional }) == expr_shape(Expr::ComputedMember { object, property, optional }),
{
}

pub broadcast proof fn lemma_expr_is_chain(a0: Rc<Expr>)
    ensures
        #[trigger] expr_model(Expr::Chain(a0)) == expr_shape(Expr::Chain(a0)),
{
}

pub broadcast proof fn lemma_expr_is_array(a0: Vec<Item>)
    ensures
        #[trigger] expr_model(Expr::Array(a0)) == expr_shape(Expr::Array(a0)),
{
}

pub broadcast proof fn lemma_expr_is_object(a0: Vec<Member>)
    ensures
        #[trigger] expr_model(Expr::Object(a0)) == expr_shape(Expr::Object(a0)),
{
}

pub broadcast proof fn lemma_expr_is_assign(a0: Target, a1: Rc<Expr>)
    ensures
        #[trigger] expr_model(Expr::Assign(a0, a1)) == expr_shape(Expr::Assign(a0, a1)),
{
}

pub broadcast proof fn lemma_expr_is_update(operator: UpdateOperator, prefix: bool, target: Target)
    ensures
        #[trigger] expr_model(Expr::Update { operator, prefix, target }) == expr_shape(Expr::Update { operator, prefix, target }),
{
}

pub broadcast proof fn lemma_expr_is_sequence(a0: Vec<Rc<Expr>>)
    ensures
        #[trigger] expr_model(Expr::Sequence(a0)) == expr_shape(Expr::Sequence(a0)),
{
}

pub broadcast proof fn lemma_expr_is_parenthesized(a0: Rc<Expr>)
    ensures
        #[trigger] expr_model(Expr::Parenthesized(a0)) == expr_shape(Expr::Parenthesized(a0)),
{
}

pub broadcast proof fn lemma_expr_is_await(a0: Rc<Expr>)
    ensures
        #[trigger] expr_model(Expr::Await(a0)) == expr_shape(Expr::Await(a0)),
{
}

pub broadcast proof fn lemma_expr_is_meta(a0: String, a1: String)
    ensures
        #[trigger] expr_model(Expr::Meta(a0, a1)) == expr_shape(Expr::Meta(a0, a1)),
{
}

pub broadcast proof fn lemma_expr_is_as(a0: Rc<Expr>, a1: TsType)
    ensures
        #[trigger] expr_model(Expr::As(a0, a1)) == expr_shape(Expr::As(a0, a1)),
{
}

pub broadcast proof fn lemma_expr_is_satisfies(a0: Rc<Expr>, a1: TsType)
    ensures
        #[trigger] expr_model(Expr::Satisfies(a0, a1)) == expr_shape(Expr::Satisfies(a0, a1)),
{
}

pub broadcast proof fn lemma_expr_is_arrow(is_expression: bool, function: Box<Function>)
    ensures
        #[trigger] expr_model(Expr::Arrow { is_expression, function }) == expr_shape(Expr::Arrow { is_expression, function }),
{
}

pub broadcast proof fn lemma_expr_is_function(id: Option<String>, function: Box<Function>)
    ensures
        #[trigger] expr_model(Expr::Function { id, function }) == expr_shape(Expr::Function { id, function }),
{
}

pub broadcast proof fn lemma_expr_is_direct(ticket: u32, arrow: bool)
    ensures
        #[trigger] expr_model(Expr::Direct { ticket, arrow }) == expr_shape(Expr::Direct { ticket, arrow }),
{
}

pub broadcast proof fn lemma_expr_is_jsx_element(name: JsxName, attributes: Vec<JsxAttr>, children: Option<Vec<JsxChild>>)
    ensures
        #[trigger] expr_model(Expr::JsxElement { name, attributes, children }) == expr_shape(Expr::JsxElement { name, attributes, children }),
{
}

pub broadcast proof fn lemma_expr_is_jsx_fragment(a0: Vec<JsxChild>)
    ensures
        #[trigger] expr_model(Expr::JsxFragment(a0)) == expr_shape(Expr::JsxFragment(a0)),
{
}

pub broadcast proof fn lemma_left_is_declaration(a0: Declaration)
    ensures
        #[trigger] left_model(ForLeft::Declaration(a0)) == left_shape(ForLeft::Declaration(a0)),
{
}

pub broadcast proof fn lemma_left_is_target(a0: Target)
    ensures
        #[trigger] left_model(ForLeft::Target(a0)) == left_shape(ForLeft::Target(a0)),
{
}

pub broadcast proof fn lemma_stmt_is_expression(a0: Rc<Expr>)
    ensures
        #[trigger] stmt_model(Stmt::Expression(a0)) == stmt_shape(Stmt::Expression(a0)),
{
}

pub broadcast proof fn lemma_stmt_is_variable(a0: Declaration)
    ensures
        #[trigger] stmt_model(Stmt::Variable(a0)) == stmt_shape(Stmt::Variable(a0)),
{
}

pub broadcast proof fn lemma_stmt_is_function(name: String, function: Rc<Expr>)
    ensures
        #[trigger] stmt_model(Stmt::Function { name, function }) == stmt_shape(Stmt::Function { name, function }),
{
}

pub broadcast proof fn lemma_stmt_is_return(a0: Option<Rc<Expr>>)
    ensures
        #[trigger] stmt_model(Stmt::Return(a0)) == stmt_shape(Stmt::Return(a0)),
{
}

pub broadcast proof fn lemma_stmt_is_throw(a0: Rc<Expr>)
    ensures
        #[trigger] stmt_model(Stmt::Throw(a0)) == stmt_shape(Stmt::Throw(a0)),
{
}

pub broadcast proof fn lemma_stmt_is_break(a0: Option<String>)
    ensures
        #[trigger] stmt_model(Stmt::Break(a0)) == stmt_shape(Stmt::Break(a0)),
{
}

pub broadcast proof fn lemma_stmt_is_continue(a0: Option<String>)
    ensures
        #[trigger] stmt_model(Stmt::Continue(a0)) == stmt_shape(Stmt::Continue(a0)),
{
}

pub broadcast proof fn lemma_stmt_is_if(test: Rc<Expr>, consequent: Vec<Stmt>, alternate: Option<Vec<Stmt>>)
    ensures
        #[trigger] stmt_model(Stmt::If { test, consequent, alternate }) == stmt_shape(Stmt::If { test, consequent, alternate }),
{
}

pub broadcast proof fn lemma_stmt_is_block(a0: Vec<Stmt>)
    ensures
        #[trigger] stmt_model(Stmt::Block(a0)) == stmt_shape(Stmt::Block(a0)),
{
}

pub broadcast proof fn lemma_stmt_is_switch(discriminant: Rc<Expr>, arms: Vec<SwitchArm>)
    ensures
        #[trigger] stmt_model(Stmt::Switch { discriminant, arms }) == stmt_shape(Stmt::Switch { discriminant, arms }),
{
}

pub broadcast proof fn lemma_stmt_is_while(test: Rc<Expr>, body: Vec<Stmt>)
    ensures
        #[trigger] stmt_model(Stmt::While { test, body }) == stmt_shape(Stmt::While { test, body }),
{
}

pub broadcast proof fn lemma_stmt_is_do_while(body: Vec<Stmt>, test: Rc<Expr>)
    ensures
        #[trigger] stmt_model(Stmt::DoWhile { body, test }) == stmt_shape(Stmt::DoWhile { body, test }),
{
}

pub broadcast proof fn lemma_stmt_is_for(init: Option<Declaration>, test: Option<Rc<Expr>>, update: Option<Rc<Expr>>, body: Vec<Stmt>)
    ensures
        #[trigger] stmt_model(Stmt::For { init, test, update, body }) == stmt_shape(Stmt::For { init, test, update, body }),
{
}

pub broadcast proof fn lemma_stmt_is_for_of(left: ForLeft, right: Rc<Expr>, body: Vec<Stmt>)
    ensures
        #[trigger] stmt_model(Stmt::ForOf { left, right, body }) == stmt_shape(Stmt::ForOf { left, right, body }),
{
}

pub broadcast proof fn lemma_stmt_is_for_in(left: ForLeft, right: Rc<Expr>, body: Vec<Stmt>)
    ensures
        #[trigger] stmt_model(Stmt::ForIn { left, right, body }) == stmt_shape(Stmt::ForIn { left, right, body }),
{
}

pub broadcast proof fn lemma_stmt_is_labeled(label: String, body: Box<Stmt>)
    ensures
        #[trigger] stmt_model(Stmt::Labeled { label, body }) == stmt_shape(Stmt::Labeled { label, body }),
{
}

pub broadcast proof fn lemma_stmt_is_try(block: Vec<Stmt>, handler: Option<CatchClause>, finalizer: Option<Vec<Stmt>>)
    ensures
        #[trigger] stmt_model(Stmt::Try { block, handler, finalizer }) == stmt_shape(Stmt::Try { block, handler, finalizer }),
{
}

pub broadcast proof fn lemma_stmt_is_debugger(e: Stmt)
    requires
        e == Stmt::Debugger,
    ensures
        #[trigger] stmt_model(e) == stmt_shape(Stmt::Debugger),
{
}

pub broadcast proof fn lemma_stmt_is_empty(e: Stmt)
    requires
        e == Stmt::Empty,
    ensures
        #[trigger] stmt_model(e) == stmt_shape(Stmt::Empty),
{
}

pub broadcast proof fn lemma_binding_is(key: Key, name: String, shorthand: bool)
    ensures
        #[trigger] binding_model(Binding { key, name, shorthand }) == binding_shape(Binding { key, name, shorthand }),
{
}

pub broadcast proof fn lemma_jsx_child_is(value: Rc<Expr>, text: bool)
    ensures
        #[trigger] jsx_child_model(JsxChild { value, text }) == jsx_child_shape(JsxChild { value, text }),
{
}

pub broadcast proof fn lemma_function_is(params: Vec<String>, rest: Option<String>, directives: Vec<String>, body: Vec<Stmt>, async_: bool, generator: bool)
    ensures
        #[trigger] function_model(Function { params, rest, directives, body, async_, generator }) == function_shape(Function { params, rest, directives, body, async_, generator }),
{
}

pub broadcast proof fn lemma_declarator_is(target: Target, init: Option<Rc<Expr>>)
    ensures
        #[trigger] declarator_model(Declarator { target, init }) == declarator_shape(Declarator { target, init }),
{
}

pub broadcast proof fn lemma_declaration_is(kind: VariableKind, declarators: Vec<Declarator>)
    ensures
        #[trigger] declaration_model(Declaration { kind, declarators }) == declaration_shape(Declaration { kind, declarators }),
{
}

pub broadcast proof fn lemma_arm_is(test: Option<Rc<Expr>>, body: Vec<Stmt>)
    ensures
        #[trigger] arm_model(SwitchArm { test, body }) == arm_shape(SwitchArm { test, body }),
{
}

pub broadcast group group_js {
    lemma_item_is_value,
    lemma_item_is_spread,
    lemma_item_is_hole,
    lemma_key_is_name,
    lemma_key_is_text,
    lemma_key_is_number,
    lemma_key_is_computed,
    lemma_member_is_spread,
    lemma_member_is_property,
    lemma_target_is_identifier,
    lemma_target_is_array,
    lemma_target_is_object,
    lemma_target_is_member,
    lemma_jsx_name_is_builtin,
    lemma_jsx_name_is_component,
    lemma_jsx_name_is_fragment,
    lemma_jsx_attr_is_attribute,
    lemma_jsx_attr_is_spread,
    lemma_expr_is_identifier,
    lemma_expr_is_null,
    lemma_expr_is_boolean,
    lemma_expr_is_number,
    lemma_expr_is_text,
    lemma_expr_is_reg_exp,
    lemma_expr_is_template,
    lemma_expr_is_tagged_template,
    lemma_expr_is_binary,
    lemma_expr_is_unary,
    lemma_expr_is_delete,
    lemma_expr_is_logical,
    lemma_expr_is_conditional,
    lemma_expr_is_call,
    lemma_expr_is_new,
    lemma_expr_is_static_member,
    lemma_expr_is_computed_member,
    lemma_expr_is_chain,
    lemma_expr_is_array,
    lemma_expr_is_object,
    lemma_expr_is_assign,
    lemma_expr_is_update,
    lemma_expr_is_sequence,
    lemma_expr_is_parenthesized,
    lemma_expr_is_await,
    lemma_expr_is_meta,
    lemma_expr_is_as,
    lemma_expr_is_satisfies,
    lemma_expr_is_arrow,
    lemma_expr_is_function,
    lemma_expr_is_direct,
    lemma_expr_is_jsx_element,
    lemma_expr_is_jsx_fragment,
    lemma_left_is_declaration,
    lemma_left_is_target,
    lemma_stmt_is_expression,
    lemma_stmt_is_variable,
    lemma_stmt_is_function,
    lemma_stmt_is_return,
    lemma_stmt_is_throw,
    lemma_stmt_is_break,
    lemma_stmt_is_continue,
    lemma_stmt_is_if,
    lemma_stmt_is_block,
    lemma_stmt_is_switch,
    lemma_stmt_is_while,
    lemma_stmt_is_do_while,
    lemma_stmt_is_for,
    lemma_stmt_is_for_of,
    lemma_stmt_is_for_in,
    lemma_stmt_is_labeled,
    lemma_stmt_is_try,
    lemma_stmt_is_debugger,
    lemma_stmt_is_empty,
    lemma_binding_is,
    lemma_jsx_child_is,
    lemma_function_is,
    lemma_declarator_is,
    lemma_declaration_is,
    lemma_arm_is,
    lemma_expr_push,
    lemma_item_push,
    lemma_member_push,
    lemma_binding_push,
    lemma_jsx_attr_push,
    lemma_jsx_child_push,
    lemma_declarator_push,
    lemma_arm_push,
    lemma_stmt_push,
    lemma_expr_empty,
    lemma_item_empty,
    lemma_member_empty,
    lemma_binding_empty,
    lemma_jsx_attr_empty,
    lemma_jsx_child_empty,
    lemma_declarator_empty,
    lemma_arm_empty,
    lemma_stmt_empty,
    lemma_stmt_add,
}

impl View for Expr {
    type V = Ex;

    open spec fn view(&self) -> Ex {
        expr_model(*self)
    }
}

impl View for Stmt {
    type V = St;

    open spec fn view(&self) -> St {
        stmt_model(*self)
    }
}

} // verus!
