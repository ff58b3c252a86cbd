use vstd::prelude::*;

use crate::ids::{ClassId, VarId};
use crate::scope::{SpecSubScope, SubScope};
use crate::table::Table;
use crate::text::copy_path;

verus! {

/// A whole program: its statements, the classes it names, and the variables
/// of its outermost block.
#[derive(Debug)]
pub struct TopLevelBlock {
    pub statements: Vec<Statement>,
    pub str_to_class: Table<String, ClassId>,
    pub path_to_class: Table<Vec<String>, ClassId>,
    pub subscope: SubScope,
}

/// An indented block and the variables it declares.
#[derive(Debug)]
pub struct Block {
    pub sub_scope: SubScope,
    pub statements: Vec<Statement>,
}

/// A method definition.
#[derive(Debug)]
pub struct Method {
    pub args: Vec<VarId>,
    pub ret: Option<ClassId>,
    pub block: Block,
    pub name: String,
}

/// A statement.
#[derive(Debug)]
pub enum Statement {
    // only at the top level
    Method(Method),
    Inherit(ClassId),
    Use(Use),
    // at any depth
    Loop(Block, Value),
    If(Block, Value),
    MethodCall(MethodCall),
    VariableDeclaration(VarId, Value),
}

/// A class brought in under a path.
#[derive(Debug)]
pub struct Use {
    pub path: Vec<String>,
    pub name: ClassId,
}

/// A value.
#[derive(Debug)]
pub struct Value(pub ValueType);

/// The kinds of value. A number literal keeps the text it was written with.
#[derive(Debug)]
pub enum ValueType {
    Method(MethodCall),
    Constructor(ClassId, Vec<Value>),
    Variable(VarId),
    StringLiteral(String),
    NumberLiteral(String),
    Undefined,
    Null,
}

/// A call of a method on a target value.
#[derive(Debug)]
pub struct MethodCall {
    pub args: Vec<Value>,
    pub method_name: String,
    pub target: Box<Value>,
}

/// A value as a mathematical value.
pub enum SpecValue {
    Method(SpecMethodCall),
    Constructor(ClassId, Seq<SpecValue>),
    Variable(VarId),
    StringLiteral(Seq<char>),
    NumberLiteral(Seq<char>),
    Undefined,
    Null,
}

/// A method call as a mathematical value.
pub struct SpecMethodCall {
    pub args: Seq<SpecValue>,
    pub method_name: Seq<char>,
    pub target: Box<SpecValue>,
}

/// A block as a mathematical value.
pub struct SpecBlock {
    pub sub_scope: SpecSubScope,
    pub statements: Seq<SpecStatement>,
}

/// A method definition as a mathematical value.
pub struct SpecMethod {
    pub args: Seq<VarId>,
    pub ret: Option<ClassId>,
    pub block: SpecBlock,
    pub name: Seq<char>,
}

/// A `Use` as a mathematical value.
pub struct SpecUse {
    pub path: Seq<Seq<char>>,
    pub name: ClassId,
}

/// A statement as a mathematical value.
pub enum SpecStatement {
    Method(SpecMethod),
    Inherit(ClassId),
    Use(SpecUse),
    Loop(SpecBlock, SpecValue),
    If(SpecBlock, SpecValue),
    MethodCall(SpecMethodCall),
    VariableDeclaration(VarId, SpecValue),
}

/// A whole program as a mathematical value.
pub struct SpecTopLevelBlock {
    pub statements: Seq<SpecStatement>,
    pub classes: Map<Seq<char>, ClassId>,
    pub paths: Map<Seq<Seq<char>>, ClassId>,
    pub subscope: SpecSubScope,
}

pub open spec fn view_value(v: Value) -> SpecValue
    decreases v, 0nat,
{
    match v.0 {
        ValueType::Method(c) => SpecValue::Method(view_call(c)),
        ValueType::Constructor(c, args) => SpecValue::Constructor(c, view_values(args@)),
        ValueType::Variable(x) => SpecValue::Variable(x),
        ValueType::StringLiteral(s) => SpecValue::StringLiteral(s@),
        ValueType::NumberLiteral(s) => SpecValue::NumberLiteral(s@),
        ValueType::Undefined => SpecValue::Undefined,
        ValueType::Null => SpecValue::Null,
    }
}

pub open spec fn view_call(c: MethodCall) -> SpecMethodCall
    decreases c, 0nat,
{
    SpecMethodCall {
        args: view_values(c.args@),
        method_name: c.method_name@,
        target: Box::new(view_value(*c.target)),
    }
}

pub open spec fn view_values(vs: Seq<Value>) -> Seq<SpecValue>
    decreases vs, 0nat,
{
    if vs.len() == 0 {
        Seq::empty()
    } else {
        view_values(vs.drop_last()).push(view_value(vs.last()))
    }
}

pub open spec fn view_statement(s: Statement) -> SpecStatement
    decreases s, 0nat,
{
    match s {
        Statement::Method(m) => SpecStatement::Method(view_method(m)),
        Statement::Inherit(c) => SpecStatement::Inherit(c),
        Statement::Use(u) => SpecStatement::Use(SpecUse { path: u.path.deep_view(), name: u.name }),
        Statement::Loop(b, v) => SpecStatement::Loop(view_block(b), view_value(v)),
        Statement::If(b, v) => SpecStatement::If(view_block(b), view_value(v)),
        Statement::MethodCall(c) => SpecStatement::MethodCall(view_call(c)),
        Statement::VariableDeclaration(x, v) => SpecStatement::VariableDeclaration(x, view_value(v)),
    }
}

pub open spec fn view_method(m: Method) -> SpecMethod
    decreases m, 0nat,
{
    SpecMethod { args: m.args@, ret: m.ret, block: view_block(m.block), name: m.name@ }
}

pub open spec fn view_block(b: Block) -> SpecBlock
    decreases b, 0nat,
{
    SpecBlock { sub_scope: b.sub_scope@, statements: view_statements(b.statements@) }
}

pub open spec fn view_statements(ss: Seq<Statement>) -> Seq<SpecStatement>
    decreases ss, 0nat,
{
    if ss.len() == 0 {
        Seq::empty()
    } else {
        view_statements(ss.drop_last()).push(view_statement(ss.last()))
    }
}

impl View for Value {
    type V = SpecValue;

    open spec fn view(&self) -> SpecValue {
        view_value(*self)
    }
}

impl View for MethodCall {
    type V = SpecMethodCall;

    open spec fn view(&self) -> SpecMethodCall {
        view_call(*self)
    }
}

impl View for Statement {
    type V = SpecStatement;

    open spec fn view(&self) -> SpecStatement {
        view_statement(*self)
    }
}

impl View for Block {
    type V = SpecBlock;

    open spec fn view(&self) -> SpecBlock {
        view_block(*self)
    }
}

impl View for Method {
    type V = SpecMethod;

    open spec fn view(&self) -> SpecMethod {
        view_method(*self)
    }
}

impl View for TopLevelBlock {
    type V = SpecTopLevelBlock;

    open spec fn view(&self) -> SpecTopLevelBlock {
        SpecTopLevelBlock {
            statements: view_statements(self.statements@),
            classes: self.str_to_class.view(),
            paths: self.path_to_class.view(),
            subscope: self.subscope@,
        }
    }
}

/// Every table in the statement's nested blocks keeps its invariant.
pub open spec fn statement_wf(s: Statement) -> bool
    decreases s, 0nat,
{
    match s {
        Statement::Method(m) => block_wf(m.block),
        Statement::Loop(b, _) => block_wf(b),
        Statement::If(b, _) => block_wf(b),
        _ => true,
    }
}

/// The block's tables, and those of its statements, keep their invariant.
pub open spec fn block_wf(b: Block) -> bool
    decreases b, 0nat,
{
    b.sub_scope.wf() && statements_wf(b.statements@)
}

/// Every statement keeps `statement_wf`.
pub open spec fn statements_wf(ss: Seq<Statement>) -> bool
    decreases ss, 0nat,
{
    forall|i: int| 0 <= i < ss.len() ==> statement_wf(#[trigger] ss[i])
}

impl TopLevelBlock {
    /// Every table of the program keeps its invariant.
    pub open spec fn wf(&self) -> bool {
        &&& statements_wf(self.statements@)
        &&& self.str_to_class.wf()
        &&& self.path_to_class.wf()
        &&& self.subscope.wf()
    }
}

fn clone_value(v: &Value) -> (r: Value)
    ensures
        r@ == v@,
    decreases *v,
{
    Value(clone_kind(&v.0))
}

fn clone_kind(t: &ValueType) -> (r: ValueType)
    ensures
        view_value(Value(r)) == view_value(Value(*t)),
    decreases *t,
{
    match t {
        ValueType::Method(c) => ValueType::Method(clone_call(c)),
        ValueType::Constructor(c, args) => ValueType::Constructor(*c, clone_values(args)),
        ValueType::Variable(x) => ValueType::Variable(*x),
        ValueType::StringLiteral(s) => ValueType::StringLiteral(s.clone()),
        ValueType::NumberLiteral(s) => ValueType::NumberLiteral(s.clone()),
        ValueType::Undefined => ValueType::Undefined,
        ValueType::Null => ValueType::Null,
    }
}

fn clone_call(c: &MethodCall) -> (r: MethodCall)
    ensures
        r@ == c@,
    decreases *c,
{
    let target = clone_value(&*c.target);
    let r = MethodCall {
        args: clone_values(&c.args),
        method_name: c.method_name.clone(),
        target: Box::new(target),
    };
    assert(r@.target == Box::new(target@));
    r
}

fn clone_values(vs: &Vec<Value>) -> (r: Vec<Value>)
    ensures
        view_values(r@) == view_values(vs@),
    decreases *vs,
{
    let mut out: Vec<Value> = Vec::new();
    let mut i: usize = 0;
    while i < vs.len()
        invariant
            i <= vs@.len(),
            view_values(out@) == view_values(vs@.take(i as int)),
        decreases vs@.len() - i,
    {
        assert(decreases_to!(*vs => vs@[i as int]));
        let x = clone_value(&vs[i]);
        proof {
            assert(out@.push(x).drop_last() =~= out@);
            assert(vs@.take(i + 1).drop_last() =~= vs@.take(i as int));
        }
        out.push(x);
        i = i + 1;
    }
    assert(vs@.take(i as int) =~= vs@);
    out
}

impl Clone for Value {
    /// A copy of the value.
    fn clone(&self) -> (r: Value)
        ensures
            r@ == self@,
    {
        clone_value(self)
    }
}

impl Clone for MethodCall {
    /// A copy of the call.
    fn clone(&self) -> (r: MethodCall)
        ensures
            r@ == self@,
    {
        clone_call(self)
    }
}

impl Clone for ValueType {
    /// A copy of the kind of value.
    fn clone(&self) -> (r: ValueType)
        ensures
            view_value(Value(r)) == view_value(Value(*self)),
    {
        clone_kind(self)
    }
}

fn clone_statement(st: &Statement) -> (r: Statement)
    ensures
        r@ == st@,
        statement_wf(*st) ==> statement_wf(r),
    decreases *st,
{
    match st {
        Statement::Method(m) => Statement::Method(clone_method(m)),
        Statement::Inherit(c) => Statement::Inherit(*c),
        Statement::Use(u) => Statement::Use(u.clone()),
        Statement::Loop(b, v) => Statement::Loop(clone_block(b), clone_value(v)),
        Statement::If(b, v) => Statement::If(clone_block(b), clone_value(v)),
        Statement::MethodCall(c) => Statement::MethodCall(clone_call(c)),
        Statement::VariableDeclaration(x, v) => Statement::VariableDeclaration(*x, clone_value(v)),
    }
}

fn clone_method(m: &Method) -> (r: Method)
    ensures
        r@ == m@,
        block_wf(m.block) ==> block_wf(r.block),
    decreases *m,
{
    let mut args: Vec<VarId> = Vec::new();
    let mut i: usize = 0;
    while i < m.args.len()
        invariant
            i <= m.args@.len(),
            args@ == m.args@.take(i as int),
        decreases m.args@.len() - i,
    {
        args.push(m.args[i]);
        assert(args@ =~= m.args@.take(i + 1));
        i = i + 1;
    }
    assert(m.args@.take(i as int) =~= m.args@);
    Method { args, ret: m.ret, block: clone_block(&m.block), name: m.name.clone() }
}

fn clone_block(b: &Block) -> (r: Block)
    ensures
        r@ == b@,
        block_wf(*b) ==> block_wf(r),
    decreases *b,
{
    Block { sub_scope: b.sub_scope.clone(), statements: clone_statements(&b.statements) }
}

fn clone_statements(ss: &Vec<Statement>) -> (r: Vec<Statement>)
    ensures
        view_statements(r@) == view_statements(ss@),
        statements_wf(ss@) ==> statements_wf(r@),
    decreases *ss,
{
    let mut out: Vec<Statement> = Vec::new();
    let mut i: usize = 0;
    while i < ss.len()
        invariant
            i <= ss@.len(),
            out@.len() == i,
            view_statements(out@) == view_statements(ss@.take(i as int)),
            forall|j: int| 0 <= j < i ==> statement_wf(ss@[j]) ==> statement_wf(#[trigger] out@[j]),
        decreases ss@.len() - i,
    {
        assert(decreases_to!(*ss => ss@[i as int]));
        let x = clone_statement(&ss[i]);
        proof {
            assert(out@.push(x).drop_last() =~= out@);
            assert(ss@.take(i + 1).drop_last() =~= ss@.take(i as int));
        }
        out.push(x);
        i = i + 1;
    }
    assert(ss@.take(i as int) =~= ss@);
    proof {
        if statements_wf(ss@) {
            assert forall|j: int| 0 <= j < out@.len() implies statement_wf(#[trigger] out@[j]) by {
                assert(statement_wf(ss@[j]));
            }
        }
    }
    out
}

impl Clone for Use {
    /// A copy of the `Use`.
    fn clone(&self) -> (r: Use)
        ensures
            r.path.deep_view() == self.path.deep_view(),
            r.name == self.name,
    {
        Use { path: copy_path(&self.path), name: self.name }
    }
}

impl Clone for Statement {
    /// A copy of the statement.
    fn clone(&self) -> (r: Statement)
        ensures
            r@ == self@,
            statement_wf(*self) ==> statement_wf(r),
    {
        clone_statement(self)
    }
}

impl Clone for Block {
    /// A copy of the block.
    fn clone(&self) -> (r: Block)
        ensures
            r@ == self@,
            block_wf(*self) ==> block_wf(r),
    {
        clone_block(self)
    }
}

impl Clone for Method {
    /// A copy of the method.
    fn clone(&self) -> (r: Method)
        ensures
            r@ == self@,
            block_wf(self.block) ==> block_wf(r.block),
    {
        clone_method(self)
    }
}

impl Clone for TopLevelBlock {
    /// A copy of the program.
    fn clone(&self) -> (r: TopLevelBlock)
        ensures
            r@ == self@,
            self.wf() ==> r.wf(),
    {
        TopLevelBlock {
            statements: clone_statements(&self.statements),
            str_to_class: self.str_to_class.clone(),
            path_to_class: self.path_to_class.clone(),
            subscope: self.subscope.clone(),
        }
    }
}

} // verus!
