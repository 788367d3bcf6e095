//! The syntax tree that the rules rewrite, and its mathematical model.
//!
//! Every node type has a `view` into a ghost twin (`SBlock`, `SStatement`, ...)
//! in which vectors become sequences and strings become character sequences.
//! The contracts of the rules are stated over these models.
use vstd::prelude::*;

verus! {

#[derive(Debug, Clone, Copy, PartialEq, Eq, Structural)]
pub enum UnaryOperator {
    Minus,
    Length,
    Not,
}

#[derive(Debug, Clone, Copy, PartialEq, Eq, Structural)]
pub enum BinaryOperator {
    And,
    Or,
    Equal,
    NotEqual,
    LowerThan,
    LowerOrEqualThan,
    GreaterThan,
    GreaterOrEqualThan,
    Plus,
    Minus,
    Asterisk,
    Slash,
    DoubleSlash,
    Percent,
    Caret,
    Concat,
    DoubleGreaterThan,
}

/// A type annotation. It has no effect at run time.
#[derive(Debug, PartialEq)]
pub enum Type {
    Name(String),
    Field { namespace: String, name: String },
    Array(Box<Type>),
    Table,
    Function,
    True,
    False,
    Nil,
    String(String),
    Intersection(Box<Type>, Box<Type>),
    Union(Box<Type>, Box<Type>),
    Optional(Box<Type>),
    Parenthese(Box<Type>),
}

/// A name with an optional type annotation.
#[derive(Debug, PartialEq)]
pub struct TypedIdentifier {
    pub name: String,
    pub type_annotation: Option<Type>,
}

/// An ordered sequence of statements with an optional terminal statement.
#[derive(Debug, PartialEq)]
pub struct Block {
    pub statements: Vec<Statement>,
    pub last_statement: Option<LastStatement>,
}

#[derive(Debug, PartialEq)]
pub enum LastStatement {
    Break,
    Continue,
    Return(Vec<Expression>),
}

#[derive(Debug, PartialEq)]
pub struct IfBranch {
    pub condition: Expression,
    pub block: Block,
}

/// A call `prefix(arguments)`, or `prefix:method(arguments)` when a method is named.
#[derive(Debug, PartialEq)]
pub struct FunctionCall {
    pub prefix: Box<Expression>,
    pub method: Option<String>,
    pub arguments: Vec<Expression>,
}

#[derive(Debug, PartialEq)]
pub struct FunctionExpression {
    pub parameters: Vec<TypedIdentifier>,
    pub is_variadic: bool,
    pub block: Block,
}

#[derive(Debug, PartialEq)]
pub enum TableEntry {
    /// A positional value.
    Value(Expression),
    /// An explicit `[key] = value` entry.
    Index { key: Expression, value: Expression },
    /// A named `field = value` entry.
    Field { name: String, value: Expression },
}

#[derive(Debug, PartialEq)]
pub enum Expression {
    Nil,
    True,
    False,
    /// An integer literal.
    Number(u64),
    /// Any other numeric literal, kept as written.
    Decimal(String),
    String(String),
    VariableArguments,
    Identifier(String),
    Unary { operator: UnaryOperator, operand: Box<Expression> },
    Binary { operator: BinaryOperator, left: Box<Expression>, right: Box<Expression> },
    Parenthese(Box<Expression>),
    Table(Vec<TableEntry>),
    Function(Box<FunctionExpression>),
    Call(FunctionCall),
    Field { prefix: Box<Expression>, field: String },
    Index { prefix: Box<Expression>, index: Box<Expression> },
}

#[derive(Debug, PartialEq)]
pub enum Statement {
    /// `variables = values`; each variable is an identifier, field or index expression.
    Assign { variables: Vec<Expression>, values: Vec<Expression> },
    CompoundAssign { operator: BinaryOperator, variable: Expression, value: Expression },
    LocalAssign { variables: Vec<TypedIdentifier>, values: Vec<Expression> },
    LocalFunction { name: String, function: FunctionExpression },
    Function { name: String, function: FunctionExpression },
    Call(FunctionCall),
    If { branches: Vec<IfBranch>, else_block: Option<Block> },
    While { condition: Expression, block: Block },
    Repeat { block: Block, condition: Expression },
    NumericFor {
        identifier: TypedIdentifier,
        start: Expression,
        end: Expression,
        step: Option<Expression>,
        block: Block,
    },
    GenericFor { identifiers: Vec<TypedIdentifier>, expressions: Vec<Expression>, block: Block },
    Do(Block),
}

// ----- the model -----

pub enum SType {
    Name(Seq<char>),
    Field { namespace: Seq<char>, name: Seq<char> },
    Array(Box<SType>),
    Table,
    Function,
    True,
    False,
    Nil,
    String(Seq<char>),
    Intersection(Box<SType>, Box<SType>),
    Union(Box<SType>, Box<SType>),
    Optional(Box<SType>),
    Parenthese(Box<SType>),
}

pub struct STyped {
    pub name: Seq<char>,
    pub type_annotation: Option<SType>,
}

pub struct SBlock {
    pub statements: Seq<SStatement>,
    pub last_statement: Option<SLast>,
}

pub enum SLast {
    Break,
    Continue,
    Return(Seq<SExpression>),
}

pub struct SBranch {
    pub condition: SExpression,
    pub block: SBlock,
}

pub struct SCall {
    pub prefix: Box<SExpression>,
    pub method: Option<Seq<char>>,
    pub arguments: Seq<SExpression>,
}

pub struct SFunction {
    pub parameters: Seq<STyped>,
    pub is_variadic: bool,
    pub block: SBlock,
}

pub enum SEntry {
    Value(SExpression),
    Index { key: SExpression, value: SExpression },
    Field { name: Seq<char>, value: SExpression },
}

pub enum SExpression {
    Nil,
    True,
    False,
    Number(u64),
    Decimal(Seq<char>),
    String(Seq<char>),
    VariableArguments,
    Identifier(Seq<char>),
    Unary { operator: UnaryOperator, operand: Box<SExpression> },
    Binary { operator: BinaryOperator, left: Box<SExpression>, right: Box<SExpression> },
    Parenthese(Box<SExpression>),
    Table(Seq<SEntry>),
    Function(Box<SFunction>),
    Call(SCall),
    Field { prefix: Box<SExpression>, field: Seq<char> },
    Index { prefix: Box<SExpression>, index: Box<SExpression> },
}

pub enum SStatement {
    Assign { variables: Seq<SExpression>, values: Seq<SExpression> },
    CompoundAssign { operator: BinaryOperator, variable: SExpression, value: SExpression },
    LocalAssign { variables: Seq<STyped>, values: Seq<SExpression> },
    LocalFunction { name: Seq<char>, function: SFunction },
    Function { name: Seq<char>, function: SFunction },
    Call(SCall),
    If { branches: Seq<SBranch>, else_block: Option<SBlock> },
    While { condition: SExpression, block: SBlock },
    Repeat { block: SBlock, condition: SExpression },
    NumericFor {
        identifier: STyped,
        start: SExpression,
        end: SExpression,
        step: Option<SExpression>,
        block: SBlock,
    },
    GenericFor { identifiers: Seq<STyped>, expressions: Seq<SExpression>, block: SBlock },
    Do(SBlock),
}

// ----- views -----

impl Type {
    pub open spec fn view(&self) -> SType
        decreases self,
    {
        match self {
            Type::Name(n) => SType::Name(n@),
            Type::Field { namespace, name } => SType::Field { namespace: namespace@, name: name@ },
            Type::Array(t) => SType::Array(Box::new(t.view())),
            Type::Table => SType::Table,
            Type::Function => SType::Function,
            Type::True => SType::True,
            Type::False => SType::False,
            Type::Nil => SType::Nil,
            Type::String(s) => SType::String(s@),
            Type::Intersection(l, r) => SType::Intersection(Box::new(l.view()), Box::new(r.view())),
            Type::Union(l, r) => SType::Union(Box::new(l.view()), Box::new(r.view())),
            Type::Optional(t) => SType::Optional(Box::new(t.view())),
            Type::Parenthese(t) => SType::Parenthese(Box::new(t.view())),
        }
    }
}

pub open spec fn type_opt_view(t: Option<Type>) -> Option<SType> {
    match t {
        Some(t) => Some(t.view()),
        None => None,
    }
}

impl TypedIdentifier {
    pub open spec fn view(&self) -> STyped {
        STyped { name: self.name@, type_annotation: type_opt_view(self.type_annotation) }
    }
}

pub open spec fn typeds_view(v: Seq<TypedIdentifier>) -> Seq<STyped> {
    Seq::new(v.len(), |i: int| v[i].view())
}

pub open spec fn string_opt_view(s: Option<String>) -> Option<Seq<char>> {
    match s {
        Some(s) => Some(s@),
        None => None,
    }
}

impl Expression {
    pub open spec fn view(&self) -> SExpression
        decreases self,
    {
        match self {
            Expression::Nil => SExpression::Nil,
            Expression::True => SExpression::True,
            Expression::False => SExpression::False,
            Expression::Number(n) => SExpression::Number(*n),
            Expression::Decimal(s) => SExpression::Decimal(s@),
            Expression::String(s) => SExpression::String(s@),
            Expression::VariableArguments => SExpression::VariableArguments,
            Expression::Identifier(s) => SExpression::Identifier(s@),
            Expression::Unary { operator, operand } => SExpression::Unary {
                operator: *operator,
                operand: Box::new(operand.view()),
            },
            Expression::Binary { operator, left, right } => SExpression::Binary {
                operator: *operator,
                left: Box::new(left.view()),
                right: Box::new(right.view()),
            },
            Expression::Parenthese(e) => SExpression::Parenthese(Box::new(e.view())),
            Expression::Table(entries) => SExpression::Table(
                Seq::new(
                    entries@.len(),
                    |i: int|
                        if 0 <= i < entries@.len() {
                            entries@[i].view()
                        } else {
                            SEntry::Value(SExpression::Nil)
                        },
                ),
            ),
            Expression::Function(f) => SExpression::Function(Box::new(f.view())),
            Expression::Call(c) => SExpression::Call(c.view()),
            Expression::Field { prefix, field } => SExpression::Field {
                prefix: Box::new(prefix.view()),
                field: field@,
            },
            Expression::Index { prefix, index } => SExpression::Index {
                prefix: Box::new(prefix.view()),
                index: Box::new(index.view()),
            },
        }
    }
}

impl TableEntry {
    pub open spec fn view(&self) -> SEntry
        decreases self,
    {
        match self {
            TableEntry::Value(e) => SEntry::Value(e.view()),
            TableEntry::Index { key, value } => SEntry::Index { key: key.view(), value: value.view() },
            TableEntry::Field { name, value } => SEntry::Field { name: name@, value: value.view() },
        }
    }
}

impl FunctionCall {
    pub open spec fn view(&self) -> SCall
        decreases self,
    {
        SCall {
            prefix: Box::new(self.prefix.view()),
            method: string_opt_view(self.method),
            arguments: Seq::new(
                self.arguments@.len(),
                |i: int|
                    if 0 <= i < self.arguments@.len() {
                        self.arguments@[i].view()
                    } else {
                        SExpression::Nil
                    },
            ),
        }
    }
}

impl FunctionExpression {
    pub open spec fn view(&self) -> SFunction
        decreases self,
    {
        SFunction {
            parameters: typeds_view(self.parameters@),
            is_variadic: self.is_variadic,
            block: self.block.view(),
        }
    }
}

impl LastStatement {
    pub open spec fn view(&self) -> SLast
        decreases self,
    {
        match self {
            LastStatement::Break => SLast::Break,
            LastStatement::Continue => SLast::Continue,
            LastStatement::Return(v) => SLast::Return(
                Seq::new(
                    v@.len(),
                    |i: int|
                        if 0 <= i < v@.len() {
                            v@[i].view()
                        } else {
                            SExpression::Nil
                        },
                ),
            ),
        }
    }
}

impl IfBranch {
    pub open spec fn view(&self) -> SBranch
        decreases self,
    {
        SBranch { condition: self.condition.view(), block: self.block.view() }
    }
}

impl Block {
    pub open spec fn view(&self) -> SBlock
        decreases self,
    {
        SBlock {
            statements: Seq::new(
                self.statements@.len(),
                |i: int|
                    if 0 <= i < self.statements@.len() {
                        self.statements@[i].view()
                    } else {
                        SStatement::Do(SBlock { statements: seq![], last_statement: None })
                    },
            ),
            last_statement: match self.last_statement {
                Some(l) => Some(l.view()),
                None => None,
            },
        }
    }
}

impl Statement {
    pub open spec fn view(&self) -> SStatement
        decreases self,
    {
        match self {
            Statement::Assign { variables, values } => SStatement::Assign {
                variables: Seq::new(
                    variables@.len(),
                    |i: int|
                        if 0 <= i < variables@.len() {
                            variables@[i].view()
                        } else {
                            SExpression::Nil
                        },
                ),
                values: Seq::new(
                    values@.len(),
                    |i: int|
                        if 0 <= i < values@.len() {
                            values@[i].view()
                        } else {
                            SExpression::Nil
                        },
                ),
            },
            Statement::CompoundAssign { operator, variable, value } => SStatement::CompoundAssign {
                operator: *operator,
                variable: variable.view(),
                value: value.view(),
            },
            Statement::LocalAssign { variables, values } => SStatement::LocalAssign {
                variables: typeds_view(variables@),
                values: Seq::new(
                    values@.len(),
                    |i: int|
                        if 0 <= i < values@.len() {
                            values@[i].view()
                        } else {
                            SExpression::Nil
                        },
                ),
            },
            Statement::LocalFunction { name, function } => SStatement::LocalFunction {
                name: name@,
                function: function.view(),
            },
            Statement::Function { name, function } => SStatement::Function {
                name: name@,
                function: function.view(),
            },
            Statement::Call(c) => SStatement::Call(c.view()),
            Statement::If { branches, else_block } => SStatement::If {
                branches: Seq::new(
                    branches@.len(),
                    |i: int|
                        if 0 <= i < branches@.len() {
                            branches@[i].view()
                        } else {
                            SBranch {
                                condition: SExpression::Nil,
                                block: SBlock { statements: seq![], last_statement: None },
                            }
                        },
                ),
                else_block: match else_block {
                    Some(b) => Some(b.view()),
                    None => None,
                },
            },
            Statement::While { condition, block } => SStatement::While {
                condition: condition.view(),
                block: block.view(),
            },
            Statement::Repeat { block, condition } => SStatement::Repeat {
                block: block.view(),
                condition: condition.view(),
            },
            Statement::NumericFor { identifier, start, end, step, block } => SStatement::NumericFor {
                identifier: identifier.view(),
                start: start.view(),
                end: end.view(),
                step: match step {
                    Some(s) => Some(s.view()),
                    None => None,
                },
                block: block.view(),
            },
            Statement::GenericFor { identifiers, expressions, block } => SStatement::GenericFor {
                identifiers: typeds_view(identifiers@),
                expressions: Seq::new(
                    expressions@.len(),
                    |i: int|
                        if 0 <= i < expressions@.len() {
                            expressions@[i].view()
                        } else {
                            SExpression::Nil
                        },
                ),
                block: block.view(),
            },
            Statement::Do(b) => SStatement::Do(b.view()),
        }
    }
}

// ----- copies -----

pub open spec fn same_expressions(a: Seq<Expression>, b: Seq<Expression>) -> bool {
    a.len() == b.len() && forall|i: int| 0 <= i < a.len() ==> #[trigger] a[i].view() == b[i].view()
}

fn copy_string(s: &String) -> (r: String)
    ensures
        r@ == s@,
{
    s.clone()
}

fn copy_string_option(s: &Option<String>) -> (r: Option<String>)
    ensures
        string_opt_view(r) == string_opt_view(*s),
{
    match s {
        Some(s) => Some(s.clone()),
        None => None,
    }
}

pub fn copy_expressions(v: &Vec<Expression>) -> (r: Vec<Expression>)
    ensures
        same_expressions(r@, v@),
    decreases v,
{
    let mut out: Vec<Expression> = Vec::new();
    let mut i: usize = 0;
    while i < v.len()
        invariant
            i <= v@.len(),
            out@.len() == i,
            forall|j: int| 0 <= j < i ==> #[trigger] out@[j].view() == v@[j].view(),
        decreases v@.len() - i,
    {
        assert(decreases_to!(v => v[i as int]));
        let e = v[i].duplicate();
        out.push(e);
        i += 1;
    }
    out
}

pub fn copy_typeds(v: &Vec<TypedIdentifier>) -> (r: Vec<TypedIdentifier>)
    ensures
        typeds_view(r@) == typeds_view(v@),
{
    let mut out: Vec<TypedIdentifier> = Vec::new();
    let mut i: usize = 0;
    while i < v.len()
        invariant
            i <= v@.len(),
            out@.len() == i,
            forall|j: int| 0 <= j < i ==> #[trigger] out@[j].view() == v@[j].view(),
        decreases v@.len() - i,
    {
        out.push(v[i].duplicate());
        i += 1;
    }
    assert(typeds_view(out@) =~= typeds_view(v@));
    out
}

pub fn copy_entries(v: &Vec<TableEntry>) -> (r: Vec<TableEntry>)
    ensures
        r@.len() == v@.len(),
        forall|i: int| 0 <= i < v@.len() ==> #[trigger] r@[i].view() == v@[i].view(),
    decreases v,
{
    let mut out: Vec<TableEntry> = Vec::new();
    let mut i: usize = 0;
    while i < v.len()
        invariant
            i <= v@.len(),
            out@.len() == i,
            forall|j: int| 0 <= j < i ==> #[trigger] out@[j].view() == v@[j].view(),
        decreases v@.len() - i,
    {
        assert(decreases_to!(v => v[i as int]));
        out.push(v[i].duplicate());
        i += 1;
    }
    out
}

pub fn copy_branches(v: &Vec<IfBranch>) -> (r: Vec<IfBranch>)
    ensures
        r@.len() == v@.len(),
        forall|i: int| 0 <= i < v@.len() ==> #[trigger] r@[i].view() == v@[i].view(),
    decreases v,
{
    let mut out: Vec<IfBranch> = Vec::new();
    let mut i: usize = 0;
    while i < v.len()
        invariant
            i <= v@.len(),
            out@.len() == i,
            forall|j: int| 0 <= j < i ==> #[trigger] out@[j].view() == v@[j].view(),
        decreases v@.len() - i,
    {
        assert(decreases_to!(v => v[i as int]));
        out.push(v[i].duplicate());
        i += 1;
    }
    out
}

impl Type {
    pub fn duplicate(&self) -> (r: Type)
        ensures
            r.view() == self.view(),
        decreases self,
    {
        match self {
            Type::Name(n) => Type::Name(copy_string(n)),
            Type::Field { namespace, name } => Type::Field {
                namespace: copy_string(namespace),
                name: copy_string(name),
            },
            Type::Array(t) => Type::Array(Box::new(t.duplicate())),
            Type::Table => Type::Table,
            Type::Function => Type::Function,
            Type::True => Type::True,
            Type::False => Type::False,
            Type::Nil => Type::Nil,
            Type::String(s) => Type::String(copy_string(s)),
            Type::Intersection(l, r) => Type::Intersection(Box::new(l.duplicate()), Box::new(r.duplicate())),
            Type::Union(l, r) => Type::Union(Box::new(l.duplicate()), Box::new(r.duplicate())),
            Type::Optional(t) => Type::Optional(Box::new(t.duplicate())),
            Type::Parenthese(t) => Type::Parenthese(Box::new(t.duplicate())),
        }
    }
}

impl TypedIdentifier {
    pub fn duplicate(&self) -> (r: TypedIdentifier)
        ensures
            r.view() == self.view(),
    {
        TypedIdentifier {
            name: copy_string(&self.name),
            type_annotation: match &self.type_annotation {
                Some(t) => Some(t.duplicate()),
                None => None,
            },
        }
    }
}

impl Expression {
    pub fn duplicate(&self) -> (r: Expression)
        ensures
            r.view() == self.view(),
        decreases self,
    {
        match self {
            Expression::Nil => Expression::Nil,
            Expression::True => Expression::True,
            Expression::False => Expression::False,
            Expression::Number(n) => Expression::Number(*n),
            Expression::Decimal(s) => Expression::Decimal(copy_string(s)),
            Expression::String(s) => Expression::String(copy_string(s)),
            Expression::VariableArguments => Expression::VariableArguments,
            Expression::Identifier(s) => Expression::Identifier(copy_string(s)),
            Expression::Unary { operator, operand } => Expression::Unary {
                operator: *operator,
                operand: Box::new(operand.duplicate()),
            },
            Expression::Binary { operator, left, right } => Expression::Binary {
                operator: *operator,
                left: Box::new(left.duplicate()),
                right: Box::new(right.duplicate()),
            },
            Expression::Parenthese(e) => Expression::Parenthese(Box::new(e.duplicate())),
            Expression::Table(entries) => {
                let out = copy_entries(entries);
                let r = Expression::Table(out);
                assert(forall|j: int| 0 <= j < out@.len() ==> r.view()->Table_0[j] == out@[j].view());
                assert(r.view()->Table_0 =~= self.view()->Table_0);
                r
            },
            Expression::Function(f) => Expression::Function(Box::new(f.duplicate())),
            Expression::Call(c) => Expression::Call(c.duplicate()),
            Expression::Field { prefix, field } => Expression::Field {
                prefix: Box::new(prefix.duplicate()),
                field: copy_string(field),
            },
            Expression::Index { prefix, index } => Expression::Index {
                prefix: Box::new(prefix.duplicate()),
                index: Box::new(index.duplicate()),
            },
        }
    }
}

impl TableEntry {
    pub fn duplicate(&self) -> (r: TableEntry)
        ensures
            r.view() == self.view(),
        decreases self,
    {
        match self {
            TableEntry::Value(e) => TableEntry::Value(e.duplicate()),
            TableEntry::Index { key, value } => TableEntry::Index {
                key: key.duplicate(),
                value: value.duplicate(),
            },
            TableEntry::Field { name, value } => TableEntry::Field {
                name: copy_string(name),
                value: value.duplicate(),
            },
        }
    }
}

impl FunctionCall {
    pub fn duplicate(&self) -> (r: FunctionCall)
        ensures
            r.view() == self.view(),
        decreases self,
    {
        let arguments = copy_expressions(&self.arguments);
        let r = FunctionCall {
            prefix: Box::new(self.prefix.duplicate()),
            method: copy_string_option(&self.method),
            arguments,
        };
        assert(forall|j: int| 0 <= j < r.arguments@.len() ==> r.view().arguments[j] == r.arguments@[j].view());
        assert(r.view().arguments =~= self.view().arguments);
        r
    }
}

impl FunctionExpression {
    pub fn duplicate(&self) -> (r: FunctionExpression)
        ensures
            r.view() == self.view(),
        decreases self,
    {
        FunctionExpression {
            parameters: copy_typeds(&self.parameters),
            is_variadic: self.is_variadic,
            block: self.block.duplicate(),
        }
    }
}

impl LastStatement {
    pub fn duplicate(&self) -> (r: LastStatement)
        ensures
            r.view() == self.view(),
        decreases self,
    {
        match self {
            LastStatement::Break => LastStatement::Break,
            LastStatement::Continue => LastStatement::Continue,
            LastStatement::Return(v) => {
                let c = copy_expressions(v);
                let r = LastStatement::Return(c);
                assert(forall|j: int| 0 <= j < c@.len() ==> r.view()->Return_0[j] == c@[j].view());
                assert(r.view()->Return_0 =~= self.view()->Return_0);
                r
            },
        }
    }
}

impl IfBranch {
    pub fn duplicate(&self) -> (r: IfBranch)
        ensures
            r.view() == self.view(),
        decreases self,
    {
        IfBranch { condition: self.condition.duplicate(), block: self.block.duplicate() }
    }
}

impl Block {
    pub fn duplicate(&self) -> (r: Block)
        ensures
            r.view() == self.view(),
        decreases self,
    {
        let mut out: Vec<Statement> = Vec::new();
        let mut i: usize = 0;
        while i < self.statements.len()
            invariant
                i <= self.statements@.len(),
                out@.len() == i,
                forall|j: int| 0 <= j < i ==> #[trigger] out@[j].view() == self.statements@[j].view(),
            decreases self.statements@.len() - i,
        {
            assert(decreases_to!(self.statements => self.statements[i as int]));
            out.push(self.statements[i].duplicate());
            i += 1;
        }
        let last_statement = match &self.last_statement {
            Some(l) => Some(l.duplicate()),
            None => None,
        };
        let r = Block { statements: out, last_statement };
        assert(r.view().statements.len() == out@.len());
        assert(forall|j: int| 0 <= j < out@.len() ==> r.view().statements[j] == out@[j].view());
        assert(r.view().statements =~= self.view().statements);
        r
    }
}

impl Statement {
    pub fn duplicate(&self) -> (r: Statement)
        ensures
            r.view() == self.view(),
        decreases self,
    {
        match self {
            Statement::Assign { variables, values } => {
                let a = copy_expressions(variables);
                let b = copy_expressions(values);
                let r = Statement::Assign { variables: a, values: b };
                assert(forall|j: int| 0 <= j < a@.len() ==> r.view()->Assign_variables[j] == a@[j].view());
                assert(forall|j: int| 0 <= j < b@.len() ==> r.view()->Assign_values[j] == b@[j].view());
                assert(r.view()->Assign_variables =~= self.view()->Assign_variables);
                assert(r.view()->Assign_values =~= self.view()->Assign_values);
                r
            },
            Statement::CompoundAssign { operator, variable, value } => Statement::CompoundAssign {
                operator: *operator,
                variable: variable.duplicate(),
                value: value.duplicate(),
            },
            Statement::LocalAssign { variables, values } => {
                let b = copy_expressions(values);
                let r = Statement::LocalAssign { variables: copy_typeds(variables), values: b };
                assert(forall|j: int| 0 <= j < b@.len() ==> r.view()->LocalAssign_values[j] == b@[j].view());
                assert(r.view()->LocalAssign_values =~= self.view()->LocalAssign_values);
                r
            },
            Statement::LocalFunction { name, function } => Statement::LocalFunction {
                name: copy_string(name),
                function: function.duplicate(),
            },
            Statement::Function { name, function } => Statement::Function {
                name: copy_string(name),
                function: function.duplicate(),
            },
            Statement::Call(c) => Statement::Call(c.duplicate()),
            Statement::If { branches, else_block } => {
                let out = copy_branches(branches);
                let else_block = match else_block {
                    Some(b) => Some(b.duplicate()),
                    None => None,
                };
                let r = Statement::If { branches: out, else_block };
                assert(forall|j: int| 0 <= j < out@.len() ==> r.view()->If_branches[j] == out@[j].view());
                assert(r.view()->If_branches =~= self.view()->If_branches);
                r
            },
            Statement::While { condition, block } => Statement::While {
                condition: condition.duplicate(),
                block: block.duplicate(),
            },
            Statement::Repeat { block, condition } => Statement::Repeat {
                block: block.duplicate(),
                condition: condition.duplicate(),
            },
            Statement::NumericFor { identifier, start, end, step, block } => Statement::NumericFor {
                identifier: identifier.duplicate(),
                start: start.duplicate(),
                end: end.duplicate(),
                step: match step {
                    Some(s) => Some(s.duplicate()),
                    None => None,
                },
                block: block.duplicate(),
            },
            Statement::GenericFor { identifiers, expressions, block } => {
                let b = copy_expressions(expressions);
                let r = Statement::GenericFor {
                    identifiers: copy_typeds(identifiers),
                    expressions: b,
                    block: block.duplicate(),
                };
                assert(forall|j: int| 0 <= j < b@.len() ==> r.view()->GenericFor_expressions[j] == b@[j].view());
                assert(r.view()->GenericFor_expressions =~= self.view()->GenericFor_expressions);
                r
            },
            Statement::Do(b) => Statement::Do(b.duplicate()),
        }
    }
}

} // verus!
