//! The abstract syntax tree shared by the parser and the evaluator, together
//! with the mathematical model (`Spec*` types) that contracts are stated over.

use vstd::prelude::*;

verus! {

/// A type tag, used as a function's return annotation and in diagnostics.
#[derive(Clone, Copy, Debug, PartialEq, Eq, Structural)]
pub enum Type {
    Array,
    Bool,
    Int,
    Str,
    Void,
}

impl Type {
    /// The text of `as_string_with_article`.
    pub open spec fn spec_article(self) -> Seq<char> {
        match self {
            Type::Array => "an array"@,
            Type::Bool => "a boolean"@,
            Type::Int => "an int"@,
            Type::Str => "a string"@,
            Type::Void => "nothing"@,
        }
    }

    /// The name of the type with the correct English indefinite article prepended.
    pub fn as_string_with_article(&self) -> (s: &'static str)
        ensures
            s@ == self.spec_article(),
    {
        match self {
            Type::Array => "an array",
            Type::Bool => "a boolean",
            Type::Int => "an int",
            Type::Str => "a string",
            Type::Void => "nothing",
        }
    }
}

/// Mathematical model of a runtime value.
pub enum SpecValue {
    Array(Seq<SpecValue>),
    Bool(bool),
    Int(i64),
    Str(Seq<char>),
}

impl SpecValue {
    /// The type tag of a value.
    pub open spec fn type_of(self) -> Type {
        match self {
            SpecValue::Array(_) => Type::Array,
            SpecValue::Bool(_) => Type::Bool,
            SpecValue::Int(_) => Type::Int,
            SpecValue::Str(_) => Type::Str,
        }
    }
}

/// A runtime value of the language.
#[derive(Debug, PartialEq, Eq)]
pub enum Value {
    Array(Vec<Value>),
    Bool(bool),
    Int(i64),
    Str(String),
}

/// The model of a value.
pub open spec fn value_view(v: Value) -> SpecValue
    decreases v,
{
    match v {
        Value::Array(a) => SpecValue::Array(values_view(a@)),
        Value::Bool(b) => SpecValue::Bool(b),
        Value::Int(i) => SpecValue::Int(i),
        Value::Str(s) => SpecValue::Str(s@),
    }
}

/// The models of a sequence of values, element by element.
pub open spec fn values_view(s: Seq<Value>) -> Seq<SpecValue>
    decreases s,
{
    if s.len() == 0 {
        Seq::empty()
    } else {
        values_view(s.drop_last()).push(value_view(s.last()))
    }
}

impl View for Value {
    type V = SpecValue;

    open spec fn view(&self) -> SpecValue {
        value_view(*self)
    }
}

/// `values_view` has the length of its argument and models it index by index.
pub broadcast proof fn lemma_values_view(s: Seq<Value>)
    ensures
        #![trigger values_view(s)]
        values_view(s).len() == s.len(),
        forall|i: int| 0 <= i < s.len() ==> (#[trigger] values_view(s)[i]) == s[i]@,
    decreases s.len(),
{
    if s.len() > 0 {
        lemma_values_view(s.drop_last());
    }
}

/// Copies a list of values.
pub fn clone_values(v: &Vec<Value>) -> (out: Vec<Value>)
    ensures
        values_view(out@) == values_view(v@),
    decreases v,
{
    broadcast use group_ast_views;

    let mut out: Vec<Value> = Vec::new();
    let mut i: usize = 0;
    while i < v.len()
        invariant
            i <= v.len(),
            out.len() == i,
            forall|j: int| 0 <= j < i ==> out@[j]@ == v@[j]@,
        decreases v.len() - i,
    {
        let c = v[i].clone();
        out.push(c);
        i += 1;
    }
    assert(values_view(out@) =~= values_view(v@));
    out
}

impl Clone for Value {
    fn clone(&self) -> (r: Value)
        ensures
            r@ == self@,
        decreases self,
    {
        match self {
            Value::Array(v) => {
Value::Array(clone_values(v))
            },
            Value::Bool(b) => Value::Bool(*b),
            Value::Int(i) => Value::Int(*i),
            Value::Str(s) => Value::Str(s.clone()),
        }
    }
}

impl Value {
    /// The type tag of the value.
    pub fn type_of(&self) -> (t: Type)
        ensures
            t == self@.type_of(),
    {
        match self {
            Value::Array(_) => Type::Array,
            Value::Bool(_) => Type::Bool,
            Value::Int(_) => Type::Int,
            Value::Str(_) => Type::Str,
        }
    }

    /// The value's type with the correct English indefinite article prepended.
    pub fn type_string_with_article(&self) -> (s: &'static str)
        ensures
            s@ == self@.type_of().spec_article(),
    {
        match self {
            Value::Array(_) => "an array",
            Value::Bool(_) => "a boolean",
            Value::Int(_) => "an int",
            Value::Str(_) => "a string",
        }
    }

    /// Whether the value is of the given type. No value is of type `Void`.
    pub fn is_a(&self, t: &Type) -> (b: bool)
        ensures
            b == (self@.type_of() == *t),
    {
        match (self, t) {
            (Value::Array(_), Type::Array) => true,
            (Value::Bool(_), Type::Bool) => true,
            (Value::Int(_), Type::Int) => true,
            (Value::Str(_), Type::Str) => true,
            _ => false,
        }
    }
}

/// A binary operator.
#[derive(Clone, Copy, Debug, PartialEq, Eq, Structural)]
pub enum BinOp {
    // Boolean
    And,
    Or,
    // Comparisons
    Equal,
    NotEqual,
    GreaterOrEqual,
    GreaterThan,
    LessOrEqual,
    LessThan,
    // Arithmetic
    Plus,
    Minus,
    Times,
    Divide,
    Modulus,
    // Other
    Concat,
}

/// How tightly an expression binds. Each variant binds tighter than the previous.
#[derive(Clone, Copy, Debug, PartialEq, Eq, Structural)]
pub enum Precedence {
    Or,
    And,
    Equality,
    Inequality,
    Addition,
    Multiplication,
    Constant,
}

impl Precedence {
    /// The position of the level, counted from the loosest.
    pub open spec fn spec_level(self) -> nat {
        match self {
            Precedence::Or => 0,
            Precedence::And => 1,
            Precedence::Equality => 2,
            Precedence::Inequality => 3,
            Precedence::Addition => 4,
            Precedence::Multiplication => 5,
            Precedence::Constant => 6,
        }
    }

    /// The position of the level, counted from the loosest.
    pub fn level(&self) -> (n: u8)
        ensures
            n == self.spec_level(),
    {
        match self {
            Precedence::Or => 0,
            Precedence::And => 1,
            Precedence::Equality => 2,
            Precedence::Inequality => 3,
            Precedence::Addition => 4,
            Precedence::Multiplication => 5,
            Precedence::Constant => 6,
        }
    }
}

impl BinOp {
    /// The precedence of an operator.
    pub open spec fn spec_precedence(self) -> Precedence {
        match self {
            BinOp::And => Precedence::And,
            BinOp::Or => Precedence::Or,
            BinOp::Equal | BinOp::NotEqual => Precedence::Equality,
            BinOp::GreaterOrEqual | BinOp::GreaterThan | BinOp::LessOrEqual | BinOp::LessThan =>
                Precedence::Inequality,
            BinOp::Plus | BinOp::Minus | BinOp::Concat => Precedence::Addition,
            BinOp::Times | BinOp::Divide | BinOp::Modulus => Precedence::Multiplication,
        }
    }

    /// The precedence of an operator.
    pub fn precedence(&self) -> (p: Precedence)
        ensures
            p == self.spec_precedence(),
    {
        match self {
            BinOp::And => Precedence::And,
            BinOp::Or => Precedence::Or,
            BinOp::Equal | BinOp::NotEqual => Precedence::Equality,
            BinOp::GreaterOrEqual | BinOp::GreaterThan | BinOp::LessOrEqual | BinOp::LessThan =>
                Precedence::Inequality,
            BinOp::Plus | BinOp::Minus | BinOp::Concat => Precedence::Addition,
            BinOp::Times | BinOp::Divide | BinOp::Modulus => Precedence::Multiplication,
        }
    }
}

/// Mathematical model of an expression.
pub enum SpecExpr {
    Array(Seq<SpecExpr>),
    ArrayElement(Seq<char>, Box<SpecExpr>, Seq<SpecExpr>),
    BinExp(Box<SpecExpr>, BinOp, Box<SpecExpr>),
    Call(Seq<char>, Seq<SpecExpr>),
    Length(Box<SpecExpr>),
    Letters(Box<SpecExpr>),
    Not(Box<SpecExpr>),
    Range(Box<SpecExpr>, Box<SpecExpr>),
    ReadLine,
    Step(Box<SpecExpr>, Box<SpecExpr>, Box<SpecExpr>),
    Value(SpecValue),
    Var(Seq<char>),
}

impl SpecExpr {
    /// The precedence level of the expression.
    pub open spec fn precedence(self) -> Precedence {
        match self {
            SpecExpr::BinExp(_, o, _) => o.spec_precedence(),
            _ => Precedence::Constant,
        }
    }
}

/// An expression.
#[derive(Debug)]
pub enum Expr {
    Array(Vec<Expr>),
    ArrayElement(String, Box<Expr>, Vec<Expr>),
    BinExp(Box<Expr>, BinOp, Box<Expr>),
    Call(String, Vec<Expr>),
    Length(Box<Expr>),
    Letters(Box<Expr>),
    Not(Box<Expr>),
    Range(Box<Expr>, Box<Expr>),
    ReadLine,
    Step(Box<Expr>, Box<Expr>, Box<Expr>),
    Value(Value),
    Var(String),
}

/// The model of an expression.
pub open spec fn expr_view(e: Expr) -> SpecExpr
    decreases e,
{
    match e {
        Expr::Array(v) => SpecExpr::Array(exprs_view(v@)),
        Expr::ArrayElement(var, index, indexes) => SpecExpr::ArrayElement(
            var@,
            Box::new(expr_view(*index)),
            exprs_view(indexes@),
        ),
        Expr::BinExp(l, op, r) => SpecExpr::BinExp(
            Box::new(expr_view(*l)),
            op,
            Box::new(expr_view(*r)),
        ),
        Expr::Call(name, args) => SpecExpr::Call(name@, exprs_view(args@)),
        Expr::Length(e) => SpecExpr::Length(Box::new(expr_view(*e))),
        Expr::Letters(e) => SpecExpr::Letters(Box::new(expr_view(*e))),
        Expr::Not(e) => SpecExpr::Not(Box::new(expr_view(*e))),
        Expr::Range(a, b) => SpecExpr::Range(Box::new(expr_view(*a)), Box::new(expr_view(*b))),
        Expr::ReadLine => SpecExpr::ReadLine,
        Expr::Step(a, b, s) => SpecExpr::Step(
            Box::new(expr_view(*a)),
            Box::new(expr_view(*b)),
            Box::new(expr_view(*s)),
        ),
        Expr::Value(v) => SpecExpr::Value(v@),
        Expr::Var(s) => SpecExpr::Var(s@),
    }
}

/// The models of a sequence of expressions, element by element.
pub open spec fn exprs_view(s: Seq<Expr>) -> Seq<SpecExpr>
    decreases s,
{
    if s.len() == 0 {
        Seq::empty()
    } else {
        exprs_view(s.drop_last()).push(expr_view(s.last()))
    }
}

impl View for Expr {
    type V = SpecExpr;

    open spec fn view(&self) -> SpecExpr {
        expr_view(*self)
    }
}

/// `exprs_view` has the length of its argument and models it index by index.
pub broadcast proof fn lemma_exprs_view(s: Seq<Expr>)
    ensures
        #![trigger exprs_view(s)]
        exprs_view(s).len() == s.len(),
        forall|i: int| 0 <= i < s.len() ==> (#[trigger] exprs_view(s)[i]) == s[i]@,
    decreases s.len(),
{
    if s.len() > 0 {
        lemma_exprs_view(s.drop_last());
    }
}

/// Copies a list of expressions.
pub fn clone_exprs(v: &Vec<Expr>) -> (out: Vec<Expr>)
    ensures
        exprs_view(out@) == exprs_view(v@),
    decreases v,
{
    broadcast use group_ast_views;

    let mut out: Vec<Expr> = Vec::new();
    let mut i: usize = 0;
    while i < v.len()
        invariant
            i <= v.len(),
            out.len() == i,
            forall|j: int| 0 <= j < i ==> out@[j]@ == v@[j]@,
        decreases v.len() - i,
    {
        let c = v[i].clone();
        out.push(c);
        i += 1;
    }
    assert(exprs_view(out@) =~= exprs_view(v@));
    out
}

impl Clone for Expr {
    fn clone(&self) -> (r: Expr)
        ensures
            r@ == self@,
        decreases self,
    {
        let r = match self {
            Expr::Array(v) => Expr::Array(clone_exprs(v)),
            Expr::ArrayElement(var, index, indexes) => Expr::ArrayElement(
                var.clone(),
                Box::new((**index).clone()),
                clone_exprs(indexes),
            ),
            Expr::BinExp(l, op, r) => Expr::BinExp(
                Box::new((**l).clone()),
                *op,
                Box::new((**r).clone()),
            ),
            Expr::Call(name, args) => Expr::Call(name.clone(), clone_exprs(args)),
            Expr::Length(e) => Expr::Length(Box::new((**e).clone())),
            Expr::Letters(e) => Expr::Letters(Box::new((**e).clone())),
            Expr::Not(e) => Expr::Not(Box::new((**e).clone())),
            Expr::Range(a, b) => Expr::Range(Box::new((**a).clone()), Box::new((**b).clone())),
            Expr::ReadLine => Expr::ReadLine,
            Expr::Step(a, b, s) => Expr::Step(
                Box::new((**a).clone()),
                Box::new((**b).clone()),
                Box::new((**s).clone()),
            ),
            Expr::Value(v) => Expr::Value(v.clone()),
            Expr::Var(s) => Expr::Var(s.clone()),
        };
        r
    }
}

impl Expr {
    /// The precedence level of the expression.
    pub fn precedence(&self) -> (p: Precedence)
        ensures
            p == self@.precedence(),
    {
        match self {
            Expr::BinExp(_, o, _) => o.precedence(),
            _ => Precedence::Constant,
        }
    }
}

/// The texts of a sequence of strings, element by element.
pub open spec fn strings_view(s: Seq<String>) -> Seq<Seq<char>> {
    Seq::new(s.len(), |i: int| s[i]@)
}

/// Copies a list of strings.
pub fn clone_strings(v: &Vec<String>) -> (out: Vec<String>)
    ensures
        strings_view(out@) == strings_view(v@),
{
    let mut out: Vec<String> = Vec::new();
    let mut i: usize = 0;
    while i < v.len()
        invariant
            i <= v.len(),
            out.len() == i,
            forall|j: int| 0 <= j < i ==> out@[j]@ == v@[j]@,
        decreases v.len() - i,
    {
        let c = v[i].clone();
        out.push(c);
        i += 1;
    }
    assert(strings_view(out@) =~= strings_view(v@));
    out
}

/// Mathematical model of a statement.
pub enum SpecStatement {
    ArrayElemAssign(Seq<char>, SpecExpr, Seq<SpecExpr>, SpecExpr),
    For(Seq<char>, SpecExpr, Seq<SpecStatement>),
    Defun(Type, Seq<char>, Seq<Seq<char>>, Seq<SpecStatement>),
    Delete(Seq<char>, SpecExpr, Seq<SpecExpr>),
    If(SpecExpr, Seq<SpecStatement>, Seq<SpecStatement>),
    Let(Seq<char>, SpecExpr),
    Print(SpecExpr),
    PrintLine(SpecExpr),
    Return(SpecExpr),
    VoidCall(Seq<char>, Seq<SpecExpr>),
    While(SpecExpr, Seq<SpecStatement>),
    VarAssign(Seq<char>, SpecExpr),
}

/// A statement.
#[derive(Debug)]
pub enum Statement {
    ArrayElemAssign(String, Expr, Vec<Expr>, Expr),
    For(String, Expr, Vec<Statement>),
    Defun(Type, String, Vec<String>, Vec<Statement>),
    Delete(String, Expr, Vec<Expr>),
    If(Expr, Vec<Statement>, Vec<Statement>),
    Let(String, Expr),
    Print(Expr),
    PrintLine(Expr),
    Return(Expr),
    VoidCall(String, Vec<Expr>),
    While(Expr, Vec<Statement>),
    VarAssign(String, Expr),
}

/// The model of a statement.
pub open spec fn stmt_view(s: Statement) -> SpecStatement
    decreases s,
{
    match s {
        Statement::ArrayElemAssign(var, index, indexes, e) => SpecStatement::ArrayElemAssign(
            var@,
            index@,
            exprs_view(indexes@),
            e@,
        ),
        Statement::For(var, e, block) => SpecStatement::For(var@, e@, stmts_view(block@)),
        Statement::Defun(t, name, params, body) => SpecStatement::Defun(
            t,
            name@,
            strings_view(params@),
            stmts_view(body@),
        ),
        Statement::Delete(var, index, indexes) => SpecStatement::Delete(
            var@,
            index@,
            exprs_view(indexes@),
        ),
        Statement::If(e, block1, block2) => SpecStatement::If(
            e@,
            stmts_view(block1@),
            stmts_view(block2@),
        ),
        Statement::Let(var, e) => SpecStatement::Let(var@, e@),
        Statement::Print(e) => SpecStatement::Print(e@),
        Statement::PrintLine(e) => SpecStatement::PrintLine(e@),
        Statement::Return(e) => SpecStatement::Return(e@),
        Statement::VoidCall(name, args) => SpecStatement::VoidCall(name@, exprs_view(args@)),
        Statement::While(e, block) => SpecStatement::While(e@, stmts_view(block@)),
        Statement::VarAssign(var, e) => SpecStatement::VarAssign(var@, e@),
    }
}

/// The models of a sequence of statements, element by element.
pub open spec fn stmts_view(s: Seq<Statement>) -> Seq<SpecStatement>
    decreases s,
{
    if s.len() == 0 {
        Seq::empty()
    } else {
        stmts_view(s.drop_last()).push(stmt_view(s.last()))
    }
}

impl View for Statement {
    type V = SpecStatement;

    open spec fn view(&self) -> SpecStatement {
        stmt_view(*self)
    }
}

/// `stmts_view` has the length of its argument and models it index by index.
pub broadcast proof fn lemma_stmts_view(s: Seq<Statement>)
    ensures
        #![trigger stmts_view(s)]
        stmts_view(s).len() == s.len(),
        forall|i: int| 0 <= i < s.len() ==> (#[trigger] stmts_view(s)[i]) == s[i]@,
    decreases s.len(),
{
    if s.len() > 0 {
        lemma_stmts_view(s.drop_last());
    }
}

/// The lemmas that relate the model of a list to the models of its items.
pub broadcast group group_ast_views {
    lemma_values_view,
    lemma_exprs_view,
    lemma_stmts_view,
}

/// Copies a list of statements.
pub fn clone_stmts(v: &Vec<Statement>) -> (out: Vec<Statement>)
    ensures
        stmts_view(out@) == stmts_view(v@),
    decreases v,
{
    broadcast use group_ast_views;

    let mut out: Vec<Statement> = Vec::new();
    let mut i: usize = 0;
    while i < v.len()
        invariant
            i <= v.len(),
            out.len() == i,
            forall|j: int| 0 <= j < i ==> out@[j]@ == v@[j]@,
        decreases v.len() - i,
    {
        let c = v[i].clone();
        out.push(c);
        i += 1;
    }
    assert(stmts_view(out@) =~= stmts_view(v@));
    out
}

impl Clone for Statement {
    fn clone(&self) -> (r: Statement)
        ensures
            r@ == self@,
        decreases self,
    {
        let r = match self {
            Statement::ArrayElemAssign(var, index, indexes, e) => Statement::ArrayElemAssign(
                var.clone(),
                index.clone(),
                clone_exprs(indexes),
                e.clone(),
            ),
            Statement::For(var, e, block) => Statement::For(
                var.clone(),
                e.clone(),
                clone_stmts(block),
            ),
            Statement::Defun(t, name, params, body) => Statement::Defun(
                *t,
                name.clone(),
                clone_strings(params),
                clone_stmts(body),
            ),
            Statement::Delete(var, index, indexes) => Statement::Delete(
                var.clone(),
                index.clone(),
                clone_exprs(indexes),
            ),
            Statement::If(e, block1, block2) => Statement::If(
                e.clone(),
                clone_stmts(block1),
                clone_stmts(block2),
            ),
            Statement::Let(var, e) => Statement::Let(var.clone(), e.clone()),
            Statement::Print(e) => Statement::Print(e.clone()),
            Statement::PrintLine(e) => Statement::PrintLine(e.clone()),
            Statement::Return(e) => Statement::Return(e.clone()),
            Statement::VoidCall(name, args) => Statement::VoidCall(name.clone(), clone_exprs(args)),
            Statement::While(e, block) => Statement::While(e.clone(), clone_stmts(block)),
            Statement::VarAssign(var, e) => Statement::VarAssign(var.clone(), e.clone()),
        };
        r
    }
}

} // verus!
