//! The text of values, expressions and statements.
//!
//! Each `*_text` function says what text stands for a model; each `fmt` method
//! appends exactly that text to a string.

use crate::ast::{
    exprs_view, group_ast_views, stmts_view, strings_view, values_view, BinOp, Expr, Precedence,
    SpecExpr, SpecStatement, SpecValue, Statement, Type, Value,
};
use crate::text::{int_text, push_int, spaces};
use vstd::prelude::*;
use vstd::string::StringExecFns;

verus! {

broadcast use group_ast_views;

/// The keyword that names a type.
pub open spec fn type_text(t: Type) -> Seq<char> {
    match t {
        Type::Array => "array"@,
        Type::Bool => "boolean"@,
        Type::Int => "int"@,
        Type::Str => "string"@,
        Type::Void => "void"@,
    }
}

/// The symbol of a binary operator.
pub open spec fn binop_text(op: BinOp) -> Seq<char> {
    match op {
        BinOp::And => "&&"@,
        BinOp::Or => "||"@,
        BinOp::Equal => "=="@,
        BinOp::NotEqual => "!="@,
        BinOp::GreaterOrEqual => ">="@,
        BinOp::GreaterThan => ">"@,
        BinOp::LessOrEqual => "<="@,
        BinOp::LessThan => "<"@,
        BinOp::Plus => "+"@,
        BinOp::Minus => "-"@,
        BinOp::Times => "*"@,
        BinOp::Divide => "/"@,
        BinOp::Modulus => "%"@,
        BinOp::Concat => "++"@,
    }
}

/// The text of a boolean.
pub open spec fn bool_text(b: bool) -> Seq<char> {
    if b {
        "true"@
    } else {
        "false"@
    }
}

/// The text of a value, which is the text of its literal: an array in
/// brackets with `, ` between the items, a string between quotes.
pub open spec fn value_text(v: SpecValue) -> Seq<char>
    decreases v,
{
    match v {
        SpecValue::Array(items) => "["@ + values_text(items) + "]"@,
        SpecValue::Bool(b) => bool_text(b),
        SpecValue::Int(i) => int_text(i as int),
        SpecValue::Str(s) => "\""@ + s + "\""@,
    }
}

/// The texts of the values, with `, ` between them.
pub open spec fn values_text(s: Seq<SpecValue>) -> Seq<char>
    decreases s,
{
    if s.len() == 0 {
        Seq::empty()
    } else if s.len() == 1 {
        value_text(s.last())
    } else {
        values_text(s.drop_last()) + ", "@ + value_text(s.last())
    }
}

/// The text of an expression. An operand of a binary operator stands in
/// parentheses where it binds looser than the operator; a right operand also
/// where it binds as tightly. What is negated stands in parentheses where it
/// is a binary expression. A literal is the text of its value.
pub open spec fn expr_text(e: SpecExpr) -> Seq<char>
    decreases e,
{
    match e {
        SpecExpr::Array(items) => "["@ + exprs_text(items) + "]"@,
        SpecExpr::ArrayElement(var, index, indexes) => var + "["@ + expr_text(*index) + "]"@
            + indexes_text(indexes),
        SpecExpr::BinExp(l, op, r) => {
            let level = op.spec_precedence().spec_level();
            let left = if l.precedence().spec_level() < level {
                "("@ + expr_text(*l) + ")"@
            } else {
                expr_text(*l)
            };
            let right = if r.precedence().spec_level() <= level {
                "("@ + expr_text(*r) + ")"@
            } else {
                expr_text(*r)
            };
            left + " "@ + binop_text(op) + " "@ + right
        },
        SpecExpr::Call(name, args) => name + "("@ + exprs_text(args) + ")"@,
        SpecExpr::Length(e) => "length("@ + expr_text(*e) + ")"@,
        SpecExpr::Letters(e) => "letters("@ + expr_text(*e) + ")"@,
        SpecExpr::Not(e) => "!"@ + if e.precedence().spec_level()
            < Precedence::Constant.spec_level() {
            "("@ + expr_text(*e) + ")"@
        } else {
            expr_text(*e)
        },
        SpecExpr::Range(a, b) => "range("@ + expr_text(*a) + ", "@ + expr_text(*b) + ")"@,
        SpecExpr::ReadLine => "readline()"@,
        SpecExpr::Step(a, b, s) => "step("@ + expr_text(*a) + ", "@ + expr_text(*b) + ", "@
            + expr_text(*s) + ")"@,
        SpecExpr::Value(v) => value_text(v),
        SpecExpr::Var(name) => name,
    }
}

/// The texts of the expressions, with `, ` between them.
pub open spec fn exprs_text(s: Seq<SpecExpr>) -> Seq<char>
    decreases s,
{
    if s.len() == 0 {
        Seq::empty()
    } else if s.len() == 1 {
        expr_text(s.last())
    } else {
        exprs_text(s.drop_last()) + ", "@ + expr_text(s.last())
    }
}

/// The texts of the expressions, each in brackets of its own.
pub open spec fn indexes_text(s: Seq<SpecExpr>) -> Seq<char>
    decreases s,
{
    if s.len() == 0 {
        Seq::empty()
    } else {
        indexes_text(s.drop_last()) + "["@ + expr_text(s.last()) + "]"@
    }
}

/// The names, with `, ` between them.
pub open spec fn names_text(s: Seq<Seq<char>>) -> Seq<char>
    decreases s.len(),
{
    if s.len() == 0 {
        Seq::empty()
    } else if s.len() == 1 {
        s.last()
    } else {
        names_text(s.drop_last()) + ", "@ + s.last()
    }
}

/// The text of a statement, each of its lines behind `indent`. The lines of
/// a nested block stand four spaces further in.
pub open spec fn stmt_text(s: SpecStatement, indent: Seq<char>) -> Seq<char>
    decreases s,
{
    let inner = indent + "    "@;
    match s {
        SpecStatement::ArrayElemAssign(var, index, indexes, e) => indent + var + "["@ + expr_text(
            index,
        ) + "]"@ + indexes_text(indexes) + " = "@ + expr_text(e) + ";\n"@,
        SpecStatement::For(var, e, block) => indent + "for "@ + var + " in "@ + expr_text(e)
            + " {\n"@ + block_text(block, inner) + indent + "}\n"@,
        SpecStatement::Defun(t, name, params, body) => indent + type_text(t) + " "@ + name + "("@
            + names_text(params) + ") {\n"@ + block_text(body, inner) + indent + "}\n"@,
        SpecStatement::Delete(var, index, indexes) => indent + "delete "@ + var + "["@ + expr_text(
            index,
        ) + "]"@ + indexes_text(indexes) + ";\n"@,
        SpecStatement::If(c, block1, block2) => {
            let head = indent + "if ("@ + expr_text(c) + ") {\n"@ + block_text(block1, inner);
            if block2.len() == 0 {
                head + indent + "}\n"@
            } else {
                head + indent + "} else {\n"@ + block_text(block2, inner) + indent + "}\n"@
            }
        },
        SpecStatement::Let(var, e) => indent + "let "@ + var + " = "@ + expr_text(e) + ";\n"@,
        SpecStatement::Print(e) => indent + "print "@ + expr_text(e) + ";\n"@,
        SpecStatement::PrintLine(e) => indent + "print_line "@ + expr_text(e) + ";\n"@,
        SpecStatement::Return(e) => indent + "return "@ + expr_text(e) + ";\n"@,
        SpecStatement::VoidCall(name, args) => indent + name + "("@ + exprs_text(args) + ");\n"@,
        SpecStatement::While(c, block) => indent + "while ("@ + expr_text(c) + ") {\n"@
            + block_text(block, inner) + indent + "}\n"@,
        SpecStatement::VarAssign(var, e) => indent + var + " = "@ + expr_text(e) + ";\n"@,
    }
}

/// The texts of the statements of a block, one after the other.
pub open spec fn block_text(b: Seq<SpecStatement>, indent: Seq<char>) -> Seq<char>
    decreases b,
{
    if b.len() == 0 {
        Seq::empty()
    } else {
        block_text(b.drop_last(), indent) + stmt_text(b.last(), indent)
    }
}

impl Type {
    /// The keyword that names the type.
    pub fn keyword(&self) -> (s: &'static str)
        ensures
            s@ == type_text(*self),
    {
        match self {
            Type::Array => "array",
            Type::Bool => "boolean",
            Type::Int => "int",
            Type::Str => "string",
            Type::Void => "void",
        }
    }

    /// Appends the type's keyword to `out`.
    pub fn fmt(&self, out: &mut String)
        ensures
            final(out)@ == old(out)@ + type_text(*self),
    {
        out.append(self.keyword());
    }

    /// The type's keyword.
    pub fn to_string(&self) -> (s: String)
        ensures
            s@ == type_text(*self),
    {
        String::from_str(self.keyword())
    }
}

impl BinOp {
    /// The operator's symbol.
    pub fn symbol(&self) -> (s: &'static str)
        ensures
            s@ == binop_text(*self),
    {
        match self {
            BinOp::And => "&&",
            BinOp::Or => "||",
            BinOp::Equal => "==",
            BinOp::NotEqual => "!=",
            BinOp::GreaterOrEqual => ">=",
            BinOp::GreaterThan => ">",
            BinOp::LessOrEqual => "<=",
            BinOp::LessThan => "<",
            BinOp::Plus => "+",
            BinOp::Minus => "-",
            BinOp::Times => "*",
            BinOp::Divide => "/",
            BinOp::Modulus => "%",
            BinOp::Concat => "++",
        }
    }

    /// Appends the operator's symbol to `out`.
    pub fn fmt(&self, out: &mut String)
        ensures
            final(out)@ == old(out)@ + binop_text(*self),
    {
        out.append(self.symbol());
    }

    /// The operator's symbol.
    pub fn to_string(&self) -> (s: String)
        ensures
            s@ == binop_text(*self),
    {
        String::from_str(self.symbol())
    }
}

/// The texts of the values, with `, ` between them.
pub fn values_to_string(items: &Vec<Value>) -> (out: String)
    ensures
        out@ == values_text(values_view(items@)),
    decreases items,
{
    let ghost model = values_view(items@);
    let mut out = String::new();
    let mut i: usize = 0;
    while i < items.len()
        invariant
            i <= items.len(),
            model == values_view(items@),
            out@ == values_text(model.take(i as int)),
        decreases items.len() - i,
    {
        let item = items[i].to_string();
        proof {
            assert(model.take(i + 1).drop_last() =~= model.take(i as int));
            assert(model.take(i + 1).last() == items@[i as int]@);
        }
        if i == 0 {
            out = item;
        } else {
            out = out.concat(", ").concat(item.as_str());
        }
        i += 1;
    }
    proof {
        assert(model.take(items.len() as int) =~= model);
    }
    out
}

impl Value {
    /// The value's text.
    pub fn to_string(&self) -> (s: String)
        ensures
            s@ == value_text(self@),
        decreases self,
    {
        match self {
            Value::Array(items) => String::from_str("[").concat(
                values_to_string(items).as_str(),
            ).concat("]"),
            Value::Bool(b) => {
                if *b {
                    String::from_str("true")
                } else {
                    String::from_str("false")
                }
            },
            Value::Int(i) => {
                let mut s = String::new();
                push_int(&mut s, *i);
                assert(s@ =~= int_text(*i as int));
                s
            },
            Value::Str(s) => String::from_str("\"").concat(s.as_str()).concat("\""),
        }
    }

    /// Appends the value's text to `out`.
    pub fn fmt(&self, out: &mut String)
        ensures
            final(out)@ == old(out)@ + value_text(self@),
    {
        out.append(self.to_string().as_str());
    }
}

/// The texts of the expressions, with `, ` between them.
pub fn exprs_to_string(items: &Vec<Expr>) -> (out: String)
    ensures
        out@ == exprs_text(exprs_view(items@)),
    decreases items,
{
    let ghost model = exprs_view(items@);
    let mut out = String::new();
    let mut i: usize = 0;
    while i < items.len()
        invariant
            i <= items.len(),
            model == exprs_view(items@),
            out@ == exprs_text(model.take(i as int)),
        decreases items.len() - i,
    {
        let item = items[i].to_string();
        proof {
            assert(model.take(i + 1).drop_last() =~= model.take(i as int));
            assert(model.take(i + 1).last() == items@[i as int]@);
        }
        if i == 0 {
            out = item;
        } else {
            out = out.concat(", ").concat(item.as_str());
        }
        i += 1;
    }
    proof {
        assert(model.take(items.len() as int) =~= model);
    }
    out
}

/// The texts of the expressions, each in brackets of its own.
pub fn indexes_to_string(items: &Vec<Expr>) -> (out: String)
    ensures
        out@ == indexes_text(exprs_view(items@)),
    decreases items,
{
    let ghost model = exprs_view(items@);
    let mut out = String::new();
    let mut i: usize = 0;
    while i < items.len()
        invariant
            i <= items.len(),
            model == exprs_view(items@),
            out@ == indexes_text(model.take(i as int)),
        decreases items.len() - i,
    {
        let item = items[i].to_string();
        proof {
            assert(model.take(i + 1).drop_last() =~= model.take(i as int));
            assert(model.take(i + 1).last() == items@[i as int]@);
        }
        out = out.concat("[").concat(item.as_str()).concat("]");
        i += 1;
    }
    proof {
        assert(model.take(items.len() as int) =~= model);
    }
    out
}

impl Expr {
    /// The text of an operand, in parentheses where `wrap` says so.
    fn operand_to_string(&self, wrap: bool) -> (s: String)
        ensures
            s@ == if wrap {
                "("@ + expr_text(self@) + ")"@
            } else {
                expr_text(self@)
            },
        decreases self, 1nat,
    {
        if wrap {
            String::from_str("(").concat(self.to_string().as_str()).concat(")")
        } else {
            self.to_string()
        }
    }

    /// The expression's text.
    pub fn to_string(&self) -> (s: String)
        ensures
            s@ == expr_text(self@),
        decreases self, 0nat,
    {
        match self {
            Expr::Array(items) => String::from_str("[").concat(
                exprs_to_string(items).as_str(),
            ).concat("]"),
            Expr::ArrayElement(var, index, indexes) => var.clone().concat("[").concat(
                index.to_string().as_str(),
            ).concat("]").concat(indexes_to_string(indexes).as_str()),
            Expr::BinExp(exp1, op, exp2) => {
                let level = op.precedence().level();
                // The left operand stands in parentheses if it binds looser than the operator.
                let left = exp1.operand_to_string(exp1.precedence().level() < level);
                // The right operand stands in parentheses unless it binds tighter.
                let right = exp2.operand_to_string(exp2.precedence().level() <= level);
                left.concat(" ").concat(op.symbol()).concat(" ").concat(right.as_str())
            },
            Expr::Call(func, args) => func.clone().concat("(").concat(
                exprs_to_string(args).as_str(),
            ).concat(")"),
            Expr::Length(exp) => String::from_str("length(").concat(
                exp.to_string().as_str(),
            ).concat(")"),
            Expr::Letters(exp) => String::from_str("letters(").concat(
                exp.to_string().as_str(),
            ).concat(")"),
            Expr::Not(exp) => {
                // What is negated stands in parentheses if it binds looser than the negation.
                let operand = exp.operand_to_string(
                    exp.precedence().level() < Precedence::Constant.level(),
                );
                String::from_str("!").concat(operand.as_str())
            },
            Expr::Range(start, end) => String::from_str("range(").concat(
                start.to_string().as_str(),
            ).concat(", ").concat(end.to_string().as_str()).concat(")"),
            Expr::ReadLine => String::from_str("readline()"),
            Expr::Step(start, end, step) => String::from_str("step(").concat(
                start.to_string().as_str(),
            ).concat(", ").concat(end.to_string().as_str()).concat(", ").concat(
                step.to_string().as_str(),
            ).concat(")"),
            Expr::Value(val) => val.to_string(),
            Expr::Var(var) => var.clone(),
        }
    }

    /// Appends the expression's text to `out`.
    pub fn fmt(&self, out: &mut String)
        ensures
            final(out)@ == old(out)@ + expr_text(self@),
    {
        out.append(self.to_string().as_str());
    }
}

/// The names, with `, ` between them.
pub fn names_to_string(items: &Vec<String>) -> (out: String)
    ensures
        out@ == names_text(strings_view(items@)),
{
    let ghost model = strings_view(items@);
    let mut out = String::new();
    let mut i: usize = 0;
    while i < items.len()
        invariant
            i <= items.len(),
            model == strings_view(items@),
            out@ == names_text(model.take(i as int)),
        decreases items.len() - i,
    {
        proof {
            assert(model.take(i + 1).drop_last() =~= model.take(i as int));
            assert(model.take(i + 1).last() == items@[i as int]@);
        }
        if i == 0 {
            out = items[i].clone();
        } else {
            out = out.concat(", ").concat(items[i].as_str());
        }
        i += 1;
    }
    proof {
        assert(model.take(items.len() as int) =~= model);
    }
    out
}

/// The texts of the statements of a block, each line behind `indentation`.
pub fn block_to_string(block: &Vec<Statement>, indentation: &str) -> (out: String)
    ensures
        out@ == block_text(stmts_view(block@), indentation@),
    decreases block,
{
    let ghost model = stmts_view(block@);
    let mut out = String::new();
    let mut i: usize = 0;
    while i < block.len()
        invariant
            i <= block.len(),
            model == stmts_view(block@),
            out@ == block_text(model.take(i as int), indentation@),
        decreases block.len() - i,
    {
        let item = block[i].to_string_indented(indentation);
        proof {
            assert(model.take(i + 1).drop_last() =~= model.take(i as int));
            assert(model.take(i + 1).last() == block@[i as int]@);
        }
        out = out.concat(item.as_str());
        i += 1;
    }
    proof {
        assert(model.take(block.len() as int) =~= model);
    }
    out
}

impl Statement {
    /// The statement's text, each line behind `indentation`.
    pub fn to_string_indented(&self, indentation: &str) -> (s: String)
        ensures
            s@ == stmt_text(self@, indentation@),
        decreases self,
    {
        let inner = String::from_str(indentation).concat("    ");
        let start = String::from_str(indentation);
        match self {
            Statement::ArrayElemAssign(var, index, indexes, exp) => start.concat(
                var.as_str(),
            ).concat("[").concat(index.to_string().as_str()).concat("]").concat(
                indexes_to_string(indexes).as_str(),
            ).concat(" = ").concat(exp.to_string().as_str()).concat(";\n"),
            Statement::Defun(return_type, name, params, body) => start.concat(
                return_type.keyword(),
            ).concat(" ").concat(name.as_str()).concat("(").concat(
                names_to_string(params).as_str(),
            ).concat(") {\n").concat(block_to_string(body, inner.as_str()).as_str()).concat(
                indentation,
            ).concat("}\n"),
            Statement::Delete(var, index, indexes) => start.concat("delete ").concat(
                var.as_str(),
            ).concat("[").concat(index.to_string().as_str()).concat("]").concat(
                indexes_to_string(indexes).as_str(),
            ).concat(";\n"),
            Statement::For(var, exp, block) => start.concat("for ").concat(var.as_str()).concat(
                " in ",
            ).concat(exp.to_string().as_str()).concat(" {\n").concat(
                block_to_string(block, inner.as_str()).as_str(),
            ).concat(indentation).concat("}\n"),
            Statement::If(clause, true_block, false_block) => {
                let head = start.concat("if (").concat(clause.to_string().as_str()).concat(
                    ") {\n",
                ).concat(block_to_string(true_block, inner.as_str()).as_str());
                if false_block.len() == 0 {
                    head.concat(indentation).concat("}\n")
                } else {
                    head.concat(indentation).concat("} else {\n").concat(
                        block_to_string(false_block, inner.as_str()).as_str(),
                    ).concat(indentation).concat("}\n")
                }
            },
            Statement::Let(var, exp) => start.concat("let ").concat(var.as_str()).concat(
                " = ",
            ).concat(exp.to_string().as_str()).concat(";\n"),
            Statement::Print(exp) => start.concat("print ").concat(
                exp.to_string().as_str(),
            ).concat(";\n"),
            Statement::PrintLine(exp) => start.concat("print_line ").concat(
                exp.to_string().as_str(),
            ).concat(";\n"),
            Statement::Return(exp) => start.concat("return ").concat(
                exp.to_string().as_str(),
            ).concat(";\n"),
            Statement::VarAssign(var, exp) => start.concat(var.as_str()).concat(" = ").concat(
                exp.to_string().as_str(),
            ).concat(";\n"),
            Statement::VoidCall(name, args) => start.concat(name.as_str()).concat("(").concat(
                exprs_to_string(args).as_str(),
            ).concat(");\n"),
            Statement::While(clause, block) => start.concat("while (").concat(
                clause.to_string().as_str(),
            ).concat(") {\n").concat(block_to_string(block, inner.as_str()).as_str()).concat(
                indentation,
            ).concat("}\n"),
        }
    }

    /// Appends the statement's text to `out`, at the given nesting level: four
    /// spaces of indentation for each level.
    pub fn fmt_with_indent(&self, out: &mut String, indent_level: u32)
        ensures
            final(out)@ == old(out)@ + stmt_text(self@, spaces(4 * indent_level as nat)),
    {
        let mut indentation = String::new();
        let mut i: u32 = 0;
        while i < indent_level
            invariant
                i <= indent_level,
                indentation@ == spaces(4 * i as nat),
            decreases indent_level - i,
        {
            indentation.push(' ');
            indentation.push(' ');
            indentation.push(' ');
            indentation.push(' ');
            i += 1;
            assert(indentation@ =~= spaces(4 * i as nat));
        }
        out.append(self.to_string_indented(indentation.as_str()).as_str());
    }

    /// Appends the statement's text to `out`, without indentation.
    pub fn fmt(&self, out: &mut String)
        ensures
            final(out)@ == old(out)@ + stmt_text(self@, Seq::empty()),
    {
        self.fmt_with_indent(out, 0);
        assert(spaces(0) =~= Seq::<char>::empty());
    }

    /// The statement's text, without indentation.
    pub fn to_string(&self) -> (s: String)
        ensures
            s@ == stmt_text(self@, Seq::empty()),
    {
        let mut s = String::new();
        self.fmt(&mut s);
        assert(s@ =~= stmt_text(self@, Seq::empty()));
        s
    }
}

} // verus!
