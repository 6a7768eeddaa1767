use vstd::prelude::*;
use crate::tokenizer::{AssignOp, Op};

verus! {

/// A real literal, kept exact: its value is `whole + fraction / scale`,
/// negated where `negative` is set.
#[derive(Copy, Clone, Debug, PartialEq, Eq, Hash, Structural)]
pub struct Real {
    pub negative: bool,
    pub whole: u64,
    pub fraction: u64,
    pub scale: u64,
}

#[derive(Copy, Clone, Debug, PartialEq, Eq, Structural)]
pub enum UnaryOp {
    Neg,
    Not,
}

/// A leaf of an expression.
#[derive(Clone, Debug, PartialEq)]
pub enum Atom {
    Name(String),
    Real(Real),
    Integer(isize),
    String(String),
    Bool(bool),
    _Self,
    Env,
}

pub enum AtomView {
    Name(Seq<char>),
    Real(Real),
    Integer(isize),
    String(Seq<char>),
    Bool(bool),
    _Self,
    Env,
}

impl View for Atom {
    type V = AtomView;

    open spec fn view(&self) -> AtomView {
        match *self {
            Atom::Name(s) => AtomView::Name(s@),
            Atom::Real(r) => AtomView::Real(r),
            Atom::Integer(i) => AtomView::Integer(i),
            Atom::String(s) => AtomView::String(s@),
            Atom::Bool(b) => AtomView::Bool(b),
            Atom::_Self => AtomView::_Self,
            Atom::Env => AtomView::Env,
        }
    }
}

#[derive(Debug, PartialEq)]
#[allow(inconsistent_fields)]
pub enum Expression {
    Atom { line: u32, column: u32, atom: Atom },
    Operation { line: u32, column: u32, op: Op, left: Box<Expression>, right: Box<Expression> },
    UnaryOperation { line: u32, column: u32, op: UnaryOp, expr: Box<Expression> },
    Function {
        line: u32,
        column: u32,
        expr: Option<Box<Expression>>,
        name: String,
        arguments: Vec<Expression>,
    },
    Array { line: u32, column: u32, array: Vec<Expression> },
    Dictionary { line: u32, column: u32, dictionary: Vec<(Expression, Expression)> },
}

#[allow(inconsistent_fields)]
pub enum ExpressionView {
    Atom { line: u32, column: u32, atom: AtomView },
    Operation {
        line: u32,
        column: u32,
        op: Op,
        left: Box<ExpressionView>,
        right: Box<ExpressionView>,
    },
    UnaryOperation { line: u32, column: u32, op: UnaryOp, expr: Box<ExpressionView> },
    Function {
        line: u32,
        column: u32,
        expr: Option<Box<ExpressionView>>,
        name: Seq<char>,
        arguments: Seq<ExpressionView>,
    },
    Array { line: u32, column: u32, array: Seq<ExpressionView> },
    Dictionary { line: u32, column: u32, dictionary: Seq<(ExpressionView, ExpressionView)> },
}

impl View for Expression {
    type V = ExpressionView;

    open spec fn view(&self) -> ExpressionView {
        self.model()
    }
}

impl Expression {
    /// The mathematical value of the expression.
    #[verifier::opaque]
    pub open spec fn model(&self) -> ExpressionView
        decreases self,
    {
        match self {
            Expression::Atom { line, column, atom } => ExpressionView::Atom {
                line: *line,
                column: *column,
                atom: atom@,
            },
            Expression::Operation { line, column, op, left, right } => ExpressionView::Operation {
                line: *line,
                column: *column,
                op: *op,
                left: Box::new(left.model()),
                right: Box::new(right.model()),
            },
            Expression::UnaryOperation { line, column, op, expr } => {
                ExpressionView::UnaryOperation {
                    line: *line,
                    column: *column,
                    op: *op,
                    expr: Box::new(expr.model()),
                }
            },
            Expression::Function { line, column, expr, name, arguments } => {
                ExpressionView::Function {
                    line: *line,
                    column: *column,
                    expr: match expr {
                        Some(e) => Some(Box::new(e.model())),
                        None => None,
                    },
                    name: name@,
                    arguments: Seq::new(
                        arguments@.len(),
                        |k: int|
                            if 0 <= k < arguments@.len() {
                                arguments@[k].model()
                            } else {
                                arbitrary()
                            },
                    ),
                }
            },
            Expression::Array { line, column, array } => ExpressionView::Array {
                line: *line,
                column: *column,
                array: Seq::new(
                    array@.len(),
                    |k: int|
                        if 0 <= k < array@.len() {
                            array@[k].model()
                        } else {
                            arbitrary()
                        },
                ),
            },
            Expression::Dictionary { line, column, dictionary } => ExpressionView::Dictionary {
                line: *line,
                column: *column,
                dictionary: Seq::new(
                    dictionary@.len(),
                    |k: int|
                        if 0 <= k < dictionary@.len() {
                            (dictionary@[k].0.model(), dictionary@[k].1.model())
                        } else {
                            arbitrary()
                        },
                ),
            },
        }
    }
}

/// The views of a sequence of expressions.
pub open spec fn expressions_view(v: Seq<Expression>) -> Seq<ExpressionView> {
    Seq::new(v.len(), |k: int| v[k]@)
}

/// The views of a sequence of pairs of expressions.
pub open spec fn pairs_view(v: Seq<(Expression, Expression)>) -> Seq<
    (ExpressionView, ExpressionView),
> {
    Seq::new(v.len(), |k: int| (v[k].0@, v[k].1@))
}

#[derive(Debug)]
#[allow(inconsistent_fields)]
pub enum Statement {
    Declare { line: u32, column: u32, var: String },
    LooseExpression { line: u32, column: u32, expr: Expression },
    Assign { line: u32, column: u32, var: Expression, assign_op: AssignOp, expr: Expression },
    Expression { line: u32, column: u32, expr: Expression },
    For {
        line: u32,
        column: u32,
        var: String,
        from: Option<Expression>,
        to: Expression,
        step: Option<Expression>,
        lines: Vec<Statement>,
    },
    While { line: u32, column: u32, expr: Expression, lines: Vec<Statement> },
    If {
        line: u32,
        column: u32,
        expr: Expression,
        lines: Vec<Statement>,
        else_lines: Option<Vec<Statement>>,
    },
    Return { line: u32, column: u32, expr: Option<Expression> },
    Continue { line: u32, column: u32, levels: u8 },
    Break { line: u32, column: u32, levels: u8 },
}

#[allow(inconsistent_fields)]
pub enum StatementView {
    Declare { line: u32, column: u32, var: Seq<char> },
    LooseExpression { line: u32, column: u32, expr: ExpressionView },
    Assign {
        line: u32,
        column: u32,
        var: ExpressionView,
        assign_op: AssignOp,
        expr: ExpressionView,
    },
    Expression { line: u32, column: u32, expr: ExpressionView },
    For {
        line: u32,
        column: u32,
        var: Seq<char>,
        from: Option<ExpressionView>,
        to: ExpressionView,
        step: Option<ExpressionView>,
        lines: Seq<StatementView>,
    },
    While { line: u32, column: u32, expr: ExpressionView, lines: Seq<StatementView> },
    If {
        line: u32,
        column: u32,
        expr: ExpressionView,
        lines: Seq<StatementView>,
        else_lines: Option<Seq<StatementView>>,
    },
    Return { line: u32, column: u32, expr: Option<ExpressionView> },
    Continue { line: u32, column: u32, levels: u8 },
    Break { line: u32, column: u32, levels: u8 },
}

/// The view of an expression that may be absent.
pub open spec fn optional_view(e: Option<Expression>) -> Option<ExpressionView> {
    match e {
        Some(e) => Some(e@),
        None => None,
    }
}

impl View for Statement {
    type V = StatementView;

    open spec fn view(&self) -> StatementView {
        self.model()
    }
}

impl Statement {
    /// The mathematical value of the statement.
    #[verifier::opaque]
    pub open spec fn model(&self) -> StatementView
        decreases self,
    {
        match self {
            Statement::Declare { line, column, var } => StatementView::Declare {
                line: *line,
                column: *column,
                var: var@,
            },
            Statement::LooseExpression { line, column, expr } => StatementView::LooseExpression {
                line: *line,
                column: *column,
                expr: expr@,
            },
            Statement::Assign { line, column, var, assign_op, expr } => StatementView::Assign {
                line: *line,
                column: *column,
                var: var@,
                assign_op: *assign_op,
                expr: expr@,
            },
            Statement::Expression { line, column, expr } => StatementView::Expression {
                line: *line,
                column: *column,
                expr: expr@,
            },
            Statement::For { line, column, var, from, to, step, lines } => StatementView::For {
                line: *line,
                column: *column,
                var: var@,
                from: optional_view(*from),
                to: to@,
                step: optional_view(*step),
                lines: Seq::new(
                    lines@.len(),
                    |k: int|
                        if 0 <= k < lines@.len() {
                            lines@[k].model()
                        } else {
                            arbitrary()
                        },
                ),
            },
            Statement::While { line, column, expr, lines } => StatementView::While {
                line: *line,
                column: *column,
                expr: expr@,
                lines: Seq::new(
                    lines@.len(),
                    |k: int|
                        if 0 <= k < lines@.len() {
                            lines@[k].model()
                        } else {
                            arbitrary()
                        },
                ),
            },
            Statement::If { line, column, expr, lines, else_lines } => StatementView::If {
                line: *line,
                column: *column,
                expr: expr@,
                lines: Seq::new(
                    lines@.len(),
                    |k: int|
                        if 0 <= k < lines@.len() {
                            lines@[k].model()
                        } else {
                            arbitrary()
                        },
                ),
                else_lines: match else_lines {
                    Some(other) => Some(
                        Seq::new(
                            other@.len(),
                            |k: int|
                                if 0 <= k < other@.len() {
                                    other@[k].model()
                                } else {
                                    arbitrary()
                                },
                        ),
                    ),
                    None => None,
                },
            },
            Statement::Return { line, column, expr } => StatementView::Return {
                line: *line,
                column: *column,
                expr: optional_view(*expr),
            },
            Statement::Continue { line, column, levels } => StatementView::Continue {
                line: *line,
                column: *column,
                levels: *levels,
            },
            Statement::Break { line, column, levels } => StatementView::Break {
                line: *line,
                column: *column,
                levels: *levels,
            },
        }
    }
}

/// The views of a sequence of statements.
pub open spec fn statements_view(v: Seq<Statement>) -> Seq<StatementView> {
    Seq::new(v.len(), |k: int| v[k]@)
}

/// The views of a sequence of strings.
pub open spec fn names_view(v: Seq<String>) -> Seq<Seq<char>> {
    Seq::new(v.len(), |k: int| v[k]@)
}

/// A function of a script: its name, its parameters and its body.
#[derive(Debug)]
pub struct Function {
    pub name: String,
    pub parameters: Vec<String>,
    pub lines: Vec<Statement>,
}

pub struct FunctionView {
    pub name: Seq<char>,
    pub parameters: Seq<Seq<char>>,
    pub lines: Seq<StatementView>,
}

impl View for Function {
    type V = FunctionView;

    open spec fn view(&self) -> FunctionView {
        FunctionView {
            name: self.name@,
            parameters: names_view(self.parameters@),
            lines: statements_view(self.lines@),
        }
    }
}

/// A parsed source text: its functions and the names of its variables, each
/// in the order of the text.
#[derive(Debug)]
pub struct Script {
    pub functions: Vec<Function>,
    pub variables: Vec<String>,
}

pub struct ScriptView {
    pub functions: Seq<FunctionView>,
    pub variables: Seq<Seq<char>>,
}

impl View for Script {
    type V = ScriptView;

    open spec fn view(&self) -> ScriptView {
        ScriptView {
            functions: Seq::new(self.functions@.len(), |k: int| self.functions@[k]@),
            variables: names_view(self.variables@),
        }
    }
}

/// What went wrong while a token stream was parsed.
#[derive(Debug, PartialEq)]
pub enum ErrorType {
    UnexpectedIndent(u8),
    UnexpectedToken(String),
    ExpectedToken(String),
    UnexpectedEOF,
    NotANumber,
    InternalError,
}

pub enum ErrorTypeView {
    UnexpectedIndent(u8),
    UnexpectedToken(Seq<char>),
    ExpectedToken(Seq<char>),
    UnexpectedEOF,
    NotANumber,
    InternalError,
}

impl View for ErrorType {
    type V = ErrorTypeView;

    open spec fn view(&self) -> ErrorTypeView {
        match *self {
            ErrorType::UnexpectedIndent(n) => ErrorTypeView::UnexpectedIndent(n),
            ErrorType::UnexpectedToken(s) => ErrorTypeView::UnexpectedToken(s@),
            ErrorType::ExpectedToken(s) => ErrorTypeView::ExpectedToken(s@),
            ErrorType::UnexpectedEOF => ErrorTypeView::UnexpectedEOF,
            ErrorType::NotANumber => ErrorTypeView::NotANumber,
            ErrorType::InternalError => ErrorTypeView::InternalError,
        }
    }
}

/// A parse error with the line and column of the token that was read last.
#[derive(Debug, PartialEq)]
pub struct Error {
    pub error: ErrorType,
    pub line: u32,
    pub column: u32,
}

pub struct ErrorView {
    pub error: ErrorTypeView,
    pub line: u32,
    pub column: u32,
}

impl View for Error {
    type V = ErrorView;

    open spec fn view(&self) -> ErrorView {
        ErrorView { error: self.error@, line: self.line, column: self.column }
    }
}

impl Error {
    /// The failure of a parse with the given error at the given place.
    pub fn new<T>(error: ErrorType, line: u32, column: u32) -> (r: Result<T, Error>)
        ensures
            r matches Err(e) && e.error == error && e.line == line && e.column == column,
    {
        Err(Error { error, line, column })
    }
}

} // verus!
