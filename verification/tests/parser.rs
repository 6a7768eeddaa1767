use tabscript::ast::{Atom, Error, ErrorType, Expression, Script, Statement, UnaryOp};
use tabscript::stream::TokenStream;
use tabscript::tokenizer::{AssignOp, Op};

fn script(source: &str) -> Result<Script, Error> {
    Script::parse(TokenStream::parse(source).expect("the source is made of tokens"))
}

fn lines(source: &str) -> Vec<Statement> {
    let mut s = script(source).expect("the source is a script");
    assert_eq!(s.functions.len(), 1);
    s.functions.remove(0).lines
}

fn returned(source: &str) -> Expression {
    match lines(source).pop() {
        Some(Statement::Return { expr: Some(e), .. }) => e,
        other => panic!("no return with a value: {:?}", other),
    }
}

fn error(source: &str) -> Error {
    match script(source) {
        Err(e) => e,
        Ok(s) => panic!("no error: {:?}", s),
    }
}

fn integer(e: &Expression) -> isize {
    match e {
        Expression::Atom { atom: Atom::Integer(i), .. } => *i,
        other => panic!("no integer: {:?}", other),
    }
}

#[test]
fn functions_and_variables_of_a_script() {
    let s = script("var a\nvar b\n\nfn f()\n\treturn 1\n\nfn g(x, y)\n\treturn x\n")
        .expect("the source is a script");
    assert_eq!(s.variables, vec!["a".to_string(), "b".to_string()]);
    assert_eq!(s.functions.len(), 2);
    assert_eq!(s.functions[0].name, "f");
    assert!(s.functions[0].parameters.is_empty());
    assert_eq!(s.functions[1].name, "g");
    assert_eq!(s.functions[1].parameters, vec!["x".to_string(), "y".to_string()]);
    assert_eq!(s.functions[1].lines.len(), 1);
}

#[test]
fn empty_script() {
    let s = script("").expect("the source is a script");
    assert!(s.functions.is_empty());
    assert!(s.variables.is_empty());
}

#[test]
fn body_needs_one_tab() {
    assert!(script("fn main()\n\treturn 1").is_ok());
    assert_eq!(error("fn main()\n\t\treturn 1").error, ErrorType::UnexpectedIndent(2));
    assert!(script("fn main()\nreturn 1").is_err());
}

#[test]
fn nested_blocks_need_one_tab_more() {
    let body = lines("fn m(a)\n\tif a\n\t\treturn 1\n\treturn 2");
    assert_eq!(body.len(), 2);
    match &body[0] {
        Statement::If { lines, else_lines, .. } => {
            assert_eq!(lines.len(), 1);
            assert!(else_lines.is_none());
        }
        other => panic!("no if: {:?}", other),
    }
    assert_eq!(error("fn m(a)\n\tif a\n\t\t\treturn 1").error, ErrorType::UnexpectedIndent(3));
}

#[test]
fn product_binds_tighter_than_sum() {
    match returned("fn m()\n\treturn 1 + 2 * 3") {
        Expression::Operation { op: Op::Add, left, right, .. } => {
            assert_eq!(integer(&left), 1);
            match *right {
                Expression::Operation { op: Op::Mul, left, right, .. } => {
                    assert_eq!(integer(&left), 2);
                    assert_eq!(integer(&right), 3);
                }
                other => panic!("no product: {:?}", other),
            }
        }
        other => panic!("no sum: {:?}", other),
    }
    match returned("fn m()\n\treturn 1 * 2 + 3") {
        Expression::Operation { op: Op::Add, left, right, .. } => {
            assert_eq!(integer(&right), 3);
            assert!(matches!(*left, Expression::Operation { op: Op::Mul, .. }));
        }
        other => panic!("no sum: {:?}", other),
    }
}

#[test]
fn equal_precedence_groups_to_the_left() {
    match returned("fn m()\n\treturn 1 - 2 - 3") {
        Expression::Operation { op: Op::Sub, left, right, .. } => {
            assert_eq!(integer(&right), 3);
            match *left {
                Expression::Operation { op: Op::Sub, left, right, .. } => {
                    assert_eq!(integer(&left), 1);
                    assert_eq!(integer(&right), 2);
                }
                other => panic!("no difference: {:?}", other),
            }
        }
        other => panic!("no difference: {:?}", other),
    }
}

#[test]
fn calls_indexes_and_literals() {
    match returned("fn m(a)\n\treturn a.f(1, 2)") {
        Expression::Function { expr: Some(on), name, arguments, .. } => {
            assert!(matches!(*on, Expression::Atom { atom: Atom::Name(_), .. }));
            assert_eq!(name, "f");
            assert_eq!(arguments.len(), 2);
        }
        other => panic!("no call: {:?}", other),
    }
    match returned("fn m(a)\n\treturn a[1]") {
        Expression::Operation { op: Op::Index, right, .. } => assert_eq!(integer(&right), 1),
        other => panic!("no index: {:?}", other),
    }
    match returned("fn m()\n\treturn [1, 2, 3]") {
        Expression::Array { array, .. } => assert_eq!(array.len(), 3),
        other => panic!("no array: {:?}", other),
    }
    match returned("fn m()\n\treturn {1: 2, 3: 4}") {
        Expression::Dictionary { dictionary, .. } => assert_eq!(dictionary.len(), 2),
        other => panic!("no dictionary: {:?}", other),
    }
    match returned("fn m(a)\n\treturn !a") {
        Expression::UnaryOperation { op: UnaryOp::Not, .. } => {}
        other => panic!("no negation: {:?}", other),
    }
}

#[test]
fn statements_of_every_kind() {
    let body = lines(
        "fn m(a)\n\tvar x\n\tx = 1\n\tx += 2\n\tfor i in 3\n\t\tcontinue\n\tfor i in 1 to 9 step 2\n\t\tbreak 1\n\twhile a\n\t\ta.f()\n\tif a\n\t\treturn 0\n\telif x\n\t\treturn 1\n\telse\n\t\treturn 2",
    );
    assert_eq!(body.len(), 7);
    assert!(matches!(&body[0], Statement::Declare { var, .. } if var == "x"));
    assert!(matches!(&body[1], Statement::Assign { assign_op: AssignOp::Plain, .. }));
    assert!(matches!(&body[2], Statement::Assign { assign_op: AssignOp::Add, .. }));
    match &body[3] {
        Statement::For { var, from, step, lines, .. } => {
            assert_eq!(var, "i");
            assert!(from.is_none() && step.is_none());
            assert!(matches!(lines[0], Statement::Continue { levels: 0, .. }));
        }
        other => panic!("no for: {:?}", other),
    }
    match &body[4] {
        Statement::For { from, to, step, lines, .. } => {
            assert_eq!(integer(from.as_ref().unwrap()), 1);
            assert_eq!(integer(to), 9);
            assert_eq!(integer(step.as_ref().unwrap()), 2);
            assert!(matches!(lines[0], Statement::Break { levels: 1, .. }));
        }
        other => panic!("no for: {:?}", other),
    }
    assert!(matches!(&body[5], Statement::While { lines, .. } if lines.len() == 1));
    match &body[6] {
        Statement::If { lines, else_lines: Some(other), .. } => {
            assert!(matches!(lines[0], Statement::Return { expr: Some(_), .. }));
            assert_eq!(other.len(), 1);
            assert!(matches!(&other[0], Statement::If { else_lines: Some(_), .. }));
        }
        other => panic!("no if: {:?}", other),
    }
}

#[test]
fn lines_and_columns_of_the_tree() {
    match returned("fn m()\n\treturn 12") {
        Expression::Atom { line, atom: Atom::Integer(12), .. } => assert_eq!(line, 2),
        other => panic!("no number: {:?}", other),
    }
}

#[test]
fn parse_errors() {
    assert_eq!(
        error("fn 1()\n\treturn 1").error,
        ErrorType::UnexpectedToken("Number(\"1\")".to_string())
    );
    assert_eq!(
        error("fn m\n\treturn 1").error,
        ErrorType::UnexpectedToken("Indent(1)".to_string())
    );
    match lines("fn m()\n\treturn").pop() {
        Some(Statement::Return { expr: None, .. }) => {}
        other => panic!("no return without a value: {:?}", other),
    }
    assert_eq!(
        error("fn m = 1").error,
        ErrorType::UnexpectedToken("Assign(None)".to_string())
    );
    assert_eq!(
        error("fn m += 1").error,
        ErrorType::UnexpectedToken("Assign(Add)".to_string())
    );
    assert_eq!(error("fn m + 1").error, ErrorType::UnexpectedToken("Op(Add)".to_string()));
    assert_eq!(error("fn m <= 1").error, ErrorType::UnexpectedToken("Op(LessEq)".to_string()));
    assert_eq!(
        error("fn \"a\\\"b\\n\"").error,
        ErrorType::UnexpectedToken("String(\"a\\\"b\\n\")".to_string())
    );
    assert_eq!(error("fn m self").error, ErrorType::UnexpectedToken("_Self".to_string()));
    assert_eq!(
        error("fn m [").error,
        ErrorType::UnexpectedToken("BracketSquareOpen".to_string())
    );
    assert_eq!(error("fn m").error, ErrorType::UnexpectedEOF);
    assert_eq!(error("fn m()").error, ErrorType::UnexpectedEOF);
    assert_eq!(error("fn m()\n\treturn 0b12").error, ErrorType::NotANumber);
    assert_eq!(
        error("fn m()\n\treturn 99999999999999999999999999").error,
        ErrorType::NotANumber
    );
    assert!(script("fn m()\n\treturn (1").is_err());
    assert!(script("fn m()\n\treturn [1").is_err());
    assert!(script("return 1").is_err());
}
