use std::cell::RefCell;
use std::rc::Rc;

use tabscript::ast::Real;
use tabscript::bytecode::{ByteCode, CallArgs, Constant, Instruction, SelfCallArgs};
use tabscript::machine::{
    arguments, branch, call, constant_value, is_enclosed, keeps_within, leave, register, store,
    walk_of_integer, Arithmetic,
    CallError, Comparison, Environment, Frame, Machine, Next, Range, RunError, RunState, Silent,
    Status, Tracer, VariantType,
};
use tabscript::script::parse;

#[derive(Clone, Debug, PartialEq)]
enum Value {
    Nothing,
    Bool(bool),
    Int(isize),
    Real(f64),
    Str(String),
    Array(Rc<RefCell<Vec<Value>>>),
    Dict(Rc<RefCell<Vec<(Value, Value)>>>),
}

struct Host;

impl Environment<Value> for Host {
    fn call(&self, name: &str, args: &Vec<Value>) -> Result<Value, CallError> {
        match name {
            "answer" => Ok(Value::Int(42)),
            "count" => Ok(Value::Int(args.len() as isize)),
            _ => Err(CallError::UndefinedFunction),
        }
    }
}

fn int_op(op: Arithmetic, a: isize, b: isize) -> Result<Value, CallError> {
    let r = match op {
        Arithmetic::Add => a.checked_add(b),
        Arithmetic::Sub => a.checked_sub(b),
        Arithmetic::Mul => a.checked_mul(b),
        Arithmetic::Div => a.checked_div(b),
        Arithmetic::Rem => a.checked_rem(b),
        Arithmetic::And => Some(a & b),
        Arithmetic::Or => Some(a | b),
        Arithmetic::Xor => Some(a ^ b),
        Arithmetic::Shl => u32::try_from(b).ok().and_then(|b| a.checked_shl(b)),
        Arithmetic::Shr => u32::try_from(b).ok().and_then(|b| a.checked_shr(b)),
    };
    r.map(Value::Int).ok_or(CallError::InvalidOperator)
}

fn real_op(op: Arithmetic, a: f64, b: f64) -> Result<Value, CallError> {
    match op {
        Arithmetic::Add => Ok(Value::Real(a + b)),
        Arithmetic::Sub => Ok(Value::Real(a - b)),
        Arithmetic::Mul => Ok(Value::Real(a * b)),
        Arithmetic::Div => Ok(Value::Real(a / b)),
        Arithmetic::Rem => Ok(Value::Real(a % b)),
        _ => Err(CallError::IncompatibleType),
    }
}

impl VariantType for Value {
    type Walk = std::vec::IntoIter<Value>;

    fn empty() -> Self {
        Value::Nothing
    }

    fn copy(&self) -> Self {
        self.clone()
    }

    fn new_bool(b: bool) -> Self {
        Value::Bool(b)
    }

    fn new_integer(i: isize) -> Self {
        Value::Int(i)
    }

    fn new_real(r: Real) -> Self {
        let n = r.whole as f64 + r.fraction as f64 / r.scale as f64;
        Value::Real(if r.negative { -n } else { n })
    }

    fn new_string(s: &str) -> Self {
        Value::Str(s.to_string())
    }

    fn new_array(len: usize) -> Self {
        Value::Array(Rc::new(RefCell::new(vec![Value::Nothing; len])))
    }

    fn new_dictionary(capacity: usize) -> Self {
        Value::Dict(Rc::new(RefCell::new(Vec::with_capacity(capacity))))
    }

    fn as_bool(&self) -> Result<bool, CallError> {
        match self {
            Value::Bool(b) => Ok(*b),
            _ => Err(CallError::IncompatibleType),
        }
    }

    fn as_integer(&self) -> Result<isize, CallError> {
        match self {
            Value::Int(i) => Ok(*i),
            _ => Err(CallError::IncompatibleType),
        }
    }

    fn arithmetic(&self, op: Arithmetic, rhs: &Self) -> Result<Self, CallError> {
        match (self, rhs) {
            (Value::Int(a), Value::Int(b)) => int_op(op, *a, *b),
            (Value::Real(a), Value::Real(b)) => real_op(op, *a, *b),
            (Value::Real(a), Value::Int(b)) => real_op(op, *a, *b as f64),
            (Value::Int(a), Value::Real(b)) => real_op(op, *a as f64, *b),
            (Value::Str(a), Value::Str(b)) if op == Arithmetic::Add => {
                Ok(Value::Str(format!("{}{}", a, b)))
            }
            _ => Err(CallError::IncompatibleType),
        }
    }

    fn negate(&self) -> Result<Self, CallError> {
        match self {
            Value::Int(a) => a.checked_neg().map(Value::Int).ok_or(CallError::InvalidOperator),
            Value::Real(a) => Ok(Value::Real(-a)),
            _ => Err(CallError::IncompatibleType),
        }
    }

    fn invert(&self) -> Result<Self, CallError> {
        match self {
            Value::Bool(a) => Ok(Value::Bool(!a)),
            Value::Int(a) => Ok(Value::Int(!a)),
            _ => Err(CallError::IncompatibleType),
        }
    }

    fn compare(&self, how: Comparison, rhs: &Self) -> bool {
        let order = match (self, rhs) {
            (Value::Int(a), Value::Int(b)) => a.partial_cmp(b),
            (Value::Real(a), Value::Real(b)) => a.partial_cmp(b),
            (Value::Bool(a), Value::Bool(b)) => a.partial_cmp(b),
            (Value::Str(a), Value::Str(b)) => a.partial_cmp(b),
            _ => None,
        };
        match how {
            Comparison::Eq => order == Some(std::cmp::Ordering::Equal),
            Comparison::Neq => order != Some(std::cmp::Ordering::Equal),
            Comparison::Less => order == Some(std::cmp::Ordering::Less),
            Comparison::LessEq => {
                order == Some(std::cmp::Ordering::Less) || order == Some(std::cmp::Ordering::Equal)
            }
        }
    }

    fn walk(&self) -> Result<Self::Walk, CallError> {
        match self {
            Value::Nothing => Err(CallError::IsEmpty),
            Value::Int(n) => {
                Ok(walk_of_integer(*n).into_iter().map(Value::Int).collect::<Vec<_>>().into_iter())
            }
            Value::Array(a) => Ok(a.borrow().clone().into_iter()),
            _ => Err(CallError::IncompatibleType),
        }
    }

    fn advance(walk: Self::Walk) -> (Option<Self>, Self::Walk) {
        let mut walk = walk;
        let element = walk.next();
        (element, walk)
    }

    fn index(&self, index: &Self) -> Result<Self, CallError> {
        match (self, index) {
            (Value::Array(a), Value::Int(i)) => {
                a.borrow().get(*i as usize).cloned().ok_or(CallError::IsEmpty)
            }
            (Value::Dict(d), key) => d
                .borrow()
                .iter()
                .find(|(k, _)| k == key)
                .map(|(_, v)| v.clone())
                .ok_or(CallError::IsEmpty),
            _ => Err(CallError::IncompatibleType),
        }
    }

    fn set_index(&self, index: &Self, value: Self) -> Result<(), CallError> {
        match (self, index) {
            (Value::Array(a), Value::Int(i)) => match a.borrow_mut().get_mut(*i as usize) {
                Some(place) => {
                    *place = value;
                    Ok(())
                }
                None => Err(CallError::IsEmpty),
            },
            (Value::Dict(d), key) => {
                let mut entries = d.borrow_mut();
                match entries.iter_mut().find(|(k, _)| k == key) {
                    Some(entry) => entry.1 = value,
                    None => entries.push((key.clone(), value)),
                }
                Ok(())
            }
            _ => Err(CallError::IncompatibleType),
        }
    }

    fn call<E: Environment<Self>>(
        &self,
        name: &str,
        args: &Vec<Self>,
        _env: &E,
    ) -> Result<Self, CallError> {
        match (self, name) {
            (Value::Nothing, _) => Err(CallError::IsEmpty),
            (Value::Str(s), "len") if args.is_empty() => Ok(Value::Int(s.chars().count() as isize)),
            (Value::Str(_), "len") => Err(CallError::BadArgumentCount),
            (Value::Int(i), "abs") if args.is_empty() => Ok(Value::Int(i.abs())),
            _ => Err(CallError::UndefinedFunction),
        }
    }
}

fn run_with(source: &str, name: &str, args: Vec<Value>, budget: u64) -> (Status<Value>, Vec<Value>) {
    let class = parse(source).expect("the source is a script");
    let mut locals: Vec<Value> = class.variables();
    let status = class.call(name, args, &mut locals, Value::Nothing, &Host, &mut Silent {}, budget);
    (status, locals)
}

fn run(source: &str, name: &str, args: Vec<Value>) -> Result<Value, RunError> {
    match run_with(source, name, args, 100_000).0 {
        Status::Done(v) => Ok(v),
        Status::Failed(e) => Err(e),
        Status::Running => panic!("the budget ran out"),
    }
}

fn array(items: Vec<Value>) -> Value {
    Value::Array(Rc::new(RefCell::new(items)))
}

fn program(code: Vec<Instruction>, var_count: u16, max_call_args: u16) -> ByteCode {
    ByteCode {
        code,
        param_count: 0,
        var_count,
        consts: Vec::new(),
        name: "t".to_string(),
        max_call_args,
    }
}

fn run_code(code: Vec<Instruction>, var_count: u16, max_call_args: u16) -> Result<Value, RunError> {
    let functions = vec![program(code, var_count, max_call_args)];
    let mut machine = Machine::new(&functions, 0, Vec::new(), Value::Nothing, &mut Silent {})
        .ok()
        .expect("a machine");
    let mut locals: Vec<Value> = Vec::new();
    match machine.run(&functions, &mut locals, &Host, &mut Silent {}, 1_000) {
        Status::Done(v) => Ok(v),
        Status::Failed(e) => Err(e),
        Status::Running => panic!("the budget ran out"),
    }
}

#[test]
fn main_returns_the_sum() {
    assert_eq!(run("fn main()\n\treturn 1 + 2", "main", vec![]), Ok(Value::Int(3)));
}

#[test]
fn square_of_the_argument() {
    let source = "fn f(x)\n\treturn x * x";
    assert_eq!(run(source, "f", vec![Value::Int(7)]), Ok(Value::Int(49)));
    assert_eq!(run(source, "f", vec![]), Err(RunError::IncorrectArgumentCount));
}

#[test]
fn sum_of_a_counting_loop() {
    let source = "fn m()\n\tvar s = 0\n\tfor i in 5\n\t\ts += i\n\treturn s";
    assert_eq!(run(source, "m", vec![]), Ok(Value::Int(10)));
}

#[test]
fn break_leaves_the_loop() {
    let source =
        "fn m()\n\tvar s = 0\n\tfor i in 10\n\t\tif i == 5\n\t\t\tbreak\n\t\ts += i\n\treturn s";
    assert_eq!(run(source, "m", vec![]), Ok(Value::Int(10)));
}

#[test]
fn element_of_an_array_literal() {
    let source = "fn m()\n\tvar a = [1, 2, 3]\n\treturn a[1]";
    assert_eq!(run(source, "m", vec![]), Ok(Value::Int(2)));
}

#[test]
fn entry_of_a_dictionary_literal() {
    let source = "fn m()\n\tvar d = {\"k\": 7}\n\treturn d[\"k\"]";
    assert_eq!(run(source, "m", vec![]), Ok(Value::Int(7)));
}

#[test]
fn loop_over_zero_has_no_round() {
    let source = "fn m()\n\tvar n = 0\n\tfor i in 0\n\t\tn += 1\n\treturn n";
    assert_eq!(run(source, "m", vec![]), Ok(Value::Int(0)));
}

#[test]
fn loop_over_a_negative_number_counts_down() {
    let source = "fn m()\n\tvar a = [9, 9, 9]\n\tvar n = 0\n\tfor i in -3\n\t\ta[n] = i\n\t\tn += 1\n\treturn a";
    assert_eq!(
        run(source, "m", vec![]),
        Ok(array(vec![Value::Int(0), Value::Int(-1), Value::Int(-2)]))
    );
}

#[test]
fn loop_with_bounds_and_step() {
    let source = "fn m()\n\tvar s = 0\n\tfor i in 1 to 10 step 3\n\t\ts += i\n\treturn s";
    assert_eq!(run(source, "m", vec![]), Ok(Value::Int(1 + 4 + 7)));
    let down = "fn m()\n\tvar s = 0\n\tfor i in 10 to 0 step -4\n\t\ts += i\n\treturn s";
    assert_eq!(run(down, "m", vec![]), Ok(Value::Int(10 + 6 + 2)));
}

#[test]
fn loop_with_the_step_zero_never_ends() {
    let source = "fn m()\n\tvar n = 0\n\tfor i in 0 to 5 step 0\n\t\tn += 1\n\treturn n";
    for budget in [10, 1_000, 50_000] {
        assert!(matches!(run_with(source, "m", vec![], budget).0, Status::Running));
    }
}

#[test]
fn break_with_a_level_leaves_both_loops() {
    let source =
        "fn m()\n\tvar n = 0\n\tfor i in 3\n\t\tfor j in 3\n\t\t\tn += 1\n\t\t\tbreak 1\n\treturn n";
    assert_eq!(run(source, "m", vec![]), Ok(Value::Int(1)));
    let inner =
        "fn m()\n\tvar n = 0\n\tfor i in 3\n\t\tfor j in 3\n\t\t\tn += 1\n\t\t\tbreak\n\treturn n";
    assert_eq!(run(inner, "m", vec![]), Ok(Value::Int(3)));
}

#[test]
fn continue_with_a_level_goes_on_with_the_outer_loop() {
    let source = "fn m()\n\tvar n = 0\n\tfor i in 3\n\t\tfor j in 3\n\t\t\tn += 1\n\t\t\tcontinue 1\n\t\tn += 100\n\treturn n";
    assert_eq!(run(source, "m", vec![]), Ok(Value::Int(3)));
}

#[test]
fn while_with_continue() {
    let source = "fn m()\n\tvar n = 0\n\tvar i = 0\n\twhile i < 5\n\t\ti += 1\n\t\tif i == 3\n\t\t\tcontinue\n\t\tn += i\n\treturn n";
    assert_eq!(run(source, "m", vec![]), Ok(Value::Int(1 + 2 + 4 + 5)));
}

#[test]
fn if_and_else() {
    let source = "fn m(x)\n\tif x > 2\n\t\treturn 1\n\telse\n\t\treturn 0";
    assert_eq!(run(source, "m", vec![Value::Int(3)]), Ok(Value::Int(1)));
    assert_eq!(run(source, "m", vec![Value::Int(2)]), Ok(Value::Int(0)));
}

#[test]
fn walk_over_an_array() {
    let source = "fn m(a)\n\tvar s = 0\n\tfor x in a\n\t\ts += x\n\treturn s";
    let a = array(vec![Value::Int(4), Value::Int(5), Value::Int(6)]);
    assert_eq!(run(source, "m", vec![a]), Ok(Value::Int(15)));
    assert_eq!(run(source, "m", vec![array(vec![])]), Ok(Value::Int(0)));
}

#[test]
fn call_of_a_function_of_the_script() {
    let source = "fn double(x)\n\treturn x * 2\nfn main()\n\treturn self.double(21)";
    assert_eq!(run(source, "main", vec![]), Ok(Value::Int(42)));
}

#[test]
fn recursion() {
    let source =
        "fn fact(n)\n\tif n < 2\n\t\treturn 1\n\treturn n * self.fact(n - 1)";
    assert_eq!(run(source, "fact", vec![Value::Int(10)]), Ok(Value::Int(3628800)));
}

#[test]
fn calls_of_the_host() {
    assert_eq!(run("fn m()\n\treturn env.answer()", "m", vec![]), Ok(Value::Int(42)));
    assert_eq!(run("fn m()\n\treturn env.count(1, 2, 3)", "m", vec![]), Ok(Value::Int(3)));
    let len = "fn m(s)\n\treturn s.len()";
    assert_eq!(run(len, "m", vec![Value::Str("abc".to_string())]), Ok(Value::Int(3)));
    assert_eq!(
        run("fn m()\n\treturn env.nothing()", "m", vec![]),
        Err(call(CallError::UndefinedFunction))
    );
}

#[test]
fn variables_of_the_script() {
    let source = "var counter\nfn bump()\n\tself.counter = 5\n\tself.counter += 2\n\treturn counter";
    let (status, locals) = run_with(source, "bump", vec![], 1_000);
    assert!(matches!(status, Status::Done(Value::Int(7))));
    assert_eq!(locals, vec![Value::Int(7)]);
}

#[test]
fn a_second_run_gives_the_same() {
    let class = parse("fn m(x)\n\tvar s = 0\n\tfor i in x\n\t\ts += i * i\n\treturn s")
        .expect("the source is a script");
    let mut results = Vec::new();
    for _ in 0..2 {
        let mut locals: Vec<Value> = class.variables();
        let args = vec![Value::Int(4)];
        match class.call("m", args, &mut locals, Value::Nothing, &Host, &mut Silent {}, 10_000) {
            Status::Done(v) => results.push(v),
            _ => panic!("no result"),
        }
        assert!(locals.is_empty());
    }
    assert_eq!(results, vec![Value::Int(14), Value::Int(14)]);
}

#[test]
fn run_errors_of_a_script() {
    assert_eq!(run("fn m()\n\treturn 1", "other", vec![]), Err(RunError::UndefinedFunction));
    assert_eq!(
        run("fn m()\n\tif 1\n\t\treturn 2\n\treturn 3", "m", vec![]),
        Err(RunError::NotBoolean)
    );
    assert_eq!(
        run("fn m()\n\treturn 1 + true", "m", vec![]),
        Err(RunError::CallError(Box::new(CallError::IncompatibleType)))
    );
    assert_eq!(
        run("fn m(x)\n\tvar s = 0\n\tfor i in x to 3\n\t\ts += 1\n\treturn s", "m", vec![Value::Nothing]),
        Err(RunError::IncompatibleType)
    );
}

#[test]
fn run_errors_of_the_machine() {
    assert_eq!(run_code(vec![], 0, 0), Err(RunError::IpOutOfBounds));
    assert_eq!(run_code(vec![Instruction::Jmp(7)], 0, 0), Err(RunError::IpOutOfBounds));
    assert_eq!(run_code(vec![Instruction::RetSome(3)], 1, 0), Err(RunError::RegisterOutOfBounds));
    assert_eq!(run_code(vec![Instruction::IterIntJmp(0, 0)], 1, 0), Err(RunError::NoIterator));
    assert_eq!(run_code(vec![Instruction::IterJmp(0, 0)], 1, 0), Err(RunError::NoIterator));
    assert_eq!(
        run_code(vec![Instruction::Break { amount: 1, amount_int: 0, jmp_ip: 0 }], 1, 0),
        Err(RunError::NoIterator)
    );
    assert_eq!(run_code(vec![Instruction::Load(0, 0)], 1, 0), Err(RunError::LocalOutOfBounds));
    assert_eq!(run_code(vec![Instruction::Store(0, 0)], 1, 0), Err(RunError::LocalOutOfBounds));
    let args = CallArgs { store_in: None, func: "count".to_string(), args: vec![0, 0] };
    assert_eq!(
        run_code(vec![Instruction::CallEnv(Box::new(args))], 1, 1),
        Err(RunError::ArgumentOutOfBounds)
    );
    let own = SelfCallArgs { store_in: None, func: 5, args: vec![] };
    assert_eq!(
        run_code(vec![Instruction::CallSelf(Box::new(own))], 1, 0),
        Err(RunError::UndefinedFunction)
    );
}

#[test]
fn machine_stops_without_frames() {
    let functions = vec![program(vec![Instruction::RetNone], 0, 0)];
    let mut machine = Machine::new(&functions, 0, Vec::new(), Value::Nothing, &mut Silent {})
        .ok()
        .expect("a machine");
    let mut locals: Vec<Value> = Vec::new();
    assert!(matches!(
        machine.step(&functions, &mut locals, &Host, &mut Silent {}),
        Status::Done(Value::Nothing)
    ));
    assert!(machine.frames.is_empty());
    assert!(matches!(
        machine.step(&functions, &mut locals, &Host, &mut Silent {}),
        Status::Failed(RunError::IpOutOfBounds)
    ));
    assert!(matches!(
        Machine::<Value>::new(&functions, 1, Vec::new(), Value::Nothing, &mut Silent {}),
        Err(RunError::UndefinedFunction)
    ));
}

#[test]
fn frame_of_a_call() {
    let class = parse("fn f(a, b)\n\treturn a + 1").expect("the source is a script");
    let f = &class.functions[0];
    let frame = Frame::new(0, f, vec![Value::Int(8), Value::Int(9)], None).ok().expect("a frame");
    assert_eq!(frame.state.vars.len(), f.var_count as usize + f.consts.len());
    assert_eq!(frame.state.vars[0], Value::Int(8));
    assert_eq!(frame.state.vars[1], Value::Int(9));
    assert_eq!(frame.state.vars[f.var_count as usize], Value::Int(1));
    assert_eq!(frame.ip, 0);
    assert!(matches!(
        Frame::<Value>::new(0, f, vec![Value::Int(8)], None),
        Err(RunError::IncorrectArgumentCount)
    ));
}

#[test]
fn constants_as_the_host_makes_them() {
    assert_eq!(constant_value::<Value>(&Constant::Bool(true)), Value::Bool(true));
    assert_eq!(constant_value::<Value>(&Constant::Int(-7)), Value::Int(-7));
    assert_eq!(constant_value::<Value>(&Constant::Str("ab".to_string())), Value::Str("ab".to_string()));
    let half = Real { negative: true, whole: 2, fraction: 5, scale: 10 };
    assert_eq!(constant_value::<Value>(&Constant::Real(half)), Value::Real(-2.5));
}

fn frame_with(vars: Vec<Value>) -> Frame<Value> {
    Frame {
        function: 0,
        ip: 1,
        state: RunState { vars },
        walks: Vec::new(),
        ranges: Vec::new(),
        store_in: None,
    }
}

fn execute(frame: &mut Frame<Value>, i: Instruction, locals: &mut Vec<Value>) -> Next<Value> {
    frame.execute(&i, 4, locals, &Host, &Value::Int(77))
}

#[test]
fn steps_of_a_walk() {
    let items = array(vec![Value::Int(1), Value::Int(2)]);
    let mut frame = frame_with(vec![Value::Nothing, items]);
    let mut locals: Vec<Value> = Vec::new();
    assert!(matches!(execute(&mut frame, Instruction::Iter(0, 1, 9), &mut locals), Next::Continue));
    assert_eq!(frame.state.vars[0], Value::Int(1));
    assert_eq!((frame.ip, frame.walks.len()), (1, 1));
    assert!(matches!(execute(&mut frame, Instruction::IterJmp(0, 5), &mut locals), Next::Continue));
    assert_eq!(frame.state.vars[0], Value::Int(2));
    assert_eq!((frame.ip, frame.walks.len()), (5, 1));
    assert!(matches!(execute(&mut frame, Instruction::IterJmp(0, 3), &mut locals), Next::Continue));
    assert_eq!(frame.state.vars[0], Value::Int(2));
    assert_eq!((frame.ip, frame.walks.len()), (5, 0));
    assert!(matches!(
        execute(&mut frame, Instruction::IterJmp(0, 3), &mut locals),
        Next::Fail(RunError::NoIterator)
    ));
    let mut empty = frame_with(vec![Value::Nothing, array(vec![])]);
    assert!(matches!(execute(&mut empty, Instruction::Iter(0, 1, 9), &mut locals), Next::Continue));
    assert_eq!((empty.ip, empty.walks.len()), (9, 0));
}

#[test]
fn only_a_store_changes_a_variable() {
    let mut frame = frame_with(vec![Value::Int(4), Value::Int(5), Value::Nothing]);
    let mut locals = vec![Value::Int(10), Value::Int(20)];
    assert!(matches!(execute(&mut frame, Instruction::Store(1, 0), &mut locals), Next::Continue));
    assert_eq!(locals, vec![Value::Int(5), Value::Int(20)]);
    assert_eq!(frame.state.vars, vec![Value::Int(4), Value::Int(5), Value::Nothing]);
    assert!(matches!(execute(&mut frame, Instruction::Load(2, 1), &mut locals), Next::Continue));
    assert_eq!(frame.state.vars[2], Value::Int(20));
    assert!(matches!(execute(&mut frame, Instruction::Add(0, 0, 1), &mut locals), Next::Continue));
    assert_eq!(frame.state.vars[0], Value::Int(9));
    assert!(matches!(execute(&mut frame, Instruction::Move(1, 0), &mut locals), Next::Continue));
    assert!(matches!(execute(&mut frame, Instruction::CopySelf { dest: 2 }, &mut locals), Next::Continue));
    assert_eq!(frame.state.vars, vec![Value::Int(9), Value::Int(9), Value::Int(77)]);
    assert_eq!(locals, vec![Value::Int(5), Value::Int(20)]);
    assert!(matches!(
        execute(&mut frame, Instruction::Store(0, 2), &mut locals),
        Next::Fail(RunError::LocalOutOfBounds)
    ));
    assert!(matches!(
        execute(&mut frame, Instruction::Store(3, 0), &mut locals),
        Next::Fail(RunError::RegisterOutOfBounds)
    ));
    assert_eq!(locals, vec![Value::Int(5), Value::Int(20)]);
}

#[test]
fn a_return_takes_the_value_out_of_its_register() {
    let mut frame = frame_with(vec![Value::Int(4)]);
    let mut locals: Vec<Value> = Vec::new();
    assert!(matches!(
        execute(&mut frame, Instruction::RetSome(0), &mut locals),
        Next::Return(Value::Int(4))
    ));
    assert_eq!(frame.state.vars, vec![Value::Nothing]);
    assert!(matches!(
        execute(&mut frame, Instruction::RetNone, &mut locals),
        Next::Return(Value::Nothing)
    ));
    assert!(matches!(
        execute(&mut frame, Instruction::RetSome(1), &mut locals),
        Next::Fail(RunError::RegisterOutOfBounds)
    ));
}

#[test]
fn a_run_without_a_budget_does_nothing() {
    let functions = vec![program(vec![Instruction::RetNone], 0, 0)];
    let mut machine = Machine::new(&functions, 0, Vec::new(), Value::Nothing, &mut Silent {})
        .ok()
        .expect("a machine");
    let mut locals = vec![Value::Int(1)];
    assert!(matches!(
        machine.run(&functions, &mut locals, &Host, &mut Silent {}, 0),
        Status::Running
    ));
    assert_eq!((machine.frames.len(), machine.frames[0].ip), (1, 0));
    assert_eq!(locals, vec![Value::Int(1)]);
    assert!(matches!(
        machine.run(&functions, &mut locals, &Host, &mut Silent {}, 1),
        Status::Done(Value::Nothing)
    ));
    assert_eq!(machine.frames.len(), 0);
    assert!(matches!(
        machine.run(&functions, &mut locals, &Host, &mut Silent {}, 0),
        Status::Failed(RunError::IpOutOfBounds)
    ));
}

#[test]
fn a_function_without_code_stops_the_program() {
    let functions = vec![program(Vec::new(), 0, 0)];
    let mut machine = Machine::new(&functions, 0, Vec::new(), Value::Nothing, &mut Silent {})
        .ok()
        .expect("a machine");
    let mut locals: Vec<Value> = Vec::new();
    assert!(matches!(
        machine.run(&functions, &mut locals, &Host, &mut Silent {}, 5),
        Status::Failed(RunError::IpOutOfBounds)
    ));
}

#[test]
fn copies_of_the_arguments() {
    let vars = vec![Value::Int(4), Value::Bool(false), Value::Str("s".to_string())];
    assert_eq!(
        arguments(&vars, &vec![2, 0, 0], 3),
        Ok(vec![Value::Str("s".to_string()), Value::Int(4), Value::Int(4)])
    );
    assert_eq!(arguments(&vars, &vec![], 0), Ok(vec![]));
    assert_eq!(arguments(&vars, &vec![0, 1], 1), Err(RunError::ArgumentOutOfBounds));
    assert_eq!(arguments(&vars, &vec![0, 3], 2), Err(RunError::RegisterOutOfBounds));
}

#[test]
fn loops_that_stop_the_program() {
    let iter_int = |from, to, step| Instruction::IterInt { reg: 0, from, to, step, jmp_ip: 1 };
    assert_eq!(
        run_code(vec![iter_int(9, 0, 0), Instruction::RetNone], 1, 0),
        Err(RunError::RegisterOutOfBounds)
    );
    assert_eq!(
        run_code(vec![iter_int(0, 0, 9), Instruction::RetNone], 1, 0),
        Err(RunError::RegisterOutOfBounds)
    );
    assert_eq!(
        run_code(vec![iter_int(0, 0, 0), Instruction::RetNone], 1, 0),
        Err(RunError::IncompatibleType)
    );
    assert_eq!(
        run_code(vec![Instruction::Iter(0, 9, 1), Instruction::RetNone], 1, 0),
        Err(RunError::RegisterOutOfBounds)
    );
    assert_eq!(
        run_code(vec![Instruction::Iter(0, 0, 1), Instruction::RetNone], 1, 0),
        Err(RunError::CallError(Box::new(CallError::IsEmpty)))
    );
}

#[test]
fn rounds_of_a_range() {
    let r = Range::start(Ok(0), Ok(3), Ok(1)).unwrap().unwrap();
    assert_eq!(r, Range { current: 0, stop: 3, step: 1 });
    assert_eq!(r.next(), Some(Range { current: 1, stop: 3, step: 1 }));
    assert_eq!(Range { current: 2, stop: 3, step: 1 }.next(), None);
    assert_eq!(Range::start(Ok(4), Ok(4), Ok(1)), Ok(None));
    assert_eq!(
        Range { current: 0, stop: -3, step: 1 }.next(),
        Some(Range { current: -1, stop: -3, step: 1 })
    );
    assert_eq!(Range { current: -2, stop: -3, step: 1 }.next(), None);
    assert_eq!(
        Range { current: 5, stop: 0, step: -2 }.next(),
        Some(Range { current: 3, stop: 0, step: -2 })
    );
    assert_eq!(Range { current: 1, stop: 0, step: -2 }.next(), None);
    assert_eq!(Range { current: 0, stop: 9, step: -1 }.next(), None);
    let still = Range { current: 2, stop: 9, step: 0 };
    assert_eq!(still.next(), Some(still));
    assert_eq!(Range { current: isize::MAX - 1, stop: isize::MAX, step: 5 }.next(), None);
    assert_eq!(Range { current: isize::MIN + 1, stop: isize::MIN, step: -5 }.next(), None);
    assert_eq!(
        Range::start(Err(CallError::IsEmpty), Ok(1), Ok(1)),
        Err(RunError::IncompatibleType)
    );
    assert_eq!(
        Range::start(Ok(1), Ok(2), Err(CallError::IsEmpty)),
        Err(RunError::IncompatibleType)
    );
}

#[test]
fn conditional_jumps() {
    assert_eq!(branch(Ok(false), false, 9, 4), Ok(9));
    assert_eq!(branch(Ok(true), false, 9, 4), Ok(4));
    assert_eq!(branch(Ok(true), true, 9, 4), Ok(9));
    assert_eq!(branch(Ok(false), true, 9, 4), Ok(4));
    assert_eq!(branch(Err(CallError::IncompatibleType), true, 9, 4), Err(RunError::NotBoolean));
}

#[test]
fn registers_and_loops() {
    let mut vars = vec![1, 2, 3];
    assert_eq!(register(&vars, 2), Ok(&3));
    assert_eq!(register(&vars, 3), Err(RunError::RegisterOutOfBounds));
    assert_eq!(store(&mut vars, 1, 7), Ok(()));
    assert_eq!(vars, vec![1, 7, 3]);
    assert_eq!(store(&mut vars, 3, 7), Err(RunError::RegisterOutOfBounds));
    assert_eq!(vars, vec![1, 7, 3]);
    let mut walks = vec!['a', 'b', 'c'];
    let one = Range { current: 0, stop: 1, step: 1 };
    let mut ranges = vec![one, one];
    assert_eq!(leave(&mut walks, &mut ranges, 2, 1), Ok(()));
    assert_eq!(walks, vec!['a']);
    assert_eq!(ranges, vec![one]);
    assert_eq!(leave(&mut walks, &mut ranges, 2, 1), Err(RunError::NoIterator));
    assert_eq!(leave(&mut walks, &mut ranges, 0, 2), Err(RunError::NoIterator));
    assert_eq!(walks, vec!['a']);
    assert_eq!(ranges, vec![one]);
}

struct Counter {
    seen: Vec<(usize, usize)>,
    calls: Vec<String>,
}

impl Tracer<Value> for Counter {
    fn passive(&self) -> bool {
        true
    }

    fn begin(&mut self, function: usize) {
        self.calls.push(format!("begin {}", function));
    }

    fn peek(&mut self, function: usize, ip: usize, state: &mut RunState<Value>) {
        self.seen.push((function, ip));
        let registers = state.variables().len();
        assert!(registers > 0);
    }

    fn end(&mut self, function: usize) {
        self.calls.push(format!("end {}", function));
    }
}

#[test]
fn tracer_sees_every_instruction() {
    let class = parse("fn main()\n\treturn 1 + 2").expect("the source is a script");
    let mut locals: Vec<Value> = class.variables();
    let mut tracer = Counter { seen: Vec::new(), calls: Vec::new() };
    let status = class.call("main", vec![], &mut locals, Value::Nothing, &Host, &mut tracer, 100);
    assert!(matches!(status, Status::Done(Value::Int(3))));
    assert_eq!(tracer.seen, vec![(0, 0), (0, 1)]);
    assert_eq!(tracer.calls, vec!["begin 0", "end 0"]);
}

#[test]
fn tracer_sees_every_call() {
    let source = "fn double(x)\n\treturn x * 2\nfn main()\n\treturn self.double(21)";
    let class = parse(source).expect("the source is a script");
    let mut locals: Vec<Value> = class.variables();
    let mut tracer = Counter { seen: Vec::new(), calls: Vec::new() };
    let status = class.call("main", vec![], &mut locals, Value::Nothing, &Host, &mut tracer, 100);
    assert!(matches!(status, Status::Done(Value::Int(42))));
    assert_eq!(tracer.calls, vec!["begin 1", "begin 0", "end 0", "end 1"]);
    let failing = parse("fn inner()\n\treturn 1 + true\nfn outer()\n\treturn self.inner()")
        .expect("the source is a script");
    let mut tracer = Counter { seen: Vec::new(), calls: Vec::new() };
    let status =
        failing.call("outer", vec![], &mut locals, Value::Nothing, &Host, &mut tracer, 100);
    assert!(matches!(status, Status::Failed(RunError::CallError(_))));
    assert_eq!(tracer.calls, vec!["begin 1", "begin 0", "end 0", "end 1"]);
}

#[test]
fn real_constants_reach_the_host() {
    assert_eq!(run("fn m()\n\treturn 2.5 + 1", "m", vec![]), Ok(Value::Real(3.5)));
    assert_eq!(run("fn m()\n\treturn -0.25", "m", vec![]), Ok(Value::Real(-0.25)));
}

#[test]
fn value_of_self() {
    let class = parse("fn me()\n\tvar x = self\n\treturn x").expect("the source is a script");
    let mut locals: Vec<Value> = class.variables();
    let this = Value::Str("object".to_string());
    let status = class.call("me", vec![], &mut locals, this.clone(), &Host, &mut Silent {}, 100);
    match status {
        Status::Done(v) => assert_eq!(v, this),
        _ => panic!("no result"),
    }
}

#[test]
fn walk_over_an_integer() {
    assert_eq!(walk_of_integer(-3), vec![0, -1, -2]);
    assert_eq!(walk_of_integer(0), Vec::<isize>::new());
    assert_eq!(walk_of_integer(1), vec![0]);
    assert_eq!(walk_of_integer(-1), vec![0]);
    assert_eq!(walk_of_integer(5), vec![0, 1, 2, 3, 4]);
}

#[test]
fn an_endless_loop_gives_no_result() {
    let code = vec![
        Instruction::IterInt { reg: 0, from: 1, to: 2, step: 3, jmp_ip: 2 },
        Instruction::IterIntJmp(0, 1),
    ];
    let endless = ByteCode {
        code,
        param_count: 0,
        var_count: 1,
        consts: vec![Constant::Int(4), Constant::Int(9), Constant::Int(0)],
        name: "t".to_string(),
        max_call_args: 0,
    };
    let functions = vec![endless];
    assert!(is_enclosed(&functions[0], 1, 1));
    let mut machine = Machine::new(&functions, 0, Vec::new(), Value::Nothing, &mut Silent {})
        .ok()
        .expect("a machine");
    let mut locals: Vec<Value> = Vec::new();
    for _ in 0..3 {
        assert!(matches!(
            machine.run(&functions, &mut locals, &Host, &mut Silent {}, 500),
            Status::Running
        ));
        let frame = &machine.frames[0];
        assert_eq!((frame.ip, frame.state.vars[0].clone()), (1, Value::Int(4)));
        assert_eq!(frame.ranges, vec![Range { current: 4, stop: 9, step: 0 }]);
    }
}

#[test]
fn the_body_of_a_lowered_loop_is_enclosed() {
    let source = "fn m()\n\tvar n = 0\n\tfor i in 0 to 5 step 0\n\t\tif n < 3\n\t\t\tn += 1\n\treturn n";
    let class = parse(source).expect("the source is a script");
    let m = &class.functions[0];
    let (hi, body) = m
        .code
        .iter()
        .enumerate()
        .find_map(|(k, i)| match i {
            Instruction::IterIntJmp(_, body) => Some((k, *body)),
            _ => None,
        })
        .expect("the end of a round");
    assert!(body <= hi);
    assert!(is_enclosed(m, body, hi));
    assert!(!is_enclosed(m, body, hi + 1));
    assert!(!is_enclosed(m, body - 1, hi));
    assert!(!is_enclosed(m, 0, m.code.len() - 1));
    assert!(matches!(run_with(source, "m", vec![], 5_000).0, Status::Running));
}

#[test]
fn instructions_that_stay_in_a_body() {
    assert!(keeps_within(&Instruction::Add(0, 1, 2), 3, 5));
    assert!(keeps_within(&Instruction::Jmp(3), 3, 5));
    assert!(keeps_within(&Instruction::JmpIf(0, 5), 3, 5));
    assert!(!keeps_within(&Instruction::JmpNotIf(0, 6), 3, 5));
    assert!(!keeps_within(&Instruction::Jmp(2), 3, 5));
    assert!(!keeps_within(&Instruction::RetNone, 3, 5));
    assert!(!keeps_within(&Instruction::RetSome(0), 3, 5));
    assert!(!keeps_within(&Instruction::IterIntJmp(0, 4), 3, 5));
    assert!(!keeps_within(&Instruction::Break { amount: 0, amount_int: 1, jmp_ip: 4 }, 3, 5));
}
