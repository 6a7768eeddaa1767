use tabscript::ast::Real;
use tabscript::builder::ByteCodeBuilder;
use tabscript::bytecode::{ByteCode, CallArgs, Constant, Instruction, SelfCallArgs};
use tabscript::lowering::{ByteCodeError, ByteCodeErrorType};
use tabscript::names::NameTable;
use tabscript::pool::Pool;
use tabscript::script::{parse, Class, CompileError};
use tabscript::variables::Variables;

fn class(source: &str) -> Class {
    parse(source).expect("the source is a script")
}

fn lowering_error(source: &str) -> ByteCodeError {
    match parse(source) {
        Err(CompileError::Lowering(e)) => e,
        Err(e) => panic!("another error: {:?}", e),
        Ok(_) => panic!("no error"),
    }
}

fn empty_builder(curr: u16) -> ByteCodeBuilder {
    ByteCodeBuilder {
        instr: Vec::new(),
        vars: Variables::new(),
        consts: Pool::new(),
        curr,
        max: curr,
        loops: Vec::new(),
        jumps: Vec::new(),
        max_call_args: 0,
    }
}

fn target(i: &Instruction) -> Option<usize> {
    i.target()
}

type I = Instruction;

fn written(i: &Instruction) -> Option<u16> {
    match i {
        I::Call(_, a) | I::CallEnv(a) => a.store_in,
        I::CallSelf(a) => a.store_in,
        I::Iter(r, _, _) | I::IterJmp(r, _) | I::IterIntJmp(r, _) => Some(*r),
        I::IterInt { reg, .. } => Some(*reg),
        I::Add(r, _, _) | I::Sub(r, _, _) | I::Mul(r, _, _) | I::Div(r, _, _) => Some(*r),
        I::Rem(r, _, _) | I::And(r, _, _) | I::Or(r, _, _) | I::Xor(r, _, _) => Some(*r),
        I::Shl(r, _, _) | I::Shr(r, _, _) | I::LessEq(r, _, _) | I::Less(r, _, _) => Some(*r),
        I::Neq(r, _, _) | I::Eq(r, _, _) | I::GetIndex(r, _, _) => Some(*r),
        I::Not(r, _) | I::Neg(r, _) | I::Load(r, _) | I::Move(r, _) => Some(*r),
        I::NewArray(r, _) | I::NewDictionary(r, _) => Some(*r),
        I::CopySelf { dest } => Some(*dest),
        _ => None,
    }
}

fn read(i: &Instruction) -> Vec<u16> {
    match i {
        I::Call(r, a) => std::iter::once(*r).chain(a.args.iter().copied()).collect(),
        I::CallEnv(a) => a.args.clone(),
        I::CallSelf(a) => a.args.clone(),
        I::JmpIf(r, _) | I::JmpNotIf(r, _) | I::RetSome(r) | I::Store(r, _) => vec![*r],
        I::Iter(_, it, _) => vec![*it],
        I::IterInt { from, to, step, .. } => vec![*from, *to, *step],
        I::Add(_, a, b) | I::Sub(_, a, b) | I::Mul(_, a, b) | I::Div(_, a, b) => vec![*a, *b],
        I::Rem(_, a, b) | I::And(_, a, b) | I::Or(_, a, b) | I::Xor(_, a, b) => vec![*a, *b],
        I::Shl(_, a, b) | I::Shr(_, a, b) | I::LessEq(_, a, b) => vec![*a, *b],
        I::Less(_, a, b) | I::Neq(_, a, b) | I::Eq(_, a, b) => vec![*a, *b],
        I::GetIndex(_, a, b) => vec![*a, *b],
        I::Not(_, a) | I::Neg(_, a) | I::Move(_, a) => vec![*a],
        I::SetIndex(r, o, x) => vec![*r, *o, *x],
        _ => Vec::new(),
    }
}

fn check_program(p: &ByteCode) {
    assert!(!p.code.is_empty());
    for i in p.code.iter() {
        if let Some(t) = target(i) {
            assert!(t < p.code.len(), "{:?} in {:?}", i, p.code);
        }
        if let Some(r) = written(i) {
            assert!(r < p.var_count, "{:?} in {:?}", i, p.code);
        }
        for r in read(i) {
            assert!((r as usize) < p.var_count as usize + p.consts.len(), "{:?}", i);
        }
    }
    for (k, a) in p.consts.iter().enumerate() {
        for b in p.consts[k + 1..].iter() {
            assert!(!a.same(b));
        }
    }
    assert!(p.param_count <= p.var_count);
    assert!(p.var_count as usize + p.consts.len() <= 65536);
}

#[test]
fn sum_of_two_constants() {
    let c = class("fn main()\n\treturn 1 + 2");
    let p = &c.functions[0];
    assert_eq!(p.code, vec![Instruction::Add(0, 2, 3), Instruction::RetSome(0)]);
    assert_eq!(p.consts, vec![Constant::Int(1), Constant::Int(2)]);
    assert_eq!(p.param_count, 0);
    assert_eq!(p.var_count, 2);
    assert_eq!(p.max_call_args, 0);
    assert_eq!(p.name(), "main");
}

#[test]
fn counting_loop() {
    let c = class("fn m()\n\tvar s = 0\n\tfor i in 5\n\t\ts += i\n\treturn s");
    let p = &c.functions[0];
    assert_eq!(
        p.code,
        vec![
            Instruction::Move(0, 3),
            Instruction::IterInt { reg: 1, from: 3, to: 4, step: 5, jmp_ip: 4 },
            Instruction::Add(0, 0, 1),
            Instruction::IterIntJmp(1, 2),
            Instruction::RetSome(0),
        ]
    );
    assert_eq!(p.consts, vec![Constant::Int(0), Constant::Int(5), Constant::Int(1)]);
    assert_eq!(p.var_count, 3);
}

#[test]
fn walking_loop_and_parameters() {
    let c = class("fn m(a)\n\tfor x in a\n\t\tenv.see(x)");
    let p = &c.functions[0];
    let call = CallArgs { store_in: None, func: "see".to_string(), args: vec![1] };
    assert_eq!(
        p.code,
        vec![
            Instruction::Iter(1, 0, 3),
            Instruction::CallEnv(Box::new(call)),
            Instruction::IterJmp(1, 1),
            Instruction::RetNone,
        ]
    );
    assert_eq!(p.param_count, 1);
    assert_eq!(p.max_call_args, 1);
}

#[test]
fn if_with_else() {
    let c = class("fn m(x)\n\tif x\n\t\treturn 1\n\telse\n\t\treturn 2");
    let p = &c.functions[0];
    assert_eq!(
        p.code,
        vec![
            Instruction::JmpIf(0, 3),
            Instruction::RetSome(2),
            Instruction::Jmp(4),
            Instruction::RetSome(3),
            Instruction::RetNone,
        ]
    );
}

#[test]
fn while_loop_with_break_and_continue() {
    let c = class("fn m(x)\n\twhile x\n\t\tif x\n\t\t\tbreak\n\t\tcontinue");
    let p = &c.functions[0];
    assert_eq!(
        p.code,
        vec![
            Instruction::Jmp(4),
            Instruction::JmpIf(0, 3),
            Instruction::Jmp(5),
            Instruction::Jmp(4),
            Instruction::JmpNotIf(0, 1),
            Instruction::RetNone,
        ]
    );
}

#[test]
fn break_out_of_for_loops_pops_them() {
    let c = class("fn m(a)\n\tfor i in 3\n\t\tfor x in a\n\t\t\tbreak 1");
    let p = &c.functions[0];
    assert!(p.code.contains(&Instruction::Break { amount: 1, amount_int: 1, jmp_ip: 5 }));
    let inner = class("fn m(a)\n\tfor i in 3\n\t\tfor x in a\n\t\t\tcontinue 1");
    let q = &inner.functions[0];
    assert!(q.code.contains(&Instruction::Break { amount: 1, amount_int: 0, jmp_ip: 4 }));
    check_program(p);
    check_program(q);
}

#[test]
fn calls() {
    let c = class("fn f(a)\n\treturn a\nfn g(o)\n\tvar r = self.f(o)\n\tr = o.size(r, 1)\n\treturn r");
    let p = &c.functions[1];
    let own = SelfCallArgs { store_in: Some(1), func: 0, args: vec![0] };
    let other = CallArgs { store_in: Some(1), func: "size".to_string(), args: vec![1, 3] };
    assert_eq!(
        p.code,
        vec![
            Instruction::CallSelf(Box::new(own)),
            Instruction::Call(0, Box::new(other)),
            Instruction::RetSome(1),
        ]
    );
    assert_eq!(p.max_call_args, 2);
    assert_eq!(c.method("f"), Some(0));
    assert_eq!(c.method("g"), Some(1));
    assert_eq!(c.method("h"), None);
}

#[test]
fn variables_of_the_script_are_loaded_and_stored() {
    let c = class("var a\nvar b\nfn m()\n\tself.b = a");
    let p = &c.functions[0];
    assert_eq!(
        p.code,
        vec![Instruction::Load(0, 0), Instruction::Store(0, 1), Instruction::RetNone]
    );
    assert_eq!(c.locals, vec!["a".to_string(), "b".to_string()]);
}

#[test]
fn compound_assignments() {
    let c = class("var v\nfn m(a)\n\ta[0] += 2\n\tself.v -= 1");
    let p = &c.functions[0];
    assert_eq!(
        p.code,
        vec![
            Instruction::GetIndex(1, 0, 2),
            Instruction::Add(1, 1, 3),
            Instruction::SetIndex(1, 0, 2),
            Instruction::Load(1, 0),
            Instruction::Sub(1, 1, 4),
            Instruction::Store(1, 0),
            Instruction::RetNone,
        ]
    );
}

#[test]
fn literals_of_several_items() {
    let c = class("fn m()\n\tvar a = [7, 8]\n\treturn a");
    let p = &c.functions[0];
    assert_eq!(
        p.code,
        vec![
            Instruction::NewArray(0, 2),
            Instruction::SetIndex(2, 0, 3),
            Instruction::SetIndex(4, 0, 5),
            Instruction::RetSome(0),
        ]
    );
    assert_eq!(
        p.consts,
        vec![Constant::Int(7), Constant::Int(0), Constant::Int(8), Constant::Int(1)]
    );
}

#[test]
fn constants_are_kept_once() {
    let c = class("fn m()\n\tvar a = 1 + 1\n\tvar b = \"x\" + \"x\"\n\tvar c = 1.50 + 1.5\n\tvar d = true & true\n\treturn 1");
    let p = &c.functions[0];
    assert_eq!(p.consts.len(), 4);
    assert_eq!(p.consts[0], Constant::Int(1));
    assert_eq!(p.consts[1], Constant::Str("x".to_string()));
    assert_eq!(p.consts[3], Constant::Bool(true));
    check_program(p);
}

#[test]
fn same_constants() {
    let half = Real { negative: false, whole: 0, fraction: 5, scale: 10 };
    let other = Real { negative: false, whole: 0, fraction: 50, scale: 100 };
    let minus = Real { negative: true, whole: 0, fraction: 5, scale: 10 };
    let zero = Real { negative: false, whole: 0, fraction: 0, scale: 10 };
    let minus_zero = Real { negative: true, whole: 0, fraction: 0, scale: 100 };
    assert!(Constant::Real(half).same(&Constant::Real(other)));
    assert!(!Constant::Real(half).same(&Constant::Real(minus)));
    assert!(Constant::Real(zero).same(&Constant::Real(minus_zero)));
    assert!(!Constant::Int(0).same(&Constant::Real(zero)));
    assert!(!Constant::Int(1).same(&Constant::Bool(true)));
    assert!(Constant::Str("a".to_string()).same(&Constant::Str("a".to_string())));
    assert!(!Constant::Str("a".to_string()).same(&Constant::Str("b".to_string())));
}

#[test]
fn every_jump_stays_in_the_code() {
    let sources = [
        "fn m(a)\n\twhile a\n\t\tfor i in 3\n\t\t\tif i == 1\n\t\t\t\tcontinue 1\n\t\t\telse\n\t\t\t\tbreak 1\n\t\tfor x in a\n\t\t\tif x\n\t\t\t\tcontinue\n\t\t\tbreak",
        "fn m(a)\n\tif a\n\t\treturn 1",
        "fn m(a)\n\tif a\n\t\treturn 1\n\telse\n\t\treturn 2",
        "fn m(a)\n\twhile a\n\t\tbreak",
        "fn m()\n\treturn",
        "fn m()\n\tvar a",
        "fn f(a)\n\treturn a",
        "fn m(a)\n\tvar s = 0\n\tfor i in a to 10 step 2\n\t\tfor j in i\n\t\t\ts += i * j\n\treturn s",
    ];
    for source in sources {
        for p in class(source).functions.iter() {
            check_program(p);
        }
    }
}

#[test]
fn registers_of_a_program_with_a_dictionary() {
    let source = "var v\nfn m(a, b)\n\tvar d = {\"k\": 1}\n\td[a] += env.f(d, b)\n\tself.v = d[\"k\"]\n\treturn d[a] < b";
    for p in class(source).functions.iter() {
        check_program(p);
    }
}

#[test]
fn registers_of_a_program_with_an_array() {
    let source = "fn m(a, b)\n\tvar l = [a, 2, b]\n\tvar r = self.m(l, a)\n\treturn !r";
    for p in class(source).functions.iter() {
        check_program(p);
    }
}

#[test]
fn lowering_errors() {
    assert_eq!(
        lowering_error("fn f(a, a)\n\treturn a").error,
        ByteCodeErrorType::DuplicateParameter("a".to_string())
    );
    assert_eq!(
        lowering_error("fn f()\n\tvar a\n\tvar a").error,
        ByteCodeErrorType::DuplicateVariable("a".to_string())
    );
    assert_eq!(
        lowering_error("fn f(a)\n\tfor a in 3\n\t\treturn a").error,
        ByteCodeErrorType::DuplicateVariable("a".to_string())
    );
    assert_eq!(
        lowering_error("fn f()\n\treturn b").error,
        ByteCodeErrorType::UndefinedVariable("b".to_string())
    );
    assert_eq!(
        lowering_error("fn f()\n\tb = 1").error,
        ByteCodeErrorType::UndefinedVariable("b".to_string())
    );
    assert_eq!(
        lowering_error("fn f()\n\tself.b = 1").error,
        ByteCodeErrorType::UndefinedVariable("b".to_string())
    );
    assert_eq!(lowering_error("fn f()\n\tbreak").error, ByteCodeErrorType::UnexpectedBreak);
    assert_eq!(
        lowering_error("fn f(a)\n\twhile a\n\t\tbreak 1").error,
        ByteCodeErrorType::UnexpectedBreak
    );
    assert_eq!(lowering_error("fn f()\n\tcontinue").error, ByteCodeErrorType::UnexpectedContinue);
    assert_eq!(
        lowering_error("fn f()\n\treturn self.g()").error,
        ByteCodeErrorType::UndefinedFunction("g".to_string())
    );
    assert_eq!(
        lowering_error("fn f()\n\tself = 1").error,
        ByteCodeErrorType::CantAssign("self".to_string())
    );
    assert_eq!(
        lowering_error("fn f()\n\tenv = 1").error,
        ByteCodeErrorType::CantAssign("env".to_string())
    );
    assert!(matches!(
        lowering_error("fn f(a)\n\treturn a && a").error,
        ByteCodeErrorType::Unsupported(_)
    ));
    assert!(matches!(
        lowering_error("fn f(a)\n\treturn env").error,
        ByteCodeErrorType::Unsupported(_)
    ));
}

#[test]
fn blocks_end_the_scope_of_their_variables() {
    let c = class("fn f(a)\n\tif a\n\t\tvar x = 1\n\tif a\n\t\tvar x = 2\n\treturn a");
    check_program(&c.functions[0]);
    assert_eq!(
        lowering_error("fn f(a)\n\tif a\n\t\tvar x = 1\n\treturn x").error,
        ByteCodeErrorType::UndefinedVariable("x".to_string())
    );
}

#[test]
fn registers_run_out() {
    let full = empty_builder(65535);
    match full.alloc_reg(3, 4) {
        Err(e) => {
            assert_eq!(e.error, ByteCodeErrorType::TooManyRegisters);
            assert_eq!((e.line, e.column), (3, 4));
        }
        Ok(_) => panic!("a register was left"),
    }
    let full = empty_builder(65535);
    assert!(matches!(
        full.add_const(Constant::Int(1), 5, 6),
        Err(ByteCodeError { line: 5, column: 6, error: ByteCodeErrorType::TooManyRegisters })
    ));
    let (b, r) = empty_builder(7).alloc_reg(0, 0).ok().expect("a register");
    assert_eq!((r, b.curr, b.max), (7, 8, 8));
    let (b, c) = b.add_const(Constant::Int(1), 0, 0).ok().expect("a constant");
    assert_eq!(c, 65535);
    let (b, d) = b.add_const(Constant::Bool(true), 0, 0).ok().expect("a constant");
    assert_eq!(d, 65534);
    let (b, e) = b.add_const(Constant::Int(1), 0, 0).ok().expect("a constant");
    assert_eq!(e, 65535);
    assert_eq!(b.consts.len(), 2);
    assert_eq!(b.free().curr, 7);
}

#[test]
fn moved_registers_and_targets() {
    assert_eq!(Instruction::Add(1, 65535, 65534).relocate(65534, 3), Instruction::Add(1, 3, 4));
    assert_eq!(Instruction::Move(2, 1).relocate(65534, 3), Instruction::Move(2, 1));
    assert_eq!(Instruction::JmpIf(65535, 0).relocate(65535, 9), Instruction::JmpIf(9, 0));
    let call = CallArgs { store_in: Some(0), func: "f".to_string(), args: vec![1, 65535] };
    let moved = CallArgs { store_in: Some(0), func: "f".to_string(), args: vec![1, 2] };
    assert_eq!(
        Instruction::Call(65535, Box::new(call)).relocate(65535, 2),
        Instruction::Call(2, Box::new(moved))
    );
    assert_eq!(Instruction::Jmp(0).retarget(5), Instruction::Jmp(5));
    assert_eq!(Instruction::IterJmp(1, 0).retarget(5), Instruction::IterJmp(1, 5));
    assert_eq!(Instruction::RetNone.retarget(5), Instruction::RetNone);
    assert_eq!(Instruction::Jmp(4).target(), Some(4));
    assert_eq!(Instruction::Add(0, 0, 0).target(), None);
    assert!(Instruction::RetNone.is_return());
    assert!(Instruction::RetSome(0).is_return());
    assert!(!Instruction::Jmp(0).is_return());
}

#[test]
fn duplicate_names_of_a_script() {
    assert!(matches!(
        parse("var a\nvar a\nfn m()\n\treturn 1"),
        Err(CompileError::DuplicateLocal(name)) if name == "a"
    ));
    assert!(matches!(
        parse("fn m()\n\treturn 1\nfn m()\n\treturn 2"),
        Err(CompileError::DuplicateFunction(name)) if name == "m"
    ));
    assert!(matches!(parse("fn m()\n\treturn \"a"), Err(CompileError::Token(_))));
    assert!(matches!(parse("fn m(\n\treturn 1"), Err(CompileError::Syntax(_))));
}

#[test]
fn name_table() {
    let mut t = NameTable::new();
    assert_eq!(t.get("a"), None);
    assert_eq!(t.insert("a".to_string(), 4), None);
    assert_eq!(t.insert("b".to_string(), 5), None);
    assert_eq!(t.insert("a".to_string(), 6), Some(4));
    assert_eq!(t.get("a"), Some(4));
    assert_eq!(t.get("b"), Some(5));
    assert_eq!(t.get("c"), None);
    assert_eq!(t.remove("a"), Some(4));
    assert_eq!(t.remove("a"), None);
    assert_eq!(t.get("a"), None);
    assert_eq!(t.get("b"), Some(5));
    assert_eq!(t.insert("a".to_string(), 7), None);
    assert_eq!(t.get("a"), Some(7));
}

#[test]
fn variables_in_scope() {
    let a = "a".to_string();
    let b = "b".to_string();
    let c = "c".to_string();
    let vars = Variables::new();
    assert_eq!((vars.len(), vars.find(&a)), (0, None));
    let vars = vars.with(a.clone(), 3).with(b.clone(), 4).with(c.clone(), 9);
    assert_eq!(vars.len(), 3);
    assert_eq!((vars.find(&a), vars.find(&b), vars.find(&c)), (Some(3), Some(4), Some(9)));
    let vars = vars.first(3);
    assert_eq!((vars.len(), vars.find(&c)), (3, Some(9)));
    let vars = vars.first(1);
    assert_eq!(vars.len(), 1);
    assert_eq!((vars.find(&a), vars.find(&b), vars.find(&c)), (Some(3), None, None));
    let vars = vars.with(b.clone(), 5);
    assert_eq!((vars.len(), vars.find(&b)), (2, Some(5)));
    let vars = vars.first(0);
    assert_eq!((vars.len(), vars.find(&a), vars.find(&b)), (0, None, None));
}

#[test]
fn constants_of_a_pool() {
    let half = Real { negative: false, whole: 1, fraction: 5, scale: 10 };
    let same_half = Real { negative: false, whole: 1, fraction: 50, scale: 100 };
    let other = Real { negative: true, whole: 1, fraction: 5, scale: 10 };
    let pool = Pool::new();
    assert_eq!((pool.len(), pool.find(&Constant::Int(1))), (0, None));
    let pool = pool
        .with(Constant::Int(1))
        .with(Constant::Str("a".to_string()))
        .with(Constant::Real(half))
        .with(Constant::Bool(true));
    assert_eq!(pool.len(), 4);
    assert_eq!(pool.find(&Constant::Int(1)), Some(0));
    assert_eq!(pool.find(&Constant::Str("a".to_string())), Some(1));
    assert_eq!(pool.find(&Constant::Real(half)), Some(2));
    assert_eq!(pool.find(&Constant::Real(same_half)), Some(2));
    assert_eq!(pool.find(&Constant::Bool(true)), Some(3));
    assert_eq!(pool.find(&Constant::Int(2)), None);
    assert_eq!(pool.find(&Constant::Str("b".to_string())), None);
    assert_eq!(pool.find(&Constant::Real(other)), None);
    assert_eq!(pool.find(&Constant::Bool(false)), None);
    assert_eq!(pool.get(1), &Constant::Str("a".to_string()));
    let pool = pool.with(Constant::Int(2));
    assert_eq!(pool.find(&Constant::Int(2)), Some(4));
    assert_eq!(
        pool.into_list(),
        vec![
            Constant::Int(1),
            Constant::Str("a".to_string()),
            Constant::Real(half),
            Constant::Bool(true),
            Constant::Int(2),
        ]
    );
}
