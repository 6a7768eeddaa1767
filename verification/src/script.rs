use vstd::prelude::*;
use crate::ast::{names_view, Error, ErrorView, Function, FunctionView, Script, ScriptView};
use crate::builder::{ByteCodeBuilder, Names};
use crate::bytecode::{programs_view, ByteCode, ByteCodeView, InstructionView};
use crate::lowering::{ByteCodeError, ByteCodeErrorView, Scope};
use crate::machine::{
    lemma_run_keeps_variables, models, new_frame, ran_for, refused, storeless, Environment,
    FrameView, Machine, RunError, Status, Tracer, VariantType,
};
use crate::names::NameTable;
use crate::program::well_formed;
use crate::statements::compiled;
use crate::stream::{token_entries, TokenStream};
use crate::syntax::parsed_script;
use crate::text::byte_len;
use crate::tokenizer::TokenStreamError;

verus! {

/// Why a source text is no script.
#[derive(Debug, PartialEq)]
pub enum CompileError {
    /// The text cannot be read as tokens.
    Token(TokenStreamError),
    /// The tokens are not what the grammar asks for.
    Syntax(Error),
    /// A function cannot be lowered.
    Lowering(ByteCodeError),
    /// Two variables of the script have this name.
    DuplicateLocal(String),
    /// Two functions of the script have this name.
    DuplicateFunction(String),
    /// The script has more variables or functions than can be numbered.
    TooManyNames,
}

pub enum CompileErrorView {
    Token(TokenStreamError),
    Syntax(ErrorView),
    Lowering(ByteCodeErrorView),
    DuplicateLocal(Seq<char>),
    DuplicateFunction(Seq<char>),
    TooManyNames,
}

impl View for CompileError {
    type V = CompileErrorView;

    open spec fn view(&self) -> CompileErrorView {
        match *self {
            CompileError::Token(e) => CompileErrorView::Token(e),
            CompileError::Syntax(e) => CompileErrorView::Syntax(e@),
            CompileError::Lowering(e) => CompileErrorView::Lowering(e@),
            CompileError::DuplicateLocal(s) => CompileErrorView::DuplicateLocal(s@),
            CompileError::DuplicateFunction(s) => CompileErrorView::DuplicateFunction(s@),
            CompileError::TooManyNames => CompileErrorView::TooManyNames,
        }
    }
}

/// A script that can be run: the names of its variables in the order of
/// their slots, the programs of its functions, and the numbers of both by
/// name.
pub struct Class {
    pub locals: Vec<String>,
    pub functions: Vec<ByteCode>,
    pub names: Names,
}

pub struct ClassView {
    pub locals: Seq<Seq<char>>,
    pub functions: Seq<ByteCodeView>,
    pub names: Scope,
}

impl View for Class {
    type V = ClassView;

    open spec fn view(&self) -> ClassView {
        ClassView {
            locals: names_view(self.locals@),
            functions: programs_view(self.functions@),
            names: self.names@,
        }
    }
}

/// The names of `names` from index `k` on, each numbered by its index,
/// added to `table`; or the first of them that has a number already.
pub open spec fn numbered(names: Seq<Seq<char>>, k: int, table: Map<Seq<char>, u16>) -> Result<
    Map<Seq<char>, u16>,
    Seq<char>,
>
    decreases names.len() - k,
{
    if k < 0 || k >= names.len() {
        Ok(table)
    } else if table.contains_key(names[k]) {
        Err(names[k])
    } else {
        numbered(names, k + 1, table.insert(names[k], k as u16))
    }
}

/// The names of a sequence of functions.
pub open spec fn function_names(fs: Seq<FunctionView>) -> Seq<Seq<char>> {
    Seq::new(fs.len(), |k: int| fs[k].name)
}

/// The programs of the functions of `fs` from index `k` on, behind those of
/// `acc`; or the error of the first that cannot be lowered.
pub open spec fn programs(fs: Seq<FunctionView>, env: Scope, k: int, acc: Seq<ByteCodeView>) -> Result<
    Seq<ByteCodeView>,
    ByteCodeErrorView,
>
    decreases fs.len() - k,
{
    if k < 0 || k >= fs.len() {
        Ok(acc)
    } else {
        match compiled(fs[k], env) {
            Err(e) => Err(e),
            Ok(p) => programs(fs, env, k + 1, acc.push(p)),
        }
    }
}

/// The class that a parsed script amounts to. No two of its variables and no
/// two of its functions have one name.
pub open spec fn built(s: ScriptView) -> Result<ClassView, CompileErrorView> {
    if s.variables.len() > u16::MAX || s.functions.len() > u16::MAX {
        Err(CompileErrorView::TooManyNames)
    } else {
        match numbered(s.variables, 0, Map::empty()) {
            Err(name) => Err(CompileErrorView::DuplicateLocal(name)),
            Ok(locals) => match numbered(function_names(s.functions), 0, Map::empty()) {
                Err(name) => Err(CompileErrorView::DuplicateFunction(name)),
                Ok(methods) => match programs(
                    s.functions,
                    Scope { methods, locals },
                    0,
                    Seq::empty(),
                ) {
                    Err(e) => Err(CompileErrorView::Lowering(e)),
                    Ok(functions) => Ok(
                        ClassView {
                            locals: s.variables,
                            functions,
                            names: Scope { methods, locals },
                        },
                    ),
                },
            },
        }
    }
}

/// The class that a source text amounts to.
pub open spec fn class_of(source: Seq<char>) -> Result<ClassView, CompileErrorView> {
    match token_entries(source) {
        Err(e) => Err(CompileErrorView::Token(e)),
        Ok(entries) => match parsed_script(entries) {
            Err(e) => Err(CompileErrorView::Syntax(e)),
            Ok(s) => built(s),
        },
    }
}

/// Whether every program of a class is well formed and has a number, and
/// every name of a function is the name of the program with its number.
pub open spec fn sound_class(c: ClassView) -> bool {
    &&& c.functions.len() <= u16::MAX
    &&& forall|k: int| 0 <= k < c.functions.len() ==> well_formed(#[trigger] c.functions[k])
    &&& forall|n: Seq<char>| #[trigger]
        c.names.methods.contains_key(n) ==> c.names.methods[n] < c.functions.len()
            && c.functions[c.names.methods[n] as int].name == n
}

/// Whether every name of `table` has the number of a place in `names` that
/// is before `k` and holds the name.
pub open spec fn numbers_places(table: Map<Seq<char>, u16>, names: Seq<Seq<char>>, k: int) -> bool {
    forall|n: Seq<char>| #[trigger]
        table.contains_key(n) ==> table[n] < k && names[table[n] as int] == n
}

/// Numbering gives each name the number of a place that holds it.
pub proof fn lemma_numbered(names: Seq<Seq<char>>, k: int, table: Map<Seq<char>, u16>)
    requires
        0 <= k <= names.len() <= u16::MAX,
        numbered(names, k, table) is Ok,
        numbers_places(table, names, k),
    ensures
        numbers_places(numbered(names, k, table)->Ok_0, names, names.len() as int),
    decreases names.len() - k,
{
    if k < names.len() {
        let next = table.insert(names[k], k as u16);
        assert forall|n: Seq<char>| #[trigger] next.contains_key(n) implies next[n] < k + 1
            && names[next[n] as int] == n by {
            if n != names[k] {
                assert(table.contains_key(n));
            }
        }
        lemma_numbered(names, k + 1, next);
    }
}

/// Numbers the names of `names` by their index.
fn number(names: &Vec<String>) -> (r: Result<NameTable, String>)
    requires
        names@.len() <= u16::MAX,
    ensures
        match r {
            Ok(table) => numbered(names_view(names@), 0, Map::empty()) == Ok::<
                Map<Seq<char>, u16>,
                Seq<char>,
            >(table@),
            Err(name) => numbered(names_view(names@), 0, Map::empty()) == Err::<
                Map<Seq<char>, u16>,
                Seq<char>,
            >(name@),
        },
{
    let ghost views = names_view(names@);
    let mut table = NameTable::new();
    let mut k: usize = 0;
    while k < names.len()
        invariant
            k <= names@.len(),
            names@.len() <= u16::MAX,
            views == names_view(names@),
            numbered(views, 0, Map::empty()) == numbered(views, k as int, table@),
        decreases names@.len() - k,
    {
        proof {
            assert(views[k as int] == names@[k as int]@);
        }
        match table.insert(names[k].clone(), k as u16) {
            Some(_) => {
                return Err(names[k].clone());
            },
            None => {},
        }
        k += 1;
    }
    Ok(table)
}

/// The names of the functions of `fs`.
fn names_of(fs: &Vec<Function>) -> (r: Vec<String>)
    ensures
        names_view(r@) == function_names(Seq::new(fs@.len(), |k: int| fs@[k]@)),
{
    let mut out: Vec<String> = Vec::new();
    let mut k: usize = 0;
    while k < fs.len()
        invariant
            k <= fs@.len(),
            out@.len() == k,
            forall|j: int| 0 <= j < k ==> (#[trigger] out@[j])@ == fs@[j].name@,
        decreases fs@.len() - k,
    {
        out.push(fs[k].name.clone());
        k += 1;
    }
    proof {
        assert(names_view(out@) =~= function_names(Seq::new(fs@.len(), |k: int| fs@[k]@)));
    }
    out
}

/// Lowers each function of `fs` in the scope `env`.
fn lower_all(fs: &Vec<Function>, env: &Names) -> (r: Result<Vec<ByteCode>, ByteCodeError>)
    ensures
        match r {
            Ok(ps) => programs(Seq::new(fs@.len(), |k: int| fs@[k]@), env@, 0, Seq::empty())
                == Ok::<Seq<ByteCodeView>, ByteCodeErrorView>(programs_view(ps@)) && ps@.len()
                == fs@.len() && forall|k: int|
                0 <= k < ps@.len() ==> well_formed(#[trigger] programs_view(ps@)[k])
                    && programs_view(ps@)[k].name == fs@[k].name@,
            Err(e) => programs(Seq::new(fs@.len(), |k: int| fs@[k]@), env@, 0, Seq::empty())
                == Err::<Seq<ByteCodeView>, ByteCodeErrorView>(e@),
        },
{
    let ghost views = Seq::new(fs@.len(), |k: int| fs@[k]@);
    let mut out: Vec<ByteCode> = Vec::new();
    let mut k: usize = 0;
    proof {
        assert(programs_view(out@) =~= Seq::empty());
    }
    while k < fs.len()
        invariant
            k <= fs@.len(),
            out@.len() == k,
            views == Seq::new(fs@.len(), |k: int| fs@[k]@),
            programs(views, env@, 0, Seq::empty()) == programs(
                views,
                env@,
                k as int,
                programs_view(out@),
            ),
            forall|j: int|
                0 <= j < out@.len() ==> well_formed(#[trigger] programs_view(out@)[j])
                    && programs_view(out@)[j].name == fs@[j].name@,
        decreases fs@.len() - k,
    {
        proof {
            assert(views[k as int] == fs@[k as int]@);
        }
        match ByteCodeBuilder::parse(&fs[k], env) {
            Err(e) => {
                return Err(e);
            },
            Ok(p) => {
                let ghost before = programs_view(out@);
                let ghost view = p@;
                out.push(p);
                proof {
                    assert(programs_view(out@) =~= before.push(view));
                    assert forall|j: int| 0 <= j < out@.len() implies well_formed(
                        #[trigger] programs_view(out@)[j],
                    ) && programs_view(out@)[j].name == fs@[j].name@ by {
                        if j < k {
                            assert(programs_view(out@)[j] == before[j]);
                        }
                    }
                }
            },
        }
        k += 1;
    }
    Ok(out)
}

/// Whether the class `c` has a function `name` that takes `count`
/// arguments and can be called with them.
pub open spec fn accepted(c: ClassView, name: Seq<char>, count: nat) -> bool {
    &&& c.names.methods.contains_key(name)
    &&& c.names.methods[name] < c.functions.len()
    &&& refused(c.functions[c.names.methods[name] as int], count) is None
}

/// What a call of the function `name` of the class `c` comes to, with the
/// arguments `args`, on an object with the variables `locals` that `this`
/// stands for, in `budget` steps at most. Where the class has no such
/// function, or the function cannot be called with the arguments, the call
/// fails and the variables stay as they are. Else a machine that holds
/// nothing but the new frame of that call runs for `budget` steps, as
/// `ran_for` says, under a tracer that is `passive` or not.
pub open spec fn invoked<V: VariantType, E: Environment<V>>(
    c: ClassView,
    name: Seq<char>,
    args: Seq<V>,
    passive: bool,
    this: V,
    env: &E,
    locals: Seq<V>,
    locals_after: Seq<V>,
    status: Status<V>,
    budget: nat,
) -> bool {
    if !c.names.methods.contains_key(name) || c.names.methods[name] >= c.functions.len() {
        status == Status::<V>::Failed(RunError::UndefinedFunction) && locals_after == locals
    } else {
        match refused(c.functions[c.names.methods[name] as int], args.len()) {
            Some(e) => status == Status::<V>::Failed(e) && locals_after == locals,
            None => exists|first: FrameView<V>, after: Seq<FrameView<V>>|
                new_frame(
                    c.functions[c.names.methods[name] as int],
                    c.names.methods[name] as usize,
                    args,
                    None,
                    first,
                ) && #[trigger] ran_for(
                    c.functions,
                    env,
                    this,
                    passive,
                    seq![first],
                    locals,
                    after,
                    locals_after,
                    status,
                    budget,
                ),
        }
    }
}

/// A call of a function of a class without a `Store` leaves the variables
/// of the object as they are, whatever it comes to.
pub proof fn lemma_call_keeps_variables<V: VariantType, E: Environment<V>>(
    c: ClassView,
    name: Seq<char>,
    args: Seq<V>,
    passive: bool,
    this: V,
    env: &E,
    locals: Seq<V>,
    locals_after: Seq<V>,
    status: Status<V>,
    budget: nat,
)
    requires
        storeless(c.functions),
        invoked(c, name, args, passive, this, env, locals, locals_after, status, budget),
    ensures
        locals_after == locals,
{
    if accepted(c, name, args.len()) {
        let f = c.names.methods[name];
        let (first, after) = choose|first: FrameView<V>, after: Seq<FrameView<V>>|
            new_frame(c.functions[f as int], f as usize, args, None, first) && #[trigger] ran_for(
                c.functions,
                env,
                this,
                passive,
                seq![first],
                locals,
                after,
                locals_after,
                status,
                budget,
            );
        lemma_run_keeps_variables(
            c.functions,
            env,
            this,
            passive,
            seq![first],
            locals,
            after,
            locals_after,
            status,
            budget,
        );
    }
}

impl Class {
    /// The class of a parsed script.
    pub fn build(script: Script) -> (r: Result<Class, CompileError>)
        ensures
            match r {
                Ok(c) => built(script@) == Ok::<ClassView, CompileErrorView>(c@) && sound_class(
                    c@,
                ),
                Err(e) => built(script@) == Err::<ClassView, CompileErrorView>(e@),
            },
    {
        let Script { functions, variables } = script;
        if variables.len() > u16::MAX as usize || functions.len() > u16::MAX as usize {
            return Err(CompileError::TooManyNames);
        }
        let locals = match number(&variables) {
            Ok(table) => table,
            Err(name) => {
                return Err(CompileError::DuplicateLocal(name));
            },
        };
        let names = names_of(&functions);
        let methods = match number(&names) {
            Ok(table) => table,
            Err(name) => {
                return Err(CompileError::DuplicateFunction(name));
            },
        };
        let env = Names { methods, locals };
        match lower_all(&functions, &env) {
            Err(e) => Err(CompileError::Lowering(e)),
            Ok(programs) => {
                proof {
                    let given = function_names(script@.functions);
                    lemma_numbered(given, 0, Map::empty());
                    assert forall|n: Seq<char>| #[trigger]
                        env@.methods.contains_key(n) implies env@.methods[n] < programs@.len()
                        && programs_view(programs@)[env@.methods[n] as int].name == n by {
                        let k = env@.methods[n] as int;
                        assert(given[k] == n);
                        assert(programs_view(programs@)[k].name == functions@[k].name@);
                    }
                }
                Ok(Class { locals: variables, functions: programs, names: env })
            },
        }
    }

    /// The number of the function `name`, if the class has it.
    pub fn method(&self, name: &str) -> (r: Option<u16>)
        ensures
            r == (if self@.names.methods.contains_key(name@) {
                Some(self@.names.methods[name@])
            } else {
                None::<u16>
            }),
    {
        self.names.methods.get(name)
    }

    /// The variables of a new object of the class: one empty value for each.
    pub fn variables<V: VariantType>(&self) -> (r: Vec<V>)
        ensures
            r@.len() == self@.locals.len(),
            forall|k: int| 0 <= k < r@.len() ==> call_ensures(V::empty, (), #[trigger] r@[k]),
    {
        let mut out: Vec<V> = Vec::new();
        while out.len() < self.locals.len()
            invariant
                out@.len() <= self.locals@.len(),
                forall|k: int|
                    0 <= k < out@.len() ==> call_ensures(V::empty, (), #[trigger] out@[k]),
            decreases self.locals@.len() - out@.len(),
        {
            out.push(V::empty());
        }
        out
    }

    /// Calls the function `name` on an object with the variables `locals`,
    /// which `this` stands for, and executes `budget` instructions at most:
    /// the result and the variables are then what `invoked` says. Says
    /// `Running` where the budget ran out first.
    pub fn call<V: VariantType, E: Environment<V>, T: Tracer<V>>(
        &self,
        name: &str,
        args: Vec<V>,
        locals: &mut Vec<V>,
        this: V,
        env: &E,
        tracer: &mut T,
        budget: u64,
    ) -> (r: Status<V>)
        ensures
            invoked(
                self@,
                name@,
                args@,
                old(tracer).passive(),
                this,
                env,
                old(locals)@,
                final(locals)@,
                r,
                budget as nat,
            ),
            final(locals)@.len() == old(locals)@.len(),
            final(tracer).passive() == old(tracer).passive(),
            !self@.names.methods.contains_key(name@) ==> r == Status::<V>::Failed(
                RunError::UndefinedFunction,
            ),
            self@.names.methods.contains_key(name@) && self@.names.methods[name@]
                < self@.functions.len() && args@.len()
                != self@.functions[self@.names.methods[name@] as int].param_count ==> r
                == Status::<V>::Failed(RunError::IncorrectArgumentCount),
            accepted(self@, name@, args@.len()) && budget == 0 ==> r is Running && final(locals)@
                == old(locals)@,
            accepted(self@, name@, args@.len()) && budget > 0
                && self@.functions[self@.names.methods[name@] as int].code.len() == 0 ==> r
                == Status::<V>::Failed(RunError::IpOutOfBounds),
            accepted(self@, name@, args@.len()) && budget > 0
                && self@.functions[self@.names.methods[name@] as int].code.len() > 0
                && self@.functions[self@.names.methods[name@] as int].code[0]
                == InstructionView::RetNone ==> r is Done,
    {
        match self.method(name) {
            None => Status::Failed(RunError::UndefinedFunction),
            Some(function) => {
                match Machine::new(&self.functions, function, args, this, tracer) {
                    Err(e) => Status::Failed(e),
                    Ok(machine) => {
                        let mut machine = machine;
                        let ghost passive = tracer.passive();
                        let ghost first = machine.frames@[0].model();
                        proof {
                            assert(models(machine.frames@) =~= seq![first]);
                        }
                        let r = machine.run(&self.functions, locals, env, tracer, budget);
                        proof {
                            assert(ran_for(
                                self@.functions,
                                env,
                                this,
                                passive,
                                seq![first],
                                old(locals)@,
                                models(machine.frames@),
                                locals@,
                                r,
                                budget as nat,
                            ));
                        }
                        r
                    },
                }
            },
        }
    }
}

/// Reads a source text as a script.
pub fn parse(source: &str) -> (r: Result<Class, CompileError>)
    requires
        byte_len(source@) < u32::MAX,
    ensures
        match r {
            Ok(c) => class_of(source@) == Ok::<ClassView, CompileErrorView>(c@) && sound_class(c@),
            Err(e) => class_of(source@) == Err::<ClassView, CompileErrorView>(e@),
        },
{
    match TokenStream::parse(source) {
        Err(e) => Err(CompileError::Token(e)),
        Ok(tokens) => match Script::parse(tokens) {
            Err(e) => Err(CompileError::Syntax(e)),
            Ok(script) => Class::build(script),
        },
    }
}

} // verus!
