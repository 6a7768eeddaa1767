use vstd::prelude::*;
use crate::ast::Real;
use crate::bytecode::{
    programs_view, ByteCode, ByteCodeView, Constant, ConstantView, Instruction, InstructionView,
};

verus! {

/// Why a call of the host failed.
#[derive(Copy, Clone, Debug, PartialEq, Eq, Structural)]
pub enum CallError {
    IsEmpty,
    InvalidOperator,
    UndefinedFunction,
    BadArgumentCount,
    IncompatibleType,
}

/// Why a program stopped without a result.
#[derive(Debug, PartialEq)]
pub enum RunError {
    IpOutOfBounds,
    RegisterOutOfBounds,
    NoIterator,
    UndefinedFunction,
    CallError(Box<CallError>),
    IncorrectArgumentCount,
    ArgumentOutOfBounds,
    IncompatibleType,
    NotBoolean,
    LocalOutOfBounds,
}

/// The run error that a failed call of the host amounts to.
pub fn call(e: CallError) -> (r: RunError)
    ensures
        r == RunError::CallError(Box::new(e)),
{
    RunError::CallError(Box::new(e))
}

/// The operations on two values that have an instruction of their own.
#[derive(Copy, Clone, Debug, PartialEq, Eq, Structural)]
pub enum Arithmetic {
    Add,
    Sub,
    Mul,
    Div,
    Rem,
    And,
    Or,
    Xor,
    Shl,
    Shr,
}

/// The comparisons that have an instruction of their own.
#[derive(Copy, Clone, Debug, PartialEq, Eq, Structural)]
pub enum Comparison {
    Eq,
    Neq,
    Less,
    LessEq,
}

/// What a script calls as `env`.
pub trait Environment<V> {
    /// Calls the function `name` of the environment.
    fn call(&self, name: &str, args: &Vec<V>) -> Result<V, CallError>;
}

/// The values that a program works on. The machine moves them between
/// registers and asks the host for everything else.
pub trait VariantType: Sized {
    /// What walks the elements of a value.
    type Walk;

    /// The value of a register that nothing was written to.
    fn empty() -> Self;

    /// A copy of the value.
    fn copy(&self) -> Self;

    fn new_bool(b: bool) -> Self;

    fn new_integer(i: isize) -> Self;

    fn new_real(r: Real) -> Self;

    fn new_string(s: &str) -> Self;

    /// An array of `len` empty values.
    fn new_array(len: usize) -> Self;

    /// A dictionary with room for `capacity` entries.
    fn new_dictionary(capacity: usize) -> Self;

    fn as_bool(&self) -> Result<bool, CallError>;

    fn as_integer(&self) -> Result<isize, CallError>;

    fn arithmetic(&self, op: Arithmetic, rhs: &Self) -> Result<Self, CallError>;

    fn negate(&self) -> Result<Self, CallError>;

    fn invert(&self) -> Result<Self, CallError>;

    fn compare(&self, how: Comparison, rhs: &Self) -> bool;

    /// Starts to walk the elements of the value.
    fn walk(&self) -> Result<Self::Walk, CallError>;

    /// The next element of a walk, if there is one, and the walk behind
    /// it.
    fn advance(walk: Self::Walk) -> (Option<Self>, Self::Walk);

    fn index(&self, index: &Self) -> Result<Self, CallError>;

    fn set_index(&self, index: &Self, value: Self) -> Result<(), CallError>;

    /// Calls the method `name` of the value.
    fn call<E: Environment<Self>>(&self, name: &str, args: &Vec<Self>, env: &E) -> Result<
        Self,
        CallError,
    >;
}

/// The registers of a frame, as a tracer sees them.
pub struct RunState<V> {
    pub vars: Vec<V>,
}

impl<V> RunState<V> {
    /// The registers, which may be changed.
    pub fn variables(&mut self) -> (r: &mut Vec<V>)
        ensures
            *r == old(self).vars,
            final(self).vars == *final(r),
    {
        &mut self.vars
    }
}

/// What is told of every instruction before it is executed.
pub trait Tracer<V> {
    /// Whether the tracer only looks: it leaves the registers that it is
    /// shown as they are. A tracer says of itself whether it is passive, and
    /// stays what it is.
    spec fn passive(&self) -> bool;

    /// A call of the function at index `function` begins.
    fn begin(&mut self, function: usize)
        ensures
            final(self).passive() == old(self).passive(),
    ;

    /// The function at index `function` is about to execute the instruction
    /// at `ip`.
    fn peek(&mut self, function: usize, ip: usize, state: &mut RunState<V>)
        ensures
            final(self).passive() == old(self).passive(),
            old(self).passive() ==> final(state).vars@ == old(state).vars@,
    ;

    /// The call of the function at index `function` that began last and is
    /// not over yet is over.
    fn end(&mut self, function: usize)
        ensures
            final(self).passive() == old(self).passive(),
    ;
}

/// A tracer that does nothing.
pub struct Silent {}

impl<V> Tracer<V> for Silent {
    open spec fn passive(&self) -> bool {
        true
    }

    fn begin(&mut self, function: usize) {
    }

    fn peek(&mut self, function: usize, ip: usize, state: &mut RunState<V>) {
    }

    fn end(&mut self, function: usize) {
    }
}

/// A counting loop that is running: the value of its variable, where it
/// stops, and its step.
#[derive(Copy, Clone, Debug, PartialEq, Eq, Structural)]
pub struct Range {
    pub current: isize,
    pub stop: isize,
    pub step: isize,
}

/// The loop `r` behind one more round, or nothing where it is over. A step
/// that is not negative leads towards the stop from either side, and the loop
/// is over once the stop is reached or passed; with the step 0 it is never
/// reached. A negative step counts down, and the loop is over once the
/// variable is no longer above the stop. A round that would leave the
/// integers ends the loop.
pub open spec fn advanced(r: Range) -> Option<Range> {
    if r.step < 0 {
        if r.current + r.step >= isize::MIN && r.current + r.step > r.stop {
            Some(Range { current: (r.current + r.step) as isize, ..r })
        } else {
            None
        }
    } else if r.current < r.stop {
        if r.current + r.step <= isize::MAX && r.current + r.step < r.stop {
            Some(Range { current: (r.current + r.step) as isize, ..r })
        } else {
            None
        }
    } else if r.current > r.stop {
        if r.current - r.step >= isize::MIN && r.current - r.step > r.stop {
            Some(Range { current: (r.current - r.step) as isize, ..r })
        } else {
            None
        }
    } else {
        None
    }
}

/// The counting loop from `from` to `to`, or nothing where they are equal
/// and the loop has no round.
pub open spec fn begun(from: isize, to: isize, step: isize) -> Option<Range> {
    if from == to {
        None
    } else {
        Some(Range { current: from, stop: to, step })
    }
}

/// A counting loop with the step 0 whose start is not its stop never ends:
/// each round leaves it as it is.
pub proof fn lemma_zero_step_never_ends(r: Range)
    requires
        r.step == 0,
        r.current != r.stop,
    ensures
        advanced(r) == Some(r),
{
}

/// A counting loop is over as soon as it has begun where its start is its
/// stop, whatever its step.
pub proof fn lemma_empty_range(from: isize, step: isize)
    ensures
        begun(from, from, step).is_none(),
{
}

/// The counting loop that begins with what the host made of its start, its
/// stop and its step: none where the start is the stop, and no loop at all
/// where one of the three is no integer.
pub open spec fn started(
    from: Result<isize, CallError>,
    to: Result<isize, CallError>,
    step: Result<isize, CallError>,
) -> Result<Option<Range>, RunError> {
    match (from, to, step) {
        (Ok(f), Ok(t), Ok(s)) => Ok(begun(f, t, s)),
        _ => Err(RunError::IncompatibleType),
    }
}

impl Range {
    /// Begins a counting loop with what the host made of its three
    /// registers.
    pub fn start(
        from: Result<isize, CallError>,
        to: Result<isize, CallError>,
        step: Result<isize, CallError>,
    ) -> (r: Result<Option<Range>, RunError>)
        ensures
            r == started(from, to, step),
    {
        match (from, to, step) {
            (Ok(f), Ok(t), Ok(s)) => {
                if f == t {
                    Ok(None)
                } else {
                    Ok(Some(Range { current: f, stop: t, step: s }))
                }
            },
            _ => Err(RunError::IncompatibleType),
        }
    }

    /// The loop behind one more round, or nothing where it is over.
    pub fn next(self) -> (r: Option<Range>)
        ensures
            r == advanced(self),
    {
        if self.step < 0 {
            if self.current < isize::MIN - self.step {
                None
            } else {
                let next: isize = self.current + self.step;
                if next > self.stop {
                    Some(Range { current: next, stop: self.stop, step: self.step })
                } else {
                    None
                }
            }
        } else if self.current < self.stop {
            if self.current > isize::MAX - self.step {
                None
            } else {
                let next: isize = self.current + self.step;
                if next < self.stop {
                    Some(Range { current: next, stop: self.stop, step: self.step })
                } else {
                    None
                }
            }
        } else if self.current > self.stop {
            if self.current < isize::MIN + self.step {
                None
            } else {
                let next: isize = self.current - self.step;
                if next > self.stop {
                    Some(Range { current: next, stop: self.stop, step: self.step })
                } else {
                    None
                }
            }
        } else {
            None
        }
    }
}

/// The integers that a walk over the integer `n` gives: as many as `n` is
/// away from zero, counted from zero towards `n`, which is not among them.
pub open spec fn integer_walk(n: isize) -> Seq<isize> {
    Seq::new(
        if n < 0 {
            (-n) as nat
        } else {
            n as nat
        },
        |k: int|
            if n < 0 {
                (-k) as isize
            } else {
                k as isize
            },
    )
}

/// The integers that a walk over the integer `n` gives, for a host to make
/// its values of: `0, 1, ..` up to `n - 1` where `n` is positive, `0, -1, ..`
/// down to `n + 1` where it is negative, and none for zero.
pub fn walk_of_integer(n: isize) -> (r: Vec<isize>)
    ensures
        r@ == integer_walk(n),
        r@.len() == (if n < 0 {
            -(n as int)
        } else {
            n as int
        }),
        forall|k: int|
            0 <= k < r@.len() ==> r@[k] == (if n < 0 {
                -k
            } else {
                k
            }),
{
    let count: usize = if n < 0 {
        (-(n + 1)) as usize + 1
    } else {
        n as usize
    };
    let mut r: Vec<isize> = Vec::new();
    let mut k: usize = 0;
    while k < count
        invariant
            k <= count,
            count == (if n < 0 {
                -(n as int)
            } else {
                n as int
            }),
            r@.len() == k,
            forall|j: int|
                0 <= j < k ==> r@[j] == (if n < 0 {
                    -j
                } else {
                    j
                }),
        decreases count - k,
    {
        if n < 0 {
            r.push(-(k as isize));
        } else {
            r.push(k as isize);
        }
        k += 1;
    }
    proof {
        assert(r@ =~= integer_walk(n));
    }
    r
}

/// Where a program goes on behind a conditional jump to `target`, which is
/// taken where the condition is `jump_when`. A condition that is no boolean
/// stops the program.
pub fn branch(truth: Result<bool, CallError>, jump_when: bool, target: usize, next: usize) -> (r:
    Result<usize, RunError>)
    ensures
        r == branched(truth, jump_when, target, next),
{
    match truth {
        Ok(b) => Ok(
            if b == jump_when {
                target
            } else {
                next
            },
        ),
        Err(_) => Err(RunError::NotBoolean),
    }
}

/// The value in the register `r`.
pub fn register<V>(vars: &Vec<V>, r: u16) -> (v: Result<&V, RunError>)
    ensures
        match v {
            Ok(value) => r < vars@.len() && *value == vars@[r as int],
            Err(e) => r >= vars@.len() && e == RunError::RegisterOutOfBounds,
        },
{
    if (r as usize) < vars.len() {
        Ok(&vars[r as usize])
    } else {
        Err(RunError::RegisterOutOfBounds)
    }
}

/// Writes `value` to the register `r`.
pub fn store<V>(vars: &mut Vec<V>, r: u16, value: V) -> (done: Result<(), RunError>)
    ensures
        match done {
            Ok(_) => r < old(vars)@.len() && final(vars)@ == old(vars)@.update(r as int, value),
            Err(e) => r >= old(vars)@.len() && e == RunError::RegisterOutOfBounds && final(vars)@
                == old(vars)@,
        },
{
    if (r as usize) < vars.len() {
        vars.set(r as usize, value);
        Ok(())
    } else {
        Err(RunError::RegisterOutOfBounds)
    }
}

/// Writes what the host gave to the register `r`, or says why it gave
/// nothing.
pub fn keep<V>(vars: &mut Vec<V>, r: u16, given: Result<V, CallError>) -> (done: Result<
    (),
    RunError,
>)
    ensures
        match given {
            Ok(value) => match done {
                Ok(_) => r < old(vars)@.len() && final(vars)@ == old(vars)@.update(
                    r as int,
                    value,
                ),
                Err(e) => r >= old(vars)@.len() && e == RunError::RegisterOutOfBounds
                    && final(vars)@ == old(vars)@,
            },
            Err(e) => done == Err::<(), RunError>(RunError::CallError(Box::new(e))) && final(vars)@
                == old(vars)@,
        },
{
    match given {
        Ok(value) => store(vars, r, value),
        Err(e) => Err(call(e)),
    }
}

/// Leaves `amount` loops that walk a value and `amount_int` loops that
/// count, the innermost first.
pub fn leave<W>(walks: &mut Vec<W>, ranges: &mut Vec<Range>, amount: usize, amount_int: usize) -> (done:
    Result<(), RunError>)
    ensures
        match done {
            Ok(_) => amount <= old(walks)@.len() && amount_int <= old(ranges)@.len()
                && final(walks)@ == old(walks)@.subrange(0, old(walks)@.len() - amount)
                && final(ranges)@ == old(ranges)@.subrange(0, old(ranges)@.len() - amount_int),
            Err(e) => (amount > old(walks)@.len() || amount_int > old(ranges)@.len()) && e
                == RunError::NoIterator && final(walks)@ == old(walks)@ && final(ranges)@ == old(ranges)@,
        },
{
    if amount > walks.len() || amount_int > ranges.len() {
        return Err(RunError::NoIterator);
    }
    let kept = walks.len() - amount;
    walks.truncate(kept);
    let kept_int = ranges.len() - amount_int;
    ranges.truncate(kept_int);
    Ok(())
}

/// Copies of the values in the registers `regs`, for a call that may hand
/// over `limit` arguments at most.
pub fn arguments<V: VariantType>(vars: &Vec<V>, regs: &Vec<u16>, limit: u16) -> (r: Result<
    Vec<V>,
    RunError,
>)
    ensures
        match r {
            Ok(args) => regs@.len() <= limit && copies(vars@, regs@, args@),
            Err(e) => if regs@.len() > limit {
                e == RunError::ArgumentOutOfBounds
            } else {
                e == RunError::RegisterOutOfBounds && !within(regs@, vars@.len())
            },
        },
{
    if regs.len() > limit as usize {
        return Err(RunError::ArgumentOutOfBounds);
    }
    let mut args: Vec<V> = Vec::new();
    let mut k: usize = 0;
    while k < regs.len()
        invariant
            k <= regs@.len(),
            regs@.len() <= limit,
            args@.len() == k,
            forall|j: int| 0 <= j < k ==> (#[trigger] regs@[j]) < vars@.len(),
            forall|j: int|
                0 <= j < k ==> call_ensures(
                    V::copy,
                    (&vars@[regs@[j] as int],),
                    #[trigger] args@[j],
                ),
        decreases regs@.len() - k,
    {
        match register(vars, regs[k]) {
            Ok(value) => {
                let copy = value.copy();
                args.push(copy);
            },
            Err(e) => {
                proof {
                    assert(regs@[k as int] >= vars@.len());
                }
                return Err(e);
            },
        }
        k += 1;
    }
    Ok(args)
}

/// Whether `value` is what the host makes of the constant `c`: what its
/// constructor for the kind of `c` can give for what `c` holds.
pub open spec fn made_of<V: VariantType>(c: ConstantView, value: V) -> bool {
    match c {
        ConstantView::Bool(b) => call_ensures(V::new_bool, (b,), value),
        ConstantView::Int(i) => call_ensures(V::new_integer, (i,), value),
        ConstantView::Real(x) => call_ensures(V::new_real, (x,), value),
        ConstantView::Str(s) => exists|t: &str|
            t@ == s && #[trigger] call_ensures(V::new_string, (t,), value),
    }
}

/// The value of a constant: what the host's constructor for its kind
/// makes of what it holds.
pub fn constant_value<V: VariantType>(c: &Constant) -> (value: V)
    ensures
        made_of(c@, value),
{
    match c {
        Constant::Bool(b) => V::new_bool(*b),
        Constant::Int(i) => V::new_integer(*i),
        Constant::Real(r) => V::new_real(*r),
        Constant::Str(s) => V::new_string(s.as_str()),
    }
}

/// One invocation of a function: its registers, where it stands in its
/// code, its loops, and the register of its caller that its result goes to.
pub struct Frame<V: VariantType> {
    pub function: usize,
    pub ip: usize,
    pub state: RunState<V>,
    pub walks: Vec<V::Walk>,
    pub ranges: Vec<Range>,
    pub store_in: Option<u16>,
}

/// The mathematical value of a [`Frame`].
pub struct FrameView<V: VariantType> {
    pub function: usize,
    pub ip: usize,
    pub vars: Seq<V>,
    pub walks: Seq<V::Walk>,
    pub ranges: Seq<Range>,
    pub store_in: Option<u16>,
}

impl<V: VariantType> Frame<V> {
    /// The mathematical value of the frame.
    pub open spec fn model(&self) -> FrameView<V> {
        FrameView {
            function: self.function,
            ip: self.ip,
            vars: self.state.vars@,
            walks: self.walks@,
            ranges: self.ranges@,
            store_in: self.store_in,
        }
    }
}

/// The mathematical values of a stack of frames.
pub open spec fn models<V: VariantType>(frames: Seq<Frame<V>>) -> Seq<FrameView<V>> {
    Seq::new(frames.len(), |k: int| frames[k].model())
}

/// What an instruction asks of the machine.
pub enum Next<V> {
    /// To go on with the instruction that the frame stands at.
    Continue,
    /// To call the function at the index with the arguments, and to write
    /// its result to the register.
    Call(u16, Vec<V>, Option<u16>),
    /// To return the value to the caller.
    Return(V),
    /// To stop.
    Fail(RunError),
}

/// How a machine stands.
pub enum Status<V> {
    /// The program has more to do.
    Running,
    /// The program returned the value.
    Done(V),
    /// The program stopped.
    Failed(RunError),
}

/// Turns what a step within a frame came to into what it asks of the
/// machine.
pub fn go_on<V>(done: Result<(), RunError>) -> (r: Next<V>)
    ensures
        match done {
            Ok(_) => r is Continue,
            Err(e) => r == Next::<V>::Fail(e),
        },
{
    match done {
        Ok(_) => Next::Continue,
        Err(e) => Next::Fail(e),
    }
}

/// Where a program goes on behind a conditional jump to `target`, which is
/// taken where the condition is `jump_when`, and else leads to `next`. A
/// condition that is no boolean stops the program.
pub open spec fn branched(
    truth: Result<bool, CallError>,
    jump_when: bool,
    target: usize,
    next: usize,
) -> Result<usize, RunError> {
    match truth {
        Ok(b) => Ok(
            if b == jump_when {
                target
            } else {
                next
            },
        ),
        Err(_) => Err(RunError::NotBoolean),
    }
}

/// Whether every register of `regs` is one of the first `count`.
pub open spec fn within(regs: Seq<u16>, count: nat) -> bool {
    forall|k: int| 0 <= k < regs.len() ==> (#[trigger] regs[k]) < count
}

/// Whether `args` holds, for each register of `regs` in turn, what the
/// host's `copy` can give for the value in it.
pub open spec fn copies<V: VariantType>(vars: Seq<V>, regs: Seq<u16>, args: Seq<V>) -> bool {
    &&& args.len() == regs.len()
    &&& within(regs, vars.len())
    &&& forall|k: int|
        0 <= k < regs.len() ==> call_ensures(V::copy, (&vars[regs[k] as int],), #[trigger] args[k])
}

/// The frame `a` standing at the instruction `ip`.
pub open spec fn at<V: VariantType>(a: FrameView<V>, ip: usize) -> FrameView<V> {
    FrameView { ip, ..a }
}

/// The frame `a` with `value` in the register `r`.
pub open spec fn holding<V: VariantType>(a: FrameView<V>, r: u16, value: V) -> FrameView<V> {
    FrameView { vars: a.vars.update(r as int, value), ..a }
}

/// What an answer of the host comes to that is meant for the register `r`
/// of the frame `a`. Where the host gave an error the program stops with
/// it. Where `r` is no register of the frame the program stops. Else the
/// answer is written to `r`. Nothing else of the frame changes.
pub open spec fn settled<V: VariantType>(
    a: FrameView<V>,
    r: u16,
    given: Result<V, CallError>,
    b: FrameView<V>,
    next: Next<V>,
) -> bool {
    match given {
        Err(e) => next == Next::<V>::Fail(RunError::CallError(Box::new(e))) && b == a,
        Ok(value) => if r < a.vars.len() {
            next is Continue && b == holding(a, r, value)
        } else {
            next == Next::<V>::Fail(RunError::RegisterOutOfBounds) && b == a
        },
    }
}

/// What an answer of the host comes to that is kept nowhere: the program
/// stops with the host's error where it gave one, and goes on else. The
/// frame stays as it is.
pub open spec fn heard<V: VariantType, T>(
    a: FrameView<V>,
    given: Result<T, CallError>,
    b: FrameView<V>,
    next: Next<V>,
) -> bool {
    b == a && match given {
        Err(e) => next == Next::<V>::Fail(RunError::CallError(Box::new(e))),
        Ok(_) => next is Continue,
    }
}

/// Whether the program stops with `e` and the frame `a` stays as it is.
pub open spec fn halted<V: VariantType>(a: FrameView<V>, e: RunError, b: FrameView<V>, next: Next<V>) -> bool {
    next == Next::<V>::Fail(e) && b == a
}

/// An instruction that applies `op` to the registers `x` and `y` and writes
/// to `r`: the host is asked, and its answer is meant for `r`.
pub open spec fn operated<V: VariantType>(
    a: FrameView<V>,
    op: Arithmetic,
    r: u16,
    x: u16,
    y: u16,
    b: FrameView<V>,
    next: Next<V>,
) -> bool {
    if x >= a.vars.len() || y >= a.vars.len() {
        halted(a, RunError::RegisterOutOfBounds, b, next)
    } else {
        exists|given: Result<V, CallError>| #[trigger]
            call_ensures(V::arithmetic, (&a.vars[x as int], op, &a.vars[y as int]), given)
                && settled(a, r, given, b, next)
    }
}

/// An instruction that negates the register `x`, or inverts it, and writes
/// to `r`.
pub open spec fn turned<V: VariantType>(
    a: FrameView<V>,
    negate: bool,
    r: u16,
    x: u16,
    b: FrameView<V>,
    next: Next<V>,
) -> bool {
    if x >= a.vars.len() {
        halted(a, RunError::RegisterOutOfBounds, b, next)
    } else {
        exists|given: Result<V, CallError>| #[trigger]
            settled(a, r, given, b, next) && (if negate {
                call_ensures(V::negate, (&a.vars[x as int],), given)
            } else {
                call_ensures(V::invert, (&a.vars[x as int],), given)
            })
    }
}

/// An instruction that compares the registers `x` and `y` and writes the
/// answer, as the host makes a value of it, to `r`.
pub open spec fn compared<V: VariantType>(
    a: FrameView<V>,
    how: Comparison,
    r: u16,
    x: u16,
    y: u16,
    b: FrameView<V>,
    next: Next<V>,
) -> bool {
    if x >= a.vars.len() || y >= a.vars.len() {
        halted(a, RunError::RegisterOutOfBounds, b, next)
    } else {
        exists|answer: bool, value: V|
            call_ensures(V::compare, (&a.vars[x as int], how, &a.vars[y as int]), answer)
                && #[trigger] call_ensures(V::new_bool, (answer,), value) && settled(
                a,
                r,
                Ok(value),
                b,
                next,
            )
    }
}

/// A conditional jump to `target` that is taken where the register `cond`
/// holds `jump_when`.
pub open spec fn jumped_on<V: VariantType>(
    a: FrameView<V>,
    cond: u16,
    jump_when: bool,
    target: usize,
    b: FrameView<V>,
    next: Next<V>,
) -> bool {
    if cond >= a.vars.len() {
        halted(a, RunError::RegisterOutOfBounds, b, next)
    } else {
        exists|truth: Result<bool, CallError>| #[trigger]
            call_ensures(V::as_bool, (&a.vars[cond as int],), truth) && match branched(
                truth,
                jump_when,
                target,
                a.ip,
            ) {
                Ok(ip) => next is Continue && b == at(a, ip),
                Err(e) => halted(a, e, b, next),
            }
    }
}

/// What the begin of a counting loop comes to where the host made `first`,
/// `last` and `by` of its start, its stop and its step. Where one of them is
/// no integer the program stops. Where the start is the stop the frame goes
/// on at `exit`. Else the loop is the innermost of the frame from then on,
/// and what the host makes of the start is written to the register `reg`.
pub open spec fn counted<V: VariantType>(
    a: FrameView<V>,
    reg: u16,
    first: Result<isize, CallError>,
    last: Result<isize, CallError>,
    by: Result<isize, CallError>,
    exit: usize,
    b: FrameView<V>,
    next: Next<V>,
) -> bool {
    match started(first, last, by) {
        Err(e) => halted(a, e, b, next),
        Ok(None) => next is Continue && b == at(a, exit),
        Ok(Some(range)) => if reg < a.vars.len() {
            exists|value: V| #[trigger]
                call_ensures(V::new_integer, (range.current,), value) && next is Continue && b
                    == (FrameView { ranges: a.ranges.push(range), ..holding(a, reg, value) })
        } else {
            halted(a, RunError::RegisterOutOfBounds, b, next)
        },
    }
}

/// The begin of a counting loop. Where one of the registers `from`, `to`
/// and `step` is none of the frame, the program stops. Else the host is
/// asked for the integers in the three, and `counted` says the rest.
pub open spec fn begun_count<V: VariantType>(
    a: FrameView<V>,
    reg: u16,
    from: u16,
    to: u16,
    step: u16,
    exit: usize,
    b: FrameView<V>,
    next: Next<V>,
) -> bool {
    if from >= a.vars.len() || to >= a.vars.len() || step >= a.vars.len() {
        halted(a, RunError::RegisterOutOfBounds, b, next)
    } else {
        exists|
            first: Result<isize, CallError>,
            last: Result<isize, CallError>,
            by: Result<isize, CallError>,
        |
            call_ensures(V::as_integer, (&a.vars[from as int],), first) && call_ensures(
                V::as_integer,
                (&a.vars[to as int],),
                last,
            ) && call_ensures(V::as_integer, (&a.vars[step as int],), by) && #[trigger] counted(
                a,
                reg,
                first,
                last,
                by,
                exit,
                b,
                next,
            )
    }
}

/// The frame `a` with its innermost counting loop left.
pub open spec fn uncounted<V: VariantType>(a: FrameView<V>) -> FrameView<V> {
    FrameView { ranges: a.ranges.drop_last(), ..a }
}

/// One more round of the innermost counting loop, which begins at `body`.
/// Without a counting loop the program stops. Where the loop is over it is
/// left. Else the loop goes on as `advanced` says, what the host makes of
/// its variable is written to `reg`, and the frame goes on at `body`; where
/// `reg` is no register of the frame, the program stops and the loop is
/// left.
pub open spec fn resumed_count<V: VariantType>(
    a: FrameView<V>,
    reg: u16,
    body: usize,
    b: FrameView<V>,
    next: Next<V>,
) -> bool {
    if a.ranges.len() == 0 {
        halted(a, RunError::NoIterator, b, next)
    } else {
        match advanced(a.ranges.last()) {
            None => next is Continue && b == uncounted(a),
            Some(range) => if reg < a.vars.len() {
                exists|value: V| #[trigger]
                    call_ensures(V::new_integer, (range.current,), value) && next is Continue
                        && b == (FrameView {
                        ip: body,
                        ranges: a.ranges.drop_last().push(range),
                        ..holding(a, reg, value)
                    })
            } else {
                halted(uncounted(a), RunError::RegisterOutOfBounds, b, next)
            },
        }
    }
}

/// What the first step of a walk comes to, where it led to the walk
/// `onward` and gave `element`. Without an element the frame goes on at
/// `exit`. Else the element is written to the register `reg`, and the walk
/// is the innermost of the frame from then on.
pub open spec fn entered<V: VariantType>(
    a: FrameView<V>,
    reg: u16,
    onward: V::Walk,
    element: Option<V>,
    exit: usize,
    b: FrameView<V>,
    next: Next<V>,
) -> bool {
    match element {
        None => next is Continue && b == at(a, exit),
        Some(e) => if reg < a.vars.len() {
            next is Continue && b == (FrameView { walks: a.walks.push(onward), ..holding(a, reg, e) })
        } else {
            halted(a, RunError::RegisterOutOfBounds, b, next)
        },
    }
}

/// What the begin of a walk comes to where the host's `walk` gave `given`.
/// Where it gave no walk the program stops with the host's error. Else the
/// host advances the walk once, and `entered` says the rest.
pub open spec fn walked<V: VariantType>(
    a: FrameView<V>,
    reg: u16,
    given: Result<V::Walk, CallError>,
    exit: usize,
    b: FrameView<V>,
    next: Next<V>,
) -> bool {
    match given {
        Err(e) => halted(a, RunError::CallError(Box::new(e)), b, next),
        Ok(walk) => exists|element: Option<V>, onward: V::Walk| #[trigger]
            call_ensures(V::advance, (walk,), (element, onward)) && entered(
                a,
                reg,
                onward,
                element,
                exit,
                b,
                next,
            ),
    }
}

/// The begin of a walk over the value in the register `over`. Where `over`
/// is no register of the frame the program stops. Else the host is asked to
/// walk the value, and `walked` says the rest.
pub open spec fn begun_walk<V: VariantType>(
    a: FrameView<V>,
    reg: u16,
    over: u16,
    exit: usize,
    b: FrameView<V>,
    next: Next<V>,
) -> bool {
    if over >= a.vars.len() {
        halted(a, RunError::RegisterOutOfBounds, b, next)
    } else {
        exists|given: Result<V::Walk, CallError>| #[trigger]
            call_ensures(V::walk, (&a.vars[over as int],), given) && walked(
                a,
                reg,
                given,
                exit,
                b,
                next,
            )
    }
}

/// The frame `a` with its innermost walk left.
pub open spec fn unwalked<V: VariantType>(a: FrameView<V>) -> FrameView<V> {
    FrameView { walks: a.walks.drop_last(), ..a }
}

/// One more step of the innermost walk, whose loop begins at `body`.
/// Without a walk the program stops. Else the host advances the walk. Where
/// it gives no element the walk is left. Else the element is written to
/// `reg`, and the frame goes on at `body` in the walk as it is then; where
/// `reg` is no register of the frame, the program stops and the walk is
/// left.
pub open spec fn resumed_walk<V: VariantType>(
    a: FrameView<V>,
    reg: u16,
    body: usize,
    b: FrameView<V>,
    next: Next<V>,
) -> bool {
    if a.walks.len() == 0 {
        halted(a, RunError::NoIterator, b, next)
    } else {
        exists|element: Option<V>, onward: V::Walk| #[trigger]
            call_ensures(V::advance, (a.walks.last(),), (element, onward)) && match element {
                None => next is Continue && b == unwalked(a),
                Some(e) => if reg < a.vars.len() {
                    next is Continue && b == (FrameView {
                        ip: body,
                        walks: a.walks.drop_last().push(onward),
                        ..holding(a, reg, e)
                    })
                } else {
                    halted(unwalked(a), RunError::RegisterOutOfBounds, b, next)
                },
            }
    }
}

/// A jump out of `amount` loops that walk a value and `amount_int` loops
/// that count, to the instruction `ip`. Where the frame is in fewer loops
/// the program stops.
pub open spec fn broken<V: VariantType>(
    a: FrameView<V>,
    amount: usize,
    amount_int: usize,
    ip: usize,
    b: FrameView<V>,
    next: Next<V>,
) -> bool {
    if amount <= a.walks.len() && amount_int <= a.ranges.len() {
        next is Continue && b == (FrameView {
            ip,
            walks: a.walks.subrange(0, a.walks.len() - amount),
            ranges: a.ranges.subrange(0, a.ranges.len() - amount_int),
            ..a
        })
    } else {
        halted(a, RunError::NoIterator, b, next)
    }
}

/// A copy of the variable of the script in `slot` to the register `r`.
pub open spec fn loaded<V: VariantType>(
    a: FrameView<V>,
    locals: Seq<V>,
    r: u16,
    slot: u16,
    b: FrameView<V>,
    next: Next<V>,
) -> bool {
    if slot >= locals.len() {
        halted(a, RunError::LocalOutOfBounds, b, next)
    } else {
        exists|copy: V| #[trigger]
            call_ensures(V::copy, (&locals[slot as int],), copy) && settled(
                a,
                r,
                Ok(copy),
                b,
                next,
            )
    }
}

/// A copy of the register `r` to the variable of the script in `slot`. The
/// frame stays as it is, and no other variable changes.
pub open spec fn stored<V: VariantType>(
    a: FrameView<V>,
    locals: Seq<V>,
    r: u16,
    slot: u16,
    b: FrameView<V>,
    locals_after: Seq<V>,
    next: Next<V>,
) -> bool {
    if r >= a.vars.len() {
        halted(a, RunError::RegisterOutOfBounds, b, next) && locals_after == locals
    } else if slot >= locals.len() {
        halted(a, RunError::LocalOutOfBounds, b, next) && locals_after == locals
    } else {
        exists|copy: V| #[trigger]
            call_ensures(V::copy, (&a.vars[r as int],), copy) && next is Continue && b == a
                && locals_after == locals.update(slot as int, copy)
    }
}

/// A copy of `value` for the register `r`.
pub open spec fn copied<V: VariantType>(
    a: FrameView<V>,
    r: u16,
    value: V,
    b: FrameView<V>,
    next: Next<V>,
) -> bool {
    exists|copy: V| #[trigger]
        call_ensures(V::copy, (&value,), copy) && settled(a, r, Ok(copy), b, next)
}

/// A copy of the register `s` to the register `d`.
pub open spec fn moved<V: VariantType>(
    a: FrameView<V>,
    d: u16,
    s: u16,
    b: FrameView<V>,
    next: Next<V>,
) -> bool {
    if s >= a.vars.len() {
        halted(a, RunError::RegisterOutOfBounds, b, next)
    } else {
        copied(a, d, a.vars[s as int], b, next)
    }
}

/// A new array of `len` elements, or a new dictionary with room for `len`
/// entries, for the register `r`.
pub open spec fn created<V: VariantType>(
    a: FrameView<V>,
    r: u16,
    len: usize,
    array: bool,
    b: FrameView<V>,
    next: Next<V>,
) -> bool {
    exists|value: V| #[trigger]
        settled(a, r, Ok(value), b, next) && (if array {
            call_ensures(V::new_array, (len,), value)
        } else {
            call_ensures(V::new_dictionary, (len,), value)
        })
}

/// The element at the index in the register `x` of the value in the
/// register `o`, for the register `r`.
pub open spec fn got<V: VariantType>(
    a: FrameView<V>,
    r: u16,
    o: u16,
    x: u16,
    b: FrameView<V>,
    next: Next<V>,
) -> bool {
    if o >= a.vars.len() || x >= a.vars.len() {
        halted(a, RunError::RegisterOutOfBounds, b, next)
    } else {
        exists|given: Result<V, CallError>| #[trigger]
            call_ensures(V::index, (&a.vars[o as int], &a.vars[x as int]), given) && settled(
                a,
                r,
                given,
                b,
                next,
            )
    }
}

/// A copy of the register `r` put at the index in the register `x` of the
/// value in the register `o`.
pub open spec fn put<V: VariantType>(
    a: FrameView<V>,
    r: u16,
    o: u16,
    x: u16,
    b: FrameView<V>,
    next: Next<V>,
) -> bool {
    if o >= a.vars.len() || x >= a.vars.len() || r >= a.vars.len() {
        halted(a, RunError::RegisterOutOfBounds, b, next)
    } else {
        exists|copy: V, done: Result<(), CallError>|
            call_ensures(V::copy, (&a.vars[r as int],), copy) && #[trigger] call_ensures(
                V::set_index,
                (&a.vars[o as int], &a.vars[x as int], copy),
                done,
            ) && heard(a, done, b, next)
    }
}

/// A return of the value in the register `r`, which is taken out of it:
/// the register holds what the host's `empty` gives from then on.
pub open spec fn given_back<V: VariantType>(
    a: FrameView<V>,
    r: u16,
    b: FrameView<V>,
    next: Next<V>,
) -> bool {
    if r >= a.vars.len() {
        halted(a, RunError::RegisterOutOfBounds, b, next)
    } else {
        exists|left: V| #[trigger]
            call_ensures(V::empty, (), left) && b == holding(a, r, left) && next
                == Next::<V>::Return(a.vars[r as int])
    }
}

/// A return without a value: what the host's `empty` gives is returned.
pub open spec fn given_nothing<V: VariantType>(a: FrameView<V>, b: FrameView<V>, next: Next<V>) -> bool {
    b == a && exists|value: V| #[trigger]
        call_ensures(V::empty, (), value) && next == Next::<V>::Return(value)
}

/// Whether a call is to be made on the value of a register that is none of
/// the first `count`.
pub open spec fn missing(on: Option<u16>, count: nat) -> bool {
    match on {
        Some(reg) => reg >= count,
        None => false,
    }
}

/// Whether `given` is what the host can answer to the call of `name` with
/// the arguments `args`: the value in the register `on` where there is one,
/// else the environment.
pub open spec fn answered<V: VariantType, E: Environment<V>>(
    vars: Seq<V>,
    on: Option<u16>,
    name: &str,
    args: Vec<V>,
    env: &E,
    given: Result<V, CallError>,
) -> bool {
    match on {
        Some(reg) => call_ensures(V::call::<E>, (&vars[reg as int], name, &args, env), given),
        None => call_ensures(E::call, (env, name, &args), given),
    }
}

/// What the answer of the host to a call comes to: it is meant for the
/// register `store_in` where there is one, and kept nowhere else.
pub open spec fn replied<V: VariantType>(
    a: FrameView<V>,
    store_in: Option<u16>,
    given: Result<V, CallError>,
    b: FrameView<V>,
    next: Next<V>,
) -> bool {
    match store_in {
        Some(reg) => settled(a, reg, given, b, next),
        None => heard(a, given, b, next),
    }
}

/// A call of the host: of the method `func` of the value in the register
/// `on`, or of the function `func` of the environment where there is none.
/// The call hands over the host's copies of the registers `regs`, at most
/// `limit` of them, and its answer is meant for `store_in`.
pub open spec fn called<V: VariantType, E: Environment<V>>(
    a: FrameView<V>,
    on: Option<u16>,
    store_in: Option<u16>,
    func: Seq<char>,
    regs: Seq<u16>,
    limit: u16,
    env: &E,
    b: FrameView<V>,
    next: Next<V>,
) -> bool {
    if regs.len() > limit {
        halted(a, RunError::ArgumentOutOfBounds, b, next)
    } else if !within(regs, a.vars.len()) || missing(on, a.vars.len()) {
        halted(a, RunError::RegisterOutOfBounds, b, next)
    } else {
        exists|name: &str, args: Vec<V>, given: Result<V, CallError>|
            name@ == func && copies(a.vars, regs, args@) && #[trigger] answered(
                a.vars,
                on,
                name,
                args,
                env,
                given,
            ) && replied(a, store_in, given, b, next)
    }
}

/// A call of the function of the script with the number `func`: the machine
/// is asked to make it with the host's copies of the registers `regs`, at
/// most `limit` of them. The frame stays as it is.
pub open spec fn called_own<V: VariantType>(
    a: FrameView<V>,
    store_in: Option<u16>,
    func: u16,
    regs: Seq<u16>,
    limit: u16,
    b: FrameView<V>,
    next: Next<V>,
) -> bool {
    b == a && (if regs.len() > limit {
        next == Next::<V>::Fail(RunError::ArgumentOutOfBounds)
    } else if !within(regs, a.vars.len()) {
        next == Next::<V>::Fail(RunError::RegisterOutOfBounds)
    } else {
        match next {
            Next::Call(f, args, to) => f == func && to == store_in && copies(a.vars, regs, args@),
            _ => false,
        }
    })
}

/// What the instruction `i` comes to in the frame `a`, which stands behind
/// it already, of an object with the variables `locals` that `this` stands
/// for: the frame `b`, the variables `locals_after` and what is asked of
/// the machine. Only `Store` changes a variable of the script.
pub open spec fn effect<V: VariantType, E: Environment<V>>(
    i: InstructionView,
    limit: u16,
    a: FrameView<V>,
    locals: Seq<V>,
    this: V,
    env: &E,
    b: FrameView<V>,
    locals_after: Seq<V>,
    next: Next<V>,
) -> bool {
    &&& (i is Store || locals_after == locals)
    &&& match i {
        InstructionView::Call(on, c) => called(
            a,
            Some(on),
            c.store_in,
            c.func,
            c.args,
            limit,
            env,
            b,
            next,
        ),
        InstructionView::CallEnv(c) => called(
            a,
            None,
            c.store_in,
            c.func,
            c.args,
            limit,
            env,
            b,
            next,
        ),
        InstructionView::CallSelf(c) => called_own(a, c.store_in, c.func, c.args, limit, b, next),
        InstructionView::Jmp(ip) => next is Continue && b == at(a, ip),
        InstructionView::JmpIf(cond, ip) => jumped_on(a, cond, false, ip, b, next),
        InstructionView::JmpNotIf(cond, ip) => jumped_on(a, cond, true, ip, b, next),
        InstructionView::RetSome(r) => given_back(a, r, b, next),
        InstructionView::RetNone => given_nothing(a, b, next),
        InstructionView::Iter(reg, over, exit) => begun_walk(a, reg, over, exit, b, next),
        InstructionView::IterJmp(reg, body) => resumed_walk(a, reg, body, b, next),
        InstructionView::IterInt { reg, from, to, step, jmp_ip } => begun_count(
            a,
            reg,
            from,
            to,
            step,
            jmp_ip,
            b,
            next,
        ),
        InstructionView::IterIntJmp(reg, body) => resumed_count(a, reg, body, b, next),
        InstructionView::Break { amount, amount_int, jmp_ip } => broken(
            a,
            amount,
            amount_int,
            jmp_ip,
            b,
            next,
        ),
        InstructionView::Add(r, x, y) => operated(a, Arithmetic::Add, r, x, y, b, next),
        InstructionView::Sub(r, x, y) => operated(a, Arithmetic::Sub, r, x, y, b, next),
        InstructionView::Mul(r, x, y) => operated(a, Arithmetic::Mul, r, x, y, b, next),
        InstructionView::Div(r, x, y) => operated(a, Arithmetic::Div, r, x, y, b, next),
        InstructionView::Rem(r, x, y) => operated(a, Arithmetic::Rem, r, x, y, b, next),
        InstructionView::And(r, x, y) => operated(a, Arithmetic::And, r, x, y, b, next),
        InstructionView::Or(r, x, y) => operated(a, Arithmetic::Or, r, x, y, b, next),
        InstructionView::Xor(r, x, y) => operated(a, Arithmetic::Xor, r, x, y, b, next),
        InstructionView::Shl(r, x, y) => operated(a, Arithmetic::Shl, r, x, y, b, next),
        InstructionView::Shr(r, x, y) => operated(a, Arithmetic::Shr, r, x, y, b, next),
        InstructionView::Neg(r, x) => turned(a, true, r, x, b, next),
        InstructionView::Not(r, x) => turned(a, false, r, x, b, next),
        InstructionView::LessEq(r, x, y) => compared(a, Comparison::LessEq, r, x, y, b, next),
        InstructionView::Less(r, x, y) => compared(a, Comparison::Less, r, x, y, b, next),
        InstructionView::Neq(r, x, y) => compared(a, Comparison::Neq, r, x, y, b, next),
        InstructionView::Eq(r, x, y) => compared(a, Comparison::Eq, r, x, y, b, next),
        InstructionView::Store(r, slot) => stored(a, locals, r, slot, b, locals_after, next),
        InstructionView::Load(r, slot) => loaded(a, locals, r, slot, b, next),
        InstructionView::Move(d, s) => moved(a, d, s, b, next),
        InstructionView::NewArray(r, len) => created(a, r, len, true, b, next),
        InstructionView::NewDictionary(r, len) => created(a, r, len, false, b, next),
        InstructionView::GetIndex(r, o, x) => got(a, r, o, x, b, next),
        InstructionView::SetIndex(r, o, x) => put(a, r, o, x, b, next),
        InstructionView::CopySelf { dest } => copied(a, dest, this, b, next),
    }
}

/// Why no frame is made for a call of `program` with `count` arguments, if
/// none is made: the number of arguments is not that of its parameters, or
/// it has more parameters than working registers.
pub open spec fn refused(program: ByteCodeView, count: nat) -> Option<RunError> {
    if count != program.param_count {
        Some(RunError::IncorrectArgumentCount)
    } else if program.param_count > program.var_count {
        Some(RunError::RegisterOutOfBounds)
    } else {
        None
    }
}

/// Whether the registers `vars` behind the first `given` are those of a new
/// frame of `program`: the working registers hold what the host's `empty`
/// gives, and behind them each constant stands as the host makes it.
pub open spec fn filled<V: VariantType>(vars: Seq<V>, given: nat, program: ByteCodeView) -> bool {
    &&& forall|j: int|
        given <= j < program.var_count ==> call_ensures(V::empty, (), #[trigger] vars[j])
    &&& forall|j: int|
        0 <= j < program.consts.len() ==> made_of(
            program.consts[j],
            #[trigger] vars[program.var_count + j],
        )
}

/// Whether `f` is the frame of a new call of `program`, the function with
/// the number `function`, with the arguments `args`, whose result goes to
/// `store_in`: it stands at the first instruction and in no loop, the
/// arguments hold the first registers, and the others are `filled`.
pub open spec fn new_frame<V: VariantType>(
    program: ByteCodeView,
    function: usize,
    args: Seq<V>,
    store_in: Option<u16>,
    f: FrameView<V>,
) -> bool {
    &&& f.function == function
    &&& f.ip == 0
    &&& f.store_in == store_in
    &&& f.walks.len() == 0
    &&& f.ranges.len() == 0
    &&& f.vars.len() == program.var_count + program.consts.len()
    &&& f.vars.subrange(0, args.len() as int) == args
    &&& filled(f.vars, args.len(), program)
}

impl<V: VariantType> Frame<V> {
    /// The frame of a call of `program` with the arguments `args`: they
    /// hold the first registers, the constants the last, and the registers
    /// between them are empty.
    pub fn new(function: usize, program: &ByteCode, args: Vec<V>, store_in: Option<u16>) -> (r:
        Result<Frame<V>, RunError>)
        ensures
            match r {
                Ok(frame) => refused(program@, args@.len()) is None && new_frame(
                    program@,
                    function,
                    args@,
                    store_in,
                    frame.model(),
                ),
                Err(e) => refused(program@, args@.len()) == Some(e),
            },
    {
        if args.len() != program.param_count as usize {
            return Err(RunError::IncorrectArgumentCount);
        }
        if program.param_count > program.var_count {
            return Err(RunError::RegisterOutOfBounds);
        }
        let ghost given = args@;
        let mut vars = args;
        while vars.len() < program.var_count as usize
            invariant
                given.len() <= vars@.len() <= program.var_count,
                vars@.subrange(0, given.len() as int) == given,
                forall|j: int|
                    given.len() <= j < vars@.len() ==> call_ensures(
                        V::empty,
                        (),
                        #[trigger] vars@[j],
                    ),
            decreases program.var_count - vars@.len(),
        {
            vars.push(V::empty());
            proof {
                assert(vars@.subrange(0, given.len() as int) =~= given);
            }
        }
        let mut k: usize = 0;
        while k < program.consts.len()
            invariant
                k <= program.consts@.len(),
                vars@.len() == program.var_count + k,
                given.len() <= program.var_count,
                vars@.subrange(0, given.len() as int) == given,
                forall|j: int|
                    given.len() <= j < program.var_count ==> call_ensures(
                        V::empty,
                        (),
                        #[trigger] vars@[j],
                    ),
                forall|j: int|
                    0 <= j < k ==> made_of(
                        program@.consts[j],
                        #[trigger] vars@[program.var_count + j],
                    ),
            decreases program.consts@.len() - k,
        {
            proof {
                assert(program@.consts[k as int] == program.consts@[k as int]@);
            }
            vars.push(constant_value(&program.consts[k]));
            proof {
                assert(vars@.subrange(0, given.len() as int) =~= given);
            }
            k += 1;
        }
        Ok(
            Frame {
                function,
                ip: 0,
                state: RunState { vars },
                walks: Vec::new(),
                ranges: Vec::new(),
                store_in,
            },
        )
    }

    /// Applies an operation to two registers and writes the result to a
    /// third.
    fn arithmetic(&mut self, op: Arithmetic, r: u16, x: u16, y: u16) -> (next: Next<V>)
        ensures
            operated(old(self).model(), op, r, x, y, final(self).model(), next),
    {
        let left = match register(&self.state.vars, x) {
            Ok(v) => v,
            Err(e) => {
                return Next::Fail(e);
            },
        };
        let right = match register(&self.state.vars, y) {
            Ok(v) => v,
            Err(e) => {
                return Next::Fail(e);
            },
        };
        let given = left.arithmetic(op, right);
        let ghost answer = given;
        let next = go_on(keep(&mut self.state.vars, r, given));
        proof {
            assert(settled(old(self).model(), r, answer, self.model(), next));
        }
        next
    }

    /// Compares two registers and writes the answer to a third.
    fn compare(&mut self, how: Comparison, r: u16, x: u16, y: u16) -> (next: Next<V>)
        ensures
            compared(old(self).model(), how, r, x, y, final(self).model(), next),
    {
        let left = match register(&self.state.vars, x) {
            Ok(v) => v,
            Err(e) => {
                return Next::Fail(e);
            },
        };
        let right = match register(&self.state.vars, y) {
            Ok(v) => v,
            Err(e) => {
                return Next::Fail(e);
            },
        };
        let answer = left.compare(how, right);
        let value = V::new_bool(answer);
        let ghost made = value;
        let next = go_on(store(&mut self.state.vars, r, value));
        proof {
            assert(call_ensures(V::new_bool, (answer,), made));
            assert(settled(old(self).model(), r, Ok(made), self.model(), next));
        }
        next
    }

    /// Applies an operation to a register and writes the result to another.
    fn unary(&mut self, negate: bool, r: u16, x: u16) -> (next: Next<V>)
        ensures
            turned(old(self).model(), negate, r, x, final(self).model(), next),
    {
        let value = match register(&self.state.vars, x) {
            Ok(v) => v,
            Err(e) => {
                return Next::Fail(e);
            },
        };
        let given = if negate {
            value.negate()
        } else {
            value.invert()
        };
        let ghost answer = given;
        let next = go_on(keep(&mut self.state.vars, r, given));
        proof {
            assert(settled(old(self).model(), r, answer, self.model(), next));
        }
        next
    }

    /// Executes a conditional jump to `target`, taken where the register
    /// `cond` holds `jump_when`.
    fn jump_on(&mut self, cond: u16, jump_when: bool, target: usize) -> (next: Next<V>)
        ensures
            jumped_on(old(self).model(), cond, jump_when, target, final(self).model(), next),
    {
        let truth = match register(&self.state.vars, cond) {
            Ok(value) => value.as_bool(),
            Err(e) => {
                return Next::Fail(e);
            },
        };
        match branch(truth, jump_when, target, self.ip) {
            Ok(ip) => {
                self.ip = ip;
                Next::Continue
            },
            Err(e) => Next::Fail(e),
        }
    }

    /// Begins a counting loop, or jumps to `exit` where it has no round.
    fn count(&mut self, reg: u16, from: u16, to: u16, step: u16, exit: usize) -> (next: Next<V>)
        ensures
            begun_count(old(self).model(), reg, from, to, step, exit, final(self).model(), next),
    {
        let first = match register(&self.state.vars, from) {
            Ok(value) => value.as_integer(),
            Err(e) => {
                return Next::Fail(e);
            },
        };
        let last = match register(&self.state.vars, to) {
            Ok(value) => value.as_integer(),
            Err(e) => {
                return Next::Fail(e);
            },
        };
        let by = match register(&self.state.vars, step) {
            Ok(value) => value.as_integer(),
            Err(e) => {
                return Next::Fail(e);
            },
        };
        let next = match Range::start(first, last, by) {
            Err(e) => Next::Fail(e),
            Ok(None) => {
                self.ip = exit;
                Next::Continue
            },
            Ok(Some(range)) => {
                let value = V::new_integer(range.current);
                let ghost made = value;
                match store(&mut self.state.vars, reg, value) {
                    Err(e) => Next::Fail(e),
                    Ok(_) => {
                        self.ranges.push(range);
                        proof {
                            assert(call_ensures(V::new_integer, (range.current,), made));
                            assert(self.model() == (FrameView {
                                ranges: old(self).model().ranges.push(range),
                                ..holding(old(self).model(), reg, made)
                            }));
                        }
                        Next::Continue
                    },
                }
            },
        };
        proof {
            assert(counted(old(self).model(), reg, first, last, by, exit, self.model(), next));
        }
        next
    }

    /// Goes to the next round of the innermost counting loop, at `body`, or
    /// leaves the loop where it is over.
    fn count_on(&mut self, reg: u16, body: usize) -> (next: Next<V>)
        ensures
            resumed_count(old(self).model(), reg, body, final(self).model(), next),
    {
        match self.ranges.pop() {
            None => Next::Fail(RunError::NoIterator),
            Some(range) => match range.next() {
                None => Next::Continue,
                Some(onward) => {
                    let value = V::new_integer(onward.current);
                    let ghost made = value;
                    match store(&mut self.state.vars, reg, value) {
                        Err(e) => Next::Fail(e),
                        Ok(_) => {
                            self.ranges.push(onward);
                            self.ip = body;
                            proof {
                                assert(call_ensures(V::new_integer, (onward.current,), made));
                                assert(self.model() == (FrameView {
                                    ip: body,
                                    ranges: old(self).model().ranges.drop_last().push(onward),
                                    ..holding(old(self).model(), reg, made)
                                }));
                            }
                            Next::Continue
                        },
                    }
                },
            },
        }
    }

    /// Begins to walk the value in the register `over`, or jumps to `exit`
    /// where it has no element.
    fn walk(&mut self, reg: u16, over: u16, exit: usize) -> (next: Next<V>)
        ensures
            begun_walk(old(self).model(), reg, over, exit, final(self).model(), next),
    {
        let given = match register(&self.state.vars, over) {
            Ok(value) => value.walk(),
            Err(e) => {
                return Next::Fail(e);
            },
        };
        let ghost asked = given;
        let next = match given {
            Err(e) => Next::Fail(call(e)),
            Ok(walk) => {
                let ghost before = walk;
                let (found, onward) = V::advance(walk);
                let ghost element = found;
                let ghost after = onward;
                let next = match found {
                    None => {
                        self.ip = exit;
                        Next::Continue
                    },
                    Some(value) => match store(&mut self.state.vars, reg, value) {
                        Err(e) => Next::Fail(e),
                        Ok(_) => {
                            self.walks.push(onward);
                            Next::Continue
                        },
                    },
                };
                proof {
                    assert(call_ensures(V::advance, (before,), (element, after)));
                    assert(entered(old(self).model(), reg, after, element, exit, self.model(), next));
                }
                next
            },
        };
        proof {
            assert(walked(old(self).model(), reg, asked, exit, self.model(), next));
        }
        next
    }

    /// Goes to the next element of the innermost walk, at `body`, or leaves
    /// the loop where there is none.
    fn walk_on(&mut self, reg: u16, body: usize) -> (next: Next<V>)
        ensures
            resumed_walk(old(self).model(), reg, body, final(self).model(), next),
    {
        match self.walks.pop() {
            None => Next::Fail(RunError::NoIterator),
            Some(walk) => {
                let ghost before = walk;
                let (found, onward) = V::advance(walk);
                let ghost element = found;
                let ghost after = onward;
                let next = match found {
                    None => Next::Continue,
                    Some(value) => match store(&mut self.state.vars, reg, value) {
                        Err(e) => Next::Fail(e),
                        Ok(_) => {
                            self.walks.push(onward);
                            self.ip = body;
                            Next::Continue
                        },
                    },
                };
                proof {
                    assert(before == old(self).model().walks.last());
                    assert(call_ensures(V::advance, (before,), (element, after)));
                    if element is Some && next is Continue {
                        assert(self.model() == (FrameView {
                            ip: body,
                            walks: old(self).model().walks.drop_last().push(after),
                            ..holding(old(self).model(), reg, element->0)
                        }));
                    } else {
                        assert(self.model() == unwalked(old(self).model()));
                    }
                }
                next
            },
        }
    }

    /// Copies a variable of the script to a register.
    fn load(&mut self, locals: &Vec<V>, r: u16, slot: u16) -> (next: Next<V>)
        ensures
            loaded(old(self).model(), locals@, r, slot, final(self).model(), next),
    {
        if (slot as usize) < locals.len() {
            let copy = locals[slot as usize].copy();
            let ghost made = copy;
            let next = go_on(store(&mut self.state.vars, r, copy));
            proof {
                assert(call_ensures(V::copy, (&locals@[slot as int],), made));
                assert(settled(old(self).model(), r, Ok(made), self.model(), next));
            }
            next
        } else {
            Next::Fail(RunError::LocalOutOfBounds)
        }
    }

    /// Copies a register to a variable of the script.
    fn save(&self, locals: &mut Vec<V>, r: u16, slot: u16) -> (next: Next<V>)
        ensures
            stored(self.model(), old(locals)@, r, slot, self.model(), final(locals)@, next),
    {
        match register(&self.state.vars, r) {
            Err(e) => Next::Fail(e),
            Ok(value) => {
                if (slot as usize) < locals.len() {
                    let copy = value.copy();
                    let ghost made = copy;
                    locals.set(slot as usize, copy);
                    proof {
                        assert(call_ensures(V::copy, (&self.model().vars[r as int],), made));
                    }
                    Next::Continue
                } else {
                    Next::Fail(RunError::LocalOutOfBounds)
                }
            },
        }
    }

    /// Writes a copy of `value` to the register `r`.
    fn copy_of(&mut self, r: u16, value: &V) -> (next: Next<V>)
        ensures
            copied(old(self).model(), r, *value, final(self).model(), next),
    {
        let copy = value.copy();
        let ghost made = copy;
        let next = go_on(store(&mut self.state.vars, r, copy));
        proof {
            assert(call_ensures(V::copy, (value,), made));
            assert(settled(old(self).model(), r, Ok(made), self.model(), next));
        }
        next
    }

    /// Copies the register `s` to the register `d`.
    fn move_to(&mut self, d: u16, s: u16) -> (next: Next<V>)
        ensures
            moved(old(self).model(), d, s, final(self).model(), next),
    {
        let copy = match register(&self.state.vars, s) {
            Err(e) => {
                return Next::Fail(e);
            },
            Ok(value) => value.copy(),
        };
        let ghost made = copy;
        let next = go_on(store(&mut self.state.vars, d, copy));
        proof {
            assert(call_ensures(V::copy, (&old(self).model().vars[s as int],), made));
            assert(settled(old(self).model(), d, Ok(made), self.model(), next));
        }
        next
    }

    /// Writes a new array or a new dictionary to the register `r`.
    fn create(&mut self, r: u16, len: usize, array: bool) -> (next: Next<V>)
        ensures
            created(old(self).model(), r, len, array, final(self).model(), next),
    {
        let value = if array {
            V::new_array(len)
        } else {
            V::new_dictionary(len)
        };
        let ghost made = value;
        let next = go_on(store(&mut self.state.vars, r, value));
        proof {
            assert(settled(old(self).model(), r, Ok(made), self.model(), next));
        }
        next
    }

    /// Reads an element of the value in the register `o`.
    fn get(&mut self, r: u16, o: u16, x: u16) -> (next: Next<V>)
        ensures
            got(old(self).model(), r, o, x, final(self).model(), next),
    {
        let object = match register(&self.state.vars, o) {
            Ok(v) => v,
            Err(e) => {
                return Next::Fail(e);
            },
        };
        let index = match register(&self.state.vars, x) {
            Ok(v) => v,
            Err(e) => {
                return Next::Fail(e);
            },
        };
        let given = object.index(index);
        let ghost answer = given;
        let next = go_on(keep(&mut self.state.vars, r, given));
        proof {
            assert(settled(old(self).model(), r, answer, self.model(), next));
        }
        next
    }

    /// Writes an element of the value in the register `o`.
    fn set(&self, r: u16, o: u16, x: u16) -> (next: Next<V>)
        ensures
            put(self.model(), r, o, x, self.model(), next),
    {
        let object = match register(&self.state.vars, o) {
            Ok(v) => v,
            Err(e) => {
                return Next::Fail(e);
            },
        };
        let index = match register(&self.state.vars, x) {
            Ok(v) => v,
            Err(e) => {
                return Next::Fail(e);
            },
        };
        match register(&self.state.vars, r) {
            Err(e) => Next::Fail(e),
            Ok(value) => {
                let copy = value.copy();
                let ghost made = copy;
                let done = object.set_index(index, copy);
                let next = match done {
                    Ok(_) => Next::Continue,
                    Err(e) => Next::Fail(call(e)),
                };
                proof {
                    assert(call_ensures(
                        V::set_index,
                        (&self.model().vars[o as int], &self.model().vars[x as int], made),
                        done,
                    ));
                    assert(heard(self.model(), done, self.model(), next));
                }
                next
            },
        }
    }

    /// Takes the value of the register `r` out of it, for a return.
    fn give(&mut self, r: u16) -> (next: Next<V>)
        ensures
            given_back(old(self).model(), r, final(self).model(), next),
    {
        if (r as usize) < self.state.vars.len() {
            let mut value = V::empty();
            let ghost left = value;
            self.state.vars.set_and_swap(r as usize, &mut value);
            proof {
                assert(call_ensures(V::empty, (), left));
                assert(self.model() == holding(old(self).model(), r, left));
            }
            Next::Return(value)
        } else {
            Next::Fail(RunError::RegisterOutOfBounds)
        }
    }

    /// Calls the host: a method of the value in the register `on`, or a
    /// function of the environment where there is none.
    fn call_host<E: Environment<V>>(
        &mut self,
        on: Option<u16>,
        store_in: Option<u16>,
        name: &str,
        regs: &Vec<u16>,
        limit: u16,
        env: &E,
    ) -> (next: Next<V>)
        ensures
            called(
                old(self).model(),
                on,
                store_in,
                name@,
                regs@,
                limit,
                env,
                final(self).model(),
                next,
            ),
    {
        let args = match arguments(&self.state.vars, regs, limit) {
            Ok(args) => args,
            Err(e) => {
                return Next::Fail(e);
            },
        };
        let given = match on {
            Some(reg) => match register(&self.state.vars, reg) {
                Ok(object) => object.call(name, &args, env),
                Err(e) => {
                    return Next::Fail(e);
                },
            },
            None => env.call(name, &args),
        };
        let ghost answer = given;
        let next = match store_in {
            Some(reg) => go_on(keep(&mut self.state.vars, reg, given)),
            None => match given {
                Ok(_) => Next::Continue,
                Err(e) => Next::Fail(call(e)),
            },
        };
        proof {
            assert(answered(old(self).model().vars, on, name, args, env, answer));
            assert(replied(old(self).model(), store_in, answer, self.model(), next));
        }
        next
    }

    /// Gathers the arguments of a call of a function of the script.
    fn call_own(&self, store_in: Option<u16>, func: u16, regs: &Vec<u16>, limit: u16) -> (next:
        Next<V>)
        ensures
            called_own(self.model(), store_in, func, regs@, limit, self.model(), next),
    {
        match arguments(&self.state.vars, regs, limit) {
            Ok(args) => Next::Call(func, args, store_in),
            Err(e) => Next::Fail(e),
        }
    }

    /// Leaves loops and jumps to `ip`.
    fn break_out(&mut self, amount: usize, amount_int: usize, ip: usize) -> (next: Next<V>)
        ensures
            broken(old(self).model(), amount, amount_int, ip, final(self).model(), next),
    {
        match leave(&mut self.walks, &mut self.ranges, amount, amount_int) {
            Ok(_) => {
                self.ip = ip;
                Next::Continue
            },
            Err(e) => Next::Fail(e),
        }
    }

    /// Returns without a value.
    fn give_nothing(&self) -> (next: Next<V>)
        ensures
            given_nothing(self.model(), self.model(), next),
    {
        let value = V::empty();
        proof {
            assert(call_ensures(V::empty, (), value));
        }
        Next::Return(value)
    }

    /// Executes the instruction `i`, behind which the frame already stands:
    /// the frame, the variables of the script and what is asked of the
    /// machine are what `effect` says.
    pub fn execute<E: Environment<V>>(
        &mut self,
        i: &Instruction,
        limit: u16,
        locals: &mut Vec<V>,
        env: &E,
        this: &V,
    ) -> (next: Next<V>)
        ensures
            effect(
                i@,
                limit,
                old(self).model(),
                old(locals)@,
                *this,
                env,
                final(self).model(),
                final(locals)@,
                next,
            ),
    {
        proof {
            reveal(Instruction::model);
        }
        match i {
            Instruction::Call(reg, a) => self.call_host(
                Some(*reg),
                a.store_in,
                a.func.as_str(),
                &a.args,
                limit,
                env,
            ),
            Instruction::CallEnv(a) => self.call_host(
                None,
                a.store_in,
                a.func.as_str(),
                &a.args,
                limit,
                env,
            ),
            Instruction::CallSelf(a) => self.call_own(a.store_in, a.func, &a.args, limit),
            Instruction::Jmp(target) => {
                self.ip = *target;
                Next::Continue
            },
            Instruction::JmpIf(cond, target) => self.jump_on(*cond, false, *target),
            Instruction::JmpNotIf(cond, target) => self.jump_on(*cond, true, *target),
            Instruction::RetSome(r) => self.give(*r),
            Instruction::RetNone => self.give_nothing(),
            Instruction::Iter(reg, over, exit) => self.walk(*reg, *over, *exit),
            Instruction::IterJmp(reg, body) => self.walk_on(*reg, *body),
            Instruction::IterInt { reg, from, to, step, jmp_ip } => self.count(
                *reg,
                *from,
                *to,
                *step,
                *jmp_ip,
            ),
            Instruction::IterIntJmp(reg, body) => self.count_on(*reg, *body),
            Instruction::Break { amount, amount_int, jmp_ip } => self.break_out(
                *amount,
                *amount_int,
                *jmp_ip,
            ),
            Instruction::Add(r, a, b) => self.arithmetic(Arithmetic::Add, *r, *a, *b),
            Instruction::Sub(r, a, b) => self.arithmetic(Arithmetic::Sub, *r, *a, *b),
            Instruction::Mul(r, a, b) => self.arithmetic(Arithmetic::Mul, *r, *a, *b),
            Instruction::Div(r, a, b) => self.arithmetic(Arithmetic::Div, *r, *a, *b),
            Instruction::Rem(r, a, b) => self.arithmetic(Arithmetic::Rem, *r, *a, *b),
            Instruction::And(r, a, b) => self.arithmetic(Arithmetic::And, *r, *a, *b),
            Instruction::Or(r, a, b) => self.arithmetic(Arithmetic::Or, *r, *a, *b),
            Instruction::Xor(r, a, b) => self.arithmetic(Arithmetic::Xor, *r, *a, *b),
            Instruction::Shl(r, a, b) => self.arithmetic(Arithmetic::Shl, *r, *a, *b),
            Instruction::Shr(r, a, b) => self.arithmetic(Arithmetic::Shr, *r, *a, *b),
            Instruction::Neg(r, a) => self.unary(true, *r, *a),
            Instruction::Not(r, a) => self.unary(false, *r, *a),
            Instruction::LessEq(r, a, b) => self.compare(Comparison::LessEq, *r, *a, *b),
            Instruction::Less(r, a, b) => self.compare(Comparison::Less, *r, *a, *b),
            Instruction::Neq(r, a, b) => self.compare(Comparison::Neq, *r, *a, *b),
            Instruction::Eq(r, a, b) => self.compare(Comparison::Eq, *r, *a, *b),
            Instruction::Store(r, slot) => self.save(locals, *r, *slot),
            Instruction::Load(r, slot) => self.load(locals, *r, *slot),
            Instruction::Move(d, s) => self.move_to(*d, *s),
            Instruction::NewArray(r, len) => self.create(*r, *len, true),
            Instruction::NewDictionary(r, capacity) => self.create(*r, *capacity, false),
            Instruction::GetIndex(r, o, x) => self.get(*r, *o, *x),
            Instruction::SetIndex(r, o, x) => self.set(*r, *o, *x),
            Instruction::CopySelf { dest } => self.copy_of(*dest, this),
        }
    }
}

/// The instruction that the innermost frame of `frames` stands at, if it
/// stands at one.
pub open spec fn current<V: VariantType>(frames: Seq<FrameView<V>>, functions: Seq<ByteCodeView>) -> Option<
    InstructionView,
> {
    if frames.len() > 0 && frames.last().function < functions.len() && frames.last().ip
        < functions[frames.last().function as int].code.len() {
        Some(functions[frames.last().function as int].code[frames.last().ip as int])
    } else {
        None
    }
}

/// Why a machine whose innermost frame stands at no instruction stops: the
/// frame is of no function of the script, or there is no instruction where
/// it stands (or no frame at all).
pub open spec fn lost<V: VariantType>(frames: Seq<FrameView<V>>, functions: Seq<ByteCodeView>) -> RunError {
    if frames.len() > 0 && frames.last().function >= functions.len() {
        RunError::UndefinedFunction
    } else {
        RunError::IpOutOfBounds
    }
}

/// What becomes of the frames `rest` of the callers where `value` is
/// returned to them: where no call is left the program is done with it.
/// Else it is written to the register `to` of the innermost frame, where
/// there is such a register; where `to` is no register of that frame the
/// program stops.
pub open spec fn handed<V: VariantType>(
    rest: Seq<FrameView<V>>,
    to: Option<u16>,
    value: V,
    after: Seq<FrameView<V>>,
    status: Status<V>,
) -> bool {
    if rest.len() == 0 {
        status == Status::Done(value) && after == rest
    } else {
        match to {
            None => status is Running && after == rest,
            Some(reg) => if reg < rest.last().vars.len() {
                status is Running && after == rest.drop_last().push(
                    holding(rest.last(), reg, value),
                )
            } else {
                status == Status::<V>::Failed(RunError::RegisterOutOfBounds) && after == rest
            },
        }
    }
}

/// What a returned `value` comes to in a machine: it is `handed` to the
/// callers, and where that stops the program no frame is left.
pub open spec fn returned<V: VariantType>(
    rest: Seq<FrameView<V>>,
    to: Option<u16>,
    value: V,
    after: Seq<FrameView<V>>,
    status: Status<V>,
) -> bool {
    if status is Failed {
        handed(rest, to, value, rest, status) && after.len() == 0
    } else {
        handed(rest, to, value, after, status)
    }
}

/// What a call of the function with the number `f` comes to, with the
/// arguments `args`, whose result goes to the register `to` of the
/// innermost frame of `frames`: a new frame on top, or the end of the
/// program where there is no such function or it takes other arguments.
pub open spec fn entered_call<V: VariantType>(
    functions: Seq<ByteCodeView>,
    frames: Seq<FrameView<V>>,
    f: u16,
    args: Seq<V>,
    to: Option<u16>,
    after: Seq<FrameView<V>>,
    status: Status<V>,
) -> bool {
    if f >= functions.len() {
        status == Status::<V>::Failed(RunError::UndefinedFunction) && after.len() == 0
    } else {
        match refused(functions[f as int], args.len()) {
            Some(e) => status == Status::<V>::Failed(e) && after.len() == 0,
            None => exists|callee: FrameView<V>| #[trigger]
                new_frame(functions[f as int], f as usize, args, to, callee) && status is Running
                    && after == frames.push(callee),
        }
    }
}

/// What becomes of a machine behind an instruction that left its innermost
/// frame as `b`, above the frames `rest`, and asked `next` of it.
pub open spec fn followed<V: VariantType>(
    functions: Seq<ByteCodeView>,
    rest: Seq<FrameView<V>>,
    b: FrameView<V>,
    next: Next<V>,
    after: Seq<FrameView<V>>,
    status: Status<V>,
) -> bool {
    match next {
        Next::Continue => status is Running && after == rest.push(b),
        Next::Fail(e) => status == Status::<V>::Failed(e) && after.len() == 0,
        Next::Return(value) => returned(rest, b.store_in, value, after, status),
        Next::Call(f, args, to) => entered_call(functions, rest.push(b), f, args@, to, after, status),
    }
}

/// The frame `a` as its instruction finds it: the frame stands behind the
/// instruction already, and its registers are `seen`.
pub open spec fn ready<V: VariantType>(a: FrameView<V>, seen: Seq<V>) -> FrameView<V> {
    FrameView { ip: (a.ip + 1) as usize, vars: seen, ..a }
}

/// One step of a machine with the frames `frames`, the innermost last, that
/// runs the functions `functions` on an object with the variables `locals`
/// that `this` stands for: the frames `after`, the variables `locals_after`
/// and how the machine stands then, under a tracer that is `passive` or
/// not.
///
/// A machine whose innermost frame stands at no instruction stops. Else
/// the tracer sees the registers of the innermost frame and leaves them as
/// `seen`, which is as they were where the tracer is `passive`; the frame
/// moves behind its instruction; the instruction has its `effect`; and the
/// machine does what is asked of it, as `followed` says. A machine that is
/// done or has stopped has no frame left.
pub open spec fn stepped<V: VariantType, E: Environment<V>>(
    functions: Seq<ByteCodeView>,
    env: &E,
    this: V,
    passive: bool,
    frames: Seq<FrameView<V>>,
    locals: Seq<V>,
    after: Seq<FrameView<V>>,
    locals_after: Seq<V>,
    status: Status<V>,
) -> bool {
    match current(frames, functions) {
        None => status == Status::<V>::Failed(lost(frames, functions)) && after.len() == 0
            && locals_after == locals,
        Some(i) => exists|seen: Seq<V>, b: FrameView<V>, next: Next<V>| #[trigger]
            effect(
                i,
                functions[frames.last().function as int].max_call_args,
                ready(frames.last(), seen),
                locals,
                this,
                env,
                b,
                locals_after,
                next,
            ) && followed(functions, frames.drop_last(), b, next, after, status) && (passive
                ==> seen == frames.last().vars),
    }
}

/// Whether `n` steps lead a machine from the frames `frames` and the
/// variables `locals` to the frames `after` and the variables
/// `locals_after`, where it stands as `status` says, under a tracer that is
/// `passive` or not; the machine is running behind each step but the last.
pub open spec fn ran<V: VariantType, E: Environment<V>>(
    functions: Seq<ByteCodeView>,
    env: &E,
    this: V,
    passive: bool,
    frames: Seq<FrameView<V>>,
    locals: Seq<V>,
    after: Seq<FrameView<V>>,
    locals_after: Seq<V>,
    status: Status<V>,
    n: nat,
) -> bool
    decreases n,
{
    if n == 0 {
        false
    } else if n == 1 {
        stepped(functions, env, this, passive, frames, locals, after, locals_after, status)
    } else {
        exists|between: Seq<FrameView<V>>, locals_between: Seq<V>|
            ran(
                functions,
                env,
                this,
                passive,
                frames,
                locals,
                between,
                locals_between,
                Status::<V>::Running,
                (n - 1) as nat,
            ) && #[trigger] stepped(
                functions,
                env,
                this,
                passive,
                between,
                locals_between,
                after,
                locals_after,
                status,
            )
    }
}

/// What a run of at most `budget` steps comes to. Without a budget nothing
/// happens. Else the machine takes steps until it is done or has stopped,
/// and all `budget` steps where it is still running then.
pub open spec fn ran_for<V: VariantType, E: Environment<V>>(
    functions: Seq<ByteCodeView>,
    env: &E,
    this: V,
    passive: bool,
    frames: Seq<FrameView<V>>,
    locals: Seq<V>,
    after: Seq<FrameView<V>>,
    locals_after: Seq<V>,
    status: Status<V>,
    budget: nat,
) -> bool {
    if budget == 0 {
        after == frames && locals_after == locals && status == (if frames.len() == 0 {
            Status::<V>::Failed(RunError::IpOutOfBounds)
        } else {
            Status::<V>::Running
        })
    } else {
        exists|n: nat|
            1 <= n <= budget && (status is Running ==> n == budget) && #[trigger] ran(
                functions,
                env,
                this,
                passive,
                frames,
                locals,
                after,
                locals_after,
                status,
                n,
            )
    }
}

/// A run that is still going on, and one more step, are a run of one more
/// step.
pub proof fn lemma_ran_on<V: VariantType, E: Environment<V>>(
    functions: Seq<ByteCodeView>,
    env: &E,
    this: V,
    passive: bool,
    frames: Seq<FrameView<V>>,
    locals: Seq<V>,
    between: Seq<FrameView<V>>,
    locals_between: Seq<V>,
    after: Seq<FrameView<V>>,
    locals_after: Seq<V>,
    status: Status<V>,
    n: nat,
)
    requires
        ran(functions, env, this, passive, frames, locals, between, locals_between, Status::<V>::Running, n),
        stepped(functions, env, this, passive, between, locals_between, after, locals_after, status),
    ensures
        ran(functions, env, this, passive, frames, locals, after, locals_after, status, n + 1),
{
    assert((n + 1 - 1) as nat == n);
}

/// A step of a machine whose innermost frame stands at no instruction
/// stops it, and a `RetNone` in its only frame ends the program. A step
/// leaves the variables of the script as they are unless it executes a
/// `Store`.
pub proof fn lemma_step_settled<V: VariantType, E: Environment<V>>(
    functions: Seq<ByteCodeView>,
    env: &E,
    this: V,
    passive: bool,
    frames: Seq<FrameView<V>>,
    locals: Seq<V>,
    after: Seq<FrameView<V>>,
    locals_after: Seq<V>,
    status: Status<V>,
)
    requires
        stepped(functions, env, this, passive, frames, locals, after, locals_after, status),
    ensures
        current(frames, functions) is None ==> status == Status::<V>::Failed(
            lost(frames, functions),
        ),
        frames.len() == 1 && current(frames, functions) == Some(InstructionView::RetNone)
            ==> status is Done,
        !(current(frames, functions) matches Some(InstructionView::Store(_, _))) ==> locals_after
            == locals,
        locals_after.len() == locals.len(),
        !(status is Running) ==> after.len() == 0,
        status is Running ==> after.len() > 0,
{
    match current(frames, functions) {
        None => {},
        Some(i) => {
            let (seen, b, next) = choose|seen: Seq<V>, b: FrameView<V>, next: Next<V>| #[trigger]
                effect(
                    i,
                    functions[frames.last().function as int].max_call_args,
                    ready(frames.last(), seen),
                    locals,
                    this,
                    env,
                    b,
                    locals_after,
                    next,
                ) && followed(functions, frames.drop_last(), b, next, after, status) && (passive
                    ==> seen == frames.last().vars);
        },
    }
}

/// Whether no instruction of `functions` is a `Store`.
pub open spec fn storeless(functions: Seq<ByteCodeView>) -> bool {
    forall|f: int, k: int|
        0 <= f < functions.len() && 0 <= k < functions[f].code.len() ==> !(
        #[trigger] functions[f].code[k] is Store)
}

/// A run of functions without a `Store` leaves the variables of the script
/// as they are, however many steps it takes.
pub proof fn lemma_variables_stay<V: VariantType, E: Environment<V>>(
    functions: Seq<ByteCodeView>,
    env: &E,
    this: V,
    passive: bool,
    frames: Seq<FrameView<V>>,
    locals: Seq<V>,
    after: Seq<FrameView<V>>,
    locals_after: Seq<V>,
    status: Status<V>,
    n: nat,
)
    requires
        storeless(functions),
        ran(functions, env, this, passive, frames, locals, after, locals_after, status, n),
    ensures
        locals_after == locals,
    decreases n,
{
    if n == 1 {
        lemma_step_settled(functions, env, this, passive, frames, locals, after, locals_after, status);
    } else if n > 1 {
        let (between, locals_between) = choose|
            between: Seq<FrameView<V>>,
            locals_between: Seq<V>,
        |
            ran(
                functions,
                env,
                this,
                passive,
                frames,
                locals,
                between,
                locals_between,
                Status::<V>::Running,
                (n - 1) as nat,
            ) && #[trigger] stepped(
                functions,
                env,
                this,
                passive,
                between,
                locals_between,
                after,
                locals_after,
                status,
            );
        lemma_variables_stay(
            functions,
            env,
            this,
            passive,
            frames,
            locals,
            between,
            locals_between,
            Status::<V>::Running,
            (n - 1) as nat,
        );
        lemma_step_settled(
            functions,
            env,
            this,
            passive,
            between,
            locals_between,
            after,
            locals_after,
            status,
        );
    }
}

/// A run of at most `budget` steps of functions without a `Store` leaves
/// the variables of the script as they are.
pub proof fn lemma_run_keeps_variables<V: VariantType, E: Environment<V>>(
    functions: Seq<ByteCodeView>,
    env: &E,
    this: V,
    passive: bool,
    frames: Seq<FrameView<V>>,
    locals: Seq<V>,
    after: Seq<FrameView<V>>,
    locals_after: Seq<V>,
    status: Status<V>,
    budget: nat,
)
    requires
        storeless(functions),
        ran_for(functions, env, this, passive, frames, locals, after, locals_after, status, budget),
    ensures
        locals_after == locals,
{
    if budget > 0 {
        let n = choose|n: nat|
            1 <= n <= budget && (status is Running ==> n == budget) && #[trigger] ran(
                functions,
                env,
                this,
                passive,
                frames,
                locals,
                after,
                locals_after,
                status,
                n,
            );
        lemma_variables_stay(functions, env, this, passive, frames, locals, after, locals_after, status, n);
    }
}

/// A counting loop whose start is its stop runs no round, whatever its
/// step: the frame goes on behind the loop, and nothing else of it changes.
pub proof fn lemma_empty_loop_skipped<V: VariantType>(
    a: FrameView<V>,
    reg: u16,
    bound: isize,
    step: isize,
    exit: usize,
    b: FrameView<V>,
    next: Next<V>,
)
    requires
        counted(
            a,
            reg,
            Ok::<isize, CallError>(bound),
            Ok::<isize, CallError>(bound),
            Ok::<isize, CallError>(step),
            exit,
            b,
            next,
        ),
    ensures
        next is Continue,
        b == at(a, exit),
{
}

/// A counting loop with the step 0 whose variable is not at its stop goes
/// round for ever: one more round leaves the loop as it is, writes what the
/// host makes of its variable to the register of the loop, and leads to its
/// body again.
pub proof fn lemma_zero_step_goes_round<V: VariantType>(
    a: FrameView<V>,
    reg: u16,
    body: usize,
    b: FrameView<V>,
    next: Next<V>,
)
    requires
        resumed_count(a, reg, body, b, next),
        a.ranges.len() > 0,
        a.ranges.last().step == 0,
        a.ranges.last().current != a.ranges.last().stop,
        reg < a.vars.len(),
    ensures
        next is Continue,
        b.ip == body,
        b.ranges == a.ranges,
        b.walks == a.walks,
        exists|value: V| #[trigger]
            call_ensures(V::new_integer, (a.ranges.last().current,), value) && b.vars
                == a.vars.update(reg as int, value),
{
    lemma_zero_step_never_ends(a.ranges.last());
    assert(a.ranges.drop_last().push(a.ranges.last()) =~= a.ranges);
}

/// Whether the counting loop `r` has the step 0 and its variable is not at
/// its stop: it never ends by counting.
pub open spec fn endless(r: Range) -> bool {
    r.step == 0 && r.current != r.stop
}

/// Whether the program goes on in the frame `b`, or with a call from it,
/// only with the counting loop that is the loop `j` of the frame `a` still
/// in its place, as it was.
pub open spec fn kept_endless<V: VariantType>(
    a: FrameView<V>,
    b: FrameView<V>,
    next: Next<V>,
    j: int,
) -> bool {
    next is Continue || next is Call ==> j < b.ranges.len() && b.ranges[j] == a.ranges[j]
        && b.function == a.function
}

/// No instruction but a `Break` takes a counting loop that never ends by
/// counting out of its frame, or changes it, where the program goes on.
pub proof fn lemma_effect_keeps_endless<V: VariantType, E: Environment<V>>(
    i: InstructionView,
    limit: u16,
    a: FrameView<V>,
    locals: Seq<V>,
    this: V,
    env: &E,
    b: FrameView<V>,
    locals_after: Seq<V>,
    next: Next<V>,
    j: int,
)
    requires
        effect(i, limit, a, locals, this, env, b, locals_after, next),
        0 <= j < a.ranges.len(),
        endless(a.ranges[j]),
        !(i is Break),
    ensures
        kept_endless(a, b, next, j),
        next is Return ==> i is RetSome || i is RetNone,
{
    match i {
        InstructionView::Call(_, _) => {
            assert(kept_endless(a, b, next, j));
        },
        InstructionView::CallSelf(_) => {
            assert(kept_endless(a, b, next, j));
        },
        InstructionView::CallEnv(_) => {
            assert(kept_endless(a, b, next, j));
        },
        InstructionView::Jmp(_) => {
            assert(kept_endless(a, b, next, j));
        },
        InstructionView::JmpIf(_, _) => {
            assert(kept_endless(a, b, next, j));
        },
        InstructionView::JmpNotIf(_, _) => {
            assert(kept_endless(a, b, next, j));
        },
        InstructionView::RetSome(_) => {
            assert(kept_endless(a, b, next, j));
        },
        InstructionView::RetNone => {
            assert(kept_endless(a, b, next, j));
        },
        InstructionView::Iter(_, _, _) => {
            assert(kept_endless(a, b, next, j));
        },
        InstructionView::IterJmp(_, _) => {
            assert(kept_endless(a, b, next, j));
        },
        InstructionView::IterInt { .. } => {
            assert(kept_endless(a, b, next, j));
        },
        InstructionView::IterIntJmp(_, _) => {
            assert(kept_endless(a, b, next, j));
        },
        InstructionView::Break { .. } => {
            assert(kept_endless(a, b, next, j));
        },
        InstructionView::Add(_, _, _) => {
            assert(kept_endless(a, b, next, j));
        },
        InstructionView::Sub(_, _, _) => {
            assert(kept_endless(a, b, next, j));
        },
        InstructionView::Mul(_, _, _) => {
            assert(kept_endless(a, b, next, j));
        },
        InstructionView::Div(_, _, _) => {
            assert(kept_endless(a, b, next, j));
        },
        InstructionView::Rem(_, _, _) => {
            assert(kept_endless(a, b, next, j));
        },
        InstructionView::And(_, _, _) => {
            assert(kept_endless(a, b, next, j));
        },
        InstructionView::Or(_, _, _) => {
            assert(kept_endless(a, b, next, j));
        },
        InstructionView::Xor(_, _, _) => {
            assert(kept_endless(a, b, next, j));
        },
        InstructionView::Shl(_, _, _) => {
            assert(kept_endless(a, b, next, j));
        },
        InstructionView::Shr(_, _, _) => {
            assert(kept_endless(a, b, next, j));
        },
        InstructionView::Not(_, _) => {
            assert(kept_endless(a, b, next, j));
        },
        InstructionView::Neg(_, _) => {
            assert(kept_endless(a, b, next, j));
        },
        InstructionView::LessEq(_, _, _) => {
            assert(kept_endless(a, b, next, j));
        },
        InstructionView::Less(_, _, _) => {
            assert(kept_endless(a, b, next, j));
        },
        InstructionView::Neq(_, _, _) => {
            assert(kept_endless(a, b, next, j));
        },
        InstructionView::Eq(_, _, _) => {
            assert(kept_endless(a, b, next, j));
        },
        InstructionView::Store(_, _) => {
            assert(kept_endless(a, b, next, j));
        },
        InstructionView::Load(_, _) => {
            assert(kept_endless(a, b, next, j));
        },
        InstructionView::Move(_, _) => {
            assert(kept_endless(a, b, next, j));
        },
        InstructionView::NewArray(_, _) => {
            assert(kept_endless(a, b, next, j));
        },
        InstructionView::NewDictionary(_, _) => {
            assert(kept_endless(a, b, next, j));
        },
        InstructionView::GetIndex(_, _, _) => {
            assert(kept_endless(a, b, next, j));
        },
        InstructionView::SetIndex(_, _, _) => {
            assert(kept_endless(a, b, next, j));
        },
        InstructionView::CopySelf { .. } => {
            assert(kept_endless(a, b, next, j));
        },
    }
}

/// A step at the end of a round of a counting loop with the step 0, whose
/// variable is not at its stop, does not end the loop, whatever the tracer
/// and the host do. The program stops only where the register of the loop
/// is none of the frame as the tracer left it. Else the machine keeps
/// running, no frame but the innermost changes, that frame is in the same
/// loops and goes on at the body of the loop, and what the host makes of
/// the variable of the loop is written to its register. Under a passive
/// tracer the register is one of the frame if it was, and no other register
/// changes.
pub proof fn lemma_step_goes_round<V: VariantType, E: Environment<V>>(
    functions: Seq<ByteCodeView>,
    env: &E,
    this: V,
    passive: bool,
    frames: Seq<FrameView<V>>,
    locals: Seq<V>,
    after: Seq<FrameView<V>>,
    locals_after: Seq<V>,
    status: Status<V>,
    reg: u16,
    body: usize,
)
    requires
        stepped(functions, env, this, passive, frames, locals, after, locals_after, status),
        current(frames, functions) == Some(InstructionView::IterIntJmp(reg, body)),
        frames.last().ranges.len() > 0,
        endless(frames.last().ranges.last()),
    ensures
        locals_after == locals,
        status is Running || status == Status::<V>::Failed(RunError::RegisterOutOfBounds),
        status is Running ==> {
            &&& after.len() == frames.len()
            &&& after.drop_last() == frames.drop_last()
            &&& after.last().function == frames.last().function
            &&& after.last().ip == body
            &&& after.last().ranges == frames.last().ranges
            &&& after.last().walks == frames.last().walks
            &&& reg < after.last().vars.len()
            &&& call_ensures(
                V::new_integer,
                (frames.last().ranges.last().current,),
                after.last().vars[reg as int],
            )
        },
        passive && reg < frames.last().vars.len() ==> status is Running && exists|value: V|
            #[trigger] call_ensures(V::new_integer, (frames.last().ranges.last().current,), value)
                && after.last().vars == frames.last().vars.update(reg as int, value),
{
    let i = InstructionView::IterIntJmp(reg, body);
    let (seen, b, next) = choose|seen: Seq<V>, b: FrameView<V>, next: Next<V>| #[trigger]
        effect(
            i,
            functions[frames.last().function as int].max_call_args,
            ready(frames.last(), seen),
            locals,
            this,
            env,
            b,
            locals_after,
            next,
        ) && followed(functions, frames.drop_last(), b, next, after, status) && (passive ==> seen
            == frames.last().vars);
    let a = ready(frames.last(), seen);
    lemma_zero_step_never_ends(a.ranges.last());
    assert(a.ranges.drop_last().push(a.ranges.last()) =~= a.ranges);
    if reg < seen.len() {
        lemma_zero_step_goes_round(a, reg, body, b, next);
        assert(after.drop_last() =~= frames.drop_last());
    }
}

/// A step of a machine that keeps running leaves a counting loop that never
/// ends by counting in its frame, as it was, whatever the tracer and the
/// host do, unless the step is a `Break` or a return of that frame.
pub proof fn lemma_step_keeps_endless<V: VariantType, E: Environment<V>>(
    functions: Seq<ByteCodeView>,
    env: &E,
    this: V,
    passive: bool,
    frames: Seq<FrameView<V>>,
    locals: Seq<V>,
    after: Seq<FrameView<V>>,
    locals_after: Seq<V>,
    status: Status<V>,
    d: int,
    j: int,
)
    requires
        stepped(functions, env, this, passive, frames, locals, after, locals_after, status),
        0 <= d < frames.len(),
        0 <= j < frames[d].ranges.len(),
        endless(frames[d].ranges[j]),
        d == frames.len() - 1 ==> !(current(frames, functions) matches Some(i) && (i is Break
            || i is RetSome || i is RetNone)),
    ensures
        !(status is Done),
        status is Running ==> d < after.len() && after[d].function == frames[d].function && j
            < after[d].ranges.len() && after[d].ranges[j] == frames[d].ranges[j],
{
    match current(frames, functions) {
        None => {},
        Some(i) => {
            let (seen, b, next) = choose|seen: Seq<V>, b: FrameView<V>, next: Next<V>| #[trigger]
                effect(
                    i,
                    functions[frames.last().function as int].max_call_args,
                    ready(frames.last(), seen),
                    locals,
                    this,
                    env,
                    b,
                    locals_after,
                    next,
                ) && followed(functions, frames.drop_last(), b, next, after, status) && (passive
                    ==> seen == frames.last().vars);
            let a = ready(frames.last(), seen);
            let rest = frames.drop_last();
            if d == frames.len() - 1 {
                lemma_effect_keeps_endless(
                    i,
                    functions[frames.last().function as int].max_call_args,
                    a,
                    locals,
                    this,
                    env,
                    b,
                    locals_after,
                    next,
                    j,
                );
            } else {
                assert(rest[d] == frames[d]);
            }
        },
    }
}

/// Whether the instruction `i` is none that begins or ends a round of a
/// counting loop, none that leaves loops and none that returns, and leads
/// only to instructions from `lo` to `hi` where it jumps.
pub open spec fn stays_within(i: InstructionView, lo: int, hi: int) -> bool {
    match i {
        InstructionView::Jmp(t) => lo <= t <= hi,
        InstructionView::JmpIf(_, t) => lo <= t <= hi,
        InstructionView::JmpNotIf(_, t) => lo <= t <= hi,
        InstructionView::Iter(_, _, t) => lo <= t <= hi,
        InstructionView::IterJmp(_, t) => lo <= t <= hi,
        InstructionView::IterInt { .. } => false,
        InstructionView::IterIntJmp(_, _) => false,
        InstructionView::Break { .. } => false,
        InstructionView::RetSome(_) => false,
        InstructionView::RetNone => false,
        _ => true,
    }
}

/// Whether the instructions from `lo` to `hi` of the function `p` are the
/// body of a counting loop that nothing in it leaves: the last of them ends
/// a round of the loop and leads back into them, and each of the others
/// `stays_within` them.
pub open spec fn enclosed(p: ByteCodeView, lo: int, hi: int) -> bool {
    &&& 0 <= lo <= hi < p.code.len()
    &&& hi <= usize::MAX
    &&& p.code[hi] matches InstructionView::IterIntJmp(_, body) && lo <= body <= hi
    &&& forall|k: int| lo <= k < hi ==> stays_within(#[trigger] p.code[k], lo, hi)
}

/// Whether the instruction `i` is none that begins or ends a round of a
/// counting loop, none that leaves loops and none that returns, and leads
/// only to instructions from `lo` to `hi` where it jumps.
pub fn keeps_within(i: &Instruction, lo: usize, hi: usize) -> (r: bool)
    ensures
        r == stays_within(i@, lo as int, hi as int),
{
    proof {
        reveal(Instruction::model);
    }
    match i {
        Instruction::Jmp(t) => lo <= *t && *t <= hi,
        Instruction::JmpIf(_, t) => lo <= *t && *t <= hi,
        Instruction::JmpNotIf(_, t) => lo <= *t && *t <= hi,
        Instruction::Iter(_, _, t) => lo <= *t && *t <= hi,
        Instruction::IterJmp(_, t) => lo <= *t && *t <= hi,
        Instruction::IterInt { .. } => false,
        Instruction::IterIntJmp(_, _) => false,
        Instruction::Break { .. } => false,
        Instruction::RetSome(_) => false,
        Instruction::RetNone => false,
        _ => true,
    }
}

/// Whether the instructions from `lo` to `hi` of the function `p` are the
/// body of a counting loop that nothing in it leaves.
pub fn is_enclosed(p: &ByteCode, lo: usize, hi: usize) -> (r: bool)
    ensures
        r == enclosed(p@, lo as int, hi as int),
{
    proof {
        reveal(Instruction::model);
    }
    if !(lo <= hi && hi < p.code.len()) {
        return false;
    }
    proof {
        assert(p@.code[hi as int] == p.code@[hi as int]@);
    }
    match &p.code[hi] {
        Instruction::IterIntJmp(_, body) => {
            if !(lo <= *body && *body <= hi) {
                return false;
            }
        },
        _ => {
            return false;
        },
    }
    let mut k: usize = lo;
    while k < hi
        invariant
            lo <= k <= hi < p.code@.len(),
            forall|j: int| lo <= j < k ==> stays_within(#[trigger] p@.code[j], lo as int, hi as int),
        decreases hi - k,
    {
        proof {
            assert(p@.code[k as int] == p.code@[k as int]@);
        }
        if !keeps_within(&p.code[k], lo, hi) {
            return false;
        }
        k += 1;
    }
    true
}

/// Whether the program goes on in the frame `b`, or with a call from it,
/// and then in the loops of the frame `a`, at an instruction from `lo` to
/// `hi`.
pub open spec fn went_on_within<V: VariantType>(
    a: FrameView<V>,
    b: FrameView<V>,
    next: Next<V>,
    lo: int,
    hi: int,
) -> bool {
    &&& !(next is Return)
    &&& next is Continue || next is Call ==> b.function == a.function && b.ranges == a.ranges
        && lo <= b.ip <= hi
}

/// An instruction in the body of a counting loop that `stays_within` it
/// leaves the frame in the body and in its loops, where the program goes
/// on.
pub proof fn lemma_effect_stays_within<V: VariantType, E: Environment<V>>(
    i: InstructionView,
    limit: u16,
    a: FrameView<V>,
    locals: Seq<V>,
    this: V,
    env: &E,
    b: FrameView<V>,
    locals_after: Seq<V>,
    next: Next<V>,
    lo: int,
    hi: int,
)
    requires
        effect(i, limit, a, locals, this, env, b, locals_after, next),
        stays_within(i, lo, hi),
        lo <= a.ip <= hi,
    ensures
        went_on_within(a, b, next, lo, hi),
{
    match i {
        InstructionView::Call(_, _) => {
            assert(went_on_within(a, b, next, lo, hi));
        },
        InstructionView::CallSelf(_) => {
            assert(went_on_within(a, b, next, lo, hi));
        },
        InstructionView::CallEnv(_) => {
            assert(went_on_within(a, b, next, lo, hi));
        },
        InstructionView::Jmp(_) => {
            assert(went_on_within(a, b, next, lo, hi));
        },
        InstructionView::JmpIf(_, _) => {
            assert(went_on_within(a, b, next, lo, hi));
        },
        InstructionView::JmpNotIf(_, _) => {
            assert(went_on_within(a, b, next, lo, hi));
        },
        InstructionView::Iter(_, _, _) => {
            assert(went_on_within(a, b, next, lo, hi));
        },
        InstructionView::IterJmp(_, _) => {
            assert(went_on_within(a, b, next, lo, hi));
        },
        InstructionView::Add(_, _, _) => {
            assert(went_on_within(a, b, next, lo, hi));
        },
        InstructionView::Sub(_, _, _) => {
            assert(went_on_within(a, b, next, lo, hi));
        },
        InstructionView::Mul(_, _, _) => {
            assert(went_on_within(a, b, next, lo, hi));
        },
        InstructionView::Div(_, _, _) => {
            assert(went_on_within(a, b, next, lo, hi));
        },
        InstructionView::Rem(_, _, _) => {
            assert(went_on_within(a, b, next, lo, hi));
        },
        InstructionView::And(_, _, _) => {
            assert(went_on_within(a, b, next, lo, hi));
        },
        InstructionView::Or(_, _, _) => {
            assert(went_on_within(a, b, next, lo, hi));
        },
        InstructionView::Xor(_, _, _) => {
            assert(went_on_within(a, b, next, lo, hi));
        },
        InstructionView::Shl(_, _, _) => {
            assert(went_on_within(a, b, next, lo, hi));
        },
        InstructionView::Shr(_, _, _) => {
            assert(went_on_within(a, b, next, lo, hi));
        },
        InstructionView::Not(_, _) => {
            assert(went_on_within(a, b, next, lo, hi));
        },
        InstructionView::Neg(_, _) => {
            assert(went_on_within(a, b, next, lo, hi));
        },
        InstructionView::LessEq(_, _, _) => {
            assert(went_on_within(a, b, next, lo, hi));
        },
        InstructionView::Less(_, _, _) => {
            assert(went_on_within(a, b, next, lo, hi));
        },
        InstructionView::Neq(_, _, _) => {
            assert(went_on_within(a, b, next, lo, hi));
        },
        InstructionView::Eq(_, _, _) => {
            assert(went_on_within(a, b, next, lo, hi));
        },
        InstructionView::Store(_, _) => {
            assert(went_on_within(a, b, next, lo, hi));
        },
        InstructionView::Load(_, _) => {
            assert(went_on_within(a, b, next, lo, hi));
        },
        InstructionView::Move(_, _) => {
            assert(went_on_within(a, b, next, lo, hi));
        },
        InstructionView::NewArray(_, _) => {
            assert(went_on_within(a, b, next, lo, hi));
        },
        InstructionView::NewDictionary(_, _) => {
            assert(went_on_within(a, b, next, lo, hi));
        },
        InstructionView::GetIndex(_, _, _) => {
            assert(went_on_within(a, b, next, lo, hi));
        },
        InstructionView::SetIndex(_, _, _) => {
            assert(went_on_within(a, b, next, lo, hi));
        },
        InstructionView::CopySelf { .. } => {
            assert(went_on_within(a, b, next, lo, hi));
        },
        _ => {},
    }
}

/// Whether the frame `d` of `frames` is in the body of a counting loop that
/// nothing in it leaves, the instructions from `lo` to `hi` of its function,
/// and the loop never ends by counting.
pub open spec fn looping<V: VariantType>(
    functions: Seq<ByteCodeView>,
    frames: Seq<FrameView<V>>,
    d: int,
    lo: int,
    hi: int,
) -> bool {
    &&& 0 <= d < frames.len()
    &&& frames[d].function < functions.len()
    &&& enclosed(functions[frames[d].function as int], lo, hi)
    &&& lo <= frames[d].ip <= hi
    &&& frames[d].ranges.len() > 0
    &&& endless(frames[d].ranges.last())
}

/// A step of a machine with a frame in the body of a counting loop that
/// never ends by counting, and that nothing in it leaves, gives no result,
/// whatever the tracer and the host do: the machine keeps running with the
/// frame in the body and in the same loops, or the program stops without a
/// result.
pub proof fn lemma_step_stays_in_loop<V: VariantType, E: Environment<V>>(
    functions: Seq<ByteCodeView>,
    env: &E,
    this: V,
    passive: bool,
    frames: Seq<FrameView<V>>,
    locals: Seq<V>,
    after: Seq<FrameView<V>>,
    locals_after: Seq<V>,
    status: Status<V>,
    d: int,
    lo: int,
    hi: int,
)
    requires
        stepped(functions, env, this, passive, frames, locals, after, locals_after, status),
        looping(functions, frames, d, lo, hi),
    ensures
        !(status is Done),
        status is Running ==> looping(functions, after, d, lo, hi) && after[d].function
            == frames[d].function && after[d].ranges == frames[d].ranges,
{
    match current(frames, functions) {
        None => {},
        Some(i) => {
            let limit = functions[frames.last().function as int].max_call_args;
            let (seen, b, next) = choose|seen: Seq<V>, b: FrameView<V>, next: Next<V>| #[trigger]
                effect(i, limit, ready(frames.last(), seen), locals, this, env, b, locals_after, next)
                    && followed(functions, frames.drop_last(), b, next, after, status) && (passive
                    ==> seen == frames.last().vars);
            let a = ready(frames.last(), seen);
            let rest = frames.drop_last();
            if d == frames.len() - 1 {
                let k = frames[d].ip as int;
                if k == hi {
                    lemma_zero_step_never_ends(a.ranges.last());
                    assert(a.ranges.drop_last().push(a.ranges.last()) =~= a.ranges);
                } else {
                    lemma_effect_stays_within(
                        i,
                        limit,
                        a,
                        locals,
                        this,
                        env,
                        b,
                        locals_after,
                        next,
                        lo,
                        hi,
                    );
                }
            } else {
                assert(rest[d] == frames[d]);
            }
        },
    }
}

/// A number of steps of a machine with a frame in the body of a counting
/// loop that never ends by counting, and that nothing in it leaves, gives
/// no result, whatever the tracer and the host do.
pub proof fn lemma_ran_stays_in_loop<V: VariantType, E: Environment<V>>(
    functions: Seq<ByteCodeView>,
    env: &E,
    this: V,
    passive: bool,
    frames: Seq<FrameView<V>>,
    locals: Seq<V>,
    after: Seq<FrameView<V>>,
    locals_after: Seq<V>,
    status: Status<V>,
    n: nat,
    d: int,
    lo: int,
    hi: int,
)
    requires
        ran(functions, env, this, passive, frames, locals, after, locals_after, status, n),
        looping(functions, frames, d, lo, hi),
    ensures
        !(status is Done),
        status is Running ==> looping(functions, after, d, lo, hi) && after[d].function
            == frames[d].function && after[d].ranges == frames[d].ranges,
    decreases n,
{
    if n == 1 {
        lemma_step_stays_in_loop(
            functions,
            env,
            this,
            passive,
            frames,
            locals,
            after,
            locals_after,
            status,
            d,
            lo,
            hi,
        );
    } else if n > 1 {
        let (between, locals_between) = choose|
            between: Seq<FrameView<V>>,
            locals_between: Seq<V>,
        |
            ran(
                functions,
                env,
                this,
                passive,
                frames,
                locals,
                between,
                locals_between,
                Status::<V>::Running,
                (n - 1) as nat,
            ) && #[trigger] stepped(
                functions,
                env,
                this,
                passive,
                between,
                locals_between,
                after,
                locals_after,
                status,
            );
        lemma_ran_stays_in_loop(
            functions,
            env,
            this,
            passive,
            frames,
            locals,
            between,
            locals_between,
            Status::<V>::Running,
            (n - 1) as nat,
            d,
            lo,
            hi,
        );
        lemma_step_stays_in_loop(
            functions,
            env,
            this,
            passive,
            between,
            locals_between,
            after,
            locals_after,
            status,
            d,
            lo,
            hi,
        );
    }
}

/// A counting loop with the step 0 whose variable is not at its stop never
/// ends: a run of a machine with a frame in the body of such a loop, which
/// nothing in the body leaves, gives no result, whatever its budget, the
/// tracer and the host. It is still running when the budget is used up,
/// with the frame in the body and in the same loops, or the program has
/// stopped without a result.
pub proof fn lemma_run_stays_in_loop<V: VariantType, E: Environment<V>>(
    functions: Seq<ByteCodeView>,
    env: &E,
    this: V,
    passive: bool,
    frames: Seq<FrameView<V>>,
    locals: Seq<V>,
    after: Seq<FrameView<V>>,
    locals_after: Seq<V>,
    status: Status<V>,
    budget: nat,
    d: int,
    lo: int,
    hi: int,
)
    requires
        ran_for(functions, env, this, passive, frames, locals, after, locals_after, status, budget),
        looping(functions, frames, d, lo, hi),
    ensures
        !(status is Done),
        status is Running ==> looping(functions, after, d, lo, hi) && after[d].function
            == frames[d].function && after[d].ranges == frames[d].ranges,
{
    if budget > 0 {
        let n = choose|n: nat|
            1 <= n <= budget && (status is Running ==> n == budget) && #[trigger] ran(
                functions,
                env,
                this,
                passive,
                frames,
                locals,
                after,
                locals_after,
                status,
                n,
            );
        lemma_ran_stays_in_loop(
            functions,
            env,
            this,
            passive,
            frames,
            locals,
            after,
            locals_after,
            status,
            n,
            d,
            lo,
            hi,
        );
    }
}

/// Under a passive tracer, a step at the begin of a counting loop whose
/// start and stop the host reads as the same integer, and whose step it
/// reads as an integer, runs no round: the machine keeps running, and
/// nothing changes but that the innermost frame goes on behind the loop.
pub proof fn lemma_step_skips_empty_loop<V: VariantType, E: Environment<V>>(
    functions: Seq<ByteCodeView>,
    env: &E,
    this: V,
    frames: Seq<FrameView<V>>,
    locals: Seq<V>,
    after: Seq<FrameView<V>>,
    locals_after: Seq<V>,
    status: Status<V>,
    reg: u16,
    from: u16,
    to: u16,
    step: u16,
    exit: usize,
    bound: isize,
)
    requires
        stepped(functions, env, this, true, frames, locals, after, locals_after, status),
        current(frames, functions) == Some(
            InstructionView::IterInt { reg, from, to, step, jmp_ip: exit },
        ),
        from < frames.last().vars.len(),
        to < frames.last().vars.len(),
        step < frames.last().vars.len(),
        forall|first: Result<isize, CallError>| #[trigger]
            call_ensures(V::as_integer, (&frames.last().vars[from as int],), first) ==> first
                == Ok::<isize, CallError>(bound),
        forall|last: Result<isize, CallError>| #[trigger]
            call_ensures(V::as_integer, (&frames.last().vars[to as int],), last) ==> last
                == Ok::<isize, CallError>(bound),
        forall|by: Result<isize, CallError>| #[trigger]
            call_ensures(V::as_integer, (&frames.last().vars[step as int],), by) ==> by is Ok,
    ensures
        status is Running,
        locals_after == locals,
        after == frames.drop_last().push(at(frames.last(), exit)),
{
    let i = InstructionView::IterInt { reg, from, to, step, jmp_ip: exit };
    let (seen, b, next) = choose|seen: Seq<V>, b: FrameView<V>, next: Next<V>| #[trigger]
        effect(
            i,
            functions[frames.last().function as int].max_call_args,
            ready(frames.last(), seen),
            locals,
            this,
            env,
            b,
            locals_after,
            next,
        ) && followed(functions, frames.drop_last(), b, next, after, status) && seen
            == frames.last().vars;
    let a = ready(frames.last(), seen);
    let (first, last, by) = choose|
        first: Result<isize, CallError>,
        last: Result<isize, CallError>,
        by: Result<isize, CallError>,
    |
        call_ensures(V::as_integer, (&a.vars[from as int],), first) && call_ensures(
            V::as_integer,
            (&a.vars[to as int],),
            last,
        ) && call_ensures(V::as_integer, (&a.vars[step as int],), by) && #[trigger] counted(
            a,
            reg,
            first,
            last,
            by,
            exit,
            b,
            next,
        );
    assert(at(a, exit) == at(frames.last(), exit));
}

/// A machine that runs a function of a script: the frames of the calls
/// that have not returned, the innermost last, and the value that `self`
/// stands for.
pub struct Machine<V: VariantType> {
    pub frames: Vec<Frame<V>>,
    pub this: V,
}

/// Hands a returned value to the caller of the frame that returned it.
pub fn hand_back<V: VariantType>(frames: &mut Vec<Frame<V>>, to: Option<u16>, value: V) -> (r:
    Status<V>)
    ensures
        handed(models(old(frames)@), to, value, models(final(frames)@), r),
{
    match frames.pop() {
        None => {
            proof {
                assert(models(frames@) =~= models(old(frames)@));
            }
            Status::Done(value)
        },
        Some(caller) => {
            let mut caller = caller;
            let ghost before = caller.model();
            let done = match to {
                Some(reg) => store(&mut caller.state.vars, reg, value),
                None => Ok(()),
            };
            let ghost changed = caller.model();
            frames.push(caller);
            proof {
                let rest = models(old(frames)@);
                assert(before == rest.last());
                assert(models(frames@) =~= rest.drop_last().push(changed));
                if changed == before {
                    assert(models(frames@) =~= rest);
                }
            }
            match done {
                Ok(_) => Status::Running,
                Err(e) => Status::Failed(e),
            }
        },
    }
}

impl<V: VariantType> Machine<V> {
    /// A machine that is about to run the function at index `function` of
    /// `functions` with the arguments `args`.
    pub fn new<T: Tracer<V>>(
        functions: &Vec<ByteCode>,
        function: u16,
        args: Vec<V>,
        this: V,
        tracer: &mut T,
    ) -> (r: Result<Machine<V>, RunError>)
        ensures
            final(tracer).passive() == old(tracer).passive(),
            match r {
                Ok(m) => function < functions@.len() && refused(
                    programs_view(functions@)[function as int],
                    args@.len(),
                ) is None && m.this == this && m.frames@.len() == 1 && new_frame(
                    programs_view(functions@)[function as int],
                    function as usize,
                    args@,
                    None,
                    m.frames@[0].model(),
                ),
                Err(e) => if function >= functions@.len() {
                    e == RunError::UndefinedFunction
                } else {
                    refused(programs_view(functions@)[function as int], args@.len()) == Some(e)
                },
            },
    {
        if function as usize >= functions.len() {
            return Err(RunError::UndefinedFunction);
        }
        match Frame::new(function as usize, &functions[function as usize], args, None) {
            Err(e) => Err(e),
            Ok(frame) => {
                tracer.begin(function as usize);
                let mut frames: Vec<Frame<V>> = Vec::new();
                frames.push(frame);
                Ok(Machine { frames, this })
            },
        }
    }

    /// Executes one instruction: the machine and the variables of the
    /// script are then what `stepped` says. A machine that is done or has
    /// stopped has no frame left.
    pub fn step<E: Environment<V>, T: Tracer<V>>(
        &mut self,
        functions: &Vec<ByteCode>,
        locals: &mut Vec<V>,
        env: &E,
        tracer: &mut T,
    ) -> (r: Status<V>)
        ensures
            final(self).this == old(self).this,
            final(tracer).passive() == old(tracer).passive(),
            stepped(
                programs_view(functions@),
                env,
                old(self).this,
                old(tracer).passive(),
                models(old(self).frames@),
                old(locals)@,
                models(final(self).frames@),
                final(locals)@,
                r,
            ),
    {
        let ghost before = models(self.frames@);
        let mut frame = match self.frames.pop() {
            Some(frame) => frame,
            None => {
                proof {
                    assert(models(self.frames@).len() == 0);
                }
                return Status::Failed(RunError::IpOutOfBounds);
            },
        };
        proof {
            assert(frame.model() == before.last());
            assert(models(self.frames@) =~= before.drop_last());
        }
        if frame.function >= functions.len() {
            tracer.end(frame.function);
            self.abandon(tracer);
            return Status::Failed(RunError::UndefinedFunction);
        }
        let program = &functions[frame.function];
        if frame.ip >= program.code.len() {
            tracer.end(frame.function);
            self.abandon(tracer);
            return Status::Failed(RunError::IpOutOfBounds);
        }
        proof {
            assert(program@.code[frame.ip as int] == program.code@[frame.ip as int]@);
        }
        tracer.peek(frame.function, frame.ip, &mut frame.state);
        let at = frame.ip;
        frame.ip = at + 1;
        let ghost a = frame.model();
        let ghost seen = frame.state.vars@;
        let next = frame.execute(&program.code[at], program.max_call_args, locals, env, &self.this);
        let ghost b = frame.model();
        let ghost asked = next;
        let ghost rest = before.drop_last();
        proof {
            assert(a == ready(before.last(), seen));
            assert(old(tracer).passive() ==> seen == before.last().vars);
        }
        let status = match next {
            Next::Continue => {
                self.frames.push(frame);
                proof {
                    assert(models(self.frames@) =~= rest.push(b));
                }
                Status::Running
            },
            Next::Fail(e) => {
                tracer.end(frame.function);
                Status::Failed(e)
            },
            Next::Return(value) => {
                tracer.end(frame.function);
                hand_back(&mut self.frames, frame.store_in, value)
            },
            Next::Call(func, args, store_in) => {
                let ghost given = args@;
                self.frames.push(frame);
                proof {
                    assert(models(self.frames@) =~= rest.push(b));
                }
                if func as usize >= functions.len() {
                    Status::Failed(RunError::UndefinedFunction)
                } else {
                    match Frame::new(func as usize, &functions[func as usize], args, store_in) {
                        Err(e) => Status::Failed(e),
                        Ok(callee) => {
                            tracer.begin(func as usize);
                            let ghost made = callee.model();
                            self.frames.push(callee);
                            proof {
                                assert(models(self.frames@) =~= rest.push(b).push(made));
                                assert(new_frame(
                                    programs_view(functions@)[func as int],
                                    func as usize,
                                    given,
                                    store_in,
                                    made,
                                ));
                            }
                            Status::Running
                        },
                    }
                }
            },
        };
        let ghost mid = models(self.frames@);
        proof {
            match asked {
                Next::Continue => {
                    assert(status is Running && mid == rest.push(b));
                },
                Next::Fail(e) => {
                    assert(status == Status::<V>::Failed(e));
                },
                Next::Return(value) => {
                    assert(handed(rest, b.store_in, value, mid, status));
                },
                Next::Call(f, args, to) => {
                    assert(status is Running ==> entered_call(
                        programs_view(functions@),
                        rest.push(b),
                        f,
                        args@,
                        to,
                        mid,
                        status,
                    ));
                    assert(!(status is Running) ==> entered_call(
                        programs_view(functions@),
                        rest.push(b),
                        f,
                        args@,
                        to,
                        Seq::empty(),
                        status,
                    ));
                },
            }
        }
        let status = match status {
            Status::Running => Status::Running,
            other => {
                self.abandon(tracer);
                proof {
                    assert(models(self.frames@) =~= Seq::empty());
                }
                other
            },
        };
        proof {
            let after = models(self.frames@);
            if status is Done {
                assert(after =~= rest);
            }
            assert(followed(programs_view(functions@), rest, b, asked, after, status));
            assert(current(before, programs_view(functions@)) == Some(program@.code[at as int]));
            assert(effect(
                current(before, programs_view(functions@))->0,
                programs_view(functions@)[before.last().function as int].max_call_args,
                ready(before.last(), seen),
                old(locals)@,
                old(self).this,
                env,
                b,
                locals@,
                asked,
            ));
        }
        status
    }

    /// Gives up the calls that have not returned, the innermost first.
    fn abandon<T: Tracer<V>>(&mut self, tracer: &mut T)
        ensures
            final(self).frames@.len() == 0,
            final(self).this == old(self).this,
            final(tracer).passive() == old(tracer).passive(),
    {
        while self.frames.len() > 0
            invariant
                self.this == old(self).this,
                tracer.passive() == old(tracer).passive(),
            decreases self.frames@.len(),
        {
            match self.frames.pop() {
                Some(frame) => tracer.end(frame.function),
                None => {},
            }
        }
    }

    /// Executes instructions until the program is done or has stopped, but
    /// `budget` instructions at most: the machine and the variables of the
    /// script are then what `ran_for` says. Says `Running` where the budget
    /// ran out first.
    pub fn run<E: Environment<V>, T: Tracer<V>>(
        &mut self,
        functions: &Vec<ByteCode>,
        locals: &mut Vec<V>,
        env: &E,
        tracer: &mut T,
        budget: u64,
    ) -> (r: Status<V>)
        ensures
            final(self).this == old(self).this,
            final(tracer).passive() == old(tracer).passive(),
            ran_for(
                programs_view(functions@),
                env,
                old(self).this,
                old(tracer).passive(),
                models(old(self).frames@),
                old(locals)@,
                models(final(self).frames@),
                final(locals)@,
                r,
                budget as nat,
            ),
            final(locals)@.len() == old(locals)@.len(),
            r is Running ==> final(self).frames@.len() > 0,
            !(r is Running) ==> final(self).frames@.len() == 0,
            old(self).frames@.len() == 0 ==> r == Status::<V>::Failed(RunError::IpOutOfBounds),
            budget > 0 && current(models(old(self).frames@), programs_view(functions@)) is None
                ==> r == Status::<V>::Failed(
                lost(models(old(self).frames@), programs_view(functions@)),
            ),
            budget > 0 && old(self).frames@.len() == 1 && current(
                models(old(self).frames@),
                programs_view(functions@),
            ) == Some(InstructionView::RetNone) ==> r is Done,
            budget == 0 ==> final(self).frames@ == old(self).frames@ && final(locals)@ == old(
                locals,
            )@,
    {
        if budget == 0 {
            return if self.frames.len() == 0 {
                Status::Failed(RunError::IpOutOfBounds)
            } else {
                Status::Running
            };
        }
        let ghost this = self.this;
        let ghost passive = tracer.passive();
        let ghost start = models(self.frames@);
        let ghost locals_start = locals@;
        let mut left = budget - 1;
        let mut status = self.step(functions, locals, env, tracer);
        let ghost mut n: nat = 1;
        proof {
            lemma_step_settled(
                programs_view(functions@),
                env,
                this,
                passive,
                start,
                locals_start,
                models(self.frames@),
                locals@,
                status,
            );
        }
        while left > 0 && matches!(status, Status::Running)
            invariant
                self.this == this,
                tracer.passive() == passive,
                n >= 1,
                n + left == budget,
                ran(
                    programs_view(functions@),
                    env,
                    this,
                    passive,
                    start,
                    locals_start,
                    models(self.frames@),
                    locals@,
                    status,
                    n,
                ),
                locals@.len() == locals_start.len(),
                status is Running ==> self.frames@.len() > 0,
                !(status is Running) ==> self.frames@.len() == 0,
                current(start, programs_view(functions@)) is None ==> status == Status::<V>::Failed(
                    lost(start, programs_view(functions@)),
                ),
                start.len() == 1 && current(start, programs_view(functions@)) == Some(InstructionView::RetNone)
                    ==> status is Done,
            decreases left,
        {
            let ghost between = models(self.frames@);
            let ghost locals_between = locals@;
            left -= 1;
            let onward = self.step(functions, locals, env, tracer);
            proof {
                lemma_step_settled(
                    programs_view(functions@),
                    env,
                    this,
                    passive,
                    between,
                    locals_between,
                    models(self.frames@),
                    locals@,
                    onward,
                );
                lemma_ran_on(
                    programs_view(functions@),
                    env,
                    this,
                    passive,
                    start,
                    locals_start,
                    between,
                    locals_between,
                    models(self.frames@),
                    locals@,
                    onward,
                    n,
                );
                n = n + 1;
            }
            status = onward;
        }
        status
    }
}

} // verus!
