//! The bytecode virtual machine.
//!
//! The model is a small-step machine over `SpecValue`s: `step` runs one
//! instruction, `run` repeats it. The machine is given a budget of steps
//! (`fuel`); calling a closure from a builtin (`map`, `apply`) runs a nested
//! machine on the budget that is left. The executable machine follows the
//! model exactly.
use vstd::prelude::*;

use crate::ir::builtins::{
    Builtin, builtin_name, builtin_named, construct, construct_exec, resolve_builtin,
    value_outcome,
};
use crate::ir::bytecode::{
    Constant, ConstantId, Function, FunctionId, Instruction, Opcode, Program, SpecConstant,
    SpecFunction, SpecProgram, constants_view, functions_view,
};
use crate::ir::document::{Document, SpecNode, node_span};
use crate::ir::lexer::Span;
use crate::ir::runtime::{
    decode_children, CallableValue, ClosureValue, DecodeError, NodeValue, SpecCallable, SpecValue, Value,
    MetadataValue, callable_view, clone_callable, clone_value, clone_values, lemma_values_view,
    lemma_values_view_push, lemma_values_view_take, lemma_values_view_update, value_kind_name,
    value_span, value_view, values_view,
};

verus! {

#[derive(Debug, PartialEq, Eq)]
pub enum VmError {
    StackUnderflow { opcode: &'static str, span: Span },
    InvalidConstantIndex { index: ConstantId, span: Span },
    InvalidFunctionIndex { index: FunctionId, span: Span },
    InvalidLocalSlot { slot: u16, span: Span },
    InvalidCaptureSlot { slot: u16, span: Span },
    TypeMismatch {
        opcode: &'static str,
        expected: &'static str,
        found: &'static str,
        span: Span,
    },
    InvalidJumpTarget { target: usize, span: Span },
    MissingReturnValue { function: FunctionId, span: Span },
    NonDocumentEntryResult { found: &'static str, span: Option<Span> },
    InvalidRuntimeShape { detail: &'static str, span: Span },
    UnknownBuiltin { name: String, span: Span },
    NonCallableValue { found: &'static str, builtin: Option<&'static str>, span: Option<Span> },
    ClosureArityMismatch { function: FunctionId, expected: u16, actual: u16, span: Span },
    ClosureCaptureMismatch { function: FunctionId, expected: u16, actual: u16, span: Span },
    TooManyLocals { function: FunctionId, locals: u16, actual: u16 },
    BuiltinArityMismatch {
        builtin: &'static str,
        expected: &'static str,
        actual: usize,
        span: Span,
    },
    BuiltinTypeMismatch {
        builtin: &'static str,
        expected: &'static str,
        found: &'static str,
        span: Span,
    },
    /// The machine ran out of its budget of steps.
    StepLimitExceeded,
}

/// The model of a VM error: the name of an unknown builtin is its
/// characters.
pub enum SpecVmError {
    StackUnderflow { opcode: &'static str, span: Span },
    InvalidConstantIndex { index: ConstantId, span: Span },
    InvalidFunctionIndex { index: FunctionId, span: Span },
    InvalidLocalSlot { slot: u16, span: Span },
    InvalidCaptureSlot { slot: u16, span: Span },
    TypeMismatch {
        opcode: &'static str,
        expected: &'static str,
        found: &'static str,
        span: Span,
    },
    InvalidJumpTarget { target: usize, span: Span },
    MissingReturnValue { function: FunctionId, span: Span },
    NonDocumentEntryResult { found: &'static str, span: Option<Span> },
    InvalidRuntimeShape { detail: &'static str, span: Span },
    UnknownBuiltin { name: Seq<char>, span: Span },
    NonCallableValue { found: &'static str, builtin: Option<&'static str>, span: Option<Span> },
    ClosureArityMismatch { function: FunctionId, expected: u16, actual: u16, span: Span },
    ClosureCaptureMismatch { function: FunctionId, expected: u16, actual: u16, span: Span },
    TooManyLocals { function: FunctionId, locals: u16, actual: u16 },
    BuiltinArityMismatch {
        builtin: &'static str,
        expected: &'static str,
        actual: usize,
        span: Span,
    },
    BuiltinTypeMismatch {
        builtin: &'static str,
        expected: &'static str,
        found: &'static str,
        span: Span,
    },
    StepLimitExceeded,
}

impl View for VmError {
    type V = SpecVmError;

    open spec fn view(&self) -> SpecVmError {
        match *self {
            VmError::StackUnderflow { opcode, span } => SpecVmError::StackUnderflow { opcode, span },
            VmError::InvalidConstantIndex { index, span } => SpecVmError::InvalidConstantIndex {
                index,
                span,
            },
            VmError::InvalidFunctionIndex { index, span } => SpecVmError::InvalidFunctionIndex {
                index,
                span,
            },
            VmError::InvalidLocalSlot { slot, span } => SpecVmError::InvalidLocalSlot { slot, span },
            VmError::InvalidCaptureSlot { slot, span } => SpecVmError::InvalidCaptureSlot {
                slot,
                span,
            },
            VmError::TypeMismatch { opcode, expected, found, span } => SpecVmError::TypeMismatch {
                opcode,
                expected,
                found,
                span,
            },
            VmError::InvalidJumpTarget { target, span } => SpecVmError::InvalidJumpTarget {
                target,
                span,
            },
            VmError::MissingReturnValue { function, span } => SpecVmError::MissingReturnValue {
                function,
                span,
            },
            VmError::NonDocumentEntryResult { found, span } => SpecVmError::NonDocumentEntryResult {
                found,
                span,
            },
            VmError::InvalidRuntimeShape { detail, span } => SpecVmError::InvalidRuntimeShape {
                detail,
                span,
            },
            VmError::UnknownBuiltin { name, span } => SpecVmError::UnknownBuiltin {
                name: name@,
                span,
            },
            VmError::NonCallableValue { found, builtin, span } => SpecVmError::NonCallableValue {
                found,
                builtin,
                span,
            },
            VmError::ClosureArityMismatch {
                function,
                expected,
                actual,
                span,
            } => SpecVmError::ClosureArityMismatch { function, expected, actual, span },
            VmError::ClosureCaptureMismatch {
                function,
                expected,
                actual,
                span,
            } => SpecVmError::ClosureCaptureMismatch { function, expected, actual, span },
            VmError::TooManyLocals { function, locals, actual } => SpecVmError::TooManyLocals {
                function,
                locals,
                actual,
            },
            VmError::BuiltinArityMismatch {
                builtin,
                expected,
                actual,
                span,
            } => SpecVmError::BuiltinArityMismatch { builtin, expected, actual, span },
            VmError::BuiltinTypeMismatch {
                builtin,
                expected,
                found,
                span,
            } => SpecVmError::BuiltinTypeMismatch { builtin, expected, found, span },
            VmError::StepLimitExceeded => SpecVmError::StepLimitExceeded,
        }
    }
}


/// The model of a call frame.
pub struct SpecFrame {
    pub function: FunctionId,
    pub ip: int,
    pub locals: Seq<SpecValue>,
    pub captures: Seq<SpecValue>,
}

/// The model of the machine: the value stack and the call frames.
pub struct SpecMachine {
    pub stack: Seq<SpecValue>,
    pub frames: Seq<SpecFrame>,
}

/// The outcome of one step.
pub enum Step {
    Next(SpecMachine),
    Done(SpecValue),
    Fail(SpecVmError),
}

/// The value of a constant.
pub open spec fn constant_value(c: SpecConstant) -> SpecValue {
    match c {
        SpecConstant::String(t) => SpecValue::String(t),
        SpecConstant::Bool(b) => SpecValue::Bool(b),
    }
}

/// A new frame for `function` with `locals` slots, the first holding
/// `args` and the others unit.
pub open spec fn new_frame(function: FunctionId, locals: u16, captures: Seq<SpecValue>, args: Seq<SpecValue>) -> Result<SpecFrame, SpecVmError> {
    if args.len() > locals {
        Err(
            SpecVmError::TooManyLocals {
                function,
                locals,
                actual: if args.len() > 65535 { 65535u16 } else { args.len() as u16 },
            },
        )
    } else {
        Ok(
            SpecFrame {
                function,
                ip: 0,
                locals: Seq::new(
                    locals as nat,
                    |i: int| if i < args.len() { args[i] } else { SpecValue::Unit },
                ),
                captures,
            },
        )
    }
}

/// The machine with `frame` in place of its last frame.
pub open spec fn with_frame(m: SpecMachine, frame: SpecFrame) -> SpecMachine {
    SpecMachine { frames: m.frames.update(m.frames.len() - 1, frame), ..m }
}

/// The machine with `v` pushed.
pub open spec fn pushed(m: SpecMachine, v: SpecValue) -> SpecMachine {
    SpecMachine { stack: m.stack.push(v), ..m }
}

/// The machine with its last frame's instruction pointer at `target`.
pub open spec fn jumped(p: SpecProgram, m: SpecMachine, target: usize, span: Span) -> Step {
    let frame = m.frames.last();
    let f = p.functions[frame.function.0 as int];
    if target >= f.instructions.len() {
        Step::Fail(SpecVmError::InvalidJumpTarget { target, span })
    } else {
        Step::Next(with_frame(m, SpecFrame { ip: target as int, ..frame }))
    }
}

pub open spec fn underflow(opcode: &'static str, span: Span) -> Step {
    Step::Fail(SpecVmError::StackUnderflow { opcode, span })
}

/// Runs the instruction `ins` on `m`, whose instruction pointer has
/// already moved past it; `fuel` is the budget left for nested machines.
pub open spec fn exec_op(p: SpecProgram, m: SpecMachine, ins: Instruction, fuel: nat) -> Step
    decreases fuel, 3nat, 1nat,
{
    let span = ins.span;
    let frame = m.frames.last();
    match ins.opcode {
        Opcode::PushConst { id } => if (id.0 as int) < p.constants.len() {
            Step::Next(pushed(m, constant_value(p.constants[id.0 as int])))
        } else {
            Step::Fail(SpecVmError::InvalidConstantIndex { index: id, span })
        },
        Opcode::LoadBuiltin { name } => if (name.0 as int) < p.constants.len() {
            match p.constants[name.0 as int] {
                SpecConstant::String(t) => match builtin_named(t) {
                    Some(b) => Step::Next(pushed(m, SpecValue::Callable(SpecCallable::Builtin(b)))),
                    None => Step::Fail(SpecVmError::UnknownBuiltin { name: t, span }),
                },
                SpecConstant::Bool(_) => Step::Fail(
                    SpecVmError::TypeMismatch {
                        opcode: "LoadBuiltin",
                        expected: "string",
                        found: "bool",
                        span,
                    },
                ),
            }
        } else {
            Step::Fail(SpecVmError::InvalidConstantIndex { index: name, span })
        },
        Opcode::LoadLocal { slot } => if (slot as int) < frame.locals.len() {
            Step::Next(pushed(m, frame.locals[slot as int]))
        } else {
            Step::Fail(SpecVmError::InvalidLocalSlot { slot, span })
        },
        Opcode::LoadCapture { slot } => if (slot as int) < frame.captures.len() {
            Step::Next(pushed(m, frame.captures[slot as int]))
        } else {
            Step::Fail(SpecVmError::InvalidCaptureSlot { slot, span })
        },
        Opcode::StoreLocal { slot } => if m.stack.len() == 0 {
            underflow("StoreLocal", span)
        } else if (slot as int) < frame.locals.len() {
            Step::Next(
                with_frame(
                    SpecMachine { stack: m.stack.drop_last(), ..m },
                    SpecFrame { locals: frame.locals.update(slot as int, m.stack.last()), ..frame },
                ),
            )
        } else {
            Step::Fail(SpecVmError::InvalidLocalSlot { slot, span })
        },
        Opcode::MakeClosure { function, captures } => if (function.0 as int) >= p.functions.len() {
            Step::Fail(SpecVmError::InvalidFunctionIndex { index: function, span })
        } else if p.functions[function.0 as int].captures != captures {
            Step::Fail(
                SpecVmError::ClosureCaptureMismatch {
                    function,
                    expected: p.functions[function.0 as int].captures,
                    actual: captures,
                    span,
                },
            )
        } else if m.stack.len() < captures {
            underflow("MakeClosure", span)
        } else {
            let k = m.stack.len() - captures;
            Step::Next(
                SpecMachine {
                    stack: m.stack.take(k).push(
                        SpecValue::Callable(
                            SpecCallable::Closure { function, captures: m.stack.skip(k) },
                        ),
                    ),
                    ..m
                },
            )
        },
        Opcode::Call { argc } => if m.stack.len() < argc + 1 {
            underflow("Call", span)
        } else {
            let k = m.stack.len() - argc;
            let args = m.stack.skip(k);
            let callee = m.stack[k - 1];
            let rest = m.stack.take(k - 1);
            match callee {
                SpecValue::Callable(SpecCallable::Builtin(b)) => match call_builtin(p, b, args, span, fuel) {
                    Ok(v) => Step::Next(SpecMachine { stack: rest.push(v), ..m }),
                    Err(e) => Step::Fail(e),
                },
                SpecValue::Callable(SpecCallable::Closure { function, captures }) => if (function.0 as int) >= p.functions.len() {
                    Step::Fail(SpecVmError::InvalidFunctionIndex { index: function, span })
                } else if p.functions[function.0 as int].arity != argc {
                    Step::Fail(
                        SpecVmError::ClosureArityMismatch {
                            function,
                            expected: p.functions[function.0 as int].arity,
                            actual: argc,
                            span,
                        },
                    )
                } else {
                    match new_frame(function, p.functions[function.0 as int].locals, captures, args) {
                        Ok(fr) => Step::Next(SpecMachine { stack: rest, frames: m.frames.push(fr) }),
                        Err(e) => Step::Fail(e),
                    }
                },
                other => Step::Fail(
                    SpecVmError::NonCallableValue {
                        found: value_kind_name(other),
                        builtin: None,
                        span: if value_span(other) is Some { value_span(other) } else { Some(span) },
                    },
                ),
            }
        },
        Opcode::Return => if m.stack.len() == 0 {
            underflow("Return", span)
        } else if m.frames.len() == 1 {
            Step::Done(m.stack.last())
        } else {
            Step::Next(SpecMachine { stack: m.stack, frames: m.frames.drop_last() })
        },
        Opcode::Jump { target } => jumped(p, m, target, span),
        Opcode::JumpIfFalse { target } => if m.stack.len() == 0 {
            underflow("JumpIfFalse", span)
        } else {
            let m2 = SpecMachine { stack: m.stack.drop_last(), ..m };
            match m.stack.last() {
                SpecValue::Bool(false) => jumped(p, m2, target, span),
                SpecValue::Bool(true) => Step::Next(m2),
                other => Step::Fail(
                    SpecVmError::TypeMismatch {
                        opcode: "JumpIfFalse",
                        expected: "bool",
                        found: value_kind_name(other),
                        span,
                    },
                ),
            }
        },
        Opcode::Pop => if m.stack.len() == 0 {
            underflow("Pop", span)
        } else {
            Step::Next(SpecMachine { stack: m.stack.drop_last(), ..m })
        },
    }
}

/// One step of the machine: fetch the next instruction of the current
/// frame and run it.
pub open spec fn step(p: SpecProgram, m: SpecMachine, fuel: nat) -> Step
    decreases fuel, 3nat, 2nat,
{
    if m.frames.len() == 0 {
        Step::Fail(SpecVmError::StepLimitExceeded)
    } else {
        let frame = m.frames.last();
        let fid = frame.function;
        if (fid.0 as int) >= p.functions.len() {
            Step::Fail(SpecVmError::InvalidFunctionIndex { index: fid, span: p.metadata_span })
        } else {
            let f = p.functions[fid.0 as int];
            if frame.ip < 0 || frame.ip >= f.instructions.len() {
                Step::Fail(
                    SpecVmError::MissingReturnValue {
                        function: fid,
                        span: if f.instructions.len() > 0 {
                            f.instructions.last().span
                        } else {
                            p.metadata_span
                        },
                    },
                )
            } else {
                exec_op(
                    p,
                    with_frame(m, SpecFrame { ip: frame.ip + 1, ..frame }),
                    f.instructions[frame.ip],
                    fuel,
                )
            }
        }
    }
}

/// The value the machine returns within `fuel` steps.
pub open spec fn run(p: SpecProgram, m: SpecMachine, fuel: nat) -> Result<SpecValue, SpecVmError>
    decreases fuel, 4nat, 0nat,
{
    if fuel == 0 {
        Err(SpecVmError::StepLimitExceeded)
    } else {
        match step(p, m, (fuel - 1) as nat) {
            Step::Next(m2) => run(p, m2, (fuel - 1) as nat),
            Step::Done(v) => Ok(v),
            Step::Fail(e) => Err(e),
        }
    }
}

/// The arguments `args` to a builtin named `name` that takes two.
pub open spec fn two_args(name: &'static str, args: Seq<SpecValue>, span: Span) -> Option<SpecVmError> {
    if args.len() != 2 {
        Some(
            SpecVmError::BuiltinArityMismatch {
                builtin: name,
                expected: "2",
                actual: args.len() as usize,
                span,
            },
        )
    } else {
        None
    }
}

/// The callable argument of `map` or `apply`.
pub open spec fn want_callable(name: &'static str, v: SpecValue, span: Span) -> Result<SpecCallable, SpecVmError> {
    match v {
        SpecValue::Callable(c) => Ok(c),
        other => Err(
            SpecVmError::NonCallableValue {
                found: value_kind_name(other),
                builtin: Some(name),
                span: if value_span(other) is Some { value_span(other) } else { Some(span) },
            },
        ),
    }
}

/// The list argument of `map` or `apply`.
pub open spec fn want_list(name: &'static str, v: SpecValue, span: Span) -> Result<Seq<SpecValue>, SpecVmError> {
    match v {
        SpecValue::List(vs) => Ok(vs),
        other => Err(
            SpecVmError::BuiltinTypeMismatch {
                builtin: name,
                expected: "list",
                found: value_kind_name(other),
                span,
            },
        ),
    }
}

/// Calls a builtin: `map` and `apply` call their callable argument, the
/// others build values.
pub open spec fn call_builtin(p: SpecProgram, b: Builtin, args: Seq<SpecValue>, span: Span, fuel: nat) -> Result<SpecValue, SpecVmError>
    decreases fuel, 2nat, 0nat,
{
    match b {
        Builtin::MapEach => match two_args("map", args, span) {
            Some(e) => Err(e),
            None => match want_callable("map", args[0], span) {
                Err(e) => Err(e),
                Ok(c) => match want_list("map", args[1], span) {
                    Err(e) => Err(e),
                    Ok(items) => map_items(p, c, items, span, fuel, 0, Seq::empty()),
                },
            },
        },
        Builtin::Apply => match two_args("apply", args, span) {
            Some(e) => Err(e),
            None => match want_callable("apply", args[0], span) {
                Err(e) => Err(e),
                Ok(c) => match want_list("apply", args[1], span) {
                    Err(e) => Err(e),
                    Ok(values) => call_callable(p, c, values, span, fuel),
                },
            },
        },
        _ => construct(b, args, span, p.version, p.metadata_span),
    }
}

/// `map`: the results of calling `c` on each item from `i` on, after `acc`.
pub open spec fn map_items(p: SpecProgram, c: SpecCallable, items: Seq<SpecValue>, span: Span, fuel: nat, i: int, acc: Seq<SpecValue>) -> Result<SpecValue, SpecVmError>
    decreases fuel, 1nat, items.len() - i,
{
    if i < 0 || i >= items.len() {
        Ok(SpecValue::List(acc))
    } else {
        match call_callable(p, c, seq![items[i]], span, fuel) {
            Err(e) => Err(e),
            Ok(v) => map_items(p, c, items, span, fuel, i + 1, acc.push(v)),
        }
    }
}

/// Calls a callable value; each call spends one unit of the budget.
pub open spec fn call_callable(p: SpecProgram, c: SpecCallable, args: Seq<SpecValue>, span: Span, fuel: nat) -> Result<SpecValue, SpecVmError>
    decreases fuel, 0nat, 0nat,
{
    if fuel == 0 {
        Err(SpecVmError::StepLimitExceeded)
    } else {
        match c {
            SpecCallable::Builtin(b) => call_builtin(p, b, args, span, (fuel - 1) as nat),
            SpecCallable::Closure { function, captures } => run_closure(
                p,
                function,
                captures,
                args,
                span,
                (fuel - 1) as nat,
            ),
        }
    }
}

/// Runs a closure to completion on a machine of its own.
pub open spec fn run_closure(p: SpecProgram, function: FunctionId, captures: Seq<SpecValue>, args: Seq<SpecValue>, span: Span, fuel: nat) -> Result<SpecValue, SpecVmError>
    decreases fuel, 5nat, 0nat,
{
    if (function.0 as int) >= p.functions.len() {
        Err(SpecVmError::InvalidFunctionIndex { index: function, span })
    } else if p.functions[function.0 as int].arity != args.len() {
        Err(
            SpecVmError::ClosureArityMismatch {
                function,
                expected: p.functions[function.0 as int].arity,
                actual: if args.len() > 65535 { 65535u16 } else { args.len() as u16 },
                span,
            },
        )
    } else {
        match new_frame(function, p.functions[function.0 as int].locals, captures, args) {
            Err(e) => Err(e),
            Ok(fr) => run(p, SpecMachine { stack: Seq::empty(), frames: seq![fr] }, fuel),
        }
    }
}

/// The machine at the start of a program: the entry function's frame, with
/// no locals, and an empty stack.
pub open spec fn initial_machine(p: SpecProgram) -> SpecMachine {
    SpecMachine {
        stack: Seq::empty(),
        frames: seq![SpecFrame { function: p.entry, ip: 0, locals: Seq::empty(), captures: Seq::empty() }],
    }
}

/// The budget of steps the public entry points give the machine.
pub open spec fn step_budget() -> nat {
    u64::MAX as nat
}

/// What running a program gives.
pub open spec fn execute_spec(p: SpecProgram) -> Result<SpecValue, SpecVmError> {
    run(p, initial_machine(p), step_budget())
}


#[derive(Debug, PartialEq, Eq)]
pub struct CallFrame {
    pub function: FunctionId,
    pub ip: usize,
    pub locals: Vec<Value>,
    pub captures: Vec<Value>,
}

pub open spec fn frame_view(f: CallFrame) -> SpecFrame {
    SpecFrame {
        function: f.function,
        ip: f.ip as int,
        locals: values_view(f.locals@),
        captures: values_view(f.captures@),
    }
}

pub open spec fn frames_view(fs: Seq<CallFrame>) -> Seq<SpecFrame> {
    fs.map_values(|f: CallFrame| frame_view(f))
}

pub open spec fn frame_outcome(r: Result<CallFrame, VmError>) -> Result<SpecFrame, SpecVmError> {
    match r {
        Ok(f) => Ok(frame_view(f)),
        Err(e) => Err(e@),
    }
}

/// A list of `n` unit values.
fn units(n: u16) -> (r: Vec<Value>)
    ensures
        values_view(r@) == Seq::new(n as nat, |i: int| SpecValue::Unit),
{
    let mut out: Vec<Value> = Vec::new();
    let mut i: u16 = 0;
    while i < n
        invariant
            0 <= i <= n,
            values_view(out@) == Seq::new(i as nat, |k: int| SpecValue::Unit),
        decreases n - i,
    {
        proof {
            lemma_values_view_push(out@, Value::Unit);
        }
        out.push(Value::Unit);
        i += 1;
        assert(values_view(out@) =~= Seq::new(i as nat, |k: int| SpecValue::Unit));
    }
    out
}

impl CallFrame {
    /// A frame for `function` with `locals` unit slots.
    fn new(function: FunctionId, locals: u16) -> (r: Self)
        ensures
            frame_view(r) == (SpecFrame {
                function,
                ip: 0,
                locals: Seq::new(locals as nat, |i: int| SpecValue::Unit),
                captures: Seq::empty(),
            }),
    {
        let captures: Vec<Value> = Vec::new();
        assert(values_view(captures@) =~= Seq::<SpecValue>::empty());
        CallFrame { function, ip: 0, locals: units(locals), captures }
    }

    /// A frame for `function` whose first slots hold `args`.
    fn with_locals(function: FunctionId, locals: u16, captures: Vec<Value>, args: Vec<Value>) -> (r: Result<Self, VmError>)
        ensures
            frame_outcome(r) == new_frame(function, locals, values_view(captures@), values_view(args@)),
    {
        proof {
            lemma_values_view(args@);
        }
        let n = args.len();
        if n > locals as usize {
            let actual: u16 = if n > 65535 { 65535 } else { n as u16 };
            return Err(VmError::TooManyLocals { function, locals, actual });
        }
        let mut slots = args;
        let mut i: usize = n;
        let ghost av = values_view(slots@);
        while i < locals as usize
            invariant
                n <= i <= locals,
                n == av.len(),
                values_view(slots@) == Seq::new(
                    i as nat,
                    |k: int| if k < av.len() { av[k] } else { SpecValue::Unit },
                ),
            decreases locals - i,
        {
            proof {
                lemma_values_view_push(slots@, Value::Unit);
            }
            slots.push(Value::Unit);
            i += 1;
            assert(values_view(slots@) =~= Seq::new(
                i as nat,
                |k: int| if k < av.len() { av[k] } else { SpecValue::Unit },
            ));
        }
        proof {
            if n == locals as usize {
                assert(values_view(slots@) =~= Seq::new(
                    locals as nat,
                    |k: int| if k < av.len() { av[k] } else { SpecValue::Unit },
                ));
            }
        }
        Ok(CallFrame { function, ip: 0, locals: slots, captures })
    }
}

/// The outcome of one step of the executable machine.
enum StepResult {
    Next,
    Done(Value),
    Fail(VmError),
}

spec fn step_result_view(r: StepResult, m: SpecMachine) -> Step {
    match r {
        StepResult::Next => Step::Next(m),
        StepResult::Done(v) => Step::Done(value_view(v)),
        StepResult::Fail(e) => Step::Fail(e@),
    }
}

/// Executes the bytecode of a program.
pub struct Vm<'a> {
    program: &'a Program,
    stack: Vec<Value>,
    frames: Vec<CallFrame>,
}

impl<'a> Vm<'a> {
    /// The program the machine runs.
    pub closed spec fn code(&self) -> SpecProgram {
        self.program@
    }

    /// The state of the machine.
    pub closed spec fn machine(&self) -> SpecMachine {
        SpecMachine { stack: values_view(self.stack@), frames: frames_view(self.frames@) }
    }

    pub fn new(program: &'a Program) -> (r: Self)
        ensures
            r.code() == program@,
            r.machine() == initial_machine(program@),
    {
        let stack: Vec<Value> = Vec::new();
        let mut frames: Vec<CallFrame> = Vec::new();
        frames.push(CallFrame::new(program.entry, 0));
        let r = Vm { program, stack, frames };
        assert(r.machine().stack =~= Seq::<SpecValue>::empty());
        assert(Seq::new(0, |i: int| SpecValue::Unit) =~= Seq::<SpecValue>::empty());
        assert(r.machine().frames =~= initial_machine(program@).frames);
        r
    }

    /// Runs the program to its result.
    pub fn execute(self) -> (r: Result<Value, VmError>)
        ensures
            value_outcome(r) == run(self.code(), self.machine(), step_budget()),
    {
        let mut this = self;
        this.run_for(u64::MAX)
    }
}


impl<'a> Vm<'a> {
    /// Runs the machine for at most `fuel` steps.
    fn run_for(&mut self, fuel: u64) -> (r: Result<Value, VmError>)
        ensures
            value_outcome(r) == run(old(self).code(), old(self).machine(), fuel as nat),
        decreases fuel, 4nat, 0nat,
    {
        let ghost p = self.code();
        let ghost m0 = self.machine();
        let mut left = fuel;
        loop
            invariant
                left <= fuel,
                p == old(self).code(),
                m0 == old(self).machine(),
                self.code() == p,
                run(p, m0, fuel as nat) == run(p, self.machine(), left as nat),
            decreases left,
        {
            if left == 0 {
                return Err(VmError::StepLimitExceeded);
            }
            match self.step_exec(left - 1) {
                StepResult::Next => {},
                StepResult::Done(v) => {
                    return Ok(v);
                },
                StepResult::Fail(e) => {
                    return Err(e);
                },
            }
            left -= 1;
        }
    }

    /// One step: fetch the next instruction of the current frame and run it.
    fn step_exec(&mut self, fuel: u64) -> (r: StepResult)
        ensures
            final(self).code() == old(self).code(),
            step_result_view(r, final(self).machine()) == step(
                old(self).code(),
                old(self).machine(),
                fuel as nat,
            ),
        decreases fuel, 3nat, 2nat,
    {
        let program = self.program;
        let n = self.frames.len();
        if n == 0 {
            return StepResult::Fail(VmError::StepLimitExceeded);
        }
        let fid = self.frames[n - 1].function;
        let fidx = fid.0 as usize;
        if fidx >= program.functions.len() {
            return StepResult::Fail(
                VmError::InvalidFunctionIndex { index: fid, span: program.metadata_span },
            );
        }
        let f = &program.functions[fidx];
        let ip = self.frames[n - 1].ip;
        let len = f.instructions.len();
        if ip >= len {
            let span = if len > 0 {
                f.instructions[len - 1].span
            } else {
                program.metadata_span
            };
            return StepResult::Fail(VmError::MissingReturnValue { function: fid, span });
        }
        let ins = f.instructions[ip];
        let ghost m = self.machine();
        let mut frame = match self.frames.pop() {
            Some(fr) => fr,
            None => {
                return StepResult::Fail(VmError::StepLimitExceeded);
            },
        };
        frame.ip = ip + 1;
        self.frames.push(frame);
        proof {
            assert(frames_view(self.frames@) =~= m.frames.update(
                n - 1,
                SpecFrame { ip: m.frames.last().ip + 1, ..m.frames.last() },
            ));
        }
        self.exec_op_exec(ins, fuel)
    }

    /// Runs one instruction.
    fn exec_op_exec(&mut self, ins: Instruction, fuel: u64) -> (r: StepResult)
        requires
            old(self).frames@.len() > 0,
            (old(self).frames@.last().function.0 as int) < old(self).code().functions.len(),
        ensures
            final(self).code() == old(self).code(),
            step_result_view(r, final(self).machine()) == exec_op(
                old(self).code(),
                old(self).machine(),
                ins,
                fuel as nat,
            ),
        decreases fuel, 3nat, 1nat,
    {
        let span = ins.span;
        match ins.opcode {
            Opcode::PushConst { id } => self.op_push_const(id, span, fuel),
            Opcode::LoadBuiltin { name } => self.op_load_builtin(name, span, fuel),
            Opcode::LoadLocal { slot } => self.op_load_slot(slot, false, span, fuel),
            Opcode::LoadCapture { slot } => self.op_load_slot(slot, true, span, fuel),
            Opcode::StoreLocal { slot } => self.op_store_local(slot, span, fuel),
            Opcode::MakeClosure { function, captures } => self.op_make_closure(function, captures, span, fuel),
            Opcode::Call { argc } => self.op_call(argc, span, fuel),
            Opcode::Return => self.op_return(span, fuel),
            Opcode::Jump { target } => self.op_jump(target, span, fuel),
            Opcode::JumpIfFalse { target } => self.op_jump_if_false(target, span, fuel),
            Opcode::Pop => self.op_pop(span, fuel),
        }
    }

    fn op_pop(&mut self, span: Span, fuel: u64) -> (r: StepResult)
        requires
            old(self).frames@.len() > 0,
        ensures
            final(self).code() == old(self).code(),
            step_result_view(r, final(self).machine()) == exec_op(
                old(self).code(),
                old(self).machine(),
                Instruction { opcode: Opcode::Pop, span },
                fuel as nat,
            ),
    {
        proof {
            lemma_values_view(self.stack@);
        }
        match self.stack.pop() {
            Some(_) => {
                proof {
                    lemma_values_view_take(old(self).stack@, old(self).stack@.len() - 1);
                }
                StepResult::Next
            },
            None => StepResult::Fail(VmError::StackUnderflow { opcode: "Pop", span }),
        }
    }

    fn op_push_const(&mut self, id: ConstantId, span: Span, fuel: u64) -> (r: StepResult)
        requires
            old(self).frames@.len() > 0,
        ensures
            final(self).code() == old(self).code(),
            step_result_view(r, final(self).machine()) == exec_op(
                old(self).code(),
                old(self).machine(),
                Instruction { opcode: Opcode::PushConst { id }, span },
                fuel as nat,
            ),
    {
        let program = self.program;
        let i = id.0 as usize;
        if i >= program.constants.len() {
            return StepResult::Fail(VmError::InvalidConstantIndex { index: id, span });
        }
        let v = match &program.constants[i] {
            Constant::String(t) => Value::String(t.clone()),
            Constant::Bool(b) => Value::Bool(*b),
        };
        proof {
            lemma_values_view_push(self.stack@, v);
        }
        self.stack.push(v);
        StepResult::Next
    }

    fn op_load_builtin(&mut self, name: ConstantId, span: Span, fuel: u64) -> (r: StepResult)
        requires
            old(self).frames@.len() > 0,
        ensures
            final(self).code() == old(self).code(),
            step_result_view(r, final(self).machine()) == exec_op(
                old(self).code(),
                old(self).machine(),
                Instruction { opcode: Opcode::LoadBuiltin { name }, span },
                fuel as nat,
            ),
    {
        let program = self.program;
        let i = name.0 as usize;
        if i >= program.constants.len() {
            return StepResult::Fail(VmError::InvalidConstantIndex { index: name, span });
        }
        match &program.constants[i] {
            Constant::String(t) => match resolve_builtin(t.as_str()) {
                Some(b) => {
                    let v = Value::Callable(CallableValue::Builtin(b));
                    proof {
                        lemma_values_view_push(self.stack@, v);
                    }
                    self.stack.push(v);
                    StepResult::Next
                },
                None => StepResult::Fail(VmError::UnknownBuiltin { name: t.clone(), span }),
            },
            Constant::Bool(_) => StepResult::Fail(
                VmError::TypeMismatch {
                    opcode: "LoadBuiltin",
                    expected: "string",
                    found: "bool",
                    span,
                },
            ),
        }
    }

    /// Loads a local (`capture` false) or a captured value.
    fn op_load_slot(&mut self, slot: u16, capture: bool, span: Span, fuel: u64) -> (r: StepResult)
        requires
            old(self).frames@.len() > 0,
        ensures
            final(self).code() == old(self).code(),
            step_result_view(r, final(self).machine()) == exec_op(
                old(self).code(),
                old(self).machine(),
                Instruction {
                    opcode: if capture {
                        Opcode::LoadCapture { slot }
                    } else {
                        Opcode::LoadLocal { slot }
                    },
                    span,
                },
                fuel as nat,
            ),
    {
        let n = self.frames.len();
        let i = slot as usize;
        let v = {
            let frame = &self.frames[n - 1];
            let slots = if capture {
                &frame.captures
            } else {
                &frame.locals
            };
            proof {
                lemma_values_view(slots@);
            }
            if i >= slots.len() {
                return if capture {
                    StepResult::Fail(VmError::InvalidCaptureSlot { slot, span })
                } else {
                    StepResult::Fail(VmError::InvalidLocalSlot { slot, span })
                };
            }
            clone_value(&slots[i])
        };
        proof {
            lemma_values_view_push(self.stack@, v);
        }
        self.stack.push(v);
        StepResult::Next
    }

    fn op_store_local(&mut self, slot: u16, span: Span, fuel: u64) -> (r: StepResult)
        requires
            old(self).frames@.len() > 0,
        ensures
            final(self).code() == old(self).code(),
            step_result_view(r, final(self).machine()) == exec_op(
                old(self).code(),
                old(self).machine(),
                Instruction { opcode: Opcode::StoreLocal { slot }, span },
                fuel as nat,
            ),
    {
        let ghost m = self.machine();
        let v = match self.stack.pop() {
            Some(v) => v,
            None => {
                return StepResult::Fail(VmError::StackUnderflow { opcode: "StoreLocal", span });
            },
        };
        proof {
            lemma_values_view(old(self).stack@);
            lemma_values_view_take(old(self).stack@, old(self).stack@.len() - 1);
        }
        let n = self.frames.len();
        let i = slot as usize;
        proof {
            lemma_values_view(self.frames@[n - 1].locals@);
        }
        if i >= self.frames[n - 1].locals.len() {
            return StepResult::Fail(VmError::InvalidLocalSlot { slot, span });
        }
        let mut frame = match self.frames.pop() {
            Some(fr) => fr,
            None => {
                return StepResult::Fail(VmError::StepLimitExceeded);
            },
        };
        proof {
            lemma_values_view_update(frame.locals@, i as int, v);
        }
        frame.locals.set(i, v);
        self.frames.push(frame);
        proof {
            assert(frames_view(self.frames@) =~= m.frames.update(
                n - 1,
                SpecFrame {
                    locals: m.frames.last().locals.update(slot as int, m.stack.last()),
                    ..m.frames.last()
                },
            ));
        }
        StepResult::Next
    }

    fn op_make_closure(&mut self, function: FunctionId, captures: u16, span: Span, fuel: u64) -> (r: StepResult)
        requires
            old(self).frames@.len() > 0,
        ensures
            final(self).code() == old(self).code(),
            step_result_view(r, final(self).machine()) == exec_op(
                old(self).code(),
                old(self).machine(),
                Instruction { opcode: Opcode::MakeClosure { function, captures }, span },
                fuel as nat,
            ),
    {
        let program = self.program;
        let fidx = function.0 as usize;
        if fidx >= program.functions.len() {
            return StepResult::Fail(VmError::InvalidFunctionIndex { index: function, span });
        }
        let expected = program.functions[fidx].captures;
        if expected != captures {
            return StepResult::Fail(
                VmError::ClosureCaptureMismatch { function, expected, actual: captures, span },
            );
        }
        let n = self.stack.len();
        proof {
            lemma_values_view(self.stack@);
        }
        if n < captures as usize {
            return StepResult::Fail(VmError::StackUnderflow { opcode: "MakeClosure", span });
        }
        let k = n - captures as usize;
        proof {
            lemma_values_view_take(self.stack@, k as int);
        }
        let popped = self.stack.split_off(k);
        let v = Value::Callable(CallableValue::Closure(ClosureValue { function, captures: popped }));
        proof {
            lemma_values_view_push(self.stack@, v);
        }
        self.stack.push(v);
        StepResult::Next
    }

    fn op_return(&mut self, span: Span, fuel: u64) -> (r: StepResult)
        requires
            old(self).frames@.len() > 0,
        ensures
            final(self).code() == old(self).code(),
            step_result_view(r, final(self).machine()) == exec_op(
                old(self).code(),
                old(self).machine(),
                Instruction { opcode: Opcode::Return, span },
                fuel as nat,
            ),
    {
        let ghost m = self.machine();
        proof {
            lemma_values_view(self.stack@);
        }
        let v = match self.stack.pop() {
            Some(v) => v,
            None => {
                return StepResult::Fail(VmError::StackUnderflow { opcode: "Return", span });
            },
        };
        let _ = self.frames.pop();
        if self.frames.len() == 0 {
            return StepResult::Done(v);
        }
        proof {
            lemma_values_view_push(self.stack@, v);
            assert(self.stack@.push(v) =~= old(self).stack@);
            assert(frames_view(self.frames@) =~= m.frames.drop_last());
        }
        self.stack.push(v);
        StepResult::Next
    }

    /// Moves the current frame's instruction pointer to `target`.
    fn jump_to(&mut self, target: usize, span: Span) -> (r: StepResult)
        requires
            old(self).frames@.len() > 0,
            (old(self).frames@.last().function.0 as int) < old(self).code().functions.len(),
        ensures
            final(self).code() == old(self).code(),
            step_result_view(r, final(self).machine()) == jumped(
                old(self).code(),
                old(self).machine(),
                target,
                span,
            ),
    {
        let program = self.program;
        let ghost m = self.machine();
        let n = self.frames.len();
        let fidx = self.frames[n - 1].function.0 as usize;
        if target >= program.functions[fidx].instructions.len() {
            return StepResult::Fail(VmError::InvalidJumpTarget { target, span });
        }
        let mut frame = match self.frames.pop() {
            Some(fr) => fr,
            None => {
                return StepResult::Fail(VmError::StepLimitExceeded);
            },
        };
        frame.ip = target;
        self.frames.push(frame);
        proof {
            assert(frames_view(self.frames@) =~= m.frames.update(
                n - 1,
                SpecFrame { ip: target as int, ..m.frames.last() },
            ));
        }
        StepResult::Next
    }

    fn op_jump(&mut self, target: usize, span: Span, fuel: u64) -> (r: StepResult)
        requires
            old(self).frames@.len() > 0,
            (old(self).frames@.last().function.0 as int) < old(self).code().functions.len(),
        ensures
            final(self).code() == old(self).code(),
            step_result_view(r, final(self).machine()) == exec_op(
                old(self).code(),
                old(self).machine(),
                Instruction { opcode: Opcode::Jump { target }, span },
                fuel as nat,
            ),
    {
        self.jump_to(target, span)
    }

    fn op_jump_if_false(&mut self, target: usize, span: Span, fuel: u64) -> (r: StepResult)
        requires
            old(self).frames@.len() > 0,
            (old(self).frames@.last().function.0 as int) < old(self).code().functions.len(),
        ensures
            final(self).code() == old(self).code(),
            step_result_view(r, final(self).machine()) == exec_op(
                old(self).code(),
                old(self).machine(),
                Instruction { opcode: Opcode::JumpIfFalse { target }, span },
                fuel as nat,
            ),
    {
        proof {
            lemma_values_view(self.stack@);
        }
        let v = match self.stack.pop() {
            Some(v) => v,
            None => {
                return StepResult::Fail(VmError::StackUnderflow { opcode: "JumpIfFalse", span });
            },
        };
        proof {
            lemma_values_view_take(old(self).stack@, old(self).stack@.len() - 1);
        }
        match v {
            Value::Bool(false) => self.jump_to(target, span),
            Value::Bool(true) => StepResult::Next,
            other => StepResult::Fail(
                VmError::TypeMismatch {
                    opcode: "JumpIfFalse",
                    expected: "bool",
                    found: other.kind_name(),
                    span,
                },
            ),
        }
    }
}


impl<'a> Vm<'a> {
    fn op_call(&mut self, argc: u16, span: Span, fuel: u64) -> (r: StepResult)
        requires
            old(self).frames@.len() > 0,
        ensures
            final(self).code() == old(self).code(),
            step_result_view(r, final(self).machine()) == exec_op(
                old(self).code(),
                old(self).machine(),
                Instruction { opcode: Opcode::Call { argc }, span },
                fuel as nat,
            ),
        decreases fuel, 3nat, 0nat,
    {
        let program = self.program;
        let ghost m = self.machine();
        let n = self.stack.len();
        proof {
            lemma_values_view(self.stack@);
        }
        if n < argc as usize + 1 {
            return StepResult::Fail(VmError::StackUnderflow { opcode: "Call", span });
        }
        let k = n - argc as usize;
        proof {
            lemma_values_view_take(self.stack@, k as int);
            lemma_values_view_take(self.stack@, k - 1);
            assert(m.stack[k - 1] == value_view(self.stack@[k - 1]));
        }
        let args = self.stack.split_off(k);
        let callee = match self.stack.pop() {
            Some(c) => c,
            None => {
                return StepResult::Fail(VmError::StackUnderflow { opcode: "Call", span });
            },
        };
        proof {
            assert(self.stack@ =~= old(self).stack@.take(k - 1));
        }
        match callee {
            Value::Callable(CallableValue::Builtin(b)) => {
                match call_builtin_exec(program, b, &args, span, fuel) {
                    Ok(v) => {
                        proof {
                            lemma_values_view_push(self.stack@, v);
                        }
                        self.stack.push(v);
                        StepResult::Next
                    },
                    Err(e) => StepResult::Fail(e),
                }
            },
            Value::Callable(CallableValue::Closure(c)) => {
                let fidx = c.function.0 as usize;
                if fidx >= program.functions.len() {
                    return StepResult::Fail(
                        VmError::InvalidFunctionIndex { index: c.function, span },
                    );
                }
                let arity = program.functions[fidx].arity;
                if arity != argc {
                    return StepResult::Fail(
                        VmError::ClosureArityMismatch {
                            function: c.function,
                            expected: arity,
                            actual: argc,
                            span,
                        },
                    );
                }
                match CallFrame::with_locals(
                    c.function,
                    program.functions[fidx].locals,
                    c.captures,
                    args,
                ) {
                    Ok(fr) => {
                        self.frames.push(fr);
                        proof {
                            assert(frames_view(self.frames@) =~= m.frames.push(frame_view(fr)));
                        }
                        StepResult::Next
                    },
                    Err(e) => StepResult::Fail(e),
                }
            },
            other => {
                let found = other.kind_name();
                let at = match other.span() {
                    Some(s) => Some(s),
                    None => Some(span),
                };
                StepResult::Fail(VmError::NonCallableValue { found, builtin: None, span: at })
            },
        }
    }
}

/// Calls a builtin: `map` and `apply` call their callable argument, the
/// others build values.
fn call_builtin_exec(program: &Program, b: Builtin, args: &Vec<Value>, span: Span, fuel: u64) -> (r: Result<Value, VmError>)
    ensures
        value_outcome(r) == call_builtin(program@, b, values_view(args@), span, fuel as nat),
    decreases fuel, 2nat, 0nat,
{
    match b {
        Builtin::MapEach => map_builtin(program, args, span, fuel),
        Builtin::Apply => apply_builtin(program, args, span, fuel),
        _ => {
            let metadata = MetadataValue { version: program.version.clone(), span: program.metadata_span };
            construct_exec(b, args, span, &metadata)
        },
    }
}

fn want_callable_exec(name: &'static str, v: &Value, span: Span) -> (r: Result<CallableValue, VmError>)
    ensures
        match r {
            Ok(c) => want_callable(name, value_view(*v), span) == Ok::<SpecCallable, SpecVmError>(callable_view(c)),
            Err(e) => want_callable(name, value_view(*v), span) == Err::<SpecCallable, SpecVmError>(e@),
        },
{
    match v {
        Value::Callable(c) => Ok(clone_callable(c)),
        other => {
            let at = match other.span() {
                Some(s) => Some(s),
                None => Some(span),
            };
            Err(VmError::NonCallableValue { found: other.kind_name(), builtin: Some(name), span: at })
        },
    }
}

/// `map`: calls the callable on each item of the list.
fn map_builtin(program: &Program, args: &Vec<Value>, span: Span, fuel: u64) -> (r: Result<Value, VmError>)
    ensures
        value_outcome(r) == call_builtin(program@, Builtin::MapEach, values_view(args@), span, fuel as nat),
    decreases fuel, 1nat, 0nat,
{
    proof {
        lemma_values_view(args@);
    }
    if args.len() != 2 {
        return Err(VmError::BuiltinArityMismatch { builtin: "map", expected: "2", actual: args.len(), span });
    }
    let c = match want_callable_exec("map", &args[0], span) {
        Ok(c) => c,
        Err(e) => {
            return Err(e);
        },
    };
    let items = match &args[1] {
        Value::List(items) => items,
        other => {
            return Err(VmError::BuiltinTypeMismatch { builtin: "map", expected: "list", found: other.kind_name(), span });
        },
    };
    let ghost iv = values_view(items@);
    proof {
        lemma_values_view(items@);
    }
    let mut out: Vec<Value> = Vec::new();
    assert(values_view(out@) =~= Seq::<SpecValue>::empty());
    assert(call_builtin(program@, Builtin::MapEach, values_view(args@), span, fuel as nat)
        == map_items(program@, callable_view(c), iv, span, fuel as nat, 0, Seq::empty()));
    let mut i: usize = 0;
    while i < items.len()
        invariant
            call_builtin(program@, Builtin::MapEach, values_view(args@), span, fuel as nat)
                == map_items(program@, callable_view(c), iv, span, fuel as nat, 0, Seq::empty()),
            iv == values_view(items@),
            iv.len() == items@.len(),
            forall|j: int| 0 <= j < items@.len() ==> #[trigger] iv[j] == value_view(items@[j]),
            0 <= i <= items@.len(),
            map_items(program@, callable_view(c), iv, span, fuel as nat, 0, Seq::empty())
                == map_items(program@, callable_view(c), iv, span, fuel as nat, i as int, values_view(out@)),
        decreases items@.len() - i,
    {
        let mut one: Vec<Value> = Vec::new();
        one.push(clone_value(&items[i]));
        proof {
            lemma_values_view(one@);
            assert(values_view(one@) =~= seq![iv[i as int]]);
        }
        match call_callable_exec(program, &c, one, span, fuel) {
            Ok(v) => {
                proof {
                    lemma_values_view_push(out@, v);
                }
                out.push(v);
            },
            Err(e) => {
                return Err(e);
            },
        }
        i += 1;
    }
    Ok(Value::List(out))
}

/// `apply`: calls the callable with the items of the list as arguments.
fn apply_builtin(program: &Program, args: &Vec<Value>, span: Span, fuel: u64) -> (r: Result<Value, VmError>)
    ensures
        value_outcome(r) == call_builtin(program@, Builtin::Apply, values_view(args@), span, fuel as nat),
    decreases fuel, 1nat, 0nat,
{
    proof {
        lemma_values_view(args@);
    }
    if args.len() != 2 {
        return Err(VmError::BuiltinArityMismatch { builtin: "apply", expected: "2", actual: args.len(), span });
    }
    let c = match want_callable_exec("apply", &args[0], span) {
        Ok(c) => c,
        Err(e) => {
            return Err(e);
        },
    };
    let values = match &args[1] {
        Value::List(items) => clone_values(items),
        other => {
            return Err(VmError::BuiltinTypeMismatch { builtin: "apply", expected: "list", found: other.kind_name(), span });
        },
    };
    call_callable_exec(program, &c, values, span, fuel)
}

/// Calls a callable value; each call spends one unit of the budget.
fn call_callable_exec(program: &Program, c: &CallableValue, args: Vec<Value>, span: Span, fuel: u64) -> (r: Result<Value, VmError>)
    ensures
        value_outcome(r) == call_callable(program@, callable_view(*c), values_view(args@), span, fuel as nat),
    decreases fuel, 0nat, 0nat,
{
    if fuel == 0 {
        return Err(VmError::StepLimitExceeded);
    }
    match c {
        CallableValue::Builtin(b) => call_builtin_exec(program, *b, &args, span, fuel - 1),
        CallableValue::Closure(cl) => execute_closure(
            program,
            ClosureValue { function: cl.function, captures: clone_values(&cl.captures) },
            args,
            span,
            fuel - 1,
        ),
    }
}

/// Runs a closure to completion on a machine of its own, within `fuel`
/// steps.
pub fn execute_closure(program: &Program, closure: ClosureValue, args: Vec<Value>, span: Span, fuel: u64) -> (r: Result<Value, VmError>)
    ensures
        value_outcome(r) == run_closure(
            program@,
            closure.function,
            values_view(closure.captures@),
            values_view(args@),
            span,
            fuel as nat,
        ),
    decreases fuel, 5nat, 0nat,
{
    proof {
        lemma_values_view(args@);
    }
    let fidx = closure.function.0 as usize;
    if fidx >= program.functions.len() {
        return Err(VmError::InvalidFunctionIndex { index: closure.function, span });
    }
    let arity = program.functions[fidx].arity;
    if arity as usize != args.len() {
        let actual: u16 = if args.len() > 65535 { 65535 } else { args.len() as u16 };
        return Err(VmError::ClosureArityMismatch { function: closure.function, expected: arity, actual, span });
    }
    let frame = match CallFrame::with_locals(closure.function, program.functions[fidx].locals, closure.captures, args) {
        Ok(fr) => fr,
        Err(e) => {
            return Err(e);
        },
    };
    let mut frames: Vec<CallFrame> = Vec::new();
    frames.push(frame);
    let mut vm = Vm { program, stack: Vec::new(), frames };
    proof {
        assert(vm.machine().stack =~= Seq::<SpecValue>::empty());
        assert(vm.machine().frames =~= seq![frame_view(frame)]);
    }
    vm.run_for(fuel)
}

/// Runs a program to its result.
pub fn execute_program(program: &Program) -> (r: Result<Value, VmError>)
    ensures
        value_outcome(r) == execute_spec(program@),
{
    Vm::new(program).execute()
}


/// The text that describes a decoding error.
pub open spec fn decode_error_text(e: DecodeError) -> &'static str {
    match e {
        DecodeError::ExpectedBlock => "expected block node",
        DecodeError::ExpectedInline => "expected inline node",
        DecodeError::ExpectedTableChild => "expected table child node",
        DecodeError::ExpectedTableRow => "expected table row node",
        DecodeError::ExpectedTableCell => "expected table cell node",
    }
}

fn decode_error_detail(e: DecodeError) -> (r: &'static str)
    ensures
        r == decode_error_text(e),
{
    match e {
        DecodeError::ExpectedBlock => "expected block node",
        DecodeError::ExpectedInline => "expected inline node",
        DecodeError::ExpectedTableChild => "expected table child node",
        DecodeError::ExpectedTableRow => "expected table row node",
        DecodeError::ExpectedTableCell => "expected table cell node",
    }
}

/// The document a program builds: its result must be a `doc` node whose
/// children all have the kinds their parents take.
pub open spec fn document_spec(p: SpecProgram) -> Result<SpecNode, SpecVmError> {
    match execute_spec(p) {
        Err(e) => Err(e),
        Ok(v) => match v {
            SpecValue::Node(n) => if n is Document {
                match decode_children(n) {
                    None => Ok(n),
                    Some(e) => Err(
                        SpecVmError::InvalidRuntimeShape {
                            detail: decode_error_text(e),
                            span: node_span(n),
                        },
                    ),
                }
            } else {
                Err(
                    SpecVmError::NonDocumentEntryResult {
                        found: value_kind_name(v),
                        span: value_span(v),
                    },
                )
            },
            other => Err(
                SpecVmError::NonDocumentEntryResult {
                    found: value_kind_name(other),
                    span: value_span(other),
                },
            ),
        },
    }
}

pub open spec fn document_outcome(r: Result<Document, VmError>) -> Result<SpecNode, SpecVmError> {
    match r {
        Ok(d) => Ok(d@),
        Err(e) => Err(e@),
    }
}

/// Runs a program and resolves the document it builds.
pub fn execute_document(program: &Program) -> (r: Result<Document, VmError>)
    ensures
        document_outcome(r) == document_spec(program@),
{
    let value = match execute_program(program) {
        Ok(v) => v,
        Err(e) => {
            return Err(e);
        },
    };
    match &value {
        Value::Node(NodeValue::Document(document)) => match document.try_into_document() {
            Ok(d) => Ok(d),
            Err(e) => Err(
                VmError::InvalidRuntimeShape {
                    detail: decode_error_detail(e),
                    span: document.span,
                },
            ),
        },
        other => Err(VmError::NonDocumentEntryResult { found: other.kind_name(), span: other.span() }),
    }
}


/// Every `doc` node that `v` holds where a program can reach it again (at
/// its top, in a list, among a closure's captures) carries version `ver`.
pub open spec fn stamped(v: SpecValue, ver: Seq<char>) -> bool
    decreases v,
{
    match v {
        SpecValue::Node(n) => match n {
            SpecNode::Document { version, .. } => version == ver,
            _ => true,
        },
        SpecValue::List(items) => forall|i: int|
            0 <= i < items.len() ==> stamped(#[trigger] items[i], ver),
        SpecValue::Callable(SpecCallable::Closure { captures, .. }) => forall|i: int|
            0 <= i < captures.len() ==> stamped(#[trigger] captures[i], ver),
        _ => true,
    }
}

pub open spec fn all_stamped(vs: Seq<SpecValue>, ver: Seq<char>) -> bool {
    forall|i: int| 0 <= i < vs.len() ==> stamped(#[trigger] vs[i], ver)
}

pub open spec fn frame_stamped(f: SpecFrame, ver: Seq<char>) -> bool {
    all_stamped(f.locals, ver) && all_stamped(f.captures, ver)
}

pub open spec fn machine_stamped(m: SpecMachine, ver: Seq<char>) -> bool {
    &&& all_stamped(m.stack, ver)
    &&& forall|j: int| 0 <= j < m.frames.len() ==> frame_stamped(#[trigger] m.frames[j], ver)
}

proof fn lemma_stamped_push(vs: Seq<SpecValue>, v: SpecValue, ver: Seq<char>)
    requires
        all_stamped(vs, ver),
        stamped(v, ver),
    ensures
        all_stamped(vs.push(v), ver),
{
    assert forall|i: int| 0 <= i < vs.push(v).len() implies stamped(#[trigger] vs.push(v)[i], ver) by {
        if i < vs.len() {
            assert(vs.push(v)[i] == vs[i]);
        }
    }
}

proof fn lemma_stamped_sub(vs: Seq<SpecValue>, a: int, b: int, ver: Seq<char>)
    requires
        all_stamped(vs, ver),
        0 <= a <= b <= vs.len(),
    ensures
        all_stamped(vs.subrange(a, b), ver),
        all_stamped(vs.take(b), ver),
        all_stamped(vs.skip(a), ver),
{
    assert forall|i: int| 0 <= i < vs.subrange(a, b).len() implies stamped(#[trigger] vs.subrange(a, b)[i], ver) by {
        assert(vs.subrange(a, b)[i] == vs[a + i]);
    }
    assert forall|i: int| 0 <= i < vs.take(b).len() implies stamped(#[trigger] vs.take(b)[i], ver) by {
        assert(vs.take(b)[i] == vs[i]);
    }
    assert forall|i: int| 0 <= i < vs.skip(a).len() implies stamped(#[trigger] vs.skip(a)[i], ver) by {
        assert(vs.skip(a)[i] == vs[a + i]);
    }
}

proof fn lemma_with_frame_stamped(m: SpecMachine, f: SpecFrame, ver: Seq<char>)
    requires
        machine_stamped(m, ver),
        frame_stamped(f, ver),
        m.frames.len() > 0,
    ensures
        machine_stamped(with_frame(m, f), ver),
{
    let fs = m.frames.update(m.frames.len() - 1, f);
    assert forall|j: int| 0 <= j < fs.len() implies frame_stamped(#[trigger] fs[j], ver) by {
        if j != m.frames.len() - 1 {
            assert(fs[j] == m.frames[j]);
        }
    }
}

proof fn lemma_construct_stamped(b: Builtin, args: Seq<SpecValue>, span: Span, ver: Seq<char>, ms: Span)
    requires
        all_stamped(args, ver),
    ensures
        construct(b, args, span, ver, ms) matches Ok(v) ==> stamped(v, ver),
{
    match construct(b, args, span, ver, ms) {
        Ok(v) => {
            if b is List {
                assert(v == SpecValue::List(args));
            }
        },
        Err(_) => {},
    }
}

proof fn lemma_exec_op_stamped(p: SpecProgram, m: SpecMachine, ins: Instruction, fuel: nat)
    requires
        machine_stamped(m, p.version),
        m.frames.len() > 0,
    ensures
        match exec_op(p, m, ins, fuel) {
            Step::Next(m2) => machine_stamped(m2, p.version),
            Step::Done(v) => stamped(v, p.version),
            Step::Fail(_) => true,
        },
    decreases fuel, 3nat, 1nat,
{
    let ver = p.version;
    let span = ins.span;
    let frame = m.frames.last();
    assert(frame_stamped(frame, ver));
    match ins.opcode {
        Opcode::PushConst { id } => {
            if (id.0 as int) < p.constants.len() {
                lemma_stamped_push(m.stack, constant_value(p.constants[id.0 as int]), ver);
            }
        },
        Opcode::LoadBuiltin { name } => {
            if (name.0 as int) < p.constants.len() {
                if let SpecConstant::String(t) = p.constants[name.0 as int] {
                    if let Some(b) = builtin_named(t) {
                        lemma_stamped_push(m.stack, SpecValue::Callable(SpecCallable::Builtin(b)), ver);
                    }
                }
            }
        },
        Opcode::LoadLocal { slot } => {
            if (slot as int) < frame.locals.len() {
                lemma_stamped_push(m.stack, frame.locals[slot as int], ver);
            }
        },
        Opcode::LoadCapture { slot } => {
            if (slot as int) < frame.captures.len() {
                lemma_stamped_push(m.stack, frame.captures[slot as int], ver);
            }
        },
        Opcode::StoreLocal { slot } => {
            if m.stack.len() > 0 && (slot as int) < frame.locals.len() {
                let st = m.stack.drop_last();
                lemma_stamped_sub(m.stack, 0, m.stack.len() - 1, ver);
                assert(st == m.stack.take(m.stack.len() - 1));
                let ls = frame.locals.update(slot as int, m.stack.last());
                assert forall|i: int| 0 <= i < ls.len() implies stamped(#[trigger] ls[i], ver) by {
                    if i != slot as int {
                        assert(ls[i] == frame.locals[i]);
                    }
                }
                lemma_with_frame_stamped(SpecMachine { stack: st, ..m }, SpecFrame { locals: ls, ..frame }, ver);
            }
        },
        Opcode::MakeClosure { function, captures } => {
            if (function.0 as int) < p.functions.len() && p.functions[function.0 as int].captures
                == captures && m.stack.len() >= captures {
                let k = m.stack.len() - captures;
                lemma_stamped_sub(m.stack, k, m.stack.len() as int, ver);
                lemma_stamped_push(
                    m.stack.take(k),
                    SpecValue::Callable(SpecCallable::Closure { function, captures: m.stack.skip(k) }),
                    ver,
                );
            }
        },
        Opcode::Call { argc } => {
            if m.stack.len() >= argc + 1 {
                let k = m.stack.len() - argc;
                let args = m.stack.skip(k);
                let callee = m.stack[k - 1];
                let rest = m.stack.take(k - 1);
                lemma_stamped_sub(m.stack, k, m.stack.len() as int, ver);
                lemma_stamped_sub(m.stack, k - 1, m.stack.len() as int, ver);
                assert(stamped(callee, ver));
                match callee {
                    SpecValue::Callable(SpecCallable::Builtin(b)) => {
                        lemma_call_builtin_stamped(p, b, args, span, fuel);
                        if let Ok(v) = call_builtin(p, b, args, span, fuel) {
                            lemma_stamped_push(rest, v, ver);
                        }
                    },
                    SpecValue::Callable(SpecCallable::Closure { function, captures }) => {
                        if (function.0 as int) < p.functions.len() {
                            let locals = p.functions[function.0 as int].locals;
                            if let Ok(fr) = new_frame(function, locals, captures, args) {
                                assert forall|i: int| 0 <= i < fr.locals.len() implies stamped(#[trigger] fr.locals[i], ver) by {
                                    if i < args.len() {
                                        assert(fr.locals[i] == args[i]);
                                    }
                                }
                                let fs = m.frames.push(fr);
                                assert forall|j: int| 0 <= j < fs.len() implies frame_stamped(#[trigger] fs[j], ver) by {
                                    if j < m.frames.len() {
                                        assert(fs[j] == m.frames[j]);
                                    }
                                }
                            }
                        }
                    },
                    _ => {},
                }
            }
        },
        Opcode::Return => {
            if m.stack.len() > 0 {
                if m.frames.len() > 1 {
                    let fs = m.frames.drop_last();
                    assert forall|j: int| 0 <= j < fs.len() implies frame_stamped(#[trigger] fs[j], ver) by {
                        assert(fs[j] == m.frames[j]);
                    }
                }
            }
        },
        Opcode::Jump { target } => {
            lemma_with_frame_stamped(m, SpecFrame { ip: target as int, ..frame }, ver);
        },
        Opcode::JumpIfFalse { target } => {
            if m.stack.len() > 0 {
                let m2 = SpecMachine { stack: m.stack.drop_last(), ..m };
                lemma_stamped_sub(m.stack, 0, m.stack.len() - 1, ver);
                assert(m2.stack == m.stack.take(m.stack.len() - 1));
                lemma_with_frame_stamped(m2, SpecFrame { ip: target as int, ..frame }, ver);
            }
        },
        Opcode::Pop => {
            if m.stack.len() > 0 {
                lemma_stamped_sub(m.stack, 0, m.stack.len() - 1, ver);
                assert(m.stack.drop_last() == m.stack.take(m.stack.len() - 1));
            }
        },
    }
}

proof fn lemma_step_stamped(p: SpecProgram, m: SpecMachine, fuel: nat)
    requires
        machine_stamped(m, p.version),
    ensures
        match step(p, m, fuel) {
            Step::Next(m2) => machine_stamped(m2, p.version),
            Step::Done(v) => stamped(v, p.version),
            Step::Fail(_) => true,
        },
    decreases fuel, 3nat, 2nat,
{
    if m.frames.len() > 0 {
        let frame = m.frames.last();
        let fid = frame.function;
        if (fid.0 as int) < p.functions.len() {
            let f = p.functions[fid.0 as int];
            if 0 <= frame.ip < f.instructions.len() {
                let m1 = with_frame(m, SpecFrame { ip: frame.ip + 1, ..frame });
                assert(frame_stamped(frame, p.version));
                lemma_with_frame_stamped(m, SpecFrame { ip: frame.ip + 1, ..frame }, p.version);
                lemma_exec_op_stamped(p, m1, f.instructions[frame.ip], fuel);
            }
        }
    }
}

proof fn lemma_run_stamped(p: SpecProgram, m: SpecMachine, fuel: nat)
    requires
        machine_stamped(m, p.version),
    ensures
        run(p, m, fuel) matches Ok(v) ==> stamped(v, p.version),
    decreases fuel, 4nat, 0nat,
{
    if fuel > 0 {
        lemma_step_stamped(p, m, (fuel - 1) as nat);
        if let Step::Next(m2) = step(p, m, (fuel - 1) as nat) {
            lemma_run_stamped(p, m2, (fuel - 1) as nat);
        }
    }
}

proof fn lemma_call_builtin_stamped(p: SpecProgram, b: Builtin, args: Seq<SpecValue>, span: Span, fuel: nat)
    requires
        all_stamped(args, p.version),
    ensures
        call_builtin(p, b, args, span, fuel) matches Ok(v) ==> stamped(v, p.version),
    decreases fuel, 2nat, 0nat,
{
    let ver = p.version;
    match b {
        Builtin::MapEach => {
            if args.len() == 2 {
                assert(stamped(args[0], ver));
                assert(stamped(args[1], ver));
                if let (SpecValue::Callable(c), SpecValue::List(items)) = (args[0], args[1]) {
                    assert(all_stamped(items, ver));
                    lemma_map_items_stamped(p, c, items, span, fuel, 0, Seq::empty());
                }
            }
        },
        Builtin::Apply => {
            if args.len() == 2 {
                assert(stamped(args[0], ver));
                assert(stamped(args[1], ver));
                if let (SpecValue::Callable(c), SpecValue::List(values)) = (args[0], args[1]) {
                    assert(all_stamped(values, ver));
                    lemma_call_callable_stamped(p, c, values, span, fuel);
                }
            }
        },
        _ => {
            lemma_construct_stamped(b, args, span, ver, p.metadata_span);
        },
    }
}

proof fn lemma_map_items_stamped(p: SpecProgram, c: SpecCallable, items: Seq<SpecValue>, span: Span, fuel: nat, i: int, acc: Seq<SpecValue>)
    requires
        stamped(SpecValue::Callable(c), p.version),
        all_stamped(items, p.version),
        all_stamped(acc, p.version),
    ensures
        map_items(p, c, items, span, fuel, i, acc) matches Ok(v) ==> stamped(v, p.version),
    decreases fuel, 1nat, items.len() - i,
{
    if 0 <= i < items.len() {
        let one = seq![items[i]];
        assert(all_stamped(one, p.version));
        lemma_call_callable_stamped(p, c, one, span, fuel);
        if let Ok(v) = call_callable(p, c, one, span, fuel) {
            lemma_stamped_push(acc, v, p.version);
            lemma_map_items_stamped(p, c, items, span, fuel, i + 1, acc.push(v));
        }
    }
}

proof fn lemma_call_callable_stamped(p: SpecProgram, c: SpecCallable, args: Seq<SpecValue>, span: Span, fuel: nat)
    requires
        stamped(SpecValue::Callable(c), p.version),
        all_stamped(args, p.version),
    ensures
        call_callable(p, c, args, span, fuel) matches Ok(v) ==> stamped(v, p.version),
    decreases fuel, 0nat, 0nat,
{
    if fuel > 0 {
        match c {
            SpecCallable::Builtin(b) => lemma_call_builtin_stamped(p, b, args, span, (fuel - 1) as nat),
            SpecCallable::Closure { function, captures } => lemma_run_closure_stamped(
                p,
                function,
                captures,
                args,
                span,
                (fuel - 1) as nat,
            ),
        }
    }
}

proof fn lemma_run_closure_stamped(p: SpecProgram, function: FunctionId, captures: Seq<SpecValue>, args: Seq<SpecValue>, span: Span, fuel: nat)
    requires
        all_stamped(captures, p.version),
        all_stamped(args, p.version),
    ensures
        run_closure(p, function, captures, args, span, fuel) matches Ok(v) ==> stamped(v, p.version),
    decreases fuel, 5nat, 0nat,
{
    if (function.0 as int) < p.functions.len() && p.functions[function.0 as int].arity == args.len() {
        if let Ok(fr) = new_frame(function, p.functions[function.0 as int].locals, captures, args) {
            assert forall|i: int| 0 <= i < fr.locals.len() implies stamped(#[trigger] fr.locals[i], p.version) by {
                if i < args.len() {
                    assert(fr.locals[i] == args[i]);
                }
            }
            let m = SpecMachine { stack: Seq::empty(), frames: seq![fr] };
            assert(frame_stamped(m.frames[0], p.version));
            lemma_run_stamped(p, m, fuel);
        }
    }
}

/// The document a program builds carries the program's version: the
/// machine writes the version it was given into every `doc` node, and no
/// other node is ever taken for a document.
pub proof fn law_document_version(p: SpecProgram)
    ensures
        document_spec(p) matches Ok(d) ==> d matches SpecNode::Document { version, .. }
            && version == p.version,
{
    let m = initial_machine(p);
    assert(frame_stamped(m.frames[0], p.version));
    lemma_run_stamped(p, m, step_budget());
}


proof fn lemma_exec_op_budget(p: SpecProgram, m: SpecMachine, ins: Instruction, f1: nat, f2: nat)
    requires
        f1 <= f2,
        exec_op(p, m, ins, f1) != Step::Fail(SpecVmError::StepLimitExceeded),
    ensures
        exec_op(p, m, ins, f2) == exec_op(p, m, ins, f1),
    decreases f1, 3nat, 1nat,
{
    if let Opcode::Call { argc } = ins.opcode {
        if m.stack.len() >= argc + 1 {
            let k = m.stack.len() - argc;
            if let SpecValue::Callable(SpecCallable::Builtin(b)) = m.stack[k - 1] {
                lemma_call_builtin_budget(p, b, m.stack.skip(k), ins.span, f1, f2);
            }
        }
    }
}

proof fn lemma_step_budget(p: SpecProgram, m: SpecMachine, f1: nat, f2: nat)
    requires
        f1 <= f2,
        step(p, m, f1) != Step::Fail(SpecVmError::StepLimitExceeded),
    ensures
        step(p, m, f2) == step(p, m, f1),
    decreases f1, 3nat, 2nat,
{
    if m.frames.len() > 0 {
        let frame = m.frames.last();
        let fid = frame.function;
        if (fid.0 as int) < p.functions.len() {
            let f = p.functions[fid.0 as int];
            if 0 <= frame.ip < f.instructions.len() {
                lemma_exec_op_budget(
                    p,
                    with_frame(m, SpecFrame { ip: frame.ip + 1, ..frame }),
                    f.instructions[frame.ip],
                    f1,
                    f2,
                );
            }
        }
    }
}

proof fn lemma_run_budget(p: SpecProgram, m: SpecMachine, f1: nat, f2: nat)
    requires
        f1 <= f2,
        run(p, m, f1) != Err::<SpecValue, SpecVmError>(SpecVmError::StepLimitExceeded),
    ensures
        run(p, m, f2) == run(p, m, f1),
    decreases f1, 4nat, 0nat,
{
    lemma_step_budget(p, m, (f1 - 1) as nat, (f2 - 1) as nat);
    if let Step::Next(m2) = step(p, m, (f1 - 1) as nat) {
        lemma_run_budget(p, m2, (f1 - 1) as nat, (f2 - 1) as nat);
    }
}

proof fn lemma_call_builtin_budget(p: SpecProgram, b: Builtin, args: Seq<SpecValue>, span: Span, f1: nat, f2: nat)
    requires
        f1 <= f2,
        call_builtin(p, b, args, span, f1) != Err::<SpecValue, SpecVmError>(
            SpecVmError::StepLimitExceeded,
        ),
    ensures
        call_builtin(p, b, args, span, f2) == call_builtin(p, b, args, span, f1),
    decreases f1, 2nat, 0nat,
{
    if args.len() == 2 {
        match b {
            Builtin::MapEach => {
                if let (SpecValue::Callable(c), SpecValue::List(items)) = (args[0], args[1]) {
                    lemma_map_items_budget(p, c, items, span, f1, f2, 0, Seq::empty());
                }
            },
            Builtin::Apply => {
                if let (SpecValue::Callable(c), SpecValue::List(values)) = (args[0], args[1]) {
                    lemma_call_callable_budget(p, c, values, span, f1, f2);
                }
            },
            _ => {},
        }
    }
}

proof fn lemma_map_items_budget(p: SpecProgram, c: SpecCallable, items: Seq<SpecValue>, span: Span, f1: nat, f2: nat, i: int, acc: Seq<SpecValue>)
    requires
        f1 <= f2,
        map_items(p, c, items, span, f1, i, acc) != Err::<SpecValue, SpecVmError>(
            SpecVmError::StepLimitExceeded,
        ),
    ensures
        map_items(p, c, items, span, f2, i, acc) == map_items(p, c, items, span, f1, i, acc),
    decreases f1, 1nat, items.len() - i,
{
    if 0 <= i < items.len() {
        let one = seq![items[i]];
        lemma_call_callable_budget(p, c, one, span, f1, f2);
        if let Ok(v) = call_callable(p, c, one, span, f1) {
            lemma_map_items_budget(p, c, items, span, f1, f2, i + 1, acc.push(v));
        }
    }
}

proof fn lemma_call_callable_budget(p: SpecProgram, c: SpecCallable, args: Seq<SpecValue>, span: Span, f1: nat, f2: nat)
    requires
        f1 <= f2,
        call_callable(p, c, args, span, f1) != Err::<SpecValue, SpecVmError>(
            SpecVmError::StepLimitExceeded,
        ),
    ensures
        call_callable(p, c, args, span, f2) == call_callable(p, c, args, span, f1),
    decreases f1, 0nat, 0nat,
{
    match c {
        SpecCallable::Builtin(b) => lemma_call_builtin_budget(
            p,
            b,
            args,
            span,
            (f1 - 1) as nat,
            (f2 - 1) as nat,
        ),
        SpecCallable::Closure { function, captures } => lemma_run_closure_budget(
            p,
            function,
            captures,
            args,
            span,
            (f1 - 1) as nat,
            (f2 - 1) as nat,
        ),
    }
}

proof fn lemma_run_closure_budget(p: SpecProgram, function: FunctionId, captures: Seq<SpecValue>, args: Seq<SpecValue>, span: Span, f1: nat, f2: nat)
    requires
        f1 <= f2,
        run_closure(p, function, captures, args, span, f1) != Err::<SpecValue, SpecVmError>(
            SpecVmError::StepLimitExceeded,
        ),
    ensures
        run_closure(p, function, captures, args, span, f2) == run_closure(
            p,
            function,
            captures,
            args,
            span,
            f1,
        ),
    decreases f1, 5nat, 0nat,
{
    if (function.0 as int) < p.functions.len() && p.functions[function.0 as int].arity == args.len() {
        if let Ok(fr) = new_frame(function, p.functions[function.0 as int].locals, captures, args) {
            lemma_run_budget(p, SpecMachine { stack: Seq::empty(), frames: seq![fr] }, f1, f2);
        }
    }
}

/// The budget of steps only ever cuts a run short: a run that does not run
/// out of steps gives the same value, or the same error, with any larger
/// budget.
pub proof fn law_budget_only_cuts_short(p: SpecProgram, m: SpecMachine, f1: nat, f2: nat)
    requires
        f1 <= f2,
        run(p, m, f1) != Err::<SpecValue, SpecVmError>(SpecVmError::StepLimitExceeded),
    ensures
        run(p, m, f2) == run(p, m, f1),
{
    lemma_run_budget(p, m, f1, f2);
}

/// The error that the next step of `m` reports when what it is about to
/// run is malformed: a dangling function, constant or jump target, a bad
/// slot, too short a stack, or no instruction left in the function.
pub open spec fn malformation(p: SpecProgram, m: SpecMachine) -> Option<SpecVmError> {
    let frame = m.frames.last();
    let fid = frame.function;
    if (fid.0 as int) >= p.functions.len() {
        Some(SpecVmError::InvalidFunctionIndex { index: fid, span: p.metadata_span })
    } else if !(0 <= frame.ip < p.functions[fid.0 as int].instructions.len()) {
        let code = p.functions[fid.0 as int].instructions;
        Some(
            SpecVmError::MissingReturnValue {
                function: fid,
                span: if code.len() > 0 { code.last().span } else { p.metadata_span },
            },
        )
    } else {
        let code = p.functions[fid.0 as int].instructions;
        let ins = code[frame.ip];
        let span = ins.span;
        let empty = m.stack.len() == 0;
        match ins.opcode {
            Opcode::PushConst { id } => if (id.0 as int) >= p.constants.len() {
                Some(SpecVmError::InvalidConstantIndex { index: id, span })
            } else {
                None
            },
            Opcode::LoadBuiltin { name } => if (name.0 as int) >= p.constants.len() {
                Some(SpecVmError::InvalidConstantIndex { index: name, span })
            } else {
                None
            },
            Opcode::LoadLocal { slot } => if (slot as int) >= frame.locals.len() {
                Some(SpecVmError::InvalidLocalSlot { slot, span })
            } else {
                None
            },
            Opcode::LoadCapture { slot } => if (slot as int) >= frame.captures.len() {
                Some(SpecVmError::InvalidCaptureSlot { slot, span })
            } else {
                None
            },
            Opcode::StoreLocal { slot } => if empty {
                Some(SpecVmError::StackUnderflow { opcode: "StoreLocal", span })
            } else if (slot as int) >= frame.locals.len() {
                Some(SpecVmError::InvalidLocalSlot { slot, span })
            } else {
                None
            },
            Opcode::MakeClosure { function, .. } => if (function.0 as int) >= p.functions.len() {
                Some(SpecVmError::InvalidFunctionIndex { index: function, span })
            } else {
                None
            },
            Opcode::Call { argc } => if m.stack.len() < argc + 1 {
                Some(SpecVmError::StackUnderflow { opcode: "Call", span })
            } else {
                None
            },
            Opcode::Return => if empty {
                Some(SpecVmError::StackUnderflow { opcode: "Return", span })
            } else {
                None
            },
            Opcode::Jump { target } => if target >= code.len() {
                Some(SpecVmError::InvalidJumpTarget { target, span })
            } else {
                None
            },
            Opcode::JumpIfFalse { .. } => if empty {
                Some(SpecVmError::StackUnderflow { opcode: "JumpIfFalse", span })
            } else {
                None
            },
            Opcode::Pop => if empty {
                Some(SpecVmError::StackUnderflow { opcode: "Pop", span })
            } else {
                None
            },
        }
    }
}

/// A malformed program is reported, never run on: the step that meets a
/// malformation fails with the error that names it, and the run ends
/// there with that error.
pub proof fn law_malformed_programs_fail(p: SpecProgram, m: SpecMachine, fuel: nat)
    requires
        m.frames.len() > 0,
    ensures
        malformation(p, m) matches Some(e) ==> step(p, m, fuel) == Step::Fail(e) && run(
            p,
            m,
            fuel + 1,
        ) == Err::<SpecValue, SpecVmError>(e),
{
    let frame = m.frames.last();
    let m1 = with_frame(m, SpecFrame { ip: frame.ip + 1, ..frame });
    assert(m1.frames.last() == SpecFrame { ip: frame.ip + 1, ..frame });
    assert(m1.stack == m.stack);
}

/// What the instructions do to a machine whose next instruction is well
/// formed: a constant push pushes the constant's value, a load pushes the
/// local or capture in that slot, a closure takes the values on top of the
/// stack as its captures in order, a call of a closure enters a new frame
/// whose first locals are the arguments in order and whose captures are the
/// closure's, and a return from the last frame gives the value on top.
pub proof fn law_instructions_do_what_they_say(p: SpecProgram, m: SpecMachine, fuel: nat)
    requires
        m.frames.len() > 0,
        (m.frames.last().function.0 as int) < p.functions.len(),
        0 <= m.frames.last().ip < p.functions[m.frames.last().function.0 as int].instructions.len(),
    ensures
        ({
            let frame = m.frames.last();
            let ins = p.functions[frame.function.0 as int].instructions[frame.ip];
            let here = SpecFrame { ip: frame.ip + 1, ..frame };
            let moved = SpecMachine { frames: m.frames.update(m.frames.len() - 1, here), ..m };
            match ins.opcode {
                Opcode::PushConst { id } => (id.0 as int) < p.constants.len() ==> step(p, m, fuel)
                    == Step::Next(SpecMachine { stack: m.stack.push(match p.constants[id.0 as int] {
                    SpecConstant::String(t) => SpecValue::String(t),
                    SpecConstant::Bool(b) => SpecValue::Bool(b),
                }), ..moved }),
                Opcode::LoadLocal { slot } => (slot as int) < frame.locals.len() ==> step(p, m, fuel)
                    == Step::Next(SpecMachine { stack: m.stack.push(frame.locals[slot as int]), ..moved }),
                Opcode::LoadCapture { slot } => (slot as int) < frame.captures.len() ==> step(p, m, fuel)
                    == Step::Next(SpecMachine { stack: m.stack.push(frame.captures[slot as int]), ..moved }),
                Opcode::MakeClosure { function, captures } => ((function.0 as int) < p.functions.len()
                    && p.functions[function.0 as int].captures == captures && captures <= m.stack.len())
                    ==> step(p, m, fuel) == Step::Next(
                    SpecMachine {
                        stack: m.stack.take(m.stack.len() - captures).push(
                            SpecValue::Callable(
                                SpecCallable::Closure {
                                    function,
                                    captures: m.stack.skip(m.stack.len() - captures),
                                },
                            ),
                        ),
                        ..moved
                    },
                ),
                Opcode::Call { argc } => {
                    let callee = m.stack[m.stack.len() - argc - 1];
                    let function = callee->Callable_0->Closure_function;
                    let m2 = step(p, m, fuel)->Next_0;
                    (argc + 1 <= m.stack.len() && callee is Callable && callee->Callable_0 is Closure
                        && (function.0 as int) < p.functions.len() && p.functions[function.0 as int].arity
                        == argc && argc <= p.functions[function.0 as int].locals) ==> {
                        &&& step(p, m, fuel) is Next
                        &&& m2.stack == m.stack.take(m.stack.len() - argc - 1)
                        &&& m2.frames.len() == m.frames.len() + 1
                        &&& m2.frames.last().function == function
                        &&& m2.frames.last().ip == 0
                        &&& m2.frames.last().captures == callee->Callable_0->Closure_captures
                        &&& m2.frames.last().locals.len() == p.functions[function.0 as int].locals
                        &&& forall|i: int|
                            0 <= i < argc ==> #[trigger] m2.frames.last().locals[i] == m.stack[m.stack.len()
                                - argc + i]
                    }
                },
                Opcode::Return => (m.stack.len() > 0 && m.frames.len() == 1) ==> step(p, m, fuel)
                    == Step::Done(m.stack.last()),
                _ => true,
            }
        }),
{
    let frame = m.frames.last();
    let here = SpecFrame { ip: frame.ip + 1, ..frame };
    let m1 = with_frame(m, here);
    assert(m1.frames.last() == here);
    let ins = p.functions[frame.function.0 as int].instructions[frame.ip];
    if let Opcode::Call { argc } = ins.opcode {
        if argc + 1 <= m.stack.len() {
            let k = m.stack.len() - argc;
            let args = m.stack.skip(k);
            assert forall|i: int| 0 <= i < argc implies args[i] == m.stack[m.stack.len() - argc + i] by {}
        }
    }
}

proof fn lemma_map_items_each(p: SpecProgram, c: SpecCallable, items: Seq<SpecValue>, span: Span, fuel: nat, i: int, acc: Seq<SpecValue>)
    requires
        0 <= i <= items.len(),
    ensures
        map_items(p, c, items, span, fuel, i, acc) matches Ok(v) ==> v matches SpecValue::List(rs) && {
            &&& rs.len() == acc.len() + items.len() - i
            &&& rs.take(acc.len() as int) == acc
            &&& forall|j: int|
                i <= j < items.len() ==> call_callable(p, c, seq![#[trigger] items[j]], span, fuel) == Ok::<
                    SpecValue,
                    SpecVmError,
                >(rs[acc.len() + j - i])
        },
    decreases items.len() - i,
{
    if i < items.len() {
        if let Ok(x) = call_callable(p, c, seq![items[i]], span, fuel) {
            lemma_map_items_each(p, c, items, span, fuel, i + 1, acc.push(x));
            if let Ok(SpecValue::List(rs)) = map_items(p, c, items, span, fuel, i + 1, acc.push(x)) {
                assert(rs.take(acc.len() as int) =~= rs.take(acc.len() as int + 1).take(acc.len() as int));
                assert(acc.push(x).take(acc.len() as int) =~= acc);
                assert(rs[acc.len() as int] == rs.take(acc.len() as int + 1)[acc.len() as int]);
            }
        }
    } else {
        assert(acc.take(acc.len() as int) =~= acc);
    }
}

/// `apply` calls its callable with the list's items as the arguments, and
/// `map` calls its callable on each item alone and gives the list of the
/// results, in order.
pub proof fn law_apply_and_map_call_the_callable(p: SpecProgram, c: SpecCallable, items: Seq<SpecValue>, span: Span, fuel: nat)
    ensures
        call_builtin(p, Builtin::Apply, seq![SpecValue::Callable(c), SpecValue::List(items)], span, fuel)
            == call_callable(p, c, items, span, fuel),
        call_builtin(p, Builtin::MapEach, seq![SpecValue::Callable(c), SpecValue::List(items)], span, fuel)
            matches Ok(v) ==> v matches SpecValue::List(rs) && rs.len() == items.len() && forall|j: int|
            0 <= j < items.len() ==> call_callable(p, c, seq![#[trigger] items[j]], span, fuel) == Ok::<
                SpecValue,
                SpecVmError,
            >(rs[j]),
{
    lemma_map_items_each(p, c, items, span, fuel, 0, Seq::empty());
}

} // verus!
