//! Compilation of IR modules to bytecode.
//!
//! The model threads a compiler state (the constant pool and the function
//! table) and the state of the function being compiled (its local names, its
//! captured names and its instructions) through the expressions.
use vstd::prelude::*;

use crate::ir::ast::{
    Expr, ExprKind, Module, Node, SpecExpr, SpecExprKind, SpecModule, expr_view, exprs_view,
    lemma_exprs_view, lemma_exprs_view_push, lemma_exprs_view_take, lemma_strings_view_push, strings_view,
};
use crate::ir::bytecode::{
    Constant, ConstantId, Function, FunctionId, Instruction, Opcode, Program, SpecConstant,
    SpecFunction, SpecProgram, constants_view, functions_view, same_constant,
};
use crate::ir::lexer::Span;
use crate::text::{decimal, owned, push_decimal, str_eq, text_less, text_lt};

verus! {

#[derive(Clone, Copy, Debug, PartialEq, Eq)]
pub enum CompileError {
    IndexOverflow { kind: &'static str, value: usize },
    UnsupportedConstruct { detail: &'static str },
}

/// The constant pool and the function table.
pub struct CState {
    pub constants: Seq<SpecConstant>,
    pub functions: Seq<SpecFunction>,
}

/// The function being compiled.
pub struct FState {
    pub locals: Seq<Seq<char>>,
    pub captures: Seq<Seq<char>>,
    pub instructions: Seq<Instruction>,
}

pub enum NameResolution {
    Local(u16),
    Capture(u16),
    Builtin,
}

pub open spec fn emit(fc: FState, opcode: Opcode, span: Span) -> FState {
    FState { instructions: fc.instructions.push(Instruction { opcode, span }), ..fc }
}

/// The index of the first element of `s` equal to `x` at or after `i`, or
/// the length of `s`.
pub open spec fn index_in<T>(s: Seq<T>, x: T, i: int) -> int
    decreases s.len() - i,
{
    if i < 0 || i >= s.len() {
        s.len() as int
    } else if s[i] == x {
        i
    } else {
        index_in(s, x, i + 1)
    }
}

/// The pooled constant `k`: the index of an equal constant, or a new one.
pub open spec fn intern(st: CState, k: SpecConstant) -> Result<(CState, ConstantId), CompileError> {
    let i = index_in(st.constants, k, 0);
    if i < st.constants.len() {
        Ok((st, ConstantId(i as u16)))
    } else if st.constants.len() > 65535 {
        Err(CompileError::IndexOverflow { kind: "constants", value: st.constants.len() as usize })
    } else {
        Ok(
            (
                CState { constants: st.constants.push(k), ..st },
                ConstantId(st.constants.len() as u16),
            ),
        )
    }
}

pub open spec fn resolve(fc: FState, name: Seq<char>) -> NameResolution {
    let l = index_in(fc.locals, name, 0);
    let c = index_in(fc.captures, name, 0);
    if l < fc.locals.len() {
        NameResolution::Local(l as u16)
    } else if c < fc.captures.len() {
        NameResolution::Capture(c as u16)
    } else {
        NameResolution::Builtin
    }
}

pub open spec fn lambda_name(id: nat) -> Seq<char> {
    "lambda#"@ + decimal(id)
}

pub open spec fn placeholder(name: Seq<char>) -> SpecFunction {
    SpecFunction { name, arity: 0, locals: 0, captures: 0, instructions: Seq::empty() }
}

/// A new slot in the function table, for a `lambda`.
pub open spec fn reserve(st: CState) -> Result<(CState, u16), CompileError> {
    let n = st.functions.len();
    if n > 65535 {
        Err(CompileError::IndexOverflow { kind: "functions", value: n as usize })
    } else {
        Ok(
            (
                CState { functions: st.functions.push(placeholder(lambda_name(n))), ..st },
                n as u16,
            ),
        )
    }
}

pub open spec fn finish(name: Seq<char>, fc: FState) -> Result<SpecFunction, CompileError> {
    if fc.locals.len() > 65535 {
        Err(CompileError::IndexOverflow { kind: "function arity", value: fc.locals.len() as usize })
    } else if fc.captures.len() > 65535 {
        Err(
            CompileError::IndexOverflow {
                kind: "function captures",
                value: fc.captures.len() as usize,
            },
        )
    } else {
        Ok(
            SpecFunction {
                name,
                arity: fc.locals.len() as u16,
                locals: fc.locals.len() as u16,
                captures: fc.captures.len() as u16,
                instructions: fc.instructions,
            },
        )
    }
}

/// The position at which `x` goes in the sorted names `s`, from `i` on.
pub open spec fn insert_pos(s: Seq<Seq<char>>, x: Seq<char>, i: int) -> int
    decreases s.len() - i,
{
    if i < 0 || i >= s.len() || !text_lt(s[i], x) {
        i
    } else {
        insert_pos(s, x, i + 1)
    }
}

/// The sorted set of names `s` with `x` added.
pub open spec fn insert_name(s: Seq<Seq<char>>, x: Seq<char>) -> Seq<Seq<char>> {
    let i = insert_pos(s, x, 0);
    if 0 <= i < s.len() && s[i] == x {
        s
    } else {
        s.insert(i, x)
    }
}

/// The names that occur free in `e` and are not in `bound`, added to `free`.
pub open spec fn free_in(e: SpecExpr, bound: Seq<Seq<char>>, free: Seq<Seq<char>>) -> Seq<
    Seq<char>,
>
    decreases e,
{
    match e.kind {
        SpecExprKind::Symbol(name) => if bound.contains(name) {
            free
        } else {
            insert_name(free, name)
        },
        SpecExprKind::Call { callee, args } => free_in_all(args, bound, free_in(*callee, bound, free)),
        SpecExprKind::Lambda { params, body } => free_in_all(body, bound + params, free),
        _ => free,
    }
}

pub open spec fn free_in_all(es: Seq<SpecExpr>, bound: Seq<Seq<char>>, free: Seq<Seq<char>>) -> Seq<
    Seq<char>,
>
    decreases es,
{
    if es.len() == 0 {
        free
    } else {
        free_in(es.last(), bound, free_in_all(es.drop_last(), bound, free))
    }
}

/// The names that a function can capture: those that resolve to one of its
/// locals or captures.
pub open spec fn capturable(fc: FState, names: Seq<Seq<char>>) -> Seq<Seq<char>>
    decreases names.len(),
{
    if names.len() == 0 {
        Seq::empty()
    } else {
        let rest = capturable(fc, names.drop_last());
        if resolve(fc, names.last()) is Builtin {
            rest
        } else {
            rest.push(names.last())
        }
    }
}

/// The loads of the captured names, in order.
pub open spec fn load_captures(fc: FState, names: Seq<Seq<char>>, span: Span) -> Result<
    FState,
    CompileError,
>
    decreases names.len(),
{
    if names.len() == 0 {
        Ok(fc)
    } else {
        match load_captures(fc, names.drop_last(), span) {
            Err(e) => Err(e),
            Ok(f) => match resolve(fc, names.last()) {
                NameResolution::Local(slot) => Ok(emit(f, Opcode::LoadLocal { slot }, span)),
                NameResolution::Capture(slot) => Ok(emit(f, Opcode::LoadCapture { slot }, span)),
                NameResolution::Builtin => Err(
                    CompileError::UnsupportedConstruct { detail: "builtin cannot be captured" },
                ),
            },
        }
    }
}

/// Compiles `e` into the function `fc`; `mspan` is the span of the module.
pub open spec fn c_expr(st: CState, fc: FState, e: SpecExpr, mspan: Span) -> Result<
    (CState, FState),
    CompileError,
>
    decreases e,
{
    match e.kind {
        SpecExprKind::String(t) => match intern(st, SpecConstant::String(t)) {
            Err(err) => Err(err),
            Ok((st2, id)) => Ok((st2, emit(fc, Opcode::PushConst { id }, e.span))),
        },
        SpecExprKind::Bool(b) => match intern(st, SpecConstant::Bool(b)) {
            Err(err) => Err(err),
            Ok((st2, id)) => Ok((st2, emit(fc, Opcode::PushConst { id }, e.span))),
        },
        SpecExprKind::Symbol(name) => match resolve(fc, name) {
            NameResolution::Local(slot) => Ok((st, emit(fc, Opcode::LoadLocal { slot }, e.span))),
            NameResolution::Capture(slot) => Ok(
                (st, emit(fc, Opcode::LoadCapture { slot }, e.span)),
            ),
            NameResolution::Builtin => match intern(st, SpecConstant::String(name)) {
                Err(err) => Err(err),
                Ok((st2, id)) => Ok((st2, emit(fc, Opcode::LoadBuiltin { name: id }, e.span))),
            },
        },
        SpecExprKind::Call { callee, args } => match c_expr(st, fc, *callee, mspan) {
            Err(err) => Err(err),
            Ok((st2, fc2)) => match c_exprs(st2, fc2, args, mspan) {
                Err(err) => Err(err),
                Ok((st3, fc3)) => if args.len() > 65535 {
                    Err(
                        CompileError::IndexOverflow {
                            kind: "call arguments",
                            value: args.len() as usize,
                        },
                    )
                } else {
                    Ok((st3, emit(fc3, Opcode::Call { argc: args.len() as u16 }, e.span)))
                },
            },
        },
        SpecExprKind::Lambda { params, body } => {
            let caps = capturable(fc, free_in_all(body, params, Seq::empty()));
            match reserve(st) {
                Err(err) => Err(err),
                Ok((st1, id)) => match c_body(
                    st1,
                    FState { locals: params, captures: caps, instructions: Seq::empty() },
                    body,
                    mspan,
                ) {
                    Err(err) => Err(err),
                    Ok((st2, lfc)) => match finish(lambda_name(id as nat), lfc) {
                        Err(err) => Err(err),
                        Ok(f) => match load_captures(fc, caps, e.span) {
                            Err(err) => Err(err),
                            Ok(fc2) => if caps.len() > 65535 {
                                Err(
                                    CompileError::IndexOverflow {
                                        kind: "closure captures",
                                        value: caps.len() as usize,
                                    },
                                )
                            } else {
                                Ok(
                                    (
                                        CState {
                                            functions: st2.functions.update(id as int, f),
                                            ..st2
                                        },
                                        emit(
                                            fc2,
                                            Opcode::MakeClosure {
                                                function: FunctionId(id),
                                                captures: caps.len() as u16,
                                            },
                                            e.span,
                                        ),
                                    ),
                                )
                            },
                        },
                    },
                },
            }
        },
    }
}

/// Compiles the expressions in order.
pub open spec fn c_exprs(st: CState, fc: FState, es: Seq<SpecExpr>, mspan: Span) -> Result<
    (CState, FState),
    CompileError,
>
    decreases es,
{
    if es.len() == 0 {
        Ok((st, fc))
    } else {
        match c_exprs(st, fc, es.drop_last(), mspan) {
            Err(err) => Err(err),
            Ok((st2, fc2)) => c_expr(st2, fc2, es.last(), mspan),
        }
    }
}

/// Compiles the expressions in order, each followed by a `Pop`.
pub open spec fn c_popped(st: CState, fc: FState, es: Seq<SpecExpr>, mspan: Span) -> Result<
    (CState, FState),
    CompileError,
>
    decreases es,
{
    if es.len() == 0 {
        Ok((st, fc))
    } else {
        match c_popped(st, fc, es.drop_last(), mspan) {
            Err(err) => Err(err),
            Ok((st2, fc2)) => match c_expr(st2, fc2, es.last(), mspan) {
                Err(err) => Err(err),
                Ok((st3, fc3)) => Ok((st3, emit(fc3, Opcode::Pop, es.last().span))),
            },
        }
    }
}

/// A function body: every value but the last is dropped, the last is
/// returned.
pub open spec fn c_body(st: CState, fc: FState, body: Seq<SpecExpr>, mspan: Span) -> Result<
    (CState, FState),
    CompileError,
>
    decreases body,
{
    if body.len() == 0 {
        Ok((st, emit(fc, Opcode::Return, mspan)))
    } else {
        match c_popped(st, fc, body.drop_last(), mspan) {
            Err(err) => Err(err),
            Ok((st2, fc2)) => match c_expr(st2, fc2, body.last(), mspan) {
                Err(err) => Err(err),
                Ok((st3, fc3)) => Ok((st3, emit(fc3, Opcode::Return, body.last().span))),
            },
        }
    }
}

pub open spec fn initial_state() -> CState {
    CState { constants: Seq::empty(), functions: seq![placeholder("module"@)] }
}

/// The program that a module compiles to, from a compiler state.
pub open spec fn compile_from(st: CState, m: SpecModule) -> Result<SpecProgram, CompileError> {
    let fc0 = FState { locals: Seq::empty(), captures: Seq::empty(), instructions: Seq::empty() };
    match c_expr(st, fc0, m.body, m.span) {
        Err(err) => Err(err),
        Ok((st2, fc)) => match finish("module"@, emit(fc, Opcode::Return, m.span)) {
            Err(err) => Err(err),
            Ok(f) => Ok(
                SpecProgram {
                    version: m.version,
                    metadata_span: m.metadata_span,
                    constants: st2.constants,
                    functions: st2.functions.update(0, f),
                    entry: FunctionId(0),
                },
            ),
        },
    }
}

/// The program that a module compiles to.
pub open spec fn compile_spec(m: SpecModule) -> Result<SpecProgram, CompileError> {
    compile_from(initial_state(), m)
}


/// Facts about `index_in`: it lies between `i` and the length, it finds
/// `x`, and nothing before it from `i` on is `x`.
pub proof fn lemma_index_in<T>(s: Seq<T>, x: T, i: int)
    requires
        0 <= i <= s.len(),
    ensures
        i <= index_in(s, x, i) <= s.len(),
        index_in(s, x, i) < s.len() ==> s[index_in(s, x, i)] == x,
        forall|j: int| i <= j < index_in(s, x, i) ==> s[j] != x,
    decreases s.len() - i,
{
    if i < s.len() && s[i] != x {
        lemma_index_in(s, x, i + 1);
    }
}

/// Whether `x` occurs in `s`, in terms of `index_in`.
pub proof fn lemma_index_in_contains<T>(s: Seq<T>, x: T)
    ensures
        (index_in(s, x, 0) < s.len()) == s.contains(x),
{
    lemma_index_in(s, x, 0);
    if s.contains(x) {
        let j = choose|j: int| 0 <= j < s.len() && s[j] == x;
        assert(!(index_in(s, x, 0) == s.len()) || s[j] != x);
    }
}

/// The position of the first name in `names` equal to `name`, or the
/// number of names.
fn find_name(names: &Vec<String>, name: &String) -> (r: usize)
    ensures
        r == index_in(strings_view(names@), name@, 0),
{
    let ghost sv = strings_view(names@);
    let mut i: usize = 0;
    while i < names.len()
        invariant
            sv == strings_view(names@),
            0 <= i <= names@.len(),
            index_in(sv, name@, 0) == index_in(sv, name@, i as int),
        decreases names@.len() - i,
    {
        if str_eq(names[i].as_str(), name.as_str()) {
            return i;
        }
        i += 1;
    }
    i
}

/// Whether `name` is one of `names`.
fn has_name(names: &Vec<String>, name: &String) -> (r: bool)
    ensures
        r == strings_view(names@).contains(name@),
{
    proof {
        lemma_index_in_contains(strings_view(names@), name@);
    }
    find_name(names, name) < names.len()
}

/// Adds `x` to the sorted set of names `s`.
fn insert_sorted(s: &mut Vec<String>, x: &String)
    ensures
        strings_view(final(s)@) == insert_name(strings_view(old(s)@), x@),
{
    let ghost sv = strings_view(s@);
    let mut i: usize = 0;
    while i < s.len() && text_less(&s[i], x)
        invariant
            sv == strings_view(s@),
            0 <= i <= s@.len(),
            insert_pos(sv, x@, 0) == insert_pos(sv, x@, i as int),
        decreases s@.len() - i,
    {
        i += 1;
    }
    assert(insert_pos(sv, x@, i as int) == i);
    if i < s.len() && str_eq(s[i].as_str(), x.as_str()) {
        return;
    }
    s.insert(i, x.clone());
    assert(strings_view(s@) =~= sv.insert(i as int, x@));
}

/// A copy of a list of names.
fn clone_names(v: &Vec<String>) -> (r: Vec<String>)
    ensures
        strings_view(r@) == strings_view(v@),
{
    let mut out: Vec<String> = Vec::new();
    let mut i: usize = 0;
    while i < v.len()
        invariant
            0 <= i <= v@.len(),
            strings_view(out@) == strings_view(v@.take(i as int)),
        decreases v@.len() - i,
    {
        let c = v[i].clone();
        proof {
            assert(v@.take(i + 1) =~= v@.take(i as int).push(v@[i as int]));
            lemma_strings_view_push(out@, c);
            lemma_strings_view_push(v@.take(i as int), v@[i as int]);
        }
        out.push(c);
        i += 1;
    }
    assert(v@.take(v@.len() as int) =~= v@);
    out
}

/// Appends copies of the names of `extra` to `out`.
fn append_names(out: &mut Vec<String>, extra: &Vec<String>)
    ensures
        strings_view(final(out)@) == strings_view(old(out)@) + strings_view(extra@),
{
    let ghost o = strings_view(out@);
    let mut i: usize = 0;
    while i < extra.len()
        invariant
            0 <= i <= extra@.len(),
            strings_view(out@) == o + strings_view(extra@.take(i as int)),
        decreases extra@.len() - i,
    {
        let c = extra[i].clone();
        proof {
            assert(extra@.take(i + 1) =~= extra@.take(i as int).push(extra@[i as int]));
            lemma_strings_view_push(out@, c);
            lemma_strings_view_push(extra@.take(i as int), extra@[i as int]);
            assert(o + strings_view(extra@.take(i + 1)) =~= (o + strings_view(
                extra@.take(i as int),
            )).push(c@));
        }
        out.push(c);
        i += 1;
    }
    assert(extra@.take(extra@.len() as int) =~= extra@);
}

/// Adds the names free in `expr` and not in `bound` to `free`.
fn collect_free_names(expr: &Expr, bound: &Vec<String>, free: &mut Vec<String>)
    ensures
        strings_view(final(free)@) == free_in(
            expr_view(*expr),
            strings_view(bound@),
            strings_view(old(free)@),
        ),
    decreases expr,
{
    match &expr.kind {
        ExprKind::String(_) => {},
        ExprKind::Bool(_) => {},
        ExprKind::Symbol(name) => {
            if !has_name(bound, name) {
                insert_sorted(free, name);
            }
        },
        ExprKind::Call { callee, args } => {
            collect_free_names(callee, bound, free);
            collect_free_names_all(args, bound, free);
        },
        ExprKind::Lambda { params, body } => {
            let mut child = clone_names(bound);
            append_names(&mut child, params);
            collect_free_names_all(body, &child, free);
        },
    }
}

/// Adds the names free in each of `es` and not in `bound` to `free`.
fn collect_free_names_all(es: &Vec<Expr>, bound: &Vec<String>, free: &mut Vec<String>)
    ensures
        strings_view(final(free)@) == free_in_all(
            exprs_view(es@),
            strings_view(bound@),
            strings_view(old(free)@),
        ),
    decreases es,
{
    let ghost f0 = strings_view(free@);
    let ghost bv = strings_view(bound@);
    let mut i: usize = 0;
    assert(exprs_view(es@.take(0)) =~= Seq::<SpecExpr>::empty());
    while i < es.len()
        invariant
            0 <= i <= es@.len(),
            bv == strings_view(bound@),
            strings_view(free@) == free_in_all(exprs_view(es@.take(i as int)), bv, f0),
        decreases es@.len() - i,
    {
        proof {
            assert(es@.take(i + 1) =~= es@.take(i as int).push(es@[i as int]));
            lemma_exprs_view_push(es@.take(i as int), es@[i as int]);
            assert(exprs_view(es@.take(i + 1)).drop_last() =~= exprs_view(es@.take(i as int)));
        }
        collect_free_names(&es[i], bound, free);
        i += 1;
    }
    assert(es@.take(es@.len() as int) =~= es@);
}


/// An error in compiling a prefix of a list is the error of the whole list.
pub proof fn lemma_c_exprs_err(st: CState, fc: FState, es: Seq<SpecExpr>, k: int, mspan: Span)
    requires
        0 <= k <= es.len(),
        c_exprs(st, fc, es.take(k), mspan) is Err,
    ensures
        c_exprs(st, fc, es, mspan) == c_exprs(st, fc, es.take(k), mspan),
    decreases es.len(),
{
    if k == es.len() {
        assert(es.take(k) =~= es);
    } else {
        assert(es.drop_last().take(k) =~= es.take(k));
        lemma_c_exprs_err(st, fc, es.drop_last(), k, mspan);
    }
}

/// An error in compiling a prefix of a list is the error of the whole list.
pub proof fn lemma_c_popped_err(st: CState, fc: FState, es: Seq<SpecExpr>, k: int, mspan: Span)
    requires
        0 <= k <= es.len(),
        c_popped(st, fc, es.take(k), mspan) is Err,
    ensures
        c_popped(st, fc, es, mspan) == c_popped(st, fc, es.take(k), mspan),
    decreases es.len(),
{
    if k == es.len() {
        assert(es.take(k) =~= es);
    } else {
        assert(es.drop_last().take(k) =~= es.take(k));
        lemma_c_popped_err(st, fc, es.drop_last(), k, mspan);
    }
}

/// An error in loading a prefix of the captures is the error of them all.
pub proof fn lemma_load_captures_err(fc: FState, names: Seq<Seq<char>>, k: int, span: Span)
    requires
        0 <= k <= names.len(),
        load_captures(fc, names.take(k), span) is Err,
    ensures
        load_captures(fc, names, span) == load_captures(fc, names.take(k), span),
    decreases names.len(),
{
    if k == names.len() {
        assert(names.take(k) =~= names);
    } else {
        assert(names.drop_last().take(k) =~= names.take(k));
        lemma_load_captures_err(fc, names.drop_last(), k, span);
    }
}

/// Compiles an IR module into bytecode.
pub struct Compiler<'a> {
    module: &'a Module,
    program: Program,
}

/// The outcome of a compilation step, as the model sees it.
pub open spec fn step_outcome<T>(r: Result<T, CompileError>, st: CState, fc: FState) -> Result<
    (CState, FState),
    CompileError,
> {
    match r {
        Ok(_) => Ok((st, fc)),
        Err(e) => Err(e),
    }
}

/// A compiled program, as the model sees it.
pub open spec fn program_outcome(r: Result<Program, CompileError>) -> Result<
    SpecProgram,
    CompileError,
> {
    match r {
        Ok(p) => Ok(p@),
        Err(e) => Err(e),
    }
}

/// The function that holds a program's entry point before it is compiled.
fn placeholder_function(name: String) -> (r: Function)
    ensures
        r@ == placeholder(name@),
{
    let instructions: Vec<Instruction> = Vec::new();
    Function { name, arity: 0, locals: 0, captures: 0, instructions }
}

impl<'a> Compiler<'a> {
    /// The constant pool and the function table built so far.
    pub closed spec fn state(&self) -> CState {
        CState {
            constants: constants_view(self.program.constants@),
            functions: functions_view(self.program.functions@),
        }
    }

    /// The module being compiled.
    pub closed spec fn source(&self) -> SpecModule {
        self.module@
    }

    /// The program under construction carries the module's metadata and
    /// keeps its entry function in slot 0.
    pub closed spec fn wf(&self) -> bool {
        &&& self.program.functions@.len() >= 1
        &&& self.program.version@ == self.module.metadata.version@
        &&& self.program.metadata_span == self.module.metadata.span
        &&& self.program.entry == FunctionId(0)
    }

    pub fn new(module: &'a Module) -> (r: Self)
        ensures
            r.wf(),
            r.state() == initial_state(),
            r.source() == module@,
    {
        let mut functions: Vec<Function> = Vec::new();
        functions.push(placeholder_function(owned("module")));
        let constants: Vec<Constant> = Vec::new();
        let r = Compiler {
            module,
            program: Program {
                version: module.metadata.version.clone(),
                metadata_span: module.metadata.span,
                constants,
                functions,
                entry: FunctionId(0),
            },
        };
        assert(r.state().constants =~= Seq::<SpecConstant>::empty());
        assert(r.state().functions =~= seq![placeholder("module"@)]);
        r
    }

    /// The id of `constant` in the pool: that of an equal constant already
    /// pooled, or a new one.
    pub fn intern_constant(&mut self, constant: Constant) -> (r: Result<ConstantId, CompileError>)
        requires
            old(self).wf(),
        ensures
            final(self).wf(),
            final(self).source() == old(self).source(),
            final(self).state().functions == old(self).state().functions,
            match intern(old(self).state(), constant@) {
                Ok((st, id)) => r == Ok::<ConstantId, CompileError>(id) && final(self).state()
                    == st,
                Err(e) => r == Err::<ConstantId, CompileError>(e) && final(self).state()
                    == old(self).state(),
            },
    {
        let ghost cv = constants_view(self.program.constants@);
        let mut i: usize = 0;
        while i < self.program.constants.len()
            invariant
                *self == *old(self),
                self.wf(),
                cv == constants_view(self.program.constants@),
                0 <= i <= self.program.constants@.len(),
                index_in(cv, constant@, 0) == index_in(cv, constant@, i as int),
            decreases self.program.constants@.len() - i,
        {
            if same_constant(&self.program.constants[i], &constant) {
                return Ok(ConstantId(i as u16));
            }
            i += 1;
        }
        let n = self.program.constants.len();
        if n > 65535 {
            return Err(CompileError::IndexOverflow { kind: "constants", value: n });
        }
        self.program.constants.push(constant);
        assert(constants_view(self.program.constants@) =~= cv.push(constant@));
        Ok(ConstantId(n as u16))
    }

    /// A new slot in the function table, for a `lambda`.
    fn reserve_function_slot(&mut self) -> (r: Result<u16, CompileError>)
        requires
            old(self).wf(),
        ensures
            final(self).wf(),
            final(self).source() == old(self).source(),
            final(self).program.functions@.len() >= old(self).program.functions@.len(),
            r is Ok ==> r->Ok_0 == old(self).program.functions@.len()
                && final(self).program.functions@.len() == old(self).program.functions@.len() + 1,
            match reserve(old(self).state()) {
                Ok((st, id)) => r == Ok::<u16, CompileError>(id) && final(self).state() == st,
                Err(e) => r == Err::<u16, CompileError>(e),
            },
    {
        let n = self.program.functions.len();
        if n > 65535 {
            return Err(CompileError::IndexOverflow { kind: "functions", value: n });
        }
        let mut name = owned("lambda#");
        push_decimal(&mut name, n as u64);
        let f = placeholder_function(name);
        let ghost fv = functions_view(self.program.functions@);
        self.program.functions.push(f);
        assert(functions_view(self.program.functions@) =~= fv.push(placeholder(lambda_name(n as nat))));
        Ok(n as u16)
    }

    /// Compiles the module into a program.
    pub fn compile(self) -> (r: Result<Program, CompileError>)
        requires
            self.wf(),
        ensures
            program_outcome(r) == compile_from(self.state(), self.source()),
    {
        let mut this = self;
        let module = this.module;
        let mut entry = FunctionCompiler::new(owned("module"), Vec::new(), Vec::new());
        assert(entry.fstate().locals =~= Seq::<Seq<char>>::empty());
        assert(entry.fstate().captures =~= Seq::<Seq<char>>::empty());
        let ghost st0 = this.state();
        let ghost fc0 = entry.fstate();
        match entry.compile_expr(&mut this, &module.body) {
            Ok(()) => {},
            Err(e) => {
                return Err(e);
            },
        }
        entry.emit(Opcode::Return, module.span);
        let f = match entry.finish() {
            Ok(f) => f,
            Err(e) => {
                return Err(e);
            },
        };
        let ghost fv = functions_view(this.program.functions@);
        this.program.functions.set(0, f);
        assert(functions_view(this.program.functions@) =~= fv.update(0, f@));
        Ok(this.program)
    }
}

/// Compiles an IR module into bytecode.
pub fn compile_module(module: &Module) -> (r: Result<Program, CompileError>)
    ensures
        program_outcome(r) == compile_spec(module@),
{
    Compiler::new(module).compile()
}

/// The compiler of one function: its local names, its captured names and
/// the instructions emitted so far.
struct FunctionCompiler {
    name: String,
    locals: Vec<String>,
    captures: Vec<String>,
    instructions: Vec<Instruction>,
}

impl FunctionCompiler {
    spec fn fstate(&self) -> FState {
        FState {
            locals: strings_view(self.locals@),
            captures: strings_view(self.captures@),
            instructions: self.instructions@,
        }
    }

    fn new(name: String, locals: Vec<String>, captures: Vec<String>) -> (r: Self)
        ensures
            r.name@ == name@,
            r.fstate() == (FState {
                locals: strings_view(locals@),
                captures: strings_view(captures@),
                instructions: Seq::empty(),
            }),
    {
        let instructions: Vec<Instruction> = Vec::new();
        FunctionCompiler { name, locals, captures, instructions }
    }

    fn emit(&mut self, opcode: Opcode, span: Span)
        ensures
            final(self).fstate() == emit(old(self).fstate(), opcode, span),
            final(self).name == old(self).name,
    {
        self.instructions.push(Instruction { opcode, span });
    }

    fn resolve_name(&self, name: &String) -> (r: NameResolution)
        ensures
            r == resolve(self.fstate(), name@),
    {
        let l = find_name(&self.locals, name);
        if l < self.locals.len() {
            return NameResolution::Local(l as u16);
        }
        let c = find_name(&self.captures, name);
        if c < self.captures.len() {
            return NameResolution::Capture(c as u16);
        }
        NameResolution::Builtin
    }

    fn finish(self) -> (r: Result<Function, CompileError>)
        ensures
            match finish(self.name@, self.fstate()) {
                Ok(f) => r is Ok && r->Ok_0@ == f,
                Err(e) => r == Err::<Function, CompileError>(e),
            },
    {
        let nl = self.locals.len();
        if nl > 65535 {
            return Err(CompileError::IndexOverflow { kind: "function arity", value: nl });
        }
        let nc = self.captures.len();
        if nc > 65535 {
            return Err(CompileError::IndexOverflow { kind: "function captures", value: nc });
        }
        Ok(
            Function {
                name: self.name,
                arity: nl as u16,
                locals: nl as u16,
                captures: nc as u16,
                instructions: self.instructions,
            },
        )
    }

    /// The names of `names` that resolve to a local or a capture here.
    fn capturable_names(&self, names: &Vec<String>) -> (r: Vec<String>)
        ensures
            strings_view(r@) == capturable(self.fstate(), strings_view(names@)),
    {
        let ghost nv = strings_view(names@);
        let mut out: Vec<String> = Vec::new();
        let mut i: usize = 0;
        assert(nv.take(0) =~= Seq::<Seq<char>>::empty());
        while i < names.len()
            invariant
                nv == strings_view(names@),
                0 <= i <= names@.len(),
                strings_view(out@) == capturable(self.fstate(), nv.take(i as int)),
            decreases names@.len() - i,
        {
            proof {
                assert(nv.take(i + 1).drop_last() =~= nv.take(i as int));
            }
            match self.resolve_name(&names[i]) {
                NameResolution::Builtin => {},
                _ => {
                    let c = names[i].clone();
                    proof {
                        lemma_strings_view_push(out@, c);
                    }
                    out.push(c);
                },
            }
            i += 1;
        }
        assert(nv.take(names@.len() as int) =~= nv);
        out
    }

    /// Loads the captured names, in order.
    fn load_capture_names(&mut self, caps: &Vec<String>, span: Span) -> (r: Result<(), CompileError>)
        ensures
            final(self).name == old(self).name,
            final(self).fstate().locals == old(self).fstate().locals,
            final(self).fstate().captures == old(self).fstate().captures,
            match load_captures(old(self).fstate(), strings_view(caps@), span) {
                Ok(f) => r is Ok && final(self).fstate() == f,
                Err(e) => r == Err::<(), CompileError>(e),
            },
    {
        let ghost fc0 = self.fstate();
        let ghost cv = strings_view(caps@);
        let mut i: usize = 0;
        assert(cv.take(0) =~= Seq::<Seq<char>>::empty());
        while i < caps.len()
            invariant
                cv == strings_view(caps@),
                0 <= i <= caps@.len(),
                self.fstate().locals == old(self).fstate().locals,
                self.fstate().captures == old(self).fstate().captures,
                self.name == old(self).name,
                fc0 == old(self).fstate(),
                load_captures(fc0, cv.take(i as int), span) == Ok::<FState, CompileError>(
                    self.fstate(),
                ),
            decreases caps@.len() - i,
        {
            proof {
                assert(cv.take(i + 1).drop_last() =~= cv.take(i as int));
                assert(cv.take(i + 1).last() == caps@[i as int]@);
            }
            match self.resolve_name(&caps[i]) {
                NameResolution::Local(slot) => self.emit(Opcode::LoadLocal { slot }, span),
                NameResolution::Capture(slot) => self.emit(Opcode::LoadCapture { slot }, span),
                NameResolution::Builtin => {
                    proof {
                        lemma_load_captures_err(fc0, cv, i + 1, span);
                    }
                    return Err(
                        CompileError::UnsupportedConstruct { detail: "builtin cannot be captured" },
                    );
                },
            }
            i += 1;
        }
        assert(cv.take(caps@.len() as int) =~= cv);
        Ok(())
    }

    /// Compiles one expression, leaving its value on the stack.
    fn compile_expr(&mut self, compiler: &mut Compiler, expr: &Expr) -> (r: Result<(), CompileError>)
        requires
            old(compiler).wf(),
        ensures
            final(compiler).wf(),
            final(compiler).source() == old(compiler).source(),
            final(compiler).program.functions@.len() >= old(compiler).program.functions@.len(),
            final(self).name == old(self).name,
            final(self).fstate().locals == old(self).fstate().locals,
            final(self).fstate().captures == old(self).fstate().captures,
            step_outcome(r, final(compiler).state(), final(self).fstate()) == c_expr(
                old(compiler).state(),
                old(self).fstate(),
                expr_view(*expr),
                old(compiler).source().span,
            ),
        decreases expr, 2nat,
    {
        match &expr.kind {
            ExprKind::String(text) => {
                let id = match compiler.intern_constant(Constant::String(text.clone())) {
                    Ok(id) => id,
                    Err(e) => {
                        return Err(e);
                    },
                };
                self.emit(Opcode::PushConst { id }, expr.span);
                Ok(())
            },
            ExprKind::Bool(value) => {
                let id = match compiler.intern_constant(Constant::Bool(*value)) {
                    Ok(id) => id,
                    Err(e) => {
                        return Err(e);
                    },
                };
                self.emit(Opcode::PushConst { id }, expr.span);
                Ok(())
            },
            ExprKind::Symbol(name) => {
                match self.resolve_name(name) {
                    NameResolution::Local(slot) => self.emit(Opcode::LoadLocal { slot }, expr.span),
                    NameResolution::Capture(slot) => self.emit(
                        Opcode::LoadCapture { slot },
                        expr.span,
                    ),
                    NameResolution::Builtin => {
                        let id = match compiler.intern_constant(Constant::String(name.clone())) {
                            Ok(id) => id,
                            Err(e) => {
                                return Err(e);
                            },
                        };
                        self.emit(Opcode::LoadBuiltin { name: id }, expr.span);
                    },
                }
                Ok(())
            },
            ExprKind::Call { callee, args } => {
                match self.compile_expr(compiler, callee) {
                    Ok(()) => {},
                    Err(e) => {
                        return Err(e);
                    },
                }
                match self.compile_exprs(compiler, args) {
                    Ok(()) => {},
                    Err(e) => {
                        return Err(e);
                    },
                }
                let n = args.len();
                proof {
                    lemma_exprs_view(args@);
                }
                if n > 65535 {
                    return Err(CompileError::IndexOverflow { kind: "call arguments", value: n });
                }
                self.emit(Opcode::Call { argc: n as u16 }, expr.span);
                Ok(())
            },
            ExprKind::Lambda { params, body } => self.compile_lambda(
                compiler,
                params,
                body,
                expr.span,
            ),
        }
    }

    /// Compiles a `lambda` into a function of its own, and here the loads of
    /// its captures and the closure.
    fn compile_lambda(
        &mut self,
        compiler: &mut Compiler,
        params: &Vec<String>,
        body: &Vec<Expr>,
        span: Span,
    ) -> (r: Result<(), CompileError>)
        requires
            old(compiler).wf(),
        ensures
            final(compiler).wf(),
            final(compiler).source() == old(compiler).source(),
            final(compiler).program.functions@.len() >= old(compiler).program.functions@.len(),
            final(self).name == old(self).name,
            final(self).fstate().locals == old(self).fstate().locals,
            final(self).fstate().captures == old(self).fstate().captures,
            step_outcome(r, final(compiler).state(), final(self).fstate()) == c_expr(
                old(compiler).state(),
                old(self).fstate(),
                Node {
                    kind: SpecExprKind::Lambda {
                        params: strings_view(params@),
                        body: exprs_view(body@),
                    },
                    span,
                },
                old(compiler).source().span,
            ),
        decreases body, 1nat,
    {
        let mut free: Vec<String> = Vec::new();
        assert(strings_view(free@) =~= Seq::<Seq<char>>::empty());
        collect_free_names_all(body, params, &mut free);
        let captures = self.capturable_names(&free);
        let id = match compiler.reserve_function_slot() {
            Ok(id) => id,
            Err(e) => {
                return Err(e);
            },
        };
        let mut name = owned("lambda#");
        push_decimal(&mut name, id as u64);
        let mut lambda = FunctionCompiler::new(name, clone_names(params), clone_names(&captures));
        match lambda.compile_body(compiler, body) {
            Ok(()) => {},
            Err(e) => {
                return Err(e);
            },
        }
        let f = match lambda.finish() {
            Ok(f) => f,
            Err(e) => {
                return Err(e);
            },
        };
        let ghost fv = functions_view(compiler.program.functions@);
        compiler.program.functions.set(id as usize, f);
        assert(functions_view(compiler.program.functions@) =~= fv.update(id as int, f@));
        match self.load_capture_names(&captures, span) {
            Ok(()) => {},
            Err(e) => {
                return Err(e);
            },
        }
        let nc = captures.len();
        if nc > 65535 {
            return Err(CompileError::IndexOverflow { kind: "closure captures", value: nc });
        }
        self.emit(Opcode::MakeClosure { function: FunctionId(id), captures: nc as u16 }, span);
        Ok(())
    }

    /// Compiles the expressions in order.
    fn compile_exprs(&mut self, compiler: &mut Compiler, es: &Vec<Expr>) -> (r: Result<
        (),
        CompileError,
    >)
        requires
            old(compiler).wf(),
        ensures
            final(compiler).wf(),
            final(compiler).source() == old(compiler).source(),
            final(compiler).program.functions@.len() >= old(compiler).program.functions@.len(),
            final(self).name == old(self).name,
            final(self).fstate().locals == old(self).fstate().locals,
            final(self).fstate().captures == old(self).fstate().captures,
            step_outcome(r, final(compiler).state(), final(self).fstate()) == c_exprs(
                old(compiler).state(),
                old(self).fstate(),
                exprs_view(es@),
                old(compiler).source().span,
            ),
        decreases es, 0nat,
    {
        let ghost st0 = compiler.state();
        let ghost fc0 = self.fstate();
        let ghost mspan = compiler.source().span;
        let mut i: usize = 0;
        assert(exprs_view(es@.take(0)) =~= Seq::<SpecExpr>::empty());
        while i < es.len()
            invariant
                0 <= i <= es@.len(),
                compiler.wf(),
                compiler.source() == old(compiler).source(),
                mspan == compiler.source().span,
                compiler.program.functions@.len() >= old(compiler).program.functions@.len(),
                self.name == old(self).name,
                self.fstate().locals == old(self).fstate().locals,
                self.fstate().captures == old(self).fstate().captures,
                st0 == old(compiler).state(),
                fc0 == old(self).fstate(),
                c_exprs(st0, fc0, exprs_view(es@.take(i as int)), mspan) == Ok::<
                    (CState, FState),
                    CompileError,
                >((compiler.state(), self.fstate())),
            decreases es@.len() - i,
        {
            proof {
                assert(es@.take(i + 1) =~= es@.take(i as int).push(es@[i as int]));
                lemma_exprs_view_push(es@.take(i as int), es@[i as int]);
                assert(exprs_view(es@.take(i + 1)).drop_last() =~= exprs_view(es@.take(i as int)));
            }
            match self.compile_expr(compiler, &es[i]) {
                Ok(()) => {},
                Err(e) => {
                    proof {
                        lemma_exprs_view(es@);
                        lemma_exprs_view_take(es@, i + 1);
                        lemma_c_exprs_err(st0, fc0, exprs_view(es@), i + 1, mspan);
                    }
                    return Err(e);
                },
            }
            i += 1;
        }
        assert(es@.take(es@.len() as int) =~= es@);
        Ok(())
    }

    /// Compiles a function body: every value but the last is dropped, the
    /// last is returned.
    fn compile_body(&mut self, compiler: &mut Compiler, body: &Vec<Expr>) -> (r: Result<
        (),
        CompileError,
    >)
        requires
            old(compiler).wf(),
        ensures
            final(compiler).wf(),
            final(compiler).source() == old(compiler).source(),
            final(compiler).program.functions@.len() >= old(compiler).program.functions@.len(),
            final(self).name == old(self).name,
            final(self).fstate().locals == old(self).fstate().locals,
            final(self).fstate().captures == old(self).fstate().captures,
            step_outcome(r, final(compiler).state(), final(self).fstate()) == c_body(
                old(compiler).state(),
                old(self).fstate(),
                exprs_view(body@),
                old(compiler).source().span,
            ),
        decreases body, 0nat,
    {
        let ghost st0 = compiler.state();
        let ghost fc0 = self.fstate();
        let ghost mspan = compiler.source().span;
        let n = body.len();
        proof {
            lemma_exprs_view(body@);
        }
        if n == 0 {
            self.emit(Opcode::Return, compiler.module.span);
            return Ok(());
        }
        let mut i: usize = 0;
        assert(exprs_view(body@.take(0)) =~= Seq::<SpecExpr>::empty());
        while i + 1 < n
            invariant
                n == body@.len(),
                0 <= i < n,
                compiler.wf(),
                compiler.source() == old(compiler).source(),
                mspan == compiler.source().span,
                compiler.program.functions@.len() >= old(compiler).program.functions@.len(),
                self.name == old(self).name,
                self.fstate().locals == old(self).fstate().locals,
                self.fstate().captures == old(self).fstate().captures,
                st0 == old(compiler).state(),
                fc0 == old(self).fstate(),
                c_popped(st0, fc0, exprs_view(body@.take(i as int)), mspan) == Ok::<
                    (CState, FState),
                    CompileError,
                >((compiler.state(), self.fstate())),
            decreases n - i,
        {
            proof {
                assert(body@.take(i + 1) =~= body@.take(i as int).push(body@[i as int]));
                lemma_exprs_view_push(body@.take(i as int), body@[i as int]);
                assert(exprs_view(body@.take(i + 1)).drop_last() =~= exprs_view(
                    body@.take(i as int),
                ));
            }
            match self.compile_expr(compiler, &body[i]) {
                Ok(()) => {},
                Err(e) => {
                    proof {
                        lemma_exprs_view(body@.take(n - 1));
                        assert(body@.take(n - 1).take(i + 1) =~= body@.take(i + 1));
                        lemma_exprs_view_take(body@.take(n - 1), i + 1);
                        lemma_exprs_view_take(body@, n - 1);
                        lemma_c_popped_err(st0, fc0, exprs_view(body@.take(n - 1)), i + 1, mspan);
                        assert(exprs_view(body@).drop_last() =~= exprs_view(body@).take(n - 1));
                    }
                    return Err(e);
                },
            }
            self.emit(Opcode::Pop, body[i].span);
            i += 1;
        }
        proof {
            assert(body@ =~= body@.take(i as int).push(body@[i as int]));
            lemma_exprs_view_push(body@.take(i as int), body@[i as int]);
            assert(exprs_view(body@).drop_last() =~= exprs_view(body@.take(i as int)));
        }
        match self.compile_expr(compiler, &body[i]) {
            Ok(()) => {},
            Err(e) => {
                return Err(e);
            },
        }
        self.emit(Opcode::Return, body[i].span);
        Ok(())
    }
}


/// No constant occurs twice in the pool.
pub open spec fn pool_distinct(cs: Seq<SpecConstant>) -> bool {
    forall|i: int, j: int| 0 <= i < j < cs.len() ==> cs[i] != cs[j]
}

proof fn lemma_intern_pool(st: CState, k: SpecConstant)
    requires
        pool_distinct(st.constants),
        intern(st, k) is Ok,
    ensures
        pool_distinct(intern(st, k)->Ok_0.0.constants),
        intern(st, k)->Ok_0.0.functions == st.functions,
{
    lemma_index_in(st.constants, k, 0);
}

proof fn lemma_c_expr_pool(st: CState, fc: FState, e: SpecExpr, mspan: Span)
    requires
        pool_distinct(st.constants),
        c_expr(st, fc, e, mspan) is Ok,
    ensures
        pool_distinct(c_expr(st, fc, e, mspan)->Ok_0.0.constants),
    decreases e, 2nat,
{
    match e.kind {
        SpecExprKind::String(t) => lemma_intern_pool(st, SpecConstant::String(t)),
        SpecExprKind::Bool(b) => lemma_intern_pool(st, SpecConstant::Bool(b)),
        SpecExprKind::Symbol(name) => {
            if resolve(fc, name) is Builtin {
                lemma_intern_pool(st, SpecConstant::String(name));
            }
        },
        SpecExprKind::Call { callee, args } => {
            lemma_c_expr_pool(st, fc, *callee, mspan);
            let (st2, fc2) = c_expr(st, fc, *callee, mspan)->Ok_0;
            lemma_c_exprs_pool(st2, fc2, args, mspan);
        },
        SpecExprKind::Lambda { params, body } => {
            let caps = capturable(fc, free_in_all(body, params, Seq::empty()));
            let (st1, id) = reserve(st)->Ok_0;
            lemma_c_body_pool(
                st1,
                FState { locals: params, captures: caps, instructions: Seq::empty() },
                body,
                mspan,
            );
        },
    }
}

proof fn lemma_c_exprs_pool(st: CState, fc: FState, es: Seq<SpecExpr>, mspan: Span)
    requires
        pool_distinct(st.constants),
        c_exprs(st, fc, es, mspan) is Ok,
    ensures
        pool_distinct(c_exprs(st, fc, es, mspan)->Ok_0.0.constants),
    decreases es, 0nat,
{
    if es.len() > 0 {
        lemma_c_exprs_pool(st, fc, es.drop_last(), mspan);
        let (st2, fc2) = c_exprs(st, fc, es.drop_last(), mspan)->Ok_0;
        lemma_c_expr_pool(st2, fc2, es.last(), mspan);
    }
}

proof fn lemma_c_popped_pool(st: CState, fc: FState, es: Seq<SpecExpr>, mspan: Span)
    requires
        pool_distinct(st.constants),
        c_popped(st, fc, es, mspan) is Ok,
    ensures
        pool_distinct(c_popped(st, fc, es, mspan)->Ok_0.0.constants),
    decreases es, 0nat,
{
    if es.len() > 0 {
        lemma_c_popped_pool(st, fc, es.drop_last(), mspan);
        let (st2, fc2) = c_popped(st, fc, es.drop_last(), mspan)->Ok_0;
        lemma_c_expr_pool(st2, fc2, es.last(), mspan);
    }
}

proof fn lemma_c_body_pool(st: CState, fc: FState, body: Seq<SpecExpr>, mspan: Span)
    requires
        pool_distinct(st.constants),
        c_body(st, fc, body, mspan) is Ok,
    ensures
        pool_distinct(c_body(st, fc, body, mspan)->Ok_0.0.constants),
    decreases body, 1nat,
{
    if body.len() > 0 {
        lemma_c_popped_pool(st, fc, body.drop_last(), mspan);
        let (st2, fc2) = c_popped(st, fc, body.drop_last(), mspan)->Ok_0;
        lemma_c_expr_pool(st2, fc2, body.last(), mspan);
    }
}

/// Constants are pooled: in a compiled program no constant occurs twice,
/// so every string (and builtin name) and every boolean is stored once.
pub proof fn law_constants_pooled(m: SpecModule)
    requires
        compile_spec(m) is Ok,
    ensures
        pool_distinct(compile_spec(m)->Ok_0.constants),
{
    let fc0 = FState { locals: Seq::empty(), captures: Seq::empty(), instructions: Seq::empty() };
    lemma_c_expr_pool(initial_state(), fc0, m.body, m.span);
}

/// A compiled program enters at function 0, named `module`, and carries
/// the module's version.
pub proof fn law_program_entry(m: SpecModule)
    requires
        compile_spec(m) is Ok,
    ensures
        compile_spec(m)->Ok_0.entry == FunctionId(0),
        compile_spec(m)->Ok_0.version == m.version,
        compile_spec(m)->Ok_0.functions.len() >= 1,
        compile_spec(m)->Ok_0.functions[0].name == "module"@,
{
    let fc0 = FState { locals: Seq::empty(), captures: Seq::empty(), instructions: Seq::empty() };
    lemma_c_expr_functions(initial_state(), fc0, m.body, m.span);
}

proof fn lemma_c_expr_functions(st: CState, fc: FState, e: SpecExpr, mspan: Span)
    requires
        c_expr(st, fc, e, mspan) is Ok,
    ensures
        c_expr(st, fc, e, mspan)->Ok_0.0.functions.len() >= st.functions.len(),
    decreases e, 2nat,
{
    match e.kind {
        SpecExprKind::Call { callee, args } => {
            lemma_c_expr_functions(st, fc, *callee, mspan);
            let (st2, fc2) = c_expr(st, fc, *callee, mspan)->Ok_0;
            lemma_c_exprs_functions(st2, fc2, args, mspan);
        },
        SpecExprKind::Lambda { params, body } => {
            let caps = capturable(fc, free_in_all(body, params, Seq::empty()));
            let (st1, id) = reserve(st)->Ok_0;
            lemma_c_body_functions(
                st1,
                FState { locals: params, captures: caps, instructions: Seq::empty() },
                body,
                mspan,
            );
        },
        _ => {},
    }
}

proof fn lemma_c_exprs_functions(st: CState, fc: FState, es: Seq<SpecExpr>, mspan: Span)
    requires
        c_exprs(st, fc, es, mspan) is Ok,
    ensures
        c_exprs(st, fc, es, mspan)->Ok_0.0.functions.len() >= st.functions.len(),
    decreases es, 0nat,
{
    if es.len() > 0 {
        lemma_c_exprs_functions(st, fc, es.drop_last(), mspan);
        let (st2, fc2) = c_exprs(st, fc, es.drop_last(), mspan)->Ok_0;
        lemma_c_expr_functions(st2, fc2, es.last(), mspan);
    }
}

proof fn lemma_c_popped_functions(st: CState, fc: FState, es: Seq<SpecExpr>, mspan: Span)
    requires
        c_popped(st, fc, es, mspan) is Ok,
    ensures
        c_popped(st, fc, es, mspan)->Ok_0.0.functions.len() >= st.functions.len(),
    decreases es, 0nat,
{
    if es.len() > 0 {
        lemma_c_popped_functions(st, fc, es.drop_last(), mspan);
        let (st2, fc2) = c_popped(st, fc, es.drop_last(), mspan)->Ok_0;
        lemma_c_expr_functions(st2, fc2, es.last(), mspan);
    }
}

proof fn lemma_c_body_functions(st: CState, fc: FState, body: Seq<SpecExpr>, mspan: Span)
    requires
        c_body(st, fc, body, mspan) is Ok,
    ensures
        c_body(st, fc, body, mspan)->Ok_0.0.functions.len() >= st.functions.len(),
    decreases body, 1nat,
{
    if body.len() > 0 {
        lemma_c_popped_functions(st, fc, body.drop_last(), mspan);
        let (st2, fc2) = c_popped(st, fc, body.drop_last(), mspan)->Ok_0;
        lemma_c_expr_functions(st2, fc2, body.last(), mspan);
    }
}


/// Whether an instruction of a function with `nl` locals and `nc` captures
/// refers only to what exists: its constant (a string, for a builtin's
/// name), its slot, or its function, whose captures it supplies and which
/// has code.
pub open spec fn instruction_ok(
    constants: Seq<SpecConstant>,
    functions: Seq<SpecFunction>,
    nl: int,
    nc: int,
    ins: Instruction,
) -> bool {
    match ins.opcode {
        Opcode::PushConst { id } => (id.0 as int) < constants.len(),
        Opcode::LoadBuiltin { name } => (name.0 as int) < constants.len() && constants[name.0 as int] is String,
        Opcode::LoadLocal { slot } => (slot as int) < nl,
        Opcode::StoreLocal { slot } => (slot as int) < nl,
        Opcode::LoadCapture { slot } => (slot as int) < nc,
        Opcode::MakeClosure { function, captures } => {
            &&& (function.0 as int) < functions.len()
            &&& functions[function.0 as int].captures == captures
            &&& functions[function.0 as int].instructions.len() > 0
        },
        _ => true,
    }
}

pub open spec fn code_ok(
    constants: Seq<SpecConstant>,
    functions: Seq<SpecFunction>,
    nl: int,
    nc: int,
    code: Seq<Instruction>,
) -> bool {
    forall|i: int| 0 <= i < code.len() ==> instruction_ok(constants, functions, nl, nc, #[trigger] code[i])
}

/// Whether function `g` is well formed: its code is not empty, ends with
/// `Return`, and refers only to what exists.
pub open spec fn function_ok(constants: Seq<SpecConstant>, functions: Seq<SpecFunction>, g: int) -> bool {
    let f = functions[g];
    &&& f.instructions.len() > 0
    &&& f.instructions.last().opcode is Return
    &&& code_ok(constants, functions, f.locals as int, f.captures as int, f.instructions)
}

/// Whether a program is well formed: its entry function exists and every
/// function is well formed.
pub open spec fn program_ok(p: SpecProgram) -> bool {
    &&& (p.entry.0 as int) < p.functions.len()
    &&& forall|g: int| 0 <= g < p.functions.len() ==> function_ok(p.constants, p.functions, g)
}

/// `st2` extends `st`: both tables only grow, and what they held stays.
pub open spec fn extends(st: CState, st2: CState) -> bool {
    &&& st.constants.len() <= st2.constants.len()
    &&& st2.constants.take(st.constants.len() as int) == st.constants
    &&& st.functions.len() <= st2.functions.len()
    &&& st2.functions.take(st.functions.len() as int) == st.functions
}

proof fn lemma_extends_trans(a: CState, b: CState, c: CState)
    requires
        extends(a, b),
        extends(b, c),
    ensures
        extends(a, c),
{
    assert(c.constants.take(a.constants.len() as int) =~= c.constants.take(b.constants.len() as int).take(a.constants.len() as int));
    assert(c.functions.take(a.functions.len() as int) =~= c.functions.take(b.functions.len() as int).take(a.functions.len() as int));
}

proof fn lemma_code_extends(st: CState, st2: CState, nl: int, nc: int, code: Seq<Instruction>)
    requires
        extends(st, st2),
        code_ok(st.constants, st.functions, nl, nc, code),
    ensures
        code_ok(st2.constants, st2.functions, nl, nc, code),
{
    assert forall|i: int| 0 <= i < code.len() implies instruction_ok(st2.constants, st2.functions, nl, nc, #[trigger] code[i]) by {
        assert(instruction_ok(st.constants, st.functions, nl, nc, code[i]));
        match code[i].opcode {
            Opcode::LoadBuiltin { name } => {
                assert(st2.constants[name.0 as int] == st2.constants.take(st.constants.len() as int)[name.0 as int]);
            },
            Opcode::MakeClosure { function, .. } => {
                assert(st2.functions[function.0 as int] == st2.functions.take(st.functions.len() as int)[function.0 as int]);
            },
            _ => {},
        }
    }
}

/// Filling a slot that has no code yet keeps every instruction that was
/// well formed well formed.
proof fn lemma_code_fill(constants: Seq<SpecConstant>, functions: Seq<SpecFunction>, id: int, f: SpecFunction, nl: int, nc: int, code: Seq<Instruction>)
    requires
        0 <= id < functions.len(),
        functions[id].instructions.len() == 0,
        code_ok(constants, functions, nl, nc, code),
    ensures
        code_ok(constants, functions.update(id, f), nl, nc, code),
{
    assert forall|i: int| 0 <= i < code.len() implies instruction_ok(constants, functions.update(id, f), nl, nc, #[trigger] code[i]) by {
        assert(instruction_ok(constants, functions, nl, nc, code[i]));
    }
}

proof fn lemma_code_push(constants: Seq<SpecConstant>, functions: Seq<SpecFunction>, nl: int, nc: int, code: Seq<Instruction>, ins: Instruction)
    requires
        code_ok(constants, functions, nl, nc, code),
        instruction_ok(constants, functions, nl, nc, ins),
    ensures
        code_ok(constants, functions, nl, nc, code.push(ins)),
{
    assert forall|i: int| 0 <= i < code.push(ins).len() implies instruction_ok(constants, functions, nl, nc, #[trigger] code.push(ins)[i]) by {
        if i < code.len() {
            assert(code.push(ins)[i] == code[i]);
        }
    }
}

proof fn lemma_intern_ok(st: CState, k: SpecConstant)
    requires
        st.constants.len() <= 65536,
    ensures
        intern(st, k) matches Ok((st2, _)) ==> st2.constants.len() <= 65536,
        intern(st, k) matches Ok((st2, id)) ==> extends(st, st2) && st2.functions == st.functions
            && (id.0 as int) < st2.constants.len() && st2.constants[id.0 as int] == k,
{
    lemma_index_in(st.constants, k, 0);
    let i = index_in(st.constants, k, 0);
    assert(st.constants.take(st.constants.len() as int) =~= st.constants);
    assert(st.functions.take(st.functions.len() as int) =~= st.functions);
    if i >= st.constants.len() && st.constants.len() <= 65535 {
        assert(st.constants.push(k).take(st.constants.len() as int) =~= st.constants);
    }
}

proof fn lemma_extends_refl(st: CState)
    ensures
        extends(st, st),
{
    assert(st.constants.take(st.constants.len() as int) =~= st.constants);
    assert(st.functions.take(st.functions.len() as int) =~= st.functions);
}

/// What compiling into a function keeps: the tables only grow, the code so
/// far stays well formed, new code is well formed, and every function
/// added on the way is well formed.
pub open spec fn compiled_ok(st: CState, fc: FState, r: Result<(CState, FState), CompileError>) -> bool {
    r matches Ok((st2, fc2)) ==> {
        &&& extends(st, st2)
        &&& st2.constants.len() <= 65536
        &&& fc2.locals == fc.locals
        &&& fc2.captures == fc.captures
        &&& code_ok(st2.constants, st2.functions, fc.locals.len() as int, fc.captures.len() as int, fc2.instructions)
        &&& forall|g: int| st.functions.len() <= g < st2.functions.len() ==> function_ok(st2.constants, st2.functions, g)
    }
}

proof fn lemma_fresh_extends(st: CState, st2: CState, st3: CState)
    requires
        extends(st, st2),
        extends(st2, st3),
        forall|g: int| st.functions.len() <= g < st2.functions.len() ==> function_ok(st2.constants, st2.functions, g),
        forall|g: int| st2.functions.len() <= g < st3.functions.len() ==> function_ok(st3.constants, st3.functions, g),
    ensures
        forall|g: int| st.functions.len() <= g < st3.functions.len() ==> function_ok(st3.constants, st3.functions, g),
{
    assert forall|g: int| st.functions.len() <= g < st3.functions.len() implies function_ok(st3.constants, st3.functions, g) by {
        if g < st2.functions.len() {
            assert(st3.functions[g] == st3.functions.take(st2.functions.len() as int)[g]);
            let f = st2.functions[g];
            assert(function_ok(st2.constants, st2.functions, g));
            lemma_code_extends(st2, st3, f.locals as int, f.captures as int, f.instructions);
        }
    }
}

proof fn lemma_load_captures_ok(st: CState, fc: FState, names: Seq<Seq<char>>, span: Span)
    requires
        code_ok(st.constants, st.functions, fc.locals.len() as int, fc.captures.len() as int, fc.instructions),
    ensures
        load_captures(fc, names, span) matches Ok(f) ==> f.locals == fc.locals && f.captures == fc.captures
            && code_ok(st.constants, st.functions, fc.locals.len() as int, fc.captures.len() as int, f.instructions),
    decreases names.len(),
{
    if names.len() > 0 {
        lemma_load_captures_ok(st, fc, names.drop_last(), span);
        if let Ok(f) = load_captures(fc, names.drop_last(), span) {
            lemma_index_in(fc.locals, names.last(), 0);
            lemma_index_in(fc.captures, names.last(), 0);
            match resolve(fc, names.last()) {
                NameResolution::Local(slot) => lemma_code_push(st.constants, st.functions, fc.locals.len() as int, fc.captures.len() as int, f.instructions, Instruction { opcode: Opcode::LoadLocal { slot }, span }),
                NameResolution::Capture(slot) => lemma_code_push(st.constants, st.functions, fc.locals.len() as int, fc.captures.len() as int, f.instructions, Instruction { opcode: Opcode::LoadCapture { slot }, span }),
                NameResolution::Builtin => {},
            }
        }
    }
}

proof fn lemma_c_expr_ok(st: CState, fc: FState, e: SpecExpr, mspan: Span)
    requires
        st.constants.len() <= 65536,
        code_ok(st.constants, st.functions, fc.locals.len() as int, fc.captures.len() as int, fc.instructions),
    ensures
        compiled_ok(st, fc, c_expr(st, fc, e, mspan)),
    decreases e, 2nat,
{
    let nl = fc.locals.len() as int;
    let nc = fc.captures.len() as int;
    lemma_extends_refl(st);
    match e.kind {
        SpecExprKind::String(t) => {
            lemma_intern_ok(st, SpecConstant::String(t));
            if let Ok((st2, id)) = intern(st, SpecConstant::String(t)) {
                lemma_code_extends(st, st2, nl, nc, fc.instructions);
                lemma_code_push(st2.constants, st2.functions, nl, nc, fc.instructions, Instruction { opcode: Opcode::PushConst { id }, span: e.span });
            }
        },
        SpecExprKind::Bool(b) => {
            lemma_intern_ok(st, SpecConstant::Bool(b));
            if let Ok((st2, id)) = intern(st, SpecConstant::Bool(b)) {
                lemma_code_extends(st, st2, nl, nc, fc.instructions);
                lemma_code_push(st2.constants, st2.functions, nl, nc, fc.instructions, Instruction { opcode: Opcode::PushConst { id }, span: e.span });
            }
        },
        SpecExprKind::Symbol(name) => {
            lemma_index_in(fc.locals, name, 0);
            lemma_index_in(fc.captures, name, 0);
            match resolve(fc, name) {
                NameResolution::Local(slot) => lemma_code_push(st.constants, st.functions, nl, nc, fc.instructions, Instruction { opcode: Opcode::LoadLocal { slot }, span: e.span }),
                NameResolution::Capture(slot) => lemma_code_push(st.constants, st.functions, nl, nc, fc.instructions, Instruction { opcode: Opcode::LoadCapture { slot }, span: e.span }),
                NameResolution::Builtin => {
                    lemma_intern_ok(st, SpecConstant::String(name));
                    if let Ok((st2, id)) = intern(st, SpecConstant::String(name)) {
                        lemma_code_extends(st, st2, nl, nc, fc.instructions);
                        lemma_code_push(st2.constants, st2.functions, nl, nc, fc.instructions, Instruction { opcode: Opcode::LoadBuiltin { name: id }, span: e.span });
                    }
                },
            }
        },
        SpecExprKind::Call { callee, args } => {
            lemma_c_expr_ok(st, fc, *callee, mspan);
            if let Ok((st2, fc2)) = c_expr(st, fc, *callee, mspan) {
                lemma_c_exprs_ok(st2, fc2, args, mspan);
                if let Ok((st3, fc3)) = c_exprs(st2, fc2, args, mspan) {
                    lemma_extends_trans(st, st2, st3);
                    lemma_fresh_extends(st, st2, st3);
                    if args.len() <= 65535 {
                        lemma_code_push(st3.constants, st3.functions, nl, nc, fc3.instructions, Instruction { opcode: Opcode::Call { argc: args.len() as u16 }, span: e.span });
                    }
                }
            }
        },
        SpecExprKind::Lambda { params, body } => {
            let caps = capturable(fc, free_in_all(body, params, Seq::empty()));
            if let Ok((st1, id)) = reserve(st) {
                assert(st1.functions.take(st.functions.len() as int) =~= st.functions);
                assert(st1.constants.take(st.constants.len() as int) =~= st.constants);
                let lfc0 = FState { locals: params, captures: caps, instructions: Seq::empty() };
                lemma_c_body_ok(st1, lfc0, body, mspan);
                if let Ok((st2, lfc)) = c_body(st1, lfc0, body, mspan) {
                    if let Ok(f) = finish(lambda_name(id as nat), lfc) {
                        lemma_extends_trans(st, st1, st2);
                        lemma_load_captures_ok(st, fc, caps, e.span);
                        if let Ok(fc2) = load_captures(fc, caps, e.span) {
                            if caps.len() <= 65535 {
                                let idi = id as int;
                                let fns3 = st2.functions.update(idi, f);
                                let st3 = CState { functions: fns3, ..st2 };
                                assert(st2.functions[idi] == st2.functions.take(st1.functions.len() as int)[idi]);
                                assert(st2.functions[idi].instructions.len() == 0);
                                assert(st3.functions.take(st.functions.len() as int) =~= st2.functions.take(st.functions.len() as int));
                                assert(st2.functions.take(st.functions.len() as int) =~= st2.functions.take(st1.functions.len() as int).take(st.functions.len() as int));
                                assert(extends(st, st3));
                                lemma_code_extends(st, st2, nl, nc, fc2.instructions);
                                lemma_code_fill(st2.constants, st2.functions, idi, f, nl, nc, fc2.instructions);
                                lemma_code_fill(st2.constants, st2.functions, idi, f, params.len() as int, caps.len() as int, lfc.instructions);
                                assert(function_ok(st3.constants, st3.functions, idi));
                                assert forall|g: int| st.functions.len() <= g < st3.functions.len() implies function_ok(st3.constants, st3.functions, g) by {
                                    if g != idi {
                                        let fg = st2.functions[g];
                                        assert(function_ok(st2.constants, st2.functions, g));
                                        lemma_code_fill(st2.constants, st2.functions, idi, f, fg.locals as int, fg.captures as int, fg.instructions);
                                    }
                                }
                                lemma_code_push(st3.constants, st3.functions, nl, nc, fc2.instructions, Instruction { opcode: Opcode::MakeClosure { function: FunctionId(id), captures: caps.len() as u16 }, span: e.span });
                            }
                        }
                    }
                }
            }
        },
    }
}

proof fn lemma_c_exprs_ok(st: CState, fc: FState, es: Seq<SpecExpr>, mspan: Span)
    requires
        st.constants.len() <= 65536,
        code_ok(st.constants, st.functions, fc.locals.len() as int, fc.captures.len() as int, fc.instructions),
    ensures
        compiled_ok(st, fc, c_exprs(st, fc, es, mspan)),
    decreases es, 0nat,
{
    lemma_extends_refl(st);
    if es.len() > 0 {
        lemma_c_exprs_ok(st, fc, es.drop_last(), mspan);
        if let Ok((st2, fc2)) = c_exprs(st, fc, es.drop_last(), mspan) {
            lemma_c_expr_ok(st2, fc2, es.last(), mspan);
            if let Ok((st3, fc3)) = c_expr(st2, fc2, es.last(), mspan) {
                lemma_extends_trans(st, st2, st3);
                lemma_fresh_extends(st, st2, st3);
            }
        }
    }
}

proof fn lemma_c_popped_ok(st: CState, fc: FState, es: Seq<SpecExpr>, mspan: Span)
    requires
        st.constants.len() <= 65536,
        code_ok(st.constants, st.functions, fc.locals.len() as int, fc.captures.len() as int, fc.instructions),
    ensures
        compiled_ok(st, fc, c_popped(st, fc, es, mspan)),
    decreases es, 0nat,
{
    lemma_extends_refl(st);
    if es.len() > 0 {
        lemma_c_popped_ok(st, fc, es.drop_last(), mspan);
        if let Ok((st2, fc2)) = c_popped(st, fc, es.drop_last(), mspan) {
            lemma_c_expr_ok(st2, fc2, es.last(), mspan);
            if let Ok((st3, fc3)) = c_expr(st2, fc2, es.last(), mspan) {
                lemma_extends_trans(st, st2, st3);
                lemma_fresh_extends(st, st2, st3);
                lemma_code_push(st3.constants, st3.functions, fc.locals.len() as int, fc.captures.len() as int, fc3.instructions, Instruction { opcode: Opcode::Pop, span: es.last().span });
            }
        }
    }
}

proof fn lemma_c_body_ok(st: CState, fc: FState, body: Seq<SpecExpr>, mspan: Span)
    requires
        st.constants.len() <= 65536,
        code_ok(st.constants, st.functions, fc.locals.len() as int, fc.captures.len() as int, fc.instructions),
    ensures
        compiled_ok(st, fc, c_body(st, fc, body, mspan)),
        c_body(st, fc, body, mspan) matches Ok((st2, fc2)) ==> fc2.instructions.len() > 0
            && fc2.instructions.last().opcode is Return,
    decreases body, 1nat,
{
    let nl = fc.locals.len() as int;
    let nc = fc.captures.len() as int;
    lemma_extends_refl(st);
    if body.len() == 0 {
        lemma_code_push(st.constants, st.functions, nl, nc, fc.instructions, Instruction { opcode: Opcode::Return, span: mspan });
    } else {
        lemma_c_popped_ok(st, fc, body.drop_last(), mspan);
        if let Ok((st2, fc2)) = c_popped(st, fc, body.drop_last(), mspan) {
            lemma_c_expr_ok(st2, fc2, body.last(), mspan);
            if let Ok((st3, fc3)) = c_expr(st2, fc2, body.last(), mspan) {
                lemma_extends_trans(st, st2, st3);
                lemma_fresh_extends(st, st2, st3);
                lemma_code_push(st3.constants, st3.functions, nl, nc, fc3.instructions, Instruction { opcode: Opcode::Return, span: body.last().span });
            }
        }
    }
}

/// Every compiled program is well formed: its entry function exists, and
/// every function's code is not empty, ends with `Return`, and refers only
/// to constants, slots and functions that exist (a builtin's name being a
/// string constant, and a closure supplying exactly the captures of its
/// function).
pub proof fn law_compiled_programs_well_formed(m: SpecModule)
    ensures
        compile_spec(m) matches Ok(p) ==> program_ok(p),
{
    let st0 = initial_state();
    let fc0 = FState { locals: Seq::empty(), captures: Seq::empty(), instructions: Seq::empty() };
    lemma_c_expr_ok(st0, fc0, m.body, m.span);
    if let Ok((st2, fc)) = c_expr(st0, fc0, m.body, m.span) {
        let code = fc.instructions.push(Instruction { opcode: Opcode::Return, span: m.span });
        lemma_code_push(st2.constants, st2.functions, 0, 0, fc.instructions, Instruction { opcode: Opcode::Return, span: m.span });
        if let Ok(f) = finish("module"@, emit(fc, Opcode::Return, m.span)) {
            assert(st2.functions[0] == st2.functions.take(1)[0]);
            assert(st2.functions[0].instructions.len() == 0);
            let fns = st2.functions.update(0, f);
            lemma_code_fill(st2.constants, st2.functions, 0, f, 0, 0, code);
            assert forall|g: int| 0 <= g < fns.len() implies function_ok(st2.constants, fns, g) by {
                if g != 0 {
                    let fg = st2.functions[g];
                    assert(function_ok(st2.constants, st2.functions, g));
                    lemma_code_fill(st2.constants, st2.functions, 0, f, fg.locals as int, fg.captures as int, fg.instructions);
                }
            }
        }
    }
}


/// A name resolves to where it is bound: to the slot of the local that
/// bears it, else to the slot of the capture that bears it (the slot at
/// which `MakeClosure` stores that capture's value), else to the builtin of
/// that name.
pub proof fn law_names_resolve_to_their_slots(fc: FState, name: Seq<char>)
    requires
        fc.locals.len() <= 65536,
        fc.captures.len() <= 65536,
    ensures
        match resolve(fc, name) {
            NameResolution::Local(slot) => (slot as int) < fc.locals.len() && fc.locals[slot as int]
                == name,
            NameResolution::Capture(slot) => (slot as int) < fc.captures.len() && fc.captures[slot as int]
                == name && !fc.locals.contains(name),
            NameResolution::Builtin => !fc.locals.contains(name) && !fc.captures.contains(name),
        },
{
    lemma_index_in(fc.locals, name, 0);
    lemma_index_in(fc.captures, name, 0);
    lemma_index_in_contains(fc.locals, name);
    lemma_index_in_contains(fc.captures, name);
}

/// The loads that build a closure's captures read the captured names in
/// order: the `i`-th load reads the `i`-th name, from the slot where the
/// enclosing function holds it.
pub proof fn law_capture_loads_in_order(fc: FState, names: Seq<Seq<char>>, span: Span)
    requires
        fc.locals.len() <= 65536,
        fc.captures.len() <= 65536,
    ensures
        load_captures(fc, names, span) matches Ok(f) ==> ({
            &&& f.instructions.len() == fc.instructions.len() + names.len()
            &&& f.instructions.take(fc.instructions.len() as int) == fc.instructions
            &&& forall|i: int|
                0 <= i < names.len() ==> match (#[trigger] f.instructions[fc.instructions.len() + i]).opcode {
                    Opcode::LoadLocal { slot } => (slot as int) < fc.locals.len() && fc.locals[slot as int]
                        == names[i],
                    Opcode::LoadCapture { slot } => (slot as int) < fc.captures.len()
                        && fc.captures[slot as int] == names[i],
                    _ => false,
                }
        }),
    decreases names.len(),
{
    if names.len() == 0 {
        assert(fc.instructions.take(fc.instructions.len() as int) =~= fc.instructions);
    } else {
        law_capture_loads_in_order(fc, names.drop_last(), span);
        law_names_resolve_to_their_slots(fc, names.last());
        if let Ok(f) = load_captures(fc, names.drop_last(), span) {
            let n0 = fc.instructions.len() as int;
            match resolve(fc, names.last()) {
                NameResolution::Builtin => {},
                _ => {
                    let f2 = load_captures(fc, names, span)->Ok_0;
                    assert(f2.instructions.take(n0) =~= f.instructions.take(n0));
                    assert forall|i: int| 0 <= i < names.len() implies match (#[trigger] f2.instructions[n0 + i]).opcode {
                        Opcode::LoadLocal { slot } => (slot as int) < fc.locals.len() && fc.locals[slot as int] == names[i],
                        Opcode::LoadCapture { slot } => (slot as int) < fc.captures.len() && fc.captures[slot as int] == names[i],
                        _ => false,
                    } by {
                        if i < names.len() - 1 {
                            assert(f2.instructions[n0 + i] == f.instructions[n0 + i]);
                            assert(names[i] == names.drop_last()[i]);
                        }
                    }
                },
            }
        }
    }
}

/// Each expression compiles to code that ends with what produces its
/// value: a string or boolean pushes a pooled constant equal to it, a name
/// loads the local or capture that bears it (or, if neither does, the
/// builtin whose name is pooled), and a call ends with a `Call` of as many
/// arguments as it has.
pub proof fn law_expressions_compile_to_their_value(st: CState, fc: FState, e: SpecExpr, mspan: Span)
    requires
        st.constants.len() <= 65536,
        fc.locals.len() <= 65536,
        fc.captures.len() <= 65536,
    ensures
        c_expr(st, fc, e, mspan) matches Ok((st2, fc2)) ==> ({
            let last = fc2.instructions.last().opcode;
            &&& fc2.instructions.len() > 0
            &&& match e.kind {
                SpecExprKind::String(t) => last matches Opcode::PushConst { id } && (id.0 as int)
                    < st2.constants.len() && st2.constants[id.0 as int] == SpecConstant::String(t),
                SpecExprKind::Bool(b) => last matches Opcode::PushConst { id } && (id.0 as int)
                    < st2.constants.len() && st2.constants[id.0 as int] == SpecConstant::Bool(b),
                SpecExprKind::Symbol(name) => match last {
                    Opcode::LoadLocal { slot } => (slot as int) < fc.locals.len() && fc.locals[slot as int]
                        == name,
                    Opcode::LoadCapture { slot } => (slot as int) < fc.captures.len()
                        && fc.captures[slot as int] == name && !fc.locals.contains(name),
                    Opcode::LoadBuiltin { name: id } => (id.0 as int) < st2.constants.len()
                        && st2.constants[id.0 as int] == SpecConstant::String(name) && !fc.locals.contains(
                        name,
                    ) && !fc.captures.contains(name),
                    _ => false,
                },
                SpecExprKind::Call { args, .. } => last == Opcode::Call { argc: args.len() as u16 }
                    && args.len() <= 65535,
                SpecExprKind::Lambda { .. } => last is MakeClosure,
            }
        }),
{
    match e.kind {
        SpecExprKind::String(t) => lemma_intern_ok(st, SpecConstant::String(t)),
        SpecExprKind::Bool(b) => lemma_intern_ok(st, SpecConstant::Bool(b)),
        SpecExprKind::Symbol(name) => {
            law_names_resolve_to_their_slots(fc, name);
            lemma_intern_ok(st, SpecConstant::String(name));
        },
        _ => {},
    }
}
} // verus!
