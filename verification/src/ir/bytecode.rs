//! Bytecode of the Lightdown IR virtual machine.
use vstd::prelude::*;

use crate::ir::lexer::Span;

verus! {

#[derive(Debug, PartialEq, Eq)]
pub struct Program {
    pub version: String,
    pub metadata_span: Span,
    pub constants: Vec<Constant>,
    pub functions: Vec<Function>,
    pub entry: FunctionId,
}

#[derive(Debug, PartialEq, Eq)]
pub struct Function {
    pub name: String,
    pub arity: u16,
    pub locals: u16,
    pub captures: u16,
    pub instructions: Vec<Instruction>,
}

#[derive(Clone, Copy, Debug, PartialEq, Eq)]
pub struct Instruction {
    pub opcode: Opcode,
    pub span: Span,
}

#[derive(Clone, Copy, Debug, PartialEq, Eq, Hash, PartialOrd, Ord)]
pub struct FunctionId(pub u16);

#[derive(Clone, Copy, Debug, PartialEq, Eq, Hash, PartialOrd, Ord)]
pub struct ConstantId(pub u16);

#[derive(Clone, Debug, PartialEq, Eq, Hash, PartialOrd, Ord)]
pub enum Constant {
    String(String),
    Bool(bool),
}

#[derive(Clone, Copy, Debug, PartialEq, Eq)]
pub enum Opcode {
    PushConst { id: ConstantId },
    LoadBuiltin { name: ConstantId },
    LoadLocal { slot: u16 },
    LoadCapture { slot: u16 },
    StoreLocal { slot: u16 },
    MakeClosure { function: FunctionId, captures: u16 },
    Call { argc: u16 },
    Return,
    Jump { target: usize },
    JumpIfFalse { target: usize },
    Pop,
}

pub enum SpecConstant {
    String(Seq<char>),
    Bool(bool),
}

pub struct SpecFunction {
    pub name: Seq<char>,
    pub arity: u16,
    pub locals: u16,
    pub captures: u16,
    pub instructions: Seq<Instruction>,
}

pub struct SpecProgram {
    pub version: Seq<char>,
    pub metadata_span: Span,
    pub constants: Seq<SpecConstant>,
    pub functions: Seq<SpecFunction>,
    pub entry: FunctionId,
}

impl View for Constant {
    type V = SpecConstant;

    open spec fn view(&self) -> SpecConstant {
        match self {
            Constant::String(s) => SpecConstant::String(s@),
            Constant::Bool(b) => SpecConstant::Bool(*b),
        }
    }
}

impl View for Function {
    type V = SpecFunction;

    open spec fn view(&self) -> SpecFunction {
        SpecFunction {
            name: self.name@,
            arity: self.arity,
            locals: self.locals,
            captures: self.captures,
            instructions: self.instructions@,
        }
    }
}

pub open spec fn constants_view(cs: Seq<Constant>) -> Seq<SpecConstant> {
    cs.map_values(|c: Constant| c@)
}

pub open spec fn functions_view(fs: Seq<Function>) -> Seq<SpecFunction> {
    fs.map_values(|f: Function| f@)
}

impl View for Program {
    type V = SpecProgram;

    open spec fn view(&self) -> SpecProgram {
        SpecProgram {
            version: self.version@,
            metadata_span: self.metadata_span,
            constants: constants_view(self.constants@),
            functions: functions_view(self.functions@),
            entry: self.entry,
        }
    }
}

impl Constant {
    /// A copy of this constant.
    pub fn duplicate(&self) -> (r: Self)
        ensures
            r@ == self@,
    {
        match self {
            Constant::String(s) => Constant::String(s.clone()),
            Constant::Bool(b) => Constant::Bool(*b),
        }
    }
}

/// Whether two constants are equal.
pub fn same_constant(a: &Constant, b: &Constant) -> (r: bool)
    ensures
        r == (a@ == b@),
{
    match (a, b) {
        (Constant::String(x), Constant::String(y)) => crate::text::str_eq(x.as_str(), y.as_str()),
        (Constant::Bool(x), Constant::Bool(y)) => *x == *y,
        _ => false,
    }
}

} // verus!
