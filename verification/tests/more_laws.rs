use lightdown::author::block_parser::parse_document;
use lightdown::author::lower::lower_blocks;
use lightdown::ir::builtins::resolve_builtin;
use lightdown::ir::{
    Builtin, Constant, ConstantId, Function, FunctionId, Instruction, Lexer, Opcode, Position,
    Program, Span, Vm, VmError, compile_module, parse,
};

fn origin_span() -> Span {
    let origin = Position { offset: 0, line: 1, column: 1 };
    Span { start: origin, end: origin }
}

fn program_of(constants: Vec<Constant>, opcodes: Vec<Opcode>) -> Program {
    let span = origin_span();
    Program {
        version: "0.1.0".to_string(),
        metadata_span: span,
        constants,
        functions: vec![Function {
            name: "module".to_string(),
            arity: 0,
            locals: 0,
            captures: 0,
            instructions: opcodes.into_iter().map(|opcode| Instruction { opcode, span }).collect(),
        }],
        entry: FunctionId(0),
    }
}

#[test]
fn builtin_names_round_trip() {
    for b in [Builtin::Doc, Builtin::H3, Builtin::BlockQuote, Builtin::Td, Builtin::MapEach, Builtin::TableFromData] {
        assert_eq!(resolve_builtin(b.name()), Some(b));
    }
    assert_eq!(Builtin::BlockQuote.name(), "blockquote");
    assert_eq!(Builtin::MapEach.name(), "map");
    assert_eq!(resolve_builtin("ld::table::from-data"), Some(Builtin::TableFromData));
    assert_eq!(resolve_builtin("blink"), None);
}

#[test]
fn malformed_programs_fail_with_the_error_that_names_them() {
    let span = origin_span();
    let bad_constant = program_of(vec![], vec![Opcode::PushConst { id: ConstantId(3) }, Opcode::Return]);
    assert_eq!(
        Vm::new(&bad_constant).execute(),
        Err(VmError::InvalidConstantIndex { index: ConstantId(3), span })
    );
    let underflow = program_of(vec![], vec![Opcode::Pop]);
    assert_eq!(
        Vm::new(&underflow).execute(),
        Err(VmError::StackUnderflow { opcode: "Pop", span })
    );
    let bad_slot = program_of(vec![], vec![Opcode::LoadLocal { slot: 0 }]);
    assert_eq!(Vm::new(&bad_slot).execute(), Err(VmError::InvalidLocalSlot { slot: 0, span }));
    let bad_jump = program_of(vec![], vec![Opcode::Jump { target: 9 }]);
    assert_eq!(Vm::new(&bad_jump).execute(), Err(VmError::InvalidJumpTarget { target: 9, span }));
    let no_return = program_of(vec![Constant::Bool(true)], vec![Opcode::PushConst { id: ConstantId(0) }]);
    assert!(matches!(
        Vm::new(&no_return).execute(),
        Err(VmError::MissingReturnValue { function: FunctionId(0), .. })
    ));
    let bad_function = program_of(
        vec![],
        vec![Opcode::MakeClosure { function: FunctionId(7), captures: 0 }, Opcode::Return],
    );
    assert_eq!(
        Vm::new(&bad_function).execute(),
        Err(VmError::InvalidFunctionIndex { index: FunctionId(7), span })
    );
}

#[test]
fn compiled_programs_refer_only_to_what_exists() {
    let module = parse(
        r#"(doc {:meta {:version "0.1.0"}} (let ((x (text "a"))) (p x ((lambda (y) y) (text "b")))))"#,
    )
    .expect("parses");
    let program = compile_module(&module).expect("compiles");
    assert_eq!(program.entry, FunctionId(0));
    for function in &program.functions {
        assert!(matches!(function.instructions.last().map(|i| i.opcode), Some(Opcode::Return)));
        for instruction in &function.instructions {
            match instruction.opcode {
                Opcode::PushConst { id } => assert!((id.0 as usize) < program.constants.len()),
                Opcode::LoadBuiltin { name } => {
                    assert!(matches!(program.constants[name.0 as usize], Constant::String(_)))
                }
                Opcode::LoadLocal { slot } => assert!(slot < function.locals),
                Opcode::LoadCapture { slot } => assert!(slot < function.captures),
                Opcode::MakeClosure { function: g, captures } => {
                    assert_eq!(program.functions[g.0 as usize].captures, captures)
                }
                _ => {}
            }
        }
    }
}

#[test]
fn tokens_tile_the_text() {
    let input = "( sym  :key \"s\" )";
    let tokens = Lexer::new(input).collect_tokens().expect("lexes");
    let offsets: Vec<(usize, usize)> =
        tokens.iter().map(|t| (t.span.start.offset, t.span.end.offset)).collect();
    assert_eq!(offsets, vec![(0, 1), (2, 5), (7, 11), (12, 15), (16, 17)]);
    for (start, end) in &offsets {
        assert!(start < end);
    }
    assert_eq!(&input[2..5], "sym");
    assert_eq!(&input[7..11], ":key");
}

#[test]
fn lowering_distributes_over_concatenated_blocks() {
    let a = parse_document("# A\n\npara").expect("parses").blocks;
    let b = parse_document("---\n\n> q").expect("parses").blocks;
    let both = parse_document("# A\n\npara\n\n---\n\n> q").expect("parses").blocks;
    let la = lower_blocks(&a).expect("lowers");
    let lb = lower_blocks(&b).expect("lowers");
    let lboth = lower_blocks(&both).expect("lowers");
    assert_eq!(lboth.len(), la.len() + lb.len());
    assert_eq!(lboth.len(), both.len());
    for (expr, block) in lboth.iter().zip(both.iter()) {
        assert_eq!(expr.span, block.span);
    }
    assert_eq!(lboth[0].kind, la[0].kind);
    assert_eq!(lboth[1].kind, la[1].kind);
}
