use krypton::emit::AsmLine;
use krypton::emit::CmpKind;
use krypton::emit::Reg;
use krypton::generator::GenError;
use krypton::generator::Generator;
use krypton::generator::Var;
use krypton::parser::Parser;
use krypton::parser::Tree;
use krypton::tokenize::Token;
use krypton::tokenize::Tokenizer;

fn compile_lines(src: &str) -> Result<Vec<AsmLine>, GenError> {
    let tokens = Tokenizer::new(src.to_string()).tokenize();
    let trees = Parser::new(&tokens).parse_tokens().expect("source should parse");
    Generator::new(&trees).generate_lines()
}

fn compile_text(src: &str) -> String {
    let tokens = Tokenizer::new(src.to_string()).tokenize();
    let trees = Parser::new(&tokens).parse_tokens().expect("source should parse");
    Generator::new(&trees).generate_linux_64().expect("source should generate")
}

fn gen_err(src: &str) -> GenError {
    compile_lines(src).expect_err("expected a generation failure")
}

#[test]
fn var_binding_keeps_name_and_slot() {
    // Var::new builds the (name, slot) pair the generator's table holds
    let _v: Var = Var::new("x".to_string(), 3);
}

#[test]
fn arithmetic_with_spill_computes_sum_of_products() {
    // x + y*2 with x=3, y=4: the emitted code computes 3 + 4*2 = 11 and
    // exits with status 11.  The left value is spilled to rcx before the
    // compound right operand reuses rax and rbx.
    assert_eq!(
        compile_lines("let x = 3 let y = 4 exit (x + y * 2)").unwrap(),
        vec![
            AsmLine::StoreImm(0, 3),
            AsmLine::StoreImm(1, 4),
            AsmLine::LoadVar(Reg::Rax, 0),
            AsmLine::MovReg(Reg::Rcx, Reg::Rax),
            AsmLine::LoadVar(Reg::Rax, 1),
            AsmLine::MovImm(Reg::Rbx, 2),
            AsmLine::Imul(Reg::Rax, Reg::Rbx),
            AsmLine::MovReg(Reg::Rbx, Reg::Rax),
            AsmLine::Add(Reg::Rcx, Reg::Rbx),
            AsmLine::MovReg(Reg::Rax, Reg::Rcx),
            AsmLine::Push(Reg::Rax),
            AsmLine::MovImm(Reg::Rax, 60),
            AsmLine::Pop(Reg::Rdi),
            AsmLine::Syscall,
        ]
    );
}

#[test]
fn division_clears_high_part_of_dividend() {
    assert_eq!(
        compile_lines("exit (8 / 2)").unwrap(),
        vec![
            AsmLine::MovImm(Reg::Rax, 8),
            AsmLine::MovImm(Reg::Rbx, 2),
            AsmLine::Xor(Reg::Rdx, Reg::Rdx),
            AsmLine::Div(Reg::Rbx),
            AsmLine::Push(Reg::Rax),
            AsmLine::MovImm(Reg::Rax, 60),
            AsmLine::Pop(Reg::Rdi),
            AsmLine::Syscall,
        ]
    );
}

#[test]
fn conditional_lowering_reaches_the_true_branch() {
    // 5 > 3 holds, so the jz over the body is not taken at run time and
    // the program exits with status 1; the els body sits under the entry
    // label the condition jumps to when false.
    assert_eq!(
        compile_lines("let x = 5 if (x > 3) { exit 1 } els { exit 0 }").unwrap(),
        vec![
            AsmLine::StoreImm(0, 5),
            AsmLine::LoadVar(Reg::Rax, 0),
            AsmLine::MovImm(Reg::Rbx, 3),
            AsmLine::CmpRaxRbx,
            AsmLine::SetCmp(CmpKind::Gt),
            AsmLine::MovzxRaxAl,
            AsmLine::TestAl1,
            AsmLine::Jz(1),
            AsmLine::MovImm(Reg::Rax, 1),
            AsmLine::Push(Reg::Rax),
            AsmLine::MovImm(Reg::Rax, 60),
            AsmLine::Pop(Reg::Rdi),
            AsmLine::Syscall,
            AsmLine::Jmp(2),
            AsmLine::Label(1),
            AsmLine::MovImm(Reg::Rax, 0),
            AsmLine::Push(Reg::Rax),
            AsmLine::MovImm(Reg::Rax, 60),
            AsmLine::Pop(Reg::Rdi),
            AsmLine::Syscall,
            AsmLine::Label(2),
        ]
    );
}

#[test]
fn loop_lowering_tests_at_the_bottom() {
    // the body runs exactly three times and the program exits with 3: an
    // unconditional jump reaches the bottom test before any iteration,
    // then a conditional jump goes back while i < 3 holds
    assert_eq!(
        compile_lines("let i = 0 while (i < 3) { i++ } exit (i)").unwrap(),
        vec![
            AsmLine::StoreImm(0, 0),
            AsmLine::Jmp(2),
            AsmLine::Label(1),
            AsmLine::IncVar(0),
            AsmLine::Label(2),
            AsmLine::LoadVar(Reg::Rax, 0),
            AsmLine::MovImm(Reg::Rbx, 3),
            AsmLine::CmpRaxRbx,
            AsmLine::SetCmp(CmpKind::Lt),
            AsmLine::MovzxRaxAl,
            AsmLine::TestAl1,
            AsmLine::Jnz(1),
            AsmLine::LoadVar(Reg::Rax, 0),
            AsmLine::Push(Reg::Rax),
            AsmLine::MovImm(Reg::Rax, 60),
            AsmLine::Pop(Reg::Rdi),
            AsmLine::Syscall,
        ]
    );
}

#[test]
fn loop_with_false_condition_skips_body() {
    // the pre-jump to the bottom test comes before the body, so a loop
    // whose condition starts false never runs the body: this program
    // exits 7, never 9
    let lines = compile_lines("while (0 > 1) { exit 9 } exit 7").unwrap();
    assert_eq!(
        lines,
        vec![
            AsmLine::Jmp(2),
            AsmLine::Label(1),
            AsmLine::MovImm(Reg::Rax, 9),
            AsmLine::Push(Reg::Rax),
            AsmLine::MovImm(Reg::Rax, 60),
            AsmLine::Pop(Reg::Rdi),
            AsmLine::Syscall,
            AsmLine::Label(2),
            AsmLine::MovImm(Reg::Rax, 0),
            AsmLine::MovImm(Reg::Rbx, 1),
            AsmLine::CmpRaxRbx,
            AsmLine::SetCmp(CmpKind::Gt),
            AsmLine::MovzxRaxAl,
            AsmLine::TestAl1,
            AsmLine::Jnz(1),
            AsmLine::MovImm(Reg::Rax, 7),
            AsmLine::Push(Reg::Rax),
            AsmLine::MovImm(Reg::Rax, 60),
            AsmLine::Pop(Reg::Rdi),
            AsmLine::Syscall,
        ]
    );
    // the unconditional jump to the test precedes the body's first line
    let jmp_at = lines.iter().position(|l| *l == AsmLine::Jmp(2)).unwrap();
    let body_at = lines.iter().position(|l| *l == AsmLine::MovImm(Reg::Rax, 9)).unwrap();
    assert!(jmp_at < body_at);
}

#[test]
fn syscall_number_is_loaded_last() {
    // the first syscall-argument register gets 5 before the syscall
    // number 60 goes into the accumulator, immediately before the syscall
    assert_eq!(
        compile_lines("syscall(60, 5)").unwrap(),
        vec![
            AsmLine::MovImm(Reg::Rdi, 5),
            AsmLine::MovImm(Reg::Rax, 60),
            AsmLine::Syscall,
        ]
    );
}

#[test]
fn syscall_arguments_fill_registers_in_positional_order() {
    assert_eq!(
        compile_lines("syscall(0, 1, 2, 3, 4, 5, 6)").unwrap(),
        vec![
            AsmLine::MovImm(Reg::Rdi, 1),
            AsmLine::MovImm(Reg::Rsi, 2),
            AsmLine::MovImm(Reg::Rdx, 3),
            AsmLine::MovImm(Reg::R10, 4),
            AsmLine::MovImm(Reg::R8, 5),
            AsmLine::MovImm(Reg::R9, 6),
            AsmLine::MovImm(Reg::Rax, 0),
            AsmLine::Syscall,
        ]
    );
}

#[test]
fn scope_exit_frees_the_inner_slot() {
    // y lives in slot 1 inside the block; after the block ends the table
    // shrinks, so z is declared into slot 1 again
    let lines = compile_lines("let x = 1 if (x < 2) { let y = 5 } let z = 7").unwrap();
    assert_eq!(lines[0], AsmLine::StoreImm(0, 1));
    assert_eq!(*lines.last().unwrap(), AsmLine::StoreImm(1, 7));
    assert!(lines.contains(&AsmLine::StoreImm(1, 5)));
}

#[test]
fn outer_reference_after_block_uses_outer_slot() {
    // after the block, x still resolves to slot 0
    let lines = compile_lines("let x = 1 if (x < 2) { let y = 5 } exit (x)").unwrap();
    let exit_load = lines.iter().rev().find(|l| matches!(l, AsmLine::LoadVar(..))).unwrap();
    assert_eq!(*exit_load, AsmLine::LoadVar(Reg::Rax, 0));
}

#[test]
fn redeclaration_of_live_name_fails() {
    assert_eq!(gen_err("let x = 1 let x = 2"), GenError::AlreadyDeclared);
}

#[test]
fn redeclaration_after_scope_end_succeeds() {
    let lines = compile_lines("let x = 1 if (x < 2) { let y = 2 } let y = 3").unwrap();
    assert_eq!(*lines.last().unwrap(), AsmLine::StoreImm(1, 3));
}

#[test]
fn undeclared_reference_fails() {
    assert_eq!(gen_err("exit (q)"), GenError::UndeclaredVariable);
    assert_eq!(gen_err("q = 1"), GenError::UndeclaredVariable);
    assert_eq!(gen_err("q++"), GenError::UndeclaredVariable);
    assert_eq!(gen_err("q--"), GenError::UndeclaredVariable);
}

#[test]
fn range_operator_has_no_lowering() {
    assert_eq!(gen_err("exit (1 .. 2)"), GenError::InvalidOperator);
}

#[test]
fn string_in_expression_position_fails() {
    assert_eq!(gen_err("let x = \"hi\""), GenError::UnexpectedExpr);
}

#[test]
fn branch_condition_must_be_a_comparison() {
    assert_eq!(gen_err("if (1) { }"), GenError::ExpectedCmpOp);
    assert_eq!(gen_err("while (1) { }"), GenError::ExpectedCmpOp);
}

#[test]
fn syscall_with_too_many_arguments_fails() {
    assert_eq!(gen_err("syscall(1, 2, 3, 4, 5, 6, 7, 8)"), GenError::SysCallArity);
}

#[test]
fn hand_built_chain_with_non_elsif_fails() {
    let tree = Tree::If {
        expr: Box::new(Tree::CmpOp(
            Box::new(Tree::Number(1)),
            Token::Less,
            Box::new(Tree::Number(2)),
        )),
        body: vec![],
        last_case: 2,
        next_case: 1,
        els: None,
        els_ifs: vec![Tree::Number(7)],
    };
    let mut generator = Generator::new(&vec![tree]);
    assert_eq!(generator.generate_lines(), Err(GenError::ExpectedElsIf));
}

#[test]
fn for_arrow_form_emits_nothing() {
    assert_eq!(compile_lines("for i -> 5 { }").unwrap(), Vec::<AsmLine>::new());
}

#[test]
fn expression_in_statement_position_emits_nothing() {
    assert_eq!(compile_lines("1 + 2").unwrap(), Vec::<AsmLine>::new());
}

#[test]
fn labels_are_unique_and_every_jump_lands_on_one() {
    let src = "if (1 < 2) { while (3 < 4) { } } elsif (5 < 6) { if (7 < 8) { } } \
               els { while (0 < 1) { } }";
    let lines = compile_lines(src).unwrap();
    let labels: Vec<usize> = lines
        .iter()
        .filter_map(|l| match l {
            AsmLine::Label(n) => Some(*n),
            _ => None,
        })
        .collect();
    for (i, a) in labels.iter().enumerate() {
        for b in labels.iter().skip(i + 1) {
            assert_ne!(a, b, "duplicate label definition");
        }
    }
    for l in lines.iter() {
        let target = match l {
            AsmLine::Jmp(n) | AsmLine::Jz(n) | AsmLine::Jnz(n) => Some(*n),
            _ => None,
        };
        if let Some(n) = target {
            assert!(labels.contains(&n), "jump to an undefined label");
        }
    }
}

#[test]
fn renders_complete_assembly_text() {
    assert_eq!(
        compile_text("exit 123"),
        "section .text\n\tglobal _start\n_start:\n\
         \tmov rax, 123\n\tpush rax\n\tmov rax, 60\n\tpop rdi\n\tsyscall\n"
    );
}

#[test]
fn renders_slot_offsets_as_byte_offsets() {
    assert_eq!(
        compile_text("let x = 1 exit (x)"),
        "section .text\n\tglobal _start\n_start:\n\
         \tmov QWORD [rsp + 0], 1\n\
         \tmov rax, QWORD [rsp + 0]\n\tpush rax\n\tmov rax, 60\n\tpop rdi\n\tsyscall\n"
    );
}

#[test]
fn empty_program_renders_header_only() {
    assert_eq!(compile_text(""), "section .text\n\tglobal _start\n_start:\n");
}
