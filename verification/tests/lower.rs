use calc_lang::ast::BinOp;
use calc_lang::frontend::ParserFrontend;
use calc_lang::ir::{Block, Instr, Program, Temp};
use calc_lang::lower::lower;
use calc_lang::parser::LalrpopFrontend;

fn lower_src(src: &str) -> Program {
    lower(&LalrpopFrontend.parse(src).expect("should parse"))
}

fn konst(dst: u32, value: &str) -> Instr {
    Instr::Const {
        dst: Temp(dst),
        value: value.to_string(),
    }
}

#[test]
fn lowers_a_let_bound_if_expression() {
    let program = lower_src("{ let x = 1; if x { x + 1 } else { 2 } }");

    assert_eq!(
        program,
        Program {
            body: Block(vec![
                konst(0, "1"),
                Instr::If {
                    dst: Temp(1),
                    cond: Temp(0),
                    then_block: Block(vec![
                        konst(2, "1"),
                        Instr::CallBuiltin {
                            dst: Temp(3),
                            name: "add".to_string(),
                            args: vec![Temp(0), Temp(2)],
                        },
                        Instr::Copy {
                            dst: Temp(1),
                            src: Temp(3)
                        },
                    ]),
                    else_block: Block(vec![
                        konst(4, "2"),
                        Instr::Copy {
                            dst: Temp(1),
                            src: Temp(4)
                        },
                    ]),
                },
            ]),
            result: Temp(1),
        }
    );
}

#[test]
fn plus_times_and_minus_lower_to_builtin_calls_but_divide_stays_inline() {
    let Program { body, .. } = lower_src("(1 + 2) * 3 - 4 / 5");

    let call_names: Vec<&str> = body
        .0
        .iter()
        .filter_map(|i| match i {
            Instr::CallBuiltin { name, .. } => Some(name.as_str()),
            _ => None,
        })
        .collect();
    let inline_ops: Vec<BinOp> = body
        .0
        .iter()
        .filter_map(|i| match i {
            Instr::BinOp { op, .. } => Some(*op),
            _ => None,
        })
        .collect();
    assert_eq!(call_names, ["add", "mul", "sub"]);
    assert_eq!(inline_ops, [BinOp::Div]);
}

fn kind(instr: &Instr) -> &'static str {
    match instr {
        Instr::Const { .. } => "Const",
        Instr::BinOp { .. } => "BinOp",
        Instr::CallBuiltin { .. } => "CallBuiltin",
        Instr::Copy { .. } => "Copy",
        Instr::If { .. } => "If",
    }
}

fn collect_kinds(block: &Block, kinds: &mut std::collections::BTreeSet<&'static str>) {
    for instr in &block.0 {
        kinds.insert(kind(instr));
        if let Instr::If {
            then_block,
            else_block,
            ..
        } = instr
        {
            collect_kinds(then_block, kinds);
            collect_kinds(else_block, kinds);
        }
    }
}

#[test]
fn lowering_emits_every_kind_of_instruction() {
    let mut kinds = std::collections::BTreeSet::new();
    collect_kinds(&lower_src("if 1 { 2 + 3 } else { 4 / 5 }").body, &mut kinds);

    assert_eq!(
        kinds.into_iter().collect::<Vec<_>>(),
        ["BinOp", "CallBuiltin", "Const", "Copy", "If"]
    );
}

#[test]
fn a_print_statement_lowers_to_a_call_whose_result_is_unused() {
    assert_eq!(
        lower_src("print(1); 2"),
        Program {
            body: Block(vec![
                konst(0, "1"),
                Instr::CallBuiltin {
                    dst: Temp(1),
                    name: "print".to_string(),
                    args: vec![Temp(0)],
                },
                konst(2, "2"),
            ]),
            result: Temp(2),
        }
    );
}

#[test]
fn a_variable_names_the_temp_of_its_innermost_binding() {
    assert_eq!(
        lower_src("{ let x = 1; { let x = 2; x } / x }"),
        Program {
            body: Block(vec![
                konst(0, "1"),
                konst(1, "2"),
                Instr::BinOp {
                    dst: Temp(2),
                    op: BinOp::Div,
                    lhs: Temp(1),
                    rhs: Temp(0),
                },
            ]),
            result: Temp(2),
        }
    );
}

#[test]
fn a_variable_alone_creates_no_instruction() {
    assert_eq!(
        lower_src("{ let y = 7; y }"),
        Program {
            body: Block(vec![konst(0, "7")]),
            result: Temp(0),
        }
    );
}

fn defs(block: &Block, out: &mut Vec<u32>) {
    for instr in &block.0 {
        match instr {
            Instr::Const { dst, .. } | Instr::BinOp { dst, .. } | Instr::CallBuiltin { dst, .. } => {
                out.push(dst.0)
            }
            Instr::Copy { .. } => {}
            Instr::If {
                dst,
                then_block,
                else_block,
                ..
            } => {
                out.push(dst.0);
                defs(then_block, out);
                defs(else_block, out);
            }
        }
    }
}

#[test]
fn every_temp_is_defined_once_in_order_apart_from_the_branch_copies() {
    let program = lower_src("{ let x = 1; print(x); if x - 1 { let y = x * 2; y } else { { 3 } / x } }");
    let mut seen = Vec::new();
    defs(&program.body, &mut seen);
    let n = seen.len() as u32;
    assert_eq!(seen, (0..n).collect::<Vec<_>>());
}
