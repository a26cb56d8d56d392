use calc_lang::ir::{Block, Instr, Program, Temp};
use calc_lang::pipeline::{compile_front, parse_and_resolve, FrontEndError};
use calc_lang::resolve::ResolveError;

#[test]
fn the_front_end_stops_at_the_first_failing_stage() {
    match parse_and_resolve("1 +") {
        Err(FrontEndError::Parse(ds)) => assert_eq!(ds.len(), 1),
        other => panic!("{other:?}"),
    }
    match parse_and_resolve("x") {
        Err(FrontEndError::Resolve(es)) => assert_eq!(
            es,
            [ResolveError::UnresolvedIdentifier {
                name: "x".to_string()
            }]
        ),
        other => panic!("{other:?}"),
    }
    assert!(parse_and_resolve("{ let x = 1; x }").is_ok());
}

#[test]
fn a_valid_program_is_lowered() {
    match compile_front("2 / 4") {
        Ok(program) => assert_eq!(
            program,
            Program {
                body: Block(vec![
                    Instr::Const {
                        dst: Temp(0),
                        value: "2".to_string()
                    },
                    Instr::Const {
                        dst: Temp(1),
                        value: "4".to_string()
                    },
                    Instr::BinOp {
                        dst: Temp(2),
                        op: calc_lang::ast::BinOp::Div,
                        lhs: Temp(0),
                        rhs: Temp(1)
                    },
                ]),
                result: Temp(2),
            }
        ),
        Err(err) => panic!("{err:?}"),
    }
}
