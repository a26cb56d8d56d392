use calc_lang::ast::{BinOp, Expr, Stmt};
use calc_lang::frontend::ParserFrontend;
use calc_lang::parser::LalrpopFrontend;

fn num(s: &str) -> Box<Expr> {
    Box::new(Expr::Number(s.to_string()))
}

fn var(s: &str) -> Box<Expr> {
    Box::new(Expr::Var(s.to_string()))
}

fn block(result: Box<Expr>) -> Box<Expr> {
    Box::new(Expr::Block {
        stmts: vec![],
        result,
    })
}

#[test]
fn parses_arithmetic_variables_and_if_else() {
    let frontend = LalrpopFrontend;
    let ast = frontend
        .parse("if x - 1 { 2 + 3 * 4 } else { y / 2 }")
        .expect("should parse");

    let expected = Expr::If {
        cond: Box::new(Expr::BinOp(var("x"), BinOp::Sub, num("1"))),
        then_branch: block(Box::new(Expr::BinOp(
            num("2"),
            BinOp::Add,
            Box::new(Expr::BinOp(num("3"), BinOp::Mul, num("4"))),
        ))),
        else_branch: block(Box::new(Expr::BinOp(var("y"), BinOp::Div, num("2")))),
    };
    assert_eq!(ast, expected);
}

#[test]
fn reports_a_diagnostic_for_invalid_syntax() {
    let frontend = LalrpopFrontend;
    let err = frontend.parse("1 + ").unwrap_err();
    assert_eq!(err.len(), 1);
}

#[test]
fn role_model_reflects_calc_langs_own_grammar() {
    let frontend = LalrpopFrontend;
    let roles = frontend.role_model();
    assert!(roles.keywords.contains(&"if".to_string()));
    assert!(roles.keywords.contains(&"else".to_string()));
    assert_eq!(roles.control_flow.len(), 1);
}

#[test]
fn role_model_lists_the_if_else_keywords() {
    assert_eq!(LalrpopFrontend.role_model().keywords, vec!["if", "else"]);
}

#[test]
fn parses_if_else_into_typed_ast_shape() {
    let frontend = LalrpopFrontend;
    let ast = frontend.parse("if x { 1 } else { 2 }").expect("should parse");

    assert_eq!(
        ast,
        Expr::If {
            cond: var("x"),
            then_branch: block(num("1")),
            else_branch: block(num("2")),
        }
    );
}

#[test]
fn the_role_model_names_blocks_as_scopes_and_statements_as_bindings() {
    let roles = LalrpopFrontend.role_model();
    assert_eq!(roles.identifiers, ["Ident"]);
    assert_eq!(roles.scopes, ["Block"]);
    assert_eq!(roles.bindings, ["Stmt"]);
    assert_eq!(roles.control_flow[0].kind, "if");
    assert_eq!(roles.control_flow[0].rule, "Term");
}

#[test]
fn a_top_level_program_with_statements_is_a_block() {
    let ast = LalrpopFrontend.parse("print(1); let x = 2.5; x").unwrap();
    assert_eq!(
        ast,
        Expr::Block {
            stmts: vec![
                Stmt::Print(Expr::Number("1".to_string())),
                Stmt::Let {
                    name: "x".to_string(),
                    value: Expr::Number("2.5".to_string()),
                },
            ],
            result: var("x"),
        }
    );
}

#[test]
fn operators_associate_to_the_left_and_bind_by_precedence() {
    let ast = LalrpopFrontend.parse("1 - 2 - 3 * 4 / 5").unwrap();
    assert_eq!(
        ast,
        Expr::BinOp(
            Box::new(Expr::BinOp(num("1"), BinOp::Sub, num("2"))),
            BinOp::Sub,
            Box::new(Expr::BinOp(
                Box::new(Expr::BinOp(num("3"), BinOp::Mul, num("4"))),
                BinOp::Div,
                num("5"),
            )),
        )
    );
}

#[test]
fn an_unexpected_end_of_input_points_at_the_end() {
    let err = LalrpopFrontend.parse("1 + ").unwrap_err();
    assert_eq!(err[0].offset, 4);
    assert_eq!(err[0].message, "unexpected end of input");
}

#[test]
fn an_unexpected_token_is_located_by_its_first_byte() {
    let err = LalrpopFrontend.parse("1 + + 2").unwrap_err();
    assert_eq!(err.len(), 1);
    assert_eq!(err[0].offset, 4);
    assert_eq!(err[0].message, "unexpected token");
}

#[test]
fn an_extra_token_after_the_program_is_an_error() {
    let err = LalrpopFrontend.parse("1 2").unwrap_err();
    assert_eq!(err[0].offset, 2);
}

#[test]
fn a_character_that_starts_no_token_is_an_invalid_token() {
    let err = LalrpopFrontend.parse("1 + $").unwrap_err();
    assert_eq!(err[0].offset, 4);
    assert_eq!(err[0].message, "invalid token");
}

#[test]
fn parenthesised_and_block_terms_nest() {
    let ast = LalrpopFrontend.parse("(1 + 2) * { 3 }").unwrap();
    assert_eq!(
        ast,
        Expr::BinOp(
            Box::new(Expr::BinOp(num("1"), BinOp::Add, num("2"))),
            BinOp::Mul,
            block(num("3")),
        )
    );
}
