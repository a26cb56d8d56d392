use calc_lang::ast::Expr;
use calc_lang::frontend::ParserFrontend;
use calc_lang::parser::LalrpopFrontend;
use calc_lang::resolve::{resolve, ResolveError};

fn parse(src: &str) -> Expr {
    LalrpopFrontend.parse(src).expect("should parse")
}

#[test]
fn reports_an_unresolved_identifier() {
    let ast = parse("x + 1");
    assert_eq!(
        resolve(&ast),
        Err(vec![ResolveError::UnresolvedIdentifier {
            name: "x".to_string()
        }])
    );
}

#[test]
fn reports_a_duplicate_binding_in_the_same_scope() {
    let ast = parse("{ let x = 1; let x = 2; x }");
    assert_eq!(
        resolve(&ast),
        Err(vec![ResolveError::DuplicateBinding {
            name: "x".to_string()
        }])
    );
}

#[test]
fn resolves_a_binding_used_in_its_own_blocks_result() {
    let ast = parse("{ let x = 1; x + 2 }");
    assert_eq!(resolve(&ast), Ok(()));
}

#[test]
fn allows_shadowing_across_nested_scopes() {
    let ast = parse("{ let x = 1; if x { let x = 2; x } else { 0 } }");
    assert_eq!(resolve(&ast), Ok(()));
}

#[test]
fn resolves_into_a_print_statements_argument() {
    let ast = parse("{ print(x); 0 }");
    assert_eq!(
        resolve(&ast),
        Err(vec![ResolveError::UnresolvedIdentifier {
            name: "x".to_string()
        }])
    );
}

#[test]
fn a_lets_value_is_resolved_before_its_name_is_bound() {
    assert_eq!(
        resolve(&parse("{ let x = x; x }")),
        Err(vec![ResolveError::UnresolvedIdentifier {
            name: "x".to_string()
        }])
    );
    assert_eq!(resolve(&parse("{ let x = 1; { let x = x; x } }")), Ok(()));
}

#[test]
fn every_error_is_reported_in_the_order_found() {
    assert_eq!(
        resolve(&parse("{ let a = b; let a = 1; c }")),
        Err(vec![
            ResolveError::UnresolvedIdentifier {
                name: "b".to_string()
            },
            ResolveError::DuplicateBinding {
                name: "a".to_string()
            },
            ResolveError::UnresolvedIdentifier {
                name: "c".to_string()
            },
        ])
    );
}

#[test]
fn a_binding_ends_with_its_block() {
    assert_eq!(
        resolve(&parse("{ let y = { let x = 1; x }; x }")),
        Err(vec![ResolveError::UnresolvedIdentifier {
            name: "x".to_string()
        }])
    );
}
