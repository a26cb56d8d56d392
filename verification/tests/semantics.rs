use calc_lang::ast::{BinOp, Expr, Stmt};
use calc_lang::frontend::ParserFrontend;
use calc_lang::ir::{Block, Instr};
use calc_lang::lower::lower;
use calc_lang::parser::LalrpopFrontend;

fn apply(op: &BinOp, a: i64, b: i64) -> i64 {
    match op {
        BinOp::Add => a + b,
        BinOp::Sub => a - b,
        BinOp::Mul => a * b,
        BinOp::Div => a / b,
    }
}

fn eval(e: &Expr, env: &mut Vec<Vec<(String, i64)>>) -> i64 {
    match e {
        Expr::Number(s) => s.parse().unwrap(),
        Expr::Var(name) => {
            for frame in env.iter().rev() {
                for (n, v) in frame.iter().rev() {
                    if n == name {
                        return *v;
                    }
                }
            }
            panic!("unbound {name}")
        }
        Expr::BinOp(l, op, r) => {
            let a = eval(l, env);
            let b = eval(r, env);
            apply(op, a, b)
        }
        Expr::If { cond, then_branch, else_branch } => {
            if eval(cond, env) != 0 {
                eval(then_branch, env)
            } else {
                eval(else_branch, env)
            }
        }
        Expr::Block { stmts, result } => {
            env.push(Vec::new());
            for stmt in stmts {
                match stmt {
                    Stmt::Let { name, value } => {
                        let v = eval(value, env);
                        env.last_mut().unwrap().push((name.clone(), v));
                    }
                    Stmt::Print(value) => {
                        eval(value, env);
                    }
                }
            }
            let v = eval(result, env);
            env.pop();
            v
        }
    }
}

fn run(block: &Block, store: &mut Vec<i64>) {
    for ins in &block.0 {
        match ins {
            Instr::Const { dst, value } => store[dst.0 as usize] = value.parse().unwrap(),
            Instr::BinOp { dst, op, lhs, rhs } => {
                store[dst.0 as usize] = apply(op, store[lhs.0 as usize], store[rhs.0 as usize])
            }
            Instr::CallBuiltin { dst, name, args } => {
                let a: Vec<i64> = args.iter().map(|t| store[t.0 as usize]).collect();
                store[dst.0 as usize] = match name.as_str() {
                    "add" => a[0] + a[1],
                    "sub" => a[0] - a[1],
                    "mul" => a[0] * a[1],
                    _ => 0,
                };
            }
            Instr::Copy { dst, src } => store[dst.0 as usize] = store[src.0 as usize],
            Instr::If { cond, then_block, else_block, .. } => {
                if store[cond.0 as usize] != 0 {
                    run(then_block, store)
                } else {
                    run(else_block, store)
                }
            }
        }
    }
}

fn both_ways(src: &str) -> (i64, i64) {
    let expr = LalrpopFrontend.parse(src).expect("should parse");
    let direct = eval(&expr, &mut Vec::new());
    let program = lower(&expr);
    let mut store = vec![-7; 64];
    run(&program.body, &mut store);
    (direct, store[program.result.0 as usize])
}

#[test]
fn running_lowered_code_gives_the_programs_value() {
    for src in [
        "(1 + 2) * 3 - 4 / 2",
        "{ let x = 2; let y = x * 5; { let x = y - 1; x + y } }",
        "{ let c = 0; if c { 10 } else { if 1 { 20 - c } else { 30 } } }",
        "{ print(3); let a = { let b = 4; b * b }; print(a); a + 1 }",
    ] {
        let (direct, lowered) = both_ways(src);
        assert_eq!(direct, lowered, "{src}");
    }
}

#[test]
fn shadowed_names_read_the_innermost_binding_after_lowering() {
    assert_eq!(both_ways("{ let x = 1; let x = x + 10; { let x = x * 2; x } + x }"), (33, 33));
}
