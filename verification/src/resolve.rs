//! Name resolution: every identifier must be bound by a `let` in an enclosing block,
//! and no block may bind the same name twice. Each block opens a scope; a name bound
//! in an outer block may be bound again (shadowed) in an inner one.

use vstd::prelude::*;

use crate::ast::{Expr, ExprV, Stmt, StmtV};
use crate::lower::{block_vars_bound, vars_bound};
use crate::text::str_eq;

verus! {

/// A resolution error.
#[derive(Debug, Clone, PartialEq)]
pub enum ResolveError {
    /// `name` is used where no enclosing block binds it.
    UnresolvedIdentifier { name: String },
    /// `name` is bound twice in one block.
    DuplicateBinding { name: String },
}

/// What a [`ResolveError`] holds, as plain values.
pub enum ResolveErrorV {
    UnresolvedIdentifier { name: Seq<char> },
    DuplicateBinding { name: Seq<char> },
}

impl View for ResolveError {
    type V = ResolveErrorV;

    open spec fn view(&self) -> ResolveErrorV {
        match self {
            ResolveError::UnresolvedIdentifier { name } => ResolveErrorV::UnresolvedIdentifier {
                name: name@,
            },
            ResolveError::DuplicateBinding { name } => ResolveErrorV::DuplicateBinding {
                name: name@,
            },
        }
    }
}

/// The names bound so far in each open scope, outermost first.
pub type Scopes = Seq<Seq<Seq<char>>>;

/// Some open scope binds `name`.
pub open spec fn in_scope(scopes: Scopes, name: Seq<char>) -> bool {
    exists|k: int| 0 <= k < scopes.len() && #[trigger] scopes[k].contains(name)
}

/// The errors resolving `e` finds, in the order it finds them, under `scopes`.
pub open spec fn expr_errors(e: ExprV, scopes: Scopes) -> Seq<ResolveErrorV>
    decreases e, 1int, 0int,
{
    match e {
        ExprV::Number(_) => Seq::empty(),
        ExprV::Var(name) => if in_scope(scopes, name) {
            Seq::empty()
        } else {
            seq![ResolveErrorV::UnresolvedIdentifier { name }]
        },
        ExprV::BinOp(l, _, r) => expr_errors(*l, scopes) + expr_errors(*r, scopes),
        ExprV::If { cond, then_branch, else_branch } => expr_errors(*cond, scopes) + expr_errors(
            *then_branch,
            scopes,
        ) + expr_errors(*else_branch, scopes),
        ExprV::Block { .. } => block_errors(e, 0, scopes, Seq::empty()),
    }
}

/// The errors from statement `i` of `block` on, then its result: `outer` are the
/// enclosing scopes, `cur` the names the block's statements before `i` bound.
pub open spec fn block_errors(block: ExprV, i: int, outer: Scopes, cur: Seq<Seq<char>>) -> Seq<
    ResolveErrorV,
>
    decreases block, 0int, (if block is Block { block->stmts.len() - i } else { 0 }),
{
    match block {
        ExprV::Block { stmts, result } => {
            let scopes = outer.push(cur);
            if i < 0 || i >= stmts.len() {
                expr_errors(*result, scopes)
            } else {
                match stmts[i] {
                    StmtV::Let { name, value } => {
                        let here = expr_errors(value, scopes);
                        if cur.contains(name) {
                            here + seq![ResolveErrorV::DuplicateBinding { name }] + block_errors(
                                block,
                                i + 1,
                                outer,
                                cur,
                            )
                        } else {
                            here + block_errors(block, i + 1, outer, cur.push(name))
                        }
                    },
                    StmtV::Print(value) => expr_errors(value, scopes) + block_errors(
                        block,
                        i + 1,
                        outer,
                        cur,
                    ),
                }
            }
        },
        _ => Seq::empty(),
    }
}

/// What resolving a whole program gives: `Ok` when it finds no error, else every
/// error, in the order found.
pub open spec fn spec_resolve(e: ExprV) -> Result<(), Seq<ResolveErrorV>> {
    let errs = expr_errors(e, Seq::empty());
    if errs.len() == 0 {
        Ok(())
    } else {
        Err(errs)
    }
}

/// The open scopes as plain values.
pub open spec fn scopes_view(scopes: Seq<Vec<String>>) -> Scopes {
    scopes.map_values(|s: Vec<String>| s@.map_values(|n: String| n@))
}

/// The plain values of a list of errors.
pub open spec fn errors_view(errs: Seq<ResolveError>) -> Seq<ResolveErrorV> {
    errs.map_values(|e: ResolveError| e@)
}

fn names_contain(names: &Vec<String>, name: &String) -> (r: bool)
    ensures
        r == names@.map_values(|n: String| n@).contains(name@),
{
    let ghost view = names@.map_values(|n: String| n@);
    let mut k: usize = 0;
    while k < names.len()
        invariant
            k <= names@.len(),
            view == names@.map_values(|n: String| n@),
            forall|j: int| 0 <= j < k ==> view[j] != name@,
        decreases names@.len() - k,
    {
        if str_eq(names[k].as_str(), name.as_str()) {
            assert(view[k as int] == name@);
            return true;
        }
        k = k + 1;
    }
    false
}

fn in_scope_exec(scopes: &Vec<Vec<String>>, name: &String) -> (r: bool)
    ensures
        r == in_scope(scopes_view(scopes@), name@),
{
    let ghost view = scopes_view(scopes@);
    let mut k: usize = 0;
    while k < scopes.len()
        invariant
            k <= scopes@.len(),
            view == scopes_view(scopes@),
            forall|j: int| 0 <= j < k ==> !view[j].contains(name@),
        decreases scopes@.len() - k,
    {
        if names_contain(&scopes[k], name) {
            assert(view[k as int].contains(name@));
            return true;
        }
        k = k + 1;
    }
    false
}

fn push_error(errors: &mut Vec<ResolveError>, err: ResolveError)
    ensures
        errors_view(final(errors)@) == errors_view(old(errors)@).push(err@),
{
    let ghost before = errors@;
    errors.push(err);
    assert(errors_view(errors@) =~= errors_view(before).push(err@));
}

fn resolve_expr(e: &Expr, scopes: &mut Vec<Vec<String>>, errors: &mut Vec<ResolveError>)
    ensures
        scopes_view(final(scopes)@) == scopes_view(old(scopes)@),
        errors_view(final(errors)@) == errors_view(old(errors)@) + expr_errors(
            e@,
            scopes_view(old(scopes)@),
        ),
    decreases e,
{
    let ghost sv = scopes_view(scopes@);
    let ghost ev = errors_view(errors@);
    match e {
        Expr::Number(_) => {
            assert(ev + Seq::<ResolveErrorV>::empty() =~= ev);
        },
        Expr::Var(name) => {
            if in_scope_exec(scopes, name) {
                assert(ev + Seq::<ResolveErrorV>::empty() =~= ev);
            } else {
                push_error(errors, ResolveError::UnresolvedIdentifier { name: name.clone() });
                assert(ev.push(ResolveErrorV::UnresolvedIdentifier { name: name@ }) =~= ev + seq![
                    ResolveErrorV::UnresolvedIdentifier { name: name@ },
                ]);
            }
        },
        Expr::BinOp(l, _, r) => {
            resolve_expr(l, scopes, errors);
            resolve_expr(r, scopes, errors);
            assert(ev + expr_errors(l@, sv) + expr_errors(r@, sv) =~= ev + (expr_errors(l@, sv)
                + expr_errors(r@, sv)));
        },
        Expr::If { cond, then_branch, else_branch } => {
            resolve_expr(cond, scopes, errors);
            resolve_expr(then_branch, scopes, errors);
            resolve_expr(else_branch, scopes, errors);
            assert(ev + expr_errors(cond@, sv) + expr_errors(then_branch@, sv) + expr_errors(
                else_branch@,
                sv,
            ) =~= ev + (expr_errors(cond@, sv) + expr_errors(then_branch@, sv) + expr_errors(
                else_branch@,
                sv,
            )));
        },
        Expr::Block { stmts, result } => {
            let fresh: Vec<String> = Vec::new();
            assert(fresh@.map_values(|n: String| n@) =~= Seq::<Seq<char>>::empty());
            scopes.push(fresh);
            assert(scopes_view(scopes@) =~= sv.push(Seq::empty()));
            let mut i: usize = 0;
            while i < stmts.len()
                invariant
                    *e is Block && e->stmts == *stmts,
                    e@ is Block && e@->stmts.len() == stmts@.len(),
                    forall|j: int| 0 <= j < stmts@.len() ==> e@->stmts[j] == (#[trigger] stmts@[j])@,
                    i <= stmts@.len(),
                    scopes@.len() == sv.len() + 1,
                    scopes_view(scopes@) == sv.push(scopes_view(scopes@).last()),
                    errors_view(errors@) + block_errors(
                        e@,
                        i as int,
                        sv,
                        scopes_view(scopes@).last(),
                    ) == ev + expr_errors(e@, sv),
                decreases stmts@.len() - i,
            {
                let ghost cur = scopes_view(scopes@).last();
                let ghost before = errors_view(errors@);
                let ghost inner = scopes_view(scopes@);
                match &stmts[i] {
                    Stmt::Let { name, value } => {
                        proof {
                            assert(*stmts == e->stmts);
                            assert(decreases_to!(*e => e->stmts));
                            assert(decreases_to!(*stmts => stmts@));
                            assert(decreases_to!(stmts@ => stmts@[i as int]));
                            assert(decreases_to!(stmts@[i as int] => *value));
                        }
                        resolve_expr(value, scopes, errors);
                        let ghost mid = scopes@;
                        assert(scopes_view(mid) == inner);
                        let mut last = scopes.pop().unwrap();
                        assert(scopes@ == mid.drop_last() && last == mid.last());
                        assert forall|k: int| 0 <= k < sv.len() implies scopes_view(scopes@)[k]
                            == sv[k] by {
                            assert(scopes_view(mid)[k] == inner[k]);
                        }
                        assert(last@.map_values(|n: String| n@) == cur);
                        if names_contain(&last, name) {
                            scopes.push(last);
                            assert(scopes_view(scopes@) =~= inner);
                            push_error(errors, ResolveError::DuplicateBinding { name: name.clone() });
                        } else {
                            last.push(name.clone());
                            assert(last@.map_values(|n: String| n@) =~= cur.push(name@));
                            scopes.push(last);
                            assert(scopes_view(scopes@) =~= sv.push(cur.push(name@)));
                        }
                    },
                    Stmt::Print(value) => {
                        proof {
                            assert(*stmts == e->stmts);
                            assert(decreases_to!(*e => e->stmts));
                            assert(decreases_to!(*stmts => stmts@));
                            assert(decreases_to!(stmts@ => stmts@[i as int]));
                            assert(decreases_to!(stmts@[i as int] => *value));
                        }
                        resolve_expr(value, scopes, errors);
                    },
                }
                i = i + 1;
            }
            let ghost last = scopes_view(scopes@).last();
            resolve_expr(result, scopes, errors);
            let ghost full = scopes@;
            assert(scopes_view(full) == sv.push(last));
            assert(full.len() == sv.len() + 1);
            let _ = scopes.pop();
            assert(scopes@ =~= full.drop_last());
            assert forall|k: int| 0 <= k < sv.len() implies scopes_view(scopes@)[k] == sv[k] by {
                assert(scopes_view(full)[k] == sv.push(last)[k]);
            }
            assert(scopes_view(scopes@) =~= sv);
        },
    }
}

/// Resolves every identifier in `expr` against the scopes its blocks open,
/// collecting every error rather than stopping at the first.
pub fn resolve(expr: &Expr) -> (r: Result<(), Vec<ResolveError>>)
    ensures
        match spec_resolve(expr@) {
            Ok(()) => r is Ok,
            Err(errs) => r matches Err(es) && errors_view(es@) == errs,
        },
{
    let mut scopes: Vec<Vec<String>> = Vec::new();
    let mut errors: Vec<ResolveError> = Vec::new();
    assert(scopes_view(scopes@) =~= Seq::empty());
    assert(errors_view(errors@) =~= Seq::empty());
    resolve_expr(expr, &mut scopes, &mut errors);
    assert(errors_view(errors@) =~= expr_errors(expr@, Seq::empty()));
    if errors.len() == 0 {
        Ok(())
    } else {
        Err(errors)
    }
}

/// No block in `e` binds the same name twice.
pub open spec fn no_duplicate_bindings(e: ExprV) -> bool
    decreases e, 1int, 0int,
{
    match e {
        ExprV::Number(_) => true,
        ExprV::Var(_) => true,
        ExprV::BinOp(l, _, r) => no_duplicate_bindings(*l) && no_duplicate_bindings(*r),
        ExprV::If { cond, then_branch, else_branch } => no_duplicate_bindings(*cond)
            && no_duplicate_bindings(*then_branch) && no_duplicate_bindings(*else_branch),
        ExprV::Block { .. } => block_no_duplicates(e, 0, Seq::empty()),
    }
}

/// From statement `i` of `block` on, no `let` binds a name `bound` holds or a later
/// `let` of the block binds, and no nested block binds a name twice.
pub open spec fn block_no_duplicates(block: ExprV, i: int, bound: Seq<Seq<char>>) -> bool
    decreases block, 0int, (if block is Block { block->stmts.len() - i } else { 0 }),
{
    match block {
        ExprV::Block { stmts, result } => if i < 0 || i >= stmts.len() {
            no_duplicate_bindings(*result)
        } else {
            match stmts[i] {
                StmtV::Let { name, value } => no_duplicate_bindings(value) && !bound.contains(name)
                    && block_no_duplicates(block, i + 1, bound.push(name)),
                StmtV::Print(value) => no_duplicate_bindings(value) && block_no_duplicates(
                    block,
                    i + 1,
                    bound,
                ),
            }
        },
        _ => true,
    }
}

/// Resolution finds no error in `e` under `scopes` exactly when every variable `e`
/// uses is bound where it is used and no block of `e` binds a name twice.
pub proof fn lemma_resolve_accepts_exactly(e: ExprV, scopes: Scopes)
    ensures
        expr_errors(e, scopes).len() == 0 <==> vars_bound(e, scopes) && no_duplicate_bindings(e),
    decreases e, 1int, 0int,
{
    match e {
        ExprV::Number(_) => {},
        ExprV::Var(_) => {},
        ExprV::BinOp(l, _, r) => {
            lemma_resolve_accepts_exactly(*l, scopes);
            lemma_resolve_accepts_exactly(*r, scopes);
        },
        ExprV::If { cond, then_branch, else_branch } => {
            lemma_resolve_accepts_exactly(*cond, scopes);
            lemma_resolve_accepts_exactly(*then_branch, scopes);
            lemma_resolve_accepts_exactly(*else_branch, scopes);
        },
        ExprV::Block { .. } => {
            lemma_block_resolve_accepts_exactly(e, 0, scopes, Seq::empty());
        },
    }
}

/// The block part of [`lemma_resolve_accepts_exactly`].
pub proof fn lemma_block_resolve_accepts_exactly(
    block: ExprV,
    i: int,
    outer: Scopes,
    cur: Seq<Seq<char>>,
)
    requires
        0 <= i,
    ensures
        block_errors(block, i, outer, cur).len() == 0 <==> block_vars_bound(block, i, outer, cur)
            && block_no_duplicates(block, i, cur),
    decreases block, 0int, (if block is Block { block->stmts.len() - i } else { 0 }),
{
    match block {
        ExprV::Block { stmts, result } => {
            let scopes = outer.push(cur);
            if i >= stmts.len() {
                lemma_resolve_accepts_exactly(*result, scopes);
            } else {
                match stmts[i] {
                    StmtV::Let { name, value } => {
                        lemma_resolve_accepts_exactly(value, scopes);
                        lemma_block_resolve_accepts_exactly(block, i + 1, outer, cur.push(name));
                        lemma_block_resolve_accepts_exactly(block, i + 1, outer, cur);
                    },
                    StmtV::Print(value) => {
                        lemma_resolve_accepts_exactly(value, scopes);
                        lemma_block_resolve_accepts_exactly(block, i + 1, outer, cur);
                    },
                }
            }
        },
        _ => {},
    }
}

/// A program resolves exactly when every variable it uses is bound where it is used
/// and no block binds a name twice; shadowing a name in an inner block is allowed.
pub proof fn lemma_programs_that_resolve(e: ExprV)
    ensures
        spec_resolve(e) is Ok <==> vars_bound(e, Seq::empty()) && no_duplicate_bindings(e),
{
    lemma_resolve_accepts_exactly(e, Seq::empty());
}

} // verus!
