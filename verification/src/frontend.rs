//! What any parser frontend for calc-lang reports: a typed AST on success, located
//! diagnostics on failure, and a role model naming the grammar's structural rules,
//! so nothing downstream depends on how the parse was done.

use vstd::prelude::*;

verus! {

/// A parse error, located by byte offset into the source text.
#[derive(Debug, Clone, PartialEq)]
pub struct ParseDiagnostic {
    pub message: String,
    pub offset: usize,
}

/// A grammar rule tagged as control flow: the kind of construct and the rule that
/// holds it.
#[derive(Debug, Clone, PartialEq)]
pub struct ControlFlowRole {
    pub kind: String,
    pub rule: String,
}

/// The structural roles of a grammar's rules, independent of the AST its actions
/// build.
#[derive(Debug, Clone, PartialEq)]
pub struct RoleModel {
    pub identifiers: Vec<String>,
    pub keywords: Vec<String>,
    pub control_flow: Vec<ControlFlowRole>,
    pub scopes: Vec<String>,
    pub bindings: Vec<String>,
}

impl Default for RoleModel {
    fn default() -> (r: RoleModel)
        ensures
            r.identifiers@.len() == 0,
            r.keywords@.len() == 0,
            r.control_flow@.len() == 0,
            r.scopes@.len() == 0,
            r.bindings@.len() == 0,
    {
        RoleModel {
            identifiers: Vec::new(),
            keywords: Vec::new(),
            control_flow: Vec::new(),
            scopes: Vec::new(),
            bindings: Vec::new(),
        }
    }
}

/// A parsing strategy: source text to a typed AST or diagnostics, plus the role
/// model of the grammar it reads.
pub trait ParserFrontend {
    type Ast;

    fn parse(&self, src: &str) -> Result<Self::Ast, Vec<ParseDiagnostic>>;

    fn role_model(&self) -> RoleModel;
}

} // verus!
