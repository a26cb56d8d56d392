//! Codegen backends and choosing one. Every backend turns a lowered [`Program`] into
//! the bytes of an object file; which backends a build has is fixed when it is
//! compiled, and `--backend=<name>` picks among them.

use vstd::prelude::*;

use crate::ir::Program;
use crate::text::{join, str_eq};

verus! {

/// A backend failure, reported to the user.
#[derive(Debug, PartialEq, Eq)]
pub struct BackendError(pub String);

/// What every codegen backend does: consume the IR, produce an object file's bytes.
pub trait Backend {
    /// The name `--backend=<name>` selects this backend by.
    fn name(&self) -> &'static str;

    /// Compiles `program` to the bytes of a native object file.
    fn compile(&self, program: &Program) -> Result<Vec<u8>, BackendError>;
}

/// Every backend name calc-lang knows of, whether or not a build has it.
pub open spec fn known_backend(name: Seq<char>) -> bool {
    name == "cranelift"@ || name == "llvm"@
}

/// The names of a list of backends, as plain values.
pub open spec fn names_view(names: Seq<&str>) -> Seq<Seq<char>> {
    names.map_values(|n: &str| n@)
}

/// Why `--backend=<name>` names none of the enabled backends `names`.
pub open spec fn not_enabled_message(name: Seq<char>, names: Seq<Seq<char>>) -> Seq<char> {
    if known_backend(name) {
        "this build has no "@ + name + " backend; rebuild with `--features backend-"@ + name
            + "` (enabled: "@ + join(names, ", "@) + ")"@
    } else {
        "unknown backend `"@ + name + "` (enabled: "@ + join(names, ", "@) + ")"@
    }
}

/// Why no backend was named when `names` are enabled.
pub open spec fn no_choice_message(names: Seq<Seq<char>>) -> Seq<char> {
    "several backends are enabled; pick one with --backend=<"@ + join(names, "|"@) + ">"@
}

fn is_known(name: &str) -> (r: bool)
    ensures
        r == known_backend(name@),
{
    str_eq(name, "cranelift") || str_eq(name, "llvm")
}

/// `parts` joined by `sep`.
pub fn join_strs(parts: &[&str], sep: &str) -> (s: String)
    ensures
        s@ == join(names_view(parts@), sep@),
{
    let ghost pv = names_view(parts@);
    let mut s = String::new();
    let mut k: usize = 0;
    while k < parts.len()
        invariant
            k <= parts@.len(),
            pv == names_view(parts@),
            s@ == join(pv.take(k as int), sep@),
        decreases parts@.len() - k,
    {
        let ghost before = s@;
        if k > 0 {
            s.append(sep);
        }
        s.append(parts[k]);
        assert(pv.take(k + 1).drop_last() =~= pv.take(k as int));
        assert(pv.take(k + 1).last() == pv[k as int]);
        if k == 0 {
            assert(pv.take(1)[0] == pv[0]);
        }
        k = k + 1;
    }
    assert(pv.take(parts@.len() as int) =~= pv);
    s
}

/// Picks, among the enabled backends named `names`, the one `--backend=<name>`
/// asks for, by its index in `names`. With no name, a sole enabled backend is the
/// implicit default; when several are enabled the user must choose.
pub fn select_from(names: &[&str], name: Option<&str>) -> (r: Result<usize, BackendError>)
    ensures
        name matches Some(n) ==> match r {
            Ok(i) => i < names@.len() && names@[i as int]@ == n@ && forall|j: int|
                0 <= j < i ==> names@[j]@ != n@,
            Err(e) => (forall|j: int| 0 <= j < names@.len() ==> names@[j]@ != n@) && e.0@
                == not_enabled_message(n@, names_view(names@)),
        },
        name is None && names@.len() == 1 ==> r == Ok::<usize, BackendError>(0),
        name is None && names@.len() != 1 ==> (r matches Err(e) && e.0@ == no_choice_message(
            names_view(names@),
        )),
{
    match name {
        Some(n) => {
            let mut k: usize = 0;
            while k < names.len()
                invariant
                    name == Some(n),
                    k <= names@.len(),
                    forall|j: int| 0 <= j < k ==> names@[j]@ != n@,
                decreases names@.len() - k,
            {
                if str_eq(names[k], n) {
                    assert(names@[k as int]@ == n@);
                    return Ok(k);
                }
                k = k + 1;
            }
            let listed = join_strs(names, ", ");
            let mut msg = String::new();
            if is_known(n) {
                msg.append("this build has no ");
                msg.append(n);
                msg.append(" backend; rebuild with `--features backend-");
                msg.append(n);
                msg.append("` (enabled: ");
            } else {
                msg.append("unknown backend `");
                msg.append(n);
                msg.append("` (enabled: ");
            }
            msg.append(listed.as_str());
            msg.append(")");
            Err(BackendError(msg))
        },
        None => {
            if names.len() == 1 {
                Ok(0)
            } else {
                let listed = join_strs(names, "|");
                let mut msg = String::new();
                msg.append("several backends are enabled; pick one with --backend=<");
                msg.append(listed.as_str());
                msg.append(">");
                Err(BackendError(msg))
            }
        },
    }
}

} // verus!
