//! calc-lang's built-in manifest: what each built-in *is* — its DSL-visible name,
//! the linker symbol compiled code calls, its arity, which of the three binding
//! kinds backs it, and what that kind needs at link time and at run time. Pure data,
//! plus the small questions the compiler asks of it.

use vstd::prelude::*;

use crate::text::{spec_contains, spec_replace, str_contains, str_eq, str_replace};

verus! {

/// One entry of the built-in manifest.
#[derive(Debug, Clone, Copy, PartialEq)]
pub struct Builtin {
    /// The name calc-lang's lowering uses (`+` lowers to `add`, and so on).
    pub name: &'static str,
    /// The C-ABI symbol compiled code calls; the link driver must find exactly one
    /// link unit exporting it.
    pub symbol: &'static str,
    /// Argument count. Every argument and the result are numbers, calc-lang's only
    /// type, so an arity is a whole signature.
    pub arity: usize,
    /// Which binding kind backs it, with that kind's own dependency data.
    pub kind: BindingKind,
}

/// Which of the three binding kinds backs a built-in, carrying the data each kind
/// needs to be linked and run. Compiled code calls every kind the same way (an
/// ordinary linked `call`); what differs is where the symbol is defined and what it
/// drags in.
#[derive(Debug, Clone, Copy, PartialEq)]
pub enum BindingKind {
    /// Rust compiled into the runtime's own static archive.
    NativeRust,
    /// A separately built C-ABI static library, linked as its own link unit.
    /// `library` is its link name; `link_deps` lists the system libraries it needs.
    Ffi { library: &'static str, link_deps: &'static [LinkDep] },
    /// An external program speaking the JSON protocol, started by the runtime's shim.
    /// `commands` holds exactly one [`IpcCommand`] per target family; `bundle`, if
    /// set, names a directory of files the command needs, which `calcc build`
    /// embeds in the executable.
    Ipc { commands: &'static [IpcCommand], bundle: Option<&'static str> },
}

/// How to start an IPC built-in's program on one platform. In `program`, `args` and
/// `env` values, [`BUNDLE_PLACEHOLDER`] stands for the bundle's directory.
#[derive(Debug, Clone, Copy, PartialEq, Eq)]
pub struct IpcCommand {
    /// The executable: a name looked up on `PATH`, or a path inside the bundle.
    pub program: &'static str,
    pub args: &'static [&'static str],
    /// Extra environment variables.
    pub env: &'static [(&'static str, &'static str)],
    /// Arguments `calcc build` runs `program` with to check it works on the build
    /// machine (it must exit 0).
    pub probe: Option<&'static [&'static str]>,
    /// The `target_family` (`"windows"` / `"unix"`) this command is for; `None`
    /// means every platform.
    pub only_on: Option<&'static str>,
}

/// Stands for the bundle's directory in an [`IpcCommand`]'s `program`, `args` and
/// `env` values.
pub const BUNDLE_PLACEHOLDER: &'static str = "{bundle}";

/// An [`IpcCommand`] with the bundle directory filled in, ready to spawn.
#[derive(Debug, Clone, PartialEq, Eq)]
pub struct ResolvedCommand {
    pub program: String,
    pub args: Vec<String>,
    pub env: Vec<(String, String)>,
}

/// Whether `s` mentions the bundle placeholder.
pub open spec fn refers_to_bundle(s: &str) -> bool {
    spec_contains(s@, BUNDLE_PLACEHOLDER@)
}

/// `s` with the bundle placeholder filled in with `dir`.
pub open spec fn fill_bundle(s: &str, dir: Seq<char>) -> Seq<char> {
    spec_replace(s@, BUNDLE_PLACEHOLDER@, dir)
}

/// Whether some argument refers to the bundle.
pub open spec fn args_refer(args: Seq<&str>) -> bool {
    exists|i: int| 0 <= i < args.len() && refers_to_bundle(#[trigger] args[i])
}

/// Whether some environment value refers to the bundle.
pub open spec fn env_refers(env: Seq<(&str, &str)>) -> bool {
    exists|i: int| 0 <= i < env.len() && refers_to_bundle(#[trigger] env[i].1)
}

/// The placeholder's characters are `{bundle}`: not empty.
proof fn lemma_placeholder_nonempty()
    ensures
        BUNDLE_PLACEHOLDER@.len() == 8,
{
    reveal_strlit("{bundle}");
}

impl IpcCommand {
    /// Whether the executable itself lives inside the bundle rather than on `PATH`.
    /// Only `program` decides that: `python3 {bundle}` still needs `python3` on
    /// `PATH`, however much of `args` or `env` points into the bundle.
    pub fn runs_from_bundle(&self) -> (r: bool)
        ensures
            r == refers_to_bundle(self.program),
    {
        str_contains(self.program, BUNDLE_PLACEHOLDER)
    }

    /// Whether anything in the command — `program`, `args` or `env` — refers to the
    /// bundle. Must be true exactly when the built-in declares a bundle.
    pub fn uses_bundle(&self) -> (r: bool)
        ensures
            r == (refers_to_bundle(self.program) || args_refer(self.args@) || env_refers(self.env@)),
    {
        if str_contains(self.program, BUNDLE_PLACEHOLDER) {
            return true;
        }
        let mut i: usize = 0;
        while i < self.args.len()
            invariant
                i <= self.args@.len(),
                forall|j: int| 0 <= j < i ==> !refers_to_bundle(#[trigger] self.args@[j]),
            decreases self.args@.len() - i,
        {
            if str_contains(self.args[i], BUNDLE_PLACEHOLDER) {
                return true;
            }
            i = i + 1;
        }
        let mut k: usize = 0;
        while k < self.env.len()
            invariant
                k <= self.env@.len(),
                !args_refer(self.args@),
                forall|j: int| 0 <= j < k ==> !refers_to_bundle(#[trigger] self.env@[j].1),
            decreases self.env@.len() - k,
        {
            if str_contains(self.env[k].1, BUNDLE_PLACEHOLDER) {
                return true;
            }
            k = k + 1;
        }
        false
    }

    /// Fills [`BUNDLE_PLACEHOLDER`] in with `bundle_dir`.
    pub fn resolve(&self, bundle_dir: &str) -> (r: ResolvedCommand)
        ensures
            r.program@ == fill_bundle(self.program, bundle_dir@),
            r.args@.len() == self.args@.len(),
            forall|i: int|
                0 <= i < self.args@.len() ==> (#[trigger] r.args@[i])@ == fill_bundle(
                    self.args@[i],
                    bundle_dir@,
                ),
            r.env@.len() == self.env@.len(),
            forall|i: int|
                0 <= i < self.env@.len() ==> {
                    &&& (#[trigger] r.env@[i]).0@ == self.env@[i].0@
                    &&& r.env@[i].1@ == fill_bundle(self.env@[i].1, bundle_dir@)
                },
    {
        proof {
            lemma_placeholder_nonempty();
        }
        let program = str_replace(self.program, BUNDLE_PLACEHOLDER, bundle_dir);
        let mut args: Vec<String> = Vec::new();
        let mut i: usize = 0;
        while i < self.args.len()
            invariant
                BUNDLE_PLACEHOLDER@.len() == 8,
                i <= self.args@.len(),
                args@.len() == i,
                forall|j: int|
                    0 <= j < i ==> (#[trigger] args@[j])@ == fill_bundle(self.args@[j], bundle_dir@),
            decreases self.args@.len() - i,
        {
            args.push(str_replace(self.args[i], BUNDLE_PLACEHOLDER, bundle_dir));
            i = i + 1;
        }
        let mut env: Vec<(String, String)> = Vec::new();
        let mut k: usize = 0;
        while k < self.env.len()
            invariant
                BUNDLE_PLACEHOLDER@.len() == 8,
                k <= self.env@.len(),
                env@.len() == k,
                forall|j: int|
                    0 <= j < k ==> {
                        &&& (#[trigger] env@[j]).0@ == self.env@[j].0@
                        &&& env@[j].1@ == fill_bundle(self.env@[j].1, bundle_dir@)
                    },
            decreases self.env@.len() - k,
        {
            let (key, value) = self.env[k];
            env.push((key.to_owned(), str_replace(value, BUNDLE_PLACEHOLDER, bundle_dir)));
            k = k + 1;
        }
        ResolvedCommand { program, args, env }
    }
}

/// A system library an FFI link unit needs, optionally only on one platform.
#[derive(Debug, Clone, Copy, PartialEq, Eq)]
pub struct LinkDep {
    /// Link name without prefix or extension (`m` → `-lm` / `m.lib`).
    pub name: &'static str,
    /// `Some("windows")` or `Some("unix")` restricts it to targets of that
    /// `target_family`; `None` means every platform.
    pub only_on: Option<&'static str>,
}

/// Whether something restricted to `only_on` applies on `target_family`.
pub open spec fn applies_on(only_on: Option<&str>, target_family: Seq<char>) -> bool {
    match only_on {
        None => true,
        Some(family) => family@ == target_family,
    }
}

/// Whether `only_on` admits `target_family`.
fn family_matches(only_on: Option<&str>, target_family: &str) -> (r: bool)
    ensures
        r == applies_on(only_on, target_family@),
{
    match only_on {
        None => true,
        Some(family) => str_eq(family, target_family),
    }
}

impl LinkDep {
    /// Whether this dependency applies when linking for `target_family`.
    pub fn applies_to(&self, target_family: &str) -> (r: bool)
        ensures
            r == applies_on(self.only_on, target_family@),
    {
        family_matches(self.only_on, target_family)
    }
}


/// Something a produced executable needs from the machine it runs on, beyond
/// itself. Reported by `calcc build` so a program's external dependencies are never
/// a surprise.
#[derive(Debug, Clone, Copy, PartialEq, Eq)]
pub enum RuntimeRequirement {
    /// This executable must be on `PATH`.
    CommandOnPath(&'static str),
    /// The embedded bundle of this name is unpacked on first run, into a per-user
    /// cache directory that must be writable.
    BundleCache(&'static str),
}

/// The sentence describing a requirement.
pub open spec fn spec_requirement_text(r: RuntimeRequirement) -> Seq<char> {
    match r {
        RuntimeRequirement::CommandOnPath(program) => "`"@ + program@ + "` on PATH"@,
        RuntimeRequirement::BundleCache(bundle) =>
            "a writable per-user cache directory (or CALC_BUNDLE_CACHE) to unpack bundle `"@
                + bundle@ + "` into on first run"@,
    }
}

impl RuntimeRequirement {
    /// The requirement as a sentence, e.g. `` `python3` on PATH ``.
    pub fn to_string(&self) -> (s: String)
        ensures
            s@ == spec_requirement_text(*self),
    {
        let mut s = String::new();
        match self {
            RuntimeRequirement::CommandOnPath(program) => {
                s.append("`");
                s.append(program);
                s.append("` on PATH");
            },
            RuntimeRequirement::BundleCache(bundle) => {
                s.append(
                    "a writable per-user cache directory (or CALC_BUNDLE_CACHE) to unpack bundle `",
                );
                s.append(bundle);
                s.append("` into on first run");
            },
        }
        s
    }
}

/// The first of `commands` that applies on `target_family`.
pub open spec fn first_command(commands: Seq<IpcCommand>, target_family: Seq<char>) -> Option<IpcCommand>
    decreases commands.len(),
{
    if commands.len() == 0 {
        None
    } else if applies_on(commands[0].only_on, target_family) {
        Some(commands[0])
    } else {
        first_command(commands.skip(1), target_family)
    }
}

/// The IPC command a built-in runs on `target_family`: for an IPC built-in, the
/// first of its commands whose `only_on` admits that family; for other kinds, none.
pub open spec fn spec_ipc_command(b: Builtin, target_family: Seq<char>) -> Option<IpcCommand> {
    match b.kind {
        BindingKind::Ipc { commands, .. } => first_command(commands@, target_family),
        _ => None,
    }
}

/// What a program calling `b` needs at run time on `target_family`: the command on
/// `PATH`, unless it runs from the bundle; then the bundle cache, if there is a
/// bundle. Nothing for other kinds.
pub open spec fn spec_runtime_requirements(b: Builtin, target_family: Seq<char>) -> Seq<RuntimeRequirement> {
    match b.kind {
        BindingKind::Ipc { bundle, .. } => {
            let on_path = match spec_ipc_command(b, target_family) {
                Some(c) => if refers_to_bundle(c.program) {
                    Seq::empty()
                } else {
                    seq![RuntimeRequirement::CommandOnPath(c.program)]
                },
                None => Seq::empty(),
            };
            let cache = match bundle {
                Some(name) => seq![RuntimeRequirement::BundleCache(name)],
                None => Seq::empty(),
            };
            on_path + cache
        },
        _ => Seq::empty(),
    }
}

impl Builtin {
    /// The IPC command for `target_family`, for an IPC built-in: the one entry of
    /// `commands` whose `only_on` matches. `None` for other kinds, or if the manifest
    /// declares no command for that platform.
    pub fn ipc_command(&self, target_family: &str) -> (r: Option<&'static IpcCommand>)
        ensures
            match r {
                Some(c) => spec_ipc_command(*self, target_family@) == Some(*c),
                None => spec_ipc_command(*self, target_family@) is None,
            },
    {
        let commands = match self.kind {
            BindingKind::Ipc { commands, .. } => commands,
            _ => {
                return None;
            },
        };
        assert(commands@.skip(0) == commands@);
        let mut i: usize = 0;
        while i < commands.len()
            invariant
                self.kind matches BindingKind::Ipc { commands: c, .. } && c == commands,
                i <= commands@.len(),
                first_command(commands@, target_family@) == first_command(
                    commands@.skip(i as int),
                    target_family@,
                ),
            decreases commands@.len() - i,
        {
            if family_matches(commands[i].only_on, target_family) {
                return Some(&commands[i]);
            }
            assert(commands@.skip(i as int).skip(1) =~= commands@.skip(i + 1));
            i = i + 1;
        }
        None
    }

    /// What a program calling this built-in needs at run time on `target_family`:
    /// exactly what will be used, never a list of alternatives.
    pub fn runtime_requirements(&self, target_family: &str) -> (r: Vec<RuntimeRequirement>)
        ensures
            r@ == spec_runtime_requirements(*self, target_family@),
    {
        let bundle = match self.kind {
            BindingKind::Ipc { bundle, .. } => bundle,
            _ => {
                return Vec::new();
            },
        };
        let mut requirements: Vec<RuntimeRequirement> = Vec::new();
        if let Some(command) = self.ipc_command(target_family) {
            if !command.runs_from_bundle() {
                requirements.push(RuntimeRequirement::CommandOnPath(command.program));
            }
        }
        if let Some(bundle) = bundle {
            requirements.push(RuntimeRequirement::BundleCache(bundle));
        }
        assert(requirements@ =~= spec_runtime_requirements(*self, target_family@));
        requirements
    }
}

/// The platforms a built-in's IPC commands must cover: every `target_family`
/// calc-lang links for.
pub open spec fn spec_target_families() -> Seq<&'static str> {
    seq!["unix", "windows"]
}

/// The platforms a built-in's IPC commands must cover.
pub fn target_families() -> (r: &'static [&'static str])
    ensures
        r@ == spec_target_families(),
{
    let r: &'static [&'static str] = &["unix", "windows"];
    r
}

/// Every built-in calc-lang knows about.
pub open spec fn spec_builtins() -> Seq<Builtin> {
    seq![
        Builtin { name: "add", symbol: "calc_add", arity: 2, kind: BindingKind::NativeRust },
        Builtin { name: "mul", symbol: "calc_mul", arity: 2, kind: BindingKind::NativeRust },
        Builtin {
            name: "sub",
            symbol: "calc_sub",
            arity: 2,
            kind: BindingKind::Ffi { library: "calc_ffi", link_deps: &[] },
        },
        Builtin {
            name: "print",
            symbol: "calc_print",
            arity: 1,
            kind: BindingKind::Ipc {
                commands: &[
                    IpcCommand {
                        program: "python3",
                        args: &["{bundle}"],
                        env: &[("PYTHONDONTWRITEBYTECODE", "1")],
                        probe: Some(&["--version"]),
                        only_on: Some("unix"),
                    },
                    IpcCommand {
                        program: "python",
                        args: &["{bundle}"],
                        env: &[("PYTHONDONTWRITEBYTECODE", "1")],
                        probe: Some(&["--version"]),
                        only_on: Some("windows"),
                    },
                ],
                bundle: Some("print"),
            },
        },
    ]
}

/// Every built-in calc-lang knows about. `print` runs a multi-file Python project
/// as `python <bundle dir>`, with one interpreter name per platform — the name each
/// platform's standard install provides — and without writing bytecode into the
/// bundle's source directory.
pub fn builtins() -> (r: &'static [Builtin])
    ensures
        r@ == spec_builtins(),
{
    let r: &'static [Builtin] = &[
        Builtin { name: "add", symbol: "calc_add", arity: 2, kind: BindingKind::NativeRust },
        Builtin { name: "mul", symbol: "calc_mul", arity: 2, kind: BindingKind::NativeRust },
        Builtin {
            name: "sub",
            symbol: "calc_sub",
            arity: 2,
            kind: BindingKind::Ffi { library: "calc_ffi", link_deps: &[] },
        },
        Builtin {
            name: "print",
            symbol: "calc_print",
            arity: 1,
            kind: BindingKind::Ipc {
                commands: &[
                    IpcCommand {
                        program: "python3",
                        args: &["{bundle}"],
                        env: &[("PYTHONDONTWRITEBYTECODE", "1")],
                        probe: Some(&["--version"]),
                        only_on: Some("unix"),
                    },
                    IpcCommand {
                        program: "python",
                        args: &["{bundle}"],
                        env: &[("PYTHONDONTWRITEBYTECODE", "1")],
                        probe: Some(&["--version"]),
                        only_on: Some("windows"),
                    },
                ],
                bundle: Some("print"),
            },
        },
    ];
    r
}

/// The first entry of `table` named `name`.
pub open spec fn spec_lookup_in(table: Seq<Builtin>, name: Seq<char>) -> Option<Builtin>
    decreases table.len(),
{
    if table.len() == 0 {
        None
    } else if table[0].name@ == name {
        Some(table[0])
    } else {
        spec_lookup_in(table.skip(1), name)
    }
}

/// A built-in found by name has that name.
pub proof fn lemma_lookup_in_name(table: Seq<Builtin>, name: Seq<char>)
    ensures
        spec_lookup_in(table, name) matches Some(b) ==> b.name@ == name,
    decreases table.len(),
{
    if table.len() > 0 && table[0].name@ != name {
        lemma_lookup_in_name(table.skip(1), name);
    }
}

/// The built-in named `name`, if the manifest declares one.
pub open spec fn spec_lookup(name: Seq<char>) -> Option<Builtin> {
    spec_lookup_in(spec_builtins(), name)
}

/// Finds a built-in by its DSL-visible name.
pub fn lookup(name: &str) -> (r: Option<&'static Builtin>)
    ensures
        match r {
            Some(b) => spec_lookup(name@) == Some(*b),
            None => spec_lookup(name@) is None,
        },
{
    let table = builtins();
    assert(table@.skip(0) == table@);
    let mut i: usize = 0;
    while i < table.len()
        invariant
            table@ == spec_builtins(),
            i <= table@.len(),
            spec_lookup(name@) == spec_lookup_in(table@.skip(i as int), name@),
        decreases table@.len() - i,
    {
        if str_eq(table[i].name, name) {
            return Some(&table[i]);
        }
        assert(table@.skip(i as int).skip(1) =~= table@.skip(i + 1));
        i = i + 1;
    }
    None
}


/// How many of `commands` apply on `target_family`.
pub open spec fn count_applicable(commands: Seq<IpcCommand>, target_family: Seq<char>) -> nat
    decreases commands.len(),
{
    if commands.len() == 0 {
        0
    } else {
        (if applies_on(commands[0].only_on, target_family) { 1nat } else { 0nat })
            + count_applicable(commands.skip(1), target_family)
    }
}

/// Whether `c` refers to the bundle anywhere.
pub open spec fn command_uses_bundle(c: IpcCommand) -> bool {
    refers_to_bundle(c.program) || args_refer(c.args@) || env_refers(c.env@)
}

/// For an IPC built-in: exactly one command per target family.
pub open spec fn one_command_per_family(b: Builtin) -> bool {
    match b.kind {
        BindingKind::Ipc { commands, .. } => forall|f: int|
            0 <= f < spec_target_families().len() ==> count_applicable(
                commands@,
                (#[trigger] spec_target_families()[f])@,
            ) == 1,
        _ => true,
    }
}

/// For an IPC built-in: each command refers to `{bundle}` exactly when a bundle is
/// declared.
pub open spec fn bundle_use_consistent(b: Builtin) -> bool {
    match b.kind {
        BindingKind::Ipc { commands, bundle } => forall|k: int|
            0 <= k < commands@.len() ==> command_uses_bundle(#[trigger] commands@[k]) == (
            bundle is Some),
        _ => true,
    }
}

/// The manifest is consistent: built-in names are distinct, and so are symbols;
/// every IPC built-in has exactly one command per target family; and a command
/// refers to `{bundle}` exactly when its built-in declares a bundle.
pub proof fn lemma_manifest_consistent()
    ensures
        forall|i: int, j: int|
            0 <= i < j < spec_builtins().len() ==> {
                &&& (#[trigger] spec_builtins()[i]).name@ != (#[trigger] spec_builtins()[j]).name@
                &&& spec_builtins()[i].symbol@ != spec_builtins()[j].symbol@
            },
        forall|i: int|
            0 <= i < spec_builtins().len() ==> one_command_per_family(#[trigger] spec_builtins()[i]),
        forall|i: int|
            0 <= i < spec_builtins().len() ==> bundle_use_consistent(#[trigger] spec_builtins()[i]),
{
    reveal_strlit("add");
    reveal_strlit("mul");
    reveal_strlit("sub");
    reveal_strlit("print");
    reveal_strlit("calc_add");
    reveal_strlit("calc_mul");
    reveal_strlit("calc_sub");
    reveal_strlit("calc_print");
    reveal_strlit("unix");
    reveal_strlit("windows");
    reveal_strlit("python3");
    reveal_strlit("python");
    reveal_strlit("{bundle}");
    reveal_strlit("1");
    reveal_strlit("PYTHONDONTWRITEBYTECODE");
    let t = spec_builtins();
    assert(t[0].name == "add" && t[1].name == "mul" && t[2].name == "sub" && t[3].name == "print");
    assert(t[0].symbol == "calc_add" && t[1].symbol == "calc_mul" && t[2].symbol == "calc_sub"
        && t[3].symbol == "calc_print");
    assert("add"@[0] != "mul"@[0] && "add"@[0] != "sub"@[0] && "mul"@[0] != "sub"@[0]);
    assert("calc_add"@[5] != "calc_mul"@[5] && "calc_add"@[5] != "calc_sub"@[5]
        && "calc_mul"@[5] != "calc_sub"@[5]);
    assert("print"@.len() == 5 && "calc_print"@.len() == 10 && "calc_add"@.len() == 8);
    let commands = match t[3].kind {
        BindingKind::Ipc { commands, .. } => commands,
        _ => arbitrary(),
    };
    let unix = spec_target_families()[0]@;
    let windows = spec_target_families()[1]@;
    assert(commands@.skip(1).skip(1) =~= Seq::<IpcCommand>::empty());
    let rest = commands@.skip(1);
    assert(rest[0] == commands@[1]);
    assert(spec_target_families()[0] == "unix");
    assert(spec_target_families()[1] == "windows");
    assert(unix.len() == 4);
    assert(windows.len() == 7);
    assert(count_applicable(rest.skip(1), unix) == 0);
    assert(count_applicable(rest.skip(1), windows) == 0);
    assert(count_applicable(rest, unix) == 0);
    assert(count_applicable(rest, windows) == 1);
    assert(count_applicable(commands@, unix) == 1);
    assert(count_applicable(commands@, windows) == 1);
    assert(one_command_per_family(t[3]));
    let a0 = commands@[0].args@[0]@;
    let a1 = commands@[1].args@[0]@;
    assert(commands@[0].args@[0] == "{bundle}");
    assert(commands@[1].args@[0] == "{bundle}");
    assert(a0.subrange(0, 8) =~= a0);
    assert(a1.subrange(0, 8) =~= a1);
    assert(crate::text::occurs_at(a0, BUNDLE_PLACEHOLDER@, 0));
    assert(crate::text::occurs_at(a1, BUNDLE_PLACEHOLDER@, 0));
    assert(refers_to_bundle(commands@[0].args@[0]));
    assert(refers_to_bundle(commands@[1].args@[0]));
    assert(command_uses_bundle(commands@[0]));
    assert(command_uses_bundle(commands@[1]));
    assert(bundle_use_consistent(t[3]));
}

} // verus!
