//! The link driver's decisions: which link units a program is linked with and in
//! what order, the pre-link check that every built-in's symbol comes from exactly its
//! own unit, the linker's argument list, and the data object that embeds a program's
//! IPC bundles.
//!
//! Link order is objects, then the runtime archive, then FFI archives, then the
//! libraries they need: traditional Unix linkers read inputs once, left to right, and
//! only pull an archive member to resolve a symbol already undefined at that point.

use std::str::FromStr;

use object::write::{Object, SectionId, StandardSection, Symbol, SymbolId, SymbolSection};
use object::{SectionKind, SymbolFlags, SymbolKind, SymbolScope};
use target_lexicon::{Architecture, BinaryFormat, OperatingSystem, Triple};
use vstd::bytes::{spec_u64_to_le_bytes, u64_to_le_bytes};
use vstd::prelude::*;
use vstd::utf8::encode_utf8;

use crate::bundle_format::append_bytes;
use crate::builtins::{applies_on, builtins, spec_builtins, BindingKind, Builtin, LinkDep};
use crate::text::{
    join, join_strings, spec_contains, str_contains, str_eq, string_from_utf8_lossy, strings_view,
    trim_end, trim_end_string, utf8_lossy,
};

verus! {

/// The object file formats the link driver can write.
#[derive(Debug, Clone, Copy, PartialEq, Eq, Structural)]
pub enum ObjectFormat {
    Coff,
    Elf,
    MachO,
}

/// The architectures the link driver can write object files for.
#[derive(Debug, Clone, Copy, PartialEq, Eq, Structural)]
pub enum ObjectArch {
    X86_64,
    Aarch64,
}

/// What the link driver needs to know of a target triple.
pub struct TargetFacts {
    /// The operating system is Windows.
    pub windows: bool,
    /// The object format, when it is one the driver can write; else the format's
    /// name as target_lexicon spells it.
    pub format: Result<ObjectFormat, String>,
    /// The architecture, when it is one the driver can write objects for; else its
    /// name as target_lexicon spells it.
    pub arch: Result<ObjectArch, String>,
}

/// [`TargetFacts`] as plain values.
pub struct TargetFactsView {
    pub windows: bool,
    pub format: Result<ObjectFormat, Seq<char>>,
    pub arch: Result<ObjectArch, Seq<char>>,
}

/// The plain value of `facts`.
pub open spec fn facts_view(facts: Option<TargetFacts>) -> Option<TargetFactsView> {
    match facts {
        None => None,
        Some(f) => Some(
            TargetFactsView {
                windows: f.windows,
                format: match f.format {
                    Ok(x) => Ok(x),
                    Err(n) => Err(n@),
                },
                arch: match f.arch {
                    Ok(x) => Ok(x),
                    Err(n) => Err(n@),
                },
            },
        ),
    }
}

/// What `target_lexicon` reads off the triple `target`: `None` when it does not
/// parse.
pub uninterp spec fn parsed_triple(target: Seq<char>) -> Option<TargetFactsView>;

/// `target_lexicon::Triple::from_str`, with the parsed triple's operating system,
/// binary format and architecture reduced to what the link driver distinguishes,
/// a format or architecture it does not write kept as target_lexicon's name for it.
/// The contract names the result and claims nothing else of it: which strings parse
/// and to what is target_lexicon's table of triples.
#[verifier::external_body]
fn parse_triple(target: &str) -> (r: Option<TargetFacts>)
    ensures
        facts_view(r) == parsed_triple(target@),
{
    let t = Triple::from_str(target).ok()?;
    let windows = matches!(t.operating_system, OperatingSystem::Windows);
    let format = match t.binary_format {
        BinaryFormat::Coff => Ok(ObjectFormat::Coff),
        BinaryFormat::Elf => Ok(ObjectFormat::Elf),
        BinaryFormat::Macho => Ok(ObjectFormat::MachO),
        other => Err(other.to_string()),
    };
    let arch = match t.architecture {
        Architecture::X86_64 => Ok(ObjectArch::X86_64),
        Architecture::Aarch64(_) => Ok(ObjectArch::Aarch64),
        other => Err(other.to_string()),
    };
    Some(TargetFacts { windows, format, arch })
}

/// The `target_family` of a target whose triple parses to `facts`.
pub open spec fn family_of(facts: TargetFactsView) -> &'static str {
    if facts.windows {
        "windows"
    } else {
        "unix"
    }
}

/// `"windows"` or `"unix"`: the `target_family` that `LinkDep::only_on` and
/// `IpcCommand::only_on` are compared to. `None` when `target` is not a triple.
pub fn target_family(target: &str) -> (r: Option<&'static str>)
    ensures
        r == match parsed_triple(target@) {
            Some(facts) => Some(family_of(facts)),
            None => None,
        },
{
    match parse_triple(target) {
        Some(facts) => if facts.windows {
            Some("windows")
        } else {
            Some("unix")
        },
        None => None,
    }
}

/// The two command-line conventions the link driver speaks.
#[derive(Debug, Clone, Copy, PartialEq, Eq, Structural)]
pub enum LinkFlavor {
    /// `cl.exe`-style: `name.lib` inputs, `/Fe:out`, linker options after `/link`.
    Msvc,
    /// `cc`-style: `-lname` libraries, `-o out`.
    Unix,
}

/// The file name a static library called `name` has in `flavor`.
pub open spec fn spec_archive_file_name(flavor: LinkFlavor, name: Seq<char>) -> Seq<char> {
    match flavor {
        LinkFlavor::Msvc => name + ".lib"@,
        LinkFlavor::Unix => "lib"@ + name + ".a"@,
    }
}

/// The linker argument naming a system library called `name` in `flavor`.
pub open spec fn spec_library_arg(flavor: LinkFlavor, name: Seq<char>) -> Seq<char> {
    match flavor {
        LinkFlavor::Msvc => name + ".lib"@,
        LinkFlavor::Unix => "-l"@ + name,
    }
}

impl LinkFlavor {
    /// The file name a static library called `name` has in this flavor.
    pub fn archive_file_name(self, name: &str) -> (s: String)
        ensures
            s@ == spec_archive_file_name(self, name@),
    {
        let mut s = String::new();
        match self {
            LinkFlavor::Msvc => {
                s.append(name);
                s.append(".lib");
            },
            LinkFlavor::Unix => {
                s.append("lib");
                s.append(name);
                s.append(".a");
            },
        }
        s
    }

    /// The linker argument naming a system library called `name`.
    pub fn library_arg(self, name: &str) -> (s: String)
        ensures
            s@ == spec_library_arg(self, name@),
    {
        let mut s = String::new();
        match self {
            LinkFlavor::Msvc => {
                s.append(name);
                s.append(".lib");
            },
            LinkFlavor::Unix => {
                s.append("-l");
                s.append(name);
            },
        }
        s
    }
}

/// One static archive in the link, with the native libraries it needs.
#[derive(Debug)]
pub struct LinkUnit {
    /// `None` for the runtime's archive, `Some(library)` for an FFI library.
    pub library: Option<&'static str>,
    pub path: String,
    /// Linker arguments for the libraries this archive needs.
    pub deps: Vec<String>,
}

/// How a link unit is named in messages.
pub open spec fn spec_describe(library: Option<&'static str>) -> Seq<char> {
    match library {
        None => "the calc-runtime archive"@,
        Some(l) => "library `"@ + l@ + "`"@,
    }
}

impl LinkUnit {
    /// How this unit is named in messages.
    pub fn describe(&self) -> (s: String)
        ensures
            s@ == spec_describe(self.library),
    {
        match self.library {
            None => "the calc-runtime archive".to_owned(),
            Some(library) => {
                let mut s = String::new();
                s.append("library `");
                s.append(library);
                s.append("`");
                s
            },
        }
    }
}

/// `file` inside the directory `dir`, `/`-separated.
pub open spec fn path_join(dir: Seq<char>, file: Seq<char>) -> Seq<char> {
    if dir.len() == 0 || dir.last() == '/' {
        dir + file
    } else {
        dir + "/"@ + file
    }
}

/// `file` inside the directory `dir`.
pub fn join_path(dir: &str, file: &str) -> (s: String)
    ensures
        s@ == path_join(dir@, file@),
{
    let mut s = String::new();
    s.append(dir);
    let n = dir.unicode_len();
    if n > 0 && dir.get_char(n - 1) != '/' {
        s.append("/");
    }
    s.append(file);
    s
}

/// The arguments naming the libraries among `deps` that apply on `family`.
pub open spec fn dep_args(flavor: LinkFlavor, deps: Seq<LinkDep>, family: Seq<char>) -> Seq<Seq<char>>
    decreases deps.len(),
{
    if deps.len() == 0 {
        Seq::empty()
    } else {
        let rest = dep_args(flavor, deps.drop_last(), family);
        if applies_on(deps.last().only_on, family) {
            rest.push(spec_library_arg(flavor, deps.last().name@))
        } else {
            rest
        }
    }
}

/// The FFI libraries among `bs`, each once, from the first built-in naming it, in
/// order: the built-ins whose link units follow the runtime's.
pub open spec fn ffi_sources(bs: Seq<Builtin>) -> Seq<Builtin>
    decreases bs.len(),
{
    if bs.len() == 0 {
        Seq::empty()
    } else {
        let prev = ffi_sources(bs.drop_last());
        match bs.last().kind {
            BindingKind::Ffi { library, .. } => if exists|k: int|
                0 <= k < prev.len() && (#[trigger] prev[k]).kind->library@ == library@ {
                prev
            } else {
                prev.push(bs.last())
            },
            _ => prev,
        }
    }
}

/// What a link unit holds, as plain values.
pub struct LinkUnitView {
    pub library: Option<Seq<char>>,
    pub path: Seq<char>,
    pub deps: Seq<Seq<char>>,
}

/// The plain value of a link unit.
pub open spec fn unit_view(u: LinkUnit) -> LinkUnitView {
    LinkUnitView {
        library: match u.library {
            Some(l) => Some(l@),
            None => None,
        },
        path: u.path@,
        deps: strings_view(u.deps@),
    }
}

/// The plain values of a list of link units.
pub open spec fn units_view(units: Seq<LinkUnit>) -> Seq<LinkUnitView> {
    units.map_values(|u: LinkUnit| unit_view(u))
}

/// The link unit of FFI built-in `b`'s library.
pub open spec fn ffi_unit(flavor: LinkFlavor, family: Seq<char>, units_dir: Seq<char>, b: Builtin) -> LinkUnitView {
    LinkUnitView {
        library: Some(b.kind->library@),
        path: path_join(units_dir, spec_archive_file_name(flavor, b.kind->library@)),
        deps: dep_args(flavor, b.kind->link_deps@, family),
    }
}

/// The link units of the FFI built-ins `bs`.
pub open spec fn ffi_units(flavor: LinkFlavor, family: Seq<char>, units_dir: Seq<char>, bs: Seq<Builtin>) -> Seq<LinkUnitView> {
    bs.map_values(|b: Builtin| ffi_unit(flavor, family, units_dir, b))
}

/// Every link unit, in link order: the runtime's archive at `runtime_lib`, needing
/// `runtime_deps`; then one per FFI library the manifest declares, in `units_dir`.
pub open spec fn spec_link_units(
    flavor: LinkFlavor,
    family: Seq<char>,
    runtime_lib: Seq<char>,
    runtime_deps: Seq<Seq<char>>,
    units_dir: Seq<char>,
) -> Seq<LinkUnitView> {
    seq![LinkUnitView { library: None, path: runtime_lib, deps: runtime_deps }] + ffi_units(
        flavor,
        family,
        units_dir,
        ffi_sources(spec_builtins()),
    )
}

fn dep_args_exec(flavor: LinkFlavor, deps: &[LinkDep], family: &str) -> (r: Vec<String>)
    ensures
        strings_view(r@) == dep_args(flavor, deps@, family@),
{
    let mut r: Vec<String> = Vec::new();
    let mut k: usize = 0;
    while k < deps.len()
        invariant
            k <= deps@.len(),
            strings_view(r@) == dep_args(flavor, deps@.take(k as int), family@),
        decreases deps@.len() - k,
    {
        let ghost before = r@;
        assert(deps@.take(k + 1).drop_last() =~= deps@.take(k as int));
        if deps[k].applies_to(family) {
            r.push(flavor.library_arg(deps[k].name));
            assert(strings_view(r@) =~= strings_view(before).push(
                spec_library_arg(flavor, deps@[k as int].name@),
            ));
        }
        k = k + 1;
    }
    assert(deps@.take(deps@.len() as int) =~= deps@);
    r
}

/// `u` is the link unit of `library`.
pub open spec fn unit_of(u: LinkUnit, library: Seq<char>) -> bool {
    u.library matches Some(l) && l@ == library
}

fn has_library(units: &Vec<LinkUnit>, library: &str) -> (r: bool)
    ensures
        r == exists|k: int| 0 <= k < units@.len() && unit_of(#[trigger] units@[k], library@),
{
    let mut k: usize = 0;
    while k < units.len()
        invariant
            k <= units@.len(),
            forall|j: int| 0 <= j < k ==> !unit_of(#[trigger] units@[j], library@),
        decreases units@.len() - k,
    {
        match units[k].library {
            Some(l) => {
                if str_eq(l, library) {
                    return true;
                }
            },
            None => {},
        }
        k = k + 1;
    }
    false
}

/// Every link unit, in link order: the runtime's archive at `runtime_lib`, needing
/// `runtime_deps`, then each FFI library the manifest declares (once, even if
/// several built-ins share it), as an archive in `units_dir`. All of them, not just
/// the ones a program calls: the runtime's interpreter table refers to every
/// built-in.
pub fn link_units(
    flavor: LinkFlavor,
    target_family: &str,
    runtime_lib: &str,
    runtime_deps: Vec<String>,
    units_dir: &str,
) -> (units: Vec<LinkUnit>)
    ensures
        units_view(units@) == spec_link_units(
            flavor,
            target_family@,
            runtime_lib@,
            strings_view(runtime_deps@),
            units_dir@,
        ),
{
    let table = builtins();
    let ghost bs = table@;
    let ghost head = LinkUnitView {
        library: None,
        path: runtime_lib@,
        deps: strings_view(runtime_deps@),
    };
    let mut units: Vec<LinkUnit> = Vec::new();
    units.push(LinkUnit { library: None, path: runtime_lib.to_owned(), deps: runtime_deps });
    let mut k: usize = 0;
    while k < table.len()
        invariant
            bs == table@,
            head.library is None,
            k <= bs.len(),
            units@.len() >= 1,
            units_view(units@) == seq![head] + ffi_units(
                flavor,
                target_family@,
                units_dir@,
                ffi_sources(bs.take(k as int)),
            ),
        decreases bs.len() - k,
    {
        let ghost prev = ffi_sources(bs.take(k as int));
        let ghost before = units@;
        assert(bs.take(k + 1).drop_last() =~= bs.take(k as int));
        assert(bs.take(k + 1).last() == bs[k as int]);
        match table[k].kind {
            BindingKind::Ffi { library, link_deps } => {
                let present = has_library(&units, library);
                assert(present <==> exists|j: int|
                    0 <= j < prev.len() && (#[trigger] prev[j]).kind->library@ == library@) by {
                    let pv = ffi_units(flavor, target_family@, units_dir@, prev);
                    assert(units_view(units@).len() == units@.len());
                    if present {
                        let j = choose|j: int|
                            0 <= j < units@.len() && unit_of(#[trigger] units@[j], library@);
                        assert(unit_view(units@[j]) == (seq![head] + pv)[j]);
                        assert(j >= 1) by {
                            if j == 0 {
                                assert((seq![head] + pv)[0] == head);
                                assert(units_view(units@)[0] == unit_view(units@[0]));

                            }
                        }
                        assert(pv[j - 1] == ffi_unit(flavor, target_family@, units_dir@, prev[j - 1]));
                    }
                    if exists|j: int| 0 <= j < prev.len() && (#[trigger] prev[j]).kind->library@
                        == library@ {
                        let j = choose|j: int|
                            0 <= j < prev.len() && (#[trigger] prev[j]).kind->library@ == library@;
                        assert(unit_view(units@[j + 1]) == (seq![head] + pv)[j + 1]);
                        assert(unit_of(units@[j + 1], library@));
                    }
                }
                if !present {
                    let name = flavor.archive_file_name(library);
                    let path = join_path(units_dir, name.as_str());
                    let deps = dep_args_exec(flavor, link_deps, target_family);
                    let unit = LinkUnit { library: Some(library), path, deps };
                    let ghost uv = unit_view(unit);
                    assert(bs[k as int].kind == table[k as int].kind);
                    assert(uv == ffi_unit(flavor, target_family@, units_dir@, bs[k as int]));
                    units.push(unit);
                    assert(units_view(units@) =~= units_view(before).push(uv));
                    assert(ffi_units(flavor, target_family@, units_dir@, prev.push(bs[k as int]))
                        =~= ffi_units(flavor, target_family@, units_dir@, prev).push(uv));
                    assert(units_view(units@) =~= seq![head] + ffi_units(
                        flavor,
                        target_family@,
                        units_dir@,
                        prev.push(bs[k as int]),
                    ));
                }
            },
            _ => {},
        }
        k = k + 1;
    }
    assert(bs.take(bs.len() as int) =~= bs);
    units
}

/// The link unit a built-in's symbol must come from: `None` for the runtime's
/// archive, else the FFI library.
pub open spec fn spec_owning_library(b: Builtin) -> Option<&'static str> {
    match b.kind {
        BindingKind::Ffi { library, .. } => Some(library),
        _ => None,
    }
}

/// The link unit a built-in's symbol must come from.
pub fn owning_library(builtin: &Builtin) -> (r: Option<&'static str>)
    ensures
        r == spec_owning_library(*builtin),
{
    match builtin.kind {
        BindingKind::Ffi { library, .. } => Some(library),
        _ => None,
    }
}

/// `s` names `symbol` exactly, or with the leading underscore macOS adds.
pub open spec fn names_symbol(s: Seq<char>, symbol: Seq<char>) -> bool {
    s == symbol || (s.len() > 0 && s[0] == '_' && s.skip(1) == symbol)
}

/// `symbols` lists `symbol`.
pub open spec fn spec_exports(symbols: Seq<Seq<char>>, symbol: Seq<char>) -> bool {
    exists|i: int| 0 <= i < symbols.len() && names_symbol(#[trigger] symbols[i], symbol)
}

fn names_symbol_exec(s: &str, symbol: &str) -> (r: bool)
    ensures
        r == names_symbol(s@, symbol@),
{
    if str_eq(s, symbol) {
        return true;
    }
    let n = s.unicode_len();
    if n > 0 && s.get_char(0) == '_' {
        let rest = s.substring_char(1, n);
        assert(rest@ =~= s@.skip(1));
        str_eq(rest, symbol)
    } else {
        false
    }
}

/// Whether `symbols` lists `symbol` under its exact, unmangled name, or with the
/// leading underscore macOS adds.
pub fn exports(symbols: &[String], symbol: &str) -> (r: bool)
    ensures
        r == spec_exports(strings_view(symbols@), symbol@),
{
    let ghost sv = strings_view(symbols@);
    let mut k: usize = 0;
    while k < symbols.len()
        invariant
            k <= symbols@.len(),
            sv == strings_view(symbols@),
            forall|j: int| 0 <= j < k ==> !names_symbol(#[trigger] sv[j], symbol@),
        decreases symbols@.len() - k,
    {
        if names_symbol_exec(symbols[k].as_str(), symbol) {
            assert(names_symbol(sv[k as int], symbol@));
            return true;
        }
        k = k + 1;
    }
    false
}

/// `b` split at each NUL byte: as many pieces as NULs, plus one.
pub open spec fn split_nul(b: Seq<u8>) -> Seq<Seq<u8>>
    decreases b.len(),
{
    if b.len() == 0 {
        seq![Seq::empty()]
    } else {
        let s = split_nul(b.drop_last());
        if b.last() == 0 {
            s.push(Seq::empty())
        } else {
            s.update(s.len() - 1, s.last().push(b.last()))
        }
    }
}

/// There is always at least one piece.
pub proof fn lemma_split_nul_len(b: Seq<u8>)
    ensures
        split_nul(b).len() >= 1,
    decreases b.len(),
{
    if b.len() > 0 {
        lemma_split_nul_len(b.drop_last());
    }
}

/// `b"!<arch>\n"`: the first bytes of every `ar` archive.
pub open spec fn ar_magic() -> Seq<u8> {
    seq![0x21u8, 0x3cu8, 0x61u8, 0x72u8, 0x63u8, 0x68u8, 0x3eu8, 0x0au8]
}

/// A big-endian `u32` from four bytes.
pub open spec fn be32(b: Seq<u8>) -> int {
    b[0] * 0x100_0000 + b[1] * 0x1_0000 + b[2] * 0x100 + b[3]
}

/// The symbol names in an `ar` archive's symbol table, as bytes, when it has the
/// GNU/MSVC layout: a first member named `/` holding a big-endian `u32` count, that
/// many `u32` member offsets, then the NUL-terminated names, of which the first
/// `count` are taken.
pub open spec fn spec_archive_symbols(ar: Seq<u8>) -> Option<Seq<Seq<u8>>> {
    if ar.len() < 68 || ar.take(8) != ar_magic() || ar[8] != 0x2f || ar[9] != 0x20 {
        None
    } else {
        let data = ar.skip(68);
        if data.len() < 4 {
            None
        } else {
            let count = be32(data);
            if 4 + 4 * count > data.len() {
                None
            } else {
                let pieces = split_nul(data.skip(4 + 4 * count));
                Some(pieces.take(if count < pieces.len() { count } else { pieces.len() as int }))
            }
        }
    }
}

/// The pieces of `b` split at each NUL byte.
fn split_nul_exec(b: &[u8]) -> (r: Vec<Vec<u8>>)
    ensures
        r@.map_values(|p: Vec<u8>| p@) == split_nul(b@),
{
    let mut done: Vec<Vec<u8>> = Vec::new();
    let mut cur: Vec<u8> = Vec::new();
    let mut k: usize = 0;
    while k < b.len()
        invariant
            k <= b@.len(),
            done@.map_values(|p: Vec<u8>| p@).push(cur@) == split_nul(b@.take(k as int)),
        decreases b@.len() - k,
    {
        let ghost t = b@.take(k + 1);
        assert(t.drop_last() =~= b@.take(k as int));
        assert(t.last() == b@[k as int]);
        proof {
            lemma_split_nul_len(b@.take(k as int));
        }
        let ghost before = done@.map_values(|p: Vec<u8>| p@);
        let ghost c0 = cur@;
        if b[k] == 0 {
            let mut finished: Vec<u8> = Vec::new();
            std::mem::swap(&mut finished, &mut cur);
            done.push(finished);
            assert(done@.map_values(|p: Vec<u8>| p@) =~= before.push(c0));
            assert(cur@ =~= Seq::<u8>::empty());
        } else {
            cur.push(b[k]);
            assert(before.push(c0).update(before.len() as int, c0.push(b@[k as int])) =~= before.push(cur@));
        }
        k = k + 1;
    }
    assert(b@.take(b@.len() as int) =~= b@);
    let ghost before = done@.map_values(|p: Vec<u8>| p@);
    done.push(cur);
    assert(done@.map_values(|p: Vec<u8>| p@) =~= before.push(done@.last()@));
    done
}

/// The symbol names listed in an `ar` archive's symbol table, when it has the
/// GNU/MSVC layout (BSD and macOS archives name the first member differently, and
/// give `None`). This table is what a linker consults to find the member defining a
/// symbol, so it answers "does this archive export `calc_sub`?" the linker's way.
/// Names that are not UTF-8 are read lossily.
pub fn archive_symbols(ar: &[u8]) -> (r: Option<Vec<String>>)
    ensures
        match spec_archive_symbols(ar@) {
            None => r is None,
            Some(names) => r matches Some(v) && v@.len() == names.len() && forall|i: int|
                0 <= i < names.len() ==> v@[i]@ == utf8_lossy(#[trigger] names[i]),
        },
{
    if ar.len() < 68 {
        return None;
    }
    let mut k: usize = 0;
    while k < 8
        invariant
            k <= 8,
            ar@.len() >= 68,
            forall|j: int| 0 <= j < k ==> ar@[j] == ar_magic()[j],
        decreases 8 - k,
    {
        let expected: u8 = if k == 0 {
            0x21
        } else if k == 1 {
            0x3c
        } else if k == 2 {
            0x61
        } else if k == 3 {
            0x72
        } else if k == 4 {
            0x63
        } else if k == 5 {
            0x68
        } else if k == 6 {
            0x3e
        } else {
            0x0a
        };
        if ar[k] != expected {
            assert(ar@.take(8)[k as int] != ar_magic()[k as int]);
            return None;
        }
        k = k + 1;
    }
    assert(ar@.take(8) =~= ar_magic());
    if ar[8] != 0x2f || ar[9] != 0x20 {
        return None;
    }
    let data = &ar[68..ar.len()];
    assert(data@ =~= ar@.skip(68));
    if data.len() < 4 {
        return None;
    }
    let count: u64 = (data[0] as u64) * 0x100_0000 + (data[1] as u64) * 0x1_0000 + (data[2] as u64)
        * 0x100 + (data[3] as u64);
    let start: u64 = 4 + 4 * count;
    if start > data.len() as u64 {
        return None;
    }
    let start = start as usize;
    let names = &data[start..data.len()];
    assert(names@ =~= data@.skip(start as int));
    let pieces = split_nul_exec(names);
    proof {
        lemma_split_nul_len(names@);
    }
    let ghost pv = pieces@.map_values(|p: Vec<u8>| p@);
    let take: usize = if count < pieces.len() as u64 {
        count as usize
    } else {
        pieces.len()
    };
    let mut out: Vec<String> = Vec::new();
    let mut j: usize = 0;
    while j < take
        invariant
            j <= take <= pieces@.len(),
            pv == pieces@.map_values(|p: Vec<u8>| p@),
            out@.len() == j,
            forall|i: int| 0 <= i < j ==> out@[i]@ == utf8_lossy(#[trigger] pv[i]),
        decreases take - j,
    {
        out.push(string_from_utf8_lossy(pieces[j].as_slice()));
        j = j + 1;
    }
    Some(out)
}

/// What reading a link unit gave: the I/O error's text, or its symbol table, `None`
/// when the archive's layout has none this driver can read.
pub type UnitTable = Result<Option<Vec<String>>, String>;

/// A [`UnitTable`] as plain values.
pub open spec fn table_view(t: UnitTable) -> Result<Option<Seq<Seq<char>>>, Seq<char>> {
    match t {
        Ok(Some(v)) => Ok(Some(strings_view(v@))),
        Ok(None) => Ok(None),
        Err(e) => Err(e@),
    }
}

/// Whether two optional library names are the same.
pub open spec fn same_library(a: Option<&'static str>, b: Option<&'static str>) -> bool {
    match (a, b) {
        (None, None) => true,
        (Some(x), Some(y)) => x@ == y@,
        _ => false,
    }
}

/// The problem reading unit `u` failed with error `err`.
pub open spec fn missing_unit_line(u: LinkUnit, err: Seq<char>) -> Seq<char> {
    spec_describe(u.library) + " not found at "@ + u.path@ + ": "@ + err
}

/// The problems reading the first units failed with, in unit order.
pub open spec fn read_problems(units: Seq<LinkUnit>, tables: Seq<UnitTable>) -> Seq<Seq<char>>
    decreases units.len(),
{
    if units.len() == 0 {
        Seq::empty()
    } else {
        let rest = read_problems(units.drop_last(), tables);
        match tables[units.len() - 1] {
            Err(e) => rest.push(missing_unit_line(units.last(), e@)),
            Ok(_) => rest,
        }
    }
}

/// The problem with built-in `b`'s symbol in unit `u`, whose symbol table is
/// `symbols`, if any: its own unit doesn't export it, or another unit does too.
pub open spec fn unit_problem(b: Builtin, u: LinkUnit, symbols: Seq<Seq<char>>) -> Option<Seq<char>> {
    let own = same_library(u.library, spec_owning_library(b));
    let exported = spec_exports(symbols, b.symbol@);
    if own && !exported {
        Some(
            "built-in `"@ + b.name@ + "` needs symbol `"@ + b.symbol@ + "` from "@ + spec_describe(
                u.library,
            ) + " ("@ + u.path@ + "), but it isn't exported there"@,
        )
    } else if !own && exported {
        Some(
            "symbol `"@ + b.symbol@ + "` (built-in `"@ + b.name@ + "`) is also exported by "@
                + spec_describe(u.library) + " ("@ + u.path@
                + "); each built-in must come from exactly one link unit"@,
        )
    } else {
        None
    }
}

/// The problems with built-in `b`'s symbol across the first units whose tables were
/// read, in unit order.
pub open spec fn builtin_problems(b: Builtin, units: Seq<LinkUnit>, tables: Seq<UnitTable>) -> Seq<
    Seq<char>,
>
    decreases units.len(),
{
    if units.len() == 0 {
        Seq::empty()
    } else {
        let rest = builtin_problems(b, units.drop_last(), tables);
        match tables[units.len() - 1] {
            Ok(Some(symbols)) => match unit_problem(b, units.last(), strings_view(symbols@)) {
                Some(line) => rest.push(line),
                None => rest,
            },
            _ => rest,
        }
    }
}

/// Every problem the pre-link check finds: units that could not be read, then each
/// built-in's, in order.
pub open spec fn symbol_problems(bs: Seq<Builtin>, units: Seq<LinkUnit>, tables: Seq<UnitTable>) -> Seq<
    Seq<char>,
>
    decreases bs.len(),
{
    if bs.len() == 0 {
        read_problems(units, tables)
    } else {
        symbol_problems(bs.drop_last(), units, tables) + builtin_problems(bs.last(), units, tables)
    }
}

/// Every unit whose table was read exports `b`'s symbol exactly when it is `b`'s own.
pub open spec fn exported_by_own_unit_only(b: Builtin, units: Seq<LinkUnit>, tables: Seq<UnitTable>) -> bool {
    forall|k: int|
        0 <= k < units.len() ==> match #[trigger] tables[k] {
            Ok(Some(symbols)) => same_library(units[k].library, spec_owning_library(b))
                == spec_exports(strings_view(symbols@), b.symbol@),
            _ => true,
        }
}

proof fn lemma_read_problems_empty(units: Seq<LinkUnit>, tables: Seq<UnitTable>)
    requires
        units.len() <= tables.len(),
    ensures
        read_problems(units, tables).len() == 0 <==> forall|k: int|
            0 <= k < units.len() ==> (#[trigger] tables[k]) is Ok,
    decreases units.len(),
{
    if units.len() > 0 {
        lemma_read_problems_empty(units.drop_last(), tables);
    }
}

proof fn lemma_builtin_problems_empty(b: Builtin, units: Seq<LinkUnit>, tables: Seq<UnitTable>)
    requires
        units.len() <= tables.len(),
    ensures
        builtin_problems(b, units, tables).len() == 0 <==> exported_by_own_unit_only(b, units, tables),
    decreases units.len(),
{
    if units.len() > 0 {
        let rest = units.drop_last();
        lemma_builtin_problems_empty(b, rest, tables);
        assert forall|k: int| 0 <= k < rest.len() implies rest[k] == units[k] by {}
        if exported_by_own_unit_only(b, units, tables) {
            assert(exported_by_own_unit_only(b, rest, tables));
            let k = units.len() - 1;
            assert(match tables[k] {
                Ok(Some(symbols)) => same_library(units[k].library, spec_owning_library(b))
                    == spec_exports(strings_view(symbols@), b.symbol@),
                _ => true,
            });
        }
        if builtin_problems(b, units, tables).len() == 0 {
            assert(builtin_problems(b, rest, tables).len() == 0);
            assert forall|k: int| 0 <= k < units.len() implies match #[trigger] tables[k] {
                Ok(Some(symbols)) => same_library(units[k].library, spec_owning_library(b))
                    == spec_exports(strings_view(symbols@), b.symbol@),
                _ => true,
            } by {
                if k < rest.len() {
                    assert(rest[k] == units[k]);
                }
            }
        }
    }
}

proof fn lemma_symbol_problems_empty(bs: Seq<Builtin>, units: Seq<LinkUnit>, tables: Seq<UnitTable>)
    requires
        units.len() <= tables.len(),
    ensures
        symbol_problems(bs, units, tables).len() == 0 <==> read_problems(units, tables).len() == 0
            && forall|j: int| 0 <= j < bs.len() ==> exported_by_own_unit_only(#[trigger] bs[j], units, tables),
    decreases bs.len(),
{
    if bs.len() > 0 {
        let rest = bs.drop_last();
        lemma_symbol_problems_empty(rest, units, tables);
        lemma_builtin_problems_empty(bs.last(), units, tables);
        assert forall|j: int| 0 <= j < rest.len() implies rest[j] == bs[j] by {}
        if forall|j: int| 0 <= j < bs.len() ==> exported_by_own_unit_only(#[trigger] bs[j], units, tables) {
            assert(exported_by_own_unit_only(bs[bs.len() - 1], units, tables));
        }
    }
}

/// The pre-link check passes exactly when every link unit could be read and every
/// unit whose symbol table was read exports each built-in's symbol if and only if it
/// is that built-in's own unit: each symbol comes from exactly its own unit.
pub proof fn lemma_pre_link_check_passes_exactly(bs: Seq<Builtin>, units: Seq<LinkUnit>, tables: Seq<UnitTable>)
    requires
        tables.len() == units.len(),
    ensures
        symbol_problems(bs, units, tables).len() == 0 <==> (forall|k: int|
            0 <= k < units.len() ==> (#[trigger] tables[k]) is Ok) && forall|j: int|
            0 <= j < bs.len() ==> exported_by_own_unit_only(#[trigger] bs[j], units, tables),
{
    lemma_symbol_problems_empty(bs, units, tables);
    lemma_read_problems_empty(units, tables);
}

fn push_line(lines: &mut Vec<String>, line: String)
    ensures
        strings_view(final(lines)@) == strings_view(old(lines)@).push(line@),
{
    let ghost before = lines@;
    lines.push(line);
    assert(strings_view(lines@) =~= strings_view(before).push(line@));
}

fn is_own_unit(unit: &LinkUnit, owner: Option<&'static str>) -> (r: bool)
    ensures
        r == same_library(unit.library, owner),
{
    match (unit.library, owner) {
        (None, None) => true,
        (Some(x), Some(y)) => str_eq(x, y),
        _ => false,
    }
}

/// The pre-link check: every built-in's symbol is exported by its own link unit and
/// by no other. `tables[i]` is what reading `units[i]` gave; a unit whose symbol
/// table can't be read is left to the linker. On failure, the problems found, one
/// per line.
pub fn check_symbols(builtins: &[Builtin], units: &[LinkUnit], tables: &[UnitTable]) -> (r: Result<
    (),
    String,
>)
    requires
        tables@.len() == units@.len(),
    ensures
        symbol_problems(builtins@, units@, tables@).len() == 0 ==> r is Ok,
        symbol_problems(builtins@, units@, tables@).len() > 0 ==> (r matches Err(msg) && msg@
            == trim_end(join(symbol_problems(builtins@, units@, tables@), "\n"@))),
{
    let mut lines: Vec<String> = Vec::new();
    let mut i: usize = 0;
    while i < units.len()
        invariant
            i <= units@.len(),
            tables@.len() == units@.len(),
            strings_view(lines@) == read_problems(units@.take(i as int), tables@),
        decreases units@.len() - i,
    {
        assert(units@.take(i + 1).drop_last() =~= units@.take(i as int));
        match &tables[i] {
            Err(err) => {
                let mut line = units[i].describe();
                line.append(" not found at ");
                line.append(units[i].path.as_str());
                line.append(": ");
                line.append(err.as_str());
                push_line(&mut lines, line);
            },
            Ok(_) => {},
        }
        i = i + 1;
    }
    assert(units@.take(units@.len() as int) =~= units@);
    let mut k: usize = 0;
    while k < builtins.len()
        invariant
            k <= builtins@.len(),
            tables@.len() == units@.len(),
            strings_view(lines@) == symbol_problems(builtins@.take(k as int), units@, tables@),
        decreases builtins@.len() - k,
    {
        let b = &builtins[k];
        assert(builtins@.take(k + 1).drop_last() =~= builtins@.take(k as int));
        assert(builtins@.take(k + 1).last() == *b);
        let ghost start = strings_view(lines@);
        let owner = owning_library(b);
        let mut j: usize = 0;
        while j < units.len()
            invariant
                j <= units@.len(),
                tables@.len() == units@.len(),
                owner == spec_owning_library(*b),
                strings_view(lines@) == start + builtin_problems(*b, units@.take(j as int), tables@),
            decreases units@.len() - j,
        {
            assert(units@.take(j + 1).drop_last() =~= units@.take(j as int));
            let ghost before = strings_view(lines@);
            match &tables[j] {
                Ok(Some(symbols)) => {
                    let unit = &units[j];
                    let exported = exports(symbols.as_slice(), b.symbol);
                    let own = is_own_unit(unit, owner);
                    if own && !exported {
                        let mut line = String::new();
                        line.append("built-in `");
                        line.append(b.name);
                        line.append("` needs symbol `");
                        line.append(b.symbol);
                        line.append("` from ");
                        line.append(unit.describe().as_str());
                        line.append(" (");
                        line.append(unit.path.as_str());
                        line.append("), but it isn't exported there");
                        push_line(&mut lines, line);
                    } else if !own && exported {
                        let mut line = String::new();
                        line.append("symbol `");
                        line.append(b.symbol);
                        line.append("` (built-in `");
                        line.append(b.name);
                        line.append("`) is also exported by ");
                        line.append(unit.describe().as_str());
                        line.append(" (");
                        line.append(unit.path.as_str());
                        line.append("); each built-in must come from exactly one link unit");
                        push_line(&mut lines, line);
                    }
                    assert(strings_view(lines@) =~= start + builtin_problems(*b, units@.take(j + 1), tables@));
                },
                _ => {
                    assert(strings_view(lines@) =~= start + builtin_problems(*b, units@.take(j + 1), tables@));
                },
            }
            j = j + 1;
        }
        assert(units@.take(units@.len() as int) =~= units@);
        k = k + 1;
    }
    assert(builtins@.take(builtins@.len() as int) =~= builtins@);
    if lines.len() == 0 {
        Ok(())
    } else {
        let joined = join_strings(lines.as_slice(), "\n");
        Err(trim_end_string(joined.as_str()))
    }
}

/// Every unit's dependency arguments, in unit order.
pub open spec fn all_deps(units: Seq<LinkUnit>) -> Seq<Seq<char>>
    decreases units.len(),
{
    if units.len() == 0 {
        Seq::empty()
    } else {
        all_deps(units.drop_last()) + strings_view(units.last().deps@)
    }
}

/// A linker option, as opposed to a library: MSVC-style, it starts with `/`.
pub open spec fn is_linker_option(d: Seq<char>) -> bool {
    d.len() > 0 && d[0] == '/'
}

/// The arguments among `ds` that are linker options (`options`), or libraries.
pub open spec fn keep_args(ds: Seq<Seq<char>>, options: bool) -> Seq<Seq<char>>
    decreases ds.len(),
{
    if ds.len() == 0 {
        Seq::empty()
    } else if is_linker_option(ds.last()) == options {
        keep_args(ds.drop_last(), options).push(ds.last())
    } else {
        keep_args(ds.drop_last(), options)
    }
}

/// The units' archive paths.
pub open spec fn unit_paths(units: Seq<LinkUnit>) -> Seq<Seq<char>> {
    units.map_values(|u: LinkUnit| u.path@)
}

/// The linker's full argument list, in the documented order: objects, archives,
/// then the libraries they need. MSVC-style, options meant for the linker itself
/// (rustc reports the C runtime as `/defaultlib:libcmt`) must follow `/link`.
pub open spec fn spec_link_args(
    flavor: LinkFlavor,
    objects: Seq<Seq<char>>,
    units: Seq<LinkUnit>,
    exe_path: Seq<char>,
) -> Seq<Seq<char>> {
    let inputs = objects + unit_paths(units);
    let deps = all_deps(units);
    match flavor {
        LinkFlavor::Msvc => {
            let options = keep_args(deps, true);
            inputs + keep_args(deps, false) + seq!["/nologo"@, "/Fe:"@ + exe_path] + if options.len()
                > 0 {
                seq!["/link"@] + options
            } else {
                Seq::empty()
            }
        },
        LinkFlavor::Unix => inputs + deps + seq!["-o"@, exe_path],
    }
}

fn is_linker_option_exec(d: &str) -> (r: bool)
    ensures
        r == is_linker_option(d@),
{
    d.unicode_len() > 0 && d.get_char(0) == '/'
}

/// The linker's full argument list, in the documented link order.
pub fn link_args(flavor: LinkFlavor, objects: &[String], units: &[LinkUnit], exe_path: &str) -> (args: Vec<String>)
    ensures
        strings_view(args@) == spec_link_args(flavor, strings_view(objects@), units@, exe_path@),
{
    let mut args: Vec<String> = Vec::new();
    let mut k: usize = 0;
    while k < objects.len()
        invariant
            k <= objects@.len(),
            strings_view(args@) == strings_view(objects@.take(k as int)),
        decreases objects@.len() - k,
    {
        push_line(&mut args, objects[k].clone());
        assert(strings_view(objects@.take(k + 1)) =~= strings_view(objects@.take(k as int)).push(
            objects@[k as int]@,
        ));
        k = k + 1;
    }
    assert(objects@.take(objects@.len() as int) =~= objects@);
    let ghost obj = strings_view(objects@);
    let mut k: usize = 0;
    while k < units.len()
        invariant
            k <= units@.len(),
            strings_view(args@) == obj + unit_paths(units@.take(k as int)),
        decreases units@.len() - k,
    {
        push_line(&mut args, units[k].path.clone());
        assert(unit_paths(units@.take(k + 1)) =~= unit_paths(units@.take(k as int)).push(
            units@[k as int].path@,
        ));
        k = k + 1;
    }
    assert(units@.take(units@.len() as int) =~= units@);
    let ghost inputs = strings_view(args@);
    let mut libraries: Vec<String> = Vec::new();
    let mut options: Vec<String> = Vec::new();
    let mut all: Vec<String> = Vec::new();
    let mut k: usize = 0;
    while k < units.len()
        invariant
            k <= units@.len(),
            strings_view(all@) == all_deps(units@.take(k as int)),
            strings_view(libraries@) == keep_args(all_deps(units@.take(k as int)), false),
            strings_view(options@) == keep_args(all_deps(units@.take(k as int)), true),
        decreases units@.len() - k,
    {
        let deps = &units[k].deps;
        let ghost base = strings_view(all@);
        let ghost dv = strings_view(deps@);
        assert(units@.take(k + 1).drop_last() =~= units@.take(k as int));
        let mut j: usize = 0;
        while j < deps.len()
            invariant
                j <= deps@.len(),
                dv == strings_view(deps@),
                strings_view(all@) == base + dv.take(j as int),
                strings_view(libraries@) == keep_args(base + dv.take(j as int), false),
                strings_view(options@) == keep_args(base + dv.take(j as int), true),
            decreases deps@.len() - j,
        {
            let d = &deps[j];
            assert((base + dv.take(j + 1)).drop_last() =~= base + dv.take(j as int));
            assert((base + dv.take(j + 1)).last() == d@);
            push_line(&mut all, d.clone());
            if is_linker_option_exec(d.as_str()) {
                push_line(&mut options, d.clone());
            } else {
                push_line(&mut libraries, d.clone());
            }
            assert(strings_view(all@) =~= base + dv.take(j + 1));
            j = j + 1;
        }
        assert(dv.take(deps@.len() as int) =~= dv);
        k = k + 1;
    }
    assert(units@.take(units@.len() as int) =~= units@);
    let ghost deps_v = all_deps(units@);
    match flavor {
        LinkFlavor::Msvc => {
            let mut k: usize = 0;
            while k < libraries.len()
                invariant
                    k <= libraries@.len(),
                    strings_view(args@) == inputs + strings_view(libraries@).take(k as int),
                decreases libraries@.len() - k,
            {
                push_line(&mut args, libraries[k].clone());
                assert(strings_view(libraries@).take(k + 1) =~= strings_view(libraries@).take(
                    k as int,
                ).push(libraries@[k as int]@));
                k = k + 1;
            }
            assert(strings_view(libraries@).take(libraries@.len() as int) =~= strings_view(
                libraries@,
            ));
            push_line(&mut args, "/nologo".to_owned());
            let mut fe = "/Fe:".to_owned();
            fe.append(exe_path);
            push_line(&mut args, fe);
            let ghost fixed = strings_view(args@);
            if options.len() > 0 {
                push_line(&mut args, "/link".to_owned());
                let ghost linked = strings_view(args@);
                let mut k: usize = 0;
                while k < options.len()
                    invariant
                        k <= options@.len(),
                        strings_view(args@) == linked + strings_view(options@).take(k as int),
                    decreases options@.len() - k,
                {
                    push_line(&mut args, options[k].clone());
                    assert(strings_view(options@).take(k + 1) =~= strings_view(options@).take(
                        k as int,
                    ).push(options@[k as int]@));
                    k = k + 1;
                }
                assert(strings_view(options@).take(options@.len() as int) =~= strings_view(
                    options@,
                ));
                assert(strings_view(args@) =~= spec_link_args(
                    flavor,
                    strings_view(objects@),
                    units@,
                    exe_path@,
                ));
            } else {
                assert(strings_view(args@) =~= spec_link_args(
                    flavor,
                    strings_view(objects@),
                    units@,
                    exe_path@,
                ));
            }
        },
        LinkFlavor::Unix => {
            let mut k: usize = 0;
            while k < all.len()
                invariant
                    k <= all@.len(),
                    strings_view(args@) == inputs + strings_view(all@).take(k as int),
                decreases all@.len() - k,
            {
                push_line(&mut args, all[k].clone());
                assert(strings_view(all@).take(k + 1) =~= strings_view(all@).take(k as int).push(
                    all@[k as int]@,
                ));
                k = k + 1;
            }
            assert(strings_view(all@).take(all@.len() as int) =~= strings_view(all@));
            push_line(&mut args, "-o".to_owned());
            push_line(&mut args, exe_path.to_owned());
            assert(strings_view(args@) =~= spec_link_args(
                flavor,
                strings_view(objects@),
                units@,
                exe_path@,
            ));
        },
    }
    args
}

/// A command-line word as shown in messages: in double quotes when it holds a space.
pub open spec fn quote_word(w: Seq<char>) -> Seq<char> {
    if spec_contains(w, " "@) {
        "\""@ + w + "\""@
    } else {
        w
    }
}

/// The words shown.
pub open spec fn quote_words(ws: Seq<Seq<char>>) -> Seq<Seq<char>> {
    ws.map_values(|w: Seq<char>| quote_word(w))
}

fn quote_word_exec(w: &str) -> (s: String)
    ensures
        s@ == quote_word(w@),
{
    if str_contains(w, " ") {
        let mut s = "\"".to_owned();
        s.append(w);
        s.append("\"");
        s
    } else {
        w.to_owned()
    }
}

/// `program args...` as a copy-pasteable line, for error messages: each word in
/// double quotes when it holds a space, separated by spaces.
pub fn command_line(program: &str, args: &[String]) -> (s: String)
    ensures
        s@ == join(quote_words(seq![program@] + strings_view(args@)), " "@),
{
    let ghost words = seq![program@] + strings_view(args@);
    let mut shown: Vec<String> = Vec::new();
    push_line(&mut shown, quote_word_exec(program));
    let mut k: usize = 0;
    while k < args.len()
        invariant
            k <= args@.len(),
            words == seq![program@] + strings_view(args@),
            strings_view(shown@) == quote_words(words.take(k + 1)),
        decreases args@.len() - k,
    {
        push_line(&mut shown, quote_word_exec(args[k].as_str()));
        assert(quote_words(words.take(k + 2)) =~= quote_words(words.take(k + 1)).push(
            quote_word(args@[k as int]@),
        ));
        k = k + 1;
    }
    assert(words.take(args@.len() as int + 1) =~= words);
    join_strings(shown.as_slice(), " ")
}

/// The flavor of a toolchain that is MSVC-like, GNU-like or Clang-like; any other is
/// an error naming the compiler at `compiler_path`.
pub open spec fn spec_link_flavor(msvc: bool, gnu: bool, clang: bool, compiler_path: Seq<char>) -> Result<
    LinkFlavor,
    Seq<char>,
> {
    if msvc {
        Ok(LinkFlavor::Msvc)
    } else if gnu || clang {
        Ok(LinkFlavor::Unix)
    } else {
        Err(
            "unsupported toolchain `"@ + compiler_path
                + "`: calcc links with an MSVC-style (cl.exe) or Unix-style (cc, gcc, clang) driver; point CC at one"@,
        )
    }
}

/// The command-line flavor of the C toolchain used as the linker driver, from what
/// it is like.
pub fn link_flavor(msvc: bool, gnu: bool, clang: bool, compiler_path: &str) -> (r: Result<
    LinkFlavor,
    String,
>)
    ensures
        match spec_link_flavor(msvc, gnu, clang, compiler_path@) {
            Ok(f) => r == Ok::<LinkFlavor, String>(f),
            Err(msg) => r matches Err(m) && m@ == msg,
        },
{
    if msvc {
        Ok(LinkFlavor::Msvc)
    } else if gnu || clang {
        Ok(LinkFlavor::Unix)
    } else {
        let mut msg = "unsupported toolchain `".to_owned();
        msg.append(compiler_path);
        msg.append(
            "`: calcc links with an MSVC-style (cl.exe) or Unix-style (cc, gcc, clang) driver; point CC at one",
        );
        Err(msg)
    }
}

/// Whether the executable's path gets `.exe` added: `cl.exe` always gives its output
/// an extension, so with MSVC a path without one is given `.exe`, the name the
/// executable will really have.
pub fn needs_exe_extension(flavor: LinkFlavor, has_extension: bool) -> (r: bool)
    ensures
        r == (flavor == LinkFlavor::Msvc && !has_extension),
{
    match flavor {
        LinkFlavor::Msvc => !has_extension,
        LinkFlavor::Unix => false,
    }
}

/// The error for a linker run that failed: its exit status as shown, the command
/// line, then what it wrote to standard output and standard error.
pub fn linker_failure(status: &str, command: &str, stdout: &str, stderr: &str) -> (s: String)
    ensures
        s@ == "linker exited with "@ + status@ + "\ncommand: "@ + command@ + "\n"@ + stdout@ + stderr@,
{
    let mut s = "linker exited with ".to_owned();
    s.append(status);
    s.append("\ncommand: ");
    s.append(command);
    s.append("\n");
    s.append(stdout);
    s.append(stderr);
    s
}

/// The extension object files have for `flavor`'s toolchain.
pub open spec fn spec_object_extension(flavor: LinkFlavor) -> Seq<char> {
    match flavor {
        LinkFlavor::Msvc => "obj"@,
        LinkFlavor::Unix => "o"@,
    }
}

/// The extension object files have for `flavor`'s toolchain.
pub fn object_extension(flavor: LinkFlavor) -> (s: &'static str)
    ensures
        s@ == spec_object_extension(flavor),
{
    match flavor {
        LinkFlavor::Msvc => "obj",
        LinkFlavor::Unix => "o",
    }
}

#[verifier::external_type_specification]
#[verifier::external_body]
pub struct ExObject<'a>(Object<'a>);

#[verifier::external_type_specification]
#[verifier::external_body]
pub struct ExSectionId(SectionId);

#[verifier::external_type_specification]
#[verifier::external_body]
pub struct ExSymbolId(SymbolId);

/// How a section of an object file under construction was made.
pub enum SectionMade {
    /// By `Object::add_section`, of kind `Other`, in no segment, named `name`.
    Other { name: Seq<u8> },
    /// As the object format's standard read-only data section.
    ReadOnlyData,
}

/// A section of an object file under construction: how it was made, its bytes so
/// far, and its alignment.
pub struct SectionView {
    pub made: SectionMade,
    pub data: Seq<u8>,
    pub align: u64,
}

/// A symbol of an object file under construction: a global data symbol, added
/// under `name` (before the format's mangling prefix, if it has one), and where it
/// is defined: the index of its section, its offset there, and its size. A symbol
/// not yet defined has no section, offset 0 and size 0.
pub struct SymbolView {
    pub name: Seq<u8>,
    pub section: Option<nat>,
    pub value: nat,
    pub size: nat,
}

/// The sections `obj` holds, in the order they were added: a section's id is its
/// index here.
pub uninterp spec fn object_sections(obj: Object<'static>) -> Seq<SectionView>;

/// The symbols `obj` holds, in the order they were added: a symbol's id is its
/// index here.
pub uninterp spec fn object_symbols(obj: Object<'static>) -> Seq<SymbolView>;

/// The format and architecture `obj` was created for.
pub uninterp spec fn object_target(obj: Object<'static>) -> (ObjectFormat, ObjectArch);

/// The index of the section `id` stands for.
pub uninterp spec fn section_index(id: SectionId) -> nat;

/// The index of the symbol `id` stands for.
pub uninterp spec fn symbol_index(id: SymbolId) -> nat;

/// What `Object::write` gives for a little-endian object of `target` holding
/// `sections` and `symbols`: its bytes, or the writer's error as text.
pub uninterp spec fn written_object(
    target: (ObjectFormat, ObjectArch),
    sections: Seq<SectionView>,
    symbols: Seq<SymbolView>,
) -> Result<Seq<u8>, Seq<char>>;

/// `len` rounded up to a multiple of `align`.
pub open spec fn padded_len(len: nat, align: nat) -> nat {
    if align == 0 || len % align == 0 {
        len
    } else {
        (len + (align - len % align)) as nat
    }
}

/// `n` zero bytes.
pub open spec fn zero_bytes(n: nat) -> Seq<u8> {
    Seq::new(n, |i: int| 0u8)
}

/// Section `s` with `data` appended at the next multiple of `align`, the gap
/// filled with zeros, and its alignment raised to `align` if it was lower.
pub open spec fn appended(s: SectionView, data: Seq<u8>, align: u64) -> SectionView {
    let offset = padded_len(s.data.len(), align as nat);
    SectionView {
        made: s.made,
        data: s.data + zero_bytes((offset - s.data.len()) as nat) + data,
        align: if s.align < align {
            align
        } else {
            s.align
        },
    }
}

/// Some section of `sections` is the read-only data section.
pub open spec fn has_read_only_data(sections: Seq<SectionView>) -> bool {
    exists|i: int| 0 <= i < sections.len() && (#[trigger] sections[i]).made is ReadOnlyData
}

/// `object::write::Object::new`: an empty little-endian object file of `format` for
/// `arch`, holding no section and no symbol.
#[verifier::external_body]
fn new_object(format: ObjectFormat, arch: ObjectArch) -> (obj: Object<'static>)
    ensures
        object_sections(obj) == Seq::<SectionView>::empty(),
        object_symbols(obj) == Seq::<SymbolView>::empty(),
        object_target(obj) == (format, arch),
{
    let format = match format {
        ObjectFormat::Coff => object::BinaryFormat::Coff,
        ObjectFormat::Elf => object::BinaryFormat::Elf,
        ObjectFormat::MachO => object::BinaryFormat::MachO,
    };
    let arch = match arch {
        ObjectArch::X86_64 => object::Architecture::X86_64,
        ObjectArch::Aarch64 => object::Architecture::Aarch64,
    };
    Object::new(format, arch, object::Endianness::Little)
}

/// `Object::add_section` with `SectionKind::Other`: a new, empty section named
/// `name`, in no segment, with alignment 1, that the ELF writer emits as
/// `SHT_PROGBITS` without flags. Its id is dropped: nothing is put in it.
#[verifier::external_body]
fn add_progbits_section(obj: &mut Object<'static>, name: &[u8])
    ensures
        object_sections(*final(obj)) == object_sections(*old(obj)).push(
            SectionView { made: SectionMade::Other { name: name@ }, data: Seq::empty(), align: 1 },
        ),
        object_symbols(*final(obj)) == object_symbols(*old(obj)),
        object_target(*final(obj)) == object_target(*old(obj)),
{
    obj.add_section(Vec::new(), name.to_vec(), SectionKind::Other);
}

/// `Object::section_id(StandardSection::ReadOnlyData)` on an object that has no
/// read-only data section yet: it adds the format's one, empty, with alignment 1,
/// and returns its id. (A section of that kind is registered as the standard one
/// when added, and only this call adds one.)
#[verifier::external_body]
fn read_only_data_section(obj: &mut Object<'static>) -> (section: SectionId)
    requires
        !has_read_only_data(object_sections(*old(obj))),
    ensures
        object_sections(*final(obj)) == object_sections(*old(obj)).push(
            SectionView { made: SectionMade::ReadOnlyData, data: Seq::empty(), align: 1 },
        ),
        section_index(section) == object_sections(*old(obj)).len(),
        object_symbols(*final(obj)) == object_symbols(*old(obj)),
        object_target(*final(obj)) == object_target(*old(obj)),
{
    obj.section_id(StandardSection::ReadOnlyData)
}

/// `Object::add_symbol`: a global (linkage-scoped), non-weak data symbol named
/// `name`, not yet defined in any section, added after the others; its id is its
/// index.
#[verifier::external_body]
fn add_data_symbol(obj: &mut Object<'static>, name: &[u8]) -> (symbol: SymbolId)
    ensures
        object_symbols(*final(obj)) == object_symbols(*old(obj)).push(
            SymbolView { name: name@, section: None, value: 0, size: 0 },
        ),
        symbol_index(symbol) == object_symbols(*old(obj)).len(),
        object_sections(*final(obj)) == object_sections(*old(obj)),
        object_target(*final(obj)) == object_target(*old(obj)),
{
    obj.add_symbol(Symbol {
        name: name.to_vec(),
        value: 0,
        size: 0,
        kind: SymbolKind::Data,
        scope: SymbolScope::Linkage,
        weak: false,
        section: SymbolSection::Undefined,
        flags: SymbolFlags::None,
    })
}

/// `Object::add_symbol_data`: appends `data` to `section` at the next multiple of
/// `align` (zero-filling the gap, raising the section's alignment), and defines
/// `symbol` there with `data`'s size. `requires` keeps to ids this object issued
/// (others index out of bounds), to the small powers of two the source asserts
/// `align` is, and to sections whose bytes a `Vec` can hold.
#[verifier::external_body]
fn add_symbol_data(obj: &mut Object<'static>, symbol: SymbolId, section: SectionId, data: &[u8], align: u64)
    requires
        align == 1 || align == 2 || align == 4 || align == 8,
        section_index(section) < object_sections(*old(obj)).len(),
        symbol_index(symbol) < object_symbols(*old(obj)).len(),
        object_sections(*old(obj))[section_index(section) as int].data.len() + align + data@.len()
            <= isize::MAX,
    ensures
        object_sections(*final(obj)) == object_sections(*old(obj)).update(
            section_index(section) as int,
            appended(object_sections(*old(obj))[section_index(section) as int], data@, align),
        ),
        object_symbols(*final(obj)) == object_symbols(*old(obj)).update(
            symbol_index(symbol) as int,
            SymbolView {
                name: object_symbols(*old(obj))[symbol_index(symbol) as int].name,
                section: Some(section_index(section)),
                value: padded_len(
                    object_sections(*old(obj))[section_index(section) as int].data.len(),
                    align as nat,
                ),
                size: data@.len(),
            },
        ),
        object_target(*final(obj)) == object_target(*old(obj)),
{
    obj.add_symbol_data(symbol, section, data, align);
}

/// The plain value of a writer's result.
pub open spec fn written_view(r: Result<Vec<u8>, String>) -> Result<Seq<u8>, Seq<char>> {
    match r {
        Ok(bytes) => Ok(bytes@),
        Err(msg) => Err(msg@),
    }
}

/// `Object::write`: the object file's bytes, or the writer's error as text; both
/// are the `object` crate's encoding of the object's target, sections and symbols.
#[verifier::external_body]
fn write_object(obj: &Object<'static>) -> (r: Result<Vec<u8>, String>)
    ensures
        written_view(r) == written_object(object_target(*obj), object_sections(*obj), object_symbols(*obj)),
{
    obj.write().map_err(|err| err.to_string())
}

/// The name of the data symbol holding a program's packed IPC bundles.
pub open spec fn bundles_symbol() -> Seq<u8> {
    encode_utf8("calc_ipc_bundles"@)
}

/// The name of the data symbol holding their length.
pub open spec fn bundles_len_symbol() -> Seq<u8> {
    encode_utf8("calc_ipc_bundles_len"@)
}

/// The data symbols the bundle object defines: name, bytes, alignment. The blob
/// itself, at least one byte so the symbol has an address of its own, and its
/// length as a little-endian `u64`.
pub open spec fn spec_bundle_symbols(blob: Seq<u8>) -> Seq<(Seq<u8>, Seq<u8>, u64)> {
    seq![
        (bundles_symbol(), if blob.len() == 0 { seq![0u8] } else { blob }, 1u64),
        (bundles_len_symbol(), spec_u64_to_le_bytes(blob.len() as u64), 8u64),
    ]
}

/// The data symbols the bundle object for `blob` defines.
pub fn bundle_symbols(blob: &[u8]) -> (r: Vec<(Vec<u8>, Vec<u8>, u64)>)
    ensures
        r@.len() == 2,
        forall|i: int|
            0 <= i < 2 ==> (#[trigger] r@[i]).0@ == spec_bundle_symbols(blob@)[i].0 && r@[i].1@
                == spec_bundle_symbols(blob@)[i].1 && r@[i].2 == spec_bundle_symbols(blob@)[i].2,
{
    let name = "calc_ipc_bundles";
    let len_name = "calc_ipc_bundles_len";
    let mut data: Vec<u8> = Vec::new();
    if blob.len() == 0 {
        data.push(0u8);
        assert(data@ =~= seq![0u8]);
    } else {
        append_bytes(&mut data, blob);
        assert(data@ =~= blob@);
    }
    let len = u64_to_le_bytes(blob.len() as u64);
    let name_bytes = name.as_bytes();
    let len_name_bytes = len_name.as_bytes();
    assert(name_bytes@ == encode_utf8(name@));
    assert(len_name_bytes@ == encode_utf8(len_name@));
    let mut first: Vec<u8> = Vec::new();
    append_bytes(&mut first, name_bytes);
    let mut second: Vec<u8> = Vec::new();
    append_bytes(&mut second, len_name_bytes);
    let mut r: Vec<(Vec<u8>, Vec<u8>, u64)> = Vec::new();
    r.push((first, data, 1));
    r.push((second, len, 8));
    assert(first@ =~= name_bytes@);
    assert(second@ =~= len_name_bytes@);
    r
}

/// Why no bundle object can be written for `target`, if no object can be.
pub open spec fn bundle_object_error(target: Seq<char>) -> Option<Seq<char>> {
    match parsed_triple(target) {
        None => Some("`"@ + target + "` is not a target triple"@),
        Some(facts) => match facts.format {
            Err(name) => Some("no object format for "@ + name),
            Ok(_) => match facts.arch {
                Err(name) => Some("no object architecture for "@ + name),
                Ok(_) => None,
            },
        },
    }
}

/// The object format and architecture of a target that has both.
pub open spec fn bundle_target(target: Seq<char>) -> (ObjectFormat, ObjectArch) {
    let facts = parsed_triple(target)->0;
    (facts.format->Ok_0, facts.arch->Ok_0)
}

/// The sections of the bundle object for `blob` in `format`: on ELF an empty
/// `.note.GNU-stack` section first, then the read-only data section holding each
/// of [`spec_bundle_symbols`]'s bytes in turn, at its alignment.
pub open spec fn bundle_sections(format: ObjectFormat, blob: Seq<u8>) -> Seq<SectionView> {
    let syms = spec_bundle_symbols(blob);
    let stack = if format == ObjectFormat::Elf {
        seq![
            SectionView {
                made: SectionMade::Other { name: encode_utf8(".note.GNU-stack"@) },
                data: Seq::empty(),
                align: 1,
            },
        ]
    } else {
        Seq::empty()
    };
    let rodata = SectionView { made: SectionMade::ReadOnlyData, data: Seq::empty(), align: 1 };
    stack.push(appended(appended(rodata, syms[0].1, syms[0].2), syms[1].1, syms[1].2))
}

/// The symbols of the bundle object for `blob` in `format`: each of
/// [`spec_bundle_symbols`], defined in the read-only data section where its bytes
/// went.
pub open spec fn bundle_symbol_views(format: ObjectFormat, blob: Seq<u8>) -> Seq<SymbolView> {
    let syms = spec_bundle_symbols(blob);
    let k: nat = if format == ObjectFormat::Elf {
        1
    } else {
        0
    };
    let rodata = SectionView { made: SectionMade::ReadOnlyData, data: Seq::empty(), align: 1 };
    let first = appended(rodata, syms[0].1, syms[0].2);
    seq![
        SymbolView { name: syms[0].0, section: Some(k), value: 0, size: syms[0].1.len() },
        SymbolView {
            name: syms[1].0,
            section: Some(k),
            value: padded_len(first.data.len(), syms[1].2 as nat),
            size: syms[1].1.len(),
        },
    ]
}

/// A data-only object file for `target` defining the symbols [`bundle_symbols`]
/// lists, which the IPC shim in the runtime archive declares `extern`: a linker
/// resolves data symbols exactly like function symbols. No relocations: the blob is
/// flat bytes. For ELF it also carries an empty `.note.GNU-stack` section, saying
/// the program needs no executable stack. The blob must leave room to grow a `Vec`
/// by a few bytes.
pub fn bundle_object(target: &str, blob: &[u8]) -> (r: Result<Vec<u8>, String>)
    requires
        blob@.len() + 16 <= isize::MAX,
    ensures
        match bundle_object_error(target@) {
            Some(msg) => r matches Err(m) && m@ == msg,
            None => written_view(r) == written_object(
                bundle_target(target@),
                bundle_sections(bundle_target(target@).0, blob@),
                bundle_symbol_views(bundle_target(target@).0, blob@),
            ),
        },
{
    let facts = match parse_triple(target) {
        Some(facts) => facts,
        None => {
            let mut msg = "`".to_owned();
            msg.append(target);
            msg.append("` is not a target triple");
            return Err(msg);
        },
    };
    let format = match facts.format {
        Ok(format) => format,
        Err(name) => {
            let mut msg = "no object format for ".to_owned();
            msg.append(name.as_str());
            return Err(msg);
        },
    };
    let arch = match facts.arch {
        Ok(arch) => arch,
        Err(name) => {
            let mut msg = "no object architecture for ".to_owned();
            msg.append(name.as_str());
            return Err(msg);
        },
    };
    let mut obj = new_object(format, arch);
    let stack_name = ".note.GNU-stack";
    if format == ObjectFormat::Elf {
        add_progbits_section(&mut obj, stack_name.as_bytes());
        assert(object_sections(obj)[0].made is Other);
    }
    assert(!has_read_only_data(object_sections(obj)));
    let section = read_only_data_section(&mut obj);
    let symbols = bundle_symbols(blob);
    let ghost syms = spec_bundle_symbols(blob@);
    let first = add_data_symbol(&mut obj, symbols[0].0.as_slice());
    add_symbol_data(&mut obj, first, section, symbols[0].1.as_slice(), symbols[0].2);
    proof {
        let si = section_index(section) as int;
        assert(padded_len(0, symbols@[0].2 as nat) == 0);
        assert(zero_bytes(0) =~= Seq::<u8>::empty());
        assert(object_sections(obj)[si].data =~= symbols@[0].1@);
        vstd::bytes::lemma_auto_spec_u64_to_from_le_bytes();
        assert(spec_u64_to_le_bytes(blob@.len() as u64).len() == 8);
        assert(symbols@[1].1@.len() == 8);
    }
    let second = add_data_symbol(&mut obj, symbols[1].0.as_slice());
    add_symbol_data(&mut obj, second, section, symbols[1].1.as_slice(), symbols[1].2);
    let r = write_object(&obj);
    proof {
        assert(stack_name@ == ".note.GNU-stack"@);
        assert(object_sections(obj) =~= bundle_sections(format, blob@));
        assert(object_symbols(obj) =~= bundle_symbol_views(format, blob@));
    }
    r
}

} // verus!
