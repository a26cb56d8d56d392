//! The decisions of the IPC built-ins' run-time shim: which command runs a built-in
//! on this platform, where its bundle comes from, and where an embedded bundle is
//! unpacked. A failure here is fatal to the running program, which reports the
//! message given.

use vstd::prelude::*;

use crate::builtins::{lookup, spec_ipc_command, spec_lookup, BindingKind, IpcCommand};
use crate::bundle_format::{parse, spec_parse, Bundle, BundleView};
use crate::link::{join_path, path_join};
use crate::text::{hex_digits, spec_decimal, spec_hex_digits, str_eq, decimal};

verus! {

/// Where an IPC built-in's bundle is read from.
#[derive(Debug, Clone, Copy, PartialEq, Eq, Structural)]
pub enum BundleSource {
    /// Embedded in the executable by the link driver: compiled programs.
    Embedded,
    /// The bundle's directory in the source tree: the interpreter and tests.
    Source,
}

/// What the shim runs for built-in `name` on `family`, or why it cannot.
pub open spec fn spec_ipc_target(name: Seq<char>, family: Seq<char>) -> Result<
    (IpcCommand, Option<&'static str>),
    Seq<char>,
> {
    match spec_lookup(name) {
        None => Err("calc-runtime: no built-in `"@ + name + "` in the manifest"@),
        Some(b) => match b.kind {
            BindingKind::Ipc { bundle, .. } => match spec_ipc_command(b, family) {
                Some(c) => Ok((c, bundle)),
                None => Err(
                    "calc-runtime: the manifest declares no "@ + family + " command for `"@ + name
                        + "`"@,
                ),
            },
            _ => Err("calc-runtime: `"@ + name + "` is not an IPC built-in"@),
        },
    }
}

/// The command that runs the IPC built-in `name` on `family`, and the bundle it
/// declares; or the message to stop with.
pub fn ipc_target(name: &str, family: &str) -> (r: Result<(&'static IpcCommand, Option<&'static str>), String>)
    ensures
        match spec_ipc_target(name@, family@) {
            Ok((c, bundle)) => r matches Ok((x, y)) && *x == c && y == bundle,
            Err(msg) => r matches Err(m) && m@ == msg,
        },
{
    let builtin = match lookup(name) {
        Some(b) => b,
        None => {
            let mut m = "calc-runtime: no built-in `".to_owned();
            m.append(name);
            m.append("` in the manifest");
            return Err(m);
        },
    };
    let bundle = match builtin.kind {
        BindingKind::Ipc { bundle, .. } => bundle,
        _ => {
            let mut m = "calc-runtime: `".to_owned();
            m.append(name);
            m.append("` is not an IPC built-in");
            return Err(m);
        },
    };
    match builtin.ipc_command(family) {
        Some(c) => Ok((c, bundle)),
        None => {
            let mut m = "calc-runtime: the manifest declares no ".to_owned();
            m.append(family);
            m.append(" command for `");
            m.append(name);
            m.append("`");
            Err(m)
        },
    }
}

/// The first of `bundles` named `name`.
pub open spec fn first_named(bundles: Seq<BundleView>, name: Seq<char>) -> Option<int> {
    if exists|i: int| 0 <= i < bundles.len() && (#[trigger] bundles[i]).name == name {
        Some(
            choose|i: int|
                0 <= i < bundles.len() && bundles[i].name == name && forall|j: int|
                    0 <= j < i ==> bundles[j].name != name,
        )
    } else {
        None
    }
}

/// The embedded bundle named `name`, from the packed table `blob`; or the message
/// to stop with when the table is malformed or has no such bundle.
pub fn embedded_bundle(blob: &[u8], name: &str) -> (r: Result<Bundle, String>)
    ensures
        match spec_parse(blob@) {
            None => r matches Err(m) && m@ == "calc-runtime: the embedded IPC bundle table is malformed"@,
            Some(bundles) => match r {
                Ok(b) => exists|i: int|
                    #![trigger bundles[i]]
                    0 <= i < bundles.len() && bundles[i] == b@ && b@.name == name@ && forall|j: int|
                        0 <= j < i ==> (#[trigger] bundles[j]).name != name@,
                Err(m) => (forall|i: int| 0 <= i < bundles.len() ==> (#[trigger] bundles[i]).name
                    != name@) && m@ == "calc-runtime: bundle `"@ + name@ + "` isn't embedded"@,
            },
        },
{
    let mut bundles = match parse(blob) {
        Some(bundles) => bundles,
        None => {
            return Err("calc-runtime: the embedded IPC bundle table is malformed".to_owned());
        },
    };
    let ghost all = crate::bundle_format::bundles_view(bundles@);
    let mut k: usize = 0;
    while k < bundles.len() && !str_eq(bundles[k].name.as_str(), name)
        invariant
            k <= bundles@.len(),
            all == crate::bundle_format::bundles_view(bundles@),
            all.len() == bundles@.len(),
            forall|j: int| 0 <= j < k ==> (#[trigger] all[j]).name != name@,
        decreases bundles@.len() - k,
    {
        assert(all[k as int] == bundles@[k as int]@);
        k = k + 1;
    }
    if k < bundles.len() {
        assert(all[k as int] == bundles@[k as int]@);
        let b = bundles.remove(k);
        assert(all[k as int] == b@);
        return Ok(b);
    }
    let mut m = "calc-runtime: bundle `".to_owned();
    m.append(name);
    m.append("` isn't embedded");
    Err(m)
}

/// The directory, inside the cache, that a bundle named `name` with content hash
/// `hash` is unpacked into: the name, then the hash in 16 hex digits, so an existing
/// directory is never stale.
pub open spec fn spec_unpacked_dir_name(name: Seq<char>, hash: u64) -> Seq<char> {
    name + "-"@ + spec_hex_digits(hash as nat, 16)
}

/// The directory, inside the cache, that `bundle` is unpacked into.
pub fn unpacked_dir_name(bundle: &Bundle) -> (s: String)
    ensures
        s@ == spec_unpacked_dir_name(bundle.name@, bundle.hash),
{
    let mut s = bundle.name.clone();
    s.append("-");
    s.append(hex_digits(bundle.hash, 16).as_str());
    s
}

/// The hidden sibling process `pid` unpacks `bundle` into before renaming it into
/// place, so a concurrent first run never sees a half-written bundle.
pub fn staging_dir_name(bundle: &Bundle, pid: u32) -> (s: String)
    ensures
        s@ == "."@ + spec_unpacked_dir_name(bundle.name@, bundle.hash) + "."@ + spec_decimal(
            pid as nat,
        ),
{
    let mut s = ".".to_owned();
    s.append(unpacked_dir_name(bundle).as_str());
    s.append(".");
    s.append(decimal(pid as u64).as_str());
    s
}

/// Where bundles are unpacked, from the environment: `explicit` (the
/// `CALC_BUNDLE_CACHE` override) if set; otherwise the platform's per-user cache
/// directory, `LOCALAPPDATA` on Windows, elsewhere `XDG_CACHE_HOME` or `HOME`'s
/// `.cache`. Per-user rather than a shared temporary directory, so that another
/// user can't plant files at the predictable path.
pub open spec fn spec_cache_root(
    explicit: Option<Seq<char>>,
    windows: bool,
    local_app_data: Option<Seq<char>>,
    xdg_cache_home: Option<Seq<char>>,
    home: Option<Seq<char>>,
) -> Option<Seq<char>> {
    if explicit is Some {
        explicit
    } else if windows {
        local_app_data
    } else if xdg_cache_home is Some {
        xdg_cache_home
    } else {
        match home {
            Some(h) => Some(path_join(h, ".cache"@)),
            None => None,
        }
    }
}

/// The plain value of an optional string.
pub open spec fn opt_view(s: Option<String>) -> Option<Seq<char>> {
    match s {
        Some(x) => Some(x@),
        None => None,
    }
}

/// Where bundles are unpacked, given the environment's values; `None` when no
/// per-user cache directory can be found.
pub fn cache_root(
    explicit: Option<String>,
    windows: bool,
    local_app_data: Option<String>,
    xdg_cache_home: Option<String>,
    home: Option<String>,
) -> (r: Option<String>)
    ensures
        opt_view(r) == spec_cache_root(
            opt_view(explicit),
            windows,
            opt_view(local_app_data),
            opt_view(xdg_cache_home),
            opt_view(home),
        ),
{
    if explicit.is_some() {
        explicit
    } else if windows {
        local_app_data
    } else if xdg_cache_home.is_some() {
        xdg_cache_home
    } else {
        match home {
            Some(h) => Some(join_path(h.as_str(), ".cache")),
            None => None,
        }
    }
}

} // verus!
