use object::{Object as _, ObjectSymbol as _};
use calc_lang::builtins::{builtins, BindingKind, Builtin, LinkDep};
use calc_lang::link::{
    archive_symbols, bundle_object, bundle_symbols, check_symbols, command_line, exports,
    join_path, link_args, link_flavor, link_units, linker_failure, needs_exe_extension,
    object_extension, owning_library, target_family, LinkFlavor, LinkUnit, UnitTable,
};

fn gnu_archive(names: &[&str]) -> Vec<u8> {
    let mut table = Vec::new();
    table.extend((names.len() as u32).to_be_bytes());
    for _ in names {
        table.extend(0x0000_00d8u32.to_be_bytes());
    }
    for name in names {
        table.extend(name.as_bytes());
        table.push(0);
    }
    let mut ar = b"!<arch>\n".to_vec();
    ar.extend(
        format!(
            "{:<16}{:<12}{:<6}{:<6}{:<8}{:<10}`\n",
            "/",
            0,
            0,
            0,
            0,
            table.len()
        )
        .bytes(),
    );
    ar.extend(&table);
    ar
}

#[test]
fn link_reads_the_symbol_table_of_a_gnu_style_archive() {
    assert_eq!(
        archive_symbols(&gnu_archive(&["calc_add", "calc_mul"])),
        Some(vec!["calc_add".to_string(), "calc_mul".to_string()])
    );
    assert_eq!(archive_symbols(b"not an archive"), None);
}

#[test]
fn link_stub_reads_the_symbol_table_of_a_gnu_style_archive() {
    let mut table = Vec::new();
    table.extend(2u32.to_be_bytes());
    table.extend(0x0000_00d8u32.to_be_bytes());
    table.extend(0x0000_00d8u32.to_be_bytes());
    table.extend(b"calc_add\0calc_mul\0");
    let mut ar = b"!<arch>\n".to_vec();
    ar.extend(
        format!(
            "{:<16}{:<12}{:<6}{:<6}{:<8}{:<10}`\n",
            "/",
            0,
            0,
            0,
            0,
            table.len()
        )
        .bytes(),
    );
    ar.extend(&table);
    assert_eq!(
        archive_symbols(&ar),
        Some(vec!["calc_add".to_string(), "calc_mul".to_string()])
    );
}

#[test]
fn a_bsd_style_archive_has_no_readable_table() {
    let mut ar = gnu_archive(&["calc_add"]);
    ar[8] = b'#';
    assert_eq!(archive_symbols(&ar), None);
    let truncated = &gnu_archive(&["calc_add"])[..70];
    assert_eq!(archive_symbols(truncated), None);
}

#[test]
fn a_table_with_fewer_names_than_its_count_lists_what_is_there() {
    let mut ar = gnu_archive(&["a", "b"]);
    // Claim three names; there are only two NUL-terminated ones plus an empty tail.
    ar[68 + 3] = 3;
    ar.splice(68 + 4..68 + 4, 0u32.to_be_bytes());
    assert_eq!(
        archive_symbols(&ar),
        Some(vec!["a".to_string(), "b".to_string(), String::new()])
    );
}

#[test]
fn a_symbol_name_that_is_not_utf8_is_read_lossily() {
    let mut ar = gnu_archive(&["xa"]);
    let at = ar.len() - 3;
    ar[at] = 0xff;
    assert_eq!(archive_symbols(&ar), Some(vec!["\u{fffd}a".to_string()]));
}

#[test]
fn exports_accepts_the_exact_name_or_a_leading_underscore() {
    let symbols = vec!["calc_add".to_string(), "_calc_mul".to_string()];
    assert!(exports(&symbols, "calc_add"));
    assert!(exports(&symbols, "calc_mul"));
    assert!(!exports(&symbols, "calc_sub"));
    assert!(!exports(&symbols, "_calc_add"));
}

const SUB: Builtin = Builtin {
    name: "sub",
    symbol: "calc_sub",
    arity: 2,
    kind: BindingKind::Ffi {
        library: "calc_ffi",
        link_deps: &[],
    },
};

fn unit(library: Option<&'static str>, path: &str) -> LinkUnit {
    LinkUnit {
        library,
        path: path.to_string(),
        deps: Vec::new(),
    }
}

fn table(names: &[&str]) -> UnitTable {
    Ok(archive_symbols(&gnu_archive(names)))
}

#[test]
fn pre_link_check_reports_a_missing_symbol_by_builtin() {
    let units = [unit(None, "rt.a"), unit(Some("calc_ffi"), "ffi.a")];
    let tables = [table(&["calc_add"]), table(&["calc_other"])];
    let err = check_symbols(&[SUB], &units, &tables).unwrap_err();
    assert!(
        err.contains("built-in `sub` needs symbol `calc_sub` from library `calc_ffi`"),
        "{err}"
    );
    assert_eq!(
        err,
        "built-in `sub` needs symbol `calc_sub` from library `calc_ffi` (ffi.a), but it isn't exported there"
    );
}

#[test]
fn pre_link_check_reports_a_symbol_exported_twice() {
    let units = [unit(None, "rt.a"), unit(Some("calc_ffi"), "ffi.a")];
    let tables = [table(&["calc_sub"]), table(&["calc_sub"])];
    let err = check_symbols(&[SUB], &units, &tables).unwrap_err();
    assert!(
        err.contains("is also exported by the calc-runtime archive"),
        "{err}"
    );
}

#[test]
fn pre_link_check_reports_a_missing_link_unit() {
    let units = [unit(Some("calc_ffi"), "no/such/calc_ffi.lib")];
    let tables: [UnitTable; 1] = [Err("No such file or directory (os error 2)".to_string())];
    let err = check_symbols(&[SUB], &units, &tables).unwrap_err();
    assert!(err.contains("library `calc_ffi` not found at"), "{err}");
    assert_eq!(
        err,
        "library `calc_ffi` not found at no/such/calc_ffi.lib: No such file or directory (os error 2)"
    );
}

#[test]
fn pre_link_check_passes_consistent_units_and_skips_unreadable_ones() {
    let units = [unit(None, "rt.a"), unit(Some("calc_ffi"), "ffi.a")];
    let tables = [table(&["calc_add", "calc_mul", "calc_print"]), table(&["calc_sub"])];
    assert_eq!(check_symbols(builtins(), &units, &tables), Ok(()));
    let unreadable: [UnitTable; 2] = [Ok(None), Ok(None)];
    assert_eq!(check_symbols(builtins(), &units, &unreadable), Ok(()));
}

#[test]
fn pre_link_check_lists_every_problem_one_per_line() {
    let units = [unit(None, "rt.a"), unit(Some("calc_ffi"), "ffi.a")];
    let tables = [table(&["calc_sub"]), table(&[])];
    let err = check_symbols(builtins(), &units, &tables).unwrap_err();
    let lines: Vec<&str> = err.lines().collect();
    assert_eq!(lines.len(), 5, "{err}");
    assert!(lines[0].starts_with("built-in `add` needs symbol `calc_add`"));
    assert!(lines[2].starts_with("symbol `calc_sub` (built-in `sub`) is also exported by the calc-runtime archive"));
    assert!(lines[3].starts_with("built-in `sub` needs symbol `calc_sub` from library `calc_ffi`"));
}

#[test]
fn link_args_follow_the_documented_order() {
    let units = [
        LinkUnit {
            library: None,
            path: "rt.a".to_string(),
            deps: vec!["-lc".into()],
        },
        LinkUnit {
            library: Some("calc_ffi"),
            path: "ffi.a".to_string(),
            deps: vec!["-lm".into()],
        },
    ];
    assert_eq!(
        link_args(
            LinkFlavor::Unix,
            &["p.o".to_string(), "p.bundles.o".to_string()],
            &units,
            "p"
        ),
        [
            "p.o",
            "p.bundles.o",
            "rt.a",
            "ffi.a",
            "-lc",
            "-lm",
            "-o",
            "p"
        ]
    );
}

#[test]
fn msvc_linker_options_go_after_slash_link() {
    let units = [LinkUnit {
        library: None,
        path: "rt.lib".to_string(),
        deps: vec!["ws2_32.lib".into(), "/defaultlib:libcmt".into()],
    }];
    assert_eq!(
        link_args(LinkFlavor::Msvc, &["p.obj".to_string()], &units, "p.exe"),
        [
            "p.obj",
            "rt.lib",
            "ws2_32.lib",
            "/nologo",
            "/Fe:p.exe",
            "/link",
            "/defaultlib:libcmt"
        ]
    );
}

#[test]
fn msvc_without_linker_options_has_no_slash_link() {
    let units = [unit(None, "rt.lib")];
    assert_eq!(
        link_args(LinkFlavor::Msvc, &["p.obj".to_string()], &units, "p.exe"),
        ["p.obj", "rt.lib", "/nologo", "/Fe:p.exe"]
    );
}

#[test]
fn ffi_link_deps_are_filtered_by_platform() {
    let deps = [
        LinkDep {
            name: "m",
            only_on: Some("unix"),
        },
        LinkDep {
            name: "ws2_32",
            only_on: Some("windows"),
        },
    ];
    let family = target_family("x86_64-unknown-linux-gnu").unwrap();
    let kept: Vec<_> = deps
        .iter()
        .filter(|d| d.applies_to(family))
        .map(|d| LinkFlavor::Unix.library_arg(d.name))
        .collect();
    assert_eq!(kept, ["-lm"]);
    assert_eq!(target_family("x86_64-pc-windows-msvc"), Some("windows"));
}

#[test]
fn an_unparsable_triple_has_no_family() {
    assert_eq!(target_family("not a triple"), None);
}

#[test]
fn link_units_are_the_runtime_then_each_ffi_library_once() {
    let units = link_units(
        LinkFlavor::Unix,
        "unix",
        "/rt/libcalc_runtime.a",
        vec!["-lc".to_string()],
        "/units",
    );
    assert_eq!(units.len(), 2);
    assert_eq!(units[0].library, None);
    assert_eq!(units[0].path, "/rt/libcalc_runtime.a");
    assert_eq!(units[0].deps, ["-lc"]);
    assert_eq!(units[1].library, Some("calc_ffi"));
    assert_eq!(units[1].path, "/units/libcalc_ffi.a");
    assert!(units[1].deps.is_empty());
    let msvc = link_units(LinkFlavor::Msvc, "windows", "rt.lib", vec![], "units/");
    assert_eq!(msvc[1].path, "units/calc_ffi.lib");
}

#[test]
fn flavors_name_libraries_their_own_way() {
    assert_eq!(LinkFlavor::Unix.archive_file_name("calc_ffi"), "libcalc_ffi.a");
    assert_eq!(LinkFlavor::Msvc.archive_file_name("calc_ffi"), "calc_ffi.lib");
    assert_eq!(LinkFlavor::Unix.library_arg("m"), "-lm");
    assert_eq!(LinkFlavor::Msvc.library_arg("ws2_32"), "ws2_32.lib");
    assert_eq!(object_extension(LinkFlavor::Unix), "o");
    assert_eq!(object_extension(LinkFlavor::Msvc), "obj");
}

#[test]
fn units_describe_themselves() {
    assert_eq!(unit(None, "x").describe(), "the calc-runtime archive");
    assert_eq!(unit(Some("calc_ffi"), "x").describe(), "library `calc_ffi`");
    assert_eq!(owning_library(&SUB), Some("calc_ffi"));
    assert_eq!(owning_library(&builtins()[0]), None);
}

#[test]
fn the_command_line_quotes_words_with_spaces() {
    assert_eq!(
        command_line("cc", &["a b.o".to_string(), "-o".to_string(), "p".to_string()]),
        "cc \"a b.o\" -o p"
    );
}

#[test]
fn only_msvc_gnu_and_clang_toolchains_are_supported() {
    assert_eq!(link_flavor(true, false, false, "cl.exe"), Ok(LinkFlavor::Msvc));
    assert_eq!(link_flavor(false, true, false, "cc"), Ok(LinkFlavor::Unix));
    assert_eq!(link_flavor(false, false, true, "clang"), Ok(LinkFlavor::Unix));
    let err = link_flavor(false, false, false, "/opt/tcc").unwrap_err();
    assert!(err.starts_with("unsupported toolchain `/opt/tcc`"), "{err}");
}

#[test]
fn paths_join_with_one_slash() {
    assert_eq!(join_path("dir", "f"), "dir/f");
    assert_eq!(join_path("dir/", "f"), "dir/f");
    assert_eq!(join_path("", "f"), "f");
}

#[test]
fn the_bundle_symbols_hold_the_blob_and_its_length() {
    let symbols = bundle_symbols(b"xyz");
    assert_eq!(symbols[0], (b"calc_ipc_bundles".to_vec(), b"xyz".to_vec(), 1));
    assert_eq!(
        symbols[1],
        (b"calc_ipc_bundles_len".to_vec(), 3u64.to_le_bytes().to_vec(), 8)
    );
    assert_eq!(bundle_symbols(b"")[0].1, vec![0u8]);
}

#[test]
fn the_bundle_object_defines_the_table_symbols() {
    let blob = calc_lang::bundle_format::pack(&[]);
    let bytes = bundle_object("x86_64-unknown-linux-gnu", &blob).unwrap();
    let file = object::File::parse(&*bytes).expect("a valid object file");
    let names: Vec<String> = file
        .symbols()
        .filter(|s| s.is_global() && s.is_definition())
        .map(|s| s.name().unwrap().trim_start_matches('_').to_string())
        .collect();
    assert!(names.contains(&"calc_ipc_bundles".to_string()), "{names:?}");
    assert!(
        names.contains(&"calc_ipc_bundles_len".to_string()),
        "{names:?}"
    );
}

#[test]
fn no_bundle_object_for_an_unknown_target() {
    assert_eq!(
        bundle_object("wasm32-unknown-unknown", &[]),
        Err("no object format for wasm".to_string())
    );
    assert_eq!(
        bundle_object("riscv64gc-unknown-linux-gnu", &[]),
        Err("no object architecture for riscv64gc".to_string())
    );
    assert!(bundle_object("nonsense", &[]).is_err());
}

#[test]
fn msvc_executables_without_an_extension_get_exe() {
    assert!(needs_exe_extension(LinkFlavor::Msvc, false));
    assert!(!needs_exe_extension(LinkFlavor::Msvc, true));
    assert!(!needs_exe_extension(LinkFlavor::Unix, false));
}

#[test]
fn a_failed_link_reports_status_command_and_output() {
    assert_eq!(
        linker_failure("exit status: 1", "cc a.o -o a", "out\n", "undefined symbol"),
        "linker exited with exit status: 1\ncommand: cc a.o -o a\nout\nundefined symbol"
    );
}

#[test]
fn pre_link_problems_end_without_trailing_whitespace() {
    let units = [unit(Some("calc_ffi"), "gone.lib")];
    let tables: [UnitTable; 1] = [Err("not there \n".to_string())];
    let err = check_symbols(&[SUB], &units, &tables).unwrap_err();
    assert_eq!(err, "library `calc_ffi` not found at gone.lib: not there");
}
