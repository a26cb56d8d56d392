use calc_lang::builtins::{
    builtins, lookup, target_families, BindingKind, Builtin, IpcCommand, LinkDep,
    ResolvedCommand, RuntimeRequirement,
};

#[test]
fn lib_lookup_finds_declared_builtins_only() {
    assert_eq!(lookup("add").map(|b| b.symbol), Some("calc_add"));
    assert!(lookup("nope").is_none());
}

#[test]
fn names_and_symbols_are_unique() {
    let all = builtins();
    for (i, a) in all.iter().enumerate() {
        for b in &all[i + 1..] {
            assert_ne!(a.name, b.name);
            assert_ne!(a.symbol, b.symbol);
        }
    }
}

#[test]
fn every_ipc_builtin_has_exactly_one_command_per_platform() {
    for builtin in builtins() {
        let BindingKind::Ipc { commands, .. } = builtin.kind else {
            continue;
        };
        for family in target_families() {
            let matching = commands
                .iter()
                .filter(|c| c.only_on.is_none_or(|f| f == *family))
                .count();
            assert_eq!(matching, 1, "`{}` on {family}", builtin.name);
        }
    }
}

#[test]
fn every_ipc_command_uses_its_bundle_iff_it_has_one() {
    for builtin in builtins() {
        let BindingKind::Ipc { commands, bundle } = builtin.kind else {
            continue;
        };
        for command in commands {
            assert_eq!(
                command.uses_bundle(),
                bundle.is_some(),
                "`{}`: {command:?}",
                builtin.name
            );
        }
    }
}

#[test]
fn uses_bundle_looks_at_program_args_and_env_but_runs_from_bundle_only_at_program() {
    let plain = IpcCommand {
        program: "node",
        args: &["script.js"],
        env: &[],
        probe: None,
        only_on: None,
    };
    assert!(!plain.uses_bundle());
    let in_args = IpcCommand {
        args: &["{bundle}/index.js"],
        ..plain
    };
    assert!(in_args.uses_bundle() && !in_args.runs_from_bundle());
    let in_env = IpcCommand {
        env: &[("NODE_PATH", "{bundle}/node_modules")],
        ..plain
    };
    assert!(in_env.uses_bundle() && !in_env.runs_from_bundle());
    let in_program = IpcCommand {
        program: "{bundle}/helper",
        ..plain
    };
    assert!(in_program.uses_bundle() && in_program.runs_from_bundle());
}

#[test]
fn runtime_requirements_name_exactly_what_will_run() {
    assert!(lookup("add")
        .unwrap()
        .runtime_requirements("unix")
        .is_empty());
    assert!(lookup("sub")
        .unwrap()
        .runtime_requirements("windows")
        .is_empty());
    let print = lookup("print").unwrap();
    assert_eq!(
        print.runtime_requirements("unix"),
        [
            RuntimeRequirement::CommandOnPath("python3"),
            RuntimeRequirement::BundleCache("print")
        ]
    );
    assert_eq!(
        print.runtime_requirements("windows")[0],
        RuntimeRequirement::CommandOnPath("python")
    );
}

#[test]
fn a_program_inside_the_bundle_is_not_a_path_requirement() {
    const HELPER: Builtin = Builtin {
        name: "helper",
        symbol: "calc_helper",
        arity: 1,
        kind: BindingKind::Ipc {
            commands: &[IpcCommand {
                program: "{bundle}/helper",
                args: &[],
                env: &[],
                probe: None,
                only_on: None,
            }],
            bundle: Some("helper"),
        },
    };
    assert_eq!(
        HELPER.runtime_requirements("unix"),
        [RuntimeRequirement::BundleCache("helper")]
    );
}

#[test]
fn resolve_fills_the_bundle_directory_into_program_args_and_env() {
    let command = IpcCommand {
        program: "{bundle}/bin/node",
        args: &["{bundle}/index.js", "--flag"],
        env: &[("NODE_PATH", "{bundle}/node_modules")],
        probe: None,
        only_on: None,
    };
    assert_eq!(
        command.resolve("/cache/b"),
        ResolvedCommand {
            program: "/cache/b/bin/node".into(),
            args: vec!["/cache/b/index.js".into(), "--flag".into()],
            env: vec![("NODE_PATH".into(), "/cache/b/node_modules".into())],
        }
    );
}

#[test]
fn link_deps_filter_by_target_family() {
    let everywhere = LinkDep {
        name: "m",
        only_on: None,
    };
    let windows_only = LinkDep {
        name: "ws2_32",
        only_on: Some("windows"),
    };
    assert!(everywhere.applies_to("unix"));
    assert!(everywhere.applies_to("windows"));
    assert!(windows_only.applies_to("windows"));
    assert!(!windows_only.applies_to("unix"));
}

#[test]
fn the_command_for_a_platform_is_the_one_that_applies_there() {
    let print = lookup("print").unwrap();
    assert_eq!(print.ipc_command("unix").unwrap().program, "python3");
    assert_eq!(print.ipc_command("windows").unwrap().program, "python");
    assert!(lookup("add").unwrap().ipc_command("unix").is_none());
}

#[test]
fn requirements_read_as_sentences() {
    assert_eq!(
        RuntimeRequirement::CommandOnPath("python3").to_string(),
        "`python3` on PATH"
    );
    assert_eq!(
        RuntimeRequirement::BundleCache("print").to_string(),
        "a writable per-user cache directory (or CALC_BUNDLE_CACHE) to unpack bundle `print` into on first run"
    );
}

#[test]
fn resolve_fills_every_occurrence_and_leaves_other_text() {
    let command = IpcCommand {
        program: "run",
        args: &["{bundle}:{bundle}", "{bund"],
        env: &[],
        probe: None,
        only_on: None,
    };
    let resolved = command.resolve("D");
    assert_eq!(resolved.program, "run");
    assert_eq!(resolved.args, vec!["D:D".to_string(), "{bund".to_string()]);
}

#[test]
fn the_manifest_declares_unix_and_windows() {
    assert_eq!(target_families(), ["unix", "windows"]);
}
