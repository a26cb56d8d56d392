use calc_lang::builtins::{lookup, BindingKind, Builtin, IpcCommand};
use calc_lang::bundle_format::{pack, parse, BundleFile};
use calc_lang::pipeline::compile_front;
use calc_lang::runtime_deps::{
    after_lookup, missing_program, notes_for, plan_check, probe_verdict, sort_bundle_files,
    used_builtins, CheckStep, ProbeOutcome,
};

fn used(src: &str) -> Vec<&'static str> {
    let program = compile_front(src).ok().expect("should compile");
    used_builtins(&program).iter().map(|b| b.name).collect()
}

#[test]
fn a_program_without_ipc_builtins_needs_nothing_at_run_time() {
    let program = compile_front("1 + 2 * 3 - 4").ok().unwrap();
    let builtins = used_builtins(&program);
    assert!(builtins
        .iter()
        .all(|b| !matches!(b.kind, BindingKind::Ipc { .. })));
    for b in &builtins {
        assert!(notes_for(b, "unix", None).is_empty());
    }
    assert_eq!(parse(&pack(&[])), Some(Vec::new()));
}

#[test]
fn builtins_are_found_once_each_in_first_use_order() {
    assert_eq!(used("(1 + 2) * 3 - 4 / 5 + 6"), ["add", "mul", "sub"]);
    assert_eq!(
        used("{ if 1 { print(1); 2 } else { print(3); 4 } }"),
        ["print"]
    );
    assert_eq!(used("4 / 2"), Vec::<&str>::new());
    assert_eq!(used("if 1 - 1 { 2 * 2 } else { 3 + 3 }"), ["sub", "mul", "add"]);
}

#[test]
fn a_program_calling_print_reports_what_it_needs() {
    let print = lookup("print").unwrap();
    let notes = notes_for(print, "unix", Some((2, 517)));
    assert_eq!(notes.len(), 2);
    assert_eq!(notes[0], "`python3` on PATH (built-in `print`)");
    assert!(notes[1].contains("bundle `print`"), "{notes:?}");
    assert!(notes[1].contains("first run: 2 files, 517 bytes"), "{notes:?}");
    assert_eq!(
        notes_for(print, "windows", None)[0],
        "`python` on PATH (built-in `print`)"
    );
}

fn fake(
    program: &'static str,
    probe: Option<&'static [&'static str]>,
    bundle: Option<&'static str>,
) -> Builtin {
    let commands: &'static [IpcCommand] = Box::leak(Box::new([IpcCommand {
        program,
        args: &[],
        env: &[],
        probe,
        only_on: None,
    }]));
    Builtin {
        name: "fake",
        symbol: "calc_fake",
        arity: 1,
        kind: BindingKind::Ipc { commands, bundle },
    }
}

#[test]
fn a_command_that_doesnt_run_fails_the_build() {
    let builtin = fake("calc-no-such-interpreter", Some(&["--version"]), None);
    let check = plan_check(&builtin, "unix", None).ok().unwrap();
    let (_, shown) = check.probe.unwrap();
    let err = probe_verdict(
        &builtin,
        check.command.program,
        &shown,
        &ProbeOutcome::NotStarted("No such file or directory (os error 2)".to_string()),
    )
    .unwrap_err();
    assert!(
        err.starts_with(
            "built-in `fake` needs `calc-no-such-interpreter` at run time, but \
             `calc-no-such-interpreter --version` failed"
        ),
        "{err}"
    );
}

#[test]
fn a_program_inside_the_bundle_must_exist_there() {
    let missing = fake("{bundle}/missing", None, Some("print"));
    let check = plan_check(&missing, "unix", Some("/b/print")).ok().unwrap();
    assert!(check.must_exist);
    assert_eq!(check.resolved.program, "/b/print/missing");
    let err = missing_program(&missing, &check.resolved.program);
    assert!(err.contains("which isn't in its bundle"), "{err}");
}

#[test]
fn a_program_inside_the_bundle_is_probed_too() {
    let builtin = fake("{bundle}/__main__.py", Some(&["--version"]), Some("print"));
    let check = plan_check(&builtin, "unix", Some("/b/print")).ok().unwrap();
    assert!(check.must_exist);
    let (args, shown) = check.probe.unwrap();
    assert_eq!(args, ["--version"]);
    assert_eq!(shown, "{bundle}/__main__.py --version");
    let err = probe_verdict(
        &builtin,
        check.command.program,
        &shown,
        &ProbeOutcome::Exited {
            status: "exit status: 126".to_string(),
            stderr: "permission denied".to_string(),
        },
    )
    .unwrap_err();
    assert!(err.contains("failed on this machine"), "{err}");
    assert!(err.contains("(it exited with exit status: 126: permission denied)"), "{err}");
}

#[test]
fn referring_to_a_bundle_the_builtin_doesnt_declare_fails_the_build() {
    let err = plan_check(&fake("{bundle}/helper", None, None), "unix", None)
        .err()
        .unwrap();
    assert!(
        err.contains("refers to {bundle}, but the built-in declares no bundle"),
        "{err}"
    );
}

#[test]
fn a_bundle_nothing_refers_to_fails_the_build() {
    let err = plan_check(&fake("python3", None, Some("print")), "unix", Some("/b/print"))
        .err()
        .unwrap();
    assert!(
        err.contains("declares bundle `print`, but its unix command never refers to {bundle}"),
        "{err}"
    );
}

#[test]
fn a_successful_probe_passes_and_a_builtin_without_command_fails() {
    let print = lookup("print").unwrap();
    let check = plan_check(print, "unix", Some("/b/print")).ok().unwrap();
    assert!(!check.must_exist);
    assert_eq!(check.resolved.args, ["/b/print"]);
    let (_, shown) = check.probe.unwrap();
    assert_eq!(shown, "python3 --version");
    assert_eq!(
        probe_verdict(print, "python3", &shown, &ProbeOutcome::Succeeded),
        Ok(())
    );
    let add = lookup("add").unwrap();
    assert_eq!(
        plan_check(add, "unix", None).err().unwrap(),
        "built-in `add` declares no unix command"
    );
}

#[test]
fn bundle_files_are_sorted_by_path() {
    let file = |p: &str| BundleFile {
        path: p.to_string(),
        mode: 0o644,
        bytes: p.as_bytes().to_vec(),
    };
    let sorted = sort_bundle_files(vec![file("pkg/z"), file("b"), file("a/c"), file("a"), file("pkg")]);
    let paths: Vec<&str> = sorted.iter().map(|f| f.path.as_str()).collect();
    assert_eq!(paths, ["a", "a/c", "b", "pkg", "pkg/z"]);
    assert_eq!(sorted[2].bytes, b"b");
}

#[test]
fn a_missing_bundled_program_fails_before_any_probe() {
    let builtin = fake("{bundle}/__main__.py", Some(&["--version"]), Some("print"));
    let check = plan_check(&builtin, "unix", Some("/b/print")).ok().unwrap();
    match after_lookup(&builtin, &check, false) {
        CheckStep::Fail(msg) => assert_eq!(
            msg,
            "built-in `fake` runs `/b/print/__main__.py`, which isn't in its bundle"
        ),
        _ => panic!("a missing program should fail the check"),
    }
    assert!(matches!(after_lookup(&builtin, &check, true), CheckStep::Probe));
}

#[test]
fn a_command_without_a_probe_passes_once_its_program_is_there() {
    let builtin = fake("python3", None, None);
    let check = plan_check(&builtin, "unix", None).ok().unwrap();
    assert!(!check.must_exist);
    assert!(matches!(after_lookup(&builtin, &check, false), CheckStep::Pass));
}

#[test]
fn files_with_the_same_path_keep_their_order() {
    let file = |p: &str, b: u8| BundleFile {
        path: p.to_string(),
        mode: 0o644,
        bytes: vec![b],
    };
    let sorted = sort_bundle_files(vec![file("b", 1), file("a", 2), file("b", 3), file("a", 4), file("b", 5)]);
    let order: Vec<u8> = sorted.iter().map(|f| f.bytes[0]).collect();
    assert_eq!(order, [2, 4, 1, 3, 5]);
}
