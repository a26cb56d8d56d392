use calc_lang::backend::{join_strs, select_from};

#[test]
fn a_sole_backend_is_the_implicit_default() {
    let names = ["cranelift"];
    let picked = select_from(&names, None).unwrap();
    assert_eq!(names[picked], "cranelift");
}

#[test]
fn several_backends_need_an_explicit_choice() {
    let names = ["cranelift", "llvm"];
    let err = select_from(&names, None).err().unwrap();
    assert!(err.0.contains("cranelift|llvm"), "{}", err.0);
    assert_eq!(names[select_from(&names, Some("llvm")).unwrap()], "llvm");
}

#[test]
fn a_known_but_disabled_backend_says_how_to_enable_it() {
    let err = select_from(&["cranelift"], Some("llvm")).err().unwrap();
    assert!(err.0.contains("--features backend-llvm"), "{}", err.0);
}

#[test]
fn an_unknown_backend_lists_whats_enabled() {
    let err = select_from(&["cranelift"], Some("wasm")).err().unwrap();
    assert!(err.0.contains("unknown backend `wasm`"), "{}", err.0);
    assert!(err.0.contains("enabled: cranelift"), "{}", err.0);
}

#[test]
fn the_messages_are_exact() {
    assert_eq!(
        select_from(&["cranelift"], Some("llvm")).err().unwrap().0,
        "this build has no llvm backend; rebuild with `--features backend-llvm` (enabled: cranelift)"
    );
    assert_eq!(
        select_from(&[], None).err().unwrap().0,
        "several backends are enabled; pick one with --backend=<>"
    );
    assert_eq!(join_strs(&["a", "b", "c"], ", "), "a, b, c");
    assert_eq!(join_strs(&[], ", "), "");
}
