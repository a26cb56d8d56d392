use calc_lang::artifacts::runtime_link_deps;

#[test]
fn runtime_link_deps_are_reported() {
    let deps = runtime_link_deps("-lgcc_s -lutil -lrt -lpthread -lm -ldl -lc");
    assert!(!deps.is_empty());
    assert_eq!(deps[0], "-lgcc_s");
    assert_eq!(deps.len(), 7);
}

#[test]
fn link_deps_split_at_any_whitespace() {
    assert_eq!(
        runtime_link_deps("  ws2_32.lib\t/defaultlib:libcmt\n\u{a0}x "),
        ["ws2_32.lib", "/defaultlib:libcmt", "x"]
    );
    assert!(runtime_link_deps("").is_empty());
    assert!(runtime_link_deps(" \n ").is_empty());
}
