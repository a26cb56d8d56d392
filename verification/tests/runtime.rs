use calc_lang::bundle_format::{pack, parse, BundleFile};
use calc_lang::runtime::{
    cache_root, embedded_bundle, ipc_target, staging_dir_name, unpacked_dir_name, BundleSource,
};

fn demo_blob() -> Vec<u8> {
    pack(&[
        (
            "demo",
            vec![BundleFile {
                path: "__main__.py".into(),
                mode: 0o644,
                bytes: b"print(1)".to_vec(),
            }],
        ),
        ("other", vec![]),
    ])
}

#[test]
fn unpacks_into_a_content_named_directory() {
    let bundle = &parse(&demo_blob()).unwrap()[0];
    assert_eq!(
        unpacked_dir_name(bundle),
        format!("demo-{:016x}", bundle.hash)
    );
    assert_eq!(
        staging_dir_name(bundle, 4242),
        format!(".demo-{:016x}.4242", bundle.hash)
    );
}

#[test]
fn an_embedded_bundle_is_found_by_name() {
    let blob = demo_blob();
    let found = embedded_bundle(&blob, "other").ok().unwrap();
    assert_eq!(found.name, "other");
    assert!(found.files.is_empty());
    assert_eq!(
        embedded_bundle(&blob, "print").err().unwrap(),
        "calc-runtime: bundle `print` isn't embedded"
    );
    assert_eq!(
        embedded_bundle(b"garbage", "print").err().unwrap(),
        "calc-runtime: the embedded IPC bundle table is malformed"
    );
}

#[test]
fn a_rust_consumer_embeds_no_bundles() {
    assert_eq!(parse(&[]), Some(Vec::new()));
    assert!(embedded_bundle(&[], "print").is_err());
}

#[test]
fn the_shim_runs_the_command_for_this_platform() {
    let (command, bundle) = ipc_target("print", "unix").ok().unwrap();
    assert_eq!(command.program, "python3");
    assert_eq!(bundle, Some("print"));
    assert_eq!(
        ipc_target("nope", "unix").err().unwrap(),
        "calc-runtime: no built-in `nope` in the manifest"
    );
    assert_eq!(
        ipc_target("add", "unix").err().unwrap(),
        "calc-runtime: `add` is not an IPC built-in"
    );
    assert_eq!(
        ipc_target("print", "plan9").err().unwrap(),
        "calc-runtime: the manifest declares no plan9 command for `print`"
    );
}

#[test]
fn the_cache_root_prefers_the_override_then_the_platform_directory() {
    let s = |x: &str| Some(x.to_string());
    assert_eq!(cache_root(s("/o"), false, None, s("/x"), s("/h")), s("/o"));
    assert_eq!(cache_root(None, true, s("C:/L"), s("/x"), s("/h")), s("C:/L"));
    assert_eq!(cache_root(None, true, None, s("/x"), s("/h")), None);
    assert_eq!(cache_root(None, false, s("C:/L"), s("/x"), s("/h")), s("/x"));
    assert_eq!(cache_root(None, false, None, None, s("/home/u")), s("/home/u/.cache"));
    assert_eq!(cache_root(None, false, None, None, None), None);
}

#[test]
fn bundle_sources_are_distinct() {
    assert_ne!(BundleSource::Embedded, BundleSource::Source);
}
