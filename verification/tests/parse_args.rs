use rustcache::args::{arg_in, args_with_value, split_args};
use rustcache::parse::parse_arguments;
use rustcache::{CannotCacheReason, CompilerArguments, ParsedArguments};

fn to_vec(args: &[&str]) -> Vec<String> {
    args.iter().map(|s| s.to_string()).collect()
}

fn parse_ok(args: &[&str]) -> ParsedArguments {
    match parse_arguments(&to_vec(args)) {
        CompilerArguments::Cacheable(p) => p,
        CompilerArguments::NotCompilation => panic!("unexpected NotCompilation"),
        CompilerArguments::CannotCache(why) => panic!("unexpected CannotCache: {:?}", why),
    }
}

fn parse_fails(args: &[&str]) {
    match parse_arguments(&to_vec(args)) {
        CompilerArguments::Cacheable(_) => panic!("should not have parsed ok: {:?}", args),
        _ => {}
    }
}

fn parse_reason(args: &[&str]) -> CannotCacheReason {
    match parse_arguments(&to_vec(args)) {
        CompilerArguments::CannotCache(why) => why,
        other => panic!("expected CannotCache, got {:?}", other),
    }
}

#[test]
fn test_parse_arguments_simple() {
    let h = parse_ok(&["--emit", "link", "foo.rs", "--out-dir", "out", "--crate-name", "foo"]);
    assert_eq!(h.output_dir, "out");
    assert!(h.dep_info.is_none());
    assert!(h.externs.is_empty());
    let h = parse_ok(&["--emit=link", "foo.rs", "--out-dir", "out", "--crate-name=foo"]);
    assert_eq!(h.output_dir, "out");
    assert!(h.dep_info.is_none());
    let h = parse_ok(&["--emit", "link", "foo.rs", "--out-dir=out", "--crate-name=foo"]);
    assert_eq!(h.output_dir, "out");
    let h = parse_ok(&[
        "--emit",
        "link,dep-info",
        "foo.rs",
        "--out-dir",
        "out",
        "--crate-name",
        "my_crate",
        "-C",
        "extra-filename=-abcxyz",
    ]);
    assert_eq!(h.output_dir, "out");
    assert_eq!(h.dep_info, Some("my_crate-abcxyz.d".to_string()));
    parse_fails(&["--emit", "link", "--out-dir", "out", "--crate-name=foo"]);
    parse_fails(&["--emit", "link", "foo.rs", "--crate-name=foo"]);
    parse_fails(&["--emit", "asm", "foo.rs", "--out-dir", "out", "--crate-name=foo"]);
    parse_fails(&["--emit", "asm,link", "foo.rs", "--out-dir", "out", "--crate-name=foo"]);
    parse_fails(&["--emit", "asm,link,dep-info", "foo.rs", "--out-dir", "out", "--crate-name=foo"]);
    parse_fails(&["--emit", "link", "foo.rs", "--out-dir", "out"]);
    let h = parse_ok(&[
        "--crate-name",
        "foo",
        "src/lib.rs",
        "--crate-type",
        "lib",
        "--emit=dep-info,link",
        "-C",
        "debuginfo=2",
        "-C",
        "metadata=d6ae26f5bcfb7733",
        "-C",
        "extra-filename=-d6ae26f5bcfb7733",
        "--out-dir",
        "/foo/target/debug/deps",
        "-L",
        "dependency=/foo/target/debug/deps",
        "--extern",
        "libc=/foo/target/debug/deps/liblibc-89a24418d48d484a.rlib",
        "--extern",
        "log=/foo/target/debug/deps/liblog-2f7366be74992849.rlib",
    ]);
    assert_eq!(h.output_dir, "/foo/target/debug/deps");
    assert_eq!(h.crate_name, "foo");
    assert_eq!(h.dep_info, Some("foo-d6ae26f5bcfb7733.d".to_string()));
    assert_eq!(
        h.externs,
        vec![
            "/foo/target/debug/deps/liblibc-89a24418d48d484a.rlib".to_string(),
            "/foo/target/debug/deps/liblog-2f7366be74992849.rlib".to_string(),
        ]
    );
}

#[test]
fn test_parse_arguments_dep_info_no_extra_filename() {
    let h = parse_ok(&["--crate-name", "foo", "src/lib.rs", "--emit=dep-info,link", "--out-dir", "/out"]);
    assert_eq!(h.dep_info, Some("foo.d".to_string()));
}

#[test]
fn test_parse_arguments_native_libs() {
    parse_fails(&["--emit", "link", "-l", "bar", "foo.rs", "--out-dir", "out"]);
}

#[test]
fn test_parse_arguments_non_rlib_crate() {
    parse_ok(&["--crate-type", "rlib", "--emit", "link", "foo.rs", "--out-dir", "out", "--crate-name", "foo"]);
    parse_ok(&["--crate-type", "lib", "--emit", "link", "foo.rs", "--out-dir", "out", "--crate-name", "foo"]);
    parse_ok(&["--crate-type", "staticlib", "--emit", "link", "foo.rs", "--out-dir", "out", "--crate-name", "foo"]);
    parse_ok(&["--crate-type", "rlib,staticlib", "--emit", "link", "foo.rs", "--out-dir", "out", "--crate-name", "foo"]);
    parse_fails(&["--crate-type", "bin", "--emit", "link", "foo.rs", "--out-dir", "out", "--crate-name", "foo"]);
    parse_fails(&["--crate-type", "rlib,dylib", "--emit", "link", "foo.rs", "--out-dir", "out", "--crate-name", "foo"]);
}

#[test]
fn test_args_iter() {
    let set = args_with_value();
    let pairs = split_args(&to_vec(&["--emit", "link", "-g", "foo.rs", "--out-dir", "out"]), &set);
    assert_eq!(
        pairs,
        vec![
            ("--emit".to_string(), Some("link".to_string())),
            ("-g".to_string(), None),
            ("foo.rs".to_string(), None),
            ("--out-dir".to_string(), Some("out".to_string())),
        ]
    );
    let pairs = split_args(&to_vec(&["--emit=link", "-g", "foo.rs", "--out-dir=out"]), &set);
    assert_eq!(
        pairs,
        vec![
            ("--emit".to_string(), Some("link".to_string())),
            ("-g".to_string(), None),
            ("foo.rs".to_string(), None),
            ("--out-dir".to_string(), Some("out".to_string())),
        ]
    );
}

#[test]
fn test_arg_in() {
    let args = to_vec(&["--foo", "--bar", "--baz"]);
    assert!(arg_in("--foo", &args));
    assert!(arg_in("--foo=abc", &args));
    assert!(arg_in("--bar", &args));
    assert!(arg_in("--baz", &args));
    assert!(!arg_in("--xyz", &args));
    assert!(!arg_in("--xyz=123", &args));
}

#[test]
fn attached_and_detached_forms_agree() {
    let h1 = parse_ok(&["--emit", "link", "foo.rs", "--out-dir", "out", "--crate-name", "foo"]);
    let h2 = parse_ok(&["--emit=link", "foo.rs", "--out-dir=out", "--crate-name=foo"]);
    assert_eq!(h1.arguments, h2.arguments);
    assert_eq!(h1.output_dir, h2.output_dir);
    assert_eq!(h1.externs, h2.externs);
    assert_eq!(h1.crate_name, h2.crate_name);
    assert_eq!(h1.dep_info, h2.dep_info);
}

#[test]
fn each_reason_has_its_input() {
    let r = parse_reason(&["--emit", "link", "-o", "x", "foo.rs", "--out-dir", "out", "--crate-name", "foo"]);
    assert_eq!(r, CannotCacheReason::OutputToFile);
    assert_eq!(r.text(), "-o");
    let r = parse_reason(&["--emit", "link", "-l", "bar", "foo.rs", "--out-dir", "out", "--crate-name", "foo"]);
    assert_eq!(r, CannotCacheReason::NativeLibrary);
    assert_eq!(r.text(), "-l");
    let r = parse_reason(&["-", "--emit", "link", "--out-dir", "out", "--crate-name", "foo"]);
    assert_eq!(r, CannotCacheReason::Stdin);
    assert_eq!(r.text(), "stdin");
    let r = parse_reason(&["--emit", "link", "--emit", "link", "foo.rs", "--out-dir", "out", "--crate-name", "foo"]);
    assert_eq!(r, CannotCacheReason::MultipleEmit);
    assert_eq!(r.text(), "more than one --emit");
    let r = parse_reason(&["--crate-type", "bin", "--emit", "link", "foo.rs", "--out-dir", "out", "--crate-name", "foo"]);
    assert_eq!(r, CannotCacheReason::CrateTypeUnsupported);
    assert_eq!(r.text(), "crate-type");
    let r = parse_reason(&["--emit", "link", "foo.rs", "bar.rs", "--out-dir", "out", "--crate-name", "foo"]);
    assert_eq!(r, CannotCacheReason::MultipleInputFiles);
    assert_eq!(r.text(), "multiple input files");
    let r = parse_reason(&["--emit", "link,asm", "foo.rs", "--out-dir", "out", "--crate-name", "foo"]);
    assert_eq!(r, CannotCacheReason::UnsupportedEmit);
    assert_eq!(r.text(), "unsupported --emit");
    let r = parse_reason(&["--emit", "link", "--out-dir", "out", "--crate-name", "foo"]);
    assert_eq!(r, CannotCacheReason::MissingInput);
    assert_eq!(r.text(), "missing input");
    let r = parse_reason(&["--emit", "link", "foo.rs", "--crate-name", "foo"]);
    assert_eq!(r, CannotCacheReason::MissingOutputDir);
    assert_eq!(r.text(), "missing output_dir");
    let r = parse_reason(&["foo.rs", "--out-dir", "out", "--crate-name", "foo"]);
    assert_eq!(r, CannotCacheReason::MissingEmit);
    assert_eq!(r.text(), "missing emit");
    let r = parse_reason(&["--emit", "link", "foo.rs", "--out-dir", "out"]);
    assert_eq!(r, CannotCacheReason::MissingCrateName);
    assert_eq!(r.text(), "missing crate_name");
    assert_eq!(CannotCacheReason::NotUtf8.text(), "not utf-8");
}

#[test]
fn informational_invocations_are_not_compilations() {
    for args in [
        vec!["--version"],
        vec!["--help"],
        vec!["-V"],
        vec!["--print", "sysroot"],
        vec!["--emit", "asm", "foo.rs", "--out-dir", "out", "--crate-name", "foo"],
        vec!["--emit", "dep-info", "foo.rs", "--out-dir", "out", "--crate-name", "foo"],
    ] {
        match parse_arguments(&to_vec(&args)) {
            CompilerArguments::NotCompilation => {}
            other => panic!("expected NotCompilation for {:?}, got {:?}", args, other),
        }
    }
}
