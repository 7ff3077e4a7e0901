use rustcache::digest::file_digest;
use rustcache::parse::parse_arguments;
use rustcache::{CompilerArguments, ParsedArguments, Rust, RustHasher};

fn to_vec(args: &[&str]) -> Vec<String> {
    args.iter().map(|s| s.to_string()).collect()
}

fn env_vec(pairs: &[(&str, &str)]) -> Vec<(String, String)> {
    pairs.iter().map(|(k, v)| (k.to_string(), v.to_string())).collect()
}

#[test]
fn sha1_digests_match_known_values() {
    assert_eq!(file_digest(b""), "da39a3ee5e6b4b0d3255bfef95601890afd80709");
    assert_eq!(file_digest(b"abc"), "a9993e364706816aba3e25717850c26c9cd0d89d");
}

#[test]
fn test_generate_hash_key() {
    let empty_digest = file_digest(b"");
    let hasher = RustHasher {
        executable: "rustc".to_string(),
        compiler_shlibs_digests: vec!["abcd1234".to_string()],
        parsed_args: ParsedArguments {
            arguments: vec![
                ("a".to_string(), None),
                ("--extern".to_string(), Some("xyz".to_string())),
                ("b".to_string(), None),
                ("--extern".to_string(), Some("abc".to_string())),
            ],
            output_dir: "foo/".to_string(),
            externs: vec!["bar.rlib".to_string()],
            crate_name: "foo".to_string(),
            dep_info: None,
        },
    };
    // The sources the dep-info probe would list, sorted: bar.rs, foo.rs,
    // both empty files here; the one extern is empty too.
    let source_hashes = vec![empty_digest.clone(), empty_digest.clone()];
    let extern_hashes = vec![empty_digest.clone()];
    let env = env_vec(&[("CARGO_PKG_NAME", "foo"), ("FOO", "bar"), ("CARGO_BLAH", "abc")]);
    let output_names = to_vec(&["foo.rlib", "foo.a"]);
    let res = hasher.generate_hash_key(&source_hashes, &extern_hashes, &env, &output_names);

    // The expected transcript, written out by hand: version tag, one
    // library digest, the four pairs in canonical order (the two --extern
    // pairs sorted to the end), two source digests, one extern digest, and
    // the two CARGO_ variables sorted by name.
    let mut t = String::new();
    t.push_str("3");
    t.push_str("1;8:abcd1234");
    t.push_str("4;1:a-1:b-8:--extern=3:abc8:--extern=3:xyz");
    t.push_str(&format!("2;40:{}40:{}", empty_digest, empty_digest));
    t.push_str(&format!("1;40:{}", empty_digest));
    t.push_str("2;10:CARGO_BLAH=3:abc14:CARGO_PKG_NAME=3:foo");
    let expected = sha1_smol::Sha1::from(t.as_bytes()).digest().to_string();
    assert_eq!(res.key, expected);

    let mut out: Vec<String> = res.compilation.outputs().iter().map(|(k, _)| k.clone()).collect();
    out.sort();
    assert_eq!(out, to_vec(&["foo.a", "foo.rlib"]));
}

/// Parses `args` and derives a key the way the probes would: one empty
/// source file, externs with the given contents, the given environment.
fn hash_key(args: &[&str], env: &[(&str, &str)], extern_contents: &[(&str, &[u8])]) -> String {
    let parsed = match parse_arguments(&to_vec(args)) {
        CompilerArguments::Cacheable(p) => p,
        other => panic!("unexpected parse result: {:?}", other),
    };
    let source_hashes = vec![file_digest(b"")];
    let extern_hashes: Vec<String> = parsed
        .externs
        .iter()
        .map(|e| {
            let content = extern_contents
                .iter()
                .find(|(name, _)| *name == e.as_str())
                .map(|(_, c)| *c)
                .unwrap_or(b"");
            file_digest(content)
        })
        .collect();
    let hasher = RustHasher {
        executable: "rustc".to_string(),
        compiler_shlibs_digests: vec![],
        parsed_args: parsed,
    };
    let output_names = to_vec(&["foo.rlib"]);
    hasher.generate_hash_key(&source_hashes, &extern_hashes, &env_vec(env), &output_names).key
}

#[test]
fn test_equal_hashes_externs() {
    let contents: &[(&str, &[u8])] = &[("a.rlib", b"this is a.rlib"), ("b.rlib", b"this is b.rlib")];
    assert_eq!(
        hash_key(
            &["--emit", "link", "foo.rs", "--extern", "a=a.rlib", "--out-dir", "out",
                "--crate-name", "foo", "--extern", "b=b.rlib"],
            &[],
            contents,
        ),
        hash_key(
            &["--extern", "b=b.rlib", "--emit", "link", "--extern", "a=a.rlib", "foo.rs",
                "--out-dir", "out", "--crate-name", "foo"],
            &[],
            contents,
        )
    );
}

#[test]
fn test_equal_hashes_link_paths() {
    assert_eq!(
        hash_key(
            &["--emit", "link", "-L", "x=x", "foo.rs", "--out-dir", "out", "--crate-name", "foo",
                "-L", "y=y"],
            &[],
            &[],
        ),
        hash_key(
            &["-L", "y=y", "--emit", "link", "-L", "x=x", "foo.rs", "--out-dir", "out",
                "--crate-name", "foo"],
            &[],
            &[],
        )
    );
}

#[test]
fn test_equal_hashes_cfg_features() {
    assert_eq!(
        hash_key(
            &["--emit", "link", "--cfg", "feature=a", "foo.rs", "--out-dir", "out",
                "--crate-name", "foo", "--cfg", "feature=b"],
            &[],
            &[],
        ),
        hash_key(
            &["--cfg", "feature=b", "--emit", "link", "--cfg", "feature=a", "foo.rs", "--out-dir",
                "out", "--crate-name", "foo"],
            &[],
            &[],
        )
    );
}

#[test]
fn key_ignores_other_environment_variables() {
    let args = &["--emit", "link", "foo.rs", "--out-dir", "out", "--crate-name", "foo"];
    let base = hash_key(args, &[("CARGO_PKG_NAME", "foo"), ("HOME", "/a")], &[]);
    assert_eq!(base, hash_key(args, &[("CARGO_PKG_NAME", "foo"), ("HOME", "/b")], &[]));
    assert_eq!(base, hash_key(args, &[("HOME", "/c"), ("CARGO_PKG_NAME", "foo")], &[]));
    assert_ne!(base, hash_key(args, &[("CARGO_PKG_NAME", "bar"), ("HOME", "/a")], &[]));
    assert_ne!(base, hash_key(args, &[("HOME", "/a")], &[]));
}

#[test]
fn key_tracks_input_digests() {
    let args = &["--emit", "link", "foo.rs", "--extern", "a=a.rlib", "--out-dir", "out",
        "--crate-name", "foo"];
    let one = hash_key(args, &[], &[("a.rlib", b"first")]);
    let two = hash_key(args, &[], &[("a.rlib", b"second")]);
    assert_ne!(one, two);
    // Deriving the key twice from the same inputs gives the same key.
    assert_eq!(one, hash_key(args, &[], &[("a.rlib", b"first")]));
}

#[test]
fn key_depends_on_other_flag_positions() {
    // No invariance is promised for flags outside --extern, -L, --cfg:
    // moving one changes the canonical transcript.
    let one = hash_key(
        &["--emit", "link", "-g", "foo.rs", "--out-dir", "out", "--crate-name", "foo"],
        &[],
        &[],
    );
    let two = hash_key(
        &["-g", "--emit", "link", "foo.rs", "--out-dir", "out", "--crate-name", "foo"],
        &[],
        &[],
    );
    assert_ne!(one, two);
}

#[test]
fn outputs_include_the_dep_info_file() {
    let parsed = match parse_arguments(&to_vec(&["--crate-name", "foo", "src/lib.rs",
        "--emit=dep-info,link", "--out-dir", "out"]))
    {
        CompilerArguments::Cacheable(p) => p,
        other => panic!("unexpected parse result: {:?}", other),
    };
    let hasher = RustHasher {
        executable: "rustc".to_string(),
        compiler_shlibs_digests: vec![],
        parsed_args: parsed,
    };
    let res = hasher.generate_hash_key(
        &vec![file_digest(b"")],
        &vec![],
        &vec![],
        &to_vec(&["foo.rlib"]),
    );
    assert_eq!(
        res.compilation.outputs().clone(),
        vec![
            ("foo.rlib".to_string(), "out/foo.rlib".to_string()),
            ("foo.d".to_string(), "out/foo.d".to_string()),
        ]
    );
    assert_eq!(res.compilation.crate_name, "foo");
    assert_eq!(
        res.compilation.arguments,
        to_vec(&["--crate-name", "foo", "src/lib.rs", "--emit", "dep-info,link", "--out-dir", "out"])
    );
}

#[test]
fn filtered_arguments_drop_emit_and_out_dir() {
    let parsed = match parse_arguments(&to_vec(&["--emit", "link", "foo.rs", "--out-dir", "out",
        "--crate-name", "foo"]))
    {
        CompilerArguments::Cacheable(p) => p,
        other => panic!("unexpected parse result: {:?}", other),
    };
    assert_eq!(parsed.filtered_arguments(), to_vec(&["foo.rs", "--crate-name", "foo"]));
    assert_eq!(
        parsed.flattened_arguments(),
        to_vec(&["--emit", "link", "foo.rs", "--out-dir", "out", "--crate-name", "foo"])
    );
}

#[test]
fn compiler_handle_and_hasher_wiring() {
    let rust = Rust::new("rustc".to_string(), vec!["d1".to_string()]);
    let args = to_vec(&["--emit", "link", "foo.rs", "--out-dir", "out", "--crate-name", "foo"]);
    match rust.parse_arguments(&args) {
        CompilerArguments::Cacheable(h) => {
            assert_eq!(h.executable, "rustc");
            assert_eq!(h.compiler_shlibs_digests, vec!["d1".to_string()]);
            assert_eq!(h.output_pretty(), "foo");
        }
        other => panic!("unexpected parse result: {:?}", other),
    }
    match rust.parse_arguments(&to_vec(&["--version"])) {
        CompilerArguments::NotCompilation => {}
        other => panic!("unexpected parse result: {:?}", other),
    }
}

#[test]
fn shared_libraries_are_selected_and_sorted() {
    let listing = to_vec(&[
        "/sysroot/lib/libstd.so",
        "/sysroot/lib/readme.txt",
        "/sysroot/lib/liballoc.so",
        "/sysroot/lib/.so",
        "/sysroot/lib/archive.so.1",
    ]);
    assert_eq!(
        rustcache::adapter::select_shared_libs(&listing),
        to_vec(&["/sysroot/lib/liballoc.so", "/sysroot/lib/libstd.so"])
    );
}
