use rustcache::depinfo::{join_path_exec, parse_dep_info, parse_file_names};

const DEPS: &str = "foo: baz.rs abc.rs bar.rs\n\nbaz.rs:\n\nabc.rs:\n\nbar.rs:\n";

fn strings(v: &[&str]) -> Vec<String> {
    v.iter().map(|s| s.to_string()).collect()
}

#[test]
fn test_parse_dep_info() {
    assert_eq!(strings(&["abc.rs", "bar.rs", "baz.rs"]), parse_dep_info(DEPS, ""));
}

#[test]
fn test_parse_dep_info_cwd() {
    assert_eq!(strings(&["foo/abc.rs", "foo/bar.rs", "foo/baz.rs"]), parse_dep_info(DEPS, "foo/"));
    assert_eq!(
        strings(&["/foo/bar/abc.rs", "/foo/bar/bar.rs", "/foo/bar/baz.rs"]),
        parse_dep_info(DEPS, "/foo/bar/")
    );
}

#[test]
fn rust_test_parse_dep_info_cwd() {
    assert_eq!(strings(&["foo/abc.rs", "foo/bar.rs", "foo/baz.rs"]), parse_dep_info(DEPS, "foo/"));
    assert_eq!(
        strings(&["c:/foo/bar/abc.rs", "c:/foo/bar/bar.rs", "c:/foo/bar/baz.rs"]),
        parse_dep_info(DEPS, "c:/foo/bar/")
    );
}

#[test]
fn test_parse_dep_info_abs_paths() {
    let deps = "/foo/foo: /foo/baz.rs /foo/abc.rs /foo/bar.rs\n\n/foo/baz.rs:\n\n/foo/abc.rs:\n\n/foo/bar.rs:\n";
    assert_eq!(
        strings(&["/foo/abc.rs", "/foo/bar.rs", "/foo/baz.rs"]),
        parse_dep_info(deps, "/bar/")
    );
}

#[test]
fn dep_info_ignores_trailing_lines() {
    let one_line = "foo: baz.rs abc.rs bar.rs";
    assert_eq!(parse_dep_info(one_line, "d/"), parse_dep_info(DEPS, "d/"));
    let noisy = "foo: baz.rs abc.rs bar.rs\n\n\nwhatever:\n:\n";
    assert_eq!(parse_dep_info(noisy, "d/"), parse_dep_info(DEPS, "d/"));
}

#[test]
fn dep_info_edge_cases() {
    assert_eq!(parse_dep_info("", "cwd/"), Vec::<String>::new());
    assert_eq!(parse_dep_info("no colon space here", "cwd/"), Vec::<String>::new());
    // Extra spaces between tokens are dropped, the result is sorted.
    assert_eq!(
        parse_dep_info("t: b.rs  a.rs \n", ""),
        strings(&["a.rs", "b.rs"])
    );
}

#[test]
fn join_path_follows_the_working_directory() {
    assert_eq!(join_path_exec("", "a.rs"), "a.rs");
    assert_eq!(join_path_exec("d", "a.rs"), "d/a.rs");
    assert_eq!(join_path_exec("d/", "a.rs"), "d/a.rs");
    assert_eq!(join_path_exec("d/", "/abs/a.rs"), "/abs/a.rs");
}

#[test]
fn test_get_compiler_outputs() {
    let outputs = parse_file_names("foo\nbar\nbaz");
    assert_eq!(outputs, strings(&["foo", "bar", "baz"]));
}

#[test]
fn file_names_skip_blank_lines() {
    assert_eq!(parse_file_names("foo\n\nbar\n"), strings(&["foo", "bar"]));
    assert_eq!(parse_file_names(""), Vec::<String>::new());
    assert_eq!(parse_file_names("one\r\ntwo\r\n"), strings(&["one", "two"]));
}
