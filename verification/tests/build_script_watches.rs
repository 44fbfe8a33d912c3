use cargo_frequent::build_script_watches::{
    crate_name_of_dir, crates_watching_env, extend_from_output, is_volatile, scan,
    strip_hash_suffix, BuildOutput, BuildScriptWatches, WatchMap,
};

fn output(dir_name: &str, contents: &str) -> BuildOutput {
    BuildOutput { dir_name: dir_name.to_string(), contents: contents.to_string() }
}

#[test]
fn detects_volatile_vars() {
    assert!(is_volatile("PATH"));
    assert!(is_volatile("HOME"));
    assert!(is_volatile("XDG_CONFIG_HOME"));
    assert!(is_volatile("CONDA_PREFIX"));
    assert!(!is_volatile("CC"));
    assert!(!is_volatile("RUSTFLAGS"));
    assert!(!is_volatile("PYO3_PYTHON"));
}

#[test]
fn parses_directives_from_output_file() {
    let map = scan(&[output(
        "pyo3-build-config-0123456789abcdef",
        "cargo:rerun-if-env-changed=PATH\n\
         cargo:rerun-if-env-changed=PYO3_PYTHON\n\
         cargo:rerun-if-changed=build.rs\n\
         cargo:rustc-cfg=Py_3_8\n",
    )]);
    let watches = map.get("pyo3-build-config").expect("crate present");
    assert_eq!(watches.env_vars, vec!["PATH", "PYO3_PYTHON"]);
    assert_eq!(watches.paths, vec!["build.rs"]);
}

#[test]
fn merges_directives_across_profiles() {
    let mut outputs = Vec::new();
    for profile in ["debug", "release"] {
        outputs.push(output(
            "foo-aaaaaaaaaaaaaaaa",
            &format!("cargo:rerun-if-env-changed={}\n", profile.to_uppercase()),
        ));
    }

    let map = scan(&outputs);
    let watches = map.get("foo").expect("foo present");
    assert!(watches.env_vars.contains(&"DEBUG".to_string()));
    assert!(watches.env_vars.contains(&"RELEASE".to_string()));
}

#[test]
fn empty_target_dir_yields_empty_map() {
    let map = scan(&[]);
    assert!(map.is_empty());
}

#[test]
fn only_listed_names_are_volatile() {
    for name in [
        "PATH",
        "PWD",
        "OLDPWD",
        "SHLVL",
        "SHELL",
        "TERM",
        "TERM_PROGRAM",
        "TERM_PROGRAM_VERSION",
        "TERM_SESSION_ID",
        "HOME",
        "USER",
        "LOGNAME",
        "TMPDIR",
        "VIRTUAL_ENV",
        "VIRTUAL_ENV_PROMPT",
        "_",
        "OLDOLDPWD",
    ] {
        assert!(is_volatile(name), "{name}");
        assert!(!is_volatile(&format!("{name}X")), "{name}X");
    }
    for prefix in ["XDG_", "CONDA_", "DIRENV_", "SSH_", "ITERM_", "VSCODE_", "TERMINFO_"] {
        assert!(is_volatile(prefix), "{prefix}");
        assert!(is_volatile(&format!("{prefix}ANYTHING")), "{prefix}");
        assert!(!is_volatile(&format!("X{prefix}")), "X{prefix}");
    }
    assert!(!is_volatile(""));
    assert!(!is_volatile("path"));
    assert!(!is_volatile("XDG"));
}

#[test]
fn hash_is_taken_off_directory_names() {
    let stripped = |name: &str| strip_hash_suffix(name);
    assert_eq!(stripped("foo-0123456789abcdef"), Some("foo".to_string()));
    assert_eq!(stripped("foo-bar-0123456789ABCDEF"), Some("foo-bar".to_string()));
    assert_eq!(stripped("foo-bar"), Some("foo-bar".to_string()));
    assert_eq!(stripped("foo-0123456789abcde"), Some("foo-0123456789abcde".to_string()));
    assert_eq!(stripped("foo-0123456789abcdeg"), Some("foo-0123456789abcdeg".to_string()));
    assert_eq!(stripped("-0123456789abcdef"), Some(String::new()));
    assert_eq!(stripped("foo-"), Some("foo-".to_string()));
    assert_eq!(stripped("foo"), None);
    assert_eq!(stripped(""), None);
    assert_eq!(crate_name_of_dir("foo-0123456789abcdef"), Some("foo".to_string()));
    assert_eq!(crate_name_of_dir("-0123456789abcdef"), None);
    assert_eq!(crate_name_of_dir("foo"), None);
}

#[test]
fn output_without_crate_name_is_passed_over() {
    let directive = "cargo:rerun-if-env-changed=PATH";
    assert!(scan(&[output("foo", directive), output("-0123456789abcdef", directive)]).is_empty());
    let map = scan(&[output("foo-bar", directive)]);
    assert_eq!(map.get("foo-bar").unwrap().env_vars, vec!["PATH"]);
    assert!(map.get("foo").is_none());
}

#[test]
fn output_without_directives_still_names_its_crate() {
    let map = scan(&[output("foo-0123456789abcdef", "cargo:rustc-cfg=x\n")]);
    assert!(!map.is_empty());
    let watches = map.get("foo").unwrap();
    assert!(watches.env_vars.is_empty());
    assert!(watches.paths.is_empty());
}

#[test]
fn directives_fill_lines() {
    let mut watches = BuildScriptWatches::default();
    watches.env_vars.push("FIRST".to_string());
    extend_from_output(
        &mut watches,
        "cargo:rerun-if-env-changed= CC \r\n cargo:rerun-if-env-changed=NO\n\n\
         cargo:rerun-if-changed=\nxcargo:rerun-if-changed=no\ncargo:rerun-if-changed=b.rs",
    );
    assert_eq!(watches.env_vars, vec!["FIRST", "CC"]);
    assert_eq!(watches.paths, vec!["", "b.rs"]);
}

#[test]
fn order_of_outputs_does_not_matter() {
    let a = output(
        "foo-aaaaaaaaaaaaaaaa",
        "cargo:rerun-if-env-changed=B\ncargo:rerun-if-changed=y\ncargo:rerun-if-env-changed=A\n",
    );
    let b = output(
        "foo-bbbbbbbbbbbbbbbb",
        "cargo:rerun-if-env-changed=A\ncargo:rerun-if-changed=x\ncargo:rerun-if-changed=y\n",
    );
    let c = output("bar-cccccccccccccccc", "cargo:rerun-if-env-changed=A\n");
    let one = scan(&[a.clone(), b.clone(), c.clone()]);
    let other = scan(&[c, b, a.clone(), a]);
    for map in [one, other] {
        let foo = map.get("foo").unwrap();
        assert_eq!(foo.env_vars, vec!["A", "B"]);
        assert_eq!(foo.paths, vec!["x", "y"]);
        assert_eq!(crates_watching_env(&map, "A"), vec!["bar", "foo"]);
        assert_eq!(crates_watching_env(&map, "B"), vec!["foo"]);
        assert!(crates_watching_env(&map, "C").is_empty());
    }
}

#[test]
fn map_gives_back_what_was_put_in() {
    let watches = |var: &str| BuildScriptWatches { env_vars: vec![var.to_string()], paths: vec![] };
    let mut map = WatchMap::default();
    assert!(map.is_empty());
    map.insert("b".to_string(), watches("X"));
    map.insert("a".to_string(), watches("X"));
    map.insert("b".to_string(), watches("Y"));
    assert!(!map.is_empty());
    assert_eq!(map.get("a").unwrap().env_vars, vec!["X"]);
    assert_eq!(map.get("b").unwrap().clone().env_vars, vec!["Y"]);
    assert!(map.get("c").is_none());
    assert_eq!(crates_watching_env(&map, "X"), vec!["a"]);
}
