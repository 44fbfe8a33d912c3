use cargo_frequent::fingerprint_parser::{
    extract_package_context, parse_comma, parse_file_time, parse_option_string,
    parse_rebuild_entry, parse_rebuild_reason, ParsedRebuildEntry,
};
use cargo_frequent::rebuild_reason::RebuildReason;

#[test]
fn extracts_package_context_from_cargo_log() {
    let log_line = r#"    0.102058909s  INFO prepare_target{force=false package_id=libz-sys v1.1.23 target="build-script-build"}: cargo::core::compiler::fingerprint:     dirty: EnvVarChanged { name: "CC", old_value: Some("gcc"), new_value: None }"#;

    let entry = parse_rebuild_entry(log_line).unwrap();
    assert_eq!(entry.package.package_id, "libz-sys v1.1.23");
    assert_eq!(entry.package.target, Some("build-script-build".to_string()));
}

#[test]
fn handles_missing_package_context() {
    let log_line =
        r#"dirty: EnvVarChanged { name: "CC", old_value: Some("gcc"), new_value: None }"#;

    let entry = parse_rebuild_entry(log_line).unwrap();
    assert_eq!(entry.package.package_id, "unknown");
    assert_eq!(entry.package.target, None);
}

#[test]
fn extracts_package_without_target() {
    let log_line = r"prepare_target{force=false package_id=serde v1.0.0}: dirty: TargetConfigurationChanged";

    let entry = parse_rebuild_entry(log_line).unwrap();
    assert_eq!(entry.package.package_id, "serde v1.0.0");
    assert_eq!(entry.package.target, None);
}

#[test]
fn handles_env_var_changed_with_none_to_some() {
    let log_line = r#"dirty: EnvVarChanged { name: "RUST_LOG", old_value: None, new_value: Some("debug") }"#;
    let result = parse_rebuild_reason(log_line);

    assert_eq!(
        result,
        Some(RebuildReason::EnvVarChanged {
            name: "RUST_LOG".to_string(),
            old_value: None,
            new_value: Some("debug".to_string()),
        })
    );
}

#[test]
fn handles_env_var_changed_with_complex_paths() {
    let log_line = r#"dirty: EnvVarChanged { name: "PATH", old_value: Some("/usr/bin:/bin"), new_value: Some("/nix/store/abc:/usr/bin:/bin") }"#;
    let result = parse_rebuild_reason(log_line);

    assert_eq!(
        result,
        Some(RebuildReason::EnvVarChanged {
            name: "PATH".to_string(),
            old_value: Some("/usr/bin:/bin".to_string()),
            new_value: Some("/nix/store/abc:/usr/bin:/bin".to_string()),
        })
    );
}

#[test]
fn handles_unit_dependency_info_changed() {
    let log_line = r#"dirty: UnitDependencyInfoChanged { old_name: "rusqlite", old_fingerprint: 5920731552898212716, new_name: "rusqlite", new_fingerprint: 7766129310588964256 }"#;
    let result = parse_rebuild_reason(log_line);

    assert_eq!(
        result,
        Some(RebuildReason::UnitDependencyInfoChanged {
            name: "rusqlite".to_string(),
            old_fingerprint: "5920731552898212716".to_string(),
            new_fingerprint: "7766129310588964256".to_string(),
            context: None,
        })
    );
}

#[test]
fn handles_target_configuration_changed() {
    let log_line = r"dirty: TargetConfigurationChanged";
    let result = parse_rebuild_reason(log_line);

    assert_eq!(result, Some(RebuildReason::TargetConfigurationChanged));
}

#[test]
fn handles_fs_status_outdated_with_file_change() {
    let log_line = r#"dirty: FsStatusOutdated(StaleItem(ChangedFile { reference: "/tmp/.tmp6t5LHE/target/debug/.fingerprint/target-test-d08e845c3c592b51/dep-bin-target-test", reference_mtime: FileTime { seconds: 1763310414, nanos: 599971397 }, stale: "/tmp/.tmp6t5LHE/src/main.rs", stale_mtime: FileTime { seconds: 1763310414, nanos: 663971117 } }))"#;
    let result = parse_rebuild_reason(log_line);

    assert_eq!(
        result,
        Some(RebuildReason::FileChanged {
            path: "/tmp/.tmp6t5LHE/src/main.rs".to_string(),
        })
    );
}

#[test]
fn handles_unknown_dirty_reason_format() {
    let log_line = r#"dirty: SomeUnknownReason { data: "value" }"#;
    let result = parse_rebuild_reason(log_line);

    assert_eq!(
        result,
        Some(RebuildReason::Unknown(
            r#"SomeUnknownReason { data: "value" }"#.to_string()
        ))
    );
}

#[test]
fn handles_rustflags_changed() {
    let log_line = r#"dirty: RustflagsChanged { old: ["--cfg", "test"], new: ["--cfg", "test", "-C", "target-cpu=native"] }"#;
    let result = parse_rebuild_reason(log_line);

    assert_eq!(
        result,
        Some(RebuildReason::RustflagsChanged {
            old: vec!["--cfg".to_string(), "test".to_string()],
            new: vec![
                "--cfg".to_string(),
                "test".to_string(),
                "-C".to_string(),
                "target-cpu=native".to_string()
            ],
        })
    );
}

#[test]
fn handles_rustflags_changed_empty_vecs() {
    let log_line = r#"dirty: RustflagsChanged { old: [], new: ["-C", "opt-level=3"] }"#;
    let result = parse_rebuild_reason(log_line);

    assert_eq!(
        result,
        Some(RebuildReason::RustflagsChanged {
            old: vec![],
            new: vec!["-C".to_string(), "opt-level=3".to_string()],
        })
    );
}

#[test]
fn handles_features_changed() {
    let log_line = r#"dirty: FeaturesChanged { old: "default", new: "default,serde" }"#;
    let result = parse_rebuild_reason(log_line);

    assert_eq!(
        result,
        Some(RebuildReason::FeaturesChanged {
            old: "default".to_string(),
            new: "default,serde".to_string(),
        })
    );
}

#[test]
fn handles_profile_configuration_changed() {
    let log_line = r"dirty: ProfileConfigurationChanged";
    let result = parse_rebuild_reason(log_line);

    assert_eq!(result, Some(RebuildReason::ProfileConfigurationChanged));
}

#[test]
fn returns_none_for_lines_without_dirty_marker() {
    let log_line =
        r"    0.102058909s  INFO cargo::core::compiler::fingerprint: some other log message";
    let result = parse_rebuild_reason(log_line);

    assert_eq!(result, None);
}

#[test]
fn handles_malformed_input_gracefully() {
    let lines_without_dirty = vec![r"", r"some random log line"];

    for line in lines_without_dirty {
        let result = parse_rebuild_reason(line);
        assert_eq!(
            result, None,
            "Expected None for line without dirty marker: {line}"
        );
    }

    let malformed_with_dirty = vec![
        r#"dirty: EnvVarChanged { name: "CC", old_value: Some("gcc")"#,
        r#"dirty: EnvVarChanged { name: CC", old_value: Some("gcc"), new_value: None }"#,
        r#"dirty: UnitDependencyInfoChanged { old_name: "rusqlite""#,
        r"dirty:",
    ];

    for line in malformed_with_dirty {
        let result = parse_rebuild_reason(line);
        assert!(
            matches!(result, Some(RebuildReason::Unknown(_))),
            "Expected Unknown for malformed dirty line: {line}"
        );
    }
}

fn dependency(name: &str) -> RebuildReason {
    RebuildReason::UnitDependencyInfoChanged {
        name: name.to_string(),
        old_fingerprint: String::new(),
        new_fingerprint: String::new(),
        context: None,
    }
}

#[test]
fn handles_unit_index() {
    let reason =
        parse_rebuild_reason("dirty: UnitDependencyInfoChanged { unit: UnitIndex(17) }");
    assert_eq!(reason, Some(dependency("")));
}

#[test]
fn handles_stale_dependency() {
    let reason = parse_rebuild_reason(
        r#"dirty: FsStatusOutdated(StaleDepFingerprint { name: "lib_a" })"#,
    );
    assert_eq!(reason, Some(dependency("lib_a")));
}

#[test]
fn blanks_between_the_parts_do_not_matter() {
    let reason = parse_rebuild_reason(
        "dirty:\u{a0}\tEnvVarChanged{name:\"CC\" ,old_value \t: None,new_value:Some(\"a b\")} more",
    );
    assert_eq!(
        reason,
        Some(RebuildReason::EnvVarChanged {
            name: "CC".to_string(),
            old_value: None,
            new_value: Some("a b".to_string()),
        })
    );
}

#[test]
fn list_may_end_in_a_comma() {
    let reason =
        parse_rebuild_reason(r#"dirty: RustflagsChanged { old: [ "-C" , ], new: [ ] }"#);
    assert_eq!(
        reason,
        Some(RebuildReason::RustflagsChanged { old: vec!["-C".to_string()], new: vec![] })
    );
    let broken = r#"RustflagsChanged { old: ["-C" "-D"], new: [] }"#;
    assert_eq!(
        parse_rebuild_reason(&format!("dirty: {broken}")),
        Some(RebuildReason::Unknown(broken.to_string()))
    );
}

#[test]
fn escaped_quotes_end_a_text() {
    let reason = parse_rebuild_reason(r#"dirty: FeaturesChanged { old: "a\"b", new: "" }"#);
    assert_eq!(
        reason,
        Some(RebuildReason::Unknown(r#"FeaturesChanged { old: "a\"b", new: "" }"#.to_string()))
    );
}

#[test]
fn unknown_reason_is_trimmed() {
    assert_eq!(
        parse_rebuild_reason("x dirty:  what? \t\n"),
        Some(RebuildReason::Unknown("what?".to_string()))
    );
    assert_eq!(parse_rebuild_reason("dirty:"), Some(RebuildReason::Unknown(String::new())));
}

#[test]
fn first_marker_counts() {
    assert_eq!(
        parse_rebuild_reason("dirty: dirty: TargetConfigurationChanged"),
        Some(RebuildReason::Unknown("dirty: TargetConfigurationChanged".to_string()))
    );
    assert_eq!(parse_rebuild_reason("Dirty: TargetConfigurationChanged"), None);
}

#[test]
fn finds_the_unit_of_a_line() {
    let unit = |line: &str| {
        let package = extract_package_context(line);
        (package.package_id, package.target)
    };
    let text = |t: &str| t.to_string();
    assert_eq!(
        unit(r#"{package_id= a v1  target="b c"}: x"#),
        (text("a v1"), Some(text("b c")))
    );
    assert_eq!(unit("{package_id=a v1 target=lib}"), (text("a v1"), Some(text("lib"))));
    assert_eq!(unit("{package_id=a v1 target=lib:"), (text("a v1"), Some(text("lib"))));
    assert_eq!(unit("package_id=a v1 target= x"), (text("a v1"), None));
    assert_eq!(unit("package_id=a v1 target="), (text("a v1"), None));
    assert_eq!(unit("package_id=a v1 target=\"open"), (text("a v1"), None));
    assert_eq!(unit("package_id=a v1"), (text("a v1"), None));
    assert_eq!(unit("{package_id=a v1}}"), (text("a v1"), None));
    assert_eq!(unit("{package_id=a}target=\"b\""), (text("a"), Some(text("b"))));
    assert_eq!(unit("target=t"), (text("unknown"), Some(text("t"))));
    assert_eq!(unit(""), (text("unknown"), None));
}

#[test]
fn entry_is_made_of_unit_and_reason() {
    assert!(parse_rebuild_entry("package_id=a v1 target=\"b\"").is_none());
    let entry = parse_rebuild_entry("{package_id=a v1}: dirty: ProfileConfigurationChanged");
    let entry = entry.unwrap().clone();
    assert_eq!(entry.package.package_id, "a v1");
    assert_eq!(entry.reason, RebuildReason::ProfileConfigurationChanged);
    let other = ParsedRebuildEntry::new(entry.package.clone(), dependency("x"));
    assert!(other.package == entry.package);
    assert_eq!(other.reason, dependency("x"));
}

#[test]
fn parsers_leave_what_follows() {
    let chars: Vec<char> = "FileTime { seconds: 12, nanos: 34 }rest".chars().collect();
    let (rest, (seconds, nanos)) = parse_file_time(&chars).unwrap();
    assert_eq!(rest.iter().collect::<String>(), "rest");
    assert_eq!((seconds.as_str(), nanos.as_str()), ("12", "34"));
    let chars: Vec<char> = "FileTime { seconds: 12, nanos:  }".chars().collect();
    assert!(parse_file_time(&chars).is_none());
    let chars: Vec<char> = "Some(\"x\"), None".chars().collect();
    let (rest, value) = parse_option_string(&chars).unwrap();
    assert_eq!(value, Some("x".to_string()));
    let rest = parse_comma(rest).unwrap();
    let (rest, value) = parse_option_string(rest).unwrap();
    assert_eq!(value, None);
    assert!(rest.is_empty());
}

#[test]
fn recognised_reason_does_not_depend_on_what_stands_round_it() {
    for reason in [
        r#"EnvVarChanged{name:"CC",old_value:None,new_value:Some("x")}"#,
        r#"UnitDependencyInfoChanged { old_name: "a", old_fingerprint: 1, new_name: "b", new_fingerprint: 2 }"#,
        "UnitDependencyInfoChanged { unit: UnitIndex(1) }",
        "TargetConfigurationChanged",
        "ProfileConfigurationChanged",
        r#"RustflagsChanged { old: ["-C" , ],new: [ ] }"#,
        r#"FeaturesChanged { old: "", new: "x" }"#,
        r#"FsStatusOutdated(StaleDepFingerprint { name: "a" })"#,
        r#"FsStatusOutdated(StaleItem(ChangedFile { reference: "r", reference_mtime: FileTime { seconds: 1, nanos: 2 }, stale: "s", stale_mtime: FileTime { seconds: 3, nanos: 4 } }))"#,
    ] {
        let alone = parse_rebuild_reason(&format!("dirty:\t{reason}"));
        assert!(alone.is_some());
        assert!(!matches!(alone, Some(RebuildReason::Unknown(_))), "{reason}");
        for before in ["", "x", "dirty", "dirtydirt", " dirty : "] {
            for behind in ["", " ", "}", "9", "\"", ", dirty: TargetConfigurationChanged"] {
                let line = format!("{before}dirty:\t{reason}{behind}");
                assert_eq!(parse_rebuild_reason(&line), alone, "{line}");
            }
        }
    }
}
