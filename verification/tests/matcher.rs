use dprintx::config::{DprintxConfig, ProfileResolution};
use dprintx::matcher::{ContentScan, MatcherError, ProfileMatcher, ResolveError};

fn config_of(json: &str) -> DprintxConfig {
    DprintxConfig::parse(json, None).unwrap()
}

fn test_config() -> DprintxConfig {
    config_of(
        r#"{
            "dprint": "/usr/bin/dprint",
            "profiles": {
                "maintainer": "/config/dprint-maintainer.jsonc",
                "default": "/config/dprint-default.jsonc"
            },
            "match": {
                "**/noc/cmdb/**": "maintainer",
                "**/noc/invapi/**": "maintainer",
                "**/mocksoul/gostern/**": "maintainer",
                "**": "default"
            }
        }"#,
    )
}

fn config_path(path: &str) -> Option<ProfileResolution> {
    Some(ProfileResolution::Config(path.to_string()))
}

#[test]
fn test_match_first_wins() {
    let config = test_config();
    let matcher = ProfileMatcher::from_config(&config).unwrap();

    assert_eq!(
        matcher.match_profile("/home/user/workspace/noc/cmdb/main.go"),
        Some("maintainer")
    );
    assert_eq!(
        matcher.match_profile("/home/user/workspace/noc/invapi/server.go"),
        Some("maintainer")
    );
    assert_eq!(matcher.match_profile("/home/user/other/file.go"), Some("default"));
}

#[test]
fn test_no_match_returns_none() {
    let config = config_of(
        r#"{
            "dprint": "/usr/bin/dprint",
            "profiles": { "strict": "/config/strict.jsonc" },
            "match": { "**/noc/cmdb/**": "strict" }
        }"#,
    );
    let matcher = ProfileMatcher::from_config(&config).unwrap();
    assert_eq!(matcher.match_profile("/home/user/other/file.go"), None);
}

#[test]
fn test_resolve_config_matched() {
    let config = test_config();
    let matcher = ProfileMatcher::from_config(&config).unwrap();
    let result = matcher.resolve_config("/workspace/noc/cmdb/main.go", &config, None).unwrap();
    assert_eq!(result, config_path("/config/dprint-maintainer.jsonc"));
}

#[test]
fn test_resolve_config_no_match() {
    let config = config_of(
        r#"{
            "dprint": "/usr/bin/dprint",
            "profiles": { "strict": "/config/strict.jsonc" },
            "match": { "**/noc/cmdb/**": "strict" }
        }"#,
    );
    let matcher = ProfileMatcher::from_config(&config).unwrap();
    let result = matcher.resolve_config("/other/file.go", &config, None).unwrap();
    assert_eq!(result, None);
}

#[test]
fn test_resolve_config_ignore_profile() {
    let config = config_of(
        r#"{
            "dprint": "/usr/bin/dprint",
            "profiles": {
                "default": "/config/default.jsonc",
                "ignore": null
            },
            "match": {
                "**/generated/**": "ignore",
                "**": "default"
            }
        }"#,
    );
    let matcher = ProfileMatcher::from_config(&config).unwrap();

    let result = matcher.resolve_config("/workspace/generated/types.go", &config, None).unwrap();
    assert_eq!(result, Some(ProfileResolution::Ignore));

    let result = matcher.resolve_config("/workspace/main.go", &config, None).unwrap();
    assert_eq!(result, config_path("/config/default.jsonc"));
}

#[test]
fn test_tilde_expansion_in_match_rules() {
    let home = dirs::home_dir().unwrap();
    let config = DprintxConfig::load_text(
        r#"{
            "dprint": "/usr/bin/dprint",
            "profiles": {
                "special": "/config/special.jsonc",
                "default": "/config/default.jsonc"
            },
            "match": {
                "~/workspace/myproject/**": "special",
                "**": "default"
            }
        }"#,
    )
    .unwrap();
    let matcher = ProfileMatcher::from_config(&config).unwrap();

    let test_path = home.join("workspace/myproject/foo.lua");
    assert_eq!(matcher.match_profile(test_path.to_str().unwrap()), Some("special"));

    let other_path = home.join("workspace/other/bar.go");
    assert_eq!(matcher.match_profile(other_path.to_str().unwrap()), Some("default"));
}

#[test]
fn test_resolve_config_unknown_profile_errors() {
    let config = config_of(
        r#"{
            "dprint": "/usr/bin/dprint",
            "profiles": {},
            "match": { "**": "nonexistent" }
        }"#,
    );
    let matcher = ProfileMatcher::from_config(&config).unwrap();

    let result = matcher.resolve_config("/any/file.go", &config, None);
    assert!(result.is_err());
    let error = result.unwrap_err();
    assert!(error.message().contains("not defined in profiles"));
    assert_eq!(error.profile(), "nonexistent");
    assert_eq!(error, ResolveError::UnknownProfile("nonexistent".to_string()));
    assert_eq!(
        error.message(),
        "profile 'nonexistent' referenced in match rules but not defined in profiles"
    );
}

fn generated_config() -> DprintxConfig {
    config_of(
        r#"{
            "dprint": "/usr/bin/dprint",
            "profiles": {
                "default": "/config/default.jsonc",
                "ignore": null
            },
            "match": { "**": "default" },
            "match_content": {
                "// Code generated .+ DO NOT EDIT\\.": "ignore"
            }
        }"#,
    )
}

#[test]
fn test_resolve_with_content_skips_generated() {
    let config = generated_config();
    let matcher = ProfileMatcher::from_config(&config).unwrap();

    let result = matcher
        .resolve_config(
            "/tmp/dprintx-test-content-match/generated.go",
            &config,
            Some("// Code generated by protoc-gen-go. DO NOT EDIT.\npackage pb\n"),
        )
        .unwrap();
    assert_eq!(result, Some(ProfileResolution::Ignore));

    let result = matcher
        .resolve_config(
            "/tmp/dprintx-test-content-match/main.go",
            &config,
            Some("package main\n\nfunc main() {}\n"),
        )
        .unwrap();
    assert_eq!(result, config_path("/config/default.jsonc"));
}

#[test]
fn test_resolve_with_content_no_path_match_skips_content_check() {
    let config = config_of(
        r#"{
            "dprint": "/usr/bin/dprint",
            "profiles": {
                "special": "/config/special.jsonc",
                "ignore": null
            },
            "match": { "**/specific-dir/**": "special" },
            "match_content": {
                "DO NOT EDIT": "ignore"
            }
        }"#,
    );
    let matcher = ProfileMatcher::from_config(&config).unwrap();

    let by_path =
        matcher.resolve_config_by_path("/tmp/dprintx-test-content-nopath/generated.go", &config);
    assert!(!matcher.wants_content(&by_path));
    let result = matcher
        .resolve_config(
            "/tmp/dprintx-test-content-nopath/generated.go",
            &config,
            Some("// Code generated by protoc. DO NOT EDIT.\npackage pb\n"),
        )
        .unwrap();
    assert_eq!(result, None);
}

#[test]
fn test_resolve_with_content_overrides_to_different_profile() {
    let config = config_of(
        r#"{
            "dprint": "/usr/bin/dprint",
            "profiles": {
                "default": "/config/default.jsonc",
                "strict": "/config/strict.jsonc"
            },
            "match": { "**": "default" },
            "match_content": {
                "@format:strict": "strict"
            }
        }"#,
    );
    let matcher = ProfileMatcher::from_config(&config).unwrap();
    let result = matcher
        .resolve_config(
            "/tmp/dprintx-test-content-override/strict_file.go",
            &config,
            Some("// @format:strict\npackage main\n"),
        )
        .unwrap();
    assert_eq!(result, config_path("/config/strict.jsonc"));
}

#[test]
fn test_resolve_with_content_undefined_profile_errors() {
    let config = config_of(
        r#"{
            "dprint": "/usr/bin/dprint",
            "profiles": {
                "default": "/config/default.jsonc"
            },
            "match": { "**": "default" },
            "match_content": {
                "DO NOT EDIT": "nonexistent_profile"
            }
        }"#,
    );
    let matcher = ProfileMatcher::from_config(&config).unwrap();

    let result = matcher.resolve_config(
        "/tmp/dprintx-test-content-undef/test.go",
        &config,
        Some("// DO NOT EDIT\npackage main\n"),
    );
    assert!(result.is_err());
    let error = result.unwrap_err();
    assert!(error.message().contains("not defined in profiles"));
    assert_eq!(error, ResolveError::UnknownContentProfile("nonexistent_profile".to_string()));
    assert_eq!(
        error.message(),
        "profile 'nonexistent_profile' referenced in match_content but not defined in profiles"
    );
}

fn do_not_edit_config() -> DprintxConfig {
    config_of(
        r#"{
            "dprint": "/usr/bin/dprint",
            "profiles": {
                "default": "/config/default.jsonc",
                "ignore": null
            },
            "match": { "**": "default" },
            "match_content": {
                "DO NOT EDIT": "ignore"
            }
        }"#,
    )
}

#[test]
fn test_resolve_with_content_unreadable_file_fallback() {
    let config = do_not_edit_config();
    let matcher = ProfileMatcher::from_config(&config).unwrap();
    let result = matcher.resolve_config("/nonexistent/file.go", &config, None).unwrap();
    assert_eq!(result, config_path("/config/default.jsonc"));
}

#[test]
fn test_content_match_scans_entire_file() {
    let mut content = String::new();
    for i in 0..1500 {
        content.push_str(&format!("// line {i:04} padding padding padding\n"));
    }
    content.push_str("// DO NOT EDIT\n");
    content.push_str("package main\n");
    assert!(content.len() > 40_000);

    let config = do_not_edit_config();
    let matcher = ProfileMatcher::from_config(&config).unwrap();

    let result = matcher
        .resolve_config("/tmp/dprintx-test-full-scan/late_marker.go", &config, Some(&content))
        .unwrap();
    assert_eq!(result, Some(ProfileResolution::Ignore));

    let result = matcher
        .resolve_config(
            "/tmp/dprintx-test-full-scan/normal.go",
            &config,
            Some("package main\n\nfunc main() {}\n"),
        )
        .unwrap();
    assert_eq!(result, config_path("/config/default.jsonc"));
}

#[test]
fn test_content_match_caret_multiline_mode() {
    let config = config_of(
        r#"{
            "dprint": "/usr/bin/dprint",
            "profiles": {
                "default": "/config/default.jsonc",
                "ignore": null
            },
            "match": { "**": "default" },
            "match_content": {
                "^// Code generated .+ DO NOT EDIT": "ignore"
            }
        }"#,
    );
    let matcher = ProfileMatcher::from_config(&config).unwrap();
    let result = matcher
        .resolve_config(
            "/tmp/dprintx-test-caret-ml/caret.go",
            &config,
            Some("package main\n\nimport \"fmt\"\n// Code generated by tool. DO NOT EDIT\n"),
        )
        .unwrap();
    assert_eq!(result, Some(ProfileResolution::Ignore));
}

fn two_markers_config() -> DprintxConfig {
    config_of(
        r#"{
            "dprint": "/usr/bin/dprint",
            "profiles": {
                "default": "/config/default.jsonc",
                "ignore": null,
                "strict": "/config/strict.jsonc"
            },
            "match": { "**": "default" },
            "match_content": {
                "DO NOT EDIT": "ignore",
                "@format:strict": "strict"
            }
        }"#,
    )
}

#[test]
fn test_resolve_with_content_first_match_wins_files() {
    let config = two_markers_config();
    let matcher = ProfileMatcher::from_config(&config).unwrap();
    let result = matcher
        .resolve_config(
            "/tmp/dprintx-test-content-fmw/both.go",
            &config,
            Some("// DO NOT EDIT\n// @format:strict\npackage main\n"),
        )
        .unwrap();
    assert_eq!(result, Some(ProfileResolution::Ignore));
}

#[test]
fn earlier_rule_wins_whatever_the_order_in_the_file() {
    let config = two_markers_config();
    let matcher = ProfileMatcher::from_config(&config).unwrap();
    let result = matcher
        .resolve_config("/x/both.go", &config, Some("// @format:strict\n// DO NOT EDIT\n"))
        .unwrap();
    assert_eq!(result, Some(ProfileResolution::Ignore));
}

#[test]
fn earlier_block_wins_over_earlier_rule() {
    let config = two_markers_config();
    let matcher = ProfileMatcher::from_config(&config).unwrap();
    let mut content = String::from("// @format:strict\n");
    while content.len() < 8192 {
        content.push_str("// padding padding padding padding\n");
    }
    content.push_str("// DO NOT EDIT\n");
    let result = matcher.resolve_config("/x/blocks.go", &config, Some(&content)).unwrap();
    assert_eq!(result, config_path("/config/strict.jsonc"));
}

#[test]
fn pattern_across_a_block_boundary_is_missed() {
    let config = do_not_edit_config();
    let matcher = ProfileMatcher::from_config(&config).unwrap();
    let mut content = String::new();
    while content.len() < 8192 - 40 {
        content.push_str("// padding padding padding padding\n");
    }
    while content.len() < 8192 - 7 {
        content.push('x');
    }
    content.push_str("DO NOT\n EDIT\n");
    assert!(content.find("DO NOT\n").unwrap() + 7 >= 8192);
    let config_multi = config_of(
        r#"{
            "dprint": "d",
            "profiles": { "default": "/config/default.jsonc", "ignore": null },
            "match": { "**": "default" },
            "match_content": { "DO NOT\n EDIT": "ignore" }
        }"#,
    );
    let multi = ProfileMatcher::from_config(&config_multi).unwrap();
    let result = multi.resolve_config("/x/split.go", &config_multi, Some(&content)).unwrap();
    assert_eq!(result, config_path("/config/default.jsonc"));
    let whole = multi.resolve_config("/x/split.go", &config_multi, Some("DO NOT\n EDIT\n")).unwrap();
    assert_eq!(whole, Some(ProfileResolution::Ignore));
    let result = matcher.resolve_config("/x/split.go", &config, Some(&content)).unwrap();
    assert_eq!(result, config_path("/config/default.jsonc"));
}

#[test]
fn content_scan_line_by_line() {
    let config = do_not_edit_config();
    let matcher = ProfileMatcher::from_config(&config).unwrap();
    let content = matcher.content_matcher().unwrap();
    let mut scan = ContentScan::new();
    assert_eq!(scan.feed("// DO NOT EDIT\n", content), None);
    assert_eq!(scan.finish(content).as_deref(), Some("ignore"));
    let scan = ContentScan::new();
    assert_eq!(scan.finish(content), None);
    let mut scan = ContentScan::new();
    let long = "x".repeat(8191);
    assert_eq!(scan.feed(&long, content), None);
    assert_eq!(scan.feed("DO NOT EDIT", content).as_deref(), Some("ignore"));
    let mut scan = ContentScan::new();
    let long = format!("DO NOT EDI{}\n", "x".repeat(8192));
    assert_eq!(scan.feed(&long, content), None);
    assert_eq!(scan.feed("T DO NOT EDIT\n", content), None);
    assert_eq!(scan.finish(content).as_deref(), Some("ignore"));
    assert_eq!(content.match_content("DO NOT EDIT"), Some("ignore"));
    assert_eq!(content.match_content("do not edit"), None);
    assert_eq!(content.match_text("a\nb DO NOT EDIT").as_deref(), Some("ignore"));
    assert_eq!(content.match_text(""), None);
}

#[test]
fn apply_content_overrides_only_a_path_resolution() {
    let config = do_not_edit_config();
    let matcher = ProfileMatcher::from_config(&config).unwrap();
    assert_eq!(matcher.apply_content(Ok(None), Some("ignore"), &config), Ok(None));
    assert_eq!(
        matcher.apply_content(Ok(config_path("/p")), Some("ignore"), &config),
        Ok(Some(ProfileResolution::Ignore))
    );
    assert_eq!(
        matcher.apply_content(Ok(config_path("/p")), None, &config),
        Ok(config_path("/p"))
    );
    assert_eq!(
        matcher.apply_content(Ok(config_path("/p")), Some("nope"), &config),
        Err(ResolveError::UnknownContentProfile("nope".to_string()))
    );
    let by_path = matcher.resolve_config_by_path("/a", &config);
    assert!(matcher.wants_content(&by_path));
}

#[test]
fn test_resolve_without_content_matcher() {
    let config = config_of(
        r#"{
            "dprint": "/usr/bin/dprint",
            "profiles": { "default": "/config/default.jsonc" },
            "match": { "**": "default" }
        }"#,
    );
    let matcher = ProfileMatcher::from_config(&config).unwrap();
    assert!(matcher.content_matcher().is_none());
    let result = matcher.resolve_config("/any/file.go", &config, Some("DO NOT EDIT")).unwrap();
    assert_eq!(result, config_path("/config/default.jsonc"));
}

#[test]
fn resolving_the_two_rule_example() {
    let config = config_of(
        r#"{
            "dprint": "d",
            "profiles": { "x": "/x.json", "y": "/y.json" },
            "match": { "**/a/**": "x", "**": "y" }
        }"#,
    );
    let matcher = ProfileMatcher::from_config(&config).unwrap();
    assert_eq!(matcher.resolve_config("/a/f.go", &config, None).unwrap(), config_path("/x.json"));
    assert_eq!(matcher.resolve_config("/b/f.go", &config, None).unwrap(), config_path("/y.json"));
}

#[test]
fn content_rules_example_resolves_to_ignore() {
    let config = config_of(
        r#"{
            "dprint": "d",
            "profiles": { "default": "/d.json", "ignore": null, "strict": "/s.json" },
            "match": { "**": "default" },
            "match_content": { "DO NOT EDIT": "ignore", "@format:strict": "strict" }
        }"#,
    );
    let matcher = ProfileMatcher::from_config(&config).unwrap();
    let result = matcher
        .resolve_config("/f.go", &config, Some("// @format:strict\n// DO NOT EDIT\n"))
        .unwrap();
    assert_eq!(result, Some(ProfileResolution::Ignore));
}

#[test]
fn invalid_patterns_are_reported() {
    let config = config_of(
        r#"{"dprint": "d", "profiles": {}, "match": {"ok/**": "p", "a/{b": "p", "[": "p"}}"#,
    );
    let error = ProfileMatcher::from_config(&config).err().unwrap();
    assert_eq!(error, MatcherError::InvalidGlob("a/{b".to_string()));
    assert_eq!(error.message(), "invalid glob pattern: a/{b");

    let nested = format!("{}{}", "{a".repeat(130), "}".repeat(130));
    let config = config_of(&format!(
        r#"{{"dprint": "d", "profiles": {{}}, "match": {{"ok/**": "p", "{nested}": "p"}}}}"#
    ));
    let error = ProfileMatcher::from_config(&config).err().unwrap();
    assert_eq!(error, MatcherError::InvalidGlob(nested));

    let config = config_of(
        r#"{"dprint": "d", "profiles": {}, "match": {"**": "p"},
            "match_content": {"fine": "p", "(": "p"}}"#,
    );
    let error = ProfileMatcher::from_config(&config).err().unwrap();
    assert_eq!(error, MatcherError::InvalidRegex("(".to_string()));
    assert_eq!(error.message(), "invalid content pattern: (");
}

#[test]
fn long_and_nested_patterns_are_compiled() {
    let long = format!("/{}/**", "a".repeat(5000));
    let nested = "/x/{a,{b,{c,{d,e}}}}/*.rs";
    let config = config_of(&format!(
        r#"{{"dprint": "d", "profiles": {{"p": "/p.json", "q": "/q.json"}},
            "match": {{"{long}": "p", "{nested}": "q"}}}}"#
    ));
    let matcher = ProfileMatcher::from_config(&config).unwrap();
    assert_eq!(matcher.match_profile(&format!("/{}/f.go", "a".repeat(5000))), Some("p"));
    assert_eq!(matcher.match_profile(&format!("/{}/f.go", "a".repeat(4999))), None);
    assert_eq!(matcher.match_profile("/x/e/lib.rs"), Some("q"));
    assert_eq!(matcher.match_profile("/x/a/lib.rs"), Some("q"));
    assert_eq!(matcher.match_profile("/x/f/lib.rs"), None);
}

#[test]
fn every_kind_of_glob_matches() {
    let config = config_of(
        r#"{"dprint": "d", "profiles": {},
            "match": {"Makefile": "literal", "**/Cargo.toml": "basename", "*.md": "extension",
                      "/opt/**": "prefix", "**/target/debug": "suffix", "**/src/**/*.rs": "required",
                      "/h?me/[a-c]*": "regex"}}"#,
    );
    let matcher = ProfileMatcher::from_config(&config).unwrap();
    assert_eq!(matcher.match_profile("Makefile"), Some("literal"));
    assert_eq!(matcher.match_profile("/w/Cargo.toml"), Some("basename"));
    assert_eq!(matcher.match_profile("/w/README.md"), Some("extension"));
    assert_eq!(matcher.match_profile("/opt/x/y"), Some("prefix"));
    assert_eq!(matcher.match_profile("/w/target/debug"), Some("suffix"));
    assert_eq!(matcher.match_profile("/w/src/a/b.rs"), Some("required"));
    assert_eq!(matcher.match_profile("/home/bob"), Some("regex"));
    assert_eq!(matcher.match_profile("/home/dan"), None);
    assert_eq!(matcher.match_profile("/w/Makefile"), None);
}
