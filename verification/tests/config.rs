use dprintx::config::{
    build_merged_config, default_config_path, expand_tilde, expand_tilde_with, find_local_config,
    inject_extends, local_config_candidates, merged_config_dir, merged_config_name, needs_merge,
    read_local_config, ConfigError, DprintxConfig, MergeError, ProfileResolution, TempConfig,
};
use dprintx::json::{parse, Json};
use dprintx::jsonc::{strip_jsonc_comments, strip_trailing_commas};
use std::path::PathBuf;

fn number(n: u64) -> Json {
    Json::Number(serde_json::Number::from(n))
}

fn text(s: &str) -> Json {
    Json::Str(s.to_string())
}

fn object(members: Vec<(&str, Json)>) -> Json {
    Json::Object(members.into_iter().map(|(k, v)| (k.to_string(), v)).collect())
}

fn member<'a>(j: &'a Json, key: &str) -> &'a Json {
    j.get(key).unwrap()
}

fn items(j: &Json) -> &Vec<Json> {
    match j {
        Json::Array(a) => a,
        _ => panic!("expected an array"),
    }
}

#[test]
fn test_strip_jsonc_comments() {
    let input = r#"{
  // line comment
  "key": "value", // inline comment
  /* block comment */
  "key2": "val with // not a comment"
}"#;
    let result = strip_jsonc_comments(input);
    assert!(result.contains("\"key\": \"value\""));
    assert!(result.contains("\"key2\": \"val with // not a comment\""));
    assert!(!result.contains("line comment"));
    assert!(!result.contains("inline comment"));
    assert!(!result.contains("block comment"));
}

#[test]
fn test_strip_trailing_commas() {
    let input = r#"{"a": 1, "b": 2,}"#;
    let result = strip_trailing_commas(input);
    assert_eq!(result, r#"{"a": 1, "b": 2}"#);
}

#[test]
fn strip_keeps_line_feed_and_escaped_quotes() {
    assert_eq!(strip_jsonc_comments("1 // x\n2"), "1 \n2");
    assert_eq!(strip_jsonc_comments(r#""a\"//b" /* c */ 1"#), r#""a\"//b"  1"#);
    assert_eq!(strip_jsonc_comments("[1, 2 , \n ]"), "[1, 2  \n ]");
    assert_eq!(strip_jsonc_comments(r#"[",]", 1]"#), r#"[",]", 1]"#);
}

#[test]
fn strip_unclosed_block_comment_keeps_last_character() {
    assert_eq!(strip_jsonc_comments("1 /* abc"), "1 c");
    assert_eq!(strip_jsonc_comments("1 /*"), "1 ");
    assert_eq!(strip_jsonc_comments("1 /* a */"), "1 ");
}

#[test]
fn strip_comma_uncovered_by_a_comment() {
    assert_eq!(strip_jsonc_comments("[1, // one\n]"), "[1 \n]");
    assert_eq!(strip_trailing_commas("[1, // one\n]"), "[1, // one\n]");
}

#[test]
fn test_expand_tilde() {
    let home = dirs::home_dir().unwrap();
    let result = expand_tilde("~/foo/bar");
    assert_eq!(PathBuf::from(result), home.join("foo/bar"));

    let result = expand_tilde("/absolute/path");
    assert_eq!(PathBuf::from(result), PathBuf::from("/absolute/path"));
}

#[test]
fn expand_tilde_with_given_home() {
    assert_eq!(expand_tilde_with("~/foo/bar", Some("/home/alice")), "/home/alice/foo/bar");
    assert_eq!(expand_tilde_with("~/foo", None), "~/foo");
    assert_eq!(expand_tilde_with("~foo", Some("/home/alice")), "~foo");
    assert_eq!(expand_tilde_with("~", Some("/home/alice")), "~");
    assert_eq!(expand_tilde_with("a/~/b", Some("/home/alice")), "a/~/b");
    assert_eq!(expand_tilde_with("~//etc", Some("/home/alice")), "/etc");
}

#[test]
fn test_parse_full_dprintx_jsonc() {
    let input = r#"{
  // Path to real dprint binary
  "dprint": "~/.cargo/bin/dprint",
  "profiles": {
    "maintainer": "~/.config/dprint/dprint-maintainer.jsonc",
    "default": "~/.config/dprint/dprint-default.jsonc",
  },
  "match": {
    "**/noc/cmdb/**": "maintainer",
    "**/noc/invapi/**": "maintainer",
    /* catch-all */
    "**": "default",
  },
}"#;
    let config = DprintxConfig::parse(input, None).unwrap();

    assert_eq!(config.dprint, "~/.cargo/bin/dprint");
    assert_eq!(config.profiles.len(), 2);

    let rules = config.match_rules_iter();
    let rules: Vec<(&str, &str)> = rules.iter().map(|(p, n)| (p.as_str(), n.as_str())).collect();
    assert_eq!(rules.len(), 3);
    assert_eq!(rules[0], ("**/noc/cmdb/**", "maintainer"));
    assert_eq!(rules[1], ("**/noc/invapi/**", "maintainer"));
    assert_eq!(rules[2], ("**", "default"));
}

#[test]
fn config_optional_members() {
    let config = DprintxConfig::parse(
        r#"{"dprint": "d", "profiles": {}, "match": {}, "extra": 1}"#,
        Some("/h".to_string()),
    )
    .unwrap();
    assert!(config.match_content.is_none());
    assert_eq!(config.diff_pager, None);
    assert!(!config.lsp_rewrite_uris);
    assert_eq!(config.home.as_deref(), Some("/h"));
    assert!(config.match_content_rules_iter().is_empty());

    let config = DprintxConfig::parse(
        r#"{"dprint": "~/bin/d", "profiles": {}, "match": {"a": 1, "b": "p"},
            "match_content": {"x": "p", "y": null}, "diff_pager": "delta -s",
            "lsp_rewrite_uris": true}"#,
        Some("/h".to_string()),
    )
    .unwrap();
    assert_eq!(config.diff_pager.as_deref(), Some("delta -s"));
    assert!(config.lsp_rewrite_uris);
    assert_eq!(config.match_rules_iter(), vec![("b".to_string(), "p".to_string())]);
    assert_eq!(config.match_content_rules_iter(), vec![("x".to_string(), "p".to_string())]);
    assert_eq!(config.dprint_path(), "/h/bin/d");
}

#[test]
fn config_errors() {
    assert_eq!(DprintxConfig::parse("{", None).unwrap_err(), ConfigError::Syntax);
    assert_eq!(DprintxConfig::parse("[]", None).unwrap_err(), ConfigError::Shape);
    assert_eq!(
        DprintxConfig::parse(r#"{"profiles": {}, "match": {}}"#, None).unwrap_err(),
        ConfigError::Shape
    );
    assert_eq!(
        DprintxConfig::parse(r#"{"dprint": 1, "profiles": {}, "match": {}}"#, None).unwrap_err(),
        ConfigError::Shape
    );
    assert_eq!(
        DprintxConfig::parse(r#"{"dprint": "d", "profiles": [], "match": {}}"#, None).unwrap_err(),
        ConfigError::Shape
    );
    assert_eq!(
        DprintxConfig::parse(r#"{"dprint": "d", "profiles": {}, "match": {}, "diff_pager": 1}"#, None)
            .unwrap_err(),
        ConfigError::Shape
    );
    assert_eq!(
        DprintxConfig::parse(
            r#"{"dprint": "d", "profiles": {}, "match": {}, "lsp_rewrite_uris": null}"#,
            None
        )
        .unwrap_err(),
        ConfigError::Shape
    );
    assert!(ConfigError::Syntax.message().contains("invalid dprintx.jsonc format"));
    assert!(ConfigError::Shape.message().contains("invalid dprintx.jsonc format"));
}

#[test]
fn profile_lookup() {
    let config = DprintxConfig::parse(
        r#"{"dprint": "d", "profiles": {"a": "~/a.json", "skip": null, "odd": 3}, "match": {}}"#,
        Some("/h".to_string()),
    )
    .unwrap();
    assert_eq!(config.profile_config_path("a").as_deref(), Some("/h/a.json"));
    assert_eq!(config.profile_config_path("skip"), None);
    assert_eq!(config.profile_config_path("none"), None);
    assert_eq!(
        config.resolve_profile("a"),
        Some(ProfileResolution::Config("/h/a.json".to_string()))
    );
    assert_eq!(config.resolve_profile("skip"), Some(ProfileResolution::Ignore));
    assert_eq!(config.resolve_profile("odd"), None);
    assert_eq!(config.resolve_profile("none"), None);
}

#[test]
fn test_inject_extends_absent() {
    let mut config = object(vec![("typescript", object(vec![("lineWidth", number(120))]))]);
    inject_extends(&mut config, "/profiles/main.jsonc");
    assert_eq!(member(&config, "extends"), &text("/profiles/main.jsonc"));
}

#[test]
fn test_inject_extends_string() {
    let mut config = object(vec![("extends", text("https://example.com/base.json"))]);
    inject_extends(&mut config, "/profiles/main.jsonc");
    let extends = items(member(&config, "extends"));
    assert_eq!(extends.len(), 2);
    assert_eq!(extends[0], text("/profiles/main.jsonc"));
    assert_eq!(extends[1], text("https://example.com/base.json"));
}

#[test]
fn test_inject_extends_array() {
    let mut config = object(vec![(
        "extends",
        Json::Array(vec![text("https://a.com/base.json"), text("https://b.com/extra.json")]),
    )]);
    inject_extends(&mut config, "/profiles/main.jsonc");
    let extends = items(member(&config, "extends"));
    assert_eq!(extends.len(), 3);
    assert_eq!(extends[0], text("/profiles/main.jsonc"));
    assert_eq!(extends[1], text("https://a.com/base.json"));
    assert_eq!(extends[2], text("https://b.com/extra.json"));
}

#[test]
fn inject_extends_other_shapes_and_order() {
    let mut config = object(vec![("extends", number(1)), ("a", Json::Null)]);
    inject_extends(&mut config, "/p");
    assert_eq!(config, object(vec![("extends", text("/p")), ("a", Json::Null)]));

    let mut config = object(vec![
        ("a", number(1)),
        ("extends", text("u")),
        ("b", number(2)),
        ("c", number(3)),
    ]);
    inject_extends(&mut config, "/p");
    assert_eq!(
        config,
        object(vec![
            ("a", number(1)),
            ("c", number(3)),
            ("b", number(2)),
            ("extends", Json::Array(vec![text("/p"), text("u")])),
        ])
    );

    let mut config = Json::Array(vec![]);
    inject_extends(&mut config, "/p");
    assert_eq!(config, Json::Array(vec![]));
}

#[test]
fn test_find_local_config_direct() {
    let dir = "/tmp/dprintx-test-find-direct";
    let files = vec!["/tmp/dprintx-test-find-direct/dprint.json".to_string()];
    let result = find_local_config(dir, &files);
    assert_eq!(result, Some("/tmp/dprintx-test-find-direct/dprint.json".to_string()));
}

#[test]
fn test_find_local_config_walkup() {
    let sub = "/tmp/dprintx-test-find-walkup/a/b/c";
    let files = vec!["/tmp/dprintx-test-find-walkup/dprint.jsonc".to_string()];
    let result = find_local_config(sub, &files);
    assert_eq!(result, Some("/tmp/dprintx-test-find-walkup/dprint.jsonc".to_string()));
}

#[test]
fn test_find_local_config_prefers_json_over_jsonc() {
    let dir = "/tmp/dprintx-test-find-prefer";
    let files = vec![
        "/tmp/dprintx-test-find-prefer/dprint.jsonc".to_string(),
        "/tmp/dprintx-test-find-prefer/dprint.json".to_string(),
    ];
    let result = find_local_config(dir, &files);
    assert_eq!(result, Some("/tmp/dprintx-test-find-prefer/dprint.json".to_string()));
}

#[test]
fn test_find_local_config_none() {
    let result = find_local_config("/tmp/dprintx-test-find-none", &vec![]);
    assert_eq!(result, None);
}

#[test]
fn local_config_candidates_walk_to_the_root() {
    assert_eq!(
        local_config_candidates("/a/b"),
        vec![
            "/a/b/dprint.json",
            "/a/b/dprint.jsonc",
            "/a/dprint.json",
            "/a/dprint.jsonc",
            "/dprint.json",
            "/dprint.jsonc",
        ]
    );
    assert_eq!(
        local_config_candidates("x"),
        vec!["x/dprint.json", "x/dprint.jsonc", "dprint.json", "dprint.jsonc"]
    );
    let nearer = vec!["/a/dprint.jsonc".to_string(), "/dprint.json".to_string()];
    assert_eq!(find_local_config("/a/b", &nearer), Some("/a/dprint.jsonc".to_string()));
}

#[test]
fn test_build_merged_config_no_local() {
    let local = find_local_config("/nonexistent/dir", &vec![]);
    let result = build_merged_config(
        local.as_deref().map(|path| (path, "")),
        "/profiles/main.jsonc",
        "/tmp/dprintx",
        1,
        0,
    )
    .unwrap();
    assert!(result.is_none());
}

#[test]
fn local_configuration_that_is_the_profile_is_not_merged() {
    let files = vec!["/d/dprint.json".to_string()];
    let local = find_local_config("/d", &files);
    assert_eq!(local.as_deref(), Some("/d/dprint.json"));
    let text = r#"{"typescript": {"lineWidth": 120}}"#;
    let result = build_merged_config(
        local.as_deref().map(|path| (path, text)),
        "/d/dprint.json",
        "/tmp/dprintx",
        1,
        0,
    );
    assert_eq!(result, Ok(None));
    let result =
        build_merged_config(Some(("/d//dprint.json", "not json")), "/d/dprint.json", "/t", 1, 0);
    assert_eq!(result, Ok(None));
    let result = build_merged_config(Some(("/d/dprint.json", text)), "/e/dprint.json", "/t", 1, 0);
    assert!(matches!(result, Ok(Some(_))));
}

#[test]
fn test_build_merged_config_with_local() {
    let files = vec!["/tmp/dprintx-test-build-merged/dprint.json".to_string()];
    let local = find_local_config("/tmp/dprintx-test-build-merged", &files);
    let (guard, content) = build_merged_config(
        local.as_deref().map(|path| (path, r#"{"typescript": {"lineWidth": 120}}"#)),
        "/profiles/main.jsonc",
        "/run/user/1/dprintx",
        42,
        7,
    )
    .unwrap()
    .unwrap();
    assert_eq!(guard.path(), "/run/user/1/dprintx/merged-42-7.json");
    let val = parse(&content).unwrap();
    assert_eq!(member(&val, "extends"), &text("/profiles/main.jsonc"));
    assert_eq!(member(member(&val, "typescript"), "lineWidth"), &number(120));
    assert_eq!(
        content,
        "{\n  \"typescript\": {\n    \"lineWidth\": 120\n  },\n  \"extends\": \"/profiles/main.jsonc\"\n}"
    );
}

#[test]
fn test_build_merged_config_preserves_existing_extends() {
    let files = vec!["/tmp/dprintx-test-build-merged-extends/dprint.json".to_string()];
    let local = find_local_config("/tmp/dprintx-test-build-merged-extends", &files);
    let (_guard, content) = build_merged_config(
        local.as_deref().map(|path| {
            (
                path,
                r#"{"extends": "https://example.com/base.json", "typescript": {"lineWidth": 80}}"#,
            )
        }),
        "/profiles/main.jsonc",
        "/tmp/dprintx",
        1,
        0,
    )
    .unwrap()
    .unwrap();
    let val = parse(&content).unwrap();
    let extends = items(member(&val, "extends"));
    assert_eq!(extends[0], text("/profiles/main.jsonc"));
    assert_eq!(extends[1], text("https://example.com/base.json"));
}

#[test]
fn merge_helpers() {
    assert!(needs_merge(Some("/a/dprint.json"), "/profiles/main.jsonc"));
    assert!(!needs_merge(Some("/a/dprint.json"), "/a/dprint.json"));
    assert!(!needs_merge(Some("/a//dprint.json"), "/a/dprint.json"));
    assert!(!needs_merge(None, "/a/dprint.json"));
    assert_eq!(merged_config_dir(Some("/run/user/1"), "/tmp"), "/run/user/1/dprintx");
    assert_eq!(merged_config_dir(None, "/tmp"), "/tmp/dprintx");
    assert_eq!(merged_config_name(0, 0), "merged-0-0.json");
    assert_eq!(merged_config_name(4294967295, 18446744073709551615), "merged-4294967295-18446744073709551615.json");
    assert_eq!(default_config_path("/home/a/.config"), "/home/a/.config/dprint/dprintx.jsonc");
    assert_eq!(TempConfig::new("/x/y.json".to_string()).path(), "/x/y.json");
    assert_eq!(
        build_merged_config(Some(("/a/dprint.json", "not json")), "/p", "/tmp", 1, 1).unwrap_err(),
        MergeError::Syntax
    );
}

#[test]
fn test_read_local_config_json() {
    let val = read_local_config(r#"{"plugins": ["https://example.com/plugin.wasm"]}"#).unwrap();
    assert!(matches!(val, Json::Object(_)));
    assert!(matches!(val.get("plugins").unwrap(), Json::Array(_)));
}

#[test]
fn test_read_local_config_jsonc() {
    let val = read_local_config(
        r#"{
                // local overrides
                "typescript": {
                    "lineWidth": 120,
                },
                "plugins": [
                    "https://example.com/plugin.wasm",
                ],
            }"#,
    )
    .unwrap();
    assert!(matches!(val, Json::Object(_)));
    assert_eq!(member(member(&val, "typescript"), "lineWidth"), &number(120));
}

#[test]
fn json_text_round_trip() {
    let value = parse(r#"{"b": [1, "x", null, true], "a": {"c": -2.5}}"#).unwrap();
    assert_eq!(value.to_text(), r#"{"b":[1,"x",null,true],"a":{"c":-2.5}}"#);
    assert_eq!(value.clone(), value);
    assert_eq!(value.get("a").unwrap().get("c").unwrap().as_str(), None);
    assert_eq!(parse(r#""s""#).unwrap().as_str(), Some("s"));
    assert_eq!(parse("{,}"), None);
    assert_eq!(Json::unsigned(1).to_text(), "1");
    assert_eq!(Json::empty_object().to_pretty_text(), "{}");
    let set = Json::Null.with_member("k", Json::string("v")).with_member("k", Json::Bool(true));
    assert_eq!(set.to_text(), r#"{"k":true}"#);
}
