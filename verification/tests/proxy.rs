use dprintx::config::DprintxConfig;
use dprintx::json::parse;
use dprintx::matcher::ProfileMatcher;
use dprintx::proxy::{distinct_profile_configs, Action, Event, LspProxy};

fn proxy_of(json: &str) -> LspProxy {
    let config = DprintxConfig::parse(json, None).unwrap();
    let matcher = ProfileMatcher::from_config(&config).unwrap();
    LspProxy::new(config.dprint_path(), matcher, config)
}

const TWO_PROFILES: &str = r#"{
    "dprint": "/usr/bin/dprint",
    "profiles": { "a": "/cfg/a/dprint.json", "b": "/cfg/b/dprint.json", "skip": null },
    "match": { "**/a/**": "a", "**/gen/**": "skip", "**/aa/**": "a", "**": "b" }
}"#;

fn client(text: &str) -> Event {
    Event::Client(Some(text.to_string()))
}

fn received(text: &str) -> Event {
    Event::Received(Some(text.to_string()))
}

fn spawn(config: &str) -> Action {
    Action::Spawn { config: config.to_string() }
}

fn send(config: &str, body: &str) -> Action {
    Action::Send { config: config.to_string(), body: body.to_string() }
}

fn receive(config: &str) -> Action {
    Action::Receive { config: config.to_string() }
}

fn reply(body: &str) -> Action {
    Action::Reply { body: body.to_string() }
}

const INIT: &str = r#"{"jsonrpc":"2.0","id":7,"method":"initialize","params":{"rootUri":"file:///w","capabilities":{}}}"#;

fn init_for(dir: &str, id: &str) -> String {
    format!(
        r#"{{"jsonrpc":"2.0","id":{id},"method":"initialize","params":{{"rootUri":"file://{dir}","capabilities":{{}},"rootPath":"{dir}"}}}}"#
    )
}

/// Takes a proxy through `initialize` with two backends that both answer.
fn initialized_proxy() -> LspProxy {
    let mut proxy = proxy_of(TWO_PROFILES);
    assert_eq!(proxy.step(client(INIT)), spawn("/cfg/a/dprint.json"));
    assert_eq!(
        proxy.step(Event::Spawned(true)),
        send("/cfg/a/dprint.json", &init_for("/cfg/a", "7"))
    );
    assert_eq!(proxy.step(Event::Sent(true)), receive("/cfg/a/dprint.json"));
    assert_eq!(
        proxy.step(received(r#"{"jsonrpc":"2.0","id":7,"result":{"from":"a"}}"#)),
        spawn("/cfg/b/dprint.json")
    );
    assert_eq!(
        proxy.step(Event::Spawned(true)),
        send("/cfg/b/dprint.json", &init_for("/cfg/b", "7"))
    );
    assert_eq!(proxy.step(Event::Sent(true)), receive("/cfg/b/dprint.json"));
    assert_eq!(
        proxy.step(received(r#"{"jsonrpc":"2.0","id":7,"result":{"from":"b"}}"#)),
        reply(r#"{"jsonrpc":"2.0","id":7,"result":{"from":"a"}}"#)
    );
    assert_eq!(proxy.step(Event::Replied), Action::ReadClient);
    proxy
}

#[test]
fn initialize_starts_one_backend_per_profile_and_answers_once() {
    let proxy = initialized_proxy();
    assert_eq!(proxy.backends(), &vec!["/cfg/a/dprint.json", "/cfg/b/dprint.json"]);
    assert_eq!(proxy.dprint_bin(), "/usr/bin/dprint");
    assert_eq!(
        distinct_profile_configs(proxy.config()),
        vec!["/cfg/a/dprint.json", "/cfg/b/dprint.json"]
    );
}

#[test]
fn second_initialize_starts_nothing() {
    let mut proxy = initialized_proxy();
    assert_eq!(proxy.step(client(INIT)), Action::ReadClient);
    assert_eq!(proxy.backends().len(), 2);
}

#[test]
fn initialize_without_answer_sends_nothing_to_the_client() {
    let mut proxy = proxy_of(TWO_PROFILES);
    assert_eq!(
        proxy.step(client(r#"{"jsonrpc":"2.0","method":"initialize"}"#)),
        spawn("/cfg/a/dprint.json")
    );
    assert_eq!(
        proxy.step(Event::Spawned(true)),
        send(
            "/cfg/a/dprint.json",
            r#"{"jsonrpc":"2.0","id":null,"method":"initialize","params":{"rootUri":"file:///cfg/a","rootPath":"/cfg/a"}}"#
        )
    );
    assert_eq!(proxy.step(Event::Sent(true)), receive("/cfg/a/dprint.json"));
    assert_eq!(proxy.step(Event::Received(None)), spawn("/cfg/b/dprint.json"));
    assert_eq!(proxy.step(Event::Spawned(false)), Action::ReadClient);
    assert_eq!(proxy.backends(), &vec!["/cfg/a/dprint.json"]);
}

#[test]
fn notifications_before_a_response_go_to_the_client() {
    let mut proxy = proxy_of(TWO_PROFILES);
    assert_eq!(proxy.step(client(INIT)), spawn("/cfg/a/dprint.json"));
    proxy.step(Event::Spawned(true));
    assert_eq!(proxy.step(Event::Sent(true)), receive("/cfg/a/dprint.json"));
    let note = r#"{"jsonrpc":"2.0","method":"window/logMessage","params":{}}"#;
    assert_eq!(proxy.step(received(note)), reply(note));
    assert_eq!(proxy.step(Event::Replied), receive("/cfg/a/dprint.json"));
    assert_eq!(proxy.step(received(note)), reply(note));
    assert_eq!(proxy.step(Event::Replied), receive("/cfg/a/dprint.json"));
    assert_eq!(proxy.step(received("not json")), spawn("/cfg/b/dprint.json"));
}

#[test]
fn request_goes_to_the_backend_of_its_profile_only() {
    let mut proxy = initialized_proxy();
    let request = r#"{"jsonrpc":"2.0","id":12,"method":"textDocument/formatting","params":{"textDocument":{"uri":"file:///w/b/f.go"}}}"#;
    assert_eq!(
        proxy.step(client(request)),
        Action::Merge { dir: "/w/b".to_string(), profile_config: "/cfg/b/dprint.json".to_string() }
    );
    assert_eq!(proxy.step(Event::Merged(None)), send("/cfg/b/dprint.json", request));
    assert_eq!(proxy.step(Event::Sent(true)), receive("/cfg/b/dprint.json"));
    let response = r#"{"jsonrpc":"2.0","id":12,"result":[]}"#;
    assert_eq!(proxy.step(received(response)), reply(response));
    let relayed = parse(response).unwrap();
    assert_eq!(relayed.get("id"), parse(request).unwrap().get("id"));
    assert_eq!(proxy.step(Event::Replied), Action::ReadClient);
    assert_eq!(proxy.backends().len(), 2);
}

#[test]
fn silent_backend_gives_a_null_result_and_the_next_request_is_served() {
    let mut proxy = initialized_proxy();
    let request = r#"{"jsonrpc":"2.0","id":"r1","method":"textDocument/formatting","params":{"textDocument":{"uri":"file:///w/a/f.go"}}}"#;
    assert!(matches!(proxy.step(client(request)), Action::Merge { .. }));
    assert_eq!(proxy.step(Event::Merged(None)), send("/cfg/a/dprint.json", request));
    assert_eq!(proxy.step(Event::Sent(true)), receive("/cfg/a/dprint.json"));
    assert_eq!(
        proxy.step(Event::Received(None)),
        reply(r#"{"jsonrpc":"2.0","id":"r1","result":null}"#)
    );
    assert_eq!(proxy.step(Event::Replied), Action::ReadClient);

    let next = r#"{"jsonrpc":"2.0","id":2,"method":"textDocument/formatting","params":{"textDocument":{"uri":"file:///w/b/f.go"}}}"#;
    assert!(matches!(proxy.step(client(next)), Action::Merge { .. }));
    assert_eq!(proxy.step(Event::Merged(None)), send("/cfg/b/dprint.json", next));
}

#[test]
fn merged_configuration_gets_a_backend_of_its_own() {
    let mut proxy = initialized_proxy();
    let request = r#"{"jsonrpc":"2.0","id":3,"method":"textDocument/formatting","params":{"textDocument":{"uri":"file:///w/a/my%20f.go"}}}"#;
    assert_eq!(
        proxy.step(client(request)),
        Action::Merge { dir: "/w/a".to_string(), profile_config: "/cfg/a/dprint.json".to_string() }
    );
    let merged = "/run/user/1/dprintx/merged-1-0.json";
    assert_eq!(proxy.step(Event::Merged(Some(merged.to_string()))), spawn(merged));
    assert_eq!(
        proxy.step(Event::Spawned(true)),
        send(merged, &init_for("/run/user/1/dprintx", "1"))
    );
    assert_eq!(proxy.step(Event::Sent(false)), receive(merged));
    assert_eq!(
        proxy.step(received(r#"{"id":1,"result":{}}"#)),
        send(merged, r#"{"jsonrpc":"2.0","method":"initialized","params":{}}"#)
    );
    assert_eq!(proxy.step(Event::Sent(true)), send(merged, request));
    assert_eq!(proxy.step(Event::Sent(true)), receive(merged));
    assert_eq!(proxy.step(received(r#"{"id":3,"result":null}"#)), reply(r#"{"id":3,"result":null}"#));
    assert_eq!(proxy.step(Event::Replied), Action::ReadClient);
    assert_eq!(proxy.backends().len(), 3);

    assert!(matches!(proxy.step(client(request)), Action::Merge { .. }));
    assert_eq!(proxy.step(Event::Merged(Some(merged.to_string()))), send(merged, request));
}

#[test]
fn lazy_backend_without_initialize_gets_no_handshake() {
    let mut proxy = proxy_of(TWO_PROFILES);
    let note = r#"{"jsonrpc":"2.0","method":"textDocument/didOpen","params":{"textDocument":{"uri":"file:///w/a/f.go"}}}"#;
    assert!(matches!(proxy.step(client(note)), Action::Merge { .. }));
    assert_eq!(proxy.step(Event::Merged(None)), spawn("/cfg/a/dprint.json"));
    assert_eq!(proxy.step(Event::Spawned(true)), send("/cfg/a/dprint.json", note));
    assert_eq!(proxy.step(Event::Sent(true)), Action::ReadClient);
}

#[test]
fn failed_spawn_or_send_gives_up_the_request_only() {
    let mut proxy = proxy_of(TWO_PROFILES);
    let request = r#"{"jsonrpc":"2.0","id":1,"method":"textDocument/formatting","params":{"textDocument":{"uri":"file:///w/a/f.go"}}}"#;
    proxy.step(client(request));
    assert_eq!(proxy.step(Event::Merged(None)), spawn("/cfg/a/dprint.json"));
    assert_eq!(proxy.step(Event::Spawned(false)), Action::ReadClient);
    assert!(proxy.backends().is_empty());
    proxy.step(client(request));
    assert_eq!(proxy.step(Event::Merged(None)), spawn("/cfg/a/dprint.json"));
    assert_eq!(proxy.step(Event::Spawned(true)), send("/cfg/a/dprint.json", request));
    assert_eq!(proxy.step(Event::Sent(false)), Action::ReadClient);
    assert!(matches!(proxy.step(client(request)), Action::Merge { .. }));
}

#[test]
fn unresolved_documents() {
    let mut proxy = proxy_of(
        r#"{"dprint": "d", "profiles": {"a": "/cfg/a.json", "skip": null},
            "match": {"**/a/**": "a", "**/gen/**": "skip", "**/x/**": "missing"}}"#,
    );
    let request = |id: &str, uri: &str| {
        format!(
            r#"{{"jsonrpc":"2.0","id":{id},"method":"textDocument/formatting","params":{{"textDocument":{{"uri":"{uri}"}}}}}}"#
        )
    };
    assert_eq!(
        proxy.step(client(&request("1", "file:///w/other/f.go"))),
        reply(r#"{"jsonrpc":"2.0","id":1,"result":null}"#)
    );
    assert_eq!(proxy.step(Event::Replied), Action::ReadClient);
    assert_eq!(
        proxy.step(client(&request("2", "file:///w/gen/f.go"))),
        reply(r#"{"jsonrpc":"2.0","id":2,"result":null}"#)
    );
    assert_eq!(proxy.step(Event::Replied), Action::ReadClient);
    assert_eq!(
        proxy.step(client(&request("3", "file:///w/x/f.go"))),
        reply(r#"{"jsonrpc":"2.0","id":3,"result":null}"#)
    );
    assert_eq!(proxy.step(Event::Replied), Action::ReadClient);
    let note = r#"{"jsonrpc":"2.0","method":"textDocument/didOpen","params":{"textDocument":{"uri":"file:///w/other/f.go"}}}"#;
    assert_eq!(proxy.step(client(note)), Action::ReadClient);
    let no_uri = r#"{"jsonrpc":"2.0","id":4,"method":"textDocument/formatting","params":{}}"#;
    assert_eq!(proxy.step(client(no_uri)), Action::ReadClient);
    assert_eq!(proxy.step(client("not json")), Action::ReadClient);
}

#[test]
fn content_rules_are_asked_only_after_a_path_match() {
    let mut proxy = proxy_of(
        r#"{"dprint": "d", "profiles": {"a": "/cfg/a.json", "skip": null, "s": "/cfg/s.json"},
            "match": {"**/a/**": "a"},
            "match_content": {"DO NOT EDIT": "skip", "@strict": "s", "@none": "missing"}}"#,
    );
    let request = |id: &str, uri: &str| {
        format!(
            r#"{{"jsonrpc":"2.0","id":{id},"method":"textDocument/formatting","params":{{"textDocument":{{"uri":"{uri}"}}}}}}"#
        )
    };
    assert_eq!(
        proxy.step(client(&request("1", "file:///w/b/f.go"))),
        reply(r#"{"jsonrpc":"2.0","id":1,"result":null}"#)
    );
    proxy.step(Event::Replied);
    assert_eq!(
        proxy.step(client(&request("2", "file:///w/a/f.go"))),
        Action::ScanContent { path: "/w/a/f.go".to_string() }
    );
    assert_eq!(
        proxy.step(Event::Content(Some("skip".to_string()))),
        reply(r#"{"jsonrpc":"2.0","id":2,"result":null}"#)
    );
    proxy.step(Event::Replied);
    proxy.step(client(&request("3", "file:///w/a/f.go")));
    assert_eq!(
        proxy.step(Event::Content(Some("s".to_string()))),
        Action::Merge { dir: "/w/a".to_string(), profile_config: "/cfg/s.json".to_string() }
    );
    assert_eq!(proxy.step(Event::Merged(None)), spawn("/cfg/s.json"));
    proxy.step(Event::Spawned(false));
    proxy.step(client(&request("4", "file:///w/a/f.go")));
    assert_eq!(
        proxy.step(Event::Content(None)),
        Action::Merge { dir: "/w/a".to_string(), profile_config: "/cfg/a.json".to_string() }
    );
    proxy.step(Event::Merged(None));
    proxy.step(Event::Spawned(false));
    proxy.step(client(&request("5", "file:///w/a/f.go")));
    assert_eq!(
        proxy.step(Event::Content(Some("missing".to_string()))),
        reply(r#"{"jsonrpc":"2.0","id":5,"result":null}"#)
    );
}

#[test]
fn shutdown_and_exit_go_to_every_backend() {
    let mut proxy = initialized_proxy();
    let note = r#"{"jsonrpc":"2.0","method":"initialized","params":{}}"#;
    assert_eq!(proxy.step(client(note)), send("/cfg/a/dprint.json", note));
    assert_eq!(proxy.step(Event::Sent(false)), send("/cfg/b/dprint.json", note));
    assert_eq!(proxy.step(Event::Sent(true)), Action::ReadClient);

    let shutdown = r#"{"jsonrpc":"2.0","id":9,"method":"shutdown"}"#;
    assert_eq!(proxy.step(client(shutdown)), send("/cfg/a/dprint.json", shutdown));
    assert_eq!(proxy.step(Event::Sent(true)), receive("/cfg/a/dprint.json"));
    assert_eq!(proxy.step(received(r#"{"id":9,"result":null}"#)), send("/cfg/b/dprint.json", shutdown));
    assert_eq!(proxy.step(Event::Sent(true)), receive("/cfg/b/dprint.json"));
    assert_eq!(
        proxy.step(Event::Received(None)),
        reply(r#"{"jsonrpc":"2.0","id":9,"result":null}"#)
    );
    assert_eq!(proxy.step(Event::Replied), Action::ReadClient);

    let exit = r#"{"jsonrpc":"2.0","method":"exit"}"#;
    assert_eq!(proxy.step(client(exit)), send("/cfg/a/dprint.json", exit));
    assert_eq!(proxy.step(Event::Sent(true)), send("/cfg/b/dprint.json", exit));
    assert_eq!(proxy.step(Event::Sent(true)), Action::Stop);
    assert_eq!(proxy.step(client(exit)), Action::Stop);
}

#[test]
fn other_requests_are_answered_by_the_first_backend() {
    let mut proxy = initialized_proxy();
    let request = r#"{"jsonrpc":"2.0","id":5,"method":"workspace/symbol","params":{}}"#;
    assert_eq!(proxy.step(client(request)), send("/cfg/a/dprint.json", request));
    assert_eq!(proxy.step(Event::Sent(true)), send("/cfg/b/dprint.json", request));
    assert_eq!(proxy.step(Event::Sent(true)), receive("/cfg/a/dprint.json"));
    assert_eq!(
        proxy.step(Event::Received(None)),
        reply(r#"{"jsonrpc":"2.0","id":5,"result":null}"#)
    );
    assert_eq!(proxy.step(Event::Replied), Action::ReadClient);

    let mut empty = proxy_of(TWO_PROFILES);
    assert_eq!(empty.step(client(request)), Action::ReadClient);
    assert_eq!(empty.step(client(r#"{"id":1}"#)), Action::ReadClient);
}

#[test]
fn closed_client_or_stray_event_ends_the_session() {
    let mut proxy = proxy_of(TWO_PROFILES);
    assert_eq!(proxy.step(Event::Client(None)), Action::Stop);
    let mut proxy = proxy_of(TWO_PROFILES);
    assert_eq!(proxy.step(Event::Replied), Action::Stop);
    let mut proxy = proxy_of(TWO_PROFILES);
    proxy.step(client(INIT));
    assert_eq!(proxy.step(Event::Sent(true)), Action::Stop);
}
