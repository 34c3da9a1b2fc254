//! The multiplexing proxy: one client connection, one formatter backend per
//! effective configuration. The proxy decides; its owner reads and writes
//! the streams, starts the processes, and reports what happened.
//!
//! Each call of [`LspProxy::step`] takes the outcome of the last action and
//! gives the next one. The work for one client message is laid out as a
//! list of operations when the message arrives, and carried out one
//! operation at a time.

use vstd::prelude::*;
use vstd::string::StringExecFns;
use crate::config::{DprintxConfig, DprintxConfigView, ProfileResolution, ProfileResolutionView};
use crate::json::{
    json_parse, json_text, lemma_object_view, members_view, number_of, Json, JsonView,
};
use crate::lsp::{path_of_uri, uri_of};
use crate::matcher::{
    resolved_by_path, resolved_view, resolved_with_content, ProfileMatcher, ResolveError, Resolved,
};
use crate::paths::parent_of;
use crate::text::has_prefix;

verus! {

/// What becomes of the response that an operation waits for.
#[derive(Debug, PartialEq, Eq, Clone, Copy)]
pub enum Keep {
    /// It is kept as the answer to the client's `initialize`, where no
    /// earlier one is.
    First,
    /// It is dropped.
    Discard,
    /// It goes to the client; where none comes, the client gets a null
    /// result.
    Relay,
}

/// One operation of the work for a client message.
#[derive(Debug, PartialEq, Eq)]
pub enum Op {
    /// Start a backend for this configuration.
    Spawn { config: String },
    /// Send a message to a backend. Where a critical one cannot be sent, the
    /// rest of the work is given up.
    Send { config: String, body: String, critical: bool },
    /// Wait for the response of a backend; notifications that come before
    /// it go to the client.
    Await { config: String, keep: Keep, fallback: String },
    /// Send a message to the client.
    Reply { body: String },
    /// Send the client the kept answer to `initialize`, where there is one.
    ReplyFirst,
    /// End the session.
    Stop,
}

/// The mathematical value of an [`Op`].
pub enum OpView {
    Spawn { config: Seq<char> },
    Send { config: Seq<char>, body: Seq<char>, critical: bool },
    Await { config: Seq<char>, keep: Keep, fallback: Seq<char> },
    Reply { body: Seq<char> },
    ReplyFirst,
    Stop,
}

impl DeepView for Op {
    type V = OpView;

    open spec fn deep_view(&self) -> OpView {
        match self {
            Op::Spawn { config } => OpView::Spawn { config: config@ },
            Op::Send { config, body, critical } => OpView::Send {
                config: config@,
                body: body@,
                critical: *critical,
            },
            Op::Await { config, keep, fallback } => OpView::Await {
                config: config@,
                keep: *keep,
                fallback: fallback@,
            },
            Op::Reply { body } => OpView::Reply { body: body@ },
            Op::ReplyFirst => OpView::ReplyFirst,
            Op::Stop => OpView::Stop,
        }
    }
}

/// What the owner of the proxy is to do next.
#[derive(Debug, PartialEq, Eq)]
pub enum Action {
    /// Read the next message of the client.
    ReadClient,
    /// Scan the content of this file with the content rules.
    ScanContent { path: String },
    /// Look for a local configuration from this directory upward and merge
    /// it with the profile's configuration.
    Merge { dir: String, profile_config: String },
    /// Start a backend with this configuration.
    Spawn { config: String },
    /// Send this message to the backend of this configuration.
    Send { config: String, body: String },
    /// Wait, no longer than the read timeout, for the next message of the
    /// backend of this configuration.
    Receive { config: String },
    /// Send this message to the client.
    Reply { body: String },
    /// End the session.
    Stop,
}

/// The mathematical value of an [`Action`].
pub enum ActionView {
    ReadClient,
    ScanContent { path: Seq<char> },
    Merge { dir: Seq<char>, profile_config: Seq<char> },
    Spawn { config: Seq<char> },
    Send { config: Seq<char>, body: Seq<char> },
    Receive { config: Seq<char> },
    Reply { body: Seq<char> },
    Stop,
}

impl DeepView for Action {
    type V = ActionView;

    open spec fn deep_view(&self) -> ActionView {
        match self {
            Action::ReadClient => ActionView::ReadClient,
            Action::ScanContent { path } => ActionView::ScanContent { path: path@ },
            Action::Merge { dir, profile_config } => ActionView::Merge {
                dir: dir@,
                profile_config: profile_config@,
            },
            Action::Spawn { config } => ActionView::Spawn { config: config@ },
            Action::Send { config, body } => ActionView::Send { config: config@, body: body@ },
            Action::Receive { config } => ActionView::Receive { config: config@ },
            Action::Reply { body } => ActionView::Reply { body: body@ },
            Action::Stop => ActionView::Stop,
        }
    }
}

/// What happened when the last action was carried out.
#[derive(Debug, PartialEq, Eq)]
pub enum Event {
    /// The client's next message, or `None` where its stream is closed or
    /// cannot be read.
    Client(Option<String>),
    /// The profile that the content rules gave for the file, `None` where
    /// no rule matched or the file cannot be read.
    Content(Option<String>),
    /// The path of the merged configuration, `None` where there is nothing
    /// to merge or the merge failed.
    Merged(Option<String>),
    /// Whether the backend was started.
    Spawned(bool),
    /// Whether the message was sent.
    Sent(bool),
    /// The backend's next message, or `None` where none came in time.
    Received(Option<String>),
    /// The message went to the client.
    Replied,
}

/// The mathematical value of an [`Event`].
pub enum EventView {
    Client(Option<Seq<char>>),
    Content(Option<Seq<char>>),
    Merged(Option<Seq<char>>),
    Spawned(bool),
    Sent(bool),
    Received(Option<Seq<char>>),
    Replied,
}

impl DeepView for Event {
    type V = EventView;

    open spec fn deep_view(&self) -> EventView {
        match self {
            Event::Client(m) => EventView::Client(m.deep_view()),
            Event::Content(m) => EventView::Content(m.deep_view()),
            Event::Merged(m) => EventView::Merged(m.deep_view()),
            Event::Spawned(ok) => EventView::Spawned(*ok),
            Event::Sent(ok) => EventView::Sent(*ok),
            Event::Received(m) => EventView::Received(m.deep_view()),
            Event::Replied => EventView::Replied,
        }
    }
}

/// The message about a document that is being routed.
pub struct DocumentView {
    /// The path of the document.
    pub file_path: Seq<char>,
    /// The text of the message as it goes to the backend.
    pub body: Seq<char>,
    /// The identifier of the message, where it is a request.
    pub id: Option<JsonView>,
    /// What the path of the document resolves to.
    pub by_path: Resolved,
}

/// Where the proxy stands.
pub enum PhaseView {
    /// Between two client messages.
    Idle,
    /// Waiting for the scan of a document's content.
    Content(DocumentView),
    /// Waiting for the merged configuration of a document.
    Merge { document: DocumentView, profile_config: Seq<char> },
    /// Waiting for the outcome of the first operation of the list.
    Running,
    /// Waiting for a notification to have gone to the client, while the
    /// first operation of the list waits for a response.
    Forwarding,
    /// The session is over.
    Terminated,
}

/// The mathematical value of a proxy.
pub struct ProxyView {
    /// The path of the formatter binary that the backends run.
    pub dprint_bin: Seq<char>,
    /// The compiled glob rules.
    pub rules: Seq<(Seq<char>, Seq<char>)>,
    /// The compiled content rules, where the configuration has any.
    pub content_rules: Option<Seq<(Seq<char>, Seq<char>)>>,
    /// The routing configuration.
    pub config: DprintxConfigView,
    /// The configurations of the running backends, in the order in which
    /// they were started.
    pub backends: Seq<Seq<char>>,
    /// The parameters of the client's last `initialize`.
    pub init_params: Option<JsonView>,
    /// Where the proxy stands.
    pub phase: PhaseView,
    /// The operations that are left of the work for the current message.
    pub ops: Seq<OpView>,
    /// The first response to the current `initialize`.
    pub first_response: Option<Seq<char>>,
}

/// The response with a null result to the request `id`.
pub open spec fn null_result(id: Option<JsonView>) -> JsonView {
    JsonView::Object(
        seq![
            ("jsonrpc"@, JsonView::Str("2.0"@)),
            (
                "id"@,
                match id {
                    Some(id) => id,
                    None => JsonView::Null,
                },
            ),
            ("result"@, JsonView::Null),
        ],
    )
}

/// The `initialize` request `id` with these parameters.
pub open spec fn initialize_request(id: JsonView, params: JsonView) -> JsonView {
    JsonView::Object(
        seq![
            ("jsonrpc"@, JsonView::Str("2.0"@)),
            ("id"@, id),
            ("method"@, JsonView::Str("initialize"@)),
            ("params"@, params),
        ],
    )
}

/// The `initialized` notification.
pub open spec fn initialized_notification() -> JsonView {
    JsonView::Object(
        seq![
            ("jsonrpc"@, JsonView::Str("2.0"@)),
            ("method"@, JsonView::Str("initialized"@)),
            ("params"@, JsonView::Object(Seq::empty())),
        ],
    )
}

/// The parameters of `initialize` for the backend of a configuration: the
/// root of the workspace is the directory of the configuration file, as a
/// URI in `rootUri` and as a path in `rootPath`. Parameters for a
/// configuration without a directory stay as they are.
pub open spec fn rooted(params: JsonView, config_path: Seq<char>) -> JsonView {
    match parent_of(config_path) {
        Some(dir) => params.with_member("rootUri"@, JsonView::Str("file://"@ + dir)).with_member(
            "rootPath"@,
            JsonView::Str(dir),
        ),
        None => params,
    }
}

/// Whether one of the rules names the profile.
pub open spec fn names_profile(rules: Seq<(Seq<char>, Seq<char>)>, name: Seq<char>) -> bool {
    exists|i: int| 0 <= i < rules.len() && (#[trigger] rules[i]).1 == name
}

/// The configuration files of the profiles that the rules name, each
/// profile once, in the order in which the rules first name them. A
/// profile without a configuration file gives none.
pub open spec fn profile_configs(
    rules: Seq<(Seq<char>, Seq<char>)>,
    config: DprintxConfigView,
) -> Seq<Seq<char>>
    decreases rules.len(),
{
    if rules.len() == 0 {
        Seq::empty()
    } else {
        let before = profile_configs(rules.drop_last(), config);
        let name = rules.last().1;
        if names_profile(rules.drop_last(), name) {
            before
        } else {
            match config.profile_config_path(name) {
                Some(path) => before.push(path),
                None => before,
            }
        }
    }
}

/// The work for `initialize`: for each configuration that has no backend
/// yet, start one, send it the request with its own workspace root, and
/// wait for its response; at the end the client gets the first response.
pub open spec fn spawn_plan(
    configs: Seq<Seq<char>>,
    running: Seq<Seq<char>>,
    id: JsonView,
    params: JsonView,
) -> Seq<OpView>
    decreases configs.len(),
{
    if configs.len() == 0 {
        seq![OpView::ReplyFirst]
    } else {
        let config = configs[0];
        if running.contains(config) {
            spawn_plan(configs.drop_first(), running, id, params)
        } else {
            seq![
                OpView::Spawn { config },
                OpView::Send {
                    config,
                    body: json_text(initialize_request(id, rooted(params, config))),
                    critical: true,
                },
                OpView::Await { config, keep: Keep::First, fallback: Seq::empty() },
            ] + spawn_plan(configs.drop_first(), running.push(config), id, params)
        }
    }
}

/// The work of sending one message to every running backend; a backend
/// that cannot be reached is passed over.
pub open spec fn broadcast_plan(running: Seq<Seq<char>>, body: Seq<char>) -> Seq<OpView> {
    Seq::new(
        running.len(),
        |i: int| OpView::Send { config: running[i], body, critical: false },
    )
}

/// The work for `shutdown`: every running backend gets the request and is
/// waited for, one after the other.
pub open spec fn shutdown_plan(running: Seq<Seq<char>>, body: Seq<char>) -> Seq<OpView>
    decreases running.len(),
{
    if running.len() == 0 {
        Seq::empty()
    } else {
        shutdown_plan(running.drop_last(), body) + seq![
            OpView::Send { config: running.last(), body, critical: false },
            OpView::Await { config: running.last(), keep: Keep::Discard, fallback: Seq::empty() },
        ]
    }
}

/// The work for a message about a document whose effective configuration
/// is known. A backend that does not run yet is started, and is taken
/// through `initialize` and `initialized` with the parameters that the
/// client gave last, where it gave any. Then the message goes to that
/// backend, and a request waits for its response.
pub open spec fn document_plan(
    effective: Seq<char>,
    running: Seq<Seq<char>>,
    init_params: Option<JsonView>,
    body: Seq<char>,
    id: Option<JsonView>,
) -> Seq<OpView> {
    let start = if running.contains(effective) {
        Seq::empty()
    } else {
        seq![OpView::Spawn { config: effective }] + match init_params {
            Some(params) => seq![
                OpView::Send {
                    config: effective,
                    body: json_text(
                        initialize_request(
                            JsonView::Number(number_of(1)),
                            rooted(params, effective),
                        ),
                    ),
                    critical: false,
                },
                OpView::Await { config: effective, keep: Keep::Discard, fallback: Seq::empty() },
                OpView::Send {
                    config: effective,
                    body: json_text(initialized_notification()),
                    critical: false,
                },
            ],
            None => Seq::empty(),
        }
    };
    start + seq![OpView::Send { config: effective, body, critical: true }] + match id {
        Some(_) => seq![
            OpView::Await {
                config: effective,
                keep: Keep::Relay,
                fallback: json_text(null_result(id)),
            },
        ],
        None => Seq::empty(),
    }
}

/// What a message of a backend is.
pub enum Incoming {
    /// A message with an identifier.
    Response(Seq<char>),
    /// A message without one.
    Notification(Seq<char>),
    /// No message, or one that is not JSON.
    Failed,
}

/// What came from a backend: a message that is JSON is a response where it
/// has a member `id`, else a notification.
pub open spec fn incoming(received: Option<Seq<char>>) -> Incoming {
    match received {
        None => Incoming::Failed,
        Some(text) => match json_parse(text) {
            None => Incoming::Failed,
            Some(message) => if message.get("id"@) is Some {
                Incoming::Response(text)
            } else {
                Incoming::Notification(text)
            },
        },
    }
}

impl ProxyView {
    /// The proxy between two messages, with no work left.
    pub open spec fn idle(self) -> ProxyView {
        ProxyView { phase: PhaseView::Idle, ops: Seq::empty(), ..self }
    }

    /// The proxy with this work to do.
    pub open spec fn with_ops(self, ops: Seq<OpView>) -> ProxyView {
        ProxyView { ops, ..self }
    }

    /// The work for the current message is given up; the next message is
    /// read.
    pub open spec fn abort(self) -> (ProxyView, ActionView) {
        (self.idle(), ActionView::ReadClient)
    }

    /// The session ends.
    pub open spec fn halt(self) -> (ProxyView, ActionView) {
        (
            ProxyView { phase: PhaseView::Terminated, ops: Seq::empty(), ..self },
            ActionView::Stop,
        )
    }

    /// Takes up the first operation of the list: the action that carries it
    /// out, or, with no work left, the reading of the next message.
    pub open spec fn advance(self) -> (ProxyView, ActionView)
        decreases self.ops.len(),
    {
        let running = ProxyView { phase: PhaseView::Running, ..self };
        if self.ops.len() == 0 {
            self.abort()
        } else {
            match self.ops[0] {
                OpView::Spawn { config } => (running, ActionView::Spawn { config }),
                OpView::Send { config, body, critical } => (
                    running,
                    ActionView::Send { config, body },
                ),
                OpView::Await { config, keep, fallback } => (
                    running,
                    ActionView::Receive { config },
                ),
                OpView::Reply { body } => (running, ActionView::Reply { body }),
                OpView::ReplyFirst => match self.first_response {
                    Some(body) => (running, ActionView::Reply { body }),
                    None => self.with_ops(self.ops.drop_first()).advance(),
                },
                OpView::Stop => self.halt(),
            }
        }
    }

    /// The first operation is done; the next is taken up.
    pub open spec fn next(self) -> (ProxyView, ActionView) {
        self.with_ops(self.ops.drop_first()).advance()
    }

    /// The first operation gives way to a reply to the client.
    pub open spec fn reply_now(self, body: Seq<char>) -> (ProxyView, ActionView) {
        (
            ProxyView {
                phase: PhaseView::Running,
                ops: self.ops.update(0, OpView::Reply { body }),
                ..self
            },
            ActionView::Reply { body },
        )
    }

    /// A document that resolves to no configuration: a request is answered
    /// with a null result, a notification is dropped.
    pub open spec fn unresolved(self, document: DocumentView) -> (ProxyView, ActionView) {
        match document.id {
            Some(id) => self.with_ops(
                seq![OpView::Reply { body: json_text(null_result(document.id)) }],
            ).advance(),
            None => self.abort(),
        }
    }

    /// The message about a document goes to the backend of its effective
    /// configuration.
    pub open spec fn dispatch(self, document: DocumentView, effective: Seq<char>) -> (
        ProxyView,
        ActionView,
    ) {
        self.with_ops(
            document_plan(effective, self.backends, self.init_params, document.body, document.id),
        ).advance()
    }

    /// The document is resolved: with a configuration, the merge with a
    /// local configuration is asked for from the directory of the document,
    /// and a document without a directory goes to the profile's backend at
    /// once.
    pub open spec fn after_resolution(self, document: DocumentView, resolution: Resolved) -> (
        ProxyView,
        ActionView,
    ) {
        match resolution {
            Ok(Some(ProfileResolutionView::Config(profile_config))) => match parent_of(
                document.file_path,
            ) {
                Some(dir) => (
                    ProxyView {
                        phase: PhaseView::Merge { document, profile_config },
                        ops: Seq::empty(),
                        ..self
                    },
                    ActionView::Merge { dir, profile_config },
                ),
                None => self.dispatch(document, profile_config),
            },
            _ => self.unresolved(document),
        }
    }

    /// A message about a document arrives: it is routed by the URI at
    /// `params.textDocument.uri`; without one nothing is done.
    pub open spec fn on_document(self, message: JsonView) -> (ProxyView, ActionView) {
        match uri_of(message) {
            None => self.abort(),
            Some(uri) => {
                let file_path = path_of_uri(uri);
                let by_path = resolved_by_path(self.rules, self.config, file_path);
                let document = DocumentView {
                    file_path,
                    body: json_text(message),
                    id: message.get("id"@),
                    by_path,
                };
                if self.content_rules is Some && by_path matches Ok(Some(_)) {
                    (
                        ProxyView {
                            phase: PhaseView::Content(document),
                            ops: Seq::empty(),
                            ..self
                        },
                        ActionView::ScanContent { path: file_path },
                    )
                } else {
                    self.after_resolution(document, by_path)
                }
            },
        }
    }

    /// The work for a message that goes to every backend: a request is
    /// answered by the backend that was started first.
    pub open spec fn other_plan(self, message: JsonView) -> Seq<OpView> {
        broadcast_plan(self.backends, json_text(message)) + if message.get("id"@) is Some
            && self.backends.len() > 0 {
            seq![
                OpView::Await {
                    config: self.backends[0],
                    keep: Keep::Relay,
                    fallback: json_text(null_result(message.get("id"@))),
                },
            ]
        } else {
            Seq::empty()
        }
    }

    /// A message of the client arrives. Text that is not JSON is passed
    /// over.
    pub open spec fn on_client(self, text: Seq<char>) -> (ProxyView, ActionView) {
        match json_parse(text) {
            None => self.abort(),
            Some(message) => {
                let method = match message.get("method"@) {
                    Some(m) => m.as_str(),
                    None => None,
                };
                let id = message.get("id"@);
                let body = json_text(message);
                if method == Some("initialize"@) {
                    let params = message.get("params"@);
                    ProxyView {
                        init_params: params,
                        first_response: None,
                        ops: spawn_plan(
                            profile_configs(self.config.rules(), self.config),
                            self.backends,
                            match id {
                                Some(id) => id,
                                None => JsonView::Null,
                            },
                            match params {
                                Some(params) => params,
                                None => JsonView::Object(Seq::empty()),
                            },
                        ),
                        ..self
                    }.advance()
                } else if method == Some("initialized"@) {
                    self.with_ops(broadcast_plan(self.backends, body)).advance()
                } else if method == Some("shutdown"@) {
                    self.with_ops(
                        shutdown_plan(self.backends, body) + seq![
                            OpView::Reply { body: json_text(null_result(id)) },
                        ],
                    ).advance()
                } else if method == Some("exit"@) {
                    self.with_ops(broadcast_plan(self.backends, body) + seq![OpView::Stop]).advance()
                } else if method is Some && has_prefix(method->0, "textDocument/"@) {
                    self.on_document(message)
                } else {
                    self.with_ops(self.other_plan(message)).advance()
                }
            },
        }
    }

    /// The outcome of the first operation of the list arrives.
    pub open spec fn on_outcome(self, event: EventView) -> (ProxyView, ActionView) {
        if self.ops.len() == 0 {
            self.halt()
        } else {
            match (self.ops[0], event) {
                (OpView::Spawn { config }, EventView::Spawned(started)) => if started {
                    ProxyView { backends: self.backends.push(config), ..self }.next()
                } else {
                    self.abort()
                },
                (OpView::Send { config, body, critical }, EventView::Sent(sent)) => if !sent
                    && critical {
                    self.abort()
                } else {
                    self.next()
                },
                (OpView::Await { config, keep, fallback }, EventView::Received(received)) => match incoming(
                    received,
                ) {
                    Incoming::Response(text) => match keep {
                        Keep::First => ProxyView {
                            first_response: match self.first_response {
                                Some(first) => Some(first),
                                None => Some(text),
                            },
                            ..self
                        }.next(),
                        Keep::Discard => self.next(),
                        Keep::Relay => self.reply_now(text),
                    },
                    Incoming::Notification(text) => (
                        ProxyView { phase: PhaseView::Forwarding, ..self },
                        ActionView::Reply { body: text },
                    ),
                    Incoming::Failed => match keep {
                        Keep::Relay => self.reply_now(fallback),
                        _ => self.next(),
                    },
                },
                (OpView::Reply { body }, EventView::Replied) => self.next(),
                (OpView::ReplyFirst, EventView::Replied) => self.next(),
                _ => self.halt(),
            }
        }
    }

    /// The proxy after an event, and the action that it asks for. An event
    /// that does not answer the last action ends the session, and so does
    /// the end of the client's stream.
    pub open spec fn step(self, event: EventView) -> (ProxyView, ActionView) {
        match self.phase {
            PhaseView::Idle => match event {
                EventView::Client(Some(text)) => self.on_client(text),
                _ => self.halt(),
            },
            PhaseView::Content(document) => match event {
                EventView::Content(found) => self.after_resolution(
                    document,
                    resolved_with_content(document.by_path, found, self.config),
                ),
                _ => self.halt(),
            },
            PhaseView::Merge { document, profile_config } => match event {
                EventView::Merged(Some(merged)) => self.dispatch(document, merged),
                EventView::Merged(None) => self.dispatch(document, profile_config),
                _ => self.halt(),
            },
            PhaseView::Running => self.on_outcome(event),
            PhaseView::Forwarding => match event {
                EventView::Replied => if self.ops.len() > 0 && self.ops[0] is Await {
                    (
                        ProxyView { phase: PhaseView::Running, ..self },
                        ActionView::Receive { config: self.ops[0]->Await_config },
                    )
                } else {
                    self.halt()
                },
                _ => self.halt(),
            },
            PhaseView::Terminated => self.halt(),
        }
    }
}


fn member(key: &str, value: Json) -> (r: (String, Json))
    ensures
        r.0@ == key@,
        r.1.deep_view() == value.deep_view(),
{
    (key.to_owned(), value)
}

fn null_result_text(id: &Option<Json>) -> (r: String)
    ensures
        r@ == json_text(null_result(id.deep_view())),
{
    let mut members: Vec<(String, Json)> = Vec::new();
    members.push(member("jsonrpc", Json::string("2.0")));
    members.push(
        member(
            "id",
            match id {
                Some(id) => id.clone(),
                None => Json::Null,
            },
        ),
    );
    members.push(member("result", Json::Null));
    proof {
        lemma_object_view(members);
        assert(members_view(members@) =~= null_result(id.deep_view())->Object_0);
    }
    Json::Object(members).to_text()
}

fn initialize_text(id: Json, params: Json) -> (r: String)
    ensures
        r@ == json_text(initialize_request(id.deep_view(), params.deep_view())),
{
    let ghost wanted = initialize_request(id.deep_view(), params.deep_view());
    let mut members: Vec<(String, Json)> = Vec::new();
    members.push(member("jsonrpc", Json::string("2.0")));
    members.push(member("id", id));
    members.push(member("method", Json::string("initialize")));
    members.push(member("params", params));
    proof {
        lemma_object_view(members);
        assert(members_view(members@) =~= wanted->Object_0);
    }
    Json::Object(members).to_text()
}

fn initialized_text() -> (r: String)
    ensures
        r@ == json_text(initialized_notification()),
{
    let mut members: Vec<(String, Json)> = Vec::new();
    members.push(member("jsonrpc", Json::string("2.0")));
    members.push(member("method", Json::string("initialized")));
    members.push(member("params", Json::empty_object()));
    proof {
        lemma_object_view(members);
        assert(members_view(members@) =~= initialized_notification()->Object_0);
    }
    Json::Object(members).to_text()
}

fn rooted_params(params: Json, config_path: &str) -> (r: Json)
    ensures
        r.deep_view() == rooted(params.deep_view(), config_path@),
{
    match crate::paths::path_parent(config_path) {
        Some(dir) => {
            let mut uri = "file://".to_owned();
            uri.append(dir.as_str());
            params.with_member("rootUri", Json::Str(uri)).with_member("rootPath", Json::Str(dir))
        },
        None => params,
    }
}

fn push_op(ops: &mut Vec<Op>, op: Op)
    ensures
        final(ops).deep_view() == old(ops).deep_view().push(op.deep_view()),
{
    ops.push(op);
    assert(ops.deep_view() =~= old(ops).deep_view().push(op.deep_view()));
}

fn pop_op(ops: &mut Vec<Op>) -> (op: Op)
    requires
        old(ops).len() > 0,
    ensures
        final(ops).deep_view() == old(ops).deep_view().drop_first(),
        final(ops).len() == old(ops).len() - 1,
        op.deep_view() == old(ops).deep_view()[0],
{
    let op = ops.remove(0);
    assert(ops.deep_view() =~= old(ops).deep_view().drop_first());
    op
}

fn one_op(op: Op) -> (ops: Vec<Op>)
    ensures
        ops.deep_view() == seq![op.deep_view()],
{
    let mut ops: Vec<Op> = Vec::new();
    ops.push(op);
    assert(ops.deep_view() =~= seq![op.deep_view()]);
    ops
}

fn no_ops() -> (ops: Vec<Op>)
    ensures
        ops.deep_view() == Seq::<OpView>::empty(),
{
    let ops: Vec<Op> = Vec::new();
    assert(ops.deep_view() =~= Seq::<OpView>::empty());
    ops
}

fn broadcast_ops(running: &Vec<String>, body: &str) -> (ops: Vec<Op>)
    ensures
        ops.deep_view() == broadcast_plan(running.deep_view(), body@),
{
    let mut ops: Vec<Op> = Vec::new();
    let mut i: usize = 0;
    while i < running.len()
        invariant
            i <= running.len(),
            ops.len() == i,
            forall|k: int|
                0 <= k < i ==> (#[trigger] ops@[k]).deep_view() == (OpView::Send {
                    config: running@[k]@,
                    body: body@,
                    critical: false,
                }),
        decreases running.len() - i,
    {
        ops.push(Op::Send { config: running[i].clone(), body: body.to_owned(), critical: false });
        i += 1;
    }
    assert(ops.deep_view() =~= broadcast_plan(running.deep_view(), body@));
    ops
}

fn shutdown_ops(running: &Vec<String>, body: &str) -> (ops: Vec<Op>)
    ensures
        ops.deep_view() == shutdown_plan(running.deep_view(), body@),
{
    let mut ops: Vec<Op> = Vec::new();
    let mut i: usize = 0;
    assert(running.deep_view().take(0) =~= Seq::<Seq<char>>::empty());
    assert(ops.deep_view() =~= Seq::<OpView>::empty());
    while i < running.len()
        invariant
            i <= running.len(),
            ops.deep_view() == shutdown_plan(running.deep_view().take(i as int), body@),
        decreases running.len() - i,
    {
        let ghost all = running.deep_view();
        let ghost before = ops.deep_view();
        assert(all.take(i + 1).drop_last() =~= all.take(i as int));
        assert(all.take(i + 1).last() == running@[i as int]@);
        push_op(&mut ops, Op::Send { config: running[i].clone(), body: body.to_owned(), critical: false });
        push_op(
            &mut ops,
            Op::Await { config: running[i].clone(), keep: Keep::Discard, fallback: String::new() },
        );
        assert(ops.deep_view() =~= before + seq![
            OpView::Send { config: running@[i as int]@, body: body@, critical: false },
            OpView::Await {
                config: running@[i as int]@,
                keep: Keep::Discard,
                fallback: Seq::empty(),
            },
        ]);
        i += 1;
    }
    assert(running.deep_view().take(i as int) =~= running.deep_view());
    ops
}


/// Whether one of the first `upto` rules names the profile.
fn names_before(rules: &Vec<(String, String)>, upto: usize, name: &str) -> (r: bool)
    requires
        upto <= rules.len(),
    ensures
        r == names_profile(rules.deep_view().take(upto as int), name@),
{
    let ghost taken = rules.deep_view().take(upto as int);
    let mut k: usize = 0;
    while k < upto
        invariant
            k <= upto <= rules.len(),
            taken == rules.deep_view().take(upto as int),
            forall|j: int| 0 <= j < k ==> (#[trigger] taken[j]).1 != name@,
        decreases upto - k,
    {
        assert(taken[k as int] == (rules@[k as int].0@, rules@[k as int].1@));
        if crate::text::str_eq(rules[k].1.as_str(), name) {
            return true;
        }
        k += 1;
    }
    false
}

/// The configuration files of the profiles that the rules of the
/// configuration name, each profile once, in the order in which the rules
/// first name them.
pub fn distinct_profile_configs(config: &DprintxConfig) -> (r: Vec<String>)
    ensures
        r.deep_view() == profile_configs(config.deep_view().rules(), config.deep_view()),
{
    let rules = config.match_rules_iter();
    let mut r: Vec<String> = Vec::new();
    let mut i: usize = 0;
    assert(rules.deep_view().take(0) =~= Seq::<(Seq<char>, Seq<char>)>::empty());
    assert(r.deep_view() =~= Seq::<Seq<char>>::empty());
    while i < rules.len()
        invariant
            i <= rules.len(),
            rules.deep_view() == config.deep_view().rules(),
            r.deep_view() == profile_configs(rules.deep_view().take(i as int), config.deep_view()),
        decreases rules.len() - i,
    {
        let ghost all = rules.deep_view();
        let ghost before = r.deep_view();
        assert(all.take(i + 1).drop_last() =~= all.take(i as int));
        assert(all.take(i + 1).last() == (rules@[i as int].0@, rules@[i as int].1@));
        let name = rules[i].1.as_str();
        if !names_before(&rules, i, name) {
            match config.profile_config_path(name) {
                Some(path) => {
                    r.push(path);
                    assert(r.deep_view() =~= before.push(path@));
                },
                None => {},
            }
        }
        i += 1;
    }
    assert(rules.deep_view().take(i as int) =~= rules.deep_view());
    r
}

fn clone_paths(paths: &Vec<String>) -> (r: Vec<String>)
    ensures
        r.deep_view() == paths.deep_view(),
{
    let mut r: Vec<String> = Vec::new();
    let mut i: usize = 0;
    while i < paths.len()
        invariant
            i <= paths.len(),
            r.len() == i,
            forall|k: int| 0 <= k < i ==> (#[trigger] r@[k])@ == paths@[k]@,
        decreases paths.len() - i,
    {
        r.push(paths[i].clone());
        i += 1;
    }
    assert(r.deep_view() =~= paths.deep_view());
    r
}

fn spawn_ops(configs: &Vec<String>, running: &Vec<String>, id: &Json, params: &Json) -> (ops: Vec<
    Op,
>)
    ensures
        ops.deep_view() == spawn_plan(
            configs.deep_view(),
            running.deep_view(),
            id.deep_view(),
            params.deep_view(),
        ),
{
    let ghost goal = spawn_plan(
        configs.deep_view(),
        running.deep_view(),
        id.deep_view(),
        params.deep_view(),
    );
    let mut ops = no_ops();
    let mut known = clone_paths(running);
    let mut i: usize = 0;
    assert(configs.deep_view().skip(0) =~= configs.deep_view());
    while i < configs.len()
        invariant
            i <= configs.len(),
            ops.deep_view() + spawn_plan(
                configs.deep_view().skip(i as int),
                known.deep_view(),
                id.deep_view(),
                params.deep_view(),
            ) == goal,
        decreases configs.len() - i,
    {
        let ghost rest = configs.deep_view().skip(i as int);
        let ghost before = ops.deep_view();
        let ghost known_before = known.deep_view();
        assert(rest.drop_first() =~= configs.deep_view().skip(i + 1));
        assert(rest[0] == configs@[i as int]@);
        let config = &configs[i];
        if !crate::config::contains_path(&known, config.as_str()) {
            let body = initialize_text(id.clone(), rooted_params(params.clone(), config.as_str()));
            push_op(&mut ops, Op::Spawn { config: config.clone() });
            push_op(&mut ops, Op::Send { config: config.clone(), body, critical: true });
            push_op(
                &mut ops,
                Op::Await { config: config.clone(), keep: Keep::First, fallback: String::new() },
            );
            known.push(config.clone());
            assert(known.deep_view() =~= known_before.push(config@));
            let ghost added = seq![
                OpView::Spawn { config: config@ },
                OpView::Send {
                    config: config@,
                    body: json_text(
                        initialize_request(id.deep_view(), rooted(params.deep_view(), config@)),
                    ),
                    critical: true,
                },
                OpView::Await { config: config@, keep: Keep::First, fallback: Seq::empty() },
            ];
            assert(ops.deep_view() =~= before + added);
            assert(before + (added + spawn_plan(
                rest.drop_first(),
                known.deep_view(),
                id.deep_view(),
                params.deep_view(),
            )) =~= ops.deep_view() + spawn_plan(
                rest.drop_first(),
                known.deep_view(),
                id.deep_view(),
                params.deep_view(),
            ));
        }
        i += 1;
    }
    let ghost before = ops.deep_view();
    push_op(&mut ops, Op::ReplyFirst);
    assert(configs.deep_view().skip(i as int).len() == 0);
    ops
}

fn document_ops(
    effective: &str,
    running: &Vec<String>,
    init_params: &Option<Json>,
    body: &str,
    id: &Option<Json>,
) -> (ops: Vec<Op>)
    ensures
        ops.deep_view() == document_plan(
            effective@,
            running.deep_view(),
            init_params.deep_view(),
            body@,
            id.deep_view(),
        ),
{
    let mut ops = no_ops();
    if !crate::config::contains_path(running, effective) {
        push_op(&mut ops, Op::Spawn { config: effective.to_owned() });
        match init_params {
            Some(params) => {
                let request = initialize_text(
                    Json::unsigned(1),
                    rooted_params(params.clone(), effective),
                );
                push_op(
                    &mut ops,
                    Op::Send { config: effective.to_owned(), body: request, critical: false },
                );
                push_op(
                    &mut ops,
                    Op::Await {
                        config: effective.to_owned(),
                        keep: Keep::Discard,
                        fallback: String::new(),
                    },
                );
                push_op(
                    &mut ops,
                    Op::Send {
                        config: effective.to_owned(),
                        body: initialized_text(),
                        critical: false,
                    },
                );
            },
            None => {},
        }
    }
    push_op(&mut ops, Op::Send { config: effective.to_owned(), body: body.to_owned(), critical: true });
    match id {
        Some(_) => {
            push_op(
                &mut ops,
                Op::Await {
                    config: effective.to_owned(),
                    keep: Keep::Relay,
                    fallback: null_result_text(id),
                },
            );
        },
        None => {},
    }
    assert(ops.deep_view() =~= document_plan(
        effective@,
        running.deep_view(),
        init_params.deep_view(),
        body@,
        id.deep_view(),
    ));
    ops
}


/// The message about a document that is being routed.
pub struct Document {
    file_path: String,
    body: String,
    id: Option<Json>,
    by_path: Result<Option<ProfileResolution>, ResolveError>,
}

impl Document {
    pub closed spec fn model(&self) -> DocumentView {
        DocumentView {
            file_path: self.file_path@,
            body: self.body@,
            id: self.id.deep_view(),
            by_path: resolved_view(self.by_path),
        }
    }
}

/// Where the proxy stands.
pub enum Phase {
    Idle,
    Content(Document),
    Merge { document: Document, profile_config: String },
    Running,
    Forwarding,
    Terminated,
}

impl Phase {
    pub closed spec fn model(&self) -> PhaseView {
        match self {
            Phase::Idle => PhaseView::Idle,
            Phase::Content(document) => PhaseView::Content(document.model()),
            Phase::Merge { document, profile_config } => PhaseView::Merge {
                document: document.model(),
                profile_config: profile_config@,
            },
            Phase::Running => PhaseView::Running,
            Phase::Forwarding => PhaseView::Forwarding,
            Phase::Terminated => PhaseView::Terminated,
        }
    }
}

/// The proxy between one client and the backends: it routes each message
/// about a document to the backend of the document's effective
/// configuration, and every other message to all backends.
pub struct LspProxy {
    dprint_bin: String,
    matcher: ProfileMatcher,
    config: DprintxConfig,
    backends: Vec<String>,
    init_params: Option<Json>,
    phase: Phase,
    ops: Vec<Op>,
    first_response: Option<String>,
}

impl LspProxy {
    /// The mathematical value of the proxy.
    pub closed spec fn model(&self) -> ProxyView {
        ProxyView {
            dprint_bin: self.dprint_bin@,
            rules: self.matcher.rules(),
            content_rules: self.matcher.content_rules(),
            config: self.config.deep_view(),
            backends: self.backends.deep_view(),
            init_params: self.init_params.deep_view(),
            phase: self.phase.model(),
            ops: self.ops.deep_view(),
            first_response: self.first_response.deep_view(),
        }
    }

    /// A proxy without backends, before the first message of the client.
    pub fn new(dprint_bin: String, matcher: ProfileMatcher, config: DprintxConfig) -> (r: LspProxy)
        ensures
            r.model().registry_ok(),
            r.model() == (ProxyView {
                dprint_bin: dprint_bin@,
                rules: matcher.rules(),
                content_rules: matcher.content_rules(),
                config: config.deep_view(),
                backends: Seq::empty(),
                init_params: None,
                phase: PhaseView::Idle,
                ops: Seq::empty(),
                first_response: None,
            }),
    {
        let backends: Vec<String> = Vec::new();
        assert(backends.deep_view() =~= Seq::<Seq<char>>::empty());
        assert(backends.deep_view() + spawned(Seq::<OpView>::empty()) =~= Seq::<
            Seq<char>,
        >::empty());
        LspProxy {
            dprint_bin,
            matcher,
            config,
            backends,
            init_params: None,
            phase: Phase::Idle,
            ops: no_ops(),
            first_response: None,
        }
    }

    /// The path of the formatter binary that the backends run.
    pub fn dprint_bin(&self) -> (r: &str)
        ensures
            r@ == self.model().dprint_bin,
    {
        self.dprint_bin.as_str()
    }

    /// The rules by which the proxy routes.
    pub fn matcher(&self) -> (r: &ProfileMatcher)
        ensures
            r.rules() == self.model().rules,
            r.content_rules() == self.model().content_rules,
    {
        &self.matcher
    }

    /// The routing configuration.
    pub fn config(&self) -> (r: &DprintxConfig)
        ensures
            r.deep_view() == self.model().config,
    {
        &self.config
    }

    /// The configurations of the running backends, in the order in which
    /// they were started.
    pub fn backends(&self) -> (r: &Vec<String>)
        ensures
            r.deep_view() == self.model().backends,
    {
        &self.backends
    }

    fn abort(&mut self) -> (action: Action)
        ensures
            (final(self).model(), action.deep_view()) == old(self).model().abort(),
    {
        self.phase = Phase::Idle;
        self.ops = no_ops();
        Action::ReadClient
    }

    fn halt(&mut self) -> (action: Action)
        ensures
            (final(self).model(), action.deep_view()) == old(self).model().halt(),
    {
        self.phase = Phase::Terminated;
        self.ops = no_ops();
        Action::Stop
    }

    fn advance(&mut self) -> (action: Action)
        ensures
            (final(self).model(), action.deep_view()) == old(self).model().advance(),
    {
        loop
            invariant
                self.model().advance() == old(self).model().advance(),
            decreases self.ops.len(),
        {
            if self.ops.len() == 0 {
                return self.abort();
            }
            assert(self.ops.deep_view()[0] == self.ops@[0].deep_view());
            let skip = match &self.ops[0] {
                Op::Spawn { config } => {
                    let action = Action::Spawn { config: config.clone() };
                    self.phase = Phase::Running;
                    return action;
                },
                Op::Send { config, body, critical } => {
                    let action = Action::Send { config: config.clone(), body: body.clone() };
                    self.phase = Phase::Running;
                    return action;
                },
                Op::Await { config, keep, fallback } => {
                    let action = Action::Receive { config: config.clone() };
                    self.phase = Phase::Running;
                    return action;
                },
                Op::Reply { body } => {
                    let action = Action::Reply { body: body.clone() };
                    self.phase = Phase::Running;
                    return action;
                },
                Op::ReplyFirst => match &self.first_response {
                    Some(body) => {
                        let action = Action::Reply { body: body.clone() };
                        self.phase = Phase::Running;
                        return action;
                    },
                    None => true,
                },
                Op::Stop => false,
            };
            if !skip {
                return self.halt();
            }
            let _ = pop_op(&mut self.ops);
        }
    }

    fn next(&mut self) -> (action: Action)
        requires
            old(self).ops.len() > 0,
        ensures
            (final(self).model(), action.deep_view()) == old(self).model().next(),
    {
        let _ = pop_op(&mut self.ops);
        self.advance()
    }

    fn take_up(&mut self, ops: Vec<Op>) -> (action: Action)
        ensures
            (final(self).model(), action.deep_view()) == old(self).model().with_ops(
                ops.deep_view(),
            ).advance(),
    {
        self.ops = ops;
        self.advance()
    }

    fn reply_now(&mut self, body: String) -> (action: Action)
        requires
            old(self).ops.len() > 0,
        ensures
            (final(self).model(), action.deep_view()) == old(self).model().reply_now(body@),
    {
        let action = Action::Reply { body: body.clone() };
        let _ = self.ops.remove(0);
        self.ops.insert(0, Op::Reply { body });
        assert(self.ops.deep_view() =~= old(self).ops.deep_view().update(
            0,
            OpView::Reply { body: body@ },
        ));
        self.phase = Phase::Running;
        action
    }
}


/// What a message of a backend is, for the proxy.
enum Arrival {
    Response(String),
    Notification(String),
    Failed,
}

fn classify(received: Option<String>) -> (r: Arrival)
    ensures
        match r {
            Arrival::Response(text) => incoming(received.deep_view()) == Incoming::Response(text@),
            Arrival::Notification(text) => incoming(received.deep_view())
                == Incoming::Notification(text@),
            Arrival::Failed => incoming(received.deep_view()) == Incoming::Failed,
        },
{
    match received {
        None => Arrival::Failed,
        Some(text) => match crate::json::parse(text.as_str()) {
            None => Arrival::Failed,
            Some(message) => if message.get("id").is_some() {
                Arrival::Response(text)
            } else {
                Arrival::Notification(text)
            },
        },
    }
}

impl LspProxy {
    fn unresolved(&mut self, document: Document) -> (action: Action)
        ensures
            (final(self).model(), action.deep_view()) == old(self).model().unresolved(
                document.model(),
            ),
    {
        match &document.id {
            Some(_) => {
                let ops = one_op(Op::Reply { body: null_result_text(&document.id) });
                self.take_up(ops)
            },
            None => self.abort(),
        }
    }

    fn dispatch(&mut self, document: Document, effective: String) -> (action: Action)
        ensures
            (final(self).model(), action.deep_view()) == old(self).model().dispatch(
                document.model(),
                effective@,
            ),
    {
        let ops = document_ops(
            effective.as_str(),
            &self.backends,
            &self.init_params,
            document.body.as_str(),
            &document.id,
        );
        self.take_up(ops)
    }

    fn after_resolution(
        &mut self,
        document: Document,
        resolution: Result<Option<ProfileResolution>, ResolveError>,
    ) -> (action: Action)
        ensures
            (final(self).model(), action.deep_view()) == old(self).model().after_resolution(
                document.model(),
                resolved_view(resolution),
            ),
    {
        match resolution {
            Ok(Some(ProfileResolution::Config(profile_config))) => {
                match crate::paths::path_parent(document.file_path.as_str()) {
                    Some(dir) => {
                        let action = Action::Merge {
                            dir,
                            profile_config: profile_config.clone(),
                        };
                        self.phase = Phase::Merge { document, profile_config };
                        self.ops = no_ops();
                        action
                    },
                    None => self.dispatch(document, profile_config),
                }
            },
            _ => self.unresolved(document),
        }
    }

    fn on_document(&mut self, message: &Json) -> (action: Action)
        ensures
            (final(self).model(), action.deep_view()) == old(self).model().on_document(
                message.deep_view(),
            ),
    {
        let uri = match crate::lsp::extract_uri(message) {
            Some(uri) => uri,
            None => {
                return self.abort();
            },
        };
        let file_path = crate::lsp::uri_to_path(uri.as_str());
        let by_path = self.matcher.resolve_config_by_path(file_path.as_str(), &self.config);
        let id = match message.get("id") {
            Some(id) => Some(id.clone()),
            None => None,
        };
        let scan = self.matcher.wants_content(&by_path);
        if scan {
            let action = Action::ScanContent { path: file_path.clone() };
            let document = Document { file_path, body: message.to_text(), id, by_path };
            self.phase = Phase::Content(document);
            self.ops = no_ops();
            action
        } else {
            let resolution = clone_resolution(&by_path);
            let document = Document { file_path, body: message.to_text(), id, by_path };
            self.after_resolution(document, resolution)
        }
    }

    fn on_client(&mut self, text: &str) -> (action: Action)
        ensures
            (final(self).model(), action.deep_view()) == old(self).model().on_client(text@),
    {
        let message = match crate::json::parse(text) {
            Some(message) => message,
            None => {
                return self.abort();
            },
        };
        let method: Option<&str> = match message.get("method") {
            Some(m) => m.as_str(),
            None => None,
        };
        let id = match message.get("id") {
            Some(id) => Some(id.clone()),
            None => None,
        };
        let name = match method {
            Some(name) => name,
            None => {
                let ops = self.other_ops(&message, &id);
                return self.take_up(ops);
            },
        };
        if crate::text::str_eq(name, "initialize") {
            let params = match message.get("params") {
                Some(params) => Some(params.clone()),
                None => None,
            };
            let configs = distinct_profile_configs(&self.config);
            let request_id = match &id {
                Some(id) => id.clone(),
                None => Json::Null,
            };
            let request_params = match &params {
                Some(params) => params.clone(),
                None => Json::empty_object(),
            };
            let ops = spawn_ops(&configs, &self.backends, &request_id, &request_params);
            self.init_params = params;
            self.first_response = None;
            self.take_up(ops)
        } else if crate::text::str_eq(name, "initialized") {
            let ops = broadcast_ops(&self.backends, message.to_text().as_str());
            self.take_up(ops)
        } else if crate::text::str_eq(name, "shutdown") {
            let mut ops = shutdown_ops(&self.backends, message.to_text().as_str());
            let ghost before = ops.deep_view();
            push_op(&mut ops, Op::Reply { body: null_result_text(&id) });
            assert(ops.deep_view() =~= before + seq![
                OpView::Reply { body: json_text(null_result(id.deep_view())) },
            ]);
            self.take_up(ops)
        } else if crate::text::str_eq(name, "exit") {
            let mut ops = broadcast_ops(&self.backends, message.to_text().as_str());
            let ghost before = ops.deep_view();
            push_op(&mut ops, Op::Stop);
            assert(ops.deep_view() =~= before + seq![OpView::Stop]);
            self.take_up(ops)
        } else {
            let chars = crate::text::chars_of(name);
            let prefix = crate::text::chars_of("textDocument/");
            assert(chars@.skip(0) == chars@);
            if crate::text::starts_with_at(&chars, 0, &prefix) {
                self.on_document(&message)
            } else {
                let ops = self.other_ops(&message, &id);
                self.take_up(ops)
            }
        }
    }

    fn other_ops(&self, message: &Json, id: &Option<Json>) -> (ops: Vec<Op>)
        requires
            id.deep_view() == message.deep_view().get("id"@),
        ensures
            ops.deep_view() == self.model().other_plan(message.deep_view()),
    {
        let mut ops = broadcast_ops(&self.backends, message.to_text().as_str());
        if id.is_some() && self.backends.len() > 0 {
            assert(self.backends.deep_view()[0] == self.backends@[0]@);
            let ghost before = ops.deep_view();
            push_op(
                &mut ops,
                Op::Await {
                    config: self.backends[0].clone(),
                    keep: Keep::Relay,
                    fallback: null_result_text(id),
                },
            );
            assert(ops.deep_view() =~= before + seq![
                OpView::Await {
                    config: self.backends@[0]@,
                    keep: Keep::Relay,
                    fallback: json_text(null_result(id.deep_view())),
                },
            ]);
        } else {
            assert(ops.deep_view() + Seq::<OpView>::empty() =~= ops.deep_view());
        }
        ops
    }
}

fn clone_resolution(r: &Result<Option<ProfileResolution>, ResolveError>) -> (copy: Result<
    Option<ProfileResolution>,
    ResolveError,
>)
    ensures
        resolved_view(copy) == resolved_view(*r),
{
    match r {
        Ok(Some(ProfileResolution::Config(path))) => Ok(
            Some(ProfileResolution::Config(path.clone())),
        ),
        Ok(Some(ProfileResolution::Ignore)) => Ok(Some(ProfileResolution::Ignore)),
        Ok(None) => Ok(None),
        Err(ResolveError::UnknownProfile(name)) => Err(ResolveError::UnknownProfile(name.clone())),
        Err(ResolveError::UnknownContentProfile(name)) => Err(
            ResolveError::UnknownContentProfile(name.clone()),
        ),
    }
}


impl LspProxy {
    fn on_outcome(&mut self, event: Event) -> (action: Action)
        ensures
            (final(self).model(), action.deep_view()) == old(self).model().on_outcome(
                event.deep_view(),
            ),
    {
        if self.ops.len() == 0 {
            return self.halt();
        }
        assert(self.ops.deep_view()[0] == self.ops@[0].deep_view());
        match event {
            Event::Spawned(started) => {
                let config = match &self.ops[0] {
                    Op::Spawn { config } => Some(config.clone()),
                    _ => None,
                };
                match config {
                    Some(config) => if started {
                        let ghost before = self.backends.deep_view();
                        self.backends.push(config);
                        assert(self.backends.deep_view() =~= before.push(config@));
                        self.next()
                    } else {
                        self.abort()
                    },
                    None => self.halt(),
                }
            },
            Event::Sent(sent) => {
                let critical = match &self.ops[0] {
                    Op::Send { config, body, critical } => Some(*critical),
                    _ => None,
                };
                match critical {
                    Some(critical) => if !sent && critical {
                        self.abort()
                    } else {
                        self.next()
                    },
                    None => self.halt(),
                }
            },
            Event::Received(received) => {
                let waiting = match &self.ops[0] {
                    Op::Await { config, keep, fallback } => Some((*keep, fallback.clone())),
                    _ => None,
                };
                match waiting {
                    Some((keep, fallback)) => match classify(received) {
                        Arrival::Response(text) => match keep {
                            Keep::First => {
                                if self.first_response.is_none() {
                                    self.first_response = Some(text);
                                }
                                self.next()
                            },
                            Keep::Discard => self.next(),
                            Keep::Relay => self.reply_now(text),
                        },
                        Arrival::Notification(text) => {
                            self.phase = Phase::Forwarding;
                            Action::Reply { body: text }
                        },
                        Arrival::Failed => match keep {
                            Keep::Relay => self.reply_now(fallback),
                            _ => self.next(),
                        },
                    },
                    None => self.halt(),
                }
            },
            Event::Replied => {
                let replying = match &self.ops[0] {
                    Op::Reply { body } => true,
                    Op::ReplyFirst => true,
                    _ => false,
                };
                if replying {
                    self.next()
                } else {
                    self.halt()
                }
            },
            _ => self.halt(),
        }
    }

    /// Takes what happened when the last action was carried out, and gives
    /// the next action. The first event is the client's first message.
    ///
    /// A message about a document goes only to the backend of the
    /// document's effective configuration; a request that finds no
    /// configuration, or no response in time, is answered with a null
    /// result. `initialize` starts one backend for each configuration that
    /// the rules name and answers with the first response. Every other
    /// message goes to all backends.
    pub fn step(&mut self, event: Event) -> (action: Action)
        ensures
            (final(self).model(), action.deep_view()) == old(self).model().step(event.deep_view()),
    {
        let mut phase = Phase::Terminated;
        std::mem::swap(&mut self.phase, &mut phase);
        match phase {
            Phase::Idle => {
                self.phase = Phase::Idle;
                match event {
                    Event::Client(Some(text)) => self.on_client(text.as_str()),
                    _ => self.halt(),
                }
            },
            Phase::Content(document) => match event {
                Event::Content(found) => {
                    let by_path = clone_resolution(&document.by_path);
                    let resolution = match &found {
                        Some(name) => self.matcher.apply_content(
                            by_path,
                            Some(name.as_str()),
                            &self.config,
                        ),
                        None => self.matcher.apply_content(by_path, None, &self.config),
                    };
                    self.after_resolution(document, resolution)
                },
                _ => self.halt(),
            },
            Phase::Merge { document, profile_config } => match event {
                Event::Merged(Some(merged)) => self.dispatch(document, merged),
                Event::Merged(None) => self.dispatch(document, profile_config),
                _ => self.halt(),
            },
            Phase::Running => {
                self.phase = Phase::Running;
                self.on_outcome(event)
            },
            Phase::Forwarding => {
                self.phase = Phase::Forwarding;
                match event {
                    Event::Replied => {
                        if self.ops.len() == 0 {
                            return self.halt();
                        }
                        assert(self.ops.deep_view()[0] == self.ops@[0].deep_view());
                        let config = match &self.ops[0] {
                            Op::Await { config, keep, fallback } => Some(config.clone()),
                            _ => None,
                        };
                        match config {
                            Some(config) => {
                                self.phase = Phase::Running;
                                Action::Receive { config }
                            },
                            None => self.halt(),
                        }
                    },
                    _ => self.halt(),
                }
            },
            Phase::Terminated => self.halt(),
        }
    }
}


/// The configuration that an operation is about, where it is about one.
pub open spec fn target(op: OpView) -> Option<Seq<char>> {
    match op {
        OpView::Spawn { config } => Some(config),
        OpView::Send { config, body, critical } => Some(config),
        OpView::Await { config, keep, fallback } => Some(config),
        _ => None,
    }
}

/// The work for a message about a document touches no backend but that of
/// the document's effective configuration, and sends the message itself
/// exactly as it came.
pub proof fn lemma_document_goes_to_one_backend(
    effective: Seq<char>,
    running: Seq<Seq<char>>,
    init_params: Option<JsonView>,
    body: Seq<char>,
    id: Option<JsonView>,
)
    ensures
        forall|i: int|
            0 <= i < document_plan(effective, running, init_params, body, id).len() ==> target(
                #[trigger] document_plan(effective, running, init_params, body, id)[i],
            ) == Some(effective),
        exists|i: int|
            0 <= i < document_plan(effective, running, init_params, body, id).len()
                && #[trigger] document_plan(effective, running, init_params, body, id)[i]
                == (OpView::Send { config: effective, body, critical: true }),
{
    let plan = document_plan(effective, running, init_params, body, id);
    let send = OpView::Send { config: effective, body, critical: true };
    if running.contains(effective) {
        assert(plan[0] == send);
    } else if init_params is Some {
        assert(plan[4] == send);
    } else {
        assert(plan[1] == send);
    }
}

/// The work for `initialize` starts a backend only for a configuration
/// that is asked for and has none yet.
pub proof fn lemma_initialize_starts_missing_backends(
    configs: Seq<Seq<char>>,
    running: Seq<Seq<char>>,
    id: JsonView,
    params: JsonView,
    i: int,
)
    requires
        0 <= i < spawn_plan(configs, running, id, params).len(),
        spawn_plan(configs, running, id, params)[i] is Spawn,
    ensures
        configs.contains(spawn_plan(configs, running, id, params)[i]->Spawn_config),
        !running.contains(spawn_plan(configs, running, id, params)[i]->Spawn_config),
    decreases configs.len(),
{
    if configs.len() > 0 {
        let config = configs[0];
        let rest = configs.drop_first();
        if running.contains(config) {
            lemma_initialize_starts_missing_backends(rest, running, id, params, i);
            let c = spawn_plan(rest, running, id, params)[i]->Spawn_config;
            let k = choose|k: int| 0 <= k < rest.len() && rest[k] == c;
            assert(configs[k + 1] == c);
        } else if i >= 3 {
            lemma_initialize_starts_missing_backends(rest, running.push(config), id, params, i - 3);
            let c = spawn_plan(rest, running.push(config), id, params)[i - 3]->Spawn_config;
            let k = choose|k: int| 0 <= k < rest.len() && rest[k] == c;
            assert(configs[k + 1] == c);
            if running.contains(c) {
                let j = choose|j: int| 0 <= j < running.len() && running[j] == c;
                assert(running.push(config)[j] == c);
            }
        } else {
            assert(configs[0] == config);
        }
    }
}

/// The configurations for which the operations start a backend, in their
/// order.
pub open spec fn spawned(ops: Seq<OpView>) -> Seq<Seq<char>>
    decreases ops.len(),
{
    if ops.len() == 0 {
        Seq::empty()
    } else {
        match ops[0] {
            OpView::Spawn { config } => seq![config] + spawned(ops.drop_first()),
            _ => spawned(ops.drop_first()),
        }
    }
}

impl ProxyView {
    /// No configuration has two backends, nor will have: the running
    /// backends and those that the work at hand is yet to start are all
    /// different.
    pub open spec fn registry_ok(self) -> bool {
        (self.backends + spawned(self.ops)).no_duplicates()
    }
}

proof fn lemma_spawned_concat(a: Seq<OpView>, b: Seq<OpView>)
    ensures
        spawned(a + b) == spawned(a) + spawned(b),
    decreases a.len(),
{
    if a.len() == 0 {
        assert(a + b =~= b);
        assert(spawned(a) + spawned(b) =~= spawned(b));
    } else {
        lemma_spawned_concat(a.drop_first(), b);
        assert((a + b).drop_first() =~= a.drop_first() + b);
        assert((a + b)[0] == a[0]);
        match a[0] {
            OpView::Spawn { config } => {
                assert(seq![config] + (spawned(a.drop_first()) + spawned(b)) =~= (seq![config]
                    + spawned(a.drop_first())) + spawned(b));
            },
            _ => {},
        }
    }
}

proof fn lemma_spawned_none(ops: Seq<OpView>)
    requires
        forall|i: int| 0 <= i < ops.len() ==> !(#[trigger] ops[i] is Spawn),
    ensures
        spawned(ops) == Seq::<Seq<char>>::empty(),
    decreases ops.len(),
{
    if ops.len() > 0 {
        assert(!(ops[0] is Spawn));
        assert forall|i: int| 0 <= i < ops.drop_first().len() implies !(
        #[trigger] ops.drop_first()[i] is Spawn) by {
            assert(ops.drop_first()[i] == ops[i + 1]);
        }
        lemma_spawned_none(ops.drop_first());
    }
}

proof fn lemma_shutdown_plan_spawns_nothing(running: Seq<Seq<char>>, body: Seq<char>)
    ensures
        spawned(shutdown_plan(running, body)) == Seq::<Seq<char>>::empty(),
    decreases running.len(),
{
    if running.len() > 0 {
        lemma_shutdown_plan_spawns_nothing(running.drop_last(), body);
        let tail = seq![
            OpView::Send { config: running.last(), body, critical: false },
            OpView::Await { config: running.last(), keep: Keep::Discard, fallback: Seq::empty() },
        ];
        lemma_spawned_none(tail);
        lemma_spawned_concat(shutdown_plan(running.drop_last(), body), tail);
        assert(Seq::<Seq<char>>::empty() + Seq::<Seq<char>>::empty() =~= Seq::<
            Seq<char>,
        >::empty());
    }
}

proof fn lemma_prefix_no_duplicates(a: Seq<Seq<char>>, b: Seq<Seq<char>>)
    requires
        (a + b).no_duplicates(),
    ensures
        a.no_duplicates(),
{
    assert forall|i: int, j: int| 0 <= i < a.len() && 0 <= j < a.len() && i != j implies a[i]
        != a[j] by {
        assert((a + b)[i] == a[i]);
        assert((a + b)[j] == a[j]);
    }
}

proof fn lemma_push_no_duplicates(a: Seq<Seq<char>>, c: Seq<char>)
    requires
        a.no_duplicates(),
        !a.contains(c),
    ensures
        a.push(c).no_duplicates(),
{
    assert forall|i: int, j: int|
        0 <= i < a.push(c).len() && 0 <= j < a.push(c).len() && i != j implies a.push(c)[i]
        != a.push(c)[j] by {
        if i < a.len() && j < a.len() {
        } else if i < a.len() {
            assert(a.contains(a[i]));
        } else {
            assert(a.contains(a[j]));
        }
    }
}

proof fn lemma_spawn_plan_registry(
    configs: Seq<Seq<char>>,
    running: Seq<Seq<char>>,
    id: JsonView,
    params: JsonView,
)
    requires
        running.no_duplicates(),
    ensures
        (running + spawned(spawn_plan(configs, running, id, params))).no_duplicates(),
    decreases configs.len(),
{
    if configs.len() == 0 {
        let plan = seq![OpView::ReplyFirst];
        lemma_spawned_none(plan);
        assert(running + Seq::<Seq<char>>::empty() =~= running);
    } else {
        let config = configs[0];
        let rest = configs.drop_first();
        if running.contains(config) {
            lemma_spawn_plan_registry(rest, running, id, params);
        } else {
            lemma_push_no_duplicates(running, config);
            lemma_spawn_plan_registry(rest, running.push(config), id, params);
            let head = seq![
                OpView::Spawn { config },
                OpView::Send {
                    config,
                    body: json_text(initialize_request(id, rooted(params, config))),
                    critical: true,
                },
                OpView::Await { config, keep: Keep::First, fallback: Seq::empty() },
            ];
            let tail = spawn_plan(rest, running.push(config), id, params);
            lemma_spawned_concat(head, tail);
            assert(spawned(head) =~= seq![config]) by {
                assert(head.drop_first() =~= seq![head[1], head[2]]);
                lemma_spawned_none(head.drop_first());
            }
            assert(running + (seq![config] + spawned(tail)) =~= running.push(config) + spawned(
                tail,
            ));
        }
    }
}

proof fn lemma_document_plan_registry(
    effective: Seq<char>,
    running: Seq<Seq<char>>,
    init_params: Option<JsonView>,
    body: Seq<char>,
    id: Option<JsonView>,
)
    requires
        running.no_duplicates(),
    ensures
        (running + spawned(
            document_plan(effective, running, init_params, body, id),
        )).no_duplicates(),
{
    let plan = document_plan(effective, running, init_params, body, id);
    if running.contains(effective) {
        lemma_spawned_none(plan);
        assert(running + Seq::<Seq<char>>::empty() =~= running);
    } else {
        assert(plan[0] == (OpView::Spawn { config: effective }));
        lemma_spawned_none(plan.drop_first());
        assert(spawned(plan) =~= seq![effective]);
        lemma_push_no_duplicates(running, effective);
        assert(running + seq![effective] =~= running.push(effective));
    }
}

proof fn lemma_advance_registry(proxy: ProxyView)
    requires
        proxy.registry_ok(),
    ensures
        proxy.advance().0.registry_ok(),
    decreases proxy.ops.len(),
{
    lemma_prefix_no_duplicates(proxy.backends, spawned(proxy.ops));
    assert(proxy.backends + spawned(Seq::<OpView>::empty()) =~= proxy.backends);
    if proxy.ops.len() > 0 {
        match proxy.ops[0] {
            OpView::ReplyFirst => {
                if proxy.first_response is None {
                    lemma_advance_registry(proxy.with_ops(proxy.ops.drop_first()));
                }
            },
            _ => {},
        }
    }
}

proof fn lemma_next_registry(proxy: ProxyView)
    requires
        proxy.registry_ok(),
        proxy.ops.len() > 0,
        !(proxy.ops[0] is Spawn),
    ensures
        proxy.next().0.registry_ok(),
{
    lemma_advance_registry(proxy.with_ops(proxy.ops.drop_first()));
}

proof fn lemma_take_up_registry(proxy: ProxyView, ops: Seq<OpView>)
    requires
        proxy.backends.no_duplicates(),
        spawned(ops) == Seq::<Seq<char>>::empty(),
    ensures
        proxy.with_ops(ops).advance().0.registry_ok(),
{
    assert(proxy.backends + Seq::<Seq<char>>::empty() =~= proxy.backends);
    lemma_advance_registry(proxy.with_ops(ops));
}

proof fn lemma_dispatch_registry(proxy: ProxyView, document: DocumentView, effective: Seq<char>)
    requires
        proxy.backends.no_duplicates(),
    ensures
        proxy.dispatch(document, effective).0.registry_ok(),
{
    lemma_document_plan_registry(
        effective,
        proxy.backends,
        proxy.init_params,
        document.body,
        document.id,
    );
    lemma_advance_registry(
        proxy.with_ops(
            document_plan(
                effective,
                proxy.backends,
                proxy.init_params,
                document.body,
                document.id,
            ),
        ),
    );
}

proof fn lemma_after_resolution_registry(
    proxy: ProxyView,
    document: DocumentView,
    resolution: Resolved,
)
    requires
        proxy.backends.no_duplicates(),
    ensures
        proxy.after_resolution(document, resolution).0.registry_ok(),
{
    assert(proxy.backends + spawned(Seq::<OpView>::empty()) =~= proxy.backends);
    match resolution {
        Ok(Some(ProfileResolutionView::Config(profile_config))) => {
            lemma_dispatch_registry(proxy, document, profile_config);
        },
        _ => {
            let ops = seq![OpView::Reply { body: json_text(null_result(document.id)) }];
            lemma_spawned_none(ops);
            lemma_take_up_registry(proxy, ops);
        },
    }
}

proof fn lemma_on_client_registry(proxy: ProxyView, text: Seq<char>)
    requires
        proxy.backends.no_duplicates(),
    ensures
        proxy.on_client(text).0.registry_ok(),
{
    assert(proxy.backends + spawned(Seq::<OpView>::empty()) =~= proxy.backends);
    match json_parse(text) {
        None => {},
        Some(message) => {
            let method = match message.get("method"@) {
                Some(m) => m.as_str(),
                None => None,
            };
            let id = message.get("id"@);
            let body = json_text(message);
            let broadcast = broadcast_plan(proxy.backends, body);
            lemma_spawned_none(broadcast);
            if method == Some("initialize"@) {
                let params = message.get("params"@);
                let plan = spawn_plan(
                    profile_configs(proxy.config.rules(), proxy.config),
                    proxy.backends,
                    match id {
                        Some(id) => id,
                        None => JsonView::Null,
                    },
                    match params {
                        Some(params) => params,
                        None => JsonView::Object(Seq::empty()),
                    },
                );
                lemma_spawn_plan_registry(
                    profile_configs(proxy.config.rules(), proxy.config),
                    proxy.backends,
                    match id {
                        Some(id) => id,
                        None => JsonView::Null,
                    },
                    match params {
                        Some(params) => params,
                        None => JsonView::Object(Seq::empty()),
                    },
                );
                lemma_advance_registry(
                    ProxyView { init_params: params, first_response: None, ops: plan, ..proxy },
                );
            } else if method == Some("initialized"@) {
                lemma_take_up_registry(proxy, broadcast);
            } else if method == Some("shutdown"@) {
                let tail = seq![OpView::Reply { body: json_text(null_result(id)) }];
                lemma_shutdown_plan_spawns_nothing(proxy.backends, body);
                lemma_spawned_none(tail);
                lemma_spawned_concat(shutdown_plan(proxy.backends, body), tail);
                assert(Seq::<Seq<char>>::empty() + Seq::<Seq<char>>::empty() =~= Seq::<
                    Seq<char>,
                >::empty());
                lemma_take_up_registry(proxy, shutdown_plan(proxy.backends, body) + tail);
            } else if method == Some("exit"@) {
                lemma_spawned_none(broadcast + seq![OpView::Stop]);
                lemma_take_up_registry(proxy, broadcast + seq![OpView::Stop]);
            } else if method is Some && has_prefix(method->0, "textDocument/"@) {
                match uri_of(message) {
                    None => {},
                    Some(uri) => {
                        let file_path = path_of_uri(uri);
                        let by_path = resolved_by_path(proxy.rules, proxy.config, file_path);
                        let document = DocumentView {
                            file_path,
                            body: json_text(message),
                            id: message.get("id"@),
                            by_path,
                        };
                        lemma_after_resolution_registry(proxy, document, by_path);
                    },
                }
            } else {
                lemma_spawned_none(proxy.other_plan(message));
                lemma_take_up_registry(proxy, proxy.other_plan(message));
            }
        },
    }
}

/// The registry of backends stays sound: where no configuration has two
/// backends and the work at hand starts none twice, the same holds after
/// any event.
pub proof fn lemma_step_keeps_registry(proxy: ProxyView, event: EventView)
    requires
        proxy.registry_ok(),
    ensures
        proxy.step(event).0.registry_ok(),
        proxy.step(event).0.backends.no_duplicates(),
{
    lemma_prefix_no_duplicates(proxy.backends, spawned(proxy.ops));
    assert(proxy.backends + spawned(Seq::<OpView>::empty()) =~= proxy.backends);
    match proxy.phase {
        PhaseView::Idle => match event {
            EventView::Client(Some(text)) => lemma_on_client_registry(proxy, text),
            _ => {},
        },
        PhaseView::Content(document) => match event {
            EventView::Content(found) => lemma_after_resolution_registry(
                proxy,
                document,
                resolved_with_content(document.by_path, found, proxy.config),
            ),
            _ => {},
        },
        PhaseView::Merge { document, profile_config } => match event {
            EventView::Merged(Some(merged)) => lemma_dispatch_registry(proxy, document, merged),
            EventView::Merged(None) => lemma_dispatch_registry(proxy, document, profile_config),
            _ => {},
        },
        PhaseView::Running => {
            if proxy.ops.len() > 0 {
                match (proxy.ops[0], event) {
                    (OpView::Spawn { config }, EventView::Spawned(started)) => {
                        if started {
                            let grown = ProxyView {
                                backends: proxy.backends.push(config),
                                ..proxy
                            };
                            assert(grown.backends + spawned(proxy.ops.drop_first())
                                =~= proxy.backends + spawned(proxy.ops));
                            lemma_advance_registry(grown.with_ops(grown.ops.drop_first()));
                        }
                    },
                    (OpView::Send { config, body, critical }, EventView::Sent(sent)) => {
                        lemma_next_registry(proxy);
                    },
                    (OpView::Await { config, keep, fallback }, EventView::Received(received)) => {
                        lemma_next_registry(proxy);
                        lemma_next_registry(
                            ProxyView {
                                first_response: match proxy.first_response {
                                    Some(first) => Some(first),
                                    None => match incoming(received) {
                                        Incoming::Response(text) => Some(text),
                                        _ => None,
                                    },
                                },
                                ..proxy
                            },
                        );
                        assert forall|body: Seq<char>|
                            spawned(#[trigger] proxy.ops.update(0, OpView::Reply { body }))
                                == spawned(proxy.ops) by {
                            assert(proxy.ops.update(0, OpView::Reply { body }).drop_first()
                                =~= proxy.ops.drop_first());
                        }
                    },
                    (OpView::Reply { body }, EventView::Replied) => {
                        lemma_next_registry(proxy);
                    },
                    (OpView::ReplyFirst, EventView::Replied) => {
                        lemma_next_registry(proxy);
                    },
                    _ => {},
                }
            }
        },
        PhaseView::Forwarding => {},
        PhaseView::Terminated => {},
    }
    lemma_prefix_no_duplicates(proxy.step(event).0.backends, spawned(proxy.step(event).0.ops));
}

/// A message about a document is resolved before anything else is done
/// with it. Its path decides at once; only where the path resolves and the
/// proxy has content rules is the scan of the file asked for, and what the
/// scan finds completes the resolution.
pub proof fn lemma_document_message_is_resolved(
    proxy: ProxyView,
    text: Seq<char>,
    message: JsonView,
    method: Seq<char>,
    uri: Seq<char>,
)
    requires
        proxy.phase is Idle,
        json_parse(text) == Some(message),
        message.get("method"@) == Some(JsonView::Str(method)),
        has_prefix(method, "textDocument/"@),
        uri_of(message) == Some(uri),
    ensures
        ({
            let by_path = resolved_by_path(proxy.rules, proxy.config, path_of_uri(uri));
            let document = DocumentView {
                file_path: path_of_uri(uri),
                body: json_text(message),
                id: message.get("id"@),
                by_path,
            };
            let first = proxy.step(EventView::Client(Some(text)));
            if proxy.content_rules is Some && by_path matches Ok(Some(_)) {
                &&& first.1 == (ActionView::ScanContent { path: path_of_uri(uri) })
                &&& forall|found: Option<Seq<char>>|
                    #[trigger] first.0.step(EventView::Content(found)) == proxy.after_resolution(
                        document,
                        resolved_with_content(by_path, found, proxy.config),
                    )
            } else {
                first == proxy.after_resolution(document, by_path)
            }
        }),
{
    reveal_strlit("textDocument/");
    reveal_strlit("initialize");
    reveal_strlit("initialized");
    reveal_strlit("shutdown");
    reveal_strlit("exit");
    let prefix = "textDocument/"@;
    assert(prefix.len() == 13 && prefix[0] == 't');
    assert(method.subrange(0, 13)[0] == method[0]);
    assert(method[0] == 't');
    assert(method != "initialize"@);
    assert(method != "initialized"@);
    assert(method != "shutdown"@);
    assert(method != "exit"@);
    let by_path = resolved_by_path(proxy.rules, proxy.config, path_of_uri(uri));
    let document = DocumentView {
        file_path: path_of_uri(uri),
        body: json_text(message),
        id: message.get("id"@),
        by_path,
    };
    let first = proxy.step(EventView::Client(Some(text)));
    assert(first == proxy.on_document(message));
    if proxy.content_rules is Some && by_path matches Ok(Some(_)) {
        assert forall|found: Option<Seq<char>>|
            #[trigger] first.0.step(EventView::Content(found)) == proxy.after_resolution(
                document,
                resolved_with_content(by_path, found, proxy.config),
            ) by {
            let resolution = resolved_with_content(by_path, found, proxy.config);
            lemma_after_resolution_ignores_phase(proxy, first.0, document, resolution);
        }
    }
}

/// What follows the resolution of a document depends on neither the phase
/// nor the work that was at hand.
proof fn lemma_after_resolution_ignores_phase(
    a: ProxyView,
    b: ProxyView,
    document: DocumentView,
    resolution: Resolved,
)
    requires
        b == (ProxyView { phase: b.phase, ops: b.ops, ..a }),
    ensures
        a.after_resolution(document, resolution) == b.after_resolution(document, resolution),
{
    match resolution {
        Ok(Some(ProfileResolutionView::Config(profile_config))) => {
            match parent_of(document.file_path) {
                Some(dir) => {},
                None => {
                    let plan = document_plan(
                        profile_config,
                        a.backends,
                        a.init_params,
                        document.body,
                        document.id,
                    );
                    lemma_advance_ignores_phase(a.with_ops(plan), b.with_ops(plan));
                },
            }
        },
        _ => {
            let ops = seq![OpView::Reply { body: json_text(null_result(document.id)) }];
            lemma_advance_ignores_phase(a.with_ops(ops), b.with_ops(ops));
        },
    }
}

/// Taking up the work at hand does not depend on the phase.
proof fn lemma_advance_ignores_phase(a: ProxyView, b: ProxyView)
    requires
        b == (ProxyView { phase: b.phase, ..a }),
    ensures
        a.advance() == b.advance(),
    decreases a.ops.len(),
{
    if a.ops.len() > 0 {
        match a.ops[0] {
            OpView::ReplyFirst => {
                if a.first_response is None {
                    lemma_advance_ignores_phase(
                        a.with_ops(a.ops.drop_first()),
                        b.with_ops(b.ops.drop_first()),
                    );
                }
            },
            _ => {},
        }
    }
}

/// A request about a document whose backend runs goes to that backend
/// alone, once and as it came; no backend is started, and no other backend
/// is sent anything. A response that comes in time goes to the client as
/// it came, once. Where none comes in time, the client gets a null result
/// under the identifier of the request. Either way the proxy then reads the
/// next message of the client, with its backends as they were.
///
/// `document` is the message, resolved to the configuration `profile`;
/// `merged` is what the merge with a local configuration gave, so that the
/// effective configuration is the merged one, or the profile's where
/// nothing was merged.
pub proof fn lemma_request_is_routed_and_answered(
    proxy: ProxyView,
    document: DocumentView,
    profile: Seq<char>,
    merged: Option<Seq<char>>,
    dir: Seq<char>,
    response: Seq<char>,
)
    requires
        proxy.ops.len() == 0,
        document.id is Some,
        parent_of(document.file_path) == Some(dir),
        proxy.backends.contains(
            match merged {
                Some(path) => path,
                None => profile,
            },
        ),
        incoming(Some(response)) == Incoming::Response(response),
    ensures
        ({
            let effective = match merged {
                Some(path) => path,
                None => profile,
            };
            let resolved = proxy.after_resolution(
                document,
                Ok(Some(ProfileResolutionView::Config(profile))),
            );
            let sent = resolved.0.step(EventView::Merged(merged));
            let waiting = sent.0.step(EventView::Sent(true));
            let answered = waiting.0.step(EventView::Received(Some(response)));
            let silent = waiting.0.step(EventView::Received(None));
            &&& resolved.1 == (ActionView::Merge { dir, profile_config: profile })
            &&& sent.1 == (ActionView::Send { config: effective, body: document.body })
            &&& waiting.1 == (ActionView::Receive { config: effective })
            &&& answered.1 == (ActionView::Reply { body: response })
            &&& answered.0.step(EventView::Replied) == (proxy.idle(), ActionView::ReadClient)
            &&& silent.1 == (ActionView::Reply { body: json_text(null_result(document.id)) })
            &&& silent.0.step(EventView::Replied) == (proxy.idle(), ActionView::ReadClient)
        }),
{
    let effective = match merged {
        Some(path) => path,
        None => profile,
    };
    let resolved = proxy.after_resolution(
        document,
        Ok(Some(ProfileResolutionView::Config(profile))),
    );
    let plan = document_plan(
        effective,
        proxy.backends,
        proxy.init_params,
        document.body,
        document.id,
    );
    let send = OpView::Send { config: effective, body: document.body, critical: true };
    let wait = OpView::Await {
        config: effective,
        keep: Keep::Relay,
        fallback: json_text(null_result(document.id)),
    };
    assert(plan =~= seq![send, wait]);
    let sent = resolved.0.step(EventView::Merged(merged));
    assert(sent.0.ops == plan);
    let waiting = sent.0.step(EventView::Sent(true));
    assert(plan.drop_first() =~= seq![wait]);
    assert(waiting.0.ops == seq![wait]);
    let answered = waiting.0.step(EventView::Received(Some(response)));
    assert(answered.0.ops =~= seq![OpView::Reply { body: response }]);
    assert(answered.0.ops.drop_first() =~= Seq::<OpView>::empty());
    let silent = waiting.0.step(EventView::Received(None));
    assert(silent.0.ops =~= seq![
        OpView::Reply { body: json_text(null_result(document.id)) },
    ]);
    assert(silent.0.ops.drop_first() =~= Seq::<OpView>::empty());
    assert(proxy.ops =~= Seq::<OpView>::empty());
}

/// The proxy after a run of events, and the actions that it asked for, one
/// for each event.
pub open spec fn trace(proxy: ProxyView, events: Seq<EventView>) -> (ProxyView, Seq<ActionView>)
    decreases events.len(),
{
    if events.len() == 0 {
        (proxy, Seq::empty())
    } else {
        let first = proxy.step(events[0]);
        let rest = trace(first.0, events.drop_first());
        (rest.0, seq![first.1] + rest.1)
    }
}

/// What happens while `initialize` is carried out where all goes well: for
/// each backend in turn it is started, the request is sent, and its
/// response comes.
pub open spec fn answers(responses: Seq<Seq<char>>) -> Seq<EventView>
    decreases responses.len(),
{
    if responses.len() == 0 {
        Seq::empty()
    } else {
        seq![
            EventView::Spawned(true),
            EventView::Sent(true),
            EventView::Received(Some(responses[0])),
        ] + answers(responses.drop_first())
    }
}

/// What the proxy asks for to carry out `initialize`: for each
/// configuration in turn the start of its backend, the sending of the
/// request with the backend's own workspace root, and the wait for the
/// response.
pub open spec fn fan_out(configs: Seq<Seq<char>>, id: JsonView, params: JsonView) -> Seq<
    ActionView,
>
    decreases configs.len(),
{
    if configs.len() == 0 {
        Seq::empty()
    } else {
        seq![
            ActionView::Spawn { config: configs[0] },
            ActionView::Send {
                config: configs[0],
                body: json_text(initialize_request(id, rooted(params, configs[0]))),
            },
            ActionView::Receive { config: configs[0] },
        ] + fan_out(configs.drop_first(), id, params)
    }
}

/// How `initialize` ends: the kept response goes to the client, or, where
/// there is none, the next message is read at once.
pub open spec fn fan_in(first: Option<Seq<char>>) -> ActionView {
    match first {
        Some(body) => ActionView::Reply { body },
        None => ActionView::ReadClient,
    }
}

proof fn lemma_fan_out(
    proxy: ProxyView,
    configs: Seq<Seq<char>>,
    responses: Seq<Seq<char>>,
    id: JsonView,
    params: JsonView,
)
    requires
        proxy.ops == spawn_plan(configs, proxy.backends, id, params),
        configs.no_duplicates(),
        forall|i: int| 0 <= i < configs.len() ==> !proxy.backends.contains(#[trigger] configs[i]),
        responses.len() == configs.len(),
        forall|i: int|
            0 <= i < responses.len() ==> incoming(Some(#[trigger] responses[i]))
                == Incoming::Response(responses[i]),
    ensures
        ({
            let begun = proxy.advance();
            let done = trace(begun.0, answers(responses));
            let first = match proxy.first_response {
                Some(body) => Some(body),
                None => if responses.len() > 0 {
                    Some(responses[0])
                } else {
                    None
                },
            };
            &&& seq![begun.1] + done.1 == fan_out(configs, id, params) + seq![fan_in(first)]
            &&& done.0.backends == proxy.backends + configs
            &&& done.0.first_response == first
            &&& done.0 == match first {
                Some(body) => ProxyView {
                    backends: proxy.backends + configs,
                    first_response: first,
                    ops: seq![OpView::ReplyFirst],
                    phase: PhaseView::Running,
                    ..proxy
                },
                None => ProxyView {
                    backends: proxy.backends + configs,
                    first_response: first,
                    ops: Seq::empty(),
                    phase: PhaseView::Idle,
                    ..proxy
                },
            }
        }),
    decreases configs.len(),
{
    let begun = proxy.advance();
    if configs.len() == 0 {
        assert(answers(responses) =~= Seq::<EventView>::empty());
        assert(proxy.backends + configs =~= proxy.backends);
        assert(proxy.ops =~= seq![OpView::ReplyFirst]);
        assert(proxy.ops.drop_first() =~= Seq::<OpView>::empty());
        assert(fan_out(configs, id, params) + seq![fan_in(proxy.first_response)] =~= seq![
            fan_in(proxy.first_response),
        ]);
        assert(seq![begun.1] + Seq::<ActionView>::empty() =~= seq![begun.1]);
        let emptied = proxy.with_ops(proxy.ops.drop_first());
        assert(emptied.advance() == emptied.abort());
        assert(proxy.ops[0] == OpView::ReplyFirst);
    } else {
        let config = configs[0];
        let rest = configs.drop_first();
        let body = json_text(initialize_request(id, rooted(params, config)));
        let send = OpView::Send { config, body, critical: true };
        let wait = OpView::Await { config, keep: Keep::First, fallback: Seq::empty() };
        let grown = proxy.backends.push(config);
        let tail = spawn_plan(rest, grown, id, params);
        assert(!proxy.backends.contains(configs[0]));
        assert(proxy.ops =~= seq![OpView::Spawn { config }, send, wait] + tail);
        // The three events of this backend, one after the other.
        let started = begun.0.step(EventView::Spawned(true));
        assert(proxy.ops.drop_first() =~= seq![send, wait] + tail);
        assert(started.1 == (ActionView::Send { config, body }));
        let sent = started.0.step(EventView::Sent(true));
        assert(started.0.ops.drop_first() =~= seq![wait] + tail);
        assert(sent.1 == (ActionView::Receive { config }));
        let answered = sent.0.step(EventView::Received(Some(responses[0])));
        assert(sent.0.ops.drop_first() =~= tail);
        let kept = match proxy.first_response {
            Some(first) => Some(first),
            None => Some(responses[0]),
        };
        let next = ProxyView { backends: grown, first_response: kept, ops: tail, ..proxy };
        lemma_advance_ignores_phase(
            next,
            ProxyView { phase: PhaseView::Running, ..next },
        );
        assert(answered == next.advance());
        // The backends that are left.
        assert forall|i: int| 0 <= i < rest.len() implies !grown.contains(#[trigger] rest[i]) by {
            assert(rest[i] == configs[i + 1]);
            assert(!proxy.backends.contains(configs[i + 1]));
            if grown.contains(rest[i]) {
                let j = choose|j: int| 0 <= j < grown.len() && grown[j] == rest[i];
                if j < proxy.backends.len() {
                    assert(proxy.backends[j] == rest[i]);
                } else {
                    assert(configs[0] == configs[i + 1]);
                }
            }
        }
        assert forall|i: int, j: int|
            0 <= i < rest.len() && 0 <= j < rest.len() && i != j implies rest[i] != rest[j] by {
            assert(rest[i] == configs[i + 1] && rest[j] == configs[j + 1]);
        }
        let later = responses.drop_first();
        assert forall|i: int| 0 <= i < later.len() implies incoming(Some(#[trigger] later[i]))
            == Incoming::Response(later[i]) by {
            assert(later[i] == responses[i + 1]);
        }
        lemma_fan_out(next, rest, later, id, params);
        let done_rest = trace(next.advance().0, answers(later));
        // The run as a whole.
        let events = answers(responses);
        assert(events =~= seq![
            EventView::Spawned(true),
            EventView::Sent(true),
            EventView::Received(Some(responses[0])),
        ] + answers(later));
        assert(events.drop_first() =~= seq![
            EventView::Sent(true),
            EventView::Received(Some(responses[0])),
        ] + answers(later));
        assert(events.drop_first().drop_first() =~= seq![
            EventView::Received(Some(responses[0])),
        ] + answers(later));
        assert(events.drop_first().drop_first().drop_first() =~= answers(later));
        let third = trace(sent.0, events.drop_first().drop_first());
        assert(third == (done_rest.0, seq![answered.1] + done_rest.1));
        let second = trace(started.0, events.drop_first());
        assert(second == (third.0, seq![sent.1] + third.1));
        let done = trace(begun.0, events);
        assert(done == (second.0, seq![started.1] + second.1));
        assert(grown + rest =~= proxy.backends + configs);
        let first = match proxy.first_response {
            Some(body) => Some(body),
            None => Some(responses[0]),
        };
        assert(seq![begun.1] + done.1 =~= seq![
            ActionView::Spawn { config },
            ActionView::Send { config, body },
            ActionView::Receive { config },
        ] + (seq![answered.1] + done_rest.1));
        assert(fan_out(configs, id, params) + seq![fan_in(first)] =~= seq![
            ActionView::Spawn { config },
            ActionView::Send { config, body },
            ActionView::Receive { config },
        ] + (fan_out(rest, id, params) + seq![fan_in(first)]));
    }
}

/// `initialize` starts exactly one backend for each configuration that the
/// rules name, in the order in which the rules first name them, and the
/// client gets exactly one answer: the response of the first backend, as it
/// came.
///
/// The proxy has no backend yet; the configurations of the profiles are
/// all different; every backend starts, takes the request, and answers in
/// time with the response that `responses` holds for it.
pub proof fn lemma_initialize_fans_out(
    proxy: ProxyView,
    text: Seq<char>,
    message: JsonView,
    responses: Seq<Seq<char>>,
)
    requires
        proxy.phase is Idle,
        proxy.ops.len() == 0,
        proxy.backends.len() == 0,
        json_parse(text) == Some(message),
        message.get("method"@) == Some(JsonView::Str("initialize"@)),
        profile_configs(proxy.config.rules(), proxy.config).no_duplicates(),
        responses.len() == profile_configs(proxy.config.rules(), proxy.config).len(),
        responses.len() > 0,
        forall|i: int|
            0 <= i < responses.len() ==> incoming(Some(#[trigger] responses[i]))
                == Incoming::Response(responses[i]),
    ensures
        ({
            let configs = profile_configs(proxy.config.rules(), proxy.config);
            let id = match message.get("id"@) {
                Some(id) => id,
                None => JsonView::Null,
            };
            let params = match message.get("params"@) {
                Some(params) => params,
                None => JsonView::Object(Seq::empty()),
            };
            let done = trace(
                proxy,
                seq![EventView::Client(Some(text))] + answers(responses) + seq![EventView::Replied],
            );
            &&& done.1 == fan_out(configs, id, params) + seq![
                ActionView::Reply { body: responses[0] },
                ActionView::ReadClient,
            ]
            &&& done.0.backends == configs
            &&& done.0.phase is Idle
            &&& done.0.ops.len() == 0
        }),
{
    let configs = profile_configs(proxy.config.rules(), proxy.config);
    let id = match message.get("id"@) {
        Some(id) => id,
        None => JsonView::Null,
    };
    let params = match message.get("params"@) {
        Some(params) => params,
        None => JsonView::Object(Seq::empty()),
    };
    let planned = ProxyView {
        init_params: message.get("params"@),
        first_response: None,
        ops: spawn_plan(configs, proxy.backends, id, params),
        ..proxy
    };
    let begun = proxy.step(EventView::Client(Some(text)));
    assert(begun == planned.advance());
    lemma_fan_out(planned, configs, responses, id, params);
    let middle = trace(begun.0, answers(responses));
    assert(proxy.backends + configs =~= configs);
    let last = middle.0.step(EventView::Replied);
    assert(middle.0.ops.drop_first() =~= Seq::<OpView>::empty());
    assert(last.1 == ActionView::ReadClient);
    let events = seq![EventView::Client(Some(text))] + answers(responses) + seq![
        EventView::Replied,
    ];
    assert(events.drop_first() =~= answers(responses) + seq![EventView::Replied]);
    lemma_trace_then(begun.0, answers(responses), EventView::Replied);
    assert(trace(begun.0, events.drop_first()) == (last.0, middle.1 + seq![last.1]));
    assert(seq![begun.1] + (middle.1 + seq![last.1]) =~= (seq![begun.1] + middle.1) + seq![
        last.1,
    ]);
    assert((fan_out(configs, id, params) + seq![fan_in(Some(responses[0]))]) + seq![
        ActionView::ReadClient,
    ] =~= fan_out(configs, id, params) + seq![
        ActionView::Reply { body: responses[0] },
        ActionView::ReadClient,
    ]);
}

/// A run of events and one more event: the run, and then the step.
proof fn lemma_trace_then(proxy: ProxyView, events: Seq<EventView>, last: EventView)
    ensures
        trace(proxy, events + seq![last]) == (
            trace(proxy, events).0.step(last).0,
            trace(proxy, events).1 + seq![trace(proxy, events).0.step(last).1],
        ),
    decreases events.len(),
{
    if events.len() == 0 {
        assert(events + seq![last] =~= seq![last]);
        assert(seq![last].drop_first() =~= Seq::<EventView>::empty());
        let step = proxy.step(last);
        assert(trace(step.0, Seq::<EventView>::empty()) == (step.0, Seq::<ActionView>::empty()));
        assert(seq![step.1] + Seq::<ActionView>::empty() =~= Seq::<ActionView>::empty() + seq![
            step.1,
        ]);
    } else {
        let first = proxy.step(events[0]);
        lemma_trace_then(first.0, events.drop_first(), last);
        assert((events + seq![last]).drop_first() =~= events.drop_first() + seq![last]);
        assert((events + seq![last])[0] == events[0]);
        let rest = trace(first.0, events.drop_first());
        let end = rest.0.step(last);
        assert(seq![first.1] + (rest.1 + seq![end.1]) =~= (seq![first.1] + rest.1) + seq![end.1]);
    }
}

/// The configurations that `initialize` asks for are those of the profiles
/// that the rules name, and no others: a path is among them exactly where a
/// rule names a profile with that configuration file.
pub proof fn lemma_profile_configs(rules: Seq<(Seq<char>, Seq<char>)>, config: DprintxConfigView)
    ensures
        forall|path: Seq<char>|
            profile_configs(rules, config).contains(path) <==> exists|j: int|
                0 <= j < rules.len() && config.profile_config_path((#[trigger] rules[j]).1)
                    == Some(path),
    decreases rules.len(),
{
    if rules.len() > 0 {
        let front = rules.drop_last();
        let name = rules.last().1;
        let before = profile_configs(front, config);
        let all = profile_configs(rules, config);
        lemma_profile_configs(front, config);
        assert forall|path: Seq<char>| all.contains(path) <==> exists|j: int|
            0 <= j < rules.len() && config.profile_config_path((#[trigger] rules[j]).1) == Some(
                path,
            ) by {
            if all.contains(path) {
                let i = choose|i: int| 0 <= i < all.len() && all[i] == path;
                if i < before.len() {
                    assert(before[i] == path);
                    assert(before.contains(path));
                    let j = choose|j: int|
                        0 <= j < front.len() && config.profile_config_path(
                            (#[trigger] front[j]).1,
                        ) == Some(path);
                    assert(rules[j] == front[j]);
                } else {
                    assert(config.profile_config_path(rules[rules.len() - 1].1) == Some(path));
                }
            }
            if exists|j: int|
                0 <= j < rules.len() && config.profile_config_path((#[trigger] rules[j]).1)
                    == Some(path) {
                let j = choose|j: int|
                    0 <= j < rules.len() && config.profile_config_path((#[trigger] rules[j]).1)
                        == Some(path);
                if j < front.len() {
                    assert(front[j] == rules[j]);
                    assert(before.contains(path));
                    let i = choose|i: int| 0 <= i < before.len() && before[i] == path;
                    assert(all[i] == path);
                } else if names_profile(front, name) {
                    let k = choose|k: int| 0 <= k < front.len() && (#[trigger] front[k]).1 == name;
                    assert(config.profile_config_path(front[k].1) == Some(path));
                    assert(before.contains(path));
                } else {
                    assert(all[before.len() as int] == path);
                }
            }
        }
    }
}

} // verus!
