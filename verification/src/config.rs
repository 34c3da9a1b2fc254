//! The routing configuration, and the merge of a project's own formatter
//! configuration with the profile that a file resolves to.

use vstd::prelude::*;
use vstd::string::StringExecFns;
use crate::json::{
    clone_members, find_member, first_key, items_view, json_parse, json_pretty_text,
    lemma_array_view, lemma_first_key, lemma_object_view, members_view, Json, JsonView,
};

verus! {

/// Why a text is no routing configuration.
#[derive(Debug, PartialEq, Eq, Clone, Copy)]
pub enum ConfigError {
    /// The text is not JSON, even with comments and trailing commas removed.
    Syntax,
    /// The text is JSON, but a required member is missing or a member has
    /// the wrong type.
    Shape,
}

impl ConfigError {
    /// The message for this error.
    pub fn message(&self) -> (r: String)
        ensures
            r@ == match self {
                ConfigError::Syntax => "invalid dprintx.jsonc format: not JSON"@,
                ConfigError::Shape => "invalid dprintx.jsonc format: a required member is missing or a member has the wrong type"@,
            },
    {
        match self {
            ConfigError::Syntax => "invalid dprintx.jsonc format: not JSON".to_owned(),
            ConfigError::Shape => "invalid dprintx.jsonc format: a required member is missing or a member has the wrong type".to_owned(),
        }
    }
}

/// What a file resolves to: the configuration file to format it with, or the
/// decision to leave it alone.
#[derive(Debug, PartialEq, Eq, Clone)]
pub enum ProfileResolution {
    /// Format the file with this configuration file.
    Config(String),
    /// Skip the file.
    Ignore,
}

/// The mathematical value of a [`ProfileResolution`].
pub enum ProfileResolutionView {
    Config(Seq<char>),
    Ignore,
}

impl DeepView for ProfileResolution {
    type V = ProfileResolutionView;

    open spec fn deep_view(&self) -> ProfileResolutionView {
        match self {
            ProfileResolution::Config(path) => ProfileResolutionView::Config(path@),
            ProfileResolution::Ignore => ProfileResolutionView::Ignore,
        }
    }
}

/// Whether a path begins with `~/`.
pub open spec fn has_tilde(path: Seq<char>) -> bool {
    path.len() >= 2 && path[0] == '~' && path[1] == '/'
}

/// A path with a leading `~/` replaced by the home directory, where one is
/// known; any other path as it is.
pub open spec fn expanded(path: Seq<char>, home: Option<Seq<char>>) -> Seq<char> {
    match home {
        Some(h) => if has_tilde(path) {
            crate::paths::joined(h, path.skip(2))
        } else {
            path
        },
        None => path,
    }
}

/// `dirs::home_dir`: the home directory of the current user, where the
/// environment or the user database names one.
#[verifier::external_body]
pub(crate) fn home_dir() -> (r: Option<String>) {
    dirs::home_dir().map(|p| p.to_string_lossy().into_owned())
}

/// Expands a leading `~/` of `path` to the home directory `home`.
pub fn expand_tilde_with(path: &str, home: Option<&str>) -> (r: String)
    ensures
        r@ == expanded(path@, home.deep_view()),
{
    match home {
        Some(h) => {
            let chars = crate::text::chars_of(path);
            if chars.len() >= 2 && chars[0] == '~' && chars[1] == '/' {
                let rest = crate::text::string_of_range(&chars, 2, chars.len());
                assert(rest@ == path@.skip(2));
                crate::paths::path_join(h, rest.as_str())
            } else {
                path.to_owned()
            }
        },
        None => path.to_owned(),
    }
}

/// Expands a leading `~/` of `path` to the home directory of the current
/// user. A path without it, and any path where no home directory is known,
/// comes back as it is.
pub fn expand_tilde(path: &str) -> (r: String)
    ensures
        exists|home: Option<Seq<char>>| r@ == expanded(path@, home),
        !has_tilde(path@) ==> r@ == path@,
{
    let home = home_dir();
    let r = match &home {
        Some(h) => expand_tilde_with(path, Some(h.as_str())),
        None => expand_tilde_with(path, None),
    };
    assert(r@ == expanded(path@, home.deep_view()));
    r
}


/// The routing configuration: where the formatter is, the named profiles,
/// and the ordered rules that send a file to a profile.
#[derive(Debug)]
pub struct DprintxConfig {
    /// Path of the formatter binary; a leading `~/` stands for the home
    /// directory.
    pub dprint: String,
    /// The profiles by name: a string names the profile's configuration file,
    /// `null` is the profile that ignores a file.
    pub profiles: Vec<(String, Json)>,
    /// The glob rules in their declared order, each with the profile it
    /// names. The first rule that matches a path wins.
    pub match_rules: Vec<(String, Json)>,
    /// The content rules in their declared order, each a regular expression
    /// with the profile it names.
    pub match_content: Option<Vec<(String, Json)>>,
    /// A pager command for the differences that a check finds.
    pub diff_pager: Option<String>,
    /// Whether the proxy rewrites file URIs by the editor's language id.
    pub lsp_rewrite_uris: bool,
    /// The home directory by which a leading `~/` is expanded.
    pub home: Option<String>,
}

/// The mathematical value of a [`DprintxConfig`].
pub struct DprintxConfigView {
    pub dprint: Seq<char>,
    pub profiles: Seq<(Seq<char>, JsonView)>,
    pub match_rules: Seq<(Seq<char>, JsonView)>,
    pub match_content: Option<Seq<(Seq<char>, JsonView)>>,
    pub diff_pager: Option<Seq<char>>,
    pub lsp_rewrite_uris: bool,
    pub home: Option<Seq<char>>,
}

impl DeepView for DprintxConfig {
    type V = DprintxConfigView;

    open spec fn deep_view(&self) -> DprintxConfigView {
        DprintxConfigView {
            dprint: self.dprint@,
            profiles: members_view(self.profiles@),
            match_rules: members_view(self.match_rules@),
            match_content: match self.match_content {
                Some(rules) => Some(members_view(rules@)),
                None => None,
            },
            diff_pager: self.diff_pager.deep_view(),
            lsp_rewrite_uris: self.lsp_rewrite_uris,
            home: self.home.deep_view(),
        }
    }
}

/// The rules among `members` whose value is a string, in their order, each
/// as pattern and profile name.
pub open spec fn string_rules(members: Seq<(Seq<char>, JsonView)>) -> Seq<(Seq<char>, Seq<char>)>
    decreases members.len(),
{
    if members.len() == 0 {
        Seq::empty()
    } else {
        let rest = string_rules(members.drop_last());
        match members.last().1 {
            JsonView::Str(profile) => rest.push((members.last().0, profile)),
            _ => rest,
        }
    }
}

/// An optional member that must be an object where it is present and not
/// `null`: `Some` of its members, `Some(None)` where it is absent, `None`
/// where it has another type.
pub open spec fn optional_object(j: JsonView, key: Seq<char>) -> Option<
    Option<Seq<(Seq<char>, JsonView)>>,
> {
    match j.get(key) {
        None => Some(None),
        Some(JsonView::Null) => Some(None),
        Some(JsonView::Object(members)) => Some(Some(members)),
        _ => None,
    }
}

/// An optional member that must be a string where it is present and not
/// `null`.
pub open spec fn optional_string(j: JsonView, key: Seq<char>) -> Option<Option<Seq<char>>> {
    match j.get(key) {
        None => Some(None),
        Some(JsonView::Null) => Some(None),
        Some(JsonView::Str(s)) => Some(Some(s)),
        _ => None,
    }
}

/// An optional member that must be a boolean where it is present; `false`
/// where it is absent.
pub open spec fn optional_bool(j: JsonView, key: Seq<char>) -> Option<bool> {
    match j.get(key) {
        None => Some(false),
        Some(JsonView::Bool(b)) => Some(b),
        _ => None,
    }
}

/// The configuration that a JSON value holds: an object with a string
/// `dprint`, an object `profiles`, an object `match`, and optionally an
/// object `match_content`, a string `diff_pager` and a boolean
/// `lsp_rewrite_uris`. Other members are ignored. `None` where a required
/// member is missing or a member has the wrong type.
pub open spec fn config_of(j: JsonView, home: Option<Seq<char>>) -> Option<DprintxConfigView> {
    match (
        j.get("dprint"@),
        j.get("profiles"@),
        j.get("match"@),
        optional_object(j, "match_content"@),
        optional_string(j, "diff_pager"@),
        optional_bool(j, "lsp_rewrite_uris"@),
    ) {
        (
            Some(JsonView::Str(dprint)),
            Some(JsonView::Object(profiles)),
            Some(JsonView::Object(match_rules)),
            Some(match_content),
            Some(diff_pager),
            Some(lsp_rewrite_uris),
        ) => Some(
            DprintxConfigView {
                dprint,
                profiles,
                match_rules,
                match_content,
                diff_pager,
                lsp_rewrite_uris,
                home,
            },
        ),
        _ => None,
    }
}

/// The configuration that a commented JSON text holds, or why it holds none.
pub open spec fn config_of_text(text: Seq<char>, home: Option<Seq<char>>) -> Result<
    DprintxConfigView,
    ConfigError,
> {
    match json_parse(crate::jsonc::strict_json(text)) {
        None => Err(ConfigError::Syntax),
        Some(j) => match config_of(j, home) {
            Some(config) => Ok(config),
            None => Err(ConfigError::Shape),
        },
    }
}

impl DprintxConfigView {
    /// The glob rules: pattern and profile name, in declared order.
    pub open spec fn rules(self) -> Seq<(Seq<char>, Seq<char>)> {
        string_rules(self.match_rules)
    }

    /// The content rules: regular expression and profile name, in declared
    /// order; none where the configuration has no content rules.
    pub open spec fn content_rules(self) -> Seq<(Seq<char>, Seq<char>)> {
        match self.match_content {
            Some(rules) => string_rules(rules),
            None => Seq::empty(),
        }
    }

    /// The configuration file of a profile: the expanded path of the first
    /// profile of that name, where its value is a string.
    pub open spec fn profile_config_path(self, name: Seq<char>) -> Option<Seq<char>> {
        match JsonView::Object(self.profiles).get(name) {
            Some(JsonView::Str(path)) => Some(expanded(path, self.home)),
            _ => None,
        }
    }

    /// What a profile name resolves to: a configuration file, the decision
    /// to ignore, or nothing where the profile set does not define the name.
    pub open spec fn resolve_profile(self, name: Seq<char>) -> Option<ProfileResolutionView> {
        match JsonView::Object(self.profiles).get(name) {
            Some(JsonView::Str(path)) => Some(
                ProfileResolutionView::Config(expanded(path, self.home)),
            ),
            Some(JsonView::Null) => Some(ProfileResolutionView::Ignore),
            _ => None,
        }
    }
}

fn optional_object_of(j: &Json, key: &str) -> (r: Option<Option<Vec<(String, Json)>>>)
    ensures
        match r {
            Some(Some(members)) => optional_object(j.deep_view(), key@) == Some(
                Some(members_view(members@)),
            ),
            Some(None) => optional_object(j.deep_view(), key@) == Some(
                None::<Seq<(Seq<char>, JsonView)>>,
            ),
            None => optional_object(j.deep_view(), key@) is None,
        },
{
    match j.get(key) {
        None => Some(None),
        Some(Json::Null) => Some(None),
        Some(Json::Object(members)) => {
            proof {
                lemma_object_view(*members);
            }
            Some(Some(clone_members(members)))
        },
        Some(_) => None,
    }
}

fn optional_string_of(j: &Json, key: &str) -> (r: Option<Option<String>>)
    ensures
        match r {
            Some(s) => optional_string(j.deep_view(), key@) == Some(s.deep_view()),
            None => optional_string(j.deep_view(), key@) is None,
        },
{
    match j.get(key) {
        None => Some(None),
        Some(Json::Null) => Some(None),
        Some(Json::Str(s)) => Some(Some(s.clone())),
        Some(_) => None,
    }
}

fn optional_bool_of(j: &Json, key: &str) -> (r: Option<bool>)
    ensures
        r == optional_bool(j.deep_view(), key@),
{
    match j.get(key) {
        None => Some(false),
        Some(Json::Bool(b)) => Some(*b),
        Some(_) => None,
    }
}

impl DprintxConfig {
    /// Reads the configuration that a JSON value holds.
    pub fn from_json(j: &Json, home: Option<String>) -> (r: Result<DprintxConfig, ConfigError>)
        ensures
            match r {
                Ok(config) => config_of(j.deep_view(), home.deep_view()) == Some(
                    config.deep_view(),
                ),
                Err(e) => e == ConfigError::Shape && config_of(j.deep_view(), home.deep_view())
                    is None,
            },
    {
        let dprint = match j.get("dprint") {
            Some(Json::Str(s)) => s.clone(),
            _ => {
                return Err(ConfigError::Shape);
            },
        };
        let profiles = match j.get("profiles") {
            Some(Json::Object(members)) => {
                proof {
                    lemma_object_view(*members);
                }
                clone_members(members)
            },
            _ => {
                return Err(ConfigError::Shape);
            },
        };
        let match_rules = match j.get("match") {
            Some(Json::Object(members)) => {
                proof {
                    lemma_object_view(*members);
                }
                clone_members(members)
            },
            _ => {
                return Err(ConfigError::Shape);
            },
        };
        let match_content = match optional_object_of(j, "match_content") {
            Some(m) => m,
            None => {
                return Err(ConfigError::Shape);
            },
        };
        let diff_pager = match optional_string_of(j, "diff_pager") {
            Some(p) => p,
            None => {
                return Err(ConfigError::Shape);
            },
        };
        let lsp_rewrite_uris = match optional_bool_of(j, "lsp_rewrite_uris") {
            Some(b) => b,
            None => {
                return Err(ConfigError::Shape);
            },
        };
        Ok(
            DprintxConfig {
                dprint,
                profiles,
                match_rules,
                match_content,
                diff_pager,
                lsp_rewrite_uris,
                home,
            },
        )
    }

    /// Reads a configuration from its commented JSON text; `home` is the
    /// directory by which a leading `~/` will be expanded.
    pub fn parse(text: &str, home: Option<String>) -> (r: Result<DprintxConfig, ConfigError>)
        ensures
            match r {
                Ok(config) => config_of_text(text@, home.deep_view()) == Ok::<
                    DprintxConfigView,
                    ConfigError,
                >(config.deep_view()),
                Err(e) => config_of_text(text@, home.deep_view()) == Err::<
                    DprintxConfigView,
                    ConfigError,
                >(e),
            },
    {
        let strict = crate::jsonc::strip_jsonc_comments(text);
        match crate::json::parse(strict.as_str()) {
            None => Err(ConfigError::Syntax),
            Some(j) => DprintxConfig::from_json(&j, home),
        }
    }

    /// Reads a configuration from its commented JSON text, with the home
    /// directory of the current user.
    pub fn load_text(text: &str) -> (r: Result<DprintxConfig, ConfigError>)
        ensures
            match r {
                Ok(config) => config_of_text(text@, config.deep_view().home) == Ok::<
                    DprintxConfigView,
                    ConfigError,
                >(config.deep_view()),
                Err(e) => config_of_text(text@, None) == Err::<DprintxConfigView, ConfigError>(e),
            },
    {
        DprintxConfig::parse(text, home_dir())
    }

    /// The path of the formatter binary, `~/` expanded.
    pub fn dprint_path(&self) -> (r: String)
        ensures
            r@ == expanded(self.dprint@, self.home.deep_view()),
    {
        self.expand(self.dprint.as_str())
    }

    /// Expands a leading `~/` of `path` by this configuration's home
    /// directory.
    pub fn expand(&self, path: &str) -> (r: String)
        ensures
            r@ == expanded(path@, self.home.deep_view()),
    {
        match &self.home {
            Some(h) => expand_tilde_with(path, Some(h.as_str())),
            None => expand_tilde_with(path, None),
        }
    }

    /// The configuration file of the profile `profile_name`, `~/` expanded;
    /// `None` where the profile set has no such name or the profile has no
    /// file.
    pub fn profile_config_path(&self, profile_name: &str) -> (r: Option<String>)
        ensures
            r.deep_view() == self.deep_view().profile_config_path(profile_name@),
    {
        let at = find_member(&self.profiles, profile_name);
        if at < self.profiles.len() {
            match &self.profiles[at].1 {
                Json::Str(path) => Some(self.expand(path.as_str())),
                _ => None,
            }
        } else {
            None
        }
    }

    /// What the profile `profile_name` resolves to: its configuration file,
    /// `Ignore` for a `null` profile, `None` where the profile set does not
    /// define the name.
    pub fn resolve_profile(&self, profile_name: &str) -> (r: Option<ProfileResolution>)
        ensures
            r.deep_view() == self.deep_view().resolve_profile(profile_name@),
    {
        let at = find_member(&self.profiles, profile_name);
        if at < self.profiles.len() {
            match &self.profiles[at].1 {
                Json::Str(path) => Some(ProfileResolution::Config(self.expand(path.as_str()))),
                Json::Null => Some(ProfileResolution::Ignore),
                _ => None,
            }
        } else {
            None
        }
    }

    /// The glob rules as pairs of pattern and profile name, in declared
    /// order. A rule whose value is no string is left out.
    pub fn match_rules_iter(&self) -> (r: Vec<(String, String)>)
        ensures
            r.deep_view() == self.deep_view().rules(),
    {
        rules_of(&self.match_rules)
    }

    /// The content rules as pairs of regular expression and profile name, in
    /// declared order; empty where the configuration has none.
    pub fn match_content_rules_iter(&self) -> (r: Vec<(String, String)>)
        ensures
            r.deep_view() == self.deep_view().content_rules(),
    {
        match &self.match_content {
            Some(rules) => rules_of(rules),
            None => {
                let r: Vec<(String, String)> = Vec::new();
                assert(r.deep_view() =~= Seq::empty());
                r
            },
        }
    }
}

/// The rules among `members` whose value is a string.
fn rules_of(members: &Vec<(String, Json)>) -> (r: Vec<(String, String)>)
    ensures
        r.deep_view() == string_rules(members_view(members@)),
{
    let mut r: Vec<(String, String)> = Vec::new();
    let mut i: usize = 0;
    assert(members_view(members@).take(0) =~= Seq::empty());
    assert(r.deep_view() =~= Seq::empty());
    while i < members.len()
        invariant
            i <= members.len(),
            r.deep_view() == string_rules(members_view(members@).take(i as int)),
        decreases members.len() - i,
    {
        let ghost all = members_view(members@);
        let ghost before = r.deep_view();
        proof {
            assert(all.take(i + 1).drop_last() == all.take(i as int));
            assert(all.take(i + 1).last() == all[i as int]);
        }
        match &members[i].1 {
            Json::Str(profile) => {
                r.push((members[i].0.clone(), profile.clone()));
                assert(r.deep_view() =~= before.push((members@[i as int].0@, profile@)));
            },
            _ => {},
        }
        i += 1;
    }
    assert(members_view(members@).take(i as int) == members_view(members@));
    r
}


/// The name of a merged configuration file; the file is removed when its
/// owner lets go of it.
#[derive(Debug, PartialEq, Eq)]
pub struct TempConfig {
    path: String,
}

impl TempConfig {
    /// The path as the model sees it.
    pub closed spec fn spec_path(&self) -> Seq<char> {
        self.path@
    }

    /// A merged configuration at `path`.
    pub fn new(path: String) -> (r: TempConfig)
        ensures
            r.spec_path() == path@,
    {
        TempConfig { path }
    }

    /// Where the merged configuration is.
    pub fn path(&self) -> (r: &str)
        ensures
            r@ == self.spec_path(),
    {
        self.path.as_str()
    }
}

/// The places where a project's own configuration may be, seen from a
/// directory: in the directory itself the plain file before the commented
/// one, then the same in each directory above it, up to the root.
pub open spec fn local_candidates(dir: Seq<char>) -> Seq<Seq<char>>
    decreases dir.len(),
{
    let here = seq![
        crate::paths::joined(dir, "dprint.json"@),
        crate::paths::joined(dir, "dprint.jsonc"@),
    ];
    match crate::paths::parent_of(dir) {
        Some(parent) => if parent.len() < dir.len() {
            here + local_candidates(parent)
        } else {
            here
        },
        None => here,
    }
}

/// The first of the candidates that is among the known files.
pub open spec fn local_config(dir: Seq<char>, files: Seq<Seq<char>>) -> Option<Seq<char>> {
    let candidates = local_candidates(dir);
    let at = crate::order::first_index(candidates, |c: Seq<char>| files.contains(c));
    if at < candidates.len() {
        Some(candidates[at])
    } else {
        None
    }
}

/// The places where a project's own configuration may be, seen from
/// `start_dir`, in the order in which they are tried.
pub fn local_config_candidates(start_dir: &str) -> (r: Vec<String>)
    ensures
        r.deep_view() == local_candidates(start_dir@),
{
    let mut r: Vec<String> = Vec::new();
    let mut dir: String = start_dir.to_owned();
    loop
        invariant
            r.deep_view() + local_candidates(dir@) == local_candidates(start_dir@),
        decreases dir@.len(),
    {
        let ghost before = r.deep_view();
        r.push(crate::paths::path_join(dir.as_str(), "dprint.json"));
        r.push(crate::paths::path_join(dir.as_str(), "dprint.jsonc"));
        assert(r.deep_view() =~= before + seq![
            crate::paths::joined(dir@, "dprint.json"@),
            crate::paths::joined(dir@, "dprint.jsonc"@),
        ]);
        match crate::paths::path_parent(dir.as_str()) {
            Some(parent) => {
                assert(before + (seq![
                    crate::paths::joined(dir@, "dprint.json"@),
                    crate::paths::joined(dir@, "dprint.jsonc"@),
                ] + local_candidates(parent@)) =~= r.deep_view() + local_candidates(parent@));
                dir = parent;
            },
            None => {
                assert(r.deep_view() =~= local_candidates(start_dir@));
                return r;
            },
        }
    }
}

/// Whether `files` holds the path `path`.
pub fn contains_path(files: &Vec<String>, path: &str) -> (r: bool)
    ensures
        r == files.deep_view().contains(path@),
{
    let mut i: usize = 0;
    while i < files.len()
        invariant
            i <= files.len(),
            forall|k: int| 0 <= k < i ==> files.deep_view()[k] != path@,
        decreases files.len() - i,
    {
        if crate::text::str_eq(files[i].as_str(), path) {
            assert(files.deep_view()[i as int] == path@);
            return true;
        }
        i += 1;
    }
    false
}

/// Finds the configuration of the project that `start_dir` belongs to:
/// walking from `start_dir` up to the root, the first directory that holds
/// `dprint.json` or `dprint.jsonc` decides, the plain file before the
/// commented one. `files` names the regular files that exist among the
/// candidates.
pub fn find_local_config(start_dir: &str, files: &Vec<String>) -> (r: Option<String>)
    ensures
        r.deep_view() == local_config(start_dir@, files.deep_view()),
{
    let candidates = local_config_candidates(start_dir);
    let ghost hit = |c: Seq<char>| files.deep_view().contains(c);
    let mut i: usize = 0;
    while i < candidates.len()
        invariant
            i <= candidates.len(),
            candidates.deep_view() == local_candidates(start_dir@),
            hit == |c: Seq<char>| files.deep_view().contains(c),
            forall|k: int| 0 <= k < i ==> !hit(#[trigger] candidates.deep_view()[k]),
        decreases candidates.len() - i,
    {
        assert(candidates.deep_view()[i as int] == candidates[i as int]@);
        if contains_path(files, candidates[i].as_str()) {
            proof {
                crate::order::lemma_first_index_is(candidates.deep_view(), hit, i as int);
            }
            return Some(candidates[i].clone());
        }
        i += 1;
    }
    proof {
        crate::order::lemma_first_index_is(candidates.deep_view(), hit, candidates.len() as int);
    }
    None
}


/// The members of an object after the member at `at` was taken out and the
/// last member was moved into its place.
pub open spec fn swap_removed<T>(members: Seq<T>, at: int) -> Seq<T> {
    members.update(at, members.last()).drop_last()
}

/// A local configuration with the profile's path put in front of what its
/// `extends` member names.
///
/// An object without `extends` gets the path as a new last member. A string
/// `extends` becomes the array of the path and that string, and moves to the
/// end of the object, the former last member taking its place. An array
/// `extends` gets the path as its new first item. Any other `extends` is
/// replaced by the path. A value that is no object stays as it is.
pub open spec fn with_extends(config: JsonView, profile: Seq<char>) -> JsonView {
    match config {
        JsonView::Object(members) => {
            let at = first_key(members, "extends"@);
            let path = JsonView::Str(profile);
            if at >= members.len() {
                JsonView::Object(members.push(("extends"@, path)))
            } else {
                match members[at].1 {
                    JsonView::Str(old) => JsonView::Object(
                        swap_removed(members, at).push(
                            ("extends"@, JsonView::Array(seq![path, JsonView::Str(old)])),
                        ),
                    ),
                    JsonView::Array(items) => JsonView::Object(
                        members.update(at, ("extends"@, JsonView::Array(seq![path] + items))),
                    ),
                    _ => JsonView::Object(members.update(at, ("extends"@, path))),
                }
            }
        },
        _ => config,
    }
}

/// Puts the profile's configuration path in front of what the local
/// configuration extends, so that the formatter applies the profile first and
/// the local settings on top of it.
pub fn inject_extends(config: &mut Json, profile_config_path: &str)
    ensures
        final(config).deep_view() == with_extends(old(config).deep_view(), profile_config_path@),
{
    let mut taken = Json::Null;
    std::mem::swap(config, &mut taken);
    let path = Json::Str(profile_config_path.to_owned());
    match taken {
        Json::Object(mut members) => {
            let ghost before = members_view(members@);
            proof {
                lemma_object_view(members);
                lemma_first_key(before, "extends"@);
            }
            let at = find_member(&members, "extends");
            if at >= members.len() {
                members.push(("extends".to_owned(), path));
                proof {
                    lemma_object_view(members);
                    assert(members_view(members@) =~= before.push(
                        ("extends"@, JsonView::Str(profile_config_path@)),
                    ));
                }
            } else {
                let is_string = match &members[at].1 {
                    Json::Str(_) => true,
                    _ => false,
                };
                if is_string {
                    let (key, old_value) = members.swap_remove(at);
                    let ghost old_text = old_value.deep_view()->Str_0;
                    let mut items: Vec<Json> = Vec::new();
                    items.push(path);
                    items.push(old_value);
                    proof {
                        lemma_array_view(items);
                        assert(items_view(items@) =~= seq![
                            JsonView::Str(profile_config_path@),
                            JsonView::Str(old_text),
                        ]);
                    }
                    members.push((key, Json::Array(items)));
                    proof {
                        lemma_object_view(members);
                        assert(members_view(members@) =~= swap_removed(before, at as int).push(
                            (
                                "extends"@,
                                JsonView::Array(
                                    seq![
                                        JsonView::Str(profile_config_path@),
                                        JsonView::Str(old_text),
                                    ],
                                ),
                            ),
                        ));
                    }
                } else {
                    let (key, old_value) = members.remove(at);
                    let ghost old_view = old_value.deep_view();
                    let replaced = match old_value {
                        Json::Array(mut items) => {
                            let ghost old_items = items_view(items@);
                            proof {
                                lemma_array_view(items);
                            }
                            items.insert(0, path);
                            proof {
                                lemma_array_view(items);
                                assert(items_view(items@) =~= seq![
                                    JsonView::Str(profile_config_path@),
                                ] + old_items);
                            }
                            Json::Array(items)
                        },
                        _ => path,
                    };
                    members.insert(at, (key, replaced));
                    proof {
                        lemma_object_view(members);
                        assert(members_view(members@) =~= before.update(
                            at as int,
                            ("extends"@, replaced.deep_view()),
                        ));
                    }
                }
            }
            *config = Json::Object(members);
        },
        other => {
            *config = other;
        },
    }
}


/// What `extends` holds after the profile's path was put in: the path
/// alone where the object had no `extends`; the path and the old string
/// where it was a string; the path and then the old items where it was an
/// array. `members` are the members of an object that has at most one
/// member `extends`.
pub proof fn lemma_with_extends(members: Seq<(Seq<char>, JsonView)>, profile: Seq<char>)
    requires
        forall|i: int, j: int|
            0 <= i < members.len() && 0 <= j < members.len() && i != j && (#[trigger] members[i]).0
                == "extends"@ ==> (#[trigger] members[j]).0 != "extends"@,
    ensures
        ({
            let at = first_key(members, "extends"@);
            let after = with_extends(JsonView::Object(members), profile).get("extends"@);
            let path = JsonView::Str(profile);
            if at >= members.len() {
                after == Some(path)
            } else {
                match members[at].1 {
                    JsonView::Str(old) => after == Some(
                        JsonView::Array(seq![path, JsonView::Str(old)]),
                    ),
                    JsonView::Array(items) => after == Some(JsonView::Array(seq![path] + items)),
                    _ => after == Some(path),
                }
            }
        }),
{
    let key = "extends"@;
    let at = first_key(members, key);
    let path = JsonView::Str(profile);
    lemma_first_key(members, key);
    if at >= members.len() {
        crate::json::lemma_first_key_is(members.push((key, path)), key, at);
    } else {
        match members[at].1 {
            JsonView::Str(old) => {
                let moved = swap_removed(members, at);
                let value = JsonView::Array(seq![path, JsonView::Str(old)]);
                assert forall|i: int| 0 <= i < moved.len() implies (#[trigger] moved.push(
                    (key, value),
                )[i]).0 != key by {
                    if i == at {
                        assert(moved[i] == members[members.len() - 1]);
                        assert(members[at].0 == key);
                    } else {
                        assert(moved[i] == members[i]);
                        assert(members[at].0 == key);
                    }
                }
                crate::json::lemma_first_key_is(moved.push((key, value)), key, moved.len() as int);
            },
            JsonView::Array(items) => {
                crate::json::lemma_first_key_is(
                    members.update(at, (key, JsonView::Array(seq![path] + items))),
                    key,
                    at,
                );
            },
            _ => {
                crate::json::lemma_first_key_is(members.update(at, (key, path)), key, at);
            },
        }
    }
}

/// Why a project's own configuration could not be merged with a profile.
#[derive(Debug, PartialEq, Eq, Clone, Copy)]
pub enum MergeError {
    /// The local configuration is not JSON, even with comments and trailing
    /// commas removed.
    Syntax,
}

/// The JSON value of a local configuration file, comments and trailing
/// commas allowed.
pub open spec fn local_config_value(text: Seq<char>) -> Option<JsonView> {
    json_parse(crate::jsonc::strict_json(text))
}

/// Reads the text of a local configuration file, which may hold comments
/// and trailing commas.
pub fn read_local_config(text: &str) -> (r: Result<Json, MergeError>)
    ensures
        match r {
            Ok(j) => local_config_value(text@) == Some(j.deep_view()),
            Err(_) => local_config_value(text@) is None,
        },
{
    let strict = crate::jsonc::strip_jsonc_comments(text);
    match crate::json::parse(strict.as_str()) {
        Some(j) => Ok(j),
        None => Err(MergeError::Syntax),
    }
}

/// Whether a merged configuration is to be built: a local configuration was
/// found, and it is not the profile's configuration itself.
pub fn needs_merge(local_config_path: Option<&str>, profile_config_path: &str) -> (r: bool)
    ensures
        r == match local_config_path {
            Some(local) => !crate::paths::same_path(local@, profile_config_path@),
            None => false,
        },
{
    match local_config_path {
        Some(local) => !crate::paths::path_eq(local, profile_config_path),
        None => false,
    }
}

/// The directory for merged configurations: `dprintx` under the user's
/// runtime directory, or under the temporary directory where there is no
/// runtime directory.
pub fn merged_config_dir(runtime_dir: Option<&str>, temp_dir: &str) -> (r: String)
    ensures
        r@ == crate::paths::joined(
            match runtime_dir {
                Some(dir) => dir@,
                None => temp_dir@,
            },
            "dprintx"@,
        ),
{
    match runtime_dir {
        Some(dir) => crate::paths::path_join(dir, "dprintx"),
        None => crate::paths::path_join(temp_dir, "dprintx"),
    }
}

/// The file name of the merged configuration that process `pid` writes as
/// its `seq`-th.
pub open spec fn merged_name(pid: u32, seq: u64) -> Seq<char> {
    "merged-"@ + crate::text::decimal(pid as nat) + "-"@ + crate::text::decimal(seq as nat)
        + ".json"@
}

/// The file name of a merged configuration: it holds the process id and a
/// number that the process counts up, so that no two names collide.
pub fn merged_config_name(pid: u32, seq: u64) -> (r: String)
    ensures
        r@ == merged_name(pid, seq),
{
    let mut name = "merged-".to_owned();
    crate::text::push_decimal(&mut name, pid as u64);
    name.append("-");
    crate::text::push_decimal(&mut name, seq);
    name.append(".json");
    name
}

/// Two merged configurations of one process never get the same name: the
/// names of different counts differ.
pub proof fn lemma_merged_names_differ(pid: u32, a: u64, b: u64)
    requires
        a != b,
    ensures
        merged_name(pid, a) != merged_name(pid, b),
{
    let front = "merged-"@ + crate::text::decimal(pid as nat) + "-"@;
    let end = ".json"@;
    let da = crate::text::decimal(a as nat);
    let db = crate::text::decimal(b as nat);
    crate::text::lemma_decimal(a as nat);
    crate::text::lemma_decimal(b as nat);
    if merged_name(pid, a) == merged_name(pid, b) {
        assert(merged_name(pid, a) =~= front + da + end);
        assert(merged_name(pid, b) =~= front + db + end);
        assert((front + da + end).len() == (front + db + end).len());
        assert(da.len() == db.len());
        assert forall|i: int| 0 <= i < da.len() implies da[i] == db[i] by {
            assert((front + da + end)[front.len() + i] == da[i]);
            assert((front + db + end)[front.len() + i] == db[i]);
        }
        assert(da =~= db);
    }
}

/// Builds the merged configuration for a file: the local configuration of
/// its project with the profile's path put in front of what it extends.
///
/// `local` is the local configuration that was found from the directory of
/// the file upward, as its path and its text. Where none was found, and
/// where the one that was found is the profile's configuration itself,
/// there is nothing to merge: the result is `None`, the profile's
/// configuration is used as it is, and no configuration ever extends
/// itself. Otherwise the result is the name of the file under `dir` that is
/// to hold the merged configuration, and its text; a local configuration
/// that is not JSON is an error.
pub fn build_merged_config(
    local: Option<(&str, &str)>,
    profile_config_path: &str,
    dir: &str,
    pid: u32,
    seq: u64,
) -> (r: Result<Option<(TempConfig, String)>, MergeError>)
    ensures
        match local {
            None => r is Ok && r->Ok_0 is None,
            Some((path, text)) => if crate::paths::same_path(path@, profile_config_path@) {
                r is Ok && r->Ok_0 is None
            } else {
                match r {
                    Ok(Some((guard, merged))) => {
                        &&& local_config_value(text@) is Some
                        &&& guard.spec_path() == crate::paths::joined(dir@, merged_name(pid, seq))
                        &&& merged@ == json_pretty_text(
                            with_extends(local_config_value(text@)->0, profile_config_path@),
                        )
                    },
                    Ok(None) => false,
                    Err(e) => e == MergeError::Syntax && local_config_value(text@) is None,
                }
            },
        },
{
    let (path, text) = match local {
        Some(found) => found,
        None => {
            return Ok(None);
        },
    };
    if !needs_merge(Some(path), profile_config_path) {
        return Ok(None);
    }
    let mut local_config = match read_local_config(text) {
        Ok(j) => j,
        Err(e) => {
            return Err(e);
        },
    };
    inject_extends(&mut local_config, profile_config_path);
    let name = merged_config_name(pid, seq);
    let merged_path = crate::paths::path_join(dir, name.as_str());
    let merged = local_config.to_pretty_text();
    Ok(Some((TempConfig::new(merged_path), merged)))
}

/// The default place of the routing configuration under the user's
/// configuration directory.
pub fn default_config_path(config_dir: &str) -> (r: String)
    ensures
        r@ == crate::paths::joined(crate::paths::joined(config_dir@, "dprint"@), "dprintx.jsonc"@),
{
    let dir = crate::paths::path_join(config_dir, "dprint");
    crate::paths::path_join(dir.as_str(), "dprintx.jsonc")
}

} // verus!
