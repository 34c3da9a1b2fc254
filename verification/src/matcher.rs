//! Resolution of a file to a profile: ordered glob rules on its path, and
//! ordered content rules that may override what the path gave.

use vstd::prelude::*;
use vstd::string::{StringExecFns, StringSliceAdditionalSpecFns};
use vstd::utf8::encode_utf8;
use crate::config::{expanded, DprintxConfig, DprintxConfigView, ProfileResolution, ProfileResolutionView};
use crate::order::{first_index, lemma_first_index, lemma_first_index_is};

verus! {

#[verifier::external_type_specification]
#[verifier::external_body]
pub struct ExGlobSet(globset::GlobSet);

#[verifier::external_type_specification]
#[verifier::external_body]
pub struct ExGlobError(globset::Error);

#[verifier::external_type_specification]
#[verifier::external_body]
pub struct ExRegex(regex::Regex);

#[verifier::external_type_specification]
#[verifier::external_body]
pub struct ExRegexError(regex::Error);

/// The longest glob pattern, in bytes, that is compiled: one GiB. globset
/// indexes the literals of a glob with 31 bits, and does not hand on the
/// error of a literal that is too long for that.
pub const MAX_GLOB_BYTES: usize = 0x4000_0000;

/// The size of a block of file content, in bytes: lines are gathered until
/// a block has reached it, and each block is tested by itself.
pub const CONTENT_MATCH_BLOCK_BYTES: usize = 8192;

/// Whether `globset::Glob::new` accepts the pattern and
/// `globset::GlobSet::new` builds a matcher for the glob.
pub uninterp spec fn glob_compiles(pattern: Seq<char>) -> bool;

/// The pattern of the one glob that a `globset::GlobSet` was built from.
pub uninterp spec fn matcher_source(m: globset::GlobSet) -> Seq<char>;

/// Whether the matcher built from a glob pattern matches a path, as
/// `globset::GlobSet::is_match` decides it.
pub uninterp spec fn glob_matches(pattern: Seq<char>, path: Seq<char>) -> bool;

/// Whether `regex::RegexBuilder` builds the pattern in multi-line mode.
pub uninterp spec fn regex_compiles(pattern: Seq<char>) -> bool;

/// The pattern that a `regex::Regex` was built from.
pub uninterp spec fn regex_source(r: regex::Regex) -> Seq<char>;

/// Whether the pattern, built in multi-line mode, matches somewhere in the
/// text, as `regex::Regex::is_match` decides it.
pub uninterp spec fn regex_matches(pattern: Seq<char>, text: Seq<char>) -> bool;

/// `globset::Glob::new`, then `globset::GlobSet::new` on the one glob it
/// gives. Both hand on their errors, that of a regular expression that is
/// too large or nested too deeply among them. The one failure that
/// `GlobSet::new` unwraps is that of the searcher for a literal prefix or
/// suffix, which needs a literal of some 2^31 bytes; a pattern of at most
/// `MAX_GLOB_BYTES` bytes holds none.
#[verifier::external_body]
fn compile_glob(pattern: &str) -> (r: Result<globset::GlobSet, globset::Error>)
    requires
        utf8_len(pattern@) <= MAX_GLOB_BYTES,
    ensures
        r is Ok == glob_compiles(pattern@),
        r matches Ok(m) ==> matcher_source(m) == pattern@,
{
    match globset::Glob::new(pattern) {
        Ok(glob) => globset::GlobSet::new([glob]),
        Err(e) => Err(e),
    }
}

/// `globset::GlobSet::is_match` on a path given as text.
#[verifier::external_body]
fn glob_is_match(m: &globset::GlobSet, path: &str) -> (r: bool)
    ensures
        r == glob_matches(matcher_source(*m), path@),
{
    m.is_match(path)
}

/// `regex::RegexBuilder::new`, `multi_line(true)` and `build`: the pattern
/// compiled so that `^` and `$` match at the lines of a text.
#[verifier::external_body]
fn compile_regex(pattern: &str) -> (r: Result<regex::Regex, regex::Error>)
    ensures
        r is Ok == regex_compiles(pattern@),
        r matches Ok(x) ==> regex_source(x) == pattern@,
{
    regex::RegexBuilder::new(pattern).multi_line(true).build()
}

/// `regex::Regex::is_match`.
#[verifier::external_body]
fn regex_is_match(r: &regex::Regex, text: &str) -> (b: bool)
    ensures
        b == regex_matches(regex_source(*r), text@),
{
    r.is_match(text)
}

/// The profile of the first rule whose pattern is a hit, or `None` where no
/// pattern is one.
pub open spec fn first_profile(
    rules: Seq<(Seq<char>, Seq<char>)>,
    hit: spec_fn(Seq<char>) -> bool,
) -> Option<Seq<char>> {
    let at = first_index(rules, |r: (Seq<char>, Seq<char>)| hit(r.0));
    if at < rules.len() {
        Some(rules[at].1)
    } else {
        None
    }
}

/// The profile of the first glob rule that matches the path.
pub open spec fn first_match(rules: Seq<(Seq<char>, Seq<char>)>, path: Seq<char>) -> Option<
    Seq<char>,
> {
    first_profile(rules, |p: Seq<char>| glob_matches(p, path))
}

/// The profile of the first content rule that matches the block.
pub open spec fn content_match(rules: Seq<(Seq<char>, Seq<char>)>, block: Seq<char>) -> Option<
    Seq<char>,
> {
    first_profile(rules, |p: Seq<char>| regex_matches(p, block))
}

/// Whether a glob pattern can be compiled: it is not longer than
/// `MAX_GLOB_BYTES`, and globset accepts it and builds its matcher.
pub open spec fn glob_ok(pattern: Seq<char>) -> bool {
    utf8_len(pattern) <= MAX_GLOB_BYTES && glob_compiles(pattern)
}

/// The rules with `~/` expanded in each pattern.
pub open spec fn expanded_rules(
    rules: Seq<(Seq<char>, Seq<char>)>,
    home: Option<Seq<char>>,
) -> Seq<(Seq<char>, Seq<char>)> {
    Seq::new(rules.len(), |i: int| (expanded(rules[i].0, home), rules[i].1))
}

/// The glob rules of a configuration as the matcher compiles them.
pub open spec fn glob_rules(config: DprintxConfigView) -> Seq<(Seq<char>, Seq<char>)> {
    expanded_rules(config.rules(), config.home)
}

/// The position of the first glob rule that cannot be compiled.
pub open spec fn first_bad_glob(config: DprintxConfigView) -> int {
    first_index(glob_rules(config), |r: (Seq<char>, Seq<char>)| !glob_ok(r.0))
}

/// The position of the first content rule that cannot be compiled.
pub open spec fn first_bad_regex(config: DprintxConfigView) -> int {
    first_index(config.content_rules(), |r: (Seq<char>, Seq<char>)| !regex_compiles(r.0))
}

/// Why the rules of a configuration could not be compiled.
#[derive(Debug, PartialEq, Eq, Clone)]
pub enum MatcherError {
    /// This glob pattern of `match` is not valid, or too long.
    InvalidGlob(String),
    /// This regular expression of `match_content` is not valid.
    InvalidRegex(String),
}

impl MatcherError {
    /// The message for this error, which names the pattern.
    pub fn message(&self) -> (r: String)
        ensures
            r@ == match self {
                MatcherError::InvalidGlob(p) => "invalid glob pattern: "@ + p@,
                MatcherError::InvalidRegex(p) => "invalid content pattern: "@ + p@,
            },
    {
        match self {
            MatcherError::InvalidGlob(p) => {
                let mut s = "invalid glob pattern: ".to_owned();
                s.append(p.as_str());
                s
            },
            MatcherError::InvalidRegex(p) => {
                let mut s = "invalid content pattern: ".to_owned();
                s.append(p.as_str());
                s
            },
        }
    }
}

/// Why a file could not be resolved: a rule names a profile that the
/// profile set does not define.
#[derive(Debug, PartialEq, Eq, Clone)]
pub enum ResolveError {
    /// The glob rule that matched names this undefined profile.
    UnknownProfile(String),
    /// The content rule that matched names this undefined profile.
    UnknownContentProfile(String),
}

/// The mathematical value of a [`ResolveError`].
pub enum ResolveErrorView {
    UnknownProfile(Seq<char>),
    UnknownContentProfile(Seq<char>),
}

impl DeepView for ResolveError {
    type V = ResolveErrorView;

    open spec fn deep_view(&self) -> ResolveErrorView {
        match self {
            ResolveError::UnknownProfile(name) => ResolveErrorView::UnknownProfile(name@),
            ResolveError::UnknownContentProfile(name) => ResolveErrorView::UnknownContentProfile(
                name@,
            ),
        }
    }
}

impl ResolveError {
    /// The profile that the error names.
    pub fn profile(&self) -> (r: &str)
        ensures
            r@ == match self {
                ResolveError::UnknownProfile(name) => name@,
                ResolveError::UnknownContentProfile(name) => name@,
            },
    {
        match self {
            ResolveError::UnknownProfile(name) => name.as_str(),
            ResolveError::UnknownContentProfile(name) => name.as_str(),
        }
    }

    /// The message for this error, which names the profile and the kind of
    /// rule that refers to it.
    pub fn message(&self) -> (r: String)
        ensures
            r@ == match self {
                ResolveError::UnknownProfile(name) => "profile '"@ + name@
                    + "' referenced in match rules but not defined in profiles"@,
                ResolveError::UnknownContentProfile(name) => "profile '"@ + name@
                    + "' referenced in match_content but not defined in profiles"@,
            },
    {
        let mut s = "profile '".to_owned();
        match self {
            ResolveError::UnknownProfile(name) => {
                s.append(name.as_str());
                s.append("' referenced in match rules but not defined in profiles");
            },
            ResolveError::UnknownContentProfile(name) => {
                s.append(name.as_str());
                s.append("' referenced in match_content but not defined in profiles");
            },
        }
        s
    }
}

/// The result of a resolution as the model sees it.
pub type Resolved = Result<Option<ProfileResolutionView>, ResolveErrorView>;

/// The model of the result of a resolution.
pub open spec fn resolved_view(r: Result<Option<ProfileResolution>, ResolveError>) -> Resolved {
    match r {
        Ok(resolution) => Ok(resolution.deep_view()),
        Err(e) => Err(e.deep_view()),
    }
}

/// What the path of a file resolves to: nothing where no glob rule matches
/// it, else what the profile of the first matching rule resolves to, and an
/// error where the profile set does not define that profile.
pub open spec fn resolved_by_path(
    rules: Seq<(Seq<char>, Seq<char>)>,
    config: DprintxConfigView,
    path: Seq<char>,
) -> Resolved {
    match first_match(rules, path) {
        None => Ok(None),
        Some(name) => match config.resolve_profile(name) {
            Some(resolution) => Ok(Some(resolution)),
            None => Err(ResolveErrorView::UnknownProfile(name)),
        },
    }
}

/// What a file resolves to once its content was looked at: `found` is the
/// profile that the content rules gave, if any. Without a path resolution
/// the content counts for nothing; a profile from the content overrides the
/// path resolution, and is an error where the profile set does not define
/// it.
pub open spec fn resolved_with_content(
    by_path: Resolved,
    found: Option<Seq<char>>,
    config: DprintxConfigView,
) -> Resolved {
    match by_path {
        Ok(Some(resolution)) => match found {
            None => by_path,
            Some(name) => match config.resolve_profile(name) {
                Some(overriding) => Ok(Some(overriding)),
                None => Err(ResolveErrorView::UnknownContentProfile(name)),
            },
        },
        _ => by_path,
    }
}

/// The number of bytes of a text in UTF-8.
pub open spec fn utf8_len(text: Seq<char>) -> nat {
    encode_utf8(text).len()
}

/// One step of the scan of a file: the line joins the block; a block that
/// has reached the block size is tested, and is emptied where no rule
/// matches it. The pair is the block after the step and the profile found.
pub open spec fn fed(rules: Seq<(Seq<char>, Seq<char>)>, block: Seq<char>, line: Seq<char>) -> (
    Seq<char>,
    Option<Seq<char>>,
) {
    let joined = block + line;
    if utf8_len(joined) >= CONTENT_MATCH_BLOCK_BYTES {
        match content_match(rules, joined) {
            Some(profile) => (joined, Some(profile)),
            None => (Seq::empty(), None),
        }
    } else {
        (joined, None)
    }
}

/// What the end of a file gives: a block that is not empty is tested as a
/// full one is.
pub open spec fn finished(rules: Seq<(Seq<char>, Seq<char>)>, block: Seq<char>) -> Option<
    Seq<char>,
> {
    if block.len() > 0 {
        content_match(rules, block)
    } else {
        None
    }
}

/// The end of the line that begins at `i`: the position behind its line
/// feed, or the end of the text.
pub open spec fn line_end(text: Seq<char>, i: int) -> int
    decreases text.len() - i,
{
    if i < 0 || i >= text.len() {
        text.len() as int
    } else if text[i] == '\n' {
        i + 1
    } else {
        line_end(text, i + 1)
    }
}

pub proof fn lemma_line_end_bounds(text: Seq<char>, i: int)
    requires
        0 <= i < text.len(),
    ensures
        i < line_end(text, i) <= text.len(),
    decreases text.len() - i,
{
    if text[i] != '\n' {
        if i + 1 < text.len() {
            lemma_line_end_bounds(text, i + 1);
        } else {
            assert(line_end(text, i + 1) == text.len());
        }
    }
}

/// The profile that the content rules give for a text, scanned line by line
/// from position `pos` with `block` gathered so far.
pub open spec fn scanned_from(
    rules: Seq<(Seq<char>, Seq<char>)>,
    text: Seq<char>,
    pos: int,
    block: Seq<char>,
) -> Option<Seq<char>>
    decreases text.len() - pos,
{
    if pos < 0 || pos >= text.len() {
        finished(rules, block)
    } else {
        let end = line_end(text, pos);
        let step = fed(rules, block, text.subrange(pos, end));
        if step.1 is Some {
            step.1
        } else {
            proof {
                lemma_line_end_bounds(text, pos);
            }
            scanned_from(rules, text, end, step.0)
        }
    }
}

/// The profile that the content rules give for the text of a file.
pub open spec fn scanned(rules: Seq<(Seq<char>, Seq<char>)>, text: Seq<char>) -> Option<
    Seq<char>,
> {
    scanned_from(rules, text, 0, Seq::empty())
}


/// A compiled glob rule: the matcher and the profile it names.
pub struct Rule {
    matcher: globset::GlobSet,
    profile: String,
}

/// A compiled content rule: the regular expression and the profile it
/// names.
pub struct ContentRule {
    regex: regex::Regex,
    profile: String,
}

/// The content rules of a configuration, compiled, in declared order.
pub struct ContentMatcher {
    rules: Vec<ContentRule>,
}

/// Matches file paths to profiles by ordered glob rules, with an optional
/// override by the content of the file.
pub struct ProfileMatcher {
    rules: Vec<Rule>,
    content_matcher: Option<ContentMatcher>,
}

pub closed spec fn rules_view(rules: Seq<Rule>) -> Seq<(Seq<char>, Seq<char>)> {
    Seq::new(rules.len(), |i: int| (matcher_source(rules[i].matcher), rules[i].profile@))
}

pub closed spec fn content_rules_view(rules: Seq<ContentRule>) -> Seq<(Seq<char>, Seq<char>)> {
    Seq::new(rules.len(), |i: int| (regex_source(rules[i].regex), rules[i].profile@))
}

impl ContentMatcher {
    /// The rules as pairs of pattern and profile name, in declared order.
    pub closed spec fn rules(&self) -> Seq<(Seq<char>, Seq<char>)> {
        content_rules_view(self.rules@)
    }

    /// The profile of the first rule, in declared order, whose pattern
    /// matches the block.
    pub fn match_content(&self, block: &str) -> (r: Option<&str>)
        ensures
            r.deep_view() == content_match(self.rules(), block@),
    {
        let ghost rules = self.rules();
        let mut i: usize = 0;
        while i < self.rules.len()
            invariant
                i <= self.rules.len(),
                rules == self.rules(),
                forall|k: int| 0 <= k < i ==> !regex_matches((#[trigger] rules[k]).0, block@),
            decreases self.rules.len() - i,
        {
            if regex_is_match(&self.rules[i].regex, block) {
                proof {
                    lemma_first_profile_is(rules, |p: Seq<char>| regex_matches(p, block@), i as int);
                }
                return Some(self.rules[i].profile.as_str());
            }
            i += 1;
        }
        proof {
            lemma_first_profile_is(
                rules,
                |p: Seq<char>| regex_matches(p, block@),
                rules.len() as int,
            );
        }
        None
    }
}


/// `first_profile` is the profile at the least position whose pattern is a
/// hit.
pub proof fn lemma_first_profile_is(
    rules: Seq<(Seq<char>, Seq<char>)>,
    hit: spec_fn(Seq<char>) -> bool,
    at: int,
)
    requires
        0 <= at <= rules.len(),
        at < rules.len() ==> hit(rules[at].0),
        forall|i: int| 0 <= i < at ==> !hit((#[trigger] rules[i]).0),
    ensures
        first_profile(rules, hit) == if at < rules.len() {
            Some(rules[at].1)
        } else {
            None
        },
{
    lemma_first_index_is(rules, |r: (Seq<char>, Seq<char>)| hit(r.0), at);
}

/// The profile that `match_profile` gives is that of the first rule, in
/// declared order, whose pattern matches the path; there is none exactly
/// where no pattern matches.
pub proof fn lemma_first_match(rules: Seq<(Seq<char>, Seq<char>)>, path: Seq<char>)
    ensures
        match first_match(rules, path) {
            Some(profile) => exists|i: int|
                0 <= i < rules.len() && glob_matches(rules[i].0, path) && rules[i].1 == profile
                    && forall|j: int| 0 <= j < i ==> !glob_matches((#[trigger] rules[j]).0, path),
            None => forall|i: int| 0 <= i < rules.len() ==> !glob_matches((#[trigger] rules[i]).0, path),
        },
{
    let hit = |r: (Seq<char>, Seq<char>)| (|p: Seq<char>| glob_matches(p, path))(r.0);
    lemma_first_index(rules, hit);
    let at = first_index(rules, hit);
    if at < rules.len() {
        assert(glob_matches(rules[at].0, path));
        assert forall|j: int| 0 <= j < at implies !glob_matches((#[trigger] rules[j]).0, path) by {
            assert(!hit(rules[j]));
        }
    } else {
        assert forall|i: int| 0 <= i < rules.len() implies !glob_matches(
            (#[trigger] rules[i]).0,
            path,
        ) by {
            assert(!hit(rules[i]));
        }
    }
}

impl ProfileMatcher {
    /// The glob rules as pairs of pattern and profile name, in declared
    /// order.
    pub closed spec fn rules(&self) -> Seq<(Seq<char>, Seq<char>)> {
        rules_view(self.rules@)
    }

    /// The content rules as pairs of pattern and profile name, in declared
    /// order; `None` where the configuration has no content rules.
    pub closed spec fn content_rules(&self) -> Option<Seq<(Seq<char>, Seq<char>)>> {
        match self.content_matcher {
            Some(m) => Some(m.rules()),
            None => None,
        }
    }

    /// The profile of the first rule, in declared order, whose pattern
    /// matches the path; `None` where no rule matches.
    pub fn match_profile(&self, path: &str) -> (r: Option<&str>)
        ensures
            r.deep_view() == first_match(self.rules(), path@),
    {
        let ghost rules = self.rules();
        let mut i: usize = 0;
        while i < self.rules.len()
            invariant
                i <= self.rules.len(),
                rules == self.rules(),
                forall|k: int| 0 <= k < i ==> !glob_matches((#[trigger] rules[k]).0, path@),
            decreases self.rules.len() - i,
        {
            if glob_is_match(&self.rules[i].matcher, path) {
                proof {
                    lemma_first_profile_is(rules, |p: Seq<char>| glob_matches(p, path@), i as int);
                }
                return Some(self.rules[i].profile.as_str());
            }
            i += 1;
        }
        proof {
            lemma_first_profile_is(
                rules,
                |p: Seq<char>| glob_matches(p, path@),
                rules.len() as int,
            );
        }
        None
    }

    /// The content matcher, where the configuration has content rules.
    pub fn content_matcher(&self) -> (r: Option<&ContentMatcher>)
        ensures
            match r {
                Some(m) => self.content_rules() == Some(m.rules()),
                None => self.content_rules() is None,
            },
    {
        match &self.content_matcher {
            Some(m) => Some(m),
            None => None,
        }
    }

    /// Resolves a file by its path alone.
    pub fn resolve_config_by_path(&self, file_path: &str, config: &DprintxConfig) -> (r: Result<
        Option<ProfileResolution>,
        ResolveError,
    >)
        ensures
            resolved_view(r) == resolved_by_path(self.rules(), config.deep_view(), file_path@),
    {
        match self.match_profile(file_path) {
            None => Ok(None),
            Some(name) => match config.resolve_profile(name) {
                Some(resolution) => Ok(Some(resolution)),
                None => Err(ResolveError::UnknownProfile(name.to_owned())),
            },
        }
    }
}


/// The state of the scan of one file: the lines gathered since the last
/// block was tested.
pub struct ContentScan {
    block: String,
}

impl ContentScan {
    /// The block gathered so far.
    pub closed spec fn block(&self) -> Seq<char> {
        self.block@
    }

    /// A scan at the beginning of a file.
    pub fn new() -> (r: ContentScan)
        ensures
            r.block() == Seq::<char>::empty(),
    {
        ContentScan { block: String::new() }
    }

    /// Takes the next line of the file, line feed included. Gives the
    /// profile of the first content rule that matches the block where the
    /// block has reached its size with this line; the scan is then over.
    pub fn feed(&mut self, line: &str, matcher: &ContentMatcher) -> (r: Option<String>)
        ensures
            (final(self).block(), r.deep_view()) == fed(matcher.rules(), old(self).block(), line@),
    {
        self.block.append(line);
        if self.block.as_str().as_bytes().len() >= CONTENT_MATCH_BLOCK_BYTES {
            match matcher.match_content(self.block.as_str()) {
                Some(profile) => {
                    return Some(profile.to_owned());
                },
                None => {
                    self.block = String::new();
                },
            }
        }
        None
    }

    /// Ends the scan at the end of the file: a block that is not empty is
    /// tested as a full one is.
    pub fn finish(&self, matcher: &ContentMatcher) -> (r: Option<String>)
        ensures
            r.deep_view() == finished(matcher.rules(), self.block()),
    {
        if self.block.as_str().as_bytes().len() > 0 {
            proof {
                lemma_utf8_len_zero(self.block@);
            }
            match matcher.match_content(self.block.as_str()) {
                Some(profile) => Some(profile.to_owned()),
                None => None,
            }
        } else {
            proof {
                lemma_utf8_len_zero(self.block@);
            }
            None
        }
    }
}

/// A text has no bytes exactly where it has no characters.
pub proof fn lemma_utf8_len_zero(text: Seq<char>)
    ensures
        utf8_len(text) == 0 <==> text.len() == 0,
{
    vstd::utf8::encode_utf8_decode_utf8(text);
    if text.len() == 0 {
        assert(encode_utf8(text).len() == 0);
    } else if encode_utf8(text).len() == 0 {
        assert(encode_utf8(text) =~= Seq::<u8>::empty());
        assert(encode_utf8(Seq::<char>::empty()) =~= Seq::<u8>::empty());
        vstd::utf8::encode_utf8_decode_utf8(Seq::<char>::empty());
    }
}

impl ContentMatcher {
    /// The profile that the content rules give for the text of a file: the
    /// text is taken line by line, the lines gathered into blocks of the
    /// block size, and each block tested by itself. The first block that a
    /// rule matches decides.
    pub fn match_text(&self, text: &str) -> (r: Option<String>)
        ensures
            r.deep_view() == scanned(self.rules(), text@),
    {
        let chars = crate::text::chars_of(text);
        let mut scan = ContentScan::new();
        let mut pos: usize = 0;
        while pos < chars.len()
            invariant
                pos <= chars.len(),
                chars@ == text@,
                scanned_from(self.rules(), text@, pos as int, scan.block()) == scanned(
                    self.rules(),
                    text@,
                ),
            decreases chars.len() - pos,
        {
            let mut end: usize = pos;
            let mut seen_feed = false;
            while end < chars.len() && !seen_feed
                invariant
                    pos <= end <= chars.len(),
                    chars@ == text@,
                    !seen_feed ==> line_end(text@, end as int) == line_end(text@, pos as int),
                    seen_feed ==> end as int == line_end(text@, pos as int),
                    seen_feed ==> end > pos,
                decreases chars.len() - end + if seen_feed { 0int } else { 1int },
            {
                if chars[end] == '\n' {
                    seen_feed = true;
                }
                end += 1;
            }
            proof {
                lemma_line_end_bounds(text@, pos as int);
            }
            let line = crate::text::string_of_range(&chars, pos, end);
            match scan.feed(line.as_str(), self) {
                Some(profile) => {
                    return Some(profile);
                },
                None => {},
            }
            pos = end;
        }
        scan.finish(self)
    }
}


/// What a file resolves to, by its path and, where the path resolves and
/// the matcher has content rules, by its text. `content` is the text of the
/// file, `None` where it cannot be read.
pub open spec fn resolved(
    rules: Seq<(Seq<char>, Seq<char>)>,
    content_rules: Option<Seq<(Seq<char>, Seq<char>)>>,
    config: DprintxConfigView,
    path: Seq<char>,
    content: Option<Seq<char>>,
) -> Resolved {
    let by_path = resolved_by_path(rules, config, path);
    match (content_rules, content) {
        (Some(patterns), Some(text)) => resolved_with_content(
            by_path,
            scanned(patterns, text),
            config,
        ),
        _ => by_path,
    }
}

impl ProfileMatcher {
    /// Whether the content of a file with this path resolution is to be
    /// scanned: the path resolved and the matcher has content rules.
    pub fn wants_content(&self, by_path: &Result<Option<ProfileResolution>, ResolveError>) -> (r:
        bool)
        ensures
            r == (self.content_rules() is Some && by_path matches Ok(Some(_))),
    {
        match by_path {
            Ok(Some(_)) => self.content_matcher.is_some(),
            _ => false,
        }
    }

    /// Completes a resolution by path with what the scan of the content
    /// found: `found` is the profile that the content rules gave, `None`
    /// where no rule matched or the file could not be read.
    pub fn apply_content(
        &self,
        by_path: Result<Option<ProfileResolution>, ResolveError>,
        found: Option<&str>,
        config: &DprintxConfig,
    ) -> (r: Result<Option<ProfileResolution>, ResolveError>)
        ensures
            resolved_view(r) == resolved_with_content(
                resolved_view(by_path),
                found.deep_view(),
                config.deep_view(),
            ),
    {
        match by_path {
            Ok(Some(resolution)) => match found {
                None => Ok(Some(resolution)),
                Some(name) => match config.resolve_profile(name) {
                    Some(overriding) => Ok(Some(overriding)),
                    None => Err(ResolveError::UnknownContentProfile(name.to_owned())),
                },
            },
            other => other,
        }
    }

    /// Resolves a file to its configuration. The glob rules decide by the
    /// path; where they give nothing the file is unresolved and its content
    /// is not looked at. Otherwise, where the matcher has content rules and
    /// `content` holds the text of the file, the first block of the text
    /// that a content rule matches overrides the path's result with the
    /// profile of the first such rule in declared order. A profile that the
    /// profile set does not define is an error.
    pub fn resolve_config(
        &self,
        file_path: &str,
        config: &DprintxConfig,
        content: Option<&str>,
    ) -> (r: Result<Option<ProfileResolution>, ResolveError>)
        ensures
            resolved_view(r) == resolved(
                self.rules(),
                self.content_rules(),
                config.deep_view(),
                file_path@,
                content.deep_view(),
            ),
    {
        let by_path = self.resolve_config_by_path(file_path, config);
        if !self.wants_content(&by_path) {
            return by_path;
        }
        match (&self.content_matcher, content) {
            (Some(matcher), Some(text)) => {
                let found = matcher.match_text(text);
                match &found {
                    Some(name) => self.apply_content(by_path, Some(name.as_str()), config),
                    None => self.apply_content(by_path, None, config),
                }
            },
            _ => by_path,
        }
    }
}

/// Without a glob rule that matches its path a file is unresolved, whatever
/// its content holds and whether or not it can be read.
pub proof fn lemma_no_path_match_no_content(
    rules: Seq<(Seq<char>, Seq<char>)>,
    content_rules: Option<Seq<(Seq<char>, Seq<char>)>>,
    config: DprintxConfigView,
    path: Seq<char>,
    content: Option<Seq<char>>,
)
    requires
        first_match(rules, path) is None,
    ensures
        resolved(rules, content_rules, config, path, content) == Ok::<
            Option<ProfileResolutionView>,
            ResolveErrorView,
        >(None),
{
}

/// A rule that names a profile which the profile set does not define makes
/// the resolution fail with an error that names this profile: the first
/// glob rule that matches the path, or, where the path resolves, the content
/// rule that decides.
pub proof fn lemma_unknown_profile_is_error(
    rules: Seq<(Seq<char>, Seq<char>)>,
    content_rules: Option<Seq<(Seq<char>, Seq<char>)>>,
    config: DprintxConfigView,
    path: Seq<char>,
    content: Option<Seq<char>>,
)
    ensures
        ({
            let first = first_match(rules, path);
            first is Some && config.resolve_profile(first->0) is None ==> resolved(
                rules,
                content_rules,
                config,
                path,
                content,
            ) == Err::<Option<ProfileResolutionView>, ResolveErrorView>(
                ResolveErrorView::UnknownProfile(first->0),
            )
        }),
        ({
            let found = scanned(content_rules->0, content->0);
            resolved_by_path(rules, config, path) matches Ok(Some(_)) && content_rules is Some
                && content is Some && found is Some && config.resolve_profile(found->0) is None
                ==> resolved(rules, content_rules, config, path, content) == Err::<
                Option<ProfileResolutionView>,
                ResolveErrorView,
            >(ResolveErrorView::UnknownContentProfile(found->0))
        }),
{
}


/// The content rules that a matcher is to hold for a configuration: those of
/// the configuration, and none where it has no `match_content`.
pub open spec fn content_rules_of(config: DprintxConfigView) -> Option<
    Seq<(Seq<char>, Seq<char>)>,
> {
    match config.match_content {
        Some(_) => Some(config.content_rules()),
        None => None,
    }
}

/// Compiles glob rules in their order, up to the first that cannot be
/// compiled.
fn compile_globs(rules: &Vec<(String, String)>, config: &DprintxConfig) -> (r: Result<
    Vec<Rule>,
    MatcherError,
>)
    ensures
        match r {
            Ok(compiled) => {
                &&& rules_view(compiled@) == expanded_rules(
                    rules.deep_view(),
                    config.deep_view().home,
                )
                &&& first_index(
                    expanded_rules(rules.deep_view(), config.deep_view().home),
                    |r: (Seq<char>, Seq<char>)| !glob_ok(r.0),
                ) == rules.len()
            },
            Err(MatcherError::InvalidGlob(pattern)) => {
                let bad = first_index(
                    expanded_rules(rules.deep_view(), config.deep_view().home),
                    |r: (Seq<char>, Seq<char>)| !glob_ok(r.0),
                );
                bad < rules.len() && pattern@ == rules.deep_view()[bad].0
            },
            Err(_) => false,
        },
{
    let ghost wanted = expanded_rules(rules.deep_view(), config.deep_view().home);
    let ghost bad = |r: (Seq<char>, Seq<char>)| !glob_ok(r.0);
    let mut compiled: Vec<Rule> = Vec::new();
    let mut i: usize = 0;
    while i < rules.len()
        invariant
            i <= rules.len(),
            compiled.len() == i,
            wanted == expanded_rules(rules.deep_view(), config.deep_view().home),
            bad == |r: (Seq<char>, Seq<char>)| !glob_ok(r.0),
            forall|k: int| 0 <= k < i ==> !bad(#[trigger] wanted[k]),
            forall|k: int|
                0 <= k < i ==> matcher_source((#[trigger] compiled@[k]).matcher) == wanted[k].0
                    && compiled@[k].profile@ == wanted[k].1,
        decreases rules.len() - i,
    {
        let pattern = &rules[i].0;
        let profile = &rules[i].1;
        assert(rules.deep_view()[i as int] == (pattern@, profile@));
        let expanded_pattern = config.expand(pattern.as_str());
        if expanded_pattern.as_str().as_bytes().len() > MAX_GLOB_BYTES {
            proof {
                lemma_first_index_is(wanted, bad, i as int);
            }
            return Err(MatcherError::InvalidGlob(pattern.clone()));
        }
        match compile_glob(expanded_pattern.as_str()) {
            Ok(matcher) => {
                compiled.push(Rule { matcher, profile: profile.clone() });
            },
            Err(_) => {
                proof {
                    lemma_first_index_is(wanted, bad, i as int);
                }
                return Err(MatcherError::InvalidGlob(pattern.clone()));
            },
        }
        i += 1;
    }
    proof {
        lemma_first_index_is(wanted, bad, rules.len() as int);
        assert(rules_view(compiled@) =~= wanted);
    }
    Ok(compiled)
}

/// Compiles content rules in their order, up to the first that cannot be
/// compiled.
fn compile_content(rules: &Vec<(String, String)>) -> (r: Result<Vec<ContentRule>, MatcherError>)
    ensures
        match r {
            Ok(compiled) => {
                &&& content_rules_view(compiled@) == rules.deep_view()
                &&& first_index(
                    rules.deep_view(),
                    |r: (Seq<char>, Seq<char>)| !regex_compiles(r.0),
                ) == rules.len()
            },
            Err(MatcherError::InvalidRegex(pattern)) => {
                let bad = first_index(
                    rules.deep_view(),
                    |r: (Seq<char>, Seq<char>)| !regex_compiles(r.0),
                );
                bad < rules.len() && pattern@ == rules.deep_view()[bad].0
            },
            Err(_) => false,
        },
{
    let ghost wanted = rules.deep_view();
    let ghost bad = |r: (Seq<char>, Seq<char>)| !regex_compiles(r.0);
    let mut compiled: Vec<ContentRule> = Vec::new();
    let mut i: usize = 0;
    while i < rules.len()
        invariant
            i <= rules.len(),
            compiled.len() == i,
            wanted == rules.deep_view(),
            bad == |r: (Seq<char>, Seq<char>)| !regex_compiles(r.0),
            forall|k: int| 0 <= k < i ==> !bad(#[trigger] wanted[k]),
            forall|k: int|
                0 <= k < i ==> regex_source((#[trigger] compiled@[k]).regex) == wanted[k].0
                    && compiled@[k].profile@ == wanted[k].1,
        decreases rules.len() - i,
    {
        let pattern = &rules[i].0;
        let profile = &rules[i].1;
        assert(rules.deep_view()[i as int] == (pattern@, profile@));
        match compile_regex(pattern.as_str()) {
            Ok(regex) => {
                compiled.push(ContentRule { regex, profile: profile.clone() });
            },
            Err(_) => {
                proof {
                    lemma_first_index_is(wanted, bad, i as int);
                }
                return Err(MatcherError::InvalidRegex(pattern.clone()));
            },
        }
        i += 1;
    }
    proof {
        lemma_first_index_is(wanted, bad, rules.len() as int);
        assert(content_rules_view(compiled@) =~= wanted);
    }
    Ok(compiled)
}

impl ProfileMatcher {
    /// Compiles the rules of a configuration: the glob rules with `~/`
    /// expanded in each pattern, then the content rules. The first rule that
    /// cannot be compiled is the error, a glob rule before any content rule;
    /// the error holds the pattern as the configuration states it.
    pub fn from_config(config: &DprintxConfig) -> (r: Result<ProfileMatcher, MatcherError>)
        ensures
            match r {
                Ok(matcher) => {
                    &&& first_bad_glob(config.deep_view()) == glob_rules(config.deep_view()).len()
                    &&& first_bad_regex(config.deep_view())
                        == config.deep_view().content_rules().len()
                    &&& matcher.rules() == glob_rules(config.deep_view())
                    &&& matcher.content_rules() == content_rules_of(config.deep_view())
                },
                Err(MatcherError::InvalidGlob(pattern)) => {
                    let bad = first_bad_glob(config.deep_view());
                    bad < config.deep_view().rules().len() && pattern@
                        == config.deep_view().rules()[bad].0
                },
                Err(MatcherError::InvalidRegex(pattern)) => {
                    let bad = first_bad_regex(config.deep_view());
                    &&& first_bad_glob(config.deep_view()) == glob_rules(config.deep_view()).len()
                    &&& bad < config.deep_view().content_rules().len()
                    &&& pattern@ == config.deep_view().content_rules()[bad].0
                },
            },
    {
        let globs = config.match_rules_iter();
        let rules = match compile_globs(&globs, config) {
            Ok(rules) => rules,
            Err(e) => {
                return Err(e);
            },
        };
        let content_matcher = match &config.match_content {
            None => None,
            Some(_) => {
                let patterns = config.match_content_rules_iter();
                match compile_content(&patterns) {
                    Ok(compiled) => Some(ContentMatcher { rules: compiled }),
                    Err(e) => {
                        return Err(e);
                    },
                }
            },
        };
        Ok(ProfileMatcher { rules, content_matcher })
    }
}


/// The bytes of a text are those of its parts.
pub proof fn lemma_utf8_len_concat(a: Seq<char>, b: Seq<char>)
    ensures
        utf8_len(a + b) == utf8_len(a) + utf8_len(b),
    decreases a.len(),
{
    if a.len() == 0 {
        assert(a + b =~= b);
    } else {
        lemma_utf8_len_concat(a.drop_first(), b);
        assert((a + b).drop_first() =~= a.drop_first() + b);
        assert((a + b)[0] == a[0]);
    }
}

/// A text that is shorter than a block is scanned as one block: all its
/// lines are gathered, and tested together at its end.
pub proof fn lemma_short_text_is_one_block(
    rules: Seq<(Seq<char>, Seq<char>)>,
    text: Seq<char>,
    pos: int,
)
    requires
        utf8_len(text) < CONTENT_MATCH_BLOCK_BYTES,
        0 <= pos <= text.len(),
    ensures
        scanned_from(rules, text, pos, text.take(pos)) == finished(rules, text),
    decreases text.len() - pos,
{
    if pos >= text.len() {
        assert(text.take(pos) =~= text);
    } else {
        lemma_line_end_bounds(text, pos);
        let end = line_end(text, pos);
        let joined = text.take(pos) + text.subrange(pos, end);
        assert(joined =~= text.take(end));
        assert(text =~= text.take(end) + text.skip(end));
        lemma_utf8_len_concat(text.take(end), text.skip(end));
        lemma_short_text_is_one_block(rules, text, end);
    }
}

/// Of two content rules that both match a file, the one that is declared
/// earlier decides, wherever in the file the two patterns match: the file
/// resolves to the profile of the first rule in declared order that matches
/// it. This holds of a file that is not empty and shorter than a block: an
/// empty file is not tested at all, and a longer file is decided by its
/// first block that any rule matches.
pub proof fn lemma_earlier_content_rule_wins(
    rules: Seq<(Seq<char>, Seq<char>)>,
    text: Seq<char>,
    earlier: int,
    later: int,
)
    requires
        0 <= earlier < later < rules.len(),
        regex_matches(rules[earlier].0, text),
        regex_matches(rules[later].0, text),
        0 < text.len(),
        utf8_len(text) < CONTENT_MATCH_BLOCK_BYTES,
    ensures
        scanned(rules, text) == content_match(rules, text),
        exists|first: int|
            0 <= first <= earlier && scanned(rules, text) == Some(rules[first].1) && regex_matches(
                rules[first].0,
                text,
            ) && forall|k: int| 0 <= k < first ==> !regex_matches((#[trigger] rules[k]).0, text),
{
    lemma_short_text_is_one_block(rules, text, 0);
    assert(text.take(0) =~= Seq::<char>::empty());
    let hit = |r: (Seq<char>, Seq<char>)| (|p: Seq<char>| regex_matches(p, text))(r.0);
    lemma_first_index(rules, hit);
    let first = first_index(rules, hit);
    if first > earlier {
        assert(!hit(rules[earlier]));
    }
    assert(hit(rules[first]));
    assert forall|k: int| 0 <= k < first implies !regex_matches((#[trigger] rules[k]).0, text) by {
        assert(!hit(rules[k]));
    }
    assert(scanned(rules, text) == Some(rules[first].1));
}

/// A file without content is not tested: no content rule decides it.
pub proof fn lemma_empty_text_is_not_tested(rules: Seq<(Seq<char>, Seq<char>)>, text: Seq<char>)
    ensures
        text.len() == 0 ==> scanned(rules, text) is None,
{
}

} // verus!
