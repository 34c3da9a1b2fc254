//! Turns commented JSON into strict JSON: `//` and `/* */` comments and
//! commas that trail the last member of an object or array are removed,
//! while the inside of every string literal is kept character for character.

use vstd::prelude::*;
use crate::text::{char_is_whitespace, chars_of, skip_whitespace};

verus! {

/// The end of the line comment whose text begins at `i`: the position of the
/// next line feed, or the end of the input.
pub open spec fn line_comment_end(s: Seq<char>, i: int) -> int
    decreases s.len() - i,
{
    if i < 0 || i >= s.len() || s[i] == '\n' {
        i
    } else {
        line_comment_end(s, i + 1)
    }
}

/// Where scanning resumes after the block comment whose text begins at `i`:
/// just behind the closing `*/`, or, where the comment is never closed, at the
/// last character of the input.
pub open spec fn block_comment_end(s: Seq<char>, i: int) -> int
    decreases s.len() - i,
{
    if i < 0 || i + 1 >= s.len() {
        i
    } else if s[i] == '*' && s[i + 1] == '/' {
        i + 2
    } else {
        block_comment_end(s, i + 1)
    }
}

/// The input from position `i` on with its comments removed; `in_string`
/// says whether position `i` lies inside a string literal.
pub open spec fn without_comments_from(s: Seq<char>, i: int, in_string: bool) -> Seq<char>
    decreases s.len() - i,
{
    if i < 0 || i >= s.len() {
        Seq::empty()
    } else if in_string {
        if s[i] == '\\' && i + 1 < s.len() {
            seq![s[i], s[i + 1]] + without_comments_from(s, i + 2, true)
        } else {
            seq![s[i]] + without_comments_from(s, i + 1, s[i] != '"')
        }
    } else if s[i] == '"' {
        seq![s[i]] + without_comments_from(s, i + 1, true)
    } else if s[i] == '/' && i + 1 < s.len() && s[i + 1] == '/' {
        proof {
            lemma_line_comment_end_bounds(s, i + 2);
        }
        without_comments_from(s, line_comment_end(s, i + 2), false)
    } else if s[i] == '/' && i + 1 < s.len() && s[i + 1] == '*' {
        proof {
            lemma_block_comment_end_bounds(s, i + 2);
        }
        without_comments_from(s, block_comment_end(s, i + 2), false)
    } else {
        seq![s[i]] + without_comments_from(s, i + 1, false)
    }
}

/// The input with its `//` and `/* */` comments removed.
pub open spec fn without_comments(s: Seq<char>) -> Seq<char> {
    without_comments_from(s, 0, false)
}

/// Whether the comma at position `i` trails the last member of an object or
/// array: only whitespace stands between it and a closing `}` or `]`.
pub open spec fn is_trailing_comma(s: Seq<char>, i: int) -> bool {
    let j = skip_whitespace(s, i + 1);
    0 <= i < s.len() && s[i] == ',' && j < s.len() && (s[j] == '}' || s[j] == ']')
}

/// The input from position `i` on with its trailing commas removed;
/// `in_string` says whether position `i` lies inside a string literal.
pub open spec fn without_trailing_commas_from(s: Seq<char>, i: int, in_string: bool) -> Seq<char>
    decreases s.len() - i,
{
    if i < 0 || i >= s.len() {
        Seq::empty()
    } else if in_string {
        if s[i] == '\\' && i + 1 < s.len() {
            seq![s[i], s[i + 1]] + without_trailing_commas_from(s, i + 2, true)
        } else {
            seq![s[i]] + without_trailing_commas_from(s, i + 1, s[i] != '"')
        }
    } else if s[i] == '"' {
        seq![s[i]] + without_trailing_commas_from(s, i + 1, true)
    } else if is_trailing_comma(s, i) {
        without_trailing_commas_from(s, i + 1, false)
    } else {
        seq![s[i]] + without_trailing_commas_from(s, i + 1, false)
    }
}

/// The input with its trailing commas removed.
pub open spec fn without_trailing_commas(s: Seq<char>) -> Seq<char> {
    without_trailing_commas_from(s, 0, false)
}

/// Strict JSON for commented JSON: first the comments go, then the trailing
/// commas of what is left.
pub open spec fn strict_json(s: Seq<char>) -> Seq<char> {
    without_trailing_commas(without_comments(s))
}

pub proof fn lemma_line_comment_end_bounds(s: Seq<char>, i: int)
    requires
        0 <= i <= s.len(),
    ensures
        i <= line_comment_end(s, i) <= s.len(),
        line_comment_end(s, i) < s.len() ==> s[line_comment_end(s, i)] == '\n',
        forall|k: int| i <= k < line_comment_end(s, i) ==> s[k] != '\n',
    decreases s.len() - i,
{
    if i < s.len() && s[i] != '\n' {
        lemma_line_comment_end_bounds(s, i + 1);
    }
}

pub proof fn lemma_block_comment_end_bounds(s: Seq<char>, i: int)
    requires
        0 <= i <= s.len(),
    ensures
        i <= block_comment_end(s, i) <= s.len(),
    decreases s.len() - i,
{
    if i + 1 < s.len() && !(s[i] == '*' && s[i + 1] == '/') {
        lemma_block_comment_end_bounds(s, i + 1);
    }
}

/// Removes the `//` and `/* */` comments of `chars`.
fn strip_comments(chars: &Vec<char>) -> (out: Vec<char>)
    ensures
        out@ == without_comments(chars@),
{
    let len = chars.len();
    let mut out: Vec<char> = Vec::new();
    let mut i: usize = 0;
    let mut in_string = false;
    while i < len
        invariant
            len == chars.len(),
            i <= len,
            out@ + without_comments_from(chars@, i as int, in_string) == without_comments(chars@),
        decreases len - i,
    {
        let c = chars[i];
        let ghost before = out@;
        if in_string {
            out.push(c);
            if c == '\\' && i + 1 < len {
                i += 1;
                out.push(chars[i]);
                assert(out@ == before + seq![c, chars@[i as int]]);
            } else {
                if c == '"' {
                    in_string = false;
                }
                assert(out@ == before + seq![c]);
            }
            i += 1;
        } else if c == '"' {
            in_string = true;
            out.push(c);
            assert(out@ == before + seq![c]);
            i += 1;
        } else if c == '/' && i + 1 < len && chars[i + 1] == '/' {
            i += 2;
            let ghost start = i as int;
            while i < len && chars[i] != '\n'
                invariant
                    len == chars.len(),
                    start <= i <= len,
                    line_comment_end(chars@, i as int) == line_comment_end(chars@, start),
                decreases len - i,
            {
                i += 1;
            }
        } else if c == '/' && i + 1 < len && chars[i + 1] == '*' {
            i += 2;
            let ghost start = i as int;
            while len - i > 1 && !(chars[i] == '*' && chars[i + 1] == '/')
                invariant
                    len == chars.len(),
                    start <= i <= len,
                    block_comment_end(chars@, i as int) == block_comment_end(chars@, start),
                decreases len - i,
            {
                i += 1;
            }
            if len - i > 1 {
                i += 2;
            }
        } else {
            out.push(c);
            assert(out@ == before + seq![c]);
            i += 1;
        }
    }
    out
}

/// Removes the trailing commas of `chars`.
fn strip_commas(chars: &Vec<char>) -> (out: Vec<char>)
    ensures
        out@ == without_trailing_commas(chars@),
{
    let len = chars.len();
    let mut out: Vec<char> = Vec::new();
    let mut i: usize = 0;
    let mut in_string = false;
    while i < len
        invariant
            len == chars.len(),
            i <= len,
            out@ + without_trailing_commas_from(chars@, i as int, in_string)
                == without_trailing_commas(chars@),
        decreases len - i,
    {
        let c = chars[i];
        let ghost before = out@;
        if in_string {
            out.push(c);
            if c == '\\' && i + 1 < len {
                i += 1;
                out.push(chars[i]);
                assert(out@ == before + seq![c, chars@[i as int]]);
            } else {
                if c == '"' {
                    in_string = false;
                }
                assert(out@ == before + seq![c]);
            }
            i += 1;
        } else if c == '"' {
            in_string = true;
            out.push(c);
            assert(out@ == before + seq![c]);
            i += 1;
        } else {
            let mut trailing = false;
            if c == ',' {
                let mut j: usize = i + 1;
                while j < len && char_is_whitespace(chars[j])
                    invariant
                        len == chars.len(),
                        i < j <= len,
                        skip_whitespace(chars@, j as int) == skip_whitespace(chars@, i + 1),
                    decreases len - j,
                {
                    j += 1;
                }
                trailing = j < len && (chars[j] == '}' || chars[j] == ']');
            }
            if !trailing {
                out.push(c);
                assert(out@ == before + seq![c]);
            }
            i += 1;
        }
    }
    out
}

/// Removes the trailing commas of `input`: each comma outside a string
/// literal that only whitespace parts from a closing `}` or `]`.
pub fn strip_trailing_commas(input: &str) -> (out: String)
    ensures
        out@ == without_trailing_commas(input@),
{
    let chars = chars_of(input);
    let stripped = strip_commas(&chars);
    crate::text::string_of(&stripped)
}

/// Turns commented JSON into strict JSON: removes `//` comments up to the
/// end of their line and `/* */` comments, then the trailing commas. Nothing
/// inside a string literal is changed.
pub fn strip_jsonc_comments(input: &str) -> (out: String)
    ensures
        out@ == strict_json(input@),
{
    let chars = chars_of(input);
    let bare = strip_comments(&chars);
    let stripped = strip_commas(&bare);
    crate::text::string_of(&stripped)
}


/// The end of the string literal inside which position `i` lies: the
/// position behind its closing quote, a backslash taking the character
/// behind it along, or the end of the input where the literal is never
/// closed.
pub open spec fn literal_end(s: Seq<char>, i: int) -> int
    decreases s.len() - i,
{
    if i < 0 || i >= s.len() {
        s.len() as int
    } else if s[i] == '\\' && i + 1 < s.len() {
        literal_end(s, i + 2)
    } else if s[i] == '"' {
        i + 1
    } else {
        literal_end(s, i + 1)
    }
}

/// Removing comments changes nothing inside a string literal: from a
/// position inside one, the rest of the literal is kept character for
/// character, whatever it holds, and comments are looked for again only
/// behind it.
pub proof fn lemma_comments_keep_literals(s: Seq<char>, i: int)
    requires
        0 <= i <= s.len(),
    ensures
        i <= literal_end(s, i) <= s.len(),
        without_comments_from(s, i, true) == s.subrange(i, literal_end(s, i))
            + without_comments_from(s, literal_end(s, i), false),
    decreases s.len() - i,
{
    if i < s.len() {
        if s[i] == '\\' && i + 1 < s.len() {
            lemma_comments_keep_literals(s, i + 2);
            assert(seq![s[i], s[i + 1]] + s.subrange(i + 2, literal_end(s, i)) =~= s.subrange(
                i,
                literal_end(s, i),
            ));
        } else if s[i] == '"' {
            assert(seq![s[i]] =~= s.subrange(i, i + 1));
        } else {
            lemma_comments_keep_literals(s, i + 1);
            assert(seq![s[i]] + s.subrange(i + 1, literal_end(s, i)) =~= s.subrange(
                i,
                literal_end(s, i),
            ));
        }
    } else {
        assert(s.subrange(i, i) =~= Seq::<char>::empty());
    }
}

/// Removing trailing commas changes nothing inside a string literal.
pub proof fn lemma_commas_keep_literals(s: Seq<char>, i: int)
    requires
        0 <= i <= s.len(),
    ensures
        i <= literal_end(s, i) <= s.len(),
        without_trailing_commas_from(s, i, true) == s.subrange(i, literal_end(s, i))
            + without_trailing_commas_from(s, literal_end(s, i), false),
    decreases s.len() - i,
{
    if i < s.len() {
        if s[i] == '\\' && i + 1 < s.len() {
            lemma_commas_keep_literals(s, i + 2);
            assert(seq![s[i], s[i + 1]] + s.subrange(i + 2, literal_end(s, i)) =~= s.subrange(
                i,
                literal_end(s, i),
            ));
        } else if s[i] == '"' {
            assert(seq![s[i]] =~= s.subrange(i, i + 1));
        } else {
            lemma_commas_keep_literals(s, i + 1);
            assert(seq![s[i]] + s.subrange(i + 1, literal_end(s, i)) =~= s.subrange(
                i,
                literal_end(s, i),
            ));
        }
    } else {
        assert(s.subrange(i, i) =~= Seq::<char>::empty());
    }
}

} // verus!
