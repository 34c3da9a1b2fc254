//! The wire format of the language-server protocol, and what the proxy reads
//! from a message: JSON text behind a header that gives its length in
//! bytes.

use vstd::prelude::*;
use vstd::string::StringExecFns;
use crate::json::{Json, JsonView};
use crate::matcher::utf8_len;
use crate::text::{
    chars_of, decimal, has_prefix, lemma_decimal, parsed_usize, string_of_range, trimmed,
};

verus! {

/// Why no message could be read.
#[derive(Debug, PartialEq, Eq, Clone, Copy)]
pub enum CodecError {
    /// The stream ended, or could not be read, within the header.
    Closed,
    /// The length in a `Content-Length` header is no number.
    InvalidLength,
    /// The header ended without a `Content-Length`.
    MissingLength,
    /// The body is not UTF-8.
    InvalidBody,
}

/// What a line of the header says.
#[derive(Debug, PartialEq, Eq, Clone, Copy)]
pub enum HeaderLine {
    /// The blank line that ends the header.
    End,
    /// The length of the body in bytes.
    ContentLength(usize),
    /// A `Content-Length` whose value is no number.
    Invalid,
    /// Any other header.
    Other,
}

/// What a line of the header says: without the whitespace around it, an
/// empty line ends the header, and a line that begins with
/// `Content-Length:` gives the length, which is the number behind the colon
/// with the whitespace around it left off.
pub open spec fn header_line(line: Seq<char>) -> HeaderLine {
    let text = trimmed(line);
    if text.len() == 0 {
        HeaderLine::End
    } else if has_prefix(text, "Content-Length:"@) {
        match parsed_usize(trimmed(text.skip("Content-Length:"@.len() as int))) {
            Some(n) => HeaderLine::ContentLength(n),
            None => HeaderLine::Invalid,
        }
    } else {
        HeaderLine::Other
    }
}

/// Reads one line of the header.
pub fn parse_header_line(line: &str) -> (r: HeaderLine)
    ensures
        r == header_line(line@),
{
    let chars = chars_of(line);
    let (from, to) = crate::text::trim_range(&chars, 0, chars.len());
    assert(chars@.subrange(0, chars.len() as int) == chars@);
    let ghost text = trimmed(line@);
    if from == to {
        return HeaderLine::End;
    }
    let name = chars_of("Content-Length:");
    if name.len() > to - from {
        return HeaderLine::Other;
    }
    let is_length = crate::text::starts_with_at(&chars, from, &name);
    assert(chars@.skip(from as int).subrange(0, name.len() as int) =~= chars@.subrange(
        from as int,
        from + name.len(),
    ));
    assert(text.subrange(0, name.len() as int) =~= chars@.subrange(
        from as int,
        from + name.len(),
    ));
    if is_length {
        let (a, b) = crate::text::trim_range(&chars, from + name.len(), to);
        assert(chars@.subrange(from + name.len(), to as int) =~= text.skip(name.len() as int));
        match crate::text::parse_usize(&chars, a, b) {
            Some(n) => HeaderLine::ContentLength(n),
            None => HeaderLine::Invalid,
        }
    } else {
        HeaderLine::Other
    }
}

/// What is to be read next of a message.
#[derive(Debug, PartialEq, Eq, Clone, Copy)]
pub enum ReadStep {
    /// Another line of the header.
    Line,
    /// The body, of this many bytes.
    Body(usize),
    /// Nothing: no message can be read.
    Fail(CodecError),
}

/// The state of reading the header of one message: the length that the
/// header has given so far.
#[derive(Debug, PartialEq, Eq, Clone, Copy)]
pub struct MessageReader {
    pub content_length: Option<usize>,
}

/// The state after a line of the header, and what is to be read next.
/// `line` is `None` where the stream ended or could not be read.
pub open spec fn after_line(length: Option<usize>, line: Option<Seq<char>>) -> (
    Option<usize>,
    ReadStep,
) {
    match line {
        None => (length, ReadStep::Fail(CodecError::Closed)),
        Some(text) => match header_line(text) {
            HeaderLine::End => match length {
                Some(n) => (length, ReadStep::Body(n)),
                None => (length, ReadStep::Fail(CodecError::MissingLength)),
            },
            HeaderLine::ContentLength(n) => (Some(n), ReadStep::Line),
            HeaderLine::Invalid => (length, ReadStep::Fail(CodecError::InvalidLength)),
            HeaderLine::Other => (length, ReadStep::Line),
        },
    }
}

impl MessageReader {
    /// The state before the first line of a header.
    pub fn new() -> (r: MessageReader)
        ensures
            r.content_length is None,
    {
        MessageReader { content_length: None }
    }

    /// Takes the next line of the header, `None` where the stream ended or
    /// could not be read, and says what is to be read next. The last
    /// `Content-Length` before the blank line counts.
    pub fn on_line(&mut self, line: Option<&str>) -> (r: ReadStep)
        ensures
            (final(self).content_length, r) == after_line(
                old(self).content_length,
                line.deep_view(),
            ),
    {
        match line {
            None => ReadStep::Fail(CodecError::Closed),
            Some(text) => match parse_header_line(text) {
                HeaderLine::End => match self.content_length {
                    Some(n) => ReadStep::Body(n),
                    None => ReadStep::Fail(CodecError::MissingLength),
                },
                HeaderLine::ContentLength(n) => {
                    self.content_length = Some(n);
                    ReadStep::Line
                },
                HeaderLine::Invalid => ReadStep::Fail(CodecError::InvalidLength),
                HeaderLine::Other => ReadStep::Line,
            },
        }
    }
}

/// A message on the wire: the length of the body in bytes behind
/// `Content-Length: `, a blank line, and the body.
pub open spec fn framed(body: Seq<char>) -> Seq<char> {
    "Content-Length: "@ + decimal(utf8_len(body)) + "\r\n\r\n"@ + body
}

/// Frames a message for the wire.
pub fn write_lsp_message(body: &str) -> (r: String)
    ensures
        r@ == framed(body@),
{
    let mut frame = "Content-Length: ".to_owned();
    let length = body.as_bytes().len();
    crate::text::push_decimal(&mut frame, length as u64);
    frame.append("\r\n\r\n");
    frame.append(body);
    frame
}


/// `String::from_utf8`: the text of bytes that are UTF-8, and nothing for
/// other bytes.
#[verifier::external_body]
fn string_from_utf8(bytes: Vec<u8>) -> (r: Option<String>)
    ensures
        r is Some <==> vstd::utf8::valid_utf8(bytes@),
        r matches Some(s) ==> s@ == vstd::utf8::decode_utf8(bytes@),
{
    String::from_utf8(bytes).ok()
}

/// The body of a message from its bytes, which must be UTF-8.
pub fn decode_body(bytes: Vec<u8>) -> (r: Result<String, CodecError>)
    ensures
        match r {
            Ok(body) => vstd::utf8::valid_utf8(bytes@) && body@ == vstd::utf8::decode_utf8(bytes@),
            Err(e) => e == CodecError::InvalidBody && !vstd::utf8::valid_utf8(bytes@),
        },
{
    match string_from_utf8(bytes) {
        Some(body) => Ok(body),
        None => Err(CodecError::InvalidBody),
    }
}

/// The value of a hexadecimal digit.
pub open spec fn hex_value(b: u8) -> Option<u8> {
    if 0x30 <= b <= 0x39 {
        Some((b - 0x30) as u8)
    } else if 0x41 <= b <= 0x46 {
        Some((b - 0x41 + 10) as u8)
    } else if 0x61 <= b <= 0x66 {
        Some((b - 0x61 + 10) as u8)
    } else {
        None
    }
}

/// The byte that two characters denote in base 16: two hexadecimal digits,
/// or a plus sign and one digit.
pub open spec fn hex_pair(first: u8, second: u8) -> Option<u8> {
    match (hex_value(first), hex_value(second)) {
        (Some(high), Some(low)) => Some((high * 16 + low) as u8),
        (None, Some(low)) => if first == 0x2b {
            Some(low)
        } else {
            None
        },
        _ => None,
    }
}

/// The bytes from position `i` on with each `%` and the byte it encodes
/// replaced by that byte, every byte taken as the character of its number.
/// A `%` that no two such characters follow stays.
pub open spec fn percent_decoded_from(bytes: Seq<u8>, i: int) -> Seq<char>
    decreases bytes.len() - i,
{
    if i < 0 || i >= bytes.len() {
        Seq::empty()
    } else if bytes[i] == 0x25 && i + 2 < bytes.len() && hex_pair(bytes[i + 1], bytes[i + 2])
        is Some {
        seq![hex_pair(bytes[i + 1], bytes[i + 2])->0 as char] + percent_decoded_from(bytes, i + 3)
    } else {
        seq![bytes[i] as char] + percent_decoded_from(bytes, i + 1)
    }
}

/// The percent-decoded form of the bytes of a text.
pub open spec fn percent_decoded(text: Seq<char>) -> Seq<char> {
    percent_decoded_from(vstd::utf8::encode_utf8(text), 0)
}

fn hex_digit(b: u8) -> (r: Option<u8>)
    ensures
        r == hex_value(b),
{
    if 0x30 <= b && b <= 0x39 {
        Some(b - 0x30)
    } else if 0x41 <= b && b <= 0x46 {
        Some(b - 0x41 + 10)
    } else if 0x61 <= b && b <= 0x66 {
        Some(b - 0x61 + 10)
    } else {
        None
    }
}

fn hex_byte(first: u8, second: u8) -> (r: Option<u8>)
    ensures
        r == hex_pair(first, second),
{
    match (hex_digit(first), hex_digit(second)) {
        (Some(high), Some(low)) => Some(high * 16 + low),
        (None, Some(low)) => if first == 0x2b {
            Some(low)
        } else {
            None
        },
        _ => None,
    }
}

/// Decodes the percent-encoded bytes of a file URI.
pub fn percent_decode(input: &str) -> (r: String)
    ensures
        r@ == percent_decoded(input@),
{
    let bytes = input.as_bytes();
    let mut result = String::new();
    let mut i: usize = 0;
    while i < bytes.len()
        invariant
            i <= bytes.len(),
            bytes@ == vstd::utf8::encode_utf8(input@),
            result@ + percent_decoded_from(bytes@, i as int) == percent_decoded(input@),
        decreases bytes.len() - i,
    {
        let ghost before = result@;
        if bytes[i] == 0x25 && bytes.len() - i > 2 {
            match hex_byte(bytes[i + 1], bytes[i + 2]) {
                Some(byte) => {
                    crate::text::push_char(&mut result, byte as char);
                    assert(result@ == before + seq![byte as char]);
                    i += 3;
                    continue ;
                },
                None => {},
            }
        }
        crate::text::push_char(&mut result, bytes[i] as char);
        assert(result@ == before + seq![bytes@[i as int] as char]);
        i += 1;
    }
    result
}

/// The path that a URI names: what follows `file://`, percent-decoded, or
/// the URI itself where it does not begin so.
pub open spec fn path_of_uri(uri: Seq<char>) -> Seq<char> {
    if has_prefix(uri, "file://"@) {
        percent_decoded(uri.skip("file://"@.len() as int))
    } else {
        uri
    }
}

/// Converts a `file://` URI to the path of the file.
pub fn uri_to_path(uri: &str) -> (r: String)
    ensures
        r@ == path_of_uri(uri@),
{
    let chars = chars_of(uri);
    let scheme = chars_of("file://");
    assert(chars@.skip(0) == chars@);
    if crate::text::starts_with_at(&chars, 0, &scheme) {
        let rest = string_of_range(&chars, scheme.len(), chars.len());
        assert(rest@ == uri@.skip("file://"@.len() as int));
        percent_decode(rest.as_str())
    } else {
        uri.to_owned()
    }
}

/// The URI of the document that a message is about: the string at
/// `params.textDocument.uri`.
pub open spec fn uri_of(message: JsonView) -> Option<Seq<char>> {
    match message.get("params"@) {
        Some(params) => match params.get("textDocument"@) {
            Some(document) => match document.get("uri"@) {
                Some(uri) => uri.as_str(),
                None => None,
            },
            None => None,
        },
        None => None,
    }
}

/// The URI of the document that a message is about.
pub fn extract_uri(message: &Json) -> (r: Option<String>)
    ensures
        r.deep_view() == uri_of(message.deep_view()),
{
    let params = match message.get("params") {
        Some(params) => params,
        None => {
            return None;
        },
    };
    let document = match params.get("textDocument") {
        Some(document) => document,
        None => {
            return None;
        },
    };
    let uri = match document.get("uri") {
        Some(uri) => uri,
        None => {
            return None;
        },
    };
    match uri.as_str() {
        Some(text) => Some(text.to_owned()),
        None => None,
    }
}

/// The header that [`write_lsp_message`] writes for a body.
pub open spec fn written_header(length: nat) -> Seq<char> {
    "Content-Length: "@ + decimal(length) + "\r\n"@
}

/// The header that is written for a message is read back as the length of
/// its body: the line with the length gives that length, and the blank
/// line behind it asks for a body of that length.
pub proof fn lemma_written_header_is_read(length: nat)
    requires
        length <= usize::MAX,
    ensures
        header_line(written_header(length)) == HeaderLine::ContentLength(length as usize),
        header_line("\r\n"@) == HeaderLine::End,
        after_line(None, Some(written_header(length))) == (Some(length as usize), ReadStep::Line),
        after_line(Some(length as usize), Some("\r\n"@)) == (
            Some(length as usize),
            ReadStep::Body(length as usize),
        ),
{
    reveal_strlit("Content-Length: ");
    reveal_strlit("Content-Length:");
    reveal_strlit("\r\n");
    lemma_decimal(length);
    let digits = decimal(length);
    let line = written_header(length);
    let n = line.len() as int;
    assert(n == 16 + digits.len() + 2);
    assert(line[0] == 'C');
    assert(line[n - 1] == '\n');
    assert(line[n - 2] == '\r');
    assert forall|i: int| 0 <= i < digits.len() implies !crate::text::is_whitespace(
        #[trigger] digits[i],
    ) by {
        let d = choose|d: int| 0 <= d < 10 && digits[i] == crate::text::digit_char(d);
        assert(0x30 <= crate::text::digit_char(d) as u32 <= 0x39);
    }
    assert(line[n - 3] == digits[digits.len() - 1]);
    // The line without the whitespace around it.
    assert(crate::text::skip_whitespace(line, 0) == 0);
    assert(crate::text::trim_end(line, 0, n - 2) == n - 2);
    assert(crate::text::trim_end(line, 0, n - 1) == n - 2);
    assert(crate::text::trim_end(line, 0, n) == n - 2);
    let text = trimmed(line);
    assert(text =~= "Content-Length: "@ + digits);
    assert(text.subrange(0, 15) =~= "Content-Length:"@);
    // The value behind the colon, without the whitespace around it.
    let rest = text.skip(15);
    assert(rest =~= seq![' '] + digits);
    assert(rest[0] == ' ');
    assert(rest[1] == digits[0]);
    assert(crate::text::skip_whitespace(rest, 1) == 1);
    assert(crate::text::skip_whitespace(rest, 0) == 1);
    assert(rest[rest.len() - 1] == digits[digits.len() - 1]);
    assert(crate::text::trim_end(rest, 1, rest.len() as int) == rest.len());
    assert(trimmed(rest) =~= digits);
    let d0 = choose|d: int| 0 <= d < 10 && digits[0] == crate::text::digit_char(d);
    assert(digits[0] != '+');
    // The blank line.
    let blank = "\r\n"@;
    assert(crate::text::skip_whitespace(blank, 2) == 2);
    assert(crate::text::skip_whitespace(blank, 1) == 2);
    assert(crate::text::skip_whitespace(blank, 0) == 2);
    assert(crate::text::trim_end(blank, 2, 2) == 2);
    assert(trimmed(blank).len() == 0);
}

/// A body that was written is read back: its bytes are UTF-8, and they
/// decode to the body.
pub proof fn lemma_written_body_is_read(body: Seq<char>)
    ensures
        vstd::utf8::valid_utf8(vstd::utf8::encode_utf8(body)),
        vstd::utf8::decode_utf8(vstd::utf8::encode_utf8(body)) == body,
{
    vstd::utf8::encode_utf8_valid_utf8(body);
    vstd::utf8::encode_utf8_decode_utf8(body);
}

} // verus!
