//! The per-file transformation: strip comments, parse the remaining text as
//! JSON, and render the value again with a configurable indentation unit.
//!
//! Parsing and rendering are done by serde_json.  What the library states
//! about them is held in three named results: whether a text parses
//! (`json_accepts`), the diagnostic of a failed parse (`json_error_of`), and
//! the rendered form of a parsed text (`pretty_json_of`).  All three depend
//! on the text (and the indent unit) alone.

use vstd::prelude::*;
use crate::stripper::push_char;
use crate::stripper::remove_jsonc_comments;
use crate::stripper::strip_spec;

verus! {

/// Whether `serde_json::from_str::<Value>` accepts the text `s`.
pub uninterp spec fn json_accepts(s: Seq<char>) -> bool;

/// The diagnostic that `serde_json::from_str::<Value>` reports for a text it
/// does not accept.
pub uninterp spec fn json_error_of(s: Seq<char>) -> Seq<char>;

/// The pretty-printed form of the JSON value denoted by the accepted text
/// `s`, rendered with `indent_unit` as the indentation unit.
pub uninterp spec fn pretty_json_of(s: Seq<char>, indent_unit: Seq<char>) -> Seq<char>;

/// Relies on `serde_json::from_str::<Value>` and on serde_json's
/// `Serializer` with `PrettyFormatter`: whether a text parses, and the
/// diagnostic that its error displays, depend on the text alone; rendering
/// the parsed value into an in-memory buffer cannot fail and yields valid
/// UTF-8, and since parsing is deterministic the rendering depends only on
/// the text and the indent unit.
#[verifier::external_body]
fn parse_and_render(s: &str, indent_unit: &str) -> (r: Result<String, String>)
    ensures
        r is Ok <==> json_accepts(s@),
        (r matches Ok(out) ==> out@ == pretty_json_of(s@, indent_unit@)),
        (r matches Err(m) ==> m@ == json_error_of(s@)),
{
    let value: serde_json::Value = match serde_json::from_str(s) {
        Ok(v) => v,
        Err(e) => {
            return Err(e.to_string());
        },
    };
    let fmt = serde_json::ser::PrettyFormatter::with_indent(indent_unit.as_bytes());
    let mut out: Vec<u8> = Vec::new();
    let mut ser = serde_json::Serializer::with_formatter(&mut out, fmt);
    serde::Serialize::serialize(&value, &mut ser).unwrap();
    Ok(String::from_utf8(out).unwrap())
}

/// A sequence of `n` space characters.
pub open spec fn spaces(n: nat) -> Seq<char> {
    Seq::new(n, |i: int| ' ')
}

/// A string of `n` space characters, used as the indentation unit.
fn make_indent(n: u32) -> (r: String)
    ensures
        r@ == spaces(n as nat),
{
    let mut r = String::new();
    let mut i: u32 = 0;
    proof {
        assert(r@ =~= spaces(0));
    }
    while i < n
        invariant
            i <= n,
            r@ == spaces(i as nat),
        decreases n - i,
    {
        push_char(&mut r, ' ');
        i = i + 1;
        proof {
            assert(r@ =~= spaces(i as nat));
        }
    }
    r
}

/// Why a file's text could not be prettified.
#[derive(Debug)]
pub struct ParseFailure {
    /// The parser's diagnostic for the stripped text.
    pub message: String,
    /// The stripped text that failed to parse.
    pub stripped: String,
}

/// Strips comments from `input`, parses what remains as JSON, and renders
/// the value again with `indent` spaces per indentation level.  Succeeds
/// exactly when the stripped text is valid JSON; on failure it hands back
/// the parser's diagnostic together with the stripped text.
pub fn prettify_text(input: &str, indent: u32) -> (r: Result<String, ParseFailure>)
    ensures
        r is Ok <==> json_accepts(strip_spec(input@)),
        (r matches Ok(out) ==> out@ == pretty_json_of(strip_spec(input@), spaces(indent as nat))),
        (r matches Err(f) ==> f.stripped@ == strip_spec(input@) && f.message@ == json_error_of(
            strip_spec(input@),
        )),
{
    let stripped = remove_jsonc_comments(input);
    let unit = make_indent(indent);
    match parse_and_render(stripped.as_str(), unit.as_str()) {
        Ok(out) => Ok(out),
        Err(message) => Err(ParseFailure { message, stripped }),
    }
}

/// Whether two string slices hold the same characters.
fn str_eq_chars(a: &str, b: &str) -> (r: bool)
    ensures
        r == (a@ == b@),
{
    let na = a.unicode_len();
    let nb = b.unicode_len();
    if na != nb {
        return false;
    }
    let mut i: usize = 0;
    while i < na
        invariant
            na == a@.len(),
            nb == b@.len(),
            na == nb,
            i <= na,
            forall|k: int| 0 <= k < i ==> a@[k] == b@[k],
        decreases na - i,
    {
        let ca = a.get_char(i);
        let cb = b.get_char(i);
        if ca != cb {
            return false;
        }
        i = i + 1;
    }
    proof {
        assert(a@ =~= b@);
    }
    true
}

/// Whether `ext` is one of the two file extensions the pipeline rewrites,
/// matched exactly and case-sensitively.
pub fn is_json_extension(ext: &str) -> (r: bool)
    ensures
        r == (ext@ == "json"@ || ext@ == "jsonc"@),
{
    str_eq_chars(ext, "json") || str_eq_chars(ext, "jsonc")
}

} // verus!
