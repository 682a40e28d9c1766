//! Syntax trees: what the parser makes of a source text, and what the rest of
//! the crate reads from single nodes. A tree is an ESTree document with the
//! TypeScript extensions; a node is an object with a `type` field.

use oxc_allocator::Allocator;
use oxc_parser::Parser;
use oxc_span::SourceType;
use vstd::prelude::*;
use vstd::string::*;

use crate::json::{nested_document, read_nested, Json, JsonView};
use crate::model::{Observed, ObservedView};
use crate::number::{write_out, written_out};
use crate::source::{line_at, text_of_span, Source};
use crate::surrogate::{replace_surrogates, without_surrogates};
use crate::text::{parsed_decimal, read_decimal, same_text};

verus! {

// ---------------------------------------------------------------------------
// Parsing
// ---------------------------------------------------------------------------

/// What the parser makes of a source text, in TypeScript or, if `tsx`, in
/// TypeScript with JSX: the number of its diagnostics, and the ESTree document
/// of the program with UTF-8 byte offsets.
pub uninterp spec fn parser_output(source: Seq<char>, tsx: bool) -> (nat, Seq<char>);

/// `oxc_parser::Parser::parse` for `SourceType::ts`, with JSX if asked for,
/// then `Program::to_estree_json` with the TypeScript fields: the number of
/// diagnostics and the text of the document. What the parser reports and
/// builds is left to its name.
#[verifier::external_body]
fn parse_estree(source: &str, tsx: bool) -> (r: (usize, String))
    ensures
        (r.0 as nat, r.1@) == parser_output(source@, tsx),
{
    let allocator = Allocator::default();
    let source_type = SourceType::ts().with_jsx(tsx);
    let ret = Parser::new(&allocator, source, source_type).parse();
    (ret.diagnostics.len(), ret.program.to_estree_json(true, false))
}

/// The tree of a source text, and the number of errors in it.
pub struct Parsed {
    pub program: Json,
    pub errors: usize,
}

/// The tree in a parser's output, with its surrogates replaced; an unreadable
/// one counts as one more error and leaves nothing.
pub open spec fn tree_in(output: (nat, Seq<char>)) -> (JsonView, nat) {
    match nested_document(without_surrogates(output.1)) {
        Some(tree) => (tree, output.0),
        None => (
            JsonView::Null,
            if output.0 < usize::MAX {
                output.0 + 1
            } else {
                output.0
            },
        ),
    }
}

/// Reads a parser's output.
pub fn read_output(errors: usize, text: &str) -> (r: Parsed)
    ensures
        (r.program@, r.errors as nat) == tree_in((errors as nat, text@)),
{
    let mended: Option<String> = replace_surrogates(text);
    let tree: Option<Json> = match &mended {
        Some(s) => read_nested(s.as_str()),
        None => read_nested(text),
    };
    match tree {
        Some(program) => Parsed { program, errors },
        None => Parsed {
            program: Json::Null,
            errors: if errors < usize::MAX {
                errors + 1
            } else {
                errors
            },
        },
    }
}

/// Parses a source text.
pub fn parse(source: &str, tsx: bool) -> (r: Parsed)
    ensures
        (r.program@, r.errors as nat) == tree_in(parser_output(source@, tsx)),
{
    let (errors, text) = parse_estree(source, tsx);
    read_output(errors, text.as_str())
}

// ---------------------------------------------------------------------------
// Nodes
// ---------------------------------------------------------------------------

impl JsonView {
    /// Whether the node is of the given kind.
    pub open spec fn is_kind(self, kind: Seq<char>) -> bool {
        self.get("type"@).text() == kind
    }

    /// The `name` of an identifier.
    pub open spec fn name(self) -> Seq<char> {
        self.get("name"@).text()
    }

    /// A number field that holds a byte offset.
    pub open spec fn offset(self, field: Seq<char>) -> nat {
        match self.get(field) {
            JsonView::Number(text) => match parsed_decimal(text, u32::MAX as nat) {
                Some(n) => n,
                None => 0,
            },
            _ => 0,
        }
    }

    /// The line on which the node starts.
    pub open spec fn start_line(self, src: Seq<char>) -> u32 {
        line_at(src, self.offset("start"@))
    }

    /// The line on which the node ends.
    pub open spec fn end_line(self, src: Seq<char>) -> u32 {
        line_at(src, self.offset("end"@))
    }

    /// The source text of the node.
    pub open spec fn source_text(self, src: Seq<char>) -> Seq<char> {
        text_of_span(src, self.offset("start"@), self.offset("end"@))
    }
}

impl Json {
    pub fn is_kind(&self, kind: &str) -> (r: bool)
        ensures
            r == self@.is_kind(kind@),
    {
        same_text(self.get("type").text(), kind)
    }

    pub fn name(&self) -> (r: String)
        ensures
            r@ == self@.name(),
    {
        self.get("name").text().to_owned()
    }

    pub fn named(&self, name: &str) -> (r: bool)
        ensures
            r == (self@.name() == name@),
    {
        same_text(self.get("name").text(), name)
    }

    fn offset(&self, field: &str) -> (r: u32)
        ensures
            r == self@.offset(field@),
    {
        match self.get(field) {
            Json::Number(text) => match read_decimal(text.as_str(), u32::MAX as u64) {
                Some(n) => n as u32,
                None => 0,
            },
            _ => 0,
        }
    }

    pub fn start_line(&self, src: &Source) -> (r: u32)
        requires
            src.well_formed(),
        ensures
            r == self@.start_line(src@),
    {
        src.line_of(self.offset("start"))
    }

    pub fn end_line(&self, src: &Source) -> (r: u32)
        requires
            src.well_formed(),
        ensures
            r == self@.end_line(src@),
    {
        src.line_of(self.offset("end"))
    }

    pub fn source_text(&self, src: &Source) -> (r: String)
        requires
            src.well_formed(),
        ensures
            r@ == self@.source_text(src@),
    {
        src.span_text(self.offset("start"), self.offset("end"))
    }
}

// ---------------------------------------------------------------------------
// Literals and names
// ---------------------------------------------------------------------------

/// The value of a string, number, boolean or null literal.
pub open spec fn literal_value(n: JsonView) -> Option<ObservedView> {
    if n.is_kind("Literal"@) {
        match n.get("value"@) {
            JsonView::Str(s) => Some(ObservedView::StrLit(s)),
            JsonView::Number(v) => Some(ObservedView::NumLit(written_out(v))),
            JsonView::Bool(b) => Some(ObservedView::BoolLit(b)),
            JsonView::Null => if n.get("bigint"@) is Null && n.get("regex"@) is Null {
                Some(ObservedView::Null)
            } else {
                None
            },
            _ => None,
        }
    } else {
        None
    }
}

pub open spec fn opt_observed(o: Option<Observed>) -> Option<ObservedView> {
    match o {
        Some(x) => Some(x@),
        None => None,
    }
}

/// Reads a literal.
pub fn simple_literal(n: &Json) -> (r: Option<Observed>)
    ensures
        opt_observed(r) == literal_value(n@),
{
    if !n.is_kind("Literal") {
        return None;
    }
    match n.get("value") {
        Json::Str(s) => Some(Observed::StrLit(s.clone())),
        Json::Number(v) => Some(Observed::NumLit(write_out(v.as_str()))),
        Json::Bool(b) => Some(Observed::BoolLit(*b)),
        Json::Null => {
            if n.get("bigint").is_null() && n.get("regex").is_null() {
                Some(Observed::Null)
            } else {
                None
            }
        },
        _ => None,
    }
}

/// The string that a string literal holds.
pub open spec fn string_value(n: JsonView) -> Option<Seq<char>> {
    match literal_value(n) {
        Some(ObservedView::StrLit(s)) => Some(s),
        _ => None,
    }
}

pub open spec fn opt_text(o: Option<String>) -> Option<Seq<char>> {
    match o {
        Some(x) => Some(x@),
        None => None,
    }
}

pub fn string_literal(n: &Json) -> (r: Option<String>)
    ensures
        opt_text(r) == string_value(n@),
{
    match simple_literal(n) {
        Some(Observed::StrLit(s)) => Some(s),
        _ => None,
    }
}

/// The name that a property, member or signature has through its key, where
/// the key is an identifier or a string literal and not computed.
pub open spec fn key_name(n: JsonView) -> Option<Seq<char>> {
    let key = n.get("key"@);
    if n.get("computed"@).is_true() {
        None
    } else if key.is_kind("Identifier"@) {
        Some(key.name())
    } else {
        string_value(key)
    }
}

pub fn key_of(n: &Json) -> (r: Option<String>)
    ensures
        opt_text(r) == key_name(n@),
{
    let key = n.get("key");
    if n.get("computed").is_true() {
        None
    } else if key.is_kind("Identifier") {
        Some(key.name())
    } else {
        string_literal(key)
    }
}

/// The identifier key of a property, member or signature that is not computed.
pub open spec fn plain_key(n: JsonView) -> Option<Seq<char>> {
    if !n.get("computed"@).is_true() && n.get("key"@).is_kind("Identifier"@) {
        Some(n.get("key"@).name())
    } else {
        None
    }
}

pub fn plain_key_of(n: &Json) -> (r: Option<String>)
    ensures
        opt_text(r) == plain_key(n@),
{
    if !n.get("computed").is_true() && n.get("key").is_kind("Identifier") {
        Some(n.get("key").name())
    } else {
        None
    }
}

/// The name in an import or export specifier: an identifier or a string.
pub open spec fn export_name(n: JsonView) -> Seq<char> {
    if n.is_kind("Identifier"@) {
        n.name()
    } else {
        n.get("value"@).text()
    }
}

pub fn export_name_to_string(n: &Json) -> (r: String)
    ensures
        r@ == export_name(n@),
{
    if n.is_kind("Identifier") {
        n.name()
    } else {
        n.get("value").text().to_owned()
    }
}

} // verus!
