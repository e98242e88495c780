//! Finding the score table in a result document.
use crate::error::ParseError;
use crate::race::{
    outcome_view, race_from_rows, race_of_rows, rows_view, ParseFault, Race, RaceView, ScoreRow,
    ScoreRowView,
};
use crate::row::opt_text;
use select::document::Document;
use select::node::Node;
use select::predicate::{Attr, Name, Predicate};
use vstd::prelude::*;
use vstd::string::StringSliceAdditionalSpecFns;

verus! {

/// A header cell as the markup holds it: the text node that opens it, if
/// it opens with one, and all the text within it.
pub struct RawHead {
    pub first: Option<String>,
    pub text: String,
}

/// A table row as the markup holds it: its header cells and, for each data
/// cell, the text node that opens it.
pub struct RawRow {
    pub heads: Vec<RawHead>,
    pub cells: Vec<Option<String>>,
}

pub struct RawRowView {
    pub heads: Seq<(Option<Seq<char>>, Seq<char>)>,
    pub cells: Seq<Option<Seq<char>>>,
}

impl View for RawRow {
    type V = RawRowView;

    open spec fn view(&self) -> RawRowView {
        RawRowView {
            heads: self.heads@.map_values(|h: RawHead| (opt_text(h.first), h.text@)),
            cells: self.cells@.map_values(|c: Option<String>| opt_text(c)),
        }
    }
}

pub open spec fn raw_rows_view(rows: Seq<RawRow>) -> Seq<RawRowView> {
    rows.map_values(|r: RawRow| r@)
}

/// The rows, in document order, of the first table of the HTML document
/// whose `id` attribute is `id`; none where there is no such table.
pub uninterp spec fn table_rows_of(document: Seq<char>, id: Seq<char>) -> Option<Seq<RawRowView>>;

/// A character of Unicode's White_Space property.
pub open spec fn is_white_space(c: char) -> bool {
    ('\u{9}' <= c && c <= '\u{d}') || c == ' ' || c == '\u{85}' || c == '\u{a0}' || c
        == '\u{1680}' || ('\u{2000}' <= c && c <= '\u{200a}') || c == '\u{2028}' || c
        == '\u{2029}' || c == '\u{202f}' || c == '\u{205f}' || c == '\u{3000}'
}

/// `s` without its leading white space.
pub open spec fn trim_start_of(s: Seq<char>) -> Seq<char>
    decreases s.len(),
{
    if s.len() > 0 && is_white_space(s[0]) {
        trim_start_of(s.drop_first())
    } else {
        s
    }
}

/// `s` without its trailing white space.
pub open spec fn trim_end_of(s: Seq<char>) -> Seq<char>
    decreases s.len(),
{
    if s.len() > 0 && is_white_space(s.last()) {
        trim_end_of(s.drop_last())
    } else {
        s
    }
}

/// `s` without its leading and trailing white space.
pub open spec fn trimmed(s: Seq<char>) -> Seq<char> {
    trim_end_of(trim_start_of(s))
}

/// The longest document, in bytes, that the HTML parser is given. Its
/// buffers hold at most `u32::MAX` bytes; the margin covers character
/// references, which may expand a little as they are decoded.
pub const MAX_DOCUMENT_BYTES: usize = 0x8000_0000;

/// The most start tags that the HTML parser is given. Every element of the
/// parsed tree comes from a start tag, apart from a few implied ones per
/// tag, and the tree is built and walked recursively, one stack frame per
/// level of nesting: this bounds the depth of that recursion.
pub const MAX_START_TAGS: usize = 750;

pub open spec fn is_ascii_letter(c: u8) -> bool {
    (0x41 <= c && c <= 0x5a) || (0x61 <= c && c <= 0x7a)
}

/// Whether a start tag opens at byte `i`: a `<` followed by an ASCII letter.
/// In UTF-8 these bytes only ever stand for those characters.
pub open spec fn start_tag_at(b: Seq<u8>, i: int) -> bool {
    b[i] == 0x3c && i + 1 < b.len() && is_ascii_letter(b[i + 1])
}

/// The number of start tags that open among the first `k` bytes of `b`.
pub open spec fn start_tags(b: Seq<u8>, k: int) -> nat
    decreases k,
{
    if k <= 0 {
        0
    } else {
        start_tags(b, k - 1) + if start_tag_at(b, k - 1) {
            1nat
        } else {
            0nat
        }
    }
}

/// Whether a document, as UTF-8 bytes, is within what the HTML parser takes.
pub open spec fn within_parser_limits(bytes: Seq<u8>) -> bool {
    bytes.len() <= MAX_DOCUMENT_BYTES && start_tags(bytes, bytes.len() as int) <= MAX_START_TAGS
}

/// Whether a document is within what the HTML parser takes: at most
/// `MAX_DOCUMENT_BYTES` bytes and `MAX_START_TAGS` start tags.
pub fn parser_limits_hold(text: &str) -> (r: bool)
    ensures
        r == within_parser_limits(text.spec_bytes()),
{
    let b = text.as_bytes();
    if b.len() > MAX_DOCUMENT_BYTES {
        return false;
    }
    let mut n: usize = 0;
    let mut i: usize = 0;
    while i < b.len()
        invariant
            i <= b@.len(),
            b@ == text.spec_bytes(),
            n == start_tags(b@, i as int),
            n <= i,
        decreases b@.len() - i,
    {
        if b[i] == 0x3c && i + 1 < b.len() {
            let c = b[i + 1];
            if (0x41 <= c && c <= 0x5a) || (0x61 <= c && c <= 0x7a) {
                n = n + 1;
            }
        }
        i = i + 1;
    }
    n <= MAX_START_TAGS
}

/// Relies on select's `Document::from`, `find` and the node accessors
/// `first_child`, `as_text` and `text`: the HTML document is parsed, and the
/// rows (`tr`) of its first `table` with the given `id` are handed out, each
/// with its `th` and `td` descendants in document order. The parser panics
/// on a text of more than `u32::MAX` bytes, and select copies and walks the
/// element tree recursively, so nesting deep enough exhausts the stack; the
/// bounds on length and start tags keep the input short of both. Nested
/// twice as deep as the bound admits, the tree still fits in a 2 MiB stack.
#[verifier::external_body]
fn table_rows(document: &str, id: &str) -> (r: Option<Vec<RawRow>>)
    requires
        within_parser_limits(document.spec_bytes()),
    ensures
        match table_rows_of(document@, id@) {
            Some(rows) => r is Some && raw_rows_view(r->0@) == rows,
            None => r is None,
        },
{
    let doc = Document::from(document);
    let table = doc.find(Name("table").and(Attr("id", id))).next()?;
    let opening = |n: Node| n.first_child().and_then(|c| c.as_text()).map(String::from);
    Some(table.find(Name("tr")).map(|tr| RawRow {
        heads: tr.find(Name("th")).map(|th| RawHead { first: opening(th), text: th.text() }).collect(),
        cells: tr.find(Name("td")).map(opening).collect(),
    }).collect())
}

/// Relies on `str::trim`: the text without leading and trailing white space,
/// white space being the characters of Unicode's White_Space property.
#[verifier::external_body]
fn trim(s: &str) -> (r: &str)
    ensures
        r@ == trimmed(s@),
{
    s.trim()
}

/// A row of the table with its texts trimmed: the heading is the opening
/// text of the first header cell.
pub open spec fn score_row_of(raw: RawRowView) -> ScoreRowView {
    ScoreRowView {
        heading: if raw.heads.len() > 0 && raw.heads[0].0 is Some {
            Some(trimmed(raw.heads[0].0->0))
        } else {
            None
        },
        columns: raw.heads.map_values(|h: (Option<Seq<char>>, Seq<char>)| trimmed(h.1)),
        cells: raw.cells.map_values(
            |c: Option<Seq<char>>|
                match c {
                    Some(t) => trimmed(t),
                    None => Seq::empty(),
                },
        ),
    }
}

/// A row of the table with its texts trimmed.
pub fn score_row(raw: &RawRow) -> (r: ScoreRow)
    ensures
        r@ == score_row_of(raw@),
{
    let heading = if raw.heads.len() > 0 {
        match &raw.heads[0].first {
            Some(t) => Some(trim(t.as_str()).to_owned()),
            None => None,
        }
    } else {
        None
    };
    let mut columns: Vec<String> = Vec::new();
    let mut i: usize = 0;
    while i < raw.heads.len()
        invariant
            i <= raw.heads@.len(),
            columns@.len() == i,
            forall|j: int| 0 <= j < i ==> (#[trigger] columns@[j])@ == trimmed(raw.heads@[j].text@),
        decreases raw.heads@.len() - i,
    {
        columns.push(trim(raw.heads[i].text.as_str()).to_owned());
        i = i + 1;
    }
    let mut cells: Vec<String> = Vec::new();
    let mut i: usize = 0;
    while i < raw.cells.len()
        invariant
            i <= raw.cells@.len(),
            cells@.len() == i,
            forall|j: int|
                0 <= j < i ==> (#[trigger] cells@[j])@ == match raw.cells@[j] {
                    Some(t) => trimmed(t@),
                    None => Seq::empty(),
                },
        decreases raw.cells@.len() - i,
    {
        let c = match &raw.cells[i] {
            Some(t) => trim(t.as_str()).to_owned(),
            None => String::new(),
        };
        cells.push(c);
        i = i + 1;
    }
    let r = ScoreRow { heading, columns, cells };
    proof {
        assert(r@.columns =~= score_row_of(raw@).columns);
        assert(r@.cells =~= score_row_of(raw@).cells);
    }
    r
}

/// The trimmed rows of the document's score table, if it has one.
pub open spec fn score_rows_of(document: Seq<char>) -> Option<Seq<ScoreRowView>> {
    match table_rows_of(document, "scoreTable"@) {
        Some(rows) => Some(rows.map_values(|r: RawRowView| score_row_of(r))),
        None => None,
    }
}

/// Reads the rows of a score table as the markup holds them: trims the
/// texts, takes the opening text of each row's first header cell as its
/// heading, then reads the race from the rows.
pub fn race_from_raw_rows(raw: &Vec<RawRow>) -> (r: Result<Race, ParseError>)
    ensures
        outcome_view(r) == race_of_rows(raw_rows_view(raw@).map_values(|x: RawRowView| score_row_of(x))),
{
    let mut rows: Vec<ScoreRow> = Vec::new();
    let mut i: usize = 0;
    while i < raw.len()
        invariant
            i <= raw@.len(),
            rows@.len() == i,
            forall|j: int| 0 <= j < i ==> (#[trigger] rows@[j])@ == score_row_of(raw@[j]@),
        decreases raw@.len() - i,
    {
        rows.push(score_row(&raw[i]));
        i = i + 1;
    }
    proof {
        assert(rows_view(rows@) =~= raw_rows_view(raw@).map_values(|x: RawRowView| score_row_of(x)));
    }
    race_from_rows(&rows)
}

/// What a result document parses to: a document beyond the parser's limits
/// is refused, one without a score table has none, and otherwise the race
/// is read from the table's rows.
pub open spec fn parsed(text: &str) -> Result<RaceView, ParseFault> {
    if !within_parser_limits(text.spec_bytes()) {
        Err(ParseFault::DocumentTooLarge)
    } else {
        match score_rows_of(text@) {
            Some(rows) => race_of_rows(rows),
            None => Err(ParseFault::TableNotFound),
        }
    }
}

/// Parses a race result document: finds its score table, then reads the
/// track, the mode, the columns and one entry per body row. A document
/// beyond the HTML parser's limits is refused before it is parsed.
pub fn parse_race(text: &str) -> (r: Result<Race, ParseError>)
    ensures
        outcome_view(r) == parsed(text),
{
    if !parser_limits_hold(text) {
        return Err(ParseError::DocumentTooLarge);
    }
    match table_rows(text, "scoreTable") {
        Some(raw) => race_from_raw_rows(&raw),
        None => Err(ParseError::TableNotFound),
    }
}

} // verus!
