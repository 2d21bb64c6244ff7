//! The error that scanning and parsing report.
use crate::text::{decimal, nth_line, nth_line_of, push_decimal, push_repeat, repeat};
use vstd::prelude::*;
use vstd::string::{StrSliceExecFns, StringExecFns};

verus! {

/// What went wrong while reading a `.synq` source.
#[derive(Debug)]
pub enum ParseError {
    /// An input that the grammar does not expect, with the zero-based line
    /// and column at which it was found.
    Unexpected { typ: String, line: usize, col: usize },
}

/// The mathematical value of a [`ParseError`].
pub enum ParseErrorView {
    Unexpected { typ: Seq<char>, line: usize, col: usize },
}

impl View for ParseError {
    type V = ParseErrorView;

    open spec fn view(&self) -> ParseErrorView {
        match self {
            ParseError::Unexpected { typ, line, col } => ParseErrorView::Unexpected {
                typ: typ@,
                line: *line,
                col: *col,
            },
        }
    }
}

/// The text of an error: `Unexpected input: {typ} at line {line}:{col}`.
pub open spec fn message_text(e: ParseErrorView) -> Seq<char> {
    match e {
        ParseErrorView::Unexpected { typ, line, col } => "Unexpected input: "@ + typ + " at line "@
            + decimal(line as nat) + ":"@ + decimal(col as nat),
    }
}

/// The report of an error against its source: a header with the input and
/// its place, the source line it is on, and a row of `^` under it as wide as
/// the input (at least one).
pub open spec fn report_text(e: ParseErrorView, source: Seq<char>) -> Seq<char> {
    match e {
        ParseErrorView::Unexpected { typ, line, col } => "error: unexpected input '"@ + typ
            + "'\n --> "@ + decimal(line as nat) + ":"@ + decimal(col as nat) + "\n  |\n"@
            + decimal(line as nat) + " | "@ + nth_line(source, line as nat) + "\n  | "@ + repeat(
            " "@,
            col as nat,
        ) + repeat(
            "^"@,
            if typ.len() > 1 {
                typ.len()
            } else {
                1
            },
        ),
    }
}

impl ParseError {
    /// The error's message (what its `Display` shows).
    pub fn to_string(&self) -> (res: String)
        ensures
            res@ == message_text(self@),
    {
        match self {
            ParseError::Unexpected { typ, line, col } => {
                let mut out = String::new();
                out.append("Unexpected input: ");
                out.append(typ.as_str());
                out.append(" at line ");
                push_decimal(&mut out, *line);
                out.append(":");
                push_decimal(&mut out, *col);
                assert(out@ =~= message_text(self@));
                out
            },
        }
    }

    /// The error shown against `source`, the text it was found in.
    pub fn pretty_print(&self, source: &str) -> (res: String)
        ensures
            res@ == report_text(self@, source@),
    {
        match self {
            ParseError::Unexpected { typ, line, col } => {
                let line_str = nth_line_of(source, *line);
                let width = typ.as_str().unicode_len();
                let width = if width > 1 {
                    width
                } else {
                    1
                };
                let mut out = String::new();
                out.append("error: unexpected input '");
                out.append(typ.as_str());
                out.append("'\n --> ");
                push_decimal(&mut out, *line);
                out.append(":");
                push_decimal(&mut out, *col);
                out.append("\n  |\n");
                push_decimal(&mut out, *line);
                out.append(" | ");
                out.append(line_str);
                out.append("\n  | ");
                push_repeat(&mut out, " ", *col);
                push_repeat(&mut out, "^", width);
                assert(out@ =~= report_text(self@, source@));
                out
            },
        }
    }
}

} // verus!
