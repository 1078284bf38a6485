//! Reading a whole file of records: an optional fixed first line, one record
//! per data line, an optional fixed last line.

use vstd::prelude::*;
use crate::ascii::str_eq;
use crate::error::{DecodeError, LineError, ParseError};
use crate::text::{lines, lines_of, split, split_on};

verus! {

/// The character that separates the fields of a line.
pub const DELIMITER: char = ';';

/// A record that is written as one line of fields. The type says which
/// first and last line its files must have, and how the fields of one line
/// decode; reading a file is the same for every such type.
pub trait ParseCsv: View + Sized {
    /// The line that every file must begin with, if the format has one.
    spec fn header() -> Option<Seq<char>>;

    /// The line that every file must end with, if the format has one.
    spec fn footer() -> Option<Seq<char>>;

    /// What the fields of one line decode to.
    spec fn decode(fields: Seq<Seq<char>>) -> Result<Self::V, LineError>;

    /// The required first line.
    fn header_line() -> (line: Option<&'static str>)
        ensures
            line matches Some(text) ==> Self::header() == Some(text@),
            line is None ==> Self::header() is None,
    ;

    /// The required last line.
    fn footer_line() -> (line: Option<&'static str>)
        ensures
            line matches Some(text) ==> Self::footer() == Some(text@),
            line is None ==> Self::footer() is None,
    ;

    /// Decodes the fields of one line, by position.
    fn parse_line(fields: &Vec<String>) -> (r: Result<Self, LineError>)
        ensures
            r matches Ok(record) ==> Self::decode(fields.deep_view()) == Ok::<Self::V, LineError>(
                record@,
            ),
            r matches Err(e) ==> Self::decode(fields.deep_view()) == Err::<Self::V, LineError>(e),
    ;
}

/// The token at `position`, counted from 1, or the failure of that position
/// where the line has no such field.
pub open spec fn token_at(fields: Seq<Seq<char>>, position: usize) -> Result<
    Seq<char>,
    LineError,
> {
    if 1 <= position <= fields.len() {
        Ok(fields[position - 1])
    } else {
        Err(LineError { field: position, kind: DecodeError::FieldDecodeError })
    }
}

/// The outcome of decoding a token, with the position added to a failure.
pub open spec fn at_position<A>(outcome: Result<A, DecodeError>, position: usize) -> Result<
    A,
    LineError,
> {
    match outcome {
        Ok(value) => Ok(value),
        Err(kind) => Err(LineError { field: position, kind }),
    }
}

/// What the field at `position` decodes to under `decode`: a line that is
/// too short fails at the first position it lacks.
pub open spec fn field_at<A>(
    fields: Seq<Seq<char>>,
    position: usize,
    decode: spec_fn(Seq<char>) -> Result<A, DecodeError>,
) -> Result<A, LineError> {
    match token_at(fields, position) {
        Ok(token) => at_position(decode(token), position),
        Err(e) => Err(e),
    }
}

/// The token at `position`, counted from 1.
pub fn token<'a>(fields: &'a Vec<String>, position: usize) -> (r: Result<&'a str, LineError>)
    ensures
        r matches Ok(text) ==> token_at(fields.deep_view(), position) == Ok::<
            Seq<char>,
            LineError,
        >(text@),
        r matches Err(e) ==> token_at(fields.deep_view(), position) == Err::<
            Seq<char>,
            LineError,
        >(e),
{
    if 1 <= position && position <= fields.len() {
        Ok(fields[position - 1].as_str())
    } else {
        Err(LineError { field: position, kind: DecodeError::FieldDecodeError })
    }
}

/// Adds the position to the failure of a decoded token.
pub fn positioned<A>(outcome: Result<A, DecodeError>, position: usize) -> (r: Result<A, LineError>)
    ensures
        r == at_position(outcome, position),
{
    match outcome {
        Ok(value) => Ok(value),
        Err(kind) => Err(LineError { field: position, kind }),
    }
}

/// What one line of text decodes to: its fields, then the record.
pub open spec fn decode_line<T: ParseCsv>(line: Seq<char>) -> Result<T::V, LineError> {
    T::decode(split(line, DELIMITER))
}

/// What the lines from `start` up to, not including, `end` decode to: their
/// records in order, or the failure of the first line that does not decode,
/// with that line's number.
pub open spec fn decode_lines<T: ParseCsv>(lines: Seq<Seq<char>>, start: int, end: int) -> Result<
    Seq<T::V>,
    ParseError,
>
    decreases end - start,
{
    if end <= start {
        Ok(Seq::empty())
    } else {
        match decode_lines::<T>(lines, start, end - 1) {
            Err(e) => Err(e),
            Ok(records) => match decode_line::<T>(lines[end - 1]) {
                Ok(record) => Ok(records.push(record)),
                Err(error) => Err(ParseError::Line { line: end as usize, error }),
            },
        }
    }
}

/// The index of the first data line.
pub open spec fn data_start<T: ParseCsv>() -> int {
    if T::header() is Some {
        1
    } else {
        0
    }
}

/// The index behind the last data line.
pub open spec fn data_end<T: ParseCsv>(lines: Seq<Seq<char>>) -> int {
    if T::footer() is Some {
        lines.len() - 1
    } else {
        lines.len() as int
    }
}

/// What a file decodes to. The header, where one is required, is looked at
/// first; then the data lines in order; the footer, where one is required,
/// is the last line and is looked at last. A file is read whole or not at
/// all.
pub open spec fn parse<T: ParseCsv>(lines: Seq<Seq<char>>) -> Result<Seq<T::V>, ParseError> {
    let start = data_start::<T>();
    let end = data_end::<T>(lines);
    if T::header() is Some && (lines.len() == 0 || lines[0] != T::header()->0) {
        Err(ParseError::HeaderMismatch)
    } else if end < start {
        Err(ParseError::FooterMismatch)
    } else {
        match decode_lines::<T>(lines, start, end) {
            Err(e) => Err(e),
            Ok(records) => if T::footer() is Some && lines[end] != T::footer()->0 {
                Err(ParseError::FooterMismatch)
            } else {
                Ok(records)
            },
        }
    }
}

/// The views of a sequence of records.
pub open spec fn views<T: View>(records: Seq<T>) -> Seq<T::V> {
    Seq::new(records.len(), |i: int| records[i]@)
}

/// A file whose first line is not the required header is rejected for that
/// reason, whatever its other lines hold.
pub proof fn lemma_header_enforced<T: ParseCsv>(lines: Seq<Seq<char>>)
    requires
        T::header() is Some,
        lines.len() == 0 || lines[0] != T::header()->0,
    ensures
        parse::<T>(lines) == Err::<Seq<T::V>, ParseError>(ParseError::HeaderMismatch),
{
}

/// The lines decode to records exactly when each of them does, and then
/// record for record.
pub proof fn lemma_all_lines_decode<T: ParseCsv>(lines: Seq<Seq<char>>, start: int, end: int)
    requires
        0 <= start <= end <= lines.len(),
    ensures
        decode_lines::<T>(lines, start, end) is Ok <==> forall|i: int|
            start <= i < end ==> (#[trigger] decode_line::<T>(lines[i])) is Ok,
        decode_lines::<T>(lines, start, end) matches Ok(records) ==> {
            &&& records.len() == end - start
            &&& forall|i: int|
                start <= i < end ==> decode_line::<T>(#[trigger] lines[i]) == Ok::<
                    T::V,
                    LineError,
                >(records[i - start])
        },
    decreases end - start,
{
    if start < end {
        lemma_all_lines_decode::<T>(lines, start, end - 1);
    }
}

/// If line `k` is the first that does not decode, the whole is rejected
/// with the failure of that line under its number: no record is handed out,
/// not even those of the lines before it.
pub proof fn lemma_first_failure<T: ParseCsv>(lines: Seq<Seq<char>>, start: int, end: int, k: int)
    requires
        0 <= start <= k < end <= lines.len(),
        decode_line::<T>(lines[k]) is Err,
        forall|i: int| start <= i < k ==> (#[trigger] decode_line::<T>(lines[i])) is Ok,
    ensures
        decode_lines::<T>(lines, start, end) == Err::<Seq<T::V>, ParseError>(
            ParseError::Line { line: (k + 1) as usize, error: decode_line::<T>(lines[k])->Err_0 },
        ),
    decreases end - k,
{
    if end == k + 1 {
        lemma_all_lines_decode::<T>(lines, start, k);
    } else {
        lemma_first_failure::<T>(lines, start, end - 1, k);
    }
}

/// Reads a file, given as its lines.
pub fn parse_lines<T: ParseCsv>(lines: &Vec<String>) -> (r: Result<Vec<T>, ParseError>)
    ensures
        r matches Ok(records) ==> parse::<T>(lines.deep_view()) == Ok::<Seq<T::V>, ParseError>(
            views(records@),
        ),
        r matches Err(e) ==> parse::<T>(lines.deep_view()) == Err::<Seq<T::V>, ParseError>(e),
{
    let ghost texts = lines.deep_view();
    let mut start: usize = 0;
    match T::header_line() {
        Some(header) => {
            if lines.len() == 0 || !str_eq(lines[0].as_str(), header) {
                return Err(ParseError::HeaderMismatch);
            }
            start = 1;
        },
        None => {},
    }
    let footer = T::footer_line();
    let mut end: usize = lines.len();
    if footer.is_some() {
        if end <= start {
            return Err(ParseError::FooterMismatch);
        }
        end = end - 1;
    }
    let mut records: Vec<T> = Vec::new();
    let mut i: usize = start;
    proof {
        assert(views(records@) =~= Seq::<T::V>::empty());
    }
    while i < end
        invariant
            start <= i <= end <= lines.len(),
            texts == lines.deep_view(),
            start == data_start::<T>(),
            end == data_end::<T>(texts),
            T::header() is Some ==> texts.len() > 0 && texts[0] == T::header()->0,
            footer is Some ==> T::footer() == Some(footer->0@),
            footer is None ==> T::footer() is None,
            decode_lines::<T>(texts, start as int, i as int) == Ok::<Seq<T::V>, ParseError>(
                views(records@),
            ),
        decreases end - i,
    {
        let fields = split_on(lines[i].as_str(), DELIMITER);
        match T::parse_line(&fields) {
            Ok(record) => {
                let ghost before = views(records@);
                records.push(record);
                proof {
                    assert(texts[i as int] == lines[i as int]@);
                    assert(views(records@) =~= before.push(record@));
                }
            },
            Err(error) => {
                proof {
                    assert(texts[i as int] == lines[i as int]@);
                    lemma_all_lines_decode::<T>(texts, start as int, i as int);
                    lemma_first_failure::<T>(texts, start as int, end as int, i as int);
                }
                return Err(ParseError::Line { line: i + 1, error });
            },
        }
        i += 1;
    }
    match footer {
        Some(text) => {
            if !str_eq(lines[end].as_str(), text) {
                return Err(ParseError::FooterMismatch);
            }
        },
        None => {},
    }
    Ok(records)
}

/// Reads a file, given as one text.
pub fn parse_text<T: ParseCsv>(text: &str) -> (r: Result<Vec<T>, ParseError>)
    ensures
        r matches Ok(records) ==> parse::<T>(lines_of(text@)) == Ok::<Seq<T::V>, ParseError>(
            views(records@),
        ),
        r matches Err(e) ==> parse::<T>(lines_of(text@)) == Err::<Seq<T::V>, ParseError>(e),
{
    let all = lines(text);
    parse_lines::<T>(&all)
}

} // verus!
