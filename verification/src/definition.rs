//! The province definition: one record of the definition file.

use vstd::prelude::*;
use vstd::string::*;
use crate::ascii::str_eq;
use crate::decimal::{decimal, is_digit, lemma_decimal_digits, push_decimal};
use crate::error::{DecodeError, LineError, ParseError};
use crate::field::{
    bool_str, bool_text, decode_bool, decode_bool_spec, decode_string, decode_u16,
    decode_u16_spec, decode_u32, decode_u32_spec, decode_u8, decode_u8_spec,
    lemma_bool_text_decodes, lemma_decimal_decodes,
};
use crate::kind::{lemma_label_decodes, DefinitionKind};
use crate::record::{
    decode_line, field_at, parse, parse_text, positioned, token, token_at, views, ParseCsv,
    DELIMITER,
};
use crate::text::{
    all_free_of, contains_char, free_of, join, lemma_join_push, lemma_split_join, lines_of,
    push_char, split,
};
use crate::unicode::{lowercase, to_lowercase};

verus! {

/// The line that every definition file begins with. It has the shape of a
/// data line, but it is compared as text and never decoded.
pub const HEADER_LINE: &'static str = "0;0;0;0;land;false;unknown;0";

/// The number of fields on a data line.
pub const FIELD_COUNT: usize = 8;

/// One province of the map. Two definitions are equal when all their fields
/// are.
#[derive(Debug, Eq)]
pub struct Definition {
    /// Province number; in practice well under 100,000.
    pub id: u32,
    /// The colour that stands for the province on the province bitmap: red,
    /// green, blue.
    pub rgb: [u8; 3],
    /// What the province is.
    pub kind: DefinitionKind,
    /// Whether the province lies on a coast.
    pub coastal: bool,
    /// The terrain label, kept in lowercase; labels beyond the usual ones
    /// are allowed.
    pub terrain: String,
    /// The number of the continent.
    pub continent: u16,
}

/// A definition as a mathematical value.
pub struct DefinitionView {
    pub id: u32,
    pub red: u8,
    pub green: u8,
    pub blue: u8,
    pub kind: DefinitionKind,
    pub coastal: bool,
    pub terrain: Seq<char>,
    pub continent: u16,
}

impl View for Definition {
    type V = DefinitionView;

    open spec fn view(&self) -> DefinitionView {
        DefinitionView {
            id: self.id,
            red: self.rgb[0],
            green: self.rgb[1],
            blue: self.rgb[2],
            kind: self.kind,
            coastal: self.coastal,
            terrain: self.terrain@,
            continent: self.continent,
        }
    }
}

impl Clone for Definition {
    fn clone(&self) -> (copy: Definition)
        ensures
            copy == *self,
    {
        Definition {
            id: self.id,
            rgb: self.rgb,
            kind: self.kind,
            coastal: self.coastal,
            terrain: self.terrain.clone(),
            continent: self.continent,
        }
    }
}

impl PartialEq for Definition {
    fn eq(&self, other: &Definition) -> (r: bool) {
        self.id == other.id && self.rgb[0] == other.rgb[0] && self.rgb[1] == other.rgb[1]
            && self.rgb[2] == other.rgb[2] && self.kind.ordinal() == other.kind.ordinal()
            && self.coastal == other.coastal && str_eq(
            self.terrain.as_str(),
            other.terrain.as_str(),
        ) && self.continent == other.continent
    }
}

impl vstd::std_specs::cmp::PartialEqSpecImpl for Definition {
    open spec fn obeys_eq_spec() -> bool {
        true
    }

    open spec fn eq_spec(&self, other: &Definition) -> bool {
        self@ == other@
    }
}

impl DefinitionView {
    /// The terrain is the lowercase form of some label: the state in which
    /// every decoded record is.
    pub open spec fn wf(self) -> bool {
        exists|label: Seq<char>| self.terrain == lowercase(label)
    }

    /// The record is written and read back unchanged: its terrain holds no
    /// delimiter and is its own lowercase form.
    pub open spec fn is_canonical(self) -> bool {
        free_of(self.terrain, DELIMITER) && lowercase(self.terrain) == self.terrain
    }

    /// The texts of the fields, in the order in which they are written.
    pub open spec fn fields(self) -> Seq<Seq<char>> {
        seq![
            decimal(self.id as nat),
            decimal(self.red as nat),
            decimal(self.green as nat),
            decimal(self.blue as nat),
            self.kind.label(),
            bool_text(self.coastal),
            self.terrain,
            decimal(self.continent as nat),
        ]
    }

    /// The line under which the record is written:
    /// `id;r;g;b;kind;coastal;terrain;continent`.
    pub open spec fn line(self) -> Seq<char> {
        join(self.fields(), DELIMITER)
    }
}

/// What the fields of a data line decode to. The fields are decoded by
/// position, from the left; the first that fails decides the error, a
/// missing field fails at its own position, and a ninth field fails after
/// the eight have decoded. The terrain is lowercased.
pub open spec fn decode_definition(fields: Seq<Seq<char>>) -> Result<DefinitionView, LineError> {
    let id = field_at(fields, 1, |t: Seq<char>| decode_u32_spec(t));
    let red = field_at(fields, 2, |t: Seq<char>| decode_u8_spec(t));
    let green = field_at(fields, 3, |t: Seq<char>| decode_u8_spec(t));
    let blue = field_at(fields, 4, |t: Seq<char>| decode_u8_spec(t));
    let kind = field_at(fields, 5, |t: Seq<char>| DefinitionKind::decode(t));
    let coastal = field_at(fields, 6, |t: Seq<char>| decode_bool_spec(t));
    let terrain = token_at(fields, 7);
    let continent = field_at(fields, 8, |t: Seq<char>| decode_u16_spec(t));
    if id is Err {
        Err(id->Err_0)
    } else if red is Err {
        Err(red->Err_0)
    } else if green is Err {
        Err(green->Err_0)
    } else if blue is Err {
        Err(blue->Err_0)
    } else if kind is Err {
        Err(kind->Err_0)
    } else if coastal is Err {
        Err(coastal->Err_0)
    } else if terrain is Err {
        Err(terrain->Err_0)
    } else if continent is Err {
        Err(continent->Err_0)
    } else if fields.len() > FIELD_COUNT {
        Err(LineError { field: (FIELD_COUNT + 1) as usize, kind: DecodeError::FieldDecodeError })
    } else {
        Ok(
            DefinitionView {
                id: id->Ok_0,
                red: red->Ok_0,
                green: green->Ok_0,
                blue: blue->Ok_0,
                kind: kind->Ok_0,
                coastal: coastal->Ok_0,
                terrain: lowercase(terrain->Ok_0),
                continent: continent->Ok_0,
            },
        )
    }
}

impl ParseCsv for Definition {
    open spec fn header() -> Option<Seq<char>> {
        Some(HEADER_LINE@)
    }

    open spec fn footer() -> Option<Seq<char>> {
        None
    }

    open spec fn decode(fields: Seq<Seq<char>>) -> Result<DefinitionView, LineError> {
        decode_definition(fields)
    }

    fn header_line() -> (line: Option<&'static str>) {
        Some(HEADER_LINE)
    }

    fn footer_line() -> (line: Option<&'static str>) {
        None
    }

    fn parse_line(fields: &Vec<String>) -> (r: Result<Definition, LineError>)
        ensures
            r matches Ok(record) ==> record@.wf(),
    {
        let id = positioned(decode_u32(token(fields, 1)?), 1)?;
        let red = positioned(decode_u8(token(fields, 2)?), 2)?;
        let green = positioned(decode_u8(token(fields, 3)?), 3)?;
        let blue = positioned(decode_u8(token(fields, 4)?), 4)?;
        let kind = positioned(DefinitionKind::from_str(token(fields, 5)?), 5)?;
        let coastal = positioned(decode_bool(token(fields, 6)?), 6)?;
        let terrain = decode_string(token(fields, 7)?);
        let continent = positioned(decode_u16(token(fields, 8)?), 8)?;
        if fields.len() > FIELD_COUNT {
            return Err(LineError { field: FIELD_COUNT + 1, kind: DecodeError::FieldDecodeError });
        }
        Ok(
            Definition {
                id,
                rgb: [red, green, blue],
                kind,
                coastal,
                terrain: to_lowercase(terrain.as_str()),
                continent,
            },
        )
    }
}

/// The text of a number holds no delimiter.
proof fn lemma_decimal_has_no_delimiter(n: nat)
    ensures
        free_of(decimal(n), DELIMITER),
{
    lemma_decimal_digits(n);
    assert forall|i: int| 0 <= i < decimal(n).len() implies decimal(n)[i] != DELIMITER by {
        assert(is_digit(decimal(n)[i]));
    }
}

/// A record is read back from its own line: the line splits into the texts
/// of the eight fields, and these decode to the record. This needs the
/// terrain to hold no delimiter and to be its own lowercase form; with
/// `a;b` or `Hills` as terrain another record comes back.
pub proof fn lemma_round_trip(d: DefinitionView)
    requires
        d.is_canonical(),
    ensures
        split(d.line(), DELIMITER) == d.fields(),
        decode_line::<Definition>(d.line()) == Ok::<DefinitionView, LineError>(d),
        decode_line::<Definition>(d.line())->Ok_0.line() == d.line(),
{
    let fields = d.fields();
    assert(all_free_of(fields, DELIMITER)) by {
        lemma_decimal_has_no_delimiter(d.id as nat);
        lemma_decimal_has_no_delimiter(d.red as nat);
        lemma_decimal_has_no_delimiter(d.green as nat);
        lemma_decimal_has_no_delimiter(d.blue as nat);
        lemma_decimal_has_no_delimiter(d.continent as nat);
        assert(free_of(d.kind.label(), DELIMITER));
        assert(free_of(bool_text(d.coastal), DELIMITER));
    }
    lemma_split_join(fields, DELIMITER);
    lemma_decimal_decodes(d.id as nat);
    lemma_decimal_decodes(d.red as nat);
    lemma_decimal_decodes(d.green as nat);
    lemma_decimal_decodes(d.blue as nat);
    lemma_decimal_decodes(d.continent as nat);
    lemma_label_decodes(d.kind);
    lemma_bool_text_decodes(d.coastal);
}

/// A definition file whose first line is anything but the header is
/// rejected for that reason, even if every line behind it is a valid record.
pub proof fn lemma_definition_header_enforced(lines: Seq<Seq<char>>)
    requires
        lines.len() == 0 || lines[0] != HEADER_LINE@,
    ensures
        parse::<Definition>(lines) == Err::<Seq<DefinitionView>, ParseError>(
            ParseError::HeaderMismatch,
        ),
{
}

/// Reads a definition file, given as one text.
pub fn parse_definitions(text: &str) -> (r: Result<Vec<Definition>, ParseError>)
    ensures
        r matches Ok(records) ==> parse::<Definition>(lines_of(text@)) == Ok::<
            Seq<DefinitionView>,
            ParseError,
        >(views(records@)),
        r matches Err(e) ==> parse::<Definition>(lines_of(text@)) == Err::<
            Seq<DefinitionView>,
            ParseError,
        >(e),
{
    parse_text::<Definition>(text)
}

impl Definition {
    /// Whether the record is written and read back unchanged.
    pub fn is_canonical(&self) -> (r: bool)
        ensures
            r == self@.is_canonical(),
            r ==> decode_line::<Definition>(self@.line()) == Ok::<DefinitionView, LineError>(
                self@,
            ),
    {
        if contains_char(self.terrain.as_str(), DELIMITER) {
            return false;
        }
        let lowered = to_lowercase(self.terrain.as_str());
        let same = str_eq(lowered.as_str(), self.terrain.as_str());
        proof {
            if same {
                lemma_round_trip(self@);
            }
        }
        same
    }

    /// Writes the record as its line of text.
    pub fn to_string(&self) -> (line: String)
        ensures
            line@ == self@.line(),
    {
        let mut out = String::new();
        push_decimal(&mut out, self.id);
        push_number(&mut out, self.rgb[0] as u32);
        push_number(&mut out, self.rgb[1] as u32);
        push_number(&mut out, self.rgb[2] as u32);
        push_text(&mut out, self.kind.to_str());
        push_text(&mut out, bool_str(self.coastal));
        push_text(&mut out, self.terrain.as_str());
        push_number(&mut out, self.continent as u32);
        proof {
            lemma_line_in_steps(self@);
            assert(out@ =~= self@.line());
        }
        out
    }
}

/// Writes a delimiter and the text of `n` behind what `out` holds.
fn push_number(out: &mut String, n: u32)
    ensures
        final(out)@ == old(out)@.push(DELIMITER) + decimal(n as nat),
{
    push_char(out, DELIMITER);
    push_decimal(out, n);
}

/// Writes a delimiter and `text` behind what `out` holds.
fn push_text(out: &mut String, text: &str)
    ensures
        final(out)@ == old(out)@.push(DELIMITER) + text@,
{
    push_char(out, DELIMITER);
    out.append(text);
}

/// The line of a record is its first field followed, for each further
/// field, by a delimiter and that field.
proof fn lemma_line_in_steps(d: DefinitionView)
    ensures
        d.line() == (((((((d.fields()[0].push(DELIMITER) + d.fields()[1]).push(DELIMITER)
            + d.fields()[2]).push(DELIMITER) + d.fields()[3]).push(DELIMITER)
            + d.fields()[4]).push(DELIMITER) + d.fields()[5]).push(DELIMITER)
            + d.fields()[6]).push(DELIMITER) + d.fields()[7]),
{
    let all = d.fields();
    let one = seq![all[0]];
    let two = one.push(all[1]);
    let three = two.push(all[2]);
    let four = three.push(all[3]);
    let five = four.push(all[4]);
    let six = five.push(all[5]);
    let seven = six.push(all[6]);
    lemma_join_push(one, all[1], DELIMITER);
    lemma_join_push(two, all[2], DELIMITER);
    lemma_join_push(three, all[3], DELIMITER);
    lemma_join_push(four, all[4], DELIMITER);
    lemma_join_push(five, all[5], DELIMITER);
    lemma_join_push(six, all[6], DELIMITER);
    lemma_join_push(seven, all[7], DELIMITER);
    assert(seven.push(all[7]) =~= all);
}

} // verus!
