//! Field values of the line protocol, and their conversion from the values
//! that a data document holds.

use vstd::prelude::*;

use super::replacer::{escape, lemma_escape_plain, string_specials, LineEscapers};
use crate::text::{decimal, format_decimal, lemma_decimal_parse, parse_decimal};

verus! {

/// A value of a data document, as far as the line protocol cares.
///
/// A double is carried as its shortest round-trip decimal text (the float
/// itself is rendered where the document is read), every type that the
/// line protocol cannot hold is `Unsupported`.
#[derive(Debug, Clone, PartialEq, Eq)]
pub enum BsonValue {
    Double(String),
    String(String),
    Boolean(bool),
    Int32(i32),
    Int64(i64),
    Unsupported,
}

/// A field value of the line protocol.
///
/// `Float` holds the decimal text of the float, as rendered by the
/// shortest round-trip formatter.
#[derive(Debug, Clone, PartialEq, Eq)]
pub enum FieldValue {
    Float(String),
    Integer(i64),
    UInteger(u64),
    String(String),
    Boolean(bool),
}

/// The field value that a document value becomes, if it has one.
pub open spec fn spec_field_value(value: BsonValue) -> Option<FieldValue> {
    match value {
        BsonValue::Double(text) => Some(FieldValue::Float(text)),
        BsonValue::String(s) => Some(FieldValue::String(s)),
        BsonValue::Boolean(b) => Some(FieldValue::Boolean(b)),
        BsonValue::Int32(i) => Some(FieldValue::Integer(i as i64)),
        BsonValue::Int64(i) => Some(FieldValue::Integer(i)),
        BsonValue::Unsupported => None,
    }
}

/// The line protocol text of a field value: floats as they are rendered,
/// integers with an `i` suffix, unsigned integers with a `u` suffix, strings
/// between double quotes with their quotes and backslashes escaped, booleans
/// as `true` or `false`.
pub open spec fn field_value_text(value: FieldValue) -> Seq<char> {
    match value {
        FieldValue::Float(text) => text@,
        FieldValue::Integer(i) => decimal(i as int) + "i"@,
        FieldValue::UInteger(u) => decimal(u as int) + "u"@,
        FieldValue::String(s) => "\""@ + escape(s@, string_specials()) + "\""@,
        FieldValue::Boolean(b) => if b {
            "true"@
        } else {
            "false"@
        },
    }
}

impl FieldValue {
    /// Converts a document value; the types that the line protocol cannot
    /// hold are refused.
    pub fn try_from(value: BsonValue) -> (res: Result<FieldValue, &'static str>)
        ensures
            spec_field_value(value) matches Some(f) ==> res == Ok::<FieldValue, &'static str>(f),
            spec_field_value(value) is None ==> (res matches Err(msg) && msg@
                == "unsupported BSON type"@),
            value matches BsonValue::Int32(i) ==> (res matches Ok(FieldValue::Integer(j)) && j as int
                == i as int),
            value matches BsonValue::Int64(i) ==> (res matches Ok(FieldValue::Integer(j)) && j as int
                == i as int),
            value matches BsonValue::Double(t) ==> (res matches Ok(FieldValue::Float(u)) && u@ == t@),
            value matches BsonValue::String(t) ==> (res matches Ok(FieldValue::String(u)) && u@ == t@),
            value matches BsonValue::Boolean(b) ==> res == Ok::<FieldValue, &'static str>(
                FieldValue::Boolean(b),
            ),
            value is Unsupported ==> res is Err,
    {
        match value {
            BsonValue::Double(text) => Ok(FieldValue::Float(text)),
            BsonValue::String(s) => Ok(FieldValue::String(s)),
            BsonValue::Boolean(b) => Ok(FieldValue::Boolean(b)),
            BsonValue::Int32(i) => Ok(FieldValue::Integer(i as i64)),
            BsonValue::Int64(i) => Ok(FieldValue::Integer(i)),
            BsonValue::Unsupported => Err("unsupported BSON type"),
        }
    }

    /// The line protocol text of this value.
    pub fn line_protocol_text(&self, escapers: &LineEscapers) -> (res: String)
        requires
            escapers.wf(),
        ensures
            res@ == field_value_text(*self),
    {
        match self {
            FieldValue::Float(text) => text.clone(),
            FieldValue::Integer(i) => {
                let digits = format_decimal(*i as i128);
                digits.concat("i")
            },
            FieldValue::UInteger(u) => {
                let digits = format_decimal(*u as i128);
                digits.concat("u")
            },
            FieldValue::String(s) => {
                let escaped = escapers.escape_string_value(s.as_str());
                let mut res = String::from_str("\"");
                res.append(escaped.as_str());
                res.append("\"");
                res
            },
            FieldValue::Boolean(b) => {
                if *b {
                    String::from_str("true")
                } else {
                    String::from_str("false")
                }
            },
        }
    }

    /// The line protocol text of this value (what the value displays as).
    pub fn to_line_protocol(&self) -> (res: String)
        ensures
            res@ == field_value_text(*self),
    {
        let escapers = LineEscapers::new();
        self.line_protocol_text(&escapers)
    }
}

/// The text of an integer field is its decimal digits and an `i`: dropping
/// the suffix and reading the decimal gives the integer back.
pub proof fn lemma_integer_text_reads_back(i: i64)
    ensures
        field_value_text(FieldValue::Integer(i)).last() == 'i',
        parse_decimal(field_value_text(FieldValue::Integer(i)).drop_last()) == i,
{
    reveal_strlit("i");
    let t = field_value_text(FieldValue::Integer(i));
    assert(t.drop_last() =~= decimal(i as int));
    lemma_decimal_parse(i as int);
}

/// The text of an unsigned integer field is its decimal digits and a `u`:
/// dropping the suffix and reading the decimal gives the integer back.
pub proof fn lemma_uinteger_text_reads_back(u: u64)
    ensures
        field_value_text(FieldValue::UInteger(u)).last() == 'u',
        parse_decimal(field_value_text(FieldValue::UInteger(u)).drop_last()) == u,
{
    reveal_strlit("u");
    let t = field_value_text(FieldValue::UInteger(u));
    assert(t.drop_last() =~= decimal(u as int));
    lemma_decimal_parse(u as int);
}

/// Conversion keeps each value: a double's text, a string, a boolean, and
/// a 32- or 64-bit integer as the integer of the same value (negative ones
/// included); only the unsupported types are refused.
pub proof fn lemma_conversion_keeps_values(value: BsonValue)
    ensures
        (spec_field_value(value) is None) == (value is Unsupported),
        value matches BsonValue::Int32(i) ==> (spec_field_value(value) matches Some(
            FieldValue::Integer(j),
        ) && j as int == i as int),
        value matches BsonValue::Int64(i) ==> (spec_field_value(value) matches Some(
            FieldValue::Integer(j),
        ) && j as int == i as int),
        value matches BsonValue::Double(t) ==> (spec_field_value(value) matches Some(
            FieldValue::Float(u),
        ) && u@ == t@),
        value matches BsonValue::String(t) ==> (spec_field_value(value) matches Some(
            FieldValue::String(u),
        ) && u@ == t@),
        value matches BsonValue::Boolean(b) ==> spec_field_value(value) == Some(
            FieldValue::Boolean(b),
        ),
{
}

/// The text of each kind of field value: a string between double quotes
/// with a backslash put before each of its double quotes and backslashes
/// (and nothing else), an integer's decimal digits followed by `i`, an
/// unsigned integer's followed by `u`, `true` or `false`, a float's text as
/// it is.
pub proof fn lemma_field_value_text_shape(value: FieldValue)
    ensures
        value matches FieldValue::String(s) ==> field_value_text(value) == seq!['"'] + escape(
            s@,
            seq!['"', '\\'],
        ) + seq!['"'],
        value matches FieldValue::Integer(i) ==> field_value_text(value) == decimal(i as int)
            + seq!['i'],
        value matches FieldValue::UInteger(u) ==> field_value_text(value) == decimal(u as int)
            + seq!['u'],
        value matches FieldValue::Boolean(b) ==> field_value_text(value) == (if b {
            seq!['t', 'r', 'u', 'e']
        } else {
            seq!['f', 'a', 'l', 's', 'e']
        }),
        value matches FieldValue::Float(t) ==> field_value_text(value) == t@,
{
    reveal_strlit("\"");
    reveal_strlit("i");
    reveal_strlit("u");
    reveal_strlit("true");
    reveal_strlit("false");
    assert(string_specials() =~= seq!['"', '\\']);
    match value {
        FieldValue::String(s) => {
            assert(field_value_text(value) =~= seq!['"'] + escape(s@, seq!['"', '\\']) + seq!['"']);
        },
        FieldValue::Integer(i) => {
            assert(field_value_text(value) =~= decimal(i as int) + seq!['i']);
        },
        FieldValue::UInteger(u) => {
            assert(field_value_text(value) =~= decimal(u as int) + seq!['u']);
        },
        FieldValue::Boolean(b) => {
            if b {
                assert(field_value_text(value) =~= seq!['t', 'r', 'u', 'e']);
            } else {
                assert(field_value_text(value) =~= seq!['f', 'a', 'l', 's', 'e']);
            }
        },
        FieldValue::Float(t) => {},
    }
}

/// A string without double quotes or backslashes is rendered as itself
/// between double quotes.
pub proof fn lemma_plain_string_text(s: String)
    requires
        !s@.contains('"'),
        !s@.contains('\\'),
    ensures
        field_value_text(FieldValue::String(s)) == seq!['"'] + s@ + seq!['"'],
{
    lemma_field_value_text_shape(FieldValue::String(s));
    assert forall|i: int| 0 <= i < s@.len() implies !seq!['"', '\\'].contains(#[trigger] s@[i]) by {
        if seq!['"', '\\'].contains(s@[i]) {
            let j = choose|j: int| 0 <= j < 2 && seq!['"', '\\'][j] == s@[i];
            if j == 0 {
                assert(s@.contains('"'));
            } else {
                assert(s@.contains('\\'));
            }
        }
    }
    lemma_escape_plain(s@, seq!['"', '\\']);
}

} // verus!
