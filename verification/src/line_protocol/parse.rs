//! Reading a line protocol line back, and the law that a data point's line
//! reads back as the data point.

use vstd::prelude::*;

use super::data_point::{
    field_text, fields_text, line_text, tag_text, tags_text, DataPoint, DataPointView,
};
use super::field_value::{
    field_value_text, lemma_integer_text_reads_back, lemma_uinteger_text_reads_back, FieldValue,
};
use super::replacer::{
    escape, key_specials, lemma_backslashed_replacement, measurement_specials, string_specials,
};
use crate::text::{decimal, is_digit, lemma_decimal_parse, parse_decimal};

verus! {

/// Reads text up to the first unescaped stop character (or the end): a
/// backslash and the character after it stand for that character. Gives
/// the text read and the number of characters consumed.
pub open spec fn read_token(s: Seq<char>, stops: Seq<char>) -> (Seq<char>, nat)
    decreases s.len(),
{
    if s.len() == 0 || stops.contains(s[0]) {
        (seq![], 0)
    } else if s[0] == '\\' && s.len() >= 2 {
        let (rest, n) = read_token(s.subrange(2, s.len() as int), stops);
        (seq![s[1]] + rest, n + 2)
    } else {
        let (rest, n) = read_token(s.drop_first(), stops);
        (seq![s[0]] + rest, n + 1)
    }
}

/// A token never consumes more than the text has.
pub proof fn lemma_read_token_len(s: Seq<char>, stops: Seq<char>)
    ensures
        read_token(s, stops).1 <= s.len(),
    decreases s.len(),
{
    if s.len() == 0 || stops.contains(s[0]) {
    } else if s[0] == '\\' && s.len() >= 2 {
        lemma_read_token_len(s.subrange(2, s.len() as int), stops);
    } else {
        lemma_read_token_len(s.drop_first(), stops);
    }
}

/// Escaped text followed by a stop character (or nothing) reads back as
/// the text, consuming exactly the escaped text; the stops must be special
/// and not the backslash, and a backslash in the text must be special.
pub proof fn lemma_read_escaped(x: Seq<char>, specials: Seq<char>, stops: Seq<char>, rest: Seq<char>)
    requires
        forall|c: char| #[trigger] stops.contains(c) ==> specials.contains(c),
        !stops.contains('\\'),
        specials.contains('\\') || !x.contains('\\'),
        rest.len() == 0 || stops.contains(rest[0]),
    ensures
        read_token(escape(x, specials) + rest, stops) == (x, escape(x, specials).len()),
    decreases x.len(),
{
    let e = escape(x, specials);
    if x.len() == 0 {
        assert(e =~= seq![]);
        assert(e + rest =~= rest);
    } else {
        let x0 = x[0];
        let xr = x.drop_first();
        let er = escape(xr, specials);
        lemma_backslashed_replacement(x0, specials);
        assert(specials.contains('\\') || !xr.contains('\\')) by {
            if !specials.contains('\\') && xr.contains('\\') {
                let j = choose|j: int| 0 <= j < xr.len() && xr[j] == '\\';
                assert(x[j + 1] == '\\');
            }
        }
        lemma_read_escaped(xr, specials, stops, rest);
        if specials.contains(x0) {
            assert(e =~= seq!['\\', x0] + er);
            let s = e + rest;
            assert(s[0] == '\\');
            assert(s.subrange(2, s.len() as int) =~= er + rest);
        } else {
            assert(e =~= seq![x0] + er);
            let s = e + rest;
            assert(s[0] == x0);
            assert(!stops.contains(x0));
            assert(x0 != '\\') by {
                if x0 == '\\' {
                    assert(x.contains('\\')) by {
                        assert(x[0] == '\\');
                    }
                }
            }
            assert(s.drop_first() =~= er + rest);
        }
        assert(seq![x0] + xr =~= x);
    }
}

/// Text without stop characters and backslashes, followed by a stop (or
/// nothing), reads back as itself.
pub proof fn lemma_read_plain(t: Seq<char>, stops: Seq<char>, rest: Seq<char>)
    requires
        forall|i: int| 0 <= i < t.len() ==> !stops.contains(#[trigger] t[i]) && t[i] != '\\',
        rest.len() == 0 || stops.contains(rest[0]),
    ensures
        read_token(t + rest, stops) == (t, t.len()),
    decreases t.len(),
{
    if t.len() == 0 {
        assert(t + rest =~= rest);
    } else {
        let s = t + rest;
        assert(s[0] == t[0]);
        lemma_read_plain(t.drop_first(), stops, rest);
        assert(s.drop_first() =~= t.drop_first() + rest);
        assert(seq![t[0]] + t.drop_first() =~= t);
    }
}

/// A field value as read back from a line.
pub enum ParsedValue {
    Float(Seq<char>),
    Integer(int),
    UInteger(int),
    Str(Seq<char>),
    Boolean(bool),
}

/// A line as read back.
pub struct ParsedLine {
    pub measurement: Seq<char>,
    pub tags: Seq<(Seq<char>, Seq<char>)>,
    pub fields: Seq<(Seq<char>, ParsedValue)>,
    pub timestamp: int,
}

/// What a field value reads back as.
pub open spec fn value_view(v: FieldValue) -> ParsedValue {
    match v {
        FieldValue::Float(t) => ParsedValue::Float(t@),
        FieldValue::Integer(i) => ParsedValue::Integer(i as int),
        FieldValue::UInteger(u) => ParsedValue::UInteger(u as int),
        FieldValue::String(s) => ParsedValue::Str(s@),
        FieldValue::Boolean(b) => ParsedValue::Boolean(b),
    }
}

/// The kind of an unquoted field value, from its text: `true` and `false`
/// are booleans, an `i` suffix marks an integer, a `u` suffix an unsigned
/// integer, anything else is a float.
pub open spec fn classify(t: Seq<char>) -> ParsedValue {
    if t == "true"@ {
        ParsedValue::Boolean(true)
    } else if t == "false"@ {
        ParsedValue::Boolean(false)
    } else if t.len() > 0 && t.last() == 'i' {
        ParsedValue::Integer(parse_decimal(t.drop_last()))
    } else if t.len() > 0 && t.last() == 'u' {
        ParsedValue::UInteger(parse_decimal(t.drop_last()))
    } else {
        ParsedValue::Float(t)
    }
}

/// Reads a field value: a quoted string, or an unquoted token up to the
/// next comma or space. Gives the value and the text after it.
pub open spec fn parse_value(s: Seq<char>) -> (ParsedValue, Seq<char>) {
    if s.len() > 0 && s[0] == '"' {
        let (content, n) = read_token(s.drop_first(), seq!['"']);
        let r = s.drop_first().skip(n as int);
        if r.len() > 0 && r[0] == '"' {
            (ParsedValue::Str(content), r.drop_first())
        } else {
            (ParsedValue::Str(content), r)
        }
    } else {
        let (t, n) = read_token(s, seq![',', ' ']);
        (classify(t), s.skip(n as int))
    }
}

pub proof fn lemma_parse_value_len(s: Seq<char>)
    ensures
        parse_value(s).1.len() <= s.len(),
{
    if s.len() > 0 && s[0] == '"' {
        lemma_read_token_len(s.drop_first(), seq!['"']);
    } else {
        lemma_read_token_len(s, seq![',', ' ']);
    }
}

/// Reads the tags: each `,key=value`.
pub open spec fn parse_tags(s: Seq<char>) -> (Seq<(Seq<char>, Seq<char>)>, Seq<char>)
    decreases s.len(),
{
    if s.len() > 0 && s[0] == ',' {
        let r0 = s.drop_first();
        let (k, n1) = read_token(r0, key_specials());
        let r1 = r0.skip(n1 as int);
        if r1.len() > 0 && r1[0] == '=' && n1 <= r0.len() {
            let r1b = r1.drop_first();
            let (v, n2) = read_token(r1b, key_specials());
            if n2 <= r1b.len() {
                let r2 = r1b.skip(n2 as int);
                let (more, r3) = parse_tags(r2);
                (seq![(k, v)] + more, r3)
            } else {
                (seq![], s)
            }
        } else {
            (seq![], s)
        }
    } else {
        (seq![], s)
    }
}

/// Reads the fields: `key=value` pairs separated by commas.
pub open spec fn parse_fields(s: Seq<char>) -> (Seq<(Seq<char>, ParsedValue)>, Seq<char>)
    decreases s.len(),
{
    let (k, n1) = read_token(s, key_specials());
    let r1 = s.skip(n1 as int);
    if r1.len() > 0 && r1[0] == '=' && n1 <= s.len() {
        let (v, r2) = parse_value(r1.drop_first());
        if r2.len() > 0 && r2[0] == ',' && r2.len() <= r1.drop_first().len() {
            let (more, r3) = parse_fields(r2.drop_first());
            (seq![(k, v)] + more, r3)
        } else {
            (seq![(k, v)], r2)
        }
    } else {
        (seq![], s)
    }
}

/// Reads a line: the measurement, the tags, a space, the fields, a space
/// and the timestamp.
pub open spec fn parse_line(s: Seq<char>) -> Option<ParsedLine> {
    let (measurement, n) = read_token(s, measurement_specials());
    let (tags, r1) = parse_tags(s.skip(n as int));
    if r1.len() > 0 && r1[0] == ' ' {
        let (fields, r2) = parse_fields(r1.drop_first());
        if r2.len() > 0 && r2[0] == ' ' {
            Some(
                ParsedLine {
                    measurement,
                    tags,
                    fields,
                    timestamp: parse_decimal(r2.drop_first()),
                },
            )
        } else {
            None
        }
    } else {
        None
    }
}

/// A float text that reads back as a float: no comma, space or backslash,
/// not starting with a double quote, not ending with `i` or `u`, and not a
/// boolean.
pub open spec fn plain_float_text(t: Seq<char>) -> bool {
    &&& forall|i: int| 0 <= i < t.len() ==> #[trigger] t[i] != ',' && t[i] != ' ' && t[i] != '\\'
    &&& t.len() > 0 ==> t[0] != '"' && t.last() != 'i' && t.last() != 'u'
    &&& t != "true"@
    &&& t != "false"@
}

/// A field value whose text reads back: any value but a float whose text
/// is not plain.
pub open spec fn readable_value(v: FieldValue) -> bool {
    match v {
        FieldValue::Float(t) => plain_float_text(t@),
        _ => true,
    }
}

/// Decimal text holds only digits and a leading minus sign.
proof fn lemma_decimal_plain(i: int)
    ensures
        forall|j: int|
            0 <= j < decimal(i).len() ==> #[trigger] decimal(i)[j] != ',' && decimal(i)[j] != ' '
                && decimal(i)[j] != '\\' && decimal(i)[j] != '"',
        decimal(i).len() > 0,
{
    lemma_decimal_parse(i);
    let d = decimal(i);
    assert forall|j: int| 0 <= j < d.len() implies #[trigger] d[j] != ',' && d[j] != ' ' && d[j]
        != '\\' && d[j] != '"' by {
        if d[0] == '-' {
            if j > 0 {
                assert(d[j] == d.drop_first()[j - 1]);
                assert(is_digit(d.drop_first()[j - 1]));
            }
        } else {
            assert(is_digit(d[j]));
        }
    }
}

/// A value's text, followed by a comma, a space or nothing, reads back as
/// the value.
pub proof fn lemma_parse_value(v: FieldValue, rest: Seq<char>)
    requires
        readable_value(v),
        rest.len() == 0 || rest[0] == ',' || rest[0] == ' ',
    ensures
        parse_value(field_value_text(v) + rest) == (value_view(v), rest),
{
    reveal_strlit("\"");
    reveal_strlit("true");
    reveal_strlit("false");
    reveal_strlit("i");
    reveal_strlit("u");
    let t = field_value_text(v);
    let s = t + rest;
    let stops = seq![',', ' '];
    assert(stops.contains(',') && stops.contains(' '));
    match v {
        FieldValue::String(x) => {
            let e = escape(x@, string_specials());
            assert(t =~= seq!['"'] + e + seq!['"']);
            assert(s[0] == '"');
            let after = seq!['"'] + rest;
            assert(s.drop_first() =~= e + after);
            assert(seq!['"'].contains('"'));
            assert(string_specials().contains('\\') && string_specials().contains('"'));
            assert forall|c: char| #[trigger] seq!['"'].contains(c) implies string_specials().contains(c) by {
                assert(seq!['"'][0] == '"');
            }
            lemma_read_escaped(x@, string_specials(), seq!['"'], after);
            assert(s.drop_first().skip(e.len() as int) =~= after);
            assert(after.drop_first() =~= rest);
        },
        FieldValue::Integer(i) => {
            lemma_integer_text_reads_back(i);
            lemma_decimal_plain(i as int);
            assert(t =~= decimal(i as int) + "i"@);
            assert forall|j: int| 0 <= j < t.len() implies !stops.contains(#[trigger] t[j]) && t[j]
                != '\\' by {
                if j < decimal(i as int).len() {
                    assert(t[j] == decimal(i as int)[j]);
                } else {
                    assert(t[j] == 'i');
                }
            }
            assert(t[0] == decimal(i as int)[0]);
            lemma_read_plain(t, stops, rest);
            assert(s.skip(t.len() as int) =~= rest);
            assert(t.last() == 'i');
            assert(t != "true"@ && t != "false"@);
        },
        FieldValue::UInteger(u) => {
            lemma_uinteger_text_reads_back(u);
            lemma_decimal_plain(u as int);
            assert(t =~= decimal(u as int) + "u"@);
            assert forall|j: int| 0 <= j < t.len() implies !stops.contains(#[trigger] t[j]) && t[j]
                != '\\' by {
                if j < decimal(u as int).len() {
                    assert(t[j] == decimal(u as int)[j]);
                } else {
                    assert(t[j] == 'u');
                }
            }
            assert(t[0] == decimal(u as int)[0]);
            lemma_read_plain(t, stops, rest);
            assert(s.skip(t.len() as int) =~= rest);
            assert(t.last() == 'u');
            assert(t != "true"@ && t != "false"@);
        },
        FieldValue::Boolean(b) => {
            assert forall|j: int| 0 <= j < t.len() implies !stops.contains(#[trigger] t[j]) && t[j]
                != '\\' by {}
            lemma_read_plain(t, stops, rest);
            assert(s.skip(t.len() as int) =~= rest);
        },
        FieldValue::Float(x) => {
            assert forall|j: int| 0 <= j < t.len() implies !stops.contains(#[trigger] t[j]) && t[j]
                != '\\' by {}
            if t.len() > 0 {
                assert(s[0] == t[0]);
            } else {
                assert(s =~= rest);
            }
            lemma_read_plain(t, stops, rest);
            assert(s.skip(t.len() as int) =~= rest);
        },
    }
}

/// The tags' text, read from the front.
proof fn lemma_tags_text_front(tags: Seq<(Seq<char>, String)>)
    requires
        tags.len() > 0,
    ensures
        tags_text(tags) == tag_text(tags[0]) + tags_text(tags.drop_first()),
    decreases tags.len(),
{
    if tags.len() == 1 {
        assert(tags.drop_last() =~= Seq::<(Seq<char>, String)>::empty());
        assert(tags.drop_first() =~= Seq::<(Seq<char>, String)>::empty());
        assert(tags_text(tags) =~= tag_text(tags[0]) + tags_text(tags.drop_first()));
    } else {
        lemma_tags_text_front(tags.drop_last());
        assert(tags.drop_last().drop_first() =~= tags.drop_first().drop_last());
        assert(tags.drop_last()[0] == tags[0]);
        assert(tags.drop_first().last() == tags.last());
        assert(tags_text(tags) =~= tag_text(tags[0]) + tags_text(tags.drop_first()));
    }
}

/// The fields' text, read from the front.
proof fn lemma_fields_text_front(fields: Seq<(Seq<char>, FieldValue)>)
    requires
        fields.len() > 1,
    ensures
        fields_text(fields) == field_text(fields[0]) + ","@ + fields_text(fields.drop_first()),
    decreases fields.len(),
{
    if fields.len() == 2 {
        assert(fields.drop_last() =~= seq![fields[0]]);
        assert(fields.drop_first() =~= seq![fields[1]]);
        assert(fields_text(fields.drop_last()) == field_text(fields[0]));
    } else {
        lemma_fields_text_front(fields.drop_last());
        assert(fields.drop_last().drop_first() =~= fields.drop_first().drop_last());
        assert(fields.drop_last()[0] == fields[0]);
        assert(fields.drop_first().last() == fields.last());
        assert(fields_text(fields) =~= field_text(fields[0]) + ","@ + fields_text(
            fields.drop_first(),
        ));
    }
}

/// The tags as they read back.
pub open spec fn tag_views(tags: Seq<(Seq<char>, String)>) -> Seq<(Seq<char>, Seq<char>)> {
    tags.map_values(|t: (Seq<char>, String)| (t.0, t.1@))
}

/// The fields as they read back.
pub open spec fn field_views(fields: Seq<(Seq<char>, FieldValue)>) -> Seq<(Seq<char>, ParsedValue)> {
    fields.map_values(|f: (Seq<char>, FieldValue)| (f.0, value_view(f.1)))
}

/// One tag's text, then more text that starts with a key special (or is
/// empty): the tag reads back and reading goes on with the rest.
proof fn lemma_parse_tags_step(k: Seq<char>, v: Seq<char>, after: Seq<char>)
    requires
        !k.contains('\\'),
        !v.contains('\\'),
        after.len() == 0 || key_specials().contains(after[0]),
    ensures
        parse_tags(","@ + escape(k, key_specials()) + "="@ + escape(v, key_specials()) + after) == (
        seq![(k, v)] + parse_tags(after).0, parse_tags(after).1),
{
    reveal_strlit(",");
    reveal_strlit("=");
    let ek = escape(k, key_specials());
    let ev = escape(v, key_specials());
    let s = ","@ + ek + "="@ + ev + after;
    assert(key_specials().contains(',') && key_specials().contains('=') && key_specials().contains(
        ' ',
    ));
    assert(!key_specials().contains('\\'));
    assert(s[0] == ',');
    let r0 = s.drop_first();
    assert(r0 =~= ek + (seq!['='] + ev + after));
    lemma_read_escaped(k, key_specials(), key_specials(), seq!['='] + ev + after);
    let r1 = r0.skip(ek.len() as int);
    assert(r1 =~= seq!['='] + ev + after);
    let r1b = r1.drop_first();
    assert(r1b =~= ev + after);
    lemma_read_escaped(v, key_specials(), key_specials(), after);
    assert(r1b.skip(ev.len() as int) =~= after);
}

/// Tags without backslashes, followed by a space or nothing, read back.
pub proof fn lemma_parse_tags(tags: Seq<(Seq<char>, String)>, rest: Seq<char>)
    requires
        forall|i: int|
            0 <= i < tags.len() ==> !(#[trigger] tags[i]).0.contains('\\') && !tags[i].1@.contains(
                '\\',
            ),
        rest.len() == 0 || rest[0] == ' ',
    ensures
        parse_tags(tags_text(tags) + rest) == (tag_views(tags), rest),
    decreases tags.len(),
{
    if tags.len() == 0 {
        assert(tags_text(tags) + rest =~= rest);
        assert(tag_views(tags) =~= Seq::<(Seq<char>, Seq<char>)>::empty());
    } else {
        lemma_tags_text_front(tags);
        let tail = tags.drop_first();
        assert forall|i: int|
            0 <= i < tail.len() implies !(#[trigger] tail[i]).0.contains('\\') && !tail[i].1@.contains(
            '\\',
        ) by {
            assert(tail[i] == tags[i + 1]);
        }
        lemma_parse_tags(tail, rest);
        let k = tags[0].0;
        let v = tags[0].1@;
        let after = tags_text(tail) + rest;
        assert(after.len() == 0 || key_specials().contains(after[0])) by {
            reveal_strlit(",");
            if tail.len() > 0 {
                lemma_tags_text_front(tail);
                assert(after[0] == ',');
            } else {
                assert(after =~= rest);
            }
        }
        lemma_parse_tags_step(k, v, after);
        assert(tags_text(tags) + rest =~= ","@ + escape(k, key_specials()) + "="@ + escape(
            v,
            key_specials(),
        ) + after);
        assert(tag_views(tags) =~= seq![(k, v)] + tag_views(tail));
    }
}

/// One field's text, then more text that starts with a comma or a space (or
/// is empty): the field reads back, and after a comma reading goes on.
proof fn lemma_parse_fields_step(k: Seq<char>, v: FieldValue, after: Seq<char>)
    requires
        !k.contains('\\'),
        readable_value(v),
        after.len() == 0 || after[0] == ',' || after[0] == ' ',
    ensures
        parse_fields(escape(k, key_specials()) + "="@ + field_value_text(v) + after) == (if after.len()
            > 0 && after[0] == ',' {
            (
                seq![(k, value_view(v))] + parse_fields(after.drop_first()).0,
                parse_fields(after.drop_first()).1,
            )
        } else {
            (seq![(k, value_view(v))], after)
        }),
{
    reveal_strlit("=");
    let ek = escape(k, key_specials());
    let vt = field_value_text(v);
    let s = ek + "="@ + vt + after;
    assert(key_specials().contains(',') && key_specials().contains('=') && key_specials().contains(
        ' ',
    ));
    assert(!key_specials().contains('\\'));
    assert(s =~= ek + (seq!['='] + vt + after));
    lemma_read_escaped(k, key_specials(), key_specials(), seq!['='] + vt + after);
    let r1 = s.skip(ek.len() as int);
    assert(r1 =~= seq!['='] + vt + after);
    assert(r1.drop_first() =~= vt + after);
    lemma_parse_value(v, after);
}

/// Readable fields without backslashes in their keys, at least one,
/// followed by a space or nothing, read back.
pub proof fn lemma_parse_fields(fields: Seq<(Seq<char>, FieldValue)>, rest: Seq<char>)
    requires
        fields.len() > 0,
        forall|i: int|
            0 <= i < fields.len() ==> !(#[trigger] fields[i]).0.contains('\\') && readable_value(
                fields[i].1,
            ),
        rest.len() == 0 || rest[0] == ' ',
    ensures
        parse_fields(fields_text(fields) + rest) == (field_views(fields), rest),
    decreases fields.len(),
{
    reveal_strlit(",");
    let k = fields[0].0;
    let v = fields[0].1;
    assert(!k.contains('\\') && readable_value(v)) by {
        assert(fields[0] == fields[0]);
    }
    if fields.len() == 1 {
        lemma_parse_fields_step(k, v, rest);
        assert(fields_text(fields) + rest =~= escape(k, key_specials()) + "="@ + field_value_text(v)
            + rest);
        assert(field_views(fields) =~= seq![(k, value_view(v))]);
    } else {
        lemma_fields_text_front(fields);
        let tail = fields.drop_first();
        assert forall|i: int|
            0 <= i < tail.len() implies !(#[trigger] tail[i]).0.contains('\\') && readable_value(
            tail[i].1,
        ) by {
            assert(tail[i] == fields[i + 1]);
        }
        lemma_parse_fields(tail, rest);
        let after = ","@ + fields_text(tail) + rest;
        assert(after[0] == ',');
        assert(after.drop_first() =~= fields_text(tail) + rest);
        lemma_parse_fields_step(k, v, after);
        assert(fields_text(fields) + rest =~= escape(k, key_specials()) + "="@ + field_value_text(v)
            + after);
        assert(field_views(fields) =~= seq![(k, value_view(v))] + field_views(tail));
    }
}

/// A data point whose line reads back: no backslash in the measurement,
/// the tag keys and values or the field keys, floats rendered plainly, and
/// at least one field.
pub open spec fn readable_point(p: DataPointView) -> bool {
    &&& !p.measurement.contains('\\')
    &&& forall|i: int|
        0 <= i < p.tags.len() ==> !(#[trigger] p.tags[i]).0.contains('\\') && !p.tags[i].1@.contains(
            '\\',
        )
    &&& forall|i: int|
        0 <= i < p.fields.len() ==> !(#[trigger] p.fields[i]).0.contains('\\') && readable_value(
            p.fields[i].1,
        )
    &&& p.fields.len() > 0
}

/// What a data point's line reads back as.
pub open spec fn parsed_point(p: DataPointView) -> ParsedLine {
    ParsedLine {
        measurement: p.measurement,
        tags: tag_views(p.tags),
        fields: field_views(p.fields),
        timestamp: p.timestamp as int,
    }
}

/// Reading a data point's line gives back its measurement, its tags, its
/// fields (integers, unsigned integers, floats, strings and booleans kept
/// apart) and its timestamp.
#[verifier::rlimit(50)]
pub proof fn lemma_line_reads_back(p: DataPointView)
    requires
        readable_point(p),
    ensures
        parse_line(line_text(p)) == Some(parsed_point(p)),
{
    reveal_strlit(" ");
    reveal_strlit(",");
    let em = escape(p.measurement, measurement_specials());
    let d = decimal(p.timestamp as int);
    let r3 = " "@ + d;
    let r2 = " "@ + fields_text(p.fields) + r3;
    let r1 = tags_text(p.tags) + r2;
    assert(line_text(p) =~= em + r1);
    assert(r1.len() > 0 && (r1[0] == ',' || r1[0] == ' ')) by {
        if p.tags.len() > 0 {
            lemma_tags_text_front(p.tags);
        } else {
            assert(r1 =~= r2);
        }
    }
    assert(measurement_specials().contains(',') && measurement_specials().contains(' '));
    assert(!measurement_specials().contains('\\'));
    lemma_read_escaped(p.measurement, measurement_specials(), measurement_specials(), r1);
    assert((em + r1).skip(em.len() as int) =~= r1);
    lemma_parse_tags(p.tags, r2);
    assert(r2.drop_first() =~= fields_text(p.fields) + r3);
    lemma_parse_fields(p.fields, r3);
    assert(r3.drop_first() =~= d);
    lemma_decimal_parse(p.timestamp as int);
}

/// Two readable data points with the same line have the same contents.
pub proof fn lemma_line_injective(p: DataPointView, q: DataPointView)
    requires
        readable_point(p),
        readable_point(q),
        line_text(p) == line_text(q),
    ensures
        parsed_point(p) == parsed_point(q),
{
    lemma_line_reads_back(p);
    lemma_line_reads_back(q);
}

} // verus!
