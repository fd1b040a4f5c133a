//! Data points: a measurement, tags, fields and a timestamp, and their line
//! protocol text.

use vstd::prelude::*;

use super::field_value::{field_value_text, spec_field_value, BsonValue, FieldValue};
use super::replacer::{escape, key_specials, lemma_escape_plain, measurement_specials, LineEscapers};
use crate::mongodb::DataDocument;
use crate::sorted_map::{
    entries_map, entry_views, inserted_entries, lemma_entries_map_dom, lemma_sorted_entries_unique,
    sorted_keys, SortedMap,
};
use crate::text::{decimal, format_decimal};

verus! {

/// What a data point holds: tags and fields in increasing key order.
pub struct DataPointView {
    pub measurement: Seq<char>,
    pub tags: Seq<(Seq<char>, String)>,
    pub fields: Seq<(Seq<char>, FieldValue)>,
    pub timestamp: u64,
}

/// The fields that the values of a document give: each value that has a
/// field value, under its key, a later value replacing an earlier one.
pub open spec fn document_fields(val: Seq<(String, BsonValue)>) -> Map<Seq<char>, FieldValue>
    decreases val.len(),
{
    if val.len() == 0 {
        Map::empty()
    } else {
        let earlier = document_fields(val.drop_last());
        match spec_field_value(val.last().1) {
            Some(f) => earlier.insert(val.last().0@, f),
            None => earlier,
        }
    }
}

/// `,key=value` for each tag, keys and values escaped.
pub open spec fn tags_text(tags: Seq<(Seq<char>, String)>) -> Seq<char>
    decreases tags.len(),
{
    if tags.len() == 0 {
        seq![]
    } else {
        tags_text(tags.drop_last()) + tag_text(tags.last())
    }
}

/// `,key=value` for one tag.
pub open spec fn tag_text(tag: (Seq<char>, String)) -> Seq<char> {
    ","@ + escape(tag.0, key_specials()) + "="@ + escape(tag.1@, key_specials())
}

/// `key=value` for one field, the key escaped.
pub open spec fn field_text(field: (Seq<char>, FieldValue)) -> Seq<char> {
    escape(field.0, key_specials()) + "="@ + field_value_text(field.1)
}

/// The fields' texts, separated by commas.
pub open spec fn fields_text(fields: Seq<(Seq<char>, FieldValue)>) -> Seq<char>
    decreases fields.len(),
{
    if fields.len() == 0 {
        seq![]
    } else if fields.len() == 1 {
        field_text(fields[0])
    } else {
        fields_text(fields.drop_last()) + ","@ + field_text(fields.last())
    }
}

/// The line protocol line of a data point: the escaped measurement, the
/// tags, a space, the fields, a space and the timestamp in decimal.
pub open spec fn line_text(point: DataPointView) -> Seq<char> {
    escape(point.measurement, measurement_specials()) + tags_text(point.tags) + " "@ + fields_text(
        point.fields,
    ) + " "@ + decimal(point.timestamp as int)
}

/// A data point of the line protocol.
pub struct DataPoint {
    measurement: String,
    tags: SortedMap<String>,
    fields: SortedMap<FieldValue>,
    /// Unix timestamp in second precision.
    timestamp: u64,
}

impl View for DataPoint {
    type V = DataPointView;

    open spec fn view(&self) -> DataPointView {
        self.point_view()
    }
}

impl DataPoint {
    pub closed spec fn point_view(&self) -> DataPointView {
        DataPointView {
            measurement: self.measurement@,
            tags: self.tags.entries(),
            fields: self.fields.entries(),
            timestamp: self.timestamp,
        }
    }

    /// Tags and fields are kept in increasing key order.
    pub closed spec fn wf(&self) -> bool {
        &&& self.tags.wf()
        &&& self.fields.wf()
    }

    /// What `wf` says, over the view.
    pub proof fn lemma_wf(&self)
        requires
            self.wf(),
        ensures
            sorted_keys(self@.tags),
            sorted_keys(self@.fields),
    {
    }

    /// A data point of the given measurement and timestamp, whose tags and
    /// fields are the pairs given, a later pair replacing an earlier one with
    /// the same key.
    pub fn new(
        measurement: String,
        tags: Vec<(String, String)>,
        fields: Vec<(String, FieldValue)>,
        timestamp: u64,
    ) -> (res: Self)
        ensures
            res.wf(),
            res@.measurement == measurement@,
            res@.timestamp == timestamp,
            entries_map(res@.tags) == inserted_entries(entry_views(tags@)),
            entries_map(res@.fields) == inserted_entries(entry_views(fields@)),
    {
        DataPoint {
            measurement,
            tags: SortedMap::from_pairs(tags),
            fields: SortedMap::from_pairs(fields),
            timestamp,
        }
    }

    /// The data point of a document: tagged with the document's identifier,
    /// with a field for each value of the document that the line protocol
    /// can hold (the other values are left out).
    pub fn create(data_doc: DataDocument, measurement: String, timestamp: u64) -> (res: Self)
        ensures
            res.wf(),
            res@.measurement == measurement@,
            res@.timestamp == timestamp,
            entries_map(res@.tags) == map!["id"@ => data_doc.id],
            entries_map(res@.fields) == document_fields(data_doc.val@),
    {
        let ghost all = data_doc.val@;
        let mut val = data_doc.val;
        let mut fields: SortedMap<FieldValue> = SortedMap::new();
        assert(entries_map(fields.entries()) =~= Map::<Seq<char>, FieldValue>::empty()) by {
            assert forall|q: Seq<char>| !#[trigger] entries_map(fields.entries()).dom().contains(q) by {
                lemma_entries_map_dom(fields.entries(), q);
            }
        }
        assert(all.take(0) =~= Seq::<(String, BsonValue)>::empty());
        while val.len() > 0
            invariant
                fields.wf(),
                val@.len() <= all.len(),
                val@ == all.skip(all.len() - val@.len()),
                fields.as_map() == document_fields(all.take(all.len() - val@.len())),
            decreases val@.len(),
        {
            let ghost done = all.len() - val@.len();
            let (key, value) = val.remove(0);
            assert(all[done] == (key, value)) by {
                assert(all.skip(done)[0] == all[done]);
            }
            assert(all.take(done + 1).drop_last() =~= all.take(done));
            match FieldValue::try_from(value) {
                Ok(field_value) => {
                    fields.insert(key, field_value);
                },
                Err(_) => {},
            }
            assert(val@ =~= all.skip(done + 1));
        }
        assert(all.take(all.len() as int) =~= all);
        let mut tags: SortedMap<String> = SortedMap::new();
        let id_key = String::from_str("id");
        assert(entries_map(tags.entries()) =~= Map::<Seq<char>, String>::empty()) by {
            assert forall|q: Seq<char>| !#[trigger] entries_map(tags.entries()).dom().contains(q) by {
                lemma_entries_map_dom(tags.entries(), q);
            }
        }
        tags.insert(id_key, data_doc.id);
        assert(entries_map(tags.entries()) =~= map!["id"@ => data_doc.id]);
        DataPoint { measurement, tags, fields, timestamp }
    }

    /// The measurement name.
    pub fn measurement(&self) -> (res: &str)
        ensures
            res@ == self@.measurement,
    {
        self.measurement.as_str()
    }

    /// The timestamp, in seconds since the Unix epoch.
    pub fn timestamp(&self) -> (res: u64)
        ensures
            res == self@.timestamp,
    {
        self.timestamp
    }

    /// The value of the tag `key`, if there is one.
    pub fn tag(&self, key: &str) -> (res: Option<&String>)
        requires
            self.wf(),
        ensures
            res matches Some(v) ==> entries_map(self@.tags).dom().contains(key@) && *v
                == entries_map(self@.tags)[key@],
            res is None ==> !entries_map(self@.tags).dom().contains(key@),
    {
        self.tags.get(key)
    }

    /// The value of the field `key`, if there is one.
    pub fn field(&self, key: &str) -> (res: Option<&FieldValue>)
        requires
            self.wf(),
        ensures
            res matches Some(v) ==> entries_map(self@.fields).dom().contains(key@) && *v
                == entries_map(self@.fields)[key@],
            res is None ==> !entries_map(self@.fields).dom().contains(key@),
    {
        self.fields.get(key)
    }

    /// The line protocol line of this data point.
    pub fn line_protocol_text(&self, escapers: &LineEscapers) -> (res: String)
        requires
            escapers.wf(),
        ensures
            res@ == line_text(self@),
    {
        let ghost point = self@;
        let mut out = escapers.escape_measurement(self.measurement.as_str());
        let ghost head = out@;
        let n = self.tags.len();
        let mut i: usize = 0;
        assert(point.tags.take(0) =~= Seq::<(Seq<char>, String)>::empty());
        while i < n
            invariant
                escapers.wf(),
                point == self@,
                n == point.tags.len(),
                i <= n,
                head == escape(point.measurement, measurement_specials()),
                out@ == head + tags_text(point.tags.take(i as int)),
            decreases n - i,
        {
            let key = escapers.escape_key(self.tags.key_at(i).as_str());
            let value = escapers.escape_key(self.tags.value_at(i).as_str());
            out.append(",");
            out.append(key.as_str());
            out.append("=");
            out.append(value.as_str());
            assert(point.tags.take(i + 1).drop_last() =~= point.tags.take(i as int));
            assert(out@ =~= head + tags_text(point.tags.take(i + 1)));
            i = i + 1;
        }
        assert(point.tags.take(n as int) =~= point.tags);
        out.append(" ");
        let ghost middle = out@;
        let m = self.fields.len();
        let mut j: usize = 0;
        assert(point.fields.take(0) =~= Seq::<(Seq<char>, FieldValue)>::empty());
        while j < m
            invariant
                escapers.wf(),
                point == self@,
                m == point.fields.len(),
                j <= m,
                out@ == middle + fields_text(point.fields.take(j as int)),
            decreases m - j,
        {
            if j > 0 {
                out.append(",");
            }
            let key = escapers.escape_key(self.fields.key_at(j).as_str());
            let value = self.fields.value_at(j).line_protocol_text(escapers);
            out.append(key.as_str());
            out.append("=");
            out.append(value.as_str());
            assert(point.fields.take(j + 1).drop_last() =~= point.fields.take(j as int));
            if j == 0 {
                assert(point.fields.take(1)[0] == point.fields[0]);
            }
            assert(out@ =~= middle + fields_text(point.fields.take(j + 1)));
            j = j + 1;
        }
        assert(point.fields.take(m as int) =~= point.fields);
        out.append(" ");
        let ts = format_decimal(self.timestamp as i128);
        out.append(ts.as_str());
        out
    }

    /// The line protocol line of this data point (what the data point
    /// displays as).
    pub fn to_line_protocol(&self) -> (res: String)
        ensures
            res@ == line_text(self@),
    {
        let escapers = LineEscapers::new();
        self.line_protocol_text(&escapers)
    }
}

/// The line of a data point depends on its contents alone: two data points
/// with the same measurement, tags, fields and timestamp have the same line,
/// whatever the order in which their tags and fields were given.
pub proof fn lemma_line_depends_on_contents(p: DataPoint, q: DataPoint)
    requires
        p.wf(),
        q.wf(),
        p@.measurement == q@.measurement,
        p@.timestamp == q@.timestamp,
        entries_map(p@.tags) == entries_map(q@.tags),
        entries_map(p@.fields) == entries_map(q@.fields),
    ensures
        line_text(p@) == line_text(q@),
{
    p.lemma_wf();
    q.lemma_wf();
    lemma_sorted_entries_unique(p@.tags, q@.tags);
    lemma_sorted_entries_unique(p@.fields, q@.fields);
}

/// A key gets a field exactly when some value under that key can be held
/// by the line protocol.
pub proof fn lemma_document_fields_keys(val: Seq<(String, BsonValue)>, k: Seq<char>)
    ensures
        document_fields(val).dom().contains(k) <==> exists|i: int|
            0 <= i < val.len() && #[trigger] val[i].0@ == k && spec_field_value(val[i].1) is Some,
    decreases val.len(),
{
    if val.len() > 0 {
        let prefix = val.drop_last();
        lemma_document_fields_keys(prefix, k);
        if exists|i: int|
            0 <= i < prefix.len() && #[trigger] prefix[i].0@ == k && spec_field_value(
                prefix[i].1,
            ) is Some {
            let i = choose|i: int|
                0 <= i < prefix.len() && #[trigger] prefix[i].0@ == k && spec_field_value(
                    prefix[i].1,
                ) is Some;
            assert(val[i] == prefix[i]);
        }
        if exists|i: int|
            0 <= i < val.len() && #[trigger] val[i].0@ == k && spec_field_value(val[i].1) is Some {
            let i = choose|i: int|
                0 <= i < val.len() && #[trigger] val[i].0@ == k && spec_field_value(val[i].1) is Some;
            if i < val.len() - 1 {
                assert(prefix[i] == val[i]);
            }
        }
    }
}

/// The field under a key is the value of the last entry with that key that
/// the line protocol can hold; for a document whose keys are distinct, it
/// is simply the value of the entry with that key.
pub proof fn lemma_document_fields_value(val: Seq<(String, BsonValue)>, i: int)
    requires
        0 <= i < val.len(),
        spec_field_value(val[i].1) is Some,
        forall|j: int|
            i < j < val.len() && #[trigger] val[j].0@ == val[i].0@ ==> spec_field_value(
                val[j].1,
            ) is None,
    ensures
        document_fields(val).dom().contains(val[i].0@),
        document_fields(val)[val[i].0@] == spec_field_value(val[i].1)->Some_0,
    decreases val.len(),
{
    let prefix = val.drop_last();
    if i < val.len() - 1 {
        assert forall|j: int|
            i < j < prefix.len() && #[trigger] prefix[j].0@ == prefix[i].0@ implies spec_field_value(
            prefix[j].1,
        ) is None by {
            assert(prefix[j] == val[j]);
        }
        lemma_document_fields_value(prefix, i);
        assert(prefix[i] == val[i]);
    }
}

/// A point's line: its measurement with a backslash before each comma and
/// space, the tags, a space, the fields, a space and the timestamp's
/// decimal digits.
pub proof fn lemma_line_shape(p: DataPointView)
    ensures
        line_text(p) == escape(p.measurement, seq![',', ' ']) + tags_text(p.tags) + seq![' ']
            + fields_text(p.fields) + seq![' '] + decimal(p.timestamp as int),
{
    reveal_strlit(" ");
    assert(measurement_specials() =~= seq![',', ' ']);
    assert(line_text(p) =~= escape(p.measurement, seq![',', ' ']) + tags_text(p.tags) + seq![' ']
        + fields_text(p.fields) + seq![' '] + decimal(p.timestamp as int));
}

/// A measurement without commas and spaces starts the line as it is, and
/// is followed by a comma (the first tag) or a space.
pub proof fn lemma_plain_measurement_starts_line(p: DataPointView)
    requires
        !p.measurement.contains(','),
        !p.measurement.contains(' '),
    ensures
        line_text(p).take(p.measurement.len() as int) == p.measurement,
        line_text(p)[p.measurement.len() as int] == ',' || line_text(p)[p.measurement.len() as int]
            == ' ',
{
    reveal_strlit(",");
    lemma_line_shape(p);
    let m = p.measurement;
    assert forall|i: int| 0 <= i < m.len() implies !seq![',', ' '].contains(#[trigger] m[i]) by {
        if seq![',', ' '].contains(m[i]) {
            let j = choose|j: int| 0 <= j < 2 && seq![',', ' '][j] == m[i];
            if j == 0 {
                assert(m.contains(','));
            } else {
                assert(m.contains(' '));
            }
        }
    }
    lemma_escape_plain(m, seq![',', ' ']);
    let rest = tags_text(p.tags) + seq![' '] + fields_text(p.fields) + seq![' '] + decimal(
        p.timestamp as int,
    );
    assert(line_text(p) =~= m + rest);
    assert(line_text(p).take(m.len() as int) =~= m);
    if p.tags.len() > 0 {
        let t = p.tags;
        assert(tags_text(t) =~= tags_text(t.drop_last()) + tag_text(t.last()));
        if t.drop_last().len() == 0 {
            assert(tags_text(t.drop_last()) =~= seq![]);
        }
        lemma_tags_text_first(t);
        assert(rest[0] == ',');
    } else {
        assert(tags_text(p.tags) =~= seq![]);
        assert(rest[0] == ' ');
    }
}

/// A non-empty tags' text starts with a comma.
proof fn lemma_tags_text_first(tags: Seq<(Seq<char>, String)>)
    requires
        tags.len() > 0,
    ensures
        tags_text(tags).len() > 0,
        tags_text(tags)[0] == ',',
    decreases tags.len(),
{
    reveal_strlit(",");
    if tags.len() > 1 {
        lemma_tags_text_first(tags.drop_last());
    } else {
        assert(tags.drop_last().len() == 0);
        assert(tags_text(tags.drop_last()) =~= seq![]);
        assert(tags_text(tags) =~= tag_text(tags.last()));
    }
}

/// The tags' text: nothing for no tags, and one more tag appends a comma,
/// its key, an equal sign and its value, key and value with a backslash
/// before each comma, equal sign and space.
pub proof fn lemma_tags_text_steps(tags: Seq<(Seq<char>, String)>, tag: (Seq<char>, String))
    ensures
        tags_text(Seq::<(Seq<char>, String)>::empty()) == Seq::<char>::empty(),
        tags_text(tags.push(tag)) == tags_text(tags) + seq![','] + escape(tag.0, seq![',', '=', ' '])
            + seq!['='] + escape(tag.1@, seq![',', '=', ' ']),
{
    reveal_strlit(",");
    reveal_strlit("=");
    assert(key_specials() =~= seq![',', '=', ' ']);
    assert(tags.push(tag).drop_last() =~= tags);
    assert(tags_text(tags.push(tag)) =~= tags_text(tags) + seq![','] + escape(
        tag.0,
        seq![',', '=', ' '],
    ) + seq!['='] + escape(tag.1@, seq![',', '=', ' ']));
}

/// One field's text: its key with a backslash before each comma, equal sign
/// and space, an equal sign, and its value's text.
pub open spec fn field_entry_text(field: (Seq<char>, FieldValue)) -> Seq<char> {
    escape(field.0, seq![',', '=', ' ']) + seq!['='] + field_value_text(field.1)
}

/// The fields' text: nothing for no fields, one field's text for one field,
/// and one more field appends a comma and that field's text.
pub proof fn lemma_fields_text_steps(fields: Seq<(Seq<char>, FieldValue)>, field: (Seq<char>, FieldValue))
    ensures
        fields_text(Seq::<(Seq<char>, FieldValue)>::empty()) == Seq::<char>::empty(),
        fields_text(seq![field]) == field_entry_text(field),
        fields.len() > 0 ==> fields_text(fields.push(field)) == fields_text(fields) + seq![',']
            + field_entry_text(field),
{
    reveal_strlit(",");
    reveal_strlit("=");
    assert(key_specials() =~= seq![',', '=', ' ']);
    assert(field_text(field) =~= field_entry_text(field));
    assert(seq![field][0] == field);
    assert(fields.push(field).drop_last() =~= fields);
    if fields.len() > 0 {
        assert(fields_text(fields.push(field)) =~= fields_text(fields) + seq![','] + field_entry_text(
            field,
        ));
    }
}

} // verus!
