//! The data documents read from the MongoDB collection, and what each
//! scrape keeps of them.

use vstd::prelude::*;

use crate::line_protocol::data_point::{document_fields, DataPoint};
use crate::line_protocol::field_value::BsonValue;
use crate::sorted_map::entries_map;

verus! {

/// A data document: its identifier, its values (in document order) and the
/// number of milliseconds since it was last updated.
#[derive(Debug, Clone)]
pub struct DataDocument {
    pub id: String,
    pub val: Vec<(String, BsonValue)>,
    pub updated_since: u64,
}

/// A document is fresh when it was updated less than one scraping period
/// ago.
pub open spec fn is_fresh_spec(doc: DataDocument, tick_interval: u64) -> bool {
    doc.updated_since < tick_interval
}

/// The fresh documents, in their order.
pub open spec fn fresh_documents(docs: Seq<DataDocument>, tick_interval: u64) -> Seq<DataDocument>
    decreases docs.len(),
{
    if docs.len() == 0 {
        seq![]
    } else {
        let earlier = fresh_documents(docs.drop_last(), tick_interval);
        if is_fresh_spec(docs.last(), tick_interval) {
            earlier.push(docs.last())
        } else {
            earlier
        }
    }
}

/// `point` is the data point of `doc`, of the given measurement and
/// timestamp.
pub open spec fn is_point_of(
    point: DataPoint,
    doc: DataDocument,
    measurement: Seq<char>,
    timestamp: u64,
) -> bool {
    &&& point.wf()
    &&& point@.measurement == measurement
    &&& point@.timestamp == timestamp
    &&& entries_map(point@.tags) == map!["id"@ => doc.id]
    &&& entries_map(point@.fields) == document_fields(doc.val@)
}

/// Whether a document is fresh enough to be scraped.
pub fn is_fresh(doc: &DataDocument, tick_interval: u64) -> (res: bool)
    ensures
        res == is_fresh_spec(*doc, tick_interval),
{
    doc.updated_since < tick_interval
}

/// The scraping period in milliseconds, truncated to 64 bits.
pub fn tick_interval_millis(period_millis: u128) -> (res: u64)
    ensures
        res == period_millis % 0x1_0000_0000_0000_0000,
{
    assert(period_millis as u64 == period_millis % 0x1_0000_0000_0000_0000) by (bit_vector);
    #[verifier::truncate]
    (period_millis as u64)
}

/// The data points of one scrape: one for each fresh document, in order,
/// all of the given measurement and timestamp. Outdated documents are left
/// out.
pub fn scrape_data_points(
    docs: Vec<DataDocument>,
    tick_interval: u64,
    measurement: &str,
    timestamp: u64,
) -> (res: Vec<DataPoint>)
    ensures
        res@.len() == fresh_documents(docs@, tick_interval).len(),
        forall|j: int|
            0 <= j < res@.len() ==> is_point_of(
                #[trigger] res@[j],
                fresh_documents(docs@, tick_interval)[j],
                measurement@,
                timestamp,
            ),
{
    let ghost all = docs@;
    let mut docs = docs;
    let mut res: Vec<DataPoint> = Vec::new();
    assert(all.take(0) =~= Seq::<DataDocument>::empty());
    while docs.len() > 0
        invariant
            docs@.len() <= all.len(),
            docs@ == all.skip(all.len() - docs@.len()),
            res@.len() == fresh_documents(all.take(all.len() - docs@.len()), tick_interval).len(),
            forall|j: int|
                0 <= j < res@.len() ==> is_point_of(
                    #[trigger] res@[j],
                    fresh_documents(all.take(all.len() - docs@.len()), tick_interval)[j],
                    measurement@,
                    timestamp,
                ),
        decreases docs@.len(),
    {
        let ghost done = all.len() - docs@.len();
        let ghost before = docs@;
        let doc = docs.remove(0);
        assert(all[done] == doc) by {
            assert(all.skip(done)[0] == all[done]);
        }
        assert(all.take(done + 1).drop_last() =~= all.take(done));
        if is_fresh(&doc, tick_interval) {
            let point = DataPoint::create(doc, measurement.to_owned(), timestamp);
            res.push(point);
        }
        assert forall|k: int| 0 <= k < docs@.len() implies #[trigger] docs@[k] == all.skip(
            done + 1,
        )[k] by {
            assert(docs@[k] == before[k + 1]);
        }
        assert(docs@ =~= all.skip(done + 1));
    }
    assert(all.take(all.len() as int) =~= all);
    res
}

/// The documents a scrape keeps are exactly those updated less than one
/// period ago, in their order: the sequence filtered by
/// `updated_since < tick_interval`. So every kept document was updated less
/// than a period ago, and every such document is kept.
pub proof fn lemma_fresh_documents_are_recent(docs: Seq<DataDocument>, tick_interval: u64)
    ensures
        fresh_documents(docs, tick_interval) == docs.filter(
            |d: DataDocument| d.updated_since < tick_interval,
        ),
        forall|j: int|
            0 <= j < fresh_documents(docs, tick_interval).len() ==> (#[trigger] fresh_documents(
                docs,
                tick_interval,
            )[j]).updated_since < tick_interval,
        forall|i: int|
            0 <= i < docs.len() && (#[trigger] docs[i]).updated_since < tick_interval
                ==> fresh_documents(docs, tick_interval).contains(docs[i]),
    decreases docs.len(),
{
    let pred = |d: DataDocument| d.updated_since < tick_interval;
    reveal(Seq::filter);
    if docs.len() > 0 {
        lemma_fresh_documents_are_recent(docs.drop_last(), tick_interval);
    }
    assert(fresh_documents(docs, tick_interval) =~= docs.filter(pred));
    docs.filter_lemma(pred);
}

} // verus!
