//! Writing data points to InfluxDB: the client settings, the shape of a
//! write request and the reading of the answer's status.

use std::io::Write;

use vstd::prelude::*;
use vstd::string::StringSliceAdditionalSpecFns;

use crate::line_protocol::data_point::{line_text, DataPoint};
use crate::line_protocol::replacer::LineEscapers;
use crate::text::{join_strings, join_with, views_of};

verus! {

#[verifier::external_type_specification]
#[verifier::external_body]
pub struct ExIoError(std::io::Error);

/// The serialization of the URL `Url::parse(base)` joined with `input` by
/// `Url::join`, or `None` when either step fails.
pub uninterp spec fn url_join_result(base: Seq<char>, input: Seq<char>) -> Option<Seq<char>>;

/// The serialization of the URL `Url::parse(url)` with the pair
/// `key=value` appended to its query by `append_pair`, or `None` when
/// `url` does not parse.
pub uninterp spec fn url_with_query_pair(url: Seq<char>, key: Seq<char>, value: Seq<char>) -> Option<
    Seq<char>,
>;

/// The gzip member that a `flate2` `GzEncoder` with the default
/// compression level produces for `data`.
pub uninterp spec fn gzip_member(data: Seq<u8>) -> Seq<u8>;

/// The views of an optional string.
pub open spec fn opt_view(s: Option<String>) -> Option<Seq<char>> {
    match s {
        Some(s) => Some(s@),
        None => None,
    }
}

/// Joins `input` to the URL `base`, with `url::Url::parse` and
/// `url::Url::join`.
///
/// Trusted: the result is the serialization of the joined URL, a function
/// of the two texts alone, named `url_join_result`.
#[verifier::external_body]
fn url_join(base: &str, input: &str) -> (res: Option<String>)
    ensures
        opt_view(res) == url_join_result(base@, input@),
{
    match url::Url::parse(base) {
        Ok(base) => match base.join(input) {
            Ok(joined) => Some(String::from(joined)),
            Err(_) => None,
        },
        Err(_) => None,
    }
}

/// Appends `key=value` to the query of the URL `url`, with
/// `url::Url::parse` and `form_urlencoded::Serializer::append_pair` (through
/// `Url::query_pairs_mut`).
///
/// Trusted: the result is the serialization of the resulting URL, a
/// function of the three texts alone, named `url_with_query_pair`.
#[verifier::external_body]
fn url_append_query_pair(url: &str, key: &str, value: &str) -> (res: Option<String>)
    ensures
        opt_view(res) == url_with_query_pair(url@, key@, value@),
{
    match url::Url::parse(url) {
        Ok(mut parsed) => {
            parsed.query_pairs_mut().append_pair(key, value);
            Some(String::from(parsed))
        },
        Err(_) => None,
    }
}

/// Compresses `data` into a gzip member with `flate2::write::GzEncoder`
/// (default compression level) over a vector.
///
/// Trusted: the compressed bytes are a function of `data` alone (the
/// default header has mtime 0 and OS byte 255), named `gzip_member`. The
/// call succeeds: the encoder's errors come from its inner writer, and a
/// vector never fails a write, or from the deflate backend, which fails
/// only when misused.
#[verifier::external_body]
fn gzip(data: &[u8]) -> (res: Result<Vec<u8>, std::io::Error>)
    ensures
        res is Ok,
        res matches Ok(body) ==> body@ == gzip_member(data@),
{
    let mut encoder = flate2::write::GzEncoder::new(Vec::new(), flate2::Compression::default());
    match encoder.write_all(data) {
        Ok(()) => encoder.finish(),
        Err(err) => Err(err),
    }
}

/// What the InfluxDB client is configured with.
pub struct Config {
    /// InfluxDB root URL.
    pub influxdb_url: String,
    /// InfluxDB API token with write-buckets permission.
    pub influxdb_api_token: String,
    /// InfluxDB organization name or ID.
    pub influxdb_org: String,
    /// InfluxDB bucket to write to.
    pub influxdb_bucket: String,
}

/// Why a write did not succeed.
#[derive(Debug, Clone, Copy, PartialEq, Eq)]
pub enum WriteError {
    /// The write endpoint could not be derived from the root URL.
    InvalidUrl,
    /// The task that compresses the body did not complete.
    Compression,
    /// The request could not be sent.
    Send,
    /// InfluxDB answered with a status other than success.
    Status(u16),
}

/// A write request, ready to be sent with the POST method.
pub struct WriteRequest {
    pub url: String,
    /// The value of the `Authorization` header.
    pub authorization: String,
    /// The value of the `Content-Encoding` header.
    pub content_encoding: String,
    /// The value of the `Content-Type` header.
    pub content_type: String,
    /// The gzip-compressed line protocol.
    pub body: Vec<u8>,
}

/// The write endpoint: `/api/v2/write` on the root URL, with the bucket,
/// the organization and a precision of seconds as query pairs.
pub open spec fn write_url_text(base: Seq<char>, bucket: Seq<char>, org: Seq<char>) -> Option<
    Seq<char>,
> {
    match url_join_result(base, "/api/v2/write"@) {
        None => None,
        Some(endpoint) => match url_with_query_pair(endpoint, "bucket"@, bucket) {
            None => None,
            Some(with_bucket) => match url_with_query_pair(with_bucket, "org"@, org) {
                None => None,
                Some(with_org) => url_with_query_pair(with_org, "precision"@, "s"@),
            },
        },
    }
}

/// An InfluxDB client's settings.
pub struct Client {
    url: String,
    bucket: String,
    org: String,
    auth_header: String,
}

impl Client {
    pub closed spec fn url_view(&self) -> Seq<char> {
        self.url@
    }

    pub closed spec fn bucket_view(&self) -> Seq<char> {
        self.bucket@
    }

    pub closed spec fn org_view(&self) -> Seq<char> {
        self.org@
    }

    /// The value of the `Authorization` header.
    pub closed spec fn auth_header_view(&self) -> Seq<char> {
        self.auth_header@
    }

    /// The settings of a client for `config`; the API token is sent as
    /// `Token <token>`.
    pub fn new(config: &Config) -> (res: Self)
        ensures
            res.url_view() == config.influxdb_url@,
            res.bucket_view() == config.influxdb_bucket@,
            res.org_view() == config.influxdb_org@,
            res.auth_header_view() == "Token "@ + config.influxdb_api_token@,
    {
        let url = config.influxdb_url.clone();
        let bucket = config.influxdb_bucket.clone();
        let org = config.influxdb_org.clone();
        let auth_header = String::from_str("Token ").concat(config.influxdb_api_token.as_str());
        Client { url, bucket, org, auth_header }
    }

    /// The request that writes `line_protocol`: posted to the write
    /// endpoint, authorized by the API token, its body the gzip-compressed
    /// line protocol. It is built whenever the write endpoint derives from
    /// the root URL.
    pub fn write_request(&self, line_protocol: &str) -> (res: Result<WriteRequest, WriteError>)
        ensures
            write_url_text(self.url_view(), self.bucket_view(), self.org_view()) is None ==> res
                == Err::<WriteRequest, WriteError>(WriteError::InvalidUrl),
            write_url_text(self.url_view(), self.bucket_view(), self.org_view()) matches Some(
                url,
            ) ==> (res matches Ok(req) && {
                &&& req.url@ == url
                &&& req.authorization@ == self.auth_header_view()
                &&& req.content_encoding@ == "gzip"@
                &&& req.content_type@ == "text/plain; charset=utf-8"@
                &&& req.body@ == gzip_member(line_protocol.spec_bytes())
            }),
    {
        let endpoint = match url_join(self.url.as_str(), "/api/v2/write") {
            Some(u) => u,
            None => return Err(WriteError::InvalidUrl),
        };
        let with_bucket = match url_append_query_pair(endpoint.as_str(), "bucket", self.bucket.as_str()) {
            Some(u) => u,
            None => return Err(WriteError::InvalidUrl),
        };
        let with_org = match url_append_query_pair(with_bucket.as_str(), "org", self.org.as_str()) {
            Some(u) => u,
            None => return Err(WriteError::InvalidUrl),
        };
        let url = match url_append_query_pair(with_org.as_str(), "precision", "s") {
            Some(u) => u,
            None => return Err(WriteError::InvalidUrl),
        };
        let body = match gzip(line_protocol.as_bytes()) {
            Ok(body) => body,
            Err(_) => vstd::pervasive::unreached(),
        };
        Ok(
            WriteRequest {
                url,
                authorization: self.auth_header.clone(),
                content_encoding: String::from_str("gzip"),
                content_type: String::from_str("text/plain; charset=utf-8"),
                body,
            },
        )
    }
}

/// Whether an HTTP status code is one of success (`2xx`).
pub open spec fn is_success(status: u16) -> bool {
    200 <= status < 300
}

/// The outcome of a write from the status of InfluxDB's answer.
pub fn check_status(status: u16) -> (res: Result<(), WriteError>)
    ensures
        is_success(status) ==> res is Ok,
        !is_success(status) ==> res == Err::<(), WriteError>(WriteError::Status(status)),
{
    if 200 <= status && status < 300 {
        Ok(())
    } else {
        Err(WriteError::Status(status))
    }
}

/// The line protocol of a batch: the lines of the data points, in order,
/// separated by newlines.
pub open spec fn batch_text(points: Seq<DataPoint>) -> Seq<char> {
    join_with(points.map_values(|p: DataPoint| line_text(p@)), "\n"@)
}

/// The line protocol of a batch of data points.
pub fn batch_line_protocol(points: &Vec<DataPoint>) -> (res: String)
    ensures
        res@ == batch_text(points@),
{
    let escapers = LineEscapers::new();
    let mut lines: Vec<String> = Vec::new();
    let n = points.len();
    let mut i: usize = 0;
    while i < n
        invariant
            escapers.wf(),
            n == points@.len(),
            i <= n,
            lines@.len() == i,
            forall|j: int| 0 <= j < i ==> #[trigger] lines@[j]@ == line_text(points@[j]@),
        decreases n - i,
    {
        lines.push(points[i].line_protocol_text(&escapers));
        i = i + 1;
    }
    assert(views_of(lines@) =~= points@.map_values(|p: DataPoint| line_text(p@)));
    join_strings(&lines, "\n")
}

/// A batch's text holds one line per point, in order: nothing for no
/// points, a point's line for one point, and one more point appends a
/// newline and that point's line, whatever the points hold.
pub proof fn lemma_batch_text_steps(points: Seq<DataPoint>, point: DataPoint)
    ensures
        batch_text(Seq::<DataPoint>::empty()) == Seq::<char>::empty(),
        batch_text(seq![point]) == line_text(point@),
        points.len() > 0 ==> batch_text(points.push(point)) == batch_text(points) + seq!['\n']
            + line_text(point@),
{
    reveal_strlit("\n");
    let f = |p: DataPoint| line_text(p@);
    assert(Seq::<DataPoint>::empty().map_values(f) =~= Seq::<Seq<char>>::empty());
    assert(seq![point].map_values(f) =~= seq![line_text(point@)]);
    assert(points.push(point).map_values(f) =~= points.map_values(f).push(line_text(point@)));
    assert(points.map_values(f).push(line_text(point@)).drop_last() =~= points.map_values(f));
    if points.len() > 0 {
        assert(batch_text(points.push(point)) =~= batch_text(points) + seq!['\n'] + line_text(
            point@,
        ));
    }
}

/// A write succeeds exactly for the statuses from 200 to 299.
pub proof fn lemma_success_statuses(status: u16)
    ensures
        is_success(status) <==> (status >= 200 && status <= 299),
        is_success(204),
        !is_success(199) && !is_success(300) && !is_success(500),
{
}

} // verus!
