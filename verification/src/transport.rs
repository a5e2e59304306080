//! The HTTP side of the client: the endpoints of a database, the requests
//! that write and query, and what an answer means.

use crate::json::{json_document, parse_document, Json, JsonView};
use crate::measurement::{payload_of, Measurement};
use crate::response::{envelope_of, response_of, InfluxServerError, QueryResponse};
use hyper::error::UriError;
use std::str::FromStr;
use vstd::prelude::*;
use vstd::string::StrSliceExecFns;

verus! {

/// The fault that `hyper` reports for a text that is no URI.
#[verifier::external_type_specification]
#[verifier::external_body]
pub struct ExUriError(UriError);

/// The fault that `hyper` reports when a request cannot be carried out.
#[verifier::external_type_specification]
#[verifier::external_body]
pub struct ExHyperError(hyper::Error);

/// Why the body of an answer could not be read.
#[derive(Debug)]
pub enum DecodeError {
    /// The body is no JSON document.
    Syntax(serde_json::Error),
    /// The body is a JSON document of another shape than expected.
    Shape,
}

/// What can go wrong between a request and its result.
#[derive(Debug)]
pub enum InfluxError {
    /// An address is no URI.
    Url(UriError),
    /// The request could not be carried out.
    Hyper(hyper::Error),
    /// The answer's body could not be read.
    Serde(DecodeError),
    /// The database refused the request; the text is its own message.
    BadRequest(String),
}

/// The URI that a text holds, as `hyper` writes it back; nothing where the
/// text is no URI.
pub uninterp spec fn uri_text(text: Seq<char>) -> Option<Seq<char>>;

/// `hyper::Uri::from_str`, and the parsed URI as text again: the URI that
/// `text` holds, or the fault where it holds none.
#[verifier::external_body]
fn parse_uri(text: &str) -> (parsed: Result<String, UriError>)
    ensures
        parsed matches Ok(uri) ==> uri_text(text@) == Some(uri@),
        parsed is Err ==> uri_text(text@) is None,
{
    match hyper::Uri::from_str(text) {
        Ok(uri) => Ok(uri.to_string()),
        Err(e) => Err(e),
    }
}

/// The address of `path` under the address `base`, with one slash between
/// the two: a base that ends with a slash gets no further one.
pub open spec fn joined_address(base: Seq<char>, path: Seq<char>) -> Seq<char> {
    if base.len() > 0 && base.last() == '/' {
        base + path
    } else {
        base + seq!['/'] + path
    }
}

/// The address of the query endpoint under a base address.
pub open spec fn query_endpoint_text(base: Seq<char>) -> Seq<char> {
    joined_address(base, "query"@)
}

/// The address of the write endpoint of the database called `name` under a
/// base address.
pub open spec fn write_endpoint_text(base: Seq<char>, name: Seq<char>) -> Seq<char> {
    joined_address(base, "write?db="@ + name)
}

/// The address that asks the database called `name` the given query at a
/// query endpoint.
pub open spec fn query_target_text(endpoint: Seq<char>, name: Seq<char>, query: Seq<char>) -> Seq<
    char,
> {
    endpoint + "?db="@ + name + "&q="@ + query
}

/// Writes the address of `path` under the address `base`.
pub fn join_address(base: &str, path: &str) -> (address: String)
    ensures
        address@ == joined_address(base@, path@),
{
    let len = base.unicode_len();
    let mut address = base.to_owned();
    if len == 0 || base.get_char(len - 1) != '/' {
        address.push('/');
    }
    address.push_str(path);
    address
}

/// Writes the address of the query endpoint under a base address.
pub fn query_endpoint(base: &str) -> (address: String)
    ensures
        address@ == query_endpoint_text(base@),
{
    join_address(base, "query")
}

/// Writes the address of the write endpoint of a database.
pub fn write_endpoint(base: &str, name: &str) -> (address: String)
    ensures
        address@ == write_endpoint_text(base@, name@),
{
    let mut path = "write?db=".to_owned();
    path.push_str(name);
    join_address(base, path.as_str())
}

/// Writes the address that asks a query of a database.
pub fn query_target(endpoint: &str, name: &str, query: &str) -> (address: String)
    ensures
        address@ == query_target_text(endpoint@, name@, query@),
{
    let mut address = endpoint.to_owned();
    address.push_str("?db=");
    address.push_str(name);
    address.push_str("&q=");
    address.push_str(query);
    address
}

/// The two endpoints of the database called `name` under the address
/// `base_url`: each is a URI, and so is the base; nothing where one of the
/// three is none.
pub open spec fn endpoints_of(base_url: Seq<char>, name: Seq<char>) -> Option<
    (Seq<char>, Seq<char>),
> {
    match uri_text(base_url) {
        Some(base) => match (
            uri_text(query_endpoint_text(base)),
            uri_text(write_endpoint_text(base, name)),
        ) {
            (Some(query), Some(write)) => Some((query, write)),
            _ => None,
        },
        None => None,
    }
}

/// How a request is made.
#[derive(Debug, Clone, Copy, PartialEq, Eq, Structural)]
pub enum Method {
    Get,
    Post,
}

/// A request to the database: the method, the address it goes to, and the
/// body it carries, which is empty for a query.
#[derive(Debug)]
pub struct Request {
    pub method: Method,
    pub target: String,
    pub body: String,
}

/// A database behind an HTTP address: its name and its two endpoints,
/// which are fixed when the value is made.
#[derive(Debug)]
pub struct AsyncDb {
    name: String,
    query_endpoint: String,
    write_endpoint: String,
}

impl AsyncDb {
    /// The database's name.
    pub closed spec fn name(&self) -> Seq<char> {
        self.name@
    }

    /// The address of the query endpoint.
    pub closed spec fn query_endpoint(&self) -> Seq<char> {
        self.query_endpoint@
    }

    /// The address of the write endpoint, which names the database.
    pub closed spec fn write_endpoint(&self) -> Seq<char> {
        self.write_endpoint@
    }

    /// The database called `name` under the address `base_url`.
    pub fn new(base_url: &str, name: &str) -> (made: Result<AsyncDb, InfluxError>)
        ensures
            made matches Ok(db) ==> db.name() == name@ && endpoints_of(base_url@, name@) == Some(
                (db.query_endpoint(), db.write_endpoint()),
            ),
            made matches Err(e) ==> e is Url && endpoints_of(base_url@, name@) is None,
    {
        let base = match parse_uri(base_url) {
            Ok(base) => base,
            Err(e) => {
                return Err(InfluxError::Url(e));
            },
        };
        let query = match parse_uri(query_endpoint(base.as_str()).as_str()) {
            Ok(query) => query,
            Err(e) => {
                return Err(InfluxError::Url(e));
            },
        };
        let write = match parse_uri(write_endpoint(base.as_str(), name).as_str()) {
            Ok(write) => write,
            Err(e) => {
                return Err(InfluxError::Url(e));
            },
        };
        Ok(AsyncDb { name: name.to_owned(), query_endpoint: query, write_endpoint: write })
    }

    /// The database's name.
    pub fn database(&self) -> (name: &String)
        ensures
            name@ == self.name(),
    {
        &self.name
    }

    /// The request that writes `measure` to the database: its text, as
    /// one body, posted to the write endpoint.
    pub fn add_data<T>(&self, measure: T) -> (request: Request) where T: Measurement
        ensures
            request.method == Method::Post,
            request.target@ == self.write_endpoint(),
            request.body@ == measure.payload(),
    {
        let bytes_to_send = payload_of(measure);
        Request { method: Method::Post, target: self.write_endpoint.clone(), body: bytes_to_send }
    }

    /// The request that asks the database `query`, where the address that
    /// asks it is a URI.
    pub fn query(&self, query: &str) -> (request: Result<Request, InfluxError>)
        ensures
            request matches Ok(r) ==> r.method == Method::Get && r.body@.len() == 0 && uri_text(
                query_target_text(self.query_endpoint(), self.name(), query@),
            ) == Some(r.target@),
            request matches Err(e) ==> e is Url && uri_text(
                query_target_text(self.query_endpoint(), self.name(), query@),
            ) is None,
    {
        let address = query_target(self.query_endpoint.as_str(), self.name.as_str(), query);
        match parse_uri(address.as_str()) {
            Ok(target) => Ok(Request { method: Method::Get, target: target, body: String::new() }),
            Err(e) => Err(InfluxError::Url(e)),
        }
    }
}

/// Whether an HTTP status code reports success: the codes from 200 to 299.
pub open spec fn status_is_success(status: u16) -> bool {
    200 <= status < 300
}

/// Tells whether `status` reports success.
pub fn is_success(status: u16) -> (ok: bool)
    ensures
        ok == status_is_success(status),
{
    200 <= status && status < 300
}

/// How a request ended on the wire.
#[derive(Debug)]
pub enum Exchange {
    /// No answer came: the connection or the protocol failed.
    Failed(hyper::Error),
    /// An answer came: its status, and its body where the body was read.
    /// Only the status of an accepted write counts, so its body may be left
    /// unread and given as empty here.
    Answered { status: u16, body: Vec<u8> },
}

/// Adds a chunk of an answer's body to what has been read of it.
pub fn extend_body(body: &mut Vec<u8>, chunk: &[u8])
    ensures
        final(body)@ == old(body)@ + chunk@,
{
    body.extend_from_slice(chunk);
}

/// Whether `e` is what the body of a refused request means: the database's
/// own message where the body is a refusal, else the fault met in reading
/// it.
pub open spec fn refusal_is(doc: Option<JsonView>, e: InfluxError) -> bool {
    match doc {
        None => e matches InfluxError::Serde(DecodeError::Syntax(_)),
        Some(doc) => match envelope_of(doc) {
            Some(message) => e matches InfluxError::BadRequest(text) && text@ == message,
            None => e matches InfluxError::Serde(DecodeError::Shape),
        },
    }
}

/// Whether `read` is what the body of an accepted query means: the answer
/// that the body holds, else the fault met in reading it.
pub open spec fn answer_is(doc: Option<JsonView>, read: Result<QueryResponse, InfluxError>)
    -> bool {
    match doc {
        None => read matches Err(InfluxError::Serde(DecodeError::Syntax(_))),
        Some(doc) => match response_of(doc) {
            Some(response) => read matches Ok(r) && r@ == response,
            None => read matches Err(InfluxError::Serde(DecodeError::Shape)),
        },
    }
}

/// What the document of a refused request means.
pub fn rejection(doc: &Json) -> (e: InfluxError)
    ensures
        refusal_is(Some(doc@), e),
{
    match InfluxServerError::from_json(doc) {
        Some(message) => InfluxError::BadRequest(message.error),
        None => InfluxError::Serde(DecodeError::Shape),
    }
}

/// What the document of an accepted query means.
pub fn answer(doc: &Json) -> (read: Result<QueryResponse, InfluxError>)
    ensures
        answer_is(Some(doc@), read),
{
    match QueryResponse::from_json(doc) {
        Some(response) => Ok(response),
        None => Err(InfluxError::Serde(DecodeError::Shape)),
    }
}

/// Checks the status of an answer: a success passes; any other status is
/// a refusal, whose body says why.
pub fn check_response_code(status: u16, body: &[u8]) -> (checked: Result<(), InfluxError>)
    ensures
        status_is_success(status) ==> checked is Ok,
        !status_is_success(status) ==> (checked matches Err(e) && refusal_is(
            json_document(body@),
            e,
        )),
{
    if is_success(status) {
        Ok(())
    } else {
        match parse_document(body) {
            Ok(doc) => Err(rejection(&doc)),
            Err(e) => Err(InfluxError::Serde(DecodeError::Syntax(e))),
        }
    }
}

/// Reads the body of an accepted query.
pub fn response_to_json(body: &[u8]) -> (read: Result<QueryResponse, InfluxError>)
    ensures
        answer_is(json_document(body@), read),
{
    match parse_document(body) {
        Ok(doc) => answer(&doc),
        Err(e) => Err(InfluxError::Serde(DecodeError::Syntax(e))),
    }
}

/// The result of a write: a failure on the wire comes first, then the
/// status decides.
pub fn write_outcome(exchange: Exchange) -> (outcome: Result<(), InfluxError>)
    ensures
        match exchange {
            Exchange::Failed(failure) => outcome matches Err(InfluxError::Hyper(e)) && e
                == failure,
            Exchange::Answered { status, body } => if status_is_success(status) {
                outcome is Ok
            } else {
                outcome matches Err(e) && refusal_is(json_document(body@), e)
            },
        },
{
    match exchange {
        Exchange::Failed(e) => Err(InfluxError::Hyper(e)),
        Exchange::Answered { status, body } => check_response_code(status, body.as_slice()),
    }
}

/// The result of a query: a failure on the wire comes first, then the
/// status decides, and the body of a success is read as the answer.
pub fn query_outcome(exchange: Exchange) -> (outcome: Result<QueryResponse, InfluxError>)
    ensures
        match exchange {
            Exchange::Failed(failure) => outcome matches Err(InfluxError::Hyper(e)) && e
                == failure,
            Exchange::Answered { status, body } => if status_is_success(status) {
                answer_is(json_document(body@), outcome)
            } else {
                outcome matches Err(e) && refusal_is(json_document(body@), e)
            },
        },
{
    match exchange {
        Exchange::Failed(e) => Err(InfluxError::Hyper(e)),
        Exchange::Answered { status, body } => {
            match check_response_code(status, body.as_slice()) {
                Ok(()) => response_to_json(body.as_slice()),
                Err(e) => Err(e),
            }
        },
    }
}

} // verus!
