//! The database's answers: what a query returns, what a refusal says, and
//! how both are read from JSON.

use crate::decimal::{digit_value, digits_value};
use crate::json::{lemma_array_view, member, Json, JsonView};
use vstd::prelude::*;
use vstd::string::StrSliceExecFns;

verus! {

/// The index that a text stands for: a number in decimal digits that a
/// `usize` can hold.
pub open spec fn index_value(text: Seq<char>) -> Option<usize> {
    match digits_value(text) {
        Some(n) => if n <= usize::MAX {
            Some(n as usize)
        } else {
            None
        },
        None => None,
    }
}

/// A text of digits stands for at least as much as any of its beginnings.
proof fn lemma_digits_grow(text: Seq<char>, upto: int)
    requires
        1 <= upto <= text.len(),
        digits_value(text) is Some,
    ensures
        digits_value(text.subrange(0, upto)) matches Some(part) && part <= digits_value(
            text,
        ).unwrap(),
    decreases text.len() - upto,
{
    if upto == text.len() {
        assert(text.subrange(0, upto) =~= text);
    } else {
        lemma_digits_grow(text.drop_last(), upto);
        assert(text.drop_last().subrange(0, upto) =~= text.subrange(0, upto));
    }
}

/// A text with a beginning that is no number is no number.
proof fn lemma_digits_fail(text: Seq<char>, upto: int)
    requires
        1 <= upto <= text.len(),
        digits_value(text.subrange(0, upto)) is None,
    ensures
        digits_value(text) is None,
    decreases text.len() - upto,
{
    if upto == text.len() {
        assert(text.subrange(0, upto) =~= text);
    } else {
        assert(text.subrange(0, upto + 1).drop_last() =~= text.subrange(0, upto));
        lemma_digits_fail(text, upto + 1);
    }
}

fn digit_of_char(c: char) -> (d: Option<usize>)
    ensures
        d matches Some(v) ==> digit_value(c) == Some(v as nat),
        d is None ==> digit_value(c) is None,
{
    match c {
        '0' => Some(0),
        '1' => Some(1),
        '2' => Some(2),
        '3' => Some(3),
        '4' => Some(4),
        '5' => Some(5),
        '6' => Some(6),
        '7' => Some(7),
        '8' => Some(8),
        '9' => Some(9),
        _ => None,
    }
}

/// Reads a text of decimal digits as an index.
pub fn parse_index(text: &str) -> (index: Option<usize>)
    ensures
        index == index_value(text@),
{
    let len = text.unicode_len();
    if len == 0 {
        return None;
    }
    let mut value: usize = 0;
    let mut i: usize = 0;
    while i < len
        invariant
            i <= len,
            len == text@.len(),
            i > 0 ==> digits_value(text@.subrange(0, i as int)) == Some(value as nat),
            i == 0 ==> value == 0,
        decreases len - i,
    {
        let ghost before = text@.subrange(0, i as int);
        let ghost more = text@.subrange(0, i + 1);
        proof {
            assert(more.drop_last() =~= before);
            assert(more.last() == text@[i as int]);
        }
        let digit = match digit_of_char(text.get_char(i)) {
            Some(d) => d,
            None => {
                proof {
                    lemma_digits_fail(text@, i + 1);
                }
                return None;
            },
        };
        if value > (usize::MAX - digit) / 10 {
            proof {
                assert(digits_value(more) == Some((10 * value + digit) as nat));
                if digits_value(text@) is Some {
                    lemma_digits_grow(text@, i + 1);
                }
            }
            return None;
        }
        value = 10 * value + digit;
        i = i + 1;
    }
    proof {
        assert(text@.subrange(0, len as int) =~= text@);
    }
    Some(value)
}

/// The text of a value that is a string.
pub open spec fn text_of(doc: JsonView) -> Option<Seq<char>> {
    match doc {
        JsonView::Text(text) => Some(text),
        _ => None,
    }
}

/// The items of a value that is an array.
pub open spec fn items_of(doc: JsonView) -> Option<Seq<JsonView>> {
    match doc {
        JsonView::Array(items) => Some(items),
        _ => None,
    }
}

/// The index that a value holds: it must be a number written in decimal
/// digits, no larger than a `usize`.
pub open spec fn index_of(doc: JsonView) -> Option<usize> {
    match doc {
        JsonView::Number(text) => index_value(text),
        _ => None,
    }
}

/// The texts of a list of strings: nothing where an item is no string.
pub open spec fn texts_of(items: Seq<JsonView>) -> Option<Seq<Seq<char>>> {
    if forall|i: int| 0 <= i < items.len() ==> (#[trigger] text_of(items[i])) is Some {
        Some(Seq::new(items.len(), |i: int| text_of(items[i]).unwrap()))
    } else {
        None
    }
}

/// The rows of a list of arrays: nothing where an item is no array.
pub open spec fn rows_of(items: Seq<JsonView>) -> Option<Seq<Seq<JsonView>>> {
    if forall|i: int| 0 <= i < items.len() ==> (#[trigger] items_of(items[i])) is Some {
        Some(Seq::new(items.len(), |i: int| items_of(items[i]).unwrap()))
    } else {
        None
    }
}

/// What the database says when it refuses a request: `{"error": "..."}`.
#[derive(Debug)]
pub struct InfluxServerError {
    pub error: String,
}

/// The message of a refusal: the object's member `error`, which must be a
/// string.
pub open spec fn envelope_of(doc: JsonView) -> Option<Seq<char>> {
    match member(doc, "error"@) {
        Some(value) => text_of(value),
        None => None,
    }
}

impl InfluxServerError {
    /// Reads a refusal from a document.
    pub fn from_json(doc: &Json) -> (read: Option<InfluxServerError>)
        ensures
            read matches Some(refusal) ==> envelope_of(doc@) == Some(refusal.error@),
            read is None ==> envelope_of(doc@) is None,
    {
        match doc.get("error") {
            Some(Json::Text(message)) => Some(InfluxServerError { error: message.clone() }),
            _ => None,
        }
    }
}

/// One series of a result: its name, its columns, and its rows, each row
/// holding one value per column. That a row is as long as the list of
/// columns is expected and not checked.
#[derive(Debug)]
pub struct Series {
    pub name: String,
    pub columns: Vec<String>,
    pub values: Vec<Vec<Json>>,
}

/// What a [`Series`] holds.
pub struct SeriesView {
    pub name: Seq<char>,
    pub columns: Seq<Seq<char>>,
    pub values: Seq<Seq<JsonView>>,
}

impl View for Series {
    type V = SeriesView;

    open spec fn view(&self) -> SeriesView {
        SeriesView {
            name: self.name@,
            columns: string_views(self.columns@),
            values: row_views(self.values@),
        }
    }
}

/// The series that a document holds: an object with the members `name`, a
/// string; `columns`, an array of strings; and `values`, an array of arrays.
pub open spec fn series_of(doc: JsonView) -> Option<SeriesView> {
    match (member(doc, "name"@), member(doc, "columns"@), member(doc, "values"@)) {
        (Some(JsonView::Text(name)), Some(JsonView::Array(columns)), Some(JsonView::Array(rows))) => {
            match (texts_of(columns), rows_of(rows)) {
                (Some(columns), Some(values)) => Some(
                    SeriesView { name: name, columns: columns, values: values },
                ),
                _ => None,
            }
        },
        _ => None,
    }
}

/// The texts of a list of strings.
pub open spec fn string_views(texts: Seq<String>) -> Seq<Seq<char>> {
    Seq::new(texts.len(), |i: int| texts[i]@)
}

/// The views of the rows of a table.
pub open spec fn row_views(rows: Seq<Vec<Json>>) -> Seq<Seq<JsonView>> {
    Seq::new(rows.len(), |i: int| Seq::new(rows[i]@.len(), |j: int| rows[i]@[j]@))
}

/// Reads the columns of a series: every item must be a string.
fn read_columns(items: &Vec<Json>) -> (read: Option<Vec<String>>)
    ensures
        read matches Some(columns) ==> texts_of(Json::Array(*items)@->Array_0) == Some(
            string_views(columns@),
        ),
        read is None ==> texts_of(Json::Array(*items)@->Array_0) is None,
{
    proof {
        lemma_array_view(*items);
    }
    let ghost views = Json::Array(*items)@->Array_0;
    let mut columns: Vec<String> = Vec::new();
    let mut i: usize = 0;
    while i < items.len()
        invariant
            i <= items@.len(),
            views == Json::Array(*items)@->Array_0,
            views.len() == items@.len(),
            forall|k: int| 0 <= k < views.len() ==> #[trigger] views[k] == items@[k]@,
            columns@.len() == i,
            forall|k: int| 0 <= k < i ==> #[trigger] text_of(views[k]) == Some(columns@[k]@),
        decreases items@.len() - i,
    {
        match &items[i] {
            Json::Text(text) => {
                columns.push(text.clone());
            },
            _ => {
                assert(text_of(views[i as int]) is None);
                return None;
            },
        }
        i = i + 1;
    }
    proof {
        assert(texts_of(views)->0 =~= string_views(columns@));
    }
    Some(columns)
}

/// Reads the rows of a series: every item must be an array.
fn read_rows(items: &Vec<Json>) -> (read: Option<Vec<Vec<Json>>>)
    ensures
        read matches Some(rows) ==> rows_of(Json::Array(*items)@->Array_0) == Some(
            row_views(rows@),
        ),
        read is None ==> rows_of(Json::Array(*items)@->Array_0) is None,
{
    proof {
        lemma_array_view(*items);
    }
    let ghost views = Json::Array(*items)@->Array_0;
    let mut rows: Vec<Vec<Json>> = Vec::new();
    let mut i: usize = 0;
    while i < items.len()
        invariant
            i <= items@.len(),
            views == Json::Array(*items)@->Array_0,
            views.len() == items@.len(),
            forall|k: int| 0 <= k < views.len() ==> #[trigger] views[k] == items@[k]@,
            rows@.len() == i,
            forall|k: int|
                0 <= k < i ==> #[trigger] items_of(views[k]) == Some(
                    Seq::new(rows@[k]@.len(), |j: int| rows@[k]@[j]@),
                ),
        decreases items@.len() - i,
    {
        match items[i].duplicate() {
            Json::Array(cells) => {
                proof {
                    lemma_array_view(cells);
                    assert(items_of(views[i as int])->0 =~= Seq::new(
                        cells@.len(),
                        |j: int| cells@[j]@,
                    ));
                }
                rows.push(cells);
            },
            _ => {
                assert(items_of(views[i as int]) is None);
                return None;
            },
        }
        i = i + 1;
    }
    proof {
        assert(rows_of(views)->0 =~= row_views(rows@));
    }
    Some(rows)
}

/// Whether every row holds one value for each column.
pub open spec fn series_aligned(series: SeriesView) -> bool {
    forall|i: int|
        0 <= i < series.values.len() ==> (#[trigger] series.values[i]).len()
            == series.columns.len()
}

impl Series {
    /// Tells whether every row holds one value for each column. Reading a
    /// series does not ask for it; a caller that relies on it asks here.
    pub fn is_aligned(&self) -> (aligned: bool)
        ensures
            aligned == series_aligned(self@),
    {
        let width = self.columns.len();
        let mut i: usize = 0;
        while i < self.values.len()
            invariant
                i <= self.values@.len(),
                width == self.columns@.len(),
                forall|k: int| 0 <= k < i ==> (#[trigger] self@.values[k]).len() == width,
            decreases self.values@.len() - i,
        {
            if self.values[i].len() != width {
                assert(self@.values[i as int].len() != self@.columns.len());
                return false;
            }
            i = i + 1;
        }
        true
    }

    /// Reads a series from a document.
    pub fn from_json(doc: &Json) -> (read: Option<Series>)
        ensures
            read matches Some(series) ==> series_of(doc@) == Some(series@),
            read is None ==> series_of(doc@) is None,
    {
        let name = match doc.get("name") {
            Some(Json::Text(name)) => name.clone(),
            _ => {
                return None;
            },
        };
        let columns = match doc.get("columns") {
            Some(Json::Array(items)) => match read_columns(items) {
                Some(columns) => columns,
                None => {
                    return None;
                },
            },
            _ => {
                return None;
            },
        };
        let values = match doc.get("values") {
            Some(Json::Array(items)) => match read_rows(items) {
                Some(rows) => rows,
                None => {
                    return None;
                },
            },
            _ => {
                return None;
            },
        };
        Some(Series { name: name, columns: columns, values: values })
    }
}

/// The result of one statement of a query.
#[derive(Debug)]
pub struct QueryResult {
    /// The series that the statement selected; none where the answer names
    /// none.
    pub series: Vec<Series>,
    /// What the database says went wrong with the statement, if anything.
    pub error: Option<String>,
    /// The place of the statement in the query, counted from zero.
    pub statement_id: usize,
}

/// What a [`QueryResult`] holds.
pub struct QueryResultView {
    pub series: Seq<SeriesView>,
    pub error: Option<Seq<char>>,
    pub statement_id: usize,
}

/// The views of a list of series.
pub open spec fn series_views(series: Seq<Series>) -> Seq<SeriesView> {
    Seq::new(series.len(), |i: int| series[i]@)
}

impl View for QueryResult {
    type V = QueryResultView;

    open spec fn view(&self) -> QueryResultView {
        QueryResultView {
            series: series_views(self.series@),
            error: match self.error {
                Some(message) => Some(message@),
                None => None,
            },
            statement_id: self.statement_id,
        }
    }
}

/// The series of a list of documents: nothing where an item is no series.
pub open spec fn all_series_of(items: Seq<JsonView>) -> Option<Seq<SeriesView>> {
    if forall|i: int| 0 <= i < items.len() ==> (#[trigger] series_of(items[i])) is Some {
        Some(Seq::new(items.len(), |i: int| series_of(items[i]).unwrap()))
    } else {
        None
    }
}

/// The series of a result: those of the member `series`, which must be an
/// array of series; none where the result has no such member.
pub open spec fn result_series(doc: JsonView) -> Option<Seq<SeriesView>> {
    match member(doc, "series"@) {
        None => Some(Seq::empty()),
        Some(JsonView::Array(items)) => all_series_of(items),
        Some(_) => None,
    }
}

/// The error of a result: the text of the member `error`; none where the
/// result has no such member, or `null` for it. Any other value is a fault.
pub open spec fn result_error(doc: JsonView) -> Option<Option<Seq<char>>> {
    match member(doc, "error"@) {
        None => Some(None),
        Some(JsonView::Null) => Some(None),
        Some(JsonView::Text(message)) => Some(Some(message)),
        Some(_) => None,
    }
}

/// The result that a document holds: an object with the member
/// `statement_id`, an index, and the optional members `series` and `error`.
pub open spec fn result_of(doc: JsonView) -> Option<QueryResultView> {
    match member(doc, "statement_id"@) {
        Some(id) => match (index_of(id), result_series(doc), result_error(doc)) {
            (Some(statement_id), Some(series), Some(error)) => Some(
                QueryResultView { series: series, error: error, statement_id: statement_id },
            ),
            _ => None,
        },
        None => None,
    }
}

/// Reads a list of series: every item must be one.
fn read_series(items: &Vec<Json>) -> (read: Option<Vec<Series>>)
    ensures
        read matches Some(series) ==> all_series_of(Json::Array(*items)@->Array_0) == Some(
            series_views(series@),
        ),
        read is None ==> all_series_of(Json::Array(*items)@->Array_0) is None,
{
    proof {
        lemma_array_view(*items);
    }
    let ghost views = Json::Array(*items)@->Array_0;
    let mut series: Vec<Series> = Vec::new();
    let mut i: usize = 0;
    while i < items.len()
        invariant
            i <= items@.len(),
            views == Json::Array(*items)@->Array_0,
            views.len() == items@.len(),
            forall|k: int| 0 <= k < views.len() ==> #[trigger] views[k] == items@[k]@,
            series@.len() == i,
            forall|k: int| 0 <= k < i ==> #[trigger] series_of(views[k]) == Some(series@[k]@),
        decreases items@.len() - i,
    {
        match Series::from_json(&items[i]) {
            Some(one) => {
                series.push(one);
            },
            None => {
                assert(series_of(views[i as int]) is None);
                return None;
            },
        }
        i = i + 1;
    }
    proof {
        assert(all_series_of(views)->0 =~= series_views(series@));
    }
    Some(series)
}

impl QueryResult {
    /// Reads a result from a document.
    pub fn from_json(doc: &Json) -> (read: Option<QueryResult>)
        ensures
            read matches Some(result) ==> result_of(doc@) == Some(result@),
            read is None ==> result_of(doc@) is None,
    {
        let statement_id = match doc.get("statement_id") {
            Some(Json::Number(text)) => match parse_index(text.as_str()) {
                Some(index) => index,
                None => {
                    return None;
                },
            },
            _ => {
                return None;
            },
        };
        let series = match doc.get("series") {
            None => Vec::new(),
            Some(Json::Array(items)) => match read_series(items) {
                Some(series) => series,
                None => {
                    return None;
                },
            },
            Some(_) => {
                return None;
            },
        };
        let error = match doc.get("error") {
            None => None,
            Some(Json::Null) => None,
            Some(Json::Text(message)) => Some(message.clone()),
            Some(_) => {
                return None;
            },
        };
        proof {
            assert(result_series(doc@)->0 =~= series_views(series@));
        }
        Some(QueryResult { series: series, error: error, statement_id: statement_id })
    }
}

/// The answer to a query: one result for each statement that ran.
#[derive(Debug)]
pub struct QueryResponse {
    pub results: Vec<QueryResult>,
}

/// What a [`QueryResponse`] holds.
pub struct QueryResponseView {
    pub results: Seq<QueryResultView>,
}

/// The views of a list of results.
pub open spec fn result_views(results: Seq<QueryResult>) -> Seq<QueryResultView> {
    Seq::new(results.len(), |i: int| results[i]@)
}

impl View for QueryResponse {
    type V = QueryResponseView;

    open spec fn view(&self) -> QueryResponseView {
        QueryResponseView { results: result_views(self.results@) }
    }
}

/// The results of a list of documents: nothing where an item is no result.
pub open spec fn all_results_of(items: Seq<JsonView>) -> Option<Seq<QueryResultView>> {
    if forall|i: int| 0 <= i < items.len() ==> (#[trigger] result_of(items[i])) is Some {
        Some(Seq::new(items.len(), |i: int| result_of(items[i]).unwrap()))
    } else {
        None
    }
}

/// The answer that a document holds: an object with the member `results`,
/// an array of results.
///
/// What is accepted: every level must be an object with its members under
/// their names, so an answer, a result or a series written as an array of
/// its members' values is refused. Members of other names are passed over.
/// Of a key that a parsed body repeats the parser keeps the last value, and
/// that is the value read; in a document built by hand, the first member of
/// a name is the member.
pub open spec fn response_of(doc: JsonView) -> Option<QueryResponseView> {
    match member(doc, "results"@) {
        Some(JsonView::Array(items)) => match all_results_of(items) {
            Some(results) => Some(QueryResponseView { results: results }),
            None => None,
        },
        _ => None,
    }
}

impl QueryResponse {
    /// Reads the answer to a query from a document.
    pub fn from_json(doc: &Json) -> (read: Option<QueryResponse>)
        ensures
            read matches Some(response) ==> response_of(doc@) == Some(response@),
            read is None ==> response_of(doc@) is None,
    {
        let items = match doc.get("results") {
            Some(Json::Array(items)) => items,
            _ => {
                return None;
            },
        };
        proof {
            lemma_array_view(*items);
        }
        let ghost views = Json::Array(*items)@->Array_0;
        let mut results: Vec<QueryResult> = Vec::new();
        let mut i: usize = 0;
        while i < items.len()
            invariant
                i <= items@.len(),
                member(doc@, "results"@) == Some(JsonView::Array(views)),
                views.len() == items@.len(),
                forall|k: int| 0 <= k < views.len() ==> #[trigger] views[k] == items@[k]@,
                results@.len() == i,
                forall|k: int| 0 <= k < i ==> #[trigger] result_of(views[k]) == Some(results@[k]@),
            decreases items@.len() - i,
        {
            match QueryResult::from_json(&items[i]) {
                Some(one) => {
                    results.push(one);
                },
                None => {
                    assert(result_of(views[i as int]) is None);
                    return None;
                },
            }
            i = i + 1;
        }
        proof {
            assert(all_results_of(views)->0 =~= result_views(results@));
        }
        Some(QueryResponse { results: results })
    }
}

} // verus!
