use influxdb::json::Json;
use influxdb::response::{parse_index, InfluxServerError, QueryResponse, QueryResult, Series};
use influxdb::transport::{
    answer, check_response_code, extend_body, is_success, join_address, query_endpoint, query_outcome,
    query_target, rejection, response_to_json, write_endpoint, write_outcome, AsyncDb,
    DecodeError, Exchange, InfluxError, Method,
};

fn answered(status: u16, body: &str) -> Exchange {
    Exchange::Answered { status, body: body.as_bytes().to_vec() }
}

#[test]
fn endpoint_texts_are_assembled_exactly() {
    assert_eq!(query_endpoint("http://h:1"), "http://h:1/query");
    assert_eq!(write_endpoint("http://h:1", "db0"), "http://h:1/write?db=db0");
    assert_eq!(
        query_target("http://h:1/query", "db0", "SELECT 1"),
        "http://h:1/query?db=db0&q=SELECT 1"
    );
}

#[test]
fn base_and_path_are_joined_by_one_slash() {
    assert_eq!(join_address("http://h:1", "query"), "http://h:1/query");
    assert_eq!(join_address("http://h:1/", "query"), "http://h:1/query");
    assert_eq!(join_address("http://h:1/influx", "query"), "http://h:1/influx/query");
    assert_eq!(join_address("http://h:1/influx/", "write?db=d"), "http://h:1/influx/write?db=d");
    assert_eq!(join_address("", "query"), "/query");
    assert_eq!(join_address("/", ""), "/");
    assert_eq!(query_endpoint("http://h:1/"), "http://h:1/query");
    assert_eq!(write_endpoint("http://h:1/", "db0"), "http://h:1/write?db=db0");
}

#[test]
fn endpoints_have_one_slash_whatever_the_base_ends_with() {
    for base in ["http://localhost:8086", "http://localhost:8086/"] {
        let db = AsyncDb::new(base, "d").unwrap();
        assert_eq!(db.add_data("a v=1i").target, "http://localhost:8086/write?db=d");
        assert_eq!(db.query("q").unwrap().target, "http://localhost:8086/query?db=d&q=q");
    }
    let db = AsyncDb::new("http://localhost:8086/influx", "d").unwrap();
    assert_eq!(db.add_data("a v=1i").target, "http://localhost:8086/influx/write?db=d");
}

#[test]
fn a_base_is_taken_as_the_parser_writes_it_back() {
    // An absolute address without a path is given one, before what follows.
    let db = AsyncDb::new("http://h?x=1", "d").unwrap();
    assert_eq!(db.add_data("a v=1i").target, "http://h/?x=1/write?db=d");
}

#[test]
fn a_base_without_path_gets_one() {
    let db = AsyncDb::new("http://localhost:8086", "my_database").unwrap();
    assert_eq!(db.database(), "my_database");
    let write = db.add_data("cpu_load_short,host=server01 value=0.64 1434055562000000000");
    assert_eq!(write.method, Method::Post);
    assert_eq!(write.target, "http://localhost:8086/write?db=my_database");
    assert_eq!(write.body, "cpu_load_short,host=server01 value=0.64 1434055562000000000");
    let query = db.query("SELECT 1").unwrap();
    assert_eq!(query.method, Method::Get);
    assert_eq!(query.body, "");
    assert_eq!(query.target, "http://localhost:8086/query?db=my_database&q=SELECT 1");
}

#[test]
fn a_malformed_base_is_refused() {
    assert!(matches!(AsyncDb::new("", "db"), Err(InfluxError::Url(_))));
    assert!(matches!(AsyncDb::new("http://", "db"), Err(InfluxError::Url(_))));
    assert!(matches!(AsyncDb::new("a/b", "db"), Err(InfluxError::Url(_))));
}

#[test]
fn a_batch_is_one_body() {
    let db = AsyncDb::new("http://localhost:8086/", "d").unwrap();
    let request = db.add_data(vec!["a v=1i", "b v=2i"]);
    assert_eq!(request.body, "a v=1i\nb v=2i\n");
}

#[test]
fn success_is_the_two_hundreds() {
    assert!(!is_success(199));
    assert!(is_success(200));
    assert!(is_success(204));
    assert!(is_success(299));
    assert!(!is_success(300));
    assert!(!is_success(400));
}

#[test]
fn a_refused_write_carries_the_database_message() {
    match write_outcome(answered(400, r#"{"error":"parse error"}"#)) {
        Err(InfluxError::BadRequest(what)) => assert_eq!(what, "parse error"),
        other => panic!("unexpected outcome: {:?}", other),
    }
}

#[test]
fn an_accepted_write_is_unit() {
    assert!(matches!(write_outcome(answered(204, "")), Ok(())));
    assert!(matches!(check_response_code(200, b"not json"), Ok(())));
}

#[test]
fn a_refusal_that_cannot_be_read_is_a_decode_fault() {
    assert!(matches!(
        write_outcome(answered(500, "<html>")),
        Err(InfluxError::Serde(DecodeError::Syntax(_)))
    ));
    assert!(matches!(
        write_outcome(answered(500, r#"{"message":"x"}"#)),
        Err(InfluxError::Serde(DecodeError::Shape))
    ));
    assert!(matches!(
        write_outcome(answered(404, r#"{"error":5}"#)),
        Err(InfluxError::Serde(DecodeError::Shape))
    ));
}

#[test]
fn a_result_with_an_error_text_is_decoded() {
    let body = r#"{"results":[{"statement_id":0,"series":[],"error":"database not found: x"}]}"#;
    let response: QueryResponse = query_outcome(answered(200, body)).unwrap();
    assert_eq!(response.results.len(), 1);
    let result: &QueryResult = &response.results[0];
    assert_eq!(result.statement_id, 0);
    assert!(result.series.is_empty());
    assert_eq!(result.error, Some(String::from("database not found: x")));
}

#[test]
fn series_are_decoded_with_their_rows() {
    let body = br#"{"results":[{"statement_id":1,"series":[{"name":"cpu_load_short",
        "columns":["time","value","host"],
        "values":[["2015-06-11T20:46:02Z",0.64,"server01"],["2015-06-11T20:46:03Z",-3,null]]}]}]}"#;
    let response = response_to_json(body).unwrap();
    let result = &response.results[0];
    assert_eq!(result.statement_id, 1);
    assert_eq!(result.error, None);
    let series: &Series = &result.series[0];
    assert_eq!(series.name, "cpu_load_short");
    assert_eq!(series.columns, vec!["time", "value", "host"]);
    assert_eq!(series.values.len(), 2);
    assert!(matches!(&series.values[0][1], Json::Number(n) if n == "0.64"));
    assert!(matches!(&series.values[0][2], Json::Text(s) if s == "server01"));
    assert!(matches!(&series.values[1][1], Json::Number(n) if n == "-3"));
    assert!(matches!(&series.values[1][2], Json::Null));
}

#[test]
fn absent_series_and_null_error_are_defaults() {
    let response = response_to_json(br#"{"results":[{"statement_id":3,"error":null}],"extra":true}"#)
        .unwrap();
    assert!(response.results[0].series.is_empty());
    assert_eq!(response.results[0].error, None);
    assert_eq!(response.results[0].statement_id, 3);
}

#[test]
fn an_answer_of_another_shape_is_a_decode_fault() {
    for body in [
        r#"{"results":{}}"#,
        r#"[1,2]"#,
        r#"{"results":[{"series":[]}]}"#,
        r#"{"results":[{"statement_id":-1}]}"#,
        r#"{"results":[{"statement_id":1.5}]}"#,
        r#"{"results":[{"statement_id":0,"series":null}]}"#,
        r#"{"results":[{"statement_id":0,"error":7}]}"#,
        r#"{"results":[{"statement_id":0,"series":[{"name":"a","columns":[1],"values":[]}]}]}"#,
        r#"{"results":[{"statement_id":0,"series":[{"name":"a","columns":[],"values":[1]}]}]}"#,
    ] {
        assert!(
            matches!(
                query_outcome(answered(200, body)),
                Err(InfluxError::Serde(DecodeError::Shape))
            ),
            "{}",
            body
        );
    }
    assert!(matches!(
        query_outcome(answered(200, "{")),
        Err(InfluxError::Serde(DecodeError::Syntax(_)))
    ));
}

#[test]
fn a_refused_query_is_the_database_message_not_an_answer() {
    let body = r#"{"error":"database not found: does_not_exist"}"#;
    match query_outcome(answered(404, body)) {
        Err(InfluxError::BadRequest(what)) => assert_eq!(what, "database not found: does_not_exist"),
        other => panic!("unexpected outcome: {:?}", other),
    }
}

#[test]
fn documents_are_read_member_by_member() {
    let doc = Json::Object(vec![
        ("error".to_string(), Json::Text("first".to_string())),
        ("error".to_string(), Json::Text("second".to_string())),
    ]);
    assert_eq!(InfluxServerError::from_json(&doc).unwrap().error, "first");
    assert!(matches!(rejection(&doc), InfluxError::BadRequest(m) if m == "first"));
    assert!(matches!(rejection(&Json::Null), InfluxError::Serde(DecodeError::Shape)));
    assert!(matches!(answer(&Json::Array(vec![])), Err(InfluxError::Serde(DecodeError::Shape))));
    let empty = Json::Object(vec![("results".to_string(), Json::Array(vec![]))]);
    assert!(answer(&empty).unwrap().results.is_empty());
}

#[test]
fn indices_are_decimal_digits_that_fit() {
    assert_eq!(parse_index("0"), Some(0));
    assert_eq!(parse_index("42"), Some(42));
    assert_eq!(parse_index("007"), Some(7));
    assert_eq!(parse_index(""), None);
    assert_eq!(parse_index("-1"), None);
    assert_eq!(parse_index("1.0"), None);
    assert_eq!(parse_index("12a"), None);
    assert_eq!(parse_index(&usize::MAX.to_string()), Some(usize::MAX));
    assert_eq!(parse_index("340282366920938463463374607431768211456"), None);
}

#[test]
fn a_body_grows_chunk_by_chunk() {
    let mut body = Vec::new();
    extend_body(&mut body, b"{\"err");
    extend_body(&mut body, b"");
    extend_body(&mut body, b"or\":\"x\"}");
    assert_eq!(body, b"{\"error\":\"x\"}");
    assert!(matches!(check_response_code(400, &body), Err(InfluxError::BadRequest(m)) if m == "x"));
}

#[test]
fn a_copy_of_a_document_is_equal_member_by_member() {
    let doc = Json::Object(vec![
        ("a".to_string(), Json::Array(vec![Json::Bool(true), Json::Number("1".to_string())])),
        ("b".to_string(), Json::Null),
    ]);
    assert_eq!(format!("{:?}", doc.duplicate()), format!("{:?}", doc));
    assert!(doc.get("c").is_none());
    assert!(matches!(doc.get("b"), Some(Json::Null)));
    assert!(Json::Null.get("a").is_none());
}

#[test]
fn a_failure_on_the_wire_comes_before_the_status() {
    assert!(matches!(
        write_outcome(Exchange::Failed(hyper::Error::Timeout)),
        Err(InfluxError::Hyper(hyper::Error::Timeout))
    ));
    assert!(matches!(
        query_outcome(Exchange::Failed(hyper::Error::Incomplete)),
        Err(InfluxError::Hyper(hyper::Error::Incomplete))
    ));
}

#[test]
fn rows_are_not_measured_against_columns_unless_asked() {
    let body = br#"{"results":[{"statement_id":0,"series":[
        {"name":"a","columns":["time","value"],"values":[[1,2],[3]]},
        {"name":"b","columns":["time"],"values":[[1],[2]]},
        {"name":"c","columns":[],"values":[]}]}]}"#;
    let response = response_to_json(body).unwrap();
    let series = &response.results[0].series;
    assert!(!series[0].is_aligned());
    assert!(series[1].is_aligned());
    assert!(series[2].is_aligned());
}
