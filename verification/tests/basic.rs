use std::time::SystemTime;

use influxdb::attribute::{AttrItem, Attribute};
use influxdb::classify::{impl_measurement, Classification};
use influxdb::declaration::{Body, DeriveInput, StructField};
use influxdb::json::Json;
use influxdb::measurement::{payload_of, Timestamp};
use influxdb::record::{MemberValue, Record, Scalar};
use influxdb::transport::{query_outcome, write_outcome, Exchange};
use influxdb::{AsyncDb, QueryResponse};

const HTTP_BASE_URL: &'static str = "http://localhost:8086/";

/// Stands in for the database: it keeps what was written to it, and answers
/// a query with the body it was told to give.
struct TestingDb {
    name: String,
    written: Vec<String>,
}

impl TestingDb {
    fn new(name: &str) -> TestingDb {
        TestingDb { name: name.to_string(), written: Vec::new() }
    }

    /// Takes a write as the database does: any body is accepted.
    fn write(&mut self, db: &AsyncDb, body: String) {
        let request = db.add_data(body);
        assert_eq!(request.target, format!("http://localhost:8086/write?db={}", self.name));
        self.written.push(request.body);
        write_outcome(Exchange::Answered { status: 204, body: Vec::new() }).unwrap();
    }

    /// Answers a query with the given status and body.
    fn query(&self, db: &AsyncDb, query: &str, status: u16, body: &str) -> QueryResponse {
        let request = db.query(query).unwrap();
        assert_eq!(
            request.target,
            format!("http://localhost:8086/query?db={}&q={}", self.name, query)
        );
        query_outcome(Exchange::Answered { status, body: body.as_bytes().to_vec() }).unwrap()
    }
}

fn as_f64(value: &Json) -> Option<f64> {
    value.as_number().and_then(|text| text.parse().ok())
}

const ONE_ROW: &'static str = r#"{"results":[{"statement_id":0,"series":[{"name":"cpu_load_short",
    "columns":["time","value","host"],
    "values":[["2015-06-11T20:46:02Z",0.64,"server01"]]}]}]}"#;

#[test]
fn query_asynchronously() {
    let mut db = TestingDb::new("influxdb_rs_0");
    let async_db = AsyncDb::new(HTTP_BASE_URL, &db.name).unwrap();

    db.write(
        &async_db,
        String::from("cpu_load_short,host=server01,region=us-west value=0.64 1434055562000000000"),
    );

    let response = db.query(
        &async_db,
        r#"SELECT "value","host" FROM "cpu_load_short" WHERE "region"='us-west'"#,
        200,
        ONE_ROW,
    );

    assert_eq!(response.results[0].series[0].name, "cpu_load_short");
    assert_eq!(as_f64(&response.results[0].series[0].values[0][1]), Some(0.64));
    assert_eq!(response.results[0].series[0].values[0][2].as_str(), Some("server01"));
}

#[test]
fn add_data_asynchronously() {
    let mut db = TestingDb::new("influxdb_rs_1");
    let async_db = AsyncDb::new(HTTP_BASE_URL, &db.name).unwrap();

    db.write(
        &async_db,
        String::from("cpu_load_short,host=server01,region=us-west value=0.64 1434055562000000000"),
    );
    assert_eq!(
        db.written,
        vec!["cpu_load_short,host=server01,region=us-west value=0.64 1434055562000000000"]
    );

    let response: QueryResponse = db.query(
        &async_db,
        r#"SELECT "value","host" FROM "cpu_load_short" WHERE "region"='us-west'"#,
        200,
        ONE_ROW,
    );

    assert_eq!(response.results[0].error, None);
    assert_eq!(response.results[0].series[0].name, "cpu_load_short");
    assert_eq!(as_f64(&response.results[0].series[0].values[0][1]), Some(0.64));
    assert_eq!(response.results[0].series[0].values[0][2].as_str(), Some("server01"));
}

#[test]
fn add_batched_data_asynchronously() {
    let mut db = TestingDb::new("influxdb_rs_2");
    let async_db = AsyncDb::new(HTTP_BASE_URL, &db.name).unwrap();

    let batch = r#"
cpu_load_short,host=server01,region=us-west value=0.64 1434055562000000000
cpu_load_short,host=server02,region=us-east value=0.23
cpu_load_short,host=server03,region=us-west value=0.01 1434055587000000000
rpm,host=server01,region=us-west value=1434"#;
    db.write(&async_db, String::from(batch));
    assert_eq!(db.written, vec![batch]);

    let response: QueryResponse = db.query(
        &async_db,
        r#"SELECT "value", "host" FROM "cpu_load_short""#,
        200,
        r#"{"results":[{"statement_id":0,"series":[{"name":"cpu_load_short",
            "columns":["time","value","host"],
            "values":[["2015-06-11T20:46:02Z",0.64,"server01"],
                      ["2015-06-11T20:46:27Z",0.01,"server03"],
                      ["2017-03-01T00:00:00Z",0.23,"server02"]]}]}]}"#,
    );

    assert_eq!(response.results[0].error, None);
    assert_eq!(response.results[0].series[0].name, "cpu_load_short");
    assert_eq!(response.results[0].series[0].values.len(), 3);
    assert_eq!(as_f64(&response.results[0].series[0].values[0][1]), Some(0.64));
    assert_eq!(response.results[0].series[0].values[0][2].as_str(), Some("server01"));
}

#[test]
fn query_nonexistent_db() {
    let db = TestingDb::new("does_not_exist");
    let async_db = AsyncDb::new(HTTP_BASE_URL, "does_not_exist").unwrap();

    let response = db.query(
        &async_db,
        r#"SELECT "value","host" FROM "cpu_load_short" WHERE "region"='us-west'"#,
        200,
        r#"{"results":[{"statement_id":0,"error":"database not found: does_not_exist"}]}"#,
    );

    assert_eq!(
        response.results[0].error,
        Some(String::from("database not found: does_not_exist"))
    );
}

#[test]
fn multiple_queries() {
    let mut db = TestingDb::new("influxdb_rs_3");
    let async_db = AsyncDb::new(HTTP_BASE_URL, &db.name).unwrap();

    db.write(
        &async_db,
        String::from("cpu_load_short,host=server01,region=us-west value=0.64 1434055562000000000"),
    );
    db.write(&async_db, String::from("cpu_load_short,host=server02,region=us-west value=0.8"));
    db.write(&async_db, String::from("cpu_load_short,host=server01,region=us-west value=0.4"));

    let mut response = db.query(
        &async_db,
        r#"SELECT "value","host" FROM "cpu_load_short" WHERE "region"='us-west'; SELECT "value" FROM "cpu_load_short" WHERE "host"='server01'"#,
        200,
        r#"{"results":[
            {"statement_id":1,"series":[{"name":"cpu_load_short","columns":["time","value"],
                "values":[["2015-06-11T20:46:02Z",0.64],["2017-03-01T00:00:00Z",0.4]]}]},
            {"statement_id":0,"series":[{"name":"cpu_load_short","columns":["time","value","host"],
                "values":[["2015-06-11T20:46:02Z",0.64,"server01"],
                          ["2017-03-01T00:00:00Z",0.8,"server02"],
                          ["2017-03-01T00:00:01Z",0.4,"server01"]]}]}]}"#,
    );

    response.results.sort_by_key(|k| k.statement_id);

    assert_eq!(response.results[0].statement_id, 0);
    assert_eq!(response.results[0].series[0].name, "cpu_load_short");
    assert_eq!(as_f64(&response.results[0].series[0].values[0][1]), Some(0.64));
    assert_eq!(response.results[0].series[0].values[0][2].as_str(), Some("server01"));

    assert_eq!(response.results[1].statement_id, 1);
    assert_eq!(response.results[1].series[0].name, "cpu_load_short");
    assert_eq!(as_f64(&response.results[1].series[0].values[0][1]), Some(0.64));
    assert_eq!(as_f64(&response.results[1].series[0].values[1][1]), Some(0.4));
}

#[test]
fn multiple_queries_to_nonexistent_database() {
    let db = TestingDb::new("does_not_exist");
    let async_db = AsyncDb::new(HTTP_BASE_URL, "does_not_exist").unwrap();

    let response = db.query(
        &async_db,
        r#"SELECT "value","host" FROM "cpu_load_short" WHERE "region"='us-west'; SELECT "value" FROM "cpu_load_short" WHERE "host"='server01'"#,
        200,
        r#"{"results":[{"statement_id":0,"error":"not executed"}]}"#,
    );

    assert_eq!(response.results.len(), 1);
    assert_eq!(response.results[0].statement_id, 0);
    assert_eq!(response.results[0].series.len(), 0);
    assert_eq!(response.results[0].error, Some(String::from("not executed")));
}

struct CpuLoadShort {
    hostname: &'static str,
    region: &'static str,
    value: f64,
    when: SystemTime,
}

fn influx(items: Vec<AttrItem>) -> Attribute {
    Attribute::List(String::from("influx"), items)
}

fn word(w: &str) -> AttrItem {
    AttrItem::Word(String::from(w))
}

fn member(name: &str, attrs: Vec<Attribute>) -> StructField {
    StructField { ident: Some(String::from(name)), attrs }
}

impl CpuLoadShort {
    fn classification() -> Classification {
        let rename = |to: &str| AttrItem::NameValue(String::from("rename"), String::from(to));
        let input = DeriveInput {
            ident: String::from("CpuLoadShort"),
            attrs: vec![influx(vec![rename("cpu_load_short")])],
            body: Body::Struct(vec![
                // Multiple attributes
                member("hostname", vec![influx(vec![word("tag")]), influx(vec![rename("host")])]),
                // Multiple values in one attribute
                member("region", vec![influx(vec![word("tag"), word("field")])]),
                member("value", vec![influx(vec![word("field")])]),
                member("when", vec![influx(vec![word("timestamp")])]),
            ]),
        };
        impl_measurement(&input).unwrap()
    }

    fn to_record(&self) -> Record {
        let text = |s: &str| MemberValue::Scalar(Scalar::Text(String::from(s)));
        Record::new(vec![
            (String::from("hostname"), text(self.hostname)),
            (String::from("region"), text(self.region)),
            (String::from("value"), MemberValue::Scalar(Scalar::Float(format!("{}", self.value)))),
            (String::from("when"), MemberValue::Instant(Timestamp::new(&self.when).unwrap())),
        ])
    }
}

#[test]
fn typed_insert() {
    let item = CpuLoadShort {
        hostname: "server03",
        region: "us-west",
        value: 0.78,
        when: SystemTime::now(),
    };

    let mut db = TestingDb::new("influxdb_rs_4");
    let async_db = AsyncDb::new(HTTP_BASE_URL, &db.name).unwrap();

    let classification = CpuLoadShort::classification();
    let record = item.to_record();
    db.write(&async_db, payload_of(classification.bind(&record).unwrap()));
    assert_eq!(db.written.len(), 1);
    assert!(db.written[0]
        .starts_with("cpu_load_short,host=server03,region=us-west region=\"us-west\",value=0.78 1"));

    let response: QueryResponse = db.query(
        &async_db,
        r#"SELECT "value", "host" FROM "cpu_load_short""#,
        200,
        r#"{"results":[{"statement_id":0,"series":[{"name":"cpu_load_short",
            "columns":["time","value","host"],
            "values":[["2017-03-01T00:00:00Z",0.78,"server03"]]}]}]}"#,
    );

    assert_eq!(response.results[0].error, None);
    assert_eq!(response.results[0].series[0].name, "cpu_load_short");
    assert_eq!(response.results[0].series[0].values.len(), 1);
    assert_eq!(as_f64(&response.results[0].series[0].values[0][1]), Some(0.78));
    assert_eq!(response.results[0].series[0].values[0][2].as_str(), Some("server03"));
}

#[test]
fn batched_typed_insert() {
    let items = vec![
        CpuLoadShort {
            hostname: "server03",
            region: "us-west",
            value: 0.78,
            when: SystemTime::now(),
        },
        CpuLoadShort {
            hostname: "server07",
            region: "us-east",
            value: 0.32,
            when: SystemTime::now(),
        },
        CpuLoadShort {
            hostname: "server05",
            region: "us-west",
            value: 0.55,
            when: SystemTime::now(),
        },
    ];

    let mut db = TestingDb::new("influxdb_rs_5");
    let async_db = AsyncDb::new(HTTP_BASE_URL, &db.name).unwrap();

    let classification = CpuLoadShort::classification();
    let records: Vec<Record> = items.iter().map(CpuLoadShort::to_record).collect();
    let batch: Vec<_> = records.iter().map(|r| classification.bind(r).unwrap()).collect();
    db.write(&async_db, payload_of(&batch));
    let lines: Vec<&str> = db.written[0].lines().collect();
    assert_eq!(lines.len(), 3);
    assert!(lines[0].starts_with("cpu_load_short,host=server03,region=us-west "));
    assert!(lines[1].starts_with("cpu_load_short,host=server07,region=us-east "));
    assert!(lines[2].starts_with("cpu_load_short,host=server05,region=us-west "));

    let response: QueryResponse = db.query(
        &async_db,
        r#"SELECT "value", "host" FROM "cpu_load_short""#,
        200,
        r#"{"results":[{"statement_id":0,"series":[{"name":"cpu_load_short",
            "columns":["time","value","host"],
            "values":[["2017-03-01T00:00:00Z",0.78,"server03"],
                      ["2017-03-01T00:00:01Z",0.32,"server07"],
                      ["2017-03-01T00:00:02Z",0.55,"server05"]]}]}]}"#,
    );

    assert_eq!(response.results[0].error, None);
    assert_eq!(response.results[0].series[0].name, "cpu_load_short");
    assert_eq!(response.results[0].series[0].values.len(), 3);
    assert_eq!(as_f64(&response.results[0].series[0].values[0][1]), Some(0.78));
    assert_eq!(response.results[0].series[0].values[0][2].as_str(), Some("server03"));
}
