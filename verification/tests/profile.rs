use floyd::profile::{
    report_of, Branch, CoverageReport, ParseError, RawData, RawExport, RawFunction,
};
use serde_json::Value;

fn missing(field: &str) -> ParseError {
    ParseError::json(&format!("missing field `{field}`"))
}

fn wrong(field: &str) -> ParseError {
    ParseError::json(&format!("invalid type in `{field}`"))
}

fn list<'a>(v: &'a Value, field: &str) -> Result<Vec<&'a Value>, ParseError> {
    match v.get(field) {
        None => Ok(Vec::new()),
        Some(Value::Array(a)) => Ok(a.iter().collect()),
        Some(_) => Err(wrong(field)),
    }
}

fn raw_function(v: &Value) -> Result<RawFunction, ParseError> {
    let name = match v.get("name") {
        Some(n) => n.as_str().ok_or_else(|| wrong("name"))?.to_string(),
        None => return Err(missing("name")),
    };
    let count = match v.get("count") {
        Some(n) => n.as_u64().ok_or_else(|| wrong("count"))?,
        None => 0,
    };
    let mut filenames = Vec::new();
    for f in list(v, "filenames")? {
        filenames.push(f.as_str().ok_or_else(|| wrong("filenames"))?.to_string());
    }
    let mut branches = Vec::new();
    for region in list(v, "branches")? {
        let mut numbers = Vec::new();
        for n in region.as_array().ok_or_else(|| wrong("branches"))? {
            numbers.push(n.as_i64().ok_or_else(|| wrong("branches"))?);
        }
        branches.push(numbers);
    }
    Ok(RawFunction { name, count, filenames, branches })
}

fn parse(json: &str) -> Result<CoverageReport, ParseError> {
    let value: Value =
        serde_json::from_str(json).map_err(|e| ParseError::json(&e.to_string()))?;
    if value.get("data").is_none() {
        return Err(missing("data"));
    }
    let mut data = Vec::new();
    for entry in list(&value, "data")? {
        let mut functions = Vec::new();
        for f in list(entry, "functions")? {
            functions.push(raw_function(f)?);
        }
        data.push(RawData { functions });
    }
    Ok(report_of(&RawExport { data }))
}

const SAMPLE_EXPORT: &str = r#"
    {
      "data": [
        {
          "files": [],
          "functions": [
            {
              "name": "_RNvCsb6BSQ92hH2b_19floyd_runtime_scout6decide",
              "count": 2,
              "filenames": ["/tmp/floyd-runtime-scout/src/lib.rs"],
              "regions": [[1, 1, 1, 40, 2, 0, 0, 0]],
              "branches": [
                [2, 5, 2, 6, 1, 1, 0, 0, 4],
                [2, 10, 2, 11, 1, 0, 0, 0, 4]
              ],
              "mcdc_records": []
            }
          ],
          "totals": {}
        }
      ],
      "type": "llvm.coverage.json.export",
      "version": "2.0.1"
    }
    "#;

#[test]
fn parses_one_function() {
    let r = parse(SAMPLE_EXPORT).expect("parses");
    assert_eq!(r.functions.len(), 1);
    let f = &r.functions[0];
    assert!(f.name.ends_with("6decide"));
    assert_eq!(f.count, 2);
    assert_eq!(f.filenames, vec!["/tmp/floyd-runtime-scout/src/lib.rs"]);
}

#[test]
fn parses_two_branches_for_decide() {
    let r = parse(SAMPLE_EXPORT).expect("parses");
    let f = &r.functions[0];
    assert_eq!(f.branches.len(), 2);

    let b_a = &f.branches[0];
    assert_eq!(b_a.span.start_line, 2);
    assert_eq!(b_a.span.start_col, 5);
    assert_eq!(b_a.span.end_line, 2);
    assert_eq!(b_a.span.end_col, 6);
    assert_eq!(b_a.true_count, 1);
    assert_eq!(b_a.false_count, 1);
    assert_eq!(b_a.kind, Branch::KIND_BRANCH);

    let b_b = &f.branches[1];
    assert_eq!(b_b.span.start_line, 2);
    assert_eq!(b_b.span.start_col, 10);
    assert_eq!(b_b.span.end_line, 2);
    assert_eq!(b_b.span.end_col, 11);
    assert_eq!(b_b.true_count, 1);
    assert_eq!(b_b.false_count, 0);
}

#[test]
fn span_file_resolves_via_filenames_array() {
    let r = parse(SAMPLE_EXPORT).expect("parses");
    let f = &r.functions[0];
    for b in &f.branches {
        assert_eq!(b.span.file, "/tmp/floyd-runtime-scout/src/lib.rs");
    }
}

#[test]
fn filters_non_branch_kinds() {
    let json = r#"
        {
          "data": [{
            "functions": [{
              "name": "f",
              "count": 1,
              "filenames": ["x.rs"],
              "regions": [],
              "branches": [
                [1, 1, 1, 2, 0, 0, 0, 0, 0],
                [1, 3, 1, 4, 1, 0, 0, 0, 4]
              ],
              "mcdc_records": []
            }]
          }],
          "type": "llvm.coverage.json.export",
          "version": "2.0.1"
        }
        "#;
    let r = parse(json).expect("parses");
    assert_eq!(r.functions[0].branches.len(), 1);
    assert_eq!(r.functions[0].branches[0].kind, Branch::KIND_BRANCH);
}

#[test]
fn empty_data_yields_empty_report() {
    let json = r#"{ "data": [], "type": "x", "version": "1" }"#;
    let r = parse(json).expect("parses");
    assert!(r.functions.is_empty());
}

#[test]
fn malformed_branch_array_is_dropped() {
    let json = r#"
        {
          "data": [{
            "functions": [{
              "name": "f",
              "count": 0,
              "filenames": ["x.rs"],
              "regions": [],
              "branches": [
                [1, 2],
                [1, 3, 1, 4, 1, 0, 0, 0, 4]
              ],
              "mcdc_records": []
            }]
          }],
          "type": "x",
          "version": "1"
        }
        "#;
    let r = parse(json).expect("parses");
    assert_eq!(r.functions[0].branches.len(), 1);
}

#[test]
fn invalid_json_returns_error() {
    let err = parse("{ not json").unwrap_err();
    assert!(err.to_string().contains("JSON"));
}

#[test]
fn documents_that_miss_the_schema_are_errors() {
    for json in [
        "[]",
        "{}",
        r#"{ "data": 1 }"#,
        r#"{ "data": [{ "functions": [{ "count": 1 }] }] }"#,
        r#"{ "data": [{ "functions": [{ "name": "f", "branches": [1] }] }] }"#,
    ] {
        let err = parse(json).unwrap_err();
        assert!(err.to_string().starts_with("coverage parse error: JSON: "), "{json}");
    }
}
