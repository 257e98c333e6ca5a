use floyd::correlate::correlate;
use floyd::mir;
use floyd::profile::{report_of, CoverageReport, ParseError, RawData, RawExport, RawFunction};
use serde_json::Value;

fn missing(field: &str) -> ParseError {
    ParseError::json(&format!("missing field `{field}`"))
}

fn wrong(field: &str) -> ParseError {
    ParseError::json(&format!("invalid type in `{field}`"))
}

fn list<'a>(v: &'a Value, field: &str) -> Result<Vec<&'a Value>, ParseError> {
    match v.get(field) {
        None => Ok(Vec::new()),
        Some(Value::Array(a)) => Ok(a.iter().collect()),
        Some(_) => Err(wrong(field)),
    }
}

fn raw_function(v: &Value) -> Result<RawFunction, ParseError> {
    let name = match v.get("name") {
        Some(n) => n.as_str().ok_or_else(|| wrong("name"))?.to_string(),
        None => return Err(missing("name")),
    };
    let count = match v.get("count") {
        Some(n) => n.as_u64().ok_or_else(|| wrong("count"))?,
        None => 0,
    };
    let mut filenames = Vec::new();
    for f in list(v, "filenames")? {
        filenames.push(f.as_str().ok_or_else(|| wrong("filenames"))?.to_string());
    }
    let mut branches = Vec::new();
    for region in list(v, "branches")? {
        let mut numbers = Vec::new();
        for n in region.as_array().ok_or_else(|| wrong("branches"))? {
            numbers.push(n.as_i64().ok_or_else(|| wrong("branches"))?);
        }
        branches.push(numbers);
    }
    Ok(RawFunction { name, count, filenames, branches })
}

fn parse(json: &str) -> Result<CoverageReport, ParseError> {
    let value: Value =
        serde_json::from_str(json).map_err(|e| ParseError::json(&e.to_string()))?;
    if value.get("data").is_none() {
        return Err(missing("data"));
    }
    let mut data = Vec::new();
    for entry in list(&value, "data")? {
        let mut functions = Vec::new();
        for f in list(entry, "functions")? {
            functions.push(raw_function(f)?);
        }
        data.push(RawData { functions });
    }
    Ok(report_of(&RawExport { data }))
}

const SPANNED_AND_MIR: &str = r#"
fn decide(_1: bool, _2: bool) -> bool {
    debug a => _1;                       // in scope 0 at /tmp/floyd-runtime-scout/src/lib.rs:1:15: 1:16
    debug b => _2;                       // in scope 0 at /tmp/floyd-runtime-scout/src/lib.rs:1:24: 1:25
    let mut _0: bool;                    // return place in scope 0 at /tmp/floyd-runtime-scout/src/lib.rs:1:36: 1:40

    bb0: {
        switchInt(copy _1) -> [0: bb2, otherwise: bb1]; // scope 0 at /tmp/floyd-runtime-scout/src/lib.rs:2:5: 2:6
    }

    bb1: {
        _0 = copy _2;                    // scope 0 at /tmp/floyd-runtime-scout/src/lib.rs:2:10: 2:11
        goto -> bb3;                     // scope 0 at /tmp/floyd-runtime-scout/src/lib.rs:2:5: 2:11
    }

    bb2: {
        _0 = const false;                // scope 0 at /tmp/floyd-runtime-scout/src/lib.rs:2:5: 2:11
        goto -> bb3;                     // scope 0 at /tmp/floyd-runtime-scout/src/lib.rs:2:5: 2:11
    }

    bb3: {
        return;                          // scope 0 at /tmp/floyd-runtime-scout/src/lib.rs:3:2: 3:2
    }
}
"#;

const COVERAGE_JSON: &str = r#"
    {
      "data": [
        {
          "files": [],
          "functions": [
            {
              "name": "_RNvCsb6BSQ92hH2b_19floyd_runtime_scout6decide",
              "count": 2,
              "filenames": ["/tmp/floyd-runtime-scout/src/lib.rs"],
              "regions": [[1, 1, 1, 40, 2, 0, 0, 0]],
              "branches": [
                [2, 5, 2, 6, 1, 1, 0, 0, 4],
                [2, 10, 2, 11, 1, 0, 0, 0, 4]
              ],
              "mcdc_records": []
            }
          ],
          "totals": {}
        }
      ],
      "type": "llvm.coverage.json.export",
      "version": "2.0.1"
    }
    "#;

#[test]
fn correlate_produces_one_function_entry() {
    let mir = mir::parse_text(SPANNED_AND_MIR).expect("MIR parses");
    let cov = parse(COVERAGE_JSON).expect("coverage parses");
    let map = correlate(&mir, &cov);
    assert_eq!(map.functions.len(), 1);
    assert_eq!(map.functions[0].name, "decide");
}

#[test]
fn correlate_joins_a_and_b_counts() {
    let mir = mir::parse_text(SPANNED_AND_MIR).expect("MIR parses");
    let cov = parse(COVERAGE_JSON).expect("coverage parses");
    let map = correlate(&mir, &cov);
    let f = &map.functions[0];

    let a = f.conditions.get("a").expect("a present");
    assert_eq!(a.true_count, 1);
    assert_eq!(a.false_count, 1);
    assert_eq!(a.span.start_line, 2);
    assert_eq!(a.span.start_col, 5);

    let b = f.conditions.get("b").expect("b present");
    assert_eq!(b.true_count, 1);
    assert_eq!(b.false_count, 0);
    assert_eq!(b.span.start_col, 10);
}

#[test]
fn correlate_matches_demangled_function_name() {
    let mir = mir::parse_text(SPANNED_AND_MIR).expect("MIR parses");
    let cov = parse(COVERAGE_JSON).expect("coverage parses");
    assert!(cov.functions[0].name.starts_with("_R"));
    let map = correlate(&mir, &cov);
    assert!(map.functions[0].conditions.len() > 0);
}

#[test]
fn correlate_drops_unmatched_function() {
    let mir = mir::parse_text(SPANNED_AND_MIR).expect("MIR parses");
    let coverage_with_other = COVERAGE_JSON.replace("6decide", "8different");
    let cov = parse(&coverage_with_other).expect("coverage parses");
    let map = correlate(&mir, &cov);
    assert_eq!(map.functions.len(), 1);
    assert!(map.functions[0].conditions.len() == 0);
}
