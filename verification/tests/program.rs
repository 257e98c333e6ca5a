use floyd::cli::{parse_format, Format};
use floyd::instrument::InstrumentError;
use floyd::report::xml_escape;
use floyd::runner::RunnerError;

#[test]
fn error_display_includes_stage_and_stderr() {
    let e = InstrumentError {
        stage: "rustc --emit=mir",
        stderr: "boom".to_string(),
    };
    let s = e.to_string();
    assert!(s.contains("rustc --emit=mir"));
    assert!(s.contains("boom"));
}

#[test]
fn error_display_includes_stage_and_message() {
    let e = RunnerError {
        stage: "llvm-cov export",
        message: "boom".to_string(),
    };
    let s = e.to_string();
    assert!(s.contains("llvm-cov export"));
    assert!(s.contains("boom"));
}

#[test]
fn xml_escape_handles_all_five_specials() {
    assert_eq!(xml_escape("a < b"), "a &lt; b");
    assert_eq!(xml_escape("a > b"), "a &gt; b");
    assert_eq!(xml_escape(r#"q="x""#), "q=&quot;x&quot;");
    assert_eq!(xml_escape("don't"), "don&apos;t");
    assert_eq!(xml_escape("a < b & c"), "a &lt; b &amp; c");
}

#[test]
fn parse_format_accepts_three_values() {
    assert!(matches!(parse_format("text"), Ok(Format::Text)));
    assert!(matches!(parse_format("json"), Ok(Format::Json)));
    assert!(matches!(parse_format("junit"), Ok(Format::Junit)));
    assert!(parse_format("xml").is_err());
    assert!(parse_format("").is_err());
}
