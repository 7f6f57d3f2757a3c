use obfuscator::linter::external_findings;
use obfuscator::report::{eslint_report_line, full_report};
use obfuscator::walker::analyze;
use obfuscator::ast::Node;

#[test]
fn empty_stream_yields_zero_findings() {
    let findings = external_findings(&Vec::new());
    assert!(findings.is_empty());
}

#[test]
fn empty_stream_yields_zero_eslint_lines() {
    let a = analyze(&Node::Group(vec![]));
    let lines = full_report(&a, &external_findings(&Vec::new()));
    assert!(lines.iter().all(|l| !l.starts_with("ESLint: ")));
}

#[test]
fn malformed_stream_yields_zero_findings() {
    let findings = external_findings(&b"not structured at all".to_vec());
    assert!(findings.is_empty());
}

#[test]
fn non_array_document_yields_zero_findings() {
    let findings = external_findings(&b"{\"message\": \"m\"}".to_vec());
    assert!(findings.is_empty());
}

#[test]
fn array_of_findings_is_read_in_order() {
    let payload = b"[{\"message\": \"no-eval\", \"line\": 3, \"column\": 7},\
                    {\"message\": \"semi\", \"line\": 10, \"column\": 1}]"
        .to_vec();
    let findings = external_findings(&payload);
    assert_eq!(findings.len(), 2);
    assert_eq!(findings[0].message, "no-eval");
    assert_eq!(findings[0].line, 3);
    assert_eq!(findings[0].column, 7);
    assert_eq!(findings[1].message, "semi");
    assert_eq!(findings[1].line, 10);
    assert_eq!(findings[1].column, 1);
}

#[test]
fn missing_fields_fall_back_to_defaults() {
    let findings = external_findings(&b"[{}]".to_vec());
    assert_eq!(findings.len(), 1);
    assert_eq!(findings[0].message, "");
    assert_eq!(findings[0].line, 0);
    assert_eq!(findings[0].column, 0);
}

#[test]
fn wrongly_typed_fields_fall_back_to_defaults() {
    let payload = b"[{\"message\": 5, \"line\": \"three\", \"column\": null}]".to_vec();
    let findings = external_findings(&payload);
    assert_eq!(findings.len(), 1);
    assert_eq!(findings[0].message, "");
    assert_eq!(findings[0].line, 0);
    assert_eq!(findings[0].column, 0);
}

#[test]
fn eslint_line_format() {
    let payload = b"[{\"message\": \"no-eval\", \"line\": 3, \"column\": 7}]".to_vec();
    let findings = external_findings(&payload);
    let line = eslint_report_line(&findings[0]);
    assert_eq!(line, "ESLint: no-eval (línea 3, columna 7)");
}

#[test]
fn eslint_line_renders_negative_and_large_numbers() {
    let payload = b"[{\"message\": \"m\", \"line\": -12, \"column\": 40000}]".to_vec();
    let findings = external_findings(&payload);
    let line = eslint_report_line(&findings[0]);
    assert_eq!(line, "ESLint: m (línea -12, columna 40000)");
}

#[test]
fn external_findings_come_after_internal_report_lines() {
    let a = analyze(&Node::Ident("q".to_string()));
    let payload = b"[{\"message\": \"m\", \"line\": 1, \"column\": 2}]".to_vec();
    let lines = full_report(&a, &external_findings(&payload));
    assert_eq!(
        lines,
        vec![
            "Advertencia: Variable no definida: q".to_string(),
            "ESLint: m (línea 1, columna 2)".to_string(),
        ]
    );
}

#[test]
fn eslint_line_renders_zero_and_extreme_numbers() {
    let payload = b"[{\"message\": \"m\", \"line\": 0, \"column\": -9223372036854775808},\
                    {\"message\": \"m\", \"line\": 9223372036854775807, \"column\": 0}]"
        .to_vec();
    let findings = external_findings(&payload);
    assert_eq!(
        eslint_report_line(&findings[0]),
        "ESLint: m (línea 0, columna -9223372036854775808)"
    );
    assert_eq!(
        eslint_report_line(&findings[1]),
        "ESLint: m (línea 9223372036854775807, columna 0)"
    );
}
