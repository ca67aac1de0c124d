use wow_ls::lsp::{document_reports, error_reports, hover_offset, hover_range, Report, TextRange};
use wow_ls::syntax::syntax::{Error, ErrorKind, Generator};
use wow_ls::variables::ValueType;

#[test]
fn hover_offset_counts_line_breaks() {
    let lengths = vec![3, 5, 0];
    assert_eq!(hover_offset(&lengths, 0, 2), Some(2));
    assert_eq!(hover_offset(&lengths, 1, 2), Some(6));
    assert_eq!(hover_offset(&lengths, 2, 0), Some(10));
}

#[test]
fn hover_offset_past_the_last_line() {
    let lengths = vec![3, 5];
    assert_eq!(hover_offset(&lengths, 7, 4), Some(10));
    assert_eq!(hover_offset(&vec![], 0, 4), Some(0));
}

#[test]
fn hover_offset_that_does_not_fit() {
    let lengths = vec![usize::MAX, 1];
    assert_eq!(hover_offset(&lengths, 1, 0), None);
    assert_eq!(hover_offset(&vec![10], 0, u32::MAX), Some(u32::MAX));
    assert_eq!(hover_offset(&vec![10, 1], 1, u32::MAX), None);
}

#[test]
fn reports_give_lines_and_columns() {
    let text = "while x do\n  y()\n";
    let mut g = Generator::new(text);
    g.process_all();
    let errors = g.errors();
    assert!(!errors.is_empty());
    let reports = error_reports(text, errors);
    assert_eq!(reports.len(), errors.len());
    for (r, e) in reports.iter().zip(errors.iter()) {
        assert_eq!(r.kind, e.kind);
    }
    let first = errors[0];
    let expected_line = text[..first.start].matches('\n').count() as u32;
    assert_eq!(reports[0].range.start_line, expected_line);
}

#[test]
fn report_positions_at_line_breaks() {
    let text = "ab\ncd";
    let mut g = Generator::new("x");
    g.process_all();
    let reports: Vec<Report> = error_reports(text, &vec![]);
    assert!(reports.is_empty());
    let one = wow_ls::syntax::syntax::Error { start: 2, end: 4, kind: ErrorKind::UnexpectedToken };
    let r = error_reports(text, &vec![one]);
    assert_eq!(r[0].range, TextRange { start_line: 0, start_character: 2, end_line: 1, end_character: 1 });
}

#[test]
fn types_as_text() {
    let f = ValueType::Function { params: vec![ValueType::Number, ValueType::Unknown], results: vec![ValueType::String] };
    assert_eq!(f.describe(), "function(number, unknown) -> string");
    let g = ValueType::Function { params: vec![], results: vec![] };
    assert_eq!(g.describe(), "function()");
    let t = ValueType::Table {
        fields: vec![(String::from("a"), ValueType::Number), (String::from("b"), ValueType::Boolean)],
    };
    assert_eq!(t.describe(), "table{a: number, b: boolean}");
    let u = ValueType::Union(vec![ValueType::Nil, ValueType::String]);
    assert_eq!(u.describe(), "nil | string");
    assert_eq!(ValueType::Table { fields: vec![] }.describe(), "table{}");
}

#[test]
fn document_errors_lie_in_the_text() {
    for text in ["function f(a b) end", "function f(... a) end", "function f(a", "x = (", "--[[ open", "while x do", "f(a,", "local function", "t = {a ="] {
        let (errors, reports) = document_reports(text);
        assert_eq!(errors.len(), reports.len());
        for e in &errors {
            assert!(e.start <= text.len() && e.end <= text.len(), "{:?} in {:?}", e, text);
        }
    }
}

#[test]
fn parameter_errors_point_after_the_last_parameter() {
    let (errors, reports) = document_reports("function f(a b) end");
    let i = errors.iter().position(|e| e.kind == ErrorKind::ExpectingCommaOrBracket).expect("reported");
    assert_eq!(errors[i], Error { start: 12, end: 13, kind: ErrorKind::ExpectingCommaOrBracket });
    assert_eq!(reports[i].range, TextRange { start_line: 0, start_character: 12, end_line: 0, end_character: 13 });
    let (errors, _) = document_reports("function f(... a) end");
    assert!(errors.contains(&Error { start: 11, end: 12, kind: ErrorKind::ExpectingClosingBracket }), "{:?}", errors);
}

#[test]
fn hover_ranges_in_lines_and_columns() {
    let text = "ab\ncdé\nx";
    assert_eq!(hover_range(text, 1, 4), Some(TextRange { start_line: 0, start_character: 1, end_line: 1, end_character: 1 }));
    assert_eq!(hover_range(text, 2, 7), Some(TextRange { start_line: 0, start_character: 2, end_line: 1, end_character: 4 }));
    assert_eq!(hover_range(text, 8, 9), Some(TextRange { start_line: 2, start_character: 0, end_line: 2, end_character: 1 }));
}

#[test]
fn a_document_opening_with_a_stray_token_reports_it_first() {
    let (errors, reports) = document_reports("12 = x");
    assert!(!errors.is_empty());
    assert_eq!(errors[0], Error { start: 0, end: 2, kind: ErrorKind::UnexpectedToken });
    assert_eq!(reports[0].range, TextRange { start_line: 0, start_character: 0, end_line: 0, end_character: 2 });
    let (errors, _) = document_reports("} local a");
    assert_eq!(errors[0], Error { start: 0, end: 1, kind: ErrorKind::UnexpectedToken });
    let (errors, _) = document_reports("local a = 1");
    assert!(errors.is_empty(), "{:?}", errors);
}

#[test]
fn an_unclosed_do_block_is_reported_at_its_keyword() {
    let (errors, _) = document_reports("do x = 1");
    assert_eq!(errors.last(), Some(&Error { start: 0, end: 2, kind: ErrorKind::NotClosedBlock }));
}

#[test]
fn a_malformed_number_operand_is_reported() {
    let (errors, _) = document_reports("x = 12ab");
    assert!(errors.contains(&Error { start: 4, end: 8, kind: ErrorKind::InvalidNumberFormat }), "{:?}", errors);
}
