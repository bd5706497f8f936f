use dirust::error::DirustError;
use dirust::scanner::{conclude, format_line};
use dirust::scanner::http::HttpSummary;

fn summary(status: u16, content_length: Option<&str>, location: Option<&str>) -> HttpSummary {
    HttpSummary {
        status,
        content_length: content_length.map(|s| s.to_string()),
        location: location.map(|s| s.to_string()),
    }
}

#[test]
fn line_without_redirect() {
    let line = format_line("1712345678", "https://example.com/admin", &summary(200, Some("1234"), None));
    assert_eq!(line, "[1712345678] 200 len=1234  https://example.com/admin");
}

#[test]
fn line_with_redirect_and_unknown_length() {
    let line = format_line(
        "1712345679",
        "https://example.com/admin",
        &summary(301, None, Some("https://example.com/admin/")),
    );
    assert_eq!(line, "[1712345679] 301 len=-  https://example.com/admin -> https://example.com/admin/");
}

#[test]
fn line_with_length_and_redirect() {
    let line = format_line("5", "http://h/a", &summary(302, Some("0"), Some("/b")));
    assert_eq!(line, "[5] 302 len=0  http://h/a -> /b");
}

#[test]
fn short_status_is_right_aligned_in_three_columns() {
    assert_eq!(format_line("1", "u", &summary(7, None, None)), "[1]   7 len=-  u");
    assert_eq!(format_line("1", "u", &summary(42, None, None)), "[1]  42 len=-  u");
    assert_eq!(format_line("1", "u", &summary(0, None, None)), "[1]   0 len=-  u");
    assert_eq!(format_line("1", "u", &summary(100, None, None)), "[1] 100 len=-  u");
}

#[test]
fn long_status_is_not_cut() {
    assert_eq!(format_line("1", "u", &summary(1000, None, None)), "[1] 1000 len=-  u");
    assert_eq!(format_line("1", "u", &summary(65535, None, None)), "[1] 65535 len=-  u");
}

#[test]
fn line_agrees_with_the_format_it_describes() {
    for status in [0u16, 9, 10, 99, 100, 200, 403, 999, 1000, 65535] {
        for length in [None, Some("17")] {
            for location in [None, Some("/next")] {
                let expected = match location {
                    Some(target) => format!("[{}] {:>3} len={}  {} -> {}", "99", status, length.unwrap_or("-"), "http://h/x", target),
                    None => format!("[{}] {:>3} len={}  {}", "99", status, length.unwrap_or("-"), "http://h/x"),
                };
                assert_eq!(format_line("99", "http://h/x", &summary(status, length, location)), expected);
            }
        }
    }
}

#[test]
fn empty_fields_are_shown_empty() {
    assert_eq!(format_line("", "", &summary(200, Some(""), Some(""))), "[] 200 len=   -> ");
}

#[test]
fn unit_reports_an_interesting_answer_and_succeeds() {
    for status in [200u16, 301, 302, 401, 403] {
        let (report, result) = conclude(Ok(summary(status, Some("9"), Some("/x"))));
        let report = report.expect("an interesting answer is reported");
        assert_eq!(report.status, status);
        assert_eq!(report.content_length.as_deref(), Some("9"));
        assert_eq!(report.location.as_deref(), Some("/x"));
        assert!(result.is_ok());
    }
}

#[test]
fn unit_keeps_quiet_about_other_answers_and_succeeds() {
    for status in [404u16, 500, 405, 204, 303, 0] {
        let (report, result) = conclude(Ok(summary(status, None, Some("/x"))));
        assert!(report.is_none());
        assert!(result.is_ok());
    }
}

#[test]
fn redirect_without_location_is_still_reported() {
    let (report, result) = conclude(Ok(summary(301, None, None)));
    assert_eq!(report.map(|s| s.status), Some(301));
    assert!(result.is_ok());
}

#[test]
fn unit_hands_on_the_error_of_its_probe() {
    let failure = DirustError::Io(std::io::Error::new(std::io::ErrorKind::Other, "down"));
    let (report, result) = conclude(Err(failure));
    assert!(report.is_none());
    assert_eq!(result.unwrap_err().message(), "io error: down");
}
