use input::next_line;
use input::parse_trimmed;
use input::prompt;
use input::trim;
use input::Email;
use input::EmailParseError;
use input::InputSource;
use input::OutputSink;

#[test]
fn trim_removes_surrounding_whitespace() {
    assert_eq!(trim("  47  "), "47");
    assert_eq!(trim("\t hello \r\n"), "hello");
    assert_eq!(trim("no padding"), "no padding");
    assert_eq!(trim("inner  space  "), "inner  space");
}

#[test]
fn trim_of_blank_text_is_empty() {
    assert_eq!(trim(""), "");
    assert_eq!(trim(" \t\r\n"), "");
}

#[test]
fn trim_is_idempotent() {
    assert_eq!(trim(trim("  padded  ")), trim("  padded  "));
}

#[test]
fn parse_trimmed_trims_then_parses() {
    let parse = |s: &str| s.parse::<u32>().map_err(|e| e.to_string());
    assert_eq!(parse_trimmed(" 47 \n", parse), Ok(47));
    assert_eq!(parse_trimmed("abc", parse), Err("invalid digit found in string".to_string()));
}

#[test]
fn prompt_writes_verbatim_and_flushes() {
    let mut output = OutputSink::new();
    prompt(&mut output, "x = ");
    prompt(&mut output, "y = ");
    assert_eq!(output.into_string(), "x = y = ");
}

#[test]
fn next_line_walks_the_lines_then_yields_empty() {
    let mut source = InputSource::new(vec!["first".to_string(), "second".to_string()]);
    assert_eq!(next_line(&mut source), "first");
    assert_eq!(next_line(&mut source), "second");
    assert_eq!(next_line(&mut source), "");
    assert_eq!(next_line(&mut source), "");
}

#[test]
fn email_parses_the_three_segments() {
    let e = Email::parse("a@b.com").unwrap();
    assert_eq!(e.local, "a");
    assert_eq!(e.domain, "b");
    assert_eq!(e.tld, "com");
}

#[test]
fn email_splits_at_the_last_dot() {
    let e = Email::parse("a.b@c.d.com").unwrap();
    assert_eq!(e.local, "a.b");
    assert_eq!(e.domain, "c.d");
    assert_eq!(e.tld, "com");
}

#[test]
fn email_trims_each_segment() {
    let e = Email::parse(" u @ d . com ").unwrap();
    assert_eq!(e.local, "u");
    assert_eq!(e.domain, "d");
    assert_eq!(e.tld, "com");
}

#[test]
fn email_rejects_malformed_text() {
    assert_eq!(Email::parse("not-an-email"), Err(EmailParseError));
    assert_eq!(Email::parse("two@@signs.com"), Err(EmailParseError));
    assert_eq!(Email::parse("a@nodot"), Err(EmailParseError));
    assert_eq!(Email::parse("@b.com"), Err(EmailParseError));
    assert_eq!(Email::parse("a@.com"), Err(EmailParseError));
    assert_eq!(Email::parse("a@b."), Err(EmailParseError));
    assert_eq!(Email::parse(""), Err(EmailParseError));
}

#[test]
fn email_error_renders_its_message() {
    assert_eq!(EmailParseError.message(), "Couldn't Parse Email!");
}
