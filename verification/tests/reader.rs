use input::input_from;
use input::Email;
use input::EndOfInput;
use input::InputSource;
use input::OutputSink;

#[derive(Debug, PartialEq)]
struct TestInputResult<T> {
    output: String,
    value: T,
}

fn source_from(text: &str) -> InputSource {
    let lines: Vec<String> = text.lines().map(|l| l.to_string()).collect();
    InputSource::new(lines)
}

fn run_input_from<T, F: Fn(&str) -> Result<T, String>>(
    msg: &str,
    input_text: &str,
    parse: F,
) -> TestInputResult<T> {
    let mut output = OutputSink::new();
    let mut source = source_from(input_text);
    let value = input_from(msg, &mut output, &mut source, parse).expect("no line parsed");
    TestInputResult { output: output.into_string(), value }
}

#[test]
fn test_input_from_primitives() {
    assert_eq!(
        run_input_from("> ", "Hello World!", |s: &str| s
            .parse::<String>()
            .map_err(|e| e.to_string())),
        TestInputResult::<String> { output: "> ".into(), value: "Hello World!".into() }
    );
    assert_eq!(
        run_input_from("> ", "3.14159", |s: &str| s.parse::<f64>().map_err(|e| e.to_string())),
        TestInputResult::<f64> { output: "> ".into(), value: 3.14159 }
    );
    assert_eq!(
        run_input_from("> ", "47", |s: &str| s.parse::<u32>().map_err(|e| e.to_string())),
        TestInputResult::<u32> { output: "> ".into(), value: 47 }
    );
    assert_eq!(
        run_input_from("> ", "true", |s: &str| s.parse::<bool>().map_err(|e| e.to_string())),
        TestInputResult::<bool> { output: "> ".into(), value: true }
    );
}

#[derive(Debug, PartialEq)]
struct IpAddress {
    octets: [u8; 4],
}

fn parse_ip(s: &str) -> Result<IpAddress, String> {
    let parts: Vec<&str> = s.split('.').collect();
    if parts.len() != 4 {
        return Err("invalid IP address syntax".to_string());
    }
    let mut octets = [0u8; 4];
    for (slot, part) in octets.iter_mut().zip(parts.iter()) {
        *slot = part.parse::<u8>().map_err(|e| e.to_string())?;
    }
    Ok(IpAddress { octets })
}

#[test]
fn test_input_from_complex() {
    assert_eq!(
        run_input_from("> ", "127.0.0.1", |s: &str| parse_ip(s)),
        TestInputResult::<IpAddress> {
            output: "> ".into(),
            value: IpAddress { octets: [127, 0, 0, 1] },
        }
    );
}

#[test]
fn retries_until_a_line_parses() {
    let result = run_input_from("> ", "abc\nxyz\n47", |s: &str| {
        s.parse::<u32>().map_err(|e| e.to_string())
    });
    assert_eq!(
        result.output,
        "> invalid digit found in string\n> invalid digit found in string\n> "
    );
    assert_eq!(result.value, 47);
}

#[test]
fn surrounding_whitespace_is_ignored() {
    let padded = run_input_from("> ", "  47  ", |s: &str| {
        s.parse::<u32>().map_err(|e| e.to_string())
    });
    let bare = run_input_from("> ", "47", |s: &str| s.parse::<u32>().map_err(|e| e.to_string()));
    assert_eq!(padded.value, bare.value);
    assert_eq!(padded.output, bare.output);
}

#[test]
fn end_of_input_after_every_line_fails() {
    let mut output = OutputSink::new();
    let mut source = source_from("abc");
    let result: Result<u32, EndOfInput> =
        input_from("> ", &mut output, &mut source, |s: &str| {
            s.parse::<u32>().map_err(|e| e.to_string())
        });
    assert_eq!(result, Err(EndOfInput));
    assert_eq!(
        output.into_string(),
        "> invalid digit found in string\n> cannot parse integer from empty string\n"
    );
}

#[test]
fn empty_prompt_is_allowed() {
    let result = run_input_from("", "47", |s: &str| s.parse::<u32>().map_err(|e| e.to_string()));
    assert_eq!(result.output, "");
    assert_eq!(result.value, 47);
}

#[test]
fn scenario_email_retry() {
    let result = run_input_from("> ", "not-an-email\na@b.com", |s: &str| {
        Email::parse(s).map_err(|e| e.message())
    });
    assert_eq!(result.output, "> Couldn't Parse Email!\n> ");
    assert_eq!(
        result.value,
        Email { local: "a".to_string(), domain: "b".to_string(), tld: "com".to_string() }
    );
}
