use saori_module::saori::{parse_request, ParseError, RequestType, SaoriRequest};

fn parsed(input: &str) -> SaoriRequest {
    parse_request(input).expect("a request that names a command")
}

fn args_of(input: &str) -> Vec<String> {
    parsed(input).args
}

#[test]
fn argument_sparsity() {
    assert_eq!(args_of("EXECUTE SAORI/1.0\r\nArgument2: x\r\n\r\n"), vec!["", "", "x"]);
}

#[test]
fn last_write_wins() {
    assert_eq!(args_of("EXECUTE SAORI/1.0\r\nArgument0: a\r\nArgument0: b\r\n\r\n"), vec!["b"]);
}

#[test]
fn last_write_wins_for_every_header() {
    let request = parsed(
        "EXECUTE SAORI/1.0\r\nCharset: a\r\nSender: b\r\nSecurityLevel: c\r\nSecurityLevel: d\r\nSender: e\r\nCharset: f\r\n\r\n",
    );
    assert_eq!(request.charset, "f");
    assert_eq!(request.sender, "e");
    assert_eq!(request.security_level, "d");
}

#[test]
fn a_later_argument_keeps_the_earlier_ones() {
    assert_eq!(
        args_of("EXECUTE SAORI/1.0\r\nArgument3: d\r\nArgument1: b\r\nArgument0: a\r\n\r\n"),
        vec!["a", "b", "", "d"]
    );
}

#[test]
fn execute_request_is_read_in_full() {
    let request = parsed(
        "EXECUTE SAORI/1.0\r\nSecurityLevel: Local\r\nArgument0: one\r\nCharset: Shift_JIS\r\nArgument1: two\r\nSender: Test\r\n\r\n",
    );
    assert_eq!(
        request,
        SaoriRequest {
            request_type: RequestType::Execute,
            args: vec!["one".to_string(), "two".to_string()],
            security_level: "Local".to_string(),
            sender: "Test".to_string(),
            charset: "Shift_JIS".to_string(),
        }
    );
}

#[test]
fn execute_request_without_headers_is_empty() {
    for input in ["EXECUTE SAORI/1.0\r\n\r\n", "EXECUTE SAORI/1.0\r\n", "EXECUTE SAORI/1.0", "EXECUTE SAORI"] {
        assert_eq!(
            parsed(input),
            SaoriRequest {
                request_type: RequestType::Execute,
                args: vec![],
                security_level: String::new(),
                sender: String::new(),
                charset: String::new(),
            }
        );
    }
}

#[test]
fn version_probe_reads_nothing_after_the_first_line() {
    let request = parsed("GET Version SAORI/1.0\r\nCharset: Shift_JIS\r\nArgument0: a\r\n\r\n");
    assert_eq!(
        request,
        SaoriRequest {
            request_type: RequestType::GetVersion,
            args: vec![],
            security_level: String::new(),
            sender: String::new(),
            charset: String::new(),
        }
    );
}

#[test]
fn first_line_is_judged_by_its_beginning() {
    assert_eq!(parsed("GET Version SAORI").request_type, RequestType::GetVersion);
    assert_eq!(parsed("GET Version SAORI/9.9 and more").request_type, RequestType::GetVersion);
    assert_eq!(parsed("EXECUTE SAORI/2.0 and more\r\n").request_type, RequestType::Execute);
}

#[test]
fn malformed_first_line_is_an_error() {
    for input in [
        "",
        "\r\n",
        "FOO BAR\r\n\r\n",
        "GET Version SAOR",
        "GET Version",
        "EXECUTE SAOR\r\nI",
        "execute saori/1.0\r\n\r\n",
        " EXECUTE SAORI/1.0\r\n\r\n",
        "\r\nEXECUTE SAORI/1.0\r\n\r\n",
        "\nEXECUTE SAORI/1.0\r\n\r\n",
        "NOTIFY SAORI/1.0\r\n\r\n",
    ] {
        assert_eq!(parse_request(input), Err(ParseError::MalformedFirstLine), "{:?}", input);
    }
}

#[test]
fn only_the_first_line_names_the_command() {
    assert_eq!(
        parse_request("Charset: Shift_JIS\r\nEXECUTE SAORI/1.0\r\n\r\n"),
        Err(ParseError::MalformedFirstLine)
    );
}

#[test]
fn unknown_lines_are_passed_over() {
    let request = parsed(
        "EXECUTE SAORI/1.0\r\nX-Unknown: 1\r\nArgument0: a\r\nnonsense\r\n: \r\nSender: s\r\n\r\n",
    );
    assert_eq!(request.args, vec!["a"]);
    assert_eq!(request.sender, "s");
    assert_eq!(request.charset, "");
    assert_eq!(request.security_level, "");
}

#[test]
fn header_keys_are_exact() {
    let request = parsed(
        "EXECUTE SAORI/1.0\r\ncharset: a\r\nCharset:b\r\nCharset : c\r\n Charset: d\r\nSENDER: e\r\nSender:\r\nSecuritylevel: f\r\nSecurityLevel:g\r\nargument0: h\r\nARGUMENT0: i\r\n\r\n",
    );
    assert_eq!(
        request,
        SaoriRequest {
            request_type: RequestType::Execute,
            args: vec![],
            security_level: String::new(),
            sender: String::new(),
            charset: String::new(),
        }
    );
}

#[test]
fn argument_lines_without_a_decimal_index_are_passed_over() {
    for line in [
        "Argument: a",
        "ArgumentX: a",
        "Argument-1: a",
        "Argument+1: a",
        "Argument 1: a",
        "Argument1 : a",
        "Argument1:a",
        "Argument1:",
        "Argument1",
        "Argument1x: a",
        "Argument0x10: a",
        "Argument1.0: a",
        "Argument\u{ff11}: a",
        "Arguments1: a",
    ] {
        let input = format!("EXECUTE SAORI/1.0\r\n{}\r\n\r\n", line);
        assert_eq!(args_of(&input), Vec::<String>::new(), "{:?}", line);
    }
}

#[test]
fn argument_index_may_have_leading_zeros() {
    assert_eq!(args_of("EXECUTE SAORI/1.0\r\nArgument002: x\r\n\r\n"), vec!["", "", "x"]);
    assert_eq!(args_of("EXECUTE SAORI/1.0\r\nArgument0000000000000000000000000000: x\r\n\r\n"), vec!["x"]);
}

#[test]
fn argument_index_is_decimal() {
    let args = args_of("EXECUTE SAORI/1.0\r\nArgument10: ten\r\nArgument9: nine\r\n\r\n");
    assert_eq!(args.len(), 11);
    assert_eq!(args[10], "ten");
    assert_eq!(args[9], "nine");
    assert!(args[..9].iter().all(|a| a.is_empty()));
    let args = args_of("EXECUTE SAORI/1.0\r\nArgument123: x\r\n\r\n");
    assert_eq!(args.len(), 124);
    assert_eq!(args[123], "x");
}

#[test]
fn argument_index_that_does_not_fit_is_passed_over() {
    let too_large = [
        format!("Argument{}: x", usize::MAX),
        format!("Argument{}0: x", usize::MAX),
        "Argument340282366920938463463374607431768211456: x".to_string(),
        "Argument99999999999999999999999999999999999999999999999999: x".to_string(),
    ];
    for line in too_large {
        let input = format!("EXECUTE SAORI/1.0\r\nArgument0: kept\r\n{}\r\nSender: s\r\n\r\n", line);
        let request = parsed(&input);
        assert_eq!(request.args, vec!["kept"], "{:?}", line);
        assert_eq!(request.sender, "s");
    }
}

#[test]
fn header_value_is_the_rest_of_the_line() {
    let request = parsed(
        "EXECUTE SAORI/1.0\r\nArgument0:  two spaces \r\nSender: a: b:c\r\nCharset: \tShift_JIS\t\r\nSecurityLevel: Argument1: x\r\n\r\n",
    );
    assert_eq!(request.args, vec![" two spaces "]);
    assert_eq!(request.sender, "a: b:c");
    assert_eq!(request.charset, "\tShift_JIS\t");
    assert_eq!(request.security_level, "Argument1: x");
}

#[test]
fn header_value_may_be_empty() {
    let request = parsed(
        "EXECUTE SAORI/1.0\r\nCharset: UTF-8\r\nCharset: \r\nArgument0: a\r\nArgument0: \r\nArgument1: \r\n\r\n",
    );
    assert_eq!(request.charset, "");
    assert_eq!(request.args, vec!["", ""]);
}

#[test]
fn only_carriage_return_and_line_feed_together_end_a_line() {
    let request = parsed("EXECUTE SAORI/1.0\r\nArgument0: a\nArgument1: b\r\nSender: c\rd\r\r\nCharset: e\n\r\n");
    assert_eq!(request.args, vec!["a\nArgument1: b"]);
    assert_eq!(request.sender, "c\rd\r");
    assert_eq!(request.charset, "e\n");
}

#[test]
fn bare_line_feeds_do_not_split_the_first_line() {
    let request = parsed("EXECUTE SAORI/1.0\nArgument0: a\n\n");
    assert_eq!(request.request_type, RequestType::Execute);
    assert_eq!(request.args, Vec::<String>::new());
}

#[test]
fn last_line_needs_no_line_break() {
    assert_eq!(args_of("EXECUTE SAORI/1.0\r\nArgument0: x"), vec!["x"]);
    assert_eq!(parsed("EXECUTE SAORI/1.0\r\nSender: s\r").sender, "s\r");
}

#[test]
fn lines_after_the_empty_line_are_read_too() {
    let request = parsed("EXECUTE SAORI/1.0\r\nArgument0: a\r\n\r\nArgument1: b\r\n");
    assert_eq!(request.args, vec!["a", "b"]);
}

#[test]
fn header_values_keep_text_outside_ascii() {
    let request = parsed(
        "EXECUTE SAORI/1.0\r\nArgument0: \u{3053}\u{3093}\u{306b}\u{3061}\u{306f}\r\nSender: \u{1f600} caf\u{e9}\r\nArgument1: z\r\n\r\n",
    );
    assert_eq!(request.args, vec!["\u{3053}\u{3093}\u{306b}\u{3061}\u{306f}", "z"]);
    assert_eq!(request.sender, "\u{1f600} caf\u{e9}");
}
