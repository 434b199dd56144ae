use pegtokenizer::{tokenize, Token};

fn assert_atomic_tokens(message: &str, expected: Vec<Token>, error_message: &str) {
    let result = tokenize(message);
    println!("{:?}", &result);
    let token = result.ok().expect(error_message);
    assert_eq!(&expected, &token);
}

fn atomic_mac_token_is_valid(message: &str) {
    let expected = vec![Token::MAC(message.to_string())];
    assert_atomic_tokens(message, expected, "Failed to parse a valid MAC address");
}

fn atomic_hex_string_token_is_valid(message: &str) {
    let expected = vec![Token::HexString(message.to_string())];
    assert_atomic_tokens(message, expected, "Failed to parse a valid HexString address");
}

fn atomic_float_token_is_valid(message: &str) {
    let expected = vec![Token::Float(message.to_string())];
    assert_atomic_tokens(message, expected, "Failed to parse a valid Float address");
}

#[test]
fn atomic_test_given_tokenizer_when_it_parses_a_mac_address_then_we_got_the_mac_token() {
    atomic_mac_token_is_valid("56:84:7a:fe:97:99");
}

#[test]
fn atomic_test_given_tokenizer_when_it_parser_a_cisco_mac_address_then_we_get_the_mac_token() {
    atomic_mac_token_is_valid("0011.434A.B862");
}

#[test]
fn atomic_test_given_tokenizer_when_it_parses_an_integer_then_we_get_the_int_token() {
    let message = "42";
    let expected = vec![Token::Int(message.to_string())];
    assert_atomic_tokens(message, expected, "Failed to parse a valid Int address");
}

#[test]
fn atomic_test_given_tokenizer_when_it_parses_an_ipv4_address_then_we_get_an_ipv4_token() {
    let message = "127.0.0.1";
    let expected = vec![Token::IPv4("127.0.0.1".to_string())];
    assert_atomic_tokens(message, expected, "Failed to parse a valid IPv4 token");
}

#[test]
fn atomic_test_given_tokenizer_when_it_parses_a_hex_string_with_0x_prefix_then_we_get_the_hex_string_token() {
    atomic_hex_string_token_is_valid("0xff034");
}

#[test]
#[allow(non_snake_case)]
fn atomic_test_given_tokenizer_when_it_parses_a_hex_string_with_0X_prefix_then_we_het_the_hex_string_token() {
    atomic_hex_string_token_is_valid("0Xff034");
}

#[test]
fn atomic_test_given_tokenizer_when_it_parses_a_float_token_then_we_get_the_float_token() {
    atomic_float_token_is_valid("3.14");
}

#[test]
fn atomic_test_given_tokenizer_when_it_parses_a_float_token_with_exponent_then_we_get_the_float_token() {
    atomic_float_token_is_valid("3.14e0");
}

#[test]
fn atomic_test_given_tokenizer_when_there_is_no_other_higher_precedence_match_it_creates_literal_tokens() {
    let message = "foo";
    let expected = vec![Token::Literal("foo".to_string())];
    assert_atomic_tokens(message, expected, "Failed to parse a valid literal token");
}

#[test]
fn atomic_test_given_tokenizer_when_it_parses_tokens_in_braces_then_we_get_the_expected_composite_token() {
    let message = "{42 0x12}";
    let expected = vec![Token::Brace(vec![
        Token::Int("42".to_string()),
        Token::HexString("0x12".to_string()),
    ])];
    assert_atomic_tokens(message,
                        expected,
                        "Failed to parse a valid message when it contains braces");
}

#[test]
fn atomic_test_given_tokenizer_when_it_parses_tokens_in_brackets_then_we_get_the_expected_composite_token() {
    let message = "[42 0x12]";
    let expected = vec![Token::Bracket(vec![
        Token::Int("42".to_string()),
        Token::HexString("0x12".to_string()),
    ])];
    assert_atomic_tokens(message,
                        expected,
                        "Failed to parse a valid message when it contains brackets");
}

#[test]
fn atomic_test_given_tokenizer_when_it_parses_tokens_in_parentheses_then_we_get_the_expected_composite_token() {
    let message = "(42 0x12)";
    let expected = vec![Token::Paren(vec![
        Token::Int("42".to_string()),
        Token::HexString("0x12".to_string()),
    ])];
    assert_atomic_tokens(message,
                        expected,
                        "Failed to parse a valid message when it contains parentheses");
}

#[test]
fn atomic_test_given_tokenizer_when_it_parses_tokens_in_parens_then_we_get_the_expected_composite_token() {
    let message = "(xid=0x37fe20e3)";
    let expected = vec![Token::Paren(vec![Token::KVPair(Box::new(Token::Literal("xid".to_string())),
                                            Box::new(Token::Literal("0x37fe20e3".to_string())))])];
    assert_atomic_tokens(message,
                        expected,
                        "Failed to parse a valid message when the tokens are in parens");
}

#[test]
fn atomic_test_given_tokenizer_when_it_parses_a_quoted_string_then_we_get_the_expected_token() {
    let message = r#"exe="/bin/cat""#;
    let expected = vec![
    Token::KVPair(
        Box::new(Token::Literal("exe".to_string())),
        Box::new(Token::QuotedLiteral(r#""/bin/cat""#.to_string()))
    ),
  ];
    assert_atomic_tokens(message,
                        expected,
                        "Failed to parse a valid message when it contains \" quoted string");
}

#[test]
fn atomic_test_given_tokenizer_when_it_parses_a_quoted_string_with_apostrophe_then_we_get_the_expected_token() {
    let message = r#"exe='/bin/cat'"#;
    let expected = vec![
    Token::KVPair(
        Box::new(Token::Literal("exe".to_string())),
        Box::new(Token::QuotedLiteral(r#"'/bin/cat'"#.to_string()))
    ),
  ];
    assert_atomic_tokens(message,
                        expected,
                        "Failed to parse a valid message when it contains \" quoted string");
}

#[test]
fn atomic_test_given_tokenizer_when_it_parses_a_key_value_pair_and_the_value_consists_of_more_than_one_tokens_then_we_get_the_expected_tokens() {
    let message = "dev=fd:00";
    let expected = vec![Token::KVPair(Box::new(Token::Literal("dev".to_string())), Box::new(Token::Literal("fd:00".to_string())))];
    assert_atomic_tokens(message,
                        expected,
                        "Failed to parse key-value pair when the value ");
}

#[test]
fn atomic_test_given_tokenizer_when_it_parses_auditd_log_then_we_get_the_expected_token() {
    let message = r#"type=PATH msg=audit(1364481363.243:24287): item=0 name="/etc/ssh/sshd_config" inode=409248 dev=fd:00 mode=0100600 ouid=0 ogid=0 rdev=00:00 obj=system_u:object_r:etc_t:s0"#;
    let expected = vec![
    Token::KVPair(
        Box::new(Token::Literal("type".to_string())),
        Box::new(Token::Literal("PATH".to_string()))
    ),
    Token::KVPair(
        Box::new(Token::Literal("msg".to_string())),
        Box::new(Token::Audit("1364481363.243".to_string(), "24287".to_string()))
    ),
    Token::KVPair(
        Box::new(Token::Literal("item".to_string())),
        Box::new(Token::Literal("0".to_string()))
    ),
    Token::KVPair(
        Box::new(Token::Literal("name".to_string())),
        Box::new(Token::QuotedLiteral(r#""/etc/ssh/sshd_config""#.to_string()))
    ),
    Token::KVPair(
        Box::new(Token::Literal("inode".to_string())),
        Box::new(Token::Literal("409248".to_string()))
    ),
    Token::KVPair(
        Box::new(Token::Literal("dev".to_string())),
        Box::new(Token::Literal("fd:00".to_string()))
    ),
    Token::KVPair(
        Box::new(Token::Literal("mode".to_string())),
        Box::new(Token::Literal("0100600".to_string()))
    ),
    Token::KVPair(
        Box::new(Token::Literal("ouid".to_string())),
        Box::new(Token::Literal("0".to_string()))
    ),
    Token::KVPair(
        Box::new(Token::Literal("ogid".to_string())),
        Box::new(Token::Literal("0".to_string()))
    ),
    Token::KVPair(
        Box::new(Token::Literal("rdev".to_string())),
        Box::new(Token::Literal("00:00".to_string()))
    ),
    Token::KVPair(
        Box::new(Token::Literal("obj".to_string())),
        Box::new(Token::Literal("system_u:object_r:etc_t:s0".to_string()))
    ),
  ];
    assert_atomic_tokens(message, expected, "Failed to parse auditd log");
}

#[test]
fn atomic_test_given_tokenizer_when_it_parses_a_message_which_contains_programname_and_pid_then_we_get_the_expected_tokens() {
    let message = "localhost bluetoothd[723]: Starting SDP server";
    let expected = vec![
    Token::Literal("localhost".to_string()),
    Token::ProgramPid("bluetoothd".to_string(), "723".to_string()),
    Token::Literal("Starting".to_string()),
    Token::Literal("SDP".to_string()),
    Token::Literal("server".to_string()),
  ];
    assert_atomic_tokens(message,
                        expected,
                        "Failed to parse a log message containing program[PID]");
}

#[test]
fn atomic_test_given_tokenizer_when_it_parses_adjacent_separators_then_we_get_the_expected_result() {
    let message = " a";
    let expected = vec![Token::Literal("a".to_string())];
    assert_atomic_tokens(message, expected, "Failed to parse adjacent separators");
}

#[test]
fn atomic_test_given_tokenizer_when_it_parses_a_kernel_log_message_then_we_get_the_expected_tokens() {
    let message = "kernel: [    0.000000] Initializing";
    let expected = vec![
    Token::Literal("kernel".to_string()),
    Token::Bracket(vec![
        Token::Float("0.000000".to_string())
    ]),
    Token::Literal("Initializing".to_string()),
  ];
    assert_atomic_tokens(message, expected, "Failed to parse a kernel log");
}

#[test]
fn atomic_test_given_tokenizer_when_it_parses_separators_in_brackets_then_we_get_the_expected_tokens() {
    let message = "[ w0: C-E ]";
    let expected = vec![
    Token::Bracket(vec![
        Token::Literal("w0".to_string()),
        Token::Literal("C-E".to_string()),
    ]),
  ];
    assert_atomic_tokens(message, expected, "Failed to parse separators in brackets");
}

#[test]
fn atomic_test_given_tokenizer_when_it_parses_a_message_where_the_last_characters_are_separators_then_we_get_the_expected_tokens() {
    let message = "a  ";
    let expected = vec![
    Token::Literal("a".to_string()),
  ];
    assert_atomic_tokens(message,
                        expected,
                        "Failed to parse a message where the last tokens are separators");
}
