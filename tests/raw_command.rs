use ie_net::raw_command::{command, param_list, quoted_param, try_parse_raw_command, unquoted_param};

fn pair(rest: &[u8], value: &[u8]) -> Option<(Vec<u8>, Vec<u8>)> {
    Some((rest.to_vec(), value.to_vec()))
}

fn params(list: &[&[u8]]) -> Vec<Vec<u8>> {
    list.iter().map(|p| p.to_vec()).collect()
}

#[test]
fn raw_command_test_command() {
    assert_eq!(command(b"/hello"), pair(b"", b"hello"));
    assert_eq!(command(b"/WAT? is this"), pair(b"? is this", b"WAT"));
    assert_eq!(command(b"no command here"), None);
    assert_eq!(command(b"/?command"), pair(b"?command", b""));
}

#[test]
fn raw_command_test_quoted_param() {
    assert_eq!(quoted_param(b"\"hello world! \" next"), pair(b" next", b"hello world! "));
    assert_eq!(quoted_param(b"\"missing end quote"), pair(b"", b"missing end quote"));
    assert_eq!(quoted_param(b"\"hello \\ world\""), pair(b"", b"hello \\ world"));
    assert_eq!(quoted_param(b"test"), None);
}

#[test]
fn raw_command_test_unquoted_param() {
    assert_eq!(unquoted_param(b"test! me"), pair(b" me", b"test!"));
    assert_eq!(unquoted_param(b"  test! me"), None);
    assert_eq!(unquoted_param(b"\"test\""), None);
}

#[test]
fn raw_command_test_param_list() {
    assert_eq!(
        param_list(b"a \"b \" c "),
        (b" ".to_vec(), params(&[b"a", b"b ", b"c"]))
    );
}

#[test]
fn raw_command_test_client_command_without_params() {
    let r = try_parse_raw_command(b"/noparams").unwrap();
    assert_eq!(r.command, b"noparams".to_vec());
    assert!(r.params.is_empty());
    let r = try_parse_raw_command(b"/withextraspace   ").unwrap();
    assert_eq!(r.command, b"withextraspace".to_vec());
    assert!(r.params.is_empty());
    assert!(try_parse_raw_command(b" /invalid").is_none());
}

#[test]
fn raw_command_test_client_command_with_params() {
    let r = try_parse_raw_command(
        b"/cmd  param1 param2 \" a longer param\" param4 \"\" \"open ended  ",
    )
    .unwrap();
    assert_eq!(r.command, b"cmd".to_vec());
    assert_eq!(
        r.params,
        params(&[b"param1", b"param2", b" a longer param", b"param4", b"", b"open ended  "])
    );
}

#[test]
fn client_test_command() {
    assert_eq!(command(b"/hello"), pair(b"", b"hello"));
    assert_eq!(command(b"/WAT? is this"), pair(b"? is this", b"WAT"));
    assert_eq!(command(b"no command here"), None);
    assert_eq!(command(b"/?command"), pair(b"?command", b""));
}

#[test]
fn client_test_quoted_param() {
    assert_eq!(quoted_param(b"\"hello world! \" next"), pair(b" next", b"hello world! "));
    assert_eq!(quoted_param(b"\"missing end quote"), pair(b"", b"missing end quote"));
    assert_eq!(quoted_param(b"\"hello \\ world\""), pair(b"", b"hello \\ world"));
    assert_eq!(quoted_param(b"test"), None);
}

#[test]
fn client_test_unquoted_param() {
    assert_eq!(unquoted_param(b"test! me"), pair(b" me", b"test!"));
    assert_eq!(unquoted_param(b"  test! me"), None);
    assert_eq!(unquoted_param(b"\"test\""), None);
}

#[test]
fn client_test_param_list() {
    assert_eq!(
        param_list(b"a \"b \" c "),
        (b" ".to_vec(), params(&[b"a", b"b ", b"c"]))
    );
}

#[test]
fn client_test_client_command_without_params() {
    let r = try_parse_raw_command(b"/noparams").unwrap();
    assert_eq!(r.command, b"noparams".to_vec());
    assert!(r.params.is_empty());
    let r = try_parse_raw_command(b"/withextraspace   ").unwrap();
    assert_eq!(r.command, b"withextraspace".to_vec());
    assert!(r.params.is_empty());
    assert!(try_parse_raw_command(b" /invalid").is_none());
}

#[test]
fn client_test_client_command_with_params() {
    let r = try_parse_raw_command(b"/cmd  param1 param2 \" a longer param\" param4 \"open ended  ")
        .unwrap();
    assert_eq!(r.command, b"cmd".to_vec());
    assert_eq!(
        r.params,
        params(&[b"param1", b"param2", b" a longer param", b"param4", b"open ended  "])
    );
}

#[test]
fn verb_is_lowercased() {
    let r = try_parse_raw_command(b"/SeNd hi").unwrap();
    assert_eq!(r.command, b"send".to_vec());
    assert_eq!(r.params, params(&[b"hi"]));
}

#[test]
fn text_after_quoted_param_is_rejected() {
    assert!(try_parse_raw_command(b"/send \"a\"b").is_none());
    assert!(try_parse_raw_command(b"/send a\"b").is_none());
    assert!(try_parse_raw_command(b"").is_none());
}

#[test]
fn leading_slash_is_optional() {
    let r = try_parse_raw_command(b"JOIN MyChannel").unwrap();
    assert_eq!(r.command, b"join".to_vec());
    assert_eq!(r.params, params(&[b"MyChannel"]));
    assert!(try_parse_raw_command(b"\"quoted\"").is_none());
}
