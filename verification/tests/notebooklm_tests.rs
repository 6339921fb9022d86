use parrot::notebooklm::{
    add_source_args, check_prerequisites, create_notebook_args, login_check_args,
    parse_notebook_id, Prerequisites, SourceKind,
};

#[test]
fn parse_notebook_id_with_id_prefix() {
    let output = "Created notebook: Meeting Test (id: abc123def456)";
    let id = parse_notebook_id(output).unwrap();
    assert_eq!(id, "abc123def456");
}

#[test]
fn parse_notebook_id_plain_line() {
    let output = "abc123def456";
    let id = parse_notebook_id(output).unwrap();
    assert_eq!(id, "abc123def456");
}

#[test]
fn parse_notebook_id_with_notebook_keyword() {
    let output = "Created notebook my-meeting-notebook abcd1234";
    let id = parse_notebook_id(output).unwrap();
    assert!(id.contains("abcd1234"));
}

#[test]
fn parse_notebook_id_empty_fails() {
    assert!(parse_notebook_id("").is_err());
}

#[test]
fn parse_notebook_id_garbage_fails() {
    assert!(parse_notebook_id("no id here that looks like anything useful at all really").is_err());
}

#[test]
fn parse_notebook_id_skips_lines_and_checks_characters() {
    assert_eq!(parse_notebook_id("Working...\n  nb_42-x  \n").unwrap(), "nb_42-x");
    assert_eq!(parse_notebook_id("id: )\nplain-id\n").unwrap(), "plain-id");
    assert!(parse_notebook_id("has space\n").is_err());
    assert_eq!(parse_notebook_id("Created notebook my-meeting-notebook abcd1234").unwrap(), "abcd1234");
    assert_eq!(parse_notebook_id("(id: x1))").unwrap(), "x1");
    assert_eq!(parse_notebook_id("ÄbcÖ").unwrap(), "ÄbcÖ");
}

#[test]
fn notebook_command_arguments() {
    assert_eq!(create_notebook_args("Meeting: 2026"), vec!["notebook", "create", "Meeting: 2026"]);
    assert_eq!(add_source_args("id1", SourceKind::Text, "hello"), vec!["source", "add", "id1", "--text", "hello"]);
    assert_eq!(add_source_args("id1", SourceKind::Url, "u"), vec!["source", "add", "id1", "--url", "u"]);
    assert_eq!(add_source_args("id1", SourceKind::File, "f"), vec!["source", "add", "id1", "--file", "f"]);
    assert_eq!(login_check_args(), vec!["login", "--check"]);
}

#[test]
fn prerequisite_steps() {
    assert_eq!(check_prerequisites(false, None), Prerequisites::NotInstalled);
    assert_eq!(check_prerequisites(false, Some(true)), Prerequisites::NotInstalled);
    assert_eq!(check_prerequisites(true, None), Prerequisites::CheckLogin);
    assert_eq!(check_prerequisites(true, Some(false)), Prerequisites::NotAuthenticated);
    assert_eq!(check_prerequisites(true, Some(true)), Prerequisites::Ready);
}
