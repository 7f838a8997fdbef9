use oss_info_maven::{parse_dependencies_string, pretty_name, ParseError};

fn owned(items: &[&str]) -> Vec<String> {
    items.iter().map(|s| s.to_string()).collect()
}

#[test]
fn end_to_end_tree() {
    let tree = "+--- g:a:1.0\n|    \\--- g2:b:2.0\n\\--- project :lib\n     \\--- g3:c:3.0\n";
    let with_header = format!("runtimeClasspath - Runtime classpath.\n{}", tree);
    // Byte order puts '3' before ':'.
    assert_eq!(
        parse_dependencies_string(&with_header).unwrap(),
        owned(&["g3:c:3.0", "g:a:1.0"])
    );
    assert_eq!(parse_dependencies_string(tree).unwrap(), owned(&["g3:c:3.0", "g:a:1.0"]));
}

#[test]
fn nested_dependency_is_left_out() {
    let tree = "+--- a:b:1\n|    \\--- c:d:2\n|         \\--- e:f:3\n\\--- g:h:4\n";
    assert_eq!(parse_dependencies_string(tree).unwrap(), owned(&["a:b:1", "g:h:4"]));
}

#[test]
fn project_children_count_as_direct() {
    let tree = "\\--- project :lib\n     +--- x:y:1\n     |    \\--- deep:dep:9\n     \\--- z:w:2\n";
    assert_eq!(parse_dependencies_string(tree).unwrap(), owned(&["x:y:1", "z:w:2"]));
}

#[test]
fn second_configuration_is_rejected() {
    let report = "compile\n+--- a:b:1\n\\--- c:d:2\n\nruntime\n+--- e:f:3\n";
    assert_eq!(
        parse_dependencies_string(report),
        Err(ParseError::MissingConfiguration)
    );
}

#[test]
fn indentation_errors() {
    assert_eq!(
        parse_dependencies_string("  +--- a:b:1\n"),
        Err(ParseError::UnexpectedIndent)
    );
    assert_eq!(
        parse_dependencies_string("|    +--- a:b:1\n"),
        Err(ParseError::UnexpectedIndent)
    );
    assert_eq!(
        parse_dependencies_string("--- a:b:1\n"),
        Err(ParseError::UnexpectedIndent)
    );
}

#[test]
fn malformed_line_is_rejected() {
    assert_eq!(
        parse_dependencies_string("+--- a:b:c:d\n"),
        Err(ParseError::MalformedCoordinate)
    );
}

#[test]
fn tree_output_is_sorted_without_repeats() {
    let tree = "+--- z:z:1\n+--- a:a:1\n+--- z:z:0 -> 1 (*)\n\\--- m:m:1 (c)\n";
    assert_eq!(
        parse_dependencies_string(tree).unwrap(),
        owned(&["a:a:1", "m:m:1", "z:z:1"])
    );
}

#[test]
fn empty_report_and_crlf_lines() {
    assert_eq!(parse_dependencies_string("").unwrap(), Vec::<String>::new());
    assert_eq!(
        parse_dependencies_string("no tree here\n").unwrap(),
        Vec::<String>::new()
    );
    assert_eq!(
        parse_dependencies_string("+--- a:b:1\r\n\\--- c:d:2\r\n").unwrap(),
        owned(&["a:b:1", "c:d:2"])
    );
}

#[test]
fn pretty_name_needs_tree_art() {
    assert_eq!(pretty_name("a:b:1"), Err(ParseError::MalformedCoordinate));
    assert_eq!(pretty_name("\\--- a:b:1 (*)").unwrap(), "a:b:1");
}

#[test]
fn error_messages() {
    assert!(ParseError::MissingConfiguration.message().contains("--configuration"));
    assert_eq!(ParseError::UnexpectedIndent.message(), "unexpected indent");
}
