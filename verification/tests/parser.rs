use obsidian_parser::parser::{parse_links, parse_obfile, ParseError, ResultParse};

#[test]
fn parse_obfile_without_properties() {
    let test_data = "test_data";
    let result = parse_obfile(test_data).unwrap();

    assert_eq!(result, ResultParse::WithoutProperties);
}

#[test]
fn parse_obfile_with_properties() {
    let test_data = "---\nproperties data\n---\ntest data";
    let result = parse_obfile(test_data).unwrap();

    assert_eq!(
        result,
        ResultParse::WithProperties {
            content: "test data",
            properties: "properties data"
        }
    );
}

#[test]
fn parse_obfile_without_properties_but_with_closed() {
    let test_data1 = "test_data---";
    let test_data2 = "test_data\n---\n";

    let result1 = parse_obfile(test_data1).unwrap();
    let result2 = parse_obfile(test_data2).unwrap();

    assert_eq!(result1, ResultParse::WithoutProperties);
    assert_eq!(result2, ResultParse::WithoutProperties);
}

#[test]
fn parse_obfile_with_properties_but_without_closed() {
    let test_data = "---\nproperties data\ntest data";
    assert_eq!(parse_obfile(test_data), Err(ParseError::NotFoundCloser));
}

#[test]
fn parse_obfile_with_() {
    let test_data = "---properties data";

    let result = parse_obfile(test_data).unwrap();
    assert_eq!(result, ResultParse::WithoutProperties);
}

#[test]
fn parse_obfile_without_properties_but_with_spaces() {
    let test_data = "   ---\ndata";

    let result = parse_obfile(test_data).unwrap();
    assert_eq!(result, ResultParse::WithoutProperties);
}

#[test]
fn parse_obfile_with_properties_but_check_trim_end() {
    let test_data = "---\r\nproperties data\r\n---\r   \ntest data";
    let result = parse_obfile(test_data).unwrap();

    assert_eq!(
        result,
        ResultParse::WithProperties {
            content: "test data",
            properties: "properties data"
        }
    );
}

#[test]
fn test_parse_links() {
    let test_data =
        "[[Note]] [[Note|Alias]] [[Note^block]] [[Note#Heading|Alias]] [[Note^block|Alias]]";

    let ds: Vec<_> = parse_links(test_data);

    assert_eq!(ds.len(), 5);
    assert!(ds.iter().all(|x| *x == "Note"))
}
