use shipgate::llm::cli::{extract_json, find_object, settle, Cli, ExtractError, FirstReply};

fn cli() -> Cli {
    Cli { program: "helper".to_string() }
}

#[test]
fn parses_a_bare_object() {
    assert_eq!(extract_json(r#"{"a":1}"#).unwrap()["a"], 1);
}

#[test]
fn parses_a_fenced_object() {
    let t = "Here you go:\n```json\n{\"a\": 1}\n```\n";
    assert_eq!(extract_json(t).unwrap()["a"], 1);
}

#[test]
fn a_brace_inside_a_string_does_not_end_the_object() {
    let t = r#"{"code": "if x { y }", "a": 2}"#;
    assert_eq!(extract_json(t).unwrap()["a"], 2);
}

#[test]
fn an_escaped_quote_does_not_end_the_string() {
    let t = r#"{"q": "say \"hi\" { now", "a": 3}"#;
    assert_eq!(extract_json(t).unwrap()["a"], 3);
}

#[test]
fn handles_nested_objects() {
    let t = r#"prose {"outer": {"inner": {"deep": 1}}, "a": 4} more prose"#;
    assert_eq!(extract_json(t).unwrap()["a"], 4);
}

#[test]
fn rejects_a_reply_with_no_object() {
    assert!(extract_json("I cannot help with that.").is_err());
    assert_eq!(extract_json("I cannot help with that."), Err(ExtractError::NoObject));
}

#[test]
fn rejects_unbalanced_braces() {
    assert!(extract_json(r#"{"a": 1"#).is_err());
    assert_eq!(extract_json(r#"{"a": 1"#), Err(ExtractError::Unbalanced));
}

#[test]
fn rejects_an_object_that_is_no_json() {
    assert_eq!(extract_json("so {a: 1} it is"), Err(ExtractError::NotJson));
    assert_eq!(ExtractError::NotJson.message(), "the extracted object is not valid JSON");
}

#[test]
fn braces_in_prose_and_strings_are_told_apart() {
    assert_eq!(find_object("é {\"k\": \"}é\\\\\"} tail }").unwrap(), "{\"k\": \"}é\\\\\"}");
    assert_eq!(find_object("} {}").unwrap(), "{}");
    assert_eq!(
        extract_json("x {\"say\": \"{ \\\" }\", \"a\": 5} y").unwrap()["a"],
        5
    );
}

#[test]
fn an_unreadable_reply_is_asked_for_once_more() {
    match cli().complete_json("USER", "no idea") {
        FirstReply::Retry { error, user } => {
            assert_eq!(error, ExtractError::NoObject);
            assert_eq!(
                user,
                "USER\n\n# Your previous reply could not be parsed\n\nError: no JSON object in the reply\n\nReturn only the JSON object."
            );
        }
        FirstReply::Done(_) => panic!("there is no object"),
    }
    match cli().complete_json("USER", "{\"a\": 7}") {
        FirstReply::Done(v) => assert_eq!(v["a"], 7),
        FirstReply::Retry { .. } => panic!("there is an object"),
    }
    assert_eq!(cli().complete_retry(ExtractError::NoObject, "{\"a\": 8}").unwrap()["a"], 8);
    assert_eq!(
        cli().complete_retry(ExtractError::Unbalanced, "still none").unwrap_err(),
        "second attempt also unparseable (first: unbalanced braces in the reply)"
    );
}

#[test]
fn a_call_names_its_model_and_takes_no_tools() {
    assert_eq!(
        cli().invoke("haiku", "SYSTEM"),
        vec![
            "-p",
            "--output-format",
            "json",
            "--model",
            "haiku",
            "--restricted",
            "--strict-mcp-config",
            "--system-prompt",
            "SYSTEM",
        ]
    );
    assert_eq!(cli().envelope("ok".to_string(), false), Ok("ok".to_string()));
    assert_eq!(
        cli().envelope("no".to_string(), true),
        Err("helper reported an error: no".to_string())
    );
    assert!(cli().json_system("S").starts_with("S\n\nReturn a single JSON object"));
}

#[test]
fn the_whole_reply_goes_before_its_first_object() {
    let value = |text: &str| extract_json(text).unwrap();
    let (one, two) = (value("{\"a\": 1}"), value("{\"a\": 2}"));
    assert_eq!(settle(Some(one.clone()), Ok(Some(two.clone()))), Ok(one));
    assert_eq!(settle(None, Ok(Some(two.clone()))), Ok(two.clone()));
    assert_eq!(settle(None, Ok(None)), Err(ExtractError::NotJson));
    assert_eq!(settle(None, Err(ExtractError::Unbalanced)), Err(ExtractError::Unbalanced));
    match cli().first_reply("USER", Err(ExtractError::NotJson)) {
        FirstReply::Retry { error, user } => {
            assert_eq!(error, ExtractError::NotJson);
            assert!(user.contains("Error: the extracted object is not valid JSON"));
        }
        FirstReply::Done(_) => panic!("there was none"),
    }
    assert_eq!(cli().second_reply(ExtractError::NoObject, Ok(two.clone())), Ok(two));
}
