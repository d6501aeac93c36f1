use rozum::json::{parse_json, Json};
use rozum::serving::{
    parse_tool_call_body, parse_tool_calls, repair_tool_object, tool_call_from_value, tool_name, tool_name_in,
};

#[test]
fn glm4_tool_call_form() {
    // A bare name line and a JSON object.
    let calls = parse_tool_calls("get_weather\n{\"city\": \"Paris\"}");
    assert_eq!(calls.len(), 1);
    assert_eq!(calls[0].0, "get_weather");
    assert!(calls[0].1.contains("Paris"));
    // Everything after the first line end is the object.
    let ml = parse_tool_calls("search_web\n{\n  \"q\": \"rust traits\",\n  \"n\": 3\n}");
    assert_eq!(ml.len(), 1);
    assert_eq!(ml[0].0, "search_web");
    // The call in a fence amid prose.
    let fenced = parse_tool_calls(
        "I'll read the file:\n\n```bash\nRead\n{\"file_path\": \"src/main.rs\"}\n```\n\nThen fix it.",
    );
    assert_eq!(fenced.len(), 1);
    assert_eq!(fenced[0].0, "Read");
    assert!(fenced[0].1.contains("src/main.rs"));
    // A fence with real code is no call.
    assert!(parse_tool_calls("Here:\n```rust\nfn main() {\n    println!(\"hi\");\n}\n```").is_empty());
    // Nor is prose, a body that is no object, or an object amid a sentence.
    assert!(parse_tool_calls("Sure, here is the answer.\nIt is 42.").is_empty());
    assert!(parse_tool_calls("foo\n[1, 2, 3]").is_empty());
    assert!(parse_tool_calls("The result is\nsunny today").is_empty());
    // An envelope takes precedence.
    let wrapped = parse_tool_calls("<tool_call>{\"name\":\"x\",\"arguments\":{}}</tool_call>");
    assert_eq!(wrapped.len(), 1);
    assert_eq!(wrapped[0].0, "x");
}

#[test]
fn native_tool_call_blocks() {
    let text = "sure <tool_call>\n{\"name\": \"get_weather\", \"arguments\": {\"city\": \"Paris\"}}\n</tool_call>";
    let calls = parse_tool_calls(text);
    assert_eq!(calls.len(), 1);
    assert_eq!(calls[0].0, "get_weather");
    assert!(calls[0].1.contains("Paris"));

    assert!(parse_tool_calls("plain answer, no tools").is_empty());

    let two = "<tool_call>{\"name\":\"a\",\"arguments\":{}}</tool_call>\
               <tool_call>{\"name\":\"b\",\"arguments\":{\"x\":1}}</tool_call>";
    let calls = parse_tool_calls(two);
    assert_eq!(calls.len(), 2);
    assert_eq!(calls[1].0, "b");
}

#[test]
fn close_tag_tolerance_and_nested_braces() {
    let p = parse_tool_calls;
    // Braces in a string argument: the close tag delimits.
    let code = p("<tool_call>{\"name\":\"write_file\",\"arguments\":{\"content\":\"fn add()->i32{ a + b }\"}}</tool_call>");
    assert_eq!(code.len(), 1);
    assert_eq!(code[0].0, "write_file");
    assert!(code[0].1.contains("a + b"));
    // A close tag that never came.
    assert_eq!(p("<tool_call>{\"name\":\"g\",\"arguments\":{}}"), vec![("g".to_string(), "{}".to_string())]);
    // Tags inside the envelope.
    let xml = p("<tool_call>\n<function=write_file>\n<parameter=path>\nadd.rs\n</parameter>\n</function>\n</tool_call>");
    assert_eq!(xml.len(), 1);
    assert_eq!(xml[0].0, "write_file");
    assert!(xml[0].1.contains("add.rs"));
}

#[test]
fn xml_hermes_form() {
    let body = "<function=search><parameter=q>cats</parameter></function>";
    let (name, args) = parse_tool_call_body(body).unwrap();
    assert_eq!(name, "search");
    assert!(args.contains("cats"));
}

#[test]
fn loose_markdown_json_fence_recovered() {
    let text = "I'll create the file.\n```json\n{\n  \"name\": \"Write\",\n  \"arguments\": {\n    \"file_path\": \"/tmp/Cargo.toml\",\n    \"content\": \"[package]\\nname = \\\"x\\\"\\n\"\n  }\n}\n```\n";
    let calls = parse_tool_calls(text);
    assert_eq!(calls.len(), 1, "calls: {calls:?}");
    assert_eq!(calls[0].0, "Write");
    assert!(calls[0].1.contains("Cargo.toml"));
}

#[test]
fn loose_bare_json_recovered() {
    let calls = parse_tool_calls("{\"name\":\"ls\",\"arguments\":{\"path\":\".\"}}");
    assert_eq!(calls.len(), 1);
    assert_eq!(calls[0].0, "ls");
}

#[test]
fn loose_requires_object_args_no_false_positive() {
    assert!(parse_tool_calls("Here is data: {\"name\":\"Alice\",\"age\":30}").is_empty());
    assert!(parse_tool_calls("{\"name\":\"x\",\"arguments\":\"not an object\"}").is_empty());
}

#[test]
fn native_blocks_suppress_loose_fallback() {
    let text = "call it <tool_call>{\"name\":\"a\",\"arguments\":{}}</tool_call> e.g. ```json\n{\"name\":\"b\",\"arguments\":{}}\n```";
    let calls = parse_tool_calls(text);
    assert_eq!(calls.len(), 1);
    assert_eq!(calls[0].0, "a");
}

#[test]
fn repair_unescaped_quotes_in_code_content() {
    let malformed = "I'll write it.\n```json\n{\"name\":\"Write\",\"arguments\":{\"file_path\":\"/tmp/main.rs\",\"content\":\"fn main(){ println!(\"{}\", x); }\"}}\n```";
    let calls = parse_tool_calls(malformed);
    assert_eq!(calls.len(), 1, "calls: {calls:?}");
    assert_eq!(calls[0].0, "Write");
    // The repaired arguments are valid JSON with the code preserved.
    let v: serde_json::Value = serde_json::from_str(&calls[0].1).unwrap();
    assert_eq!(v["file_path"], "/tmp/main.rs");
    assert!(
        v["content"].as_str().unwrap().contains("println!(\"{}\", x)"),
        "content: {}",
        v["content"]
    );
}

#[test]
fn repair_does_not_fire_for_wellformed_or_non_calls() {
    let ok = "```json\n{\"name\":\"ls\",\"arguments\":{\"path\":\".\"}}\n```";
    assert_eq!(parse_tool_calls(ok).len(), 1);
    assert!(parse_tool_calls("{\"name\":\"Alice\",\"age\":30}").is_empty());
    assert!(parse_tool_calls("here is { some prose } with braces").is_empty());
}

#[test]
fn parameters_alias() {
    let calls = parse_tool_calls("{\"name\":\"f\",\"parameters\":{\"k\":1}}");
    assert_eq!(calls.len(), 1);
    assert!(calls[0].1.contains("\"k\""));
}

#[test]
fn an_unreadable_envelope_is_not_read_as_prose() {
    // An envelope whose body is no call: the loose forms are not tried.
    let text = "<tool_call>oops</tool_call> {\"name\":\"b\",\"arguments\":{}}";
    assert!(parse_tool_calls(text).is_empty());
}

#[test]
fn the_arguments_are_compact_json() {
    let calls = parse_tool_calls("<tool_call>{ \"name\": \"f\", \"arguments\": { \"b\": 1, \"a\": [true, null] } }</tool_call>");
    assert_eq!(calls, vec![("f".to_string(), "{\"a\":[true,null],\"b\":1}".to_string())]);
    // Without arguments there are none; an empty name is no call.
    let bare = parse_tool_calls("<tool_call>{\"name\":\"f\"}</tool_call>");
    assert_eq!(bare, vec![("f".to_string(), "{}".to_string())]);
    assert!(parse_tool_calls("<tool_call>{\"name\":\"\"}</tool_call>").is_empty());
}

#[test]
fn xml_parameters_read_as_json_where_they_can() {
    let (name, args) = parse_tool_call_body(
        "<function=f><parameter=n>42</parameter><parameter=s>plain text</parameter></function>",
    )
    .unwrap();
    assert_eq!(name, "f");
    assert_eq!(args, "{\"n\":42,\"s\":\"plain text\"}");
}

#[test]
fn values_and_names() {
    let v: Json = parse_json("{\"name\":\"f\",\"arguments\":[1]}").unwrap();
    assert_eq!(tool_call_from_value(&v, false), Some(("f".to_string(), "[1]".to_string())));
    assert_eq!(tool_call_from_value(&v, true), None);
    assert!(parse_json("{\"name\":").is_none());
    assert_eq!(tool_name_in(&v).as_deref(), Some("f"));
    assert_eq!(tool_name(" {\"name\":\"g\"} ").as_deref(), Some("g"));
    assert_eq!(tool_name("nothing here"), None);
}

#[test]
fn the_calls_of_two_texts_of_blocks_add_up() {
    let a = "<tool_call>{\"name\":\"a\"}</tool_call><tool_call>no call</tool_call>";
    let b = "<tool_call>\n{\"name\":\"b\",\"arguments\":{\"x\":1}}\n</tool_call><tool_call>{\"name\":\"c\"}</tool_call>";
    let mut both = parse_tool_calls(a);
    assert_eq!(both, [("a".to_string(), "{}".to_string())]);
    both.extend(parse_tool_calls(b));
    assert_eq!(both.len(), 3);
    assert_eq!(parse_tool_calls(&format!("{a}{b}")), both);
    assert_eq!(parse_tool_calls(""), []);
}

#[test]
fn repairing_repaired_text_changes_nothing() {
    let text: Vec<char> = "so {\"name\":\"f\" , \"a\":\"x \"y\" \\\" \n\t\u{1}z\"} and more".chars().collect();
    let (once, end) = repair_tool_object(&text, 3).unwrap();
    assert_eq!(once, "{\"name\":\"f\" , \"a\":\"x \\\"y\\\" \\\" \\n\\tz\"}");
    assert_eq!(text[end - 1], '}');
    let again: Vec<char> = once.chars().collect();
    assert_eq!(repair_tool_object(&again, 0), Some((once, again.len())));
}

#[test]
fn deep_values_behind_the_reserved_key_are_read() {
    let inner = format!("{}{}", "[".repeat(127), "]".repeat(127));
    let key = "$serde_json::private::RawValue";
    let text = format!("{}{{\"{key}\":\"{inner}\"}}{}", "[".repeat(126), "]".repeat(126));
    match parse_json(&text) {
        Some(mut j) => {
            let mut depth = 0;
            while let Json::Array(mut v) = j {
                depth += 1;
                j = v.pop().unwrap_or(Json::Null);
            }
            assert_eq!(depth, 253);
        }
        None => panic!("refused"),
    }
    assert!(parse_json(&format!("{}{}", "[".repeat(128), "]".repeat(128))).is_none());
}
