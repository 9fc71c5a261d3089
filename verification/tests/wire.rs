use buckets_mdapi::wire::{decode, encode};

fn tricky() -> Vec<String> {
    let mut all: Vec<String> = vec![
        String::new(),
        String::from("plain"),
        String::from("\""),
        String::from("\\"),
        String::from("\\\""),
        String::from("/"),
        String::from("a\u{7f}b"),
        String::from("\u{80}\u{ff}\u{100}\u{d7ff}\u{e000}\u{ffff}\u{10000}\u{10ffff}"),
        String::from("\\u0000"),
        String::from("\",\"message\":\""),
        String::from("\"}}"),
    ];
    for code in 0..0x30u32 {
        all.push(String::from(char::from_u32(code).unwrap()));
    }
    all
}

#[test]
fn encode_writes_the_record_of_two_plain_strings() {
    assert_eq!(encode("n", "m"), "{\"error\":{\"name\":\"n\",\"message\":\"m\"}}");
    assert_eq!(encode("", ""), "{\"error\":{\"name\":\"\",\"message\":\"\"}}");
}

#[test]
fn encode_escapes_quote_and_backslash() {
    assert_eq!(encode("\"", "\\"), "{\"error\":{\"name\":\"\\\"\",\"message\":\"\\\\\"}}");
}

#[test]
fn encode_escapes_control_characters_in_their_short_form() {
    assert_eq!(
        encode("", "\u{8}\u{c}\n\r\t"),
        "{\"error\":{\"name\":\"\",\"message\":\"\\b\\f\\n\\r\\t\"}}"
    );
}

#[test]
fn encode_escapes_the_other_control_characters_by_number() {
    assert_eq!(
        encode("", "\u{0}\u{1}\u{b}\u{e}\u{f}\u{10}\u{1a}\u{1f}"),
        "{\"error\":{\"name\":\"\",\"message\":\"\\u0000\\u0001\\u000b\\u000e\\u000f\\u0010\\u001a\\u001f\"}}"
    );
}

#[test]
fn encode_leaves_every_other_character_as_it_is() {
    assert_eq!(
        encode("", " /\u{7f}é桶🪣"),
        "{\"error\":{\"name\":\"\",\"message\":\" /\u{7f}é桶🪣\"}}"
    );
}

#[test]
fn encode_quotes_strings_as_json_does() {
    for name in tricky() {
        for message in tricky() {
            let expected = format!(
                "{{\"error\":{{\"name\":{},\"message\":{}}}}}",
                serde_json::to_string(&name).unwrap(),
                serde_json::to_string(&message).unwrap()
            );
            assert_eq!(encode(&name, &message), expected);
        }
    }
}

#[test]
fn encoded_record_is_read_by_a_json_parser() {
    for message in tricky() {
        let text = encode("some name", &message);
        let value: serde_json::Value = serde_json::from_str(&text).unwrap();
        let inner = value.get("error").unwrap();
        assert_eq!(inner.get("name").unwrap().as_str(), Some("some name"));
        assert_eq!(inner.get("message").unwrap().as_str(), Some(message.as_str()));
    }
}

#[test]
fn decode_gives_back_what_encode_was_given() {
    for name in tricky() {
        for message in tricky() {
            assert_eq!(decode(&encode(&name, &message)), Some((name.clone(), message.clone())));
        }
    }
}

#[test]
fn decode_reads_each_escape() {
    assert_eq!(
        decode("{\"error\":{\"name\":\"\\\"\\\\\",\"message\":\"\\b\\f\\n\\r\\t\\u0000\\u001f\"}}"),
        Some((String::from("\"\\"), String::from("\u{8}\u{c}\n\r\t\u{0}\u{1f}")))
    );
}

#[test]
fn decode_accepts_only_what_encode_writes() {
    let refused = vec![
        "",
        "{",
        "{\"error\":{\"name\":",
        "{\"error\":{\"name\":\"n\"",
        "{\"error\":{\"name\":\"n\",\"message\":",
        "{\"error\":{\"name\":\"n\",\"message\":\"m\"",
        "{\"error\":{\"name\":\"n\",\"message\":\"m\"}",
        "{\"error\":{\"name\":\"n\",\"message\":\"m\"}}}",
        "{\"error\":{\"name\":\"n\",\"message\":\"m\"}}\n",
        "{\"error\":{\"name\":\"n\", \"message\":\"m\"}}",
        "{\"error\":{\"name\":n,\"message\":\"m\"}}",
        "{\"error\":{\"name\":\"n\",\"message\":\"\\\"}}",
        "{\"error\":{\"name\":\"n\",\"message\":\"\\/\"}}",
        "{\"error\":{\"name\":\"n\",\"message\":\"\\u0041\"}}",
        "{\"error\":{\"name\":\"n\",\"message\":\"\\u0020\"}}",
        "{\"error\":{\"name\":\"n\",\"message\":\"\\u000a\"}}",
        "{\"error\":{\"name\":\"n\",\"message\":\"\\u0008\"}}",
        "{\"error\":{\"name\":\"n\",\"message\":\"\\u001F\"}}",
        "{\"error\":{\"name\":\"n\",\"message\":\"\\u00\"}}",
        "{\"error\":{\"name\":\"n\",\"message\":\"\\U0001\"}}",
        "{\"error\":{\"name\":\"n\",\"message\":\"\u{1}\"}}",
        "{\"error\":{\"name\":\"n\",\"message\":\"\t\"}}",
    ];
    for text in refused {
        assert_eq!(decode(text), None);
    }
}

#[test]
fn decode_is_not_misled_by_a_record_inside_a_string() {
    let inner = encode("n", "m");
    let outer = encode(&inner, &inner);
    assert_eq!(decode(&outer), Some((inner.clone(), inner)));
}
