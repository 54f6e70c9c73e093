//! Text, lines, paths and field order, held against std.

use std::collections::BTreeMap;
use std::path::Path;

use animus_subject_markdown::fields::FieldMap;
use animus_subject_markdown::json::{array, object, quoted, JsonText, JsonValue};
use animus_subject_markdown::lines::{
    lines, split, to_lf, to_unix, without_final_newlines, without_line_ends,
};
use animus_subject_markdown::paths::{file_name, join, parent};
use animus_subject_markdown::text::{
    ends_with, is_blank, same_text_ignoring_case, strip_prefix, strip_suffix, to_lower, to_upper,
    trimmed, white,
};
use animus_subject_markdown::time::Timestamp;

const SAMPLES: [&str; 18] = [
    "",
    "\n",
    "\r\n",
    "\r",
    "a",
    "a\n",
    "a\r\n",
    "a\r\r\n",
    "a\n\nb\r\n\r\nc",
    "\n\na\n\n\n",
    "  a b  ",
    "\u{a0}\u{2003}x\u{3000}\u{85}",
    "a,b,,c,",
    ",",
    "TaSk-\u{c4}\u{e4}\u{df}",
    "\u{feff}x",
    "one\rtwo\nthree\r",
    "\t \u{b}\u{c}",
];

#[test]
fn white_space_is_that_of_std() {
    for n in 0..=0x10ffffu32 {
        if let Some(c) = char::from_u32(n) {
            assert_eq!(white(c), c.is_whitespace(), "{n:x}");
        }
    }
}

#[test]
fn text_agrees_with_std() {
    for s in SAMPLES {
        assert_eq!(to_unix(s), s.replace("\r\n", "\n"));
        assert_eq!(without_final_newlines(s), s.trim_end_matches('\n'));
        assert_eq!(without_line_ends(s), s.trim_end_matches(['\r', '\n']));
        let mut lf = s.to_string();
        while lf.contains("\r\n") {
            lf = lf.replace("\r\n", "\n");
        }
        assert_eq!(to_lf(s), lf);
        assert_eq!(trimmed(s), s.trim());
        assert_eq!(is_blank(s), s.trim().is_empty());
        assert_eq!(to_upper(s), s.to_ascii_uppercase());
        assert_eq!(to_lower(s), s.to_ascii_lowercase());
        let cut: Vec<String> = s.split(',').map(str::to_string).collect();
        assert_eq!(split(s, ','), cut);
        let each: Vec<String> = s.lines().map(str::to_string).collect();
        assert_eq!(lines(s), each, "{s:?}");
        for t in SAMPLES {
            assert_eq!(strip_prefix(s, t), s.strip_prefix(t).map(str::to_string));
            assert_eq!(strip_suffix(s, t), s.strip_suffix(t).map(str::to_string));
            assert_eq!(ends_with(s, t), s.ends_with(t));
            assert_eq!(same_text_ignoring_case(s, t), s.eq_ignore_ascii_case(t));
        }
    }
}

#[test]
fn paths_agree_with_std() {
    let paths = [
        "", "/", ".", "..", "a", "/a", "a/", "a/b", "/a/b", "a//b", "a/./b", "a/b/.", "./a", "./",
        "a/..", "../a", "//a//", ".a", "..a", "a/.b", ".hidden/x.md", "/.", "a/b/", "./.", "/..",
        "a/.tmp", ". /x", "././a",
    ];
    for p in paths {
        let path = Path::new(p);
        assert_eq!(
            file_name(p),
            path.file_name().map(|n| n.to_str().unwrap().to_string()),
            "{p:?}"
        );
        assert_eq!(parent(p), path.parent().map(|n| n.to_str().unwrap().to_string()), "{p:?}");
        for q in paths {
            assert_eq!(join(p, q), path.join(q).to_str().unwrap(), "{p:?} {q:?}");
        }
    }
}

#[test]
fn json_text_reads_back() {
    let s = "a\"b\\c\n\r\t\u{0}\u{1f}\u{7f}\u{2028}\u{e4}\u{1f600}/";
    let back: String = serde_json::from_str(&quoted(s)).unwrap();
    assert_eq!(back, s);
    for n in 0..=0xffffu32 {
        if let Some(c) = char::from_u32(n) {
            let text = c.to_string();
            assert_eq!(quoted(&text), serde_json::to_string(&text).unwrap(), "{n:x}");
        }
    }
    assert_eq!(quoted("a\u{1}"), "\"a\\u0001\"");
    assert_eq!(array(&vec![]), "[]");
    assert_eq!(array(&vec![quoted("x"), "1".to_string()]), "[\"x\",1]");
    assert_eq!(object(&vec![]), "{}");
    assert_eq!(
        object(&vec![
            ("b".to_string(), "1".to_string()),
            ("a".to_string(), quoted("x")),
        ]),
        "{\"b\":1,\"a\":\"x\"}"
    );
    assert_eq!(JsonValue::Null.to_json(), "null");
    assert!(JsonValue::Null.is_null());
    assert!(!JsonValue::empty_object().is_null());
    assert_eq!(JsonValue::empty_object().to_json(), "{}");
}

#[test]
fn values_are_put_together() {
    let one = || JsonValue::from_json("1").unwrap();
    let list = JsonValue::array_of(&vec![JsonValue::Null, JsonValue::Text("x\n".into()), one()]);
    assert_eq!(Some(list), JsonValue::from_json("[null,\"x\\n\",1]"));
    let mut fields = FieldMap::new();
    fields.insert("b".into(), one());
    fields.insert("a".into(), JsonValue::array_of(&vec![]));
    assert_eq!(
        Some(JsonValue::object_of(&fields)),
        JsonValue::from_json("{\"b\":1,\"a\":[]}")
    );
}

#[test]
fn json_text_is_canonical() {
    let text = |s: &str| JsonValue::from_json(s).map(|j| j.to_json());
    assert_eq!(
        text(" { \"b\" : [1, 2.50], \"a\":\"\\u0041\" } "),
        Some("{\"a\":\"A\",\"b\":[1,2.5]}".to_string())
    );
    assert_eq!(text("{\"a\":1,\"a\":2}"), Some("{\"a\":2}".to_string()));
    assert_eq!(text("nul"), None);
    assert_eq!(JsonValue::from_json(" null"), Some(JsonValue::Null));
    assert_eq!(
        JsonValue::from_json("\"\\u0041\""),
        Some(JsonValue::Text("A".to_string()))
    );
    assert_eq!(
        JsonValue::from_json("{ }"),
        Some(JsonValue::Other(JsonText::empty_object()))
    );
}

#[test]
fn fields_are_kept_in_the_order_of_a_map() {
    let keys = ["b", "a", "", "ab", "B", "\u{e4}", "z", "\u{1f600}", "\u{ffff}", "a"];
    let mut ours = FieldMap::new();
    let mut theirs: BTreeMap<String, usize> = BTreeMap::new();
    for (i, k) in keys.iter().enumerate() {
        ours.insert(k.to_string(), JsonValue::from_json(&i.to_string()).unwrap());
        theirs.insert(k.to_string(), i);
    }
    ours.remove("ab");
    theirs.remove("ab");
    ours.remove("missing");
    let have: Vec<(String, String)> =
        ours.list().iter().map(|(k, v)| (k.clone(), v.to_json())).collect();
    let want: Vec<(String, String)> =
        theirs.iter().map(|(k, v)| (k.clone(), v.to_string())).collect();
    assert_eq!(have, want);
    assert_eq!(ours.get("a"), JsonValue::from_json("9").as_ref());
    assert_eq!(ours.get("ab"), None);
    assert_eq!(ours.clone(), ours);
}

#[test]
fn timestamps_are_written_as_chrono_writes_them() {
    let at = |secs: i64, nanos: u32| Timestamp { secs, nanos }.to_rfc3339();
    assert_eq!(at(0, 0), Some("1970-01-01T00:00:00Z".to_string()));
    assert_eq!(at(1779105600, 0), Some("2026-05-18T12:00:00Z".to_string()));
    assert_eq!(at(1779105600, 500_000_000), Some("2026-05-18T12:00:00.500Z".to_string()));
    assert_eq!(at(1779105600, 1), Some("2026-05-18T12:00:00.000000001Z".to_string()));
    assert_eq!(at(i64::MAX, 0), None);
    assert_eq!(at(0, 2_000_000_000), None);
}

#[test]
fn timestamps_are_ordered() {
    let a = Timestamp { secs: 1, nanos: 5 };
    let b = Timestamp { secs: 1, nanos: 6 };
    let c = Timestamp { secs: 2, nanos: 0 };
    assert!(a.is_before(&b));
    assert!(b.is_before(&c));
    assert!(!a.is_before(&a));
    assert!(!c.is_before(&a));
}
