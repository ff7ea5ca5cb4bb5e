use tree_sitter_txl::decode::{decode_rule, grammar_from_json, grammar_from_text};
use tree_sitter_txl::first::tree_sitter_to_txl_1;
use tree_sitter_txl::second::tree_sitter_to_txl_2;
use tree_sitter_txl::grammar::Rule;
use tree_sitter_txl::ids::IdCounter;
use tree_sitter_txl::json::{object_debug_text, parse_json, Json};

const TOY: &str = r#"{
  "name": "toy",
  "start_rule": "s",
  "rules": {
    "s": {"type": "SEQ", "members": [
      {"type": "REPEAT1", "content": {"type": "SYMBOL", "name": "a"}},
      {"type": "PREC_LEFT", "value": 1, "content": {"type": "STRING", "value": "x"}}
    ]},
    "a": {"type": "PATTERN", "value": "[a-z]+"}
  },
  "extras": [{"type": "PATTERN", "value": "\\s"}],
  "externals": []
}"#;

#[test]
fn reads_a_grammar_file() {
    let g = grammar_from_text(TOY).unwrap();
    assert_eq!(g.name, "toy");
    assert_eq!(g.start_rule.as_deref(), Some("s"));
    assert_eq!(g.rules.len(), 2);
    assert_eq!(g.rules[0].name, "a");
    assert_eq!(g.rules[1].name, "s");
    assert!(matches!(&g.rules[0].rule, Rule::Pattern(Some(v)) if v == "[a-z]+"));
    match &g.rules[1].rule {
        Rule::Sequence(ms) => {
            assert_eq!(ms.len(), 2);
            assert!(matches!(&ms[1], Rule::Prec(c) if matches!(&**c, Rule::StringLit(Some(v)) if v == "x")));
        },
        _ => panic!("the rule s is a SEQ"),
    }
    assert_eq!(g.extras.as_ref().map(|e| e.len()), Some(1));
    assert_eq!(g.externals.as_ref().map(|e| e.len()), Some(0));
}

#[test]
fn repeat1_keeps_the_debug_text_of_its_object() {
    let g = grammar_from_text(TOY).unwrap();
    let mut counter = IdCounter::new();
    let out = tree_sitter_to_txl_1(&g, &mut counter).unwrap();
    assert_eq!(
        out.grammar_text,
        "include \"toy-seq1.grm\"\n\
         \ndefine program\n    [s] [NL]\nend define\n\
         \ndefine s\n      [Some({\"content\": Object {\"name\": String(\"a\"), \"type\": String(\"SYMBOL\")}, \"type\": String(\"REPEAT1\")})]\n    'x\nend define\n"
    );
}

#[test]
fn unknown_types_keep_their_debug_text() {
    let v = parse_json(r#"{"type": "WEIRD", "n": 2, "b": true, "z": null}"#).unwrap();
    match decode_rule(&v) {
        Rule::Other(raw) => assert_eq!(
            raw,
            "Some({\"b\": Bool(true), \"n\": Number(2), \"type\": String(\"WEIRD\"), \"z\": Null})"
        ),
        _ => panic!("an unknown type is kept as it stands"),
    }
}

#[test]
fn object_debug_text_writes_the_map() {
    let fields = vec![("k".to_string(), Json::Array(vec![Json::Str("v".to_string())]))];
    assert_eq!(object_debug_text(&fields), "Some({\"k\": Array [String(\"v\")]})");
}

#[test]
fn missing_parts_refuse_the_grammar() {
    assert!(grammar_from_text("not json").is_none());
    assert!(grammar_from_text(r#"{"rules": {}}"#).is_none());
    assert!(grammar_from_text(r#"{"name": 3, "rules": {}}"#).is_none());
    assert!(grammar_from_text(r#"{"name": "n", "rules": []}"#).is_none());
    assert!(parse_json("[1, 2").is_none());
    assert!(matches!(decode_rule(&Json::Null), Rule::Untyped));
}

#[test]
fn optional_parts_stay_optional() {
    let g = grammar_from_text(r#"{"name": "n", "rules": {}, "start_rule": 4, "extras": {}}"#).unwrap();
    assert!(g.start_rule.is_none());
    assert!(g.extras.is_none());
    assert!(g.externals.is_none());
    assert!(g.rules.is_empty());
    let j = parse_json(r#"{"name": "n", "rules": {}}"#).unwrap();
    assert!(grammar_from_json(&j).is_some());
}

#[test]
fn one_text_gives_one_grammar() {
    let a = grammar_from_text(TOY).unwrap();
    let b = grammar_from_text(TOY).unwrap();
    let mut c1 = IdCounter::new();
    let mut c2 = IdCounter::new();
    let x = tree_sitter_to_txl_1(&a, &mut c1).unwrap();
    let y = tree_sitter_to_txl_1(&b, &mut c2).unwrap();
    assert_eq!(x.grammar_text, y.grammar_text);
    assert_eq!(x.seq_text, y.seq_text);
    assert_eq!(a.rules.len(), b.rules.len());
    for (p, q) in a.rules.iter().zip(b.rules.iter()) {
        assert_eq!(p.name, q.name);
    }
}

#[test]
fn second_generator_does_not_read_what_it_skips() {
    let text = r#"{
      "name": "n", "start_rule": "s",
      "rules": {
        "_h": 5,
        "s": {"type": "SEQ", "members": [{"type": "SYMBOL", "name": "a"}, {"type": "STRING"}]},
        "p": {"type": "PATTERN", "value": 7}
      },
      "extras": [{"type": "PATTERN"}, {"type": "CHOICE"}],
      "externals": []
    }"#;
    let g = grammar_from_text(text).unwrap();
    assert!(matches!(g.rules[0].rule, Rule::Untyped));
    let mut counter = IdCounter::new();
    let out = tree_sitter_to_txl_2(&g, &mut counter).unwrap();
    assert_eq!(
        out.grammar_text,
        "include \"tree-sitter.grm\"\ninclude \"n-seq2.grm\"\n\
         \nredefine p\n    '( 'p [Range] ')\nend define\n\
         \nredefine s\n    [a]end define\n\
         \nredefine Tree\n    [p] |\n    [s] |\n   ...\nend define\n"
    );
    let mut counter = IdCounter::new();
    assert!(tree_sitter_to_txl_1(&g, &mut counter).is_none());
}

#[test]
fn first_generator_does_not_read_what_it_skips() {
    let text = r#"{
      "name": "n", "start_rule": "s",
      "rules": {
        "s": {"type": "STRING", "value": "x"},
        "t": {"type": "TOKEN"},
        "u": {"type": "SYMBOL"},
        "v": {"type": "PATTERN"}
      }
    }"#;
    let g = grammar_from_text(text).unwrap();
    let mut counter = IdCounter::new();
    let out = tree_sitter_to_txl_1(&g, &mut counter).unwrap();
    assert_eq!(
        out.grammar_text,
        "include \"n-seq1.grm\"\n\ndefine program\n    [s] [NL]\nend define\n\ndefine s\n'x\nend define\n"
    );
}

#[test]
fn generators_fail_on_what_they_read_and_lack() {
    let g = grammar_from_text(r#"{"name": "n", "rules": {}, "extras": [{"type": "SYMBOL"}], "externals": []}"#).unwrap();
    let mut counter = IdCounter::new();
    assert!(tree_sitter_to_txl_2(&g, &mut counter).is_none());
    let g = grammar_from_text(r#"{"name": "n", "rules": {"t": {"type": "TOKEN"}}, "extras": [], "externals": []}"#).unwrap();
    assert!(tree_sitter_to_txl_2(&g, &mut counter).is_none());
    let g = grammar_from_text(r#"{"name": "n", "start_rule": "c", "rules": {"c": {"type": "CHOICE"}}}"#).unwrap();
    assert!(matches!(g.rules[0].rule, Rule::NoMembers));
    assert!(tree_sitter_to_txl_1(&g, &mut counter).is_none());
    let g = grammar_from_text(r#"{"name": "n", "start_rule": "s", "rules": {"s": {"type": "SEQ", "members": [{"type": "STRING", "value": 3}]}}}"#).unwrap();
    assert!(tree_sitter_to_txl_1(&g, &mut counter).is_none());
}

#[test]
fn large_numbers_keep_their_debug_text() {
    let v = parse_json(r#"{"type": "WEIRD", "x": 0.30000000000000004, "y": 18446744073709551615}"#).unwrap();
    match decode_rule(&v) {
        Rule::Other(raw) => assert_eq!(
            raw,
            "Some({\"type\": String(\"WEIRD\"), \"x\": Number(0.30000000000000004), \"y\": Number(18446744073709551615)})"
        ),
        _ => panic!("an unknown type is kept as it stands"),
    }
}
