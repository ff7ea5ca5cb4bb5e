use tree_sitter_txl::first::{file_names_1, include_line_1, to_txl_1, tree_sitter_to_txl_1};
use tree_sitter_txl::grammar::{Grammar, NamedRule, Rule};
use tree_sitter_txl::ids::{get_id, IdCounter};
use tree_sitter_txl::second::{file_names_2, header_2, to_txl_2, tree_sitter_to_txl_2, write_symbol_redefinitions};
use tree_sitter_txl::text::decimal_text;

fn sym(name: &str) -> Rule {
    Rule::Symbol(Some(name.to_string()))
}

fn lit(value: &str) -> Rule {
    Rule::StringLit(Some(value.to_string()))
}

fn first(node: &Rule) -> (Option<String>, String, usize) {
    let mut counter = IdCounter::new();
    let mut aux = String::new();
    let r = to_txl_1(node, &mut counter, &mut aux);
    (r, aux, counter.next)
}

fn second(node: &Rule) -> (Option<String>, String, usize) {
    let mut counter = IdCounter::new();
    let mut aux = String::new();
    let r = to_txl_2(node, &mut counter, &mut aux);
    (r, aux, counter.next)
}

fn named(name: &str, rule: Rule) -> NamedRule {
    NamedRule { name: name.to_string(), rule }
}

fn toy_grammar() -> Grammar {
    Grammar {
        name: "toy".to_string(),
        start_rule: Some("source_file".to_string()),
        rules: vec![
            named("source_file", Rule::Repeat(Box::new(sym("_item")))),
            named("_item", Rule::Choice(vec![sym("identifier"), sym("comment")])),
            named("comment", Rule::Pattern(Some("//.*".to_string()))),
            named("identifier", Rule::Pattern(Some("[a-z]+".to_string()))),
            named("pair", Rule::Sequence(vec![sym("identifier"), lit(":"), sym("identifier")])),
        ],
        extras: Some(vec![Rule::Pattern(Some("\\s".to_string())), sym("comment")]),
        externals: Some(vec![]),
    }
}

#[test]
fn get_id_counts_from_one() {
    let mut counter = IdCounter::new();
    assert_eq!(get_id(&mut counter), 1);
    assert_eq!(get_id(&mut counter), 2);
    assert_eq!(get_id(&mut counter), 3);
    assert_eq!(counter.next, 4);
}

#[test]
fn get_id_wraps_past_the_largest() {
    let mut counter = IdCounter { next: usize::MAX };
    assert_eq!(get_id(&mut counter), usize::MAX);
    assert_eq!(counter.next, 0);
}

#[test]
fn decimal_text_writes_digits() {
    assert_eq!(decimal_text(0), "0");
    assert_eq!(decimal_text(7), "7");
    assert_eq!(decimal_text(10), "10");
    assert_eq!(decimal_text(1207), "1207");
}

#[test]
fn first_symbols_are_renamed() {
    assert_eq!(first(&sym("identifier")).0.unwrap(), "[id]");
    assert_eq!(first(&sym("comment")).0.unwrap(), "[COMMENT]");
    assert_eq!(first(&sym("expression")).0.unwrap(), "[expression]");
    assert_eq!(first(&sym("_hidden")).0.unwrap(), "[_hidden]");
}

#[test]
fn first_leaves() {
    assert_eq!(first(&lit("fn")).0.unwrap(), "'fn");
    assert_eq!(first(&Rule::Pattern(Some("[0-9]+".to_string()))).0.unwrap(), "[0-9]+");
    assert_eq!(first(&Rule::Blank).0.unwrap(), "[empty]");
    assert_eq!(first(&Rule::Alias).0.unwrap(), "");
    assert_eq!(first(&Rule::Other("Some({})".to_string())).0.unwrap(), "[Some({})]");
}

#[test]
fn first_repeat1_writes_its_raw_object() {
    let node = Rule::Repeat1 { content: Box::new(sym("x")), raw: "Some({\"type\": String(\"REPEAT1\")})".to_string() };
    assert_eq!(first(&node).0.unwrap(), "[Some({\"type\": String(\"REPEAT1\")})]");
}

#[test]
fn first_tokens_are_quoted() {
    assert_eq!(first(&Rule::Token(Box::new(lit("a")))).0.unwrap(), "\"'a\"");
    assert_eq!(first(&Rule::ImmediateToken(Box::new(lit("a\"b")))).0.unwrap(), "\"'a\\\"b\"");
}

#[test]
fn first_sequence_and_choice() {
    let seq = Rule::Sequence(vec![sym("a"), lit(","), sym("b")]);
    assert_eq!(first(&seq).0.unwrap(), "[a] ', [b]");
    let choice = Rule::Choice(vec![sym("a"), Rule::Blank]);
    assert_eq!(first(&choice).0.unwrap(), "([a]|[empty])");
    assert_eq!(first(&Rule::Sequence(vec![])).0.unwrap(), "");
    assert_eq!(first(&Rule::Choice(vec![])).0.unwrap(), "()");
    assert_eq!(first(&Rule::Prec(Box::new(sym("a")))).0.unwrap(), "[a]");
}

#[test]
fn first_field() {
    let node = Rule::Field { name: Some("body".to_string()), content: Box::new(sym("block")) };
    assert_eq!(first(&node).0.unwrap(), "[IN] [NL] [SPOFF] 'body ': [SPON] \"[block]\"");
}

#[test]
fn first_repeat_of_a_symbol_strips_brackets() {
    let (r, aux, next) = first(&Rule::Repeat(Box::new(sym("x"))));
    assert_eq!(r.unwrap(), "[x*]");
    assert_eq!(aux, "");
    assert_eq!(next, 1);
}

#[test]
fn first_repeat_of_a_sequence_gets_a_definition() {
    let node = Rule::Repeat(Box::new(Rule::Sequence(vec![sym("a"), lit(",")])));
    let (r, aux, next) = first(&node);
    assert_eq!(r.unwrap(), "[seq_1*]");
    assert_eq!(aux, "\ndefine seq_1\n    [a] ',\nend define\n");
    assert_eq!(next, 2);
}

#[test]
fn first_nested_repeats_are_numbered_inside_out() {
    let inner = Rule::Repeat(Box::new(Rule::Choice(vec![sym("a"), sym("b")])));
    let node = Rule::Repeat(Box::new(Rule::Sequence(vec![inner, sym("c")])));
    let (r, aux, next) = first(&node);
    assert_eq!(r.unwrap(), "[seq_2*]");
    assert_eq!(
        aux,
        "\ndefine seq_1\n    ([a]|[b])\nend define\n\ndefine seq_2\n    [seq_1*] [c]\nend define\n"
    );
    assert_eq!(next, 3);
}

#[test]
fn first_repeat_that_cannot_be_cut_fails() {
    assert!(first(&Rule::Repeat(Box::new(Rule::Alias))).0.is_none());
    assert!(first(&Rule::Repeat(Box::new(lit("é")))).0.is_none());
    assert!(first(&Rule::Repeat(Box::new(Rule::Pattern(Some("x".to_string()))))).0.is_none());
    assert_eq!(first(&Rule::Repeat(Box::new(lit(",")))).0.unwrap(), "[*]");
    assert_eq!(first(&Rule::Repeat(Box::new(Rule::Blank))).0.unwrap(), "[empty*]");
}

#[test]
fn second_symbols() {
    assert_eq!(second(&sym("identifier")).0.unwrap(), "[identifier]");
    assert_eq!(second(&sym("comment")).0.unwrap(), "[COMMENT]");
    assert_eq!(second(&sym("_hidden")).0.unwrap(), "");
}

#[test]
fn second_leaves() {
    assert_eq!(second(&lit("fn")).0.unwrap(), "");
    assert_eq!(second(&Rule::Pattern(Some("x".to_string()))).0.unwrap(), "");
    assert_eq!(second(&Rule::Blank).0.unwrap(), "[empty]");
    assert_eq!(second(&Rule::Alias).0.unwrap(), "");
    assert_eq!(second(&Rule::Other("Some({})".to_string())).0.unwrap(), "[Some({})]");
    assert_eq!(second(&Rule::Token(Box::new(sym("a")))).0.unwrap(), "\"[a]\"");
}

#[test]
fn second_sequence_and_choice() {
    let seq = Rule::Sequence(vec![sym("a"), lit(","), sym("b")]);
    assert_eq!(second(&seq).0.unwrap(), "[a][b]");
    let choice = Rule::Choice(vec![sym("a"), lit("x"), sym("b")]);
    assert_eq!(second(&choice).0.unwrap(), "([a]|[b])");
    let single = Rule::Choice(vec![lit("x"), sym("a")]);
    assert_eq!(second(&single).0.unwrap(), "[a]");
    let none = Rule::Choice(vec![lit("x"), sym("_a")]);
    assert_eq!(second(&none).0.unwrap(), "");
}

#[test]
fn second_field() {
    let empty = Rule::Field { name: Some("f".to_string()), content: Box::new(lit("x")) };
    assert_eq!(second(&empty).0.unwrap(), "[IN] [NL] [SPOFF] 'f ': [SPON] [Tree]\n");
    let full = Rule::Field { name: Some("f".to_string()), content: Box::new(sym("a")) };
    assert_eq!(second(&full).0.unwrap(), "[IN] [NL] [SPOFF] 'f ': [SPON] [a]\n");
}

#[test]
fn second_repeats() {
    assert_eq!(second(&Rule::Repeat(Box::new(sym("x")))).0.unwrap(), "[x*]");
    assert_eq!(second(&Rule::Repeat(Box::new(sym("_x")))).0.unwrap(), "");
    assert_eq!(second(&Rule::Repeat(Box::new(lit("x")))).0.unwrap(), "");
    let token = Rule::Repeat1 { content: Box::new(Rule::Token(Box::new(lit("x")))), raw: String::new() };
    assert_eq!(second(&token).0.unwrap(), "[*]");
    let (r, aux, next) = second(&Rule::Repeat(Box::new(Rule::Sequence(vec![sym("a"), sym("b")]))));
    assert_eq!(r.unwrap(), "[seq_1*]");
    assert_eq!(aux, "\ndefine seq_1\n    [a][b]\nend define\n");
    assert_eq!(next, 2);
    let (r, aux, next) = second(&Rule::Repeat(Box::new(Rule::Sequence(vec![lit("a")]))));
    assert_eq!(r.unwrap(), "");
    assert_eq!(aux, "");
    assert_eq!(next, 1);
}

#[test]
fn second_repeat_cuts_by_characters() {
    let node = Rule::Repeat(Box::new(Rule::Other("é".to_string())));
    assert_eq!(second(&node).0.unwrap(), "[é*]");
    let bad = Rule::Repeat(Box::new(Rule::Token(Box::new(Rule::Other("é".to_string())))));
    assert_eq!(second(&bad).0.unwrap(), "[[é]*]");
    let field = Rule::Repeat(Box::new(Rule::Field { name: Some("f".to_string()), content: Box::new(sym("é")) }));
    assert_eq!(second(&field).0.unwrap(), "[IN] [NL] [SPOFF] 'f ': [SPON] [é]*]");
}

#[test]
fn first_grammar() {
    let mut counter = IdCounter::new();
    let out = tree_sitter_to_txl_1(&toy_grammar(), &mut counter).unwrap();
    assert_eq!(out.grammar_file, "toy1.grm");
    assert_eq!(out.seq_file, "toy-seq1.grm");
    assert_eq!(
        out.grammar_text,
        "include \"toy-seq1.grm\"\n\
         \ndefine program\n    [source_file] [NL]\nend define\n\
         \ndefine source_file\n    [_item*]\nend define\n\
         \ndefine _item\n      [id]\n    | [COMMENT]\nend define\n\
         \ndefine pair\n      [id]\n    ':\n    [id]\nend define\n"
    );
    assert_eq!(out.seq_text, "");
    assert_eq!(counter.next, 1);
}

#[test]
fn first_file_names_and_include_line() {
    let (main, seqs) = file_names_1(&"toy".to_string());
    assert_eq!(main, "toy1.grm");
    assert_eq!(seqs, "toy-seq1.grm");
    assert_eq!(include_line_1(&"toy".to_string()), "include \"toy-seq1.grm\"\n");
}

#[test]
fn first_grammar_rule_kinds() {
    let g = Grammar {
        name: "k".to_string(),
        start_rule: Some("s".to_string()),
        rules: vec![
            named("comment", Rule::Field { name: Some("f".to_string()), content: Box::new(sym("x")) }),
            named("p", Rule::Prec(Box::new(Rule::Sequence(vec![sym("a"), lit("b")])))),
            named("s", lit("x")),
            named("t", Rule::Token(Box::new(lit("y")))),
            named("u", Rule::ImmediateToken(Box::new(lit("y")))),
            named("r", Rule::Repeat(Box::new(Rule::Repeat(Box::new(Rule::Choice(vec![sym("a"), sym("b")])))))),
            named("c", Rule::Choice(vec![Rule::Alias, Rule::Pattern(Some("p".to_string())), sym("a")])),
        ],
        extras: None,
        externals: None,
    };
    let mut counter = IdCounter { next: 41 };
    let out = tree_sitter_to_txl_1(&g, &mut counter).unwrap();
    assert_eq!(
        out.grammar_text,
        "include \"k-seq1.grm\"\n\
         \ndefine program\n    [s] [NL]\nend define\n\
         \ndefine COMMENT\n[x]\nend define\n\
         \ndefine p\n[a] 'b\nend define\n\
         \ndefine s\n'x\nend define\n\
         \ndefine u\n'y\nend define\n\
         \ndefine r\n    [seq_41**]\nend define\n\
         \ndefine c\n            p\n    | [a]\nend define\n"
    );
    assert_eq!(out.seq_text, "\ndefine seq_41\n    ([a]|[b])\nend define\n");
    assert_eq!(counter.next, 42);
}

#[test]
fn second_grammar() {
    let mut counter = IdCounter::new();
    let out = tree_sitter_to_txl_2(&toy_grammar(), &mut counter).unwrap();
    assert_eq!(out.grammar_file, "toy2.grm");
    assert_eq!(out.seq_file, "toy-seq2.grm");
    assert_eq!(
        out.grammar_text,
        "include \"tree-sitter.grm\"\n\
         include \"toy-seq2.grm\"\n\
         \nredefine comment\n    '( 'comment [Range] ')\nend define\n\
         \nredefine source_file\n        '( 'source_file [Range] ')\nend define\n\
         \nredefine comment\n    '( 'comment [Range] ')\nend define\n\
         \nredefine identifier\n    '( 'identifier [Range] ')\nend define\n\
         \nredefine pair\n    [identifier] [identifier]end define\n\
         \nredefine Tree\n    [source_file] |\n    [COMMENT] |\n    [identifier] |\n    [pair] |\n   ...\nend define\n"
    );
    assert_eq!(out.seq_text, "");
    assert_eq!(counter.next, 1);
}

#[test]
fn second_file_names_and_header() {
    let (main, seqs) = file_names_2(&"toy".to_string());
    assert_eq!(main, "toy2.grm");
    assert_eq!(seqs, "toy-seq2.grm");
    assert_eq!(header_2(&"toy".to_string()), "include \"tree-sitter.grm\"\ninclude \"toy-seq2.grm\"\n");
}

#[test]
fn second_grammar_rule_kinds() {
    let g = Grammar {
        name: "k".to_string(),
        start_rule: None,
        rules: vec![
            named("items", Rule::Repeat(Box::new(Rule::Choice(vec![sym("a"), sym("b")])))),
            named("list", Rule::Repeat1 { content: Box::new(sym("x")), raw: String::new() }),
            named("lit", Rule::Choice(vec![sym("a"), sym("a"), lit("x"), sym("b")])),
            named("late", Rule::Choice(vec![lit("x"), sym("a")])),
            named("blank", Rule::Choice(vec![lit("x")])),
            named("seq", Rule::Sequence(vec![lit("x")])),
            named("f", Rule::Field { name: Some("n".to_string()), content: Box::new(lit("x")) }),
            named("p", Rule::Prec(Box::new(sym("a")))),
            named("t", Rule::Token(Box::new(lit("x")))),
            named("s", lit("x")),
            named("_h", sym("a")),
            named("y", sym("a")),
        ],
        extras: Some(vec![]),
        externals: Some(vec![sym("ext")]),
    };
    let mut counter = IdCounter { next: 7 };
    let out = tree_sitter_to_txl_2(&g, &mut counter).unwrap();
    assert_eq!(
        out.grammar_text,
        "include \"tree-sitter.grm\"\n\
         include \"k-seq2.grm\"\n\
         \nredefine ext\n    '( 'ext [Range] ')\nend define\n\
         \nredefine items\n    [seq_7*]\nend define\n\
         \nredefine list\n    [x*]\nend define\n\
         \nredefine lit\n      [a]\n    | [b]\nend define\n\
         \nredefine late\n    | [a]\nend define\n\
         \nredefine blank\n    '( 'blank [Range] ')\nend define\n\
         \nredefine seq\n        '( 'seq [Range] ')\nend define\n\
         \nredefine f\n\nend define\n\
         \nredefine p\n[a]\nend define\n\
         \nredefine t\n    '( 't [Range] ')\nend define\n\
         \nredefine s\n    '( 's [Range] ')\nend define\n\
         \nredefine Tree\n    [items] |\n    [list] |\n    [lit] |\n    [late] |\n    [blank] |\n    [seq] |\n    [f] |\n    [p] |\n    [t] |\n    [s] |\n    [y] |\n   ...\nend define\n"
    );
    assert_eq!(out.seq_text, "\nredefine seq_7\n    ([a]|[b])\nend define\n");
    assert_eq!(counter.next, 8);
}

#[test]
fn both_generators_share_the_counter() {
    let g = Grammar {
        name: "g".to_string(),
        start_rule: Some("r".to_string()),
        rules: vec![named("r", Rule::Sequence(vec![Rule::Repeat(Box::new(Rule::Sequence(vec![sym("a")])))]))],
        extras: Some(vec![]),
        externals: Some(vec![]),
    };
    let mut counter = IdCounter::new();
    let one = tree_sitter_to_txl_1(&g, &mut counter).unwrap();
    assert_eq!(one.seq_text, "\ndefine seq_1\n    [a]\nend define\n");
    assert_eq!(one.grammar_text, "include \"g-seq1.grm\"\n\ndefine program\n    [r] [NL]\nend define\n\ndefine r\n      [seq_1*]\nend define\n");
    let two = tree_sitter_to_txl_2(&g, &mut counter).unwrap();
    assert_eq!(two.seq_text, "\ndefine seq_2\n    [a]\nend define\n");
    assert_eq!(counter.next, 3);
}

#[test]
fn repeat_free_nodes_ignore_the_counter() {
    let node = Rule::Choice(vec![
        sym("a"),
        Rule::Token(Box::new(lit("b"))),
        Rule::Field { name: Some("f".to_string()), content: Box::new(Rule::Sequence(vec![sym("c"), lit("d")])) },
    ]);
    let mut texts_1 = Vec::new();
    let mut texts_2 = Vec::new();
    for start in [1usize, 99, usize::MAX] {
        let mut counter = IdCounter { next: start };
        let mut aux = String::new();
        texts_1.push(to_txl_1(&node, &mut counter, &mut aux).unwrap());
        assert_eq!(counter.next, start);
        assert_eq!(aux, "");
        texts_2.push(to_txl_2(&node, &mut counter, &mut aux).unwrap());
        assert_eq!(counter.next, start);
        assert_eq!(aux, "");
    }
    assert_eq!(texts_1[0], "([a]|\"'b\"|[IN] [NL] [SPOFF] 'f ': [SPON] \"[c] 'd\")");
    assert_eq!(texts_1[0], texts_1[1]);
    assert_eq!(texts_1[0], texts_1[2]);
    assert_eq!(texts_2[0], "([a]|\"\"|[IN] [NL] [SPOFF] 'f ': [SPON] [c]\n)");
    assert_eq!(texts_2[0], texts_2[1]);
    assert_eq!(texts_2[0], texts_2[2]);
}

#[test]
fn second_definitions_are_numbered_in_order() {
    let g = Grammar {
        name: "n".to_string(),
        start_rule: None,
        rules: vec![
            named("items", Rule::Repeat(Box::new(Rule::Choice(vec![sym("a"), sym("b")])))),
            named("pair", Rule::Sequence(vec![Rule::Repeat(Box::new(Rule::Sequence(vec![sym("a"), sym("b")])))])),
        ],
        extras: Some(vec![]),
        externals: Some(vec![]),
    };
    let mut counter = IdCounter { next: 5 };
    let out = tree_sitter_to_txl_2(&g, &mut counter).unwrap();
    assert_eq!(
        out.seq_text,
        "\nredefine seq_5\n    ([a]|[b])\nend define\n\ndefine seq_6\n    [a][b]\nend define\n"
    );
    assert_eq!(
        out.grammar_text,
        "include \"tree-sitter.grm\"\ninclude \"n-seq2.grm\"\n\
         \nredefine items\n    [seq_5*]\nend define\n\
         \nredefine pair\n    [seq_6*]end define\n\
         \nredefine Tree\n    [items] |\n    [pair] |\n   ...\nend define\n"
    );
    assert_eq!(counter.next, 7);
}

#[test]
fn first_generator_writes_one_definition_per_repeated_group() {
    let group = |a: &str| Rule::Repeat(Box::new(Rule::Sequence(vec![sym(a)])));
    let node = Rule::Choice(vec![group("a"), Rule::Repeat(Box::new(sym("b"))), group("c")]);
    let (text, aux, next) = first(&node);
    assert_eq!(text.unwrap(), "([seq_1*]|[b*]|[seq_2*])");
    assert_eq!(aux, "\ndefine seq_1\n    [a]\nend define\n\ndefine seq_2\n    [c]\nend define\n");
    assert_eq!(next, 3);
    let (_, aux, next) = first(&Rule::Repeat(Box::new(sym("b"))));
    assert_eq!(aux, "");
    assert_eq!(next, 1);
}

#[test]
fn second_generator_writes_one_definition_per_repeated_group_with_text() {
    let node = Rule::Sequence(vec![
        Rule::Repeat(Box::new(Rule::Sequence(vec![sym("a")]))),
        Rule::Repeat1 { content: Box::new(Rule::Choice(vec![lit("x")])), raw: String::new() },
    ]);
    let (text, aux, next) = second(&node);
    assert_eq!(text.unwrap(), "[seq_1*]");
    assert_eq!(aux, "\ndefine seq_1\n    [a]\nend define\n");
    assert_eq!(next, 2);
}

#[test]
fn first_generator_skips_unhandled_rules() {
    let mut with = toy_grammar();
    with.rules.insert(1, named("tok", Rule::Token(Box::new(lit("t")))));
    with.rules.insert(2, named("more", Rule::Repeat1 { content: Box::new(sym("a")), raw: "x".to_string() }));
    let mut c1 = IdCounter::new();
    let mut c2 = IdCounter::new();
    let a = tree_sitter_to_txl_1(&with, &mut c1).unwrap();
    let b = tree_sitter_to_txl_1(&toy_grammar(), &mut c2).unwrap();
    assert_eq!(a.grammar_text, b.grammar_text);
    assert_eq!(a.seq_text, b.seq_text);
    assert_eq!(c1.next, c2.next);
}

#[test]
fn second_choice_rule_writes_each_text_once() {
    let g = Grammar {
        name: "c".to_string(),
        start_rule: None,
        rules: vec![
            named("x", Rule::Choice(vec![lit("s"), sym("a"), sym("_h"), sym("a"), Rule::Alias, sym("b")])),
            named("y", Rule::Choice(vec![lit("s"), Rule::Pattern(Some("p".to_string()))])),
        ],
        extras: Some(vec![]),
        externals: Some(vec![]),
    };
    let mut counter = IdCounter::new();
    let out = tree_sitter_to_txl_2(&g, &mut counter).unwrap();
    assert_eq!(
        out.grammar_text,
        "include \"tree-sitter.grm\"\ninclude \"c-seq2.grm\"\n\
         \nredefine x\n    | [a]\n    | [b]\nend define\n\
         \nredefine y\n    '( 'y [Range] ')\nend define\n\
         \nredefine Tree\n    [x] |\n    [y] |\n   ...\nend define\n"
    );
}

#[test]
fn second_repeat_rule_of_a_choice_text() {
    let g = Grammar {
        name: "r".to_string(),
        start_rule: None,
        rules: vec![
            named("many", Rule::Repeat(Box::new(Rule::Prec(Box::new(Rule::Choice(vec![sym("a"), sym("b")])))))),
            named("one", Rule::Repeat1 { content: Box::new(sym("a")), raw: String::new() }),
            named("none", Rule::Repeat(Box::new(lit("x")))),
        ],
        extras: Some(vec![]),
        externals: Some(vec![]),
    };
    let mut counter = IdCounter { next: 9 };
    let out = tree_sitter_to_txl_2(&g, &mut counter).unwrap();
    assert_eq!(
        out.grammar_text,
        "include \"tree-sitter.grm\"\ninclude \"r-seq2.grm\"\n\
         \nredefine many\n    [seq_9*]\nend define\n\
         \nredefine one\n    [a*]\nend define\n\
         \nredefine none\n        '( 'none [Range] ')\nend define\n\
         \nredefine Tree\n    [many] |\n    [one] |\n    [none] |\n   ...\nend define\n"
    );
    assert_eq!(out.seq_text, "\nredefine seq_9\n    ([a]|[b])\nend define\n");
    assert_eq!(counter.next, 10);
}

#[test]
fn symbol_redefinitions_of_extras() {
    let mut out = String::from("h");
    write_symbol_redefinitions(&vec![Rule::Pattern(Some("\\s".to_string())), sym("line_comment")], &mut out);
    assert_eq!(out, "h\nredefine line_comment\n    '( 'line_comment [Range] ')\nend define\n");
}

#[test]
fn repeat_of_a_token_always_has_a_text() {
    let node = Rule::Repeat(Box::new(Rule::Token(Box::new(lit("x")))));
    assert_eq!(first(&node).0.unwrap(), "['x*]");
    let node = Rule::Repeat(Box::new(Rule::ImmediateToken(Box::new(sym("é")))));
    assert_eq!(first(&node).0.unwrap(), "[[é]*]");
    let node = Rule::Repeat(Box::new(Rule::Token(Box::new(lit("x")))));
    assert_eq!(second(&node).0.unwrap(), "[*]");
}

#[test]
fn second_generator_skips_hidden_rules() {
    let mut less = toy_grammar();
    less.rules.remove(1);
    let mut c1 = IdCounter::new();
    let mut c2 = IdCounter::new();
    let a = tree_sitter_to_txl_2(&toy_grammar(), &mut c1).unwrap();
    let b = tree_sitter_to_txl_2(&less, &mut c2).unwrap();
    assert_eq!(a.grammar_text, b.grammar_text);
    assert_eq!(a.seq_text, b.seq_text);
    assert_eq!(c1.next, c2.next);
}
