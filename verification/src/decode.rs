//! Reading a tree-sitter grammar out of its JSON document.
use vstd::prelude::*;
use vstd::string::*;
use crate::grammar::{Grammar, NamedRule, Rule};
use crate::json::{object_debug, object_debug_text, parse_json, parsed_json, Json};

verus! {

/// True when entry `i` of `fields` is the first one with the key `key`.
pub open spec fn key_at(fields: Seq<(String, Json)>, key: Seq<char>, i: int) -> bool {
    &&& 0 <= i < fields.len()
    &&& fields[i].0@ == key
    &&& forall|j: int| 0 <= j < i ==> fields[j].0@ != key
}

/// True when some entry of `fields` has the key `key`.
pub open spec fn has_key(fields: Seq<(String, Json)>, key: Seq<char>) -> bool {
    exists|i: int| key_at(fields, key, i)
}

/// The position of the first entry of `fields` with the key `key`.
pub open spec fn key_index(fields: Seq<(String, Json)>, key: Seq<char>) -> int {
    choose|i: int| key_at(fields, key, i)
}

/// The value under `key` in `fields`, where there is one.
pub open spec fn field(fields: Seq<(String, Json)>, key: Seq<char>) -> Option<Json> {
    if has_key(fields, key) {
        Some(fields[key_index(fields, key)].1)
    } else {
        None
    }
}

/// True when the value under `key` in `fields` is the string `s`.
pub open spec fn str_field(fields: Seq<(String, Json)>, key: Seq<char>, s: Seq<char>) -> bool {
    field(fields, key) matches Some(Json::Str(t)) && t@ == s
}

/// True when `o` is what a node with the entries `fields` gives for the
/// string under `key`: `Some` of that string, or `None` where there is no
/// string under `key`.
pub open spec fn str_opt(fields: Seq<(String, Json)>, key: Seq<char>, o: Option<String>) -> bool {
    match o {
        Some(s) => str_field(fields, key, s@),
        None => !(field(fields, key) matches Some(Json::Str(_))),
    }
}

/// True when the node with the entries `fields` has an array of `members`.
pub open spec fn has_members(fields: Seq<(String, Json)>) -> bool {
    field(fields, "members"@) matches Some(Json::Array(_))
}

/// True when the JSON value `v` is read as the rule `r`: by its `type` where
/// it is an object with a string `type`, else as `Untyped`.
pub open spec fn decodes_rule(v: Json, r: Rule) -> bool
    decreases v, 1int,
{
    match v {
        Json::Object(fields) => if has_key(fields@, "type"@) {
            match fields@[key_index(fields@, "type"@)].1 {
                Json::Str(t) => decodes_object(t@, fields@, r),
                _ => r is Untyped,
            }
        } else {
            r is Untyped
        },
        _ => r is Untyped,
    }
}

/// True when the `content` of a node with the entries `fields` is read as
/// the rule `c`: `Untyped` where there is no `content`.
pub open spec fn decodes_content(fields: Seq<(String, Json)>, c: Rule) -> bool
    decreases fields, 0int,
{
    if has_key(fields, "content"@) {
        decodes_rule(fields[key_index(fields, "content"@)].1, c)
    } else {
        c is Untyped
    }
}

/// True when the `members` of a node with the entries `fields` are an array
/// read as the rules `rs`, one for one.
pub open spec fn decodes_members(fields: Seq<(String, Json)>, rs: Seq<Rule>) -> bool
    decreases fields, 0int,
{
    if has_key(fields, "members"@) {
        match fields[key_index(fields, "members"@)].1 {
            Json::Array(items) => items@.len() == rs.len() && forall|j: int|
                0 <= j < rs.len() ==> decodes_rule(#[trigger] items@[j], rs[j]),
            _ => false,
        }
    } else {
        false
    }
}

/// True when an object with the entries `fields` and the type `t` is read as
/// the rule `r`.  Only the fields that the type needs are read, each only as
/// far as its own level.
pub open spec fn decodes_object(t: Seq<char>, fields: Seq<(String, Json)>, r: Rule) -> bool
    decreases fields, 1int,
{
    if t == "REPEAT"@ {
        r matches Rule::Repeat(c) && decodes_content(fields, *c)
    } else if t == "REPEAT1"@ {
        r matches Rule::Repeat1 { content, raw } && decodes_content(fields, *content) && raw@
            == object_debug(fields)
    } else if t == "SYMBOL"@ {
        r matches Rule::Symbol(name) && str_opt(fields, "name"@, name)
    } else if t == "TOKEN"@ {
        r matches Rule::Token(c) && decodes_content(fields, *c)
    } else if t == "IMMEDIATE_TOKEN"@ {
        r matches Rule::ImmediateToken(c) && decodes_content(fields, *c)
    } else if t == "STRING"@ {
        r matches Rule::StringLit(value) && str_opt(fields, "value"@, value)
    } else if t == "PATTERN"@ {
        r matches Rule::Pattern(value) && str_opt(fields, "value"@, value)
    } else if t == "PREC_LEFT"@ || t == "PREC"@ || t == "PREC_RIGHT"@ {
        r matches Rule::Prec(c) && decodes_content(fields, *c)
    } else if t == "SEQ"@ {
        if has_members(fields) {
            r matches Rule::Sequence(ms) && decodes_members(fields, ms@)
        } else {
            r is NoMembers
        }
    } else if t == "CHOICE"@ {
        if has_members(fields) {
            r matches Rule::Choice(ms) && decodes_members(fields, ms@)
        } else {
            r is NoMembers
        }
    } else if t == "ALIAS"@ {
        r is Alias
    } else if t == "BLANK"@ {
        r is Blank
    } else if t == "FIELD"@ {
        r matches Rule::Field { name, content } && str_opt(fields, "name"@, name)
            && decodes_content(fields, *content)
    } else {
        r matches Rule::Other(raw) && raw@ == object_debug(fields)
    }
}

/// The first entry of `fields` with the key `key`, where there is one.
fn find_key(fields: &Vec<(String, Json)>, key: &str) -> (r: Option<usize>)
    ensures
        r is Some <==> has_key(fields@, key@),
        r matches Some(i) ==> key_index(fields@, key@) == i && key_at(fields@, key@, i as int),
{
    let k = String::from_str(key);
    let len = fields.len();
    let mut i: usize = 0;
    while i < len
        invariant
            len == fields@.len(),
            i <= len,
            k@ == key@,
            forall|j: int| 0 <= j < i ==> fields@[j].0@ != key@,
        decreases len - i,
    {
        if fields[i].0 == k {
            proof {
                assert(key_at(fields@, key@, i as int));
                let c = key_index(fields@, key@);
                assert(key_at(fields@, key@, c));
                if c < i {
                    assert(fields@[c].0@ != key@);
                }
                if c > i {
                    assert(fields@[i as int].0@ != key@);
                }
            }
            return Some(i);
        }
        i = i + 1;
    }
    None
}

/// Tells whether `s` holds the text `lit`.
fn is_text(s: &String, lit: &str) -> (b: bool)
    ensures
        b == (s@ == lit@),
{
    let l = String::from_str(lit);
    *s == l
}

/// The string under `key` in `fields`, where there is one.
fn str_field_of(fields: &Vec<(String, Json)>, key: &str) -> (r: Option<String>)
    ensures
        r is Some <==> (field(fields@, key@) matches Some(Json::Str(_))),
        str_opt(fields@, key@, r),
{
    match find_key(fields, key) {
        Some(i) => match &fields[i].1 {
            Json::Str(s) => Some(s.clone()),
            _ => None,
        },
        None => None,
    }
}

/// Reads the JSON value `v` as a rule.
pub fn decode_rule(v: &Json) -> (r: Rule)
    ensures
        decodes_rule(*v, r),
    decreases v, 1int,
{
    let fields = match v {
        Json::Object(fields) => fields,
        _ => return Rule::Untyped,
    };
    let i = match find_key(fields, "type") {
        Some(i) => i,
        None => return Rule::Untyped,
    };
    match &fields[i].1 {
        Json::Str(t) => decode_object(t, fields),
        _ => Rule::Untyped,
    }
}

/// Reads the `content` of a node with the entries `fields`.
fn decode_content(fields: &Vec<(String, Json)>) -> (r: Rule)
    ensures
        decodes_content(fields@, r),
    decreases fields, 0int,
{
    match find_key(fields, "content") {
        Some(i) => decode_rule(&fields[i].1),
        None => Rule::Untyped,
    }
}

/// Reads the JSON values `items` as rules, one for one.
fn decode_list(items: &Vec<Json>) -> (r: Vec<Rule>)
    ensures
        list_decodes(items@, r@),
    decreases items, 0int,
{
    let mut out: Vec<Rule> = Vec::new();
    let len = items.len();
    let mut i: usize = 0;
    while i < len
        invariant
            len == items@.len(),
            i <= len,
            out@.len() == i,
            forall|j: int| 0 <= j < i ==> decodes_rule(#[trigger] items@[j], out@[j]),
        decreases len - i,
    {
        let x = decode_rule(&items[i]);
        out.push(x);
        i = i + 1;
    }
    out
}

/// Reads the `members` of a node with the entries `fields`, where they are an
/// array.
fn decode_members(fields: &Vec<(String, Json)>) -> (r: Option<Vec<Rule>>)
    ensures
        r is Some <==> has_members(fields@),
        r matches Some(rs) ==> decodes_members(fields@, rs@),
    decreases fields, 0int,
{
    let i = match find_key(fields, "members") {
        Some(i) => i,
        None => return None,
    };
    match &fields[i].1 {
        Json::Array(items) => Some(decode_list(items)),
        _ => None,
    }
}

/// Reads an object with the entries `fields` and the type `t` as a rule.
fn decode_object(t: &String, fields: &Vec<(String, Json)>) -> (r: Rule)
    ensures
        decodes_object(t@, fields@, r),
    decreases fields, 1int,
{
    if is_text(t, "REPEAT") {
        Rule::Repeat(Box::new(decode_content(fields)))
    } else if is_text(t, "REPEAT1") {
        let content = Box::new(decode_content(fields));
        Rule::Repeat1 { content, raw: object_debug_text(fields) }
    } else if is_text(t, "SYMBOL") {
        Rule::Symbol(str_field_of(fields, "name"))
    } else if is_text(t, "TOKEN") {
        Rule::Token(Box::new(decode_content(fields)))
    } else if is_text(t, "IMMEDIATE_TOKEN") {
        Rule::ImmediateToken(Box::new(decode_content(fields)))
    } else if is_text(t, "STRING") {
        Rule::StringLit(str_field_of(fields, "value"))
    } else if is_text(t, "PATTERN") {
        Rule::Pattern(str_field_of(fields, "value"))
    } else if is_text(t, "PREC_LEFT") || is_text(t, "PREC") || is_text(t, "PREC_RIGHT") {
        Rule::Prec(Box::new(decode_content(fields)))
    } else if is_text(t, "SEQ") {
        match decode_members(fields) {
            Some(ms) => Rule::Sequence(ms),
            None => Rule::NoMembers,
        }
    } else if is_text(t, "CHOICE") {
        match decode_members(fields) {
            Some(ms) => Rule::Choice(ms),
            None => Rule::NoMembers,
        }
    } else if is_text(t, "ALIAS") {
        Rule::Alias
    } else if is_text(t, "BLANK") {
        Rule::Blank
    } else if is_text(t, "FIELD") {
        let name = str_field_of(fields, "name");
        Rule::Field { name, content: Box::new(decode_content(fields)) }
    } else {
        Rule::Other(object_debug_text(fields))
    }
}

/// True when the entries `items` are read as the rules `rs`, one for one.
pub open spec fn list_decodes(items: Seq<Json>, rs: Seq<Rule>) -> bool {
    &&& items.len() == rs.len()
    &&& forall|j: int| 0 <= j < rs.len() ==> decodes_rule(#[trigger] items[j], rs[j])
}

/// True when the entry `e` of the `rules` object is read as the named rule `r`.
pub open spec fn entry_decodes(e: (String, Json), r: NamedRule) -> bool {
    e.0@ == r.name@ && decodes_rule(e.1, r.rule)
}

/// True when the entries `entries` of the `rules` object are read as the
/// named rules `rules`, one for one and in the same order.
pub open spec fn rules_decode(entries: Seq<(String, Json)>, rules: Seq<NamedRule>) -> bool {
    &&& entries.len() == rules.len()
    &&& forall|j: int| 0 <= j < rules.len() ==> entry_decodes(#[trigger] entries[j], rules[j])
}

/// True when the entry `key` of `fields` is read as `o`: `Some` of the rules
/// of an array, or `None` where the entry is missing or not an array.
pub open spec fn list_field_decodes(fields: Seq<(String, Json)>, key: Seq<char>, o: Option<Vec<Rule>>) -> bool {
    match o {
        Some(rs) => field(fields, key) matches Some(Json::Array(items)) && list_decodes(items@, rs@),
        None => !(field(fields, key) matches Some(Json::Array(_))),
    }
}

/// True when the JSON document `v` holds a grammar that both generators can
/// start on: an object whose `name` is a string and whose `rules` is an
/// object.
pub open spec fn grammar_readable(v: Json) -> bool {
    &&& v matches Json::Object(fields)
    &&& field(fields@, "name"@) matches Some(Json::Str(_))
    &&& field(fields@, "rules"@) matches Some(Json::Object(_))
}

/// True when the JSON document `v` is read as the grammar `g`: its string
/// `name`, its `start_rule` where that is a string, the entries of its
/// `rules` object in order, and its `extras` and `externals` where they are
/// arrays.
pub open spec fn decodes_grammar(v: Json, g: Grammar) -> bool {
    match v {
        Json::Object(fields) => {
            &&& str_field(fields@, "name"@, g.name@)
            &&& str_opt(fields@, "start_rule"@, g.start_rule)
            &&& field(fields@, "rules"@) matches Some(Json::Object(entries)) && rules_decode(entries@, g.rules@)
            &&& list_field_decodes(fields@, "extras"@, g.extras)
            &&& list_field_decodes(fields@, "externals"@, g.externals)
        },
        _ => false,
    }
}

/// Reads the entries of the `rules` object as named rules.
fn decode_named_rules(entries: &Vec<(String, Json)>) -> (r: Vec<NamedRule>)
    ensures
        rules_decode(entries@, r@),
{
    let mut out: Vec<NamedRule> = Vec::new();
    let len = entries.len();
    let mut i: usize = 0;
    while i < len
        invariant
            len == entries@.len(),
            i <= len,
            out@.len() == i,
            forall|j: int| 0 <= j < i ==> entry_decodes(#[trigger] entries@[j], out@[j]),
        decreases len - i,
    {
        let x = decode_rule(&entries[i].1);
        let name = entries[i].0.clone();
        out.push(NamedRule { name, rule: x });
        proof {
            assert(entry_decodes(entries@[i as int], out@[i as int]));
        }
        i = i + 1;
    }
    out
}

/// Reads the entry `key` of `fields` as a list of rules, where it is an array.
fn decode_list_field(fields: &Vec<(String, Json)>, key: &str) -> (r: Option<Vec<Rule>>)
    ensures
        list_field_decodes(fields@, key@, r),
{
    match find_key(fields, key) {
        Some(i) => match &fields[i].1 {
            Json::Array(items) => Some(decode_list(items)),
            _ => None,
        },
        None => None,
    }
}

/// Reads the JSON document `v` as a tree-sitter grammar: `None` where it is
/// not an object with a string `name` and an object `rules`.  Every other
/// part is read only as far as its own level, so that a generator fails only
/// on what it reads.
pub fn grammar_from_json(v: &Json) -> (r: Option<Grammar>)
    ensures
        r is Some <==> grammar_readable(*v),
        r matches Some(g) ==> decodes_grammar(*v, g),
{
    let fields = match v {
        Json::Object(fields) => fields,
        _ => return None,
    };
    let name = match str_field_of(fields, "name") {
        Some(name) => name,
        None => return None,
    };
    let start_rule = str_field_of(fields, "start_rule");
    let rules = match find_key(fields, "rules") {
        Some(i) => match &fields[i].1 {
            Json::Object(entries) => decode_named_rules(entries),
            _ => return None,
        },
        None => return None,
    };
    let extras = decode_list_field(fields, "extras");
    let externals = decode_list_field(fields, "externals");
    let g = Grammar { name, start_rule, rules, extras, externals };
    proof {
        assert(decodes_grammar(*v, g));
    }
    Some(g)
}

/// Reads the text of a tree-sitter grammar file: the JSON document that
/// `serde_json` reads from it, read as a grammar.  `None` where the text is no
/// JSON document or its document holds no grammar.
pub fn grammar_from_text(text: &str) -> (r: Option<Grammar>)
    ensures
        r is Some <==> (parsed_json(text@) matches Some(v) && grammar_readable(v)),
        r matches Some(g) ==> (parsed_json(text@) matches Some(v) && decodes_grammar(v, g)),
{
    match parse_json(text) {
        Some(v) => grammar_from_json(&v),
        None => None,
    }
}

/// True when the optional texts `x` and `y` are both missing or the same.
pub open spec fn same_text(x: Option<String>, y: Option<String>) -> bool {
    match (x, y) {
        (Some(a), Some(b)) => a@ == b@,
        (None, None) => true,
        _ => false,
    }
}

/// True when the rules `a` and `b` are the same rule: the same kinds, with
/// the same texts and the same parts.
pub open spec fn same_rule(a: Rule, b: Rule) -> bool
    decreases a, 0int,
{
    match a {
        Rule::Repeat(x) => b matches Rule::Repeat(y) && same_rule(*x, *y),
        Rule::Repeat1 { content: x, raw: r } => b matches Rule::Repeat1 { content: y, raw: s }
            && same_rule(*x, *y) && r@ == s@,
        Rule::Symbol(x) => b matches Rule::Symbol(y) && same_text(x, y),
        Rule::Token(x) => b matches Rule::Token(y) && same_rule(*x, *y),
        Rule::ImmediateToken(x) => b matches Rule::ImmediateToken(y) && same_rule(*x, *y),
        Rule::StringLit(x) => b matches Rule::StringLit(y) && same_text(x, y),
        Rule::Pattern(x) => b matches Rule::Pattern(y) && same_text(x, y),
        Rule::Prec(x) => b matches Rule::Prec(y) && same_rule(*x, *y),
        Rule::Sequence(xs) => b matches Rule::Sequence(ys) && xs@.len() == ys@.len() && same_rules(
            xs@,
            ys@,
            xs@.len() as int,
        ),
        Rule::Choice(xs) => b matches Rule::Choice(ys) && xs@.len() == ys@.len() && same_rules(
            xs@,
            ys@,
            xs@.len() as int,
        ),
        Rule::NoMembers => b is NoMembers,
        Rule::Alias => b is Alias,
        Rule::Blank => b is Blank,
        Rule::Field { name: x, content: c } => b matches Rule::Field { name: y, content: d }
            && same_text(x, y) && same_rule(*c, *d),
        Rule::Other(x) => b matches Rule::Other(y) && x@ == y@,
        Rule::Untyped => b is Untyped,
    }
}

/// True when the first `n` rules of `xs` and `ys` are the same, one for one.
pub open spec fn same_rules(xs: Seq<Rule>, ys: Seq<Rule>, n: int) -> bool
    decreases xs, n,
{
    if n <= 0 || n > xs.len() {
        true
    } else {
        same_rules(xs, ys, n - 1) && same_rule(xs[n - 1], ys[n - 1])
    }
}

/// Rules that are the same one for one are the same as lists.
proof fn lemma_same_rules(xs: Seq<Rule>, ys: Seq<Rule>, n: int)
    requires
        0 <= n <= xs.len(),
        forall|j: int| 0 <= j < n ==> same_rule(#[trigger] xs[j], ys[j]),
    ensures
        same_rules(xs, ys, n),
    decreases n,
{
    if n > 0 {
        lemma_same_rules(xs, ys, n - 1);
    }
}

/// The optional string under `key` is read in one way only.
proof fn lemma_same_text(fields: Seq<(String, Json)>, key: Seq<char>, x: Option<String>, y: Option<String>)
    requires
        str_opt(fields, key, x),
        str_opt(fields, key, y),
    ensures
        same_text(x, y),
{
}

/// A JSON value is read as one rule at most: two rules that it is read as
/// are the same rule.
pub proof fn law_rule_decoding_is_unique(v: Json, a: Rule, b: Rule)
    requires
        decodes_rule(v, a),
        decodes_rule(v, b),
    ensures
        same_rule(a, b),
    decreases v,
{
    if let Json::Object(fields) = v {
        let tv = fields@[key_index(fields@, "type"@)].1;
        if let Json::Str(t) = tv {
            let ki = key_index(fields@, "content"@);
            let mi = key_index(fields@, "members"@);
            match (a, b) {
                (Rule::Repeat(x), Rule::Repeat(y)) => {
                    if has_key(fields@, "content"@) {
                        law_rule_decoding_is_unique(fields@[ki].1, *x, *y);
                    } else {
                        assert(same_rule(*x, *y));
                    }
                },
                (Rule::Repeat1 { content: x, raw: r }, Rule::Repeat1 { content: y, raw: s }) => {
                    if has_key(fields@, "content"@) {
                        law_rule_decoding_is_unique(fields@[ki].1, *x, *y);
                    } else {
                        assert(same_rule(*x, *y));
                    }
                },
                (Rule::Token(x), Rule::Token(y)) => {
                    if has_key(fields@, "content"@) {
                        law_rule_decoding_is_unique(fields@[ki].1, *x, *y);
                    } else {
                        assert(same_rule(*x, *y));
                    }
                },
                (Rule::ImmediateToken(x), Rule::ImmediateToken(y)) => {
                    if has_key(fields@, "content"@) {
                        law_rule_decoding_is_unique(fields@[ki].1, *x, *y);
                    } else {
                        assert(same_rule(*x, *y));
                    }
                },
                (Rule::Prec(x), Rule::Prec(y)) => {
                    if has_key(fields@, "content"@) {
                        law_rule_decoding_is_unique(fields@[ki].1, *x, *y);
                    } else {
                        assert(same_rule(*x, *y));
                    }
                },
                (Rule::Field { name: n1, content: x }, Rule::Field { name: n2, content: y }) => {
                    lemma_same_text(fields@, "name"@, n1, n2);
                    if has_key(fields@, "content"@) {
                        law_rule_decoding_is_unique(fields@[ki].1, *x, *y);
                    } else {
                        assert(same_rule(*x, *y));
                    }
                },
                (Rule::Symbol(x), Rule::Symbol(y)) => lemma_same_text(fields@, "name"@, x, y),
                (Rule::StringLit(x), Rule::StringLit(y)) => lemma_same_text(fields@, "value"@, x, y),
                (Rule::Pattern(x), Rule::Pattern(y)) => lemma_same_text(fields@, "value"@, x, y),
                (Rule::Sequence(xs), Rule::Sequence(ys)) => {
                    if let Json::Array(items) = fields@[mi].1 {
                        assert forall|j: int| 0 <= j < xs@.len() implies same_rule(
                            #[trigger] xs@[j],
                            ys@[j],
                        ) by {
                            law_rule_decoding_is_unique(items@[j], xs@[j], ys@[j]);
                        }
                        lemma_same_rules(xs@, ys@, xs@.len() as int);
                    }
                },
                (Rule::Choice(xs), Rule::Choice(ys)) => {
                    if let Json::Array(items) = fields@[mi].1 {
                        assert forall|j: int| 0 <= j < xs@.len() implies same_rule(
                            #[trigger] xs@[j],
                            ys@[j],
                        ) by {
                            law_rule_decoding_is_unique(items@[j], xs@[j], ys@[j]);
                        }
                        lemma_same_rules(xs@, ys@, xs@.len() as int);
                    }
                },
                _ => {},
            }
        }
    }
}

/// True when the optional lists of rules `a` and `b` are both missing or the
/// same rules one for one.
pub open spec fn same_rule_list(a: Option<Vec<Rule>>, b: Option<Vec<Rule>>) -> bool {
    match (a, b) {
        (Some(x), Some(y)) => x@.len() == y@.len() && same_rules(x@, y@, x@.len() as int),
        (None, None) => true,
        _ => false,
    }
}

/// True when the grammars `g1` and `g2` are the same grammar: the same name
/// and start rule, the same rules under the same names in the same order,
/// and the same `extras` and `externals`.
pub open spec fn same_grammar(g1: Grammar, g2: Grammar) -> bool {
    &&& g1.name@ == g2.name@
    &&& same_text(g1.start_rule, g2.start_rule)
    &&& g1.rules@.len() == g2.rules@.len()
    &&& forall|j: int| 0 <= j < g1.rules@.len() ==> #[trigger] g1.rules@[j].name@ == g2.rules@[j].name@
        && same_rule(g1.rules@[j].rule, g2.rules@[j].rule)
    &&& same_rule_list(g1.extras, g2.extras)
    &&& same_rule_list(g1.externals, g2.externals)
}

/// Two lists of rules that one array is read as are the same.
proof fn lemma_list_decoding_is_unique(items: Seq<Json>, xs: Seq<Rule>, ys: Seq<Rule>)
    requires
        list_decodes(items, xs),
        list_decodes(items, ys),
    ensures
        same_rules(xs, ys, xs.len() as int),
{
    assert forall|j: int| 0 <= j < xs.len() implies same_rule(#[trigger] xs[j], ys[j]) by {
        law_rule_decoding_is_unique(items[j], xs[j], ys[j]);
    }
    lemma_same_rules(xs, ys, xs.len() as int);
}

/// A JSON document is read as one grammar at most: two grammars that it is
/// read as are the same grammar.
pub proof fn law_grammar_decoding_is_unique(v: Json, g1: Grammar, g2: Grammar)
    requires
        decodes_grammar(v, g1),
        decodes_grammar(v, g2),
    ensures
        same_grammar(g1, g2),
{
    if let Json::Object(fields) = v {
        if let Some(Json::Object(entries)) = field(fields@, "rules"@) {
            assert forall|j: int| 0 <= j < g1.rules@.len() implies #[trigger] g1.rules@[j].name@
                == g2.rules@[j].name@ && same_rule(g1.rules@[j].rule, g2.rules@[j].rule) by {
                assert(entry_decodes(entries@[j], g1.rules@[j]));
                assert(entry_decodes(entries@[j], g2.rules@[j]));
                law_rule_decoding_is_unique(entries@[j].1, g1.rules@[j].rule, g2.rules@[j].rule);
            }
        }
        if let (Some(x), Some(y)) = (g1.extras, g2.extras) {
            if let Some(Json::Array(items)) = field(fields@, "extras"@) {
                lemma_list_decoding_is_unique(items@, x@, y@);
            }
        }
        if let (Some(x), Some(y)) = (g1.externals, g2.externals) {
            if let Some(Json::Array(items)) = field(fields@, "externals"@) {
                lemma_list_decoding_is_unique(items@, x@, y@);
            }
        }
    }
}

/// The kind of rule that a node is read as follows its `type`: `REPEAT`,
/// `REPEAT1`, `SYMBOL`, `TOKEN`, `IMMEDIATE_TOKEN`, `STRING`, `PATTERN`,
/// `ALIAS`, `BLANK` and `FIELD` each give their own kind; `PREC`,
/// `PREC_LEFT` and `PREC_RIGHT` all give a precedence of the node's content;
/// `SEQ` and `CHOICE` give a sequence and a choice (or, without an array of
/// members, `NoMembers`); every other type is kept as it stands.
pub proof fn law_rule_kind_follows_type(v: Json, t: String, r: Rule)
    requires
        decodes_rule(v, r),
        v matches Json::Object(fields) && field(fields@, "type"@) == Some(Json::Str(t)),
    ensures
        t@ == "REPEAT"@ ==> r is Repeat,
        t@ == "REPEAT1"@ ==> r is Repeat1,
        t@ == "SYMBOL"@ ==> r is Symbol,
        t@ == "TOKEN"@ ==> r is Token,
        t@ == "IMMEDIATE_TOKEN"@ ==> r is ImmediateToken,
        t@ == "STRING"@ ==> r is StringLit,
        t@ == "PATTERN"@ ==> r is Pattern,
        t@ == "PREC"@ || t@ == "PREC_LEFT"@ || t@ == "PREC_RIGHT"@ ==> r is Prec,
        t@ == "SEQ"@ ==> r is Sequence || r is NoMembers,
        t@ == "CHOICE"@ ==> r is Choice || r is NoMembers,
        t@ == "ALIAS"@ ==> r is Alias,
        t@ == "BLANK"@ ==> r is Blank,
        t@ == "FIELD"@ ==> r is Field,
        !(t@ == "REPEAT"@ || t@ == "REPEAT1"@ || t@ == "SYMBOL"@ || t@ == "TOKEN"@ || t@
            == "IMMEDIATE_TOKEN"@ || t@ == "STRING"@ || t@ == "PATTERN"@ || t@ == "PREC"@ || t@
            == "PREC_LEFT"@ || t@ == "PREC_RIGHT"@ || t@ == "SEQ"@ || t@ == "CHOICE"@ || t@
            == "ALIAS"@ || t@ == "BLANK"@ || t@ == "FIELD"@) ==> r is Other,
{
    reveal_strlit("REPEAT");
    reveal_strlit("REPEAT1");
    reveal_strlit("SYMBOL");
    reveal_strlit("TOKEN");
    reveal_strlit("IMMEDIATE_TOKEN");
    reveal_strlit("STRING");
    reveal_strlit("PATTERN");
    reveal_strlit("PREC_LEFT");
    reveal_strlit("PREC");
    reveal_strlit("PREC_RIGHT");
    reveal_strlit("SEQ");
    reveal_strlit("CHOICE");
    reveal_strlit("ALIAS");
    reveal_strlit("BLANK");
    reveal_strlit("FIELD");
    assert("REPEAT"@.len() == 6 && "REPEAT"@[0] == 'R' && "REPEAT"@[1] == 'E');
    assert("REPEAT1"@.len() == 7 && "REPEAT1"@[0] == 'R' && "REPEAT1"@[1] == 'E');
    assert("SYMBOL"@.len() == 6 && "SYMBOL"@[0] == 'S' && "SYMBOL"@[1] == 'Y');
    assert("TOKEN"@.len() == 5 && "TOKEN"@[0] == 'T' && "TOKEN"@[1] == 'O');
    assert("IMMEDIATE_TOKEN"@.len() == 15 && "IMMEDIATE_TOKEN"@[0] == 'I' && "IMMEDIATE_TOKEN"@[1] == 'M');
    assert("STRING"@.len() == 6 && "STRING"@[0] == 'S' && "STRING"@[1] == 'T');
    assert("PATTERN"@.len() == 7 && "PATTERN"@[0] == 'P' && "PATTERN"@[1] == 'A');
    assert("PREC_LEFT"@.len() == 9 && "PREC_LEFT"@[0] == 'P' && "PREC_LEFT"@[1] == 'R');
    assert("PREC"@.len() == 4 && "PREC"@[0] == 'P' && "PREC"@[1] == 'R');
    assert("PREC_RIGHT"@.len() == 10 && "PREC_RIGHT"@[0] == 'P' && "PREC_RIGHT"@[1] == 'R');
    assert("SEQ"@.len() == 3 && "SEQ"@[0] == 'S' && "SEQ"@[1] == 'E');
    assert("CHOICE"@.len() == 6 && "CHOICE"@[0] == 'C' && "CHOICE"@[1] == 'H');
    assert("ALIAS"@.len() == 5 && "ALIAS"@[0] == 'A' && "ALIAS"@[1] == 'L');
    assert("BLANK"@.len() == 5 && "BLANK"@[0] == 'B' && "BLANK"@[1] == 'L');
    assert("FIELD"@.len() == 5 && "FIELD"@[0] == 'F' && "FIELD"@[1] == 'I');
}

} // verus!
