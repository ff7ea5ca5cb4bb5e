//! The tree-sitter grammar, as the generators read it.
use vstd::prelude::*;
use vstd::string::*;

verus! {

/// One node of a tree-sitter rule, by its `type`.  A node is read only as
/// far as its own level: a field that its type needs but that is missing or
/// of the wrong kind is kept as `None` (or, for a content, as `Untyped`), and
/// only a generator that reads that field fails on it.
pub enum Rule {
    /// `REPEAT`: its `content`, zero or more times.
    Repeat(Box<Rule>),
    /// `REPEAT1`: its `content`, one or more times.  `raw` is the node as the
    /// grammar file holds it, written by `serde_json`'s `Debug` formatting of
    /// the node's object (`Some({...})`): the first generator knows no
    /// `REPEAT1` and writes that text.
    Repeat1 { content: Box<Rule>, raw: String },
    /// `SYMBOL`: a reference to the rule `name`; `None` where the node has no
    /// string `name`.
    Symbol(Option<String>),
    /// `TOKEN`: its `content`, read as one token.
    Token(Box<Rule>),
    /// `IMMEDIATE_TOKEN`: its `content`, read as one token with no blank before it.
    ImmediateToken(Box<Rule>),
    /// `STRING`: the literal text `value`; `None` where the node has no string
    /// `value`.
    StringLit(Option<String>),
    /// `PATTERN`: the regular expression `value`; `None` where the node has no
    /// string `value`.
    Pattern(Option<String>),
    /// `PREC`, `PREC_LEFT` or `PREC_RIGHT`: its `content` with a precedence,
    /// which neither generator keeps.
    Prec(Box<Rule>),
    /// `SEQ`: its `members`, one after another.
    Sequence(Vec<Rule>),
    /// `CHOICE`: one of its `members`.
    Choice(Vec<Rule>),
    /// A `SEQ` or `CHOICE` without an array of `members`.
    NoMembers,
    /// `ALIAS`: its content under another name; the generators skip it.
    Alias,
    /// `BLANK`: nothing.
    Blank,
    /// `FIELD`: its `content`, under the field `name`; `None` where the node
    /// has no string `name`.
    Field { name: Option<String>, content: Box<Rule> },
    /// A node of any other type; `raw` is its object written by `serde_json`'s
    /// `Debug` formatting (`Some({...})`).
    Other(String),
    /// A value that is no object with a string `type`, or a content that is
    /// missing: every generator that reads it fails.
    Untyped,
}

/// A named rule of the grammar.
pub struct NamedRule {
    pub name: String,
    pub rule: Rule,
}

/// A tree-sitter grammar, as its JSON file gives it.
pub struct Grammar {
    /// The language's `name`.
    pub name: String,
    /// The `start_rule`, where the file has it as a string.
    pub start_rule: Option<String>,
    /// The `rules`, sorted by name, as `serde_json`'s map keeps the file's object.
    pub rules: Vec<NamedRule>,
    /// The `extras`, where the file has them as an array.
    pub extras: Option<Vec<Rule>>,
    /// The `externals`, where the file has them as an array.
    pub externals: Option<Vec<Rule>>,
}

/// True when `r` is a `SEQ` or a `CHOICE`.
pub open spec fn is_group(r: Rule) -> bool {
    r is Sequence || r is Choice
}

/// Tells whether `r` is a `SEQ` or a `CHOICE`.
pub fn is_group_node(r: &Rule) -> (b: bool)
    ensures
        b == is_group(*r),
{
    match r {
        Rule::Sequence(_) | Rule::Choice(_) => true,
        _ => false,
    }
}

/// A generated TXL grammar: the main file and the file of auxiliary
/// definitions that it includes.
pub struct TxlGrammar {
    /// The name of the main file.
    pub grammar_file: String,
    /// The text of the main file.
    pub grammar_text: String,
    /// The name of the file of auxiliary definitions.
    pub seq_file: String,
    /// The text of the file of auxiliary definitions.
    pub seq_text: String,
}

/// The name under which a rule is defined: `COMMENT` for `comment`, else the
/// rule's own name.
pub open spec fn defined_name(k: Seq<char>) -> Seq<char> {
    if k == "comment"@ {
        "COMMENT"@
    } else {
        k
    }
}

/// Appends the name under which the rule `k` is defined to `out`.
pub fn append_defined_name(out: &mut String, k: &String)
    ensures
        final(out)@ == old(out)@ + defined_name(k@),
{
    let comment = String::from_str("comment");
    if *k == comment {
        out.append("COMMENT");
    } else {
        out.append(k.as_str());
    }
}

/// Tells whether `r` is an `ALIAS`.
pub fn is_alias_node(r: &Rule) -> (b: bool)
    ensures
        b == (*r is Alias),
{
    match r {
        Rule::Alias => true,
        _ => false,
    }
}

/// Tells whether `r` is a `PATTERN`.
pub fn is_pattern_node(r: &Rule) -> (b: bool)
    ensures
        b == (*r is Pattern),
{
    match r {
        Rule::Pattern(_) => true,
        _ => false,
    }
}

} // verus!
