//! The first generator: a TXL grammar that keeps the language's concrete tokens.
use vstd::prelude::*;
use vstd::string::*;
use crate::grammar::{
    append_defined_name, defined_name, is_alias_node, is_group, is_group_node, is_pattern_node,
    Grammar, NamedRule, Rule, TxlGrammar,
};
use crate::ids::{get_id, successor, IdCounter};
use crate::text::{
    can_strip_ends, debug_quote, debug_text, decimal, decimal_text, join, join_with,
    strip_ends, strip_ends_of, texts,
};

verus! {

/// The TXL name under which the first generator refers to the rule `name`.
pub open spec fn symbol_name_1(name: Seq<char>) -> Seq<char> {
    if name == "identifier"@ {
        "id"@
    } else if name == "comment"@ {
        "COMMENT"@
    } else {
        name
    }
}

/// The name of the auxiliary definition numbered `id`.
pub open spec fn seq_name(id: usize) -> Seq<char> {
    "seq_"@ + decimal(id as nat)
}

/// The auxiliary definition of `name` as `body`, as a node generator writes it.
pub open spec fn aux_definition(name: Seq<char>, body: Seq<char>) -> Seq<char> {
    "\ndefine "@ + name + "\n    "@ + body + "\nend define\n"@
}

/// What the first generator makes of `node` when the counter stands at `next`:
/// `None` where it cannot (a `REPEAT` whose content's text cannot lose its
/// first and last character), else the TXL text of the node, where the
/// counter stands afterwards, and the auxiliary definitions it writes, in
/// order.
pub open spec fn emit1(node: Rule, next: usize) -> Option<(Seq<char>, usize, Seq<char>)>
    decreases node, 0int,
{
    match node {
        Rule::Repeat(content) => match emit1(*content, next) {
            Some((s, n1, a)) => if !is_group(*content) {
                if can_strip_ends(s) {
                    Some(("["@ + strip_ends(s) + "*]"@, n1, a))
                } else {
                    None
                }
            } else {
                Some(
                    (
                        "["@ + seq_name(n1) + "*]"@,
                        successor(n1),
                        a + aux_definition(seq_name(n1), s),
                    ),
                )
            },
            None => None,
        },
        Rule::Repeat1 { content, raw } => Some(("["@ + raw@ + "]"@, next, Seq::empty())),
        Rule::Symbol(name) => match name {
            Some(name) => Some(("["@ + symbol_name_1(name@) + "]"@, next, Seq::empty())),
            None => None,
        },
        Rule::Token(content) => match emit1(*content, next) {
            Some((s, n1, a)) => Some((debug_text(s), n1, a)),
            None => None,
        },
        Rule::ImmediateToken(content) => match emit1(*content, next) {
            Some((s, n1, a)) => Some((debug_text(s), n1, a)),
            None => None,
        },
        Rule::StringLit(value) => match value {
            Some(value) => Some(("'"@ + value@, next, Seq::empty())),
            None => None,
        },
        Rule::Pattern(value) => match value {
            Some(value) => Some((value@, next, Seq::empty())),
            None => None,
        },
        Rule::Prec(content) => emit1(*content, next),
        Rule::Sequence(members) => match emit1_list(members@, members@.len() as int, next) {
            Some((parts, n1, a)) => Some((join(parts, " "@), n1, a)),
            None => None,
        },
        Rule::Choice(members) => match emit1_list(members@, members@.len() as int, next) {
            Some((parts, n1, a)) => Some(("("@ + join(parts, "|"@) + ")"@, n1, a)),
            None => None,
        },
        Rule::Alias => Some((Seq::empty(), next, Seq::empty())),
        Rule::Blank => Some(("[empty]"@, next, Seq::empty())),
        Rule::Field { name, content } => match name {
            Some(name) => match emit1(*content, next) {
                Some((s, n1, a)) => Some(
                    ("[IN] [NL] [SPOFF] '"@ + name@ + " ': [SPON] "@ + debug_text(s), n1, a),
                ),
                None => None,
            },
            None => None,
        },
        Rule::Other(raw) => Some(("["@ + raw@ + "]"@, next, Seq::empty())),
        Rule::NoMembers => None,
        Rule::Untyped => None,
    }
}

/// What the first generator makes of the first `n` of `members`, one after
/// another: their texts, where the counter stands afterwards, and the
/// auxiliary definitions written.
pub open spec fn emit1_list(members: Seq<Rule>, n: int, next: usize) -> Option<
    (Seq<Seq<char>>, usize, Seq<char>),
>
    decreases members, n,
{
    if n <= 0 {
        Some((Seq::empty(), next, Seq::empty()))
    } else if n > members.len() {
        None
    } else {
        match emit1_list(members, n - 1, next) {
            Some((parts, n1, a1)) => match emit1(members[n - 1], n1) {
                Some((t, n2, a2)) => Some((parts.push(t), n2, a1 + a2)),
                None => None,
            },
            None => None,
        }
    }
}

/// Once the first generator fails on a prefix of a member list, it fails on
/// every longer prefix.
pub proof fn lemma_emit1_list_stays_none(members: Seq<Rule>, i: int, j: int, next: usize)
    requires
        0 <= i <= j,
        emit1_list(members, i, next) is None,
    ensures
        emit1_list(members, j, next) is None,
    decreases j - i,
{
    if i < j {
        lemma_emit1_list_stays_none(members, i, j - 1, next);
    }
}

/// The "seq_N" name for the identifier `id`.
pub(crate) fn seq_name_of(id: usize) -> (s: String)
    ensures
        s@ == seq_name(id),
{
    let mut s = String::new();
    s.append("seq_");
    let d = decimal_text(id);
    s.append(d.as_str());
    s
}

/// The TXL text of a tree-sitter rule node, for a grammar that keeps the
/// concrete tokens.  Each `REPEAT` of a `SEQ` or `CHOICE` gets a definition of
/// its own, named `seq_N` with a fresh `N` from `counter`, which is appended
/// to `aux`.  `None` where the node's text cannot be made: a `REPEAT` of any
/// other node whose text does not allow its first and last character to be
/// cut off.
pub fn to_txl_1(node: &Rule, counter: &mut IdCounter, aux: &mut String) -> (r: Option<String>)
    ensures
        r is Some <==> emit1(*node, old(counter).next) is Some,
        r matches Some(t) ==> {
            &&& emit1(*node, old(counter).next) matches Some((s, n, a))
            &&& t@ == s
            &&& final(counter).next == n
            &&& final(aux)@ == old(aux)@ + a
        },
        r matches Some(t) ==> ((*node is Token || *node is ImmediateToken) ==> can_strip_ends(t@)),
        *node matches Rule::Repeat(c) && (*c is Token || *c is ImmediateToken) && emit1(
            *c,
            old(counter).next,
        ) is Some ==> r is Some,
    decreases node, 0int,
{
    match node {
        Rule::Repeat(content) => {
            let s = match to_txl_1(content, counter, aux) {
                Some(s) => s,
                None => return None,
            };
            if !is_group_node(content) {
                match strip_ends_of(&s) {
                    Some(u) => {
                        let mut t = String::new();
                        t.append("[");
                        t.append(u.as_str());
                        t.append("*]");
                        Some(t)
                    },
                    None => None,
                }
            } else {
                let id = get_id(counter);
                let kk = seq_name_of(id);
                aux.append("\ndefine ");
                aux.append(kk.as_str());
                aux.append("\n    ");
                aux.append(s.as_str());
                aux.append("\nend define\n");
                let mut t = String::new();
                t.append("[");
                t.append(kk.as_str());
                t.append("*]");
                Some(t)
            }
        },
        Rule::Repeat1 { content, raw } => {
            let mut t = String::new();
            t.append("[");
            t.append(raw.as_str());
            t.append("]");
            Some(t)
        },
        Rule::Symbol(None) => None,
        Rule::Symbol(Some(name)) => {
            let identifier = String::from_str("identifier");
            let comment = String::from_str("comment");
            let mut t = String::new();
            t.append("[");
            if *name == identifier {
                t.append("id");
            } else if *name == comment {
                t.append("COMMENT");
            } else {
                t.append(name.as_str());
            }
            t.append("]");
            Some(t)
        },
        Rule::Token(content) => match to_txl_1(content, counter, aux) {
            Some(s) => Some(debug_quote(s.as_str())),
            None => None,
        },
        Rule::ImmediateToken(content) => match to_txl_1(content, counter, aux) {
            Some(s) => Some(debug_quote(s.as_str())),
            None => None,
        },
        Rule::StringLit(None) => None,
        Rule::StringLit(Some(value)) => {
            let mut t = String::new();
            t.append("'");
            t.append(value.as_str());
            Some(t)
        },
        Rule::Pattern(None) => None,
        Rule::Pattern(Some(value)) => Some(value.clone()),
        Rule::Prec(content) => to_txl_1(content, counter, aux),
        Rule::Sequence(members) => match to_txl_1_members(members, counter, aux) {
            Some(parts) => Some(join_with(&parts, " ")),
            None => None,
        },
        Rule::Choice(members) => match to_txl_1_members(members, counter, aux) {
            Some(parts) => {
                let mut t = String::new();
                t.append("(");
                let j = join_with(&parts, "|");
                t.append(j.as_str());
                t.append(")");
                Some(t)
            },
            None => None,
        },
        Rule::Alias => Some(String::new()),
        Rule::Blank => Some(String::from_str("[empty]")),
        Rule::Field { name: None, content } => None,
        Rule::Field { name: Some(name), content } => match to_txl_1(content, counter, aux) {
            Some(s) => {
                let mut t = String::new();
                t.append("[IN] [NL] [SPOFF] '");
                t.append(name.as_str());
                t.append(" ': [SPON] ");
                let q = debug_quote(s.as_str());
                t.append(q.as_str());
                Some(t)
            },
            None => None,
        },
        Rule::Other(raw) => {
            let mut t = String::new();
            t.append("[");
            t.append(raw.as_str());
            t.append("]");
            Some(t)
        },
        Rule::NoMembers => None,
        Rule::Untyped => None,
    }
}

/// The first generator's texts of `members`, one after another.
fn to_txl_1_members(members: &Vec<Rule>, counter: &mut IdCounter, aux: &mut String) -> (r: Option<
    Vec<String>,
>)
    ensures
        r is Some <==> emit1_list(members@, members@.len() as int, old(counter).next) is Some,
        r matches Some(v) ==> {
            &&& emit1_list(members@, members@.len() as int, old(counter).next) matches Some(
                (parts, n, a),
            )
            &&& texts(v@) == parts
            &&& final(counter).next == n
            &&& final(aux)@ == old(aux)@ + a
        },
    decreases members, 0int,
{
    let ghost start = counter.next;
    let ghost aux0 = aux@;
    let mut out: Vec<String> = Vec::new();
    let len = members.len();
    let mut i: usize = 0;
    while i < len
        invariant
            len == members@.len(),
            i <= len,
            out@.len() == i,
            start == old(counter).next,
            emit1_list(members@, i as int, start) matches Some((parts, n, a)) && texts(out@)
                =~= parts && counter.next == n && aux@ == aux0 + a,
        decreases len - i,
    {
        let ghost before_aux = aux@;
        let ghost before_out = out@;
        match to_txl_1(&members[i], counter, aux) {
            Some(t) => {
                out.push(t);
                proof {
                    assert(texts(out@) =~= texts(before_out).push(out@[i as int]@));
                    let (parts, n, a) = emit1_list(members@, i as int, start).unwrap();
                    let (t2, n2, a2) = emit1(members@[i as int], n).unwrap();
                    assert(aux0 + a + a2 =~= aux0 + (a + a2));
                }
            },
            None => {
                proof {
                    assert(emit1_list(members@, i + 1, start) is None);
                    lemma_emit1_list_stays_none(members@, i + 1, len as int, start);
                }
                return None;
            },
        }
        i = i + 1;
    }
    Some(out)
}

/// The line that the first generator writes for member `m`, at position `i`,
/// of a top-level `CHOICE` (`bar` is `"| "`) or `SEQ` (`bar` is empty).
pub open spec fn member_line1(m: Rule, i: int, bar: Seq<char>, next: usize) -> Option<
    (Seq<char>, usize, Seq<char>),
> {
    let lead = "    "@ + if i > 0 && !(m is Alias) && !(m is Pattern) {
        bar
    } else {
        "  "@
    };
    if m is Alias {
        Some((lead, next, Seq::empty()))
    } else {
        match emit1(m, next) {
            Some((s, n, a)) => Some((lead + s + "\n"@, n, a)),
            None => None,
        }
    }
}

/// The lines of the first `n` of `members` of a top-level `CHOICE` or `SEQ`.
pub open spec fn member_lines1(members: Seq<Rule>, n: int, bar: Seq<char>, next: usize) -> Option<
    (Seq<char>, usize, Seq<char>),
>
    decreases n,
{
    if n <= 0 {
        Some((Seq::empty(), next, Seq::empty()))
    } else if n > members.len() {
        None
    } else {
        match member_lines1(members, n - 1, bar, next) {
            Some((t1, n1, a1)) => match member_line1(members[n - 1], n - 1, bar, n1) {
                Some((t2, n2, a2)) => Some((t1 + t2, n2, a1 + a2)),
                None => None,
            },
            None => None,
        }
    }
}

/// The definition of `head` as the text of `content`.
pub open spec fn wrapped_text1(head: Seq<char>, content: Rule, next: usize) -> Option<
    (Seq<char>, usize, Seq<char>),
> {
    match emit1(content, next) {
        Some((s, n, a)) => Some(("\ndefine "@ + head + "\n"@ + s + "\nend define\n"@, n, a)),
        None => None,
    }
}

/// The definition of the rule `k` as a list of member lines.
pub open spec fn group_text1(k: Seq<char>, members: Seq<Rule>, bar: Seq<char>, next: usize) -> Option<
    (Seq<char>, usize, Seq<char>),
> {
    match member_lines1(members, members.len() as int, bar, next) {
        Some((t, n, a)) => Some(("\ndefine "@ + defined_name(k) + "\n"@ + t + "end define\n"@, n, a)),
        None => None,
    }
}

/// The definition that the first generator writes for the rule `k`.
pub open spec fn rule_text1(k: Seq<char>, rule: Rule, next: usize) -> Option<
    (Seq<char>, usize, Seq<char>),
> {
    match rule {
        Rule::Repeat(content) => match emit1(*content, next) {
            Some((s, n, a)) => if can_strip_ends(s) {
                Some(("\ndefine "@ + k + "\n    ["@ + strip_ends(s) + "*]\nend define\n"@, n, a))
            } else {
                None
            },
            None => None,
        },
        Rule::Choice(members) => group_text1(k, members@, "| "@, next),
        Rule::Sequence(members) => group_text1(k, members@, ""@, next),
        Rule::Field { name, content } => wrapped_text1(defined_name(k), *content, next),
        Rule::Prec(content) => wrapped_text1(k, *content, next),
        Rule::ImmediateToken(content) => wrapped_text1(k, *content, next),
        Rule::StringLit(value) => match value {
            Some(value) => Some(
                ("\ndefine "@ + k + "\n'"@ + value@ + "\nend define\n"@, next, Seq::empty()),
            ),
            None => None,
        },
        Rule::NoMembers => None,
        Rule::Untyped => None,
        _ => Some((Seq::empty(), next, Seq::empty())),
    }
}

/// The definitions of the first `n` of `rules`, one after another.
pub open spec fn rules_text1(rules: Seq<NamedRule>, n: int, next: usize) -> Option<
    (Seq<char>, usize, Seq<char>),
>
    decreases n,
{
    if n <= 0 {
        Some((Seq::empty(), next, Seq::empty()))
    } else if n > rules.len() {
        None
    } else {
        match rules_text1(rules, n - 1, next) {
            Some((t1, n1, a1)) => match rule_text1(rules[n - 1].name@, rules[n - 1].rule, n1) {
                Some((t2, n2, a2)) => Some((t1 + t2, n2, a1 + a2)),
                None => None,
            },
            None => None,
        }
    }
}

/// The name of the first generator's file of auxiliary definitions.
pub open spec fn seq_file_name1(name: Seq<char>) -> Seq<char> {
    name + "-seq1.grm"@
}

/// The name of the first generator's main file.
pub open spec fn grammar_file_name1(name: Seq<char>) -> Seq<char> {
    name + "1.grm"@
}

/// The line with which the first generator's main file begins: the
/// inclusion of its file of auxiliary definitions.
pub open spec fn include_text1(name: Seq<char>) -> Seq<char> {
    "include \""@ + seq_file_name1(name) + "\"\n"@
}

/// What the first generator writes at the head of its main file.
pub open spec fn header1(name: Seq<char>, start: Seq<char>) -> Seq<char> {
    include_text1(name) + "\ndefine program\n    ["@ + start + "] [NL]\nend define\n"@
}

/// The names of the first generator's files for the language `name`: the
/// main file and the file of auxiliary definitions.
pub fn file_names_1(name: &String) -> (r: (String, String))
    ensures
        r.0@ == grammar_file_name1(name@),
        r.1@ == seq_file_name1(name@),
{
    let mut grammar_file = name.clone();
    grammar_file.append("1.grm");
    let mut seq_file = name.clone();
    seq_file.append("-seq1.grm");
    (grammar_file, seq_file)
}

/// The line with which the first generator's main file for the language
/// `name` begins.
pub fn include_line_1(name: &String) -> (r: String)
    ensures
        r@ == include_text1(name@),
{
    let (_, seq_file) = file_names_1(name);
    let mut line = String::new();
    line.append("include \"");
    line.append(seq_file.as_str());
    line.append("\"\n");
    line
}

/// What the first generator makes of a grammar when the counter stands at
/// `next`: the main text, the text of auxiliary definitions, and where the
/// counter stands afterwards; `None` where it cannot.
pub open spec fn grammar_text1(g: Grammar, next: usize) -> Option<(Seq<char>, Seq<char>, usize)> {
    match g.start_rule {
        Some(start) => match rules_text1(g.rules@, g.rules@.len() as int, next) {
            Some((body, n, a)) => Some((header1(g.name@, start@) + body, a, n)),
            None => None,
        },
        None => None,
    }
}

/// Once a top-level member list fails on a prefix, it fails on every longer one.
pub proof fn lemma_member_lines1_stays_none(
    members: Seq<Rule>,
    i: int,
    j: int,
    bar: Seq<char>,
    next: usize,
)
    requires
        0 <= i <= j,
        member_lines1(members, i, bar, next) is None,
    ensures
        member_lines1(members, j, bar, next) is None,
    decreases j - i,
{
    if i < j {
        lemma_member_lines1_stays_none(members, i, j - 1, bar, next);
    }
}

/// Once the rule list fails on a prefix, it fails on every longer one.
pub proof fn lemma_rules_text1_stays_none(rules: Seq<NamedRule>, i: int, j: int, next: usize)
    requires
        0 <= i <= j,
        rules_text1(rules, i, next) is None,
    ensures
        rules_text1(rules, j, next) is None,
    decreases j - i,
{
    if i < j {
        lemma_rules_text1_stays_none(rules, i, j - 1, next);
    }
}

/// Writes the member lines of a top-level `CHOICE` or `SEQ` to `out`.
fn write_member_lines_1(
    members: &Vec<Rule>,
    bar: &str,
    out: &mut String,
    counter: &mut IdCounter,
    aux: &mut String,
) -> (ok: bool)
    ensures
        ok <==> member_lines1(members@, members@.len() as int, bar@, old(counter).next) is Some,
        ok ==> {
            &&& member_lines1(members@, members@.len() as int, bar@, old(counter).next) matches Some(
                (t, n, a),
            )
            &&& final(out)@ == old(out)@ + t
            &&& final(counter).next == n
            &&& final(aux)@ == old(aux)@ + a
        },
{
    let ghost start = counter.next;
    let ghost out0 = out@;
    let ghost aux0 = aux@;
    let len = members.len();
    let mut i: usize = 0;
    while i < len
        invariant
            len == members@.len(),
            i <= len,
            start == old(counter).next,
            out0 == old(out)@,
            aux0 == old(aux)@,
            member_lines1(members@, i as int, bar@, start) matches Some((t, n, a)) && out@ == out0
                + t && counter.next == n && aux@ == aux0 + a,
        decreases len - i,
    {
        let m = &members[i];
        let alias = is_alias_node(m);
        let pattern = is_pattern_node(m);
        let ghost (t1, n1, a1) = member_lines1(members@, i as int, bar@, start).unwrap();
        out.append("    ");
        if i > 0 && !alias && !pattern {
            out.append(bar);
        } else {
            out.append("  ");
        }
        if !alias {
            match to_txl_1(m, counter, aux) {
                Some(s) => {
                    out.append(s.as_str());
                    out.append("\n");
                },
                None => {
                    proof {
                        assert(member_lines1(members@, i + 1, bar@, start) is None);
                        lemma_member_lines1_stays_none(members@, i + 1, len as int, bar@, start);
                    }
                    return false;
                },
            }
        }
        proof {
            let (t2, n2, a2) = member_line1(members@[i as int], i as int, bar@, n1).unwrap();
            assert(out@ =~= out0 + (t1 + t2));
            assert(aux@ =~= aux0 + (a1 + a2));
        }
        i = i + 1;
    }
    true
}

/// Writes the definition of `head` as the text of `content` to `out`.
fn write_wrapped_1(
    head: &String,
    content: &Rule,
    out: &mut String,
    counter: &mut IdCounter,
    aux: &mut String,
) -> (ok: bool)
    ensures
        ok <==> wrapped_text1(head@, *content, old(counter).next) is Some,
        ok ==> {
            &&& wrapped_text1(head@, *content, old(counter).next) matches Some((t, n, a))
            &&& final(out)@ == old(out)@ + t
            &&& final(counter).next == n
            &&& final(aux)@ == old(aux)@ + a
        },
{
    let ghost out0 = out@;
    match to_txl_1(content, counter, aux) {
        Some(s) => {
            out.append("\ndefine ");
            out.append(head.as_str());
            out.append("\n");
            out.append(s.as_str());
            out.append("\nend define\n");
            assert(out@ =~= out0 + ("\ndefine "@ + head@ + "\n"@ + s@ + "\nend define\n"@));
            true
        },
        None => false,
    }
}

/// Writes the definition of the rule `k` as a list of member lines to `out`.
fn write_group_1(
    k: &String,
    members: &Vec<Rule>,
    bar: &str,
    out: &mut String,
    counter: &mut IdCounter,
    aux: &mut String,
) -> (ok: bool)
    ensures
        ok <==> group_text1(k@, members@, bar@, old(counter).next) is Some,
        ok ==> {
            &&& group_text1(k@, members@, bar@, old(counter).next) matches Some((t, n, a))
            &&& final(out)@ == old(out)@ + t
            &&& final(counter).next == n
            &&& final(aux)@ == old(aux)@ + a
        },
{
    let ghost out0 = out@;
    out.append("\ndefine ");
    append_defined_name(out, k);
    out.append("\n");
    let ghost mid = out@;
    if !write_member_lines_1(members, bar, out, counter, aux) {
        return false;
    }
    let ghost mid2 = out@;
    out.append("end define\n");
    proof {
        let t = mid2.subrange(mid.len() as int, mid2.len() as int);
        assert(mid2 =~= mid + t);
        assert(out@ =~= out0 + ("\ndefine "@ + defined_name(k@) + "\n"@ + t + "end define\n"@));
    }
    true
}

/// Writes the definition of the rule `k` to `out`.
fn write_rule_1(
    k: &String,
    rule: &Rule,
    out: &mut String,
    counter: &mut IdCounter,
    aux: &mut String,
) -> (ok: bool)
    ensures
        ok <==> rule_text1(k@, *rule, old(counter).next) is Some,
        ok ==> {
            &&& rule_text1(k@, *rule, old(counter).next) matches Some((t, n, a))
            &&& final(out)@ == old(out)@ + t
            &&& final(counter).next == n
            &&& final(aux)@ == old(aux)@ + a
        },
{
    let ghost out0 = out@;
    match rule {
        Rule::Repeat(content) => match to_txl_1(content, counter, aux) {
            Some(s) => match strip_ends_of(&s) {
                Some(d) => {
                    out.append("\ndefine ");
                    out.append(k.as_str());
                    out.append("\n    [");
                    out.append(d.as_str());
                    out.append("*]\nend define\n");
                    assert(out@ =~= out0 + ("\ndefine "@ + k@ + "\n    ["@ + d@ + "*]\nend define\n"@));
                    true
                },
                None => false,
            },
            None => false,
        },
        Rule::Choice(members) => write_group_1(k, members, "| ", out, counter, aux),
        Rule::Sequence(members) => write_group_1(k, members, "", out, counter, aux),
        Rule::Field { name, content } => {
            let mut head = String::new();
            append_defined_name(&mut head, k);
            write_wrapped_1(&head, content, out, counter, aux)
        },
        Rule::Prec(content) => write_wrapped_1(k, content, out, counter, aux),
        Rule::ImmediateToken(content) => write_wrapped_1(k, content, out, counter, aux),
        Rule::StringLit(None) | Rule::NoMembers | Rule::Untyped => false,
        Rule::StringLit(Some(value)) => {
            out.append("\ndefine ");
            out.append(k.as_str());
            out.append("\n'");
            out.append(value.as_str());
            out.append("\nend define\n");
            assert(out@ =~= out0 + ("\ndefine "@ + k@ + "\n'"@ + value@ + "\nend define\n"@));
            true
        },
        _ => {
            assert(out@ =~= out0 + Seq::<char>::empty());
            assert(aux@ =~= old(aux)@ + Seq::<char>::empty());
            true
        },
    }
}

/// The first generator on a whole grammar: a TXL grammar that keeps the
/// language's concrete tokens.  The main file, `NAME1.grm`, includes the file
/// of auxiliary definitions, `NAME-seq1.grm`, defines `program` as the start
/// rule, and then holds a definition for each rule of type `REPEAT`, `CHOICE`,
/// `SEQ`, `FIELD`, `PREC`, `PREC_LEFT`, `PREC_RIGHT`, `STRING` or
/// `IMMEDIATE_TOKEN`, in the grammar's order.  Fresh identifiers come from
/// `counter`.  The grammar must have a start rule.  `None` where a rule's
/// text cannot be made: a rule or a node that the generator reads lacks a
/// field it needs, or a repetition's text cannot lose its first and last
/// character.
pub fn tree_sitter_to_txl_1(g: &Grammar, counter: &mut IdCounter) -> (r: Option<TxlGrammar>)
    requires
        g.start_rule is Some,
    ensures
        r is Some <==> grammar_text1(*g, old(counter).next) is Some,
        r matches Some(out) ==> {
            &&& grammar_text1(*g, old(counter).next) matches Some((main, seqs, n))
            &&& out.grammar_text@ == main
            &&& out.seq_text@ == seqs
            &&& out.grammar_file@ == grammar_file_name1(g.name@)
            &&& out.seq_file@ == seq_file_name1(g.name@)
            &&& final(counter).next == n
        },
{
    let start = match &g.start_rule {
        Some(s) => s,
        None => return None,
    };
    let (grammar_file, seq_file) = file_names_1(&g.name);
    let mut main = include_line_1(&g.name);
    main.append("\ndefine program\n    [");
    main.append(start.as_str());
    main.append("] [NL]\nend define\n");
    let ghost head = main@;
    assert(head =~= header1(g.name@, start@));
    let mut aux = String::new();
    let ghost first_id = counter.next;
    let len = g.rules.len();
    let mut i: usize = 0;
    while i < len
        invariant
            len == g.rules@.len(),
            i <= len,
            first_id == old(counter).next,
            rules_text1(g.rules@, i as int, first_id) matches Some((t, n, a)) && main@ == head + t
                && counter.next == n && aux@ == a,
        decreases len - i,
    {
        let ghost (t1, n1, a1) = rules_text1(g.rules@, i as int, first_id).unwrap();
        let named = &g.rules[i];
        if !write_rule_1(&named.name, &named.rule, &mut main, counter, &mut aux) {
            proof {
                assert(rules_text1(g.rules@, i + 1, first_id) is None);
                lemma_rules_text1_stays_none(g.rules@, i + 1, len as int, first_id);
            }
            return None;
        }
        proof {
            let (t2, n2, a2) = rule_text1(g.rules@[i as int].name@, g.rules@[i as int].rule, n1).unwrap();
            assert(main@ =~= head + (t1 + t2));
        }
        i = i + 1;
    }
    Some(TxlGrammar { grammar_file, grammar_text: main, seq_file, seq_text: aux })
}

} // verus!
