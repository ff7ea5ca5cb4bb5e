//! The second generator: a TXL grammar that refines a grammar of tree-sitter
//! S-expressions (`tree-sitter.grm`).  It drops the concrete tokens, keeps
//! the structure of the rules, and gives every rule without a structure a
//! placeholder that reads its S-expression.
use vstd::prelude::*;
use vstd::string::*;
use crate::grammar::{
    append_defined_name, defined_name, is_alias_node, is_group, is_group_node, is_pattern_node,
    Grammar, NamedRule, Rule, TxlGrammar,
};
use crate::ids::{get_id, successor, IdCounter};
use crate::first::{aux_definition, seq_name, seq_name_of};
use crate::text::{
    begins_with_underscore, can_strip_ends, debug_quote, debug_text, has_char,
    has_more_than_one_byte, join, join_with, more_than_one_byte, starts_with_underscore,
    strip_ends, strip_ends_of, texts,
};

verus! {

/// The texts of `parts` that are not empty, in order.
pub open spec fn non_empty(parts: Seq<Seq<char>>) -> Seq<Seq<char>>
    decreases parts.len(),
{
    if parts.len() == 0 {
        Seq::empty()
    } else if parts.last().len() > 0 {
        non_empty(parts.drop_last()).push(parts.last())
    } else {
        non_empty(parts.drop_last())
    }
}

/// The TXL name under which the second generator refers to the rule `name`:
/// nothing for a hidden rule (one whose name begins with an underscore).
pub open spec fn symbol_text2(name: Seq<char>) -> Seq<char> {
    if starts_with_underscore(defined_name(name)) {
        Seq::empty()
    } else {
        "["@ + defined_name(name) + "]"@
    }
}

/// What the second generator makes of a `REPEAT` or `REPEAT1` of `content`.
pub open spec fn repeat_text2(content: Rule, next: usize) -> Option<(Seq<char>, usize, Seq<char>)>
    decreases content, 2int,
{
    match emit2(content, next) {
        Some((s, n1, a)) => if !is_group(content) {
            if more_than_one_byte(s) {
                if can_strip_ends(s) {
                    Some(("["@ + strip_ends(s) + "*]"@, n1, a))
                } else {
                    None
                }
            } else {
                Some((Seq::empty(), n1, a))
            }
        } else if s.len() > 0 {
            Some(
                (
                    "["@ + seq_name(n1) + "*]"@,
                    successor(n1),
                    a + aux_definition(seq_name(n1), s),
                ),
            )
        } else {
            Some((Seq::empty(), n1, a))
        },
        None => None,
    }
}

/// The text of a `CHOICE` whose members' non-empty texts are `branches`.
pub open spec fn choice_text2(branches: Seq<Seq<char>>) -> Seq<char> {
    if branches.len() > 1 {
        "("@ + join(branches, "|"@) + ")"@
    } else if branches.len() == 1 {
        branches[0]
    } else {
        Seq::empty()
    }
}

/// What the second generator makes of `node` when the counter stands at
/// `next`: `None` where it cannot (a `REPEAT` whose content's text has more
/// than one byte and cannot lose its first and last character), else the TXL
/// text of the node, where the counter stands afterwards, and the auxiliary
/// definitions it writes, in order.
pub open spec fn emit2(node: Rule, next: usize) -> Option<(Seq<char>, usize, Seq<char>)>
    decreases node, 1int,
{
    match node {
        Rule::Repeat(content) => repeat_text2(*content, next),
        Rule::Repeat1 { content, raw } => repeat_text2(*content, next),
        Rule::Symbol(name) => match name {
            Some(name) => Some((symbol_text2(name@), next, Seq::empty())),
            None => None,
        },
        Rule::Token(content) => match emit2(*content, next) {
            Some((s, n1, a)) => Some((debug_text(s), n1, a)),
            None => None,
        },
        Rule::ImmediateToken(content) => match emit2(*content, next) {
            Some((s, n1, a)) => Some((debug_text(s), n1, a)),
            None => None,
        },
        Rule::StringLit(value) => Some((Seq::empty(), next, Seq::empty())),
        Rule::Pattern(value) => Some((Seq::empty(), next, Seq::empty())),
        Rule::Prec(content) => emit2(*content, next),
        Rule::Sequence(members) => match emit2_list(members@, members@.len() as int, next) {
            Some((parts, n1, a)) => Some((join(parts, ""@), n1, a)),
            None => None,
        },
        Rule::Choice(members) => match emit2_list(members@, members@.len() as int, next) {
            Some((parts, n1, a)) => Some((choice_text2(non_empty(parts)), n1, a)),
            None => None,
        },
        Rule::Alias => Some((Seq::empty(), next, Seq::empty())),
        Rule::Blank => Some(("[empty]"@, next, Seq::empty())),
        Rule::Field { name, content } => match name {
            Some(name) => match emit2(*content, next) {
                Some((s, n1, a)) => Some(
                    (
                        "[IN] [NL] [SPOFF] '"@ + name@ + " ': [SPON] "@ + (if s.len() == 0 {
                            "[Tree]"@
                        } else {
                            s
                        }) + "\n"@,
                        n1,
                        a,
                    ),
                ),
                None => None,
            },
            None => None,
        },
        Rule::Other(raw) => Some(("["@ + raw@ + "]"@, next, Seq::empty())),
        Rule::NoMembers => None,
        Rule::Untyped => None,
    }
}

/// What the second generator makes of the first `n` of `members`, one after
/// another: their texts, where the counter stands afterwards, and the
/// auxiliary definitions written.
pub open spec fn emit2_list(members: Seq<Rule>, n: int, next: usize) -> Option<
    (Seq<Seq<char>>, usize, Seq<char>),
>
    decreases members, n,
{
    if n <= 0 {
        Some((Seq::empty(), next, Seq::empty()))
    } else if n > members.len() {
        None
    } else {
        match emit2_list(members, n - 1, next) {
            Some((parts, n1, a1)) => match emit2(members[n - 1], n1) {
                Some((t, n2, a2)) => Some((parts.push(t), n2, a1 + a2)),
                None => None,
            },
            None => None,
        }
    }
}

/// Once the second generator fails on a prefix of a member list, it fails on
/// every longer prefix.
pub proof fn lemma_emit2_list_stays_none(members: Seq<Rule>, i: int, j: int, next: usize)
    requires
        0 <= i <= j,
        emit2_list(members, i, next) is None,
    ensures
        emit2_list(members, j, next) is None,
    decreases j - i,
{
    if i < j {
        lemma_emit2_list_stays_none(members, i, j - 1, next);
    }
}

/// Keeps the non-empty texts of `parts`, in order.
fn keep_non_empty(parts: &Vec<String>) -> (r: Vec<String>)
    ensures
        texts(r@) == non_empty(texts(parts@)),
{
    let mut r: Vec<String> = Vec::new();
    let len = parts.len();
    let mut i: usize = 0;
    while i < len
        invariant
            len == parts@.len(),
            i <= len,
            texts(r@) == non_empty(texts(parts@).take(i as int)),
        decreases len - i,
    {
        let ghost before = r@;
        assert(texts(parts@).take(i + 1).drop_last() =~= texts(parts@).take(i as int));
        assert(texts(parts@).take(i + 1).last() == parts@[i as int]@);
        if parts[i].as_str().unicode_len() > 0 {
            r.push(parts[i].clone());
            assert(texts(r@) =~= texts(before).push(parts@[i as int]@));
        }
        i = i + 1;
    }
    assert(texts(parts@).take(len as int) =~= texts(parts@));
    r
}

/// The TXL text of a `REPEAT` or `REPEAT1` of `content`, for a grammar that
/// refines tree-sitter S-expressions.
fn repeat_to_txl_2(content: &Rule, counter: &mut IdCounter, aux: &mut String) -> (r: Option<String>)
    ensures
        r is Some <==> repeat_text2(*content, old(counter).next) is Some,
        r matches Some(t) ==> {
            &&& repeat_text2(*content, old(counter).next) matches Some((s, n, a))
            &&& t@ == s
            &&& final(counter).next == n
            &&& final(aux)@ == old(aux)@ + a
        },
        (*content is Token || *content is ImmediateToken) && emit2(*content, old(counter).next)
            is Some ==> r is Some,
    decreases content, 2int,
{
    let s = match to_txl_2(content, counter, aux) {
        Some(s) => s,
        None => return None,
    };
    if !is_group_node(content) {
        if has_more_than_one_byte(&s) {
            match strip_ends_of(&s) {
                Some(u) => {
                    let mut t = String::new();
                    t.append("[");
                    t.append(u.as_str());
                    t.append("*]");
                    Some(t)
                },
                None => None,
            }
        } else {
            Some(String::new())
        }
    } else if s.as_str().unicode_len() > 0 {
        let id = get_id(counter);
        let kk = seq_name_of(id);
        aux.append("\ndefine ");
        aux.append(kk.as_str());
        aux.append("\n    ");
        aux.append(s.as_str());
        aux.append("\nend define\n");
        let mut t = String::new();
        t.append("[");
        t.append(kk.as_str());
        t.append("*]");
        Some(t)
    } else {
        Some(String::new())
    }
}

/// The TXL text of a tree-sitter rule node, for a grammar that refines
/// tree-sitter S-expressions: hidden symbols, strings and patterns leave no
/// text, a `CHOICE` keeps its non-empty branches, and each `REPEAT` of a
/// non-empty `SEQ` or `CHOICE` gets a definition of its own, named `seq_N`
/// with a fresh `N` from `counter`, which is appended to `aux`.  `None` where
/// the node's text cannot be made: a `REPEAT` of any other node whose text
/// has more than one byte and does not allow its first and last character to
/// be cut off.
pub fn to_txl_2(node: &Rule, counter: &mut IdCounter, aux: &mut String) -> (r: Option<String>)
    ensures
        r is Some <==> emit2(*node, old(counter).next) is Some,
        r matches Some(t) ==> {
            &&& emit2(*node, old(counter).next) matches Some((s, n, a))
            &&& t@ == s
            &&& final(counter).next == n
            &&& final(aux)@ == old(aux)@ + a
        },
        r matches Some(t) ==> ((*node is Token || *node is ImmediateToken) ==> can_strip_ends(t@)),
        *node matches Rule::Repeat(c) && (*c is Token || *c is ImmediateToken) && emit2(
            *c,
            old(counter).next,
        ) is Some ==> r is Some,
    decreases node, 1int,
{
    match node {
        Rule::Repeat(content) => repeat_to_txl_2(content, counter, aux),
        Rule::Repeat1 { content, raw } => repeat_to_txl_2(content, counter, aux),
        Rule::Symbol(None) => None,
        Rule::Symbol(Some(name)) => {
            let mut n = String::new();
            append_defined_name(&mut n, name);
            if begins_with_underscore(&n) {
                Some(String::new())
            } else {
                let mut t = String::new();
                t.append("[");
                t.append(n.as_str());
                t.append("]");
                Some(t)
            }
        },
        Rule::Token(content) => match to_txl_2(content, counter, aux) {
            Some(s) => Some(debug_quote(s.as_str())),
            None => None,
        },
        Rule::ImmediateToken(content) => match to_txl_2(content, counter, aux) {
            Some(s) => Some(debug_quote(s.as_str())),
            None => None,
        },
        Rule::StringLit(_) => Some(String::new()),
        Rule::Pattern(_) => Some(String::new()),
        Rule::Prec(content) => to_txl_2(content, counter, aux),
        Rule::Sequence(members) => match to_txl_2_members(members, counter, aux) {
            Some(parts) => Some(join_with(&parts, "")),
            None => None,
        },
        Rule::Choice(members) => match to_txl_2_members(members, counter, aux) {
            Some(parts) => {
                let branches = keep_non_empty(&parts);
                if branches.len() > 1 {
                    let mut t = String::new();
                    t.append("(");
                    let j = join_with(&branches, "|");
                    t.append(j.as_str());
                    t.append(")");
                    Some(t)
                } else if branches.len() == 1 {
                    Some(branches[0].clone())
                } else {
                    Some(String::new())
                }
            },
            None => None,
        },
        Rule::Alias => Some(String::new()),
        Rule::Blank => Some(String::from_str("[empty]")),
        Rule::Field { name: None, content } => None,
        Rule::Field { name: Some(name), content } => match to_txl_2(content, counter, aux) {
            Some(s) => {
                let mut t = String::new();
                t.append("[IN] [NL] [SPOFF] '");
                t.append(name.as_str());
                t.append(" ': [SPON] ");
                if s.as_str().unicode_len() == 0 {
                    t.append("[Tree]");
                } else {
                    t.append(s.as_str());
                }
                t.append("\n");
                Some(t)
            },
            None => None,
        },
        Rule::Other(raw) => {
            let mut t = String::new();
            t.append("[");
            t.append(raw.as_str());
            t.append("]");
            Some(t)
        },
        Rule::NoMembers => None,
        Rule::Untyped => None,
    }
}

/// The second generator's texts of `members`, one after another.
fn to_txl_2_members(members: &Vec<Rule>, counter: &mut IdCounter, aux: &mut String) -> (r: Option<
    Vec<String>,
>)
    ensures
        r is Some <==> emit2_list(members@, members@.len() as int, old(counter).next) is Some,
        r matches Some(v) ==> {
            &&& emit2_list(members@, members@.len() as int, old(counter).next) matches Some(
                (parts, n, a),
            )
            &&& texts(v@) == parts
            &&& final(counter).next == n
            &&& final(aux)@ == old(aux)@ + a
        },
    decreases members, 0int,
{
    let ghost start = counter.next;
    let ghost aux0 = aux@;
    let mut out: Vec<String> = Vec::new();
    let len = members.len();
    let mut i: usize = 0;
    while i < len
        invariant
            len == members@.len(),
            i <= len,
            out@.len() == i,
            start == old(counter).next,
            emit2_list(members@, i as int, start) matches Some((parts, n, a)) && texts(out@)
                =~= parts && counter.next == n && aux@ == aux0 + a,
        decreases len - i,
    {
        let ghost before_out = out@;
        match to_txl_2(&members[i], counter, aux) {
            Some(t) => {
                out.push(t);
                proof {
                    assert(texts(out@) =~= texts(before_out).push(out@[i as int]@));
                    let (parts, n, a) = emit2_list(members@, i as int, start).unwrap();
                    let (t2, n2, a2) = emit2(members@[i as int], n).unwrap();
                    assert(aux0 + a + a2 =~= aux0 + (a + a2));
                }
            },
            None => {
                proof {
                    assert(emit2_list(members@, i + 1, start) is None);
                    lemma_emit2_list_stays_none(members@, i + 1, len as int, start);
                }
                return None;
            },
        }
        i = i + 1;
    }
    Some(out)
}

/// The placeholder body of the rule `k`: the S-expression of a node of type
/// `k`, read as a whole.
pub open spec fn placeholder(k: Seq<char>) -> Seq<char> {
    "    '( '"@ + k + " [Range] ')\n"@
}

/// The redefinition that the second generator writes for an entry of the
/// grammar's `extras` or `externals`: a placeholder for each symbol.
pub open spec fn symbol_redefinition(r: Rule) -> Seq<char> {
    match r {
        Rule::Symbol(Some(k)) => "\nredefine "@ + k@ + "\n"@ + placeholder(k@) + "end define\n"@,
        _ => Seq::empty(),
    }
}

/// True when the second generator can read the entry `r` of the grammar's
/// `extras` or `externals`: an object with a string `type`, and a string
/// `name` where that type is `SYMBOL`.
pub open spec fn entry_readable(r: Rule) -> bool {
    !(r is Untyped) && !(r matches Rule::Symbol(None))
}

/// True when the second generator can read every entry of `rules`.
pub open spec fn entries_readable(rules: Seq<Rule>) -> bool {
    forall|i: int| 0 <= i < rules.len() ==> entry_readable(#[trigger] rules[i])
}

/// The redefinitions for the first `n` entries of `rules`.
pub open spec fn symbol_redefinitions(rules: Seq<Rule>, n: int) -> Seq<char>
    decreases n,
{
    if n <= 0 || n > rules.len() {
        Seq::empty()
    } else {
        symbol_redefinitions(rules, n - 1) + symbol_redefinition(rules[n - 1])
    }
}

/// The lines of the first `n` members of a top-level `CHOICE`: where the
/// counter stands afterwards, the auxiliary definitions written, and the
/// branches written so far.  A member's text is written only where it is
/// not empty and not written before.
pub open spec fn choice_lines2(members: Seq<Rule>, n: int, next: usize) -> Option<
    (Seq<char>, usize, Seq<char>, Seq<Seq<char>>),
>
    decreases n,
{
    if n <= 0 {
        Some((Seq::empty(), next, Seq::empty(), Seq::empty()))
    } else if n > members.len() {
        None
    } else {
        match choice_lines2(members, n - 1, next) {
            Some((t1, n1, a1, seen)) => match emit2(members[n - 1], n1) {
                Some((g, n2, a2)) => {
                    let m = members[n - 1];
                    if g.len() > 0 && !seen.contains(g) {
                        let line = "    "@ + (if n - 1 > 0 && !(m is Alias) && !(m is Pattern) {
                            "| "@
                        } else {
                            "  "@
                        }) + (if !(m is Alias) {
                            g + "\n"@
                        } else {
                            Seq::empty()
                        });
                        Some((t1 + line, n2, a1 + a2, seen.push(g)))
                    } else {
                        Some((t1, n2, a1 + a2, seen))
                    }
                },
                None => None,
            },
            None => None,
        }
    }
}

/// The definition of `k` as the text of `content` or, where that is empty,
/// as a placeholder.
pub open spec fn content_or_placeholder2(k: Seq<char>, content: Rule, next: usize) -> Option<
    (Seq<char>, usize, Seq<char>),
> {
    match emit2(content, next) {
        Some((s, n, a)) => Some(
            (
                "\nredefine "@ + k + "\n"@ + (if s.len() > 0 {
                    s + "\n"@
                } else {
                    placeholder(k)
                }) + "end define\n"@,
                n,
                a,
            ),
        ),
        None => None,
    }
}

/// The auxiliary redefinition of `name` as `body`, as a rule's `REPEAT` writes it.
pub open spec fn aux_redefinition(name: Seq<char>, body: Seq<char>) -> Seq<char> {
    "\nredefine "@ + name + "\n    "@ + body + "\nend define\n"@
}

/// The redefinition of the rule `k` as a repetition of `content`.
pub open spec fn repeat_rule_text2(k: Seq<char>, content: Rule, next: usize) -> Option<
    (Seq<char>, usize, Seq<char>),
> {
    match emit2(content, next) {
        Some((s, n1, a)) => if s.len() > 0 && s.contains('|') {
            Some(
                (
                    "\nredefine "@ + k + "\n"@ + "    "@ + "["@ + seq_name(n1) + "*]\n"@
                        + "end define\n"@,
                    successor(n1),
                    a + aux_redefinition(seq_name(n1), s),
                ),
            )
        } else if s.len() > 0 {
            if can_strip_ends(s) {
                Some(
                    (
                        "\nredefine "@ + k + "\n"@ + "    "@ + "["@ + strip_ends(s) + "*]\n"@
                            + "end define\n"@,
                        n1,
                        a,
                    ),
                )
            } else {
                None
            }
        } else {
            Some(("\nredefine "@ + k + "\n"@ + "    "@ + placeholder(k) + "end define\n"@, n1, a))
        },
        None => None,
    }
}

/// The redefinition of the rule `k` as a `CHOICE` of `members`.
pub open spec fn choice_rule_text2(k: Seq<char>, members: Seq<Rule>, next: usize) -> Option<
    (Seq<char>, usize, Seq<char>),
> {
    match choice_lines2(members, members.len() as int, next) {
        Some((t, n, a, seen)) => Some(
            (
                "\nredefine "@ + defined_name(k) + "\n"@ + t + (if seen.len() == 0 {
                    placeholder(k)
                } else {
                    Seq::empty()
                }) + "end define\n"@,
                n,
                a,
            ),
        ),
        None => None,
    }
}

/// The redefinition of the rule `k` as a `SEQ` of `members`.
pub open spec fn sequence_rule_text2(k: Seq<char>, members: Seq<Rule>, next: usize) -> Option<
    (Seq<char>, usize, Seq<char>),
> {
    match emit2_list(members, members.len() as int, next) {
        Some((parts, n, a)) => Some(
            (
                "\nredefine "@ + defined_name(k) + "\n"@ + "    "@ + (if non_empty(parts).len()
                    > 0 {
                    join(non_empty(parts), " "@)
                } else {
                    placeholder(k)
                }) + "end define\n"@,
                n,
                a,
            ),
        ),
        None => None,
    }
}

/// The redefinition that the second generator writes for the rule `k`;
/// nothing for a hidden rule (one whose name begins with an underscore).
pub open spec fn rule_text2(k: Seq<char>, rule: Rule, next: usize) -> Option<
    (Seq<char>, usize, Seq<char>),
> {
    if starts_with_underscore(k) {
        Some((Seq::empty(), next, Seq::empty()))
    } else {
        match rule {
            Rule::Repeat(content) => repeat_rule_text2(k, *content, next),
            Rule::Repeat1 { content, raw } => repeat_rule_text2(k, *content, next),
            Rule::Choice(members) => choice_rule_text2(k, members@, next),
            Rule::Sequence(members) => sequence_rule_text2(k, members@, next),
            Rule::Field { name, content } => match emit2(*content, next) {
                Some((s, n, a)) => Some(
                    ("\nredefine "@ + defined_name(k) + "\n"@ + s + "\nend define\n"@, n, a),
                ),
                None => None,
            },
            Rule::Prec(content) => content_or_placeholder2(k, *content, next),
            Rule::ImmediateToken(content) => content_or_placeholder2(k, *content, next),
            Rule::Token(content) => content_or_placeholder2(k, *content, next),
            Rule::StringLit(_) => Some(
                ("\nredefine "@ + k + "\n"@ + placeholder(k) + "end define\n"@, next, Seq::empty()),
            ),
            Rule::Pattern(_) => Some(
                ("\nredefine "@ + k + "\n"@ + placeholder(k) + "end define\n"@, next, Seq::empty()),
            ),
            Rule::NoMembers => None,
            Rule::Untyped => None,
            _ => Some((Seq::empty(), next, Seq::empty())),
        }
    }
}

/// The redefinitions of the first `n` of `rules`, one after another.
pub open spec fn rules_text2(rules: Seq<NamedRule>, n: int, next: usize) -> Option<
    (Seq<char>, usize, Seq<char>),
>
    decreases n,
{
    if n <= 0 {
        Some((Seq::empty(), next, Seq::empty()))
    } else if n > rules.len() {
        None
    } else {
        match rules_text2(rules, n - 1, next) {
            Some((t1, n1, a1)) => match rule_text2(rules[n - 1].name@, rules[n - 1].rule, n1) {
                Some((t2, n2, a2)) => Some((t1 + t2, n2, a1 + a2)),
                None => None,
            },
            None => None,
        }
    }
}

/// The alternatives of `Tree` for the first `n` of `rules`: one line for each
/// rule that is not hidden.
pub open spec fn tree_alternatives(rules: Seq<NamedRule>, n: int) -> Seq<char>
    decreases n,
{
    if n <= 0 || n > rules.len() {
        Seq::empty()
    } else {
        tree_alternatives(rules, n - 1) + if starts_with_underscore(rules[n - 1].name@) {
            Seq::empty()
        } else {
            "    ["@ + defined_name(rules[n - 1].name@) + "] |\n"@
        }
    }
}

/// The name of the second generator's file of auxiliary definitions.
pub open spec fn seq_file_name2(name: Seq<char>) -> Seq<char> {
    name + "-seq2.grm"@
}

/// The name of the second generator's main file.
pub open spec fn grammar_file_name2(name: Seq<char>) -> Seq<char> {
    name + "2.grm"@
}

/// What the second generator writes at the head of its main file.
pub open spec fn header2(name: Seq<char>) -> Seq<char> {
    "include \"tree-sitter.grm\"\n"@ + "include \""@ + seq_file_name2(name) + "\"\n"@
}

/// The names of the second generator's files for the language `name`: the
/// main file and the file of auxiliary definitions.
pub fn file_names_2(name: &String) -> (r: (String, String))
    ensures
        r.0@ == grammar_file_name2(name@),
        r.1@ == seq_file_name2(name@),
{
    let mut grammar_file = name.clone();
    grammar_file.append("2.grm");
    let mut seq_file = name.clone();
    seq_file.append("-seq2.grm");
    (grammar_file, seq_file)
}

/// What the second generator writes at the head of its main file for the
/// language `name`.
pub fn header_2(name: &String) -> (r: String)
    ensures
        r@ == header2(name@),
{
    let (_, seq_file) = file_names_2(name);
    let mut head = String::new();
    head.append("include \"tree-sitter.grm\"\n");
    head.append("include \"");
    head.append(seq_file.as_str());
    head.append("\"\n");
    assert(head@ =~= header2(name@));
    head
}

/// The redefinition of `Tree` that closes the second generator's main file.
pub open spec fn tree_text(rules: Seq<NamedRule>) -> Seq<char> {
    "\nredefine Tree\n"@ + tree_alternatives(rules, rules.len() as int) + "   ...\nend define\n"@
}

/// What the second generator makes of a grammar when the counter stands at
/// `next`: the main text, the text of auxiliary definitions, and where the
/// counter stands afterwards; `None` where it cannot.
pub open spec fn grammar_text2(g: Grammar, next: usize) -> Option<(Seq<char>, Seq<char>, usize)> {
    match (g.extras, g.externals) {
        (Some(extras), Some(externals)) => if !entries_readable(extras@) || !entries_readable(
            externals@,
        ) {
            None
        } else {
            match rules_text2(g.rules@, g.rules@.len() as int, next) {
                Some((body, n, a)) => Some(
                    (
                        header2(g.name@) + symbol_redefinitions(extras@, extras@.len() as int)
                            + symbol_redefinitions(externals@, externals@.len() as int) + body
                            + tree_text(g.rules@),
                        a,
                        n,
                    ),
                ),
                None => None,
            }
        },
        _ => None,
    }
}

/// Once the top-level `CHOICE` lines fail on a prefix, they fail on every
/// longer one.
pub proof fn lemma_choice_lines2_stays_none(members: Seq<Rule>, i: int, j: int, next: usize)
    requires
        0 <= i <= j,
        choice_lines2(members, i, next) is None,
    ensures
        choice_lines2(members, j, next) is None,
    decreases j - i,
{
    if i < j {
        lemma_choice_lines2_stays_none(members, i, j - 1, next);
    }
}

/// Once the rule list fails on a prefix, it fails on every longer one.
pub proof fn lemma_rules_text2_stays_none(rules: Seq<NamedRule>, i: int, j: int, next: usize)
    requires
        0 <= i <= j,
        rules_text2(rules, i, next) is None,
    ensures
        rules_text2(rules, j, next) is None,
    decreases j - i,
{
    if i < j {
        lemma_rules_text2_stays_none(rules, i, j - 1, next);
    }
}

/// Appends the placeholder body of the rule `k` to `out`.
fn append_placeholder(out: &mut String, k: &String)
    ensures
        final(out)@ == old(out)@ + placeholder(k@),
{
    let ghost out0 = out@;
    out.append("    '( '");
    out.append(k.as_str());
    out.append(" [Range] ')\n");
    assert(out@ =~= out0 + placeholder(k@));
}

/// Tells whether the text of `s` is among the texts of `v`.
fn holds_text(v: &Vec<String>, s: &String) -> (b: bool)
    ensures
        b == texts(v@).contains(s@),
{
    let len = v.len();
    let mut i: usize = 0;
    while i < len
        invariant
            len == v@.len(),
            i <= len,
            forall|j: int| 0 <= j < i ==> texts(v@)[j] != s@,
        decreases len - i,
    {
        if v[i] == *s {
            assert(texts(v@)[i as int] == s@);
            return true;
        }
        i = i + 1;
    }
    false
}

/// Writes the redefinitions for the symbols among `rules` (entries of the
/// grammar's `extras` or `externals`) to `out`.
pub fn write_symbol_redefinitions(rules: &Vec<Rule>, out: &mut String)
    ensures
        final(out)@ == old(out)@ + symbol_redefinitions(rules@, rules@.len() as int),
{
    let ghost out0 = out@;
    let len = rules.len();
    let mut i: usize = 0;
    while i < len
        invariant
            len == rules@.len(),
            i <= len,
            out0 == old(out)@,
            out@ == out0 + symbol_redefinitions(rules@, i as int),
        decreases len - i,
    {
        let ghost before = out@;
        match &rules[i] {
            Rule::Symbol(Some(k)) => {
                out.append("\nredefine ");
                out.append(k.as_str());
                out.append("\n");
                append_placeholder(out, k);
                out.append("end define\n");
                assert(out@ =~= before + symbol_redefinition(rules@[i as int]));
            },
            _ => {
                assert(out@ =~= before + symbol_redefinition(rules@[i as int]));
            },
        }
        assert(out@ =~= out0 + symbol_redefinitions(rules@, i + 1));
        i = i + 1;
    }
}

/// Tells whether the second generator can read every entry of `rules`.
fn all_entries_readable(rules: &Vec<Rule>) -> (b: bool)
    ensures
        b == entries_readable(rules@),
{
    let len = rules.len();
    let mut i: usize = 0;
    while i < len
        invariant
            len == rules@.len(),
            i <= len,
            forall|j: int| 0 <= j < i ==> entry_readable(#[trigger] rules@[j]),
        decreases len - i,
    {
        match &rules[i] {
            Rule::Untyped | Rule::Symbol(None) => {
                assert(!entry_readable(rules@[i as int]));
                return false;
            },
            _ => {},
        }
        i = i + 1;
    }
    true
}

/// Writes the lines of a top-level `CHOICE` of `members` to `out`, and hands
/// back the branches written.
fn write_choice_lines_2(
    members: &Vec<Rule>,
    out: &mut String,
    counter: &mut IdCounter,
    aux: &mut String,
) -> (r: Option<Vec<String>>)
    ensures
        r is Some <==> choice_lines2(members@, members@.len() as int, old(counter).next) is Some,
        r matches Some(seen) ==> {
            &&& choice_lines2(members@, members@.len() as int, old(counter).next) matches Some(
                (t, n, a, sn),
            )
            &&& final(out)@ == old(out)@ + t
            &&& final(counter).next == n
            &&& final(aux)@ == old(aux)@ + a
            &&& texts(seen@) == sn
        },
{
    let ghost start = counter.next;
    let ghost out0 = out@;
    let ghost aux0 = aux@;
    let mut seen: Vec<String> = Vec::new();
    let len = members.len();
    let mut i: usize = 0;
    while i < len
        invariant
            len == members@.len(),
            i <= len,
            start == old(counter).next,
            out0 == old(out)@,
            aux0 == old(aux)@,
            choice_lines2(members@, i as int, start) matches Some((t, n, a, sn)) && out@ == out0
                + t && counter.next == n && aux@ == aux0 + a && texts(seen@) == sn,
        decreases len - i,
    {
        let ghost (t1, n1, a1, sn1) = choice_lines2(members@, i as int, start).unwrap();
        let ghost seen0 = seen@;
        let m = &members[i];
        let g = match to_txl_2(m, counter, aux) {
            Some(g) => g,
            None => {
                proof {
                    assert(choice_lines2(members@, i + 1, start) is None);
                    lemma_choice_lines2_stays_none(members@, i + 1, len as int, start);
                }
                return None;
            },
        };
        let ghost (g2, n2, a2) = emit2(members@[i as int], n1).unwrap();
        if g.as_str().unicode_len() > 0 && !holds_text(&seen, &g) {
            let alias = is_alias_node(m);
            let pattern = is_pattern_node(m);
            let ghost mid = out@;
            out.append("    ");
            if i > 0 && !alias && !pattern {
                out.append("| ");
            } else {
                out.append("  ");
            }
            if !alias {
                out.append(g.as_str());
                out.append("\n");
            }
            proof {
                let line = "    "@ + (if i > 0 && !alias && !pattern {
                    "| "@
                } else {
                    "  "@
                }) + (if !alias {
                    g2 + "\n"@
                } else {
                    Seq::empty()
                });
                assert(out@ =~= mid + line);
                assert(out@ =~= out0 + (t1 + line));
            }
            seen.push(g);
            assert(texts(seen@) =~= texts(seen0).push(g2));
        }
        assert(aux@ =~= aux0 + (a1 + a2));
        i = i + 1;
    }
    Some(seen)
}

/// Writes the redefinition of the rule `k` as a repetition of `content`.
fn write_repeat_rule_2(
    k: &String,
    content: &Rule,
    out: &mut String,
    counter: &mut IdCounter,
    aux: &mut String,
) -> (ok: bool)
    ensures
        ok <==> repeat_rule_text2(k@, *content, old(counter).next) is Some,
        ok ==> {
            &&& repeat_rule_text2(k@, *content, old(counter).next) matches Some((t, n, a))
            &&& final(out)@ == old(out)@ + t
            &&& final(counter).next == n
            &&& final(aux)@ == old(aux)@ + a
        },
{
    let ghost out0 = out@;
    let ghost aux0 = aux@;
    let s = match to_txl_2(content, counter, aux) {
        Some(s) => s,
        None => return false,
    };
    let ghost aux1 = aux@;
    if s.as_str().unicode_len() > 0 && has_char(&s, '|') {
        let id = get_id(counter);
        let kk = seq_name_of(id);
        aux.append("\nredefine ");
        aux.append(kk.as_str());
        aux.append("\n    ");
        aux.append(s.as_str());
        aux.append("\nend define\n");
        assert(aux@ =~= aux1 + aux_redefinition(kk@, s@));
        out.append("\nredefine ");
        out.append(k.as_str());
        out.append("\n");
        out.append("    ");
        out.append("[");
        out.append(kk.as_str());
        out.append("*]\n");
        out.append("end define\n");
        assert(out@ =~= out0 + ("\nredefine "@ + k@ + "\n"@ + "    "@ + "["@ + kk@ + "*]\n"@
            + "end define\n"@));
        true
    } else if s.as_str().unicode_len() > 0 {
        match strip_ends_of(&s) {
            Some(d) => {
                out.append("\nredefine ");
                out.append(k.as_str());
                out.append("\n");
                out.append("    ");
                out.append("[");
                out.append(d.as_str());
                out.append("*]\n");
                out.append("end define\n");
                assert(out@ =~= out0 + ("\nredefine "@ + k@ + "\n"@ + "    "@ + "["@ + d@
                    + "*]\n"@ + "end define\n"@));
                true
            },
            None => false,
        }
    } else {
        out.append("\nredefine ");
        out.append(k.as_str());
        out.append("\n");
        out.append("    ");
        append_placeholder(out, k);
        out.append("end define\n");
        assert(out@ =~= out0 + ("\nredefine "@ + k@ + "\n"@ + "    "@ + placeholder(k@)
            + "end define\n"@));
        true
    }
}

/// Writes the redefinition of the rule `k` as a `CHOICE` of `members`.
fn write_choice_rule_2(
    k: &String,
    members: &Vec<Rule>,
    out: &mut String,
    counter: &mut IdCounter,
    aux: &mut String,
) -> (ok: bool)
    ensures
        ok <==> choice_rule_text2(k@, members@, old(counter).next) is Some,
        ok ==> {
            &&& choice_rule_text2(k@, members@, old(counter).next) matches Some((t, n, a))
            &&& final(out)@ == old(out)@ + t
            &&& final(counter).next == n
            &&& final(aux)@ == old(aux)@ + a
        },
{
    let ghost out0 = out@;
    out.append("\nredefine ");
    append_defined_name(out, k);
    out.append("\n");
    let ghost mid = out@;
    let seen = match write_choice_lines_2(members, out, counter, aux) {
        Some(seen) => seen,
        None => return false,
    };
    let ghost mid2 = out@;
    if seen.len() == 0 {
        append_placeholder(out, k);
    }
    let ghost mid3 = out@;
    out.append("end define\n");
    proof {
        let t = mid2.subrange(mid.len() as int, mid2.len() as int);
        assert(mid2 =~= mid + t);
        let p = mid3.subrange(mid2.len() as int, mid3.len() as int);
        assert(mid3 =~= mid2 + p);
        assert(out@ =~= out0 + ("\nredefine "@ + defined_name(k@) + "\n"@ + t + p
            + "end define\n"@));
    }
    true
}

/// Writes the redefinition of the rule `k` as a `SEQ` of `members`.
fn write_sequence_rule_2(
    k: &String,
    members: &Vec<Rule>,
    out: &mut String,
    counter: &mut IdCounter,
    aux: &mut String,
) -> (ok: bool)
    ensures
        ok <==> sequence_rule_text2(k@, members@, old(counter).next) is Some,
        ok ==> {
            &&& sequence_rule_text2(k@, members@, old(counter).next) matches Some((t, n, a))
            &&& final(out)@ == old(out)@ + t
            &&& final(counter).next == n
            &&& final(aux)@ == old(aux)@ + a
        },
{
    let ghost out0 = out@;
    let parts = match to_txl_2_members(members, counter, aux) {
        Some(parts) => parts,
        None => return false,
    };
    let branches = keep_non_empty(&parts);
    out.append("\nredefine ");
    append_defined_name(out, k);
    out.append("\n");
    out.append("    ");
    let ghost mid = out@;
    if branches.len() > 0 {
        let j = join_with(&branches, " ");
        out.append(j.as_str());
    } else {
        append_placeholder(out, k);
    }
    let ghost mid2 = out@;
    out.append("end define\n");
    proof {
        let p = mid2.subrange(mid.len() as int, mid2.len() as int);
        assert(mid2 =~= mid + p);
        assert(out@ =~= out0 + ("\nredefine "@ + defined_name(k@) + "\n"@ + "    "@ + p
            + "end define\n"@));
    }
    true
}

/// Writes the redefinition of `k` as the text of `content` or, where that is
/// empty, as a placeholder.
fn write_content_or_placeholder_2(
    k: &String,
    content: &Rule,
    out: &mut String,
    counter: &mut IdCounter,
    aux: &mut String,
) -> (ok: bool)
    ensures
        ok <==> content_or_placeholder2(k@, *content, old(counter).next) is Some,
        ok ==> {
            &&& content_or_placeholder2(k@, *content, old(counter).next) matches Some((t, n, a))
            &&& final(out)@ == old(out)@ + t
            &&& final(counter).next == n
            &&& final(aux)@ == old(aux)@ + a
        },
{
    let ghost out0 = out@;
    let s = match to_txl_2(content, counter, aux) {
        Some(s) => s,
        None => return false,
    };
    out.append("\nredefine ");
    out.append(k.as_str());
    out.append("\n");
    let ghost mid = out@;
    if s.as_str().unicode_len() > 0 {
        out.append(s.as_str());
        out.append("\n");
    } else {
        append_placeholder(out, k);
    }
    let ghost mid2 = out@;
    out.append("end define\n");
    proof {
        let p = mid2.subrange(mid.len() as int, mid2.len() as int);
        assert(mid2 =~= mid + p);
        assert(out@ =~= out0 + ("\nredefine "@ + k@ + "\n"@ + p + "end define\n"@));
    }
    true
}

/// Writes the redefinition that the second generator makes of the rule `k`.
fn write_rule_2(
    k: &String,
    rule: &Rule,
    out: &mut String,
    counter: &mut IdCounter,
    aux: &mut String,
) -> (ok: bool)
    ensures
        ok <==> rule_text2(k@, *rule, old(counter).next) is Some,
        ok ==> {
            &&& rule_text2(k@, *rule, old(counter).next) matches Some((t, n, a))
            &&& final(out)@ == old(out)@ + t
            &&& final(counter).next == n
            &&& final(aux)@ == old(aux)@ + a
        },
{
    let ghost out0 = out@;
    if begins_with_underscore(k) {
        assert(out@ =~= out0 + Seq::<char>::empty());
        assert(aux@ =~= old(aux)@ + Seq::<char>::empty());
        return true;
    }
    match rule {
        Rule::Repeat(content) => write_repeat_rule_2(k, content, out, counter, aux),
        Rule::Repeat1 { content, raw } => write_repeat_rule_2(k, content, out, counter, aux),
        Rule::Choice(members) => write_choice_rule_2(k, members, out, counter, aux),
        Rule::Sequence(members) => write_sequence_rule_2(k, members, out, counter, aux),
        Rule::Field { name, content } => match to_txl_2(content, counter, aux) {
            Some(s) => {
                out.append("\nredefine ");
                append_defined_name(out, k);
                out.append("\n");
                out.append(s.as_str());
                out.append("\nend define\n");
                assert(out@ =~= out0 + ("\nredefine "@ + defined_name(k@) + "\n"@ + s@
                    + "\nend define\n"@));
                true
            },
            None => false,
        },
        Rule::Prec(content) => write_content_or_placeholder_2(k, content, out, counter, aux),
        Rule::ImmediateToken(content) => write_content_or_placeholder_2(
            k,
            content,
            out,
            counter,
            aux,
        ),
        Rule::Token(content) => write_content_or_placeholder_2(k, content, out, counter, aux),
        Rule::NoMembers | Rule::Untyped => false,
        Rule::StringLit(_) | Rule::Pattern(_) => {
            out.append("\nredefine ");
            out.append(k.as_str());
            out.append("\n");
            append_placeholder(out, k);
            out.append("end define\n");
            assert(out@ =~= out0 + ("\nredefine "@ + k@ + "\n"@ + placeholder(k@)
                + "end define\n"@));
            assert(aux@ =~= old(aux)@ + Seq::<char>::empty());
            true
        },
        _ => {
            assert(out@ =~= out0 + Seq::<char>::empty());
            assert(aux@ =~= old(aux)@ + Seq::<char>::empty());
            true
        },
    }
}

/// Writes the alternatives of `Tree` for `rules` to `out`.
fn write_tree_alternatives(rules: &Vec<NamedRule>, out: &mut String)
    ensures
        final(out)@ == old(out)@ + tree_alternatives(rules@, rules@.len() as int),
{
    let ghost out0 = out@;
    let len = rules.len();
    let mut i: usize = 0;
    while i < len
        invariant
            len == rules@.len(),
            i <= len,
            out0 == old(out)@,
            out@ == out0 + tree_alternatives(rules@, i as int),
        decreases len - i,
    {
        let ghost before = out@;
        let k = &rules[i].name;
        if !begins_with_underscore(k) {
            out.append("    [");
            append_defined_name(out, k);
            out.append("] |\n");
            assert(out@ =~= before + ("    ["@ + defined_name(k@) + "] |\n"@));
        } else {
            assert(out@ =~= before + Seq::<char>::empty());
        }
        assert(out@ =~= out0 + tree_alternatives(rules@, i + 1));
        i = i + 1;
    }
}

/// The second generator on a whole grammar: a TXL grammar that refines the
/// grammar of tree-sitter S-expressions.  The main file, `NAME2.grm`,
/// includes `tree-sitter.grm` and the file of auxiliary definitions,
/// `NAME-seq2.grm`; it redefines each symbol of the grammar's `extras` and
/// `externals` as a placeholder, then each rule that is not hidden, in the
/// grammar's order, and at last `Tree` as a choice of all rules that are not
/// hidden.  Fresh identifiers come from `counter`.  The grammar must have
/// its `extras` and `externals` arrays.  `None` where an entry of them
/// cannot be read or a rule's text cannot be made: a rule or a node that the
/// generator reads lacks a field it needs, or a repetition's text cannot lose
/// its first and last character.
pub fn tree_sitter_to_txl_2(g: &Grammar, counter: &mut IdCounter) -> (r: Option<TxlGrammar>)
    requires
        g.extras is Some,
        g.externals is Some,
    ensures
        r is Some <==> grammar_text2(*g, old(counter).next) is Some,
        r matches Some(out) ==> {
            &&& grammar_text2(*g, old(counter).next) matches Some((main, seqs, n))
            &&& out.grammar_text@ == main
            &&& out.seq_text@ == seqs
            &&& out.grammar_file@ == grammar_file_name2(g.name@)
            &&& out.seq_file@ == seq_file_name2(g.name@)
            &&& final(counter).next == n
        },
{
    let extras = match &g.extras {
        Some(e) => e,
        None => return None,
    };
    let externals = match &g.externals {
        Some(e) => e,
        None => return None,
    };
    if !all_entries_readable(extras) || !all_entries_readable(externals) {
        return None;
    }
    let (grammar_file, seq_file) = file_names_2(&g.name);
    let mut main = header_2(&g.name);
    write_symbol_redefinitions(extras, &mut main);
    write_symbol_redefinitions(externals, &mut main);
    let ghost head = main@;
    let mut aux = String::new();
    let ghost first_id = counter.next;
    let len = g.rules.len();
    let mut i: usize = 0;
    while i < len
        invariant
            len == g.rules@.len(),
            i <= len,
            first_id == old(counter).next,
            rules_text2(g.rules@, i as int, first_id) matches Some((t, n, a)) && main@ == head + t
                && counter.next == n && aux@ == a,
        decreases len - i,
    {
        let ghost (t1, n1, a1) = rules_text2(g.rules@, i as int, first_id).unwrap();
        let named = &g.rules[i];
        if !write_rule_2(&named.name, &named.rule, &mut main, counter, &mut aux) {
            proof {
                assert(rules_text2(g.rules@, i + 1, first_id) is None);
                lemma_rules_text2_stays_none(g.rules@, i + 1, len as int, first_id);
            }
            return None;
        }
        proof {
            let (t2, n2, a2) = rule_text2(g.rules@[i as int].name@, g.rules@[i as int].rule, n1).unwrap();
            assert(main@ =~= head + (t1 + t2));
        }
        i = i + 1;
    }
    let ghost body_end = main@;
    main.append("\nredefine Tree\n");
    write_tree_alternatives(&g.rules, &mut main);
    main.append("   ...\nend define\n");
    assert(main@ =~= body_end + tree_text(g.rules@));
    Some(TxlGrammar { grammar_file, grammar_text: main, seq_file, seq_text: aux })
}

} // verus!
