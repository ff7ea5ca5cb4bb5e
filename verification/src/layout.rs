//! Laws on the layout of the texts that the generators write, each stated
//! with the literal text of the TXL that is written.
use vstd::prelude::*;
use crate::grammar::{NamedRule, Rule};
use crate::text::{join, starts_with_underscore, strip_ends};
use crate::first::{emit1, emit1_list, member_lines1, rule_text1};
use crate::second::{emit2, rule_text2, symbol_redefinitions, tree_alternatives};

verus! {

/// True when `t` begins with `head`.
pub open spec fn begins_with(t: Seq<char>, head: Seq<char>) -> bool {
    head.len() <= t.len() && t.take(head.len() as int) == head
}

/// The name under which a group or field rule `k` is defined: `COMMENT` for
/// the rule `comment`, the name by which every `[COMMENT]` reference of a
/// `SYMBOL comment` refers to it.
pub open spec fn group_name(k: Seq<char>) -> Seq<char> {
    if k == "comment"@ {
        "COMMENT"@
    } else {
        k
    }
}

/// A text that begins with `head` and goes on with `rest` begins with `head`.
proof fn lemma_begins_with(head: Seq<char>, rest: Seq<char>)
    ensures
        begins_with(head + rest, head),
{
    assert((head + rest).take(head.len() as int) =~= head);
}

/// The first generator's definition of a rule of type `CHOICE`, `SEQ` or
/// `FIELD` is headed by `define COMMENT` for the rule `comment`, and by the
/// rule's own name for any other rule; a rule of type `REPEAT`, `PREC`,
/// `IMMEDIATE_TOKEN` or `STRING` is headed by its own name.
pub proof fn law_first_definition_header(k: Seq<char>, rule: Rule, next: usize)
    ensures
        rule_text1(k, rule, next) matches Some((t, n, a)) ==> {
            &&& (rule is Choice || rule is Sequence || rule is Field) ==> begins_with(
                t,
                "\ndefine "@ + (if k == "comment"@ {
                    "COMMENT"@
                } else {
                    k
                }) + "\n"@,
            )
            &&& (rule is Repeat || rule is Prec || rule is ImmediateToken || rule is StringLit)
                ==> begins_with(t, "\ndefine "@ + k + "\n"@)
        },
{
    if let Some((t, n, a)) = rule_text1(k, rule, next) {
        let h = "\ndefine "@ + group_name(k) + "\n"@;
        let g = "\ndefine "@ + k + "\n"@;
        match rule {
            Rule::Choice(ms) => {
                let (lines, n2, a2) = member_lines1(ms@, ms@.len() as int, "| "@, next).unwrap();
                assert(t =~= h + (lines + "end define\n"@));
                lemma_begins_with(h, lines + "end define\n"@);
            },
            Rule::Sequence(ms) => {
                let (lines, n2, a2) = member_lines1(ms@, ms@.len() as int, ""@, next).unwrap();
                assert(t =~= h + (lines + "end define\n"@));
                lemma_begins_with(h, lines + "end define\n"@);
            },
            Rule::Field { name, content } => {
                let (s, n2, a2) = emit1(*content, next).unwrap();
                assert(t =~= h + (s + "\nend define\n"@));
                lemma_begins_with(h, s + "\nend define\n"@);
            },
            Rule::Repeat(content) => {
                let (s, n2, a2) = emit1(*content, next).unwrap();
                let rest = "    ["@ + strip_ends(s) + "*]\nend define\n"@;
                reveal_strlit("\n    [");
                reveal_strlit("\n");
                reveal_strlit("    [");
                assert("\n    ["@ =~= "\n"@ + "    ["@);
                assert(t =~= g + rest);
                lemma_begins_with(g, rest);
            },
            Rule::Prec(content) => {
                let (s, n2, a2) = emit1(*content, next).unwrap();
                assert(t =~= g + (s + "\nend define\n"@));
                lemma_begins_with(g, s + "\nend define\n"@);
            },
            Rule::ImmediateToken(content) => {
                let (s, n2, a2) = emit1(*content, next).unwrap();
                assert(t =~= g + (s + "\nend define\n"@));
                lemma_begins_with(g, s + "\nend define\n"@);
            },
            Rule::StringLit(value) => {
                let rest = "'"@ + value.unwrap()@ + "\nend define\n"@;
                reveal_strlit("\n'");
                reveal_strlit("\n");
                reveal_strlit("'");
                assert("\n'"@ =~= "\n"@ + "'"@);
                assert(t =~= g + rest);
                lemma_begins_with(g, rest);
            },
            _ => {},
        }
    }
}

/// The second generator's redefinition of a rule `k` that is not hidden and
/// is of type `PREC`, `TOKEN` or `IMMEDIATE_TOKEN`: the text of its content
/// on a line of its own, or, where that text is empty, the S-expression of a
/// node of type `k` read as a whole; nothing more is drawn from the counter
/// or written to the auxiliary definitions than the content's text draws
/// and writes.
pub proof fn law_second_wrapped_rule(k: Seq<char>, rule: Rule, content: Rule, next: usize)
    requires
        !starts_with_underscore(k),
        (rule matches Rule::Prec(c) && *c == content) || (rule matches Rule::Token(c) && *c
            == content) || (rule matches Rule::ImmediateToken(c) && *c == content),
    ensures
        emit2(content, next) is None ==> rule_text2(k, rule, next) is None,
        emit2(content, next) matches Some((s, n, a)) ==> rule_text2(k, rule, next) == Some(
            (
                "\nredefine "@ + k + "\n"@ + (if s.len() == 0 {
                    "    '( '"@ + k + " [Range] ')\n"@
                } else {
                    s + "\n"@
                }) + "end define\n"@,
                n,
                a,
            ),
        ),
{
}

/// The second generator's redefinition of a rule of type `CHOICE`, `SEQ` or
/// `FIELD` is headed by `redefine COMMENT` for the rule `comment`, and by the
/// rule's own name for any other rule that is not hidden; a rule of type
/// `REPEAT`, `REPEAT1`, `PREC`, `TOKEN`, `IMMEDIATE_TOKEN`, `STRING` or
/// `PATTERN` is headed by its own name.
pub proof fn law_second_redefinition_header(k: Seq<char>, rule: Rule, next: usize)
    requires
        !starts_with_underscore(k),
    ensures
        rule_text2(k, rule, next) matches Some((t, n, a)) ==> {
            &&& (rule is Choice || rule is Sequence || rule is Field) ==> begins_with(
                t,
                "\nredefine "@ + (if k == "comment"@ {
                    "COMMENT"@
                } else {
                    k
                }) + "\n"@,
            )
            &&& (rule is Repeat || rule is Repeat1 || rule is Prec || rule is Token
                || rule is ImmediateToken || rule is StringLit || rule is Pattern) ==> begins_with(
                t,
                "\nredefine "@ + k + "\n"@,
            )
        },
{
    if let Some((t, n, a)) = rule_text2(k, rule, next) {
        let h = "\nredefine "@ + group_name(k) + "\n"@;
        let g = "\nredefine "@ + k + "\n"@;
        match rule {
            Rule::Choice(_) | Rule::Sequence(_) | Rule::Field { .. } => {
                lemma_begins_with(h, t.skip(h.len() as int));
                assert(t =~= h + t.skip(h.len() as int));
            },
            Rule::Repeat(_) | Rule::Repeat1 { .. } | Rule::Prec(_) | Rule::Token(_)
            | Rule::ImmediateToken(_) | Rule::StringLit(_) | Rule::Pattern(_) => {
                lemma_begins_with(g, t.skip(g.len() as int));
                assert(t =~= g + t.skip(g.len() as int));
            },
            _ => {},
        }
    }
}

/// How many `|` characters `s` holds.
pub open spec fn bars(s: Seq<char>) -> nat
    decreases s.len(),
{
    if s.len() == 0 {
        0
    } else {
        bars(s.drop_last()) + if s.last() == '|' {
            1nat
        } else {
            0nat
        }
    }
}

/// How many `|` characters the texts `parts` hold together.
pub open spec fn bars_of(parts: Seq<Seq<char>>) -> nat
    decreases parts.len(),
{
    if parts.len() == 0 {
        0
    } else {
        bars_of(parts.drop_last()) + bars(parts.last())
    }
}

/// A text of one character holds a `|` where that character is one.
proof fn lemma_bars_single(c: char)
    ensures
        bars(seq![c]) == if c == '|' {
            1nat
        } else {
            0nat
        },
{
    assert(seq![c].drop_last() =~= Seq::<char>::empty());
    assert(bars(Seq::<char>::empty()) == 0);
}

/// The `|` characters of two texts one after the other are those of each.
proof fn lemma_bars_concat(a: Seq<char>, b: Seq<char>)
    ensures
        bars(a + b) == bars(a) + bars(b),
    decreases b.len(),
{
    if b.len() == 0 {
        assert(a + b =~= a);
    } else {
        lemma_bars_concat(a, b.drop_last());
        assert((a + b).drop_last() =~= a + b.drop_last());
    }
}

/// Joining `parts` with `|` adds one `|` between each two of them.
proof fn lemma_bars_join(parts: Seq<Seq<char>>)
    requires
        parts.len() > 0,
    ensures
        bars(join(parts, "|"@)) == bars_of(parts) + parts.len() - 1,
    decreases parts.len(),
{
    reveal_strlit("|");
    assert("|"@ =~= seq!['|']);
    lemma_bars_single('|');
    if parts.len() == 1 {
        assert(parts.drop_last() =~= Seq::<Seq<char>>::empty());
        assert(bars_of(parts.drop_last()) == 0);
        assert(parts.last() == parts[0]);
    } else {
        lemma_bars_join(parts.drop_last());
        lemma_bars_concat(join(parts.drop_last(), "|"@), "|"@);
        lemma_bars_concat(join(parts.drop_last(), "|"@) + "|"@, parts.last());
    }
}

/// The first generator makes one text for each member of a list.
proof fn lemma_emit1_list_len(members: Seq<Rule>, n: int, next: usize)
    requires
        0 <= n <= members.len(),
    ensures
        emit1_list(members, n, next) matches Some((parts, m, a)) ==> parts.len() == n,
    decreases n,
{
    if n > 0 {
        lemma_emit1_list_len(members, n - 1, next);
    }
}

/// The first generator writes a `CHOICE` of `members` as its members' texts
/// in parentheses, one alternative for each member, an empty text included:
/// the text begins with `(` and ends with `)`, and it holds one `|` between
/// each two members besides those of the members' own texts.
pub proof fn law_first_choice_has_one_alternative_per_member(
    node: Rule,
    members: Seq<Rule>,
    next: usize,
)
    requires
        node matches Rule::Choice(ms) && ms@ == members,
    ensures
        emit1(node, next) matches Some((t, n, a)) ==> {
            &&& emit1_list(members, members.len() as int, next) matches Some((parts, m, b))
            &&& parts.len() == members.len()
            &&& t.len() >= 2
            &&& t[0] == '('
            &&& t[t.len() - 1] == ')'
            &&& bars(t) == bars_of(parts) + if members.len() > 0 {
                (members.len() - 1) as nat
            } else {
                0nat
            }
        },
{
    lemma_emit1_list_len(members, members.len() as int, next);
    if let Some((t, n, a)) = emit1(node, next) {
        let (parts, m, b) = emit1_list(members, members.len() as int, next).unwrap();
        let j = join(parts, "|"@);
        reveal_strlit("(");
        reveal_strlit(")");
        assert("("@ =~= seq!['(']);
        assert(")"@ =~= seq![')']);
        lemma_bars_single('(');
        lemma_bars_single(')');
        lemma_bars_concat("("@, j);
        lemma_bars_concat("("@ + j, ")"@);
        if parts.len() > 0 {
            lemma_bars_join(parts);
        } else {
            assert(bars(j) == 0);
        }
    }
}

/// A redefinition for each `SYMBOL` of the grammar's `extras` or `externals`,
/// whatever its name: an entry appended to the list appends, where it is a
/// symbol `k`, the redefinition of `k` as the S-expression of a node of type
/// `k` read as a whole, and nothing where it is anything else.
pub proof fn law_symbol_redefinition_per_symbol(rules: Seq<Rule>, x: Rule)
    ensures
        symbol_redefinitions(rules.push(x), rules.len() + 1int) == symbol_redefinitions(
            rules,
            rules.len() as int,
        ) + match x {
            Rule::Symbol(Some(k)) => "\nredefine "@ + k@ + "\n"@ + ("    '( '"@ + k@
                + " [Range] ')\n"@) + "end define\n"@,
            _ => Seq::empty(),
        },
{
    lemma_symbol_redefinitions_prefix(rules, x, rules.len() as int);
    assert(rules.push(x)[rules.len() as int] == x);
}

/// The redefinitions of a prefix of a list do not depend on what follows.
proof fn lemma_symbol_redefinitions_prefix(rules: Seq<Rule>, x: Rule, j: int)
    requires
        0 <= j <= rules.len(),
    ensures
        symbol_redefinitions(rules.push(x), j) == symbol_redefinitions(rules, j),
    decreases j,
{
    if j > 0 {
        lemma_symbol_redefinitions_prefix(rules, x, j - 1);
        assert(rules.push(x)[j - 1] == rules[j - 1]);
    }
}

/// Both generators refer to a rule by the name under which it is defined:
/// a `SYMBOL comment` is written `[COMMENT]`, the first generator writes a
/// `SYMBOL identifier` as `[id]`, and any other symbol by its own name in
/// brackets; the second generator writes nothing for a hidden symbol.
pub proof fn law_symbol_references(name: String, next: usize)
    ensures
        emit1(Rule::Symbol(Some(name)), next) == Some(
            (
                "["@ + (if name@ == "identifier"@ {
                    "id"@
                } else if name@ == "comment"@ {
                    "COMMENT"@
                } else {
                    name@
                }) + "]"@,
                next,
                Seq::<char>::empty(),
            ),
        ),
        name@ == "comment"@ ==> emit2(Rule::Symbol(Some(name)), next) == Some(
            ("["@ + "COMMENT"@ + "]"@, next, Seq::<char>::empty()),
        ),
        name@ != "comment"@ && !starts_with_underscore(name@) ==> emit2(
            Rule::Symbol(Some(name)),
            next,
        ) == Some(("["@ + name@ + "]"@, next, Seq::<char>::empty())),
        starts_with_underscore(name@) ==> emit2(Rule::Symbol(Some(name)), next) == Some(
            (Seq::<char>::empty(), next, Seq::<char>::empty()),
        ),
{
    reveal_strlit("comment");
    reveal_strlit("COMMENT");
    if name@ == "comment"@ {
        assert(!starts_with_underscore("COMMENT"@));
    }
}

/// The alternatives of `Tree`: a rule appended to the grammar appends the
/// line `[k] |` (`[COMMENT] |` for `comment`) where it is not hidden, and
/// nothing where it is.
pub proof fn law_tree_alternative_per_rule(rules: Seq<NamedRule>, x: NamedRule)
    ensures
        tree_alternatives(rules.push(x), rules.len() + 1int) == tree_alternatives(
            rules,
            rules.len() as int,
        ) + if starts_with_underscore(x.name@) {
            Seq::<char>::empty()
        } else {
            "    ["@ + (if x.name@ == "comment"@ {
                "COMMENT"@
            } else {
                x.name@
            }) + "] |\n"@
        },
{
    lemma_tree_alternatives_prefix(rules, x, rules.len() as int);
    assert(rules.push(x)[rules.len() as int] == x);
}

/// The alternatives of a prefix of the rules do not depend on what follows.
proof fn lemma_tree_alternatives_prefix(rules: Seq<NamedRule>, x: NamedRule, j: int)
    requires
        0 <= j <= rules.len(),
    ensures
        tree_alternatives(rules.push(x), j) == tree_alternatives(rules, j),
    decreases j,
{
    if j > 0 {
        lemma_tree_alternatives_prefix(rules, x, j - 1);
        assert(rules.push(x)[j - 1] == rules[j - 1]);
    }
}

} // verus!
