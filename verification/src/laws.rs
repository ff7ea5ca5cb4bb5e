//! Properties that hold of the generators on every input.
use vstd::prelude::*;
use crate::grammar::{defined_name, is_group, Grammar, NamedRule, Rule};
use crate::ids::successor;
use crate::text::{can_strip_ends, starts_with_underscore, strip_ends};
use crate::first::{
    aux_definition, emit1, emit1_list, grammar_text1, member_line1, member_lines1, rule_text1,
    rules_text1, seq_name,
};
use crate::second::{
    aux_redefinition, choice_lines2, choice_rule_text2, emit2, emit2_list, grammar_text2,
    placeholder, repeat_text2, rule_text2, rules_text2, tree_alternatives,
};

verus! {

/// Where a counter standing at `n` stands after handing out `k` identifiers.
pub open spec fn advance(n: usize, k: nat) -> usize
    decreases k,
{
    if k == 0 {
        n
    } else {
        successor(advance(n, (k - 1) as nat))
    }
}

/// How many `REPEAT` nodes of a `SEQ` or `CHOICE` the first generator meets
/// in `node`.
pub open spec fn repeated_groups(node: Rule) -> nat
    decreases node, 0int,
{
    match node {
        Rule::Repeat(content) => repeated_groups(*content) + if is_group(*content) {
            1nat
        } else {
            0nat
        },
        Rule::Token(content) => repeated_groups(*content),
        Rule::ImmediateToken(content) => repeated_groups(*content),
        Rule::Prec(content) => repeated_groups(*content),
        Rule::Field { name, content } => repeated_groups(*content),
        Rule::Sequence(members) => repeated_groups_list(members@, members@.len() as int),
        Rule::Choice(members) => repeated_groups_list(members@, members@.len() as int),
        _ => 0,
    }
}

/// How many `REPEAT` nodes of a `SEQ` or `CHOICE` the first generator meets
/// in the first `n` of `members`.
pub open spec fn repeated_groups_list(members: Seq<Rule>, n: int) -> nat
    decreases members, n,
{
    if n <= 0 || n > members.len() {
        0
    } else {
        repeated_groups_list(members, n - 1) + repeated_groups(members[n - 1])
    }
}

/// Handing out `a` identifiers and then `b` more is handing out `a + b`.
pub proof fn lemma_advance_add(n: usize, a: nat, b: nat)
    ensures
        advance(advance(n, a), b) == advance(n, a + b),
    decreases b,
{
    if b > 0 {
        lemma_advance_add(n, a, (b - 1) as nat);
    }
}

/// Identifiers count up by one: as long as it does not run past the largest
/// `usize`, a counter standing at `n` stands at `n + k` after handing out `k`
/// identifiers, so that the `k`-th identifier of a fresh counter is `k`.
pub proof fn law_ids_count_up(n: usize, k: nat)
    requires
        n + k <= usize::MAX,
    ensures
        advance(n, k) == n + k,
    decreases k,
{
    if k > 0 {
        law_ids_count_up(n, (k - 1) as nat);
    }
}

/// No identifier is handed out twice: as long as the counter does not run
/// past the largest `usize`, an identifier handed out later is larger than
/// every one handed out before it.
pub proof fn law_ids_are_distinct(n: usize, i: nat, j: nat)
    requires
        i < j,
        n + j <= usize::MAX,
    ensures
        advance(n, i) < advance(n, j),
{
    law_ids_count_up(n, i);
    law_ids_count_up(n, j);
}

/// The first generator draws one fresh identifier for each `REPEAT` of a
/// `SEQ` or `CHOICE` in a node, and no other.
pub proof fn law_first_draws_one_id_per_repeated_group(node: Rule, next: usize)
    ensures
        emit1(node, next) matches Some((t, n, a)) ==> n == advance(next, repeated_groups(node)),
    decreases node, 0int,
{
    match node {
        Rule::Repeat(content) => {
            law_first_draws_one_id_per_repeated_group(*content, next);
        },
        Rule::Token(content) => {
            law_first_draws_one_id_per_repeated_group(*content, next);
        },
        Rule::ImmediateToken(content) => {
            law_first_draws_one_id_per_repeated_group(*content, next);
        },
        Rule::Prec(content) => {
            law_first_draws_one_id_per_repeated_group(*content, next);
        },
        Rule::Field { name, content } => {
            law_first_draws_one_id_per_repeated_group(*content, next);
        },
        Rule::Sequence(members) => {
            law_first_list_draws_one_id_per_repeated_group(
                members@,
                members@.len() as int,
                next,
            );
        },
        Rule::Choice(members) => {
            law_first_list_draws_one_id_per_repeated_group(
                members@,
                members@.len() as int,
                next,
            );
        },
        _ => {},
    }
}

/// The first generator draws one fresh identifier for each `REPEAT` of a
/// `SEQ` or `CHOICE` in a list of members, and no other.
pub proof fn law_first_list_draws_one_id_per_repeated_group(
    members: Seq<Rule>,
    n: int,
    next: usize,
)
    ensures
        emit1_list(members, n, next) matches Some((t, m, a)) ==> m == advance(
            next,
            repeated_groups_list(members, n),
        ),
    decreases members, n,
{
    if 0 < n <= members.len() {
        law_first_list_draws_one_id_per_repeated_group(members, n - 1, next);
        if let Some((t1, n1, a1)) = emit1_list(members, n - 1, next) {
            law_first_draws_one_id_per_repeated_group(members[n - 1], n1);
            lemma_advance_add(
                next,
                repeated_groups_list(members, n - 1),
                repeated_groups(members[n - 1]),
            );
        }
    }
}

/// True when no `REPEAT` or `REPEAT1` occurs in `node`.
pub open spec fn repeat_free(node: Rule) -> bool
    decreases node, 0int,
{
    match node {
        Rule::Repeat(content) => false,
        Rule::Repeat1 { content, raw } => false,
        Rule::Token(content) => repeat_free(*content),
        Rule::ImmediateToken(content) => repeat_free(*content),
        Rule::Prec(content) => repeat_free(*content),
        Rule::Field { name, content } => repeat_free(*content),
        Rule::Sequence(members) => repeat_free_list(members@, members@.len() as int),
        Rule::Choice(members) => repeat_free_list(members@, members@.len() as int),
        _ => true,
    }
}

/// True when no `REPEAT` or `REPEAT1` occurs in the first `n` of `members`.
pub open spec fn repeat_free_list(members: Seq<Rule>, n: int) -> bool
    decreases members, n,
{
    if n <= 0 || n > members.len() {
        true
    } else {
        repeat_free_list(members, n - 1) && repeat_free(members[n - 1])
    }
}

/// A node without repetitions has the same text under the first generator
/// wherever the counter stands; the generator draws no identifier for it and
/// writes no auxiliary definition.
pub proof fn law_first_repeat_free_is_stateless(node: Rule, n1: usize, n2: usize)
    requires
        repeat_free(node),
    ensures
        emit1(node, n1) is Some <==> emit1(node, n2) is Some,
        emit1(node, n1) matches Some((t1, m1, a1)) ==> {
            &&& m1 == n1
            &&& a1 == Seq::<char>::empty()
            &&& emit1(node, n2) matches Some((t2, m2, a2)) && t2 == t1
        },
    decreases node, 0int,
{
    match node {
        Rule::Token(content) => law_first_repeat_free_is_stateless(*content, n1, n2),
        Rule::ImmediateToken(content) => law_first_repeat_free_is_stateless(*content, n1, n2),
        Rule::Prec(content) => law_first_repeat_free_is_stateless(*content, n1, n2),
        Rule::Field { name, content } => law_first_repeat_free_is_stateless(*content, n1, n2),
        Rule::Sequence(members) => law_first_list_repeat_free_is_stateless(
            members@,
            members@.len() as int,
            n1,
            n2,
        ),
        Rule::Choice(members) => law_first_list_repeat_free_is_stateless(
            members@,
            members@.len() as int,
            n1,
            n2,
        ),
        _ => {},
    }
}

/// Members without repetitions have the same texts under the first
/// generator wherever the counter stands; the generator draws no identifier
/// for them and writes no auxiliary definition.
pub proof fn law_first_list_repeat_free_is_stateless(
    members: Seq<Rule>,
    n: int,
    n1: usize,
    n2: usize,
)
    requires
        repeat_free_list(members, n),
    ensures
        emit1_list(members, n, n1) is Some <==> emit1_list(members, n, n2) is Some,
        emit1_list(members, n, n1) matches Some((t1, m1, a1)) ==> {
            &&& m1 == n1
            &&& a1 == Seq::<char>::empty()
            &&& emit1_list(members, n, n2) matches Some((t2, m2, a2)) && t2 == t1
        },
    decreases members, n,
{
    if 0 < n <= members.len() {
        law_first_list_repeat_free_is_stateless(members, n - 1, n1, n2);
        law_first_list_repeat_free_is_stateless(members, n - 1, n2, n1);
        law_first_repeat_free_is_stateless(members[n - 1], n1, n2);
        law_first_repeat_free_is_stateless(members[n - 1], n2, n1);
        if let Some((t1, m1, a1)) = emit1_list(members, n - 1, n1) {
            assert(a1 + Seq::<char>::empty() =~= Seq::<char>::empty());
        }
    }
}

/// A node without repetitions has the same text under the second generator
/// wherever the counter stands; the generator draws no identifier for it and
/// writes no auxiliary definition.
pub proof fn law_second_repeat_free_is_stateless(node: Rule, n1: usize, n2: usize)
    requires
        repeat_free(node),
    ensures
        emit2(node, n1) is Some <==> emit2(node, n2) is Some,
        emit2(node, n1) matches Some((t1, m1, a1)) ==> {
            &&& m1 == n1
            &&& a1 == Seq::<char>::empty()
            &&& emit2(node, n2) matches Some((t2, m2, a2)) && t2 == t1
        },
    decreases node, 0int,
{
    match node {
        Rule::Token(content) => law_second_repeat_free_is_stateless(*content, n1, n2),
        Rule::ImmediateToken(content) => law_second_repeat_free_is_stateless(*content, n1, n2),
        Rule::Prec(content) => law_second_repeat_free_is_stateless(*content, n1, n2),
        Rule::Field { name, content } => law_second_repeat_free_is_stateless(*content, n1, n2),
        Rule::Sequence(members) => law_second_list_repeat_free_is_stateless(
            members@,
            members@.len() as int,
            n1,
            n2,
        ),
        Rule::Choice(members) => law_second_list_repeat_free_is_stateless(
            members@,
            members@.len() as int,
            n1,
            n2,
        ),
        _ => {},
    }
}

/// Members without repetitions have the same texts under the second
/// generator wherever the counter stands; the generator draws no identifier
/// for them and writes no auxiliary definition.
pub proof fn law_second_list_repeat_free_is_stateless(
    members: Seq<Rule>,
    n: int,
    n1: usize,
    n2: usize,
)
    requires
        repeat_free_list(members, n),
    ensures
        emit2_list(members, n, n1) is Some <==> emit2_list(members, n, n2) is Some,
        emit2_list(members, n, n1) matches Some((t1, m1, a1)) ==> {
            &&& m1 == n1
            &&& a1 == Seq::<char>::empty()
            &&& emit2_list(members, n, n2) matches Some((t2, m2, a2)) && t2 == t1
        },
    decreases members, n,
{
    if 0 < n <= members.len() {
        law_second_list_repeat_free_is_stateless(members, n - 1, n1, n2);
        law_second_list_repeat_free_is_stateless(members, n - 1, n2, n1);
        law_second_repeat_free_is_stateless(members[n - 1], n1, n2);
        law_second_repeat_free_is_stateless(members[n - 1], n2, n1);
        if let Some((t1, m1, a1)) = emit2_list(members, n - 1, n1) {
            assert(a1 + Seq::<char>::empty() =~= Seq::<char>::empty());
        }
    }
}

/// The branches that the second generator writes into the redefinition of a
/// rule of type `CHOICE` are pairwise different and none of them is empty.
pub proof fn law_choice_branches_distinct(members: Seq<Rule>, n: int, next: usize)
    ensures
        choice_lines2(members, n, next) matches Some((t, m, a, seen)) ==> {
            &&& seen.no_duplicates()
            &&& forall|i: int| 0 <= i < seen.len() ==> #[trigger] seen[i].len() > 0
        },
    decreases n,
{
    if 0 < n <= members.len() {
        law_choice_branches_distinct(members, n - 1, next);
    }
}

/// An auxiliary definition of `name` as `body`: a `redefine` where
/// `redefine` holds, else a `define`.
pub open spec fn definition_text(redefine: bool, name: Seq<char>, body: Seq<char>) -> Seq<char> {
    if redefine {
        aux_redefinition(name, body)
    } else {
        aux_definition(name, body)
    }
}

/// The auxiliary definitions of `entries`, in order, named `seq_N` by the
/// identifiers that a counter standing at `next` hands out one after another.
pub open spec fn numbered_definitions(next: usize, entries: Seq<(bool, Seq<char>)>) -> Seq<char>
    decreases entries.len(),
{
    if entries.len() == 0 {
        Seq::empty()
    } else {
        numbered_definitions(next, entries.drop_last()) + definition_text(
            entries.last().0,
            seq_name(advance(next, (entries.len() - 1) as nat)),
            entries.last().1,
        )
    }
}

/// True when `defs` is a run of exactly `k` auxiliary definitions, named by
/// the identifiers that a counter standing at `next` hands out one after
/// another.
pub open spec fn numbered_run(next: usize, k: nat, defs: Seq<char>) -> bool {
    exists|entries: Seq<(bool, Seq<char>)>|
        entries.len() == k && defs == #[trigger] numbered_definitions(next, entries)
}

/// Handing out no identifier writes no definition.
pub proof fn lemma_numbered_run_empty(next: usize)
    ensures
        numbered_run(next, 0, Seq::empty()),
{
    assert(numbered_definitions(next, Seq::empty()) == Seq::<char>::empty());
}

/// A run of no definition is empty.
pub proof fn lemma_numbered_run_zero(next: usize, defs: Seq<char>)
    requires
        numbered_run(next, 0, defs),
    ensures
        defs.len() == 0,
{
    let e = choose|entries: Seq<(bool, Seq<char>)>|
        entries.len() == 0 && defs == #[trigger] numbered_definitions(next, entries);
    assert(numbered_definitions(next, e) == Seq::<char>::empty());
}

/// Numbered definitions of two lists, the second numbered on from where
/// the first stops, are the numbered definitions of both lists.
pub proof fn lemma_numbered_definitions_concat(
    next: usize,
    e1: Seq<(bool, Seq<char>)>,
    e2: Seq<(bool, Seq<char>)>,
)
    ensures
        numbered_definitions(next, e1) + numbered_definitions(advance(next, e1.len()), e2)
            == numbered_definitions(next, e1 + e2),
    decreases e2.len(),
{
    if e2.len() == 0 {
        assert(e1 + e2 =~= e1);
        assert(numbered_definitions(next, e1) + Seq::<char>::empty() =~= numbered_definitions(
            next,
            e1,
        ));
    } else {
        lemma_numbered_definitions_concat(next, e1, e2.drop_last());
        assert((e1 + e2).drop_last() =~= e1 + e2.drop_last());
        lemma_advance_add(next, e1.len(), (e2.len() - 1) as nat);
        let left = numbered_definitions(next, e1);
        let mid = numbered_definitions(advance(next, e1.len()), e2.drop_last());
        let last = definition_text(
            e2.last().0,
            seq_name(advance(advance(next, e1.len()), (e2.len() - 1) as nat)),
            e2.last().1,
        );
        assert(left + (mid + last) =~= (left + mid) + last);
    }
}

/// A run of `k1` numbered definitions followed by a run of `k2` numbered on
/// from where the first stops is a run of `k1 + k2`.
pub proof fn lemma_numbered_run_compose(
    next: usize,
    k1: nat,
    a1: Seq<char>,
    k2: nat,
    a2: Seq<char>,
)
    requires
        numbered_run(next, k1, a1),
        numbered_run(advance(next, k1), k2, a2),
    ensures
        numbered_run(next, k1 + k2, a1 + a2),
{
    let e1 = choose|entries: Seq<(bool, Seq<char>)>|
        entries.len() == k1 && a1 == #[trigger] numbered_definitions(next, entries);
    let e2 = choose|entries: Seq<(bool, Seq<char>)>|
        entries.len() == k2 && a2 == #[trigger] numbered_definitions(advance(next, k1), entries);
    lemma_numbered_definitions_concat(next, e1, e2);
    assert((e1 + e2).len() == k1 + k2);
    assert(numbered_definitions(next, e1 + e2) == a1 + a2);
}

/// A run of `k` numbered definitions followed by a definition named by the
/// next identifier is a run of `k + 1`.
pub proof fn lemma_numbered_run_extend(
    next: usize,
    k: nat,
    a1: Seq<char>,
    redefine: bool,
    body: Seq<char>,
)
    requires
        numbered_run(next, k, a1),
    ensures
        numbered_run(
            next,
            k + 1,
            a1 + definition_text(redefine, seq_name(advance(next, k)), body),
        ),
{
    let e1 = choose|entries: Seq<(bool, Seq<char>)>|
        entries.len() == k && a1 == #[trigger] numbered_definitions(next, entries);
    let e = e1.push((redefine, body));
    assert(e.drop_last() =~= e1);
    assert(numbered_definitions(next, e) == a1 + definition_text(
        redefine,
        seq_name(advance(next, k)),
        body,
    ));
}

/// The first generator writes, for a node, one auxiliary definition for
/// each `REPEAT` of a `SEQ` or `CHOICE` in it, named `seq_N` by consecutive
/// identifiers from where the counter stood; none where there is no such
/// `REPEAT`.
pub proof fn law_first_definitions_are_numbered(node: Rule, next: usize)
    ensures
        emit1(node, next) matches Some((t, n, a)) ==> {
            &&& numbered_run(next, repeated_groups(node), a)
            &&& n == advance(next, repeated_groups(node))
            &&& repeated_groups(node) == 0 ==> a.len() == 0
        },
    decreases node, 0int,
{
    lemma_numbered_run_empty(next);
    law_first_draws_one_id_per_repeated_group(node, next);
    match node {
        Rule::Repeat(content) => {
            law_first_definitions_are_numbered(*content, next);
            law_first_draws_one_id_per_repeated_group(*content, next);
            if let Some((s, n1, a)) = emit1(*content, next) {
                lemma_numbered_run_extend(next, repeated_groups(*content), a, false, s);
            }
        },
        Rule::Token(content) => law_first_definitions_are_numbered(*content, next),
        Rule::ImmediateToken(content) => law_first_definitions_are_numbered(*content, next),
        Rule::Prec(content) => law_first_definitions_are_numbered(*content, next),
        Rule::Field { name, content } => law_first_definitions_are_numbered(*content, next),
        Rule::Sequence(members) => law_first_list_definitions_are_numbered(
            members@,
            members@.len() as int,
            next,
        ),
        Rule::Choice(members) => law_first_list_definitions_are_numbered(
            members@,
            members@.len() as int,
            next,
        ),
        _ => {},
    }
    if let Some((t, n, a)) = emit1(node, next) {
        if repeated_groups(node) == 0 {
            lemma_numbered_run_zero(next, a);
        }
    }
}

/// The first generator writes, for a list of members, one auxiliary
/// definition for each `REPEAT` of a `SEQ` or `CHOICE` in them, named by
/// consecutive identifiers.
pub proof fn law_first_list_definitions_are_numbered(members: Seq<Rule>, n: int, next: usize)
    ensures
        emit1_list(members, n, next) matches Some((t, m, a)) ==> {
            &&& numbered_run(next, repeated_groups_list(members, n), a)
            &&& m == advance(next, repeated_groups_list(members, n))
        },
    decreases members, n,
{
    lemma_numbered_run_empty(next);
    law_first_list_draws_one_id_per_repeated_group(members, n, next);
    if 0 < n <= members.len() {
        law_first_list_definitions_are_numbered(members, n - 1, next);
        if let Some((t1, n1, a1)) = emit1_list(members, n - 1, next) {
            law_first_definitions_are_numbered(members[n - 1], n1);
            if let Some((t2, n2, a2)) = emit1(members[n - 1], n1) {
                lemma_numbered_run_compose(
                    next,
                    repeated_groups_list(members, n - 1),
                    a1,
                    repeated_groups(members[n - 1]),
                    a2,
                );
            }
        }
    }
}

/// The auxiliary definitions written for the member lines of a top-level
/// `CHOICE` or `SEQ`: one for each `REPEAT` of a group in the members.
proof fn lemma_member_lines1_numbered(members: Seq<Rule>, n: int, bar: Seq<char>, next: usize)
    ensures
        member_lines1(members, n, bar, next) matches Some((t, m, a)) ==> {
            &&& numbered_run(next, repeated_groups_list(members, n), a)
            &&& m == advance(next, repeated_groups_list(members, n))
        },
    decreases n,
{
    lemma_numbered_run_empty(next);
    if 0 < n <= members.len() {
        lemma_member_lines1_numbered(members, n - 1, bar, next);
        if let Some((t1, n1, a1)) = member_lines1(members, n - 1, bar, next) {
            lemma_numbered_run_empty(n1);
            law_first_definitions_are_numbered(members[n - 1], n1);
            if let Some((t2, n2, a2)) = member_line1(members[n - 1], n - 1, bar, n1) {
                lemma_numbered_run_compose(
                    next,
                    repeated_groups_list(members, n - 1),
                    a1,
                    repeated_groups(members[n - 1]),
                    a2,
                );
                lemma_advance_add(
                    next,
                    repeated_groups_list(members, n - 1),
                    repeated_groups(members[n - 1]),
                );
            }
        }
    }
}

/// How many auxiliary definitions the first generator writes for a rule of
/// the grammar: those of the `REPEAT`s of a group inside it.  A rule of a
/// type that the first generator does not handle has none.
pub open spec fn rule_groups1(rule: Rule) -> nat {
    match rule {
        Rule::Repeat(content) => repeated_groups(*content),
        Rule::Choice(members) => repeated_groups_list(members@, members@.len() as int),
        Rule::Sequence(members) => repeated_groups_list(members@, members@.len() as int),
        Rule::Field { name, content } => repeated_groups(*content),
        Rule::Prec(content) => repeated_groups(*content),
        Rule::ImmediateToken(content) => repeated_groups(*content),
        _ => 0,
    }
}

/// How many auxiliary definitions the first generator writes for the first
/// `n` rules of a grammar.
pub open spec fn rules_groups1(rules: Seq<NamedRule>, n: int) -> nat
    decreases n,
{
    if n <= 0 || n > rules.len() {
        0
    } else {
        rules_groups1(rules, n - 1) + rule_groups1(rules[n - 1].rule)
    }
}

/// The auxiliary definitions written for one rule by the first generator.
proof fn lemma_rule_text1_numbered(k: Seq<char>, rule: Rule, next: usize)
    ensures
        rule_text1(k, rule, next) matches Some((t, m, a)) ==> {
            &&& numbered_run(next, rule_groups1(rule), a)
            &&& m == advance(next, rule_groups1(rule))
        },
{
    lemma_numbered_run_empty(next);
    match rule {
        Rule::Repeat(content) => law_first_definitions_are_numbered(*content, next),
        Rule::Choice(members) => lemma_member_lines1_numbered(
            members@,
            members@.len() as int,
            "| "@,
            next,
        ),
        Rule::Sequence(members) => lemma_member_lines1_numbered(
            members@,
            members@.len() as int,
            ""@,
            next,
        ),
        Rule::Field { name, content } => law_first_definitions_are_numbered(*content, next),
        Rule::Prec(content) => law_first_definitions_are_numbered(*content, next),
        Rule::ImmediateToken(content) => law_first_definitions_are_numbered(*content, next),
        _ => {},
    }
}

/// The auxiliary definitions written for the first `n` rules by the first
/// generator.
proof fn lemma_rules_text1_numbered(rules: Seq<NamedRule>, n: int, next: usize)
    ensures
        rules_text1(rules, n, next) matches Some((t, m, a)) ==> {
            &&& numbered_run(next, rules_groups1(rules, n), a)
            &&& m == advance(next, rules_groups1(rules, n))
        },
    decreases n,
{
    lemma_numbered_run_empty(next);
    if 0 < n <= rules.len() {
        lemma_rules_text1_numbered(rules, n - 1, next);
        if let Some((t1, n1, a1)) = rules_text1(rules, n - 1, next) {
            lemma_rule_text1_numbered(rules[n - 1].name@, rules[n - 1].rule, n1);
            if let Some((t2, n2, a2)) = rule_text1(rules[n - 1].name@, rules[n - 1].rule, n1) {
                lemma_numbered_run_compose(
                    next,
                    rules_groups1(rules, n - 1),
                    a1,
                    rule_groups1(rules[n - 1].rule),
                    a2,
                );
                lemma_advance_add(next, rules_groups1(rules, n - 1), rule_groups1(rules[n - 1].rule));
            }
        }
    }
}

/// The file of auxiliary definitions that the first generator makes of a
/// grammar holds exactly one definition for each `REPEAT` of a `SEQ` or
/// `CHOICE` inside the rules it handles, named `seq_N`, `seq_N+1`, ... by
/// consecutive identifiers from where the counter stood; the counter moves
/// on by their number, and the file is empty where there are none.
pub proof fn law_first_grammar_definitions_are_numbered(g: Grammar, next: usize)
    ensures
        grammar_text1(g, next) matches Some((main, defs, n)) ==> {
            &&& numbered_run(next, rules_groups1(g.rules@, g.rules@.len() as int), defs)
            &&& n == advance(next, rules_groups1(g.rules@, g.rules@.len() as int))
            &&& rules_groups1(g.rules@, g.rules@.len() as int) == 0 ==> defs.len() == 0
        },
{
    lemma_rules_text1_numbered(g.rules@, g.rules@.len() as int, next);
    if let Some((main, defs, n)) = grammar_text1(g, next) {
        if rules_groups1(g.rules@, g.rules@.len() as int) == 0 {
            lemma_numbered_run_zero(next, defs);
        }
    }
}

/// True when the second generator makes a text that is not empty of `node`.
pub open spec fn has_text2(node: Rule, next: usize) -> bool {
    emit2(node, next) matches Some((s, n, a)) && s.len() > 0
}

/// True when the second generator makes a text of `node` that holds a `|`.
pub open spec fn text_with_bar2(node: Rule, next: usize) -> bool {
    emit2(node, next) matches Some((s, n, a)) && s.len() > 0 && s.contains('|')
}

/// How many auxiliary definitions the second generator writes for `node`
/// when the counter stands at `next`: one for each `REPEAT` or `REPEAT1` of a
/// `SEQ` or `CHOICE` whose text is not empty.
pub open spec fn repeated_groups2(node: Rule, next: usize) -> nat
    decreases node, 1int,
{
    match node {
        Rule::Repeat(content) => repeat_groups2(*content, next),
        Rule::Repeat1 { content, raw } => repeat_groups2(*content, next),
        Rule::Token(content) => repeated_groups2(*content, next),
        Rule::ImmediateToken(content) => repeated_groups2(*content, next),
        Rule::Prec(content) => repeated_groups2(*content, next),
        Rule::Field { name, content } => repeated_groups2(*content, next),
        Rule::Sequence(members) => repeated_groups2_list(members@, members@.len() as int, next),
        Rule::Choice(members) => repeated_groups2_list(members@, members@.len() as int, next),
        _ => 0,
    }
}

/// How many auxiliary definitions the second generator writes for a
/// repetition of `content`.
pub open spec fn repeat_groups2(content: Rule, next: usize) -> nat
    decreases content, 2int,
{
    repeated_groups2(content, next) + if is_group(content) && has_text2(content, next) {
        1nat
    } else {
        0nat
    }
}

/// How many auxiliary definitions the second generator writes for the first
/// `n` of `members`, the counter standing at `next` before the first.
pub open spec fn repeated_groups2_list(members: Seq<Rule>, n: int, next: usize) -> nat
    decreases members, n,
{
    if n <= 0 || n > members.len() {
        0
    } else {
        repeated_groups2_list(members, n - 1, next) + match emit2_list(members, n - 1, next) {
            Some((parts, n1, a1)) => repeated_groups2(members[n - 1], n1),
            None => 0,
        }
    }
}

/// The second generator writes, for a node, one auxiliary definition for
/// each `REPEAT` or `REPEAT1` of a `SEQ` or `CHOICE` with a text in it, named
/// `seq_N` by consecutive identifiers from where the counter stood, and the
/// counter moves on by their number; none where there is no such node.
pub proof fn law_second_definitions_are_numbered(node: Rule, next: usize)
    ensures
        emit2(node, next) matches Some((t, n, a)) ==> {
            &&& numbered_run(next, repeated_groups2(node, next), a)
            &&& n == advance(next, repeated_groups2(node, next))
            &&& repeated_groups2(node, next) == 0 ==> a.len() == 0
        },
    decreases node, 1int,
{
    lemma_numbered_run_empty(next);
    match node {
        Rule::Repeat(content) => lemma_repeat_text2_numbered(*content, next),
        Rule::Repeat1 { content, raw } => lemma_repeat_text2_numbered(*content, next),
        Rule::Token(content) => law_second_definitions_are_numbered(*content, next),
        Rule::ImmediateToken(content) => law_second_definitions_are_numbered(*content, next),
        Rule::Prec(content) => law_second_definitions_are_numbered(*content, next),
        Rule::Field { name, content } => law_second_definitions_are_numbered(*content, next),
        Rule::Sequence(members) => law_second_list_definitions_are_numbered(
            members@,
            members@.len() as int,
            next,
        ),
        Rule::Choice(members) => law_second_list_definitions_are_numbered(
            members@,
            members@.len() as int,
            next,
        ),
        _ => {},
    }
    if let Some((t, n, a)) = emit2(node, next) {
        if repeated_groups2(node, next) == 0 {
            lemma_numbered_run_zero(next, a);
        }
    }
}

/// The auxiliary definitions written for a repetition by the second
/// generator.
proof fn lemma_repeat_text2_numbered(content: Rule, next: usize)
    ensures
        repeat_text2(content, next) matches Some((t, n, a)) ==> {
            &&& numbered_run(next, repeat_groups2(content, next), a)
            &&& n == advance(next, repeat_groups2(content, next))
        },
    decreases content, 2int,
{
    law_second_definitions_are_numbered(content, next);
    if let Some((s, n1, a)) = emit2(content, next) {
        lemma_numbered_run_extend(next, repeated_groups2(content, next), a, false, s);
    }
}

/// The second generator writes, for a list of members, one auxiliary
/// definition for each `REPEAT` or `REPEAT1` of a group with a text in them.
pub proof fn law_second_list_definitions_are_numbered(members: Seq<Rule>, n: int, next: usize)
    ensures
        emit2_list(members, n, next) matches Some((t, m, a)) ==> {
            &&& numbered_run(next, repeated_groups2_list(members, n, next), a)
            &&& m == advance(next, repeated_groups2_list(members, n, next))
        },
    decreases members, n,
{
    lemma_numbered_run_empty(next);
    if 0 < n <= members.len() {
        law_second_list_definitions_are_numbered(members, n - 1, next);
        if let Some((t1, n1, a1)) = emit2_list(members, n - 1, next) {
            law_second_definitions_are_numbered(members[n - 1], n1);
            if let Some((t2, n2, a2)) = emit2(members[n - 1], n1) {
                lemma_numbered_run_compose(
                    next,
                    repeated_groups2_list(members, n - 1, next),
                    a1,
                    repeated_groups2(members[n - 1], n1),
                    a2,
                );
                lemma_advance_add(
                    next,
                    repeated_groups2_list(members, n - 1, next),
                    repeated_groups2(members[n - 1], n1),
                );
            }
        }
    }
}

/// How many auxiliary definitions the second generator writes for the lines
/// of the first `n` members of a top-level `CHOICE`.
pub open spec fn choice_groups2(members: Seq<Rule>, n: int, next: usize) -> nat
    decreases n,
{
    if n <= 0 || n > members.len() {
        0
    } else {
        choice_groups2(members, n - 1, next) + match choice_lines2(members, n - 1, next) {
            Some((t1, n1, a1, seen)) => repeated_groups2(members[n - 1], n1),
            None => 0,
        }
    }
}

/// The auxiliary definitions written for the lines of a top-level `CHOICE`
/// by the second generator.
proof fn lemma_choice_lines2_numbered(members: Seq<Rule>, n: int, next: usize)
    ensures
        choice_lines2(members, n, next) matches Some((t, m, a, seen)) ==> {
            &&& numbered_run(next, choice_groups2(members, n, next), a)
            &&& m == advance(next, choice_groups2(members, n, next))
        },
    decreases n,
{
    lemma_numbered_run_empty(next);
    if 0 < n <= members.len() {
        lemma_choice_lines2_numbered(members, n - 1, next);
        if let Some((t1, n1, a1, seen)) = choice_lines2(members, n - 1, next) {
            law_second_definitions_are_numbered(members[n - 1], n1);
            if let Some((g, n2, a2)) = emit2(members[n - 1], n1) {
                lemma_numbered_run_compose(
                    next,
                    choice_groups2(members, n - 1, next),
                    a1,
                    repeated_groups2(members[n - 1], n1),
                    a2,
                );
                lemma_advance_add(
                    next,
                    choice_groups2(members, n - 1, next),
                    repeated_groups2(members[n - 1], n1),
                );
            }
        }
    }
}

/// How many auxiliary definitions the second generator writes for the rule
/// `k` of the grammar when the counter stands at `next`: those inside it,
/// and one more for a top-level `REPEAT` or `REPEAT1` whose content's text
/// holds a `|`.
pub open spec fn rule_groups2(k: Seq<char>, rule: Rule, next: usize) -> nat {
    if starts_with_underscore(k) {
        0
    } else {
        match rule {
            Rule::Repeat(content) => top_repeat_groups2(*content, next),
            Rule::Repeat1 { content, raw } => top_repeat_groups2(*content, next),
            Rule::Choice(members) => choice_groups2(members@, members@.len() as int, next),
            Rule::Sequence(members) => repeated_groups2_list(members@, members@.len() as int, next),
            Rule::Field { name, content } => repeated_groups2(*content, next),
            Rule::Prec(content) => repeated_groups2(*content, next),
            Rule::ImmediateToken(content) => repeated_groups2(*content, next),
            Rule::Token(content) => repeated_groups2(*content, next),
            _ => 0,
        }
    }
}

/// How many auxiliary definitions the second generator writes for a rule
/// that is a repetition of `content`.
pub open spec fn top_repeat_groups2(content: Rule, next: usize) -> nat {
    repeated_groups2(content, next) + if text_with_bar2(content, next) {
        1nat
    } else {
        0nat
    }
}

/// How many auxiliary definitions the second generator writes for the first
/// `n` rules of a grammar.
pub open spec fn rules_groups2(rules: Seq<NamedRule>, n: int, next: usize) -> nat
    decreases n,
{
    if n <= 0 || n > rules.len() {
        0
    } else {
        rules_groups2(rules, n - 1, next) + match rules_text2(rules, n - 1, next) {
            Some((t1, n1, a1)) => rule_groups2(rules[n - 1].name@, rules[n - 1].rule, n1),
            None => 0,
        }
    }
}

/// The auxiliary definitions written for one rule by the second generator.
proof fn lemma_rule_text2_numbered(k: Seq<char>, rule: Rule, next: usize)
    ensures
        rule_text2(k, rule, next) matches Some((t, m, a)) ==> {
            &&& numbered_run(next, rule_groups2(k, rule, next), a)
            &&& m == advance(next, rule_groups2(k, rule, next))
        },
{
    lemma_numbered_run_empty(next);
    if !starts_with_underscore(k) {
        match rule {
            Rule::Repeat(content) => {
                law_second_definitions_are_numbered(*content, next);
                if let Some((s, n1, a)) = emit2(*content, next) {
                    lemma_numbered_run_extend(next, repeated_groups2(*content, next), a, true, s);
                }
            },
            Rule::Repeat1 { content, raw } => {
                law_second_definitions_are_numbered(*content, next);
                if let Some((s, n1, a)) = emit2(*content, next) {
                    lemma_numbered_run_extend(next, repeated_groups2(*content, next), a, true, s);
                }
            },
            Rule::Choice(members) => lemma_choice_lines2_numbered(
                members@,
                members@.len() as int,
                next,
            ),
            Rule::Sequence(members) => law_second_list_definitions_are_numbered(
                members@,
                members@.len() as int,
                next,
            ),
            Rule::Field { name, content } => law_second_definitions_are_numbered(*content, next),
            Rule::Prec(content) => law_second_definitions_are_numbered(*content, next),
            Rule::ImmediateToken(content) => law_second_definitions_are_numbered(*content, next),
            Rule::Token(content) => law_second_definitions_are_numbered(*content, next),
            _ => {},
        }
    }
}

/// The auxiliary definitions written for the first `n` rules by the second
/// generator.
proof fn lemma_rules_text2_numbered(rules: Seq<NamedRule>, n: int, next: usize)
    ensures
        rules_text2(rules, n, next) matches Some((t, m, a)) ==> {
            &&& numbered_run(next, rules_groups2(rules, n, next), a)
            &&& m == advance(next, rules_groups2(rules, n, next))
        },
    decreases n,
{
    lemma_numbered_run_empty(next);
    if 0 < n <= rules.len() {
        lemma_rules_text2_numbered(rules, n - 1, next);
        if let Some((t1, n1, a1)) = rules_text2(rules, n - 1, next) {
            lemma_rule_text2_numbered(rules[n - 1].name@, rules[n - 1].rule, n1);
            if let Some((t2, n2, a2)) = rule_text2(rules[n - 1].name@, rules[n - 1].rule, n1) {
                lemma_numbered_run_compose(
                    next,
                    rules_groups2(rules, n - 1, next),
                    a1,
                    rule_groups2(rules[n - 1].name@, rules[n - 1].rule, n1),
                    a2,
                );
                lemma_advance_add(
                    next,
                    rules_groups2(rules, n - 1, next),
                    rule_groups2(rules[n - 1].name@, rules[n - 1].rule, n1),
                );
            }
        }
    }
}

/// The file of auxiliary definitions that the second generator makes of a
/// grammar holds exactly one definition for each `REPEAT` or `REPEAT1` of a
/// group with a text inside its rules (and for each rule that repeats a
/// text with a `|`), named `seq_N`, `seq_N+1`, ... by consecutive
/// identifiers from where the counter stood; the counter moves on by their
/// number, and the file is empty where there are none.
pub proof fn law_second_grammar_definitions_are_numbered(g: Grammar, next: usize)
    ensures
        grammar_text2(g, next) matches Some((main, defs, n)) ==> {
            &&& numbered_run(next, rules_groups2(g.rules@, g.rules@.len() as int, next), defs)
            &&& n == advance(next, rules_groups2(g.rules@, g.rules@.len() as int, next))
            &&& rules_groups2(g.rules@, g.rules@.len() as int, next) == 0 ==> defs.len() == 0
        },
{
    lemma_rules_text2_numbered(g.rules@, g.rules@.len() as int, next);
    if let Some((main, defs, n)) = grammar_text2(g, next) {
        if rules_groups2(g.rules@, g.rules@.len() as int, next) == 0 {
            lemma_numbered_run_zero(next, defs);
        }
    }
}

/// True when the first generator reads a rule of this type beyond its
/// `type`: `REPEAT`, `CHOICE`, `SEQ`, `FIELD`, `PREC` (and its left and right
/// forms), `STRING` or `IMMEDIATE_TOKEN`; and a rule whose `type` it cannot
/// read at all.
pub open spec fn handled_by_first(rule: Rule) -> bool {
    rule is Repeat || rule is Choice || rule is Sequence || rule is NoMembers || rule is Field
        || rule is Prec || rule is StringLit || rule is ImmediateToken || rule is Untyped
}

/// Taking out a rule of a type that the first generator does not handle
/// leaves the definitions of the other rules as they were.
proof fn lemma_rules_text1_without(rules: Seq<NamedRule>, k: int, n: int, next: usize)
    requires
        0 <= k < rules.len(),
        !handled_by_first(rules[k].rule),
        0 <= n <= rules.len(),
    ensures
        n <= k ==> rules_text1(rules.remove(k), n, next) == rules_text1(rules, n, next),
        n > k ==> rules_text1(rules.remove(k), n - 1, next) == rules_text1(rules, n, next),
    decreases n,
{
    let less = rules.remove(k);
    if n > 0 {
        lemma_rules_text1_without(rules, k, n - 1, next);
        if n <= k {
            assert(less[n - 1] == rules[n - 1]);
        } else if n == k + 1 {
            if let Some((t1, n1, a1)) = rules_text1(rules, k, next) {
                assert(t1 + Seq::<char>::empty() =~= t1);
                assert(a1 + Seq::<char>::empty() =~= a1);
            }
        } else {
            assert(less[n - 2] == rules[n - 1]);
        }
    }
}

/// A rule of a type that the first generator does not handle (a `SYMBOL`,
/// `TOKEN`, `REPEAT1`, `ALIAS`, `PATTERN`, `BLANK` or any other) adds nothing
/// to its files and draws no identifier: the grammar without that rule gives
/// the same main text, the same auxiliary definitions and the same counter.
pub proof fn law_first_skips_unhandled_rules(g: Grammar, less: Grammar, k: int, next: usize)
    requires
        0 <= k < g.rules@.len(),
        !handled_by_first(g.rules@[k].rule),
        less.rules@ == g.rules@.remove(k),
        less.name@ == g.name@,
        less.start_rule is Some <==> g.start_rule is Some,
        g.start_rule is Some ==> less.start_rule.unwrap()@ == g.start_rule.unwrap()@,
    ensures
        grammar_text1(less, next) == grammar_text1(g, next),
{
    lemma_rules_text1_without(g.rules@, k, g.rules@.len() as int, next);
}

/// True when `parts[i]` is a text that is not empty and that no earlier
/// entry of `parts` holds.
pub open spec fn first_occurrence(parts: Seq<Seq<char>>, i: int) -> bool {
    &&& parts[i].len() > 0
    &&& forall|l: int| 0 <= l < i ==> parts[l] != parts[i]
}

/// The line that the second generator writes for the member `m`, at
/// position `i` of a top-level `CHOICE`, whose text is `g`.
pub open spec fn choice_line2(m: Rule, i: int, g: Seq<char>) -> Seq<char> {
    "    "@ + (if i > 0 && !(m is Alias) && !(m is Pattern) {
        "| "@
    } else {
        "  "@
    }) + (if !(m is Alias) {
        g + "\n"@
    } else {
        Seq::empty()
    })
}

/// The lines of a top-level `CHOICE` of `members` whose texts are `parts`:
/// one line for each first occurrence of a text that is not empty, in order.
pub open spec fn choice_lines_of(members: Seq<Rule>, parts: Seq<Seq<char>>, n: int) -> Seq<char>
    decreases n,
{
    if n <= 0 {
        Seq::empty()
    } else {
        choice_lines_of(members, parts, n - 1) + if first_occurrence(parts, n - 1) {
            choice_line2(members[n - 1], n - 1, parts[n - 1])
        } else {
            Seq::empty()
        }
    }
}

/// True when every text of `parts` is empty.
pub open spec fn all_empty(parts: Seq<Seq<char>>) -> bool {
    forall|i: int| 0 <= i < parts.len() ==> #[trigger] parts[i].len() == 0
}

/// A sequence with `v` pushed holds `x` where it held `x` before or `x` is `v`.
proof fn lemma_push_contains(s: Seq<Seq<char>>, v: Seq<char>, x: Seq<char>)
    ensures
        s.push(v).contains(x) <==> (s.contains(x) || x == v),
{
    if s.push(v).contains(x) {
        let i = choose|i: int| 0 <= i < s.push(v).len() && s.push(v)[i] == x;
        if i < s.len() {
            assert(s[i] == x);
        }
    }
    if s.contains(x) {
        let i = choose|i: int| 0 <= i < s.len() && s[i] == x;
        assert(s.push(v)[i] == x);
    }
    if x == v {
        assert(s.push(v)[s.len() as int] == x);
    }
}

/// The lines depend only on the texts before position `j`.
proof fn lemma_choice_lines_of_prefix(members: Seq<Rule>, p: Seq<Seq<char>>, q: Seq<Seq<char>>, j: int)
    requires
        0 <= j <= p.len(),
        j <= q.len(),
        forall|i: int| 0 <= i < j ==> p[i] == q[i],
    ensures
        choice_lines_of(members, p, j) == choice_lines_of(members, q, j),
    decreases j,
{
    if j > 0 {
        lemma_choice_lines_of_prefix(members, p, q, j - 1);
        assert(first_occurrence(p, j - 1) == first_occurrence(q, j - 1));
    }
}

/// The lines of a top-level `CHOICE`, as the second generator writes them
/// member by member, are the closed form over the members' texts, and the
/// branches seen are the texts that are not empty.
proof fn lemma_choice_lines2_closed(members: Seq<Rule>, n: int, next: usize)
    requires
        0 <= n <= members.len(),
    ensures
        choice_lines2(members, n, next) is Some <==> emit2_list(members, n, next) is Some,
        choice_lines2(members, n, next) matches Some((t, m, a, seen)) ==> {
            &&& emit2_list(members, n, next) matches Some((parts, m2, a2))
            &&& parts.len() == n
            &&& m == m2
            &&& a == a2
            &&& t == choice_lines_of(members, parts, n)
            &&& forall|x: Seq<char>| #[trigger] seen.contains(x) <==> (x.len() > 0 && exists|l: int|
                0 <= l < n && parts[l] == x)
        },
    decreases n,
{
    if n > 0 {
        lemma_choice_lines2_closed(members, n - 1, next);
        if let Some((t1, n1, a1, seen)) = choice_lines2(members, n - 1, next) {
            let (parts, m2, a2) = emit2_list(members, n - 1, next).unwrap();
            if let Some((g, n2, a3)) = emit2(members[n - 1], n1) {
                let all = parts.push(g);
                lemma_choice_lines_of_prefix(members, parts, all, n - 1);
                assert(all[n - 1] == g);
                assert(first_occurrence(all, n - 1) <==> (g.len() > 0 && !seen.contains(g))) by {
                    if g.len() > 0 && !seen.contains(g) {
                        assert forall|l: int| 0 <= l < n - 1 implies #[trigger] all[l] != all[n - 1] by {
                            assert(all[l] == parts[l]);
                        }
                    }
                    if first_occurrence(all, n - 1) && seen.contains(g) {
                        let l = choose|l: int| 0 <= l < n - 1 && parts[l] == g;
                        assert(all[l] == parts[l]);
                    }
                }
                let (t, m, a, seen2) = choice_lines2(members, n, next).unwrap();
                assert forall|x: Seq<char>| #[trigger] seen2.contains(x) <==> (x.len() > 0 && exists|l: int|
                    0 <= l < n && all[l] == x) by {
                    lemma_push_contains(seen, g, x);
                    if seen2.contains(x) {
                        if seen.contains(x) {
                            let l = choose|l: int| 0 <= l < n - 1 && parts[l] == x;
                            assert(all[l] == x);
                        } else {
                            assert(x == g);
                            assert(all[n - 1] == x);
                        }
                    }
                    if x.len() > 0 && exists|l: int| 0 <= l < n && all[l] == x {
                        let l = choose|l: int| 0 <= l < n && all[l] == x;
                        if l < n - 1 {
                            assert(parts[l] == x);
                            assert(seen.contains(x));
                        } else {
                            assert(x == g);
                        }
                    }
                }
            }
        }
    }
}

/// No text is seen where every text is empty, and some is where one is not.
proof fn lemma_seen_empty(seen: Seq<Seq<char>>, parts: Seq<Seq<char>>)
    requires
        forall|x: Seq<char>| #[trigger] seen.contains(x) <==> (x.len() > 0 && exists|l: int|
            0 <= l < parts.len() && parts[l] == x),
    ensures
        seen.len() == 0 <==> all_empty(parts),
{
    if seen.len() > 0 {
        assert(seen.contains(seen[0]));
    }
    if !all_empty(parts) {
        let i = choose|i: int| 0 <= i < parts.len() && !(#[trigger] parts[i].len() == 0);
        assert(seen.contains(parts[i]));
    }
}

/// The redefinition that the second generator writes for a rule `k` of type
/// `CHOICE`, in closed form over the texts `parts` of its members (each made
/// with the counter where the members before it left it): a line for each
/// member whose text is not empty and not the text of an earlier member,
/// written `| ` behind the first unless the member is an `ALIAS` or a
/// `PATTERN`, and the placeholder where every text is empty.
pub proof fn law_second_choice_rule_closed_form(k: Seq<char>, members: Seq<Rule>, next: usize)
    ensures
        choice_rule_text2(k, members, next) == match emit2_list(members, members.len() as int, next) {
            Some((parts, n, a)) => Some(
                (
                    "\nredefine "@ + defined_name(k) + "\n"@ + choice_lines_of(
                        members,
                        parts,
                        members.len() as int,
                    ) + (if all_empty(parts) {
                        placeholder(k)
                    } else {
                        Seq::empty()
                    }) + "end define\n"@,
                    n,
                    a,
                ),
            ),
            None => None,
        },
{
    lemma_choice_lines2_closed(members, members.len() as int, next);
    if let Some((t, m, a, seen)) = choice_lines2(members, members.len() as int, next) {
        let (parts, m2, a2) = emit2_list(members, members.len() as int, next).unwrap();
        lemma_seen_empty(seen, parts);
    }
}

/// The redefinition that the second generator writes for a rule `k` that is
/// not hidden and is a `REPEAT` or `REPEAT1` of `content`, in closed form over
/// the text `s` of the content and the counter `n` after it: where `s` holds
/// a `|`, a repetition of a fresh `seq_n`, redefined as `s` in the file of
/// auxiliary definitions, with the counter at `n + 1`; else, where `s` is not
/// empty, the repetition of `s` without its first and last character; else
/// the placeholder.
pub proof fn law_second_repeat_rule_closed_form(k: Seq<char>, rule: Rule, content: Rule, next: usize)
    requires
        !starts_with_underscore(k),
        (rule matches Rule::Repeat(c) && *c == content) || (rule matches Rule::Repeat1 {
            content: c,
            raw,
        } && *c == content),
    ensures
        emit2(content, next) matches Some((s, n, a)) ==> {
            &&& s.contains('|') && n < usize::MAX ==> rule_text2(k, rule, next) == Some(
                (
                    "\nredefine "@ + k + "\n"@ + "    "@ + "["@ + seq_name(n) + "*]\n"@
                        + "end define\n"@,
                    (n + 1) as usize,
                    a + aux_redefinition(seq_name(n), s),
                ),
            )
            &&& s.len() > 0 && !s.contains('|') && can_strip_ends(s) ==> rule_text2(k, rule, next)
                == Some(
                (
                    "\nredefine "@ + k + "\n"@ + "    "@ + "["@ + strip_ends(s) + "*]\n"@
                        + "end define\n"@,
                    n,
                    a,
                ),
            )
            &&& s.len() == 0 ==> rule_text2(k, rule, next) == Some(
                ("\nredefine "@ + k + "\n"@ + "    "@ + placeholder(k) + "end define\n"@, n, a),
            )
        },
{
    if let Some((s, n, a)) = emit2(content, next) {
        if s.contains('|') {
            let i = choose|i: int| 0 <= i < s.len() && s[i] == '|';
            assert(s.len() > 0);
        }
    }
}

/// Taking out a hidden rule leaves the redefinitions that the second
/// generator writes for the other rules as they were.
proof fn lemma_rules_text2_without(rules: Seq<NamedRule>, k: int, n: int, next: usize)
    requires
        0 <= k < rules.len(),
        starts_with_underscore(rules[k].name@),
        0 <= n <= rules.len(),
    ensures
        n <= k ==> rules_text2(rules.remove(k), n, next) == rules_text2(rules, n, next),
        n > k ==> rules_text2(rules.remove(k), n - 1, next) == rules_text2(rules, n, next),
    decreases n,
{
    let less = rules.remove(k);
    if n > 0 {
        lemma_rules_text2_without(rules, k, n - 1, next);
        if n <= k {
            assert(less[n - 1] == rules[n - 1]);
        } else if n == k + 1 {
            if let Some((t1, n1, a1)) = rules_text2(rules, k, next) {
                assert(t1 + Seq::<char>::empty() =~= t1);
                assert(a1 + Seq::<char>::empty() =~= a1);
            }
        } else {
            assert(less[n - 2] == rules[n - 1]);
        }
    }
}

/// Taking out a hidden rule leaves the alternatives of `Tree` as they were.
proof fn lemma_tree_alternatives_without(rules: Seq<NamedRule>, k: int, n: int)
    requires
        0 <= k < rules.len(),
        starts_with_underscore(rules[k].name@),
        0 <= n <= rules.len(),
    ensures
        n <= k ==> tree_alternatives(rules.remove(k), n) == tree_alternatives(rules, n),
        n > k ==> tree_alternatives(rules.remove(k), n - 1) == tree_alternatives(rules, n),
    decreases n,
{
    let less = rules.remove(k);
    if n > 0 {
        lemma_tree_alternatives_without(rules, k, n - 1);
        if n <= k {
            assert(less[n - 1] == rules[n - 1]);
        } else if n == k + 1 {
            assert(tree_alternatives(rules, k) + Seq::<char>::empty() =~= tree_alternatives(rules, k));
        } else {
            assert(less[n - 2] == rules[n - 1]);
        }
    }
}

/// A hidden rule (one whose name begins with an underscore) adds nothing to
/// the second generator's files and draws no identifier: the grammar
/// without that rule gives the same main text, the same auxiliary
/// definitions and the same counter.
pub proof fn law_second_skips_hidden_rules(g: Grammar, less: Grammar, k: int, next: usize)
    requires
        0 <= k < g.rules@.len(),
        starts_with_underscore(g.rules@[k].name@),
        less.rules@ == g.rules@.remove(k),
        less.name@ == g.name@,
        less.extras == g.extras,
        less.externals == g.externals,
    ensures
        grammar_text2(less, next) == grammar_text2(g, next),
{
    lemma_rules_text2_without(g.rules@, k, g.rules@.len() as int, next);
    lemma_tree_alternatives_without(g.rules@, k, g.rules@.len() as int);
}

} // verus!
