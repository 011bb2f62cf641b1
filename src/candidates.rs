//! Enumerating subcommand and flag names as completion candidates.
use crate::model::{command_valid, help_or_empty, help_text, named, SpecCommand, SpecFlag};
use crate::text::{char_to_string, is_prefix, starts_with};
use itertools::Itertools;
use vstd::prelude::*;
use vstd::seq_lib::*;

verus! {

/// A candidate word and its description, as character sequences.
pub type Choice = (Seq<char>, Seq<char>);

/// Lexicographic order on characters by code point, as `String`'s `Ord` orders.
pub open spec fn seq_le(a: Seq<char>, b: Seq<char>) -> bool
    decreases a.len(),
{
    if a.len() == 0 {
        true
    } else if b.len() == 0 {
        false
    } else if a[0] != b[0] {
        (a[0] as u32) < (b[0] as u32)
    } else {
        seq_le(a.drop_first(), b.drop_first())
    }
}

/// The order of `(String, String)`: by the first string, then by the second.
pub open spec fn choice_le(p: Choice, q: Choice) -> bool {
    if p.0 == q.0 {
        seq_le(p.1, q.1)
    } else {
        seq_le(p.0, q.0)
    }
}

pub open spec fn is_sorted(s: Seq<Choice>) -> bool {
    forall|i: int, j: int| 0 <= i < j < s.len() ==> choice_le(s[i], s[j])
}

/// The text of each pair of strings.
pub open spec fn choice_views(v: Seq<(String, String)>) -> Seq<Choice> {
    v.map_values(|p: (String, String)| (p.0@, p.1@))
}

/// Sorted, without repeats, and holding exactly the choices `offered` admits.
pub open spec fn lists_exactly(r: Seq<(String, String)>, offered: spec_fn(Choice) -> bool) -> bool {
    &&& choice_views(r).no_duplicates()
    &&& is_sorted(choice_views(r))
    &&& forall|x: Choice| choice_views(r).contains(x) <==> offered(x)
}

/// Relies on `Itertools::sorted`, which sorts with `Vec::sort`: the same items, ascending
/// under `Ord` for `(String, String)`.
#[verifier::external_body]
pub(crate) fn sort_pairs(v: Vec<(String, String)>) -> (r: Vec<(String, String)>)
    ensures
        choice_views(r@).to_multiset() == choice_views(v@).to_multiset(),
        is_sorted(choice_views(r@)),
{
    v.into_iter().sorted().collect()
}

/// Relies on `Itertools::unique`: each distinct item once, repeats dropped.
#[verifier::external_body]
fn unique_pairs(v: Vec<(String, String)>) -> (r: Vec<(String, String)>)
    ensures
        choice_views(r@).no_duplicates(),
        forall|x: Choice| choice_views(r@).contains(x) <==> choice_views(v@).contains(x),
{
    v.into_iter().unique().collect()
}

proof fn lemma_permutation_keeps_distinct(a: Seq<Choice>, b: Seq<Choice>)
    requires
        a.to_multiset() == b.to_multiset(),
        a.no_duplicates(),
    ensures
        b.no_duplicates(),
        forall|x: Choice| b.contains(x) <==> a.contains(x),
{
    broadcast use group_to_multiset_ensures;

    a.lemma_multiset_has_no_duplicates();
    b.lemma_multiset_has_no_duplicates_conv();
    assert forall|x: Choice| b.contains(x) <==> a.contains(x) by {
        to_multiset_contains(a, x);
        to_multiset_contains(b, x);
    }
}

proof fn lemma_push_views(v: Seq<(String, String)>, p: (String, String))
    ensures
        choice_views(v.push(p)) == choice_views(v).push((p.0@, p.1@)),
        forall|x: Choice|
            choice_views(v.push(p)).contains(x) <==> (choice_views(v).contains(x) || x == (
            p.0@,
            p.1@,
        )),
{
    let s = choice_views(v);
    assert(choice_views(v.push(p)) =~= s.push((p.0@, p.1@)));
    assert forall|x: Choice| s.push((p.0@, p.1@)).contains(x) <==> (s.contains(x) || x == (
        p.0@,
        p.1@,
    )) by {
        if s.contains(x) {
            let i = choose|i: int| 0 <= i < s.len() && s[i] == x;
            assert(s.push((p.0@, p.1@))[i] == x);
        }
        if x == (p.0@, p.1@) {
            assert(s.push((p.0@, p.1@))[s.len() as int] == x);
        }
        if s.push((p.0@, p.1@)).contains(x) {
            let i = choose|i: int| 0 <= i < s.len() + 1 && s.push((p.0@, p.1@))[i] == x;
            if i < s.len() {
                assert(s[i] == x);
            }
        }
    }
}

/// Drops repeated pairs and sorts the rest.
pub fn sorted_unique(v: Vec<(String, String)>) -> (r: Vec<(String, String)>)
    ensures
        choice_views(r@).no_duplicates(),
        is_sorted(choice_views(r@)),
        forall|x: Choice| choice_views(r@).contains(x) <==> choice_views(v@).contains(x),
{
    let u = unique_pairs(v);
    let r = sort_pairs(u);
    proof {
        lemma_permutation_keeps_distinct(choice_views(u@), choice_views(r@));
    }
    r
}

/// `x` is offered for subcommand `sub`: its name or an alias, with its help.
pub open spec fn offered_by(sub: SpecCommand, token: Seq<char>, x: Choice) -> bool {
    &&& !sub.hide
    &&& x.1 == help_text(sub.help)
    &&& is_prefix(token, x.0)
    &&& (x.0 == sub.name@ || exists|j: int|
        0 <= j < sub.aliases@.len() && x.0 == #[trigger] sub.aliases@[j]@)
}

pub open spec fn subcommand_offers(cmd: SpecCommand, token: Seq<char>, x: Choice) -> bool {
    exists|i: int|
        0 <= i < cmd.subcommands@.len() && offered_by(#[trigger] cmd.subcommands@[i], token, x)
}

pub open spec fn adds_names(
    before: Seq<(String, String)>,
    after: Seq<(String, String)>,
    sub: SpecCommand,
    token: Seq<char>,
) -> bool {
    forall|x: Choice|
        #[trigger] choice_views(after).contains(x) <==> (choice_views(before).contains(x)
            || offered_by(sub, token, x))
}

/// Collects the names and aliases of `sub` that start with `token`, each with its help.
fn push_subcommand_names(out: &mut Vec<(String, String)>, sub: &SpecCommand, token: &str)
    requires
        !sub.hide,
    ensures
        adds_names(old(out)@, final(out)@, *sub, token@),
{
    let help = help_or_empty(&sub.help);
    if starts_with(sub.name.as_str(), token) {
        let pair = (sub.name.clone(), help.clone());
        proof {
            lemma_push_views(out@, pair);
        }
        out.push(pair);
    }
    let ghost base = choice_views(out@);
    let mut j: usize = 0;
    while j < sub.aliases.len()
        invariant
            j <= sub.aliases@.len(),
            help@ == help_text(sub.help),
            !sub.hide,
            forall|x: Choice|
                choice_views(out@).contains(x) <==> (choice_views(old(out)@).contains(x) || (
                x.1 == help@ && is_prefix(token@, x.0) && (x.0 == sub.name@ || exists|k: int|
                    0 <= k < j && x.0 == #[trigger] sub.aliases@[k]@))),
        decreases sub.aliases@.len() - j,
    {
        let alias = &sub.aliases[j];
        let ghost prev = out@;
        let hit = starts_with(alias.as_str(), token);
        if hit {
            let pair = (alias.clone(), help.clone());
            proof {
                lemma_push_views(out@, pair);
            }
            out.push(pair);
        }
        assert forall|x: Choice|
            choice_views(out@).contains(x) <==> (choice_views(old(out)@).contains(x) || (
            x.1 == help@ && is_prefix(token@, x.0) && (x.0 == sub.name@ || exists|k: int|
                0 <= k < j + 1 && x.0 == #[trigger] sub.aliases@[k]@))) by {
            assert(choice_views(out@).contains(x) <==> (choice_views(prev).contains(x) || (hit
                && x == (alias@, help@))));
            if hit && x == (alias@, help@) {
                assert(x.0 == sub.aliases@[j as int]@);
            }
            if exists|k: int| 0 <= k < j + 1 && x.0 == #[trigger] sub.aliases@[k]@ {
                let k = choose|k: int| 0 <= k < j + 1 && x.0 == #[trigger] sub.aliases@[k]@;
                if k < j {
                    assert(exists|k: int| 0 <= k < j && x.0 == #[trigger] sub.aliases@[k]@);
                } else if x.1 == help@ && is_prefix(token@, x.0) {
                    assert(x == (alias@, help@));
                }
            }
        }
        j = j + 1;
    }
}

/// The visible subcommands' names and aliases that start with `token`, each with its
/// subcommand's help text, sorted and without repeats.
pub fn complete_subcommands(cmd: &SpecCommand, token: &str) -> (r: Vec<(String, String)>)
    ensures
        lists_exactly(r@, |x: Choice| subcommand_offers(*cmd, token@, x)),
{
    let mut out: Vec<(String, String)> = Vec::new();
    let mut i: usize = 0;
    while i < cmd.subcommands.len()
        invariant
            i <= cmd.subcommands@.len(),
            forall|x: Choice|
                choice_views(out@).contains(x) <==> exists|k: int|
                    0 <= k < i && offered_by(#[trigger] cmd.subcommands@[k], token@, x),
        decreases cmd.subcommands@.len() - i,
    {
        let sub = &cmd.subcommands[i];
        let ghost prev = out@;
        if !sub.hide {
            push_subcommand_names(&mut out, sub, token);
            assert(adds_names(prev, out@, *sub, token@));
        }
        assert(*sub == cmd.subcommands@[i as int]);
        assert forall|x: Choice|
            choice_views(out@).contains(x) <==> (choice_views(prev).contains(x) || offered_by(
                cmd.subcommands@[i as int],
                token@,
                x,
            )) by {
            if sub.hide {
                assert(out@ == prev);
                assert(!offered_by(*sub, token@, x));
            } else {
                assert(choice_views(out@).contains(x) <==> (choice_views(prev).contains(x)
                    || offered_by(*sub, token@, x)));
            }
        }
        assert forall|x: Choice|
            choice_views(out@).contains(x) <==> exists|k: int|
                0 <= k < i + 1 && offered_by(#[trigger] cmd.subcommands@[k], token@, x) by {
            if exists|k: int| 0 <= k < i + 1 && offered_by(#[trigger] cmd.subcommands@[k], token@, x) {
                let k = choose|k: int| 0 <= k < i + 1 && offered_by(#[trigger] cmd.subcommands@[k], token@, x);
                if k < i {
                    assert(exists|k: int| 0 <= k < i && offered_by(#[trigger] cmd.subcommands@[k], token@, x));
                }
            }
            if choice_views(out@).contains(x) && !choice_views(prev).contains(x) {
                assert(offered_by(cmd.subcommands@[i as int], token@, x));
            }
        }
        i = i + 1;
    }
    sorted_unique(out)
}

/// The part of a long-flag token after its leading `--`, if it has one.
pub open spec fn long_query(token: Seq<char>) -> Seq<char> {
    if is_prefix(seq!['-', '-'], token) {
        token.skip(2)
    } else {
        token
    }
}

/// `x` is offered for flag `f` as a long flag name matching `query`.
pub open spec fn long_offered(f: SpecFlag, query: Seq<char>, x: Choice) -> bool {
    &&& !f.hide
    &&& f.long is Some
    &&& is_prefix(query, f.long->Some_0@)
    &&& x == (seq!['-', '-'] + f.long->Some_0@, Seq::<char>::empty())
}

pub open spec fn long_flag_offers(flags: Seq<SpecFlag>, token: Seq<char>, x: Choice) -> bool {
    exists|i: int| 0 <= i < flags.len() && long_offered(#[trigger] flags[i], long_query(token), x)
}

/// Whether a short flag `c` matches `token`: any does where the token has no second
/// character, else only that character.
pub open spec fn short_matches(token: Seq<char>, c: char) -> bool {
    token.len() < 2 || token[1] == c
}

/// `x` is offered for flag `f` as a short flag name matching `token`.
pub open spec fn short_offered(f: SpecFlag, token: Seq<char>, x: Choice) -> bool {
    &&& !f.hide
    &&& f.short is Some
    &&& short_matches(token, f.short->Some_0)
    &&& x == (seq!['-', f.short->Some_0], Seq::<char>::empty())
}

pub open spec fn short_flag_offers(flags: Seq<SpecFlag>, token: Seq<char>, x: Choice) -> bool {
    exists|i: int| 0 <= i < flags.len() && short_offered(#[trigger] flags[i], token, x)
}

/// The visible flags' long names that start with `token` (less a leading `--`), each
/// written with `--` and an empty description, sorted and without repeats.
pub fn complete_long_flag_names(flags: &Vec<SpecFlag>, token: &str) -> (r: Vec<(String, String)>)
    ensures
        lists_exactly(r@, |x: Choice| long_flag_offers(flags@, token@, x)),
{
    proof {
        reveal_strlit("--");
    }
    assert("--"@ =~= seq!['-', '-']);
    let query: &str = if starts_with(token, "--") {
        let q = token.substring_char(2, token.unicode_len());
        assert(q@ =~= token@.skip(2));
        q
    } else {
        token
    };
    let mut out: Vec<(String, String)> = Vec::new();
    let mut i: usize = 0;
    while i < flags.len()
        invariant
            i <= flags@.len(),
            query@ == long_query(token@),
            "--"@ == seq!['-', '-'],
            forall|x: Choice|
                #[trigger] choice_views(out@).contains(x) <==> exists|k: int|
                    0 <= k < i && long_offered(#[trigger] flags@[k], query@, x),
        decreases flags@.len() - i,
    {
        let f = &flags[i];
        let ghost prev = out@;
        let ghost hit = false;
        if !f.hide {
            if let Some(l) = &f.long {
                if starts_with(l.as_str(), query) {
                    let mut w = String::from_str("--");
                    w.append(l.as_str());
                    let pair = (w, String::new());
                    proof {
                        lemma_push_views(out@, pair);
                        hit = true;
                    }
                    out.push(pair);
                }
            }
        }
        assert forall|x: Choice|
            #[trigger] choice_views(out@).contains(x) <==> exists|k: int|
                0 <= k < i + 1 && long_offered(#[trigger] flags@[k], query@, x) by {
            assert(choice_views(out@).contains(x) <==> (choice_views(prev).contains(x) || (hit
                && long_offered(flags@[i as int], query@, x))));
            if exists|k: int| 0 <= k < i + 1 && long_offered(#[trigger] flags@[k], query@, x) {
                let k = choose|k: int| 0 <= k < i + 1 && long_offered(#[trigger] flags@[k], query@, x);
                if k < i {
                    assert(exists|k: int| 0 <= k < i && long_offered(#[trigger] flags@[k], query@, x));
                }
            }
        }
        i = i + 1;
    }
    sorted_unique(out)
}

/// The visible flags' short names, written with `-` and an empty description, sorted and
/// without repeats. Where `token` has a second character, only the flag named by it.
pub fn complete_short_flag_names(flags: &Vec<SpecFlag>, token: &str) -> (r: Vec<(String, String)>)
    ensures
        lists_exactly(r@, |x: Choice| short_flag_offers(flags@, token@, x)),
{
    let cur: Option<char> = if token.unicode_len() > 1 {
        Some(token.get_char(1))
    } else {
        None
    };
    proof {
        reveal_strlit("-");
    }
    let mut out: Vec<(String, String)> = Vec::new();
    let mut i: usize = 0;
    while i < flags.len()
        invariant
            i <= flags@.len(),
            "-"@ == seq!['-'],
            cur is None <==> token@.len() < 2,
            cur is Some ==> cur->Some_0 == token@[1],
            forall|x: Choice|
                #[trigger] choice_views(out@).contains(x) <==> exists|k: int|
                    0 <= k < i && short_offered(#[trigger] flags@[k], token@, x),
        decreases flags@.len() - i,
    {
        let f = &flags[i];
        let ghost prev = out@;
        let ghost hit = false;
        if !f.hide {
            if let Some(c) = f.short {
                let wanted = match cur {
                    None => true,
                    Some(t) => t == c,
                };
                if wanted {
                    let mut w = String::from_str("-");
                    let cs = char_to_string(c);
                    w.append(cs.as_str());
                    assert(w@ =~= seq!['-', c]);
                    let pair = (w, String::new());
                    assert(short_offered(flags@[i as int], token@, (pair.0@, pair.1@)));
                    proof {
                        lemma_push_views(out@, pair);
                        hit = true;
                    }
                    out.push(pair);
                }
            }
        }
        assert forall|x: Choice|
            #[trigger] choice_views(out@).contains(x) <==> exists|k: int|
                0 <= k < i + 1 && short_offered(#[trigger] flags@[k], token@, x) by {
            if !hit {
                assert(out@ == prev);
                assert(!short_offered(flags@[i as int], token@, x));
            }
            assert(choice_views(out@).contains(x) <==> (choice_views(prev).contains(x) || (hit
                && short_offered(flags@[i as int], token@, x))));
            if exists|k: int| 0 <= k < i + 1 && short_offered(#[trigger] flags@[k], token@, x) {
                let k = choose|k: int| 0 <= k < i + 1 && short_offered(#[trigger] flags@[k], token@, x);
                if k < i {
                    assert(exists|k: int| 0 <= k < i && short_offered(#[trigger] flags@[k], token@, x));
                }
            }
        }
        i = i + 1;
    }
    sorted_unique(out)
}

proof fn lemma_seq_le_antisymmetric(a: Seq<char>, b: Seq<char>)
    requires
        seq_le(a, b),
        seq_le(b, a),
    ensures
        a == b,
    decreases a.len(),
{
    if a.len() > 0 && b.len() > 0 && a[0] == b[0] {
        lemma_seq_le_antisymmetric(a.drop_first(), b.drop_first());
        assert(a =~= seq![a[0]] + a.drop_first());
        assert(b =~= seq![b[0]] + b.drop_first());
    } else if a.len() == 0 && b.len() == 0 {
        assert(a =~= b);
    }
}

proof fn lemma_choice_le_antisymmetric(p: Choice, q: Choice)
    requires
        choice_le(p, q),
        choice_le(q, p),
    ensures
        p == q,
{
    if p.0 == q.0 {
        lemma_seq_le_antisymmetric(p.1, q.1);
    } else {
        lemma_seq_le_antisymmetric(p.0, q.0);
    }
}

/// Two sorted lists without repeats that hold the same choices are the same list.
pub proof fn lemma_sorted_distinct_unique(a: Seq<Choice>, b: Seq<Choice>)
    requires
        is_sorted(a),
        is_sorted(b),
        a.no_duplicates(),
        b.no_duplicates(),
        forall|x: Choice| a.contains(x) <==> b.contains(x),
    ensures
        a == b,
    decreases a.len(),
{
    if a.len() == 0 {
        if b.len() > 0 {
            assert(b.contains(b[0]));
        }
        assert(a =~= b);
    } else if b.len() == 0 {
        assert(a.contains(a[0]));
    } else {
        assert(a.contains(a[0]));
        let j = choose|j: int| 0 <= j < b.len() && b[j] == a[0];
        assert(b.contains(b[0]));
        let k = choose|k: int| 0 <= k < a.len() && a[k] == b[0];
        if j != 0 && k != 0 {
            lemma_choice_le_antisymmetric(a[0], b[0]);
        }
        assert(a[0] == b[0]);
        let a1 = a.drop_first();
        let b1 = b.drop_first();
        assert forall|x: Choice| a1.contains(x) <==> b1.contains(x) by {
            if a1.contains(x) {
                let i = choose|i: int| 0 <= i < a1.len() && a1[i] == x;
                assert(a[i + 1] == x);
                assert(x != a[0]);
                assert(b.contains(x));
                let m = choose|m: int| 0 <= m < b.len() && b[m] == x;
                assert(m != 0);
                assert(b1[m - 1] == x);
            }
            if b1.contains(x) {
                let i = choose|i: int| 0 <= i < b1.len() && b1[i] == x;
                assert(b[i + 1] == x);
                assert(x != b[0]);
                assert(a.contains(x));
                let m = choose|m: int| 0 <= m < a.len() && a[m] == x;
                assert(m != 0);
                assert(a1[m - 1] == x);
            }
        }
        lemma_sorted_distinct_unique(a1, b1);
        assert(a =~= seq![a[0]] + a1);
        assert(b =~= seq![b[0]] + b1);
    }
}

/// Short-flag completion does not depend on the order the flags are declared in: flag
/// lists holding the same flags give the same candidates.
pub proof fn lemma_short_flags_order_free(
    flags1: Seq<SpecFlag>,
    flags2: Seq<SpecFlag>,
    token: Seq<char>,
    r1: Seq<(String, String)>,
    r2: Seq<(String, String)>,
)
    requires
        forall|f: SpecFlag| flags1.contains(f) <==> flags2.contains(f),
        lists_exactly(r1, |x: Choice| short_flag_offers(flags1, token, x)),
        lists_exactly(r2, |x: Choice| short_flag_offers(flags2, token, x)),
    ensures
        choice_views(r1) == choice_views(r2),
{
    assert forall|x: Choice| short_flag_offers(flags1, token, x) <==> short_flag_offers(flags2, token, x) by {
        if short_flag_offers(flags1, token, x) {
            let i = choose|i: int| 0 <= i < flags1.len() && short_offered(#[trigger] flags1[i], token, x);
            assert(flags1.contains(flags1[i]));
            let j = choose|j: int| 0 <= j < flags2.len() && flags2[j] == flags1[i];
            assert(short_offered(flags2[j], token, x));
        }
        if short_flag_offers(flags2, token, x) {
            let i = choose|i: int| 0 <= i < flags2.len() && short_offered(#[trigger] flags2[i], token, x);
            assert(flags2.contains(flags2[i]));
            let j = choose|j: int| 0 <= j < flags1.len() && flags1[j] == flags2[i];
            assert(short_offered(flags1[j], token, x));
        }
    }
    lemma_sorted_distinct_unique(choice_views(r1), choice_views(r2));
}

/// In a valid command, whose sibling names and aliases are unique, subcommand completion offers each name
/// once.
pub proof fn lemma_subcommand_names_distinct(cmd: SpecCommand, token: Seq<char>, r: Seq<(String, String)>)
    requires
        command_valid(cmd),
        lists_exactly(r, |x: Choice| subcommand_offers(cmd, token, x)),
    ensures
        forall|i: int, j: int|
            0 <= i < r.len() && 0 <= j < r.len() && i != j ==> #[trigger] r[i].0@ != #[trigger] r[j].0@,
{
    let v = choice_views(r);
    assert forall|i: int, j: int|
        0 <= i < r.len() && 0 <= j < r.len() && i != j implies #[trigger] r[i].0@ != #[trigger] r[j].0@ by {
        assert(v.contains(v[i]));
        assert(v.contains(v[j]));
        assert(subcommand_offers(cmd, token, v[i]));
        assert(subcommand_offers(cmd, token, v[j]));
        let a = choose|a: int|
            0 <= a < cmd.subcommands@.len() && offered_by(#[trigger] cmd.subcommands@[a], token, v[i]);
        let b = choose|b: int|
            0 <= b < cmd.subcommands@.len() && offered_by(#[trigger] cmd.subcommands@[b], token, v[j]);
        if r[i].0@ == r[j].0@ {
            assert(named(cmd.subcommands@[a], v[i].0));
            assert(named(cmd.subcommands@[b], v[i].0));
            assert(a == b);
            assert(v[i] == v[j]);
        }
    }
}

} // verus!
