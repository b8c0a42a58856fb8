//! Deterministic find/replace on a transcript.
//!
//! A phrase is matched without regard to ASCII case and only as a whole: the
//! characters next to it must not be letters or digits. At each position the longest
//! matching phrase wins, whatever the order of the rules; among equally long ones the
//! first listed. What a rule put in is not scanned again.
use super::settings::{Replacement, ReplacementView};
use crate::text;
use vstd::prelude::*;

verus! {

/// The character before position `i` is a letter or a digit.
pub open spec fn word_before(s: Seq<char>, i: int) -> bool {
    0 < i <= s.len() && text::alphanumeric(s[i - 1])
}

/// The character at position `i` is a letter or a digit.
pub open spec fn word_at(s: Seq<char>, i: int) -> bool {
    0 <= i < s.len() && text::alphanumeric(s[i])
}

/// The phrase of a rule stands in `s` at position `i` as a whole.
pub open spec fn matches_at(s: Seq<char>, i: int, from: Seq<char>) -> bool {
    &&& !text::blank(from)
    &&& 0 <= i
    &&& i + from.len() <= s.len()
    &&& text::eq_ignore_case(s.subrange(i, i + from.len()), from)
    &&& !word_before(s, i)
    &&& !word_at(s, i + from.len())
}

/// Rule `k` applies at position `i`: it matches, no rule listed before it matches with
/// a phrase as long, and no rule at all matches with a longer one.
pub open spec fn applies(s: Seq<char>, i: int, rules: Seq<ReplacementView>, k: int) -> bool {
    &&& 0 <= k < rules.len()
    &&& matches_at(s, i, rules[k].from)
    &&& forall|j: int|
        0 <= j < rules.len() && #[trigger] matches_at(s, i, rules[j].from) ==> {
            &&& rules[j].from.len() <= rules[k].from.len()
            &&& j < k ==> rules[j].from.len() < rules[k].from.len()
        }
}

/// The best of the first `n` rules at position `i`.
pub open spec fn best_rule(s: Seq<char>, i: int, rules: Seq<ReplacementView>, n: int) -> Option<
    int,
>
    decreases n,
{
    if n <= 0 || n > rules.len() {
        None
    } else {
        let before = best_rule(s, i, rules, n - 1);
        if !matches_at(s, i, rules[n - 1].from) {
            before
        } else {
            match before {
                Some(k) => if rules[n - 1].from.len() > rules[k].from.len() {
                    Some(n - 1)
                } else {
                    Some(k)
                },
                None => Some(n - 1),
            }
        }
    }
}

/// What becomes of `s` from position `i` on.
pub open spec fn replaced_from(s: Seq<char>, i: int, rules: Seq<ReplacementView>) -> Seq<char>
    decreases s.len() - i,
{
    if i < 0 || i >= s.len() {
        Seq::empty()
    } else {
        match best_rule(s, i, rules, rules.len() as int) {
            Some(k) => if 0 < rules[k].from.len() <= s.len() - i {
                rules[k].to + replaced_from(s, i + rules[k].from.len(), rules)
            } else {
                Seq::empty()
            },
            None => seq![s[i]] + replaced_from(s, i + 1, rules),
        }
    }
}

/// The whole of `s` with the rules applied.
pub open spec fn replaced(s: Seq<char>, rules: Seq<ReplacementView>) -> Seq<char> {
    replaced_from(s, 0, rules)
}

/// The best of the first `n` rules is the one that applies among them.
pub proof fn lemma_best_rule(s: Seq<char>, i: int, rules: Seq<ReplacementView>, n: int)
    requires
        0 <= n <= rules.len(),
    ensures
        match best_rule(s, i, rules, n) {
            Some(k) => 0 <= k < n && applies(s, i, rules.take(n), k) && rules[k].from.len() > 0,
            None => forall|j: int| 0 <= j < n ==> !matches_at(s, i, #[trigger] rules[j].from),
        },
    decreases n,
{
    if n > 0 {
        lemma_best_rule(s, i, rules, n - 1);
        let t = rules.take(n);
        let p = rules.take(n - 1);
        if matches_at(s, i, rules[n - 1].from) {
            text::lemma_blank(rules[n - 1].from);
        }
        match best_rule(s, i, rules, n) {
            Some(k) => {
                assert forall|j: int|
                    0 <= j < t.len() && #[trigger] matches_at(s, i, t[j].from) implies {
                    &&& t[j].from.len() <= t[k].from.len()
                    &&& j < k ==> t[j].from.len() < t[k].from.len()
                } by {
                    if j < n - 1 {
                        assert(t[j] == rules[j]);
                        assert(p[j] == rules[j]);
                        assert(matches_at(s, i, p[j].from));
                    }
                }
                assert(matches_at(s, i, t[k].from)) by {
                    if k < n - 1 {
                        assert(p[k] == rules[k]);
                    }
                }
            },
            None => {},
        }
    }
}

/// Which rule applies, if one does, is settled.
pub proof fn lemma_applies_unique(
    s: Seq<char>,
    i: int,
    rules: Seq<ReplacementView>,
    a: int,
    b: int,
)
    requires
        applies(s, i, rules, a),
        applies(s, i, rules, b),
    ensures
        a == b,
{
    assert(matches_at(s, i, rules[a].from) && matches_at(s, i, rules[b].from));
}

/// Whether the phrase stands in `s` at position `i` as a whole.
fn is_match(s: &[char], i: usize, from: &[char]) -> (r: bool)
    requires
        i <= s@.len(),
    ensures
        r == matches_at(s@, i as int, from@),
{
    if text::trim_chars(from).len() == 0 || from.len() > s.len() - i {
        return false;
    }
    let n: usize = from.len();
    let total: usize = s.len();
    let ghost piece = s@.subrange(i as int, i + n);
    let mut k: usize = 0;
    while k < n
        invariant
            k <= n == from@.len(),
            i + n <= total == s@.len(),
            piece == s@.subrange(i as int, i + n),
            forall|j: int|
                0 <= j < k ==> text::ascii_lower_char(#[trigger] piece[j]) == text::ascii_lower_char(
                    from@[j],
                ),
        decreases n - k,
    {
        assert(piece[k as int] == s@[i + k]);
        if text::to_ascii_lower_char(s[i + k]) != text::to_ascii_lower_char(from[k]) {
            assert(text::ascii_lower(piece)[k as int] != text::ascii_lower(from@)[k as int]);
            return false;
        }
        k = k + 1;
    }
    assert(text::ascii_lower(piece) =~= text::ascii_lower(from@));
    if i > 0 && s[i - 1].is_alphanumeric() {
        return false;
    }
    if i + n < s.len() && s[i + n].is_alphanumeric() {
        return false;
    }
    true
}

/// The rule that applies at position `i`, if one does.
fn choose_rule(s: &[char], i: usize, rules: &[Replacement]) -> (r: Option<usize>)
    requires
        i <= s@.len(),
    ensures
        match r {
            Some(k) => k < rules@.len() && best_rule(
                s@,
                i as int,
                super::settings::rules_view(rules@),
                rules@.len() as int,
            ) == Some(k as int),
            None => best_rule(
                s@,
                i as int,
                super::settings::rules_view(rules@),
                rules@.len() as int,
            ) is None,
        },
{
    let ghost all = super::settings::rules_view(rules@);
    let mut best: Option<usize> = None;
    let mut n: usize = 0;
    while n < rules.len()
        invariant
            n <= rules@.len(),
            i <= s@.len(),
            all == super::settings::rules_view(rules@),
            match best {
                Some(k) => k < n && best_rule(s@, i as int, all, n as int) == Some(k as int),
                None => best_rule(s@, i as int, all, n as int) is None,
            },
        decreases rules@.len() - n,
    {
        let from = text::chars_of(rules[n].from.as_str());
        assert(all[n as int].from == from@);
        if is_match(s, i, from.as_slice()) {
            match best {
                Some(k) => {
                    assert(all[k as int].from == rules@[k as int].from@);
                    if from.len() > rules[k].from.as_str().unicode_len() {
                        best = Some(n);
                    }
                },
                None => {
                    best = Some(n);
                },
            }
        }
        n = n + 1;
    }
    best
}

/// Applies `rules` to `text` in one pass from left to right.
pub fn apply_replacements(text: &str, rules: &[Replacement]) -> (r: String)
    ensures
        r@ == replaced(text@, super::settings::rules_view(rules@)),
{
    let s = text::chars_of(text);
    let ghost all = super::settings::rules_view(rules@);
    let mut out = String::new();
    let mut i: usize = 0;
    while i < s.len()
        invariant
            i <= s@.len(),
            s@ == text@,
            all == super::settings::rules_view(rules@),
            replaced(text@, all) == out@ + replaced_from(text@, i as int, all),
        decreases s@.len() - i,
    {
        let ghost before = out@;
        match choose_rule(s.as_slice(), i, rules) {
            Some(k) => {
                proof {
                    lemma_best_rule(s@, i as int, all, all.len() as int);
                    assert(all.take(all.len() as int) =~= all);
                    assert(all[k as int].from == rules@[k as int].from@);
                }
                out.append(rules[k].to.as_str());
                let len: usize = rules[k].from.as_str().unicode_len();
                assert(out@ + replaced_from(text@, i + len, all) =~= before + (all[k as int].to
                    + replaced_from(text@, i + len, all)));
                i = i + len;
            },
            None => {
                out.push(s[i]);
                assert(out@ + replaced_from(text@, i + 1, all) =~= before + (seq![s@[i as int]]
                    + replaced_from(text@, i + 1, all)));
                i = i + 1;
            },
        }
    }
    assert(out@ + replaced_from(text@, i as int, all) =~= out@);
    out
}

// ---------------------------------------------------------------- laws

/// At every position the rule that is applied has the longest phrase of all that match
/// there, and is the first listed among those as long; and where no rule is applied none
/// matches.
pub proof fn longest_match_wins(s: Seq<char>, i: int, rules: Seq<ReplacementView>)
    ensures
        match best_rule(s, i, rules, rules.len() as int) {
            Some(k) => applies(s, i, rules, k),
            None => forall|j: int|
                0 <= j < rules.len() ==> !matches_at(s, i, #[trigger] rules[j].from),
        },
{
    lemma_best_rule(s, i, rules, rules.len() as int);
    assert(rules.take(rules.len() as int) =~= rules);
}

/// A text in which no phrase stands as a whole is left as it is.
pub proof fn text_without_matches_is_unchanged(s: Seq<char>, rules: Seq<ReplacementView>)
    requires
        forall|i: int, j: int|
            0 <= i < s.len() && 0 <= j < rules.len() ==> !#[trigger] matches_at(
                s,
                i,
                rules[j].from,
            ),
    ensures
        replaced(s, rules) == s,
{
    lemma_unchanged_from(s, 0, rules);
    assert(s.skip(0) =~= s);
}

proof fn lemma_unchanged_from(s: Seq<char>, i: int, rules: Seq<ReplacementView>)
    requires
        0 <= i <= s.len(),
        forall|k: int, j: int|
            0 <= k < s.len() && 0 <= j < rules.len() ==> !#[trigger] matches_at(
                s,
                k,
                rules[j].from,
            ),
    ensures
        replaced_from(s, i, rules) == s.skip(i),
    decreases s.len() - i,
{
    if i < s.len() {
        longest_match_wins(s, i, rules);
        lemma_unchanged_from(s, i + 1, rules);
        assert(seq![s[i]] + s.skip(i + 1) =~= s.skip(i));
    } else {
        assert(s.skip(i) =~= Seq::empty());
    }
}

/// With no rules the text is left as it is.
pub proof fn no_rules_change_nothing(s: Seq<char>)
    ensures
        replaced(s, Seq::empty()) == s,
{
    text_without_matches_is_unchanged(s, Seq::empty());
}

/// Inside a word, that is where the characters on both sides of a position are letters
/// or digits, no phrase begins.
pub proof fn nothing_begins_inside_a_word(s: Seq<char>, i: int, from: Seq<char>)
    requires
        word_before(s, i),
    ensures
        !matches_at(s, i, from),
{
}

/// Rules whose phrase is blank have no effect: such a rule can be left out.
pub proof fn blank_rules_have_no_effect(
    s: Seq<char>,
    rules: Seq<ReplacementView>,
    blank: ReplacementView,
)
    requires
        text::blank(blank.from),
    ensures
        replaced(s, rules.push(blank)) == replaced(s, rules),
{
    lemma_blank_rule_from(s, 0, rules, blank);
}

proof fn lemma_best_rule_prefix(
    s: Seq<char>,
    i: int,
    rules: Seq<ReplacementView>,
    more: Seq<ReplacementView>,
    n: int,
)
    requires
        0 <= n <= rules.len(),
        n <= more.len(),
        forall|k: int| 0 <= k < n ==> #[trigger] rules[k] == more[k],
    ensures
        best_rule(s, i, rules, n) == best_rule(s, i, more, n),
    decreases n,
{
    if n > 0 {
        lemma_best_rule_prefix(s, i, rules, more, n - 1);
        lemma_best_rule(s, i, rules, n - 1);
        assert(rules[n - 1] == more[n - 1]);
        if best_rule(s, i, rules, n - 1) is Some {
            let k = best_rule(s, i, rules, n - 1)->0;
            assert(rules[k] == more[k]);
        }
    }
}

proof fn lemma_blank_rule_from(
    s: Seq<char>,
    i: int,
    rules: Seq<ReplacementView>,
    blank: ReplacementView,
)
    requires
        text::blank(blank.from),
        0 <= i,
    ensures
        replaced_from(s, i, rules.push(blank)) == replaced_from(s, i, rules),
    decreases s.len() - i,
{
    let more = rules.push(blank);
    if i < s.len() {
        let n = rules.len() as int;
        lemma_best_rule_prefix(s, i, rules, more, n);
        lemma_best_rule(s, i, rules, n);
        assert(more[n] == blank);
        assert(best_rule(s, i, more, n + 1) == best_rule(s, i, rules, n));
        match best_rule(s, i, rules, n) {
            Some(k) => {
                assert(more[k] == rules[k]);
                lemma_blank_rule_from(s, i + rules[k].from.len(), rules, blank);
            },
            None => {
                lemma_blank_rule_from(s, i + 1, rules, blank);
            },
        }
    }
}

/// Each rule of `a` is in `b`.
pub open spec fn all_in(a: Seq<ReplacementView>, b: Seq<ReplacementView>) -> bool {
    forall|i: int| 0 <= i < a.len() ==> b.contains(#[trigger] a[i])
}

/// No two rules that differ in their replacement have the same phrase, other than a blank
/// one.
pub open spec fn consistent(rules: Seq<ReplacementView>) -> bool {
    forall|i: int, j: int|
        0 <= i < rules.len() && 0 <= j < rules.len() && !text::blank(rules[i].from)
            && text::eq_ignore_case((#[trigger] rules[i]).from, (#[trigger] rules[j]).from)
            ==> rules[i].to == rules[j].to
}

/// The order of the rules does not matter, as long as no two of them compete for the
/// same phrase.
pub proof fn rule_order_does_not_matter(
    s: Seq<char>,
    a: Seq<ReplacementView>,
    b: Seq<ReplacementView>,
)
    requires
        all_in(a, b),
        all_in(b, a),
        consistent(a),
    ensures
        replaced(s, a) == replaced(s, b),
{
    lemma_rule_order_from(s, 0, a, b);
}

proof fn lemma_rule_order_from(
    s: Seq<char>,
    i: int,
    a: Seq<ReplacementView>,
    b: Seq<ReplacementView>,
)
    requires
        all_in(a, b),
        all_in(b, a),
        consistent(a),
        0 <= i,
    ensures
        replaced_from(s, i, a) == replaced_from(s, i, b),
    decreases s.len() - i,
{
    if i < s.len() {
        longest_match_wins(s, i, a);
        longest_match_wins(s, i, b);
        lemma_best_rule(s, i, a, a.len() as int);
        lemma_best_rule(s, i, b, b.len() as int);
        match (best_rule(s, i, a, a.len() as int), best_rule(s, i, b, b.len() as int)) {
            (Some(p), Some(q)) => {
                let in_b = choose|k: int| 0 <= k < b.len() && b[k] == a[p];
                assert(b.contains(a[p]));
                assert(matches_at(s, i, b[in_b].from));
                let in_a = choose|k: int| 0 <= k < a.len() && a[k] == b[q];
                assert(a.contains(b[q]));
                assert(matches_at(s, i, a[in_a].from));
                assert(a[p].from.len() == b[q].from.len());
                assert(text::eq_ignore_case(a[p].from, a[in_a].from));
                assert(a[p].to == a[in_a].to);
                lemma_rule_order_from(s, i + a[p].from.len(), a, b);
            },
            (Some(p), None) => {
                assert(b.contains(a[p]));
                let k = choose|k: int| 0 <= k < b.len() && b[k] == a[p];
                assert(matches_at(s, i, b[k].from));
            },
            (None, Some(q)) => {
                assert(a.contains(b[q]));
                let k = choose|k: int| 0 <= k < a.len() && a[k] == b[q];
                assert(matches_at(s, i, a[k].from));
            },
            (None, None) => {
                lemma_rule_order_from(s, i + 1, a, b);
            },
        }
    }
}

/// A rule's output is not scanned again: where a rule applies, its text stands in the
/// result as it is, followed by what becomes of the rest of the input.
pub proof fn replacements_do_not_cascade(
    s: Seq<char>,
    i: int,
    rules: Seq<ReplacementView>,
    k: int,
)
    requires
        0 <= i < s.len(),
        applies(s, i, rules, k),
    ensures
        replaced_from(s, i, rules) == rules[k].to + replaced_from(
            s,
            i + rules[k].from.len(),
            rules,
        ),
{
    longest_match_wins(s, i, rules);
    lemma_best_rule(s, i, rules, rules.len() as int);
    match best_rule(s, i, rules, rules.len() as int) {
        Some(b) => {
            lemma_applies_unique(s, i, rules, b, k);
        },
        None => {},
    }
}

/// Inside a word no phrase ends either: where a letter or a digit follows a phrase, it does not
/// stand there as a whole.
pub proof fn nothing_ends_inside_a_word(s: Seq<char>, i: int, from: Seq<char>)
    requires
        0 <= i + from.len() < s.len(),
        text::alphanumeric(s[i + from.len()]),
    ensures
        !matches_at(s, i, from),
{
}

/// A phrase stands wherever its characters stand between two characters that are no letters or
/// digits, or at an end of the text; capitals make no difference.
pub proof fn phrases_stand_as_whole_words(a: Seq<char>, w: Seq<char>, b: Seq<char>, from: Seq<char>)
    requires
        !text::blank(from),
        text::ascii_lower(w) == text::ascii_lower(from),
        a.len() == 0 || !text::alphanumeric(a.last()),
        b.len() == 0 || !text::alphanumeric(b[0]),
    ensures
        matches_at(a + w + b, a.len() as int, from),
{
    let s = a + w + b;
    assert(text::ascii_lower(w).len() == w.len());
    assert(text::ascii_lower(from).len() == from.len());
    assert(s.subrange(a.len() as int, a.len() + from.len() as int) =~= w);
    if a.len() > 0 {
        assert(s[a.len() - 1] == a.last());
    }
    if b.len() > 0 {
        assert(s[a.len() + w.len() as int] == b[0]);
    }
}

proof fn lemma_kept_until(s: Seq<char>, i: int, n: int, rules: Seq<ReplacementView>)
    requires
        0 <= i <= n <= s.len(),
        forall|k: int, j: int|
            i <= k < n && 0 <= j < rules.len() ==> !#[trigger] matches_at(s, k, rules[j].from),
    ensures
        replaced_from(s, i, rules) == s.subrange(i, n) + replaced_from(s, n, rules),
    decreases n - i,
{
    if i < n {
        longest_match_wins(s, i, rules);
        lemma_kept_until(s, i + 1, n, rules);
        assert(seq![s[i]] + (s.subrange(i + 1, n) + replaced_from(s, n, rules)) =~= s.subrange(i, n)
            + replaced_from(s, n, rules));
    } else {
        assert(s.subrange(i, n) + replaced_from(s, n, rules) =~= replaced_from(s, n, rules));
    }
}

/// With one rule, a text in which its phrase stands once, as whole words and in whatever capitals,
/// comes out with the replacement in its place, and everything before and behind it unchanged.
pub proof fn a_phrase_is_replaced_where_it_stands(
    a: Seq<char>,
    w: Seq<char>,
    b: Seq<char>,
    rule: ReplacementView,
)
    requires
        !text::blank(rule.from),
        text::ascii_lower(w) == text::ascii_lower(rule.from),
        a.len() == 0 || !text::alphanumeric(a.last()),
        b.len() == 0 || !text::alphanumeric(b[0]),
        forall|i: int|
            0 <= i < (a + w + b).len() && !(a.len() <= i < a.len() + w.len()) ==> !matches_at(
                a + w + b,
                i,
                rule.from,
            ),
    ensures
        replaced(a + w + b, seq![rule]) == a + rule.to + b,
{
    let s = a + w + b;
    let rules = seq![rule];
    let n = a.len() as int;
    phrases_stand_as_whole_words(a, w, b, rule.from);
    assert(text::ascii_lower(w).len() == w.len());
    assert(text::ascii_lower(rule.from).len() == rule.from.len());
    lemma_kept_until(s, 0, n, rules);
    longest_match_wins(s, n, rules);
    text::lemma_blank(rule.from);
    assert(rule.from.len() > 0);
    let k = best_rule(s, n, rules, 1);
    assert(k == Some(0int)) by {
        assert(matches_at(s, n, rules[0].from));
    }
    lemma_kept_until(s, n + w.len(), s.len() as int, rules);
    assert(replaced_from(s, s.len() as int, rules) =~= Seq::empty());
    assert(replaced_from(s, n, rules) == rule.to + replaced_from(s, n + w.len(), rules));
    assert(s.subrange(n + w.len(), s.len() as int) =~= b);
    assert(s.subrange(0, n) =~= a);
    assert(replaced(s, rules) =~= a + rule.to + b);
}

} // verus!
