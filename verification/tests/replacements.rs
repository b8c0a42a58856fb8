use iphone_bridge::voice::replacements::apply_replacements;
use iphone_bridge::voice::settings::Replacement;

fn rule(from: &str, to: &str) -> Replacement {
    Replacement {
        from: from.to_string(),
        to: to.to_string(),
    }
}

#[test]
fn replaces_a_single_word() {
    let rules = [rule("hey", "hi")];
    assert_eq!(apply_replacements("hey there", &rules), "hi there");
}

#[test]
fn replaces_a_multi_word_phrase() {
    let rules = [rule("at sign", "@")];
    assert_eq!(
        apply_replacements("me at sign example dot com", &rules),
        "me @ example dot com"
    );
}

#[test]
fn matching_ignores_case_in_both_directions() {
    let rules = [rule("At Sign", "@")];
    assert_eq!(apply_replacements("AT SIGN", &rules), "@");
    assert_eq!(apply_replacements("at sign", &rules), "@");
    let lower = [rule("my email", "me@example.com")];
    assert_eq!(
        apply_replacements("My Email please", &lower),
        "me@example.com please"
    );
}

#[test]
fn does_not_match_inside_a_longer_word() {
    let rules = [rule("at", "@")];
    assert_eq!(
        apply_replacements("battle that format", &rules),
        "battle that format",
        "a bounded rule must never touch the interior of a word"
    );
}

#[test]
fn matches_at_string_start_and_end() {
    let rules = [rule("at", "@")];
    assert_eq!(apply_replacements("at", &rules), "@");
    assert_eq!(apply_replacements("at home", &rules), "@ home");
    assert_eq!(apply_replacements("look at", &rules), "look @");
}

#[test]
fn punctuation_counts_as_a_boundary() {
    let rules = [rule("at sign", "@")];
    assert_eq!(apply_replacements("at sign.", &rules), "@.");
    assert_eq!(apply_replacements("(at sign)", &rules), "(@)");
    assert_eq!(apply_replacements("say \"at sign\"", &rules), "say \"@\"");
}

#[test]
fn output_of_one_rule_is_not_rescanned_by_a_later_rule() {
    let rules = [rule("a", "b"), rule("b", "c")];
    assert_eq!(
        apply_replacements("a b", &rules),
        "b c",
        "each input position is consumed once; rules must not cascade"
    );
}

#[test]
fn longest_phrase_wins_regardless_of_rule_order() {
    // The shorter rule is listed first, and must still lose: a user who adds
    // "at" later must not silently break their existing "at sign" rule.
    let rules = [rule("at", "@"), rule("at sign", "AT-SIGN")];
    assert_eq!(apply_replacements("at sign", &rules), "AT-SIGN");
    // Same rules, reversed input order -> same answer.
    let reversed = [rule("at sign", "AT-SIGN"), rule("at", "@")];
    assert_eq!(apply_replacements("at sign", &reversed), "AT-SIGN");
    // The shorter rule still applies where the longer one does not match.
    assert_eq!(apply_replacements("look at that", &rules), "look @ that");
}

#[test]
fn equal_length_phrases_fall_back_to_user_order() {
    let rules = [rule("cat", "FIRST"), rule("cat", "SECOND")];
    assert_eq!(
        apply_replacements("cat", &rules),
        "FIRST",
        "ties must resolve deterministically to the earlier rule"
    );
}

#[test]
fn empty_rule_list_is_a_no_op() {
    assert_eq!(apply_replacements("nothing changes", &[]), "nothing changes");
}

#[test]
fn empty_and_whitespace_from_rules_are_skipped() {
    let rules = [rule("", "BOOM"), rule("   ", "BOOM"), rule("ok", "fine")];
    assert_eq!(
        apply_replacements("ok then", &rules),
        "fine then",
        "blank patterns must neither match nor stall the scan"
    );
}

#[test]
fn empty_to_deletes_the_phrase_without_tidying_whitespace() {
    let rules = [rule("um", "")];
    assert_eq!(
        apply_replacements("so um yeah", &rules),
        "so  yeah",
        "deletion is literal; the double space is intentional"
    );
}

#[test]
fn preserves_newlines_and_surrounding_punctuation() {
    let rules = [rule("new line", "\n")];
    assert_eq!(
        apply_replacements("one\ntwo new line three", &rules),
        "one\ntwo \n three"
    );
}

#[test]
fn unicode_input_passes_through_uncorrupted() {
    let rules = [rule("cafe", "café")];
    assert_eq!(
        apply_replacements("naïve café — 日本語 🎤 cafe", &rules),
        "naïve café — 日本語 🎤 café"
    );
}

#[test]
fn non_ascii_letters_act_as_word_characters() {
    let rules = [rule("na", "N"), rule("ve", "V")];
    assert_eq!(
        apply_replacements("naïve", &rules),
        "naïve",
        "a match must not start or end against a non-ASCII letter"
    );
}

#[test]
fn empty_input_stays_empty() {
    let rules = [rule("at", "@")];
    assert_eq!(apply_replacements("", &rules), "");
}


#[test]
fn blank_phrases_do_not_compete() {
    let rules = [rule(" ", "x"), rule("at", "@"), rule(" ", "y")];
    let reversed = [rule(" ", "y"), rule("at", "@"), rule(" ", "x")];
    assert_eq!(apply_replacements("look at it", &rules), "look @ it");
    assert_eq!(apply_replacements("look at it", &reversed), "look @ it");
}
