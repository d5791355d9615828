use tts_clean::config::{ExperimentalConfig, PunctuationConfig};
use tts_clean::punctuation::{
    choose_stop, collapse_commas, collapse_stop_sequences, discipline_punctuation,
    replace_slashes, strip_punct_runs,
};
use tts_clean::patterns::PatternSet;

fn set() -> PatternSet {
    PatternSet::new()
}

#[test]
fn a_run_of_commas_keeps_one() {
    assert_eq!(collapse_commas("wait,,, then go", 1), "wait, then go");
}

#[test]
fn whitespace_inside_a_run_of_commas_stays() {
    assert_eq!(collapse_commas("a, , ,b", 1), "a,  b");
    assert_eq!(collapse_commas("a ,\t, c", 1), "a ,\t c");
    assert_eq!(collapse_commas("a,\n,b", 1), "a,\nb");
}

#[test]
fn a_run_of_commas_keeps_as_many_as_allowed() {
    assert_eq!(collapse_commas("a,,,,b", 2), "a,,b");
    assert_eq!(collapse_commas("a,,,,b", 4), "a,,,,b");
    assert_eq!(collapse_commas("a,,,,b", 9), "a,,,,b");
}

#[test]
fn a_run_of_commas_ends_at_any_other_character() {
    assert_eq!(collapse_commas("a,b,c,,d", 1), "a,b,c,d");
    assert_eq!(collapse_commas(",,x,,", 1), ",x,");
}

#[test]
fn a_limit_of_zero_leaves_commas_alone() {
    assert_eq!(collapse_commas("a,,,b", 0), "a,,,b");
}

#[test]
fn collapsing_commas_twice_changes_nothing_more() {
    for sample in ["wait,,, then go", "a, , ,b", ",,,", "a , , b ,, c"] {
        let once = collapse_commas(sample, 1);
        assert_eq!(collapse_commas(&once, 1), once);
    }
}

#[test]
fn slashes_are_replaced() {
    assert_eq!(replace_slashes("and/or", " or "), "and or or");
    assert_eq!(replace_slashes("a/b/c", "-"), "a-b-c");
    assert_eq!(replace_slashes("none", " or "), "none");
}

#[test]
fn an_empty_replacement_deletes_slashes() {
    assert_eq!(replace_slashes("a/b//c", ""), "abc");
}

#[test]
fn the_strongest_stop_of_a_run_is_chosen() {
    assert_eq!(choose_stop(&[',', '.'], ".:;,?"), Some('.'));
    assert_eq!(choose_stop(&['?', ','], ".:;,?"), Some(','));
    assert_eq!(choose_stop(&['?', '?'], ".:;,?"), Some('?'));
    assert_eq!(choose_stop(&[';', ':'], ".:;,?"), Some(':'));
}

#[test]
fn a_run_without_a_known_stop_keeps_its_first_character() {
    assert_eq!(choose_stop(&['!', 'x'], ".:;,?"), Some('!'));
    assert_eq!(choose_stop(&['a'], ""), Some('a'));
    assert_eq!(choose_stop(&[], ".:;,?"), None);
    assert_eq!(choose_stop(&[], ""), None);
}

#[test]
fn runs_of_stops_collapse_to_one() {
    assert_eq!(collapse_stop_sequences("what?., really;: yes", ".:;,?"), "what. really: yes");
    assert_eq!(collapse_stop_sequences("end...", ".:;,?"), "end.");
    assert_eq!(collapse_stop_sequences("a,b", ".:;,?"), "a,b");
    assert_eq!(collapse_stop_sequences("?!?", ".:;,?"), "?!?");
    assert_eq!(collapse_stop_sequences("", ".:;,?"), "");
}

#[test]
fn stops_follow_the_configured_precedence() {
    assert_eq!(collapse_stop_sequences("a.,b", ",."), "a,b");
    assert_eq!(collapse_stop_sequences("a.,b", ""), "a.,b");
}

#[test]
fn collapsing_stops_twice_changes_nothing_more() {
    for sample in ["what?., really;: yes", "...", "a. b? c", ",;,;x"] {
        let once = collapse_stop_sequences(sample, ".:;,?");
        assert_eq!(collapse_stop_sequences(&once, ".:;,?"), once);
    }
}

#[test]
fn punctuation_is_disciplined_in_order() {
    let cfg = PunctuationConfig::default();
    assert_eq!(discipline_punctuation("a,, b/c , . d", &cfg, &set()), "a, b or c . d");
    assert_eq!(discipline_punctuation("a,,. b?.  c", &cfg, &set()), "a. b. c");
}

#[test]
fn a_comma_before_a_period_gives_way() {
    let cfg = PunctuationConfig {
        collapse_commas: false,
        max_consecutive_commas: 1,
        slash_replacement: "/".to_string(),
        stop_precedence: String::new(),
    };
    assert_eq!(discipline_punctuation("a, . b,. c,\n.", &cfg, &set()), "a. b. c.");
    assert_eq!(discipline_punctuation("a  b,,c", &cfg, &set()), "a b,,c");
}

#[test]
fn an_empty_slash_replacement_deletes_slashes_in_the_stage() {
    let mut cfg = PunctuationConfig::default();
    cfg.slash_replacement = String::new();
    assert_eq!(discipline_punctuation("a/b", &cfg, &set()), "ab");
}

#[test]
fn decorative_runs_shrink_to_their_first_character() {
    let cfg = ExperimentalConfig { strip_punct_runs: true, punct_run_min_len: 5 };
    assert_eq!(strip_punct_runs("a ===== b ~~~~~~ c", &cfg), "a = b ~ c");
    assert_eq!(strip_punct_runs("a ==== b", &cfg), "a ==== b");
    assert_eq!(strip_punct_runs("x \\\\\\\\\\\\ y", &cfg), "x \\ y");
    assert_eq!(strip_punct_runs("~=~=~= hello", &cfg), "~ hello");
}

#[test]
fn decorative_runs_need_the_configured_length() {
    let cfg = ExperimentalConfig { strip_punct_runs: true, punct_run_min_len: 2 };
    assert_eq!(strip_punct_runs("a == b = c", &cfg), "a = b = c");
    let long = ExperimentalConfig { strip_punct_runs: true, punct_run_min_len: 12 };
    assert_eq!(strip_punct_runs("===========", &long), "===========");
    assert_eq!(strip_punct_runs("============", &long), "=");
}

#[test]
fn decorative_runs_stay_unless_asked_for() {
    assert_eq!(strip_punct_runs("=======", &ExperimentalConfig::default()), "=======");
    let zero = ExperimentalConfig { strip_punct_runs: true, punct_run_min_len: 0 };
    assert_eq!(strip_punct_runs("=======", &zero), "=======");
}

fn longest_comma_run(text: &str) -> usize {
    let mut longest = 0;
    let mut run = 0;
    for c in text.chars() {
        if c == ',' {
            run += 1;
            if run > longest {
                longest = run;
            }
        } else if !c.is_whitespace() {
            run = 0;
        }
    }
    longest
}

#[test]
fn no_run_keeps_more_commas_than_allowed() {
    let samples = ["wait,,, then go", "a, , ,b", ",,,,,,", "a , , b ,, c", ", x ,,\n,, y", ""];
    for sample in samples {
        for max in 1..4 {
            let out = collapse_commas(sample, max);
            assert!(longest_comma_run(&out) <= max, "{:?} with {}", sample, max);
        }
    }
}

#[test]
fn collapsing_takes_nothing_but_commas() {
    let samples = ["wait,,, then go", "a, , ,b", ",,,,,,", "a , , b ,, c", ", x ,,\n,, y"];
    for sample in samples {
        let out = collapse_commas(sample, 1);
        assert_eq!(out.replace(',', ""), sample.replace(',', ""), "{:?}", sample);
    }
}

#[test]
fn no_two_stops_stay_side_by_side() {
    let stops = ".:;,?";
    let samples = ["what?., really;: yes", "...", "a. b? c", ",;,;x", ".a.b..c:::"];
    for sample in samples {
        let out: Vec<char> = collapse_stop_sequences(sample, stops).chars().collect();
        for pair in out.windows(2) {
            assert!(!(stops.contains(pair[0]) && stops.contains(pair[1])), "{:?}", sample);
        }
    }
}
