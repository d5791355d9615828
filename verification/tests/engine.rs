use tts_clean::config::ExperimentalConfig;
use tts_clean::engine::{rewrite, weave};
use tts_clean::pronounce::apply_brand_pronunciation;
use tts_clean::punctuation::strip_punct_runs;
use tts_clean::table::ReplacementTable;

fn strings(list: &[&str]) -> Vec<String> {
    list.iter().map(|s| s.to_string()).collect()
}

#[test]
fn rewrite_replaces_every_match() {
    assert_eq!(rewrite(r"\d+", "a1b22c333", "#"), "a#b#c#");
    assert_eq!(rewrite(r"\d+", "abc", "#"), "abc");
    assert_eq!(rewrite(r"\d+", "", "#"), "");
}

#[test]
fn rewrite_lets_the_replacement_refer_to_groups() {
    assert_eq!(rewrite(r"(\w+)@(\w+)", "me@home you@work", "$2:$1"), "home:me work:you");
    assert_eq!(rewrite(r"`([^`]+)`", "a `b` c", "$1"), "a b c");
}

#[test]
fn a_pattern_that_is_not_accepted_leaves_the_text() {
    assert_eq!(rewrite("(", "a(b", "x"), "a(b");
    assert_eq!(rewrite(r"[z-a]", "abc", "x"), "abc");
}

#[test]
fn a_pattern_that_is_too_large_leaves_the_text() {
    let cfg = ExperimentalConfig { strip_punct_runs: true, punct_run_min_len: 50_000_000 };
    assert_eq!(strip_punct_runs("=====", &cfg), "=====");
}

#[test]
fn weave_puts_the_fills_between_the_pieces() {
    assert_eq!(weave(&strings(&["a", "b", "c"]), &strings(&["1", "2"])), "a1b2c");
    assert_eq!(weave(&strings(&["", ""]), &strings(&["x"])), "x");
    assert_eq!(weave(&strings(&["only"]), &strings(&[])), "only");
}

#[test]
fn meta_characters_of_a_name_are_taken_literally() {
    let mut brands = ReplacementTable::new();
    brands.insert("a|b", "either");
    assert_eq!(apply_brand_pronunciation("a|b a b", &brands), "either a b");
    let mut dollars = ReplacementTable::new();
    dollars.insert("x^2", "square");
    assert_eq!(apply_brand_pronunciation("x^2 x2", &dollars), "square x2");
}

const SAMPLES: [&str; 12] = [
    "",
    "plain text without anything",
    ".btn-primary and a.b_c end. x.y.z ..w",
    "<p class=\"x\">Hello</p><br/> < div >x</ div > 1 < 2 > 0",
    "U. S. A. and A B, NASA or a B c, 5.7 and 2.10.1",
    "version 1.2.3 and 10.0 or 3.14, 1.99999 2.05 v1.2",
    "In 1994, 2003, 3000, 999, x1999 and 19945; 1\u{663}\u{663}\u{663}.",
    "===== ~~~~~~ \\\\\\\\\\\\ ~=~=~= ==== =",
    "The API uses HTTP2 and HTTP1.1 calls; APIs xAPI API2.",
    "caf\u{e9} \u{2014} na\u{ef}ve .\u{e9}t\u{e9} <\u{e9}>",
    "a\nb\r\nc\n\n.d\n<e>\n",
    "A1 B2.C3 D 4 E.  F",
];

#[test]
fn selectors_agree_with_the_engines_own_replacement() {
    let re = regex::Regex::new(tts_clean::pronounce::SELECTOR).unwrap();
    for sample in SAMPLES {
        let want = re
            .replace_all(sample, |caps: &regex::Captures| format!("dot {}", &caps["name"]))
            .to_string();
        let got = tts_clean::pronounce::apply_selector_pronunciation(
            sample,
            "dot ",
            &tts_clean::patterns::PatternSet::new(),
        );
        assert_eq!(got, want, "{:?}", sample);
    }
}

#[test]
fn tags_agree_with_the_engines_own_replacement() {
    let open = regex::Regex::new(tts_clean::pronounce::HTML_OPEN).unwrap();
    let close = regex::Regex::new(tts_clean::pronounce::HTML_CLOSE).unwrap();
    for sample in SAMPLES {
        let opened = open
            .replace_all(sample, |caps: &regex::Captures| format!("{}{}", &caps[1], "; "))
            .to_string();
        let want = close.replace_all(&opened, "").to_string();
        let got = tts_clean::pronounce::apply_html_pronunciation(
            sample,
            "; ",
            &tts_clean::patterns::PatternSet::new(),
        );
        assert_eq!(got, want, "{:?}", sample);
    }
}

#[test]
fn acronym_spacing_agrees_with_the_engines_own_replacement() {
    let re = regex::Regex::new(tts_clean::pronounce::ACRONYM_SEQUENCE).unwrap();
    for separator in ["", " ", "-"] {
        for sample in SAMPLES {
            let want = re
                .replace_all(sample, |caps: &regex::Captures| {
                    let letters: Vec<String> = caps[0]
                        .chars()
                        .filter(|c| c.is_alphanumeric())
                        .map(|c| c.to_string())
                        .collect();
                    letters.join(separator)
                })
                .to_string();
            let got = tts_clean::pronounce::normalize_acronym_spacing(
                sample,
                separator,
                &tts_clean::patterns::PatternSet::new(),
            );
            assert_eq!(got, want, "{:?}", sample);
        }
    }
}

#[test]
fn versions_agree_with_the_engines_own_replacement() {
    let re = regex::Regex::new(tts_clean::pronounce::VERSION).unwrap();
    for sample in SAMPLES {
        let want = re
            .replace_all(sample, |caps: &regex::Captures| {
                caps[0]
                    .split('.')
                    .map(|segment| match segment.parse::<usize>() {
                        Ok(n) => tts_clean::numbers::simple_number_to_words(n),
                        Err(_) => segment.to_string(),
                    })
                    .collect::<Vec<_>>()
                    .join(" point ")
            })
            .to_string();
        let got = tts_clean::pronounce::apply_version_pronunciation(
            sample,
            &tts_clean::config::VersionMode::SayDecimal,
            &tts_clean::patterns::PatternSet::new(),
        );
        assert_eq!(got, want, "{:?}", sample);
    }
}

#[test]
fn years_agree_with_the_engines_own_replacement() {
    let re = regex::Regex::new(tts_clean::pronounce::YEAR).unwrap();
    let numbers = tts_clean::config::NumberConfig::default();
    for sample in SAMPLES {
        let want = re
            .replace_all(sample, |caps: &regex::Captures| {
                let year: usize = caps[1].parse().unwrap_or(0);
                tts_clean::numbers::year_to_words(year, &numbers)
            })
            .to_string();
        let got = tts_clean::pronounce::apply_year_pronunciation(
            sample,
            &tts_clean::config::YearMode::American,
            &numbers,
            &tts_clean::patterns::PatternSet::new(),
        );
        assert_eq!(got, want, "{:?}", sample);
    }
}

#[test]
fn acronyms_agree_with_the_engines_own_replacement() {
    for token in ["API", "HTTP", "", "A"] {
        let pattern = format!(r"\b{}(?P<digits>\d+(?:\.\d+)*)?\b", regex::escape(token));
        let re = regex::Regex::new(&pattern).unwrap();
        let mut cfg = tts_clean::config::AbbreviationConfig::default();
        cfg.map = ReplacementTable::new();
        cfg.map.insert(token, "x y");
        for sample in SAMPLES {
            let spelled = re
                .replace_all(sample, |caps: &regex::Captures| {
                    let mut spelled = "x y".to_string();
                    if let Some(digits) = caps.name("digits") {
                        if !digits.as_str().is_empty() {
                            spelled.push(' ');
                            let parts: Vec<&str> = digits.as_str().split('.').collect();
                            spelled.push_str(&parts.join(" dot "));
                        }
                    }
                    spelled
                })
                .to_string();
            let want = tts_clean::pronounce::normalize_acronym_spacing(
                &spelled,
                "",
                &tts_clean::patterns::PatternSet::new(),
            );
            let got = tts_clean::pronounce::expand_acronyms(
                sample,
                &cfg,
                &tts_clean::patterns::PatternSet::new(),
            );
            assert_eq!(got, want, "{:?} with {:?}", sample, token);
        }
    }
}

#[test]
fn decorative_runs_agree_with_the_engines_own_replacement() {
    let re = regex::Regex::new(r"[=\\~]{3,}").unwrap();
    let cfg = ExperimentalConfig { strip_punct_runs: true, punct_run_min_len: 3 };
    for sample in SAMPLES {
        let want = re
            .replace_all(sample, |caps: &regex::Captures| {
                caps[0].chars().next().map(|c| c.to_string()).unwrap_or_default()
            })
            .to_string();
        assert_eq!(strip_punct_runs(sample, &cfg), want, "{:?}", sample);
    }
}
