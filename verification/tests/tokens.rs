use playbackpgnd::strutil::{chars_to_string, str_chars};
use playbackpgnd::tokens::{peel_bracket, tokens_vec, TokCfg, TokErr};

fn toks_as_strings(s: &str, d: char, btrim: bool, bdrop: bool, cfg: &TokCfg) -> Vec<String> {
    let cs = str_chars(s);
    tokens_vec(cs.as_slice(), d, btrim, bdrop, cfg)
        .iter()
        .map(|t| chars_to_string(t.as_slice()))
        .collect()
}

#[test]
fn peel_strips_one_bracket_level() {
    let cfg = TokCfg::log_format();
    let cs = str_chars("(a (b c) d)");
    let inner = peel_bracket(cs.as_slice(), &cfg).unwrap();
    assert_eq!(chars_to_string(inner.as_slice()), "a (b c) d");
}

#[test]
fn peel_fails_without_enclosing_brackets() {
    let cfg = TokCfg::log_format();
    let no_open = str_chars("a (b c) d)");
    assert_eq!(peel_bracket(no_open.as_slice(), &cfg), Err(TokErr::NotBracketed));
    let no_close = str_chars("(a (b c) d");
    assert_eq!(peel_bracket(no_close.as_slice(), &cfg), Err(TokErr::NotBracketed));
    let other_brackets = str_chars("[a]");
    assert_eq!(peel_bracket(other_brackets.as_slice(), &cfg), Err(TokErr::NotBracketed));
}

#[test]
fn nested_brackets_are_not_split() {
    let cfg = TokCfg::log_format();
    let toks = toks_as_strings("a (b c) d", ' ', true, true, &cfg);
    assert_eq!(toks, vec!["a".to_string(), "(b c)".to_string(), "d".to_string()]);
}

#[test]
fn quoted_delimiters_are_not_split() {
    let cfg = TokCfg::log_format();
    let toks = toks_as_strings("x \"a b\" y", ' ', true, true, &cfg);
    assert_eq!(toks, vec!["x".to_string(), "\"a b\"".to_string(), "y".to_string()]);
}

#[test]
fn empty_tokens_are_dropped_only_on_request() {
    let cfg = TokCfg::log_format();
    let dropped = toks_as_strings("a  b", ' ', true, true, &cfg);
    assert_eq!(dropped, vec!["a".to_string(), "b".to_string()]);
    let kept = toks_as_strings("a  b", ' ', true, false, &cfg);
    assert_eq!(kept, vec!["a".to_string(), "".to_string(), "b".to_string()]);
}

#[test]
fn raw_tokens_join_back_to_the_input() {
    let cfg = TokCfg::log_format();
    let input = "a  (b c) \"d e\"  f";
    let toks = toks_as_strings(input, ' ', false, false, &cfg);
    assert_eq!(toks.join(" "), input);
}

#[test]
fn quote_inside_a_token_opens_a_string_only_when_configured() {
    // live format: a caret mid-token starts a string, protecting the comma
    let live = TokCfg::live_format();
    let toks = toks_as_strings("k:^a,b^,m", ',', true, true, &live);
    assert_eq!(toks, vec!["k:^a,b^".to_string(), "m".to_string()]);
    // log format: a quote mid-token is plain text, so the space still splits
    let log = TokCfg::log_format();
    let toks = toks_as_strings("ab\"c d\"e f", ' ', true, true, &log);
    assert_eq!(toks, vec!["ab\"c".to_string(), "d\"e".to_string(), "f".to_string()]);
}

#[test]
fn retokenizing_a_token_with_another_config_works() {
    let log = TokCfg::log_format();
    let live = TokCfg::live_format();
    let toks = toks_as_strings("k:{a,b} m", ' ', true, true, &live);
    assert_eq!(toks, vec!["k:{a,b}".to_string(), "m".to_string()]);
    let inner = toks_as_strings("a,b", ',', true, true, &live);
    assert_eq!(inner, vec!["a".to_string(), "b".to_string()]);
    let again = toks_as_strings("(p q) r", ' ', true, true, &log);
    assert_eq!(again, vec!["(p q)".to_string(), "r".to_string()]);
}
