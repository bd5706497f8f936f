use dirust::args::Args;
use std::time::Duration;

fn args_with_exts(exts: &str) -> Args {
    Args {
        base: "http://h/".to_string(),
        wordlist: "words.txt".to_string(),
        concurrency: 50,
        get: false,
        timeout: 10,
        exts: exts.to_string(),
    }
}

fn parsed(exts: &str) -> Vec<String> {
    args_with_exts(exts).parse_exts()
}

#[test]
fn extensions_get_one_leading_dot() {
    assert_eq!(parsed("php"), vec![".php"]);
    assert_eq!(parsed(".html"), vec![".html"]);
    assert_eq!(parsed("..txt"), vec![".txt"]);
    assert_eq!(parsed("....tar.gz"), vec![".tar.gz"]);
}

#[test]
fn extension_list_is_split_at_commas_in_order() {
    assert_eq!(parsed("php,html,txt"), vec![".php", ".html", ".txt"]);
    assert_eq!(parsed("txt,.php,html"), vec![".txt", ".php", ".html"]);
}

#[test]
fn extension_tokens_are_trimmed() {
    assert_eq!(parsed("  php  , html\t,\u{a0}.txt "), vec![".php", ".html", ".txt"]);
}

#[test]
fn empty_extension_tokens_are_dropped() {
    assert_eq!(parsed(""), Vec::<String>::new());
    assert_eq!(parsed(","), Vec::<String>::new());
    assert_eq!(parsed(" , ,"), Vec::<String>::new());
    assert_eq!(parsed("php,"), vec![".php"]);
    assert_eq!(parsed(",php,,html,"), vec![".php", ".html"]);
}

#[test]
fn token_of_dots_alone_becomes_a_single_dot() {
    assert_eq!(parsed("..."), vec!["."]);
    assert_eq!(parsed("."), vec!["."]);
}

#[test]
fn only_leading_dots_are_stripped() {
    assert_eq!(parsed(".a..b."), vec![".a..b."]);
    assert_eq!(parsed(". php"), vec![". php"]);
}

#[test]
fn every_parsed_extension_starts_with_exactly_one_dot() {
    for ext in parsed("php,.html,..txt,...,a.b, .c ,,....d") {
        let mut chars = ext.chars();
        assert_eq!(chars.next(), Some('.'));
        assert_ne!(chars.next(), Some('.'));
    }
}

#[test]
fn request_timeout_is_the_timeout_in_seconds() {
    let mut args = args_with_exts("");
    assert_eq!(args.request_timeout(), Duration::from_secs(10));
    args.timeout = 0;
    assert_eq!(args.request_timeout(), Duration::from_secs(0));
    args.timeout = 3600;
    assert_eq!(args.request_timeout(), Duration::new(3600, 0));
    assert_eq!(args.request_timeout().as_secs(), 3600);
    args.timeout = u64::MAX;
    assert_eq!(args.request_timeout().as_secs(), u64::MAX);
    assert_eq!(args.request_timeout().subsec_nanos(), 0);
}

#[test]
fn args_can_be_cloned() {
    let args = args_with_exts("php");
    let copy = args.clone();
    assert_eq!(copy.base, args.base);
    assert_eq!(copy.wordlist, args.wordlist);
    assert_eq!(copy.concurrency, 50);
    assert!(!copy.get);
    assert_eq!(copy.timeout, 10);
    assert_eq!(copy.exts, "php");
}
