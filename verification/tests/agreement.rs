use dirust::args::Args;
use dirust::scanner::targets::build_targets;
use dirust::scanner::wordlist::read_wordlist;
use dirust::url::normalize_base;

/// Every text of up to `max_len` characters over `alphabet`.
fn all_texts(alphabet: &[char], max_len: usize) -> Vec<String> {
    let mut texts = vec![String::new()];
    let mut start = 0;
    for _ in 0..max_len {
        let end = texts.len();
        for i in start..end {
            for c in alphabet {
                let mut longer = texts[i].clone();
                longer.push(*c);
                texts.push(longer);
            }
        }
        start = end;
    }
    texts
}

fn exts_by_std(list: &str) -> Vec<String> {
    let mut out = Vec::new();
    for token in list.split(',') {
        let trimmed = token.trim();
        if trimmed.is_empty() {
            continue;
        }
        out.push(format!(".{}", trimmed.trim_start_matches('.')));
    }
    out
}

fn words_by_std(text: &str) -> Vec<String> {
    let mut out = Vec::new();
    for line in text.lines() {
        let trimmed = line.trim();
        if trimmed.is_empty() || trimmed.starts_with('#') {
            continue;
        }
        out.push(trimmed.to_string());
    }
    out
}

fn targets_by_std(base: &str, words: &[String], exts: &[String]) -> Vec<String> {
    let mut out = Vec::new();
    for raw in words {
        let trimmed = raw.trim();
        let cleaned = trimmed.strip_prefix('/').unwrap_or(trimmed);
        if cleaned.is_empty() {
            continue;
        }
        out.push(format!("{}{}", base, cleaned));
        if !cleaned.contains('/') && !cleaned.ends_with('/') && !cleaned.contains('.') {
            for ext in exts {
                out.push(format!("{}{}{}", base, cleaned, ext));
            }
        }
    }
    out
}

fn base_by_std(base: &str) -> Option<String> {
    let mut b = base.trim().to_string();
    if !b.starts_with("http://") && !b.starts_with("https://") {
        return None;
    }
    if !b.ends_with('/') {
        b.push('/');
    }
    Some(b)
}

#[test]
fn extension_lists_parse_as_with_the_standard_library() {
    for list in all_texts(&[',', '.', ' ', 'a', '\t', 'b'], 6) {
        let args = Args {
            base: String::new(),
            wordlist: String::new(),
            concurrency: 1,
            get: false,
            timeout: 1,
            exts: list.clone(),
        };
        assert_eq!(args.parse_exts(), exts_by_std(&list), "{:?}", list);
    }
}

#[test]
fn wordlists_read_as_with_the_standard_library() {
    for text in all_texts(&['\n', '\r', '#', ' ', 'a', '/'], 6) {
        assert_eq!(read_wordlist(&text), words_by_std(&text), "{:?}", text);
    }
}

#[test]
fn targets_build_as_with_the_standard_library() {
    let exts = vec![".php".to_string(), ".html".to_string()];
    let words = all_texts(&['/', '.', ' ', 'a', '\n'], 5);
    assert_eq!(build_targets("http://h/", &words, &exts), targets_by_std("http://h/", &words, &exts));
    assert_eq!(build_targets("http://h/", &words, &[]), targets_by_std("http://h/", &words, &[]));
    for word in &words {
        let one = vec![word.clone()];
        assert_eq!(build_targets("b", &one, &exts), targets_by_std("b", &one, &exts), "{:?}", word);
    }
}

#[test]
fn bases_normalize_as_with_the_standard_library() {
    for tail in all_texts(&['/', ' ', 'x', '\n'], 4) {
        for head in ["http://", "https://", " http://", "http:/", "ftp://", "", "\thttps://h"] {
            let base = format!("{}{}", head, tail);
            assert_eq!(normalize_base(&base).ok(), base_by_std(&base), "{:?}", base);
        }
    }
}
