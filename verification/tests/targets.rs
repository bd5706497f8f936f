use dirust::scanner::targets::build_targets;

fn strings(items: &[&str]) -> Vec<String> {
    items.iter().map(|s| s.to_string()).collect()
}

#[test]
fn end_to_end_targets_in_order() {
    let words = strings(&["admin", "secret/", "notes.txt"]);
    let exts = strings(&[".php"]);
    let targets = build_targets("http://h/", &words, &exts);
    assert_eq!(
        targets,
        strings(&["http://h/admin", "http://h/admin.php", "http://h/secret/", "http://h/notes.txt"])
    );
}

#[test]
fn bare_name_gets_one_target_per_extension_in_order() {
    let words = strings(&["status"]);
    let exts = strings(&[".php", ".html", ".txt"]);
    let targets = build_targets("https://example.com/", &words, &exts);
    assert_eq!(targets.len(), 1 + exts.len());
    assert_eq!(
        targets,
        strings(&[
            "https://example.com/status",
            "https://example.com/status.php",
            "https://example.com/status.html",
            "https://example.com/status.txt",
        ])
    );
}

#[test]
fn extension_order_is_kept_not_sorted() {
    let words = strings(&["x"]);
    let exts = strings(&[".z", ".a", ".m"]);
    let targets = build_targets("http://h/", &words, &exts);
    assert_eq!(targets, strings(&["http://h/x", "http://h/x.z", "http://h/x.a", "http://h/x.m"]));
}

#[test]
fn directory_like_words_get_no_extension() {
    let exts = strings(&[".php", ".html"]);
    for word in ["admin/", "api/v1", "api/v1/", "a/b/c"] {
        let targets = build_targets("http://h/", &strings(&[word]), &exts);
        assert_eq!(targets, vec![format!("http://h/{}", word)]);
    }
}

#[test]
fn words_with_a_dot_get_no_extension() {
    let exts = strings(&[".php", ".html"]);
    for word in ["readme.txt", ".htaccess", "archive.tar.gz", "trailing."] {
        let targets = build_targets("http://h/", &strings(&[word]), &exts);
        assert_eq!(targets, vec![format!("http://h/{}", word)]);
    }
}

#[test]
fn empty_wordlist_gives_no_targets() {
    let targets = build_targets("http://h/", &[], &strings(&[".php"]));
    assert!(targets.is_empty());
}

#[test]
fn empty_extension_list_gives_one_target_per_word() {
    let words = strings(&["admin", "secret/", "notes.txt", "login"]);
    let targets = build_targets("http://h/", &words, &[]);
    assert_eq!(
        targets,
        strings(&["http://h/admin", "http://h/secret/", "http://h/notes.txt", "http://h/login"])
    );
}

#[test]
fn words_are_trimmed_before_use() {
    let words = strings(&["  admin \t", "\u{a0}login\u{3000}"]);
    let targets = build_targets("http://h/", &words, &strings(&[".php"]));
    assert_eq!(
        targets,
        strings(&["http://h/admin", "http://h/admin.php", "http://h/login", "http://h/login.php"])
    );
}

#[test]
fn blank_words_are_skipped() {
    let words = strings(&["", "   ", "/", " / ", "admin"]);
    let targets = build_targets("http://h/", &words, &strings(&[".php"]));
    assert_eq!(targets, strings(&["http://h/admin", "http://h/admin.php"]));
}

#[test]
fn one_leading_slash_is_stripped() {
    let exts = strings(&[".php"]);
    assert_eq!(
        build_targets("http://h/", &strings(&["/admin"]), &exts),
        strings(&["http://h/admin", "http://h/admin.php"])
    );
    assert_eq!(
        build_targets("http://h/", &strings(&["/admin/"]), &exts),
        strings(&["http://h/admin/"])
    );
    assert_eq!(
        build_targets("http://h/", &strings(&["//admin"]), &exts),
        strings(&["http://h//admin"])
    );
}

#[test]
fn inner_white_space_is_kept() {
    let targets = build_targets("http://h/", &strings(&["my file"]), &strings(&[".txt"]));
    assert_eq!(targets, strings(&["http://h/my file", "http://h/my file.txt"]));
}

#[test]
fn every_target_begins_with_the_base() {
    let base = "https://example.com/app/";
    let words = strings(&["a", "b/", "c.d", " /e ", "f/g"]);
    let exts = strings(&[".x", ".y"]);
    let targets = build_targets(base, &words, &exts);
    assert_eq!(targets.len(), 3 + 1 + 1 + 3 + 1);
    for target in &targets {
        assert!(target.starts_with(base));
    }
}

#[test]
fn building_targets_twice_gives_the_same() {
    let words = strings(&["a", "b/", "c.d"]);
    let exts = strings(&[".x"]);
    assert_eq!(build_targets("http://h/", &words, &exts), build_targets("http://h/", &words, &exts));
}
