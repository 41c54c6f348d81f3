use repo_index::paths::{detect_language, should_ignore};
use repo_index::snapshot::{compute_file_hashes, compute_repo_stats, fingerprint, WalkEntry};
use repo_index::text::str_lt;
use repo_index::tree::call_target;

fn entry(path: &str, text: &str) -> WalkEntry {
    WalkEntry {
        path: path.to_string(),
        is_file: true,
        size: Some(text.len() as u64),
        text: Some(text.to_string()),
        data: Some(text.as_bytes().to_vec()),
    }
}

#[test]
fn ignored_directories() {
    assert!(should_ignore("repo/.git/config.py"));
    assert!(should_ignore("node_modules/x.rs"));
    assert!(should_ignore("a/b/target"));
    assert!(should_ignore("./venv/lib/x.py"));
    assert!(!should_ignore("repo/src/main.rs"));
    assert!(!should_ignore("repo/targets/x.rs"));
    assert!(!should_ignore("repo/my.git/x.rs"));
    assert!(!should_ignore(""));
}

#[test]
fn languages_by_extension() {
    assert_eq!(detect_language("src/a.py"), Some("python"));
    assert_eq!(detect_language("lib.rs"), Some("rust"));
    assert_eq!(detect_language("a.txt"), None);
    assert_eq!(detect_language(".py"), None);
    assert_eq!(detect_language("dir/.rs"), None);
    assert_eq!(detect_language("a.rs.bak"), None);
    assert_eq!(detect_language("py"), None);
}

#[test]
fn blake3_of_empty_input() {
    assert_eq!(
        fingerprint(&Vec::new()),
        "af1349b9f5f9a1a6a0404dea36dcc9499bcb25c9adc112b7cc9a93cae41f3262"
    );
    assert_ne!(fingerprint(&b"a".to_vec()), fingerprint(&b"b".to_vec()));
}

#[test]
fn stats_and_hashes_of_a_walk() {
    let mut dir = entry("r/src", "");
    dir.is_file = false;
    let entries = vec![
        entry("r/a.py", "x = 1\ny = 2\n"),
        entry("r/b.rs", "fn f() {}"),
        entry("r/notes.txt", "hello\n"),
        entry("r/.venv/c.py", "z\n"),
        dir,
    ];
    let stats = compute_repo_stats(&entries);
    assert_eq!(stats.file_count, 2);
    assert_eq!(stats.total_bytes, 21);
    assert_eq!(stats.total_lines, 3);
    let hashes = compute_file_hashes(&entries);
    assert_eq!(hashes.len(), 2);
    assert_eq!(hashes[0].path, "r/a.py");
    assert_eq!(hashes[0].hash, fingerprint(&b"x = 1\ny = 2\n".to_vec()));
    assert_eq!(hashes[1].path, "r/b.rs");
}

#[test]
fn callee_last_segment() {
    assert_eq!(call_target("module.obj.method"), "method");
    assert_eq!(call_target("foo::bar"), "bar");
    assert_eq!(call_target("plain"), "plain");
    assert_eq!(call_target("a."), "");
}

#[test]
fn string_order() {
    assert!(str_lt("a", "b"));
    assert!(str_lt("ab", "abc"));
    assert!(!str_lt("b", "a"));
    assert!(!str_lt("x", "x"));
    assert!(str_lt("Z", "a"));
}
