use tiamat_core::firewall::Firewall;
use tiamat_core::protocol::RequestConfig;
use tiamat_core::search::SearchEngine;
use tiamat_core::tab_memory::TabMemory;
use tiamat_core::tab_snapshot::TabSnapshot;

#[test]
fn firewall_rules_round_trip() {
    let mut fw = Firewall::new();
    assert!(fw.get_rules("tab1").is_none());
    fw.add_rule("tab1".to_string(), "block ads".to_string());
    fw.add_rule("tab1".to_string(), "block trackers".to_string());
    fw.add_rule("tab2".to_string(), "block ads".to_string());
    assert_eq!(
        fw.get_rules("tab1"),
        Some(&vec!["block ads".to_string(), "block trackers".to_string()])
    );
    assert_eq!(fw.get_rules("tab2"), Some(&vec!["block ads".to_string()]));
    fw.remove_rule("tab1", "block ads");
    assert_eq!(fw.get_rules("tab1"), Some(&vec!["block trackers".to_string()]));
    fw.remove_rule("missing", "anything");
    assert_eq!(fw.get_rules("tab2"), Some(&vec!["block ads".to_string()]));
}

#[test]
fn tab_memory_insert_replaces() {
    let mut tm = TabMemory::new();
    assert!(tm.get_tab("t").is_none());
    tm.add_tab("t".to_string(), "first".to_string());
    assert_eq!(tm.get_tab("t"), Some(&"first".to_string()));
    tm.add_tab("t".to_string(), "second".to_string());
    assert_eq!(tm.get_tab("t"), Some(&"second".to_string()));
    tm.remove_tab("t");
    assert!(tm.get_tab("t").is_none());
}

#[test]
fn snapshots_store_encrypted_hex() {
    let mut ts = TabSnapshot::new();
    let snap = ts.create_snapshot("tab1", "Content of tab 1");
    // The stored snapshot is ciphertext, hex-encoded: never the plain
    // content, always an even count of hex digits.
    assert_ne!(snap, "Content of tab 1");
    assert!(snap.len() >= 32);
    assert_eq!(snap.len() % 32, 0);
    assert!(snap.chars().all(|c| c.is_ascii_hexdigit()));
    assert_eq!(ts.get_snapshot("tab1"), Some(snap.clone()));
    assert!(ts.get_snapshot("tab2").is_none());
    ts.delete_snapshot("tab1");
    assert!(ts.get_snapshot("tab1").is_none());
}

#[test]
fn snapshot_replaces_earlier_one() {
    let mut ts = TabSnapshot::new();
    let first = ts.create_snapshot("tab", "one");
    let second = ts.create_snapshot("tab", "two");
    assert_ne!(first, second);
    assert_eq!(ts.get_snapshot("tab"), Some(second));
}

#[test]
fn search_engine_names() {
    assert_eq!(SearchEngine::Google.as_str(), "Google");
    assert_eq!(SearchEngine::Naver.as_str(), "Naver");
    assert_eq!(SearchEngine::Bing.as_str(), "Bing");
    assert_eq!(SearchEngine::DuckDuckGo.as_str(), "DuckDuckGo");
    assert_eq!(SearchEngine::Ecosia.as_str(), "Ecosia");
    assert_eq!(SearchEngine::default(), SearchEngine::Google);
}

#[test]
fn search_urls_encode_the_query() {
    assert_eq!(
        SearchEngine::Google.url("hello world"),
        "https://www.google.com/search?q=hello%20world"
    );
    assert_eq!(
        SearchEngine::DuckDuckGo.url("a&b"),
        "https://duckduckgo.com/?q=a%26b"
    );
}

#[test]
fn request_config_defaults() {
    let cfg = RequestConfig::default();
    assert_eq!(cfg.timeout, 30);
    assert!(cfg.follow_redirects);
    assert_eq!(cfg.max_redirects, 10);
    assert!(cfg.headers.is_empty());
}
