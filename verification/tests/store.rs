use trieve_cli::profiles::{TrieveProfile, TrieveProfileInner};
use trieve_cli::settings::TrieveConfiguration;
use trieve_cli::error::StoreError;

fn conf(key: &str, org: u128, url: &str) -> TrieveConfiguration {
    TrieveConfiguration::new(key.to_string(), org, url.to_string())
}

fn profile(name: &str, key: &str, org: u128, selected: bool) -> TrieveProfileInner {
    TrieveProfileInner { name: name.to_string(), settings: conf(key, org, "https://api.trieve.ai"), selected }
}

fn check_invariants(store: &TrieveProfile) {
    let n = store.inner.len();
    if n > 0 {
        let selected = store.inner.iter().filter(|p| p.selected).count();
        assert_eq!(selected, 1, "a non-empty store must have exactly one selected entry");
    }
    for i in 0..n {
        for j in (i + 1)..n {
            assert_ne!(store.inner[i].name, store.inner[j].name, "names must be unique");
        }
    }
}

#[test]
fn upsert_into_empty_store() {
    let mut store = TrieveProfile::new();
    store.upsert("work".to_string(), conf("key1", 7, "https://api.trieve.ai"));
    assert_eq!(store.inner.len(), 1);
    assert_eq!(store.inner[0].name, "work");
    assert!(store.inner[0].selected);
    check_invariants(&store);
}

#[test]
fn upsert_existing_name_replaces_and_selects() {
    let mut store = TrieveProfile::new();
    store.upsert("work".to_string(), conf("key1", 1, "https://api.trieve.ai"));
    store.upsert("home".to_string(), conf("key2", 2, "https://api.trieve.ai"));
    store.upsert("work".to_string(), conf("key3", 3, "https://api.trieve.ai"));
    assert_eq!(store.inner.len(), 2);
    assert_eq!(store.inner[0].name, "home");
    assert!(!store.inner[0].selected);
    assert_eq!(store.inner[1].name, "work");
    assert_eq!(store.inner[1].settings.api_key, "key3");
    assert_eq!(store.inner[1].settings.organization_id, 3);
    assert!(store.inner[1].selected);
    check_invariants(&store);
}

#[test]
fn upsert_deduplicates_keeping_first_occurrence() {
    let mut store = TrieveProfile {
        inner: vec![
            profile("dup", "first", 1, true),
            profile("other", "o", 2, false),
            profile("dup", "second", 3, false),
        ],
    };
    store.upsert("new".to_string(), conf("nk", 4, "https://api.trieve.ai"));
    let names: Vec<&str> = store.inner.iter().map(|p| p.name.as_str()).collect();
    assert_eq!(names, vec!["dup", "other", "new"]);
    assert_eq!(store.inner[0].settings.api_key, "first");
    assert!(store.inner[2].selected);
    check_invariants(&store);
}

#[test]
fn invariants_hold_over_mutation_sequences() {
    let mut store = TrieveProfile::new();
    store.upsert("a".to_string(), conf("ka", 1, "https://api.trieve.ai"));
    check_invariants(&store);
    store.upsert("b".to_string(), conf("kb", 2, "https://api.trieve.ai"));
    check_invariants(&store);
    store.upsert("c".to_string(), conf("kc", 3, "https://api.trieve.ai"));
    check_invariants(&store);
    store.select("a").unwrap();
    check_invariants(&store);
    store.remove("a").unwrap();
    check_invariants(&store);
    store.upsert("b".to_string(), conf("kb2", 4, "https://api.trieve.ai"));
    check_invariants(&store);
    store.remove("c").unwrap();
    check_invariants(&store);
}

#[test]
fn select_switches_the_flag() {
    let mut store = TrieveProfile::new();
    store.upsert("a".to_string(), conf("ka", 1, "https://api.trieve.ai"));
    store.upsert("b".to_string(), conf("kb", 2, "https://api.trieve.ai"));
    assert!(store.inner[1].selected);
    store.select("a").unwrap();
    assert!(store.inner[0].selected);
    assert!(!store.inner[1].selected);
    check_invariants(&store);
}

#[test]
fn select_missing_fails_not_found_and_leaves_store_unchanged() {
    let mut store = TrieveProfile::new();
    store.upsert("a".to_string(), conf("ka", 1, "https://api.trieve.ai"));
    let before = store.clone();
    let r = store.select("missing");
    assert_eq!(r, Err(StoreError::NotFound("missing".to_string())));
    assert_eq!(store, before);
}

#[test]
fn remove_on_single_entry_store_fails_last_profile_and_leaves_store_unchanged() {
    let mut store = TrieveProfile::new();
    store.upsert("only".to_string(), conf("k", 1, "https://api.trieve.ai"));
    let before = store.clone();
    let r = store.remove("only");
    assert_eq!(r, Err(StoreError::LastProfile));
    assert_eq!(store, before);
}

#[test]
fn remove_missing_fails_not_found() {
    let mut store = TrieveProfile::new();
    store.upsert("a".to_string(), conf("ka", 1, "https://api.trieve.ai"));
    store.upsert("b".to_string(), conf("kb", 2, "https://api.trieve.ai"));
    let before = store.clone();
    let r = store.remove("zzz");
    assert_eq!(r, Err(StoreError::NotFound("zzz".to_string())));
    assert_eq!(store, before);
}

#[test]
fn remove_selected_promotes_first_remaining() {
    let mut store = TrieveProfile::new();
    store.upsert("a".to_string(), conf("ka", 1, "https://api.trieve.ai"));
    store.upsert("b".to_string(), conf("kb", 2, "https://api.trieve.ai"));
    store.upsert("c".to_string(), conf("kc", 3, "https://api.trieve.ai"));
    assert!(store.inner[2].selected);
    store.remove("c").unwrap();
    assert_eq!(store.inner.len(), 2);
    assert_eq!(store.inner[0].name, "a");
    assert!(store.inner[0].selected);
    assert!(!store.inner[1].selected);
    check_invariants(&store);
}

#[test]
fn remove_unselected_keeps_the_selection() {
    let mut store = TrieveProfile::new();
    store.upsert("a".to_string(), conf("ka", 1, "https://api.trieve.ai"));
    store.upsert("b".to_string(), conf("kb", 2, "https://api.trieve.ai"));
    store.upsert("c".to_string(), conf("kc", 3, "https://api.trieve.ai"));
    store.remove("a").unwrap();
    assert_eq!(store.inner.len(), 2);
    assert_eq!(store.inner[0].name, "b");
    assert!(!store.inner[0].selected);
    assert!(store.inner[1].selected);
    check_invariants(&store);
}

#[test]
fn list_puts_selected_entries_first_without_mutating() {
    let mut store = TrieveProfile::new();
    store.upsert("a".to_string(), conf("ka", 1, "https://api.trieve.ai"));
    store.upsert("b".to_string(), conf("kb", 2, "https://api.trieve.ai"));
    store.upsert("c".to_string(), conf("kc", 3, "https://api.trieve.ai"));
    store.select("b").unwrap();
    let before = store.clone();
    let listed = store.list();
    let names: Vec<&str> = listed.iter().map(|p| p.name.as_str()).collect();
    assert_eq!(names, vec!["b", "a", "c"]);
    assert!(listed[0].selected);
    assert_eq!(store, before);
}

#[test]
fn find_by_name_returns_first_position() {
    let mut store = TrieveProfile::new();
    store.upsert("a".to_string(), conf("ka", 1, "https://api.trieve.ai"));
    store.upsert("b".to_string(), conf("kb", 2, "https://api.trieve.ai"));
    assert_eq!(store.find_by_name("a"), Some(0));
    assert_eq!(store.find_by_name("b"), Some(1));
    assert_eq!(store.find_by_name("c"), None);
}

#[test]
fn selected_index_points_at_the_selected_entry() {
    let mut store = TrieveProfile::new();
    store.upsert("a".to_string(), conf("ka", 1, "https://api.trieve.ai"));
    store.upsert("b".to_string(), conf("kb", 2, "https://api.trieve.ai"));
    assert_eq!(store.selected_index(), 1);
    store.select("a").unwrap();
    assert_eq!(store.selected_index(), 0);
    let empty = TrieveProfile::new();
    assert_eq!(empty.selected_index(), 0);
}

#[test]
fn overwrite_confirmation_only_for_provisioned_entries() {
    let mut store = TrieveProfile {
        inner: vec![
            TrieveProfileInner {
                name: "blank".to_string(),
                settings: TrieveConfiguration::default(),
                selected: false,
            },
            profile("real", "key", 9, true),
        ],
    };
    assert!(!store.needs_overwrite_confirmation("blank"));
    assert!(store.needs_overwrite_confirmation("real"));
    assert!(!store.needs_overwrite_confirmation("absent"));
    store.upsert("blank".to_string(), conf("k2", 5, "https://api.trieve.ai"));
    assert!(store.needs_overwrite_confirmation("blank"));
}

#[test]
fn active_settings_come_from_the_selected_entry() {
    let mut store = TrieveProfile::new();
    assert_eq!(store.active_settings(), None);
    store.upsert("a".to_string(), conf("ka", 1, "https://api.trieve.ai"));
    store.upsert("b".to_string(), conf("kb", 2, "https://api.trieve.ai"));
    assert_eq!(
        store.active_settings(),
        Some(conf("kb", 2, "https://api.trieve.ai"))
    );
    assert_eq!(TrieveProfile::default().active_settings(), None);
}

#[test]
fn default_collection_holds_one_unprovisioned_placeholder() {
    let store = TrieveProfile::default();
    assert_eq!(store.inner.len(), 1);
    assert_eq!(store.inner[0].name, "default");
    assert!(!store.inner[0].selected);
    assert!(store.inner[0].settings.is_unprovisioned());
    assert_eq!(store.inner[0].settings.api_url, "https://api.trieve.ai");
}
