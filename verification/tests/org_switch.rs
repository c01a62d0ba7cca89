use trieve_cli::profiles::{TrieveProfile, TrieveProfileInner};
use trieve_cli::settings::TrieveConfiguration;

fn conf(key: &str, org: u128, url: &str) -> TrieveConfiguration {
    TrieveConfiguration::new(key.to_string(), org, url.to_string())
}

#[test]
fn switch_updates_only_entries_matching_the_active_settings() {
    let active = conf("key-a", 1, "https://api.trieve.ai");
    let unrelated = conf("key-b", 2, "https://other.example");
    let mut store = TrieveProfile {
        inner: vec![
            TrieveProfileInner { name: "mine".to_string(), settings: active.clone(), selected: true },
            TrieveProfileInner { name: "other".to_string(), settings: unrelated.clone(), selected: false },
        ],
    };
    store.switch_org(&active, 42);
    assert_eq!(store.inner[0].settings.organization_id, 42);
    assert_eq!(store.inner[0].settings.api_key, "key-a");
    assert_eq!(store.inner[0].settings.api_url, "https://api.trieve.ai");
    assert!(store.inner[0].selected);
    assert_eq!(store.inner[1].settings, unrelated);
    assert_eq!(store.inner[1].name, "other");
    assert!(!store.inner[1].selected);
}

#[test]
fn switch_deselects_entries_that_do_not_match() {
    let active = conf("key-a", 1, "https://api.trieve.ai");
    let mut store = TrieveProfile {
        inner: vec![
            TrieveProfileInner {
                name: "stale".to_string(),
                settings: conf("key-b", 1, "https://api.trieve.ai"),
                selected: true,
            },
            TrieveProfileInner { name: "mine".to_string(), settings: active.clone(), selected: false },
        ],
    };
    store.switch_org(&active, 9);
    assert!(!store.inner[0].selected);
    assert_eq!(store.inner[0].settings.organization_id, 1);
    assert!(store.inner[1].selected);
    assert_eq!(store.inner[1].settings.organization_id, 9);
}

#[test]
fn switch_updates_every_entry_sharing_the_active_settings() {
    // Matching is by settings value, not by name: two entries with identical
    // settings are both rewritten by one switch.
    let active = conf("key-a", 1, "https://api.trieve.ai");
    let mut store = TrieveProfile {
        inner: vec![
            TrieveProfileInner { name: "one".to_string(), settings: active.clone(), selected: true },
            TrieveProfileInner { name: "two".to_string(), settings: active.clone(), selected: false },
        ],
    };
    store.switch_org(&active, 5);
    assert_eq!(store.inner[0].settings.organization_id, 5);
    assert_eq!(store.inner[1].settings.organization_id, 5);
    assert!(store.inner[0].selected);
    assert!(store.inner[1].selected);
}

#[test]
fn settings_equality_and_provisioning() {
    let a = conf("k", 1, "u");
    let b = conf("k", 1, "u");
    let c = conf("k", 2, "u");
    assert!(a.same_settings(&b));
    assert!(!a.same_settings(&c));
    assert!(TrieveConfiguration::default().is_unprovisioned());
    assert!(!a.is_unprovisioned());
    assert_eq!(a.duplicate(), a);
}
