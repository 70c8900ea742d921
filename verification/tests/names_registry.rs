use terraform_profile::errors::ProfileError;
use terraform_profile::names::profile_name_of;
use terraform_profile::registry::get_profile_name_for_path;
use terraform_profile::registry::get_profiles;
use terraform_profile::registry::Registry;
use terraform_profile::registry::ScanEntry;

fn entry(file_name: &str, path: &str) -> ScanEntry {
    ScanEntry { file_name: file_name.to_string(), path: path.to_string() }
}

#[test]
fn name_of_plain_profile_file() {
    assert_eq!(profile_name_of("alice.tfrc.json"), Some("alice".to_string()));
}

#[test]
fn name_splits_on_first_occurrence() {
    assert_eq!(profile_name_of("a.tfrc.json.bak"), Some("a".to_string()));
    assert_eq!(profile_name_of("x.tfrc.json.tfrc.json"), Some("x".to_string()));
}

#[test]
fn name_of_bare_suffix_is_empty() {
    assert_eq!(profile_name_of(".tfrc.json"), Some(String::new()));
}

#[test]
fn name_absent_without_suffix() {
    assert_eq!(profile_name_of("notes.txt"), None);
    assert_eq!(profile_name_of(""), None);
    assert_eq!(profile_name_of("tfrc.json"), None);
}

#[test]
fn load_empty_directory() {
    let reg = get_profiles(Vec::new()).unwrap();
    assert!(reg.is_empty());
    assert!(reg.profile_names().is_empty());
}

#[test]
fn load_two_profiles() {
    let reg = get_profiles(vec![
        entry("alice.tfrc.json", "/reg/alice.tfrc.json"),
        entry("bob.tfrc.json", "/reg/bob.tfrc.json"),
    ])
    .unwrap();
    assert!(!reg.is_empty());
    assert_eq!(
        reg.lookup(&"alice".to_string()),
        Some(&"/reg/alice.tfrc.json".to_string())
    );
    assert_eq!(
        reg.lookup(&"bob".to_string()),
        Some(&"/reg/bob.tfrc.json".to_string())
    );
    assert_eq!(reg.lookup(&"carol".to_string()), None);
    assert_eq!(
        reg.profile_names(),
        vec!["alice".to_string(), "bob".to_string()]
    );
}

#[test]
fn load_duplicate_names_last_wins() {
    let reg = get_profiles(vec![
        entry("a.tfrc.json", "/reg/a.tfrc.json"),
        entry("a.tfrc.json.old", "/reg/a.tfrc.json.old"),
    ])
    .unwrap();
    assert_eq!(
        reg.lookup(&"a".to_string()),
        Some(&"/reg/a.tfrc.json.old".to_string())
    );
    assert_eq!(reg.profile_names(), vec!["a".to_string()]);
}

#[test]
fn load_aborts_on_file_without_suffix() {
    let r = get_profiles(vec![
        entry("alice.tfrc.json", "/reg/alice.tfrc.json"),
        entry("README.md", "/reg/README.md"),
    ]);
    assert!(matches!(r, Err(ProfileError::MalformedEntryName)));
}

#[test]
fn reverse_lookup_finds_registered_path() {
    let reg = get_profiles(vec![
        entry("alice.tfrc.json", "/reg/alice.tfrc.json"),
        entry("bob.tfrc.json", "/reg/bob.tfrc.json"),
    ])
    .unwrap();
    assert_eq!(
        get_profile_name_for_path(&"/reg/bob.tfrc.json".to_string(), &reg),
        Some(&"bob".to_string())
    );
    assert_eq!(
        get_profile_name_for_path(&"/elsewhere".to_string(), &reg),
        None
    );
}

#[test]
fn insert_then_lookup() {
    let mut reg = Registry::new();
    reg.insert("alice".to_string(), "/reg/alice.tfrc.json".to_string());
    assert_eq!(
        reg.lookup(&"alice".to_string()),
        Some(&"/reg/alice.tfrc.json".to_string())
    );
    reg.insert("alice".to_string(), "/reg/other.tfrc.json".to_string());
    assert_eq!(
        reg.lookup(&"alice".to_string()),
        Some(&"/reg/other.tfrc.json".to_string())
    );
    assert_eq!(reg.profile_names(), vec!["alice".to_string()]);
}
