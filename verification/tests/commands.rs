use terraform_profile::commands::import_profile;
use terraform_profile::commands::show_profile_status;
use terraform_profile::commands::show_profiles_list;
use terraform_profile::commands::switch_profile;
use terraform_profile::errors::ProfileError;
use terraform_profile::link::resolve_active;
use terraform_profile::link::ActiveLocation;
use terraform_profile::link::Resolved;
use terraform_profile::registry::get_profiles;
use terraform_profile::registry::Registry;
use terraform_profile::registry::ScanEntry;

fn entry(file_name: &str, path: &str) -> ScanEntry {
    ScanEntry { file_name: file_name.to_string(), path: path.to_string() }
}

fn two_profiles() -> Registry {
    get_profiles(vec![
        entry("alice.tfrc.json", "/reg/alice.tfrc.json"),
        entry("bob.tfrc.json", "/reg/bob.tfrc.json"),
    ])
    .unwrap()
}

fn symlink_to(target: &str) -> ActiveLocation {
    ActiveLocation::Symlink { target: target.to_string() }
}

#[test]
fn switch_with_no_link_creates_one() {
    let reg = two_profiles();
    let plan = switch_profile(&ActiveLocation::Absent, &reg, &"alice".to_string()).unwrap();
    assert!(!plan.remove_existing);
    assert_eq!(plan.target, "/reg/alice.tfrc.json".to_string());
}

#[test]
fn switch_over_existing_link_replaces_it() {
    let reg = two_profiles();
    let plan = switch_profile(
        &symlink_to("/reg/alice.tfrc.json"),
        &reg,
        &"bob".to_string(),
    )
    .unwrap();
    assert!(plan.remove_existing);
    assert_eq!(plan.target, "/reg/bob.tfrc.json".to_string());
}

#[test]
fn switch_to_unknown_name_is_refused() {
    let reg = two_profiles();
    let r = switch_profile(&ActiveLocation::Absent, &reg, &"carol".to_string());
    assert!(matches!(r, Err(ProfileError::UnknownProfile)));
}

#[test]
fn switch_over_foreign_file_is_refused() {
    let reg = two_profiles();
    let r = switch_profile(&ActiveLocation::Foreign, &reg, &"alice".to_string());
    assert!(matches!(r, Err(ProfileError::DestructiveOverwrite)));
}

#[test]
fn import_moves_foreign_file_into_registry() {
    let reg = two_profiles();
    let plan = import_profile(
        &"carol".to_string(),
        &ActiveLocation::Foreign,
        &reg,
        &"/reg".to_string(),
    )
    .unwrap();
    assert_eq!(plan.destination, "/reg/carol.tfrc.json".to_string());
}

#[test]
fn import_with_no_file_still_targets_registry() {
    let reg = get_profiles(Vec::new()).unwrap();
    let plan = import_profile(
        &"first".to_string(),
        &ActiveLocation::Absent,
        &reg,
        &"/reg".to_string(),
    )
    .unwrap();
    assert_eq!(plan.destination, "/reg/first.tfrc.json".to_string());
}

#[test]
fn import_over_known_link_is_refused() {
    let reg = two_profiles();
    let r = import_profile(
        &"carol".to_string(),
        &symlink_to("/reg/alice.tfrc.json"),
        &reg,
        &"/reg".to_string(),
    );
    match r {
        Err(ProfileError::AlreadyImported { name }) => assert_eq!(name, "alice".to_string()),
        _ => panic!("expected the already-imported error"),
    }
}

#[test]
fn import_over_unknown_link_is_refused() {
    let reg = two_profiles();
    let r = import_profile(
        &"carol".to_string(),
        &symlink_to("/elsewhere/creds"),
        &reg,
        &"/reg".to_string(),
    );
    assert!(matches!(r, Err(ProfileError::UnknownLink)));
}

#[test]
fn imported_profile_can_be_loaded_and_switched_to() {
    let reg = two_profiles();
    let plan = import_profile(
        &"carol".to_string(),
        &ActiveLocation::Foreign,
        &reg,
        &"/reg".to_string(),
    )
    .unwrap();
    let reloaded = get_profiles(vec![
        entry("alice.tfrc.json", "/reg/alice.tfrc.json"),
        entry("bob.tfrc.json", "/reg/bob.tfrc.json"),
        entry("carol.tfrc.json", &plan.destination),
    ])
    .unwrap();
    let switch = switch_profile(&ActiveLocation::Absent, &reloaded, &"carol".to_string()).unwrap();
    assert_eq!(switch.target, plan.destination);
    let status = show_profile_status(&symlink_to(&plan.destination), &reloaded).unwrap();
    assert_eq!(status, "carol".to_string());
}

#[test]
fn status_reports_linked_profile() {
    let reg = two_profiles();
    let r = show_profile_status(&symlink_to("/reg/bob.tfrc.json"), &reg).unwrap();
    assert_eq!(r, "bob".to_string());
}

#[test]
fn status_without_profile_fails() {
    let reg = two_profiles();
    assert!(matches!(
        show_profile_status(&ActiveLocation::Absent, &reg),
        Err(ProfileError::NoActiveProfile)
    ));
    assert!(matches!(
        show_profile_status(&ActiveLocation::Foreign, &reg),
        Err(ProfileError::NoActiveProfile)
    ));
    assert!(matches!(
        show_profile_status(&symlink_to("/elsewhere/creds"), &reg),
        Err(ProfileError::NoActiveProfile)
    ));
}

#[test]
fn status_twice_reports_the_same() {
    let reg = two_profiles();
    let loc = symlink_to("/reg/alice.tfrc.json");
    let first = show_profile_status(&loc, &reg).unwrap();
    let second = show_profile_status(&loc, &reg).unwrap();
    assert_eq!(first, second);
    let empty = get_profiles(Vec::new()).unwrap();
    let gone = ActiveLocation::Absent;
    assert!(show_profile_status(&gone, &empty).is_err());
    assert!(show_profile_status(&gone, &empty).is_err());
}

#[test]
fn resolve_distinguishes_all_states() {
    let reg = two_profiles();
    assert!(matches!(
        resolve_active(&reg, &ActiveLocation::Absent),
        Resolved::Absent
    ));
    assert!(matches!(
        resolve_active(&reg, &ActiveLocation::Foreign),
        Resolved::Foreign
    ));
    assert!(matches!(
        resolve_active(&reg, &symlink_to("/elsewhere/creds")),
        Resolved::Unknown
    ));
    match resolve_active(&reg, &symlink_to("/reg/alice.tfrc.json")) {
        Resolved::Active { name } => assert_eq!(name, "alice".to_string()),
        _ => panic!("expected an active profile"),
    }
}

#[test]
fn list_on_empty_registry_fails() {
    let reg = get_profiles(Vec::new()).unwrap();
    assert!(matches!(
        show_profiles_list(&reg),
        Err(ProfileError::EmptyRegistry)
    ));
}

#[test]
fn list_prints_every_name_once() {
    let reg = two_profiles();
    let names = show_profiles_list(&reg).unwrap();
    assert_eq!(names, vec!["alice".to_string(), "bob".to_string()]);
}

#[test]
fn switch_and_status_scenario() {
    let reg = two_profiles();

    let plan = switch_profile(&ActiveLocation::Absent, &reg, &"bob".to_string()).unwrap();
    assert_eq!(plan.target, "/reg/bob.tfrc.json".to_string());
    let link = symlink_to(&plan.target);

    let status = show_profile_status(&link, &reg).unwrap();
    assert_eq!(status, "bob".to_string());

    let refused = switch_profile(&link, &reg, &"carol".to_string());
    assert!(matches!(refused, Err(ProfileError::UnknownProfile)));

    let status_again = show_profile_status(&link, &reg).unwrap();
    assert_eq!(status_again, "bob".to_string());
}

#[test]
fn diagnostic_messages_match_the_reported_state() {
    assert_eq!(
        ProfileError::UnknownProfile.message(),
        "Couldn't find the profile to switch with.".to_string()
    );
    assert_eq!(
        ProfileError::DestructiveOverwrite.message(),
        "A non-profile credentials already exists. This is a destructive operation, you should import or delete it first.".to_string()
    );
    assert_eq!(
        ProfileError::AlreadyImported { name: "alice".to_string() }.message(),
        "The profile is already imported under `alice`".to_string()
    );
    assert_eq!(
        ProfileError::UnknownLink.message(),
        "The profile is an unknown symbolic link.".to_string()
    );
    assert_eq!(
        ProfileError::NoActiveProfile.message(),
        "No profile is currently in use.".to_string()
    );
    assert_eq!(
        ProfileError::EmptyRegistry.message(),
        "No profiles is currently available".to_string()
    );
}
