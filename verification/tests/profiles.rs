use modkist::profiles::{install_blocked_for, ProfileKind, StoredProfile, VANILLA_PROFILE_ID};

#[test]
fn builtin_profiles_are_not_deletable() {
    let vanilla = StoredProfile {
        id: VANILLA_PROFILE_ID.to_string(),
        name: "Vanilla".to_string(),
        kind: ProfileKind::Vanilla,
    };
    assert!(install_blocked_for(&vanilla));
    assert_ne!(vanilla.kind, ProfileKind::Custom);
}
