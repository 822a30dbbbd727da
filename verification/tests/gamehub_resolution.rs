use modkist::gamehub::{finish_binding_resolution, plan_binding_resolution, Binding};

fn binding(base: Option<&str>) -> Binding {
    Binding {
        game_name: Some("Zeepkist".to_string()),
        platform_app_id: Some("1440670".to_string()),
        game_path: "/games/GameLibrary".to_string(),
        virtual_container_id: "1".to_string(),
        base_container_id: base.map(str::to_string),
    }
}

const VIRTUAL: &str = r#"{
  "virtual_containers": {
    "1": {
      "id": "1",
      "base_container_id": "1",
      "prefix_path": "/support/virtual_containers/1",
      "name": "gamehub-1"
    }
  }
}"#;

const BASE: &str = r#"{ "containers": { "1": { "id": "1", "wine_installation_id": "10000073" } } }"#;

const INSTALLATIONS: &str = r#"{
  "wine_installations": {
    "10000073": {
      "install_path": "/support/wine/10000073",
      "metadata": { "wine_executable": "/support/wine/10000073/bin/wine64" }
    }
  }
}"#;

fn some(s: &str) -> Option<String> {
    Some(s.to_string())
}

#[test]
fn plans_resolution_through_base_container() {
    let b = binding(Some("1"));
    let plan = plan_binding_resolution(&b, &some(VIRTUAL), &some(BASE), &some(INSTALLATIONS)).expect("plan");
    assert_eq!(plan.prefix, "/support/virtual_containers/1");
    assert_eq!(plan.label, "GameHub (gamehub-1)");
    assert_eq!(
        plan.wine_candidates,
        vec!["/support/wine/10000073/bin/wine64".to_string(), "/support/wine/10000073/bin/wine".to_string()]
    );
}

#[test]
fn plan_uses_container_base_when_binding_has_none() {
    let plan = plan_binding_resolution(&binding(None), &some(VIRTUAL), &some(BASE), &some(INSTALLATIONS));
    assert_eq!(plan.expect("plan").prefix, "/support/virtual_containers/1");
}

#[test]
fn plan_fails_without_container_or_installation() {
    let b = binding(Some("1"));
    assert!(plan_binding_resolution(&b, &None, &some(BASE), &some(INSTALLATIONS)).is_none());
    assert!(plan_binding_resolution(&b, &some("{}"), &some(BASE), &some(INSTALLATIONS)).is_none());
    assert!(plan_binding_resolution(&b, &some(VIRTUAL), &None, &some(INSTALLATIONS)).is_none());
    assert!(plan_binding_resolution(&b, &some(VIRTUAL), &some(BASE), &some("not json")).is_none());
}

#[test]
fn finish_takes_first_existing_wine() {
    let b = binding(Some("1"));
    let plan = plan_binding_resolution(&b, &some(VIRTUAL), &some(BASE), &some(INSTALLATIONS)).unwrap();
    let install = finish_binding_resolution(&b, plan, some("/games/GameLibrary/steamapps/common/Zeepkist"), true, &vec![false, true])
        .expect("install");
    assert_eq!(install.game_dir, "/games/GameLibrary/steamapps/common/Zeepkist");
    assert_eq!(install.wine, "/support/wine/10000073/bin/wine");
    assert_eq!(install.prefix, "/support/virtual_containers/1");
    assert_eq!(install.virtual_container_id, "1");
    assert_eq!(install.label, "GameHub (gamehub-1)");
}

#[test]
fn finish_needs_game_dir_user_reg_and_wine() {
    let b = binding(Some("1"));
    let plan = || plan_binding_resolution(&b, &some(VIRTUAL), &some(BASE), &some(INSTALLATIONS)).unwrap();
    assert!(finish_binding_resolution(&b, plan(), None, true, &vec![true, true]).is_none());
    assert!(finish_binding_resolution(&b, plan(), some("/g"), false, &vec![true, true]).is_none());
    assert!(finish_binding_resolution(&b, plan(), some("/g"), true, &vec![false, false]).is_none());
}
