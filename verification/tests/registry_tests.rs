use dev_env_lib::{AppState, ConfigEntry, RegistryError, Service};

fn svc(name: &str) -> Service {
    Service {
        name: name.to_string(),
        image: format!("{}:latest", name),
        ports: vec![],
        volumes: vec![],
        global: false,
        dependencies: vec![],
        config: vec![],
    }
}

fn svc_with_deps(name: &str, deps: &[&str]) -> Service {
    let mut s = svc(name);
    s.dependencies = deps.iter().map(|d| d.to_string()).collect();
    s
}

#[test]
fn adding_a_service_succeeds_once() {
    let mut state = AppState::new();
    assert!(state.add_service(svc("db")).is_ok());
    assert_eq!(state.list_services().len(), 1);
}

#[test]
fn adding_a_duplicate_name_fails_with_duplicate_name() {
    let mut state = AppState::new();
    state.add_service(svc("db")).unwrap();
    let r = state.add_service(svc("db"));
    assert_eq!(r, Err(RegistryError::DuplicateName("db".to_string())));
    assert_eq!(state.list_services().len(), 1);
}

#[test]
fn adding_with_unknown_dependency_fails() {
    let mut state = AppState::new();
    let r = state.add_service(svc_with_deps("web", &["db"]));
    assert_eq!(r, Err(RegistryError::UnknownDependency("db".to_string())));
    assert!(state.list_services().is_empty());
}

#[test]
fn a_self_dependency_is_rejected() {
    let mut state = AppState::new();
    let r = state.add_service(svc_with_deps("web", &["web"]));
    assert_eq!(r, Err(RegistryError::UnknownDependency("web".to_string())));
}

#[test]
fn removing_a_dependency_of_another_service_fails_with_service_in_use() {
    let mut state = AppState::new();
    state.add_service(svc("db")).unwrap();
    state.add_service(svc_with_deps("web", &["db"])).unwrap();
    let r = state.remove_service("db".to_string());
    assert_eq!(r, Err(RegistryError::ServiceInUse(vec!["web".to_string()])));
    assert_eq!(state.list_services().len(), 2);
}

#[test]
fn removing_a_service_detaches_it_from_projects() {
    let mut state = AppState::new();
    state.add_service(svc("cache")).unwrap();
    state.add_project("Shop".to_string(), vec![]).unwrap();
    state.add_service_to_project("Shop".to_string(), "cache".to_string()).unwrap();
    assert_eq!(state.get_project_details("Shop".to_string()).unwrap().services, vec![
        "cache".to_string()
    ]);
    state.remove_service("cache".to_string()).unwrap();
    let p = state.get_project_details("Shop".to_string()).unwrap();
    assert!(p.services.is_empty());
    assert!(state.get_service_details("cache".to_string()).is_none());
}

#[test]
fn removing_an_unknown_service_fails_with_not_found() {
    let mut state = AppState::new();
    let r = state.remove_service("ghost".to_string());
    assert_eq!(r, Err(RegistryError::NotFound("ghost".to_string())));
}

#[test]
fn updating_a_service_replaces_its_definition() {
    let mut state = AppState::new();
    state.add_service(svc("db")).unwrap();
    let mut updated = svc("db");
    updated.image = "db:9".to_string();
    state.update_service(updated).unwrap();
    assert_eq!(state.get_service_details("db".to_string()).unwrap().image, "db:9");
}

#[test]
fn updating_an_unknown_service_fails_with_not_found() {
    let mut state = AppState::new();
    let r = state.update_service(svc("ghost"));
    assert_eq!(r, Err(RegistryError::NotFound("ghost".to_string())));
}

#[test]
fn adding_a_project_derives_slug_and_url() {
    let mut state = AppState::new();
    state.add_project("My Blog".to_string(), vec![]).unwrap();
    let p = state.get_project_details("My Blog".to_string()).unwrap();
    assert_eq!(p.slug, "my-blog");
    assert_eq!(p.url, "https://my-blog.local.test");
    assert_eq!(p.name, "My Blog");
    assert!(p.services.is_empty());
}

#[test]
fn adding_a_project_with_a_colliding_slug_fails() {
    let mut state = AppState::new();
    state.add_project("My Blog".to_string(), vec![]).unwrap();
    let r = state.add_project("my blog".to_string(), vec![]);
    assert_eq!(r, Err(RegistryError::DuplicateSlug("my-blog".to_string())));
}

#[test]
fn removing_a_project_deletes_it() {
    let mut state = AppState::new();
    state.add_project("Shop".to_string(), vec![]).unwrap();
    state.remove_project("Shop".to_string()).unwrap();
    assert!(state.list_projects().is_empty());
    assert_eq!(
        state.remove_project("Shop".to_string()),
        Err(RegistryError::NotFound("Shop".to_string()))
    );
}

#[test]
fn updating_a_project_replaces_its_environment() {
    let mut state = AppState::new();
    state.add_project("Shop".to_string(), vec![]).unwrap();
    let env = vec![ConfigEntry { key: "APP_ENV".to_string(), value: "dev".to_string() }];
    state.update_project("Shop".to_string(), env).unwrap();
    let p = state.get_project_details("Shop".to_string()).unwrap();
    assert_eq!(p.environment.len(), 1);
    assert_eq!(p.environment[0].key, "APP_ENV");
    assert_eq!(p.environment[0].value, "dev");
}

#[test]
fn attaching_an_unknown_service_to_a_project_fails() {
    let mut state = AppState::new();
    state.add_project("Shop".to_string(), vec![]).unwrap();
    let r = state.add_service_to_project("Shop".to_string(), "ghost".to_string());
    assert_eq!(r, Err(RegistryError::NotFound("ghost".to_string())));
}

#[test]
fn attaching_to_an_unknown_project_fails() {
    let mut state = AppState::new();
    state.add_service(svc("db")).unwrap();
    let r = state.add_service_to_project("Shop".to_string(), "db".to_string());
    assert_eq!(r, Err(RegistryError::NotFound("Shop".to_string())));
}

#[test]
fn attaching_twice_is_a_no_op_not_an_error() {
    let mut state = AppState::new();
    state.add_service(svc("db")).unwrap();
    state.add_project("Shop".to_string(), vec![]).unwrap();
    state.add_service_to_project("Shop".to_string(), "db".to_string()).unwrap();
    state.add_service_to_project("Shop".to_string(), "db".to_string()).unwrap();
    let p = state.get_project_details("Shop".to_string()).unwrap();
    assert_eq!(p.services, vec!["db".to_string()]);
}

#[test]
fn detaching_a_service_from_a_project() {
    let mut state = AppState::new();
    state.add_service(svc("db")).unwrap();
    state.add_project("Shop".to_string(), vec![]).unwrap();
    state.add_service_to_project("Shop".to_string(), "db".to_string()).unwrap();
    state.remove_service_from_project("Shop".to_string(), "db".to_string()).unwrap();
    let p = state.get_project_details("Shop".to_string()).unwrap();
    assert!(p.services.is_empty());
}

#[test]
fn updating_with_an_unknown_dependency_fails() {
    let mut state = AppState::new();
    state.add_service(svc("db")).unwrap();
    let r = state.update_service(svc_with_deps("db", &["ghost"]));
    assert_eq!(r, Err(RegistryError::UnknownDependency("ghost".to_string())));
    assert!(state.get_service_details("db".to_string()).unwrap().dependencies.is_empty());
}

#[test]
fn lookups_miss_cleanly() {
    let state = AppState::new();
    assert!(state.get_service_details("db".to_string()).is_none());
    assert!(state.get_project_details("Shop".to_string()).is_none());
}
