use dev_env_lib::{generate_docker_compose, AppState, ComposeService, ConfigEntry, NamedService,
    Project, Service};

fn svc(name: &str) -> Service {
    Service {
        name: name.to_string(),
        image: format!("{}:latest", name),
        ports: vec![],
        volumes: vec![],
        global: false,
        dependencies: vec![],
        config: vec![],
    }
}

fn entry<'a>(services: &'a [NamedService], name: &str) -> &'a ComposeService {
    &services.iter().find(|s| s.name == name).expect("entry missing").entry
}

#[test]
fn the_manifest_opens_with_the_edge_proxy() {
    let state = AppState::new();
    let m = generate_docker_compose(&state);
    assert_eq!(m.version, "3");
    assert_eq!(m.services.len(), 1);
    let traefik = entry(&m.services, "traefik");
    assert_eq!(traefik.image, "traefik:latest");
    assert_eq!(traefik.restart.as_deref(), Some("always"));
    assert_eq!(
        traefik.ports.as_ref().unwrap(),
        &vec!["80:80".to_string(), "443:443".to_string(), "8080:8080".to_string()]
    );
    assert_eq!(
        traefik.volumes.as_ref().unwrap(),
        &vec![
            "/var/run/docker.sock:/var/run/docker.sock".to_string(),
            "./traefik/config:/etc/traefik".to_string(),
            "./traefik/certs:/etc/certs".to_string(),
        ]
    );
    assert_eq!(traefik.networks, vec!["dev_env_network".to_string()]);
    assert_eq!(m.networks.len(), 1);
    assert_eq!(m.networks[0].name, "dev_env_network");
    assert_eq!(m.networks[0].driver, "bridge");
    assert!(m.volumes.is_none());
}

#[test]
fn a_service_with_empty_ports_has_no_ports_field() {
    let mut state = AppState::new();
    state.add_service(svc("db")).unwrap();
    let m = generate_docker_compose(&state);
    let db = entry(&m.services, "db");
    assert!(db.ports.is_none());
    assert!(db.volumes.is_none());
    assert!(db.depends_on.is_none());
    assert!(db.environment.is_none());
    assert_eq!(db.image, "db:latest");
}

#[test]
fn non_empty_service_fields_are_emitted() {
    let mut state = AppState::new();
    let mut db = svc("db");
    db.ports = vec!["3306:3306".to_string()];
    db.config = vec![ConfigEntry { key: "A".to_string(), value: "1".to_string() }];
    state.add_service(db).unwrap();
    let mut web = svc("web");
    web.dependencies = vec!["db".to_string()];
    state.add_service(web).unwrap();
    let m = generate_docker_compose(&state);
    let db_entry = entry(&m.services, "db");
    assert_eq!(db_entry.ports.as_ref().unwrap(), &vec!["3306:3306".to_string()]);
    let env = db_entry.environment.as_ref().unwrap();
    assert_eq!(env.len(), 1);
    assert_eq!(env[0].key, "A");
    let web_entry = entry(&m.services, "web");
    assert_eq!(web_entry.depends_on.as_ref().unwrap(), &vec!["db".to_string()]);
}

#[test]
fn named_volumes_are_collected_and_host_paths_are_not() {
    let mut state = AppState::new();
    let mut cache = svc("cache");
    cache.volumes = vec!["cache_data:/data".to_string()];
    state.add_service(cache).unwrap();
    let mut app = svc("app");
    app.volumes = vec!["./app:/data".to_string(), "/srv/app:/srv".to_string()];
    state.add_service(app).unwrap();
    let m = generate_docker_compose(&state);
    assert_eq!(m.volumes.as_ref().unwrap(), &vec!["cache_data".to_string()]);
}

#[test]
fn duplicate_named_volumes_are_registered_once() {
    let mut state = AppState::new();
    let mut a = svc("a");
    a.volumes = vec!["shared:/one".to_string(), "shared:/two".to_string()];
    state.add_service(a).unwrap();
    let mut b = svc("b");
    b.volumes = vec!["shared:/three".to_string(), "other:/x".to_string()];
    state.add_service(b).unwrap();
    let m = generate_docker_compose(&state);
    assert_eq!(m.volumes.as_ref().unwrap(), &vec!["shared".to_string(), "other".to_string()]);
}

#[test]
fn a_project_yields_a_runtime_and_a_server_tier() {
    let mut state = AppState::new();
    state.add_project("My Blog".to_string(), vec![]).unwrap();
    let m = generate_docker_compose(&state);
    assert_eq!(m.services.len(), 3);

    let php = entry(&m.services, "php_my-blog");
    assert_eq!(php.image, "php:8.2-fpm");
    assert_eq!(
        php.volumes.as_ref().unwrap(),
        &vec!["./projects/my-blog:/var/www/html".to_string()]
    );
    assert_eq!(php.networks, vec!["dev_env_network".to_string()]);

    let nginx = entry(&m.services, "nginx_my-blog");
    assert_eq!(nginx.image, "nginx:latest");
    assert_eq!(
        nginx.volumes.as_ref().unwrap(),
        &vec![
            "./projects/my-blog:/var/www/html".to_string(),
            "./nginx/my-blog.conf:/etc/nginx/conf.d/default.conf".to_string(),
        ]
    );
    assert_eq!(nginx.depends_on.as_ref().unwrap(), &vec!["php_my-blog".to_string()]);
    let labels = nginx.labels.as_ref().unwrap();
    assert_eq!(labels.len(), 3);
    assert_eq!(labels[0].key, "traefik.enable");
    assert_eq!(labels[0].value, "true");
    assert_eq!(labels[1].key, "traefik.http.routers.my-blog.rule");
    assert_eq!(labels[1].value, "Host(`my-blog.local.test`)");
    assert_eq!(labels[2].key, "traefik.http.routers.my-blog.tls");
    assert_eq!(labels[2].value, "true");
}

#[test]
fn a_url_without_the_https_scheme_is_used_verbatim_in_the_rule() {
    let state = AppState {
        services: vec![],
        projects: vec![Project {
            name: "Legacy".to_string(),
            slug: "legacy".to_string(),
            services: vec![],
            url: "legacy.local.test".to_string(),
            environment: vec![],
        }],
    };
    let m = generate_docker_compose(&state);
    let nginx = entry(&m.services, "nginx_legacy");
    let labels = nginx.labels.as_ref().unwrap();
    assert_eq!(labels[1].value, "Host(`legacy.local.test`)");
}

#[test]
fn entries_keep_registry_order() {
    let mut state = AppState::new();
    state.add_service(svc("db")).unwrap();
    state.add_service(svc("cache")).unwrap();
    state.add_project("Shop".to_string(), vec![]).unwrap();
    let m = generate_docker_compose(&state);
    let names: Vec<&str> = m.services.iter().map(|s| s.name.as_str()).collect();
    assert_eq!(names, vec!["traefik", "db", "cache", "php_shop", "nginx_shop"]);
}
