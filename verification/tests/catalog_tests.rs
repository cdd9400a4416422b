use dev_env_lib::{get_predefined_services, AppState, RegistryError};

#[test]
fn the_catalog_has_its_four_templates_in_order() {
    let templates = get_predefined_services();
    let names: Vec<&str> = templates.iter().map(|t| t.name.as_str()).collect();
    assert_eq!(names, vec!["mysql8", "Redis", "PhpMyAdmin", "MailHog"]);
}

#[test]
fn the_database_template_expands_without_ports_and_with_config() {
    let templates = get_predefined_services();
    let mysql = &templates[0];
    assert_eq!(mysql.image, "mysql:8");
    assert_eq!(mysql.port, Some(3306));
    assert!(!mysql.requires_traefik);
    let service = mysql.to_service();
    assert_eq!(service.name, "mysql8");
    assert!(service.ports.is_empty());
    assert!(!service.config.is_empty());
    assert!(service.global);
    assert!(service.dependencies.is_empty());
    assert_eq!(service.volumes, vec!["mysql8_data:/var/lib/mysql".to_string()]);
    assert_eq!(service.config.len(), 5);
    assert_eq!(service.config[0].key, "MYSQL_ROOT_PASSWORD");
    assert_eq!(service.config[0].value, "root_password");
}

#[test]
fn a_proxied_template_gains_the_three_proxy_labels() {
    let templates = get_predefined_services();
    let pma = templates.iter().find(|t| t.name == "PhpMyAdmin").unwrap();
    assert!(pma.requires_traefik);
    let service = pma.to_service();
    assert!(service.ports.is_empty());
    let get = |key: &str| {
        service.config.iter().find(|e| e.key == key).map(|e| e.value.clone())
    };
    assert_eq!(get("traefik.enable"), Some("true".to_string()));
    assert_eq!(
        get("traefik.http.routers.phpmyadmin.rule"),
        Some("Host(`phpmyadmin.local.test`)".to_string())
    );
    assert_eq!(
        get("traefik.http.services.phpmyadmin.loadbalancer.server.port"),
        Some("80".to_string())
    );
    assert_eq!(get("PMA_HOSTS"), Some("mysql8".to_string()));
}

#[test]
fn the_mail_template_gets_its_port_label_in_decimal() {
    let templates = get_predefined_services();
    let mailhog = templates.iter().find(|t| t.name == "MailHog").unwrap();
    let service = mailhog.to_service();
    let port = service
        .config
        .iter()
        .find(|e| e.key == "traefik.http.services.mailhog.loadbalancer.server.port")
        .unwrap();
    assert_eq!(port.value, "8025");
}

#[test]
fn an_unproxied_template_keeps_its_environment_untouched() {
    let templates = get_predefined_services();
    let redis = templates.iter().find(|t| t.name == "Redis").unwrap();
    let service = redis.to_service();
    assert!(service.config.is_empty());
    assert!(service.ports.is_empty());
    assert!(service.volumes.is_empty());
    assert!(service.global);
}

#[test]
fn adding_a_predefined_service_registers_it() {
    let mut state = AppState::new();
    state.add_predefined_service("mysql8".to_string()).unwrap();
    let s = state.get_service_details("mysql8".to_string()).unwrap();
    assert!(s.global);
    assert_eq!(s.image, "mysql:8");
}

#[test]
fn adding_an_unknown_template_fails_with_not_found() {
    let mut state = AppState::new();
    let r = state.add_predefined_service("nats".to_string());
    assert_eq!(r, Err(RegistryError::NotFound("nats".to_string())));
}

#[test]
fn adding_a_predefined_service_twice_fails_with_duplicate_name() {
    let mut state = AppState::new();
    state.add_predefined_service("Redis".to_string()).unwrap();
    let r = state.add_predefined_service("Redis".to_string());
    assert_eq!(r, Err(RegistryError::DuplicateName("Redis".to_string())));
}
