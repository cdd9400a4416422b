use dev_env_lib::{check_hosts_entries, default_index_php, generate_traefik_config,
    nginx_config_for, parse_cpu_model, parse_mem_total_bytes, parse_os_release_pretty_name,
    setup_hosts, TraefikLayout};

#[test]
fn a_fresh_layout_gets_config_and_certificate() {
    let layout = TraefikLayout { config_exists: false, cert_exists: false, key_exists: false };
    let plan = generate_traefik_config(layout);
    let config = plan.config_write.expect("config should be written");
    assert!(config.contains("dashboard = true"));
    assert!(config.contains("level = \"INFO\""));
    assert!(config.contains("exposedByDefault = false"));
    assert!(config.contains("network = \"dev_env_network\""));
    assert!(config.contains("to = \"websecure\""));
    assert!(config.contains("certFile = \"/etc/certs/local.test.crt\""));
    assert!(config.contains("main = \"*.local.test\""));
    assert!(config.contains("sans = [\"local.test\"]"));
    assert!(plan.generate_certificate);
}

#[test]
fn an_existing_config_is_never_overwritten() {
    let layout = TraefikLayout { config_exists: true, cert_exists: true, key_exists: true };
    let plan = generate_traefik_config(layout);
    assert!(plan.config_write.is_none());
    assert!(!plan.generate_certificate);
}

#[test]
fn a_missing_key_alone_regenerates_the_pair() {
    let layout = TraefikLayout { config_exists: true, cert_exists: true, key_exists: false };
    let plan = generate_traefik_config(layout);
    assert!(plan.config_write.is_none());
    assert!(plan.generate_certificate);
}

#[test]
fn bootstrapping_twice_writes_nothing_the_second_time() {
    for config in [false, true] {
        for cert in [false, true] {
            for key in [false, true] {
                let layout = TraefikLayout {
                    config_exists: config,
                    cert_exists: cert,
                    key_exists: key,
                };
                let first = generate_traefik_config(layout);
                let after = TraefikLayout {
                    config_exists: layout.config_exists || first.config_write.is_some(),
                    cert_exists: layout.cert_exists || first.generate_certificate,
                    key_exists: layout.key_exists || first.generate_certificate,
                };
                let second = generate_traefik_config(after);
                assert!(second.config_write.is_none());
                assert!(!second.generate_certificate);
            }
        }
    }
}

#[test]
fn missing_hosts_entries_are_reported_in_order() {
    let content = "127.0.0.1 local.test\n127.0.0.1 traefik.local.test\n";
    let missing = setup_hosts(content, "local.test");
    assert_eq!(
        missing,
        vec![
            "127.0.0.1 pma.local.test".to_string(),
            "127.0.0.1 mail.local.test".to_string(),
        ]
    );
}

#[test]
fn a_complete_hosts_file_needs_no_change() {
    let content = "127.0.0.1 local.test\n127.0.0.1 traefik.local.test\n\
                   127.0.0.1 pma.local.test\n127.0.0.1 mail.local.test\n";
    assert!(setup_hosts(content, "local.test").is_empty());
}

#[test]
fn entry_status_reports_presence_per_entry() {
    let content = "127.0.0.1 local.test\n";
    let status = check_hosts_entries(content, "local.test");
    assert_eq!(status.len(), 4);
    assert_eq!(status[0], ("127.0.0.1 local.test".to_string(), true));
    assert_eq!(status[1], ("127.0.0.1 traefik.local.test".to_string(), false));
    assert_eq!(status[2], ("127.0.0.1 pma.local.test".to_string(), false));
    assert_eq!(status[3], ("127.0.0.1 mail.local.test".to_string(), false));
}

#[test]
fn pretty_name_is_read_and_unquoted() {
    let text = "NAME=\"Debian GNU/Linux\"\nPRETTY_NAME=\"Debian GNU/Linux 12 (bookworm)\"\n";
    assert_eq!(
        parse_os_release_pretty_name(text),
        Some("Debian GNU/Linux 12 (bookworm)".to_string())
    );
    assert_eq!(parse_os_release_pretty_name("NAME=only\n"), None);
}

#[test]
fn cpu_model_is_read_after_the_colon() {
    let text = "processor\t: 0\nmodel name\t: Example CPU @ 2.40GHz\nflags\t: fpu\n";
    assert_eq!(parse_cpu_model(text), Some("Example CPU @ 2.40GHz".to_string()));
    assert_eq!(parse_cpu_model("vendor_id : x\n"), None);
}

#[test]
fn mem_total_is_scaled_to_bytes() {
    let text = "MemTotal:       16384 kB\nMemFree:        1024 kB\n";
    assert_eq!(parse_mem_total_bytes(text), Some(16384 * 1024));
}

#[test]
fn unparseable_or_overflowing_memory_is_none() {
    assert_eq!(parse_mem_total_bytes("MemTotal: lots kB\n"), None);
    assert_eq!(parse_mem_total_bytes("NoSuchLine: 1 kB\n"), None);
    assert_eq!(parse_mem_total_bytes("MemTotal: 99999999999999999999 kB\n"), None);
    assert_eq!(parse_mem_total_bytes("MemTotal: 18446744073709551615 kB\n"), None);
}

#[test]
fn the_landing_page_greets_with_the_display_name() {
    let page = default_index_php("My Blog");
    assert_eq!(
        page,
        "<?php\necho '<h1>Project: My Blog</h1>';\necho '<p>PHP version: ' . phpversion() . '</p>';\n\n"
    );
}

#[test]
fn the_routing_file_passes_php_to_the_runtime_tier() {
    let conf = nginx_config_for("my-blog");
    assert!(conf.contains("listen 80;"));
    assert!(conf.contains("root /var/www/html;"));
    assert!(conf.contains("fastcgi_pass php_my-blog:9000;"));
    assert!(conf.contains("try_files $uri $uri/ /index.php?$query_string;"));
}
