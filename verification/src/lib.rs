//! A verified compiler from a declarative registry of infrastructure
//! services and web projects to a container-orchestration manifest,
//! together with the slug normalizer, dependency validator, predefined
//! service catalog, edge-proxy bootstrap planner and host-file helpers
//! that surround it.

pub mod catalog;
pub mod compose;
pub mod hosts;
pub mod registry;
pub mod slug;
pub mod strutil;
pub mod sysinfo;
pub mod templates;
pub mod traefik;

pub use catalog::get_predefined_services;
pub use catalog::PredefinedService;
pub use compose::generate_docker_compose;
pub use compose::ComposeService;
pub use compose::Manifest;
pub use compose::NamedService;
pub use compose::NetworkDef;
pub use hosts::check_hosts_entries;
pub use hosts::setup_hosts;
pub use registry::AppState;
pub use registry::ConfigEntry;
pub use registry::Project;
pub use registry::RegistryError;
pub use registry::Service;
pub use slug::generate_project_url;
pub use slug::normalize_slug;
pub use sysinfo::parse_cpu_model;
pub use sysinfo::parse_mem_total_bytes;
pub use sysinfo::parse_os_release_pretty_name;
pub use sysinfo::SystemInfo;
pub use templates::default_index_php;
pub use templates::nginx_config_for;
pub use traefik::generate_traefik_config;
pub use traefik::TraefikLayout;
pub use traefik::TraefikPlan;
