//! The predefined service catalog: a fixed list of ready-made service
//! templates and the deterministic rule that expands a template into a
//! concrete `Service`, including the conditional reverse-proxy labels.

use vstd::prelude::*;
use vstd::string::{StrSliceExecFns, StringExecFns};

use crate::registry::{clone_config, clone_strings, first_invalid_dep, has_service, AppState,
    ConfigEntry, ConfigEntryView, RegistryError, Service, ServiceView};
use crate::slug::base_domain;
use crate::strutil::{concat_strs, push_char, str_eq};

verus! {

/// A ready-made service template: name, image, human description, an
/// optionally exposed port, whether the service is routed through the
/// edge proxy, and default environment and volumes.
#[derive(Debug, PartialEq, Eq)]
pub struct PredefinedService {
    pub name: String,
    pub image: String,
    pub description: String,
    pub port: Option<u16>,
    pub requires_traefik: bool,
    pub environment: Vec<ConfigEntry>,
    pub volumes: Vec<String>,
}

pub ghost struct PredefinedServiceView {
    pub name: Seq<char>,
    pub image: Seq<char>,
    pub description: Seq<char>,
    pub port: Option<u16>,
    pub requires_traefik: bool,
    pub environment: Seq<ConfigEntryView>,
    pub volumes: Seq<Seq<char>>,
}

impl View for PredefinedService {
    type V = PredefinedServiceView;

    open spec fn view(&self) -> PredefinedServiceView {
        (PredefinedServiceView {
            name: self.name@,
            image: self.image@,
            description: self.description@,
            port: self.port,
            requires_traefik: self.requires_traefik,
            environment: self.environment.deep_view(),
            volumes: self.volumes.deep_view(),
        })
    }
}

impl DeepView for PredefinedService {
    type V = PredefinedServiceView;

    open spec fn deep_view(&self) -> PredefinedServiceView {
        self.view()
    }
}

/// An ASCII uppercase letter lowered; every other character unchanged.
pub open spec fn ascii_lower_char(c: char) -> char {
    if 'A' <= c && c <= 'Z' {
        (((c as u8) + 32) as char)
    } else {
        c
    }
}

/// Every ASCII uppercase letter of the sequence lowered.
pub open spec fn lower_seq(s: Seq<char>) -> Seq<char> {
    s.map_values(|c: char| ascii_lower_char(c))
}

/// Lowers the ASCII uppercase letters of a string.
fn ascii_lowercase(s: &str) -> (r: String)
    ensures
        r@ == lower_seq(s@),
{
    let n = s.unicode_len();
    let mut r = String::new();
    let mut i: usize = 0;
    while i < n
        invariant
            i <= n,
            n == s@.len(),
            r@ == lower_seq(s@.subrange(0, i as int)),
        decreases n - i,
    {
        let c = s.get_char(i);
        let m = if 'A' <= c && c <= 'Z' {
            ((c as u8) + 32) as char
        } else {
            c
        };
        push_char(&mut r, m);
        proof {
            let pre1 = s@.subrange(0, i + 1);
            assert(pre1.drop_last() =~= s@.subrange(0, i as int));
            assert(pre1.last() == s@[i as int]);
            assert(lower_seq(pre1) =~= lower_seq(s@.subrange(0, i as int)).push(
                ascii_lower_char(s@[i as int]),
            ));
        }
        i = i + 1;
    }
    proof {
        assert(s@.subrange(0, n as int) =~= s@);
    }
    r
}

/// The character of one decimal digit.
pub open spec fn digit_char(d: int) -> char {
    ((('0' as u8) + d) as char)
}

/// The decimal digits of a number, most significant first.
pub open spec fn dec_digits(n: int) -> Seq<char>
    decreases n,
{
    if n < 10 {
        seq![digit_char(n)]
    } else {
        dec_digits(n / 10).push(digit_char(n % 10))
    }
}

/// Renders a port number in decimal.
fn u16_to_string(n: u16) -> (r: String)
    ensures
        r@ == dec_digits(n as int),
    decreases n,
{
    if n < 10 {
        let mut s = String::new();
        push_char(&mut s, (('0' as u8) + (n as u8)) as char);
        proof {
            assert(s@ =~= seq![digit_char(n as int)]);
        }
        s
    } else {
        let mut s = u16_to_string(n / 10);
        push_char(&mut s, (('0' as u8) + ((n % 10) as u8)) as char);
        s
    }
}

/// Whether the mapping has an entry under this key.
pub open spec fn has_key(m: Seq<ConfigEntryView>, key: Seq<char>) -> bool {
    exists|j: int| 0 <= j < m.len() && m[j].key == key
}

/// The mapping with this key bound to this value: an existing entry is
/// overwritten in place, a new one is appended.
pub open spec fn kv_set(m: Seq<ConfigEntryView>, key: Seq<char>, value: Seq<char>) -> Seq<
    ConfigEntryView,
> {
    if has_key(m, key) {
        m.map_values(
            |e: ConfigEntryView|
                if e.key == key {
                    (ConfigEntryView { key: key, value: value })
                } else {
                    e
                },
        )
    } else {
        m.push((ConfigEntryView { key: key, value: value }))
    }
}

fn has_key_exec(m: &Vec<ConfigEntry>, key: &str) -> (r: bool)
    ensures
        r == has_key(m.deep_view(), key@),
{
    let mut i: usize = 0;
    while i < m.len()
        invariant
            i <= m.len(),
            forall|j: int| 0 <= j < i ==> m.deep_view()[j].key != key@,
        decreases m.len() - i,
    {
        if str_eq(m[i].key.as_str(), key) {
            proof {
                assert(m.deep_view()[i as int].key == key@);
            }
            return true;
        }
        i = i + 1;
    }
    false
}

/// Binds `key` to `value` in the mapping, overwriting an existing entry
/// and appending a new one otherwise.
fn kv_set_exec(m: &mut Vec<ConfigEntry>, key: String, value: String)
    ensures
        final(m).deep_view() == kv_set(old(m).deep_view(), key@, value@),
{
    if has_key_exec(m, key.as_str()) {
        let mut r: Vec<ConfigEntry> = Vec::new();
        let mut i: usize = 0;
        while i < m.len()
            invariant
                i <= m.len(),
                m == old(m),
                has_key(old(m).deep_view(), key@),
                r.len() == i,
                forall|j: int|
                    0 <= j < i ==> r.deep_view()[j] == #[trigger] kv_set(
                        old(m).deep_view(),
                        key@,
                        value@,
                    )[j],
            decreases m.len() - i,
        {
            if str_eq(m[i].key.as_str(), key.as_str()) {
                r.push(ConfigEntry { key: key.clone(), value: value.clone() });
            } else {
                r.push(m[i].clone());
            }
            i = i + 1;
        }
        *m = r;
        proof {
            assert(m.deep_view() =~= kv_set(old(m).deep_view(), key@, value@));
        }
    } else {
        let ghost before = m.deep_view();
        let ghost kv = key@;
        let ghost vv = value@;
        m.push(ConfigEntry { key, value });
        proof {
            assert(m.deep_view() =~= before.push((ConfigEntryView { key: kv, value: vv })));
        }
    }
}

/// The key of the hostname routing-rule label for this router name.
pub open spec fn router_rule_key(lower: Seq<char>) -> Seq<char> {
    "traefik.http.routers."@ + lower + ".rule"@
}

/// The hostname routing rule targeting the service's subdomain of the
/// base domain.
pub open spec fn router_rule_value(lower: Seq<char>) -> Seq<char> {
    "Host(`"@ + lower + "."@ + base_domain() + "`)"@
}

/// The key of the load-balancer target-port label for this router name.
pub open spec fn lb_port_key(lower: Seq<char>) -> Seq<char> {
    "traefik.http.services."@ + lower + ".loadbalancer.server.port"@
}

/// The expansion of a template into a concrete service: name, image,
/// volumes and environment taken over, no ports, no dependencies, the
/// global flag set; when the template declares a port and requires the
/// edge proxy, the three proxy labels keyed by the lowercased name are
/// merged into the configuration.  A declared port without the proxy
/// requirement is dropped.
pub open spec fn expanded_service(t: PredefinedServiceView) -> ServiceView {
    let base = ServiceView {
        name: t.name,
        image: t.image,
        ports: Seq::empty(),
        volumes: t.volumes,
        global: true,
        dependencies: Seq::empty(),
        config: t.environment,
    };
    if t.port is Some && t.requires_traefik {
        let lower = lower_seq(t.name);
        ServiceView {
            config: kv_set(
                kv_set(
                    kv_set(t.environment, "traefik.enable"@, "true"@),
                    router_rule_key(lower),
                    router_rule_value(lower),
                ),
                lb_port_key(lower),
                dec_digits(t.port->0 as int),
            ),
            ..base
        }
    } else {
        base
    }
}

impl PredefinedService {
    /// Expands the template into a concrete service.
    pub fn to_service(&self) -> (r: Service)
        ensures
            r@ == expanded_service(self@),
    {
        let mut service = Service {
            name: self.name.clone(),
            image: self.image.clone(),
            ports: Vec::new(),
            volumes: clone_strings(&self.volumes),
            global: true,
            dependencies: Vec::new(),
            config: clone_config(&self.environment),
        };
        proof {
            assert(service@.ports =~= Seq::<Seq<char>>::empty());
            assert(service@.dependencies =~= Seq::<Seq<char>>::empty());
        }
        if let Some(port) = self.port {
            if self.requires_traefik {
                let lower = ascii_lowercase(self.name.as_str());
                kv_set_exec(&mut service.config, "traefik.enable".to_owned(), "true".to_owned());
                kv_set_exec(
                    &mut service.config,
                    concat_strs(
                        concat_strs("traefik.http.routers.", lower.as_str()).as_str(),
                        ".rule",
                    ),
                    concat_strs(
                        concat_strs(
                            concat_strs(concat_strs("Host(`", lower.as_str()).as_str(), ".").as_str(),
                            "local.test",
                        ).as_str(),
                        "`)",
                    ),
                );
                kv_set_exec(
                    &mut service.config,
                    concat_strs(
                        concat_strs("traefik.http.services.", lower.as_str()).as_str(),
                        ".loadbalancer.server.port",
                    ),
                    u16_to_string(port),
                );
            }
        }
        service
    }
}

/// The database template: MySQL with its default credentials and a
/// named data volume, not routed through the edge proxy.
pub open spec fn mysql_template() -> PredefinedServiceView {
    (PredefinedServiceView {
        name: "mysql8"@,
        image: "mysql:8"@,
        description: "MySQL 8 Database Server"@,
        port: Some(3306u16),
        requires_traefik: false,
        environment: seq![
            (ConfigEntryView { key: "MYSQL_ROOT_PASSWORD"@, value: "root_password"@ }),
            (ConfigEntryView { key: "MYSQL_DATABASE"@, value: "dev_db"@ }),
            (ConfigEntryView { key: "MYSQL_USER"@, value: "dev_user"@ }),
            (ConfigEntryView { key: "MYSQL_PASSWORD"@, value: "dev_password"@ }),
            (ConfigEntryView { key: "MYSQL_ROOT_HOST"@, value: "%"@ }),
        ],
        volumes: seq!["mysql8_data:/var/lib/mysql"@],
    })
}

/// The cache template: Redis, no environment, no volumes, no proxy.
pub open spec fn redis_template() -> PredefinedServiceView {
    (PredefinedServiceView {
        name: "Redis"@,
        image: "redis:latest"@,
        description: "Redis Server"@,
        port: Some(6379u16),
        requires_traefik: false,
        environment: Seq::empty(),
        volumes: Seq::empty(),
    })
}

/// The admin-UI template: PhpMyAdmin, served through the edge proxy.
pub open spec fn phpmyadmin_template() -> PredefinedServiceView {
    (PredefinedServiceView {
        name: "PhpMyAdmin"@,
        image: "phpmyadmin/phpmyadmin"@,
        description: "PhpMyAdmin Database Management"@,
        port: Some(80u16),
        requires_traefik: true,
        environment: seq![
            (ConfigEntryView { key: "PMA_HOSTS"@, value: "mysql8"@ }),
            (ConfigEntryView { key: "MYSQL_ROOT_PASSWORD"@, value: "root_password"@ }),
        ],
        volumes: Seq::empty(),
    })
}

/// The mail-testing template: MailHog, served through the edge proxy.
pub open spec fn mailhog_template() -> PredefinedServiceView {
    (PredefinedServiceView {
        name: "MailHog"@,
        image: "mailhog/mailhog"@,
        description: "SMTP Testing Server"@,
        port: Some(8025u16),
        requires_traefik: true,
        environment: Seq::empty(),
        volumes: Seq::empty(),
    })
}

/// The whole catalog, in its fixed order.
pub open spec fn catalog() -> Seq<PredefinedServiceView> {
    seq![mysql_template(), redis_template(), phpmyadmin_template(), mailhog_template()]
}

fn push_entry(env: &mut Vec<ConfigEntry>, key: &str, value: &str)
    ensures
        final(env).deep_view() =~= old(env).deep_view().push(
            (ConfigEntryView { key: key@, value: value@ }),
        ),
{
    env.push(ConfigEntry { key: key.to_owned(), value: value.to_owned() });
}

/// The fixed, ordered list of predefined service templates.
pub fn get_predefined_services() -> (r: Vec<PredefinedService>)
    ensures
        r.deep_view() == catalog(),
{
    let mut r: Vec<PredefinedService> = Vec::new();
    let mut mysql_env: Vec<ConfigEntry> = Vec::new();
    push_entry(&mut mysql_env, "MYSQL_ROOT_PASSWORD", "root_password");
    push_entry(&mut mysql_env, "MYSQL_DATABASE", "dev_db");
    push_entry(&mut mysql_env, "MYSQL_USER", "dev_user");
    push_entry(&mut mysql_env, "MYSQL_PASSWORD", "dev_password");
    push_entry(&mut mysql_env, "MYSQL_ROOT_HOST", "%");
    let mut mysql_volumes: Vec<String> = Vec::new();
    mysql_volumes.push("mysql8_data:/var/lib/mysql".to_owned());
    proof {
        assert(mysql_env.deep_view() =~= mysql_template().environment);
        assert(mysql_volumes.deep_view() =~= mysql_template().volumes);
    }
    r.push(
        PredefinedService {
            name: "mysql8".to_owned(),
            image: "mysql:8".to_owned(),
            description: "MySQL 8 Database Server".to_owned(),
            port: Some(3306),
            requires_traefik: false,
            environment: mysql_env,
            volumes: mysql_volumes,
        },
    );
    let redis_env: Vec<ConfigEntry> = Vec::new();
    let redis_volumes: Vec<String> = Vec::new();
    proof {
        assert(redis_env.deep_view() =~= Seq::<ConfigEntryView>::empty());
        assert(redis_volumes.deep_view() =~= Seq::<Seq<char>>::empty());
    }
    r.push(
        PredefinedService {
            name: "Redis".to_owned(),
            image: "redis:latest".to_owned(),
            description: "Redis Server".to_owned(),
            port: Some(6379),
            requires_traefik: false,
            environment: redis_env,
            volumes: redis_volumes,
        },
    );
    let mut pma_env: Vec<ConfigEntry> = Vec::new();
    push_entry(&mut pma_env, "PMA_HOSTS", "mysql8");
    push_entry(&mut pma_env, "MYSQL_ROOT_PASSWORD", "root_password");
    let pma_volumes: Vec<String> = Vec::new();
    proof {
        assert(pma_env.deep_view() =~= phpmyadmin_template().environment);
        assert(pma_volumes.deep_view() =~= Seq::<Seq<char>>::empty());
    }
    r.push(
        PredefinedService {
            name: "PhpMyAdmin".to_owned(),
            image: "phpmyadmin/phpmyadmin".to_owned(),
            description: "PhpMyAdmin Database Management".to_owned(),
            port: Some(80),
            requires_traefik: true,
            environment: pma_env,
            volumes: pma_volumes,
        },
    );
    let mailhog_env: Vec<ConfigEntry> = Vec::new();
    let mailhog_volumes: Vec<String> = Vec::new();
    proof {
        assert(mailhog_env.deep_view() =~= Seq::<ConfigEntryView>::empty());
        assert(mailhog_volumes.deep_view() =~= Seq::<Seq<char>>::empty());
    }
    r.push(
        PredefinedService {
            name: "MailHog".to_owned(),
            image: "mailhog/mailhog".to_owned(),
            description: "SMTP Testing Server".to_owned(),
            port: Some(8025),
            requires_traefik: true,
            environment: mailhog_env,
            volumes: mailhog_volumes,
        },
    );
    proof {
        assert(r.deep_view() =~= catalog());
    }
    r
}

/// The first catalog template with this name, if any.
pub open spec fn template_named(ts: Seq<PredefinedServiceView>, name: Seq<char>) -> Option<
    PredefinedServiceView,
>
    decreases ts.len(),
{
    if ts.len() == 0 {
        None
    } else if ts[0].name == name {
        Some(ts[0])
    } else {
        template_named(ts.subrange(1, ts.len() as int), name)
    }
}

proof fn lemma_template_named(ts: Seq<PredefinedServiceView>, name: Seq<char>, k: int)
    requires
        0 <= k <= ts.len(),
        forall|j: int| 0 <= j < k ==> (#[trigger] ts[j]).name != name,
    ensures
        k == ts.len() ==> template_named(ts, name) is None,
        k < ts.len() && ts[k].name == name ==> template_named(ts, name) == Some(ts[k]),
    decreases ts.len(),
{
    if ts.len() > 0 && k > 0 {
        let rest = ts.subrange(1, ts.len() as int);
        assert(forall|j: int| 0 <= j < rest.len() ==> #[trigger] rest[j] == ts[j + 1]);
        lemma_template_named(rest, name, k - 1);
    }
}

impl AppState {
    /// Expands the named catalog template and adds the result to the
    /// registry.  Fails with `NotFound` when no template bears the
    /// name, and with `DuplicateName` when a service with the name
    /// already exists.
    pub fn add_predefined_service(&mut self, name: String) -> (r: Result<(), RegistryError>)
        requires
            old(self)@.wf(),
        ensures
            final(self)@.wf(),
            match r {
                Ok(()) => {
                    &&& template_named(catalog(), name@) matches Some(t)
                        && !has_service(old(self)@.services, t.name)
                        && final(self)@.services == old(self)@.services.push(expanded_service(t))
                    &&& final(self)@.projects == old(self)@.projects
                },
                Err(RegistryError::NotFound(n)) => n@ == name@ && template_named(catalog(), name@)
                    is None && final(self)@ == old(self)@,
                Err(RegistryError::DuplicateName(n)) => n@ == name@ && (template_named(
                    catalog(),
                    name@,
                ) matches Some(t)
                    && has_service(old(self)@.services, t.name)) && final(self)@ == old(self)@,
                Err(_) => false,
            },
    {
        let templates = get_predefined_services();
        let mut i: usize = 0;
        while i < templates.len()
            invariant
                i <= templates.len(),
                templates.deep_view() == catalog(),
                self == old(self),
                old(self)@.wf(),
                forall|j: int| 0 <= j < i ==> (#[trigger] catalog()[j]).name != name@,
            decreases templates.len() - i,
        {
            if str_eq(templates[i].name.as_str(), name.as_str()) {
                proof {
                    lemma_template_named(catalog(), name@, i as int);
                }
                let service = templates[i].to_service();
                let ghost sv = service@;
                let res = self.add_service(service);
                return match res {
                    Ok(()) => Ok(()),
                    Err(e) => {
                        proof {
                            assert(sv.dependencies =~= Seq::<Seq<char>>::empty());
                            assert(first_invalid_dep(
                                old(self)@.services,
                                sv.name,
                                sv.dependencies,
                            ) is None);
                        }
                        match e {
                            RegistryError::DuplicateName(_) => Err(
                                RegistryError::DuplicateName(name),
                            ),
                            _ => {
                                proof {
                                    assert(false);
                                }
                                Err(e)
                            },
                        }
                    },
                };
            }
            i = i + 1;
        }
        proof {
            lemma_template_named(catalog(), name@, catalog().len() as int);
        }
        Err(RegistryError::NotFound(name))
    }
}

} // verus!
