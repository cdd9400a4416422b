//! The manifest compiler: folds the registry into a structured
//! container-orchestration manifest — the fixed edge-proxy entry, one
//! entry per declared service, a runtime/server pair per project, the
//! shared bridge network, and the named-volume section collected from
//! the services' mounts.

use vstd::prelude::*;
use vstd::string::{StrSliceExecFns, StringExecFns};

use crate::registry::{clone_config, clone_strings, contains_name, AppState, AppStateView, ConfigEntry, ConfigEntryView,
    Project, ProjectView, Service, ServiceView};
use crate::strutil::{concat_strs, starts_with};

verus! {

/// One service entry of the compiled manifest.  A `None` field is left
/// out of the emitted document entirely; it is never an empty list.
pub struct ComposeService {
    pub image: String,
    pub restart: Option<String>,
    pub ports: Option<Vec<String>>,
    pub volumes: Option<Vec<String>>,
    pub depends_on: Option<Vec<String>>,
    pub environment: Option<Vec<ConfigEntry>>,
    pub networks: Vec<String>,
    pub labels: Option<Vec<ConfigEntry>>,
}

pub ghost struct ComposeServiceView {
    pub image: Seq<char>,
    pub restart: Option<Seq<char>>,
    pub ports: Option<Seq<Seq<char>>>,
    pub volumes: Option<Seq<Seq<char>>>,
    pub depends_on: Option<Seq<Seq<char>>>,
    pub environment: Option<Seq<ConfigEntryView>>,
    pub networks: Seq<Seq<char>>,
    pub labels: Option<Seq<ConfigEntryView>>,
}

impl View for ComposeService {
    type V = ComposeServiceView;

    open spec fn view(&self) -> ComposeServiceView {
        (ComposeServiceView {
            image: self.image@,
            restart: self.restart.deep_view(),
            ports: self.ports.deep_view(),
            volumes: self.volumes.deep_view(),
            depends_on: self.depends_on.deep_view(),
            environment: self.environment.deep_view(),
            networks: self.networks.deep_view(),
            labels: self.labels.deep_view(),
        })
    }
}

impl DeepView for ComposeService {
    type V = ComposeServiceView;

    open spec fn deep_view(&self) -> ComposeServiceView {
        self.view()
    }
}

/// A manifest service entry together with the key it is emitted under.
pub struct NamedService {
    pub name: String,
    pub entry: ComposeService,
}

pub ghost struct NamedServiceView {
    pub name: Seq<char>,
    pub entry: ComposeServiceView,
}

impl View for NamedService {
    type V = NamedServiceView;

    open spec fn view(&self) -> NamedServiceView {
        (NamedServiceView { name: self.name@, entry: self.entry@ })
    }
}

impl DeepView for NamedService {
    type V = NamedServiceView;

    open spec fn deep_view(&self) -> NamedServiceView {
        self.view()
    }
}

/// A network of the manifest's network section.
pub struct NetworkDef {
    pub name: String,
    pub driver: String,
}

pub ghost struct NetworkDefView {
    pub name: Seq<char>,
    pub driver: Seq<char>,
}

impl View for NetworkDef {
    type V = NetworkDefView;

    open spec fn view(&self) -> NetworkDefView {
        (NetworkDefView { name: self.name@, driver: self.driver@ })
    }
}

impl DeepView for NetworkDef {
    type V = NetworkDefView;

    open spec fn deep_view(&self) -> NetworkDefView {
        self.view()
    }
}

/// The compiled orchestration manifest: version marker, service
/// entries in emission order, the shared network, and the named-volume
/// section (absent when no service mounts a named volume).
pub struct Manifest {
    pub version: String,
    pub services: Vec<NamedService>,
    pub networks: Vec<NetworkDef>,
    pub volumes: Option<Vec<String>>,
}

pub ghost struct ManifestView {
    pub version: Seq<char>,
    pub services: Seq<NamedServiceView>,
    pub networks: Seq<NetworkDefView>,
    pub volumes: Option<Seq<Seq<char>>>,
}

impl View for Manifest {
    type V = ManifestView;

    open spec fn view(&self) -> ManifestView {
        (ManifestView {
            version: self.version@,
            services: self.services.deep_view(),
            networks: self.networks.deep_view(),
            volumes: self.volumes.deep_view(),
        })
    }
}

/// The shared network every entry joins.
pub open spec fn network_name() -> Seq<char> {
    "dev_env_network"@
}

/// The fixed edge-proxy entry that heads the manifest.
pub open spec fn traefik_entry() -> ComposeServiceView {
    (ComposeServiceView {
        image: "traefik:latest"@,
        restart: Some("always"@),
        ports: Some(seq!["80:80"@, "443:443"@, "8080:8080"@]),
        volumes: Some(
            seq![
                "/var/run/docker.sock:/var/run/docker.sock"@,
                "./traefik/config:/etc/traefik"@,
                "./traefik/certs:/etc/certs"@,
            ],
        ),
        depends_on: None,
        environment: None,
        networks: seq![network_name()],
        labels: None,
    })
}

/// The manifest entry for one declared service: its image and, only
/// when non-empty, its ports, volumes, dependencies and environment.
pub open spec fn user_service_entry(s: ServiceView) -> ComposeServiceView {
    (ComposeServiceView {
        image: s.image,
        restart: None,
        ports: if s.ports.len() == 0 {
            None
        } else {
            Some(s.ports)
        },
        volumes: if s.volumes.len() == 0 {
            None
        } else {
            Some(s.volumes)
        },
        depends_on: if s.dependencies.len() == 0 {
            None
        } else {
            Some(s.dependencies)
        },
        environment: if s.config.len() == 0 {
            None
        } else {
            Some(s.config)
        },
        networks: seq![network_name()],
        labels: None,
    })
}

/// The name of a project's runtime-tier entry.
pub open spec fn php_name(slug: Seq<char>) -> Seq<char> {
    "php_"@ + slug
}

/// The name of a project's HTTP-server-tier entry.
pub open spec fn nginx_name(slug: Seq<char>) -> Seq<char> {
    "nginx_"@ + slug
}

/// The bind mount of a project's source directory into the document
/// root.
pub open spec fn project_source_mount(slug: Seq<char>) -> Seq<char> {
    "./projects/"@ + slug + ":/var/www/html"@
}

/// The bind mount of a project's routing file into the server's
/// config-include path.
pub open spec fn nginx_conf_mount(slug: Seq<char>) -> Seq<char> {
    "./nginx/"@ + slug + ".conf:/etc/nginx/conf.d/default.conf"@
}

/// The project URL with its HTTPS scheme prefix stripped.
pub open spec fn host_of(url: Seq<char>) -> Seq<char> {
    if url.len() >= "https://"@.len() && url.subrange(0, "https://"@.len() as int) == "https://"@ {
        url.subrange("https://"@.len() as int, url.len() as int)
    } else {
        url
    }
}

/// The runtime-tier entry of a project.
pub open spec fn php_entry(p: ProjectView) -> ComposeServiceView {
    (ComposeServiceView {
        image: "php:8.2-fpm"@,
        restart: None,
        ports: None,
        volumes: Some(seq![project_source_mount(p.slug)]),
        depends_on: None,
        environment: None,
        networks: seq![network_name()],
        labels: None,
    })
}

/// The three reverse-proxy labels of a project's server entry: the
/// enable flag, the hostname routing rule named after the slug, and the
/// TLS flag.
pub open spec fn nginx_labels(p: ProjectView) -> Seq<ConfigEntryView> {
    seq![
        (ConfigEntryView { key: "traefik.enable"@, value: "true"@ }),
        (ConfigEntryView {
            key: "traefik.http.routers."@ + p.slug + ".rule"@,
            value: "Host(`"@ + host_of(p.url) + "`)"@,
        }),
        (ConfigEntryView { key: "traefik.http.routers."@ + p.slug + ".tls"@, value: "true"@ }),
    ]
}

/// The HTTP-server-tier entry of a project.
pub open spec fn nginx_entry(p: ProjectView) -> ComposeServiceView {
    (ComposeServiceView {
        image: "nginx:latest"@,
        restart: None,
        ports: None,
        volumes: Some(seq![project_source_mount(p.slug), nginx_conf_mount(p.slug)]),
        depends_on: Some(seq![php_name(p.slug)]),
        environment: None,
        networks: seq![network_name()],
        labels: Some(nginx_labels(p)),
    })
}

/// The entries for the declared services, in registry order.
pub open spec fn user_entries(ss: Seq<ServiceView>) -> Seq<NamedServiceView>
    decreases ss.len(),
{
    if ss.len() == 0 {
        Seq::empty()
    } else {
        user_entries(ss.drop_last()).push(
            (NamedServiceView { name: ss.last().name, entry: user_service_entry(ss.last()) }),
        )
    }
}

/// The runtime/server entry pairs for the projects, in registry order.
pub open spec fn project_entries(ps: Seq<ProjectView>) -> Seq<NamedServiceView>
    decreases ps.len(),
{
    if ps.len() == 0 {
        Seq::empty()
    } else {
        project_entries(ps.drop_last()).push(
            (NamedServiceView { name: php_name(ps.last().slug), entry: php_entry(ps.last()) }),
        ).push(
            (NamedServiceView { name: nginx_name(ps.last().slug), entry: nginx_entry(ps.last()) }),
        )
    }
}

/// The source component of a volume mount: everything before the first
/// colon.
pub open spec fn vol_source(v: Seq<char>) -> Seq<char> {
    v.subrange(0, crate::strutil::first_index(v, ':'))
}

/// A mount source that names a volume rather than a host path: it does
/// not begin with `.` or `/`.
pub open spec fn is_named_source(src: Seq<char>) -> bool {
    !(src.len() > 0 && (src[0] == '.' || src[0] == '/'))
}

/// Folds one service's volume mounts into the accumulated named-volume
/// list, keeping first occurrences and dropping duplicates.
pub open spec fn add_named_vols(acc: Seq<Seq<char>>, vols: Seq<Seq<char>>) -> Seq<Seq<char>>
    decreases vols.len(),
{
    if vols.len() == 0 {
        acc
    } else {
        let src = vol_source(vols[0]);
        let acc2 = if is_named_source(src) && !acc.contains(src) {
            acc.push(src)
        } else {
            acc
        };
        add_named_vols(acc2, vols.subrange(1, vols.len() as int))
    }
}

/// The named-volume list accumulated over these services' mounts.
pub open spec fn named_volumes_from(acc: Seq<Seq<char>>, ss: Seq<ServiceView>) -> Seq<Seq<char>>
    decreases ss.len(),
{
    if ss.len() == 0 {
        acc
    } else {
        named_volumes_from(add_named_vols(acc, ss[0].volumes), ss.subrange(1, ss.len() as int))
    }
}

/// Every named volume mounted by some declared service, first
/// occurrences first, without duplicates.
pub open spec fn named_volumes(ss: Seq<ServiceView>) -> Seq<Seq<char>> {
    named_volumes_from(Seq::empty(), ss)
}

/// The whole compiled manifest of a registry.
pub open spec fn compiled_manifest(r: AppStateView) -> ManifestView {
    (ManifestView {
        version: "3"@,
        services: seq![(NamedServiceView { name: "traefik"@, entry: traefik_entry() })]
            + user_entries(r.services) + project_entries(r.projects),
        networks: seq![(NetworkDefView { name: network_name(), driver: "bridge"@ })],
        volumes: if named_volumes(r.services).len() == 0 {
            None
        } else {
            Some(named_volumes(r.services))
        },
    })
}

proof fn lemma_user_entries_at(ss: Seq<ServiceView>, i: int)
    requires
        0 <= i < ss.len(),
    ensures
        user_entries(ss).len() == ss.len(),
        user_entries(ss)[i] == (NamedServiceView {
            name: ss[i].name,
            entry: user_service_entry(ss[i]),
        }),
    decreases ss.len(),
{
    if ss.len() > 0 {
        if i < ss.len() - 1 {
            lemma_user_entries_at(ss.drop_last(), i);
        } else {
            lemma_user_entries_len(ss.drop_last());
        }
        lemma_user_entries_len(ss);
    }
}

proof fn lemma_user_entries_len(ss: Seq<ServiceView>)
    ensures
        user_entries(ss).len() == ss.len(),
    decreases ss.len(),
{
    if ss.len() > 0 {
        lemma_user_entries_len(ss.drop_last());
    }
}

/// A declared service stands in the compiled manifest at its registry
/// position, right after the edge-proxy entry, and its `ports` field is
/// absent exactly when its port list is empty — never emitted as an
/// empty list.  The same holds of its volumes, dependencies and
/// environment.
pub proof fn lemma_compile_service_entry(r: AppStateView, i: int)
    requires
        0 <= i < r.services.len(),
    ensures
        ({
            let e = compiled_manifest(r).services[1 + i];
            &&& e.name == r.services[i].name
            &&& e.entry == user_service_entry(r.services[i])
            &&& (e.entry.ports is None <==> r.services[i].ports.len() == 0)
            &&& (e.entry.volumes is None <==> r.services[i].volumes.len() == 0)
            &&& (e.entry.depends_on is None <==> r.services[i].dependencies.len() == 0)
            &&& (e.entry.environment is None <==> r.services[i].config.len() == 0)
        }),
{
    lemma_user_entries_len(r.services);
    lemma_user_entries_at(r.services, i);
    let head = seq![(NamedServiceView { name: "traefik"@, entry: traefik_entry() })];
    assert(compiled_manifest(r).services[1 + i] == (head + user_entries(r.services)
        + project_entries(r.projects))[1 + i]);
    assert((head + user_entries(r.services))[1 + i] == user_entries(r.services)[i]);
}

proof fn lemma_project_entries_len(ps: Seq<ProjectView>)
    ensures
        project_entries(ps).len() == 2 * ps.len(),
    decreases ps.len(),
{
    if ps.len() > 0 {
        lemma_project_entries_len(ps.drop_last());
    }
}

proof fn lemma_project_entries_at(ps: Seq<ProjectView>, i: int)
    requires
        0 <= i < ps.len(),
    ensures
        project_entries(ps).len() == 2 * ps.len(),
        project_entries(ps)[2 * i] == (NamedServiceView {
            name: php_name(ps[i].slug),
            entry: php_entry(ps[i]),
        }),
        project_entries(ps)[2 * i + 1] == (NamedServiceView {
            name: nginx_name(ps[i].slug),
            entry: nginx_entry(ps[i]),
        }),
    decreases ps.len(),
{
    if ps.len() > 0 {
        if i < ps.len() - 1 {
            lemma_project_entries_at(ps.drop_last(), i);
        } else {
            lemma_project_entries_len(ps.drop_last());
        }
        lemma_project_entries_len(ps);
    }
}

/// The shape of the compiled manifest: the edge-proxy entry first, then
/// one entry per declared service, then a runtime/server pair per
/// project, and nothing else.
pub proof fn lemma_compile_shape(r: AppStateView)
    ensures
        compiled_manifest(r).services.len() == 1 + r.services.len() + 2 * r.projects.len(),
        compiled_manifest(r).services[0] == (NamedServiceView {
            name: "traefik"@,
            entry: traefik_entry(),
        }),
{
    lemma_user_entries_len(r.services);
    lemma_project_entries_len(r.projects);
}

/// A project stands in the compiled manifest as a runtime-tier entry
/// named after its slug followed by an HTTP-server entry that depends
/// on it and carries the enable, hostname-rule and TLS labels.
pub proof fn lemma_compile_project_entries(r: AppStateView, i: int)
    requires
        0 <= i < r.projects.len(),
    ensures
        ({
            let base = 1 + r.services.len() + 2 * i;
            let php = compiled_manifest(r).services[base];
            let nginx = compiled_manifest(r).services[base + 1];
            &&& php.name == php_name(r.projects[i].slug)
            &&& php.entry == php_entry(r.projects[i])
            &&& nginx.name == nginx_name(r.projects[i].slug)
            &&& nginx.entry == nginx_entry(r.projects[i])
            &&& nginx.entry.depends_on == Some(seq![php.name])
            &&& nginx.entry.labels == Some(nginx_labels(r.projects[i]))
        }),
{
    lemma_user_entries_len(r.services);
    lemma_project_entries_at(r.projects, i);
    let head = seq![(NamedServiceView { name: "traefik"@, entry: traefik_entry() })];
    let base = 1 + r.services.len() + 2 * i;
    assert((head + user_entries(r.services) + project_entries(r.projects))[base]
        == project_entries(r.projects)[2 * i]);
    assert((head + user_entries(r.services) + project_entries(r.projects))[base + 1]
        == project_entries(r.projects)[2 * i + 1]);
}

proof fn lemma_add_named_vols_membership(acc: Seq<Seq<char>>, vols: Seq<Seq<char>>, v: Seq<char>)
    ensures
        add_named_vols(acc, vols).contains(v) <==> (acc.contains(v) || (is_named_source(v)
            && exists|k: int| 0 <= k < vols.len() && vol_source(#[trigger] vols[k]) == v)),
    decreases vols.len(),
{
    if vols.len() == 0 {
    } else {
        let src = vol_source(vols[0]);
        let acc2 = if is_named_source(src) && !acc.contains(src) {
            acc.push(src)
        } else {
            acc
        };
        let rest = vols.subrange(1, vols.len() as int);
        lemma_add_named_vols_membership(acc2, rest, v);
        assert(forall|k: int| 0 <= k < rest.len() ==> #[trigger] rest[k] == vols[k + 1]);
        // membership in the one-step accumulator
        assert(acc2.contains(v) <==> (acc.contains(v) || (v == src && is_named_source(src)))) by {
            if is_named_source(src) && !acc.contains(src) {
                assert forall|x: Seq<char>| acc.push(src).contains(x) implies (acc.contains(x) || x
                    == src) by {
                    let w = choose|w: int| 0 <= w < acc.push(src).len() && acc.push(src)[w] == x;
                    if w < acc.len() {
                        assert(acc[w] == x);
                    }
                }
                if acc.contains(v) {
                    let w = choose|w: int| 0 <= w < acc.len() && acc[w] == v;
                    assert(acc.push(src)[w] == v);
                }
                assert(acc.push(src)[acc.len() as int] == src);
            }
        }
        if add_named_vols(acc, vols).contains(v) {
            if !acc.contains(v) {
                assert(is_named_source(v));
                if v == src {
                    assert(vol_source(vols[0]) == v);
                } else {
                    let k = choose|k: int| 0 <= k < rest.len() && vol_source(rest[k]) == v;
                    assert(vol_source(vols[k + 1]) == v);
                }
            }
        }
        if acc.contains(v) || (is_named_source(v) && exists|k: int|
            0 <= k < vols.len() && vol_source(#[trigger] vols[k]) == v) {
            if !acc.contains(v) && !(acc2.contains(v)) {
                let k = choose|k: int| 0 <= k < vols.len() && vol_source(vols[k]) == v;
                if k == 0 {
                    assert(v == src);
                    assert(acc2.contains(v));
                } else {
                    assert(vol_source(rest[k - 1]) == v);
                }
            }
        }
    }
}

proof fn lemma_named_volumes_from_membership(acc: Seq<Seq<char>>, ss: Seq<ServiceView>, v: Seq<
    char,
>)
    ensures
        named_volumes_from(acc, ss).contains(v) <==> (acc.contains(v) || (is_named_source(v)
            && exists|i: int, k: int|
            0 <= i < ss.len() && 0 <= k < (#[trigger] ss[i].volumes).len() && vol_source(
                #[trigger] ss[i].volumes[k],
            ) == v)),
    decreases ss.len(),
{
    if ss.len() == 0 {
    } else {
        let acc2 = add_named_vols(acc, ss[0].volumes);
        let rest = ss.subrange(1, ss.len() as int);
        lemma_named_volumes_from_membership(acc2, rest, v);
        lemma_add_named_vols_membership(acc, ss[0].volumes, v);
        assert(forall|i: int| 0 <= i < rest.len() ==> #[trigger] rest[i] == ss[i + 1]);
        if named_volumes_from(acc, ss).contains(v) && !acc.contains(v) {
            if acc2.contains(v) {
                let k = choose|k: int|
                    0 <= k < ss[0].volumes.len() && vol_source(#[trigger] ss[0].volumes[k]) == v;
                assert(vol_source(ss[0].volumes[k]) == v);
            } else {
                let (i, k): (int, int) = choose|i: int, k: int|
                    0 <= i < rest.len() && 0 <= k < (#[trigger] rest[i].volumes).len()
                        && vol_source(#[trigger] rest[i].volumes[k]) == v;
                assert(vol_source(ss[i + 1].volumes[k]) == v);
            }
        }
        if !named_volumes_from(acc, ss).contains(v) && is_named_source(v) {
            if exists|i: int, k: int|
                0 <= i < ss.len() && 0 <= k < (#[trigger] ss[i].volumes).len() && vol_source(
                    #[trigger] ss[i].volumes[k],
                ) == v {
                let (i, k): (int, int) = choose|i: int, k: int|
                    0 <= i < ss.len() && 0 <= k < (#[trigger] ss[i].volumes).len() && vol_source(
                        #[trigger] ss[i].volumes[k],
                    ) == v;
                if i == 0 {
                    assert(acc2.contains(v));
                } else {
                    assert(vol_source(rest[i - 1].volumes[k]) == v);
                }
                assert(false);
            }
        }
    }
}

/// The named-volume section of the compiled manifest registers exactly
/// the mount sources that name a volume: a source that does not begin
/// with `.` or `/` appears in the section, and a host path never does.
pub proof fn lemma_compile_named_volumes(r: AppStateView, v: Seq<char>)
    ensures
        (match compiled_manifest(r).volumes {
            Some(vols) => vols.contains(v),
            None => false,
        }) <==> (is_named_source(v) && exists|i: int, k: int|
            0 <= i < r.services.len() && 0 <= k < (#[trigger] r.services[i].volumes).len()
                && vol_source(#[trigger] r.services[i].volumes[k]) == v),
{
    lemma_named_volumes_from_membership(Seq::empty(), r.services, v);
    if named_volumes(r.services).len() == 0 {
        if named_volumes(r.services).contains(v) {
            let w = choose|w: int|
                0 <= w < named_volumes(r.services).len() && named_volumes(r.services)[w] == v;
            assert(false);
        }
    }
}

fn network_list() -> (r: Vec<String>)
    ensures
        r.deep_view() =~= seq![network_name()],
{
    let mut r: Vec<String> = Vec::new();
    r.push("dev_env_network".to_owned());
    r
}

fn traefik_service() -> (r: NamedService)
    ensures
        r@ == (NamedServiceView { name: "traefik"@, entry: traefik_entry() }),
{
    let mut ports: Vec<String> = Vec::new();
    ports.push("80:80".to_owned());
    ports.push("443:443".to_owned());
    ports.push("8080:8080".to_owned());
    let mut volumes: Vec<String> = Vec::new();
    volumes.push("/var/run/docker.sock:/var/run/docker.sock".to_owned());
    volumes.push("./traefik/config:/etc/traefik".to_owned());
    volumes.push("./traefik/certs:/etc/certs".to_owned());
    let entry = ComposeService {
        image: "traefik:latest".to_owned(),
        restart: Some("always".to_owned()),
        ports: Some(ports),
        volumes: Some(volumes),
        depends_on: None,
        environment: None,
        networks: network_list(),
        labels: None,
    };
    let r = NamedService { name: "traefik".to_owned(), entry };
    proof {
        assert(r@.entry.ports == traefik_entry().ports) by {
            assert(r.entry.ports.deep_view() matches Some(p) && p =~= seq![
                "80:80"@,
                "443:443"@,
                "8080:8080"@,
            ]);
        }
        assert(r@.entry.volumes == traefik_entry().volumes) by {
            assert(r.entry.volumes.deep_view() matches Some(v) && v =~= seq![
                "/var/run/docker.sock:/var/run/docker.sock"@,
                "./traefik/config:/etc/traefik"@,
                "./traefik/certs:/etc/certs"@,
            ]);
        }
    }
    r
}

fn user_service(s: &Service) -> (r: NamedService)
    ensures
        r@ == (NamedServiceView { name: s@.name, entry: user_service_entry(s@) }),
{
    let ports = if s.ports.is_empty() {
        None
    } else {
        Some(clone_strings(&s.ports))
    };
    let volumes = if s.volumes.is_empty() {
        None
    } else {
        Some(clone_strings(&s.volumes))
    };
    let depends_on = if s.dependencies.is_empty() {
        None
    } else {
        Some(clone_strings(&s.dependencies))
    };
    let environment = if s.config.is_empty() {
        None
    } else {
        Some(clone_config(&s.config))
    };
    let entry = ComposeService {
        image: s.image.clone(),
        restart: None,
        ports,
        volumes,
        depends_on,
        environment,
        networks: network_list(),
        labels: None,
    };
    NamedService { name: s.name.clone(), entry }
}

fn php_service(p: &Project) -> (r: NamedService)
    ensures
        r@ == (NamedServiceView { name: php_name(p@.slug), entry: php_entry(p@) }),
{
    let mut volumes: Vec<String> = Vec::new();
    volumes.push(
        concat_strs(concat_strs("./projects/", p.slug.as_str()).as_str(), ":/var/www/html"),
    );
    let entry = ComposeService {
        image: "php:8.2-fpm".to_owned(),
        restart: None,
        ports: None,
        volumes: Some(volumes),
        depends_on: None,
        environment: None,
        networks: network_list(),
        labels: None,
    };
    let r = NamedService { name: concat_strs("php_", p.slug.as_str()), entry };
    proof {
        assert(r@.entry.volumes == php_entry(p@).volumes) by {
            assert(r.entry.volumes.deep_view() matches Some(v) && v =~= seq![
                project_source_mount(p@.slug),
            ]);
        }
    }
    r
}

/// The project URL with its HTTPS scheme prefix stripped.
fn strip_https(url: &str) -> (r: String)
    ensures
        r@ == host_of(url@),
{
    proof {
        reveal_strlit("https://");
    }
    if starts_with(url, "https://") {
        let n = url.unicode_len();
        String::from_str(url.substring_char(8, n))
    } else {
        url.to_owned()
    }
}

fn nginx_service(p: &Project) -> (r: NamedService)
    ensures
        r@ == (NamedServiceView { name: nginx_name(p@.slug), entry: nginx_entry(p@) }),
{
    let mut volumes: Vec<String> = Vec::new();
    volumes.push(
        concat_strs(concat_strs("./projects/", p.slug.as_str()).as_str(), ":/var/www/html"),
    );
    volumes.push(
        concat_strs(
            concat_strs("./nginx/", p.slug.as_str()).as_str(),
            ".conf:/etc/nginx/conf.d/default.conf",
        ),
    );
    let host = strip_https(p.url.as_str());
    let mut labels: Vec<ConfigEntry> = Vec::new();
    labels.push(ConfigEntry { key: "traefik.enable".to_owned(), value: "true".to_owned() });
    labels.push(
        ConfigEntry {
            key: concat_strs(
                concat_strs("traefik.http.routers.", p.slug.as_str()).as_str(),
                ".rule",
            ),
            value: concat_strs(concat_strs("Host(`", host.as_str()).as_str(), "`)"),
        },
    );
    labels.push(
        ConfigEntry {
            key: concat_strs(
                concat_strs("traefik.http.routers.", p.slug.as_str()).as_str(),
                ".tls",
            ),
            value: "true".to_owned(),
        },
    );
    let mut depends_on: Vec<String> = Vec::new();
    depends_on.push(concat_strs("php_", p.slug.as_str()));
    let entry = ComposeService {
        image: "nginx:latest".to_owned(),
        restart: None,
        ports: None,
        volumes: Some(volumes),
        depends_on: Some(depends_on),
        environment: None,
        networks: network_list(),
        labels: Some(labels),
    };
    let r = NamedService { name: concat_strs("nginx_", p.slug.as_str()), entry };
    proof {
        assert(r@.entry.volumes == nginx_entry(p@).volumes) by {
            assert(r.entry.volumes.deep_view() matches Some(v) && v =~= seq![
                project_source_mount(p@.slug),
                nginx_conf_mount(p@.slug),
            ]);
        }
        assert(r@.entry.depends_on == nginx_entry(p@).depends_on) by {
            assert(r.entry.depends_on.deep_view() matches Some(d) && d =~= seq![
                php_name(p@.slug),
            ]);
        }
        assert(r@.entry.labels == nginx_entry(p@).labels) by {
            assert(r.entry.labels.deep_view() matches Some(l) && l =~= nginx_labels(p@));
        }
    }
    r
}

/// The source component of a volume mount string.
fn volume_source(v: &str) -> (r: String)
    ensures
        r@ == vol_source(v@),
{
    let k = crate::strutil::find_char(v, ':');
    String::from_str(v.substring_char(0, k))
}

/// Collects the named volumes of the declared services, in first-use
/// order and without duplicates.
fn collect_named_volumes(services: &Vec<Service>) -> (r: Vec<String>)
    ensures
        r.deep_view() == named_volumes(services.deep_view()),
{
    let ghost ss = services.deep_view();
    let mut acc: Vec<String> = Vec::new();
    proof {
        assert(acc.deep_view() =~= Seq::<Seq<char>>::empty());
        assert(ss.subrange(0, ss.len() as int) =~= ss);
    }
    let mut i: usize = 0;
    while i < services.len()
        invariant
            i <= services.len(),
            ss == services.deep_view(),
            named_volumes(ss) == named_volumes_from(
                acc.deep_view(),
                ss.subrange(i as int, ss.len() as int),
            ),
        decreases services.len() - i,
    {
        let vols = &services[i].volumes;
        let ghost vs = ss[i as int].volumes;
        let ghost acc_in = acc.deep_view();
        proof {
            assert(vs.subrange(0, vs.len() as int) =~= vs);
        }
        let mut k: usize = 0;
        while k < vols.len()
            invariant
                k <= vols.len(),
                vs == vols.deep_view(),
                add_named_vols(acc_in, vs) == add_named_vols(
                    acc.deep_view(),
                    vs.subrange(k as int, vs.len() as int),
                ),
            decreases vols.len() - k,
        {
            let ghost acc_here = acc.deep_view();
            let src = volume_source(vols[k].as_str());
            let ghost sv = src@;
            let named = if src.as_str().is_empty() {
                true
            } else {
                let c = src.as_str().get_char(0);
                c != '.' && c != '/'
            };
            proof {
                assert(named == is_named_source(sv));
            }
            if named && !contains_name(&acc, src.as_str()) {
                acc.push(src);
                proof {
                    assert(acc.deep_view() =~= acc_here.push(sv));
                }
            }
            proof {
                let rem = vs.subrange(k as int, vs.len() as int);
                assert(rem[0] == vs[k as int]);
                assert(rem.subrange(1, rem.len() as int) =~= vs.subrange(
                    k + 1,
                    vs.len() as int,
                ));
                assert(add_named_vols(acc_here, rem) == add_named_vols(
                    acc.deep_view(),
                    vs.subrange(k + 1, vs.len() as int),
                ));
            }
            k = k + 1;
        }
        proof {
            assert(vs.subrange(vs.len() as int, vs.len() as int) =~= Seq::<Seq<char>>::empty());
            let rem = ss.subrange(i as int, ss.len() as int);
            assert(rem[0] == ss[i as int]);
            assert(rem.subrange(1, rem.len() as int) =~= ss.subrange(i + 1, ss.len() as int));
        }
        i = i + 1;
    }
    proof {
        assert(ss.subrange(ss.len() as int, ss.len() as int) =~= Seq::<ServiceView>::empty());
    }
    acc
}

/// Compiles the registry into the orchestration manifest: the fixed
/// edge-proxy entry, one entry per declared service, a runtime/server
/// pair per project, the shared bridge network, and the named-volume
/// section exactly when some service mounts a named volume.
pub fn generate_docker_compose(state: &AppState) -> (m: Manifest)
    ensures
        m@ == compiled_manifest(state@),
{
    let mut services: Vec<NamedService> = Vec::new();
    services.push(traefik_service());
    let ghost head = seq![(NamedServiceView { name: "traefik"@, entry: traefik_entry() })];
    let mut i: usize = 0;
    while i < state.services.len()
        invariant
            i <= state.services.len(),
            services.deep_view() == head + user_entries(
                state@.services.subrange(0, i as int),
            ),
        decreases state.services.len() - i,
    {
        let ghost before = services.deep_view();
        let ns = user_service(&state.services[i]);
        let ghost nv = ns@;
        services.push(ns);
        proof {
            let pre = state@.services.subrange(0, i as int);
            let pre1 = state@.services.subrange(0, i + 1);
            assert(pre1.drop_last() =~= pre);
            assert(pre1.last() == state@.services[i as int]);
            assert(user_entries(pre1) == user_entries(pre).push(nv));
            assert(services.deep_view() =~= before.push(nv));
            assert((head + user_entries(pre)).push(nv) =~= head + user_entries(pre).push(nv));
        }
        i = i + 1;
    }
    proof {
        assert(state@.services.subrange(0, state@.services.len() as int) =~= state@.services);
    }
    let ghost with_users = head + user_entries(state@.services);
    let mut j: usize = 0;
    while j < state.projects.len()
        invariant
            j <= state.projects.len(),
            with_users == head + user_entries(state@.services),
            services.deep_view() == with_users + project_entries(
                state@.projects.subrange(0, j as int),
            ),
        decreases state.projects.len() - j,
    {
        let ghost before = services.deep_view();
        let phs = php_service(&state.projects[j]);
        let ghost pv1 = phs@;
        services.push(phs);
        let ngs = nginx_service(&state.projects[j]);
        let ghost pv2 = ngs@;
        services.push(ngs);
        proof {
            let pre = state@.projects.subrange(0, j as int);
            let pre1 = state@.projects.subrange(0, j + 1);
            assert(pre1.drop_last() =~= pre);
            assert(pre1.last() == state@.projects[j as int]);
            assert(project_entries(pre1) == project_entries(pre).push(pv1).push(pv2));
            assert(services.deep_view() =~= before.push(pv1).push(pv2));
            assert((with_users + project_entries(pre)).push(pv1).push(pv2) =~= with_users
                + project_entries(pre).push(pv1).push(pv2));
        }
        j = j + 1;
    }
    proof {
        assert(state@.projects.subrange(0, state@.projects.len() as int) =~= state@.projects);
    }
    let mut networks: Vec<NetworkDef> = Vec::new();
    networks.push(NetworkDef { name: "dev_env_network".to_owned(), driver: "bridge".to_owned() });
    let named = collect_named_volumes(&state.services);
    let volumes = if named.is_empty() {
        None
    } else {
        Some(named)
    };
    let m = Manifest { version: "3".to_owned(), services, networks, volumes };
    proof {
        assert(m@.services =~= compiled_manifest(state@).services);
        assert(m@.networks =~= compiled_manifest(state@).networks);
    }
    m
}

} // verus!
