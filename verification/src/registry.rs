//! The registry: the in-memory collection of services and projects, and
//! the validated mutations on it.  Every mutation checks referential
//! integrity before it touches the state, so a failed operation leaves
//! the registry exactly as it was.

use vstd::prelude::*;

use crate::slug::{project_url, slug_of};
use crate::strutil::str_eq;

verus! {

/// One key/value entry of a configuration mapping (environment
/// variables, proxy labels).
#[derive(Debug, PartialEq, Eq)]
pub struct ConfigEntry {
    pub key: String,
    pub value: String,
}

pub ghost struct ConfigEntryView {
    pub key: Seq<char>,
    pub value: Seq<char>,
}

impl View for ConfigEntry {
    type V = ConfigEntryView;

    open spec fn view(&self) -> ConfigEntryView {
        (ConfigEntryView { key: self.key@, value: self.value@ })
    }
}

impl DeepView for ConfigEntry {
    type V = ConfigEntryView;

    open spec fn deep_view(&self) -> ConfigEntryView {
        self.view()
    }
}

impl Clone for ConfigEntry {
    fn clone(&self) -> (res: Self)
        ensures
            res@ == self@,
    {
        ConfigEntry { key: self.key.clone(), value: self.value.clone() }
    }
}

/// A reusable infrastructure component: image, port mappings, volume
/// mounts, dependencies on other services, and configuration.
#[derive(Debug, PartialEq, Eq)]
pub struct Service {
    pub name: String,
    pub image: String,
    pub ports: Vec<String>,
    pub volumes: Vec<String>,
    pub global: bool,
    pub dependencies: Vec<String>,
    pub config: Vec<ConfigEntry>,
}

pub ghost struct ServiceView {
    pub name: Seq<char>,
    pub image: Seq<char>,
    pub ports: Seq<Seq<char>>,
    pub volumes: Seq<Seq<char>>,
    pub global: bool,
    pub dependencies: Seq<Seq<char>>,
    pub config: Seq<ConfigEntryView>,
}

impl View for Service {
    type V = ServiceView;

    open spec fn view(&self) -> ServiceView {
        (ServiceView {
            name: self.name@,
            image: self.image@,
            ports: self.ports.deep_view(),
            volumes: self.volumes.deep_view(),
            global: self.global,
            dependencies: self.dependencies.deep_view(),
            config: self.config.deep_view(),
        })
    }
}

impl DeepView for Service {
    type V = ServiceView;

    open spec fn deep_view(&self) -> ServiceView {
        self.view()
    }
}

/// A web-application environment: display name, canonical slug, the
/// services it uses, its stable URL, and project-specific configuration.
#[derive(Debug, PartialEq, Eq)]
pub struct Project {
    pub name: String,
    pub slug: String,
    pub services: Vec<String>,
    pub url: String,
    pub environment: Vec<ConfigEntry>,
}

pub ghost struct ProjectView {
    pub name: Seq<char>,
    pub slug: Seq<char>,
    pub services: Seq<Seq<char>>,
    pub url: Seq<char>,
    pub environment: Seq<ConfigEntryView>,
}

impl View for Project {
    type V = ProjectView;

    open spec fn view(&self) -> ProjectView {
        (ProjectView {
            name: self.name@,
            slug: self.slug@,
            services: self.services.deep_view(),
            url: self.url@,
            environment: self.environment.deep_view(),
        })
    }
}

impl DeepView for Project {
    type V = ProjectView;

    open spec fn deep_view(&self) -> ProjectView {
        self.view()
    }
}

/// Why a registry mutation was rejected.
#[derive(Debug, PartialEq, Eq)]
pub enum RegistryError {
    /// A service with this name already exists.
    DuplicateName(String),
    /// A project with this slug already exists.
    DuplicateSlug(String),
    /// The named service or project does not exist.
    NotFound(String),
    /// A dependency names a service that does not exist, or the service
    /// itself.
    UnknownDependency(String),
    /// The service cannot be removed: these services depend on it.
    ServiceInUse(Vec<String>),
}

/// Clones a vector of strings, element for element.
pub(crate) fn clone_strings(v: &Vec<String>) -> (r: Vec<String>)
    ensures
        r.deep_view() == v.deep_view(),
{
    let mut r: Vec<String> = Vec::new();
    let mut i: usize = 0;
    while i < v.len()
        invariant
            i <= v.len(),
            r.len() == i,
            forall|j: int| 0 <= j < i ==> r.deep_view()[j] == v.deep_view()[j],
        decreases v.len() - i,
    {
        r.push(v[i].clone());
        i = i + 1;
    }
    proof {
        assert(r.deep_view() =~= v.deep_view());
    }
    r
}

/// Clones a configuration mapping, entry for entry.
pub(crate) fn clone_config(v: &Vec<ConfigEntry>) -> (r: Vec<ConfigEntry>)
    ensures
        r.deep_view() == v.deep_view(),
{
    let mut r: Vec<ConfigEntry> = Vec::new();
    let mut i: usize = 0;
    while i < v.len()
        invariant
            i <= v.len(),
            r.len() == i,
            forall|j: int| 0 <= j < i ==> r.deep_view()[j] == v.deep_view()[j],
        decreases v.len() - i,
    {
        r.push(v[i].clone());
        i = i + 1;
    }
    proof {
        assert(r.deep_view() =~= v.deep_view());
    }
    r
}

impl Clone for Service {
    fn clone(&self) -> (res: Self)
        ensures
            res@ == self@,
    {
        Service {
            name: self.name.clone(),
            image: self.image.clone(),
            ports: clone_strings(&self.ports),
            volumes: clone_strings(&self.volumes),
            global: self.global,
            dependencies: clone_strings(&self.dependencies),
            config: clone_config(&self.config),
        }
    }
}

impl Clone for Project {
    fn clone(&self) -> (res: Self)
        ensures
            res@ == self@,
    {
        Project {
            name: self.name.clone(),
            slug: self.slug.clone(),
            services: clone_strings(&self.services),
            url: self.url.clone(),
            environment: clone_config(&self.environment),
        }
    }
}

/// Whether some service in the sequence bears this name.
pub open spec fn has_service(ss: Seq<ServiceView>, name: Seq<char>) -> bool {
    exists|i: int| 0 <= i < ss.len() && ss[i].name == name
}

/// Whether some project in the sequence bears this slug.
pub open spec fn has_project(ps: Seq<ProjectView>, slug: Seq<char>) -> bool {
    exists|i: int| 0 <= i < ps.len() && ps[i].slug == slug
}

/// A dependency reference is invalid when it names the service itself
/// (self-reference is rejected) or no existing service.
pub open spec fn dep_invalid(ss: Seq<ServiceView>, own: Seq<char>, d: Seq<char>) -> bool {
    d == own || !has_service(ss, d)
}

/// The first invalid dependency in declaration order, if any.
pub open spec fn first_invalid_dep(
    ss: Seq<ServiceView>,
    own: Seq<char>,
    deps: Seq<Seq<char>>,
) -> Option<Seq<char>>
    decreases deps.len(),
{
    if deps.len() == 0 {
        None
    } else if dep_invalid(ss, own, deps[0]) {
        Some(deps[0])
    } else {
        first_invalid_dep(ss, own, deps.subrange(1, deps.len() as int))
    }
}

proof fn lemma_first_invalid_dep(ss: Seq<ServiceView>, own: Seq<char>, deps: Seq<Seq<char>>, k: int)
    requires
        0 <= k <= deps.len(),
        forall|j: int| 0 <= j < k ==> !dep_invalid(ss, own, #[trigger] deps[j]),
    ensures
        k == deps.len() ==> first_invalid_dep(ss, own, deps) is None,
        k < deps.len() && dep_invalid(ss, own, deps[k]) ==> first_invalid_dep(ss, own, deps)
            == Some(deps[k]),
    decreases deps.len(),
{
    if deps.len() > 0 && k > 0 {
        let rest = deps.subrange(1, deps.len() as int);
        assert(forall|j: int| 0 <= j < rest.len() ==> #[trigger] rest[j] == deps[j + 1]);
        lemma_first_invalid_dep(ss, own, rest, k - 1);
    }
}

proof fn lemma_first_invalid_none(ss: Seq<ServiceView>, own: Seq<char>, deps: Seq<Seq<char>>)
    requires
        first_invalid_dep(ss, own, deps) is None,
    ensures
        forall|j: int| 0 <= j < deps.len() ==> !dep_invalid(ss, own, #[trigger] deps[j]),
    decreases deps.len(),
{
    if deps.len() > 0 {
        let rest = deps.subrange(1, deps.len() as int);
        lemma_first_invalid_none(ss, own, rest);
        assert forall|j: int| 0 <= j < deps.len() implies !dep_invalid(ss, own, #[trigger] deps[j]) by {
            if j > 0 {
                assert(rest[j - 1] == deps[j]);
            }
        }
    }
}

/// The position of the service with this name; unique in a well-formed
/// registry.
pub open spec fn service_index(ss: Seq<ServiceView>, name: Seq<char>) -> int {
    choose|i: int| 0 <= i < ss.len() && ss[i].name == name
}

/// The position of the project with this slug; unique in a well-formed
/// registry.
pub open spec fn project_index(ps: Seq<ProjectView>, slug: Seq<char>) -> int {
    choose|i: int| 0 <= i < ps.len() && ps[i].slug == slug
}

/// The list without every occurrence of this name, order kept.
pub open spec fn without_name(l: Seq<Seq<char>>, name: Seq<char>) -> Seq<Seq<char>>
    decreases l.len(),
{
    if l.len() == 0 {
        Seq::empty()
    } else if l.last() == name {
        without_name(l.drop_last(), name)
    } else {
        without_name(l.drop_last(), name).push(l.last())
    }
}

/// The names, in registry order, of the services whose dependencies
/// contain this name.
pub open spec fn dependents_of(ss: Seq<ServiceView>, name: Seq<char>) -> Seq<Seq<char>>
    decreases ss.len(),
{
    if ss.len() == 0 {
        Seq::empty()
    } else if ss.last().dependencies.contains(name) {
        dependents_of(ss.drop_last(), name).push(ss.last().name)
    } else {
        dependents_of(ss.drop_last(), name)
    }
}

/// Every project with this service name detached.
pub open spec fn projects_without(ps: Seq<ProjectView>, name: Seq<char>) -> Seq<ProjectView> {
    ps.map_values(
        |p: ProjectView|
            (ProjectView {
                name: p.name,
                slug: p.slug,
                services: without_name(p.services, name),
                url: p.url,
                environment: p.environment,
            }),
    )
}

proof fn lemma_without_name_props(l: Seq<Seq<char>>, name: Seq<char>)
    ensures
        forall|j: int| 0 <= j < without_name(l, name).len() ==> #[trigger] without_name(l, name)[j]
            != name,
        forall|j: int|
            0 <= j < without_name(l, name).len() ==> l.contains(
                #[trigger] without_name(l, name)[j],
            ),
    decreases l.len(),
{
    if l.len() > 0 {
        let ld = l.drop_last();
        lemma_without_name_props(ld, name);
        let w = without_name(l, name);
        let wd = without_name(ld, name);
        assert forall|j: int| 0 <= j < w.len() implies (w[j] != name && l.contains(w[j])) by {
            if j < wd.len() {
                assert(w[j] == wd[j]);
                assert(ld.contains(wd[j]));
                let k = choose|k: int| 0 <= k < ld.len() && ld[k] == wd[j];
                assert(l[k] == wd[j]);
            } else {
                assert(w[j] == l.last());
                assert(l[l.len() - 1] == l.last());
            }
        }
    }
}

proof fn lemma_dependents_empty(ss: Seq<ServiceView>, name: Seq<char>)
    requires
        dependents_of(ss, name).len() == 0,
    ensures
        forall|i: int| 0 <= i < ss.len() ==> !(#[trigger] ss[i].dependencies).contains(name),
    decreases ss.len(),
{
    if ss.len() > 0 {
        assert(!ss.last().dependencies.contains(name));
        lemma_dependents_empty(ss.drop_last(), name);
        assert forall|i: int|
            0 <= i < ss.len() implies !(#[trigger] ss[i].dependencies).contains(name) by {
            if i < ss.len() - 1 {
                assert(ss.drop_last()[i] == ss[i]);
            } else {
                assert(ss[i] == ss.last());
            }
        }
    }
}

/// Whether some name in the list equals this one.
pub(crate) fn contains_name(v: &Vec<String>, name: &str) -> (r: bool)
    ensures
        r == v.deep_view().contains(name@),
{
    let mut i: usize = 0;
    while i < v.len()
        invariant
            i <= v.len(),
            forall|j: int| 0 <= j < i ==> v.deep_view()[j] != name@,
        decreases v.len() - i,
    {
        if str_eq(v[i].as_str(), name) {
            proof {
                assert(v.deep_view()[i as int] == name@);
            }
            return true;
        }
        i = i + 1;
    }
    false
}

/// Copies the list, leaving out every occurrence of this name.
fn remove_name_from(v: &Vec<String>, name: &str) -> (r: Vec<String>)
    ensures
        r.deep_view() == without_name(v.deep_view(), name@),
{
    let mut r: Vec<String> = Vec::new();
    let mut i: usize = 0;
    while i < v.len()
        invariant
            i <= v.len(),
            r.deep_view() == without_name(v.deep_view().subrange(0, i as int), name@),
        decreases v.len() - i,
    {
        proof {
            let pre = v.deep_view().subrange(0, i as int);
            let pre1 = v.deep_view().subrange(0, i + 1);
            assert(pre1.drop_last() =~= pre);
            assert(pre1.last() == v.deep_view()[i as int]);
        }
        if !str_eq(v[i].as_str(), name) {
            r.push(v[i].clone());
            proof {
                assert(r.deep_view() =~= without_name(v.deep_view().subrange(0, i + 1), name@));
            }
        }
        i = i + 1;
    }
    proof {
        assert(v.deep_view().subrange(0, v.len() as int) =~= v.deep_view());
    }
    r
}

/// The first dependency of the service that is invalid against this
/// registry, if any.
fn first_bad_dep(services: &Vec<Service>, service: &Service) -> (r: Option<String>)
    ensures
        match r {
            Some(d) => first_invalid_dep(services.deep_view(), service@.name, service@.dependencies)
                == Some(d@),
            None => first_invalid_dep(
                services.deep_view(),
                service@.name,
                service@.dependencies,
            ) is None,
        },
{
    let ghost ss = services.deep_view();
    let ghost own = service@.name;
    let ghost deps = service@.dependencies;
    let mut k: usize = 0;
    while k < service.dependencies.len()
        invariant
            k <= service.dependencies.len(),
            deps.len() == service.dependencies.len(),
            ss == services.deep_view(),
            own == service@.name,
            deps == service@.dependencies,
            forall|j: int| 0 <= j < k ==> !dep_invalid(ss, own, #[trigger] deps[j]),
        decreases service.dependencies.len() - k,
    {
        let dep = &service.dependencies[k];
        let self_ref = str_eq(dep.as_str(), service.name.as_str());
        let known = find_service(services, dep.as_str()).is_some();
        if self_ref || !known {
            proof {
                lemma_first_invalid_dep(ss, own, deps, k as int);
            }
            return Some(dep.clone());
        }
        k = k + 1;
    }
    proof {
        lemma_first_invalid_dep(ss, own, deps, deps.len() as int);
    }
    None
}

/// The registry: every declared service and project.
#[derive(Debug, PartialEq, Eq)]
pub struct AppState {
    pub services: Vec<Service>,
    pub projects: Vec<Project>,
}

pub ghost struct AppStateView {
    pub services: Seq<ServiceView>,
    pub projects: Seq<ProjectView>,
}

impl View for AppState {
    type V = AppStateView;

    open spec fn view(&self) -> AppStateView {
        (AppStateView { services: self.services.deep_view(), projects: self.projects.deep_view() })
    }
}

impl AppStateView {
    /// Referential integrity of the registry: service names and project
    /// slugs are unique, every service dependency resolves to another
    /// existing service, and every service a project uses exists.
    pub open spec fn wf(self) -> bool {
        &&& (forall|i: int, j: int|
            0 <= i < j < self.services.len() ==> self.services[i].name != self.services[j].name)
        &&& (forall|i: int, j: int|
            0 <= i < j < self.projects.len() ==> self.projects[i].slug != self.projects[j].slug)
        &&& (forall|i: int, d: int|
            0 <= i < self.services.len() && 0 <= d < self.services[i].dependencies.len()
                ==> !dep_invalid(
                self.services,
                self.services[i].name,
                #[trigger] self.services[i].dependencies[d],
            ))
        &&& (forall|i: int, k: int|
            0 <= i < self.projects.len() && 0 <= k < self.projects[i].services.len()
                ==> has_service(self.services, #[trigger] self.projects[i].services[k]))
    }
}

/// Finds the position of the service with this name.
fn find_service(services: &Vec<Service>, name: &str) -> (r: Option<usize>)
    ensures
        match r {
            Some(i) => i < services.len() && services.deep_view()[i as int].name == name@,
            None => !has_service(services.deep_view(), name@),
        },
{
    let mut i: usize = 0;
    while i < services.len()
        invariant
            i <= services.len(),
            forall|j: int| 0 <= j < i ==> services.deep_view()[j].name != name@,
        decreases services.len() - i,
    {
        if str_eq(services[i].name.as_str(), name) {
            return Some(i);
        }
        i = i + 1;
    }
    None
}

/// Finds the position of the project with this slug.
fn find_project(projects: &Vec<Project>, slug: &str) -> (r: Option<usize>)
    ensures
        match r {
            Some(i) => i < projects.len() && projects.deep_view()[i as int].slug == slug@,
            None => !has_project(projects.deep_view(), slug@),
        },
{
    let mut i: usize = 0;
    while i < projects.len()
        invariant
            i <= projects.len(),
            forall|j: int| 0 <= j < i ==> projects.deep_view()[j].slug != slug@,
        decreases projects.len() - i,
    {
        if str_eq(projects[i].slug.as_str(), slug) {
            return Some(i);
        }
        i = i + 1;
    }
    None
}

impl AppState {
    /// An empty registry.
    pub fn new() -> (r: AppState)
        ensures
            r@.services.len() == 0,
            r@.projects.len() == 0,
            r@.wf(),
    {
        AppState { services: Vec::new(), projects: Vec::new() }
    }

    /// Adds a service.  Fails with `DuplicateName` exactly when a service
    /// with the same name already exists; otherwise fails with
    /// `UnknownDependency` on the first dependency that names a missing
    /// service or the service itself.  A failed call leaves the registry
    /// unchanged.
    pub fn add_service(&mut self, service: Service) -> (r: Result<(), RegistryError>)
        requires
            old(self)@.wf(),
        ensures
            final(self)@.wf(),
            (match r {
                Err(RegistryError::DuplicateName(_)) => true,
                _ => false,
            }) <==> has_service(old(self)@.services, service@.name),
            match r {
                Ok(()) => {
                    &&& !has_service(old(self)@.services, service@.name)
                    &&& first_invalid_dep(
                        old(self)@.services,
                        service@.name,
                        service@.dependencies,
                    ) is None
                    &&& final(self)@.services == old(self)@.services.push(service@)
                    &&& final(self)@.projects == old(self)@.projects
                },
                Err(RegistryError::DuplicateName(n)) => n@ == service@.name && final(self)@
                    == old(self)@,
                Err(RegistryError::UnknownDependency(d)) => {
                    &&& !has_service(old(self)@.services, service@.name)
                    &&& first_invalid_dep(old(self)@.services, service@.name, service@.dependencies)
                        == Some(d@)
                    &&& final(self)@ == old(self)@
                },
                Err(_) => false,
            },
    {
        if find_service(&self.services, service.name.as_str()).is_some() {
            return Err(RegistryError::DuplicateName(service.name.clone()));
        }
        let ghost ss = self@.services;
        let ghost own = service@.name;
        let ghost deps = service@.dependencies;
        if let Some(d) = first_bad_dep(&self.services, &service) {
            return Err(RegistryError::UnknownDependency(d));
        }
        proof {
            lemma_first_invalid_none(ss, own, deps);
        }
        let ghost sv = service@;
        self.services.push(service);
        proof {
            assert(self@.services =~= ss.push(sv));
            let ns = self@.services;
            assert forall|i: int, j: int| 0 <= i < j < ns.len() implies ns[i].name != ns[j].name by {
                if j == ss.len() {
                    assert(!has_service(ss, own));
                }
            }
            assert forall|i: int, d: int|
                0 <= i < ns.len() && 0 <= d < ns[i].dependencies.len() implies !dep_invalid(
                ns,
                ns[i].name,
                #[trigger] ns[i].dependencies[d],
            ) by {
                let dep = ns[i].dependencies[d];
                if i < ss.len() {
                    assert(!dep_invalid(ss, ss[i].name, dep));
                } else {
                    assert(!dep_invalid(ss, own, dep));
                }
                let w = choose|w: int| 0 <= w < ss.len() && ss[w].name == dep;
                assert(ns[w].name == dep);
                assert(has_service(ns, dep));
            }
            assert forall|i: int, k2: int|
                0 <= i < self@.projects.len() && 0 <= k2 < self@.projects[i].services.len()
                    implies has_service(ns, #[trigger] self@.projects[i].services[k2]) by {
                let t = self@.projects[i].services[k2];
                assert(old(self)@.projects[i].services[k2] == t);
                assert(has_service(ss, t));
                let w = choose|w: int| 0 <= w < ss.len() && ss[w].name == t;
                assert(ns[w].name == t);
            }
        }
        Ok(())
    }

    /// Adds a project under the slug normalized from its display name.
    /// Fails with `DuplicateSlug` exactly when a project with that slug
    /// already exists.  The new project starts with no attached services
    /// and the URL derived from its slug.
    pub fn add_project(&mut self, name: String, environment: Vec<ConfigEntry>) -> (r: Result<
        (),
        RegistryError,
    >)
        requires
            old(self)@.wf(),
        ensures
            final(self)@.wf(),
            match r {
                Ok(()) => {
                    &&& !has_project(old(self)@.projects, slug_of(name@))
                    &&& final(self)@.projects == old(self)@.projects.push(
                        (ProjectView {
                            name: name@,
                            slug: slug_of(name@),
                            services: Seq::empty(),
                            url: project_url(slug_of(name@)),
                            environment: environment.deep_view(),
                        }),
                    )
                    &&& final(self)@.services == old(self)@.services
                },
                Err(RegistryError::DuplicateSlug(s)) => {
                    &&& s@ == slug_of(name@)
                    &&& has_project(old(self)@.projects, slug_of(name@))
                    &&& final(self)@ == old(self)@
                },
                Err(_) => false,
            },
    {
        let slug = crate::slug::normalize_slug(name.as_str());
        if find_project(&self.projects, slug.as_str()).is_some() {
            return Err(RegistryError::DuplicateSlug(slug));
        }
        let url = crate::slug::generate_project_url(slug.as_str());
        let ghost ps = self@.projects;
        let project = Project { name, slug, services: Vec::new(), url, environment };
        let ghost pv = project@;
        self.projects.push(project);
        proof {
            assert(pv.services =~= Seq::<Seq<char>>::empty());
            assert(self@.projects =~= ps.push(pv));
            let np = self@.projects;
            assert(self@.services == old(self)@.services);
            assert forall|i: int, j: int|
                0 <= i < j < self@.services.len() implies self@.services[i].name
                != self@.services[j].name by {
                assert(old(self)@.services[i].name != old(self)@.services[j].name);
            }
            assert forall|i: int, d: int|
                0 <= i < self@.services.len() && 0 <= d < self@.services[i].dependencies.len()
                    implies !dep_invalid(
                self@.services,
                self@.services[i].name,
                #[trigger] self@.services[i].dependencies[d],
            ) by {
                assert(!dep_invalid(
                    old(self)@.services,
                    old(self)@.services[i].name,
                    old(self)@.services[i].dependencies[d],
                ));
            }
            assert forall|i: int, j: int| 0 <= i < j < np.len() implies np[i].slug != np[j].slug by {
                if j == ps.len() {
                    if np[i].slug == np[j].slug {
                        assert(ps[i].slug == pv.slug);
                        assert(has_project(ps, pv.slug));
                        assert(false);
                    }
                } else {
                    assert(old(self)@.projects[i].slug == np[i].slug);
                    assert(old(self)@.projects[j].slug == np[j].slug);
                }
            }
            assert forall|i: int, k: int|
                0 <= i < np.len() && 0 <= k < np[i].services.len() implies has_service(
                self@.services,
                #[trigger] np[i].services[k],
            ) by {
                if i < ps.len() {
                    assert(np[i] == ps[i]);
                    assert(old(self)@.projects[i].services[k] == np[i].services[k]);
                    assert(has_service(old(self)@.services, np[i].services[k]));
                } else {
                    assert(np[i].services.len() == 0);
                }
            }
        }
        Ok(())
    }

    /// Removes a service.  Fails with `NotFound` when no service bears
    /// the name, and with `ServiceInUse`, listing every service that
    /// depends on it, when other services still reference it.  On
    /// success the service is also detached from every project that
    /// used it.
    pub fn remove_service(&mut self, name: String) -> (r: Result<(), RegistryError>)
        requires
            old(self)@.wf(),
        ensures
            final(self)@.wf(),
            match r {
                Ok(()) => {
                    &&& has_service(old(self)@.services, name@)
                    &&& dependents_of(old(self)@.services, name@).len() == 0
                    &&& final(self)@.services == old(self)@.services.remove(
                        service_index(old(self)@.services, name@),
                    )
                    &&& final(self)@.projects == projects_without(old(self)@.projects, name@)
                },
                Err(RegistryError::NotFound(n)) => n@ == name@ && !has_service(
                    old(self)@.services,
                    name@,
                ) && final(self)@ == old(self)@,
                Err(RegistryError::ServiceInUse(ds)) => {
                    &&& ds.deep_view() == dependents_of(old(self)@.services, name@)
                    &&& ds.deep_view().len() > 0
                    &&& has_service(old(self)@.services, name@)
                    &&& final(self)@ == old(self)@
                },
                Err(_) => false,
            },
            r is Ok ==> forall|i: int|
                0 <= i < final(self)@.projects.len() ==> !(
                #[trigger] final(self)@.projects[i].services).contains(name@),
    {
        let idx = match find_service(&self.services, name.as_str()) {
            None => { return Err(RegistryError::NotFound(name)) },
            Some(i) => i,
        };
        let ghost ss = self@.services;
        let ghost ps = self@.projects;
        let mut dependents: Vec<String> = Vec::new();
        let mut i: usize = 0;
        while i < self.services.len()
            invariant
                i <= self.services.len(),
                self == old(self),
                old(self)@.wf(),
                ss == self@.services,
                dependents.deep_view() == dependents_of(ss.subrange(0, i as int), name@),
            decreases self.services.len() - i,
        {
            proof {
                let pre = ss.subrange(0, i as int);
                let pre1 = ss.subrange(0, i + 1);
                assert(pre1.drop_last() =~= pre);
                assert(pre1.last() == ss[i as int]);
            }
            if contains_name(&self.services[i].dependencies, name.as_str()) {
                dependents.push(self.services[i].name.clone());
                proof {
                    assert(dependents.deep_view() =~= dependents_of(
                        ss.subrange(0, i + 1),
                        name@,
                    ));
                }
            }
            i = i + 1;
        }
        proof {
            assert(ss.subrange(0, self.services.len() as int) =~= ss);
        }
        if dependents.len() > 0 {
            return Err(RegistryError::ServiceInUse(dependents));
        }
        let ghost gi = idx as int;
        proof {
            assert(has_service(ss, name@));
            let c = service_index(ss, name@);
            assert(0 <= c < ss.len() && ss[c].name == name@);
            if c != gi {
                if c < gi {
                    assert(old(self)@.services[c].name != old(self)@.services[gi].name);
                } else {
                    assert(old(self)@.services[gi].name != old(self)@.services[c].name);
                }
                assert(false);
            }
        }
        self.services.remove(idx);
        proof {
            ss.remove_ensures(gi);
            assert(self@.services =~= ss.remove(gi)) by {
                assert(forall|t: int|
                    0 <= t < gi ==> #[trigger] self.services@[t] == old(self).services@[t]);
                assert(forall|t: int|
                    gi <= t < ss.len() - 1 ==> #[trigger] self.services@[t] == old(
                        self,
                    ).services@[t + 1]);
            }
        }
        let ghost nss = self@.services;
        let mut new_projects: Vec<Project> = Vec::new();
        let mut j: usize = 0;
        while j < self.projects.len()
            invariant
                j <= self.projects.len(),
                ps == self.projects.deep_view(),
                nss == self@.services,
                new_projects.len() == j,
                forall|t: int|
                    0 <= t < j ==> new_projects.deep_view()[t] == #[trigger] projects_without(
                        ps,
                        name@,
                    )[t],
            decreases self.projects.len() - j,
        {
            let p = &self.projects[j];
            let filtered = remove_name_from(&p.services, name.as_str());
            new_projects.push(
                Project {
                    name: p.name.clone(),
                    slug: p.slug.clone(),
                    services: filtered,
                    url: p.url.clone(),
                    environment: clone_config(&p.environment),
                },
            );
            proof {
                assert(new_projects.deep_view().last() == projects_without(ps, name@)[j as int]);
            }
            j = j + 1;
        }
        self.projects = new_projects;
        proof {
            assert(self@.projects =~= projects_without(ps, name@));
            let np = self@.projects;
            lemma_dependents_empty(ss, name@);
            // names of the remaining services, and their dependencies, carry over
            assert forall|t1: int, t2: int|
                0 <= t1 < t2 < nss.len() implies nss[t1].name != nss[t2].name by {
                let o1: int = if t1 < gi {
                    t1
                } else {
                    t1 + 1
                };
                let o2: int = if t2 < gi {
                    t2
                } else {
                    t2 + 1
                };
                assert(nss[t1] == ss[o1] && nss[t2] == ss[o2]);
                assert(old(self)@.services[o1].name != old(self)@.services[o2].name);
            }
            assert forall|t: int, d: int|
                0 <= t < nss.len() && 0 <= d < nss[t].dependencies.len() implies !dep_invalid(
                nss,
                nss[t].name,
                #[trigger] nss[t].dependencies[d],
            ) by {
                let o: int = if t < gi {
                    t
                } else {
                    t + 1
                };
                assert(nss[t] == ss[o]);
                assert(!dep_invalid(ss, old(self)@.services[o].name, old(self)@.services[o].dependencies[d]));
                let dep = nss[t].dependencies[d];
                if dep == name@ {
                    assert(ss[o].dependencies[d] == name@);
                    assert(ss[o].dependencies.contains(name@));
                    assert(false);
                }
                let w = choose|w: int| 0 <= w < ss.len() && ss[w].name == dep;
                if w == gi {
                    assert(false);
                }
                let w2: int = if w < gi {
                    w
                } else {
                    w - 1
                };
                assert(nss[w2] == ss[w]);
                assert(has_service(nss, dep));
            }
            assert forall|t: int, k: int|
                0 <= t < np.len() && 0 <= k < np[t].services.len() implies has_service(
                nss,
                #[trigger] np[t].services[k],
            ) by {
                let x = np[t].services[k];
                assert(np[t].services == without_name(ps[t].services, name@));
                lemma_without_name_props(ps[t].services, name@);
                assert(x != name@);
                assert(ps[t].services.contains(x));
                let k0 = choose|k0: int| 0 <= k0 < ps[t].services.len() && ps[t].services[k0] == x;
                assert(old(self)@.projects[t].services[k0] == x);
                assert(has_service(ss, x));
                let w = choose|w: int| 0 <= w < ss.len() && ss[w].name == x;
                if w == gi {
                    assert(false);
                }
                let w2: int = if w < gi {
                    w
                } else {
                    w - 1
                };
                assert(nss[w2] == ss[w]);
                assert(has_service(nss, x));
            }
            assert forall|t1: int, t2: int|
                0 <= t1 < t2 < np.len() implies np[t1].slug != np[t2].slug by {
                assert(np[t1].slug == ps[t1].slug && np[t2].slug == ps[t2].slug);
                assert(old(self)@.projects[t1].slug != old(self)@.projects[t2].slug);
            }
            assert forall|t: int|
                0 <= t < np.len() implies !(#[trigger] np[t].services).contains(name@) by {
                lemma_without_name_props(ps[t].services, name@);
                if np[t].services.contains(name@) {
                    let k = choose|k: int|
                        0 <= k < np[t].services.len() && np[t].services[k] == name@;
                    assert(np[t].services[k] != name@);
                }
            }
        }
        Ok(())
    }

    /// Replaces an existing service with a new definition of the same
    /// name.  Fails with `NotFound` when the name is unknown and with
    /// `UnknownDependency` on the first invalid dependency; a failed
    /// call leaves the registry unchanged.
    pub fn update_service(&mut self, service: Service) -> (r: Result<(), RegistryError>)
        requires
            old(self)@.wf(),
        ensures
            final(self)@.wf(),
            match r {
                Ok(()) => {
                    &&& has_service(old(self)@.services, service@.name)
                    &&& first_invalid_dep(
                        old(self)@.services,
                        service@.name,
                        service@.dependencies,
                    ) is None
                    &&& final(self)@.services == old(self)@.services.update(
                        service_index(old(self)@.services, service@.name),
                        service@,
                    )
                    &&& final(self)@.projects == old(self)@.projects
                },
                Err(RegistryError::NotFound(n)) => n@ == service@.name && !has_service(
                    old(self)@.services,
                    service@.name,
                ) && final(self)@ == old(self)@,
                Err(RegistryError::UnknownDependency(d)) => {
                    &&& has_service(old(self)@.services, service@.name)
                    &&& first_invalid_dep(old(self)@.services, service@.name, service@.dependencies)
                        == Some(d@)
                    &&& final(self)@ == old(self)@
                },
                Err(_) => false,
            },
    {
        let idx = match find_service(&self.services, service.name.as_str()) {
            None => { return Err(RegistryError::NotFound(service.name.clone())) },
            Some(i) => i,
        };
        if let Some(d) = first_bad_dep(&self.services, &service) {
            return Err(RegistryError::UnknownDependency(d));
        }
        let ghost ss = self@.services;
        let ghost sv = service@;
        let ghost gi = idx as int;
        proof {
            assert(has_service(ss, sv.name));
            let c = service_index(ss, sv.name);
            assert(0 <= c < ss.len() && ss[c].name == sv.name);
            if c != gi {
                if c < gi {
                    assert(old(self)@.services[c].name != old(self)@.services[gi].name);
                } else {
                    assert(old(self)@.services[gi].name != old(self)@.services[c].name);
                }
                assert(false);
            }
            lemma_first_invalid_none(ss, sv.name, sv.dependencies);
        }
        self.services[idx] = service;
        proof {
            let nss = self@.services;
            assert(nss =~= ss.update(gi, sv));
            // every name is unchanged, so lookups carry over in both directions
            assert(forall|t: int| 0 <= t < nss.len() ==> #[trigger] nss[t].name == ss[t].name);
            assert forall|m: Seq<char>| has_service(ss, m) implies has_service(nss, m) by {
                let w = choose|w: int| 0 <= w < ss.len() && ss[w].name == m;
                assert(nss[w].name == m);
            }
            assert forall|t1: int, t2: int|
                0 <= t1 < t2 < nss.len() implies nss[t1].name != nss[t2].name by {
                assert(old(self)@.services[t1].name != old(self)@.services[t2].name);
            }
            assert forall|t: int, d: int|
                0 <= t < nss.len() && 0 <= d < nss[t].dependencies.len() implies !dep_invalid(
                nss,
                nss[t].name,
                #[trigger] nss[t].dependencies[d],
            ) by {
                if t == gi {
                    assert(!dep_invalid(ss, sv.name, sv.dependencies[d]));
                } else {
                    assert(!dep_invalid(ss, old(self)@.services[t].name, old(self)@.services[t].dependencies[d]));
                }
            }
            assert forall|t: int, k: int|
                0 <= t < self@.projects.len() && 0 <= k < self@.projects[t].services.len()
                    implies has_service(nss, #[trigger] self@.projects[t].services[k]) by {
                assert(has_service(ss, old(self)@.projects[t].services[k]));
            }
        }
        Ok(())
    }

    /// Removes a project by display name.  Fails with `NotFound` when no
    /// project has the normalized slug.
    pub fn remove_project(&mut self, name: String) -> (r: Result<(), RegistryError>)
        requires
            old(self)@.wf(),
        ensures
            final(self)@.wf(),
            match r {
                Ok(()) => {
                    &&& has_project(old(self)@.projects, slug_of(name@))
                    &&& final(self)@.projects == old(self)@.projects.remove(
                        project_index(old(self)@.projects, slug_of(name@)),
                    )
                    &&& final(self)@.services == old(self)@.services
                },
                Err(RegistryError::NotFound(n)) => n@ == name@ && !has_project(
                    old(self)@.projects,
                    slug_of(name@),
                ) && final(self)@ == old(self)@,
                Err(_) => false,
            },
    {
        let slug = crate::slug::normalize_slug(name.as_str());
        let idx = match find_project(&self.projects, slug.as_str()) {
            None => { return Err(RegistryError::NotFound(name)) },
            Some(i) => i,
        };
        let ghost ps = self@.projects;
        let ghost gi = idx as int;
        proof {
            assert(has_project(ps, slug_of(name@)));
            let c = project_index(ps, slug_of(name@));
            assert(0 <= c < ps.len() && ps[c].slug == slug_of(name@));
            if c != gi {
                if c < gi {
                    assert(old(self)@.projects[c].slug != old(self)@.projects[gi].slug);
                } else {
                    assert(old(self)@.projects[gi].slug != old(self)@.projects[c].slug);
                }
                assert(false);
            }
        }
        self.projects.remove(idx);
        proof {
            ps.remove_ensures(gi);
            assert(self@.projects =~= ps.remove(gi)) by {
                assert(forall|t: int|
                    0 <= t < gi ==> #[trigger] self.projects@[t] == old(self).projects@[t]);
                assert(forall|t: int|
                    gi <= t < ps.len() - 1 ==> #[trigger] self.projects@[t] == old(
                        self,
                    ).projects@[t + 1]);
            }
            assert(self@.services == old(self)@.services);
            assert forall|t1: int, t2: int|
                0 <= t1 < t2 < self@.services.len() implies self@.services[t1].name
                != self@.services[t2].name by {
                assert(old(self)@.services[t1].name != old(self)@.services[t2].name);
            }
            assert forall|t: int, d: int|
                0 <= t < self@.services.len() && 0 <= d < self@.services[t].dependencies.len()
                    implies !dep_invalid(
                self@.services,
                self@.services[t].name,
                #[trigger] self@.services[t].dependencies[d],
            ) by {
                assert(!dep_invalid(
                    old(self)@.services,
                    old(self)@.services[t].name,
                    old(self)@.services[t].dependencies[d],
                ));
            }
            let np = self@.projects;
            assert forall|t1: int, t2: int|
                0 <= t1 < t2 < np.len() implies np[t1].slug != np[t2].slug by {
                let o1: int = if t1 < gi {
                    t1
                } else {
                    t1 + 1
                };
                let o2: int = if t2 < gi {
                    t2
                } else {
                    t2 + 1
                };
                assert(np[t1] == ps[o1] && np[t2] == ps[o2]);
                assert(old(self)@.projects[o1].slug != old(self)@.projects[o2].slug);
            }
            assert forall|t: int, k: int|
                0 <= t < np.len() && 0 <= k < np[t].services.len() implies has_service(
                self@.services,
                #[trigger] np[t].services[k],
            ) by {
                let o: int = if t < gi {
                    t
                } else {
                    t + 1
                };
                assert(np[t] == ps[o]);
                assert(has_service(old(self)@.services, old(self)@.projects[o].services[k]));
            }
        }
        Ok(())
    }

    /// Replaces the environment of an existing project.  Fails with
    /// `NotFound` when no project has the normalized slug.
    pub fn update_project(&mut self, name: String, environment: Vec<ConfigEntry>) -> (r: Result<
        (),
        RegistryError,
    >)
        requires
            old(self)@.wf(),
        ensures
            final(self)@.wf(),
            match r {
                Ok(()) => {
                    &&& has_project(old(self)@.projects, slug_of(name@))
                    &&& ({
                        let pi = project_index(old(self)@.projects, slug_of(name@));
                        let p = old(self)@.projects[pi];
                        final(self)@.projects == old(self)@.projects.update(
                            pi,
                            (ProjectView {
                                name: p.name,
                                slug: p.slug,
                                services: p.services,
                                url: p.url,
                                environment: environment.deep_view(),
                            }),
                        )
                    })
                    &&& final(self)@.services == old(self)@.services
                },
                Err(RegistryError::NotFound(n)) => n@ == name@ && !has_project(
                    old(self)@.projects,
                    slug_of(name@),
                ) && final(self)@ == old(self)@,
                Err(_) => false,
            },
    {
        let slug = crate::slug::normalize_slug(name.as_str());
        let idx = match find_project(&self.projects, slug.as_str()) {
            None => { return Err(RegistryError::NotFound(name)) },
            Some(i) => i,
        };
        let ghost ps = self@.projects;
        let ghost gi = idx as int;
        proof {
            assert(has_project(ps, slug_of(name@)));
            let c = project_index(ps, slug_of(name@));
            assert(0 <= c < ps.len() && ps[c].slug == slug_of(name@));
            if c != gi {
                if c < gi {
                    assert(old(self)@.projects[c].slug != old(self)@.projects[gi].slug);
                } else {
                    assert(old(self)@.projects[gi].slug != old(self)@.projects[c].slug);
                }
                assert(false);
            }
        }
        self.projects[idx].environment = environment;
        proof {
            let np = self@.projects;
            assert(np =~= ps.update(
                gi,
                (ProjectView {
                    name: ps[gi].name,
                    slug: ps[gi].slug,
                    services: ps[gi].services,
                    url: ps[gi].url,
                    environment: environment.deep_view(),
                }),
            ));
            assert(self@.services == old(self)@.services);
            assert forall|t1: int, t2: int|
                0 <= t1 < t2 < self@.services.len() implies self@.services[t1].name
                != self@.services[t2].name by {
                assert(old(self)@.services[t1].name != old(self)@.services[t2].name);
            }
            assert forall|t: int, d: int|
                0 <= t < self@.services.len() && 0 <= d < self@.services[t].dependencies.len()
                    implies !dep_invalid(
                self@.services,
                self@.services[t].name,
                #[trigger] self@.services[t].dependencies[d],
            ) by {
                assert(!dep_invalid(
                    old(self)@.services,
                    old(self)@.services[t].name,
                    old(self)@.services[t].dependencies[d],
                ));
            }
            assert(forall|t: int| 0 <= t < np.len() ==> #[trigger] np[t].slug == ps[t].slug);
            assert forall|t1: int, t2: int|
                0 <= t1 < t2 < np.len() implies np[t1].slug != np[t2].slug by {
                assert(old(self)@.projects[t1].slug != old(self)@.projects[t2].slug);
            }
            assert forall|t: int, k: int|
                0 <= t < np.len() && 0 <= k < np[t].services.len() implies has_service(
                self@.services,
                #[trigger] np[t].services[k],
            ) by {
                assert(np[t].services == ps[t].services);
                assert(has_service(old(self)@.services, old(self)@.projects[t].services[k]));
            }
        }
        Ok(())
    }

    /// Attaches an existing service to an existing project.  Fails with
    /// `NotFound` naming the service when it does not exist, and naming
    /// the project otherwise when the slug is unknown.  Attaching an
    /// already attached service is a no-op, not an error.
    pub fn add_service_to_project(&mut self, project_name: String, service_name: String) -> (r:
        Result<(), RegistryError>)
        requires
            old(self)@.wf(),
        ensures
            final(self)@.wf(),
            match r {
                Ok(()) => {
                    &&& has_service(old(self)@.services, service_name@)
                    &&& has_project(old(self)@.projects, slug_of(project_name@))
                    &&& ({
                        let pi = project_index(old(self)@.projects, slug_of(project_name@));
                        let p = old(self)@.projects[pi];
                        if p.services.contains(service_name@) {
                            final(self)@ == old(self)@
                        } else {
                            final(self)@.projects == old(self)@.projects.update(
                                pi,
                                (ProjectView {
                                    name: p.name,
                                    slug: p.slug,
                                    services: p.services.push(service_name@),
                                    url: p.url,
                                    environment: p.environment,
                                }),
                            ) && final(self)@.services == old(self)@.services
                        }
                    })
                },
                Err(RegistryError::NotFound(n)) => final(self)@ == old(self)@ && (if !has_service(
                    old(self)@.services,
                    service_name@,
                ) {
                    n@ == service_name@
                } else {
                    n@ == project_name@ && !has_project(old(self)@.projects, slug_of(project_name@))
                }),
                Err(_) => false,
            },
    {
        if find_service(&self.services, service_name.as_str()).is_none() {
            return Err(RegistryError::NotFound(service_name));
        }
        let slug = crate::slug::normalize_slug(project_name.as_str());
        let idx = match find_project(&self.projects, slug.as_str()) {
            None => { return Err(RegistryError::NotFound(project_name)) },
            Some(i) => i,
        };
        let ghost ps = self@.projects;
        let ghost gi = idx as int;
        proof {
            assert(has_project(ps, slug_of(project_name@)));
            let c = project_index(ps, slug_of(project_name@));
            assert(0 <= c < ps.len() && ps[c].slug == slug_of(project_name@));
            if c != gi {
                if c < gi {
                    assert(old(self)@.projects[c].slug != old(self)@.projects[gi].slug);
                } else {
                    assert(old(self)@.projects[gi].slug != old(self)@.projects[c].slug);
                }
                assert(false);
            }
        }
        if contains_name(&self.projects[idx].services, service_name.as_str()) {
            return Ok(());
        }
        let ghost sv = service_name@;
        self.projects[idx].services.push(service_name);
        proof {
            let np = self@.projects;
            assert(self@.projects[gi].services =~= ps[gi].services.push(sv));
            assert(np =~= ps.update(
                gi,
                (ProjectView {
                    name: ps[gi].name,
                    slug: ps[gi].slug,
                    services: ps[gi].services.push(sv),
                    url: ps[gi].url,
                    environment: ps[gi].environment,
                }),
            ));
            assert(self@.services == old(self)@.services);
            assert forall|t1: int, t2: int|
                0 <= t1 < t2 < self@.services.len() implies self@.services[t1].name
                != self@.services[t2].name by {
                assert(old(self)@.services[t1].name != old(self)@.services[t2].name);
            }
            assert forall|t: int, d: int|
                0 <= t < self@.services.len() && 0 <= d < self@.services[t].dependencies.len()
                    implies !dep_invalid(
                self@.services,
                self@.services[t].name,
                #[trigger] self@.services[t].dependencies[d],
            ) by {
                assert(!dep_invalid(
                    old(self)@.services,
                    old(self)@.services[t].name,
                    old(self)@.services[t].dependencies[d],
                ));
            }
            assert(forall|t: int| 0 <= t < np.len() ==> #[trigger] np[t].slug == ps[t].slug);
            assert forall|t1: int, t2: int|
                0 <= t1 < t2 < np.len() implies np[t1].slug != np[t2].slug by {
                assert(old(self)@.projects[t1].slug != old(self)@.projects[t2].slug);
            }
            assert forall|t: int, k: int|
                0 <= t < np.len() && 0 <= k < np[t].services.len() implies has_service(
                self@.services,
                #[trigger] np[t].services[k],
            ) by {
                if t == gi && k == np[t].services.len() - 1 {
                    assert(np[t].services[k] == sv);
                } else {
                    assert(np[t].services[k] == old(self)@.projects[t].services[k]);
                    assert(has_service(old(self)@.services, old(self)@.projects[t].services[k]));
                }
            }
        }
        Ok(())
    }

    /// Detaches a service name from a project.  Fails with `NotFound`
    /// when no project has the normalized slug; detaching a name that is
    /// not attached is a no-op.
    pub fn remove_service_from_project(&mut self, project_name: String, service_name: String) -> (r:
        Result<(), RegistryError>)
        requires
            old(self)@.wf(),
        ensures
            final(self)@.wf(),
            match r {
                Ok(()) => {
                    &&& has_project(old(self)@.projects, slug_of(project_name@))
                    &&& ({
                        let pi = project_index(old(self)@.projects, slug_of(project_name@));
                        let p = old(self)@.projects[pi];
                        final(self)@.projects == old(self)@.projects.update(
                            pi,
                            (ProjectView {
                                name: p.name,
                                slug: p.slug,
                                services: without_name(p.services, service_name@),
                                url: p.url,
                                environment: p.environment,
                            }),
                        )
                    })
                    &&& final(self)@.services == old(self)@.services
                },
                Err(RegistryError::NotFound(n)) => n@ == project_name@ && !has_project(
                    old(self)@.projects,
                    slug_of(project_name@),
                ) && final(self)@ == old(self)@,
                Err(_) => false,
            },
    {
        let slug = crate::slug::normalize_slug(project_name.as_str());
        let idx = match find_project(&self.projects, slug.as_str()) {
            None => { return Err(RegistryError::NotFound(project_name)) },
            Some(i) => i,
        };
        let ghost ps = self@.projects;
        let ghost gi = idx as int;
        proof {
            assert(has_project(ps, slug_of(project_name@)));
            let c = project_index(ps, slug_of(project_name@));
            assert(0 <= c < ps.len() && ps[c].slug == slug_of(project_name@));
            if c != gi {
                if c < gi {
                    assert(old(self)@.projects[c].slug != old(self)@.projects[gi].slug);
                } else {
                    assert(old(self)@.projects[gi].slug != old(self)@.projects[c].slug);
                }
                assert(false);
            }
        }
        let filtered = remove_name_from(&self.projects[idx].services, service_name.as_str());
        self.projects[idx].services = filtered;
        proof {
            let np = self@.projects;
            assert(np =~= ps.update(
                gi,
                (ProjectView {
                    name: ps[gi].name,
                    slug: ps[gi].slug,
                    services: without_name(ps[gi].services, service_name@),
                    url: ps[gi].url,
                    environment: ps[gi].environment,
                }),
            ));
            assert(self@.services == old(self)@.services);
            assert forall|t1: int, t2: int|
                0 <= t1 < t2 < self@.services.len() implies self@.services[t1].name
                != self@.services[t2].name by {
                assert(old(self)@.services[t1].name != old(self)@.services[t2].name);
            }
            assert forall|t: int, d: int|
                0 <= t < self@.services.len() && 0 <= d < self@.services[t].dependencies.len()
                    implies !dep_invalid(
                self@.services,
                self@.services[t].name,
                #[trigger] self@.services[t].dependencies[d],
            ) by {
                assert(!dep_invalid(
                    old(self)@.services,
                    old(self)@.services[t].name,
                    old(self)@.services[t].dependencies[d],
                ));
            }
            assert(forall|t: int| 0 <= t < np.len() ==> #[trigger] np[t].slug == ps[t].slug);
            assert forall|t1: int, t2: int|
                0 <= t1 < t2 < np.len() implies np[t1].slug != np[t2].slug by {
                assert(old(self)@.projects[t1].slug != old(self)@.projects[t2].slug);
            }
            assert forall|t: int, k: int|
                0 <= t < np.len() && 0 <= k < np[t].services.len() implies has_service(
                self@.services,
                #[trigger] np[t].services[k],
            ) by {
                if t == gi {
                    lemma_without_name_props(ps[gi].services, service_name@);
                    let x = np[t].services[k];
                    assert(ps[gi].services.contains(x));
                    let k0 = choose|k0: int|
                        0 <= k0 < ps[gi].services.len() && ps[gi].services[k0] == x;
                    assert(old(self)@.projects[gi].services[k0] == x);
                    assert(has_service(old(self)@.services, x));
                } else {
                    assert(np[t].services[k] == old(self)@.projects[t].services[k]);
                    assert(has_service(old(self)@.services, old(self)@.projects[t].services[k]));
                }
            }
        }
        Ok(())
    }

    /// Every service, in registry order.
    pub fn list_services(&self) -> (r: Vec<Service>)
        ensures
            r.deep_view() == self@.services,
    {
        let mut r: Vec<Service> = Vec::new();
        let mut i: usize = 0;
        while i < self.services.len()
            invariant
                i <= self.services.len(),
                r.len() == i,
                forall|j: int| 0 <= j < i ==> r.deep_view()[j] == #[trigger] self@.services[j],
            decreases self.services.len() - i,
        {
            let s = self.services[i].clone();
            proof {
                assert(s@ == self@.services[i as int]);
            }
            r.push(s);
            proof {
                assert(r.deep_view()[i as int] == self@.services[i as int]);
            }
            i = i + 1;
        }
        proof {
            assert(r.deep_view() =~= self@.services);
        }
        r
    }

    /// Every project, in registry order.
    pub fn list_projects(&self) -> (r: Vec<Project>)
        ensures
            r.deep_view() == self@.projects,
    {
        let mut r: Vec<Project> = Vec::new();
        let mut i: usize = 0;
        while i < self.projects.len()
            invariant
                i <= self.projects.len(),
                r.len() == i,
                forall|j: int| 0 <= j < i ==> r.deep_view()[j] == #[trigger] self@.projects[j],
            decreases self.projects.len() - i,
        {
            let p = self.projects[i].clone();
            proof {
                assert(p@ == self@.projects[i as int]);
            }
            r.push(p);
            proof {
                assert(r.deep_view()[i as int] == self@.projects[i as int]);
            }
            i = i + 1;
        }
        proof {
            assert(r.deep_view() =~= self@.projects);
        }
        r
    }

    /// The service with this name, if any.
    pub fn get_service_details(&self, name: String) -> (r: Option<Service>)
        requires
            self@.wf(),
        ensures
            match r {
                Some(s) => has_service(self@.services, name@) && s@ == self@.services[service_index(
                    self@.services,
                    name@,
                )],
                None => !has_service(self@.services, name@),
            },
    {
        match find_service(&self.services, name.as_str()) {
            None => None,
            Some(i) => {
                proof {
                    assert(has_service(self@.services, name@));
                    let c = service_index(self@.services, name@);
                    assert(0 <= c < self@.services.len() && self@.services[c].name == name@);
                    if c != i as int {
                        if c < i as int {
                            assert(self@.services[c].name != self@.services[i as int].name);
                        } else {
                            assert(self@.services[i as int].name != self@.services[c].name);
                        }
                        assert(false);
                    }
                }
                Some(self.services[i].clone())
            },
        }
    }

    /// The project whose slug is normalized from this display name, if
    /// any.
    pub fn get_project_details(&self, name: String) -> (r: Option<Project>)
        requires
            self@.wf(),
        ensures
            match r {
                Some(p) => has_project(self@.projects, slug_of(name@)) && p@
                    == self@.projects[project_index(self@.projects, slug_of(name@))],
                None => !has_project(self@.projects, slug_of(name@)),
            },
    {
        let slug = crate::slug::normalize_slug(name.as_str());
        match find_project(&self.projects, slug.as_str()) {
            None => None,
            Some(i) => {
                proof {
                    assert(has_project(self@.projects, slug_of(name@)));
                    let c = project_index(self@.projects, slug_of(name@));
                    assert(0 <= c < self@.projects.len() && self@.projects[c].slug == slug_of(
                        name@,
                    ));
                    if c != i as int {
                        if c < i as int {
                            assert(self@.projects[c].slug != self@.projects[i as int].slug);
                        } else {
                            assert(self@.projects[i as int].slug != self@.projects[c].slug);
                        }
                        assert(false);
                    }
                }
                Some(self.projects[i].clone())
            },
        }
    }
}

} // verus!
