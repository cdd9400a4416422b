//! The edge-routing bootstrapper: decides, from what already exists on
//! disk, which pieces of the shared reverse-proxy bootstrap to write —
//! the static routing configuration and the self-signed wildcard
//! certificate pair.  It never overwrites what is already there, so a
//! second run with nothing deleted in between performs no writes.

use vstd::prelude::*;
use vstd::string::StringExecFns;

verus! {

/// What the bootstrapper finds on disk: whether the routing-config
/// file and the certificate pair already exist.
#[derive(Clone, Copy, Debug, PartialEq, Eq, Structural)]
pub struct TraefikLayout {
    pub config_exists: bool,
    pub cert_exists: bool,
    pub key_exists: bool,
}

/// The writes the bootstrapper asks for: the routing-config content to
/// write (only when the file is absent) and whether to synthesize the
/// certificate pair.
pub struct TraefikPlan {
    pub config_write: Option<String>,
    pub generate_certificate: bool,
}

pub ghost struct TraefikPlanView {
    pub config_write: Option<Seq<char>>,
    pub generate_certificate: bool,
}

impl View for TraefikPlan {
    type V = TraefikPlanView;

    open spec fn view(&self) -> TraefikPlanView {
        (TraefikPlanView {
            config_write: self.config_write.deep_view(),
            generate_certificate: self.generate_certificate,
        })
    }
}

/// The fixed routing-config bootstrap: dashboard in insecure mode, INFO
/// logging, container discovery bound to the shared network with
/// nothing exposed by default, HTTP permanently redirected to HTTPS,
/// and the wildcard TLS material for the base domain.
pub open spec fn traefik_config_text() -> Seq<char> {
    r#"[api]
  dashboard = true
  insecure = true

[log]
  level = "INFO"

[providers.docker]
  endpoint = "unix:///var/run/docker.sock"
  exposedByDefault = false
  network = "dev_env_network"
  watch = true

[entryPoints.web]
  address = ":80"
  [entryPoints.web.http.redirections.entryPoint]
    to = "websecure"
    scheme = "https"

[entryPoints.websecure]
  address = ":443"

[tls]
  [[tls.certificates]]
    certFile = "/etc/certs/local.test.crt"
    keyFile = "/etc/certs/local.test.key"

  [[tls.domains]]
    main = "*.local.test"
    sans = ["local.test"]
"#@
}

/// The plan for a layout: write the routing config only when it is
/// absent, and synthesize the certificate pair only when the
/// certificate or the key is missing.
pub open spec fn bootstrap_plan(l: TraefikLayout) -> TraefikPlanView {
    (TraefikPlanView {
        config_write: if l.config_exists {
            None
        } else {
            Some(traefik_config_text())
        },
        generate_certificate: !l.cert_exists || !l.key_exists,
    })
}

/// A plan that touches nothing.
pub open spec fn plan_writes_nothing(p: TraefikPlanView) -> bool {
    p.config_write is None && !p.generate_certificate
}

/// The layout after a plan has been carried out: whatever it wrote now
/// exists, and nothing was removed.
pub open spec fn apply_plan(l: TraefikLayout, p: TraefikPlanView) -> TraefikLayout {
    (TraefikLayout {
        config_exists: l.config_exists || p.config_write is Some,
        cert_exists: l.cert_exists || p.generate_certificate,
        key_exists: l.key_exists || p.generate_certificate,
    })
}

/// Decides what the edge-proxy bootstrap must write for this layout.
pub fn generate_traefik_config(layout: TraefikLayout) -> (r: TraefikPlan)
    ensures
        r@ == bootstrap_plan(layout),
{
    let config_write = if layout.config_exists {
        None
    } else {
        Some(
            String::from_str(
                r#"[api]
  dashboard = true
  insecure = true

[log]
  level = "INFO"

[providers.docker]
  endpoint = "unix:///var/run/docker.sock"
  exposedByDefault = false
  network = "dev_env_network"
  watch = true

[entryPoints.web]
  address = ":80"
  [entryPoints.web.http.redirections.entryPoint]
    to = "websecure"
    scheme = "https"

[entryPoints.websecure]
  address = ":443"

[tls]
  [[tls.certificates]]
    certFile = "/etc/certs/local.test.crt"
    keyFile = "/etc/certs/local.test.key"

  [[tls.domains]]
    main = "*.local.test"
    sans = ["local.test"]
"#,
            ),
        )
    };
    TraefikPlan {
        config_write,
        generate_certificate: !layout.cert_exists || !layout.key_exists,
    }
}

/// Bootstrapping is idempotent: after one plan has been carried out,
/// the plan for the resulting layout performs no writes.
pub proof fn lemma_bootstrap_idempotent(l: TraefikLayout)
    ensures
        plan_writes_nothing(bootstrap_plan(apply_plan(l, bootstrap_plan(l)))),
{
}

} // verus!
