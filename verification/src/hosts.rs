//! Host-file helpers: the loopback entries the environment needs for
//! the base domain and its well-known subdomains, which of them a hosts
//! file already carries, and which are still missing.

use vstd::prelude::*;

use crate::strutil::{concat_strs, contains_str, contains_sub};

verus! {

/// The loopback entries required for the base domain: the bare domain
/// and the proxy-dashboard, database-admin and mail subdomains.
pub open spec fn required_entries(domain: Seq<char>) -> Seq<Seq<char>> {
    seq![
        "127.0.0.1 "@ + domain,
        "127.0.0.1 traefik."@ + domain,
        "127.0.0.1 pma."@ + domain,
        "127.0.0.1 mail."@ + domain,
    ]
}

/// Each required entry with whether the hosts file already carries it.
pub open spec fn entry_status(content: Seq<char>, domain: Seq<char>) -> Seq<(Seq<char>, bool)> {
    required_entries(domain).map_values(|e: Seq<char>| (e, contains_sub(content, e)))
}

/// The required entries the hosts file does not carry, in order.
pub open spec fn missing_from(content: Seq<char>, es: Seq<Seq<char>>) -> Seq<Seq<char>>
    decreases es.len(),
{
    if es.len() == 0 {
        Seq::empty()
    } else {
        let rest = missing_from(content, es.drop_last());
        if contains_sub(content, es.last()) {
            rest
        } else {
            rest.push(es.last())
        }
    }
}

fn build_entries(base_domain: &str) -> (r: Vec<String>)
    ensures
        r.deep_view() =~= required_entries(base_domain@),
{
    let mut r: Vec<String> = Vec::new();
    r.push(concat_strs("127.0.0.1 ", base_domain));
    r.push(concat_strs("127.0.0.1 traefik.", base_domain));
    r.push(concat_strs("127.0.0.1 pma.", base_domain));
    r.push(concat_strs("127.0.0.1 mail.", base_domain));
    r
}

/// Reports, for each required entry of the base domain, whether the
/// given hosts-file content already carries it.
pub fn check_hosts_entries(hosts_content: &str, base_domain: &str) -> (r: Vec<(String, bool)>)
    ensures
        r.deep_view() == entry_status(hosts_content@, base_domain@),
{
    let entries = build_entries(base_domain);
    let mut r: Vec<(String, bool)> = Vec::new();
    let mut i: usize = 0;
    while i < entries.len()
        invariant
            i <= entries.len(),
            entries.deep_view() =~= required_entries(base_domain@),
            r.len() == i,
            forall|j: int|
                0 <= j < i ==> r.deep_view()[j] == #[trigger] entry_status(
                    hosts_content@,
                    base_domain@,
                )[j],
        decreases entries.len() - i,
    {
        let present = contains_str(hosts_content, entries[i].as_str());
        r.push((entries[i].clone(), present));
        i = i + 1;
    }
    proof {
        assert(r.deep_view() =~= entry_status(hosts_content@, base_domain@));
    }
    r
}

/// The required entries of the base domain that the given hosts-file
/// content is still missing; an empty result means the file needs no
/// change.
pub fn setup_hosts(hosts_content: &str, base_domain: &str) -> (missing: Vec<String>)
    ensures
        missing.deep_view() == missing_from(hosts_content@, required_entries(base_domain@)),
{
    let entries = build_entries(base_domain);
    let mut missing: Vec<String> = Vec::new();
    let mut i: usize = 0;
    while i < entries.len()
        invariant
            i <= entries.len(),
            entries.deep_view() =~= required_entries(base_domain@),
            missing.deep_view() == missing_from(
                hosts_content@,
                required_entries(base_domain@).subrange(0, i as int),
            ),
        decreases entries.len() - i,
    {
        let ghost es = required_entries(base_domain@);
        let ghost before = missing.deep_view();
        if !contains_str(hosts_content, entries[i].as_str()) {
            missing.push(entries[i].clone());
            proof {
                assert(missing.deep_view() =~= before.push(es[i as int]));
            }
        }
        proof {
            let pre1 = es.subrange(0, i + 1);
            assert(pre1.drop_last() =~= es.subrange(0, i as int));
            assert(pre1.last() == es[i as int]);
        }
        i = i + 1;
    }
    proof {
        let es = required_entries(base_domain@);
        assert(es.subrange(0, es.len() as int) =~= es);
        assert(es.len() == entries.len());
    }
    missing
}

} // verus!
