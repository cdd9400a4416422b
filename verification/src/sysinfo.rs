//! Host-information parsing: the pure extraction of the operating
//! system name, the CPU model and the total memory from the text files
//! and command outputs that the host exposes.  Probing the host itself
//! is a collaborator's job; these functions turn what it read into
//! values.

use vstd::prelude::*;
use vstd::string::{StrSliceExecFns, StringExecFns};

use crate::strutil::{find_char, first_index, lines_vec, parse_u64, parse_u64_spec, spec_lines,
    starts_with, trim_char, trim_char_str, trim_spaces, trim_spaces_str};

verus! {

/// What is known about the host system: platform name, version,
/// hostname, CPU, memory, and the detected container-tool versions.
#[derive(Debug, PartialEq, Eq)]
pub struct SystemInfo {
    pub os_type: String,
    pub os_version: String,
    pub hostname: String,
    pub cpu_info: String,
    pub memory_total: u64,
    pub docker_version: Option<String>,
    pub docker_compose_version: Option<String>,
}

/// Whether the line begins with this prefix.
pub open spec fn line_has_prefix(l: Seq<char>, p: Seq<char>) -> bool {
    l.len() >= p.len() && l.subrange(0, p.len() as int) == p
}

/// The first line that begins with the prefix, if any.
pub open spec fn first_line_with_prefix(ls: Seq<Seq<char>>, p: Seq<char>) -> Option<Seq<char>>
    decreases ls.len(),
{
    if ls.len() == 0 {
        None
    } else if line_has_prefix(ls[0], p) {
        Some(ls[0])
    } else {
        first_line_with_prefix(ls.subrange(1, ls.len() as int), p)
    }
}

proof fn lemma_first_line_with_prefix(ls: Seq<Seq<char>>, p: Seq<char>, k: int)
    requires
        0 <= k <= ls.len(),
        forall|j: int| 0 <= j < k ==> !line_has_prefix(#[trigger] ls[j], p),
    ensures
        k == ls.len() ==> first_line_with_prefix(ls, p) is None,
        k < ls.len() && line_has_prefix(ls[k], p) ==> first_line_with_prefix(ls, p) == Some(
            ls[k],
        ),
    decreases ls.len(),
{
    if ls.len() > 0 && k > 0 {
        let rest = ls.subrange(1, ls.len() as int);
        assert(forall|j: int| 0 <= j < rest.len() ==> #[trigger] rest[j] == ls[j + 1]);
        lemma_first_line_with_prefix(rest, p, k - 1);
    }
}

/// Finds the first line of the text that begins with the prefix.
fn find_line_with_prefix(text: &str, prefix: &str) -> (r: Option<String>)
    ensures
        match r {
            Some(l) => first_line_with_prefix(spec_lines(text@), prefix@) == Some(l@)
                && line_has_prefix(l@, prefix@),
            None => first_line_with_prefix(spec_lines(text@), prefix@) is None,
        },
{
    let lines = lines_vec(text);
    let mut i: usize = 0;
    while i < lines.len()
        invariant
            i <= lines.len(),
            lines.deep_view() == spec_lines(text@),
            forall|j: int| 0 <= j < i ==> !line_has_prefix(#[trigger] spec_lines(text@)[j], prefix@),
        decreases lines.len() - i,
    {
        if starts_with(lines[i].as_str(), prefix) {
            proof {
                lemma_first_line_with_prefix(spec_lines(text@), prefix@, i as int);
            }
            return Some(lines[i].clone());
        }
        i = i + 1;
    }
    proof {
        lemma_first_line_with_prefix(spec_lines(text@), prefix@, spec_lines(text@).len() as int);
    }
    None
}

/// The pretty platform name of an os-release text: the value of the
/// first `PRETTY_NAME=` line, with surrounding quotes removed.
pub open spec fn pretty_name_of(text: Seq<char>) -> Option<Seq<char>> {
    match first_line_with_prefix(spec_lines(text), "PRETTY_NAME="@) {
        None => None,
        Some(l) => Some(trim_char(l.subrange("PRETTY_NAME="@.len() as int, l.len() as int), '"')),
    }
}

/// Extracts the pretty platform name from an os-release text.
pub fn parse_os_release_pretty_name(text: &str) -> (r: Option<String>)
    ensures
        match r {
            Some(v) => pretty_name_of(text@) == Some(v@),
            None => pretty_name_of(text@) is None,
        },
{
    match find_line_with_prefix(text, "PRETTY_NAME=") {
        None => None,
        Some(l) => {
            let plen = "PRETTY_NAME=".unicode_len();
            let n = l.as_str().unicode_len();
            let value = l.as_str().substring_char(plen, n);
            Some(trim_char_str(value, '"'))
        },
    }
}

/// The CPU model of a cpuinfo text: what follows the first colon on
/// the first `model name` line, trimmed; absent when there is no such
/// line or it has no colon.
pub open spec fn cpu_model_of(text: Seq<char>) -> Option<Seq<char>> {
    match first_line_with_prefix(spec_lines(text), "model name"@) {
        None => None,
        Some(l) => {
            let k = first_index(l, ':');
            if k < l.len() {
                Some(trim_spaces(l.subrange(k + 1, l.len() as int)))
            } else {
                None
            }
        },
    }
}

/// Extracts the CPU model from a cpuinfo text.
pub fn parse_cpu_model(text: &str) -> (r: Option<String>)
    ensures
        match r {
            Some(v) => cpu_model_of(text@) == Some(v@),
            None => cpu_model_of(text@) is None,
        },
{
    match find_line_with_prefix(text, "model name") {
        None => None,
        Some(l) => {
            let k = find_char(l.as_str(), ':');
            let n = l.as_str().unicode_len();
            if k < n {
                Some(trim_spaces_str(l.as_str().substring_char(k + 1, n)))
            } else {
                None
            }
        },
    }
}

/// The total memory in kilobytes of a meminfo text: the first decimal
/// token after the colon of the first `MemTotal:` line.
pub open spec fn mem_total_kb_of(text: Seq<char>) -> Option<int> {
    match first_line_with_prefix(spec_lines(text), "MemTotal:"@) {
        None => None,
        Some(l) => {
            let k = first_index(l, ':');
            if k < l.len() {
                let t = trim_spaces(l.subrange(k + 1, l.len() as int));
                parse_u64_spec(t.subrange(0, first_index(t, ' ')))
            } else {
                None
            }
        },
    }
}

/// The total memory in bytes: the kilobyte figure scaled, absent when
/// the product leaves the `u64` range.
pub open spec fn mem_total_bytes_of(text: Seq<char>) -> Option<int> {
    match mem_total_kb_of(text) {
        None => None,
        Some(kb) => if kb * 1024 <= u64::MAX {
            Some(kb * 1024)
        } else {
            None
        },
    }
}

/// Extracts the total memory in bytes from a meminfo text.
pub fn parse_mem_total_bytes(text: &str) -> (r: Option<u64>)
    ensures
        match r {
            Some(v) => mem_total_bytes_of(text@) == Some(v as int),
            None => mem_total_bytes_of(text@) is None,
        },
{
    match find_line_with_prefix(text, "MemTotal:") {
        None => None,
        Some(l) => {
            let k = find_char(l.as_str(), ':');
            let n = l.as_str().unicode_len();
            if k < n {
                let t = trim_spaces_str(l.as_str().substring_char(k + 1, n));
                let sp = find_char(t.as_str(), ' ');
                let token = t.as_str().substring_char(0, sp);
                match parse_u64(token) {
                    None => None,
                    Some(kb) => match kb.checked_mul(1024) {
                        None => None,
                        Some(bytes) => Some(bytes),
                    },
                }
            } else {
                None
            }
        },
    }
}

} // verus!
