//! The slug normalizer: maps an arbitrary display name to a canonical
//! identifier made of lowercase ASCII letters, digits and single hyphens,
//! with no hyphen at either end.  The slug is the stable key for projects
//! and a building block of generated hostnames, file paths and routing
//! rules.

use vstd::prelude::*;
use vstd::string::{StrSliceExecFns, StringExecFns};

use crate::strutil::push_char;

verus! {

/// One character lowercased and run through the fixed accent table:
/// ASCII uppercase maps to lowercase, the accented Latin letters of the
/// table map to their unaccented ASCII equivalents, every other character
/// is left unchanged.
pub open spec fn fold_char(c: char) -> char {
    if 'A' <= c && c <= 'Z' {
        (((c as u8) + 32) as char)
    } else {
        match c {
            'é' | 'è' | 'ê' | 'ë' | 'É' | 'È' | 'Ê' | 'Ë' => 'e',
            'à' | 'â' | 'ä' | 'À' | 'Â' | 'Ä' => 'a',
            'î' | 'ï' | 'Î' | 'Ï' => 'i',
            'ô' | 'ö' | 'Ô' | 'Ö' => 'o',
            'ù' | 'û' | 'ü' | 'Ù' | 'Û' | 'Ü' => 'u',
            'ÿ' | 'Ÿ' => 'y',
            'ç' | 'Ç' => 'c',
            _ => c,
        }
    }
}

/// A character that may stand in a slug besides the hyphen: a lowercase
/// ASCII letter or a digit.
pub open spec fn is_keep(c: char) -> bool {
    ('a' <= c && c <= 'z') || ('0' <= c && c <= '9')
}

/// What one input character contributes to the slug before runs of
/// hyphens are collapsed: its folded form if that is a letter or digit,
/// and a hyphen otherwise.
pub open spec fn slug_char(c: char) -> char {
    if is_keep(fold_char(c)) {
        fold_char(c)
    } else {
        '-'
    }
}

/// Every character mapped through `slug_char`.
pub open spec fn mapped(s: Seq<char>) -> Seq<char> {
    s.map_values(|c: char| slug_char(c))
}

/// Runs of two or more consecutive hyphens collapsed into a single one.
pub open spec fn collapse(s: Seq<char>) -> Seq<char>
    decreases s.len(),
{
    if s.len() == 0 {
        Seq::empty()
    } else if s.last() == '-' && s.len() >= 2 && s[s.len() - 2] == '-' {
        collapse(s.drop_last())
    } else {
        collapse(s.drop_last()).push(s.last())
    }
}

/// All leading hyphens removed.
pub open spec fn trim_leading(s: Seq<char>) -> Seq<char>
    decreases s.len(),
{
    if s.len() > 0 && s[0] == '-' {
        trim_leading(s.subrange(1, s.len() as int))
    } else {
        s
    }
}

/// All trailing hyphens removed.
pub open spec fn trim_trailing(s: Seq<char>) -> Seq<char>
    decreases s.len(),
{
    if s.len() > 0 && s.last() == '-' {
        trim_trailing(s.drop_last())
    } else {
        s
    }
}

/// The canonical slug of a display name: every character folded and
/// mapped, hyphen runs collapsed, hyphens at both ends trimmed.
pub open spec fn slug_of(s: Seq<char>) -> Seq<char> {
    trim_trailing(trim_leading(collapse(mapped(s))))
}

fn fold_char_exec(c: char) -> (r: char)
    ensures
        r == fold_char(c),
{
    if 'A' <= c && c <= 'Z' {
        ((c as u8) + 32) as char
    } else {
        match c {
            'é' | 'è' | 'ê' | 'ë' | 'É' | 'È' | 'Ê' | 'Ë' => 'e',
            'à' | 'â' | 'ä' | 'À' | 'Â' | 'Ä' => 'a',
            'î' | 'ï' | 'Î' | 'Ï' => 'i',
            'ô' | 'ö' | 'Ô' | 'Ö' => 'o',
            'ù' | 'û' | 'ü' | 'Ù' | 'Û' | 'Ü' => 'u',
            'ÿ' | 'Ÿ' => 'y',
            'ç' | 'Ç' => 'c',
            _ => c,
        }
    }
}

fn slug_char_exec(c: char) -> (r: char)
    ensures
        r == slug_char(c),
{
    let f = fold_char_exec(c);
    if ('a' <= f && f <= 'z') || ('0' <= f && f <= '9') {
        f
    } else {
        '-'
    }
}

proof fn lemma_collapse_last(s: Seq<char>)
    requires
        s.len() > 0,
    ensures
        collapse(s).len() > 0,
        collapse(s).last() == s.last(),
    decreases s.len(),
{
    if s.last() == '-' && s.len() >= 2 && s[s.len() - 2] == '-' {
        lemma_collapse_last(s.drop_last());
        assert(s.drop_last().last() == s[s.len() - 2]);
    }
}

proof fn lemma_collapse_push(s: Seq<char>, c: char)
    ensures
        collapse(s.push(c)) == (if c == '-' && s.len() > 0 && s.last() == '-' {
            collapse(s)
        } else {
            collapse(s).push(c)
        }),
{
    assert(s.push(c).drop_last() =~= s);
    assert(s.push(c).last() == c);
    if s.len() > 0 {
        assert(s.push(c)[s.push(c).len() - 2] == s.last());
    }
}

proof fn lemma_trim_leading_last(s: Seq<char>)
    ensures
        trim_leading(s).len() <= s.len(),
        trim_leading(s).len() > 0 ==> s.len() > 0 && trim_leading(s).last() == s.last(),
    decreases s.len(),
{
    if s.len() > 0 && s[0] == '-' {
        lemma_trim_leading_last(s.subrange(1, s.len() as int));
    }
}

proof fn lemma_trim_leading_push(s: Seq<char>, c: char)
    ensures
        trim_leading(s.push(c)) == (if trim_leading(s).len() == 0 && c == '-' {
            Seq::<char>::empty()
        } else {
            trim_leading(s).push(c)
        }),
    decreases s.len(),
{
    if s.len() == 0 {
        assert(s.push(c)[0] == c);
        assert(trim_leading(s) == s);
        if c == '-' {
            assert(s.push(c).subrange(1, 1) =~= Seq::<char>::empty());
            assert(trim_leading(s.push(c)) == trim_leading(s.push(c).subrange(1, 1)));
            assert(trim_leading(Seq::<char>::empty()) == Seq::<char>::empty());
        } else {
            assert(trim_leading(s.push(c)) == s.push(c));
            assert(s =~= Seq::<char>::empty());
        }
    } else if s[0] == '-' {
        let rest = s.subrange(1, s.len() as int);
        assert(s.push(c)[0] == '-');
        assert(s.push(c).subrange(1, s.push(c).len() as int) =~= rest.push(c));
        assert(trim_leading(s.push(c)) == trim_leading(rest.push(c)));
        assert(trim_leading(s) == trim_leading(rest));
        lemma_trim_leading_push(rest, c);
    } else {
        assert(s.push(c)[0] == s[0]);
        assert(trim_leading(s.push(c)) == s.push(c));
        assert(trim_leading(s) == s);
    }
}

/// How one more mapped character changes the partially normalized slug
/// (collapsed, with leading hyphens trimmed).
proof fn lemma_partial_step(p: Seq<char>, c: char)
    ensures
        ({
            let tp = trim_leading(collapse(p));
            let tq = trim_leading(collapse(p.push(c)));
            if c != '-' {
                tq == tp.push(c)
            } else if tp.len() > 0 && tp.last() != '-' {
                tq == tp.push('-')
            } else {
                tq == tp
            }
        }),
{
    let tp = trim_leading(collapse(p));
    lemma_collapse_push(p, c);
    if c != '-' {
        lemma_trim_leading_push(collapse(p), c);
    } else {
        if p.len() > 0 && p.last() == '-' {
            lemma_collapse_last(p);
            lemma_trim_leading_last(collapse(p));
        } else {
            lemma_trim_leading_push(collapse(p), '-');
            if tp.len() > 0 {
                lemma_trim_leading_last(collapse(p));
                assert(collapse(p).len() > 0);
                assert(p.len() > 0) by {
                    if p.len() == 0 {
                        assert(collapse(p).len() == 0);
                    }
                }
                lemma_collapse_last(p);
            }
        }
    }
}

/// Maps an arbitrary display name to its canonical slug: lowercase the
/// input, replace the fixed table of accented Latin letters with their
/// ASCII equivalents, replace every other character that is not a
/// lowercase letter or digit with a hyphen, collapse hyphen runs, and
/// trim hyphens from both ends.
pub fn normalize_slug(input: &str) -> (r: String)
    ensures
        r@ == slug_of(input@),
{
    let n = input.unicode_len();
    let mut out = String::new();
    let mut pending = false;
    let mut i: usize = 0;
    while i < n
        invariant
            i <= n,
            n == input@.len(),
            out@.len() > 0 ==> out@.last() != '-',
            pending ==> out@.len() > 0,
            (if pending {
                out@.push('-')
            } else {
                out@
            }) == trim_leading(collapse(mapped(input@.subrange(0, i as int)))),
        decreases n - i,
    {
        let c = input.get_char(i);
        let m = slug_char_exec(c);
        proof {
            let prefix = input@.subrange(0, i as int);
            assert(input@.subrange(0, i + 1) =~= prefix.push(input@[i as int]));
            assert(mapped(prefix.push(c)) =~= mapped(prefix).push(slug_char(c)));
            lemma_partial_step(mapped(prefix), m);
        }
        if m == '-' {
            if !out.as_str().is_empty() {
                pending = true;
            }
        } else {
            if pending {
                push_char(&mut out, '-');
                pending = false;
            }
            push_char(&mut out, m);
        }
        i = i + 1;
    }
    proof {
        assert(input@.subrange(0, n as int) =~= input@);
        let t = trim_leading(collapse(mapped(input@)));
        if pending {
            assert(t == out@.push('-'));
            assert(t.drop_last() =~= out@);
            assert(trim_trailing(t) == trim_trailing(out@));
        }
        assert(trim_trailing((if pending {
            out@
        } else {
            out@
        })) == out@);
    }
    out
}

/// Every character is a lowercase ASCII letter, a digit or a hyphen.
pub open spec fn all_slug_chars(s: Seq<char>) -> bool {
    forall|i: int| 0 <= i < s.len() ==> (is_keep(#[trigger] s[i]) || s[i] == '-')
}

/// No two consecutive characters are both hyphens.
pub open spec fn no_adjacent_hyphens(s: Seq<char>) -> bool {
    forall|i: int| 0 <= i && i + 1 < s.len() ==> !(#[trigger] s[i] == '-' && s[i + 1] == '-')
}

proof fn lemma_mapped_all_slug(s: Seq<char>)
    ensures
        all_slug_chars(mapped(s)),
{
    assert forall|i: int| 0 <= i < mapped(s).len() implies (is_keep(#[trigger] mapped(s)[i])
        || mapped(s)[i] == '-') by {
        assert(mapped(s)[i] == slug_char(s[i]));
    }
}

proof fn lemma_collapse_all_slug(s: Seq<char>)
    requires
        all_slug_chars(s),
    ensures
        all_slug_chars(collapse(s)),
    decreases s.len(),
{
    if s.len() > 0 {
        assert(all_slug_chars(s.drop_last())) by {
            assert(forall|i: int|
                0 <= i < s.drop_last().len() ==> #[trigger] s.drop_last()[i] == s[i]);
        }
        lemma_collapse_all_slug(s.drop_last());
        assert(is_keep(s.last()) || s.last() == '-');
    }
}

proof fn lemma_collapse_no_adjacent(s: Seq<char>)
    ensures
        no_adjacent_hyphens(collapse(s)),
    decreases s.len(),
{
    if s.len() > 0 {
        lemma_collapse_no_adjacent(s.drop_last());
        if !(s.last() == '-' && s.len() >= 2 && s[s.len() - 2] == '-') {
            let x = collapse(s.drop_last());
            if s.last() == '-' && s.drop_last().len() > 0 {
                lemma_collapse_last(s.drop_last());
                assert(s.drop_last().last() == s[s.len() - 2]);
                assert(x.last() != '-');
            }
            assert forall|i: int| 0 <= i && i + 1 < x.push(s.last()).len() implies !(
            #[trigger] x.push(s.last())[i] == '-' && x.push(s.last())[i + 1] == '-') by {
                if i + 1 < x.len() {
                    assert(x.push(s.last())[i] == x[i]);
                    assert(x.push(s.last())[i + 1] == x[i + 1]);
                } else {
                    assert(x.push(s.last())[i + 1] == s.last());
                }
            }
        }
    }
}

proof fn lemma_collapse_identity(s: Seq<char>)
    requires
        no_adjacent_hyphens(s),
    ensures
        collapse(s) == s,
    decreases s.len(),
{
    if s.len() > 0 {
        assert(no_adjacent_hyphens(s.drop_last())) by {
            assert(forall|i: int|
                0 <= i < s.drop_last().len() ==> #[trigger] s.drop_last()[i] == s[i]);
        }
        lemma_collapse_identity(s.drop_last());
        if s.last() == '-' && s.len() >= 2 && s[s.len() - 2] == '-' {
            assert(s[s.len() - 2] == '-' && s[s.len() - 1] == '-');
            assert(false);
        }
        assert(s.drop_last().push(s.last()) =~= s);
    }
}

proof fn lemma_trim_leading_facts(s: Seq<char>)
    ensures
        trim_leading(s).len() > 0 ==> trim_leading(s)[0] != '-',
        all_slug_chars(s) ==> all_slug_chars(trim_leading(s)),
        no_adjacent_hyphens(s) ==> no_adjacent_hyphens(trim_leading(s)),
        (s.len() == 0 || s[0] != '-') ==> trim_leading(s) == s,
    decreases s.len(),
{
    if s.len() > 0 && s[0] == '-' {
        let rest = s.subrange(1, s.len() as int);
        lemma_trim_leading_facts(rest);
        assert(forall|i: int| 0 <= i < rest.len() ==> #[trigger] rest[i] == s[i + 1]);
    }
}

proof fn lemma_trim_trailing_facts(s: Seq<char>)
    ensures
        trim_trailing(s).len() > 0 ==> trim_trailing(s).last() != '-',
        trim_trailing(s).len() > 0 ==> trim_trailing(s)[0] == s[0],
        all_slug_chars(s) ==> all_slug_chars(trim_trailing(s)),
        no_adjacent_hyphens(s) ==> no_adjacent_hyphens(trim_trailing(s)),
        (s.len() == 0 || s.last() != '-') ==> trim_trailing(s) == s,
    decreases s.len(),
{
    if s.len() > 0 && s.last() == '-' {
        lemma_trim_trailing_facts(s.drop_last());
        assert(forall|i: int| 0 <= i < s.drop_last().len() ==> #[trigger] s.drop_last()[i] == s[i]);
    }
}

/// The slug of a display name is canonical, and normalizing is
/// idempotent: a slug contains only lowercase ASCII letters, digits and
/// hyphens (hence no uppercase and no accented letters), never two
/// hyphens in a row, no hyphen at either end, and normalizing it again
/// leaves it unchanged.
pub proof fn lemma_slug_canonical(s: Seq<char>)
    ensures
        all_slug_chars(slug_of(s)),
        no_adjacent_hyphens(slug_of(s)),
        slug_of(s).len() > 0 ==> slug_of(s)[0] != '-' && slug_of(s).last() != '-',
        slug_of(slug_of(s)) == slug_of(s),
{
    let m = mapped(s);
    let cm = collapse(m);
    let t = trim_leading(cm);
    let r = slug_of(s);
    lemma_mapped_all_slug(s);
    lemma_collapse_all_slug(m);
    lemma_collapse_no_adjacent(m);
    lemma_trim_leading_facts(cm);
    lemma_trim_trailing_facts(t);
    assert(r.len() > 0 ==> r[0] != '-');
    // normalizing the slug again changes nothing
    assert(mapped(r) =~= r) by {
        assert forall|i: int| 0 <= i < r.len() implies #[trigger] mapped(r)[i] == r[i] by {
            assert(mapped(r)[i] == slug_char(r[i]));
            assert(is_keep(r[i]) || r[i] == '-');
            if is_keep(r[i]) {
                assert(fold_char(r[i]) == r[i]);
            }
        }
    }
    lemma_collapse_identity(r);
    lemma_trim_leading_facts(r);
    lemma_trim_trailing_facts(r);
}

/// The URL a project is served under: the HTTPS scheme, its slug, and
/// the fixed base domain.
pub open spec fn base_domain() -> Seq<char> {
    "local.test"@
}

/// View of the URL derived for a project slug.
pub open spec fn project_url(slug: Seq<char>) -> Seq<char> {
    "https://"@ + slug + "."@ + base_domain()
}

/// Derives the stable HTTPS URL for a project from its slug.
pub fn generate_project_url(project_name: &str) -> (r: String)
    ensures
        r@ == project_url(project_name@),
{
    let mut r = "https://".to_owned();
    r.append(project_name);
    r.append(".");
    r.append("local.test");
    r
}

} // verus!
