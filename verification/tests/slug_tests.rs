use dev_env_lib::{generate_project_url, normalize_slug};

#[test]
fn simple_name_is_lowercased_and_hyphenated() {
    assert_eq!(normalize_slug("My Blog"), "my-blog");
}

#[test]
fn accented_letters_fold_to_ascii() {
    assert_eq!(normalize_slug("Élan Café"), "elan-cafe");
    assert_eq!(normalize_slug("àâä éèêë îï ôö ùûü ÿ ç"), "aaa-eeee-ii-oo-uuu-y-c");
}

#[test]
fn uppercase_accents_fold_too() {
    assert_eq!(normalize_slug("ÇA VA"), "ca-va");
}

#[test]
fn special_characters_become_single_hyphens() {
    assert_eq!(normalize_slug("a!!b??c"), "a-b-c");
    assert_eq!(normalize_slug("hello_world"), "hello-world");
}

#[test]
fn hyphens_are_trimmed_at_both_ends() {
    assert_eq!(normalize_slug("  spaced out  "), "spaced-out");
    assert_eq!(normalize_slug("---x---"), "x");
}

#[test]
fn empty_and_all_special_inputs_give_empty_slug() {
    assert_eq!(normalize_slug(""), "");
    assert_eq!(normalize_slug("!!!"), "");
}

#[test]
fn digits_are_kept() {
    assert_eq!(normalize_slug("Project 42"), "project-42");
}

#[test]
fn normalizing_twice_changes_nothing() {
    for input in ["My Blog", "Élan Café", "  a - b  ", "P2P--Net", "déjà vu!"] {
        let once = normalize_slug(input);
        assert_eq!(normalize_slug(&once), once);
    }
}

#[test]
fn slug_output_is_canonical() {
    for input in ["Weird   Name", "ÀÉÎÔÛ", "a--b", "-x-", "123 Go!"] {
        let s = normalize_slug(input);
        assert!(!s.contains("--"));
        assert!(!s.starts_with('-'));
        assert!(!s.ends_with('-'));
        assert!(s.chars().all(|c| c.is_ascii_lowercase() || c.is_ascii_digit() || c == '-'));
    }
}

#[test]
fn project_url_uses_slug_and_base_domain() {
    assert_eq!(generate_project_url("my-blog"), "https://my-blog.local.test");
}
