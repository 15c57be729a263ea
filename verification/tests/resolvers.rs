use nix_code::completion::render_template;
use nix_code::files::find_nix_file;
use nix_code::hosts::{decimal_string, host_with_port};
use nix_code::index::{choose_nix_file, index_is_fresh, index_lookup_path};
use nix_code::strings::{find_char, has_prefix, has_suffix, split_char, str_eq, str_le,
    strip_prefix_reps, strip_suffix_reps};
use nix_code::tags::{resolve_tag, tag_from_remote, tag_from_ssh_shorthand, tag_from_url_parts,
    TagError};

fn names(list: &[&str]) -> Vec<String> {
    list.iter().map(|s| s.to_string()).collect()
}

#[test]
fn shell_nix_beats_everything() {
    let listing = names(&["shell.nix", "default.nix", "a.nix"]);
    assert_eq!(find_nix_file(&listing), Some("shell.nix".to_string()));
}

#[test]
fn shell_nix_wins_regardless_of_position() {
    let listing = names(&["a.nix", "zzz.nix", "shell.nix"]);
    assert_eq!(find_nix_file(&listing), Some("shell.nix".to_string()));
}

#[test]
fn default_nix_beats_ordinary_names() {
    let listing = names(&["default.nix", "a.nix", "z.nix"]);
    assert_eq!(find_nix_file(&listing), Some("default.nix".to_string()));
}

#[test]
fn lexicographically_first_without_special_names() {
    let listing = names(&["b.nix", "a.nix"]);
    assert_eq!(find_nix_file(&listing), Some("a.nix".to_string()));
}

#[test]
fn empty_listing_gives_absence() {
    let listing: Vec<String> = Vec::new();
    assert_eq!(find_nix_file(&listing), None);
}

#[test]
fn no_matching_extension_gives_absence() {
    let listing = names(&["README.md", "Cargo.toml", "nix", "shell.nix.bak"]);
    assert_eq!(find_nix_file(&listing), None);
}

#[test]
fn bare_dotfile_extension_is_ignored() {
    let listing = names(&[".nix"]);
    assert_eq!(find_nix_file(&listing), None);
}

#[test]
fn non_candidates_are_ignored_around_candidates() {
    let listing = names(&["Makefile", "b.nix", ".nix", "a.txt"]);
    assert_eq!(find_nix_file(&listing), Some("b.nix".to_string()));
}

#[test]
fn url_form_remote_resolves_to_tag() {
    assert_eq!(
        tag_from_remote("https://github.com/rust-lang/cargo.git"),
        Ok("github.com/rust-lang/cargo".to_string())
    );
}

#[test]
fn ssh_shorthand_remote_resolves_to_same_tag() {
    assert_eq!(
        tag_from_remote("git@github.com:rust-lang/cargo.git"),
        Ok("github.com/rust-lang/cargo".to_string())
    );
}

#[test]
fn both_remote_styles_agree() {
    let by_url = tag_from_remote("https://github.com/rust-lang/cargo.git");
    let by_ssh = tag_from_remote("git@github.com:rust-lang/cargo.git");
    assert_eq!(by_url, by_ssh);
}

#[test]
fn url_without_git_suffix_resolves() {
    assert_eq!(
        tag_from_remote("https://github.com/NixOS/nix"),
        Ok("github.com/NixOS/nix".to_string())
    );
}

#[test]
fn ssh_shorthand_missing_repo_segment_is_malformed() {
    assert_eq!(
        tag_from_remote("git@github.com:rust-lang"),
        Err(TagError::MissingSegments)
    );
}

#[test]
fn ssh_shorthand_without_colon_is_malformed() {
    assert_eq!(
        tag_from_ssh_shorthand("git@github.com"),
        Err(TagError::MissingSegments)
    );
}

#[test]
fn ssh_shorthand_empty_repo_is_malformed() {
    assert_eq!(
        tag_from_ssh_shorthand("git@github.com:rust-lang/"),
        Err(TagError::MissingSegments)
    );
}

#[test]
fn repo_that_is_only_suffix_is_malformed() {
    assert_eq!(
        tag_from_ssh_shorthand("git@github.com:rust-lang/.git"),
        Err(TagError::MissingSegments)
    );
}

#[test]
fn unrecognized_remote_is_distinct_from_malformed() {
    assert_eq!(
        tag_from_remote("not a remote at all"),
        Err(TagError::UnrecognizedRemote)
    );
}

#[test]
fn url_parts_compose_the_tag() {
    assert_eq!(
        tag_from_url_parts("github.com", "/rust-lang/cargo.git"),
        Ok("github.com/rust-lang/cargo".to_string())
    );
}

#[test]
fn url_parts_with_trailing_slash_are_malformed() {
    assert_eq!(
        tag_from_url_parts("github.com", "/rust-lang/cargo.git/"),
        Err(TagError::MissingSegments)
    );
}

#[test]
fn url_parts_with_single_segment_are_malformed() {
    assert_eq!(
        tag_from_url_parts("github.com", "/cargo.git"),
        Err(TagError::MissingSegments)
    );
}

#[test]
fn url_parts_with_empty_host_are_malformed() {
    assert_eq!(
        tag_from_url_parts("", "/rust-lang/cargo.git"),
        Err(TagError::MissingSegments)
    );
}

#[test]
fn no_configured_remote_resolves_to_absence() {
    assert_eq!(resolve_tag(&None), None);
}

#[test]
fn malformed_remote_resolves_to_absence() {
    assert_eq!(resolve_tag(&Some("git@github.com:rust-lang".to_string())), None);
}

#[test]
fn configured_remote_resolves_to_tag() {
    assert_eq!(
        resolve_tag(&Some("git@github.com:rust-lang/cargo.git".to_string())),
        Some("github.com/rust-lang/cargo".to_string())
    );
}

#[test]
fn rendered_entry_matches_expected_shape() {
    let values = names(&["/home/pi", "/tmp"]);
    assert_eq!(
        render_template("pi5", &values),
        "[\"pi5\"]=\"/home/pi /tmp\"".to_string()
    );
}

#[test]
fn rendered_entry_with_no_values_has_empty_list() {
    let values: Vec<String> = Vec::new();
    assert_eq!(render_template("host", &values), "[\"host\"]=\"\"".to_string());
}

#[test]
fn fresh_index_is_not_redownloaded() {
    assert!(index_is_fresh(100_000, 50_000));
    assert!(!index_is_fresh(200_000, 100_000));
    assert!(!index_is_fresh(86_400, 0));
    assert!(index_is_fresh(86_399, 0));
    assert!(index_is_fresh(i64::MIN, i64::MAX));
    assert!(!index_is_fresh(i64::MAX, i64::MIN));
}

#[test]
fn fallback_chain_prefers_explicit_file() {
    let r = choose_nix_file(
        Some("flag.nix".to_string()),
        Some("by_tag.nix".to_string()),
        Some("in_dir.nix".to_string()),
        Some("derived.nix".to_string()),
    );
    assert_eq!(r, Some("flag.nix".to_string()));
}

#[test]
fn fallback_chain_order_is_documented_priority() {
    let tagf = || Some("by_tag.nix".to_string());
    let dirf = || Some("in_dir.nix".to_string());
    let derf = || Some("derived.nix".to_string());
    assert_eq!(choose_nix_file(None, tagf(), dirf(), derf()), tagf());
    assert_eq!(choose_nix_file(None, None, dirf(), derf()), dirf());
    assert_eq!(choose_nix_file(None, None, None, derf()), derf());
    assert_eq!(choose_nix_file(None, None, None, None), None);
}

#[test]
fn lookup_path_joins_base_and_tag() {
    assert_eq!(
        index_lookup_path("/home/u/.nix-code/nix-code-index-main", "github.com/NixOS/nix"),
        "/home/u/.nix-code/nix-code-index-main/github.com/NixOS/nix".to_string()
    );
}

#[test]
fn split_char_keeps_empty_segments() {
    let parts = split_char("a/b//c", '/');
    assert_eq!(parts, names(&["a", "b", "", "c"]));
}

#[test]
fn split_char_without_separator_is_whole() {
    assert_eq!(split_char("abc", '/'), names(&["abc"]));
    assert_eq!(split_char("", '/'), names(&[""]));
}

#[test]
fn endpoint_gets_port_only_when_missing() {
    assert_eq!(host_with_port("example.com", 22), "example.com:22".to_string());
    assert_eq!(host_with_port("example.com:2222", 22), "example.com:2222".to_string());
    assert_eq!(decimal_string(0), "0".to_string());
    assert_eq!(decimal_string(65535), "65535".to_string());
    assert_eq!(decimal_string(100), "100".to_string());
}

#[test]
fn string_primitives_behave() {
    assert!(str_eq("abc", "abc"));
    assert!(!str_eq("abc", "abd"));
    assert!(str_le("a.nix", "b.nix"));
    assert!(!str_le("b.nix", "a.nix"));
    assert!(str_le("a", "a.nix"));
    assert!(str_le("A.nix", "a.nix"));
    assert!(has_prefix("git@host", "git@"));
    assert!(!has_prefix("gi", "git@"));
    assert!(has_suffix("cargo.git", ".git"));
    assert!(!has_suffix("git", ".git"));
    assert_eq!(find_char("git@h:p", ':'), 5);
    assert_eq!(find_char("abc", ':'), 3);
    assert_eq!(strip_suffix_reps("x.git.git", ".git"), "x".to_string());
    assert_eq!(strip_suffix_reps("x", ".git"), "x".to_string());
    assert_eq!(strip_prefix_reps("git@git@h", "git@"), "h".to_string());
}
