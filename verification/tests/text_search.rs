use trustarant::text::normalize_for_search;
use trustarant::text::singularize_token;
use trustarant::text::tokens_match;

#[test]
fn normalizes_apostrophes_and_punctuation() {
    assert_eq!(normalize_for_search("Mastro's Steakhouse"), "mastros steakhouse");
    assert_eq!(normalize_for_search("Mastro’s Steakhouse"), "mastros steakhouse");
}

#[test]
fn supports_out_of_order_multi_token_matching() {
    let candidate = normalize_for_search("Mastro's Steakhouse Beverly Hills");
    let query = normalize_for_search("hills mastros");
    let candidate_tokens = candidate.split_whitespace().collect::<Vec<_>>();

    assert!(query.split_whitespace().all(|query_token| candidate_tokens
        .iter()
        .any(|candidate_token| tokens_match(candidate_token, query_token))));
}

#[test]
fn supports_singular_plural_name_variants() {
    assert!(tokens_match("mastros", "mastro"));
    assert!(tokens_match("mastro", "mastros"));
}

#[test]
fn normalization_collapses_runs_and_trims() {
    assert_eq!(normalize_for_search("  Joe's -- Diner!!  "), "joes diner");
    assert_eq!(normalize_for_search("...---..."), "");
    assert_eq!(normalize_for_search(""), "");
}

#[test]
fn singularization_only_touches_longer_tokens() {
    assert_eq!(singularize_token("mastros"), "mastro");
    assert_eq!(singularize_token("tacos"), "taco");
    assert_eq!(singularize_token("itos"), "itos");
    assert_eq!(singularize_token("grill"), "grill");
}

#[test]
fn tiny_tokens_do_not_match_partially() {
    assert!(!tokens_match("abc", "ab"));
    assert!(tokens_match("steakhouse", "steak"));
}
