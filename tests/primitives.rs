use movie_cbr::cbr::{similarity_id, similarity_number, similarity_string};
use movie_cbr::movie::Genre;
use movie_cbr::score::SCORE_ONE;

fn genres(ids: &[u32]) -> Vec<Genre> {
    ids.iter().map(|&id| Genre::new(id, format!("genre {}", id))).collect()
}

#[test]
fn number_identical_values_score_one() {
    assert_eq!(similarity_number(42, 42, 100, 0), SCORE_ONE);
    assert_eq!(similarity_number(0, 0, 100, 0), SCORE_ONE);
}

#[test]
fn number_range_ends_score_zero() {
    assert_eq!(similarity_number(10, 90, 90, 10), 0);
    assert_eq!(similarity_number(90, 10, 90, 10), 0);
}

#[test]
fn number_exact_value() {
    assert_eq!(similarity_number(3, 7, 10, 0), 600_000);
    assert_eq!(similarity_number(7, 3, 10, 0), 600_000);
    assert_eq!(similarity_number(100, 300, 500, 100), 500_000);
}

#[test]
fn number_degenerate_range_scores_one() {
    assert_eq!(similarity_number(5, 5, 5, 5), SCORE_ONE);
    assert_eq!(similarity_number(1, 9, 5, 5), SCORE_ONE);
    assert_eq!(similarity_number(1, 2, 0, 10), SCORE_ONE);
}

#[test]
fn number_outside_stale_bounds_is_clamped() {
    assert_eq!(similarity_number(0, 50, 10, 0), 0);
    assert_eq!(similarity_number(u32::MAX, 0, u32::MAX, 0), 0);
}

#[test]
fn string_both_empty_score_one() {
    assert_eq!(similarity_string("", ""), SCORE_ONE);
}

#[test]
fn string_identical_score_one() {
    assert_eq!(similarity_string("Alpha", "Alpha"), SCORE_ONE);
    assert_eq!(similarity_string("héllo wörld", "héllo wörld"), SCORE_ONE);
}

#[test]
fn string_edit_distance_exact_value() {
    // kitten -> sitting takes three edits; the longer text has seven chars.
    assert_eq!(similarity_string("kitten", "sitting"), 571_428);
    assert_eq!(similarity_string("sitting", "kitten"), 571_428);
}

#[test]
fn string_one_empty_scores_zero() {
    assert_eq!(similarity_string("", "abc"), 0);
    assert_eq!(similarity_string("abc", ""), 0);
}

#[test]
fn string_is_case_sensitive() {
    assert_eq!(similarity_string("Alpha", "alpha"), 800_000);
}

#[test]
fn string_counts_chars_not_bytes() {
    assert_eq!(similarity_string("héllo", "hello"), 800_000);
    assert_eq!(similarity_string("é", "e"), 0);
}

#[test]
fn string_disjoint_scores_zero() {
    assert_eq!(similarity_string("Alpha", "Zzz"), 0);
}

#[test]
fn set_both_empty_scores_zero() {
    assert_eq!(similarity_id(&genres(&[]), &genres(&[])), 0);
}

#[test]
fn set_one_empty_scores_zero() {
    assert_eq!(similarity_id(&genres(&[1]), &genres(&[])), 0);
    assert_eq!(similarity_id(&genres(&[]), &genres(&[1])), 0);
}

#[test]
fn set_identical_scores_one() {
    assert_eq!(similarity_id(&genres(&[1, 2, 3]), &genres(&[1, 2, 3])), SCORE_ONE);
    assert_eq!(similarity_id(&genres(&[1, 2]), &genres(&[2, 1])), SCORE_ONE);
}

#[test]
fn set_disjoint_scores_zero() {
    assert_eq!(similarity_id(&genres(&[1, 2]), &genres(&[3, 4])), 0);
}

#[test]
fn set_jaccard_exact_values() {
    assert_eq!(similarity_id(&genres(&[1, 2, 3]), &genres(&[2, 3, 4])), 500_000);
    assert_eq!(similarity_id(&genres(&[1, 2]), &genres(&[2, 3])), 333_333);
}

#[test]
fn set_is_symmetric() {
    let a = genres(&[1, 2, 3, 7]);
    let b = genres(&[3, 9]);
    assert_eq!(similarity_id(&a, &b), similarity_id(&b, &a));
    assert_eq!(similarity_id(&a, &b), 200_000);
}

#[test]
fn set_duplicate_ids_collapse() {
    assert_eq!(similarity_id(&genres(&[1, 1, 2]), &genres(&[2])), 500_000);
    assert_eq!(similarity_id(&genres(&[4, 4]), &genres(&[4])), SCORE_ONE);
}

#[test]
fn set_compares_ids_not_names() {
    let a = vec![Genre::new(1, "Action".to_string())];
    let b = vec![Genre::new(1, "Drama".to_string())];
    assert_eq!(similarity_id(&a, &b), SCORE_ONE);
    let c = vec![Genre::new(2, "Action".to_string())];
    assert_eq!(similarity_id(&a, &c), 0);
}

#[test]
fn string_is_symmetric() {
    let pairs = [("Alpha", "Alphabet"), ("", "x"), ("abc", "cab"), ("Zzz", "zz")];
    for (a, b) in pairs {
        assert_eq!(similarity_string(a, b), similarity_string(b, a));
    }
}

#[test]
fn set_small_overlap_never_scores_zero() {
    let a: Vec<Genre> = (0..1_500_000).map(|id| Genre::new(id, String::new())).collect();
    let b = vec![Genre::new(0, String::new())];
    assert_eq!(similarity_id(&a, &b), 1);
    let c = vec![Genre::new(2_000_000, String::new())];
    assert_eq!(similarity_id(&a, &c), 0);
}
