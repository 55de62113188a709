use movie_cbr::error::EngineError;
use movie_cbr::movie::{Genre, Movie, WeightTable};
use movie_cbr::ranking::{top_excluding, Catalogue, ScoreEntry};
use movie_cbr::score::SCORE_ONE;

fn movie(id: u32, budget: u32, title: &str) -> Movie {
    Movie {
        id,
        budget,
        title: title.to_string(),
        homepage: String::new(),
        genres: vec![Genre::new(18, "Drama".to_string())],
        keywords: Vec::new(),
        production_companies: Vec::new(),
        release_date: String::new(),
        vote_average_tenths: 0,
        vote_count: 0,
    }
}

fn budget_and_title() -> WeightTable {
    WeightTable::new(1, 0, 0, 0, 0, 1).unwrap()
}

fn indices(entries: &[ScoreEntry]) -> Vec<usize> {
    entries.iter().map(|e| e.index).collect()
}

#[test]
fn three_records_scenario() {
    let catalogue = Catalogue::load(vec![
        movie(1, 100, "Alpha"),
        movie(2, 100, "Alpha"),
        movie(3, 900, "Zzz"),
    ]);
    assert_eq!((catalogue.min_budget(), catalogue.max_budget()), (100, 900));
    let w = budget_and_title();
    let top = catalogue.top_k(0, 2, &w).unwrap();
    assert_eq!(indices(&top), vec![1, 2]);
    let ab = catalogue.similarity(0, 1, &w).unwrap();
    let ac = catalogue.similarity(0, 2, &w).unwrap();
    assert_eq!(ab, SCORE_ONE);
    assert!(ac < ab);
    assert_eq!(top[0].score, ab);
    assert_eq!(top[1].score, ac);
}

#[test]
fn empty_catalogue_loads_and_refuses_queries() {
    let catalogue = Catalogue::load(Vec::new());
    assert_eq!(catalogue.len(), 0);
    assert_eq!((catalogue.min_budget(), catalogue.max_budget()), (0, 0));
    assert_eq!(catalogue.budget_range(), (0, 0));
    let w = WeightTable::standard();
    for reference in [0, 1, 5] {
        assert_eq!(catalogue.top_k(reference, 3, &w), Err(EngineError::IndexOutOfRange));
    }
}

#[test]
fn load_finds_budget_range() {
    let catalogue = Catalogue::load(vec![
        movie(1, 500, "a"),
        movie(2, 100, "b"),
        movie(3, 900, "c"),
        movie(4, 300, "d"),
    ]);
    assert_eq!(catalogue.len(), 4);
    assert_eq!(catalogue.min_budget(), 100);
    assert_eq!(catalogue.max_budget(), 900);
    assert_eq!(catalogue.movie(2).id, 3);
    assert_eq!(catalogue.budget_range(), (100, 900));
}

#[test]
fn single_record_has_no_candidates() {
    let catalogue = Catalogue::load(vec![movie(1, 100, "Alpha")]);
    let w = WeightTable::standard();
    assert_eq!(catalogue.top_k(0, 5, &w), Ok(Vec::new()));
    assert_eq!(catalogue.similarity(0, 0, &budget_and_title()), Ok(SCORE_ONE));
    // Empty keyword and company lists score zero against each other.
    assert_eq!(catalogue.similarity(0, 0, &w), Ok(571_428));
}

#[test]
fn reference_out_of_range_is_refused() {
    let catalogue = Catalogue::load(vec![movie(1, 100, "a"), movie(2, 200, "b")]);
    let w = WeightTable::standard();
    assert_eq!(catalogue.top_k(2, 1, &w), Err(EngineError::IndexOutOfRange));
    assert_eq!(catalogue.similarity(0, 2, &w), Err(EngineError::IndexOutOfRange));
    assert_eq!(catalogue.similarity(3, 0, &w), Err(EngineError::IndexOutOfRange));
}

#[test]
fn equal_scores_keep_catalogue_order() {
    let catalogue = Catalogue::load(vec![
        movie(1, 100, "Same"),
        movie(2, 100, "Same"),
        movie(3, 100, "Same"),
        movie(4, 100, "Same"),
    ]);
    let w = WeightTable::standard();
    let top = catalogue.top_k(2, 10, &w).unwrap();
    assert_eq!(indices(&top), vec![0, 1, 3]);
    assert!(top.iter().all(|e| e.score == top[0].score));
}

#[test]
fn ranking_is_best_first_and_excludes_reference() {
    let catalogue = Catalogue::load(vec![
        movie(1, 100, "Zzz"),
        movie(2, 500, "Alphx"),
        movie(3, 900, "Alpha"),
        movie(4, 100, "Alpha"),
        movie(5, 850, "Alpha"),
    ]);
    let w = budget_and_title();
    let top = catalogue.top_k(2, 10, &w).unwrap();
    assert_eq!(top.len(), 4);
    assert!(top.iter().all(|e| e.index != 2));
    for pair in top.windows(2) {
        assert!(
            pair[0].score > pair[1].score
                || (pair[0].score == pair[1].score && pair[0].index < pair[1].index)
        );
    }
    assert_eq!(indices(&top), vec![4, 1, 3, 0]);
    for e in &top {
        assert_eq!(Ok(e.score), catalogue.similarity(2, e.index, &w));
    }
}

#[test]
fn k_bounds_the_result() {
    let catalogue = Catalogue::load(vec![
        movie(1, 100, "a"),
        movie(2, 200, "b"),
        movie(3, 300, "c"),
        movie(4, 400, "d"),
    ]);
    let w = WeightTable::standard();
    assert_eq!(catalogue.top_k(1, 0, &w), Ok(Vec::new()));
    assert_eq!(catalogue.top_k(1, 2, &w).unwrap().len(), 2);
    assert_eq!(catalogue.top_k(1, 3, &w).unwrap().len(), 3);
    assert_eq!(catalogue.top_k(1, 100, &w).unwrap().len(), 3);
    assert_eq!(catalogue.top_k(1, usize::MAX, &w).unwrap().len(), 3);
}

#[test]
fn top_k_prefix_of_larger_request() {
    let catalogue = Catalogue::load(vec![
        movie(1, 100, "abc"),
        movie(2, 200, "abd"),
        movie(3, 300, "xyz"),
        movie(4, 150, "abc"),
        movie(5, 900, "ab"),
    ]);
    let w = WeightTable::standard();
    let all = catalogue.top_k(0, 10, &w).unwrap();
    let two = catalogue.top_k(0, 2, &w).unwrap();
    assert_eq!(two.as_slice(), &all[..2]);
}

#[test]
fn repeated_queries_agree() {
    let catalogue = Catalogue::load(vec![
        movie(1, 100, "abc"),
        movie(2, 200, "abd"),
        movie(3, 300, "abc"),
    ]);
    let w = WeightTable::standard();
    assert_eq!(catalogue.top_k(1, 5, &w), catalogue.top_k(1, 5, &w));
}

#[test]
fn ranking_scores_every_record_reference_included() {
    let catalogue = Catalogue::load(vec![
        movie(1, 100, "Alpha"),
        movie(2, 100, "Alpha"),
        movie(3, 900, "Zzz"),
    ]);
    let w = budget_and_title();
    let all = catalogue.ranking(0, &w).unwrap();
    assert_eq!(indices(&all), vec![0, 1, 2]);
    assert_eq!(all[0].score, SCORE_ONE);
    assert_eq!(all[2].score, 0);
    let from_c = catalogue.ranking(2, &w).unwrap();
    assert_eq!(indices(&from_c), vec![2, 0, 1]);
    assert_eq!(catalogue.ranking(3, &w), Err(EngineError::IndexOutOfRange));
    assert_eq!(Catalogue::load(Vec::new()).ranking(0, &w), Err(EngineError::IndexOutOfRange));
}

#[test]
fn view_of_ranking_skips_reference() {
    let entries = vec![
        ScoreEntry { index: 3, score: 9 },
        ScoreEntry { index: 1, score: 7 },
        ScoreEntry { index: 0, score: 7 },
        ScoreEntry { index: 2, score: 1 },
    ];
    assert_eq!(indices(&top_excluding(&entries, 1, 2)), vec![3, 0]);
    assert_eq!(indices(&top_excluding(&entries, 3, 10)), vec![1, 0, 2]);
    assert!(top_excluding(&entries, 3, 0).is_empty());
}

#[test]
fn view_of_full_ranking_matches_top_k() {
    let catalogue = Catalogue::load(vec![
        movie(1, 100, "abc"),
        movie(2, 200, "abd"),
        movie(3, 300, "xyz"),
        movie(4, 150, "abc"),
        movie(5, 900, "ab"),
    ]);
    let w = WeightTable::standard();
    for reference in 0..5 {
        let all = catalogue.ranking(reference, &w).unwrap();
        for k in 0..6 {
            assert_eq!(top_excluding(&all, reference, k), catalogue.top_k(reference, k, &w).unwrap());
        }
    }
}
