use movie_cbr::browser::{indices_containing, MovieSimilarityApp, TOP_N};
use movie_cbr::error::EngineError;
use movie_cbr::movie::{Genre, Movie, WeightTable};
use movie_cbr::score::SCORE_ONE;

fn movie(id: u32, budget: u32, title: &str) -> Movie {
    Movie {
        id,
        budget,
        title: title.to_string(),
        homepage: String::new(),
        genres: vec![Genre::new(id % 3, "g".to_string())],
        keywords: Vec::new(),
        production_companies: Vec::new(),
        release_date: "2001-01-01".to_string(),
        vote_average_tenths: 72,
        vote_count: 10,
    }
}

fn loaded() -> MovieSimilarityApp {
    let mut app = MovieSimilarityApp::new();
    app.load_movies(vec![
        movie(1, 100, "Alpha"),
        movie(2, 400, "Beta"),
        movie(3, 900, "ALPHABET soup"),
    ]);
    app
}

#[test]
fn new_browser_is_empty() {
    let app = MovieSimilarityApp::new();
    assert_eq!(app.catalogue.len(), 0);
    assert!(app.selected_movie_index.is_none());
    assert!(app.similar_movies.is_empty());
    assert!(app.filtered_indices.is_empty());
    assert!(app.pending_selection.is_none());
    let w = app.weights;
    assert_eq!(w.total_weight(), WeightTable::standard().total_weight());
    let d = MovieSimilarityApp::default();
    assert_eq!(d.catalogue.len(), 0);
}

#[test]
fn load_lists_every_movie() {
    let app = loaded();
    assert_eq!(app.catalogue.len(), 3);
    assert_eq!(app.filtered_indices, vec![0, 1, 2]);
    assert_eq!((app.catalogue.min_budget(), app.catalogue.max_budget()), (100, 900));
}

#[test]
fn filter_ignores_case() {
    let mut app = loaded();
    app.search_query = "aLp".to_string();
    app.filter_movies();
    assert_eq!(app.filtered_indices, vec![0, 2]);
    app.search_query = "soup".to_string();
    app.filter_movies();
    assert_eq!(app.filtered_indices, vec![2]);
    app.search_query = "gamma".to_string();
    app.filter_movies();
    assert!(app.filtered_indices.is_empty());
    app.search_query = String::new();
    app.filter_movies();
    assert_eq!(app.filtered_indices, vec![0, 1, 2]);
}

#[test]
fn pending_selection_selects_ranks_and_filters() {
    let mut app = loaded();
    app.pending_selection = Some(0);
    app.process_pending_selection();
    assert!(app.pending_selection.is_none());
    assert_eq!(app.selected_movie_index, Some(0));
    assert_eq!(app.search_query, "Alpha");
    assert_eq!(app.filtered_indices, vec![0, 2]);
    assert_eq!(app.similar_movies.len(), 3);
    let expected = app.catalogue.ranking(0, &app.weights).unwrap();
    assert_eq!(app.similar_movies, expected);
    let best = app.similar_top(TOP_N);
    assert_eq!(best.len(), 2);
    assert!(best.iter().all(|e| e.index != 0));
    assert_eq!(best, app.catalogue.top_k(0, TOP_N, &app.weights).unwrap());
}

#[test]
fn pending_selection_outside_catalogue_is_dropped() {
    let mut app = loaded();
    app.pending_selection = Some(7);
    app.process_pending_selection();
    assert!(app.pending_selection.is_none());
    assert!(app.selected_movie_index.is_none());
    assert!(app.similar_movies.is_empty());
    assert_eq!(app.filtered_indices, vec![0, 1, 2]);
}

#[test]
fn best_matches_are_capped() {
    let mut app = MovieSimilarityApp::new();
    let movies: Vec<Movie> = (0..15).map(|i| movie(i, 100 + i * 10, "Same")).collect();
    app.load_movies(movies);
    app.selected_movie_index = Some(4);
    assert_eq!(app.calculate_similarities(), Ok(()));
    assert_eq!(app.similar_movies.len(), 15);
    let best = app.similar_top(TOP_N);
    assert_eq!(best.len(), TOP_N);
    assert!(best.iter().all(|e| e.index != 4));
    assert_eq!(best, app.catalogue.top_k(4, TOP_N, &app.weights).unwrap());
}

#[test]
fn selection_outside_catalogue_is_refused() {
    let mut app = loaded();
    app.selected_movie_index = Some(3);
    assert_eq!(app.calculate_similarities(), Err(EngineError::IndexOutOfRange));
    assert!(app.similar_movies.is_empty());
    let mut empty = MovieSimilarityApp::new();
    empty.selected_movie_index = Some(0);
    assert_eq!(empty.calculate_similarities(), Err(EngineError::IndexOutOfRange));
}

#[test]
fn no_selection_ranks_nothing() {
    let mut app = loaded();
    assert_eq!(app.calculate_similarities(), Ok(()));
    assert!(app.similar_movies.is_empty());
    assert!(app.similar_top(TOP_N).is_empty());
}

#[test]
fn full_ranking_of_three_records() {
    let mut app = MovieSimilarityApp::new();
    app.weights = WeightTable::new(1, 0, 0, 0, 0, 1).unwrap();
    app.load_movies(vec![
        movie(1, 100, "Alpha"),
        movie(2, 100, "Alpha"),
        movie(3, 900, "Zzz"),
    ]);
    app.selected_movie_index = Some(0);
    assert_eq!(app.calculate_similarities(), Ok(()));
    let ranked: Vec<(usize, u64)> = app.similar_movies.iter().map(|e| (e.index, e.score)).collect();
    assert_eq!(ranked, vec![(0, SCORE_ONE), (1, SCORE_ONE), (2, 0)]);
}

#[test]
fn reload_clears_selection() {
    let mut app = loaded();
    app.pending_selection = Some(1);
    app.process_pending_selection();
    app.load_movies(vec![movie(9, 1, "Omega")]);
    assert!(app.selected_movie_index.is_none());
    assert!(app.similar_movies.is_empty());
    assert_eq!(app.filtered_indices, vec![0]);
}

#[test]
fn indices_containing_lists_matches_in_order() {
    let texts = vec!["alpha".to_string(), "beta".to_string(), "alphabet".to_string()];
    assert_eq!(indices_containing(&texts, "alpha"), vec![0, 2]);
    assert_eq!(indices_containing(&texts, "bet"), vec![1, 2]);
    assert_eq!(indices_containing(&texts, ""), vec![0, 1, 2]);
    assert_eq!(indices_containing(&texts, "ALPHA"), Vec::<usize>::new());
}
