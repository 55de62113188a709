//! The state behind the movie browser: the catalogue, the search filter,
//! the selected movie and the movies most similar to it.
use crate::movie::{Movie, WeightTable};
use crate::error::EngineError;
use crate::ranking::{
    first_excluding, lemma_view_of_ranking, min_int, top_excluding, Catalogue, ScoreEntry,
};
use vstd::prelude::*;

verus! {

/// How many best matches the browser shows.
pub const TOP_N: usize = 10;

/// The lowercase form of a text, as `str::to_lowercase` gives it.
pub uninterp spec fn lowercase_of(s: Seq<char>) -> Seq<char>;

/// Relies on `str::to_lowercase`: the result depends on the characters of
/// `s` alone, and the empty string stays empty.
#[verifier::external_body]
fn to_lowercase(s: &str) -> (r: String)
    ensures
        r@ == lowercase_of(s@),
        s@.len() == 0 ==> r@.len() == 0,
{
    s.to_lowercase()
}

/// Whether `needle` occurs in `hay` as a run of consecutive characters.
pub open spec fn contains_run(hay: Seq<char>, needle: Seq<char>) -> bool {
    exists|i: int|
        0 <= i && i + needle.len() <= hay.len() && #[trigger] hay.subrange(i, i + needle.len())
            == needle
}

/// Relies on `str::contains` with a `&str` pattern: whether `needle` occurs
/// in `hay`.
#[verifier::external_body]
fn contains_text(hay: &str, needle: &str) -> (r: bool)
    ensures
        r == contains_run(hay@, needle@),
{
    hay.contains(needle)
}

/// Whether `r` lists, in increasing order, exactly the positions of `texts`
/// whose text contains `needle`.
pub open spec fn lists_matches(r: Seq<usize>, texts: Seq<Seq<char>>, needle: Seq<char>) -> bool {
    &&& forall|p: int, q: int| 0 <= p < q < r.len() ==> r[p] < r[q]
    &&& forall|i: int|
        0 <= i < texts.len() ==> (r.contains(i as usize) <==> contains_run(#[trigger] texts[i], needle))
    &&& forall|p: int| 0 <= p < r.len() ==> #[trigger] r[p] < texts.len()
}

/// The lowercase titles of `movies`.
pub open spec fn lowercase_titles(movies: Seq<Movie>) -> Seq<Seq<char>> {
    movies.map_values(|m: Movie| lowercase_of(m.title@))
}

/// The positions of the texts that contain `needle`, in increasing order.
pub fn indices_containing(texts: &Vec<String>, needle: &str) -> (r: Vec<usize>)
    ensures
        lists_matches(r@, texts@.map_values(|t: String| t@), needle@),
{
    let ghost views = texts@.map_values(|t: String| t@);
    let mut r: Vec<usize> = Vec::new();
    let mut i: usize = 0;
    while i < texts.len()
        invariant
            i <= texts@.len(),
            views == texts@.map_values(|t: String| t@),
            forall|p: int, q: int| 0 <= p < q < r@.len() ==> r@[p] < r@[q],
            forall|p: int| 0 <= p < r@.len() ==> #[trigger] r@[p] < i,
            forall|j: int|
                0 <= j < i ==> (r@.contains(j as usize) <==> contains_run(#[trigger] views[j], needle@)),
        decreases texts@.len() - i,
    {
        let ghost before = r@;
        if contains_text(texts[i].as_str(), needle) {
            r.push(i);
            proof {
                assert(r@[r@.len() - 1] == i);
                assert forall|j: int| 0 <= j < i implies (#[trigger] r@.contains(j as usize) <==> before.contains(
                    j as usize,
                )) by {
                    if before.contains(j as usize) {
                        let p = choose|p: int| 0 <= p < before.len() && before[p] == j as usize;
                        assert(r@[p] == j);
                    }
                    if r@.contains(j as usize) {
                        let p = choose|p: int| 0 <= p < r@.len() && r@[p] == j as usize;
                        assert(before[p] == j);
                    }
                }
            }
        } else {
            proof {
                assert(!r@.contains(i)) by {
                    if r@.contains(i) {
                        let p = choose|p: int| 0 <= p < r@.len() && r@[p] == i;
                    }
                }
            }
        }
        i = i + 1;
    }
    r
}

/// The state of a catalogue browser. A click on a movie is recorded in
/// `pending_selection` and applied by
/// [`MovieSimilarityApp::process_pending_selection`], which selects it,
/// ranks the catalogue against it and filters the list by its title.
pub struct MovieSimilarityApp {
    pub catalogue: Catalogue,
    pub weights: WeightTable,
    pub selected_movie_index: Option<usize>,
    /// Every movie scored against the selected one, best first.
    pub similar_movies: Vec<ScoreEntry>,
    pub search_query: String,
    /// Positions of the movies whose title matches `search_query`.
    pub filtered_indices: Vec<usize>,
    pub pending_selection: Option<usize>,
}

impl MovieSimilarityApp {
    /// Whether `similar_movies` is the full ranking of the catalogue
    /// against the movie at `index`.
    pub open spec fn holds_ranking_for(&self, index: int) -> bool {
        self.catalogue.full_ranking(self.similar_movies@, index, self.weights)
    }

    /// Whether `filtered_indices` lists the movies whose lowercase title
    /// contains the lowercase `query`.
    pub open spec fn filtered_by(&self, query: Seq<char>) -> bool {
        lists_matches(
            self.filtered_indices@,
            lowercase_titles(self.catalogue@),
            lowercase_of(query),
        )
    }

    /// A browser with an empty catalogue, the standard weights and nothing
    /// selected.
    pub fn new() -> (r: Self)
        ensures
            r.catalogue@.len() == 0,
            r.weights == WeightTable::standard_spec(),
            r.selected_movie_index is None,
            r.similar_movies@.len() == 0,
            r.search_query@.len() == 0,
            r.filtered_indices@.len() == 0,
            r.pending_selection is None,
    {
        MovieSimilarityApp {
            catalogue: Catalogue::load(Vec::new()),
            weights: WeightTable::standard(),
            selected_movie_index: None,
            similar_movies: Vec::new(),
            search_query: String::new(),
            filtered_indices: Vec::new(),
            pending_selection: None,
        }
    }
}

impl MovieSimilarityApp {
    /// Replaces the catalogue with `movies`. The selection and the ranking,
    /// which refer to positions of the old catalogue, are cleared, and every
    /// movie is listed.
    pub fn load_movies(&mut self, movies: Vec<Movie>)
        ensures
            final(self).catalogue@ == movies@,
            crate::ranking::budget_bounds(
                movies@,
                final(self).catalogue.spec_min_budget(),
                final(self).catalogue.spec_max_budget(),
            ),
            final(self).filtered_indices@.len() == movies@.len(),
            forall|i: int| 0 <= i < movies@.len() ==> #[trigger] final(self).filtered_indices@[i] == i,
            final(self).selected_movie_index is None,
            final(self).similar_movies@.len() == 0,
            final(self).pending_selection is None,
            final(self).weights == old(self).weights,
            final(self).search_query == old(self).search_query,
    {
        let n = movies.len();
        self.catalogue = Catalogue::load(movies);
        let mut all: Vec<usize> = Vec::new();
        let mut i: usize = 0;
        while i < n
            invariant
                i <= n,
                all@.len() == i,
                forall|j: int| 0 <= j < i ==> #[trigger] all@[j] == j,
            decreases n - i,
        {
            all.push(i);
            i = i + 1;
        }
        self.filtered_indices = all;
        self.selected_movie_index = None;
        self.similar_movies = Vec::new();
        self.pending_selection = None;
    }

    /// Ranks the whole catalogue against the selected movie. Without a
    /// selection nothing changes; a selection outside the catalogue is
    /// refused and changes nothing.
    pub fn calculate_similarities(&mut self) -> (r: Result<(), EngineError>)
        requires
            old(self).weights.valid(),
        ensures
            match old(self).selected_movie_index {
                Some(index) => if index < old(self).catalogue@.len() {
                    r is Ok && final(self).holds_ranking_for(index as int)
                } else {
                    r == Err::<(), EngineError>(EngineError::IndexOutOfRange)
                        && final(self).similar_movies == old(self).similar_movies
                },
                None => r is Ok && final(self).similar_movies == old(self).similar_movies,
            },
            final(self).catalogue == old(self).catalogue,
            final(self).weights == old(self).weights,
            final(self).selected_movie_index == old(self).selected_movie_index,
            final(self).search_query == old(self).search_query,
            final(self).filtered_indices == old(self).filtered_indices,
            final(self).pending_selection == old(self).pending_selection,
    {
        if let Some(index) = self.selected_movie_index {
            match self.catalogue.ranking(index, &self.weights) {
                Ok(all) => {
                    self.similar_movies = all;
                },
                Err(e) => {
                    return Err(e);
                },
            }
        }
        Ok(())
    }

    /// The best `k` matches of the selected movie: the first `k` entries of
    /// the ranking that are not the selected movie itself, which are what
    /// `Catalogue::top_k` gives for it. Empty without a selection.
    pub fn similar_top(&self, k: usize) -> (r: Vec<ScoreEntry>)
        ensures
            match self.selected_movie_index {
                Some(index) => {
                    &&& r@ == first_excluding(self.similar_movies@, index as int, k as nat)
                    &&& index < self.catalogue@.len() && self.holds_ranking_for(index as int) ==> {
                        &&& r@.len() == min_int(k as int, self.catalogue@.len() - 1)
                        &&& self.catalogue.ranked_candidates(r@, index as int, self.weights)
                        &&& self.catalogue.omits_only_lower(r@, index as int, self.weights)
                    }
                },
                None => r@.len() == 0,
            },
    {
        proof {
            if let Some(index) = self.selected_movie_index {
                if index < self.catalogue@.len() && self.holds_ranking_for(index as int) {
                    lemma_view_of_ranking(
                        &self.catalogue,
                        self.similar_movies@,
                        index as int,
                        k as nat,
                        self.weights,
                    );
                }
            }
        }
        match self.selected_movie_index {
            Some(index) => top_excluding(&self.similar_movies, index, k),
            None => Vec::new(),
        }
    }

    /// Lists the movies whose title contains the search query, ignoring
    /// case.
    pub fn filter_movies(&mut self)
        ensures
            final(self).filtered_by(old(self).search_query@),
            old(self).search_query@.len() == 0 ==> forall|i: int|
                0 <= i < old(self).catalogue@.len() ==> #[trigger] final(self).filtered_indices@.contains(
                    i as usize,
                ),
            final(self).catalogue == old(self).catalogue,
            final(self).weights == old(self).weights,
            final(self).selected_movie_index == old(self).selected_movie_index,
            final(self).similar_movies == old(self).similar_movies,
            final(self).search_query == old(self).search_query,
            final(self).pending_selection == old(self).pending_selection,
    {
        let query = to_lowercase(self.search_query.as_str());
        let n = self.catalogue.len();
        let mut titles: Vec<String> = Vec::new();
        let mut i: usize = 0;
        while i < n
            invariant
                i <= n,
                n == self.catalogue@.len(),
                titles@.len() == i,
                forall|j: int|
                    0 <= j < i ==> #[trigger] titles@[j]@ == lowercase_of(self.catalogue@[j].title@),
            decreases n - i,
        {
            let title = to_lowercase(self.catalogue.movie(i).title.as_str());
            titles.push(title);
            i = i + 1;
        }
        proof {
            assert(titles@.map_values(|t: String| t@) =~= lowercase_titles(self.catalogue@));
        }
        self.filtered_indices = indices_containing(&titles, query.as_str());
        proof {
            if query@.len() == 0 {
                let views = titles@.map_values(|t: String| t@);
                assert forall|i: int| 0 <= i < n implies #[trigger] self.filtered_indices@.contains(
                    i as usize,
                ) by {
                    assert(views[i].subrange(0, 0 + query@.len() as int) =~= query@);
                    assert(contains_run(views[i], query@));
                }
            }
        }
    }

    /// Applies a recorded click: selects the movie, ranks the catalogue
    /// against it, and makes its title the search query. A click on a
    /// position outside the catalogue is dropped.
    pub fn process_pending_selection(&mut self)
        requires
            old(self).weights.valid(),
        ensures
            final(self).pending_selection is None,
            final(self).catalogue == old(self).catalogue,
            final(self).weights == old(self).weights,
            match old(self).pending_selection {
                Some(index) if index < old(self).catalogue@.len() => {
                    &&& final(self).selected_movie_index == Some(index)
                    &&& final(self).holds_ranking_for(index as int)
                    &&& final(self).search_query@ == old(self).catalogue@[index as int].title@
                    &&& final(self).filtered_by(final(self).search_query@)
                },
                _ => {
                    &&& final(self).selected_movie_index == old(self).selected_movie_index
                    &&& final(self).similar_movies == old(self).similar_movies
                    &&& final(self).search_query == old(self).search_query
                    &&& final(self).filtered_indices == old(self).filtered_indices
                },
            },
    {
        let pending = self.pending_selection;
        self.pending_selection = None;
        if let Some(index) = pending {
            if index < self.catalogue.len() {
                self.selected_movie_index = Some(index);
                let _ = self.calculate_similarities();
                self.search_query = self.catalogue.movie(index).title.clone();
                self.filter_movies();
            }
        }
    }
}

impl Default for MovieSimilarityApp {
    fn default() -> (r: Self)
        ensures
            r.catalogue@.len() == 0,
            r.weights == WeightTable::standard_spec(),
            r.selected_movie_index is None,
            r.similar_movies@.len() == 0,
            r.search_query@.len() == 0,
            r.filtered_indices@.len() == 0,
            r.pending_selection is None,
    {
        Self::new()
    }
}

} // verus!
