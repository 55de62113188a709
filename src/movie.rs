//! Movies, their tagged attributes, and the weighted movie-to-movie score.
use crate::cbr::{
    id_set, lemma_similarity_id_symmetric, lemma_similarity_number_symmetric,
    lemma_similarity_string_symmetric, lemma_string_similarity_self, number_similarity, set_similarity, similarity_id,
    similarity_number, similarity_string, string_similarity, HasId,
};
use crate::error::EngineError;
use crate::score::SCORE_ONE;
use vstd::arithmetic::div_mod::{lemma_div_is_ordered, lemma_div_multiples_vanish};
use vstd::arithmetic::mul::lemma_mul_inequality;
use vstd::prelude::*;

verus! {

/// A movie genre: an identifier and a display name.
#[derive(Debug, Clone)]
pub struct Genre {
    pub id: u32,
    pub name: String,
}

/// A keyword attached to a movie.
#[derive(Debug, Clone)]
pub struct Keyword {
    pub id: u32,
    pub name: String,
}

/// A production company.
#[derive(Debug, Clone)]
pub struct Company {
    pub id: u32,
    pub name: String,
}

impl Genre {
    /// A genre with the given identifier and name.
    pub fn new(id: u32, name: String) -> (r: Self)
        ensures
            r.id == id,
            r.name == name,
    {
        Genre { id, name }
    }

    /// The display name.
    pub fn name(&self) -> (r: &str)
        ensures
            r@ == self.name@,
    {
        self.name.as_str()
    }
}

impl HasId for Genre {
    open spec fn spec_id(&self) -> u32 {
        self.id
    }

    fn id(&self) -> (r: u32) {
        self.id
    }
}

impl Keyword {
    /// A keyword with the given identifier and name.
    pub fn new(id: u32, name: String) -> (r: Self)
        ensures
            r.id == id,
            r.name == name,
    {
        Keyword { id, name }
    }

    /// The display name.
    pub fn name(&self) -> (r: &str)
        ensures
            r@ == self.name@,
    {
        self.name.as_str()
    }
}

impl HasId for Keyword {
    open spec fn spec_id(&self) -> u32 {
        self.id
    }

    fn id(&self) -> (r: u32) {
        self.id
    }
}

impl Company {
    /// A company with the given identifier and name.
    pub fn new(id: u32, name: String) -> (r: Self)
        ensures
            r.id == id,
            r.name == name,
    {
        Company { id, name }
    }

    /// The display name.
    pub fn name(&self) -> (r: &str)
        ensures
            r@ == self.name@,
    {
        self.name.as_str()
    }
}

impl HasId for Company {
    open spec fn spec_id(&self) -> u32 {
        self.id
    }

    fn id(&self) -> (r: u32) {
        self.id
    }
}

/// A movie of the catalogue. Budget, title, homepage, genres, keywords and
/// production companies take part in scoring; the other fields are carried
/// for display only.
#[derive(Debug, Clone)]
pub struct Movie {
    /// Identifier, unique within a catalogue.
    pub id: u32,
    /// Budget in whole currency units.
    pub budget: u32,
    pub title: String,
    pub homepage: String,
    pub genres: Vec<Genre>,
    pub keywords: Vec<Keyword>,
    pub production_companies: Vec<Company>,
    /// Release date as written in the source data (`YYYY-MM-DD`).
    pub release_date: String,
    /// Average user rating, in tenths of a point.
    pub vote_average_tenths: u32,
    pub vote_count: u32,
}

impl HasId for Movie {
    open spec fn spec_id(&self) -> u32 {
        self.id
    }

    fn id(&self) -> (r: u32) {
        self.id
    }
}

/// The weight of each scored attribute. Scores are normalised by the sum
/// of the weights, which must be positive.
#[derive(Debug, Clone, Copy)]
pub struct WeightTable {
    pub budget: u32,
    pub genres: u32,
    pub homepage: u32,
    pub keywords: u32,
    pub production_companies: u32,
    pub title: u32,
}

impl WeightTable {
    /// The sum of all weights.
    pub open spec fn total(&self) -> int {
        self.budget + self.genres + self.homepage + self.keywords + self.production_companies
            + self.title
    }

    /// Whether scores can be normalised by this table.
    pub open spec fn valid(&self) -> bool {
        self.total() > 0
    }

    /// A table with the given weights, refused when they sum to zero.
    pub fn new(
        budget: u32,
        genres: u32,
        homepage: u32,
        keywords: u32,
        production_companies: u32,
        title: u32,
    ) -> (r: Result<Self, EngineError>)
        ensures
            match r {
                Ok(w) => w.valid() && w == (WeightTable {
                    budget,
                    genres,
                    homepage,
                    keywords,
                    production_companies,
                    title,
                }),
                Err(e) => e == EngineError::InvalidWeights,
            },
            r is Err <==> budget + genres + homepage + keywords + production_companies + title == 0,
    {
        let w = WeightTable { budget, genres, homepage, keywords, production_companies, title };
        if w.total_weight() == 0 {
            Err(EngineError::InvalidWeights)
        } else {
            Ok(w)
        }
    }

    /// The weights the catalogue browser uses, in tenths: budget 3, genres
    /// 10, homepage 2, keywords 20, production companies 10, title 25.
    pub open spec fn standard_spec() -> Self {
        WeightTable {
            budget: 3,
            genres: 10,
            homepage: 2,
            keywords: 20,
            production_companies: 10,
            title: 25,
        }
    }

    /// The weights the catalogue browser uses; see [`WeightTable::standard_spec`].
    pub fn standard() -> (r: Self)
        ensures
            r.valid(),
            r == Self::standard_spec(),
    {
        WeightTable {
            budget: 3,
            genres: 10,
            homepage: 2,
            keywords: 20,
            production_companies: 10,
            title: 25,
        }
    }

    /// The sum of all weights.
    pub fn total_weight(&self) -> (r: u64)
        ensures
            r == self.total(),
    {
        self.budget as u64 + self.genres as u64 + self.homepage as u64 + self.keywords as u64
            + self.production_companies as u64 + self.title as u64
    }
}

/// The weighted sum of the attribute similarities of two movies, before
/// normalisation.
pub open spec fn weighted_sum(
    a: Movie,
    b: Movie,
    min_budget: u32,
    max_budget: u32,
    w: WeightTable,
) -> int {
    w.budget * number_similarity(a.budget as int, b.budget as int, max_budget as int, min_budget as int)
        + w.genres * set_similarity(id_set(a.genres@), id_set(b.genres@))
        + w.homepage * string_similarity(a.homepage@, b.homepage@)
        + w.keywords * set_similarity(id_set(a.keywords@), id_set(b.keywords@))
        + w.production_companies * set_similarity(
        id_set(a.production_companies@),
        id_set(b.production_companies@),
    ) + w.title * string_similarity(a.title@, b.title@)
}

/// Similarity of two movies: the weighted sum of their attribute
/// similarities divided by the total weight.
pub open spec fn movie_similarity(
    a: Movie,
    b: Movie,
    min_budget: u32,
    max_budget: u32,
    w: WeightTable,
) -> int {
    weighted_sum(a, b, min_budget, max_budget, w) / w.total()
}

impl Movie {
    /// Similarity of this movie and `other`, where `min_budget..=max_budget`
    /// is the budget range of the catalogue.
    pub fn similarity(
        &self,
        other: &Movie,
        min_budget: u32,
        max_budget: u32,
        weights: &WeightTable,
    ) -> (r: u64)
        requires
            weights.valid(),
        ensures
            r == movie_similarity(*self, *other, min_budget, max_budget, *weights),
            r <= SCORE_ONE,
    {
        let s_budget = similarity_number(self.budget, other.budget, max_budget, min_budget);
        let s_genres = similarity_id(self.genres.as_slice(), other.genres.as_slice());
        let s_homepage = similarity_string(self.homepage.as_str(), other.homepage.as_str());
        let s_keywords = similarity_id(self.keywords.as_slice(), other.keywords.as_slice());
        let s_companies = similarity_id(
            self.production_companies.as_slice(),
            other.production_companies.as_slice(),
        );
        let s_title = similarity_string(self.title.as_str(), other.title.as_str());
        let w = weights;
        proof {
            lemma_weighted_term(w.budget, s_budget);
            lemma_weighted_term(w.genres, s_genres);
            lemma_weighted_term(w.homepage, s_homepage);
            lemma_weighted_term(w.keywords, s_keywords);
            lemma_weighted_term(w.production_companies, s_companies);
            lemma_weighted_term(w.title, s_title);
        }
        let sum: u64 = w.budget as u64 * s_budget + w.genres as u64 * s_genres + w.homepage as u64
            * s_homepage + w.keywords as u64 * s_keywords + w.production_companies as u64
            * s_companies + w.title as u64 * s_title;
        let total = w.total_weight();
        proof {
            let s = SCORE_ONE as int;
            assert(sum <= total * s) by (nonlinear_arith)
                requires
                    sum == w.budget * s_budget + w.genres * s_genres + w.homepage * s_homepage
                        + w.keywords * s_keywords + w.production_companies * s_companies
                        + w.title * s_title,
                    total == w.budget + w.genres + w.homepage + w.keywords
                        + w.production_companies + w.title,
                    w.budget * s_budget <= w.budget * s,
                    w.genres * s_genres <= w.genres * s,
                    w.homepage * s_homepage <= w.homepage * s,
                    w.keywords * s_keywords <= w.keywords * s,
                    w.production_companies * s_companies <= w.production_companies * s,
                    w.title * s_title <= w.title * s,
            ;
            lemma_div_is_ordered(sum as int, total * s, total as int);
            lemma_div_multiples_vanish(s, total as int);
        }
        sum / total
    }
}

/// A weight times a score is bounded by the weight times `SCORE_ONE`, which
/// keeps the weighted sum within `u64`.
proof fn lemma_weighted_term(w: u32, s: u64)
    requires
        s <= SCORE_ONE,
    ensures
        w * s <= w * SCORE_ONE,
        w * s <= 0xffff_ffff * 1_000_000,
{
    lemma_mul_inequality(s as int, SCORE_ONE as int, w as int);
    lemma_mul_inequality(w as int, 0xffff_ffff, SCORE_ONE as int);
    assert(s * w == w * s) by (nonlinear_arith);
}

/// A movie compared with itself scores `SCORE_ONE`, under any valid
/// weights, provided that every tagged collection with a positive weight is
/// non-empty (two empty collections score zero, not one).
pub proof fn lemma_similarity_reflexive(m: Movie, min_budget: u32, max_budget: u32, w: WeightTable)
    requires
        w.valid(),
        w.genres == 0 || m.genres@.len() > 0,
        w.keywords == 0 || m.keywords@.len() > 0,
        w.production_companies == 0 || m.production_companies@.len() > 0,
    ensures
        movie_similarity(m, m, min_budget, max_budget, w) == SCORE_ONE,
{
    let s = SCORE_ONE as int;
    lemma_set_similarity_self(m.genres@);
    lemma_set_similarity_self(m.keywords@);
    lemma_set_similarity_self(m.production_companies@);
    lemma_string_similarity_self(m.homepage@);
    lemma_string_similarity_self(m.title@);
    let sg = set_similarity(id_set(m.genres@), id_set(m.genres@));
    let sk = set_similarity(id_set(m.keywords@), id_set(m.keywords@));
    let sc = set_similarity(id_set(m.production_companies@), id_set(m.production_companies@));
    if max_budget > min_budget {
        crate::score::lemma_scaled_bounds(max_budget - min_budget, max_budget - min_budget);
    }
    assert(number_similarity(m.budget as int, m.budget as int, max_budget as int, min_budget as int)
        == s);
    assert(w.genres * sg == w.genres * s);
    assert(w.keywords * sk == w.keywords * s);
    assert(w.production_companies * sc == w.production_companies * s);
    assert(weighted_sum(m, m, min_budget, max_budget, w) == w.total() * s) by (nonlinear_arith)
        requires
            weighted_sum(m, m, min_budget, max_budget, w) == w.budget * s + w.genres * s
                + w.homepage * s + w.keywords * s + w.production_companies * s + w.title * s,
            w.total() == w.budget + w.genres + w.homepage + w.keywords + w.production_companies
                + w.title,
    ;
    lemma_div_multiples_vanish(s, w.total());
    assert(w.total() * s == s * w.total()) by (nonlinear_arith);
}

/// A non-empty collection overlaps itself fully; an empty one scores zero.
proof fn lemma_set_similarity_self<T: HasId>(items: Seq<T>)
    ensures
        items.len() > 0 ==> set_similarity(id_set(items), id_set(items)) == SCORE_ONE,
        items.len() == 0 ==> set_similarity(id_set(items), id_set(items)) == 0,
{
    let ids = id_set(items);
    assert(ids.union(ids) =~= ids);
    assert(ids.intersect(ids) =~= ids);
    if items.len() > 0 {
        let f = |item: T| item.spec_id();
        assert(items.map_values(f)[0] == items[0].spec_id());
        assert(ids.contains(items[0].spec_id()));
        vstd::seq_lib::seq_to_set_is_finite(items.map_values(f));
        vstd::set_lib::lemma_set_empty_equivalency_len(ids);
        crate::score::lemma_scaled_bounds(ids.len() as int, ids.len() as int);
    } else {
        assert(ids =~= Set::empty());
    }
}

/// Movie similarity does not depend on the order of the two movies.
pub proof fn lemma_similarity_symmetric(
    a: Movie,
    b: Movie,
    min_budget: u32,
    max_budget: u32,
    w: WeightTable,
)
    ensures
        movie_similarity(a, b, min_budget, max_budget, w) == movie_similarity(
            b,
            a,
            min_budget,
            max_budget,
            w,
        ),
{
    lemma_similarity_number_symmetric(
        a.budget as int,
        b.budget as int,
        max_budget as int,
        min_budget as int,
    );
    lemma_similarity_id_symmetric(a.genres@, b.genres@);
    lemma_similarity_string_symmetric(a.homepage@, b.homepage@);
    lemma_similarity_id_symmetric(a.keywords@, b.keywords@);
    lemma_similarity_id_symmetric(a.production_companies@, b.production_companies@);
    lemma_similarity_string_symmetric(a.title@, b.title@);
}

} // verus!
