//! The catalogue and the ranking of its movies against a reference movie.
use crate::error::EngineError;
use crate::movie::{movie_similarity, Movie, WeightTable};
use crate::score::SCORE_ONE;
use vstd::prelude::*;

verus! {

/// One ranked candidate: its position in the catalogue and its score.
#[derive(Debug, Clone, Copy, PartialEq, Eq, Structural)]
pub struct ScoreEntry {
    pub index: usize,
    pub score: u64,
}

/// Whether `e` ranks ahead of the candidate at `index` with `score`: a
/// higher score first, and on equal scores the earlier catalogue position.
pub open spec fn outranks(e: ScoreEntry, score: int, index: int) -> bool {
    e.score > score || (e.score == score && e.index < index)
}

/// Whether entry `x` ranks ahead of entry `y`.
pub open spec fn ranks_before(x: ScoreEntry, y: ScoreEntry) -> bool {
    outranks(x, y.score as int, y.index as int)
}

/// The smaller of two integers.
pub open spec fn min_int(a: int, b: int) -> int {
    if a <= b {
        a
    } else {
        b
    }
}

/// How many positions below `i` are candidates, that is, are not `reference`.
pub open spec fn candidates_below(reference: int, i: int) -> int {
    if 0 <= reference < i {
        i - 1
    } else {
        i
    }
}

/// Whether some entry of `s` is for catalogue position `index`.
pub open spec fn lists(s: Seq<ScoreEntry>, index: int) -> bool {
    exists|p: int| 0 <= p < s.len() && #[trigger] s[p].index == index
}

/// The first `k` entries of `s` that are not for position `reference`.
pub open spec fn first_excluding(s: Seq<ScoreEntry>, reference: int, k: nat) -> Seq<ScoreEntry>
    decreases s.len(),
{
    if s.len() == 0 || k == 0 {
        Seq::empty()
    } else if s[0].index == reference {
        first_excluding(s.drop_first(), reference, k)
    } else {
        seq![s[0]] + first_excluding(s.drop_first(), reference, (k - 1) as nat)
    }
}

/// The first `k` entries of a ranking that are not for `reference`: what a
/// reader of the ranking against `reference` shows as its best matches.
pub fn top_excluding(ranking: &Vec<ScoreEntry>, reference: usize, k: usize) -> (r: Vec<ScoreEntry>)
    ensures
        r@ == first_excluding(ranking@, reference as int, k as nat),
{
    let n = ranking.len();
    let mut out: Vec<ScoreEntry> = Vec::new();
    let mut i: usize = 0;
    assert(ranking@.subrange(0, n as int) =~= ranking@);
    assert(out@ + first_excluding(ranking@, reference as int, k as nat) =~= first_excluding(
        ranking@,
        reference as int,
        k as nat,
    ));
    while i < n && out.len() < k
        invariant
            n == ranking@.len(),
            i <= n,
            out@.len() <= k,
            out@ + first_excluding(ranking@.subrange(i as int, n as int), reference as int, (k
                - out@.len()) as nat) == first_excluding(ranking@, reference as int, k as nat),
        decreases n - i,
    {
        let ghost rest = ranking@.subrange(i as int, n as int);
        let ghost before = out@;
        proof {
            assert(rest.drop_first() =~= ranking@.subrange(i + 1, n as int));
            assert(rest[0] == ranking@[i as int]);
        }
        let e = ranking[i];
        if e.index != reference {
            out.push(e);
            proof {
                assert(out@ + first_excluding(rest.drop_first(), reference as int, (k - out@.len()) as nat)
                    =~= before + first_excluding(rest, reference as int, (k - before.len()) as nat));
            }
        }
        i = i + 1;
    }
    proof {
        let rest = ranking@.subrange(i as int, n as int);
        assert(first_excluding(rest, reference as int, (k - out@.len()) as nat) =~= Seq::empty());
        assert(out@ + Seq::<ScoreEntry>::empty() =~= out@);
    }
    out
}

/// Whether `lo..=hi` are the smallest and largest budgets of `movies`, or
/// `0..=0` when there are none.
pub open spec fn budget_bounds(movies: Seq<Movie>, lo: u32, hi: u32) -> bool {
    if movies.len() == 0 {
        lo == 0 && hi == 0
    } else {
        &&& forall|i: int| 0 <= i < movies.len() ==> lo <= #[trigger] movies[i].budget <= hi
        &&& exists|i: int| 0 <= i < movies.len() && #[trigger] movies[i].budget == lo
        &&& exists|i: int| 0 <= i < movies.len() && #[trigger] movies[i].budget == hi
    }
}

/// An ordered collection of movies with the budget range that scoring
/// normalises by. It is built once by [`Catalogue::load`] and never changed;
/// loading new movies makes a new catalogue.
pub struct Catalogue {
    movies: Vec<Movie>,
    min_budget: u32,
    max_budget: u32,
}

impl View for Catalogue {
    type V = Seq<Movie>;

    closed spec fn view(&self) -> Seq<Movie> {
        self.movies@
    }
}

impl Catalogue {
    /// The stored budget range is that of the movies.
    #[verifier::type_invariant]
    closed spec fn bounds_fit(&self) -> bool {
        budget_bounds(self.movies@, self.min_budget, self.max_budget)
    }

    /// The budget range `(min, max)`: the smallest and largest budget of
    /// the movies, or `(0, 0)` when there are none.
    pub fn budget_range(&self) -> (r: (u32, u32))
        ensures
            r.0 == self.spec_min_budget(),
            r.1 == self.spec_max_budget(),
            budget_bounds(self@, r.0, r.1),
    {
        proof {
            use_type_invariant(self);
        }
        (self.min_budget, self.max_budget)
    }

    /// The smallest budget of the catalogue (zero when it is empty).
    pub closed spec fn spec_min_budget(&self) -> u32 {
        self.min_budget
    }

    /// The largest budget of the catalogue (zero when it is empty).
    pub closed spec fn spec_max_budget(&self) -> u32 {
        self.max_budget
    }

    /// The score of the movie at `index` against the one at `reference`.
    pub open spec fn score_against(&self, reference: int, index: int, w: WeightTable) -> int {
        movie_similarity(
            self@[reference],
            self@[index],
            self.spec_min_budget(),
            self.spec_max_budget(),
            w,
        )
    }

    /// Whether `s` lists movies of this catalogue, each with its score
    /// against `reference`, in strict rank order.
    pub open spec fn ranked_entries(&self, s: Seq<ScoreEntry>, reference: int, w: WeightTable) -> bool {
        &&& forall|p: int|
            0 <= p < s.len() ==> {
                &&& #[trigger] s[p].index < self@.len()
                &&& s[p].score == self.score_against(reference, s[p].index as int, w)
            }
        &&& forall|p: int, q: int| 0 <= p < q < s.len() ==> ranks_before(#[trigger] s[p], #[trigger] s[q])
    }

    /// Whether `s` lists candidates of this catalogue, each with its score
    /// against `reference`, never `reference` itself, in strict rank order.
    pub open spec fn ranked_candidates(
        &self,
        s: Seq<ScoreEntry>,
        reference: int,
        w: WeightTable,
    ) -> bool {
        &&& self.ranked_entries(s, reference, w)
        &&& forall|p: int| 0 <= p < s.len() ==> #[trigger] s[p].index != reference
    }

    /// Whether every movie other than `excluded` that `s` leaves out ranks
    /// behind all that it lists.
    pub open spec fn omits_only_lower_except(
        &self,
        s: Seq<ScoreEntry>,
        reference: int,
        excluded: int,
        w: WeightTable,
    ) -> bool {
        forall|j: int|
            0 <= j < self@.len() && j != excluded && !lists(s, j) ==> forall|p: int|
                0 <= p < s.len() ==> outranks(#[trigger] s[p], self.score_against(reference, j, w), j)
    }

    /// Whether every candidate that `s` leaves out ranks behind all that it
    /// lists.
    pub open spec fn omits_only_lower(
        &self,
        s: Seq<ScoreEntry>,
        reference: int,
        w: WeightTable,
    ) -> bool {
        self.omits_only_lower_except(s, reference, reference, w)
    }

    /// Whether `s` is the full ranking against `reference`: every movie of
    /// the catalogue, `reference` included, once, in strict rank order.
    pub open spec fn full_ranking(&self, s: Seq<ScoreEntry>, reference: int, w: WeightTable) -> bool {
        &&& s.len() == self@.len()
        &&& self.ranked_entries(s, reference, w)
        &&& forall|j: int| 0 <= j < self@.len() ==> lists(s, j)
    }

    /// A catalogue of `movies`, with their budget range.
    pub fn load(movies: Vec<Movie>) -> (r: Catalogue)
        ensures
            r@ == movies@,
            budget_bounds(movies@, r.spec_min_budget(), r.spec_max_budget()),
    {
        if movies.len() == 0 {
            return Catalogue { movies, min_budget: 0, max_budget: 0 };
        }
        let mut lo: u32 = movies[0].budget;
        let mut hi: u32 = movies[0].budget;
        let mut i: usize = 1;
        while i < movies.len()
            invariant
                1 <= i <= movies@.len(),
                forall|j: int| 0 <= j < i ==> lo <= #[trigger] movies@[j].budget <= hi,
                exists|j: int| 0 <= j < i && #[trigger] movies@[j].budget == lo,
                exists|j: int| 0 <= j < i && #[trigger] movies@[j].budget == hi,
            decreases movies@.len() - i,
        {
            let b = movies[i].budget;
            if b < lo {
                lo = b;
            }
            if b > hi {
                hi = b;
            }
            i = i + 1;
        }
        Catalogue { movies, min_budget: lo, max_budget: hi }
    }

    /// The score of the movie at `b` against the one at `a`.
    pub fn similarity(&self, a: usize, b: usize, weights: &WeightTable) -> (r: Result<
        u64,
        EngineError,
    >)
        requires
            weights.valid(),
        ensures
            r is Err <==> a >= self@.len() || b >= self@.len(),
            r is Err ==> r == Err::<u64, EngineError>(EngineError::IndexOutOfRange),
            r matches Ok(s) ==> s == self.score_against(a as int, b as int, *weights)
                && s <= SCORE_ONE,
    {
        if a >= self.movies.len() || b >= self.movies.len() {
            return Err(EngineError::IndexOutOfRange);
        }
        Ok(self.movies[a].similarity(&self.movies[b], self.min_budget, self.max_budget, weights))
    }

    /// The `k` movies most similar to the one at `reference`, best first,
    /// leaving `reference` itself out. Equal scores keep catalogue order.
    /// Fewer than `k` come back when the catalogue has fewer candidates.
    pub fn top_k(&self, reference: usize, k: usize, weights: &WeightTable) -> (r: Result<
        Vec<ScoreEntry>,
        EngineError,
    >)
        requires
            weights.valid(),
        ensures
            r is Err <==> reference >= self@.len(),
            r is Err ==> r == Err::<Vec<ScoreEntry>, EngineError>(EngineError::IndexOutOfRange),
            r matches Ok(v) ==> {
                &&& v@.len() == min_int(k as int, self@.len() - 1)
                &&& k >= self@.len() - 1 ==> v@.len() == self@.len() - 1
                &&& k == 0 ==> v@.len() == 0
                &&& self.ranked_candidates(v@, reference as int, *weights)
                &&& self.omits_only_lower(v@, reference as int, *weights)
            },
    {
        if reference >= self.movies.len() {
            return Err(EngineError::IndexOutOfRange);
        }
        Ok(self.select_top(reference, true, k, weights))
    }

    /// Scores every movie of the catalogue, the one at `reference`
    /// included, against the one at `reference`, best first. Equal scores
    /// keep catalogue order.
    pub fn ranking(&self, reference: usize, weights: &WeightTable) -> (r: Result<
        Vec<ScoreEntry>,
        EngineError,
    >)
        requires
            weights.valid(),
        ensures
            r is Err <==> reference >= self@.len(),
            r is Err ==> r == Err::<Vec<ScoreEntry>, EngineError>(EngineError::IndexOutOfRange),
            r matches Ok(v) ==> self.full_ranking(v@, reference as int, *weights),
    {
        if reference >= self.movies.len() {
            return Err(EngineError::IndexOutOfRange);
        }
        let n = self.movies.len();
        let v = self.select_top(reference, false, n, weights);
        proof {
            assert forall|j: int| 0 <= j < self@.len() implies lists(v@, j) by {
                if !lists(v@, j) {
                    assert(candidates_below(-1, n as int) == n);
                }
            }
        }
        Ok(v)
    }

    /// Keeps the best `k` movies against `reference`, leaving `reference`
    /// itself out when `skip_reference` holds, while scanning the catalogue
    /// once and inserting each into a list sorted by rank.
    fn select_top(&self, reference: usize, skip_reference: bool, k: usize, weights: &WeightTable) -> (r:
        Vec<ScoreEntry>)
        requires
            reference < self@.len(),
            weights.valid(),
        ensures
            ({
                let excluded: int = if skip_reference {
                    reference as int
                } else {
                    -1
                };
                let total = candidates_below(excluded, self@.len() as int);
                &&& r@.len() == min_int(k as int, total)
                &&& self.ranked_entries(r@, reference as int, *weights)
                &&& forall|p: int| 0 <= p < r@.len() ==> #[trigger] r@[p].index != excluded
                &&& forall|j: int|
                    0 <= j < self@.len() && j != excluded && !lists(r@, j) ==> total > k
                        && forall|p: int|
                        0 <= p < r@.len() ==> outranks(
                            #[trigger] r@[p],
                            self.score_against(reference as int, j, *weights),
                            j,
                        )
            }),
    {
        let ghost excluded: int = if skip_reference {
            reference as int
        } else {
            -1
        };
        let n = self.movies.len();
        let mut out: Vec<ScoreEntry> = Vec::new();
        let mut i: usize = 0;
        while i < n
            invariant
                n == self@.len(),
                reference < n,
                weights.valid(),
                excluded == (if skip_reference {
                    reference as int
                } else {
                    -1
                }),
                i <= n,
                out@.len() == min_int(k as int, candidates_below(excluded, i as int)),
                forall|p: int| 0 <= p < out@.len() ==> #[trigger] out@[p].index < i,
                forall|p: int| 0 <= p < out@.len() ==> #[trigger] out@[p].index != excluded,
                self.ranked_entries(out@, reference as int, *weights),
                forall|j: int|
                    0 <= j < i && j != excluded && !lists(out@, j) ==> out@.len() == k
                        && candidates_below(excluded, i as int) > k && forall|p: int|
                        0 <= p < out@.len() ==> outranks(
                            #[trigger] out@[p],
                            self.score_against(reference as int, j, *weights),
                            j,
                        ),
            decreases n - i,
        {
            if !skip_reference || i != reference {
                let s = self.movies[reference].similarity(
                    &self.movies[i],
                    self.min_budget,
                    self.max_budget,
                    weights,
                );
                let e = ScoreEntry { index: i, score: s };
                let mut pos: usize = 0;
                while pos < out.len() && out[pos].score >= s
                    invariant
                        pos <= out@.len(),
                        forall|p: int| 0 <= p < pos ==> #[trigger] out@[p].score >= s,
                    decreases out@.len() - pos,
                {
                    pos = pos + 1;
                }
                let ghost before = out@;
                proof {
                    assert forall|p: int| pos <= p < before.len() implies #[trigger] before[p].score < s by {
                        if p > pos {
                            assert(ranks_before(before[pos as int], before[p]));
                        }
                    }
                }
                if pos < k {
                    out.insert(pos, e);
                    let ghost inserted = out@;
                    proof {
                        lemma_insert_ranked(self, before, e, pos as int, reference as int, *weights);
                        before.insert_ensures(pos as int, e);
                    }
                    if out.len() > k {
                        out.pop();
                        proof {
                            assert(out@ =~= inserted.drop_last());
                        }
                    }
                    proof {
                        lemma_insert_keeps_omitted(
                            self,
                            before,
                            out@,
                            e,
                            pos as int,
                            k as int,
                            candidates_below(excluded, i as int),
                            reference as int,
                            excluded,
                            *weights,
                        );
                        assert forall|p: int| 0 <= p < out@.len() implies #[trigger] out@[p].index
                            != excluded && out@[p].index < i + 1 by {
                            assert(out@[p] == inserted[p]);
                            if p > pos {
                                assert(inserted[p] == before[p - 1]);
                            }
                        }
                    }
                } else {
                    proof {
                        assert forall|p: int| 0 <= p < out@.len() implies outranks(
                            #[trigger] out@[p],
                            self.score_against(reference as int, i as int, *weights),
                            i as int,
                        ) by {
                            assert(out@[p].score >= s);
                        }
                    }
                }
            }
            i = i + 1;
        }
        out
    }

    /// The number of movies.
    pub fn len(&self) -> (r: usize)
        ensures
            r == self@.len(),
    {
        self.movies.len()
    }

    /// The movie at `index`.
    pub fn movie(&self, index: usize) -> (r: &Movie)
        requires
            index < self@.len(),
        ensures
            *r == self@[index as int],
    {
        &self.movies[index]
    }

    /// The smallest budget (zero when the catalogue is empty).
    pub fn min_budget(&self) -> (r: u32)
        ensures
            r == self.spec_min_budget(),
    {
        self.min_budget
    }

    /// The largest budget (zero when the catalogue is empty).
    pub fn max_budget(&self) -> (r: u32)
        ensures
            r == self.spec_max_budget(),
    {
        self.max_budget
    }
}

/// Inserting `e` where it ranks keeps a ranked list ranked.
proof fn lemma_insert_ranked(
    c: &Catalogue,
    before: Seq<ScoreEntry>,
    e: ScoreEntry,
    pos: int,
    reference: int,
    w: WeightTable,
)
    requires
        0 <= pos <= before.len(),
        c.ranked_entries(before, reference, w),
        forall|p: int| 0 <= p < before.len() ==> #[trigger] before[p].index < e.index,
        forall|p: int| 0 <= p < pos ==> #[trigger] before[p].score >= e.score,
        forall|p: int| pos <= p < before.len() ==> #[trigger] before[p].score < e.score,
        e.index < c@.len(),
        e.score == c.score_against(reference, e.index as int, w),
    ensures
        c.ranked_entries(before.insert(pos, e), reference, w),
{
    let s = before.insert(pos, e);
    before.insert_ensures(pos, e);
    assert forall|p: int, q: int| 0 <= p < q < s.len() implies ranks_before(
        #[trigger] s[p],
        #[trigger] s[q],
    ) by {
        if q < pos {
            assert(ranks_before(before[p], before[q]));
        } else if q == pos {
        } else if p < pos {
            assert(ranks_before(before[p], before[q - 1]));
        } else if p == pos {
        } else {
            assert(ranks_before(before[p - 1], before[q - 1]));
        }
    }
}

/// After `e` is inserted at `pos` and the list cut back to `k` entries, a
/// movie that the list leaves out still ranks behind every listed one, and
/// more movies have been seen than the list holds.
proof fn lemma_insert_keeps_omitted(
    c: &Catalogue,
    before: Seq<ScoreEntry>,
    after: Seq<ScoreEntry>,
    e: ScoreEntry,
    pos: int,
    k: int,
    seen: int,
    reference: int,
    excluded: int,
    w: WeightTable,
)
    requires
        0 <= pos < k,
        pos <= before.len() <= k,
        before.len() == min_int(k, seen),
        after == (if before.len() + 1 > k {
            before.insert(pos, e).drop_last()
        } else {
            before.insert(pos, e)
        }),
        c.ranked_entries(before.insert(pos, e), reference, w),
        forall|j: int|
            0 <= j < e.index && j != excluded && !lists(before, j) ==> before.len() == k && seen > k
                && forall|p: int|
                0 <= p < before.len() ==> outranks(
                    #[trigger] before[p],
                    c.score_against(reference, j, w),
                    j,
                ),
    ensures
        after.len() == min_int(k, seen + 1),
        forall|j: int|
            0 <= j < e.index + 1 && j != excluded && !lists(after, j) ==> after.len() == k && seen
                + 1 > k && forall|p: int|
                0 <= p < after.len() ==> outranks(
                    #[trigger] after[p],
                    c.score_against(reference, j, w),
                    j,
                ),
{
    let inserted = before.insert(pos, e);
    before.insert_ensures(pos, e);
    assert(after[pos] == e);
    assert(lists(after, e.index as int));
    assert forall|j: int|
        0 <= j < e.index + 1 && j != excluded && !lists(after, j) implies after.len() == k && seen + 1
        > k && forall|p: int|
        0 <= p < after.len() ==> outranks(#[trigger] after[p], c.score_against(reference, j, w), j) by {
        let sj = c.score_against(reference, j, w);
        if lists(before, j) {
            let q = choose|q: int| 0 <= q < before.len() && #[trigger] before[q].index == j;
            let q2 = if q < pos {
                q
            } else {
                q + 1
            };
            assert(inserted[q2] == before[q]);
            if q2 < after.len() {
                assert(after[q2].index == j);
            }
            assert(q2 == inserted.len() - 1);
            assert forall|p: int| 0 <= p < after.len() implies outranks(#[trigger] after[p], sj, j) by {
                assert(ranks_before(inserted[p], inserted[q2]));
            }
        } else {
            assert forall|p: int| 0 <= p < after.len() implies outranks(#[trigger] after[p], sj, j) by {
                if p < pos {
                    assert(after[p] == before[p]);
                } else if p == pos {
                    assert(ranks_before(inserted[pos], inserted[pos + 1]));
                    assert(outranks(before[pos], sj, j));
                } else {
                    assert(after[p] == before[p - 1]);
                }
            }
        }
    }
}

/// How many entries of `s` are not for position `reference`.
pub open spec fn count_excluding(s: Seq<ScoreEntry>, reference: int) -> nat
    decreases s.len(),
{
    if s.len() == 0 {
        0
    } else {
        (if s[0].index == reference {
            0nat
        } else {
            1nat
        }) + count_excluding(s.drop_first(), reference)
    }
}

/// What taking the first `k` entries other than `reference` keeps of `s`.
proof fn lemma_first_excluding(s: Seq<ScoreEntry>, reference: int, k: nat)
    ensures
        ({
            let v = first_excluding(s, reference, k);
            &&& v.len() == min_int(k as int, count_excluding(s, reference) as int)
            &&& forall|p: int|
                0 <= p < v.len() ==> s.contains(#[trigger] v[p]) && v[p].index != reference
            &&& (forall|p: int, q: int| 0 <= p < q < s.len() ==> ranks_before(#[trigger] s[p], #[trigger] s[q]))
                ==> {
                &&& forall|p: int, q: int|
                    0 <= p < q < v.len() ==> ranks_before(#[trigger] v[p], #[trigger] v[q])
                &&& forall|q: int|
                    0 <= q < s.len() && s[q].index != reference && !v.contains(#[trigger] s[q])
                        ==> v.len() == k && forall|p: int|
                        0 <= p < v.len() ==> ranks_before(#[trigger] v[p], s[q])
            }
        }),
    decreases s.len(),
{
    let v = first_excluding(s, reference, k);
    if s.len() == 0 || k == 0 {
        assert(v =~= Seq::<ScoreEntry>::empty());
        if s.len() > 0 {
            lemma_count_bound(s, reference);
        }
        return;
    }
    let t = s.drop_first();
    if s[0].index == reference {
        lemma_first_excluding(t, reference, k);
        assert forall|p: int| 0 <= p < v.len() implies s.contains(#[trigger] v[p]) && v[p].index
            != reference by {
            let q = choose|q: int| 0 <= q < t.len() && t[q] == v[p];
            assert(s[q + 1] == v[p]);
        }
        if forall|p: int, q: int| 0 <= p < q < s.len() ==> ranks_before(#[trigger] s[p], #[trigger] s[q]) {
            assert forall|p: int, q: int| 0 <= p < q < t.len() implies ranks_before(
                #[trigger] t[p],
                #[trigger] t[q],
            ) by {
                assert(ranks_before(s[p + 1], s[q + 1]));
            }
            assert forall|q: int|
                0 <= q < s.len() && s[q].index != reference && !v.contains(#[trigger] s[q]) implies v.len()
                == k && forall|p: int| 0 <= p < v.len() ==> ranks_before(#[trigger] v[p], s[q]) by {
                assert(t[q - 1] == s[q]);
            }
        }
    } else {
        let w = first_excluding(t, reference, (k - 1) as nat);
        lemma_first_excluding(t, reference, (k - 1) as nat);
        assert(v == seq![s[0]] + w);
        assert forall|p: int| 0 <= p < v.len() implies s.contains(#[trigger] v[p]) && v[p].index
            != reference by {
            if p == 0 {
                assert(s[0] == v[0]);
            } else {
                assert(v[p] == w[p - 1]);
                let q = choose|q: int| 0 <= q < t.len() && t[q] == w[p - 1];
                assert(s[q + 1] == v[p]);
            }
        }
        if forall|p: int, q: int| 0 <= p < q < s.len() ==> ranks_before(#[trigger] s[p], #[trigger] s[q]) {
            assert forall|p: int, q: int| 0 <= p < q < t.len() implies ranks_before(
                #[trigger] t[p],
                #[trigger] t[q],
            ) by {
                assert(ranks_before(s[p + 1], s[q + 1]));
            }
            assert forall|p: int, q: int| 0 <= p < q < v.len() implies ranks_before(
                #[trigger] v[p],
                #[trigger] v[q],
            ) by {
                assert(v[q] == w[q - 1]);
                if p == 0 {
                    let j = choose|j: int| 0 <= j < t.len() && t[j] == w[q - 1];
                    assert(ranks_before(s[0], s[j + 1]));
                } else {
                    assert(v[p] == w[p - 1]);
                }
            }
            assert forall|q: int|
                0 <= q < s.len() && s[q].index != reference && !v.contains(#[trigger] s[q]) implies v.len()
                == k && forall|p: int| 0 <= p < v.len() ==> ranks_before(#[trigger] v[p], s[q]) by {
                if q == 0 {
                    assert(v[0] == s[0]);
                } else {
                    assert(t[q - 1] == s[q]);
                    if w.contains(s[q]) {
                        let i = choose|i: int| 0 <= i < w.len() && w[i] == s[q];
                        assert(v[i + 1] == s[q]);
                    }
                    assert forall|p: int| 0 <= p < v.len() implies ranks_before(#[trigger] v[p], s[q]) by {
                        if p == 0 {
                            assert(ranks_before(s[0], s[q]));
                        } else {
                            assert(v[p] == w[p - 1]);
                        }
                    }
                }
            }
        }
    }
}

/// A sequence has at most as many entries other than `reference` as it
/// has entries.
proof fn lemma_count_bound(s: Seq<ScoreEntry>, reference: int)
    ensures
        count_excluding(s, reference) <= s.len(),
    decreases s.len(),
{
    if s.len() > 0 {
        lemma_count_bound(s.drop_first(), reference);
    }
}

/// In a sequence whose entries are for distinct positions, all entries but
/// at most the one for `reference` count.
proof fn lemma_count_distinct(s: Seq<ScoreEntry>, reference: int)
    requires
        forall|p: int, q: int| 0 <= p < q < s.len() ==> #[trigger] s[p].index != #[trigger] s[q].index,
    ensures
        count_excluding(s, reference) == s.len() - (if lists(s, reference) {
            1int
        } else {
            0int
        }),
    decreases s.len(),
{
    if s.len() > 0 {
        let t = s.drop_first();
        assert forall|p: int, q: int| 0 <= p < q < t.len() implies #[trigger] t[p].index
            != #[trigger] t[q].index by {
            assert(s[p + 1].index != s[q + 1].index);
        }
        lemma_count_distinct(t, reference);
        if lists(t, reference) {
            let q = choose|q: int| 0 <= q < t.len() && #[trigger] t[q].index == reference;
            assert(s[q + 1].index == reference);
            assert(s[0].index != s[q + 1].index);
        }
        if lists(s, reference) && s[0].index != reference {
            let q = choose|q: int| 0 <= q < s.len() && #[trigger] s[q].index == reference;
            assert(t[q - 1].index == reference);
        }
    }
}

/// Reading the full ranking against `reference` through
/// [`top_excluding`] gives what [`Catalogue::top_k`] promises: `k` (or
/// every other) movies, never `reference`, in strict rank order, with every
/// movie left out ranking behind all that are shown.
pub proof fn lemma_view_of_ranking(
    c: &Catalogue,
    ranking: Seq<ScoreEntry>,
    reference: int,
    k: nat,
    w: WeightTable,
)
    requires
        0 <= reference < c@.len(),
        c.full_ranking(ranking, reference, w),
    ensures
        ({
            let v = first_excluding(ranking, reference, k);
            &&& v.len() == min_int(k as int, c@.len() - 1)
            &&& c.ranked_candidates(v, reference, w)
            &&& c.omits_only_lower(v, reference, w)
        }),
{
    let v = first_excluding(ranking, reference, k);
    lemma_first_excluding(ranking, reference, k);
    assert forall|p: int, q: int| 0 <= p < q < ranking.len() implies #[trigger] ranking[p].index
        != #[trigger] ranking[q].index by {
        assert(ranks_before(ranking[p], ranking[q]));
    }
    lemma_count_distinct(ranking, reference);
    assert(lists(ranking, reference));
    assert forall|p: int| 0 <= p < v.len() implies {
        &&& #[trigger] v[p].index < c@.len()
        &&& v[p].score == c.score_against(reference, v[p].index as int, w)
    } by {
        let q = choose|q: int| 0 <= q < ranking.len() && ranking[q] == v[p];
        assert(ranking[q] == v[p]);
    }
    assert forall|j: int| 0 <= j < c@.len() && j != reference && !lists(v, j) implies forall|p: int|
        0 <= p < v.len() ==> outranks(#[trigger] v[p], c.score_against(reference, j, w), j) by {
        assert(lists(ranking, j));
        let q = choose|q: int| 0 <= q < ranking.len() && #[trigger] ranking[q].index == j;
        if v.contains(ranking[q]) {
            let p = choose|p: int| 0 <= p < v.len() && v[p] == ranking[q];
            assert(v[p].index == j);
        }
        assert forall|p: int| 0 <= p < v.len() implies outranks(
            #[trigger] v[p],
            c.score_against(reference, j, w),
            j,
        ) by {
            assert(ranks_before(v[p], ranking[q]));
        }
    }
}

} // verus!
