//! The similarity primitives: bounded numbers, free text and identifier sets.
use crate::score::{lemma_scaled_bounds, scaled, SCORE_ONE};
use std::collections::HashSet;
use vstd::prelude::*;

verus! {

broadcast use vstd::std_specs::hash::group_hash_axioms;

/// Distance between two integers.
pub open spec fn abs_diff(a: int, b: int) -> int {
    if a >= b {
        a - b
    } else {
        b - a
    }
}

/// Similarity of two values of an attribute whose catalogue-wide range is
/// `min..=max`: `1 - |a - b| / (max - min)`, clamped at zero. A degenerate
/// range (`max <= min`) makes every pair identical.
pub open spec fn number_similarity(a: int, b: int, max: int, min: int) -> int {
    if max <= min {
        SCORE_ONE as int
    } else if abs_diff(a, b) >= max - min {
        0
    } else {
        scaled(max - min - abs_diff(a, b), max - min)
    }
}

/// Similarity of two numbers within the range `min..=max`.
pub fn similarity_number(a: u32, b: u32, max: u32, min: u32) -> (r: u64)
    ensures
        r == number_similarity(a as int, b as int, max as int, min as int),
        r <= SCORE_ONE,
        a == b ==> r == SCORE_ONE,
        min < max && a == min && b == max ==> r == 0,
{
    if max <= min {
        return SCORE_ONE;
    }
    let range: u64 = (max - min) as u64;
    let diff: u64 = if a >= b {
        (a - b) as u64
    } else {
        (b - a) as u64
    };
    if diff >= range {
        0
    } else {
        let part: u64 = range - diff;
        proof {
            lemma_scaled_bounds(part as int, range as int);
            assert(part * SCORE_ONE <= 0xffff_ffff * SCORE_ONE) by (nonlinear_arith)
                requires
                    part <= 0xffff_ffff,
            ;
        }
        part * SCORE_ONE / range
    }
}

/// The smallest of three numbers.
pub open spec fn min3(x: nat, y: nat, z: nat) -> nat {
    if x <= y && x <= z {
        x
    } else if y <= z {
        y
    } else {
        z
    }
}

/// Levenshtein distance between two character sequences: the least number
/// of single-character insertions, deletions and substitutions that turn
/// `a` into `b`.
pub open spec fn edit_distance(a: Seq<char>, b: Seq<char>) -> nat
    decreases a.len() + b.len(),
{
    if a.len() == 0 {
        b.len()
    } else if b.len() == 0 {
        a.len()
    } else {
        let change: nat = if a.last() == b.last() {
            0
        } else {
            1
        };
        min3(
            edit_distance(a.drop_last(), b) + 1,
            edit_distance(a, b.drop_last()) + 1,
            edit_distance(a.drop_last(), b.drop_last()) + change,
        )
    }
}

/// A sequence is at distance zero from itself.
pub proof fn lemma_edit_distance_self(s: Seq<char>)
    ensures
        edit_distance(s, s) == 0,
    decreases s.len(),
{
    if s.len() > 0 {
        lemma_edit_distance_self(s.drop_last());
    }
}

/// Edit distance does not depend on the direction of the edit.
pub proof fn lemma_edit_distance_symmetric(a: Seq<char>, b: Seq<char>)
    ensures
        edit_distance(a, b) == edit_distance(b, a),
    decreases a.len() + b.len(),
{
    if a.len() > 0 && b.len() > 0 {
        lemma_edit_distance_symmetric(a.drop_last(), b);
        lemma_edit_distance_symmetric(a, b.drop_last());
        lemma_edit_distance_symmetric(a.drop_last(), b.drop_last());
    }
}

/// Substituting position by position and then inserting or deleting the
/// rest never takes more edits than the longer sequence has characters.
pub proof fn lemma_edit_distance_bound(a: Seq<char>, b: Seq<char>)
    ensures
        edit_distance(a, b) <= if a.len() >= b.len() {
            a.len()
        } else {
            b.len()
        },
    decreases a.len() + b.len(),
{
    if a.len() > 0 && b.len() > 0 {
        lemma_edit_distance_bound(a.drop_last(), b.drop_last());
    }
}

/// Relies on strsim::levenshtein: the Levenshtein distance of the two
/// strings, counted over `char`s.
#[verifier::external_body]
fn levenshtein_distance(a: &str, b: &str) -> (r: usize)
    ensures
        r == edit_distance(a@, b@),
{
    strsim::levenshtein(a, b)
}

/// Similarity of two texts: `1 - distance / longer length`, with lengths and
/// distance counted in `char`s; two empty texts are identical.
pub open spec fn string_similarity(a: Seq<char>, b: Seq<char>) -> int {
    if a.len() == 0 && b.len() == 0 {
        SCORE_ONE as int
    } else {
        let longest: int = if a.len() >= b.len() {
            a.len() as int
        } else {
            b.len() as int
        };
        scaled(longest - edit_distance(a, b), longest)
    }
}

/// A text is identical to itself.
pub proof fn lemma_string_similarity_self(s: Seq<char>)
    ensures
        string_similarity(s, s) == SCORE_ONE,
{
    lemma_edit_distance_self(s);
    if s.len() > 0 {
        lemma_scaled_bounds(s.len() as int, s.len() as int);
    }
}

/// Similarity of two texts, case-sensitive, by normalised edit distance.
pub fn similarity_string(a: &str, b: &str) -> (r: u64)
    ensures
        r == string_similarity(a@, b@),
        r <= SCORE_ONE,
        a@ == b@ ==> r == SCORE_ONE,
{
    let len_a = a.unicode_len();
    let len_b = b.unicode_len();
    if len_a == 0 && len_b == 0 {
        return SCORE_ONE;
    }
    let longest: usize = if len_a >= len_b {
        len_a
    } else {
        len_b
    };
    let distance = levenshtein_distance(a, b);
    proof {
        lemma_edit_distance_bound(a@, b@);
        lemma_scaled_bounds(longest - distance, longest as int);
        if a@ == b@ {
            lemma_string_similarity_self(a@);
        }
    }
    let part: u128 = (longest - distance) as u128;
    let scale: u128 = SCORE_ONE as u128;
    assert(part * scale <= 0xffff_ffff_ffff_ffff * 1_000_000) by (nonlinear_arith)
        requires
            part <= 0xffff_ffff_ffff_ffff,
            scale == 1_000_000,
    ;
    let r: u128 = part * scale / (longest as u128);
    r as u64
}

/// An item that carries a numeric identifier; set-overlap similarity
/// compares items by this identifier alone.
pub trait HasId {
    /// The identifier, as contracts see it.
    spec fn spec_id(&self) -> u32;

    /// Returns the identifier.
    fn id(&self) -> (r: u32)
        ensures
            r == self.spec_id(),
    ;
}

/// The set of distinct identifiers of a collection of items.
pub open spec fn id_set<T: HasId>(items: Seq<T>) -> Set<u32> {
    items.map_values(|item: T| item.spec_id()).to_set()
}

/// Jaccard index of two identifier sets, `|a ∩ b| / |a ∪ b|`, rounded
/// down but never below the smallest positive score when the sets overlap,
/// so that exactly the disjoint pairs (two empty sets included) score zero.
pub open spec fn set_similarity(a: Set<u32>, b: Set<u32>) -> int {
    if a.intersect(b).len() == 0 {
        0
    } else if scaled(a.intersect(b).len() as int, a.union(b).len() as int) == 0 {
        1
    } else {
        scaled(a.intersect(b).len() as int, a.union(b).len() as int)
    }
}

/// Adds the identifier of each of `items` to `set`.
fn insert_ids<T: HasId>(set: &mut HashSet<u32>, items: &[T])
    ensures
        final(set)@ == old(set)@.union(id_set(items@)),
{
    let ghost f = |item: T| item.spec_id();
    let ghost start = set@;
    let mut i: usize = 0;
    assert(set@ =~= start.union(items@.subrange(0, 0).map_values(f).to_set()));
    while i < items.len()
        invariant
            i <= items@.len(),
            f == (|item: T| item.spec_id()),
            set@ == start.union(items@.subrange(0, i as int).map_values(f).to_set()),
        decreases items@.len() - i,
    {
        let id = items[i].id();
        proof {
            let pre = items@.subrange(0, i as int).map_values(f);
            assert(items@.subrange(0, i + 1).map_values(f) =~= pre.push(id));
            pre.lemma_push_to_set_commute(id);
        }
        set.insert(id);
        assert(set@ =~= start.union(items@.subrange(0, i + 1).map_values(f).to_set()));
        i = i + 1;
    }
    assert(items@.subrange(0, items@.len() as int) =~= items@);
}

/// The identifiers of `items` that `other` holds too.
fn common_ids<T: HasId>(items: &[T], other: &HashSet<u32>) -> (r: HashSet<u32>)
    ensures
        r@ == id_set(items@).intersect(other@),
{
    let ghost f = |item: T| item.spec_id();
    let mut r: HashSet<u32> = HashSet::new();
    let mut i: usize = 0;
    assert(r@ =~= items@.subrange(0, 0).map_values(f).to_set().intersect(other@));
    while i < items.len()
        invariant
            i <= items@.len(),
            f == (|item: T| item.spec_id()),
            r@ == items@.subrange(0, i as int).map_values(f).to_set().intersect(other@),
        decreases items@.len() - i,
    {
        let id = items[i].id();
        proof {
            let pre = items@.subrange(0, i as int).map_values(f);
            assert(items@.subrange(0, i + 1).map_values(f) =~= pre.push(id));
            pre.lemma_push_to_set_commute(id);
        }
        if other.contains(&id) {
            r.insert(id);
        }
        assert(r@ =~= items@.subrange(0, i + 1).map_values(f).to_set().intersect(other@));
        i = i + 1;
    }
    assert(items@.subrange(0, items@.len() as int) =~= items@);
    r
}

/// The identifier set of any collection is finite.
proof fn lemma_id_set_finite<T: HasId>(items: Seq<T>)
    ensures
        id_set(items).finite(),
{
    vstd::seq_lib::seq_to_set_is_finite(items.map_values(|item: T| item.spec_id()));
}

/// Set-overlap similarity of two collections: the Jaccard index of their
/// identifier sets. Two empty collections score zero.
pub fn similarity_id<T: HasId>(a: &[T], b: &[T]) -> (r: u64)
    ensures
        r == set_similarity(id_set(a@), id_set(b@)),
        r <= SCORE_ONE,
        r == 0 <==> id_set(a@).disjoint(id_set(b@)),
        a@.len() == 0 && b@.len() == 0 ==> r == 0,
        a@.len() > 0 && id_set(a@) == id_set(b@) ==> r == SCORE_ONE,
{
    let ghost sa = id_set(a@);
    let ghost sb = id_set(b@);
    let mut ids_b: HashSet<u32> = HashSet::new();
    insert_ids(&mut ids_b, b);
    assert(ids_b@ =~= sb);
    let common = common_ids(a, &ids_b);
    let mut union: HashSet<u32> = HashSet::new();
    insert_ids(&mut union, a);
    insert_ids(&mut union, b);
    assert(union@ =~= sa.union(sb));
    let n_common = common.len();
    let n_union = union.len();
    proof {
        lemma_id_set_finite(a@);
        lemma_id_set_finite(b@);
        vstd::set_lib::lemma_len_subset(sa.intersect(sb), sa.union(sb));
        vstd::set_lib::lemma_set_empty_equivalency_len(sa.intersect(sb));
        if sa.disjoint(sb) {
            assert(sa.intersect(sb) =~= Set::empty());
        } else {
            let x = choose|x: u32| sa.contains(x) && sb.contains(x);
            assert(sa.intersect(sb).contains(x));
        }
        if a@.len() > 0 {
            assert(sa.contains(a@[0].spec_id())) by {
                let f = |item: T| item.spec_id();
                assert(a@.map_values(f)[0] == a@[0].spec_id());
            }
        }
        if a@.len() > 0 && sa == sb {
            assert(sa.intersect(sb) =~= sa);
            assert(sa.union(sb) =~= sa);
            vstd::set_lib::lemma_set_empty_equivalency_len(sa);
        }
        if a@.len() == 0 {
            assert(sa =~= Set::empty());
        }
    }
    if n_common == 0 {
        return 0;
    }
    proof {
        lemma_scaled_bounds(n_common as int, n_union as int);
    }
    let part: u128 = n_common as u128;
    let scale: u128 = SCORE_ONE as u128;
    assert(part * scale <= 0xffff_ffff_ffff_ffff * 1_000_000) by (nonlinear_arith)
        requires
            part <= 0xffff_ffff_ffff_ffff,
            scale == 1_000_000,
    ;
    let q: u128 = part * scale / (n_union as u128);
    if q == 0 {
        1
    } else {
        q as u64
    }
}

/// Numeric similarity does not depend on the order of the two values.
pub proof fn lemma_similarity_number_symmetric(a: int, b: int, max: int, min: int)
    ensures
        number_similarity(a, b, max, min) == number_similarity(b, a, max, min),
{
}

/// Text similarity does not depend on the order of the two texts.
pub proof fn lemma_similarity_string_symmetric(a: Seq<char>, b: Seq<char>)
    ensures
        string_similarity(a, b) == string_similarity(b, a),
{
    lemma_edit_distance_symmetric(a, b);
}

/// Set-overlap similarity does not depend on the order of the two
/// collections.
pub proof fn lemma_similarity_id_symmetric<T: HasId>(a: Seq<T>, b: Seq<T>)
    ensures
        set_similarity(id_set(a), id_set(b)) == set_similarity(id_set(b), id_set(a)),
{
    assert(id_set(a).union(id_set(b)) =~= id_set(b).union(id_set(a)));
    assert(id_set(a).intersect(id_set(b)) =~= id_set(b).intersect(id_set(a)));
}

} // verus!
