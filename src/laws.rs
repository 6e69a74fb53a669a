use vstd::prelude::*;

use crate::data::fits_values;
use crate::query::{
    gather, lemma_all_match, lemma_gather_fits, lemma_matching_bounds, row_matches, Filter,
};
use crate::registry::{has_name, names_distinct, position_of};
use crate::search::{hit_nearer, in_hits, row_of, score, top_hits, Hit};
use crate::store::{Collection, Metric};

verus! {

/// Once a collection is created under a fresh name, `has` finds it; once it
/// is dropped again, `has` no longer does.
pub proof fn lemma_create_then_drop(cs: Seq<Collection>, c: Collection)
    requires
        names_distinct(cs),
        !has_name(cs, c.schema.name@),
    ensures
        has_name(cs.push(c), c.schema.name@),
        names_distinct(cs.push(c)),
        !has_name(cs.push(c).remove(position_of(cs.push(c), c.schema.name@)), c.schema.name@),
{
    let name = c.schema.name@;
    let cs2 = cs.push(c);
    assert(cs2[cs.len() as int] == c);
    assert forall|i: int, j: int|
        0 <= i < cs2.len() && 0 <= j < cs2.len() && i != j implies cs2[i].schema.name@ != cs2[j].schema.name@ by {
        if i < cs.len() && j < cs.len() {
            assert(cs2[i] == cs[i] && cs2[j] == cs[j]);
        } else if i < cs.len() {
            assert(cs2[i] == cs[i]);
        } else if j < cs.len() {
            assert(cs2[j] == cs[j]);
        }
    }
    let p = position_of(cs2, name);
    if p != cs.len() {
        assert(cs2[p] == cs[p]);
    }
    let r = cs2.remove(p);
    assert(r =~= cs);
}

/// After `n` rows are stored, a filter on a field whose every stored value
/// it names picks out all `n` rows, and the column of every field (scalar or
/// vector) gathered at those rows has its field's type and exactly `n` rows.
pub proof fn lemma_query_all_rows(c: Collection, f: int, filter: Filter)
    requires
        c.wf(),
        0 <= f < c.schema.fields@.len(),
        forall|r: int| 0 <= r < c.rows ==> row_matches(c.columns@[f]@, filter.values, r),
    ensures
        c.filter_rows(f, filter).len() == c.rows,
        forall|g: int|
            0 <= g < c.schema.fields@.len() ==> fits_values(
                (#[trigger] c.schema.fields@[g]).kind,
                gather(c.schema.fields@[g].kind, c.columns@[g]@, c.filter_rows(f, filter)),
                c.rows as nat,
            ),
{
    lemma_all_match(c.columns@[f]@, filter.values, c.rows as nat);
    lemma_matching_bounds(c.columns@[f]@, filter.values, c.rows as nat);
    assert forall|g: int| 0 <= g < c.schema.fields@.len() implies fits_values(
        (#[trigger] c.schema.fields@[g]).kind,
        gather(c.schema.fields@[g].kind, c.columns@[g]@, c.filter_rows(f, filter)),
        c.rows as nat,
    ) by {
        assert(crate::data::fits(c.schema.fields@[g].kind, c.columns@[g], c.rows as nat));
        lemma_gather_fits(
            c.schema.fields@[g].kind,
            c.columns@[g]@,
            c.rows as nat,
            c.filter_rows(f, filter),
        );
    }
}

/// Search hits number at most `k`, and under Euclidean distance a hit that
/// comes before another is no farther from the query.
pub proof fn lemma_hits_ordered(s: Seq<int>, k: nat, hits: Seq<Hit>)
    requires
        top_hits(Metric::L2, s, k, hits),
    ensures
        hits.len() <= k,
        forall|i: int, j: int| 0 <= i < j < hits.len() ==> hits[i].score <= hits[j].score,
{
    assert forall|i: int, j: int| 0 <= i < j < hits.len() implies hits[i].score <= hits[j].score by {
        assert(hit_nearer(Metric::L2, s, hits[i].row as int, hits[j].row as int));
    }
}

/// A released collection refuses queries and searches; loading it again
/// with replicas the nodes can hold succeeds and gives back the collection
/// as it was, so every query and search that ran before runs again.
pub proof fn lemma_release_then_load(
    c: Collection,
    filter: Filter,
    outputs: Seq<String>,
    queries: Seq<Vec<i16>>,
    field: Seq<char>,
    k: usize,
    metric: Metric,
    replicas: usize,
    nodes: usize,
)
    requires
        c.wf(),
        c.loaded,
        0 < replicas <= nodes,
    ensures
        !c.released().query_ok(filter, outputs),
        !c.released().search_ok(queries, field, k, metric),
        !c.released().load_fails(replicas, nodes),
        c.released().with_loaded() == c,
        c.released().with_loaded().query_ok(filter, outputs) == c.query_ok(filter, outputs),
        c.released().with_loaded().search_ok(queries, field, k, metric) == c.search_ok(
            queries,
            field,
            k,
            metric,
        ),
{
}

proof fn lemma_score_self(a: Seq<i16>)
    ensures
        score(Metric::L2, a, a) == 0,
    decreases a.len(),
{
    if a.len() > 0 {
        lemma_score_self(a.drop_last());
    }
}

proof fn lemma_score_nonneg(a: Seq<i16>, b: Seq<i16>)
    ensures
        score(Metric::L2, a, b) >= 0,
    decreases a.len(),
{
    if a.len() > 0 && b.len() > 0 {
        lemma_score_nonneg(a.drop_last(), b.drop_last());
        let d = a.last() - b.last();
        assert(d * d >= 0) by (nonlinear_arith);
    }
}

/// Searching a vector field by Euclidean distance with one of its stored
/// vectors as the query puts a row at distance zero first: that row, or an
/// equal vector stored before it.
pub proof fn lemma_exact_match_first(c: Collection, f: int, x: int, k: nat, hits: Seq<Hit>)
    requires
        c.wf(),
        0 <= f < c.schema.fields@.len(),
        c.schema.fields@[f].kind is Vector,
        0 <= x < c.rows,
        k > 0,
        c.columns@[f]@ is Vector,
        top_hits(
            Metric::L2,
            c.field_scores(
                f,
                Metric::L2,
                row_of(c.columns@[f]@->Vector_0, c.schema.fields@[f].kind->dim as nat, x),
            ),
            k,
            hits,
        ),
    ensures
        hits.len() > 0,
        hits[0].score == 0,
        hits[0].row <= x,
{
    let data = c.columns@[f]@->Vector_0;
    let dim = c.schema.fields@[f].kind->dim as nat;
    let q = row_of(data, dim, x);
    let s = c.field_scores(f, Metric::L2, q);
    assert(s.len() == c.rows);
    lemma_score_self(q);
    assert(s[x] == 0);
    assert forall|y: int| 0 <= y < s.len() implies s[y] >= 0 by {
        lemma_score_nonneg(row_of(data, dim, y), q);
    }
    assert(in_hits(hits, x) || (hits.len() == k && hit_nearer(Metric::L2, s, hits.last().row as int, x)));
    if in_hits(hits, x) {
        let i = choose|i: int| 0 <= i < hits.len() && (#[trigger] hits[i]).row == x;
        if i > 0 {
            assert(hit_nearer(Metric::L2, s, hits[0].row as int, hits[i].row as int));
        }
    } else {
        assert(hit_nearer(Metric::L2, s, hits.last().row as int, x));
        let l = hits.len() - 1;
        if l > 0 {
            assert(hit_nearer(Metric::L2, s, hits[0].row as int, hits[l].row as int));
        }
    }
    assert(hits[0].score == s[hits[0].row as int]);
    assert(s[hits[0].row as int] >= 0);
}

} // verus!
