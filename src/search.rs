use vstd::prelude::*;

use crate::schema::MAX_DIM;
use crate::store::Metric;

verus! {

/// One search result: the row it names and that row's score against the query.
#[derive(Clone, Copy, Debug, PartialEq, Eq, Structural)]
pub struct Hit {
    pub row: usize,
    pub score: i64,
}

/// The contribution of one component pair to a score.
pub open spec fn term(metric: Metric, x: i16, y: i16) -> int {
    match metric {
        Metric::L2 => (x - y) * (x - y),
        Metric::IP => x * y,
    }
}

/// Squared Euclidean distance, or inner product, of two vectors.
pub open spec fn score(metric: Metric, a: Seq<i16>, b: Seq<i16>) -> int
    decreases a.len(),
{
    if a.len() == 0 || b.len() == 0 {
        0
    } else {
        score(metric, a.drop_last(), b.drop_last()) + term(metric, a.last(), b.last())
    }
}

/// Row `r` of a flattened vector column of dimension `dim`.
pub open spec fn row_of(data: Seq<i16>, dim: nat, r: int) -> Seq<i16> {
    data.subrange(r * dim, (r + 1) * dim)
}

/// The scores of every row of the column against `q`.
pub open spec fn scores(metric: Metric, data: Seq<i16>, dim: nat, rows: nat, q: Seq<i16>) -> Seq<int> {
    Seq::new(rows, |r: int| score(metric, row_of(data, dim, r), q))
}

/// Ranks before: a smaller distance, or a larger inner product; ties go
/// to the earlier row.
pub open spec fn nearer(metric: Metric, s1: int, r1: int, s2: int, r2: int) -> bool {
    match metric {
        Metric::L2 => s1 < s2 || (s1 == s2 && r1 < r2),
        Metric::IP => s1 > s2 || (s1 == s2 && r1 < r2),
    }
}

pub open spec fn hit_nearer(metric: Metric, s: Seq<int>, a: int, b: int) -> bool {
    nearer(metric, s[a], a, s[b], b)
}

/// Row `y` ranks after every hit so far.
pub open spec fn after(metric: Metric, s: Seq<int>, hits: Seq<Hit>, y: int) -> bool {
    hits.len() == 0 || hit_nearer(metric, s, hits.last().row as int, y)
}

pub open spec fn in_hits(hits: Seq<Hit>, x: int) -> bool {
    exists|i: int| 0 <= i < hits.len() && (#[trigger] hits[i]).row == x
}

/// `hits` are the `k` best rows by `s`, best first: each names a row and its
/// score, they come in strictly increasing rank, and every row left out
/// ranks after the last of `k` hits.
pub open spec fn top_hits(metric: Metric, s: Seq<int>, k: nat, hits: Seq<Hit>) -> bool {
    &&& hits.len() <= k
    &&& forall|i: int|
        0 <= i < hits.len() ==> (#[trigger] hits[i]).row < s.len() && hits[i].score == s[hits[i].row as int]
    &&& forall|i: int, j: int|
        0 <= i < j < hits.len() ==> hit_nearer(metric, s, hits[i].row as int, hits[j].row as int)
    &&& forall|x: int|
        0 <= x < s.len() ==> in_hits(hits, x) || (hits.len() == k && hit_nearer(
            metric,
            s,
            hits.last().row as int,
            x,
        ))
}

proof fn lemma_term_bound(metric: Metric, x: i16, y: i16)
    ensures
        -0x1_0000_0000 <= term(metric, x, y) <= 0x1_0000_0000,
{
    let d = x - y;
    assert(-65535 <= d <= 65535);
    match metric {
        Metric::L2 => {
            assert(0 <= d * d <= 65535 * 65535) by (nonlinear_arith)
                requires
                    -65535 <= d <= 65535,
            ;
        },
        Metric::IP => {
            assert(-0x4000_0000 <= x * y <= 0x4000_0000) by (nonlinear_arith)
                requires
                    -32768 <= x <= 32767,
                    -32768 <= y <= 32767,
            ;
        },
    }
}

/// The score of two vectors of equal length `dim`.
pub fn score_of(metric: Metric, a: &[i16], b: &[i16]) -> (r: i64)
    requires
        a@.len() == b@.len(),
        a@.len() <= MAX_DIM,
    ensures
        r == score(metric, a@, b@),
{
    let n = a.len();
    let mut acc: i64 = 0;
    let mut j: usize = 0;
    while j < n
        invariant
            n == a@.len(),
            n == b@.len(),
            n <= MAX_DIM,
            0 <= j <= n,
            acc == score(metric, a@.subrange(0, j as int), b@.subrange(0, j as int)),
            -(j * 0x1_0000_0000) <= acc <= j * 0x1_0000_0000,
        decreases n - j,
    {
        let x = a[j];
        let y = b[j];
        proof {
            lemma_term_bound(metric, x, y);
            let sa = a@.subrange(0, j + 1);
            let sb = b@.subrange(0, j + 1);
            assert(sa.drop_last() =~= a@.subrange(0, j as int));
            assert(sb.drop_last() =~= b@.subrange(0, j as int));
            assert(score(metric, sa, sb) == acc + term(metric, x, y));
        }
        let t: i64 = match metric {
            Metric::L2 => {
                let d: i64 = (x as i64) - (y as i64);
                proof {
                    assert(0 <= d * d <= 65535 * 65535) by (nonlinear_arith)
                        requires
                            -65535 <= d <= 65535,
                    ;
                }
                d * d
            },
            Metric::IP => {
                proof {
                    assert(-0x4000_0000 <= (x as i64) * (y as i64) <= 0x4000_0000) by (nonlinear_arith)
                        requires
                            -32768 <= x <= 32767,
                            -32768 <= y <= 32767,
                    ;
                }
                (x as i64) * (y as i64)
            },
        };
        acc = acc + t;
        j = j + 1;
    }
    assert(a@.subrange(0, n as int) =~= a@);
    assert(b@.subrange(0, n as int) =~= b@);
    acc
}

fn nearer_exec(metric: Metric, s1: i64, r1: usize, s2: i64, r2: usize) -> (r: bool)
    ensures
        r == nearer(metric, s1 as int, r1 as int, s2 as int, r2 as int),
{
    match metric {
        Metric::L2 => s1 < s2 || (s1 == s2 && r1 < r2),
        Metric::IP => s1 > s2 || (s1 == s2 && r1 < r2),
    }
}

/// The `k` best rows of a flattened vector column against the query `q`,
/// best first.
pub fn top_k(metric: Metric, data: &Vec<i16>, dim: usize, rows: usize, q: &Vec<i16>, k: usize) -> (r:
    Vec<Hit>)
    requires
        0 < k,
        0 < dim <= MAX_DIM,
        data@.len() == rows * dim,
        q@.len() == dim,
    ensures
        top_hits(metric, scores(metric, data@, dim as nat, rows as nat, q@), k as nat, r@),
{
    let ghost sc = scores(metric, data@, dim as nat, rows as nat, q@);
    let mut s: Vec<i64> = Vec::new();
    let dl = data.len();
    let mut r: usize = 0;
    while r < rows
        invariant
            dl == data@.len(),
            0 < dim <= MAX_DIM,
            data@.len() == rows * dim,
            q@.len() == dim,
            sc == scores(metric, data@, dim as nat, rows as nat, q@),
            0 <= r <= rows,
            s@.len() == r,
            forall|a: int| 0 <= a < r ==> s@[a] == sc[a],
        decreases rows - r,
    {
        proof {
            assert((r + 1) * dim <= rows * dim) by (nonlinear_arith)
                requires
                    r < rows,
            ;
            assert((r + 1) * dim == r * dim + dim) by (nonlinear_arith);
        }
        let start = r * dim;
        let row = vstd::slice::slice_subrange(data.as_slice(), start, start + dim);
        assert(row@ == row_of(data@, dim as nat, r as int));
        let v = score_of(metric, row, q.as_slice());
        s.push(v);
        r = r + 1;
    }
    let mut out: Vec<Hit> = Vec::new();
    while out.len() < k
        invariant
            sc == scores(metric, data@, dim as nat, rows as nat, q@),
            0 < k,
            s@.len() == rows,
            sc.len() == rows,
            forall|a: int| 0 <= a < rows ==> s@[a] == sc[a],
            out@.len() <= k,
            forall|i: int|
                0 <= i < out@.len() ==> (#[trigger] out@[i]).row < rows && out@[i].score == sc[out@[i].row as int],
            forall|i: int, j: int|
                0 <= i < j < out@.len() ==> hit_nearer(metric, sc, out@[i].row as int, out@[j].row as int),
            out@.len() > 0 ==> forall|x: int|
                0 <= x < rows && !hit_nearer(metric, sc, out@.last().row as int, x) ==> in_hits(out@, x),
        decreases k - out@.len(),
    {
        let empty = out.len() == 0;
        let mut best: Option<usize> = None;
        let mut x: usize = 0;
        while x < rows
            invariant
                s@.len() == rows,
                sc.len() == rows,
                forall|a: int| 0 <= a < rows ==> s@[a] == sc[a],
                empty == (out@.len() == 0),
                out@.len() > 0 ==> out@.last().row < rows,
                0 <= x <= rows,
                match best {
                    Some(b) => b < x && after(metric, sc, out@, b as int)
                        && forall|y: int|
                        0 <= y < x && #[trigger] after(metric, sc, out@, y) ==> !hit_nearer(
                            metric,
                            sc,
                            y,
                            b as int,
                        ),
                    None => forall|y: int|
                        0 <= y < x ==> !#[trigger] after(metric, sc, out@, y),
                },
            decreases rows - x,
        {
            let later = empty || {
                let last = out[out.len() - 1];
                nearer_exec(metric, s[last.row], last.row, s[x], x)
            };
            if later {
                let better = match best {
                    None => true,
                    Some(b) => nearer_exec(metric, s[x], x, s[b], b),
                };
                if better {
                    proof {
                        assert forall|y: int|
                            0 <= y < x + 1 && after(metric, sc, out@, y)
                                implies !hit_nearer(metric, sc, y, x as int) by {
                            if let Some(b) = best {
                                assert(hit_nearer(metric, sc, x as int, b as int));
                                if y < x {
                                    assert(!hit_nearer(metric, sc, y, b as int));
                                }
                            } else {
                                if y < x {
                                    assert(!after(metric, sc, out@, y));
                                }
                            }
                        }
                    }
                    best = Some(x);
                }
            }
            x = x + 1;
        }
        match best {
            None => {
                proof {
                    assert forall|y: int| 0 <= y < rows implies in_hits(out@, y) by {
                        assert(!after(metric, sc, out@, y));
                    }
                }
                return out;
            },
            Some(b) => {
                let ghost prev = out@;
                out.push(Hit { row: b, score: s[b] });
                proof {
                    assert(out@.last() == Hit { row: b, score: s@[b as int] });
                    assert forall|i: int| 0 <= i < prev.len() implies (#[trigger] out@[i]) == prev[i] by {}
                    assert forall|y: int|
                        0 <= y < rows && !hit_nearer(metric, sc, b as int, y) implies in_hits(out@, y) by {
                        if y == b {
                            assert(out@[prev.len() as int].row == y);
                        } else if !empty && !hit_nearer(metric, sc, prev.last().row as int, y) {
                            assert(in_hits(prev, y));
                            let i = choose|i: int| 0 <= i < prev.len() && (#[trigger] prev[i]).row == y;
                            assert(out@[i].row == y);
                        } else {
                            assert(after(metric, sc, prev, y));
                            assert(!hit_nearer(metric, sc, y, b as int));
                        }
                    }
                    assert forall|i: int, j: int| 0 <= i < j < out@.len() implies hit_nearer(
                        metric,
                        sc,
                        out@[i].row as int,
                        out@[j].row as int,
                    ) by {
                        if j == prev.len() {
                            assert(after(metric, sc, prev, b as int));
                            if i < prev.len() - 1 {
                                assert(hit_nearer(metric, sc, prev[i].row as int, prev.last().row as int));
                            }
                        }
                    }
                }
            },
        }
    }
    out
}

} // verus!
