use vstd::prelude::*;

use crate::data::{extend_copy, fits, fits_values, strings_view, ColumnData, ColumnValues, FieldColumn};
use crate::schema::FieldKind;
use crate::search::{row_of, scores, top_hits, top_k, Hit};
use crate::store::{Collection, Metric, StoreError};

verus! {

/// The values a membership predicate tests against.
#[derive(Debug)]
pub enum FilterValues {
    Int64(Vec<i64>),
    VarChar(Vec<String>),
}

/// The predicate `field in [values]` over a scalar field.
#[derive(Debug)]
pub struct Filter {
    pub field: String,
    pub values: FilterValues,
}

/// Row `r` of the column is one of the values.
pub open spec fn row_matches(c: ColumnValues, vals: FilterValues, r: int) -> bool {
    match (c, vals) {
        (ColumnValues::Int64(v), FilterValues::Int64(w)) => w@.contains(v[r]),
        (ColumnValues::VarChar(v), FilterValues::VarChar(w)) => strings_view(w@).contains(v[r]),
        _ => false,
    }
}

/// The rows among the first `n` whose value is one of the values, in row order.
pub open spec fn matching(c: ColumnValues, vals: FilterValues, n: nat) -> Seq<int>
    decreases n,
{
    if n == 0 {
        Seq::empty()
    } else if row_matches(c, vals, n - 1) {
        matching(c, vals, (n - 1) as nat).push(n - 1)
    } else {
        matching(c, vals, (n - 1) as nat)
    }
}

/// The vectors of dimension `dim` at the given rows, one after the other.
pub open spec fn gather_rows(v: Seq<i16>, dim: nat, rows: Seq<int>) -> Seq<i16>
    decreases rows.len(),
{
    if rows.len() == 0 {
        Seq::empty()
    } else {
        gather_rows(v, dim, rows.drop_last()) + row_of(v, dim, rows.last())
    }
}

/// The values of a column of type `kind` at the given rows, in the order given.
pub open spec fn gather(kind: FieldKind, c: ColumnValues, rows: Seq<int>) -> ColumnValues {
    match c {
        ColumnValues::Int64(v) => ColumnValues::Int64(rows.map_values(|r: int| v[r])),
        ColumnValues::VarChar(v) => ColumnValues::VarChar(rows.map_values(|r: int| v[r])),
        ColumnValues::Vector(v) => ColumnValues::Vector(gather_rows(v, kind->dim as nat, rows)),
    }
}

/// The values gathered at rows that exist make a column of the same type
/// with one row per row asked for.
pub proof fn lemma_gather_fits(kind: FieldKind, c: ColumnValues, n: nat, rows: Seq<int>)
    requires
        fits_values(kind, c, n),
        forall|i: int| 0 <= i < rows.len() ==> 0 <= #[trigger] rows[i] < n,
    ensures
        fits_values(kind, gather(kind, c, rows), rows.len()),
    decreases rows.len(),
{
    match c {
        ColumnValues::VarChar(v) => {
            let g = rows.map_values(|r: int| v[r]);
            assert forall|i: int| 0 <= i < g.len() implies (#[trigger] g[i]).len() <= kind->max_length by {
                assert(0 <= rows[i] < n);
            }
        },
        ColumnValues::Vector(v) => {
            if rows.len() > 0 {
                let d = kind->dim as nat;
                lemma_gather_fits(kind, c, n, rows.drop_last());
                let r = rows.last();
                assert(0 <= r < n);
                assert((r + 1) * d <= n * d) by (nonlinear_arith)
                    requires
                        r < n,
                ;
                assert(0 <= r * d) by (nonlinear_arith)
                    requires
                        0 <= r,
                ;
                assert((r + 1) * d == r * d + d) by (nonlinear_arith);
                assert(((rows.len() - 1) * d + d) == rows.len() * d) by (nonlinear_arith);
            }
        },
        _ => {},
    }
}

/// The filter's values have the type of the scalar field at `f`.
pub open spec fn filter_fits(kind: FieldKind, vals: FilterValues) -> bool {
    match (kind, vals) {
        (FieldKind::Int64, FilterValues::Int64(_)) => true,
        (FieldKind::VarChar { .. }, FilterValues::VarChar(_)) => true,
        _ => false,
    }
}

/// Where every row's value is among the filter values, every row matches.
pub proof fn lemma_all_match(c: ColumnValues, vals: FilterValues, n: nat)
    requires
        forall|r: int| 0 <= r < n ==> row_matches(c, vals, r),
    ensures
        matching(c, vals, n).len() == n,
    decreases n,
{
    if n > 0 {
        lemma_all_match(c, vals, (n - 1) as nat);
    }
}

/// Every row the filter picks out exists.
pub proof fn lemma_matching_bounds(c: ColumnValues, vals: FilterValues, n: nat)
    ensures
        forall|i: int|
            0 <= i < matching(c, vals, n).len() ==> 0 <= #[trigger] matching(c, vals, n)[i] < n,
    decreases n,
{
    if n > 0 {
        lemma_matching_bounds(c, vals, (n - 1) as nat);
        let prev = matching(c, vals, (n - 1) as nat);
        assert forall|i: int|
            0 <= i < matching(c, vals, n).len() implies 0 <= #[trigger] matching(c, vals, n)[i] < n by {
            if i < prev.len() {
                assert(0 <= prev[i] < n - 1);
            }
        }
    }
}

fn contains_i64(w: &Vec<i64>, x: i64) -> (r: bool)
    ensures
        r == w@.contains(x),
{
    let mut i: usize = 0;
    while i < w.len()
        invariant
            0 <= i <= w@.len(),
            forall|a: int| 0 <= a < i ==> w@[a] != x,
        decreases w@.len() - i,
    {
        if w[i] == x {
            assert(w@[i as int] == x);
            return true;
        }
        i = i + 1;
    }
    false
}

fn contains_string(w: &Vec<String>, x: &String) -> (r: bool)
    ensures
        r == strings_view(w@).contains(x@),
{
    let mut i: usize = 0;
    while i < w.len()
        invariant
            0 <= i <= w@.len(),
            forall|a: int| 0 <= a < i ==> strings_view(w@)[a] != x@,
        decreases w@.len() - i,
    {
        if w[i] == *x {
            assert(strings_view(w@)[i as int] == x@);
            return true;
        }
        i = i + 1;
    }
    false
}

/// The rows of a scalar column that match the filter values.
fn matching_rows(c: &ColumnData, vals: &FilterValues, n: usize) -> (r: Vec<usize>)
    requires
        match c@ {
            ColumnValues::Int64(v) => v.len() == n,
            ColumnValues::VarChar(v) => v.len() == n,
            ColumnValues::Vector(_) => false,
        },
    ensures
        r@.len() == matching(c@, *vals, n as nat).len(),
        forall|i: int| 0 <= i < r@.len() ==> r@[i] as int == matching(c@, *vals, n as nat)[i],
{
    let mut out: Vec<usize> = Vec::new();
    let mut k: usize = 0;
    while k < n
        invariant
            match c@ {
                ColumnValues::Int64(v) => v.len() == n,
                ColumnValues::VarChar(v) => v.len() == n,
                ColumnValues::Vector(_) => false,
            },
            0 <= k <= n,
            out@.len() == matching(c@, *vals, k as nat).len(),
            forall|i: int| 0 <= i < out@.len() ==> out@[i] as int == matching(c@, *vals, k as nat)[i],
        decreases n - k,
    {
        let hit = match (c, vals) {
            (ColumnData::Int64(v), FilterValues::Int64(w)) => contains_i64(w, v[k]),
            (ColumnData::VarChar(v), FilterValues::VarChar(w)) => {
                assert(strings_view(v@)[k as int] == v@[k as int]@);
                contains_string(w, &v[k])
            },
            _ => false,
        };
        assert(hit == row_matches(c@, *vals, k as int));
        if hit {
            out.push(k);
        }
        k = k + 1;
    }
    out
}

/// The values of a column of type `kind` at the given rows.
fn gather_column(kind: FieldKind, c: &ColumnData, rows: &Vec<usize>, n: usize) -> (r: ColumnData)
    requires
        kind.dim_ok(),
        fits(kind, *c, n as nat),
        forall|i: int| 0 <= i < rows@.len() ==> rows@[i] < n,
    ensures
        r@ == gather(kind, c@, rows@.map_values(|x: usize| x as int)),
{
    let ghost idx = rows@.map_values(|x: usize| x as int);
    match c {
        ColumnData::Int64(v) => {
            let mut out: Vec<i64> = Vec::new();
            let mut i: usize = 0;
            while i < rows.len()
                invariant
                    v@.len() == n,
                    idx == rows@.map_values(|x: usize| x as int),
                    forall|a: int| 0 <= a < rows@.len() ==> rows@[a] < n,
                    0 <= i <= rows@.len(),
                    out@ == idx.subrange(0, i as int).map_values(|r: int| v@[r]),
                decreases rows@.len() - i,
            {
                out.push(v[rows[i]]);
                i = i + 1;
                assert(out@ =~= idx.subrange(0, i as int).map_values(|r: int| v@[r]));
            }
            assert(idx.subrange(0, i as int) =~= idx);
            ColumnData::Int64(out)
        },
        ColumnData::VarChar(v) => {
            let mut out: Vec<String> = Vec::new();
            let mut i: usize = 0;
            while i < rows.len()
                invariant
                    v@.len() == n,
                    idx == rows@.map_values(|x: usize| x as int),
                    forall|a: int| 0 <= a < rows@.len() ==> rows@[a] < n,
                    0 <= i <= rows@.len(),
                    out@.len() == i,
                    strings_view(out@) == idx.subrange(0, i as int).map_values(
                        |r: int| strings_view(v@)[r],
                    ),
                decreases rows@.len() - i,
            {
                let ghost before = out@;
                let ri = rows[i];
                let item = v[ri].clone();
                assert(item@ == strings_view(v@)[ri as int]);
                assert(idx[i as int] == ri as int);
                out.push(item);
                i = i + 1;
                assert(out@ == before.push(item));
                assert(strings_view(out@) =~= strings_view(before).push(item@));
                assert(idx.subrange(0, i as int) =~= idx.subrange(0, i - 1).push(ri as int));
                assert(strings_view(out@) =~= idx.subrange(0, i as int).map_values(
                    |r: int| strings_view(v@)[r],
                ));
            }
            assert(idx.subrange(0, i as int) =~= idx);
            ColumnData::VarChar(out)
        },
        ColumnData::Vector(v) => {
            let dim: usize = match kind {
                FieldKind::Vector { dim } => dim,
                _ => 1,
            };
            let vl = v.len();
            let mut out: Vec<i16> = Vec::new();
            let mut i: usize = 0;
            while i < rows.len()
                invariant
                    kind == (FieldKind::Vector { dim }),
                    0 < dim,
                    vl == v@.len(),
                    v@.len() == n * dim,
                    idx == rows@.map_values(|x: usize| x as int),
                    forall|a: int| 0 <= a < rows@.len() ==> rows@[a] < n,
                    0 <= i <= rows@.len(),
                    out@ == gather_rows(v@, dim as nat, idx.subrange(0, i as int)),
                decreases rows@.len() - i,
            {
                let r = rows[i];
                proof {
                    assert((r + 1) * dim <= n * dim) by (nonlinear_arith)
                        requires
                            r < n,
                    ;
                    assert((r + 1) * dim == r * dim + dim) by (nonlinear_arith);
                }
                let start = r * dim;
                let row = vstd::slice::slice_subrange(v.as_slice(), start, start + dim);
                assert(row@ == row_of(v@, dim as nat, r as int));
                extend_copy(&mut out, row);
                i = i + 1;
                assert(idx.subrange(0, i as int).drop_last() =~= idx.subrange(0, i - 1));
            }
            assert(idx.subrange(0, i as int) =~= idx);
            ColumnData::Vector(out)
        },
    }
}

impl Collection {
    /// The rows the filter's field picks out, by row position.
    pub open spec fn filter_rows(&self, f: int, filter: Filter) -> Seq<int> {
        matching(self.columns@[f]@, filter.values, self.rows as nat)
    }

    /// The filter names a scalar field and values of its type.
    pub open spec fn filter_ok(&self, filter: Filter) -> bool {
        exists|f: int|
            0 <= f < self.schema.fields@.len() && (#[trigger] self.schema.fields@[f]).name@
                == filter.field@ && filter_fits(self.schema.fields@[f].kind, filter.values)
    }

    /// Every output field exists.
    pub open spec fn outputs_ok(&self, outputs: Seq<String>) -> bool {
        forall|o: int|
            0 <= o < outputs.len() ==> exists|g: int|
                0 <= g < self.schema.fields@.len() && (#[trigger] self.schema.fields@[g]).name@ == (
                #[trigger] outputs[o])@
    }

    /// A query on the filter and the output fields can run.
    pub open spec fn query_ok(&self, filter: Filter, outputs: Seq<String>) -> bool {
        self.loaded && self.filter_ok(filter) && self.outputs_ok(outputs)
    }

    /// `cols` holds, for each output field in the order asked, that field's
    /// values at the rows the filter picks out, in row order.
    pub open spec fn query_result(&self, filter: Filter, outputs: Seq<String>, cols: Seq<FieldColumn>) -> bool {
        &&& cols.len() == outputs.len()
        &&& forall|f: int|
            0 <= f < self.schema.fields@.len() && (#[trigger] self.schema.fields@[f]).name@
                == filter.field@ ==> forall|o: int|
                0 <= o < outputs.len() ==> (#[trigger] cols[o]).name@ == outputs[o]@ && forall|g: int|
                    0 <= g < self.schema.fields@.len() && self.schema.fields@[g].name@ == outputs[o]@
                        ==> cols[o].data@ == gather(
                            self.schema.fields@[g].kind,
                            self.columns@[g]@, self.filter_rows(f, filter))
    }

    /// The field `name`, if it exists; otherwise the error.
    fn output_field(&self, name: &String) -> (r: Result<usize, StoreError>)
        requires
            self.wf(),
        ensures
            r matches Ok(g) ==> g < self.schema.fields@.len() && self.schema.fields@[g as int].name@
                == name@,
            r is Err ==> !exists|g: int|
                0 <= g < self.schema.fields@.len() && (#[trigger] self.schema.fields@[g]).name@
                    == name@,
            r matches Err(e) ==> e is UnknownField,
    {
        match self.schema.field_index(name) {
            None => Err(StoreError::UnknownField { field: name.clone() }),
            Some(g) => {
                Ok(g)
            },
        }
    }

    /// The primary key's name followed by the output fields asked for.
    pub open spec fn with_key(&self, outputs: Seq<String>) -> Seq<String> {
        seq![self.schema.fields@[crate::schema::primary_pos(self.schema.fields@)].name].add(outputs)
    }

    /// The rows matching `filter`: the primary key's column, then one column
    /// per output field in the order asked, each holding the matching rows in
    /// row order.
    pub fn query(&self, filter: &Filter, outputs: &Vec<String>) -> (r: Result<
        Vec<FieldColumn>,
        StoreError,
    >)
        requires
            self.wf(),
        ensures
            r is Ok <==> self.query_ok(*filter, outputs@),
            self.loaded && !self.filter_ok(*filter) ==> (r matches Err(e) && e is InvalidExpression),
            self.loaded && self.filter_ok(*filter) && !self.outputs_ok(outputs@) ==> (r matches Err(e)
                && e is UnknownField),
            !self.loaded ==> (r matches Err(e) && e is NotLoaded),
            r matches Ok(cols) ==> self.query_result(*filter, self.with_key(outputs@), cols@),
    {
        let p = self.schema.primary_index();
        let mut all: Vec<String> = Vec::new();
        all.push(self.schema.fields[p].name.clone());
        let mut i: usize = 0;
        while i < outputs.len()
            invariant
                0 <= i <= outputs@.len(),
                all@ == seq![self.schema.fields@[p as int].name].add(outputs@.subrange(0, i as int)),
            decreases outputs@.len() - i,
        {
            all.push(outputs[i].clone());
            i = i + 1;
            assert(all@ =~= seq![self.schema.fields@[p as int].name].add(outputs@.subrange(0, i as int)));
        }
        assert(outputs@.subrange(0, i as int) =~= outputs@);
        proof {
            let key = self.schema.fields@[p as int];
            assert forall|o: int| 0 <= o < all@.len() && o > 0 implies all@[o] == outputs@[o - 1] by {}
            assert(all@[0] == key.name);
            if self.query_ok(*filter, outputs@) {
                assert forall|o: int| 0 <= o < all@.len() implies exists|g: int|
                    0 <= g < self.schema.fields@.len() && (#[trigger] self.schema.fields@[g]).name@
                        == (#[trigger] all@[o])@ by {
                    if o == 0 {
                        assert(self.schema.fields@[p as int].name@ == all@[0]@);
                    } else {
                        assert(all@[o] == outputs@[o - 1]);
                    }
                }
            }
            if self.query_ok(*filter, all@) {
                assert forall|o: int| 0 <= o < outputs@.len() implies exists|g: int|
                    0 <= g < self.schema.fields@.len() && (#[trigger] self.schema.fields@[g]).name@
                        == (#[trigger] outputs@[o])@ by {
                    assert(all@[o + 1] == outputs@[o]);
                }
            }
        }
        self.query_fields(filter, &all)
    }

    /// The rows matching `filter`, one column per name in `outputs`.
    fn query_fields(&self, filter: &Filter, outputs: &Vec<String>) -> (r: Result<
        Vec<FieldColumn>,
        StoreError,
    >)
        requires
            self.wf(),
        ensures
            r is Ok <==> self.query_ok(*filter, outputs@),
            self.loaded && !self.filter_ok(*filter) ==> (r matches Err(e) && e is InvalidExpression),
            self.loaded && self.filter_ok(*filter) && !self.outputs_ok(outputs@) ==> (r matches Err(e)
                && e is UnknownField),
            !self.loaded ==> (r matches Err(e) && e is NotLoaded),
            r matches Ok(cols) ==> self.query_result(*filter, outputs@, cols@),
    {
        if !self.loaded {
            return Err(StoreError::NotLoaded { collection: self.schema.name.clone() });
        }
        let f = match self.schema.field_index(&filter.field) {
            None => {
                return Err(StoreError::InvalidExpression { field: filter.field.clone() });
            },
            Some(f) => f,
        };
        let fits = match (self.schema.fields[f].kind, &filter.values) {
            (FieldKind::Int64, FilterValues::Int64(_)) => true,
            (FieldKind::VarChar { .. }, FilterValues::VarChar(_)) => true,
            _ => false,
        };
        proof {
            assert forall|f2: int|
                0 <= f2 < self.schema.fields@.len() && (#[trigger] self.schema.fields@[f2]).name@
                    == filter.field@ implies f2 == f by {
                if f2 < f {
                    assert(self.schema.fields@[f2].name@ != self.schema.fields@[f as int].name@);
                } else if f < f2 {
                    assert(self.schema.fields@[f as int].name@ != self.schema.fields@[f2].name@);
                }
            }
        }
        if !fits {
            return Err(StoreError::InvalidExpression { field: filter.field.clone() });
        }
        assert(crate::data::fits(self.schema.fields@[f as int].kind, self.columns@[f as int], self.rows as nat));
        let rows = matching_rows(&self.columns[f], &filter.values, self.rows);
        proof {
            lemma_matching_bounds(self.columns@[f as int]@, filter.values, self.rows as nat);
            assert(rows@.map_values(|x: usize| x as int) =~= self.filter_rows(f as int, *filter));
        }
        let mut out: Vec<FieldColumn> = Vec::new();
        let mut o: usize = 0;
        while o < outputs.len()
            invariant
                self.wf(),
                self.loaded,
                f < self.schema.fields@.len(),
                forall|f2: int|
                    0 <= f2 < self.schema.fields@.len() && (#[trigger] self.schema.fields@[f2]).name@
                        == filter.field@ ==> f2 == f,
                self.schema.fields@[f as int].name@ == filter.field@,
                filter_fits(self.schema.fields@[f as int].kind, filter.values),
                rows@.map_values(|x: usize| x as int) == self.filter_rows(f as int, *filter),
                forall|i: int| 0 <= i < rows@.len() ==> rows@[i] < self.rows,
                0 <= o <= outputs@.len(),
                out@.len() == o,
                forall|p: int|
                    0 <= p < o ==> exists|g: int|
                        0 <= g < self.schema.fields@.len() && (#[trigger] self.schema.fields@[g]).name@
                            == (#[trigger] outputs@[p])@,
                forall|p: int|
                    0 <= p < o ==> (#[trigger] out@[p]).name@ == outputs@[p]@ && forall|g: int|
                        0 <= g < self.schema.fields@.len() && self.schema.fields@[g].name@
                            == outputs@[p]@ ==> out@[p].data@ == gather(
                            self.schema.fields@[g].kind,
                            self.columns@[g]@,
                            self.filter_rows(f as int, *filter),
                        ),
            decreases outputs@.len() - o,
        {
            let g = match self.output_field(&outputs[o]) {
                Ok(g) => g,
                Err(e) => {
                    return Err(e);
                },
            };
            proof {
                assert forall|g2: int|
                    0 <= g2 < self.schema.fields@.len() && (#[trigger] self.schema.fields@[g2]).name@
                        == outputs@[o as int]@ implies g2 == g by {
                    if g2 < g {
                        assert(self.schema.fields@[g2].name@ != self.schema.fields@[g as int].name@);
                    } else if g < g2 {
                        assert(self.schema.fields@[g as int].name@ != self.schema.fields@[g2].name@);
                    }
                }
                assert(crate::data::fits(self.schema.fields@[g as int].kind, self.columns@[g as int], self.rows as nat));
            }
            let data = gather_column(self.schema.fields[g].kind, &self.columns[g], &rows, self.rows);
            out.push(FieldColumn { name: outputs[o].clone(), data });
            o = o + 1;
        }
        Ok(out)
    }

    /// The scores of the rows of vector field `f` against `q`.
    pub open spec fn field_scores(&self, f: int, metric: Metric, q: Seq<i16>) -> Seq<int> {
        match (self.schema.fields@[f].kind, self.columns@[f]@) {
            (FieldKind::Vector { dim }, ColumnValues::Vector(data)) => scores(
                metric,
                data,
                dim as nat,
                self.rows as nat,
                q,
            ),
            _ => Seq::empty(),
        }
    }

    /// Field `f` is a vector field whose index ranks by `metric`, and every
    /// query has its dimension.
    pub open spec fn searchable(&self, f: int, queries: Seq<Vec<i16>>, metric: Metric) -> bool {
        &&& self.schema.fields@[f].kind is Vector
        &&& exists|x: int|
            0 <= x < self.indexes@.len() && (#[trigger] self.indexes@[x]).field == f
                && self.indexes@[x].params.metric == metric
        &&& forall|i: int|
            0 <= i < queries.len() ==> (#[trigger] queries[i])@.len()
                == self.schema.fields@[f].kind->dim
    }

    /// `res` holds, for each query vector, the `k` best rows of the vector
    /// field `field` by `metric`, best first.
    pub open spec fn search_result(
        &self,
        queries: Seq<Vec<i16>>,
        field: Seq<char>,
        k: usize,
        metric: Metric,
        res: Seq<Vec<Hit>>,
    ) -> bool {
        &&& res.len() == queries.len()
        &&& forall|f: int|
            0 <= f < self.schema.fields@.len() && (#[trigger] self.schema.fields@[f]).name@ == field
                ==> forall|i: int|
                0 <= i < queries.len() ==> top_hits(
                    metric,
                    self.field_scores(f, metric, queries[i]@),
                    k as nat,
                    (#[trigger] res[i])@,
                )
    }

    /// The vector field called `field` has an index that ranks by `metric`.
    pub open spec fn metric_matches(&self, field: Seq<char>, metric: Metric) -> bool {
        exists|f: int, x: int|
            0 <= f < self.schema.fields@.len() && (#[trigger] self.schema.fields@[f]).name@ == field
                && self.schema.fields@[f].kind.is_vector() && 0 <= x < self.indexes@.len() && (
            #[trigger] self.indexes@[x]).field == f && self.indexes@[x].params.metric == metric
    }

    pub open spec fn search_ok(
        &self,
        queries: Seq<Vec<i16>>,
        field: Seq<char>,
        k: usize,
        metric: Metric,
    ) -> bool {
        &&& self.loaded
        &&& k > 0
        &&& exists|f: int|
            0 <= f < self.schema.fields@.len() && (#[trigger] self.schema.fields@[f]).name@ == field
                && self.searchable(f, queries, metric)
    }

    /// For each query vector, the `k` nearest rows of the vector field
    /// `field` by `metric`, nearest first.
    pub fn search(&self, queries: &Vec<Vec<i16>>, field: &String, k: usize, metric: Metric) -> (r:
        Result<Vec<Vec<Hit>>, StoreError>)
        requires
            self.wf(),
        ensures
            r is Ok <==> self.search_ok(queries@, field@, k, metric),
            self.loaded && !self.has_vector_named(field@) ==> (r matches Err(e) && e is UnknownField),
            self.loaded && self.has_vector_named(field@) && k == 0 ==> (r matches Err(e)
                && e is InvalidTopK),
            self.loaded && self.has_vector_named(field@) && k > 0 && !self.metric_matches(field@, metric)
                ==> (r matches Err(e) && e is MetricMismatch),
            self.loaded && self.has_vector_named(field@) && k > 0 && self.metric_matches(field@, metric)
                && !self.search_ok(queries@, field@, k, metric) ==> (r matches Err(e) && e is ColumnShape),
            !self.loaded ==> (r matches Err(e) && e is NotLoaded),
            r matches Ok(res) ==> self.search_result(queries@, field@, k, metric, res@),
    {
        if !self.loaded {
            return Err(StoreError::NotLoaded { collection: self.schema.name.clone() });
        }
        let f = match self.schema.field_index(field) {
            None => {
                return Err(StoreError::UnknownField { field: field.clone() });
            },
            Some(f) => f,
        };
        proof {
            assert forall|f2: int|
                0 <= f2 < self.schema.fields@.len() && (#[trigger] self.schema.fields@[f2]).name@
                    == field@ implies f2 == f by {
                if f2 < f {
                    assert(self.schema.fields@[f2].name@ != self.schema.fields@[f as int].name@);
                } else if f < f2 {
                    assert(self.schema.fields@[f as int].name@ != self.schema.fields@[f2].name@);
                }
            }
        }
        let dim = match self.schema.fields[f].kind {
            FieldKind::Vector { dim } => dim,
            _ => {
                return Err(StoreError::UnknownField { field: field.clone() });
            },
        };
        if k == 0 {
            return Err(StoreError::InvalidTopK);
        }
        assert(self.schema.fields@[f as int].kind.is_vector());
        assert(self.indexed(f as int));
        let x = self.index_on(f).unwrap();
        proof {
            assert forall|x2: int| 0 <= x2 < self.indexes@.len() && (#[trigger] self.indexes@[x2]).field == f implies x2 == x by {
                if x2 < x {
                    assert(self.indexes@[x2].field != self.indexes@[x as int].field);
                } else if x < x2 {
                    assert(self.indexes@[x as int].field != self.indexes@[x2].field);
                }
            }
        }
        if self.indexes[x].params.metric != metric {
            return Err(StoreError::MetricMismatch { field: field.clone() });
        }
        assert(self.metric_matches(field@, metric)) by {
            assert(self.indexes@[x as int].field == f);
        }
        let mut i: usize = 0;
        while i < queries.len()
            invariant
                self.loaded,
                k > 0,
                self.has_vector_named(field@),
                self.metric_matches(field@, metric),
                f < self.schema.fields@.len(),
                self.schema.fields@[f as int].kind == (FieldKind::Vector { dim }),
                forall|f2: int|
                    0 <= f2 < self.schema.fields@.len() && (#[trigger] self.schema.fields@[f2]).name@
                        == field@ ==> f2 == f,
                0 <= i <= queries@.len(),
                forall|a: int| 0 <= a < i ==> (#[trigger] queries@[a])@.len() == dim,
            decreases queries@.len() - i,
        {
            if queries[i].len() != dim {
                return Err(StoreError::ColumnShape { field: field.clone() });
            }
            i = i + 1;
        }
        assert(self.searchable(f as int, queries@, metric));
        assert(crate::data::fits(self.schema.fields@[f as int].kind, self.columns@[f as int], self.rows as nat));
        let data = match &self.columns[f] {
            ColumnData::Vector(v) => v,
            _ => {
                return Err(StoreError::UnknownField { field: field.clone() });
            },
        };
        assert(self.schema.fields@[f as int].kind.dim_ok());
        let mut res: Vec<Vec<Hit>> = Vec::new();
        let mut j: usize = 0;
        while j < queries.len()
            invariant
                self.wf(),
                0 < k,
                f < self.schema.fields@.len(),
                self.schema.fields@[f as int].kind == (FieldKind::Vector { dim }),
                0 < dim <= crate::schema::MAX_DIM,
                self.columns@[f as int]@ == ColumnValues::Vector(data@),
                data@.len() == self.rows * dim,
                forall|a: int| 0 <= a < queries@.len() ==> (#[trigger] queries@[a])@.len() == dim,
                0 <= j <= queries@.len(),
                res@.len() == j,
                forall|a: int|
                    0 <= a < j ==> top_hits(
                        metric,
                        self.field_scores(f as int, metric, queries@[a]@),
                        k as nat,
                        (#[trigger] res@[a])@,
                    ),
            decreases queries@.len() - j,
        {
            let hits = top_k(metric, data, dim, self.rows, &queries[j], k);
            res.push(hits);
            j = j + 1;
        }
        Ok(res)
    }

    /// `cols` holds, for each output field in the order asked, that field's
    /// values at the given rows, in the order given.
    pub open spec fn fetch_result(&self, rows: Seq<usize>, outputs: Seq<String>, cols: Seq<FieldColumn>) -> bool {
        &&& cols.len() == outputs.len()
        &&& forall|o: int|
            0 <= o < outputs.len() ==> (#[trigger] cols[o]).name@ == outputs[o]@ && forall|g: int|
                0 <= g < self.schema.fields@.len() && self.schema.fields@[g].name@ == outputs[o]@
                    ==> cols[o].data@ == gather(
                    self.schema.fields@[g].kind,
                    self.columns@[g]@,
                    rows.map_values(|x: usize| x as int),
                )
    }

    /// The values of the output fields at the given rows (search hits,
    /// say), one column per output field in the order asked.
    pub fn fetch(&self, rows: &Vec<usize>, outputs: &Vec<String>) -> (r: Result<
        Vec<FieldColumn>,
        StoreError,
    >)
        requires
            self.wf(),
            forall|i: int| 0 <= i < rows@.len() ==> rows@[i] < self.rows,
        ensures
            r is Ok <==> self.outputs_ok(outputs@),
            r matches Err(e) ==> e is UnknownField,
            r matches Ok(cols) ==> self.fetch_result(rows@, outputs@, cols@),
    {
        let mut out: Vec<FieldColumn> = Vec::new();
        let mut o: usize = 0;
        while o < outputs.len()
            invariant
                self.wf(),
                forall|i: int| 0 <= i < rows@.len() ==> rows@[i] < self.rows,
                0 <= o <= outputs@.len(),
                out@.len() == o,
                forall|p: int|
                    0 <= p < o ==> exists|g: int|
                        0 <= g < self.schema.fields@.len() && (#[trigger] self.schema.fields@[g]).name@
                            == (#[trigger] outputs@[p])@,
                forall|p: int|
                    0 <= p < o ==> (#[trigger] out@[p]).name@ == outputs@[p]@ && forall|g: int|
                        0 <= g < self.schema.fields@.len() && self.schema.fields@[g].name@
                            == outputs@[p]@ ==> out@[p].data@ == gather(
                            self.schema.fields@[g].kind,
                            self.columns@[g]@,
                            rows@.map_values(|x: usize| x as int),
                        ),
            decreases outputs@.len() - o,
        {
            let g = match self.output_field(&outputs[o]) {
                Ok(g) => g,
                Err(e) => {
                    return Err(e);
                },
            };
            proof {
                assert forall|g2: int|
                    0 <= g2 < self.schema.fields@.len() && (#[trigger] self.schema.fields@[g2]).name@
                        == outputs@[o as int]@ implies g2 == g by {
                    if g2 < g {
                        assert(self.schema.fields@[g2].name@ != self.schema.fields@[g as int].name@);
                    } else if g < g2 {
                        assert(self.schema.fields@[g as int].name@ != self.schema.fields@[g2].name@);
                    }
                }
                assert(crate::data::fits(self.schema.fields@[g as int].kind, self.columns@[g as int], self.rows as nat));
            }
            let data = gather_column(self.schema.fields[g].kind, &self.columns[g], rows, self.rows);
            out.push(FieldColumn { name: outputs[o].clone(), data });
            o = o + 1;
        }
        Ok(out)
    }
}

} // verus!
