use vstd::prelude::*;

use crate::data::{
    column_rows, concat, extend_copy, extend_strings, fits, key_run, lemma_concat_fits,
    lemma_fits_unique, push_keys, ColumnData, ColumnValues, FieldColumn,
};
use crate::schema::{names_unique, CollectionSchema, FieldSchema};
use crate::store::{Collection, StoreError};

verus! {

/// The most rows a collection holds; generated keys stay below it.
pub const MAX_ROWS: usize = 1_000_000_000;

/// Column `c` is the data of a field that is not generated, of its type, with `n` rows.
pub open spec fn column_ok(fields: Seq<FieldSchema>, c: FieldColumn, n: nat) -> bool {
    exists|i: int|
        0 <= i < fields.len() && (#[trigger] fields[i]).name@ == c.name@ && !fields[i].auto_id
            && fits(fields[i].kind, c.data, n)
}

pub open spec fn has_column(cols: Seq<FieldColumn>, name: Seq<char>) -> bool {
    exists|j: int| 0 <= j < cols.len() && (#[trigger] cols[j]).name@ == name
}

/// The columns give every field that is not generated exactly once, each
/// of its field's type, all with `n` rows.
pub open spec fn aligned(fields: Seq<FieldSchema>, cols: Seq<FieldColumn>, n: nat) -> bool {
    &&& forall|j: int| 0 <= j < cols.len() ==> column_ok(fields, #[trigger] cols[j], n)
    &&& forall|j: int, k: int| 0 <= j < k < cols.len() ==> cols[j].name@ != cols[k].name@
    &&& forall|i: int|
        0 <= i < fields.len() && !(#[trigger] fields[i]).auto_id ==> has_column(cols, fields[i].name@)
}

pub open spec fn shape_ok(fields: Seq<FieldSchema>, cols: Seq<FieldColumn>) -> bool {
    exists|n: nat| aligned(fields, cols, n)
}

/// The position of the first column called `name`.
pub open spec fn column_pos(cols: Seq<FieldColumn>, name: Seq<char>) -> int {
    choose|j: int| 0 <= j < cols.len() && (#[trigger] cols[j]).name@ == name
}

/// What an insert of `n` rows adds to field `f`: generated keys counting up
/// from `start`, or the values of the column of that name.
pub open spec fn incoming(
    fields: Seq<FieldSchema>,
    cols: Seq<FieldColumn>,
    f: int,
    start: nat,
    n: nat,
) -> ColumnValues {
    if fields[f].auto_id {
        ColumnValues::Int64(key_run(start as int, n))
    } else {
        cols[column_pos(cols, fields[f].name@)].data@
    }
}

proof fn lemma_column_ok(fields: Seq<FieldSchema>, c: FieldColumn, i: int, n: nat)
    requires
        names_unique(fields),
        0 <= i < fields.len(),
        fields[i].name@ == c.name@,
    ensures
        column_ok(fields, c, n) <==> (!fields[i].auto_id && fits(fields[i].kind, c.data, n)),
{
    if column_ok(fields, c, n) {
        let i2 = choose|i2: int|
            0 <= i2 < fields.len() && (#[trigger] fields[i2]).name@ == c.name@ && !fields[i2].auto_id
                && fits(fields[i2].kind, c.data, n);
        if i2 < i {
            assert(fields[i2].name@ != fields[i].name@);
        } else if i < i2 {
            assert(fields[i].name@ != fields[i2].name@);
        }
    }
}

/// The first column called `name`, if any.
fn find_column(cols: &Vec<FieldColumn>, name: &String) -> (r: Option<usize>)
    ensures
        r matches Some(j) ==> j < cols@.len() && cols@[j as int].name@ == name@,
        r is None ==> !has_column(cols@, name@),
{
    let mut j: usize = 0;
    while j < cols.len()
        invariant
            0 <= j <= cols@.len(),
            forall|a: int| 0 <= a < j ==> (#[trigger] cols@[a]).name@ != name@,
        decreases cols@.len() - j,
    {
        if cols[j].name == *name {
            return Some(j);
        }
        j = j + 1;
    }
    None
}

/// Checks that the columns line up with the schema, and gives their row count.
pub fn check_columns(schema: &CollectionSchema, cols: &Vec<FieldColumn>) -> (r: Result<
    usize,
    StoreError,
>)
    requires
        schema.wf(),
    ensures
        r matches Ok(n) ==> aligned(schema.fields@, cols@, n as nat),
        r is Err ==> !shape_ok(schema.fields@, cols@),
        r matches Err(e) ==> e is ColumnShape,
{
    let ghost fields = schema.fields@;
    let nf = schema.fields.len();
    let nc = cols.len();
    // every field that is not generated has a column
    let mut i: usize = 0;
    while i < nf
        invariant
            nf == fields.len(),
            fields == schema.fields@,
            0 <= i <= nf,
            forall|a: int|
                0 <= a < i && !(#[trigger] fields[a]).auto_id ==> has_column(cols@, fields[a].name@),
        decreases nf - i,
    {
        if !schema.fields[i].auto_id {
            if find_column(cols, &schema.fields[i].name).is_none() {
                assert(!fields[i as int].auto_id);
                return Err(StoreError::ColumnShape { field: schema.fields[i].name.clone() });
            }
        }
        i = i + 1;
    }
    // no column is given twice
    let mut j: usize = 0;
    while j < nc
        invariant
            nc == cols@.len(),
            0 <= j <= nc,
            forall|a: int, b: int| 0 <= a < b < nc && a < j ==> cols@[a].name@ != cols@[b].name@,
        decreases nc - j,
    {
        let mut k: usize = j + 1;
        while k < nc
            invariant
                nc == cols@.len(),
                0 <= j < nc,
                j + 1 <= k <= nc,
                forall|a: int, b: int| 0 <= a < b < nc && a < j ==> cols@[a].name@ != cols@[b].name@,
                forall|b: int| j < b < k ==> cols@[j as int].name@ != cols@[b].name@,
            decreases nc - k,
        {
            if cols[j].name == cols[k].name {
                return Err(StoreError::ColumnShape { field: cols[k].name.clone() });
            }
            k = k + 1;
        }
        j = j + 1;
    }
    // each column belongs to a field, has its type, and all agree on the row count
    let mut n: usize = 0;
    let mut c: usize = 0;
    while c < nc
        invariant
            schema.wf(),
            fields == schema.fields@,
            nc == cols@.len(),
            0 <= c <= nc,
            forall|a: int| 0 <= a < c ==> column_ok(fields, #[trigger] cols@[a], n as nat),
            c > 0 ==> forall|m: nat| column_ok(fields, cols@[0], m) ==> m == n,
        decreases nc - c,
    {
        let fi = schema.field_index(&cols[c].name);
        match fi {
            None => {
                assert forall|m: nat| !column_ok(fields, cols@[c as int], m) by {}
                return Err(StoreError::ColumnShape { field: cols[c].name.clone() });
            },
            Some(f) => {
                proof {
                    assert forall|m: nat|
                        column_ok(fields, cols@[c as int], m) <==> (!fields[f as int].auto_id && fits(
                            fields[f as int].kind,
                            cols@[c as int].data,
                            m,
                        )) by {
                        lemma_column_ok(fields, cols@[c as int], f as int, m);
                    }
                }
                if schema.fields[f].auto_id {
                    return Err(StoreError::ColumnShape { field: cols[c].name.clone() });
                }
                assert(fields[f as int].kind.dim_ok());
                match column_rows(schema.fields[f].kind, &cols[c].data) {
                    None => {
                        return Err(StoreError::ColumnShape { field: cols[c].name.clone() });
                    },
                    Some(m) => {
                        proof {
                            assert forall|m2: nat| column_ok(fields, cols@[c as int], m2) implies m2
                                == m by {
                                lemma_fits_unique(
                                    fields[f as int].kind,
                                    cols@[c as int].data@,
                                    m as nat,
                                    m2,
                                );
                            }
                        }
                        if c == 0 {
                            n = m;
                        } else if m != n {
                            proof {
                                assert forall|m2: nat| !aligned(fields, cols@, m2) by {
                                    if aligned(fields, cols@, m2) {
                                        assert(column_ok(fields, cols@[0], m2));
                                        assert(column_ok(fields, cols@[c as int], m2));
                                    }
                                }
                            }
                            return Err(StoreError::ColumnShape { field: cols[c].name.clone() });
                        }
                    },
                }
            },
        }
        c = c + 1;
    }
    Ok(n)
}

/// Appends `add` to `c`; both have one type.
fn append_column(c: ColumnData, add: &ColumnData) -> (r: ColumnData)
    requires
        concat(c@, add@) is Some,
    ensures
        concat(c@, add@) == Some(r@),
{
    match (c, add) {
        (ColumnData::Int64(mut v), ColumnData::Int64(w)) => {
            extend_copy(&mut v, w.as_slice());
            ColumnData::Int64(v)
        },
        (ColumnData::VarChar(mut v), ColumnData::VarChar(w)) => {
            extend_strings(&mut v, w);
            ColumnData::VarChar(v)
        },
        (ColumnData::Vector(mut v), ColumnData::Vector(w)) => {
            extend_copy(&mut v, w.as_slice());
            ColumnData::Vector(v)
        },
        (c, _) => c,
    }
}

impl Collection {
    /// `next` is this collection with the `n` rows the columns give appended
    /// to every field; nothing else changes.
    pub open spec fn inserted(&self, columns: Seq<FieldColumn>, n: usize, next: &Collection) -> bool {
        &&& aligned(self.schema.fields@, columns, n as nat)
        &&& next.rows == self.rows + n
        &&& next.schema == self.schema
        &&& next.indexes == self.indexes
        &&& next.loaded == self.loaded
        &&& next.shard_num == self.shard_num
        &&& next.consistency == self.consistency
        &&& next.columns@.len() == self.columns@.len()
        &&& forall|f: int|
            0 <= f < next.columns@.len() ==> concat(
                self.columns@[f]@,
                incoming(self.schema.fields@, columns, f, self.rows as nat, n as nat),
            ) == Some((#[trigger] next.columns@[f])@)
    }

    /// Inserts the rows the columns give; generated keys are the row positions.
    pub fn insert(&mut self, columns: Vec<FieldColumn>) -> (r: Result<usize, StoreError>)
        requires
            old(self).wf(),
        ensures
            final(self).wf(),
            !shape_ok(old(self).schema.fields@, columns@) ==> (r matches Err(e) && e is ColumnShape),
            r is Ok <==> exists|n: nat|
                aligned(old(self).schema.fields@, columns@, n) && old(self).rows + n <= MAX_ROWS,
            r is Err ==> *final(self) == *old(self),
            r matches Ok(n) ==> old(self).inserted(columns@, n, final(self)),
    {
        let n = match check_columns(&self.schema, &columns) {
            Ok(n) => n,
            Err(e) => {
                return Err(e);
            },
        };
        if self.rows > MAX_ROWS || n > MAX_ROWS - self.rows {
            proof {
                assert forall|m: nat|
                    aligned(self.schema.fields@, columns@, m) implies self.rows + m > MAX_ROWS by {
                    lemma_aligned_unique(self.schema.fields@, columns@, m, n as nat);
                }
            }
            return Err(StoreError::Capacity { collection: self.schema.name.clone() });
        }
        proof {
            assert forall|m: nat| aligned(self.schema.fields@, columns@, m) implies m == n by {
                lemma_aligned_unique(self.schema.fields@, columns@, m, n as nat);
            }
        }
        let ghost old_self = *self;
        let ghost fields = self.schema.fields@;
        let mut old_cols: Vec<ColumnData> = Vec::new();
        std::mem::swap(&mut self.columns, &mut old_cols);
        let ghost orig = old_cols@;
        let nf = self.schema.fields.len();
        let mut i: usize = 0;
        while i < nf
            invariant
                old_self.wf(),
                self.schema == old_self.schema,
                self.indexes == old_self.indexes,
                self.loaded == old_self.loaded,
                self.shard_num == old_self.shard_num,
                self.consistency == old_self.consistency,
                fields == self.schema.fields@,
                orig == old_self.columns@,
                nf == fields.len(),
                self.rows == old_self.rows,
                self.rows + n <= MAX_ROWS,
                aligned(fields, columns@, n as nat),
                0 <= i <= nf,
                old_cols@ == orig.subrange(i as int, nf as int),
                self.columns@.len() == i,
                forall|f: int|
                    0 <= f < i ==> concat(
                        orig[f]@,
                        incoming(fields, columns@, f, self.rows as nat, n as nat),
                    ) == Some((#[trigger] self.columns@[f])@) && fits(
                        fields[f].kind,
                        self.columns@[f],
                        (self.rows + n) as nat,
                    ),
            decreases nf - i,
        {
            let c = old_cols.remove(0);
            assert(c == orig[i as int]);
            assert(fits(fields[i as int].kind, c, self.rows as nat));
            let newc;
            if self.schema.fields[i].auto_id {
                let mut keys: Vec<i64> = Vec::new();
                push_keys(&mut keys, self.rows, n);
                assert(keys@ =~= key_run(self.rows as int, n as nat));
                let add = ColumnData::Int64(keys);
                proof {
                    lemma_concat_fits(fields[i as int].kind, c@, add@, self.rows as nat, n as nat);
                }
                newc = append_column(c, &add);
            } else {
                assert(has_column(columns@, fields[i as int].name@));
                let j = find_column(&columns, &self.schema.fields[i].name).unwrap();
                proof {
                    let p = column_pos(columns@, fields[i as int].name@);
                    assert(0 <= p < columns@.len() && columns@[p].name@ == fields[i as int].name@);
                    if p != j {
                        if p < j {
                            assert(columns@[p].name@ != columns@[j as int].name@);
                        } else {
                            assert(columns@[j as int].name@ != columns@[p].name@);
                        }
                    }
                    assert(column_ok(fields, columns@[j as int], n as nat));
                    lemma_column_ok(fields, columns@[j as int], i as int, n as nat);
                    lemma_concat_fits(
                        fields[i as int].kind,
                        c@,
                        columns@[j as int].data@,
                        self.rows as nat,
                        n as nat,
                    );
                }
                newc = append_column(c, &columns[j].data);
            }
            self.columns.push(newc);
            i = i + 1;
        }
        self.rows = self.rows + n;
        assert(self.vectors_indexed() == old_self.vectors_indexed());
        Ok(n)
    }
}

/// Columns that line up do so for one row count only.
proof fn lemma_aligned_unique(fields: Seq<FieldSchema>, cols: Seq<FieldColumn>, m: nat, n: nat)
    requires
        crate::schema::fields_valid(fields),
        aligned(fields, cols, m),
        aligned(fields, cols, n),
    ensures
        m == n,
{
    let v = choose|i: int| 0 <= i < fields.len() && (#[trigger] fields[i]).kind.is_vector();
    assert(!fields[v].auto_id);
    assert(has_column(cols, fields[v].name@));
    let j = choose|j: int| 0 <= j < cols.len() && (#[trigger] cols[j]).name@ == fields[v].name@;
    assert(column_ok(fields, cols[j], m));
    assert(column_ok(fields, cols[j], n));
    lemma_column_ok(fields, cols[j], v, m);
    lemma_column_ok(fields, cols[j], v, n);
    assert(fields[v].kind.dim_ok());
    lemma_fits_unique(fields[v].kind, cols[j].data@, m, n);
}

} // verus!
