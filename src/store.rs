use vstd::prelude::*;

use crate::data::{fits, ColumnData, ColumnValues};
use crate::schema::{CollectionSchema, FieldKind, SchemaError};

verus! {

/// How soon a write becomes visible to reads.
#[derive(Clone, Copy, Debug, PartialEq, Eq, Structural)]
pub enum ConsistencyLevel {
    Strong,
    Bounded,
    Eventually,
    Session,
}

/// The distance a search ranks by: squared Euclidean distance (smaller is
/// nearer) or inner product (larger is nearer).
#[derive(Clone, Copy, Debug, PartialEq, Eq, Structural)]
pub enum Metric {
    L2,
    IP,
}

/// The index algorithm and its tuning parameters.
#[derive(Clone, Copy, Debug, PartialEq, Eq, Structural)]
pub enum IndexType {
    Flat,
    IvfFlat { nlist: usize },
    Hnsw { m: usize, ef_construction: usize },
}

impl IndexType {
    /// Every tuning parameter is a positive integer.
    pub open spec fn params_ok(self) -> bool {
        match self {
            IndexType::Flat => true,
            IndexType::IvfFlat { nlist } => nlist > 0,
            IndexType::Hnsw { m, ef_construction } => m > 0 && ef_construction > 0,
        }
    }

    pub fn check_params(self) -> (r: bool)
        ensures
            r == self.params_ok(),
    {
        match self {
            IndexType::Flat => true,
            IndexType::IvfFlat { nlist } => nlist > 0,
            IndexType::Hnsw { m, ef_construction } => m > 0 && ef_construction > 0,
        }
    }
}

#[derive(Debug)]
pub struct IndexParams {
    pub name: String,
    pub index_type: IndexType,
    pub metric: Metric,
}

/// An index built over the vector field at position `field`.
#[derive(Debug)]
pub struct IndexDef {
    pub field: usize,
    pub params: IndexParams,
}

/// Every failure an operation of the store can report.
#[derive(Debug)]
pub enum StoreError {
    Schema(SchemaError),
    AlreadyExists { collection: String },
    NotFound { collection: String },
    ColumnShape { field: String },
    UnknownField { field: String },
    DuplicateIndex { field: String },
    InvalidIndexParams { field: String },
    LoadError { collection: String },
    NotLoaded { collection: String },
    InvalidExpression { field: String },
    MetricMismatch { field: String },
    InvalidTopK,
    RowOutOfRange { row: usize },
    Capacity { collection: String },
}

/// A collection: its schema, its creation options, its rows (one column per
/// schema field), its indexes, and whether it is loaded for queries.
#[derive(Debug)]
pub struct Collection {
    pub schema: CollectionSchema,
    pub shard_num: usize,
    pub consistency: ConsistencyLevel,
    pub loaded: bool,
    pub columns: Vec<ColumnData>,
    pub rows: usize,
    pub indexes: Vec<IndexDef>,
}

impl Collection {
    pub open spec fn indexed(&self, f: int) -> bool {
        exists|k: int| 0 <= k < self.indexes@.len() && (#[trigger] self.indexes@[k]).field == f
    }

    pub open spec fn vectors_indexed(&self) -> bool {
        forall|f: int|
            0 <= f < self.schema.fields@.len() && (#[trigger] self.schema.fields@[f]).kind.is_vector()
                ==> self.indexed(f)
    }

    pub open spec fn wf(&self) -> bool {
        &&& self.schema.wf()
        &&& self.columns@.len() == self.schema.fields@.len()
        &&& forall|f: int|
            0 <= f < self.columns@.len() ==> fits(
                (#[trigger] self.schema.fields@[f]).kind,
                self.columns@[f],
                self.rows as nat,
            )
        &&& forall|k: int|
            0 <= k < self.indexes@.len() ==> (#[trigger] self.indexes@[k]).field
                < self.schema.fields@.len() && self.schema.fields@[self.indexes@[k].field as int].kind.is_vector()
        &&& forall|k: int, l: int|
            0 <= k < l < self.indexes@.len() ==> self.indexes@[k].field != self.indexes@[l].field
        &&& self.loaded ==> self.vectors_indexed()
    }

    /// The same collection, not loaded.
    pub open spec fn released(self) -> Collection {
        Collection { loaded: false, ..self }
    }

    /// The same collection, loaded.
    pub open spec fn with_loaded(self) -> Collection {
        Collection { loaded: true, ..self }
    }

    /// Loading fails where resources or indexes are missing; a loaded
    /// collection loads again as a no-op.
    pub open spec fn load_fails(&self, replicas: usize, nodes: usize) -> bool {
        !self.loaded && (replicas == 0 || replicas > nodes || !self.vectors_indexed())
    }

    /// The position in `indexes` of the index on field `f`, if any.
    pub fn index_on(&self, f: usize) -> (r: Option<usize>)
        requires
            self.wf(),
        ensures
            r matches Some(k) ==> k < self.indexes@.len() && self.indexes@[k as int].field == f,
            r is None ==> !self.indexed(f as int),
    {
        let mut k: usize = 0;
        while k < self.indexes.len()
            invariant
                0 <= k <= self.indexes@.len(),
                forall|a: int| 0 <= a < k ==> (#[trigger] self.indexes@[a]).field != f,
            decreases self.indexes@.len() - k,
        {
            if self.indexes[k].field == f {
                return Some(k);
            }
            k = k + 1;
        }
        None
    }

    pub fn all_vectors_indexed(&self) -> (r: bool)
        requires
            self.wf(),
        ensures
            r == self.vectors_indexed(),
    {
        let n = self.schema.fields.len();
        let mut f: usize = 0;
        while f < n
            invariant
                self.wf(),
                n == self.schema.fields@.len(),
                0 <= f <= n,
                forall|a: int|
                    0 <= a < f && (#[trigger] self.schema.fields@[a]).kind.is_vector() ==> self.indexed(a),
            decreases n - f,
        {
            if let crate::schema::FieldKind::Vector { .. } = self.schema.fields[f].kind {
                if self.index_on(f).is_none() {
                    return false;
                }
            }
            f = f + 1;
        }
        true
    }

    /// Brings the collection into query-serving memory.
    pub fn load(&mut self, replicas: usize, nodes: usize) -> (r: Result<(), StoreError>)
        requires
            old(self).wf(),
        ensures
            final(self).wf(),
            r is Err <==> old(self).load_fails(replicas, nodes),
            r matches Err(e) ==> e is LoadError && *final(self) == *old(self),
            r is Ok ==> *final(self) == old(self).with_loaded(),
    {
        if self.loaded {
            return Ok(());
        }
        if replicas == 0 || replicas > nodes || !self.all_vectors_indexed() {
            return Err(StoreError::LoadError { collection: self.schema.name.clone() });
        }
        self.loaded = true;
        Ok(())
    }

    /// Takes the collection out of query-serving memory; a no-op when not loaded.
    pub fn release(&mut self)
        requires
            old(self).wf(),
        ensures
            final(self).wf(),
            *final(self) == old(self).released(),
    {
        self.loaded = false;
    }

    /// The schema has a vector field called `field`.
    pub open spec fn has_vector_named(&self, field: Seq<char>) -> bool {
        exists|f: int|
            0 <= f < self.schema.fields@.len() && (#[trigger] self.schema.fields@[f]).name@ == field
                && self.schema.fields@[f].kind.is_vector()
    }

    /// The vector field called `field` already has an index.
    pub open spec fn indexed_named(&self, field: Seq<char>) -> bool {
        exists|f: int|
            0 <= f < self.schema.fields@.len() && (#[trigger] self.schema.fields@[f]).name@ == field
                && self.schema.fields@[f].kind.is_vector() && self.indexed(f)
    }

    /// `next` is this collection with an index on field `field` added.
    pub open spec fn index_added(&self, field: Seq<char>, params: IndexParams, next: &Collection) -> bool {
        &&& next.schema == self.schema
        &&& next.columns == self.columns
        &&& next.rows == self.rows
        &&& next.loaded == self.loaded
        &&& next.shard_num == self.shard_num
        &&& next.consistency == self.consistency
        &&& next.indexes@.len() == self.indexes@.len() + 1
        &&& next.indexes@.drop_last() == self.indexes@
        &&& next.indexes@.last().field < next.schema.fields@.len()
        &&& next.schema.fields@[next.indexes@.last().field as int].name@ == field
        &&& next.indexes@.last().params == params
    }

    /// An index on the vector field called `field` can be built with `params`.
    pub open spec fn index_ok(&self, field: Seq<char>, params: IndexParams) -> bool {
        exists|f: int|
            0 <= f < self.schema.fields@.len() && (#[trigger] self.schema.fields@[f]).name@ == field
                && self.schema.fields@[f].kind.is_vector() && !self.indexed(f)
                && params.index_type.params_ok()
    }

    /// Builds an index on the vector field `field`.
    pub fn create_index(&mut self, field: &String, params: IndexParams) -> (r: Result<(), StoreError>)
        requires
            old(self).wf(),
        ensures
            final(self).wf(),
            r is Ok <==> old(self).index_ok(field@, params),
            r is Err ==> *final(self) == *old(self),
            !old(self).has_vector_named(field@) ==> (r matches Err(e) && e is UnknownField),
            old(self).indexed_named(field@) ==> (r matches Err(e) && e is DuplicateIndex),
            old(self).has_vector_named(field@) && !old(self).indexed_named(field@)
                && !params.index_type.params_ok() ==> (r matches Err(e) && e is InvalidIndexParams),
            r is Ok ==> old(self).index_added(field@, params, final(self)),
    {
        let f = match self.schema.field_index(field) {
            None => {
                return Err(StoreError::UnknownField { field: field.clone() });
            },
            Some(f) => f,
        };
        proof {
            assert forall|f2: int|
                0 <= f2 < self.schema.fields@.len() && (#[trigger] self.schema.fields@[f2]).name@
                    == field@ implies f2 == f by {
                if f2 < f {
                    assert(self.schema.fields@[f2].name@ != self.schema.fields@[f as int].name@);
                } else if f < f2 {
                    assert(self.schema.fields@[f as int].name@ != self.schema.fields@[f2].name@);
                }
            }
        }
        if let FieldKind::Vector { .. } = self.schema.fields[f].kind {
        } else {
            return Err(StoreError::UnknownField { field: field.clone() });
        }
        if self.index_on(f).is_some() {
            return Err(StoreError::DuplicateIndex { field: field.clone() });
        }
        if !params.index_type.check_params() {
            return Err(StoreError::InvalidIndexParams { field: field.clone() });
        }
        let ghost prev = self.indexes@;
        self.indexes.push(IndexDef { field: f, params });
        proof {
            assert(self.indexes@.drop_last() =~= prev);
            assert forall|k: int, l: int| 0 <= k < l < self.indexes@.len() implies self.indexes@[k].field
                != self.indexes@[l].field by {
                if l == prev.len() {
                    assert(self.indexes@[k] == prev[k]);
                }
            }
            if self.loaded {
                assert forall|g: int|
                    0 <= g < self.schema.fields@.len() && (#[trigger] self.schema.fields@[g]).kind.is_vector()
                        implies self.indexed(g) by {
                    let k = choose|k: int| 0 <= k < prev.len() && (#[trigger] prev[k]).field == g;
                    assert(self.indexes@[k] == prev[k]);
                }
            }
        }
        Ok(())
    }

    /// A new, empty, unloaded collection.
    pub fn empty(schema: CollectionSchema, shard_num: usize, consistency: ConsistencyLevel) -> (r:
        Collection)
        requires
            schema.wf(),
        ensures
            r.wf(),
            r.schema == schema,
            r.rows == 0,
            !r.loaded,
            r.indexes@.len() == 0,
            r.shard_num == shard_num,
            r.consistency == consistency,
    {
        let mut columns: Vec<ColumnData> = Vec::new();
        let n = schema.fields.len();
        let mut i: usize = 0;
        while i < n
            invariant
                n == schema.fields@.len(),
                0 <= i <= n,
                columns@.len() == i,
                forall|f: int|
                    0 <= f < i ==> fits((#[trigger] schema.fields@[f]).kind, columns@[f], 0),
            decreases n - i,
        {
            let c = match schema.fields[i].kind {
                FieldKind::Int64 => {
                    let v: Vec<i64> = Vec::new();
                    ColumnData::Int64(v)
                },
                FieldKind::VarChar { .. } => {
                    let v: Vec<String> = Vec::new();
                    assert(crate::data::strings_view(v@) =~= Seq::empty());
                    ColumnData::VarChar(v)
                },
                FieldKind::Vector { .. } => {
                    let v: Vec<i16> = Vec::new();
                    ColumnData::Vector(v)
                },
            };
            assert(fits(schema.fields@[i as int].kind, c, 0));
            columns.push(c);
            i = i + 1;
        }
        Collection {
            schema,
            shard_num,
            consistency,
            loaded: false,
            columns,
            rows: 0,
            indexes: Vec::new(),
        }
    }
}

} // verus!
