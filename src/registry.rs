use vstd::prelude::*;

use crate::data::FieldColumn;
use crate::query::Filter;
use crate::schema::{error_holds, fields_valid, CollectionSchema};
use crate::search::Hit;
use crate::store::{Collection, ConsistencyLevel, IndexParams, Metric, StoreError};

verus! {

/// Some collection in `cs` is called `name`.
pub open spec fn has_name(cs: Seq<Collection>, name: Seq<char>) -> bool {
    exists|i: int| 0 <= i < cs.len() && (#[trigger] cs[i]).schema.name@ == name
}

/// No two collections share a name.
pub open spec fn names_distinct(cs: Seq<Collection>) -> bool {
    forall|i: int, j: int| 0 <= i < cs.len() && 0 <= j < cs.len() && i != j ==> cs[i].schema.name@ != cs[j].schema.name@
}

/// The position of the collection called `name`.
pub open spec fn position_of(cs: Seq<Collection>, name: Seq<char>) -> int {
    choose|i: int| 0 <= i < cs.len() && (#[trigger] cs[i]).schema.name@ == name
}

/// The collections of a store, by name, and the number of nodes that can
/// hold replicas.
pub struct Store {
    pub collections: Vec<Collection>,
    pub nodes: usize,
}

impl Store {
    pub open spec fn wf(&self) -> bool {
        &&& names_distinct(self.collections@)
        &&& forall|i: int| 0 <= i < self.collections@.len() ==> (#[trigger] self.collections@[i]).wf()
    }

    pub open spec fn has(&self, name: Seq<char>) -> bool {
        has_name(self.collections@, name)
    }

    pub open spec fn pos(&self, name: Seq<char>) -> int {
        position_of(self.collections@, name)
    }

    /// The collection called `name`.
    pub open spec fn coll(&self, name: Seq<char>) -> Collection {
        self.collections@[self.pos(name)]
    }

    /// `next` is this store with the collection called `name` replaced by `c`.
    pub open spec fn replaced(&self, name: Seq<char>, c: Collection, next: &Store) -> bool {
        &&& next.nodes == self.nodes
        &&& next.collections@ == self.collections@.update(self.pos(name), c)
    }

    /// Both stores hold the same collections over the same nodes.
    pub open spec fn same(&self, other: &Store) -> bool {
        self.collections@ == other.collections@ && self.nodes == other.nodes
    }

    /// An empty store over `nodes` nodes.
    pub fn new(nodes: usize) -> (r: Store)
        ensures
            r.wf(),
            r.collections@.len() == 0,
            r.nodes == nodes,
    {
        Store { collections: Vec::new(), nodes }
    }

    fn position(&self, name: &String) -> (r: Option<usize>)
        requires
            self.wf(),
        ensures
            r matches Some(i) ==> i == self.pos(name@) && i < self.collections@.len()
                && self.collections@[i as int].schema.name@ == name@,
            r is None <==> !self.has(name@),
    {
        let mut i: usize = 0;
        while i < self.collections.len()
            invariant
                self.wf(),
                0 <= i <= self.collections@.len(),
                forall|a: int| 0 <= a < i ==> (#[trigger] self.collections@[a]).schema.name@ != name@,
            decreases self.collections@.len() - i,
        {
            if self.collections[i].schema.name == *name {
                proof {
                    lemma_pos(self.collections@, i as int, name@);
                }
                return Some(i);
            }
            i = i + 1;
        }
        None
    }

    /// Whether a collection called `name` exists.
    pub fn has_collection(&self, name: &String) -> (r: bool)
        requires
            self.wf(),
        ensures
            r == self.has(name@),
    {
        self.position(name).is_some()
    }

    /// Creates an empty, unloaded collection from `schema`.
    pub fn create_collection(
        &mut self,
        schema: CollectionSchema,
        shard_num: usize,
        consistency: ConsistencyLevel,
    ) -> (r: Result<(), StoreError>)
        requires
            old(self).wf(),
        ensures
            final(self).wf(),
            r is Ok <==> !old(self).has(schema.name@) && fields_valid(schema.fields@),
            old(self).has(schema.name@) ==> (r matches Err(e) && e is AlreadyExists),
            !old(self).has(schema.name@) && !fields_valid(schema.fields@) ==> (r matches Err(e)
                && e is Schema),
            r matches Err(StoreError::Schema(e)) ==> error_holds(schema.fields@, e),
            r is Err ==> final(self).same(old(self)),
            r is Ok ==> {
                &&& final(self).nodes == old(self).nodes
                &&& final(self).collections@.drop_last() == old(self).collections@
                &&& final(self).collections@.len() == old(self).collections@.len() + 1
                &&& final(self).collections@.last().schema.name@ == schema.name@
                &&& final(self).collections@.last().schema.fields@ == schema.fields@
                &&& final(self).collections@.last().schema.description@ == schema.description@
                &&& final(self).collections@.last().shard_num == shard_num
                &&& final(self).collections@.last().consistency == consistency
                &&& final(self).collections@.last().rows == 0
                &&& !final(self).collections@.last().loaded
                &&& final(self).collections@.last().indexes@.len() == 0
                &&& final(self).has(schema.name@)
            },
    {
        if self.position(&schema.name).is_some() {
            return Err(StoreError::AlreadyExists { collection: schema.name });
        }
        let built = match CollectionSchema::build(schema.name, schema.description, schema.fields) {
            Ok(s) => s,
            Err(e) => {
                return Err(StoreError::Schema(e));
            },
        };
        let c = Collection::empty(built, shard_num, consistency);
        let ghost prev = self.collections@;
        self.collections.push(c);
        proof {
            assert(self.collections@.drop_last() =~= prev);
            let last = self.collections@.len() - 1;
            assert(self.collections@[last].schema.name@ == schema.name@);
            assert(forall|i: int| 0 <= i < prev.len() ==> self.collections@[i] == prev[i]);
        }
        Ok(())
    }

    /// Drops the collection called `name`.
    pub fn drop_collection(&mut self, name: &String) -> (r: Result<(), StoreError>)
        requires
            old(self).wf(),
        ensures
            final(self).wf(),
            r is Ok <==> old(self).has(name@),
            r matches Err(e) ==> e is NotFound && final(self).same(old(self)),
            r is Ok ==> final(self).nodes == old(self).nodes && final(self).collections@ == old(
                self,
            ).collections@.remove(old(self).pos(name@)) && !final(self).has(name@),
    {
        match self.position(name) {
            None => Err(StoreError::NotFound { collection: name.clone() }),
            Some(i) => {
                let ghost prev = self.collections@;
                let _ = self.collections.remove(i);
                proof {
                    lemma_remove_absent(prev, name@);
                }
                Ok(())
            },
        }
    }

    /// The collection called `name`.
    pub fn get_collection(&self, name: &String) -> (r: Result<&Collection, StoreError>)
        requires
            self.wf(),
        ensures
            r is Ok <==> self.has(name@),
            r matches Ok(c) ==> *c == self.coll(name@),
            r matches Err(e) ==> e is NotFound,
    {
        match self.position(name) {
            None => Err(StoreError::NotFound { collection: name.clone() }),
            Some(i) => Ok(&self.collections[i]),
        }
    }

    /// Loads the collection called `name` with `replicas` replicas.
    pub fn load(&mut self, name: &String, replicas: usize) -> (r: Result<(), StoreError>)
        requires
            old(self).wf(),
        ensures
            final(self).wf(),
            !old(self).has(name@) ==> (r matches Err(e) && e is NotFound) && final(self).same(old(self)),
            old(self).has(name@) ==> {
                &&& r is Err <==> old(self).coll(name@).load_fails(replicas, old(self).nodes)
                &&& r matches Err(e) ==> e is LoadError
                &&& r is Err ==> final(self).same(old(self))
                &&& r is Ok ==> old(self).replaced(name@, old(self).coll(name@).with_loaded(), final(self))
            },
    {
        match self.position(name) {
            None => Err(StoreError::NotFound { collection: name.clone() }),
            Some(i) => {
                let ghost prev = *self;
                let mut c = self.collections.remove(i);
                let r = c.load(replicas, self.nodes);
                self.collections.insert(i, c);
                proof {
                    assert(self.collections@ =~= prev.collections@.update(i as int, c));
                    lemma_update_keeps(prev.collections@, i as int, c);
                    lemma_pos(prev.collections@, i as int, name@);
                    lemma_pos(self.collections@, i as int, name@);
                    if r is Err {
                        assert(self.collections@ =~= prev.collections@);
                    }
                }
                r
            },
        }
    }

    /// Releases the collection called `name`.
    pub fn release(&mut self, name: &String) -> (r: Result<(), StoreError>)
        requires
            old(self).wf(),
        ensures
            final(self).wf(),
            r is Ok <==> old(self).has(name@),
            r matches Err(e) ==> e is NotFound && final(self).same(old(self)),
            r is Ok ==> old(self).replaced(name@, old(self).coll(name@).released(), final(self)),
    {
        match self.position(name) {
            None => Err(StoreError::NotFound { collection: name.clone() }),
            Some(i) => {
                let ghost prev = *self;
                let mut c = self.collections.remove(i);
                c.release();
                self.collections.insert(i, c);
                proof {
                    assert(self.collections@ =~= prev.collections@.update(i as int, c));
                    lemma_update_keeps(prev.collections@, i as int, c);
                    lemma_pos(prev.collections@, i as int, name@);
                    lemma_pos(self.collections@, i as int, name@);
                }
                Ok(())
            },
        }
    }

    /// Builds an index on field `field` of the collection called `name`.
    pub fn create_index(&mut self, name: &String, field: &String, params: IndexParams) -> (r: Result<
        (),
        StoreError,
    >)
        requires
            old(self).wf(),
        ensures
            final(self).wf(),
            !old(self).has(name@) ==> (r matches Err(e) && e is NotFound) && final(self).same(old(self)),
            old(self).has(name@) ==> (r is Ok <==> old(self).coll(name@).index_ok(field@, params)),
            r is Err ==> final(self).same(old(self)),
            old(self).has(name@) && !old(self).coll(name@).has_vector_named(field@) ==> (r matches Err(
                e,
            ) && e is UnknownField),
            old(self).has(name@) && old(self).coll(name@).indexed_named(field@) ==> (r matches Err(e)
                && e is DuplicateIndex),
            old(self).has(name@) && old(self).coll(name@).has_vector_named(field@) && !old(
                self,
            ).coll(name@).indexed_named(field@) && !params.index_type.params_ok() ==> (r matches Err(e)
                && e is InvalidIndexParams),
            r is Ok ==> final(self).nodes == old(self).nodes && final(self).collections@
                == old(self).collections@.update(old(self).pos(name@), final(self).coll(name@))
                && old(self).coll(name@).index_added(field@, params, &final(self).coll(name@)),
    {
        match self.position(name) {
            None => Err(StoreError::NotFound { collection: name.clone() }),
            Some(i) => {
                let ghost prev = *self;
                let mut c = self.collections.remove(i);
                let r = c.create_index(field, params);
                self.collections.insert(i, c);
                proof {
                    assert(self.collections@ =~= prev.collections@.update(i as int, c));
                    lemma_update_keeps(prev.collections@, i as int, c);
                    lemma_pos(prev.collections@, i as int, name@);
                    lemma_pos(self.collections@, i as int, name@);
                    if r is Err {
                        assert(self.collections@ =~= prev.collections@);
                    }
                }
                r
            },
        }
    }

    /// Inserts the columns' rows into the collection called `name`.
    pub fn insert(&mut self, name: &String, columns: Vec<FieldColumn>) -> (r: Result<
        usize,
        StoreError,
    >)
        requires
            old(self).wf(),
        ensures
            final(self).wf(),
            !old(self).has(name@) ==> (r matches Err(e) && e is NotFound) && final(self).same(old(self)),
            old(self).has(name@) ==> (r is Ok <==> exists|n: nat|
                crate::ingest::aligned(old(self).coll(name@).schema.fields@, columns@, n)
                    && old(self).coll(name@).rows + n <= crate::ingest::MAX_ROWS),
            r is Err ==> final(self).same(old(self)),
            old(self).has(name@) && !crate::ingest::shape_ok(old(self).coll(name@).schema.fields@, columns@)
                ==> (r matches Err(e) && e is ColumnShape),
            r matches Ok(n) ==> final(self).nodes == old(self).nodes && final(self).collections@
                == old(self).collections@.update(old(self).pos(name@), final(self).coll(name@))
                && old(self).coll(name@).inserted(columns@, n, &final(self).coll(name@)),
    {
        match self.position(name) {
            None => Err(StoreError::NotFound { collection: name.clone() }),
            Some(i) => {
                let ghost prev = *self;
                let mut c = self.collections.remove(i);
                let r = c.insert(columns);
                self.collections.insert(i, c);
                proof {
                    assert(self.collections@ =~= prev.collections@.update(i as int, c));
                    lemma_update_keeps(prev.collections@, i as int, c);
                    lemma_pos(prev.collections@, i as int, name@);
                    lemma_pos(self.collections@, i as int, name@);
                    if r is Err {
                        assert(self.collections@ =~= prev.collections@);
                    }
                }
                r
            },
        }
    }

    /// Runs `query` on the collection called `name`.
    pub fn query(&self, name: &String, filter: &Filter, outputs: &Vec<String>) -> (r: Result<
        Vec<FieldColumn>,
        StoreError,
    >)
        requires
            self.wf(),
        ensures
            !self.has(name@) ==> (r matches Err(e) && e is NotFound),
            self.has(name@) ==> (r is Ok <==> self.coll(name@).query_ok(*filter, outputs@)),
            self.has(name@) && !self.coll(name@).loaded ==> (r matches Err(e) && e is NotLoaded),
            self.has(name@) && self.coll(name@).loaded && !self.coll(name@).filter_ok(*filter) ==> (r matches Err(
                e,
            ) && e is InvalidExpression),
            self.has(name@) && self.coll(name@).loaded && self.coll(name@).filter_ok(*filter) && !self.coll(
                name@,
            ).outputs_ok(outputs@) ==> (r matches Err(e) && e is UnknownField),
            r matches Ok(cols) ==> self.coll(name@).query_result(
                *filter,
                self.coll(name@).with_key(outputs@),
                cols@,
            ),
    {
        match self.position(name) {
            None => Err(StoreError::NotFound { collection: name.clone() }),
            Some(i) => self.collections[i].query(filter, outputs),
        }
    }

    /// Runs `search` on the collection called `name`.
    pub fn search(
        &self,
        name: &String,
        queries: &Vec<Vec<i16>>,
        field: &String,
        k: usize,
        metric: Metric,
    ) -> (r: Result<Vec<Vec<Hit>>, StoreError>)
        requires
            self.wf(),
        ensures
            !self.has(name@) ==> (r matches Err(e) && e is NotFound),
            self.has(name@) ==> (r is Ok <==> self.coll(name@).search_ok(queries@, field@, k, metric)),
            self.has(name@) && !self.coll(name@).loaded ==> (r matches Err(e) && e is NotLoaded),
            self.has(name@) && self.coll(name@).loaded && !self.coll(name@).has_vector_named(field@) ==> (
            r matches Err(e) && e is UnknownField),
            self.has(name@) && self.coll(name@).loaded && self.coll(name@).has_vector_named(field@) && k == 0
                ==> (r matches Err(e) && e is InvalidTopK),
            self.has(name@) && self.coll(name@).loaded && self.coll(name@).has_vector_named(field@) && k > 0
                && !self.coll(name@).metric_matches(field@, metric) ==> (r matches Err(e)
                && e is MetricMismatch),
            r matches Ok(res) ==> self.coll(name@).search_result(queries@, field@, k, metric, res@),
    {
        match self.position(name) {
            None => Err(StoreError::NotFound { collection: name.clone() }),
            Some(i) => self.collections[i].search(queries, field, k, metric),
        }
    }

    /// The values of the output fields of the collection called `name` at
    /// the given rows (the rows of search hits, say).
    pub fn fetch(&self, name: &String, rows: &Vec<usize>, outputs: &Vec<String>) -> (r: Result<
        Vec<FieldColumn>,
        StoreError,
    >)
        requires
            self.wf(),
        ensures
            !self.has(name@) ==> (r matches Err(e) && e is NotFound),
            self.has(name@) ==> (r is Ok <==> (forall|i: int|
                0 <= i < rows@.len() ==> rows@[i] < self.coll(name@).rows) && self.coll(name@).outputs_ok(
                outputs@,
            )),
            self.has(name@) && !(forall|i: int| 0 <= i < rows@.len() ==> rows@[i] < self.coll(name@).rows)
                ==> (r matches Err(e) && e is RowOutOfRange),
            r matches Ok(cols) ==> self.coll(name@).fetch_result(rows@, outputs@, cols@),
    {
        match self.position(name) {
            None => Err(StoreError::NotFound { collection: name.clone() }),
            Some(p) => {
                let c = &self.collections[p];
                let mut i: usize = 0;
                while i < rows.len()
                    invariant
                        self.wf(),
                        self.has(name@),
                        *c == self.coll(name@),
                        0 <= i <= rows@.len(),
                        forall|a: int| 0 <= a < i ==> rows@[a] < c.rows,
                    decreases rows@.len() - i,
                {
                    if rows[i] >= c.rows {
                        return Err(StoreError::RowOutOfRange { row: rows[i] });
                    }
                    i = i + 1;
                }
                c.fetch(rows, outputs)
            },
        }
    }
}

/// Where names are distinct, the collection at `i` is the one its name finds.
proof fn lemma_pos(cs: Seq<Collection>, i: int, name: Seq<char>)
    requires
        names_distinct(cs),
        0 <= i < cs.len(),
        cs[i].schema.name@ == name,
    ensures
        position_of(cs, name) == i,
        has_name(cs, name),
{
    assert(cs[i].schema.name@ == name);
    let p = position_of(cs, name);
    if p != i {
        assert(cs[p].schema.name@ != cs[i].schema.name@);
    }
}

/// Replacing a collection by one of the same name keeps names distinct.
proof fn lemma_update_keeps(cs: Seq<Collection>, i: int, c: Collection)
    requires
        names_distinct(cs),
        0 <= i < cs.len(),
        c.schema.name@ == cs[i].schema.name@,
    ensures
        names_distinct(cs.update(i, c)),
{
    assert forall|a: int, b: int|
        0 <= a < cs.len() && 0 <= b < cs.len() && a != b implies cs.update(i, c)[a].schema.name@
        != cs.update(i, c)[b].schema.name@ by {
        assert(cs[a].schema.name@ != cs[b].schema.name@);
    }
}

/// Removing the collection called `name` leaves no collection of that name.
proof fn lemma_remove_absent(cs: Seq<Collection>, name: Seq<char>)
    requires
        names_distinct(cs),
        has_name(cs, name),
    ensures
        !has_name(cs.remove(position_of(cs, name)), name),
        names_distinct(cs.remove(position_of(cs, name))),
{
    let p = position_of(cs, name);
    let r = cs.remove(p);
    assert forall|i: int| 0 <= i < r.len() implies (#[trigger] r[i]).schema.name@ != name by {
        if i < p {
            assert(r[i] == cs[i]);
        } else {
            assert(r[i] == cs[i + 1]);
        }
    }
    assert forall|a: int, b: int|
        0 <= a < r.len() && 0 <= b < r.len() && a != b implies r[a].schema.name@ != r[b].schema.name@ by {
        let a2 = if a < p { a } else { a + 1 };
        let b2 = if b < p { b } else { b + 1 };
        assert(r[a] == cs[a2]);
        assert(r[b] == cs[b2]);
    }
}

} // verus!
