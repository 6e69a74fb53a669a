use vstd::prelude::*;

verus! {

/// The largest vector dimension the store accepts: the bound under which a
/// score, summed over the components, stays within a 64-bit integer.
pub const MAX_DIM: usize = 1_000_000_000;

/// The type of one field: a 64-bit integer, a bounded string, or a vector
/// of fixed dimension (components are quantized to 16-bit integers).
#[derive(Clone, Copy, Debug, PartialEq, Eq, Structural)]
pub enum FieldKind {
    Int64,
    VarChar { max_length: usize },
    Vector { dim: usize },
}

impl FieldKind {
    pub open spec fn is_vector(self) -> bool {
        self is Vector
    }

    pub open spec fn is_scalar(self) -> bool {
        !(self is Vector)
    }

    pub open spec fn dim_ok(self) -> bool {
        match self {
            FieldKind::Vector { dim } => 0 < dim <= MAX_DIM,
            _ => true,
        }
    }
}

#[derive(Debug)]
pub struct FieldSchema {
    pub name: String,
    pub description: String,
    pub kind: FieldKind,
    pub is_primary: bool,
    pub auto_id: bool,
}

impl Clone for FieldSchema {
    fn clone(&self) -> (r: Self)
        ensures
            r.name@ == self.name@,
            r.description@ == self.description@,
            r.kind == self.kind,
            r.is_primary == self.is_primary,
            r.auto_id == self.auto_id,
    {
        FieldSchema {
            name: self.name.clone(),
            description: self.description.clone(),
            kind: self.kind,
            is_primary: self.is_primary,
            auto_id: self.auto_id,
        }
    }
}

impl FieldSchema {
    /// An integer primary key; with `auto_id` the store assigns its values.
    pub fn new_primary_int64(name: &str, description: &str, auto_id: bool) -> (r: FieldSchema)
        ensures
            r.name@ == name@,
            r.description@ == description@,
            r.kind == FieldKind::Int64,
            r.is_primary,
            r.auto_id == auto_id,
    {
        FieldSchema {
            name: name.to_string(),
            description: description.to_string(),
            kind: FieldKind::Int64,
            is_primary: true,
            auto_id,
        }
    }

    /// A plain integer field.
    pub fn new_int64(name: &str, description: &str) -> (r: FieldSchema)
        ensures
            r.name@ == name@,
            r.description@ == description@,
            r.kind == FieldKind::Int64,
            !r.is_primary,
            !r.auto_id,
    {
        FieldSchema {
            name: name.to_string(),
            description: description.to_string(),
            kind: FieldKind::Int64,
            is_primary: false,
            auto_id: false,
        }
    }

    /// A string field of at most `max_length` characters.
    pub fn new_varchar(name: &str, description: &str, max_length: usize) -> (r: FieldSchema)
        ensures
            r.name@ == name@,
            r.description@ == description@,
            r.kind == (FieldKind::VarChar { max_length }),
            !r.is_primary,
            !r.auto_id,
    {
        FieldSchema {
            name: name.to_string(),
            description: description.to_string(),
            kind: FieldKind::VarChar { max_length },
            is_primary: false,
            auto_id: false,
        }
    }

    /// A vector field of dimension `dim`.
    pub fn new_vector(name: &str, description: &str, dim: usize) -> (r: FieldSchema)
        ensures
            r.name@ == name@,
            r.description@ == description@,
            r.kind == (FieldKind::Vector { dim }),
            !r.is_primary,
            !r.auto_id,
    {
        FieldSchema {
            name: name.to_string(),
            description: description.to_string(),
            kind: FieldKind::Vector { dim },
            is_primary: false,
            auto_id: false,
        }
    }
}

/// Why a field set was refused; each names the offending field where there is one.
#[derive(Debug)]
pub enum SchemaError {
    DuplicateField { field: String },
    BadDimension { field: String },
    AutoIdNotPrimary { field: String },
    NoPrimaryKey,
    MultiplePrimaryKeys { field: String },
    PrimaryKeyType { field: String },
    NoVectorField,
}

pub open spec fn names_unique(f: Seq<FieldSchema>) -> bool {
    forall|i: int, j: int| 0 <= i < j < f.len() ==> f[i].name@ != f[j].name@
}

pub open spec fn dims_ok(f: Seq<FieldSchema>) -> bool {
    forall|i: int| 0 <= i < f.len() ==> (#[trigger] f[i].kind).dim_ok()
}

/// Only an integer primary key may have its values generated.
pub open spec fn auto_id_ok(f: Seq<FieldSchema>) -> bool {
    forall|i: int|
        0 <= i < f.len() && (#[trigger] f[i]).auto_id ==> f[i].is_primary && f[i].kind == FieldKind::Int64
}

/// Exactly one field is the primary key.
pub open spec fn one_primary(f: Seq<FieldSchema>) -> bool {
    exists|i: int|
        0 <= i < f.len() && (#[trigger] f[i]).is_primary && forall|j: int|
            0 <= j < f.len() && (#[trigger] f[j]).is_primary ==> j == i
}

/// The position of the primary key.
pub open spec fn primary_pos(f: Seq<FieldSchema>) -> int {
    choose|i: int| 0 <= i < f.len() && (#[trigger] f[i]).is_primary
}

pub open spec fn primary_scalar(f: Seq<FieldSchema>) -> bool {
    forall|i: int| 0 <= i < f.len() && (#[trigger] f[i]).is_primary ==> f[i].kind.is_scalar()
}

pub open spec fn has_vector(f: Seq<FieldSchema>) -> bool {
    exists|i: int| 0 <= i < f.len() && (#[trigger] f[i]).kind.is_vector()
}

/// The field-set invariants a collection schema must meet.
pub open spec fn fields_valid(f: Seq<FieldSchema>) -> bool {
    &&& names_unique(f)
    &&& dims_ok(f)
    &&& auto_id_ok(f)
    &&& one_primary(f)
    &&& primary_scalar(f)
    &&& has_vector(f)
}

/// The reported error names an invariant that the field set indeed breaks.
pub open spec fn error_holds(f: Seq<FieldSchema>, e: SchemaError) -> bool {
    match e {
        SchemaError::DuplicateField { field } => exists|i: int, j: int|
            0 <= i < j < f.len() && f[i].name@ == field@ && f[j].name@ == field@,
        SchemaError::BadDimension { field } => exists|i: int|
            0 <= i < f.len() && f[i].name@ == field@ && !(#[trigger] f[i].kind).dim_ok(),
        SchemaError::AutoIdNotPrimary { field } => exists|i: int|
            0 <= i < f.len() && f[i].name@ == field@ && (#[trigger] f[i]).auto_id && !(f[i].is_primary
                && f[i].kind == FieldKind::Int64),
        SchemaError::NoPrimaryKey => forall|i: int| 0 <= i < f.len() ==> !(#[trigger] f[i]).is_primary,
        SchemaError::MultiplePrimaryKeys { field } => exists|i: int, j: int|
            0 <= i < j < f.len() && f[i].is_primary && f[j].is_primary && f[j].name@ == field@,
        SchemaError::PrimaryKeyType { field } => exists|i: int|
            0 <= i < f.len() && f[i].name@ == field@ && (#[trigger] f[i]).is_primary && f[i].kind.is_vector(),
        SchemaError::NoVectorField => !has_vector(f),
    }
}

/// A named, described, ordered field set that meets `fields_valid`.
#[derive(Debug)]
pub struct CollectionSchema {
    pub name: String,
    pub description: String,
    pub fields: Vec<FieldSchema>,
}

impl CollectionSchema {
    pub open spec fn wf(&self) -> bool {
        fields_valid(self.fields@)
    }

    /// Validates the field set and makes the schema, or names a broken invariant.
    pub fn build(name: String, description: String, fields: Vec<FieldSchema>) -> (r: Result<
        CollectionSchema,
        SchemaError,
    >)
        ensures
            r is Ok <==> fields_valid(fields@),
            !one_primary(fields@) || !has_vector(fields@) ==> r is Err,
            r matches Ok(s) ==> s.name@ == name@ && s.description@ == description@ && s.fields@ == fields@
                && s.wf(),
            r matches Err(e) ==> error_holds(fields@, e),
    {
        let n = fields.len();
        // unique names
        let mut i: usize = 0;
        while i < n
            invariant
                n == fields@.len(),
                0 <= i <= n,
                forall|a: int, b: int|
                    0 <= a < b < n && a < i ==> fields@[a].name@ != fields@[b].name@,
            decreases n - i,
        {
            let mut j: usize = i + 1;
            while j < n
                invariant
                    n == fields@.len(),
                    0 <= i < n,
                    i + 1 <= j <= n,
                    forall|a: int, b: int|
                        0 <= a < b < n && a < i ==> fields@[a].name@ != fields@[b].name@,
                    forall|b: int| i < b < j ==> fields@[i as int].name@ != fields@[b].name@,
                decreases n - j,
            {
                if fields[i].name == fields[j].name {
                    return Err(SchemaError::DuplicateField { field: fields[j].name.clone() });
                }
                j = j + 1;
            }
            i = i + 1;
        }
        // per-field checks, and the primary key
        let mut primary: Option<usize> = None;
        let mut vector: bool = false;
        let mut k: usize = 0;
        while k < n
            invariant
                n == fields@.len(),
                0 <= k <= n,
                names_unique(fields@),
                forall|a: int| 0 <= a < k ==> (#[trigger] fields@[a].kind).dim_ok(),
                forall|a: int|
                    0 <= a < k && (#[trigger] fields@[a]).auto_id ==> fields@[a].is_primary
                        && fields@[a].kind == FieldKind::Int64,
                forall|a: int| 0 <= a < k && (#[trigger] fields@[a]).is_primary ==> fields@[a].kind.is_scalar(),
                match primary {
                    Some(p) => p < k && fields@[p as int].is_primary && forall|a: int|
                        0 <= a < k && (#[trigger] fields@[a]).is_primary ==> a == p,
                    None => forall|a: int| 0 <= a < k ==> !(#[trigger] fields@[a]).is_primary,
                },
                vector <==> exists|a: int| 0 <= a < k && (#[trigger] fields@[a]).kind.is_vector(),
            decreases n - k,
        {
            let f = &fields[k];
            match f.kind {
                FieldKind::Vector { dim } => {
                    if dim == 0 || dim > MAX_DIM {
                        return Err(SchemaError::BadDimension { field: f.name.clone() });
                    }
                    vector = true;
                },
                _ => {},
            }
            if f.auto_id && !(f.is_primary && f.kind == FieldKind::Int64) {
                return Err(SchemaError::AutoIdNotPrimary { field: f.name.clone() });
            }
            if f.is_primary {
                if let Some(p) = primary {
                    assert(fields@[p as int].is_primary && p < k);
                    return Err(SchemaError::MultiplePrimaryKeys { field: f.name.clone() });
                }
                if let FieldKind::Vector { .. } = f.kind {
                    return Err(SchemaError::PrimaryKeyType { field: f.name.clone() });
                }
                primary = Some(k);
            }
            k = k + 1;
        }
        if primary.is_none() {
            return Err(SchemaError::NoPrimaryKey);
        }
        if !vector {
            return Err(SchemaError::NoVectorField);
        }
        Ok(CollectionSchema { name, description, fields })
    }

    /// The position of the primary key.
    pub fn primary_index(&self) -> (r: usize)
        requires
            self.wf(),
        ensures
            r == primary_pos(self.fields@),
            r < self.fields@.len(),
            self.fields@[r as int].is_primary,
    {
        let mut i: usize = 0;
        while i < self.fields.len()
            invariant
                self.wf(),
                0 <= i <= self.fields@.len(),
                forall|a: int| 0 <= a < i ==> !(#[trigger] self.fields@[a]).is_primary,
            decreases self.fields@.len() - i,
        {
            if self.fields[i].is_primary {
                proof {
                    let q = primary_pos(self.fields@);
                    assert(0 <= q < self.fields@.len() && self.fields@[q].is_primary);
                }
                return i;
            }
            i = i + 1;
        }
        proof {
            let q = primary_pos(self.fields@);
            assert(self.fields@[q].is_primary);
        }
        0
    }

    /// The position of the field called `name`, if there is one.
    pub fn field_index(&self, name: &String) -> (r: Option<usize>)
        ensures
            r matches Some(i) ==> i < self.fields@.len() && self.fields@[i as int].name@ == name@,
            r is None ==> forall|i: int| 0 <= i < self.fields@.len() ==> self.fields@[i].name@ != name@,
    {
        let mut i: usize = 0;
        while i < self.fields.len()
            invariant
                0 <= i <= self.fields@.len(),
                forall|a: int| 0 <= a < i ==> self.fields@[a].name@ != name@,
            decreases self.fields@.len() - i,
        {
            if self.fields[i].name == *name {
                return Some(i);
            }
            i = i + 1;
        }
        None
    }
}

} // verus!
