use vstd::prelude::*;

use crate::schema::{FieldKind, FieldSchema};

verus! {

/// The values of one field for a run of rows. A vector column is flattened:
/// row `r` of a field of dimension `d` is `values[r * d .. (r + 1) * d]`.
#[derive(Debug)]
pub enum ColumnData {
    Int64(Vec<i64>),
    VarChar(Vec<String>),
    Vector(Vec<i16>),
}

/// What a column holds, as mathematical sequences.
pub enum ColumnValues {
    Int64(Seq<i64>),
    VarChar(Seq<Seq<char>>),
    Vector(Seq<i16>),
}

pub open spec fn strings_view(v: Seq<String>) -> Seq<Seq<char>> {
    v.map_values(|s: String| s@)
}

impl View for ColumnData {
    type V = ColumnValues;

    open spec fn view(&self) -> ColumnValues {
        match self {
            ColumnData::Int64(v) => ColumnValues::Int64(v@),
            ColumnData::VarChar(v) => ColumnValues::VarChar(strings_view(v@)),
            ColumnData::Vector(v) => ColumnValues::Vector(v@),
        }
    }
}

/// Two columns of one type, one after the other; `None` where the types differ.
pub open spec fn concat(a: ColumnValues, b: ColumnValues) -> Option<ColumnValues> {
    match (a, b) {
        (ColumnValues::Int64(x), ColumnValues::Int64(y)) => Some(ColumnValues::Int64(x + y)),
        (ColumnValues::VarChar(x), ColumnValues::VarChar(y)) => Some(ColumnValues::VarChar(x + y)),
        (ColumnValues::Vector(x), ColumnValues::Vector(y)) => Some(ColumnValues::Vector(x + y)),
        _ => None,
    }
}

/// The keys `start, start + 1, ..., start + n - 1`.
pub open spec fn key_run(start: int, n: nat) -> Seq<i64> {
    Seq::new(n, |k: int| (start + k) as i64)
}

/// Appends a copy of every value of `src` to `v`.
pub fn extend_copy<T: Copy>(v: &mut Vec<T>, src: &[T])
    ensures
        final(v)@ == old(v)@ + src@,
{
    let mut i: usize = 0;
    while i < src.len()
        invariant
            0 <= i <= src@.len(),
            v@ == old(v)@ + src@.subrange(0, i as int),
        decreases src@.len() - i,
    {
        v.push(src[i]);
        i = i + 1;
        assert(src@.subrange(0, i as int) =~= src@.subrange(0, i - 1) + seq![src@[i - 1]]);
    }
    assert(src@.subrange(0, src@.len() as int) =~= src@);
}

pub fn extend_strings(v: &mut Vec<String>, src: &Vec<String>)
    ensures
        strings_view(final(v)@) == strings_view(old(v)@) + strings_view(src@),
        final(v)@.len() == old(v)@.len() + src@.len(),
        forall|i: int| 0 <= i < old(v)@.len() ==> final(v)@[i] == old(v)@[i],
        forall|i: int| 0 <= i < src@.len() ==> final(v)@[old(v)@.len() + i] == src@[i],
{
    let mut i: usize = 0;
    let ghost start = v@.len();
    while i < src.len()
        invariant
            0 <= i <= src@.len(),
            start == old(v)@.len(),
            v@.len() == start + i,
            forall|a: int| 0 <= a < start ==> v@[a] == old(v)@[a],
            forall|a: int| 0 <= a < i ==> v@[start + a] == src@[a],
        decreases src@.len() - i,
    {
        v.push(src[i].clone());
        i = i + 1;
    }
    assert(strings_view(v@) =~= strings_view(old(v)@) + strings_view(src@));
}

/// A run of `n` keys counting up from `start`.
pub fn push_keys(v: &mut Vec<i64>, start: usize, n: usize)
    requires
        start + n <= i64::MAX,
    ensures
        final(v)@ == old(v)@ + key_run(start as int, n as nat),
{
    let mut k: usize = 0;
    while k < n
        invariant
            0 <= k <= n,
            start + n <= i64::MAX,
            v@ == old(v)@ + key_run(start as int, k as nat),
        decreases n - k,
    {
        v.push((start as i64) + (k as i64));
        k = k + 1;
        assert(key_run(start as int, k as nat) =~= key_run(start as int, (k - 1) as nat) + seq![
            (start + k - 1) as i64,
        ]);
    }
}

/// A named column, as handed to `insert` and returned by `query`.
#[derive(Debug)]
pub struct FieldColumn {
    pub name: String,
    pub data: ColumnData,
}

/// Every string is within the length bound, in characters.
pub open spec fn strings_fit(v: Seq<Seq<char>>, max_length: usize) -> bool {
    forall|i: int| 0 <= i < v.len() ==> (#[trigger] v[i]).len() <= max_length
}

/// The values have the field's type and make exactly `n` rows of it.
pub open spec fn fits_values(kind: FieldKind, c: ColumnValues, n: nat) -> bool {
    match (kind, c) {
        (FieldKind::Int64, ColumnValues::Int64(v)) => v.len() == n,
        (FieldKind::VarChar { max_length }, ColumnValues::VarChar(v)) => v.len() == n
            && strings_fit(v, max_length),
        (FieldKind::Vector { dim }, ColumnValues::Vector(v)) => v.len() == n * dim,
        _ => false,
    }
}

/// The column has the field's type and holds exactly `n` rows of it.
pub open spec fn fits(kind: FieldKind, c: ColumnData, n: nat) -> bool {
    fits_values(kind, c@, n)
}

/// A column fits one row count at most.
pub proof fn lemma_fits_unique(kind: FieldKind, c: ColumnValues, m: nat, n: nat)
    requires
        kind.dim_ok(),
        fits_values(kind, c, m),
        fits_values(kind, c, n),
    ensures
        m == n,
{
    if let FieldKind::Vector { dim } = kind {
        assert(m * dim == n * dim ==> m == n) by (nonlinear_arith)
            requires
                dim > 0,
        ;
    }
}

/// Two columns that fit a field append to one that fits it.
pub proof fn lemma_concat_fits(kind: FieldKind, a: ColumnValues, b: ColumnValues, m: nat, n: nat)
    requires
        fits_values(kind, a, m),
        fits_values(kind, b, n),
    ensures
        concat(a, b) matches Some(x) && fits_values(kind, x, m + n),
{
    match (kind, a, b) {
        (FieldKind::Vector { dim }, ColumnValues::Vector(x), ColumnValues::Vector(y)) => {
            assert(m * dim + n * dim == (m + n) * dim) by (nonlinear_arith);
        },
        (FieldKind::VarChar { max_length }, ColumnValues::VarChar(x), ColumnValues::VarChar(y)) => {
            assert forall|i: int| 0 <= i < (x + y).len() implies (#[trigger] (x + y)[i]).len()
                <= max_length by {
                if i >= x.len() {
                    assert((x + y)[i] == y[i - x.len()]);
                }
            }
        },
        _ => {},
    }
}

/// Whether `c` has the type `kind` and a whole number of rows; if so, how many.
pub fn column_rows(kind: FieldKind, c: &ColumnData) -> (r: Option<usize>)
    requires
        kind.dim_ok(),
    ensures
        r matches Some(n) ==> fits(kind, *c, n as nat),
        r is None ==> forall|n: nat| !fits(kind, *c, n),
{
    match (kind, c) {
        (FieldKind::Int64, ColumnData::Int64(v)) => Some(v.len()),
        (FieldKind::VarChar { max_length }, ColumnData::VarChar(v)) => {
            assert(forall|n: nat| fits(kind, *c, n) ==> strings_fit(strings_view(v@), max_length));
            let mut i: usize = 0;
            while i < v.len()
                invariant
                    forall|n: nat| fits(kind, *c, n) ==> strings_fit(strings_view(v@), max_length),
                    0 <= i <= v@.len(),
                    forall|a: int| 0 <= a < i ==> (#[trigger] strings_view(v@)[a]).len() <= max_length,
                decreases v@.len() - i,
            {
                assert(strings_view(v@)[i as int] == v@[i as int]@);
                if v[i].as_str().unicode_len() > max_length {
                    assert(!strings_fit(strings_view(v@), max_length));
                    return None;
                }
                i = i + 1;
            }
            Some(v.len())
        },
        (FieldKind::Vector { dim }, ColumnData::Vector(v)) => {
            if v.len() % dim == 0 {
                let n = v.len() / dim;
                proof {
                    let len = v@.len() as int;
                    let d = dim as int;
                    vstd::arithmetic::div_mod::lemma_fundamental_div_mod(len, d);
                    assert(len == (n as int) * d) by (nonlinear_arith)
                        requires
                            len % d == 0,
                            len == d * (len / d) + len % d,
                            n as int == len / d,
                    ;
                }
                Some(n)
            } else {
                proof {
                    assert forall|n: nat| !fits(kind, *c, n) by {
                        if v@.len() == n * dim {
                            vstd::arithmetic::div_mod::lemma_mod_multiples_basic(n as int, dim as int);
                        }
                    }
                }
                None
            }
        },
        _ => None,
    }
}

} // verus!
