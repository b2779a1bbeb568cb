//! Table statistics, as a query engine asks for them.

use vstd::prelude::*;

use crate::array::ChunkedArray;
use crate::compute::boolean::{null_bits, null_count};
use crate::compute::mask::count_true;
use crate::encodings::chunked_variants::fields_concat;
use crate::error::VortexError;

verus! {

/// How well a statistic is known.
#[derive(Clone, Copy, Debug, PartialEq, Eq, Structural)]
pub enum Precision {
    Exact(usize),
    Inexact(usize),
    Absent,
}

/// The statistics of one column.
#[derive(Clone, Copy, Debug, PartialEq, Eq, Structural)]
pub struct ColumnStatistics {
    pub null_count: Precision,
    pub byte_size: Precision,
}

/// The statistics of a table.
#[derive(Debug)]
pub struct Statistics {
    pub num_rows: Precision,
    pub total_byte_size: Precision,
    pub column_statistics: Vec<ColumnStatistics>,
}

/// The sum of the byte sizes of the first `n` columns, those that are not known counting
/// nothing.
pub open spec fn known_bytes(columns: Seq<ColumnStatistics>, n: int) -> int
    decreases n,
{
    if n <= 0 || n > columns.len() {
        0
    } else {
        known_bytes(columns, n - 1) + (match columns[n - 1].byte_size {
            Precision::Exact(b) => b as int,
            Precision::Inexact(b) => b as int,
            Precision::Absent => 0,
        })
    }
}

/// The statistics of a table from its row count and what is known of each column. The
/// total size is the sum of the sizes that are known, and not exact; it is absent where the
/// sum does not fit.
pub fn infer_stats(row_count: usize, columns: Vec<ColumnStatistics>) -> (r: Statistics)
    ensures
        r.num_rows == Precision::Exact(row_count),
        r.column_statistics == columns,
        r.total_byte_size == (if known_bytes(columns@, columns@.len() as int) <= usize::MAX {
            Precision::Inexact(known_bytes(columns@, columns@.len() as int) as usize)
        } else {
            Precision::Absent
        }),
{
    let mut total: usize = 0;
    let mut fits = true;
    let mut i: usize = 0;
    while i < columns.len()
        invariant
            i <= columns@.len(),
            fits ==> total == known_bytes(columns@, i as int),
            !fits ==> known_bytes(columns@, i as int) > usize::MAX,
        decreases columns@.len() - i,
    {
        let size = match columns[i].byte_size {
            Precision::Exact(b) => b,
            Precision::Inexact(b) => b,
            Precision::Absent => 0,
        };
        if fits {
            if size > usize::MAX - total {
                fits = false;
            } else {
                total = total + size;
            }
        }
        i += 1;
    }
    let total_byte_size = if fits {
        Precision::Inexact(total)
    } else {
        Precision::Absent
    };
    Statistics { num_rows: Precision::Exact(row_count), total_byte_size, column_statistics: columns }
}

/// The statistics of the projected fields of a chunked struct array: the rows counted, of
/// each field the nulls and the bytes, the bytes absent where they do not fit, and as the
/// total the sum of the fields' bytes. A field that the array does not have, or an array
/// that is not of structs, is refused with `InvalidArgument`.
pub fn chunked_array_stats(array: &ChunkedArray, projection: &Vec<usize>) -> (r: Result<
    Statistics,
    VortexError,
>)
    requires
        array.wf(),
    ensures
        r is Ok <==> array.dtype@ is Struct && forall|k: int| 0 <= k < projection@.len() ==> (#[trigger] projection@[k])
            < array.dtype@->Struct_1.len() && fields_concat(
            array.chunks@,
            projection@[k] as int,
            array.chunks@.len() as int,
        ) is Some,
        r is Err ==> r->Err_0 == VortexError::InvalidArgument,
        r is Ok ==> {
            &&& r->Ok_0.num_rows == Precision::Exact(array.elements().len() as usize)
            &&& r->Ok_0.column_statistics@.len() == projection@.len()
            &&& r->Ok_0.total_byte_size == (if known_bytes(
                r->Ok_0.column_statistics@,
                projection@.len() as int,
            ) <= usize::MAX {
                Precision::Exact(
                    known_bytes(r->Ok_0.column_statistics@, projection@.len() as int) as usize,
                )
            } else {
                Precision::Absent
            })
            &&& forall|k: int| 0 <= k < projection@.len() ==> !((
            #[trigger] r->Ok_0.column_statistics@[k]).byte_size is Inexact)
            &&& forall|k: int| 0 <= k < projection@.len() ==> (#[trigger] r->Ok_0.column_statistics@[k]).null_count
                == Precision::Exact(
                count_true(
                    null_bits(
                        fields_concat(
                            array.chunks@,
                            projection@[k] as int,
                            array.chunks@.len() as int,
                        )->Some_0,
                    ),
                ) as usize,
            )
        },
{
    match &array.dtype {
        crate::dtype::DType::Struct(_, _) => {},
        _ => {
            return Err(VortexError::InvalidArgument);
        },
    }
    let n = array.chunks.len();
    assert(array.chunk_ends@[n as int] == crate::array::concat_elements(array.chunks@, n as int).len());
    let rows = array.chunk_ends[n] as usize;
    let mut columns: Vec<ColumnStatistics> = Vec::new();
    let mut k: usize = 0;
    while k < projection.len()
        invariant
            array.wf(),
            array.dtype@ is Struct,
            n == array.chunks@.len(),
            k <= projection@.len(),
            columns@.len() == k,
            forall|j: int| 0 <= j < k ==> !((#[trigger] columns@[j]).byte_size is Inexact),
            forall|j: int| 0 <= j < k ==> (#[trigger] projection@[j]) < array.dtype@->Struct_1.len()
                && fields_concat(array.chunks@, projection@[j] as int, n as int) is Some,
            forall|j: int| 0 <= j < k ==> (#[trigger] columns@[j]).null_count == Precision::Exact(
                count_true(
                    null_bits(fields_concat(array.chunks@, projection@[j] as int, n as int)->Some_0),
                ) as usize,
            ),
        decreases projection@.len() - k,
    {
        let field = match array.field(projection[k]) {
            Some(f) => f,
            None => {
                return Err(VortexError::InvalidArgument);
            },
        };
        let nulls = null_count(&field);
        let byte_size = match field.nbytes() {
            Some(b) => Precision::Exact(b),
            None => Precision::Absent,
        };
        columns.push(ColumnStatistics { null_count: Precision::Exact(nulls), byte_size });
        k += 1;
    }
    let stats = infer_stats(rows, columns);
    Ok(
        Statistics {
            num_rows: stats.num_rows,
            total_byte_size: match stats.total_byte_size {
                Precision::Inexact(b) => Precision::Exact(b),
                other => other,
            },
            column_statistics: stats.column_statistics,
        },
    )
}

} // verus!
