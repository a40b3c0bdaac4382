//! Typed columnar storage for one (scenario, field) pair, and the
//! scenario-aware reader that resolves a read through the overlay or falls
//! through to the base column.
use vstd::prelude::*;

use crate::row_mapping::RowMapping;
use crate::types::{DataType, Field, StoreError};

verus! {

/// The typed buffer behind a column. String columns are stored as `UInt32`
/// dictionary codes; `Float64` cells are stored as their IEEE-754 bit
/// patterns.
#[derive(Clone, Debug)]
pub enum ColumnValues {
    UInt32(Vec<u32>),
    UInt64(Vec<u64>),
    Int64(Vec<i64>),
    Float64Bits(Vec<u64>),
}

impl ColumnValues {
    /// Every cell as a raw 64-bit word: `u32` widened, `i64` reinterpreted,
    /// bit patterns kept. Two cells of one column are equal exactly when
    /// their raw words are.
    pub open spec fn raw(self) -> Seq<u64> {
        match self {
            ColumnValues::UInt32(v) => v@.map_values(|x: u32| x as u64),
            ColumnValues::UInt64(v) => v@,
            ColumnValues::Int64(v) => v@.map_values(|x: i64| x as u64),
            ColumnValues::Float64Bits(v) => v@,
        }
    }

    /// The storage type a column of the given schema type uses.
    pub open spec fn spec_storage_of(dt: DataType) -> DataType {
        match dt {
            DataType::Utf8 => DataType::UInt32,
            _ => dt,
        }
    }

    pub open spec fn spec_data_type(self) -> DataType {
        match self {
            ColumnValues::UInt32(_) => DataType::UInt32,
            ColumnValues::UInt64(_) => DataType::UInt64,
            ColumnValues::Int64(_) => DataType::Int64,
            ColumnValues::Float64Bits(_) => DataType::Float64,
        }
    }

    pub open spec fn spec_len(self) -> nat {
        self.raw().len()
    }

    pub fn len(&self) -> (r: usize)
        ensures
            r == self.spec_len(),
    {
        match self {
            ColumnValues::UInt32(v) => v.len(),
            ColumnValues::UInt64(v) => v.len(),
            ColumnValues::Int64(v) => v.len(),
            ColumnValues::Float64Bits(v) => v.len(),
        }
    }

    /// Read the raw word at `row`.
    pub fn read_raw(&self, row: usize) -> (r: u64)
        requires
            row < self.spec_len(),
        ensures
            r == self.raw()[row as int],
    {
        match self {
            ColumnValues::UInt32(v) => v[row] as u64,
            ColumnValues::UInt64(v) => v[row],
            ColumnValues::Int64(v) => {
                let x = v[row];
                proof {
                    assert(self.raw()[row as int] == v@[row as int] as u64);
                }
                x as u64
            },
            ColumnValues::Float64Bits(v) => v[row],
        }
    }

    /// Reinterpreting two `i64` cells as raw words preserves their
    /// equality and their inequality.
    pub proof fn lemma_i64_raw_injective(x: i64, y: i64)
        ensures
            (x as u64 == y as u64) <==> x == y,
    {
        assert((x as u64 == y as u64) <==> x == y) by (bit_vector);
    }
}

/// A typed, contiguous column bound to a field, filled exactly once.
#[derive(Debug)]
pub struct ChunkArray {
    pub field: Field,
    pub array: Option<ColumnValues>,
}

impl ChunkArray {
    /// A filled column stores its field's data in the matching storage type.
    pub open spec fn wf(self) -> bool {
        match self.array {
            Some(v) => v.spec_data_type() == ColumnValues::spec_storage_of(self.field.data_type),
            None => true,
        }
    }

    pub open spec fn is_set(self) -> bool {
        self.array is Some
    }

    pub open spec fn raw(self) -> Seq<u64> {
        self.array->Some_0.raw()
    }

    pub open spec fn spec_len(self) -> nat {
        self.raw().len()
    }

    pub open spec fn spec_is_power_of_two(number: u32) -> bool {
        number > 0 && ((number & (number - 1) as u32) == 0)
    }

    pub fn is_power_of_two(number: u32) -> (r: bool)
        ensures
            r == ChunkArray::spec_is_power_of_two(number),
    {
        number > 0 && ((number & (number - 1)) == 0)
    }

    /// An empty column shell for `field`; `size` is the chunk size the store
    /// was configured with and must be a power of two.
    pub fn new(field: Field, size: u32) -> (r: ChunkArray)
        requires
            ChunkArray::spec_is_power_of_two(size),
        ensures
            r.field == field,
            !r.is_set(),
            r.wf(),
    {
        ChunkArray { field, array: None }
    }

    /// Install the filled buffer, exactly once: a second call is a
    /// `StateError` and leaves the column unchanged.
    pub fn set_array(&mut self, values: ColumnValues) -> (r: Result<(), StoreError>)
        requires
            old(self).wf(),
            values.spec_data_type() == ColumnValues::spec_storage_of(
                old(self).field.data_type,
            ),
        ensures
            final(self).field == old(self).field,
            final(self).wf(),
            if old(self).is_set() {
                r == Result::<(), StoreError>::Err(StoreError::StateError) && *final(self) == *old(
                    self,
                )
            } else {
                r is Ok && final(self).array == Some(values)
            },
    {
        match self.array {
            Some(_) => Err(StoreError::StateError),
            None => {
                self.array = Some(values);
                Ok(())
            },
        }
    }

    /// Read the raw word at a buffer-local index.
    pub fn read(&self, row: u32) -> (r: u64)
        requires
            self.is_set(),
            row < self.spec_len(),
        ensures
            r == self.raw()[row as int],
    {
        match &self.array {
            Some(v) => v.read_raw(row as usize),
            None => {
                proof {
                    assert(false);
                }
                0
            },
        }
    }
}

/// The scenario-aware read path: the single point at which overlay semantics
/// are enforced for queries.
#[derive(Debug)]
pub enum ChunkArrayReader<'a> {
    BaseReader { base_array: &'a ChunkArray },
    ScenarioReader {
        base_array: &'a ChunkArray,
        scenario_array: &'a ChunkArray,
        row_mapping: &'a RowMapping,
    },
}

impl<'a> ChunkArrayReader<'a> {
    pub open spec fn wf(self) -> bool {
        match self {
            ChunkArrayReader::BaseReader { base_array } => base_array.is_set() && base_array.wf(),
            ChunkArrayReader::ScenarioReader { base_array, scenario_array, row_mapping } => {
                &&& base_array.is_set() && base_array.wf()
                &&& scenario_array.is_set() && scenario_array.wf()
                &&& !row_mapping.is_identity()
                &&& forall|r: u32|
                    (#[trigger] row_mapping.spec_get(r)) is Some ==> row_mapping.spec_get(
                        r,
                    )->Some_0 < scenario_array.spec_len()
            },
        }
    }

    pub open spec fn spec_base(self) -> &'a ChunkArray {
        match self {
            ChunkArrayReader::BaseReader { base_array } => base_array,
            ChunkArrayReader::ScenarioReader { base_array, .. } => base_array,
        }
    }

    /// What a logical read at base row `row` resolves to: the overlay cell
    /// where the mapping has the row, the base cell otherwise.
    pub open spec fn spec_read(self, row: u32) -> u64 {
        match self {
            ChunkArrayReader::BaseReader { base_array } => base_array.raw()[row as int],
            ChunkArrayReader::ScenarioReader { base_array, scenario_array, row_mapping } => {
                match row_mapping.spec_get(row) {
                    Some(t) => scenario_array.raw()[t as int],
                    None => base_array.raw()[row as int],
                }
            },
        }
    }

    pub fn read(&self, row: u32) -> (r: u64)
        requires
            self.wf(),
            row < self.spec_base().spec_len(),
        ensures
            r == self.spec_read(row),
    {
        match self {
            ChunkArrayReader::BaseReader { base_array } => base_array.read(row),
            ChunkArrayReader::ScenarioReader { base_array, scenario_array, row_mapping } => {
                match row_mapping.get(row) {
                    Some(t) => scenario_array.read(t),
                    None => base_array.read(row),
                }
            },
        }
    }

    /// The schema data type of the field this reader serves.
    pub fn data_type(&self) -> (r: DataType)
        ensures
            r == self.spec_base().field.data_type,
    {
        match self {
            ChunkArrayReader::BaseReader { base_array } => base_array.field.data_type,
            ChunkArrayReader::ScenarioReader { base_array, .. } => base_array.field.data_type,
        }
    }

    /// A scenario reader returns the overlay value exactly when the row
    /// mapping has the row; elsewhere it falls through to the base value.
    pub proof fn lemma_read_resolves_through_mapping(self, row: u32)
        requires
            self.wf(),
            self matches ChunkArrayReader::ScenarioReader { .. },
        ensures
            (match self {
                ChunkArrayReader::ScenarioReader { base_array, scenario_array, row_mapping } => {
                    match row_mapping.spec_get(row) {
                        Some(t) => self.spec_read(row) == scenario_array.raw()[t as int],
                        None => self.spec_read(row) == base_array.raw()[row as int],
                    }
                },
                _ => true,
            }),
    {
    }
}

} // verus!
