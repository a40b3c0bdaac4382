//! Aggregators: per-measure accumulators bound to a scenario-aware source
//! reader and to a destination buffer shared across scenarios.
//!
//! The scenario dimension is part of the group key, so a slot belongs to one
//! `(scenario, coordinates...)` point; aggregators built for later scenarios
//! accumulate into the destination buffer of the first scenario's aggregator
//! for the same measure. The buffers live in an arena indexed by measure.
use vstd::prelude::*;

use crate::chunk_array::ChunkArrayReader;
use crate::types::{DataType, StoreError};

verus! {

/// Names the IEEE-754 sum of two 64-bit float bit patterns.
pub uninterp spec fn float64_add_bits(a: u64, b: u64) -> u64;

/// Relies on arrow's `sum` kernel over a two-element Float64 array: a single
/// IEEE-754 addition whose result depends on the two bit patterns alone.
#[verifier::external_body]
pub fn add_float64_bits(a: u64, b: u64) -> (r: u64)
    ensures
        r == float64_add_bits(a, b),
{
    let buf = arrow::buffer::Buffer::from_vec(vec![a, b]);
    let data = arrow::array::ArrayData::builder(arrow::datatypes::DataType::Float64)
        .len(2)
        .add_buffer(buf)
        .build()
        .unwrap();
    let array = arrow::array::Float64Array::from(data);
    arrow::compute::sum(&array).unwrap().to_bits()
}

/// The arena of destination buffers, one per measure, indexed by slot.
/// Unsigned sums are plain `u64` values; float sums are IEEE-754 bit
/// patterns.
pub struct AggregateBuffers {
    pub buffers: Vec<Vec<u64>>,
}

impl AggregateBuffers {
    pub fn new() -> (r: AggregateBuffers)
        ensures
            r.buffers@.len() == 0,
    {
        AggregateBuffers { buffers: Vec::new() }
    }
}

/// A typed SUM accumulator: reads its source through a scenario-aware
/// reader and adds into the destination buffer at its arena index.
pub struct Aggregator<'a> {
    pub source: ChunkArrayReader<'a>,
    pub destination_index: usize,
    pub field_name: String,
    pub destination_type: DataType,
}

impl<'a> Aggregator<'a> {
    /// The aggregator reads a `UInt32` source into a `UInt64` destination,
    /// or a `Float64` source into a `Float64` destination, and its arena
    /// index is in range.
    pub open spec fn wf(self, bufs: AggregateBuffers) -> bool {
        &&& self.source.wf()
        &&& self.destination_index < bufs.buffers@.len()
        &&& (self.destination_type == DataType::UInt64 && self.source.spec_base().field.data_type
            == DataType::UInt32) || (self.destination_type == DataType::Float64
            && self.source.spec_base().field.data_type == DataType::Float64)
    }

    /// How one source value joins the accumulated value: wrapping 64-bit
    /// addition for unsigned sums, IEEE-754 addition for float sums.
    pub open spec fn spec_combine(self, acc: u64, v: u64) -> u64 {
        if self.destination_type == DataType::Float64 {
            float64_add_bits(acc, v)
        } else {
            acc.wrapping_add(v)
        }
    }

    /// Grow the destination buffer to cover `destination_position`,
    /// zero-filling the new entries; other buffers are untouched.
    pub fn ensure_capacity(&self, bufs: &mut AggregateBuffers, destination_position: usize)
        requires
            self.wf(*old(bufs)),
            destination_position < usize::MAX,
        ensures
            self.wf(*final(bufs)),
            final(bufs).buffers@.len() == old(bufs).buffers@.len(),
            forall|j: int|
                0 <= j < old(bufs).buffers@.len() && j != self.destination_index ==> final(bufs).buffers@[j] == old(bufs).buffers@[j],
            ({
                let pre = old(bufs).buffers@[self.destination_index as int]@;
                let post = final(bufs).buffers@[self.destination_index as int]@;
                &&& post.len() >= destination_position + 1
                &&& post.len() >= pre.len()
                &&& post.len() == (if pre.len() >= destination_position + 1 {
                    pre.len()
                } else {
                    (destination_position + 1) as nat
                })
                &&& (pre.len() >= destination_position + 1 ==> post == pre)
                &&& forall|k: int| 0 <= k < pre.len() ==> post[k] == pre[k]
                &&& forall|k: int| pre.len() <= k < post.len() ==> post[k] == 0
            }),
    {
        let di = self.destination_index;
        while bufs.buffers[di].len() <= destination_position
            invariant
                di == self.destination_index,
                di < bufs.buffers@.len(),
                bufs.buffers@.len() == old(bufs).buffers@.len(),
                forall|j: int|
                    0 <= j < old(bufs).buffers@.len() && j != di ==> bufs.buffers@[j] == old(bufs).buffers@[j],
                destination_position < usize::MAX,
                bufs.buffers@[di as int]@.len() >= old(bufs).buffers@[di as int]@.len(),
                forall|k: int|
                    0 <= k < old(bufs).buffers@[di as int]@.len() ==> bufs.buffers@[di as int]@[k]
                        == old(bufs).buffers@[di as int]@[k],
                forall|k: int|
                    old(bufs).buffers@[di as int]@.len() <= k < bufs.buffers@[di as int]@.len()
                        ==> bufs.buffers@[di as int]@[k] == 0,
                bufs.buffers@[di as int]@.len() > destination_position ==> (old(bufs).buffers@[di as int]@.len() > destination_position ==> bufs.buffers@[di as int]
                    == old(bufs).buffers@[di as int]),
                bufs.buffers@[di as int]@.len() <= destination_position + 1 || bufs.buffers@[di as int]@.len() == old(bufs).buffers@[di as int]@.len(),
            decreases destination_position + 1 - bufs.buffers@[di as int]@.len(),
        {
            let buf = &mut bufs.buffers[di];
            buf.push(0);
        }
        proof {
            if old(bufs).buffers@[di as int]@.len() >= destination_position + 1 {
                assert(bufs.buffers@[di as int]@ =~= old(bufs).buffers@[di as int]@);
                assert(bufs.buffers@[di as int] == old(bufs).buffers@[di as int]);
            }
        }
    }

    /// Read the source at `source_position` and add it into the destination
    /// at `destination_position`; everything else is untouched.
    pub fn aggregate(&self, bufs: &mut AggregateBuffers, source_position: u32, destination_position: u32)
        requires
            self.wf(*old(bufs)),
            source_position < self.source.spec_base().spec_len(),
            destination_position < old(bufs).buffers@[self.destination_index as int]@.len(),
        ensures
            self.wf(*final(bufs)),
            final(bufs).buffers@.len() == old(bufs).buffers@.len(),
            forall|j: int|
                0 <= j < old(bufs).buffers@.len() && j != self.destination_index ==> final(bufs).buffers@[j] == old(bufs).buffers@[j],
            final(bufs).buffers@[self.destination_index as int]@ == old(bufs).buffers@[self.destination_index as int]@.update(
                destination_position as int,
                self.spec_combine(
                    old(bufs).buffers@[self.destination_index as int]@[destination_position as int],
                    self.source.spec_read(source_position),
                ),
            ),
    {
        let value = self.source.read(source_position);
        let di = self.destination_index;
        let slot = destination_position as usize;
        let acc = bufs.buffers[di][slot];
        let combined = if self.destination_type == DataType::Float64 {
            add_float64_bits(acc, value)
        } else {
            acc.wrapping_add(value)
        };
        let buf = &mut bufs.buffers[di];
        buf.set(slot, combined);
    }
}

/// Builds aggregators, allocating or sharing destination buffers.
pub struct AggregatorFactory {}

impl AggregatorFactory {
    pub fn new() -> (r: AggregatorFactory) {
        AggregatorFactory {  }
    }

    /// An aggregator for the first queried scenario: allocate a fresh,
    /// empty destination buffer in the arena. Only `UInt32` and `Float64`
    /// sources are supported; anything else is a `SchemaError`.
    pub fn create<'a>(
        &self,
        source: ChunkArrayReader<'a>,
        _aggregation_type: &str,
        destination_column_name: &str,
        bufs: &mut AggregateBuffers,
    ) -> (r: Result<Aggregator<'a>, StoreError>)
        requires
            source.wf(),
            old(bufs).buffers@.len() < usize::MAX,
        ensures
            match r {
                Ok(a) => {
                    &&& source.spec_base().field.data_type == DataType::UInt32
                        || source.spec_base().field.data_type == DataType::Float64
                    &&& a.wf(*final(bufs))
                    &&& a.source == source
                    &&& a.field_name@ == destination_column_name@
                    &&& a.destination_index == old(bufs).buffers@.len()
                    &&& a.destination_type == (if source.spec_base().field.data_type
                        == DataType::UInt32 {
                        DataType::UInt64
                    } else {
                        DataType::Float64
                    })
                    &&& final(bufs).buffers@ == old(bufs).buffers@.push(
                        final(bufs).buffers@.last(),
                    )
                    &&& final(bufs).buffers@.last()@ == Seq::<u64>::empty()
                },
                Err(e) => {
                    &&& e == StoreError::SchemaError
                    &&& source.spec_base().field.data_type != DataType::UInt32
                        && source.spec_base().field.data_type != DataType::Float64
                    &&& *final(bufs) == *old(bufs)
                },
            },
    {
        let dt = source.data_type();
        let destination_type = match dt {
            DataType::UInt32 => DataType::UInt64,
            DataType::Float64 => DataType::Float64,
            _ => {
                return Err(StoreError::SchemaError);
            },
        };
        let destination_index = bufs.buffers.len();
        bufs.buffers.push(Vec::new());
        Ok(
            Aggregator {
                source,
                destination_index,
                field_name: String::from_str(destination_column_name),
                destination_type,
            },
        )
    }

    /// An aggregator for a later scenario: share the destination buffer of
    /// the sibling built for the first scenario, so both accumulate into
    /// the same output column. The source must carry the same data type as
    /// the sibling's.
    pub fn create_with_destination<'a>(
        &self,
        source: ChunkArrayReader<'a>,
        aggregator: &Aggregator<'a>,
        _aggregation_type: &str,
    ) -> (r: Result<Aggregator<'a>, StoreError>)
        requires
            source.wf(),
        ensures
            match r {
                Ok(a) => {
                    &&& source.spec_base().field.data_type
                        == aggregator.source.spec_base().field.data_type
                    &&& source.spec_base().field.data_type == DataType::UInt32
                        || source.spec_base().field.data_type == DataType::Float64
                    &&& a.source == source
                    &&& a.destination_index == aggregator.destination_index
                    &&& a.field_name@ == aggregator.field_name@
                    &&& a.destination_type == aggregator.destination_type
                },
                Err(e) => {
                    &&& e == StoreError::SchemaError
                    &&& (source.spec_base().field.data_type
                        != aggregator.source.spec_base().field.data_type
                        || (source.spec_base().field.data_type != DataType::UInt32
                        && source.spec_base().field.data_type != DataType::Float64))
                },
            },
    {
        let dt = source.data_type();
        let sibling_dt = aggregator.source.data_type();
        if !(dt == sibling_dt) {
            return Err(StoreError::SchemaError);
        }
        match dt {
            DataType::UInt32 | DataType::Float64 => Ok(
                Aggregator {
                    source,
                    destination_index: aggregator.destination_index,
                    field_name: String::from_str(aggregator.field_name.as_str()),
                    destination_type: aggregator.destination_type,
                },
            ),
            _ => Err(StoreError::SchemaError),
        }
    }
}

} // verus!
