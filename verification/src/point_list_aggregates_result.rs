//! The result of a query: the point dictionary mapping each group-key tuple
//! to its row, the coordinate names and dictionaries, and one aggregate
//! column per measure.
use vstd::prelude::*;

use crate::aggregator::AggregateBuffers;
use crate::dictionary_provider::Dictionary;
use crate::point_dictionary::PointDictionary;
use crate::types::DataType;

verus! {

/// A tabular aggregation result: `point_dictionary` assigns each produced
/// point its row; `buffers` holds, per measure, the aggregate value of each
/// row. Unsigned sums are plain `u64` values; float sums are IEEE-754 bit
/// patterns.
pub struct PointListAggregateResult {
    pub point_dictionary: PointDictionary,
    pub point_names: Vec<String>,
    pub dictionaries: Vec<Dictionary>,
    pub aggregate_names: Vec<String>,
    pub destination_types: Vec<DataType>,
    pub buffers: AggregateBuffers,
}

impl PointListAggregateResult {
    pub open spec fn wf(self) -> bool {
        &&& self.point_dictionary.wf()
        &&& self.point_dictionary.point_length == self.point_names@.len()
        &&& self.dictionaries@.len() == self.point_names@.len()
        &&& forall|i: int| 0 <= i < self.dictionaries@.len() ==> (#[trigger] self.dictionaries@[i]).wf()
        &&& self.buffers.buffers@.len() == self.aggregate_names@.len()
        &&& self.destination_types@.len() == self.aggregate_names@.len()
        &&& forall|m: int|
            0 <= m < self.buffers.buffers@.len() ==> (#[trigger] self.buffers.buffers@[m])@.len()
                == self.point_dictionary@.len()
    }

    pub fn new(
        point_dictionary: PointDictionary,
        point_names: Vec<String>,
        dictionaries: Vec<Dictionary>,
        aggregate_names: Vec<String>,
        destination_types: Vec<DataType>,
        buffers: AggregateBuffers,
    ) -> (r: PointListAggregateResult)
        ensures
            r.point_dictionary == point_dictionary,
            r.point_names == point_names,
            r.dictionaries == dictionaries,
            r.aggregate_names == aggregate_names,
            r.destination_types == destination_types,
            r.buffers == buffers,
    {
        PointListAggregateResult {
            point_dictionary,
            point_names,
            dictionaries,
            aggregate_names,
            destination_types,
            buffers,
        }
    }

    /// The number of result rows: one per produced point.
    pub fn size(&self) -> (r: usize)
        ensures
            r == self.point_dictionary@.len(),
    {
        self.point_dictionary.size()
    }

    /// The codes of a coordinate tuple, translated through the per-position
    /// dictionaries; meaningful when every value is present.
    pub open spec fn spec_coord_codes(self, cs: Seq<Seq<char>>) -> Seq<u32> {
        Seq::new(cs.len(), |i: int| self.dictionaries@[i].spec_position(cs[i]) as u32)
    }

    /// Whether the result holds a row for the coordinate tuple, with every
    /// aggregate of that row equal to `expected` (a plain value for
    /// unsigned sums, an IEEE-754 bit pattern for float sums).
    ///
    /// `false` exactly when a coordinate value is unknown to its
    /// dictionary, the tuple has the wrong arity, the point was never
    /// produced, or some aggregate differs.
    pub fn assert_aggregate(&self, coordinates: Vec<&str>, expected: u64) -> (r: bool)
        requires
            self.wf(),
        ensures
            r == ({
                let cs = coordinates@.map_values(|c: &str| c@);
                &&& cs.len() == self.point_names@.len()
                &&& (forall|i: int|
                    0 <= i < cs.len() ==> (#[trigger] self.dictionaries@[i])@.contains(cs[i]))
                &&& self.point_dictionary@.contains(self.spec_coord_codes(cs))
                &&& (forall|m: int|
                    0 <= m < self.buffers.buffers@.len() ==> (
                    #[trigger] self.buffers.buffers@[m])@[self.point_dictionary.spec_position(
                        self.spec_coord_codes(cs),
                    )] == expected)
            }),
    {
        let ghost cs = coordinates@.map_values(|c: &str| c@);
        if coordinates.len() != self.point_names.len() {
            return false;
        }
        let mut buffer: Vec<u32> = Vec::new();
        let mut i: usize = 0;
        while i < coordinates.len()
            invariant
                i <= coordinates@.len(),
                cs == coordinates@.map_values(|c: &str| c@),
                cs.len() == coordinates@.len(),
                self.wf(),
                coordinates@.len() == self.point_names@.len(),
                buffer@.len() == i,
                forall|j: int|
                    0 <= j < i ==> (#[trigger] self.dictionaries@[j])@.contains(cs[j])
                        && buffer@[j] == self.spec_coord_codes(cs)[j],
            decreases coordinates@.len() - i,
        {
            match self.dictionaries[i].get_position(coordinates[i]) {
                Some(code) => {
                    buffer.push(code);
                },
                None => {
                    return false;
                },
            }
            i = i + 1;
        }
        proof {
            assert(buffer@ =~= self.spec_coord_codes(cs));
        }
        match self.point_dictionary.get_position(&buffer) {
            None => false,
            Some(row) => {
                let mut m: usize = 0;
                while m < self.buffers.buffers.len()
                    invariant
                        m <= self.buffers.buffers@.len(),
                        self.wf(),
                        cs == coordinates@.map_values(|c: &str| c@),
                        cs.len() == self.point_names@.len(),
                        forall|j: int|
                            0 <= j < cs.len() ==> (#[trigger] self.dictionaries@[j])@.contains(
                                cs[j],
                            ),
                        buffer@ == self.spec_coord_codes(cs),
                        self.point_dictionary@.contains(buffer@),
                        (row as int) == self.point_dictionary.spec_position(buffer@),
                        row < self.point_dictionary@.len(),
                        forall|j: int|
                            0 <= j < m ==> (#[trigger] self.buffers.buffers@[j])@[row as int]
                                == expected,
                    decreases self.buffers.buffers@.len() - m,
                {
                    if self.buffers.buffers[m][row as usize] != expected {
                        return false;
                    }
                    m = m + 1;
                }
                true
            },
        }
    }
}

} // verus!
