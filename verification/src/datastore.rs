//! The scenario-aware columnar store: schema, dictionaries, one column and
//! one row mapping per (scenario, field), and the primary-key index.
use std::collections::HashMap;
use vstd::prelude::*;

use crate::chunk_array::{ChunkArray, ChunkArrayReader, ColumnValues};
use crate::dictionary_provider::{dict_extend, lemma_dict_extend_prefix, Dictionary, DictionaryProvider};
use crate::row_mapping::RowMapping;
use crate::types::{BatchColumn, DataType, Field, RecordBatch, Schema, StoreError};

verus! {

broadcast use vstd::std_specs::hash::group_hash_axioms;

/// The first index of `v` in `d`, meaningful when `d` contains `v`.
pub open spec fn seq_position(d: Seq<Seq<char>>, v: Seq<char>) -> int {
    choose|i: int| 0 <= i < d.len() && d[i] == v
}

/// In a duplicate-free dictionary, any index holding `v` is the position of
/// `v`.
pub proof fn lemma_seq_position_unique(d: Seq<Seq<char>>, v: Seq<char>, i: int)
    requires
        forall|a: int, b: int| 0 <= a < b < d.len() ==> d[a] != d[b],
        0 <= i < d.len(),
        d[i] == v,
    ensures
        seq_position(d, v) == i,
{
    let k = seq_position(d, v);
    assert(0 <= k < d.len() && d[k] == v);
    if k < i {
        assert(d[k] != d[i]);
    } else if i < k {
        assert(d[i] != d[k]);
    }
}

/// The codes a dictionary `d` assigns to the values `vs`, as raw words.
pub open spec fn spec_code_seq(d: Seq<Seq<char>>, vs: Seq<Seq<char>>) -> Seq<u64> {
    Seq::new(vs.len(), |i: int| seq_position(d, vs[i]) as u64)
}

/// The batch indices, among the first `k`, whose value differs from the base
/// cell at their resolved base row — in batch order.
pub open spec fn diff_prefix(base: Seq<u64>, rows: Seq<u32>, vals: Seq<u64>, k: int) -> Seq<u32>
    decreases k,
{
    if k <= 0 {
        Seq::<u32>::empty()
    } else {
        let prev = diff_prefix(base, rows, vals, k - 1);
        if vals[k - 1] != base[rows[k - 1] as int] {
            prev.push((k - 1) as u32)
        } else {
            prev
        }
    }
}

/// Every differing index is in range, in strictly increasing order, and its
/// value really differs from its base cell.
pub proof fn lemma_diff_prefix_props(base: Seq<u64>, rows: Seq<u32>, vals: Seq<u64>, k: int)
    requires
        0 <= k <= u32::MAX as int,
    ensures
        diff_prefix(base, rows, vals, k).len() <= k,
        forall|p: int|
            0 <= p < diff_prefix(base, rows, vals, k).len() ==> 0 <= (#[trigger] diff_prefix(
                base,
                rows,
                vals,
                k,
            )[p]) < k && vals[diff_prefix(base, rows, vals, k)[p] as int] != base[rows[diff_prefix(
                base,
                rows,
                vals,
                k,
            )[p] as int] as int],
        forall|p: int, q: int|
            0 <= p < q < diff_prefix(base, rows, vals, k).len() ==> diff_prefix(
                base,
                rows,
                vals,
                k,
            )[p] < diff_prefix(base, rows, vals, k)[q],
    decreases k,
{
    if k > 0 {
        lemma_diff_prefix_props(base, rows, vals, k - 1);
        let prev = diff_prefix(base, rows, vals, k - 1);
        let cur = diff_prefix(base, rows, vals, k);
        if vals[k - 1] != base[rows[k - 1] as int] {
            assert(cur == prev.push((k - 1) as u32));
            assert(cur[cur.len() - 1] == (k - 1) as u32);
            assert(forall|p: int| 0 <= p < prev.len() ==> cur[p] == prev[p]);
            assert(forall|p: int| 0 <= p < prev.len() ==> prev[p] < k - 1);
        }
    }
}

/// A batch whose cells all equal their base cells has no differing index.
pub proof fn lemma_diff_prefix_empty(base: Seq<u64>, rows: Seq<u32>, vals: Seq<u64>, k: int)
    requires
        forall|i: int| 0 <= i < k ==> vals[i] == base[#[trigger] rows[i] as int],
    ensures
        diff_prefix(base, rows, vals, k).len() == 0,
    decreases k,
{
    if k > 0 {
        lemma_diff_prefix_empty(base, rows, vals, k - 1);
    }
}

/// Copy a vector of plain values.
fn copy_vec<T: Copy>(v: &Vec<T>) -> (r: Vec<T>)
    ensures
        r@ == v@,
{
    let mut r: Vec<T> = Vec::new();
    let mut i: usize = 0;
    while i < v.len()
        invariant
            i <= v@.len(),
            r@ == v@.take(i as int),
        decreases v@.len() - i,
    {
        r.push(v[i]);
        proof {
            assert(r@ =~= v@.take(i + 1));
        }
        i = i + 1;
    }
    proof {
        assert(v@.take(v@.len() as int) =~= v@);
    }
    r
}

/// Copy a vector of dictionary codes.
pub fn copy_codes(v: &Vec<u32>) -> (r: Vec<u32>)
    ensures
        r@ == v@,
{
    copy_vec(v)
}

/// The typed column values of a non-string batch column.
fn batch_col_to_values(col: &BatchColumn) -> (r: ColumnValues)
    requires
        !(col is Utf8),
    ensures
        r.spec_data_type() == col.spec_data_type(),
        r.raw() == col.raw(),
        r.spec_len() == col.spec_len(),
        col is Int64 ==> r is Int64 && r->Int64_0@ == col->Int64_0@,
{
    match col {
        BatchColumn::UInt32(v) => ColumnValues::UInt32(copy_vec(v)),
        BatchColumn::UInt64(v) => ColumnValues::UInt64(copy_vec(v)),
        BatchColumn::Int64(v) => ColumnValues::Int64(copy_vec(v)),
        BatchColumn::Float64Bits(v) => ColumnValues::Float64Bits(copy_vec(v)),
        BatchColumn::Utf8(_) => unreached(),
    }
}

/// The name of the main scenario, the one materialised in full.
pub open spec fn spec_main_scenario_name() -> Seq<char> {
    "base"@
}

/// The name of the virtual field that carries the scenario coordinate.
pub open spec fn spec_scenario_field_name() -> Seq<char> {
    "scenario"@
}

/// The name of the main scenario, the one materialised in full.
pub fn main_scenario_name() -> (r: &'static str)
    ensures
        r@ == spec_main_scenario_name(),
{
    "base"
}

/// The name of the virtual field that carries the scenario coordinate.
pub fn scenario_field_name() -> (r: &'static str)
    ensures
        r@ == spec_scenario_field_name(),
{
    "scenario"
}

/// The default chunk size handed to stores built by tests and demos.
pub const CHUNK_DEFAULT_SIZE: usize = 4;

/// The base row that a sparse mapping sends to overlay position `t`,
/// meaningful when some row maps there.
pub open spec fn spec_source_of(pairs: Map<u32, u32>, t: u32) -> u32 {
    choose|r: u32| pairs.contains_key(r) && pairs[r] == t
}

/// The primary keys of a batch, in row order.
pub open spec fn spec_batch_keys(batch: RecordBatch, key_index: int) -> Seq<i64> {
    batch.columns@[key_index]->Int64_0@
}

/// The key column of a batch.
fn key_column<'a>(batch: &'a RecordBatch, key_index: usize) -> (r: &'a Vec<i64>)
    requires
        key_index < batch.columns@.len(),
        batch.columns@[key_index as int] is Int64,
    ensures
        r@ == spec_batch_keys(*batch, key_index as int),
{
    match &batch.columns[key_index] {
        BatchColumn::Int64(v) => v,
        _ => unreached(),
    }
}

/// Whether two equal keys occur; `true` exactly when they do.
fn has_duplicate_keys(keys: &Vec<i64>) -> (r: bool)
    ensures
        r == exists|i: int, j: int| 0 <= i < j < keys@.len() && keys@[i] == keys@[j],
{
    let mut i: usize = 0;
    while i < keys.len()
        invariant
            i <= keys@.len(),
            forall|a: int, b: int| 0 <= a < b < keys@.len() && a < i ==> keys@[a] != keys@[b],
        decreases keys@.len() - i,
    {
        let mut j: usize = i + 1;
        while j < keys.len()
            invariant
                i < j <= keys@.len(),
                forall|b: int| i < b < j ==> keys@[i as int] != keys@[b],
            decreases keys@.len() - j,
        {
            if keys[i] == keys[j] {
                return true;
            }
            j = j + 1;
        }
        i = i + 1;
    }
    false
}

/// Gather the cells of `vals` at the indices `kept`, in order.
fn gather(vals: &ColumnValues, kept: &Vec<u32>) -> (r: ColumnValues)
    requires
        forall|p: int| 0 <= p < kept@.len() ==> (#[trigger] kept@[p]) < vals.spec_len(),
    ensures
        r.spec_data_type() == vals.spec_data_type(),
        r.spec_len() == kept@.len(),
        forall|p: int| 0 <= p < kept@.len() ==> r.raw()[p] == vals.raw()[#[trigger] kept@[p] as int],
{
    match vals {
        ColumnValues::UInt32(v) => ColumnValues::UInt32(gather_vec(v, kept)),
        ColumnValues::UInt64(v) => ColumnValues::UInt64(gather_vec(v, kept)),
        ColumnValues::Int64(v) => ColumnValues::Int64(gather_vec(v, kept)),
        ColumnValues::Float64Bits(v) => ColumnValues::Float64Bits(gather_vec(v, kept)),
    }
}

fn gather_vec<T: Copy>(v: &Vec<T>, kept: &Vec<u32>) -> (r: Vec<T>)
    requires
        forall|p: int| 0 <= p < kept@.len() ==> (#[trigger] kept@[p]) < v@.len(),
    ensures
        r@.len() == kept@.len(),
        forall|p: int| 0 <= p < kept@.len() ==> r@[p] == v@[#[trigger] kept@[p] as int],
{
    let mut r: Vec<T> = Vec::new();
    let mut p: usize = 0;
    while p < kept.len()
        invariant
            p <= kept@.len(),
            r@.len() == p,
            forall|q: int| 0 <= q < kept@.len() ==> (#[trigger] kept@[q]) < v@.len(),
            forall|q: int| 0 <= q < p ==> r@[q] == v@[#[trigger] kept@[q] as int],
        decreases kept@.len() - p,
    {
        r.push(v[kept[p] as usize]);
        p = p + 1;
    }
    r
}

/// Find the batch indices whose value differs from the base cell at their
/// resolved base row, and record the sparse mapping from each such base row
/// to the position its cell will take in the packed overlay column.
fn diff_rows(base: &ColumnValues, vals: &ColumnValues, rows: &Vec<u32>) -> (r: (
    Vec<u32>,
    RowMapping,
))
    requires
        vals.spec_len() == rows@.len(),
        rows@.len() <= u32::MAX as int,
        forall|i: int| 0 <= i < rows@.len() ==> (#[trigger] rows@[i]) < base.spec_len(),
        forall|i: int, j: int| 0 <= i < j < rows@.len() ==> rows@[i] != rows@[j],
    ensures
        ({
            let kept = r.0;
            let m = r.1;
            let n = rows@.len() as int;
            &&& kept@ == diff_prefix(base.raw(), rows@, vals.raw(), n)
            &&& forall|p: int, q: int| 0 <= p < q < kept@.len() ==> kept@[p] < kept@[q]
            &&& forall|p: int|
                0 <= p < kept@.len() ==> (#[trigger] kept@[p]) < n && vals.raw()[kept@[p] as int]
                    != base.raw()[rows@[kept@[p] as int] as int]
            &&& !m.is_identity()
            &&& forall|p: int|
                0 <= p < kept@.len() ==> m.sparse_pairs().contains_key(
                    #[trigger] rows@[kept@[p] as int],
                ) && m.sparse_pairs()[rows@[kept@[p] as int]] == p as u32
            &&& forall|x: u32|
                m.sparse_pairs().contains_key(x) ==> exists|p: int|
                    0 <= p < kept@.len() && x == #[trigger] rows@[kept@[p] as int]
        }),
{
    let n = rows.len();
    let mut kept: Vec<u32> = Vec::new();
    let mut mapping = RowMapping::new_sparse();
    let mut i: usize = 0;
    while i < n
        invariant
            i <= n,
            n == rows@.len(),
            vals.spec_len() == rows@.len(),
            rows@.len() <= u32::MAX as int,
            forall|a: int| 0 <= a < rows@.len() ==> (#[trigger] rows@[a]) < base.spec_len(),
            forall|a: int, b: int| 0 <= a < b < rows@.len() ==> rows@[a] != rows@[b],
            kept@ == diff_prefix(base.raw(), rows@, vals.raw(), i as int),
            forall|p: int, q: int| 0 <= p < q < kept@.len() ==> kept@[p] < kept@[q],
            forall|p: int| 0 <= p < kept@.len() ==> (#[trigger] kept@[p]) < i,
            forall|p: int|
                0 <= p < kept@.len() ==> vals.raw()[#[trigger] kept@[p] as int]
                    != base.raw()[rows@[kept@[p] as int] as int],
            !mapping.is_identity(),
            forall|p: int|
                0 <= p < kept@.len() ==> mapping.sparse_pairs().contains_key(
                    #[trigger] rows@[kept@[p] as int],
                ) && mapping.sparse_pairs()[rows@[kept@[p] as int]] == p as u32,
            forall|x: u32|
                mapping.sparse_pairs().contains_key(x) ==> exists|p: int|
                    0 <= p < kept@.len() && x == #[trigger] rows@[kept@[p] as int],
        decreases n - i,
    {
        let bv = base.read_raw(rows[i] as usize);
        let ov = vals.read_raw(i);
        if ov != bv {
            let cursor = kept.len() as u32;
            let ghost kept0 = kept@;
            let ghost pairs0 = mapping.sparse_pairs();
            proof {
                if pairs0.contains_key(rows@[i as int]) {
                    let p = choose|p: int|
                        0 <= p < kept0.len() && rows@[i as int] == rows@[kept0[p] as int];
                    assert(kept0[p] < i);
                    assert(rows@[kept0[p] as int] != rows@[i as int]);
                }
            }
            let res = mapping.map(rows[i], cursor);
            match res {
                Ok(()) => (),
                Err(_) => {
                    proof {
                        assert(false);
                    }
                },
            }
            kept.push(i as u32);
            proof {
                assert(kept@ == kept0.push(i as u32));
                assert(mapping.sparse_pairs() == pairs0.insert(rows@[i as int], cursor));
                assert forall|x: u32| mapping.sparse_pairs().contains_key(x) implies exists|p: int|
                    0 <= p < kept@.len() && x == rows@[#[trigger] kept@[p] as int] by {
                    if x == rows@[i as int] {
                        assert(kept@[kept@.len() - 1] == i as u32);
                        assert(x == rows@[kept@[kept@.len() - 1] as int]);
                    } else {
                        assert(pairs0.contains_key(x));
                        let p = choose|p: int| 0 <= p < kept0.len() && x == rows@[kept0[p] as int];
                        assert(kept@[p] == kept0[p]);
                        assert(x == rows@[kept@[p] as int]);
                    }
                }
            }
        }
        i = i + 1;
    }
    proof {
        assert(kept@ =~= diff_prefix(base.raw(), rows@, vals.raw(), rows@.len() as int));
    }
    (kept, mapping)
}

/// Build the primary-key index of a base batch: key value to row index.
fn build_primary_index(keys: &Vec<i64>) -> (pi: HashMap<i64, u64>)
    requires
        forall|i: int, j: int| 0 <= i < j < keys@.len() ==> keys@[i] != keys@[j],
        keys@.len() <= u32::MAX as int,
    ensures
        forall|r: int|
            0 <= r < keys@.len() ==> pi@.contains_key(#[trigger] keys@[r]) && pi@[keys@[r]]
                == r as u64,
        forall|k: i64|
            pi@.contains_key(k) ==> exists|r: int| 0 <= r < keys@.len() && #[trigger] keys@[r] == k,
{
    let mut pi: HashMap<i64, u64> = HashMap::new();
    let mut r: usize = 0;
    while r < keys.len()
        invariant
            r <= keys@.len(),
            keys@.len() <= u32::MAX as int,
            forall|i: int, j: int| 0 <= i < j < keys@.len() ==> keys@[i] != keys@[j],
            forall|a: int|
                0 <= a < r ==> pi@.contains_key(#[trigger] keys@[a]) && pi@[keys@[a]] == a as u64,
            forall|k: i64|
                pi@.contains_key(k) ==> exists|a: int| 0 <= a < r && #[trigger] keys@[a] == k,
        decreases keys@.len() - r,
    {
        let ghost pre = pi@;
        pi.insert(keys[r], r as u64);
        proof {
            assert forall|k: i64| pi@.contains_key(k) implies exists|a: int|
                0 <= a < r + 1 && #[trigger] keys@[a] == k by {
                if k == keys@[r as int] {
                    assert(keys@[r as int] == k);
                } else {
                    assert(pre.contains_key(k));
                }
            }
            assert forall|a: int| 0 <= a < r + 1 implies pi@.contains_key(#[trigger] keys@[a])
                && pi@[keys@[a]] == a as u64 by {
                if a < r {
                    assert(keys@[a] != keys@[r as int]);
                }
            }
        }
        r = r + 1;
    }
    pi
}

impl Store {
    /// Resolve each overlay key to its base row; `Some` exactly when every
    /// key is known to the base scenario.
    fn resolve_rows(&self, keys: &Vec<i64>) -> (r: Option<Vec<u32>>)
        requires
            self.wf(),
            self.is_loaded(),
        ensures
            match r {
                Some(rows) => {
                    &&& rows@.len() == keys@.len()
                    &&& forall|i: int|
                        0 <= i < keys@.len() ==> self.primary_index@.contains_key(
                            #[trigger] keys@[i],
                        ) && rows@[i] as u64 == self.primary_index@[keys@[i]]
                    &&& forall|i: int| 0 <= i < keys@.len() ==> (#[trigger] rows@[i]) < self.row_count
                },
                None => exists|i: int|
                    0 <= i < keys@.len() && !self.primary_index@.contains_key(#[trigger] keys@[i]),
            },
    {
        let mut rows: Vec<u32> = Vec::new();
        let mut i: usize = 0;
        while i < keys.len()
            invariant
                self.wf(),
                self.is_loaded(),
                i <= keys@.len(),
                rows@.len() == i,
                forall|a: int|
                    0 <= a < i ==> self.primary_index@.contains_key(#[trigger] keys@[a])
                        && rows@[a] as u64 == self.primary_index@[keys@[a]],
                forall|a: int| 0 <= a < i ==> (#[trigger] rows@[a]) < self.row_count,
            decreases keys@.len() - i,
        {
            match self.primary_index.get(&keys[i]) {
                Some(row) => {
                    let row_val: u64 = *row;
                    proof {
                        let k = keys@[i as int];
                        assert(self.primary_index@.contains_key(k));
                        let witness = choose|a: int|
                            0 <= a < self.row_count && #[trigger] self.spec_key_at(a) == k;
                        assert(self.primary_index@[self.spec_key_at(witness)] == witness as u64);
                        assert(row_val < self.row_count);
                    }
                    rows.push(row_val as u32);
                },
                None => {
                    return None;
                },
            }
            i = i + 1;
        }
        Some(rows)
    }

    /// Two distinct keys in the primary index point at distinct base rows,
    /// so distinct overlay keys resolve to distinct base rows.
    pub proof fn lemma_primary_index_injective(self, k1: i64, k2: i64)
        requires
            self.wf(),
            self.is_loaded(),
            self.primary_index@.contains_key(k1),
            self.primary_index@.contains_key(k2),
            k1 != k2,
        ensures
            self.primary_index@[k1] != self.primary_index@[k2],
    {
        let r1 = choose|r: int| 0 <= r < self.row_count && #[trigger] self.spec_key_at(r) == k1;
        let r2 = choose|r: int| 0 <= r < self.row_count && #[trigger] self.spec_key_at(r) == k2;
        assert(self.primary_index@[k1] == r1 as u64);
        assert(self.primary_index@[k2] == r2 as u64);
        if r1 < r2 {
            assert(self.spec_key_at(r1) != self.spec_key_at(r2));
        } else if r2 < r1 {
            assert(self.spec_key_at(r2) != self.spec_key_at(r1));
        }
    }
}

/// The columnar store with overlay semantics.
///
/// Scenario codes index the outer vectors; code 0 is the base scenario. For
/// the base, every field has a column covering every row and an identity
/// mapping. For an overlay, a field has a column exactly when at least one
/// of its cells differs from the base; the column holds only those cells,
/// packed densely, and the sparse mapping sends each differing base row to
/// its cell.
#[derive(Debug)]
pub struct Store {
    pub schema: Schema,
    pub key_indices: Vec<u32>,
    pub array_size: u32,
    pub row_count: u64,
    pub vector_by_field_by_scenario: Vec<Vec<Option<ChunkArray>>>,
    pub row_mapping_by_field_by_scenario: Vec<Vec<Option<RowMapping>>>,
    pub dictionary_provider: DictionaryProvider,
    pub primary_index: HashMap<i64, u64>,
}

impl Store {
    pub open spec fn key_index(self) -> int {
        self.key_indices@[0] as int
    }

    pub open spec fn num_scenarios(self) -> nat {
        self.vector_by_field_by_scenario@.len()
    }

    /// A store is loaded once the base scenario is in.
    pub open spec fn is_loaded(self) -> bool {
        self.num_scenarios() > 0
    }

    /// The scenario dictionary: scenario names in code order.
    pub open spec fn scenario_dict(self) -> Seq<Seq<char>> {
        self.dictionary_provider.spec_dict(spec_scenario_field_name())
    }

    /// The column for scenario `s` and field `f`, if that pair has one.
    pub open spec fn col(self, s: int, f: int) -> Option<ChunkArray> {
        self.vector_by_field_by_scenario@[s]@[f]
    }

    /// The row mapping for scenario `s` and field `f`, if that pair has one.
    pub open spec fn mapping(self, s: int, f: int) -> Option<RowMapping> {
        self.row_mapping_by_field_by_scenario@[s]@[f]
    }

    /// The raw words of the base column of field `f`.
    pub open spec fn base_raw(self, f: int) -> Seq<u64> {
        self.col(0, f)->Some_0.raw()
    }

    /// The primary key stored at base row `r`.
    pub open spec fn spec_key_at(self, r: int) -> i64 {
        self.col(0, self.key_index())->Some_0.array->Some_0->Int64_0@[r]
    }

    /// The dictionary contents for field name `n`.
    pub open spec fn spec_dict_of(self, n: Seq<char>) -> Seq<Seq<char>> {
        self.dictionary_provider.spec_dict(n)
    }

    /// Structural well-formedness of the schema-level configuration.
    pub open spec fn wf_config(self) -> bool {
        &&& self.schema.wf()
        &&& self.key_indices@.len() == 1
        &&& 0 <= self.key_index() < self.schema.len()
        &&& self.schema.fields@[self.key_index()].data_type == DataType::Int64
        &&& ChunkArray::spec_is_power_of_two(self.array_size)
        &&& self.dictionary_provider.wf()
        &&& self.row_mapping_by_field_by_scenario@.len() == self.num_scenarios()
        &&& self.row_count <= u32::MAX as u64
    }

    /// The base scenario covers every field in full, under identity mappings.
    pub open spec fn wf_base(self) -> bool {
        &&& self.scenario_dict().len() == self.num_scenarios()
        &&& self.scenario_dict()[0] == spec_main_scenario_name()
        &&& forall|s: int|
            0 <= s < self.num_scenarios() ==> (#[trigger] self.vector_by_field_by_scenario@[s])@.len()
                == self.schema.len()
        &&& forall|s: int|
            0 <= s < self.num_scenarios()
                ==> (#[trigger] self.row_mapping_by_field_by_scenario@[s])@.len()
                == self.schema.len()
        &&& forall|f: int|
            0 <= f < self.schema.len() ==> {
                let c = (#[trigger] self.col(0, f))->Some_0;
                &&& self.col(0, f) is Some
                &&& c.is_set()
                &&& c.wf()
                &&& c.field.data_type == self.schema.fields@[f].data_type
                &&& c.spec_len() == self.row_count
            }
        &&& forall|f: int|
            0 <= f < self.schema.len() ==> (#[trigger] self.mapping(0, f)) is Some && self.mapping(
                0,
                f,
            )->Some_0.is_identity()
    }

    /// Every overlay column is the dense pack of its differing cells: the
    /// sparse mapping is injective from differing base rows onto exactly the
    /// positions of the column, and every stored cell differs from the base
    /// cell at its mapped base row.
    pub open spec fn wf_overlay_at(self, s: int, f: int) -> bool {
        &&& (self.col(s, f) is Some <==> self.mapping(s, f) is Some)
        &&& (self.col(s, f) is Some ==> {
            let c = self.col(s, f)->Some_0;
            let m = self.mapping(s, f)->Some_0;
            let pairs = m.sparse_pairs();
            &&& c.is_set()
            &&& c.wf()
            &&& c.field.data_type == self.schema.fields@[f].data_type
            &&& 0 < c.spec_len()
            &&& !m.is_identity()
            &&& forall|r: u32| pairs.contains_key(r) ==> r < self.row_count
            &&& forall|r: u32| pairs.contains_key(r) ==> (#[trigger] pairs[r]) < c.spec_len()
            &&& forall|r1: u32, r2: u32|
                pairs.contains_key(r1) && pairs.contains_key(r2) && r1 != r2 ==> (
                #[trigger] pairs[r1]) != (#[trigger] pairs[r2])
            &&& forall|t: u32|
                #![trigger spec_source_of(pairs, t)]
                t < c.spec_len() ==> pairs.contains_key(spec_source_of(pairs, t)) && pairs[
                    spec_source_of(pairs, t)
                ] == t
            &&& forall|r: u32|
                pairs.contains_key(r) ==> c.raw()[(#[trigger] pairs[r]) as int]
                    != self.base_raw(f)[r as int]
        })
    }

    pub open spec fn wf_overlays(self) -> bool {
        forall|s: int, f: int|
            1 <= s < self.num_scenarios() && 0 <= f < self.schema.len()
                ==> #[trigger] self.wf_overlay_at(s, f)
    }

    /// Dictionary coherence: every string field has a dictionary, and every
    /// stored code is assigned in it.
    pub open spec fn wf_dicts(self) -> bool {
        &&& self.dictionary_provider.spec_has_dict(spec_scenario_field_name())
        &&& forall|f: int|
            0 <= f < self.schema.len() && self.schema.fields@[f].data_type == DataType::Utf8
                ==> self.dictionary_provider.spec_has_dict(#[trigger] self.schema.names()[f])
        &&& forall|s: int, f: int|
            0 <= s < self.num_scenarios() && 0 <= f < self.schema.len()
                && self.schema.fields@[f].data_type == DataType::Utf8 && #[trigger] self.col(
                s,
                f,
            ) is Some ==> forall|i: int|
                0 <= i < self.col(s, f)->Some_0.raw().len() ==> #[trigger] self.col(
                    s,
                    f,
                )->Some_0.raw()[i] < self.spec_dict_of(self.schema.names()[f]).len()
    }

    /// The primary-key index inverts the base key column exactly.
    pub open spec fn wf_keys(self) -> bool {
        &&& forall|r: int|
            0 <= r < self.row_count ==> self.primary_index@.contains_key(
                #[trigger] self.spec_key_at(r),
            ) && self.primary_index@[self.spec_key_at(r)] == r as u64
        &&& forall|k: i64|
            self.primary_index@.contains_key(k) ==> exists|r: int|
                0 <= r < self.row_count && #[trigger] self.spec_key_at(r) == k
        &&& forall|r1: int, r2: int|
            0 <= r1 < r2 < self.row_count ==> #[trigger] self.spec_key_at(r1)
                != #[trigger] self.spec_key_at(r2)
    }

    /// The empty state, before the base scenario is loaded.
    pub open spec fn wf_empty(self) -> bool {
        &&& self.row_count == 0
        &&& self.dictionary_provider.names@.len() == 0
        &&& self.primary_index@ == Map::<i64, u64>::empty()
    }

    pub open spec fn wf(self) -> bool {
        &&& self.wf_config()
        &&& if self.is_loaded() {
            self.wf_base() && self.wf_overlays() && self.wf_dicts() && self.wf_keys()
        } else {
            self.wf_empty()
        }
    }

    /// An empty store for the given schema. `key_indices` names the single
    /// primary-key field, which must be of type `Int64`; `array_size` is the
    /// configured chunk size and must be a power of two.
    pub fn new(schema: Schema, key_indices: Vec<u32>, array_size: u32) -> (r: Store)
        requires
            schema.wf(),
            key_indices@.len() == 1,
            0 <= key_indices@[0] < schema.len(),
            schema.fields@[key_indices@[0] as int].data_type == DataType::Int64,
            ChunkArray::spec_is_power_of_two(array_size),
        ensures
            r.wf(),
            !r.is_loaded(),
            r.schema == schema,
            r.key_indices == key_indices,
            r.array_size == array_size,
    {
        Store {
            schema,
            key_indices,
            array_size,
            row_count: 0,
            vector_by_field_by_scenario: Vec::new(),
            row_mapping_by_field_by_scenario: Vec::new(),
            dictionary_provider: DictionaryProvider::new(),
            primary_index: HashMap::new(),
        }
    }

    /// What a base load leaves behind: the batch materialised in full under
    /// scenario code 0, fresh per-field dictionaries, and the primary-key
    /// index inverting the key column.
    pub open spec fn spec_base_load(pre: Store, batch: RecordBatch, post: Store) -> bool {
        let n = batch.spec_rows() as int;
        let keys = spec_batch_keys(batch, pre.key_index());
        &&& post.schema == pre.schema
        &&& post.key_indices == pre.key_indices
        &&& post.array_size == pre.array_size
        &&& post.row_count == n
        &&& post.num_scenarios() == 1
        &&& post.scenario_dict() == seq![spec_main_scenario_name()]
        &&& forall|f: int|
            0 <= f < pre.schema.len() ==> (#[trigger] post.col(0, f)) is Some && post.col(
                0,
                f,
            )->Some_0.is_set()
        &&& forall|f: int|
            0 <= f < pre.schema.len() && pre.schema.fields@[f].data_type == DataType::Utf8
                ==> (#[trigger] post.col(0, f))->Some_0.raw() == spec_code_seq(
                post.spec_dict_of(pre.schema.names()[f]),
                batch.columns@[f].strings(),
            )
        &&& forall|f: int|
            0 <= f < pre.schema.len() && pre.schema.fields@[f].data_type != DataType::Utf8
                ==> (#[trigger] post.col(0, f))->Some_0.raw() == batch.columns@[f].raw()
        &&& forall|f: int|
            0 <= f < pre.schema.len() && pre.schema.fields@[f].data_type == DataType::Utf8
                ==> post.spec_dict_of(#[trigger] pre.schema.names()[f]) == dict_extend(
                Seq::<Seq<char>>::empty(),
                batch.columns@[f].strings(),
            )
        &&& forall|r: int|
            0 <= r < n ==> post.primary_index@.contains_key(#[trigger] keys[r])
                && post.primary_index@[keys[r]] == r as u64
        &&& forall|k: i64|
            post.primary_index@.contains_key(k) ==> exists|r: int|
                0 <= r < n && #[trigger] keys[r] == k
    }

    /// Load the base batch: materialise every column, translate string
    /// columns through fresh dictionaries, and build the primary-key index.
    fn load_main_scenario(&mut self, batch: &RecordBatch)
        requires
            old(self).wf(),
            !old(self).is_loaded(),
            batch.spec_matches(old(self).schema),
            batch.spec_rows() + 1 < u32::MAX as nat,
            forall|i: int, j: int|
                0 <= i < j < batch.spec_rows() ==> spec_batch_keys(
                    *batch,
                    old(self).key_index(),
                )[i] != spec_batch_keys(*batch, old(self).key_index())[j],
        ensures
            final(self).wf(),
            final(self).is_loaded(),
            Store::spec_base_load(*old(self), *batch, *final(self)),
    {
        let key_idx = self.key_indices[0] as usize;
        let n = batch.columns[0].len();
        let ghost keyseq = spec_batch_keys(*batch, old(self).key_index());

        // The scenario dictionary, seeded with the main scenario at code 0.
        let si = self.dictionary_provider.index_or_create(scenario_field_name());
        let _ = self.dictionary_provider.map_value_at(si, String::from_str(main_scenario_name()));
        proof {
            assert(self.dictionary_provider.spec_dict(spec_scenario_field_name()) =~= seq![
                spec_main_scenario_name(),
            ]);
            assert forall|nm: Seq<char>|
                self.dictionary_provider.spec_has_dict(nm) implies nm
                == spec_scenario_field_name() by {
                let i = self.dictionary_provider.spec_dict_index(nm);
                assert(self.dictionary_provider.names@[i]@ == nm);
            }
        }

        // The primary-key index.
        let keys = key_column(batch, key_idx);
        self.primary_index = build_primary_index(keys);
        self.row_count = n as u64;

        // Materialise every column under identity mappings.
        let mut cols: Vec<Option<ChunkArray>> = Vec::new();
        let mut maps: Vec<Option<RowMapping>> = Vec::new();
        let mut f: usize = 0;
        while f < self.schema.fields.len()
            invariant
                f <= self.schema.fields@.len(),
                self.schema == old(self).schema,
                self.key_indices == old(self).key_indices,
                self.array_size == old(self).array_size,
                ChunkArray::spec_is_power_of_two(self.array_size),
                batch.spec_matches(self.schema),
                batch.spec_rows() == n,
                n + 1 < u32::MAX as int,
                self.row_count == n as u64,
                self.schema.wf(),
                self.dictionary_provider.wf(),
                self.dictionary_provider.spec_has_dict(spec_scenario_field_name()),
                self.dictionary_provider.spec_dict(spec_scenario_field_name()) == seq![
                    spec_main_scenario_name(),
                ],
                forall|nm: Seq<char>|
                    self.dictionary_provider.spec_has_dict(nm) ==> nm == spec_scenario_field_name()
                        || exists|g: int|
                        0 <= g < f && self.schema.fields@[g].data_type == DataType::Utf8 && (
                        #[trigger] self.schema.names()[g]) == nm,
                keyseq == spec_batch_keys(*batch, self.key_index()),
                forall|r: int|
                    0 <= r < n ==> self.primary_index@.contains_key(#[trigger] keyseq[r])
                        && self.primary_index@[keyseq[r]] == r as u64,
                forall|k: i64|
                    self.primary_index@.contains_key(k) ==> exists|r: int|
                        0 <= r < n && #[trigger] keyseq[r] == k,
                cols@.len() == f,
                maps@.len() == f,
                forall|g: int|
                    0 <= g < f ==> (#[trigger] cols@[g]) is Some && cols@[g]->Some_0.is_set()
                        && cols@[g]->Some_0.wf() && cols@[g]->Some_0.field.data_type
                        == self.schema.fields@[g].data_type && cols@[g]->Some_0.spec_len() == n,
                forall|g: int|
                    0 <= g < f && self.schema.fields@[g].data_type == DataType::Utf8 ==> {
                        &&& self.dictionary_provider.spec_has_dict(#[trigger] self.schema.names()[g])
                        &&& self.dictionary_provider.spec_dict(self.schema.names()[g])
                            == dict_extend(
                            Seq::<Seq<char>>::empty(),
                            batch.columns@[g].strings(),
                        )
                        &&& cols@[g]->Some_0.raw() == spec_code_seq(
                            self.dictionary_provider.spec_dict(self.schema.names()[g]),
                            batch.columns@[g].strings(),
                        )
                        &&& forall|i: int|
                            0 <= i < n ==> (#[trigger] cols@[g]->Some_0.raw()[i])
                                < self.dictionary_provider.spec_dict(self.schema.names()[g]).len()
                    },
                forall|g: int|
                    0 <= g < f && self.schema.fields@[g].data_type != DataType::Utf8
                        ==> (#[trigger] cols@[g])->Some_0.raw() == batch.columns@[g].raw(),
                forall|g: int|
                    0 <= g < f && self.schema.fields@[g].data_type == DataType::Int64
                        ==> (#[trigger] cols@[g])->Some_0.array->Some_0 is Int64
                        && cols@[g]->Some_0.array->Some_0->Int64_0@ == batch.columns@[g]->Int64_0@,
                forall|g: int|
                    0 <= g < f ==> (#[trigger] maps@[g]) is Some && maps@[g]->Some_0.is_identity(),
            decreases self.schema.fields@.len() - f,
        {
            let ghost dp_pre = self.dictionary_provider;
            let values = match &batch.columns[f] {
                BatchColumn::Utf8(strings) => {
                    let name = String::from_str(self.schema.fields[f].name.as_str());
                    proof {
                        // This field's dictionary does not exist yet: the
                        // provider holds only the scenario dictionary and
                        // those of earlier string fields, whose names differ.
                        assert(name@ == self.schema.names()[f as int]);
                        if dp_pre.spec_has_dict(name@) {
                            assert(name@ != spec_scenario_field_name());
                            let g = choose|g: int|
                                0 <= g < f && self.schema.fields@[g].data_type == DataType::Utf8
                                    && (#[trigger] self.schema.names()[g]) == name@;
                            assert(self.schema.names()[g] != self.schema.names()[f as int]);
                            assert(false);
                        }
                    }
                    let di = self.dictionary_provider.index_or_create(name.as_str());
                    let ghost dp_mid = self.dictionary_provider;
                    proof {
                        assert(self.dictionary_provider.spec_dict(self.schema.names()[f as int])
                            =~= Seq::<Seq<char>>::empty());
                    }
                    let codes = self.dictionary_provider.map_all_at(di, strings);
                    proof {
                        let dp_now = self.dictionary_provider;
                        // The scenario dictionary and those of earlier fields
                        // are untouched by the two operations above.
                        DictionaryProvider::lemma_dict_stable(
                            dp_pre,
                            dp_mid,
                            dp_mid.names@.len() as int,
                            spec_scenario_field_name(),
                        );
                        DictionaryProvider::lemma_dict_stable(
                            dp_mid,
                            dp_now,
                            di as int,
                            spec_scenario_field_name(),
                        );
                        assert forall|g: int|
                            0 <= g < f && self.schema.fields@[g].data_type
                                == DataType::Utf8 implies dp_now.spec_has_dict(
                            #[trigger] self.schema.names()[g],
                        ) && dp_now.spec_dict(self.schema.names()[g]) == dp_pre.spec_dict(
                            self.schema.names()[g],
                        ) by {
                            assert(self.schema.names()[g] != self.schema.names()[f as int]);
                            DictionaryProvider::lemma_dict_stable(
                                dp_pre,
                                dp_mid,
                                dp_mid.names@.len() as int,
                                self.schema.names()[g],
                            );
                            DictionaryProvider::lemma_dict_stable(
                                dp_mid,
                                dp_now,
                                di as int,
                                self.schema.names()[g],
                            );
                        }
                        // Domain exactness after adding this field's entry.
                        assert forall|nm: Seq<char>| dp_now.spec_has_dict(nm) implies nm
                            == spec_scenario_field_name() || exists|g: int|
                            0 <= g < f + 1 && self.schema.fields@[g].data_type == DataType::Utf8
                                && (#[trigger] self.schema.names()[g]) == nm by {
                            let i = dp_now.spec_dict_index(nm);
                            assert(dp_now.names@[i]@ == nm);
                            if i < dp_pre.names@.len() {
                                assert(dp_pre.names@[i]@ == nm);
                                dp_pre.lemma_index_unique(nm, i);
                                if nm != spec_scenario_field_name() {
                                    let g = choose|g: int|
                                        0 <= g < f && self.schema.fields@[g].data_type
                                            == DataType::Utf8 && (#[trigger] self.schema.names()[g])
                                            == nm;
                                    assert(0 <= g < f + 1 && self.schema.fields@[g].data_type
                                        == DataType::Utf8 && self.schema.names()[g] == nm);
                                }
                            } else {
                                assert(nm == name@);
                                assert(self.schema.names()[f as int] == nm);
                            }
                        }
                        // The produced codes are the dictionary positions of
                        // the column's values.
                        let dict_now = dp_now.spec_dict(self.schema.names()[f as int]);
                        let vs = batch.columns@[f as int].strings();
                        assert(crate::types::strings_view(strings@) =~= vs);
                        assert(dict_now == dict_extend(Seq::<Seq<char>>::empty(), vs));
                        assert forall|i: int| 0 <= i < vs.len() implies codes@[i] as int
                            == seq_position(dict_now, vs[i]) by {
                            lemma_seq_position_unique(dict_now, vs[i], codes@[i] as int);
                        }
                        assert(ColumnValues::UInt32(codes).raw() =~= spec_code_seq(dict_now, vs));
                    }
                    ColumnValues::UInt32(codes)
                },
                other => batch_col_to_values(other),
            };
            let field = Field {
                name: String::from_str(self.schema.fields[f].name.as_str()),
                data_type: self.schema.fields[f].data_type,
            };
            let mut chunk = ChunkArray::new(field, self.array_size);
            match chunk.set_array(values) {
                Ok(()) => (),
                Err(_) => {
                    proof {
                        assert(false);
                    }
                },
            }
            cols.push(Some(chunk));
            maps.push(Some(RowMapping::new_identity()));
            f = f + 1;
        }

        let mut vecs: Vec<Vec<Option<ChunkArray>>> = Vec::new();
        vecs.push(cols);
        self.vector_by_field_by_scenario = vecs;
        let mut mvecs: Vec<Vec<Option<RowMapping>>> = Vec::new();
        mvecs.push(maps);
        self.row_mapping_by_field_by_scenario = mvecs;

        proof {
            let ki = self.key_index();
            assert(self.num_scenarios() == 1);
            assert(self.scenario_dict() =~= seq![spec_main_scenario_name()]);
            assert(self.schema.fields@[ki].data_type == DataType::Int64);
            assert(self.col(0, ki) == cols@[ki]);
            assert(self.col(0, ki)->Some_0.array->Some_0->Int64_0@ == batch.columns@[ki]->Int64_0@);
            assert(forall|r: int| 0 <= r < n ==> self.spec_key_at(r) == keyseq[r]);
            assert(self.wf_base());
            assert(self.wf_keys());
            assert(self.wf_dicts());
            assert(self.wf_overlays());
            assert(Store::spec_base_load(*old(self), *batch, *self));
        }
    }

    /// The base row each overlay batch row lands on, through the primary-key
    /// index.
    pub open spec fn spec_overlay_rows(self, batch: RecordBatch) -> Seq<u32> {
        Seq::new(
            batch.spec_rows(),
            |i: int| self.primary_index@[spec_batch_keys(batch, self.key_index())[i]] as u32,
        )
    }

    /// The raw words an overlay batch column carries, once its string values
    /// are translated through the (already extended) field dictionary.
    pub open spec fn spec_overlay_vals(dict: Seq<Seq<char>>, col: BatchColumn) -> Seq<u64> {
        if col is Utf8 {
            spec_code_seq(dict, col.strings())
        } else {
            col.raw()
        }
    }

    /// What one overlay field leaves behind: nothing when no cell differs
    /// from the base, otherwise the differing cells packed densely and the
    /// sparse mapping from each differing base row to its packed position.
    pub open spec fn spec_overlay_field(
        base: Seq<u64>,
        rows: Seq<u32>,
        vals: Seq<u64>,
        col: Option<ChunkArray>,
        m: Option<RowMapping>,
    ) -> bool {
        let di = diff_prefix(base, rows, vals, rows.len() as int);
        if di.len() == 0 {
            col is None && m is None
        } else {
            &&& col is Some && m is Some
            &&& col->Some_0.is_set()
            &&& col->Some_0.spec_len() == di.len()
            &&& forall|p: int| #![trigger di[p]]
                0 <= p < di.len() ==> col->Some_0.raw()[p] == vals[di[p] as int]
            &&& !m->Some_0.is_identity()
            &&& forall|p: int| #![trigger di[p]]
                0 <= p < di.len() ==> m->Some_0.sparse_pairs().contains_key(rows[di[p] as int])
                    && m->Some_0.sparse_pairs()[rows[di[p] as int]] == p as u32
            &&& forall|x: u32| #![trigger m->Some_0.sparse_pairs().dom().contains(x)]
                m->Some_0.sparse_pairs().contains_key(x) ==> exists|p: int| #![trigger di[p]]
                    0 <= p < di.len() && x == rows[di[p] as int]
        }
    }

    /// What an overlay load leaves behind: one new scenario code carrying,
    /// for each non-key field, exactly the cells that differ from the base;
    /// field dictionaries extended by the batch's string values; everything
    /// already loaded untouched.
    pub open spec fn spec_overlay_load(
        pre: Store,
        scen: Seq<char>,
        batch: RecordBatch,
        post: Store,
    ) -> bool {
        let n = batch.spec_rows() as int;
        let m = pre.num_scenarios() as int;
        let rows = pre.spec_overlay_rows(batch);
        &&& post.schema == pre.schema
        &&& post.key_indices == pre.key_indices
        &&& post.array_size == pre.array_size
        &&& post.row_count == pre.row_count
        &&& post.primary_index@ == pre.primary_index@
        &&& post.num_scenarios() == m + 1
        &&& post.scenario_dict() == pre.scenario_dict().push(scen)
        &&& forall|s: int, f: int|
            0 <= s < m && 0 <= f < pre.schema.len() ==> (#[trigger] post.col(s, f)) == pre.col(s, f)
        &&& forall|s: int, f: int|
            0 <= s < m && 0 <= f < pre.schema.len() ==> (#[trigger] post.mapping(s, f))
                == pre.mapping(s, f)
        &&& forall|f: int|
            0 <= f < pre.schema.len() && pre.schema.fields@[f].data_type == DataType::Utf8
                ==> post.spec_dict_of(#[trigger] pre.schema.names()[f]) == dict_extend(
                pre.spec_dict_of(pre.schema.names()[f]),
                batch.columns@[f].strings(),
            )
        &&& post.col(m, pre.key_index()) is None && post.mapping(m, pre.key_index()) is None
        &&& forall|f: int|
            0 <= f < pre.schema.len() && f != pre.key_index() ==> Store::spec_overlay_field(
                pre.base_raw(f),
                rows,
                Store::spec_overlay_vals(
                    post.spec_dict_of(pre.schema.names()[f]),
                    batch.columns@[f],
                ),
                #[trigger] post.col(m, f),
                post.mapping(m, f),
            )
    }

    /// An overlay field built from distinct base rows is a bijection onto
    /// its packed column, every target in range and every stored cell
    /// differing from its base cell.
    proof fn lemma_overlay_field_wf(self, s: int, f: int, rows: Seq<u32>, vals: Seq<u64>)
        requires
            1 <= s < self.num_scenarios(),
            0 <= f < self.schema.len(),
            Store::spec_overlay_field(
                self.base_raw(f),
                rows,
                vals,
                self.col(s, f),
                self.mapping(s, f),
            ),
            self.col(s, f) is Some ==> self.col(s, f)->Some_0.wf() && self.col(
                s,
                f,
            )->Some_0.field.data_type == self.schema.fields@[f].data_type,
            rows.len() <= u32::MAX as int,
            forall|i: int| 0 <= i < rows.len() ==> (#[trigger] rows[i]) < self.row_count,
            forall|i: int, j: int| 0 <= i < j < rows.len() ==> rows[i] != rows[j],
        ensures
            self.wf_overlay_at(s, f),
    {
        let base = self.base_raw(f);
        let col = self.col(s, f);
        let m = self.mapping(s, f);
        let di = diff_prefix(base, rows, vals, rows.len() as int);
        lemma_diff_prefix_props(base, rows, vals, rows.len() as int);
        if col is Some {
            let c = col->Some_0;
            let pairs = m->Some_0.sparse_pairs();
            assert(di.len() > 0);
            assert(c.spec_len() == di.len());
            assert forall|r: u32| pairs.contains_key(r) implies r < self.row_count && (#[trigger] pairs[r])
                < c.spec_len() && c.raw()[pairs[r] as int] != base[r as int] by {
                assert(pairs.dom().contains(r));
                assert(exists|p: int| #![trigger di[p]] 0 <= p < di.len() && r == rows[di[p] as int]);
                let p = choose|p: int| 0 <= p < di.len() && r == rows[#[trigger] di[p] as int];
                assert(0 <= p < di.len() && r == rows[di[p] as int]);
                assert(pairs[rows[di[p] as int]] == p as u32);
                assert(c.raw()[p] == vals[di[p] as int]);
                assert(vals[di[p] as int] != base[rows[di[p] as int] as int]);
                assert(0 <= di[p] < rows.len());
                assert(rows[di[p] as int] < self.row_count);
            }
            assert forall|r1: u32, r2: u32|
                pairs.contains_key(r1) && pairs.contains_key(r2) && r1 != r2 implies (
            #[trigger] pairs[r1]) != (#[trigger] pairs[r2]) by {
                let p1 = choose|p: int| 0 <= p < di.len() && r1 == rows[#[trigger] di[p] as int];
                let p2 = choose|p: int| 0 <= p < di.len() && r2 == rows[#[trigger] di[p] as int];
                assert(pairs[rows[di[p1] as int]] == p1 as u32);
                assert(pairs[rows[di[p2] as int]] == p2 as u32);
                if p1 == p2 {
                    assert(r1 == r2);
                }
            }
            assert forall|t: u32| #![trigger spec_source_of(pairs, t)]
                t < c.spec_len() implies pairs.contains_key(spec_source_of(pairs, t)) && pairs[
                spec_source_of(pairs, t)
            ] == t by {
                assert(0 <= (t as int) < di.len());
                assert(pairs.contains_key(rows[di[t as int] as int]));
                assert(pairs[rows[di[t as int] as int]] == t);
                assert(exists|r: u32| pairs.contains_key(r) && pairs[r] == t);
            }
        }
    }

    /// Load an overlay batch under a new scenario name: compare each cell
    /// against the base cell its key points at, and keep only the differing
    /// ones.
    fn load_overlay(&mut self, scenario: &str, batch: &RecordBatch)
        requires
            old(self).wf(),
            old(self).is_loaded(),
            scenario@ != spec_main_scenario_name(),
            !old(self).scenario_dict().contains(scenario@),
            batch.spec_matches(old(self).schema),
            batch.spec_rows() + 1 < u32::MAX as nat,
            old(self).num_scenarios() + 2 < u32::MAX as nat,
            forall|i: int, j: int|
                0 <= i < j < batch.spec_rows() ==> spec_batch_keys(
                    *batch,
                    old(self).key_index(),
                )[i] != spec_batch_keys(*batch, old(self).key_index())[j],
            forall|i: int|
                0 <= i < batch.spec_rows() ==> old(self).primary_index@.contains_key(
                    #[trigger] spec_batch_keys(*batch, old(self).key_index())[i],
                ),
            forall|f: int|
                0 <= f < old(self).schema.len() && old(self).schema.fields@[f].data_type
                    == DataType::Utf8 ==> old(self).spec_dict_of(
                    #[trigger] old(self).schema.names()[f],
                ).len() + batch.spec_rows() + 1 < u32::MAX as int,
        ensures
            final(self).wf(),
            final(self).is_loaded(),
            Store::spec_overlay_load(*old(self), scenario@, *batch, *final(self)),
    {
        let key_idx = self.key_indices[0] as usize;
        let n = batch.columns[0].len();
        let ghost keyseq = spec_batch_keys(*batch, old(self).key_index());
        let ghost pre = *self;

        let keys = key_column(batch, key_idx);
        let rows = match self.resolve_rows(keys) {
            Some(rows) => rows,
            None => unreached(),
        };
        proof {
            assert(rows@ =~= pre.spec_overlay_rows(*batch));
            assert forall|i: int, j: int| 0 <= i < j < n implies rows@[i] != rows@[j] by {
                assert(keyseq[i] != keyseq[j]);
                pre.lemma_primary_index_injective(keyseq[i], keyseq[j]);
            }
        }
        let ghost rowseq = rows@;

        let mut new_cols: Vec<Option<ChunkArray>> = Vec::new();
        let mut new_maps: Vec<Option<RowMapping>> = Vec::new();
        let mut f: usize = 0;
        while f < self.schema.fields.len()
            invariant
                f <= self.schema.fields@.len(),
                self.schema == pre.schema,
                self.key_indices == pre.key_indices,
                self.array_size == pre.array_size,
                self.row_count == pre.row_count,
                self.primary_index@ == pre.primary_index@,
                self.vector_by_field_by_scenario == pre.vector_by_field_by_scenario,
                self.row_mapping_by_field_by_scenario == pre.row_mapping_by_field_by_scenario,
                pre.wf(),
                pre.is_loaded(),
                key_idx == pre.key_index(),
                ChunkArray::spec_is_power_of_two(self.array_size),
                batch.spec_matches(self.schema),
                batch.spec_rows() == n,
                n + 1 < u32::MAX as int,
                rowseq == rows@,
                rowseq.len() == n,
                forall|i: int| 0 <= i < n ==> (#[trigger] rowseq[i]) < pre.row_count,
                forall|i: int, j: int| 0 <= i < j < n ==> rowseq[i] != rowseq[j],
                self.dictionary_provider.wf(),
                self.dictionary_provider.names@ == pre.dictionary_provider.names@,
                self.dictionary_provider.spec_dict(spec_scenario_field_name())
                    == pre.scenario_dict(),
                forall|g: int|
                    0 <= g < self.schema.len() && self.schema.fields@[g].data_type == DataType::Utf8
                        && g >= f ==> self.dictionary_provider.spec_dict(
                        #[trigger] self.schema.names()[g],
                    ) == pre.spec_dict_of(self.schema.names()[g]),
                forall|g: int|
                    0 <= g < f && self.schema.fields@[g].data_type == DataType::Utf8
                        ==> self.dictionary_provider.spec_dict(#[trigger] self.schema.names()[g])
                        == dict_extend(
                        pre.spec_dict_of(self.schema.names()[g]),
                        batch.columns@[g].strings(),
                    ),
                new_cols@.len() == f,
                new_maps@.len() == f,
                forall|g: int|
                    0 <= g < f && g != key_idx ==> Store::spec_overlay_field(
                        pre.base_raw(g),
                        rowseq,
                        Store::spec_overlay_vals(
                            self.dictionary_provider.spec_dict(self.schema.names()[g]),
                            batch.columns@[g],
                        ),
                        #[trigger] new_cols@[g],
                        new_maps@[g],
                    ),
                key_idx < f ==> new_cols@[key_idx as int] is None && new_maps@[key_idx as int]
                    is None,
                forall|g: int|
                    0 <= g < self.schema.len() && self.schema.fields@[g].data_type == DataType::Utf8
                        ==> pre.spec_dict_of(#[trigger] self.schema.names()[g]).len() + n + 1
                        < u32::MAX as int,
                self.dictionary_provider.spec_has_dict(spec_scenario_field_name()),
                forall|g: int|
                    0 <= g < f && (#[trigger] new_cols@[g]) is Some ==> {
                        &&& new_cols@[g]->Some_0.wf()
                        &&& new_cols@[g]->Some_0.field.data_type == self.schema.fields@[g].data_type
                        &&& new_cols@[g]->Some_0.spec_len() > 0
                    },
                forall|g: int|
                    0 <= g < f && self.schema.fields@[g].data_type == DataType::Utf8 && (
                    #[trigger] new_cols@[g]) is Some ==> forall|i: int|
                        0 <= i < new_cols@[g]->Some_0.raw().len()
                            ==> #[trigger] new_cols@[g]->Some_0.raw()[i]
                            < self.dictionary_provider.spec_dict(self.schema.names()[g]).len(),
            decreases self.schema.fields@.len() - f,
        {
            let ghost dp_pre = self.dictionary_provider;
            if f == key_idx {
                new_cols.push(None);
                new_maps.push(None);
            } else {
                let values = match &batch.columns[f] {
                    BatchColumn::Utf8(strings) => {
                        let name = String::from_str(self.schema.fields[f].name.as_str());
                        proof {
                            assert(name@ == self.schema.names()[f as int]);
                            assert(self.dictionary_provider.spec_has_dict(name@));
                        }
                        let di = self.dictionary_provider.index_or_create(name.as_str());
                        let codes = self.dictionary_provider.map_all_at(di, strings);
                        proof {
                            let dp_now = self.dictionary_provider;
                            assert(dp_now.names@ == dp_pre.names@);
                            // Every other dictionary is untouched.
                            assert forall|nm: Seq<char>|
                                dp_pre.spec_has_dict(nm) && nm
                                    != self.schema.names()[f as int] implies dp_now.spec_dict(nm)
                                == dp_pre.spec_dict(nm) && dp_now.spec_has_dict(nm) by {
                                DictionaryProvider::lemma_dict_stable(dp_pre, dp_now, di as int, nm);
                            }
                            assert(spec_scenario_field_name() != self.schema.names()[f as int]);
                            assert forall|g: int|
                                0 <= g < self.schema.len() && g != f
                                    && self.schema.fields@[g].data_type
                                    == DataType::Utf8 implies dp_now.spec_dict(
                                #[trigger] self.schema.names()[g],
                            ) == dp_pre.spec_dict(self.schema.names()[g]) by {
                                assert(self.schema.names()[g] != self.schema.names()[f as int]);
                            }
                            // The produced codes are dictionary positions.
                            let dict_now = dp_now.spec_dict(self.schema.names()[f as int]);
                            let vs = batch.columns@[f as int].strings();
                            assert(crate::types::strings_view(strings@) =~= vs);
                            assert(dict_now == dict_extend(
                                pre.spec_dict_of(self.schema.names()[f as int]),
                                vs,
                            ));
                            assert forall|i: int| 0 <= i < vs.len() implies codes@[i] as int
                                == seq_position(dict_now, vs[i]) by {
                                lemma_seq_position_unique(dict_now, vs[i], codes@[i] as int);
                            }
                            assert(ColumnValues::UInt32(codes).raw() =~= spec_code_seq(
                                dict_now,
                                vs,
                            ));
                            assert(forall|j: int|
                                0 <= j < ColumnValues::UInt32(codes).raw().len() ==> (
                                #[trigger] ColumnValues::UInt32(codes).raw()[j]) < dict_now.len());
                        }
                        ColumnValues::UInt32(codes)
                    },
                    other => batch_col_to_values(other),
                };
                proof {
                    assert(pre.col(0, f as int) is Some);
                    assert(pre.col(0, f as int)->Some_0.is_set());
                    assert(self.vector_by_field_by_scenario@[0]@[f as int] == pre.col(0, f as int));
                }
                let base_chunk = match &self.vector_by_field_by_scenario[0][f] {
                    Some(c) => c,
                    None => unreached(),
                };
                let base_vals = match &base_chunk.array {
                    Some(v) => v,
                    None => unreached(),
                };
                proof {
                    assert(base_vals.raw() == pre.base_raw(f as int));
                    assert(base_vals.spec_len() == pre.row_count);
                    assert(values.spec_len() == n);
                }
                let (kept, mapping) = diff_rows(base_vals, &values, &rows);
                if kept.len() == 0 {
                    new_cols.push(None);
                    new_maps.push(None);
                } else {
                    let packed = gather(&values, &kept);
                    let field = Field {
                        name: String::from_str(self.schema.fields[f].name.as_str()),
                        data_type: self.schema.fields[f].data_type,
                    };
                    let mut chunk = ChunkArray::new(field, self.array_size);
                    match chunk.set_array(packed) {
                        Ok(()) => (),
                        Err(_) => {
                            proof {
                                assert(false);
                            }
                        },
                    }
                    proof {
                        let di_seq = diff_prefix(base_vals.raw(), rowseq, values.raw(), n as int);
                        assert(kept@ == di_seq);
                        assert(chunk.raw().len() == kept@.len());
                        assert forall|p: int| 0 <= p < di_seq.len() implies chunk.raw()[p]
                            == values.raw()[#[trigger] di_seq[p] as int] by {
                            assert(chunk.raw()[p] == values.raw()[kept@[p] as int]);
                        }
                        if self.schema.fields@[f as int].data_type == DataType::Utf8 {
                            assert forall|i2: int| 0 <= i2 < chunk.raw().len() implies (
                            #[trigger] chunk.raw()[i2]) < self.dictionary_provider.spec_dict(
                                self.schema.names()[f as int],
                            ).len() by {
                                assert(chunk.raw()[i2] == values.raw()[kept@[i2] as int]);
                            }
                        }
                    }
                    new_cols.push(Some(chunk));
                    new_maps.push(Some(mapping));
                }
            }
            f = f + 1;
        }

        // Commit: the new scenario's columns, mappings and dictionary entry.
        let ghost gcols = new_cols@;
        let ghost gmaps = new_maps@;
        let ghost dp_exit = self.dictionary_provider;
        self.vector_by_field_by_scenario.push(new_cols);
        self.row_mapping_by_field_by_scenario.push(new_maps);
        let ghost dp_before_scen = self.dictionary_provider;
        let si = self.dictionary_provider.index_or_create(scenario_field_name());
        let _ = self.dictionary_provider.map_value_at(si, String::from_str(scenario));
        proof {
            let dp_now = self.dictionary_provider;
            assert(dp_now.names@ == dp_before_scen.names@);
            assert(dp_before_scen.spec_dict(spec_scenario_field_name()) == pre.scenario_dict());
            assert(!pre.scenario_dict().contains(scenario@));
            assert(dp_now.spec_dict(spec_scenario_field_name()) == pre.scenario_dict().push(
                scenario@,
            ));
            assert forall|nm: Seq<char>|
                dp_before_scen.spec_has_dict(nm) && nm
                    != spec_scenario_field_name() implies dp_now.spec_dict(nm)
                == dp_before_scen.spec_dict(nm) && dp_now.spec_has_dict(nm) by {
                DictionaryProvider::lemma_dict_stable(dp_before_scen, dp_now, si as int, nm);
            }
            assert forall|g: int|
                0 <= g < self.schema.len() && self.schema.fields@[g].data_type
                    == DataType::Utf8 implies dp_now.spec_dict(#[trigger] self.schema.names()[g])
                == dict_extend(
                pre.spec_dict_of(self.schema.names()[g]),
                batch.columns@[g].strings(),
            ) && dp_now.spec_dict(self.schema.names()[g]) == dp_exit.spec_dict(
                self.schema.names()[g],
            ) by {
                assert(self.schema.names()[g] != spec_scenario_field_name());
                assert(dp_exit.spec_has_dict(self.schema.names()[g]));
            }
        }

        proof {
            let post = *self;
            let m = pre.num_scenarios() as int;
            assert(post.num_scenarios() == m + 1);
            assert(forall|s: int, f2: int|
                0 <= s < m && 0 <= f2 < pre.schema.len() ==> (#[trigger] post.col(s, f2))
                    == pre.col(s, f2));
            assert(forall|s: int, f2: int|
                0 <= s < m && 0 <= f2 < pre.schema.len() ==> (#[trigger] post.mapping(s, f2))
                    == pre.mapping(s, f2));
            assert(forall|r: int|
                0 <= r < post.row_count ==> post.spec_key_at(r) == pre.spec_key_at(r));
            assert(post.wf_config());
            assert(post.wf_keys());
            assert(post.scenario_dict() == pre.scenario_dict().push(scenario@));
            assert(post.scenario_dict()[0] == pre.scenario_dict()[0]);
            assert(post.wf_base());

            // Each overlay field of the new scenario meets the overlay
            // description, both against the dictionaries at loop exit and
            // against the final ones (the scenario entry touches no field
            // dictionary).
            assert forall|f2: int|
                0 <= f2 < post.schema.len() && f2 != key_idx as int implies
                Store::spec_overlay_field(
                pre.base_raw(f2),
                rowseq,
                Store::spec_overlay_vals(
                    post.spec_dict_of(post.schema.names()[f2]),
                    batch.columns@[f2],
                ),
                #[trigger] post.col(m, f2),
                post.mapping(m, f2),
            ) by {
                assert(post.col(m, f2) == gcols[f2]);
                assert(post.mapping(m, f2) == gmaps[f2]);
                if post.schema.fields@[f2].data_type == DataType::Utf8 {
                    assert(post.spec_dict_of(post.schema.names()[f2]) == dp_exit.spec_dict(
                        post.schema.names()[f2],
                    ));
                } else {
                    assert(Store::spec_overlay_vals(
                        post.spec_dict_of(post.schema.names()[f2]),
                        batch.columns@[f2],
                    ) == batch.columns@[f2].raw());
                    assert(Store::spec_overlay_vals(
                        dp_exit.spec_dict(post.schema.names()[f2]),
                        batch.columns@[f2],
                    ) == batch.columns@[f2].raw());
                }
            }

            assert forall|s: int, f2: int|
                1 <= s < post.num_scenarios() && 0 <= f2 < post.schema.len() implies
                #[trigger] post.wf_overlay_at(s, f2) by {
                if s < m {
                    assert(pre.wf_overlay_at(s, f2));
                    assert(post.col(s, f2) == pre.col(s, f2));
                    assert(post.mapping(s, f2) == pre.mapping(s, f2));
                    assert(post.base_raw(f2) == pre.base_raw(f2));
                    assert(post.wf_overlay_at(s, f2));
                } else {
                    assert(post.col(s, f2) == gcols[f2]);
                    assert(post.mapping(s, f2) == gmaps[f2]);
                    assert(post.col(0, f2) == pre.col(0, f2));
                    assert(post.base_raw(f2) == pre.base_raw(f2));
                    if f2 != key_idx as int && post.col(s, f2) is Some {
                        let vals = Store::spec_overlay_vals(
                            post.spec_dict_of(post.schema.names()[f2]),
                            batch.columns@[f2],
                        );
                        assert(rowseq.len() == n);
                        assert(Store::spec_overlay_field(
                            pre.base_raw(f2),
                            rowseq,
                            vals,
                            post.col(s, f2),
                            post.mapping(s, f2),
                        ));
                        post.lemma_overlay_field_wf(s, f2, rowseq, vals);
                    }
                    if f2 != key_idx as int && post.col(s, f2) is None {
                        assert(post.mapping(s, f2) is None);
                    }
                    if f2 == key_idx as int {
                        assert(post.col(s, f2) is None && post.mapping(s, f2) is None);
                    }
                    assert(post.wf_overlay_at(s, f2));
                }
            }
            assert(post.wf_overlays());

            // Dictionary coherence: old codes stay in range because the
            // dictionaries only grew; the new scenario's codes are in range
            // by construction.
            assert forall|s: int, f2: int|
                0 <= s < post.num_scenarios() && 0 <= f2 < post.schema.len()
                    && post.schema.fields@[f2].data_type == DataType::Utf8 && #[trigger] post.col(
                s,
                f2,
            ) is Some implies forall|i: int|
                0 <= i < post.col(s, f2)->Some_0.raw().len() ==> #[trigger] post.col(
                    s,
                    f2,
                )->Some_0.raw()[i] < post.spec_dict_of(post.schema.names()[f2]).len() by {
                let nm = post.schema.names()[f2];
                if s < m {
                    assert(post.col(s, f2) == pre.col(s, f2));
                    assert(forall|i: int|
                        0 <= i < pre.col(s, f2)->Some_0.raw().len() ==> #[trigger] pre.col(
                            s,
                            f2,
                        )->Some_0.raw()[i] < pre.spec_dict_of(nm).len());
                    lemma_dict_extend_prefix(pre.spec_dict_of(nm), batch.columns@[f2].strings());
                    assert(post.spec_dict_of(nm).len() >= pre.spec_dict_of(nm).len());
                } else {
                    assert(post.col(s, f2) == gcols[f2]);
                    assert(post.spec_dict_of(nm) == dp_exit.spec_dict(nm));
                }
            }
            assert(post.wf_dicts());
            assert(Store::spec_overlay_load(pre, scenario@, *batch, post));
        }
    }

    /// Whether a scenario of this name has been loaded.
    pub open spec fn spec_has_scenario(self, name: Seq<char>) -> bool {
        self.scenario_dict().contains(name)
    }

    /// The code of a loaded scenario: its position in the scenario
    /// dictionary.
    pub open spec fn spec_scenario_code(self, name: Seq<char>) -> int {
        seq_position(self.scenario_dict(), name)
    }

    /// What a logical read of (scenario `s`, field `f`, base row `row`)
    /// resolves to: the overlay cell where the scenario has one, the base
    /// cell otherwise.
    pub open spec fn resolved(self, s: int, f: int, row: u32) -> u64 {
        if self.col(s, f) is Some {
            match self.mapping(s, f)->Some_0.spec_get(row) {
                Some(t) => self.col(s, f)->Some_0.raw()[t as int],
                None => self.base_raw(f)[row as int],
            }
        } else {
            self.base_raw(f)[row as int]
        }
    }

    /// Load a batch under a scenario name. The first load must be the main
    /// scenario; each later load adds one new overlay scenario.
    ///
    /// Errors, in the order checked, each leaving the store unchanged:
    /// - `StateError`: a second base load, an overlay before the base, or a
    ///   scenario name already loaded;
    /// - `SchemaError`: the batch does not fit the store schema;
    /// - `KeyError`: two equal primary keys in the batch, or an overlay key
    ///   unknown to the base.
    pub fn load(&mut self, scenario: &str, batch: &RecordBatch) -> (r: Result<(), StoreError>)
        requires
            old(self).wf(),
            batch.spec_rows() + 1 < u32::MAX as nat,
            old(self).num_scenarios() + 2 < u32::MAX as nat,
            old(self).is_loaded() ==> forall|f: int|
                0 <= f < old(self).schema.len() && old(self).schema.fields@[f].data_type
                    == DataType::Utf8 ==> old(self).spec_dict_of(
                    #[trigger] old(self).schema.names()[f],
                ).len() + batch.spec_rows() + 1 < u32::MAX as int,
        ensures
            final(self).wf(),
            ({
                let n = batch.spec_rows() as int;
                let keys = spec_batch_keys(*batch, old(self).key_index());
                let is_base = scenario@ == spec_main_scenario_name();
                let state_err = if is_base {
                    old(self).is_loaded()
                } else {
                    !old(self).is_loaded() || old(self).spec_has_scenario(scenario@)
                };
                let schema_err = !batch.spec_matches(old(self).schema);
                let dup_keys = exists|i: int, j: int| 0 <= i < j < n && keys[i] == keys[j];
                let key_err = dup_keys || (!is_base && exists|i: int|
                    0 <= i < n && !old(self).primary_index@.contains_key(#[trigger] keys[i]));
                if state_err {
                    r == Result::<(), StoreError>::Err(StoreError::StateError) && *final(self)
                        == *old(self)
                } else if schema_err {
                    r == Result::<(), StoreError>::Err(StoreError::SchemaError) && *final(self)
                        == *old(self)
                } else if key_err {
                    r == Result::<(), StoreError>::Err(StoreError::KeyError) && *final(self)
                        == *old(self)
                } else if is_base {
                    r is Ok && Store::spec_base_load(*old(self), *batch, *final(self))
                } else {
                    r is Ok && Store::spec_overlay_load(*old(self), scenario@, *batch, *final(self))
                }
            }),
    {
        let is_base = crate::types::str_eq(scenario, main_scenario_name());

        // State checks.
        if is_base {
            if self.vector_by_field_by_scenario.len() > 0 {
                return Err(StoreError::StateError);
            }
        } else {
            if self.vector_by_field_by_scenario.len() == 0 {
                return Err(StoreError::StateError);
            }
            let known = match self.dictionary_provider.get(scenario_field_name()) {
                Some(d) => d.get_position(scenario).is_some(),
                None => unreached(),
            };
            if known {
                return Err(StoreError::StateError);
            }
        }

        // Schema check.
        if !batch.matches(&self.schema) {
            return Err(StoreError::SchemaError);
        }

        // Key checks.
        let key_idx = self.key_indices[0] as usize;
        let keys = key_column(batch, key_idx);
        if has_duplicate_keys(keys) {
            return Err(StoreError::KeyError);
        }
        if is_base {
            self.load_main_scenario(batch);
            Ok(())
        } else {
            let all_known = self.resolve_rows(keys).is_some();
            if !all_known {
                return Err(StoreError::KeyError);
            }
            self.load_overlay(scenario, batch);
            Ok(())
        }
    }

    /// The scenario-aware reader for one (scenario, field) pair. The base
    /// scenario, and any scenario without an overlay column for the field,
    /// read straight from the base column.
    pub fn get_scenario_chunk_array<'a>(&'a self, scenario: &str, field: &str) -> (r:
        ChunkArrayReader<'a>)
        requires
            self.wf(),
            self.is_loaded(),
            self.spec_has_scenario(scenario@),
            self.schema.spec_has_field(field@),
        ensures
            ({
                let s = self.spec_scenario_code(scenario@);
                let f = self.schema.spec_field_index(field@);
                &&& r.wf()
                &&& *r.spec_base() == self.col(0, f)->Some_0
                &&& r.spec_base().spec_len() == self.row_count
                &&& r.spec_base().field.data_type == self.schema.fields@[f].data_type
                &&& forall|row: u32| row < self.row_count ==> r.spec_read(row) == self.resolved(
                    s,
                    f,
                    row,
                )
            }),
    {
        let f = match self.schema.field_index(field) {
            Some(f) => f,
            None => unreached(),
        };
        let code: u32 = match self.dictionary_provider.get(scenario_field_name()) {
            Some(d) => {
                match d.get_position(scenario) {
                    Some(c) => c,
                    None => unreached(),
                }
            },
            None => unreached(),
        };
        let s = code as usize;
        proof {
            let sd = self.scenario_dict();
            lemma_seq_position_unique(sd, scenario@, code as int);
            assert(self.spec_scenario_code(scenario@) == code as int);
            assert(s < self.num_scenarios());
            let fi = self.schema.spec_field_index(field@);
            if fi != f as int {
                assert(self.schema.names()[fi] == field@ && self.schema.names()[f as int]
                    == field@);
                if fi < f as int {
                    assert(self.schema.names()[fi] != self.schema.names()[f as int]);
                } else {
                    assert(self.schema.names()[f as int] != self.schema.names()[fi]);
                }
            }
            assert(self.col(0, f as int) is Some);
        }
        let base_array = match &self.vector_by_field_by_scenario[0][f] {
            Some(c) => c,
            None => unreached(),
        };
        if s == 0 {
            return ChunkArrayReader::BaseReader { base_array };
        }
        match &self.vector_by_field_by_scenario[s][f] {
            None => ChunkArrayReader::BaseReader { base_array },
            Some(scenario_array) => {
                proof {
                    assert(self.wf_overlay_at(s as int, f as int));
                }
                let row_mapping = match &self.row_mapping_by_field_by_scenario[s][f] {
                    Some(m) => m,
                    None => unreached(),
                };
                let r = ChunkArrayReader::ScenarioReader { base_array, scenario_array, row_mapping };
                proof {
                    let pairs = row_mapping.sparse_pairs();
                    assert forall|row: u32|
                        (#[trigger] row_mapping.spec_get(row)) is Some implies row_mapping.spec_get(
                        row,
                    )->Some_0 < scenario_array.spec_len() by {
                        assert(pairs.contains_key(row));
                        assert(pairs[row] < scenario_array.spec_len());
                    }
                    assert(r.wf());
                    assert forall|row: u32| row < self.row_count implies r.spec_read(row)
                        == self.resolved(s as int, f as int, row) by {
                        assert(r.spec_read(row) == (match row_mapping.spec_get(row) {
                            Some(t) => scenario_array.raw()[t as int],
                            None => base_array.raw()[row as int],
                        }));
                    }
                }
                r
            },
        }
    }

    /// The sparse mapping of every overlay column is a bijection from the
    /// differing base rows onto the column's positions: each target below
    /// the column length occurs exactly once.
    pub proof fn lemma_overlay_mapping_bijective(self, s: int, f: int)
        requires
            self.wf(),
            self.is_loaded(),
            1 <= s < self.num_scenarios(),
            0 <= f < self.schema.len(),
            self.col(s, f) is Some,
        ensures
            self.mapping(s, f) is Some,
            ({
                let c = self.col(s, f)->Some_0;
                let pairs = self.mapping(s, f)->Some_0.sparse_pairs();
                &&& forall|r: u32|
                    pairs.contains_key(r) ==> (#[trigger] pairs[r]) < c.spec_len() && r
                        < self.row_count
                &&& forall|r1: u32, r2: u32|
                    pairs.contains_key(r1) && pairs.contains_key(r2) && r1 != r2 ==> (
                    #[trigger] pairs[r1]) != (#[trigger] pairs[r2])
                &&& forall|t: u32|
                    #![trigger spec_source_of(pairs, t)]
                    t < c.spec_len() ==> pairs.contains_key(spec_source_of(pairs, t)) && pairs[
                        spec_source_of(pairs, t)
                    ] == t
            }),
    {
        assert(self.wf_overlay_at(s, f));
    }

    /// Every overlay cell differs from the base cell at its mapped base
    /// row: overlays store only differences.
    pub proof fn lemma_overlay_cells_differ(self, s: int, f: int)
        requires
            self.wf(),
            self.is_loaded(),
            1 <= s < self.num_scenarios(),
            0 <= f < self.schema.len(),
            self.col(s, f) is Some,
        ensures
            self.mapping(s, f) is Some,
            forall|r: u32|
                self.mapping(s, f)->Some_0.sparse_pairs().contains_key(r) ==> self.col(
                    s,
                    f,
                )->Some_0.raw()[(#[trigger] self.mapping(s, f)->Some_0.sparse_pairs()[r]) as int]
                    != self.base_raw(f)[r as int],
    {
        assert(self.wf_overlay_at(s, f));
    }

    /// An overlay batch that differs from the base in no cell leaves no
    /// column and no mapping behind for its scenario.
    pub proof fn lemma_no_diff_overlay_adds_nothing(
        pre: Store,
        scen: Seq<char>,
        batch: RecordBatch,
        post: Store,
    )
        requires
            Store::spec_overlay_load(pre, scen, batch, post),
            forall|f: int, i: int|
                #![trigger Store::spec_overlay_vals(post.spec_dict_of(pre.schema.names()[f]), batch.columns@[f])[i]]
                0 <= f < pre.schema.len() && f != pre.key_index() && 0 <= i < batch.spec_rows()
                    ==> Store::spec_overlay_vals(
                    post.spec_dict_of(pre.schema.names()[f]),
                    batch.columns@[f],
                )[i] == pre.base_raw(f)[pre.spec_overlay_rows(batch)[i] as int],
        ensures
            forall|f: int|
                0 <= f < pre.schema.len() ==> #[trigger] post.col(pre.num_scenarios() as int, f)
                    is None && post.mapping(pre.num_scenarios() as int, f) is None,
    {
        let m = pre.num_scenarios() as int;
        let rows = pre.spec_overlay_rows(batch);
        assert forall|f: int| 0 <= f < pre.schema.len() implies #[trigger] post.col(m, f) is None
            && post.mapping(m, f) is None by {
            if f != pre.key_index() {
                let vals = Store::spec_overlay_vals(
                    post.spec_dict_of(pre.schema.names()[f]),
                    batch.columns@[f],
                );
                lemma_diff_prefix_empty(pre.base_raw(f), rows, vals, rows.len() as int);
                assert(Store::spec_overlay_field(
                    pre.base_raw(f),
                    rows,
                    vals,
                    post.col(m, f),
                    post.mapping(m, f),
                ));
            }
        }
    }

    /// A scenario without an overlay column for a field resolves every read
    /// of that field to the base value: querying it returns the base
    /// results.
    pub proof fn lemma_empty_overlay_resolves_to_base(self, s: int, f: int, row: u32)
        requires
            self.col(s, f) is None,
        ensures
            self.resolved(s, f, row) == self.base_raw(f)[row as int],
    {
    }

    /// The base scenario resolves every read to the base cell.
    pub proof fn lemma_resolved_base(self, f: int, row: u32)
        requires
            self.wf(),
            self.is_loaded(),
            0 <= f < self.schema.len(),
            row < self.row_count,
        ensures
            self.resolved(0, f, row) == self.base_raw(f)[row as int],
    {
        assert(self.mapping(0, f) is Some && self.mapping(0, f)->Some_0.is_identity());
    }

    /// A scenario that is the base, or has no overlay column for the field,
    /// resolves the field exactly as the base scenario does.
    pub proof fn lemma_resolved_scenario_free(self, s: int, f: int, row: u32)
        requires
            self.wf(),
            self.is_loaded(),
            0 <= f < self.schema.len(),
            row < self.row_count,
            s == 0 || self.col(s, f) is None,
        ensures
            self.resolved(s, f, row) == self.resolved(0, f, row),
    {
        self.lemma_resolved_base(f, row);
    }

    /// Every resolved value of a string field is a code assigned in the
    /// field's dictionary, and so fits in 32 bits.
    pub proof fn lemma_resolved_code_fits(self, s: int, f: int, row: u32)
        requires
            self.wf(),
            self.is_loaded(),
            0 <= s < self.num_scenarios(),
            0 <= f < self.schema.len(),
            self.schema.fields@[f].data_type == DataType::Utf8,
            row < self.row_count,
        ensures
            self.resolved(s, f, row) < self.spec_dict_of(self.schema.names()[f]).len(),
            self.resolved(s, f, row) < u32::MAX as u64,
            self.resolved(s, f, row) as u32 as u64 == self.resolved(s, f, row),
    {
        let nm = self.schema.names()[f];
        assert(self.dictionary_provider.spec_has_dict(nm));
        let di = self.dictionary_provider.spec_dict_index(nm);
        assert(self.dictionary_provider.dicos@[di].wf());
        assert(self.spec_dict_of(nm).len() < u32::MAX as int);
        assert(self.col(0, f) is Some);
        assert(forall|i: int|
            0 <= i < self.col(0, f)->Some_0.raw().len() ==> #[trigger] self.col(
                0,
                f,
            )->Some_0.raw()[i] < self.spec_dict_of(nm).len());
        if self.col(s, f) is Some && s >= 1 {
            assert(self.wf_overlay_at(s, f));
            let m = self.mapping(s, f)->Some_0;
            match m.spec_get(row) {
                Some(t) => {
                    assert(m.sparse_pairs().contains_key(row));
                    assert(m.sparse_pairs()[row] < self.col(s, f)->Some_0.spec_len());
                    assert(forall|i: int|
                        0 <= i < self.col(s, f)->Some_0.raw().len() ==> #[trigger] self.col(
                            s,
                            f,
                        )->Some_0.raw()[i] < self.spec_dict_of(nm).len());
                },
                None => {},
            }
        }
    }

    /// The store's schema.
    pub fn schema(&self) -> (r: &Schema)
        ensures
            r == &self.schema,
    {
        &self.schema
    }

    /// The dictionary of a string field (or of the virtual `scenario`
    /// field); `Some` exactly when the store has one under that name.
    pub fn get_dictionary(&self, field: &str) -> (r: Option<&Dictionary>)
        requires
            self.wf(),
        ensures
            match r {
                Some(d) => self.dictionary_provider.spec_has_dict(field@) && d@ == self.spec_dict_of(
                    field@,
                ) && d.wf(),
                None => !self.dictionary_provider.spec_has_dict(field@),
            },
    {
        self.dictionary_provider.get(field)
    }
}

} // verus!
