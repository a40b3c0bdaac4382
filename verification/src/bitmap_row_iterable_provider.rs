//! The selection layer: bitmap-backed providers of the base rows a query
//! visits for a given scenario, filtered by accepted-value predicates on
//! dictionary-encoded fields.
use roaring::RoaringBitmap;
use vstd::prelude::*;

use crate::bitmap::{bitmap_clone, bitmap_insert, bitmap_new, bitmap_set, bitmap_to_vec};
use crate::datastore::Store;
use crate::types::{DataType, StoreError};

verus! {

/// The view of one predicate entry: a field name and its accepted codes.
pub open spec fn entry_view(e: (String, Vec<u32>)) -> (Seq<char>, Seq<u32>) {
    (e.0@, e.1@)
}

pub open spec fn entries_view(v: Seq<(String, Vec<u32>)>) -> Seq<(Seq<char>, Seq<u32>)> {
    v.map_values(|e: (String, Vec<u32>)| entry_view(e))
}

/// Whether row `r` of scenario `s` carries an accepted code for field `f`.
pub open spec fn spec_pred_passes(
    store: Store,
    s: int,
    f: int,
    accepted: Seq<u32>,
    r: u32,
) -> bool {
    accepted.contains(store.resolved(s, f, r) as u32)
}

/// Whether row `r` satisfies every predicate of `av` against scenario `s`.
pub open spec fn spec_row_selected(
    store: Store,
    av: Seq<(Seq<char>, Seq<u32>)>,
    s: int,
    r: u32,
) -> bool {
    forall|k: int|
        0 <= k < av.len() ==> spec_pred_passes(
            store,
            s,
            store.schema.spec_field_index((#[trigger] av[k]).0),
            av[k].1,
            r,
        )
}

/// Every predicate names a string field of the schema.
pub open spec fn spec_entries_wf(store: Store, av: Seq<(Seq<char>, Seq<u32>)>) -> bool {
    forall|k: int|
        0 <= k < av.len() ==> store.schema.spec_has_field((#[trigger] av[k]).0)
            && store.schema.fields@[store.schema.spec_field_index(av[k].0)].data_type
            == DataType::Utf8
}

/// Two predicate lists with the same entries select the same rows.
pub proof fn lemma_selected_equiv(
    store: Store,
    av1: Seq<(Seq<char>, Seq<u32>)>,
    av2: Seq<(Seq<char>, Seq<u32>)>,
    s: int,
    r: u32,
)
    requires
        forall|k: int| 0 <= k < av1.len() ==> av2.contains(#[trigger] av1[k]),
        forall|k: int| 0 <= k < av2.len() ==> av1.contains(#[trigger] av2[k]),
    ensures
        spec_row_selected(store, av1, s, r) == spec_row_selected(store, av2, s, r),
{
    if spec_row_selected(store, av1, s, r) {
        assert forall|k: int|
            0 <= k < av2.len() implies spec_pred_passes(
            store,
            s,
            store.schema.spec_field_index((#[trigger] av2[k]).0),
            av2[k].1,
            r,
        ) by {
            let l = choose|l: int| 0 <= l < av1.len() && av1[l] == av2[k];
            assert(spec_pred_passes(
                store,
                s,
                store.schema.spec_field_index(av1[l].0),
                av1[l].1,
                r,
            ));
        }
    }
    if spec_row_selected(store, av2, s, r) {
        assert forall|k: int|
            0 <= k < av1.len() implies spec_pred_passes(
            store,
            s,
            store.schema.spec_field_index((#[trigger] av1[k]).0),
            av1[k].1,
            r,
        ) by {
            let l = choose|l: int| 0 <= l < av2.len() && av2[l] == av1[k];
            assert(spec_pred_passes(
                store,
                s,
                store.schema.spec_field_index(av2[l].0),
                av2[l].1,
                r,
            ));
        }
    }
}

/// Whether `vals` holds `code`.
fn codes_contain(vals: &Vec<u32>, code: u32) -> (r: bool)
    ensures
        r == vals@.contains(code),
{
    let mut i: usize = 0;
    while i < vals.len()
        invariant
            i <= vals@.len(),
            forall|j: int| 0 <= j < i ==> vals@[j] != code,
        decreases vals@.len() - i,
    {
        if vals[i] == code {
            return true;
        }
        i = i + 1;
    }
    false
}

/// A forward, finite, single-pass sequence of base row indices.
pub enum RowIterable {
    RoaringBitmap(RoaringBitmap),
    Range(u32, u32),
}

impl RowIterable {
    /// The set of rows the iterable visits.
    pub open spec fn spec_rows(self) -> Set<u32> {
        match self {
            RowIterable::RoaringBitmap(b) => bitmap_set(b),
            RowIterable::Range(start, end) => Set::new(|r: u32| start <= r < end),
        }
    }

    /// The rows to visit, in strictly ascending order.
    pub fn rows(&self) -> (r: Vec<u32>)
        ensures
            forall|i: int, j: int| 0 <= i < j < r@.len() ==> r@[i] < r@[j],
            forall|i: int| 0 <= i < r@.len() ==> self.spec_rows().contains(#[trigger] r@[i]),
            forall|v: u32| self.spec_rows().contains(v) ==> r@.contains(v),
    {
        match self {
            RowIterable::RoaringBitmap(b) => bitmap_to_vec(b),
            RowIterable::Range(start, end) => {
                let mut r: Vec<u32> = Vec::new();
                let mut row = *start;
                while row < *end
                    invariant
                        *start <= row <= *end || (*end < *start && row == *start),
                        forall|i: int, j: int| 0 <= i < j < r@.len() ==> r@[i] < r@[j],
                        forall|i: int| 0 <= i < r@.len() ==> *start <= (#[trigger] r@[i]) < row,
                        forall|v: u32| *start <= v < row ==> r@.contains(v),
                    decreases *end - row,
                {
                    let ghost pre = r@;
                    r.push(row);
                    proof {
                        assert(r@[r@.len() - 1] == row);
                        assert forall|v: u32| *start <= v < row + 1 implies r@.contains(v) by {
                            if v < row {
                                assert(pre.contains(v));
                                let i = choose|i: int| 0 <= i < pre.len() && pre[i] == v;
                                assert(r@[i] == pre[i]);
                                assert(r@[i] == v);
                            } else {
                                assert(r@[r@.len() - 1] == v);
                            }
                        }
                    }
                    row = row + 1;
                }
                r
            },
        }
    }
}

/// The provider used when no predicate is active: every base row, for every
/// scenario.
pub struct RangeRowIterable {
    pub start: u32,
    pub end: u32,
}

impl RangeRowIterable {
    pub fn get(&self, _scenario: &str) -> (r: RowIterable)
        ensures
            r == RowIterable::Range(self.start, self.end),
    {
        RowIterable::Range(self.start, self.end)
    }
}

/// Keep only the rows of `bitmap` whose resolved value for `field` under
/// `scenario` is among `vals`.
fn apply_condition(
    store: &Store,
    field: &str,
    vals: &Vec<u32>,
    scenario: &str,
    bitmap: &RoaringBitmap,
) -> (r: RoaringBitmap)
    requires
        store.wf(),
        store.is_loaded(),
        store.spec_has_scenario(scenario@),
        store.schema.spec_has_field(field@),
        store.schema.fields@[store.schema.spec_field_index(field@)].data_type == DataType::Utf8,
        forall|row: u32| bitmap_set(*bitmap).contains(row) ==> row < store.row_count,
    ensures
        forall|row: u32|
            bitmap_set(r).contains(row) <==> bitmap_set(*bitmap).contains(row)
                && spec_pred_passes(
                *store,
                store.spec_scenario_code(scenario@),
                store.schema.spec_field_index(field@),
                vals@,
                row,
            ),
{
    let ghost s = store.spec_scenario_code(scenario@);
    let ghost f = store.schema.spec_field_index(field@);
    proof {
        assert(0 <= s < store.num_scenarios()) by {
            assert(store.scenario_dict()[s] == scenario@);
        }
    }
    let reader = store.get_scenario_chunk_array(scenario, field);
    let rows = bitmap_to_vec(bitmap);
    let mut out = bitmap_new();
    let mut i: usize = 0;
    while i < rows.len()
        invariant
            i <= rows@.len(),
            store.wf(),
            store.is_loaded(),
            0 <= s < store.num_scenarios(),
            0 <= f < store.schema.len(),
            store.schema.fields@[f].data_type == DataType::Utf8,
            reader.wf(),
            reader.spec_base().spec_len() == store.row_count,
            forall|row: u32|
                row < store.row_count ==> reader.spec_read(row) == store.resolved(s, f, row),
            forall|j: int| 0 <= j < rows@.len() ==> bitmap_set(*bitmap).contains(#[trigger] rows@[j]),
            forall|v: u32| bitmap_set(*bitmap).contains(v) ==> rows@.contains(v),
            forall|row: u32| bitmap_set(*bitmap).contains(row) ==> row < store.row_count,
            forall|row: u32|
                bitmap_set(out).contains(row) <==> ((exists|j: int|
                    0 <= j < i && rows@[j] == row) && spec_pred_passes(*store, s, f, vals@, row)),
        decreases rows@.len() - i,
    {
        let row = rows[i];
        let value = reader.read(row);
        let code = value as u32;
        proof {
            assert(bitmap_set(*bitmap).contains(row));
            assert(row < store.row_count);
            store.lemma_resolved_code_fits(s, f, row);
            assert(store.resolved(s, f, row) < u32::MAX as u64);
            assert(code == store.resolved(s, f, row) as u32);
        }
        let ghost pre = bitmap_set(out);
        if codes_contain(vals, code) {
            let _ = bitmap_insert(&mut out, row);
            proof {
                assert(spec_pred_passes(*store, s, f, vals@, row));
                assert forall|rw: u32| bitmap_set(out).contains(rw) implies ((exists|j: int|
                    0 <= j < i + 1 && rows@[j] == rw) && spec_pred_passes(
                    *store,
                    s,
                    f,
                    vals@,
                    rw,
                )) by {
                    if rw == row {
                        assert(rows@[i as int] == rw);
                    } else {
                        assert(pre.contains(rw));
                    }
                }
            }
        }
        i = i + 1;
    }
    proof {
        assert forall|row: u32| bitmap_set(out).contains(row) <==> bitmap_set(*bitmap).contains(
            row,
        ) && spec_pred_passes(*store, s, f, vals@, row) by {
            if bitmap_set(*bitmap).contains(row) {
                let j = choose|j: int| 0 <= j < rows@.len() && rows@[j] == row;
                assert(0 <= j < rows@.len() && rows@[j] == row);
            }
        }
    }
    out
}

/// The provider used when at least one predicate is active. Predicates on
/// fields with no overlay column anywhere are folded once into an initial
/// bitmap against the base; the rest are applied per scenario through the
/// scenario-aware readers.
pub struct BitmapRowIterableProvider<'a> {
    pub store: &'a Store,
    pub fields_without_sim: Vec<(String, Vec<u32>)>,
    pub fields_with_sim: Vec<(String, Vec<u32>)>,
    pub initial_iterator: RoaringBitmap,
}

impl<'a> BitmapRowIterableProvider<'a> {
    /// All predicate entries, the overlay-free ones first.
    pub open spec fn av(self) -> Seq<(Seq<char>, Seq<u32>)> {
        entries_view(self.fields_without_sim@) + entries_view(self.fields_with_sim@)
    }

    pub open spec fn wf(self) -> bool {
        &&& self.store.wf()
        &&& self.store.is_loaded()
        &&& spec_entries_wf(*self.store, self.av())
        &&& forall|k: int|
            0 <= k < self.fields_without_sim@.len() ==> forall|s: int|
                1 <= s < self.store.num_scenarios() ==> self.store.col(
                    s,
                    self.store.schema.spec_field_index(
                        (#[trigger] self.fields_without_sim@[k]).0@,
                    ),
                ) is None
        &&& forall|row: u32|
            bitmap_set(self.initial_iterator).contains(row) <==> row < self.store.row_count
                && spec_row_selected(
                *self.store,
                entries_view(self.fields_without_sim@),
                0,
                row,
            )
    }

    /// Build the provider: partition the predicates by whether their field
    /// has an overlay column anywhere, and fold the overlay-free ones into
    /// the scenario-independent initial bitmap. The reserved `scenario`
    /// field is not a predicate field: its presence is a `UsageError`.
    pub fn new(accepted_values_by_field: Vec<(String, Vec<u32>)>, store: &'a Store) -> (r: Result<
        BitmapRowIterableProvider<'a>,
        StoreError,
    >)
        requires
            store.wf(),
            store.is_loaded(),
            forall|k: int|
                0 <= k < accepted_values_by_field@.len() && (
                #[trigger] accepted_values_by_field@[k]).0@
                    != crate::datastore::spec_scenario_field_name() ==> store.schema.spec_has_field(
                    accepted_values_by_field@[k].0@,
                ) && store.schema.fields@[store.schema.spec_field_index(
                    accepted_values_by_field@[k].0@,
                )].data_type == DataType::Utf8,
        ensures
            ({
                let input = entries_view(accepted_values_by_field@);
                match r {
                    Ok(p) => {
                        &&& (forall|k: int|
                            0 <= k < input.len() ==> (#[trigger] input[k]).0
                                != crate::datastore::spec_scenario_field_name())
                        &&& p.wf()
                        &&& *p.store == *store
                        &&& forall|k: int| 0 <= k < input.len() ==> p.av().contains(#[trigger] input[k])
                        &&& forall|k: int|
                            0 <= k < p.av().len() ==> input.contains(#[trigger] p.av()[k])
                    },
                    Err(e) => e == StoreError::UsageError && exists|k: int|
                        0 <= k < input.len() && (#[trigger] input[k]).0
                            == crate::datastore::spec_scenario_field_name(),
                }
            }),
    {
        let ghost input = entries_view(accepted_values_by_field@);

        // The scenario coordinate is handled by the engine, never here.
        let mut k: usize = 0;
        while k < accepted_values_by_field.len()
            invariant
                k <= accepted_values_by_field@.len(),
                input == entries_view(accepted_values_by_field@),
                forall|j: int|
                    0 <= j < k ==> (#[trigger] input[j]).0
                        != crate::datastore::spec_scenario_field_name(),
            decreases accepted_values_by_field@.len() - k,
        {
            if crate::types::str_eq(
                accepted_values_by_field[k].0.as_str(),
                crate::datastore::scenario_field_name(),
            ) {
                proof {
                    assert(input[k as int] == entry_view(accepted_values_by_field@[k as int]));
                    assert(input[k as int].0 == crate::datastore::spec_scenario_field_name());
                }
                return Err(StoreError::UsageError);
            }
            k = k + 1;
        }

        // Partition by whether the field has an overlay column anywhere.
        let mut fields_without_sim: Vec<(String, Vec<u32>)> = Vec::new();
        let mut fields_with_sim: Vec<(String, Vec<u32>)> = Vec::new();
        let mut k2: usize = 0;
        while k2 < accepted_values_by_field.len()
            invariant
                k2 <= accepted_values_by_field@.len(),
                input == entries_view(accepted_values_by_field@),
                store.wf(),
                store.is_loaded(),
                forall|j: int|
                    0 <= j < input.len() ==> (#[trigger] input[j]).0
                        != crate::datastore::spec_scenario_field_name(),
                forall|j: int|
                    0 <= j < input.len() ==> store.schema.spec_has_field((#[trigger] input[j]).0)
                        && store.schema.fields@[store.schema.spec_field_index(
                        input[j].0,
                    )].data_type == DataType::Utf8,
                forall|j: int|
                    0 <= j < fields_without_sim@.len() ==> input.contains(
                        entry_view(#[trigger] fields_without_sim@[j]),
                    ),
                forall|j: int|
                    0 <= j < fields_with_sim@.len() ==> input.contains(
                        entry_view(#[trigger] fields_with_sim@[j]),
                    ),
                forall|j: int|
                    0 <= j < k2 ==> entries_view(fields_without_sim@).contains(#[trigger] input[j])
                        || entries_view(fields_with_sim@).contains(input[j]),
                forall|j: int|
                    0 <= j < fields_without_sim@.len() ==> forall|s: int|
                        1 <= s < store.num_scenarios() ==> store.col(
                            s,
                            store.schema.spec_field_index(
                                (#[trigger] fields_without_sim@[j]).0@,
                            ),
                        ) is None,
            decreases accepted_values_by_field@.len() - k2,
        {
            let name = String::from_str(accepted_values_by_field[k2].0.as_str());
            let vals = crate::datastore::copy_codes(&accepted_values_by_field[k2].1);
            proof {
                assert(input[k2 as int] == entry_view(accepted_values_by_field@[k2 as int]));
                assert(name@ == input[k2 as int].0);
                assert(vals@ == input[k2 as int].1);
            }
            let f = match store.schema.field_index(name.as_str()) {
                Some(f) => f,
                None => unreached(),
            };
            proof {
                let fi = store.schema.spec_field_index(name@);
                if fi != f as int {
                    if fi < f as int {
                        assert(store.schema.names()[fi] != store.schema.names()[f as int]);
                    } else {
                        assert(store.schema.names()[f as int] != store.schema.names()[fi]);
                    }
                }
            }
            let mut has_overlay = false;
            let mut s: usize = 1;
            while s < store.vector_by_field_by_scenario.len()
                invariant
                    1 <= s <= store.num_scenarios(),
                    store.wf(),
                    store.is_loaded(),
                    (f as int) < store.schema.len(),
                    has_overlay == exists|t: int|
                        1 <= t < s && (#[trigger] store.col(t, f as int)) is Some,
                decreases store.vector_by_field_by_scenario@.len() - s,
            {
                if store.vector_by_field_by_scenario[s].len() > f {
                    if store.vector_by_field_by_scenario[s][f].is_some() {
                        proof {
                            assert(store.col(s as int, f as int) is Some);
                        }
                        has_overlay = true;
                    }
                }
                s = s + 1;
            }
            let ghost e = (name@, vals@);
            proof {
                assert(entry_view(accepted_values_by_field@[k2 as int]) == e);
                assert(input[k2 as int] == e);
            }
            if has_overlay {
                let ghost pre = fields_with_sim@;
                fields_with_sim.push((name, vals));
                proof {
                    assert(entry_view(fields_with_sim@[fields_with_sim@.len() - 1]) == e);
                    assert(entries_view(fields_with_sim@)[fields_with_sim@.len() - 1] == e);
                    assert(entries_view(fields_with_sim@).contains(input[k2 as int]));
                    assert(forall|j: int|
                        0 <= j < pre.len() ==> fields_with_sim@[j] == pre[j]);
                    assert forall|j: int|
                        0 <= j < k2 + 1 implies entries_view(fields_without_sim@).contains(
                        #[trigger] input[j],
                    ) || entries_view(fields_with_sim@).contains(input[j]) by {
                        if j < k2 {
                            if entries_view(pre).contains(input[j]) {
                                let l = choose|l: int|
                                    0 <= l < pre.len() && entries_view(pre)[l] == input[j];
                                assert(entries_view(fields_with_sim@)[l] == input[j]);
                            }
                        }
                    }
                }
            } else {
                let ghost pre = fields_without_sim@;
                fields_without_sim.push((name, vals));
                proof {
                    assert(entry_view(fields_without_sim@[fields_without_sim@.len() - 1]) == e);
                    assert(entries_view(fields_without_sim@)[fields_without_sim@.len() - 1] == e);
                    assert(entries_view(fields_without_sim@).contains(input[k2 as int]));
                    assert(forall|j: int|
                        0 <= j < pre.len() ==> fields_without_sim@[j] == pre[j]);
                    assert forall|j: int|
                        0 <= j < k2 + 1 implies entries_view(fields_without_sim@).contains(
                        #[trigger] input[j],
                    ) || entries_view(fields_with_sim@).contains(input[j]) by {
                        if j < k2 {
                            if entries_view(pre).contains(input[j]) {
                                let l = choose|l: int|
                                    0 <= l < pre.len() && entries_view(pre)[l] == input[j];
                                assert(entries_view(fields_without_sim@)[l] == input[j]);
                            }
                        }
                    }
                }
            }
            k2 = k2 + 1;
        }

        // The initial bitmap: every base row, filtered by each overlay-free
        // predicate, read against the base scenario.
        let mut bitmap = bitmap_new();
        let row_count = store.row_count as u32;
        let mut row: u32 = 0;
        while row < row_count
            invariant
                row <= row_count,
                row_count == store.row_count,
                forall|v: u32| bitmap_set(bitmap).contains(v) <==> v < row,
            decreases row_count - row,
        {
            let ghost pre = bitmap_set(bitmap);
            let _ = bitmap_insert(&mut bitmap, row);
            proof {
                assert forall|v: u32| bitmap_set(bitmap).contains(v) <==> v < row + 1 by {
                    if v == row {
                    } else {
                    }
                }
            }
            row = row + 1;
        }
        let mut k3: usize = 0;
        proof {
            assert(store.spec_has_scenario(crate::datastore::spec_main_scenario_name())) by {
                assert(store.scenario_dict()[0] == crate::datastore::spec_main_scenario_name());
            }
        }
        while k3 < fields_without_sim.len()
            invariant
                k3 <= fields_without_sim@.len(),
                store.wf(),
                store.is_loaded(),
                store.spec_has_scenario(crate::datastore::spec_main_scenario_name()),
                spec_entries_wf(*store, entries_view(fields_without_sim@)),
                forall|v: u32| bitmap_set(bitmap).contains(v) ==> v < store.row_count,
                forall|v: u32|
                    bitmap_set(bitmap).contains(v) <==> v < store.row_count && (forall|j: int|
                        0 <= j < k3 ==> spec_pred_passes(
                            *store,
                            0,
                            store.schema.spec_field_index(
                                entries_view(fields_without_sim@)[j].0,
                            ),
                            (#[trigger] entries_view(fields_without_sim@)[j]).1,
                            v,
                        )),
            decreases fields_without_sim@.len() - k3,
        {
            let ghost preset = bitmap_set(bitmap);
            proof {
                assert(entries_view(fields_without_sim@)[k3 as int] == entry_view(
                    fields_without_sim@[k3 as int],
                ));
                assert(store.spec_scenario_code(crate::datastore::spec_main_scenario_name()) == 0)
                    by {
                    crate::datastore::lemma_seq_position_unique(
                        store.scenario_dict(),
                        crate::datastore::spec_main_scenario_name(),
                        0,
                    );
                }
            }
            let filtered = apply_condition(
                store,
                fields_without_sim[k3].0.as_str(),
                &fields_without_sim[k3].1,
                crate::datastore::main_scenario_name(),
                &bitmap,
            );
            bitmap = filtered;
            proof {
                assert forall|v: u32|
                    bitmap_set(bitmap).contains(v) <==> v < store.row_count && (forall|j: int|
                        0 <= j < k3 + 1 ==> spec_pred_passes(
                            *store,
                            0,
                            store.schema.spec_field_index(
                                entries_view(fields_without_sim@)[j].0,
                            ),
                            (#[trigger] entries_view(fields_without_sim@)[j]).1,
                            v,
                        )) by {
                    if bitmap_set(bitmap).contains(v) {
                        assert(preset.contains(v));
                    }
                    if v < store.row_count && (forall|j: int|
                        0 <= j < k3 + 1 ==> spec_pred_passes(
                            *store,
                            0,
                            store.schema.spec_field_index(
                                entries_view(fields_without_sim@)[j].0,
                            ),
                            (#[trigger] entries_view(fields_without_sim@)[j]).1,
                            v,
                        )) {
                        assert(preset.contains(v));
                        assert(spec_pred_passes(
                            *store,
                            0,
                            store.schema.spec_field_index(
                                entries_view(fields_without_sim@)[k3 as int].0,
                            ),
                            entries_view(fields_without_sim@)[k3 as int].1,
                            v,
                        ));
                    }
                }
            }
            k3 = k3 + 1;
        }

        let r = BitmapRowIterableProvider {
            store,
            fields_without_sim,
            fields_with_sim,
            initial_iterator: bitmap,
        };
        proof {
            assert forall|j: int| 0 <= j < r.av().len() implies input.contains(
                #[trigger] r.av()[j],
            ) by {
                let wo = entries_view(r.fields_without_sim@);
                if j < wo.len() {
                    assert(r.av()[j] == entry_view(r.fields_without_sim@[j]));
                } else {
                    assert(r.av()[j] == entry_view(
                        r.fields_with_sim@[j - wo.len()],
                    ));
                }
            }
            assert forall|j: int| 0 <= j < input.len() implies r.av().contains(
                #[trigger] input[j],
            ) by {
                if entries_view(r.fields_without_sim@).contains(input[j]) {
                    let l = choose|l: int|
                        0 <= l < entries_view(r.fields_without_sim@).len() && entries_view(
                            r.fields_without_sim@,
                        )[l] == input[j];
                    assert(r.av()[l] == input[j]);
                } else {
                    assert(entries_view(r.fields_with_sim@).contains(input[j]));
                    let l = choose|l: int|
                        0 <= l < entries_view(r.fields_with_sim@).len() && entries_view(
                            r.fields_with_sim@,
                        )[l] == input[j];
                    assert(r.av()[entries_view(r.fields_without_sim@).len() + l] == input[j]);
                }
            }
            assert forall|k4: int| 0 <= k4 < r.av().len() implies store.schema.spec_has_field(
                (#[trigger] r.av()[k4]).0,
            ) && store.schema.fields@[store.schema.spec_field_index(r.av()[k4].0)].data_type
                == DataType::Utf8 by {
                let l = choose|l: int| 0 <= l < input.len() && input[l] == r.av()[k4];
                assert(store.schema.spec_has_field(input[l].0));
            }
            assert(r.wf());
        }
        Ok(r)
    }

    /// The rows to visit for `scenario`: the initial bitmap, narrowed by
    /// each overlay-aware predicate read through the scenario.
    pub fn get(&self, scenario: &str) -> (r: RowIterable)
        requires
            self.wf(),
            self.store.spec_has_scenario(scenario@),
        ensures
            forall|row: u32|
                r.spec_rows().contains(row) <==> row < self.store.row_count && spec_row_selected(
                    *self.store,
                    self.av(),
                    self.store.spec_scenario_code(scenario@),
                    row,
                ),
    {
        self.create(scenario)
    }

    /// See [`Self::get`].
    pub fn create(&self, scenario: &str) -> (r: RowIterable)
        requires
            self.wf(),
            self.store.spec_has_scenario(scenario@),
        ensures
            forall|row: u32|
                r.spec_rows().contains(row) <==> row < self.store.row_count && spec_row_selected(
                    *self.store,
                    self.av(),
                    self.store.spec_scenario_code(scenario@),
                    row,
                ),
    {
        let store = self.store;
        let ghost s = store.spec_scenario_code(scenario@);
        let mut bitmap = bitmap_clone(&self.initial_iterator);
        let ghost wo = entries_view(self.fields_without_sim@);
        let ghost wi = entries_view(self.fields_with_sim@);
        proof {
            // Overlay-free predicates read the same value in every
            // scenario, so the initial bitmap is exact for `scenario` too.
            assert(0 <= s < store.num_scenarios()) by {
                assert(store.scenario_dict()[s] == scenario@);
            }
            assert forall|row: u32|
                bitmap_set(bitmap).contains(row) <==> row < store.row_count && spec_row_selected(
                    *store,
                    wo,
                    s,
                    row,
                ) by {
                if row < store.row_count {
                    assert forall|j: int|
                        0 <= j < wo.len() implies (spec_pred_passes(
                        *store,
                        0,
                        store.schema.spec_field_index((#[trigger] wo[j]).0),
                        wo[j].1,
                        row,
                    ) == spec_pred_passes(
                        *store,
                        s,
                        store.schema.spec_field_index(wo[j].0),
                        wo[j].1,
                        row,
                    )) by {
                        let f = store.schema.spec_field_index(wo[j].0);
                        assert(self.av()[j] == wo[j]);
                        if s != 0 {
                            assert(self.store.col(
                                s,
                                self.store.schema.spec_field_index(
                                    self.fields_without_sim@[j].0@,
                                ),
                            ) is None);
                            assert(wo[j].0 == self.fields_without_sim@[j].0@);
                        }
                        store.lemma_resolved_scenario_free(s, f, row);
                    }
                }
            }
        }
        let mut k: usize = 0;
        while k < self.fields_with_sim.len()
            invariant
                k <= self.fields_with_sim@.len(),
                self.wf(),
                self.store == store,
                store.spec_has_scenario(scenario@),
                s == store.spec_scenario_code(scenario@),
                wo == entries_view(self.fields_without_sim@),
                wi == entries_view(self.fields_with_sim@),
                forall|row: u32|
                    bitmap_set(bitmap).contains(row) <==> row < store.row_count
                        && spec_row_selected(*store, wo, s, row) && (forall|j: int|
                        0 <= j < k ==> spec_pred_passes(
                            *store,
                            s,
                            store.schema.spec_field_index((#[trigger] wi[j]).0),
                            wi[j].1,
                            row,
                        )),
            decreases self.fields_with_sim@.len() - k,
        {
            let ghost preset = bitmap_set(bitmap);
            proof {
                assert(wi[k as int] == entry_view(self.fields_with_sim@[k as int]));
                assert(store.schema.spec_has_field(wi[k as int].0)) by {
                    assert(self.av()[wo.len() + k] == wi[k as int]);
                }
            }
            let filtered = apply_condition(
                store,
                self.fields_with_sim[k].0.as_str(),
                &self.fields_with_sim[k].1,
                scenario,
                &bitmap,
            );
            bitmap = filtered;
            proof {
                assert forall|row: u32|
                    bitmap_set(bitmap).contains(row) <==> row < store.row_count
                        && spec_row_selected(*store, wo, s, row) && (forall|j: int|
                        0 <= j < k + 1 ==> spec_pred_passes(
                            *store,
                            s,
                            store.schema.spec_field_index((#[trigger] wi[j]).0),
                            wi[j].1,
                            row,
                        )) by {
                    if bitmap_set(bitmap).contains(row) {
                        assert(preset.contains(row));
                    }
                    if row < store.row_count && spec_row_selected(*store, wo, s, row) && (forall|
                        j: int,
                    |
                        0 <= j < k + 1 ==> spec_pred_passes(
                            *store,
                            s,
                            store.schema.spec_field_index((#[trigger] wi[j]).0),
                            wi[j].1,
                            row,
                        )) {
                        assert(preset.contains(row));
                        assert(spec_pred_passes(
                            *store,
                            s,
                            store.schema.spec_field_index(wi[k as int].0),
                            wi[k as int].1,
                            row,
                        ));
                    }
                }
            }
            k = k + 1;
        }
        proof {
            assert forall|row: u32|
                bitmap_set(bitmap).contains(row) <==> row < store.row_count && spec_row_selected(
                    *store,
                    self.av(),
                    s,
                    row,
                ) by {
                if row < store.row_count {
                    if spec_row_selected(*store, self.av(), s, row) {
                        assert forall|j: int| 0 <= j < wo.len() implies spec_pred_passes(
                            *store,
                            s,
                            store.schema.spec_field_index((#[trigger] wo[j]).0),
                            wo[j].1,
                            row,
                        ) by {
                            assert(self.av()[j] == wo[j]);
                        }
                        assert forall|j: int| 0 <= j < wi.len() implies spec_pred_passes(
                            *store,
                            s,
                            store.schema.spec_field_index((#[trigger] wi[j]).0),
                            wi[j].1,
                            row,
                        ) by {
                            assert(self.av()[wo.len() + j] == wi[j]);
                        }
                    }
                    if bitmap_set(bitmap).contains(row) {
                        assert forall|j: int| 0 <= j < self.av().len() implies spec_pred_passes(
                            *store,
                            s,
                            store.schema.spec_field_index((#[trigger] self.av()[j]).0),
                            self.av()[j].1,
                            row,
                        ) by {
                            if j < wo.len() {
                                assert(self.av()[j] == wo[j]);
                            } else {
                                assert(self.av()[j] == wi[j - wo.len()]);
                            }
                        }
                    }
                }
            }
        }
        RowIterable::RoaringBitmap(bitmap)
    }
}

} // verus!
