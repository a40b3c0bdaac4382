//! The query engine: drives the scenario loop, the selection, the point
//! mapping and the aggregation, and returns the result table.
use vstd::prelude::*;

use crate::aggregator::{AggregateBuffers, Aggregator, AggregatorFactory, float64_add_bits};
use crate::bitmap_row_iterable_provider::spec_row_selected;
use crate::chunk_array::ChunkArrayReader;
use crate::datastore::{seq_position, spec_scenario_field_name, Store};
use crate::dictionary_provider::Dictionary;
use crate::point_dictionary::PointDictionary;
use crate::point_list_aggregates_result::PointListAggregateResult;
use crate::query::Query;
use crate::row_iterable_provider::{RowIterableProvider, RowIterableProviderFactory};
use crate::types::{DataType, StoreError};

verus! {

/// The index of the first coordinate named `name`, or -1 when none is.
pub open spec fn spec_find_coord(
    coords: Seq<(Seq<char>, Option<Seq<Seq<char>>>)>,
    name: Seq<char>,
) -> int
    decreases coords.len(),
{
    if coords.len() == 0 {
        -1
    } else if coords[0].0 == name {
        0
    } else {
        let r = spec_find_coord(coords.drop_first(), name);
        if r < 0 {
            -1
        } else {
            r + 1
        }
    }
}

/// `spec_find_coord` returns the first match, or -1 when there is none.
pub proof fn lemma_find_coord(coords: Seq<(Seq<char>, Option<Seq<Seq<char>>>)>, name: Seq<char>)
    ensures
        spec_find_coord(coords, name) == -1 ==> forall|k: int|
            0 <= k < coords.len() ==> (#[trigger] coords[k]).0 != name,
        spec_find_coord(coords, name) >= 0 ==> 0 <= spec_find_coord(coords, name) < coords.len()
            && coords[spec_find_coord(coords, name)].0 == name && forall|k: int|
            0 <= k < spec_find_coord(coords, name) ==> (#[trigger] coords[k]).0 != name,
    decreases coords.len(),
{
    if coords.len() > 0 && coords[0].0 != name {
        lemma_find_coord(coords.drop_first(), name);
        let r = spec_find_coord(coords.drop_first(), name);
        if r >= 0 {
            assert(coords.drop_first()[r] == coords[r + 1]);
            assert(forall|k: int|
                1 <= k < r + 1 ==> coords.drop_first()[k - 1] == (#[trigger] coords[k]));
        } else {
            assert(forall|k: int|
                1 <= k < coords.len() ==> coords.drop_first()[k - 1] == (#[trigger] coords[k]));
        }
    }
}

/// The codes a dictionary assigns to the known names among `names`, in
/// order; unknown names are dropped.
pub open spec fn spec_codes_of(dict: Seq<Seq<char>>, names: Seq<Seq<char>>) -> Seq<u32>
    decreases names.len(),
{
    if names.len() == 0 {
        Seq::<u32>::empty()
    } else {
        let prev = spec_codes_of(dict, names.drop_last());
        if dict.contains(names.last()) {
            prev.push(seq_position(dict, names.last()) as u32)
        } else {
            prev
        }
    }
}


/// The queried scenario codes: every scenario for a wildcard `scenario`
/// coordinate, the known listed ones for a list, the base alone otherwise.
pub open spec fn spec_queried_scenarios(
    store: Store,
    coords: Seq<(Seq<char>, Option<Seq<Seq<char>>>)>,
) -> Seq<u32> {
    let i = spec_find_coord(coords, spec_scenario_field_name());
    if i < 0 {
        seq![0u32]
    } else {
        match coords[i].1 {
            Option::None => Seq::new(store.num_scenarios(), |k: int| k as u32),
            Option::Some(names) => spec_codes_of(store.scenario_dict(), names),
        }
    }
}

/// The predicate entries of a query: each non-scenario list coordinate,
/// its values translated to codes. Values absent from the dictionary are
/// silently dropped; a coordinate left with no known value constrains
/// nothing and is dropped whole.
pub open spec fn spec_accepted(
    store: Store,
    coords: Seq<(Seq<char>, Option<Seq<Seq<char>>>)>,
) -> Seq<(Seq<char>, Seq<u32>)>
    decreases coords.len(),
{
    if coords.len() == 0 {
        Seq::<(Seq<char>, Seq<u32>)>::empty()
    } else {
        let prev = spec_accepted(store, coords.drop_last());
        let e = coords.last();
        if e.0 == spec_scenario_field_name() {
            prev
        } else {
            match e.1 {
                Option::None => prev,
                Option::Some(vals) => {
                    let codes = spec_codes_of(store.spec_dict_of(e.0), vals);
                    if codes.len() == 0 {
                        prev
                    } else {
                        prev.push((e.0, codes))
                    }
                },
            }
        }
    }
}

/// The group-key point of one (scenario, row) event: the scenario code in
/// each `scenario` position, the resolved dictionary code elsewhere.
pub open spec fn spec_point(
    store: Store,
    coords: Seq<(Seq<char>, Option<Seq<Seq<char>>>)>,
    s_code: u32,
    r: u32,
) -> Seq<u32> {
    Seq::new(
        coords.len(),
        |i: int|
            if coords[i].0 == spec_scenario_field_name() {
                s_code
            } else {
                store.resolved(
                    s_code as int,
                    store.schema.spec_field_index(coords[i].0),
                    r,
                ) as u32
            },
    )
}

/// The selected rows among the first `k` of a scenario, ascending.
pub open spec fn spec_rows_upto(
    store: Store,
    av: Seq<(Seq<char>, Seq<u32>)>,
    s: int,
    k: int,
) -> Seq<u32>
    decreases k,
{
    if k <= 0 {
        Seq::<u32>::empty()
    } else {
        let prev = spec_rows_upto(store, av, s, k - 1);
        if spec_row_selected(store, av, s, (k - 1) as u32) {
            prev.push((k - 1) as u32)
        } else {
            prev
        }
    }
}

/// The rows a query visits for one scenario, in ascending order.
pub open spec fn spec_sel_rows(store: Store, av: Seq<(Seq<char>, Seq<u32>)>, s: int) -> Seq<u32> {
    spec_rows_upto(store, av, s, store.row_count as int)
}

/// Basic shape of the selected-row prefix: in range, ascending, membership
/// exactly the selected rows.
pub proof fn lemma_rows_upto_props(store: Store, av: Seq<(Seq<char>, Seq<u32>)>, s: int, k: int)
    requires
        0 <= k <= u32::MAX as int,
    ensures
        spec_rows_upto(store, av, s, k).len() <= k,
        forall|p: int|
            0 <= p < spec_rows_upto(store, av, s, k).len() ==> (#[trigger] spec_rows_upto(
                store,
                av,
                s,
                k,
            )[p]) < k && spec_row_selected(store, av, s, spec_rows_upto(store, av, s, k)[p]),
        forall|p: int, q: int|
            0 <= p < q < spec_rows_upto(store, av, s, k).len() ==> spec_rows_upto(
                store,
                av,
                s,
                k,
            )[p] < spec_rows_upto(store, av, s, k)[q],
        forall|r: u32|
            r < k && spec_row_selected(store, av, s, r) ==> spec_rows_upto(
                store,
                av,
                s,
                k,
            ).contains(r),
    decreases k,
{
    if k > 0 {
        lemma_rows_upto_props(store, av, s, k - 1);
        let prev = spec_rows_upto(store, av, s, k - 1);
        let cur = spec_rows_upto(store, av, s, k);
        if spec_row_selected(store, av, s, (k - 1) as u32) {
            assert(cur == prev.push((k - 1) as u32));
            assert(forall|p: int| 0 <= p < prev.len() ==> cur[p] == prev[p]);
            assert(cur[cur.len() - 1] == (k - 1) as u32);
            assert forall|r: u32|
                r < k && spec_row_selected(store, av, s, r) implies cur.contains(r) by {
                if r < k - 1 {
                    assert(prev.contains(r));
                    let p = choose|p: int| 0 <= p < prev.len() && prev[p] == r;
                    assert(cur[p] == r);
                } else {
                    assert(cur[cur.len() - 1] == r);
                }
            }
        } else {
            assert forall|r: u32|
                r < k && spec_row_selected(store, av, s, r) implies cur.contains(r) by {
                assert(r != (k - 1) as u32);
                assert(prev.contains(r));
                let p = choose|p: int| 0 <= p < prev.len() && prev[p] == r;
                assert(cur[p] == r);
            }
        }
    }
}

/// When every row is selected, the selected rows are every row.
pub proof fn lemma_rows_upto_all(store: Store, av: Seq<(Seq<char>, Seq<u32>)>, s: int, k: int)
    requires
        0 <= k <= u32::MAX as int,
        forall|r: u32| r < k ==> spec_row_selected(store, av, s, r),
    ensures
        spec_rows_upto(store, av, s, k) =~= Seq::new(k as nat, |i: int| i as u32),
    decreases k,
{
    if k > 0 {
        lemma_rows_upto_all(store, av, s, k - 1);
    }
}

/// Two strictly ascending sequences with the same members are equal.
pub proof fn lemma_sorted_unique(a: Seq<u32>, b: Seq<u32>)
    requires
        forall|p: int, q: int| 0 <= p < q < a.len() ==> a[p] < a[q],
        forall|p: int, q: int| 0 <= p < q < b.len() ==> b[p] < b[q],
        forall|v: u32| a.contains(v) <==> b.contains(v),
    ensures
        a =~= b,
    decreases a.len(),
{
    if a.len() == 0 {
        if b.len() > 0 {
            assert(b.contains(b[0]));
            assert(a.contains(b[0]));
        }
    } else {
        assert(a.contains(a[0]));
        assert(b.contains(a[0]));
        if b.len() == 0 {
            assert(!b.contains(a[0]));
        }
        assert(b.len() > 0);
        // The heads are both the minimum of the common member set.
        let ja = choose|j: int| 0 <= j < b.len() && b[j] == a[0];
        assert(b[0] <= b[ja]);
        assert(b.contains(b[0]));
        assert(a.contains(b[0]));
        let jb = choose|j: int| 0 <= j < a.len() && a[j] == b[0];
        assert(a[0] <= a[jb]);
        assert(a[0] == b[0]);
        let a1 = a.drop_first();
        let b1 = b.drop_first();
        assert(forall|p: int| 0 <= p < a1.len() ==> a1[p] == a[p + 1]);
        assert(forall|p: int| 0 <= p < b1.len() ==> b1[p] == b[p + 1]);
        assert forall|v: u32| a1.contains(v) <==> b1.contains(v) by {
            if a1.contains(v) {
                let j = choose|j: int| 0 <= j < a1.len() && a1[j] == v;
                assert(a[j + 1] == v);
                assert(a[0] < v);
                assert(a.contains(v));
                assert(b.contains(v));
                let l = choose|l: int| 0 <= l < b.len() && b[l] == v;
                assert(l != 0);
                assert(b1[l - 1] == v);
            }
            if b1.contains(v) {
                let j = choose|j: int| 0 <= j < b1.len() && b1[j] == v;
                assert(b[j + 1] == v);
                assert(b[0] < v);
                assert(b.contains(v));
                assert(a.contains(v));
                let l = choose|l: int| 0 <= l < a.len() && a[l] == v;
                assert(l != 0);
                assert(a1[l - 1] == v);
            }
        }
        lemma_sorted_unique(a1, b1);
        assert(a.len() == b.len());
        assert forall|i: int| 0 <= i < a.len() implies a[i] == b[i] by {
            if i > 0 {
                assert(a1[i - 1] == a[i]);
                assert(b1[i - 1] == b[i]);
                assert(a1[i - 1] == b1[i - 1]);
            }
        }
        assert(a =~= b);
    }
}

/// The (scenario code, row) events a query visits, scenario-major, rows
/// ascending within each scenario.
pub open spec fn spec_events(store: Store, av: Seq<(Seq<char>, Seq<u32>)>, scs: Seq<u32>) -> Seq<
    (u32, u32),
>
    decreases scs.len(),
{
    if scs.len() == 0 {
        Seq::<(u32, u32)>::empty()
    } else {
        spec_events(store, av, scs.drop_last()) + spec_sel_rows(
            store,
            av,
            scs.last() as int,
        ).map_values(|r: u32| (scs.last(), r))
    }
}

/// The distinct points of the events, in first-occurrence order.
pub open spec fn spec_points_acc(
    store: Store,
    coords: Seq<(Seq<char>, Option<Seq<Seq<char>>>)>,
    evs: Seq<(u32, u32)>,
) -> Seq<Seq<u32>>
    decreases evs.len(),
{
    if evs.len() == 0 {
        Seq::<Seq<u32>>::empty()
    } else {
        let prev = spec_points_acc(store, coords, evs.drop_last());
        let p = spec_point(store, coords, evs.last().0, evs.last().1);
        if prev.contains(p) {
            prev
        } else {
            prev.push(p)
        }
    }
}

/// There are no more distinct points than events.
pub proof fn lemma_points_acc_len(
    store: Store,
    coords: Seq<(Seq<char>, Option<Seq<Seq<char>>>)>,
    evs: Seq<(u32, u32)>,
)
    ensures
        spec_points_acc(store, coords, evs).len() <= evs.len(),
    decreases evs.len(),
{
    if evs.len() > 0 {
        lemma_points_acc_len(store, coords, evs.drop_last());
    }
}

/// How one source value joins an accumulated value: wrapping 64-bit
/// addition for unsigned sums, IEEE-754 addition for float sums.
pub open spec fn spec_combine_value(dt: DataType, acc: u64, v: u64) -> u64 {
    if dt == DataType::Float64 {
        float64_add_bits(acc, v)
    } else {
        acc.wrapping_add(v)
    }
}

/// The aggregate of the measure on field `mf` for point `p`: the source
/// values of the events whose point is `p`, folded in event order onto 0.
pub open spec fn spec_agg_value(
    store: Store,
    coords: Seq<(Seq<char>, Option<Seq<Seq<char>>>)>,
    evs: Seq<(u32, u32)>,
    p: Seq<u32>,
    mf: int,
    dt: DataType,
) -> u64
    decreases evs.len(),
{
    if evs.len() == 0 {
        0
    } else {
        let prev = spec_agg_value(store, coords, evs.drop_last(), p, mf, dt);
        let e = evs.last();
        if spec_point(store, coords, e.0, e.1) == p {
            spec_combine_value(dt, prev, store.resolved(e.0 as int, mf, e.1))
        } else {
            prev
        }
    }
}

/// The destination type of a measure: `UInt32` sources sum into `UInt64`,
/// `Float64` sources into `Float64`.
pub open spec fn spec_dest_type(store: Store, mf: int) -> DataType {
    if store.schema.fields@[mf].data_type == DataType::UInt32 {
        DataType::UInt64
    } else {
        DataType::Float64
    }
}

/// Whether every coordinate is the virtual `scenario` field or a string
/// field of the schema, and every measure a `UInt32` or `Float64` field.
pub open spec fn spec_query_valid(store: Store, q: Query) -> bool {
    &&& forall|i: int|
        0 <= i < q.coords().len() ==> (#[trigger] q.coords()[i]).0 == spec_scenario_field_name()
            || (store.schema.spec_has_field(q.coords()[i].0)
            && store.schema.fields@[store.schema.spec_field_index(q.coords()[i].0)].data_type
            == DataType::Utf8)
    &&& forall|m: int|
        0 <= m < q.meas().len() ==> store.schema.spec_has_field((#[trigger] q.meas()[m]).0) && (
        store.schema.fields@[store.schema.spec_field_index(q.meas()[m].0)].data_type
            == DataType::UInt32 || store.schema.fields@[store.schema.spec_field_index(
            q.meas()[m].0,
        )].data_type == DataType::Float64)
}

/// The query engine: executes structured queries against a loaded store.
pub struct QueryEngine<'a> {
    pub store: &'a Store,
}

impl<'a> QueryEngine<'a> {
    pub fn new(store: &'a Store) -> (r: QueryEngine<'a>)
        ensures
            r.store == store,
    {
        QueryEngine { store }
    }

    /// Translate the values of each non-scenario list coordinate through
    /// its field dictionary.
    fn compute_accepted_values(
        &self,
        entries: &Vec<(String, Option<Vec<String>>)>,
        coords: Ghost<Seq<(Seq<char>, Option<Seq<Seq<char>>>)>>,
    ) -> (r: Vec<(String, Vec<u32>)>)
        requires
            self.store.wf(),
            self.store.is_loaded(),
            coords@.len() == entries@.len(),
            forall|i: int|
                0 <= i < entries@.len() ==> (#[trigger] entries@[i]).0@ == coords@[i].0
                    && crate::query::coord_value_view(entries@[i].1) == coords@[i].1,
            forall|i: int|
                0 <= i < coords@.len() ==> (#[trigger] coords@[i]).0 == spec_scenario_field_name()
                    || (self.store.schema.spec_has_field(coords@[i].0)
                    && self.store.schema.fields@[self.store.schema.spec_field_index(
                    coords@[i].0,
                )].data_type == DataType::Utf8),
        ensures
            crate::bitmap_row_iterable_provider::entries_view(r@) == spec_accepted(
                *self.store,
                coords@,
            ),
            forall|k: int|
                0 <= k < r@.len() ==> (#[trigger] r@[k]).0@ != spec_scenario_field_name()
                    && self.store.schema.spec_has_field(r@[k].0@)
                    && self.store.schema.fields@[self.store.schema.spec_field_index(
                    r@[k].0@,
                )].data_type == DataType::Utf8,
    {
        let store = self.store;
        let mut r: Vec<(String, Vec<u32>)> = Vec::new();
        let mut i: usize = 0;
        while i < entries.len()
            invariant
                i <= entries@.len(),
                store == self.store,
                store.wf(),
                store.is_loaded(),
                coords@.len() == entries@.len(),
                forall|j: int|
                    0 <= j < entries@.len() ==> (#[trigger] entries@[j]).0@ == coords@[j].0
                        && crate::query::coord_value_view(entries@[j].1) == coords@[j].1,
                forall|j: int|
                    0 <= j < coords@.len() ==> (#[trigger] coords@[j]).0
                        == spec_scenario_field_name() || (store.schema.spec_has_field(coords@[j].0)
                        && store.schema.fields@[store.schema.spec_field_index(
                        coords@[j].0,
                    )].data_type == DataType::Utf8),
                crate::bitmap_row_iterable_provider::entries_view(r@) == spec_accepted(
                    *store,
                    coords@.take(i as int),
                ),
                forall|k: int|
                    0 <= k < r@.len() ==> (#[trigger] r@[k]).0@ != spec_scenario_field_name()
                        && store.schema.spec_has_field(r@[k].0@)
                        && store.schema.fields@[store.schema.spec_field_index(
                        r@[k].0@,
                    )].data_type == DataType::Utf8,
            decreases entries@.len() - i,
        {
            let ghost pre = r@;
            proof {
                assert(coords@.take(i + 1).drop_last() =~= coords@.take(i as int));
                assert(coords@.take(i + 1).last() == coords@[i as int]);
            }
            let is_scenario = crate::types::str_eq(
                entries[i].0.as_str(),
                crate::datastore::scenario_field_name(),
            );
            if !is_scenario {
                match &entries[i].1 {
                    None => {},
                    Some(vals) => {
                        let name = String::from_str(entries[i].0.as_str());
                        let dict = match store.get_dictionary(name.as_str()) {
                            Some(d) => d,
                            None => unreached(),
                        };
                        let ghost dv = store.spec_dict_of(coords@[i as int].0);
                        let ghost vviews = crate::types::strings_view(vals@);
                        proof {
                            assert(coords@[i as int].1 == Option::Some(vviews));
                        }
                        let mut codes: Vec<u32> = Vec::new();
                        let mut j: usize = 0;
                        while j < vals.len()
                            invariant
                                j <= vals@.len(),
                                dict.wf(),
                                dict@ == dv,
                                vviews == crate::types::strings_view(vals@),
                                codes@ == spec_codes_of(dv, vviews.take(j as int)),
                            decreases vals@.len() - j,
                        {
                            proof {
                                assert(vviews.take(j + 1).drop_last() =~= vviews.take(j as int));
                                assert(vviews.take(j + 1).last() == vviews[j as int]);
                                assert(vviews[j as int] == vals@[j as int]@);
                            }
                            match dict.get_position(vals[j].as_str()) {
                                Some(code) => {
                                    proof {
                                        crate::datastore::lemma_seq_position_unique(
                                            dv,
                                            vals@[j as int]@,
                                            code as int,
                                        );
                                    }
                                    codes.push(code);
                                },
                                None => {},
                            }
                            j = j + 1;
                        }
                        proof {
                            assert(vviews.take(vals@.len() as int) =~= vviews);
                        }
                        if codes.len() > 0 {
                            r.push((name, codes));
                            proof {
                                assert(crate::bitmap_row_iterable_provider::entries_view(r@)
                                    =~= crate::bitmap_row_iterable_provider::entries_view(
                                    pre,
                                ).push((coords@[i as int].0, spec_codes_of(dv, vviews))));
                            }
                        }
                    },
                }
            }
            i = i + 1;
            proof {
                assert(crate::bitmap_row_iterable_provider::entries_view(r@) == spec_accepted(
                    *store,
                    coords@.take(i as int),
                ));
            }
        }
        proof {
            assert(coords@.take(entries@.len() as int) =~= coords@);
        }
        r
    }

    /// The queried scenario codes: every scenario for a wildcard `scenario`
    /// coordinate, the known listed names for a list, the base alone
    /// otherwise.
    fn compute_queried_scenarios(
        &self,
        entries: &Vec<(String, Option<Vec<String>>)>,
        coords: Ghost<Seq<(Seq<char>, Option<Seq<Seq<char>>>)>>,
    ) -> (r: Vec<u32>)
        requires
            self.store.wf(),
            self.store.is_loaded(),
            self.store.num_scenarios() <= u32::MAX as nat,
            coords@.len() == entries@.len(),
            forall|i: int|
                0 <= i < entries@.len() ==> (#[trigger] entries@[i]).0@ == coords@[i].0
                    && crate::query::coord_value_view(entries@[i].1) == coords@[i].1,
        ensures
            r@ == spec_queried_scenarios(*self.store, coords@),
            forall|k: int| 0 <= k < r@.len() ==> (#[trigger] r@[k]) < self.store.num_scenarios(),
    {
        let store = self.store;
        proof {
            lemma_find_coord(coords@, spec_scenario_field_name());
        }
        let ghost fidx = spec_find_coord(coords@, spec_scenario_field_name());
        let mut i: usize = 0;
        while i < entries.len()
            invariant
                i <= entries@.len(),
                store == self.store,
                store.wf(),
                store.is_loaded(),
                store.num_scenarios() <= u32::MAX as nat,
                coords@.len() == entries@.len(),
                fidx == spec_find_coord(coords@, spec_scenario_field_name()),
                fidx == -1 ==> forall|k: int|
                    0 <= k < coords@.len() ==> (#[trigger] coords@[k]).0
                        != spec_scenario_field_name(),
                fidx >= 0 ==> 0 <= fidx < coords@.len() && coords@[fidx].0
                    == spec_scenario_field_name() && forall|k: int|
                    0 <= k < fidx ==> (#[trigger] coords@[k]).0 != spec_scenario_field_name(),
                forall|j: int|
                    0 <= j < entries@.len() ==> (#[trigger] entries@[j]).0@ == coords@[j].0
                        && crate::query::coord_value_view(entries@[j].1) == coords@[j].1,
                forall|k: int|
                    0 <= k < i ==> (#[trigger] coords@[k]).0 != spec_scenario_field_name(),
            decreases entries@.len() - i,
        {
            if crate::types::str_eq(
                entries[i].0.as_str(),
                crate::datastore::scenario_field_name(),
            ) {
                proof {
                    assert(coords@[i as int].0 == spec_scenario_field_name());
                    assert(fidx == i as int);
                }
                match &entries[i].1 {
                    None => {
                        // Wildcard: every scenario known to the store.
                        let mut r: Vec<u32> = Vec::new();
                        let n = store.vector_by_field_by_scenario.len();
                        let mut k: usize = 0;
                        while k < n
                            invariant
                                k <= n,
                                n == store.num_scenarios(),
                                n <= u32::MAX as nat,
                                r@ =~= Seq::new(k as nat, |j: int| j as u32),
                            decreases n - k,
                        {
                            r.push(k as u32);
                            proof {
                                assert(r@ =~= Seq::new((k + 1) as nat, |j: int| j as u32));
                            }
                            k = k + 1;
                        }
                        proof {
                            assert(r@ =~= spec_queried_scenarios(*store, coords@));
                            assert forall|l: int| 0 <= l < r@.len() implies (#[trigger] r@[l])
                                < store.num_scenarios() by {
                                assert(r@[l] == l as u32);
                            }
                        }
                        return r;
                    },
                    Some(names) => {
                        // List: the known names, in order.
                        let sd = match store.get_dictionary(
                            crate::datastore::scenario_field_name(),
                        ) {
                            Some(d) => d,
                            None => unreached(),
                        };
                        let ghost dv = store.scenario_dict();
                        let ghost nviews = crate::types::strings_view(names@);
                        proof {
                            assert(coords@[i as int].1 == Option::Some(nviews));
                        }
                        let mut r: Vec<u32> = Vec::new();
                        let mut j: usize = 0;
                        while j < names.len()
                            invariant
                                j <= names@.len(),
                                sd.wf(),
                                sd@ == dv,
                                dv == store.scenario_dict(),
                                dv.len() == store.num_scenarios(),
                                nviews == crate::types::strings_view(names@),
                                r@ == spec_codes_of(dv, nviews.take(j as int)),
                                forall|l: int|
                                    0 <= l < r@.len() ==> (#[trigger] r@[l]) < dv.len(),
                            decreases names@.len() - j,
                        {
                            proof {
                                assert(nviews.take(j + 1).drop_last() =~= nviews.take(j as int));
                                assert(nviews.take(j + 1).last() == nviews[j as int]);
                                assert(nviews[j as int] == names@[j as int]@);
                            }
                            match sd.get_position(names[j].as_str()) {
                                Some(code) => {
                                    proof {
                                        crate::datastore::lemma_seq_position_unique(
                                            dv,
                                            names@[j as int]@,
                                            code as int,
                                        );
                                    }
                                    r.push(code);
                                },
                                None => {},
                            }
                            j = j + 1;
                        }
                        proof {
                            assert(nviews.take(names@.len() as int) =~= nviews);
                            assert(r@ == spec_queried_scenarios(*store, coords@));
                        }
                        return r;
                    },
                }
            }
            i = i + 1;
        }
        // No scenario coordinate: the base scenario alone.
        proof {
            assert(fidx == -1) by {
                if fidx >= 0 {
                    assert(coords@[fidx].0 == spec_scenario_field_name());
                }
            }
        }
        let mut r: Vec<u32> = Vec::new();
        r.push(0);
        proof {
            assert(r@ =~= seq![0u32]);
        }
        r
    }
}


/// A point that never occurs among the events aggregates to 0.
pub proof fn lemma_agg_absent(
    store: Store,
    coords: Seq<(Seq<char>, Option<Seq<Seq<char>>>)>,
    evs: Seq<(u32, u32)>,
    p: Seq<u32>,
    mf: int,
    dt: DataType,
)
    requires
        !spec_points_acc(store, coords, evs).contains(p),
    ensures
        spec_agg_value(store, coords, evs, p, mf, dt) == 0,
    decreases evs.len(),
{
    if evs.len() > 0 {
        let prev = spec_points_acc(store, coords, evs.drop_last());
        let cur = spec_points_acc(store, coords, evs);
        let q = spec_point(store, coords, evs.last().0, evs.last().1);
        assert forall|x: Seq<u32>| prev.contains(x) implies cur.contains(x) by {
            let l = choose|l: int| 0 <= l < prev.len() && prev[l] == x;
            assert(cur[l] == x);
        }
        assert(!prev.contains(p));
        lemma_agg_absent(store, coords, evs.drop_last(), p, mf, dt);
        assert(cur.contains(q)) by {
            if prev.contains(q) {
                let l = choose|l: int| 0 <= l < prev.len() && prev[l] == q;
                assert(cur[l] == q);
            } else {
                assert(cur.last() == q);
            }
        }
        assert(q != p);
    }
}

impl<'a> QueryEngine<'a> {
    /// Execute a query: translate its coordinates, loop over the queried
    /// scenarios and their selected rows, map each group-key point to a
    /// slot, and accumulate every measure into the slot's aggregates.
    ///
    /// `SchemaError` exactly when a coordinate names neither the virtual
    /// `scenario` field nor a string field, or a measure names a field that
    /// is not `UInt32` or `Float64`.
    pub fn execute(&self, query: &Query) -> (r: Result<PointListAggregateResult, StoreError>)
        requires
            self.store.wf(),
            self.store.is_loaded(),
            self.store.num_scenarios() + 2 < u32::MAX as nat,
            query.coords().len() < u32::MAX as nat,
            spec_queried_scenarios(*self.store, query.coords()).len() * self.store.row_count + 2
                < u32::MAX as int,
        ensures
            ({
                let store = *self.store;
                let coords = query.coords();
                let av = spec_accepted(store, coords);
                let scs = spec_queried_scenarios(store, coords);
                let evs = spec_events(store, av, scs);
                match r {
                    Ok(res) => {
                        &&& spec_query_valid(store, *query)
                        &&& res.wf()
                        &&& res.point_names@.len() == coords.len()
                        &&& forall|i: int|
                            0 <= i < coords.len() ==> (#[trigger] res.point_names@[i])@
                                == coords[i].0
                        &&& res.point_dictionary.point_length == coords.len()
                        &&& res.point_dictionary@ == spec_points_acc(store, coords, evs)
                        &&& res.dictionaries@.len() == coords.len()
                        &&& forall|i: int|
                            0 <= i < coords.len() ==> (#[trigger] res.dictionaries@[i])@ == (
                            if coords[i].0 == spec_scenario_field_name() {
                                store.scenario_dict()
                            } else {
                                store.spec_dict_of(coords[i].0)
                            })
                        &&& res.aggregate_names@.len() == query.meas().len()
                        &&& forall|m: int|
                            0 <= m < query.meas().len() ==> (#[trigger] res.aggregate_names@[m])@
                                == query.meas()[m].1 + "("@ + query.meas()[m].0 + ")"@
                        &&& res.destination_types@.len() == query.meas().len()
                        &&& forall|m: int|
                            0 <= m < query.meas().len() ==> (#[trigger] res.destination_types@[m])
                                == spec_dest_type(
                                store,
                                store.schema.spec_field_index(query.meas()[m].0),
                            )
                        &&& res.buffers.buffers@.len() == query.meas().len()
                        &&& forall|m: int, sl: int|
                            0 <= m < query.meas().len() && 0 <= sl < res.point_dictionary@.len()
                                ==> (#[trigger] res.buffers.buffers@[m]@[sl]) == spec_agg_value(
                                store,
                                coords,
                                evs,
                                res.point_dictionary@[sl],
                                store.schema.spec_field_index(query.meas()[m].0),
                                spec_dest_type(
                                    store,
                                    store.schema.spec_field_index(query.meas()[m].0),
                                ),
                            )
                    },
                    Err(e) => e == StoreError::SchemaError && !spec_query_valid(store, *query),
                }
            }),
    {
        let store = self.store;
        let ghost coords = query.coords();
        let entries = query.entries();

        // Validate the coordinates and measures.
        let mut i: usize = 0;
        while i < entries.len()
            invariant
                i <= entries@.len(),
                store == self.store,
                store.wf(),
                coords == query.coords(),
                coords.len() == entries@.len(),
                forall|j: int|
                    0 <= j < entries@.len() ==> (#[trigger] entries@[j]).0@ == coords[j].0
                        && crate::query::coord_value_view(entries@[j].1) == coords[j].1,
                forall|j: int|
                    0 <= j < i ==> (#[trigger] coords[j]).0 == spec_scenario_field_name() || (
                    store.schema.spec_has_field(coords[j].0)
                        && store.schema.fields@[store.schema.spec_field_index(
                        coords[j].0,
                    )].data_type == DataType::Utf8),
            decreases entries@.len() - i,
        {
            if !crate::types::str_eq(
                entries[i].0.as_str(),
                crate::datastore::scenario_field_name(),
            ) {
                match store.schema.field_index(entries[i].0.as_str()) {
                    Some(f) => {
                        proof {
                            let fi = store.schema.spec_field_index(coords[i as int].0);
                            if fi != f as int {
                                if fi < f as int {
                                    assert(store.schema.names()[fi] != store.schema.names()[
                                        f as int]);
                                } else {
                                    assert(store.schema.names()[f as int]
                                        != store.schema.names()[fi]);
                                }
                            }
                        }
                        if !(store.schema.fields[f].data_type == DataType::Utf8) {
                            proof {
                                assert(coords[i as int].0 != spec_scenario_field_name());
                                assert(store.schema.fields@[store.schema.spec_field_index(
                                    coords[i as int].0,
                                )].data_type != DataType::Utf8);
                                assert(!spec_query_valid(*store, *query));
                            }
                            return Err(StoreError::SchemaError);
                        }
                    },
                    None => {
                        proof {
                            assert(coords[i as int].0 != spec_scenario_field_name());
                            assert(!store.schema.spec_has_field(coords[i as int].0));
                            assert(!spec_query_valid(*store, *query));
                        }
                        return Err(StoreError::SchemaError);
                    },
                }
            }
            i = i + 1;
        }
        let mut m: usize = 0;
        while m < query.measures.len()
            invariant
                m <= query.measures@.len(),
                store == self.store,
                store.wf(),
                query.meas().len() == query.measures@.len(),
                forall|j: int|
                    0 <= j < query.measures@.len() ==> (#[trigger] query.meas()[j]).0
                        == query.measures@[j].field@ && query.meas()[j].1
                        == query.measures@[j].aggregation_function@,
                forall|j: int|
                    0 <= j < m ==> store.schema.spec_has_field((#[trigger] query.meas()[j]).0) && (
                    store.schema.fields@[store.schema.spec_field_index(query.meas()[j].0)].data_type
                        == DataType::UInt32 || store.schema.fields@[store.schema.spec_field_index(
                        query.meas()[j].0,
                    )].data_type == DataType::Float64),
            decreases query.measures@.len() - m,
        {
            match store.schema.field_index(query.measures[m].field.as_str()) {
                Some(f) => {
                    proof {
                        let fi = store.schema.spec_field_index(query.meas()[m as int].0);
                        if fi != f as int {
                            if fi < f as int {
                                assert(store.schema.names()[fi] != store.schema.names()[f as int]);
                            } else {
                                assert(store.schema.names()[f as int] != store.schema.names()[fi]);
                            }
                        }
                    }
                    let dt = store.schema.fields[f].data_type;
                    if !(dt == DataType::UInt32) && !(dt == DataType::Float64) {
                        proof {
                            assert(store.schema.fields@[store.schema.spec_field_index(
                                query.meas()[m as int].0,
                            )].data_type != DataType::UInt32
                                && store.schema.fields@[store.schema.spec_field_index(
                                query.meas()[m as int].0,
                            )].data_type != DataType::Float64);
                            assert(!spec_query_valid(*store, *query));
                        }
                        return Err(StoreError::SchemaError);
                    }
                },
                None => {
                    proof {
                        assert(!store.schema.spec_has_field(query.meas()[m as int].0));
                        assert(!spec_query_valid(*store, *query));
                    }
                    return Err(StoreError::SchemaError);
                },
            }
            m = m + 1;
        }
        proof {
            assert(spec_query_valid(*store, *query));
        }

        // Accepted values, queried scenarios, and the selection provider.
        let accepted = self.compute_accepted_values(&entries, Ghost(coords));
        let queried = self.compute_queried_scenarios(&entries, Ghost(coords));
        let ghost av = spec_accepted(*store, coords);
        let ghost scs = spec_queried_scenarios(*store, coords);
        let provider = match RowIterableProviderFactory::create(store, accepted) {
            Ok(p) => p,
            Err(_) => unreached(),
        };

        // The point dictionary, the shared destination arena, and the
        // first-scenario aggregators whose buffers later scenarios share.
        let point_size = entries.len();
        let mut point_dictionary = PointDictionary::new(point_size as u32);
        let mut bufs = AggregateBuffers::new();
        let factory = AggregatorFactory::new();
        let mut first_aggs: Vec<Aggregator<'a>> = Vec::new();
        let ghost mut evs_done: Seq<(u32, u32)> = Seq::<(u32, u32)>::empty();

        let n_measures = query.measures.len();
        let mut si: usize = 0;
        while si < queried.len()
            invariant
                si <= queried@.len(),
                store == self.store,
                store.wf(),
                store.is_loaded(),
                store.num_scenarios() + 2 < u32::MAX as nat,
                scs.len() * (store.row_count as int) + 2 < u32::MAX as int,
                coords == query.coords(),
                coords.len() == entries@.len(),
                point_size == entries@.len(),
                n_measures == query.measures@.len(),
                spec_query_valid(*store, *query),
                forall|j: int|
                    0 <= j < entries@.len() ==> (#[trigger] entries@[j]).0@ == coords[j].0
                        && crate::query::coord_value_view(entries@[j].1) == coords[j].1,
                forall|j: int|
                    0 <= j < query.measures@.len() ==> (#[trigger] query.meas()[j]).0
                        == query.measures@[j].field@ && query.meas()[j].1
                        == query.measures@[j].aggregation_function@,
                av == spec_accepted(*store, coords),
                scs == spec_queried_scenarios(*store, coords),
                queried@ == scs,
                forall|k: int| 0 <= k < queried@.len() ==> (#[trigger] queried@[k])
                    < store.num_scenarios(),
                provider.wf(*store),
                forall|s: int, row: u32|
                    spec_row_selected(*store, #[trigger] provider.av(), s, row)
                        == spec_row_selected(*store, av, s, row),
                point_size < u32::MAX as nat,
                point_dictionary.wf(),
                point_dictionary.point_length == point_size,
                point_dictionary@ == spec_points_acc(*store, coords, evs_done),
                evs_done == spec_events(*store, av, scs.take(si as int)),
                evs_done.len() <= (si as int) * (store.row_count as int),
                bufs.buffers@.len() == (if si == 0 { 0int } else { n_measures as int }),
                forall|m2: int|
                    0 <= m2 < bufs.buffers@.len() ==> (#[trigger] bufs.buffers@[m2])@.len()
                        == point_dictionary@.len(),
                forall|m2: int, sl: int|
                    0 <= m2 < bufs.buffers@.len() && 0 <= sl < point_dictionary@.len() ==> (
                    #[trigger] bufs.buffers@[m2]@[sl]) == spec_agg_value(
                        *store,
                        coords,
                        evs_done,
                        point_dictionary@[sl],
                        store.schema.spec_field_index(query.meas()[m2].0),
                        spec_dest_type(*store, store.schema.spec_field_index(query.meas()[m2].0)),
                    ),
                first_aggs@.len() == (if si == 0 { 0int } else { n_measures as int }),
                forall|m2: int|
                    0 <= m2 < first_aggs@.len() ==> {
                        let a = #[trigger] first_aggs@[m2];
                        &&& a.source.wf()
                        &&& a.destination_index == m2
                        &&& a.source.spec_base().field.data_type
                            == store.schema.fields@[store.schema.spec_field_index(
                            query.meas()[m2].0,
                        )].data_type
                        &&& a.destination_type == spec_dest_type(
                            *store,
                            store.schema.spec_field_index(query.meas()[m2].0),
                        )
                        &&& a.field_name@ == query.meas()[m2].1 + "("@ + query.meas()[m2].0 + ")"@
                    },
            decreases queried@.len() - si,
        {
            let s_code = queried[si];
            let ghost s = s_code as int;
            let sdict = match store.get_dictionary(crate::datastore::scenario_field_name()) {
                Some(d) => d,
                None => unreached(),
            };
            let scenario_name = match sdict.read(s_code) {
                Some(nm) => nm,
                None => unreached(),
            };
            proof {
                assert(store.scenario_dict()[s] == scenario_name@);
                assert(store.spec_has_scenario(scenario_name@));
                crate::datastore::lemma_seq_position_unique(
                    store.scenario_dict(),
                    scenario_name@,
                    s,
                );
                assert(store.spec_scenario_code(scenario_name@) == s);
            }

            // Scenario-aware readers for the non-scenario coordinates.
            let mut columns: Vec<Option<ChunkArrayReader<'a>>> = Vec::new();
            let mut ci: usize = 0;
            while ci < entries.len()
                invariant
                    ci <= entries@.len(),
                    store == self.store,
                    store.wf(),
                    store.is_loaded(),
                    coords.len() == entries@.len(),
                    spec_query_valid(*store, *query),
                    coords == query.coords(),
                    forall|j: int|
                        0 <= j < entries@.len() ==> (#[trigger] entries@[j]).0@ == coords[j].0
                            && crate::query::coord_value_view(entries@[j].1) == coords[j].1,
                    0 <= s < store.num_scenarios(),
                    scenario_name@ == store.scenario_dict()[s],
                    store.spec_has_scenario(scenario_name@),
                    store.spec_scenario_code(scenario_name@) == s,
                    columns@.len() == ci,
                    forall|j: int|
                        0 <= j < ci ==> ((#[trigger] columns@[j]) is None <==> coords[j].0
                            == spec_scenario_field_name()),
                    forall|j: int|
                        0 <= j < ci && columns@[j] is Some ==> {
                            let rd = (#[trigger] columns@[j])->Some_0;
                            &&& rd.wf()
                            &&& rd.spec_base().spec_len() == store.row_count
                            &&& store.schema.spec_has_field(coords[j].0)
                            &&& store.schema.fields@[store.schema.spec_field_index(
                                coords[j].0,
                            )].data_type == DataType::Utf8
                            &&& forall|row: u32|
                                row < store.row_count ==> rd.spec_read(row) == store.resolved(
                                    s,
                                    store.schema.spec_field_index(coords[j].0),
                                    row,
                                )
                        },
                decreases entries@.len() - ci,
            {
                if crate::types::str_eq(
                    entries[ci].0.as_str(),
                    crate::datastore::scenario_field_name(),
                ) {
                    columns.push(None);
                } else {
                    let rd = store.get_scenario_chunk_array(
                        scenario_name.as_str(),
                        entries[ci].0.as_str(),
                    );
                    columns.push(Some(rd));
                }
                ci = ci + 1;
            }

            // Aggregators: fresh buffers for the first scenario, shared
            // buffers afterwards.
            let ghost bufs_at = bufs.buffers@;
            let mut cur_aggs: Vec<Aggregator<'a>> = Vec::new();
            let mut mi: usize = 0;
            while mi < n_measures
                invariant
                    mi <= n_measures,
                    store == self.store,
                    store.wf(),
                    store.is_loaded(),
                    n_measures == query.measures@.len(),
                    spec_query_valid(*store, *query),
                    coords == query.coords(),
                    forall|j: int|
                        0 <= j < query.measures@.len() ==> (#[trigger] query.meas()[j]).0
                            == query.measures@[j].field@ && query.meas()[j].1
                            == query.measures@[j].aggregation_function@,
                    0 <= s < store.num_scenarios(),
                    scenario_name@ == store.scenario_dict()[s],
                    store.spec_has_scenario(scenario_name@),
                    store.spec_scenario_code(scenario_name@) == s,
                    first_aggs@.len() == (if si == 0 { 0int } else { n_measures as int }),
                    forall|m2: int|
                        0 <= m2 < first_aggs@.len() ==> {
                            let a = #[trigger] first_aggs@[m2];
                            &&& a.source.wf()
                            &&& a.destination_index == m2
                            &&& a.source.spec_base().field.data_type
                                == store.schema.fields@[store.schema.spec_field_index(
                                query.meas()[m2].0,
                            )].data_type
                            &&& a.destination_type == spec_dest_type(
                                *store,
                                store.schema.spec_field_index(query.meas()[m2].0),
                            )
                            &&& a.field_name@ == query.meas()[m2].1 + "("@ + query.meas()[m2].0
                                + ")"@
                        },
                    bufs.buffers@.len() == (if si == 0 { mi as int } else { n_measures as int }),
                    si == 0 ==> forall|m2: int|
                        0 <= m2 < mi ==> (#[trigger] bufs.buffers@[m2])@ == Seq::<u64>::empty(),
                    si > 0 ==> bufs.buffers@ == bufs_at,
                    cur_aggs@.len() == mi,
                    forall|m2: int|
                        0 <= m2 < mi ==> {
                            let a = #[trigger] cur_aggs@[m2];
                            &&& a.source.wf()
                            &&& a.destination_index == m2
                            &&& a.source.spec_base().spec_len() == store.row_count
                            &&& a.source.spec_base().field.data_type
                                == store.schema.fields@[store.schema.spec_field_index(
                                query.meas()[m2].0,
                            )].data_type
                            &&& a.destination_type == spec_dest_type(
                                *store,
                                store.schema.spec_field_index(query.meas()[m2].0),
                            )
                            &&& a.field_name@ == query.meas()[m2].1 + "("@ + query.meas()[m2].0
                                + ")"@
                            &&& forall|row: u32|
                                row < store.row_count ==> (#[trigger] a.source.spec_read(row))
                                    == store.resolved(
                                    s,
                                    store.schema.spec_field_index(query.meas()[m2].0),
                                    row,
                                )
                        },
                decreases n_measures - mi,
            {
                proof {
                    assert(store.schema.spec_has_field(query.meas()[mi as int].0));
                    assert(query.meas()[mi as int].0 == query.measures@[mi as int].field@);
                }
                let reader = store.get_scenario_chunk_array(
                    scenario_name.as_str(),
                    query.measures[mi].field.as_str(),
                );
                let alias = query.measures[mi].alias();
                let a = if si == 0 {
                    match factory.create(
                        reader,
                        query.measures[mi].aggregation_function.as_str(),
                        alias.as_str(),
                        &mut bufs,
                    ) {
                        Ok(a) => a,
                        Err(_) => unreached(),
                    }
                } else {
                    match factory.create_with_destination(
                        reader,
                        &first_aggs[mi],
                        query.measures[mi].aggregation_function.as_str(),
                    ) {
                        Ok(a) => a,
                        Err(_) => unreached(),
                    }
                };
                cur_aggs.push(a);
                mi = mi + 1;
            }

            // The rows to visit under this scenario, ascending.
            let it = provider.get(store, scenario_name.as_str());
            let rows = it.rows();
            let ghost selrows = spec_sel_rows(*store, av, s);
            proof {
                lemma_rows_upto_props(*store, av, s, store.row_count as int);
                assert forall|v: u32| rows@.contains(v) <==> selrows.contains(v) by {
                    if rows@.contains(v) {
                        let j = choose|j: int| 0 <= j < rows@.len() && rows@[j] == v;
                        assert(it.spec_rows().contains(rows@[j]));
                        assert(v < store.row_count && spec_row_selected(*store, av, s, v));
                        assert(selrows.contains(v));
                    }
                    if selrows.contains(v) {
                        let j = choose|j: int| 0 <= j < selrows.len() && selrows[j] == v;
                        assert(v < store.row_count && spec_row_selected(*store, av, s, v));
                        assert(it.spec_rows().contains(v));
                    }
                }
                lemma_sorted_unique(rows@, selrows);
                assert(rows@ == selrows);
            }

            let ghost evs_at_scenario_start = evs_done;
            let mut ri: usize = 0;
            while ri < rows.len()
                invariant
                    ri <= rows@.len(),
                    store == self.store,
                    store.wf(),
                    store.is_loaded(),
                    store.num_scenarios() + 2 < u32::MAX as nat,
                    scs.len() * (store.row_count as int) + 2 < u32::MAX as int,
                    coords == query.coords(),
                    coords.len() == entries@.len(),
                    point_size == entries@.len(),
                    n_measures == query.measures@.len(),
                    spec_query_valid(*store, *query),
                    forall|j: int|
                        0 <= j < query.measures@.len() ==> (#[trigger] query.meas()[j]).0
                            == query.measures@[j].field@ && query.meas()[j].1
                            == query.measures@[j].aggregation_function@,
                    0 <= s < store.num_scenarios(),
                    s_code == s as u32,
                    si < queried@.len(),
                    queried@ == scs,
                    queried@[si as int] == s_code,
                    av == spec_accepted(*store, coords),
                    rows@ == spec_sel_rows(*store, av, s),
                    forall|p: int| 0 <= p < rows@.len() ==> (#[trigger] rows@[p]) < store.row_count,
                    columns@.len() == entries@.len(),
                    forall|j: int|
                        0 <= j < columns@.len() ==> ((#[trigger] columns@[j]) is None <==> coords[j].0
                            == spec_scenario_field_name()),
                    forall|j: int|
                        0 <= j < columns@.len() && columns@[j] is Some ==> {
                            let rd = (#[trigger] columns@[j])->Some_0;
                            &&& rd.wf()
                            &&& rd.spec_base().spec_len() == store.row_count
                            &&& store.schema.spec_has_field(coords[j].0)
                            &&& store.schema.fields@[store.schema.spec_field_index(
                                coords[j].0,
                            )].data_type == DataType::Utf8
                            &&& forall|row: u32|
                                row < store.row_count ==> rd.spec_read(row) == store.resolved(
                                    s,
                                    store.schema.spec_field_index(coords[j].0),
                                    row,
                                )
                        },
                    cur_aggs@.len() == n_measures,
                    forall|m2: int|
                        0 <= m2 < n_measures ==> {
                            let a = #[trigger] cur_aggs@[m2];
                            &&& a.source.wf()
                            &&& a.destination_index == m2
                            &&& a.source.spec_base().spec_len() == store.row_count
                            &&& a.source.spec_base().field.data_type
                                == store.schema.fields@[store.schema.spec_field_index(
                                query.meas()[m2].0,
                            )].data_type
                            &&& a.destination_type == spec_dest_type(
                                *store,
                                store.schema.spec_field_index(query.meas()[m2].0),
                            )
                            &&& forall|row: u32|
                                row < store.row_count ==> (#[trigger] a.source.spec_read(row))
                                    == store.resolved(
                                    s,
                                    store.schema.spec_field_index(query.meas()[m2].0),
                                    row,
                                )
                        },
                    point_size < u32::MAX as nat,
                    point_dictionary.wf(),
                    point_dictionary.point_length == point_size,
                    point_dictionary@ == spec_points_acc(*store, coords, evs_done),
                    selrows == spec_sel_rows(*store, av, s),
                    evs_done == evs_at_scenario_start + spec_sel_rows(*store, av, s).take(
                        ri as int,
                    ).map_values(|r2: u32| (s_code, r2)),
                    evs_at_scenario_start == spec_events(*store, av, scs.take(si as int)),
                    evs_at_scenario_start.len() <= (si as int) * (store.row_count as int),
                    evs_done.len() == evs_at_scenario_start.len() + ri,
                    bufs.buffers@.len() == n_measures,
                    forall|m2: int|
                        0 <= m2 < n_measures ==> (#[trigger] bufs.buffers@[m2])@.len()
                            == point_dictionary@.len(),
                    forall|m2: int, sl: int|
                        0 <= m2 < n_measures && 0 <= sl < point_dictionary@.len() ==> (
                        #[trigger] bufs.buffers@[m2]@[sl]) == spec_agg_value(
                            *store,
                            coords,
                            evs_done,
                            point_dictionary@[sl],
                            store.schema.spec_field_index(query.meas()[m2].0),
                            spec_dest_type(
                                *store,
                                store.schema.spec_field_index(query.meas()[m2].0),
                            ),
                        ),
                decreases rows@.len() - ri,
            {
                let row = rows[ri];
                let ghost e = (s_code, row);
                let ghost point_spec = spec_point(*store, coords, s_code, row);

                // Build the group-key point.
                let mut point: Vec<u32> = Vec::new();
                let mut ci2: usize = 0;
                while ci2 < columns.len()
                    invariant
                        ci2 <= columns@.len(),
                        store == self.store,
                        store.wf(),
                        row < store.row_count,
                        0 <= s < store.num_scenarios(),
                        s_code == s as u32,
                        coords.len() == columns@.len(),
                        point_spec == spec_point(*store, coords, s_code, row),
                        forall|j: int|
                            0 <= j < columns@.len() ==> ((#[trigger] columns@[j]) is None
                                <==> coords[j].0 == spec_scenario_field_name()),
                        forall|j: int|
                            0 <= j < columns@.len() && columns@[j] is Some ==> {
                                let rd = (#[trigger] columns@[j])->Some_0;
                                &&& rd.wf()
                                &&& rd.spec_base().spec_len() == store.row_count
                                &&& store.schema.spec_has_field(coords[j].0)
                                &&& store.schema.fields@[store.schema.spec_field_index(
                                    coords[j].0,
                                )].data_type == DataType::Utf8
                                &&& forall|row2: u32|
                                    row2 < store.row_count ==> rd.spec_read(row2)
                                        == store.resolved(
                                        s,
                                        store.schema.spec_field_index(coords[j].0),
                                        row2,
                                    )
                            },
                        point@.len() == ci2,
                        forall|j: int| 0 <= j < ci2 ==> (#[trigger] point@[j]) == point_spec[j],
                    decreases columns@.len() - ci2,
                {
                    match &columns[ci2] {
                        None => {
                            point.push(s_code);
                        },
                        Some(rd) => {
                            let v = rd.read(row);
                            proof {
                                store.lemma_resolved_code_fits(
                                    s,
                                    store.schema.spec_field_index(coords[ci2 as int].0),
                                    row,
                                );
                            }
                            point.push(v as u32);
                        },
                    }
                    ci2 = ci2 + 1;
                }
                proof {
                    assert(point@ =~= point_spec);
                }

                // Map the point to its slot.
                proof {
                    lemma_points_acc_len(*store, coords, evs_done);
                    lemma_rows_upto_props(*store, av, s, store.row_count as int);
                    assert(evs_done.len() <= (si as int) * (store.row_count as int) + ri);
                    assert(ri < rows@.len());
                    assert(rows@.len() <= store.row_count);
                    assert((si as int) * (store.row_count as int) + (store.row_count as int) == (
                    si as int + 1) * (store.row_count as int)) by (nonlinear_arith);
                    assert((si as int + 1) * (store.row_count as int) <= (scs.len() as int) * (
                    store.row_count as int)) by (nonlinear_arith)
                        requires
                            0 <= si as int + 1 <= scs.len() as int,
                            store.row_count >= 0,
                    ;
                    assert(point_dictionary@.len() + 1 < u32::MAX as int);
                }
                let slot = match point_dictionary.map(&point) {
                    Ok(slot) => slot,
                    Err(_) => unreached(),
                };
                let ghost pd_pre = spec_points_acc(*store, coords, evs_done);
                let ghost evs_next = evs_done.push(e);
                proof {
                    assert(evs_next.drop_last() =~= evs_done);
                    assert(evs_next.last() == e);
                    assert(point_dictionary@ == spec_points_acc(*store, coords, evs_next));
                    assert(slot < point_dictionary@.len());
                    assert(point_dictionary@[slot as int] == point_spec);
                }

                // Accumulate every measure.
                let mut mi2: usize = 0;
                while mi2 < cur_aggs.len()
                    invariant
                        mi2 <= cur_aggs@.len(),
                        store == self.store,
                        store.wf(),
                        row < store.row_count,
                        0 <= s < store.num_scenarios(),
                        s_code == s as u32,
                        n_measures == query.measures@.len(),
                        coords == query.coords(),
                        spec_query_valid(*store, *query),
                        forall|j: int|
                            0 <= j < query.measures@.len() ==> (#[trigger] query.meas()[j]).0
                                == query.measures@[j].field@,
                        cur_aggs@.len() == n_measures,
                        forall|m2: int|
                            0 <= m2 < n_measures ==> {
                                let a = #[trigger] cur_aggs@[m2];
                                &&& a.source.wf()
                                &&& a.destination_index == m2
                                &&& a.source.spec_base().spec_len() == store.row_count
                                &&& a.source.spec_base().field.data_type
                                    == store.schema.fields@[store.schema.spec_field_index(
                                    query.meas()[m2].0,
                                )].data_type
                                &&& a.destination_type == spec_dest_type(
                                    *store,
                                    store.schema.spec_field_index(query.meas()[m2].0),
                                )
                                &&& forall|row2: u32|
                                    row2 < store.row_count ==> (#[trigger] a.source.spec_read(
                                        row2,
                                    )) == store.resolved(
                                        s,
                                        store.schema.spec_field_index(query.meas()[m2].0),
                                        row2,
                                    )
                            },
                        point_dictionary@ == spec_points_acc(*store, coords, evs_next),
                        evs_next == evs_done.push(e),
                        evs_next.drop_last() == evs_done,
                        e == (s_code, row),
                        slot < point_dictionary@.len(),
                        point_dictionary@[slot as int] == spec_point(*store, coords, s_code, row),
                        point_dictionary.wf(),
                        pd_pre == spec_points_acc(*store, coords, evs_done),
                        bufs.buffers@.len() == n_measures,
                        forall|m2: int|
                            0 <= m2 < n_measures ==> (#[trigger] bufs.buffers@[m2])@.len() == (
                            if m2 < mi2 {
                                point_dictionary@.len()
                            } else {
                                pd_pre.len()
                            }),
                        forall|m2: int, sl: int|
                            0 <= m2 < mi2 && 0 <= sl < point_dictionary@.len() ==> (
                            #[trigger] bufs.buffers@[m2]@[sl]) == spec_agg_value(
                                *store,
                                coords,
                                evs_next,
                                point_dictionary@[sl],
                                store.schema.spec_field_index(query.meas()[m2].0),
                                spec_dest_type(
                                    *store,
                                    store.schema.spec_field_index(query.meas()[m2].0),
                                ),
                            ),
                        forall|m2: int, sl: int|
                            mi2 <= m2 < n_measures && 0 <= sl < pd_pre.len() ==> (
                            #[trigger] bufs.buffers@[m2]@[sl]) == spec_agg_value(
                                *store,
                                coords,
                                evs_done,
                                pd_pre[sl],
                                store.schema.spec_field_index(query.meas()[m2].0),
                                spec_dest_type(
                                    *store,
                                    store.schema.spec_field_index(query.meas()[m2].0),
                                ),
                            ),
                    decreases cur_aggs@.len() - mi2,
                {
                    let ghost mf = store.schema.spec_field_index(query.meas()[mi2 as int].0);
                    let ghost mdt = spec_dest_type(*store, mf);
                    let ghost buf_pre = bufs.buffers@[mi2 as int]@;
                    cur_aggs[mi2].ensure_capacity(&mut bufs, slot as usize);
                    proof {
                        // A fresh slot starts from 0, the aggregate of a
                        // point with no earlier event.
                        if slot as int == pd_pre.len() {
                            assert(!pd_pre.contains(point_dictionary@[slot as int]));
                            lemma_agg_absent(
                                *store,
                                coords,
                                evs_done,
                                point_dictionary@[slot as int],
                                mf,
                                mdt,
                            );
                        }
                    }
                    cur_aggs[mi2].aggregate(&mut bufs, row, slot);
                    proof {
                        let pnow = point_dictionary@;
                        assert forall|sl: int| 0 <= sl < pnow.len() implies (
                        #[trigger] bufs.buffers@[mi2 as int]@[sl]) == spec_agg_value(
                            *store,
                            coords,
                            evs_next,
                            pnow[sl],
                            mf,
                            mdt,
                        ) by {
                            if sl == slot as int {
                                assert(spec_point(*store, coords, e.0, e.1) == pnow[sl]);
                            } else {
                                assert(pnow[sl] != pnow[slot as int]);
                                assert(spec_point(*store, coords, e.0, e.1) != pnow[sl]);
                                if sl < pd_pre.len() {
                                } else {
                                    assert(false);
                                }
                            }
                        }
                    }
                    mi2 = mi2 + 1;
                }
                proof {
                    assert(selrows.take(ri + 1).drop_last() =~= selrows.take(ri as int));
                    assert(selrows.take(ri + 1).last() == rows@[ri as int]);
                    assert(evs_next =~= evs_at_scenario_start + selrows.take(ri + 1).map_values(
                        |r2: u32| (s_code, r2),
                    ));
                }
                proof {
                    evs_done = evs_next;
                }
                ri = ri + 1;
            }

            proof {
                assert(selrows.take(rows@.len() as int) =~= selrows);
                assert(scs.take(si + 1).drop_last() =~= scs.take(si as int));
                assert(scs.take(si + 1).last() == s_code);
                assert(evs_done =~= spec_events(*store, av, scs.take(si + 1)));
                lemma_rows_upto_props(*store, av, s, store.row_count as int);
                assert(selrows.len() <= store.row_count);
                assert((si as int) * (store.row_count as int) + (store.row_count as int) == (
                si as int + 1) * (store.row_count as int)) by (nonlinear_arith);
                assert(evs_done.len() <= (si as int + 1) * (store.row_count as int));
                assert(scs.len() * (store.row_count as int) + 2 < u32::MAX as int);
            }
            if si == 0 {
                first_aggs = cur_aggs;
            }
            si = si + 1;
        }

        proof {
            assert(scs.take(queried@.len() as int) =~= scs);
        }
        // With no queried scenario there are no events: give each measure
        // its empty aggregate column.
        if queried.len() == 0 {
            let mut mfill: usize = 0;
            while mfill < n_measures
                invariant
                    mfill <= n_measures,
                    bufs.buffers@.len() == mfill,
                    forall|m2: int|
                        0 <= m2 < mfill ==> (#[trigger] bufs.buffers@[m2])@ == Seq::<u64>::empty(),
                decreases n_measures - mfill,
            {
                bufs.buffers.push(Vec::new());
                mfill = mfill + 1;
            }
        }

        // Assemble the result.
        let mut point_names: Vec<String> = Vec::new();
        let mut dictionaries: Vec<Dictionary> = Vec::new();
        let mut ci3: usize = 0;
        while ci3 < entries.len()
            invariant
                ci3 <= entries@.len(),
                store == self.store,
                store.wf(),
                store.is_loaded(),
                coords.len() == entries@.len(),
                spec_query_valid(*store, *query),
                coords == query.coords(),
                forall|j: int|
                    0 <= j < entries@.len() ==> (#[trigger] entries@[j]).0@ == coords[j].0,
                point_names@.len() == ci3,
                dictionaries@.len() == ci3,
                forall|j: int| 0 <= j < ci3 ==> (#[trigger] point_names@[j])@ == coords[j].0,
                forall|j: int|
                    0 <= j < ci3 ==> (#[trigger] dictionaries@[j]).wf() && dictionaries@[j]@ == (
                    if coords[j].0 == spec_scenario_field_name() {
                        store.scenario_dict()
                    } else {
                        store.spec_dict_of(coords[j].0)
                    }),
            decreases entries@.len() - ci3,
        {
            point_names.push(String::from_str(entries[ci3].0.as_str()));
            if crate::types::str_eq(
                entries[ci3].0.as_str(),
                crate::datastore::scenario_field_name(),
            ) {
                let d = match store.get_dictionary(crate::datastore::scenario_field_name()) {
                    Some(d) => d,
                    None => unreached(),
                };
                dictionaries.push(d.duplicate());
            } else {
                proof {
                    let fi = store.schema.spec_field_index(coords[ci3 as int].0);
                    assert(store.schema.names()[fi] == coords[ci3 as int].0);
                    assert(store.dictionary_provider.spec_has_dict(store.schema.names()[fi]));
                }
                let d = match store.get_dictionary(entries[ci3].0.as_str()) {
                    Some(d) => d,
                    None => unreached(),
                };
                dictionaries.push(d.duplicate());
            }
            ci3 = ci3 + 1;
        }

        let mut aggregate_names: Vec<String> = Vec::new();
        let mut destination_types: Vec<DataType> = Vec::new();
        let mut mi3: usize = 0;
        while mi3 < query.measures.len()
            invariant
                mi3 <= query.measures@.len(),
                store == self.store,
                store.wf(),
                spec_query_valid(*store, *query),
                coords == query.coords(),
                forall|j: int|
                    0 <= j < query.measures@.len() ==> (#[trigger] query.meas()[j]).0
                        == query.measures@[j].field@ && query.meas()[j].1
                        == query.measures@[j].aggregation_function@,
                aggregate_names@.len() == mi3,
                destination_types@.len() == mi3,
                forall|j: int|
                    0 <= j < mi3 ==> (#[trigger] aggregate_names@[j])@ == query.meas()[j].1 + "("@
                        + query.meas()[j].0 + ")"@,
                forall|j: int|
                    0 <= j < mi3 ==> (#[trigger] destination_types@[j]) == spec_dest_type(
                        *store,
                        store.schema.spec_field_index(query.meas()[j].0),
                    ),
            decreases query.measures@.len() - mi3,
        {
            aggregate_names.push(query.measures[mi3].alias());
            proof {
                assert(store.schema.spec_has_field(query.meas()[mi3 as int].0));
                assert(query.meas()[mi3 as int].0 == query.measures@[mi3 as int].field@);
            }
            let f = match store.schema.field_index(query.measures[mi3].field.as_str()) {
                Some(f) => f,
                None => unreached(),
            };
            proof {
                let fi = store.schema.spec_field_index(query.meas()[mi3 as int].0);
                if fi != f as int {
                    if fi < f as int {
                        assert(store.schema.names()[fi] != store.schema.names()[f as int]);
                    } else {
                        assert(store.schema.names()[f as int] != store.schema.names()[fi]);
                    }
                }
            }
            let dt = if store.schema.fields[f].data_type == DataType::UInt32 {
                DataType::UInt64
            } else {
                DataType::Float64
            };
            destination_types.push(dt);
            mi3 = mi3 + 1;
        }

        let result = PointListAggregateResult::new(
            point_dictionary,
            point_names,
            dictionaries,
            aggregate_names,
            destination_types,
            bufs,
        );
        proof {
            assert(result.wf());
        }
        Ok(result)
    }
}

/// Events that never hit `p` aggregate to 0 for it.
proof fn lemma_agg_no_match_zero(
    store: Store,
    coords: Seq<(Seq<char>, Option<Seq<Seq<char>>>)>,
    evs: Seq<(u32, u32)>,
    p: Seq<u32>,
    mf: int,
    dt: DataType,
)
    requires
        forall|k: int|
            0 <= k < evs.len() ==> spec_point(store, coords, (#[trigger] evs[k]).0, evs[k].1) != p,
    ensures
        spec_agg_value(store, coords, evs, p, mf, dt) == 0,
    decreases evs.len(),
{
    if evs.len() > 0 {
        lemma_agg_no_match_zero(store, coords, evs.drop_last(), p, mf, dt);
        assert(evs[evs.len() - 1] == evs.last());
    }
}

/// Appending events that never hit `p` leaves its aggregate unchanged.
proof fn lemma_agg_append_no_match(
    store: Store,
    coords: Seq<(Seq<char>, Option<Seq<Seq<char>>>)>,
    a: Seq<(u32, u32)>,
    b: Seq<(u32, u32)>,
    p: Seq<u32>,
    mf: int,
    dt: DataType,
)
    requires
        forall|k: int|
            0 <= k < b.len() ==> spec_point(store, coords, (#[trigger] b[k]).0, b[k].1) != p,
    ensures
        spec_agg_value(store, coords, a + b, p, mf, dt) == spec_agg_value(
            store,
            coords,
            a,
            p,
            mf,
            dt,
        ),
    decreases b.len(),
{
    if b.len() == 0 {
        assert(a + b =~= a);
    } else {
        assert((a + b).drop_last() =~= a + b.drop_last());
        assert((a + b).last() == b.last());
        assert(b[b.len() - 1] == b.last());
        lemma_agg_append_no_match(store, coords, a, b.drop_last(), p, mf, dt);
    }
}

/// Prepending events that never hit `p` leaves its aggregate equal to the
/// suffix's alone.
proof fn lemma_agg_prepend_no_match(
    store: Store,
    coords: Seq<(Seq<char>, Option<Seq<Seq<char>>>)>,
    a: Seq<(u32, u32)>,
    b: Seq<(u32, u32)>,
    p: Seq<u32>,
    mf: int,
    dt: DataType,
)
    requires
        forall|k: int|
            0 <= k < a.len() ==> spec_point(store, coords, (#[trigger] a[k]).0, a[k].1) != p,
    ensures
        spec_agg_value(store, coords, a + b, p, mf, dt) == spec_agg_value(
            store,
            coords,
            b,
            p,
            mf,
            dt,
        ),
    decreases b.len(),
{
    if b.len() == 0 {
        assert(a + b =~= a);
        lemma_agg_no_match_zero(store, coords, a, p, mf, dt);
    } else {
        assert((a + b).drop_last() =~= a + b.drop_last());
        assert((a + b).last() == b.last());
        lemma_agg_prepend_no_match(store, coords, a, b.drop_last(), p, mf, dt);
    }
}

/// Every event carries one of the queried scenario codes.
proof fn lemma_events_scenarios(store: Store, av: Seq<(Seq<char>, Seq<u32>)>, scs: Seq<u32>)
    ensures
        forall|k: int|
            0 <= k < spec_events(store, av, scs).len() ==> scs.contains(
                (#[trigger] spec_events(store, av, scs)[k]).0,
            ),
    decreases scs.len(),
{
    if scs.len() > 0 {
        lemma_events_scenarios(store, av, scs.drop_last());
        let a = spec_events(store, av, scs.drop_last());
        let seg = spec_sel_rows(store, av, scs.last() as int).map_values(
            |r: u32| (scs.last(), r),
        );
        let evs = spec_events(store, av, scs);
        assert(evs == a + seg);
        assert forall|k: int| 0 <= k < evs.len() implies scs.contains(
            (#[trigger] evs[k]).0,
        ) by {
            if k < a.len() {
                assert(evs[k] == a[k]);
                assert(scs.drop_last().contains(a[k].0));
                let j = choose|j: int|
                    0 <= j < scs.drop_last().len() && scs.drop_last()[j] == a[k].0;
                assert(scs[j] == a[k].0);
            } else {
                assert(evs[k] == seg[k - a.len()]);
                assert(seg[k - a.len()].0 == scs.last());
                assert(scs[scs.len() - 1] == scs.last());
            }
        }
    }
}

/// With the `scenario` dimension in the grouping set, a point's total over
/// all queried scenarios equals its total over its own scenario's selected
/// rows alone: events of every other scenario carry a different scenario
/// code in the point and contribute nothing. The right-hand side is the
/// aggregate the same query computes against the materialised dataset of
/// that one scenario, whose cells are the resolved cells the events read.
pub proof fn lemma_scenario_totals_match_materialised(
    store: Store,
    coords: Seq<(Seq<char>, Option<Seq<Seq<char>>>)>,
    av: Seq<(Seq<char>, Seq<u32>)>,
    scs: Seq<u32>,
    i: int,
    p: Seq<u32>,
    mf: int,
    dt: DataType,
)
    requires
        0 <= i < scs.len(),
        forall|j: int| 0 <= j < scs.len() && j != i ==> (#[trigger] scs[j]) != scs[i],
        0 <= spec_find_coord(coords, spec_scenario_field_name()) < coords.len(),
        p.len() == coords.len(),
        p[spec_find_coord(coords, spec_scenario_field_name())] == scs[i],
    ensures
        spec_agg_value(store, coords, spec_events(store, av, scs), p, mf, dt) == spec_agg_value(
            store,
            coords,
            spec_sel_rows(store, av, scs[i] as int).map_values(|r: u32| (scs[i], r)),
            p,
            mf,
            dt,
        ),
    decreases scs.len(),
{
    let si = spec_find_coord(coords, spec_scenario_field_name());
    lemma_find_coord(coords, spec_scenario_field_name());
    assert(coords[si].0 == spec_scenario_field_name());
    let a = spec_events(store, av, scs.drop_last());
    let seg = spec_sel_rows(store, av, scs.last() as int).map_values(|r: u32| (scs.last(), r));
    let evs = spec_events(store, av, scs);
    assert(evs == a + seg);
    if i == scs.len() - 1 {
        // Everything before this scenario's segment misses `p`.
        lemma_events_scenarios(store, av, scs.drop_last());
        assert forall|k: int| 0 <= k < a.len() implies spec_point(
            store,
            coords,
            (#[trigger] a[k]).0,
            a[k].1,
        ) != p by {
            assert(scs.drop_last().contains(a[k].0));
            let j = choose|j: int| 0 <= j < scs.drop_last().len() && scs.drop_last()[j] == a[k].0;
            assert(scs[j] == a[k].0);
            assert(j != i);
            assert(a[k].0 != scs[i]);
            assert(spec_point(store, coords, a[k].0, a[k].1)[si] == a[k].0);
        }
        lemma_agg_prepend_no_match(store, coords, a, seg, p, mf, dt);
        assert(scs.last() == scs[i]);
    } else {
        // The trailing scenario's segment misses `p`.
        assert(scs[scs.len() - 1] == scs.last());
        assert(scs.last() != scs[i]);
        assert forall|k: int| 0 <= k < seg.len() implies spec_point(
            store,
            coords,
            (#[trigger] seg[k]).0,
            seg[k].1,
        ) != p by {
            assert(seg[k].0 == scs.last());
            assert(spec_point(store, coords, seg[k].0, seg[k].1)[si] == scs.last());
        }
        lemma_agg_append_no_match(store, coords, a, seg, p, mf, dt);
        assert(scs.drop_last()[i] == scs[i]);
        assert(forall|j: int|
            0 <= j < scs.drop_last().len() && j != i ==> (#[trigger] scs.drop_last()[j])
                != scs.drop_last()[i]);
        lemma_scenario_totals_match_materialised(
            store,
            coords,
            av,
            scs.drop_last(),
            i,
            p,
            mf,
            dt,
        );
    }
}

/// When the predicates match every base row of a scenario, a point's total
/// over all queried scenarios equals the aggregate computed over the full
/// materialised dataset of its own scenario: every base row once, in
/// ascending order, reading the resolved cells.
pub proof fn lemma_full_selection_totals_match_materialised(
    store: Store,
    coords: Seq<(Seq<char>, Option<Seq<Seq<char>>>)>,
    av: Seq<(Seq<char>, Seq<u32>)>,
    scs: Seq<u32>,
    i: int,
    p: Seq<u32>,
    mf: int,
    dt: DataType,
)
    requires
        store.row_count <= u32::MAX as u64,
        0 <= i < scs.len(),
        forall|j: int| 0 <= j < scs.len() && j != i ==> (#[trigger] scs[j]) != scs[i],
        0 <= spec_find_coord(coords, spec_scenario_field_name()) < coords.len(),
        p.len() == coords.len(),
        p[spec_find_coord(coords, spec_scenario_field_name())] == scs[i],
        forall|r: u32| r < store.row_count ==> spec_row_selected(store, av, scs[i] as int, r),
    ensures
        spec_agg_value(store, coords, spec_events(store, av, scs), p, mf, dt) == spec_agg_value(
            store,
            coords,
            Seq::new(store.row_count as nat, |r: int| (scs[i], r as u32)),
            p,
            mf,
            dt,
        ),
{
    lemma_scenario_totals_match_materialised(store, coords, av, scs, i, p, mf, dt);
    lemma_rows_upto_all(store, av, scs[i] as int, store.row_count as int);
    assert(spec_sel_rows(store, av, scs[i] as int).map_values(|r: u32| (scs[i], r)) =~= Seq::new(
        store.row_count as nat,
        |r: int| (scs[i], r as u32),
    ));
}

/// Appending a run of events that all carry the point `q` either leaves
/// the accumulated points unchanged (if `q` was already there) or appends
/// `q` once.
proof fn lemma_points_acc_const_seg(
    store: Store,
    coords: Seq<(Seq<char>, Option<Seq<Seq<char>>>)>,
    a: Seq<(u32, u32)>,
    seg: Seq<(u32, u32)>,
    q: Seq<u32>,
)
    requires
        forall|k: int|
            0 <= k < seg.len() ==> spec_point(store, coords, (#[trigger] seg[k]).0, seg[k].1) == q,
    ensures
        seg.len() == 0 ==> spec_points_acc(store, coords, a + seg) == spec_points_acc(
            store,
            coords,
            a,
        ),
        seg.len() > 0 && spec_points_acc(store, coords, a).contains(q) ==> spec_points_acc(
            store,
            coords,
            a + seg,
        ) == spec_points_acc(store, coords, a),
        seg.len() > 0 && !spec_points_acc(store, coords, a).contains(q) ==> spec_points_acc(
            store,
            coords,
            a + seg,
        ) == spec_points_acc(store, coords, a).push(q),
    decreases seg.len(),
{
    if seg.len() == 0 {
        assert(a + seg =~= a);
    } else {
        assert((a + seg).drop_last() =~= a + seg.drop_last());
        assert((a + seg).last() == seg.last());
        assert(seg[seg.len() - 1] == seg.last());
        lemma_points_acc_const_seg(store, coords, a, seg.drop_last(), q);
        let base = spec_points_acc(store, coords, a);
        if seg.len() > 1 || base.contains(q) {
            if base.contains(q) {
                let l = choose|l: int| 0 <= l < base.len() && base[l] == q;
                if spec_points_acc(store, coords, a + seg.drop_last()) == base {
                    assert(spec_points_acc(store, coords, a + seg.drop_last())[l] == q);
                } else {
                }
            } else {
                if seg.len() > 1 {
                    assert(spec_points_acc(store, coords, a + seg.drop_last()) == base.push(q));
                    assert(base.push(q)[base.len() as int] == q);
                    assert(spec_points_acc(store, coords, a + seg.drop_last()).contains(q));
                }
            }
        }
    }
}

/// A wildcard `scenario` query with no other coordinate produces exactly
/// one result row per scenario: its points are the one-code tuples of the
/// scenario codes, in order.
pub proof fn lemma_wildcard_scenario_row_count(
    store: Store,
    coords: Seq<(Seq<char>, Option<Seq<Seq<char>>>)>,
)
    requires
        store.wf(),
        store.is_loaded(),
        store.row_count > 0,
        store.num_scenarios() <= u32::MAX as nat,
        coords.len() == 1,
        coords[0].0 == spec_scenario_field_name(),
        coords[0].1 is None,
    ensures
        ({
            let av = spec_accepted(store, coords);
            let scs = spec_queried_scenarios(store, coords);
            spec_points_acc(store, coords, spec_events(store, av, scs)).len()
                == store.num_scenarios()
        }),
{
    let av = spec_accepted(store, coords);
    let scs = spec_queried_scenarios(store, coords);
    assert(coords.drop_last().len() == 0);
    assert(coords.last() == coords[0]);
    assert(spec_accepted(store, coords.drop_last()) =~= Seq::<(Seq<char>, Seq<u32>)>::empty());
    assert(av =~= Seq::<(Seq<char>, Seq<u32>)>::empty());
    assert(spec_find_coord(coords, spec_scenario_field_name()) == 0);
    assert(scs == Seq::new(store.num_scenarios(), |k: int| k as u32));
    lemma_wildcard_points(store, coords, av, scs, scs.len() as int);
    assert(spec_points_acc(store, coords, spec_events(store, av, scs.take(scs.len() as int))).len()
        == scs.len());
    assert(scs.take(scs.len() as int) =~= scs);
}

/// Under an empty predicate set and a sole wildcard `scenario` coordinate,
/// the points after the first `k` scenarios are their one-code tuples.
proof fn lemma_wildcard_points(
    store: Store,
    coords: Seq<(Seq<char>, Option<Seq<Seq<char>>>)>,
    av: Seq<(Seq<char>, Seq<u32>)>,
    scs: Seq<u32>,
    k: int,
)
    requires
        store.wf(),
        store.is_loaded(),
        store.row_count > 0,
        av.len() == 0,
        coords.len() == 1,
        coords[0].0 == spec_scenario_field_name(),
        0 <= k <= scs.len(),
        forall|j: int, l: int| 0 <= j < l < scs.len() ==> scs[j] != scs[l],
    ensures
        spec_points_acc(store, coords, spec_events(store, av, scs.take(k))) =~= Seq::new(
            k as nat,
            |j: int| seq![scs[j]],
        ),
    decreases k,
{
    if k > 0 {
        lemma_wildcard_points(store, coords, av, scs, k - 1);
        assert(scs.take(k).drop_last() =~= scs.take(k - 1));
        assert(scs.take(k).last() == scs[k - 1]);
        let a = spec_events(store, av, scs.take(k - 1));
        let seg = spec_sel_rows(store, av, scs[k - 1] as int).map_values(
            |r: u32| (scs[k - 1], r),
        );
        assert(spec_events(store, av, scs.take(k)) == a + seg);
        // Every base row is selected: there is at least one event.
        assert(forall|r: u32|
            r < store.row_count as int ==> #[trigger] spec_row_selected(
                store,
                av,
                scs[k - 1] as int,
                r,
            ));
        lemma_rows_upto_all(store, av, scs[k - 1] as int, store.row_count as int);
        assert(spec_sel_rows(store, av, scs[k - 1] as int).len() == store.row_count);
        assert(seg.len() > 0);
        let q = seq![scs[k - 1]];
        assert forall|l: int| 0 <= l < seg.len() implies spec_point(
            store,
            coords,
            (#[trigger] seg[l]).0,
            seg[l].1,
        ) == q by {
            assert(seg[l].0 == scs[k - 1]);
            assert(spec_point(store, coords, seg[l].0, seg[l].1) =~= q);
        }
        lemma_points_acc_const_seg(store, coords, a, seg, q);
        let prev = spec_points_acc(store, coords, a);
        assert(prev =~= Seq::new((k - 1) as nat, |j: int| seq![scs[j]]));
        assert(!prev.contains(q)) by {
            if prev.contains(q) {
                let l = choose|l: int| 0 <= l < prev.len() && prev[l] == q;
                assert(prev[l] == seq![scs[l]]);
                assert(seq![scs[l]] == q);
                assert(seq![scs[l]][0] == q[0]);
                assert(scs[l] == scs[k - 1]);
                assert(l != k - 1);
            }
        }
        assert(spec_points_acc(store, coords, a + seg) == prev.push(q));
        assert(prev.push(q) =~= Seq::new(k as nat, |j: int| seq![scs[j]]));
    } else {
        assert(scs.take(0).len() == 0);
        assert(spec_events(store, av, scs.take(0)).len() == 0);
    }
}

} // verus!
