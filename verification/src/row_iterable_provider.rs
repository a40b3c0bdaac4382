//! The provider of row iterables: a plain range over every base row when no
//! predicate is active, a bitmap-backed provider otherwise.
use vstd::prelude::*;

use crate::bitmap_row_iterable_provider::{
    entries_view,
    spec_row_selected,
    BitmapRowIterableProvider,
    RangeRowIterable,
    RowIterable,
    lemma_selected_equiv,
};
use crate::datastore::Store;
use crate::types::{DataType, StoreError};

verus! {

/// Produces the rows to visit for a given scenario.
pub enum RowIterableProvider<'a> {
    Range(RangeRowIterable),
    Bitmap(BitmapRowIterableProvider<'a>),
}

impl<'a> RowIterableProvider<'a> {
    /// The predicate entries the provider filters by.
    pub open spec fn av(self) -> Seq<(Seq<char>, Seq<u32>)> {
        match self {
            RowIterableProvider::Range(_) => Seq::<(Seq<char>, Seq<u32>)>::empty(),
            RowIterableProvider::Bitmap(b) => b.av(),
        }
    }

    pub open spec fn wf(self, store: Store) -> bool {
        match self {
            RowIterableProvider::Range(r) => r.start == 0 && r.end == store.row_count
                && store.wf() && store.is_loaded(),
            RowIterableProvider::Bitmap(b) => b.wf() && *b.store == store,
        }
    }

    /// The rows to visit for `scenario`: exactly the base rows whose
    /// resolved values satisfy every predicate under that scenario.
    pub fn get(&self, store: &Store, scenario: &str) -> (r: RowIterable)
        requires
            self.wf(*store),
            store.spec_has_scenario(scenario@),
        ensures
            forall|row: u32|
                r.spec_rows().contains(row) <==> row < store.row_count && spec_row_selected(
                    *store,
                    self.av(),
                    store.spec_scenario_code(scenario@),
                    row,
                ),
    {
        match self {
            RowIterableProvider::Range(rr) => {
                let it = rr.get(scenario);
                proof {
                    assert(store.row_count <= u32::MAX as u64);
                    assert forall|row: u32| it.spec_rows().contains(row) <==> row
                        < store.row_count && spec_row_selected(
                        *store,
                        self.av(),
                        store.spec_scenario_code(scenario@),
                        row,
                    ) by {
                        assert(it.spec_rows().contains(row) == (rr.start <= row < rr.end));
                    }
                }
                it
            },
            RowIterableProvider::Bitmap(b) => {
                proof {
                    assert(*b.store == *store);
                }
                let it = b.get(scenario);
                it
            },
        }
    }
}

/// Builds the provider matching a predicate set.
pub struct RowIterableProviderFactory;

impl RowIterableProviderFactory {
    /// With no predicate, every base row is visited for every scenario;
    /// otherwise the bitmap provider filters rows per scenario. A predicate
    /// on the reserved `scenario` field is a `UsageError`.
    pub fn create<'a>(
        store: &'a Store,
        accepted_values_by_field: Vec<(String, Vec<u32>)>,
    ) -> (r: Result<RowIterableProvider<'a>, StoreError>)
        requires
            store.wf(),
            store.is_loaded(),
            forall|k: int|
                0 <= k < accepted_values_by_field@.len() && (
                #[trigger] accepted_values_by_field@[k]).0@
                    != crate::datastore::spec_scenario_field_name() ==> store.schema.spec_has_field(
                    accepted_values_by_field@[k].0@,
                ) && store.schema.fields@[store.schema.spec_field_index(
                    accepted_values_by_field@[k].0@,
                )].data_type == DataType::Utf8,
        ensures
            ({
                let input = entries_view(accepted_values_by_field@);
                match r {
                    Ok(p) => {
                        &&& p.wf(*store)
                        &&& forall|s: int, row: u32|
                            spec_row_selected(*store, #[trigger] p.av(), s, row)
                                == spec_row_selected(*store, input, s, row)
                    },
                    Err(e) => e == StoreError::UsageError && exists|k: int|
                        0 <= k < input.len() && (#[trigger] input[k]).0
                            == crate::datastore::spec_scenario_field_name(),
                }
            }),
    {
        let ghost input = entries_view(accepted_values_by_field@);
        if accepted_values_by_field.len() == 0 {
            let p = RowIterableProvider::Range(
                RangeRowIterable { start: 0, end: store.row_count as u32 },
            );
            proof {
                assert(input.len() == 0);
            }
            Ok(p)
        } else {
            match BitmapRowIterableProvider::new(accepted_values_by_field, store) {
                Ok(b) => {
                    let p = RowIterableProvider::Bitmap(b);
                    proof {
                        assert forall|s: int, row: u32|
                            spec_row_selected(*store, #[trigger] p.av(), s, row)
                                == spec_row_selected(*store, input, s, row) by {
                            lemma_selected_equiv(*store, p.av(), input, s, row);
                        }
                    }
                    Ok(p)
                },
                Err(e) => Err(e),
            }
        }
    }
}

} // verus!
