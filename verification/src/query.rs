//! A structured query: an ordered coordinate map (field name to wildcard or
//! value list, order defining the result's point-tuple column order) and an
//! ordered list of aggregated measures.
use indexmap::IndexMap;
use vstd::prelude::*;

verus! {

#[verifier::external_type_specification]
#[verifier::external_body]
#[verifier::reject_recursive_types(K)]
#[verifier::reject_recursive_types(V)]
#[verifier::reject_recursive_types(S)]
pub struct ExIndexMap<K, V, S>(IndexMap<K, V, S>);

/// The entries an index map of coordinates holds, in their insertion order:
/// field name and either a wildcard (`None`) or the accepted values.
pub uninterp spec fn coord_entries(m: IndexMap<String, Option<Vec<String>>>) -> Seq<
    (Seq<char>, Option<Seq<Seq<char>>>),
>;

pub open spec fn coord_value_view(o: Option<Vec<String>>) -> Option<Seq<Seq<char>>> {
    match o {
        Option::None => Option::<Seq<Seq<char>>>::None,
        Option::Some(v) => Option::Some(crate::types::strings_view(v@)),
    }
}

/// Relies on IndexMap::new: the fresh map is empty.
#[verifier::external_body]
fn im_new() -> (r: IndexMap<String, Option<Vec<String>>>)
    ensures
        coord_entries(r) == Seq::<(Seq<char>, Option<Seq<Seq<char>>>)>::empty(),
{
    IndexMap::new()
}

/// Relies on IndexMap::insert: an equivalent key keeps its place in the
/// order and its value is updated; a new key is appended, last in order.
#[verifier::external_body]
fn im_insert(
    m: &mut IndexMap<String, Option<Vec<String>>>,
    key: String,
    value: Option<Vec<String>>,
)
    ensures
        (exists|i: int|
            0 <= i < coord_entries(*old(m)).len() && (#[trigger] coord_entries(*old(m))[i]).0
                == key@) ==> coord_entries(*final(m)) == coord_entries(*old(m)).update(
            choose|i: int|
                0 <= i < coord_entries(*old(m)).len() && (#[trigger] coord_entries(*old(m))[i]).0
                    == key@,
            (key@, coord_value_view(value)),
        ),
        !(exists|i: int|
            0 <= i < coord_entries(*old(m)).len() && (#[trigger] coord_entries(*old(m))[i]).0
                == key@) ==> coord_entries(*final(m)) == coord_entries(*old(m)).push(
            (key@, coord_value_view(value)),
        ),
{
    m.insert(key, value);
}

/// Relies on IndexMap::iter, which yields the key-value pairs in their
/// order: the entries as an owned list.
#[verifier::external_body]
fn im_entries(m: &IndexMap<String, Option<Vec<String>>>) -> (r: Vec<
    (String, Option<Vec<String>>),
>)
    ensures
        r@.len() == coord_entries(*m).len(),
        forall|i: int|
            0 <= i < r@.len() ==> (#[trigger] r@[i]).0@ == coord_entries(*m)[i].0
                && coord_value_view(r@[i].1) == coord_entries(*m)[i].1,
{
    m.iter().map(|(k, v)| (k.clone(), v.clone())).collect()
}

/// One aggregated measure: a field and the aggregation function applied to
/// it.
pub struct AggregatedMeasure {
    pub field: String,
    pub aggregation_function: String,
}

impl AggregatedMeasure {
    pub fn new(field: &str, aggregation_function: &str) -> (r: AggregatedMeasure)
        ensures
            r.field@ == field@,
            r.aggregation_function@ == aggregation_function@,
    {
        AggregatedMeasure {
            field: String::from_str(field),
            aggregation_function: String::from_str(aggregation_function),
        }
    }

    /// The alias of the output column: `fn(field)`.
    pub fn alias(&self) -> (r: String)
        ensures
            r@ == self.aggregation_function@ + "("@ + self.field@ + ")"@,
    {
        let mut s = String::from_str(self.aggregation_function.as_str());
        s.append("(");
        s.append(self.field.as_str());
        s.append(")");
        s
    }
}

/// A structured query, built by chained additions; the call order defines
/// the result column order.
pub struct Query {
    pub coordinates: IndexMap<String, Option<Vec<String>>>,
    pub measures: Vec<AggregatedMeasure>,
}

impl Query {
    /// The coordinates, in order: field name and wildcard or value list.
    pub open spec fn coords(self) -> Seq<(Seq<char>, Option<Seq<Seq<char>>>)> {
        coord_entries(self.coordinates)
    }

    /// The measures, in order: field name and aggregation function name.
    pub open spec fn meas(self) -> Seq<(Seq<char>, Seq<char>)> {
        self.measures@.map_values(|m: AggregatedMeasure| (m.field@, m.aggregation_function@))
    }

    /// The coordinates as an owned entry list, in their order.
    pub fn entries(&self) -> (r: Vec<(String, Option<Vec<String>>)>)
        ensures
            r@.len() == self.coords().len(),
            forall|i: int|
                0 <= i < r@.len() ==> (#[trigger] r@[i]).0@ == self.coords()[i].0
                    && coord_value_view(r@[i].1) == self.coords()[i].1,
    {
        im_entries(&self.coordinates)
    }

    pub fn new() -> (r: Query)
        ensures
            r.coords() == Seq::<(Seq<char>, Option<Seq<Seq<char>>>)>::empty(),
            r.measures@ == Seq::<AggregatedMeasure>::empty(),
    {
        Query { coordinates: im_new(), measures: Vec::new() }
    }

    /// Add a wildcard coordinate: group by every value of the field.
    pub fn add_wildcard_coordinate(&mut self, field: &str)
        ensures
            final(self).measures == old(self).measures,
            ({
                let es = old(self).coords();
                let es2 = final(self).coords();
                if exists|i: int| 0 <= i < es.len() && (#[trigger] es[i]).0 == field@ {
                    es2 == es.update(
                        choose|i: int| 0 <= i < es.len() && (#[trigger] es[i]).0 == field@,
                        (field@, Option::<Seq<Seq<char>>>::None),
                    )
                } else {
                    es2 == es.push((field@, Option::<Seq<Seq<char>>>::None))
                }
            }),
    {
        im_insert(&mut self.coordinates, String::from_str(field), None);
    }

    /// Add a list coordinate: group by the given values of the field.
    pub fn add_coordinates(&mut self, field: &str, coordinates: Vec<&str>)
        ensures
            final(self).measures == old(self).measures,
            ({
                let es = old(self).coords();
                let es2 = final(self).coords();
                let vs = Option::Some(coordinates@.map_values(|c: &str| c@));
                if exists|i: int| 0 <= i < es.len() && (#[trigger] es[i]).0 == field@ {
                    es2 == es.update(
                        choose|i: int| 0 <= i < es.len() && (#[trigger] es[i]).0 == field@,
                        (field@, vs),
                    )
                } else {
                    es2 == es.push((field@, vs))
                }
            }),
    {
        let mut owned: Vec<String> = Vec::new();
        let mut i: usize = 0;
        while i < coordinates.len()
            invariant
                i <= coordinates@.len(),
                owned@.len() == i,
                forall|j: int| 0 <= j < i ==> (#[trigger] owned@[j])@ == coordinates@[j]@,
            decreases coordinates@.len() - i,
        {
            owned.push(String::from_str(coordinates[i]));
            i = i + 1;
        }
        proof {
            assert(coord_value_view(Option::Some(owned)) =~= Option::Some(
                coordinates@.map_values(|c: &str| c@),
            ));
        }
        im_insert(&mut self.coordinates, String::from_str(field), Some(owned));
    }

    /// Add an aggregated measure; its output column is named `agg(field)`.
    pub fn add_aggregated_measure(&mut self, field: &str, agg: &str)
        ensures
            final(self).coordinates == old(self).coordinates,
            final(self).measures@.len() == old(self).measures@.len() + 1,
            final(self).measures@.last().field@ == field@,
            final(self).measures@.last().aggregation_function@ == agg@,
            final(self).measures@ == old(self).measures@.push(final(self).measures@.last()),
            final(self).meas() == old(self).meas().push((field@, agg@)),
    {
        self.measures.push(AggregatedMeasure::new(field, agg));
        proof {
            assert(self.meas() =~= old(self).meas().push((field@, agg@)));
        }
    }
}

} // verus!
