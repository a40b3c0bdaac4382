//! Core data-model types: column data types, schema, record batches and the
//! error kinds shared by the store and the query engine.
use vstd::prelude::*;

verus! {

/// The data types a column may carry.
#[derive(Clone, Copy, PartialEq, Eq, Structural, Debug)]
pub enum DataType {
    UInt32,
    UInt64,
    Int64,
    Float64,
    Utf8,
}

/// The error kinds of the store and the query engine.
///
/// - `SchemaError`: a batch does not match the store schema, or a column type
///   is unsupported where a specific type is needed.
/// - `KeyError`: a duplicate primary key in a loaded batch, or an overlay key
///   that is unknown to the base scenario.
/// - `StateError`: an overlay loaded before the base, a second load of an
///   already-loaded scenario, or a column buffer installed twice.
/// - `UsageError`: the reserved `scenario` field used as a predicate field, or
///   a point of the wrong arity handed to a point dictionary.
#[derive(Clone, Copy, PartialEq, Eq, Structural, Debug)]
pub enum StoreError {
    SchemaError,
    KeyError,
    StateError,
    UsageError,
}

/// One column of a schema: a name and a data type.
#[derive(Clone, Debug)]
pub struct Field {
    pub name: String,
    pub data_type: DataType,
}

/// An ordered sequence of fields with unique names.
#[derive(Clone, Debug)]
pub struct Schema {
    pub fields: Vec<Field>,
}

/// The view of a list of strings as a sequence of character sequences.
pub open spec fn strings_view(v: Seq<String>) -> Seq<Seq<char>> {
    v.map_values(|s: String| s@)
}

/// Whether two string slices hold the same characters.
pub fn str_eq(a: &str, b: &str) -> (r: bool)
    ensures
        r == (a@ == b@),
{
    let sa = String::from_str(a);
    let sb = String::from_str(b);
    sa == sb
}

impl Schema {
    /// The field names, in schema order.
    pub open spec fn names(self) -> Seq<Seq<char>> {
        self.fields@.map_values(|f: Field| f.name@)
    }

    pub open spec fn len(self) -> nat {
        self.fields@.len()
    }

    /// Field names are unique and none reuses a reserved name.
    pub open spec fn wf(self) -> bool {
        &&& forall|i: int, j: int|
            0 <= i < j < self.names().len() ==> self.names()[i] != self.names()[j]
        &&& forall|i: int|
            0 <= i < self.names().len() ==> self.names()[i] != crate::datastore::spec_scenario_field_name()
                && self.names()[i] != crate::datastore::spec_main_scenario_name()
    }

    /// Whether some field bears the given name.
    pub open spec fn spec_has_field(self, name: Seq<char>) -> bool {
        exists|i: int| 0 <= i < self.names().len() && self.names()[i] == name
    }

    /// The index of the field bearing the given name.
    pub open spec fn spec_field_index(self, name: Seq<char>) -> int {
        choose|i: int| 0 <= i < self.names().len() && self.names()[i] == name
    }

    pub fn new(fields: Vec<Field>) -> (r: Schema)
        ensures
            r.fields == fields,
    {
        Schema { fields }
    }

    /// Look a field up by name; `Some` exactly when the schema has it.
    pub fn field_index(&self, name: &str) -> (r: Option<usize>)
        ensures
            match r {
                Some(i) => i < self.names().len() && self.names()[i as int] == name@
                    && self.spec_has_field(name@),
                None => !self.spec_has_field(name@),
            },
    {
        let n = String::from_str(name);
        let mut i: usize = 0;
        while i < self.fields.len()
            invariant
                i <= self.fields@.len(),
                n@ == name@,
                forall|j: int| 0 <= j < i ==> self.names()[j] != name@,
            decreases self.fields@.len() - i,
        {
            assert(self.names()[i as int] == self.fields@[i as int].name@);
            if self.fields[i].name == n {
                return Some(i);
            }
            i = i + 1;
        }
        None
    }
}

/// One column of a record batch, as plain values. `Float64` cells travel as
/// their IEEE-754 bit patterns.
#[derive(Clone, Debug)]
pub enum BatchColumn {
    UInt32(Vec<u32>),
    UInt64(Vec<u64>),
    Int64(Vec<i64>),
    Float64Bits(Vec<u64>),
    Utf8(Vec<String>),
}

impl BatchColumn {
    pub open spec fn spec_data_type(self) -> DataType {
        match self {
            BatchColumn::UInt32(_) => DataType::UInt32,
            BatchColumn::UInt64(_) => DataType::UInt64,
            BatchColumn::Int64(_) => DataType::Int64,
            BatchColumn::Float64Bits(_) => DataType::Float64,
            BatchColumn::Utf8(_) => DataType::Utf8,
        }
    }

    pub open spec fn spec_len(self) -> nat {
        match self {
            BatchColumn::UInt32(v) => v@.len(),
            BatchColumn::UInt64(v) => v@.len(),
            BatchColumn::Int64(v) => v@.len(),
            BatchColumn::Float64Bits(v) => v@.len(),
            BatchColumn::Utf8(v) => v@.len(),
        }
    }

    /// The cells of a non-string column as raw 64-bit words.
    pub open spec fn raw(self) -> Seq<u64> {
        match self {
            BatchColumn::UInt32(v) => v@.map_values(|x: u32| x as u64),
            BatchColumn::UInt64(v) => v@,
            BatchColumn::Int64(v) => v@.map_values(|x: i64| x as u64),
            BatchColumn::Float64Bits(v) => v@,
            BatchColumn::Utf8(_) => Seq::<u64>::empty(),
        }
    }

    /// The cells of a string column.
    pub open spec fn strings(self) -> Seq<Seq<char>> {
        match self {
            BatchColumn::Utf8(v) => v@.map_values(|s: String| s@),
            _ => Seq::<Seq<char>>::empty(),
        }
    }

    pub fn len(&self) -> (r: usize)
        ensures
            r == self.spec_len(),
    {
        match self {
            BatchColumn::UInt32(v) => v.len(),
            BatchColumn::UInt64(v) => v.len(),
            BatchColumn::Int64(v) => v.len(),
            BatchColumn::Float64Bits(v) => v.len(),
            BatchColumn::Utf8(v) => v.len(),
        }
    }

    pub fn data_type(&self) -> (r: DataType)
        ensures
            r == self.spec_data_type(),
    {
        match self {
            BatchColumn::UInt32(_) => DataType::UInt32,
            BatchColumn::UInt64(_) => DataType::UInt64,
            BatchColumn::Int64(_) => DataType::Int64,
            BatchColumn::Float64Bits(_) => DataType::Float64,
            BatchColumn::Utf8(_) => DataType::Utf8,
        }
    }
}

/// A fully materialised batch: one typed column per schema field, all of
/// equal length.
#[derive(Clone, Debug)]
pub struct RecordBatch {
    pub columns: Vec<BatchColumn>,
}

impl RecordBatch {
    /// The number of rows, read off the first column.
    pub open spec fn spec_rows(self) -> nat {
        if self.columns@.len() > 0 {
            self.columns@[0].spec_len()
        } else {
            0
        }
    }

    /// Whether the batch fits the schema: one column per field, of the
    /// field's type, all columns of equal length.
    pub open spec fn spec_matches(self, schema: Schema) -> bool {
        &&& self.columns@.len() == schema.len()
        &&& forall|f: int|
            0 <= f < schema.len() ==> (#[trigger] self.columns@[f]).spec_data_type()
                == schema.fields@[f].data_type
        &&& forall|f: int|
            0 <= f < schema.len() ==> (#[trigger] self.columns@[f]).spec_len() == self.spec_rows()
    }

    pub fn new(columns: Vec<BatchColumn>) -> (r: RecordBatch)
        ensures
            r.columns == columns,
    {
        RecordBatch { columns }
    }

    /// Check the batch against a schema; `true` exactly when it fits.
    pub fn matches(&self, schema: &Schema) -> (r: bool)
        ensures
            r == self.spec_matches(*schema),
    {
        if self.columns.len() != schema.fields.len() {
            return false;
        }
        let rows = if self.columns.len() > 0 {
            self.columns[0].len()
        } else {
            0
        };
        let mut f: usize = 0;
        while f < self.columns.len()
            invariant
                f <= self.columns@.len(),
                self.columns@.len() == schema.len(),
                rows == self.spec_rows(),
                forall|j: int|
                    0 <= j < f ==> (#[trigger] self.columns@[j]).spec_data_type()
                        == schema.fields@[j].data_type,
                forall|j: int| 0 <= j < f ==> (#[trigger] self.columns@[j]).spec_len() == rows,
            decreases self.columns@.len() - f,
        {
            let dt = self.columns[f].data_type();
            let fdt = schema.fields[f].data_type;
            if !(dt == fdt) {
                return false;
            }
            if self.columns[f].len() != rows {
                return false;
            }
            f = f + 1;
        }
        true
    }
}

} // verus!
