//! Dictionaries: per-field bijections between a string value and a compact
//! 32-bit code, and the provider that owns one dictionary per field.
use vstd::prelude::*;

verus! {

/// A bijection between string values and `u32` codes. Codes are assigned in
/// insertion order starting at 0 and are never removed; the code of a value
/// is its index in the insertion sequence.
#[derive(Clone, Debug)]
pub struct Dictionary {
    pub values: Vec<String>,
}

impl View for Dictionary {
    type V = Seq<Seq<char>>;

    open spec fn view(&self) -> Seq<Seq<char>> {
        self.values@.map_values(|s: String| s@)
    }
}

impl Dictionary {
    /// All values are distinct: the value-to-code direction is a function.
    pub open spec fn wf(self) -> bool {
        &&& forall|i: int, j: int| 0 <= i < j < self@.len() ==> self@[i] != self@[j]
        &&& self@.len() < u32::MAX as int
    }

    /// The code the dictionary assigns to `value`, meaningful when contained.
    pub open spec fn spec_position(self, value: Seq<char>) -> int {
        choose|i: int| 0 <= i < self@.len() && self@[i] == value
    }

    pub fn new() -> (r: Dictionary)
        ensures
            r@ == Seq::<Seq<char>>::empty(),
            r.wf(),
    {
        Dictionary { values: Vec::new() }
    }

    /// Insert-if-absent: return the existing code of `value`, or assign the
    /// next one.
    pub fn map(&mut self, value: String) -> (code: u32)
        requires
            old(self).wf(),
            old(self)@.len() + 1 < u32::MAX as int,
        ensures
            final(self).wf(),
            if old(self)@.contains(value@) {
                final(self)@ == old(self)@ && code == old(self).spec_position(value@)
            } else {
                final(self)@ == old(self)@.push(value@) && code == old(self)@.len()
            },
    {
        match self.get_position(value.as_str()) {
            Some(code) => code,
            None => {
                let code = self.values.len() as u32;
                self.values.push(value);
                assert(self@ =~= old(self)@.push(value@));
                code
            },
        }
    }

    /// Read-only value-to-code lookup; `Some` exactly when the value is
    /// contained.
    pub fn get_position(&self, value: &str) -> (r: Option<u32>)
        requires
            self.wf(),
        ensures
            match r {
                Some(code) => self@.contains(value@) && code < self@.len()
                    && self@[code as int] == value@ && code == self.spec_position(value@),
                None => !self@.contains(value@),
            },
    {
        let v = String::from_str(value);
        let mut i: usize = 0;
        while i < self.values.len()
            invariant
                i <= self.values@.len(),
                v@ == value@,
                self.wf(),
                forall|j: int| 0 <= j < i ==> self@[j] != value@,
            decreases self.values@.len() - i,
        {
            assert(self@[i as int] == self.values@[i as int]@);
            if self.values[i] == v {
                assert(self@.contains(value@));
                proof {
                    let k = self.spec_position(value@);
                    if k < i as int {
                        assert(self@[k] != self@[i as int]);
                    } else if (i as int) < k {
                        assert(self@[i as int] != self@[k]);
                    }
                }
                return Some(i as u32);
            }
            i = i + 1;
        }
        assert(forall|j: int| 0 <= j < self@.len() ==> self@[j] != value@);
        None
    }

    /// Code-to-value lookup; `Some` exactly for assigned codes.
    pub fn read(&self, position: u32) -> (r: Option<&String>)
        ensures
            match r {
                Some(v) => position < self@.len() && v@ == self@[position as int],
                None => position >= self@.len(),
            },
    {
        if (position as usize) < self.values.len() {
            Some(&self.values[position as usize])
        } else {
            None
        }
    }

    /// The number of assigned codes.
    pub fn size(&self) -> (r: usize)
        ensures
            r == self@.len(),
    {
        self.values.len()
    }

    /// Map every value of `vals` in order, inserting the absent ones, and
    /// return the code of each. Codes already assigned are stable.
    pub fn map_all(&mut self, vals: &Vec<String>) -> (codes: Vec<u32>)
        requires
            old(self).wf(),
            old(self)@.len() + vals@.len() + 1 < u32::MAX as int,
        ensures
            final(self).wf(),
            final(self)@ == dict_extend(old(self)@, crate::types::strings_view(vals@)),
            codes@.len() == vals@.len(),
            forall|i: int|
                0 <= i < vals@.len() ==> (#[trigger] codes@[i]) < final(self)@.len()
                    && final(self)@[codes@[i] as int] == vals@[i]@,
    {
        let ghost views = crate::types::strings_view(vals@);
        let mut codes: Vec<u32> = Vec::new();
        let mut i: usize = 0;
        while i < vals.len()
            invariant
                i <= vals@.len(),
                views == crate::types::strings_view(vals@),
                self.wf(),
                self@.len() <= old(self)@.len() + i,
                old(self)@.len() + vals@.len() + 1 < u32::MAX as int,
                self@ == dict_extend(old(self)@, views.take(i as int)),
                codes@.len() == i,
                forall|j: int|
                    0 <= j < i ==> (#[trigger] codes@[j]) < self@.len() && self@[codes@[j] as int]
                        == vals@[j]@,
            decreases vals@.len() - i,
        {
            let ghost pre = self@;
            let code = self.map(vals[i].clone());
            proof {
                assert(views.take(i + 1).drop_last() =~= views.take(i as int));
                assert(views.take(i + 1).last() == views[i as int]);
                assert(views[i as int] == vals@[i as int]@);
                assert(self@ == dict_extend(old(self)@, views.take(i + 1)));
                assert(forall|j: int| 0 <= j < pre.len() ==> self@[j] == pre[j]);
            }
            codes.push(code);
            i = i + 1;
        }
        proof {
            assert(views.take(vals@.len() as int) =~= views);
        }
        codes
    }

    /// A copy holding the same values.
    pub fn duplicate(&self) -> (r: Dictionary)
        ensures
            r@ == self@,
    {
        let mut values: Vec<String> = Vec::new();
        let mut i: usize = 0;
        while i < self.values.len()
            invariant
                i <= self.values@.len(),
                values@.len() == i,
                forall|j: int| 0 <= j < i ==> (#[trigger] values@[j])@ == self.values@[j]@,
            decreases self.values@.len() - i,
        {
            values.push(self.values[i].clone());
            i = i + 1;
        }
        let r = Dictionary { values };
        proof {
            assert(r@ =~= self@);
        }
        r
    }

    /// For every assigned code: looking up the value read at that code gives
    /// the code back. The two directions are inverse on assigned codes.
    pub proof fn lemma_position_read_round_trip(self, code: u32)
        requires
            self.wf(),
            code < self@.len(),
        ensures
            self@.contains(self@[code as int]),
            self.spec_position(self@[code as int]) == code,
    {
        let v = self@[code as int];
        assert(0 <= (code as int) < self@.len() && self@[code as int] == v);
        assert(self@.contains(v));
        let i = self.spec_position(v);
        assert(0 <= i < self@.len() && self@[i] == v);
        if i < code as int {
            assert(self@[i] != self@[code as int]);
        } else if (code as int) < i {
            assert(self@[code as int] != self@[i]);
        }
    }
}

/// The contents of a dictionary after mapping `vs` into `d` one value at a
/// time, inserting each value absent so far at the end.
pub open spec fn dict_extend(d: Seq<Seq<char>>, vs: Seq<Seq<char>>) -> Seq<Seq<char>>
    decreases vs.len(),
{
    if vs.len() == 0 {
        d
    } else {
        let prev = dict_extend(d, vs.drop_last());
        if prev.contains(vs.last()) {
            prev
        } else {
            prev.push(vs.last())
        }
    }
}

/// Extending a dictionary keeps the assigned prefix: codes are stable.
pub proof fn lemma_dict_extend_prefix(d: Seq<Seq<char>>, vs: Seq<Seq<char>>)
    ensures
        dict_extend(d, vs).len() >= d.len(),
        dict_extend(d, vs).len() <= d.len() + vs.len(),
        forall|i: int| 0 <= i < d.len() ==> dict_extend(d, vs)[i] == d[i],
        forall|v: Seq<char>| d.contains(v) ==> dict_extend(d, vs).contains(v),
    decreases vs.len(),
{
    if vs.len() == 0 {
    } else {
        lemma_dict_extend_prefix(d, vs.drop_last());
        let prev = dict_extend(d, vs.drop_last());
        if !prev.contains(vs.last()) {
            assert(forall|v: Seq<char>| prev.contains(v) ==> prev.push(vs.last()).contains(v))
                by {
                assert forall|v: Seq<char>| prev.contains(v) implies prev.push(
                    vs.last(),
                ).contains(v) by {
                    let i = choose|i: int| 0 <= i < prev.len() && prev[i] == v;
                    assert(prev.push(vs.last())[i] == v);
                }
            }
        }
    }
}


/// Holds one dictionary per field name, creating each on first touch.
#[derive(Clone, Debug)]
pub struct DictionaryProvider {
    pub names: Vec<String>,
    pub dicos: Vec<Dictionary>,
}

impl DictionaryProvider {
    pub open spec fn wf(self) -> bool {
        &&& self.names@.len() == self.dicos@.len()
        &&& forall|i: int, j: int|
            0 <= i < j < self.names@.len() ==> self.names@[i]@ != self.names@[j]@
        &&& forall|i: int| 0 <= i < self.dicos@.len() ==> (#[trigger] self.dicos@[i]).wf()
    }

    pub open spec fn spec_has_dict(self, name: Seq<char>) -> bool {
        exists|i: int| 0 <= i < self.names@.len() && self.names@[i]@ == name
    }

    pub open spec fn spec_dict_index(self, name: Seq<char>) -> int {
        choose|i: int| 0 <= i < self.names@.len() && self.names@[i]@ == name
    }

    /// The contents of the dictionary registered under `name`.
    pub open spec fn spec_dict(self, name: Seq<char>) -> Seq<Seq<char>> {
        self.dicos@[self.spec_dict_index(name)]@
    }

    pub fn new() -> (r: DictionaryProvider)
        ensures
            r.wf(),
            r.names@.len() == 0,
            forall|n: Seq<char>| !r.spec_has_dict(n),
    {
        DictionaryProvider { names: Vec::new(), dicos: Vec::new() }
    }

    /// The index of the dictionary for `name`; `Some` exactly when present.
    pub fn find(&self, name: &str) -> (r: Option<usize>)
        requires
            self.wf(),
        ensures
            match r {
                Some(i) => i < self.names@.len() && self.names@[i as int]@ == name@
                    && self.spec_has_dict(name@) && i == self.spec_dict_index(name@),
                None => !self.spec_has_dict(name@),
            },
    {
        let n = String::from_str(name);
        let mut i: usize = 0;
        while i < self.names.len()
            invariant
                i <= self.names@.len(),
                n@ == name@,
                self.wf(),
                forall|j: int| 0 <= j < i ==> self.names@[j]@ != name@,
            decreases self.names@.len() - i,
        {
            if self.names[i] == n {
                proof {
                    let k = self.spec_dict_index(name@);
                    if k < i as int {
                        assert(self.names@[k]@ != self.names@[i as int]@);
                    } else if (i as int) < k {
                        assert(self.names@[i as int]@ != self.names@[k]@);
                    }
                }
                return Some(i);
            }
            i = i + 1;
        }
        None
    }

    /// Read-only access to the dictionary for `name`.
    pub fn get(&self, name: &str) -> (r: Option<&Dictionary>)
        requires
            self.wf(),
        ensures
            match r {
                Some(d) => self.spec_has_dict(name@) && d == self.dicos@[self.spec_dict_index(
                    name@,
                )] && d@ == self.spec_dict(name@) && d.wf(),
                None => !self.spec_has_dict(name@),
            },
    {
        match self.find(name) {
            Some(i) => Some(&self.dicos[i]),
            None => None,
        }
    }

    /// Any index holding `nm` is the index of the dictionary for `nm`.
    pub proof fn lemma_index_unique(self, nm: Seq<char>, i: int)
        requires
            self.wf(),
            0 <= i < self.names@.len(),
            self.names@[i]@ == nm,
        ensures
            self.spec_has_dict(nm),
            self.spec_dict_index(nm) == i,
    {
        assert(self.spec_has_dict(nm));
        let k = self.spec_dict_index(nm);
        assert(0 <= k < self.names@.len() && self.names@[k]@ == nm);
        if k < i {
            assert(self.names@[k]@ != self.names@[i]@);
        } else if i < k {
            assert(self.names@[i]@ != self.names@[k]@);
        }
    }

    /// A dictionary survives an update elsewhere in the provider: if the
    /// names below `pre`'s length are kept and the only changed dictionary
    /// index does not carry `nm`, the dictionary for `nm` is unchanged.
    pub proof fn lemma_dict_stable(pre: Self, post: Self, touched: int, nm: Seq<char>)
        requires
            pre.wf(),
            post.wf(),
            pre.spec_has_dict(nm),
            post.names@.len() >= pre.names@.len(),
            forall|i: int| 0 <= i < pre.names@.len() ==> post.names@[i] == pre.names@[i],
            forall|i: int|
                0 <= i < pre.names@.len() && i != touched ==> post.dicos@[i] == pre.dicos@[i],
            0 <= touched < post.names@.len() ==> post.names@[touched]@ != nm,
        ensures
            post.spec_has_dict(nm),
            post.spec_dict_index(nm) == pre.spec_dict_index(nm),
            post.spec_dict(nm) == pre.spec_dict(nm),
    {
        let i0 = pre.spec_dict_index(nm);
        assert(0 <= i0 < pre.names@.len() && pre.names@[i0]@ == nm);
        pre.lemma_index_unique(nm, i0);
        assert(post.names@[i0] == pre.names@[i0]);
        post.lemma_index_unique(nm, i0);
        assert(i0 != touched);
        assert(post.dicos@[i0] == pre.dicos@[i0]);
    }

    /// The index of the dictionary for `name`, creating an empty one on
    /// first touch.
    pub fn index_or_create(&mut self, name: &str) -> (i: usize)
        requires
            old(self).wf(),
        ensures
            final(self).wf(),
            i < final(self).names@.len(),
            final(self).names@[i as int]@ == name@,
            final(self).spec_has_dict(name@),
            final(self).spec_dict_index(name@) == i as int,
            if old(self).spec_has_dict(name@) {
                *final(self) == *old(self)
            } else {
                final(self).names@.len() == old(self).names@.len() + 1 && i == old(
                    self,
                ).names@.len() && final(self).names@.last()@ == name@ && final(self).names@ == old(
                    self,
                ).names@.push(final(self).names@.last()) && final(self).dicos@ == old(
                    self,
                ).dicos@.push(final(self).dicos@.last()) && final(self).dicos@.last()@
                    == Seq::<Seq<char>>::empty()
            },
    {
        let i = match self.find(name) {
            Some(i) => i,
            None => {
                let i = self.names.len();
                self.names.push(String::from_str(name));
                self.dicos.push(Dictionary::new());
                assert(self.names@[i as int]@ == name@);
                assert(forall|j: int, l: int|
                    0 <= j < l < self.names@.len() ==> self.names@[j]@ != self.names@[l]@);
                i
            },
        };
        assert(self.names@[i as int]@ == name@);
        assert(self.spec_has_dict(name@));
        proof {
            let k = self.spec_dict_index(name@);
            assert(0 <= k < self.names@.len() && self.names@[k]@ == name@);
            if k < i as int {
                assert(self.names@[k]@ != self.names@[i as int]@);
            } else if (i as int) < k {
                assert(self.names@[i as int]@ != self.names@[k]@);
            }
        }
        i
    }

    /// Map one value into the dictionary at index `i`, leaving every other
    /// dictionary untouched.
    pub fn map_value_at(&mut self, i: usize, value: String) -> (code: u32)
        requires
            old(self).wf(),
            i < old(self).dicos@.len(),
            old(self).dicos@[i as int]@.len() + 1 < u32::MAX as int,
        ensures
            final(self).wf(),
            final(self).names@ == old(self).names@,
            final(self).dicos@.len() == old(self).dicos@.len(),
            forall|j: int|
                0 <= j < old(self).dicos@.len() && j != i ==> final(self).dicos@[j] == old(
                    self,
                ).dicos@[j],
            ({
                let pre = old(self).dicos@[i as int];
                let post = final(self).dicos@[i as int];
                if pre@.contains(value@) {
                    post@ == pre@ && code == pre.spec_position(value@)
                } else {
                    post@ == pre@.push(value@) && code == pre@.len()
                }
            }),
    {
        let d = &mut self.dicos[i];
        let code = d.map(value);
        code
    }

    /// Map a list of values into the dictionary at index `i`, leaving every
    /// other dictionary untouched.
    pub fn map_all_at(&mut self, i: usize, vals: &Vec<String>) -> (codes: Vec<u32>)
        requires
            old(self).wf(),
            i < old(self).dicos@.len(),
            old(self).dicos@[i as int]@.len() + vals@.len() + 1 < u32::MAX as int,
        ensures
            final(self).wf(),
            final(self).names@ == old(self).names@,
            final(self).dicos@.len() == old(self).dicos@.len(),
            forall|j: int|
                0 <= j < old(self).dicos@.len() && j != i ==> final(self).dicos@[j] == old(
                    self,
                ).dicos@[j],
            ({
                let pre = old(self).dicos@[i as int];
                let post = final(self).dicos@[i as int];
                &&& post@ == dict_extend(pre@, crate::types::strings_view(vals@))
                &&& codes@.len() == vals@.len()
                &&& forall|k: int|
                    0 <= k < vals@.len() ==> (#[trigger] codes@[k]) < post@.len()
                        && post@[codes@[k] as int] == vals@[k]@
            }),
    {
        let d = &mut self.dicos[i];
        let codes = d.map_all(vals);
        codes
    }

    /// The dictionary for `name`, created empty on first touch.
    pub fn get_or_create(&mut self, name: &str) -> (r: &Dictionary)
        requires
            old(self).wf(),
        ensures
            final(self).wf(),
            final(self).spec_has_dict(name@),
            r == final(self).dicos@[final(self).spec_dict_index(name@)],
            if old(self).spec_has_dict(name@) {
                *final(self) == *old(self)
            } else {
                final(self).names@.len() == old(self).names@.len() + 1 && final(self).names@.last()@
                    == name@ && final(self).names@ == old(self).names@.push(
                    final(self).names@.last(),
                ) && final(self).dicos@ == old(self).dicos@.push(final(self).dicos@.last())
                    && final(self).dicos@.last()@ == Seq::<Seq<char>>::empty()
            },
    {
        let i = match self.find(name) {
            Some(i) => i,
            None => {
                let i = self.names.len();
                self.names.push(String::from_str(name));
                self.dicos.push(Dictionary::new());
                assert(self.names@[i as int]@ == name@);
                assert(forall|j: int, l: int|
                    0 <= j < l < self.names@.len() ==> self.names@[j]@ != self.names@[l]@);
                i
            },
        };
        assert(self.names@[i as int]@ == name@);
        assert(self.spec_has_dict(name@));
        proof {
            let k = self.spec_dict_index(name@);
            assert(0 <= k < self.names@.len() && self.names@[k]@ == name@);
            if k < i as int {
                assert(self.names@[k]@ != self.names@[i as int]@);
            } else if (i as int) < k {
                assert(self.names@[i as int]@ != self.names@[k]@);
            }
        }
        &self.dicos[i]
    }
}

} // verus!
