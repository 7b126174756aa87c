use vstd::prelude::*;
use crate::types::{PathVariable, PathVariableValue, PlaceholderToValueMap, StringMap,
    VariablesMap, VariableGenerator, upsert, slookup, key_index, lemma_key_index, lemma_upsert};
use crate::config::{VarModel, PvvModel, VarsModel, vars_model};

verus! {

/// First index of `key` in a model map, or the length.
pub open spec fn key_indexm<V>(s: Seq<(Seq<char>, V)>, key: Seq<char>) -> int
    decreases s.len(),
{
    if s.len() == 0 {
        0
    } else if s[0].0 == key {
        0
    } else {
        1 + key_indexm(s.skip(1), key)
    }
}

/// The value under `key` in a model map, first occurrence first.
pub open spec fn slookupm<V>(s: Seq<(Seq<char>, V)>, key: Seq<char>) -> Option<V>
    decreases s.len(),
{
    if s.len() == 0 {
        None
    } else if s[0].0 == key {
        Some(s[0].1)
    } else {
        slookupm(s.skip(1), key)
    }
}

/// Inserting into a model map: the first matching entry's value is replaced,
/// or the pair is appended.
pub open spec fn upsertm<V>(s: Seq<(Seq<char>, V)>, k: Seq<char>, v: V) -> Seq<(Seq<char>, V)> {
    if slookupm(s, k) is Some {
        s.update(key_indexm(s, k), (s[key_indexm(s, k)].0, v))
    } else {
        s.push((k, v))
    }
}

/// A map built by inserting every entry of `b` into `a`, left to right.
pub open spec fn merge_m<V>(a: Seq<(Seq<char>, V)>, b: Seq<(Seq<char>, V)>) -> Seq<(Seq<char>, V)>
    decreases b.len(),
{
    if b.len() == 0 {
        a
    } else {
        merge_m(upsertm(a, b[0].0, b[0].1), b.skip(1))
    }
}

/// The model indices of exec and model maps agree.
pub proof fn lemma_key_index_model(s: Seq<(String, PathVariable)>, key: Seq<char>)
    ensures
        key_indexm(vm_entries(s), key) == key_index(s, key),
        slookupm(vm_entries(s), key) is Some <==> slookup(s, key) is Some,
        slookup(s, key) matches Some(p) ==> slookupm(vm_entries(s), key) == Some(p@),
    decreases s.len(),
{
    assert(vm_entries(s).len() == s.len());
    if s.len() == 0 {
    } else if s[0].0@ == key {
        assert(vm_entries(s)[0] == (s[0].0@, s[0].1@));
    } else {
        lemma_key_index_model(s.skip(1), key);
        assert(vm_entries(s.skip(1)) =~= vm_entries(s).skip(1));
        assert(vm_entries(s)[0] == (s[0].0@, s[0].1@));
    }
}

/// The model of a list of exec map entries.
pub open spec fn vm_entries(s: Seq<(String, PathVariable)>) -> VarsModel {
    Seq::new(s.len(), |i: int| (s[i].0@, s[i].1@))
}

/// Inserting in the exec map inserts in the model.
pub proof fn lemma_upsert_model(s: Seq<(String, PathVariable)>, k: String, v: PathVariable)
    ensures
        vm_entries(upsert(s, k, v)) == upsertm(vm_entries(s), k@, v@),
{
    lemma_key_index_model(s, k@);
    lemma_key_index(s, k@);
    if slookup(s, k@) is Some {
        assert(vm_entries(upsert(s, k, v)) =~= upsertm(vm_entries(s), k@, v@));
    } else {
        assert(vm_entries(upsert(s, k, v)) =~= upsertm(vm_entries(s), k@, v@));
    }
}

impl VariablesMap {
    /// Inserts every entry of `other`, in order; entries of `other` win on a
    /// shared key.
    pub fn extend_with(&mut self, other: &VariablesMap)
        ensures
            vars_model(*final(self)) == merge_m(vars_model(*old(self)), vars_model(*other)),
    {
        let n = other.entries.len();
        let mut i: usize = 0;
        proof {
            assert(vars_model(*other).skip(0) =~= vars_model(*other));
        }
        while i < n
            invariant
                n == other@.len(),
                0 <= i <= n,
                merge_m(vars_model(*self), vars_model(*other).skip(i as int)) == merge_m(
                    vars_model(*old(self)),
                    vars_model(*other),
                ),
            decreases n - i,
        {
            let pair = &other.entries[i];
            let k = pair.0.clone();
            let v = pair.1.clone();
            proof {
                lemma_upsert_model(self@, k, v);
                let om = vars_model(*other);
                assert(om.skip(i as int)[0] == (pair.0@, pair.1@));
                assert(om.skip(i as int).skip(1) =~= om.skip(i + 1));
                assert(v@ == pair.1@);
            }
            self.insert(k, v);
            i = i + 1;
        }
        proof {
            assert(vars_model(*other).skip(i as int) =~= Seq::<(Seq<char>, VarModel)>::empty());
        }
    }

    /// Keeps only the entries whose key occurs in `keys`, in order.
    pub fn retain_keys(&mut self, keys: &Vec<String>)
        ensures
            vars_model(*final(self)) == vars_model(*old(self)).filter(
                |e: (Seq<char>, VarModel)| crate::vars::contains_str(keys.deep_view(), e.0),
            ),
    {
        let ghost orig = self@;
        let ghost f = |e: (Seq<char>, VarModel)| crate::vars::contains_str(keys.deep_view(), e.0);
        let mut kept: Vec<(String, PathVariable)> = Vec::new();
        let n = self.entries.len();
        let mut i: usize = 0;
        proof {
            reveal(Seq::filter);
            assert(vm_entries(orig).take(0) =~= Seq::<(Seq<char>, VarModel)>::empty());
            assert(vm_entries(orig).take(0).filter(f) =~= vm_entries(kept@));
        }
        while i < n
            invariant
                n == orig.len(),
                self@ == orig,
                0 <= i <= n,
                f == (|e: (Seq<char>, VarModel)| crate::vars::contains_str(keys.deep_view(), e.0)),
                vm_entries(kept@) == vm_entries(orig).take(i as int).filter(f),
            decreases n - i,
        {
            let pair = &self.entries[i];
            let keep = contains_string(keys, &pair.0);
            proof {
                reveal(Seq::filter);
                let prefix = vm_entries(orig).take(i as int);
                let next = vm_entries(orig).take(i + 1);
                assert(next =~= prefix.push((pair.0@, pair.1@)));
                assert(next.drop_last() =~= prefix);
                assert(next.last() == (pair.0@, pair.1@));
            }
            if keep {
                kept.push((pair.0.clone(), pair.1.clone()));
                proof {
                    assert(vm_entries(kept@) =~= vm_entries(orig).take(i + 1).filter(f));
                }
            } else {
                proof {
                    assert(vm_entries(kept@) =~= vm_entries(orig).take(i + 1).filter(f));
                }
            }
            i = i + 1;
        }
        self.entries = kept;
        proof {
            assert(vm_entries(orig).take(i as int) =~= vm_entries(orig));
        }
    }
}

/// Whether `key` occurs among `keys`.
pub open spec fn contains_str(keys: Seq<Seq<char>>, key: Seq<char>) -> bool {
    exists|i: int| 0 <= i < keys.len() && keys[i] == key
}

/// Whether `key` occurs among `keys`, as exec code.
pub fn contains_string(keys: &Vec<String>, key: &String) -> (r: bool)
    ensures
        r == contains_str(keys.deep_view(), key@),
{
    let n = keys.len();
    let mut i: usize = 0;
    while i < n
        invariant
            n == keys@.len(),
            0 <= i <= n,
            forall|j: int| 0 <= j < i ==> keys.deep_view()[j] != key@,
        decreases n - i,
    {
        if crate::types::string_eq(&keys[i], key) {
            proof {
                assert(keys.deep_view()[i as int] == key@);
            }
            return true;
        }
        i = i + 1;
    }
    false
}

/// How many values a variable contributes: one for a single value, the list
/// length for a list.
pub open spec fn var_size(v: VarModel) -> nat {
    match v {
        VarModel::Single(_) => 1,
        VarModel::Multiple(vs) => vs.len(),
    }
}

/// The number of combinations of a variables map: the product of its
/// variables' sizes.
pub open spec fn combo_count(entries: VarsModel) -> nat
    decreases entries.len(),
{
    if entries.len() == 0 {
        1
    } else {
        var_size(entries[0].1) * combo_count(entries.skip(1))
    }
}

pub proof fn lemma_combo_count_push(entries: VarsModel, e: (Seq<char>, VarModel))
    ensures
        combo_count(entries.push(e)) == combo_count(entries) * var_size(e.1),
    decreases entries.len(),
{
    if entries.len() == 0 {
        assert(entries.push(e)[0] == e);
        assert(entries.push(e).skip(1) =~= Seq::<(Seq<char>, VarModel)>::empty());
        assert(combo_count(entries.push(e)) == var_size(e.1) * combo_count(
            entries.push(e).skip(1),
        ));
        assert(combo_count(entries) == 1);
        assert(combo_count(entries.push(e)) == var_size(e.1) * 1);
        assert(var_size(e.1) * 1 == 1 * var_size(e.1)) by (nonlinear_arith);
    } else {
        lemma_combo_count_push(entries.skip(1), e);
        assert(entries.push(e).skip(1) =~= entries.skip(1).push(e));
        assert(entries.push(e)[0] == entries[0]);
        assert(combo_count(entries.push(e)) == var_size(entries[0].1) * (combo_count(
            entries.skip(1),
        ) * var_size(e.1))) by {
            assert(combo_count(entries.push(e)) == var_size(entries[0].1) * combo_count(
                entries.push(e).skip(1),
            ));
        }
        assert(var_size(entries[0].1) * (combo_count(entries.skip(1)) * var_size(e.1)) == (var_size(
            entries[0].1,
        ) * combo_count(entries.skip(1))) * var_size(e.1)) by (nonlinear_arith);
    }
}

/// Whether `value` is one of the values that `var` can take.
pub open spec fn value_of_var(var: VarModel, value: PvvModel) -> bool {
    match var {
        VarModel::Single(p) => value == p,
        VarModel::Multiple(ps) => ps.contains(value),
    }
}

/// The values a variable ranges over, in order.
pub open spec fn var_values(v: VarModel) -> Seq<PvvModel> {
    match v {
        VarModel::Single(p) => seq![p],
        VarModel::Multiple(ps) => ps,
    }
}

/// One combination: placeholder names with the values chosen for them.
pub type Combo = Seq<(Seq<char>, PvvModel)>;

/// One combination extended by each value of one variable, in value order.
pub open spec fn attach_entry(c: Combo, key: Seq<char>, values: Seq<PvvModel>) -> Seq<Combo> {
    Seq::new(
        values.len(),
        |j: int|
            if 0 <= j < values.len() {
                c.push((key, values[j]))
            } else {
                c
            },
    )
}

/// Every combination of `prev` extended by each value of one variable:
/// earlier combinations first, values fastest-varying.
pub open spec fn cross_entry(prev: Seq<Combo>, key: Seq<char>, values: Seq<PvvModel>) -> Seq<Combo>
    decreases prev.len(),
{
    if prev.len() == 0 {
        Seq::empty()
    } else {
        attach_entry(prev[0], key, values) + cross_entry(prev.skip(1), key, values)
    }
}

/// The full list of combinations of a variables map: the Cartesian product
/// in map order, the last variable varying fastest; the empty map yields the
/// one empty combination.
pub open spec fn spec_combos(entries: VarsModel) -> Seq<Combo>
    decreases entries.len(),
{
    if entries.len() == 0 {
        seq![Seq::empty()]
    } else {
        cross_entry(
            spec_combos(entries.drop_last()),
            entries.last().0,
            var_values(entries.last().1),
        )
    }
}

pub proof fn lemma_cross_len(prev: Seq<Combo>, key: Seq<char>, values: Seq<PvvModel>)
    ensures
        cross_entry(prev, key, values).len() == prev.len() * values.len(),
    decreases prev.len(),
{
    if prev.len() == 0 {
        assert(prev.len() * values.len() == 0) by (nonlinear_arith)
            requires
                prev.len() == 0,
        ;
    } else {
        lemma_cross_len(prev.skip(1), key, values);
        assert(values.len() + (prev.len() - 1) * values.len() == prev.len() * values.len())
            by (nonlinear_arith);
    }
}

pub proof fn lemma_cross_push(prev: Seq<Combo>, x: Combo, key: Seq<char>, values: Seq<PvvModel>)
    ensures
        cross_entry(prev.push(x), key, values) == cross_entry(prev, key, values) + attach_entry(
            x,
            key,
            values,
        ),
    decreases prev.len(),
{
    if prev.len() == 0 {
        assert(prev.push(x)[0] == x);
        assert(prev.push(x).skip(1) =~= Seq::<Combo>::empty());
        assert(cross_entry(prev.push(x), key, values) == attach_entry(x, key, values)
            + cross_entry(prev.push(x).skip(1), key, values));
        assert(attach_entry(x, key, values) + Seq::<Combo>::empty() =~= attach_entry(
            x,
            key,
            values,
        ));
        assert(cross_entry(prev, key, values) + attach_entry(x, key, values) =~= attach_entry(
            x,
            key,
            values,
        ));
    } else {
        lemma_cross_push(prev.skip(1), x, key, values);
        assert(prev.push(x)[0] == prev[0]);
        assert(prev.push(x).skip(1) =~= prev.skip(1).push(x));
        assert(attach_entry(prev[0], key, values) + (cross_entry(prev.skip(1), key, values)
            + attach_entry(x, key, values)) =~= (attach_entry(prev[0], key, values) + cross_entry(
            prev.skip(1),
            key,
            values,
        )) + attach_entry(x, key, values));
    }
}

/// The model of one combination map.
pub open spec fn combo_model(entries: Seq<(String, PathVariableValue)>) -> Combo {
    Seq::new(entries.len(), |i: int| (entries[i].0@, entries[i].1@))
}

/// The models of a list of combination maps.
pub open spec fn combos_model(s: Seq<PlaceholderToValueMap>) -> Seq<Combo> {
    Seq::new(s.len(), |i: int| combo_model(s[i]@))
}

/// Lists every combination of the variables: exactly the Cartesian product
/// of the variables' value lists, complete and without repetition, keys in
/// map order with the last key varying fastest.
pub fn flatten_variables_map(map: VariablesMap) -> (r: Vec<PlaceholderToValueMap>)
    ensures
        combos_model(r@) == spec_combos(vars_model(map)),
        r@.len() == combo_count(vars_model(map)),
        forall|c: int| 0 <= c < r@.len() ==> (#[trigger] r@[c])@.len() == vars_model(map).len(),
        forall|c: int, j: int|
            0 <= c < r@.len() && 0 <= j < vars_model(map).len() ==> (#[trigger] r@[c]@[j]).0@
                == vars_model(map)[j].0 && value_of_var(vars_model(map)[j].1, r@[c]@[j].1@),
{
    let ghost vm = vars_model(map);
    let mut result: Vec<PlaceholderToValueMap> = Vec::new();
    result.push(StringMap { entries: Vec::new() });
    let n = map.entries.len();
    let mut i: usize = 0;
    proof {
        assert(vm.take(0) =~= Seq::<(Seq<char>, VarModel)>::empty());
        assert(combo_model(result@[0]@) =~= Seq::<(Seq<char>, PvvModel)>::empty());
        assert(combos_model(result@) =~= spec_combos(vm.take(0)));
    }
    while i < n
        invariant
            n == map@.len(),
            vm == vars_model(map),
            0 <= i <= n,
            result@.len() == combo_count(vm.take(i as int)),
            combos_model(result@) == spec_combos(vm.take(i as int)),
            forall|c: int| 0 <= c < result@.len() ==> (#[trigger] result@[c])@.len() == i,
            forall|c: int, j: int|
                0 <= c < result@.len() && 0 <= j < i ==> (#[trigger] result@[c]@[j]).0@ == vm[j].0
                    && value_of_var(vm[j].1, result@[c]@[j].1@),
        decreases n - i,
    {
        let pair = &map.entries[i];
        let values: Vec<PathVariableValue> = match &pair.1 {
            PathVariable::SingleValue(v) => {
                let mut vs: Vec<PathVariableValue> = Vec::new();
                vs.push(v.clone());
                vs
            }
            PathVariable::MultipleValues(vs) => clone_values(vs),
        };
        let ghost valm = Seq::new(values@.len(), |j: int| values@[j]@);
        proof {
            assert(vm[i as int] == (pair.0@, pair.1@));
            assert(values@.len() == var_size(vm[i as int].1));
            match &pair.1 {
                PathVariable::SingleValue(v) => {
                    assert(valm =~= var_values(vm[i as int].1));
                }
                PathVariable::MultipleValues(vs) => {
                    assert(valm =~= var_values(vm[i as int].1));
                }
            }
            assert forall|k: int| 0 <= k < values@.len() implies value_of_var(
                vm[i as int].1,
                (#[trigger] values@[k])@,
            ) by {
                match &pair.1 {
                    PathVariable::SingleValue(v) => {
                    }
                    PathVariable::MultipleValues(vs) => {
                        assert(pair.1@->Multiple_0[k] == vs@[k]@);
                    }
                }
            }
        }
        let mut next: Vec<PlaceholderToValueMap> = Vec::new();
        let rn = result.len();
        let ghost cm = combos_model(result@);
        let mut c: usize = 0;
        proof {
            assert(cm.take(0) =~= Seq::<Combo>::empty());
            assert(combos_model(next@) =~= cross_entry(cm.take(0), vm[i as int].0, valm));
        }
        while c < rn
            invariant
                rn == result@.len(),
                cm == combos_model(result@),
                0 <= c <= rn,
                0 <= i < n,
                n == map@.len(),
                vm == vars_model(map),
                vm[i as int] == (map@[i as int].0@, map@[i as int].1@),
                map@[i as int].0 == map.entries@[i as int].0,
                values@.len() == var_size(vm[i as int].1),
                valm == Seq::new(values@.len(), |j: int| values@[j]@),
                valm == var_values(vm[i as int].1),
                forall|k: int|
                    0 <= k < values@.len() ==> value_of_var(
                        vm[i as int].1,
                        (#[trigger] values@[k])@,
                    ),
                forall|d: int| 0 <= d < result@.len() ==> (#[trigger] result@[d])@.len() == i,
                forall|d: int, j: int|
                    0 <= d < result@.len() && 0 <= j < i ==> (#[trigger] result@[d]@[j]).0@
                        == vm[j].0 && value_of_var(vm[j].1, result@[d]@[j].1@),
                next@.len() == c * values@.len(),
                combos_model(next@) == cross_entry(cm.take(c as int), vm[i as int].0, valm),
                forall|d: int| 0 <= d < next@.len() ==> (#[trigger] next@[d])@.len() == i + 1,
                forall|d: int, j: int|
                    0 <= d < next@.len() && 0 <= j < i + 1 ==> (#[trigger] next@[d]@[j]).0@
                        == vm[j].0 && value_of_var(vm[j].1, next@[d]@[j].1@),
            decreases rn - c,
        {
            let vn = values.len();
            let mut k: usize = 0;
            proof {
                assert(attach_entry(cm[c as int], vm[i as int].0, valm).take(0) =~= Seq::<
                    Combo,
                >::empty());
                assert(combos_model(next@) + attach_entry(cm[c as int], vm[i as int].0, valm).take(
                    0,
                ) =~= combos_model(next@));
            }
            while k < vn
                invariant
                    vn == values@.len(),
                    0 <= k <= vn,
                    0 <= c < rn,
                    rn == result@.len(),
                    cm == combos_model(result@),
                    0 <= i < n,
                    n == map@.len(),
                    vm == vars_model(map),
                    vm[i as int] == (map@[i as int].0@, map@[i as int].1@),
                    map@[i as int].0 == map.entries@[i as int].0,
                    valm == Seq::new(values@.len(), |j: int| values@[j]@),
                    valm == var_values(vm[i as int].1),
                    forall|kk: int|
                        0 <= kk < values@.len() ==> value_of_var(
                            vm[i as int].1,
                            (#[trigger] values@[kk])@,
                        ),
                    forall|d: int| 0 <= d < result@.len() ==> (#[trigger] result@[d])@.len() == i,
                    forall|d: int, j: int|
                        0 <= d < result@.len() && 0 <= j < i ==> (#[trigger] result@[d]@[j]).0@
                            == vm[j].0 && value_of_var(vm[j].1, result@[d]@[j].1@),
                    next@.len() == c * values@.len() + k,
                    combos_model(next@) == cross_entry(cm.take(c as int), vm[i as int].0, valm)
                        + attach_entry(cm[c as int], vm[i as int].0, valm).take(k as int),
                    forall|d: int| 0 <= d < next@.len() ==> (#[trigger] next@[d])@.len() == i + 1,
                    forall|d: int, j: int|
                        0 <= d < next@.len() && 0 <= j < i + 1 ==> (#[trigger] next@[d]@[j]).0@
                            == vm[j].0 && value_of_var(vm[j].1, next@[d]@[j].1@),
                decreases vn - k,
            {
                let mut combo = duplicate_combo(&result[c]);
                combo.entries.push((map.entries[i].0.clone(), values[k].clone()));
                proof {
                    assert(combo@.len() == i + 1);
                    assert(combo@[i as int].0@ == vm[i as int].0);
                    assert(combo@[i as int].1@ == values@[k as int]@);
                    assert(combo_model(combo@) =~= cm[c as int].push(
                        (vm[i as int].0, valm[k as int]),
                    ));
                    assert(combo_model(combo@) == attach_entry(
                        cm[c as int],
                        vm[i as int].0,
                        valm,
                    )[k as int]);
                }
                let ghost prevn = next@;
                let ghost combov = combo;
                next.push(combo);
                proof {
                    assert(next@ =~= prevn.push(combov));
                    assert forall|d: int| 0 <= d < next@.len() implies #[trigger] combos_model(
                        next@,
                    )[d] == (if d < prevn.len() {
                        combos_model(prevn)[d]
                    } else {
                        combo_model(combov@)
                    }) by {
                        assert(next@[d] == if d < prevn.len() {
                            prevn[d]
                        } else {
                            combov
                        });
                    }
                    lemma_cross_len(cm.take(c as int), vm[i as int].0, valm);
                    assert(attach_entry(cm[c as int], vm[i as int].0, valm).take(k + 1)
                        =~= attach_entry(cm[c as int], vm[i as int].0, valm).take(k as int).push(
                        attach_entry(cm[c as int], vm[i as int].0, valm)[k as int],
                    ));
                    assert(combos_model(next@) =~= cross_entry(
                        cm.take(c as int),
                        vm[i as int].0,
                        valm,
                    ) + attach_entry(cm[c as int], vm[i as int].0, valm).take(k + 1));
                }
                k = k + 1;
            }
            proof {
                assert((c + 1) * values@.len() == c * values@.len() + values@.len())
                    by (nonlinear_arith);
                assert(attach_entry(cm[c as int], vm[i as int].0, valm).take(vn as int)
                    =~= attach_entry(cm[c as int], vm[i as int].0, valm));
                assert(cm.take(c + 1) =~= cm.take(c as int).push(cm[c as int]));
                lemma_cross_push(cm.take(c as int), cm[c as int], vm[i as int].0, valm);
                assert(combos_model(next@) =~= cross_entry(cm.take(c + 1), vm[i as int].0, valm));
            }
            c = c + 1;
        }
        proof {
            lemma_combo_count_push(vm.take(i as int), vm[i as int]);
            assert(vm.take(i + 1) =~= vm.take(i as int).push(vm[i as int]));
            assert(next@.len() == combo_count(vm.take(i as int)) * var_size(vm[i as int].1));
            assert(cm.take(rn as int) =~= cm);
            assert(vm.take(i + 1).drop_last() =~= vm.take(i as int));
            assert(vm.take(i + 1).last() == vm[i as int]);
            assert(spec_combos(vm.take(i + 1)) == cross_entry(
                spec_combos(vm.take(i as int)),
                vm[i as int].0,
                var_values(vm[i as int].1),
            ));
            assert(combos_model(next@) =~= spec_combos(vm.take(i + 1)));
        }
        result = next;
        i = i + 1;
    }
    proof {
        assert(vm.take(i as int) =~= vm);
    }
    result
}

/// Clones a list of variable values.
fn clone_values(vs: &Vec<PathVariableValue>) -> (r: Vec<PathVariableValue>)
    ensures
        r@.len() == vs@.len(),
        forall|i: int| 0 <= i < vs@.len() ==> (#[trigger] r@[i]) == vs@[i],
{
    let mut out: Vec<PathVariableValue> = Vec::new();
    let n = vs.len();
    let mut i: usize = 0;
    while i < n
        invariant
            n == vs@.len(),
            0 <= i <= n,
            out@.len() == i,
            forall|j: int| 0 <= j < i ==> (#[trigger] out@[j]) == vs@[j],
        decreases n - i,
    {
        out.push(vs[i].clone());
        i = i + 1;
    }
    out
}

/// Copies a combination map entry for entry.
fn duplicate_combo(m: &PlaceholderToValueMap) -> (r: PlaceholderToValueMap)
    ensures
        r@ == m@,
{
    let mut entries: Vec<(String, PathVariableValue)> = Vec::new();
    let n = m.entries.len();
    let mut i: usize = 0;
    while i < n
        invariant
            n == m@.len(),
            0 <= i <= n,
            entries@.len() == i,
            forall|j: int| 0 <= j < i ==> (#[trigger] entries@[j]) == m@[j],
        decreases n - i,
    {
        let pair = &m.entries[i];
        entries.push((pair.0.clone(), pair.1.clone()));
        i = i + 1;
    }
    proof {
        assert(entries@ =~= m@);
    }
    StringMap { entries }
}


/// There are as many combinations as the product of the variables' sizes.
pub proof fn lemma_combos_len(entries: VarsModel)
    ensures
        spec_combos(entries).len() == combo_count(entries),
    decreases entries.len(),
{
    if entries.len() == 0 {
    } else {
        lemma_combos_len(entries.drop_last());
        lemma_cross_len(
            spec_combos(entries.drop_last()),
            entries.last().0,
            var_values(entries.last().1),
        );
        lemma_combo_count_push(entries.drop_last(), entries.last());
        assert(entries.drop_last().push(entries.last()) =~= entries);
        assert(combo_count(entries.drop_last()) * var_size(entries.last().1) == combo_count(
            entries.drop_last(),
        ) * var_values(entries.last().1).len());
    }
}

/// A filter keeps nothing exactly when nothing satisfies it.
pub proof fn lemma_filter_all_out<A>(s: Seq<A>, pred: spec_fn(A) -> bool)
    ensures
        (s.filter(pred).len() == 0) <==> (forall|i: int| 0 <= i < s.len() ==> !pred(#[trigger] s[i])),
    decreases s.len(),
{
    reveal(Seq::filter);
    if s.len() > 0 {
        lemma_filter_all_out(s.drop_last(), pred);
        assert forall|i: int| 0 <= i < s.len() - 1 implies s.drop_last()[i] == s[i] by {
        }
        if s.filter(pred).len() == 0 {
            assert(!pred(s.last()));
            assert forall|i: int| 0 <= i < s.len() implies !pred(#[trigger] s[i]) by {
                if i < s.len() - 1 {
                    assert(s.drop_last()[i] == s[i]);
                }
            }
        }
        if forall|i: int| 0 <= i < s.len() ==> !pred(#[trigger] s[i]) {
            assert(!pred(s.last()));
            assert forall|i: int| 0 <= i < s.drop_last().len() implies !pred(
                #[trigger] s.drop_last()[i],
            ) by {
                assert(s.drop_last()[i] == s[i]);
            }
        }
    }
}

/// Exec and model lookups of a combination map agree.
pub proof fn lemma_lookup_combo(s: Seq<(String, PathVariableValue)>, key: Seq<char>)
    ensures
        slookupm(combo_model(s), key) == (match slookup(s, key) {
            Some(v) => Some(v@),
            None => None,
        }),
    decreases s.len(),
{
    assert(combo_model(s).len() == s.len());
    if s.len() == 0 {
    } else if s[0].0@ == key {
        assert(combo_model(s)[0] == (s[0].0@, s[0].1@));
    } else {
        lemma_lookup_combo(s.skip(1), key);
        assert(combo_model(s.skip(1)) =~= combo_model(s).skip(1));
        assert(combo_model(s)[0] == (s[0].0@, s[0].1@));
    }
}
} // verus!
