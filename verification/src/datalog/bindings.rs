//! Values and variable bindings of the evaluator.

use vstd::prelude::*;
use vstd::string::*;

use crate::text::{decimal, id_to_decimal, parse_number, spec_parse_number, str_eq, text};

verus! {

/// A value that a variable is bound to.
#[derive(Debug, PartialEq, Eq, Hash)]
pub enum Value {
    /// The id of a node.
    Id(u128),
    Str(String),
}

/// A value as contracts see it.
pub ghost enum ValueModel {
    Id(u128),
    Str(Seq<u8>),
}

impl View for Value {
    type V = ValueModel;

    open spec fn view(&self) -> ValueModel {
        match self {
            Value::Id(id) => ValueModel::Id(*id),
            Value::Str(s) => ValueModel::Str(text(s@)),
        }
    }
}

impl Clone for Value {
    fn clone(&self) -> (r: Self)
        ensures
            r == *self,
    {
        match self {
            Value::Id(id) => Value::Id(*id),
            Value::Str(s) => Value::Str(s.clone()),
        }
    }
}

/// The value that a constant denotes: an id where the constant is a run
/// of decimal digits that fits in 128 bits, with or without a `+` before
/// it; a string otherwise.
pub open spec fn value_of_const(c: Seq<u8>) -> ValueModel {
    match spec_parse_number(c) {
        Some(id) => ValueModel::Id(id),
        None => ValueModel::Str(c),
    }
}

/// The id that a value denotes.
pub open spec fn value_id(v: ValueModel) -> Option<u128> {
    match v {
        ValueModel::Id(id) => Some(id),
        ValueModel::Str(s) => spec_parse_number(s),
    }
}

/// The text of a value: an id in decimal, a string as it is.
pub open spec fn value_text(v: ValueModel) -> Seq<u8> {
    match v {
        ValueModel::Id(id) => decimal(id as nat),
        ValueModel::Str(s) => s,
    }
}

impl Value {
    /// The value of a constant: an id where the constant spells one, as
    /// decimal digits with or without a `+` before them; else the constant
    /// as a string.
    pub fn from_term_const(s: &str) -> (r: Self)
        ensures
            r@ == value_of_const(text(s@)),
    {
        match parse_number(s) {
            Some(id) => Value::Id(id),
            None => Value::Str(s.to_owned()),
        }
    }

    /// The value as an id: the id itself, or the id that a string spells.
    pub fn as_id(&self) -> (r: Option<u128>)
        ensures
            r == value_id(self@),
    {
        match self {
            Value::Id(id) => Some(*id),
            Value::Str(s) => parse_number(s.as_str()),
        }
    }

    /// The value as text: an id in decimal digits, a string as it is.
    pub fn as_str(&self) -> (r: String)
        ensures
            text(r@) == value_text(self@),
    {
        match self {
            Value::Id(id) => id_to_decimal(*id),
            Value::Str(s) => s.clone(),
        }
    }

    /// Whether two values are the same: ids by their number, strings by
    /// their text. An id and a string are never the same.
    pub fn same(&self, other: &Value) -> (r: bool)
        ensures
            r == (self@ == other@),
    {
        match self {
            Value::Id(a) => match other {
                Value::Id(b) => *a == *b,
                Value::Str(_) => false,
            },
            Value::Str(a) => match other {
                Value::Id(_) => false,
                Value::Str(b) => str_eq(a.as_str(), b.as_str()),
            },
        }
    }
}

/// Bindings as contracts see them: variables with their values, in the
/// order in which the variables were first bound.
pub type BindingsModel = Seq<(Seq<u8>, ValueModel)>;

/// Where among the first `n` entries `var` is bound.
pub open spec fn bound_at(b: BindingsModel, var: Seq<u8>, n: int) -> Option<int>
    decreases n,
{
    if n <= 0 {
        None
    } else {
        match bound_at(b, var, n - 1) {
            Some(i) => Some(i),
            None => if b[n - 1].0 == var {
                Some(n - 1)
            } else {
                None
            },
        }
    }
}

/// The value that `var` is bound to.
pub open spec fn b_get(b: BindingsModel, var: Seq<u8>) -> Option<ValueModel> {
    match bound_at(b, var, b.len() as int) {
        Some(i) => Some(b[i].1),
        None => None,
    }
}

/// The bindings with `var` bound to `value`: in place of what it was bound
/// to, or as a new entry at the end.
pub open spec fn b_set(b: BindingsModel, var: Seq<u8>, value: ValueModel) -> BindingsModel {
    match bound_at(b, var, b.len() as int) {
        Some(i) => b.update(i, (var, value)),
        None => b.push((var, value)),
    }
}

/// The bindings `a` extended by the first `k` entries of `other`: a
/// variable that `a` leaves unbound is added; one that both bind must have
/// the same value in both, else there is no extension.
pub open spec fn b_extend(a: BindingsModel, other: BindingsModel, k: int) -> Option<BindingsModel>
    decreases k,
{
    if k <= 0 {
        Some(a)
    } else {
        match b_extend(a, other, k - 1) {
            None => None,
            Some(r) => match b_get(r, other[k - 1].0) {
                Some(existing) => if existing == other[k - 1].1 {
                    Some(r)
                } else {
                    None
                },
                None => Some(r.push(other[k - 1])),
            },
        }
    }
}

/// Variable bindings: each variable that is bound, with its value, in the
/// order in which the variables were first bound. No variable stands
/// twice.
#[derive(Debug)]
pub struct Bindings {
    entries: Vec<(String, Value)>,
}

/// The models of the entries of bindings.
pub open spec fn entry_models(s: Seq<(String, Value)>) -> BindingsModel {
    s.map_values(|e: (String, Value)| (text(e.0@), e.1@))
}

/// No variable is bound twice.
pub open spec fn distinct_vars(b: BindingsModel) -> bool {
    forall|i: int, j: int| 0 <= i < j < b.len() ==> (#[trigger] b[i]).0 != (#[trigger] b[j]).0
}

impl Bindings {
    /// No variable is bound twice.
    #[verifier::type_invariant]
    spec fn inv(&self) -> bool {
        distinct_vars(entry_models(self.entries@))
    }
}

impl View for Bindings {
    type V = BindingsModel;

    closed spec fn view(&self) -> BindingsModel {
        entry_models(self.entries@)
    }
}

impl Clone for Bindings {
    fn clone(&self) -> (r: Self)
        ensures
            r@ == self@,
    {
        let mut entries: Vec<(String, Value)> = Vec::new();
        let mut i: usize = 0;
        while i < self.entries.len()
            invariant
                i <= self.entries@.len(),
                entry_models(entries@) == entry_models(self.entries@).subrange(0, i as int),
            decreases self.entries@.len() - i,
        {
            let ghost before = entries@;
            let k = self.entries[i].0.clone();
            let v = self.entries[i].1.clone();
            entries.push((k, v));
            i += 1;
            proof {
                assert(entry_models(entries@) =~= entry_models(before).push(
                    entry_models(self.entries@)[i - 1],
                ));
                assert(entry_models(entries@) =~= entry_models(self.entries@).subrange(0, i as int));
            }
        }
        assert(entry_models(self.entries@).subrange(0, self.entries@.len() as int)
            =~= entry_models(self.entries@));
        proof {
            use_type_invariant(self);
        }
        Bindings { entries }
    }
}

impl Default for Bindings {
    fn default() -> (r: Self)
        ensures
            r@ == Seq::<(Seq<u8>, ValueModel)>::empty(),
    {
        Bindings::new()
    }
}

impl Bindings {
    /// Bindings that bind nothing.
    pub fn new() -> (r: Self)
        ensures
            r@ == Seq::<(Seq<u8>, ValueModel)>::empty(),
    {
        let entries: Vec<(String, Value)> = Vec::new();
        assert(entry_models(entries@) =~= Seq::<(Seq<u8>, ValueModel)>::empty());
        Bindings { entries }
    }

    /// Whether no variable is bound.
    pub fn is_empty(&self) -> (r: bool)
        ensures
            r == (self@.len() == 0),
    {
        self.entries.len() == 0
    }

    /// Where `var` is bound among entries.
    fn find(entries: &Vec<(String, Value)>, var: &str) -> (r: Option<usize>)
        ensures
            r matches Some(i) ==> bound_at(
                entry_models(entries@),
                text(var@),
                entries@.len() as int,
            ) == Some(i as int) && i < entries@.len(),
            r.is_none() ==> bound_at(entry_models(entries@), text(var@), entries@.len() as int)
                .is_none(),
    {
        let ghost b = entry_models(entries@);
        let mut i: usize = 0;
        while i < entries.len()
            invariant
                i <= entries@.len(),
                b == entry_models(entries@),
                bound_at(b, text(var@), i as int).is_none(),
            decreases entries@.len() - i,
        {
            assert(b[i as int].0 == text(entries@[i as int].0@));
            if str_eq(entries[i].0.as_str(), var) {
                proof {
                    lemma_bound_found(b, text(var@), i as int, b.len() as int);
                }
                return Some(i);
            }
            i += 1;
        }
        None
    }

    /// The value that `var` is bound to.
    pub fn get(&self, var: &str) -> (r: Option<&Value>)
        ensures
            r matches Some(v) ==> b_get(self@, text(var@)) == Some(v@),
            r.is_none() ==> b_get(self@, text(var@)).is_none(),
    {
        match Bindings::find(&self.entries, var) {
            Some(i) => {
                assert(self@[i as int].1 == self.entries@[i as int].1@);
                Some(&self.entries[i].1)
            },
            None => None,
        }
    }

    /// Binds `var` to `value`, in place of what it was bound to.
    pub fn set(&mut self, var: &str, value: Value)
        ensures
            final(self)@ == b_set(old(self)@, text(var@), value@),
            distinct_vars(final(self)@),
    {
        proof {
            use_type_invariant(&*self);
        }
        let mut taken = Bindings::new();
        core::mem::swap(self, &mut taken);
        let Bindings { entries } = taken;
        let mut entries = entries;
        let ghost before = entry_models(entries@);
        let ghost w = text(var@);
        proof {
            lemma_bound(before, w, before.len() as int);
        }
        match Bindings::find(&entries, var) {
            Some(i) => {
                entries[i] = (var.to_owned(), value);
                assert(entry_models(entries@) =~= before.update(i as int, (w, value@)));
            },
            None => {
                entries.push((var.to_owned(), value));
                assert(entry_models(entries@) =~= before.push((w, value@)));
            },
        }
        *self = Bindings { entries };
    }

    /// These bindings extended by `other`. There is an extension exactly
    /// when the two agree: a variable that both bind has the same value
    /// in both. It binds every variable that one of the two binds, to the
    /// value it has there, and no other variable; the variables of these
    /// bindings come first.
    pub fn extend(&self, other: &Bindings) -> (r: Option<Bindings>)
        ensures
            r.is_some() == agree(self@, other@),
            r matches Some(b) ==> Some(b@) == b_extend(self@, other@, other@.len() as int)
                && distinct_vars(b@) && forall|v: Seq<u8>|
                b_get(b@, v) == either(#[trigger] b_get(self@, v), b_get(other@, v)),
            r.is_none() ==> b_extend(self@, other@, other@.len() as int).is_none(),
    {
        proof {
            use_type_invariant(self);
            use_type_invariant(other);
            lemma_extend(self@, other@, other@.len() as int);
            lemma_agree(self@, other@);
        }
        let Bindings { entries } = self.clone();
        let mut entries = entries;
        let ghost o = other@;
        let mut k: usize = 0;
        while k < other.entries.len()
            invariant
                k <= other.entries@.len(),
                o == entry_models(other.entries@),
                b_extend(self@, o, k as int) == Some(entry_models(entries@)),
            decreases other.entries@.len() - k,
        {
            let entry = &other.entries[k];
            assert(o[k as int] == (text(entry.0@), entry.1@));
            match Bindings::find(&entries, entry.0.as_str()) {
                Some(i) => {
                    assert(entry_models(entries@)[i as int].1 == entries@[i as int].1@);
                    if !entries[i].1.same(&entry.1) {
                        proof {
                            lemma_extend_fails(self@, o, k + 1, o.len() as int);
                            use_type_invariant(self);
                            use_type_invariant(other);
                            lemma_extend(self@, o, o.len() as int);
                            lemma_agree(self@, o);
                        }
                        return None;
                    }
                },
                None => {
                    let ghost before = entry_models(entries@);
                    entries.push((entry.0.clone(), entry.1.clone()));
                    assert(entry_models(entries@) =~= before.push(o[k as int]));
                },
            }
            k += 1;
        }
        Some(Bindings { entries })
    }

    /// The bindings, in the order in which the variables were first bound.
    /// No variable stands twice.
    pub fn iter(&self) -> (r: &[(String, Value)])
        ensures
            entry_models(r@) == self@,
            distinct_vars(self@),
    {
        proof {
            use_type_invariant(self);
        }
        self.entries.as_slice()
    }
}

/// The entry that `bound_at` finds binds the variable, and no earlier one
/// does; where it finds none, no entry binds it.
pub proof fn lemma_bound(b: BindingsModel, var: Seq<u8>, n: int)
    ensures
        bound_at(b, var, n) matches Some(i) ==> 0 <= i < n && b[i].0 == var && forall|j: int|
            0 <= j < i ==> (#[trigger] b[j]).0 != var,
        bound_at(b, var, n).is_none() ==> forall|j: int| 0 <= j < n ==> (#[trigger] b[j]).0 != var,
    decreases n,
{
    if n > 0 {
        lemma_bound(b, var, n - 1);
    }
}

/// Looking among the first `n` entries does not see what stands behind
/// them.
pub proof fn lemma_bound_prefix(b: BindingsModel, c: BindingsModel, var: Seq<u8>, n: int)
    requires
        0 <= n <= b.len(),
        n <= c.len(),
        forall|i: int| 0 <= i < n ==> b[i] == c[i],
    ensures
        bound_at(b, var, n) == bound_at(c, var, n),
    decreases n,
{
    if n > 0 {
        lemma_bound_prefix(b, c, var, n - 1);
    }
}

/// What a variable is bound to after one more entry: what it was bound
/// to, or else what the entry binds it to.
pub proof fn lemma_get_push(b: BindingsModel, e: (Seq<u8>, ValueModel), v: Seq<u8>)
    ensures
        b_get(b.push(e), v) == either(
            b_get(b, v),
            if e.0 == v {
                Some(e.1)
            } else {
                None
            },
        ),
{
    let c = b.push(e);
    lemma_bound_prefix(b, c, v, b.len() as int);
    assert(bound_at(c, v, c.len() as int) == match bound_at(c, v, b.len() as int) {
        Some(i) => Some(i),
        None => if c[b.len() as int].0 == v {
            Some(b.len() as int)
        } else {
            None
        },
    });
    lemma_bound(b, v, b.len() as int);
}

/// The first of two values that is there.
pub open spec fn either(a: Option<ValueModel>, b: Option<ValueModel>) -> Option<ValueModel> {
    match a {
        Some(x) => Some(x),
        None => b,
    }
}

/// Two bindings agree: a variable that both bind has the same value in
/// both.
pub open spec fn agree(a: BindingsModel, b: BindingsModel) -> bool {
    forall|v: Seq<u8>|
        (#[trigger] b_get(a, v)).is_some() && b_get(b, v).is_some() ==> b_get(a, v) == b_get(b, v)
}

/// The entry `j` of `other` does not speak against `a`.
pub open spec fn fits(a: BindingsModel, other: BindingsModel, j: int) -> bool {
    match b_get(a, other[j].0) {
        Some(x) => x == other[j].1,
        None => true,
    }
}

/// The value of `v` among the first `k` entries.
pub open spec fn get_among(b: BindingsModel, v: Seq<u8>, k: int) -> Option<ValueModel> {
    match bound_at(b, v, k) {
        Some(i) => Some(b[i].1),
        None => None,
    }
}

/// Bindings can be extended by the first `k` entries of others exactly
/// when none of these entries speaks against them; the extension then
/// binds no variable twice, and binds every variable to what the bindings
/// bind it to, or else to what the entries bind it to.
pub proof fn lemma_extend(a: BindingsModel, other: BindingsModel, k: int)
    requires
        distinct_vars(a),
        distinct_vars(other),
        0 <= k <= other.len(),
    ensures
        b_extend(a, other, k).is_some() == (forall|j: int| 0 <= j < k ==> fits(a, other, j)),
        b_extend(a, other, k) matches Some(r) ==> distinct_vars(r) && forall|v: Seq<u8>|
            #[trigger] b_get(r, v) == either(b_get(a, v), get_among(other, v, k)),
    decreases k,
{
    if k > 0 {
        lemma_extend(a, other, k - 1);
        let e = other[k - 1];
        let w = e.0;
        match b_extend(a, other, k - 1) {
            None => {
                let j = choose|j: int| 0 <= j < k - 1 && !fits(a, other, j);
                assert(!fits(a, other, j));
            },
            Some(r) => {
                // no earlier entry of the others binds the variable
                lemma_bound(other, w, k - 1);
                assert(bound_at(other, w, k - 1).is_none()) by {
                    if bound_at(other, w, k - 1).is_some() {
                        let i = bound_at(other, w, k - 1)->0;
                        assert(other[i].0 == other[k - 1].0);
                    }
                }
                assert(b_get(r, w) == b_get(a, w));
                match b_get(r, w) {
                    Some(x) => {
                        if x == e.1 {
                            assert forall|v: Seq<u8>| #[trigger]
                                b_get(r, v) == either(b_get(a, v), get_among(other, v, k)) by {
                                assert(b_get(r, v) == either(
                                    b_get(a, v),
                                    get_among(other, v, k - 1),
                                ));
                            }
                        } else {
                            assert(!fits(a, other, k - 1));
                        }
                    },
                    None => {
                        let s = r.push(e);
                        lemma_bound(r, w, r.len() as int);
                        assert(distinct_vars(s));
                        assert forall|v: Seq<u8>| #[trigger]
                            b_get(s, v) == either(b_get(a, v), get_among(other, v, k)) by {
                            lemma_get_push(r, e, v);
                            assert(b_get(r, v) == either(b_get(a, v), get_among(other, v, k - 1)));
                        }
                    },
                }
            },
        }
    }
}

/// No entry of the others speaks against bindings exactly when the two
/// agree.
pub proof fn lemma_agree(a: BindingsModel, other: BindingsModel)
    requires
        distinct_vars(other),
    ensures
        (forall|j: int| 0 <= j < other.len() ==> fits(a, other, j)) == agree(a, other),
{
    let n = other.len() as int;
    if forall|j: int| 0 <= j < n ==> fits(a, other, j) {
        assert forall|v: Seq<u8>|
            (#[trigger] b_get(a, v)).is_some() && b_get(other, v).is_some() implies b_get(a, v)
            == b_get(other, v) by {
            lemma_bound(other, v, n);
            let i = bound_at(other, v, n)->0;
            assert(fits(a, other, i));
        }
    }
    if agree(a, other) {
        assert forall|j: int| 0 <= j < n implies fits(a, other, j) by {
            let w = other[j].0;
            lemma_bound(other, w, n);
            if bound_at(other, w, n).is_some() {
                let i = bound_at(other, w, n)->0;
                if i != j {
                    assert(other[i].0 == other[j].0);
                }
            }
            assert(b_get(other, w) == Some(other[j].1));
            assert(b_get(a, w).is_some() ==> b_get(a, w) == b_get(other, w));
        }
    }
}

/// The first entry that binds a variable stays the first when more
/// entries are looked at.
pub proof fn lemma_bound_found(b: BindingsModel, var: Seq<u8>, i: int, n: int)
    requires
        0 <= i < n,
        bound_at(b, var, i).is_none(),
        b[i].0 == var,
    ensures
        bound_at(b, var, n) == Some(i),
    decreases n - i,
{
    if n > i + 1 {
        lemma_bound_found(b, var, i, n - 1);
    }
}

/// Where bindings cannot be extended by some entries, they cannot be
/// extended by more.
pub proof fn lemma_extend_fails(a: BindingsModel, other: BindingsModel, k: int, n: int)
    requires
        0 <= k <= n,
        b_extend(a, other, k).is_none(),
    ensures
        b_extend(a, other, n).is_none(),
    decreases n - k,
{
    if k < n {
        lemma_extend_fails(a, other, k, n - 1);
    }
}

/// The models of a sequence of bindings.
pub open spec fn bindings_models(s: Seq<Bindings>) -> Seq<BindingsModel> {
    s.map_values(|b: Bindings| b@)
}

} // verus!
