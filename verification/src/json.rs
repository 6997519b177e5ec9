use vstd::prelude::*;
use crate::text::str_eq;

verus! {

/// A JSON value as the library handles it. Numbers are kept as the text
/// that stands for them: the library moves them around but never computes
/// with them.
#[derive(Debug, PartialEq)]
pub enum JsonValue {
    Null,
    Bool(bool),
    Number(String),
    Text(String),
    Array(Vec<JsonValue>),
    Object(Vec<(String, JsonValue)>),
}

/// The mathematical model of a JSON value: an object is the sequence of its
/// (key, value) fields in order.
pub enum JsonModel {
    Null,
    Bool(bool),
    Number(Seq<char>),
    Text(Seq<char>),
    Array(Seq<JsonModel>),
    Object(Seq<(Seq<char>, JsonModel)>),
}

impl JsonValue {
    /// The model of this value.
    pub open spec fn model(&self) -> JsonModel
        decreases self,
    {
        match self {
            JsonValue::Null => JsonModel::Null,
            JsonValue::Bool(b) => JsonModel::Bool(*b),
            JsonValue::Number(n) => JsonModel::Number(n@),
            JsonValue::Text(s) => JsonModel::Text(s@),
            JsonValue::Array(v) => JsonModel::Array(models(v@)),
            JsonValue::Object(f) => JsonModel::Object(field_models(f@)),
        }
    }
}

/// The models of a sequence of values.
pub open spec fn models(s: Seq<JsonValue>) -> Seq<JsonModel>
    decreases s,
{
    if s.len() == 0 {
        Seq::empty()
    } else {
        models(s.drop_last()).push(s.last().model())
    }
}

/// The models of a sequence of object fields.
pub open spec fn field_models(s: Seq<(String, JsonValue)>) -> Seq<(Seq<char>, JsonModel)>
    decreases s,
{
    if s.len() == 0 {
        Seq::empty()
    } else {
        field_models(s.drop_last()).push((s.last().0@, s.last().1.model()))
    }
}


/// `models` maps each value to its model.
pub proof fn lemma_models(s: Seq<JsonValue>)
    ensures
        models(s).len() == s.len(),
        forall|i: int| 0 <= i < s.len() ==> #[trigger] models(s)[i] == s[i].model(),
    decreases s.len(),
{
    if s.len() > 0 {
        lemma_models(s.drop_last());
        assert forall|i: int| 0 <= i < s.len() implies #[trigger] models(s)[i] == s[i].model() by {
            if i < s.len() - 1 {
                assert(s.drop_last()[i] == s[i]);
            }
        }
    }
}

/// `field_models` maps each field to its key's view and its value's model.
pub proof fn lemma_field_models(s: Seq<(String, JsonValue)>)
    ensures
        field_models(s).len() == s.len(),
        forall|i: int|
            0 <= i < s.len() ==> #[trigger] field_models(s)[i] == (s[i].0@, s[i].1.model()),
    decreases s.len(),
{
    if s.len() > 0 {
        lemma_field_models(s.drop_last());
        assert forall|i: int| 0 <= i < s.len() implies #[trigger] field_models(s)[i] == (
            s[i].0@,
            s[i].1.model(),
        ) by {
            if i < s.len() - 1 {
                assert(s.drop_last()[i] == s[i]);
            }
        }
    }
}

/// The value of the first field named `key`, if any.
pub open spec fn lookup(fields: Seq<(Seq<char>, JsonModel)>, key: Seq<char>) -> Option<JsonModel>
    decreases fields.len(),
{
    if fields.len() == 0 {
        None
    } else if fields[0].0 == key {
        Some(fields[0].1)
    } else {
        lookup(fields.drop_first(), key)
    }
}

/// The field `key` of an object; `None` for other values.
pub open spec fn get_spec(v: JsonModel, key: Seq<char>) -> Option<JsonModel> {
    match v {
        JsonModel::Object(fields) => lookup(fields, key),
        _ => None,
    }
}

/// The first element of an array; `None` for other values and empty arrays.
pub open spec fn first_spec(v: JsonModel) -> Option<JsonModel> {
    match v {
        JsonModel::Array(items) => if items.len() > 0 {
            Some(items[0])
        } else {
            None
        },
        _ => None,
    }
}

impl JsonValue {
    /// A copy of this value.
    #[verifier::loop_isolation(false)]
    pub fn duplicate(&self) -> (r: JsonValue)
        ensures
            r.model() == self.model(),
        decreases self,
    {
        match self {
            JsonValue::Null => JsonValue::Null,
            JsonValue::Bool(b) => JsonValue::Bool(*b),
            JsonValue::Number(n) => JsonValue::Number(n.clone()),
            JsonValue::Text(s) => JsonValue::Text(s.clone()),
            JsonValue::Array(v) => {
                let mut out: Vec<JsonValue> = Vec::new();
                let mut i: usize = 0;
                while i < v.len()
                    invariant
                        i <= v@.len(),
                        models(out@) == models(v@.take(i as int)),
                    decreases v@.len() - i,
                {
                    assert(decreases_to!(self => *v));
                    assert(decreases_to!(*v => v@));
                    assert(decreases_to!(v@ => v@[i as int]));
                    let x = v[i].duplicate();
                    let ghost before = out@;
                    out.push(x);
                    assert(out@.drop_last() == before);
                    assert(v@.take(i + 1).drop_last() == v@.take(i as int));
                    i = i + 1;
                }
                assert(v@.take(v@.len() as int) == v@);
                JsonValue::Array(out)
            },
            JsonValue::Object(f) => {
                let mut out: Vec<(String, JsonValue)> = Vec::new();
                let mut i: usize = 0;
                while i < f.len()
                    invariant
                        i <= f@.len(),
                        field_models(out@) == field_models(f@.take(i as int)),
                    decreases f@.len() - i,
                {
                    assert(decreases_to!(self => *f));
                    assert(decreases_to!(*f => f@));
                    assert(decreases_to!(f@ => f@[i as int]));
                    assert(decreases_to!(f@[i as int] => f@[i as int].1));
                    let x = f[i].1.duplicate();
                    let k = f[i].0.clone();
                    let ghost before = out@;
                    out.push((k, x));
                    assert(out@.drop_last() == before);
                    assert(f@.take(i + 1).drop_last() == f@.take(i as int));
                    i = i + 1;
                }
                assert(f@.take(f@.len() as int) == f@);
                JsonValue::Object(out)
            },
        }
    }

    /// The field `key` of this value, when it is an object that has one.
    #[verifier::loop_isolation(false)]
    pub fn get(&self, key: &str) -> (r: Option<&JsonValue>)
        ensures
            match r {
                Some(x) => get_spec(self.model(), key@) == Some(x.model()),
                None => get_spec(self.model(), key@) is None,
            },
    {
        match self {
            JsonValue::Object(f) => {
                proof {
                    lemma_field_models(f@);
                }
                let ghost fm = field_models(f@);
                let mut i: usize = 0;
                assert(fm.skip(0) == fm);
                while i < f.len()
                    invariant
                        i <= f@.len() == fm.len(),
                        fm == field_models(f@),
                        forall|j: int| 0 <= j < f@.len() ==> #[trigger] fm[j] == (f@[j].0@, f@[j].1.model()),
                        lookup(fm, key@) == lookup(fm.skip(i as int), key@),
                    decreases f@.len() - i,
                {
                    assert(fm.skip(i as int)[0] == fm[i as int]);
                    if str_eq(f[i].0.as_str(), key) {
                        assert(lookup(fm.skip(i as int), key@) == Some(fm[i as int].1));
                        return Some(&f[i].1);
                    }
                    assert(fm.skip(i as int).drop_first() == fm.skip(i + 1));
                    i = i + 1;
                }
                None
            },
            _ => None,
        }
    }

    /// The first element of the array held by field `key`, if any.
    pub fn first_of_field(&self, key: &str) -> (r: Option<&JsonValue>)
        ensures
            match r {
                Some(x) => match get_spec(self.model(), key@) {
                    Some(a) => first_spec(a) == Some(x.model()),
                    None => false,
                },
                None => match get_spec(self.model(), key@) {
                    Some(a) => first_spec(a) is None,
                    None => true,
                },
            },
    {
        match self.get(key) {
            Some(JsonValue::Array(items)) => {
                if items.len() > 0 {
                    proof {
                        lemma_models(items@);
                    }
                    Some(&items[0])
                } else {
                    None
                }
            },
            _ => None,
        }
    }
}

} // verus!
