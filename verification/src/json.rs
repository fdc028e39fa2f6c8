use vstd::prelude::*;

verus! {

broadcast use vstd::std_specs::vec::group_vec_axioms;

/// A JSON number as the protocol carries it.
#[derive(Debug, PartialEq, Eq)]
pub enum JsonNumber {
    /// An integer that fits in `i64`.
    Int(i64),
    /// A non-negative integer above `i64::MAX`.
    BigUInt(u64),
    /// Any other number, kept as its decimal text.
    Float(String),
}

/// A JSON document.
#[derive(Debug, PartialEq, Eq)]
pub enum Json {
    Null,
    Bool(bool),
    Number(JsonNumber),
    Str(String),
    Array(Vec<Json>),
    Object(Vec<JsonEntry>),
}

/// One member of a JSON object.
#[derive(Debug, PartialEq, Eq)]
pub struct JsonEntry {
    pub key: String,
    pub value: Json,
}

/// The mathematical model of a JSON number.
pub enum NumberModel {
    Int(i64),
    BigUInt(u64),
    Float(Seq<char>),
}

/// The mathematical model of a JSON document.
pub enum JsonModel {
    Null,
    Bool(bool),
    Number(NumberModel),
    Str(Seq<char>),
    Array(Seq<JsonModel>),
    Object(Seq<(Seq<char>, JsonModel)>),
}

impl JsonNumber {
    pub open spec fn model(&self) -> NumberModel {
        match self {
            JsonNumber::Int(i) => NumberModel::Int(*i),
            JsonNumber::BigUInt(u) => NumberModel::BigUInt(*u),
            JsonNumber::Float(s) => NumberModel::Float(s@),
        }
    }
}

impl Json {
    pub open spec fn model(&self) -> JsonModel
        decreases self,
    {
        match self {
            Json::Null => JsonModel::Null,
            Json::Bool(b) => JsonModel::Bool(*b),
            Json::Number(n) => JsonModel::Number(n.model()),
            Json::Str(s) => JsonModel::Str(s@),
            Json::Array(items) => JsonModel::Array(
                Seq::new(
                    items@.len(),
                    |i: int|
                        if 0 <= i < items@.len() {
                            proof {
                                assert(decreases_to!(items => items@));
                            }
                            items@[i].model()
                        } else {
                            JsonModel::Null
                        },
                ),
            ),
            Json::Object(entries) => JsonModel::Object(
                Seq::new(
                    entries@.len(),
                    |i: int|
                        if 0 <= i < entries@.len() {
                            proof {
                                assert(decreases_to!(entries => entries@));
                            }
                            (entries@[i].key@, entries@[i].value.model())
                        } else {
                            (Seq::empty(), JsonModel::Null)
                        },
                ),
            ),
        }
    }
}

impl View for Json {
    type V = JsonModel;

    open spec fn view(&self) -> JsonModel {
        self.model()
    }
}

/// The members of an object, as key and model of the value.
pub open spec fn entries_model(entries: Seq<JsonEntry>) -> Seq<(Seq<char>, JsonModel)> {
    Seq::new(entries.len(), |i: int| (entries[i].key@, entries[i].value@))
}

pub proof fn lemma_object_model(entries: Vec<JsonEntry>)
    ensures
        Json::Object(entries)@ == JsonModel::Object(entries_model(entries@)),
{
    let m = Json::Object(entries)@;
    if let JsonModel::Object(es) = m {
        assert(es =~= entries_model(entries@));
    }
}

pub proof fn lemma_array_model(items: Vec<Json>)
    ensures
        Json::Array(items)@ == JsonModel::Array(items@.map_values(|x: Json| x@)),
{
    let m = Json::Array(items)@;
    if let JsonModel::Array(es) = m {
        assert(es =~= items@.map_values(|x: Json| x@));
    }
}

/// `i` is the first position of `key` among `entries`.
pub open spec fn is_first_key(entries: Seq<(Seq<char>, JsonModel)>, key: Seq<char>, i: int) -> bool {
    &&& 0 <= i < entries.len()
    &&& entries[i].0 == key
    &&& forall|j: int| 0 <= j < i ==> entries[j].0 != key
}

/// Some member of `entries` has the name `key`.
pub open spec fn has_key(entries: Seq<(Seq<char>, JsonModel)>, key: Seq<char>) -> bool {
    exists|i: int| 0 <= i < entries.len() && entries[i].0 == key
}

/// The position of the first member named `key`.
pub open spec fn key_position(entries: Seq<(Seq<char>, JsonModel)>, key: Seq<char>) -> int {
    choose|i: int| is_first_key(entries, key, i)
}

pub proof fn lemma_first_key_unique(entries: Seq<(Seq<char>, JsonModel)>, key: Seq<char>, i: int, j: int)
    requires
        is_first_key(entries, key, i),
        is_first_key(entries, key, j),
    ensures
        i == j,
{
    if i < j {
        assert(entries[i].0 != key);
    } else if j < i {
        assert(entries[j].0 != key);
    }
}

proof fn lemma_first_key_below(entries: Seq<(Seq<char>, JsonModel)>, key: Seq<char>, n: int)
    requires
        0 <= n <= entries.len(),
        exists|i: int| 0 <= i < n && entries[i].0 == key,
    ensures
        exists|i: int| is_first_key(entries, key, i),
    decreases n,
{
    if exists|i: int| 0 <= i < n - 1 && entries[i].0 == key {
        lemma_first_key_below(entries, key, n - 1);
    } else {
        assert(is_first_key(entries, key, n - 1));
    }
}

/// The first member named `key` has the position that `key_position` names.
pub proof fn lemma_key_position(entries: Seq<(Seq<char>, JsonModel)>, key: Seq<char>)
    requires
        has_key(entries, key),
    ensures
        is_first_key(entries, key, key_position(entries, key)),
{
    lemma_first_key_below(entries, key, entries.len() as int);
}

/// `Value::get` with a string key: the first member named `key` of an object.
pub open spec fn get(value: JsonModel, key: Seq<char>) -> Option<JsonModel> {
    match value {
        JsonModel::Object(entries) => if has_key(entries, key) {
            Some(entries[key_position(entries, key)].1)
        } else {
            None
        },
        _ => None,
    }
}

/// `Value::as_i64`, which here also covers `as_u64` narrowed to `i64`.
pub open spec fn as_i64(value: JsonModel) -> Option<i64> {
    match value {
        JsonModel::Number(NumberModel::Int(i)) => Some(i),
        JsonModel::Number(NumberModel::BigUInt(u)) => if u <= i64::MAX {
            Some(u as i64)
        } else {
            None
        },
        _ => None,
    }
}

/// The integer held by member `field` of `value`, if it holds one that fits in `i64`.
pub open spec fn number_field(value: JsonModel, field: Seq<char>) -> Option<i64> {
    match get(value, field) {
        Some(v) => as_i64(v),
        None => None,
    }
}

/// `value` with the first member named `key` replaced by `f` of its old value;
/// `value` itself when it is no object or has no such member.
pub open spec fn update_field(value: JsonModel, key: Seq<char>, f: spec_fn(JsonModel) -> JsonModel) -> JsonModel {
    match value {
        JsonModel::Object(entries) => if has_key(entries, key) {
            let i = key_position(entries, key);
            JsonModel::Object(entries.update(i, (key, f(entries[i].1))))
        } else {
            value
        },
        _ => value,
    }
}

/// Reading another member after an update gives what it gave before.
pub proof fn lemma_get_after_update(
    value: JsonModel,
    key: Seq<char>,
    f: spec_fn(JsonModel) -> JsonModel,
    other: Seq<char>,
)
    ensures
        other != key ==> get(update_field(value, key, f), other) == get(value, other),
        get(update_field(value, key, f), key) == match get(value, key) {
            Some(v) => Some(f(v)),
            None => None,
        },
{
    if let JsonModel::Object(entries) = value {
        if has_key(entries, key) {
            lemma_key_position(entries, key);
            let i = key_position(entries, key);
            let updated = entries.update(i, (key, f(entries[i].1)));
            assert(updated[i].0 == key);
            assert(has_key(updated, key));
            lemma_key_position(updated, key);
            assert(is_first_key(updated, key, i));
            lemma_first_key_unique(updated, key, i, key_position(updated, key));
            if other != key {
                if has_key(entries, other) {
                    lemma_key_position(entries, other);
                    let j = key_position(entries, other);
                    assert(updated[j].0 == other);
                    assert(is_first_key(updated, other, j));
                    lemma_key_position(updated, other);
                    lemma_first_key_unique(updated, other, j, key_position(updated, other));
                } else {
                    assert(!has_key(updated, other)) by {
                        if has_key(updated, other) {
                            let j = choose|j: int| 0 <= j < updated.len() && updated[j].0 == other;
                            assert(entries[j].0 == other);
                        }
                    }
                }
            }
        }
    }
}

/// Two member lists with the same names at the same positions find every
/// name at the same position.
pub proof fn lemma_same_keys(
    a: Seq<(Seq<char>, JsonModel)>,
    b: Seq<(Seq<char>, JsonModel)>,
    key: Seq<char>,
)
    requires
        a.len() == b.len(),
        forall|i: int| 0 <= i < a.len() ==> a[i].0 == b[i].0,
    ensures
        has_key(a, key) == has_key(b, key),
        has_key(a, key) ==> key_position(a, key) == key_position(b, key),
{
    if has_key(a, key) {
        let i = choose|i: int| 0 <= i < a.len() && a[i].0 == key;
        assert(b[i].0 == key);
        lemma_key_position(a, key);
        lemma_key_position(b, key);
        let pa = key_position(a, key);
        assert(is_first_key(b, key, pa));
        lemma_first_key_unique(b, key, pa, key_position(b, key));
    } else if has_key(b, key) {
        let i = choose|i: int| 0 <= i < b.len() && b[i].0 == key;
        assert(a[i].0 == key);
    }
}

/// Updating members with different names in either order gives the same document.
pub proof fn lemma_update_commute(
    value: JsonModel,
    k1: Seq<char>,
    f: spec_fn(JsonModel) -> JsonModel,
    k2: Seq<char>,
    g: spec_fn(JsonModel) -> JsonModel,
)
    requires
        k1 != k2,
    ensures
        update_field(update_field(value, k1, f), k2, g) == update_field(
            update_field(value, k2, g),
            k1,
            f,
        ),
{
    if let JsonModel::Object(es) = value {
        let v1 = update_field(value, k1, f);
        let v2 = update_field(value, k2, g);
        let es1 = v1->Object_0;
        let es2 = v2->Object_0;
        if has_key(es, k1) {
            lemma_key_position(es, k1);
        }
        if has_key(es, k2) {
            lemma_key_position(es, k2);
        }
        lemma_same_keys(es, es1, k2);
        lemma_same_keys(es, es2, k1);
        let l = update_field(v1, k2, g);
        let r = update_field(v2, k1, f);
        assert(l->Object_0 =~= r->Object_0);
    }
}

/// Two updates of the same member are one update by the composed function.
pub proof fn lemma_update_compose(
    value: JsonModel,
    key: Seq<char>,
    f: spec_fn(JsonModel) -> JsonModel,
    g: spec_fn(JsonModel) -> JsonModel,
    h: spec_fn(JsonModel) -> JsonModel,
)
    requires
        forall|x: JsonModel| #[trigger] h(x) == g(f(x)),
    ensures
        update_field(update_field(value, key, f), key, g) == update_field(value, key, h),
{
    if let JsonModel::Object(es) = value {
        let v1 = update_field(value, key, f);
        let es1 = v1->Object_0;
        if has_key(es, key) {
            lemma_key_position(es, key);
        }
        lemma_same_keys(es, es1, key);
        if has_key(es, key) {
            let i = key_position(es, key);
            assert(h(es[i].1) == g(f(es[i].1)));
            assert(update_field(v1, key, g)->Object_0 =~= update_field(value, key, h)->Object_0);
        }
    }
}

impl Json {
    /// A copy of this document.
    #[verifier::loop_isolation(false)]
    pub fn duplicate(&self) -> (r: Json)
        ensures
            r@ == self@,
        decreases self,
    {
        match self {
            Json::Null => Json::Null,
            Json::Bool(b) => Json::Bool(*b),
            Json::Number(JsonNumber::Int(i)) => Json::Number(JsonNumber::Int(*i)),
            Json::Number(JsonNumber::BigUInt(u)) => Json::Number(JsonNumber::BigUInt(*u)),
            Json::Number(JsonNumber::Float(t)) => Json::Number(JsonNumber::Float(t.clone())),
            Json::Str(t) => Json::Str(t.clone()),
            Json::Array(items) => {
                let mut copy: Vec<Json> = Vec::new();
                let mut i: usize = 0;
                while i < items.len()
                    invariant
                        i <= items.len(),
                        copy@.len() == i,
                        forall|k: int| 0 <= k < i ==> copy@[k]@ == items@[k]@,
                    decreases items.len() - i,
                {
                    proof {
                        assert(decreases_to!(items => items@));
                        assert(decreases_to!(items@ => items@[i as int]));
                    }
                    let c = items[i].duplicate();
                    copy.push(c);
                    i += 1;
                }
                proof {
                    lemma_array_model(copy);
                    lemma_array_model(*items);
                    assert(copy@.map_values(|x: Json| x@) =~= items@.map_values(|x: Json| x@));
                }
                Json::Array(copy)
            },
            Json::Object(entries) => {
                let mut copy: Vec<JsonEntry> = Vec::new();
                let mut i: usize = 0;
                while i < entries.len()
                    invariant
                        i <= entries.len(),
                        copy@.len() == i,
                        forall|k: int|
                            0 <= k < i ==> copy@[k].key@ == entries@[k].key@ && copy@[k].value@
                                == entries@[k].value@,
                    decreases entries.len() - i,
                {
                    proof {
                        assert(decreases_to!(entries => entries@));
                        assert(decreases_to!(entries@ => entries@[i as int]));
                    }
                    let v = entries[i].value.duplicate();
                    copy.push(JsonEntry { key: entries[i].key.clone(), value: v });
                    i += 1;
                }
                proof {
                    lemma_object_model(copy);
                    lemma_object_model(*entries);
                    assert(entries_model(copy@) =~= entries_model(entries@));
                }
                Json::Object(copy)
            },
        }
    }

    /// `Value::as_str`.
    pub fn as_str(&self) -> (r: Option<&str>)
        ensures
            match self@ {
                JsonModel::Str(t) => r matches Some(s) && s@ == t,
                _ => r is None,
            },
    {
        match self {
            Json::Str(t) => Some(t.as_str()),
            _ => None,
        }
    }

    /// `Value::as_i64`, also covering `as_u64` narrowed to `i64`.
    pub fn as_i64(&self) -> (r: Option<i64>)
        ensures
            r == as_i64(self@),
    {
        match self {
            Json::Number(JsonNumber::Int(i)) => Some(*i),
            Json::Number(JsonNumber::BigUInt(u)) => {
                if *u <= 0x7fff_ffff_ffff_ffff {
                    Some(*u as i64)
                } else {
                    None
                }
            },
            _ => None,
        }
    }

    /// `Value::is_array`.
    pub fn is_array(&self) -> (r: bool)
        ensures
            r == (self@ is Array),
    {
        match self {
            Json::Array(_) => true,
            _ => false,
        }
    }

    /// `Value::is_object`.
    pub fn is_object(&self) -> (r: bool)
        ensures
            r == (self@ is Object),
    {
        match self {
            Json::Object(_) => true,
            _ => false,
        }
    }

    /// `Value::get`: the first member named `key`, when this is an object.
    pub fn get(&self, key: &str) -> (r: Option<&Json>)
        ensures
            match r {
                Some(v) => get(self@, key@) == Some(v@),
                None => get(self@, key@) is None,
            },
    {
        match self {
            Json::Object(entries) => {
                proof {
                    lemma_object_model(*entries);
                }
                match key_index(entries, key) {
                    Some(i) => Some(&entries[i].value),
                    None => None,
                }
            },
            _ => None,
        }
    }

    /// The integer held by member `field`, if it holds one that fits in `i64`.
    pub fn number_field(&self, field: &str) -> (r: Option<i64>)
        ensures
            r == number_field(self@, field@),
    {
        match self.get(field) {
            Some(v) => v.as_i64(),
            None => None,
        }
    }
}

/// The position of the first member named `key`.
pub fn key_index(entries: &Vec<JsonEntry>, key: &str) -> (r: Option<usize>)
    ensures
        match r {
            Some(i) => is_first_key(entries_model(entries@), key@, i as int) && key_position(
                entries_model(entries@),
                key@,
            ) == i && has_key(entries_model(entries@), key@),
            None => !has_key(entries_model(entries@), key@),
        },
{
    let ghost es = entries_model(entries@);
    let wanted = String::from_str(key);
    let mut i: usize = 0;
    while i < entries.len()
        invariant
            i <= entries.len(),
            es == entries_model(entries@),
            wanted@ == key@,
            forall|j: int| 0 <= j < i ==> es[j].0 != key@,
        decreases entries.len() - i,
    {
        if entries[i].key == wanted {
            proof {
                assert(is_first_key(es, key@, i as int));
                lemma_key_position(es, key@);
                lemma_first_key_unique(es, key@, i as int, key_position(es, key@));
            }
            return Some(i);
        }
        i += 1;
    }
    None
}

/// Replaces the value of member `i`, returning the value it held.
pub fn replace_entry_value(entries: &mut Vec<JsonEntry>, i: usize, value: Json) -> (previous: Json)
    requires
        i < old(entries)@.len(),
    ensures
        previous@ == entries_model(old(entries)@)[i as int].1,
        entries_model(final(entries)@) == entries_model(old(entries)@).update(
            i as int,
            (entries_model(old(entries)@)[i as int].0, value@),
        ),
{
    let entry = entries.remove(i);
    let JsonEntry { key, value: previous } = entry;
    entries.insert(i, JsonEntry { key, value });
    proof {
        assert(entries_model(final(entries)@) =~= entries_model(old(entries)@).update(
            i as int,
            (entries_model(old(entries)@)[i as int].0, value@),
        ));
    }
    previous
}

} // verus!
