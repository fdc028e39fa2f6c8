use vstd::prelude::*;

use crate::json::{
    Json, JsonModel, entries_model, get, has_key, key_index, key_position, lemma_array_model,
    lemma_key_position, lemma_object_model, number_field, replace_entry_value, update_field,
};
use crate::sorting::{
    is_stable_order, is_stable_sort_of, key_model, keys_model, lemma_stable_sorted_is_the_sort,
    stable_sort_by_keys, stable_sorted,
};

verus! {

broadcast use vstd::std_specs::vec::group_vec_axioms;

/// The sort key of one field: its integer ascending or negated for a
/// descending field, and past every integer where the field is missing.
pub open spec fn field_key(value: Option<i64>, descending: bool) -> int {
    match value {
        Some(x) => if descending {
            -x
        } else {
            x as int
        },
        None => 0x1_0000_0000_0000_0000,
    }
}

/// A list of fields to sort by, each with its direction.
pub open spec fn fields_model(fields: Seq<(&str, bool)>) -> Seq<(Seq<char>, bool)> {
    fields.map_values(|f: (&str, bool)| (f.0@, f.1))
}

/// The key by which an item is sorted on `fields`.
pub open spec fn sort_key(item: JsonModel, fields: Seq<(Seq<char>, bool)>) -> Seq<int> {
    Seq::new(fields.len(), |k: int| field_key(number_field(item, fields[k].0), fields[k].1))
}

/// `items` stably sorted on `fields`.
pub open spec fn sorted_by_fields(items: Seq<JsonModel>, fields: Seq<(Seq<char>, bool)>) -> Seq<JsonModel> {
    stable_sorted(items, items.map_values(fields_key_fn(fields)))
}

/// The key function of `sort_key` on `fields`.
pub open spec fn fields_key_fn(fields: Seq<(Seq<char>, bool)>) -> spec_fn(JsonModel) -> Seq<int> {
    |it: JsonModel| sort_key(it, fields)
}

/// `value` with the array in member `key` sorted on `fields`.
pub open spec fn sort_member(value: JsonModel, key: Seq<char>, fields: Seq<(Seq<char>, bool)>) -> JsonModel {
    update_field(value, key, sorted_array_fn(fields))
}

pub open spec fn sorted_array_fn(fields: Seq<(Seq<char>, bool)>) -> spec_fn(JsonModel) -> JsonModel {
    |v: JsonModel|
        match v {
            JsonModel::Array(items) => JsonModel::Array(sorted_by_fields(items, fields)),
            _ => v,
        }
}

/// `value` with the object in member `key` replaced by the array of its values.
pub open spec fn values_to_array(value: JsonModel, key: Seq<char>) -> JsonModel {
    update_field(value, key, object_values_fn())
}

pub open spec fn object_values_fn() -> spec_fn(JsonModel) -> JsonModel {
    |v: JsonModel|
        match v {
            JsonModel::Object(entries) => JsonModel::Array(
                entries.map_values(|e: (Seq<char>, JsonModel)| e.1),
            ),
            _ => v,
        }
}

pub open spec fn unit_rune_fields() -> Seq<(Seq<char>, bool)> {
    seq![("slot_no"@, false), ("rune_id"@, false)]
}

pub open spec fn unit_artifact_fields() -> Seq<(Seq<char>, bool)> {
    seq![("slot"@, false), ("rid"@, false)]
}

pub open spec fn rid_fields() -> Seq<(Seq<char>, bool)> {
    seq![("rid"@, false)]
}

pub open spec fn inventory_rune_fields() -> Seq<(Seq<char>, bool)> {
    seq![("set_id"@, false), ("slot_no"@, false), ("rune_id"@, false)]
}

pub open spec fn craft_fields() -> Seq<(Seq<char>, bool)> {
    seq![("craft_type"@, false), ("craft_item_id"@, false)]
}

pub open spec fn unit_order_fields() -> Seq<(Seq<char>, bool)> {
    seq![("class"@, true), ("unit_level"@, true), ("attribute"@, false), ("unit_id"@, false)]
}

/// A monster with its runes as an array ordered by slot then id, its
/// artifacts by slot then id, and its relics by id.
pub open spec fn canonical_unit(unit: JsonModel) -> JsonModel {
    let u1 = values_to_array(unit, "runes"@);
    let u2 = sort_member(u1, "runes"@, unit_rune_fields());
    let u3 = sort_member(u2, "artifacts"@, unit_artifact_fields());
    sort_member(u3, "relics"@, rid_fields())
}

/// The storage building: the last building of `buildings` whose master id is
/// 25 and that has a building id.
pub open spec fn last_storage_id(buildings: Seq<JsonModel>) -> Option<i64>
    decreases buildings.len(),
{
    if buildings.len() == 0 {
        None
    } else {
        let b = buildings.last();
        if number_field(b, "building_master_id"@) == Some(25i64) && number_field(
            b,
            "building_id"@,
        ) is Some {
            number_field(b, "building_id"@)
        } else {
            last_storage_id(buildings.drop_last())
        }
    }
}

/// The id of the profile's storage building, if it has one.
pub open spec fn profile_storage_id(profile: JsonModel) -> Option<i64> {
    match get(profile, "building_list"@) {
        Some(JsonModel::Array(buildings)) => last_storage_id(buildings),
        _ => None,
    }
}

/// Whether `unit` stands in the storage building `storage`.
pub open spec fn in_storage(unit: JsonModel, storage: Option<i64>) -> bool {
    match storage {
        Some(id) => number_field(unit, "building_id"@) == Some(id),
        None => false,
    }
}

/// The order of monsters: storage last, then class and level descending,
/// then attribute and id ascending.
pub open spec fn unit_key(unit: JsonModel, storage: Option<i64>) -> Seq<int> {
    seq![if in_storage(unit, storage) { 1int } else { 0int }] + sort_key(unit, unit_order_fields())
}

/// The monsters of a profile, each canonical, in monster order.
pub open spec fn canonical_units(units: Seq<JsonModel>, storage: Option<i64>) -> Seq<JsonModel> {
    let c = units.map_values(canonical_unit_fn());
    stable_sorted(c, c.map_values(unit_key_fn(storage)))
}

pub open spec fn canonical_unit_fn() -> spec_fn(JsonModel) -> JsonModel {
    |u: JsonModel| canonical_unit(u)
}

pub open spec fn unit_key_fn(storage: Option<i64>) -> spec_fn(JsonModel) -> Seq<int> {
    |u: JsonModel| unit_key(u, storage)
}

pub open spec fn canonical_units_fn(storage: Option<i64>) -> spec_fn(JsonModel) -> JsonModel {
    |v: JsonModel|
        match v {
            JsonModel::Array(units) => JsonModel::Array(canonical_units(units, storage)),
            _ => v,
        }
}

/// The profile in the order that the export file follows: monsters canonical
/// and ordered, inventory runes as an array ordered by set, slot and id,
/// crafts by type and id, artifacts and relics by id. Every other member is
/// left as it is.
pub open spec fn canonical_profile(profile: JsonModel) -> JsonModel {
    let p1 = update_field(profile, "unit_list"@, canonical_units_fn(profile_storage_id(profile)));
    let p2 = values_to_array(p1, "runes"@);
    let p3 = sort_member(p2, "runes"@, inventory_rune_fields());
    let p4 = sort_member(p3, "rune_craft_item_list"@, craft_fields());
    let p5 = sort_member(p4, "artifacts"@, rid_fields());
    sort_member(p5, "relics"@, rid_fields())
}

/// The models of a list of documents.
pub open spec fn models(items: Seq<Json>) -> Seq<JsonModel> {
    items.map_values(|x: Json| x@)
}

proof fn lemma_sort_models(items: Seq<Json>, keys: Seq<Seq<int>>, out: Seq<Json>)
    requires
        is_stable_sort_of(items, keys, out),
    ensures
        models(out) == stable_sorted(models(items), keys),
{
    let perm = choose|perm: Seq<int>|
        is_stable_order(keys, perm) && out == Seq::new(items.len(), |i: int| items[perm[i]]);
    assert(models(out) =~= Seq::new(models(items).len(), |i: int| models(items)[perm[i]]));
    assert(is_stable_sort_of(models(items), keys, models(out)));
    lemma_stable_sorted_is_the_sort(models(items), keys, models(out));
}

/// The sort key of `item` on `fields`.
pub fn field_sort_key(item: &Json, fields: &[(&str, bool)]) -> (key: Vec<i128>)
    ensures
        key_model(key@) == sort_key(item@, fields_model(fields@)),
{
    let mut key: Vec<i128> = Vec::new();
    let mut k: usize = 0;
    while k < fields.len()
        invariant
            k <= fields@.len(),
            key@.len() == k,
            forall|j: int|
                0 <= j < k ==> key@[j] as int == field_key(
                    number_field(item@, fields@[j].0@),
                    fields@[j].1,
                ),
        decreases fields.len() - k,
    {
        let (name, descending) = fields[k];
        let part: i128 = match item.number_field(name) {
            Some(x) => if descending {
                -(x as i128)
            } else {
                x as i128
            },
            None => 18446744073709551616i128,
        };
        key.push(part);
        k += 1;
    }
    assert(key_model(key@) =~= sort_key(item@, fields_model(fields@)));
    key
}

/// Stably sorts `items` on `fields`.
pub fn sort_by_fields(items: Vec<Json>, fields: &[(&str, bool)]) -> (out: Vec<Json>)
    ensures
        models(out@) == sorted_by_fields(models(items@), fields_model(fields@)),
{
    let mut keys: Vec<Vec<i128>> = Vec::new();
    let mut i: usize = 0;
    while i < items.len()
        invariant
            i <= items.len(),
            keys@.len() == i,
            forall|j: int|
                0 <= j < i ==> key_model(#[trigger] keys@[j]@) == sort_key(
                    items@[j]@,
                    fields_model(fields@),
                ),
        decreases items.len() - i,
    {
        let k = field_sort_key(&items[i], fields);
        keys.push(k);
        i += 1;
    }
    let ghost input = items@;
    let ghost km = keys_model(keys@);
    assert(km =~= models(input).map_values(fields_key_fn(fields_model(fields@))));
    let out = stable_sort_by_keys(items, keys);
    proof {
        lemma_sort_models(input, km, out@);
    }
    out
}

/// Takes the value of member `key` out of an object, leaving `null` in its
/// place; any other value comes back unchanged.
fn take_member(value: Json, key: &str) -> (r: (Json, Option<(usize, Json)>))
    ensures
        match value@ {
            JsonModel::Object(entries) => if has_key(entries, key@) {
                let i = key_position(entries, key@);
                &&& 0 <= i < entries.len()
                &&& r.1 matches Some((j, v)) && j == i && v@ == entries[i].1
                &&& r.0@ == JsonModel::Object(entries.update(i, (key@, JsonModel::Null)))
            } else {
                r.1 is None && r.0@ == value@
            },
            _ => r.1 is None && r.0@ == value@,
        },
        r.0 is Object <==> value is Object,
{
    match value {
        Json::Object(mut entries) => {
            proof {
                lemma_object_model(entries);
            }
            match key_index(&entries, key) {
                Some(i) => {
                    let previous = replace_entry_value(&mut entries, i, Json::Null);
                    proof {
                        lemma_object_model(entries);
                    }
                    (Json::Object(entries), Some((i, previous)))
                },
                None => (Json::Object(entries), None),
            }
        },
        other => (other, None),
    }
}

/// Puts `member` back as the value of member `i` of an object.
fn put_member(value: Json, i: usize, member: Json) -> (r: Json)
    requires
        value@ matches JsonModel::Object(entries) && i < entries.len(),
    ensures
        r@ == match value@ {
            JsonModel::Object(entries) => JsonModel::Object(
                entries.update(i as int, (entries[i as int].0, member@)),
            ),
            _ => value@,
        },
{
    match value {
        Json::Object(mut entries) => {
            proof {
                lemma_object_model(entries);
            }
            let _ = replace_entry_value(&mut entries, i, member);
            proof {
                lemma_object_model(entries);
            }
            Json::Object(entries)
        },
        other => other,
    }
}

proof fn lemma_take_put(entries: Seq<(Seq<char>, JsonModel)>, key: Seq<char>, f: spec_fn(JsonModel) -> JsonModel, i: int)
    requires
        has_key(entries, key),
        i == key_position(entries, key),
        0 <= i < entries.len(),
    ensures
        JsonModel::Object(
            entries.update(i, (key, JsonModel::Null)).update(i, (entries.update(i, (key, JsonModel::Null))[i].0, f(entries[i].1))),
        ) == update_field(JsonModel::Object(entries), key, f),
{
    lemma_key_position(entries, key);
    assert(entries.update(i, (key, JsonModel::Null)).update(i, (key, f(entries[i].1))) =~= entries.update(i, (key, f(entries[i].1))));
}

/// `Value::sort_by` on the array in member `field`, ordered on `fields`.
pub fn sort_array_by_fields(value: Json, field: &str, fields: &[(&str, bool)]) -> (r: Json)
    ensures
        r@ == sort_member(value@, field@, fields_model(fields@)),
{
    let ghost before = value@;
    let (rest, taken) = take_member(value, field);
    match taken {
        Some((i, member)) => {
            let sorted = match member {
                Json::Array(items) => {
                    proof {
                        lemma_array_model(items);
                    }
                    let out = sort_by_fields(items, fields);
                    proof {
                        lemma_array_model(out);
                    }
                    Json::Array(out)
                },
                other => other,
            };
            let r = put_member(rest, i, sorted);
            proof {
                if let JsonModel::Object(entries) = before {
                    lemma_take_put(entries, field@, sorted_array_fn(fields_model(fields@)), i as int);
                }
            }
            r
        },
        None => rest,
    }
}

/// Replaces the object in member `field` by the array of its values, in order.
pub fn object_values_to_array(value: Json, field: &str) -> (r: Json)
    ensures
        r@ == values_to_array(value@, field@),
{
    let ghost before = value@;
    let (rest, taken) = take_member(value, field);
    match taken {
        Some((i, member)) => {
            let converted = match member {
                Json::Object(entries) => {
                    proof {
                        lemma_object_model(entries);
                    }
                    let mut values: Vec<Json> = Vec::new();
                    let mut entries = entries;
                    let ghost all = entries_model(entries@);
                    let n = entries.len();
                    let mut k: usize = 0;
                    while k < n
                        invariant
                            k <= n,
                            all.len() == n,
                            entries_model(entries@) == all.skip(k as int),
                            entries@.len() == n - k,
                            values@.len() == k,
                            models(values@) == all.take(k as int).map_values(
                                |e: (Seq<char>, JsonModel)| e.1,
                            ),
                        decreases n - k,
                    {
                        let ghost before_remove = entries@;
                        let e = entries.remove(0);
                        proof {
                            assert(entries_model(before_remove)[0] == all[k as int]);
                            assert forall|j: int| 0 <= j < entries@.len() implies entries_model(entries@)[j] == all.skip(k + 1)[j] by {
                                assert(entries@[j] == before_remove[j + 1]);
                                assert(entries_model(before_remove)[j + 1] == all.skip(k as int)[j + 1]);
                            }
                            assert(entries_model(entries@) =~= all.skip(k + 1));
                        }
                        let ghost old_values = values@;
                        assert(e.value@ == all[k as int].1) by {
                            assert(e == before_remove[0]);
                        }
                        values.push(e.value);
                        k += 1;
                        proof {
                            assert forall|j: int| 0 <= j < k implies models(values@)[j] == all.take(k as int).map_values(|e: (Seq<char>, JsonModel)| e.1)[j] by {
                                if j < k - 1 {
                                    assert(values@[j] == old_values[j]);
                                    assert(models(old_values)[j] == all.take(k - 1).map_values(|e: (Seq<char>, JsonModel)| e.1)[j]);
                                }
                            }
                            assert(models(values@) =~= all.take(k as int).map_values(
                                |e: (Seq<char>, JsonModel)| e.1,
                            ));
                        }
                    }
                    proof {
                        assert(all.take(n as int) =~= all);
                        lemma_array_model(values);
                    }
                    Json::Array(values)
                },
                other => other,
            };
            let r = put_member(rest, i, converted);
            proof {
                if let JsonModel::Object(entries) = before {
                    lemma_take_put(entries, field@, object_values_fn(), i as int);
                }
            }
            r
        },
        None => rest,
    }
}

fn unit_rune_order() -> (r: Vec<(&'static str, bool)>)
    ensures
        fields_model(r@) == unit_rune_fields(),
{
    let r = vec![("slot_no", false), ("rune_id", false)];
    assert(fields_model(r@) =~= unit_rune_fields());
    r
}

fn unit_artifact_order() -> (r: Vec<(&'static str, bool)>)
    ensures
        fields_model(r@) == unit_artifact_fields(),
{
    let r = vec![("slot", false), ("rid", false)];
    assert(fields_model(r@) =~= unit_artifact_fields());
    r
}

fn rid_order() -> (r: Vec<(&'static str, bool)>)
    ensures
        fields_model(r@) == rid_fields(),
{
    let r = vec![("rid", false)];
    assert(fields_model(r@) =~= rid_fields());
    r
}

fn inventory_rune_order() -> (r: Vec<(&'static str, bool)>)
    ensures
        fields_model(r@) == inventory_rune_fields(),
{
    let r = vec![("set_id", false), ("slot_no", false), ("rune_id", false)];
    assert(fields_model(r@) =~= inventory_rune_fields());
    r
}

fn craft_order() -> (r: Vec<(&'static str, bool)>)
    ensures
        fields_model(r@) == craft_fields(),
{
    let r = vec![("craft_type", false), ("craft_item_id", false)];
    assert(fields_model(r@) =~= craft_fields());
    r
}

fn unit_order() -> (r: Vec<(&'static str, bool)>)
    ensures
        fields_model(r@) == unit_order_fields(),
{
    let r = vec![("class", true), ("unit_level", true), ("attribute", false), ("unit_id", false)];
    assert(fields_model(r@) =~= unit_order_fields());
    r
}

/// The id of the profile's storage building: the last building whose master
/// id is 25 and that has a building id.
pub fn storage_building_id(profile: &Json) -> (r: Option<i64>)
    ensures
        r == profile_storage_id(profile@),
{
    match profile.get("building_list") {
        Some(Json::Array(buildings)) => {
            proof {
                lemma_array_model(*buildings);
            }
            let ghost all = models(buildings@);
            assert(profile_storage_id(profile@) == last_storage_id(all));
            let mut i = buildings.len();
            assert(all.take(i as int) =~= all);
            while i > 0
                invariant
                    i <= buildings@.len(),
                    all == models(buildings@),
                    profile_storage_id(profile@) == last_storage_id(all),
                    last_storage_id(all) == last_storage_id(all.take(i as int)),
                decreases i,
            {
                let b = &buildings[i - 1];
                assert(all.take(i as int).last() == b@);
                assert(all.take(i as int).drop_last() =~= all.take(i - 1));
                let master = b.number_field("building_master_id");
                let id = b.number_field("building_id");
                if master == Some(25i64) && id.is_some() {
                    assert(last_storage_id(all.take(i as int)) == id);
                    return id;
                }
                i -= 1;
            }
            None
        },
        _ => None,
    }
}

/// The order key of a monster: in storage or not, then class, level,
/// attribute and id.
pub fn unit_sort_key(unit: &Json, storage: Option<i64>) -> (key: Vec<i128>)
    ensures
        key_model(key@) == unit_key(unit@, storage),
{
    let stored = match storage {
        Some(id) => unit.number_field("building_id") == Some(id),
        None => false,
    };
    let order = unit_order();
    let rest = field_sort_key(unit, order.as_slice());
    let mut key: Vec<i128> = Vec::new();
    key.push(if stored { 1i128 } else { 0i128 });
    let mut k: usize = 0;
    while k < rest.len()
        invariant
            k <= rest@.len(),
            key@.len() == k + 1,
            key@[0] as int == (if stored { 1int } else { 0int }),
            forall|j: int| 0 <= j < k ==> key@[j + 1] == rest@[j],
        decreases rest.len() - k,
    {
        key.push(rest[k]);
        k += 1;
    }
    assert(key_model(key@) =~= seq![if stored { 1int } else { 0int }] + key_model(rest@));
    key
}

/// A monster with its runes as an array ordered by slot then id, its
/// artifacts by slot then id, and its relics by id.
pub fn canonicalize_unit(unit: Json) -> (r: Json)
    ensures
        r@ == canonical_unit(unit@),
{
    let u = object_values_to_array(unit, "runes");
    let u = sort_array_by_fields(u, "runes", unit_rune_order().as_slice());
    let u = sort_array_by_fields(u, "artifacts", unit_artifact_order().as_slice());
    sort_array_by_fields(u, "relics", rid_order().as_slice())
}

/// The monsters of a profile, each canonical, in monster order.
pub fn canonicalize_units(units: Vec<Json>, storage: Option<i64>) -> (r: Vec<Json>)
    ensures
        models(r@) == canonical_units(models(units@), storage),
{
    let ghost input = models(units@);
    let n = units.len();
    let mut units = units;
    let mut canonical: Vec<Json> = Vec::new();
    let mut keys: Vec<Vec<i128>> = Vec::new();
    let mut k: usize = 0;
    while k < n
        invariant
            k <= n,
            input.len() == n,
            units@.len() == n - k,
            forall|j: int| 0 <= j < n - k ==> units@[j]@ == input[j + k],
            canonical@.len() == k,
            keys@.len() == k,
            forall|j: int| 0 <= j < k ==> canonical@[j]@ == canonical_unit(input[j]),
            forall|j: int| 0 <= j < k ==> key_model(#[trigger] keys@[j]@) == unit_key(canonical_unit(input[j]), storage),
        decreases n - k,
    {
        let ghost before = units@;
        let u = units.remove(0);
        assert(u@ == input[k as int]) by {
            assert(before[0]@ == input[k as int]);
        }
        let c = canonicalize_unit(u);
        let key = unit_sort_key(&c, storage);
        canonical.push(c);
        keys.push(key);
        k += 1;
        proof {
            assert forall|j: int| 0 <= j < n - k implies units@[j]@ == input[j + k] by {
                assert(units@[j] == before[j + 1]);
            }
        }
    }
    let ghost cm = models(canonical@);
    let ghost km = keys_model(keys@);
    assert(cm =~= input.map_values(canonical_unit_fn()));
    assert(km =~= cm.map_values(unit_key_fn(storage)));
    let out = stable_sort_by_keys(canonical, keys);
    proof {
        lemma_sort_models(canonical@, km, out@);
    }
    out
}

/// Puts a copy of a captured profile in the order that the export file
/// follows; see `canonical_profile`.
pub fn canonicalize_profile(profile: &mut Json)
    ensures
        final(profile)@ == canonical_profile(old(profile)@),
{
    let mut p = Json::Null;
    std::mem::swap(&mut p, profile);
    let ghost initial = p@;
    let storage = storage_building_id(&p);
    let (rest, taken) = take_member(p, "unit_list");
    let p1 = match taken {
        Some((i, member)) => {
            let converted = match member {
                Json::Array(units) => {
                    proof {
                        lemma_array_model(units);
                    }
                    let out = canonicalize_units(units, storage);
                    proof {
                        lemma_array_model(out);
                    }
                    Json::Array(out)
                },
                other => other,
            };
            let r = put_member(rest, i, converted);
            proof {
                if let JsonModel::Object(entries) = initial {
                    lemma_take_put(entries, "unit_list"@, canonical_units_fn(storage), i as int);
                }
            }
            r
        },
        None => rest,
    };
    let p2 = object_values_to_array(p1, "runes");
    let p3 = sort_array_by_fields(p2, "runes", inventory_rune_order().as_slice());
    let p4 = sort_array_by_fields(p3, "rune_craft_item_list", craft_order().as_slice());
    let p5 = sort_array_by_fields(p4, "artifacts", rid_order().as_slice());
    let p6 = sort_array_by_fields(p5, "relics", rid_order().as_slice());
    *profile = p6;
}

} // verus!
