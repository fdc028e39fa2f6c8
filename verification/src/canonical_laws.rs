use vstd::prelude::*;

use crate::canonical::{
    canonical_profile, field_key, in_storage, values_to_array, sort_member, sort_key, unit_key, unit_order_fields, canonical_unit, canonical_unit_fn, canonical_units, canonical_units_fn,
    craft_fields, fields_key_fn, inventory_rune_fields, object_values_fn, profile_storage_id,
    rid_fields, sorted_array_fn, sorted_by_fields, unit_artifact_fields,
    unit_key_fn, unit_rune_fields,
};
use crate::json::{
    JsonModel, get, number_field, has_key, key_position, lemma_key_position, lemma_get_after_update, lemma_update_commute, lemma_update_compose,
    update_field,
};
use crate::sorting::{
    is_rearrangement, lex_lt, placed_before, lemma_sort_by_fn_idempotent, lemma_sort_ignores_input_order,
    lemma_stable_sorted_items, lemma_stable_sorted_rearranges,
};

verus! {

/// `value` after updating the members `keys[0]`, `keys[1]`, ... in turn by
/// `fns[0]`, `fns[1]`, ...
pub open spec fn apply_updates(
    value: JsonModel,
    keys: Seq<Seq<char>>,
    fns: Seq<spec_fn(JsonModel) -> JsonModel>,
) -> JsonModel
    decreases keys.len(),
{
    if keys.len() == 0 || fns.len() == 0 {
        value
    } else {
        update_field(apply_updates(value, keys.drop_last(), fns.drop_last()), keys.last(), fns.last())
    }
}

pub open spec fn distinct_keys(keys: Seq<Seq<char>>) -> bool {
    forall|i: int, j: int| 0 <= i < keys.len() && 0 <= j < keys.len() && i != j ==> keys[i] != keys[j]
}

proof fn lemma_update_past(
    value: JsonModel,
    keys: Seq<Seq<char>>,
    fns: Seq<spec_fn(JsonModel) -> JsonModel>,
    key: Seq<char>,
    g: spec_fn(JsonModel) -> JsonModel,
)
    requires
        keys.len() == fns.len(),
        !keys.contains(key),
    ensures
        update_field(apply_updates(value, keys, fns), key, g) == apply_updates(
            update_field(value, key, g),
            keys,
            fns,
        ),
    decreases keys.len(),
{
    if keys.len() > 0 {
        let ks = keys.drop_last();
        let fs = fns.drop_last();
        assert(!ks.contains(key)) by {
            if ks.contains(key) {
                let i = choose|i: int| 0 <= i < ks.len() && ks[i] == key;
                assert(keys[i] == key);
            }
        }
        assert(keys.last() != key) by {
            if keys.last() == key {
                assert(keys[keys.len() - 1] == key);
            }
        }
        lemma_update_past(value, ks, fs, key, g);
        lemma_update_commute(apply_updates(value, ks, fs), keys.last(), fns.last(), key, g);
    }
}

proof fn lemma_get_past_updates(
    value: JsonModel,
    keys: Seq<Seq<char>>,
    fns: Seq<spec_fn(JsonModel) -> JsonModel>,
    key: Seq<char>,
)
    requires
        keys.len() == fns.len(),
        !keys.contains(key),
    ensures
        get(apply_updates(value, keys, fns), key) == get(value, key),
    decreases keys.len(),
{
    if keys.len() > 0 {
        let ks = keys.drop_last();
        assert(!ks.contains(key)) by {
            if ks.contains(key) {
                let i = choose|i: int| 0 <= i < ks.len() && ks[i] == key;
                assert(keys[i] == key);
            }
        }
        assert(keys.last() != key) by {
            if keys.last() == key {
                assert(keys[keys.len() - 1] == key);
            }
        }
        lemma_get_past_updates(value, ks, fns.drop_last(), key);
        lemma_get_after_update(apply_updates(value, ks, fns.drop_last()), keys.last(), fns.last(), key);
    }
}

/// Applying the same idempotent updates of distinct members twice is applying them once.
proof fn lemma_updates_twice(value: JsonModel, keys: Seq<Seq<char>>, fns: Seq<spec_fn(JsonModel) -> JsonModel>)
    requires
        keys.len() == fns.len(),
        distinct_keys(keys),
        forall|i: int, x: JsonModel| #![trigger fns[i](x)] 0 <= i < fns.len() ==> fns[i](fns[i](x)) == fns[i](x),
    ensures
        apply_updates(apply_updates(value, keys, fns), keys, fns) == apply_updates(value, keys, fns),
    decreases keys.len(),
{
    if keys.len() > 0 {
        let ks = keys.drop_last();
        let fs = fns.drop_last();
        let k = keys.last();
        let f = fns.last();
        assert(distinct_keys(ks));
        assert forall|i: int, x: JsonModel| #![trigger fs[i](x)] 0 <= i < fs.len() implies fs[i](fs[i](x)) == fs[i](x) by {
            assert(fs[i] == fns[i]);
        }
        assert(!ks.contains(k)) by {
            if ks.contains(k) {
                let i = choose|i: int| 0 <= i < ks.len() && ks[i] == k;
                assert(keys[i] == keys[keys.len() - 1]);
            }
        }
        let w = apply_updates(value, ks, fs);
        lemma_update_past(update_field(w, k, f), ks, fs, k, f);
        lemma_update_past(w, ks, fs, k, f);
        lemma_updates_twice(value, ks, fs);
        assert forall|x: JsonModel| #[trigger] f(x) == f(f(x)) by {
            assert(fns[fns.len() - 1] == f);
        }
        lemma_update_compose(apply_updates(w, ks, fs), k, f, f, f);
    }
}

proof fn lemma_sorted_array_idempotent(fields: Seq<(Seq<char>, bool)>)
    ensures
        forall|x: JsonModel| #[trigger] sorted_array_fn(fields)(sorted_array_fn(fields)(x)) == sorted_array_fn(fields)(x),
{
    assert forall|x: JsonModel| #[trigger] sorted_array_fn(fields)(sorted_array_fn(fields)(x)) == sorted_array_fn(fields)(x) by {
        if let JsonModel::Array(items) = x {
            lemma_sort_by_fn_idempotent(items, fields_key_fn(fields));
        }
    }
}

/// Runes as an array of their values, ordered on `fields`.
pub open spec fn rune_list_fn(fields: Seq<(Seq<char>, bool)>) -> spec_fn(JsonModel) -> JsonModel {
    |x: JsonModel| sorted_array_fn(fields)(object_values_fn()(x))
}

proof fn lemma_rune_list_idempotent(fields: Seq<(Seq<char>, bool)>)
    ensures
        forall|x: JsonModel| #[trigger] rune_list_fn(fields)(rune_list_fn(fields)(x)) == rune_list_fn(fields)(x),
{
    lemma_sorted_array_idempotent(fields);
    assert forall|x: JsonModel| #[trigger] rune_list_fn(fields)(rune_list_fn(fields)(x)) == rune_list_fn(fields)(x) by {
        let y = object_values_fn()(x);
        assert(!(y is Object));
        let z = sorted_array_fn(fields)(y);
        assert(!(z is Object));
        assert(object_values_fn()(z) == z);
    }
}

proof fn lemma_literal_keys()
    ensures
        "runes"@ != "artifacts"@,
        "runes"@ != "relics"@,
        "artifacts"@ != "relics"@,
        "unit_list"@ != "runes"@,
        "unit_list"@ != "rune_craft_item_list"@,
        "unit_list"@ != "artifacts"@,
        "unit_list"@ != "relics"@,
        "runes"@ != "rune_craft_item_list"@,
        "rune_craft_item_list"@ != "artifacts"@,
        "rune_craft_item_list"@ != "relics"@,
        "building_list"@ != "unit_list"@,
        "building_list"@ != "runes"@,
        "building_list"@ != "rune_craft_item_list"@,
        "building_list"@ != "artifacts"@,
        "building_list"@ != "relics"@,
{
    reveal_strlit("runes");
    reveal_strlit("artifacts");
    reveal_strlit("relics");
    reveal_strlit("unit_list");
    reveal_strlit("rune_craft_item_list");
    reveal_strlit("building_list");
    assert("runes"@[0] != "artifacts"@[0]);
    assert("runes"@.len() != "relics"@.len());
    assert("artifacts"@[0] != "relics"@[0]);
    assert("unit_list"@[0] != "runes"@[0]);
    assert("unit_list"@[0] != "rune_craft_item_list"@[0]);
    assert("unit_list"@[0] != "artifacts"@[0]);
    assert("unit_list"@[0] != "relics"@[0]);
    assert("runes"@.len() != "rune_craft_item_list"@.len());
    assert("rune_craft_item_list"@[0] != "artifacts"@[0]);
    assert("rune_craft_item_list"@.len() != "relics"@.len());
    assert("building_list"@[0] != "unit_list"@[0]);
    assert("building_list"@[0] != "runes"@[0]);
    assert("building_list"@[0] != "rune_craft_item_list"@[0]);
    assert("building_list"@[0] != "artifacts"@[0]);
    assert("building_list"@[0] != "relics"@[0]);
}

pub open spec fn unit_update_keys() -> Seq<Seq<char>> {
    seq!["runes"@, "artifacts"@, "relics"@]
}

pub open spec fn unit_update_fns() -> Seq<spec_fn(JsonModel) -> JsonModel> {
    seq![
        rune_list_fn(unit_rune_fields()),
        sorted_array_fn(unit_artifact_fields()),
        sorted_array_fn(rid_fields()),
    ]
}

proof fn lemma_unit_as_updates(unit: JsonModel)
    ensures
        canonical_unit(unit) == apply_updates(unit, unit_update_keys(), unit_update_fns()),
{
    let ks = unit_update_keys();
    let fs = unit_update_fns();
    reveal_with_fuel(apply_updates, 4);
    lemma_update_compose(
        unit,
        "runes"@,
        object_values_fn(),
        sorted_array_fn(unit_rune_fields()),
        rune_list_fn(unit_rune_fields()),
    );
    assert(ks.drop_last().drop_last().drop_last() =~= Seq::<Seq<char>>::empty());
    assert(ks.drop_last().drop_last() =~= seq!["runes"@]);
    assert(ks.drop_last() =~= seq!["runes"@, "artifacts"@]);
    assert(fs.drop_last().drop_last() =~= seq![rune_list_fn(unit_rune_fields())]);
    assert(fs.drop_last() =~= seq![
        rune_list_fn(unit_rune_fields()),
        sorted_array_fn(unit_artifact_fields()),
    ]);
}

/// Putting a monster in canonical form twice is doing it once.
pub proof fn lemma_canonical_unit_idempotent(unit: JsonModel)
    ensures
        canonical_unit(canonical_unit(unit)) == canonical_unit(unit),
{
    let ks = unit_update_keys();
    let fs = unit_update_fns();
    lemma_literal_keys();
    lemma_unit_as_updates(unit);
    lemma_unit_as_updates(canonical_unit(unit));
    lemma_rune_list_idempotent(unit_rune_fields());
    lemma_sorted_array_idempotent(unit_artifact_fields());
    lemma_sorted_array_idempotent(rid_fields());
    assert(distinct_keys(ks));
    assert forall|i: int, x: JsonModel| #![trigger fs[i](x)] 0 <= i < fs.len() implies fs[i](fs[i](x)) == fs[i](x) by {
        if i == 0 {
        } else if i == 1 {
        } else {
        }
    }
    lemma_updates_twice(unit, ks, fs);
}

/// Canonicalising the monster list twice is doing it once.
proof fn lemma_canonical_units_idempotent(units: Seq<JsonModel>, storage: Option<i64>)
    ensures
        canonical_units(canonical_units(units, storage), storage) == canonical_units(units, storage),
{
    let c = units.map_values(canonical_unit_fn());
    let keys = c.map_values(unit_key_fn(storage));
    let once = canonical_units(units, storage);
    let perm = lemma_stable_sorted_items(c, keys);
    let c2 = once.map_values(canonical_unit_fn());
    assert forall|i: int| 0 <= i < once.len() implies c2[i] == once[i] by {
        assert(once[i] == c[perm[i]]);
        lemma_canonical_unit_idempotent(units[perm[i]]);
    }
    assert(c2 =~= once);
    lemma_sort_by_fn_idempotent(c, unit_key_fn(storage));
}

proof fn lemma_units_fn_idempotent(storage: Option<i64>)
    ensures
        forall|x: JsonModel| #[trigger] canonical_units_fn(storage)(canonical_units_fn(storage)(x)) == canonical_units_fn(storage)(x),
{
    assert forall|x: JsonModel| #[trigger] canonical_units_fn(storage)(canonical_units_fn(storage)(x)) == canonical_units_fn(storage)(x) by {
        if let JsonModel::Array(units) = x {
            lemma_canonical_units_idempotent(units, storage);
        }
    }
}

pub open spec fn profile_update_keys() -> Seq<Seq<char>> {
    seq!["unit_list"@, "runes"@, "rune_craft_item_list"@, "artifacts"@, "relics"@]
}

pub open spec fn profile_update_fns(storage: Option<i64>) -> Seq<spec_fn(JsonModel) -> JsonModel> {
    seq![
        canonical_units_fn(storage),
        rune_list_fn(inventory_rune_fields()),
        sorted_array_fn(craft_fields()),
        sorted_array_fn(rid_fields()),
        sorted_array_fn(rid_fields()),
    ]
}

proof fn lemma_profile_as_updates(profile: JsonModel)
    ensures
        canonical_profile(profile) == apply_updates(
            profile,
            profile_update_keys(),
            profile_update_fns(profile_storage_id(profile)),
        ),
{
    let s = profile_storage_id(profile);
    let ks = profile_update_keys();
    let fs = profile_update_fns(s);
    let p1 = update_field(profile, "unit_list"@, canonical_units_fn(s));
    reveal_with_fuel(apply_updates, 6);
    lemma_update_compose(
        p1,
        "runes"@,
        object_values_fn(),
        sorted_array_fn(inventory_rune_fields()),
        rune_list_fn(inventory_rune_fields()),
    );
    assert(ks.drop_last().drop_last().drop_last().drop_last().drop_last() =~= Seq::<Seq<char>>::empty());
    assert(ks.drop_last().drop_last().drop_last().drop_last() =~= seq!["unit_list"@]);
    assert(ks.drop_last().drop_last().drop_last() =~= seq!["unit_list"@, "runes"@]);
    assert(ks.drop_last().drop_last() =~= seq!["unit_list"@, "runes"@, "rune_craft_item_list"@]);
    assert(ks.drop_last() =~= seq!["unit_list"@, "runes"@, "rune_craft_item_list"@, "artifacts"@]);
    assert(fs.drop_last().drop_last().drop_last().drop_last() =~= seq![canonical_units_fn(s)]);
    assert(fs.drop_last().drop_last().drop_last() =~= seq![
        canonical_units_fn(s),
        rune_list_fn(inventory_rune_fields()),
    ]);
    assert(fs.drop_last().drop_last() =~= seq![
        canonical_units_fn(s),
        rune_list_fn(inventory_rune_fields()),
        sorted_array_fn(craft_fields()),
    ]);
    assert(fs.drop_last() =~= seq![
        canonical_units_fn(s),
        rune_list_fn(inventory_rune_fields()),
        sorted_array_fn(craft_fields()),
        sorted_array_fn(rid_fields()),
    ]);
}

/// Canonicalising a monster changes none of its members but its runes,
/// artifacts and relics: its skills and every other member keep their order.
pub proof fn lemma_canonical_unit_keeps_other_members(unit: JsonModel, key: Seq<char>)
    requires
        !unit_update_keys().contains(key),
    ensures
        get(canonical_unit(unit), key) == get(unit, key),
{
    lemma_unit_as_updates(unit);
    lemma_get_past_updates(unit, unit_update_keys(), unit_update_fns(), key);
}

/// Canonicalisation changes no member of the profile but the monster list,
/// the inventory runes, the rune crafts, the artifacts and the relics: lists
/// whose order the game gives (decks, skills, substats) keep it.
pub proof fn lemma_canonical_keeps_other_members(profile: JsonModel, key: Seq<char>)
    requires
        !profile_update_keys().contains(key),
    ensures
        get(canonical_profile(profile), key) == get(profile, key),
{
    lemma_profile_as_updates(profile);
    lemma_get_past_updates(profile, profile_update_keys(), profile_update_fns(profile_storage_id(profile)), key);
}

/// Canonicalising a profile twice gives the same document as doing it once.
pub proof fn lemma_canonical_profile_idempotent(profile: JsonModel)
    ensures
        canonical_profile(canonical_profile(profile)) == canonical_profile(profile),
{
    let s = profile_storage_id(profile);
    let ks = profile_update_keys();
    let fs = profile_update_fns(s);
    lemma_literal_keys();
    lemma_profile_as_updates(profile);
    let once = canonical_profile(profile);
    assert(!ks.contains("building_list"@)) by {
        if ks.contains("building_list"@) {
            let i = choose|i: int| 0 <= i < ks.len() && ks[i] == "building_list"@;
            assert(i == 0 || i == 1 || i == 2 || i == 3 || i == 4);
        }
    }
    lemma_get_past_updates(profile, ks, fs, "building_list"@);
    assert(profile_storage_id(once) == s);
    lemma_profile_as_updates(once);
    lemma_units_fn_idempotent(s);
    lemma_rune_list_idempotent(inventory_rune_fields());
    lemma_sorted_array_idempotent(craft_fields());
    lemma_sorted_array_idempotent(rid_fields());
    assert(distinct_keys(ks));
    assert forall|i: int, x: JsonModel| #![trigger fs[i](x)] 0 <= i < fs.len() implies fs[i](fs[i](x)) == fs[i](x) by {
        if i == 0 {
        } else if i == 1 {
        } else if i == 2 {
        } else if i == 3 {
        } else {
        }
    }
    lemma_updates_twice(profile, ks, fs);
}

/// Sorting on fields only rearranges: the sorted list holds exactly the items
/// it was given, each once.
pub proof fn lemma_sort_keeps_items(items: Seq<JsonModel>, fields: Seq<(Seq<char>, bool)>) -> (perm: Seq<int>)
    ensures
        is_rearrangement(items, sorted_by_fields(items, fields), perm),
{
    lemma_stable_sorted_rearranges(items, items.map_values(fields_key_fn(fields)))
}

/// Two lists that hold the same items in different orders sort to the same
/// list, when no two items agree on all the sort fields.
pub proof fn lemma_sort_ignores_received_order(
    a: Seq<JsonModel>,
    b: Seq<JsonModel>,
    q: Seq<int>,
    fields: Seq<(Seq<char>, bool)>,
)
    requires
        is_rearrangement(a, b, q),
        forall|i: int, j: int|
            0 <= i < a.len() && 0 <= j < a.len() && i != j ==> (fields_key_fn(fields))(#[trigger] a[i])
                != (fields_key_fn(fields))(#[trigger] a[j]),
    ensures
        sorted_by_fields(a, fields) == sorted_by_fields(b, fields),
{
    lemma_sort_ignores_input_order(a, b, q, fields_key_fn(fields));
}

/// `value` with the member `key`, where it has one, holding `member`.
pub open spec fn with_member(value: JsonModel, key: Seq<char>, member: JsonModel) -> JsonModel {
    update_field(value, key, |_x: JsonModel| member)
}

/// The key by which the export orders an item of the list in member `key` of
/// `profile`.
pub open spec fn export_order_key(profile: JsonModel, key: Seq<char>, item: JsonModel) -> Seq<int> {
    if key == "unit_list"@ {
        unit_key(item, profile_storage_id(profile))
    } else if key == "runes"@ {
        sort_key(item, inventory_rune_fields())
    } else if key == "rune_craft_item_list"@ {
        sort_key(item, craft_fields())
    } else {
        sort_key(item, rid_fields())
    }
}

/// Two updates that agree on the member's value give the same document.
proof fn lemma_update_agree(value: JsonModel, key: Seq<char>, f: spec_fn(JsonModel) -> JsonModel, g: spec_fn(JsonModel) -> JsonModel)
    requires
        forall|x: JsonModel| get(value, key) == Some(x) ==> f(x) == g(x),
    ensures
        update_field(value, key, f) == update_field(value, key, g),
{
    if let JsonModel::Object(es) = value {
        if has_key(es, key) {
            lemma_key_position(es, key);
            let i = key_position(es, key);
            assert(get(value, key) == Some(es[i].1));
            assert(f(es[i].1) == g(es[i].1));
        }
    }
}

/// Updating along a list of members is updating along a prefix of it, then
/// along the rest.
proof fn lemma_apply_updates_split(
    value: JsonModel,
    keys: Seq<Seq<char>>,
    fns: Seq<spec_fn(JsonModel) -> JsonModel>,
    n: int,
)
    requires
        keys.len() == fns.len(),
        0 <= n <= keys.len(),
    ensures
        apply_updates(value, keys, fns) == apply_updates(
            apply_updates(value, keys.take(n), fns.take(n)),
            keys.skip(n),
            fns.skip(n),
        ),
    decreases keys.len(),
{
    if n == keys.len() {
        assert(keys.take(n) =~= keys);
        assert(fns.take(n) =~= fns);
        assert(keys.skip(n).len() == 0);
    } else {
        let ks = keys.drop_last();
        let fs = fns.drop_last();
        lemma_apply_updates_split(value, ks, fs, n);
        assert(ks.take(n) =~= keys.take(n));
        assert(fs.take(n) =~= fns.take(n));
        assert(keys.skip(n).drop_last() =~= ks.skip(n));
        assert(fns.skip(n).drop_last() =~= fs.skip(n));
        assert(keys.skip(n).last() == keys.last());
        assert(fns.skip(n).last() == fns.last());
    }
}

/// The update of the export at one of its lists gives the same member for
/// two orders of the same items, when no two items share their order key.
proof fn lemma_list_update_ignores_order(
    profile: JsonModel,
    i: int,
    items: Seq<JsonModel>,
    reordered: Seq<JsonModel>,
    q: Seq<int>,
)
    requires
        0 <= i < 5,
        is_rearrangement(items, reordered, q),
        forall|a: int, b: int|
            0 <= a < items.len() && 0 <= b < items.len() && a != b ==> export_order_key(
                profile,
                profile_update_keys()[i],
                #[trigger] items[a],
            ) != export_order_key(profile, profile_update_keys()[i], #[trigger] items[b]),
    ensures
        profile_update_fns(profile_storage_id(profile))[i](JsonModel::Array(reordered))
            == profile_update_fns(profile_storage_id(profile))[i](JsonModel::Array(items)),
{
    let s = profile_storage_id(profile);
    let k = profile_update_keys()[i];
    lemma_literal_keys();
    if i == 0 {
        assert(k == "unit_list"@);
        let ca = items.map_values(canonical_unit_fn());
        let cb = reordered.map_values(canonical_unit_fn());
        assert(is_rearrangement(ca, cb, q)) by {
            assert forall|x: int| 0 <= x < cb.len() implies cb[x] == ca[#[trigger] q[x]] by {
                assert(reordered[x] == items[q[x]]);
            }
        }
        reveal_strlit("runes");
        reveal_strlit("artifacts");
        reveal_strlit("relics");
        reveal_strlit("building_id");
        reveal_strlit("class");
        reveal_strlit("unit_level");
        reveal_strlit("attribute");
        reveal_strlit("unit_id");
        assert forall|a: int, b: int| 0 <= a < ca.len() && 0 <= b < ca.len() && a != b implies (unit_key_fn(s))(#[trigger] ca[a])
            != (unit_key_fn(s))(#[trigger] ca[b]) by {
            lemma_unit_key_of_canonical(items[a], s);
            lemma_unit_key_of_canonical(items[b], s);
            assert(export_order_key(profile, k, items[a]) != export_order_key(profile, k, items[b]));
        }
        lemma_sort_ignores_input_order(ca, cb, q, unit_key_fn(s));
    } else if i == 1 {
        assert(k == "runes"@);
        assert(k != "unit_list"@);
        lemma_sort_ignores_received_order(items, reordered, q, inventory_rune_fields());
    } else if i == 2 {
        assert(k == "rune_craft_item_list"@);
        assert(k != "unit_list"@ && k != "runes"@);
        lemma_sort_ignores_received_order(items, reordered, q, craft_fields());
    } else {
        assert(k == "artifacts"@ || k == "relics"@);
        assert(k != "unit_list"@ && k != "runes"@ && k != "rune_craft_item_list"@);
        lemma_sort_ignores_received_order(items, reordered, q, rid_fields());
    }
}

proof fn lemma_not_unit_update_key(f: Seq<char>)
    requires
        f != "runes"@,
        f != "artifacts"@,
        f != "relics"@,
    ensures
        !unit_update_keys().contains(f),
{
    let ks = unit_update_keys();
    if ks.contains(f) {
        let i = choose|i: int| 0 <= i < ks.len() && ks[i] == f;
        assert(i == 0 || i == 1 || i == 2);
    }
}

/// A monster's place in the export does not change when it is put in
/// canonical form.
proof fn lemma_unit_key_of_canonical(unit: JsonModel, storage: Option<i64>)
    ensures
        unit_key(canonical_unit(unit), storage) == unit_key(unit, storage),
{
    reveal_strlit("runes");
    reveal_strlit("artifacts");
    reveal_strlit("relics");
    reveal_strlit("building_id");
    reveal_strlit("class");
    reveal_strlit("unit_level");
    reveal_strlit("attribute");
    reveal_strlit("unit_id");
    assert("class"@ != "runes"@) by {
        assert("class"@[0] != "runes"@[0]);
    }
    assert("attribute"@ != "artifacts"@) by {
        assert("attribute"@[1] != "artifacts"@[1]);
    }
    assert("building_id"@.len() == 11 && "unit_level"@.len() == 10 && "unit_id"@.len() == 7);
    assert("runes"@.len() == 5 && "artifacts"@.len() == 9 && "relics"@.len() == 6);
    assert("class"@.len() == 5 && "attribute"@.len() == 9);
    lemma_not_unit_update_key("building_id"@);
    lemma_not_unit_update_key("class"@);
    lemma_not_unit_update_key("unit_level"@);
    lemma_not_unit_update_key("attribute"@);
    lemma_not_unit_update_key("unit_id"@);
    lemma_canonical_unit_keeps_other_members(unit, "building_id"@);
    lemma_canonical_unit_keeps_other_members(unit, "class"@);
    lemma_canonical_unit_keeps_other_members(unit, "unit_level"@);
    lemma_canonical_unit_keeps_other_members(unit, "attribute"@);
    lemma_canonical_unit_keeps_other_members(unit, "unit_id"@);
    assert(sort_key(canonical_unit(unit), unit_order_fields()) =~= sort_key(unit, unit_order_fields()));
    assert(unit_key(canonical_unit(unit), storage) =~= unit_key(unit, storage));
}

/// The export does not depend on the order in which the game sends the items
/// of a list that it orders (monsters, inventory runes, rune crafts,
/// artifacts, relics), when no two items of the list share their order key:
/// the profile with that list received in another order exports the same.
pub proof fn lemma_export_ignores_received_order(
    profile: JsonModel,
    key: Seq<char>,
    items: Seq<JsonModel>,
    reordered: Seq<JsonModel>,
    q: Seq<int>,
)
    requires
        profile_update_keys().contains(key),
        get(profile, key) == Some(JsonModel::Array(items)),
        is_rearrangement(items, reordered, q),
        forall|a: int, b: int|
            0 <= a < items.len() && 0 <= b < items.len() && a != b ==> export_order_key(profile, key, #[trigger] items[a])
                != export_order_key(profile, key, #[trigger] items[b]),
    ensures
        canonical_profile(with_member(profile, key, JsonModel::Array(reordered))) == canonical_profile(profile),
{
    let ks = profile_update_keys();
    let i = choose|i: int| 0 <= i < ks.len() && ks[i] == key;
    let s = profile_storage_id(profile);
    let fs = profile_update_fns(s);
    let g = |_x: JsonModel| JsonModel::Array(reordered);
    let p2 = with_member(profile, key, JsonModel::Array(reordered));
    lemma_literal_keys();
    assert(distinct_keys(ks));
    assert(key != "building_list"@) by {
        assert(i == 0 || i == 1 || i == 2 || i == 3 || i == 4);
    }
    lemma_get_after_update(profile, key, g, "building_list"@);
    assert(profile_storage_id(p2) == s);
    lemma_profile_as_updates(profile);
    lemma_profile_as_updates(p2);
    lemma_apply_updates_split(profile, ks, fs, i + 1);
    lemma_apply_updates_split(p2, ks, fs, i + 1);
    let before = ks.take(i);
    let fbefore = fs.take(i);
    assert(!before.contains(key)) by {
        if before.contains(key) {
            let j = choose|j: int| 0 <= j < before.len() && before[j] == key;
            assert(ks[j] == ks[i]);
        }
    }
    assert(ks.take(i + 1).drop_last() =~= before);
    assert(fs.take(i + 1).drop_last() =~= fbefore);
    assert(ks.take(i + 1).last() == key);
    assert(fs.take(i + 1).last() == fs[i]);
    lemma_update_past(profile, before, fbefore, key, g);
    let a = apply_updates(profile, before, fbefore);
    lemma_get_past_updates(profile, before, fbefore, key);
    assert(get(a, key) == Some(JsonModel::Array(items)));
    let f = fs[i];
    let h = |x: JsonModel| f(g(x));
    lemma_update_compose(a, key, g, f, h);
    assert forall|a_i: int, b_i: int|
        0 <= a_i < items.len() && 0 <= b_i < items.len() && a_i != b_i implies export_order_key(
            profile,
            profile_update_keys()[i],
            #[trigger] items[a_i],
        ) != export_order_key(profile, profile_update_keys()[i], #[trigger] items[b_i]) by {
    }
    lemma_list_update_ignores_order(profile, i, items, reordered, q);
    lemma_update_agree(a, key, h, f);
}

/// Where two keys stand in lexicographic order and agree before position
/// `n`, they are in order at `n`.
proof fn lemma_lex_le_at(a: Seq<int>, b: Seq<int>, n: int)
    requires
        a.len() == b.len(),
        0 <= n < a.len(),
        forall|k: int| 0 <= k < n ==> a[k] == b[k],
        lex_lt(a, b) || a == b,
    ensures
        a[n] <= b[n],
    decreases n,
{
    if n > 0 {
        assert(a[0] == b[0]);
        let a1 = a.drop_first();
        let b1 = b.drop_first();
        assert forall|k: int| 0 <= k < n - 1 implies a1[k] == b1[k] by {
            assert(a1[k] == a[k + 1]);
            assert(b1[k] == b[k + 1]);
        }
        if a == b {
            assert(a1 == b1);
        }
        lemma_lex_le_at(a1, b1, n - 1);
        assert(a1[n - 1] == a[n]);
        assert(b1[n - 1] == b[n]);
    }
}

/// The monster `u` stands in the profile's storage building.
pub open spec fn stored_monster(profile: JsonModel, u: JsonModel) -> bool {
    profile_storage_id(profile) matches Some(id) && number_field(u, "building_id"@) == Some(id)
}

/// The monsters of the canonical profile, in their export order.
pub open spec fn canonical_monsters(profile: JsonModel) -> Seq<JsonModel> {
    match get(canonical_profile(profile), "unit_list"@) {
        Some(JsonModel::Array(us)) => us,
        _ => Seq::empty(),
    }
}

/// What the export order says of two monsters `a` placed before `b`:
/// storage monsters last; then class descending, then level descending,
/// then attribute ascending, then id ascending.
pub open spec fn monsters_in_export_order(profile: JsonModel, a: JsonModel, b: JsonModel) -> bool {
    let same_place = stored_monster(profile, a) == stored_monster(profile, b);
    let class_a = number_field(a, "class"@);
    let class_b = number_field(b, "class"@);
    let level_a = number_field(a, "unit_level"@);
    let level_b = number_field(b, "unit_level"@);
    let attr_a = number_field(a, "attribute"@);
    let attr_b = number_field(b, "attribute"@);
    let id_a = number_field(a, "unit_id"@);
    let id_b = number_field(b, "unit_id"@);
    &&& stored_monster(profile, a) ==> stored_monster(profile, b)
    &&& same_place && class_a is Some && class_b is Some ==> class_a->0 >= class_b->0
    &&& same_place && class_a is Some && class_a == class_b && level_a is Some && level_b is Some
        ==> level_a->0 >= level_b->0
    &&& same_place && class_a is Some && class_a == class_b && level_a is Some && level_a == level_b
        && attr_a is Some && attr_b is Some ==> attr_a->0 <= attr_b->0
    &&& same_place && class_a is Some && class_a == class_b && level_a is Some && level_a == level_b
        && attr_a is Some && attr_a == attr_b && id_a is Some && id_b is Some ==> id_a->0 <= id_b->0
}

proof fn lemma_unit_key_order(profile: JsonModel, a: JsonModel, b: JsonModel)
    requires
        lex_lt(unit_key(a, profile_storage_id(profile)), unit_key(b, profile_storage_id(profile)))
            || unit_key(a, profile_storage_id(profile)) == unit_key(b, profile_storage_id(profile)),
    ensures
        monsters_in_export_order(profile, a, b),
{
    let s = profile_storage_id(profile);
    let ka = unit_key(a, s);
    let kb = unit_key(b, s);
    let f = unit_order_fields();
    assert(f[0] == ("class"@, true));
    assert(f[1] == ("unit_level"@, true));
    assert(f[2] == ("attribute"@, false));
    assert(f[3] == ("unit_id"@, false));
    assert(ka.len() == 5 && kb.len() == 5);
    assert(ka[1] == field_key(number_field(a, "class"@), true));
    assert(kb[1] == field_key(number_field(b, "class"@), true));
    assert(ka[2] == field_key(number_field(a, "unit_level"@), true));
    assert(kb[2] == field_key(number_field(b, "unit_level"@), true));
    assert(ka[3] == field_key(number_field(a, "attribute"@), false));
    assert(kb[3] == field_key(number_field(b, "attribute"@), false));
    assert(ka[4] == field_key(number_field(a, "unit_id"@), false));
    assert(kb[4] == field_key(number_field(b, "unit_id"@), false));
    assert(ka[0] == (if in_storage(a, s) { 1int } else { 0int }));
    assert(kb[0] == (if in_storage(b, s) { 1int } else { 0int }));
    assert(in_storage(a, s) == stored_monster(profile, a));
    assert(in_storage(b, s) == stored_monster(profile, b));
    lemma_lex_le_at(ka, kb, 0);
    if ka[0] == kb[0] {
        lemma_lex_le_at(ka, kb, 1);
        if ka[1] == kb[1] {
            lemma_lex_le_at(ka, kb, 2);
            if ka[2] == kb[2] {
                lemma_lex_le_at(ka, kb, 3);
                if ka[3] == kb[3] {
                    lemma_lex_le_at(ka, kb, 4);
                }
            }
        }
    }
}

/// The monsters of an exported profile follow the export order: of any two,
/// the one placed first is not in storage while the other is, or they share
/// their place and the first has the higher class, or the same class and the
/// higher level, or the same class and level and the lower attribute, or the
/// same class, level and attribute and the lower id.
pub proof fn lemma_canonical_monster_order(profile: JsonModel, i: int, j: int)
    requires
        0 <= i < j < canonical_monsters(profile).len(),
    ensures
        monsters_in_export_order(profile, canonical_monsters(profile)[i], canonical_monsters(profile)[j]),
{
    let s = profile_storage_id(profile);
    lemma_literal_keys();
    let p1 = update_field(profile, "unit_list"@, canonical_units_fn(s));
    let p2 = values_to_array(p1, "runes"@);
    let p3 = sort_member(p2, "runes"@, inventory_rune_fields());
    let p4 = sort_member(p3, "rune_craft_item_list"@, craft_fields());
    let p5 = sort_member(p4, "artifacts"@, rid_fields());
    lemma_get_after_update(profile, "unit_list"@, canonical_units_fn(s), "unit_list"@);
    lemma_get_after_update(p1, "runes"@, object_values_fn(), "unit_list"@);
    lemma_get_after_update(p2, "runes"@, sorted_array_fn(inventory_rune_fields()), "unit_list"@);
    lemma_get_after_update(p3, "rune_craft_item_list"@, sorted_array_fn(craft_fields()), "unit_list"@);
    lemma_get_after_update(p4, "artifacts"@, sorted_array_fn(rid_fields()), "unit_list"@);
    lemma_get_after_update(p5, "relics"@, sorted_array_fn(rid_fields()), "unit_list"@);
    assert(get(canonical_profile(profile), "unit_list"@) == get(p1, "unit_list"@));
    match get(profile, "unit_list"@) {
        Some(JsonModel::Array(units)) => {
            let c = units.map_values(canonical_unit_fn());
            let keys = c.map_values(unit_key_fn(s));
            let perm = lemma_stable_sorted_items(c, keys);
            let ms = canonical_monsters(profile);
            assert(ms == canonical_units(units, s));
            assert(ms[i] == c[perm[i]]);
            assert(ms[j] == c[perm[j]]);
            assert(placed_before(keys, perm[i], perm[j]));
            assert(keys[perm[i]] == unit_key(ms[i], s));
            assert(keys[perm[j]] == unit_key(ms[j], s));
            lemma_unit_key_order(profile, ms[i], ms[j]);
        },
        _ => {},
    }
}

} // verus!
