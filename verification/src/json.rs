//! JSON values as the stores keep them in memory, with their mathematical
//! model and the operations the typed accessors need.

use vstd::prelude::*;

verus! {

/// A JSON number: an unsigned integer, a negative integer, or a double held
/// by its IEEE-754 bit pattern.
#[derive(Clone, Copy, Debug, PartialEq, Eq, Structural)]
pub enum JsonNumber {
    PosInt(u64),
    NegInt(i64),
    Float(u64),
}

/// A JSON value. An object is the list of its members in written order; where
/// a key occurs twice, the later member is the one that counts.
#[derive(Debug, PartialEq, Eq)]
pub enum JsonValue {
    Null,
    Bool(bool),
    Number(JsonNumber),
    String(String),
    Array(Vec<JsonValue>),
    Object(Vec<(String, JsonValue)>),
}

/// The mathematical value of a `JsonValue`: strings are character sequences,
/// arrays are sequences, objects are sequences of members.
pub enum JsonModel {
    Null,
    Bool(bool),
    Number(JsonNumber),
    String(Seq<char>),
    Array(Seq<JsonModel>),
    Object(Seq<(Seq<char>, JsonModel)>),
}

/// A double is finite when its exponent bits are not all ones.
pub open spec fn float_is_finite(bits: u64) -> bool {
    (bits >> 52) & 0x7ff != 0x7ff
}

impl JsonNumber {
    /// Whether JSON text can carry the number: a `NegInt` is below zero (zero
    /// and above are `PosInt`), a `Float` is finite.
    pub open spec fn representable(self) -> bool {
        match self {
            JsonNumber::PosInt(_) => true,
            JsonNumber::NegInt(i) => i < 0,
            JsonNumber::Float(bits) => float_is_finite(bits),
        }
    }

    /// Whether JSON text can carry the number.
    pub fn is_representable(&self) -> (r: bool)
        ensures
            r == self.representable(),
    {
        match self {
            JsonNumber::PosInt(_) => true,
            JsonNumber::NegInt(i) => *i < 0,
            JsonNumber::Float(bits) => (*bits >> 52) & 0x7ff != 0x7ff,
        }
    }
}

/// The value of the last member named `key`, if there is one.
pub open spec fn member(pairs: Seq<(Seq<char>, JsonModel)>, key: Seq<char>) -> Option<JsonModel>
    decreases pairs.len(),
{
    if pairs.len() == 0 {
        None
    } else if pairs.last().0 == key {
        Some(pairs.last().1)
    } else {
        member(pairs.drop_last(), key)
    }
}

/// No key occurs twice.
pub open spec fn unique_keys(pairs: Seq<(Seq<char>, JsonModel)>) -> bool {
    forall|i: int, j: int| 0 <= i < j < pairs.len() ==> pairs[i].0 != pairs[j].0
}

/// The mapping that a list of members stands for.
pub open spec fn to_map(pairs: Seq<(Seq<char>, JsonModel)>) -> Map<Seq<char>, JsonModel> {
    Map::new(|k: Seq<char>| member(pairs, k) is Some, |k: Seq<char>| member(pairs, k)->0)
}

impl JsonModel {
    /// Whether JSON text can carry the value: every number in it can.
    pub open spec fn representable(self) -> bool
        decreases self,
    {
        match self {
            JsonModel::Number(n) => n.representable(),
            JsonModel::Array(items) => forall|i: int|
                0 <= i < items.len() ==> (#[trigger] items[i]).representable(),
            JsonModel::Object(members) => forall|i: int|
                0 <= i < members.len() ==> (#[trigger] members[i]).1.representable(),
            _ => true,
        }
    }

    /// The text of a string value.
    pub open spec fn text(self) -> Option<Seq<char>> {
        match self {
            JsonModel::String(s) => Some(s),
            _ => None,
        }
    }

    /// The number of an unsigned integer value.
    pub open spec fn count(self) -> Option<u64> {
        match self {
            JsonModel::Number(JsonNumber::PosInt(n)) => Some(n),
            _ => None,
        }
    }
}

/// The models of the values of an array.
pub open spec fn items_view(items: Seq<JsonValue>) -> Seq<JsonModel> {
    items.map_values(|v: JsonValue| v@)
}

/// The models of the members of an object.
pub open spec fn members_view(members: Seq<(String, JsonValue)>) -> Seq<(Seq<char>, JsonModel)> {
    members.map_values(|m: (String, JsonValue)| (m.0@, m.1@))
}

/// The model of a value, built from the models of its parts.
pub open spec fn model_of(value: JsonValue) -> JsonModel
    decreases value,
{
    match value {
        JsonValue::Null => JsonModel::Null,
        JsonValue::Bool(b) => JsonModel::Bool(b),
        JsonValue::Number(n) => JsonModel::Number(n),
        JsonValue::String(s) => JsonModel::String(s@),
        JsonValue::Array(items) => JsonModel::Array(
            Seq::new(
                items@.len(),
                |i: int|
                    if 0 <= i < items@.len() {
                        model_of(items@[i])
                    } else {
                        JsonModel::Null
                    },
            ),
        ),
        JsonValue::Object(members) => JsonModel::Object(
            Seq::new(
                members@.len(),
                |i: int|
                    if 0 <= i < members@.len() {
                        (members@[i].0@, model_of(members@[i].1))
                    } else {
                        (Seq::empty(), JsonModel::Null)
                    },
            ),
        ),
    }
}

impl View for JsonValue {
    type V = JsonModel;

    open spec fn view(&self) -> JsonModel {
        model_of(*self)
    }
}

/// The model of an array is the sequence of the models of its items.
pub proof fn lemma_array_view(items: Vec<JsonValue>)
    ensures
        JsonValue::Array(items)@ == JsonModel::Array(items_view(items@)),
{
    let whole = JsonValue::Array(items);
    assert(whole@ is Array);
    let models = whole@->Array_0;
    assert(models.len() == items@.len());
    assert forall|i: int| 0 <= i < models.len() implies models[i] == items_view(items@)[i] by {
        assert(models[i] == items@[i]@);
    }
    assert(models =~= items_view(items@));
}

/// The model of an object is the sequence of the models of its members.
pub proof fn lemma_object_view(members: Vec<(String, JsonValue)>)
    ensures
        JsonValue::Object(members)@ == JsonModel::Object(members_view(members@)),
{
    let whole = JsonValue::Object(members);
    assert(whole@ is Object);
    let models = whole@->Object_0;
    assert(models.len() == members@.len());
    assert forall|i: int| 0 <= i < models.len() implies models[i] == members_view(members@)[i] by {
        assert(models[i] == (members@[i].0@, members@[i].1@));
    }
    assert(models =~= members_view(members@));
}

/// An array can be written exactly when each of its items can.
pub proof fn lemma_array_representable(items: Seq<JsonModel>)
    ensures
        JsonModel::Array(items).representable() <==> forall|i: int|
            0 <= i < items.len() ==> (#[trigger] items[i]).representable(),
{
    let whole = JsonModel::Array(items);
    assert(whole->Array_0 == items);
    assert(whole.representable() == (forall|i: int|
        0 <= i < whole->Array_0.len() ==> (#[trigger] whole->Array_0[i]).representable()));
}

/// An object can be written exactly when the value of each member can.
pub proof fn lemma_object_representable(members: Seq<(Seq<char>, JsonModel)>)
    ensures
        JsonModel::Object(members).representable() <==> forall|i: int|
            0 <= i < members.len() ==> (#[trigger] members[i]).1.representable(),
{
    let whole = JsonModel::Object(members);
    assert(whole->Object_0 == members);
    assert(whole.representable() == (forall|i: int|
        0 <= i < whole->Object_0.len() ==> (#[trigger] whole->Object_0[i]).1.representable()));
}

/// Appending a member sets its key and leaves the other keys alone.
pub proof fn lemma_member_push(
    pairs: Seq<(Seq<char>, JsonModel)>,
    key: Seq<char>,
    value: JsonModel,
    other: Seq<char>,
)
    ensures
        member(pairs.push((key, value)), other) == if other == key {
            Some(value)
        } else {
            member(pairs, other)
        },
{
    let extended = pairs.push((key, value));
    assert(extended.last() == (key, value));
    assert(extended.drop_last() =~= pairs);
}

/// Appending a member to a list puts its value under its key in the mapping.
pub proof fn lemma_to_map_push(pairs: Seq<(Seq<char>, JsonModel)>, key: Seq<char>, value: JsonModel)
    ensures
        to_map(pairs.push((key, value))) == to_map(pairs).insert(key, value),
{
    assert forall|k: Seq<char>| member(pairs.push((key, value)), k) == (if k == key {
        Some(value)
    } else {
        member(pairs, k)
    }) by {
        lemma_member_push(pairs, key, value, k);
    }
    assert(to_map(pairs.push((key, value))) =~= to_map(pairs).insert(key, value));
}

/// A key is found exactly when some member carries it.
pub proof fn lemma_member_some(pairs: Seq<(Seq<char>, JsonModel)>, key: Seq<char>)
    ensures
        member(pairs, key) is Some <==> exists|i: int| 0 <= i < pairs.len() && pairs[i].0 == key,
    decreases pairs.len(),
{
    if pairs.len() > 0 {
        lemma_member_some(pairs.drop_last(), key);
        if pairs.last().0 == key {
            assert(pairs[pairs.len() - 1].0 == key);
        } else if member(pairs, key) is Some {
            let i = choose|i: int| 0 <= i < pairs.drop_last().len() && pairs.drop_last()[i].0 == key;
            assert(pairs[i].0 == key);
        } else {
            assert forall|i: int| 0 <= i < pairs.len() implies pairs[i].0 != key by {
                if i < pairs.len() - 1 {
                    assert(pairs.drop_last()[i] == pairs[i]);
                }
            }
        }
    }
}

/// Where no key occurs twice, a member is found under its key.
pub proof fn lemma_member_at(pairs: Seq<(Seq<char>, JsonModel)>, i: int)
    requires
        unique_keys(pairs),
        0 <= i < pairs.len(),
    ensures
        member(pairs, pairs[i].0) == Some(pairs[i].1),
    decreases pairs.len(),
{
    if i < pairs.len() - 1 {
        assert(pairs.last() == pairs[pairs.len() - 1]);
        assert(pairs.drop_last()[i] == pairs[i]);
        lemma_member_at(pairs.drop_last(), i);
    }
}

/// Where no key occurs twice, replacing the value of the member at `i` sets
/// its key and leaves the other keys alone.
pub proof fn lemma_member_update(
    pairs: Seq<(Seq<char>, JsonModel)>,
    i: int,
    value: JsonModel,
    other: Seq<char>,
)
    requires
        unique_keys(pairs),
        0 <= i < pairs.len(),
    ensures
        unique_keys(pairs.update(i, (pairs[i].0, value))),
        member(pairs.update(i, (pairs[i].0, value)), other) == if other == pairs[i].0 {
            Some(value)
        } else {
            member(pairs, other)
        },
    decreases pairs.len(),
{
    let key = pairs[i].0;
    let updated = pairs.update(i, (key, value));
    if i == pairs.len() - 1 {
        assert(updated.drop_last() =~= pairs.drop_last());
    } else {
        assert(updated.drop_last() =~= pairs.drop_last().update(i, (key, value)));
        assert(pairs.drop_last()[i] == pairs[i]);
        assert(updated.last() == pairs.last());
        assert(pairs.last() == pairs[pairs.len() - 1]);
        lemma_member_update(pairs.drop_last(), i, value, other);
    }
}

impl JsonValue {
    /// The text of a string value; nothing for any other value.
    pub fn as_str(&self) -> (r: Option<&str>)
        ensures
            r is Some <==> self@.text() is Some,
            r matches Some(t) ==> self@.text() == Some(t@),
    {
        match self {
            JsonValue::String(s) => Some(s.as_str()),
            _ => None,
        }
    }

    /// The number of an unsigned integer value; nothing for any other value.
    pub fn as_u64(&self) -> (r: Option<u64>)
        ensures
            r == self@.count(),
    {
        match self {
            JsonValue::Number(JsonNumber::PosInt(n)) => Some(*n),
            _ => None,
        }
    }

    /// Whether JSON text can carry the value.
    pub fn is_representable(&self) -> (r: bool)
        ensures
            r == self@.representable(),
        decreases self,
    {
        match self {
            JsonValue::Number(n) => n.is_representable(),
            JsonValue::Array(items) => {
                proof {
                    lemma_array_view(*items);
                }
                items_representable(items)
            },
            JsonValue::Object(members) => {
                proof {
                    lemma_object_view(*members);
                }
                members_representable(members)
            },
            _ => true,
        }
    }
}

/// Whether JSON text can carry every item.
pub fn items_representable(items: &Vec<JsonValue>) -> (r: bool)
    ensures
        r == JsonModel::Array(items_view(items@)).representable(),
    decreases items,
{
    let mut i: usize = 0;
    while i < items.len()
        invariant
            i <= items.len(),
            forall|j: int| 0 <= j < i ==> (#[trigger] items_view(items@)[j]).representable(),
        decreases items.len() - i,
    {
        if !items[i].is_representable() {
            proof {
                lemma_array_representable(items_view(items@));
                assert(!items_view(items@)[i as int].representable());
            }
            return false;
        }
        i += 1;
    }
    proof {
        lemma_array_representable(items_view(items@));
    }
    true
}

/// Whether JSON text can carry the value of every member.
pub fn members_representable(members: &Vec<(String, JsonValue)>) -> (r: bool)
    ensures
        r == JsonModel::Object(members_view(members@)).representable(),
    decreases members,
{
    let mut i: usize = 0;
    while i < members.len()
        invariant
            i <= members.len(),
            forall|j: int| 0 <= j < i ==> (#[trigger] members_view(members@)[j]).1.representable(),
        decreases members.len() - i,
    {
        if !members[i].1.is_representable() {
            proof {
                lemma_object_representable(members_view(members@));
                assert(!members_view(members@)[i as int].1.representable());
            }
            return false;
        }
        i += 1;
    }
    proof {
        lemma_object_representable(members_view(members@));
    }
    true
}

impl Clone for JsonValue {
    fn clone(&self) -> (r: Self)
        ensures
            r@ == self@,
        decreases self,
    {
        match self {
            JsonValue::Null => JsonValue::Null,
            JsonValue::Bool(b) => JsonValue::Bool(*b),
            JsonValue::Number(n) => JsonValue::Number(*n),
            JsonValue::String(s) => JsonValue::String(s.clone()),
            JsonValue::Array(items) => {
                let copy = clone_items(items);
                proof {
                    lemma_array_view(*items);
                    lemma_array_view(copy);
                }
                JsonValue::Array(copy)
            },
            JsonValue::Object(members) => {
                let copy = clone_members(members);
                proof {
                    lemma_object_view(*members);
                    lemma_object_view(copy);
                }
                JsonValue::Object(copy)
            },
        }
    }
}

/// A copy of the items, value by value.
pub fn clone_items(items: &Vec<JsonValue>) -> (r: Vec<JsonValue>)
    ensures
        items_view(r@) == items_view(items@),
    decreases items,
{
    let mut copy: Vec<JsonValue> = Vec::new();
    let mut i: usize = 0;
    while i < items.len()
        invariant
            i <= items.len(),
            copy.len() == i,
            forall|j: int| 0 <= j < i ==> (#[trigger] copy@[j])@ == items@[j]@,
        decreases items.len() - i,
    {
        copy.push(items[i].clone());
        i += 1;
    }
    assert(items_view(copy@) =~= items_view(items@));
    copy
}

/// A copy of the members, key by key and value by value.
pub fn clone_members(members: &Vec<(String, JsonValue)>) -> (r: Vec<(String, JsonValue)>)
    ensures
        members_view(r@) == members_view(members@),
    decreases members,
{
    let mut copy: Vec<(String, JsonValue)> = Vec::new();
    let mut i: usize = 0;
    while i < members.len()
        invariant
            i <= members.len(),
            copy.len() == i,
            forall|j: int|
                0 <= j < i ==> (#[trigger] copy@[j]).0@ == members@[j].0@ && copy@[j].1@
                    == members@[j].1@,
        decreases members.len() - i,
    {
        let key = members[i].0.clone();
        let value = members[i].1.clone();
        copy.push((key, value));
        i += 1;
    }
    assert(members_view(copy@) =~= members_view(members@));
    copy
}

/// The value of the last member named `key`, if there is one.
pub fn find_member<'a>(members: &'a Vec<(String, JsonValue)>, key: &str) -> (r: Option<&'a JsonValue>)
    ensures
        r is Some <==> member(members_view(members@), key@) is Some,
        r matches Some(v) ==> member(members_view(members@), key@) == Some(v@),
{
    let wanted = key.to_owned();
    let ghost pairs = members_view(members@);
    let mut i: usize = members.len();
    assert(pairs.subrange(0, i as int) =~= pairs);
    while i > 0
        invariant
            i <= members.len(),
            pairs == members_view(members@),
            wanted@ == key@,
            member(pairs, key@) == member(pairs.subrange(0, i as int), key@),
        decreases i,
    {
        i -= 1;
        let ghost head = pairs.subrange(0, i + 1);
        assert(head.last() == pairs[i as int]);
        assert(head.drop_last() =~= pairs.subrange(0, i as int));
        if members[i].0 == wanted {
            return Some(&members[i].1);
        }
    }
    assert(pairs.subrange(0, 0).len() == 0);
    None
}

} // verus!
