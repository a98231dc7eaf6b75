//! JSON values.

use vstd::prelude::*;

use crate::chars;
use crate::text;

verus! {

/// A JSON value.
#[derive(Debug, PartialEq, Eq)]
pub enum Json {
    Null,
    Bool(bool),
    /// A number that is a natural one.
    Number(u64),
    /// Any other number, as it is written.
    OtherNumber(String),
    Text(String),
    List(Vec<Json>),
    /// The members in their order.
    Object(Vec<(String, Json)>),
}

/// What a `Json` says.
pub enum JsonModel {
    Null,
    Bool(bool),
    Number(u64),
    OtherNumber(Seq<char>),
    Text(Seq<char>),
    List(Seq<JsonModel>),
    Object(Seq<(Seq<char>, JsonModel)>),
}

/// What a JSON value says.
pub open spec fn model_of(json: Json) -> JsonModel
    decreases json,
{
    match json {
        Json::Null => JsonModel::Null,
        Json::Bool(b) => JsonModel::Bool(b),
        Json::Number(n) => JsonModel::Number(n),
        Json::OtherNumber(n) => JsonModel::OtherNumber(n@),
        Json::Text(t) => JsonModel::Text(t@),
        Json::List(list) => JsonModel::List(
            Seq::new(
                list@.len(),
                |i: int|
                    if 0 <= i < list@.len() {
                        model_of(list@[i])
                    } else {
                        JsonModel::Null
                    },
            ),
        ),
        Json::Object(members) => JsonModel::Object(
            Seq::new(
                members@.len(),
                |i: int|
                    if 0 <= i < members@.len() {
                        (members@[i].0@, model_of(members@[i].1))
                    } else {
                        (Seq::empty(), JsonModel::Null)
                    },
            ),
        ),
    }
}

impl View for Json {
    type V = JsonModel;

    open spec fn view(&self) -> JsonModel {
        model_of(*self)
    }
}

/// What a list of JSON values says.
pub open spec fn json_models(list: Seq<Json>) -> Seq<JsonModel> {
    Seq::new(list.len(), |i: int| list[i]@)
}

/// What the members of an object say.
pub open spec fn member_models(members: Seq<(String, Json)>) -> Seq<(Seq<char>, JsonModel)> {
    Seq::new(members.len(), |i: int| (members[i].0@, members[i].1@))
}

/// A list says what its values say.
pub proof fn lemma_list(list: Vec<Json>)
    ensures
        Json::List(list)@ == JsonModel::List(json_models(list@)),
{
    assert(Json::List(list)@->List_0 =~= json_models(list@));
}

/// An object says what its members say.
pub proof fn lemma_object(members: Vec<(String, Json)>)
    ensures
        Json::Object(members)@ == JsonModel::Object(member_models(members@)),
{
    assert(Json::Object(members)@->Object_0 =~= member_models(members@));
}

// ── Making values ────────────────────────────────────────────────────────────

/// A text.
pub fn text(content: &str) -> (json: Json)
    ensures
        json@ == JsonModel::Text(content@),
{
    Json::Text(content.to_owned())
}

/// A list.
pub fn list(values: Vec<Json>) -> (json: Json)
    ensures
        json@ == JsonModel::List(json_models(values@)),
{
    proof {
        lemma_list(values);
    }
    Json::List(values)
}

/// No members.
pub fn no_members() -> (members: Vec<(String, Json)>)
    ensures
        member_models(members@) == Seq::<(Seq<char>, JsonModel)>::empty(),
{
    let members: Vec<(String, Json)> = Vec::new();
    assert(member_models(members@) =~= Seq::<(Seq<char>, JsonModel)>::empty());
    members
}

/// The members with one more.
pub fn with_member(members: Vec<(String, Json)>, name: &str, value: Json) -> (more: Vec<
    (String, Json),
>)
    ensures
        member_models(more@) == member_models(members@).push((name@, value@)),
{
    let mut more = members;
    let ghost model = value@;
    more.push((name.to_owned(), value));
    assert(member_models(more@) =~= member_models(members@).push((name@, model)));
    more
}

/// An object.
pub fn object(members: Vec<(String, Json)>) -> (json: Json)
    ensures
        json@ == JsonModel::Object(member_models(members@)),
{
    proof {
        lemma_object(members);
    }
    Json::Object(members)
}

/// An object with one member.
pub fn object_of(name: &str, value: Json) -> (json: Json)
    ensures
        json@ == JsonModel::Object(seq![(name@, value@)]),
{
    object(with_member(no_members(), name, value))
}

/// Some texts as JSON values.
pub open spec fn text_values(texts: Seq<Seq<char>>) -> Seq<JsonModel> {
    texts.map_values(|t: Seq<char>| JsonModel::Text(t))
}

/// A list of texts.
pub fn text_list(texts: &Vec<String>) -> (json: Json)
    ensures
        json@ == JsonModel::List(text_values(text::texts(texts@))),
{
    let ghost all = text_values(text::texts(texts@));
    let mut values: Vec<Json> = Vec::new();
    for i in 0..texts.len()
        invariant
            all == text_values(text::texts(texts@)),
            json_models(values@) == all.take(i as int),
    {
        let ghost before = values@;
        values.push(text(texts[i].as_str()));
        assert(all[i as int] == JsonModel::Text(texts@[i as int]@));
        assert(json_models(values@) =~= json_models(before).push(all[i as int]));
        assert(all.take(i + 1) =~= all.take(i as int).push(all[i as int]));
    }
    assert(all.take(all.len() as int) == all);
    list(values)
}

/// Some numbers as JSON values.
pub open spec fn number_values(numbers: Seq<u64>) -> Seq<JsonModel> {
    numbers.map_values(|n: u64| JsonModel::Number(n))
}

/// A list of numbers.
pub fn number_list(numbers: &[u64]) -> (json: Json)
    ensures
        json@ == JsonModel::List(number_values(numbers@)),
{
    let ghost all = number_values(numbers@);
    let mut values: Vec<Json> = Vec::new();
    for i in 0..numbers.len()
        invariant
            all == number_values(numbers@),
            json_models(values@) == all.take(i as int),
    {
        let ghost before = values@;
        values.push(Json::Number(numbers[i]));
        assert(all[i as int] == JsonModel::Number(numbers@[i as int]));
        assert(json_models(values@) =~= json_models(before).push(all[i as int]));
        assert(all.take(i + 1) =~= all.take(i as int).push(all[i as int]));
    }
    assert(all.take(all.len() as int) == all);
    list(values)
}

/// A value of a list is smaller than the list.
proof fn lemma_value_is_smaller(json: Json, i: int)
    requires
        json is List,
        0 <= i < json->List_0@.len(),
    ensures
        decreases_to!(json => json->List_0@[i]),
{
    assert(decreases_to!(json => json->List_0));
    assert(decreases_to!(json->List_0 => json->List_0@));
    assert(decreases_to!(json->List_0@ => json->List_0@[i]));
}

/// A value in an object is smaller than the object.
proof fn lemma_member_is_smaller(json: Json, i: int)
    requires
        json is Object,
        0 <= i < json->Object_0@.len(),
    ensures
        decreases_to!(json => json->Object_0@[i].1),
{
    assert(decreases_to!(json => json->Object_0));
    assert(decreases_to!(json->Object_0 => json->Object_0@));
    assert(decreases_to!(json->Object_0@ => json->Object_0@[i]));
    assert(decreases_to!(json->Object_0@[i] => json->Object_0@[i].1));
}

impl Clone for Json {
    fn clone(&self) -> (copy: Self)
        ensures
            copy@ == self@,
        decreases self,
    {
        match self {
            Json::Null => Json::Null,
            Json::Bool(b) => Json::Bool(*b),
            Json::Number(n) => Json::Number(*n),
            Json::OtherNumber(n) => Json::OtherNumber(n.clone()),
            Json::Text(t) => Json::Text(t.clone()),
            Json::List(values) => {
                let mut copies: Vec<Json> = Vec::new();
                for i in 0..values.len()
                    invariant
                        *self == Json::List(*values),
                        json_models(copies@) == json_models(values@).take(i as int),
                {
                    let ghost before = copies@;
                    proof {
                        lemma_value_is_smaller(*self, i as int);
                    }
                    copies.push(values[i].clone());
                    assert(json_models(copies@) =~= json_models(before).push(
                        values@[i as int]@,
                    ));
                    assert(json_models(values@).take(i + 1) =~= json_models(values@).take(
                        i as int,
                    ).push(values@[i as int]@));
                }
                proof {
                    lemma_list(*values);
                    assert(json_models(values@).take(values@.len() as int) == json_models(
                        values@,
                    ));
                }
                list(copies)
            },
            Json::Object(members) => {
                let mut copies: Vec<(String, Json)> = no_members();
                for i in 0..members.len()
                    invariant
                        *self == Json::Object(*members),
                        member_models(copies@) == member_models(members@).take(i as int),
                {
                    proof {
                        lemma_member_is_smaller(*self, i as int);
                    }
                    let value = members[i].1.clone();
                    copies = with_member(copies, members[i].0.as_str(), value);
                    assert(member_models(members@).take(i + 1) =~= member_models(members@).take(
                        i as int,
                    ).push((members@[i as int].0@, members@[i as int].1@)));
                }
                proof {
                    lemma_object(*members);
                    assert(member_models(members@).take(members@.len() as int) == member_models(
                        members@,
                    ));
                }
                object(copies)
            },
        }
    }
}

// ── Reading values ───────────────────────────────────────────────────────────

/// The member of that name. The last one counts.
pub open spec fn member_of(members: Seq<(Seq<char>, JsonModel)>, name: Seq<char>) -> Option<
    JsonModel,
>
    decreases members.len(),
{
    if members.len() == 0 {
        None
    } else if members.last().0 == name {
        Some(members.last().1)
    } else {
        member_of(members.drop_last(), name)
    }
}

/// The member of that name. A value that is not an object has none.
pub open spec fn field_of(json: JsonModel, name: Seq<char>) -> Option<JsonModel> {
    match json {
        JsonModel::Object(members) => member_of(members, name),
        _ => None,
    }
}

impl Json {
    /// The member of that name.
    pub fn get(&self, name: &str) -> (value: Option<&Json>)
        ensures
            match value {
                Some(v) => field_of(self@, name@) == Some(v@),
                None => field_of(self@, name@) is None,
            },
    {
        if let Json::Object(members) = self {
            proof {
                lemma_object(*members);
            }
            let ghost all = member_models(members@);
            let mut i = members.len();
            assert(all.take(i as int) == all);
            while i > 0
                invariant
                    i <= members@.len(),
                    all == member_models(members@),
                    field_of(self@, name@) == member_of(all.take(i as int), name@),
                decreases i,
            {
                i = i - 1;
                assert(all.take(i + 1).drop_last() == all.take(i as int));
                assert(all.take(i + 1).last() == (members@[i as int].0@, members@[i as int].1@));
                if chars::same_text(members[i].0.as_str(), name) {
                    return Some(&members[i].1);
                }
            }
        }
        None
    }

    /// The number, where the value is a natural one.
    pub fn as_u64(&self) -> (number: Option<u64>)
        ensures
            number == match self@ {
                JsonModel::Number(n) => Some(n),
                _ => None,
            },
    {
        match self {
            Json::Number(n) => Some(*n),
            _ => None,
        }
    }

    /// The text, where the value is one.
    pub fn as_str(&self) -> (content: Option<&str>)
        ensures
            match content {
                Some(t) => self@ == JsonModel::Text(t@),
                None => !(self@ is Text),
            },
    {
        match self {
            Json::Text(t) => Some(t.as_str()),
            _ => None,
        }
    }

    /// The values, where the value is a list.
    pub fn as_array(&self) -> (values: Option<&Vec<Json>>)
        ensures
            match values {
                Some(v) => self@ == JsonModel::List(json_models(v@)),
                None => !(self@ is List),
            },
    {
        match self {
            Json::List(values) => {
                proof {
                    lemma_list(*values);
                }
                Some(values)
            },
            _ => None,
        }
    }
}

} // verus!
