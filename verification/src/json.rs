//! JSON documents as trees of plain values.

use vstd::prelude::*;

use crate::text::same;

verus! {

/// A JSON value.
#[derive(Debug)]
pub enum Json {
    Null,
    Bool(bool),
    /// A number; its value where that is a whole number from zero to `u64::MAX`.
    Number(Option<u64>),
    Text(String),
    Array(Vec<Json>),
    /// The members, each a name and a value.
    Object(Vec<(String, Json)>),
}

/// What a [`Json`] says.
pub enum Tree {
    Null,
    Bool(bool),
    Number(Option<u64>),
    Text(Seq<char>),
    Array(Seq<Tree>),
    Object(Seq<(Seq<char>, Tree)>),
}

impl View for Json {
    type V = Tree;

    open spec fn view(&self) -> Tree {
        tree_of(*self)
    }
}

/// The tree of a JSON value.
pub open spec fn tree_of(value: Json) -> Tree
    decreases value,
{
    match value {
        Json::Null => Tree::Null,
        Json::Bool(b) => Tree::Bool(b),
        Json::Number(n) => Tree::Number(n),
        Json::Text(s) => Tree::Text(s@),
        Json::Array(items) => Tree::Array(
            Seq::new(
                items@.len(),
                |i: int|
                    if 0 <= i < items@.len() {
                        tree_of(items@[i])
                    } else {
                        Tree::Null
                    },
            ),
        ),
        Json::Object(members) => Tree::Object(
            Seq::new(
                members@.len(),
                |i: int|
                    if 0 <= i < members@.len() {
                        (members@[i].0@, tree_of(members@[i].1))
                    } else {
                        (seq![], Tree::Null)
                    },
            ),
        ),
    }
}

/// The value of the first member with a name.
pub open spec fn first_member(members: Seq<(Seq<char>, Tree)>, name: Seq<char>) -> Option<Tree>
    decreases members.len(),
{
    if members.len() == 0 {
        None
    } else if members[0].0 == name {
        Some(members[0].1)
    } else {
        first_member(members.skip(1), name)
    }
}

impl Tree {
    /// The member with a name, of an object that has it.
    pub open spec fn member(self, name: Seq<char>) -> Option<Tree> {
        match self {
            Tree::Object(members) => first_member(members, name),
            _ => None,
        }
    }

    /// The text of the member with a name, where there is one and it is a text.
    pub open spec fn text_member(self, name: Seq<char>) -> Option<Seq<char>> {
        match self.member(name) {
            Some(Tree::Text(s)) => Some(s),
            _ => None,
        }
    }

    /// The number of the member with a name, where there is one and it is a whole number from
    /// zero to `u64::MAX`.
    pub open spec fn number_member(self, name: Seq<char>) -> Option<u64> {
        match self.member(name) {
            Some(Tree::Number(n)) => n,
            _ => None,
        }
    }

    /// The items of the member with a name; none where it is no array.
    pub open spec fn items_member(self, name: Seq<char>) -> Seq<Tree> {
        match self.member(name) {
            Some(Tree::Array(items)) => items,
            _ => seq![],
        }
    }
}

impl Json {
    /// The member with a name, of an object that has it.
    pub fn member(&self, name: &str) -> (value: Option<&Json>)
        ensures
            value is Some <==> self@.member(name@) is Some,
            value matches Some(v) ==> v@ == self@.member(name@)->0,
    {
        match self {
            Json::Object(members) => {
                let ghost all = self@->Object_0;
                let mut i: usize = 0;
                assert(all.skip(0) =~= all);
                while i < members.len()
                    invariant
                        i <= members@.len(),
                        self == Json::Object(*members),
                        all == self@->Object_0,
                        first_member(all, name@) == first_member(all.skip(i as int), name@),
                    decreases members@.len() - i,
                {
                    assert(all.skip(i as int)[0] == (members@[i as int].0@, members@[i as int].1@));
                    if same(members[i].0.as_str(), name) {
                        return Some(&members[i].1);
                    }
                    assert(all.skip(i as int).skip(1) =~= all.skip(i + 1));
                    i += 1;
                }
                None
            },
            _ => None,
        }
    }

    /// The text of the member with a name, where there is one and it is a text.
    pub fn text_member(&self, name: &str) -> (text: Option<String>)
        ensures
            text is Some <==> self@.text_member(name@) is Some,
            text matches Some(s) ==> s@ == self@.text_member(name@)->0,
    {
        match self.member(name) {
            Some(Json::Text(s)) => Some(s.clone()),
            _ => None,
        }
    }

    /// The number of the member with a name, where there is one and it is a whole number from
    /// zero to `u64::MAX`.
    pub fn number_member(&self, name: &str) -> (number: Option<u64>)
        ensures
            number == self@.number_member(name@),
    {
        match self.member(name) {
            Some(Json::Number(n)) => *n,
            _ => None,
        }
    }
}

/// `serde_json::Value`, carried from the parser to [`json_of`].
#[verifier::external_type_specification]
#[verifier::external_body]
pub struct ExValue(serde_json::Value);

/// What a `serde_json::Value` holds.
pub uninterp spec fn value_tree(value: serde_json::Value) -> Tree;

/// The tree of the JSON document that `serde_json::from_slice` reads from bytes, if they hold one.
pub uninterp spec fn document(bytes: Seq<u8>) -> Option<Tree>;

/// A `serde_json::Value` of which the outermost variant is known.
enum Parts {
    Null,
    Bool(bool),
    Number(Option<u64>),
    Text(String),
    Array(Vec<serde_json::Value>),
    Object(Vec<(String, serde_json::Value)>),
}

impl Parts {
    /// The tree of the value.
    spec fn tree(self) -> Tree {
        match self {
            Parts::Null => Tree::Null,
            Parts::Bool(b) => Tree::Bool(b),
            Parts::Number(n) => Tree::Number(n),
            Parts::Text(s) => Tree::Text(s@),
            Parts::Array(items) => Tree::Array(
                items@.map_values(|item: serde_json::Value| value_tree(item)),
            ),
            Parts::Object(members) => Tree::Object(
                members@.map_values(
                    |member: (String, serde_json::Value)| (member.0@, value_tree(member.1)),
                ),
            ),
        }
    }
}

/// `serde_json::from_slice`: the value of the JSON document in the bytes, and `None` where
/// they hold no such document.
#[verifier::external_body]
fn value_from_slice(bytes: &[u8]) -> (value: Option<serde_json::Value>)
    ensures
        value is Some <==> document(bytes@) is Some,
        value matches Some(v) ==> value_tree(v) == document(bytes@)->0,
{
    serde_json::from_slice(bytes).ok()
}

/// Tells the variants of `serde_json::Value` apart, one for one. An array's items and an object's
/// members keep their order, and `serde_json::Number::as_u64` gives a number's value.
#[verifier::external_body]
fn parts_of(value: serde_json::Value) -> (parts: Parts)
    ensures
        parts.tree() == value_tree(value),
{
    match value {
        serde_json::Value::Null => Parts::Null,
        serde_json::Value::Bool(b) => Parts::Bool(b),
        serde_json::Value::Number(n) => Parts::Number(n.as_u64()),
        serde_json::Value::String(s) => Parts::Text(s),
        serde_json::Value::Array(items) => Parts::Array(items),
        serde_json::Value::Object(members) => Parts::Object(members.into_iter().collect()),
    }
}

/// The JSON value that a `serde_json::Value` holds.
fn json_of(value: serde_json::Value) -> (json: Json)
    ensures
        json@ == value_tree(value),
    decreases value_tree(value),
{
    match parts_of(value) {
        Parts::Null => Json::Null,
        Parts::Bool(b) => Json::Bool(b),
        Parts::Number(n) => Json::Number(n),
        Parts::Text(s) => Json::Text(s),
        Parts::Array(items) => {
            let ghost all = items@;
            let ghost trees = value_tree(value)->Array_0;
            let mut list: Vec<Json> = Vec::new();
            for item in it: items
                invariant
                    it.seq() == all,
                    value_tree(value) == Tree::Array(trees),
                    trees == all.map_values(|item: serde_json::Value| value_tree(item)),
                    list@.len() == it.index(),
                    forall|i: int| 0 <= i < list@.len() ==> (#[trigger] list@[i])@ == trees[i],
            {
                assert(value_tree(item) == trees[it.index() as int]);
                assert(decreases_to!(value_tree(value) => value_tree(value)->Array_0));
                assert(decreases_to!(trees => trees[it.index() as int]));
                list.push(json_of(item));
            }
            let json = Json::Array(list);
            assert(json@->Array_0 =~= trees);
            json
        },
        Parts::Object(members) => {
            let ghost all = members@;
            let ghost trees = value_tree(value)->Object_0;
            let mut list: Vec<(String, Json)> = Vec::new();
            for member in it: members
                invariant
                    it.seq() == all,
                    value_tree(value) == Tree::Object(trees),
                    trees == all.map_values(
                        |member: (String, serde_json::Value)| (member.0@, value_tree(member.1)),
                    ),
                    list@.len() == it.index(),
                    forall|i: int|
                        0 <= i < list@.len() ==> ((#[trigger] list@[i]).0@, list@[i].1@)
                            == trees[i],
            {
                assert((member.0@, value_tree(member.1)) == trees[it.index() as int]);
                assert(decreases_to!(value_tree(value) => value_tree(value)->Object_0));
                assert(decreases_to!(trees => trees[it.index() as int]));
                assert(decreases_to!(trees[it.index() as int] => trees[it.index() as int].1));
                let (name, inner) = member;
                list.push((name, json_of(inner)));
            }
            let json = Json::Object(list);
            assert(json@->Object_0 =~= trees);
            json
        },
    }
}

/// Parse a JSON document.
pub fn parse(bytes: &[u8]) -> (json: Option<Json>)
    ensures
        json is Some <==> document(bytes@) is Some,
        json matches Some(j) ==> j@ == document(bytes@)->0,
{
    match value_from_slice(bytes) {
        Some(value) => Some(json_of(value)),
        None => None,
    }
}

/// A JSON value says what it holds: its own text, number and truth value, and its items and
/// members at their places.
pub proof fn values_say_what_they_hold(
    text: String,
    number: Option<u64>,
    truth: bool,
    items: Vec<Json>,
    members: Vec<(String, Json)>,
)
    ensures
        Json::Null@ == Tree::Null,
        Json::Bool(truth)@ == Tree::Bool(truth),
        Json::Number(number)@ == Tree::Number(number),
        Json::Text(text)@ == Tree::Text(text@),
        Json::Array(items)@ matches Tree::Array(trees) && trees.len() == items@.len() && (forall|
            i: int,
        |
            0 <= i < trees.len() ==> #[trigger] trees[i] == items@[i]@),
        Json::Object(members)@ matches Tree::Object(trees) && trees.len() == members@.len() && (
        forall|i: int|
            0 <= i < trees.len() ==> #[trigger] trees[i] == (members@[i].0@, members@[i].1@)),
{
}

/// The member with a name is the first of the object's members that has it, and nothing but an
/// object has members.
pub proof fn member_is_the_first_with_its_name(
    members: Seq<(Seq<char>, Tree)>,
    name: Seq<char>,
    at: int,
)
    requires
        0 <= at <= members.len(),
        at < members.len() ==> members[at].0 == name,
        forall|i: int| 0 <= i < at ==> (#[trigger] members[i]).0 != name,
    ensures
        at < members.len() ==> Tree::Object(members).member(name) == Some(members[at].1),
        at == members.len() ==> Tree::Object(members).member(name) is None,
    decreases members.len(),
{
    if at > 0 {
        let rest = members.skip(1);
        assert(members[0].0 != name);
        assert forall|i: int| 0 <= i < at - 1 implies (#[trigger] rest[i]).0 != name by {
            assert(rest[i] == members[i + 1]);
        }
        member_is_the_first_with_its_name(rest, name, at - 1);
    }
}

/// A member's text, number and items are those of the value with that name, where it has them.
pub proof fn member_is_read_as_it_is(tree: Tree, name: Seq<char>)
    ensures
        !(tree is Object) ==> tree.member(name) is None,
        tree.member(name) matches Some(Tree::Text(text)) ==> tree.text_member(name) == Some(text),
        !(tree.member(name) matches Some(Tree::Text(_))) ==> tree.text_member(name) is None,
        tree.member(name) matches Some(Tree::Number(number)) ==> tree.number_member(name) == number,
        !(tree.member(name) matches Some(Tree::Number(_))) ==> tree.number_member(name) is None,
        tree.member(name) matches Some(Tree::Array(items)) ==> tree.items_member(name) == items,
        !(tree.member(name) matches Some(Tree::Array(_))) ==> tree.items_member(name).len() == 0,
{
}

/// The parts of a value stand for the tree of the value, items and members at their places.
proof fn parts_stand_for_their_tree(
    text: String,
    number: Option<u64>,
    truth: bool,
    items: Vec<serde_json::Value>,
    members: Vec<(String, serde_json::Value)>,
)
    ensures
        Parts::Null.tree() == Tree::Null,
        Parts::Bool(truth).tree() == Tree::Bool(truth),
        Parts::Number(number).tree() == Tree::Number(number),
        Parts::Text(text).tree() == Tree::Text(text@),
        Parts::Array(items).tree() matches Tree::Array(trees) && trees.len() == items@.len() && (
        forall|i: int| 0 <= i < trees.len() ==> #[trigger] trees[i] == value_tree(items@[i])),
        Parts::Object(members).tree() matches Tree::Object(trees) && trees.len() == members@.len()
            && (forall|i: int|
            0 <= i < trees.len() ==> #[trigger] trees[i] == (
                members@[i].0@,
                value_tree(members@[i].1),
            )),
{
}

} // verus!
