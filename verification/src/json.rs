//! JSON values, as far as the exchange's messages need them.

use vstd::prelude::*;

use crate::amount::MAX_SCALE;

verus! {

/// What a JSON value says. Of a number it keeps two readings: as an unsigned
/// integer, and as a decimal `mantissa / 10^scale`.
pub enum JsonView {
    Null,
    Bool(bool),
    Number { whole: Option<u64>, decimal: Option<(i128, u32)> },
    Text(Seq<char>),
    Array(Seq<JsonView>),
    Object(Map<Seq<char>, JsonView>),
}

/// A JSON value.
pub enum Json {
    Null,
    Bool(bool),
    Number {
        /// The number, where it is an integer that `u64` holds.
        whole: Option<u64>,
        /// The number as a mantissa and a scale, where it has such a form.
        decimal: Option<(i128, u32)>,
    },
    Text(String),
    Array(Vec<Json>),
    /// Of two members with one name the later counts.
    Object(Vec<(String, Json)>),
}

impl Json {
    pub open spec fn tree(self) -> JsonView
        decreases self,
    {
        match self {
            Json::Null => JsonView::Null,
            Json::Bool(value) => JsonView::Bool(value),
            Json::Number { whole, decimal } => JsonView::Number { whole, decimal },
            Json::Text(text) => JsonView::Text(text@),
            Json::Array(items) => JsonView::Array(item_trees(items@)),
            Json::Object(members) => JsonView::Object(member_trees(members@)),
        }
    }
}

pub open spec fn item_trees(items: Seq<Json>) -> Seq<JsonView>
    decreases items,
{
    if items.len() == 0 {
        Seq::empty()
    } else {
        item_trees(items.drop_last()).push(items.last().tree())
    }
}

pub open spec fn member_trees(members: Seq<(String, Json)>) -> Map<Seq<char>, JsonView>
    decreases members,
{
    if members.len() == 0 {
        Map::empty()
    } else {
        member_trees(members.drop_last()).insert(members.last().0@, members.last().1.tree())
    }
}

impl View for Json {
    type V = JsonView;

    open spec fn view(&self) -> JsonView {
        self.tree()
    }
}

impl JsonView {
    /// The member of an object that has this name.
    pub open spec fn member(self, name: Seq<char>) -> Option<JsonView> {
        match self {
            JsonView::Object(members) => if members.contains_key(name) {
                Some(members[name])
            } else {
                None
            },
            _ => None,
        }
    }

    /// The member of an object that has this name, null where there is none.
    pub open spec fn field(self, name: Seq<char>) -> JsonView {
        match self.member(name) {
            Some(value) => value,
            None => JsonView::Null,
        }
    }

    /// The item of an array that stands at `index`, null where there is none.
    pub open spec fn item(self, index: int) -> JsonView {
        match self {
            JsonView::Array(items) => if 0 <= index < items.len() {
                items[index]
            } else {
                JsonView::Null
            },
            _ => JsonView::Null,
        }
    }

    pub open spec fn items(self) -> Option<Seq<JsonView>> {
        match self {
            JsonView::Array(items) => Some(items),
            _ => None,
        }
    }

    pub open spec fn text(self) -> Option<Seq<char>> {
        match self {
            JsonView::Text(text) => Some(text),
            _ => None,
        }
    }

    pub open spec fn whole(self) -> Option<u64> {
        match self {
            JsonView::Number { whole, .. } => whole,
            _ => None,
        }
    }

    /// The mantissa and the scale of the decimal that a number or a string is.
    pub open spec fn decimal(self) -> Option<(i128, u32)> {
        match self {
            JsonView::Number { decimal, .. } => decimal,
            JsonView::Text(text) => deserialized_decimal(text),
            _ => None,
        }
    }

    pub open spec fn truth(self) -> Option<bool> {
        match self {
            JsonView::Bool(value) => Some(value),
            _ => None,
        }
    }
}

/// Every number of a document is an integer that `u64` holds.
pub open spec fn whole_numbers(tree: JsonView) -> bool
    decreases tree,
{
    match tree {
        JsonView::Number { whole, .. } => whole is Some,
        JsonView::Array(items) => forall|i: int|
            0 <= i < items.len() ==> whole_numbers(#[trigger] items[i]),
        JsonView::Object(members) => members.dom().finite() && forall|name: Seq<char>|
            members.contains_key(name) ==> whole_numbers(#[trigger] members[name]),
        _ => true,
    }
}

proof fn lemma_item_trees(items: Seq<Json>)
    ensures
        item_trees(items).len() == items.len(),
        forall|i: int| 0 <= i < items.len() ==> #[trigger] item_trees(items)[i] == items[i].tree(),
    decreases items.len(),
{
    if items.len() > 0 {
        lemma_item_trees(items.drop_last());
        assert forall|i: int| 0 <= i < items.len() implies #[trigger] item_trees(items)[i]
            == items[i].tree() by {
            if i < items.len() - 1 {
                assert(item_trees(items)[i] == item_trees(items.drop_last())[i]);
                assert(items.drop_last()[i] == items[i]);
            }
        }
    }
}

/// The last of the members with a name is the one that counts.
proof fn lemma_last_member(members: Seq<(String, Json)>, name: Seq<char>, k: int)
    requires
        -1 <= k < members.len(),
        k >= 0 ==> members[k].0@ == name,
        forall|i: int| k < i < members.len() ==> (#[trigger] members[i]).0@ != name,
    ensures
        member_trees(members).contains_key(name) == (k >= 0),
        k >= 0 ==> member_trees(members)[name] == members[k].1.tree(),
    decreases members.len(),
{
    if members.len() > 0 {
        let rest = members.drop_last();
        if k < members.len() - 1 {
            assert(members.last().0@ != name);
            assert forall|i: int| k < i < rest.len() implies (#[trigger] rest[i]).0@ != name by {
                assert(rest[i] == members[i]);
            }
            if k >= 0 {
                assert(rest[k] == members[k]);
            }
            lemma_last_member(rest, name, k);
        }
    }
}

/// A JSON value is seen as what it holds: an array item by item, and an object by the
/// names of its members, of two with one name the later.
pub proof fn law_json_is_seen_as_it_is(json: Json, name: Seq<char>, last: int)
    requires
        json matches Json::Object(members) ==> {
            &&& -1 <= last < members@.len()
            &&& last >= 0 ==> members@[last].0@ == name
            &&& forall|i: int| last < i < members@.len() ==> (#[trigger] members@[i]).0@ != name
        },
    ensures
        match json {
            Json::Null => json@ == JsonView::Null,
            Json::Bool(truth) => json@ == JsonView::Bool(truth),
            Json::Number { whole, decimal } => json@ == (JsonView::Number { whole, decimal }),
            Json::Text(text) => json@ == JsonView::Text(text@),
            Json::Array(items) => {
                &&& json@ matches JsonView::Array(views)
                &&& views.len() == items@.len()
                &&& forall|i: int| 0 <= i < items@.len() ==> #[trigger] views[i] == items@[i]@
            },
            Json::Object(members) => {
                &&& json@ matches JsonView::Object(views)
                &&& views.contains_key(name) == (last >= 0)
                &&& last >= 0 ==> views[name] == members@[last].1@
            },
        },
{
    match json {
        Json::Array(items) => {
            lemma_item_trees(items@);
        },
        Json::Object(members) => {
            lemma_last_member(members@, name, last);
        },
        _ => {},
    }
}

impl Json {
    /// The member of an object that has this name.
    pub fn get(&self, name: &str) -> (value: Option<&Json>)
        ensures
            match value {
                Some(found) => self@.member(name@) == Some(found@),
                None => self@.member(name@) is None,
            },
    {
        if let Json::Object(members) = self {
            let wanted: String = name.to_owned();
            let mut i: usize = members.len();
            while i > 0
                invariant
                    i <= members@.len(),
                    wanted@ == name@,
                    self@ == JsonView::Object(member_trees(members@)),
                    forall|j: int| i <= j < members@.len() ==> (#[trigger] members@[j]).0@ != name@,
                decreases i,
            {
                i = i - 1;
                if members[i].0 == wanted {
                    proof {
                        lemma_last_member(members@, name@, i as int);
                    }
                    return Some(&members[i].1);
                }
            }
            proof {
                lemma_last_member(members@, name@, -1);
            }
        }
        None
    }

    /// The item of an array that stands at `index`.
    pub fn at(&self, index: usize) -> (value: Option<&Json>)
        ensures
            match value {
                Some(found) => self@ is Array && index < self@->Array_0.len()
                    && self@->Array_0[index as int] == found@,
                None => !(self@ is Array && index < self@->Array_0.len()),
            },
    {
        if let Json::Array(items) = self {
            proof {
                lemma_item_trees(items@);
            }
            if index < items.len() {
                return Some(&items[index]);
            }
        }
        None
    }

    /// The number of items, where this is an array.
    pub fn count(&self) -> (count: Option<usize>)
        ensures
            match count {
                Some(n) => self@ is Array && n == self@->Array_0.len(),
                None => !(self@ is Array),
            },
    {
        match self {
            Json::Array(items) => {
                proof {
                    lemma_item_trees(items@);
                }
                Some(items.len())
            },
            _ => None,
        }
    }

    pub fn as_text(&self) -> (text: Option<&str>)
        ensures
            match text {
                Some(found) => self@.text() == Some(found@),
                None => self@.text() is None,
            },
    {
        match self {
            Json::Text(text) => Some(text.as_str()),
            _ => None,
        }
    }

    pub fn as_whole(&self) -> (whole: Option<u64>)
        ensures
            whole == self@.whole(),
    {
        match self {
            Json::Number { whole, .. } => *whole,
            _ => None,
        }
    }

    pub fn as_truth(&self) -> (truth: Option<bool>)
        ensures
            truth == self@.truth(),
    {
        match self {
            Json::Bool(value) => Some(*value),
            _ => None,
        }
    }
}

/// A parsed JSON document, as `serde_json` holds it.
#[verifier::external_type_specification]
#[verifier::external_body]
pub struct ExValue(serde_json::Value);

/// Why `serde_json` could not read a text.
#[verifier::external_type_specification]
#[verifier::external_body]
pub struct ExJsonError(serde_json::Error);

/// What a `serde_json::Value` holds.
pub uninterp spec fn json_tree(value: serde_json::Value) -> JsonView;

/// What `serde_json::from_str` reads out of a text, where it can read it.
pub uninterp spec fn parsed_json(text: Seq<char>) -> Option<JsonView>;

/// What `serde_json` says of a text that it cannot read.
pub uninterp spec fn json_complaint(text: Seq<char>) -> Seq<char>;

/// What a `serde_json::Error` says: the text of its `Display`.
pub uninterp spec fn error_text(error: serde_json::Error) -> Seq<char>;

/// The text that `serde_json` writes for a document whose numbers are all whole.
pub uninterp spec fn rendered_json(tree: JsonView) -> Seq<char>;

/// The mantissa and the scale of the decimal that `serde_json` makes of a JSON
/// string, where it makes one.
pub uninterp spec fn deserialized_decimal(text: Seq<char>) -> Option<(i128, u32)>;

/// The outermost level of a JSON document. A number stays as it is.
enum Node {
    Null,
    Bool(bool),
    Number(serde_json::Value),
    Text(String),
    Array(Vec<serde_json::Value>),
    Object(Vec<(String, serde_json::Value)>),
}

impl Node {
    spec fn tree(self) -> JsonView {
        match self {
            Node::Null => JsonView::Null,
            Node::Bool(value) => JsonView::Bool(value),
            Node::Number(number) => json_tree(number),
            Node::Text(text) => JsonView::Text(text@),
            Node::Array(items) => JsonView::Array(
                items@.map_values(|item: serde_json::Value| json_tree(item)),
            ),
            Node::Object(members) => JsonView::Object(value_members(members@)),
        }
    }
}

/// The members of an object by their names; of two with one name the later counts.
pub open spec fn value_members(members: Seq<(String, serde_json::Value)>) -> Map<Seq<char>, JsonView>
    decreases members.len(),
{
    if members.len() == 0 {
        Map::empty()
    } else {
        value_members(members.drop_last()).insert(members.last().0@, json_tree(members.last().1))
    }
}

/// No two members have one name.
pub open spec fn distinct_names(members: Seq<(String, serde_json::Value)>) -> bool {
    forall|i: int, j: int|
        0 <= i < j < members.len() ==> (#[trigger] members[i]).0@ != (#[trigger] members[j]).0@
}

/// Calls `serde_json::from_str` for a `serde_json::Value`. Claimed: it succeeds
/// on the texts for which `parsed_json` has a value, and gives that value; what
/// the error for another text says depends on the text alone.
#[verifier::external_body]
fn parse_value(text: &str) -> (value: Result<serde_json::Value, serde_json::Error>)
    ensures
        match value {
            Ok(found) => parsed_json(text@) == Some(json_tree(found)),
            Err(error) => parsed_json(text@) is None && error_text(error) == json_complaint(text@),
        },
{
    serde_json::from_str::<serde_json::Value>(text)
}

/// Tells the variants of a `serde_json::Value` apart. Claimed: what the value
/// holds is what the node holds, and an object has no two members with one name.
#[verifier::external_body]
fn open_value(value: serde_json::Value) -> (node: Node)
    ensures
        json_tree(value) == node.tree(),
        node matches Node::Number(number) ==> json_tree(number) is Number,
        node matches Node::Object(members) ==> distinct_names(members@),
{
    match value {
        serde_json::Value::Null => Node::Null,
        serde_json::Value::Bool(value) => Node::Bool(value),
        serde_json::Value::Number(number) => Node::Number(serde_json::Value::Number(number)),
        serde_json::Value::String(text) => Node::Text(text),
        serde_json::Value::Array(items) => Node::Array(items),
        serde_json::Value::Object(members) => Node::Object(members.into_iter().collect()),
    }
}

/// Calls `serde_json::Value::as_u64`. Claimed: it gives the number, where the value
/// is an integer that `u64` holds.
#[verifier::external_body]
fn value_whole(value: &serde_json::Value) -> (whole: Option<u64>)
    ensures
        whole == json_tree(*value).whole(),
{
    value.as_u64()
}

/// Calls `serde_json::from_value` for a `rust_decimal::Decimal`, and takes
/// `mantissa` and `scale` of what comes. Claimed: only a number or a string gives
/// a decimal, which depends on what the value holds alone, and the scale is at
/// most `Decimal::MAX_SCALE`, which is 28.
#[verifier::external_body]
pub(crate) fn value_decimal(value: serde_json::Value) -> (parts: Option<(i128, u32)>)
    ensures
        match json_tree(value) {
            JsonView::Number { decimal, .. } => parts == decimal,
            JsonView::Text(text) => parts == deserialized_decimal(text),
            _ => parts is None,
        },
        parts matches Some((_, scale)) ==> scale <= MAX_SCALE,
{
    serde_json::from_value::<rust_decimal::Decimal>(value).ok().map(
        |decimal| (decimal.mantissa(), decimal.scale()),
    )
}

proof fn lemma_finite_members(members: Seq<(String, serde_json::Value)>)
    ensures
        value_members(members).dom().finite(),
    decreases members.len(),
{
    if members.len() > 0 {
        lemma_finite_members(members.drop_last());
    }
}

proof fn lemma_value_members(members: Seq<(String, serde_json::Value)>, k: int)
    requires
        distinct_names(members),
        0 <= k < members.len(),
    ensures
        value_members(members).contains_key(members[k].0@),
        value_members(members)[members[k].0@] == json_tree(members[k].1),
        value_members(members).dom().finite(),
    decreases members.len(),
{
    lemma_finite_members(members);
    if k < members.len() - 1 {
        let rest = members.drop_last();
        assert(distinct_names(rest)) by {
            assert forall|i: int, j: int| 0 <= i < j < rest.len() implies (#[trigger] rest[i]).0@
                != (#[trigger] rest[j]).0@ by {
                assert(rest[i] == members[i] && rest[j] == members[j]);
            }
        }
        assert(rest[k] == members[k]);
        assert(members[k].0@ != members.last().0@);
        lemma_value_members(rest, k);
    }
}

/// Takes a whole document over.
fn read_value(document: serde_json::Value) -> (json: Json)
    ensures
        json@ == json_tree(document),
    decreases json_tree(document),
{
    let ghost whole = json_tree(document);
    match open_value(document) {
        Node::Null => Json::Null,
        Node::Bool(value) => Json::Bool(value),
        Node::Number(number) => {
            let whole: Option<u64> = value_whole(&number);
            let decimal: Option<(i128, u32)> = value_decimal(number);
            Json::Number { whole, decimal }
        },
        Node::Text(text) => Json::Text(text),
        Node::Array(values) => {
            let ghost all = values@;
            let mut items: Vec<Json> = Vec::new();
            for value in rest: values
                invariant
                    rest.seq() == all,
                    whole == json_tree(document),
                    whole == JsonView::Array(
                        all.map_values(|item: serde_json::Value| json_tree(item)),
                    ),
                    item_trees(items@) == all.take(rest.index()).map_values(
                        |item: serde_json::Value| json_tree(item),
                    ),
            {
                let ghost done = items@;
                proof {
                    assert(whole->Array_0[rest.index() as int] == json_tree(value));
                }
                items.push(read_value(value));
                proof {
                    assert(items@.drop_last() =~= done);
                    assert(item_trees(items@) =~= all.take(rest.index() + 1).map_values(
                        |item: serde_json::Value| json_tree(item),
                    ));
                }
            }
            assert(all.take(all.len() as int) =~= all);
            Json::Array(items)
        },
        Node::Object(values) => {
            let ghost all = values@;
            let mut members: Vec<(String, Json)> = Vec::new();
            for member in rest: values
                invariant
                    rest.seq() == all,
                    whole == json_tree(document),
                    distinct_names(all),
                    whole == JsonView::Object(value_members(all)),
                    member_trees(members@) == value_members(all.take(rest.index())),
            {
                let ghost done = members@;
                let (name, value) = member;
                proof {
                    lemma_value_members(all, rest.index() as int);
                    assert(decreases_to!(whole->Object_0 => whole->Object_0[name@]));
                }
                members.push((name, read_value(value)));
                proof {
                    assert(members@.drop_last() =~= done);
                    assert(all.take(rest.index() + 1).drop_last() =~= all.take(rest.index()));
                }
            }
            assert(all.take(all.len() as int) =~= all);
            Json::Object(members)
        },
    }
}

/// Reads a JSON text.
pub fn parse_json(text: &str) -> (json: Result<Json, serde_json::Error>)
    ensures
        match json {
            Ok(found) => parsed_json(text@) == Some(found@),
            Err(error) => parsed_json(text@) is None && error_text(error) == json_complaint(text@),
        },
{
    match parse_value(text) {
        Ok(value) => Ok(read_value(value)),
        Err(error) => Err(error),
    }
}

/// Calls `serde_json::Value::from` on an integer. Claimed: the value is that
/// number, and as a decimal it has no decimal places.
#[verifier::external_body]
pub(crate) fn whole_value(number: u64) -> (value: serde_json::Value)
    ensures
        json_tree(value) == (JsonView::Number {
            whole: Some(number),
            decimal: Some((number as i128, 0u32)),
        }),
{
    serde_json::Value::from(number)
}

/// Calls `serde_json::Value::from` on a string. Claimed: the value is that text.
#[verifier::external_body]
pub(crate) fn text_value(text: String) -> (value: serde_json::Value)
    ensures
        json_tree(value) == JsonView::Text(text@),
{
    serde_json::Value::from(text)
}

/// Calls `serde_json::Value::from` on a vector. Claimed: the value is the array
/// of those items.
#[verifier::external_body]
pub(crate) fn array_value(items: Vec<serde_json::Value>) -> (value: serde_json::Value)
    ensures
        json_tree(value) == JsonView::Array(
            items@.map_values(|item: serde_json::Value| json_tree(item)),
        ),
{
    serde_json::Value::from(items)
}

/// Collects members into a `serde_json::Value`. Claimed: where no two have one
/// name, the value is the object of those members.
#[verifier::external_body]
pub(crate) fn object_value(members: Vec<(String, serde_json::Value)>) -> (value: serde_json::Value)
    requires
        distinct_names(members@),
    ensures
        json_tree(value) == JsonView::Object(value_members(members@)),
{
    members.into_iter().collect::<serde_json::Value>()
}

/// Writes a `serde_json::Value` out with its `Display`. Claimed: where all numbers
/// are integers that `u64` holds, the text depends on what the value holds alone.
/// How the text reads is not stated.
#[verifier::external_body]
pub(crate) fn render_value(value: &serde_json::Value) -> (text: String)
    requires
        whole_numbers(json_tree(*value)),
    ensures
        text@ == rendered_json(json_tree(*value)),
{
    value.to_string()
}

} // verus!
