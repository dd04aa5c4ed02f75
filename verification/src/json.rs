//! Flat JSON objects: what the protocol reads and writes of a document is its
//! top level members that are texts, flags or unsigned numbers.
use vstd::prelude::*;

use crate::text;
use crate::text::same_text;

verus! {

/// The value of a member.
pub enum Leaf {
    Text(String),
    Flag(bool),
    Number(u64),
    /// Null, a number that is no unsigned 64 bit integer, an array, an object.
    Other,
}

/// What a member's value stands for.
pub enum LeafView {
    Text(Seq<char>),
    Flag(bool),
    Number(u64),
    Other,
}

impl View for Leaf {
    type V = LeafView;

    open spec fn view(&self) -> LeafView {
        match *self {
            Leaf::Text(s) => LeafView::Text(s@),
            Leaf::Flag(b) => LeafView::Flag(b),
            Leaf::Number(n) => LeafView::Number(n),
            Leaf::Other => LeafView::Other,
        }
    }
}

/// Members by what they stand for, in the order in which they are written.
pub type Members = Seq<(Seq<char>, LeafView)>;

/// A document, by the names of its members.
pub type Object = Map<Seq<char>, LeafView>;

/// What a list of members stands for.
pub open spec fn members_view(list: Seq<(String, Leaf)>) -> Members {
    Seq::new(list.len(), |i: int| (list[i].0@, list[i].1@))
}

/// The document that members make; of two with one name the later one counts.
pub open spec fn object_of(members: Members) -> Object
    decreases members.len(),
{
    if members.len() == 0 {
        Map::empty()
    } else {
        object_of(members.drop_last()).insert(members.last().0, members.last().1)
    }
}

/// No name stands there twice.
pub open spec fn distinct_names(members: Members) -> bool {
    forall|i: int, j: int|
        0 <= i < j < members.len() ==> (#[trigger] members[i]).0 != (#[trigger] members[j]).0
}

/// One more member replaces the one of its name, and leaves the others.
pub proof fn lemma_object_push(members: Members, key: Seq<char>, value: LeafView)
    ensures
        object_of(members.push((key, value))) == object_of(members).insert(key, value),
{
    assert(members.push((key, value)).drop_last() =~= members);
}

/// The document that bytes hold when read as JSON: nothing if they are no JSON,
/// and no members if they are JSON other than an object.
pub uninterp spec fn json_object(text: Seq<u8>) -> Option<Map<Seq<char>, LeafView>>;

/// The JSON text that members are written as.
pub uninterp spec fn json_text(members: Seq<(Seq<char>, LeafView)>) -> Seq<char>;

/// `serde_json::from_slice` into a `serde_json::Value`: reads bytes as JSON and
/// hands out the members of the top level object, or none if the bytes are JSON
/// of another kind. Bytes that are no JSON give nothing. Which bytes hold which
/// document is left to the name `json_object`.
#[verifier::external_body]
pub(crate) fn read_json(text: &[u8]) -> (r: Option<Vec<(String, Leaf)>>)
    ensures
        match r {
            Some(list) => json_object(text@) == Some(object_of(members_view(list@))),
            None => json_object(text@) is None,
        },
{
    let value = serde_json::from_slice::<serde_json::Value>(text).ok()?;
    let leaf = |value: &serde_json::Value| match value {
        serde_json::Value::String(s) => Leaf::Text(s.clone()),
        serde_json::Value::Bool(b) => Leaf::Flag(*b),
        serde_json::Value::Number(n) => n.as_u64().map_or(Leaf::Other, Leaf::Number),
        serde_json::Value::Null => Leaf::Other,
        serde_json::Value::Array(_) => Leaf::Other,
        serde_json::Value::Object(_) => Leaf::Other,
    };
    let members = value.as_object().into_iter().flatten();
    Some(members.map(|(key, value)| (key.clone(), leaf(value))).collect())
}

/// `serde_json::Value::to_string` of an object: writes members, no two of one
/// name, as a JSON text. Which text that is, is left to the name `json_text`; it
/// is a single line, as line feeds are escaped, and reading its bytes gives the
/// document of the members back. Which of two members of one name would be
/// written is not documented, so such lists are left out.
#[verifier::external_body]
pub(crate) fn write_json(list: Vec<(String, Leaf)>) -> (r: String)
    requires
        distinct_names(members_view(list@)),
    ensures
        r@ == json_text(members_view(list@)),
        json_object(vstd::utf8::encode_utf8(r@)) == Some(object_of(members_view(list@))),
        forall|i: int| 0 <= i < r@.len() ==> #[trigger] r@[i] != '\n',
{
    let value = |leaf: Leaf| match leaf {
        Leaf::Text(s) => serde_json::Value::String(s),
        Leaf::Flag(b) => serde_json::Value::Bool(b),
        Leaf::Number(n) => serde_json::Value::from(n),
        Leaf::Other => serde_json::Value::Null,
    };
    serde_json::Value::Object(list.into_iter().map(|(k, v)| (k, value(v))).collect()).to_string()
}

/// The text of a member, if it is there and is a text.
pub open spec fn text_at(o: Object, key: Seq<char>) -> Option<Seq<char>> {
    if o.dom().contains(key) {
        match o[key] {
            LeafView::Text(s) => Some(s),
            _ => None,
        }
    } else {
        None
    }
}

/// The number of a member, if it is there and is an unsigned number.
pub open spec fn number_at(o: Object, key: Seq<char>) -> Option<u64> {
    if o.dom().contains(key) {
        match o[key] {
            LeafView::Number(n) => Some(n),
            _ => None,
        }
    } else {
        None
    }
}

/// The flag of a member, if it is there and is a flag.
pub open spec fn flag_at(o: Object, key: Seq<char>) -> Option<bool> {
    if o.dom().contains(key) {
        match o[key] {
            LeafView::Flag(b) => Some(b),
            _ => None,
        }
    } else {
        None
    }
}

/// The position of the member that counts under a name.
pub fn find_member(list: &Vec<(String, Leaf)>, key: &str) -> (r: Option<usize>)
    ensures
        match r {
            Some(i) => i < list@.len() && object_of(members_view(list@)).dom().contains(key@)
                && object_of(members_view(list@))[key@] == list@[i as int].1@,
            None => !object_of(members_view(list@)).dom().contains(key@),
        },
{
    let ghost members = members_view(list@);
    let mut n: usize = list.len();
    assert(members.take(n as int) =~= members);
    while n > 0
        invariant
            n <= list@.len(),
            members == members_view(list@),
            object_of(members).dom().contains(key@) == object_of(
                members.take(n as int),
            ).dom().contains(key@),
            object_of(members)[key@] == object_of(members.take(n as int))[key@],
        decreases n,
    {
        let ghost head = members.take(n as int);
        assert(head.drop_last() =~= members.take(n - 1));
        assert(head.last() == members[n - 1]);
        if same_text(list[n - 1].0.as_str(), key) {
            return Some(n - 1);
        }
        n = n - 1;
    }
    None
}

/// Reads a text member.
pub fn text_member(list: &Vec<(String, Leaf)>, key: &str) -> (r: Option<String>)
    ensures
        text::opt_view(r) == text_at(object_of(members_view(list@)), key@),
{
    match find_member(list, key) {
        Some(i) => match &list[i].1 {
            Leaf::Text(s) => Some(s.clone()),
            _ => None,
        },
        None => None,
    }
}

/// Reads a number member.
pub fn number_member(list: &Vec<(String, Leaf)>, key: &str) -> (r: Option<u64>)
    ensures
        r == number_at(object_of(members_view(list@)), key@),
{
    match find_member(list, key) {
        Some(i) => match &list[i].1 {
            Leaf::Number(n) => Some(*n),
            _ => None,
        },
        None => None,
    }
}

/// Reads a flag member.
pub fn flag_member(list: &Vec<(String, Leaf)>, key: &str) -> (r: Option<bool>)
    ensures
        r == flag_at(object_of(members_view(list@)), key@),
{
    match find_member(list, key) {
        Some(i) => match &list[i].1 {
            Leaf::Flag(b) => Some(*b),
            _ => None,
        },
        None => None,
    }
}

/// Appends a member to a list of members.
pub fn put(list: &mut Vec<(String, Leaf)>, key: &str, value: Leaf)
    ensures
        members_view(final(list)@) == members_view(old(list)@).push((key@, value@)),
{
    let ghost before = members_view(list@);
    list.push((key.to_string(), value));
    assert(members_view(list@) =~= before.push((key@, value@)));
}

/// A member is found under its name with its value, and nothing is found under any
/// other name.
pub proof fn law_member_is_found(members: Members, i: int)
    requires
        distinct_names(members),
        0 <= i < members.len(),
    ensures
        object_of(members).dom().contains(members[i].0),
        object_of(members)[members[i].0] == members[i].1,
        forall|key: Seq<char>|
            #[trigger] object_of(members).dom().contains(key) ==> exists|k: int|
                0 <= k < members.len() && (#[trigger] members[k]).0 == key,
    decreases members.len(),
{
    let before = members.drop_last();
    let end = members.len() - 1;
    assert(distinct_names(before)) by {
        assert forall|a: int, b: int| 0 <= a < b < before.len() implies (#[trigger] before[a]).0 != (
        #[trigger] before[b]).0 by {
            assert(before[a] == members[a] && before[b] == members[b]);
        }
    }
    if before.len() > 0 {
        law_member_is_found(before, if i < end {
            i
        } else {
            0
        });
    }
    if i < end {
        assert(before[i] == members[i]);
        assert(members[i].0 != members[end].0);
    }
    assert forall|key: Seq<char>| #[trigger] object_of(members).dom().contains(key) implies exists|
        k: int,
    |
        0 <= k < members.len() && (#[trigger] members[k]).0 == key by {
        if key == members[end].0 {
            assert(members[end].0 == key);
        } else {
            assert(object_of(before).dom().contains(key));
            let k = choose|k: int| 0 <= k < before.len() && (#[trigger] before[k]).0 == key;
            assert(members[k].0 == key);
        }
    }
}

/// A member is read as what it is: a text, a number or a flag; where it is missing
/// or of another kind, nothing is read.
pub proof fn law_members_are_read_by_kind(o: Object, key: Seq<char>)
    ensures
        !o.dom().contains(key) ==> text_at(o, key) is None && number_at(o, key) is None && flag_at(
            o,
            key,
        ) is None,
        o.dom().contains(key) ==> {
            &&& text_at(o, key) is Some <==> o[key] is Text
            &&& number_at(o, key) is Some <==> o[key] is Number
            &&& flag_at(o, key) is Some <==> o[key] is Flag
            &&& o[key] matches LeafView::Text(s) ==> text_at(o, key) == Some(s)
            &&& o[key] matches LeafView::Number(n) ==> number_at(o, key) == Some(n)
            &&& o[key] matches LeafView::Flag(b) ==> flag_at(o, key) == Some(b)
        },
{
}

/// What is known of a list of members is each of them, in order.
pub proof fn law_members_are_known_whole(list: Seq<(String, Leaf)>, i: int)
    ensures
        members_view(list).len() == list.len(),
        0 <= i < list.len() ==> {
            &&& members_view(list)[i].0 == list[i].0@
            &&& list[i].1 matches Leaf::Text(s) ==> members_view(list)[i].1 == LeafView::Text(s@)
            &&& list[i].1 matches Leaf::Flag(b) ==> members_view(list)[i].1 == LeafView::Flag(b)
            &&& list[i].1 matches Leaf::Number(n) ==> members_view(list)[i].1 == LeafView::Number(n)
            &&& list[i].1 is Other ==> members_view(list)[i].1 is Other
        },
{
}

} // verus!
