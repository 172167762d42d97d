//! The members of a JSON object and the items of a JSON array, as texts.
//!
//! `serde_json` reads and writes the texts. A member's value and an item are kept as
//! they stand in the text, without the white space around them.

use std::collections::BTreeMap;

use serde_json::value::RawValue;
use vstd::prelude::*;

verus! {

/// The error of `serde_json`.
#[verifier::external_type_specification]
#[verifier::external_body]
pub struct ExJsonError(serde_json::Error);

/// A member of an object: its name, and the text of its value.
pub struct Member {
    pub name: String,
    pub text: String,
}

/// What `serde_json` takes a text for: the JSON value that it holds, without the white
/// space around it, or `None` where it holds none.
pub uninterp spec fn value_of(text: Seq<char>) -> Option<Seq<char>>;

/// The members of the object that a text holds, each by the text of its value, or `None`
/// where the text holds no object.
pub uninterp spec fn object_of(text: Seq<char>) -> Option<Map<Seq<char>, Seq<char>>>;

/// The items of the array that a text holds, or `None` where the text holds no array.
pub uninterp spec fn array_of(text: Seq<char>) -> Option<Seq<Seq<char>>>;

/// Whether a text is a JSON value with nothing around it.
pub open spec fn is_value(text: Seq<char>) -> bool {
    value_of(text) == Some(text)
}

/// What a sequence of texts holds.
pub open spec fn texts(strings: Seq<String>) -> Seq<Seq<char>> {
    strings.map_values(|s: String| s@)
}

/// Members by their names, the later one where two share a name.
pub open spec fn members_map(members: Seq<Member>) -> Map<Seq<char>, Seq<char>>
    decreases members.len(),
{
    if members.len() == 0 {
        Map::empty()
    } else {
        members_map(members.drop_last()).insert(members.last().name@, members.last().text@)
    }
}

/// Reads the members of an object with `serde_json::from_str`, into a map from names to
/// raw values. It succeeds where the text holds an object, and each value is then a JSON
/// value with nothing around it: a raw value is a slice of the text that was read as a
/// value and starts behind the white space.
#[verifier::external_body]
pub(crate) fn parse_object(text: &str) -> (result: Result<Vec<Member>, serde_json::Error>)
    ensures
        match result {
            Ok(members) => object_of(text@) == Some(members_map(members@)) && (forall|i: int|
                0 <= i < members.len() ==> is_value((#[trigger] members[i]).text@)),
            Err(_) => object_of(text@) is None,
        },
{
    let map: BTreeMap<String, Box<RawValue>> = serde_json::from_str(text)?;
    Ok(map.into_iter().map(|(name, v)| Member { name, text: v.get().to_owned() }).collect())
}

/// Writes members as an object with `serde_json::to_string`, from a map from names to raw
/// values that `RawValue::from_string` makes. Raw values are written word for word and
/// names are escaped, so reading the text gives the same members back. Nothing in this
/// can fail when each value is a JSON value.
#[verifier::external_body]
pub(crate) fn write_object(members: &Vec<Member>) -> (result: Result<String, serde_json::Error>)
    requires
        forall|i: int| 0 <= i < members.len() ==> is_value((#[trigger] members[i]).text@),
    ensures
        result is Ok,
        object_of(result->Ok_0@) == Some(members_map(members@)),
{
    let mut map: BTreeMap<&str, Box<RawValue>> = BTreeMap::new();
    for member in members {
        map.insert(&member.name, RawValue::from_string(member.text.clone())?);
    }
    serde_json::to_string(&map)
}

/// Reads the items of an array with `serde_json::from_str`, into raw values. It succeeds
/// where the text holds an array, and each item is then a JSON value with nothing around
/// it.
#[verifier::external_body]
pub(crate) fn parse_array(text: &str) -> (result: Result<Vec<String>, serde_json::Error>)
    ensures
        match result {
            Ok(items) => array_of(text@) == Some(texts(items@)) && (forall|i: int|
                0 <= i < items.len() ==> is_value((#[trigger] items[i])@)),
            Err(_) => array_of(text@) is None,
        },
{
    let items: Vec<Box<RawValue>> = serde_json::from_str(text)?;
    Ok(items.into_iter().map(|v| v.get().to_owned()).collect())
}

/// Writes texts as the items of an array with `serde_json::to_string`, as raw values that
/// `RawValue::from_string` makes. It fails where a text is no JSON value. What is written
/// is a JSON value with nothing around it, and reading it gives the items back, without
/// the white space around each.
#[verifier::external_body]
pub(crate) fn write_array(items: &Vec<String>) -> (result: Result<String, serde_json::Error>)
    ensures
        match result {
            Ok(text) => is_value(text@) && (forall|i: int|
                0 <= i < items.len() ==> value_of((#[trigger] items[i])@) is Some) && array_of(
                text@,
            ) == Some(items@.map_values(|s: String| value_of(s@).unwrap())),
            Err(_) => exists|i: int|
                0 <= i < items.len() && value_of((#[trigger] items[i])@) is None,
        },
{
    let mut raw: Vec<Box<RawValue>> = Vec::new();
    for item in items {
        raw.push(RawValue::from_string(item.clone())?);
    }
    serde_json::to_string(&raw)
}

/// The wording of an error of `serde_json`, by its `to_string`. Nothing is claimed of it.
#[verifier::external_body]
pub(crate) fn describe(error: &serde_json::Error) -> (text: String) {
    error.to_string()
}

/// The members but those of one name.
pub open spec fn members_but(members: Seq<Member>, name: Seq<char>) -> Seq<Member> {
    members.filter(|m: Member| m.name@ != name)
}

/// Leaving out the members of one name takes it out of the map.
pub proof fn lemma_members_but(members: Seq<Member>, name: Seq<char>)
    ensures
        members_map(members_but(members, name)) == members_map(members).remove(name),
    decreases members.len(),
{
    let pred = |m: Member| m.name@ != name;
    reveal(Seq::filter);
    if members.len() > 0 {
        lemma_members_but(members.drop_last(), name);
        let rest = members_but(members.drop_last(), name);
        if pred(members.last()) {
            assert(members_but(members, name) == rest.push(members.last()));
            assert(rest.push(members.last()).drop_last() =~= rest);
        }
    }
    assert(members_map(members_but(members, name)) =~= members_map(members).remove(name));
}

/// Leaving out members leaves JSON values what they are.
pub proof fn lemma_members_but_values(members: Seq<Member>, name: Seq<char>)
    requires
        forall|i: int| 0 <= i < members.len() ==> is_value((#[trigger] members[i]).text@),
    ensures
        forall|i: int|
            0 <= i < members_but(members, name).len() ==> is_value(
                (#[trigger] members_but(members, name)[i]).text@,
            ),
    decreases members.len(),
{
    reveal(Seq::filter);
    if members.len() > 0 {
        let init = members.drop_last();
        assert forall|i: int| 0 <= i < init.len() implies is_value((#[trigger] init[i]).text@) by {
            assert(init[i] == members[i]);
        }
        lemma_members_but_values(init, name);
        let last = members[members.len() - 1];
        assert(is_value(last.text@));
        let rest = members_but(init, name);
        assert(members_but(members, name) == if last.name@ != name {
            rest.push(last)
        } else {
            rest
        });
        assert forall|i: int| 0 <= i < members_but(members, name).len() implies is_value(
            (#[trigger] members_but(members, name)[i]).text@,
        ) by {
            if i < rest.len() {
                assert(members_but(members, name)[i] == rest[i]);
            }
        }
    }
}

/// Takes the members of one name out, and gives the text of the last of them.
pub fn take_member(members: Vec<Member>, name: &str) -> (taken: (Vec<Member>, Option<String>))
    ensures
        taken.0@ == members_but(members@, name@),
        members_map(taken.0@) == members_map(members@).remove(name@),
        match taken.1 {
            Some(text) => members_map(members@).contains_key(name@) && text@ == members_map(
                members@,
            )[name@],
            None => !members_map(members@).contains_key(name@),
        },
{
    let ghost all = members@;
    let wanted = name.to_owned();
    let mut rest: Vec<Member> = Vec::new();
    let mut found: Option<String> = None;
    proof {
        reveal(Seq::filter);
    }
    for member in iter: members
        invariant
            iter.seq() == all,
            wanted@ == name@,
            rest@ == members_but(all.take(iter.index()), name@),
            match found {
                Some(text) => members_map(all.take(iter.index())).contains_key(name@) && text@
                    == members_map(all.take(iter.index()))[name@],
                None => !members_map(all.take(iter.index())).contains_key(name@),
            },
    {
        proof {
            reveal(Seq::filter);
            let done = all.take(iter.index() + 1);
            assert(done.drop_last() =~= all.take(iter.index()));
            assert(done.last() == member);
        }
        if member.name == wanted {
            found = Some(member.text);
        } else {
            rest.push(member);
        }
    }
    proof {
        assert(all.take(all.len() as int) =~= all);
        lemma_members_but(all, name@);
    }
    (rest, found)
}

/// Sets the member of one name.
pub fn put_member(members: Vec<Member>, name: &str, text: String) -> (put: Vec<Member>)
    ensures
        put@.len() == members_but(members@, name@).len() + 1,
        put@.drop_last() == members_but(members@, name@),
        put@.last().text == text,
        members_map(put@) == members_map(members@).insert(name@, text@),
{
    let ghost before = members_map(members@);
    let ghost body = text@;
    let (rest, _found) = take_member(members, name);
    let mut put = rest;
    put.push(Member { name: name.to_owned(), text });
    proof {
        assert(put@.drop_last() =~= rest@);
        assert(before.remove(name@).insert(name@, body) =~= before.insert(name@, body));
    }
    put
}

} // verus!
