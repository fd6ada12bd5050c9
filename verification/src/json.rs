//! JSON values, as far as the agent reads them.
use crate::text::same_text;
use vstd::prelude::*;

verus! {

/// A JSON value. A number is kept as the text that it is written with, and an
/// object as its members in order.
#[derive(Debug)]
pub enum Json {
    Null,
    Bool(bool),
    Number(String),
    Text(String),
    List(Vec<Json>),
    Object(Vec<(String, Json)>),
}

/// The value of the first member with the name `key`.
pub open spec fn member(members: Seq<(String, Json)>, key: Seq<char>) -> Option<Json>
    decreases members.len(),
{
    if members.len() == 0 {
        None
    } else if members.first().0@ == key {
        Some(members.first().1)
    } else {
        member(members.drop_first(), key)
    }
}

impl Json {
    /// The member of an object with the name `key`; nothing of any other value.
    pub open spec fn spec_get(self, key: Seq<char>) -> Option<Json> {
        match self {
            Json::Object(members) => member(members@, key),
            _ => None,
        }
    }

    /// The elements of a list; nothing of any other value.
    pub open spec fn elements(self) -> Option<Seq<Json>> {
        match self {
            Json::List(list) => Some(list@),
            _ => None,
        }
    }

    /// The characters of a text; nothing of any other value.
    pub open spec fn text(self) -> Option<Seq<char>> {
        match self {
            Json::Text(t) => Some(t@),
            _ => None,
        }
    }

    /// The text under the name `key`, where this is an object that has one.
    pub open spec fn text_at(self, key: Seq<char>) -> Option<Seq<char>> {
        match self.spec_get(key) {
            Some(value) => value.text(),
            None => None,
        }
    }

    /// The member of an object with the name `key`.
    pub fn get(&self, key: &str) -> (r: Option<&Json>)
        ensures
            match r {
                Some(value) => self.spec_get(key@) == Some(*value),
                None => self.spec_get(key@) is None,
            },
    {
        match self {
            Json::Object(members) => {
                let mut i: usize = 0;
                assert(members@.skip(0) =~= members@);
                while i < members.len()
                    invariant
                        i <= members.len(),
                        self.spec_get(key@) == member(members@.skip(i as int), key@),
                    decreases members.len() - i,
                {
                    assert(members@.skip(i as int).drop_first() =~= members@.skip(i + 1));
                    if same_text(members[i].0.as_str(), key) {
                        return Some(&members[i].1);
                    }
                    i += 1;
                }
                None
            },
            _ => None,
        }
    }

    /// The elements of a list.
    pub fn as_array(&self) -> (r: Option<&Vec<Json>>)
        ensures
            match r {
                Some(list) => self.elements() == Some(list@),
                None => self.elements() is None,
            },
    {
        match self {
            Json::List(list) => Some(list),
            _ => None,
        }
    }

    /// The characters of a text.
    pub fn as_str(&self) -> (r: Option<&str>)
        ensures
            match r {
                Some(t) => self.text() == Some(t@),
                None => self.text() is None,
            },
    {
        match self {
            Json::Text(t) => Some(t.as_str()),
            _ => None,
        }
    }

    /// The text under the name `key`.
    pub fn str_at(&self, key: &str) -> (r: Option<&str>)
        ensures
            match r {
                Some(t) => self.text_at(key@) == Some(t@),
                None => self.text_at(key@) is None,
            },
    {
        match self.get(key) {
            Some(value) => value.as_str(),
            None => None,
        }
    }
}

/// A member is looked up by its whole name: what is found is the value of the
/// first member so named, and nothing is found only where there is none.
pub proof fn law_get(json: &Json, key: &str, r: Option<&Json>)
    requires
        call_ensures(Json::get, (json, key), r),
    ensures
        match json {
            Json::Object(members) => match r {
                Some(value) => exists|k: int|
                    {
                        &&& 0 <= k < members@.len()
                        &&& (#[trigger] members@[k]).0@ == key@
                        &&& members@[k].1 == *value
                        &&& forall|j: int| 0 <= j < k ==> (#[trigger] members@[j]).0@ != key@
                    },
                None => forall|k: int|
                    0 <= k < members@.len() ==> (#[trigger] members@[k]).0@ != key@,
            },
            _ => r is None,
        },
{
    if let Json::Object(members) = json {
        lemma_member(members@, key@);
    }
}

proof fn lemma_member(members: Seq<(String, Json)>, key: Seq<char>)
    ensures
        match member(members, key) {
            Some(value) => exists|k: int|
                {
                    &&& 0 <= k < members.len()
                    &&& (#[trigger] members[k]).0@ == key
                    &&& members[k].1 == value
                    &&& forall|j: int| 0 <= j < k ==> (#[trigger] members[j]).0@ != key
                },
            None => forall|k: int| 0 <= k < members.len() ==> (#[trigger] members[k]).0@ != key,
        },
    decreases members.len(),
{
    if members.len() > 0 {
        if members.first().0@ == key {
            assert(members[0].0@ == key);
        } else {
            let rest = members.drop_first();
            lemma_member(rest, key);
            match member(rest, key) {
                Some(value) => {
                    let k = choose|k: int|
                        {
                            &&& 0 <= k < rest.len()
                            &&& (#[trigger] rest[k]).0@ == key
                            &&& rest[k].1 == value
                            &&& forall|j: int| 0 <= j < k ==> (#[trigger] rest[j]).0@ != key
                        };
                    assert(members[k + 1].0@ == key);
                    assert forall|j: int| 0 <= j < k + 1 implies (#[trigger] members[j]).0@
                        != key by {
                        if j > 0 {
                            assert(rest[j - 1] == members[j]);
                        }
                    }
                },
                None => {
                    assert forall|k: int| 0 <= k < members.len() implies (
                    #[trigger] members[k]).0@ != key by {
                        if k > 0 {
                            assert(rest[k - 1] == members[k]);
                        }
                    }
                },
            }
        }
    }
}

/// The text under a name is that of the value that is found there, where this is
/// a text. No other value is taken for one.
pub proof fn law_str_at(json: &Json, key: &str, found: Option<&Json>, r: Option<&str>)
    requires
        call_ensures(Json::get, (json, key), found),
        call_ensures(Json::str_at, (json, key), r),
    ensures
        match found {
            Some(Json::Text(t)) => r is Some && r.unwrap()@ == t@,
            _ => r is None,
        },
{
}

/// Only a list has elements, and they are those of the list.
pub proof fn law_as_array(json: &Json, r: Option<&Vec<Json>>)
    requires
        call_ensures(Json::as_array, (json,), r),
    ensures
        match json {
            Json::List(list) => r is Some && r.unwrap()@ == list@,
            _ => r is None,
        },
{
}

} // verus!
