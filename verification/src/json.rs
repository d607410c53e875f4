//! JSON documents as the library reads them.

use vstd::prelude::*;

use crate::text::same_text;

verus! {

/// A JSON document. A number is kept as it is written. An object is its
/// members in order; where a name comes more than once, the first counts.
#[derive(Debug, PartialEq)]
pub enum Json {
    Null,
    Bool(bool),
    Number(String),
    Text(String),
    Array(Vec<Json>),
    Object(Vec<(String, Json)>),
}

/// The value of the first member with that name, from index `i` on.
pub open spec fn member(members: Seq<(String, Json)>, name: Seq<char>, i: int) -> Option<Json>
    decreases members.len() - i,
{
    if i >= members.len() {
        None
    } else if members[i].0@ == name {
        Some(members[i].1)
    } else {
        member(members, name, i + 1)
    }
}

impl Json {
    /// The member of an object with that name.
    pub open spec fn field(self, name: Seq<char>) -> Option<Json> {
        match self {
            Json::Object(members) => member(members@, name, 0),
            _ => None,
        }
    }

    /// The text that the document is.
    pub open spec fn text(self) -> Option<Seq<char>> {
        match self {
            Json::Text(s) => Some(s@),
            _ => None,
        }
    }

    /// The items of the list that the document is.
    pub open spec fn items(self) -> Option<Seq<Json>> {
        match self {
            Json::Array(items) => Some(items@),
            _ => None,
        }
    }

    /// The text under a name.
    pub open spec fn text_field(self, name: Seq<char>) -> Option<Seq<char>> {
        match self.field(name) {
            Some(v) => v.text(),
            None => None,
        }
    }

    /// The list under a name.
    pub open spec fn items_field(self, name: Seq<char>) -> Option<Seq<Json>> {
        match self.field(name) {
            Some(v) => v.items(),
            None => None,
        }
    }

    /// The member of an object with that name.
    pub fn get(&self, name: &str) -> (r: Option<&Json>)
        ensures
            match r {
                Some(v) => self.field(name@) == Some(*v),
                None => self.field(name@) is None,
            },
    {
        match self {
            Json::Object(members) => {
                for i in 0..members.len()
                    invariant
                        self.field(name@) == member(members@, name@, i as int),
                {
                    if same_text(members[i].0.as_str(), name) {
                        return Some(&members[i].1);
                    }
                }
                None
            },
            _ => None,
        }
    }

    pub fn as_str(&self) -> (r: Option<&str>)
        ensures
            match r {
                Some(s) => self.text() == Some(s@),
                None => self.text() is None,
            },
    {
        match self {
            Json::Text(s) => Some(s.as_str()),
            _ => None,
        }
    }

    pub fn as_array(&self) -> (r: Option<&Vec<Json>>)
        ensures
            match r {
                Some(v) => self.items() == Some(v@),
                None => self.items() is None,
            },
    {
        match self {
            Json::Array(items) => Some(items),
            _ => None,
        }
    }

    /// The text under a name.
    pub fn get_str(&self, name: &str) -> (r: Option<&str>)
        ensures
            match r {
                Some(s) => self.text_field(name@) == Some(s@),
                None => self.text_field(name@) is None,
            },
    {
        match self.get(name) {
            Some(v) => v.as_str(),
            None => None,
        }
    }

    /// The list under a name.
    pub fn get_array(&self, name: &str) -> (r: Option<&Vec<Json>>)
        ensures
            match r {
                Some(v) => self.items_field(name@) == Some(v@),
                None => self.items_field(name@) is None,
            },
    {
        match self.get(name) {
            Some(v) => v.as_array(),
            None => None,
        }
    }
}

proof fn lemma_member(members: Seq<(String, Json)>, name: Seq<char>, i: int, k: int)
    requires
        0 <= i <= k <= members.len(),
        forall|j: int| 0 <= j < k ==> (#[trigger] members[j]).0@ != name,
    ensures
        member(members, name, i) == member(members, name, k),
    decreases k - i,
{
    if i < k {
        assert(members[i].0@ != name);
        lemma_member(members, name, i + 1, k);
    }
}

/// A member of an object is the value of its first member of that name. Without one
/// there is nothing, and so in what is no object.
pub proof fn law_members_are_found(document: Json, members: Seq<(String, Json)>, name: Seq<char>, k: int)
    requires
        document matches Json::Object(v) && v@ == members,
        0 <= k <= members.len(),
        forall|j: int| 0 <= j < k ==> (#[trigger] members[j]).0@ != name,
        k < members.len() ==> members[k].0@ == name,
    ensures
        k < members.len() ==> document.field(name) == Some(members[k].1),
        k == members.len() ==> document.field(name) is None,
        k < members.len() ==> document.text_field(name) == (match members[k].1 {
            Json::Text(s) => Some(s@),
            _ => None,
        }),
        k < members.len() ==> document.items_field(name) == (match members[k].1 {
            Json::Array(items) => Some(items@),
            _ => None,
        }),
        k == members.len() ==> document.text_field(name) is None && document.items_field(name)
            is None,
{
    lemma_member(members, name, 0, k);
}

/// Only a text is a text, and only a list has items.
pub proof fn law_texts_and_lists(document: Json)
    ensures
        document.text() == (match document {
            Json::Text(s) => Some(s@),
            _ => None,
        }),
        document.items() == (match document {
            Json::Array(items) => Some(items@),
            _ => None,
        }),
        !(document is Object) ==> forall|name: Seq<char>| #[trigger] document.field(name) is None,
{
}

} // verus!
