//! The JSON value model that the checks read.

use vstd::prelude::*;

use crate::text::str_eq;

verus! {

/// A JSON value.
pub enum Json {
    Null,
    Bool(bool),
    /// A number, kept as the decimal text it was written with.
    Number(String),
    Str(String),
    Array(Vec<Json>),
    /// An object's members, in document order.
    Object(Vec<(String, Json)>),
}

/// The mathematical value of a `Json`.
pub enum JsonView {
    Null,
    Bool(bool),
    Number(Seq<char>),
    Str(Seq<char>),
    Array(Seq<JsonView>),
    Object(Seq<(Seq<char>, JsonView)>),
}

pub open spec fn json_view(j: Json) -> JsonView
    decreases j,
{
    match j {
        Json::Null => JsonView::Null,
        Json::Bool(b) => JsonView::Bool(b),
        Json::Number(n) => JsonView::Number(n@),
        Json::Str(s) => JsonView::Str(s@),
        Json::Array(a) => JsonView::Array(items_view(a@)),
        Json::Object(m) => JsonView::Object(members_view(m@)),
    }
}

pub open spec fn items_view(s: Seq<Json>) -> Seq<JsonView>
    decreases s,
{
    if s.len() == 0 {
        Seq::empty()
    } else {
        items_view(s.drop_last()).push(json_view(s.last()))
    }
}

pub open spec fn members_view(s: Seq<(String, Json)>) -> Seq<(Seq<char>, JsonView)>
    decreases s,
{
    if s.len() == 0 {
        Seq::empty()
    } else {
        members_view(s.drop_last()).push((s.last().0@, json_view(s.last().1)))
    }
}

impl View for Json {
    type V = JsonView;

    open spec fn view(&self) -> JsonView {
        json_view(*self)
    }
}

/// The value bound to `key` among `fields`: the last binding, as a map built
/// from the members in order keeps.
pub open spec fn member(fields: Seq<(Seq<char>, JsonView)>, key: Seq<char>) -> Option<JsonView>
    decreases fields.len(),
{
    if fields.len() == 0 {
        None
    } else if fields.last().0 == key {
        Some(fields.last().1)
    } else {
        member(fields.drop_last(), key)
    }
}

impl JsonView {
    /// The member `key` of an object; `None` for absent keys and non-objects.
    pub open spec fn field(self, key: Seq<char>) -> Option<JsonView> {
        match self {
            JsonView::Object(fields) => member(fields, key),
            _ => None,
        }
    }

    /// The characters of a string value.
    pub open spec fn text(self) -> Option<Seq<char>> {
        match self {
            JsonView::Str(s) => Some(s),
            _ => None,
        }
    }

    /// The elements of an array value.
    pub open spec fn items(self) -> Option<Seq<JsonView>> {
        match self {
            JsonView::Array(a) => Some(a),
            _ => None,
        }
    }

    /// The string at member `key`, when there is one.
    pub open spec fn field_text(self, key: Seq<char>) -> Option<Seq<char>> {
        match self.field(key) {
            Some(v) => v.text(),
            None => None,
        }
    }
}

pub proof fn lemma_items_view(s: Seq<Json>)
    ensures
        items_view(s).len() == s.len(),
        forall|i: int| 0 <= i < s.len() ==> #[trigger] items_view(s)[i] == s[i]@,
    decreases s.len(),
{
    if s.len() > 0 {
        lemma_items_view(s.drop_last());
        assert forall|i: int| 0 <= i < s.len() implies #[trigger] items_view(s)[i] == s[i]@ by {
            if i < s.len() - 1 {
                assert(s.drop_last()[i] == s[i]);
            }
        }
    }
}

pub proof fn lemma_members_view(s: Seq<(String, Json)>)
    ensures
        members_view(s).len() == s.len(),
        forall|i: int| 0 <= i < s.len() ==> #[trigger] members_view(s)[i] == (s[i].0@, s[i].1@),
    decreases s.len(),
{
    if s.len() > 0 {
        lemma_members_view(s.drop_last());
        assert forall|i: int| 0 <= i < s.len() implies #[trigger] members_view(s)[i] == (s[i].0@, s[i].1@) by {
            if i < s.len() - 1 {
                assert(s.drop_last()[i] == s[i]);
            }
        }
    }
}

impl Json {
    /// Looks up member `key` of an object.
    pub fn get(&self, key: &str) -> (r: Option<&Json>)
        ensures
            match r {
                Some(v) => self@.field(key@) == Some(v@),
                None => self@.field(key@) is None,
            },
    {
        match self {
            Json::Object(fields) => {
                proof {
                    lemma_members_view(fields@);
                }
                let mut i = fields.len();
                assert(members_view(fields@).take(i as int) =~= members_view(fields@));
                while i > 0
                    invariant
                        i <= fields@.len(),
                        members_view(fields@).len() == fields@.len(),
                        forall|k: int| 0 <= k < fields@.len() ==> #[trigger] members_view(fields@)[k] == (fields@[k].0@, fields@[k].1@),
                        self@.field(key@) == member(members_view(fields@).take(i as int), key@),
                    decreases i,
                {
                    let ghost prefix = members_view(fields@).take(i as int);
                    assert(prefix.drop_last() =~= members_view(fields@).take(i - 1));
                    assert(prefix.last() == members_view(fields@)[i - 1]);
                    let found = &fields[i - 1];
                    if str_eq(found.0.as_str(), key) {
                        return Some(&found.1);
                    }
                    i = i - 1;
                }
                None
            },
            _ => None,
        }
    }

    /// The string slice of a string value.
    pub fn as_str(&self) -> (r: Option<&str>)
        ensures
            match r {
                Some(s) => self@.text() == Some(s@),
                None => self@.text() is None,
            },
    {
        match self {
            Json::Str(s) => Some(s.as_str()),
            _ => None,
        }
    }

    /// The elements of an array value.
    pub fn as_array(&self) -> (r: Option<&Vec<Json>>)
        ensures
            match r {
                Some(a) => self@.items() == Some(items_view(a@)),
                None => self@.items() is None,
            },
    {
        match self {
            Json::Array(a) => Some(a),
            _ => None,
        }
    }

    /// Whether this value is an object.
    pub fn is_object(&self) -> (r: bool)
        ensures
            r == (self@ is Object),
    {
        match self {
            Json::Object(_) => true,
            _ => false,
        }
    }

    /// The string at member `key`, when there is one.
    pub fn get_str(&self, key: &str) -> (r: Option<&str>)
        ensures
            match r {
                Some(s) => self@.field_text(key@) == Some(s@),
                None => self@.field_text(key@) is None,
            },
    {
        match self.get(key) {
            Some(v) => v.as_str(),
            None => None,
        }
    }
}

/// Index of the last member named `key`, or -1 when there is none.
pub open spec fn last_index(fields: Seq<(Seq<char>, JsonView)>, key: Seq<char>) -> int
    decreases fields.len(),
{
    if fields.len() == 0 {
        -1
    } else if fields.last().0 == key {
        fields.len() - 1
    } else {
        last_index(fields.drop_last(), key)
    }
}

/// `object[key] = value` on an object's members: the last binding of `key` is
/// replaced in place, or a new member is appended.
pub open spec fn assign(fields: Seq<(Seq<char>, JsonView)>, key: Seq<char>, value: JsonView) -> Seq<
    (Seq<char>, JsonView),
> {
    let i = last_index(fields, key);
    if i < 0 {
        fields.push((key, value))
    } else {
        fields.update(i, (key, value))
    }
}

pub proof fn lemma_last_index(fields: Seq<(Seq<char>, JsonView)>, key: Seq<char>)
    ensures
        -1 <= last_index(fields, key) < fields.len(),
        last_index(fields, key) >= 0 ==> fields[last_index(fields, key)].0 == key && member(fields, key)
            == Some(fields[last_index(fields, key)].1),
        last_index(fields, key) < 0 ==> member(fields, key) is None,
        forall|j: int| last_index(fields, key) < j < fields.len() ==> #[trigger] fields[j].0 != key,
    decreases fields.len(),
{
    if fields.len() > 0 {
        lemma_last_index(fields.drop_last(), key);
        let i = last_index(fields, key);
        assert forall|j: int| i < j < fields.len() implies #[trigger] fields[j].0 != key by {
            if j < fields.len() - 1 {
                assert(fields[j] == fields.drop_last()[j]);
            }
        }
        if i >= 0 && fields.last().0 != key {
            assert(fields[i] == fields.drop_last()[i]);
        }
    }
}

pub proof fn lemma_last_index_update(fields: Seq<(Seq<char>, JsonView)>, key: Seq<char>, v: JsonView)
    requires
        last_index(fields, key) >= 0,
    ensures
        last_index(fields.update(last_index(fields, key), (key, v)), key) == last_index(fields, key),
    decreases fields.len(),
{
    let i = last_index(fields, key);
    let u = fields.update(i, (key, v));
    lemma_last_index(fields, key);
    if fields.last().0 != key {
        lemma_last_index(fields.drop_last(), key);
        lemma_last_index_update(fields.drop_last(), key, v);
        assert(u.drop_last() =~= fields.drop_last().update(i, (key, v)));
    }
}

/// Finds the index of the last member named `key`.
fn find_last(fields: &Vec<(String, Json)>, key: &str) -> (r: Option<usize>)
    ensures
        match r {
            Some(i) => i == last_index(members_view(fields@), key@),
            None => last_index(members_view(fields@), key@) == -1,
        },
{
    proof {
        lemma_members_view(fields@);
    }
    let mut i = fields.len();
    assert(members_view(fields@).take(i as int) =~= members_view(fields@));
    while i > 0
        invariant
            i <= fields@.len(),
            members_view(fields@).len() == fields@.len(),
            forall|k: int| 0 <= k < fields@.len() ==> #[trigger] members_view(fields@)[k] == (fields@[k].0@, fields@[k].1@),
            last_index(members_view(fields@), key@) == last_index(members_view(fields@).take(i as int), key@),
        decreases i,
    {
        let ghost prefix = members_view(fields@).take(i as int);
        assert(prefix.drop_last() =~= members_view(fields@).take(i - 1));
        assert(prefix.last() == members_view(fields@)[i - 1]);
        if str_eq(fields[i - 1].0.as_str(), key) {
            return Some(i - 1);
        }
        i = i - 1;
    }
    None
}

/// `object[key] = value` on an object's members.
pub fn set_member(fields: &mut Vec<(String, Json)>, key: &str, value: Json)
    ensures
        members_view(final(fields)@) == assign(members_view(old(fields)@), key@, value@),
{
    proof {
        lemma_members_view(fields@);
        lemma_last_index(members_view(fields@), key@);
    }
    let ghost old_view = members_view(fields@);
    match find_last(fields, key) {
        Some(i) => {
            fields.set(i, (key.to_owned(), value));
        },
        None => {
            fields.push((key.to_owned(), value));
        },
    }
    proof {
        lemma_members_view(fields@);
        assert(members_view(fields@) =~= assign(old_view, key@, value@));
    }
}

/// Takes the value of member `key` out of an object's members, leaving null
/// in its place; null when there is no such member.
pub fn take_member(fields: &mut Vec<(String, Json)>, key: &str) -> (r: Json)
    ensures
        r@ == match member(members_view(old(fields)@), key@) {
            Some(v) => v,
            None => JsonView::Null,
        },
        last_index(members_view(final(fields)@), key@) == last_index(members_view(old(fields)@), key@),
        forall|v: JsonView|
            #[trigger] assign(members_view(final(fields)@), key@, v) == assign(members_view(old(fields)@), key@, v),
{
    proof {
        lemma_members_view(fields@);
        lemma_last_index(members_view(fields@), key@);
    }
    let ghost old_view = members_view(fields@);
    match find_last(fields, key) {
        Some(i) => {
            let (k, v) = fields.remove(i);
            fields.insert(i, (k, Json::Null));
            proof {
                lemma_members_view(fields@);
                assert(members_view(fields@) =~= old_view.update(i as int, (key@, JsonView::Null)));
                lemma_last_index_update(old_view, key@, JsonView::Null);
                assert forall|w: JsonView| #[trigger] assign(members_view(fields@), key@, w) == assign(old_view, key@, w) by {
                    assert(old_view.update(i as int, (key@, JsonView::Null)).update(i as int, (key@, w)) =~= old_view.update(i as int, (key@, w)));
                }
            }
            v
        },
        None => Json::Null,
    }
}

proof fn lemma_member_update(
    fields: Seq<(Seq<char>, JsonView)>,
    i: int,
    key: Seq<char>,
    v: JsonView,
    other: Seq<char>,
)
    requires
        0 <= i < fields.len(),
        fields[i].0 == key,
        other != key,
    ensures
        member(fields.update(i, (key, v)), other) == member(fields, other),
    decreases fields.len(),
{
    let u = fields.update(i, (key, v));
    if i < fields.len() - 1 {
        assert(u.last() == fields.last());
        if fields.last().0 != other {
            assert(u.drop_last() =~= fields.drop_last().update(i, (key, v)));
            lemma_member_update(fields.drop_last(), i, key, v, other);
        }
    } else {
        assert(u.drop_last() =~= fields.drop_last());
    }
}

/// A member read after `object[key] = value` gives `value` back, and every
/// other member reads as before.
pub proof fn law_assign_member(
    fields: Seq<(Seq<char>, JsonView)>,
    key: Seq<char>,
    value: JsonView,
    other: Seq<char>,
)
    ensures
        member(assign(fields, key, value), key) == Some(value),
        other != key ==> member(assign(fields, key, value), other) == member(fields, other),
{
    lemma_last_index(fields, key);
    let i = last_index(fields, key);
    if i < 0 {
        assert(fields.push((key, value)).drop_last() =~= fields);
    } else {
        lemma_last_index_update(fields, key, value);
        lemma_last_index(fields.update(i, (key, value)), key);
        if other != key {
            lemma_member_update(fields, i, key, value, other);
        }
    }
}

} // verus!
