//! JSON values: the shape in which events, requests and responses travel.

use vstd::prelude::*;
use vstd::string::*;

use crate::text::str_eq;

verus! {

/// A JSON value. A number is kept as an integer where it is one; any other
/// number is kept by its numeral.
#[derive(Debug)]
pub enum Json {
    Null,
    Bool(bool),
    /// An integer that is not negative.
    PosInt(u64),
    /// A negative integer.
    NegInt(i64),
    /// A number that is no integer, by its numeral.
    Float(String),
    Str(String),
    Array(Vec<Json>),
    /// The members in order. Of two with one key the first counts.
    Object(Vec<(String, Json)>),
}

/// What a [`Json`] holds.
pub enum JsonView {
    Null,
    Bool(bool),
    PosInt(u64),
    NegInt(i64),
    Float(Seq<char>),
    Str(Seq<char>),
    Array(Seq<JsonView>),
    Object(Seq<(Seq<char>, JsonView)>),
}

/// The value of a [`Json`].
pub open spec fn json_view(j: Json) -> JsonView
    decreases j,
{
    match j {
        Json::Null => JsonView::Null,
        Json::Bool(b) => JsonView::Bool(b),
        Json::PosInt(n) => JsonView::PosInt(n),
        Json::NegInt(n) => JsonView::NegInt(n),
        Json::Float(t) => JsonView::Float(t@),
        Json::Str(s) => JsonView::Str(s@),
        Json::Array(a) => JsonView::Array(
            Seq::new(
                a@.len(),
                |i: int|
                    if 0 <= i < a@.len() {
                        json_view(a@[i])
                    } else {
                        JsonView::Null
                    },
            ),
        ),
        Json::Object(m) => JsonView::Object(
            Seq::new(
                m@.len(),
                |i: int|
                    if 0 <= i < m@.len() {
                        (m@[i].0@, json_view(m@[i].1))
                    } else {
                        (seq![], JsonView::Null)
                    },
            ),
        ),
    }
}

impl View for Json {
    type V = JsonView;

    open spec fn view(&self) -> JsonView {
        json_view(*self)
    }
}

/// The value of the first member named `key`.
pub open spec fn find_member(members: Seq<(Seq<char>, JsonView)>, key: Seq<char>) -> Option<JsonView>
    decreases members.len(),
{
    if members.len() == 0 {
        None
    } else if members[0].0 == key {
        Some(members[0].1)
    } else {
        find_member(members.drop_first(), key)
    }
}

/// The members with the one named `key` set to `value`: in its place where
/// there is one, else at the end.
pub open spec fn set_member(
    members: Seq<(Seq<char>, JsonView)>,
    key: Seq<char>,
    value: JsonView,
) -> Seq<(Seq<char>, JsonView)>
    decreases members.len(),
{
    if members.len() == 0 {
        seq![(key, value)]
    } else if members[0].0 == key {
        seq![(key, value)] + members.drop_first()
    } else {
        seq![members[0]] + set_member(members.drop_first(), key, value)
    }
}

impl JsonView {
    /// The member named `key`, where this is an object that has one.
    pub open spec fn field(self, key: Seq<char>) -> Option<JsonView> {
        match self {
            JsonView::Object(m) => find_member(m, key),
            _ => None,
        }
    }

    /// The member named `key`, or null.
    pub open spec fn at(self, key: Seq<char>) -> JsonView {
        match self.field(key) {
            Some(v) => v,
            None => JsonView::Null,
        }
    }

    pub open spec fn as_str(self) -> Option<Seq<char>> {
        match self {
            JsonView::Str(s) => Some(s),
            _ => None,
        }
    }

    /// The integer, where it is one that fits.
    pub open spec fn as_i64(self) -> Option<i64> {
        match self {
            JsonView::PosInt(n) => if n <= i64::MAX {
                Some(n as i64)
            } else {
                None
            },
            JsonView::NegInt(n) => Some(n),
            _ => None,
        }
    }

    pub open spec fn as_u64(self) -> Option<u64> {
        match self {
            JsonView::PosInt(n) => Some(n),
            _ => None,
        }
    }

    pub open spec fn as_array(self) -> Option<Seq<JsonView>> {
        match self {
            JsonView::Array(a) => Some(a),
            _ => None,
        }
    }

    pub open spec fn as_object(self) -> Option<Seq<(Seq<char>, JsonView)>> {
        match self {
            JsonView::Object(m) => Some(m),
            _ => None,
        }
    }

    /// An object with the member `key` set; any other value as it is.
    pub open spec fn set(self, key: Seq<char>, value: JsonView) -> JsonView {
        match self {
            JsonView::Object(m) => JsonView::Object(set_member(m, key, value)),
            _ => self,
        }
    }

    /// The value of an integer.
    pub open spec fn of_int(n: i64) -> JsonView {
        if n >= 0 {
            JsonView::PosInt(n as u64)
        } else {
            JsonView::NegInt(n)
        }
    }
}

/// The value behind an optional reference, null where there is none.
pub open spec fn opt_view(j: Option<&Json>) -> JsonView {
    match j {
        Some(v) => v@,
        None => JsonView::Null,
    }
}

/// The view of an optional string slice.
pub open spec fn opt_str_view(s: Option<&str>) -> Option<Seq<char>> {
    match s {
        Some(t) => Some(t@),
        None => None,
    }
}

/// The view of an optional string.
pub open spec fn opt_string_view(s: Option<String>) -> Option<Seq<char>> {
    match s {
        Some(t) => Some(t@),
        None => None,
    }
}

/// What is read back after a member was set, and that no other member changed.
pub proof fn lemma_find_after_set(
    members: Seq<(Seq<char>, JsonView)>,
    key: Seq<char>,
    value: JsonView,
    other: Seq<char>,
)
    ensures
        find_member(set_member(members, key, value), other) == if other == key {
            Some(value)
        } else {
            find_member(members, other)
        },
    decreases members.len(),
{
    let after = set_member(members, key, value);
    if members.len() == 0 {
        assert(after.drop_first() =~= seq![]);
    } else if members[0].0 == key {
        assert(after.drop_first() =~= members.drop_first());
    } else {
        assert(after.drop_first() =~= set_member(members.drop_first(), key, value));
        lemma_find_after_set(members.drop_first(), key, value, other);
    }
}

/// Setting a member of an object sets that member and leaves the others.
pub proof fn set_then_read(object: JsonView, key: Seq<char>, value: JsonView, other: Seq<char>)
    requires
        object is Object,
    ensures
        object.set(key, value).field(other) == if other == key {
            Some(value)
        } else {
            object.field(other)
        },
{
    lemma_find_after_set(object->Object_0, key, value, other);
}

/// An integer reads back as itself, a value that is no integer as none, and a text as
/// itself alone.
pub proof fn plain_values_read_back(n: i64, m: u64, s: Seq<char>)
    ensures
        JsonView::of_int(n).as_i64() == Some(n),
        n >= 0 ==> JsonView::of_int(n) == JsonView::PosInt(n as u64),
        n < 0 ==> JsonView::of_int(n) == JsonView::NegInt(n),
        JsonView::PosInt(m).as_u64() == Some(m),
        m <= i64::MAX ==> JsonView::PosInt(m).as_i64() == Some(m as i64),
        m > i64::MAX ==> JsonView::PosInt(m).as_i64() is None,
        JsonView::NegInt(n).as_i64() == Some(n),
        JsonView::NegInt(n).as_u64() is None,
        JsonView::Str(s).as_str() == Some(s),
        JsonView::Str(s).as_i64() is None,
        JsonView::Str(s).as_u64() is None,
        JsonView::PosInt(m).as_str() is None,
        JsonView::NegInt(n).as_str() is None,
{
}

/// The member of an object under a key is the first that has it, and there is one
/// exactly where a member has the key. What is no object has no members.
pub proof fn member_is_the_first_of_its_name(
    members: Seq<(Seq<char>, JsonView)>,
    key: Seq<char>,
    i: int,
)
    ensures
        0 <= i < members.len() && members[i].0 == key && (forall|j: int|
            0 <= j < i ==> #[trigger] members[j].0 != key) ==> JsonView::Object(members).at(key)
            == members[i].1 && JsonView::Object(members).field(key) == Some(members[i].1),
        (forall|j: int| 0 <= j < members.len() ==> #[trigger] members[j].0 != key)
            ==> JsonView::Object(members).field(key) is None && JsonView::Object(members).at(key)
            == JsonView::Null,
{
    if 0 <= i < members.len() && members[i].0 == key && (forall|j: int|
        0 <= j < i ==> #[trigger] members[j].0 != key) {
        lemma_find_skip(members, key, i);
        assert(members.skip(i)[0] == members[i]);
    }
    if forall|j: int| 0 <= j < members.len() ==> #[trigger] members[j].0 != key {
        lemma_find_skip(members, key, members.len() as int);
        assert(members.skip(members.len() as int) =~= seq![]);
    }
}

proof fn lemma_find_skip(members: Seq<(Seq<char>, JsonView)>, key: Seq<char>, n: int)
    requires
        0 <= n <= members.len(),
        forall|j: int| 0 <= j < n ==> #[trigger] members[j].0 != key,
    ensures
        find_member(members, key) == find_member(members.skip(n), key),
    decreases n,
{
    if n > 0 {
        assert(members.drop_first().skip(n - 1) =~= members.skip(n));
        assert forall|j: int| 0 <= j < n - 1 implies #[trigger] members.drop_first()[j].0 != key by {
            assert(members[j + 1].0 != key);
        }
        lemma_find_skip(members.drop_first(), key, n - 1);
    } else {
        assert(members.skip(0) =~= members);
    }
}

proof fn lemma_set_at(members: Seq<(Seq<char>, JsonView)>, key: Seq<char>, value: JsonView, n: int)
    requires
        0 <= n <= members.len(),
        forall|j: int| 0 <= j < n ==> #[trigger] members[j].0 != key,
        n < members.len() ==> members[n].0 == key,
    ensures
        set_member(members, key, value) == if n < members.len() {
            members.update(n, (key, value))
        } else {
            members.push((key, value))
        },
    decreases members.len(),
{
    let after = if n < members.len() {
        members.update(n, (key, value))
    } else {
        members.push((key, value))
    };
    if n == 0 {
        assert(set_member(members, key, value) =~= after);
    } else {
        let rest = members.drop_first();
        assert forall|j: int| 0 <= j < n - 1 implies #[trigger] rest[j].0 != key by {
            assert(members[j + 1].0 != key);
        }
        assert(members[0].0 != key);
        lemma_set_at(rest, key, value, n - 1);
        assert(seq![members[0]] + set_member(rest, key, value) =~= after);
    }
}

fn position_of(members: &Vec<(String, Json)>, key: &str) -> (r: usize)
    ensures
        r <= members@.len(),
        forall|j: int| 0 <= j < r ==> #[trigger] members@[j].0@ != key@,
        r < members@.len() ==> members@[r as int].0@ == key@,
{
    let mut i: usize = 0;
    while i < members.len()
        invariant
            i <= members@.len(),
            forall|j: int| 0 <= j < i ==> #[trigger] members@[j].0@ != key@,
        decreases members@.len() - i,
    {
        if str_eq(members[i].0.as_str(), key) {
            return i;
        }
        i += 1;
    }
    i
}

impl Json {
    /// The member named `key`, where this is an object that has one.
    pub fn get(&self, key: &str) -> (r: Option<&Json>)
        ensures
            match r {
                Some(v) => self@.field(key@) == Some(v@),
                None => self@.field(key@) is None,
            },
    {
        match self {
            Json::Object(m) => {
                let i: usize = position_of(m, key);
                let ghost members = self@->Object_0;
                proof {
                    assert forall|j: int| 0 <= j < i implies #[trigger] members[j].0 != key@ by {
                        assert(m@[j].0@ != key@);
                    }
                    lemma_find_skip(members, key@, i as int);
                    if i < m@.len() {
                        assert(members.skip(i as int)[0] == members[i as int]);
                    }
                }
                if i < m.len() {
                    Some(&m[i].1)
                } else {
                    None
                }
            },
            _ => None,
        }
    }

    /// The text, where this is a string.
    pub fn as_str(&self) -> (r: Option<&str>)
        ensures
            opt_str_view(r) == self@.as_str(),
    {
        match self {
            Json::Str(s) => Some(s.as_str()),
            _ => None,
        }
    }

    /// The integer, where this is one that fits.
    pub fn as_i64(&self) -> (r: Option<i64>)
        ensures
            r == self@.as_i64(),
    {
        match self {
            Json::PosInt(n) => if *n <= i64::MAX as u64 {
                Some(*n as i64)
            } else {
                None
            },
            Json::NegInt(n) => Some(*n),
            _ => None,
        }
    }

    /// The integer, where this is one that is not negative.
    pub fn as_u64(&self) -> (r: Option<u64>)
        ensures
            r == self@.as_u64(),
    {
        match self {
            Json::PosInt(n) => Some(*n),
            _ => None,
        }
    }

    /// The text of the member named `key`, where there is one and it is a string.
    pub fn str_at(&self, key: &str) -> (r: Option<&str>)
        ensures
            opt_str_view(r) == self@.at(key@).as_str(),
    {
        match self.get(key) {
            Some(v) => v.as_str(),
            None => None,
        }
    }

    /// A copy of the text of the member named `key`.
    pub fn string_at(&self, key: &str) -> (r: Option<String>)
        ensures
            opt_string_view(r) == self@.at(key@).as_str(),
    {
        match self.str_at(key) {
            Some(s) => Some(s.to_owned()),
            None => None,
        }
    }

    /// A string value.
    pub fn string(s: &str) -> (r: Json)
        ensures
            r@ == JsonView::Str(s@),
    {
        Json::Str(s.to_owned())
    }

    /// An integer value.
    pub fn number(n: i64) -> (r: Json)
        ensures
            r@ == JsonView::of_int(n),
    {
        if n >= 0 {
            Json::PosInt(n as u64)
        } else {
            Json::NegInt(n)
        }
    }

    /// An integer value that is not negative.
    pub fn natural(n: u64) -> (r: Json)
        ensures
            r@ == JsonView::PosInt(n),
    {
        Json::PosInt(n)
    }

    /// Sets the member `key` of an object; leaves any other value as it is.
    pub fn set(&mut self, key: &str, value: Json)
        ensures
            final(self)@ == old(self)@.set(key@, value@),
    {
        let ghost before = *self;
        match self {
            Json::Object(m) => {
                let i: usize = position_of(m, key);
                let ghost members = before@->Object_0;
                let ghost shown = value@;
                proof {
                    assert forall|j: int| 0 <= j < i implies #[trigger] members[j].0 != key@ by {
                        assert(m@[j].0@ != key@);
                    }
                    lemma_set_at(members, key@, shown, i as int);
                }
                if i < m.len() {
                    m.set(i, (key.to_owned(), value));
                } else {
                    m.push((key.to_owned(), value));
                }
            },
            _ => {},
        }
        proof {
            if before is Object {
                assert(self@->Object_0 =~= before@.set(key@, value@)->Object_0);
            }
        }
    }
}

/// An object without members.
pub fn object0() -> (r: Json)
    ensures
        r@ == JsonView::Object(seq![]),
{
    let r = Json::Object(Vec::new());
    assert(r@->Object_0 =~= seq![]);
    r
}

/// An object with one member.
pub fn object1(key: &str, value: Json) -> (r: Json)
    ensures
        r@ == JsonView::Object(seq![(key@, value@)]),
{
    let mut m: Vec<(String, Json)> = Vec::new();
    m.push((key.to_owned(), value));
    let r = Json::Object(m);
    assert(r@->Object_0 =~= seq![(key@, value@)]);
    r
}

/// An object with two members.
pub fn object2(key: &str, value: Json, key2: &str, value2: Json) -> (r: Json)
    ensures
        r@ == JsonView::Object(seq![(key@, value@), (key2@, value2@)]),
{
    let mut m: Vec<(String, Json)> = Vec::new();
    m.push((key.to_owned(), value));
    m.push((key2.to_owned(), value2));
    let r = Json::Object(m);
    assert(r@->Object_0 =~= seq![(key@, value@), (key2@, value2@)]);
    r
}

/// An object with three members.
pub fn object3(key: &str, value: Json, key2: &str, value2: Json, key3: &str, value3: Json) -> (r:
    Json)
    ensures
        r@ == JsonView::Object(seq![(key@, value@), (key2@, value2@), (key3@, value3@)]),
{
    let mut m: Vec<(String, Json)> = Vec::new();
    m.push((key.to_owned(), value));
    m.push((key2.to_owned(), value2));
    m.push((key3.to_owned(), value3));
    let r = Json::Object(m);
    assert(r@->Object_0 =~= seq![(key@, value@), (key2@, value2@), (key3@, value3@)]);
    r
}

/// An array of one element.
pub fn array1(value: Json) -> (r: Json)
    ensures
        r@ == JsonView::Array(seq![value@]),
{
    let mut a: Vec<Json> = Vec::new();
    a.push(value);
    let r = Json::Array(a);
    assert(r@->Array_0 =~= seq![value@]);
    r
}

/// An array without elements.
pub fn array0() -> (r: Json)
    ensures
        r@ == JsonView::Array(seq![]),
{
    let r = Json::Array(Vec::new());
    assert(r@->Array_0 =~= seq![]);
    r
}

/// The member named `key` of a value that may be absent.
pub fn child<'a>(j: Option<&'a Json>, key: &str) -> (r: Option<&'a Json>)
    ensures
        opt_view(r) == opt_view(j).at(key@),
{
    match j {
        Some(v) => v.get(key),
        None => None,
    }
}

impl Clone for Json {
    fn clone(&self) -> (r: Json)
        ensures
            r@ == self@,
        decreases self,
    {
        match self {
            Json::Null => Json::Null,
            Json::Bool(b) => Json::Bool(*b),
            Json::PosInt(n) => Json::PosInt(*n),
            Json::NegInt(n) => Json::NegInt(*n),
            Json::Float(t) => Json::Float(t.clone()),
            Json::Str(s) => Json::Str(s.clone()),
            Json::Array(a) => {
                let mut out: Vec<Json> = Vec::new();
                let mut i: usize = 0;
                while i < a.len()
                    invariant
                        i <= a@.len(),
                        out@.len() == i,
                        *self == Json::Array(*a),
                        forall|j: int| 0 <= j < i ==> (#[trigger] out@[j])@ == a@[j]@,
                    decreases a@.len() - i,
                {
                    assert(decreases_to!(*self => self->Array_0));
                    assert(decreases_to!(self->Array_0@ => self->Array_0@[i as int]));
                    let c = a[i].clone();
                    out.push(c);
                    i += 1;
                }
                let r = Json::Array(out);
                assert(r@->Array_0 =~= self@->Array_0);
                r
            },
            Json::Object(m) => {
                let mut out: Vec<(String, Json)> = Vec::new();
                let mut i: usize = 0;
                while i < m.len()
                    invariant
                        i <= m@.len(),
                        out@.len() == i,
                        *self == Json::Object(*m),
                        forall|j: int|
                            0 <= j < i ==> (#[trigger] out@[j]).0@ == m@[j].0@ && out@[j].1@
                                == m@[j].1@,
                    decreases m@.len() - i,
                {
                    let k = m[i].0.clone();
                    assert(decreases_to!(*self => self->Object_0));
                    assert(decreases_to!(self->Object_0@ => self->Object_0@[i as int]));
                    let c = m[i].1.clone();
                    out.push((k, c));
                    i += 1;
                }
                let r = Json::Object(out);
                assert(r@->Object_0 =~= self@->Object_0);
                r
            },
        }
    }
}

/// A value shows what it holds: a flag, a number and a text show themselves, an array its
/// elements and an object its members, each at its own place.
pub proof fn values_show_what_they_hold(j: Json, i: int)
    ensures
        match j {
            Json::Null => j@ == JsonView::Null,
            Json::Bool(b) => j@ == JsonView::Bool(b),
            Json::PosInt(n) => j@ == JsonView::PosInt(n),
            Json::NegInt(n) => j@ == JsonView::NegInt(n),
            Json::Float(t) => j@ == JsonView::Float(t@),
            Json::Str(s) => j@ == JsonView::Str(s@),
            Json::Array(a) => (j@ matches JsonView::Array(v) && v.len() == a@.len() && (0 <= i
                < a@.len() ==> v[i] == a@[i]@)),
            Json::Object(m) => (j@ matches JsonView::Object(v) && v.len() == m@.len() && (0 <= i
                < m@.len() ==> v[i].0 == m@[i].0@ && v[i].1 == m@[i].1@)),
        },
{
}

/// An array is read as its elements and an object as its members, in their order, and
/// what is neither as neither.
pub proof fn lists_are_read_as_they_are(
    j: JsonView,
    elements: Seq<JsonView>,
    members: Seq<(Seq<char>, JsonView)>,
)
    ensures
        JsonView::Array(elements).as_array() == Some(elements),
        JsonView::Object(members).as_object() == Some(members),
        !(j is Array) ==> j.as_array() is None,
        !(j is Object) ==> j.as_object() is None,
        !(j is Str) ==> j.as_str() is None,
        !(j is PosInt) ==> j.as_u64() is None,
        !(j is PosInt) && !(j is NegInt) ==> j.as_i64() is None,
        !(j is Object) ==> j.set(seq![], JsonView::Null) == j,
{
}

/// An optional text, and an optional value, show what they hold.
pub proof fn options_show_what_they_hold(s: String, t: &str, j: &Json)
    ensures
        opt_string_view(Some(s)) == Some(s@),
        opt_string_view(None) is None,
        opt_str_view(Some(t)) == Some(t@),
        opt_str_view(None) is None,
        opt_view(Some(j)) == j@,
        opt_view(None) == JsonView::Null,
{
}

} // verus!
