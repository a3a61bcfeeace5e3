//! The encodings in which bytes arrive and leave: JSON text, base64 and UTF-8.

use base64::engine::general_purpose::STANDARD;
use base64::Engine as _;
use serde_json::Value;
use vstd::prelude::*;
use vstd::utf8::*;

use crate::json::{Json, JsonView};

verus! {

/// A value of `serde_json`, as its parser hands it out.
#[verifier::external_type_specification]
#[verifier::external_body]
pub struct ExValue(serde_json::Value);

/// What a `serde_json` value holds.
pub uninterp spec fn json_of(v: serde_json::Value) -> JsonView;

/// What `serde_json::from_slice` makes of a text: a value, or the words in which
/// it says why there is none.
pub uninterp spec fn json_parse(bytes: Seq<u8>) -> Result<JsonView, Seq<char>>;

/// The compact text that `serde_json` writes for a value.
pub uninterp spec fn json_text(v: JsonView) -> Seq<char>;

/// The base64 text of some bytes, in the standard alphabet with padding.
pub uninterp spec fn base64_text(bytes: Seq<u8>) -> Seq<char>;

/// What base64 text stands for, or the words in which the decoder refuses it.
pub uninterp spec fn base64_bytes(text: Seq<char>) -> Result<Seq<u8>, Seq<char>>;

/// The words in which std says where bytes stop being UTF-8.
pub uninterp spec fn utf8_fault(bytes: Seq<u8>) -> Seq<char>;

/// One level of a `serde_json` value.
pub enum JsonNode {
    Null,
    Bool(bool),
    PosInt(u64),
    NegInt(i64),
    Float(String),
    Str(String),
    Array(Vec<Value>),
    Object(Vec<(String, Value)>),
}

impl JsonNode {
    /// The value of which this is the outermost level.
    pub open spec fn whole(self) -> JsonView {
        match self {
            JsonNode::Null => JsonView::Null,
            JsonNode::Bool(b) => JsonView::Bool(b),
            JsonNode::PosInt(n) => JsonView::PosInt(n),
            JsonNode::NegInt(n) => JsonView::NegInt(n),
            JsonNode::Float(t) => JsonView::Float(t@),
            JsonNode::Str(s) => JsonView::Str(s@),
            JsonNode::Array(a) => JsonView::Array(Seq::new(a@.len(), |i: int| json_of(a@[i]))),
            JsonNode::Object(m) => JsonView::Object(level_members(m@)),
        }
    }

    /// The value that is built from the parts: of members with one key the last
    /// counts, and members stand in the order of their keys.
    pub open spec fn built(self) -> JsonView {
        match self {
            JsonNode::NegInt(n) => JsonView::of_int(n),
            JsonNode::Float(t) => number_value(t@),
            JsonNode::Object(m) => JsonView::Object(gather(level_members(m@))),
            _ => self.whole(),
        }
    }
}

/// What a numeral stands for, null where it is none.
pub open spec fn number_value(numeral: Seq<char>) -> JsonView {
    match json_parse(encode_utf8(numeral)) {
        Ok(v) => v,
        Err(_) => JsonView::Null,
    }
}

/// Members in the order of their keys, with the one named `key` set.
pub open spec fn put_member(
    members: Seq<(Seq<char>, JsonView)>,
    key: Seq<char>,
    value: JsonView,
) -> Seq<(Seq<char>, JsonView)>
    decreases members.len(),
{
    if members.len() == 0 || crate::text::text_lt(members.last().0, key) {
        members.push((key, value))
    } else if members.last().0 == key {
        members.drop_last().push((key, value))
    } else {
        put_member(members.drop_last(), key, value).push(members.last())
    }
}

/// Members in the order of their keys. Of those with one key the last counts.
pub open spec fn gather(members: Seq<(Seq<char>, JsonView)>) -> Seq<(Seq<char>, JsonView)>
    decreases members.len(),
{
    if members.len() == 0 {
        seq![]
    } else {
        put_member(gather(members.drop_last()), members.last().0, members.last().1)
    }
}

/// A value as JSON text can carry it: every object with its members in order
/// and each key once, every number by what its numeral stands for.
pub open spec fn normal(j: JsonView) -> JsonView
    decreases j,
{
    match j {
        JsonView::NegInt(n) => JsonView::of_int(n),
        JsonView::Float(t) => number_value(t),
        JsonView::Array(a) => JsonView::Array(
            Seq::new(
                a.len(),
                |i: int|
                    if 0 <= i < a.len() {
                        normal(a[i])
                    } else {
                        JsonView::Null
                    },
            ),
        ),
        JsonView::Object(m) => JsonView::Object(gather(normal_members(m))),
        _ => j,
    }
}

/// The members with their values as JSON text can carry them.
pub open spec fn normal_members(m: Seq<(Seq<char>, JsonView)>) -> Seq<(Seq<char>, JsonView)>
    decreases m,
{
    Seq::new(
        m.len(),
        |i: int|
            if 0 <= i < m.len() {
                (m[i].0, normal(m[i].1))
            } else {
                (seq![], JsonView::Null)
            },
    )
}

/// The members of one level of an object.
pub open spec fn level_members(m: Seq<(String, Value)>) -> Seq<(Seq<char>, JsonView)> {
    Seq::new(m.len(), |i: int| (m[i].0@, json_of(m[i].1)))
}

/// An object whose members are all strings.
pub open spec fn is_flat(j: JsonView) -> bool {
    j matches JsonView::Object(m) && forall|i: int|
        0 <= i < m.len() ==> (#[trigger] m[i]).1 is Str
}

/// `serde_json::from_slice` into `serde_json::Value`. Claims that the outcome
/// depends on the bytes alone.
#[verifier::external_body]
fn parse_value(bytes: &[u8]) -> (r: Result<Value, String>)
    ensures
        match r {
            Ok(v) => json_parse(bytes@) == Ok::<JsonView, Seq<char>>(json_of(v)),
            Err(e) => json_parse(bytes@) == Err::<JsonView, Seq<char>>(e@),
        },
{
    serde_json::from_slice::<Value>(bytes).map_err(|e| e.to_string())
}

/// The variants of `serde_json::Value`, with the integers of `Number::as_u64`
/// and `Number::as_i64` and the numeral that `Number` writes for any other
/// number. Claims that the parts make up the value.
#[verifier::external_body]
fn open_value(v: Value) -> (node: JsonNode)
    ensures
        json_of(v) == node.whole(),
{
    match v {
        Value::Null => JsonNode::Null,
        Value::Bool(b) => JsonNode::Bool(b),
        Value::Number(n) => match (n.as_u64(), n.as_i64()) {
            (Some(u), _) => JsonNode::PosInt(u),
            (None, Some(i)) => JsonNode::NegInt(i),
            (None, None) => JsonNode::Float(n.to_string()),
        },
        Value::String(s) => JsonNode::Str(s),
        Value::Array(a) => JsonNode::Array(a),
        Value::Object(m) => JsonNode::Object(m.into_iter().collect()),
    }
}

/// The constructors of `serde_json::Value`: `From` for the integers,
/// `serde_json::from_slice` for any other numeral, and a `Map` collected from
/// the members. Claims that they build the value of the parts.
#[verifier::external_body]
fn make_value(node: JsonNode) -> (v: Value)
    ensures
        json_of(v) == node.built(),
{
    match node {
        JsonNode::Null => Value::Null,
        JsonNode::Bool(b) => Value::Bool(b),
        JsonNode::PosInt(n) => Value::from(n),
        JsonNode::NegInt(n) => Value::from(n),
        JsonNode::Float(t) => serde_json::from_slice(t.as_bytes()).unwrap_or(Value::Null),
        JsonNode::Str(s) => Value::String(s),
        JsonNode::Array(a) => Value::Array(a),
        JsonNode::Object(m) => Value::Object(m.into_iter().collect()),
    }
}

/// The compact text that `serde_json::Value` displays as. Claims that it depends
/// on what the value holds alone, and that an object of strings is parsed back
/// from it.
#[verifier::external_body]
fn value_text(v: &Value) -> (r: String)
    ensures
        r@ == json_text(json_of(*v)),
        is_flat(json_of(*v)) ==> read_back(encode_utf8(r@), json_of(*v)),
{
    v.to_string()
}

/// `Engine::encode` of base64's `STANDARD` engine. Claims that the text depends
/// on the bytes alone and decodes to them. The bound keeps the text within what
/// a vector can hold.
#[verifier::external_body]
fn encode_standard(bytes: &[u8]) -> (r: String)
    requires
        bytes@.len() <= usize::MAX / 4,
    ensures
        r@ == base64_text(bytes@),
        base64_bytes(r@) is Ok && base64_bytes(r@)->Ok_0 == bytes@,
{
    STANDARD.encode(bytes)
}

/// `Engine::decode` of base64's `STANDARD` engine. Claims that the outcome
/// depends on the text alone.
#[verifier::external_body]
fn decode_standard(text: &str) -> (r: Result<Vec<u8>, String>)
    ensures
        match r {
            Ok(b) => base64_bytes(text@) == Ok::<Seq<u8>, Seq<char>>(b@),
            Err(e) => base64_bytes(text@) == Err::<Seq<u8>, Seq<char>>(e@),
        },
{
    STANDARD.decode(text).map_err(|e| e.to_string())
}

/// `String::from_utf8`. Claims that it takes exactly the bytes that are UTF-8,
/// and that the words in which it refuses others depend on the bytes alone.
#[verifier::external_body]
fn string_from_utf8(bytes: Vec<u8>) -> (r: Result<String, String>)
    ensures
        match r {
            Ok(s) => valid_utf8(bytes@) && s@ == decode_utf8(bytes@),
            Err(e) => !valid_utf8(bytes@) && e@ == utf8_fault(bytes@),
        },
{
    String::from_utf8(bytes).map_err(|e| e.to_string())
}

/// That parsing a text gives a value.
pub open spec fn read_back(bytes: Seq<u8>, v: JsonView) -> bool {
    json_parse(bytes) is Ok && json_parse(bytes)->Ok_0 == v
}

/// Takes a `serde_json` value apart, level by level.
fn read_value(v: Value) -> (r: Json)
    ensures
        r@ == json_of(v),
    decreases json_of(v),
{
    let ghost whole = json_of(v);
    match open_value(v) {
        JsonNode::Null => Json::Null,
        JsonNode::Bool(b) => Json::Bool(b),
        JsonNode::PosInt(n) => Json::PosInt(n),
        JsonNode::NegInt(n) => Json::NegInt(n),
        JsonNode::Float(t) => Json::Float(t),
        JsonNode::Str(s) => Json::Str(s),
        JsonNode::Array(a) => {
            let ghost parts = a@;
            let mut out: Vec<Json> = Vec::new();
            for x in it: a
                invariant
                    it.seq() == parts,
                    out@.len() == it.index(),
                    whole is Array,
                    whole->Array_0 == Seq::new(parts.len(), |i: int| json_of(parts[i])),
                    whole == json_of(v),
                    forall|j: int| 0 <= j < it.index() ==> (#[trigger] out@[j])@ == json_of(parts[j]),
            {
                assert(decreases_to!(whole => whole->Array_0));
                assert(decreases_to!(whole->Array_0 => whole->Array_0[it.index() as int]));
                out.push(read_value(x));
            }
            let r = Json::Array(out);
            assert(r@->Array_0 =~= whole->Array_0);
            r
        },
        JsonNode::Object(m) => {
            let ghost parts = m@;
            let mut out: Vec<(String, Json)> = Vec::new();
            for x in it: m
                invariant
                    it.seq() == parts,
                    out@.len() == it.index(),
                    whole is Object,
                    whole->Object_0 == Seq::new(
                        parts.len(),
                        |i: int| (parts[i].0@, json_of(parts[i].1)),
                    ),
                    whole == json_of(v),
                    forall|j: int|
                        0 <= j < it.index() ==> (#[trigger] out@[j]).0@ == parts[j].0@
                            && out@[j].1@ == json_of(parts[j].1),
            {
                assert(decreases_to!(whole => whole->Object_0));
                assert(decreases_to!(whole->Object_0 => whole->Object_0[it.index() as int]));
                let (k, y) = x;
                let ghost member = whole->Object_0[it.index() as int];
                assert(decreases_to!(member => member.1));
                assert(member.1 == json_of(y));
                out.push((k, read_value(y)));
            }
            let r = Json::Object(out);
            assert(r@->Object_0 =~= whole->Object_0);
            r
        },
    }
}

/// Builds a `serde_json` value, level by level.
fn to_value(j: &Json) -> (v: Value)
    ensures
        json_of(v) == normal(j@),
    decreases j,
{
    match j {
        Json::Null => make_value(JsonNode::Null),
        Json::Bool(b) => make_value(JsonNode::Bool(*b)),
        Json::PosInt(n) => make_value(JsonNode::PosInt(*n)),
        Json::NegInt(n) => make_value(JsonNode::NegInt(*n)),
        Json::Float(t) => make_value(JsonNode::Float(t.clone())),
        Json::Str(s) => make_value(JsonNode::Str(s.clone())),
        Json::Array(a) => {
            let mut out: Vec<Value> = Vec::new();
            let mut i: usize = 0;
            while i < a.len()
                invariant
                    i <= a@.len(),
                    out@.len() == i,
                    *j == Json::Array(*a),
                    forall|k: int| 0 <= k < i ==> json_of(#[trigger] out@[k]) == normal(a@[k]@),
                decreases a@.len() - i,
            {
                assert(decreases_to!(*j => j->Array_0));
                assert(decreases_to!(j->Array_0@ => j->Array_0@[i as int]));
                out.push(to_value(&a[i]));
                i += 1;
            }
            let node = JsonNode::Array(out);
            assert(node.built()->Array_0 =~= normal(j@)->Array_0);
            make_value(node)
        },
        Json::Object(m) => {
            let mut out: Vec<(String, Value)> = Vec::new();
            let mut i: usize = 0;
            while i < m.len()
                invariant
                    i <= m@.len(),
                    out@.len() == i,
                    *j == Json::Object(*m),
                    forall|k: int|
                        0 <= k < i ==> (#[trigger] out@[k]).0@ == m@[k].0@ && json_of(out@[k].1)
                            == normal(m@[k].1@),
                decreases m@.len() - i,
            {
                let key = m[i].0.clone();
                assert(decreases_to!(*j => j->Object_0));
                assert(decreases_to!(j->Object_0@ => j->Object_0@[i as int]));
                out.push((key, to_value(&m[i].1)));
                i += 1;
            }
            assert(level_members(out@) =~= normal_members(j@->Object_0));
            make_value(JsonNode::Object(out))
        },
    }
}

/// The compact JSON text of a value.
pub fn write_json(j: &Json) -> (r: String)
    ensures
        r@ == json_text(normal(j@)),
        is_flat(normal(j@)) ==> read_back(encode_utf8(r@), normal(j@)),
{
    let v = to_value(j);
    value_text(&v)
}

/// Parses JSON text. On failure says why in the parser's words.
pub fn read_json(bytes: &[u8]) -> (r: Result<Json, String>)
    ensures
        match r {
            Ok(j) => json_parse(bytes@) == Ok::<JsonView, Seq<char>>(j@),
            Err(e) => json_parse(bytes@) == Err::<JsonView, Seq<char>>(e@),
        },
{
    match parse_value(bytes) {
        Ok(v) => Ok(read_value(v)),
        Err(e) => Err(e),
    }
}

/// The body of a response: its JSON value, or null where it is no JSON.
pub fn read_body(bytes: &[u8]) -> (r: Json)
    ensures
        r@ == match json_parse(bytes@) {
            Ok(v) => v,
            Err(_) => JsonView::Null,
        },
{
    match read_json(bytes) {
        Ok(j) => j,
        Err(_) => Json::Null,
    }
}

/// Encodes bytes in base64.
pub fn to_base64(bytes: &[u8]) -> (r: String)
    requires
        bytes@.len() <= usize::MAX / 4,
    ensures
        r@ == base64_text(bytes@),
        base64_bytes(r@) is Ok && base64_bytes(r@)->Ok_0 == bytes@,
{
    encode_standard(bytes)
}

/// Decodes base64. On failure says why in the decoder's words.
pub fn from_base64(text: &str) -> (r: Result<Vec<u8>, String>)
    ensures
        match r {
            Ok(b) => base64_bytes(text@) == Ok::<Seq<u8>, Seq<char>>(b@),
            Err(e) => base64_bytes(text@) == Err::<Seq<u8>, Seq<char>>(e@),
        },
{
    decode_standard(text)
}

/// The text that bytes encode. On failure says where they stop being UTF-8.
pub fn text_of_bytes(bytes: Vec<u8>) -> (r: Result<String, String>)
    ensures
        match r {
            Ok(s) => valid_utf8(bytes@) && s@ == decode_utf8(bytes@),
            Err(e) => !valid_utf8(bytes@) && e@ == utf8_fault(bytes@),
        },
{
    string_from_utf8(bytes)
}

/// Members whose keys come one after the other, none twice.
pub open spec fn in_key_order(members: Seq<(Seq<char>, JsonView)>) -> bool {
    forall|i: int, j: int|
        0 <= i < j < members.len() ==> crate::text::text_lt(
            (#[trigger] members[i]).0,
            (#[trigger] members[j]).0,
        )
}

/// The value of the last member named `key`.
pub open spec fn last_member(members: Seq<(Seq<char>, JsonView)>, key: Seq<char>) -> Option<JsonView>
    decreases members.len(),
{
    if members.len() == 0 {
        None
    } else if members.last().0 == key {
        Some(members.last().1)
    } else {
        last_member(members.drop_last(), key)
    }
}

proof fn lemma_find_pushed(
    members: Seq<(Seq<char>, JsonView)>,
    one: (Seq<char>, JsonView),
    key: Seq<char>,
)
    ensures
        crate::json::find_member(members.push(one), key) == match crate::json::find_member(
            members,
            key,
        ) {
            Some(v) => Some(v),
            None => if one.0 == key {
                Some(one.1)
            } else {
                None
            },
        },
    decreases members.len(),
{
    let all = members.push(one);
    if members.len() == 0 {
        assert(all.drop_first() =~= seq![]);
    } else {
        assert(all.drop_first() =~= members.drop_first().push(one));
        lemma_find_pushed(members.drop_first(), one, key);
    }
}

proof fn lemma_not_found(members: Seq<(Seq<char>, JsonView)>, key: Seq<char>)
    requires
        forall|i: int| 0 <= i < members.len() ==> (#[trigger] members[i]).0 != key,
    ensures
        crate::json::find_member(members, key) is None,
    decreases members.len(),
{
    if members.len() > 0 {
        let rest = members.drop_first();
        assert(members[0].0 != key);
        assert forall|i: int| 0 <= i < rest.len() implies (#[trigger] rest[i]).0 != key by {
            assert(members[i + 1].0 != key);
        }
        lemma_not_found(rest, key);
    }
}

proof fn lemma_put_member(
    members: Seq<(Seq<char>, JsonView)>,
    key: Seq<char>,
    value: JsonView,
    wanted: Seq<char>,
)
    requires
        in_key_order(members),
    ensures
        in_key_order(put_member(members, key, value)),
        crate::json::find_member(put_member(members, key, value), wanted) == if wanted == key {
            Some(value)
        } else {
            crate::json::find_member(members, wanted)
        },
        forall|i: int|
            0 <= i < put_member(members, key, value).len() ==> ({
                let one = #[trigger] put_member(members, key, value)[i];
                one == (key, value) || members.contains(one)
            }),
    decreases members.len(),
{
    let after = put_member(members, key, value);
    if members.len() == 0 {
        lemma_find_pushed(members, (key, value), wanted);
    } else {
        let head = members.drop_last();
        let last = members.last();
        assert(members =~= head.push(last));
        lemma_find_pushed(head, last, wanted);
        if crate::text::text_lt(last.0, key) {
            assert forall|i: int| 0 <= i < members.len() implies crate::text::text_lt(
                (#[trigger] members[i]).0,
                key,
            ) by {
                if i < members.len() - 1 {
                    assert(crate::text::text_lt(members[i].0, members[members.len() - 1].0));
                    crate::text::text_order_is_transitive(members[i].0, last.0, key);
                }
            }
            assert forall|i: int| 0 <= i < members.len() implies (#[trigger] members[i]).0 != key by {
                crate::text::text_order_is_total(members[i].0, key);
            }
            lemma_not_found(members, key);
            lemma_find_pushed(members, (key, value), wanted);
            assert forall|i: int| 0 <= i < after.len() implies (#[trigger] after[i] == (key, value)
                || members.contains(after[i])) by {
                if i < members.len() {
                    assert(after[i] == members[i]);
                }
            }
        } else if last.0 == key {
            assert forall|i: int| 0 <= i < head.len() implies (#[trigger] head[i]).0 != key by {
                assert(crate::text::text_lt(members[i].0, members[members.len() - 1].0));
                crate::text::text_order_is_total(members[i].0, key);
            }
            lemma_not_found(head, key);
            lemma_find_pushed(head, (key, value), wanted);
            assert forall|i: int, j: int| 0 <= i < j < after.len() implies crate::text::text_lt(
                (#[trigger] after[i]).0,
                (#[trigger] after[j]).0,
            ) by {
                assert(crate::text::text_lt(members[i].0, members[j].0));
            }
            assert forall|i: int| 0 <= i < after.len() implies (#[trigger] after[i] == (key, value)
                || members.contains(after[i])) by {
                if i < head.len() {
                    assert(after[i] == members[i]);
                }
            }
        } else {
            crate::text::text_order_is_total(last.0, key);
            assert forall|i: int, j: int| 0 <= i < j < head.len() implies crate::text::text_lt(
                (#[trigger] head[i]).0,
                (#[trigger] head[j]).0,
            ) by {
                assert(crate::text::text_lt(members[i].0, members[j].0));
            }
            lemma_put_member(head, key, value, wanted);
            let front = put_member(head, key, value);
            lemma_find_pushed(front, last, wanted);
            assert forall|i: int| 0 <= i < front.len() implies crate::text::text_lt(
                (#[trigger] front[i]).0,
                last.0,
            ) by {
                if front[i] != (key, value) {
                    let k = choose|k: int| 0 <= k < head.len() && head[k] == front[i];
                    assert(crate::text::text_lt(members[k].0, members[members.len() - 1].0));
                }
            }
            assert forall|i: int| 0 <= i < after.len() implies (#[trigger] after[i] == (key, value)
                || members.contains(after[i])) by {
                if i < front.len() {
                    assert(after[i] == front[i]);
                    if front[i] != (key, value) {
                        let k = choose|k: int| 0 <= k < head.len() && head[k] == front[i];
                        assert(members[k] == front[i]);
                    }
                } else {
                    assert(members[members.len() - 1] == after[i]);
                }
            }
        }
    }
}

/// In the JSON text of an object a key stands for the last value that was given
/// to it.
pub proof fn gathered_members_are_found(members: Seq<(Seq<char>, JsonView)>, key: Seq<char>)
    ensures
        in_key_order(gather(members)),
        crate::json::find_member(gather(members), key) == last_member(members, key),
    decreases members.len(),
{
    if members.len() > 0 {
        gathered_members_are_found(members.drop_last(), key);
        lemma_put_member(
            gather(members.drop_last()),
            members.last().0,
            members.last().1,
            key,
        );
    }
}

/// An object of strings is read back from its JSON text with each key standing
/// for the last value that was given to it.
pub proof fn lemma_flat_object(members: Seq<(Seq<char>, JsonView)>)
    requires
        forall|i: int| 0 <= i < members.len() ==> (#[trigger] members[i]).1 is Str,
    ensures
        is_flat(normal(JsonView::Object(members))),
        forall|key: Seq<char>| #[trigger]
            normal(JsonView::Object(members)).field(key) == last_member(members, key),
{
    let shown = normal_members(members);
    assert(shown =~= members) by {
        assert forall|i: int| 0 <= i < members.len() implies shown[i] == members[i] by {
            assert(members[i].1 is Str);
        }
    }
    lemma_gather_flat(members);
    assert forall|key: Seq<char>| #[trigger]
        normal(JsonView::Object(members)).field(key) == last_member(members, key) by {
        gathered_members_are_found(members, key);
    }
}

proof fn lemma_gather_flat(members: Seq<(Seq<char>, JsonView)>)
    requires
        forall|i: int| 0 <= i < members.len() ==> (#[trigger] members[i]).1 is Str,
    ensures
        forall|i: int| 0 <= i < gather(members).len() ==> (#[trigger] gather(members)[i]).1 is Str,
    decreases members.len(),
{
    if members.len() > 0 {
        let rest = members.drop_last();
        assert forall|i: int| 0 <= i < rest.len() implies (#[trigger] rest[i]).1 is Str by {
            assert(members[i].1 is Str);
        }
        assert(members[members.len() - 1].1 is Str);
        lemma_gather_flat(rest);
        gathered_members_are_found(rest, members.last().0);
        lemma_put_member(gather(rest), members.last().0, members.last().1, members.last().0);
        assert forall|i: int| 0 <= i < gather(members).len() implies (
        #[trigger] gather(members)[i]).1 is Str by {
            let one = gather(members)[i];
            if one != members.last() {
                let k = choose|k: int| 0 <= k < gather(rest).len() && gather(rest)[k] == one;
                assert(gather(rest)[k].1 is Str);
            }
        }
    }
}

proof fn lemma_last_member(members: Seq<(Seq<char>, JsonView)>, key: Seq<char>, k: int)
    ensures
        0 <= k < members.len() && members[k].0 == key && (forall|i: int|
            k < i < members.len() ==> (#[trigger] members[i]).0 != key) ==> last_member(members, key)
            == Some(members[k].1),
        (forall|i: int| 0 <= i < members.len() ==> (#[trigger] members[i]).0 != key)
            ==> last_member(members, key) is None,
    decreases members.len(),
{
    if members.len() > 0 {
        let rest = members.drop_last();
        lemma_last_member(rest, key, k);
        assert(members[members.len() - 1] == members.last());
        assert(forall|i: int| 0 <= i < rest.len() ==> #[trigger] rest[i] == members[i]);
    }
}

/// A value is written to JSON text as what it is: a text, a flag and a number stay what
/// they are, and an array is written element by element.
pub proof fn plain_values_are_written_as_they_are(j: JsonView, i: int)
    ensures
        j is Null || j is Bool || j is PosInt || j is Str ==> normal(j) == j,
        j matches JsonView::NegInt(n) ==> normal(j) == (if n < 0 {
            JsonView::NegInt(n)
        } else {
            JsonView::PosInt(n as u64)
        }),
        j matches JsonView::Float(numeral) ==> (match json_parse(encode_utf8(numeral)) {
            Ok(v) => normal(j) == v,
            Err(_) => normal(j) == JsonView::Null,
        }),
        j matches JsonView::Array(a) ==> (normal(j) matches JsonView::Array(b) && b.len() == a.len()
            && (0 <= i < a.len() ==> b[i] == normal(a[i]))),
{
}

/// An object is written to JSON text member by member: a key stands for the last value
/// that was given to it, and a key that none was given to does not occur.
pub proof fn members_are_written_as_they_are(
    members: Seq<(Seq<char>, JsonView)>,
    key: Seq<char>,
    k: int,
)
    ensures
        normal(JsonView::Object(members)) is Object,
        0 <= k < members.len() && members[k].0 == key && (forall|i: int|
            k < i < members.len() ==> (#[trigger] members[i]).0 != key) ==> normal(
            JsonView::Object(members),
        ).field(key) == Some(normal(members[k].1)),
        (forall|i: int| 0 <= i < members.len() ==> (#[trigger] members[i]).0 != key) ==> normal(
            JsonView::Object(members),
        ).field(key) is None,
{
    let shown = normal_members(members);
    gathered_members_are_found(shown, key);
    lemma_last_member(shown, key, k);
    assert(forall|i: int| 0 <= i < members.len() ==> (#[trigger] shown[i]).0 == members[i].0);
}

/// The keys of an object stand in its JSON text in their order, none twice.
pub proof fn keys_are_written_in_order(members: Seq<(Seq<char>, JsonView)>, i: int, j: int)
    ensures
        normal(JsonView::Object(members)) matches JsonView::Object(written) && (0 <= i < j
            < written.len() ==> crate::text::text_lt(written[i].0, written[j].0)),
{
    gathered_members_are_found(normal_members(members), seq![]);
}

} // verus!
