//! JSON values: their text, and reading them from text.

use crate::text;
use serde_json::Value as Json;
use vstd::prelude::*;

verus! {

broadcast use vstd::std_specs::vec::axiom_vec_index_decreases;

/// A JSON value. A number keeps its text; the members of an object stand in the
/// order in which they are written.
#[derive(Debug, PartialEq, Eq)]
pub enum Value {
    Null,
    Bool(bool),
    Number(String),
    Text(String),
    List(Vec<Value>),
    Object(Vec<(String, Value)>),
}

/// A [`Value`] with its texts and lists as sequences.
#[verifier::ext_equal]
pub enum JsonView {
    Null,
    Bool(bool),
    Number(Seq<char>),
    Text(Seq<char>),
    List(Seq<JsonView>),
    Object(Seq<(Seq<char>, JsonView)>),
}

/// The mathematical value of a JSON value.
pub open spec fn json_view(value: Value) -> JsonView
    decreases value,
{
    match value {
        Value::Null => JsonView::Null,
        Value::Bool(flag) => JsonView::Bool(flag),
        Value::Number(text) => JsonView::Number(text@),
        Value::Text(text) => JsonView::Text(text@),
        Value::List(items) => JsonView::List(
            Seq::new(
                items@.len(),
                |i: int|
                    if 0 <= i < items@.len() {
                        json_view(items[i])
                    } else {
                        JsonView::Null
                    },
            ),
        ),
        Value::Object(members) => JsonView::Object(
            Seq::new(
                members@.len(),
                |i: int|
                    if 0 <= i < members@.len() {
                        (members[i].0@, json_view(members[i].1))
                    } else {
                        (Seq::empty(), JsonView::Null)
                    },
            ),
        ),
    }
}

impl View for Value {
    type V = JsonView;

    open spec fn view(&self) -> JsonView {
        json_view(*self)
    }
}

/// The mathematical values of a list.
pub open spec fn list_view(items: Seq<Value>) -> Seq<JsonView> {
    items.map_values(|item: Value| item@)
}

/// The mathematical values of an object's members.
pub open spec fn members_view(members: Seq<(String, Value)>) -> Seq<(Seq<char>, JsonView)> {
    members.map_values(|member: (String, Value)| (member.0@, member.1@))
}

/// The view of a list is the list of the views.
pub proof fn lemma_list_view(items: Vec<Value>)
    ensures
        Value::List(items)@ == JsonView::List(list_view(items@)),
{
    assert(Value::List(items)@->List_0 =~= list_view(items@));
}

/// The view of an object holds the views of its members.
pub proof fn lemma_object_view(members: Vec<(String, Value)>)
    ensures
        Value::Object(members)@ == JsonView::Object(members_view(members@)),
{
    assert(Value::Object(members)@->Object_0 =~= members_view(members@));
}

fn clone_value(value: &Value) -> (r: Value)
    ensures
        r@ == value@,
    decreases value, 1int,
{
    match value {
        Value::Null => Value::Null,
        Value::Bool(flag) => Value::Bool(*flag),
        Value::Number(text) => Value::Number(text.clone()),
        Value::Text(text) => Value::Text(text.clone()),
        Value::List(items) => {
            let copy = clone_items(items);
            proof {
                lemma_list_view(*items);
                lemma_list_view(copy);
            }
            Value::List(copy)
        },
        Value::Object(members) => {
            let copy = clone_members(members);
            proof {
                lemma_object_view(*members);
                lemma_object_view(copy);
            }
            Value::Object(copy)
        },
    }
}

fn clone_items(items: &Vec<Value>) -> (r: Vec<Value>)
    ensures
        list_view(r@) == list_view(items@),
    decreases items, 0int,
{
    let mut out: Vec<Value> = Vec::new();
    let mut i: usize = 0;
    while i < items.len()
        invariant
            i <= items.len(),
            list_view(out@) == list_view(items@).take(i as int),
        decreases items.len() - i,
    {
        let ghost before = list_view(out@);
        assert(decreases_to!(*items => items[i as int]));
        let copy = clone_value(&items[i]);
        out.push(copy);
        assert(list_view(out@) =~= before.push(copy@));
        assert(list_view(items@).take(i + 1) =~= before.push(items@[i as int]@));
        i += 1;
    }
    assert(list_view(items@).take(items.len() as int) =~= list_view(items@));
    out
}

fn clone_members(members: &Vec<(String, Value)>) -> (r: Vec<(String, Value)>)
    ensures
        members_view(r@) == members_view(members@),
    decreases members, 0int,
{
    let mut out: Vec<(String, Value)> = Vec::new();
    let mut i: usize = 0;
    while i < members.len()
        invariant
            i <= members.len(),
            members_view(out@) == members_view(members@).take(i as int),
        decreases members.len() - i,
    {
        let ghost before = members_view(out@);
        assert(decreases_to!(*members => members[i as int]));
        let copy = (members[i].0.clone(), clone_value(&members[i].1));
        out.push(copy);
        assert(members_view(out@) =~= before.push((copy.0@, copy.1@)));
        assert(members_view(members@).take(i + 1) =~= before.push(
            (members@[i as int].0@, members@[i as int].1@),
        ));
        i += 1;
    }
    assert(members_view(members@).take(members.len() as int) =~= members_view(members@));
    out
}

impl Clone for Value {
    fn clone(&self) -> (r: Self)
        ensures
            r@ == self@,
    {
        clone_value(self)
    }
}

/// The position of the first member with the key, from `i` on.
pub open spec fn member_from(members: Seq<(Seq<char>, JsonView)>, key: Seq<char>, i: int) -> Option<
    int,
>
    decreases members.len() - i,
{
    if i < 0 || i >= members.len() {
        None
    } else if members[i].0 == key {
        Some(i)
    } else {
        member_from(members, key, i + 1)
    }
}

/// The member of an object with the key.
pub open spec fn member(value: JsonView, key: Seq<char>) -> Option<JsonView> {
    match value {
        JsonView::Object(members) => match member_from(members, key, 0) {
            Some(i) => Some(members[i].1),
            None => None,
        },
        _ => None,
    }
}

/// The unsigned integer of 64 bits that a value holds.
pub open spec fn unsigned(value: JsonView) -> Option<u64> {
    match value {
        JsonView::Number(text) => if text::is_number(text) && text::number_value(text)
            <= u64::MAX {
            Some(text::number_value(text) as u64)
        } else {
            None
        },
        _ => None,
    }
}

impl Value {
    /// The member of an object with the key.
    pub fn get(&self, key: &str) -> (r: Option<&Value>)
        ensures
            match r {
                Some(value) => member(self@, key@) == Some(value@),
                None => member(self@, key@) is None,
            },
    {
        match self {
            Value::Object(members) => {
                let ghost views = members_view(members@);
                proof {
                    lemma_object_view(*members);
                }
                let mut i: usize = 0;
                while i < members.len()
                    invariant
                        i <= members.len(),
                        views == members_view(members@),
                        self@ == JsonView::Object(views),
                        member_from(views, key@, 0) == member_from(views, key@, i as int),
                    decreases members.len() - i,
                {
                    assert(views[i as int] == (members@[i as int].0@, members@[i as int].1@));
                    if text::same(members[i].0.as_str(), key) {
                        return Some(&members[i].1);
                    }
                    i += 1;
                }
                None
            },
            _ => None,
        }
    }

    /// The text that the value is.
    pub fn as_str(&self) -> (r: Option<&str>)
        ensures
            match r {
                Some(text) => self@ == JsonView::Text(text@),
                None => !(self@ is Text),
            },
    {
        match self {
            Value::Text(text) => Some(text.as_str()),
            _ => None,
        }
    }

    /// The unsigned integer of 64 bits that the value is.
    pub fn as_u64(&self) -> (r: Option<u64>)
        ensures
            r == unsigned(self@),
    {
        match self {
            Value::Number(text) => {
                let chars = text::chars_of(text.as_str());
                if chars.len() > 0 && chars[0] == '+' {
                    assert(!text::is_digit(text@[0]));
                    return None;
                }
                match text::parse_unsigned(text.as_str(), u64::MAX as u128) {
                    Some(n) => Some(n as u64),
                    None => None,
                }
            },
            _ => None,
        }
    }

    /// An unsigned integer.
    pub fn from_u64(n: u64) -> (r: Value)
        ensures
            r@ == JsonView::Number(text::decimal(n as nat)),
    {
        Value::Number(text::number(n as u128))
    }
}

/// The lower-case hexadecimal digit of a value below sixteen.
pub open spec fn hex_digit(n: int) -> char {
    if n < 10 {
        (48 + n) as char
    } else {
        (87 + n) as char
    }
}

/// How a character stands in a quoted text.
pub open spec fn escape(c: char) -> Seq<char> {
    if c == '"' {
        seq!['\\', '"']
    } else if c == '\\' {
        seq!['\\', '\\']
    } else if c == '\n' {
        seq!['\\', 'n']
    } else if c == '\r' {
        seq!['\\', 'r']
    } else if c == '\t' {
        seq!['\\', 't']
    } else if c as int == 8 {
        seq!['\\', 'b']
    } else if c as int == 12 {
        seq!['\\', 'f']
    } else if (c as int) < 32 {
        seq!['\\', 'u', '0', '0', hex_digit(c as int / 16), hex_digit(c as int % 16)]
    } else {
        seq![c]
    }
}

/// A text with its characters escaped.
pub open spec fn escaped(s: Seq<char>) -> Seq<char>
    decreases s.len(),
{
    if s.len() == 0 {
        Seq::empty()
    } else {
        escaped(s.drop_last()) + escape(s.last())
    }
}

/// A text as a JSON string.
pub open spec fn quoted(s: Seq<char>) -> Seq<char> {
    seq!['"'] + escaped(s) + seq!['"']
}

/// The text of a JSON value, without white space.
pub open spec fn json_text(value: JsonView) -> Seq<char>
    decreases value,
{
    match value {
        JsonView::Null => seq!['n', 'u', 'l', 'l'],
        JsonView::Bool(true) => seq!['t', 'r', 'u', 'e'],
        JsonView::Bool(false) => seq!['f', 'a', 'l', 's', 'e'],
        JsonView::Number(text) => text,
        JsonView::Text(text) => quoted(text),
        JsonView::List(items) => seq!['['] + items_text(items) + seq![']'],
        JsonView::Object(members) => seq!['{'] + members_text(members) + seq!['}'],
    }
}

/// The texts of a list's items, with commas between them.
pub open spec fn items_text(items: Seq<JsonView>) -> Seq<char>
    decreases items,
{
    if items.len() == 0 {
        Seq::empty()
    } else if items.len() == 1 {
        json_text(items[0])
    } else {
        items_text(items.drop_last()) + seq![','] + json_text(items.last())
    }
}

/// The texts of an object's members, with commas between them.
pub open spec fn members_text(members: Seq<(Seq<char>, JsonView)>) -> Seq<char>
    decreases members,
{
    if members.len() == 0 {
        Seq::empty()
    } else {
        let last = members.last();
        let text = quoted(last.0) + seq![':'] + json_text(last.1);
        if members.len() == 1 {
            text
        } else {
            members_text(members.drop_last()) + seq![','] + text
        }
    }
}

/// Writes a text as a JSON string.
///
/// `serde_json::to_string` on a string slice: the text between quotation marks,
/// with quotation marks, backslashes and control characters escaped and every
/// other character as it is.
#[verifier::external_body]
pub(crate) fn quote_text(text: &str) -> (r: String)
    ensures
        r@ == quoted(text@),
{
    match serde_json::to_string(text) {
        Ok(text) => text,
        Err(_) => String::new(),
    }
}

/// What `serde_json::from_str` reads as a string.
pub uninterp spec fn unquoted(raw: Seq<char>) -> Option<Seq<char>>;

/// Reads a JSON string.
///
/// `serde_json::from_str` into a string. What it makes of any text is only
/// named; that it reads back what [`quote_text`] wrote is stated.
#[verifier::external_body]
pub(crate) fn unquote_text(raw: &str) -> (r: Option<String>)
    ensures
        crate::error::inner(r) == unquoted(raw@),
        forall|s: Seq<char>| raw@ == #[trigger] quoted(s) ==> r is Some && r->0@ == s,
{
    serde_json::from_str(raw).ok()
}

/// The nesting of a value.
pub open spec fn depth(value: JsonView) -> nat
    decreases value,
{
    match value {
        JsonView::List(items) => 1 + items_depth(items),
        JsonView::Object(members) => 1 + members_depth(members),
        _ => 0,
    }
}

/// The largest nesting among a list's items.
pub open spec fn items_depth(items: Seq<JsonView>) -> nat
    decreases items,
{
    if items.len() == 0 {
        0
    } else {
        let rest = items_depth(items.drop_last());
        let last = depth(items.last());
        if last > rest {
            last
        } else {
            rest
        }
    }
}

/// The largest nesting among an object's values.
pub open spec fn members_depth(members: Seq<(Seq<char>, JsonView)>) -> nat
    decreases members,
{
    if members.len() == 0 {
        0
    } else {
        let rest = members_depth(members.drop_last());
        let last = depth(members.last().1);
        if last > rest {
            last
        } else {
            rest
        }
    }
}

/// The text of an integer of 64 bits: no leading zero, no minus zero.
pub open spec fn integer_text(s: Seq<char>) -> bool {
    ||| exists|n: nat| n <= u64::MAX && s == #[trigger] text::decimal(n)
    ||| exists|n: nat|
        0 < n <= 0x8000_0000_0000_0000 && s == seq!['-'] + #[trigger] text::decimal(n)
}

/// The key by which `serde_json` marks a text that it reads in place of an object,
/// where that key is the first one of the object.
pub open spec fn raw_marker() -> Seq<char> {
    "$serde_json::private::RawValue"@
}

/// All numbers are integers of 64 bits, the keys of every object stand in ascending
/// order, and the first of them is not [`raw_marker`].
pub open spec fn ordered_integers(value: JsonView) -> bool
    decreases value,
{
    match value {
        JsonView::Number(text) => integer_text(text),
        JsonView::List(items) => items_ordered_integers(items),
        JsonView::Object(members) => {
            &&& forall|i: int, j: int|
                0 <= i < j < members.len() ==> text::before(
                    (#[trigger] members[i]).0,
                    (#[trigger] members[j]).0,
                )
            &&& members.len() > 0 ==> members[0].0 != raw_marker()
            &&& members_ordered_integers(members)
        },
        _ => true,
    }
}

/// [`ordered_integers`] of every item.
pub open spec fn items_ordered_integers(items: Seq<JsonView>) -> bool
    decreases items,
{
    items.len() == 0 || (ordered_integers(items.last()) && items_ordered_integers(
        items.drop_last(),
    ))
}

/// [`ordered_integers`] of every value.
pub open spec fn members_ordered_integers(members: Seq<(Seq<char>, JsonView)>) -> bool
    decreases members,
{
    members.len() == 0 || (ordered_integers(members.last().1) && members_ordered_integers(
        members.drop_last(),
    ))
}

/// A value that reading gives back as it was written: integers only, keys in
/// ascending order, no object that begins with the key that `serde_json` keeps for
/// itself, and no nesting beyond what reading allows.
pub open spec fn readable(value: JsonView) -> bool {
    ordered_integers(value) && depth(value) <= 127
}

/// A JSON value as `serde_json` reads it.
#[verifier::external_type_specification]
#[verifier::external_body]
pub struct ExJson(Json);

/// What a value of `serde_json` holds: the texts of its numbers as they are
/// displayed, and its members in the order in which they are listed.
pub uninterp spec fn content(value: Json) -> JsonView;

/// What `serde_json::from_str` reads.
pub uninterp spec fn read(text: Seq<char>) -> Option<JsonView>;

/// Reads a JSON text.
///
/// `serde_json::from_str` into a `serde_json::Value`. What it makes of any text is
/// only named. Of a text that [`json_text`] writes for a [`readable`] value it is
/// stated that reading gives that value back: integers keep their text, members
/// come in ascending order of their keys, and at most 127 lists and objects may be
/// nested. Other numbers become floating-point numbers, of which nothing is stated.
/// Nothing is stated either of an object whose first key is [`raw_marker`]: with the
/// feature `raw_value`, which `sqlx` switches on, the text of that member is read in
/// place of the object.
#[verifier::external_body]
fn read_json(text: &str) -> (r: Option<Json>)
    ensures
        match r {
            Some(value) => read(text@) == Some(content(value)),
            None => read(text@) is None,
        },
        forall|value: JsonView|
            #![trigger readable(value)]
            readable(value) && text@ == json_text(value) ==> r is Some && content(r->0) == value,
{
    serde_json::from_str(text).ok()
}

/// A value of `serde_json` with what is right below it.
enum Opened {
    Null,
    Bool(bool),
    Number(String),
    Text(String),
    List(Vec<Json>),
    Object(Vec<(String, Json)>),
}

/// What values of `serde_json` hold.
pub open spec fn contents(items: Seq<Json>) -> Seq<JsonView> {
    items.map_values(|item: Json| content(item))
}

/// What members of `serde_json` hold.
pub open spec fn member_contents(members: Seq<(String, Json)>) -> Seq<
    (Seq<char>, JsonView),
> {
    members.map_values(|member: (String, Json)| (member.0@, content(member.1)))
}

/// Opens a value.
///
/// The variants of `serde_json::Value`, a number by its `Display` and the members of
/// an object in the order of its iterator: what [`content`] stands for.
#[verifier::external_body]
fn open(value: Json) -> (r: Opened)
    ensures
        content(value) == (match r {
            Opened::Null => JsonView::Null,
            Opened::Bool(flag) => JsonView::Bool(flag),
            Opened::Number(text) => JsonView::Number(text@),
            Opened::Text(text) => JsonView::Text(text@),
            Opened::List(items) => JsonView::List(contents(items@)),
            Opened::Object(members) => JsonView::Object(member_contents(members@)),
        }),
{
    match value {
        Json::Null => Opened::Null,
        Json::Bool(flag) => Opened::Bool(flag),
        Json::Number(number) => Opened::Number(number.to_string()),
        Json::String(text) => Opened::Text(text),
        Json::Array(items) => Opened::List(items),
        Json::Object(members) => Opened::Object(members.into_iter().collect()),
    }
}

/// The value that a value of `serde_json` holds.
fn convert(value: Json) -> (r: Value)
    ensures
        r@ == content(value),
    decreases content(value),
{
    match open(value) {
        Opened::Null => Value::Null,
        Opened::Bool(flag) => Value::Bool(flag),
        Opened::Number(text) => Value::Number(text),
        Opened::Text(text) => Value::Text(text),
        Opened::List(items) => {
            let ghost all = items@;
            let mut left = text::reversed(items);
            let mut out: Vec<Value> = Vec::new();
            assert(all.reverse().take(all.len() as int) =~= all.reverse());
            while left.len() > 0
                invariant
                    content(value) == JsonView::List(contents(all)),
                    left.len() + out.len() == all.len(),
                    left@ == all.reverse().take(left.len() as int),
                    forall|i: int|
                        0 <= i < out.len() ==> (#[trigger] out@[i])@ == content(all[i]),
                decreases left.len(),
            {
                let ghost n = left.len() - 1;
                if let Some(item) = left.pop() {
                    proof {
                        let whole = content(value);
                        let k = out.len() as int;
                        assert(content(item) == contents(all)[k]);
                        assert(decreases_to!(whole => whole->List_0));
                        assert(decreases_to!(whole->List_0 => whole->List_0[k]));
                    }
                    out.push(convert(item));
                }
                assert(left@ =~= all.reverse().take(n));
            }
            proof {
                lemma_list_view(out);
                assert(list_view(out@) =~= contents(all));
            }
            Value::List(out)
        },
        Opened::Object(members) => {
            let ghost all = members@;
            let mut left = text::reversed(members);
            let mut out: Vec<(String, Value)> = Vec::new();
            assert(all.reverse().take(all.len() as int) =~= all.reverse());
            while left.len() > 0
                invariant
                    content(value) == JsonView::Object(member_contents(all)),
                    left.len() + out.len() == all.len(),
                    left@ == all.reverse().take(left.len() as int),
                    forall|i: int|
                        0 <= i < out.len() ==> (#[trigger] out@[i]).0 == all[i].0 && out@[i].1@
                            == content(all[i].1),
                decreases left.len(),
            {
                let ghost n = left.len() - 1;
                if let Some((key, item)) = left.pop() {
                    proof {
                        let whole = content(value);
                        let k = out.len() as int;
                        assert(content(item) == member_contents(all)[k].1);
                        assert(decreases_to!(whole => whole->Object_0));
                        assert(decreases_to!(whole->Object_0 => whole->Object_0[k]));
                        assert(decreases_to!(whole->Object_0[k] => whole->Object_0[k].1));
                    }
                    out.push((key, convert(item)));
                }
                assert(left@ =~= all.reverse().take(n));
            }
            proof {
                lemma_object_view(out);
                assert(members_view(out@) =~= member_contents(all));
            }
            Value::Object(out)
        },
    }
}

/// Reads a JSON value. A readable value is read back from its text.
pub fn parse(text: &str) -> (r: Option<Value>)
    ensures
        crate::error::inner(r) == read(text@),
        forall|value: JsonView|
            #![trigger readable(value)]
            readable(value) && text@ == json_text(value) ==> r is Some && r->0@ == value,
{
    match read_json(text) {
        Some(value) => Some(convert(value)),
        None => None,
    }
}

/// The message with which `serde_json::from_slice` refuses bytes.
pub uninterp spec fn read_failure(bytes: Seq<u8>) -> Seq<char>;

/// Why bytes are not read as a JSON value.
///
/// The message of `serde_json::from_slice`, which is only named; empty where the
/// bytes are read.
#[verifier::external_body]
pub(crate) fn explain_failure(bytes: &Vec<u8>) -> (r: String)
    ensures
        r@ == read_failure(bytes@),
{
    match serde_json::from_slice::<serde_json::Value>(bytes) {
        Ok(_) => String::new(),
        Err(error) => error.to_string(),
    }
}

/// What bytes are read as: a JSON text in UTF-8.
pub open spec fn read_bytes(bytes: Seq<u8>) -> Option<JsonView> {
    if vstd::utf8::valid_utf8(bytes) {
        read(vstd::utf8::decode_utf8(bytes))
    } else {
        None
    }
}

/// Reads a JSON value from bytes. A readable value is read back from the bytes
/// of its text.
pub fn parse_bytes(bytes: Vec<u8>) -> (r: Option<Value>)
    ensures
        crate::error::inner(r) == read_bytes(bytes@),
        forall|value: JsonView|
            #![trigger readable(value)]
            readable(value) && bytes@ == vstd::utf8::encode_utf8(json_text(value)) ==> r is Some
                && r->0@ == value,
{
    proof {
        assert forall|value: JsonView|
            #![trigger readable(value)]
            bytes@ == vstd::utf8::encode_utf8(json_text(value)) implies vstd::utf8::valid_utf8(
            bytes@,
        ) && vstd::utf8::decode_utf8(bytes@) == json_text(value) by {
            vstd::utf8::encode_utf8_valid_utf8(json_text(value));
            vstd::utf8::encode_utf8_decode_utf8(json_text(value));
        }
    }
    match text::from_bytes(bytes) {
        Ok(text) => {
            proof {
                vstd::utf8::encode_utf8_decode_utf8(text@);
            }
            parse(text.as_str())
        },
        Err(_) => None,
    }
}

/// The text of a JSON value.
pub fn render(value: &Value) -> (r: String)
    ensures
        r@ == json_text(value@),
    decreases value, 1int,
{
    match value {
        Value::Null => {
            proof {
                reveal_strlit("null");
            }
            assert("null"@ =~= json_text(value@));
            "null".to_owned()
        },
        Value::Bool(true) => {
            proof {
                reveal_strlit("true");
            }
            assert("true"@ =~= json_text(value@));
            "true".to_owned()
        },
        Value::Bool(false) => {
            proof {
                reveal_strlit("false");
            }
            assert("false"@ =~= json_text(value@));
            "false".to_owned()
        },
        Value::Number(text) => text.clone(),
        Value::Text(text) => quote_text(text.as_str()),
        Value::List(items) => {
            let body = render_items(items);
            proof {
                lemma_list_view(*items);
                reveal_strlit("[");
                reveal_strlit("]");
                assert("["@ =~= seq!['[']);
                assert("]"@ =~= seq![']']);
            }
            text::joined3("[", body.as_str(), "]")
        },
        Value::Object(members) => {
            let body = render_members(members);
            proof {
                lemma_object_view(*members);
                reveal_strlit("{");
                reveal_strlit("}");
                assert("{"@ =~= seq!['{']);
                assert("}"@ =~= seq!['}']);
                assert(members_view(members@).take(members.len() as int) =~= members_view(
                    members@,
                ));
            }
            text::joined3("{", body.as_str(), "}")
        },
    }
}

fn render_items(items: &Vec<Value>) -> (r: String)
    ensures
        r@ == items_text(list_view(items@)),
    decreases items, 0int,
{
    let mut out = String::new();
    let mut i: usize = 0;
    assert(out@ =~= items_text(list_view(items@).take(0)));
    while i < items.len()
        invariant
            i <= items.len(),
            out@ == items_text(list_view(items@).take(i as int)),
        decreases items.len() - i,
    {
        let ghost before = out@;
        let ghost upto = list_view(items@).take(i + 1);
        assert(decreases_to!(*items => items[i as int]));
        let item = render(&items[i]);
        if i > 0 {
            out.push(',');
        }
        out.append(item.as_str());
        proof {
            assert(upto.drop_last() =~= list_view(items@).take(i as int));
            assert(upto.last() == items@[i as int]@);
            if i == 0 {
                assert(out@ =~= item@);
            } else {
                assert(out@ =~= before + seq![','] + item@);
            }
        }
        i += 1;
    }
    assert(list_view(items@).take(items.len() as int) =~= list_view(items@));
    out
}

fn render_members(members: &Vec<(String, Value)>) -> (r: String)
    ensures
        r@ == members_text(members_view(members@)),
    decreases members, 0int,
{
    let mut out = String::new();
    let mut i: usize = 0;
    assert(out@ =~= members_text(members_view(members@).take(0)));
    while i < members.len()
        invariant
            i <= members.len(),
            out@ == members_text(members_view(members@).take(i as int)),
        decreases members.len() - i,
    {
        let ghost before = out@;
        let ghost upto = members_view(members@).take(i + 1);
        assert(decreases_to!(*members => members[i as int]));
        let value = render(&members[i].1);
        let mut item = quote_text(members[i].0.as_str());
        item.push(':');
        item.append(value.as_str());
        if i > 0 {
            out.push(',');
        }
        out.append(item.as_str());
        proof {
            assert(upto.drop_last() =~= members_view(members@).take(i as int));
            assert(upto.last() == (members@[i as int].0@, members@[i as int].1@));
            assert(item@ =~= quoted(upto.last().0) + seq![':'] + json_text(upto.last().1));
            if i == 0 {
                assert(out@ =~= item@);
            } else {
                assert(out@ =~= before + seq![','] + item@);
            }
        }
        i += 1;
    }
    assert(members_view(members@).take(members.len() as int) =~= members_view(members@));
    out
}

} // verus!
