//! JSON values, and their compact text.

use vstd::prelude::*;
use vstd::string::StringExecFns;

use crate::digest::hex_digit;
use crate::text::comma_joined;
use crate::text::comma_joined_push;
use crate::text::same_text;

verus! {

/// A JSON value. A number is kept as its text; the entries of an object are kept in order.
#[derive(Debug)]
pub enum Json {
    Null,
    Bool(bool),
    Number(String),
    Text(String),
    Array(Vec<Json>),
    Object(Vec<(String, Json)>),
}

/// A [`Json`] as a mathematical value.
pub ghost enum JsonModel {
    Null,
    Bool(bool),
    Number(Seq<char>),
    Text(Seq<char>),
    Array(Seq<JsonModel>),
    Object(Seq<(Seq<char>, JsonModel)>),
}

/// The items of an array as mathematical values.
pub open spec fn item_models(items: Seq<Json>) -> Seq<JsonModel>
    decreases items,
{
    if items.len() == 0 {
        Seq::empty()
    } else {
        seq![items[0].model()] + item_models(items.drop_first())
    }
}

/// The entries of an object as mathematical values.
pub open spec fn entry_models(entries: Seq<(String, Json)>) -> Seq<(Seq<char>, JsonModel)>
    decreases entries,
{
    if entries.len() == 0 {
        Seq::empty()
    } else {
        seq![(entries[0].0@, entries[0].1.model())] + entry_models(entries.drop_first())
    }
}

impl Json {
    /// This value as a mathematical value.
    pub open spec fn model(self) -> JsonModel
        decreases self,
    {
        match self {
            Json::Null => JsonModel::Null,
            Json::Bool(b) => JsonModel::Bool(b),
            Json::Number(text) => JsonModel::Number(text@),
            Json::Text(text) => JsonModel::Text(text@),
            Json::Array(items) => JsonModel::Array(item_models(items@)),
            Json::Object(entries) => JsonModel::Object(entry_models(entries@)),
        }
    }
}

impl View for Json {
    type V = JsonModel;

    open spec fn view(&self) -> JsonModel {
        self.model()
    }
}

/// Each item of an array has its own model.
pub proof fn item_models_are_pointwise(items: Seq<Json>)
    ensures
        item_models(items).len() == items.len(),
        forall|i: int| 0 <= i < items.len() ==> #[trigger] item_models(items)[i] == items[i]@,
    decreases items.len(),
{
    if items.len() > 0 {
        item_models_are_pointwise(items.drop_first());
    }
}

/// Each entry of an object has its own model.
pub proof fn entry_models_are_pointwise(entries: Seq<(String, Json)>)
    ensures
        entry_models(entries).len() == entries.len(),
        forall|i: int|
            0 <= i < entries.len() ==> #[trigger] entry_models(entries)[i] == (
                entries[i].0@,
                entries[i].1@,
            ),
    decreases entries.len(),
{
    if entries.len() > 0 {
        entry_models_are_pointwise(entries.drop_first());
    }
}

/// The texts of the items of an array.
pub open spec fn item_texts(items: Seq<JsonModel>) -> Seq<Seq<char>>
    decreases items,
{
    if items.len() == 0 {
        Seq::empty()
    } else {
        seq![items[0].text()] + item_texts(items.drop_first())
    }
}

/// The texts of the entries of an object.
pub open spec fn entry_texts(entries: Seq<(Seq<char>, JsonModel)>) -> Seq<Seq<char>>
    decreases entries,
{
    if entries.len() == 0 {
        Seq::empty()
    } else {
        seq![quoted(entries[0].0) + ":"@ + entries[0].1.text()] + entry_texts(
            entries.drop_first(),
        )
    }
}

/// Each item of an array has its own text.
proof fn item_texts_are_pointwise(items: Seq<JsonModel>)
    ensures
        item_texts(items).len() == items.len(),
        forall|i: int| 0 <= i < items.len() ==> #[trigger] item_texts(items)[i] == items[i].text(),
    decreases items.len(),
{
    if items.len() > 0 {
        item_texts_are_pointwise(items.drop_first());
    }
}

/// Each entry of an object has its own text.
proof fn entry_texts_are_pointwise(entries: Seq<(Seq<char>, JsonModel)>)
    ensures
        entry_texts(entries).len() == entries.len(),
        forall|i: int|
            0 <= i < entries.len() ==> #[trigger] entry_texts(entries)[i] == quoted(entries[i].0)
                + ":"@ + entries[i].1.text(),
    decreases entries.len(),
{
    if entries.len() > 0 {
        entry_texts_are_pointwise(entries.drop_first());
    }
}

impl JsonModel {
    /// The compact text of a value: no white space, entries in order.
    pub open spec fn text(self) -> Seq<char>
        decreases self,
    {
        match self {
            JsonModel::Null => "null"@,
            JsonModel::Bool(b) => if b {
                "true"@
            } else {
                "false"@
            },
            JsonModel::Number(text) => text,
            JsonModel::Text(text) => quoted(text),
            JsonModel::Array(items) => "["@ + comma_joined(item_texts(items)) + "]"@,
            JsonModel::Object(entries) => "{"@ + comma_joined(entry_texts(entries)) + "}"@,
        }
    }

    /// The value of the first entry with the given key, if this is an object that has one.
    pub open spec fn find(self, key: Seq<char>) -> Option<JsonModel> {
        match self {
            JsonModel::Object(entries) => find_entry(entries, key),
            _ => None,
        }
    }
}

/// The value of the first entry with the given key.
pub open spec fn find_entry(entries: Seq<(Seq<char>, JsonModel)>, key: Seq<char>) -> Option<
    JsonModel,
>
    decreases entries.len(),
{
    if entries.len() == 0 {
        None
    } else if entries[0].0 == key {
        Some(entries[0].1)
    } else {
        find_entry(entries.drop_first(), key)
    }
}

/// How a character stands in a JSON string.
pub open spec fn escape(c: char) -> Seq<char> {
    if c == '"' {
        seq!['\\', '"']
    } else if c == '\\' {
        seq!['\\', '\\']
    } else if c == '\u{8}' {
        seq!['\\', 'b']
    } else if c == '\t' {
        seq!['\\', 't']
    } else if c == '\n' {
        seq!['\\', 'n']
    } else if c == '\u{c}' {
        seq!['\\', 'f']
    } else if c == '\r' {
        seq!['\\', 'r']
    } else if (c as int) < 32 {
        seq!['\\', 'u', '0', '0', hex_digit(c as int / 16), hex_digit(c as int % 16)]
    } else {
        seq![c]
    }
}

/// How a text stands in a JSON string, without the quotation marks.
pub open spec fn escaped(text: Seq<char>) -> Seq<char>
    decreases text.len(),
{
    if text.len() == 0 {
        Seq::empty()
    } else {
        escape(text[0]) + escaped(text.drop_first())
    }
}

/// A text as a JSON string.
pub open spec fn quoted(text: Seq<char>) -> Seq<char> {
    seq!['"'] + escaped(text) + seq!['"']
}

/// A text as a JSON string.
///
/// `to_string` of the crate `serde_json` on a string slice: quotation marks around the text; a
/// quotation mark, a backslash, backspace, tab, line feed, form feed and carriage return become
/// a backslash and one letter; every other character below 32 becomes `\u00` and two lower-case
/// hexadecimal digits; everything else stands for itself. Writing to memory does not fail.
#[verifier::external_body]
pub(crate) fn quote(text: &str) -> (string: String)
    ensures
        string@ == quoted(text@),
{
    serde_json::to_string(text).unwrap()
}

impl Json {
    /// Appends the compact text of this value.
    fn encode_to(&self, out: &mut String)
        ensures
            final(out)@ == old(out)@ + self@.text(),
        decreases self,
    {
        match self {
            Json::Null => out.append("null"),
            Json::Bool(b) => if *b {
                out.append("true")
            } else {
                out.append("false")
            },
            Json::Number(text) => out.append(text.as_str()),
            Json::Text(text) => {
                let string: String = quote(text.as_str());
                out.append(string.as_str());
            },
            Json::Array(items) => {
                out.append("[");
                let ghost start = out@;
                let ghost texts = item_texts(item_models(items@));
                let mut i: usize = 0;
                proof {
                    item_models_are_pointwise(items@);
                    item_texts_are_pointwise(item_models(items@));
                    assert(start + comma_joined(texts.take(0)) =~= start);
                }
                while i < items.len()
                    invariant
                        i <= items@.len(),
                        texts.len() == items@.len(),
                        forall|j: int|
                            0 <= j < items@.len() ==> #[trigger] texts[j] == items@[j]@.text(),
                        *self == Json::Array(*items),
                        out@ == start + comma_joined(texts.take(i as int)),
                    decreases items@.len() - i,
                {
                    if i > 0 {
                        out.append(",");
                    }
                    proof {
                        assert(decreases_to!(self => self->Array_0));
                        assert(decreases_to!(self->Array_0 => items@));
                        assert(decreases_to!(items@ => items@[i as int]));
                    }
                    items[i].encode_to(out);
                    proof {
                        assert(texts.take(i + 1) =~= texts.take(i as int).push(texts[i as int]));
                        comma_joined_push(texts.take(i as int), texts[i as int]);
                        assert(out@ =~= start + comma_joined(texts.take(i + 1)));
                    }
                    i += 1;
                }
                out.append("]");
                proof {
                    assert(texts.take(i as int) =~= texts);
                    assert(out@ =~= old(out)@ + self@.text());
                }
            },
            Json::Object(entries) => {
                out.append("{");
                let ghost start = out@;
                let ghost texts = entry_texts(entry_models(entries@));
                let mut i: usize = 0;
                proof {
                    entry_models_are_pointwise(entries@);
                    entry_texts_are_pointwise(entry_models(entries@));
                    assert(start + comma_joined(texts.take(0)) =~= start);
                }
                while i < entries.len()
                    invariant
                        i <= entries@.len(),
                        texts.len() == entries@.len(),
                        forall|j: int|
                            0 <= j < entries@.len() ==> #[trigger] texts[j] == quoted(
                                entries@[j].0@,
                            ) + ":"@ + entries@[j].1@.text(),
                        *self == Json::Object(*entries),
                        out@ == start + comma_joined(texts.take(i as int)),
                    decreases entries@.len() - i,
                {
                    if i > 0 {
                        out.append(",");
                    }
                    let key: String = quote(entries[i].0.as_str());
                    out.append(key.as_str());
                    out.append(":");
                    proof {
                        assert(decreases_to!(self => self->Object_0));
                        assert(decreases_to!(self->Object_0 => entries@));
                        assert(decreases_to!(entries@ => entries@[i as int]));
                        assert(decreases_to!(entries@[i as int] => entries@[i as int].1));
                    }
                    entries[i].1.encode_to(out);
                    proof {
                        assert(texts.take(i + 1) =~= texts.take(i as int).push(texts[i as int]));
                        comma_joined_push(texts.take(i as int), texts[i as int]);
                        assert(out@ =~= start + comma_joined(texts.take(i + 1)));
                    }
                    i += 1;
                }
                out.append("}");
                proof {
                    assert(texts.take(i as int) =~= texts);
                    assert(out@ =~= old(out)@ + self@.text());
                }
            },
        }
    }

    /// The compact text of this value.
    pub fn encode(&self) -> (text: String)
        ensures
            text@ == self@.text(),
    {
        let mut text: String = String::new();
        self.encode_to(&mut text);
        proof {
            assert(text@ =~= self@.text());
        }
        text
    }

    /// The value of the first entry with the given key, if this is an object that has one.
    pub fn get(&self, key: &str) -> (value: Option<&Json>)
        ensures
            match value {
                Some(v) => self@.find(key@) == Some(v@),
                None => self@.find(key@) is None,
            },
    {
        match self {
            Json::Object(entries) => {
                let ghost model = entry_models(entries@);
                let mut i: usize = 0;
                proof {
                    entry_models_are_pointwise(entries@);
                    assert(model.skip(0) =~= model);
                }
                while i < entries.len()
                    invariant
                        i <= entries@.len(),
                        *self == Json::Object(*entries),
                        self@ == JsonModel::Object(model),
                        model.len() == entries@.len(),
                        forall|j: int|
                            0 <= j < entries@.len() ==> #[trigger] model[j] == (
                                entries@[j].0@,
                                entries@[j].1@,
                            ),
                        find_entry(model, key@) == find_entry(model.skip(i as int), key@),
                    decreases entries@.len() - i,
                {
                    proof {
                        assert(model.skip(i as int)[0] == model[i as int]);
                        assert(model.skip(i as int).drop_first() =~= model.skip(i + 1));
                    }
                    if same_text(entries[i].0.as_str(), key) {
                        return Some(&entries[i].1);
                    }
                    i += 1;
                }
                None
            },
            _ => None,
        }
    }
}

impl Clone for Json {
    fn clone(&self) -> (copy: Json)
        ensures
            copy@ == self@,
        decreases self,
    {
        match self {
            Json::Null => Json::Null,
            Json::Bool(b) => Json::Bool(*b),
            Json::Number(text) => Json::Number(text.clone()),
            Json::Text(text) => Json::Text(text.clone()),
            Json::Array(items) => {
                let mut copies: Vec<Json> = Vec::new();
                let mut i: usize = 0;
                while i < items.len()
                    invariant
                        i <= items@.len(),
                        *self == Json::Array(*items),
                        copies@.len() == i,
                        forall|j: int| 0 <= j < i ==> (#[trigger] copies@[j])@ == items@[j]@,
                    decreases items@.len() - i,
                {
                    proof {
                        assert(decreases_to!(self => self->Array_0));
                        assert(decreases_to!(self->Array_0 => items@));
                        assert(decreases_to!(items@ => items@[i as int]));
                    }
                    let item: Json = items[i].clone();
                    copies.push(item);
                    i += 1;
                }
                proof {
                    item_models_are_pointwise(copies@);
                    item_models_are_pointwise(items@);
                    assert(item_models(copies@) =~= item_models(items@));
                }
                Json::Array(copies)
            },
            Json::Object(entries) => {
                let mut copies: Vec<(String, Json)> = Vec::new();
                let mut i: usize = 0;
                while i < entries.len()
                    invariant
                        i <= entries@.len(),
                        *self == Json::Object(*entries),
                        copies@.len() == i,
                        forall|j: int|
                            0 <= j < i ==> (#[trigger] copies@[j]).0@ == entries@[j].0@
                                && copies@[j].1@ == entries@[j].1@,
                    decreases entries@.len() - i,
                {
                    let key: String = entries[i].0.clone();
                    proof {
                        assert(decreases_to!(self => self->Object_0));
                        assert(decreases_to!(self->Object_0 => entries@));
                        assert(decreases_to!(entries@ => entries@[i as int]));
                        assert(decreases_to!(entries@[i as int] => entries@[i as int].1));
                    }
                    let value: Json = entries[i].1.clone();
                    copies.push((key, value));
                    i += 1;
                }
                proof {
                    entry_models_are_pointwise(copies@);
                    entry_models_are_pointwise(entries@);
                    assert(entry_models(copies@) =~= entry_models(entries@));
                }
                Json::Object(copies)
            },
        }
    }
}

/// What stands for a character tells the character, whatever follows.
proof fn escapes_are_prefix_free(c: char, d: char, x: Seq<char>, y: Seq<char>)
    requires
        escape(c) + x == escape(d) + y,
    ensures
        c == d,
{
    let s = escape(c) + x;
    let t = escape(d) + y;
    assert(s[0] == escape(c)[0] && t[0] == escape(d)[0]);
    if s[0] == '\\' {
        assert(s[1] == escape(c)[1] && t[1] == escape(d)[1]);
        if s[1] == 'u' {
            assert(s[4] == escape(c)[4] && t[4] == escape(d)[4]);
            assert(s[5] == escape(c)[5] && t[5] == escape(d)[5]);
            assert(c as int / 16 == d as int / 16);
            assert(c as int % 16 == d as int % 16);
        }
    }
}

/// The end of a string is found where its text ends.
proof fn escaped_texts_are_delimited(a: Seq<char>, b: Seq<char>, x: Seq<char>, y: Seq<char>)
    requires
        escaped(a) + seq!['"'] + x == escaped(b) + seq!['"'] + y,
    ensures
        a == b,
        x == y,
    decreases a.len() + b.len(),
{
    let s = escaped(a) + seq!['"'] + x;
    let t = escaped(b) + seq!['"'] + y;
    if a.len() == 0 && b.len() == 0 {
        assert(a =~= b);
        assert(s.skip(1) =~= x);
        assert(t.skip(1) =~= y);
    } else if a.len() == 0 {
        assert(s[0] == '"');
        assert(t[0] == escape(b[0])[0]);
    } else if b.len() == 0 {
        assert(t[0] == '"');
        assert(s[0] == escape(a[0])[0]);
    } else {
        let s2 = escaped(a.drop_first()) + seq!['"'] + x;
        let t2 = escaped(b.drop_first()) + seq!['"'] + y;
        assert(s =~= escape(a[0]) + s2);
        assert(t =~= escape(b[0]) + t2);
        escapes_are_prefix_free(a[0], b[0], s2, t2);
        let n = escape(a[0]).len() as int;
        assert(s.skip(n) =~= s2);
        assert(t.skip(n) =~= t2);
        escaped_texts_are_delimited(a.drop_first(), b.drop_first(), x, y);
        assert(a =~= seq![a[0]] + a.drop_first());
        assert(b =~= seq![b[0]] + b.drop_first());
    }
}

/// A JSON string tells its text and where it ends, whatever follows: two texts that start with
/// the strings of `a` and of `b` are the same only if `a` and `b` are.
pub proof fn strings_are_self_delimiting(a: Seq<char>, b: Seq<char>, x: Seq<char>, y: Seq<char>)
    requires
        quoted(a) + x == quoted(b) + y,
    ensures
        a == b,
        x == y,
{
    let s = quoted(a) + x;
    let t = quoted(b) + y;
    assert(s.skip(1) =~= escaped(a) + seq!['"'] + x);
    assert(t.skip(1) =~= escaped(b) + seq!['"'] + y);
    escaped_texts_are_delimited(a, b, x, y);
}

/// Whether no key occurs twice among the entries of an object.
pub open spec fn has_distinct_keys(entries: Seq<(Seq<char>, JsonModel)>) -> bool {
    forall|i: int, j: int|
        0 <= i < j < entries.len() ==> (#[trigger] entries[i]).0 != (#[trigger] entries[j]).0
}

/// Where no key occurs twice, every entry is found under its key, wherever it stands.
pub proof fn distinct_entries_are_found(entries: Seq<(Seq<char>, JsonModel)>, i: int)
    requires
        has_distinct_keys(entries),
        0 <= i < entries.len(),
    ensures
        JsonModel::Object(entries).find(entries[i].0) == Some(entries[i].1),
    decreases entries.len(),
{
    if i > 0 {
        let rest = entries.drop_first();
        assert(entries[0].0 != entries[i].0);
        assert(rest[i - 1] == entries[i]);
        assert forall|j: int, k: int| 0 <= j < k < rest.len() implies (#[trigger] rest[j]).0 != (
        #[trigger] rest[k]).0 by {
            assert(rest[j] == entries[j + 1] && rest[k] == entries[k + 1]);
        }
        distinct_entries_are_found(rest, i - 1);
    }
}

} // verus!
