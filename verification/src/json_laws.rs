//! What a JSON value holds: its entries, its text, and the names of its fields at any depth.

use vstd::prelude::*;
use vstd::utf8::encode_utf8;

use crate::json::entry_texts;
use crate::json::find_entry;
use crate::json::item_texts;
use crate::json::quoted;
use crate::json::Json;
use crate::json::JsonModel;
use crate::nats_node::field_names;
use crate::nats_node::first_reasoning;
use crate::nats_node::lowered;
use crate::nats_node::names_in_entries;
use crate::nats_node::names_in_items;
use crate::nats_node::names_reasoning;
use crate::nats_node::reasoning_ruling;
use crate::nats_node::strict_ruling;
use crate::text::comma_joined;

verus! {

/// A value under a key is that of the first entry with this key, wherever it stands; there is none
/// exactly if the value is no object or no entry has the key.
pub proof fn first_entry_with_the_key_counts(value: JsonModel, key: Seq<char>)
    ensures
        match (value, value.find(key)) {
            (JsonModel::Object(entries), None) => forall|i: int|
                0 <= i < entries.len() ==> (#[trigger] entries[i]).0 != key,
            (JsonModel::Object(entries), Some(found)) => exists|i: int|
                {
                    &&& 0 <= i < entries.len()
                    &&& (#[trigger] entries[i]) == (key, found)
                    &&& forall|j: int| 0 <= j < i ==> (#[trigger] entries[j]).0 != key
                },
            (_, found) => found is None,
        },
{
    if let JsonModel::Object(entries) = value {
        first_entry_is_found(entries, key);
    }
}

/// The first entry with a key is the one that is found.
proof fn first_entry_is_found(entries: Seq<(Seq<char>, JsonModel)>, key: Seq<char>)
    ensures
        match find_entry(entries, key) {
            None => forall|i: int| 0 <= i < entries.len() ==> (#[trigger] entries[i]).0 != key,
            Some(found) => exists|i: int|
                {
                    &&& 0 <= i < entries.len()
                    &&& (#[trigger] entries[i]) == (key, found)
                    &&& forall|j: int| 0 <= j < i ==> (#[trigger] entries[j]).0 != key
                },
        },
    decreases entries.len(),
{
    if entries.len() > 0 {
        if entries[0].0 == key {
            assert(entries[0] == (key, entries[0].1));
        } else {
            let rest = entries.drop_first();
            first_entry_is_found(rest, key);
            assert(forall|j: int| 0 < j < entries.len() ==> #[trigger] entries[j] == rest[j - 1]);
            if find_entry(rest, key) is Some {
                let found = find_entry(rest, key).unwrap();
                let i = choose|i: int|
                    {
                        &&& 0 <= i < rest.len()
                        &&& (#[trigger] rest[i]) == (key, found)
                        &&& forall|j: int| 0 <= j < i ==> (#[trigger] rest[j]).0 != key
                    };
                assert(entries[i + 1] == (key, found));
                assert forall|j: int| 0 <= j < i + 1 implies (#[trigger] entries[j]).0 != key by {
                    if j > 0 {
                        assert(entries[j] == rest[j - 1]);
                    }
                }
            }
        }
    }
}

/// The text of a value: a literal, a number as it is written, a string in quotation marks, the
/// texts of the items in square brackets, or the texts of the entries in braces, with a comma
/// between each two.
pub proof fn values_are_written_item_by_item(
    items: Seq<JsonModel>,
    entries: Seq<(Seq<char>, JsonModel)>,
    texts: Seq<Seq<char>>,
    t: Seq<char>,
)
    ensures
        JsonModel::Null.text() == "null"@,
        JsonModel::Bool(true).text() == "true"@,
        JsonModel::Bool(false).text() == "false"@,
        JsonModel::Number(t).text() == t,
        JsonModel::Text(t).text() == quoted(t),
        texts.len() == items.len() && (forall|i: int|
            0 <= i < items.len() ==> #[trigger] texts[i] == items[i].text()) ==> JsonModel::Array(
            items,
        ).text() == "["@ + comma_joined(texts) + "]"@,
        texts.len() == entries.len() && (forall|i: int|
            0 <= i < entries.len() ==> #[trigger] texts[i] == quoted(entries[i].0) + ":"@
                + entries[i].1.text()) ==> JsonModel::Object(entries).text() == "{"@ + comma_joined(
            texts,
        ) + "}"@,
{
    item_texts_stand_in_order(items);
    entry_texts_stand_in_order(entries);
    if texts.len() == items.len() && (forall|i: int|
        0 <= i < items.len() ==> #[trigger] texts[i] == items[i].text()) {
        assert(texts =~= item_texts(items));
    }
    if texts.len() == entries.len() && (forall|i: int|
        0 <= i < entries.len() ==> #[trigger] texts[i] == quoted(entries[i].0) + ":"@
            + entries[i].1.text()) {
        assert(texts =~= entry_texts(entries));
    }
}

/// The texts of the items stand in the order of the items.
proof fn item_texts_stand_in_order(items: Seq<JsonModel>)
    ensures
        item_texts(items).len() == items.len(),
        forall|i: int| 0 <= i < items.len() ==> #[trigger] item_texts(items)[i] == items[i].text(),
    decreases items.len(),
{
    if items.len() > 0 {
        item_texts_stand_in_order(items.drop_first());
    }
}

/// The texts of the entries stand in the order of the entries.
proof fn entry_texts_stand_in_order(entries: Seq<(Seq<char>, JsonModel)>)
    ensures
        entry_texts(entries).len() == entries.len(),
        forall|i: int|
            0 <= i < entries.len() ==> #[trigger] entry_texts(entries)[i] == quoted(entries[i].0)
                + ":"@ + entries[i].1.text(),
    decreases entries.len(),
{
    if entries.len() > 0 {
        entry_texts_stand_in_order(entries.drop_first());
    }
}

/// The value of a text, a number or a literal is that text, number or literal.
pub proof fn scalars_stand_for_themselves(b: bool, t: String)
    ensures
        Json::Null@ == JsonModel::Null,
        Json::Bool(b)@ == JsonModel::Bool(b),
        Json::Number(t)@ == JsonModel::Number(t@),
        Json::Text(t)@ == JsonModel::Text(t@),
{
}

/// The fields of an object are those of its first entries and then those of the others, and the
/// fields of an array those of its first items and then those of the others.
pub proof fn fields_are_named_part_by_part(
    a: Seq<(Seq<char>, JsonModel)>,
    b: Seq<(Seq<char>, JsonModel)>,
    x: Seq<JsonModel>,
    y: Seq<JsonModel>,
)
    ensures
        field_names(JsonModel::Object(a + b)) == field_names(JsonModel::Object(a)) + field_names(
            JsonModel::Object(b),
        ),
        field_names(JsonModel::Array(x + y)) == field_names(JsonModel::Array(x)) + field_names(
            JsonModel::Array(y),
        ),
{
    entries_are_named_part_by_part(a, b);
    items_are_named_part_by_part(x, y);
}

/// The fields of the entries of an object.
proof fn entries_are_named_part_by_part(
    a: Seq<(Seq<char>, JsonModel)>,
    b: Seq<(Seq<char>, JsonModel)>,
)
    ensures
        names_in_entries(a + b) == names_in_entries(a) + names_in_entries(b),
    decreases a.len(),
{
    if a.len() == 0 {
        assert(a + b =~= b);
        assert(names_in_entries(a) + names_in_entries(b) =~= names_in_entries(b));
    } else {
        assert((a + b).drop_first() =~= a.drop_first() + b);
        entries_are_named_part_by_part(a.drop_first(), b);
        assert(names_in_entries(a + b) =~= names_in_entries(a) + names_in_entries(b));
    }
}

/// The fields of the items of an array.
proof fn items_are_named_part_by_part(x: Seq<JsonModel>, y: Seq<JsonModel>)
    ensures
        names_in_items(x + y) == names_in_items(x) + names_in_items(y),
    decreases x.len(),
{
    if x.len() == 0 {
        assert(x + y =~= y);
        assert(names_in_items(x) + names_in_items(y) =~= names_in_items(y));
    } else {
        assert((x + y).drop_first() =~= x.drop_first() + y);
        items_are_named_part_by_part(x.drop_first(), y);
        assert(names_in_items(x + y) =~= names_in_items(x) + names_in_items(y));
    }
}

/// An entry alone names its key and then the fields of its value; an item alone names its own
/// fields; what is neither object nor array has none.
pub proof fn single_fields_are_named(key: Seq<char>, value: JsonModel)
    ensures
        field_names(JsonModel::Object(seq![(key, value)])) == seq![key] + field_names(value),
        field_names(JsonModel::Array(seq![value])) == field_names(value),
        field_names(JsonModel::Object(Seq::empty())) == Seq::<Seq<char>>::empty(),
        field_names(JsonModel::Array(Seq::empty())) == Seq::<Seq<char>>::empty(),
        !(value is Object) && !(value is Array) ==> field_names(value) == Seq::<
            Seq<char>,
        >::empty(),
{
    let one = seq![(key, value)];
    assert(one.drop_first() =~= Seq::<(Seq<char>, JsonModel)>::empty());
    assert(names_in_entries(one.drop_first()) =~= Seq::<Seq<char>>::empty());
    assert(names_in_entries(one) =~= seq![key] + field_names(value));
    let item = seq![value];
    assert(item.drop_first() =~= Seq::<JsonModel>::empty());
    assert(names_in_items(item.drop_first()) =~= Seq::<Seq<char>>::empty());
    assert(names_in_items(item) =~= field_names(value));
}

/// The names of an object are the keys of all its entries and all names in their values, wherever
/// an entry stands; those of an array are all names in its items. Nothing else is among them.
pub proof fn every_field_is_named(
    entries: Seq<(Seq<char>, JsonModel)>,
    items: Seq<JsonModel>,
    name: Seq<char>,
)
    ensures
        field_names(JsonModel::Object(entries)).contains(name) <==> exists|i: int|
            0 <= i < entries.len() && ((#[trigger] entries[i]).0 == name || field_names(
                entries[i].1,
            ).contains(name)),
        field_names(JsonModel::Array(items)).contains(name) <==> exists|i: int|
            0 <= i < items.len() && field_names(#[trigger] items[i]).contains(name),
{
    every_entry_is_named(entries, name);
    every_item_is_named(items, name);
}

/// Whether a name is in one of two lists.
proof fn named_in_either(a: Seq<Seq<char>>, b: Seq<Seq<char>>, name: Seq<char>)
    ensures
        (a + b).contains(name) <==> a.contains(name) || b.contains(name),
{
    if a.contains(name) {
        let i = choose|i: int| 0 <= i < a.len() && a[i] == name;
        assert((a + b)[i] == name);
    }
    if b.contains(name) {
        let i = choose|i: int| 0 <= i < b.len() && b[i] == name;
        assert((a + b)[a.len() + i] == name);
    }
}

/// The names of an object.
proof fn every_entry_is_named(entries: Seq<(Seq<char>, JsonModel)>, name: Seq<char>)
    ensures
        names_in_entries(entries).contains(name) <==> exists|i: int|
            0 <= i < entries.len() && ((#[trigger] entries[i]).0 == name || field_names(
                entries[i].1,
            ).contains(name)),
    decreases entries.len(),
{
    if entries.len() > 0 {
        let rest = entries.drop_first();
        every_entry_is_named(rest, name);
        let held = field_names(entries[0].1);
        named_in_either(held, names_in_entries(rest), name);
        named_in_either(seq![entries[0].0], held + names_in_entries(rest), name);
        assert(seq![entries[0].0].contains(name) <==> entries[0].0 == name) by {
            assert(seq![entries[0].0][0] == entries[0].0);
        }
        assert(forall|i: int| 0 < i < entries.len() ==> #[trigger] entries[i] == rest[i - 1]);
        if exists|i: int|
            0 <= i < rest.len() && ((#[trigger] rest[i]).0 == name || field_names(
                rest[i].1,
            ).contains(name)) {
            let i = choose|i: int|
                0 <= i < rest.len() && ((#[trigger] rest[i]).0 == name || field_names(
                    rest[i].1,
                ).contains(name));
            assert(entries[i + 1] == rest[i]);
        }
    }
}

/// The names of an array.
proof fn every_item_is_named(items: Seq<JsonModel>, name: Seq<char>)
    ensures
        names_in_items(items).contains(name) <==> exists|i: int|
            0 <= i < items.len() && field_names(#[trigger] items[i]).contains(name),
    decreases items.len(),
{
    if items.len() > 0 {
        let rest = items.drop_first();
        every_item_is_named(rest, name);
        named_in_either(field_names(items[0]), names_in_items(rest), name);
        assert(forall|i: int| 0 < i < items.len() ==> #[trigger] items[i] == rest[i - 1]);
        if exists|i: int| 0 <= i < rest.len() && field_names(#[trigger] rest[i]).contains(name) {
            let i = choose|i: int|
                0 <= i < rest.len() && field_names(#[trigger] rest[i]).contains(name);
            assert(items[i + 1] == rest[i]);
        }
    }
}

/// Whether `key` is `word`, with any of its letters as capitals.
pub open spec fn is_word_in_any_case(key: Seq<char>, word: Seq<char>) -> bool {
    &&& key.len() == word.len()
    &&& forall|i: int|
        0 <= i < word.len() ==> #[trigger] key[i] == word[i] || ('a' <= word[i] <= 'z' && key[i]
            as int == word[i] as int - 32)
}

/// A word without capitals is what is left of a key once its capitals are made small exactly if
/// the key is the word in any case.
proof fn small_letters_tell_the_word(key: Seq<char>, word: Seq<char>)
    requires
        forall|i: int| 0 <= i < word.len() ==> !('A' <= #[trigger] word[i] <= 'Z'),
    ensures
        lowered(key) == word <==> is_word_in_any_case(key, word),
{
    if is_word_in_any_case(key, word) {
        assert forall|i: int| 0 <= i < word.len() implies lowered(key)[i] == word[i] by {
            assert(key[i] == word[i] || ('a' <= word[i] <= 'z' && key[i] as int == word[i] as int
                - 32));
        }
        assert(lowered(key) =~= word);
    }
    if lowered(key) == word {
        assert forall|i: int| 0 <= i < word.len() implies #[trigger] key[i] == word[i] || ('a'
            <= word[i] <= 'z' && key[i] as int == word[i] as int - 32) by {
            assert(lowered(key)[i] == word[i]);
        }
    }
}

/// A key names reasoning exactly if it is one of five words, in any case.
pub proof fn five_words_name_reasoning(key: Seq<char>)
    ensures
        names_reasoning(key) <==> {
            ||| is_word_in_any_case(key, "thinking"@)
            ||| is_word_in_any_case(key, "reasoning"@)
            ||| is_word_in_any_case(key, "chain_of_thought"@)
            ||| is_word_in_any_case(key, "cot"@)
            ||| is_word_in_any_case(key, "interleaved_thinking"@)
        },
{
    reveal_strlit("thinking");
    reveal_strlit("reasoning");
    reveal_strlit("chain_of_thought");
    reveal_strlit("cot");
    reveal_strlit("interleaved_thinking");
    small_letters_tell_the_word(key, "thinking"@);
    small_letters_tell_the_word(key, "reasoning"@);
    small_letters_tell_the_word(key, "chain_of_thought"@);
    small_letters_tell_the_word(key, "cot"@);
    small_letters_tell_the_word(key, "interleaved_thinking"@);
}

/// A name that names reasoning is found, and the first such name is the one.
pub proof fn first_such_name_is_found(names: Seq<Seq<char>>)
    ensures
        match first_reasoning(names) {
            None => forall|i: int| 0 <= i < names.len() ==> !names_reasoning(#[trigger] names[i]),
            Some(name) => exists|i: int|
                {
                    &&& 0 <= i < names.len()
                    &&& #[trigger] names[i] == name
                    &&& names_reasoning(name)
                    &&& forall|j: int| 0 <= j < i ==> !names_reasoning(#[trigger] names[j])
                },
        },
    decreases names.len(),
{
    if names.len() > 0 {
        if names_reasoning(names[0]) {
            assert(names[0] == names[0]);
        } else {
            let rest = names.drop_first();
            first_such_name_is_found(rest);
            assert(forall|j: int| 0 < j < names.len() ==> #[trigger] names[j] == rest[j - 1]);
            if first_reasoning(rest) is Some {
                let name = first_reasoning(rest).unwrap();
                let i = choose|i: int|
                    {
                        &&& 0 <= i < rest.len()
                        &&& #[trigger] rest[i] == name
                        &&& names_reasoning(name)
                        &&& forall|j: int| 0 <= j < i ==> !names_reasoning(#[trigger] rest[j])
                    };
                assert(names[i + 1] == name);
                assert forall|j: int| 0 <= j < i + 1 implies !names_reasoning(
                    #[trigger] names[j],
                ) by {
                    if j > 0 {
                        assert(names[j] == rest[j - 1]);
                    }
                }
            }
        }
    }
}

/// A value is refused exactly if one of its fields names reasoning, and the first such field, in
/// the order in which the fields are named, is reported.
pub proof fn first_reasoning_field_is_reported(value: JsonModel)
    ensures
        match reasoning_ruling(value) {
            Ok(_) => forall|i: int|
                0 <= i < field_names(value).len() ==> !names_reasoning(
                    #[trigger] field_names(value)[i],
                ),
            Err(reason) => exists|i: int|
                {
                    &&& 0 <= i < field_names(value).len()
                    &&& names_reasoning(#[trigger] field_names(value)[i])
                    &&& reason == "non-executable reasoning field `"@ + field_names(value)[i]
                        + "` present"@
                    &&& forall|j: int|
                        0 <= j < i ==> !names_reasoning(#[trigger] field_names(value)[j])
                },
        },
{
    first_such_name_is_found(field_names(value));
}

/// An object passes exactly if no key of any of its entries names reasoning and every value in it
/// passes; an array passes exactly if every item does; everything else passes.
pub proof fn reasoning_is_found_at_any_depth(
    entries: Seq<(Seq<char>, JsonModel)>,
    items: Seq<JsonModel>,
    value: JsonModel,
)
    ensures
        reasoning_ruling(JsonModel::Object(entries)) is Ok <==> forall|i: int|
            0 <= i < entries.len() ==> !names_reasoning((#[trigger] entries[i]).0)
                && reasoning_ruling(entries[i].1) is Ok,
        reasoning_ruling(JsonModel::Array(items)) is Ok <==> forall|i: int|
            0 <= i < items.len() ==> reasoning_ruling(#[trigger] items[i]) is Ok,
        !(value is Object) && !(value is Array) ==> reasoning_ruling(value) is Ok,
{
    assert forall|v: JsonModel| #[trigger] reasoning_ruling(v) is Ok <==> forall|name: Seq<char>|
        field_names(v).contains(name) ==> !#[trigger] names_reasoning(name) by {
        passing_is_naming_no_reasoning(v);
    }
    assert forall|name: Seq<char>| #[trigger]
        field_names(JsonModel::Object(entries)).contains(name) <==> exists|i: int|
            0 <= i < entries.len() && ((#[trigger] entries[i]).0 == name || field_names(
                entries[i].1,
            ).contains(name)) by {
        every_field_is_named(entries, items, name);
    }
    assert forall|name: Seq<char>| #[trigger]
        field_names(JsonModel::Array(items)).contains(name) <==> exists|i: int|
            0 <= i < items.len() && field_names(#[trigger] items[i]).contains(name) by {
        every_field_is_named(entries, items, name);
    }
    let object = JsonModel::Object(entries);
    let array = JsonModel::Array(items);
    if reasoning_ruling(object) is Ok {
        assert forall|i: int| 0 <= i < entries.len() implies !names_reasoning(
            (#[trigger] entries[i]).0,
        ) && reasoning_ruling(entries[i].1) is Ok by {
            assert(field_names(object).contains(entries[i].0));
            assert forall|name: Seq<char>| field_names(entries[i].1).contains(
                name,
            ) implies !#[trigger] names_reasoning(name) by {
                assert(field_names(object).contains(name));
            }
            passing_is_naming_no_reasoning(entries[i].1);
        }
    }
    if forall|i: int|
        0 <= i < entries.len() ==> !names_reasoning((#[trigger] entries[i]).0) && reasoning_ruling(
            entries[i].1,
        ) is Ok {
        assert forall|name: Seq<char>| field_names(object).contains(name) implies
            !#[trigger] names_reasoning(name) by {
            let i = choose|i: int|
                0 <= i < entries.len() && ((#[trigger] entries[i]).0 == name || field_names(
                    entries[i].1,
                ).contains(name));
            passing_is_naming_no_reasoning(entries[i].1);
        }
        passing_is_naming_no_reasoning(object);
    }
    if reasoning_ruling(array) is Ok {
        assert forall|i: int| 0 <= i < items.len() implies reasoning_ruling(
            #[trigger] items[i],
        ) is Ok by {
            assert forall|name: Seq<char>| field_names(items[i]).contains(
                name,
            ) implies !#[trigger] names_reasoning(name) by {
                assert(field_names(array).contains(name));
            }
            passing_is_naming_no_reasoning(items[i]);
        }
    }
    if forall|i: int| 0 <= i < items.len() ==> reasoning_ruling(#[trigger] items[i]) is Ok {
        assert forall|name: Seq<char>| field_names(array).contains(name) implies
            !#[trigger] names_reasoning(name) by {
            let i = choose|i: int|
                0 <= i < items.len() && field_names(#[trigger] items[i]).contains(name);
            passing_is_naming_no_reasoning(items[i]);
        }
        passing_is_naming_no_reasoning(array);
    }
}

/// A value passes exactly if none of the names in it names reasoning.
proof fn passing_is_naming_no_reasoning(value: JsonModel)
    ensures
        reasoning_ruling(value) is Ok <==> forall|name: Seq<char>|
            field_names(value).contains(name) ==> !#[trigger] names_reasoning(name),
{
    let names = field_names(value);
    first_such_name_is_found(names);
    if reasoning_ruling(value) is Ok {
        assert forall|name: Seq<char>| names.contains(name) implies !#[trigger] names_reasoning(
            name,
        ) by {
            let i = choose|i: int| 0 <= i < names.len() && names[i] == name;
            assert(!names_reasoning(names[i]));
        }
    } else {
        let name = first_reasoning(names).unwrap();
        assert(names.contains(name));
    }
}

/// The strict check first bounds the length of the arguments as UTF-8, and then looks for fields
/// that carry reasoning.
pub proof fn strict_check_bounds_then_searches(max: usize, arguments: JsonModel)
    ensures
        encode_utf8(arguments.text()).len() > max ==> strict_ruling(max, arguments) == Err::<(), _>(
            "argument entropy bound exceeded"@,
        ),
        encode_utf8(arguments.text()).len() <= max ==> strict_ruling(max, arguments)
            == reasoning_ruling(arguments),
{
}

} // verus!
