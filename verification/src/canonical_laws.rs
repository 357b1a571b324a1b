//! The text that the hash of a record is taken of is the compact JSON text of its fields.

use vstd::prelude::*;

use crate::dual_mirror::canonical_text;
use crate::dual_mirror::list_text;
use crate::dual_mirror::matrix_text;
use crate::dual_mirror::HashedFields;
use crate::json::escape;
use crate::json::escaped;
use crate::json::quoted;
use crate::json::JsonModel;
use crate::json_laws::values_are_written_item_by_item;
use crate::text::comma_joined;
use crate::text::comma_joined_push;
use crate::text::decimal;

verus! {

/// Whether a text holds neither quotation marks nor backslashes nor control characters.
spec fn needs_no_escape(text: Seq<char>) -> bool {
    forall|i: int|
        0 <= i < text.len() ==> #[trigger] text[i] as int >= 32 && text[i] != '"' && text[i] != '\\'
}

/// Such a text stands for itself.
proof fn plain_text_stands_for_itself(text: Seq<char>)
    requires
        needs_no_escape(text),
    ensures
        escaped(text) == text,
    decreases text.len(),
{
    if text.len() > 0 {
        let rest = text.drop_first();
        assert forall|i: int| 0 <= i < rest.len() implies #[trigger] rest[i] as int >= 32 && rest[i]
            != '"' && rest[i] != '\\' by {
            assert(rest[i] == text[i + 1]);
        }
        plain_text_stands_for_itself(rest);
        assert(text[0] as int >= 32 && text[0] != '"' && text[0] != '\\');
        assert(escape(text[0]) == seq![text[0]]);
        assert(escaped(text) =~= text);
    }
}

/// Numbers, given by their text, as a JSON array.
pub open spec fn number_list(texts: Seq<Seq<char>>) -> JsonModel {
    JsonModel::Array(texts.map_values(|t: Seq<char>| JsonModel::Number(t)))
}

/// Rows of numbers as a JSON array of arrays.
pub open spec fn number_rows(rows: Seq<Seq<Seq<char>>>) -> JsonModel {
    JsonModel::Array(rows.map_values(|row: Seq<Seq<char>>| number_list(row)))
}

/// The text of a list of numbers.
proof fn lists_are_written_as_arrays(texts: Seq<Seq<char>>)
    ensures
        number_list(texts).text() == list_text(texts),
{
    let items = texts.map_values(|t: Seq<char>| JsonModel::Number(t));
    values_are_written_item_by_item(items, Seq::empty(), texts, Seq::empty());
    assert forall|i: int| 0 <= i < items.len() implies #[trigger] texts[i] == items[i].text() by {
        assert(items[i] == JsonModel::Number(texts[i]));
    }
}

/// The text of rows of numbers.
proof fn rows_are_written_as_arrays(rows: Seq<Seq<Seq<char>>>)
    ensures
        number_rows(rows).text() == matrix_text(rows),
{
    let items = rows.map_values(|row: Seq<Seq<char>>| number_list(row));
    let texts = rows.map_values(|row: Seq<Seq<char>>| list_text(row));
    assert forall|i: int| 0 <= i < items.len() implies #[trigger] texts[i] == items[i].text() by {
        lists_are_written_as_arrays(rows[i]);
        assert(items[i] == number_list(rows[i]));
    }
    values_are_written_item_by_item(items, Seq::empty(), texts, Seq::empty());
}

/// The fields of a record as a JSON object.
pub open spec fn fields_object(fields: HashedFields) -> JsonModel {
    JsonModel::Object(
        seq![
            ("seq_id"@, JsonModel::Text(fields.seq_id)),
            ("depth"@, JsonModel::Number(decimal(fields.depth as nat))),
            ("state"@, number_list(fields.state)),
            ("operator"@, number_rows(fields.operator)),
            ("entropy"@, JsonModel::Number(fields.entropy)),
            ("prev_hash"@, JsonModel::Text(fields.prev_hash)),
        ],
    )
}

/// The names of the fields stand for themselves.
proof fn field_names_stand_for_themselves()
    ensures
        quoted("seq_id"@) == seq!['"'] + "seq_id"@ + seq!['"'],
        quoted("depth"@) == seq!['"'] + "depth"@ + seq!['"'],
        quoted("state"@) == seq!['"'] + "state"@ + seq!['"'],
        quoted("operator"@) == seq!['"'] + "operator"@ + seq!['"'],
        quoted("entropy"@) == seq!['"'] + "entropy"@ + seq!['"'],
        quoted("prev_hash"@) == seq!['"'] + "prev_hash"@ + seq!['"'],
{
    reveal_strlit("seq_id");
    reveal_strlit("depth");
    reveal_strlit("state");
    reveal_strlit("operator");
    reveal_strlit("entropy");
    reveal_strlit("prev_hash");
    plain_text_stands_for_itself("seq_id"@);
    plain_text_stands_for_itself("depth"@);
    plain_text_stands_for_itself("state"@);
    plain_text_stands_for_itself("operator"@);
    plain_text_stands_for_itself("entropy"@);
    plain_text_stands_for_itself("prev_hash"@);
}

/// The literal pieces of the canonical text are the quoted names with their punctuation.
proof fn pieces_are_quoted_names()
    ensures
        "{\"seq_id\":"@ == "{"@ + quoted("seq_id"@) + ":"@,
        ",\"depth\":"@ == ","@ + quoted("depth"@) + ":"@,
        ",\"state\":"@ == ","@ + quoted("state"@) + ":"@,
        ",\"operator\":"@ == ","@ + quoted("operator"@) + ":"@,
        ",\"entropy\":"@ == ","@ + quoted("entropy"@) + ":"@,
        ",\"prev_hash\":"@ == ","@ + quoted("prev_hash"@) + ":"@,
{
    field_names_stand_for_themselves();
    reveal_strlit("{");
    reveal_strlit(",");
    reveal_strlit(":");
    reveal_strlit("seq_id");
    reveal_strlit("depth");
    reveal_strlit("state");
    reveal_strlit("operator");
    reveal_strlit("entropy");
    reveal_strlit("prev_hash");
    reveal_strlit("{\"seq_id\":");
    reveal_strlit(",\"depth\":");
    reveal_strlit(",\"state\":");
    reveal_strlit(",\"operator\":");
    reveal_strlit(",\"entropy\":");
    reveal_strlit(",\"prev_hash\":");
    assert("{\"seq_id\":"@ =~= "{"@ + quoted("seq_id"@) + ":"@);
    assert(",\"depth\":"@ =~= ","@ + quoted("depth"@) + ":"@);
    assert(",\"state\":"@ =~= ","@ + quoted("state"@) + ":"@);
    assert(",\"operator\":"@ =~= ","@ + quoted("operator"@) + ":"@);
    assert(",\"entropy\":"@ =~= ","@ + quoted("entropy"@) + ":"@);
    assert(",\"prev_hash\":"@ =~= ","@ + quoted("prev_hash"@) + ":"@);
}

/// One more field behind those that were written.
proof fn field_is_written_behind(
    x: Seq<char>,
    joined: Seq<char>,
    name: Seq<char>,
    value: Seq<char>,
)
    requires
        x == "{"@ + joined,
    ensures
        x + (","@ + name + ":"@) + value == "{"@ + (joined + ","@ + (name + ":"@ + value)),
{
    assert(x + (","@ + name + ":"@) + value =~= "{"@ + (joined + ","@ + (name + ":"@ + value)));
}

/// The first field.
proof fn field_is_written_first(name: Seq<char>, value: Seq<char>)
    ensures
        ("{"@ + name + ":"@) + value == "{"@ + (name + ":"@ + value),
{
    assert(("{"@ + name + ":"@) + value =~= "{"@ + (name + ":"@ + value));
}

/// Six texts joined by commas.
proof fn six_joined(t: Seq<Seq<char>>)
    requires
        t.len() == 6,
    ensures
        comma_joined(t) == t[0] + ","@ + t[1] + ","@ + t[2] + ","@ + t[3] + ","@ + t[4] + ","@
            + t[5],
{
    assert(comma_joined(t.take(1)) == t[0]);
    assert(t.take(2) =~= t.take(1).push(t[1]));
    assert(t.take(3) =~= t.take(2).push(t[2]));
    assert(t.take(4) =~= t.take(3).push(t[3]));
    assert(t.take(5) =~= t.take(4).push(t[4]));
    assert(t =~= t.take(5).push(t[5]));
    comma_joined_push(t.take(1), t[1]);
    comma_joined_push(t.take(2), t[2]);
    comma_joined_push(t.take(3), t[3]);
    comma_joined_push(t.take(4), t[4]);
    comma_joined_push(t.take(5), t[5]);
}

/// The canonical text, field by field.
proof fn canonical_text_is_joined(fields: HashedFields)
    ensures
        canonical_text(fields) == "{"@ + (field_text("seq_id"@, quoted(fields.seq_id)) + ","@
            + field_text("depth"@, decimal(fields.depth as nat)) + ","@ + field_text(
            "state"@,
            list_text(fields.state),
        ) + ","@ + field_text("operator"@, matrix_text(fields.operator)) + ","@ + field_text(
            "entropy"@,
            fields.entropy,
        ) + ","@ + field_text("prev_hash"@, quoted(fields.prev_hash))) + "}"@,
{
    pieces_are_quoted_names();
    let (n0, v0) = (quoted("seq_id"@), quoted(fields.seq_id));
    let (n1, v1) = (quoted("depth"@), decimal(fields.depth as nat));
    let (n2, v2) = (quoted("state"@), list_text(fields.state));
    let (n3, v3) = (quoted("operator"@), matrix_text(fields.operator));
    let (n4, v4) = (quoted("entropy"@), fields.entropy);
    let (n5, v5) = (quoted("prev_hash"@), quoted(fields.prev_hash));
    let j0 = n0 + ":"@ + v0;
    let j1 = j0 + ","@ + (n1 + ":"@ + v1);
    let j2 = j1 + ","@ + (n2 + ":"@ + v2);
    let j3 = j2 + ","@ + (n3 + ":"@ + v3);
    let j4 = j3 + ","@ + (n4 + ":"@ + v4);
    field_is_written_first(n0, v0);
    let x0 = ("{"@ + n0 + ":"@) + v0;
    field_is_written_behind(x0, j0, n1, v1);
    let x1 = x0 + (","@ + n1 + ":"@) + v1;
    field_is_written_behind(x1, j1, n2, v2);
    let x2 = x1 + (","@ + n2 + ":"@) + v2;
    field_is_written_behind(x2, j2, n3, v3);
    let x3 = x2 + (","@ + n3 + ":"@) + v3;
    field_is_written_behind(x3, j3, n4, v4);
    let x4 = x3 + (","@ + n4 + ":"@) + v4;
    field_is_written_behind(x4, j4, n5, v5);
}

/// A field of an object.
spec fn field_text(name: Seq<char>, value: Seq<char>) -> Seq<char> {
    quoted(name) + ":"@ + value
}

/// The text that the hash of a record is taken of is the compact text of a JSON object with the
/// request, the depth, the state, the operator, the entropy and the predecessor, in this order.
pub proof fn hashed_text_is_the_json_of_the_fields(fields: HashedFields)
    ensures
        canonical_text(fields) == fields_object(fields).text(),
{
    let entries = fields_object(fields)->Object_0;
    let texts = seq![
        field_text("seq_id"@, quoted(fields.seq_id)),
        field_text("depth"@, decimal(fields.depth as nat)),
        field_text("state"@, list_text(fields.state)),
        field_text("operator"@, matrix_text(fields.operator)),
        field_text("entropy"@, fields.entropy),
        field_text("prev_hash"@, quoted(fields.prev_hash)),
    ];
    lists_are_written_as_arrays(fields.state);
    rows_are_written_as_arrays(fields.operator);
    assert forall|i: int| 0 <= i < entries.len() implies #[trigger] texts[i] == quoted(entries[i].0)
        + ":"@ + entries[i].1.text() by {}
    values_are_written_item_by_item(Seq::empty(), entries, texts, Seq::empty());
    six_joined(texts);
    canonical_text_is_joined(fields);
}

} // verus!
