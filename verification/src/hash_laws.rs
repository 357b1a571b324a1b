//! Why the hash of a record can be relied on: the text that is hashed tells every field.

use vstd::prelude::*;
use vstd::utf8::encode_utf8;
use vstd::utf8::encode_utf8_decode_utf8;

use crate::digest::hex_text_is_injective;
use crate::digest::sha256;
use crate::digest::text_digest;
use crate::dual_mirror::canonical_text;
use crate::dual_mirror::list_text;
use crate::dual_mirror::matrix_text;
use crate::dual_mirror::HashedFields;
use crate::json::quoted;
use crate::json::strings_are_self_delimiting;
use crate::text::comma_joined;
use crate::text::decimal;
use crate::text::decimal_is_digits;
use crate::text::decimal_round_trip;
use crate::text::is_digit;

verus! {

/// Whether a text can stand in a list: it is not empty and holds neither a comma nor a bracket
/// that closes the list. The JSON text of every number is of this kind.
pub open spec fn is_plain(text: Seq<char>) -> bool {
    &&& text.len() > 0
    &&& forall|i: int| 0 <= i < text.len() ==> #[trigger] text[i] != ',' && text[i] != ']'
}

/// Whether all numbers of a record are given by plain texts.
pub open spec fn is_plainly_written(fields: HashedFields) -> bool {
    &&& forall|i: int| 0 <= i < fields.state.len() ==> is_plain(#[trigger] fields.state[i])
    &&& forall|i: int|
        0 <= i < fields.operator.len() ==> row_is_plain(#[trigger] fields.operator[i])
    &&& is_plain(fields.entropy)
}

/// Whether all numbers of a row are given by plain texts.
pub open spec fn row_is_plain(row: Seq<Seq<char>>) -> bool {
    forall|i: int| 0 <= i < row.len() ==> is_plain(#[trigger] row[i])
}

/// What follows the same beginning is the same.
proof fn same_rest(a: Seq<char>, x: Seq<char>, y: Seq<char>)
    requires
        a + x == a + y,
    ensures
        x == y,
{
    assert((a + x).skip(a.len() as int) =~= x);
    assert((a + y).skip(a.len() as int) =~= y);
}

/// A plain text ends where a comma or a closing bracket follows.
proof fn plain_texts_are_delimited(
    p: Seq<char>,
    q: Seq<char>,
    c: char,
    d: char,
    x: Seq<char>,
    y: Seq<char>,
)
    requires
        is_plain(p),
        is_plain(q),
        c == ',' || c == ']',
        d == ',' || d == ']',
        p + seq![c] + x == q + seq![d] + y,
    ensures
        p == q,
        c == d,
        x == y,
{
    let s = p + seq![c] + x;
    let t = q + seq![d] + y;
    assert(s[p.len() as int] == c);
    assert(t[q.len() as int] == d);
    if p.len() < q.len() {
        assert(t[p.len() as int] == q[p.len() as int]);
    }
    if q.len() < p.len() {
        assert(s[q.len() as int] == p[q.len() as int]);
    }
    let n = p.len() as int;
    assert(s.take(n) =~= p);
    assert(t.take(n) =~= q);
    assert(s.skip(n + 1) =~= x);
    assert(t.skip(n + 1) =~= y);
}

/// A list of plain texts tells the texts and where it ends.
proof fn lists_are_delimited(
    ps: Seq<Seq<char>>,
    qs: Seq<Seq<char>>,
    x: Seq<char>,
    y: Seq<char>,
)
    requires
        row_is_plain(ps),
        row_is_plain(qs),
        comma_joined(ps) + seq![']'] + x == comma_joined(qs) + seq![']'] + y,
    ensures
        ps == qs,
        x == y,
    decreases ps.len(),
{
    reveal_strlit(",");
    let s = comma_joined(ps) + seq![']'] + x;
    let t = comma_joined(qs) + seq![']'] + y;
    if ps.len() == 0 && qs.len() == 0 {
        assert(ps =~= qs);
        assert(s.skip(1) =~= x);
        assert(t.skip(1) =~= y);
    } else if ps.len() == 0 {
        assert(s[0] == ']');
        assert(is_plain(qs[0]));
        assert(t[0] == qs[0][0]);
    } else if qs.len() == 0 {
        assert(t[0] == ']');
        assert(is_plain(ps[0]));
        assert(s[0] == ps[0][0]);
    } else {
        assert(is_plain(ps[0]) && is_plain(qs[0]));
        let (c, x2) = if ps.len() == 1 {
            (']', x)
        } else {
            (',', comma_joined(ps.drop_first()) + seq![']'] + x)
        };
        let (d, y2) = if qs.len() == 1 {
            (']', y)
        } else {
            (',', comma_joined(qs.drop_first()) + seq![']'] + y)
        };
        assert(s =~= ps[0] + seq![c] + x2);
        assert(t =~= qs[0] + seq![d] + y2);
        plain_texts_are_delimited(ps[0], qs[0], c, d, x2, y2);
        if ps.len() > 1 {
            assert forall|i: int| 0 <= i < ps.drop_first().len() implies is_plain(
                #[trigger] ps.drop_first()[i],
            ) by {
                assert(ps.drop_first()[i] == ps[i + 1]);
            }
            assert forall|i: int| 0 <= i < qs.drop_first().len() implies is_plain(
                #[trigger] qs.drop_first()[i],
            ) by {
                assert(qs.drop_first()[i] == qs[i + 1]);
            }
            lists_are_delimited(ps.drop_first(), qs.drop_first(), x, y);
        }
        assert(ps =~= seq![ps[0]] + ps.drop_first());
        assert(qs =~= seq![qs[0]] + qs.drop_first());
        assert(ps.drop_first() =~= qs.drop_first());
    }
}

/// The texts of the rows of a matrix.
pub open spec fn row_texts(rows: Seq<Seq<Seq<char>>>) -> Seq<Seq<char>> {
    rows.map_values(|row: Seq<Seq<char>>| list_text(row))
}

/// A list of lists tells the lists and where it ends.
proof fn matrices_are_delimited(
    ps: Seq<Seq<Seq<char>>>,
    qs: Seq<Seq<Seq<char>>>,
    x: Seq<char>,
    y: Seq<char>,
)
    requires
        forall|i: int| 0 <= i < ps.len() ==> row_is_plain(#[trigger] ps[i]),
        forall|i: int| 0 <= i < qs.len() ==> row_is_plain(#[trigger] qs[i]),
        comma_joined(row_texts(ps)) + seq![']'] + x == comma_joined(row_texts(qs)) + seq![']'] + y,
    ensures
        ps == qs,
        x == y,
    decreases ps.len(),
{
    reveal_strlit(",");
    reveal_strlit("[");
    reveal_strlit("]");
    let s = comma_joined(row_texts(ps)) + seq![']'] + x;
    let t = comma_joined(row_texts(qs)) + seq![']'] + y;
    if ps.len() == 0 && qs.len() == 0 {
        assert(ps =~= qs);
        assert(s.skip(1) =~= x);
        assert(t.skip(1) =~= y);
    } else if ps.len() == 0 {
        assert(s[0] == ']');
        assert(t[0] == row_texts(qs)[0][0]);
    } else if qs.len() == 0 {
        assert(t[0] == ']');
        assert(s[0] == row_texts(ps)[0][0]);
    } else {
        let ps2 = ps.drop_first();
        let qs2 = qs.drop_first();
        assert(row_texts(ps).drop_first() =~= row_texts(ps2));
        assert(row_texts(qs).drop_first() =~= row_texts(qs2));
        let x2 = if ps.len() == 1 {
            seq![']'] + x
        } else {
            seq![','] + (comma_joined(row_texts(ps2)) + seq![']'] + x)
        };
        let y2 = if qs.len() == 1 {
            seq![']'] + y
        } else {
            seq![','] + (comma_joined(row_texts(qs2)) + seq![']'] + y)
        };
        assert(row_texts(ps)[0] == list_text(ps[0]));
        assert(row_texts(qs)[0] == list_text(qs[0]));
        assert(s.skip(1) =~= comma_joined(ps[0]) + seq![']'] + x2);
        assert(t.skip(1) =~= comma_joined(qs[0]) + seq![']'] + y2);
        lists_are_delimited(ps[0], qs[0], x2, y2);
        assert(x2[0] == y2[0]);
        if ps.len() == 1 {
            assert(x2.skip(1) =~= x);
            assert(y2.skip(1) =~= y);
        } else {
            assert(x2.skip(1) =~= comma_joined(row_texts(ps2)) + seq![']'] + x);
            assert(y2.skip(1) =~= comma_joined(row_texts(qs2)) + seq![']'] + y);
            assert forall|i: int| 0 <= i < ps2.len() implies row_is_plain(#[trigger] ps2[i]) by {
                assert(ps2[i] == ps[i + 1]);
            }
            assert forall|i: int| 0 <= i < qs2.len() implies row_is_plain(#[trigger] qs2[i]) by {
                assert(qs2[i] == qs[i + 1]);
            }
            matrices_are_delimited(ps2, qs2, x, y);
        }
        assert(ps =~= seq![ps[0]] + ps2);
        assert(qs =~= seq![qs[0]] + qs2);
        assert(ps2 =~= qs2);
    }
}

/// A decimal numeral ends where something else than a digit follows.
proof fn decimals_are_delimited(n: nat, m: nat, x: Seq<char>, y: Seq<char>)
    requires
        x.len() > 0,
        y.len() > 0,
        !is_digit(x[0]),
        !is_digit(y[0]),
        decimal(n) + x == decimal(m) + y,
    ensures
        n == m,
        x == y,
{
    let s = decimal(n) + x;
    let t = decimal(m) + y;
    let a = decimal(n);
    let b = decimal(m);
    decimal_is_digits(n);
    decimal_is_digits(m);
    assert(s[a.len() as int] == x[0]);
    assert(t[b.len() as int] == y[0]);
    if a.len() < b.len() {
        assert(t[a.len() as int] == b[a.len() as int]);
        assert(is_digit(b[a.len() as int]));
    }
    if b.len() < a.len() {
        assert(s[b.len() as int] == a[b.len() as int]);
        assert(is_digit(a[b.len() as int]));
    }
    assert(s.take(a.len() as int) =~= a);
    assert(t.take(b.len() as int) =~= b);
    decimal_round_trip(n);
    decimal_round_trip(m);
    same_rest(a, x, y);
}

/// What stands after the entropy of a record.
spec fn parent_part(fields: HashedFields) -> Seq<char> {
    ",\"prev_hash\":"@ + (quoted(fields.prev_hash) + "}"@)
}

/// What stands after the operator of a record.
spec fn entropy_part(fields: HashedFields) -> Seq<char> {
    ",\"entropy\":"@ + (fields.entropy + parent_part(fields))
}

/// What stands after the state of a record.
spec fn operator_part(fields: HashedFields) -> Seq<char> {
    ",\"operator\":"@ + (matrix_text(fields.operator) + entropy_part(fields))
}

/// What stands after the depth of a record.
spec fn state_part(fields: HashedFields) -> Seq<char> {
    ",\"state\":"@ + (list_text(fields.state) + operator_part(fields))
}

/// What stands after the identifier of a record.
spec fn depth_part(fields: HashedFields) -> Seq<char> {
    ",\"depth\":"@ + (decimal(fields.depth as nat) + state_part(fields))
}

/// Three texts in a row can be grouped from either end.
proof fn regroup(a: Seq<char>, b: Seq<char>, c: Seq<char>)
    ensures
        a + b + c == a + (b + c),
{
    assert(a + b + c =~= a + (b + c));
}

/// The canonical text, part by part.
proof fn canonical_parts(fields: HashedFields)
    ensures
        canonical_text(fields) == "{\"seq_id\":"@ + (quoted(fields.seq_id) + depth_part(fields)),
{
    let id = "{\"seq_id\":"@ + quoted(fields.seq_id);
    let depth = id + ",\"depth\":"@ + decimal(fields.depth as nat);
    let state = depth + ",\"state\":"@ + list_text(fields.state);
    let operator = state + ",\"operator\":"@ + matrix_text(fields.operator);
    let entropy = operator + ",\"entropy\":"@ + fields.entropy;
    let parent = quoted(fields.prev_hash);
    assert(canonical_text(fields) == entropy + ",\"prev_hash\":"@ + parent + "}"@);
    regroup(entropy + ",\"prev_hash\":"@, parent, "}"@);
    regroup(entropy, ",\"prev_hash\":"@, parent + "}"@);
    regroup(operator + ",\"entropy\":"@, fields.entropy, parent_part(fields));
    regroup(operator, ",\"entropy\":"@, fields.entropy + parent_part(fields));
    let matrix = matrix_text(fields.operator);
    regroup(state + ",\"operator\":"@, matrix, entropy_part(fields));
    regroup(state, ",\"operator\":"@, matrix + entropy_part(fields));
    let list = list_text(fields.state);
    regroup(depth + ",\"state\":"@, list, operator_part(fields));
    regroup(depth, ",\"state\":"@, list + operator_part(fields));
    let number = decimal(fields.depth as nat);
    regroup(id + ",\"depth\":"@, number, state_part(fields));
    regroup(id, ",\"depth\":"@, number + state_part(fields));
    regroup("{\"seq_id\":"@, quoted(fields.seq_id), depth_part(fields));
}

/// The canonical text of a record tells all its fields: two records have the same text only if
/// they agree in every one of them.
pub proof fn canonical_text_is_injective(a: HashedFields, b: HashedFields)
    requires
        is_plainly_written(a),
        is_plainly_written(b),
        canonical_text(a) == canonical_text(b),
    ensures
        a == b,
{
    reveal_strlit("[");
    reveal_strlit("]");
    reveal_strlit("{\"seq_id\":");
    reveal_strlit(",\"depth\":");
    reveal_strlit(",\"state\":");
    reveal_strlit(",\"operator\":");
    reveal_strlit(",\"entropy\":");
    reveal_strlit(",\"prev_hash\":");
    canonical_parts(a);
    canonical_parts(b);
    same_rest(
        "{\"seq_id\":"@,
        quoted(a.seq_id) + depth_part(a),
        quoted(b.seq_id) + depth_part(b),
    );
    strings_are_self_delimiting(a.seq_id, b.seq_id, depth_part(a), depth_part(b));
    same_rest(
        ",\"depth\":"@,
        decimal(a.depth as nat) + state_part(a),
        decimal(b.depth as nat) + state_part(b),
    );
    assert(state_part(a)[0] == ',' && state_part(b)[0] == ',');
    decimals_are_delimited(a.depth as nat, b.depth as nat, state_part(a), state_part(b));
    same_rest(
        ",\"state\":"@,
        list_text(a.state) + operator_part(a),
        list_text(b.state) + operator_part(b),
    );
    assert((list_text(a.state) + operator_part(a)).skip(1) =~= comma_joined(a.state) + seq![']']
        + operator_part(a));
    assert((list_text(b.state) + operator_part(b)).skip(1) =~= comma_joined(b.state) + seq![']']
        + operator_part(b));
    lists_are_delimited(a.state, b.state, operator_part(a), operator_part(b));
    same_rest(
        ",\"operator\":"@,
        matrix_text(a.operator) + entropy_part(a),
        matrix_text(b.operator) + entropy_part(b),
    );
    assert((matrix_text(a.operator) + entropy_part(a)).skip(1) =~= comma_joined(
        row_texts(a.operator),
    ) + seq![']'] + entropy_part(a));
    assert((matrix_text(b.operator) + entropy_part(b)).skip(1) =~= comma_joined(
        row_texts(b.operator),
    ) + seq![']'] + entropy_part(b));
    matrices_are_delimited(a.operator, b.operator, entropy_part(a), entropy_part(b));
    same_rest(
        ",\"entropy\":"@,
        a.entropy + parent_part(a),
        b.entropy + parent_part(b),
    );
    let x = parent_part(a).skip(1);
    let y = parent_part(b).skip(1);
    assert(parent_part(a) =~= seq![','] + x);
    assert(parent_part(b) =~= seq![','] + y);
    assert(a.entropy + parent_part(a) =~= a.entropy + seq![','] + x);
    assert(b.entropy + parent_part(b) =~= b.entropy + seq![','] + y);
    plain_texts_are_delimited(a.entropy, b.entropy, ',', ',', x, y);
    same_rest(
        ",\"prev_hash\":"@,
        quoted(a.prev_hash) + "}"@,
        quoted(b.prev_hash) + "}"@,
    );
    strings_are_self_delimiting(a.prev_hash, b.prev_hash, "}"@, "}"@);
}

/// The chain is tamper-evident: two records that differ in any field, the hash of the parent
/// among them, have the same hash only if SHA-256 gives two different messages the same digest.
pub proof fn same_hash_means_collision(a: HashedFields, b: HashedFields)
    requires
        is_plainly_written(a),
        is_plainly_written(b),
        a != b,
        text_digest(canonical_text(a)) == text_digest(canonical_text(b)),
    ensures
        encode_utf8(canonical_text(a)) != encode_utf8(canonical_text(b)),
        sha256(encode_utf8(canonical_text(a))) == sha256(encode_utf8(canonical_text(b))),
{
    let m = encode_utf8(canonical_text(a));
    let n = encode_utf8(canonical_text(b));
    hex_text_is_injective(sha256(m), sha256(n));
    if m == n {
        encode_utf8_decode_utf8(canonical_text(a));
        encode_utf8_decode_utf8(canonical_text(b));
        canonical_text_is_injective(a, b);
    }
}

} // verus!
