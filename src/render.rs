use vstd::prelude::*;

use crate::record::{records_view, SleepRecord};

verus! {

/// The character of a decimal digit `d`, for `0 <= d < 10`.
pub open spec fn digit_char(d: int) -> char {
    seq!['0', '1', '2', '3', '4', '5', '6', '7', '8', '9'][d]
}

/// `n` written in decimal, without sign or leading zeros.
pub open spec fn decimal(n: nat) -> Seq<char>
    decreases n,
{
    if n < 10 {
        seq![digit_char(n as int)]
    } else {
        decimal(n / 10) + seq![digit_char((n % 10) as int)]
    }
}

/// A record as one line of the tabular output: the quoted date, a comma and
/// the score.
pub open spec fn csv_line_of(v: (Seq<char>, u32)) -> Seq<char> {
    "\""@ + v.0 + "\","@ + decimal(v.1 as nat)
}

/// The tabular output: one line per record, each ended by a newline.
pub open spec fn text_of(s: Seq<(Seq<char>, u32)>) -> Seq<char>
    decreases s.len(),
{
    if s.len() == 0 {
        Seq::empty()
    } else {
        text_of(s.drop_last()) + csv_line_of(s.last()) + "\n"@
    }
}

/// The JSON text of a string as serde_json writes it: quoted and escaped.
pub uninterp spec fn json_string_literal(s: Seq<char>) -> Seq<char>;

/// One record as a JSON object, its keys in the order `date`, `score`.
pub open spec fn json_object_of(quoted_date: Seq<char>, score: u32) -> Seq<char> {
    "{\"date\":"@ + quoted_date + ",\"score\":"@ + decimal(score as nat) + "}"@
}

/// The JSON objects of the records, separated by commas.
pub open spec fn json_items_of(s: Seq<(Seq<char>, u32)>) -> Seq<char>
    decreases s.len(),
{
    if s.len() == 0 {
        Seq::empty()
    } else if s.len() == 1 {
        json_object_of(json_string_literal(s[0].0), s[0].1)
    } else {
        json_items_of(s.drop_last()) + ","@ + json_object_of(
            json_string_literal(s.last().0),
            s.last().1,
        )
    }
}

/// The structured output: a single-line JSON array of the records' objects.
pub open spec fn json_array_of(s: Seq<(Seq<char>, u32)>) -> Seq<char> {
    "["@ + json_items_of(s) + "]"@
}

fn digit_str(d: u32) -> (r: &'static str)
    requires
        d < 10,
    ensures
        r@ == seq![digit_char(d as int)],
{
    proof {
        reveal_strlit("0");
        reveal_strlit("1");
        reveal_strlit("2");
        reveal_strlit("3");
        reveal_strlit("4");
        reveal_strlit("5");
        reveal_strlit("6");
        reveal_strlit("7");
        reveal_strlit("8");
        reveal_strlit("9");
    }
    let r = if d == 0 {
        "0"
    } else if d == 1 {
        "1"
    } else if d == 2 {
        "2"
    } else if d == 3 {
        "3"
    } else if d == 4 {
        "4"
    } else if d == 5 {
        "5"
    } else if d == 6 {
        "6"
    } else if d == 7 {
        "7"
    } else if d == 8 {
        "8"
    } else {
        "9"
    };
    assert(r@ =~= seq![digit_char(d as int)]);
    r
}

/// Appends `n` in decimal to `s`.
pub fn append_decimal(s: &mut String, n: u32)
    ensures
        final(s)@ == old(s)@ + decimal(n as nat),
    decreases n,
{
    if n >= 10 {
        append_decimal(s, n / 10);
    }
    s.append(digit_str(n % 10));
    assert(final(s)@ =~= old(s)@ + decimal(n as nat));
}

/// One line of the tabular output, without its newline: `"2024-01-01",70`.
pub fn format_csv_line(record: &SleepRecord) -> (r: String)
    ensures
        r@ == csv_line_of(record@),
{
    let mut r = String::from_str("\"");
    r.append(record.date.as_str());
    r.append("\",");
    append_decimal(&mut r, record.score);
    r
}

/// The tabular output of the records, in their order.
pub fn render_text(records: &Vec<SleepRecord>) -> (r: String)
    ensures
        r@ == text_of(records_view(records@)),
{
    let ghost v = records_view(records@);
    let mut r = String::new();
    let mut i: usize = 0;
    while i < records.len()
        invariant
            i <= records@.len(),
            v == records_view(records@),
            r@ == text_of(v.take(i as int)),
        decreases records@.len() - i,
    {
        let line = format_csv_line(&records[i]);
        r.append(line.as_str());
        r.append("\n");
        assert(v.take(i + 1).drop_last() =~= v.take(i as int));
        i = i + 1;
    }
    assert(v.take(i as int) =~= v);
    r
}

/// Relies on serde_json's `Display` for `Value`: a `Value::String` is written
/// as the quoted, escaped JSON string literal of its text.
#[verifier::external_body]
fn json_quote(s: &str) -> (r: String)
    ensures
        r@ == json_string_literal(s@),
{
    serde_json::Value::String(s.to_string()).to_string()
}

/// One JSON object `{"date":<quoted_date>,"score":<score>}`, from the date
/// already written as a JSON string.
pub fn format_json_object(quoted_date: &str, score: u32) -> (r: String)
    ensures
        r@ == json_object_of(quoted_date@, score),
{
    let mut r = String::from_str("{\"date\":");
    r.append(quoted_date);
    r.append(",\"score\":");
    append_decimal(&mut r, score);
    r.append("}");
    r
}

/// The structured output of the records: one JSON array, `[]` when there are
/// none.
pub fn render_json(records: &Vec<SleepRecord>) -> (r: String)
    ensures
        r@ == json_array_of(records_view(records@)),
{
    let ghost v = records_view(records@);
    let mut r = String::from_str("[");
    let mut i: usize = 0;
    while i < records.len()
        invariant
            i <= records@.len(),
            v == records_view(records@),
            r@ == "["@ + json_items_of(v.take(i as int)),
        decreases records@.len() - i,
    {
        if i > 0 {
            r.append(",");
        }
        let quoted = json_quote(records[i].date.as_str());
        let object = format_json_object(quoted.as_str(), records[i].score);
        r.append(object.as_str());
        assert(v.take(i + 1).drop_last() =~= v.take(i as int));
        assert(v.take(i + 1).last() == v[i as int]);
        assert(r@ =~= "["@ + json_items_of(v.take(i + 1)));
        i = i + 1;
    }
    r.append("]");
    assert(v.take(i as int) =~= v);
    r
}

/// An empty sequence of records is rendered as the JSON array `[]`.
pub proof fn lemma_no_records_render_empty_array()
    ensures
        json_array_of(Seq::empty()) == "[]"@,
{
    reveal_strlit("[");
    reveal_strlit("]");
    reveal_strlit("[]");
    assert(json_array_of(Seq::empty()) =~= "[]"@);
}

} // verus!
