//! Run summaries: what a command did, as JSON or plain text.

use vstd::prelude::*;

use super::{flag_text, json_escape, json_escaped, push_flag};
use crate::numbers::{dec, push_dec};
use crate::text::push_text;

verus! {

/// A value in a run summary.
pub enum SummaryValue {
    Text(String),
    Number(u64),
    Flag(bool),
    /// A nested object of string -> number (e.g. the per-type breakdown).
    Counts(Vec<(String, u64)>),
}

/// What a value in a run summary says.
pub enum Fact {
    Text(Seq<char>),
    Number(int),
    Flag(bool),
    Counts(Seq<(Seq<char>, int)>),
}

/// What the members of a nested object say.
pub open spec fn counts_in(m: Seq<(String, u64)>) -> Seq<(Seq<char>, int)> {
    m.map_values(|c: (String, u64)| (c.0@, c.1 as int))
}

impl View for SummaryValue {
    type V = Fact;

    open spec fn view(&self) -> Fact {
        match self {
            SummaryValue::Text(s) => Fact::Text(s@),
            SummaryValue::Number(n) => Fact::Number(*n as int),
            SummaryValue::Flag(b) => Fact::Flag(*b),
            SummaryValue::Counts(m) => Fact::Counts(counts_in(m@)),
        }
    }
}

/// What the fields of a run summary say.
pub open spec fn facts(fields: Seq<(&'static str, SummaryValue)>) -> Seq<(Seq<char>, Fact)> {
    fields.map_values(|f: (&'static str, SummaryValue)| (f.0@, f.1@))
}

/// One line of a nested object in JSON.
pub open spec fn json_count(m: Seq<(Seq<char>, int)>, k: int) -> Seq<char> {
    "    \""@ + json_escaped(m[k].0) + "\": "@ + dec(m[k].1) + (if k + 1 < m.len() {
        ",\n"@
    } else {
        "\n"@
    })
}

/// The lines of a nested object in JSON, from the `k`-th on.
pub open spec fn json_counts(m: Seq<(Seq<char>, int)>, k: int) -> Seq<char>
    decreases m.len() - k,
{
    if k >= m.len() {
        Seq::empty()
    } else {
        json_count(m, k) + json_counts(m, k + 1)
    }
}

/// A value in JSON.
pub open spec fn json_summary_value(v: Fact) -> Seq<char> {
    match v {
        Fact::Text(s) => "\""@ + json_escaped(s) + "\""@,
        Fact::Number(n) => dec(n),
        Fact::Flag(b) => flag_text(b),
        Fact::Counts(m) => if m.len() == 0 {
            "{}"@
        } else {
            "{\n"@ + json_counts(m, 0) + "  }"@
        },
    }
}

/// The members of a summary in JSON, from the `k`-th on.
pub open spec fn json_members(fields: Seq<(Seq<char>, Fact)>, k: int) -> Seq<char>
    decreases fields.len() - k,
{
    if k >= fields.len() {
        Seq::empty()
    } else {
        "  \""@ + fields[k].0 + "\": "@ + json_summary_value(fields[k].1) + (if k + 1
            < fields.len() {
            ",\n"@
        } else {
            "\n"@
        }) + json_members(fields, k + 1)
    }
}

/// The lines of a nested object in plain text, from the `k`-th on.
pub open spec fn plain_counts(m: Seq<(Seq<char>, int)>, k: int) -> Seq<char>
    decreases m.len() - k,
{
    if k >= m.len() {
        Seq::empty()
    } else {
        "  "@ + m[k].0 + ": "@ + dec(m[k].1) + "\n"@ + plain_counts(m, k + 1)
    }
}

/// A value in plain text, with what sets it off from its name.
pub open spec fn plain_summary_value(v: Fact) -> Seq<char> {
    match v {
        Fact::Text(s) => ": "@ + s + "\n"@,
        Fact::Number(n) => ": "@ + dec(n) + "\n"@,
        Fact::Flag(b) => ": "@ + flag_text(b) + "\n"@,
        Fact::Counts(m) => ":\n"@ + plain_counts(m, 0),
    }
}

/// The lines of a summary in plain text, from the `k`-th on.
pub open spec fn plain_members(fields: Seq<(Seq<char>, Fact)>, k: int) -> Seq<char>
    decreases fields.len() - k,
{
    if k >= fields.len() {
        Seq::empty()
    } else {
        fields[k].0 + plain_summary_value(fields[k].1) + plain_members(fields, k + 1)
    }
}

/// A summary as JSON or plain text.
pub open spec fn summary(fields: Seq<(Seq<char>, Fact)>, is_json: bool) -> Seq<char> {
    if is_json {
        "{\n"@ + json_members(fields, 0) + "}\n"@
    } else {
        plain_members(fields, 0)
    }
}

fn push_json_counts(out: &mut String, m: &Vec<(String, u64)>)
    ensures
        final(out)@ == old(out)@ + json_counts(counts_in(m@), 0),
{
    let ghost whole = out@ + json_counts(counts_in(m@), 0);
    let mut k: usize = 0;
    while k < m.len()
        invariant
            k <= m@.len(),
            whole == out@ + json_counts(counts_in(m@), k as int),
        decreases m.len() - k,
    {
        let ghost before = out@;
        assert(counts_in(m@)[k as int] == (m@[k as int].0@, m@[k as int].1 as int));
        push_text(out, "    \"");
        json_escape(out, m[k].0.as_str());
        push_text(out, "\": ");
        push_dec(out, m[k].1);
        if k + 1 < m.len() {
            push_text(out, ",\n");
        } else {
            push_text(out, "\n");
        }
        assert(out@ =~= before + json_count(counts_in(m@), k as int));
        assert(whole =~= out@ + json_counts(counts_in(m@), k + 1));
        k = k + 1;
    }
    assert(whole =~= out@);
}

fn push_json_summary_value(out: &mut String, v: &SummaryValue)
    ensures
        final(out)@ == old(out)@ + json_summary_value(v@),
{
    match v {
        SummaryValue::Text(s) => {
            push_text(out, "\"");
            json_escape(out, s.as_str());
            push_text(out, "\"");
        },
        SummaryValue::Number(n) => {
            push_dec(out, *n);
        },
        SummaryValue::Flag(b) => {
            push_flag(out, *b);
        },
        SummaryValue::Counts(m) => {
            if m.len() == 0 {
                push_text(out, "{}");
            } else {
                push_text(out, "{\n");
                push_json_counts(out, m);
                push_text(out, "  }");
            }
        },
    }
    assert(out@ =~= old(out)@ + json_summary_value(v@));
}

fn push_plain_counts(out: &mut String, m: &Vec<(String, u64)>)
    ensures
        final(out)@ == old(out)@ + plain_counts(counts_in(m@), 0),
{
    let ghost whole = out@ + plain_counts(counts_in(m@), 0);
    let mut k: usize = 0;
    while k < m.len()
        invariant
            k <= m@.len(),
            whole == out@ + plain_counts(counts_in(m@), k as int),
        decreases m.len() - k,
    {
        push_text(out, "  ");
        push_text(out, m[k].0.as_str());
        push_text(out, ": ");
        push_dec(out, m[k].1);
        push_text(out, "\n");
        assert(whole =~= out@ + plain_counts(counts_in(m@), k + 1));
        k = k + 1;
    }
    assert(whole =~= out@);
}

fn push_plain_summary_value(out: &mut String, v: &SummaryValue)
    ensures
        final(out)@ == old(out)@ + plain_summary_value(v@),
{
    match v {
        SummaryValue::Text(s) => {
            push_text(out, ": ");
            push_text(out, s.as_str());
            push_text(out, "\n");
        },
        SummaryValue::Number(n) => {
            push_text(out, ": ");
            push_dec(out, *n);
            push_text(out, "\n");
        },
        SummaryValue::Flag(b) => {
            push_text(out, ": ");
            push_flag(out, *b);
            push_text(out, "\n");
        },
        SummaryValue::Counts(m) => {
            push_text(out, ":\n");
            push_plain_counts(out, m);
        },
    }
    assert(out@ =~= old(out)@ + plain_summary_value(v@));
}

/// The text of a run summary, as JSON or plain text.
pub fn summary_text(fields: &Vec<(&'static str, SummaryValue)>, is_json: bool) -> (r: String)
    ensures
        r@ == summary(facts(fields@), is_json),
{
    let mut out = String::new();
    let mut k: usize = 0;
    if is_json {
        let ghost body = "{\n"@ + json_members(facts(fields@), 0);
        push_text(&mut out, "{\n");
        assert(body =~= out@ + json_members(facts(fields@), 0));
        while k < fields.len()
            invariant
                k <= fields@.len(),
                body == out@ + json_members(facts(fields@), k as int),
            decreases fields.len() - k,
        {
            push_text(&mut out, "  \"");
            push_text(&mut out, fields[k].0);
            push_text(&mut out, "\": ");
            push_json_summary_value(&mut out, &fields[k].1);
            if k + 1 < fields.len() {
                push_text(&mut out, ",\n");
            } else {
                push_text(&mut out, "\n");
            }
            assert(body =~= out@ + json_members(facts(fields@), k + 1));
            k = k + 1;
        }
        push_text(&mut out, "}\n");
        assert(out@ =~= summary(facts(fields@), is_json));
    } else {
        let ghost whole = plain_members(facts(fields@), 0);
        assert(whole =~= out@ + plain_members(facts(fields@), 0));
        while k < fields.len()
            invariant
                k <= fields@.len(),
                whole == out@ + plain_members(facts(fields@), k as int),
            decreases fields.len() - k,
        {
            push_text(&mut out, fields[k].0);
            push_plain_summary_value(&mut out, &fields[k].1);
            assert(whole =~= out@ + plain_members(facts(fields@), k + 1));
            k = k + 1;
        }
        assert(whole =~= out@);
    }
    out
}

} // verus!
