//! Comma-separated values: splitting a catalog line into fields, and
//! quoting fields for an exported table.

use vstd::prelude::*;

use crate::text::{chars_of, push_all, string_of};

verus! {

/// The state of a left-to-right scan of one line: the fields finished so
/// far, the field being read, and whether the scan is inside quotes.
pub type ScanState = (Seq<Seq<char>>, Seq<char>, bool);

/// Reading one character: a double quote toggles quoting and is dropped,
/// an unquoted comma ends the field, anything else joins the field.
pub open spec fn csv_step(st: ScanState, c: char) -> ScanState {
    if c == '"' {
        (st.0, st.1, !st.2)
    } else if c == ',' && !st.2 {
        (st.0.push(st.1), Seq::empty(), st.2)
    } else {
        (st.0, st.1.push(c), st.2)
    }
}

pub open spec fn csv_run(st: ScanState, s: Seq<char>) -> ScanState
    decreases s.len(),
{
    if s.len() == 0 {
        st
    } else {
        csv_step(csv_run(st, s.drop_last()), s.last())
    }
}

pub open spec fn csv_start() -> ScanState {
    (Seq::empty(), Seq::empty(), false)
}

/// The fields of one line, honoring double-quoted fields.
pub open spec fn csv_fields(s: Seq<char>) -> Seq<Seq<char>> {
    let st = csv_run(csv_start(), s);
    st.0.push(st.1)
}

pub open spec fn views(v: Seq<String>) -> Seq<Seq<char>> {
    v.map_values(|f: String| f@)
}

/// Split one CSV line, honoring double-quoted fields.
pub fn csv_split(line: &str) -> (fields: Vec<String>)
    ensures
        views(fields@) == csv_fields(line@),
{
    let mut out: Vec<String> = Vec::new();
    let mut cur: Vec<char> = Vec::new();
    let mut quoted = false;
    let ghost mut done: Seq<Seq<char>> = Seq::empty();
    for c in it: line.chars()
        invariant
            it.seq() == line@,
            csv_run(csv_start(), it.seq().take(it.index())) == (done, cur@, quoted),
            views(out@) == done,
    {
        let ghost before = it.seq().take(it.index());
        proof {
            let after = it.seq().take(it.index() + 1);
            assert(after.drop_last() =~= before);
            assert(after.last() == c);
        }
        if c == '"' {
            quoted = !quoted;
        } else if c == ',' && !quoted {
            let field = string_of(cur.as_slice());
            out.push(field);
            proof {
                done = done.push(cur@);
                assert(views(out@) =~= done);
            }
            cur = Vec::new();
        } else {
            cur.push(c);
        }
    }
    let field = string_of(cur.as_slice());
    out.push(field);
    proof {
        assert(line@.take(line@.len() as int) =~= line@);
        assert(views(out@) =~= done.push(cur@));
    }
    out
}

// ───────────────────────────── quoting ─────────────────────────────

/// A field needs quotes when it holds a comma, a double quote or a newline.
pub open spec fn needs_quotes(s: Seq<char>) -> bool {
    s.contains(',') || s.contains('"') || s.contains('\n')
}

/// `s` with every double quote doubled.
pub open spec fn double_quotes(s: Seq<char>) -> Seq<char>
    decreases s.len(),
{
    if s.len() == 0 {
        Seq::empty()
    } else {
        double_quotes(s.drop_last()) + (if s.last() == '"' {
            seq!['"', '"']
        } else {
            seq![s.last()]
        })
    }
}

/// One field as it is written out: quoted, with its quotes doubled, only
/// when it has to be.
pub open spec fn csv_field_of(s: Seq<char>) -> Seq<char> {
    if needs_quotes(s) {
        seq!['"'] + double_quotes(s) + seq!['"']
    } else {
        s
    }
}

/// One CSV field, quoted only when it has to be.
pub fn csv(v: &str) -> (out: String)
    ensures
        out@ == csv_field_of(v@),
{
    let cs = chars_of(v);
    let n = cs.len();
    let mut special = false;
    let mut i: usize = 0;
    while i < n
        invariant
            i <= n,
            n == cs@.len(),
            special == exists|j: int| 0 <= j < i && (cs@[j] == ',' || cs@[j] == '"' || cs@[j] == '\n'),
        decreases n - i,
    {
        let c = cs[i];
        if c == ',' || c == '"' || c == '\n' {
            special = true;
        }
        i = i + 1;
    }
    proof {
        if special {
            let j = choose|j: int| 0 <= j < n && (cs@[j] == ',' || cs@[j] == '"' || cs@[j] == '\n');
            if cs@[j] == ',' {
                assert(cs@.contains(','));
            } else if cs@[j] == '"' {
                assert(cs@.contains('"'));
            } else {
                assert(cs@.contains('\n'));
            }
        }
    }
    if !special {
        return string_of(cs.as_slice());
    }
    let mut out = String::new();
    out.push('"');
    let mut k: usize = 0;
    while k < n
        invariant
            k <= n,
            n == cs@.len(),
            out@ == seq!['"'] + double_quotes(cs@.take(k as int)),
        decreases n - k,
    {
        let c = cs[k];
        assert(cs@.take(k + 1).drop_last() =~= cs@.take(k as int));
        if c == '"' {
            out.push('"');
            out.push('"');
        } else {
            out.push(c);
        }
        k = k + 1;
    }
    out.push('"');
    assert(cs@.take(n as int) =~= cs@);
    out
}

/// The fields written out as one record: each quoted as needed, joined by
/// commas.
pub open spec fn csv_join(fields: Seq<Seq<char>>) -> Seq<char>
    decreases fields.len(),
{
    if fields.len() == 0 {
        Seq::empty()
    } else if fields.len() == 1 {
        csv_field_of(fields[0])
    } else {
        csv_join(fields.drop_last()) + seq![','] + csv_field_of(fields.last())
    }
}

/// One line of an exported table: the fields quoted as needed, joined by
/// commas, ended by a newline.
pub fn csv_line(fields: &Vec<String>) -> (line: String)
    ensures
        line@ == csv_join(views(fields@)) + seq!['\n'],
{
    let mut out = String::new();
    let n = fields.len();
    let mut i: usize = 0;
    while i < n
        invariant
            i <= n,
            n == fields@.len(),
            out@ == csv_join(views(fields@.take(i as int))),
        decreases n - i,
    {
        let ghost prev = views(fields@.take(i as int));
        let ghost next = views(fields@.take(i + 1));
        assert(next.drop_last() =~= prev);
        assert(next.last() == fields@[i as int]@);
        if i > 0 {
            out.push(',');
        }
        let cell = csv(fields[i].as_str());
        let cell_chars = chars_of(cell.as_str());
        push_all(&mut out, cell_chars.as_slice());
        proof {
            if i == 0 {
                assert(next.len() == 1);
                assert(prev.len() == 0);
                assert(out@ =~= csv_field_of(next[0]));
            } else {
                assert(out@ =~= csv_join(prev) + seq![','] + csv_field_of(next.last()));
            }
        }
        i = i + 1;
    }
    out.push('\n');
    assert(fields@.take(n as int) =~= fields@);
    out
}

// ───────────────────── reading back what was written ─────────────────────

proof fn lemma_run_concat(st: ScanState, a: Seq<char>, b: Seq<char>)
    ensures
        csv_run(st, a + b) == csv_run(csv_run(st, a), b),
    decreases b.len(),
{
    if b.len() == 0 {
        assert(a + b =~= a);
    } else {
        lemma_run_concat(st, a, b.drop_last());
        assert((a + b).drop_last() =~= a + b.drop_last());
        assert((a + b).last() == b.last());
    }
}

/// Text without quotes, read inside quotes or without commas, lands in the
/// current field unchanged.
proof fn lemma_run_plain(st: ScanState, b: Seq<char>)
    requires
        !b.contains('"'),
        st.2 || !b.contains(','),
    ensures
        csv_run(st, b) == (st.0, st.1 + b, st.2),
    decreases b.len(),
{
    if b.len() == 0 {
        assert(st.1 + b =~= st.1);
    } else {
        let c = b.last();
        assert(b.drop_last().len() < b.len());
        assert forall|x: char| b.drop_last().contains(x) implies b.contains(x) by {
            let j = choose|j: int| 0 <= j < b.drop_last().len() && b.drop_last()[j] == x;
            assert(b[j] == x);
        }
        lemma_run_plain(st, b.drop_last());
        assert(b[b.len() - 1] == c);
        assert(c != '"');
        assert(st.2 || c != ',');
        assert(st.1 + b.drop_last() + seq![c] =~= st.1 + b);
    }
}

proof fn lemma_double_quotes_plain(s: Seq<char>)
    requires
        !s.contains('"'),
    ensures
        double_quotes(s) == s,
    decreases s.len(),
{
    if s.len() > 0 {
        assert forall|x: char| s.drop_last().contains(x) implies s.contains(x) by {
            let j = choose|j: int| 0 <= j < s.drop_last().len() && s.drop_last()[j] == x;
            assert(s[j] == x);
        }
        lemma_double_quotes_plain(s.drop_last());
        assert(s[s.len() - 1] == s.last());
        assert(s.drop_last() + seq![s.last()] =~= s);
    }
}

/// A written field without double quotes is read back, from the start of
/// a field, as the same text.
proof fn lemma_field_read_back(done: Seq<Seq<char>>, v: Seq<char>)
    requires
        !v.contains('"'),
    ensures
        csv_run((done, Seq::empty(), false), csv_field_of(v)) == (done, v, false),
{
    let st: ScanState = (done, Seq::empty(), false);
    if needs_quotes(v) {
        lemma_double_quotes_plain(v);
        let q: Seq<char> = seq!['"'];
        assert(csv_field_of(v) == q + v + q);
        assert(q.drop_last() =~= Seq::<char>::empty());
        assert(q.last() == '"');
        lemma_run_concat(st, q + v, q);
        lemma_run_concat(st, q, v);
        assert(csv_run(st, q) == csv_step(csv_run(st, q.drop_last()), '"'));
        assert(csv_run(st, q.drop_last()) == st);
        assert(csv_run(st, q) == (done, Seq::<char>::empty(), true));
        lemma_run_plain((done, Seq::empty(), true), v);
        assert(Seq::<char>::empty() + v =~= v);
        assert(csv_run(st, q + v) == (done, v, true));
        let mid: ScanState = (done, v, true);
        assert(csv_run(mid, q) == csv_step(csv_run(mid, q.drop_last()), '"'));
        assert(csv_run(mid, q.drop_last()) == mid);
        assert(csv_run(mid, q) == (done, v, false));
    } else {
        lemma_run_plain(st, v);
        assert(Seq::<char>::empty() + v =~= v);
    }
}

proof fn lemma_join_read_back(fields: Seq<Seq<char>>)
    requires
        fields.len() >= 1,
        forall|k: int| 0 <= k < fields.len() ==> !(#[trigger] fields[k]).contains('"'),
    ensures
        csv_run(csv_start(), csv_join(fields)) == (fields.drop_last(), fields.last(), false),
    decreases fields.len(),
{
    if fields.len() == 1 {
        lemma_field_read_back(Seq::empty(), fields[0]);
        assert(fields.drop_last() =~= Seq::<Seq<char>>::empty());
        assert(csv_join(fields) == csv_field_of(fields[0]));
        assert(csv_start() == (Seq::<Seq<char>>::empty(), Seq::<char>::empty(), false));
    } else {
        let init = fields.drop_last();
        assert forall|k: int| 0 <= k < init.len() implies !(#[trigger] init[k]).contains('"') by {
            assert(init[k] == fields[k]);
        }
        lemma_join_read_back(init);
        let head = csv_join(init);
        let comma: Seq<char> = seq![','];
        let last = fields.last();
        assert(fields[fields.len() - 1] == last);
        assert(csv_join(fields) == head + comma + csv_field_of(last));
        lemma_run_concat(csv_start(), head + comma, csv_field_of(last));
        lemma_run_concat(csv_start(), head, comma);
        assert(comma.drop_last() =~= Seq::<char>::empty());
        assert(comma.last() == ',');
        let st1: ScanState = (init.drop_last(), init.last(), false);
        assert(csv_run(csv_start(), head) == st1);
        assert(csv_run(st1, comma) == csv_step(csv_run(st1, comma.drop_last()), ','));
        assert(csv_run(st1, comma.drop_last()) == st1);
        assert(init.drop_last().push(init.last()) =~= init);
        assert(csv_run(st1, comma) == (init, Seq::<char>::empty(), false));
        lemma_field_read_back(init, last);
    }
}

/// Reading a written record back: the fields of a line that `csv_line`
/// wrote (without its newline) are the fields it was given, as long as
/// none of them holds a double quote (splitting drops quotes rather than
/// undoubling them).
pub proof fn law_csv_round_trip(fields: Seq<Seq<char>>)
    requires
        fields.len() >= 1,
        forall|k: int| 0 <= k < fields.len() ==> !(#[trigger] fields[k]).contains('"'),
    ensures
        csv_fields(csv_join(fields)) == fields,
{
    lemma_join_read_back(fields);
    assert(fields.drop_last().push(fields.last()) =~= fields);
}

} // verus!
