//! CSV generation and parsing (RFC 4180 quoting).
use vstd::prelude::*;
use vstd::string::StringExecFns;
use super::Rng;
use crate::text::{push_char, chars_of};

verus! {

/// Characters that force a field to be quoted.
pub open spec fn is_special(c: char) -> bool {
    c == ',' || c == '"' || c == '\n' || c == '\r'
}

/// A field needs quoting when it holds `,`, `"`, `\n` or `\r`.
pub open spec fn needs_quoting(s: Seq<char>) -> bool {
    exists|i: int| 0 <= i < s.len() && is_special(#[trigger] s[i])
}

/// `s` with every `"` doubled.
pub open spec fn double_quotes(s: Seq<char>) -> Seq<char>
    decreases s.len(),
{
    if s.len() == 0 {
        Seq::empty()
    } else {
        (if s[0] == '"' {
            seq!['"', '"']
        } else {
            seq![s[0]]
        }) + double_quotes(s.drop_first())
    }
}

/// Doubling quotes works character by character: a `"` becomes `""`, any other
/// character stays, and the doubling of a concatenation is the concatenation of the
/// doublings.
pub proof fn lemma_double_quotes_per_char(s: Seq<char>, t: Seq<char>, c: char)
    ensures
        double_quotes(seq![c]) == (if c == '"' { seq!['"', '"'] } else { seq![c] }),
        double_quotes(s + t) == double_quotes(s) + double_quotes(t),
    decreases s.len(),
{
    let one = seq![c];
    assert(one.len() == 1 && one[0] == c);
    assert(one.drop_first() =~= Seq::<char>::empty());
    assert(double_quotes(one.drop_first()) == Seq::<char>::empty());
    assert(double_quotes(one) =~= (if c == '"' { seq!['"', '"'] } else { seq![c] }));
    if s.len() == 0 {
        assert(s + t =~= t);
    } else {
        let head = if s[0] == '"' { seq!['"', '"'] } else { seq![s[0]] };
        assert((s + t)[0] == s[0]);
        assert((s + t).drop_first() =~= s.drop_first() + t);
        lemma_double_quotes_per_char(s.drop_first(), t, c);
        assert(double_quotes(s + t) == head + double_quotes(s.drop_first() + t));
        assert(double_quotes(s) == head + double_quotes(s.drop_first()));
        assert(double_quotes(s + t) =~= double_quotes(s) + double_quotes(t));
    }
}

/// The RFC 4180 form of one field: verbatim, or quoted with inner quotes doubled.
pub open spec fn escape(s: Seq<char>) -> Seq<char> {
    if needs_quoting(s) {
        seq!['"'] + double_quotes(s) + seq!['"']
    } else {
        s
    }
}

/// A field holding none of `,` `"` `\n` `\r` is written verbatim; a field holding any of
/// them is wrapped in double quotes with its inner quotes doubled.
pub proof fn lemma_escape_quotes_exactly_special_fields(s: Seq<char>)
    ensures
        (forall|k: int| 0 <= k < s.len() ==> #[trigger] s[k] != ',' && s[k] != '"' && s[k] != '\n'
            && s[k] != '\r') ==> escape(s) == s,
        (exists|k: int| 0 <= k < s.len() && (#[trigger] s[k] == ',' || s[k] == '"' || s[k] == '\n'
            || s[k] == '\r')) ==> escape(s) == seq!['"'] + double_quotes(s) + seq!['"'],
{
    if exists|k: int| 0 <= k < s.len() && (#[trigger] s[k] == ',' || s[k] == '"' || s[k] == '\n'
        || s[k] == '\r') {
        let k = choose|k: int| 0 <= k < s.len() && (#[trigger] s[k] == ',' || s[k] == '"' || s[k]
            == '\n' || s[k] == '\r');
        assert(is_special(s[k]));
    }
}

/// The escaped fields of one record joined by `,` (no line terminator).
pub open spec fn join_line(fields: Seq<Seq<char>>) -> Seq<char>
    decreases fields.len(),
{
    if fields.len() == 0 {
        Seq::empty()
    } else if fields.len() == 1 {
        escape(fields[0])
    } else {
        escape(fields[0]) + seq![','] + join_line(fields.drop_first())
    }
}

/// Records, each rendered by `join_line` and terminated by `\n`.
pub open spec fn document(records: Seq<Seq<Seq<char>>>) -> Seq<char>
    decreases records.len(),
{
    if records.len() == 0 {
        Seq::empty()
    } else {
        join_line(records[0]) + seq!['\n'] + document(records.drop_first())
    }
}

/// The CSV text of a header record followed by data records.
pub open spec fn csv_text(headers: Seq<Seq<char>>, rows: Seq<Seq<Seq<char>>>) -> Seq<char> {
    join_line(headers) + seq!['\n'] + document(rows)
}

/// The state of the CSV reader between two characters.
pub ghost struct ReadState {
    pub records: Seq<Seq<Seq<char>>>,
    pub record: Seq<Seq<char>>,
    pub field: Seq<char>,
    pub in_quotes: bool,
    pub has_content: bool,
    /// How many of the last `records` were read from empty lines.
    pub blank_tail: nat,
}

/// The reader state at the start of the input.
pub open spec fn initial_state() -> ReadState {
    ReadState {
        records: Seq::empty(),
        record: Seq::empty(),
        field: Seq::empty(),
        in_quotes: false,
        has_content: false,
        blank_tail: 0,
    }
}

/// The state after a line terminator: the current record is complete. A line with
/// nothing on it adds to the count of trailing empty lines; any other line resets it.
pub open spec fn end_record(st: ReadState) -> ReadState {
    ReadState {
        records: st.records.push(st.record.push(st.field)),
        record: Seq::empty(),
        field: Seq::empty(),
        in_quotes: false,
        has_content: false,
        blank_tail: if st.has_content { 0 } else { st.blank_tail + 1 },
    }
}

/// The records read when the input ends in state `st` outside quotes: a last record
/// without terminator is kept when it has content; otherwise the records read from
/// trailing empty lines are dropped.
pub open spec fn finish(st: ReadState) -> Seq<Seq<Seq<char>>> {
    if st.field.len() > 0 || st.has_content {
        st.records.push(st.record.push(st.field))
    } else {
        st.records.subrange(0, st.records.len() - st.blank_tail)
    }
}

/// Reads the remaining input `s` from state `st`: the records, or `Err` for an
/// unterminated quoted field.
pub open spec fn read_rest(s: Seq<char>, st: ReadState) -> Result<Seq<Seq<Seq<char>>>, ()>
    decreases s.len(),
{
    if s.len() == 0 {
        if st.in_quotes {
            Err(())
        } else {
            Ok(finish(st))
        }
    } else {
        let c = s[0];
        if st.in_quotes {
            if c == '"' {
                if s.len() > 1 && s[1] == '"' {
                    read_rest(s.skip(2), ReadState { field: st.field.push('"'), ..st })
                } else {
                    read_rest(s.drop_first(), ReadState { in_quotes: false, ..st })
                }
            } else {
                read_rest(s.drop_first(), ReadState { field: st.field.push(c), ..st })
            }
        } else if c == '"' && st.field.len() == 0 {
            read_rest(s.drop_first(), ReadState { in_quotes: true, has_content: true, ..st })
        } else if c == ',' {
            read_rest(
                s.drop_first(),
                ReadState { record: st.record.push(st.field), field: Seq::empty(), has_content: true, ..st },
            )
        } else if c == '\r' {
            if s.len() > 1 && s[1] == '\n' {
                read_rest(s.skip(2), end_record(st))
            } else {
                read_rest(s.drop_first(), end_record(st))
            }
        } else if c == '\n' {
            read_rest(s.drop_first(), end_record(st))
        } else {
            read_rest(s.drop_first(), ReadState { field: st.field.push(c), has_content: true, ..st })
        }
    }
}

/// What `parse` returns for `input`: the first record as headers and the rest as rows
/// (both empty when there is no record), or `Err` for an unterminated quoted field.
pub open spec fn parse_spec(input: Seq<char>) -> Result<(Seq<Seq<char>>, Seq<Seq<Seq<char>>>), ()> {
    match read_rest(input, initial_state()) {
        Err(()) => Err(()),
        Ok(records) => if records.len() == 0 {
            Ok((Seq::empty(), Seq::empty()))
        } else {
            Ok((records[0], records.drop_first()))
        },
    }
}

/// The reader's state once all of `s` is read from `st`, whether or not a quoted field
/// is still open.
pub open spec fn state_at_end(s: Seq<char>, st: ReadState) -> ReadState
    decreases s.len(),
{
    if s.len() == 0 {
        st
    } else {
        let c = s[0];
        if st.in_quotes {
            if c == '"' {
                if s.len() > 1 && s[1] == '"' {
                    state_at_end(s.skip(2), ReadState { field: st.field.push('"'), ..st })
                } else {
                    state_at_end(s.drop_first(), ReadState { in_quotes: false, ..st })
                }
            } else {
                state_at_end(s.drop_first(), ReadState { field: st.field.push(c), ..st })
            }
        } else if c == '"' && st.field.len() == 0 {
            state_at_end(s.drop_first(), ReadState { in_quotes: true, has_content: true, ..st })
        } else if c == ',' {
            state_at_end(
                s.drop_first(),
                ReadState { record: st.record.push(st.field), field: Seq::empty(), has_content: true, ..st },
            )
        } else if c == '\r' {
            if s.len() > 1 && s[1] == '\n' {
                state_at_end(s.skip(2), end_record(st))
            } else {
                state_at_end(s.drop_first(), end_record(st))
            }
        } else if c == '\n' {
            state_at_end(s.drop_first(), end_record(st))
        } else {
            state_at_end(s.drop_first(), ReadState { field: st.field.push(c), has_content: true, ..st })
        }
    }
}

proof fn lemma_read_rest_by_end_state(s: Seq<char>, st: ReadState)
    ensures
        read_rest(s, st) == if state_at_end(s, st).in_quotes {
            Err::<Seq<Seq<Seq<char>>>, ()>(())
        } else {
            Ok(finish(state_at_end(s, st)))
        },
    decreases s.len(),
{
    if s.len() > 0 {
        let c = s[0];
        if st.in_quotes {
            if c == '"' {
                if s.len() > 1 && s[1] == '"' {
                    lemma_read_rest_by_end_state(s.skip(2), ReadState { field: st.field.push('"'), ..st });
                } else {
                    lemma_read_rest_by_end_state(s.drop_first(), ReadState { in_quotes: false, ..st });
                }
            } else {
                lemma_read_rest_by_end_state(s.drop_first(), ReadState { field: st.field.push(c), ..st });
            }
        } else if c == '"' && st.field.len() == 0 {
            lemma_read_rest_by_end_state(
                s.drop_first(),
                ReadState { in_quotes: true, has_content: true, ..st },
            );
        } else if c == ',' {
            lemma_read_rest_by_end_state(
                s.drop_first(),
                ReadState { record: st.record.push(st.field), field: Seq::empty(), has_content: true, ..st },
            );
        } else if c == '\r' {
            if s.len() > 1 && s[1] == '\n' {
                lemma_read_rest_by_end_state(s.skip(2), end_record(st));
            } else {
                lemma_read_rest_by_end_state(s.drop_first(), end_record(st));
            }
        } else if c == '\n' {
            lemma_read_rest_by_end_state(s.drop_first(), end_record(st));
        } else {
            lemma_read_rest_by_end_state(
                s.drop_first(),
                ReadState { field: st.field.push(c), has_content: true, ..st },
            );
        }
    }
}

/// Parsing fails exactly when the input ends inside a quoted field; otherwise it gives the
/// records read (the first as headers).
pub proof fn lemma_parse_fails_only_inside_quotes(input: Seq<char>)
    ensures
        parse_spec(input) is Err <==> state_at_end(input, initial_state()).in_quotes,
{
    lemma_read_rest_by_end_state(input, initial_state());
}

// ---------------------------------------------------------------------------
// Round-trip proof
// ---------------------------------------------------------------------------

proof fn lemma_unquoted_field(f: Seq<char>, t: Seq<char>, st: ReadState)
    requires
        !needs_quoting(f),
        !st.in_quotes,
    ensures
        read_rest(f + t, st) == read_rest(
            t,
            ReadState { field: st.field + f, has_content: st.has_content || f.len() > 0, ..st },
        ),
    decreases f.len(),
{
    if f.len() == 0 {
        assert(f + t =~= t);
        assert(st.field + f =~= st.field);
    } else {
        let c = f[0];
        assert(!is_special(f[0]));
        assert((f + t)[0] == c);
        assert((f + t).drop_first() =~= f.drop_first() + t);
        let st2 = ReadState { field: st.field.push(c), has_content: true, ..st };
        assert(!needs_quoting(f.drop_first())) by {
            if needs_quoting(f.drop_first()) {
                let i = choose|i: int| 0 <= i < f.drop_first().len() && is_special(#[trigger] f.drop_first()[i]);
                assert(is_special(f[i + 1]));
            }
        }
        lemma_unquoted_field(f.drop_first(), t, st2);
        assert(st2.field + f.drop_first() =~= st.field + f);
    }
}

proof fn lemma_quoted_body(f: Seq<char>, t: Seq<char>, st: ReadState)
    requires
        st.in_quotes,
        t.len() == 0 || t[0] != '"',
    ensures
        read_rest(double_quotes(f) + seq!['"'] + t, st) == read_rest(
            t,
            ReadState { field: st.field + f, in_quotes: false, ..st },
        ),
    decreases f.len(),
{
    let s = double_quotes(f) + seq!['"'] + t;
    if f.len() == 0 {
        assert(double_quotes(f) =~= Seq::<char>::empty());
        assert(s =~= seq!['"'] + t);
        assert(s.drop_first() =~= t);
        assert(st.field + f =~= st.field);
    } else if f[0] == '"' {
        let rest = double_quotes(f.drop_first()) + seq!['"'] + t;
        assert(s =~= seq!['"', '"'] + rest);
        assert(s.skip(2) =~= rest);
        let st2 = ReadState { field: st.field.push('"'), ..st };
        lemma_quoted_body(f.drop_first(), t, st2);
        assert(st2.field + f.drop_first() =~= st.field + f);
    } else {
        let rest = double_quotes(f.drop_first()) + seq!['"'] + t;
        assert(s =~= seq![f[0]] + rest);
        assert(s.drop_first() =~= rest);
        let st2 = ReadState { field: st.field.push(f[0]), ..st };
        lemma_quoted_body(f.drop_first(), t, st2);
        assert(st2.field + f.drop_first() =~= st.field + f);
    }
}

/// Reading an escaped field from the start of a field, followed by a character that is
/// not a quote, leaves exactly that field pending.
proof fn lemma_escaped_field(f: Seq<char>, t: Seq<char>, st: ReadState)
    requires
        !st.in_quotes,
        st.field.len() == 0,
        t.len() > 0,
        t[0] != '"',
    ensures
        read_rest(escape(f) + t, st) == read_rest(
            t,
            ReadState { field: f, has_content: st.has_content || f.len() > 0, ..st },
        ),
{
    if needs_quoting(f) {
        assert(f.len() > 0);
        let s = escape(f) + t;
        let body = double_quotes(f) + seq!['"'] + t;
        assert(s =~= seq!['"'] + body);
        assert(s[0] == '"');
        assert(s.drop_first() =~= body);
        let st2 = ReadState { in_quotes: true, has_content: true, ..st };
        lemma_quoted_body(f, t, st2);
        assert(st.field + f =~= f);
        assert(read_rest(escape(f) + t, st) == read_rest(
            t,
            ReadState { field: f, has_content: true, ..st },
        ));
    } else {
        lemma_unquoted_field(f, t, st);
        assert(st.field + f =~= f);
        assert(read_rest(escape(f) + t, st) == read_rest(
            t,
            ReadState { field: f, has_content: st.has_content || f.len() > 0, ..st },
        ));
    }
}

/// A record that renders as an empty line: one empty field.
pub open spec fn is_blank_record(r: Seq<Seq<char>>) -> bool {
    r.len() == 1 && r[0].len() == 0
}

/// The count of trailing empty lines after reading `recs` from a count of `b`.
pub open spec fn trailing_blanks(b: nat, recs: Seq<Seq<Seq<char>>>) -> nat
    decreases recs.len(),
{
    if recs.len() == 0 {
        b
    } else {
        trailing_blanks(if is_blank_record(recs[0]) { b + 1 } else { 0 }, recs.drop_first())
    }
}

proof fn lemma_no_trailing_blanks(b: nat, recs: Seq<Seq<Seq<char>>>)
    requires
        recs.len() > 0,
        !is_blank_record(recs.last()),
    ensures
        trailing_blanks(b, recs) == 0,
    decreases recs.len(),
{
    let b2: nat = if is_blank_record(recs[0]) { b + 1 } else { 0 };
    assert(trailing_blanks(b, recs) == trailing_blanks(b2, recs.drop_first()));
    if recs.len() > 1 {
        assert(recs.drop_first().last() == recs.last());
        lemma_no_trailing_blanks(
            if is_blank_record(recs[0]) { b + 1 } else { 0 },
            recs.drop_first(),
        );
    } else {
        assert(recs.drop_first().len() == 0);
        assert(recs[0] == recs.last());
        assert(b2 == 0);
        assert(trailing_blanks(b2, recs.drop_first()) == b2);
    }
}

/// Reading one rendered record and its terminator appends the record.
proof fn lemma_record(fields: Seq<Seq<char>>, t: Seq<char>, st: ReadState)
    requires
        fields.len() > 0,
        !st.in_quotes,
        st.field.len() == 0,
    ensures
        read_rest(join_line(fields) + seq!['\n'] + t, st) == read_rest(
            t,
            ReadState {
                records: st.records.push(st.record + fields),
                record: Seq::empty(),
                field: Seq::empty(),
                in_quotes: false,
                has_content: false,
                blank_tail: if !st.has_content && is_blank_record(fields) {
                    st.blank_tail + 1
                } else {
                    0
                },
            },
        ),
    decreases fields.len(),
{
    let f = fields[0];
    if fields.len() == 1 {
        let u = seq!['\n'] + t;
        assert(join_line(fields) + seq!['\n'] + t =~= escape(f) + u);
        lemma_escaped_field(f, u, st);
        let st2 = ReadState { field: f, has_content: st.has_content || f.len() > 0, ..st };
        assert(u[0] == '\n');
        assert(u.drop_first() =~= t);
        assert(st.record.push(f) =~= st.record + fields);
        assert(end_record(st2).records =~= st.records.push(st.record + fields));
    } else {
        let rest_fields = fields.drop_first();
        let u = seq![','] + join_line(rest_fields) + seq!['\n'] + t;
        assert(join_line(fields) + seq!['\n'] + t =~= escape(f) + u);
        lemma_escaped_field(f, u, st);
        let st2 = ReadState { field: f, has_content: st.has_content || f.len() > 0, ..st };
        assert(u[0] == ',');
        assert(u.drop_first() =~= join_line(rest_fields) + seq!['\n'] + t);
        let st3 = ReadState {
            record: st2.record.push(st2.field),
            field: Seq::empty(),
            has_content: true,
            ..st2
        };
        lemma_record(rest_fields, t, st3);
        assert(st3.record + rest_fields =~= st.record + fields);
    }
}

/// Reading a whole document from a fresh record appends all its records, and counts
/// the empty lines at its end.
proof fn lemma_document(records: Seq<Seq<Seq<char>>>, st: ReadState)
    requires
        forall|i: int| 0 <= i < records.len() ==> (#[trigger] records[i]).len() > 0,
        !st.in_quotes,
        st.field.len() == 0,
        st.record.len() == 0,
        !st.has_content,
    ensures
        read_rest(document(records), st) == read_rest(
            Seq::empty(),
            ReadState {
                records: st.records + records,
                record: Seq::empty(),
                field: Seq::empty(),
                in_quotes: false,
                has_content: false,
                blank_tail: trailing_blanks(st.blank_tail, records),
            },
        ),
    decreases records.len(),
{
    if records.len() == 0 {
        assert(st.records + records =~= st.records);
        assert(document(records) =~= Seq::<char>::empty());
        assert(st.record =~= Seq::<Seq<char>>::empty());
        assert(st.field =~= Seq::<char>::empty());
    } else {
        let t = document(records.drop_first());
        assert(document(records) == join_line(records[0]) + seq!['\n'] + t);
        lemma_record(records[0], t, st);
        let st2 = ReadState {
            records: st.records.push(st.record + records[0]),
            record: Seq::empty(),
            field: Seq::empty(),
            in_quotes: false,
            has_content: false,
            blank_tail: if is_blank_record(records[0]) { st.blank_tail + 1 } else { 0 },
        };
        assert(st.record + records[0] =~= records[0]);
        lemma_document(records.drop_first(), st2);
        assert(st2.records + records.drop_first() =~= st.records + records);
    }
}

/// Round trip: parsing the CSV text of a header and rows gives them back, provided every
/// record has at least one field (a record of no fields renders as an empty line, which
/// reads back as one empty field) and the last record does not render as an empty line
/// (trailing empty lines are ignored).
pub proof fn lemma_csv_round_trip(headers: Seq<Seq<char>>, rows: Seq<Seq<Seq<char>>>)
    requires
        headers.len() > 0,
        forall|i: int| 0 <= i < rows.len() ==> (#[trigger] rows[i]).len() > 0,
        !is_blank_record(if rows.len() == 0 { headers } else { rows.last() }),
    ensures
        parse_spec(csv_text(headers, rows)) == Ok::<(Seq<Seq<char>>, Seq<Seq<Seq<char>>>), ()>(
            (headers, rows),
        ),
{
    let all = seq![headers] + rows;
    assert(all[0] == headers);
    assert(all.drop_first() =~= rows);
    assert(document(all) == csv_text(headers, rows));
    assert forall|i: int| 0 <= i < all.len() implies (#[trigger] all[i]).len() > 0 by {
        if i > 0 {
            assert(all[i] == rows[i - 1]);
        }
    }
    lemma_document(all, initial_state());
    assert(all.last() == if rows.len() == 0 { headers } else { rows.last() });
    lemma_no_trailing_blanks(0, all);
    assert(initial_state().records + all =~= all);
    assert(all.subrange(0, all.len() as int) =~= all);
}

} // verus!

verus! {

// ---------------------------------------------------------------------------
// Executable functions
// ---------------------------------------------------------------------------

fn is_special_char(c: char) -> (b: bool)
    ensures
        b == is_special(c),
{
    c == ',' || c == '"' || c == '\n' || c == '\r'
}

/// Escape a single CSV field per RFC 4180: unchanged when it holds none of
/// `,` `"` `\n` `\r`; otherwise wrapped in double quotes with inner quotes doubled.
pub fn escape_field(value: &str) -> (out: String)
    ensures
        out@ == escape(value@),
{
    let cs = chars_of(value);
    let mut special = false;
    let mut i: usize = 0;
    while i < cs.len()
        invariant
            cs@ == value@,
            i <= cs.len(),
            special == exists|j: int| 0 <= j < i && is_special(#[trigger] cs@[j]),
        decreases cs.len() - i,
    {
        if is_special_char(cs[i]) {
            special = true;
        }
        i = i + 1;
    }
    if !special {
        return value.to_string();
    }
    let mut out = String::new();
    push_char(&mut out, '"');
    assert(cs@.skip(0) =~= cs@);
    let mut k: usize = 0;
    while k < cs.len()
        invariant
            cs@ == value@,
            k <= cs.len(),
            out@ + double_quotes(cs@.skip(k as int)) == seq!['"'] + double_quotes(cs@),
        decreases cs.len() - k,
    {
        let c = cs[k];
        proof {
            let s = cs@.skip(k as int);
            assert(s[0] == c);
            assert(s.drop_first() =~= cs@.skip(k + 1));
        }
        if c == '"' {
            push_char(&mut out, '"');
            push_char(&mut out, '"');
        } else {
            push_char(&mut out, c);
        }
        k = k + 1;
    }
    assert(cs@.skip(cs.len() as int) =~= Seq::<char>::empty());
    assert(cs@.skip(0) =~= cs@);
    push_char(&mut out, '"');
    out
}

proof fn lemma_join_line_snoc(fields: Seq<Seq<char>>, i: int)
    requires
        1 <= i < fields.len(),
    ensures
        join_line(fields.take(i + 1)) == join_line(fields.take(i)) + seq![','] + escape(fields[i]),
    decreases i,
{
    let a = fields.take(i + 1);
    assert(a[0] == fields[0]);
    if i == 1 {
        assert(a.drop_first() =~= seq![fields[1]]);
        assert(join_line(a.drop_first()) == escape(fields[1]));
        assert(join_line(fields.take(1)) == escape(fields[0]));
        assert(join_line(a) == escape(fields[0]) + seq![','] + escape(fields[1]));
    } else {
        let fd = fields.drop_first();
        lemma_join_line_snoc(fd, i - 1);
        assert(a.drop_first() =~= fd.take(i));
        assert(fields.take(i).drop_first() =~= fd.take(i - 1));
        assert(fd[i - 1] == fields[i]);
        assert(fields.take(i)[0] == fields[0]);
        let x = escape(fields[0]);
        let y = join_line(fd.take(i - 1));
        let z = seq![','] + escape(fields[i]);
        assert(join_line(fields.take(i)) == x + seq![','] + y);
        assert(join_line(a) == x + seq![','] + (y + z));
        assert(x + seq![','] + (y + z) =~= (x + seq![','] + y) + z);
        assert((x + seq![','] + y) + z =~= (x + seq![','] + y) + seq![','] + escape(fields[i]));
    }
}

/// Appends the rendered header record and its terminator.
fn push_header_record(out: &mut String, fields: &[&str])
    ensures
        final(out)@ == old(out)@ + join_line(fields.deep_view()) + seq!['\n'],
{
    let ghost fs = fields.deep_view();
    let ghost start = out@;
    let mut i: usize = 0;
    while i < fields.len()
        invariant
            fs == fields.deep_view(),
            fs.len() == fields.len(),
            i <= fields.len(),
            out@ == start + join_line(fs.take(i as int)),
        decreases fields.len() - i,
    {
        let e = escape_field(fields[i]);
        proof {
            assert(fs[i as int] == fields[i as int]@);
        }
        if i > 0 {
            push_char(out, ',');
            proof {
                lemma_join_line_snoc(fs, i as int);
            }
        } else {
            assert(join_line(fs.take(1)) == escape(fs[0]));
            assert(join_line(fs.take(0)) =~= Seq::<char>::empty());
        }
        out.append(e.as_str());
        i = i + 1;
    }
    assert(fs.take(fields.len() as int) =~= fs);
    push_char(out, '\n');
}

/// Appends one rendered data record and its terminator.
fn push_record(out: &mut String, fields: &[String])
    ensures
        final(out)@ == old(out)@ + join_line(fields.deep_view()) + seq!['\n'],
{
    let ghost fs = fields.deep_view();
    let ghost start = out@;
    let mut i: usize = 0;
    while i < fields.len()
        invariant
            fs == fields.deep_view(),
            fs.len() == fields.len(),
            i <= fields.len(),
            out@ == start + join_line(fs.take(i as int)),
        decreases fields.len() - i,
    {
        let e = escape_field(fields[i].as_str());
        proof {
            assert(fs[i as int] == fields[i as int]@);
        }
        if i > 0 {
            push_char(out, ',');
            proof {
                lemma_join_line_snoc(fs, i as int);
            }
        } else {
            assert(join_line(fs.take(1)) == escape(fs[0]));
            assert(join_line(fs.take(0)) =~= Seq::<char>::empty());
        }
        out.append(e.as_str());
        i = i + 1;
    }
    assert(fs.take(fields.len() as int) =~= fs);
    push_char(out, '\n');
}

proof fn lemma_document_snoc(records: Seq<Seq<Seq<char>>>, r: Seq<Seq<char>>)
    ensures
        document(records.push(r)) == document(records) + join_line(r) + seq!['\n'],
    decreases records.len(),
{
    if records.len() == 0 {
        assert(records.push(r).drop_first() =~= Seq::<Seq<Seq<char>>>::empty());
        assert(document(Seq::<Seq<Seq<char>>>::empty()) =~= Seq::<char>::empty());
    } else {
        lemma_document_snoc(records.drop_first(), r);
        assert(records.push(r).drop_first() =~= records.drop_first().push(r));
    }
}

/// The CSV text of `headers` followed by `rows`, every field escaped by [`escape_field`].
pub fn render(headers: &[&str], rows: &[Vec<String>]) -> (out: String)
    ensures
        out@ == csv_text(headers.deep_view(), rows.deep_view()),
{
    let mut out = String::new();
    push_header_record(&mut out, headers);
    let ghost head = out@;
    let mut i: usize = 0;
    while i < rows.len()
        invariant
            i <= rows.len(),
            head == join_line(headers.deep_view()) + seq!['\n'],
            out@ == head + document(rows.deep_view().take(i as int)),
        decreases rows.len() - i,
    {
        push_record(&mut out, rows[i].as_slice());
        proof {
            let rs = rows.deep_view();
            assert(rs.take(i + 1) =~= rs.take(i as int).push(rs[i as int]));
            lemma_document_snoc(rs.take(i as int), rs[i as int]);
        }
        i = i + 1;
    }
    assert(rows.deep_view().take(rows.len() as int) =~= rows.deep_view());
    out
}

/// The records of `rows`.
pub open spec fn records_of(rows: Seq<Vec<String>>) -> Seq<Seq<Seq<char>>> {
    rows.map_values(|v: Vec<String>| v.deep_view())
}

/// Generate a CSV string laid out by [`render`] under the header record: record `i` is
/// what `row_factory` returns on its call `i`, and every call is handed the one
/// generator, seeded with `seed` and left by each call as the next one receives it.
pub fn generate<F>(headers: &[&str], rows: usize, seed: u64, mut row_factory: F) -> (out: String)
    where
        F: FnMut(&mut Rng) -> Vec<String>,
    requires
        forall|r: &mut Rng| call_requires(row_factory, (r,)),
    ensures
        exists|records: Seq<Vec<String>>, gens: Seq<&mut Rng>|
            {
                &&& records.len() == rows
                &&& gens.len() == rows
                &&& out@ == csv_text(headers.deep_view(), records_of(records))
                &&& rows > 0 ==> (*gens[0])@ == seed
                &&& forall|i: int|
                    0 <= i < rows ==> #[trigger] call_ensures(row_factory, (gens[i],), records[i])
                &&& forall|i: int| 0 <= i < rows - 1 ==> (*gens[i + 1])@ == #[trigger] final(gens[i])@
            },
{
    let ghost f0 = row_factory;
    let mut rng = Rng::seeded(seed);
    let mut records: Vec<Vec<String>> = Vec::new();
    let mut i: usize = 0;
    assert(records@ =~= Seq::<Vec<String>>::empty());
    assert({
        let gens = Seq::<&mut Rng>::empty();
        &&& gens.len() == 0
        &&& forall|k: int|
            0 <= k < 0 ==> #[trigger] call_ensures(row_factory, (gens[k],), records@[k])
        &&& forall|k: int| 0 <= k < 0 - 1 ==> (*gens[k + 1])@ == #[trigger] final(gens[k])@
    });
    while i < rows
        invariant
            i <= rows,
            records.len() == i,
            row_factory == f0,
            forall|r: &mut Rng| call_requires(row_factory, (r,)),
            exists|gens: Seq<&mut Rng>|
                {
                    &&& gens.len() == i
                    &&& i > 0 ==> (*gens[0])@ == seed
                    &&& i == 0 ==> rng@ == seed
                    &&& i > 0 ==> final(gens[i - 1])@ == rng@
                    &&& forall|k: int|
                        0 <= k < i ==> #[trigger] call_ensures(row_factory, (gens[k],), records@[k])
                    &&& forall|k: int| 0 <= k < i - 1 ==> (*gens[k + 1])@ == #[trigger] final(gens[k])@
                },
        decreases rows - i,
    {
        let ghost old_records = records@;
        let ghost before = rng@;
        let row = row_factory(&mut rng);
        assert(exists|r: &mut Rng|
            (*r)@ == before && final(r)@ == rng@ && #[trigger] call_ensures(row_factory, (r,), row));
        records.push(row);
        assert(exists|gens: Seq<&mut Rng>|
            {
                &&& gens.len() == i + 1
                &&& i + 1 > 0 ==> (*gens[0])@ == seed
                &&& i + 1 > 0 ==> final(gens[i as int])@ == rng@
                &&& forall|k: int|
                    0 <= k < i + 1 ==> #[trigger] call_ensures(row_factory, (gens[k],), records@[k])
                &&& forall|k: int| 0 <= k < i ==> (*gens[k + 1])@ == #[trigger] final(gens[k])@
            }) by {
            let g0 = choose|gens: Seq<&mut Rng>|
                {
                    &&& gens.len() == i
                    &&& i > 0 ==> (*gens[0])@ == seed
                    &&& i == 0 ==> before == seed
                    &&& i > 0 ==> final(gens[i - 1])@ == before
                    &&& forall|k: int|
                        0 <= k < i ==> #[trigger] call_ensures(row_factory, (gens[k],), old_records[k])
                    &&& forall|k: int| 0 <= k < i - 1 ==> (*gens[k + 1])@ == #[trigger] final(gens[k])@
                };
            let r1 = choose|r: &mut Rng|
                (*r)@ == before && final(r)@ == rng@ && #[trigger] call_ensures(row_factory, (r,), row);
            let g1 = g0.push(r1);
            assert forall|k: int| 0 <= k < i + 1 implies #[trigger] call_ensures(
                row_factory,
                (g1[k],),
                records@[k],
            ) by {
                if k < i {
                    assert(g1[k] == g0[k]);
                    assert(records@[k] == old_records[k]);
                }
            }
            assert forall|k: int| 0 <= k < i implies (*g1[k + 1])@ == #[trigger] final(g1[k])@ by {
                assert(g1[k] == g0[k]);
                if k + 1 < i {
                    assert(g1[k + 1] == g0[k + 1]);
                }
            }
            assert(g1[i as int] == r1);
            assert(i > 0 ==> g1[0] == g0[0]);
            assert(g0.len() == i);
            assert((*g1[0])@ == seed);
            assert(final(g1[i as int])@ == rng@);
            assert({
                &&& g1.len() == i + 1
                &&& i + 1 > 0 ==> (*g1[0])@ == seed
                &&& i + 1 > 0 ==> final(g1[i as int])@ == rng@
                &&& forall|k: int|
                    0 <= k < i + 1 ==> #[trigger] call_ensures(row_factory, (g1[k],), records@[k])
                &&& forall|k: int| 0 <= k < i ==> (*g1[k + 1])@ == #[trigger] final(g1[k])@
            });
        }
        i = i + 1;
    }
    let out = render(headers, records.as_slice());
    assert(records_of(records@) =~= records.deep_view());
    assert(exists|recs: Seq<Vec<String>>, gens: Seq<&mut Rng>|
        {
            &&& recs.len() == rows
            &&& gens.len() == rows
            &&& out@ == csv_text(headers.deep_view(), records_of(recs))
            &&& rows > 0 ==> (*gens[0])@ == seed
            &&& forall|i: int|
                0 <= i < rows ==> #[trigger] call_ensures(row_factory, (gens[i],), recs[i])
            &&& forall|i: int| 0 <= i < rows - 1 ==> (*gens[i + 1])@ == #[trigger] final(gens[i])@
        }) by {
        let g = choose|gens: Seq<&mut Rng>|
            {
                &&& gens.len() == i
                &&& i > 0 ==> (*gens[0])@ == seed
                &&& i == 0 ==> rng@ == seed
                &&& i > 0 ==> final(gens[i - 1])@ == rng@
                &&& forall|k: int|
                    0 <= k < i ==> #[trigger] call_ensures(row_factory, (gens[k],), records@[k])
                &&& forall|k: int| 0 <= k < i - 1 ==> (*gens[k + 1])@ == #[trigger] final(gens[k])@
            };
        assert(out@ == csv_text(headers.deep_view(), records_of(records@)));
    }
    out
}

} // verus!

verus! {

/// The message `parse` returns for an unterminated quoted field.
pub open spec fn unterminated_message() -> Seq<char> {
    "unterminated quoted field at EOF"@
}

proof fn lemma_push_deep<T: DeepView>(v: Seq<T>, x: T)
    ensures
        Seq::new(v.push(x).len(), |i: int| v.push(x)[i].deep_view()) == Seq::new(
            v.len(),
            |i: int| v[i].deep_view(),
        ).push(x.deep_view()),
{
    assert(Seq::new(v.push(x).len(), |i: int| v.push(x)[i].deep_view()) =~= Seq::new(
        v.len(),
        |i: int| v[i].deep_view(),
    ).push(x.deep_view()));
}

/// Parse CSV text back into a header record and data records, reading the
/// RFC 4180 quoting that [`generate`] writes; `\r\n` and `\n` both end a record, a
/// last record without terminator is kept when it has content, and trailing empty
/// lines are ignored.
///
/// The result is exactly `parse_spec(input@)`; the only error is an unterminated
/// quoted field.
pub fn parse(input: &str) -> (res: Result<(Vec<String>, Vec<Vec<String>>), String>)
    ensures
        match res {
            Ok((headers, rows)) => parse_spec(input@) == Ok::<
                (Seq<Seq<char>>, Seq<Seq<Seq<char>>>),
                (),
            >((headers.deep_view(), rows.deep_view())),
            Err(msg) => parse_spec(input@) is Err && msg@ == unterminated_message(),
        },
{
    let cs = chars_of(input);
    let n = cs.len();
    let mut all_rows: Vec<Vec<String>> = Vec::new();
    let mut current_row: Vec<String> = Vec::new();
    let mut current_field = String::new();
    let mut in_quotes = false;
    let mut row_has_content = false;
    let mut blank_tail: usize = 0;
    let mut i: usize = 0;
    assert(cs@.skip(0) =~= cs@);
    assert(all_rows.deep_view() =~= Seq::<Seq<Seq<char>>>::empty());
    assert(current_row.deep_view() =~= Seq::<Seq<char>>::empty());
    loop
        invariant_except_break
            n == cs.len(),
            cs@ == input@,
            i <= n,
            blank_tail <= all_rows.len(),
            read_rest(cs@.skip(i as int), ReadState {
                records: all_rows.deep_view(),
                record: current_row.deep_view(),
                field: current_field@,
                in_quotes: in_quotes,
                has_content: row_has_content,
                blank_tail: blank_tail as nat,
            }) == read_rest(input@, initial_state()),
        ensures
            read_rest(input@, initial_state()) == Ok::<Seq<Seq<Seq<char>>>, ()>(all_rows.deep_view()),
        decreases n - i,
    {
        let ghost s = cs@.skip(i as int);
        let ghost st = ReadState {
            records: all_rows.deep_view(),
            record: current_row.deep_view(),
            field: current_field@,
            in_quotes: in_quotes,
            has_content: row_has_content,
            blank_tail: blank_tail as nat,
        };
        if i == n {
            assert(s.len() == 0);
            if in_quotes {
                return Err("unterminated quoted field at EOF".to_string());
            }
            if !current_field.as_str().is_empty() || row_has_content {
                proof {
                    lemma_push_deep(current_row@, current_field);
                }
                current_row.push(current_field);
                proof {
                    lemma_push_deep(all_rows@, current_row);
                }
                all_rows.push(current_row);
            } else {
                let keep = all_rows.len() - blank_tail;
                let ghost before = all_rows.deep_view();
                all_rows.truncate(keep);
                assert(all_rows.deep_view() =~= before.subrange(0, keep as int));
            }
            assert(all_rows.deep_view() =~= finish(st));
            break;
        }
        let c = cs[i];
        assert(s[0] == c);
        assert(s.drop_first() =~= cs@.skip(i + 1));
        if i + 1 < n {
            assert(s[1] == cs@[i + 1]);
            assert(s.skip(2) =~= cs@.skip(i + 2));
        } else {
            assert(s.len() == 1);
        }
        if in_quotes {
            if c == '"' {
                if i + 1 < n && cs[i + 1] == '"' {
                    push_char(&mut current_field, '"');
                    i = i + 2;
                } else {
                    in_quotes = false;
                    i = i + 1;
                }
            } else {
                push_char(&mut current_field, c);
                i = i + 1;
            }
        } else if c == '"' && current_field.as_str().is_empty() {
            in_quotes = true;
            row_has_content = true;
            i = i + 1;
        } else if c == ',' {
            proof {
                lemma_push_deep(current_row@, current_field);
            }
            current_row.push(current_field);
            current_field = String::new();
            row_has_content = true;
            i = i + 1;
        } else if c == '\r' || c == '\n' {
            proof {
                lemma_push_deep(current_row@, current_field);
            }
            current_row.push(current_field);
            current_field = String::new();
            proof {
                lemma_push_deep(all_rows@, current_row);
            }
            all_rows.push(current_row);
            current_row = Vec::new();
            let rows_now = all_rows.len();
            if row_has_content {
                blank_tail = 0;
            } else {
                assert(blank_tail < rows_now);
                blank_tail = blank_tail + 1;
            }
            row_has_content = false;
            proof {
                assert(current_row.deep_view() =~= Seq::<Seq<char>>::empty());
            }
            if c == '\r' && i + 1 < n && cs[i + 1] == '\n' {
                i = i + 2;
            } else {
                i = i + 1;
            }
        } else {
            push_char(&mut current_field, c);
            row_has_content = true;
            i = i + 1;
        }
    }
    let ghost records = all_rows.deep_view();
    assert(read_rest(input@, initial_state()) == Ok::<Seq<Seq<Seq<char>>>, ()>(records));
    if all_rows.len() == 0 {
        let h: Vec<String> = Vec::new();
        let r: Vec<Vec<String>> = Vec::new();
        assert(h.deep_view() =~= Seq::<Seq<char>>::empty());
        assert(r.deep_view() =~= Seq::<Seq<Seq<char>>>::empty());
        return Ok((h, r));
    }
    let headers = all_rows.remove(0);
    assert(all_rows.deep_view() =~= records.drop_first());
    Ok((headers, all_rows))
}

} // verus!
