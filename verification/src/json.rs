//! Serialization of records into one array-shaped document.
//!
//! The wire form is fixed here, character by character: an array of objects
//! with the fields `name`, `kind`, `start_line`, `start_col`, `start_file`,
//! `end_line`, `end_col`, `end_file` and `ty`, in that order, the two file
//! fields and `ty` omitted — not written as null — where the record carries
//! none.  String values are escaped in the usual way: quote and backslash
//! by a backslash, the common control characters by their short escapes,
//! the remaining control characters in `\u00..` form.

use vstd::prelude::*;
use crate::record::{RecordKind, SpecRecord, VariableRecord, recs_view};

verus! {

pub open spec fn dec_digit(n: int) -> char {
    if n == 0 {
        '0'
    } else if n == 1 {
        '1'
    } else if n == 2 {
        '2'
    } else if n == 3 {
        '3'
    } else if n == 4 {
        '4'
    } else if n == 5 {
        '5'
    } else if n == 6 {
        '6'
    } else if n == 7 {
        '7'
    } else if n == 8 {
        '8'
    } else {
        '9'
    }
}

pub open spec fn hex_digit(n: int) -> char {
    if n < 10 {
        dec_digit(n)
    } else if n == 10 {
        'a'
    } else if n == 11 {
        'b'
    } else if n == 12 {
        'c'
    } else if n == 13 {
        'd'
    } else if n == 14 {
        'e'
    } else {
        'f'
    }
}

/// The decimal form of a non-negative number, most significant digit first.
pub open spec fn dec_seq(n: int) -> Seq<char>
    decreases n,
{
    if n < 10 {
        seq![dec_digit(n)]
    } else {
        dec_seq(n / 10).push(dec_digit(n % 10))
    }
}

/// The escaped form of one character inside a JSON string.
pub open spec fn escape_char(c: char) -> Seq<char> {
    if c == '"' {
        seq!['\\', '"']
    } else if c == '\\' {
        seq!['\\', '\\']
    } else if c == '\n' {
        seq!['\\', 'n']
    } else if c == '\r' {
        seq!['\\', 'r']
    } else if c == '\t' {
        seq!['\\', 't']
    } else if (c as u32) < 0x20 {
        seq!['\\', 'u', '0', '0', hex_digit((c as u32) as int / 16), hex_digit((c as u32) as int % 16)]
    } else {
        seq![c]
    }
}

/// The escaped form of a whole string body.
pub open spec fn escape_seq(s: Seq<char>) -> Seq<char>
    decreases s.len(),
{
    if s.len() == 0 {
        Seq::empty()
    } else {
        escape_char(s[0]) + escape_seq(s.skip(1))
    }
}

pub proof fn lemma_escape_push(s: Seq<char>, c: char)
    ensures
        escape_seq(s.push(c)) == escape_seq(s) + escape_char(c),
    decreases s.len(),
{
    if s.len() == 0 {
        assert(s =~= Seq::<char>::empty());
        assert(s.push(c)[0] == c);
        assert(s.push(c).skip(1) =~= Seq::<char>::empty());
        assert(escape_seq(Seq::<char>::empty()) == Seq::<char>::empty());
        assert(escape_seq(s.push(c)) == escape_char(c) + Seq::<char>::empty());
        assert(escape_char(c) + Seq::<char>::empty() =~= Seq::<char>::empty() + escape_char(c));
    } else {
        assert(s.push(c)[0] == s[0]);
        assert(s.push(c).skip(1) =~= s.skip(1).push(c));
        lemma_escape_push(s.skip(1), c);
        assert(escape_seq(s.push(c)) == escape_char(s[0]) + escape_seq(s.skip(1).push(c)));
        assert(escape_seq(s) == escape_char(s[0]) + escape_seq(s.skip(1)));
        assert(escape_seq(s.push(c)) == escape_char(s[0]) + (escape_seq(s.skip(1)) + escape_char(
            c,
        )));
        assert(escape_char(s[0]) + (escape_seq(s.skip(1)) + escape_char(c)) =~= (escape_char(s[0])
            + escape_seq(s.skip(1))) + escape_char(c));
    }
}

/// A quoted, escaped JSON string.
pub open spec fn json_string(s: Seq<char>) -> Seq<char> {
    seq!['"'] + escape_seq(s) + seq!['"']
}

pub open spec fn kind_json(k: RecordKind) -> Seq<char> {
    match k {
        RecordKind::Declaration => "\"declaration\""@,
        RecordKind::Reassignment => "\"reassignment\""@,
        RecordKind::Read => "\"read\""@,
    }
}

/// One record as a JSON object.
pub open spec fn json_of_record(r: SpecRecord) -> Seq<char> {
    "{\"name\":"@ + json_string(r.name) + ",\"kind\":"@ + kind_json(r.kind) + ",\"start_line\":"@
        + dec_seq(r.start.line) + ",\"start_col\":"@ + dec_seq(r.start.column) + (match r.start.file {
        Some(f) => ",\"start_file\":"@ + json_string(f),
        None => Seq::<char>::empty(),
    }) + ",\"end_line\":"@ + dec_seq(r.end.line) + ",\"end_col\":"@ + dec_seq(r.end.column) + (
    match r.end.file {
        Some(f) => ",\"end_file\":"@ + json_string(f),
        None => Seq::<char>::empty(),
    }) + (match r.ty {
        Some(t) => ",\"ty\":"@ + json_string(t),
        None => Seq::<char>::empty(),
    }) + "}"@
}

/// The records after the first, each preceded by its separating comma.
pub open spec fn json_tail(rs: Seq<SpecRecord>) -> Seq<char>
    decreases rs.len(),
{
    if rs.len() == 0 {
        Seq::empty()
    } else {
        ","@ + json_of_record(rs[0]) + json_tail(rs.skip(1))
    }
}

/// A whole ordered record sequence as one array document.
pub open spec fn json_of_records(rs: Seq<SpecRecord>) -> Seq<char> {
    if rs.len() == 0 {
        "[]"@
    } else {
        "["@ + json_of_record(rs[0]) + json_tail(rs.skip(1)) + "]"@
    }
}

pub proof fn lemma_json_tail_push(rs: Seq<SpecRecord>, r: SpecRecord)
    ensures
        json_tail(rs.push(r)) == json_tail(rs) + ","@ + json_of_record(r),
    decreases rs.len(),
{
    if rs.len() == 0 {
        assert(rs =~= Seq::<SpecRecord>::empty());
        assert(rs.push(r)[0] == r);
        assert(rs.push(r).skip(1) =~= Seq::<SpecRecord>::empty());
        assert(json_tail(Seq::<SpecRecord>::empty()) == Seq::<char>::empty());
        assert(json_tail(rs.push(r)) == ","@ + json_of_record(r) + Seq::<char>::empty());
        assert(","@ + json_of_record(r) + Seq::<char>::empty() =~= Seq::<char>::empty() + ","@
            + json_of_record(r));
    } else {
        assert(rs.push(r)[0] == rs[0]);
        assert(rs.push(r).skip(1) =~= rs.skip(1).push(r));
        lemma_json_tail_push(rs.skip(1), r);
        assert(json_tail(rs.push(r)) == ","@ + json_of_record(rs[0]) + json_tail(
            rs.skip(1).push(r),
        ));
        assert(json_tail(rs) == ","@ + json_of_record(rs[0]) + json_tail(rs.skip(1)));
        assert(json_tail(rs.push(r)) == ","@ + json_of_record(rs[0]) + ((json_tail(rs.skip(1))
            + ","@) + json_of_record(r)));
        assert(","@ + json_of_record(rs[0]) + ((json_tail(rs.skip(1)) + ","@) + json_of_record(r))
            =~= (","@ + json_of_record(rs[0]) + json_tail(rs.skip(1)) + ","@) + json_of_record(r));
    }
}

/// Relies on String::push: appends the given character to the end of the
/// string.
#[verifier::external_body]
fn push_char(s: &mut String, c: char)
    ensures
        final(s)@ == old(s)@.push(c),
{
    s.push(c);
}

fn dec_digit_exec(d: usize) -> (c: char)
    requires
        d < 10,
    ensures
        c == dec_digit(d as int),
{
    match d {
        0 => '0',
        1 => '1',
        2 => '2',
        3 => '3',
        4 => '4',
        5 => '5',
        6 => '6',
        7 => '7',
        8 => '8',
        _ => '9',
    }
}

fn hex_digit_exec(d: usize) -> (c: char)
    requires
        d < 16,
    ensures
        c == hex_digit(d as int),
{
    if d < 10 {
        dec_digit_exec(d)
    } else {
        match d {
            10 => 'a',
            11 => 'b',
            12 => 'c',
            13 => 'd',
            14 => 'e',
            _ => 'f',
        }
    }
}

/// Writes the decimal form of `n`.
fn write_dec(n: usize, out: &mut String)
    ensures
        final(out)@ == old(out)@ + dec_seq(n as int),
    decreases n,
{
    if n < 10 {
        push_char(out, dec_digit_exec(n));
        proof {
            assert(old(out)@ + dec_seq(n as int) =~= old(out)@.push(dec_digit(n as int)));
        }
    } else {
        write_dec(n / 10, out);
        push_char(out, dec_digit_exec(n % 10));
        proof {
            assert(old(out)@ + dec_seq(n as int) =~= (old(out)@ + dec_seq(n as int / 10)).push(
                dec_digit(n as int % 10),
            ));
        }
    }
}

/// Writes the escaped body of `s`.
fn write_escaped(s: &str, out: &mut String)
    ensures
        final(out)@ == old(out)@ + escape_seq(s@),
{
    let n = s.unicode_len();
    let mut i: usize = 0;
    proof {
        assert(s@.take(0) =~= Seq::<char>::empty());
        assert(out@ + escape_seq(s@.take(0)) =~= out@);
    }
    while i < n
        invariant
            n == s@.len(),
            i <= n,
            out@ == old(out)@ + escape_seq(s@.take(i as int)),
        decreases n - i,
    {
        let c = s.get_char(i);
        if c == '"' {
            push_char(out, '\\');
            push_char(out, '"');
        } else if c == '\\' {
            push_char(out, '\\');
            push_char(out, '\\');
        } else if c == '\n' {
            push_char(out, '\\');
            push_char(out, 'n');
        } else if c == '\r' {
            push_char(out, '\\');
            push_char(out, 'r');
        } else if c == '\t' {
            push_char(out, '\\');
            push_char(out, 't');
        } else if (c as u32) < 0x20 {
            push_char(out, '\\');
            push_char(out, 'u');
            push_char(out, '0');
            push_char(out, '0');
            let code = (c as u32) as usize;
            push_char(out, hex_digit_exec(code / 16));
            push_char(out, hex_digit_exec(code % 16));
        } else {
            push_char(out, c);
        }
        proof {
            assert(s@.take(i as int + 1) =~= s@.take(i as int).push(s@[i as int]));
            lemma_escape_push(s@.take(i as int), s@[i as int]);
            assert(out@ =~= old(out)@ + escape_seq(s@.take(i as int + 1)));
        }
        i += 1;
    }
    proof {
        assert(s@.take(n as int) =~= s@);
    }
}

/// Writes `s` as a quoted JSON string.
fn write_json_string(s: &str, out: &mut String)
    ensures
        final(out)@ == old(out)@ + json_string(s@),
{
    push_char(out, '"');
    write_escaped(s, out);
    push_char(out, '"');
    proof {
        assert(old(out)@ + json_string(s@) =~= (old(out)@.push('"') + escape_seq(s@)).push('"'));
    }
}

/// Writes one resolved position's fields, under the given label prefixes.
fn write_position_fields(
    line_label: &str,
    line: usize,
    col_label: &str,
    col: usize,
    file_label: &str,
    file: &Option<String>,
    out: &mut String,
)
    ensures
        final(out)@ == old(out)@ + (line_label@ + dec_seq(line as int) + col_label@ + dec_seq(
            col as int,
        ) + (match *file {
            Some(f) => file_label@ + json_string(f@),
            None => Seq::<char>::empty(),
        })),
{
    out.append(line_label);
    write_dec(line, out);
    out.append(col_label);
    write_dec(col, out);
    match file {
        Some(f) => {
            out.append(file_label);
            write_json_string(f.as_str(), out);
        },
        None => {},
    }
    proof {
        assert(out@ =~= old(out)@ + (line_label@ + dec_seq(line as int) + col_label@ + dec_seq(
            col as int,
        ) + (match *file {
            Some(f) => file_label@ + json_string(f@),
            None => Seq::<char>::empty(),
        })));
    }
}

/// Writes one record as a JSON object.
#[verifier::rlimit(50)]
pub fn write_record(r: &VariableRecord, out: &mut String)
    ensures
        final(out)@ == old(out)@ + json_of_record(r@),
{
    let ghost head = "{\"name\":"@ + json_string(r.name@) + ",\"kind\":"@ + kind_json(r.kind);
    out.append("{\"name\":");
    write_json_string(r.name.as_str(), out);
    out.append(",\"kind\":");
    match r.kind {
        RecordKind::Declaration => out.append("\"declaration\""),
        RecordKind::Reassignment => out.append("\"reassignment\""),
        RecordKind::Read => out.append("\"read\""),
    }
    proof {
        assert(out@ =~= old(out)@ + head);
    }
    let ghost start_part = ",\"start_line\":"@ + dec_seq(r@.start.line) + ",\"start_col\":"@
        + dec_seq(r@.start.column) + (match r@.start.file {
        Some(f) => ",\"start_file\":"@ + json_string(f),
        None => Seq::<char>::empty(),
    });
    write_position_fields(
        ",\"start_line\":",
        r.start.line,
        ",\"start_col\":",
        r.start.column,
        ",\"start_file\":",
        &r.start.file,
        out,
    );
    proof {
        assert(out@ =~= old(out)@ + (head + start_part));
    }
    let ghost end_part = ",\"end_line\":"@ + dec_seq(r@.end.line) + ",\"end_col\":"@ + dec_seq(
        r@.end.column,
    ) + (match r@.end.file {
        Some(f) => ",\"end_file\":"@ + json_string(f),
        None => Seq::<char>::empty(),
    });
    write_position_fields(
        ",\"end_line\":",
        r.end.line,
        ",\"end_col\":",
        r.end.column,
        ",\"end_file\":",
        &r.end.file,
        out,
    );
    proof {
        assert(out@ =~= old(out)@ + (head + start_part + end_part));
    }
    match &r.ty {
        Some(t) => {
            out.append(",\"ty\":");
            write_json_string(t.as_str(), out);
        },
        None => {},
    }
    out.append("}");
    proof {
        let ty_part = (match r@.ty {
            Some(t) => ",\"ty\":"@ + json_string(t),
            None => Seq::<char>::empty(),
        });
        assert(out@ =~= old(out)@ + (head + start_part + end_part + ty_part + "}"@));
        assert(head + start_part + end_part + ty_part + "}"@ =~= json_of_record(r@));
    }
}

/// Serializes one record on its own, for streaming emission.
pub fn record_to_json(r: &VariableRecord) -> (out: String)
    ensures
        out@ == json_of_record(r@),
{
    let mut out = String::new();
    write_record(r, &mut out);
    proof {
        assert(Seq::<char>::empty() + json_of_record(r@) =~= json_of_record(r@));
    }
    out
}

/// Serializes a whole ordered record list as one array document.
pub fn records_to_json(rs: &Vec<VariableRecord>) -> (out: String)
    ensures
        out@ == json_of_records(recs_view(rs@)),
{
    let mut out = String::new();
    out.append("[");
    let n = rs.len();
    let mut k: usize = 0;
    while k < n
        invariant
            n == rs@.len(),
            k <= n,
            k == 0 ==> out@ == "["@,
            k > 0 ==> out@ == "["@ + json_of_record(rs@[0]@) + json_tail(
                recs_view(rs@).subrange(1, k as int),
            ),
        decreases n - k,
    {
        if k > 0 {
            out.append(",");
        }
        write_record(&rs[k], &mut out);
        proof {
            if k == 0 {
                assert(recs_view(rs@).subrange(1, 1) =~= Seq::<SpecRecord>::empty());
                assert(recs_view(rs@)[0] == rs@[0]@);
                assert(out@ =~= "["@ + json_of_record(rs@[0]@) + json_tail(
                    recs_view(rs@).subrange(1, 1),
                ));
            } else {
                let prev = recs_view(rs@).subrange(1, k as int);
                assert(recs_view(rs@).subrange(1, k as int + 1) =~= prev.push(rs@[k as int]@));
                lemma_json_tail_push(prev, rs@[k as int]@);
                assert(out@ =~= "["@ + json_of_record(rs@[0]@) + json_tail(
                    recs_view(rs@).subrange(1, k as int + 1),
                ));
            }
        }
        k += 1;
    }
    out.append("]");
    proof {
        if n == 0 {
            assert(out@ =~= "["@ + "]"@);
            assert("[]"@ =~= "["@ + "]"@) by {
                reveal_strlit("[]");
                reveal_strlit("[");
                reveal_strlit("]");
            }
        } else {
            assert(recs_view(rs@).subrange(1, n as int) =~= recs_view(rs@).skip(1));
            assert(recs_view(rs@)[0] == rs@[0]@);
            assert(recs_view(rs@).len() == n);
            assert(out@ =~= "["@ + json_of_record(recs_view(rs@)[0]) + json_tail(
                recs_view(rs@).skip(1),
            ) + "]"@);
        }
    }
    out
}

} // verus!
