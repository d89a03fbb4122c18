//! Audit records: one JSON object per line, appended to `<logs>/<name>.log`.
//!
//! The library builds the file path and the complete line; whoever owns the
//! file appends the line in one write, so that lines from concurrent writers
//! never interleave.

use vstd::prelude::*;
use vstd::string::*;
use crate::clock::{iso_time_text, iso_time_text_of, now_millis, ClockUnavailable};
use crate::paths::{opt_view, DirectoryKind, TPath};
use crate::hex::hex_char;
use crate::text::push_char;
use crate::types::PerformanceStats;

verus! {

/// How serde_json writes one character inside a JSON string: a double quote
/// and a backslash each behind a backslash; backspace, tab, line feed, form
/// feed and carriage return as `b`, `t`, `n`, `f`, `r` behind a backslash;
/// the other characters below U+0020 as a backslash, `u00` and two
/// lower-case hexadecimal digits; every other character as it stands.
pub open spec fn json_escape_char(c: char) -> Seq<char> {
    if c == '"' {
        seq!['\\', '"']
    } else if c == '\\' {
        seq!['\\', '\\']
    } else if c == '\u{8}' {
        seq!['\\', 'b']
    } else if c == '\t' {
        seq!['\\', 't']
    } else if c == '\n' {
        seq!['\\', 'n']
    } else if c == '\u{c}' {
        seq!['\\', 'f']
    } else if c == '\r' {
        seq!['\\', 'r']
    } else if (c as u32) < 0x20 {
        seq!['\\', 'u', '0', '0', hex_char((c as u32) / 16), hex_char((c as u32) % 16)]
    } else {
        seq![c]
    }
}

/// The characters of a text, each escaped for a JSON string.
pub open spec fn json_escaped(s: Seq<char>) -> Seq<char>
    decreases s.len(),
{
    if s.len() == 0 {
        Seq::empty()
    } else {
        json_escaped(s.drop_last()) + json_escape_char(s.last())
    }
}

/// The JSON string literal of a text, as serde_json writes it.
pub open spec fn json_quoted_of(s: Seq<char>) -> Seq<char> {
    seq!['"'] + json_escaped(s) + seq!['"']
}

proof fn lemma_json_escaped_no_line_break(s: Seq<char>)
    ensures
        no_line_break(json_escaped(s)),
    decreases s.len(),
{
    if s.len() > 0 {
        lemma_json_escaped_no_line_break(s.drop_last());
        let c = s.last();
        let e = json_escape_char(c);
        if c != '"' && c != '\\' && c != '\u{8}' && c != '\t' && c != '\n' && c != '\u{c}' && c != '\r'
            && (c as u32) < 0x20 {
            lemma_hex_char_not_line_break((c as u32) / 16);
            lemma_hex_char_not_line_break((c as u32) % 16);
        }
        assert(no_line_break(e));
        lemma_no_line_break_concat(json_escaped(s.drop_last()), e);
    }
}

proof fn lemma_hex_char_not_line_break(d: u32)
    ensures
        hex_char(d) != '\n',
{
}

/// No line break stands in a JSON string literal.
proof fn lemma_json_quoted_no_line_break(s: Seq<char>)
    ensures
        no_line_break(json_quoted_of(s)),
{
    lemma_json_escaped_no_line_break(s);
    lemma_no_line_break_concat(seq!['"'], json_escaped(s));
    lemma_no_line_break_concat(seq!['"'] + json_escaped(s), seq!['"']);
}

/// Relies on `serde_json::to_string` on a `str` (`format_escaped_str` with
/// the compact formatter): the text in double quotes, escaped as
/// `json_escape_char` says. Serialising a `str` into a `Vec` cannot fail.
#[verifier::external_body]
fn json_quoted(s: &str) -> (r: String)
    ensures
        r@ == json_quoted_of(s@),
{
    serde_json::to_string(s).unwrap_or_default()
}

/// The payload of an audit record: when it was made (milliseconds since
/// the epoch) and its fields, as key and text value, in order.
pub struct AuditData {
    pub dtcreated: i64,
    pub fields: Vec<(String, String)>,
}

/// What the fields of a payload hold.
pub open spec fn fields_view(fields: Seq<(String, String)>) -> Seq<(Seq<char>, Seq<char>)> {
    Seq::new(fields.len(), |i: int| (fields[i].0@, fields[i].1@))
}

/// The name of the log file for an audit name: `<name>.log`, and
/// `audit.log` where none is given.
pub open spec fn audit_file_name(name: Option<Seq<char>>) -> Seq<char> {
    match name {
        Some(n) => n + ".log"@,
        None => "audit"@ + ".log"@,
    }
}

/// `,"key":"value"` for each field in turn.
pub open spec fn fields_json(fields: Seq<(Seq<char>, Seq<char>)>) -> Seq<char>
    decreases fields.len(),
{
    if fields.len() == 0 {
        Seq::empty()
    } else {
        fields_json(fields.drop_last()) + ","@ + json_quoted_of(fields.last().0) + ":"@
            + json_quoted_of(fields.last().1)
    }
}

/// The audit line: `{"createdAt":<time>,"name":<name>,<fields>}` and a line break.
pub open spec fn audit_line(created: Seq<char>, name: Seq<char>, fields: Seq<(Seq<char>, Seq<char>)>) -> Seq<char> {
    "{"@ + json_quoted_of("createdAt"@) + ":"@ + json_quoted_of(created) + ","@ + json_quoted_of(
        "name"@,
    ) + ":"@ + json_quoted_of(name) + fields_json(fields) + "}"@ + seq!['\n']
}

/// True when `s` holds no line break.
pub open spec fn no_line_break(s: Seq<char>) -> bool {
    forall|i: int| 0 <= i < s.len() ==> s[i] != '\n'
}

proof fn lemma_no_line_break_concat(a: Seq<char>, b: Seq<char>)
    requires
        no_line_break(a),
        no_line_break(b),
    ensures
        no_line_break(a + b),
{
    assert forall|i: int| 0 <= i < (a + b).len() implies (a + b)[i] != '\n' by {
        if i >= a.len() {
            assert((a + b)[i] == b[i - a.len()]);
        }
    }
}

/// Appends `"text"` to `line`.
fn append_quoted(line: &mut String, text: &str)
    ensures
        final(line)@ == old(line)@ + json_quoted_of(text@),
        no_line_break(json_quoted_of(text@)),
{
    let q = json_quoted(text);
    proof {
        lemma_json_quoted_no_line_break(text@);
    }
    line.append(q.as_str());
}

/// The file name for an audit name.
pub fn audit_file(name: Option<&str>) -> (r: String)
    ensures
        r@ == audit_file_name(opt_view(name)),
{
    let mut r = match name {
        Some(n) => String::from_str(n),
        None => String::from_str("audit"),
    };
    r.append(".log");
    r
}

/// The path of the log file for an audit name, under the logs directory.
pub fn audit_path(paths: &TPath, name: Option<&str>) -> (r: String)
    ensures
        r@ == paths.resolve_spec(DirectoryKind::Logs, Some(audit_file_name(opt_view(name)))),
{
    let file = audit_file(name);
    paths.logs(Some(file.as_str()))
}

/// The audit line for a record made at the instant whose text is `created`.
/// It holds exactly one line break, at its end.
pub fn format_audit_line(created: &str, name: &str, fields: &Vec<(String, String)>) -> (r: String)
    ensures
        r@ == audit_line(created@, name@, fields_view(fields@)),
        r@.len() > 0,
        r@.last() == '\n',
        no_line_break(r@.drop_last()),
{
    proof {
        reveal_strlit("{");
        reveal_strlit(":");
        reveal_strlit(",");
        reveal_strlit("}");
    }
    let mut line = String::from_str("{");
    append_quoted(&mut line, "createdAt");
    line.append(":");
    append_quoted(&mut line, created);
    line.append(",");
    append_quoted(&mut line, "name");
    line.append(":");
    append_quoted(&mut line, name);
    let ghost head = line@;
    assert(no_line_break(head));
    let mut i: usize = 0;
    while i < fields.len()
        invariant
            i <= fields@.len(),
            line@ == head + fields_json(fields_view(fields@).subrange(0, i as int)),
            no_line_break(line@),
        decreases fields@.len() - i,
    {
        let ghost before = line@;
        line.append(",");
        proof {
            reveal_strlit(",");
            lemma_no_line_break_concat(before, ","@);
        }
        let ghost s1 = line@;
        append_quoted(&mut line, fields[i].0.as_str());
        proof {
            lemma_no_line_break_concat(s1, json_quoted_of(fields@[i as int].0@));
        }
        let ghost s2 = line@;
        line.append(":");
        proof {
            reveal_strlit(":");
            lemma_no_line_break_concat(s2, ":"@);
        }
        let ghost s3 = line@;
        append_quoted(&mut line, fields[i].1.as_str());
        proof {
            lemma_no_line_break_concat(s3, json_quoted_of(fields@[i as int].1@));
            let fv = fields_view(fields@);
            assert(fv.subrange(0, i + 1).drop_last() =~= fv.subrange(0, i as int));
            assert(line@ =~= head + fields_json(fv.subrange(0, i + 1)));
        }
        i = i + 1;
    }
    assert(fields_view(fields@).subrange(0, fields@.len() as int) =~= fields_view(fields@));
    let ghost before_close = line@;
    line.append("}");
    proof {
        lemma_no_line_break_concat(before_close, "}"@);
    }
    let ghost body = line@;
    push_char(&mut line, '\n');
    assert(line@.drop_last() =~= body);
    line
}

/// An audit record ready to be appended: the file and the line.
pub struct AuditEntry {
    pub path: String,
    pub line: String,
}

/// The opening counter after one more opening; it stays at `i64::MAX` once there.
pub open spec fn counted(open: i64) -> i64 {
    if open < i64::MAX {
        (open + 1) as i64
    } else {
        open
    }
}

/// Records an audit event at `now` (milliseconds since the epoch), with
/// `created` the RFC 3339 text of that instant: counts the opening, stamps
/// the payload, and returns the file and the line to append, which holds
/// exactly one line break, at its end.
pub fn audit_at(
    perf: &mut PerformanceStats,
    paths: &TPath,
    name: Option<&str>,
    data: &mut AuditData,
    now: i64,
    created: &str,
) -> (r: AuditEntry)
    ensures
        final(perf).open == counted(old(perf).open),
        *final(perf) == (PerformanceStats { open: final(perf).open, ..*old(perf) }),
        final(data).dtcreated == now,
        final(data).fields@ == old(data).fields@,
        r.path@ == paths.resolve_spec(DirectoryKind::Logs, Some(audit_file_name(opt_view(name)))),
        r.line@ == audit_line(
            created@,
            match name {
                Some(n) => n@,
                None => "audit"@,
            },
            fields_view(old(data).fields@),
        ),
        r.line@.len() > 0,
        r.line@.last() == '\n',
        no_line_break(r.line@.drop_last()),
{
    if perf.open < i64::MAX {
        perf.open = perf.open + 1;
    }
    data.dtcreated = now;
    let label: &str = match name {
        Some(n) => n,
        None => "audit",
    };
    let path = audit_path(paths, name);
    let line = format_audit_line(created, label, &data.fields);
    AuditEntry { path, line }
}

/// Records an audit event at the current time; see `audit_at`. Where the
/// clock cannot be read the opening is still counted, the payload is left
/// as it is, and nothing is to be appended.
pub fn audit(
    perf: &mut PerformanceStats,
    paths: &TPath,
    name: Option<&str>,
    data: &mut AuditData,
) -> (r: Result<AuditEntry, ClockUnavailable>)
    ensures
        final(perf).open == counted(old(perf).open),
        *final(perf) == (PerformanceStats { open: final(perf).open, ..*old(perf) }),
        final(data).fields@ == old(data).fields@,
        r is Err ==> final(data).dtcreated == old(data).dtcreated,
        r matches Ok(e) ==> {
            &&& e.path@ == paths.resolve_spec(DirectoryKind::Logs, Some(audit_file_name(opt_view(name))))
            &&& e.line@ == audit_line(
                iso_time_text_of(final(data).dtcreated),
                match name {
                    Some(n) => n@,
                    None => "audit"@,
                },
                fields_view(old(data).fields@),
            )
            &&& e.line@.len() > 0
            &&& e.line@.last() == '\n'
            &&& no_line_break(e.line@.drop_last())
        },
{
    match now_millis() {
        Some(now) => {
            let created = iso_time_text(now);
            Ok(audit_at(perf, paths, name, data, now, created.as_str()))
        },
        None => {
            if perf.open < i64::MAX {
                perf.open = perf.open + 1;
            }
            Err(ClockUnavailable)
        },
    }
}

} // verus!
