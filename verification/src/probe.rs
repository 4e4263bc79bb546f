//! ABI layout probing: the probe program's source, the parsing of its output, and
//! the report assembled from it. Compiling and running the probe is left to the
//! caller.
use vstd::prelude::*;

use crate::error::BicError;
use crate::ir::{BindingItem, BindingTarget, FieldBinding, RecordKind, TypeLayout};
use crate::raw_headers::{combined_source, invalid_reason, record_subject_name, search_define_flags, spec_compiler, HeaderConfig};
use crate::text::{
    char_vecs, chars_of, clone_strings, dec_str, join2, join3, str_eq, strs, strs_ref, u128_to_string, lines_of, lines_s, parse_uint_range, parse_uint_s,
    split_chars, split_s, starts_with, starts_with_s, string_of, trim_range, trim_s, trim_start_s,
    UintParse,
};

verus! {

#[derive(Debug, Clone, Copy, PartialEq, Eq, Structural)]
pub enum ProbeSubjectKind {
    Type,
    Record,
    Enum,
}

#[derive(Debug, Clone, Copy, PartialEq, Eq, Structural)]
pub enum ProbeConfidence {
    MeasuredLayout,
}

#[derive(Debug, Clone, Copy, PartialEq, Eq, Structural)]
pub enum RecordCompleteness {
    Complete,
}

#[derive(Debug, Clone, PartialEq, Eq)]
pub struct ProbeSubjectReport {
    pub name: String,
    pub kind: ProbeSubjectKind,
    pub confidence: ProbeConfidence,
    pub record_completeness: Option<RecordCompleteness>,
    pub enum_underlying_size: Option<u64>,
    pub enum_is_signed: Option<bool>,
    pub fields: Vec<ProbedFieldLayout>,
    pub layout: TypeLayout,
}

#[derive(Debug, Clone, PartialEq, Eq)]
pub struct ProbedFieldLayout {
    pub name: String,
    pub offset_bytes: Option<u64>,
    pub bit_width: Option<u64>,
}

/// Result of an ABI layout probe run.
///
/// `layouts` only holds subjects that were requested and successfully compiled and
/// run under the captured target/compiler identity.
#[derive(Debug, Clone, PartialEq, Eq)]
pub struct AbiProbeReport {
    pub target: crate::ir::BindingTarget,
    pub compiler_command: String,
    pub entry_headers: Vec<String>,
    pub subjects: Vec<ProbeSubjectReport>,
    pub layouts: Vec<TypeLayout>,
}

/// The configuration a probe runs under: that of a header scan.
pub type ProbeConfig = HeaderConfig;

/// One subject's layout as the probe printed it.
#[derive(Debug, Clone, PartialEq, Eq)]
pub struct ParsedProbeLayout {
    pub layout: TypeLayout,
    pub enum_underlying_size: Option<u64>,
    pub enum_is_signed: Option<bool>,
    pub fields: Vec<ProbedFieldLayout>,
}

/// A record field whose offset (or bit width) the probe reports.
#[derive(Debug, Clone, PartialEq, Eq)]
pub struct ProbedFieldSpec {
    pub name: String,
    pub bit_width: Option<u64>,
}

/// The confidence recorded for a subject when older reports leave it out.
pub fn default_probe_confidence() -> (r: ProbeConfidence)
    ensures
        r == ProbeConfidence::MeasuredLayout,
{
    ProbeConfidence::MeasuredLayout
}

// ---------------------------------------------------------------------------
// Subjects
// ---------------------------------------------------------------------------

/// Kind of a probe subject by its spelling: `struct `/`union ` records, `enum ` enums,
/// anything else a plain type (leading whitespace ignored).
pub open spec fn subject_kind(name: Seq<char>) -> ProbeSubjectKind {
    let t = trim_start_s(name);
    if starts_with_s(t, "struct "@) || starts_with_s(t, "union "@) {
        ProbeSubjectKind::Record
    } else if starts_with_s(t, "enum "@) {
        ProbeSubjectKind::Enum
    } else {
        ProbeSubjectKind::Type
    }
}

pub fn classify_probe_subject(subject: &str) -> (r: ProbeSubjectKind)
    ensures
        r == subject_kind(subject@),
{
    let v = chars_of(subject);
    let (lo, _hi) = trim_range(&v, 0, v.len());
    let mut t: Vec<char> = Vec::new();
    let mut i = lo;
    while i < v.len()
        invariant
            lo <= i <= v@.len(),
            t@ == v@.subrange(lo as int, i as int),
        decreases v@.len() - i,
    {
        t.push(v[i]);
        i = i + 1;
        assert(t@ =~= v@.subrange(lo as int, i as int));
    }
    assert(v@.subrange(0, v@.len() as int) =~= v@);
    if starts_with(&t, "struct ") || starts_with(&t, "union ") {
        ProbeSubjectKind::Record
    } else if starts_with(&t, "enum ") {
        ProbeSubjectKind::Enum
    } else {
        ProbeSubjectKind::Type
    }
}

/// Records are reported complete; other subjects carry no completeness.
pub fn classify_record_completeness(subject: &str) -> (r: Option<RecordCompleteness>)
    ensures
        r == (if subject_kind(subject@) == ProbeSubjectKind::Record {
            Some(RecordCompleteness::Complete)
        } else {
            None
        }),
{
    if classify_probe_subject(subject) == ProbeSubjectKind::Record {
        Some(RecordCompleteness::Complete)
    } else {
        None
    }
}

/// `s` escaped for a C string literal: backslashes doubled, quotes escaped.
pub open spec fn c_escaped(s: Seq<char>) -> Seq<char>
    decreases s.len(),
{
    if s.len() == 0 {
        seq![]
    } else {
        c_escaped(s.drop_last()) + if s.last() == '\\' {
            seq!['\\', '\\']
        } else if s.last() == '"' {
            seq!['\\', '"']
        } else {
            seq![s.last()]
        }
    }
}

pub fn c_string_literal(raw: &str) -> (r: String)
    ensures
        r@ == c_escaped(raw@),
{
    let v = chars_of(raw);
    let mut out: Vec<char> = Vec::new();
    let mut i: usize = 0;
    while i < v.len()
        invariant
            i <= v@.len(),
            out@ == c_escaped(v@.subrange(0, i as int)),
        decreases v@.len() - i,
    {
        let c = v[i];
        let ghost sub = v@.subrange(0, i + 1);
        assert(sub.drop_last() =~= v@.subrange(0, i as int));
        if c == '\\' {
            out.push('\\');
            out.push('\\');
        } else if c == '"' {
            out.push('\\');
            out.push('"');
        } else {
            out.push(c);
        }
        i = i + 1;
        assert(out@ =~= c_escaped(v@.subrange(0, i as int)));
    }
    assert(v@.subrange(0, v@.len() as int) =~= v@);
    string_of(&out)
}

// ---------------------------------------------------------------------------
// Probe output
// ---------------------------------------------------------------------------

/// A parsed field by its values: name, offset, bit width.
pub open spec fn field_view(f: ProbedFieldLayout) -> (Seq<char>, Option<u64>, Option<u64>) {
    (f.name@, f.offset_bytes, f.bit_width)
}

pub open spec fn fields_view(v: Seq<ProbedFieldLayout>) -> Seq<(Seq<char>, Option<u64>, Option<u64>)> {
    v.map_values(|f: ProbedFieldLayout| field_view(f))
}

/// A parsed layout by its values: name, size, align, enum size, enum signedness, fields.
pub open spec fn parsed_view(p: ParsedProbeLayout) -> (
    Seq<char>,
    u64,
    u64,
    Option<u64>,
    Option<bool>,
    Seq<(Seq<char>, Option<u64>, Option<u64>)>,
) {
    (
        p.layout.name@,
        p.layout.size,
        p.layout.align,
        p.enum_underlying_size,
        p.enum_is_signed,
        fields_view(p.fields@),
    )
}

pub open spec fn parsed_views(v: Seq<ParsedProbeLayout>) -> Seq<
    (Seq<char>, u64, u64, Option<u64>, Option<bool>, Seq<(Seq<char>, Option<u64>, Option<u64>)>),
> {
    v.map_values(|p: ParsedProbeLayout| parsed_view(p))
}

/// `ParseIntError`'s message for each failure of `str::parse`.
pub open spec fn int_error_text(k: UintParse) -> Seq<char> {
    match k {
        UintParse::Empty => "cannot parse integer from empty string"@,
        UintParse::InvalidDigit => "invalid digit found in string"@,
        UintParse::Overflow => "number too large to fit in target type"@,
        UintParse::Value(_) => seq![],
    }
}

/// `str::parse::<u64>`: the value, or the error's message.
pub open spec fn parse_u64_s(s: Seq<char>) -> Result<u64, Seq<char>> {
    match parse_uint_s(s, u64::MAX as int) {
        UintParse::Value(v) => Ok(v as u64),
        k => Err(int_error_text(k)),
    }
}

/// The message for a line that lacks a part.
pub open spec fn bad_line(line: Seq<char>) -> Seq<char> {
    "invalid probe output line: "@ + line
}

pub open spec fn bad_field_line(line: Seq<char>) -> Seq<char> {
    "invalid field probe output line: "@ + line
}

/// The message for a part that does not parse: `invalid {what} in probe output '{line}': {err}`.
pub open spec fn bad_value(what: Seq<char>, line: Seq<char>, err: Seq<char>) -> Seq<char> {
    "invalid "@ + what + " in probe output '"@ + line + "': "@ + err
}

/// A part of `q` that may be absent or `-`.
pub open spec fn optional_part(q: Seq<Seq<char>>, i: int) -> Option<Seq<char>> {
    if i < q.len() && q[i] != "-"@ {
        Some(q[i])
    } else {
        None
    }
}

/// A layout record from its parts `[name, size, align, enum size, enum signedness]`.
pub open spec fn record_from(line: Seq<char>, q: Seq<Seq<char>>) -> Result<
    (Seq<char>, u64, u64, Option<u64>, Option<bool>, Seq<(Seq<char>, Option<u64>, Option<u64>)>),
    Seq<char>,
> {
    if q.len() < 2 {
        Err(bad_line(line))
    } else {
        match parse_u64_s(q[1]) {
            Err(e) => Err(bad_value("size"@, line, e)),
            Ok(size) => if q.len() < 3 {
                Err(bad_line(line))
            } else {
                match parse_u64_s(q[2]) {
                    Err(e) => Err(bad_value("align"@, line, e)),
                    Ok(align) => {
                        let es: Result<Option<u64>, Seq<char>> = match optional_part(q, 3) {
                            None => Ok(None),
                            Some(v) => match parse_u64_s(v) {
                                Ok(x) => Ok(Some(x)),
                                Err(e) => Err(bad_value("enum size"@, line, e)),
                            },
                        };
                        match es {
                            Err(m) => Err(m),
                            Ok(enum_size) => match optional_part(q, 4) {
                                None => Ok((q[0], size, align, enum_size, None, seq![])),
                                Some(v) => if v == "0"@ {
                                    Ok((q[0], size, align, enum_size, Some(false), seq![]))
                                } else if v == "1"@ {
                                    Ok((q[0], size, align, enum_size, Some(true), seq![]))
                                } else {
                                    Err("invalid enum signedness in probe output '"@ + line + "': "@ + v)
                                },
                            },
                        }
                    },
                }
            },
        }
    }
}

/// Index of the last parsed layout with this name.
pub open spec fn last_named(
    es: Seq<(Seq<char>, u64, u64, Option<u64>, Option<bool>, Seq<(Seq<char>, Option<u64>, Option<u64>)>)>,
    name: Seq<char>,
) -> Option<int>
    decreases es.len(),
{
    if es.len() == 0 {
        None
    } else if es.last().0 == name {
        Some(es.len() - 1)
    } else {
        last_named(es.drop_last(), name)
    }
}

/// A field line `[subject, field, offset, bit width]` applied to the parsed layouts.
pub open spec fn field_into(
    es: Seq<(Seq<char>, u64, u64, Option<u64>, Option<bool>, Seq<(Seq<char>, Option<u64>, Option<u64>)>)>,
    line: Seq<char>,
    q: Seq<Seq<char>>,
) -> Result<
    Seq<(Seq<char>, u64, u64, Option<u64>, Option<bool>, Seq<(Seq<char>, Option<u64>, Option<u64>)>)>,
    Seq<char>,
> {
    if q.len() < 3 {
        Err(bad_field_line(line))
    } else {
        let offset: Result<Option<u64>, Seq<char>> = if q[2] == "-"@ {
            Ok(None)
        } else {
            match parse_u64_s(q[2]) {
                Ok(x) => Ok(Some(x)),
                Err(e) => Err(bad_value("field offset"@, line, e)),
            }
        };
        match offset {
            Err(m) => Err(m),
            Ok(off) => {
                let width: Result<Option<u64>, Seq<char>> = match optional_part(q, 3) {
                    None => Ok(None),
                    Some(v) => match parse_u64_s(v) {
                        Ok(x) => Ok(Some(x)),
                        Err(e) => Err(bad_value("bitfield width"@, line, e)),
                    },
                };
                match width {
                    Err(m) => Err(m),
                    Ok(w) => match last_named(es, q[0]) {
                        None => Err(
                            "field probe output '"@ + line + "' referenced unknown subject '"@ + q[0]
                                + "'"@,
                        ),
                        Some(i) => {
                            let e = es[i];
                            Ok(es.update(i, (e.0, e.1, e.2, e.3, e.4, e.5.push((q[1], off, w)))))
                        },
                    },
                }
            },
        }
    }
}

/// One non-blank line of probe output applied to the parsed layouts: `L` layout
/// lines, `F` field lines, and untagged layout lines of older probes.
pub open spec fn probe_line(
    es: Seq<(Seq<char>, u64, u64, Option<u64>, Option<bool>, Seq<(Seq<char>, Option<u64>, Option<u64>)>)>,
    line: Seq<char>,
) -> Result<
    Seq<(Seq<char>, u64, u64, Option<u64>, Option<bool>, Seq<(Seq<char>, Option<u64>, Option<u64>)>)>,
    Seq<char>,
> {
    let p = split_s(line, '\t');
    if p[0] == "L"@ {
        match record_from(line, p.drop_first()) {
            Ok(rec) => Ok(es.push(rec)),
            Err(m) => Err(m),
        }
    } else if p[0] == "F"@ {
        field_into(es, line, p.drop_first())
    } else {
        let q = if p.len() == 1 {
            seq![line, line]
        } else {
            p
        };
        match record_from(line, q) {
            Ok(rec) => Ok(es.push(rec)),
            Err(m) => Err(m),
        }
    }
}

/// The lines from index `i` on applied in order, stopping at the first error.
pub open spec fn probe_lines_from(
    lines: Seq<Seq<char>>,
    i: int,
    es: Seq<(Seq<char>, u64, u64, Option<u64>, Option<bool>, Seq<(Seq<char>, Option<u64>, Option<u64>)>)>,
) -> Result<
    Seq<(Seq<char>, u64, u64, Option<u64>, Option<bool>, Seq<(Seq<char>, Option<u64>, Option<u64>)>)>,
    Seq<char>,
>
    decreases lines.len() - i,
{
    if i < 0 || i >= lines.len() {
        Ok(es)
    } else {
        match probe_line(es, lines[i]) {
            Err(m) => Err(m),
            Ok(es2) => probe_lines_from(lines, i + 1, es2),
        }
    }
}

pub open spec fn nonblank_pred() -> spec_fn(Seq<char>) -> bool {
    |l: Seq<char>| trim_s(l).len() > 0
}

/// The probe's output parsed: its non-blank lines applied in order.
pub open spec fn spec_parse_layouts(stdout: Seq<char>) -> Result<
    Seq<(Seq<char>, u64, u64, Option<u64>, Option<bool>, Seq<(Seq<char>, Option<u64>, Option<u64>)>)>,
    Seq<char>,
> {
    probe_lines_from(lines_s(stdout).filter(nonblank_pred()), 0, seq![])
}

// ---------------------------------------------------------------------------
// Probe output parsing
// ---------------------------------------------------------------------------

fn int_error_message(k: UintParse) -> (r: String)
    requires
        !(k is Value),
    ensures
        r@ == int_error_text(k),
{
    match k {
        UintParse::Empty => "cannot parse integer from empty string".to_owned(),
        UintParse::InvalidDigit => "invalid digit found in string".to_owned(),
        UintParse::Overflow => "number too large to fit in target type".to_owned(),
        UintParse::Value(_) => String::new(),
    }
}

fn parse_u64_exec(s: &Vec<char>) -> (r: Result<u64, String>)
    ensures
        match r {
            Ok(x) => parse_u64_s(s@) == Ok::<u64, Seq<char>>(x),
            Err(m) => parse_u64_s(s@) == Err::<u64, Seq<char>>(m@),
        },
{
    let k = parse_uint_range(s, 0, s.len(), 0xffff_ffff_ffff_ffffu128);
    assert(s@.subrange(0, s@.len() as int) =~= s@);
    match k {
        UintParse::Value(v) => {
            proof {
                crate::text::lemma_parse_uint_bound(s@, u64::MAX as int);
            }
            Ok(v as u64)
        },
        _ => Err(int_error_message(k)),
    }
}

fn chars_string(v: &Vec<char>) -> (r: String)
    ensures
        r@ == v@,
{
    string_of(v)
}

fn bad_value_exec(what: &str, line: &Vec<char>, err: &String) -> (r: String)
    ensures
        r@ == bad_value(what@, line@, err@),
{
    let l = chars_string(line);
    let a = join3("invalid ", what, " in probe output '");
    let b = join3(a.as_str(), l.as_str(), "': ");
    join2(b.as_str(), err.as_str())
}

fn is_text(v: &Vec<char>, t: &str) -> (r: bool)
    ensures
        r == (v@ == t@),
{
    crate::text::chars_eq(v, &chars_of(t))
}

fn optional_part_exec(q: &Vec<Vec<char>>, i: usize) -> (r: Option<&Vec<char>>)
    ensures
        match r {
            Some(v) => optional_part(char_vecs(q@), i as int) == Some(v@),
            None => optional_part(char_vecs(q@), i as int) is None,
        },
{
    if i < q.len() && !is_text(&q[i], "-") {
        assert(char_vecs(q@)[i as int] == q@[i as int]@);
        Some(&q[i])
    } else {
        proof {
            if i < q@.len() {
                assert(char_vecs(q@)[i as int] == q@[i as int]@);
            }
        }
        None
    }
}

/// A layout record from its parts `[name, size, align, enum size, enum signedness]`.
fn record_from_exec(line: &Vec<char>, q: &Vec<Vec<char>>) -> (r: Result<ParsedProbeLayout, String>)
    ensures
        match r {
            Ok(p) => record_from(line@, char_vecs(q@)) == Ok::<_, Seq<char>>(parsed_view(p)),
            Err(m) => record_from(line@, char_vecs(q@)) matches Err(x) && x == m@,
        },
{
    let ghost qv = char_vecs(q@);
    if q.len() < 2 {
        return Err(join2("invalid probe output line: ", chars_string(line).as_str()));
    }
    assert(qv[1] == q@[1]@);
    let size = match parse_u64_exec(&q[1]) {
        Ok(x) => x,
        Err(e) => {
            return Err(bad_value_exec("size", line, &e));
        },
    };
    if q.len() < 3 {
        return Err(join2("invalid probe output line: ", chars_string(line).as_str()));
    }
    assert(qv[2] == q@[2]@);
    let align = match parse_u64_exec(&q[2]) {
        Ok(x) => x,
        Err(e) => {
            return Err(bad_value_exec("align", line, &e));
        },
    };
    let enum_underlying_size = match optional_part_exec(q, 3) {
        None => None,
        Some(v) => match parse_u64_exec(v) {
            Ok(x) => Some(x),
            Err(e) => {
                return Err(bad_value_exec("enum size", line, &e));
            },
        },
    };
    let enum_is_signed = match optional_part_exec(q, 4) {
        None => None,
        Some(v) => if is_text(v, "0") {
            Some(false)
        } else if is_text(v, "1") {
            Some(true)
        } else {
            let a = join2("invalid enum signedness in probe output '", chars_string(line).as_str());
            let b = join2(a.as_str(), "': ");
            return Err(join2(b.as_str(), chars_string(v).as_str()));
        },
    };
    assert(qv[0] == q@[0]@);
    let p = ParsedProbeLayout {
        layout: TypeLayout { name: chars_string(&q[0]), size, align },
        enum_underlying_size,
        enum_is_signed,
        fields: Vec::new(),
    };
    assert(fields_view(p.fields@) =~= seq![]);
    Ok(p)
}

/// Index of the last parsed layout with this name.
fn last_named_exec(entries: &Vec<ParsedProbeLayout>, name: &Vec<char>) -> (r: Option<usize>)
    ensures
        match r {
            Some(i) => last_named(parsed_views(entries@), name@) == Some(i as int) && i < entries@.len(),
            None => last_named(parsed_views(entries@), name@) is None,
        },
{
    let mut k = entries.len();
    assert(parsed_views(entries@).subrange(0, k as int) =~= parsed_views(entries@));
    while k > 0
        invariant
            k <= entries@.len(),
            last_named(parsed_views(entries@), name@) == last_named(parsed_views(entries@).subrange(0, k as int), name@),
        decreases k,
    {
        let ghost sub = parsed_views(entries@).subrange(0, k as int);
        assert(sub.drop_last() =~= parsed_views(entries@).subrange(0, k - 1));
        assert(sub.last() == parsed_view(entries@[k - 1]));
        let nv = chars_of(entries[k - 1].layout.name.as_str());
        if crate::text::chars_eq(&nv, name) {
            return Some(k - 1);
        }
        k = k - 1;
    }
    None
}

/// A field line `[subject, field, offset, bit width]` applied to the parsed layouts.
fn field_into_exec(entries: &mut Vec<ParsedProbeLayout>, line: &Vec<char>, q: &Vec<Vec<char>>) -> (r: Result<(), String>)
    ensures
        match field_into(parsed_views(old(entries)@), line@, char_vecs(q@)) {
            Ok(es) => r is Ok && parsed_views(final(entries)@) == es,
            Err(m) => r matches Err(x) && x@ == m,
        },
{
    let ghost qv = char_vecs(q@);
    if q.len() < 3 {
        return Err(join2("invalid field probe output line: ", chars_string(line).as_str()));
    }
    assert(qv[0] == q@[0]@ && qv[1] == q@[1]@ && qv[2] == q@[2]@);
    let offset_bytes = if is_text(&q[2], "-") {
        None
    } else {
        match parse_u64_exec(&q[2]) {
            Ok(x) => Some(x),
            Err(e) => {
                return Err(bad_value_exec("field offset", line, &e));
            },
        }
    };
    let bit_width = match optional_part_exec(q, 3) {
        None => None,
        Some(v) => match parse_u64_exec(v) {
            Ok(x) => Some(x),
            Err(e) => {
                return Err(bad_value_exec("bitfield width", line, &e));
            },
        },
    };
    let idx = match last_named_exec(entries, &q[0]) {
        Some(i) => i,
        None => {
            let a = join3("field probe output '", chars_string(line).as_str(), "' referenced unknown subject '");
            return Err(join3(a.as_str(), chars_string(&q[0]).as_str(), "'"));
        },
    };
    let ghost before = parsed_views(entries@);
    let mut entry = entries.remove(idx);
    let field = ProbedFieldLayout { name: chars_string(&q[1]), offset_bytes, bit_width };
    let ghost fields_before = fields_view(entry.fields@);
    entry.fields.push(field);
    assert(fields_view(entry.fields@) =~= fields_before.push((qv[1], offset_bytes, bit_width)));
    entries.insert(idx, entry);
    proof {
        let e = before[idx as int];
        assert(parsed_views(entries@) =~= before.update(
            idx as int,
            (e.0, e.1, e.2, e.3, e.4, e.5.push((qv[1], offset_bytes, bit_width))),
        ));
    }
    Ok(())
}

/// One non-blank line of probe output applied to the parsed layouts.
fn probe_line_exec(entries: &mut Vec<ParsedProbeLayout>, line: &Vec<char>) -> (r: Result<(), String>)
    ensures
        match probe_line(parsed_views(old(entries)@), line@) {
            Ok(es) => r is Ok && parsed_views(final(entries)@) == es,
            Err(m) => r matches Err(x) && x@ == m,
        },
{
    let parts = split_chars(line, '\t');
    proof {
        crate::text::lemma_split_len(line@, '\t');
    }
    let ghost p = split_s(line@, '\t');
    assert(char_vecs(parts@)[0] == parts@[0]@);
    let tag_l = is_text(&parts[0], "L");
    let tag_f = is_text(&parts[0], "F");
    let mut q: Vec<Vec<char>> = Vec::new();
    if tag_l || tag_f {
        let mut k: usize = 1;
        while k < parts.len()
            invariant
                1 <= k <= parts@.len(),
                char_vecs(parts@) == p,
                char_vecs(q@) == p.subrange(1, k as int),
            decreases parts@.len() - k,
        {
            assert(char_vecs(parts@)[k as int] == parts@[k as int]@);
            let ghost before = char_vecs(q@);
            q.push(crate::text::copy_chars(&parts[k]));
            assert(char_vecs(q@) =~= before.push(p[k as int]));
            k = k + 1;
            assert(char_vecs(q@) =~= p.subrange(1, k as int));
        }
        assert(p.subrange(1, p.len() as int) =~= p.drop_first());
    } else if parts.len() == 1 {
        q.push(crate::text::copy_chars(line));
        q.push(crate::text::copy_chars(line));
        assert(char_vecs(q@) =~= seq![line@, line@]);
    } else {
        let mut k: usize = 0;
        while k < parts.len()
            invariant
                k <= parts@.len(),
                char_vecs(parts@) == p,
                char_vecs(q@) == p.subrange(0, k as int),
            decreases parts@.len() - k,
        {
            assert(char_vecs(parts@)[k as int] == parts@[k as int]@);
            let ghost before = char_vecs(q@);
            q.push(crate::text::copy_chars(&parts[k]));
            assert(char_vecs(q@) =~= before.push(p[k as int]));
            k = k + 1;
            assert(char_vecs(q@) =~= p.subrange(0, k as int));
        }
        assert(p.subrange(0, p.len() as int) =~= p);
    }
    proof {
        reveal_strlit("L");
        reveal_strlit("F");
        assert(p[0] == parts@[0]@);
    }
    if tag_f {
        assert(p[0] == "F"@);
        assert(p[0] != "L"@) by {
            assert(p[0][0] != "L"@[0]);
        }
        assert(char_vecs(q@) == p.drop_first());
        field_into_exec(entries, line, &q)
    } else {
        proof {
            if tag_l {
                assert(char_vecs(q@) == p.drop_first());
            } else if parts@.len() == 1 {
                assert(char_vecs(q@) == seq![line@, line@]);
            } else {
                assert(char_vecs(q@) == p);
            }
        }
        let ghost es0 = parsed_views(entries@);
        assert(es0 == parsed_views(old(entries)@));
        match record_from_exec(line, &q) {
            Ok(rec) => {
                entries.push(rec);
                assert(parsed_views(entries@) =~= es0.push(parsed_view(rec)));
                assert(probe_line(es0, line@) == Ok::<_, Seq<char>>(es0.push(parsed_view(rec))));
                Ok(())
            },
            Err(m) => {
                assert(probe_line(es0, line@) == Err::<Seq<(Seq<char>, u64, u64, Option<u64>, Option<bool>, Seq<(Seq<char>, Option<u64>, Option<u64>)>)>, Seq<char>>(m@));
                Err(m)
            },
        }
    }
}

/// Parses the probe program's output: `L` lines give a subject's size, alignment and,
/// for enums, underlying size and signedness; `F` lines give a field's offset or bit
/// width; untagged lines are layout lines of older probes. The first malformed line
/// makes the whole output a `ProbeOutput` error.
pub fn parse_layout_output(stdout: &str) -> (r: Result<Vec<ParsedProbeLayout>, BicError>)
    ensures
        match spec_parse_layouts(stdout@) {
            Ok(es) => r matches Ok(v) && parsed_views(v@) == es,
            Err(m) => r matches Err(e) && (e matches BicError::ProbeOutput { reason } && reason@ == m),
        },
{
    let v = chars_of(stdout);
    let lines = lines_of(&v);
    let ghost ls = lines_s(stdout@);
    let mut kept: Vec<Vec<char>> = Vec::new();
    let mut i: usize = 0;
    while i < lines.len()
        invariant
            i <= lines@.len(),
            char_vecs(lines@) == ls,
            char_vecs(kept@) == ls.subrange(0, i as int).filter(nonblank_pred()),
        decreases lines@.len() - i,
    {
        let ghost sub = ls.subrange(0, i + 1);
        assert(sub.drop_last() =~= ls.subrange(0, i as int));
        assert(sub.last() == lines@[i as int]@);
        reveal_with_fuel(Seq::filter, 1);
        let l = &lines[i];
        let (lo, hi) = trim_range(l, 0, l.len());
        assert(l@.subrange(0, l@.len() as int) =~= l@);
        if lo < hi {
            let ghost before = char_vecs(kept@);
            kept.push(crate::text::copy_chars(l));
            assert(char_vecs(kept@) =~= before.push(l@));
        }
        i = i + 1;
    }
    assert(ls.subrange(0, ls.len() as int) =~= ls);
    let ghost kv = char_vecs(kept@);
    let mut entries: Vec<ParsedProbeLayout> = Vec::new();
    let mut j: usize = 0;
    assert(parsed_views(entries@) =~= seq![]);
    while j < kept.len()
        invariant
            j <= kept@.len(),
            char_vecs(kept@) == kv,
            spec_parse_layouts(stdout@) == probe_lines_from(kv, j as int, parsed_views(entries@)),
        decreases kept@.len() - j,
    {
        assert(kv[j as int] == kept@[j as int]@);
        match probe_line_exec(&mut entries, &kept[j]) {
            Ok(()) => {},
            Err(m) => {
                return Err(BicError::ProbeOutput { reason: m });
            },
        }
        j = j + 1;
    }
    Ok(entries)
}

// ---------------------------------------------------------------------------
// Probe requests
// ---------------------------------------------------------------------------

/// The compiler a probe runs: the configuration's compiler command.
pub fn compiler_command(config: &HeaderConfig) -> (r: String)
    ensures
        r@ == spec_compiler(*config),
{
    config.compiler_command()
}

/// A probe needs a valid configuration and at least one type name.
pub fn check_probe_request(config: &HeaderConfig, type_names: &[&str]) -> (r: Result<(), BicError>)
    ensures
        config.entry_headers@.len() == 0 ==> r matches Err(BicError::NoHeaders),
        config.entry_headers@.len() > 0 ==> match invalid_reason(*config) {
            Some(m) => r matches Err(BicError::InvalidConfig { reason }) && reason@ == m,
            None => if type_names@.len() == 0 {
                r matches Err(BicError::NoProbeTypes)
            } else {
                r is Ok
            },
        },
{
    match config.validate() {
        Ok(()) => {},
        Err(e) => {
            return Err(e);
        },
    }
    if type_names.len() == 0 {
        return Err(BicError::NoProbeTypes);
    }
    Ok(())
}

/// The arguments that compile the probe program: `-std=c11`, the configuration's
/// search and define flags, the source, `-o` and the executable.
pub fn probe_compile_args(config: &HeaderConfig, source_path: &str, exe_path: &str) -> (r: Vec<String>)
    ensures
        strs(r@) == seq!["-std=c11"@] + search_define_flags(config.include_dirs@, config.defines@) + seq![
            source_path@,
            "-o"@,
            exe_path@,
        ],
{
    let mut args: Vec<String> = Vec::new();
    args.push("-std=c11".to_owned());
    let flags = config.search_and_define_flags();
    let ghost a0 = args@;
    let mut i: usize = 0;
    while i < flags.len()
        invariant
            i <= flags@.len(),
            strs(args@) == strs(a0) + strs(flags@).subrange(0, i as int),
        decreases flags@.len() - i,
    {
        let ghost before = args@;
        args.push(flags[i].clone());
        assert(strs(args@) =~= strs(before).push(strs(flags@)[i as int]));
        assert(strs(flags@).subrange(0, i + 1) =~= strs(flags@).subrange(0, i as int).push(strs(flags@)[i as int]));
        i = i + 1;
    }
    let ghost mid = args@;
    args.push(source_path.to_owned());
    args.push("-o".to_owned());
    args.push(exe_path.to_owned());
    proof {
        assert(strs(flags@).subrange(0, i as int) =~= strs(flags@));
        assert(strs(a0) =~= seq!["-std=c11"@]);
        assert(strs(args@) =~= strs(mid) + seq![source_path@, "-o"@, exe_path@]);
    }
    args
}

/// A field request by its values: name and bit width.
pub open spec fn spec_view(f: ProbedFieldSpec) -> (Seq<char>, Option<u64>) {
    (f.name@, f.bit_width)
}

pub open spec fn spec_views(v: Seq<ProbedFieldSpec>) -> Seq<(Seq<char>, Option<u64>)> {
    v.map_values(|f: ProbedFieldSpec| spec_view(f))
}

/// The named fields of a record, with their bit widths, in order.
pub open spec fn named_fields(fs: Seq<FieldBinding>) -> Seq<(Seq<char>, Option<u64>)>
    decreases fs.len(),
{
    if fs.len() == 0 {
        seq![]
    } else {
        named_fields(fs.drop_last()) + match fs.last().name {
            Some(n) => seq![(n@, fs.last().bit_width)],
            None => seq![],
        }
    }
}

/// The field request a record contributes: its subject name and named fields, when it
/// is named and has at least one named field.
pub open spec fn record_request(item: BindingItem) -> Option<(Seq<char>, Seq<(Seq<char>, Option<u64>)>)> {
    match item {
        BindingItem::Record(r) => match (r.name, r.fields) {
            (Some(n), Some(fs)) => if named_fields(fs@).len() > 0 {
                Some((record_subject_name(r.kind, n@), named_fields(fs@)))
            } else {
                None
            },
            _ => None,
        },
        _ => None,
    }
}

/// The fields requested for a subject: those of the last record that names it.
pub open spec fn requested_fields(items: Seq<BindingItem>, key: Seq<char>) -> Option<Seq<(Seq<char>, Option<u64>)>>
    decreases items.len(),
{
    if items.len() == 0 {
        None
    } else {
        match record_request(items.last()) {
            Some(p) => if p.0 == key {
                Some(p.1)
            } else {
                requested_fields(items.drop_last(), key)
            },
            None => requested_fields(items.drop_last(), key),
        }
    }
}

/// The fields a table holds for a subject (its last entry for that subject).
pub open spec fn table_fields(t: Seq<(String, Vec<ProbedFieldSpec>)>, key: Seq<char>) -> Option<Seq<(Seq<char>, Option<u64>)>>
    decreases t.len(),
{
    if t.len() == 0 {
        None
    } else if t.last().0@ == key {
        Some(spec_views(t.last().1@))
    } else {
        table_fields(t.drop_last(), key)
    }
}

/// No subject occurs twice in a table.
pub open spec fn unique_keys(t: Seq<(String, Vec<ProbedFieldSpec>)>) -> bool {
    forall|i: int, j: int| 0 <= i < j < t.len() ==> (#[trigger] t[i]).0@ != (#[trigger] t[j]).0@
}

proof fn lemma_table_update(t: Seq<(String, Vec<ProbedFieldSpec>)>, idx: int, e: (String, Vec<ProbedFieldSpec>), key: Seq<char>)
    requires
        unique_keys(t),
        0 <= idx < t.len(),
        t[idx].0@ == e.0@,
    ensures
        table_fields(t.update(idx, e), key) == if key == e.0@ {
            Some(spec_views(e.1@))
        } else {
            table_fields(t, key)
        },
        unique_keys(t.update(idx, e)),
    decreases t.len(),
{
    let u = t.update(idx, e);
    assert forall|i: int, j: int| 0 <= i < j < u.len() implies (#[trigger] u[i]).0@ != (#[trigger] u[j]).0@ by {
        assert(t[i].0@ != t[j].0@);
    }
    if idx == t.len() - 1 {
        assert(u.drop_last() =~= t.drop_last());
        if key != e.0@ && t.last().0@ != key {
        }
    } else {
        assert(u.drop_last() =~= t.drop_last().update(idx, e));
        assert(u.last() == t.last());
        assert(t[idx].0@ != t[t.len() - 1].0@);
        assert forall|i: int, j: int| 0 <= i < j < t.drop_last().len() implies (#[trigger] t.drop_last()[i]).0@ != (#[trigger] t.drop_last()[j]).0@ by {
            assert(t.drop_last()[i] == t[i]);
            assert(t.drop_last()[j] == t[j]);
        }
        lemma_table_update(t.drop_last(), idx, e, key);
    }
}

/// The named fields of `fields`, as probe requests.
fn field_requests(fields: &Vec<FieldBinding>) -> (r: Vec<ProbedFieldSpec>)
    ensures
        spec_views(r@) == named_fields(fields@),
{
    let mut r: Vec<ProbedFieldSpec> = Vec::new();
    let mut i: usize = 0;
    assert(spec_views(r@) =~= named_fields(fields@.subrange(0, 0)));
    while i < fields.len()
        invariant
            i <= fields@.len(),
            spec_views(r@) == named_fields(fields@.subrange(0, i as int)),
        decreases fields@.len() - i,
    {
        let ghost before = r@;
        let ghost sub = fields@.subrange(0, i + 1);
        assert(sub.drop_last() =~= fields@.subrange(0, i as int));
        assert(sub.last() == fields@[i as int]);
        match &fields[i].name {
            Some(n) => {
                r.push(ProbedFieldSpec { name: n.clone(), bit_width: fields[i].bit_width });
                assert(spec_views(r@) =~= spec_views(before).push((n@, fields@[i as int].bit_width)));
            },
            None => {
                assert(spec_views(r@) =~= spec_views(before) + seq![]);
            },
        }
        i = i + 1;
    }
    assert(fields@.subrange(0, fields@.len() as int) =~= fields@);
    r
}

/// The entry for a subject in a table, if there is one.
fn table_index(t: &Vec<(String, Vec<ProbedFieldSpec>)>, key: &str) -> (r: Option<usize>)
    ensures
        match r {
            Some(i) => i < t@.len() && t@[i as int].0@ == key@,
            None => forall|i: int| 0 <= i < t@.len() ==> (#[trigger] t@[i]).0@ != key@,
        },
{
    let mut i: usize = 0;
    while i < t.len()
        invariant
            i <= t@.len(),
            forall|k: int| 0 <= k < i ==> (#[trigger] t@[k]).0@ != key@,
        decreases t@.len() - i,
    {
        if str_eq(t[i].0.as_str(), key) {
            return Some(i);
        }
        i = i + 1;
    }
    None
}

/// For each record subject, the named fields to probe: each named record with at
/// least one named field contributes `struct NAME` / `union NAME` and those fields;
/// a later record of the same subject replaces an earlier one.
pub fn record_field_specs(items: &Vec<BindingItem>) -> (r: Vec<(String, Vec<ProbedFieldSpec>)>)
    ensures
        unique_keys(r@),
        forall|key: Seq<char>| #[trigger] table_fields(r@, key) == requested_fields(items@, key),
{
    let mut table: Vec<(String, Vec<ProbedFieldSpec>)> = Vec::new();
    let mut i: usize = 0;
    proof {
        assert forall|key: Seq<char>| #[trigger] table_fields(table@, key) == requested_fields(items@.subrange(0, 0), key) by {}
    }
    while i < items.len()
        invariant
            i <= items@.len(),
            unique_keys(table@),
            forall|key: Seq<char>| #[trigger] table_fields(table@, key) == requested_fields(items@.subrange(0, i as int), key),
        decreases items@.len() - i,
    {
        let ghost sub = items@.subrange(0, i + 1);
        let ghost prev = items@.subrange(0, i as int);
        let ghost before = table@;
        assert(sub.drop_last() =~= prev);
        assert(sub.last() == items@[i as int]);
        let entry = match &items[i] {
            BindingItem::Record(record) => match (&record.name, &record.fields) {
                (Some(n), Some(fs)) => {
                    let specs = field_requests(fs);
                    if specs.len() > 0 {
                        let key = match record.kind {
                            RecordKind::Struct => join2("struct ", n.as_str()),
                            RecordKind::Union => join2("union ", n.as_str()),
                        };
                        Some((key, specs))
                    } else {
                        None
                    }
                },
                _ => None,
            },
            _ => None,
        };
        match entry {
            Some(e) => {
                let ghost ge = e;
                assert(record_request(items@[i as int]) == Some((ge.0@, spec_views(ge.1@))));
                match table_index(&table, e.0.as_str()) {
                    Some(idx) => {
                        proof {
                            assert forall|key: Seq<char>| #[trigger] table_fields(before.update(idx as int, ge), key) == requested_fields(sub, key) by {
                                lemma_table_update(before, idx as int, ge, key);
                            }
                            lemma_table_update(before, idx as int, ge, seq![]);
                        }
                        table.set(idx, e);
                    },
                    None => {
                        table.push(e);
                        proof {
                            assert(table@.drop_last() =~= before);
                            assert(table@.last() == ge);
                            assert forall|key: Seq<char>| #[trigger] table_fields(table@, key) == requested_fields(sub, key) by {
                                assert(table_fields(before, key) == requested_fields(prev, key));
                            }
                            assert forall|a: int, b: int| 0 <= a < b < table@.len() implies (#[trigger] table@[a]).0@ != (#[trigger] table@[b]).0@ by {
                                if b < before.len() {
                                    assert(before[a].0@ != before[b].0@);
                                } else {
                                    assert(table@[a] == before[a]);
                                }
                            }
                        }
                    },
                }
            },
            None => {
                assert(record_request(items@[i as int]) is None);
                assert forall|key: Seq<char>| #[trigger] table_fields(table@, key) == requested_fields(sub, key) by {
                    assert(table_fields(before, key) == requested_fields(prev, key));
                }
            },
        }
        i = i + 1;
    }
    assert(items@.subrange(0, items@.len() as int) =~= items@);
    table
}

// ---------------------------------------------------------------------------
// Probe program
// ---------------------------------------------------------------------------

/// The line that prints a subject's layout: name, size and alignment, and for an enum
/// also its size and whether it is signed (`-` for the others).
pub open spec fn layout_line(raw: Seq<char>) -> Seq<char> {
    let lit = c_escaped(raw);
    if subject_kind(raw) == ProbeSubjectKind::Enum {
        "    printf(\"L\\t%s\\t%zu\\t%zu\\t%zu\\t%d\\n\", \""@ + lit + "\", sizeof("@ + raw + "), _Alignof("@
            + raw + "), sizeof("@ + raw + "), (("@ + raw + ")-1) < (("@ + raw + ")0) ? 1 : 0);\n"@
    } else {
        "    printf(\"L\\t%s\\t%zu\\t%zu\\t%s\\t%s\\n\", \""@ + lit + "\", sizeof("@ + raw + "), _Alignof("@
            + raw + "), \"-\", \"-\");\n"@
    }
}

/// The line that prints one requested field: its bit width for a bitfield, else its
/// offset.
pub open spec fn field_line(raw: Seq<char>, f: (Seq<char>, Option<u64>)) -> Seq<char> {
    let lit = c_escaped(raw);
    let flit = c_escaped(f.0);
    match f.1 {
        Some(w) => "    printf(\"F\\t%s\\t%s\\t-\\t%zu\\n\", \""@ + lit + "\", \""@ + flit + "\", (size_t)"@
            + dec_str(w as nat) + ");\n"@,
        None => "    printf(\"F\\t%s\\t%s\\t%zu\\t-\\n\", \""@ + lit + "\", \""@ + flit + "\", offsetof("@
            + raw + ", "@ + f.0 + "));\n"@,
    }
}

pub open spec fn field_lines(raw: Seq<char>, fs: Seq<(Seq<char>, Option<u64>)>) -> Seq<char>
    decreases fs.len(),
{
    if fs.len() == 0 {
        seq![]
    } else {
        field_lines(raw, fs.drop_last()) + field_line(raw, fs.last())
    }
}

/// The lines of one subject: its layout line, then a line per requested field.
pub open spec fn subject_lines(raw: Seq<char>, table: Seq<(String, Vec<ProbedFieldSpec>)>) -> Seq<char> {
    layout_line(raw) + match table_fields(table, raw) {
        Some(fs) => field_lines(raw, fs),
        None => seq![],
    }
}

pub open spec fn subjects_lines(names: Seq<Seq<char>>, table: Seq<(String, Vec<ProbedFieldSpec>)>) -> Seq<char>
    decreases names.len(),
{
    if names.len() == 0 {
        seq![]
    } else {
        subjects_lines(names.drop_last(), table) + subject_lines(names.last(), table)
    }
}

/// The probe program: the standard headers, the entry headers, and a `main` that
/// prints the lines of each subject in order.
pub open spec fn probe_source(headers: Seq<Seq<char>>, names: Seq<Seq<char>>, table: Seq<(String, Vec<ProbedFieldSpec>)>) -> Seq<char> {
    "#include <stdio.h>\n#include <stddef.h>\n"@ + combined_source(headers) + "\nint main(void) {\n"@
        + subjects_lines(names, table) + "    return 0;\n}\n"@
}

/// The fields a table holds for a subject.
fn find_table_fields<'a>(t: &'a Vec<(String, Vec<ProbedFieldSpec>)>, key: &str) -> (r: Option<&'a Vec<ProbedFieldSpec>>)
    ensures
        match r {
            Some(v) => table_fields(t@, key@) == Some(spec_views(v@)),
            None => table_fields(t@, key@) is None,
        },
{
    let mut k = t.len();
    assert(t@.subrange(0, k as int) =~= t@);
    while k > 0
        invariant
            k <= t@.len(),
            table_fields(t@, key@) == table_fields(t@.subrange(0, k as int), key@),
        decreases k,
    {
        let ghost sub = t@.subrange(0, k as int);
        assert(sub.drop_last() =~= t@.subrange(0, k - 1));
        assert(sub.last() == t@[k - 1]);
        if str_eq(t[k - 1].0.as_str(), key) {
            return Some(&t[k - 1].1);
        }
        k = k - 1;
    }
    None
}

fn layout_line_exec(raw: &str) -> (r: String)
    ensures
        r@ == layout_line(raw@),
{
    let lit = c_string_literal(raw);
    if classify_probe_subject(raw) == ProbeSubjectKind::Enum {
        let mut line = "    printf(\"L\\t%s\\t%zu\\t%zu\\t%zu\\t%d\\n\", \"".to_owned();
        line.append(lit.as_str());
        line.append("\", sizeof(");
        line.append(raw);
        line.append("), _Alignof(");
        line.append(raw);
        line.append("), sizeof(");
        line.append(raw);
        line.append("), ((");
        line.append(raw);
        line.append(")-1) < ((");
        line.append(raw);
        line.append(")0) ? 1 : 0);\n");
        line
    } else {
        let mut line = "    printf(\"L\\t%s\\t%zu\\t%zu\\t%s\\t%s\\n\", \"".to_owned();
        line.append(lit.as_str());
        line.append("\", sizeof(");
        line.append(raw);
        line.append("), _Alignof(");
        line.append(raw);
        line.append("), \"-\", \"-\");\n");
        line
    }
}

fn field_line_exec(raw: &str, f: &ProbedFieldSpec) -> (r: String)
    ensures
        r@ == field_line(raw@, spec_view(*f)),
{
    let lit = c_string_literal(raw);
    let flit = c_string_literal(f.name.as_str());
    match f.bit_width {
        Some(w) => {
            let width = u128_to_string(w as u128);
            let mut line = "    printf(\"F\\t%s\\t%s\\t-\\t%zu\\n\", \"".to_owned();
            line.append(lit.as_str());
            line.append("\", \"");
            line.append(flit.as_str());
            line.append("\", (size_t)");
            line.append(width.as_str());
            line.append(");\n");
            line
        },
        None => {
            let mut line = "    printf(\"F\\t%s\\t%s\\t%zu\\t-\\n\", \"".to_owned();
            line.append(lit.as_str());
            line.append("\", \"");
            line.append(flit.as_str());
            line.append("\", offsetof(");
            line.append(raw);
            line.append(", ");
            line.append(f.name.as_str());
            line.append("));\n");
            line
        },
    }
}

fn subject_lines_exec(raw: &str, field_specs: &Vec<(String, Vec<ProbedFieldSpec>)>) -> (r: String)
    ensures
        r@ == subject_lines(raw@, field_specs@),
{
    let mut out = layout_line_exec(raw);
    let ghost head = out@;
    match find_table_fields(field_specs, raw) {
        Some(fields) => {
            let ghost fs = spec_views(fields@);
            let mut i: usize = 0;
            assert(fs.subrange(0, 0) =~= seq![]);
            assert(out@ =~= head + field_lines(raw@, fs.subrange(0, 0)));
            while i < fields.len()
                invariant
                    i <= fields@.len(),
                    fs == spec_views(fields@),
                    out@ == head + field_lines(raw@, fs.subrange(0, i as int)),
                decreases fields@.len() - i,
            {
                let ghost prev = out@;
                let line = field_line_exec(raw, &fields[i]);
                out.append(line.as_str());
                proof {
                    let sub = fs.subrange(0, i + 1);
                    assert(sub.drop_last() =~= fs.subrange(0, i as int));
                    assert(sub.last() == spec_view(fields@[i as int]));
                    assert(out@ =~= head + field_lines(raw@, sub));
                }
                i = i + 1;
            }
            assert(fs.subrange(0, i as int) =~= fs);
        },
        None => {
            assert(out@ =~= head + seq![]);
        },
    }
    out
}

/// The source of the probe program for these subjects, with the fields requested for
/// each in `field_specs`.
pub fn build_probe_source(config: &HeaderConfig, type_names: &[&str], field_specs: &Vec<(String, Vec<ProbedFieldSpec>)>) -> (r: String)
    ensures
        r@ == probe_source(strs(config.entry_headers@), strs_ref(type_names@), field_specs@),
{
    let mut source = "#include <stdio.h>\n#include <stddef.h>\n".to_owned();
    let includes = config.build_combined_source();
    source.append(includes.as_str());
    source.append("\nint main(void) {\n");
    let ghost head = source@;
    let ghost names = strs_ref(type_names@);
    let mut i: usize = 0;
    assert(source@ =~= head + subjects_lines(names.subrange(0, 0), field_specs@));
    while i < type_names.len()
        invariant
            i <= type_names@.len(),
            names == strs_ref(type_names@),
            source@ == head + subjects_lines(names.subrange(0, i as int), field_specs@),
        decreases type_names@.len() - i,
    {
        let lines = subject_lines_exec(type_names[i], field_specs);
        source.append(lines.as_str());
        proof {
            let sub = names.subrange(0, i + 1);
            assert(sub.drop_last() =~= names.subrange(0, i as int));
            assert(sub.last() == type_names@[i as int]@);
            assert(source@ =~= head + subjects_lines(sub, field_specs@));
        }
        i = i + 1;
    }
    assert(names.subrange(0, i as int) =~= names);
    source.append("    return 0;\n}\n");
    source
}

// ---------------------------------------------------------------------------
// Probe report
// ---------------------------------------------------------------------------

/// A layout by its values: name, size, align.
pub open spec fn layout_view(l: TypeLayout) -> (Seq<char>, u64, u64) {
    (l.name@, l.size, l.align)
}

/// The report of one subject, from its requested name and its parsed layout.
pub open spec fn subject_of(
    s: ProbeSubjectReport,
    name: Seq<char>,
    e: (Seq<char>, u64, u64, Option<u64>, Option<bool>, Seq<(Seq<char>, Option<u64>, Option<u64>)>),
) -> bool {
    &&& s.name@ == name
    &&& s.kind == subject_kind(name)
    &&& s.confidence == ProbeConfidence::MeasuredLayout
    &&& s.record_completeness == (if subject_kind(name) == ProbeSubjectKind::Record {
        Some(RecordCompleteness::Complete)
    } else {
        None
    })
    &&& s.enum_underlying_size == e.3
    &&& s.enum_is_signed == e.4
    &&& fields_view(s.fields@) == e.5
    &&& layout_view(s.layout) == (e.0, e.1, e.2)
}

/// A probe report for these subjects from these parsed layouts: every layout, and a
/// subject for each requested name paired in order with a layout.
pub open spec fn report_of(
    r: AbiProbeReport,
    config: HeaderConfig,
    names: Seq<Seq<char>>,
    es: Seq<(Seq<char>, u64, u64, Option<u64>, Option<bool>, Seq<(Seq<char>, Option<u64>, Option<u64>)>)>,
    target: BindingTarget,
) -> bool {
    &&& r.target == target
    &&& r.compiler_command@ == spec_compiler(config)
    &&& r.entry_headers@ == config.entry_headers@
    &&& r.layouts@.len() == es.len()
    &&& forall|i: int| 0 <= i < es.len() ==> layout_view(#[trigger] r.layouts@[i]) == (es[i].0, es[i].1, es[i].2)
    &&& r.subjects@.len() == (if names.len() < es.len() { names.len() } else { es.len() })
    &&& forall|i: int| 0 <= i < r.subjects@.len() ==> subject_of(#[trigger] r.subjects@[i], names[i], es[i])
}

fn copy_layout(l: &TypeLayout) -> (r: TypeLayout)
    ensures
        r == *l,
{
    TypeLayout { name: l.name.clone(), size: l.size, align: l.align }
}

fn copy_probed_fields(v: &Vec<ProbedFieldLayout>) -> (r: Vec<ProbedFieldLayout>)
    ensures
        r@ == v@,
{
    let mut r: Vec<ProbedFieldLayout> = Vec::new();
    let mut i: usize = 0;
    while i < v.len()
        invariant
            i <= v@.len(),
            r@ == v@.subrange(0, i as int),
        decreases v@.len() - i,
    {
        let f = &v[i];
        r.push(ProbedFieldLayout { name: f.name.clone(), offset_bytes: f.offset_bytes, bit_width: f.bit_width });
        assert(r@ =~= v@.subrange(0, i + 1));
        i = i + 1;
    }
    assert(v@.subrange(0, v@.len() as int) =~= v@);
    r
}

/// The report of a probe run: its target, the compiler, the entry headers, every
/// parsed layout, and a subject for each requested name paired with a parsed layout.
pub fn report_from_parsed(
    config: &HeaderConfig,
    type_names: &[&str],
    parsed: &Vec<ParsedProbeLayout>,
    target: BindingTarget,
) -> (r: AbiProbeReport)
    ensures
        report_of(r, *config, strs_ref(type_names@), parsed_views(parsed@), target),
{
    let ghost es = parsed_views(parsed@);
    let mut layouts: Vec<TypeLayout> = Vec::new();
    let mut i: usize = 0;
    while i < parsed.len()
        invariant
            i <= parsed@.len(),
            es == parsed_views(parsed@),
            layouts@.len() == i,
            forall|k: int| 0 <= k < i ==> layout_view(#[trigger] layouts@[k]) == (es[k].0, es[k].1, es[k].2),
        decreases parsed@.len() - i,
    {
        layouts.push(copy_layout(&parsed[i].layout));
        i = i + 1;
    }
    let mut subjects: Vec<ProbeSubjectReport> = Vec::new();
    let mut j: usize = 0;
    while j < type_names.len() && j < parsed.len()
        invariant
            j <= type_names@.len(),
            j <= parsed@.len(),
            es == parsed_views(parsed@),
            subjects@.len() == j,
            forall|k: int| 0 <= k < j ==> subject_of(#[trigger] subjects@[k], type_names@[k]@, es[k]),
        decreases parsed@.len() - j,
    {
        let name = type_names[j];
        let p = &parsed[j];
        subjects.push(ProbeSubjectReport {
            name: name.to_owned(),
            kind: classify_probe_subject(name),
            confidence: ProbeConfidence::MeasuredLayout,
            record_completeness: classify_record_completeness(name),
            enum_underlying_size: p.enum_underlying_size,
            enum_is_signed: p.enum_is_signed,
            fields: copy_probed_fields(&p.fields),
            layout: copy_layout(&p.layout),
        });
        j = j + 1;
    }
    AbiProbeReport {
        target,
        compiler_command: compiler_command(config),
        entry_headers: clone_strings(&config.entry_headers),
        subjects,
        layouts,
    }
}

/// The report of a probe whose program printed `stdout`: the parsed layouts, or the
/// `ProbeOutput` error of the first malformed line.
pub fn probe_report_from_output(
    config: &HeaderConfig,
    type_names: &[&str],
    stdout: &str,
    target: BindingTarget,
) -> (r: Result<AbiProbeReport, BicError>)
    ensures
        match spec_parse_layouts(stdout@) {
            Ok(es) => r matches Ok(rep) && report_of(rep, *config, strs_ref(type_names@), es, target),
            Err(m) => r matches Err(e) && (e matches BicError::ProbeOutput { reason } && reason@ == m),
        },
{
    match parse_layout_output(stdout) {
        Ok(parsed) => Ok(report_from_parsed(config, type_names, &parsed, target)),
        Err(e) => Err(e),
    }
}

} // verus!
