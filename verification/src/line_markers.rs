//! Preprocessor line markers: which file, and which kind of file, each byte of a
//! preprocessed translation unit came from.
use vstd::prelude::*;

use crate::text::{
    byte_len, chars_eq, chars_of, copy_str, find_char_from, find_char_s, find_from,
    is_whitespace, is_ws, lemma_find_from_shift, lemma_find_from_some, occurs_at,
    parse_uint_range, parse_uint_s, lemma_parse_uint_bound, split_s, starts_with_s, string_of_range, strs, trim_range,
    trim_s, utf8_len, UintParse, strs_ref, char_vecs, split_chars, copy_chars,
};

verus! {

/// Classification of where a declaration originated.
#[derive(Debug, Clone, Copy, PartialEq, Eq, Structural)]
pub enum SourceOrigin {
    /// From one of the user's entry headers
    Entry,
    /// Included from entry headers but not a system header
    UserInclude,
    /// System header (flag 3 in preprocessor line markers)
    System,
    /// Origin could not be determined
    Unknown,
}

/// File/line/column location derived from preprocessor line markers.
#[derive(Debug, Clone, PartialEq, Eq)]
pub struct SourceLocation {
    pub file: String,
    pub line: Option<usize>,
    pub column: Option<usize>,
}

/// Controls which declarations to keep based on origin.
#[derive(Debug, Clone, Copy)]
pub struct OriginFilter {
    pub include_entry: bool,
    pub include_user: bool,
    pub include_system: bool,
}

impl Default for OriginFilter {
    fn default() -> (r: Self)
        ensures
            r.include_entry && r.include_user && !r.include_system,
    {
        OriginFilter { include_entry: true, include_user: true, include_system: false }
    }
}

pub open spec fn spec_accepts(f: OriginFilter, origin: SourceOrigin) -> bool {
    match origin {
        SourceOrigin::Entry => f.include_entry,
        SourceOrigin::UserInclude => f.include_user,
        SourceOrigin::System => f.include_system,
        SourceOrigin::Unknown => true,
    }
}

impl OriginFilter {
    /// Whether declarations of this origin are kept; unknown origins always are.
    pub fn accepts(&self, origin: &SourceOrigin) -> (r: bool)
        ensures
            r == spec_accepts(*self, *origin),
    {
        match origin {
            SourceOrigin::Entry => self.include_entry,
            SourceOrigin::UserInclude => self.include_user,
            SourceOrigin::System => self.include_system,
            SourceOrigin::Unknown => true,
        }
    }
}

/// A parsed line marker: file, system flag, line number.
#[derive(Debug, Clone, PartialEq, Eq)]
pub struct LineMarker {
    pub file: String,
    pub is_system: bool,
    pub line_num: usize,
}

/// `s[a..b]` is a maximal run of non-whitespace characters.
pub open spec fn is_token(s: Seq<char>, a: int, b: int) -> bool {
    &&& 0 <= a < b <= s.len()
    &&& forall|k: int| a <= k < b ==> !is_ws(#[trigger] s[k])
    &&& (a == 0 || is_ws(s[a - 1]))
    &&& (b == s.len() || is_ws(s[b]))
}

/// Some whitespace-separated flag parses (as a `u8`) to 3.
pub open spec fn has_system_flag(s: Seq<char>) -> bool {
    exists|a: int, b: int|
        #![trigger is_token(s, a, b)]
        is_token(s, a, b) && parse_uint_s(s.subrange(a, b), 255) == UintParse::Value(3)
}

/// A line marker `# <line> "<file>" [flags]`, as (file, is_system, line).
pub open spec fn spec_parse_marker(line: Seq<char>) -> Option<(Seq<char>, bool, nat)> {
    let t = trim_s(line);
    if !starts_with_s(t, seq!['#', ' ']) {
        None
    } else {
        let rest = t.subrange(2, t.len() as int);
        match find_char_s(rest, ' ') {
            None => None,
            Some(sp) => match parse_uint_s(rest.subrange(0, sp), usize::MAX as int) {
                UintParse::Value(n) => {
                    let after = rest.subrange(sp + 1, rest.len() as int);
                    if !(after.len() > 0 && after[0] == '"') {
                        None
                    } else {
                        let quoted = after.subrange(1, after.len() as int);
                        match find_char_s(quoted, '"') {
                            None => None,
                            Some(q) => Some(
                                (
                                    quoted.subrange(0, q),
                                    has_system_flag(quoted.subrange(q + 1, quoted.len() as int)),
                                    n as nat,
                                ),
                            ),
                        }
                    }
                },
                _ => None,
            },
        }
    }
}

/// A marker written as `# <n> "<file>"<flags>` reads back as its file, the decimal
/// value of `n` as line number, and whether the flags hold the system-header flag `3`.
pub proof fn lemma_line_marker_reads_back(n: Seq<char>, file: Seq<char>, flags: Seq<char>)
    requires
        n.len() > 0,
        crate::text::all_digits(n),
        crate::text::dec_value(n) <= usize::MAX,
        !file.contains('"'),
        flags.len() == 0 || !is_ws(flags.last()),
    ensures
        spec_parse_marker(seq!['#', ' '] + n + seq![' ', '"'] + file + seq!['"'] + flags) == Some(
            (file, has_system_flag(flags), crate::text::dec_value(n) as nat),
        ),
{
    let line = seq!['#', ' '] + n + seq![' ', '"'] + file + seq!['"'] + flags;
    assert(line[0] == '#');
    if flags.len() > 0 {
        assert(line.last() == flags.last());
    } else {
        assert(line.last() == '"');
    }
    crate::text::lemma_trim_unchanged(line);
    assert(line.subrange(0, 2) =~= seq!['#', ' ']);
    let rest = line.subrange(2, line.len() as int);
    assert(rest =~= n + seq![' ', '"'] + file + seq!['"'] + flags);
    assert forall|k: int| 0 <= k < n.len() implies rest[k] != ' ' by {
        assert(rest[k] == n[k]);
        assert(crate::text::is_digit(n[k]));
    }
    assert(rest[n.len() as int] == ' ');
    crate::text::lemma_find_char_scan(rest, ' ', n.len() as int);
    assert(rest.subrange(0, n.len() as int) =~= n);
    crate::text::lemma_parse_uint_digits(n, usize::MAX as int);
    let after = rest.subrange(n.len() as int + 1, rest.len() as int);
    assert(after =~= seq!['"'] + file + seq!['"'] + flags);
    let quoted = after.subrange(1, after.len() as int);
    assert(quoted =~= file + seq!['"'] + flags);
    assert forall|k: int| 0 <= k < file.len() implies quoted[k] != '"' by {
        assert(quoted[k] == file[k]);
    }
    assert(quoted[file.len() as int] == '"');
    crate::text::lemma_find_char_scan(quoted, '"', file.len() as int);
    assert(quoted.subrange(0, file.len() as int) =~= file);
    assert(quoted.subrange(file.len() as int + 1, quoted.len() as int) =~= flags);
}

/// Markers of `s` with their byte offsets, `off` being the byte offset of `s[0]`.
pub open spec fn markers_from(s: Seq<char>, off: int) -> Seq<(int, Seq<char>, bool, nat)>
    decreases s.len(),
{
    let f = find_char_s(s, '\n');
    let line = if f is Some && 0 <= f->0 < s.len() {
        s.subrange(0, f->0)
    } else {
        s
    };
    let head = match spec_parse_marker(line) {
        Some(m) => seq![(off, m.0, m.1, m.2)],
        None => Seq::empty(),
    };
    if f is Some && 0 <= f->0 < s.len() {
        head + markers_from(s.subrange(f->0 + 1, s.len() as int), off + byte_len(line) + 1)
    } else {
        head
    }
}

/// Components of a Unix path as `std::path::Path::components` yields them; the
/// root is `"/"` and a leading current-directory marker is `"."`.
pub open spec fn path_components(p: Seq<char>) -> Seq<Seq<char>> {
    let segs = split_s(p, '/');
    if p.len() > 0 && p[0] == '/' {
        seq![seq!['/']] + segs.drop_first().filter(normal_pred())
    } else if segs[0] == seq!['.'] {
        seq![seq!['.']] + segs.drop_first().filter(normal_pred())
    } else {
        segs.filter(normal_pred())
    }
}

/// A component that `Path::components` keeps after the first: non-empty and not `"."`.
pub open spec fn normal_comp(x: Seq<char>) -> bool {
    x.len() > 0 && x != seq!['.']
}

pub open spec fn normal_pred() -> spec_fn(Seq<char>) -> bool {
    |x: Seq<char>| normal_comp(x)
}

/// `Path::ends_with`: the components of `needle` end those of `haystack`.
pub open spec fn spec_path_ends_with(haystack: Seq<char>, needle: Seq<char>) -> bool {
    path_components(needle).is_suffix_of(path_components(haystack))
}

pub open spec fn matches_entry(e: Seq<char>, f: Seq<char>) -> bool {
    e == f || spec_path_ends_with(f, e) || spec_path_ends_with(e, f)
}

/// Tracks which file is active at each byte range in preprocessed source.
#[derive(Debug)]
pub struct FileOriginMap {
    /// Sorted by byte offset: (start offset, file path, is system, line number).
    ranges: Vec<(usize, String, bool, usize)>,
    entry_headers: Vec<String>,
    source: Vec<char>,
}

pub open spec fn range_view(r: (usize, String, bool, usize)) -> (int, Seq<char>, bool, nat) {
    (r.0 as int, r.1@, r.2, r.3 as nat)
}

pub open spec fn ranges_view(v: Seq<(usize, String, bool, usize)>) -> Seq<(int, Seq<char>, bool, nat)> {
    v.map_values(|r: (usize, String, bool, usize)| range_view(r))
}

/// Index of the last range starting at or before `off`.
pub open spec fn last_start_before(r: Seq<(int, Seq<char>, bool, nat)>, off: int) -> Option<int>
    decreases r.len(),
{
    if r.len() == 0 {
        None
    } else if r.last().0 <= off {
        Some(r.len() - 1)
    } else {
        last_start_before(r.drop_last(), off)
    }
}

/// Character index whose prefix is `off` bytes long, scanning from `i` where the
/// prefix is `acc` bytes long.
pub open spec fn char_index_from(s: Seq<char>, off: int, i: int, acc: int) -> Option<int>
    decreases s.len() - i,
{
    if acc == off {
        Some(i)
    } else if acc > off || i < 0 || i >= s.len() {
        None
    } else {
        char_index_from(s, off, i + 1, acc + utf8_len(s[i]))
    }
}

/// Character index at byte offset `off`, when `off` is a character boundary.
pub open spec fn char_index(s: Seq<char>, off: int) -> Option<int> {
    char_index_from(s, off, 0, 0)
}

pub open spec fn count_char(s: Seq<char>, c: char) -> nat
    decreases s.len(),
{
    if s.len() == 0 {
        0
    } else {
        count_char(s.drop_last(), c) + if s.last() == c {
            1nat
        } else {
            0nat
        }
    }
}

/// Column of the end of `prefix`: characters after the last newline, plus one.
pub open spec fn column_of(prefix: Seq<char>) -> nat
    decreases prefix.len(),
{
    if prefix.len() == 0 {
        1
    } else if prefix.last() == '\n' {
        1
    } else {
        column_of(prefix.drop_last()) + 1
    }
}

impl FileOriginMap {
    #[verifier::type_invariant]
    closed spec fn inv(self) -> bool {
        self.source@.len() < usize::MAX
    }

    pub closed spec fn spec_ranges(self) -> Seq<(int, Seq<char>, bool, nat)> {
        ranges_view(self.ranges@)
    }

    pub closed spec fn spec_entries(self) -> Seq<Seq<char>> {
        strs(self.entry_headers@)
    }

    pub closed spec fn spec_source(self) -> Seq<char> {
        self.source@
    }

    pub open spec fn is_entry(self, f: Seq<char>) -> bool {
        exists|i: int| 0 <= i < self.spec_entries().len() && matches_entry(
            #[trigger] self.spec_entries()[i],
            f,
        )
    }

    pub open spec fn spec_origin_at(self, off: int) -> SourceOrigin {
        match last_start_before(self.spec_ranges(), off) {
            Some(i) => {
                let r = self.spec_ranges()[i];
                if r.2 {
                    SourceOrigin::System
                } else if self.is_entry(r.1) {
                    SourceOrigin::Entry
                } else {
                    SourceOrigin::UserInclude
                }
            },
            None => SourceOrigin::Unknown,
        }
    }

    /// (file, line, column) of the byte offset `off`, when it is known.
    pub open spec fn spec_location_at(self, off: int) -> Option<(Seq<char>, int, nat)> {
        match last_start_before(self.spec_ranges(), off) {
            None => None,
            Some(i) => {
                let r = self.spec_ranges()[i];
                match (char_index(self.spec_source(), r.0), char_index(self.spec_source(), off)) {
                    (Some(a), Some(b)) => {
                        let prefix = self.spec_source().subrange(a, b);
                        let nl = count_char(prefix, '\n');
                        let line = if nl == 0 {
                            r.3 as int
                        } else {
                            r.3 + nl - 1
                        };
                        Some((r.1, line % (usize::MAX as int + 1), column_of(prefix)))
                    },
                    _ => None,
                }
            },
        }
    }

    /// Build a file-origin map by parsing preprocessor line markers from source.
    pub fn parse(source: &str, entry_headers: &[&str]) -> (r: Self)
        requires
            byte_len(source@) + 1 <= usize::MAX,
        ensures
            r.spec_ranges() == markers_from(source@, 0),
            r.spec_entries() == strs_ref(entry_headers@),
            r.spec_source() == source@,
    {
        let entries = copy_strs(entry_headers);
        let v = chars_of(source);
        let ranges = scan_markers(&v);
        proof {
            lemma_byte_len_ge_len(v@);
        }
        FileOriginMap { ranges, entry_headers: entries, source: v }
    }

    /// Index of the last range starting at or before `off`.
    fn last_range_index(&self, off: usize) -> (r: Option<usize>)
        ensures
            match r {
                Some(i) => last_start_before(self.spec_ranges(), off as int) == Some(i as int)
                    && i < self.ranges@.len(),
                None => last_start_before(self.spec_ranges(), off as int) is None,
            },
    {
        let mut i = self.ranges.len();
        assert(self.spec_ranges().subrange(0, i as int) =~= self.spec_ranges());
        while i > 0
            invariant
                i <= self.ranges@.len(),
                last_start_before(self.spec_ranges(), off as int) == last_start_before(
                    self.spec_ranges().subrange(0, i as int),
                    off as int,
                ),
            decreases i,
        {
            let ghost sub = self.spec_ranges().subrange(0, i as int);
            assert(sub.last() == range_view(self.ranges@[i - 1]));
            if self.ranges[i - 1].0 <= off {
                return Some(i - 1);
            }
            assert(sub.drop_last() =~= self.spec_ranges().subrange(0, i - 1));
            i = i - 1;
        }
        None
    }

    /// Determine the origin of a declaration at the given byte offset.
    pub fn origin_at(&self, byte_offset: usize) -> (r: SourceOrigin)
        ensures
            r == self.spec_origin_at(byte_offset as int),
    {
        match self.last_range_index(byte_offset) {
            Some(i) => {
                let ghost rv = self.spec_ranges()[i as int];
                assert(rv == range_view(self.ranges@[i as int]));
                if self.ranges[i].2 {
                    SourceOrigin::System
                } else if self.is_entry_header(&self.ranges[i].1) {
                    SourceOrigin::Entry
                } else {
                    SourceOrigin::UserInclude
                }
            },
            None => SourceOrigin::Unknown,
        }
    }

    /// Determine the source location of a declaration at the given byte offset.
    pub fn location_at(&self, byte_offset: usize) -> (r: Option<SourceLocation>)
        ensures
            match (r, self.spec_location_at(byte_offset as int)) {
                (Some(l), Some(s)) => l.file@ == s.0 && l.line == Some(s.1 as usize) && l.column
                    == Some(s.2 as usize),
                (None, None) => true,
                _ => false,
            },
    {
        let i = match self.last_range_index(byte_offset) {
            Some(i) => i,
            None => return None,
        };
        let ghost rv = self.spec_ranges()[i as int];
        assert(rv == range_view(self.ranges@[i as int]));
        let a = match char_index_exec(&self.source, self.ranges[i].0) {
            Some(a) => a,
            None => return None,
        };
        let b = match char_index_exec(&self.source, byte_offset) {
            Some(b) => b,
            None => return None,
        };
        proof {
            use_type_invariant(self);
            lemma_last_start_le(self.spec_ranges(), byte_offset as int);
            lemma_char_index_mono(self.source@, self.ranges@[i as int].0 as int, byte_offset as int);
        }
        let ghost prefix = self.source@.subrange(a as int, b as int);
        let mut nl: usize = 0;
        let mut col: usize = 1;
        let mut k = a;
        while k < b
            invariant
                a <= k <= b <= self.source@.len(),
                prefix == self.source@.subrange(a as int, b as int),
                nl as int == count_char(self.source@.subrange(a as int, k as int), '\n'),
                col as int == column_of(self.source@.subrange(a as int, k as int)),
                nl <= k - a,
                col <= k - a + 1,
                self.source@.len() < usize::MAX,
            decreases b - k,
        {
            assert(self.source@.subrange(a as int, k + 1).drop_last() =~= self.source@.subrange(
                a as int,
                k as int,
            ));
            if self.source[k] == '\n' {
                nl = nl + 1;
                col = 1;
            } else {
                col = col + 1;
            }
            k = k + 1;
        }
        assert(self.source@.subrange(a as int, k as int) == prefix);
        let line_num = self.ranges[i].3;
        let line = if nl == 0 {
            line_num
        } else {
            line_num.wrapping_add(nl - 1)
        };
        proof {
            if nl > 0 {
                assert((line_num + (nl - 1)) % (usize::MAX as int + 1) == line as int);
            }
        }
        Some(SourceLocation { file: self.ranges[i].1.clone(), line: Some(line), column: Some(col) })
    }

    fn is_entry_header(&self, file: &String) -> (r: bool)
        ensures
            r == self.is_entry(file@),
    {
        let fv = chars_of(file.as_str());
        let mut i: usize = 0;
        while i < self.entry_headers.len()
            invariant
                i <= self.entry_headers@.len(),
                fv@ == file@,
                forall|k: int| 0 <= k < i ==> !matches_entry(#[trigger] self.spec_entries()[k], file@),
            decreases self.entry_headers@.len() - i,
        {
            let ev = chars_of(self.entry_headers[i].as_str());
            assert(self.spec_entries()[i as int] == self.entry_headers@[i as int]@);
            if chars_eq(&ev, &fv) || path_ends_with(&fv, &ev) || path_ends_with(&ev, &fv) {
                return true;
            }
            i = i + 1;
        }
        false
    }
}

/// Owned copies of string slices.
fn copy_strs(v: &[&str]) -> (r: Vec<String>)
    ensures
        strs(r@) == strs_ref(v@),
{
    let mut r: Vec<String> = Vec::new();
    let mut k: usize = 0;
    while k < v.len()
        invariant
            k <= v@.len(),
            r@.len() == k,
            forall|j: int| 0 <= j < k ==> (#[trigger] r@[j])@ == v@[j]@,
        decreases v@.len() - k,
    {
        r.push(copy_str(v[k]));
        k = k + 1;
    }
    assert(strs(r@) =~= strs_ref(v@));
    r
}

/// One step of `markers_from`: the line `s[..e]` (ended by a newline when `e < s.len()`).
proof fn lemma_markers_step(s: Seq<char>, off: int, e: int)
    requires
        0 <= e <= s.len(),
        find_char_s(s, '\n') == (if e < s.len() {
            Some(e)
        } else {
            None::<int>
        }),
    ensures
        markers_from(s, off) == (match spec_parse_marker(s.subrange(0, e)) {
            Some(m) => seq![(off, m.0, m.1, m.2)],
            None => Seq::empty(),
        }) + (if e < s.len() {
            markers_from(s.subrange(e + 1, s.len() as int), off + byte_len(s.subrange(0, e)) + 1)
        } else {
            Seq::empty()
        }),
{
    if e == s.len() {
        assert(s.subrange(0, e) =~= s);
    }
}

/// Line markers of `v` with their byte offsets.
fn scan_markers(v: &Vec<char>) -> (r: Vec<(usize, String, bool, usize)>)
    requires
        byte_len(v@) + 1 <= usize::MAX,
    ensures
        ranges_view(r@) == markers_from(v@, 0),
{
    let mut ranges: Vec<(usize, String, bool, usize)> = Vec::new();
    let vl = v.len();
    let mut pos: usize = 0;
    let mut offset: usize = 0;
    assert(v@.subrange(0, v@.len() as int) =~= v@);
    assert(v@.subrange(0, 0) =~= Seq::<char>::empty());
    loop
        invariant
            vl == v@.len(),
            pos <= v@.len(),
            offset == byte_len(v@.subrange(0, pos as int)),
            byte_len(v@) + 1 <= usize::MAX,
            ranges_view(ranges@) + markers_from(v@.subrange(pos as int, v@.len() as int), offset as int)
                == markers_from(v@, 0),
        decreases v@.len() - pos,
    {
        let ghost rest = v@.subrange(pos as int, v@.len() as int);
        let ghost prev = ranges_view(ranges@);
        let nl = find_char_from(v, '\n', pos);
        proof {
            lemma_find_from_shift(v@, seq!['\n'], pos as int, pos as int);
            lemma_find_from_some(v@, seq!['\n'], pos as int);
        }
        let end = match nl {
            Some(i) => i,
            None => vl,
        };
        proof {
            if nl is Some {
                assert(occurs_at(v@, seq!['\n'], end as int));
                assert(v@.subrange(end as int, end + 1)[0] == v@[end as int]);
                assert(v@[end as int] == '\n');
            }
            lemma_markers_step(rest, offset as int, end - pos);
            assert(rest.subrange(0, end - pos) =~= v@.subrange(pos as int, end as int));
        }
        let parsed = parse_line_marker_range(v, pos, end);
        match parsed {
            Some(m) => {
                ranges.push((offset, m.file, m.is_system, m.line_num));
                assert(ranges_view(ranges@) =~= prev + seq![(offset as int, line_marker_view(m).0, line_marker_view(m).1, line_marker_view(m).2)]);
            },
            None => {
                assert(ranges_view(ranges@) =~= prev);
            },
        }
        if end == vl {
            assert(ranges_view(ranges@) =~= markers_from(v@, 0));
            return ranges;
        }
        proof {
            lemma_offset_step(v@, pos as int, end as int);
            assert(rest.subrange(end - pos + 1, rest.len() as int) =~= v@.subrange(
                end + 1,
                v@.len() as int,
            ));
        }
        let line_len = char_bytes(v, pos, end);
        offset = offset + line_len + 1;
        pos = end + 1;
    }
}

/// Byte offset after a line and its newline.
proof fn lemma_offset_step(s: Seq<char>, pos: int, end: int)
    requires
        0 <= pos <= end < s.len(),
        s[end] == '\n',
    ensures
        byte_len(s.subrange(0, end + 1)) == byte_len(s.subrange(0, pos)) + byte_len(
            s.subrange(pos, end),
        ) + 1,
        byte_len(s.subrange(0, end + 1)) <= byte_len(s),
{
    let a = s.subrange(0, end + 1);
    lemma_byte_len_split(a, pos);
    assert(a.subrange(0, pos) =~= s.subrange(0, pos));
    let b = a.subrange(pos, end + 1);
    assert(b.drop_last() =~= s.subrange(pos, end));
    assert(utf8_len(b.last()) == 1);
    lemma_byte_len_prefix(s, end + 1);
}

pub open spec fn line_marker_view(m: LineMarker) -> (Seq<char>, bool, nat) {
    (m.file@, m.is_system, m.line_num as nat)
}

/// Number of bytes that encode `c` in UTF-8.
pub fn char_utf8_len(c: char) -> (r: usize)
    ensures
        r == utf8_len(c),
{
    let u = c as u32;
    if u < 0x80 {
        1
    } else if u < 0x800 {
        2
    } else if u < 0x10000 {
        3
    } else {
        4
    }
}

pub proof fn lemma_byte_len_split(s: Seq<char>, k: int)
    requires
        0 <= k <= s.len(),
    ensures
        byte_len(s) == byte_len(s.subrange(0, k)) + byte_len(s.subrange(k, s.len() as int)),
    decreases s.len(),
{
    if k == s.len() {
        assert(s.subrange(0, k) =~= s);
        assert(s.subrange(k, s.len() as int) =~= Seq::<char>::empty());
    } else {
        lemma_byte_len_split(s.drop_last(), k);
        assert(s.drop_last().subrange(0, k) =~= s.subrange(0, k));
        assert(s.subrange(k, s.len() as int).drop_last() =~= s.drop_last().subrange(
            k,
            s.len() - 1,
        ));
    }
}

pub proof fn lemma_byte_len_ge_len(s: Seq<char>)
    ensures
        byte_len(s) >= s.len(),
    decreases s.len(),
{
    if s.len() > 0 {
        lemma_byte_len_ge_len(s.drop_last());
    }
}

proof fn lemma_last_start_le(r: Seq<(int, Seq<char>, bool, nat)>, off: int)
    ensures
        last_start_before(r, off) matches Some(i) ==> 0 <= i < r.len() && r[i].0 <= off,
    decreases r.len(),
{
    if r.len() > 0 && r.last().0 > off {
        lemma_last_start_le(r.drop_last(), off);
    }
}

pub proof fn lemma_byte_len_prefix(s: Seq<char>, k: int)
    requires
        0 <= k <= s.len(),
    ensures
        byte_len(s.subrange(0, k)) <= byte_len(s),
{
    lemma_byte_len_split(s, k);
}

/// Byte length of `v[from..to]`.
pub(crate) fn char_bytes(v: &Vec<char>, from: usize, to: usize) -> (r: usize)
    requires
        from <= to <= v@.len(),
        byte_len(v@.subrange(from as int, to as int)) <= usize::MAX,
    ensures
        r == byte_len(v@.subrange(from as int, to as int)),
{
    let mut n: usize = 0;
    let mut k = from;
    while k < to
        invariant
            from <= k <= to <= v@.len(),
            n == byte_len(v@.subrange(from as int, k as int)),
            byte_len(v@.subrange(from as int, to as int)) <= usize::MAX,
        decreases to - k,
    {
        assert(v@.subrange(from as int, k + 1).drop_last() =~= v@.subrange(from as int, k as int));
        proof {
            lemma_byte_len_split(v@.subrange(from as int, to as int), k + 1 - from);
            assert(v@.subrange(from as int, to as int).subrange(0, k + 1 - from) =~= v@.subrange(
                from as int,
                k + 1,
            ));
        }
        n = n + char_utf8_len(v[k]);
        k = k + 1;
    }
    n
}

/// Character index at byte offset `off`.
fn char_index_exec(v: &Vec<char>, off: usize) -> (r: Option<usize>)
    ensures
        match r {
            Some(i) => char_index(v@, off as int) == Some(i as int) && i <= v@.len(),
            None => char_index(v@, off as int) is None,
        },
{
    let mut i: usize = 0;
    let mut acc: usize = 0;
    loop
        invariant
            i <= v@.len(),
            acc <= off,
            char_index(v@, off as int) == char_index_from(v@, off as int, i as int, acc as int),
        decreases v@.len() - i,
    {
        if acc == off {
            return Some(i);
        }
        if i >= v.len() {
            return None;
        }
        let l = char_utf8_len(v[i]);
        if l > off - acc {
            assert(char_index_from(v@, off as int, i + 1, acc + l) is None);
            return None;
        }
        acc = acc + l;
        i = i + 1;
    }
}

proof fn lemma_char_index_from_bound(s: Seq<char>, off: int, i: int, acc: int)
    requires
        0 <= i <= s.len(),
    ensures
        char_index_from(s, off, i, acc) matches Some(j) ==> i <= j <= s.len(),
    decreases s.len() - i,
{
    if acc == off {
    } else if acc > off || i >= s.len() {
    } else {
        lemma_char_index_from_bound(s, off, i + 1, acc + utf8_len(s[i]));
    }
}

/// Smaller byte offsets give smaller character indices.
proof fn lemma_char_index_mono(s: Seq<char>, x: int, y: int)
    requires
        x <= y,
    ensures
        char_index(s, x) matches Some(a) ==> (char_index(s, y) matches Some(b) ==> a <= b
            <= s.len()),
{
    lemma_char_index_from_mono(s, x, y, 0, 0);
    lemma_char_index_from_bound(s, y, 0, 0);
}

proof fn lemma_char_index_from_mono(s: Seq<char>, x: int, y: int, i: int, acc: int)
    requires
        x <= y,
        0 <= i <= s.len(),
    ensures
        char_index_from(s, x, i, acc) matches Some(a) ==> (char_index_from(s, y, i, acc) matches Some(
            b,
        ) ==> a <= b),
    decreases s.len() - i,
{
    if acc == x || acc == y {
        lemma_char_index_from_bound(s, y, i, acc);
        if acc == x {
            lemma_char_index_from_ge(s, y, i, acc);
        }
    } else if acc > x || i >= s.len() {
    } else {
        lemma_char_index_from_mono(s, x, y, i + 1, acc + utf8_len(s[i]));
    }
}

proof fn lemma_char_index_from_ge(s: Seq<char>, off: int, i: int, acc: int)
    ensures
        char_index_from(s, off, i, acc) matches Some(j) ==> i <= j,
    decreases s.len() - i,
{
    if acc == off {
    } else if acc > off || i < 0 || i >= s.len() {
    } else {
        lemma_char_index_from_ge(s, off, i + 1, acc + utf8_len(s[i]));
    }
}

/// Parse a single preprocessor line marker.
/// Format: `# <line> "<file>" [flags]`
pub fn parse_line_marker(line: &str) -> (r: Option<LineMarker>)
    ensures
        match r {
            Some(m) => spec_parse_marker(line@) == Some(line_marker_view(m)),
            None => spec_parse_marker(line@) is None,
        },
{
    let v = chars_of(line);
    assert(v@.subrange(0, v@.len() as int) =~= v@);
    parse_line_marker_range(&v, 0, v.len())
}

/// Parse a single preprocessor line marker written in `v[from..to]`.
/// Format: `# <line> "<file>" [flags]`
pub fn parse_line_marker_range(v: &Vec<char>, from: usize, to: usize) -> (r: Option<LineMarker>)
    requires
        from <= to <= v@.len(),
    ensures
        match r {
            Some(m) => spec_parse_marker(v@.subrange(from as int, to as int)) == Some(
                line_marker_view(m),
            ),
            None => spec_parse_marker(v@.subrange(from as int, to as int)) is None,
        },
{
    let ghost line = v@.subrange(from as int, to as int);
    let (lo, hi) = trim_range(v, from, to);
    let ghost t = trim_s(line);
    assert(t == v@.subrange(lo as int, hi as int));
    if !(hi - lo >= 2 && v[lo] == '#' && v[lo + 1] == ' ') {
        assert(!starts_with_s(t, seq!['#', ' '])) by {
            if starts_with_s(t, seq!['#', ' ']) {
                assert(t.subrange(0, 2)[0] == t[0]);
                assert(t.subrange(0, 2)[1] == t[1]);
            }
        }
        return None;
    }
    assert(starts_with_s(t, seq!['#', ' '])) by {
        assert(t.subrange(0, 2) =~= seq!['#', ' ']);
    }
    let rs = lo + 2;
    let ghost rest = t.subrange(2, t.len() as int);
    assert(rest =~= v@.subrange(rs as int, hi as int));
    let sp = match find_in_window(v, ' ', rs, hi) {
        Some(sp) => sp,
        None => return None,
    };
    let ln = parse_uint_range(v, rs, sp, usize::MAX as u128);
    assert(rest.subrange(0, sp - rs) =~= v@.subrange(rs as int, sp as int));
    proof {
        lemma_parse_uint_bound(v@.subrange(rs as int, sp as int), usize::MAX as int);
    }
    let line_num = match ln {
        UintParse::Value(n) => n as usize,
        _ => return None,
    };
    let a = sp + 1;
    let ghost after = rest.subrange(sp - rs + 1, rest.len() as int);
    assert(after =~= v@.subrange(a as int, hi as int));
    if !(a < hi && v[a] == '"') {
        return None;
    }
    let qs = a + 1;
    let ghost quoted = after.subrange(1, after.len() as int);
    assert(quoted =~= v@.subrange(qs as int, hi as int));
    let q = match find_in_window(v, '"', qs, hi) {
        Some(q) => q,
        None => return None,
    };
    assert(quoted.subrange(0, q - qs) =~= v@.subrange(qs as int, q as int));
    let file = string_of_range(v, qs, q);
    let ghost flags = quoted.subrange(q - qs + 1, quoted.len() as int);
    assert(flags =~= v@.subrange(q + 1, hi as int));
    let is_system = has_system_flag_exec(v, q + 1, hi);
    assert(spec_parse_marker(line) == Some((file@, is_system, line_num as nat)));
    Some(LineMarker { file, is_system, line_num })
}

/// First index of `c` in `v[from..to]`, relative to `v`.
fn find_in_window(v: &Vec<char>, c: char, from: usize, to: usize) -> (r: Option<usize>)
    requires
        from <= to <= v@.len(),
    ensures
        match r {
            Some(i) => from <= i < to && find_char_s(v@.subrange(from as int, to as int), c)
                == Some(i - from),
            None => find_char_s(v@.subrange(from as int, to as int), c) is None,
        },
{
    let ghost w = v@.subrange(from as int, to as int);
    let mut i = from;
    while i < to
        invariant
            from <= i <= to <= v@.len(),
            w == v@.subrange(from as int, to as int),
            find_char_s(w, c) == find_from(w, seq![c], i - from),
        decreases to - i,
    {
        assert(occurs_at(w, seq![c], i - from) == (v@[i as int] == c)) by {
            if v@[i as int] == c {
                assert(w.subrange(i - from, i - from + 1) =~= seq![c]);
            } else {
                assert(w.subrange(i - from, i - from + 1)[0] == v@[i as int]);
            }
        }
        if v[i] == c {
            return Some(i);
        }
        i = i + 1;
    }
    assert(find_from(w, seq![c], i - from) is None);
    None
}

/// Whether some whitespace-separated token of `v[from..to]` parses to 3 as a `u8`.
fn has_system_flag_exec(v: &Vec<char>, from: usize, to: usize) -> (r: bool)
    requires
        from <= to <= v@.len(),
    ensures
        r == has_system_flag(v@.subrange(from as int, to as int)),
{
    let ghost w = v@.subrange(from as int, to as int);
    let mut i = from;
    while i < to
        invariant
            from <= i <= to <= v@.len(),
            w == v@.subrange(from as int, to as int),
            i == from || i == to || is_ws(v@[i - 1]),
            forall|a: int, b: int|
                is_token(w, a, b) && a < i - from ==> parse_uint_s(w.subrange(a, b), 255)
                    != UintParse::Value(3),
        decreases to - i,
    {
        if is_whitespace(v[i]) {
            i = i + 1;
            assert forall|a: int, b: int|
                is_token(w, a, b) && a < i - from implies parse_uint_s(w.subrange(a, b), 255)
                != UintParse::Value(3) by {
                if a == i - 1 - from {
                    assert(!is_ws(w[a]));
                }
            }
        } else {
            let mut j = i;
            while j < to && !is_whitespace(v[j])
                invariant
                    i <= j <= to <= v@.len(),
                    forall|k: int| i <= k < j ==> !is_ws(#[trigger] v@[k]),
                decreases to - j,
            {
                j = j + 1;
            }
            let a = i - from;
            let b = j - from;
            let next = if j < to {
                j + 1
            } else {
                j
            };
            assert(is_token(w, a as int, b as int)) by {
                assert forall|k: int| a <= k < b implies !is_ws(#[trigger] w[k]) by {
                    assert(w[k] == v@[from + k]);
                }
            }
            assert(w.subrange(a as int, b as int) =~= v@.subrange(i as int, j as int));
            if parse_uint_range(v, i, j, 255) == UintParse::Value(3) {
                return true;
            }
            assert forall|x: int, y: int|
                is_token(w, x, y) && x < next - from implies parse_uint_s(w.subrange(x, y), 255)
                != UintParse::Value(3) by {
                if x == b {
                    assert(is_ws(w[b as int]));
                }
                if x >= a && x < b {
                    if x > a {
                        assert(!is_ws(w[x - 1]));
                    }
                    assert(x == a);
                    if y < b {
                        assert(!is_ws(w[y]));
                    }
                    if y > b {
                        assert(!is_ws(w[b as int]));
                    }
                }
            }
            i = next;
        }
    }
    assert forall|a: int, b: int| #![trigger is_token(w, a, b)] is_token(w, a, b) implies parse_uint_s(
        w.subrange(a, b),
        255,
    ) != UintParse::Value(3) by {}
    false
}

/// Components of a Unix path.
pub(crate) fn components_of(p: &Vec<char>) -> (r: Vec<Vec<char>>)
    ensures
        char_vecs(r@) == path_components(p@),
{
    let pieces = split_chars(p, '/');
    let ghost segs = split_s(p@, '/');
    let mut r: Vec<Vec<char>> = Vec::new();
    let mut start: usize = 0;
    proof {
        lemma_split_nonempty(p@, '/');
    }
    if p.len() > 0 && p[0] == '/' {
        let slash: Vec<char> = vec!['/'];
        assert(slash@ =~= seq!['/']);
        r.push(slash);
        start = 1;
    } else if pieces[0].len() == 1 && pieces[0][0] == '.' {
        let dot: Vec<char> = vec!['.'];
        assert(dot@ =~= seq!['.']);
        r.push(dot);
        start = 1;
    }
    let ghost head = char_vecs(r@);
    proof {
        assert(char_vecs(pieces@)[0] == pieces@[0]@);
        if p@.len() > 0 && p@[0] == '/' {
            assert(head =~= seq![seq!['/']]);
        } else if segs[0] == seq!['.'] {
            assert(pieces@[0]@.len() == 1 && pieces@[0]@[0] == '.');
            assert(head =~= seq![seq!['.']]);
        } else {
            if pieces@[0]@.len() == 1 && pieces@[0]@[0] == '.' {
                assert(pieces@[0]@ =~= seq!['.']);
            }
            assert(head =~= Seq::<Seq<char>>::empty());
        }
    }
    let ghost tail = segs.subrange(start as int, segs.len() as int);
    let mut i = start;
    while i < pieces.len()
        invariant
            start <= i <= pieces@.len(),
            char_vecs(pieces@) == segs,
            char_vecs(r@) == head + segs.subrange(start as int, i as int).filter(normal_pred()),
        decreases pieces@.len() - i,
    {
        let ghost before = char_vecs(r@);
        let ghost s_i = segs.subrange(start as int, i + 1);
        assert(s_i.drop_last() =~= segs.subrange(start as int, i as int));
        assert(char_vecs(pieces@)[i as int] == pieces@[i as int]@);
        assert(s_i.last() == pieces@[i as int]@);
        assert(normal_pred()(pieces@[i as int]@) == normal_comp(pieces@[i as int]@));
        reveal_with_fuel(Seq::filter, 1);
        assert(s_i.filter(normal_pred()) == if normal_pred()(s_i.last()) {
            segs.subrange(start as int, i as int).filter(normal_pred()).push(s_i.last())
        } else {
            segs.subrange(start as int, i as int).filter(normal_pred())
        });
        let seg = &pieces[i];
        let keep = seg.len() > 0 && !(seg.len() == 1 && seg[0] == '.');
        assert(char_vecs(pieces@)[i as int] == pieces@[i as int]@);
        assert(keep == normal_comp(pieces@[i as int]@)) by {
            if seg@.len() == 1 && seg@[0] == '.' {
                assert(seg@ =~= seq!['.']);
            }
        }
        if keep {
            r.push(copy_chars(seg));
            assert(char_vecs(r@) =~= before.push(pieces@[i as int]@));
            assert(head + s_i.filter(normal_pred()) =~= (head + segs.subrange(start as int, i as int).filter(normal_pred())).push(s_i.last()));
        } else {
            assert(char_vecs(r@) =~= before);
        }
        i = i + 1;
    }
    proof {
        if start == 1 {
            assert(segs.subrange(1, segs.len() as int) =~= segs.drop_first());
        } else {
            assert(segs.subrange(0, segs.len() as int) =~= segs);
            assert(head + segs.filter(normal_pred()) =~= segs.filter(normal_pred()));
        }
    }
    r
}

proof fn lemma_split_nonempty(s: Seq<char>, c: char)
    ensures
        split_s(s, c).len() >= 1,
    decreases s.len(),
{
}

/// `Path::ends_with` for Unix paths given as characters.
pub fn path_ends_with(haystack: &Vec<char>, needle: &Vec<char>) -> (r: bool)
    ensures
        r == spec_path_ends_with(haystack@, needle@),
{
    let h = components_of(haystack);
    let n = components_of(needle);
    let ghost hv = char_vecs(h@);
    let ghost nv = char_vecs(n@);
    assert(hv.len() == h@.len() && nv.len() == n@.len());
    if n.len() > h.len() {
        return false;
    }
    let off = h.len() - n.len();
    let hl = h.len();
    let mut i: usize = 0;
    while i < n.len()
        invariant
            hl == h@.len(),
            off + n@.len() == hl,
            i <= n@.len(),
            hv == char_vecs(h@),
            nv == char_vecs(n@),
            hv == path_components(haystack@),
            nv == path_components(needle@),
            forall|k: int| 0 <= k < i ==> nv[k] == hv[off + k],
        decreases n@.len() - i,
    {
        assert(nv[i as int] == n@[i as int]@);
        assert(hv[off + i] == h@[off + i]@);
        if !chars_eq(&n[i], &h[off + i]) {
            assert(nv[i as int] == n@[i as int]@);
            assert(hv[off + i] == h@[off + i]@);
            assert(!nv.is_suffix_of(hv)) by {
                if nv.is_suffix_of(hv) {
                    assert(hv.subrange(off as int, hv.len() as int)[i as int] == hv[off + i]);
                }
            }
            return false;
        }
        i = i + 1;
    }
    assert(nv.is_suffix_of(hv)) by {
        assert(hv.subrange(hv.len() - nv.len(), hv.len() as int) =~= nv);
    }
    true
}

} // verus!
