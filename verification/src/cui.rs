//! Command User Interface (CUI) persistence: the user's command aliases
//! and function-key shortcut overrides in a small text schema.
//!
//! ```text
//! # H7CAD CUI v1
//! [aliases]
//! L=LINE
//! CO=COPY
//! [shortcuts]
//! F3=SNAPOFF
//! ```
//!
//! Blank lines and `#` comments are ignored, unknown sections are ignored,
//! keys and values are trimmed, and the serializer writes keys sorted.

use crate::string_map::{
    has_key, is_sorted_listing, lemma_map_of, lemma_sorted_distinct, map_of, Rows, StringMap,
};
use crate::text::{
    is_ws, trim_end, trim_start,
    ascii_lower_seq, chars_of, eq_ascii_lower, is_trimmed, lemma_trim_of_trimmed, push_char,
    push_str, string_from_range, trim, trim_range,
};
use vstd::prelude::*;

verus! {

/// The two maps that the runtime persists.
#[derive(Debug, PartialEq, Eq)]
pub struct CuiDocument {
    pub aliases: StringMap,
    pub shortcuts: StringMap,
}

impl CuiDocument {
    pub fn new() -> (d: Self)
        ensures
            d.aliases@ == Map::<Seq<char>, Seq<char>>::empty(),
            d.shortcuts@ == Map::<Seq<char>, Seq<char>>::empty(),
    {
        CuiDocument { aliases: StringMap::new(), shortcuts: StringMap::new() }
    }
}

impl Default for CuiDocument {
    fn default() -> (d: Self)
        ensures
            d.aliases@ == Map::<Seq<char>, Seq<char>>::empty(),
            d.shortcuts@ == Map::<Seq<char>, Seq<char>>::empty(),
    {
        CuiDocument::new()
    }
}

/// The section a line of CUI text belongs to.
#[derive(Clone, Copy, Debug)]
pub enum CuiSection {
    Preamble,
    Aliases,
    Shortcuts,
    Unknown,
}

/// Parser state: current section and the two maps read so far.
pub type CuiState = (CuiSection, Map<Seq<char>, Seq<char>>, Map<Seq<char>, Seq<char>>);

pub open spec fn cui_init() -> CuiState {
    (CuiSection::Preamble, Map::empty(), Map::empty())
}

/// The section a `[name]` header selects (name compared case-insensitively).
pub open spec fn section_named(name: Seq<char>) -> CuiSection {
    if ascii_lower_seq(name) == "aliases"@ {
        CuiSection::Aliases
    } else if ascii_lower_seq(name) == "shortcuts"@ {
        CuiSection::Shortcuts
    } else {
        CuiSection::Unknown
    }
}

/// `i` is the position of the first `=` in `line`.
pub open spec fn is_first_eq(line: Seq<char>, i: int) -> bool {
    0 <= i < line.len() && line[i] == '=' && forall|j: int| 0 <= j < i ==> line[j] != '='
}

/// Effect of one raw line on the parser state.
pub open spec fn cui_step(st: CuiState, raw: Seq<char>) -> CuiState {
    let line = trim(raw);
    if line.len() == 0 || line[0] == '#' {
        st
    } else if line[0] == '[' && line.last() == ']' {
        (section_named(trim(line.subrange(1, line.len() - 1))), st.1, st.2)
    } else if exists|i: int| is_first_eq(line, i) {
        let i = choose|i: int| is_first_eq(line, i);
        let key = trim(line.subrange(0, i));
        let val = trim(line.subrange(i + 1, line.len() as int));
        if key.len() == 0 {
            st
        } else {
            match st.0 {
                CuiSection::Aliases => (st.0, st.1.insert(key, val), st.2),
                CuiSection::Shortcuts => (st.0, st.1, st.2.insert(key, val)),
                _ => st,
            }
        }
    } else {
        st
    }
}

/// Lines of `s`, split at every `'\n'` (the last piece may be empty).
pub open spec fn split_nl(s: Seq<char>) -> Seq<Seq<char>>
    decreases s.len(),
{
    if s.len() == 0 {
        seq![Seq::empty()]
    } else {
        let r = split_nl(s.drop_last());
        if s.last() == '\n' {
            r.push(Seq::empty())
        } else {
            r.update(r.len() - 1, r.last().push(s.last()))
        }
    }
}

/// Parser state after the lines `lines`, starting from `st`.
pub open spec fn cui_fold(st: CuiState, lines: Seq<Seq<char>>) -> CuiState
    decreases lines.len(),
{
    if lines.len() == 0 {
        st
    } else {
        cui_step(cui_fold(st, lines.drop_last()), lines.last())
    }
}

/// The maps that the CUI text `text` denotes.
pub open spec fn cui_parse_spec(text: Seq<char>) -> CuiState {
    cui_fold(cui_init(), split_nl(text))
}

/// Text of the entry rows, one `key=value` line each.
pub open spec fn render_rows(rows: Rows) -> Seq<char>
    decreases rows.len(),
{
    if rows.len() == 0 {
        Seq::empty()
    } else {
        render_rows(rows.drop_last()) + rows.last().0 + seq!['='] + rows.last().1 + seq!['\n']
    }
}

/// The CUI text for the given alias and shortcut rows.
pub open spec fn cui_text(aliases: Rows, shortcuts: Rows) -> Seq<char> {
    "# H7CAD CUI v1\n"@ + "[aliases]\n"@ + render_rows(aliases) + "[shortcuts]\n"@ + render_rows(
        shortcuts,
    )
}

/// A key/value pair that survives a write and a re-read unchanged.
pub open spec fn cui_entry_ok(k: Seq<char>, v: Seq<char>) -> bool {
    &&& k.len() > 0
    &&& is_trimmed(k)
    &&& is_trimmed(v)
    &&& forall|i: int| 0 <= i < k.len() ==> k[i] != '=' && k[i] != '\n'
    &&& forall|i: int| 0 <= i < v.len() ==> v[i] != '\n'
    &&& k[0] != '#'
    &&& !(k[0] == '[' && v.len() > 0 && v.last() == ']')
}

pub open spec fn cui_map_ok(m: Map<Seq<char>, Seq<char>>) -> bool {
    forall|k: Seq<char>| #[trigger] m.dom().contains(k) ==> cui_entry_ok(k, m[k])
}

/// Applies one line, `v[lo..hi]`, to the parser state.
fn apply_line(
    v: &Vec<char>,
    lo: usize,
    hi: usize,
    section: &mut CuiSection,
    aliases: &mut StringMap,
    shortcuts: &mut StringMap,
)
    requires
        lo <= hi <= v@.len(),
    ensures
        (*final(section), final(aliases)@, final(shortcuts)@) == cui_step(
            (*old(section), old(aliases)@, old(shortcuts)@),
            v@.subrange(lo as int, hi as int),
        ),
{
    let (a, b) = trim_range(v, lo, hi);
    let ghost line = v@.subrange(a as int, b as int);
    if a == b {
        return ;
    }
    assert(line[0] == v@[a as int]);
    assert(line.last() == v@[b - 1]);
    if v[a] == '#' {
        return ;
    }
    if v[a] == '[' && v[b - 1] == ']' {
        let (c, d) = trim_range(v, a + 1, b - 1);
        assert(line.subrange(1, line.len() - 1) =~= v@.subrange(a + 1, b - 1));
        let s = if eq_ascii_lower(v, c, d, "aliases") {
            CuiSection::Aliases
        } else if eq_ascii_lower(v, c, d, "shortcuts") {
            CuiSection::Shortcuts
        } else {
            CuiSection::Unknown
        };
        *section = s;
        return ;
    }
    let mut e = a;
    while e < b && v[e] != '='
        invariant
            a <= e <= b <= v@.len(),
            line == v@.subrange(a as int, b as int),
            forall|j: int| a <= j < e ==> v@[j] != '=',
        decreases b - e,
    {
        e += 1;
    }
    if e == b {
        assert(!exists|i: int| is_first_eq(line, i)) by {
            if exists|i: int| is_first_eq(line, i) {
                let i = choose|i: int| is_first_eq(line, i);
                assert(v@[a + i] == '=');
            }
        }
        return ;
    }
    let ghost ie = e - a;
    assert(is_first_eq(line, ie as int)) by {
        assert forall|j: int| 0 <= j < ie implies line[j] != '=' by {
            assert(line[j] == v@[a + j]);
        }
    }
    assert((choose|i: int| is_first_eq(line, i)) == ie) by {
        let i = choose|i: int| is_first_eq(line, i);
        if i < ie {
            assert(line[i] == v@[a + i]);
        }
        if i > ie {
            assert(line[ie as int] == '=');
        }
    }
    let (k0, k1) = trim_range(v, a, e);
    let (v0, v1) = trim_range(v, e + 1, b);
    assert(line.subrange(0, ie as int) =~= v@.subrange(a as int, e as int));
    assert(line.subrange(ie + 1, line.len() as int) =~= v@.subrange(e + 1, b as int));
    if k0 == k1 {
        return ;
    }
    match *section {
        CuiSection::Aliases => {
            aliases.insert(string_from_range(v, k0, k1), string_from_range(v, v0, v1));
        },
        CuiSection::Shortcuts => {
            shortcuts.insert(string_from_range(v, k0, k1), string_from_range(v, v0, v1));
        },
        _ => {},
    }
}

proof fn lemma_split_nl_nonempty(s: Seq<char>)
    ensures
        split_nl(s).len() >= 1,
    decreases s.len(),
{
    if s.len() > 0 {
        lemma_split_nl_nonempty(s.drop_last());
    }
}

/// Parse a CUI text body into a `CuiDocument`.
///
/// Never fails: malformed lines are silently ignored so partial user edits
/// do not abort a load.
pub fn parse_cui(text: &str) -> (r: Result<CuiDocument, String>)
    ensures
        r matches Ok(d) && d.aliases@ == cui_parse_spec(text@).1 && d.shortcuts@
            == cui_parse_spec(text@).2,
{
    let v = chars_of(text);
    let mut section = CuiSection::Preamble;
    let mut aliases = StringMap::new();
    let mut shortcuts = StringMap::new();
    let mut start: usize = 0;
    let mut i: usize = 0;
    let ghost mut done: Seq<Seq<char>> = Seq::empty();
    assert(v@.subrange(0, 0) =~= Seq::<char>::empty());
    while i < v.len()
        invariant
            v@ == text@,
            start <= i <= v@.len(),
            split_nl(v@.subrange(0, i as int)) == done.push(v@.subrange(start as int, i as int)),
            (section, aliases@, shortcuts@) == cui_fold(cui_init(), done),
        decreases v.len() - i,
    {
        let ghost pre = v@.subrange(0, i as int);
        let ghost next = v@.subrange(0, i + 1);
        assert(next.drop_last() =~= pre);
        if v[i] == '\n' {
            apply_line(&v, start, i, &mut section, &mut aliases, &mut shortcuts);
            proof {
                let line = v@.subrange(start as int, i as int);
                assert(done.push(line).drop_last() =~= done);
                done = done.push(line);
                assert(v@.subrange((i + 1) as int, (i + 1) as int) =~= Seq::<char>::empty());
            }
            start = i + 1;
        } else {
            proof {
                lemma_split_nl_nonempty(pre);
                assert(v@.subrange(start as int, i + 1) =~= v@.subrange(start as int, i as int).push(
                    v@[i as int],
                ));
                assert(split_nl(next) =~= done.push(v@.subrange(start as int, i + 1)));
            }
        }
        i += 1;
    }
    apply_line(&v, start, i, &mut section, &mut aliases, &mut shortcuts);
    proof {
        let line = v@.subrange(start as int, i as int);
        assert(v@.subrange(0, i as int) =~= text@);
        assert(done.push(line).drop_last() =~= done);
    }
    Ok(CuiDocument { aliases, shortcuts })
}

/// Serialize the two maps into the CUI text schema, keys sorted.
pub fn serialize_cui(doc: &CuiDocument) -> (out: String)
    ensures
        exists|ra: Rows, rs: Rows|
            is_sorted_listing(ra, doc.aliases@) && is_sorted_listing(rs, doc.shortcuts@) && out@
                == cui_text(ra, rs),
{
    let mut out = String::new();
    push_str(&mut out, "# H7CAD CUI v1\n");
    push_str(&mut out, "[aliases]\n");
    let alias_rows = doc.aliases.sorted_entries();
    let ghost ra = alias_rows@.map_values(|e: (String, String)| (e.0@, e.1@));
    push_rows(&mut out, &alias_rows);
    push_str(&mut out, "[shortcuts]\n");
    let sc_rows = doc.shortcuts.sorted_entries();
    let ghost rs = sc_rows@.map_values(|e: (String, String)| (e.0@, e.1@));
    let ghost mid = out@;
    push_rows(&mut out, &sc_rows);
    assert(out@ =~= cui_text(ra, rs));
    out
}

/// Appends one `key=value` line per row.
fn push_rows(out: &mut String, rows: &Vec<(String, String)>)
    ensures
        final(out)@ == old(out)@ + render_rows(
            rows@.map_values(|e: (String, String)| (e.0@, e.1@)),
        ),
{
    let ghost start = out@;
    let ghost rv = rows@.map_values(|e: (String, String)| (e.0@, e.1@));
    let mut i: usize = 0;
    assert(rv.take(0) =~= Seq::<(Seq<char>, Seq<char>)>::empty());
    while i < rows.len()
        invariant
            i <= rows@.len(),
            rv == rows@.map_values(|e: (String, String)| (e.0@, e.1@)),
            out@ == start + render_rows(rv.take(i as int)),
        decreases rows.len() - i,
    {
        push_str(out, rows[i].0.as_str());
        push_char(out, '=');
        push_str(out, rows[i].1.as_str());
        push_char(out, '\n');
        assert(rv.take(i + 1).drop_last() =~= rv.take(i as int));
        assert(out@ =~= start + render_rows(rv.take(i + 1)));
        i += 1;
    }
    assert(rv.take(rows@.len() as int) =~= rv);
}

// ---------------------------------------------------------------------------
// Round trip: reading back what `serialize_cui` wrote.
// ---------------------------------------------------------------------------

/// `lines` joined with a `'\n'` after each.
pub open spec fn concat_lines(lines: Seq<Seq<char>>) -> Seq<char>
    decreases lines.len(),
{
    if lines.len() == 0 {
        Seq::empty()
    } else {
        concat_lines(lines.drop_last()) + lines.last() + seq!['\n']
    }
}

pub open spec fn no_newline(s: Seq<char>) -> bool {
    forall|i: int| 0 <= i < s.len() ==> s[i] != '\n'
}

pub open spec fn row_line(r: (Seq<char>, Seq<char>)) -> Seq<char> {
    r.0 + seq!['='] + r.1
}

pub open spec fn row_lines(rows: Rows) -> Seq<Seq<char>> {
    rows.map_values(|r: (Seq<char>, Seq<char>)| row_line(r))
}

proof fn lemma_split_append_plain(x: Seq<char>, y: Seq<char>)
    requires
        no_newline(y),
    ensures
        split_nl(x + y) == split_nl(x).update(
            split_nl(x).len() - 1,
            split_nl(x).last() + y,
        ),
    decreases y.len(),
{
    lemma_split_nl_nonempty(x);
    let r = split_nl(x);
    if y.len() == 0 {
        assert(x + y =~= x);
        assert(r.last() + y =~= r.last());
        assert(r.update(r.len() - 1, r.last()) =~= r);
    } else {
        let y2 = y.drop_last();
        assert(no_newline(y2));
        lemma_split_append_plain(x, y2);
        assert((x + y).drop_last() =~= x + y2);
        assert((x + y).last() == y.last());
        lemma_split_nl_nonempty(x + y2);
        let rr = split_nl(x + y2);
        assert(rr.len() == r.len());
        assert(rr.last() == r.last() + y2);
        assert(y[y.len() - 1] != '\n');
        assert(rr.last().push(y.last()) =~= r.last() + y);
        assert(split_nl(x + y) =~= r.update(r.len() - 1, r.last() + y));
    }
}

proof fn lemma_split_concat(lines: Seq<Seq<char>>)
    requires
        forall|i: int| 0 <= i < lines.len() ==> no_newline(#[trigger] lines[i]),
    ensures
        split_nl(concat_lines(lines)) == lines.push(Seq::empty()),
    decreases lines.len(),
{
    if lines.len() == 0 {
        assert(split_nl(Seq::<char>::empty()) =~= seq![Seq::<char>::empty()]);
        assert(lines.push(Seq::empty()) =~= seq![Seq::<char>::empty()]);
    } else {
        let p = lines.drop_last();
        assert forall|i: int| 0 <= i < p.len() implies no_newline(#[trigger] p[i]) by {
            assert(p[i] == lines[i]);
        }
        lemma_split_concat(p);
        let l = lines.last();
        assert(no_newline(l)) by {
            assert(lines[lines.len() - 1] == l);
        }
        lemma_split_append_plain(concat_lines(p), l);
        let x = concat_lines(p) + l;
        assert(concat_lines(lines) =~= x.push('\n'));
        assert(x.push('\n').drop_last() =~= x);
        assert(Seq::<char>::empty() + l =~= l);
        assert(p.push(Seq::empty()).update(p.len() as int, l) =~= lines);
        assert(split_nl(concat_lines(lines)) =~= lines.push(Seq::empty()));
    }
}

proof fn lemma_concat_lines_append(a: Seq<Seq<char>>, b: Seq<Seq<char>>)
    ensures
        concat_lines(a + b) == concat_lines(a) + concat_lines(b),
    decreases b.len(),
{
    if b.len() == 0 {
        assert(a + b =~= a);
        assert(concat_lines(a) + concat_lines(b) =~= concat_lines(a));
    } else {
        lemma_concat_lines_append(a, b.drop_last());
        assert((a + b).drop_last() =~= a + b.drop_last());
        assert((a + b).last() == b.last());
        assert(concat_lines(a + b) =~= concat_lines(a) + concat_lines(b));
    }
}

proof fn lemma_render_rows(rows: Rows)
    ensures
        render_rows(rows) == concat_lines(row_lines(rows)),
    decreases rows.len(),
{
    if rows.len() > 0 {
        lemma_render_rows(rows.drop_last());
        assert(row_lines(rows).drop_last() =~= row_lines(rows.drop_last()));
        assert(render_rows(rows) =~= concat_lines(row_lines(rows)));
    }
}

proof fn lemma_fold_append(st: CuiState, a: Seq<Seq<char>>, b: Seq<Seq<char>>)
    ensures
        cui_fold(st, a + b) == cui_fold(cui_fold(st, a), b),
    decreases b.len(),
{
    if b.len() == 0 {
        assert(a + b =~= a);
    } else {
        lemma_fold_append(st, a, b.drop_last());
        assert((a + b).drop_last() =~= a + b.drop_last());
        assert((a + b).last() == b.last());
    }
}

/// A clean row is stored under its key in the current section.
proof fn lemma_step_row(st: CuiState, k: Seq<char>, v: Seq<char>)
    requires
        cui_entry_ok(k, v),
    ensures
        cui_step(st, row_line((k, v))) == match st.0 {
            CuiSection::Aliases => (st.0, st.1.insert(k, v), st.2),
            CuiSection::Shortcuts => (st.0, st.1, st.2.insert(k, v)),
            _ => st,
        },
{
    let line = row_line((k, v));
    let n = k.len() as int;
    assert(line[0] == k[0]);
    assert(line[n] == '=');
    if v.len() > 0 {
        assert(line.last() == v.last());
    } else {
        assert(line.last() == '=');
    }
    lemma_trim_of_trimmed(line);
    lemma_trim_of_trimmed(k);
    lemma_trim_of_trimmed(v);
    assert(is_first_eq(line, n)) by {
        assert forall|j: int| 0 <= j < n implies line[j] != '=' by {
            assert(line[j] == k[j]);
        }
    }
    assert((choose|i: int| is_first_eq(line, i)) == n) by {
        let i = choose|i: int| is_first_eq(line, i);
        if i < n {
            assert(line[i] == k[i]);
        }
    }
    assert(line.subrange(0, n) =~= k);
    assert(line.subrange(n + 1, line.len() as int) =~= v);
}

/// Row lines read in section `sec` fill that section's map with the rows.
proof fn lemma_fold_rows(sec: CuiSection, other: Map<Seq<char>, Seq<char>>, rows: Rows)
    requires
        sec is Aliases || sec is Shortcuts,
        forall|i: int| 0 <= i < rows.len() ==> cui_entry_ok(#[trigger] rows[i].0, rows[i].1),
    ensures
        sec is Aliases ==> cui_fold((sec, Map::empty(), other), row_lines(rows)) == (
            sec,
            map_of(rows),
            other,
        ),
        sec is Shortcuts ==> cui_fold((sec, other, Map::empty()), row_lines(rows)) == (
            sec,
            other,
            map_of(rows),
        ),
    decreases rows.len(),
{
    if rows.len() > 0 {
        let p = rows.drop_last();
        assert forall|i: int| 0 <= i < p.len() implies cui_entry_ok(#[trigger] p[i].0, p[i].1) by {
            assert(p[i] == rows[i]);
        }
        lemma_fold_rows(sec, other, p);
        assert(row_lines(rows).drop_last() =~= row_lines(p));
        let last = rows[rows.len() - 1];
        assert(cui_entry_ok(last.0, last.1));
        assert(row_lines(rows).last() == row_line(last));
        if sec is Aliases {
            lemma_step_row(cui_fold((sec, Map::empty(), other), row_lines(p)), last.0, last.1);
        } else {
            lemma_step_row(cui_fold((sec, other, Map::empty()), row_lines(p)), last.0, last.1);
        }
    }
}

proof fn lemma_listing_rows_ok(rows: Rows, m: Map<Seq<char>, Seq<char>>)
    requires
        is_sorted_listing(rows, m),
        cui_map_ok(m),
    ensures
        forall|i: int| 0 <= i < rows.len() ==> cui_entry_ok(#[trigger] rows[i].0, rows[i].1),
        forall|i: int| 0 <= i < rows.len() ==> no_newline(#[trigger] row_lines(rows)[i]),
{
    lemma_sorted_distinct(rows);
    lemma_map_of(rows);
    assert forall|i: int| 0 <= i < rows.len() implies cui_entry_ok(#[trigger] rows[i].0, rows[i].1) by {
        assert(map_of(rows)[rows[i].0] == rows[i].1);
        assert(has_key(rows, rows[i].0));
        assert(m.dom().contains(rows[i].0));
    }
    assert forall|i: int| 0 <= i < rows.len() implies no_newline(#[trigger] row_lines(rows)[i]) by {
        let r = rows[i];
        assert(cui_entry_ok(r.0, r.1));
        let l = row_line(r);
        assert forall|j: int| 0 <= j < l.len() implies l[j] != '\n' by {
            if j < r.0.len() {
                assert(l[j] == r.0[j]);
            } else if j > r.0.len() {
                assert(l[j] == r.1[j - r.0.len() - 1]);
            }
        }
    }
}

/// A line that is a `#` comment once trimmed.
pub open spec fn is_comment_line(raw: Seq<char>) -> bool {
    trim(raw).len() > 0 && trim(raw)[0] == '#'
}

/// No key of `m` is empty or starts with `#`.
pub open spec fn no_comment_keys(m: Map<Seq<char>, Seq<char>>) -> bool {
    forall|k: Seq<char>| #[trigger] m.dom().contains(k) ==> k.len() > 0 && k[0] != '#'
}

/// A `#` comment line leaves the parser state as it was.
pub proof fn lemma_cui_comment_ignored(st: CuiState, raw: Seq<char>)
    requires
        is_comment_line(raw),
    ensures
        cui_step(st, raw) == st,
{
}

/// Taking a `#` comment line out of the text, wherever it stands, reads
/// the same maps.
pub proof fn lemma_cui_drop_comment(st: CuiState, a: Seq<Seq<char>>, c: Seq<char>, b: Seq<Seq<char>>)
    requires
        is_comment_line(c),
    ensures
        cui_fold(st, a.push(c) + b) == cui_fold(st, a + b),
{
    lemma_fold_append(st, a.push(c), b);
    lemma_fold_append(st, a, b);
    assert(a.push(c).drop_last() =~= a);
    lemma_cui_comment_ignored(cui_fold(st, a), c);
}

proof fn lemma_trim_end_prefix(s: Seq<char>)
    ensures
        trim_end(s).len() <= s.len(),
        trim_end(s) =~= s.take(trim_end(s).len() as int),
        s.len() > 0 && !is_ws(s[0]) ==> trim_end(s).len() > 0,
    decreases s.len(),
{
    if s.len() > 0 && is_ws(s.last()) {
        lemma_trim_end_prefix(s.drop_last());
        if s.len() > 1 {
            assert(s.drop_last()[0] == s[0]);
        }
    }
}

/// The first character of a trimmed line is not whitespace.
proof fn lemma_trim_first(s: Seq<char>)
    ensures
        trim(s).len() > 0 ==> !is_ws(trim(s)[0]) && trim_start(s).len() > 0 && trim(s)[0] == trim_start(s)[0],
        s.len() > 0 && !is_ws(s[0]) ==> trim(s).len() > 0 && trim(s)[0] == s[0],
{
    lemma_trim_end_prefix(trim_start(s));
    if s.len() > 0 && !is_ws(s[0]) {
        assert(trim_start(s) == s);
    }
    if trim_start(s).len() > 0 {
        lemma_trim_start_first(s);
    }
}

proof fn lemma_trim_start_first(s: Seq<char>)
    ensures
        trim_start(s).len() > 0 ==> !is_ws(trim_start(s)[0]),
    decreases s.len(),
{
    if s.len() > 0 && is_ws(s[0]) {
        lemma_trim_start_first(s.drop_first());
    }
}

proof fn lemma_step_keys(st: CuiState, raw: Seq<char>)
    requires
        no_comment_keys(st.1),
        no_comment_keys(st.2),
    ensures
        no_comment_keys(cui_step(st, raw).1),
        no_comment_keys(cui_step(st, raw).2),
{
    let line = trim(raw);
    lemma_trim_first(raw);
    if line.len() > 0 && line[0] != '#' && !(line[0] == '[' && line.last() == ']') && exists|i: int|
        is_first_eq(line, i) {
        let i = choose|i: int| is_first_eq(line, i);
        let part = line.subrange(0, i);
        let key = trim(part);
        if key.len() > 0 {
            assert(i > 0) by {
                if i == 0 {
                    assert(part.len() == 0);
                    assert(trim_start(part) =~= part);
                }
            }
            assert(part[0] == line[0]);
            lemma_trim_first(part);
        }
    }
}

proof fn lemma_fold_keys(st: CuiState, lines: Seq<Seq<char>>)
    requires
        no_comment_keys(st.1),
        no_comment_keys(st.2),
    ensures
        no_comment_keys(cui_fold(st, lines).1),
        no_comment_keys(cui_fold(st, lines).2),
    decreases lines.len(),
{
    if lines.len() > 0 {
        lemma_fold_keys(st, lines.drop_last());
        lemma_step_keys(cui_fold(st, lines.drop_last()), lines.last());
    }
}

/// No alias or shortcut read from CUI text has an empty key or a key
/// starting with `#`: such lines are comments.
pub proof fn lemma_cui_keys_not_comments(text: Seq<char>)
    ensures
        no_comment_keys(cui_parse_spec(text).1),
        no_comment_keys(cui_parse_spec(text).2),
{
    lemma_fold_keys(cui_init(), split_nl(text));
}

/// Writing a document with `serialize_cui` and reading the text back with
/// `parse_cui` gives the same two maps, provided every key is non-empty,
/// free of `=`, and no key or value holds a line break or surrounding
/// whitespace, starts a comment, or makes the line look like a `[section]`
/// header.
pub proof fn lemma_cui_round_trip(
    aliases: Map<Seq<char>, Seq<char>>,
    shortcuts: Map<Seq<char>, Seq<char>>,
    ra: Rows,
    rs: Rows,
)
    requires
        is_sorted_listing(ra, aliases),
        is_sorted_listing(rs, shortcuts),
        cui_map_ok(aliases),
        cui_map_ok(shortcuts),
    ensures
        cui_parse_spec(cui_text(ra, rs)).1 == aliases,
        cui_parse_spec(cui_text(ra, rs)).2 == shortcuts,
{
    reveal_strlit("# H7CAD CUI v1\n");
    reveal_strlit("[aliases]\n");
    reveal_strlit("[shortcuts]\n");
    reveal_strlit("aliases");
    reveal_strlit("shortcuts");
    let h1: Seq<char> = "# H7CAD CUI v1\n"@.drop_last();
    let h2: Seq<char> = "[aliases]\n"@.drop_last();
    let h3: Seq<char> = "[shortcuts]\n"@.drop_last();
    lemma_listing_rows_ok(ra, aliases);
    lemma_listing_rows_ok(rs, shortcuts);
    let la = row_lines(ra);
    let ls = row_lines(rs);
    let all = seq![h1, h2] + la + seq![h3] + ls;
    // the text is the concatenation of these lines
    lemma_render_rows(ra);
    lemma_render_rows(rs);
    lemma_concat_lines_append(seq![h1, h2] + la + seq![h3], ls);
    lemma_concat_lines_append(seq![h1, h2] + la, seq![h3]);
    lemma_concat_lines_append(seq![h1, h2], la);
    assert(seq![h1, h2].drop_last() =~= seq![h1]);
    assert(seq![h1].drop_last() =~= Seq::<Seq<char>>::empty());
    assert("# H7CAD CUI v1\n"@ =~= h1.push('\n'));
    assert("[aliases]\n"@ =~= h2.push('\n'));
    assert("[shortcuts]\n"@ =~= h3.push('\n'));
    assert(seq![h1].last() == h1);
    assert(seq![h1, h2].last() == h2);
    assert(seq![h3].last() == h3);
    assert(concat_lines(Seq::<Seq<char>>::empty()) =~= Seq::<char>::empty());
    assert(concat_lines(seq![h1]) =~= Seq::<char>::empty() + h1 + seq!['\n']);
    assert(concat_lines(seq![h1]) =~= "# H7CAD CUI v1\n"@);
    assert(concat_lines(seq![h1, h2]) =~= "# H7CAD CUI v1\n"@ + "[aliases]\n"@);
    assert(seq![h3].drop_last() =~= Seq::<Seq<char>>::empty());
    assert(concat_lines(seq![h3]) =~= "[shortcuts]\n"@);
    assert(cui_text(ra, rs) =~= concat_lines(all));
    assert forall|i: int| 0 <= i < all.len() implies no_newline(#[trigger] all[i]) by {
        if i == 0 {
            assert(all[i] == h1);
        } else if i == 1 {
            assert(all[i] == h2);
        } else if i < 2 + la.len() {
            assert(all[i] == la[i - 2]);
        } else if i == 2 + la.len() {
            assert(all[i] == h3);
        } else {
            assert(all[i] == ls[i - 3 - la.len()]);
        }
    }
    lemma_split_concat(all);
    // reading the lines
    let lines = all.push(Seq::empty());
    assert(lines =~= seq![h1, h2] + la + seq![h3] + ls + seq![Seq::<char>::empty()]);
    lemma_fold_append(cui_init(), seq![h1, h2] + la + seq![h3] + ls, seq![Seq::<char>::empty()]);
    lemma_fold_append(cui_init(), seq![h1, h2] + la + seq![h3], ls);
    lemma_fold_append(cui_init(), seq![h1, h2] + la, seq![h3]);
    lemma_fold_append(cui_init(), seq![h1, h2], la);
    // header comment, then the aliases header
    lemma_trim_of_trimmed(h1);
    lemma_trim_of_trimmed(h2);
    lemma_trim_of_trimmed(h3);
    let s1 = cui_fold(cui_init(), seq![h1]);
    assert(s1 == cui_init()) by {
        assert(seq![h1].drop_last() =~= Seq::<Seq<char>>::empty());
        assert(h1[0] == '#');
        assert(trim(h1) == h1);
        assert(cui_fold(cui_init(), Seq::<Seq<char>>::empty()) == cui_init());
    }
    let inner2 = h2.subrange(1, h2.len() - 1);
    assert(inner2 =~= "aliases"@);
    lemma_trim_of_trimmed(inner2);
    assert(ascii_lower_seq(inner2) =~= "aliases"@);
    let s2 = cui_fold(cui_init(), seq![h1, h2]);
    assert(s2 == (CuiSection::Aliases, Map::<Seq<char>, Seq<char>>::empty(), Map::<
        Seq<char>,
        Seq<char>,
    >::empty()));
    lemma_fold_rows(CuiSection::Aliases, Map::empty(), ra);
    let s3 = cui_fold(cui_init(), seq![h1, h2] + la);
    assert(s3 == (CuiSection::Aliases, map_of(ra), Map::<Seq<char>, Seq<char>>::empty()));
    let inner3 = h3.subrange(1, h3.len() - 1);
    assert(inner3 =~= "shortcuts"@);
    lemma_trim_of_trimmed(inner3);
    assert(ascii_lower_seq(inner3) =~= "shortcuts"@);
    assert(ascii_lower_seq(inner3) != "aliases"@) by {
        assert(ascii_lower_seq(inner3).len() != "aliases"@.len());
    }
    let s4 = cui_fold(cui_init(), seq![h1, h2] + la + seq![h3]);
    assert(s4 == (CuiSection::Shortcuts, map_of(ra), Map::<Seq<char>, Seq<char>>::empty())) by {
        assert(seq![h3].drop_last() =~= Seq::<Seq<char>>::empty());
        assert(cui_fold(s3, Seq::<Seq<char>>::empty()) == s3);
        assert(h3[0] == '[' && h3.last() == ']');
        assert(trim(h3) == h3);
        assert(trim(inner3) == inner3);
        assert(section_named(inner3) == CuiSection::Shortcuts);
        assert(cui_fold(s3, seq![h3]) == cui_step(s3, h3));
    }
    lemma_fold_rows(CuiSection::Shortcuts, map_of(ra), rs);
    let s5 = cui_fold(cui_init(), seq![h1, h2] + la + seq![h3] + ls);
    assert(s5 == (CuiSection::Shortcuts, map_of(ra), map_of(rs)));
    assert(cui_fold(s5, seq![Seq::<char>::empty()]) == s5) by {
        assert(seq![Seq::<char>::empty()].drop_last() =~= Seq::<Seq<char>>::empty());
        assert(seq![Seq::<char>::empty()].last() == Seq::<char>::empty());
        assert(cui_fold(s5, Seq::<Seq<char>>::empty()) == s5);
        assert(trim(Seq::<char>::empty()) =~= Seq::<char>::empty());
        assert(cui_step(s5, Seq::<char>::empty()) == s5);
    }
}

} // verus!
