//! Wine prefix configuration: finding `user.reg` near the game and making
//! sure Wine loads the `winhttp` DLL that BepInEx ships (native first).
use vstd::prelude::*;

use crate::modio_api::join_spec;
use crate::number::{dec_seq, u64_to_dec};
use crate::paths::{join_path, join_path_spec};
use crate::prefix_search::Platform;
use crate::text::{
    append_all, chars_eq, chars_of, char_is_ws, find, first_char_index, first_line, first_line_seq,
    index_of_char, is_first_occurrence, is_ws, join_chars, lemma_first_occurrence, lines,
    lines_seq, lower, lower_seq, opt_view, own, split, split_inclusive_lines, split_inclusive_seq,
    split_seq, starts_with, starts_with_seq, string_of, strip_prefix, subvec, subvec_all, trim,
    trim_seq, ends_with, ends_with_seq, eq_ignore_case, first_occurrence, occurs_at,
};

verus! {

pub const GAME_EXECUTABLE: &'static str = "zeepkist.exe";

/// The DllOverrides section header as Wine writes it in `user.reg` (with
/// doubled backslashes).
pub const USER_REG_DLL_OVERRIDES_SECTION: &'static str = "[Software\\\\Wine\\\\DllOverrides]";

pub const OVERRIDE_VALUE: &'static str = "native,builtin";

pub const WINHTTP_KEY: &'static str = "winhttp";

pub const NOT_FOUND_MESSAGE: &'static str =
    "Could not find a Wine prefix for your game directory. Configure winhttp manually in Wine Configuration (Libraries → winhttp → native, builtin).";

/// Outcome of configuring the winhttp override, as shown to the user.
pub struct WineWinhttpStatus {
    pub state: String,
    pub message: Option<String>,
    pub prefix_label: Option<String>,
}

impl WineWinhttpStatus {
    pub fn not_found() -> (r: WineWinhttpStatus)
        ensures
            r.state@ == "notFound"@,
            opt_view(r.message) == Some(NOT_FOUND_MESSAGE@),
            r.prefix_label is None,
    {
        WineWinhttpStatus {
            state: own("notFound"),
            message: Some(own(NOT_FOUND_MESSAGE)),
            prefix_label: None,
        }
    }

    pub fn already_configured(label: Option<String>) -> (r: WineWinhttpStatus)
        ensures
            r.state@ == "alreadyConfigured"@,
            r.message is None,
            r.prefix_label == label,
    {
        WineWinhttpStatus { state: own("alreadyConfigured"), message: None, prefix_label: label }
    }

    pub fn applied(label: Option<String>) -> (r: WineWinhttpStatus)
        ensures
            r.state@ == "applied"@,
            r.message is None,
            r.prefix_label == label,
    {
        WineWinhttpStatus { state: own("applied"), message: None, prefix_label: label }
    }

    pub fn failed(message: String) -> (r: WineWinhttpStatus)
        ensures
            r.state@ == "failed"@,
            r.message == Some(message),
            r.prefix_label is None,
    {
        WineWinhttpStatus { state: own("failed"), message: Some(message), prefix_label: None }
    }
}

// ---------------------------------------------------------------------------
// Values in user.reg
// ---------------------------------------------------------------------------

/// The text between the first pair of double quotes of the trimmed value,
/// which must start with one.
pub open spec fn parse_quoted_spec(value: Seq<char>) -> Option<Seq<char>> {
    let t = trim_seq(value);
    if t.len() > 0 && t[0] == '"' {
        match first_char_index(t.skip(1), '"') {
            Some(end) => Some(t.skip(1).take(end)),
            None => None,
        }
    } else {
        None
    }
}

pub fn parse_quoted_string(value: &Vec<char>) -> (r: Option<Vec<char>>)
    ensures
        match r {
            Some(v) => parse_quoted_spec(value@) == Some(v@),
            None => parse_quoted_spec(value@) is None,
        },
{
    let t = trim(value);
    if t.len() == 0 || t[0] != '"' {
        return None;
    }
    let inner = subvec(&t, 1, t.len());
    assert(inner@ =~= t@.skip(1));
    match index_of_char(&inner, '"') {
        Some(end) => {
            let v = subvec(&inner, 0, end);
            assert(v@ =~= inner@.take(end as int));
            Some(v)
        },
        None => None,
    }
}

/// `"key"=`, the start of a value line for `key`.
pub open spec fn value_prefix(key: Seq<char>) -> Seq<char> {
    seq!['"'] + key + seq!['"', '=']
}

/// The value of a `"key"="value"` line for `key`.
pub open spec fn parse_reg_value_spec(line: Seq<char>, key: Seq<char>) -> Option<Seq<char>> {
    if starts_with_seq(line, value_prefix(key)) {
        parse_quoted_spec(line.skip(value_prefix(key).len() as int))
    } else {
        None
    }
}

pub fn parse_reg_value_line(line: &Vec<char>, key: &Vec<char>) -> (r: Option<Vec<char>>)
    ensures
        match r {
            Some(v) => parse_reg_value_spec(line@, key@) == Some(v@),
            None => parse_reg_value_spec(line@, key@) is None,
        },
{
    let mut prefix: Vec<char> = Vec::new();
    prefix.push('"');
    append_all(&mut prefix, key);
    prefix.push('"');
    prefix.push('=');
    assert(prefix@ =~= value_prefix(key@));
    match strip_prefix(line, &prefix) {
        Some(rest) => parse_quoted_string(&rest),
        None => None,
    }
}

/// Whitespace removed and ASCII lower-cased, so `native, builtin` and
/// `native,builtin` compare equal.
pub open spec fn normalize_override_spec(value: Seq<char>) -> Seq<char> {
    lower_seq(value.filter(|c: char| !is_ws(c)))
}

pub fn normalize_override_value(value: &Vec<char>) -> (r: Vec<char>)
    ensures
        r@ == normalize_override_spec(value@),
{
    let ghost pred = |c: char| !is_ws(c);
    let mut kept: Vec<char> = Vec::new();
    let mut i: usize = 0;
    proof {
        reveal(Seq::filter);
    }
    assert(value@.take(0) =~= Seq::<char>::empty());
    while i < value.len()
        invariant
            i <= value.len(),
            pred == (|c: char| !is_ws(c)),
            kept@ == value@.take(i as int).filter(pred),
        decreases value.len() - i,
    {
        proof {
            assert(value@.take(i + 1) =~= value@.take(i as int).push(value@[i as int]));
            value@.take(i as int).lemma_filter_push(value@[i as int], pred);
        }
        if !char_is_ws(value[i]) {
            kept.push(value[i]);
        }
        i = i + 1;
    }
    assert(value@.take(i as int) =~= value@);
    lower(&kept)
}

/// `str::replace("\\\\", "\\")`: each pair of backslashes, from the left,
/// becomes one.
pub open spec fn collapse_backslashes(s: Seq<char>) -> Seq<char>
    decreases s.len(),
{
    if s.len() == 0 {
        s
    } else if s.len() >= 2 && s[0] == '\\' && s[1] == '\\' {
        seq!['\\'] + collapse_backslashes(s.skip(2))
    } else {
        seq![s[0]] + collapse_backslashes(s.skip(1))
    }
}

pub fn collapse_backslashes_chars(v: &Vec<char>) -> (r: Vec<char>)
    ensures
        r@ == collapse_backslashes(v@),
{
    let mut out: Vec<char> = Vec::new();
    let mut i: usize = 0;
    assert(v@.skip(0) =~= v@);
    while i < v.len()
        invariant
            i <= v.len(),
            out@ + collapse_backslashes(v@.skip(i as int)) == collapse_backslashes(v@),
        decreases v.len() - i,
    {
        let ghost rest = v@.skip(i as int);
        if i + 1 < v.len() && v[i] == '\\' && v[i + 1] == '\\' {
            assert(rest.skip(2) =~= v@.skip(i + 2));
            out.push('\\');
            assert(out@ + collapse_backslashes(v@.skip(i + 2)) =~= out@.drop_last() + (seq!['\\']
                + collapse_backslashes(rest.skip(2))));
            i = i + 2;
        } else {
            assert(rest.skip(1) =~= v@.skip(i + 1));
            out.push(v[i]);
            assert(out@ + collapse_backslashes(v@.skip(i + 1)) =~= out@.drop_last() + (seq![rest[0]]
                + collapse_backslashes(rest.skip(1))));
            i = i + 1;
        }
    }
    assert(v@.skip(i as int) =~= Seq::<char>::empty());
    assert(out@ + collapse_backslashes(v@.skip(i as int)) =~= out@);
    out
}

/// The Wine key path a DllOverrides header names, lower-cased.
pub open spec fn dll_overrides_name() -> Seq<char> {
    "software\\wine\\dlloverrides"@
}

/// The line is a `[Software\\Wine\\DllOverrides]` header (any case, single
/// or doubled backslashes, anything after the closing bracket).
pub open spec fn is_dll_overrides_section_spec(line: Seq<char>) -> bool {
    let t = trim_seq(line);
    if t.len() > 0 && t[0] == '[' {
        match first_char_index(t.skip(1), ']') {
            Some(close) => lower_seq(collapse_backslashes(t.skip(1).take(close)))
                == dll_overrides_name(),
            None => false,
        }
    } else {
        false
    }
}

pub fn is_dll_overrides_section(line: &Vec<char>) -> (r: bool)
    ensures
        r == is_dll_overrides_section_spec(line@),
{
    let t = trim(line);
    if t.len() == 0 || t[0] != '[' {
        return false;
    }
    let after_open = subvec(&t, 1, t.len());
    assert(after_open@ =~= t@.skip(1));
    match index_of_char(&after_open, ']') {
        Some(close) => {
            let name = subvec(&after_open, 0, close);
            assert(name@ =~= after_open@.take(close as int));
            let normalized = lower(&collapse_backslashes_chars(&name));
            proof {
                reveal_strlit("software\\wine\\dlloverrides");
            }
            chars_eq(&normalized, &chars_of("software\\wine\\dlloverrides"))
        },
        None => false,
    }
}

/// A DllOverrides header followed by a timestamp, as Wine writes the
/// section it maintains (`[...] 1608830137`).
pub open spec fn is_timestamped_spec(line: Seq<char>) -> bool {
    let pieces = split_seq(trim_seq(line), "]"@);
    let after_close = trim_seq(
        if pieces.len() > 1 {
            pieces[1]
        } else {
            Seq::empty()
        },
    );
    is_dll_overrides_section_spec(line) && after_close.len() > 0 && '0' <= after_close[0] <= '9'
}

pub fn is_timestamped_dll_overrides_section(line: &Vec<char>) -> (r: bool)
    ensures
        r == is_timestamped_spec(line@),
{
    if !is_dll_overrides_section(line) {
        return false;
    }
    let t = trim(line);
    let close = chars_of("]");
    proof {
        reveal_strlit("]");
    }
    let pieces = split(&t, &close);
    assert(pieces@.map_values(|x: Vec<char>| x@).len() == pieces@.len());
    let after = if pieces.len() > 1 {
        assert(pieces@.map_values(|x: Vec<char>| x@)[1] == pieces@[1]@);
        trim(&pieces[1])
    } else {
        Vec::new()
    };
    assert(after@ == trim_seq(
        if split_seq(trim_seq(line@), "]"@).len() > 1 {
            split_seq(trim_seq(line@), "]"@)[1]
        } else {
            Seq::empty()
        },
    ));
    after.len() > 0 && '0' <= after[0] && after[0] <= '9'
}

// ---------------------------------------------------------------------------
// Steam manifests
// ---------------------------------------------------------------------------

/// The `installdir` value of a Steam app manifest: the first quoted text
/// after the first `"installdir"` key.
pub open spec fn installdir_spec(content: Seq<char>) -> Option<Seq<char>> {
    let needle = "\"installdir\""@;
    match first_occurrence(content, needle) {
        Some(i) => {
            let after_key = content.skip(i + needle.len());
            match first_char_index(after_key, '"') {
                Some(q) => parse_quoted_spec(after_key.skip(q)),
                None => None,
            }
        },
        None => None,
    }
}

pub fn installdir_from_manifest(content: &str) -> (r: Option<String>)
    ensures
        opt_view(r) == installdir_spec(content@),
{
    let c = chars_of(content);
    let needle = chars_of("\"installdir\"");
    let i = match find(&c, &needle) {
        Some(i) => i,
        None => {
            assert(first_occurrence(c@, needle@) is None);
            return None;
        },
    };
    proof {
        lemma_first_occurrence(c@, needle@, i as int);
    }
    assert(occurs_at(c@, needle@, i as int));
    assert(i + needle.len() <= c.len());
    let key_end: usize = i + needle.len();
    let after_key = subvec(&c, key_end, c.len());
    assert(after_key@ =~= c@.skip(i + needle@.len()));
    let q = match index_of_char(&after_key, '"') {
        Some(q) => q,
        None => return None,
    };
    let quoted = subvec(&after_key, q, after_key.len());
    assert(quoted@ =~= after_key@.skip(q as int));
    match parse_quoted_string(&quoted) {
        Some(v) => Some(string_of(&v)),
        None => None,
    }
}

/// The manifest installs into `installdir`, ignoring ASCII case.
pub fn manifest_matches_installdir(content: &str, installdir: &str) -> (r: bool)
    ensures
        r == (match installdir_spec(content@) {
            Some(v) => lower_seq(v) == lower_seq(installdir@),
            None => false,
        }),
{
    match installdir_from_manifest(content) {
        Some(v) => eq_ignore_case(&chars_of(v.as_str()), &chars_of(installdir)),
        None => false,
    }
}


// ---------------------------------------------------------------------------
// DllOverrides sections
// ---------------------------------------------------------------------------

/// Length of the line starting `s`, newline included.
pub open spec fn piece_len(s: Seq<char>) -> int {
    match first_char_index(s, '\n') {
        Some(i) => if 0 <= i < s.len() {
            i + 1
        } else {
            s.len() as int
        },
        None => s.len() as int,
    }
}

/// The line without its newline, trimmed.
pub open spec fn trimmed_piece(piece: Seq<char>) -> Seq<char> {
    trim_seq(
        if piece.len() > 0 && piece.last() == '\n' {
            piece.drop_last()
        } else {
            piece
        },
    )
}

/// Scans the lines of `s` (found at `off` in a text of length `total`):
/// every line whose trimmed text starts with `[` closes the open section, and
/// opens a new one when it is a DllOverrides header; the section still open
/// at the end runs to the end of the text. Spans are character offsets.
pub open spec fn spans_from(
    s: Seq<char>,
    off: int,
    open: Option<int>,
    acc: Seq<(int, int)>,
    total: int,
) -> Seq<(int, int)>
    decreases s.len(),
{
    if s.len() == 0 {
        match open {
            Some(start) => acc.push((start, total)),
            None => acc,
        }
    } else {
        let plen = piece_len(s);
        let t = trimmed_piece(s.take(plen));
        if plen <= 0 {
            acc
        } else if t.len() > 0 && t[0] == '[' {
            let acc2 = match open {
                Some(start) => acc.push((start, off)),
                None => acc,
            };
            let open2 = if is_dll_overrides_section_spec(t) {
                Some(off)
            } else {
                None
            };
            spans_from(s.skip(plen), off + plen, open2, acc2, total)
        } else {
            spans_from(s.skip(plen), off + plen, open, acc, total)
        }
    }
}

/// The DllOverrides sections of `user.reg`, each from its header line to the
/// next section header (or the end).
pub open spec fn section_spans_spec(content: Seq<char>) -> Seq<(int, int)> {
    spans_from(content, 0, None, Seq::empty(), content.len() as int)
}

/// Spans lie within `0..=bound`, in order, without overlap.
pub open spec fn spans_ordered(spans: Seq<(int, int)>, bound: int) -> bool {
    &&& forall|i: int| 0 <= i < spans.len() ==> 0 <= (#[trigger] spans[i]).0 <= spans[i].1 <= bound
    &&& forall|i: int, j: int| 0 <= i < j < spans.len() ==> (#[trigger] spans[i]).1 <= (#[trigger] spans[j]).0
}

pub open spec fn spans_view(v: Seq<(usize, usize)>) -> Seq<(int, int)> {
    v.map_values(|p: (usize, usize)| (p.0 as int, p.1 as int))
}

pub fn find_dll_overrides_section_spans(content: &Vec<char>) -> (r: Vec<(usize, usize)>)
    ensures
        spans_view(r@) == section_spans_spec(content@),
        spans_ordered(spans_view(r@), content@.len() as int),
{
    let total = content.len();
    let mut spans: Vec<(usize, usize)> = Vec::new();
    let mut open: Option<usize> = None;
    let mut off: usize = 0;
    assert(content@.skip(0) =~= content@);
    assert(spans_view(spans@) =~= Seq::<(int, int)>::empty());
    while off < total
        invariant
            off <= total,
            total == content@.len(),
            spans_from(
                content@.skip(off as int),
                off as int,
                match open {
                    Some(x) => Some(x as int),
                    None => None,
                },
                spans_view(spans@),
                total as int,
            ) == section_spans_spec(content@),
            spans_ordered(spans_view(spans@), off as int),
            open matches Some(x) ==> x <= off,
            open matches Some(x) ==> forall|i: int|
                0 <= i < spans@.len() ==> (#[trigger] spans@[i]).1 <= x,
        decreases total - off,
    {
        let rest = subvec(content, off, total);
        assert(rest@ =~= content@.skip(off as int));
        let plen: usize = match index_of_char(&rest, '\n') {
            Some(i) => i + 1,
            None => rest.len(),
        };
        assert(plen as int == piece_len(rest@));
        let piece = subvec(&rest, 0, plen);
        assert(piece@ =~= rest@.take(plen as int));
        let body = if plen > 0 && piece[plen - 1] == '\n' {
            let b = subvec(&piece, 0, plen - 1);
            assert(b@ =~= piece@.drop_last());
            b
        } else {
            subvec_all(&piece)
        };
        let t = trim(&body);
        assert(t@ == trimmed_piece(rest@.take(plen as int)));
        assert(rest@.skip(plen as int) =~= content@.skip(off + plen));
        let ghost old_spans = spans_view(spans@);
        let ghost old_off = off;
        let ghost old_open = open;
        if t.len() > 0 && t[0] == '[' {
            match open {
                Some(start) => {
                    spans.push((start, off));
                    assert(spans_view(spans@) =~= old_spans.push((start as int, off as int)));
                },
                None => {},
            }
            open = if is_dll_overrides_section(&t) {
                Some(off)
            } else {
                None
            };
        }
        off = off + plen;
        proof {
            let sv = spans_view(spans@);
            if open is Some {
                let x = open->0;
                assert forall|i: int| 0 <= i < spans@.len() implies (#[trigger] spans@[i]).1 <= x by {
                    if i < old_spans.len() {
                        assert(sv[i] == old_spans[i]);
                        assert(spans@[i].1 == sv[i].1);
                    }
                }
            }
            assert forall|i: int| 0 <= i < sv.len() implies 0 <= (#[trigger] sv[i]).0 <= sv[i].1 <= off by {
                if i < old_spans.len() {
                    assert(sv[i] == old_spans[i]);
                }
            }
            assert forall|i: int, j: int| 0 <= i < j < sv.len() implies (#[trigger] sv[i]).1 <= (
            #[trigger] sv[j]).0 by {
                if j < old_spans.len() {
                    assert(sv[i] == old_spans[i]);
                    assert(sv[j] == old_spans[j]);
                } else {
                    assert(sv[i] == old_spans[i]);
                    assert(spans@[i].1 == sv[i].1);
                }
            }
        }
    }
    assert(content@.skip(off as int) =~= Seq::<char>::empty());
    let ghost before = spans_view(spans@);
    match open {
        Some(start) => {
            spans.push((start, total));
            assert(spans_view(spans@) =~= before.push((start as int, total as int)));
            proof {
                let sv = spans_view(spans@);
                assert forall|i: int| 0 <= i < sv.len() implies 0 <= (#[trigger] sv[i]).0 <= sv[i].1 <= total by {
                    if i < before.len() {
                        assert(sv[i] == before[i]);
                    }
                }
                assert forall|i: int, j: int| 0 <= i < j < sv.len() implies (#[trigger] sv[i]).1 <= (
                #[trigger] sv[j]).0 by {
                    assert(sv[i] == before[i]);
                    if j < before.len() {
                        assert(sv[j] == before[j]);
                    } else {
                        assert(spans@[i].1 == sv[i].1);
                    }
                }
            }
        },
        None => {},
    }
    spans
}

/// The trimmed first line of a section: its header.
pub open spec fn span_header(content: Seq<char>, span: (int, int)) -> Seq<char> {
    trim_seq(first_line_seq(content.subrange(span.0, span.1)))
}

/// The first span whose header carries a timestamp.
pub open spec fn first_timestamped_span(content: Seq<char>, spans: Seq<(int, int)>) -> Option<(int, int)>
    decreases spans.len(),
{
    if spans.len() == 0 {
        None
    } else if is_timestamped_spec(span_header(content, spans[0])) {
        Some(spans[0])
    } else {
        first_timestamped_span(content, spans.skip(1))
    }
}

/// The DllOverrides section Wine reads: the first timestamped one, else the
/// first one.
pub open spec fn primary_span_spec(content: Seq<char>) -> Option<(int, int)> {
    let spans = section_spans_spec(content);
    if spans.len() == 0 {
        None
    } else {
        match first_timestamped_span(content, spans) {
            Some(sp) => Some(sp),
            None => Some(spans[0]),
        }
    }
}

fn span_header_exec(content: &Vec<char>, start: usize, end: usize) -> (r: Vec<char>)
    requires
        start <= end <= content@.len(),
    ensures
        r@ == span_header(content@, (start as int, end as int)),
{
    let part = subvec(content, start, end);
    trim(&first_line(&part))
}

pub fn primary_dll_overrides_section_span(content: &Vec<char>) -> (r: Option<(usize, usize)>)
    ensures
        match r {
            Some((a, b)) => primary_span_spec(content@) == Some((a as int, b as int)) && a <= b
                <= content@.len(),
            None => primary_span_spec(content@) is None,
        },
{
    let spans = find_dll_overrides_section_spans(content);
    let ghost sv = spans_view(spans@);
    if spans.len() == 0 {
        return None;
    }
    let mut i: usize = 0;
    assert(sv.skip(0) =~= sv);
    while i < spans.len()
        invariant
            i <= spans.len(),
            sv == spans_view(spans@),
            sv == section_spans_spec(content@),
            spans_ordered(sv, content@.len() as int),
            first_timestamped_span(content@, sv) == first_timestamped_span(content@, sv.skip(i as int)),
        decreases spans.len() - i,
    {
        let (a, b) = spans[i];
        assert(sv[i as int] == (a as int, b as int));
        assert(sv.skip(i as int)[0] == sv[i as int]);
        assert(sv.skip(i as int).skip(1) =~= sv.skip(i + 1));
        if is_timestamped_dll_overrides_section(&span_header_exec(content, a, b)) {
            return Some((a, b));
        }
        i = i + 1;
    }
    assert(sv.skip(i as int) =~= Seq::<(int, int)>::empty());
    let (a, b) = spans[0];
    assert(sv[0] == (a as int, b as int));
    Some((a, b))
}

/// The value of the first `"key"=` line of a section, skipping headers and
/// comments.
pub open spec fn first_value_spec(ls: Seq<Seq<char>>, key: Seq<char>) -> Option<Seq<char>>
    decreases ls.len(),
{
    if ls.len() == 0 {
        None
    } else {
        let t = trim_seq(ls[0]);
        if t.len() > 0 && (t[0] == '[' || t[0] == '#') {
            first_value_spec(ls.skip(1), key)
        } else {
            match parse_reg_value_spec(t, key) {
                Some(v) => Some(v),
                None => first_value_spec(ls.skip(1), key),
            }
        }
    }
}

pub fn read_dll_override_value_in_span(content: &Vec<char>, start: usize, end: usize, key: &Vec<char>) -> (r:
    Option<Vec<char>>)
    requires
        start <= end <= content@.len(),
    ensures
        match r {
            Some(v) => first_value_spec(lines_seq(content@.subrange(start as int, end as int)), key@)
                == Some(v@),
            None => first_value_spec(lines_seq(content@.subrange(start as int, end as int)), key@) is None,
        },
{
    let part = subvec(content, start, end);
    let ls = lines(&part);
    let ghost lv = ls@.map_values(|x: Vec<char>| x@);
    let mut i: usize = 0;
    assert(lv.skip(0) =~= lv);
    while i < ls.len()
        invariant
            i <= ls.len(),
            lv == ls@.map_values(|x: Vec<char>| x@),
            lv == lines_seq(part@),
            part@ == content@.subrange(start as int, end as int),
            first_value_spec(lv, key@) == first_value_spec(lv.skip(i as int), key@),
        decreases ls.len() - i,
    {
        assert(lv.skip(i as int)[0] == ls@[i as int]@);
        assert(lv.skip(i as int).skip(1) =~= lv.skip(i + 1));
        let t = trim(&ls[i]);
        if t.len() > 0 && (t[0] == '[' || t[0] == '#') {
            i = i + 1;
        } else {
            match parse_reg_value_line(&t, key) {
                Some(v) => return Some(v),
                None => {
                    i = i + 1;
                },
            }
        }
    }
    assert(lv.skip(i as int) =~= Seq::<Seq<char>>::empty());
    None
}

/// Wine loads winhttp native first: the primary DllOverrides section has a
/// `winhttp` value equal to `native,builtin` up to spaces and case.
pub open spec fn is_winhttp_configured_spec(content: Seq<char>) -> bool {
    match primary_span_spec(content) {
        Some(sp) => match first_value_spec(lines_seq(content.subrange(sp.0, sp.1)), WINHTTP_KEY@) {
            Some(v) => normalize_override_spec(v) == normalize_override_spec(OVERRIDE_VALUE@),
            None => false,
        },
        None => false,
    }
}

pub fn is_winhttp_configured(content: &str) -> (r: bool)
    ensures
        r == is_winhttp_configured_spec(content@),
{
    is_winhttp_configured_chars(&chars_of(content))
}

fn is_winhttp_configured_chars(c: &Vec<char>) -> (r: bool)
    ensures
        r == is_winhttp_configured_spec(c@),
{
    let expected = normalize_override_value(&chars_of(OVERRIDE_VALUE));
    let (a, b) = match primary_dll_overrides_section_span(c) {
        Some(sp) => sp,
        None => return false,
    };
    match read_dll_override_value_in_span(c, a, b, &chars_of(WINHTTP_KEY)) {
        Some(v) => chars_eq(&normalize_override_value(&v), &expected),
        None => false,
    }
}


// ---------------------------------------------------------------------------
// Editing user.reg
// ---------------------------------------------------------------------------

/// Some section's header, read from its start to the end of the text,
/// carries a timestamp.
pub open spec fn has_timestamped_span(content: Seq<char>, spans: Seq<(int, int)>) -> bool {
    exists|i: int|
        0 <= i < spans.len() && is_timestamped_spec(
            trim_seq(first_line_seq(content.skip((#[trigger] spans[i]).0))),
        )
}

/// The text with every plain (untimestamped) DllOverrides section among
/// `spans` cut out, from `cursor` on.
pub open spec fn kept_text(content: Seq<char>, spans: Seq<(int, int)>, cursor: int) -> Seq<char>
    decreases spans.len(),
{
    if spans.len() == 0 {
        content.subrange(cursor, content.len() as int)
    } else {
        let h = span_header(content, spans[0]);
        if is_dll_overrides_section_spec(h) && !is_timestamped_spec(h) {
            content.subrange(cursor, spans[0].0) + kept_text(content, spans.skip(1), spans[0].1)
        } else {
            kept_text(content, spans.skip(1), cursor)
        }
    }
}

/// When Wine keeps a timestamped DllOverrides section, plain duplicates of
/// it are dropped (Wine would ignore them).
pub open spec fn remove_plain_duplicates_spec(content: Seq<char>) -> Seq<char> {
    let spans = section_spans_spec(content);
    if has_timestamped_span(content, spans) {
        kept_text(content, spans, 0)
    } else {
        content
    }
}

pub fn remove_plain_duplicate_dll_overrides_sections(content: &Vec<char>) -> (r: Vec<char>)
    ensures
        r@ == remove_plain_duplicates_spec(content@),
{
    let spans = find_dll_overrides_section_spans(content);
    let ghost sv = spans_view(spans@);
    let mut has_ts = false;
    let mut i: usize = 0;
    while i < spans.len()
        invariant
            i <= spans.len(),
            sv == spans_view(spans@),
            spans_ordered(sv, content@.len() as int),
            has_ts == exists|j: int|
                0 <= j < i && is_timestamped_spec(trim_seq(first_line_seq(content@.skip((#[trigger] sv[j]).0)))),
        decreases spans.len() - i,
    {
        let (a, _b) = spans[i];
        assert(sv[i as int] == (a as int, _b as int));
        let rest = subvec(content, a, content.len());
        assert(rest@ =~= content@.skip(a as int));
        if is_timestamped_dll_overrides_section(&trim(&first_line(&rest))) {
            has_ts = true;
        }
        i = i + 1;
    }
    if !has_ts {
        return subvec_all(content);
    }
    let mut removed: Vec<char> = Vec::new();
    let mut cursor: usize = 0;
    let mut k: usize = 0;
    assert(sv.skip(0) =~= sv);
    while k < spans.len()
        invariant
            k <= spans.len(),
            sv == spans_view(spans@),
            sv == section_spans_spec(content@),
            spans_ordered(sv, content@.len() as int),
            cursor <= content@.len(),
            forall|j: int| k <= j < sv.len() ==> cursor <= (#[trigger] sv[j]).0,
            removed@ + kept_text(content@, sv.skip(k as int), cursor as int) == kept_text(content@, sv, 0),
        decreases spans.len() - k,
    {
        let (a, b) = spans[k];
        assert(sv[k as int] == (a as int, b as int));
        assert(sv.skip(k as int)[0] == sv[k as int]);
        assert(sv.skip(k as int).skip(1) =~= sv.skip(k + 1));
        let h = span_header_exec(content, a, b);
        if is_dll_overrides_section(&h) && !is_timestamped_dll_overrides_section(&h) {
            let piece = subvec(content, cursor, a);
            let ghost before = removed@;
            append_all(&mut removed, &piece);
            assert(removed@ + kept_text(content@, sv.skip(k + 1), b as int) =~= before + (
            content@.subrange(cursor as int, a as int) + kept_text(content@, sv.skip(k + 1), b as int)));
            cursor = b;
            assert forall|j: int| k + 1 <= j < sv.len() implies cursor <= (#[trigger] sv[j]).0 by {
                assert(sv[k as int].1 <= sv[j].0);
            }
        }
        k = k + 1;
    }
    assert(sv.skip(k as int) =~= Seq::<(int, int)>::empty());
    let tail = subvec(content, cursor, content.len());
    append_all(&mut removed, &tail);
    removed
}

/// Lexicographic order of characters (`String::cmp` is not `Greater`).
pub open spec fn lex_le(a: Seq<char>, b: Seq<char>) -> bool
    decreases a.len(),
{
    if a.len() == 0 {
        true
    } else if b.len() == 0 {
        false
    } else if a[0] != b[0] {
        a[0] < b[0]
    } else {
        lex_le(a.skip(1), b.skip(1))
    }
}

pub(crate) fn lex_le_exec(a: &Vec<char>, b: &Vec<char>) -> (r: bool)
    ensures
        r == lex_le(a@, b@),
{
    let mut i: usize = 0;
    assert(a@.skip(0) =~= a@);
    assert(b@.skip(0) =~= b@);
    while i < a.len() && i < b.len() && a[i] == b[i]
        invariant
            i <= a.len(),
            i <= b.len(),
            lex_le(a@, b@) == lex_le(a@.skip(i as int), b@.skip(i as int)),
        decreases a.len() - i,
    {
        assert(a@.skip(i as int).skip(1) =~= a@.skip(i + 1));
        assert(b@.skip(i as int).skip(1) =~= b@.skip(i + 1));
        i = i + 1;
    }
    if i == a.len() {
        return true;
    }
    if i == b.len() {
        return false;
    }
    a[i] < b[i]
}

/// The key of a `"key"=...` line.
pub open spec fn reg_entry_key_spec(line: Seq<char>) -> Option<Seq<char>> {
    let t = trim_seq(line);
    if t.len() > 0 && t[0] == '"' {
        parse_quoted_spec(t)
    } else {
        None
    }
}

pub fn reg_entry_key(line: &Vec<char>) -> (r: Option<Vec<char>>)
    ensures
        match r {
            Some(k) => reg_entry_key_spec(line@) == Some(k@),
            None => reg_entry_key_spec(line@) is None,
        },
{
    let t = trim(line);
    if t.len() == 0 || t[0] != '"' {
        return None;
    }
    parse_quoted_string(&t)
}

/// Number of blank lines at the end.
pub open spec fn trailing_blanks(ls: Seq<Seq<char>>) -> nat
    decreases ls.len(),
{
    if ls.len() > 0 && trim_seq(ls.last()).len() == 0 {
        1 + trailing_blanks(ls.drop_last())
    } else {
        0
    }
}

/// The lines without the blank ones at the end.
pub open spec fn drop_trailing_blanks(ls: Seq<Seq<char>>) -> Seq<Seq<char>>
    decreases ls.len(),
{
    if ls.len() > 0 && trim_seq(ls.last()).len() == 0 {
        drop_trailing_blanks(ls.drop_last())
    } else {
        ls
    }
}

/// The lines of a section split into those before the first entry, the
/// entries other than `key` (with their keys), and the other lines after.
pub open spec fn classify_lines(ls: Seq<Seq<char>>, key: Seq<char>) -> (
    Seq<Seq<char>>,
    Seq<(Seq<char>, Seq<char>)>,
    Seq<Seq<char>>,
    bool,
)
    decreases ls.len(),
{
    if ls.len() == 0 {
        (Seq::empty(), Seq::empty(), Seq::empty(), false)
    } else {
        let prev = classify_lines(ls.drop_last(), key);
        let line = ls.last();
        match reg_entry_key_spec(line) {
            Some(k) => (prev.0, if k != key {
                prev.1.push((k, line))
            } else {
                prev.1
            }, prev.2, true),
            None => if !prev.3 {
                (prev.0.push(line), prev.1, prev.2, prev.3)
            } else {
                (prev.0, prev.1, prev.2.push(line), prev.3)
            },
        }
    }
}

/// How many leading entries sort at or before `x` (by lower-cased key).
pub open spec fn insert_pos(sorted: Seq<(Seq<char>, Seq<char>)>, x: (Seq<char>, Seq<char>)) -> int
    decreases sorted.len(),
{
    if sorted.len() > 0 && lex_le(lower_seq(sorted[0].0), lower_seq(x.0)) {
        1 + insert_pos(sorted.skip(1), x)
    } else {
        0
    }
}

/// Stable sort by lower-cased key (`sort_by` with an ASCII case-insensitive
/// comparison): each entry goes after all earlier ones that sort at or
/// before it.
pub open spec fn sort_entries(s: Seq<(Seq<char>, Seq<char>)>) -> Seq<(Seq<char>, Seq<char>)>
    decreases s.len(),
{
    if s.len() == 0 {
        s
    } else {
        let t = sort_entries(s.drop_last());
        let k = insert_pos(t, s.last());
        t.take(k).push(s.last()) + t.skip(k)
    }
}

/// `"key"="value"`.
pub open spec fn entry_line(key: Seq<char>, value: Seq<char>) -> Seq<char> {
    seq!['"'] + key + seq!['"', '=', '"'] + value + seq!['"']
}

/// The section with `key` set to `value`: any entries for `key` are replaced
/// by one, entries stay sorted by lower-cased key, other lines keep their
/// place, and the blank lines that ended the section are kept.
pub open spec fn upsert_spec(section: Seq<char>, key: Seq<char>, value: Seq<char>) -> Seq<char> {
    let ls = lines_seq(section);
    let c = classify_lines(ls, key);
    let sorted = sort_entries(c.1.push((key, entry_line(key, value))));
    let result = drop_trailing_blanks(
        c.0 + sorted.map_values(|e: (Seq<char>, Seq<char>)| e.1) + c.2,
    );
    join_spec(result, "\n"@) + Seq::new(trailing_blanks(ls) + 1, |i: int| '\n')
}

pub open spec fn pairs_view(v: Seq<(Vec<char>, Vec<char>)>) -> Seq<(Seq<char>, Seq<char>)> {
    v.map_values(|p: (Vec<char>, Vec<char>)| (p.0@, p.1@))
}

fn insert_sorted(sorted: &mut Vec<(Vec<char>, Vec<char>)>, x: (Vec<char>, Vec<char>))
    ensures
        pairs_view(final(sorted)@) == pairs_view(old(sorted)@).take(
            insert_pos(pairs_view(old(sorted)@), (x.0@, x.1@)),
        ).push((x.0@, x.1@)) + pairs_view(old(sorted)@).skip(
            insert_pos(pairs_view(old(sorted)@), (x.0@, x.1@)),
        ),
{
    let ghost sv = pairs_view(sorted@);
    let ghost xv = (x.0@, x.1@);
    let xl = lower(&x.0);
    let mut k: usize = 0;
    assert(sv.skip(0) =~= sv);
    while k < sorted.len() && lex_le_exec(&lower(&sorted[k].0), &xl)
        invariant
            k <= sorted.len(),
            sv == pairs_view(sorted@),
            xl@ == lower_seq(xv.0),
            xv == (x.0@, x.1@),
            insert_pos(sv, xv) == k + insert_pos(sv.skip(k as int), xv),
        decreases sorted.len() - k,
    {
        assert(sv.skip(k as int)[0] == sv[k as int]);
        assert(sv.skip(k as int).skip(1) =~= sv.skip(k + 1));
        k = k + 1;
    }
    if k < sorted.len() {
        assert(sv.skip(k as int)[0] == sv[k as int]);
    }
    assert(insert_pos(sv.skip(k as int), xv) == 0);
    sorted.insert(k, x);
    assert(pairs_view(sorted@) =~= sv.take(k as int).push(xv) + sv.skip(k as int));
}

fn upsert_reg_entry_in_section(section: &Vec<char>, key: &Vec<char>, value: &Vec<char>) -> (r: Vec<char>)
    ensures
        r@ == upsert_spec(section@, key@, value@),
{
    let ls = lines(section);
    let ghost lv = ls@.map_values(|x: Vec<char>| x@);
    // trailing blank lines
    let mut tb: usize = 0;
    let mut j: usize = ls.len();
    assert(lv.take(j as int) =~= lv);
    while j > 0 && trim(&ls[j - 1]).len() == 0
        invariant
            j <= ls.len(),
            tb + j == ls.len(),
            lv == ls@.map_values(|x: Vec<char>| x@),
            trailing_blanks(lv) == tb + trailing_blanks(lv.take(j as int)),
        decreases j,
    {
        assert(lv.take(j as int).last() == ls@[j - 1]@);
        assert(lv.take(j as int).drop_last() =~= lv.take(j - 1));
        tb = tb + 1;
        j = j - 1;
    }
    if j > 0 {
        assert(lv.take(j as int).last() == ls@[j - 1]@);
    }
    assert(trailing_blanks(lv.take(j as int)) == 0);
    // classify
    let mut prefix: Vec<Vec<char>> = Vec::new();
    let mut entries: Vec<(Vec<char>, Vec<char>)> = Vec::new();
    let mut suffix: Vec<Vec<char>> = Vec::new();
    let mut seen = false;
    let mut i: usize = 0;
    assert(lv.take(0) =~= Seq::<Seq<char>>::empty());
    while i < ls.len()
        invariant
            i <= ls.len(),
            lv == ls@.map_values(|x: Vec<char>| x@),
            (prefix@.map_values(|x: Vec<char>| x@), pairs_view(entries@), suffix@.map_values(
                |x: Vec<char>| x@,
            ), seen) == classify_lines(lv.take(i as int), key@),
        decreases ls.len() - i,
    {
        assert(lv.take(i + 1).drop_last() =~= lv.take(i as int));
        assert(lv.take(i + 1).last() == ls@[i as int]@);
        let line = subvec_all(&ls[i]);
        match reg_entry_key(&line) {
            Some(k) => {
                seen = true;
                if !chars_eq(&k, key) {
                    let ghost before = pairs_view(entries@);
                    entries.push((k, line));
                    assert(pairs_view(entries@) =~= before.push((k@, line@)));
                }
            },
            None => {
                if !seen {
                    let ghost before = prefix@.map_values(|x: Vec<char>| x@);
                    prefix.push(line);
                    assert(prefix@.map_values(|x: Vec<char>| x@) =~= before.push(line@));
                } else {
                    let ghost before = suffix@.map_values(|x: Vec<char>| x@);
                    suffix.push(line);
                    assert(suffix@.map_values(|x: Vec<char>| x@) =~= before.push(line@));
                }
            },
        }
        i = i + 1;
    }
    assert(lv.take(i as int) =~= lv);
    // the new entry
    let mut entry: Vec<char> = Vec::new();
    entry.push('"');
    append_all(&mut entry, key);
    entry.push('"');
    entry.push('=');
    entry.push('"');
    append_all(&mut entry, value);
    entry.push('"');
    assert(entry@ =~= entry_line(key@, value@));
    let ghost all_entries = pairs_view(entries@).push((key@, entry@));
    entries.push((subvec_all(key), entry));
    assert(pairs_view(entries@) =~= all_entries);
    // stable sort
    let mut sorted: Vec<(Vec<char>, Vec<char>)> = Vec::new();
    let mut src = entries;
    let mut n: usize = 0;
    let total = src.len();
    assert(all_entries.take(0) =~= Seq::<(Seq<char>, Seq<char>)>::empty());
    while src.len() > 0
        invariant
            n + src@.len() == total,
            total == all_entries.len(),
            pairs_view(src@) == all_entries.skip(n as int),
            pairs_view(sorted@) == sort_entries(all_entries.take(n as int)),
        decreases src.len(),
    {
        let ghost s0 = src@;
        let x = src.remove(0);
        assert(x == s0[0]);
        assert(pairs_view(s0)[0] == (s0[0].0@, s0[0].1@));
        assert(pairs_view(s0)[0] == all_entries.skip(n as int)[0]);
        assert(pairs_view(src@) =~= pairs_view(s0).skip(1));
        assert((x.0@, x.1@) == all_entries[n as int]);
        assert(all_entries.take(n + 1).drop_last() =~= all_entries.take(n as int));
        assert(all_entries.take(n + 1).last() == all_entries[n as int]);
        insert_sorted(&mut sorted, x);
        n = n + 1;
        assert(all_entries.skip(n as int) =~= all_entries.skip(n - 1).skip(1));
    }
    assert(all_entries.take(n as int) =~= all_entries);
    // reassemble
    let mut result: Vec<Vec<char>> = prefix;
    let ghost rp = result@.map_values(|x: Vec<char>| x@);
    let mut q: usize = 0;
    while q < sorted.len()
        invariant
            q <= sorted.len(),
            result@.map_values(|x: Vec<char>| x@) == rp + pairs_view(sorted@).take(q as int).map_values(
                |e: (Seq<char>, Seq<char>)| e.1,
            ),
        decreases sorted.len() - q,
    {
        let ghost before = result@.map_values(|x: Vec<char>| x@);
        result.push(subvec_all(&sorted[q].1));
        q = q + 1;
        assert(pairs_view(sorted@).take(q as int).map_values(|e: (Seq<char>, Seq<char>)| e.1)
            =~= pairs_view(sorted@).take(q - 1).map_values(|e: (Seq<char>, Seq<char>)| e.1).push(
            sorted@[q - 1].1@,
        ));
        assert(result@.map_values(|x: Vec<char>| x@) =~= before.push(sorted@[q - 1].1@));
    }
    assert(pairs_view(sorted@).take(q as int) =~= pairs_view(sorted@));
    let ghost mid = result@.map_values(|x: Vec<char>| x@);
    let mut w: usize = 0;
    while w < suffix.len()
        invariant
            w <= suffix.len(),
            result@.map_values(|x: Vec<char>| x@) == mid + suffix@.map_values(|x: Vec<char>| x@).take(
                w as int,
            ),
        decreases suffix.len() - w,
    {
        let ghost before = result@.map_values(|x: Vec<char>| x@);
        result.push(subvec_all(&suffix[w]));
        assert(suffix@.map_values(|x: Vec<char>| x@).take(w + 1) =~= suffix@.map_values(
            |x: Vec<char>| x@,
        ).take(w as int).push(suffix@[w as int]@));
        assert(result@.map_values(|x: Vec<char>| x@) =~= before.push(suffix@[w as int]@));
        w = w + 1;
        assert(result@.map_values(|x: Vec<char>| x@) =~= mid + suffix@.map_values(|x: Vec<char>| x@).take(
            w as int,
        ));
    }
    assert(suffix@.map_values(|x: Vec<char>| x@).take(w as int) =~= suffix@.map_values(
        |x: Vec<char>| x@,
    ));
    // drop trailing blank lines
    let ghost full = result@.map_values(|x: Vec<char>| x@);
    while result.len() > 0 && trim(&result[result.len() - 1]).len() == 0
        invariant
            drop_trailing_blanks(result@.map_values(|x: Vec<char>| x@)) == drop_trailing_blanks(full),
        decreases result.len(),
    {
        let ghost before = result@.map_values(|x: Vec<char>| x@);
        assert(before.last() == result@[result.len() - 1]@);
        result.pop();
        assert(result@.map_values(|x: Vec<char>| x@) =~= before.drop_last());
    }
    if result.len() > 0 {
        assert(result@.map_values(|x: Vec<char>| x@).last() == result@[result.len() - 1]@);
    }
    let nl = chars_of("\n");
    proof {
        reveal_strlit("\n");
    }
    let mut out = join_chars(&result, &nl);
    let ghost joined = out@;
    out.push('\n');
    assert(out@ =~= joined + Seq::new(1, |i: int| '\n'));
    let mut m: usize = 0;
    while m < tb
        invariant
            m <= tb,
            out@ == joined + Seq::new((m + 1) as nat, |i: int| '\n'),
        decreases tb - m,
    {
        out.push('\n');
        m = m + 1;
        assert(out@ =~= joined + Seq::new((m + 1) as nat, |i: int| '\n'));
    }
    out
}

/// The content with winhttp set to `native,builtin`: plain duplicate
/// sections are dropped first; an already configured file is left as it is;
/// otherwise the primary DllOverrides section gets the entry, or a new
/// section with it is appended.
pub open spec fn merge_spec(content: Seq<char>) -> Seq<char> {
    let c = remove_plain_duplicates_spec(content);
    if is_winhttp_configured_spec(c) {
        c
    } else {
        match primary_span_spec(c) {
            Some(sp) => c.take(sp.0) + upsert_spec(c.subrange(sp.0, sp.1), WINHTTP_KEY@, OVERRIDE_VALUE@)
                + c.skip(sp.1),
            None => {
                let m = if c.len() > 0 && c.last() == '\n' {
                    c
                } else {
                    c.push('\n')
                };
                m + seq!['\n'] + USER_REG_DLL_OVERRIDES_SECTION@ + seq!['\n'] + entry_line(
                    WINHTTP_KEY@,
                    OVERRIDE_VALUE@,
                ) + seq!['\n']
            },
        }
    }
}

/// `user.reg` text with the winhttp override set (see `merge_spec`); the
/// result always has the override, and merging it again changes nothing.
pub fn merge_winhttp_overrides(content: &str) -> (r: String)
    ensures
        r@ == merge_spec(content@),
        is_winhttp_configured_spec(r@),
        merge_spec(r@) == r@,
{
    let r = merge_overrides_text(content);
    proof {
        crate::user_reg_proofs::lemma_merge_configures(content@);
        crate::user_reg_proofs::lemma_merge_idempotent(content@);
    }
    r
}

fn merge_overrides_text(content: &str) -> (r: String)
    ensures
        r@ == merge_spec(content@),
{
    let c = remove_plain_duplicate_dll_overrides_sections(&chars_of(content));
    if is_winhttp_configured_chars(&c) {
        return string_of(&c);
    }
    match primary_dll_overrides_section_span(&c) {
        Some((a, b)) => {
            let section = subvec(&c, a, b);
            let updated = upsert_reg_entry_in_section(
                &section,
                &chars_of(WINHTTP_KEY),
                &chars_of(OVERRIDE_VALUE),
            );
            let mut out = subvec(&c, 0, a);
            assert(out@ =~= c@.take(a as int));
            append_all(&mut out, &updated);
            let tail = subvec(&c, b, c.len());
            assert(tail@ =~= c@.skip(b as int));
            append_all(&mut out, &tail);
            string_of(&out)
        },
        None => {
            let mut m = subvec_all(&c);
            if !(m.len() > 0 && m[m.len() - 1] == '\n') {
                m.push('\n');
            }
            m.push('\n');
            append_all(&mut m, &chars_of(USER_REG_DLL_OVERRIDES_SECTION));
            m.push('\n');
            let mut entry: Vec<char> = Vec::new();
            entry.push('"');
            append_all(&mut entry, &chars_of(WINHTTP_KEY));
            entry.push('"');
            entry.push('=');
            entry.push('"');
            append_all(&mut entry, &chars_of(OVERRIDE_VALUE));
            entry.push('"');
            assert(entry@ =~= entry_line(WINHTTP_KEY@, OVERRIDE_VALUE@));
            append_all(&mut m, &entry);
            m.push('\n');
            string_of(&m)
        },
    }
}


// ---------------------------------------------------------------------------
// Configuring a prefix
// ---------------------------------------------------------------------------

/// A Wine prefix: its directory and the name shown for it.
pub struct WinePrefix {
    pub path: String,
    pub label: Option<String>,
}

/// The next step of configuring winhttp once the prefix's `user.reg` was read.
pub enum WinhttpPlan {
    /// Nothing to change; report this.
    Done(WineWinhttpStatus),
    /// Set the override (with `wine reg`, or by writing `merged` to
    /// `user.reg` when that fails) and report it under `label`.
    Apply { label: Option<String>, merged: String },
}

/// `<prefix>/user.reg`.
pub fn user_reg_path(prefix: &WinePrefix) -> (r: String)
    ensures
        r@ == join_path_spec(prefix.path@, "user.reg"@),
{
    join_path(prefix.path.as_str(), "user.reg")
}

/// Configures the winhttp override given the prefix found for the game (if
/// any) and what reading its `user.reg` gave: no prefix is `notFound`, an
/// unreadable file `failed`, an existing override `alreadyConfigured`;
/// otherwise the override must be applied.
pub fn configure_winhttp_override(prefix: Option<WinePrefix>, user_reg: Result<String, String>) -> (r:
    WinhttpPlan)
    ensures
        prefix is None ==> (r matches WinhttpPlan::Done(st) && st.state@ == "notFound"@),
        prefix matches Some(p) ==> match user_reg {
            Err(e) => r matches WinhttpPlan::Done(st) && st.state@ == "failed"@ && opt_view(st.message)
                == Some("Could not read "@ + join_path_spec(p.path@, "user.reg"@) + ": "@ + e@),
            Ok(content) => if is_winhttp_configured_spec(content@) {
                r matches WinhttpPlan::Done(st) && st.state@ == "alreadyConfigured"@
                    && st.prefix_label == p.label
            } else {
                r matches WinhttpPlan::Apply { label, merged } && label == p.label && merged@
                    == merge_spec(content@)
            },
        },
{
    let p = match prefix {
        Some(p) => p,
        None => return WinhttpPlan::Done(WineWinhttpStatus::not_found()),
    };
    match user_reg {
        Err(e) => {
            let mut m = chars_of("Could not read ");
            append_all(&mut m, &chars_of(user_reg_path(&p).as_str()));
            append_all(&mut m, &chars_of(": "));
            append_all(&mut m, &chars_of(e.as_str()));
            WinhttpPlan::Done(WineWinhttpStatus::failed(string_of(&m)))
        },
        Ok(content) => {
            if is_winhttp_configured(content.as_str()) {
                WinhttpPlan::Done(WineWinhttpStatus::already_configured(p.label))
            } else {
                let merged = merge_winhttp_overrides(content.as_str());
                WinhttpPlan::Apply { label: p.label, merged }
            }
        },
    }
}

/// `user.reg` is rewritten only when the merge changed it.
pub fn user_reg_needs_write(content: &str, merged: &str) -> (r: bool)
    ensures
        r == (content@ != merged@),
{
    !chars_eq(&chars_of(content), &chars_of(merged))
}

/// The status after applying: `applied` when `wine reg` worked or, failing
/// that, when writing `user.reg` did; otherwise `failed` with the write error.
pub fn finish_winhttp_override(
    label: Option<String>,
    wine_reg: Result<(), String>,
    user_reg_write: Result<(), String>,
) -> (r: WineWinhttpStatus)
    ensures
        (wine_reg is Ok || user_reg_write is Ok) ==> r.state@ == "applied"@ && r.prefix_label == label,
        (wine_reg is Err && user_reg_write is Err) ==> r.state@ == "failed"@ && r.message == Some(
            user_reg_write->Err_0,
        ),
{
    match wine_reg {
        Ok(()) => WineWinhttpStatus::applied(label),
        Err(_) => match user_reg_write {
            Ok(()) => WineWinhttpStatus::applied(label),
            Err(e) => WineWinhttpStatus::failed(e),
        },
    }
}

/// The app id named by a Steam manifest file name, `appmanifest_<id>.acf`.
pub open spec fn app_id_from_manifest_spec(name: Seq<char>) -> Option<Seq<char>> {
    let p = "appmanifest_"@;
    let sfx = ".acf"@;
    if starts_with_seq(name, p) && ends_with_seq(name.skip(p.len() as int), sfx) {
        Some(name.skip(p.len() as int).take(name.len() - p.len() - sfx.len()))
    } else {
        None
    }
}

pub fn app_id_from_manifest_name(name: &str) -> (r: Option<String>)
    ensures
        opt_view(r) == app_id_from_manifest_spec(name@),
{
    let n = chars_of(name);
    let rest = match strip_prefix(&n, &chars_of("appmanifest_")) {
        Some(rest) => rest,
        None => return None,
    };
    let sfx = chars_of(".acf");
    proof {
        reveal_strlit("appmanifest_");
        reveal_strlit(".acf");
    }
    if !ends_with(&rest, &sfx) {
        return None;
    }
    let id = subvec(&rest, 0, rest.len() - sfx.len());
    assert(id@ =~= n@.skip(12).take(n@.len() - 12 - 4));
    Some(string_of(&id))
}

/// The Proton prefix of a Steam app: `<steamapps>/compatdata/<id>/pfx`,
/// shown as `Steam app <id>`.
pub fn proton_prefix(steamapps: &str, app_id: &str) -> (r: WinePrefix)
    ensures
        r.path@ == join_path_spec(join_path_spec(join_path_spec(steamapps@, "compatdata"@), app_id@), "pfx"@),
        opt_view(r.label) == Some("Steam app "@ + app_id@),
{
    let a = join_path(steamapps, "compatdata");
    let b = join_path(a.as_str(), app_id);
    let path = join_path(b.as_str(), "pfx");
    let mut label = chars_of("Steam app ");
    append_all(&mut label, &chars_of(app_id));
    WinePrefix { path, label: Some(string_of(&label)) }
}

// ---------------------------------------------------------------------------
// Setting the override through `wine reg`
// ---------------------------------------------------------------------------

/// The registry key that holds Wine's DLL overrides, as `wine reg` names it.
pub const WINE_DLL_OVERRIDES_KEY: &'static str = "HKCU\\Software\\Wine\\DllOverrides";

/// The override names `wine reg` sets, in order.
pub fn wine_reg_winhttp_keys() -> (r: Vec<String>)
    ensures
        r@.len() == 2,
        r@[0]@ == WINHTTP_KEY@,
        r@[1]@ == "*winhttp"@,
{
    let mut v: Vec<String> = Vec::new();
    v.push(own(WINHTTP_KEY));
    v.push(own("*winhttp"));
    v
}

/// The arguments of `wine reg` that set override `key` to
/// `native,builtin`.
pub fn wine_reg_add_args(key: &str) -> (r: Vec<String>)
    ensures
        r@.len() == 10,
        r@[0]@ == "reg"@,
        r@[1]@ == "add"@,
        r@[2]@ == WINE_DLL_OVERRIDES_KEY@,
        r@[3]@ == "/v"@,
        r@[4]@ == key@,
        r@[5]@ == "/t"@,
        r@[6]@ == "REG_SZ"@,
        r@[7]@ == "/d"@,
        r@[8]@ == OVERRIDE_VALUE@,
        r@[9]@ == "/f"@,
{
    let mut v: Vec<String> = Vec::new();
    v.push(own("reg"));
    v.push(own("add"));
    v.push(own(WINE_DLL_OVERRIDES_KEY));
    v.push(own("/v"));
    v.push(own(key));
    v.push(own("/t"));
    v.push(own("REG_SZ"));
    v.push(own("/d"));
    v.push(own(OVERRIDE_VALUE));
    v.push(own("/f"));
    v
}

/// The error when `wine reg add` for `key` exits unsuccessfully, with what
/// it printed.
pub fn wine_reg_failure(key: &str, stdout: &str, stderr: &str) -> (r: String)
    ensures
        r@ == "wine reg add for "@ + key@ + " failed: "@ + stdout@ + " "@ + stderr@,
{
    let mut m = chars_of("wine reg add for ");
    append_all(&mut m, &chars_of(key));
    append_all(&mut m, &chars_of(" failed: "));
    append_all(&mut m, &chars_of(stdout));
    append_all(&mut m, &chars_of(" "));
    append_all(&mut m, &chars_of(stderr));
    string_of(&m)
}

/// CrossOver's own `wine`, used on macOS when it is installed.
pub const CROSSOVER_WINE: &'static str = "/Applications/CrossOver.app/Contents/SharedSupport/CrossOver/bin/wine";

/// The `wine` to run: CrossOver's on macOS when that file exists, else
/// `wine` from the search path when it answers, else none.
pub fn choose_wine_binary(platform: Platform, crossover_wine_exists: bool, wine_on_path: bool) -> (r:
    Option<String>)
    ensures
        (platform == Platform::MacOs && crossover_wine_exists) ==> opt_view(r) == Some(CROSSOVER_WINE@),
        !(platform == Platform::MacOs && crossover_wine_exists) ==> opt_view(r) == (if wine_on_path {
            Some("wine"@)
        } else {
            None::<Seq<char>>
        }),
{
    if platform == Platform::MacOs && crossover_wine_exists {
        return Some(own(CROSSOVER_WINE));
    }
    if wine_on_path {
        Some(own("wine"))
    } else {
        None
    }
}

} // verus!
