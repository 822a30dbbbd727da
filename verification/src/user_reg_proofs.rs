//! Proofs about editing `user.reg`: merging the winhttp override leaves it
//! configured, merging a second time changes nothing, and writing an entry
//! into a section keeps the section's other entries and orders them by name.
use vstd::prelude::*;

use crate::modio_api::join_spec;
use crate::text::{
    first_char_index, is_first_char, is_ws, lemma_first_char_index, lemma_trim_end_prefix, line_body,
    lines_seq, lower_seq, split_inclusive_seq, starts_with_seq, trim_end_seq, trim_seq, trim_start_seq,
};
use crate::wine_prefix::{
    lex_le, classify_lines, collapse_backslashes, is_timestamped_spec, span_header, dll_overrides_name, drop_trailing_blanks, insert_pos,
    sort_entries, upsert_spec, entry_line, first_timestamped_span, first_value_spec,
    is_dll_overrides_section_spec, is_winhttp_configured_spec, merge_spec, has_timestamped_span, kept_text, normalize_override_spec,
    parse_quoted_spec, parse_reg_value_spec, piece_len, reg_entry_key_spec, primary_span_spec, remove_plain_duplicates_spec,
    section_spans_spec, spans_from, trimmed_piece, value_prefix, OVERRIDE_VALUE,
    USER_REG_DLL_OVERRIDES_SECTION, WINHTTP_KEY,
};

verus! {

/// Where the section scan stands after reading all of `s`: the section still
/// open and the spans closed so far.
pub open spec fn scan_state(s: Seq<char>, off: int, open: Option<int>, acc: Seq<(int, int)>) -> (
    Option<int>,
    Seq<(int, int)>,
)
    decreases s.len(),
{
    if s.len() == 0 {
        (open, acc)
    } else {
        let plen = piece_len(s);
        let t = trimmed_piece(s.take(plen));
        if plen <= 0 {
            (open, acc)
        } else if t.len() > 0 && t[0] == '[' {
            let acc2 = match open {
                Some(start) => acc.push((start, off)),
                None => acc,
            };
            let open2 = if is_dll_overrides_section_spec(t) {
                Some(off)
            } else {
                None
            };
            scan_state(s.skip(plen), off + plen, open2, acc2)
        } else {
            scan_state(s.skip(plen), off + plen, open, acc)
        }
    }
}

/// The spans of a finished scan: the open section runs to the end.
pub open spec fn finish_scan(st: (Option<int>, Seq<(int, int)>), total: int) -> Seq<(int, int)> {
    match st.0 {
        Some(start) => st.1.push((start, total)),
        None => st.1,
    }
}

pub proof fn lemma_spans_from_finish(s: Seq<char>, off: int, open: Option<int>, acc: Seq<(int, int)>, total: int)
    ensures
        spans_from(s, off, open, acc, total) == finish_scan(scan_state(s, off, open, acc), total),
    decreases s.len(),
{
    if s.len() > 0 {
        let plen = piece_len(s);
        if plen > 0 {
            let t = trimmed_piece(s.take(plen));
            if t.len() > 0 && t[0] == '[' {
                let acc2 = match open {
                    Some(start) => acc.push((start, off)),
                    None => acc,
                };
                let open2 = if is_dll_overrides_section_spec(t) {
                    Some(off)
                } else {
                    None
                };
                lemma_spans_from_finish(s.skip(plen), off + plen, open2, acc2, total);
            } else {
                lemma_spans_from_finish(s.skip(plen), off + plen, open, acc, total);
            }
        }
    }
}

/// A character present in `s` has a first occurrence, at or before it.
pub proof fn lemma_first_char_exists(s: Seq<char>, c: char, j: int)
    requires
        0 <= j < s.len(),
        s[j] == c,
    ensures
        first_char_index(s, c) matches Some(i) && i <= j && is_first_char(s, c, 0, i),
    decreases j,
{
    if exists|k: int| 0 <= k < j && s[k] == c {
        let k = choose|k: int| 0 <= k < j && s[k] == c;
        lemma_first_char_exists(s, c, k);
    } else {
        assert(is_first_char(s, c, 0, j));
        lemma_first_char_index(s, c, j);
    }
}

/// The first line of text made of whole lines is the same whatever follows.
pub proof fn lemma_piece_len_concat(a: Seq<char>, b: Seq<char>)
    requires
        a.len() > 0,
        a.last() == '\n',
    ensures
        piece_len(a + b) == piece_len(a),
        0 < piece_len(a) <= a.len(),
{
    lemma_first_char_exists(a, '\n', a.len() - 1);
    let i = first_char_index(a, '\n')->0;
    assert(is_first_char(a + b, '\n', 0, i)) by {
        assert forall|j: int| 0 <= j < i implies (a + b)[j] != '\n' by {
            assert((a + b)[j] == a[j]);
        }
    }
    lemma_first_char_index(a + b, '\n', i);
}

/// Scanning text made of whole lines and then more text is scanning the
/// lines, then the rest from where they left off.
pub proof fn lemma_scan_concat(a: Seq<char>, b: Seq<char>, off: int, open: Option<int>, acc: Seq<(int, int)>)
    requires
        a.len() == 0 || a.last() == '\n',
    ensures
        scan_state(a + b, off, open, acc) == ({
            let st = scan_state(a, off, open, acc);
            scan_state(b, off + a.len(), st.0, st.1)
        }),
    decreases a.len(),
{
    if a.len() == 0 {
        assert(a + b =~= b);
    } else {
        lemma_piece_len_concat(a, b);
        let plen = piece_len(a);
        assert((a + b).take(plen) =~= a.take(plen));
        assert((a + b).skip(plen) =~= a.skip(plen) + b);
        let rest = a.skip(plen);
        assert(rest.len() == 0 || rest.last() == '\n') by {
            if rest.len() > 0 {
                assert(rest.last() == a.last());
            }
        }
        let t = trimmed_piece(a.take(plen));
        if t.len() > 0 && t[0] == '[' {
            let acc2 = match open {
                Some(start) => acc.push((start, off)),
                None => acc,
            };
            let open2 = if is_dll_overrides_section_spec(t) {
                Some(off)
            } else {
                None
            };
            lemma_scan_concat(rest, b, off + plen, open2, acc2);
        } else {
            lemma_scan_concat(rest, b, off + plen, open, acc);
        }
    }
}

/// Ending the last line with a newline changes nothing in the scan.
pub proof fn lemma_scan_push_newline(s: Seq<char>, off: int, open: Option<int>, acc: Seq<(int, int)>)
    requires
        s.len() > 0,
        s.last() != '\n',
    ensures
        scan_state(s.push('\n'), off, open, acc) == scan_state(s, off, open, acc),
    decreases s.len(),
{
    let sp = s.push('\n');
    if exists|j: int| 0 <= j < s.len() && s[j] == '\n' {
        let j = choose|j: int| 0 <= j < s.len() && s[j] == '\n';
        lemma_first_char_exists(s, '\n', j);
        let i = first_char_index(s, '\n')->0;
        assert(is_first_char(sp, '\n', 0, i)) by {
            assert forall|k: int| 0 <= k < i implies sp[k] != '\n' by {
                assert(sp[k] == s[k]);
            }
        }
        lemma_first_char_index(sp, '\n', i);
        let plen = i + 1;
        assert(piece_len(s) == plen);
        assert(piece_len(sp) == plen);
        assert(sp.take(plen) =~= s.take(plen));
        let rest = s.skip(plen);
        assert(sp.skip(plen) =~= rest.push('\n'));
        assert(rest.len() > 0 && rest.last() == s.last()) by {
            assert(i != s.len() - 1);
        }
        let t = trimmed_piece(s.take(plen));
        if t.len() > 0 && t[0] == '[' {
            let acc2 = match open {
                Some(start) => acc.push((start, off)),
                None => acc,
            };
            let open2 = if is_dll_overrides_section_spec(t) {
                Some(off)
            } else {
                None
            };
            lemma_scan_push_newline(rest, off + plen, open2, acc2);
        } else {
            lemma_scan_push_newline(rest, off + plen, open, acc);
        }
    } else {
        assert(first_char_index(s, '\n') is None) by {
            if first_char_index(s, '\n') is Some {
                let i = choose|i: int| is_first_char(s, '\n', 0, i);
                assert(s[i] == '\n');
            }
        }
        assert(is_first_char(sp, '\n', 0, s.len() as int)) by {
            assert forall|k: int| 0 <= k < s.len() implies sp[k] != '\n' by {
                assert(sp[k] == s[k]);
            }
        }
        lemma_first_char_index(sp, '\n', s.len() as int);
        assert(piece_len(s) == s.len());
        assert(piece_len(sp) == sp.len());
        assert(sp.take(sp.len() as int) =~= sp);
        assert(s.take(s.len() as int) =~= s);
        assert(trimmed_piece(sp) == trimmed_piece(s)) by {
            assert(sp.drop_last() =~= s);
        }
        assert(sp.skip(sp.len() as int) =~= Seq::<char>::empty());
        assert(s.skip(s.len() as int) =~= Seq::<char>::empty());
        reveal_with_fuel(scan_state, 2);
    }
}

/// Scanning one line (`line` and its newline).
pub proof fn lemma_scan_line(line: Seq<char>, off: int, open: Option<int>, acc: Seq<(int, int)>)
    requires
        !line.contains('\n'),
    ensures
        scan_state(line.push('\n'), off, open, acc) == ({
            let t = trim_seq(line);
            if t.len() > 0 && t[0] == '[' {
                (
                    if is_dll_overrides_section_spec(t) {
                        Some(off)
                    } else {
                        None
                    },
                    match open {
                        Some(start) => acc.push((start, off)),
                        None => acc,
                    },
                )
            } else {
                (open, acc)
            }
        }),
{
    let lp = line.push('\n');
    assert(is_first_char(lp, '\n', 0, line.len() as int)) by {
        assert forall|k: int| 0 <= k < line.len() implies lp[k] != '\n' by {
            assert(lp[k] == line[k]);
            assert(line.contains(line[k]));
        }
    }
    lemma_first_char_index(lp, '\n', line.len() as int);
    assert(piece_len(lp) == lp.len());
    assert(lp.take(lp.len() as int) =~= lp);
    assert(lp.drop_last() =~= line);
    assert(trimmed_piece(lp) == trim_seq(line));
    assert(lp.skip(lp.len() as int) =~= Seq::<char>::empty());
    reveal_with_fuel(scan_state, 2);
}

/// Text without a DllOverrides section leaves the scan with nothing open.
pub proof fn lemma_no_spans_scan(c: Seq<char>)
    requires
        section_spans_spec(c).len() == 0,
    ensures
        scan_state(c, 0, None, Seq::empty()) == (None::<int>, Seq::<(int, int)>::empty()),
{
    lemma_spans_from_finish(c, 0, None, Seq::empty(), c.len() as int);
    let st = scan_state(c, 0, None, Seq::empty());
    if st.0 is Some {
        assert(finish_scan(st, c.len() as int).len() == st.1.len() + 1);
    }
    assert(st.1 =~= Seq::<(int, int)>::empty());
}

/// `collapse_backslashes` leaves text without backslashes alone.
proof fn lemma_collapse_plain_prefix(a: Seq<char>, b: Seq<char>)
    requires
        !a.contains('\\'),
    ensures
        collapse_backslashes(a + b) == a + collapse_backslashes(b),
    decreases a.len(),
{
    if a.len() == 0 {
        assert(a + b =~= b);
    } else {
        assert(a.contains(a[0]));
        assert((a + b)[0] == a[0]);
        assert((a + b).skip(1) =~= a.skip(1) + b);
        assert forall|k: int| 0 <= k < a.skip(1).len() implies a.skip(1)[k] != '\\' by {
            assert(a.contains(a[k + 1]));
        }
        lemma_collapse_plain_prefix(a.skip(1), b);
        assert(a + b =~= seq![a[0]] + (a.skip(1) + b));
        assert(a =~= seq![a[0]] + a.skip(1));
    }
}

proof fn lemma_collapse_pair(b: Seq<char>)
    ensures
        collapse_backslashes(seq!['\\', '\\'] + b) == seq!['\\'] + collapse_backslashes(b),
{
    assert((seq!['\\', '\\'] + b).skip(2) =~= b);
}

/// The header Wine writes names the DllOverrides section.
pub proof fn lemma_section_header_is_dll_overrides()
    ensures
        is_dll_overrides_section_spec(USER_REG_DLL_OVERRIDES_SECTION@),
        trim_seq(USER_REG_DLL_OVERRIDES_SECTION@) == USER_REG_DLL_OVERRIDES_SECTION@,
        USER_REG_DLL_OVERRIDES_SECTION@[0] == '[',
        !USER_REG_DLL_OVERRIDES_SECTION@.contains('\n'),
        USER_REG_DLL_OVERRIDES_SECTION@.last() != '\r',
{
    reveal_strlit("[Software\\\\Wine\\\\DllOverrides]");
    reveal_strlit("software\\wine\\dlloverrides");
    reveal_strlit("Software");
    reveal_strlit("Wine");
    reveal_strlit("DllOverrides");
    let h = USER_REG_DLL_OVERRIDES_SECTION@;
    assert(h.len() == 30);
    assert(!is_ws(h[0]) && !is_ws(h.last()));
    assert(trim_start_seq(h) == h);
    assert(trim_end_seq(h) == h);
    assert forall|k: int| 0 <= k < h.len() implies h[k] != '\n' by {}
    let inner = h.skip(1);
    assert(is_first_char(inner, ']', 0, 28)) by {
        assert forall|k: int| 0 <= k < 28 implies inner[k] != ']' by {}
    }
    lemma_first_char_index(inner, ']', 28);
    let x = inner.take(28);
    let bb = seq!['\\', '\\'];
    assert(x =~= "Software"@ + (bb + ("Wine"@ + (bb + "DllOverrides"@))));
    assert(!"Software"@.contains('\\')) by {
        assert forall|k: int| 0 <= k < "Software"@.len() implies "Software"@[k] != '\\' by {}
    }
    assert(!"Wine"@.contains('\\')) by {
        assert forall|k: int| 0 <= k < "Wine"@.len() implies "Wine"@[k] != '\\' by {}
    }
    assert(!"DllOverrides"@.contains('\\')) by {
        assert forall|k: int| 0 <= k < "DllOverrides"@.len() implies "DllOverrides"@[k] != '\\' by {}
    }
    lemma_collapse_plain_prefix("DllOverrides"@, Seq::empty());
    assert("DllOverrides"@ + Seq::<char>::empty() =~= "DllOverrides"@);
    lemma_collapse_pair("DllOverrides"@);
    lemma_collapse_plain_prefix("Wine"@, bb + "DllOverrides"@);
    lemma_collapse_pair("Wine"@ + (bb + "DllOverrides"@));
    lemma_collapse_plain_prefix("Software"@, bb + ("Wine"@ + (bb + "DllOverrides"@)));
    let collapsed = "Software"@ + (seq!['\\'] + ("Wine"@ + (seq!['\\'] + "DllOverrides"@)));
    assert(collapse_backslashes(x) == collapsed);
    assert(lower_seq(collapsed) =~= dll_overrides_name());
}

/// The entry line merge writes: trimmed it stays as it is, starts with a
/// quote, has no newline, and gives `native,builtin` for `winhttp`.
pub proof fn lemma_winhttp_entry_line()
    ensures
        ({
            let e = entry_line(WINHTTP_KEY@, OVERRIDE_VALUE@);
            &&& trim_seq(e) == e
            &&& e[0] == '"'
            &&& !e.contains('\n')
            &&& e.last() != '\r'
            &&& parse_reg_value_spec(e, WINHTTP_KEY@) == Some(OVERRIDE_VALUE@)
        }),
{
    reveal_strlit("winhttp");
    reveal_strlit("native,builtin");
    let e = entry_line(WINHTTP_KEY@, OVERRIDE_VALUE@);
    assert(e.len() == 26);
    assert(!is_ws(e[0]) && !is_ws(e.last()));
    assert(trim_start_seq(e) == e);
    assert(trim_end_seq(e) == e);
    assert forall|k: int| 0 <= k < e.len() implies e[k] != '\n' by {}
    let p = value_prefix(WINHTTP_KEY@);
    assert(p.len() == 10);
    assert(e.subrange(0, 10) =~= p);
    assert(starts_with_seq(e, p));
    let q = e.skip(10);
    assert(q.len() == 16);
    assert(!is_ws(q[0]) && !is_ws(q.last()));
    assert(trim_start_seq(q) == q);
    assert(trim_end_seq(q) == q);
    assert(is_first_char(q.skip(1), '"', 0, 14)) by {
        assert forall|k: int| 0 <= k < 14 implies q.skip(1)[k] != '"' by {}
    }
    lemma_first_char_index(q.skip(1), '"', 14);
    assert(q.skip(1).take(14) =~= OVERRIDE_VALUE@);
    assert(parse_quoted_spec(q) == Some(OVERRIDE_VALUE@));
}

/// `a` then `b` as lines.
proof fn lemma_two_lines(a: Seq<char>, b: Seq<char>)
    requires
        !a.contains('\n'),
        !b.contains('\n'),
        a.len() == 0 || a.last() != '\r',
        b.len() == 0 || b.last() != '\r',
    ensures
        lines_seq(a.push('\n') + b.push('\n')) == seq![a, b],
{
    let s = a.push('\n') + b.push('\n');
    assert(is_first_char(s, '\n', 0, a.len() as int)) by {
        assert forall|k: int| 0 <= k < a.len() implies s[k] != '\n' by {
            assert(s[k] == a[k]);
            assert(a.contains(a[k]));
        }
    }
    lemma_first_char_index(s, '\n', a.len() as int);
    assert(s.take(a.len() as int + 1) =~= a.push('\n'));
    let rest = s.skip(a.len() as int + 1);
    assert(rest =~= b.push('\n'));
    assert(is_first_char(rest, '\n', 0, b.len() as int)) by {
        assert forall|k: int| 0 <= k < b.len() implies rest[k] != '\n' by {
            assert(rest[k] == b[k]);
            assert(b.contains(b[k]));
        }
    }
    lemma_first_char_index(rest, '\n', b.len() as int);
    assert(rest.take(b.len() as int + 1) =~= b.push('\n'));
    assert(rest.skip(b.len() as int + 1) =~= Seq::<char>::empty());
    assert(split_inclusive_seq(rest.skip(b.len() as int + 1)) =~= Seq::<Seq<char>>::empty());
    assert(split_inclusive_seq(rest) =~= seq![b.push('\n')]);
    assert(split_inclusive_seq(s) =~= seq![a.push('\n'), b.push('\n')]);
    assert(a.push('\n').drop_last() =~= a);
    assert(b.push('\n').drop_last() =~= b);
    assert(line_body(a.push('\n')) == a);
    assert(line_body(b.push('\n')) == b);
    assert(lines_seq(s) =~= seq![a, b]);
}

/// The text merge appends after the last line: a blank line, the section
/// header and the winhttp entry.
pub open spec fn appended_section() -> Seq<char> {
    Seq::<char>::empty().push('\n') + (USER_REG_DLL_OVERRIDES_SECTION@.push('\n') + entry_line(
        WINHTTP_KEY@,
        OVERRIDE_VALUE@,
    ).push('\n'))
}

/// Scanning the appended text opens the new section at its header.
proof fn lemma_scan_appended_section(o: int)
    ensures
        scan_state(appended_section(), o, None, Seq::empty()) == (Some(o + 1), Seq::<(int, int)>::empty()),
{
    let h = USER_REG_DLL_OVERRIDES_SECTION@;
    let e = entry_line(WINHTTP_KEY@, OVERRIDE_VALUE@);
    lemma_section_header_is_dll_overrides();
    lemma_winhttp_entry_line();
    let empty_acc = Seq::<(int, int)>::empty();
    let l1 = Seq::<char>::empty().push('\n');
    let l2 = h.push('\n');
    let l3 = e.push('\n');
    lemma_scan_concat(l1, l2 + l3, o, None, empty_acc);
    assert(!Seq::<char>::empty().contains('\n'));
    lemma_scan_line(Seq::empty(), o, None, empty_acc);
    assert(trim_seq(Seq::<char>::empty()) =~= Seq::<char>::empty()) by {
        assert(trim_start_seq(Seq::<char>::empty()) == Seq::<char>::empty());
    }
    lemma_scan_concat(l2, l3, o + 1, None, empty_acc);
    lemma_scan_line(h, o + 1, None, empty_acc);
    lemma_scan_line(e, o + 1 + l2.len(), Some(o + 1), empty_acc);
}

/// The appended section, read on its own, gives `native,builtin` for winhttp.
proof fn lemma_appended_section_value()
    ensures
        ({
            let sec = USER_REG_DLL_OVERRIDES_SECTION@.push('\n') + entry_line(WINHTTP_KEY@, OVERRIDE_VALUE@).push(
                '\n',
            );
            first_value_spec(lines_seq(sec), WINHTTP_KEY@) == Some(OVERRIDE_VALUE@)
        }),
{
    let h = USER_REG_DLL_OVERRIDES_SECTION@;
    let e = entry_line(WINHTTP_KEY@, OVERRIDE_VALUE@);
    lemma_section_header_is_dll_overrides();
    lemma_winhttp_entry_line();
    lemma_two_lines(h, e);
    let ls = lines_seq(h.push('\n') + e.push('\n'));
    assert(ls.skip(1) =~= seq![e]);
    assert(ls.skip(1).skip(1) =~= Seq::<Seq<char>>::empty());
    assert(first_value_spec(ls.skip(1), WINHTTP_KEY@) == Some(OVERRIDE_VALUE@));
}

/// Text with no DllOverrides section, ended by a newline, leaves the scan
/// with nothing open.
proof fn lemma_scan_terminated(c: Seq<char>)
    requires
        section_spans_spec(c).len() == 0,
    ensures
        ({
            let m = if c.len() > 0 && c.last() == '\n' {
                c
            } else {
                c.push('\n')
            };
            &&& scan_state(m, 0, None, Seq::empty()) == (None::<int>, Seq::<(int, int)>::empty())
            &&& m.len() > 0 && m.last() == '\n'
        }),
{
    lemma_no_spans_scan(c);
    let empty_acc = Seq::<(int, int)>::empty();
    if !(c.len() > 0 && c.last() == '\n') {
        if c.len() > 0 {
            lemma_scan_push_newline(c, 0, None, empty_acc);
        } else {
            assert(!Seq::<char>::empty().contains('\n'));
            lemma_scan_line(Seq::empty(), 0, None, empty_acc);
            assert(c =~= Seq::<char>::empty());
            assert(trim_seq(Seq::<char>::empty()) =~= Seq::<char>::empty()) by {
                assert(trim_start_seq(Seq::<char>::empty()) == Seq::<char>::empty());
            }
        }
    }
}

/// Merging into a `user.reg` that was configured already, or that has no
/// DllOverrides section, leaves it configured.
#[verifier::rlimit(50)]
proof fn lemma_merge_configures_without_section(content: Seq<char>)
    requires
        ({
            let c = remove_plain_duplicates_spec(content);
            is_winhttp_configured_spec(c) || primary_span_spec(c) is None
        }),
    ensures
        is_winhttp_configured_spec(merge_spec(content)),
{
    let c = remove_plain_duplicates_spec(content);
    if !is_winhttp_configured_spec(c) {
        assert(section_spans_spec(c).len() == 0);
        lemma_scan_terminated(c);
        let m = if c.len() > 0 && c.last() == '\n' {
            c
        } else {
            c.push('\n')
        };
        let empty_acc = Seq::<(int, int)>::empty();
        let merged = merge_spec(content);
        let tail = appended_section();
        assert(merged =~= m + tail);
        let o = m.len() as int;
        lemma_scan_concat(m, tail, 0, None, empty_acc);
        lemma_scan_appended_section(o);
        lemma_spans_from_finish(merged, 0, None, empty_acc, merged.len() as int);
        let spans = section_spans_spec(merged);
        assert(spans =~= seq![(o + 1, merged.len() as int)]);
        assert(spans.skip(1) =~= Seq::<(int, int)>::empty());
        assert(first_timestamped_span(merged, spans.skip(1)) is None);
        assert(first_timestamped_span(merged, spans) == Some(spans[0]) || first_timestamped_span(
            merged,
            spans,
        ) is None);
        assert(primary_span_spec(merged) == Some((o + 1, merged.len() as int)));
        let section = merged.subrange(o + 1, merged.len() as int);
        assert(section =~= USER_REG_DLL_OVERRIDES_SECTION@.push('\n') + entry_line(
            WINHTTP_KEY@,
            OVERRIDE_VALUE@,
        ).push('\n'));
        lemma_appended_section_value();
    }
}

// ---------------------------------------------------------------------------
// Reading back an upserted section
// ---------------------------------------------------------------------------

proof fn lemma_trim_start_shape(s: Seq<char>)
    ensures
        trim_start_seq(s).len() == 0 || !is_ws(trim_start_seq(s)[0]),
    decreases s.len(),
{
    if s.len() > 0 && is_ws(s[0]) {
        lemma_trim_start_shape(s.drop_first());
    }
}

proof fn lemma_trim_end_shape(s: Seq<char>)
    ensures
        trim_end_seq(s).len() == 0 || !is_ws(trim_end_seq(s).last()),
    decreases s.len(),
{
    if s.len() > 0 && is_ws(s.last()) {
        lemma_trim_end_shape(s.drop_last());
    }
}

/// Trimming twice is trimming once.
pub proof fn lemma_trim_idempotent(s: Seq<char>)
    ensures
        trim_seq(trim_seq(s)) == trim_seq(s),
{
    let z = trim_start_seq(s);
    let y = trim_end_seq(z);
    lemma_trim_start_shape(s);
    lemma_trim_end_shape(z);
    lemma_trim_end_prefix(z);
    if y.len() > 0 {
        assert(y[0] == z[0]);
        assert(trim_start_seq(y) == y);
        assert(trim_end_seq(y) == y);
    } else {
        assert(trim_start_seq(y) == y);
        assert(trim_end_seq(y) == y);
    }
}

proof fn lemma_trim_start_push(s: Seq<char>, c: char)
    ensures
        trim_start_seq(s.push(c)) == if trim_start_seq(s).len() == 0 {
            trim_start_seq(seq![c])
        } else {
            trim_start_seq(s).push(c)
        },
    decreases s.len(),
{
    if s.len() > 0 {
        assert(s.push(c)[0] == s[0]);
        if is_ws(s[0]) {
            assert(s.push(c).drop_first() =~= s.drop_first().push(c));
            lemma_trim_start_push(s.drop_first(), c);
        }
    } else {
        assert(s.push(c) =~= seq![c]);
    }
}

/// A trailing whitespace character does not change the trimmed text.
pub proof fn lemma_trim_push_ws(s: Seq<char>, c: char)
    requires
        is_ws(c),
    ensures
        trim_seq(s.push(c)) == trim_seq(s),
{
    lemma_trim_start_push(s, c);
    let z = trim_start_seq(s);
    if z.len() == 0 {
        assert(seq![c].drop_first() =~= Seq::<char>::empty());
        assert(trim_start_seq(seq![c]) == trim_start_seq(Seq::<char>::empty()));
        assert(trim_start_seq(Seq::<char>::empty()) =~= Seq::<char>::empty());
    } else {
        assert(z.push(c).drop_last() =~= z);
    }
}

/// `first_value_spec` reads lines only through their trimmed text.
pub proof fn lemma_first_value_trim_equal(a: Seq<Seq<char>>, b: Seq<Seq<char>>, key: Seq<char>)
    requires
        a.len() == b.len(),
        forall|i: int| 0 <= i < a.len() ==> trim_seq(#[trigger] a[i]) == trim_seq(b[i]),
    ensures
        first_value_spec(a, key) == first_value_spec(b, key),
    decreases a.len(),
{
    if a.len() > 0 {
        assert(trim_seq(a[0]) == trim_seq(b[0]));
        assert forall|i: int| 0 <= i < a.skip(1).len() implies trim_seq(#[trigger] a.skip(1)[i]) == trim_seq(
            b.skip(1)[i],
        ) by {
            assert(a.skip(1)[i] == a[i + 1]);
            assert(b.skip(1)[i] == b[i + 1]);
        }
        lemma_first_value_trim_equal(a.skip(1), b.skip(1), key);
    }
}

/// A line that is not an entry gives no winhttp value, nor does an entry
/// for another key.
pub proof fn lemma_other_line_gives_no_value(l: Seq<char>)
    requires
        match reg_entry_key_spec(l) {
            Some(k) => k != WINHTTP_KEY@,
            None => true,
        },
    ensures
        parse_reg_value_spec(trim_seq(l), WINHTTP_KEY@) is None,
{
    reveal_strlit("winhttp");
    let t = trim_seq(l);
    let p = value_prefix(WINHTTP_KEY@);
    if starts_with_seq(t, p) {
        assert(p.len() == 10);
        assert(t.subrange(0, 10) == p);
        assert(p[0] == '"');
        assert(t[0] == t.subrange(0, 10)[0]);
        assert(t[0] == '"');
        lemma_trim_idempotent(l);
        let inner = t.skip(1);
        assert(inner[7] == '"') by {
            assert(t[8] == t.subrange(0, 10)[8]);
            assert(p[8] == '"');
        }
        assert(is_first_char(inner, '"', 0, 7)) by {
            assert forall|j: int| 0 <= j < 7 implies inner[j] != '"' by {
                assert(inner[j] == t[j + 1]);
                assert(t[j + 1] == t.subrange(0, 10)[j + 1]);
                assert(p[j + 1] == WINHTTP_KEY@[j]);
            }
        }
        lemma_first_char_index(inner, '"', 7);
        assert(inner.take(7) =~= WINHTTP_KEY@) by {
            assert forall|j: int| 0 <= j < 7 implies inner.take(7)[j] == WINHTTP_KEY@[j] by {
                assert(t[j + 1] == t.subrange(0, 10)[j + 1]);
                assert(p[j + 1] == WINHTTP_KEY@[j]);
            }
        }
        assert(parse_quoted_spec(t) == Some(WINHTTP_KEY@));
        assert(reg_entry_key_spec(l) == Some(WINHTTP_KEY@));
    }
}

/// Splitting whole lines and then more text splits each part on its own.
pub proof fn lemma_split_inclusive_concat(a: Seq<char>, b: Seq<char>)
    requires
        a.len() == 0 || a.last() == '\n',
    ensures
        split_inclusive_seq(a + b) == split_inclusive_seq(a) + split_inclusive_seq(b),
    decreases a.len(),
{
    if a.len() == 0 {
        assert(a + b =~= b);
        assert(split_inclusive_seq(a) =~= Seq::<Seq<char>>::empty());
        assert(split_inclusive_seq(a) + split_inclusive_seq(b) =~= split_inclusive_seq(b));
    } else {
        lemma_first_char_exists(a, '\n', a.len() - 1);
        let i = first_char_index(a, '\n')->0;
        assert(is_first_char(a + b, '\n', 0, i)) by {
            assert forall|j: int| 0 <= j < i implies (a + b)[j] != '\n' by {
                assert((a + b)[j] == a[j]);
            }
        }
        lemma_first_char_index(a + b, '\n', i);
        assert((a + b).take(i + 1) =~= a.take(i + 1));
        assert((a + b).skip(i + 1) =~= a.skip(i + 1) + b);
        let rest = a.skip(i + 1);
        assert(rest.len() == 0 || rest.last() == '\n') by {
            if rest.len() > 0 {
                assert(rest.last() == a.last());
            }
        }
        lemma_split_inclusive_concat(rest, b);
        assert(split_inclusive_seq(a + b) =~= seq![a.take(i + 1)] + (split_inclusive_seq(rest)
            + split_inclusive_seq(b)));
        assert(split_inclusive_seq(a) =~= seq![a.take(i + 1)] + split_inclusive_seq(rest));
    }
}

/// One line and its newline is one piece.
pub proof fn lemma_split_one_line(x: Seq<char>)
    requires
        !x.contains('\n'),
    ensures
        split_inclusive_seq(x.push('\n')) == seq![x.push('\n')],
{
    let xp = x.push('\n');
    assert(is_first_char(xp, '\n', 0, x.len() as int)) by {
        assert forall|j: int| 0 <= j < x.len() implies xp[j] != '\n' by {
            assert(xp[j] == x[j]);
            assert(x.contains(x[j]));
        }
    }
    lemma_first_char_index(xp, '\n', x.len() as int);
    assert(xp.take(x.len() as int + 1) =~= xp);
    assert(xp.skip(x.len() as int + 1) =~= Seq::<char>::empty());
    assert(split_inclusive_seq(Seq::<char>::empty()) =~= Seq::<Seq<char>>::empty());
    assert(split_inclusive_seq(xp) =~= seq![xp]);
}

/// The lines, each followed by a newline.
pub open spec fn joined_lines(ls: Seq<Seq<char>>) -> Seq<char>
    decreases ls.len(),
{
    if ls.len() == 0 {
        Seq::empty()
    } else {
        joined_lines(ls.drop_last()) + ls.last().push('\n')
    }
}

pub proof fn lemma_join_then_newline(ls: Seq<Seq<char>>)
    requires
        ls.len() > 0,
    ensures
        join_spec(ls, seq!['\n']).push('\n') == joined_lines(ls),
    decreases ls.len(),
{
    if ls.len() == 1 {
        assert(joined_lines(ls.drop_last()) =~= Seq::<char>::empty());
        assert(joined_lines(ls) =~= ls[0].push('\n'));
    } else {
        lemma_join_then_newline(ls.drop_last());
        assert(join_spec(ls, seq!['\n']).push('\n') =~= join_spec(ls.drop_last(), seq!['\n']).push('\n')
            + ls.last().push('\n'));
    }
}

pub proof fn lemma_split_joined_lines(ls: Seq<Seq<char>>)
    requires
        forall|i: int| 0 <= i < ls.len() ==> !(#[trigger] ls[i]).contains('\n'),
    ensures
        split_inclusive_seq(joined_lines(ls)) == ls.map_values(|l: Seq<char>| l.push('\n')),
        joined_lines(ls).len() == 0 || joined_lines(ls).last() == '\n',
    decreases ls.len(),
{
    if ls.len() == 0 {
        assert(split_inclusive_seq(joined_lines(ls)) =~= Seq::<Seq<char>>::empty());
        assert(ls.map_values(|l: Seq<char>| l.push('\n')) =~= Seq::<Seq<char>>::empty());
    } else {
        let init = ls.drop_last();
        assert forall|i: int| 0 <= i < init.len() implies !(#[trigger] init[i]).contains('\n') by {
            assert(init[i] == ls[i]);
        }
        lemma_split_joined_lines(init);
        assert(!ls[ls.len() - 1].contains('\n'));
        lemma_split_inclusive_concat(joined_lines(init), ls.last().push('\n'));
        lemma_split_one_line(ls.last());
        assert(ls.map_values(|l: Seq<char>| l.push('\n')) =~= init.map_values(
            |l: Seq<char>| l.push('\n'),
        ).push(ls.last().push('\n')));
    }
}

/// `n` newlines.
pub open spec fn newlines(n: nat) -> Seq<char> {
    Seq::new(n, |i: int| '\n')
}

pub proof fn lemma_split_newlines(n: nat)
    ensures
        split_inclusive_seq(newlines(n)) == Seq::new(n, |i: int| seq!['\n']),
    decreases n,
{
    if n == 0 {
        assert(newlines(n) =~= Seq::<char>::empty());
        assert(split_inclusive_seq(newlines(n)) =~= Seq::<Seq<char>>::empty());
        assert(Seq::new(n, |i: int| seq!['\n']) =~= Seq::<Seq<char>>::empty());
    } else {
        let one = Seq::<char>::empty().push('\n');
        assert(newlines(n) =~= one + newlines((n - 1) as nat));
        lemma_split_inclusive_concat(one, newlines((n - 1) as nat));
        assert(!Seq::<char>::empty().contains('\n'));
        lemma_split_one_line(Seq::empty());
        lemma_split_newlines((n - 1) as nat);
        assert(one =~= seq!['\n']);
        assert(Seq::new(n, |i: int| seq!['\n']) =~= seq![seq!['\n']] + Seq::new(
            (n - 1) as nat,
            |i: int| seq!['\n'],
        ));
    }
}

/// A line read back after its newline trims as it did.
pub proof fn lemma_line_body_trim(x: Seq<char>)
    ensures
        trim_seq(line_body(x.push('\n'))) == trim_seq(x),
{
    let xp = x.push('\n');
    assert(xp.drop_last() =~= x);
    if x.len() > 0 && x.last() == '\r' {
        assert(x =~= x.drop_last().push('\r'));
        assert(is_ws('\r'));
        lemma_trim_push_ws(x.drop_last(), '\r');
    }
}

/// No line of a text holds a newline.
pub proof fn lemma_lines_have_no_newline(s: Seq<char>)
    ensures
        forall|i: int| 0 <= i < lines_seq(s).len() ==> !(#[trigger] lines_seq(s)[i]).contains('\n'),
    decreases s.len(),
{
    if s.len() > 0 {
        match first_char_index(s, '\n') {
            Some(i) => {
                if 0 <= i < s.len() {
                    let w = choose|w: int| is_first_char(s, '\n', 0, w);
                    assert(is_first_char(s, '\n', 0, w));
                    lemma_first_char_index(s, '\n', w);
                    lemma_lines_have_no_newline(s.skip(i + 1));
                    let piece = s.take(i + 1);
                    let body = line_body(piece);
                    assert(piece.drop_last() =~= s.take(i));
                    assert(!body.contains('\n')) by {
                        assert forall|k: int| 0 <= k < body.len() implies body[k] != '\n' by {
                            assert(body[k] == s[k]);
                        }
                    }
                    let rest = lines_seq(s.skip(i + 1));
                    assert(lines_seq(s) =~= seq![body] + rest);
                    assert forall|k: int| 0 <= k < lines_seq(s).len() implies !(
                    #[trigger] lines_seq(s)[k]).contains('\n') by {
                        if k > 0 {
                            assert(lines_seq(s)[k] == rest[k - 1]);
                        }
                    }
                } else {
                    let w = choose|w: int| is_first_char(s, '\n', 0, w);
                    assert(is_first_char(s, '\n', 0, w));
                }
            },
            None => {
                assert forall|k: int| 0 <= k < s.len() implies s[k] != '\n' by {
                    if s[k] == '\n' {
                        lemma_first_char_exists(s, '\n', k);
                    }
                }
                assert(lines_seq(s) =~= seq![line_body(s)]);
                assert(!line_body(s).contains('\n')) by {
                    let body = line_body(s);
                    assert forall|k: int| 0 <= k < body.len() implies body[k] != '\n' by {
                        assert(body[k] == s[k]);
                    }
                }
            },
        }
    } else {
        assert(lines_seq(s) =~= Seq::<Seq<char>>::empty());
    }
}

/// What `classify_lines` sorts into each part: lines before the first entry
/// are no entries, kept entries are for other keys, and no part gains a
/// newline.
pub proof fn lemma_classify_parts(ls: Seq<Seq<char>>, key: Seq<char>)
    requires
        forall|i: int| 0 <= i < ls.len() ==> !(#[trigger] ls[i]).contains('\n'),
    ensures
        ({
            let c = classify_lines(ls, key);
            &&& forall|i: int| 0 <= i < c.0.len() ==> reg_entry_key_spec(#[trigger] c.0[i]) is None
            &&& forall|i: int| 0 <= i < c.0.len() ==> !(#[trigger] c.0[i]).contains('\n')
            &&& forall|i: int|
                0 <= i < c.1.len() ==> reg_entry_key_spec((#[trigger] c.1[i]).1) == Some(c.1[i].0)
                    && c.1[i].0 != key && !c.1[i].1.contains('\n')
            &&& forall|i: int| 0 <= i < c.2.len() ==> !(#[trigger] c.2[i]).contains('\n')
            &&& (ls.len() > 0 && reg_entry_key_spec(ls[0]) is None) ==> (c.0.len() > 0 && c.0[0] == ls[0])
        }),
    decreases ls.len(),
{
    if ls.len() > 0 {
        let init = ls.drop_last();
        assert forall|i: int| 0 <= i < init.len() implies !(#[trigger] init[i]).contains('\n') by {
            assert(init[i] == ls[i]);
        }
        lemma_classify_parts(init, key);
        assert(!ls[ls.len() - 1].contains('\n'));
        if ls.len() > 1 {
            assert(init[0] == ls[0]);
        } else {
            assert(classify_lines(init, key).3 == false);
        }
    }
}

pub proof fn lemma_insert_pos_bounds(sorted: Seq<(Seq<char>, Seq<char>)>, x: (Seq<char>, Seq<char>))
    ensures
        0 <= insert_pos(sorted, x) <= sorted.len(),
    decreases sorted.len(),
{
    if sorted.len() > 0 {
        lemma_insert_pos_bounds(sorted.skip(1), x);
    }
}

/// Sorting only reorders: every sorted entry is one of the input's.
pub proof fn lemma_sort_entries_from(s: Seq<(Seq<char>, Seq<char>)>)
    ensures
        forall|i: int| 0 <= i < sort_entries(s).len() ==> s.contains(#[trigger] sort_entries(s)[i]),
    decreases s.len(),
{
    if s.len() > 0 {
        let init = s.drop_last();
        lemma_sort_entries_from(init);
        let t = sort_entries(init);
        let k = insert_pos(t, s.last());
        lemma_insert_pos_bounds(t, s.last());
        let r = sort_entries(s);
        assert forall|i: int| 0 <= i < r.len() implies s.contains(#[trigger] r[i]) by {
            if i < k {
                assert(r[i] == t[i]);
                let w = choose|w: int| 0 <= w < init.len() && init[w] == t[i];
                assert(s[w] == init[w]);
            } else if i == k {
                assert(r[i] == s.last());
                assert(s[s.len() - 1] == s.last());
            } else {
                assert(r[i] == t[i - 1]);
                let w = choose|w: int| 0 <= w < init.len() && init[w] == t[i - 1];
                assert(s[w] == init[w]);
            }
        }
    }
}

/// Dropping trailing blank lines keeps everything up to a non-blank line.
pub proof fn lemma_drop_blanks_after(x: Seq<Seq<char>>, b: Seq<Seq<char>>)
    requires
        x.len() > 0,
        trim_seq(x.last()).len() > 0,
    ensures
        drop_trailing_blanks(x + b) == x + drop_trailing_blanks(b),
        drop_trailing_blanks(b) == b.take(drop_trailing_blanks(b).len() as int),
        drop_trailing_blanks(b).len() <= b.len(),
    decreases b.len(),
{
    if b.len() == 0 {
        assert(x + b =~= x);
        assert(b.take(0) =~= b);
    } else if trim_seq(b.last()).len() == 0 {
        assert((x + b).drop_last() =~= x + b.drop_last());
        assert((x + b).last() == b.last());
        lemma_drop_blanks_after(x, b.drop_last());
        let d = drop_trailing_blanks(b);
        assert(b.drop_last().take(d.len() as int) =~= b.take(d.len() as int));
    } else {
        assert((x + b).last() == b.last());
        assert(b.take(b.len() as int) =~= b);
    }
}

/// Lines that give no winhttp value can be read past.
pub proof fn lemma_first_value_skip(a: Seq<Seq<char>>, rest: Seq<Seq<char>>)
    requires
        forall|i: int| 0 <= i < a.len() ==> parse_reg_value_spec(trim_seq(#[trigger] a[i]), WINHTTP_KEY@) is None,
    ensures
        first_value_spec(a + rest, WINHTTP_KEY@) == first_value_spec(rest, WINHTTP_KEY@),
    decreases a.len(),
{
    if a.len() > 0 {
        assert((a + rest)[0] == a[0]);
        assert((a + rest).skip(1) =~= a.skip(1) + rest);
        assert forall|i: int| 0 <= i < a.skip(1).len() implies parse_reg_value_spec(
            trim_seq(#[trigger] a.skip(1)[i]),
            WINHTTP_KEY@,
        ) is None by {
            assert(a.skip(1)[i] == a[i + 1]);
        }
        lemma_first_value_skip(a.skip(1), rest);
    } else {
        assert(a + rest =~= rest);
    }
}

/// The lines of `joined_lines(ls) + newlines(n)` trim as `ls` followed by
/// `n` empty lines.
proof fn lemma_lines_of_joined(ls: Seq<Seq<char>>, n: nat)
    requires
        forall|i: int| 0 <= i < ls.len() ==> !(#[trigger] ls[i]).contains('\n'),
    ensures
        ({
            let got = lines_seq(joined_lines(ls) + newlines(n));
            let want = ls + Seq::new(n, |i: int| Seq::<char>::empty());
            &&& got.len() == want.len()
            &&& forall|i: int| 0 <= i < got.len() ==> trim_seq(#[trigger] got[i]) == trim_seq(want[i])
        }),
{
    lemma_split_joined_lines(ls);
    lemma_split_newlines(n);
    lemma_split_inclusive_concat(joined_lines(ls), newlines(n));
    let pieces = split_inclusive_seq(joined_lines(ls) + newlines(n));
    assert(pieces =~= ls.map_values(|l: Seq<char>| l.push('\n')) + Seq::new(n, |i: int| seq!['\n']));
    let got = lines_seq(joined_lines(ls) + newlines(n));
    let want = ls + Seq::new(n, |i: int| Seq::<char>::empty());
    assert forall|i: int| 0 <= i < got.len() implies trim_seq(#[trigger] got[i]) == trim_seq(want[i]) by {
        if i < ls.len() {
            assert(pieces[i] == ls[i].push('\n'));
            lemma_line_body_trim(ls[i]);
        } else {
            assert(pieces[i] == seq!['\n']);
            assert(seq!['\n'].drop_last() =~= Seq::<char>::empty());
            assert(got[i] =~= Seq::<char>::empty());
            assert(want[i] == Seq::<char>::empty());
        }
    }
}

/// Upserting `winhttp` into a section, then reading the section's winhttp
/// value, gives `native,builtin`.
#[verifier::rlimit(60)]
pub proof fn lemma_upsert_reads_back(section: Seq<char>)
    ensures
        first_value_spec(lines_seq(upsert_spec(section, WINHTTP_KEY@, OVERRIDE_VALUE@)), WINHTTP_KEY@) == Some(
            OVERRIDE_VALUE@,
        ),
{
    let key = WINHTTP_KEY@;
    let val = OVERRIDE_VALUE@;
    let e = entry_line(key, val);
    lemma_winhttp_entry_line();
    let ls = lines_seq(section);
    lemma_lines_have_no_newline(section);
    let c = classify_lines(ls, key);
    lemma_classify_parts(ls, key);
    let x = (key, e);
    let t = sort_entries(c.1);
    lemma_sort_entries_from(c.1);
    let k = insert_pos(t, x);
    lemma_insert_pos_bounds(t, x);
    let full_in = c.1.push(x);
    assert(full_in.drop_last() =~= c.1);
    let sorted = sort_entries(full_in);
    assert(sorted == t.take(k).push(x) + t.skip(k));
    let second = |en: (Seq<char>, Seq<char>)| en.1;
    let mid = sorted.map_values(second);
    let xs = c.0 + t.take(k).map_values(second);
    let b = t.skip(k).map_values(second) + c.2;
    assert(c.0 + mid + c.2 =~= xs.push(e) + b);
    lemma_drop_blanks_after(xs.push(e), b);
    let db = drop_trailing_blanks(b);
    let result = drop_trailing_blanks(c.0 + mid + c.2);
    assert(result == xs.push(e) + db);
    // no line of the result holds a newline
    assert forall|i: int| 0 <= i < t.len() implies !(#[trigger] t[i]).1.contains('\n') && match reg_entry_key_spec(
        t[i].1,
    ) {
        Some(kk) => kk != key,
        None => true,
    } by {
        let w = choose|w: int| 0 <= w < c.1.len() && c.1[w] == t[i];
        assert(c.1[w] == t[i]);
    }
    assert forall|i: int| 0 <= i < result.len() implies !(#[trigger] result[i]).contains('\n') by {
        if i < c.0.len() {
            assert(result[i] == c.0[i]);
        } else if i < xs.len() {
            assert(result[i] == t[i - c.0.len()].1);
        } else if i == xs.len() {
            assert(result[i] == e);
        } else {
            let j = i - xs.len() - 1;
            assert(result[i] == db[j]);
            assert(db[j] == b[j]);
            if j < t.len() - k {
                assert(b[j] == t[k + j].1);
            } else {
                assert(b[j] == c.2[j - (t.len() - k)]);
            }
        }
    }
    // the written text, as lines
    reveal_strlit("\n");
    assert("\n"@ =~= seq!['\n']);
    let n = crate::wine_prefix::trailing_blanks(ls);
    let u = upsert_spec(section, key, val);
    lemma_join_then_newline(result);
    assert(u =~= joined_lines(result) + newlines(n));
    lemma_lines_of_joined(result, n);
    let want = result + Seq::new(n, |i: int| Seq::<char>::empty());
    lemma_first_value_trim_equal(lines_seq(u), want, key);
    // read past everything before the new entry
    let rest = seq![e] + (db + Seq::new(n, |i: int| Seq::<char>::empty()));
    assert(want =~= xs + rest);
    assert forall|i: int| 0 <= i < xs.len() implies parse_reg_value_spec(trim_seq(#[trigger] xs[i]), key) is None by {
        if i < c.0.len() {
            assert(xs[i] == c.0[i]);
            lemma_other_line_gives_no_value(c.0[i]);
        } else {
            assert(xs[i] == t[i - c.0.len()].1);
            lemma_other_line_gives_no_value(t[i - c.0.len()].1);
        }
    }
    lemma_first_value_skip(xs, rest);
    assert(rest[0] == e);
    assert(first_value_spec(rest, key) == Some(val));
}

// ---------------------------------------------------------------------------
// Where the DllOverrides sections lie
// ---------------------------------------------------------------------------

/// No line of `s` is a section header.
pub open spec fn no_headers(s: Seq<char>) -> bool
    decreases s.len(),
{
    if s.len() == 0 {
        true
    } else {
        let plen = piece_len(s);
        if plen <= 0 {
            true
        } else {
            let t = trimmed_piece(s.take(plen));
            !(t.len() > 0 && t[0] == '[') && no_headers(s.skip(plen))
        }
    }
}

/// `sec` is one DllOverrides section: its first line is the header, no
/// other line is a header.
pub open spec fn is_section_text(sec: Seq<char>) -> bool {
    &&& sec.len() > 0
    &&& ({
        let plen = piece_len(sec);
        let t = trimmed_piece(sec.take(plen));
        &&& 0 < plen <= sec.len()
        &&& t.len() > 0 && t[0] == '['
        &&& is_dll_overrides_section_spec(t)
        &&& no_headers(sec.skip(plen))
    })
}

/// The scan state after a section header closes the open section.
pub open spec fn close_open(open: Option<int>, acc: Seq<(int, int)>, off: int) -> Seq<(int, int)> {
    match open {
        Some(start) => acc.push((start, off)),
        None => acc,
    }
}

pub proof fn lemma_piece_len_positive(s: Seq<char>)
    requires
        s.len() > 0,
    ensures
        0 < piece_len(s) <= s.len(),
{
    match first_char_index(s, '\n') {
        Some(i) => {
            let w = choose|w: int| is_first_char(s, '\n', 0, w);
            assert(is_first_char(s, '\n', 0, w));
            lemma_first_char_index(s, '\n', w);
        },
        None => {},
    }
}

/// Lines without headers leave the scan as it was.
pub proof fn lemma_scan_no_headers(s: Seq<char>, off: int, open: Option<int>, acc: Seq<(int, int)>)
    requires
        no_headers(s),
    ensures
        scan_state(s, off, open, acc) == (open, acc),
    decreases s.len(),
{
    if s.len() > 0 {
        lemma_piece_len_positive(s);
        let plen = piece_len(s);
        lemma_scan_no_headers(s.skip(plen), off + plen, open, acc);
    }
}

/// A section opens at its start and stays open to its end.
pub proof fn lemma_scan_section(sec: Seq<char>, off: int, open: Option<int>, acc: Seq<(int, int)>)
    requires
        is_section_text(sec),
    ensures
        scan_state(sec, off, open, acc) == (Some(off), close_open(open, acc, off)),
{
    let plen = piece_len(sec);
    lemma_scan_no_headers(sec.skip(plen), off + plen, Some(off), close_open(open, acc, off));
}

/// Appending a line that is no header keeps a text free of headers.
pub proof fn lemma_no_headers_append(r: Seq<char>, piece: Seq<char>)
    requires
        no_headers(r),
        r.len() == 0 || r.last() == '\n',
        piece.len() > 0,
        piece_len(piece) == piece.len(),
        !(trimmed_piece(piece).len() > 0 && trimmed_piece(piece)[0] == '['),
    ensures
        no_headers(r + piece),
    decreases r.len(),
{
    if r.len() == 0 {
        assert(r + piece =~= piece);
        assert(piece.take(piece.len() as int) =~= piece);
        assert(piece.skip(piece.len() as int) =~= Seq::<char>::empty());
        reveal_with_fuel(no_headers, 2);
    } else {
        lemma_piece_len_concat(r, piece);
        let plen = piece_len(r);
        assert((r + piece).take(plen) =~= r.take(plen));
        assert((r + piece).skip(plen) =~= r.skip(plen) + piece);
        let rest = r.skip(plen);
        assert(rest.len() == 0 || rest.last() == '\n') by {
            if rest.len() > 0 {
                assert(rest.last() == r.last());
            }
        }
        lemma_no_headers_append(rest, piece);
    }
}

/// The first line of `s`: it ends in a newline unless it runs to the end,
/// and is itself one line.
pub proof fn lemma_piece_shape(s: Seq<char>)
    requires
        s.len() > 0,
    ensures
        0 < piece_len(s) <= s.len(),
        piece_len(s) < s.len() ==> s[piece_len(s) - 1] == '\n',
        piece_len(s.take(piece_len(s))) == piece_len(s),
{
    let pl = piece_len(s);
    match first_char_index(s, '\n') {
        Some(i) => {
            let w = choose|w: int| is_first_char(s, '\n', 0, w);
            assert(is_first_char(s, '\n', 0, w));
            lemma_first_char_index(s, '\n', w);
            let tk = s.take(i + 1);
            assert(is_first_char(tk, '\n', 0, i));
            lemma_first_char_index(tk, '\n', i);
        },
        None => {
            assert(s.take(s.len() as int) =~= s);
        },
    }
}

/// Offset `o` starts a line of `c`.
pub open spec fn line_start(c: Seq<char>, o: int) -> bool {
    o == 0 || (0 < o <= c.len() && c[o - 1] == '\n')
}

/// `(x, y)` is a DllOverrides section of `c`, from a line start to a line
/// start (or the end).
pub open spec fn span_ok(c: Seq<char>, x: int, y: int) -> bool {
    &&& 0 <= x < y <= c.len()
    &&& line_start(c, x)
    &&& (y == c.len() || line_start(c, y))
    &&& is_section_text(c.subrange(x, y))
}

/// Every span is a section, and they come in order without overlap.
pub open spec fn spans_wf(c: Seq<char>, spans: Seq<(int, int)>) -> bool {
    &&& forall|i: int| 0 <= i < spans.len() ==> span_ok(c, (#[trigger] spans[i]).0, spans[i].1)
    &&& forall|i: int, j: int| 0 <= i < j < spans.len() ==> (#[trigger] spans[i]).1 <= (#[trigger] spans[j]).0
}

/// A section that ends at a line start grows by a line that is no header.
proof fn lemma_section_append(x: Seq<char>, piece: Seq<char>)
    requires
        is_section_text(x),
        x.last() == '\n',
        piece.len() > 0,
        piece_len(piece) == piece.len(),
        !(trimmed_piece(piece).len() > 0 && trimmed_piece(piece)[0] == '['),
    ensures
        is_section_text(x + piece),
{
    lemma_piece_len_concat(x, piece);
    let pl = piece_len(x);
    assert((x + piece).take(pl) =~= x.take(pl));
    assert((x + piece).skip(pl) =~= x.skip(pl) + piece);
    let rest = x.skip(pl);
    assert(rest.len() == 0 || rest.last() == '\n') by {
        if rest.len() > 0 {
            assert(rest.last() == x.last());
        }
    }
    lemma_no_headers_append(rest, piece);
}

#[verifier::rlimit(60)]
proof fn lemma_spans_from_wf(c: Seq<char>, off: int, open: Option<int>, acc: Seq<(int, int)>)
    requires
        0 <= off <= c.len(),
        off == c.len() || line_start(c, off),
        spans_wf(c, acc),
        forall|i: int| 0 <= i < acc.len() ==> (#[trigger] acc[i]).1 <= (match open {
            Some(st) => st,
            None => off,
        }),
        open matches Some(st) ==> (0 <= st < off && line_start(c, st) && is_section_text(
            c.subrange(st, off),
        )),
    ensures
        spans_wf(c, spans_from(c.skip(off), off, open, acc, c.len() as int)),
    decreases c.len() - off,
{
    let s = c.skip(off);
    if s.len() == 0 {
        let r = spans_from(s, off, open, acc, c.len() as int);
        match open {
            Some(st) => {
                assert(r == acc.push((st, c.len() as int)));
                assert(c.subrange(st, off) =~= c.subrange(st, c.len() as int));
                assert forall|i: int, j: int| 0 <= i < j < r.len() implies (#[trigger] r[i]).1 <= (
                #[trigger] r[j]).0 by {
                    if j == acc.len() {
                        assert(r[i] == acc[i]);
                    }
                }
            },
            None => {},
        }
    } else {
        lemma_piece_shape(s);
        let plen = piece_len(s);
        let next = off + plen;
        let piece = s.take(plen);
        assert(piece =~= c.subrange(off, next));
        assert(s.skip(plen) =~= c.skip(next));
        assert(next == c.len() || line_start(c, next)) by {
            if next < c.len() {
                assert(s[plen - 1] == c[next - 1]);
            }
        }
        let t = trimmed_piece(piece);
        if t.len() > 0 && t[0] == '[' {
            let acc2 = close_open(open, acc, off);
            let open2 = if is_dll_overrides_section_spec(t) {
                Some(off)
            } else {
                None
            };
            assert(spans_wf(c, acc2)) by {
                match open {
                    Some(st) => {
                        assert(span_ok(c, st, off));
                        assert forall|i: int, j: int| 0 <= i < j < acc2.len() implies (
                        #[trigger] acc2[i]).1 <= (#[trigger] acc2[j]).0 by {
                            if j == acc.len() {
                                assert(acc2[i] == acc[i]);
                            }
                        }
                    },
                    None => {},
                }
            }
            if is_dll_overrides_section_spec(t) {
                assert(piece.take(plen) =~= piece);
                assert(piece.skip(plen) =~= Seq::<char>::empty());
                assert(is_section_text(c.subrange(off, next)));
            }
            assert forall|i: int| 0 <= i < acc2.len() implies (#[trigger] acc2[i]).1 <= (match open2 {
                Some(st) => st,
                None => next,
            }) by {
                if i < acc.len() {
                    assert(acc2[i] == acc[i]);
                }
            }
            lemma_spans_from_wf(c, next, open2, acc2);
        } else {
            match open {
                Some(st) => {
                    assert(c.subrange(st, next) =~= c.subrange(st, off) + piece);
                    assert(c.subrange(st, off).last() == c[off - 1]);
                    lemma_piece_shape(s);
                    lemma_section_append(c.subrange(st, off), piece);
                },
                None => {},
            }
            lemma_spans_from_wf(c, next, open, acc);
        }
    }
}

/// The DllOverrides spans of `user.reg` are sections, in order.
pub proof fn lemma_section_spans_wf(c: Seq<char>)
    ensures
        spans_wf(c, section_spans_spec(c)),
{
    assert(c.skip(0) =~= c);
    lemma_spans_from_wf(c, 0, None, Seq::empty());
}

/// Offsets at or after `from` move by `d`.
pub open spec fn shift_pt(v: int, from: int, d: int) -> int {
    if v >= from {
        v + d
    } else {
        v
    }
}

pub open spec fn shift_span(sp: (int, int), from: int, d: int) -> (int, int) {
    (shift_pt(sp.0, from, d), shift_pt(sp.1, from, d))
}

pub open spec fn shift_spans(spans: Seq<(int, int)>, from: int, d: int) -> Seq<(int, int)> {
    spans.map_values(|sp: (int, int)| shift_span(sp, from, d))
}

pub open spec fn shift_open(open: Option<int>, from: int, d: int) -> Option<int> {
    match open {
        Some(st) => Some(shift_pt(st, from, d)),
        None => None,
    }
}

/// Scanning the same text further along moves every offset it finds.
pub proof fn lemma_scan_shift(s: Seq<char>, off: int, from: int, d: int, open: Option<int>, acc: Seq<(int, int)>)
    requires
        off >= from,
    ensures
        ({
            let st = scan_state(s, off, open, acc);
            scan_state(s, off + d, shift_open(open, from, d), shift_spans(acc, from, d)) == (
                shift_open(st.0, from, d),
                shift_spans(st.1, from, d),
            )
        }),
    decreases s.len(),
{
    if s.len() > 0 {
        lemma_piece_len_positive(s);
        let plen = piece_len(s);
        let t = trimmed_piece(s.take(plen));
        if t.len() > 0 && t[0] == '[' {
            let acc2 = close_open(open, acc, off);
            let open2 = if is_dll_overrides_section_spec(t) {
                Some(off)
            } else {
                None
            };
            assert(close_open(shift_open(open, from, d), shift_spans(acc, from, d), off + d) =~= shift_spans(
                acc2,
                from,
                d,
            ));
            assert((if is_dll_overrides_section_spec(t) {
                Some(off + d)
            } else {
                None
            }) == shift_open(open2, from, d));
            lemma_scan_shift(s.skip(plen), off + plen, from, d, open2, acc2);
            assert(off + d + plen == off + plen + d);
        } else {
            lemma_scan_shift(s.skip(plen), off + plen, from, d, open, acc);
            assert(off + d + plen == off + plen + d);
        }
    }
}

/// A scan from `off` finds no offset past the end of its text.
pub proof fn lemma_scan_bound(s: Seq<char>, off: int, open: Option<int>, acc: Seq<(int, int)>)
    requires
        open matches Some(st) ==> st <= off,
        forall|i: int| 0 <= i < acc.len() ==> (#[trigger] acc[i]).0 <= off && acc[i].1 <= off,
    ensures
        ({
            let st = scan_state(s, off, open, acc);
            &&& st.0 matches Some(v) ==> v <= off + s.len()
            &&& forall|i: int| 0 <= i < st.1.len() ==> (#[trigger] st.1[i]).0 <= off + s.len() && st.1[i].1
                <= off + s.len()
        }),
    decreases s.len(),
{
    if s.len() > 0 {
        lemma_piece_len_positive(s);
        let plen = piece_len(s);
        let t = trimmed_piece(s.take(plen));
        if t.len() > 0 && t[0] == '[' {
            let acc2 = close_open(open, acc, off);
            let open2 = if is_dll_overrides_section_spec(t) {
                Some(off)
            } else {
                None
            };
            assert forall|i: int| 0 <= i < acc2.len() implies (#[trigger] acc2[i]).0 <= off + plen && acc2[i].1
                <= off + plen by {
                if i < acc.len() {
                    assert(acc2[i] == acc[i]);
                }
            }
            lemma_scan_bound(s.skip(plen), off + plen, open2, acc2);
        } else {
            assert forall|i: int| 0 <= i < acc.len() implies (#[trigger] acc[i]).0 <= off + plen && acc[i].1
                <= off + plen by {}
            lemma_scan_bound(s.skip(plen), off + plen, open, acc);
        }
    }
}

/// Two span lists whose headers agree pick the same position.
pub proof fn lemma_first_timestamped_shift(
    c: Seq<char>,
    m: Seq<char>,
    sc: Seq<(int, int)>,
    from: int,
    d: int,
)
    requires
        forall|i: int|
            0 <= i < sc.len() ==> span_header(m, shift_span(#[trigger] sc[i], from, d)) == span_header(c, sc[i]),
    ensures
        first_timestamped_span(m, shift_spans(sc, from, d)) == match first_timestamped_span(c, sc) {
            Some(sp) => Some(shift_span(sp, from, d)),
            None => None,
        },
    decreases sc.len(),
{
    let sm = shift_spans(sc, from, d);
    if sc.len() > 0 {
        assert(sm[0] == shift_span(sc[0], from, d));
        assert(sm.skip(1) =~= shift_spans(sc.skip(1), from, d));
        assert forall|i: int| 0 <= i < sc.skip(1).len() implies span_header(
            m,
            shift_span(#[trigger] sc.skip(1)[i], from, d),
        ) == span_header(c, sc.skip(1)[i]) by {
            assert(sc.skip(1)[i] == sc[i + 1]);
        }
        lemma_first_timestamped_shift(c, m, sc.skip(1), from, d);
    }
}

/// The line is a section header: trimmed, it starts with `[`.
pub open spec fn is_header_line(l: Seq<char>) -> bool {
    trim_seq(l).len() > 0 && trim_seq(l)[0] == '['
}

/// Header lines other than the first stay out of the prefix and suffix.
proof fn lemma_classify_headers(ls: Seq<Seq<char>>, key: Seq<char>)
    requires
        forall|i: int| 1 <= i < ls.len() ==> !is_header_line(#[trigger] ls[i]),
    ensures
        ({
            let c = classify_lines(ls, key);
            &&& forall|i: int| 1 <= i < c.0.len() ==> !is_header_line(#[trigger] c.0[i])
            &&& forall|i: int| 0 <= i < c.2.len() ==> !is_header_line(#[trigger] c.2[i])
            &&& c.3 ==> ls.len() > 0
        }),
    decreases ls.len(),
{
    if ls.len() > 0 {
        let init = ls.drop_last();
        assert forall|i: int| 1 <= i < init.len() implies !is_header_line(#[trigger] init[i]) by {
            assert(init[i] == ls[i]);
        }
        lemma_classify_headers(init, key);
        let prev = classify_lines(init, key);
        if prev.3 {
            assert(!is_header_line(ls[ls.len() - 1]));
        }
        if prev.0.len() >= 1 {
            assert(!is_header_line(ls[ls.len() - 1]) || ls.len() == 1) by {
                if ls.len() == 1 {
                } else {
                    assert(!is_header_line(ls[ls.len() - 1]));
                }
            }
        }
    }
}

/// `trimmed_piece` and `line_body` agree once trimmed.
proof fn lemma_piece_trim(p: Seq<char>)
    ensures
        trim_seq(line_body(p)) == trimmed_piece(p),
{
    if p.len() > 0 && p.last() == '\n' {
        let l = p.drop_last();
        if l.len() > 0 && l.last() == '\r' {
            assert(l =~= l.drop_last().push('\r'));
            lemma_trim_push_ws(l.drop_last(), '\r');
        }
    }
}

/// The lines of a text are its first line, then the lines of the rest.
proof fn lemma_lines_step(s: Seq<char>)
    requires
        s.len() > 0,
    ensures
        lines_seq(s) == seq![line_body(s.take(piece_len(s)))] + lines_seq(s.skip(piece_len(s))),
{
    match first_char_index(s, '\n') {
        Some(i) => {
            let w = choose|w: int| is_first_char(s, '\n', 0, w);
            assert(is_first_char(s, '\n', 0, w));
            lemma_first_char_index(s, '\n', w);
            assert(lines_seq(s) =~= seq![line_body(s.take(i + 1))] + lines_seq(s.skip(i + 1)));
        },
        None => {
            assert(s.take(s.len() as int) =~= s);
            assert(s.skip(s.len() as int) =~= Seq::<char>::empty());
            assert(split_inclusive_seq(Seq::<char>::empty()) =~= Seq::<Seq<char>>::empty());
            assert(lines_seq(s) =~= seq![line_body(s)] + lines_seq(Seq::<char>::empty()));
        },
    }
}

proof fn lemma_no_headers_lines(r: Seq<char>)
    requires
        no_headers(r),
    ensures
        forall|i: int| 0 <= i < lines_seq(r).len() ==> !is_header_line(#[trigger] lines_seq(r)[i]),
    decreases r.len(),
{
    if r.len() == 0 {
        assert(lines_seq(r) =~= Seq::<Seq<char>>::empty());
    } else {
        lemma_piece_len_positive(r);
        let pl = piece_len(r);
        lemma_lines_step(r);
        lemma_piece_trim(r.take(pl));
        lemma_no_headers_lines(r.skip(pl));
        assert forall|i: int| 0 <= i < lines_seq(r).len() implies !is_header_line(#[trigger] lines_seq(r)[i]) by {
            if i > 0 {
                assert(lines_seq(r)[i] == lines_seq(r.skip(pl))[i - 1]);
            }
        }
    }
}

/// A section's first line is its header; its other lines are no headers.
proof fn lemma_section_lines(sec: Seq<char>)
    requires
        is_section_text(sec),
    ensures
        lines_seq(sec).len() >= 1,
        trim_seq(lines_seq(sec)[0]) == trimmed_piece(sec.take(piece_len(sec))),
        lines_seq(sec)[0] == crate::text::first_line_seq(sec),
        forall|i: int| 1 <= i < lines_seq(sec).len() ==> !is_header_line(#[trigger] lines_seq(sec)[i]),
{
    let pl = piece_len(sec);
    lemma_lines_step(sec);
    lemma_piece_trim(sec.take(pl));
    lemma_no_headers_lines(sec.skip(pl));
    assert forall|i: int| 1 <= i < lines_seq(sec).len() implies !is_header_line(#[trigger] lines_seq(sec)[i]) by {
        assert(lines_seq(sec)[i] == lines_seq(sec.skip(pl))[i - 1]);
    }
}

pub proof fn lemma_joined_with_newlines(ls: Seq<Seq<char>>, n: nat)
    ensures
        joined_lines(ls) + newlines(n) == joined_lines(ls + Seq::new(n, |i: int| Seq::<char>::empty())),
    decreases n,
{
    let empties = Seq::new(n, |i: int| Seq::<char>::empty());
    if n == 0 {
        assert(newlines(n) =~= Seq::<char>::empty());
        assert(ls + empties =~= ls);
        assert(joined_lines(ls) + newlines(n) =~= joined_lines(ls));
    } else {
        lemma_joined_with_newlines(ls, (n - 1) as nat);
        let e1 = Seq::new((n - 1) as nat, |i: int| Seq::<char>::empty());
        assert((ls + empties).drop_last() =~= ls + e1);
        assert((ls + empties).last() == Seq::<char>::empty());
        assert(newlines(n) =~= newlines((n - 1) as nat).push('\n'));
        assert(Seq::<char>::empty().push('\n') =~= seq!['\n']);
        assert(joined_lines(ls) + newlines(n) =~= (joined_lines(ls) + newlines((n - 1) as nat)) + seq!['\n']);
    }
}

/// Lines joined back form a section when the first is a DllOverrides
/// header and no other is a header.
proof fn lemma_joined_is_section(ls: Seq<Seq<char>>)
    requires
        ls.len() >= 1,
        forall|i: int| 0 <= i < ls.len() ==> !(#[trigger] ls[i]).contains('\n'),
        is_header_line(ls[0]),
        is_dll_overrides_section_spec(trim_seq(ls[0])),
        forall|i: int| 1 <= i < ls.len() ==> !is_header_line(#[trigger] ls[i]),
    ensures
        is_section_text(joined_lines(ls)),
        joined_lines(ls).last() == '\n',
    decreases ls.len(),
{
    let last = ls.last();
    let piece = last.push('\n');
    assert(!ls[ls.len() - 1].contains('\n'));
    assert(is_first_char(piece, '\n', 0, last.len() as int)) by {
        assert forall|j: int| 0 <= j < last.len() implies piece[j] != '\n' by {
            assert(piece[j] == last[j]);
            assert(last.contains(last[j]));
        }
    }
    lemma_first_char_index(piece, '\n', last.len() as int);
    assert(piece_len(piece) == piece.len());
    assert(piece.take(piece.len() as int) =~= piece);
    assert(piece.drop_last() =~= last);
    assert(trimmed_piece(piece) == trim_seq(last));
    if ls.len() == 1 {
        assert(joined_lines(ls.drop_last()) =~= Seq::<char>::empty());
        assert(joined_lines(ls) =~= piece);
        assert(piece.skip(piece.len() as int) =~= Seq::<char>::empty());
    } else {
        let init = ls.drop_last();
        assert forall|i: int| 0 <= i < init.len() implies !(#[trigger] init[i]).contains('\n') by {
            assert(init[i] == ls[i]);
        }
        assert forall|i: int| 1 <= i < init.len() implies !is_header_line(#[trigger] init[i]) by {
            assert(init[i] == ls[i]);
        }
        assert(init[0] == ls[0]);
        lemma_joined_is_section(init);
        assert(!is_header_line(ls[ls.len() - 1]));
        lemma_section_append(joined_lines(init), piece);
    }
}

/// The lines `upsert_spec` writes back, before the blank lines it restores.
pub open spec fn upsert_result(section: Seq<char>) -> Seq<Seq<char>> {
    let ls = lines_seq(section);
    let c = classify_lines(ls, WINHTTP_KEY@);
    let sorted = sort_entries(c.1.push((WINHTTP_KEY@, entry_line(WINHTTP_KEY@, OVERRIDE_VALUE@))));
    drop_trailing_blanks(c.0 + sorted.map_values(|e: (Seq<char>, Seq<char>)| e.1) + c.2)
}

proof fn lemma_entry_is_no_header(l: Seq<char>)
    requires
        reg_entry_key_spec(l) is Some,
    ensures
        !is_header_line(l),
{
}

/// Upserting into a section gives a section again, with the same header.
#[verifier::rlimit(60)]
pub proof fn lemma_upsert_is_section(section: Seq<char>)
    requires
        is_section_text(section),
    ensures
        ({
            let u = upsert_spec(section, WINHTTP_KEY@, OVERRIDE_VALUE@);
            &&& is_section_text(u)
            &&& u.last() == '\n'
            &&& trim_seq(crate::text::first_line_seq(u)) == trim_seq(crate::text::first_line_seq(section))
        }),
{
    let key = WINHTTP_KEY@;
    let val = OVERRIDE_VALUE@;
    let e = entry_line(key, val);
    lemma_winhttp_entry_line();
    let ls = lines_seq(section);
    lemma_lines_have_no_newline(section);
    lemma_section_lines(section);
    let c = classify_lines(ls, key);
    lemma_classify_parts(ls, key);
    lemma_classify_headers(ls, key);
    assert(reg_entry_key_spec(ls[0]) is None) by {
        lemma_trim_idempotent(ls[0]);
    }
    let x = (key, e);
    let t = sort_entries(c.1);
    lemma_sort_entries_from(c.1);
    let k = insert_pos(t, x);
    lemma_insert_pos_bounds(t, x);
    let full_in = c.1.push(x);
    assert(full_in.drop_last() =~= c.1);
    let sorted = sort_entries(full_in);
    assert(sorted == t.take(k).push(x) + t.skip(k));
    let second = |en: (Seq<char>, Seq<char>)| en.1;
    let mid = sorted.map_values(second);
    let xs = c.0 + t.take(k).map_values(second);
    let b = t.skip(k).map_values(second) + c.2;
    assert(c.0 + mid + c.2 =~= xs.push(e) + b);
    lemma_drop_blanks_after(xs.push(e), b);
    let db = drop_trailing_blanks(b);
    let result = upsert_result(section);
    assert(result == xs.push(e) + db);
    assert forall|i: int| 0 <= i < t.len() implies !(#[trigger] t[i]).1.contains('\n') && reg_entry_key_spec(
        t[i].1,
    ) is Some by {
        let w = choose|w: int| 0 <= w < c.1.len() && c.1[w] == t[i];
        assert(c.1[w] == t[i]);
    }
    assert(!is_header_line(e)) by {
        assert(trim_seq(e)[0] == '"');
    }
    assert forall|i: int| 0 <= i < result.len() implies !(#[trigger] result[i]).contains('\n') && (i >= 1
        ==> !is_header_line(result[i])) by {
        if i < c.0.len() {
            assert(result[i] == c.0[i]);
        } else if i < xs.len() {
            assert(result[i] == t[i - c.0.len()].1);
            lemma_entry_is_no_header(t[i - c.0.len()].1);
        } else if i == xs.len() {
            assert(result[i] == e);
        } else {
            let j = i - xs.len() - 1;
            assert(result[i] == db[j]);
            assert(db[j] == b[j]);
            if j < t.len() - k {
                assert(b[j] == t[k + j].1);
                lemma_entry_is_no_header(t[k + j].1);
            } else {
                assert(b[j] == c.2[j - (t.len() - k)]);
            }
        }
    }
    assert(result[0] == ls[0]);
    reveal_strlit("\n");
    assert("\n"@ =~= seq!['\n']);
    let n = crate::wine_prefix::trailing_blanks(ls);
    let u = upsert_spec(section, key, val);
    lemma_join_then_newline(result);
    assert(u =~= joined_lines(result) + newlines(n));
    lemma_joined_with_newlines(result, n);
    let full = result + Seq::new(n, |i: int| Seq::<char>::empty());
    assert(full[0] == ls[0]);
    assert forall|i: int| 0 <= i < full.len() implies !(#[trigger] full[i]).contains('\n') && (i >= 1
        ==> !is_header_line(full[i])) by {
        if i < result.len() {
            assert(full[i] == result[i]);
        } else {
            assert(full[i] == Seq::<char>::empty());
            assert(trim_seq(Seq::<char>::empty()) =~= Seq::<char>::empty()) by {
                assert(trim_start_seq(Seq::<char>::empty()) == Seq::<char>::empty());
            }
        }
    }
    let pl = piece_len(section);
    assert(trim_seq(ls[0]) == trimmed_piece(section.take(pl)));
    lemma_joined_is_section(full);
    lemma_split_joined_lines(full);
    assert(split_inclusive_seq(joined_lines(full))[0] == full[0].push('\n'));
    lemma_line_body_trim(full[0]);
}

proof fn lemma_first_timestamped_in(c: Seq<char>, spans: Seq<(int, int)>)
    ensures
        first_timestamped_span(c, spans) matches Some(sp) ==> exists|p: int|
            0 <= p < spans.len() && spans[p] == sp,
    decreases spans.len(),
{
    if spans.len() > 0 {
        lemma_first_timestamped_in(c, spans.skip(1));
        if first_timestamped_span(c, spans) is Some && !is_timestamped_spec(span_header(c, spans[0])) {
            let sp = first_timestamped_span(c, spans)->0;
            let p = choose|p: int| 0 <= p < spans.skip(1).len() && spans.skip(1)[p] == sp;
            assert(spans[p + 1] == sp);
        } else if first_timestamped_span(c, spans) is Some {
            assert(spans[0] == first_timestamped_span(c, spans)->0);
        }
    }
}

/// The scan of `user.reg` after the merge, section by section: what comes
/// after the rewritten section is found again, moved by the change in size.
#[verifier::rlimit(80)]
proof fn lemma_merged_spans(c: Seq<char>, a: int, b: int, u: Seq<char>)
    requires
        span_ok(c, a, b),
        is_section_text(u),
        u.last() == '\n',
    ensures
        ({
            let merged = c.take(a) + u + c.skip(b);
            section_spans_spec(merged) == shift_spans(section_spans_spec(c), b, u.len() - (b - a))
        }),
{
    let d = u.len() - (b - a);
    let merged = c.take(a) + u + c.skip(b);
    let sec = c.subrange(a, b);
    let rest = c.skip(b);
    let empty_acc = Seq::<(int, int)>::empty();
    let head = c.take(a);
    assert(head.len() == 0 || head.last() == '\n') by {
        if a > 0 {
            assert(head.last() == c[a - 1]);
        }
    }
    let st_a = scan_state(head, 0, None, empty_acc);
    lemma_scan_bound(head, 0, None, empty_acc);
    let closed = close_open(st_a.0, st_a.1, a);
    // the text before the merge
    assert(c =~= head + (sec + rest));
    lemma_scan_concat(head, sec + rest, 0, None, empty_acc);
    if b < c.len() {
        assert(sec.last() == c[b - 1]);
        lemma_scan_concat(sec, rest, a, st_a.0, st_a.1);
    } else {
        assert(rest =~= Seq::<char>::empty());
        assert(sec + rest =~= sec);
    }
    lemma_scan_section(sec, a, st_a.0, st_a.1);
    assert(scan_state(c, 0, None, empty_acc) == scan_state(rest, b, Some(a), closed));
    // the merged text
    assert(merged =~= head + (u + rest));
    lemma_scan_concat(head, u + rest, 0, None, empty_acc);
    lemma_scan_concat(u, rest, a, st_a.0, st_a.1);
    lemma_scan_section(u, a, st_a.0, st_a.1);
    assert(scan_state(merged, 0, None, empty_acc) == scan_state(rest, a + u.len(), Some(a), closed));
    // the same scan, moved
    lemma_scan_shift(rest, b, b, d, Some(a), closed);
    assert(shift_open(Some(a), b, d) == Some(a));
    assert(shift_spans(closed, b, d) =~= closed) by {
        assert forall|i: int| 0 <= i < closed.len() implies shift_span(#[trigger] closed[i], b, d) == closed[i] by {
            if i < st_a.1.len() {
                assert(closed[i] == st_a.1[i]);
            }
        }
    }
    assert(b + d == a + u.len());
    let st = scan_state(rest, b, Some(a), closed);
    lemma_spans_from_finish(c, 0, None, empty_acc, c.len() as int);
    lemma_spans_from_finish(merged, 0, None, empty_acc, merged.len() as int);
    assert(merged.len() == c.len() + d);
    assert(finish_scan((shift_open(st.0, b, d), shift_spans(st.1, b, d)), c.len() + d) =~= shift_spans(
        finish_scan(st, c.len() as int),
        b,
        d,
    ));
}

/// Sections other than the rewritten one keep their headers.
#[verifier::rlimit(60)]
proof fn lemma_headers_kept(c: Seq<char>, spans: Seq<(int, int)>, p: int, u: Seq<char>)
    requires
        spans_wf(c, spans),
        0 <= p < spans.len(),
        trim_seq(crate::text::first_line_seq(u)) == trim_seq(
            crate::text::first_line_seq(c.subrange(spans[p].0, spans[p].1)),
        ),
    ensures
        ({
            let (a, b) = spans[p];
            let merged = c.take(a) + u + c.skip(b);
            let d = u.len() - (b - a);
            forall|i: int|
                0 <= i < spans.len() ==> span_header(merged, shift_span(#[trigger] spans[i], b, d)) == span_header(
                    c,
                    spans[i],
                )
        }),
{
    let (a, b) = spans[p];
    let merged = c.take(a) + u + c.skip(b);
    let d = u.len() - (b - a);
    assert(span_ok(c, a, b));
    assert forall|i: int| 0 <= i < spans.len() implies span_header(
        merged,
        shift_span(#[trigger] spans[i], b, d),
    ) == span_header(c, spans[i]) by {
        assert(span_ok(c, spans[i].0, spans[i].1));
        if i < p {
            assert(spans[i].1 <= spans[p].0);
            assert(merged.subrange(spans[i].0, spans[i].1) =~= c.subrange(spans[i].0, spans[i].1));
        } else if i == p {
            assert(merged.subrange(a, a + u.len()) =~= u);
        } else {
            assert(spans[p].1 <= spans[i].0);
            assert(merged.subrange(spans[i].0 + d, spans[i].1 + d) =~= c.subrange(spans[i].0, spans[i].1));
        }
    }
}

/// With headers kept, the rewritten section is still the one Wine reads.
proof fn lemma_primary_moves(c: Seq<char>, m: Seq<char>, b: int, d: int)
    requires
        primary_span_spec(c) is Some,
        section_spans_spec(m) == shift_spans(section_spans_spec(c), b, d),
        forall|i: int|
            0 <= i < section_spans_spec(c).len() ==> span_header(
                m,
                shift_span(#[trigger] section_spans_spec(c)[i], b, d),
            ) == span_header(c, section_spans_spec(c)[i]),
    ensures
        primary_span_spec(m) == Some(shift_span(primary_span_spec(c)->0, b, d)),
{
    let spans = section_spans_spec(c);
    lemma_first_timestamped_shift(c, m, spans, b, d);
    assert(section_spans_spec(m)[0] == shift_span(spans[0], b, d));
}

/// The merge, when a DllOverrides section exists and winhttp is not set:
/// the primary section is rewritten in place.
proof fn lemma_merge_shape(content: Seq<char>)
    requires
        ({
            let c = remove_plain_duplicates_spec(content);
            !is_winhttp_configured_spec(c) && primary_span_spec(c) is Some
        }),
    ensures
        ({
            let c = remove_plain_duplicates_spec(content);
            let (a, b) = primary_span_spec(c)->0;
            merge_spec(content) == c.take(a) + upsert_spec(c.subrange(a, b), WINHTTP_KEY@, OVERRIDE_VALUE@)
                + c.skip(b)
        }),
{
}

/// Merging the winhttp override into any `user.reg` leaves it configured.
#[verifier::rlimit(60)]
pub proof fn lemma_merge_configures(content: Seq<char>)
    ensures
        is_winhttp_configured_spec(merge_spec(content)),
{
    let c = remove_plain_duplicates_spec(content);
    if is_winhttp_configured_spec(c) || primary_span_spec(c) is None {
        lemma_merge_configures_without_section(content);
    } else {
        let (a, b) = primary_span_spec(c)->0;
        let spans = section_spans_spec(c);
        lemma_section_spans_wf(c);
        lemma_first_timestamped_in(c, spans);
        let p: int = if first_timestamped_span(c, spans) is Some {
            choose|p: int| 0 <= p < spans.len() && spans[p] == (a, b)
        } else {
            0
        };
        assert(0 <= p < spans.len() && spans[p] == (a, b));
        assert(span_ok(c, a, b));
        let sec = c.subrange(a, b);
        let u = upsert_spec(sec, WINHTTP_KEY@, OVERRIDE_VALUE@);
        lemma_upsert_is_section(sec);
        lemma_merge_shape(content);
        let merged = merge_spec(content);
        assert(merged == c.take(a) + u + c.skip(b));
        lemma_merged_spans(c, a, b, u);
        let d = u.len() - (b - a);
        lemma_headers_kept(c, spans, p, u);
        lemma_primary_moves(c, merged, b, d);
        assert(primary_span_spec(merged) == Some((a, a + u.len())));
        assert(merged.subrange(a, a + u.len()) =~= u);
        lemma_upsert_reads_back(sec);
    }
}

// ---------------------------------------------------------------------------
// Entry order in a section
// ---------------------------------------------------------------------------

/// Entry `a` sorts at or before entry `b`: by ASCII-lowercased key.
pub open spec fn key_le(a: (Seq<char>, Seq<char>), b: (Seq<char>, Seq<char>)) -> bool {
    lex_le(lower_seq(a.0), lower_seq(b.0))
}

/// Entries in order of their lowercased keys.
pub open spec fn entries_sorted(s: Seq<(Seq<char>, Seq<char>)>) -> bool {
    forall|i: int, j: int| 0 <= i < j < s.len() ==> key_le(#[trigger] s[i], #[trigger] s[j])
}

pub proof fn lemma_lex_le_total(a: Seq<char>, b: Seq<char>)
    ensures
        lex_le(a, b) || lex_le(b, a),
    decreases a.len(),
{
    if a.len() > 0 && b.len() > 0 && a[0] == b[0] {
        lemma_lex_le_total(a.skip(1), b.skip(1));
    }
}

pub proof fn lemma_lex_le_trans(a: Seq<char>, b: Seq<char>, c: Seq<char>)
    requires
        lex_le(a, b),
        lex_le(b, c),
    ensures
        lex_le(a, c),
    decreases a.len(),
{
    if a.len() > 0 && a[0] == b[0] && b[0] == c[0] {
        lemma_lex_le_trans(a.skip(1), b.skip(1), c.skip(1));
    }
}

/// The entries before the insert position sort at or before `x`; the one
/// at it (if any) does not.
proof fn lemma_insert_pos_splits(t: Seq<(Seq<char>, Seq<char>)>, x: (Seq<char>, Seq<char>))
    ensures
        forall|i: int| 0 <= i < insert_pos(t, x) ==> key_le(#[trigger] t[i], x),
        insert_pos(t, x) < t.len() ==> !key_le(t[insert_pos(t, x)], x),
    decreases t.len(),
{
    lemma_insert_pos_bounds(t, x);
    if t.len() > 0 && key_le(t[0], x) {
        lemma_insert_pos_splits(t.skip(1), x);
        assert forall|i: int| 0 <= i < insert_pos(t, x) implies key_le(#[trigger] t[i], x) by {
            if i > 0 {
                assert(t[i] == t.skip(1)[i - 1]);
            }
        }
        lemma_insert_pos_bounds(t.skip(1), x);
        assert(insert_pos(t, x) == 1 + insert_pos(t.skip(1), x));
        if insert_pos(t, x) < t.len() {
            let j = insert_pos(t.skip(1), x);
            assert(j < t.skip(1).len());
            assert(t[insert_pos(t, x)] == t.skip(1)[j]);
        }
    }
}

/// Sorting puts entries in order of their lowercased keys, whatever order
/// they came in.
pub proof fn lemma_sort_entries_sorted(s: Seq<(Seq<char>, Seq<char>)>)
    ensures
        entries_sorted(sort_entries(s)),
    decreases s.len(),
{
    if s.len() > 0 {
        let init = s.drop_last();
        let x = s.last();
        lemma_sort_entries_sorted(init);
        let t = sort_entries(init);
        let k = insert_pos(t, x);
        lemma_insert_pos_bounds(t, x);
        lemma_insert_pos_splits(t, x);
        let r = sort_entries(s);
        assert(r == t.take(k).push(x) + t.skip(k));
        assert(r.len() == t.len() + 1);
        assert forall|j: int| k <= j < t.len() implies key_le(x, #[trigger] t[j]) by {
            if key_le(t[j], x) {
                if j > k {
                    lemma_lex_le_trans(lower_seq(t[k].0), lower_seq(t[j].0), lower_seq(x.0));
                }
            }
            lemma_lex_le_total(lower_seq(x.0), lower_seq(t[j].0));
        }
        assert forall|i: int, j: int| 0 <= i < j < r.len() implies key_le(#[trigger] r[i], #[trigger] r[j]) by {
            if j < k {
                assert(r[i] == t[i] && r[j] == t[j]);
            } else if j == k {
                assert(r[i] == t[i] && r[j] == x);
            } else if i < k {
                assert(r[i] == t[i] && r[j] == t[j - 1]);
                lemma_lex_le_trans(lower_seq(t[i].0), lower_seq(x.0), lower_seq(t[j - 1].0));
            } else if i == k {
                assert(r[i] == x && r[j] == t[j - 1]);
            } else {
                assert(r[i] == t[i - 1] && r[j] == t[j - 1]);
            }
        }
    }
}

/// Sorting the entries only reorders them: each entry occurs as often
/// before as after.
pub proof fn lemma_sort_entries_permutes(s: Seq<(Seq<char>, Seq<char>)>)
    ensures
        sort_entries(s).to_multiset() == s.to_multiset(),
    decreases s.len(),
{
    broadcast use vstd::seq_lib::group_to_multiset_ensures;

    if s.len() == 0 {
        assert(sort_entries(s) == s);
    } else {
        let init = s.drop_last();
        let x = s.last();
        lemma_sort_entries_permutes(init);
        let t = sort_entries(init);
        let k = insert_pos(t, x);
        lemma_insert_pos_bounds(t, x);
        let r = sort_entries(s);
        assert(r == t.take(k).push(x) + t.skip(k));
        assert(r.remove(k) =~= t);
        assert(r[k] == x);
        assert(r.remove(k).to_multiset() =~= r.to_multiset().remove(x));
        assert(r.to_multiset().count(x) > 0);
        assert(r.to_multiset() =~= t.to_multiset().insert(x));
        assert(init.push(x) =~= s);
        assert(s.to_multiset() =~= init.to_multiset().insert(x));
    }
}

/// Writing `key` into a section: the section's entries other than `key`,
/// with the new entry for `key`, are written back in order of their
/// lowercased keys, none lost and none added.
pub proof fn lemma_upsert_orders_and_keeps(section: Seq<char>, key: Seq<char>, value: Seq<char>)
    ensures
        ({
            let kept = classify_lines(lines_seq(section), key).1;
            let all = kept.push((key, entry_line(key, value)));
            &&& entries_sorted(sort_entries(all))
            &&& sort_entries(all).to_multiset() == all.to_multiset()
        }),
{
    let all = classify_lines(lines_seq(section), key).1.push((key, entry_line(key, value)));
    lemma_sort_entries_sorted(all);
    lemma_sort_entries_permutes(all);
}


// ---------------------------------------------------------------------------
// Merging twice
// ---------------------------------------------------------------------------

/// A section's header reads the same from the section's start to the end of
/// the text as within the section.
proof fn lemma_header_from_start(c: Seq<char>, x: int, y: int)
    requires
        span_ok(c, x, y),
    ensures
        trim_seq(crate::text::first_line_seq(c.skip(x))) == span_header(c, (x, y)),
{
    let sec = c.subrange(x, y);
    if y < c.len() {
        assert(sec.last() == c[y - 1]);
        let rest = c.skip(y);
        assert(c.skip(x) =~= sec + rest);
        lemma_split_inclusive_concat(sec, rest);
        assert(split_inclusive_seq(sec).len() > 0);
        assert(split_inclusive_seq(sec + rest)[0] == split_inclusive_seq(sec)[0]);
    } else {
        assert(c.skip(x) =~= sec);
    }
}

/// Over sections in order, a header read to the end of the text is
/// timestamped exactly when that section's header is.
proof fn lemma_timestamped_headers(c: Seq<char>, spans: Seq<(int, int)>)
    requires
        spans_wf(c, spans),
    ensures
        has_timestamped_span(c, spans) <==> exists|i: int|
            0 <= i < spans.len() && is_timestamped_spec(span_header(c, #[trigger] spans[i])),
{
    assert forall|i: int| 0 <= i < spans.len() implies trim_seq(
        crate::text::first_line_seq(c.skip((#[trigger] spans[i]).0)),
    ) == span_header(c, spans[i]) by {
        lemma_header_from_start(c, spans[i].0, spans[i].1);
    }
}

/// Text whose only DllOverrides section is the last one keeps all of it when
/// plain duplicates are dropped.
proof fn lemma_remove_single_span(m: Seq<char>, x: int)
    requires
        section_spans_spec(m) == seq![(x, m.len() as int)],
        span_ok(m, x, m.len() as int),
    ensures
        remove_plain_duplicates_spec(m) == m,
{
    let spans = section_spans_spec(m);
    if has_timestamped_span(m, spans) {
        let i = choose|i: int|
            0 <= i < spans.len() && is_timestamped_spec(
                trim_seq(crate::text::first_line_seq(m.skip((#[trigger] spans[i]).0))),
            );
        assert(i == 0);
        lemma_header_from_start(m, x, m.len() as int);
        assert(is_timestamped_spec(span_header(m, spans[0])));
        assert(spans.skip(1) =~= Seq::<(int, int)>::empty());
        assert(kept_text(m, spans, 0) == kept_text(m, spans.skip(1), 0));
        assert(m.subrange(0, m.len() as int) =~= m);
    }
}

#[verifier::rlimit(60)]
proof fn lemma_merge_twice_untimestamped(content: Seq<char>)
    requires
        !has_timestamped_span(content, section_spans_spec(content)),
    ensures
        merge_spec(merge_spec(content)) == merge_spec(content),
{
    let c = content;
    assert(remove_plain_duplicates_spec(content) == c);
    let m = merge_spec(content);
    lemma_merge_configures(content);
    if is_winhttp_configured_spec(c) {
        assert(m == c);
    } else if primary_span_spec(c) is None {
        assert(section_spans_spec(c).len() == 0);
        lemma_scan_terminated(c);
        let t = if c.len() > 0 && c.last() == '\n' {
            c
        } else {
            c.push('\n')
        };
        let empty_acc = Seq::<(int, int)>::empty();
        let tail = appended_section();
        assert(m =~= t + tail);
        let o = t.len() as int;
        lemma_scan_concat(t, tail, 0, None, empty_acc);
        lemma_scan_appended_section(o);
        lemma_spans_from_finish(m, 0, None, empty_acc, m.len() as int);
        assert(section_spans_spec(m) =~= seq![(o + 1, m.len() as int)]);
        lemma_section_spans_wf(m);
        assert(section_spans_spec(m)[0] == (o + 1, m.len() as int));
        lemma_remove_single_span(m, o + 1);
    } else {
        let (a, b) = primary_span_spec(c)->0;
        let spans = section_spans_spec(c);
        lemma_section_spans_wf(c);
        lemma_first_timestamped_in(c, spans);
        let p: int = if first_timestamped_span(c, spans) is Some {
            choose|p: int| 0 <= p < spans.len() && spans[p] == (a, b)
        } else {
            0
        };
        assert(span_ok(c, a, b));
        let sec = c.subrange(a, b);
        let u = upsert_spec(sec, WINHTTP_KEY@, OVERRIDE_VALUE@);
        lemma_upsert_is_section(sec);
        lemma_merge_shape(content);
        assert(m == c.take(a) + u + c.skip(b));
        lemma_merged_spans(c, a, b, u);
        let d = u.len() - (b - a);
        lemma_headers_kept(c, spans, p, u);
        lemma_section_spans_wf(m);
        lemma_timestamped_headers(c, spans);
        let ms = section_spans_spec(m);
        lemma_timestamped_headers(m, ms);
        assert forall|i: int| 0 <= i < ms.len() implies !is_timestamped_spec(span_header(m, #[trigger] ms[i])) by {
            assert(ms[i] == shift_span(spans[i], b, d));
            assert(!is_timestamped_spec(span_header(c, spans[i])));
        }
        assert(!has_timestamped_span(m, ms));
    }
    assert(remove_plain_duplicates_spec(m) == m);
}

/// Where every section among `spans` carries a timestamp, nothing is cut.
proof fn lemma_kept_all_timestamped(t: Seq<char>, spans: Seq<(int, int)>, cursor: int)
    requires
        forall|i: int| 0 <= i < spans.len() ==> is_timestamped_spec(span_header(t, #[trigger] spans[i])),
    ensures
        kept_text(t, spans, cursor) == t.subrange(cursor, t.len() as int),
    decreases spans.len(),
{
    if spans.len() > 0 {
        assert(is_timestamped_spec(span_header(t, spans[0])));
        assert forall|i: int| 0 <= i < spans.skip(1).len() implies is_timestamped_spec(
            span_header(t, #[trigger] spans.skip(1)[i]),
        ) by {
            assert(spans.skip(1)[i] == spans[i + 1]);
        }
        lemma_kept_all_timestamped(t, spans.skip(1), cursor);
    }
}

/// Text whose DllOverrides sections all carry a timestamp keeps all of it
/// when plain duplicates are dropped.
proof fn lemma_remove_all_timestamped(t: Seq<char>)
    requires
        forall|i: int|
            0 <= i < section_spans_spec(t).len() ==> is_timestamped_spec(
                span_header(t, #[trigger] section_spans_spec(t)[i]),
            ),
    ensures
        remove_plain_duplicates_spec(t) == t,
{
    lemma_kept_all_timestamped(t, section_spans_spec(t), 0);
    assert(t.subrange(0, t.len() as int) =~= t);
}

#[verifier::rlimit(60)]
proof fn lemma_merge_twice_timestamped(content: Seq<char>)
    requires
        forall|i: int|
            0 <= i < section_spans_spec(content).len() ==> is_timestamped_spec(
                span_header(content, #[trigger] section_spans_spec(content)[i]),
            ),
    ensures
        merge_spec(merge_spec(content)) == merge_spec(content),
{
    let c = content;
    lemma_remove_all_timestamped(c);
    let m = merge_spec(content);
    lemma_merge_configures(content);
    if is_winhttp_configured_spec(c) {
        assert(m == c);
    } else if primary_span_spec(c) is None {
        let t = if c.len() > 0 && c.last() == '\n' {
            c
        } else {
            c.push('\n')
        };
        let empty_acc = Seq::<(int, int)>::empty();
        assert(section_spans_spec(c).len() == 0);
        lemma_scan_terminated(c);
        let tail = appended_section();
        assert(m =~= t + tail);
        let o = t.len() as int;
        lemma_scan_concat(t, tail, 0, None, empty_acc);
        lemma_scan_appended_section(o);
        lemma_spans_from_finish(m, 0, None, empty_acc, m.len() as int);
        assert(section_spans_spec(m) =~= seq![(o + 1, m.len() as int)]);
        lemma_section_spans_wf(m);
        assert(section_spans_spec(m)[0] == (o + 1, m.len() as int));
        lemma_remove_single_span(m, o + 1);
    } else {
        let (a, b) = primary_span_spec(c)->0;
        let spans = section_spans_spec(c);
        lemma_section_spans_wf(c);
        lemma_first_timestamped_in(c, spans);
        let p: int = if first_timestamped_span(c, spans) is Some {
            choose|p: int| 0 <= p < spans.len() && spans[p] == (a, b)
        } else {
            0
        };
        assert(span_ok(c, a, b));
        let sec = c.subrange(a, b);
        let u = upsert_spec(sec, WINHTTP_KEY@, OVERRIDE_VALUE@);
        lemma_upsert_is_section(sec);
        lemma_merge_shape(content);
        assert(m == c.take(a) + u + c.skip(b));
        lemma_merged_spans(c, a, b, u);
        let d = u.len() - (b - a);
        lemma_headers_kept(c, spans, p, u);
        let ms = section_spans_spec(m);
        assert forall|i: int| 0 <= i < ms.len() implies is_timestamped_spec(span_header(m, #[trigger] ms[i])) by {
            assert(ms[i] == shift_span(spans[i], b, d));
            assert(is_timestamped_spec(span_header(c, spans[i])));
        }
        lemma_remove_all_timestamped(m);
    }
    assert(remove_plain_duplicates_spec(m) == m);
}

/// The trimmed line of `c` that starts at offset `x`.
pub open spec fn line_at(c: Seq<char>, x: int) -> Seq<char> {
    trimmed_piece(c.skip(x).take(piece_len(c.skip(x))))
}

/// The trimmed line is a DllOverrides section header.
pub open spec fn is_dll_header_line(t: Seq<char>) -> bool {
    t.len() > 0 && t[0] == '[' && is_dll_overrides_section_spec(t)
}

/// Every DllOverrides header line of `c` starting from `u` on and before
/// `v` carries a timestamp.
pub open spec fn headers_timestamped_in(c: Seq<char>, u: int, v: int) -> bool {
    forall|x: int|
        u <= x < v && line_start(c, x) && #[trigger] is_dll_header_line(line_at(c, x)) ==> is_timestamped_spec(
            line_at(c, x),
        )
}

/// The line at `x` of `a + b` is the line at `x` of `a` when `a` ends a
/// line there.
proof fn lemma_line_at_prefix(a: Seq<char>, b: Seq<char>, x: int)
    requires
        0 <= x < a.len(),
        a.last() == '\n',
    ensures
        line_at(a + b, x) == line_at(a, x),
{
    let sa = a.skip(x);
    assert((a + b).skip(x) =~= sa + b);
    assert(sa.last() == a.last());
    lemma_piece_len_concat(sa, b);
    let pl = piece_len(sa);
    assert((sa + b).take(pl) =~= sa.take(pl));
}

/// The line at `x` of `a + b`, past `a`, is the line of `b`.
proof fn lemma_line_at_suffix(a: Seq<char>, b: Seq<char>, x: int)
    requires
        a.len() <= x <= a.len() + b.len(),
    ensures
        line_at(a + b, x) == line_at(b, x - a.len()),
{
    assert((a + b).skip(x) =~= b.skip(x - a.len()));
}

/// A span's header is the DllOverrides header line at its start.
proof fn lemma_span_header_line(c: Seq<char>, x: int, y: int)
    requires
        span_ok(c, x, y),
    ensures
        span_header(c, (x, y)) == line_at(c, x),
        is_dll_header_line(line_at(c, x)),
{
    let sec = c.subrange(x, y);
    lemma_section_lines(sec);
    let pl = piece_len(sec);
    if y < c.len() {
        assert(sec.last() == c[y - 1]);
        assert(c.skip(x) =~= sec + c.skip(y));
        lemma_piece_len_concat(sec, c.skip(y));
        assert((sec + c.skip(y)).take(pl) =~= sec.take(pl));
    } else {
        assert(c.skip(x) =~= sec);
    }
}

/// Timestamped header lines of a region of `c` are those of the region cut
/// out, when the region runs from a line start to a line start or the end.
proof fn lemma_headers_timestamped_sub(c: Seq<char>, u: int, v: int)
    requires
        0 <= u <= v <= c.len(),
        line_start(c, u),
        v == c.len() || line_start(c, v),
        headers_timestamped_in(c, u, v),
    ensures
        headers_timestamped_in(c.subrange(u, v), 0, v - u),
{
    let sub = c.subrange(u, v);
    assert forall|x: int|
        0 <= x < v - u && line_start(sub, x) && #[trigger] is_dll_header_line(line_at(sub, x)) implies is_timestamped_spec(
        line_at(sub, x),
    ) by {
        if x > 0 {
            assert(sub[x - 1] == c[u + x - 1]);
        }
        assert(line_start(c, u + x));
        let ss = sub.skip(x);
        if v < c.len() {
            assert(c.skip(u + x) =~= ss + c.skip(v));
            assert(ss.last() == c[v - 1]);
            lemma_piece_len_concat(ss, c.skip(v));
            let pl = piece_len(ss);
            assert((ss + c.skip(v)).take(pl) =~= ss.take(pl));
        } else {
            assert(c.skip(u + x) =~= ss);
        }
        assert(line_at(sub, x) == line_at(c, u + x));
    }
}

/// Texts of whole lines whose header lines are all timestamped join into
/// one.
proof fn lemma_headers_timestamped_concat(a: Seq<char>, b: Seq<char>)
    requires
        a.len() == 0 || a.last() == '\n',
        headers_timestamped_in(a, 0, a.len() as int),
        headers_timestamped_in(b, 0, b.len() as int),
    ensures
        headers_timestamped_in(a + b, 0, (a.len() + b.len()) as int),
{
    let ab = a + b;
    assert forall|x: int|
        0 <= x < a.len() + b.len() && line_start(ab, x) && #[trigger] is_dll_header_line(line_at(ab, x)) implies is_timestamped_spec(
        line_at(ab, x),
    ) by {
        if x < a.len() {
            lemma_line_at_prefix(a, b, x);
            if x > 0 {
                assert(ab[x - 1] == a[x - 1]);
            }
            assert(line_start(a, x));
        } else {
            lemma_line_at_suffix(a, b, x);
            if x > a.len() {
                assert(ab[x - 1] == b[x - a.len() - 1]);
            }
            assert(line_start(b, x - a.len()));
        }
    }
}

/// A scan keeps the spans it closed before and closes the section it
/// started with.
proof fn lemma_scan_keeps(s: Seq<char>, off: int, open: Option<int>, acc: Seq<(int, int)>, total: int)
    ensures
        ({
            let r = finish_scan(scan_state(s, off, open, acc), total);
            &&& acc.len() <= r.len()
            &&& forall|i: int| 0 <= i < acc.len() ==> r[i] == acc[i]
            &&& open matches Some(o) ==> exists|i: int| 0 <= i < r.len() && (#[trigger] r[i]).0 == o
        }),
    decreases s.len(),
{
    let r = finish_scan(scan_state(s, off, open, acc), total);
    if s.len() == 0 || piece_len(s) <= 0 {
        if open is Some {
            assert(r[acc.len() as int].0 == open->0);
        }
    } else {
        let plen = piece_len(s);
        let t = trimmed_piece(s.take(plen));
        if t.len() > 0 && t[0] == '[' {
            let acc2 = close_open(open, acc, off);
            let open2 = if is_dll_overrides_section_spec(t) {
                Some(off)
            } else {
                None
            };
            lemma_scan_keeps(s.skip(plen), off + plen, open2, acc2, total);
            if open is Some {
                assert(r[acc.len() as int] == acc2[acc.len() as int]);
                assert(r[acc.len() as int].0 == open->0);
            }
        } else {
            lemma_scan_keeps(s.skip(plen), off + plen, open, acc, total);
        }
    }
}

/// Every DllOverrides header line of the scanned text opens a span.
proof fn lemma_scan_finds_headers(
    s: Seq<char>,
    off: int,
    open: Option<int>,
    acc: Seq<(int, int)>,
    total: int,
    p: int,
)
    requires
        0 <= p < s.len(),
        line_start(s, p),
        is_dll_header_line(line_at(s, p)),
    ensures
        ({
            let r = finish_scan(scan_state(s, off, open, acc), total);
            exists|i: int| 0 <= i < r.len() && (#[trigger] r[i]).0 == off + p
        }),
    decreases s.len(),
{
    lemma_piece_shape(s);
    let plen = piece_len(s);
    let t = trimmed_piece(s.take(plen));
    let rest = s.skip(plen);
    if p == 0 {
        assert(s.skip(0) =~= s);
        assert(line_at(s, 0) == t);
        assert(scan_state(s, off, open, acc) == scan_state(rest, off + plen, Some(off), close_open(open, acc, off)));
        lemma_scan_keeps(rest, off + plen, Some(off), close_open(open, acc, off), total);
    } else {
        lemma_first_char_exists(s, '\n', p - 1);
        assert(plen <= p);
        assert(rest.skip(p - plen) =~= s.skip(p));
        if p > plen {
            assert(rest[p - plen - 1] == s[p - 1]);
        }
        assert(line_start(rest, p - plen));
        if t.len() > 0 && t[0] == '[' {
            let acc2 = close_open(open, acc, off);
            let open2 = if is_dll_overrides_section_spec(t) {
                Some(off)
            } else {
                None
            };
            assert(scan_state(s, off, open, acc) == scan_state(rest, off + plen, open2, acc2));
            lemma_scan_finds_headers(rest, off + plen, open2, acc2, total, p - plen);
        } else {
            assert(scan_state(s, off, open, acc) == scan_state(rest, off + plen, open, acc));
            lemma_scan_finds_headers(rest, off + plen, open, acc, total, p - plen);
        }
    }
}

/// Every DllOverrides header line of `user.reg` starts one of its spans.
proof fn lemma_header_starts_span(c: Seq<char>, x: int)
    requires
        0 <= x < c.len(),
        line_start(c, x),
        is_dll_header_line(line_at(c, x)),
    ensures
        exists|i: int| 0 <= i < section_spans_spec(c).len() && (#[trigger] section_spans_spec(c)[i]).0 == x,
{
    let empty_acc = Seq::<(int, int)>::empty();
    lemma_spans_from_finish(c, 0, None, empty_acc, c.len() as int);
    lemma_scan_finds_headers(c, 0, None, empty_acc, c.len() as int, x);
    let r = finish_scan(scan_state(c, 0, None, empty_acc), c.len() as int);
    assert(section_spans_spec(c) == r);
    let i = choose|i: int| 0 <= i < r.len() && (#[trigger] r[i]).0 == 0 + x;
    assert(section_spans_spec(c)[i].0 == x);
}

/// Where plain DllOverrides sections are cut out of `user.reg`, from the
/// `k`-th span and `cursor` on, every DllOverrides header line left carries
/// a timestamp.
#[verifier::rlimit(60)]
proof fn lemma_kept_headers_timestamped(c: Seq<char>, k: int, cursor: int)
    requires
        0 <= k <= section_spans_spec(c).len(),
        0 <= cursor <= c.len(),
        cursor == c.len() || line_start(c, cursor),
        k < section_spans_spec(c).len() ==> cursor <= section_spans_spec(c)[k].0,
        forall|i: int|
            0 <= i < k && cursor <= (#[trigger] section_spans_spec(c)[i]).0 ==> is_timestamped_spec(
                span_header(c, section_spans_spec(c)[i]),
            ),
    ensures
        ({
            let kt = kept_text(c, section_spans_spec(c).skip(k), cursor);
            headers_timestamped_in(kt, 0, kt.len() as int)
        }),
    decreases section_spans_spec(c).len() - k,
{
    let all = section_spans_spec(c);
    lemma_section_spans_wf(c);
    let rest = all.skip(k);
    if k == all.len() {
        assert(rest.len() == 0);
        if cursor < c.len() {
            assert forall|x: int|
                cursor <= x < c.len() && line_start(c, x) && #[trigger] is_dll_header_line(
                    line_at(c, x),
                ) implies is_timestamped_spec(line_at(c, x)) by {
                lemma_header_starts_span(c, x);
                let i = choose|i: int| 0 <= i < all.len() && (#[trigger] all[i]).0 == x;
                assert(span_ok(c, all[i].0, all[i].1));
                lemma_span_header_line(c, all[i].0, all[i].1);
            }
            lemma_headers_timestamped_sub(c, cursor, c.len() as int);
        }
        assert(kept_text(c, rest, cursor) == c.subrange(cursor, c.len() as int));
    } else {
        let sp = all[k];
        assert(rest[0] == sp);
        assert(rest.skip(1) =~= all.skip(k + 1));
        assert(span_ok(c, sp.0, sp.1));
        let h = span_header(c, sp);
        lemma_span_header_line(c, sp.0, sp.1);
        if is_dll_overrides_section_spec(h) && !is_timestamped_spec(h) {
            assert forall|x: int|
                cursor <= x < sp.0 && line_start(c, x) && #[trigger] is_dll_header_line(
                    line_at(c, x),
                ) implies is_timestamped_spec(line_at(c, x)) by {
                lemma_header_starts_span(c, x);
                let i = choose|i: int| 0 <= i < all.len() && (#[trigger] all[i]).0 == x;
                assert(span_ok(c, all[i].0, all[i].1));
                if i > k {
                    assert(all[k].1 <= all[i].0);
                }
                assert(i < k);
                lemma_span_header_line(c, all[i].0, all[i].1);
            }
            let a = c.subrange(cursor, sp.0);
            if cursor < sp.0 {
                lemma_headers_timestamped_sub(c, cursor, sp.0);
                assert(a.last() == c[sp.0 - 1]);
            }
            if k + 1 < all.len() {
                assert(all[k].1 <= all[k + 1].0);
            }
            assert forall|i: int|
                0 <= i < k + 1 && sp.1 <= (#[trigger] all[i]).0 implies is_timestamped_spec(
                span_header(c, all[i]),
            ) by {
                assert(span_ok(c, all[i].0, all[i].1));
                if i < k {
                    assert(cursor <= all[i].0);
                }
            }
            lemma_kept_headers_timestamped(c, k + 1, sp.1);
            let b = kept_text(c, all.skip(k + 1), sp.1);
            lemma_headers_timestamped_concat(a, b);
            assert(kept_text(c, rest, cursor) == a + b);
        } else {
            if k + 1 < all.len() {
                assert(all[k].1 <= all[k + 1].0);
            }
            assert forall|i: int|
                0 <= i < k + 1 && cursor <= (#[trigger] all[i]).0 implies is_timestamped_spec(
                span_header(c, all[i]),
            ) by {}
            lemma_kept_headers_timestamped(c, k + 1, cursor);
            assert(kept_text(c, rest, cursor) == kept_text(c, all.skip(k + 1), cursor));
        }
    }
}

/// Text whose DllOverrides header lines all carry a timestamp has only
/// timestamped DllOverrides sections.
proof fn lemma_sections_timestamped(t: Seq<char>)
    requires
        headers_timestamped_in(t, 0, t.len() as int),
    ensures
        forall|i: int|
            0 <= i < section_spans_spec(t).len() ==> is_timestamped_spec(
                span_header(t, #[trigger] section_spans_spec(t)[i]),
            ),
{
    let spans = section_spans_spec(t);
    lemma_section_spans_wf(t);
    assert forall|i: int| 0 <= i < spans.len() implies is_timestamped_spec(span_header(t, #[trigger] spans[i])) by {
        assert(span_ok(t, spans[i].0, spans[i].1));
        lemma_span_header_line(t, spans[i].0, spans[i].1);
    }
}

/// Once plain duplicates are dropped beside a timestamped DllOverrides
/// section, every DllOverrides section left carries a timestamp.
proof fn lemma_removed_all_timestamped(content: Seq<char>)
    requires
        has_timestamped_span(content, section_spans_spec(content)),
    ensures
        ({
            let c = remove_plain_duplicates_spec(content);
            forall|i: int|
                0 <= i < section_spans_spec(c).len() ==> is_timestamped_spec(
                    span_header(c, #[trigger] section_spans_spec(c)[i]),
                )
        }),
{
    let all = section_spans_spec(content);
    lemma_section_spans_wf(content);
    if all.len() > 0 {
        assert(span_ok(content, all[0].0, all[0].1));
    }
    lemma_kept_headers_timestamped(content, 0, 0);
    assert(all.skip(0) =~= all);
    lemma_sections_timestamped(remove_plain_duplicates_spec(content));
}

/// A `user.reg` that is configured already, with no plain DllOverrides
/// section beside a timestamped one, is left as it is by the merge.
pub proof fn lemma_merge_keeps_configured(content: Seq<char>)
    requires
        is_winhttp_configured_spec(content),
        remove_plain_duplicates_spec(content) == content,
    ensures
        merge_spec(content) == content,
{
}

/// Merging the winhttp override into `user.reg` a second time leaves the
/// text as the first merge wrote it.
pub proof fn lemma_merge_idempotent(content: Seq<char>)
    ensures
        merge_spec(merge_spec(content)) == merge_spec(content),
{
    if has_timestamped_span(content, section_spans_spec(content)) {
        let c = remove_plain_duplicates_spec(content);
        lemma_removed_all_timestamped(content);
        lemma_remove_all_timestamped(c);
        assert(merge_spec(content) == merge_spec(c));
        lemma_merge_twice_timestamped(c);
    } else {
        lemma_merge_twice_untimestamped(content);
    }
}

} // verus!
