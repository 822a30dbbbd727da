//! Names of the folders that installed mod.io mods live in:
//! `<mod id>_<file id>` optionally followed by `_<sanitized mod name>`.
use vstd::prelude::*;

use crate::number::{dec_seq, parse_u64, parse_u64_spec, u64_to_dec};
use crate::text::{
    append_all, chars_eq, chars_of, first_char_index, index_of_char, is_ctrl, string_of, subvec,
    trim, trim_end, trim_end_seq, trim_seq, char_is_ctrl, is_first_char,
    lemma_first_char_index, lemma_no_char_index, lemma_trim_chars_from, lemma_trim_end_prefix,
};
use crate::number::{all_digits, is_digit, lemma_dec_seq, lemma_parse_dec};

verus! {

/// Longest sanitized mod name kept in a folder name, in characters.
pub const MAX_MOD_NAME_SUFFIX_LEN: usize = 80;

/// Characters that are not allowed in a folder name on common file systems.
pub open spec fn is_forbidden(c: char) -> bool {
    c == '/' || c == '\\' || c == ':' || c == '*' || c == '?' || c == '"' || c == '<' || c == '>'
        || c == '|'
}

/// Forbidden characters become `_`, control characters are dropped.
pub open spec fn replace_forbidden(s: Seq<char>) -> Seq<char>
    decreases s.len(),
{
    if s.len() == 0 {
        Seq::empty()
    } else {
        let rest = replace_forbidden(s.drop_last());
        let c = s.last();
        if is_forbidden(c) {
            rest.push('_')
        } else if is_ctrl(c) {
            rest
        } else {
            rest.push(c)
        }
    }
}

/// `str::trim_end_matches(['.', ' '])`.
pub open spec fn trim_end_dots_spaces(s: Seq<char>) -> Seq<char>
    decreases s.len(),
{
    if s.len() > 0 && (s.last() == '.' || s.last() == ' ') {
        trim_end_dots_spaces(s.drop_last())
    } else {
        s
    }
}

/// At most the first 80 characters, trailing whitespace removed after cutting.
pub open spec fn truncate_suffix_spec(s: Seq<char>) -> Seq<char> {
    if s.len() <= MAX_MOD_NAME_SUFFIX_LEN {
        s
    } else {
        trim_end_seq(s.take(MAX_MOD_NAME_SUFFIX_LEN as int))
    }
}

/// What `sanitize_mod_name` returns for a name.
pub open spec fn sanitize_spec(name: Seq<char>) -> Seq<char> {
    let t = trim_seq(name);
    if t.len() == 0 {
        Seq::empty()
    } else {
        truncate_suffix_spec(trim_seq(trim_end_dots_spaces(replace_forbidden(t))))
    }
}

/// What `install_folder_name` returns.
pub open spec fn install_folder_spec(mod_id: u64, file_id: u64, name: Seq<char>) -> Seq<char> {
    let base = dec_seq(mod_id as nat) + seq!['_'] + dec_seq(file_id as nat);
    let s = sanitize_spec(name);
    if s.len() == 0 {
        base
    } else {
        base + seq!['_'] + s
    }
}

/// What `parse_install_folder_name` returns: split at the first `_`, parse the
/// part before it as the mod id and the part after it, up to the next `_`, as
/// the file id.
pub open spec fn parse_folder_spec(name: Seq<char>) -> Option<(u64, u64)> {
    match first_char_index(name, '_') {
        None => None,
        Some(i) => {
            let rest = name.skip(i + 1);
            let file_part = match first_char_index(rest, '_') {
                Some(j) => rest.take(j),
                None => rest,
            };
            match (parse_u64_spec(name.take(i)), parse_u64_spec(file_part)) {
                (Some(m), Some(f)) => Some((m, f)),
                _ => None,
            }
        },
    }
}

/// A legacy folder name is exactly `<mod id>_<file id>`.
pub open spec fn is_legacy_spec(name: Seq<char>) -> bool {
    match parse_folder_spec(name) {
        Some((m, f)) => name == dec_seq(m as nat) + seq!['_'] + dec_seq(f as nat),
        None => false,
    }
}

/// No character that a folder name must not hold.
pub open spec fn folder_safe(s: Seq<char>) -> bool {
    forall|i: int| 0 <= i < s.len() ==> !is_forbidden(#[trigger] s[i]) && !is_ctrl(s[i])
}

proof fn lemma_replace_forbidden_safe(s: Seq<char>)
    ensures
        folder_safe(replace_forbidden(s)),
    decreases s.len(),
{
    if s.len() > 0 {
        lemma_replace_forbidden_safe(s.drop_last());
        let rest = replace_forbidden(s.drop_last());
        let r = replace_forbidden(s);
        assert forall|i: int| 0 <= i < r.len() implies !is_forbidden(#[trigger] r[i]) && !is_ctrl(
            r[i],
        ) by {
            if i < rest.len() {
                assert(r[i] == rest[i]);
            }
        }
    }
}

proof fn lemma_trim_end_dots_prefix(s: Seq<char>)
    ensures
        trim_end_dots_spaces(s).len() <= s.len(),
        trim_end_dots_spaces(s) == s.take(trim_end_dots_spaces(s).len() as int),
    decreases s.len(),
{
    if s.len() > 0 && (s.last() == '.' || s.last() == ' ') {
        lemma_trim_end_dots_prefix(s.drop_last());
        assert(s.drop_last().take(trim_end_dots_spaces(s).len() as int) =~= s.take(
            trim_end_dots_spaces(s).len() as int,
        ));
    } else {
        assert(s.take(s.len() as int) =~= s);
    }
}

proof fn lemma_trim_keeps_safe(s: Seq<char>)
    requires
        folder_safe(s),
    ensures
        folder_safe(trim_seq(s)),
{
    lemma_trim_chars_from(s);
    assert forall|i: int| 0 <= i < trim_seq(s).len() implies !is_forbidden(
        #[trigger] trim_seq(s)[i],
    ) && !is_ctrl(trim_seq(s)[i]) by {
        let j = choose|j: int| 0 <= j < s.len() && trim_seq(s)[i] == s[j];
        assert(!is_forbidden(s[j]));
    }
}

/// Sanitized names hold no character that file systems forbid and no control
/// character, and are at most 80 characters long.
pub proof fn lemma_sanitized_name_is_safe(name: Seq<char>)
    ensures
        folder_safe(sanitize_spec(name)),
        sanitize_spec(name).len() <= MAX_MOD_NAME_SUFFIX_LEN,
{
    let t = trim_seq(name);
    if t.len() > 0 {
        let a = replace_forbidden(t);
        lemma_replace_forbidden_safe(t);
        let b = trim_end_dots_spaces(a);
        lemma_trim_end_dots_prefix(a);
        assert forall|i: int| 0 <= i < b.len() implies !is_forbidden(#[trigger] b[i]) && !is_ctrl(
            b[i],
        ) by {
            assert(b[i] == a[i]);
        }
        let c = trim_seq(b);
        lemma_trim_keeps_safe(b);
        if c.len() > MAX_MOD_NAME_SUFFIX_LEN {
            let d = c.take(MAX_MOD_NAME_SUFFIX_LEN as int);
            let e = trim_end_seq(d);
            lemma_trim_end_prefix(d);
            assert forall|i: int| 0 <= i < e.len() implies !is_forbidden(#[trigger] e[i])
                && !is_ctrl(e[i]) by {
                assert(e[i] == d[i]);
                assert(d[i] == c[i]);
            }
        }
    }
}

proof fn lemma_digits_no_underscore(s: Seq<char>)
    requires
        all_digits(s),
    ensures
        !s.contains('_'),
{
    if s.contains('_') {
        let i = choose|i: int| 0 <= i < s.len() && s[i] == '_';
        assert(is_digit(s[i]));
    }
}

/// Reading back a folder name that `install_folder_name` built gives the mod
/// id and the file id it was built from.
pub proof fn lemma_parse_install_folder_name(mod_id: u64, file_id: u64, name: Seq<char>)
    ensures
        parse_folder_spec(install_folder_spec(mod_id, file_id, name)) == Some((mod_id, file_id)),
{
    let dm = dec_seq(mod_id as nat);
    let df = dec_seq(file_id as nat);
    lemma_dec_seq(mod_id as nat);
    lemma_dec_seq(file_id as nat);
    lemma_parse_dec(mod_id);
    lemma_parse_dec(file_id);
    lemma_digits_no_underscore(dm);
    lemma_digits_no_underscore(df);
    let s = install_folder_spec(mod_id, file_id, name);
    let san = sanitize_spec(name);
    let i = dm.len() as int;
    assert(s[i] == '_');
    assert forall|j: int| 0 <= j < i implies s[j] != '_' by {
        assert(s[j] == dm[j]);
    }
    assert(is_first_char(s, '_', 0, i));
    lemma_first_char_index(s, '_', i);
    assert(s.take(i) =~= dm);
    let rest = s.skip(i + 1);
    if san.len() == 0 {
        assert(rest =~= df);
        lemma_no_char_index(rest, '_');
    } else {
        assert(rest =~= df + seq!['_'] + san);
        let k = df.len() as int;
        assert(rest[k] == '_');
        assert forall|j: int| 0 <= j < k implies rest[j] != '_' by {
            assert(rest[j] == df[j]);
        }
        assert(is_first_char(rest, '_', 0, k));
        lemma_first_char_index(rest, '_', k);
        assert(rest.take(k) =~= df);
    }
}

/// A folder name built by `install_folder_name` is a legacy name exactly when
/// the mod name sanitizes to nothing.
pub proof fn lemma_legacy_iff_no_name(mod_id: u64, file_id: u64, name: Seq<char>)
    ensures
        is_legacy_spec(install_folder_spec(mod_id, file_id, name)) <==> sanitize_spec(name).len()
            == 0,
{
    lemma_parse_install_folder_name(mod_id, file_id, name);
    let s = install_folder_spec(mod_id, file_id, name);
    let base = dec_seq(mod_id as nat) + seq!['_'] + dec_seq(file_id as nat);
    if sanitize_spec(name).len() != 0 {
        assert(s.len() > base.len());
    }
}

fn replace_forbidden_chars(t: &Vec<char>) -> (r: Vec<char>)
    ensures
        r@ == replace_forbidden(t@),
{
    let mut r: Vec<char> = Vec::new();
    let mut i: usize = 0;
    while i < t.len()
        invariant
            i <= t.len(),
            r@ == replace_forbidden(t@.take(i as int)),
        decreases t.len() - i,
    {
        let c = t[i];
        assert(t@.take(i + 1).drop_last() =~= t@.take(i as int));
        if c == '/' || c == '\\' || c == ':' || c == '*' || c == '?' || c == '"' || c == '<' || c
            == '>' || c == '|' {
            r.push('_');
        } else if char_is_ctrl(c) {
        } else {
            r.push(c);
        }
        i = i + 1;
    }
    assert(t@.take(t.len() as int) =~= t@);
    r
}

fn trim_end_dots_and_spaces(v: &Vec<char>) -> (r: Vec<char>)
    ensures
        r@ == trim_end_dots_spaces(v@),
{
    let mut j: usize = v.len();
    assert(v@.take(j as int) =~= v@);
    while j > 0 && (v[j - 1] == '.' || v[j - 1] == ' ')
        invariant
            j <= v.len(),
            trim_end_dots_spaces(v@) == trim_end_dots_spaces(v@.take(j as int)),
        decreases j,
    {
        assert(v@.take(j as int).drop_last() =~= v@.take(j - 1));
        j = j - 1;
    }
    assert(v@.take(j as int) =~= v@.subrange(0, j as int));
    subvec(v, 0, j)
}

fn truncate_mod_name_suffix(v: &Vec<char>) -> (r: Vec<char>)
    ensures
        r@ == truncate_suffix_spec(v@),
{
    if v.len() <= MAX_MOD_NAME_SUFFIX_LEN {
        return subvec(v, 0, v.len());
    }
    let head = subvec(v, 0, MAX_MOD_NAME_SUFFIX_LEN);
    assert(v@.subrange(0, MAX_MOD_NAME_SUFFIX_LEN as int) =~= v@.take(
        MAX_MOD_NAME_SUFFIX_LEN as int,
    ));
    trim_end(&head)
}

fn sanitize_chars(name: &Vec<char>) -> (r: Vec<char>)
    ensures
        r@ == sanitize_spec(name@),
{
    let trimmed = trim(name);
    if trimmed.len() == 0 {
        return Vec::new();
    }
    let replaced = replace_forbidden_chars(&trimmed);
    let stripped = trim_end_dots_and_spaces(&replaced);
    let t = trim(&stripped);
    truncate_mod_name_suffix(&t)
}

/// Makes a mod name usable as part of a folder name: surrounding whitespace
/// goes, characters that file systems forbid become `_`, control characters
/// are dropped, trailing dots and spaces go, and the result is cut to 80
/// characters.
pub fn sanitize_mod_name(name: &str) -> (r: String)
    ensures
        r@ == sanitize_spec(name@),
{
    let v = chars_of(name);
    let s = sanitize_chars(&v);
    string_of(&s)
}

fn folder_name_chars(mod_id: u64, file_id: u64, name: &Vec<char>) -> (r: Vec<char>)
    ensures
        r@ == install_folder_spec(mod_id, file_id, name@),
{
    let mut r = u64_to_dec(mod_id);
    r.push('_');
    let f = u64_to_dec(file_id);
    append_all(&mut r, &f);
    let s = sanitize_chars(name);
    if s.len() > 0 {
        r.push('_');
        append_all(&mut r, &s);
    }
    r
}

/// `<mod id>_<file id>`, followed by `_<sanitized name>` when the sanitized
/// name is not empty.
pub fn install_folder_name(mod_id: u64, file_id: u64, mod_name: &str) -> (r: String)
    ensures
        r@ == install_folder_spec(mod_id, file_id, mod_name@),
{
    let v = chars_of(mod_name);
    let r = folder_name_chars(mod_id, file_id, &v);
    string_of(&r)
}

fn parse_folder_chars(v: &Vec<char>) -> (r: Option<(u64, u64)>)
    ensures
        r == parse_folder_spec(v@),
{
    let found = index_of_char(v, '_');
    let i = match found {
        Some(i) => i,
        None => return None,
    };
    assert(is_first_char(v@, '_', 0, i as int));
    assert(i < v.len());
    let mod_part = subvec(v, 0, i);
    let rest = subvec(v, i + 1, v.len());
    assert(mod_part@ =~= v@.take(i as int));
    assert(rest@ =~= v@.skip(i + 1));
    let file_part = match index_of_char(&rest, '_') {
        Some(j) => {
            let p = subvec(&rest, 0, j);
            assert(p@ =~= rest@.take(j as int));
            p
        },
        None => rest,
    };
    match parse_u64(&mod_part) {
        Some(m) => match parse_u64(&file_part) {
            Some(f) => Some((m, f)),
            None => None,
        },
        None => None,
    }
}

/// The mod id and file id that a folder name starts with, if it has that form.
pub fn parse_install_folder_name(name: &str) -> (r: Option<(u64, u64)>)
    ensures
        r == parse_folder_spec(name@),
{
    let v = chars_of(name);
    parse_folder_chars(&v)
}

pub fn is_valid_install_folder_name(name: &str) -> (r: bool)
    ensures
        r == parse_folder_spec(name@) is Some,
{
    parse_install_folder_name(name).is_some()
}

/// True for folder names made of the two ids and nothing else.
pub fn is_legacy_install_folder_name(name: &str) -> (r: bool)
    ensures
        r == is_legacy_spec(name@),
{
    let v = chars_of(name);
    match parse_folder_chars(&v) {
        Some((m, f)) => {
            let mut expected = u64_to_dec(m);
            expected.push('_');
            let fd = u64_to_dec(f);
            append_all(&mut expected, &fd);
            assert(expected@ =~= dec_seq(m as nat) + seq!['_'] + dec_seq(f as nat));
            chars_eq(&v, &expected)
        },
        None => false,
    }
}

} // verus!
