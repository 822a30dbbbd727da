//! Reading a Windows version resource (`VS_VERSIONINFO`): a tree of
//! length-prefixed records of little-endian 16-bit words. Each record holds
//! its total length, the length of its value, a type word, a zero-terminated
//! key, its value and its children, each part padded to 32 bits. Malformed
//! records end the list they are in; nothing here can fail harder than that.
use vstd::prelude::*;

verus! {

/// The value length of a record counts nothing (it must be zero), bytes, or
/// words, depending on where the record stands.
pub const VALUE_LEN_ZERO: u8 = 0;

pub const VALUE_LEN_BYTES: u8 = 1;

pub const VALUE_LEN_WORDS: u8 = 2;

/// A record: its key, its value and its children, as words.
pub type Record = (Seq<u16>, Seq<u16>, Seq<u16>);

/// The resource's bytes as little-endian words (a trailing odd byte is
/// ignored).
pub open spec fn words_of(bytes: Seq<u8>) -> Seq<u16> {
    Seq::new(bytes.len() / 2, |i: int| (bytes[2 * i] + bytes[2 * i + 1] * 256) as u16)
}

/// `n` rounded up to an even number.
pub open spec fn align2(n: int) -> int {
    if n % 2 == 0 {
        n
    } else {
        n + 1
    }
}

/// How many words come before the first zero word (all of them if none).
pub open spec fn key_len(w: Seq<u16>) -> int
    decreases w.len(),
{
    if w.len() == 0 {
        0
    } else if w[0] == 0 {
        0
    } else {
        1 + key_len(w.skip(1))
    }
}

/// The first record of `words` and what follows it, or `None` when the words
/// do not start with a well-formed record: fewer than four words, a length
/// past the end, an unterminated key, a header and key longer than the
/// record, a value past the record's end, or (where no value is allowed) a
/// value length other than zero.
pub open spec fn parse_record(words: Seq<u16>, vlt: u8) -> Option<(Record, Seq<u16>)> {
    if words.len() < 4 {
        None
    } else {
        let length: int = if words[0] / 2 > 4 {
            (words[0] / 2) as int
        } else {
            4
        };
        let value_length: Option<int> = if vlt == VALUE_LEN_ZERO {
            if words[1] == 0 {
                Some(0int)
            } else {
                None
            }
        } else if vlt == VALUE_LEN_BYTES {
            Some((words[1] / 2) as int)
        } else {
            Some(words[1] as int)
        };
        if value_length is None || length > words.len() {
            None
        } else {
            let vl = value_length->0;
            let rest = words.skip(if align2(length) < words.len() {
                align2(length)
            } else {
                words.len() as int
            });
            let w = words.take(length);
            let k = key_len(w.skip(3));
            if k == w.len() - 3 {
                None
            } else if align2(k) + 4 > w.len() {
                None
            } else {
                let w2 = w.skip(align2(k) + 4);
                if vl > w2.len() {
                    None
                } else {
                    let value = w2.take(vl);
                    let children = w2.skip(
                        if align2(vl) < w2.len() {
                            align2(vl)
                        } else {
                            w2.len() as int
                        },
                    );
                    Some(((w.subrange(3, 3 + k), value, children), rest))
                }
            }
        }
    }
}

pub proof fn lemma_rest_shorter(words: Seq<u16>, vlt: u8)
    ensures
        parse_record(words, vlt) matches Some((_, rest)) ==> rest.len() < words.len(),
{
}

/// The records of a list, in order, up to the first malformed one.
pub open spec fn records(words: Seq<u16>, vlt: u8) -> Seq<Record>
    decreases words.len(),
{
    if words.len() == 0 {
        Seq::empty()
    } else {
        match parse_record(words, vlt) {
            None => Seq::empty(),
            Some((r, rest)) => {
                proof {
                    lemma_rest_shorter(words, vlt);
                }
                seq![r] + records(rest, vlt)
            },
        }
    }
}

/// `VarFileInfo`, `StringFileInfo` and `Translation` as words.
pub open spec fn var_file_info_key() -> Seq<u16> {
    seq![86u16, 97, 114, 70, 105, 108, 101, 73, 110, 102, 111]
}

pub open spec fn string_file_info_key() -> Seq<u16> {
    seq![83u16, 116, 114, 105, 110, 103, 70, 105, 108, 101, 73, 110, 102, 111]
}

pub open spec fn translation_key() -> Seq<u16> {
    seq![84u16, 114, 97, 110, 115, 108, 97, 116, 105, 111, 110]
}

/// The value of the last record with `key`.
pub open spec fn last_value(items: Seq<Record>, key: Seq<u16>) -> Option<Seq<u16>>
    decreases items.len(),
{
    if items.len() == 0 {
        None
    } else if items.last().0 == key {
        Some(items.last().1)
    } else {
        last_value(items.drop_last(), key)
    }
}

/// The variables of every `VarFileInfo` block, in order.
pub open spec fn var_list(blocks: Seq<Record>) -> Seq<Record>
    decreases blocks.len(),
{
    if blocks.len() == 0 {
        Seq::empty()
    } else {
        var_list(blocks.drop_last()) + if blocks.last().0 == var_file_info_key() {
            records(blocks.last().2, VALUE_LEN_BYTES)
        } else {
            Seq::empty()
        }
    }
}

/// A hex digit word as the resource reader reads it (non-digits wrap
/// around).
pub open spec fn hex_digit(w: u16) -> u16 {
    if w >= 97 {
        (w - 87) as u16
    } else if w >= 65 {
        (w - 55) as u16
    } else if w >= 48 {
        (w - 48) as u16
    } else {
        (w + 65488) as u16
    }
}

pub open spec fn hex4(a: u16, b: u16, c: u16, d: u16) -> u16 {
    (hex_digit(a) << 12u16) | (hex_digit(b) << 8u16) | (hex_digit(c) << 4u16) | hex_digit(d)
}

/// The language and charset a string table's eight-digit key names.
pub open spec fn table_language(key: Seq<u16>) -> Option<(u16, u16)> {
    if key.len() != 8 {
        None
    } else {
        Some((hex4(key[0], key[1], key[2], key[3]), hex4(key[4], key[5], key[6], key[7])))
    }
}

/// The strings of the tables for `lang`, in order.
pub open spec fn table_strings(tables: Seq<Record>, lang: (u16, u16)) -> Seq<Record>
    decreases tables.len(),
{
    if tables.len() == 0 {
        Seq::empty()
    } else {
        table_strings(tables.drop_last(), lang) + if table_language(tables.last().0) == Some(lang) {
            records(tables.last().2, VALUE_LEN_WORDS)
        } else {
            Seq::empty()
        }
    }
}

/// The strings for `lang` of every `StringFileInfo` block, in order.
pub open spec fn string_list(blocks: Seq<Record>, lang: (u16, u16)) -> Seq<Record>
    decreases blocks.len(),
{
    if blocks.len() == 0 {
        Seq::empty()
    } else {
        string_list(blocks.drop_last(), lang) + if blocks.last().0 == string_file_info_key() {
            table_strings(records(blocks.last().2, VALUE_LEN_ZERO), lang)
        } else {
            Seq::empty()
        }
    }
}

/// The blocks of the resource's first record (only the first counts).
pub open spec fn top_blocks(words: Seq<u16>) -> Seq<Record> {
    let tops = records(words, VALUE_LEN_BYTES);
    if tops.len() == 0 {
        Seq::empty()
    } else {
        records(tops[0].2, VALUE_LEN_ZERO)
    }
}

/// The fixed file version `(Major, Minor, Patch, Build)`: from the first
/// record's value when that is a whole `VS_FIXEDFILEINFO` (26 words).
pub open spec fn fixed_version_spec(words: Seq<u16>) -> Option<(u16, u16, u16, u16)> {
    let tops = records(words, VALUE_LEN_BYTES);
    if tops.len() > 0 && tops[0].1.len() == 26 {
        let v = tops[0].1;
        Some((v[5], v[4], v[7], v[6]))
    } else {
        None
    }
}

/// The first language of the last `Translation` variable.
pub open spec fn first_language_spec(words: Seq<u16>) -> Option<(u16, u16)> {
    match last_value(var_list(top_blocks(words)), translation_key()) {
        Some(v) => if v.len() >= 2 {
            Some((v[0], v[1]))
        } else {
            None
        },
        None => None,
    }
}

/// A string's words without its zero terminator.
pub open spec fn strip_terminator(v: Seq<u16>) -> Seq<u16> {
    if v.len() > 0 && v.last() == 0 {
        v.drop_last()
    } else {
        v
    }
}

/// The words of the string `key` for `lang` (the last one given).
pub open spec fn string_value_spec(words: Seq<u16>, lang: (u16, u16), key: Seq<u16>) -> Option<Seq<u16>> {
    match last_value(string_list(top_blocks(words), lang), key) {
        Some(v) => Some(strip_terminator(v)),
        None => None,
    }
}

// ---------------------------------------------------------------------------
// Executable reading
// ---------------------------------------------------------------------------

pub open spec fn records_view(v: Seq<(Vec<u16>, Vec<u16>, Vec<u16>)>) -> Seq<Record> {
    v.map_values(|r: (Vec<u16>, Vec<u16>, Vec<u16>)| (r.0@, r.1@, r.2@))
}

fn sub_words(v: &Vec<u16>, from: usize, to: usize) -> (r: Vec<u16>)
    requires
        from <= to <= v.len(),
    ensures
        r@ == v@.subrange(from as int, to as int),
{
    let mut r: Vec<u16> = Vec::new();
    let mut i: usize = from;
    while i < to
        invariant
            from <= i <= to,
            to <= v.len(),
            r@ =~= v@.subrange(from as int, i as int),
        decreases to - i,
    {
        r.push(v[i]);
        i = i + 1;
    }
    r
}

fn words_eq(a: &Vec<u16>, b: &Vec<u16>) -> (r: bool)
    ensures
        r == (a@ == b@),
{
    if a.len() != b.len() {
        return false;
    }
    let mut i: usize = 0;
    while i < a.len()
        invariant
            i <= a.len(),
            a.len() == b.len(),
            forall|j: int| 0 <= j < i ==> a@[j] == b@[j],
        decreases a.len() - i,
    {
        if a[i] != b[i] {
            return false;
        }
        i = i + 1;
    }
    assert(a@ =~= b@);
    true
}

/// The resource's bytes as words.
pub fn words_from_bytes(bytes: &[u8]) -> (r: Vec<u16>)
    ensures
        r@ == words_of(bytes@),
{
    let n = bytes.len() / 2;
    let mut r: Vec<u16> = Vec::new();
    let mut i: usize = 0;
    while i < n
        invariant
            n == bytes@.len() / 2,
            2 * n <= bytes@.len(),
            bytes@.len() == bytes.len(),
            i <= n,
            r@ =~= words_of(bytes@).take(i as int),
        decreases n - i,
    {
        let lo = bytes[2 * i] as u16;
        let hi = bytes[2 * i + 1] as u16;
        r.push(lo + hi * 256);
        i = i + 1;
    }
    r
}

fn key_len_exec(w: &Vec<u16>, from: usize, to: usize) -> (r: usize)
    requires
        from <= to <= w.len(),
    ensures
        r as int == key_len(w@.subrange(from as int, to as int)),
        r <= to - from,
{
    let mut i: usize = from;
    while i < to && w[i] != 0
        invariant
            from <= i <= to,
            to <= w.len(),
            key_len(w@.subrange(from as int, to as int)) == (i - from) + key_len(
                w@.subrange(i as int, to as int),
            ),
        decreases to - i,
    {
        assert(w@.subrange(i as int, to as int).skip(1) =~= w@.subrange(i + 1, to as int));
        i = i + 1;
    }
    i - from
}

fn parse_record_exec(words: &Vec<u16>, vlt: u8) -> (r: Option<(Vec<u16>, Vec<u16>, Vec<u16>, Vec<u16>)>)
    ensures
        match parse_record(words@, vlt) {
            None => r is None,
            Some((rec, rest)) => r matches Some((k, v, c, rs)) && k@ == rec.0 && v@ == rec.1 && c@
                == rec.2 && rs@ == rest,
        },
{
    let n = words.len();
    if n < 4 {
        return None;
    }
    let length: usize = if words[0] / 2 > 4 {
        (words[0] / 2) as usize
    } else {
        4
    };
    let vl: usize = if vlt == VALUE_LEN_ZERO {
        if words[1] == 0 {
            0
        } else {
            return None;
        }
    } else if vlt == VALUE_LEN_BYTES {
        (words[1] / 2) as usize
    } else {
        words[1] as usize
    };
    if length > n {
        return None;
    }
    let al = if length % 2 == 0 {
        length
    } else {
        length + 1
    };
    let rest_from = if al < n {
        al
    } else {
        n
    };
    let rest = sub_words(words, rest_from, n);
    let w = sub_words(words, 0, length);
    assert(w@ =~= words@.take(length as int));
    let k = key_len_exec(&w, 3, length);
    assert(w@.subrange(3, length as int) =~= w@.skip(3));
    if k == length - 3 {
        return None;
    }
    let ak = if k % 2 == 0 {
        k
    } else {
        k + 1
    };
    if ak + 4 > length {
        return None;
    }
    let w2 = sub_words(&w, ak + 4, length);
    assert(w2@ =~= w@.skip(ak + 4));
    if vl > w2.len() {
        return None;
    }
    let value = sub_words(&w2, 0, vl);
    assert(value@ =~= w2@.take(vl as int));
    let av = if vl % 2 == 0 {
        vl
    } else {
        vl + 1
    };
    let child_from = if av < w2.len() {
        av
    } else {
        w2.len()
    };
    let children = sub_words(&w2, child_from, w2.len());
    assert(children@ =~= w2@.skip(child_from as int));
    let key = sub_words(&w, 3, 3 + k);
    assert(rest@ =~= words@.skip(rest_from as int));
    Some((key, value, children, rest))
}

/// The records of a list, up to the first malformed one.
pub fn records_exec(words: &Vec<u16>, vlt: u8) -> (r: Vec<(Vec<u16>, Vec<u16>, Vec<u16>)>)
    ensures
        records_view(r@) == records(words@, vlt),
{
    let mut out: Vec<(Vec<u16>, Vec<u16>, Vec<u16>)> = Vec::new();
    let mut cur = sub_words(words, 0, words.len());
    assert(cur@ =~= words@);
    assert(records_view(out@) =~= Seq::<Record>::empty());
    loop
        invariant
            records_view(out@) + records(cur@, vlt) == records(words@, vlt),
        decreases cur@.len(),
    {
        if cur.len() == 0 {
            assert(records_view(out@) + Seq::<Record>::empty() =~= records_view(out@));
            return out;
        }
        match parse_record_exec(&cur, vlt) {
            None => {
                assert(records_view(out@) + Seq::<Record>::empty() =~= records_view(out@));
                return out;
            },
            Some((k, v, c, rest)) => {
                proof {
                    lemma_rest_shorter(cur@, vlt);
                }
                let ghost before = records_view(out@);
                let ghost rec: Record = (k@, v@, c@);
                out.push((k, v, c));
                assert(records_view(out@) =~= before.push(rec));
                assert(before.push(rec) + records(rest@, vlt) =~= before + (seq![rec] + records(
                    rest@,
                    vlt,
                )));
                cur = rest;
            },
        }
    }
}

/// The value of the last record with `key`.
fn last_value_exec(items: &Vec<(Vec<u16>, Vec<u16>, Vec<u16>)>, key: &Vec<u16>) -> (r: Option<Vec<u16>>)
    ensures
        match last_value(records_view(items@), key@) {
            Some(v) => r matches Some(x) && x@ == v,
            None => r is None,
        },
{
    let ghost iv = records_view(items@);
    let mut j: usize = items.len();
    assert(iv.take(j as int) =~= iv);
    while j > 0
        invariant
            j <= items.len(),
            iv == records_view(items@),
            last_value(iv, key@) == last_value(iv.take(j as int), key@),
        decreases j,
    {
        assert(iv.take(j as int).last() == iv[j - 1]);
        if words_eq(&items[j - 1].0, key) {
            return Some(sub_words(&items[j - 1].1, 0, items[j - 1].1.len()));
        }
        assert(iv.take(j as int).drop_last() =~= iv.take(j - 1));
        j = j - 1;
    }
    None
}

fn var_file_info_words() -> (r: Vec<u16>)
    ensures
        r@ == var_file_info_key(),
{
    let r = vec![86u16, 97, 114, 70, 105, 108, 101, 73, 110, 102, 111];
    assert(r@ =~= var_file_info_key());
    r
}

fn string_file_info_words() -> (r: Vec<u16>)
    ensures
        r@ == string_file_info_key(),
{
    let r = vec![83u16, 116, 114, 105, 110, 103, 70, 105, 108, 101, 73, 110, 102, 111];
    assert(r@ =~= string_file_info_key());
    r
}

fn translation_words() -> (r: Vec<u16>)
    ensures
        r@ == translation_key(),
{
    let r = vec![84u16, 114, 97, 110, 115, 108, 97, 116, 105, 111, 110];
    assert(r@ =~= translation_key());
    r
}

fn append_records(out: &mut Vec<(Vec<u16>, Vec<u16>, Vec<u16>)>, more: Vec<(Vec<u16>, Vec<u16>, Vec<u16>)>)
    ensures
        records_view(final(out)@) == records_view(old(out)@) + records_view(more@),
{
    let mut more = more;
    let ghost mv = records_view(more@);
    let ghost mut i: int = 0;
    let ghost o0 = records_view(out@);
    while more.len() > 0
        invariant
            0 <= i <= mv.len(),
            records_view(more@) == mv.skip(i),
            records_view(out@) == o0 + mv.take(i),
        decreases more@.len(),
    {
        let ghost m0 = more@;
        let x = more.remove(0);
        let ghost xr: Record = (x.0@, x.1@, x.2@);
        proof {
            assert(records_view(m0).len() == m0.len());
            assert(x == m0[0]);
            assert(records_view(m0)[0] == xr);
            assert(mv.skip(i)[0] == xr);
            assert(mv[i] == xr);
            assert(more@ =~= m0.skip(1));
            assert(records_view(more@) =~= records_view(m0).skip(1));
        }
        let ghost ob = records_view(out@);
        out.push(x);
        proof {
            assert(records_view(out@) =~= ob.push(xr));
            assert(mv.take(i + 1) =~= mv.take(i).push(xr));
            assert(o0 + mv.take(i + 1) =~= (o0 + mv.take(i)).push(xr));
            assert(records_view(more@) =~= mv.skip(i + 1));
            i = i + 1;
        }
    }
    assert(mv.take(i) =~= mv);
}

fn top_blocks_exec(words: &Vec<u16>) -> (r: Vec<(Vec<u16>, Vec<u16>, Vec<u16>)>)
    ensures
        records_view(r@) == top_blocks(words@),
{
    let tops = records_exec(words, VALUE_LEN_BYTES);
    if tops.len() == 0 {
        let none: Vec<(Vec<u16>, Vec<u16>, Vec<u16>)> = Vec::new();
        assert(records_view(none@) =~= Seq::<Record>::empty());
        return none;
    }
    assert(records_view(tops@)[0] == (tops@[0].0@, tops@[0].1@, tops@[0].2@));
    records_exec(&tops[0].2, VALUE_LEN_ZERO)
}

/// The fixed file version of a resource's words.
pub fn fixed_version(words: &Vec<u16>) -> (r: Option<(u16, u16, u16, u16)>)
    ensures
        r == fixed_version_spec(words@),
{
    let tops = records_exec(words, VALUE_LEN_BYTES);
    if tops.len() > 0 {
        assert(records_view(tops@)[0] == (tops@[0].0@, tops@[0].1@, tops@[0].2@));
        let v = &tops[0].1;
        if v.len() == 26 {
            return Some((v[5], v[4], v[7], v[6]));
        }
    }
    None
}

/// The first language of a resource's words.
pub fn first_language(words: &Vec<u16>) -> (r: Option<(u16, u16)>)
    ensures
        r == first_language_spec(words@),
{
    let blocks = top_blocks_exec(words);
    let ghost bv = records_view(blocks@);
    let key = var_file_info_words();
    let mut vars: Vec<(Vec<u16>, Vec<u16>, Vec<u16>)> = Vec::new();
    let mut i: usize = 0;
    assert(bv.take(0) =~= Seq::<Record>::empty());
    assert(records_view(vars@) =~= Seq::<Record>::empty());
    while i < blocks.len()
        invariant
            i <= blocks.len(),
            bv == records_view(blocks@),
            key@ == var_file_info_key(),
            records_view(vars@) == var_list(bv.take(i as int)),
        decreases blocks.len() - i,
    {
        assert(bv.take(i + 1).drop_last() =~= bv.take(i as int));
        assert(bv.take(i + 1).last() == (blocks@[i as int].0@, blocks@[i as int].1@, blocks@[i as int].2@));
        if words_eq(&blocks[i].0, &key) {
            let more = records_exec(&blocks[i].2, VALUE_LEN_BYTES);
            append_records(&mut vars, more);
        } else {
            assert(records_view(vars@) + Seq::<Record>::empty() =~= records_view(vars@));
        }
        i = i + 1;
    }
    assert(bv.take(i as int) =~= bv);
    match last_value_exec(&vars, &translation_words()) {
        Some(v) => if v.len() >= 2 {
            Some((v[0], v[1]))
        } else {
            None
        },
        None => None,
    }
}

fn hex_digit_exec(w: u16) -> (r: u16)
    ensures
        r == hex_digit(w),
{
    if w >= 97 {
        w - 87
    } else if w >= 65 {
        w - 55
    } else if w >= 48 {
        w - 48
    } else {
        w + 65488
    }
}

fn table_language_exec(key: &Vec<u16>) -> (r: Option<(u16, u16)>)
    ensures
        r == table_language(key@),
{
    if key.len() != 8 {
        return None;
    }
    let a = (hex_digit_exec(key[0]) << 12u16) | (hex_digit_exec(key[1]) << 8u16) | (hex_digit_exec(key[2])
        << 4u16) | hex_digit_exec(key[3]);
    let b = (hex_digit_exec(key[4]) << 12u16) | (hex_digit_exec(key[5]) << 8u16) | (hex_digit_exec(key[6])
        << 4u16) | hex_digit_exec(key[7]);
    Some((a, b))
}

fn table_strings_exec(tables: &Vec<(Vec<u16>, Vec<u16>, Vec<u16>)>, lang: (u16, u16)) -> (r: Vec<
    (Vec<u16>, Vec<u16>, Vec<u16>),
>)
    ensures
        records_view(r@) == table_strings(records_view(tables@), lang),
{
    let ghost tv = records_view(tables@);
    let mut out: Vec<(Vec<u16>, Vec<u16>, Vec<u16>)> = Vec::new();
    let mut i: usize = 0;
    assert(tv.take(0) =~= Seq::<Record>::empty());
    assert(records_view(out@) =~= Seq::<Record>::empty());
    while i < tables.len()
        invariant
            i <= tables.len(),
            tv == records_view(tables@),
            records_view(out@) == table_strings(tv.take(i as int), lang),
        decreases tables.len() - i,
    {
        assert(tv.take(i + 1).drop_last() =~= tv.take(i as int));
        assert(tv.take(i + 1).last() == (tables@[i as int].0@, tables@[i as int].1@, tables@[i as int].2@));
        if table_language_exec(&tables[i].0) == Some(lang) {
            let more = records_exec(&tables[i].2, VALUE_LEN_WORDS);
            append_records(&mut out, more);
        } else {
            assert(records_view(out@) + Seq::<Record>::empty() =~= records_view(out@));
        }
        i = i + 1;
    }
    assert(tv.take(i as int) =~= tv);
    out
}

/// The words of the string `key` for `lang`.
pub fn string_value(words: &Vec<u16>, lang: (u16, u16), key: &Vec<u16>) -> (r: Option<Vec<u16>>)
    ensures
        match string_value_spec(words@, lang, key@) {
            Some(v) => r matches Some(x) && x@ == v,
            None => r is None,
        },
{
    let blocks = top_blocks_exec(words);
    let ghost bv = records_view(blocks@);
    let sfi = string_file_info_words();
    let mut strings: Vec<(Vec<u16>, Vec<u16>, Vec<u16>)> = Vec::new();
    let mut i: usize = 0;
    assert(bv.take(0) =~= Seq::<Record>::empty());
    assert(records_view(strings@) =~= Seq::<Record>::empty());
    while i < blocks.len()
        invariant
            i <= blocks.len(),
            bv == records_view(blocks@),
            sfi@ == string_file_info_key(),
            records_view(strings@) == string_list(bv.take(i as int), lang),
        decreases blocks.len() - i,
    {
        assert(bv.take(i + 1).drop_last() =~= bv.take(i as int));
        assert(bv.take(i + 1).last() == (blocks@[i as int].0@, blocks@[i as int].1@, blocks@[i as int].2@));
        if words_eq(&blocks[i].0, &sfi) {
            let tables = records_exec(&blocks[i].2, VALUE_LEN_ZERO);
            let more = table_strings_exec(&tables, lang);
            append_records(&mut strings, more);
        } else {
            assert(records_view(strings@) + Seq::<Record>::empty() =~= records_view(strings@));
        }
        i = i + 1;
    }
    assert(bv.take(i as int) =~= bv);
    match last_value_exec(&strings, key) {
        Some(v) => {
            if v.len() > 0 && v[v.len() - 1] == 0 {
                let s = sub_words(&v, 0, v.len() - 1);
                assert(s@ =~= v@.drop_last());
                Some(s)
            } else {
                Some(v)
            }
        },
        None => None,
    }
}

} // verus!
