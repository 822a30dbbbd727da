//! Character and string primitives shared by every module: conversions between
//! `&str`/`String` and `Vec<char>`, whitespace trimming, ASCII case folding,
//! substring search and decimal integers.
use vstd::prelude::*;

verus! {

/// Appends one character to a string (`String::push`).
#[verifier::external_body]
fn push_char(s: &mut String, c: char)
    ensures
        final(s)@ == old(s)@.push(c),
{
    s.push(c);
}

/// The characters of a string slice, in order.
pub fn chars_of(s: &str) -> (v: Vec<char>)
    ensures
        v@ == s@,
{
    let mut v: Vec<char> = Vec::new();
    for c in it: s.chars()
        invariant
            v@ == it.seq().take(it.index()),
    {
        v.push(c);
    }
    v
}

/// An owned copy of a string slice.
pub fn own(s: &str) -> (r: String)
    ensures
        r@ == s@,
{
    s.to_owned()
}

/// The view of an optional string.
pub open spec fn opt_view(o: Option<String>) -> Option<Seq<char>> {
    match o {
        Some(s) => Some(s@),
        None => None,
    }
}

/// A string holding the given characters.
pub fn string_of(v: &Vec<char>) -> (s: String)
    ensures
        s@ == v@,
{
    let mut s = String::new();
    let mut i: usize = 0;
    while i < v.len()
        invariant
            i <= v.len(),
            s@ == v@.take(i as int),
        decreases v.len() - i,
    {
        push_char(&mut s, v[i]);
        i = i + 1;
        assert(s@ =~= v@.take(i as int));
    }
    assert(v@.take(v.len() as int) =~= v@);
    s
}


// ---------------------------------------------------------------------------
// Character classes
// ---------------------------------------------------------------------------

/// `char::is_whitespace`: the Unicode `White_Space` property.
pub open spec fn is_ws(c: char) -> bool {
    let u = c as u32;
    ||| 0x09 <= u <= 0x0d
    ||| u == 0x20
    ||| u == 0x85
    ||| u == 0xa0
    ||| u == 0x1680
    ||| 0x2000 <= u <= 0x200a
    ||| u == 0x2028
    ||| u == 0x2029
    ||| u == 0x202f
    ||| u == 0x205f
    ||| u == 0x3000
}

/// `char::is_control`: the Unicode general category `Cc`.
pub open spec fn is_ctrl(c: char) -> bool {
    let u = c as u32;
    u <= 0x1f || (0x7f <= u <= 0x9f)
}

/// `char::to_ascii_lowercase`.
pub open spec fn ascii_lower(c: char) -> char {
    if 'A' <= c <= 'Z' {
        ((c as u32) + 32) as char
    } else {
        c
    }
}

/// ASCII lower-casing of every character (`str::to_ascii_lowercase`).
pub open spec fn lower_seq(s: Seq<char>) -> Seq<char> {
    Seq::new(s.len(), |i: int| ascii_lower(s[i]))
}

pub fn char_is_ws(c: char) -> (b: bool)
    ensures
        b == is_ws(c),
{
    let u = c as u32;
    (0x09 <= u && u <= 0x0d) || u == 0x20 || u == 0x85 || u == 0xa0 || u == 0x1680 || (0x2000
        <= u && u <= 0x200a) || u == 0x2028 || u == 0x2029 || u == 0x202f || u == 0x205f || u
        == 0x3000
}

pub fn char_is_ctrl(c: char) -> (b: bool)
    ensures
        b == is_ctrl(c),
{
    let u = c as u32;
    u <= 0x1f || (0x7f <= u && u <= 0x9f)
}

pub fn char_lower(c: char) -> (r: char)
    ensures
        r == ascii_lower(c),
{
    if 'A' <= c && c <= 'Z' {
        let u: u8 = (c as u8) + 32;
        u as char
    } else {
        c
    }
}

/// ASCII lower-cased copy.
pub fn lower(v: &Vec<char>) -> (r: Vec<char>)
    ensures
        r@ == lower_seq(v@),
{
    let mut r: Vec<char> = Vec::new();
    let mut i: usize = 0;
    while i < v.len()
        invariant
            i <= v.len(),
            r@ =~= lower_seq(v@.take(i as int)),
        decreases v.len() - i,
    {
        r.push(char_lower(v[i]));
        i = i + 1;
        assert(r@ =~= lower_seq(v@.take(i as int)));
    }
    assert(v@.take(v.len() as int) =~= v@);
    r
}

// ---------------------------------------------------------------------------
// Trimming
// ---------------------------------------------------------------------------

/// `str::trim_start`.
pub open spec fn trim_start_seq(s: Seq<char>) -> Seq<char>
    decreases s.len(),
{
    if s.len() > 0 && is_ws(s[0]) {
        trim_start_seq(s.drop_first())
    } else {
        s
    }
}

/// `str::trim_end`.
pub open spec fn trim_end_seq(s: Seq<char>) -> Seq<char>
    decreases s.len(),
{
    if s.len() > 0 && is_ws(s.last()) {
        trim_end_seq(s.drop_last())
    } else {
        s
    }
}

/// `str::trim`.
pub open spec fn trim_seq(s: Seq<char>) -> Seq<char> {
    trim_end_seq(trim_start_seq(s))
}

/// `trim_start` keeps a suffix of the input.
pub proof fn lemma_trim_start_suffix(s: Seq<char>)
    ensures
        trim_start_seq(s).len() <= s.len(),
        trim_start_seq(s) == s.skip(s.len() - trim_start_seq(s).len()),
    decreases s.len(),
{
    if s.len() > 0 && is_ws(s[0]) {
        lemma_trim_start_suffix(s.drop_first());
        assert(s.drop_first().skip(s.drop_first().len() - trim_start_seq(s).len()) =~= s.skip(
            s.len() - trim_start_seq(s).len(),
        ));
    } else {
        assert(s.skip(0) =~= s);
    }
}

/// `trim_end` keeps a prefix of the input.
pub proof fn lemma_trim_end_prefix(s: Seq<char>)
    ensures
        trim_end_seq(s).len() <= s.len(),
        trim_end_seq(s) == s.take(trim_end_seq(s).len() as int),
    decreases s.len(),
{
    if s.len() > 0 && is_ws(s.last()) {
        lemma_trim_end_prefix(s.drop_last());
        assert(s.drop_last().take(trim_end_seq(s).len() as int) =~= s.take(
            trim_end_seq(s).len() as int,
        ));
    } else {
        assert(s.take(s.len() as int) =~= s);
    }
}

/// Every character of `trim(s)` is a character of `s`.
pub proof fn lemma_trim_chars_from(s: Seq<char>)
    ensures
        forall|i: int|
            0 <= i < trim_seq(s).len() ==> exists|j: int|
                0 <= j < s.len() && #[trigger] trim_seq(s)[i] == s[j],
{
    lemma_trim_start_suffix(s);
    let t = trim_start_seq(s);
    lemma_trim_end_prefix(t);
    let k = s.len() - t.len();
    assert forall|i: int| 0 <= i < trim_seq(s).len() implies exists|j: int|
        0 <= j < s.len() && #[trigger] trim_seq(s)[i] == s[j] by {
        assert(trim_seq(s)[i] == t[i]);
        assert(t[i] == s[k + i]);
    }
}

pub fn trim_start(v: &Vec<char>) -> (r: Vec<char>)
    ensures
        r@ == trim_start_seq(v@),
{
    let mut i: usize = 0;
    assert(v@.subrange(0, v@.len() as int) =~= v@);
    while i < v.len() && char_is_ws(v[i])
        invariant
            i <= v.len(),
            trim_start_seq(v@) == trim_start_seq(v@.subrange(i as int, v@.len() as int)),
        decreases v.len() - i,
    {
        assert(v@.subrange(i as int, v@.len() as int).drop_first() =~= v@.subrange(
            i + 1,
            v@.len() as int,
        ));
        i = i + 1;
    }
    subvec(v, i, v.len())
}

pub fn trim_end(v: &Vec<char>) -> (r: Vec<char>)
    ensures
        r@ == trim_end_seq(v@),
{
    let mut j: usize = v.len();
    assert(v@.take(j as int) =~= v@);
    while j > 0 && char_is_ws(v[j - 1])
        invariant
            j <= v.len(),
            trim_end_seq(v@) == trim_end_seq(v@.take(j as int)),
        decreases j,
    {
        assert(v@.take(j as int).drop_last() =~= v@.take(j - 1));
        j = j - 1;
    }
    assert(v@.take(j as int) =~= v@.subrange(0, j as int));
    subvec(v, 0, j)
}

pub fn trim(v: &Vec<char>) -> (r: Vec<char>)
    ensures
        r@ == trim_seq(v@),
{
    let t = trim_start(v);
    trim_end(&t)
}

/// Trimmed characters of a string slice.
pub fn trimmed_chars(s: &str) -> (r: Vec<char>)
    ensures
        r@ == trim_seq(s@),
{
    let v = chars_of(s);
    trim(&v)
}

// ---------------------------------------------------------------------------
// Slicing, comparison and search
// ---------------------------------------------------------------------------

pub fn subvec(v: &Vec<char>, from: usize, to: usize) -> (r: Vec<char>)
    requires
        from <= to <= v.len(),
    ensures
        r@ == v@.subrange(from as int, to as int),
{
    let mut r: Vec<char> = Vec::new();
    let mut i: usize = from;
    while i < to
        invariant
            from <= i <= to,
            to <= v.len(),
            r@ =~= v@.subrange(from as int, i as int),
        decreases to - i,
    {
        r.push(v[i]);
        i = i + 1;
        assert(r@ =~= v@.subrange(from as int, i as int));
    }
    r
}

/// Appends `src` to `dst`.
pub fn append_all(dst: &mut Vec<char>, src: &Vec<char>)
    ensures
        final(dst)@ == old(dst)@ + src@,
{
    let ghost start = dst@;
    let mut i: usize = 0;
    while i < src.len()
        invariant
            i <= src.len(),
            dst@ =~= start + src@.take(i as int),
        decreases src.len() - i,
    {
        dst.push(src[i]);
        i = i + 1;
        assert(dst@ =~= start + src@.take(i as int));
    }
    assert(src@.take(src.len() as int) =~= src@);
}

pub fn concat(a: &Vec<char>, b: &Vec<char>) -> (r: Vec<char>)
    ensures
        r@ == a@ + b@,
{
    let mut r = subvec(a, 0, a.len());
    assert(a@.subrange(0, a@.len() as int) =~= a@);
    append_all(&mut r, b);
    r
}

pub fn chars_eq(a: &Vec<char>, b: &Vec<char>) -> (r: bool)
    ensures
        r == (a@ == b@),
{
    if a.len() != b.len() {
        return false;
    }
    let mut i: usize = 0;
    while i < a.len()
        invariant
            i <= a.len(),
            a.len() == b.len(),
            forall|k: int| 0 <= k < i ==> a@[k] == b@[k],
        decreases a.len() - i,
    {
        if a[i] != b[i] {
            return false;
        }
        i = i + 1;
    }
    assert(a@ =~= b@);
    true
}

/// `a.eq_ignore_ascii_case(b)`.
pub fn eq_ignore_case(a: &Vec<char>, b: &Vec<char>) -> (r: bool)
    ensures
        r == (lower_seq(a@) == lower_seq(b@)),
{
    let la = lower(a);
    let lb = lower(b);
    chars_eq(&la, &lb)
}

/// `p` occurs in `s` starting at index `i`.
pub open spec fn occurs_at(s: Seq<char>, p: Seq<char>, i: int) -> bool {
    0 <= i && i + p.len() <= s.len() && s.subrange(i, i + p.len()) == p
}

pub open spec fn starts_with_seq(s: Seq<char>, p: Seq<char>) -> bool {
    occurs_at(s, p, 0)
}

pub open spec fn ends_with_seq(s: Seq<char>, p: Seq<char>) -> bool {
    occurs_at(s, p, s.len() - p.len())
}

pub open spec fn contains_seq(s: Seq<char>, p: Seq<char>) -> bool {
    exists|i: int| occurs_at(s, p, i)
}

/// `i` is the first index at or after `from` where `p` occurs in `s`.
pub open spec fn is_first_occurrence(s: Seq<char>, p: Seq<char>, from: int, i: int) -> bool {
    &&& from <= i
    &&& occurs_at(s, p, i)
    &&& forall|j: int| from <= j < i ==> !occurs_at(s, p, j)
}

pub fn occurs_at_exec(v: &Vec<char>, p: &Vec<char>, i: usize) -> (r: bool)
    ensures
        r == occurs_at(v@, p@, i as int),
{
    if i > v.len() || p.len() > v.len() - i {
        return false;
    }
    let mut k: usize = 0;
    while k < p.len()
        invariant
            k <= p.len(),
            i + p.len() <= v.len(),
            forall|m: int| 0 <= m < k ==> v@[i + m] == p@[m],
        decreases p.len() - k,
    {
        if v[i + k] != p[k] {
            assert(v@.subrange(i as int, i + p.len())[k as int] != p@[k as int]);
            return false;
        }
        k = k + 1;
    }
    assert(v@.subrange(i as int, i + p.len()) =~= p@);
    true
}

pub fn starts_with(v: &Vec<char>, p: &Vec<char>) -> (r: bool)
    ensures
        r == starts_with_seq(v@, p@),
{
    occurs_at_exec(v, p, 0)
}

pub fn ends_with(v: &Vec<char>, p: &Vec<char>) -> (r: bool)
    ensures
        r == ends_with_seq(v@, p@),
{
    if p.len() > v.len() {
        return false;
    }
    occurs_at_exec(v, p, v.len() - p.len())
}

/// First occurrence of `p` in `v` at or after `from`.
pub fn find_from(v: &Vec<char>, p: &Vec<char>, from: usize) -> (r: Option<usize>)
    ensures
        r matches Some(i) ==> is_first_occurrence(v@, p@, from as int, i as int),
        r is None ==> forall|j: int| from <= j ==> !occurs_at(v@, p@, j),
{
    let mut i: usize = from;
    while i < v.len()
        invariant
            from <= i,
            forall|j: int| from <= j < i ==> !occurs_at(v@, p@, j),
        decreases v.len() - i,
    {
        if occurs_at_exec(v, p, i) {
            return Some(i);
        }
        i = i + 1;
    }
    if occurs_at_exec(v, p, i) {
        return Some(i);
    }
    None
}

pub fn find(v: &Vec<char>, p: &Vec<char>) -> (r: Option<usize>)
    ensures
        r matches Some(i) ==> is_first_occurrence(v@, p@, 0, i as int),
        r is None ==> !contains_seq(v@, p@),
{
    find_from(v, p, 0)
}

pub fn contains(v: &Vec<char>, p: &Vec<char>) -> (r: bool)
    ensures
        r == contains_seq(v@, p@),
{
    match find(v, p) {
        Some(i) => {
            assert(occurs_at(v@, p@, i as int));
            true
        },
        None => false,
    }
}

/// Index of the first `c` in `s` at or after `from`.
pub open spec fn is_first_char(s: Seq<char>, c: char, from: int, i: int) -> bool {
    &&& from <= i < s.len()
    &&& s[i] == c
    &&& forall|j: int| from <= j < i ==> s[j] != c
}

pub fn find_char(v: &Vec<char>, c: char, from: usize) -> (r: Option<usize>)
    ensures
        r matches Some(i) ==> is_first_char(v@, c, from as int, i as int),
        r is None ==> forall|j: int| from <= j < v@.len() ==> v@[j] != c,
{
    let mut i: usize = from;
    while i < v.len()
        invariant
            from <= i,
            forall|j: int| from <= j < i && j < v@.len() ==> v@[j] != c,
        decreases v.len() - i,
    {
        if v[i] == c {
            return Some(i);
        }
        i = i + 1;
    }
    None
}

/// Index of the first `c` in `s`, if any (what `str::find(c)` and
/// `str::split_once(c)` go by).
pub open spec fn first_char_index(s: Seq<char>, c: char) -> Option<int> {
    if exists|i: int| is_first_char(s, c, 0, i) {
        Some(choose|i: int| is_first_char(s, c, 0, i))
    } else {
        None
    }
}

pub proof fn lemma_first_char_index(s: Seq<char>, c: char, i: int)
    requires
        is_first_char(s, c, 0, i),
    ensures
        first_char_index(s, c) == Some(i),
{
    let j = choose|j: int| is_first_char(s, c, 0, j);
    assert(is_first_char(s, c, 0, j));
    if j < i {
        assert(s[j] != c);
    } else if i < j {
        assert(s[i] != c);
    }
}

pub proof fn lemma_no_char_index(s: Seq<char>, c: char)
    requires
        !s.contains(c),
    ensures
        first_char_index(s, c) is None,
{
    if exists|i: int| is_first_char(s, c, 0, i) {
        let i = choose|i: int| is_first_char(s, c, 0, i);
        assert(s[i] == c);
    }
}

pub fn index_of_char(v: &Vec<char>, c: char) -> (r: Option<usize>)
    ensures
        match r {
            Some(i) => first_char_index(v@, c) == Some(i as int),
            None => first_char_index(v@, c) is None,
        },
        r matches Some(i) ==> is_first_char(v@, c, 0, i as int),
        r is None ==> !v@.contains(c),
{
    match find_char(v, c, 0) {
        Some(i) => {
            proof {
                lemma_first_char_index(v@, c, i as int);
            }
            Some(i)
        },
        None => {
            proof {
                lemma_no_char_index(v@, c);
            }
            None
        },
    }
}

pub fn has_char(v: &Vec<char>, c: char) -> (r: bool)
    ensures
        r == v@.contains(c),
{
    match find_char(v, c, 0) {
        Some(i) => {
            assert(v@[i as int] == c);
            true
        },
        None => false,
    }
}


/// Index of the first occurrence of `p` in `s`, if any.
pub open spec fn first_occurrence(s: Seq<char>, p: Seq<char>) -> Option<int> {
    if exists|i: int| is_first_occurrence(s, p, 0, i) {
        Some(choose|i: int| is_first_occurrence(s, p, 0, i))
    } else {
        None
    }
}

pub proof fn lemma_first_occurrence(s: Seq<char>, p: Seq<char>, i: int)
    requires
        is_first_occurrence(s, p, 0, i),
    ensures
        first_occurrence(s, p) == Some(i),
{
    let j = choose|j: int| is_first_occurrence(s, p, 0, j);
    assert(is_first_occurrence(s, p, 0, j));
    if j < i {
        assert(!occurs_at(s, p, j));
    } else if i < j {
        assert(!occurs_at(s, p, i));
    }
}

pub proof fn lemma_no_occurrence(s: Seq<char>, p: Seq<char>)
    requires
        forall|j: int| 0 <= j ==> !occurs_at(s, p, j),
    ensures
        first_occurrence(s, p) is None,
{
}

/// An occurrence of `p` at `j` means there is a first one.
pub proof fn lemma_first_occurrence_exists(s: Seq<char>, p: Seq<char>, j: int)
    requires
        occurs_at(s, p, j),
    ensures
        first_occurrence(s, p) is Some,
    decreases j,
{
    if exists|k: int| 0 <= k < j && occurs_at(s, p, k) {
        let k = choose|k: int| 0 <= k < j && occurs_at(s, p, k);
        lemma_first_occurrence_exists(s, p, k);
    } else {
        assert(is_first_occurrence(s, p, 0, j));
    }
}

/// The pieces of a split on one character do not contain it.
pub proof fn lemma_split_pieces_lack_separator(s: Seq<char>, c: char, k: int)
    requires
        0 <= k < split_seq(s, seq![c]).len(),
    ensures
        !split_seq(s, seq![c])[k].contains(c),
    decreases s.len(),
{
    let sep = seq![c];
    match first_occurrence(s, sep) {
        Some(i) => {
            let w = choose|w: int| is_first_occurrence(s, sep, 0, w);
            assert(is_first_occurrence(s, sep, 0, w));
            lemma_first_occurrence(s, sep, w);
            if 0 <= i && i + 1 <= s.len() {
                if k == 0 {
                    assert forall|j: int| 0 <= j < i implies s.take(i)[j] != c by {
                        if s[j] == c {
                            assert(s.subrange(j, j + 1) =~= sep);
                            assert(occurs_at(s, sep, j));
                        }
                    }
                } else {
                    assert(split_seq(s, sep)[k] == split_seq(s.skip(i + 1), sep)[k - 1]);
                    lemma_split_pieces_lack_separator(s.skip(i + 1), c, k - 1);
                }
            }
        },
        None => {
            assert forall|j: int| 0 <= j < s.len() implies s[j] != c by {
                if s[j] == c {
                    assert(s.subrange(j, j + 1) =~= sep);
                    lemma_first_occurrence_exists(s, sep, j);
                }
            }
        },
    }
}

/// Splitting on a character keeps out of every piece a character the text
/// lacks.
pub proof fn lemma_split_pieces_keep_absent(s: Seq<char>, c: char, d: char, k: int)
    requires
        0 <= k < split_seq(s, seq![c]).len(),
        !s.contains(d),
    ensures
        !split_seq(s, seq![c])[k].contains(d),
    decreases s.len(),
{
    let sep = seq![c];
    match first_occurrence(s, sep) {
        Some(i) => {
            let w = choose|w: int| is_first_occurrence(s, sep, 0, w);
            assert(is_first_occurrence(s, sep, 0, w));
            lemma_first_occurrence(s, sep, w);
            if 0 <= i && i + 1 <= s.len() {
                if k == 0 {
                    assert forall|j: int| 0 <= j < s.take(i).len() implies #[trigger] s.take(i)[j] != d by {
                        assert(s.take(i)[j] == s[j]);
                    }
                } else {
                    assert(split_seq(s, sep)[k] == split_seq(s.skip(i + 1), sep)[k - 1]);
                    assert forall|j: int| 0 <= j < s.skip(i + 1).len() implies #[trigger] s.skip(i + 1)[j] != d by {
                        assert(s.skip(i + 1)[j] == s[j + i + 1]);
                    }
                    lemma_split_pieces_keep_absent(s.skip(i + 1), c, d, k - 1);
                }
            }
        },
        None => {},
    }
}

/// Text without the separator splits into itself alone.
pub proof fn lemma_split_without_separator(s: Seq<char>, c: char)
    requires
        !s.contains(c),
    ensures
        split_seq(s, seq![c]) == seq![s],
{
    let sep = seq![c];
    assert forall|j: int| 0 <= j implies !occurs_at(s, sep, j) by {
        if occurs_at(s, sep, j) {
            assert(s.subrange(j, j + 1)[0] == c);
            assert(s[j] == c);
        }
    }
    lemma_no_occurrence(s, sep);
}

/// `str::split(sep)` for a non-empty separator: the pieces between
/// non-overlapping occurrences of `sep`, scanning from the left.
pub open spec fn split_seq(s: Seq<char>, sep: Seq<char>) -> Seq<Seq<char>>
    decreases s.len(),
{
    if sep.len() == 0 {
        seq![s]
    } else {
        match first_occurrence(s, sep) {
            Some(i) => if 0 <= i && i + sep.len() <= s.len() {
                seq![s.take(i)] + split_seq(s.skip(i + sep.len()), sep)
            } else {
                seq![s]
            },
            None => seq![s],
        }
    }
}

/// `str::split(sep)` for a non-empty separator.
pub fn split(v: &Vec<char>, sep: &Vec<char>) -> (r: Vec<Vec<char>>)
    requires
        sep.len() > 0,
    ensures
        r@.map_values(|x: Vec<char>| x@) == split_seq(v@, sep@),
{
    let mut out: Vec<Vec<char>> = Vec::new();
    let mut from: usize = 0;
    assert(v@.skip(0) =~= v@);
    assert(out@.map_values(|x: Vec<char>| x@) =~= Seq::<Seq<char>>::empty());
    assert(Seq::<Seq<char>>::empty() + split_seq(v@, sep@) =~= split_seq(v@, sep@));
    loop
        invariant
            from <= v.len(),
            sep.len() > 0,
            out@.map_values(|x: Vec<char>| x@) + split_seq(v@.skip(from as int), sep@) == split_seq(
                v@,
                sep@,
            ),
        decreases v.len() - from,
    {
        let rest = subvec(v, from, v.len());
        assert(rest@ =~= v@.skip(from as int));
        let ghost before = out@.map_values(|x: Vec<char>| x@);
        match find(&rest, sep) {
            Some(i) => {
                proof {
                    lemma_first_occurrence(rest@, sep@, i as int);
                }
                let piece = subvec(&rest, 0, i);
                assert(piece@ =~= rest@.take(i as int));
                out.push(piece);
                assert(out@.map_values(|x: Vec<char>| x@) =~= before.push(rest@.take(i as int)));
                assert(rest@.skip(i + sep@.len()) =~= v@.skip(from + i + sep@.len()));
                assert(seq![rest@.take(i as int)] + split_seq(rest@.skip(i + sep@.len()), sep@)
                    == split_seq(rest@, sep@));
                assert(before.push(rest@.take(i as int)) + split_seq(
                    v@.skip(from + i + sep@.len()),
                    sep@,
                ) =~= before + (seq![rest@.take(i as int)] + split_seq(
                    rest@.skip(i + sep@.len()),
                    sep@,
                )));
                from = from + i + sep.len();
            },
            None => {
                proof {
                    lemma_no_occurrence(rest@, sep@);
                }
                out.push(rest);
                assert(out@.map_values(|x: Vec<char>| x@) =~= before + seq![v@.skip(from as int)]);
                return out;
            },
        }
    }
}

/// `str::strip_prefix(p)`.
pub fn strip_prefix(v: &Vec<char>, p: &Vec<char>) -> (r: Option<Vec<char>>)
    ensures
        match r {
            Some(rest) => starts_with_seq(v@, p@) && rest@ == v@.skip(p@.len() as int),
            None => !starts_with_seq(v@, p@),
        },
{
    if starts_with(v, p) {
        let rest = subvec(v, p.len(), v.len());
        assert(rest@ =~= v@.skip(p@.len() as int));
        Some(rest)
    } else {
        None
    }
}

/// `str::trim_start_matches(p)`: leading copies of `p` removed.
pub open spec fn trim_start_matches_seq(s: Seq<char>, p: Seq<char>) -> Seq<char>
    decreases s.len(),
{
    if p.len() > 0 && starts_with_seq(s, p) {
        trim_start_matches_seq(s.skip(p.len() as int), p)
    } else {
        s
    }
}

/// `str::trim_end_matches(p)`: trailing copies of `p` removed.
pub open spec fn trim_end_matches_seq(s: Seq<char>, p: Seq<char>) -> Seq<char>
    decreases s.len(),
{
    if p.len() > 0 && p.len() <= s.len() && ends_with_seq(s, p) {
        trim_end_matches_seq(s.take(s.len() - p.len()), p)
    } else {
        s
    }
}

pub fn trim_start_matches(v: &Vec<char>, p: &Vec<char>) -> (r: Vec<char>)
    ensures
        r@ == trim_start_matches_seq(v@, p@),
{
    let mut cur = subvec(v, 0, v.len());
    assert(cur@ =~= v@);
    loop
        invariant
            trim_start_matches_seq(cur@, p@) == trim_start_matches_seq(v@, p@),
        decreases cur.len(),
    {
        if p.len() > 0 && starts_with(&cur, p) {
            let next = subvec(&cur, p.len(), cur.len());
            assert(next@ =~= cur@.skip(p@.len() as int));
            cur = next;
        } else {
            return cur;
        }
    }
}

pub fn trim_end_matches(v: &Vec<char>, p: &Vec<char>) -> (r: Vec<char>)
    ensures
        r@ == trim_end_matches_seq(v@, p@),
{
    let mut cur = subvec(v, 0, v.len());
    assert(cur@ =~= v@);
    loop
        invariant
            trim_end_matches_seq(cur@, p@) == trim_end_matches_seq(v@, p@),
        decreases cur.len(),
    {
        if p.len() > 0 && p.len() <= cur.len() && ends_with(&cur, p) {
            let next = subvec(&cur, 0, cur.len() - p.len());
            assert(next@ =~= cur@.take(cur@.len() - p@.len()));
            cur = next;
        } else {
            return cur;
        }
    }
}


// ---------------------------------------------------------------------------
// Lines
// ---------------------------------------------------------------------------

/// `str::split_inclusive('\n')`: each piece ends with its newline, except a
/// last piece that has none; no empty piece.
pub open spec fn split_inclusive_seq(s: Seq<char>) -> Seq<Seq<char>>
    decreases s.len(),
{
    if s.len() == 0 {
        Seq::empty()
    } else {
        match first_char_index(s, '\n') {
            Some(i) => if 0 <= i < s.len() {
                seq![s.take(i + 1)] + split_inclusive_seq(s.skip(i + 1))
            } else {
                seq![s]
            },
            None => seq![s],
        }
    }
}

/// A line without its terminator: `\n`, or `\r\n`.
pub open spec fn line_body(piece: Seq<char>) -> Seq<char> {
    if piece.len() > 0 && piece.last() == '\n' {
        let l = piece.drop_last();
        if l.len() > 0 && l.last() == '\r' {
            l.drop_last()
        } else {
            l
        }
    } else {
        piece
    }
}

/// `str::lines()`.
pub open spec fn lines_seq(s: Seq<char>) -> Seq<Seq<char>> {
    split_inclusive_seq(s).map_values(|p: Seq<char>| line_body(p))
}

/// The first line of `s` (empty when `s` is): `s.lines().next().unwrap_or_default()`.
pub open spec fn first_line_seq(s: Seq<char>) -> Seq<char> {
    if s.len() == 0 {
        s
    } else {
        line_body(split_inclusive_seq(s)[0])
    }
}

pub fn split_inclusive_lines(v: &Vec<char>) -> (r: Vec<Vec<char>>)
    ensures
        r@.map_values(|x: Vec<char>| x@) == split_inclusive_seq(v@),
{
    let mut out: Vec<Vec<char>> = Vec::new();
    let mut from: usize = 0;
    assert(v@.skip(0) =~= v@);
    assert(out@.map_values(|x: Vec<char>| x@) + split_inclusive_seq(v@) =~= split_inclusive_seq(v@));
    while from < v.len()
        invariant
            from <= v.len(),
            out@.map_values(|x: Vec<char>| x@) + split_inclusive_seq(v@.skip(from as int))
                == split_inclusive_seq(v@),
        decreases v.len() - from,
    {
        let rest = subvec(v, from, v.len());
        assert(rest@ =~= v@.skip(from as int));
        let ghost before = out@.map_values(|x: Vec<char>| x@);
        match index_of_char(&rest, '\n') {
            Some(i) => {
                let piece = subvec(&rest, 0, i + 1);
                assert(piece@ =~= rest@.take(i + 1));
                out.push(piece);
                assert(out@.map_values(|x: Vec<char>| x@) =~= before.push(rest@.take(i + 1)));
                assert(rest@.skip(i + 1) =~= v@.skip(from + i + 1));
                assert(before.push(rest@.take(i + 1)) + split_inclusive_seq(v@.skip(from + i + 1))
                    =~= before + (seq![rest@.take(i + 1)] + split_inclusive_seq(rest@.skip(i + 1))));
                from = from + i + 1;
            },
            None => {
                out.push(rest);
                assert(out@.map_values(|x: Vec<char>| x@) =~= before + seq![v@.skip(from as int)]);
                assert(v@.skip(v@.len() as int) =~= Seq::<char>::empty());
                assert(out@.map_values(|x: Vec<char>| x@) + split_inclusive_seq(v@.skip(v@.len() as int))
                    =~= out@.map_values(|x: Vec<char>| x@));
                return out;
            },
        }
    }
    assert(v@.skip(from as int) =~= Seq::<char>::empty());
    assert(out@.map_values(|x: Vec<char>| x@) + split_inclusive_seq(v@.skip(from as int))
        =~= out@.map_values(|x: Vec<char>| x@));
    out
}

pub fn line_body_of(piece: &Vec<char>) -> (r: Vec<char>)
    ensures
        r@ == line_body(piece@),
{
    let n = piece.len();
    if n > 0 && piece[n - 1] == '\n' {
        if n > 1 && piece[n - 2] == '\r' {
            let r = subvec(piece, 0, n - 2);
            assert(r@ =~= piece@.drop_last().drop_last());
            r
        } else {
            let r = subvec(piece, 0, n - 1);
            assert(r@ =~= piece@.drop_last());
            r
        }
    } else {
        subvec_all(piece)
    }
}

pub fn subvec_all(v: &Vec<char>) -> (r: Vec<char>)
    ensures
        r@ == v@,
{
    let r = subvec(v, 0, v.len());
    assert(r@ =~= v@);
    r
}

/// `str::lines()` over characters.
pub fn lines(v: &Vec<char>) -> (r: Vec<Vec<char>>)
    ensures
        r@.map_values(|x: Vec<char>| x@) == lines_seq(v@),
{
    let pieces = split_inclusive_lines(v);
    let ghost ps = split_inclusive_seq(v@);
    let mut out: Vec<Vec<char>> = Vec::new();
    let mut i: usize = 0;
    while i < pieces.len()
        invariant
            i <= pieces.len(),
            pieces@.map_values(|x: Vec<char>| x@) == ps,
            ps == split_inclusive_seq(v@),
            out@.len() == i,
            forall|k: int| 0 <= k < i ==> (#[trigger] out@[k])@ == line_body(ps[k]),
        decreases pieces.len() - i,
    {
        assert(pieces@[i as int]@ == ps[i as int]);
        out.push(line_body_of(&pieces[i]));
        i = i + 1;
    }
    assert(out@.map_values(|x: Vec<char>| x@) =~= lines_seq(v@));
    out
}

pub fn first_line(v: &Vec<char>) -> (r: Vec<char>)
    ensures
        r@ == first_line_seq(v@),
{
    if v.len() == 0 {
        return Vec::new();
    }
    let pieces = split_inclusive_lines(v);
    assert(pieces@.map_values(|x: Vec<char>| x@)[0] == split_inclusive_seq(v@)[0]);
    assert(split_inclusive_seq(v@).len() > 0);
    line_body_of(&pieces[0])
}

/// `items.join(sep)` over characters.
pub fn join_chars(items: &Vec<Vec<char>>, sep: &Vec<char>) -> (r: Vec<char>)
    ensures
        r@ == crate::modio_api::join_spec(items@.map_values(|x: Vec<char>| x@), sep@),
{
    let ghost iv = items@.map_values(|x: Vec<char>| x@);
    let mut r: Vec<char> = Vec::new();
    let mut i: usize = 0;
    while i < items.len()
        invariant
            i <= items.len(),
            iv == items@.map_values(|x: Vec<char>| x@),
            r@ == crate::modio_api::join_spec(iv.take(i as int), sep@),
        decreases items.len() - i,
    {
        assert(iv.take(i + 1).drop_last() =~= iv.take(i as int));
        assert(iv.take(i + 1).last() == items@[i as int]@);
        if i > 0 {
            append_all(&mut r, sep);
        } else {
            assert(r@ =~= Seq::<char>::empty());
        }
        append_all(&mut r, &items[i]);
        i = i + 1;
        assert(r@ =~= crate::modio_api::join_spec(iv.take(i as int), sep@));
    }
    assert(iv.take(i as int) =~= iv);
    r
}

} // verus!
