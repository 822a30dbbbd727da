//! Subscription-sync bookkeeping: which mods failed to sync and why, and
//! which of them the user chose to ignore.
use vstd::prelude::*;
use vstd::multiset::Multiset;

use crate::ids::{lemma_is_sorted_listing, sort_dedup, sorted_contains, sorted_listing, strictly_increasing};
use crate::modio_api::join_spec;
use crate::number::{dec_seq, parse_u64, parse_u64_spec, u64_to_dec};
use crate::text::{
    append_all, chars_eq, chars_of, contains, contains_seq, first_char_index, index_of_char,
    lower, lower_seq, opt_view, own, split, split_seq, starts_with, starts_with_seq, string_of,
    strip_prefix, subvec, trim, trim_end_matches, trim_end_matches_seq, trim_seq,
    trim_start_matches, trim_start_matches_seq,
};

verus! {

/// Longest error detail kept, in characters.
pub const MAX_ERROR_DETAIL_LEN: usize = 240;

pub const RATE_LIMITED_DEPENDENCY_DETAIL: &'static str =
    "Could not fetch required dependencies due to mod.io rate limiting.";

pub const PRIVATE_DEPENDENCY_DETAIL: &'static str =
    "A required dependency is private or could not be loaded on mod.io.";

pub const SINGLE_DEPENDENCY_PREFIX: &'static str = "Required dependency (mod ";

pub const MANY_DEPENDENCIES_PREFIX: &'static str =
    "Required dependencies could not be installed (mods ";

/// A failed sync as stored: the mod, the failure class and a short detail.
pub struct FailedSyncModRecord {
    pub mod_id: u64,
    pub error_type: String,
    pub error_detail: Option<String>,
}

/// A failed sync as listed for the user.
pub struct FailedSyncModEntry {
    pub mod_id: u64,
    pub mod_name: Option<String>,
    pub ignored: bool,
    pub error_type: String,
    pub error_detail: Option<String>,
}

pub struct FailedSyncModList {
    pub mods: Vec<FailedSyncModEntry>,
}

// ---------------------------------------------------------------------------
// Failure classification
// ---------------------------------------------------------------------------

/// The trimmed message, cut to 240 characters followed by `…` when longer;
/// nothing when it is blank.
pub open spec fn truncate_detail_spec(message: Seq<char>) -> Option<Seq<char>> {
    let t = trim_seq(message);
    if t.len() == 0 {
        None
    } else if t.len() <= MAX_ERROR_DETAIL_LEN {
        Some(t)
    } else {
        Some(t.take(MAX_ERROR_DETAIL_LEN as int).push('…'))
    }
}

pub fn truncate_error_detail(message: &str) -> (r: Option<String>)
    ensures
        opt_view(r) == truncate_detail_spec(message@),
{
    let t = trim(&chars_of(message));
    if t.len() == 0 {
        return None;
    }
    if t.len() <= MAX_ERROR_DETAIL_LEN {
        return Some(string_of(&t));
    }
    let mut cut = subvec(&t, 0, MAX_ERROR_DETAIL_LEN);
    cut.push('…');
    assert(cut@ =~= t@.take(MAX_ERROR_DETAIL_LEN as int).push('…'));
    Some(string_of(&cut))
}

/// The message mentions `pattern`, ignoring ASCII case.
pub open spec fn mentions(message: Seq<char>, pattern: Seq<char>) -> bool {
    contains_seq(lower_seq(message), pattern)
}

fn mentions_exec(lowered: &Vec<char>, pattern: &str) -> (r: bool)
    ensures
        r == contains_seq(lowered@, pattern@),
{
    contains(lowered, &chars_of(pattern))
}

/// The message says the mod is private, missing or needs a login.
pub open spec fn mentions_access_problem(message: Seq<char>) -> bool {
    ||| mentions(message, "could not be found"@)
    ||| mentions(message, "private"@)
    ||| mentions(message, "not subscribed"@)
    ||| mentions(message, "sign in"@)
    ||| mentions(message, "not logged in"@)
    ||| mentions(message, "authentication"@)
}

/// The detail recorded for a dependency failure.
pub open spec fn dependency_detail_spec(message: Seq<char>) -> Option<Seq<char>> {
    if mentions(message, "rate limit"@) {
        Some(RATE_LIMITED_DEPENDENCY_DETAIL@)
    } else if mentions(message, "no longer available"@) {
        truncate_detail_spec(message)
    } else if mentions_access_problem(message) {
        Some(PRIVATE_DEPENDENCY_DETAIL@)
    } else {
        truncate_detail_spec(message)
    }
}

pub fn dependency_failure_detail(message: &str) -> (r: Option<String>)
    ensures
        opt_view(r) == dependency_detail_spec(message@),
{
    let l = lower(&chars_of(message));
    if mentions_exec(&l, "rate limit") {
        return Some(own(RATE_LIMITED_DEPENDENCY_DETAIL));
    }
    if mentions_exec(&l, "no longer available") {
        return truncate_error_detail(message);
    }
    if mentions_exec(&l, "could not be found") || mentions_exec(&l, "private") || mentions_exec(
        &l,
        "not subscribed",
    ) || mentions_exec(&l, "sign in") || mentions_exec(&l, "not logged in") || mentions_exec(
        &l,
        "authentication",
    ) {
        return Some(own(PRIVATE_DEPENDENCY_DETAIL));
    }
    truncate_error_detail(message)
}

/// The failure class and detail recorded for a failed sync step: install
/// ordering and dependency failures are `dependency`; otherwise the message
/// decides between `rate_limit`, `unavailable`, `auth`, `game_running` and
/// `profile_blocked`, and the step's own category stays when none applies.
pub open spec fn refine_spec(category: Seq<char>, message: Seq<char>) -> (Seq<char>, Option<Seq<char>>) {
    if category == "install_order"@ || category == "dependency"@ {
        ("dependency"@, dependency_detail_spec(message))
    } else {
        let detail = truncate_detail_spec(message);
        if mentions(message, "rate limit"@) {
            ("rate_limit"@, detail)
        } else if mentions(message, "no longer available"@) {
            ("unavailable"@, detail)
        } else if mentions_access_problem(message) {
            ("auth"@, detail)
        } else if mentions(message, "zeepkist is running"@) {
            ("game_running"@, detail)
        } else if mentions(message, "vanilla profile"@) || mentions(
            message,
            "installing mods is disabled"@,
        ) {
            ("profile_blocked"@, detail)
        } else {
            (category, detail)
        }
    }
}

pub fn refine_sync_failure(category: &str, message: &str) -> (r: (String, Option<String>))
    ensures
        r.0@ == refine_spec(category@, message@).0,
        opt_view(r.1) == refine_spec(category@, message@).1,
{
    let c = chars_of(category);
    if chars_eq(&c, &chars_of("install_order")) || chars_eq(&c, &chars_of("dependency")) {
        return (own("dependency"), dependency_failure_detail(message));
    }
    let l = lower(&chars_of(message));
    let detail = truncate_error_detail(message);
    if mentions_exec(&l, "rate limit") {
        return (own("rate_limit"), detail);
    }
    if mentions_exec(&l, "no longer available") {
        return (own("unavailable"), detail);
    }
    if mentions_exec(&l, "sign in") || mentions_exec(&l, "not logged in") || mentions_exec(
        &l,
        "authentication",
    ) || mentions_exec(&l, "private") || mentions_exec(&l, "could not be found")
        || mentions_exec(&l, "not subscribed") {
        return (own("auth"), detail);
    }
    if mentions_exec(&l, "zeepkist is running") {
        return (own("game_running"), detail);
    }
    if mentions_exec(&l, "vanilla profile") || mentions_exec(&l, "installing mods is disabled") {
        return (own("profile_blocked"), detail);
    }
    (own(category), detail)
}

// ---------------------------------------------------------------------------
// Dependency ids in failure details
// ---------------------------------------------------------------------------

/// What comes before the first `c` (all of `s` when there is none), as the
/// first piece of `str::split(c)`.
pub open spec fn before_char(s: Seq<char>, c: char) -> Seq<char> {
    match first_char_index(s, c) {
        Some(i) => s.take(i),
        None => s,
    }
}

/// The mod named by `Required dependency (mod <id>)...`.
pub open spec fn extract_dependency_id_spec(message: Seq<char>) -> Option<u64> {
    if starts_with_seq(message, SINGLE_DEPENDENCY_PREFIX@) {
        parse_u64_spec(before_char(message.skip(SINGLE_DEPENDENCY_PREFIX@.len() as int), ')'))
    } else {
        None
    }
}

pub fn extract_dependency_mod_id(message: &str) -> (r: Option<u64>)
    ensures
        r == extract_dependency_id_spec(message@),
{
    let rest = match strip_prefix(&chars_of(message), &chars_of(SINGLE_DEPENDENCY_PREFIX)) {
        Some(rest) => rest,
        None => return None,
    };
    let head = match index_of_char(&rest, ')') {
        Some(i) => {
            let h = subvec(&rest, 0, i);
            assert(h@ =~= rest@.take(i as int));
            h
        },
        None => rest,
    };
    parse_u64(&head)
}

/// The ids listed in `Required dependencies could not be installed (mods a, b).`.
pub open spec fn listed_ids_pieces(existing: Seq<char>) -> Seq<Seq<char>> {
    split_seq(
        trim_end_matches_seq(trim_start_matches_seq(existing, MANY_DEPENDENCIES_PREFIX@), ")."@),
        ", "@,
    )
}

/// `x` is one of the dependency ids that an existing detail names.
pub open spec fn existing_names_id(existing: Seq<char>, x: u64) -> bool {
    match extract_dependency_id_spec(existing) {
        Some(id) => x == id,
        None => starts_with_seq(existing, MANY_DEPENDENCIES_PREFIX@) && exists|k: int|
            0 <= k < listed_ids_pieces(existing).len() && parse_u64_spec(
                #[trigger] listed_ids_pieces(existing)[k],
            ) == Some(x),
    }
}

/// The dependency ids named by the new message or by the existing detail.
pub open spec fn merged_dependency_id(existing: Option<Seq<char>>, message: Seq<char>, x: u64) -> bool {
    ||| extract_dependency_id_spec(message) == Some(x)
    ||| (existing matches Some(e) && existing_names_id(e, x))
}

/// `Required dependencies could not be installed (mods a, b).` for the ids in
/// ascending order.
pub open spec fn many_dependencies_text(ids: Seq<u64>) -> Seq<char> {
    MANY_DEPENDENCIES_PREFIX@ + join_spec(ids.map_values(|x: u64| dec_seq(x as nat)), ", "@)
        + ")."@
}

fn many_dependencies_message(ids: &Vec<u64>) -> (r: String)
    ensures
        r@ == many_dependencies_text(ids@),
{
    let ghost items = ids@.map_values(|x: u64| dec_seq(x as nat));
    let mut body: Vec<char> = Vec::new();
    let sep = chars_of(", ");
    let mut i: usize = 0;
    while i < ids.len()
        invariant
            i <= ids.len(),
            items == ids@.map_values(|x: u64| dec_seq(x as nat)),
            sep@ == ", "@,
            body@ == join_spec(items.take(i as int), ", "@),
        decreases ids.len() - i,
    {
        assert(items.take(i + 1).drop_last() =~= items.take(i as int));
        assert(items.take(i + 1).last() == dec_seq(ids@[i as int] as nat));
        if i > 0 {
            append_all(&mut body, &sep);
        } else {
            assert(body@ =~= Seq::<char>::empty());
        }
        append_all(&mut body, &u64_to_dec(ids[i]));
        i = i + 1;
        assert(body@ =~= join_spec(items.take(i as int), ", "@));
    }
    assert(items.take(ids.len() as int) =~= items);
    let mut out = chars_of(MANY_DEPENDENCIES_PREFIX);
    append_all(&mut out, &body);
    append_all(&mut out, &chars_of(")."));
    string_of(&out)
}

/// The ids an existing detail names, in the order written.
fn ids_in_existing(existing: &str) -> (r: Vec<u64>)
    ensures
        forall|x: u64| r@.contains(x) <==> existing_names_id(existing@, x),
{
    match extract_dependency_mod_id(existing) {
        Some(id) => {
            let mut v: Vec<u64> = Vec::new();
            v.push(id);
            assert(v@[0] == id);
            return v;
        },
        None => {},
    }
    let e = chars_of(existing);
    let mut v: Vec<u64> = Vec::new();
    if !starts_with(&e, &chars_of(MANY_DEPENDENCIES_PREFIX)) {
        return v;
    }
    let inner = trim_end_matches(
        &trim_start_matches(&e, &chars_of(MANY_DEPENDENCIES_PREFIX)),
        &chars_of(")."),
    );
    let sep = chars_of(", ");
    proof {
        reveal_strlit(", ");
    }
    let pieces = split(&inner, &sep);
    let ghost ps = listed_ids_pieces(existing@);
    assert(pieces@.map_values(|x: Vec<char>| x@) == ps);
    let mut i: usize = 0;
    while i < pieces.len()
        invariant
            i <= pieces.len(),
            pieces@.map_values(|x: Vec<char>| x@) == ps,
            forall|x: u64| v@.contains(x) <==> exists|k: int|
                0 <= k < i && parse_u64_spec(#[trigger] ps[k]) == Some(x),
        decreases pieces.len() - i,
    {
        assert(pieces@[i as int]@ == ps[i as int]);
        match parse_u64(&pieces[i]) {
            Some(x) => {
                let ghost before = v@;
                v.push(x);
                assert forall|y: u64| v@.contains(y) <==> exists|k: int|
                    0 <= k < i + 1 && parse_u64_spec(#[trigger] ps[k]) == Some(y) by {
                    if v@.contains(y) && y != x {
                        let w = choose|w: int| 0 <= w < v@.len() && #[trigger] v@[w] == y;
                        assert(before[w] == y);
                        assert(before.contains(y));
                    }
                    if y == x {
                        assert(v@[before.len() as int] == y);
                    }
                    if exists|k: int| 0 <= k < i + 1 && parse_u64_spec(#[trigger] ps[k]) == Some(y) {
                        let k = choose|k: int| 0 <= k < i + 1 && parse_u64_spec(#[trigger] ps[k]) == Some(y);
                        if k < i {
                            assert(before.contains(y));
                            let w = choose|w: int| 0 <= w < before.len() && #[trigger] before[w] == y;
                            assert(v@[w] == y);
                        }
                    }
                }
            },
            None => {},
        }
        i = i + 1;
    }
    v
}


/// The detail kept when a dependency failure meets an earlier one for the
/// same mod: all dependency ids named by either, listed once in ascending order;
/// when neither names an id, the new detail, else the earlier one.
pub open spec fn merged_detail_spec(
    existing: Option<Seq<char>>,
    message: Seq<char>,
    new_detail: Option<Seq<char>>,
) -> Option<Seq<char>> {
    if exists|x: u64| merged_dependency_id(existing, message, x) {
        Some(many_dependencies_text(sorted_listing(|x: u64| merged_dependency_id(existing, message, x))))
    } else {
        match new_detail {
            Some(d) => Some(d),
            None => existing,
        }
    }
}

pub fn merge_dependency_failure_details(existing: Option<&str>, category: &str, message: &str) -> (r: (
    String,
    Option<String>,
))
    ensures
        r.0@ == refine_spec(category@, message@).0,
        refine_spec(category@, message@).0 != "dependency"@ ==> opt_view(r.1) == refine_spec(
            category@,
            message@,
        ).1,
        refine_spec(category@, message@).0 == "dependency"@ ==> opt_view(r.1) == merged_detail_spec(
            match existing {
                Some(e) => Some(e@),
                None => None,
            },
            message@,
            refine_spec(category@, message@).1,
        ),
{
    let ghost ex = match existing {
        Some(e) => Some(e@),
        None => None::<Seq<char>>,
    };
    let (error_type, new_detail) = refine_sync_failure(category, message);
    if !chars_eq(&chars_of(error_type.as_str()), &chars_of("dependency")) {
        return (error_type, new_detail);
    }
    let mut ids: Vec<u64> = Vec::new();
    match extract_dependency_mod_id(message) {
        Some(id) => ids.push(id),
        None => {},
    }
    assert(extract_dependency_id_spec(message@) matches Some(id) ==> ids@.len() == 1 && ids@[0] == id);
    let ghost first = ids@;
    match existing {
        Some(e) => {
            let more = ids_in_existing(e);
            let mut i: usize = 0;
            while i < more.len()
                invariant
                    i <= more.len(),
                    ids@.len() == first.len() + i,
                    forall|k: int| 0 <= k < first.len() ==> ids@[k] == first[k],
                    forall|k: int| 0 <= k < i ==> ids@[first.len() + k] == more@[k],
                decreases more.len() - i,
            {
                ids.push(more[i]);
                i = i + 1;
            }
            assert forall|x: u64| ids@.contains(x) <==> merged_dependency_id(ex, message@, x) by {
                if ids@.contains(x) {
                    let w = choose|w: int| 0 <= w < ids@.len() && #[trigger] ids@[w] == x;
                    if w >= first.len() {
                        assert(more@[w - first.len()] == x);
                        assert(more@.contains(x));
                    }
                }
                if extract_dependency_id_spec(message@) == Some(x) {
                    assert(ids@[0] == x);
                }
                if existing_names_id(e@, x) {
                    assert(more@.contains(x));
                    let w = choose|w: int| 0 <= w < more@.len() && #[trigger] more@[w] == x;
                    assert(ids@[first.len() + w] == x);
                }
            }
        },
        None => {
            assert forall|x: u64| ids@.contains(x) <==> merged_dependency_id(ex, message@, x) by {
                if extract_dependency_id_spec(message@) == Some(x) {
                    assert(ids@[0] == x);
                }
            }
        },
    }
    if ids.len() == 0 {
        assert(!exists|x: u64| merged_dependency_id(ex, message@, x)) by {
            if exists|x: u64| merged_dependency_id(ex, message@, x) {
                let x = choose|x: u64| merged_dependency_id(ex, message@, x);
                assert(ids@.contains(x));
            }
        }
        let detail = match new_detail {
            Some(d) => Some(d),
            None => match existing {
                Some(e) => Some(own(e)),
                None => None,
            },
        };
        return (error_type, detail);
    }
    assert(ids@.contains(ids@[0]));
    assert(merged_dependency_id(ex, message@, ids@[0]));
    sort_dedup(&mut ids);
    proof {
        lemma_is_sorted_listing(ids@, |x: u64| merged_dependency_id(ex, message@, x));
    }
    (error_type, Some(many_dependencies_message(&ids)))
}

// ---------------------------------------------------------------------------
// Stored records
// ---------------------------------------------------------------------------

/// Records are ordered by mod id.
pub open spec fn sorted_by_mod_id(records: Seq<FailedSyncModRecord>) -> bool {
    forall|i: int, j: int| 0 <= i < j < records.len() ==> records[i].mod_id <= records[j].mod_id
}

/// First position holding `mod_id`.
pub open spec fn is_first_record(records: Seq<FailedSyncModRecord>, mod_id: u64, i: int) -> bool {
    &&& 0 <= i < records.len()
    &&& records[i].mod_id == mod_id
    &&& forall|j: int| 0 <= j < i ==> records[j].mod_id != mod_id
}

pub open spec fn has_record(records: Seq<FailedSyncModRecord>, mod_id: u64) -> bool {
    exists|i: int| 0 <= i < records.len() && #[trigger] records[i].mod_id == mod_id
}

fn find_record(records: &Vec<FailedSyncModRecord>, mod_id: u64) -> (r: Option<usize>)
    ensures
        r matches Some(i) ==> is_first_record(records@, mod_id, i as int),
        r is None ==> !has_record(records@, mod_id),
{
    let mut i: usize = 0;
    while i < records.len()
        invariant
            i <= records.len(),
            forall|j: int| 0 <= j < i ==> records@[j].mod_id != mod_id,
        decreases records.len() - i,
    {
        if records[i].mod_id == mod_id {
            return Some(i);
        }
        i = i + 1;
    }
    None
}

/// `sort_unstable_by_key(|r| r.mod_id)`: the same records, ordered by mod id.
fn sort_records_by_mod_id(records: Vec<FailedSyncModRecord>) -> (r: Vec<FailedSyncModRecord>)
    ensures
        sorted_by_mod_id(r@),
        r@.to_multiset() == records@.to_multiset(),
{
    broadcast use vstd::seq_lib::group_to_multiset_ensures;
    let ghost orig = records@;
    let mut src = records;
    let mut out: Vec<FailedSyncModRecord> = Vec::new();
    while src.len() > 0
        invariant
            sorted_by_mod_id(out@),
            out@.to_multiset().add(src@.to_multiset()) == orig.to_multiset(),
        decreases src.len(),
    {
        let ghost s0 = src@;
        let x = src.remove(0);
        assert(s0.remove(0) == src@);
        let key = x.mod_id;
        let mut k: usize = 0;
        while k < out.len() && out[k].mod_id <= key
            invariant
                k <= out.len(),
                forall|j: int| 0 <= j < k ==> out@[j].mod_id <= key,
            decreases out.len() - k,
        {
            k = k + 1;
        }
        let ghost before = out@;
        out.insert(k, x);
        assert(out@ == before.insert(k as int, x));
        proof {
            before.insert_ensures(k as int, x);
            vstd::seq_lib::to_multiset_insert(before, k as int, x);
            vstd::seq_lib::to_multiset_remove(s0, 0);
            assert forall|a: int, b: int| 0 <= a < b < out@.len() implies out@[a].mod_id
                <= out@[b].mod_id by {
                if b < k {
                } else if b == k {
                } else if a < k {
                    assert(out@[b] == before[b - 1]);
                    if k < before.len() {
                        assert(before[k as int].mod_id > key);
                        assert(before[k as int].mod_id <= before[b - 1].mod_id);
                    }
                } else if a == k {
                    assert(out@[b] == before[b - 1]);
                    assert(before[k as int].mod_id > key);
                    assert(before[k as int].mod_id <= before[b - 1].mod_id);
                } else {
                    assert(out@[a] == before[a - 1]);
                    assert(out@[b] == before[b - 1]);
                }
            }
            assert(out@.to_multiset() == before.to_multiset().insert(x));
            assert(s0.to_multiset().remove(x) == src@.to_multiset());
            assert(s0[0] == x);
            assert(s0.contains(x));
            vstd::seq_lib::to_multiset_contains(s0, x);
            assert(s0.to_multiset().count(x) > 0);
            assert(out@.to_multiset().add(src@.to_multiset()) =~= before.to_multiset().add(
                s0.to_multiset(),
            ));
        }
    }
    assert(src@.to_multiset() =~= Multiset::empty());
    assert(out@.to_multiset().add(src@.to_multiset()) =~= out@.to_multiset());
    out
}


/// Class and detail a repeated failure of `existing`'s mod is recorded with:
/// two dependency failures merge their details, anything else replaces them.
pub open spec fn updated_failure_spec(
    existing: FailedSyncModRecord,
    category: Seq<char>,
    message: Seq<char>,
) -> (Seq<char>, Option<Seq<char>>) {
    let refined = refine_spec(category, message);
    if existing.error_type@ == "dependency"@ && refined.0 == "dependency"@ {
        (refined.0, merged_detail_spec(opt_view(existing.error_detail), message, refined.1))
    } else {
        refined
    }
}

/// The stored failures after a sync of `mod_id` failed in step `category` with
/// `message`: the mod's first record is updated in place, or a new record is
/// added and the list re-sorted by mod id.
pub fn record_failure(
    records: Vec<FailedSyncModRecord>,
    mod_id: u64,
    category: &str,
    message: &str,
) -> (r: Vec<FailedSyncModRecord>)
    ensures
        has_record(r@, mod_id),
        has_record(records@, mod_id) ==> {
            let i = choose|i: int| is_first_record(records@, mod_id, i);
            &&& is_first_record(records@, mod_id, i)
            &&& r@.len() == records@.len()
            &&& forall|j: int| 0 <= j < r@.len() && j != i ==> r@[j] == records@[j]
            &&& r@[i].mod_id == mod_id
            &&& r@[i].error_type@ == updated_failure_spec(records@[i], category@, message@).0
            &&& opt_view(r@[i].error_detail) == updated_failure_spec(
                records@[i],
                category@,
                message@,
            ).1
        },
        !has_record(records@, mod_id) ==> {
            &&& sorted_by_mod_id(r@)
            &&& exists|n: FailedSyncModRecord|
                {
                    &&& n.mod_id == mod_id
                    &&& n.error_type@ == refine_spec(category@, message@).0
                    &&& opt_view(n.error_detail) == refine_spec(category@, message@).1
                    &&& r@.to_multiset() == records@.push(n).to_multiset()
                }
        },
{
    let ghost input = records@;
    let mut records = records;
    match find_record(&records, mod_id) {
        Some(i) => {
            let is_dep = chars_eq(&chars_of(records[i].error_type.as_str()), &chars_of("dependency"));
            let (error_type, error_detail) = refine_sync_failure(category, message);
            let refined_dep = chars_eq(&chars_of(error_type.as_str()), &chars_of("dependency"));
            let (t, d) = if is_dep && refined_dep {
                let existing: Option<&str> = match &records[i].error_detail {
                    Some(e) => Some(e.as_str()),
                    None => None,
                };
                let ghost ex = opt_view(records@[i as int].error_detail);
                assert((match existing {
                    Some(e) => Some(e@),
                    None => None,
                }) == ex);
                merge_dependency_failure_details(existing, category, message)
            } else {
                (error_type, error_detail)
            };
            let ghost old_records = records@;
            let rec = FailedSyncModRecord { mod_id, error_type: t, error_detail: d };
            records.set(i, rec);
            proof {
                lemma_choose_first_record(old_records, mod_id, i as int);
                assert(records@[i as int].mod_id == mod_id);
            }
            records
        },
        None => {
            let (error_type, error_detail) = refine_sync_failure(category, message);
            let n = FailedSyncModRecord { mod_id, error_type, error_detail };
            let ghost nn = n;
            let ghost pushed = records@.push(n);
            records.push(n);
            let r = sort_records_by_mod_id(records);
            proof {
                broadcast use vstd::seq_lib::group_to_multiset_ensures;
                assert(pushed[pushed.len() - 1] == nn);
                assert(pushed.contains(nn));
                vstd::seq_lib::to_multiset_contains(pushed, nn);
                vstd::seq_lib::to_multiset_contains(r@, nn);
                assert(r@.contains(nn));
                let w = choose|w: int| 0 <= w < r@.len() && r@[w] == nn;
                assert(r@[w].mod_id == mod_id);
                assert({
                    &&& nn.mod_id == mod_id
                    &&& nn.error_type@ == refine_spec(category@, message@).0
                    &&& opt_view(nn.error_detail) == refine_spec(category@, message@).1
                    &&& r@.to_multiset() == input.push(nn).to_multiset()
                });
            }
            r
        },
    }
}

proof fn lemma_choose_first_record(records: Seq<FailedSyncModRecord>, mod_id: u64, i: int)
    requires
        is_first_record(records, mod_id, i),
    ensures
        has_record(records, mod_id),
        (choose|k: int| is_first_record(records, mod_id, k)) == i,
{
    assert(records[i].mod_id == mod_id);
    let k = choose|k: int| is_first_record(records, mod_id, k);
    assert(is_first_record(records, mod_id, k));
    if k < i {
        assert(records[k].mod_id != mod_id);
    } else if i < k {
        assert(records[i].mod_id != mod_id);
    }
}

/// The stored failures without those of `mod_id`, in their order, and whether
/// any was removed.
pub fn clear_failure(records: Vec<FailedSyncModRecord>, mod_id: u64) -> (r: (
    Vec<FailedSyncModRecord>,
    bool,
))
    ensures
        r.0@ == records@.filter(|x: FailedSyncModRecord| x.mod_id != mod_id),
        r.1 == has_record(records@, mod_id),
        !has_record(r.0@, mod_id),
{
    let ghost orig = records@;
    let ghost pred = |x: FailedSyncModRecord| x.mod_id != mod_id;
    let total = records.len();
    let mut src = records;
    let mut out: Vec<FailedSyncModRecord> = Vec::new();
    let mut removed = false;
    let mut k: usize = 0;
    assert(orig.take(0) =~= Seq::<FailedSyncModRecord>::empty());
    proof {
        reveal(Seq::filter);
    }
    while src.len() > 0
        invariant
            k + src@.len() == orig.len(),
            orig.len() == total,
            src@ == orig.skip(k as int),
            out@ == orig.take(k as int).filter(pred),
            removed == has_record(orig.take(k as int), mod_id),
            pred == (|x: FailedSyncModRecord| x.mod_id != mod_id),
        decreases src.len(),
    {
        let x = src.remove(0);
        proof {
            assert(orig.take(k + 1) =~= orig.take(k as int).push(orig[k as int]));
            orig.take(k as int).lemma_filter_push(orig[k as int], pred);
            assert(x == orig[k as int]);
        }
        if x.mod_id != mod_id {
            out.push(x);
        } else {
            removed = true;
            assert(orig.take(k + 1)[k as int].mod_id == mod_id);
        }
        proof {
            if has_record(orig.take(k + 1), mod_id) && !removed {
                let w = choose|w: int| 0 <= w < orig.take(k + 1).len() && #[trigger] orig.take(k + 1)[w].mod_id == mod_id;
                assert(orig.take(k as int)[w].mod_id == mod_id);
            }
            if has_record(orig.take(k as int), mod_id) {
                let w = choose|w: int| 0 <= w < orig.take(k as int).len() && #[trigger] orig.take(k as int)[w].mod_id == mod_id;
                assert(orig.take(k + 1)[w].mod_id == mod_id);
            }
        }
        k = k + 1;
        assert(src@ =~= orig.skip(k as int));
    }
    assert(orig.take(k as int) =~= orig);
    proof {
        if has_record(out@, mod_id) {
            let w = choose|w: int| 0 <= w < out@.len() && #[trigger] out@[w].mod_id == mod_id;
            orig.lemma_filter_pred(pred, w);
        }
    }
    (out, removed)
}

/// The mod ids of the stored failures, in order.
pub fn failed_mod_ids(records: &Vec<FailedSyncModRecord>) -> (r: Vec<u64>)
    ensures
        r@ == records@.map_values(|x: FailedSyncModRecord| x.mod_id),
{
    let mut r: Vec<u64> = Vec::new();
    let mut i: usize = 0;
    while i < records.len()
        invariant
            i <= records.len(),
            r@ == records@.take(i as int).map_values(|x: FailedSyncModRecord| x.mod_id),
        decreases records.len() - i,
    {
        r.push(records[i].mod_id);
        i = i + 1;
        assert(r@ =~= records@.take(i as int).map_values(|x: FailedSyncModRecord| x.mod_id));
    }
    assert(records@.take(i as int) =~= records@);
    r
}

pub open spec fn is_dependency_record(x: FailedSyncModRecord) -> bool {
    x.error_type@ == "dependency"@
}

/// How many stored failures are dependency failures.
pub fn count_dependency_failures(records: &Vec<FailedSyncModRecord>) -> (r: u32)
    ensures
        r == records@.filter(|x: FailedSyncModRecord| is_dependency_record(x)).len() as u32,
{
    let ghost pred = |x: FailedSyncModRecord| is_dependency_record(x);
    let dep = chars_of("dependency");
    let mut n: usize = 0;
    let mut i: usize = 0;
    proof {
        reveal(Seq::filter);
    }
    assert(records@.take(0) =~= Seq::<FailedSyncModRecord>::empty());
    while i < records.len()
        invariant
            i <= records.len(),
            dep@ == "dependency"@,
            n == records@.take(i as int).filter(pred).len(),
            n <= i,
            pred == (|x: FailedSyncModRecord| is_dependency_record(x)),
        decreases records.len() - i,
    {
        proof {
            assert(records@.take(i + 1) =~= records@.take(i as int).push(records@[i as int]));
            records@.take(i as int).lemma_filter_push(records@[i as int], pred);
        }
        if chars_eq(&chars_of(records[i].error_type.as_str()), &dep) {
            n = n + 1;
        }
        i = i + 1;
    }
    assert(records@.take(i as int) =~= records@);
    n as u32
}

/// Whether `mod_id` failed because of a dependency.
pub fn is_dependency_failure(records: &Vec<FailedSyncModRecord>, mod_id: u64) -> (r: bool)
    ensures
        r == exists|i: int|
            0 <= i < records@.len() && #[trigger] records@[i].mod_id == mod_id
                && is_dependency_record(records@[i]),
{
    let dep = chars_of("dependency");
    let mut i: usize = 0;
    while i < records.len()
        invariant
            i <= records.len(),
            dep@ == "dependency"@,
            forall|j: int|
                0 <= j < i ==> !(#[trigger] records@[j].mod_id == mod_id && is_dependency_record(
                    records@[j],
                )),
        decreases records.len() - i,
    {
        if records[i].mod_id == mod_id && chars_eq(&chars_of(records[i].error_type.as_str()), &dep) {
            return true;
        }
        i = i + 1;
    }
    false
}

/// Records read from the older format, which kept only the ids.
pub fn records_from_legacy_ids(ids: &Vec<u64>) -> (r: Vec<FailedSyncModRecord>)
    ensures
        r@.len() == ids@.len(),
        forall|i: int|
            0 <= i < ids@.len() ==> #[trigger] r@[i].mod_id == ids@[i] && r@[i].error_type@
                == "unknown"@ && r@[i].error_detail is None,
{
    let mut r: Vec<FailedSyncModRecord> = Vec::new();
    let mut i: usize = 0;
    while i < ids.len()
        invariant
            i <= ids.len(),
            r@.len() == i,
            forall|j: int|
                0 <= j < i ==> #[trigger] r@[j].mod_id == ids@[j] && r@[j].error_type@
                    == "unknown"@ && r@[j].error_detail is None,
        decreases ids.len() - i,
    {
        r.push(FailedSyncModRecord { mod_id: ids[i], error_type: own("unknown"), error_detail: None });
        i = i + 1;
    }
    r
}

// ---------------------------------------------------------------------------
// Ignored mods
// ---------------------------------------------------------------------------

fn position_of(ids: &Vec<u64>, x: u64) -> (r: Option<usize>)
    ensures
        r matches Some(i) ==> i < ids@.len() && ids@[i as int] == x && forall|j: int|
            0 <= j < i ==> ids@[j] != x,
        r is None ==> !ids@.contains(x),
{
    let mut i: usize = 0;
    while i < ids.len()
        invariant
            i <= ids.len(),
            forall|j: int| 0 <= j < i ==> ids@[j] != x,
        decreases ids.len() - i,
    {
        if ids[i] == x {
            return Some(i);
        }
        i = i + 1;
    }
    None
}

/// The ignore list after the user (un)ignores `mod_id`: `Ok(None)` when there
/// is nothing to write, `Ok(Some(list))` with the list to store. Only mods
/// whose sync failed can be ignored; ignoring adds the id and keeps the list
/// sorted without duplicates, un-ignoring removes its first occurrence.
pub fn ignored_after(
    ignored_ids: &Vec<u64>,
    failed_ids: &Vec<u64>,
    mod_id: u64,
    ignored: bool,
) -> (r: Result<Option<Vec<u64>>, String>)
    ensures
        ignored && !failed_ids@.contains(mod_id) ==> (r matches Err(m) && m@ == "Mod "@ + dec_seq(
            mod_id as nat,
        ) + " is not in the sync failures list."@),
        ignored && failed_ids@.contains(mod_id) && ignored_ids@.contains(mod_id) ==> r matches Ok(
            None,
        ),
        ignored && failed_ids@.contains(mod_id) && !ignored_ids@.contains(mod_id) ==> (r matches Ok(
            Some(v),
        ) && strictly_increasing(v@) && forall|x: u64|
            v@.contains(x) <==> (ignored_ids@.contains(x) || x == mod_id)),
        !ignored && !ignored_ids@.contains(mod_id) ==> r matches Ok(None),
        !ignored && ignored_ids@.contains(mod_id) ==> (r matches Ok(Some(v)) && exists|i: int|
            0 <= i < ignored_ids@.len() && ignored_ids@[i] == mod_id && (forall|j: int|
                0 <= j < i ==> ignored_ids@[j] != mod_id) && v@ == ignored_ids@.remove(i)),
{
    let position = position_of(ignored_ids, mod_id);
    if ignored {
        if position_of(failed_ids, mod_id).is_none() {
            let mut m = chars_of("Mod ");
            append_all(&mut m, &u64_to_dec(mod_id));
            append_all(&mut m, &chars_of(" is not in the sync failures list."));
            return Err(string_of(&m));
        }
        if position.is_some() {
            return Ok(None);
        }
        let mut v: Vec<u64> = Vec::new();
        let mut i: usize = 0;
        while i < ignored_ids.len()
            invariant
                i <= ignored_ids.len(),
                v@ == ignored_ids@.take(i as int),
            decreases ignored_ids.len() - i,
        {
            v.push(ignored_ids[i]);
            i = i + 1;
            assert(v@ =~= ignored_ids@.take(i as int));
        }
        assert(ignored_ids@.take(i as int) =~= ignored_ids@);
        let ghost before = v@;
        v.push(mod_id);
        assert forall|x: u64| v@.contains(x) <==> (before.contains(x) || x == mod_id) by {
            if v@.contains(x) && x != mod_id {
                let w = choose|w: int| 0 <= w < v@.len() && #[trigger] v@[w] == x;
                assert(before[w] == x);
            }
            if before.contains(x) {
                let w = choose|w: int| 0 <= w < before.len() && #[trigger] before[w] == x;
                assert(v@[w] == x);
            }
            if x == mod_id {
                assert(v@[before.len() as int] == x);
            }
        }
        sort_dedup(&mut v);
        return Ok(Some(v));
    }
    match position {
        None => Ok(None),
        Some(i) => {
            let mut v: Vec<u64> = Vec::new();
            let mut k: usize = 0;
            while k < ignored_ids.len()
                invariant
                    k <= ignored_ids.len(),
                    i < ignored_ids.len(),
                    v@ == (if k <= i {
                        ignored_ids@.take(k as int)
                    } else {
                        ignored_ids@.remove(i as int).take(k - 1)
                    }),
                decreases ignored_ids.len() - k,
            {
                if k != i {
                    v.push(ignored_ids[k]);
                }
                k = k + 1;
                assert(v@ =~= (if k <= i {
                    ignored_ids@.take(k as int)
                } else {
                    ignored_ids@.remove(i as int).take(k - 1)
                }));
            }
            assert(ignored_ids@.remove(i as int).take(k - 1) =~= ignored_ids@.remove(i as int));
            Ok(Some(v))
        },
    }
}

/// The failures listed for the user: every stored failure in order, marked
/// ignored when its mod is on the ignore list; ignore entries without a
/// failure are not listed.
pub fn build_failed_sync_mod_list(records: &Vec<FailedSyncModRecord>, ignored: &Vec<u64>) -> (r:
    FailedSyncModList)
    ensures
        r.mods@.len() == records@.len(),
        forall|i: int|
            0 <= i < records@.len() ==> {
                &&& (#[trigger] r.mods@[i]).mod_id == records@[i].mod_id
                &&& r.mods@[i].mod_name is None
                &&& r.mods@[i].ignored == ignored@.contains(records@[i].mod_id)
                &&& r.mods@[i].error_type@ == records@[i].error_type@
                &&& opt_view(r.mods@[i].error_detail) == opt_view(records@[i].error_detail)
            },
{
    let mut mods: Vec<FailedSyncModEntry> = Vec::new();
    let mut i: usize = 0;
    while i < records.len()
        invariant
            i <= records.len(),
            mods@.len() == i,
            forall|j: int|
                0 <= j < i ==> {
                    &&& (#[trigger] mods@[j]).mod_id == records@[j].mod_id
                    &&& mods@[j].mod_name is None
                    &&& mods@[j].ignored == ignored@.contains(records@[j].mod_id)
                    &&& mods@[j].error_type@ == records@[j].error_type@
                    &&& opt_view(mods@[j].error_detail) == opt_view(records@[j].error_detail)
                },
        decreases records.len() - i,
    {
        let rec = &records[i];
        let is_ignored = position_of(ignored, rec.mod_id).is_some();
        let detail = match &rec.error_detail {
            Some(d) => Some(own(d.as_str())),
            None => None,
        };
        mods.push(
            FailedSyncModEntry {
                mod_id: rec.mod_id,
                mod_name: None,
                ignored: is_ignored,
                error_type: own(rec.error_type.as_str()),
                error_detail: detail,
            },
        );
        i = i + 1;
    }
    FailedSyncModList { mods }
}

} // verus!
