//! mod.io session logic: configuration, user-facing error messages, browse
//! queries and the shapes the UI receives.
use vstd::prelude::*;

use crate::modio_api::{
    avatar_thumb_spec, rate_limited_spec, strings_view, ApiError, GameTagOptionObject,
    ListResponse, MediaImage, ModObject, ModQuery, TagObject, UserObject,
};
use crate::number::{dec_seq, parse_u64, parse_u64_spec, u64_to_dec};
use crate::text::{
    append_all, chars_eq, chars_of, contains, contains_seq, lower, lower_seq, opt_view, own,
    starts_with, string_of, subvec, trim, trim_seq, starts_with_seq,
};

verus! {

// ---------------------------------------------------------------------------
// Configuration
// ---------------------------------------------------------------------------

/// Where the API lives: the game id, an explicit host, or the test server.
pub struct ModioConfig {
    pub game_id: Option<u64>,
    pub api_host: Option<String>,
    pub use_test_env: bool,
}

/// `str::trim_start_matches("https://")`.
pub open spec fn strip_https(s: Seq<char>) -> Seq<char>
    decreases s.len(),
{
    if s.len() >= 8 && starts_with_seq(s, "https://"@) {
        strip_https(s.skip(8))
    } else {
        s
    }
}

pub open spec fn truthy_flag(s: Seq<char>) -> bool {
    s == "1"@ || s == "true"@ || s == "yes"@
}

fn strip_https_prefixes(v: &Vec<char>) -> (r: Vec<char>)
    ensures
        r@ == strip_https(v@),
{
    let p = chars_of("https://");
    proof {
        reveal_strlit("https://");
    }
    let mut i: usize = 0;
    assert(v@.skip(0) =~= v@);
    loop
        invariant
            i <= v.len(),
            p@ == "https://"@,
            p@.len() == 8,
            strip_https(v@) == strip_https(v@.skip(i as int)),
        decreases v.len() - i,
    {
        let rest = subvec(v, i, v.len());
        assert(rest@ =~= v@.skip(i as int));
        if rest.len() >= 8 && starts_with(&rest, &p) {
            assert(rest@.skip(8) =~= v@.skip(i + 8));
            i = i + 8;
        } else {
            return rest;
        }
    }
}

impl ModioConfig {
    /// Reads `MODIO_GAME_ID`, `MODIO_API_HOST` and `MODIO_USE_TEST_ENV` as given
    /// by the environment: the id is parsed after trimming, the host loses
    /// leading `https://` and counts only when not blank, and the test flag is
    /// on for `1`, `true` or `yes`.
    pub fn from_env_values(
        game_id: Option<String>,
        api_host: Option<String>,
        use_test_env: Option<String>,
    ) -> (r: ModioConfig)
        ensures
            r.game_id == (match opt_view(game_id) {
                Some(v) => parse_u64_spec(trim_seq(v)),
                None => None,
            }),
            opt_view(r.api_host) == (match opt_view(api_host) {
                Some(v) => if strip_https(trim_seq(v)).len() > 0 {
                    Some(strip_https(trim_seq(v)))
                } else {
                    None
                },
                None => None,
            }),
            r.use_test_env == (match opt_view(use_test_env) {
                Some(v) => truthy_flag(trim_seq(v)),
                None => false,
            }),
    {
        let game_id = match game_id {
            Some(v) => parse_u64(&trim(&chars_of(v.as_str()))),
            None => None,
        };
        let api_host = match api_host {
            Some(v) => {
                let h = strip_https_prefixes(&trim(&chars_of(v.as_str())));
                if h.len() > 0 {
                    Some(string_of(&h))
                } else {
                    None
                }
            },
            None => None,
        };
        let use_test_env = match use_test_env {
            Some(v) => {
                let t = trim(&chars_of(v.as_str()));
                chars_eq(&t, &chars_of("1")) || chars_eq(&t, &chars_of("true")) || chars_eq(
                    &t,
                    &chars_of("yes"),
                )
            },
            None => false,
        };
        ModioConfig { game_id, api_host, use_test_env }
    }

    /// Some way to reach the API is configured.
    pub fn has_host(&self) -> (r: bool)
        ensures
            r == (self.game_id is Some || self.api_host is Some || self.use_test_env),
    {
        self.game_id.is_some() || self.api_host.is_some() || self.use_test_env
    }
}

/// What the app reports about its mod.io configuration.
pub struct ModioStatus {
    pub configured: bool,
    pub message: Option<String>,
}

/// How long a dependency cache saved on disk is reused: a day.
pub const CACHE_PERSIST_TTL_SECS: u64 = 86400;

/// A cache saved at `saved_at` (Unix seconds; 0 when never saved) is
/// restored at `now` only when it is at most a day old. A clock behind the
/// save time counts as no time passed.
pub fn persisted_cache_usable(saved_at: u64, now: u64) -> (r: bool)
    ensures
        r == (saved_at != 0 && (if now >= saved_at {
            now - saved_at
        } else {
            0
        }) <= CACHE_PERSIST_TTL_SECS),
{
    saved_at != 0 && now.saturating_sub(saved_at) <= CACHE_PERSIST_TTL_SECS
}

pub const MISSING_API_KEY_MESSAGE: &'static str =
    "Set MODIO_API_KEY in .env (use your game's API key from mod.io).";

pub const MISSING_GAME_ID_MESSAGE: &'static str =
    "Set MODIO_GAME_ID in .env (found on your game's mod.io dashboard).";

/// Configured when there is an API key and a host.
pub fn modio_status_for(has_api_key: bool, config: &ModioConfig) -> (r: ModioStatus)
    ensures
        r.configured == (has_api_key && (config.game_id is Some || config.api_host is Some
            || config.use_test_env)),
        !has_api_key ==> opt_view(r.message) == Some(MISSING_API_KEY_MESSAGE@),
        has_api_key && !r.configured ==> opt_view(r.message) == Some(MISSING_GAME_ID_MESSAGE@),
        r.configured ==> r.message is None,
{
    if !has_api_key {
        return ModioStatus { configured: false, message: Some(own(MISSING_API_KEY_MESSAGE)) };
    }
    if !config.has_host() {
        return ModioStatus { configured: false, message: Some(own(MISSING_GAME_ID_MESSAGE)) };
    }
    ModioStatus { configured: true, message: None }
}

/// The API host: the test server, else an explicit non-empty host, else the
/// per-game host, else the default host.
pub open spec fn api_host_spec(game_id: Option<u64>, api_host: Option<Seq<char>>, test: bool) -> Seq<
    char,
> {
    if test {
        "api.test.mod.io"@
    } else if api_host is Some && api_host->0.len() > 0 {
        api_host->0
    } else if game_id is Some {
        "g-"@ + dec_seq(game_id->0 as nat) + ".modapi.io"@
    } else {
        "api.mod.io"@
    }
}

/// `https://<host>/v1`.
pub fn api_base_url(game_id: Option<u64>, api_host: Option<&str>, use_test_env: bool) -> (r:
    String)
    ensures
        r@ == "https://"@ + api_host_spec(
            game_id,
            match api_host {
                Some(h) => Some(h@),
                None => None,
            },
            use_test_env,
        ) + "/v1"@,
{
    let host: Vec<char> = if use_test_env {
        chars_of("api.test.mod.io")
    } else {
        let explicit = match api_host {
            Some(h) => if h.is_empty() {
                None
            } else {
                Some(chars_of(h))
            },
            None => None,
        };
        match explicit {
            Some(h) => h,
            None => match game_id {
                Some(g) => {
                    let mut v = chars_of("g-");
                    append_all(&mut v, &u64_to_dec(g));
                    append_all(&mut v, &chars_of(".modapi.io"));
                    v
                },
                None => chars_of("api.mod.io"),
            },
        }
    };
    let mut url = chars_of("https://");
    append_all(&mut url, &host);
    append_all(&mut url, &chars_of("/v1"));
    string_of(&url)
}

// ---------------------------------------------------------------------------
// Errors
// ---------------------------------------------------------------------------

pub const RATE_LIMIT_HINT: &'static str =
    " This applies to your mod.io login session (OAuth). Wait about a minute, then try again.";

pub const AUTH_HINT: &'static str =
    ". Email login requires your game's API key and MODIO_GAME_ID — not a personal read-only key from mod.io/me/access.";

/// The message shown for an API error: rate limits get the error code and a
/// hint to wait, auth failures a hint about the key, others the bare message.
pub open spec fn format_api_error_spec(e: ApiError) -> Seq<char> {
    if rate_limited_spec(e.status, e.error_ref) {
        let code = match e.error_ref {
            Some(c) => " (error_ref "@ + dec_seq(c as nat) + ")"@,
            None => Seq::empty(),
        };
        e.message@ + code + RATE_LIMIT_HINT@
    } else if e.status == Some(401u16) || e.status == Some(403u16) {
        e.message@ + AUTH_HINT@
    } else {
        e.message@
    }
}

pub fn format_api_error(error: ApiError) -> (r: String)
    ensures
        r@ == format_api_error_spec(error),
{
    if error.is_rate_limited() {
        let mut v = chars_of(error.message.as_str());
        match error.error_ref {
            Some(code) => {
                append_all(&mut v, &chars_of(" (error_ref "));
                append_all(&mut v, &u64_to_dec(code as u64));
                append_all(&mut v, &chars_of(")"));
            },
            None => {},
        }
        append_all(&mut v, &chars_of(RATE_LIMIT_HINT));
        return string_of(&v);
    }
    if error.is_auth() {
        let mut v = chars_of(error.message.as_str());
        append_all(&mut v, &chars_of(AUTH_HINT));
        return string_of(&v);
    }
    error.message
}

/// mod.io reports the mod as gone (HTTP 404).
pub fn is_mod_unavailable(error: &ApiError) -> (r: bool)
    ensures
        r == (error.status == Some(404u16)),
{
    error.is_not_found()
}

pub open spec fn rate_limited_message_spec(message: Seq<char>) -> bool {
    contains_seq(lower_seq(message), "rate limit"@)
}

/// The message mentions a rate limit, in any ASCII case.
pub fn is_rate_limited_message(message: &str) -> (r: bool)
    ensures
        r == rate_limited_message_spec(message@),
{
    contains(&lower(&chars_of(message)), &chars_of("rate limit"))
}

/// Subscribing succeeds, or mod.io answers that the subscription exists (409).
pub fn subscribe_outcome(result: Result<(), ApiError>) -> (r: Result<(), String>)
    ensures
        match result {
            Ok(()) => r is Ok,
            Err(e) => if e.status == Some(409u16) {
                r is Ok
            } else {
                r matches Err(m) && m@ == format_api_error_spec(e)
            },
        },
{
    match result {
        Ok(()) => Ok(()),
        Err(error) => if error.is_conflict() {
            Ok(())
        } else {
            Err(format_api_error(error))
        },
    }
}

/// Unsubscribing succeeds, or mod.io answers that there was no subscription
/// (404, or `error_ref` 15005).
pub fn unsubscribe_outcome(result: Result<(), ApiError>) -> (r: Result<(), String>)
    ensures
        match result {
            Ok(()) => r is Ok,
            Err(e) => if e.status == Some(404u16) || e.error_ref == Some(15005u32) {
                r is Ok
            } else {
                r matches Err(m) && m@ == format_api_error_spec(e)
            },
        },
{
    match result {
        Ok(()) => Ok(()),
        Err(error) => if error.is_not_found() || error.is_not_subscribed() {
            Ok(())
        } else {
            Err(format_api_error(error))
        },
    }
}

/// A failed operation is tried once more when its message names a rate limit.
pub fn should_retry_after_rate_limit(result: &Result<(), String>) -> (r: bool)
    ensures
        r == (match result {
            Ok(()) => false,
            Err(m) => rate_limited_message_spec(m@),
        }),
{
    match result {
        Ok(()) => false,
        Err(m) => is_rate_limited_message(m.as_str()),
    }
}

/// Paging through subscriptions stops after a short or empty page, or when the
/// offset reaches the total.
pub fn subscription_paging_done(count: u32, page_limit: u32, offset: u32, total: u32) -> (r: bool)
    ensures
        r == (count < page_limit || count == 0 || offset >= total),
{
    count < page_limit || count == 0 || offset >= total
}

// ---------------------------------------------------------------------------
// Browse query
// ---------------------------------------------------------------------------

/// Whether a mod.io session is active, and for whom.
pub struct AuthStatus {
    pub logged_in: bool,
    pub username: Option<String>,
}

pub enum ModTypeFilter {
    All,
    Plugin,
    Blueprint,
}

impl Default for ModTypeFilter {
    fn default() -> (r: ModTypeFilter)
        ensures
            r is All,
    {
        ModTypeFilter::All
    }
}

pub enum ModSort {
    RecentlyAdded,
    LastUpdated,
    Trending,
    MostPopular,
    MostSubscribers,
    HighestRated,
    Alphabetical,
}

impl Default for ModSort {
    fn default() -> (r: ModSort)
        ensures
            r is Trending,
    {
        ModSort::Trending
    }
}

pub enum SortDir {
    Desc,
    Asc,
}

impl Default for SortDir {
    fn default() -> (r: SortDir)
        ensures
            r is Desc,
    {
        SortDir::Desc
    }
}

/// Browse parameters sent by the UI.
pub struct ListModsParams {
    pub search: Option<String>,
    pub mod_type: ModTypeFilter,
    pub category_tags: Vec<String>,
    pub sort: ModSort,
    pub sort_dir: SortDir,
    pub limit: u32,
    pub offset: u32,
}

pub open spec fn mod_type_tag_spec(filter: ModTypeFilter) -> Option<Seq<char>> {
    match filter {
        ModTypeFilter::All => None,
        ModTypeFilter::Plugin => Some("Plugin"@),
        ModTypeFilter::Blueprint => Some("Blueprint"@),
    }
}

pub fn mod_type_tag(filter: &ModTypeFilter) -> (r: Option<&'static str>)
    ensures
        (match r {
            Some(s) => Some(s@),
            None => None,
        }) == mod_type_tag_spec(*filter),
{
    match filter {
        ModTypeFilter::All => None,
        ModTypeFilter::Plugin => Some("Plugin"),
        ModTypeFilter::Blueprint => Some("Blueprint"),
    }
}

/// Twenty mods per page unless asked otherwise.
pub fn default_mod_limit() -> (r: u32)
    ensures
        r == 20,
{
    20
}

pub open spec fn mod_sort_field_spec(sort: ModSort) -> Seq<char> {
    match sort {
        ModSort::RecentlyAdded => "date_live"@,
        ModSort::LastUpdated => "date_updated"@,
        ModSort::Trending => "downloads_today"@,
        ModSort::MostPopular => "downloads_total"@,
        ModSort::MostSubscribers => "subscribers_total"@,
        ModSort::HighestRated => "ratings_weighted_aggregate"@,
        ModSort::Alphabetical => "name"@,
    }
}

/// The mod.io fields the list endpoint sorts by.
pub open spec fn is_modio_sort_field(f: Seq<char>) -> bool {
    f == "date_live"@ || f == "date_updated"@ || f == "downloads_today"@ || f == "downloads_total"@
        || f == "subscribers_total"@ || f == "ratings_weighted_aggregate"@ || f == "name"@
}

/// Each sort order sorts by a mod.io field of its own: no two orders list
/// mods the same way. In particular most popular (all-time downloads) and
/// trending (today's downloads) are different orders.
pub proof fn lemma_sort_fields_distinct(a: ModSort, b: ModSort)
    ensures
        is_modio_sort_field(mod_sort_field_spec(a)),
        mod_sort_field_spec(a) == mod_sort_field_spec(b) ==> a == b,
        mod_sort_field_spec(ModSort::MostPopular) != mod_sort_field_spec(ModSort::Trending),
{
    reveal_strlit("date_live");
    reveal_strlit("date_updated");
    reveal_strlit("downloads_today");
    reveal_strlit("downloads_total");
    reveal_strlit("subscribers_total");
    reveal_strlit("ratings_weighted_aggregate");
    reveal_strlit("name");
    assert("date_live"@.len() == 9);
    assert("date_updated"@.len() == 12);
    assert("downloads_today"@.len() == 15);
    assert("downloads_total"@.len() == 15);
    assert("subscribers_total"@.len() == 17);
    assert("ratings_weighted_aggregate"@.len() == 26);
    assert("name"@.len() == 4);
    assert("downloads_today"@[12] != "downloads_total"@[12]);
    assert("downloads_today"@ != "downloads_total"@);
    if mod_sort_field_spec(a) == mod_sort_field_spec(b) {
        let fa = mod_sort_field_spec(a);
        let fb = mod_sort_field_spec(b);
        assert(fa.len() == fb.len());
        if fa.len() == 15 {
            assert(fa[12] == fb[12]);
        }
    }
}

/// The field behind each order, as mod.io names it: newest by going live,
/// last updated, trending by today's downloads, most popular by all-time
/// downloads, most subscribed, highest rated, and by name.
pub proof fn lemma_sort_field_meanings()
    ensures
        mod_sort_field_spec(ModSort::RecentlyAdded) == "date_live"@,
        mod_sort_field_spec(ModSort::LastUpdated) == "date_updated"@,
        mod_sort_field_spec(ModSort::Trending) == "downloads_today"@,
        mod_sort_field_spec(ModSort::MostPopular) == "downloads_total"@,
        mod_sort_field_spec(ModSort::MostSubscribers) == "subscribers_total"@,
        mod_sort_field_spec(ModSort::HighestRated) == "ratings_weighted_aggregate"@,
        mod_sort_field_spec(ModSort::Alphabetical) == "name"@,
{
}

/// The mod.io field a sort order sorts by.
pub fn mod_sort_field(sort: &ModSort) -> (r: &'static str)
    ensures
        r@ == mod_sort_field_spec(*sort),
{
    match sort {
        ModSort::RecentlyAdded => "date_live",
        ModSort::LastUpdated => "date_updated",
        ModSort::Trending => "downloads_today",
        ModSort::MostPopular => "downloads_total",
        ModSort::MostSubscribers => "subscribers_total",
        ModSort::HighestRated => "ratings_weighted_aggregate",
        ModSort::Alphabetical => "name",
    }
}

pub open spec fn clamp_limit(limit: u32) -> u32 {
    if limit < 1 {
        1
    } else if limit > 100 {
        100
    } else {
        limit
    }
}

/// The mod.io query for a browse request: limit clamped to 1..=100, the sort
/// field and direction, the trimmed search unless blank, the type tag as an
/// AND filter, and the category tags as one AND filter when there is one of
/// them, else as an OR filter.
pub fn build_mod_query(params: &ListModsParams) -> (q: ModQuery)
    ensures
        q.limit == clamp_limit(params.limit),
        q.offset == params.offset,
        (match q.sort_field {
            Some(f) => Some(f@),
            None => None,
        }) == Some(mod_sort_field_spec(params.sort)),
        q.sort_desc == (params.sort_dir is Desc),
        opt_view(q.search) == (match opt_view(params.search) {
            Some(s) => if trim_seq(s).len() > 0 {
                Some(trim_seq(s))
            } else {
                None
            },
            None => None,
        }),
        strings_view(q.tags@) == (match mod_type_tag_spec(params.mod_type) {
            Some(t) => seq![t],
            None => Seq::empty(),
        }) + (if params.category_tags@.len() == 1 {
            strings_view(params.category_tags@)
        } else {
            Seq::empty()
        }),
        strings_view(q.tags_in@) == (if params.category_tags@.len() > 1 {
            strings_view(params.category_tags@)
        } else {
            Seq::empty()
        }),
{
    let limit = if params.limit < 1 {
        1
    } else if params.limit > 100 {
        100
    } else {
        params.limit
    };
    let search = match &params.search {
        Some(s) => {
            let t = trim(&chars_of(s.as_str()));
            if t.len() > 0 {
                Some(string_of(&t))
            } else {
                None
            }
        },
        None => None,
    };
    let mut tags: Vec<String> = Vec::new();
    match mod_type_tag(&params.mod_type) {
        Some(t) => tags.push(own(t)),
        None => {},
    }
    let mut tags_in: Vec<String> = Vec::new();
    if params.category_tags.len() == 1 {
        tags.push(own(params.category_tags[0].as_str()));
    } else if params.category_tags.len() > 1 {
        let mut i: usize = 0;
        while i < params.category_tags.len()
            invariant
                i <= params.category_tags.len(),
                tags_in.len() == i,
                forall|j: int| 0 <= j < i ==> tags_in@[j]@ == params.category_tags@[j]@,
            decreases params.category_tags.len() - i,
        {
            tags_in.push(own(params.category_tags[i].as_str()));
            i = i + 1;
        }
        assert(strings_view(tags_in@) =~= strings_view(params.category_tags@));
    }
    let r = ModQuery {
        search,
        tags,
        tags_in,
        sort_field: Some(mod_sort_field(&params.sort)),
        sort_desc: match params.sort_dir {
            SortDir::Desc => true,
            SortDir::Asc => false,
        },
        limit,
        offset: params.offset,
    };
    assert(strings_view(r.tags@) =~= (match mod_type_tag_spec(params.mod_type) {
        Some(t) => seq![t],
        None => Seq::empty(),
    }) + (if params.category_tags@.len() == 1 {
        strings_view(params.category_tags@)
    } else {
        Seq::empty()
    }));
    r
}


// ---------------------------------------------------------------------------
// Session checks
// ---------------------------------------------------------------------------

/// The game id, or the error shown when `MODIO_GAME_ID` is missing.
pub fn require_game_id(config: &ModioConfig) -> (r: Result<u64, String>)
    ensures
        match config.game_id {
            Some(g) => r == Ok::<u64, String>(g),
            None => r matches Err(m) && m@ == "MODIO_GAME_ID is not set in .env"@,
        },
{
    match config.game_id {
        Some(g) => Ok(g),
        None => Err(own("MODIO_GAME_ID is not set in .env")),
    }
}

/// The API key, or the error shown when `MODIO_API_KEY` is missing.
pub fn require_api_key(api_key: &Option<String>) -> (r: Result<String, String>)
    ensures
        match opt_view(*api_key) {
            Some(k) => r matches Ok(v) && v@ == k,
            None => r matches Err(m) && m@ == "MODIO_API_KEY is not set in .env"@,
        },
{
    match api_key {
        Some(k) => Ok(own(k.as_str())),
        None => Err(own("MODIO_API_KEY is not set in .env")),
    }
}

/// The session token, or `Not logged in`.
pub fn require_token(token: Option<String>) -> (r: Result<String, String>)
    ensures
        match token {
            Some(t) => r == Ok::<String, String>(t),
            None => r matches Err(m) && m@ == "Not logged in"@,
        },
{
    match token {
        Some(t) => Ok(t),
        None => Err(own("Not logged in")),
    }
}

/// An API client may be built once the status says mod.io is configured;
/// otherwise the status message (or a generic one) is the error.
pub fn require_configured(status: ModioStatus) -> (r: Result<(), String>)
    ensures
        status.configured ==> r is Ok,
        !status.configured ==> (r matches Err(m) && m@ == (match opt_view(status.message) {
            Some(msg) => msg,
            None => "mod.io is not configured"@,
        })),
{
    if status.configured {
        return Ok(());
    }
    match status.message {
        Some(m) => Err(m),
        None => Err(own("mod.io is not configured")),
    }
}

/// The status reported for the current session.
pub fn auth_status_for(token: &Option<String>, username: &Option<String>) -> (r: AuthStatus)
    ensures
        r.logged_in == (*token is Some),
        opt_view(r.username) == opt_view(*username),
{
    AuthStatus {
        logged_in: token.is_some(),
        username: match username {
            Some(u) => Some(own(u.as_str())),
            None => None,
        },
    }
}

/// The next page of subscriptions starts after this one; the offset saturates.
pub fn next_subscription_offset(offset: u32, count: u32) -> (r: u32)
    ensures
        r == (if offset + count > u32::MAX {
            u32::MAX as int
        } else {
            offset + count
        }),
{
    offset.saturating_add(count)
}

// ---------------------------------------------------------------------------
// Shapes sent to the UI
// ---------------------------------------------------------------------------

/// A mod as listed in the browser.
pub struct ModSummary {
    pub id: u64,
    pub name: String,
    pub summary: String,
    pub profile_url: String,
    pub logo_url: String,
    pub downloads_total: u32,
    pub subscribers_total: u32,
    pub popularity_rank: Option<u32>,
    pub tags: Vec<String>,
    pub date_updated: String,
}

/// A mod's detail page.
pub struct ModDetail {
    pub id: u64,
    pub name: String,
    pub summary: String,
    pub profile_url: String,
    pub logo_url: String,
    pub hero_image_url: String,
    pub downloads_total: u32,
    pub downloads_today: u32,
    pub subscribers_total: u32,
    pub popularity_rank: Option<u32>,
    pub tags: Vec<String>,
    pub date_added: String,
    pub date_updated: String,
    pub date_live: String,
    pub description_html: Option<String>,
    pub submitted_by_username: String,
    pub submitted_by_profile_url: String,
    pub submitted_by_avatar_url: Option<String>,
    pub ratings_display_text: String,
    pub ratings_percentage_positive: u32,
    pub ratings_positive: u32,
    pub ratings_negative: u32,
    pub media_image_urls: Vec<String>,
    pub has_dependencies: bool,
    pub homepage_url: Option<String>,
    pub file_id: Option<u64>,
}

/// A dependency of a mod, as listed on its page.
pub struct ModDependency {
    pub id: u64,
    pub name: String,
    pub profile_url: String,
    pub logo_url: String,
    pub submitted_by_username: String,
    pub date_updated: String,
    pub downloads_total: u32,
    pub file_size_bytes: Option<u64>,
}

pub struct ModDependencyListResult {
    pub mods: Vec<ModDependency>,
    pub total: u32,
}

pub struct ModListResult {
    pub mods: Vec<ModSummary>,
    pub total: u32,
}

pub struct UserProfile {
    pub username: String,
    pub profile_url: String,
    pub avatar_url: Option<String>,
}

/// The tag values offered for each mod type.
pub struct ModTagOptions {
    pub plugin_types: Vec<String>,
    pub blueprint_types: Vec<String>,
}

/// RFC 3339 text of a UTC Unix timestamp, as the `time` crate writes it.
pub uninterp spec fn rfc3339_utc(secs: i64) -> Seq<char>;

/// Earliest timestamp in year 0, the first year RFC 3339 can write.
pub const RFC3339_MIN_SECS: i64 = -62167219200;

/// Last second of year 9999, the last year the `time` crate represents.
pub const RFC3339_MAX_SECS: i64 = 253402300799;

/// `time::OffsetDateTime::from_unix_timestamp` followed by formatting as
/// `time::format_description::well_known::Rfc3339`. The crate rejects
/// timestamps outside years 0..=9999 (the first call fails after year 9999, the
/// format before year 0); otherwise the text is named, not stated.
#[verifier::external_body]
fn format_unix_rfc3339(secs: i64) -> (r: Option<String>)
    ensures
        (RFC3339_MIN_SECS <= secs <= RFC3339_MAX_SECS) ==> opt_view(r) == Some(rfc3339_utc(secs)),
        !(RFC3339_MIN_SECS <= secs <= RFC3339_MAX_SECS) ==> r is None,
{
    time::OffsetDateTime::from_unix_timestamp(secs).ok().and_then(
        |dt| dt.format(&time::format_description::well_known::Rfc3339).ok(),
    )
}

/// RFC 3339 text of a UTC instant given in nanoseconds since the Unix epoch,
/// as the `time` crate writes it.
pub uninterp spec fn rfc3339_utc_nanos(nanos: i128) -> Seq<char>;

/// The first and last nanosecond of years 0..=9999.
pub const RFC3339_MIN_NANOS: i128 = -62167219200000000000;

pub const RFC3339_MAX_NANOS: i128 = 253402300799999999999;

/// `time::OffsetDateTime::from_unix_timestamp_nanos` followed by formatting as
/// `Rfc3339`. The first call fails when the whole seconds (rounded down) fall
/// outside the crate's years -9999..=9999, the format when the year is below
/// 0; so the text exists exactly for instants in years 0..=9999. The text is
/// named, not stated.
#[verifier::external_body]
pub(crate) fn format_unix_nanos_rfc3339(nanos: i128) -> (r: Option<String>)
    ensures
        (RFC3339_MIN_NANOS <= nanos <= RFC3339_MAX_NANOS) ==> opt_view(r) == Some(rfc3339_utc_nanos(nanos)),
        !(RFC3339_MIN_NANOS <= nanos <= RFC3339_MAX_NANOS) ==> r is None,
{
    time::OffsetDateTime::from_unix_timestamp_nanos(nanos).ok().and_then(
        |dt| dt.format(&time::format_description::well_known::Rfc3339).ok(),
    )
}

/// The ISO date shown for a timestamp: empty for unset (non-positive) or
/// unrepresentable times.
pub open spec fn iso_spec(secs: i64) -> Seq<char> {
    if 0 < secs <= RFC3339_MAX_SECS {
        rfc3339_utc(secs)
    } else {
        Seq::empty()
    }
}

/// The shown date given what the formatter returned for `secs`.
pub fn iso_text_from(secs: i64, formatted: Option<String>) -> (r: String)
    ensures
        secs <= 0 ==> r@ == Seq::<char>::empty(),
        secs > 0 ==> r@ == (match opt_view(formatted) {
            Some(t) => t,
            None => Seq::empty(),
        }),
{
    if secs <= 0 {
        return String::new();
    }
    match formatted {
        Some(t) => t,
        None => String::new(),
    }
}

pub fn timestamp_to_iso(secs: i64) -> (r: String)
    ensures
        r@ == iso_spec(secs),
{
    if secs <= 0 {
        return String::new();
    }
    let formatted = format_unix_rfc3339(secs);
    iso_text_from(secs, formatted)
}

pub open spec fn tag_names_view(tags: Seq<TagObject>) -> Seq<Seq<char>> {
    tags.map_values(|t: TagObject| t.name@)
}

pub(crate) fn tag_names(tags: &Vec<TagObject>) -> (r: Vec<String>)
    ensures
        strings_view(r@) == tag_names_view(tags@),
{
    let mut r: Vec<String> = Vec::new();
    let mut i: usize = 0;
    while i < tags.len()
        invariant
            i <= tags.len(),
            r.len() == i,
            forall|j: int| 0 <= j < i ==> r@[j]@ == tags@[j].name@,
        decreases tags.len() - i,
    {
        r.push(own(tags[i].name.as_str()));
        i = i + 1;
    }
    assert(strings_view(r@) =~= tag_names_view(tags@));
    r
}

/// `s` lists mod `m`: ids, texts and counts carried over, the 320x180 logo,
/// the popularity rank, the tag names and the update date.
pub open spec fn is_summary_of(s: ModSummary, m: ModObject) -> bool {
    &&& s.id == m.id
    &&& s.name == m.name
    &&& s.summary == m.summary
    &&& s.profile_url == m.profile_url
    &&& s.logo_url == m.logo.thumb_320x180
    &&& s.downloads_total == m.stats.downloads_total
    &&& s.subscribers_total == m.stats.subscribers_total
    &&& s.popularity_rank == Some(m.stats.popularity_rank_position)
    &&& strings_view(s.tags@) == tag_names_view(m.tags@)
    &&& s.date_updated@ == iso_spec(m.date_updated)
}

pub fn mod_to_summary(mod_: ModObject) -> (r: ModSummary)
    ensures
        is_summary_of(r, mod_),
{
    let date_updated = timestamp_to_iso(mod_.date_updated);
    let ModObject { id, name, summary, profile_url, logo, stats, tags, .. } = mod_;
    ModSummary {
        id,
        name,
        summary,
        profile_url,
        logo_url: logo.thumb_320x180,
        downloads_total: stats.downloads_total,
        subscribers_total: stats.subscribers_total,
        popularity_rank: Some(stats.popularity_rank_position),
        tags: tag_names(&tags),
        date_updated,
    }
}

pub open spec fn media_urls_view(images: Seq<MediaImage>) -> Seq<Seq<char>> {
    images.map_values(|i: MediaImage| i.original@)
}

/// The hero image is the first media image, else the full-size logo.
pub open spec fn hero_image_spec(m: ModObject) -> Seq<char> {
    if m.media.images@.len() > 0 {
        m.media.images@[0].original@
    } else {
        m.logo.original@
    }
}

/// `d` is the detail page of mod `m`.
pub open spec fn is_detail_of(d: ModDetail, m: ModObject) -> bool {
    &&& d.id == m.id
    &&& d.name == m.name
    &&& d.summary == m.summary
    &&& d.profile_url == m.profile_url
    &&& d.logo_url == m.logo.thumb_320x180
    &&& d.hero_image_url@ == hero_image_spec(m)
    &&& d.downloads_total == m.stats.downloads_total
    &&& d.downloads_today == m.stats.downloads_today
    &&& d.subscribers_total == m.stats.subscribers_total
    &&& d.popularity_rank == Some(m.stats.popularity_rank_position)
    &&& strings_view(d.tags@) == tag_names_view(m.tags@)
    &&& d.date_added@ == iso_spec(m.date_added)
    &&& d.date_updated@ == iso_spec(m.date_updated)
    &&& d.date_live@ == iso_spec(m.date_live)
    &&& d.description_html == m.description
    &&& d.submitted_by_username == m.submitted_by.username
    &&& d.submitted_by_profile_url == m.submitted_by.profile_url
    &&& opt_view(d.submitted_by_avatar_url) == avatar_thumb_spec(m.submitted_by.avatar)
    &&& d.ratings_display_text == m.stats.ratings_display_text
    &&& d.ratings_percentage_positive == m.stats.ratings_percentage_positive
    &&& d.ratings_positive == m.stats.ratings_positive
    &&& d.ratings_negative == m.stats.ratings_negative
    &&& strings_view(d.media_image_urls@) == media_urls_view(m.media.images@)
    &&& d.has_dependencies == m.dependencies
    &&& d.homepage_url == m.homepage_url
    &&& d.file_id == (match m.modfile {
        Some(f) => Some(f.id),
        None => None,
    })
}

pub fn mod_to_detail(mod_: ModObject) -> (r: ModDetail)
    ensures
        is_detail_of(r, mod_),
{
    let ghost m = mod_;
    let mut media_image_urls: Vec<String> = Vec::new();
    let mut i: usize = 0;
    while i < mod_.media.images.len()
        invariant
            i <= mod_.media.images.len(),
            media_image_urls.len() == i,
            forall|j: int| 0 <= j < i ==> media_image_urls@[j]@ == mod_.media.images@[j].original@,
        decreases mod_.media.images.len() - i,
    {
        media_image_urls.push(own(mod_.media.images[i].original.as_str()));
        i = i + 1;
    }
    assert(strings_view(media_image_urls@) =~= media_urls_view(mod_.media.images@));
    let hero_image_url = if mod_.media.images.len() > 0 {
        own(mod_.media.images[0].original.as_str())
    } else {
        own(mod_.logo.original.as_str())
    };
    let file_id = match &mod_.modfile {
        Some(f) => Some(f.id),
        None => None,
    };
    let submitted_by_avatar_url = mod_.submitted_by.avatar_thumb();
    let date_added = timestamp_to_iso(mod_.date_added);
    let date_updated = timestamp_to_iso(mod_.date_updated);
    let date_live = timestamp_to_iso(mod_.date_live);
    let ModObject {
        id,
        name,
        summary,
        description,
        profile_url,
        homepage_url,
        dependencies,
        logo,
        submitted_by,
        tags,
        stats,
        ..
    } = mod_;
    let tags = tag_names(&tags);
    ModDetail {
        id,
        name,
        summary,
        profile_url,
        logo_url: logo.thumb_320x180,
        hero_image_url,
        downloads_total: stats.downloads_total,
        downloads_today: stats.downloads_today,
        subscribers_total: stats.subscribers_total,
        popularity_rank: Some(stats.popularity_rank_position),
        tags,
        date_added,
        date_updated,
        date_live,
        description_html: description,
        submitted_by_username: submitted_by.username,
        submitted_by_profile_url: submitted_by.profile_url,
        submitted_by_avatar_url,
        ratings_display_text: stats.ratings_display_text,
        ratings_percentage_positive: stats.ratings_percentage_positive,
        ratings_positive: stats.ratings_positive,
        ratings_negative: stats.ratings_negative,
        media_image_urls,
        has_dependencies: dependencies,
        homepage_url,
        file_id,
    }
}

/// `d` lists mod `m` as a dependency.
pub open spec fn is_dependency_of(d: ModDependency, m: ModObject) -> bool {
    &&& d.id == m.id
    &&& d.name == m.name
    &&& d.profile_url == m.profile_url
    &&& d.logo_url == m.logo.thumb_320x180
    &&& d.submitted_by_username == m.submitted_by.username
    &&& d.date_updated@ == iso_spec(m.date_updated)
    &&& d.downloads_total == m.stats.downloads_total
    &&& d.file_size_bytes == (match m.modfile {
        Some(f) => Some(f.filesize),
        None => None,
    })
}

pub fn mod_to_dependency(mod_: ModObject) -> (r: ModDependency)
    ensures
        is_dependency_of(r, mod_),
{
    let file_size_bytes = match &mod_.modfile {
        Some(f) => Some(f.filesize),
        None => None,
    };
    let date_updated = timestamp_to_iso(mod_.date_updated);
    let ModObject { id, name, profile_url, logo, submitted_by, stats, .. } = mod_;
    ModDependency {
        id,
        name,
        profile_url,
        logo_url: logo.thumb_320x180,
        submitted_by_username: submitted_by.username,
        date_updated,
        downloads_total: stats.downloads_total,
        file_size_bytes,
    }
}

/// A page of mods for the browser: each mod summarised in order, with the
/// server's total.
pub fn mod_list_result(list: ListResponse<ModObject>) -> (r: ModListResult)
    ensures
        r.total == list.result_total,
        r.mods@.len() == list.data@.len(),
        forall|i: int| 0 <= i < r.mods@.len() ==> is_summary_of(#[trigger] r.mods@[i], list.data@[i]),
{
    let ListResponse { data, result_total } = list;
    let ghost d = data@;
    let mut data = data;
    let mut mods: Vec<ModSummary> = Vec::new();
    while data.len() > 0
        invariant
            mods@.len() + data@.len() == d.len(),
            data@ == d.skip(mods@.len() as int),
            forall|i: int| 0 <= i < mods@.len() ==> is_summary_of(#[trigger] mods@[i], d[i]),
        decreases data.len(),
    {
        let m = data.remove(0);
        let ghost k = mods@.len();
        mods.push(mod_to_summary(m));
        assert(data@ =~= d.skip(mods@.len() as int));
    }
    ModListResult { mods, total: result_total }
}

/// The dependencies of a mod with their count.
pub fn dependency_list_result(mods: Vec<ModDependency>) -> (r: ModDependencyListResult)
    ensures
        r.mods == mods,
        r.total == mods@.len() as u32,
{
    let total = mods.len() as u32;
    ModDependencyListResult { mods, total }
}

pub fn user_profile_from(user: UserObject) -> (r: UserProfile)
    ensures
        r.username == user.username,
        r.profile_url == user.profile_url,
        opt_view(r.avatar_url) == avatar_thumb_spec(user.avatar),
{
    let avatar_url = user.avatar_thumb();
    UserProfile { username: user.username, profile_url: user.profile_url, avatar_url }
}

/// The tags of the last option group named `name`, if any.
pub open spec fn tags_named(options: Seq<GameTagOptionObject>, name: Seq<char>) -> Option<Seq<Seq<char>>>
    decreases options.len(),
{
    if options.len() == 0 {
        None
    } else if options.last().name@ == name {
        Some(strings_view(options.last().tags@))
    } else {
        tags_named(options.drop_last(), name)
    }
}

fn copy_strings(v: &Vec<String>) -> (r: Vec<String>)
    ensures
        strings_view(r@) == strings_view(v@),
{
    let mut r: Vec<String> = Vec::new();
    let mut i: usize = 0;
    while i < v.len()
        invariant
            i <= v.len(),
            r.len() == i,
            forall|j: int| 0 <= j < i ==> r@[j]@ == v@[j]@,
        decreases v.len() - i,
    {
        r.push(own(v[i].as_str()));
        i = i + 1;
    }
    assert(strings_view(r@) =~= strings_view(v@));
    r
}

/// The plugin and blueprint type tags among the game's tag options; a group
/// that appears twice counts by its last appearance, a missing one is empty.
pub fn mod_tag_options_from(options: &Vec<GameTagOptionObject>) -> (r: ModTagOptions)
    ensures
        strings_view(r.plugin_types@) == (match tags_named(options@, "Plugin Type"@) {
            Some(t) => t,
            None => Seq::empty(),
        }),
        strings_view(r.blueprint_types@) == (match tags_named(options@, "Blueprint Type"@) {
            Some(t) => t,
            None => Seq::empty(),
        }),
{
    let plugin_name = chars_of("Plugin Type");
    let blueprint_name = chars_of("Blueprint Type");
    let mut plugin_types: Vec<String> = Vec::new();
    let mut blueprint_types: Vec<String> = Vec::new();
    let mut i: usize = 0;
    while i < options.len()
        invariant
            i <= options.len(),
            plugin_name@ == "Plugin Type"@,
            blueprint_name@ == "Blueprint Type"@,
            strings_view(plugin_types@) == (match tags_named(options@.take(i as int), "Plugin Type"@) {
                Some(t) => t,
                None => Seq::empty(),
            }),
            strings_view(blueprint_types@) == (match tags_named(
                options@.take(i as int),
                "Blueprint Type"@,
            ) {
                Some(t) => t,
                None => Seq::empty(),
            }),
        decreases options.len() - i,
    {
        let name = chars_of(options[i].name.as_str());
        assert(options@.take(i + 1).drop_last() =~= options@.take(i as int));
        proof {
            reveal_strlit("Plugin Type");
            reveal_strlit("Blueprint Type");
            assert("Plugin Type"@[0] != "Blueprint Type"@[0]);
        }
        if chars_eq(&name, &plugin_name) {
            plugin_types = copy_strings(&options[i].tags);
        } else if chars_eq(&name, &blueprint_name) {
            blueprint_types = copy_strings(&options[i].tags);
        }
        i = i + 1;
    }
    assert(options@.take(options.len() as int) =~= options@);
    ModTagOptions { plugin_types, blueprint_types }
}

} // verus!
