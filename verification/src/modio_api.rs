//! mod.io REST data: error classification, the `GET /mods` query string and
//! the objects the API returns.
use vstd::prelude::*;

use crate::number::{dec_seq, parse_u64, parse_u64_spec, u64_to_dec};
use crate::text::{append_all, chars_of, opt_view, own, string_of, trim, trim_seq};

verus! {

/// Error returned by a mod.io API call: HTTP status, mod.io `error_ref`, the
/// server message and the `Retry-After` value in seconds.
pub struct ApiError {
    pub status: Option<u16>,
    pub error_ref: Option<u32>,
    pub message: String,
    pub retry_after_secs: Option<u64>,
}

pub open spec fn rate_limited_spec(status: Option<u16>, error_ref: Option<u32>) -> bool {
    status == Some(429u16) || error_ref == Some(11008u32) || error_ref == Some(11009u32)
}

impl ApiError {
    /// An error raised before any HTTP status was received.
    pub fn transport(message: String) -> (r: ApiError)
        ensures
            r.status is None,
            r.error_ref is None,
            r.message == message,
            r.retry_after_secs is None,
    {
        ApiError { status: None, error_ref: None, message, retry_after_secs: None }
    }

    /// HTTP 429, or the global / per-endpoint rate-limit codes 11008 and 11009.
    pub fn is_rate_limited(&self) -> (r: bool)
        ensures
            r == rate_limited_spec(self.status, self.error_ref),
    {
        let by_status = match self.status {
            Some(s) => s == 429,
            None => false,
        };
        let by_ref = match self.error_ref {
            Some(e) => e == 11008 || e == 11009,
            None => false,
        };
        by_status || by_ref
    }

    /// HTTP 401 or 403.
    pub fn is_auth(&self) -> (r: bool)
        ensures
            r == (self.status == Some(401u16) || self.status == Some(403u16)),
    {
        match self.status {
            Some(s) => s == 401 || s == 403,
            None => false,
        }
    }

    /// HTTP 404.
    pub fn is_not_found(&self) -> (r: bool)
        ensures
            r == (self.status == Some(404u16)),
    {
        match self.status {
            Some(s) => s == 404,
            None => false,
        }
    }

    /// HTTP 409.
    pub fn is_conflict(&self) -> (r: bool)
        ensures
            r == (self.status == Some(409u16)),
    {
        match self.status {
            Some(s) => s == 409,
            None => false,
        }
    }

    /// mod.io `error_ref` 15005: the user is not subscribed to the mod.
    pub fn is_not_subscribed(&self) -> (r: bool)
        ensures
            r == (self.error_ref == Some(15005u32)),
    {
        match self.error_ref {
            Some(e) => e == 15005,
            None => false,
        }
    }

    /// A failed read with the game API key is retried with the OAuth token,
    /// except while mod.io is rate limiting.
    pub fn should_retry_with_bearer(&self) -> (r: bool)
        ensures
            r == !rate_limited_spec(self.status, self.error_ref),
    {
        !self.is_rate_limited()
    }
}

/// `mod.io returned HTTP <status>`.
pub open spec fn http_status_message(status: u16) -> Seq<char> {
    "mod.io returned HTTP "@ + dec_seq(status as nat)
}

fn http_status_text(status: u16) -> (r: String)
    ensures
        r@ == http_status_message(status),
{
    let mut v = chars_of("mod.io returned HTTP ");
    let d = u64_to_dec(status as u64);
    append_all(&mut v, &d);
    string_of(&v)
}

/// The error for a non-success response: the `error_ref` and message of the
/// JSON error envelope when the body held one (an empty message is replaced),
/// else a message naming the HTTP status.
pub fn api_error_from_response(
    status: u16,
    envelope: Option<(Option<u32>, String)>,
    retry_after_secs: Option<u64>,
) -> (r: ApiError)
    ensures
        r.status == Some(status),
        r.retry_after_secs == retry_after_secs,
        match envelope {
            Some((error_ref, message)) => {
                &&& r.error_ref == error_ref
                &&& r.message@ == (if message@.len() == 0 {
                    http_status_message(status)
                } else {
                    message@
                })
            },
            None => r.error_ref is None && r.message@ == http_status_message(status),
        },
{
    let (error_ref, message) = match envelope {
        Some((error_ref, message)) => {
            if message.as_str().is_empty() {
                (error_ref, http_status_text(status))
            } else {
                (error_ref, message)
            }
        },
        None => (None, http_status_text(status)),
    };
    ApiError { status: Some(status), error_ref, message, retry_after_secs }
}

/// The `Retry-After` header in whole seconds.
pub fn parse_retry_after_secs(value: &str) -> (r: Option<u64>)
    ensures
        r == parse_u64_spec(trim_seq(value@)),
{
    let t = trim(&chars_of(value));
    parse_u64(&t)
}

/// A paginated mod.io list response.
pub struct ListResponse<T> {
    pub data: Vec<T>,
    pub result_total: u32,
}

pub struct Logo {
    pub original: String,
    pub thumb_320x180: String,
}

pub struct Avatar {
    pub thumb_100x100: String,
}

pub struct UserObject {
    pub username: String,
    pub profile_url: String,
    pub avatar: Option<Avatar>,
}

/// The avatar thumbnail URL, unless the user has no avatar or it is blank.
pub open spec fn avatar_thumb_spec(avatar: Option<Avatar>) -> Option<Seq<char>> {
    match avatar {
        Some(a) => if a.thumb_100x100@.len() > 0 {
            Some(a.thumb_100x100@)
        } else {
            None
        },
        None => None,
    }
}

impl UserObject {
    pub fn avatar_thumb(&self) -> (r: Option<String>)
        ensures
            opt_view(r) == avatar_thumb_spec(self.avatar),
    {
        match &self.avatar {
            Some(avatar) => {
                let t = avatar.thumb_100x100.as_str();
                if t.is_empty() {
                    None
                } else {
                    Some(own(t))
                }
            },
            None => None,
        }
    }
}

pub struct Media {
    pub images: Vec<MediaImage>,
}

pub struct MediaImage {
    pub original: String,
}

pub struct TagObject {
    pub name: String,
}

pub struct ModStats {
    pub downloads_today: u32,
    pub downloads_total: u32,
    pub subscribers_total: u32,
    pub popularity_rank_position: u32,
    pub ratings_positive: u32,
    pub ratings_negative: u32,
    pub ratings_percentage_positive: u32,
    pub ratings_display_text: String,
}

pub struct Download {
    pub binary_url: String,
}

pub struct Modfile {
    pub id: u64,
    pub filename: String,
    pub filesize: u64,
    pub date_added: i64,
    pub version: String,
    pub changelog: String,
    pub download: Download,
}

pub struct ModObject {
    pub id: u64,
    pub game_id: u64,
    pub visible: u8,
    pub name: String,
    pub summary: String,
    pub description: Option<String>,
    pub profile_url: String,
    pub homepage_url: Option<String>,
    pub dependencies: bool,
    pub date_added: i64,
    pub date_updated: i64,
    pub date_live: i64,
    pub logo: Logo,
    pub submitted_by: UserObject,
    pub media: Media,
    pub tags: Vec<TagObject>,
    pub stats: ModStats,
    pub modfile: Option<Modfile>,
}

/// mod.io reports a missing file as `null` or as an empty object; both mean
/// "no file", so only files with a non-zero id are kept.
pub fn published_modfile(modfile: Option<Modfile>) -> (r: Option<Modfile>)
    ensures
        r == (match modfile {
            Some(f) => if f.id != 0 {
                Some(f)
            } else {
                None
            },
            None => None,
        }),
{
    match modfile {
        Some(f) => if f.id != 0 {
            Some(f)
        } else {
            None
        },
        None => None,
    }
}

pub struct DependencyObject {
    pub mod_id: u64,
}

pub struct GameTagOptionObject {
    pub name: String,
    pub tags: Vec<String>,
}

pub struct AccessToken {
    pub access_token: String,
}

pub struct Message {
    pub message: String,
}

/// Query for `GET /games/{id}/mods`.
pub struct ModQuery {
    pub search: Option<String>,
    /// AND-combined tag filters (`tags=<value>` repeated).
    pub tags: Vec<String>,
    /// OR-combined tag filter (`tags-in=a,b`).
    pub tags_in: Vec<String>,
    pub sort_field: Option<&'static str>,
    pub sort_desc: bool,
    pub limit: u32,
    pub offset: u32,
}

impl Default for ModQuery {
    fn default() -> (r: ModQuery)
        ensures
            r.search is None,
            r.tags@.len() == 0,
            r.tags_in@.len() == 0,
            r.sort_field is None,
            !r.sort_desc,
            r.limit == 0,
            r.offset == 0,
    {
        ModQuery {
            search: None,
            tags: Vec::new(),
            tags_in: Vec::new(),
            sort_field: None,
            sort_desc: false,
            limit: 0,
            offset: 0,
        }
    }
}

pub open spec fn strings_view(v: Seq<String>) -> Seq<Seq<char>> {
    v.map_values(|s: String| s@)
}

pub open spec fn pairs_view(v: Seq<(String, String)>) -> Seq<(Seq<char>, Seq<char>)> {
    v.map_values(|p: (String, String)| (p.0@, p.1@))
}

/// The items joined with `sep` between neighbours.
pub open spec fn join_spec(items: Seq<Seq<char>>, sep: Seq<char>) -> Seq<char>
    decreases items.len(),
{
    if items.len() == 0 {
        Seq::empty()
    } else if items.len() == 1 {
        items[0]
    } else {
        join_spec(items.drop_last(), sep) + sep + items.last()
    }
}

/// The query parameters, in order: `_q`, one `tags` per AND tag, `tags-in`
/// with the OR tags joined by commas, `_sort` (prefixed with `-` when
/// descending), `_limit` and `_offset`.
pub open spec fn query_params_spec(q: ModQuery) -> Seq<(Seq<char>, Seq<char>)> {
    let search = match opt_view(q.search) {
        Some(s) => seq![("_q"@, s)],
        None => Seq::empty(),
    };
    let tags = strings_view(q.tags@).map_values(|t: Seq<char>| ("tags"@, t));
    let tags_in = if q.tags_in@.len() > 0 {
        seq![("tags-in"@, join_spec(strings_view(q.tags_in@), ","@))]
    } else {
        Seq::empty()
    };
    let sort = match q.sort_field {
        Some(f) => seq![("_sort"@, if q.sort_desc { "-"@ + f@ } else { f@ })],
        None => Seq::empty(),
    };
    search + tags + tags_in + sort + seq![
        ("_limit"@, dec_seq(q.limit as nat)),
        ("_offset"@, dec_seq(q.offset as nat)),
    ]
}

/// Joins strings with a separator.
pub fn join_strings(items: &Vec<String>, sep: &str) -> (r: String)
    ensures
        r@ == join_spec(strings_view(items@), sep@),
{
    let ghost iv = strings_view(items@);
    let sepv = chars_of(sep);
    let mut r: Vec<char> = Vec::new();
    let mut i: usize = 0;
    while i < items.len()
        invariant
            i <= items.len(),
            iv == strings_view(items@),
            sepv@ == sep@,
            r@ == join_spec(iv.take(i as int), sep@),
        decreases items.len() - i,
    {
        let item = chars_of(items[i].as_str());
        assert(iv.take(i + 1).drop_last() =~= iv.take(i as int));
        assert(iv.take(i + 1).last() == item@);
        if i > 0 {
            append_all(&mut r, &sepv);
        } else {
            assert(iv.take(0) =~= Seq::<Seq<char>>::empty());
        }
        append_all(&mut r, &item);
        i = i + 1;
    }
    assert(iv.take(items.len() as int) =~= iv);
    string_of(&r)
}

fn push_pair(params: &mut Vec<(String, String)>, key: &str, value: String)
    ensures
        pairs_view(final(params)@) == pairs_view(old(params)@).push((key@, value@)),
{
    let ghost before = params@;
    params.push((own(key), value));
    assert(pairs_view(params@) =~= pairs_view(before).push((key@, value@)));
}

fn u32_text(n: u32) -> (r: String)
    ensures
        r@ == dec_seq(n as nat),
{
    string_of(&u64_to_dec(n as u64))
}

impl ModQuery {
    pub fn to_params(&self) -> (r: Vec<(String, String)>)
        ensures
            pairs_view(r@) == query_params_spec(*self),
    {
        let mut params: Vec<(String, String)> = Vec::new();
        let ghost search = match opt_view(self.search) {
            Some(s) => seq![("_q"@, s)],
            None => Seq::<(Seq<char>, Seq<char>)>::empty(),
        };
        match &self.search {
            Some(search) => push_pair(&mut params, "_q", own(search.as_str())),
            None => {},
        }
        assert(pairs_view(params@) =~= search);
        let ghost tags = strings_view(self.tags@).map_values(|t: Seq<char>| ("tags"@, t));
        let mut i: usize = 0;
        while i < self.tags.len()
            invariant
                i <= self.tags.len(),
                tags == strings_view(self.tags@).map_values(|t: Seq<char>| ("tags"@, t)),
                pairs_view(params@) =~= search + tags.take(i as int),
            decreases self.tags.len() - i,
        {
            push_pair(&mut params, "tags", own(self.tags[i].as_str()));
            i = i + 1;
            assert(tags.take(i as int) =~= tags.take(i - 1).push(tags[i - 1]));
        }
        assert(tags.take(self.tags.len() as int) =~= tags);
        if self.tags_in.len() > 0 {
            push_pair(&mut params, "tags-in", join_strings(&self.tags_in, ","));
        }
        match self.sort_field {
            Some(field) => {
                if self.sort_desc {
                    let mut v = chars_of("-");
                    append_all(&mut v, &chars_of(field));
                    push_pair(&mut params, "_sort", string_of(&v));
                } else {
                    push_pair(&mut params, "_sort", own(field));
                }
            },
            None => {},
        }
        push_pair(&mut params, "_limit", u32_text(self.limit));
        push_pair(&mut params, "_offset", u32_text(self.offset));
        assert(pairs_view(params@) =~= query_params_spec(*self));
        params
    }
}


// ---------------------------------------------------------------------------
// Requests
// ---------------------------------------------------------------------------

/// Requests to mod.io start at least this many milliseconds apart.
pub const MIN_REQUEST_INTERVAL_MS: u64 = 110;

/// The query of a request: the given parameters, plus the game API key when
/// the request carries no OAuth token.
pub fn request_params(query: &Vec<(String, String)>, authenticated: bool, api_key: &str) -> (r: Vec<
    (String, String),
>)
    ensures
        pairs_view(r@) == if authenticated {
            pairs_view(query@)
        } else {
            pairs_view(query@).push(("api_key"@, api_key@))
        },
{
    let mut params: Vec<(String, String)> = Vec::new();
    let mut i: usize = 0;
    while i < query.len()
        invariant
            i <= query.len(),
            pairs_view(params@) == pairs_view(query@.take(i as int)),
        decreases query.len() - i,
    {
        let ghost before = params@;
        params.push((own(query[i].0.as_str()), own(query[i].1.as_str())));
        assert(pairs_view(params@) =~= pairs_view(before).push((query@[i as int].0@, query@[i as int].1@)));
        assert(query@.take(i + 1) =~= query@.take(i as int).push(query@[i as int]));
        assert(pairs_view(query@.take(i + 1)) =~= pairs_view(query@.take(i as int)).push(
            (query@[i as int].0@, query@[i as int].1@),
        ));
        i = i + 1;
    }
    assert(query@.take(i as int) =~= query@);
    if !authenticated {
        push_pair(&mut params, "api_key", own(api_key));
    }
    params
}

pub open spec fn is_write_method(method: Seq<char>) -> bool {
    method == "POST"@ || method == "PUT"@ || method == "DELETE"@
}

/// mod.io wants a form content type on every write, with or without a body.
pub fn sends_form_content_type(method: &str, has_form: bool) -> (r: bool)
    ensures
        r == (has_form || is_write_method(method@)),
{
    let m = chars_of(method);
    has_form || crate::text::chars_eq(&m, &chars_of("POST")) || crate::text::chars_eq(&m, &chars_of("PUT"))
        || crate::text::chars_eq(&m, &chars_of("DELETE"))
}

/// A query parameter as the request log shows it: the API key's value is
/// hidden.
pub open spec fn logged_param(p: (Seq<char>, Seq<char>)) -> Seq<char> {
    if p.0 == "api_key"@ {
        p.0 + "=***"@
    } else {
        p.0 + "="@ + p.1
    }
}

/// The headers the request log lists: those always sent, the bearer token
/// (hidden) when authenticated, and the form content type.
pub open spec fn logged_headers(method: Seq<char>, user_agent: Seq<char>, authenticated: bool, has_form: bool) -> Seq<
    Seq<char>,
> {
    let base = seq!["Accept: application/json"@, "X-Modio-Platform: windows"@, "User-Agent: "@ + user_agent];
    let with_auth = if authenticated {
        base.push("Authorization: Bearer ***"@)
    } else {
        base
    };
    if has_form || is_write_method(method) {
        with_auth.push("Content-Type: application/x-www-form-urlencoded"@)
    } else {
        with_auth
    }
}

pub open spec fn logged_query(params: Seq<(Seq<char>, Seq<char>)>) -> Seq<char> {
    if params.len() == 0 {
        Seq::empty()
    } else {
        "?"@ + join_spec(params.map_values(|p: (Seq<char>, Seq<char>)| logged_param(p)), "&"@)
    }
}

pub open spec fn logged_body(form: Option<Seq<(Seq<char>, Seq<char>)>>) -> Seq<char> {
    match form {
        Some(f) => " body=["@ + join_spec(f.map_values(|p: (Seq<char>, Seq<char>)| p.0 + "="@ + p.1), ", "@)
            + "]"@,
        None => Seq::empty(),
    }
}

pub open spec fn opt_pairs_view(form: Option<Vec<(String, String)>>) -> Option<Seq<(Seq<char>, Seq<char>)>> {
    match form {
        Some(f) => Some(pairs_view(f@)),
        None => None,
    }
}

/// The log line of an outgoing request: method, URL with its query (API key
/// hidden), how it authenticates, the headers attached (bearer token
/// hidden) and the form body.
pub open spec fn request_log_line_spec(
    method: Seq<char>,
    url: Seq<char>,
    params: Seq<(Seq<char>, Seq<char>)>,
    authenticated: bool,
    form: Option<Seq<(Seq<char>, Seq<char>)>>,
    user_agent: Seq<char>,
) -> Seq<char> {
    "mod.io -> "@ + method + " "@ + url + logged_query(params) + " (auth="@ + (if authenticated {
        "bearer"@
    } else {
        "api_key"@
    }) + ") headers=["@ + join_spec(logged_headers(method, user_agent, authenticated, form is Some), ", "@) + "]"@
        + logged_body(form)
}

fn joined_pairs(pairs: &Vec<(String, String)>, hide_key: bool, sep: &str) -> (r: String)
    ensures
        hide_key ==> r@ == join_spec(pairs_view(pairs@).map_values(|p: (Seq<char>, Seq<char>)| logged_param(p)), sep@),
        !hide_key ==> r@ == join_spec(
            pairs_view(pairs@).map_values(|p: (Seq<char>, Seq<char>)| p.0 + "="@ + p.1),
            sep@,
        ),
{
    let mut items: Vec<String> = Vec::new();
    let mut i: usize = 0;
    let api_key = chars_of("api_key");
    while i < pairs.len()
        invariant
            i <= pairs.len(),
            api_key@ == "api_key"@,
            items@.len() == i,
            forall|k: int| 0 <= k < i ==> (#[trigger] items@[k])@ == (if hide_key {
                logged_param((pairs@[k].0@, pairs@[k].1@))
            } else {
                pairs@[k].0@ + "="@ + pairs@[k].1@
            }),
        decreases pairs.len() - i,
    {
        let key = chars_of(pairs[i].0.as_str());
        let mut line = key.clone();
        if hide_key && crate::text::chars_eq(&key, &api_key) {
            append_all(&mut line, &chars_of("=***"));
        } else {
            line.push('=');
            append_all(&mut line, &chars_of(pairs[i].1.as_str()));
            assert(line@ =~= key@ + "="@ + pairs@[i as int].1@) by {
                reveal_strlit("=");
            }
        }
        items.push(string_of(&line));
        i = i + 1;
    }
    let r = join_strings(&items, sep);
    proof {
        if hide_key {
            assert(strings_view(items@) =~= pairs_view(pairs@).map_values(
                |p: (Seq<char>, Seq<char>)| logged_param(p),
            ));
        } else {
            assert(strings_view(items@) =~= pairs_view(pairs@).map_values(
                |p: (Seq<char>, Seq<char>)| p.0 + "="@ + p.1,
            ));
        }
    }
    r
}

/// The log line of an outgoing mod.io request (see `request_log_line_spec`).
pub fn request_log_line(
    method: &str,
    url: &str,
    params: &Vec<(String, String)>,
    authenticated: bool,
    form: &Option<Vec<(String, String)>>,
    user_agent: &str,
) -> (r: String)
    ensures
        r@ == request_log_line_spec(method@, url@, pairs_view(params@), authenticated, opt_pairs_view(*form), user_agent@),
{
    let mut out = chars_of("mod.io -> ");
    append_all(&mut out, &chars_of(method));
    out.push(' ');
    append_all(&mut out, &chars_of(url));
    if params.len() > 0 {
        out.push('?');
        append_all(&mut out, &chars_of(joined_pairs(params, true, "&").as_str()));
    }
    append_all(&mut out, &chars_of(" (auth="));
    if authenticated {
        append_all(&mut out, &chars_of("bearer"));
    } else {
        append_all(&mut out, &chars_of("api_key"));
    }
    append_all(&mut out, &chars_of(") headers=["));
    let mut headers: Vec<String> = Vec::new();
    headers.push(own("Accept: application/json"));
    headers.push(own("X-Modio-Platform: windows"));
    let mut ua = chars_of("User-Agent: ");
    append_all(&mut ua, &chars_of(user_agent));
    headers.push(string_of(&ua));
    if authenticated {
        headers.push(own("Authorization: Bearer ***"));
    }
    if sends_form_content_type(method, form.is_some()) {
        headers.push(own("Content-Type: application/x-www-form-urlencoded"));
    }
    assert(strings_view(headers@) =~= logged_headers(method@, user_agent@, authenticated, form is Some));
    append_all(&mut out, &chars_of(join_strings(&headers, ", ").as_str()));
    out.push(']');
    match form {
        Some(f) => {
            append_all(&mut out, &chars_of(" body=["));
            append_all(&mut out, &chars_of(joined_pairs(f, false, ", ").as_str()));
            out.push(']');
        },
        None => {},
    }
    proof {
        reveal_strlit(" ");
        reveal_strlit("?");
        reveal_strlit("]");
    }
    assert(out@ =~= request_log_line_spec(
        method@,
        url@,
        pairs_view(params@),
        authenticated,
        opt_pairs_view(*form),
        user_agent@,
    ));
    string_of(&out)
}

/// When the next request may start, in milliseconds on a monotonic clock.
pub struct RequestPacer {
    pub next_request_at_ms: u64,
}

/// A request asked for at `now` starts when the reserved slot comes, or at
/// once; the slot after it is one interval later.
pub open spec fn slot_start(next: u64, now: u64) -> int {
    if next > now {
        next as int
    } else {
        now as int
    }
}

impl RequestPacer {
    pub fn new(now_ms: u64) -> (r: RequestPacer)
        ensures
            r.next_request_at_ms == now_ms,
    {
        RequestPacer { next_request_at_ms: now_ms }
    }

    /// Reserves the slot for a request asked for at `now_ms` and returns how
    /// long to wait before sending it.
    pub fn reserve(&mut self, now_ms: u64) -> (wait_ms: u64)
        requires
            slot_start(old(self).next_request_at_ms, now_ms) + MIN_REQUEST_INTERVAL_MS <= u64::MAX,
        ensures
            now_ms + wait_ms == slot_start(old(self).next_request_at_ms, now_ms),
            final(self).next_request_at_ms == slot_start(old(self).next_request_at_ms, now_ms)
                + MIN_REQUEST_INTERVAL_MS,
    {
        let start = if self.next_request_at_ms > now_ms {
            self.next_request_at_ms
        } else {
            now_ms
        };
        self.next_request_at_ms = start + MIN_REQUEST_INTERVAL_MS;
        start - now_ms
    }

    /// After a rate-limited answer, no request starts before `Retry-After`
    /// seconds have passed.
    pub fn hold_off(&mut self, now_ms: u64, retry_after_secs: u64)
        requires
            now_ms + retry_after_secs * 1000 <= u64::MAX,
        ensures
            final(self).next_request_at_ms == if now_ms + retry_after_secs * 1000 > old(
                self,
            ).next_request_at_ms {
                now_ms + retry_after_secs * 1000
            } else {
                old(self).next_request_at_ms as int
            },
    {
        assert(retry_after_secs * 1000 <= u64::MAX);
        let candidate = now_ms + retry_after_secs * 1000;
        if candidate > self.next_request_at_ms {
            self.next_request_at_ms = candidate;
        }
    }
}

/// The hold-off after a rate-limited answer, in seconds: its Retry-After,
/// else a minute; capped where the end of the wait would pass the clock's
/// range.
pub open spec fn hold_off_secs(now_ms: u64, retry_after: Option<u64>) -> int {
    let secs: int = match retry_after {
        Some(s) => s as int,
        None => 60,
    };
    let cap: int = (u64::MAX - now_ms) / 1000;
    if secs <= cap {
        secs
    } else {
        cap
    }
}

/// What a reply to a request gives: a 2xx reply's body is the result; any
/// other status is the error built from the reply (see
/// `api_error_from_response`), and a rate-limited error holds every later
/// request off for its Retry-After, else 60 seconds.
pub fn after_response(
    pacer: &mut RequestPacer,
    now_ms: u64,
    status: u16,
    body: Vec<u8>,
    envelope: Option<(Option<u32>, String)>,
    retry_after: Option<u64>,
) -> (r: Result<Vec<u8>, ApiError>)
    ensures
        200 <= status < 300 ==> (r matches Ok(b) && b@ == body@) && *final(pacer) == *old(pacer),
        !(200 <= status < 300) ==> (r matches Err(e) && {
            &&& e.status == Some(status)
            &&& e.retry_after_secs == retry_after
            &&& match envelope {
                Some((error_ref, message)) => e.error_ref == error_ref && e.message@ == (if message@.len() == 0 {
                    http_status_message(status)
                } else {
                    message@
                }),
                None => e.error_ref is None && e.message@ == http_status_message(status),
            }
            &&& rate_limited_spec(e.status, e.error_ref) ==> final(pacer).next_request_at_ms == (if now_ms
                + hold_off_secs(now_ms, retry_after) * 1000 > old(pacer).next_request_at_ms {
                now_ms + hold_off_secs(now_ms, retry_after) * 1000
            } else {
                old(pacer).next_request_at_ms as int
            })
            &&& !rate_limited_spec(e.status, e.error_ref) ==> *final(pacer) == *old(pacer)
        }),
{
    if 200 <= status && status < 300 {
        return Ok(body);
    }
    let error = api_error_from_response(status, envelope, retry_after);
    if error.is_rate_limited() {
        let secs: u64 = match retry_after {
            Some(s) => s,
            None => 60,
        };
        let cap = (u64::MAX - now_ms) / 1000;
        let held = if secs <= cap {
            secs
        } else {
            cap
        };
        assert(held * 1000 <= u64::MAX - now_ms) by (nonlinear_arith)
            requires
                held <= cap,
                cap == (u64::MAX - now_ms) / 1000,
                now_ms <= u64::MAX,
        ;
        pacer.hold_off(now_ms, held);
    }
    Err(error)
}

/// After holding off for a `Retry-After` of `secs` seconds at `now`, no
/// request starts before `now + secs` seconds, whenever it is asked for.
pub proof fn lemma_hold_off_delays(next: u64, now: u64, secs: u64, asked_at: u64)
    requires
        now + secs * 1000 <= u64::MAX,
    ensures
        ({
            let held = if now + secs * 1000 > next {
                (now + secs * 1000) as u64
            } else {
                next
            };
            slot_start(held, asked_at) >= now + secs * 1000
        }),
{
}

/// Two requests reserved one after the other start at least one interval
/// apart, whenever each was asked for.
pub proof fn lemma_reservations_spaced(next: u64, first_at: u64, second_at: u64)
    requires
        slot_start(next, first_at) + MIN_REQUEST_INTERVAL_MS <= u64::MAX,
    ensures
        ({
            let first_start = slot_start(next, first_at);
            let after = (first_start + MIN_REQUEST_INTERVAL_MS) as u64;
            slot_start(after, second_at) >= first_start + MIN_REQUEST_INTERVAL_MS
        }),
{
}

} // verus!
