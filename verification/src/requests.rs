//! Requests to the server: the options and headers of cached reads, and how
//! the status of a response decides its outcome.
use vstd::prelude::*;
use crate::text::chars_of;

verus! {

/// Why a request failed.
#[derive(Clone, Debug, PartialEq)]
pub enum AppError {
    Unauthorized(String),
    Forbidden(String),
    NotFound,
    InternalServerError,
    UnprocessableEntity(Vec<String>),
    DeserializeError,
    RequestError,
}

/// How a read may use the cache of the service worker.
#[derive(Clone, Debug, PartialEq)]
pub struct RequestOptions {
    pub use_cache: bool,
    pub cache_key: Option<String>,
}

impl RequestOptions {
    pub fn new(use_cache: bool) -> (r: RequestOptions)
        ensures
            r.use_cache == use_cache,
            r.cache_key is None,
    {
        RequestOptions { use_cache, cache_key: None }
    }
}

/// Whether `c` may stand in a header value (visible ASCII, spaces, tabs, and
/// bytes from 0x80 on).
pub open spec fn header_value_char(c: char) -> bool {
    (c as u32 >= 32 && c as u32 != 127) || c == '\t'
}

/// A header: its name and value.
pub struct Header {
    pub name: String,
    pub value: String,
}

/// The headers of a read: `X-Cache-Only: 1` when only the cache may answer,
/// and `X-Cache-Key` with the key when one is given.
pub open spec fn cache_headers_spec(use_cache: bool, key: Option<Seq<char>>) -> Seq<(Seq<char>, Seq<char>)> {
    let only: Seq<(Seq<char>, Seq<char>)> = if use_cache {
        seq![("X-Cache-Only"@, "1"@)]
    } else {
        Seq::empty()
    };
    match key {
        Some(k) => only.push(("X-Cache-Key"@, k)),
        None => only,
    }
}

/// The names and values of headers.
pub open spec fn header_pairs(h: Seq<Header>) -> Seq<(Seq<char>, Seq<char>)> {
    h.map_values(|x: Header| (x.name@, x.value@))
}

/// The headers of a read with the given options; an empty list means the
/// read is sent without extra headers.
pub fn cache_headers(options: &RequestOptions) -> (r: Vec<Header>)
    requires
        options.cache_key matches Some(k) ==> forall|i: int| 0 <= i < k@.len() ==> header_value_char(#[trigger] k@[i]),
    ensures
        header_pairs(r@) == cache_headers_spec(
            options.use_cache,
            match options.cache_key {
                Some(k) => Some(k@),
                None => None,
            },
        ),
{
    let mut headers: Vec<Header> = Vec::new();
    if options.use_cache {
        headers.push(Header { name: "X-Cache-Only".to_owned(), value: "1".to_owned() });
    }
    let ghost before = headers@;
    match &options.cache_key {
        Some(key) => {
            headers.push(Header { name: "X-Cache-Key".to_owned(), value: key.clone() });
            assert(header_pairs(headers@) =~= header_pairs(before).push(("X-Cache-Key"@, key@)));
        },
        None => {},
    }
    assert(header_pairs(headers@) =~= cache_headers_spec(
        options.use_cache,
        match options.cache_key {
            Some(k) => Some(k@),
            None => None,
        },
    ));
    headers
}

/// Whether a status is a success (2xx).
pub open spec fn is_success_status(status: u16) -> bool {
    200 <= status <= 299
}

/// Whether a response status is a success.
pub fn is_success(status: u16) -> (r: bool)
    ensures
        r == is_success_status(status),
{
    200 <= status && status <= 299
}

/// What must be read from the body of an unsuccessful response.
#[derive(Clone, Copy, Debug, PartialEq, Eq, Structural)]
pub enum ErrorBody {
    /// Nothing.
    Nothing,
    /// A message (a JSON string).
    Message,
    /// A list of validation errors (a JSON list of strings).
    Errors,
}

/// The body to read for an unsuccessful status: the message for 401 and
/// 403, the validation errors for 422, nothing otherwise.
pub fn error_body(status: u16) -> (r: ErrorBody)
    ensures
        r == (if status == 401 || status == 403 {
            ErrorBody::Message
        } else if status == 422 {
            ErrorBody::Errors
        } else {
            ErrorBody::Nothing
        }),
{
    if status == 401 || status == 403 {
        ErrorBody::Message
    } else if status == 422 {
        ErrorBody::Errors
    } else {
        ErrorBody::Nothing
    }
}

/// The method of a request.
#[derive(Clone, Copy, Debug, PartialEq, Eq, Structural)]
pub enum HttpMethod {
    Get,
    Post,
    Put,
    Delete,
}

/// Whether a request of this method carries a JSON body: posts and puts do.
pub fn sends_body(method: HttpMethod) -> (r: bool)
    ensures
        r == (method == HttpMethod::Post || method == HttpMethod::Put),
{
    match method {
        HttpMethod::Post | HttpMethod::Put => true,
        _ => false,
    }
}

/// The text of a message that may not have been read (empty then).
pub open spec fn message_text(message: Option<String>) -> Seq<char> {
    match message {
        Some(s) => s@,
        None => Seq::empty(),
    }
}

/// The error of an unsuccessful response, given what could be read from its
/// body: 401 and 403 carry the message (empty when it could not be read),
/// 404 and 500 their own errors, 422 the validation errors (or a
/// deserialisation error when they could not be read), any other status a
/// request error.
pub fn status_error(status: u16, message: Option<String>, errors: Option<Vec<String>>) -> (r: AppError)
    requires
        !is_success_status(status),
    ensures
        status == 401 ==> (r matches AppError::Unauthorized(m) && m@ == message_text(message)),
        status == 403 ==> (r matches AppError::Forbidden(m) && m@ == message_text(message)),
        status == 404 ==> r == AppError::NotFound,
        status == 500 ==> r == AppError::InternalServerError,
        status == 422 ==> match errors {
            Some(e) => r == AppError::UnprocessableEntity(e),
            None => r == AppError::DeserializeError,
        },
        status != 401 && status != 403 && status != 404 && status != 500 && status != 422
            ==> r == AppError::RequestError,
{
    if status == 401 || status == 403 {
        let m = match message {
            Some(s) => s,
            None => String::new(),
        };
        if status == 401 {
            AppError::Unauthorized(m)
        } else {
            AppError::Forbidden(m)
        }
    } else if status == 404 {
        AppError::NotFound
    } else if status == 500 {
        AppError::InternalServerError
    } else if status == 422 {
        match errors {
            Some(e) => AppError::UnprocessableEntity(e),
            None => AppError::DeserializeError,
        }
    } else {
        AppError::RequestError
    }
}

/// The outcome of a request, given whether a response came, its status,
/// whether its body could be read as the expected value, and what could be
/// read of an error's body: no error for a success whose body was read, a
/// deserialisation error for one whose body was not, a request error when
/// no response came, otherwise the error of the status.
pub fn request_error(
    responded: bool,
    status: u16,
    body_read: bool,
    message: Option<String>,
    errors: Option<Vec<String>>,
) -> (r: Option<AppError>)
    ensures
        !responded ==> r == Some(AppError::RequestError),
        responded && is_success_status(status) && body_read ==> r is None,
        responded && is_success_status(status) && !body_read ==> r == Some(AppError::DeserializeError),
        responded && !is_success_status(status) ==> (r matches Some(e) && ({
            &&& status == 401 ==> (e matches AppError::Unauthorized(m) && m@ == message_text(message))
            &&& status == 403 ==> (e matches AppError::Forbidden(m) && m@ == message_text(message))
            &&& status == 404 ==> e == AppError::NotFound
            &&& status == 500 ==> e == AppError::InternalServerError
            &&& status == 422 ==> match errors {
                Some(es) => e == AppError::UnprocessableEntity(es),
                None => e == AppError::DeserializeError,
            }
            &&& status != 401 && status != 403 && status != 404 && status != 500 && status != 422
                ==> e == AppError::RequestError
        })),
{
    if !responded {
        Some(AppError::RequestError)
    } else if is_success(status) {
        if body_read { None } else { Some(AppError::DeserializeError) }
    } else {
        Some(status_error(status, message, errors))
    }
}

/// Whether `needle` occurs in `s`.
pub open spec fn contains_text(s: Seq<char>, needle: Seq<char>) -> bool {
    exists|i: int| 0 <= i && i + needle.len() <= s.len() && #[trigger] s.subrange(i, i + needle.len()) == needle
}

/// Whether `s` ends with `suffix`.
pub open spec fn ends_with_text(s: Seq<char>, suffix: Seq<char>) -> bool {
    suffix.len() <= s.len() && s.subrange(s.len() - suffix.len(), s.len() as int) == suffix
}

/// Whether `v[from..from + w.len()]` spells `w`.
fn matches_at(v: &Vec<char>, from: usize, w: &Vec<char>) -> (r: bool)
    requires
        from + w@.len() <= v@.len(),
    ensures
        r == (v@.subrange(from as int, from + w@.len()) == w@),
{
    let n = v.len();
    let mut k: usize = 0;
    while k < w.len()
        invariant
            k <= w@.len(),
            n == v@.len(),
            from + w@.len() <= v@.len(),
            forall|j: int| 0 <= j < k ==> v@[from + j] == w@[j],
        decreases w@.len() - k,
    {
        if v[from + k] != w[k] {
            assert(v@.subrange(from as int, from + w@.len())[k as int] != w@[k as int]);
            return false;
        }
        k += 1;
    }
    assert(v@.subrange(from as int, from + w@.len()) =~= w@);
    true
}

/// Whether `needle` occurs in `s`.
pub fn text_contains(s: &str, needle: &str) -> (r: bool)
    ensures
        r == contains_text(s@, needle@),
{
    let v = chars_of(s);
    let w = chars_of(needle);
    if w.len() > v.len() {
        return false;
    }
    let last = v.len() - w.len();
    let mut i: usize = 0;
    loop
        invariant
            v@ == s@,
            w@ == needle@,
            last == v@.len() - w@.len(),
            i <= last,
            forall|j: int| 0 <= j < i ==> #[trigger] v@.subrange(j, j + w@.len()) != w@,
        decreases last - i,
    {
        if matches_at(&v, i, &w) {
            return true;
        }
        if i == last {
            return false;
        }
        i += 1;
    }
}

/// Whether `s` ends with `suffix`.
pub fn text_ends_with(s: &str, suffix: &str) -> (r: bool)
    ensures
        r == ends_with_text(s@, suffix@),
{
    let v = chars_of(s);
    let w = chars_of(suffix);
    if w.len() > v.len() {
        return false;
    }
    matches_at(&v, v.len() - w.len(), &w)
}

/// Whether the error is a validation error with a message in which `needle` occurs.
pub open spec fn error_containing(err: AppError, needle: Seq<char>) -> bool {
    match err {
        AppError::UnprocessableEntity(es) => exists|k: int| 0 <= k < es@.len() && #[trigger] contains_text(es@[k]@, needle),
        _ => false,
    }
}

/// Whether the error is a validation error with a message that ends with `suffix`.
pub open spec fn error_ending_with(err: AppError, suffix: Seq<char>) -> bool {
    match err {
        AppError::UnprocessableEntity(es) => exists|k: int| 0 <= k < es@.len() && #[trigger] ends_with_text(es@[k]@, suffix),
        _ => false,
    }
}

/// Whether the error is a validation error with a message in which `needle` occurs.
pub fn error_contains(err: &AppError, needle: &str) -> (r: bool)
    ensures
        r == error_containing(*err, needle@),
{
    match err {
        AppError::UnprocessableEntity(es) => {
            let mut k: usize = 0;
            while k < es.len()
                invariant
                    k <= es@.len(),
                    *err == AppError::UnprocessableEntity(*es),
                    forall|j: int| 0 <= j < k ==> !contains_text(#[trigger] es@[j]@, needle@),
                decreases es@.len() - k,
            {
                if text_contains(es[k].as_str(), needle) {
                    assert(contains_text(es@[k as int]@, needle@));
                    assert(*err matches AppError::UnprocessableEntity(x) && x == *es);
                    return true;
                }
                k += 1;
            }
            false
        },
        _ => false,
    }
}

/// Whether the error is a validation error with a message that ends with `suffix`.
pub fn error_ends_with(err: &AppError, suffix: &str) -> (r: bool)
    ensures
        r == error_ending_with(*err, suffix@),
{
    match err {
        AppError::UnprocessableEntity(es) => {
            let mut k: usize = 0;
            while k < es.len()
                invariant
                    k <= es@.len(),
                    *err == AppError::UnprocessableEntity(*es),
                    forall|j: int| 0 <= j < k ==> !ends_with_text(#[trigger] es@[j]@, suffix@),
                decreases es@.len() - k,
            {
                if text_ends_with(es[k].as_str(), suffix) {
                    assert(ends_with_text(es@[k as int]@, suffix@));
                    assert(*err matches AppError::UnprocessableEntity(x) && x == *es);
                    return true;
                }
                k += 1;
            }
            false
        },
        _ => false,
    }
}

/// A validation error with a message ending with some words also has a
/// message in which those words occur.
pub proof fn law_ending_with_is_containing(err: AppError, words: Seq<char>)
    requires
        error_ending_with(err, words),
    ensures
        error_containing(err, words),
{
    match err {
        AppError::UnprocessableEntity(es) => {
            let k = choose|k: int| 0 <= k < es@.len() && #[trigger] ends_with_text(es@[k]@, words);
            let s = es@[k]@;
            assert(s.subrange(s.len() - words.len(), (s.len() - words.len()) + words.len()) == words);
            assert(contains_text(s, words));
        },
        _ => {},
    }
}

/// An error that a page explains in its own words.
#[derive(Clone, Copy, Debug, PartialEq, Eq, Structural)]
pub enum ErrorNotice {
    PracticeAlreadyExists,
    YatraAlreadyJoined,
    LastYatraAdminCannotLeave,
    UserAlreadyExists,
    InvalidResetLink,
    LoginNotFound,
}

/// The server's words when something already exists.
pub const ALREADY_EXISTS: &'static str = "already exists.";

/// The server's words when the last administrator tries to leave a yatra.
pub const LAST_YATRA_ADMIN: &'static str = "Can't delete last yatra admin";

/// How a failed new practice is explained: a practice of that name exists.
pub fn new_practice_notice(err: &AppError) -> (r: Option<ErrorNotice>)
    ensures
        r == (if error_containing(*err, ALREADY_EXISTS@) { Some(ErrorNotice::PracticeAlreadyExists) } else { None }),
{
    if error_contains(err, ALREADY_EXISTS) { Some(ErrorNotice::PracticeAlreadyExists) } else { None }
}

/// How a failed join is explained: the user is already a member.
pub fn join_yatra_notice(err: &AppError) -> (r: Option<ErrorNotice>)
    ensures
        r == (if error_ending_with(*err, ALREADY_EXISTS@) { Some(ErrorNotice::YatraAlreadyJoined) } else { None }),
{
    if error_ends_with(err, ALREADY_EXISTS) { Some(ErrorNotice::YatraAlreadyJoined) } else { None }
}

/// How a refused leave is explained: the last administrator cannot leave.
pub fn leave_yatra_notice(err: &AppError) -> (r: Option<ErrorNotice>)
    ensures
        r == (if error_ending_with(*err, LAST_YATRA_ADMIN@) { Some(ErrorNotice::LastYatraAdminCannotLeave) } else { None }),
{
    if error_ends_with(err, LAST_YATRA_ADMIN) { Some(ErrorNotice::LastYatraAdminCannotLeave) } else { None }
}

/// How a failed registration is explained: a user with that email exists.
pub fn registration_notice(err: &AppError) -> (r: Option<ErrorNotice>)
    ensures
        r == (if error_ending_with(*err, ALREADY_EXISTS@) { Some(ErrorNotice::UserAlreadyExists) } else { None }),
{
    if error_ends_with(err, ALREADY_EXISTS) { Some(ErrorNotice::UserAlreadyExists) } else { None }
}

/// How a failed password reset is explained: the link is not valid.
pub fn password_reset_notice(err: &AppError) -> (r: Option<ErrorNotice>)
    ensures
        r == (if *err == AppError::NotFound { Some(ErrorNotice::InvalidResetLink) } else { None }),
{
    match err {
        AppError::NotFound => Some(ErrorNotice::InvalidResetLink),
        _ => None,
    }
}

/// How a failed login is explained: no user has that email.
pub fn login_notice(err: &AppError) -> (r: Option<ErrorNotice>)
    ensures
        r == (if *err == AppError::NotFound { Some(ErrorNotice::LoginNotFound) } else { None }),
{
    match err {
        AppError::NotFound => Some(ErrorNotice::LoginNotFound),
        _ => None,
    }
}

/// The key under which the session token is stored.
pub const TOKEN_KEY: &'static str = "yew.token";

} // verus!
