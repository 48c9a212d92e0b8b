//! The server's API: the path of each request, the headers of cached
//! requests, and how an unsuccessful response becomes an error.
use vstd::prelude::*;
use crate::charts::{CreateReportForm, ReportForm, UpdateReportForm};
use crate::dates::iso_date_text;
use crate::model::{CobDate, valid_date};
use crate::text::{chars_of, push_all, string_of};

verus! {

/// The span a report covers, ending on its date.
#[derive(Clone, Copy, Debug, PartialEq, Eq, Structural)]
pub enum ReportDuration {
    Last7Days,
    Last30Days,
    Last90Days,
    Last365Days,
}

/// The name of a report span as the API takes it.
pub open spec fn duration_name(d: ReportDuration) -> Seq<char> {
    match d {
        ReportDuration::Last7Days => "Last7Days"@,
        ReportDuration::Last30Days => "Last30Days"@,
        ReportDuration::Last90Days => "Last90Days"@,
        ReportDuration::Last365Days => "Last365Days"@,
    }
}

impl ReportDuration {
    /// The name of the span as the API takes it.
    pub fn as_str(&self) -> (r: &'static str)
        ensures
            r@ == duration_name(*self),
    {
        match self {
            ReportDuration::Last7Days => "Last7Days",
            ReportDuration::Last30Days => "Last30Days",
            ReportDuration::Last90Days => "Last90Days",
            ReportDuration::Last365Days => "Last365Days",
        }
    }
}

/// Appends the characters of `s` to `out`.
fn push_str(out: &mut Vec<char>, s: &str)
    ensures
        final(out)@ == old(out)@ + s@,
{
    let v = chars_of(s);
    push_all(out, &v);
}

/// `a` followed by `b`.
pub fn concat2(a: &str, b: &str) -> (r: String)
    ensures
        r@ == a@ + b@,
{
    let mut out: Vec<char> = Vec::new();
    push_str(&mut out, a);
    push_str(&mut out, b);
    assert(out@ =~= a@ + b@);
    string_of(&out)
}

/// `a`, `b` and `c` in turn.
pub fn concat3(a: &str, b: &str, c: &str) -> (r: String)
    ensures
        r@ == a@ + b@ + c@,
{
    let mut out: Vec<char> = Vec::new();
    push_str(&mut out, a);
    push_str(&mut out, b);
    push_str(&mut out, c);
    assert(out@ =~= a@ + b@ + c@);
    string_of(&out)
}

/// `a`, `b`, `c` and `d` in turn.
pub fn concat4(a: &str, b: &str, c: &str, d: &str) -> (r: String)
    ensures
        r@ == a@ + b@ + c@ + d@,
{
    let mut out: Vec<char> = Vec::new();
    push_str(&mut out, a);
    push_str(&mut out, b);
    push_str(&mut out, c);
    push_str(&mut out, d);
    assert(out@ =~= a@ + b@ + c@ + d@);
    string_of(&out)
}

/// `a`, `b`, `c`, `d` and `e` in turn.
pub fn concat5(a: &str, b: &str, c: &str, d: &str, e: &str) -> (r: String)
    ensures
        r@ == a@ + b@ + c@ + d@ + e@,
{
    let mut out: Vec<char> = Vec::new();
    push_str(&mut out, a);
    push_str(&mut out, b);
    push_str(&mut out, c);
    push_str(&mut out, d);
    push_str(&mut out, e);
    assert(out@ =~= a@ + b@ + c@ + d@ + e@);
    string_of(&out)
}

/// The path of an API request: the API's root, then the request's path.
pub fn api_path(url: &str) -> (r: String)
    ensures
        r@ == "/api"@ + url@,
{
    concat2("/api", url)
}

/// The path: Logs a user in.
pub fn login() -> (r: String)
    ensures
        r@ == "/users/login"@,
{
    "/users/login".to_owned()
}

/// The path: Sends the link of a registration form by email.
pub fn send_confirmation_link() -> (r: String)
    ensures
        r@ == "/users/confirmation"@,
{
    "/users/confirmation".to_owned()
}

/// The path: Registers a user.
pub fn register() -> (r: String)
    ensures
        r@ == "/users"@,
{
    "/users".to_owned()
}

/// The path: Resets a password.
pub fn reset_pwd() -> (r: String)
    ensures
        r@ == "/password-reset"@,
{
    "/password-reset".to_owned()
}

/// The path: The current user.
pub fn current() -> (r: String)
    ensures
        r@ == "/user"@,
{
    "/user".to_owned()
}

/// The path: Updates the current user.
pub fn update_user() -> (r: String)
    ensures
        r@ == "/user"@,
{
    "/user".to_owned()
}

/// The path: Updates the current user's password.
pub fn update_user_password() -> (r: String)
    ensures
        r@ == "/user/password"@,
{
    "/user/password".to_owned()
}

/// The path: The user's practices.
pub fn get_user_practices() -> (r: String)
    ensures
        r@ == "/user/practices"@,
{
    "/user/practices".to_owned()
}

/// The path: Reorders the user's practices.
pub fn reorder_user_practices() -> (r: String)
    ensures
        r@ == "/user/practices/reorder"@,
{
    "/user/practices/reorder".to_owned()
}

/// The path: Creates a practice of the user.
pub fn create_user_practice() -> (r: String)
    ensures
        r@ == "/user/practices"@,
{
    "/user/practices".to_owned()
}

/// The path: The yatras of the user.
pub fn get_user_yatras() -> (r: String)
    ensures
        r@ == "/yatras"@,
{
    "/yatras".to_owned()
}

/// The path: Creates a yatra.
pub fn create_yatra() -> (r: String)
    ensures
        r@ == "/yatras"@,
{
    "/yatras".to_owned()
}

/// The path: Sends a message to support.
pub fn send_support_message() -> (r: String)
    ensures
        r@ == "/support-form"@,
{
    "/support-form".to_owned()
}

/// The path: The version of the server.
pub fn get_version() -> (r: String)
    ensures
        r@ == "/version"@,
{
    "/version".to_owned()
}

/// The path: The user's reports.
pub fn get_reports() -> (r: String)
    ensures
        r@ == "/reports"@,
{
    "/reports".to_owned()
}

/// The request that creates a report: its path and its body.
pub fn create_new_report(report: ReportForm) -> (r: (String, CreateReportForm))
    ensures
        r.0@ == "/reports"@,
        r.1 == (CreateReportForm { report }),
{
    ("/reports".to_owned(), CreateReportForm { report })
}

/// The path: The details of a signup link.
pub fn get_signup_link_details(id: &str) -> (r: String)
    ensures
        r@ == "/users/confirmation/"@ + id@,
{
    concat2("/users/confirmation/", id)
}

/// The path: A practice of the user.
pub fn get_user_practice(id: &str) -> (r: String)
    ensures
        r@ == "/user/practice/"@ + id@,
{
    concat2("/user/practice/", id)
}

/// The path: Updates a practice of the user.
pub fn update_user_practice(practice_id: &str) -> (r: String)
    ensures
        r@ == "/user/practice/"@ + practice_id@,
{
    concat2("/user/practice/", practice_id)
}

/// The path: Deletes a practice of the user.
pub fn delete_user_practice(practice: &str) -> (r: String)
    ensures
        r@ == "/user/practice/"@ + practice@,
{
    concat2("/user/practice/", practice)
}

/// The path: The shared practices of a user.
pub fn get_shared_practices(user_id: &str) -> (r: String)
    ensures
        r@ == "/share/"@ + user_id@ + "/practices"@,
{
    concat3("/share/", user_id, "/practices")
}

/// The path: The shared details of a user.
pub fn user_info(user_id: &str) -> (r: String)
    ensures
        r@ == "/share/"@ + user_id@ + "/user"@,
{
    concat3("/share/", user_id, "/user")
}

/// The path: A yatra.
pub fn get_yatra(yatra_id: &str) -> (r: String)
    ensures
        r@ == "/yatra/"@ + yatra_id@,
{
    concat2("/yatra/", yatra_id)
}

/// The path: Joins a yatra.
pub fn join_yatra(yatra_id: &str) -> (r: String)
    ensures
        r@ == "/yatra/"@ + yatra_id@ + "/join"@,
{
    concat3("/yatra/", yatra_id, "/join")
}

/// The path: Leaves a yatra.
pub fn yatra_leave(yatra_id: &str) -> (r: String)
    ensures
        r@ == "/yatra/"@ + yatra_id@ + "/leave"@,
{
    concat3("/yatra/", yatra_id, "/leave")
}

/// The path: Deletes a yatra.
pub fn delete_yatra(yatra_id: &str) -> (r: String)
    ensures
        r@ == "/yatra/"@ + yatra_id@,
{
    concat2("/yatra/", yatra_id)
}

/// The path: Updates a yatra.
pub fn update_yatra(yatra_id: &str) -> (r: String)
    ensures
        r@ == "/yatra/"@ + yatra_id@,
{
    concat2("/yatra/", yatra_id)
}

/// The path: Whether the user administers a yatra.
pub fn is_yatra_admin(yatra_id: &str) -> (r: String)
    ensures
        r@ == "/yatra/"@ + yatra_id@ + "/is_admin"@,
{
    concat3("/yatra/", yatra_id, "/is_admin")
}

/// The path: The practices of a yatra.
pub fn get_yatra_practices(yatra_id: &str) -> (r: String)
    ensures
        r@ == "/yatra/"@ + yatra_id@ + "/practices"@,
{
    concat3("/yatra/", yatra_id, "/practices")
}

/// The path: The members of a yatra.
pub fn get_yatra_users(yatra_id: &str) -> (r: String)
    ensures
        r@ == "/yatra/"@ + yatra_id@ + "/users"@,
{
    concat3("/yatra/", yatra_id, "/users")
}

/// The path: Reorders the practices of a yatra.
pub fn reorder_yatra_practices(yatra_id: &str) -> (r: String)
    ensures
        r@ == "/yatra/"@ + yatra_id@ + "/practices/reorder"@,
{
    concat3("/yatra/", yatra_id, "/practices/reorder")
}

/// The path: Creates a practice of a yatra.
pub fn create_yatra_practice(yatra_id: &str) -> (r: String)
    ensures
        r@ == "/yatra/"@ + yatra_id@ + "/practices"@,
{
    concat3("/yatra/", yatra_id, "/practices")
}

/// The path: How members' practices map to a yatra's practices.
pub fn get_yatra_user_practices(yatra_id: &str) -> (r: String)
    ensures
        r@ == "/yatra/"@ + yatra_id@ + "/user-practices"@,
{
    concat3("/yatra/", yatra_id, "/user-practices")
}

/// The path: Updates how members' practices map to a yatra's practices.
pub fn update_yatra_user_practices(yatra_id: &str) -> (r: String)
    ensures
        r@ == "/yatra/"@ + yatra_id@ + "/user-practices"@,
{
    concat3("/yatra/", yatra_id, "/user-practices")
}

/// The request that updates a report: its path and its body.
pub fn update_report(report_id: &str, report: ReportForm) -> (r: (String, UpdateReportForm))
    ensures
        r.0@ == "/report/"@ + report_id@,
        r.1 == (UpdateReportForm { report }),
{
    (concat2("/report/", report_id), UpdateReportForm { report })
}

/// The path: Deletes a report.
pub fn delete_report(report_id: &str) -> (r: String)
    ensures
        r@ == "/report/"@ + report_id@,
{
    concat2("/report/", report_id)
}

/// The path: The shared reports of a user.
pub fn get_shared_reports(user_id: &str) -> (r: String)
    ensures
        r@ == "/share/"@ + user_id@ + "/reports"@,
{
    concat3("/share/", user_id, "/reports")
}

/// The path: A practice of a yatra.
pub fn get_yatra_practice(yatra_id: &str, practice_id: &str) -> (r: String)
    ensures
        r@ == "/yatra/"@ + yatra_id@ + "/practice/"@ + practice_id@,
{
    concat4("/yatra/", yatra_id, "/practice/", practice_id)
}

/// The path: Removes a member from a yatra.
pub fn delete_yatra_user(yatra_id: &str, user_id: &str) -> (r: String)
    ensures
        r@ == "/yatra/"@ + yatra_id@ + "/users/"@ + user_id@,
{
    concat4("/yatra/", yatra_id, "/users/", user_id)
}

/// The path: Makes a member an administrator of a yatra, or not.
pub fn toggle_is_admin_yatra_user(yatra_id: &str, user_id: &str) -> (r: String)
    ensures
        r@ == "/yatra/"@ + yatra_id@ + "/users/"@ + user_id@ + "/is_admin"@,
{
    concat5("/yatra/", yatra_id, "/users/", user_id, "/is_admin")
}

/// The path: Deletes a practice of a yatra.
pub fn delete_yatra_practice(yatra_id: &str, practice_id: &str) -> (r: String)
    ensures
        r@ == "/yatra/"@ + yatra_id@ + "/practice/"@ + practice_id@,
{
    concat4("/yatra/", yatra_id, "/practice/", practice_id)
}

/// The path: Updates a practice of a yatra.
pub fn update_yatra_practice(yatra_id: &str, practice_id: &str) -> (r: String)
    ensures
        r@ == "/yatra/"@ + yatra_id@ + "/practice/"@ + practice_id@,
{
    concat4("/yatra/", yatra_id, "/practice/", practice_id)
}

/// The path: the diary of a day.
pub fn get_diary_day(date: &CobDate) -> (r: String)
    requires
        valid_date(*date),
    ensures
        r@ == "/diary/"@ + iso_date_text(*date),
{
    let d = date.to_iso_string();
    concat2("/diary/", d.as_str())
}

/// The path: saves an entry of the diary of a day.
pub fn save_diary_entry(cob: &CobDate) -> (r: String)
    requires
        valid_date(*cob),
    ensures
        r@ == "/diary/"@ + iso_date_text(*cob) + "/entry"@,
{
    let d = cob.to_iso_string();
    concat3("/diary/", d.as_str(), "/entry")
}

/// The path: saves the whole diary of a day.
pub fn save_diary_owned(cob: &CobDate) -> (r: String)
    requires
        valid_date(*cob),
    ensures
        r@ == "/diary/"@ + iso_date_text(*cob),
{
    get_diary_day(cob)
}

/// The path: the days between two dates whose diary is incomplete.
pub fn get_incomplete_days(from: &CobDate, to: &CobDate) -> (r: String)
    requires
        valid_date(*from),
        valid_date(*to),
    ensures
        r@ == "/diary/incomplete-days?from="@ + iso_date_text(*from) + "&to="@ + iso_date_text(*to),
{
    let f = from.to_iso_string();
    let t = to.to_iso_string();
    concat4("/diary/incomplete-days?from=", f.as_str(), "&to=", t.as_str())
}

/// The path: the data of a yatra on a day.
pub fn get_yatra_data(yatra_id: &str, cob_date: &CobDate) -> (r: String)
    requires
        valid_date(*cob_date),
    ensures
        r@ == "/yatra/"@ + yatra_id@ + "/data?cob_date="@ + iso_date_text(*cob_date),
{
    let d = cob_date.to_iso_string();
    concat4("/yatra/", yatra_id, "/data?cob_date=", d.as_str())
}

/// The path: the report data of the user for the span ending on a day.
pub fn get_report_data(cob: &CobDate, duration: &ReportDuration) -> (r: String)
    requires
        valid_date(*cob),
    ensures
        r@ == "/diary/"@ + iso_date_text(*cob) + "/report?duration="@ + duration_name(*duration),
{
    let d = cob.to_iso_string();
    concat4("/diary/", d.as_str(), "/report?duration=", duration.as_str())
}

/// The path: the shared report data of a user for the span ending on a day.
pub fn get_shared_report_data(user_id: &str, end_date: &CobDate, duration: &ReportDuration) -> (r: String)
    requires
        valid_date(*end_date),
    ensures
        r@ == "/share/"@ + user_id@ + "?end_date="@ + iso_date_text(*end_date) + "&duration="@
            + duration_name(*duration),
{
    let d = end_date.to_iso_string();
    let head = concat5("/share/", user_id, "?end_date=", d.as_str(), "&duration=");
    concat2(head.as_str(), duration.as_str())
}

} // verus!
