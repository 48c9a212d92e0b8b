//! What the forms of the app decide from what was entered: a new practice
//! and where it goes, a new report, which account changes to send, the
//! description and link of a share, and which practices are active.
use vstd::prelude::*;
use crate::chart_report::UserPractice;
use crate::charts::{ReportForm, ReportDefinition, BarGraphLayout};
use crate::model::PracticeDataType;
use crate::release_channel::{trim, trim_text};
use crate::services::concat3;
use crate::text::str_equal;

verus! {

/// The text of a percent-decoded string (`urlencoding::decode`), or `None`
/// when the decoded bytes are not UTF-8.
pub uninterp spec fn percent_decoded(data: Seq<char>) -> Option<Seq<char>>;

/// Decodes a percent-encoded string with `urlencoding::decode`. As its
/// source shows, a string without `%` comes back unchanged.
#[verifier::external_body]
fn url_decode(data: &str) -> (r: Option<String>)
    ensures
        match r {
            Some(s) => percent_decoded(data@) == Some(s@),
            None => percent_decoded(data@) is None,
        },
        !data@.contains('%') ==> r is Some && r->0@ == data@,
{
    urlencoding::decode(data).ok().map(|s| s.into_owned())
}

/// The name a new practice starts with: the one passed (percent-encoded) to
/// the form, decoded; empty when none was passed or it does not decode.
pub fn initial_practice_name(passed: Option<&str>) -> (r: String)
    ensures
        r@ == match passed {
            Some(p) => match percent_decoded(p@) {
                Some(s) => s,
                None => Seq::empty(),
            },
            None => Seq::empty(),
        },
        match passed {
            Some(p) => !p@.contains('%') ==> r@ == p@,
            None => r@.len() == 0,
        },
{
    match passed {
        Some(p) => match url_decode(p) {
            Some(s) => s,
            None => String::new(),
        },
        None => String::new(),
    }
}

/// The kind of practice named by the new-practice form.
pub open spec fn data_type_named(name: Seq<char>) -> Option<PracticeDataType> {
    if name == "int"@ {
        Some(PracticeDataType::Int)
    } else if name == "time"@ {
        Some(PracticeDataType::Time)
    } else if name == "bool"@ {
        Some(PracticeDataType::Bool)
    } else if name == "text"@ {
        Some(PracticeDataType::Text)
    } else if name == "duration"@ {
        Some(PracticeDataType::Duration)
    } else {
        None
    }
}

/// The kind of practice named by the new-practice form, if it names one.
pub fn data_type_from_name(name: &str) -> (r: Option<PracticeDataType>)
    ensures
        r == data_type_named(name@),
{
    if str_equal(name, "int") {
        Some(PracticeDataType::Int)
    } else if str_equal(name, "time") {
        Some(PracticeDataType::Time)
    } else if str_equal(name, "bool") {
        Some(PracticeDataType::Bool)
    } else if str_equal(name, "text") {
        Some(PracticeDataType::Text)
    } else if str_equal(name, "duration") {
        Some(PracticeDataType::Duration)
    } else {
        None
    }
}

/// Where a new practice goes: to the user's practices or to a yatra's.
#[derive(Clone, Debug, PartialEq)]
pub enum NewPracticeTarget {
    UserPractice,
    YatraPractice { yatra_id: String },
}

/// A new practice of the user.
#[derive(Clone, Debug, PartialEq)]
pub struct NewUserPractice {
    pub practice: String,
    pub data_type: PracticeDataType,
    pub is_active: bool,
    pub is_required: Option<bool>,
}

/// A new practice of a yatra.
#[derive(Clone, Debug, PartialEq)]
pub struct NewYatraPractice {
    pub practice: String,
    pub data_type: PracticeDataType,
}

/// The practice to create, with where it goes.
pub enum NewPracticeRequest {
    User(NewUserPractice),
    Yatra { yatra_id: String, practice: NewYatraPractice },
}

/// The practice the form creates: for the user, an active practice named by
/// the text without surrounding white space; for a yatra, the name as typed.
pub fn new_practice_request(
    target: &NewPracticeTarget,
    name: &str,
    data_type: PracticeDataType,
    is_required: Option<bool>,
) -> (r: NewPracticeRequest)
    ensures
        match *target {
            NewPracticeTarget::UserPractice => r matches NewPracticeRequest::User(p)
                && p.practice@ == trim(name@) && p.data_type == data_type && p.is_active
                && p.is_required == is_required,
            NewPracticeTarget::YatraPractice { yatra_id } => r matches NewPracticeRequest::Yatra { yatra_id: id, practice: p }
                && id@ == yatra_id@ && p.practice@ == name@ && p.data_type == data_type,
        },
{
    match target {
        NewPracticeTarget::UserPractice => NewPracticeRequest::User(NewUserPractice {
            practice: trim_text(name),
            data_type,
            is_active: true,
            is_required,
        }),
        NewPracticeTarget::YatraPractice { yatra_id } => NewPracticeRequest::Yatra {
            yatra_id: yatra_id.clone(),
            practice: NewYatraPractice { practice: name.to_owned(), data_type },
        },
    }
}

/// The kind of a new report.
#[derive(Clone, Copy, Debug, PartialEq, Eq, Structural)]
pub enum ReportType {
    Graph,
    Grid,
}

/// The kind of report chosen by name: `graph` or `grid`.
pub fn report_type_from_choice(choice: &str) -> (r: ReportType)
    requires
        choice@ == "graph"@ || choice@ == "grid"@,
    ensures
        r == (if choice@ == "graph"@ { ReportType::Graph } else { ReportType::Grid }),
{
    if str_equal(choice, "graph") { ReportType::Graph } else { ReportType::Grid }
}

/// A new empty report of the chosen kind.
pub fn new_report_form(report_type: ReportType, name: &str) -> (r: ReportForm)
    ensures
        r.name@ == name@,
        report_type == ReportType::Graph ==> (r.definition matches ReportDefinition::Graph(g)
            && g.bar_layout == BarGraphLayout::Grouped && g.traces@.len() == 0),
        report_type == ReportType::Grid ==> (r.definition matches ReportDefinition::Grid(g) && g.practices@.len() == 0),
{
    match report_type {
        ReportType::Graph => ReportForm::default_graph(name),
        ReportType::Grid => ReportForm::default_grid(name),
    }
}

/// Which account changes a saved settings form sends.
#[derive(Clone, Copy, Debug, PartialEq, Eq, Structural)]
pub struct AccountChanges {
    pub update_name: bool,
    pub update_password: bool,
}

/// The changes to send: the name when it is not empty and differs from the
/// current one, the password when one was entered.
pub fn account_changes(current_name: &str, name: &str, password: &str) -> (r: AccountChanges)
    ensures
        r.update_name == (name@.len() > 0 && name@ != current_name@),
        r.update_password == (password@.len() > 0),
{
    AccountChanges {
        update_name: !name.is_empty() && !str_equal(current_name, name),
        update_password: !password.is_empty(),
    }
}

/// The variants of a dropdown practice from what was typed: the text without
/// surrounding white space, or none when nothing is left.
pub fn dropdown_variants_input(input: &str) -> (r: Option<String>)
    ensures
        if trim(input@).len() > 0 { r is Some && r->0@ == trim(input@) } else { r is None },
{
    let t = trim_text(input);
    if t.as_str().is_empty() { None } else { Some(t) }
}

/// The description of a new share: what was typed, when it is not blank.
pub fn share_description(input: Option<&str>) -> (r: Option<String>)
    ensures
        match input {
            Some(s) => if trim(s@).len() > 0 { r is Some && r->0@ == s@ } else { r is None },
            None => r is None,
        },
{
    match input {
        Some(s) => {
            let t = trim_text(s);
            if t.as_str().is_empty() { None } else { Some(s.to_owned()) }
        },
        None => None,
    }
}

/// The link of a share on the site at `origin`.
pub fn share_url(origin: &str, share_id: &str) -> (r: String)
    ensures
        r@ == origin@ + "/shared/"@ + share_id@,
{
    concat3(origin, "/shared/", share_id)
}

impl UserPractice {
    /// The practice hidden when shown, shown when hidden.
    pub fn with_active_toggled(self) -> (r: UserPractice)
        ensures
            r == (UserPractice { is_active: !self.is_active, ..self }),
    {
        UserPractice { is_active: !self.is_active, ..self }
    }
}

/// The active practices of `v`, in order.
pub open spec fn active_of(v: Seq<UserPractice>) -> Seq<UserPractice>
    decreases v.len(),
{
    if v.len() == 0 {
        Seq::empty()
    } else if v.last().is_active {
        active_of(v.drop_last()).push(v.last())
    } else {
        active_of(v.drop_last())
    }
}

/// The active practices, in order.
pub fn active_practices(practices: Vec<UserPractice>) -> (r: Vec<UserPractice>)
    ensures
        r@ == active_of(practices@),
{
    let ghost all = practices@;
    let n = practices.len();
    let mut rest = practices;
    let mut out: Vec<UserPractice> = Vec::new();
    let mut i: usize = 0;
    assert(all.take(0) =~= Seq::<UserPractice>::empty());
    while rest.len() > 0
        invariant
            i <= all.len(),
            n == all.len(),
            rest@ == all.skip(i as int),
            out@ == active_of(all.take(i as int)),
        decreases rest@.len(),
    {
        let p = rest.remove(0);
        assert(p == all[i as int]);
        assert(all.take(i + 1).drop_last() =~= all.take(i as int));
        if p.is_active {
            out.push(p);
        }
        i += 1;
        assert(rest@ =~= all.skip(i as int));
    }
    assert(all.take(i as int) =~= all);
    out
}

} // verus!
