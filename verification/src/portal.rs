//! A session with the portal of Berlin Recycling: which request follows which answer.
use vstd::prelude::*;

use crate::berlin_recycling::{
    calendar_pickups, read_calendar, PortalError, PortalErrorView, BR_HOST, BR_PORTAL,
};
use crate::config::BerlinRecyclingConfig;
use crate::pickup::{views, Pickup, PickupView};
use crate::tables::TextMap;
use crate::text::{optional_text, same_text};
use crate::urls::{host_of, url_host};

verus! {

/// The requests of a session, in their order.
#[derive(Clone, Copy, Debug, PartialEq, Eq, Structural)]
pub enum PortalStep {
    /// Opening the portal, which sets the session's cookies.
    Open,
    /// Logging in.
    Login,
    /// Looking at the start page, to see whether the login held.
    CheckLogin,
    /// Asking for the dashboard, which the portal wants before anything else.
    Dashboard,
    /// Asking for the collection calendar.
    Calendar,
}

/// A value in the JSON object that a request carries.
#[derive(Debug)]
pub enum FieldValue {
    Text(String),
    Flag(bool),
    Number(u64),
}

/// A value in the JSON object that a request carries, by its text.
pub enum FieldValueView {
    Text(Seq<char>),
    Flag(bool),
    Number(int),
}

/// What a request carries.
#[derive(Debug)]
pub enum RequestBody {
    /// It is a GET request.
    Get,
    /// It is a POST request without a body, whose content type is JSON.
    PostEmpty,
    /// It is a POST request with a JSON object.
    PostFields(Vec<(String, FieldValue)>),
}

/// What a request carries, by its texts.
pub enum RequestBodyView {
    Get,
    PostEmpty,
    PostFields(Seq<(Seq<char>, FieldValueView)>),
}

/// A request to the portal.
#[derive(Debug)]
pub struct PortalRequest {
    pub url: String,
    pub body: RequestBody,
}

/// A request to the portal, by its texts.
pub struct PortalRequestView {
    pub url: Seq<char>,
    pub body: RequestBodyView,
}

impl View for FieldValue {
    type V = FieldValueView;

    open spec fn view(&self) -> FieldValueView {
        match self {
            FieldValue::Text(text) => FieldValueView::Text(text@),
            FieldValue::Flag(flag) => FieldValueView::Flag(*flag),
            FieldValue::Number(number) => FieldValueView::Number(*number as int),
        }
    }
}

impl View for RequestBody {
    type V = RequestBodyView;

    open spec fn view(&self) -> RequestBodyView {
        match self {
            RequestBody::Get => RequestBodyView::Get,
            RequestBody::PostEmpty => RequestBodyView::PostEmpty,
            RequestBody::PostFields(fields) => RequestBodyView::PostFields(
                fields@.map_values(|field: (String, FieldValue)| (field.0@, field.1@)),
            ),
        }
    }
}

impl View for PortalRequest {
    type V = PortalRequestView;

    open spec fn view(&self) -> PortalRequestView {
        PortalRequestView { url: self.url@, body: self.body@ }
    }
}

/// The fields of the login.
pub open spec fn login_fields(username: Seq<char>, password: Seq<char>) -> Seq<(Seq<char>, FieldValueView)> {
    seq![
        ("username"@, FieldValueView::Text(username)),
        ("password"@, FieldValueView::Text(password)),
        ("rememberMe"@, FieldValueView::Flag(false)),
        ("encrypted"@, FieldValueView::Flag(false)),
    ]
}

/// The fields of the request for the calendar.
pub open spec fn calendar_fields() -> Seq<(Seq<char>, FieldValueView)> {
    seq![
        ("datasettablecode"@, FieldValueView::Text("ABFUHRKALENDER"@)),
        ("startindex"@, FieldValueView::Number(0)),
        ("searchtext"@, FieldValueView::Text(""@)),
        ("rangefilter"@, FieldValueView::Text("[]"@)),
        ("ordername"@, FieldValueView::Text(""@)),
        ("orderdir"@, FieldValueView::Text(""@)),
        ("ClientParameters"@, FieldValueView::Text(""@)),
        ("headrecid"@, FieldValueView::Text(""@)),
    ]
}

impl PortalStep {
    /// The request of a step.
    pub open spec fn request_spec(self, username: Seq<char>, password: Seq<char>) -> PortalRequestView {
        match self {
            PortalStep::Open => PortalRequestView { url: BR_PORTAL@, body: RequestBodyView::Get },
            PortalStep::Login => PortalRequestView {
                url: BR_PORTAL@ + "Login.aspx/Auth"@,
                body: RequestBodyView::PostFields(login_fields(username, password)),
            },
            PortalStep::CheckLogin => PortalRequestView {
                url: BR_PORTAL@ + "Default.aspx"@,
                body: RequestBodyView::Get,
            },
            PortalStep::Dashboard => PortalRequestView {
                url: BR_PORTAL@ + "Default.aspx/GetDashboard"@,
                body: RequestBodyView::PostEmpty,
            },
            PortalStep::Calendar => PortalRequestView {
                url: BR_PORTAL@ + "Default.aspx/GetDatasetTableHead"@,
                body: RequestBodyView::PostFields(calendar_fields()),
            },
        }
    }

    /// The request of a step.
    pub fn request(&self, account: &BerlinRecyclingConfig) -> (r: PortalRequest)
        ensures
            r@ == self.request_spec(account.username@, account.password@),
    {
        let mut url = BR_PORTAL.to_owned();
        match self {
            PortalStep::Open => PortalRequest { url, body: RequestBody::Get },
            PortalStep::Login => {
                url.append("Login.aspx/Auth");
                let mut fields: Vec<(String, FieldValue)> = Vec::new();
                fields.push(("username".to_owned(), FieldValue::Text(account.username.clone())));
                fields.push(("password".to_owned(), FieldValue::Text(account.password.clone())));
                fields.push(("rememberMe".to_owned(), FieldValue::Flag(false)));
                fields.push(("encrypted".to_owned(), FieldValue::Flag(false)));
                assert(fields@.map_values(|field: (String, FieldValue)| (field.0@, field.1@)) =~= login_fields(
                    account.username@,
                    account.password@,
                ));
                PortalRequest { url, body: RequestBody::PostFields(fields) }
            },
            PortalStep::CheckLogin => {
                url.append("Default.aspx");
                PortalRequest { url, body: RequestBody::Get }
            },
            PortalStep::Dashboard => {
                url.append("Default.aspx/GetDashboard");
                PortalRequest { url, body: RequestBody::PostEmpty }
            },
            PortalStep::Calendar => {
                url.append("Default.aspx/GetDatasetTableHead");
                let mut fields: Vec<(String, FieldValue)> = Vec::new();
                fields.push(("datasettablecode".to_owned(), FieldValue::Text("ABFUHRKALENDER".to_owned())));
                fields.push(("startindex".to_owned(), FieldValue::Number(0)));
                fields.push(("searchtext".to_owned(), FieldValue::Text("".to_owned())));
                fields.push(("rangefilter".to_owned(), FieldValue::Text("[]".to_owned())));
                fields.push(("ordername".to_owned(), FieldValue::Text("".to_owned())));
                fields.push(("orderdir".to_owned(), FieldValue::Text("".to_owned())));
                fields.push(("ClientParameters".to_owned(), FieldValue::Text("".to_owned())));
                fields.push(("headrecid".to_owned(), FieldValue::Text("".to_owned())));
                assert(fields@.map_values(|field: (String, FieldValue)| (field.0@, field.1@)) =~= calendar_fields());
                PortalRequest { url, body: RequestBody::PostFields(fields) }
            },
        }
    }
}

/// How a request ended.
#[derive(Debug)]
pub enum PortalReply {
    /// It did not go through; this is why.
    Failed(String),
    /// An answer came.
    Answered(PortalAnswer),
}

/// An answer of the portal.
#[derive(Debug)]
pub struct PortalAnswer {
    /// What is wrong with it by its status, if anything is.
    pub status_error: Option<String>,
    /// The address that it came from in the end.
    pub url: String,
    /// What it holds.
    pub body: String,
}

/// What to do after a request.
#[derive(Debug)]
pub enum PortalAction {
    /// Go on with the next request.
    Send(PortalStep),
    /// The session is over, with these pickups.
    Finish(Vec<Pickup>),
    /// The session is over without pickups.
    Fail(PortalError),
}

/// What to do after a request, by its texts.
pub enum PortalActionView {
    Send(PortalStep),
    Finish(Seq<PickupView>),
    Fail(PortalErrorView),
}

impl View for PortalAction {
    type V = PortalActionView;

    open spec fn view(&self) -> PortalActionView {
        match self {
            PortalAction::Send(step) => PortalActionView::Send(*step),
            PortalAction::Finish(pickups) => PortalActionView::Finish(views(pickups@)),
            PortalAction::Fail(error) => PortalActionView::Fail(error@),
        }
    }
}

/// What to do once the start page was looked at: the login held if the answer came from the
/// portal's own host.
pub open spec fn login_verdict(host: Option<Seq<char>>, url: Seq<char>) -> PortalActionView {
    if host == Some(BR_HOST@) {
        PortalActionView::Send(PortalStep::Dashboard)
    } else {
        PortalActionView::Fail(PortalErrorView::LoginFailed(url))
    }
}

/// What to do with the answer to a request.
pub open spec fn action_after(
    step: PortalStep,
    answer: PortalAnswer,
    labels: Map<Seq<char>, Seq<char>>,
) -> PortalActionView {
    match step {
        PortalStep::Open => PortalActionView::Send(PortalStep::Login),
        PortalStep::Login => match answer.status_error {
            Some(message) => PortalActionView::Fail(PortalErrorView::Request(message@)),
            None => PortalActionView::Send(PortalStep::CheckLogin),
        },
        PortalStep::CheckLogin => login_verdict(url_host(answer.url@), answer.url@),
        PortalStep::Dashboard => PortalActionView::Send(PortalStep::Calendar),
        PortalStep::Calendar => match calendar_pickups(answer.body@, labels) {
            Ok(pickups) => PortalActionView::Finish(pickups),
            Err(error) => PortalActionView::Fail(error),
        },
    }
}

/// Decides whether the login held, given the host that the start page came from.
pub fn judge_login(host: Option<String>, url: &str) -> (r: PortalAction)
    ensures
        r@ == login_verdict(optional_text(host), url@),
{
    match host {
        Some(host) => if same_text(host.as_str(), BR_HOST) {
            PortalAction::Send(PortalStep::Dashboard)
        } else {
            PortalAction::Fail(PortalError::LoginFailed(url.to_owned()))
        },
        None => PortalAction::Fail(PortalError::LoginFailed(url.to_owned())),
    }
}

/// What to do once a request has ended.
pub open spec fn action_after_reply(
    step: PortalStep,
    reply: PortalReply,
    labels: Map<Seq<char>, Seq<char>>,
) -> PortalActionView {
    match reply {
        PortalReply::Failed(message) => PortalActionView::Fail(PortalErrorView::Request(message@)),
        PortalReply::Answered(answer) => action_after(step, answer, labels),
    }
}

/// The step that a session starts with.
pub fn first_step() -> (r: PortalStep)
    ensures
        r == PortalStep::Open,
{
    PortalStep::Open
}

/// Decides how a session goes on after a request.
pub fn after_request(step: PortalStep, reply: PortalReply, labels: &TextMap) -> (r: PortalAction)
    ensures
        r@ == action_after_reply(step, reply, labels@),
{
    match reply {
        PortalReply::Failed(message) => PortalAction::Fail(PortalError::Request(message)),
        PortalReply::Answered(answer) => match step {
            PortalStep::Open => PortalAction::Send(PortalStep::Login),
            PortalStep::Login => match answer.status_error {
                Some(message) => PortalAction::Fail(PortalError::Request(message)),
                None => PortalAction::Send(PortalStep::CheckLogin),
            },
            PortalStep::CheckLogin => {
                let host = host_of(answer.url.as_str());
                judge_login(host, answer.url.as_str())
            },
            PortalStep::Dashboard => PortalAction::Send(PortalStep::Calendar),
            PortalStep::Calendar => match read_calendar(answer.body.as_str(), labels) {
                Ok(pickups) => PortalAction::Finish(pickups),
                Err(error) => PortalAction::Fail(error),
            },
        },
    }
}

/// The place of a step in the session.
pub open spec fn step_rank(step: PortalStep) -> int {
    match step {
        PortalStep::Open => 0,
        PortalStep::Login => 1,
        PortalStep::CheckLogin => 2,
        PortalStep::Dashboard => 3,
        PortalStep::Calendar => 4,
    }
}

/// A session takes its steps one after the other, so it is over after five requests; and it comes
/// to the dashboard only by way of a start page that came from the portal's own host.
pub proof fn law_session_takes_its_steps_in_order(
    step: PortalStep,
    answer: PortalAnswer,
    labels: Map<Seq<char>, Seq<char>>,
    next: PortalStep,
)
    requires
        action_after(step, answer, labels) == PortalActionView::Send(next),
    ensures
        step_rank(next) == step_rank(step) + 1 <= 4,
        next == PortalStep::CheckLogin ==> answer.status_error is None,
        next == PortalStep::Dashboard ==> url_host(answer.url@) == Some(BR_HOST@),
{
}

/// What to do after a session whose requests have ended like this, one after the other. Where the
/// session was over before the last of them, it stays as it was.
pub open spec fn session_action(replies: Seq<PortalReply>, labels: Map<Seq<char>, Seq<char>>) -> PortalActionView
    decreases replies.len(),
{
    if replies.len() == 0 {
        PortalActionView::Send(PortalStep::Open)
    } else {
        match session_action(replies.drop_last(), labels) {
            PortalActionView::Send(step) => action_after_reply(step, replies.last(), labels),
            over => over,
        }
    }
}

/// The steps whose requests a session has sent, or is about to send, once requests have ended like
/// this.
pub open spec fn session_steps(replies: Seq<PortalReply>, labels: Map<Seq<char>, Seq<char>>) -> Seq<PortalStep>
    decreases replies.len(),
{
    if replies.len() == 0 {
        seq![PortalStep::Open]
    } else {
        let earlier = session_steps(replies.drop_last(), labels);
        match (session_action(replies.drop_last(), labels), session_action(replies, labels)) {
            (PortalActionView::Send(_), PortalActionView::Send(next)) => earlier.push(next),
            _ => earlier,
        }
    }
}

/// All steps of a session, in their order.
pub open spec fn all_steps() -> Seq<PortalStep> {
    seq![
        PortalStep::Open,
        PortalStep::Login,
        PortalStep::CheckLogin,
        PortalStep::Dashboard,
        PortalStep::Calendar,
    ]
}

/// Whether the first replies of a session are those of one that went well up to a step.
pub open spec fn went_well_until(replies: Seq<PortalReply>, rank: int) -> bool {
    &&& rank <= replies.len()
    &&& forall|i: int| 0 <= i < rank ==> (#[trigger] replies[i]) is Answered
    &&& rank > 1 ==> replies[1]->Answered_0.status_error is None
    &&& rank > 2 ==> url_host(replies[2]->Answered_0.url@) == Some(BR_HOST@)
}

/// What a session has sent and got while it goes on, and when it has finished.
proof fn lemma_session(replies: Seq<PortalReply>, labels: Map<Seq<char>, Seq<char>>)
    ensures
        session_steps(replies, labels).is_prefix_of(all_steps()),
        session_action(replies, labels) matches PortalActionView::Send(step) ==> {
            &&& replies.len() == step_rank(step)
            &&& session_steps(replies, labels) == all_steps().take(step_rank(step) + 1)
            &&& went_well_until(replies, step_rank(step))
        },
        session_action(replies, labels) matches PortalActionView::Finish(pickups) ==> {
            &&& session_steps(replies, labels) == all_steps()
            &&& went_well_until(replies, 5)
            &&& calendar_pickups(replies[4]->Answered_0.body@, labels) == Ok::<Seq<PickupView>, PortalErrorView>(
                pickups,
            )
        },
    decreases replies.len(),
{
    if replies.len() == 0 {
        assert(session_steps(replies, labels) =~= all_steps().take(1));
    } else {
        let earlier = replies.drop_last();
        lemma_session(earlier, labels);
        match session_action(earlier, labels) {
            PortalActionView::Send(step) => {
                let rank = step_rank(step);
                assert(forall|i: int| 0 <= i < rank ==> #[trigger] replies[i] == earlier[i]);
                assert(replies[rank] == replies.last());
                if rank < 4 {
                    assert(all_steps().take(rank + 2) =~= all_steps().take(rank + 1).push(all_steps()[rank + 1]));
                } else {
                    assert(all_steps().take(5) =~= all_steps());
                }
            },
            _ => {
                assert(forall|i: int| 0 <= i < earlier.len() ==> #[trigger] replies[i] == earlier[i]);
            },
        }
    }
}

/// However its requests end, a session sends those of its steps in their order, from opening the
/// portal on. One that comes to pickups has sent all five and got an answer to each: the login was
/// not refused, the start page came from the portal's own host, and the pickups are those of the
/// calendar in the last answer.
pub proof fn law_a_finished_session_has_sent_every_request(
    replies: Seq<PortalReply>,
    labels: Map<Seq<char>, Seq<char>>,
)
    ensures
        session_steps(replies, labels).is_prefix_of(all_steps()),
        session_action(replies, labels) matches PortalActionView::Finish(pickups) ==> {
            &&& session_steps(replies, labels) == all_steps()
            &&& replies.len() >= 5
            &&& forall|i: int| 0 <= i < 5 ==> (#[trigger] replies[i]) is Answered
            &&& replies[1]->Answered_0.status_error is None
            &&& url_host(replies[2]->Answered_0.url@) == Some(BR_HOST@)
            &&& calendar_pickups(replies[4]->Answered_0.body@, labels) == Ok::<Seq<PickupView>, PortalErrorView>(
                pickups,
            )
        },
{
    lemma_session(replies, labels);
}

/// Pickups come out of a session only at its last step.
pub proof fn law_pickups_come_from_the_calendar(
    step: PortalStep,
    answer: PortalAnswer,
    labels: Map<Seq<char>, Seq<char>>,
    pickups: Seq<PickupView>,
)
    requires
        action_after(step, answer, labels) == PortalActionView::Finish(pickups),
    ensures
        step == PortalStep::Calendar,
        calendar_pickups(answer.body@, labels) == Ok::<Seq<PickupView>, PortalErrorView>(pickups),
{
}

/// An answer to each request leads on to the next one: after the login only where its status is not an
/// error, which ends the session otherwise, and after the start page only where that came from the
/// portal's own host. The last answer ends the session, with its pickups or without.
pub proof fn law_each_answer_leads_where_it_should(
    answer: PortalAnswer,
    labels: Map<Seq<char>, Seq<char>>,
    pickups: Seq<PickupView>,
    error: PortalErrorView,
)
    ensures
        action_after(PortalStep::Open, answer, labels) == PortalActionView::Send(PortalStep::Login),
        answer.status_error is None ==> action_after(PortalStep::Login, answer, labels) == PortalActionView::Send(
            PortalStep::CheckLogin,
        ),
        answer.status_error matches Some(message) ==> action_after(PortalStep::Login, answer, labels)
            == PortalActionView::Fail(PortalErrorView::Request(message@)),
        url_host(answer.url@) == Some("kundenportal.berlin-recycling.de"@) ==> action_after(
            PortalStep::CheckLogin,
            answer,
            labels,
        ) == PortalActionView::Send(PortalStep::Dashboard),
        url_host(answer.url@) != Some("kundenportal.berlin-recycling.de"@) ==> action_after(
            PortalStep::CheckLogin,
            answer,
            labels,
        ) == PortalActionView::Fail(PortalErrorView::LoginFailed(answer.url@)),
        action_after(PortalStep::Dashboard, answer, labels) == PortalActionView::Send(PortalStep::Calendar),
        action_after(PortalStep::Calendar, answer, labels) == PortalActionView::Finish(pickups) <==> calendar_pickups(
            answer.body@,
            labels,
        ) == Ok::<Seq<PickupView>, PortalErrorView>(pickups),
        action_after(PortalStep::Calendar, answer, labels) == PortalActionView::Fail(error) <==> calendar_pickups(
            answer.body@,
            labels,
        ) == Err::<Seq<PickupView>, PortalErrorView>(error),
{
}

/// A request that does not go through ends the session at every step, and says why; after one that
/// does, the answer decides.
pub proof fn law_a_failed_request_ends_the_session(
    step: PortalStep,
    reply: PortalReply,
    labels: Map<Seq<char>, Seq<char>>,
)
    ensures
        reply matches PortalReply::Failed(message) ==> action_after_reply(step, reply, labels)
            == PortalActionView::Fail(PortalErrorView::Request(message@)),
        reply matches PortalReply::Answered(answer) ==> action_after_reply(step, reply, labels) == action_after(
            step,
            answer,
            labels,
        ),
{
}

/// The login holds exactly where the start page came from the portal's own host; otherwise the address
/// that it came from is what the error names.
pub proof fn law_the_login_holds_on_the_portals_host(host: Option<Seq<char>>, url: Seq<char>)
    ensures
        host == Some("kundenportal.berlin-recycling.de"@) ==> login_verdict(host, url) == PortalActionView::Send(
            PortalStep::Dashboard,
        ),
        host != Some("kundenportal.berlin-recycling.de"@) ==> login_verdict(host, url) == PortalActionView::Fail(
            PortalErrorView::LoginFailed(url),
        ),
{
}

/// The account goes into the login as it is, and into no other request; the other fields are fixed.
pub proof fn law_the_account_goes_into_the_login_alone(
    username: Seq<char>,
    password: Seq<char>,
    other_username: Seq<char>,
    other_password: Seq<char>,
    step: PortalStep,
)
    ensures
        step != PortalStep::Login ==> step.request_spec(username, password) == step.request_spec(
            other_username,
            other_password,
        ),
        PortalStep::Login.request_spec(username, password).body matches RequestBodyView::PostFields(fields) && {
            &&& fields.len() == 4
            &&& fields[0] == ("username"@, FieldValueView::Text(username))
            &&& fields[1] == ("password"@, FieldValueView::Text(password))
            &&& fields[2] == ("rememberMe"@, FieldValueView::Flag(false))
            &&& fields[3] == ("encrypted"@, FieldValueView::Flag(false))
        },
{
}

/// What a session does next is seen as it is, with its pickups or its error.
pub proof fn law_an_action_is_seen_as_it_is(action: PortalAction)
    ensures
        action matches PortalAction::Send(step) ==> action@ == PortalActionView::Send(step),
        action matches PortalAction::Finish(pickups) ==> action@ == PortalActionView::Finish(views(pickups@)),
        action matches PortalAction::Fail(error) ==> action@ == PortalActionView::Fail(error@),
{
}

/// A request is seen as it is: its address, and its fields one for one, each with its name and value.
pub proof fn law_a_request_is_seen_as_it_is(request: PortalRequest)
    ensures
        request@.url == request.url@,
        request.body is Get <==> request@.body == RequestBodyView::Get,
        request.body is PostEmpty <==> request@.body == RequestBodyView::PostEmpty,
        request.body matches RequestBody::PostFields(fields) ==> (request@.body matches RequestBodyView::PostFields(
            seen,
        ) && seen.len() == fields@.len() && forall|i: int|
            0 <= i < fields@.len() ==> (#[trigger] seen[i]).0 == fields@[i].0@ && seen[i].1 == fields@[i].1@),
{
}

/// The value of a field is seen as it is.
pub proof fn law_a_field_is_seen_as_it_is(value: FieldValue)
    ensures
        value matches FieldValue::Text(text) ==> value@ == FieldValueView::Text(text@),
        value matches FieldValue::Flag(flag) ==> value@ == FieldValueView::Flag(flag),
        value matches FieldValue::Number(number) ==> value@ == FieldValueView::Number(number as int),
{
}

} // verus!
