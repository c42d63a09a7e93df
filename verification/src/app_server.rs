//! The conversation with the app server of Codex: one JSON document for each line.
use crate::json;
use crate::json::{Json, JsonModel, JsonNumber};
use crate::json_order;
use crate::number;
use crate::server_message;
use crate::table::Table;
use crate::text;
use vstd::prelude::*;

verus! {

// ---------------------------------------------------------------------------------------
// Requests
// ---------------------------------------------------------------------------------------

pub open spec fn request(id: u64, method: Seq<char>, params: Option<JsonModel>) -> JsonModel {
    let call = seq![
        ("jsonrpc"@, JsonModel::Text("2.0"@)),
        ("id"@, JsonModel::Number(JsonNumber::Unsigned(id))),
        ("method"@, JsonModel::Text(method)),
    ];
    JsonModel::Object(
        match params {
            Some(p) => call.push(("params"@, p)),
            None => call,
        },
    )
}

/// The line of a request: the document and a line feed.
pub open spec fn request_line(id: u64, method: Seq<char>, params: Option<JsonModel>) -> Seq<u8> {
    json::json_compact(json_order::tidied(request(id, method, params))).push(10)
}

/// The parameters of the first request, with the name and the version of this program.
pub open spec fn initialize_params(name: Seq<char>, version: Seq<char>) -> JsonModel {
    JsonModel::Object(
        seq![
            (
                "clientInfo"@,
                JsonModel::Object(
                    seq![
                        ("name"@, JsonModel::Text(name)),
                        ("title"@, JsonModel::Text("Codex++"@)),
                        ("version"@, JsonModel::Text(version)),
                    ],
                ),
            ),
            (
                "capabilities"@,
                JsonModel::Object(
                    seq![
                        ("experimentalApi"@, JsonModel::Bool(true)),
                        ("requestAttestation"@, JsonModel::Bool(false)),
                        ("optOutNotificationMethods"@, JsonModel::Array(Seq::empty())),
                    ],
                ),
            ),
        ],
    )
}

pub open spec fn opt_model(json: Option<Json>) -> Option<JsonModel> {
    match json {
        Some(j) => Some(j@),
        None => None,
    }
}

pub fn make_request(id: u64, method: &str, params: Option<Json>) -> (r: Json)
    ensures
        r@ == request(id, method@, opt_model(params)),
{
    broadcast use json::lemma_view;

    let ghost model = opt_model(params);
    let mut fields: Vec<(String, Json)> = Vec::new();
    fields.push(("jsonrpc".to_owned(), Json::Text("2.0".to_owned())));
    fields.push(("id".to_owned(), Json::Number(JsonNumber::Unsigned(id))));
    fields.push(("method".to_owned(), Json::Text(method.to_owned())));
    match params {
        Some(p) => {
            fields.push(("params".to_owned(), p));
        },
        None => {},
    }
    assert(json::entry_models(fields@) =~= request(id, method@, model)->Object_0);
    Json::Object(fields)
}

pub fn make_initialize_params(name: &str, version: &str) -> (r: Json)
    ensures
        r@ == initialize_params(name@, version@),
{
    broadcast use json::lemma_view;

    let ghost whole = initialize_params(name@, version@)->Object_0;
    let mut info: Vec<(String, Json)> = Vec::new();
    info.push(("name".to_owned(), Json::Text(name.to_owned())));
    info.push(("title".to_owned(), Json::Text("Codex++".to_owned())));
    info.push(("version".to_owned(), Json::Text(version.to_owned())));
    assert(json::entry_models(info@) =~= whole[0].1->Object_0);
    let info = Json::Object(info);
    let nothing: Vec<Json> = Vec::new();
    assert(json::models(nothing@) =~= Seq::empty());
    let nothing = Json::Array(nothing);
    let mut abilities: Vec<(String, Json)> = Vec::new();
    abilities.push(("experimentalApi".to_owned(), Json::Bool(true)));
    abilities.push(("requestAttestation".to_owned(), Json::Bool(false)));
    abilities.push(("optOutNotificationMethods".to_owned(), nothing));
    assert(json::entry_models(abilities@) =~= whole[1].1->Object_0);
    let abilities = Json::Object(abilities);
    let mut fields: Vec<(String, Json)> = Vec::new();
    fields.push(("clientInfo".to_owned(), info));
    fields.push(("capabilities".to_owned(), abilities));
    assert(json::entry_models(fields@) =~= whole);
    Json::Object(fields)
}

// ---------------------------------------------------------------------------------------
// Answers
// ---------------------------------------------------------------------------------------

/// How the message of a server's error is shown.
#[derive(Clone, Copy, Debug, PartialEq, Eq, Structural)]
pub enum ErrorStyle {
    /// The first words of the message.
    Bounded,
    /// The message without what may be secret in it.
    Sanitized,
}

/// What a message of the server is to a request.
pub enum Reply {
    /// It does not answer the request.
    Unrelated,
    /// It says that the request failed, and why.
    Failed(String),
    /// It brings the result.
    Answered(Json),
}

pub enum ReplyModel {
    Unrelated,
    Failed(Seq<char>),
    Answered(JsonModel),
}

impl View for Reply {
    type V = ReplyModel;

    open spec fn view(&self) -> ReplyModel {
        match *self {
            Reply::Unrelated => ReplyModel::Unrelated,
            Reply::Failed(s) => ReplyModel::Failed(s@),
            Reply::Answered(j) => ReplyModel::Answered(j@),
        }
    }
}

/// The text for an error that the server reports.
pub open spec fn error_text(error: JsonModel, style: ErrorStyle) -> Seq<char> {
    let code = match error.get("code"@) {
        Some(c) => match c.signed() {
            Some(n) => n as int,
            None => 0,
        },
        None => 0,
    };
    let message = match error.text_at("message"@) {
        Some(m) => match style {
            ErrorStyle::Bounded => server_message::bounded_message_text(m),
            ErrorStyle::Sanitized => server_message::sanitized(m),
        },
        None => "未知 app-server 错误"@,
    };
    "app-server "@ + number::signed_decimal(code) + ": "@ + message
}

/// What a message is to the request with this id: an answer has the id of its request, and an error
/// or a result, which is null where it is left out.
pub open spec fn reply_to(message: JsonModel, id: u64, style: ErrorStyle) -> ReplyModel {
    let answers = match message.get("id"@) {
        Some(n) => n.unsigned() == Some(id),
        None => false,
    };
    if !answers {
        ReplyModel::Unrelated
    } else {
        match message.get("error"@) {
            Some(error) => ReplyModel::Failed(error_text(error, style)),
            None => match message.get("result"@) {
                Some(result) => ReplyModel::Answered(result),
                None => ReplyModel::Answered(JsonModel::Null),
            },
        }
    }
}

fn describe_error(error: &Json, style: ErrorStyle) -> (r: String)
    ensures
        r@ == error_text(error@, style),
{
    let code: i64 = match error.get("code") {
        Some(c) => match c.signed() {
            Some(n) => n,
            None => 0,
        },
        None => 0,
    };
    let message = match error.text_at("message") {
        Some(m) => match style {
            ErrorStyle::Bounded => server_message::bounded_message(m),
            ErrorStyle::Sanitized => server_message::sanitize_server_message(m),
        },
        None => "未知 app-server 错误".to_owned(),
    };
    let number = text::text_of(number::signed_decimal_chars(code).as_slice());
    "app-server ".to_owned().concat(number.as_str()).concat(": ").concat(message.as_str())
}

/// Decides what a message is to the request with this id.
pub fn classify_reply(message: &Json, id: u64, style: ErrorStyle) -> (r: Reply)
    ensures
        r@ == reply_to(message@, id, style),
{
    let answers = match message.get("id") {
        Some(n) => match n.unsigned() {
            Some(given) => given == id,
            None => false,
        },
        None => false,
    };
    if !answers {
        return Reply::Unrelated;
    }
    match message.get("error") {
        Some(error) => Reply::Failed(describe_error(error, style)),
        None => match message.get("result") {
            Some(result) => Reply::Answered(result.clone()),
            None => Reply::Answered(Json::Null),
        },
    }
}

// ---------------------------------------------------------------------------------------
// Sessions
// ---------------------------------------------------------------------------------------

/// How a login ended.
pub struct LoginCompletion {
    pub success: bool,
    pub error: Option<String>,
}

pub struct CompletionModel {
    pub success: bool,
    pub error: Option<Seq<char>>,
}

impl View for LoginCompletion {
    type V = CompletionModel;

    open spec fn view(&self) -> CompletionModel {
        CompletionModel { success: self.success, error: text::opt_text(self.error) }
    }
}

/// The logins that have ended, by their ids.
pub type Completions = Map<Seq<char>, CompletionModel>;

/// The end of a login that a message reports.
pub open spec fn reported_completion(message: JsonModel) -> Option<(Seq<char>, CompletionModel)> {
    if message.text_at("method"@) == Some("account/login/completed"@) {
        match message.get("params"@) {
            Some(params) => match params.text_at("loginId"@) {
                Some(id) => Some(
                    (
                        id,
                        CompletionModel {
                            success: params.boolean_at("success"@) == Some(true),
                            error: params.text_at("error"@),
                        },
                    ),
                ),
                None => None,
            },
            None => None,
        }
    } else {
        None
    }
}

/// The ended logins once a message has been seen.
pub open spec fn noted(completions: Completions, message: JsonModel) -> Completions {
    match reported_completion(message) {
        Some((id, completion)) => completions.insert(id, completion),
        None => completions,
    }
}

/// The end of a login, if it has been seen.
pub open spec fn completion_at(completions: Completions, login_id: Seq<char>) -> Option<
    CompletionModel,
> {
    if completions.contains_key(login_id) {
        Some(completions[login_id])
    } else {
        None
    }
}

pub open spec fn opt_completion(completion: Option<LoginCompletion>) -> Option<CompletionModel> {
    match completion {
        Some(c) => Some(c@),
        None => None,
    }
}

/// The state of a session with the server.
pub struct ServerSession {
    next_id: u64,
    completions: Table<LoginCompletion>,
}

impl ServerSession {
    pub closed spec fn wf(self) -> bool {
        self.completions.wf()
    }

    /// The id of the next request.
    pub closed spec fn id(self) -> u64 {
        self.next_id
    }

    /// The logins that have ended and were not asked for yet.
    pub closed spec fn ended(self) -> Completions {
        self.completions@.map_values(|c: LoginCompletion| c@)
    }

    pub fn new() -> (r: ServerSession)
        ensures
            r.wf(),
            r.id() == 1,
            r.ended() == Completions::empty(),
    {
        let r = ServerSession { next_id: 1, completions: Table::new() };
        assert(r.ended() =~= Completions::empty());
        r
    }

    /// The id of the next request.
    pub fn next_id(&self) -> (r: u64)
        ensures
            r == self.id(),
    {
        self.next_id
    }

    /// Starts a request: its id, and the line to send.
    pub fn begin(&mut self, method: &str, params: Option<Json>) -> (r: (u64, Vec<u8>))
        requires
            old(self).wf(),
            old(self).id() < u64::MAX,
        ensures
            final(self).wf(),
            final(self).id() == old(self).id() + 1,
            final(self).ended() == old(self).ended(),
            r.0 == old(self).id(),
            r.1@ == request_line(r.0, method@, opt_model(params)),
    {
        let id = self.next_id;
        self.next_id = self.next_id + 1;
        let mut line = json::compact_json(&make_request(id, method, params));
        line.push(10);
        (id, line)
    }

    /// Notes the end of a login that a message reports.
    pub fn note(&mut self, message: &Json)
        requires
            old(self).wf(),
        ensures
            final(self).wf(),
            final(self).id() == old(self).id(),
            final(self).ended() == noted(old(self).ended(), message@),
    {
        let reports = match message.text_at("method") {
            Some(m) => text::same_text(m, "account/login/completed"),
            None => false,
        };
        if !reports {
            return ;
        }
        match message.get("params") {
            Some(params) => match params.text_at("loginId") {
                Some(id) => {
                    let success = match params.boolean_at("success") {
                        Some(b) => b,
                        None => false,
                    };
                    let completion = LoginCompletion {
                        success,
                        error: text::owned(params.text_at("error")),
                    };
                    let ghost before = self.ended();
                    let ghost model = completion@;
                    self.completions.insert(id.to_owned(), completion);
                    assert(self.ended() =~= before.insert(id@, model));
                },
                None => {},
            },
            None => {},
        }
    }

    /// Takes in a message while the answer to a request is awaited.
    pub fn receive(&mut self, id: u64, message: &Json) -> (r: Reply)
        requires
            old(self).wf(),
        ensures
            final(self).wf(),
            final(self).id() == old(self).id(),
            r@ == reply_to(message@, id, ErrorStyle::Sanitized),
            final(self).ended() == (if r@ is Unrelated {
                noted(old(self).ended(), message@)
            } else {
                old(self).ended()
            }),
    {
        let reply = classify_reply(message, id, ErrorStyle::Sanitized);
        match reply {
            Reply::Unrelated => {
                self.note(message);
                Reply::Unrelated
            },
            answer => answer,
        }
    }

    /// Hands out the end of a login, once.
    pub fn take_login_completion(&mut self, login_id: &str) -> (r: Option<LoginCompletion>)
        requires
            old(self).wf(),
        ensures
            final(self).wf(),
            final(self).id() == old(self).id(),
            final(self).ended() == old(self).ended().remove(login_id@),
            opt_completion(r) == completion_at(old(self).ended(), login_id@),
    {
        let ghost before = self.ended();
        let r = self.completions.remove(&login_id.to_owned());
        assert(self.ended() =~= before.remove(login_id@));
        r
    }
}

/// The end of a login that the server reports is handed out once: what was reported last of it comes
/// out, and nothing the next time. No other login is touched.
pub proof fn law_completion_is_taken_once(
    completions: Completions,
    message: JsonModel,
    login_id: Seq<char>,
)
    requires
        reported_completion(message) is Some,
        (reported_completion(message)->0).0 == login_id,
    ensures
        completion_at(noted(completions, message), login_id) == Some(
            (reported_completion(message)->0).1,
        ),
        completion_at(noted(completions, message).remove(login_id), login_id) is None,
        forall|other: Seq<char>|
            other != login_id ==> #[trigger] completion_at(
                noted(completions, message).remove(login_id),
                other,
            ) == completion_at(completions, other),
{
}

/// A request has its id and its method, says which protocol it is of, and has parameters where
/// there are any.
pub proof fn law_request_has_its_parts(id: u64, method: &str, params: Option<Json>, r: Json)
    requires
        call_ensures(make_request, (id, method, params), r),
    ensures
        r@.text_at("jsonrpc"@) == Some("2.0"@),
        r@.get("id"@) == Some(JsonModel::Number(JsonNumber::Unsigned(id))),
        r@.text_at("method"@) == Some(method@),
        params is Some ==> r@.get("params"@) == Some(params->0@),
        params is None ==> r@.get("params"@) is None,
{
    reveal_strlit("jsonrpc");
    reveal_strlit("id");
    reveal_strlit("method");
    reveal_strlit("params");
    assert("jsonrpc"@.len() == 7 && "id"@.len() == 2);
    assert("method"@[0] == 'm' && "params"@[0] == 'p');
    assert("method"@.len() == 6 && "params"@.len() == 6);
    let fields = request(id, method@, opt_model(params))->Object_0;
    json::lemma_entry_found(fields, 0);
    json::lemma_entry_found(fields, 1);
    json::lemma_entry_found(fields, 2);
    match params {
        Some(p) => {
            json::lemma_entry_found(fields, 3);
        },
        None => {
            json::lemma_entry_missing(fields, "params"@);
        },
    }
}

/// The line of a request ends with its only line feed as far as it is this library's, and is the
/// request, tidied.
pub proof fn law_request_is_one_document_and_a_line_feed(
    id: u64,
    method: Seq<char>,
    params: Option<JsonModel>,
)
    ensures
        request_line(id, method, params).last() == 10,
        request_line(id, method, params).drop_last() == json::json_compact(
            json_order::tidied(request(id, method, params)),
        ),
{
    let document = json::json_compact(json_order::tidied(request(id, method, params)));
    assert(document.push(10).drop_last() =~= document);
}

/// The first request says who is asking, and what it can do.
pub proof fn law_first_request_says_who_asks(name: &str, version: &str, r: Json)
    requires
        call_ensures(make_initialize_params, (name, version), r),
    ensures
        r@.get("clientInfo"@) is Some,
        r@.get("clientInfo"@)->0.text_at("name"@) == Some(name@),
        r@.get("clientInfo"@)->0.text_at("title"@) == Some("Codex++"@),
        r@.get("clientInfo"@)->0.text_at("version"@) == Some(version@),
        r@.get("capabilities"@) is Some,
        r@.get("capabilities"@)->0.boolean_at("experimentalApi"@) == Some(true),
        r@.get("capabilities"@)->0.boolean_at("requestAttestation"@) == Some(false),
        r@.get("capabilities"@)->0.get("optOutNotificationMethods"@) == Some(
            JsonModel::Array(Seq::empty()),
        ),
{
    reveal_strlit("clientInfo");
    reveal_strlit("capabilities");
    reveal_strlit("name");
    reveal_strlit("title");
    reveal_strlit("version");
    reveal_strlit("experimentalApi");
    reveal_strlit("requestAttestation");
    reveal_strlit("optOutNotificationMethods");
    assert("clientInfo"@.len() == 10 && "capabilities"@.len() == 12);
    assert("name"@.len() == 4 && "title"@.len() == 5 && "version"@.len() == 7);
    assert("experimentalApi"@.len() == 15 && "requestAttestation"@.len() == 18);
    assert("optOutNotificationMethods"@.len() == 25);
    let whole = initialize_params(name@, version@)->Object_0;
    json::lemma_entry_found(whole, 0);
    json::lemma_entry_found(whole, 1);
    let info = whole[0].1->Object_0;
    json::lemma_entry_found(info, 0);
    json::lemma_entry_found(info, 1);
    json::lemma_entry_found(info, 2);
    let abilities = whole[1].1->Object_0;
    json::lemma_entry_found(abilities, 0);
    json::lemma_entry_found(abilities, 1);
    json::lemma_entry_found(abilities, 2);
}

/// Whether a message bears an id.
pub open spec fn bears_id(message: JsonModel, id: u64) -> bool {
    message.get("id"@) is Some && message.get("id"@)->0.unsigned() == Some(id)
}

/// A message answers a request where it bears the id of it, and only there. It fails the request
/// where it has an error, and else brings the result, which is null where it is left out.
pub proof fn law_answer_bears_the_id(message: Json, id: u64, style: ErrorStyle, r: Reply)
    requires
        call_ensures(classify_reply, (&message, id, style), r),
    ensures
        r is Unrelated <==> !bears_id(message@, id),
        r is Failed <==> bears_id(message@, id) && message@.get("error"@) is Some,
        r is Failed ==> (r->Failed_0)@ == error_text(message@.get("error"@)->0, style),
        r is Answered ==> (r->Answered_0)@ == (match message@.get("result"@) {
            Some(result) => result,
            None => JsonModel::Null,
        }),
{
}

/// What is said of an error is its number, zero where it has none, and its message, shown in the
/// style that was asked for.
pub proof fn law_error_names_its_number(error: JsonModel, style: ErrorStyle)
    ensures
        ({
            let code = if error.get("code"@) is Some && error.get("code"@)->0.signed() is Some {
                error.get("code"@)->0.signed()->0 as int
            } else {
                0
            };
            let lead = "app-server "@ + number::signed_decimal(code) + ": "@;
            &&& error.text_at("message"@) is None ==> error_text(error, style) == lead
                + "未知 app-server 错误"@
            &&& error.text_at("message"@) is Some ==> error_text(error, ErrorStyle::Bounded) == lead
                + server_message::bounded_message_text(error.text_at("message"@)->0)
            &&& error.text_at("message"@) is Some ==> error_text(error, ErrorStyle::Sanitized)
                == lead + server_message::sanitized(error.text_at("message"@)->0)
        }),
{
}

/// The end of a login is reported by the one message that is for it, and names the login. The
/// login succeeded where the message says so, and not where it says nothing of it.
pub proof fn law_login_ends_as_reported(
    completions: Completions,
    message: JsonModel,
    login_id: Seq<char>,
)
    ensures
        ({
            let ended = message.text_at("method"@) == Some("account/login/completed"@)
                && message.get("params"@) is Some && message.get("params"@)->0.text_at("loginId"@)
                == Some(login_id);
            let params = message.get("params"@)->0;
            let after = noted(completions, message);
            &&& ended ==> after.contains_key(login_id)
            &&& ended ==> (after[login_id].success <==> params.boolean_at("success"@) == Some(true))
            &&& ended ==> after[login_id].error == params.text_at("error"@)
            &&& !ended ==> (after.contains_key(login_id) <==> completions.contains_key(login_id))
            &&& !ended && completions.contains_key(login_id) ==> after[login_id]
                == completions[login_id]
        }),
{
}

/// What is read of the end of a login is what its fields hold, and where there is none nothing is
/// read.
pub proof fn law_completions_are_read_by_their_fields(completion: LoginCompletion)
    ensures
        opt_completion(None) is None,
        opt_completion(Some(completion)) is Some,
        opt_completion(Some(completion))->0.success == completion.success,
        completion.error is None ==> opt_completion(Some(completion))->0.error is None,
        completion.error is Some ==> opt_completion(Some(completion))->0.error == Some(
            completion.error->0@,
        ),
{
}

/// Each request has an id of its own: the next in turn, which is also the one in the line that is
/// sent.
pub proof fn law_requests_are_numbered_in_turn(
    session: &mut ServerSession,
    method: &str,
    params: Option<Json>,
    r: (u64, Vec<u8>),
)
    requires
        call_ensures(ServerSession::begin, (session, method, params), r),
    ensures
        r.0 == old(session).id(),
        final(session).id() == old(session).id() + 1,
        final(session).ended() == old(session).ended(),
        r.1@ == request_line(
            r.0,
            method@,
            match params {
                Some(p) => Some(p@),
                None => None,
            },
        ),
{
}

/// While an answer is awaited, a message that is none of it is looked at for the end of a login,
/// and one that is an answer is not; and the end of a login is handed out once.
pub proof fn law_other_messages_are_noted(
    session: &mut ServerSession,
    id: u64,
    message: Json,
    r: Reply,
)
    requires
        call_ensures(ServerSession::receive, (session, id, &message), r),
    ensures
        final(session).id() == old(session).id(),
        r is Unrelated <==> !bears_id(message@, id),
        bears_id(message@, id) ==> final(session).ended() == old(session).ended(),
        !bears_id(message@, id) ==> final(session).ended() == noted(old(session).ended(), message@),
{
}

/// The end of a login is handed out as it was noted, and then no longer there; that of no other
/// login is touched.
pub proof fn law_noted_end_is_handed_out(
    session: &mut ServerSession,
    login_id: &str,
    other: Seq<char>,
    r: Option<LoginCompletion>,
)
    requires
        call_ensures(ServerSession::take_login_completion, (session, login_id), r),
    ensures
        r is Some <==> old(session).ended().contains_key(login_id@),
        r is Some ==> r->0.success == old(session).ended()[login_id@].success && text::opt_text(
            r->0.error,
        ) == old(session).ended()[login_id@].error,
        !final(session).ended().contains_key(login_id@),
        other != login_id@ ==> final(session).ended().contains_key(other)
            == old(session).ended().contains_key(other) && (final(session).ended().contains_key(
            other,
        ) ==> final(session).ended()[other] == old(session).ended()[other]),
{
}

} // verus!
