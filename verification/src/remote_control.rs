//! The requests of the remote control, and what its answers say.
use crate::file_name;
use crate::json;
use crate::json::{Json, JsonModel, JsonNumber};
use crate::platform::Platform;
use crate::text;
use vstd::prelude::*;

verus! {

// ---------------------------------------------------------------------------------------
// Requests
// ---------------------------------------------------------------------------------------

/// A request to the app server.
#[derive(Debug)]
pub enum RemoteCall {
    LoginStart,
    DeviceLoginStart,
    LoginCancel { login_id: String },
    AccountRead,
    StatusRead,
    Enable,
    Disable,
    PairingStart,
    PairingStatus { pairing_code: Option<String>, manual_pairing_code: Option<String> },
    ClientRevoke { environment_id: String, client_id: String },
    ClientList { environment_id: String },
}

/// A text, or null where there is none.
pub open spec fn text_or_null(s: Option<String>) -> JsonModel {
    match s {
        Some(s) => JsonModel::Text(s@),
        None => JsonModel::Null,
    }
}

impl RemoteCall {
    pub open spec fn method_name(self) -> Seq<char> {
        match self {
            RemoteCall::LoginStart => "account/login/start"@,
            RemoteCall::DeviceLoginStart => "account/login/start"@,
            RemoteCall::LoginCancel { .. } => "account/login/cancel"@,
            RemoteCall::AccountRead => "account/read"@,
            RemoteCall::StatusRead => "remoteControl/status/read"@,
            RemoteCall::Enable => "remoteControl/enable"@,
            RemoteCall::Disable => "remoteControl/disable"@,
            RemoteCall::PairingStart => "remoteControl/pairing/start"@,
            RemoteCall::PairingStatus { .. } => "remoteControl/pairing/status"@,
            RemoteCall::ClientRevoke { .. } => "remoteControl/client/revoke"@,
            RemoteCall::ClientList { .. } => "remoteControl/client/list"@,
        }
    }

    /// The parameters, where the request has any.
    pub open spec fn parameters(self) -> Option<JsonModel> {
        match self {
            RemoteCall::LoginStart => Some(
                JsonModel::Object(
                    seq![
                        ("type"@, JsonModel::Text("chatgpt"@)),
                        ("useHostedLoginSuccessPage"@, JsonModel::Bool(false)),
                        ("appBrand"@, JsonModel::Text("chatgpt"@)),
                    ],
                ),
            ),
            RemoteCall::DeviceLoginStart => Some(
                JsonModel::Object(seq![("type"@, JsonModel::Text("chatgptDeviceCode"@))]),
            ),
            RemoteCall::LoginCancel { login_id } => Some(
                JsonModel::Object(seq![("loginId"@, JsonModel::Text(login_id@))]),
            ),
            RemoteCall::AccountRead => Some(
                JsonModel::Object(seq![("refreshToken"@, JsonModel::Bool(false))]),
            ),
            RemoteCall::StatusRead => None,
            RemoteCall::Enable => Some(
                JsonModel::Object(seq![("ephemeral"@, JsonModel::Bool(false))]),
            ),
            RemoteCall::Disable => Some(
                JsonModel::Object(seq![("ephemeral"@, JsonModel::Bool(false))]),
            ),
            RemoteCall::PairingStart => Some(
                JsonModel::Object(seq![("manualCode"@, JsonModel::Bool(true))]),
            ),
            RemoteCall::PairingStatus { pairing_code, manual_pairing_code } => Some(
                JsonModel::Object(
                    seq![
                        ("pairingCode"@, text_or_null(pairing_code)),
                        ("manualPairingCode"@, text_or_null(manual_pairing_code)),
                    ],
                ),
            ),
            RemoteCall::ClientRevoke { environment_id, client_id } => Some(
                JsonModel::Object(
                    seq![
                        ("environmentId"@, JsonModel::Text(environment_id@)),
                        ("clientId"@, JsonModel::Text(client_id@)),
                    ],
                ),
            ),
            RemoteCall::ClientList { environment_id } => Some(
                JsonModel::Object(
                    seq![
                        ("environmentId"@, JsonModel::Text(environment_id@)),
                        ("limit"@, JsonModel::Number(JsonNumber::Unsigned(100))),
                        ("order"@, JsonModel::Text("desc"@)),
                    ],
                ),
            ),
        }
    }

    pub fn method(&self) -> (r: &'static str)
        ensures
            r@ == self.method_name(),
    {
        match self {
            RemoteCall::LoginStart => "account/login/start",
            RemoteCall::DeviceLoginStart => "account/login/start",
            RemoteCall::LoginCancel { .. } => "account/login/cancel",
            RemoteCall::AccountRead => "account/read",
            RemoteCall::StatusRead => "remoteControl/status/read",
            RemoteCall::Enable => "remoteControl/enable",
            RemoteCall::Disable => "remoteControl/disable",
            RemoteCall::PairingStart => "remoteControl/pairing/start",
            RemoteCall::PairingStatus { .. } => "remoteControl/pairing/status",
            RemoteCall::ClientRevoke { .. } => "remoteControl/client/revoke",
            RemoteCall::ClientList { .. } => "remoteControl/client/list",
        }
    }

    pub fn params(&self) -> (r: Option<Json>)
        ensures
            match r {
                Some(p) => self.parameters() == Some(p@),
                None => self.parameters() is None,
            },
    {
        broadcast use json::lemma_view;

        let mut fields: Vec<(String, Json)> = Vec::new();
        match self {
            RemoteCall::LoginStart => {
                push_text(&mut fields, "type", "chatgpt");
                push_flag(&mut fields, "useHostedLoginSuccessPage", false);
                push_text(&mut fields, "appBrand", "chatgpt");
            },
            RemoteCall::DeviceLoginStart => {
                push_text(&mut fields, "type", "chatgptDeviceCode");
            },
            RemoteCall::LoginCancel { login_id } => {
                push_text(&mut fields, "loginId", login_id.as_str());
            },
            RemoteCall::AccountRead => {
                push_flag(&mut fields, "refreshToken", false);
            },
            RemoteCall::StatusRead => {
                return None;
            },
            RemoteCall::Enable => {
                push_flag(&mut fields, "ephemeral", false);
            },
            RemoteCall::Disable => {
                push_flag(&mut fields, "ephemeral", false);
            },
            RemoteCall::PairingStart => {
                push_flag(&mut fields, "manualCode", true);
            },
            RemoteCall::PairingStatus { pairing_code, manual_pairing_code } => {
                push_optional(&mut fields, "pairingCode", pairing_code);
                push_optional(&mut fields, "manualPairingCode", manual_pairing_code);
            },
            RemoteCall::ClientRevoke { environment_id, client_id } => {
                push_text(&mut fields, "environmentId", environment_id.as_str());
                push_text(&mut fields, "clientId", client_id.as_str());
            },
            RemoteCall::ClientList { environment_id } => {
                push_text(&mut fields, "environmentId", environment_id.as_str());
                push_field(&mut fields, "limit", Json::Number(JsonNumber::Unsigned(100)));
                push_text(&mut fields, "order", "desc");
            },
        }
        assert(json::entry_models(fields@) =~= self.parameters()->0->Object_0);
        Some(Json::Object(fields))
    }
}

fn push_field(fields: &mut Vec<(String, Json)>, key: &str, value: Json)
    ensures
        json::entry_models(final(fields)@) == json::entry_models(old(fields)@).push(
            (key@, value@),
        ),
{
    fields.push((key.to_owned(), value));
    assert(json::entry_models(fields@) =~= json::entry_models(old(fields)@).push((key@, value@)));
}

fn push_text(fields: &mut Vec<(String, Json)>, key: &str, value: &str)
    ensures
        json::entry_models(final(fields)@) == json::entry_models(old(fields)@).push(
            (key@, JsonModel::Text(value@)),
        ),
{
    push_field(fields, key, Json::Text(value.to_owned()));
}

fn push_flag(fields: &mut Vec<(String, Json)>, key: &str, value: bool)
    ensures
        json::entry_models(final(fields)@) == json::entry_models(old(fields)@).push(
            (key@, JsonModel::Bool(value)),
        ),
{
    push_field(fields, key, Json::Bool(value));
}

fn push_optional(fields: &mut Vec<(String, Json)>, key: &str, value: &Option<String>)
    ensures
        json::entry_models(final(fields)@) == json::entry_models(old(fields)@).push(
            (key@, text_or_null(*value)),
        ),
{
    match value {
        Some(s) => push_text(fields, key, s.as_str()),
        None => push_field(fields, key, Json::Null),
    }
}

// ---------------------------------------------------------------------------------------
// Answers
// ---------------------------------------------------------------------------------------

/// A device that may control this computer.
#[derive(Debug, Clone)]
pub struct RemoteControlClient {
    pub client_id: String,
    pub display_name: Option<String>,
    pub device_type: Option<String>,
    pub platform: Option<String>,
    pub os_version: Option<String>,
    pub device_model: Option<String>,
    pub app_version: Option<String>,
    pub last_seen_at: Option<i64>,
}

/// The codes with which a device is connected.
#[derive(Debug, Clone)]
pub struct RemoteControlPairing {
    pub pairing_code: String,
    pub manual_pairing_code: Option<String>,
    pub environment_id: String,
    pub expires_at: i64,
}

/// The account, the state of the remote control and the devices that use it.
#[derive(Debug, Clone)]
pub struct RemoteControlSnapshot {
    pub account_type: String,
    pub account_label: Option<String>,
    pub plan_type: Option<String>,
    pub requires_openai_auth: bool,
    pub status: String,
    pub server_name: String,
    pub installation_id: String,
    pub environment_id: Option<String>,
    pub clients: Vec<RemoteControlClient>,
}

pub struct SnapshotModel {
    pub account_type: Seq<char>,
    pub account_label: Option<Seq<char>>,
    pub plan_type: Option<Seq<char>>,
    pub requires_openai_auth: bool,
    pub status: Seq<char>,
    pub server_name: Seq<char>,
    pub installation_id: Seq<char>,
    pub environment_id: Option<Seq<char>>,
    pub clients: Seq<RemoteControlClient>,
}

impl View for RemoteControlSnapshot {
    type V = SnapshotModel;

    open spec fn view(&self) -> SnapshotModel {
        SnapshotModel {
            account_type: self.account_type@,
            account_label: text::opt_text(self.account_label),
            plan_type: text::opt_text(self.plan_type),
            requires_openai_auth: self.requires_openai_auth,
            status: self.status@,
            server_name: self.server_name@,
            installation_id: self.installation_id@,
            environment_id: text::opt_text(self.environment_id),
            clients: self.clients@,
        }
    }
}

/// A text at a key, or another one where there is none.
pub open spec fn text_at_or(value: JsonModel, key: Seq<char>, default: Seq<char>) -> Seq<char> {
    match value.text_at(key) {
        Some(s) => s,
        None => default,
    }
}

/// The account in the answer about it, null where it is left out.
pub open spec fn account_in(answer: JsonModel) -> JsonModel {
    match answer.get("account"@) {
        Some(a) => a,
        None => JsonModel::Null,
    }
}

/// What the answers about the account and about the remote control say, with the devices.
pub open spec fn snapshot_of(
    account: JsonModel,
    remote: JsonModel,
    clients: Seq<RemoteControlClient>,
) -> SnapshotModel {
    SnapshotModel {
        account_type: text_at_or(account_in(account), "type"@, "none"@),
        account_label: account_in(account).text_at("email"@),
        plan_type: account_in(account).text_at("planType"@),
        requires_openai_auth: account.boolean_at("requiresOpenaiAuth"@) == Some(true),
        status: text_at_or(remote, "status"@, "disabled"@),
        server_name: text_at_or(remote, "serverName"@, ""@),
        installation_id: text_at_or(remote, "installationId"@, ""@),
        environment_id: remote.text_at("environmentId"@),
        clients,
    }
}

/// The environment whose devices are listed.
pub fn remote_environment(remote: &Json) -> (r: Option<String>)
    ensures
        text::opt_text(r) == remote@.text_at("environmentId"@),
{
    text::owned(remote.text_at("environmentId"))
}

/// Puts together what the answers about the account and about the remote control say.
pub fn remote_snapshot(account: &Json, remote: &Json, clients: Vec<RemoteControlClient>) -> (r:
    RemoteControlSnapshot)
    ensures
        r@ == snapshot_of(account@, remote@, clients@),
{
    let absent = Json::Null;
    let holder = match account.get("account") {
        Some(a) => a,
        None => &absent,
    };
    assert(holder@ == account_in(account@));
    let requires_openai_auth = match account.boolean_at("requiresOpenaiAuth") {
        Some(b) => b,
        None => false,
    };
    RemoteControlSnapshot {
        account_type: text::owned_or(holder.text_at("type"), "none"),
        account_label: text::owned(holder.text_at("email")),
        plan_type: text::owned(holder.text_at("planType")),
        requires_openai_auth,
        status: text::owned_or(remote.text_at("status"), "disabled"),
        server_name: text::owned_or(remote.text_at("serverName"), ""),
        installation_id: text::owned_or(remote.text_at("installationId"), ""),
        environment_id: text::owned(remote.text_at("environmentId")),
        clients,
    }
}

/// The list of devices in an answer, an empty one where it is left out.
pub open spec fn listed_clients(answer: JsonModel) -> JsonModel {
    match answer.get("data"@) {
        Some(data) => data,
        None => JsonModel::Array(Seq::empty()),
    }
}

pub fn client_list(answer: &Json) -> (r: Json)
    ensures
        r@ == listed_clients(answer@),
{
    broadcast use json::lemma_view;

    match answer.get("data") {
        Some(data) => data.clone(),
        None => {
            let none: Vec<Json> = Vec::new();
            assert(json::models(none@) =~= Seq::empty());
            Json::Array(none)
        },
    }
}

/// Whether a device has used the codes.
pub fn pairing_claimed(answer: &Json) -> (r: bool)
    ensures
        r == (answer@.boolean_at("claimed"@) == Some(true)),
{
    match answer.boolean_at("claimed") {
        Some(b) => b,
        None => false,
    }
}

// ---------------------------------------------------------------------------------------
// The program that is the server
// ---------------------------------------------------------------------------------------

/// Whether an index is that of the newest of several files: none is newer, and those before it are
/// older.
pub open spec fn is_newest(modified: Seq<i128>, i: int) -> bool {
    0 <= i < modified.len() && (forall|j: int|
        0 <= j < modified.len() ==> #[trigger] modified[j] <= modified[i]) && (forall|j: int|
        0 <= j < i ==> #[trigger] modified[j] < modified[i])
}

/// The newest of several files, by the times at which they were modified.
pub fn newest(modified: &Vec<i128>) -> (r: Option<usize>)
    ensures
        match r {
            Some(i) => is_newest(modified@, i as int),
            None => modified@.len() == 0,
        },
{
    if modified.len() == 0 {
        return None;
    }
    let mut found: usize = 0;
    for i in 1..modified.len()
        invariant
            found < i <= modified@.len(),
            forall|j: int| 0 <= j < i ==> #[trigger] modified@[j] <= modified@[found as int],
            forall|j: int| 0 <= j < found ==> #[trigger] modified@[j] < modified@[found as int],
    {
        if modified[i] > modified[found] {
            found = i;
        }
    }
    Some(found)
}

/// The file name of the program.
pub open spec fn program_name(platform: Platform) -> Seq<char> {
    if platform == Platform::Windows {
        "codex.exe"@
    } else {
        "codex"@
    }
}

pub fn codex_program_name(platform: Platform) -> (r: &'static str)
    ensures
        r@ == program_name(platform),
{
    if platform == Platform::Windows {
        "codex.exe"
    } else {
        "codex"
    }
}

/// Whether the desktop application is a bundle, in which the program stands under
/// `Contents/Resources` and not under `resources`.
pub fn is_application_bundle(directory_name: &str) -> (r: bool)
    ensures
        r == (file_name::extension_of(directory_name@) == Some("app"@)),
{
    match file_name::extension(text::chars_of(directory_name).as_slice()) {
        Some(e) => text::same_chars(e.as_slice(), text::chars_of("app").as_slice()),
        None => false,
    }
}

// ---------------------------------------------------------------------------------------
// What requests and answers say
// ---------------------------------------------------------------------------------------

/// What a snapshot shows: all the devices that were given, in their order; of the account its
/// type, or `none`, its address and its plan; whether a login is needed, which only a `true`
/// says; and of the remote control its state, or `disabled`, its names, which may be empty, and
/// its environment.
pub proof fn law_snapshot_shows_what_was_answered(
    account: Json,
    remote: Json,
    clients: Vec<RemoteControlClient>,
    r: RemoteControlSnapshot,
)
    requires
        call_ensures(remote_snapshot, (&account, &remote, clients), r),
    ensures
        r.clients@.len() == clients@.len(),
        forall|i: int| 0 <= i < clients@.len() ==> r.clients@[i] == #[trigger] clients@[i],
        ({
            let holder = account@.get("account"@);
            &&& r.account_type@ == (if holder is Some && holder->0.text_at("type"@) is Some {
                holder->0.text_at("type"@)->0
            } else {
                "none"@
            })
            &&& text::opt_text(r.account_label) == (if holder is Some {
                holder->0.text_at("email"@)
            } else {
                None
            })
            &&& text::opt_text(r.plan_type) == (if holder is Some {
                holder->0.text_at("planType"@)
            } else {
                None
            })
        }),
        r.requires_openai_auth <==> account@.get("requiresOpenaiAuth"@) == Some(
            JsonModel::Bool(true),
        ),
        r.status@ == (match remote@.text_at("status"@) {
            Some(s) => s,
            None => "disabled"@,
        }),
        r.server_name@ == (match remote@.text_at("serverName"@) {
            Some(s) => s,
            None => ""@,
        }),
        r.installation_id@ == (match remote@.text_at("installationId"@) {
            Some(s) => s,
            None => ""@,
        }),
        text::opt_text(r.environment_id) == remote@.text_at("environmentId"@),
{
    assert(r@ == snapshot_of(account@, remote@, clients@));
    assert(r@.clients == clients@);
}

/// The devices of an answer are what it holds at `data`, and none where it holds nothing there;
/// the environment that they are asked for is the one that the remote control names; and the
/// codes were used where the answer says so, and only there.
pub proof fn law_answers_are_taken_as_they_are(
    answer: Json,
    list: Json,
    environment: Option<String>,
    claimed: bool,
)
    requires
        call_ensures(client_list, (&answer,), list),
        call_ensures(remote_environment, (&answer,), environment),
        call_ensures(pairing_claimed, (&answer,), claimed),
    ensures
        answer@.get("data"@) is Some ==> list@ == answer@.get("data"@)->0,
        answer@.get("data"@) is None ==> list@ == JsonModel::Array(Seq::empty()),
        text::opt_text(environment) == answer@.text_at("environmentId"@),
        claimed <==> answer@.get("claimed"@) == Some(JsonModel::Bool(true)),
{
}

/// What the parameters of a request hold at a key, if anything.
pub open spec fn param(call: RemoteCall, key: Seq<char>) -> Option<JsonModel> {
    match call.parameters() {
        Some(p) => p.get(key),
        None => None,
    }
}

/// A login is called off by its id, a device is revoked by the environment and its own id, the
/// devices of an environment are asked for by it, and the codes are asked about as they were
/// given, null standing for one that was not.
pub proof fn law_requests_name_what_they_are_about(
    login_id: String,
    environment_id: String,
    client_id: String,
    code: Option<String>,
    manual_code: Option<String>,
)
    ensures
        param(RemoteCall::LoginCancel { login_id }, "loginId"@) == Some(JsonModel::Text(login_id@)),
        param(RemoteCall::ClientRevoke { environment_id, client_id }, "environmentId"@) == Some(
            JsonModel::Text(environment_id@),
        ),
        param(RemoteCall::ClientRevoke { environment_id, client_id }, "clientId"@) == Some(
            JsonModel::Text(client_id@),
        ),
        param(RemoteCall::ClientList { environment_id }, "environmentId"@) == Some(
            JsonModel::Text(environment_id@),
        ),
        param(RemoteCall::ClientList { environment_id }, "limit"@) == Some(
            JsonModel::Number(JsonNumber::Unsigned(100)),
        ),
        param(RemoteCall::ClientList { environment_id }, "order"@) == Some(JsonModel::Text("desc"@)),
        ({
            let call = RemoteCall::PairingStatus {
                pairing_code: code,
                manual_pairing_code: manual_code,
            };
            &&& param(call, "pairingCode"@) == Some(
                match code {
                    Some(c) => JsonModel::Text(c@),
                    None => JsonModel::Null,
                },
            )
            &&& param(call, "manualPairingCode"@) == Some(
                match manual_code {
                    Some(c) => JsonModel::Text(c@),
                    None => JsonModel::Null,
                },
            )
        }),
{
    reveal_strlit("environmentId");
    reveal_strlit("clientId");
    reveal_strlit("limit");
    reveal_strlit("order");
    reveal_strlit("pairingCode");
    reveal_strlit("manualPairingCode");
    assert("environmentId"@.len() == 13 && "clientId"@.len() == 8);
    assert("limit"@[0] == 'l' && "order"@[0] == 'o' && "environmentId"@[0] == 'e');
    assert("pairingCode"@.len() == 11 && "manualPairingCode"@.len() == 17);
    json::lemma_entry_found(RemoteCall::LoginCancel { login_id }.parameters()->0->Object_0, 0);
    let revoke = RemoteCall::ClientRevoke { environment_id, client_id }.parameters()->0->Object_0;
    json::lemma_entry_found(revoke, 0);
    json::lemma_entry_found(revoke, 1);
    let list = RemoteCall::ClientList { environment_id }.parameters()->0->Object_0;
    json::lemma_entry_found(list, 0);
    json::lemma_entry_found(list, 1);
    json::lemma_entry_found(list, 2);
    let status = RemoteCall::PairingStatus {
        pairing_code: code,
        manual_pairing_code: manual_code,
    }.parameters()->0->Object_0;
    json::lemma_entry_found(status, 0);
    json::lemma_entry_found(status, 1);
}

/// How a login begins: in the browser, or by a code; both leave the account as it is read,
/// without a new token. The remote control is switched on and off for good, and connected with a
/// code that can be typed.
pub proof fn law_requests_have_their_options()
    ensures
        param(RemoteCall::LoginStart, "type"@) == Some(JsonModel::Text("chatgpt"@)),
        param(RemoteCall::LoginStart, "useHostedLoginSuccessPage"@) == Some(JsonModel::Bool(false)),
        param(RemoteCall::LoginStart, "appBrand"@) == Some(JsonModel::Text("chatgpt"@)),
        param(RemoteCall::DeviceLoginStart, "type"@) == Some(JsonModel::Text("chatgptDeviceCode"@)),
        param(RemoteCall::AccountRead, "refreshToken"@) == Some(JsonModel::Bool(false)),
        param(RemoteCall::Enable, "ephemeral"@) == Some(JsonModel::Bool(false)),
        param(RemoteCall::Disable, "ephemeral"@) == Some(JsonModel::Bool(false)),
        param(RemoteCall::PairingStart, "manualCode"@) == Some(JsonModel::Bool(true)),
        RemoteCall::StatusRead.parameters() is None,
{
    reveal_strlit("type");
    reveal_strlit("useHostedLoginSuccessPage");
    reveal_strlit("appBrand");
    assert("type"@.len() == 4 && "useHostedLoginSuccessPage"@.len() == 25 && "appBrand"@.len() == 8);
    let start = RemoteCall::LoginStart.parameters()->0->Object_0;
    json::lemma_entry_found(start, 0);
    json::lemma_entry_found(start, 1);
    json::lemma_entry_found(start, 2);
    json::lemma_entry_found(RemoteCall::DeviceLoginStart.parameters()->0->Object_0, 0);
    json::lemma_entry_found(RemoteCall::AccountRead.parameters()->0->Object_0, 0);
    json::lemma_entry_found(RemoteCall::Enable.parameters()->0->Object_0, 0);
    json::lemma_entry_found(RemoteCall::Disable.parameters()->0->Object_0, 0);
    json::lemma_entry_found(RemoteCall::PairingStart.parameters()->0->Object_0, 0);
}

/// Whether a request is one of an account, and not of the remote control.
pub open spec fn is_account_call(call: RemoteCall) -> bool {
    call is LoginStart || call is DeviceLoginStart || call is LoginCancel || call is AccountRead
}

/// The method of a request says what it is for: how it begins, whether it is about the account or
/// the remote control; and how it ends, what is done. The two ways to log in are one request with
/// different parameters.
pub proof fn law_methods_say_what_is_done(a: RemoteCall)
    ensures
        is_account_call(a) ==> text::begins(a.method_name(), "account/"@),
        !is_account_call(a) ==> text::begins(a.method_name(), "remoteControl/"@),
        a is LoginStart || a is DeviceLoginStart ==> text::ends(a.method_name(), "/login/start"@),
        a is LoginCancel ==> text::ends(a.method_name(), "/login/cancel"@),
        a is AccountRead ==> text::ends(a.method_name(), "account/read"@),
        a is StatusRead ==> text::ends(a.method_name(), "/status/read"@),
        a is Enable ==> text::ends(a.method_name(), "/enable"@),
        a is Disable ==> text::ends(a.method_name(), "/disable"@),
        a is PairingStart ==> text::ends(a.method_name(), "/pairing/start"@),
        a is PairingStatus ==> text::ends(a.method_name(), "/pairing/status"@),
        a is ClientRevoke ==> text::ends(a.method_name(), "/client/revoke"@),
        a is ClientList ==> text::ends(a.method_name(), "/client/list"@),
{
    reveal_strlit("account/");
    reveal_strlit("remoteControl/");
    reveal_strlit("/login/start");
    reveal_strlit("/login/cancel");
    reveal_strlit("account/read");
    reveal_strlit("/status/read");
    reveal_strlit("/enable");
    reveal_strlit("/disable");
    reveal_strlit("/pairing/start");
    reveal_strlit("/pairing/status");
    reveal_strlit("/client/revoke");
    reveal_strlit("/client/list");
    reveal_strlit("account/login/start");
    reveal_strlit("account/login/cancel");
    reveal_strlit("remoteControl/status/read");
    reveal_strlit("remoteControl/enable");
    reveal_strlit("remoteControl/disable");
    reveal_strlit("remoteControl/pairing/start");
    reveal_strlit("remoteControl/pairing/status");
    reveal_strlit("remoteControl/client/revoke");
    reveal_strlit("remoteControl/client/list");
    let m = a.method_name();
    if is_account_call(a) {
        assert(m.subrange(0, 8) =~= "account/"@);
    } else {
        assert(m.subrange(0, 14) =~= "remoteControl/"@);
    }
    let end = match a {
        RemoteCall::LoginStart => "/login/start"@,
        RemoteCall::DeviceLoginStart => "/login/start"@,
        RemoteCall::LoginCancel { .. } => "/login/cancel"@,
        RemoteCall::AccountRead => "account/read"@,
        RemoteCall::StatusRead => "/status/read"@,
        RemoteCall::Enable => "/enable"@,
        RemoteCall::Disable => "/disable"@,
        RemoteCall::PairingStart => "/pairing/start"@,
        RemoteCall::PairingStatus { .. } => "/pairing/status"@,
        RemoteCall::ClientRevoke { .. } => "/client/revoke"@,
        RemoteCall::ClientList { .. } => "/client/list"@,
    };
    assert(m.subrange(m.len() - end.len(), m.len() as int) =~= end);
}

/// The file that is used is the one that was modified last, and of several the first; there is
/// one wherever there are files.
pub proof fn law_newest_file_is_used(modified: Vec<i128>, r: Option<usize>)
    requires
        call_ensures(newest, (&modified,), r),
    ensures
        r is Some <==> modified@.len() > 0,
        forall|j: int|
            r is Some && 0 <= j < modified@.len() ==> (#[trigger] modified@[j])
                <= modified@[r->0 as int] && (j < r->0 ==> modified@[j] != modified@[r->0 as int]),
        r is Some ==> r->0 < modified@.len(),
{
}

/// The program is `codex` everywhere, with the ending `.exe` on Windows and only there.
pub proof fn law_program_is_named_codex(platform: Platform)
    ensures
        text::begins(program_name(platform), "codex"@),
        program_name(platform).len() == (if platform == Platform::Windows {
            9
        } else {
            5nat
        }),
        platform == Platform::Windows ==> text::ends(program_name(platform), ".exe"@),
{
    reveal_strlit("codex");
    reveal_strlit("codex.exe");
    reveal_strlit(".exe");
    assert(program_name(platform).subrange(0, 5) =~= "codex"@);
    if platform == Platform::Windows {
        assert("codex.exe"@.subrange(5, 9) =~= ".exe"@);
    }
}

/// Each request goes to the method of its own; only the two ways to log in share one.
pub proof fn law_requests_go_to_their_methods(call: RemoteCall, r: &'static str)
    requires
        call_ensures(RemoteCall::method, (&call,), r),
    ensures
        r@ == (match call {
            RemoteCall::LoginStart => "account/login/start"@,
            RemoteCall::DeviceLoginStart => "account/login/start"@,
            RemoteCall::LoginCancel { .. } => "account/login/cancel"@,
            RemoteCall::AccountRead => "account/read"@,
            RemoteCall::StatusRead => "remoteControl/status/read"@,
            RemoteCall::Enable => "remoteControl/enable"@,
            RemoteCall::Disable => "remoteControl/disable"@,
            RemoteCall::PairingStart => "remoteControl/pairing/start"@,
            RemoteCall::PairingStatus { .. } => "remoteControl/pairing/status"@,
            RemoteCall::ClientRevoke { .. } => "remoteControl/client/revoke"@,
            RemoteCall::ClientList { .. } => "remoteControl/client/list"@,
        }),
{
}

/// The parameters that are sent with a request are those that stand for it.
pub proof fn law_requests_are_sent_with_their_parameters(
    call: RemoteCall,
    r: Option<Json>,
    key: Seq<char>,
)
    requires
        call_ensures(RemoteCall::params, (&call,), r),
    ensures
        r is None <==> call is StatusRead,
        r is Some ==> r->0@ is Object && r->0@.get(key) == param(call, key),
{
}

/// A directory is an application bundle where its extension is `app`.
pub proof fn law_bundles_are_told_by_extension(
    name: &str,
    stem: Seq<char>,
    ext: Seq<char>,
    r: bool,
)
    requires
        call_ensures(is_application_bundle, (name,), r),
        stem.len() > 0,
        !ext.contains('.'),
        name@ == stem.push('.') + ext,
        name@ != seq!['.', '.'],
    ensures
        r <==> ext == "app"@,
{
    file_name::law_extension_follows_the_last_dot(stem, ext);
}

} // verus!
