//! Logging in to ChatGPT and the remote control of this computer, through the app server.
use crate::json::{Json, JsonModel};
use crate::text;
use vstd::prelude::*;

verus! {

/// The address that is shown beside a login.
pub const LOGIN_URL: &'static str = "https://chatgpt.com/";

// ---------------------------------------------------------------------------------------
// Errors
// ---------------------------------------------------------------------------------------

/// A field that an answer of the server must have.
#[derive(Clone, Copy, Debug, PartialEq, Eq, Structural)]
pub enum ReplyField {
    LoginId,
    AuthUrl,
    VerificationUrl,
    UserCode,
}

impl ReplyField {
    pub open spec fn key(self) -> Seq<char> {
        match self {
            ReplyField::LoginId => "loginId"@,
            ReplyField::AuthUrl => "authUrl"@,
            ReplyField::VerificationUrl => "verificationUrl"@,
            ReplyField::UserCode => "userCode"@,
        }
    }

    pub fn name(&self) -> (r: &'static str)
        ensures
            r@ == self.key(),
    {
        match self {
            ReplyField::LoginId => "loginId",
            ReplyField::AuthUrl => "authUrl",
            ReplyField::VerificationUrl => "verificationUrl",
            ReplyField::UserCode => "userCode",
        }
    }
}

/// Why a login does not go on.
#[derive(Clone, Copy, Debug, PartialEq, Eq, Structural)]
pub enum RemoteError {
    LoginPending,
    WrongLogin,
    SessionClosed,
    Missing(ReplyField),
    NotDeviceLogin,
    ForeignLoginAddress,
    ForeignDeviceAddress,
}

impl RemoteError {
    pub open spec fn says(self) -> Seq<char> {
        match self {
            RemoteError::LoginPending => "已有 ChatGPT 登录正在等待完成"@,
            RemoteError::WrongLogin => "登录任务标识不匹配"@,
            RemoteError::SessionClosed => "ChatGPT 登录会话已关闭，请重新发起登录"@,
            RemoteError::Missing(field) => "app-server 响应缺少 "@ + field.key(),
            RemoteError::NotDeviceLogin => "app-server 返回了非设备码登录结果"@,
            RemoteError::ForeignLoginAddress => "app-server 返回了非 OpenAI 官方登录地址"@,
            RemoteError::ForeignDeviceAddress =>
                "app-server 返回了非 OpenAI 官方设备验证地址"@,
        }
    }

    pub fn message(&self) -> (r: String)
        ensures
            r@ == self.says(),
    {
        match self {
            RemoteError::LoginPending => "已有 ChatGPT 登录正在等待完成".to_owned(),
            RemoteError::WrongLogin => "登录任务标识不匹配".to_owned(),
            RemoteError::SessionClosed =>
                "ChatGPT 登录会话已关闭，请重新发起登录".to_owned(),
            RemoteError::Missing(field) =>
                "app-server 响应缺少 ".to_owned().concat(field.name()),
            RemoteError::NotDeviceLogin =>
                "app-server 返回了非设备码登录结果".to_owned(),
            RemoteError::ForeignLoginAddress =>
                "app-server 返回了非 OpenAI 官方登录地址".to_owned(),
            RemoteError::ForeignDeviceAddress =>
                "app-server 返回了非 OpenAI 官方设备验证地址".to_owned(),
        }
    }
}

// ---------------------------------------------------------------------------------------
// Answers to a login
// ---------------------------------------------------------------------------------------

/// A login in the browser that has begun.
#[derive(Debug, Clone)]
pub struct ChatGptLoginStart {
    pub login_id: String,
    pub auth_url: String,
    pub chatgpt_url: String,
}

pub struct LoginStartModel {
    pub login_id: Seq<char>,
    pub auth_url: Seq<char>,
    pub chatgpt_url: Seq<char>,
}

impl View for ChatGptLoginStart {
    type V = LoginStartModel;

    open spec fn view(&self) -> LoginStartModel {
        LoginStartModel {
            login_id: self.login_id@,
            auth_url: self.auth_url@,
            chatgpt_url: self.chatgpt_url@,
        }
    }
}

/// A login by a code on another device that has begun.
#[derive(Debug, Clone)]
pub struct ChatGptDeviceLoginStart {
    pub login_id: String,
    pub verification_url: String,
    pub user_code: String,
}

pub struct DeviceLoginStartModel {
    pub login_id: Seq<char>,
    pub verification_url: Seq<char>,
    pub user_code: Seq<char>,
}

impl View for ChatGptDeviceLoginStart {
    type V = DeviceLoginStartModel;

    open spec fn view(&self) -> DeviceLoginStartModel {
        DeviceLoginStartModel {
            login_id: self.login_id@,
            verification_url: self.verification_url@,
            user_code: self.user_code@,
        }
    }
}

/// Whether an address is one of the two sites at which a login may take place.
pub open spec fn openai_login_url(url: Seq<char>) -> bool {
    text::begins(url, "https://auth.openai.com/"@) || text::begins(url, "https://chatgpt.com/"@)
}

/// The text of a field, which may not be blank.
pub open spec fn required(value: JsonModel, field: ReplyField) -> Result<Seq<char>, RemoteError> {
    match value.text_at(field.key()) {
        Some(s) => if text::is_blank(s) {
            Err(RemoteError::Missing(field))
        } else {
            Ok(s)
        },
        None => Err(RemoteError::Missing(field)),
    }
}

/// The login in the browser that an answer describes.
pub open spec fn login_start_of(value: JsonModel) -> Result<LoginStartModel, RemoteError> {
    match required(value, ReplyField::LoginId) {
        Err(e) => Err(e),
        Ok(login_id) => match required(value, ReplyField::AuthUrl) {
            Err(e) => Err(e),
            Ok(auth_url) => if !openai_login_url(auth_url) {
                Err(RemoteError::ForeignLoginAddress)
            } else {
                Ok(LoginStartModel { login_id, auth_url, chatgpt_url: LOGIN_URL@ })
            },
        },
    }
}

/// The login by a code that an answer describes.
pub open spec fn device_login_start_of(value: JsonModel) -> Result<
    DeviceLoginStartModel,
    RemoteError,
> {
    if value.text_at("type"@) != Some("chatgptDeviceCode"@) {
        Err(RemoteError::NotDeviceLogin)
    } else {
        match required(value, ReplyField::LoginId) {
            Err(e) => Err(e),
            Ok(login_id) => match required(value, ReplyField::VerificationUrl) {
                Err(e) => Err(e),
                Ok(verification_url) => match required(value, ReplyField::UserCode) {
                    Err(e) => Err(e),
                    Ok(user_code) => if !openai_login_url(verification_url) {
                        Err(RemoteError::ForeignDeviceAddress)
                    } else {
                        Ok(DeviceLoginStartModel { login_id, verification_url, user_code })
                    },
                },
            },
        }
    }
}

pub fn is_openai_login_url(url: &str) -> (r: bool)
    ensures
        r == openai_login_url(url@),
{
    let chars = text::chars_of(url);
    text::starts_with(chars.as_slice(), text::chars_of("https://auth.openai.com/").as_slice())
        || text::starts_with(chars.as_slice(), text::chars_of("https://chatgpt.com/").as_slice())
}

pub fn required_string(value: &Json, field: ReplyField) -> (r: Result<String, RemoteError>)
    ensures
        match r {
            Ok(s) => required(value@, field) == Ok::<Seq<char>, RemoteError>(s@),
            Err(e) => required(value@, field) == Err::<Seq<char>, RemoteError>(e),
        },
{
    match value.text_at(field.name()) {
        Some(s) => if text::blank(s) {
            Err(RemoteError::Missing(field))
        } else {
            Ok(s.to_owned())
        },
        None => Err(RemoteError::Missing(field)),
    }
}

/// Reads the answer to the start of a login in the browser.
pub fn parse_chatgpt_login_start(value: &Json) -> (r: Result<ChatGptLoginStart, RemoteError>)
    ensures
        match r {
            Ok(start) => login_start_of(value@) == Ok::<LoginStartModel, RemoteError>(start@),
            Err(e) => login_start_of(value@) == Err::<LoginStartModel, RemoteError>(e),
        },
{
    let login_id = match required_string(value, ReplyField::LoginId) {
        Ok(s) => s,
        Err(e) => {
            return Err(e);
        },
    };
    let auth_url = match required_string(value, ReplyField::AuthUrl) {
        Ok(s) => s,
        Err(e) => {
            return Err(e);
        },
    };
    if !is_openai_login_url(auth_url.as_str()) {
        return Err(RemoteError::ForeignLoginAddress);
    }
    Ok(ChatGptLoginStart { login_id, auth_url, chatgpt_url: LOGIN_URL.to_owned() })
}

/// Reads the answer to the start of a login by a code.
pub fn parse_chatgpt_device_login_start(value: &Json) -> (r: Result<
    ChatGptDeviceLoginStart,
    RemoteError,
>)
    ensures
        match r {
            Ok(start) => device_login_start_of(value@) == Ok::<DeviceLoginStartModel, RemoteError>(
                start@,
            ),
            Err(e) => device_login_start_of(value@) == Err::<DeviceLoginStartModel, RemoteError>(e),
        },
{
    let by_code = match value.text_at("type") {
        Some(t) => text::same_text(t, "chatgptDeviceCode"),
        None => false,
    };
    if !by_code {
        return Err(RemoteError::NotDeviceLogin);
    }
    let login_id = match required_string(value, ReplyField::LoginId) {
        Ok(s) => s,
        Err(e) => {
            return Err(e);
        },
    };
    let verification_url = match required_string(value, ReplyField::VerificationUrl) {
        Ok(s) => s,
        Err(e) => {
            return Err(e);
        },
    };
    let user_code = match required_string(value, ReplyField::UserCode) {
        Ok(s) => s,
        Err(e) => {
            return Err(e);
        },
    };
    if !is_openai_login_url(verification_url.as_str()) {
        return Err(RemoteError::ForeignDeviceAddress);
    }
    Ok(ChatGptDeviceLoginStart { login_id, verification_url, user_code })
}

/// A login only ever leads to the sites at which it may take place.
pub proof fn law_login_stays_with_openai(value: JsonModel)
    ensures
        login_start_of(value) matches Ok(start) ==> openai_login_url(start.auth_url),
        device_login_start_of(value) matches Ok(start) ==> openai_login_url(start.verification_url),
{
}

/// Whether an answer has a text for a key that is not blank.
pub open spec fn has_text(value: JsonModel, key: Seq<char>) -> bool {
    value.text_at(key) is Some && !text::is_blank(value.text_at(key)->0)
}

/// Whether an address is at one of the two sites of OpenAI.
pub open spec fn is_at_openai(url: Seq<char>) -> bool {
    text::begins(url, "https://auth.openai.com/"@) || text::begins(url, "https://chatgpt.com/"@)
}

/// A login in the browser begins where the answer names the login and an address of OpenAI; it
/// has these two, and no other. The first that is missing is the error.
pub proof fn law_login_begins_as_answered(value: Json, r: Result<ChatGptLoginStart, RemoteError>)
    requires
        call_ensures(parse_chatgpt_login_start, (&value,), r),
    ensures
        if !has_text(value@, "loginId"@) {
            r == Err::<ChatGptLoginStart, RemoteError>(RemoteError::Missing(ReplyField::LoginId))
        } else if !has_text(value@, "authUrl"@) {
            r == Err::<ChatGptLoginStart, RemoteError>(RemoteError::Missing(ReplyField::AuthUrl))
        } else if !is_at_openai(value@.text_at("authUrl"@)->0) {
            r == Err::<ChatGptLoginStart, RemoteError>(RemoteError::ForeignLoginAddress)
        } else {
            r is Ok && Some(r->Ok_0.login_id@) == value@.text_at("loginId"@) && Some(
                r->Ok_0.auth_url@,
            ) == value@.text_at("authUrl"@) && r->Ok_0.chatgpt_url@ == "https://chatgpt.com/"@
        },
{
}

/// A login by a code begins where the answer is one for it and names the login, an address of
/// OpenAI and the code; it has these three. The first that is missing is the error.
pub proof fn law_device_login_begins_as_answered(
    value: Json,
    r: Result<ChatGptDeviceLoginStart, RemoteError>,
)
    requires
        call_ensures(parse_chatgpt_device_login_start, (&value,), r),
    ensures
        if value@.text_at("type"@) != Some("chatgptDeviceCode"@) {
            r == Err::<ChatGptDeviceLoginStart, RemoteError>(RemoteError::NotDeviceLogin)
        } else if !has_text(value@, "loginId"@) {
            r == Err::<ChatGptDeviceLoginStart, RemoteError>(
                RemoteError::Missing(ReplyField::LoginId),
            )
        } else if !has_text(value@, "verificationUrl"@) {
            r == Err::<ChatGptDeviceLoginStart, RemoteError>(
                RemoteError::Missing(ReplyField::VerificationUrl),
            )
        } else if !has_text(value@, "userCode"@) {
            r == Err::<ChatGptDeviceLoginStart, RemoteError>(
                RemoteError::Missing(ReplyField::UserCode),
            )
        } else if !is_at_openai(value@.text_at("verificationUrl"@)->0) {
            r == Err::<ChatGptDeviceLoginStart, RemoteError>(RemoteError::ForeignDeviceAddress)
        } else {
            r is Ok && Some(r->Ok_0.login_id@) == value@.text_at("loginId"@) && Some(
                r->Ok_0.verification_url@,
            ) == value@.text_at("verificationUrl"@) && Some(r->Ok_0.user_code@) == value@.text_at(
                "userCode"@,
            )
        },
{
}

/// What a missing field is reported by is its name in the answer.
pub proof fn law_missing_field_is_named(field: ReplyField, r: &'static str, message: String)
    requires
        call_ensures(ReplyField::name, (&field,), r),
        call_ensures(RemoteError::message, (&RemoteError::Missing(field),), message),
    ensures
        message@ == "app-server 响应缺少 "@ + r@,
        r@ == (match field {
            ReplyField::LoginId => "loginId"@,
            ReplyField::AuthUrl => "authUrl"@,
            ReplyField::VerificationUrl => "verificationUrl"@,
            ReplyField::UserCode => "userCode"@,
        }),
{
}

/// Each reason for which a login does not go on has words of its own.
pub proof fn law_login_errors_are_told_apart(error: RemoteError, r: String)
    requires
        call_ensures(RemoteError::message, (&error,), r),
    ensures
        match error {
            RemoteError::LoginPending => r@ == "已有 ChatGPT 登录正在等待完成"@,
            RemoteError::WrongLogin => r@ == "登录任务标识不匹配"@,
            RemoteError::SessionClosed => r@ == "ChatGPT 登录会话已关闭，请重新发起登录"@,
            RemoteError::Missing(_) => text::begins(r@, "app-server 响应缺少 "@),
            RemoteError::NotDeviceLogin => r@ == "app-server 返回了非设备码登录结果"@,
            RemoteError::ForeignLoginAddress => r@ == "app-server 返回了非 OpenAI 官方登录地址"@,
            RemoteError::ForeignDeviceAddress => r@
                == "app-server 返回了非 OpenAI 官方设备验证地址"@,
        },
{
    if let RemoteError::Missing(field) = error {
        let front = "app-server 响应缺少 "@;
        assert(r@.subrange(0, front.len() as int) =~= front);
    }
}

} // verus!
