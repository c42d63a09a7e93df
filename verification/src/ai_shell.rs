//! The shell in which the commands of the model run on Windows.
use crate::hook_event;
use crate::json;
use crate::json::{Json, JsonModel};
use crate::platform::Platform;
use crate::text;
use vstd::prelude::*;

verus! {

/// The shell that the user prefers.
#[derive(Clone, Copy, Debug, PartialEq, Eq, Structural)]
pub enum CodexAiShell {
    PowerShell,
    Pwsh,
}

/// The shell that is used: the selected one where it is installed, else the other one where that is,
/// else Windows PowerShell.
pub fn available_ai_shell(selected: CodexAiShell, pwsh: bool, powershell: bool) -> (r: CodexAiShell)
    ensures
        r == (match selected {
            CodexAiShell::Pwsh => if pwsh {
                CodexAiShell::Pwsh
            } else {
                CodexAiShell::PowerShell
            },
            CodexAiShell::PowerShell => if !powershell && pwsh {
                CodexAiShell::Pwsh
            } else {
                CodexAiShell::PowerShell
            },
        }),
{
    match selected {
        CodexAiShell::Pwsh => {
            if pwsh {
                CodexAiShell::Pwsh
            } else {
                CodexAiShell::PowerShell
            }
        },
        CodexAiShell::PowerShell => {
            if powershell {
                CodexAiShell::PowerShell
            } else if pwsh {
                CodexAiShell::Pwsh
            } else {
                CodexAiShell::PowerShell
            }
        },
    }
}

// ---------------------------------------------------------------------------------------
// Encoded commands
// ---------------------------------------------------------------------------------------

/// The UTF-16 code units of a character.
pub open spec fn utf16_units(c: char) -> Seq<nat> {
    let v = (c as u32) as nat;
    if v < 0x10000 {
        seq![v]
    } else {
        seq![0xd800 + (v - 0x10000) as nat / 0x400, 0xdc00 + (v - 0x10000) as nat % 0x400]
    }
}

/// The two bytes of a code unit, the lower one first.
pub open spec fn unit_bytes(unit: nat) -> Seq<u8> {
    seq![(unit % 256) as u8, (unit / 256) as u8]
}

/// The bytes of a character in UTF-16, the lower byte of each unit first.
pub open spec fn char_utf16(c: char) -> Seq<u8> {
    let units = utf16_units(c);
    if units.len() == 1 {
        unit_bytes(units[0])
    } else {
        unit_bytes(units[0]) + unit_bytes(units[1])
    }
}

/// The bytes of a text in UTF-16.
pub open spec fn utf16_bytes(s: Seq<char>) -> Seq<u8>
    decreases s.len(),
{
    if s.len() == 0 {
        Seq::empty()
    } else {
        char_utf16(s[0]) + utf16_bytes(s.skip(1))
    }
}

/// The digit of base64 with the value `n`.
pub open spec fn base64_digit(n: nat) -> char {
    if n < 26 {
        (('A' as u32) + n) as char
    } else if n < 52 {
        (('a' as u32) + n - 26) as char
    } else if n < 62 {
        (('0' as u32) + n - 52) as char
    } else if n == 62 {
        '+'
    } else {
        '/'
    }
}

/// The base64 text of bytes: four digits of six bits for each three bytes, padded with `=`.
pub open spec fn base64_of(bytes: Seq<u8>) -> Seq<char>
    decreases bytes.len(),
{
    if bytes.len() == 0 {
        Seq::empty()
    } else if bytes.len() == 1 {
        let a = bytes[0] as nat;
        seq![base64_digit(a / 4), base64_digit(a % 4 * 16), '=', '=']
    } else if bytes.len() == 2 {
        let a = bytes[0] as nat;
        let b = bytes[1] as nat;
        seq![
            base64_digit(a / 4),
            base64_digit(a % 4 * 16 + b / 16),
            base64_digit(b % 16 * 4),
            '=',
        ]
    } else {
        let a = bytes[0] as nat;
        let b = bytes[1] as nat;
        let c = bytes[2] as nat;
        seq![
            base64_digit(a / 4),
            base64_digit(a % 4 * 16 + b / 16),
            base64_digit(b % 16 * 4 + c / 64),
            base64_digit(c % 64),
        ] + base64_of(bytes.skip(3))
    }
}

/// `Engine::encode` of the engine `base64::engine::general_purpose::STANDARD` gives the base64 text
/// of the bytes, in the standard alphabet of RFC 4648 and with padding.
#[verifier::external_body]
fn encode_base64(bytes: &[u8]) -> (r: String)
    ensures
        r@ == base64_of(bytes@),
{
    base64::Engine::encode(&base64::engine::general_purpose::STANDARD, bytes)
}

fn push_unit(bytes: &mut Vec<u8>, unit: u32)
    requires
        unit < 0x10000,
    ensures
        final(bytes)@ == old(bytes)@ + unit_bytes(unit as nat),
{
    bytes.push((unit % 256) as u8);
    bytes.push((unit / 256) as u8);
    assert(bytes@ =~= old(bytes)@ + unit_bytes(unit as nat));
}

fn encode_utf16(chars: &[char]) -> (r: Vec<u8>)
    ensures
        r@ == utf16_bytes(chars@),
{
    let mut r: Vec<u8> = Vec::new();
    assert(chars@.skip(0) =~= chars@);
    assert(r@ + utf16_bytes(chars@) =~= utf16_bytes(chars@));
    for i in 0..chars.len()
        invariant
            r@ + utf16_bytes(chars@.skip(i as int)) == utf16_bytes(chars@),
    {
        let c: char = chars[i];
        let ghost before = r@;
        let ghost rest = chars@.skip(i as int);
        assert(rest.skip(1) =~= chars@.skip(i + 1));
        proof {
            vstd::utf8::char_is_scalar(c);
        }
        let v: u32 = c as u32;
        if v < 0x10000 {
            push_unit(&mut r, v);
        } else {
            push_unit(&mut r, 0xd800 + (v - 0x10000) / 0x400);
            push_unit(&mut r, 0xdc00 + (v - 0x10000) % 0x400);
        }
        assert(r@ =~= before + char_utf16(c));
        assert(r@ + utf16_bytes(chars@.skip(i + 1)) =~= before + utf16_bytes(rest));
    }
    assert(r@ + utf16_bytes(chars@.skip(chars@.len() as int)) =~= r@);
    r
}

/// What stands before the encoded command.
pub open spec fn shell_invocation(shell: CodexAiShell) -> Seq<char> {
    (match shell {
        CodexAiShell::PowerShell => "powershell.exe"@,
        CodexAiShell::Pwsh => "pwsh.exe"@,
    })
        + " -NoLogo -NoProfile -NonInteractive -ExecutionPolicy Bypass -EncodedCommand "@
}

/// The command that runs `command` in the shell; none where there is nothing to run.
pub open spec fn wrapped_command(command: Seq<char>, shell: CodexAiShell) -> Option<Seq<char>> {
    if text::is_blank(command) {
        None
    } else {
        Some(shell_invocation(shell) + base64_of(utf16_bytes(command)))
    }
}

/// The command that runs `command` in the shell; none where there is nothing to run.
pub fn wrap_powershell_command(command: &str, shell: CodexAiShell) -> (r: Option<String>)
    ensures
        text::opt_text(r) == wrapped_command(command@, shell),
{
    if text::blank(command) {
        return None;
    }
    let encoded = encode_base64(encode_utf16(text::chars_of(command).as_slice()).as_slice());
    let executable = match shell {
        CodexAiShell::PowerShell => "powershell.exe".to_owned(),
        CodexAiShell::Pwsh => "pwsh.exe".to_owned(),
    };
    Some(
        executable.concat(
            " -NoLogo -NoProfile -NonInteractive -ExecutionPolicy Bypass -EncodedCommand ",
        ).concat(encoded.as_str()),
    )
}

// ---------------------------------------------------------------------------------------
// Reading encoded commands back
// ---------------------------------------------------------------------------------------

/// The value of a digit of base64.
pub open spec fn base64_value(c: char) -> nat {
    if 'A' <= c <= 'Z' {
        (c as nat - 'A' as nat) as nat
    } else if 'a' <= c <= 'z' {
        (c as nat - 'a' as nat + 26) as nat
    } else if '0' <= c <= '9' {
        (c as nat - '0' as nat + 52) as nat
    } else if c == '+' {
        62
    } else {
        63
    }
}

/// The bytes of a base64 text.
pub open spec fn base64_read(s: Seq<char>) -> Seq<u8>
    decreases s.len(),
{
    if s.len() < 4 {
        Seq::empty()
    } else {
        let a = base64_value(s[0]);
        let b = base64_value(s[1]);
        let c = base64_value(s[2]);
        let d = base64_value(s[3]);
        if s[2] == '=' {
            seq![(a * 4 + b / 16) as u8]
        } else if s[3] == '=' {
            seq![(a * 4 + b / 16) as u8, (b % 16 * 16 + c / 4) as u8]
        } else {
            seq![
                (a * 4 + b / 16) as u8,
                (b % 16 * 16 + c / 4) as u8,
                (c % 4 * 64 + d) as u8,
            ] + base64_read(s.skip(4))
        }
    }
}

/// The text of bytes in UTF-16.
pub open spec fn utf16_read(bytes: Seq<u8>) -> Seq<char>
    decreases bytes.len(),
{
    if bytes.len() < 2 {
        Seq::empty()
    } else {
        let u = bytes[0] as nat + 256 * bytes[1] as nat;
        if 0xd800 <= u < 0xdc00 && bytes.len() >= 4 {
            let w = bytes[2] as nat + 256 * bytes[3] as nat;
            seq![(0x10000 + (u - 0xd800) * 0x400 + (w - 0xdc00)) as char] + utf16_read(
                bytes.skip(4),
            )
        } else {
            seq![u as char] + utf16_read(bytes.skip(2))
        }
    }
}

proof fn lemma_base64_digit(n: nat)
    requires
        n < 64,
    ensures
        base64_value(base64_digit(n)) == n,
        base64_digit(n) != '=',
        !text::is_space(base64_digit(n)),
{
}

proof fn lemma_base64_reads_back(bytes: Seq<u8>)
    ensures
        base64_read(base64_of(bytes)) == bytes,
        forall|i: int|
            0 <= i < base64_of(bytes).len() ==> !text::is_space(#[trigger] base64_of(bytes)[i]),
        bytes.len() > 0 ==> base64_of(bytes).len() > 0,
    decreases bytes.len(),
{
    let s = base64_of(bytes);
    if bytes.len() == 0 {
        assert(base64_read(s) =~= bytes);
    } else {
        let a = bytes[0] as nat;
        let b = if bytes.len() > 1 {
            bytes[1] as nat
        } else {
            0
        };
        let c = if bytes.len() > 2 {
            bytes[2] as nat
        } else {
            0
        };
        lemma_base64_digit(a / 4);
        lemma_base64_digit(a % 4 * 16 + b / 16);
        lemma_base64_digit(b % 16 * 4 + c / 64);
        lemma_base64_digit(c % 64);
        if bytes.len() >= 3 {
            lemma_base64_reads_back(bytes.skip(3));
            assert(s.skip(4) =~= base64_of(bytes.skip(3)));
            assert forall|i: int| 0 <= i < s.len() implies !text::is_space(#[trigger] s[i]) by {
                if i >= 4 {
                    assert(s[i] == base64_of(bytes.skip(3))[i - 4]);
                }
            }
        }
        assert(base64_read(s) =~= bytes);
    }
}

/// A character is told by its number.
proof fn lemma_char_number(c: char)
    ensures
        ((c as u32) as nat) as char == c,
        (c as u32) < 0xd800 || 0xe000 <= (c as u32) <= 0x10ffff,
{
}

proof fn lemma_utf16_reads_back(s: Seq<char>)
    ensures
        utf16_read(utf16_bytes(s)) == s,
    decreases s.len(),
{
    let bytes = utf16_bytes(s);
    if s.len() == 0 {
        assert(utf16_read(bytes) =~= s);
    } else {
        lemma_utf16_reads_back(s.skip(1));
        lemma_char_number(s[0]);
        let v = (s[0] as u32) as nat;
        let rest = utf16_bytes(s.skip(1));
        if v < 0x10000 {
            assert(bytes.skip(2) =~= rest);
            assert(bytes[0] as nat + 256 * bytes[1] as nat == v);
            assert(v as char == s[0]);
            assert(utf16_read(bytes) == seq![s[0]] + utf16_read(rest));
        } else {
            assert(bytes.skip(4) =~= rest);
            let hi = 0xd800 + (v - 0x10000) as nat / 0x400;
            let lo = 0xdc00 + (v - 0x10000) as nat % 0x400;
            assert(bytes[0] as nat + 256 * bytes[1] as nat == hi);
            assert(bytes[2] as nat + 256 * bytes[3] as nat == lo);
            assert(0x10000 + (hi - 0xd800) * 0x400 + (lo - 0xdc00) == v);
            assert(v as char == s[0]);
            assert(utf16_read(bytes) == seq![s[0]] + utf16_read(rest));
        }
        assert(utf16_read(bytes) =~= s);
    }
}

/// The last word of a wrapped command, read as base64 and then as UTF-16, is the command.
pub proof fn law_wrapped_command_reads_back(command: Seq<char>, shell: CodexAiShell)
    requires
        wrapped_command(command, shell) is Some,
    ensures
        text::words(wrapped_command(command, shell)->0).len() > 0,
        utf16_read(base64_read(text::words(wrapped_command(command, shell)->0).last())) == command,
{
    let bytes = utf16_bytes(command);
    let encoded = base64_of(bytes);
    lemma_utf16_reads_back(command);
    lemma_base64_reads_back(bytes);
    if command.len() == 0 {
        assert(text::trimmed(command).len() == 0);
    }
    assert(bytes.len() > 0) by {
        assert(char_utf16(command[0]).len() >= 2);
    }
    reveal_strlit(" -NoLogo -NoProfile -NonInteractive -ExecutionPolicy Bypass -EncodedCommand ");
    let front = shell_invocation(shell);
    assert(front.last() == ' ');
    assert(front.drop_last().push(' ') =~= front);
    text::lemma_last_word(front.drop_last(), ' ', encoded);
}

// ---------------------------------------------------------------------------------------
// The hook
// ---------------------------------------------------------------------------------------

/// The commands of a list, each wrapped; none where one of them cannot be.
pub open spec fn wrapped_list(items: Seq<JsonModel>, shell: CodexAiShell) -> Option<Seq<JsonModel>>
    decreases items.len(),
{
    if items.len() == 0 {
        Some(Seq::empty())
    } else {
        match (wrapped_list(items.drop_last(), shell), items.last()) {
            (Some(before), JsonModel::Text(command)) => match wrapped_command(command, shell) {
                Some(wrapped) => Some(before.push(JsonModel::Text(wrapped))),
                None => None,
            },
            _ => None,
        }
    }
}

/// A command, or a list of commands, wrapped for the shell.
pub open spec fn wrapped_value(command: JsonModel, shell: CodexAiShell) -> Option<JsonModel> {
    match command {
        JsonModel::Text(s) => match wrapped_command(s, shell) {
            Some(wrapped) => Some(JsonModel::Text(wrapped)),
            None => None,
        },
        JsonModel::Array(items) => match wrapped_list(items, shell) {
            Some(wrapped) => Some(JsonModel::Array(wrapped)),
            None => None,
        },
        _ => None,
    }
}

proof fn lemma_unwrappable(items: Seq<JsonModel>, shell: CodexAiShell, i: int)
    requires
        0 <= i <= items.len(),
        wrapped_list(items.take(i), shell) is None,
    ensures
        wrapped_list(items, shell) is None,
    decreases items.len(),
{
    if i == items.len() {
        assert(items.take(i) =~= items);
    } else {
        assert(items.drop_last().take(i) =~= items.take(i));
        lemma_unwrappable(items.drop_last(), shell, i);
    }
}

/// Wraps a command, or a list of commands, for the shell.
pub fn wrap_command_value(command: &Json, shell: CodexAiShell) -> (r: Option<Json>)
    ensures
        match r {
            Some(v) => wrapped_value(command@, shell) == Some(v@),
            None => wrapped_value(command@, shell) is None,
        },
{
    broadcast use json::lemma_view;

    match command {
        Json::Text(s) => match wrap_powershell_command(s.as_str(), shell) {
            Some(wrapped) => Some(Json::Text(wrapped)),
            None => None,
        },
        Json::Array(items) => {
            let ghost model = json::models(items@);
            let mut list: Vec<Json> = Vec::new();
            assert(json::models(list@) =~= Seq::empty());
            for i in 0..items.len()
                invariant
                    model == json::models(items@),
                    command@ == JsonModel::Array(model),
                    wrapped_list(model.take(i as int), shell) == Some(json::models(list@)),
            {
                assert(model.take(i + 1).drop_last() =~= model.take(i as int));
                assert(model[i as int] == items@[i as int]@);
                proof {
                    if wrapped_list(model.take(i + 1), shell) is None {
                        lemma_unwrappable(model, shell, i + 1);
                    }
                }
                match items[i].text() {
                    None => {
                        return None;
                    },
                    Some(s) => match wrap_powershell_command(s, shell) {
                        None => {
                            return None;
                        },
                        Some(wrapped) => {
                            let ghost before = list@;
                            let item = Json::Text(wrapped);
                            list.push(item);
                            assert(json::models(list@) =~= json::models(before).push(item@));
                        },
                    },
                }
            }
            assert(model.take(items@.len() as int) =~= model);
            Some(Json::Array(list))
        },
        _ => None,
    }
}

/// The answer that has a tool run with another input.
pub open spec fn input_reply(input: JsonModel) -> JsonModel {
    JsonModel::Object(
        seq![
            (
                "hookSpecificOutput"@,
                JsonModel::Object(
                    seq![
                        ("hookEventName"@, JsonModel::Text("PreToolUse"@)),
                        ("updatedInput"@, input),
                    ],
                ),
            ),
        ],
    )
}

/// The answer to the use of a tool: on Windows the shell tool runs its command in the shell.
pub open spec fn shell_reply(input: JsonModel, shell: CodexAiShell, platform: Platform) -> JsonModel {
    if platform == Platform::Windows && input.text_at("tool_name"@) == Some("Bash"@) {
        match input.get("tool_input"@) {
            Some(JsonModel::Object(fields)) => match json::lookup(fields, "command"@) {
                Some(command) => match wrapped_value(command, shell) {
                    Some(wrapped) => input_reply(
                        JsonModel::Object(json::with_entry(fields, "command"@, wrapped)),
                    ),
                    None => hook_event::no_reply(),
                },
                None => hook_event::no_reply(),
            },
            _ => hook_event::no_reply(),
        }
    } else {
        hook_event::no_reply()
    }
}

fn make_input_reply(input: Json) -> (r: Json)
    ensures
        r@ == input_reply(input@),
{
    broadcast use json::lemma_view;

    let ghost model = input@;
    let mut inner: Vec<(String, Json)> = Vec::new();
    inner.push(("hookEventName".to_owned(), Json::Text("PreToolUse".to_owned())));
    inner.push(("updatedInput".to_owned(), input));
    assert(json::entry_models(inner@) =~= seq![
        ("hookEventName"@, JsonModel::Text("PreToolUse"@)),
        ("updatedInput"@, model),
    ]);
    let output = Json::Object(inner);
    let mut outer: Vec<(String, Json)> = Vec::new();
    outer.push(("hookSpecificOutput".to_owned(), output));
    assert(json::entry_models(outer@) =~= seq![("hookSpecificOutput"@, output@)]);
    Json::Object(outer)
}

/// The answer to the use of a tool.
pub fn ai_shell_hook_output(input: &Json, shell: CodexAiShell, platform: Platform) -> (r: Json)
    ensures
        r@ == shell_reply(input@, shell, platform),
{
    broadcast use json::lemma_view;

    let shell_tool = match input.text_at("tool_name") {
        Some(name) => text::same_text(name, "Bash"),
        None => false,
    };
    if platform != Platform::Windows || !shell_tool {
        return hook_event::make_no_reply();
    }
    match input.get("tool_input") {
        Some(tool_input) => match tool_input {
            Json::Object(fields) => {
                assert(tool_input@.get("command"@) == json::lookup(
                    json::entry_models(fields@),
                    "command"@,
                ));
                match tool_input.get("command") {
                    Some(command) => match wrap_command_value(command, shell) {
                        Some(wrapped) => match tool_input.clone() {
                            Json::Object(mut updated) => {
                                json::set_entry(&mut updated, "command", wrapped);
                                make_input_reply(Json::Object(updated))
                            },
                            _ => {
                                assert(false);
                                hook_event::make_no_reply()
                            },
                        },
                        None => hook_event::make_no_reply(),
                    },
                    None => hook_event::make_no_reply(),
                }
            },
            _ => hook_event::make_no_reply(),
        },
        None => hook_event::make_no_reply(),
    }
}

// ---------------------------------------------------------------------------------------
// What the hook is for
// ---------------------------------------------------------------------------------------

/// The shell that is used is the selected one where that is installed, and is installed where
/// either of the two is. Where neither is, it is Windows PowerShell.
pub proof fn law_installed_shell_is_used(
    selected: CodexAiShell,
    pwsh: bool,
    powershell: bool,
    used: CodexAiShell,
)
    requires
        call_ensures(available_ai_shell, (selected, pwsh, powershell), used),
    ensures
        selected == CodexAiShell::Pwsh && pwsh ==> used == CodexAiShell::Pwsh,
        selected == CodexAiShell::PowerShell && powershell ==> used == CodexAiShell::PowerShell,
        used == CodexAiShell::Pwsh ==> pwsh,
        used == CodexAiShell::PowerShell && pwsh ==> powershell && selected
            == CodexAiShell::PowerShell,
{
}

/// Whether a command is run by the program, with no logo, no profile and no questions, as an encoded
/// command.
pub open spec fn is_run_by(wrapped: Seq<char>, program: Seq<char>) -> bool {
    text::begins(
        wrapped,
        program
            + " -NoLogo -NoProfile -NonInteractive -ExecutionPolicy Bypass -EncodedCommand "@,
    )
}

proof fn lemma_front_begins(front: Seq<char>, rest: Seq<char>)
    ensures
        text::begins(front + rest, front),
{
    assert((front + rest).subrange(0, front.len() as int) =~= front);
}

proof fn lemma_wrapped_command(command: Seq<char>, shell: CodexAiShell)
    ensures
        match wrapped_command(command, shell) {
            Some(t) => !text::is_blank(command) && (shell == CodexAiShell::PowerShell ==> is_run_by(
                t,
                "powershell.exe"@,
            )) && (shell == CodexAiShell::Pwsh ==> is_run_by(t, "pwsh.exe"@)) && text::words(
                t,
            ).len() > 0 && utf16_read(base64_read(text::words(t).last())) == command,
            None => text::is_blank(command),
        },
{
    if !text::is_blank(command) {
        law_wrapped_command_reads_back(command, shell);
        lemma_front_begins(shell_invocation(shell), base64_of(utf16_bytes(command)));
    }
}

/// Whether a wrapped value runs a command in a shell: the program is that of the shell, and the
/// last word, read as base64 and then as UTF-16, is the command.
pub open spec fn runs_in(wrapped: JsonModel, command: JsonModel, shell: CodexAiShell) -> bool {
    match (wrapped, command) {
        (JsonModel::Text(t), JsonModel::Text(s)) => {
            &&& shell == CodexAiShell::PowerShell ==> is_run_by(t, "powershell.exe"@)
            &&& shell == CodexAiShell::Pwsh ==> is_run_by(t, "pwsh.exe"@)
            &&& text::words(t).len() > 0
            &&& utf16_read(base64_read(text::words(t).last())) == s
        },
        _ => false,
    }
}

/// Whether there is something to run: a text that is not blank.
pub open spec fn is_command(command: JsonModel) -> bool {
    match command {
        JsonModel::Text(s) => text::trimmed(s).len() > 0,
        _ => false,
    }
}

proof fn lemma_wrapped_list(items: Seq<JsonModel>, shell: CodexAiShell)
    ensures
        match wrapped_list(items, shell) {
            Some(list) => list.len() == items.len() && (forall|i: int|
                0 <= i < items.len() ==> is_command(#[trigger] items[i]) && runs_in(
                    list[i],
                    items[i],
                    shell,
                )),
            None => exists|i: int| 0 <= i < items.len() && !is_command(#[trigger] items[i]),
        },
    decreases items.len(),
{
    if items.len() > 0 {
        let front = items.drop_last();
        lemma_wrapped_list(front, shell);
        if let JsonModel::Text(s) = items.last() {
            lemma_wrapped_command(s, shell);
        }
        match wrapped_list(items, shell) {
            Some(list) => {
                let before = wrapped_list(front, shell)->0;
                assert forall|i: int| 0 <= i < items.len() implies is_command(#[trigger] items[i])
                    && runs_in(list[i], items[i], shell) by {
                    if i < front.len() {
                        assert(front[i] == items[i]);
                        assert(list[i] == before[i]);
                    }
                }
            },
            None => {
                if wrapped_list(front, shell) is None {
                    let i = choose|i: int| 0 <= i < front.len() && !is_command(#[trigger] front[i]);
                    assert(items[i] == front[i]);
                } else {
                    assert(!is_command(items[items.len() - 1]));
                }
            },
        }
    }
}

/// A command that is not blank runs in the shell that was asked for, and so does each command of
/// a list, in its place. Anything else, and a list with anything else in it, is not run.
pub proof fn law_commands_run_in_the_selected_shell(command: JsonModel, shell: CodexAiShell)
    ensures
        command is Text ==> (match wrapped_value(command, shell) {
            Some(wrapped) => is_command(command) && runs_in(wrapped, command, shell),
            None => !is_command(command),
        }),
        command matches JsonModel::Array(items) ==> (match wrapped_value(command, shell) {
            Some(JsonModel::Array(list)) => list.len() == items.len() && (forall|i: int|
                0 <= i < items.len() ==> is_command(#[trigger] items[i]) && runs_in(
                    list[i],
                    items[i],
                    shell,
                )),
            Some(_) => false,
            None => exists|i: int| 0 <= i < items.len() && !is_command(#[trigger] items[i]),
        }),
        command !is Text && command !is Array ==> wrapped_value(command, shell) is None,
{
    match command {
        JsonModel::Text(s) => {
            lemma_wrapped_command(s, shell);
        },
        JsonModel::Array(items) => {
            lemma_wrapped_list(items, shell);
        },
        _ => {},
    }
}

/// On Windows the shell tool is answered with its input as it was, but for the command, which is
/// wrapped for the shell. Nothing is answered elsewhere, for another tool, or where there is no
/// command that can be wrapped.
pub proof fn law_only_the_command_is_changed(
    input: JsonModel,
    shell: CodexAiShell,
    platform: Platform,
)
    ensures
        ({
            let reply = shell_reply(input, shell, platform);
            let tool_input = input.get("tool_input"@);
            let answered = platform == Platform::Windows && input.text_at("tool_name"@) == Some(
                "Bash"@,
            ) && tool_input is Some && tool_input->0 is Object && tool_input->0.get("command"@)
                is Some && wrapped_value(tool_input->0.get("command"@)->0, shell) is Some;
            if answered {
                let output = reply.get("hookSpecificOutput"@)->0;
                let updated = output.get("updatedInput"@)->0;
                &&& reply.get("hookSpecificOutput"@) is Some
                &&& output.text_at("hookEventName"@) == Some("PreToolUse"@)
                &&& output.get("updatedInput"@) is Some
                &&& updated.get("command"@) == wrapped_value(
                    tool_input->0.get("command"@)->0,
                    shell,
                )
                &&& forall|key: Seq<char>|
                    key != "command"@ ==> #[trigger] updated.get(key) == tool_input->0.get(key)
            } else {
                reply == JsonModel::Object(Seq::empty())
            }
        }),
{
    let tool_input = input.get("tool_input"@);
    if tool_input is Some && tool_input->0 is Object && tool_input->0.get("command"@) is Some
        && wrapped_value(tool_input->0.get("command"@)->0, shell) is Some {
        let fields = tool_input->0->Object_0;
        let wrapped = wrapped_value(tool_input->0.get("command"@)->0, shell)->0;
        json::lemma_with_entry(fields, "command"@, wrapped);
        let updated = JsonModel::Object(json::with_entry(fields, "command"@, wrapped));
        let inner = seq![
            ("hookEventName"@, JsonModel::Text("PreToolUse"@)),
            ("updatedInput"@, updated),
        ];
        reveal_strlit("hookEventName");
        reveal_strlit("updatedInput");
        assert("hookEventName"@.len() == 13 && "updatedInput"@.len() == 12);
        json::lemma_entry_found(inner, 0);
        json::lemma_entry_found(inner, 1);
        json::lemma_entry_found(seq![("hookSpecificOutput"@, JsonModel::Object(inner))], 0);
    }
}

/// A text is written in UTF-16 character by character, the lower byte of each unit first; a
/// character beyond the first plane is two units, of which the first has the higher ten bits and
/// the second the lower.
pub proof fn law_units_are_written_lower_byte_first(c: char, s: Seq<char>)
    ensures
        utf16_bytes(Seq::empty()).len() == 0,
        ({
            let bytes = utf16_bytes(seq![c] + s);
            let n = c as int;
            if n < 0x10000 {
                &&& bytes[0] == n % 256
                &&& bytes[1] == n / 256
                &&& bytes.skip(2) == utf16_bytes(s)
            } else {
                &&& bytes[0] + 256 * bytes[1] == 0xd800 + (n - 0x10000) / 0x400
                &&& bytes[2] + 256 * bytes[3] == 0xdc00 + (n - 0x10000) % 0x400
                &&& bytes.skip(4) == utf16_bytes(s)
            }
        }),
{
    let whole = seq![c] + s;
    let bytes = utf16_bytes(whole);
    lemma_char_number(c);
    assert(whole[0] == c);
    assert(whole.skip(1) =~= s);
    if (c as int) < 0x10000 {
        assert(bytes.skip(2) =~= utf16_bytes(s));
    } else {
        assert(bytes.skip(4) =~= utf16_bytes(s));
    }
}

} // verus!
