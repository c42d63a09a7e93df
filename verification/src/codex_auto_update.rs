//! The switch that keeps the desktop application of Codex from updating itself.
use crate::platform::Platform;
use vstd::prelude::*;

verus! {

/// The environment variable that the application reads.
pub const CODEX_UPDATER_ENV: &'static str = "CODEX_SPARKLE_ENABLED";

/// Its value where the application is not to update itself.
pub const CODEX_UPDATER_DISABLED_VALUE: &'static str = "false";

/// The value of the variable: without one the application updates itself.
pub open spec fn updater_value(disabled: bool) -> Option<Seq<char>> {
    if disabled {
        Some(CODEX_UPDATER_DISABLED_VALUE@)
    } else {
        None
    }
}

pub fn codex_updater_environment_value(disabled: bool) -> (r: Option<&'static str>)
    ensures
        match r {
            Some(value) => updater_value(disabled) == Some(value@),
            None => updater_value(disabled) is None,
        },
{
    if disabled {
        Some(CODEX_UPDATER_DISABLED_VALUE)
    } else {
        None
    }
}

// ---------------------------------------------------------------------------------------
// Setting the variable for the user
// ---------------------------------------------------------------------------------------

/// A program that is run to look at the variable, or to change it.
#[derive(Clone, Copy, Debug, PartialEq, Eq, Structural)]
pub enum PolicyCommand {
    RegistryAdd,
    RegistryQuery,
    RegistryDelete,
    LaunchctlSet,
    LaunchctlUnset,
}

/// How running a program ended.
#[derive(Clone, Copy, Debug, PartialEq, Eq, Structural)]
pub enum CommandOutcome {
    NotStarted,
    Failed,
    Succeeded,
}

/// What comes next.
#[derive(Clone, Copy, Debug, PartialEq, Eq, Structural)]
pub enum PolicyStep {
    /// This program is run.
    Run(PolicyCommand),
    /// All is done. Running programs are told of the change where the platform has a way to do so.
    Done { broadcast: bool },
    /// The variable could not be set or removed: this program did not start, or it failed.
    Fail { command: PolicyCommand, started: bool },
}

pub open spec fn first_step(disabled: bool, platform: Platform) -> PolicyStep {
    match platform {
        Platform::Windows => PolicyStep::Run(
            if disabled {
                PolicyCommand::RegistryAdd
            } else {
                PolicyCommand::RegistryQuery
            },
        ),
        Platform::MacOs => PolicyStep::Run(
            if disabled {
                PolicyCommand::LaunchctlSet
            } else {
                PolicyCommand::LaunchctlUnset
            },
        ),
        Platform::Other => PolicyStep::Done { broadcast: false },
    }
}

/// The step after a program has been run. On Windows a variable that is not there need not be
/// removed.
pub open spec fn next_step(command: PolicyCommand, outcome: CommandOutcome) -> PolicyStep {
    match outcome {
        CommandOutcome::NotStarted => PolicyStep::Fail { command, started: false },
        CommandOutcome::Failed => match command {
            PolicyCommand::RegistryQuery => PolicyStep::Done { broadcast: true },
            _ => PolicyStep::Fail { command, started: true },
        },
        CommandOutcome::Succeeded => match command {
            PolicyCommand::RegistryQuery => PolicyStep::Run(PolicyCommand::RegistryDelete),
            PolicyCommand::RegistryAdd => PolicyStep::Done { broadcast: true },
            PolicyCommand::RegistryDelete => PolicyStep::Done { broadcast: true },
            PolicyCommand::LaunchctlSet => PolicyStep::Done { broadcast: false },
            PolicyCommand::LaunchctlUnset => PolicyStep::Done { broadcast: false },
        },
    }
}

/// The program and its arguments.
pub open spec fn command_line(command: PolicyCommand) -> (Seq<char>, Seq<Seq<char>>) {
    match command {
        PolicyCommand::RegistryAdd => (
            "reg.exe"@,
            seq![
                "add"@,
                "HKCU\\Environment"@,
                "/v"@,
                CODEX_UPDATER_ENV@,
                "/t"@,
                "REG_SZ"@,
                "/d"@,
                CODEX_UPDATER_DISABLED_VALUE@,
                "/f"@,
            ],
        ),
        PolicyCommand::RegistryQuery => (
            "reg.exe"@,
            seq!["query"@, "HKCU\\Environment"@, "/v"@, CODEX_UPDATER_ENV@],
        ),
        PolicyCommand::RegistryDelete => (
            "reg.exe"@,
            seq!["delete"@, "HKCU\\Environment"@, "/v"@, CODEX_UPDATER_ENV@, "/f"@],
        ),
        PolicyCommand::LaunchctlSet => (
            "/bin/launchctl"@,
            seq!["setenv"@, CODEX_UPDATER_ENV@, CODEX_UPDATER_DISABLED_VALUE@],
        ),
        PolicyCommand::LaunchctlUnset => ("/bin/launchctl"@, seq!["unsetenv"@, CODEX_UPDATER_ENV@]),
    }
}

pub open spec fn literals(list: Seq<&'static str>) -> Seq<Seq<char>> {
    list.map_values(|s: &'static str| s@)
}

impl PolicyCommand {
    pub fn program(&self) -> (r: &'static str)
        ensures
            r@ == command_line(*self).0,
    {
        match self {
            PolicyCommand::RegistryAdd => "reg.exe",
            PolicyCommand::RegistryQuery => "reg.exe",
            PolicyCommand::RegistryDelete => "reg.exe",
            PolicyCommand::LaunchctlSet => "/bin/launchctl",
            PolicyCommand::LaunchctlUnset => "/bin/launchctl",
        }
    }

    pub fn arguments(&self) -> (r: Vec<&'static str>)
        ensures
            literals(r@) == command_line(*self).1,
    {
        let mut r: Vec<&'static str> = Vec::new();
        match self {
            PolicyCommand::RegistryAdd => {
                r.push("add");
                r.push("HKCU\\Environment");
                r.push("/v");
                r.push(CODEX_UPDATER_ENV);
                r.push("/t");
                r.push("REG_SZ");
                r.push("/d");
                r.push(CODEX_UPDATER_DISABLED_VALUE);
                r.push("/f");
            },
            PolicyCommand::RegistryQuery => {
                r.push("query");
                r.push("HKCU\\Environment");
                r.push("/v");
                r.push(CODEX_UPDATER_ENV);
            },
            PolicyCommand::RegistryDelete => {
                r.push("delete");
                r.push("HKCU\\Environment");
                r.push("/v");
                r.push(CODEX_UPDATER_ENV);
                r.push("/f");
            },
            PolicyCommand::LaunchctlSet => {
                r.push("setenv");
                r.push(CODEX_UPDATER_ENV);
                r.push(CODEX_UPDATER_DISABLED_VALUE);
            },
            PolicyCommand::LaunchctlUnset => {
                r.push("unsetenv");
                r.push(CODEX_UPDATER_ENV);
            },
        }
        assert(literals(r@) =~= command_line(*self).1);
        r
    }

    /// The step after the program has been run.
    pub fn after(&self, outcome: CommandOutcome) -> (r: PolicyStep)
        ensures
            r == next_step(*self, outcome),
    {
        match outcome {
            CommandOutcome::NotStarted => PolicyStep::Fail { command: *self, started: false },
            CommandOutcome::Failed => match self {
                PolicyCommand::RegistryQuery => PolicyStep::Done { broadcast: true },
                _ => PolicyStep::Fail { command: *self, started: true },
            },
            CommandOutcome::Succeeded => match self {
                PolicyCommand::RegistryQuery => PolicyStep::Run(PolicyCommand::RegistryDelete),
                PolicyCommand::RegistryAdd => PolicyStep::Done { broadcast: true },
                PolicyCommand::RegistryDelete => PolicyStep::Done { broadcast: true },
                PolicyCommand::LaunchctlSet => PolicyStep::Done { broadcast: false },
                PolicyCommand::LaunchctlUnset => PolicyStep::Done { broadcast: false },
            },
        }
    }

    /// What is reported where the program did not start.
    pub open spec fn start_error(self) -> Seq<char> {
        match self {
            PolicyCommand::RegistryAdd =>
                "failed to start reg.exe while disabling Codex updates"@,
            PolicyCommand::RegistryQuery =>
                "failed to query the Codex updater environment setting"@,
            PolicyCommand::RegistryDelete =>
                "failed to start reg.exe while enabling Codex updates"@,
            PolicyCommand::LaunchctlSet =>
                "failed to start launchctl while applying the Codex update policy"@,
            PolicyCommand::LaunchctlUnset =>
                "failed to start launchctl while applying the Codex update policy"@,
        }
    }

    /// What is reported where the program failed.
    pub open spec fn exit_error(self) -> Seq<char> {
        match self {
            PolicyCommand::RegistryAdd =>
                "failed to write the current-user Codex updater environment setting"@,
            PolicyCommand::RegistryQuery => Seq::empty(),
            PolicyCommand::RegistryDelete =>
                "failed to remove the current-user Codex updater environment setting"@,
            PolicyCommand::LaunchctlSet =>
                "launchctl failed to set the Codex updater environment setting"@,
            PolicyCommand::LaunchctlUnset =>
                "launchctl failed to unset the Codex updater environment setting"@,
        }
    }

    /// The text for a program that did not start, or that failed. That a variable is not found is no
    /// error.
    pub fn error_text(&self, started: bool) -> (r: &'static str)
        ensures
            r@ == (if started {
                self.exit_error()
            } else {
                self.start_error()
            }),
    {
        proof {
            reveal_strlit("");
            assert(""@ =~= Seq::<char>::empty());
        }
        if started {
            match self {
                PolicyCommand::RegistryAdd =>
                    "failed to write the current-user Codex updater environment setting",
                PolicyCommand::RegistryQuery => "",
                PolicyCommand::RegistryDelete =>
                    "failed to remove the current-user Codex updater environment setting",
                PolicyCommand::LaunchctlSet =>
                    "launchctl failed to set the Codex updater environment setting",
                PolicyCommand::LaunchctlUnset =>
                    "launchctl failed to unset the Codex updater environment setting",
            }
        } else {
            match self {
                PolicyCommand::RegistryAdd =>
                    "failed to start reg.exe while disabling Codex updates",
                PolicyCommand::RegistryQuery =>
                    "failed to query the Codex updater environment setting",
                PolicyCommand::RegistryDelete =>
                    "failed to start reg.exe while enabling Codex updates",
                PolicyCommand::LaunchctlSet =>
                    "failed to start launchctl while applying the Codex update policy",
                PolicyCommand::LaunchctlUnset =>
                    "failed to start launchctl while applying the Codex update policy",
            }
        }
    }
}

/// The first step towards the variable as the switch wants it.
pub fn apply_codex_auto_update_policy(disabled: bool, platform: Platform) -> (r: PolicyStep)
    ensures
        r == first_step(disabled, platform),
{
    match platform {
        Platform::Windows => if disabled {
            PolicyStep::Run(PolicyCommand::RegistryAdd)
        } else {
            PolicyStep::Run(PolicyCommand::RegistryQuery)
        },
        Platform::MacOs => if disabled {
            PolicyStep::Run(PolicyCommand::LaunchctlSet)
        } else {
            PolicyStep::Run(PolicyCommand::LaunchctlUnset)
        },
        Platform::Other => PolicyStep::Done { broadcast: false },
    }
}

/// The variable of the user once a program has been run.
pub open spec fn variable_after(
    variable: Option<Seq<char>>,
    command: PolicyCommand,
    outcome: CommandOutcome,
) -> Option<Seq<char>> {
    if outcome != CommandOutcome::Succeeded {
        variable
    } else {
        match command {
            PolicyCommand::RegistryAdd => updater_value(true),
            PolicyCommand::RegistryQuery => variable,
            PolicyCommand::RegistryDelete => None,
            PolicyCommand::LaunchctlSet => updater_value(true),
            PolicyCommand::LaunchctlUnset => None,
        }
    }
}

/// Whether a program can end so: a query that was run finds the variable just where it is there.
pub open spec fn can_end(
    variable: Option<Seq<char>>,
    command: PolicyCommand,
    outcome: CommandOutcome,
) -> bool {
    command == PolicyCommand::RegistryQuery && outcome != CommandOutcome::NotStarted ==> (variable
        is Some) == (outcome == CommandOutcome::Succeeded)
}

/// On Windows and macOS at most two programs are run, and where this ends without an error the
/// variable is as the switch wants it, whatever it was before.
pub proof fn law_policy_sets_the_variable(
    disabled: bool,
    platform: Platform,
    variable: Option<Seq<char>>,
    first: CommandOutcome,
    second: CommandOutcome,
)
    requires
        platform != Platform::Other,
        can_end(variable, first_step(disabled, platform)->Run_0, first),
    ensures
        ({
            let command = first_step(disabled, platform)->Run_0;
            let between = variable_after(variable, command, first);
            &&& first_step(disabled, platform) is Run
            &&& match next_step(command, first) {
                PolicyStep::Run(last) => {
                    &&& next_step(last, second) !is Run
                    &&& next_step(last, second) is Done ==> variable_after(between, last, second)
                        == updater_value(disabled)
                },
                PolicyStep::Done { .. } => between == updater_value(disabled),
                PolicyStep::Fail { .. } => true,
            }
        }),
{
}

/// The application is kept from updating itself by the value `false` of one variable, and updates
/// itself where the variable has no value.
pub proof fn law_updates_are_switched_off_by_false(disabled: bool, r: Option<&'static str>)
    requires
        call_ensures(codex_updater_environment_value, (disabled,), r),
    ensures
        disabled ==> r is Some && r->0@ == "false"@,
        !disabled ==> r is None,
{
}

/// Whether an argument of a program is the name of the variable.
pub open spec fn names_variable(arguments: Seq<&'static str>, i: int) -> bool {
    0 <= i < arguments.len() && arguments[i]@ == "CODEX_SPARKLE_ENABLED"@
}

/// Every program that is run names the variable. What is written into the registry, as what is
/// set for the session, is the value by which the application does not update itself.
pub proof fn law_commands_are_about_the_variable(
    command: PolicyCommand,
    program: &'static str,
    r: Vec<&'static str>,
)
    requires
        call_ensures(PolicyCommand::program, (&command,), program),
        call_ensures(PolicyCommand::arguments, (&command,), r),
    ensures
        match command {
            PolicyCommand::RegistryAdd => program@ == "reg.exe"@ && r@.len() == 9 && r@[0]@ == "add"@
                && r@[1]@ == "HKCU\\Environment"@ && r@[2]@ == "/v"@ && names_variable(r@, 3)
                && r@[4]@ == "/t"@ && r@[5]@ == "REG_SZ"@ && r@[6]@ == "/d"@ && r@[7]@ == "false"@
                && r@[8]@ == "/f"@,
            PolicyCommand::RegistryQuery => program@ == "reg.exe"@ && r@.len() == 4 && r@[0]@
                == "query"@ && r@[1]@ == "HKCU\\Environment"@ && r@[2]@ == "/v"@ && names_variable(
                r@,
                3,
            ),
            PolicyCommand::RegistryDelete => program@ == "reg.exe"@ && r@.len() == 5 && r@[0]@
                == "delete"@ && r@[1]@ == "HKCU\\Environment"@ && r@[2]@ == "/v"@ && names_variable(
                r@,
                3,
            ) && r@[4]@ == "/f"@,
            PolicyCommand::LaunchctlSet => program@ == "/bin/launchctl"@ && r@.len() == 3 && r@[0]@
                == "setenv"@ && names_variable(r@, 1) && r@[2]@ == "false"@,
            PolicyCommand::LaunchctlUnset => program@ == "/bin/launchctl"@ && r@.len() == 2 && r@[0]@
                == "unsetenv"@ && names_variable(r@, 1),
        },
{
    assert(r@.len() == literals(r@).len());
    assert(forall|i: int| 0 <= i < r@.len() ==> literals(r@)[i] == (#[trigger] r@[i])@);
    assert(literals(r@) == command_line(command).1);
}

/// On Windows the registry is written or, where the variable is there, cleared of it, and running
/// programs are told; on macOS the session is; and nothing is done elsewhere.
pub proof fn law_each_system_has_its_way(disabled: bool, platform: Platform, first: PolicyStep)
    requires
        call_ensures(apply_codex_auto_update_policy, (disabled, platform), first),
    ensures
        platform == Platform::Other ==> first == (PolicyStep::Done { broadcast: false }),
        platform == Platform::MacOs && disabled ==> first == PolicyStep::Run(
            PolicyCommand::LaunchctlSet,
        ),
        platform == Platform::MacOs && !disabled ==> first == PolicyStep::Run(
            PolicyCommand::LaunchctlUnset,
        ),
        platform == Platform::Windows && disabled ==> first == PolicyStep::Run(
            PolicyCommand::RegistryAdd,
        ),
        platform == Platform::Windows && !disabled ==> first == PolicyStep::Run(
            PolicyCommand::RegistryQuery,
        ),
{
}

/// What follows a program: one that did not start fails, and so does one that failed, but for a
/// query, which then found nothing to remove. Running programs are told of a change of the
/// registry, and of no other.
pub proof fn law_programs_are_followed_up(
    command: PolicyCommand,
    outcome: CommandOutcome,
    r: PolicyStep,
)
    requires
        call_ensures(PolicyCommand::after, (&command, outcome), r),
    ensures
        r is Fail <==> outcome == CommandOutcome::NotStarted || (outcome == CommandOutcome::Failed
            && command != PolicyCommand::RegistryQuery),
        r is Fail ==> r->command == command && r->started == (outcome == CommandOutcome::Failed),
        r is Run <==> outcome == CommandOutcome::Succeeded && command
            == PolicyCommand::RegistryQuery,
        r is Run ==> r->Run_0 == PolicyCommand::RegistryDelete,
        r is Done ==> r->broadcast == (command != PolicyCommand::LaunchctlSet && command
            != PolicyCommand::LaunchctlUnset),
{
}

/// The text for an error says whether the program did not start or failed, and whether updates
/// were to be switched off or on; a query that finds nothing has none.
pub proof fn law_errors_are_told_apart(command: PolicyCommand, started: bool, r: &'static str)
    requires
        call_ensures(PolicyCommand::error_text, (&command, started), r),
    ensures
        r@ == (match (command, started) {
            (PolicyCommand::RegistryAdd, false) =>
                "failed to start reg.exe while disabling Codex updates"@,
            (PolicyCommand::RegistryAdd, true) =>
                "failed to write the current-user Codex updater environment setting"@,
            (PolicyCommand::RegistryQuery, false) =>
                "failed to query the Codex updater environment setting"@,
            (PolicyCommand::RegistryQuery, true) => Seq::<char>::empty(),
            (PolicyCommand::RegistryDelete, false) =>
                "failed to start reg.exe while enabling Codex updates"@,
            (PolicyCommand::RegistryDelete, true) =>
                "failed to remove the current-user Codex updater environment setting"@,
            (PolicyCommand::LaunchctlSet, true) =>
                "launchctl failed to set the Codex updater environment setting"@,
            (PolicyCommand::LaunchctlUnset, true) =>
                "launchctl failed to unset the Codex updater environment setting"@,
            (_, false) => "failed to start launchctl while applying the Codex update policy"@,
        }),
{
}

} // verus!
