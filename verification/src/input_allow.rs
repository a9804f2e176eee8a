//! The `/input-filter` command (aliases `/input-allow`, `/input-sanitize`,
//! `/sanitize`) and `/input-deny`: open the input filter settings, print the
//! policy, or apply a named profile directly.
use vstd::prelude::*;

use crate::policy::{spec_profile_name, spec_profile_parse, SanitizeProfile};
use crate::text::{chars_of, eq_str, lower_seq, lower_vec, string_of, trim, trim_vec};

verus! {

/// Filter query for the settings screen: the input filter profile and the
/// input sanitizer rows.
pub const SETTINGS_FILTER: &'static str = "input filter";

/// What a command asks the application to do.
#[derive(Debug, Clone, PartialEq, Eq)]
pub enum CommandAction {
    /// Open the settings screen filtered by `query`.
    OpenSettingsFiltered { query: String },
    /// Print the current policy summary.
    InputSanitizeStatus,
    /// Apply the named profile.
    SetInputSanitizeProfile(String),
}

/// One argument suggestion.
#[derive(Debug, Clone, PartialEq, Eq)]
pub struct ArgItem {
    pub display: String,
    pub match_text: String,
    pub insert_text: String,
    pub description: String,
}

/// `/input-filter [strict|balanced|multilingual|status]`
pub struct InputAllowCommand;

/// `/input-deny`: the same menu (allows are turned off with its toggles).
pub struct InputDenyCommand;

/// The argument, trimmed and ASCII-lowercased, is one of the words.
pub open spec fn arg_is(args: Seq<char>, word: Seq<char>) -> bool {
    lower_seq(trim(args)) == word
}

/// `run` prints the status.
pub open spec fn run_shows_status(args: Seq<char>) -> bool {
    trim(args).len() > 0 && (arg_is(args, "status"@) || arg_is(args, "show"@))
}

/// `run` applies a profile (and which).
pub open spec fn run_profile(args: Seq<char>) -> Option<SanitizeProfile> {
    if trim(args).len() == 0 || run_shows_status(args) || arg_is(args, "ui"@) || arg_is(
        args,
        "settings"@,
    ) || arg_is(args, "open"@) || arg_is(args, "menu"@) {
        None
    } else {
        spec_profile_parse(trim(args))
    }
}

/// The action opens the settings screen filtered for the input filter.
pub open spec fn opens_menu(a: CommandAction) -> bool {
    a matches CommandAction::OpenSettingsFiltered { query } && query@ == SETTINGS_FILTER@
}

fn open_menu() -> (a: CommandAction)
    ensures
        opens_menu(a),
{
    CommandAction::OpenSettingsFiltered { query: crate::text::owned(SETTINGS_FILTER) }
}

/// The suggestion shows `display`, matches `match_text`, inserts
/// `insert_text` and is described by `description`.
pub open spec fn is_item(
    a: ArgItem,
    display: Seq<char>,
    match_text: Seq<char>,
    insert_text: Seq<char>,
    description: Seq<char>,
) -> bool {
    a.display@ == display && a.match_text@ == match_text && a.insert_text@ == insert_text
        && a.description@ == description
}

fn item(display: &str, match_text: &str, insert_text: &str, description: &str) -> (r: ArgItem)
    ensures
        r.display@ == display@,
        r.match_text@ == match_text@,
        r.insert_text@ == insert_text@,
        r.description@ == description@,
{
    ArgItem {
        display: crate::text::owned(display),
        match_text: crate::text::owned(match_text),
        insert_text: crate::text::owned(insert_text),
        description: crate::text::owned(description),
    }
}

impl InputAllowCommand {
    pub fn name(&self) -> (s: &'static str)
        ensures
            s@ == "input-filter"@,
    {
        "input-filter"
    }

    pub fn description(&self) -> (s: &'static str)
        ensures
            s@ == "Open the input filter menu (profiles and character allows)"@,
    {
        "Open the input filter menu (profiles and character allows)"
    }

    pub fn usage(&self) -> (s: &'static str)
        ensures
            s@ == "/input-filter [strict|balanced|multilingual|status]"@,
    {
        "/input-filter [strict|balanced|multilingual|status]"
    }

    pub fn takes_args(&self) -> (b: bool)
        ensures
            b,
    {
        true
    }

    pub fn args_required(&self) -> (b: bool)
        ensures
            !b,
    {
        false
    }

    pub fn arg_placeholder(&self) -> (s: Option<&'static str>)
        ensures
            s matches Some(t) && t@ == "[profile]"@,
    {
        Some("[profile]")
    }

    pub fn aliases(&self) -> (v: Vec<&'static str>)
        ensures
            v@.len() == 3,
            v@[0]@ == "input-allow"@,
            v@[1]@ == "input-sanitize"@,
            v@[2]@ == "sanitize"@,
    {
        let mut v: Vec<&'static str> = Vec::new();
        v.push("input-allow");
        v.push("input-sanitize");
        v.push("sanitize");
        v
    }

    /// Suggestions: open the menu, the three profiles, and the status.
    pub fn suggest_args(&self, _args_query: &str) -> (r: Option<Vec<ArgItem>>)
        ensures
            r matches Some(v) && v@.len() == 5 && is_item(
                v@[0],
                "Open menu…"@,
                "open menu ui settings"@,
                ""@,
                "Open the input filter menu (same as /settings → Input filter)"@,
            ) && is_item(v@[1], "strict"@, "strict ascii"@, "strict"@, "ASCII only (max filter)"@)
                && is_item(
                v@[2],
                "balanced"@,
                "balanced recommended"@,
                "balanced"@,
                "Accents, emoji, math, tabs (default)"@,
            ) && is_item(
                v@[3],
                "multilingual"@,
                "multilingual i18n languages"@,
                "multilingual"@,
                "Balanced + non-English scripts"@,
            ) && is_item(
                v@[4],
                "status"@,
                "status show policy"@,
                "status"@,
                "Print current policy summary"@,
            ),
    {
        let mut v: Vec<ArgItem> = Vec::new();
        v.push(
            item(
                "Open menu…",
                "open menu ui settings",
                "",
                "Open the input filter menu (same as /settings → Input filter)",
            ),
        );
        v.push(item("strict", "strict ascii", "strict", "ASCII only (max filter)"));
        v.push(
            item(
                "balanced",
                "balanced recommended",
                "balanced",
                "Accents, emoji, math, tabs (default)",
            ),
        );
        v.push(
            item(
                "multilingual",
                "multilingual i18n languages",
                "multilingual",
                "Balanced + non-English scripts",
            ),
        );
        v.push(item("status", "status show policy", "status", "Print current policy summary"));
        Some(v)
    }

    /// Empty, `ui`, `settings`, `open`, `menu` or anything unknown opens the
    /// menu; `status` or `show` prints the policy; a profile name applies
    /// that profile. Words compare trimmed and ignoring ASCII case.
    pub fn run(&self, args: &str) -> (a: CommandAction)
        ensures
            run_shows_status(args@) ==> a == CommandAction::InputSanitizeStatus,
            run_profile(args@) matches Some(p) ==> (a matches CommandAction::SetInputSanitizeProfile(
                s,
            ) && s@ == spec_profile_name(p)),
            !run_shows_status(args@) && run_profile(args@) is None ==> opens_menu(a),
    {
        let t = trim_vec(&chars_of(args));
        if t.len() == 0 {
            return open_menu();
        }
        let l = lower_vec(&t);
        if eq_str(&l, "status") || eq_str(&l, "show") {
            return CommandAction::InputSanitizeStatus;
        }
        if eq_str(&l, "ui") || eq_str(&l, "settings") || eq_str(&l, "open") || eq_str(&l, "menu") {
            return open_menu();
        }
        let ts = string_of(&t);
        match SanitizeProfile::parse(ts.as_str()) {
            Some(profile) => CommandAction::SetInputSanitizeProfile(
                crate::text::owned(profile.as_str()),
            ),
            None => open_menu(),
        }
    }
}

impl InputDenyCommand {
    pub fn name(&self) -> (s: &'static str)
        ensures
            s@ == "input-deny"@,
    {
        "input-deny"
    }

    pub fn description(&self) -> (s: &'static str)
        ensures
            s@ == "Open the input filter menu (turn off allows there)"@,
    {
        "Open the input filter menu (turn off allows there)"
    }

    pub fn usage(&self) -> (s: &'static str)
        ensures
            s@ == "/input-deny"@,
    {
        "/input-deny"
    }

    /// Always opens the menu.
    pub fn run(&self, _args: &str) -> (a: CommandAction)
        ensures
            opens_menu(a),
    {
        open_menu()
    }
}

} // verus!
