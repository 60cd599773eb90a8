//! What statements may do on a connection: nothing that goes around the replicated
//! log or leaves the database's own storage.

use vstd::prelude::*;
use vstd::string::*;

use crate::bytes::str_equal;
use crate::text;
use crate::text::lower_chars;
use crate::text::strip_ends;
use crate::text::text_chars;
use crate::text::Strip;

verus! {

broadcast use group_string_axioms;

/// Whether an action may be done.
#[derive(Debug, Clone, Copy, PartialEq, Eq, Structural)]
pub enum Authorization {
    Allow,
    Deny,
}

/// What a statement is about to do.
#[derive(Debug, Clone, PartialEq, Eq)]
pub enum SqliteAction {
    Attach,
    Detach,
    CreateVtable,
    DropVtable,
    Function { function_name: String },
    Pragma { pragma_name: String, pragma_value: Option<String> },
    Other,
}

/// A value of a setting without white space and quotes around it, in lower case.
pub open spec fn plain_value(value: Seq<char>) -> Seq<char> {
    text::lower_text(
        text::stripped(
            text::stripped(text::stripped(value, Strip::White), Strip::Only('\'')),
            Strip::Only('"'),
        ),
    )
}

/// A value of a setting without white space and quotes around it, in lower case.
pub fn normalize_pragma_value(value: &str) -> (plain: String)
    ensures
        plain@ == plain_value(value@),
{
    let chars = text_chars(value);
    let trimmed = strip_ends(&chars, Strip::White);
    let unquoted = strip_ends(&trimmed, Strip::Only('\''));
    let bare = strip_ends(&unquoted, Strip::Only('"'));
    lower_chars(&bare)
}

/// Whether a setting may be read, or set to a plain value. The journal has to be one
/// that is deleted, writes have to be synchronous, locks have to be given back, the
/// schema has to stay closed, and directories stay where they are.
pub open spec fn setting_allowed(name: Seq<char>, value: Option<Seq<char>>) -> bool {
    if name == "journal_mode"@ {
        value matches Some(mode) ==> mode == "delete"@
    } else if name == "synchronous"@ {
        value matches Some(level) ==> level == "full"@ || level == "extra"@ || level == "2"@
            || level == "3"@
    } else if name == "locking_mode"@ {
        value matches Some(mode) ==> mode == "normal"@
    } else if name == "writable_schema"@ {
        value matches Some(flag) ==> flag == "0"@ || flag == "off"@ || flag == "false"@ || flag
            == "no"@
    } else {
        name != "temp_store_directory"@ && name != "data_store_directory"@
    }
}

/// Whether a setting may be read or set, as a statement writes it.
pub open spec fn pragma_allowed(name: Seq<char>, value: Option<Seq<char>>) -> bool {
    setting_allowed(
        text::lower_text(name),
        match value {
            Some(written) => Some(plain_value(written)),
            None => None,
        },
    )
}

/// The model of a text that may be missing.
pub open spec fn optional_text(text: Option<String>) -> Option<Seq<char>> {
    match text {
        Some(found) => Some(found@),
        None => None,
    }
}

fn decide(allowed: bool) -> (decision: Authorization)
    ensures
        decision == if allowed {
            Authorization::Allow
        } else {
            Authorization::Deny
        },
{
    if allowed {
        Authorization::Allow
    } else {
        Authorization::Deny
    }
}

/// Decides whether a setting may be read or set.
pub fn authorize_pragma(name: &str, value: &Option<String>) -> (decision: Authorization)
    ensures
        decision == if pragma_allowed(name@, optional_text(*value)) {
            Authorization::Allow
        } else {
            Authorization::Deny
        },
{
    let lowered = lower_chars(&text_chars(name));
    let setting = lowered.as_str();
    let plain: Option<String> = match value {
        Some(written) => Some(normalize_pragma_value(written.as_str())),
        None => None,
    };
    if str_equal(setting, "journal_mode") {
        return decide(
            match &plain {
                None => true,
                Some(mode) => str_equal(mode.as_str(), "delete"),
            },
        );
    }
    if str_equal(setting, "synchronous") {
        return decide(
            match &plain {
                None => true,
                Some(level) => str_equal(level.as_str(), "full") || str_equal(
                    level.as_str(),
                    "extra",
                ) || str_equal(level.as_str(), "2") || str_equal(level.as_str(), "3"),
            },
        );
    }
    if str_equal(setting, "locking_mode") {
        return decide(
            match &plain {
                None => true,
                Some(mode) => str_equal(mode.as_str(), "normal"),
            },
        );
    }
    if str_equal(setting, "writable_schema") {
        return decide(
            match &plain {
                None => true,
                Some(flag) => str_equal(flag.as_str(), "0") || str_equal(flag.as_str(), "off")
                    || str_equal(flag.as_str(), "false") || str_equal(flag.as_str(), "no"),
            },
        );
    }
    decide(
        !str_equal(setting, "temp_store_directory") && !str_equal(setting, "data_store_directory"),
    )
}

/// Whether an action may be done: databases outside are not attached, tables outside
/// are not mounted, native code is not loaded, and settings keep to what is safe.
pub open spec fn action_allowed(action: SqliteAction) -> bool {
    match action {
        SqliteAction::Attach => false,
        SqliteAction::Detach => false,
        SqliteAction::CreateVtable => false,
        SqliteAction::DropVtable => false,
        SqliteAction::Function { function_name } => text::lower_text(function_name@)
            != "load_extension"@,
        SqliteAction::Pragma { pragma_name, pragma_value } => pragma_allowed(
            pragma_name@,
            optional_text(pragma_value),
        ),
        SqliteAction::Other => true,
    }
}

/// Decides whether an action may be done.
pub fn authorize_orion_sqlite_action(action: &SqliteAction) -> (decision: Authorization)
    ensures
        decision == if action_allowed(*action) {
            Authorization::Allow
        } else {
            Authorization::Deny
        },
{
    match action {
        SqliteAction::Attach => Authorization::Deny,
        SqliteAction::Detach => Authorization::Deny,
        SqliteAction::CreateVtable => Authorization::Deny,
        SqliteAction::DropVtable => Authorization::Deny,
        SqliteAction::Function { function_name } => {
            let lowered = lower_chars(&text_chars(function_name.as_str()));
            decide(!str_equal(lowered.as_str(), "load_extension"))
        },
        SqliteAction::Pragma { pragma_name, pragma_value } => authorize_pragma(
            pragma_name.as_str(),
            pragma_value,
        ),
        SqliteAction::Other => Authorization::Allow,
    }
}

/// Whether a database has taken the journal mode that it was told to take.
pub fn is_delete_journal(mode: &str) -> (taken: bool)
    ensures
        taken == (text::lower_text(mode@) == "delete"@),
{
    let lowered = lower_chars(&text_chars(mode));
    str_equal(lowered.as_str(), "delete")
}

/// The decision does not depend on how the name of a setting is capitalised, nor on
/// white space or quotes around its value.
pub proof fn law_spelling_does_not_matter(
    name: Seq<char>,
    other: Seq<char>,
    value: Seq<char>,
    quoted: Seq<char>,
)
    requires
        text::lower_text(name) == text::lower_text(other),
        plain_value(value) == plain_value(quoted),
    ensures
        pragma_allowed(name, Some(value)) == pragma_allowed(other, Some(quoted)),
        pragma_allowed(name, None) == pragma_allowed(other, None),
{
}

} // verus!
