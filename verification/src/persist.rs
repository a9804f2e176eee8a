//! Edits of the `[input_sanitize]` table in the text of a config file, and
//! the order in which the user and project files are written. Sibling
//! tables are kept: the edit goes through `toml_edit`, which preserves the
//! rest of the document.
use vstd::prelude::*;

use crate::category::{spec_cat_name, RiskCategory};
use crate::policy::{spec_action_name, CategoryAction};

verus! {

/// Text of the TOML document `text` after `table.key` is set to the string
/// `value`; `None` when `text` does not parse or `table` is not a table.
pub uninterp spec fn toml_set_str(
    text: Seq<char>,
    table: Seq<char>,
    key: Seq<char>,
    value: Seq<char>,
) -> Option<Seq<char>>;

/// Text of the TOML document `text` after `table.key` is set to the boolean
/// `value`; `None` when `text` does not parse or `table` is not a table.
pub uninterp spec fn toml_set_bool(
    text: Seq<char>,
    table: Seq<char>,
    key: Seq<char>,
    value: bool,
) -> Option<Seq<char>>;

/// Whether `table.key` of the TOML document `text` can be indexed: `None`
/// when `text` does not parse, `Some(false)` when `table` holds a value that
/// is neither a table nor an inline table (there `doc[table][key]` panics).
pub uninterp spec fn toml_entry_slot(text: Seq<char>, table: Seq<char>, key: Seq<char>) -> Option<
    bool,
>;

pub open spec fn opt_text(o: Option<String>) -> Option<Seq<char>> {
    match o {
        Some(s) => Some(s@),
        None => None,
    }
}

/// Parses `text` as a `toml_edit::DocumentMut`, sets `table.key` to the
/// string `value` (through `Item::get_mut`, which adds a missing table or
/// key) and prints the document back. The contract names the result by
/// `toml_set_str` of the four arguments and states nothing more of it.
#[verifier::external_body]
fn toml_with_str_entry(text: &str, table: &str, key: &str, value: &str) -> (r: Option<String>)
    ensures
        opt_text(r) == toml_set_str(text@, table@, key@, value@),
        r is Some <==> toml_entry_slot(text@, table@, key@) == Some(true),
{
    let mut doc = text.parse::<toml_edit::DocumentMut>().ok()?;
    let slot = doc.as_item_mut().get_mut(table)?.get_mut(key)?;
    *slot = toml_edit::value(value);
    Some(doc.to_string())
}

/// Parses `text` as a `toml_edit::DocumentMut`, sets `table.key` to the
/// boolean `value` (through `Item::get_mut`) and prints the document back.
/// The contract names the result by `toml_set_bool` of the four arguments
/// and states nothing more of it.
#[verifier::external_body]
fn toml_with_bool_entry(text: &str, table: &str, key: &str, value: bool) -> (r: Option<String>)
    ensures
        opt_text(r) == toml_set_bool(text@, table@, key@, value),
        r is Some <==> toml_entry_slot(text@, table@, key@) == Some(true),
{
    let mut doc = text.parse::<toml_edit::DocumentMut>().ok()?;
    let slot = doc.as_item_mut().get_mut(table)?.get_mut(key)?;
    *slot = toml_edit::value(value);
    Some(doc.to_string())
}

/// Parses `text` as a `toml_edit::DocumentMut` and reports whether
/// `Item::get_mut(key)` on the item at `table` (itself reached with
/// `Item::get_mut`, which never fails on the root table) gives an item; the
/// index operator `doc[table][key]` panics exactly where it gives none.
/// The contract names the result by `toml_entry_slot` and states nothing
/// more of it.
#[verifier::external_body]
fn toml_entry_indexable(text: &str, table: &str, key: &str) -> (r: Option<bool>)
    ensures
        r == toml_entry_slot(text@, table@, key@),
{
    let mut doc = text.parse::<toml_edit::DocumentMut>().ok()?;
    let section = doc.as_item_mut().get_mut(table)?;
    Some(section.get_mut(key).is_some())
}

/// What reading a config file gave.
pub enum ConfigFile {
    /// The file does not exist: it is edited as an empty document.
    Missing,
    Text(String),
    /// The file exists but cannot be read: it is left alone.
    Unreadable,
}

/// The text an edit starts from, if the file is to be edited at all.
pub open spec fn edit_base(f: ConfigFile) -> Option<Seq<char>> {
    match f {
        ConfigFile::Missing => Some(""@),
        ConfigFile::Text(t) => Some(t@),
        ConfigFile::Unreadable => None,
    }
}

/// The new text of a config file after `[input_sanitize].<category> = "<action>"`.
pub open spec fn spec_category_action_edit(
    f: ConfigFile,
    cat: RiskCategory,
    action: CategoryAction,
) -> Option<Seq<char>> {
    match edit_base(f) {
        Some(t) => toml_set_str(t, "input_sanitize"@, spec_cat_name(cat), spec_action_name(action)),
        None => None,
    }
}

/// The new text of a config file after `[input_sanitize].<key> = <value>`.
pub open spec fn spec_bool_field_edit(f: ConfigFile, key: Seq<char>, value: bool) -> Option<
    Seq<char>,
> {
    match edit_base(f) {
        Some(t) => toml_set_bool(t, "input_sanitize"@, key, value),
        None => None,
    }
}

/// Whether `[input_sanitize].<key>` of the file can be indexed: false only
/// when the file holds an `input_sanitize` value that is not a table, where
/// the edit by the index operator panics.
pub open spec fn section_indexable(f: ConfigFile, key: Seq<char>) -> bool {
    match f {
        ConfigFile::Text(t) => toml_entry_slot(t@, "input_sanitize"@, key) != Some(false),
        _ => true,
    }
}

/// Why a config edit cannot be made.
#[derive(Debug, Clone, Copy, PartialEq, Eq, Structural)]
pub enum ConfigEditError {
    /// `input_sanitize` holds a value that is not a table.
    SectionNotTable,
}

fn check_indexable(file: &ConfigFile, key: &str) -> (b: bool)
    ensures
        b == section_indexable(*file, key@),
{
    match file {
        ConfigFile::Text(t) => match toml_entry_indexable(t.as_str(), "input_sanitize", key) {
            Some(false) => false,
            _ => true,
        },
        _ => true,
    }
}

/// The category edit, or the error where the edit by the index operator
/// would panic.
pub fn try_category_action_edit(file: &ConfigFile, cat: RiskCategory, action: CategoryAction) -> (r:
    Result<Option<String>, ConfigEditError>)
    ensures
        match r {
            Ok(o) => section_indexable(*file, spec_cat_name(cat)) && opt_text(o)
                == spec_category_action_edit(*file, cat, action),
            Err(e) => !section_indexable(*file, spec_cat_name(cat)) && e
                == ConfigEditError::SectionNotTable,
        },
{
    if check_indexable(file, cat.as_str()) {
        Ok(category_action_edit(file, cat, action))
    } else {
        Err(ConfigEditError::SectionNotTable)
    }
}

/// The boolean field edit, or the error where the edit by the index
/// operator would panic.
pub fn try_bool_field_edit(file: &ConfigFile, key: &str, value: bool) -> (r: Result<
    Option<String>,
    ConfigEditError,
>)
    ensures
        match r {
            Ok(o) => section_indexable(*file, key@) && opt_text(o) == spec_bool_field_edit(
                *file,
                key@,
                value,
            ),
            Err(e) => !section_indexable(*file, key@) && e == ConfigEditError::SectionNotTable,
        },
{
    if check_indexable(file, key) {
        Ok(bool_field_edit(file, key, value))
    } else {
        Err(ConfigEditError::SectionNotTable)
    }
}

fn base_text(file: &ConfigFile) -> (r: Option<&str>)
    ensures
        match r {
            Some(t) => edit_base(*file) == Some(t@),
            None => edit_base(*file) is None,
        },
{
    match file {
        ConfigFile::Missing => Some(""),
        ConfigFile::Text(t) => Some(t.as_str()),
        ConfigFile::Unreadable => None,
    }
}

/// New text of a config file with one category action set under
/// `[input_sanitize]`; `None` when the file is to be left as it is.
pub fn category_action_edit(file: &ConfigFile, cat: RiskCategory, action: CategoryAction) -> (r:
    Option<String>)
    requires
        section_indexable(*file, spec_cat_name(cat)),
    ensures
        opt_text(r) == spec_category_action_edit(*file, cat, action),
{
    match base_text(file) {
        Some(t) => toml_with_str_entry(t, "input_sanitize", cat.as_str(), action.as_str()),
        None => None,
    }
}

/// New text of a config file with a boolean field (`enabled`,
/// `notify_when_stripped`, `analyze`) set under `[input_sanitize]`; `None`
/// when the file is to be left as it is.
pub fn bool_field_edit(file: &ConfigFile, key: &str, value: bool) -> (r: Option<String>)
    requires
        section_indexable(*file, key@),
    ensures
        opt_text(r) == spec_bool_field_edit(*file, key@, value),
{
    match base_text(file) {
        Some(t) => toml_with_bool_entry(t, "input_sanitize", key, value),
        None => None,
    }
}

/// Which config file a step writes.
#[derive(Debug, Clone, Copy, PartialEq, Eq, Structural)]
pub enum ConfigScope {
    User,
    Project,
}

/// One step of persisting a category action.
#[derive(Debug, Clone, Copy, PartialEq, Eq, Structural)]
pub enum PersistStep {
    /// Edit and write the config file of this scope.
    Write(ConfigScope),
    /// Stop with an error: the project scope was asked for without a cwd.
    MissingCwd,
}

/// The steps of persisting at user and/or project scope: the user file
/// first, then the project file, or the error when there is no cwd. Steps
/// already taken are not undone by a later failure.
pub open spec fn spec_persist_plan(user: bool, project: bool, has_cwd: bool) -> Seq<PersistStep> {
    let u = if user {
        seq![PersistStep::Write(ConfigScope::User)]
    } else {
        seq![]
    };
    let p = if !project {
        seq![]
    } else if has_cwd {
        seq![PersistStep::Write(ConfigScope::Project)]
    } else {
        seq![PersistStep::MissingCwd]
    };
    u + p
}

/// The steps to run, in order, for a persist at user and/or project scope.
pub fn persist_plan(user: bool, project: bool, has_cwd: bool) -> (r: Vec<PersistStep>)
    ensures
        r@ == spec_persist_plan(user, project, has_cwd),
{
    let mut v: Vec<PersistStep> = Vec::new();
    if user {
        v.push(PersistStep::Write(ConfigScope::User));
    }
    if project {
        if has_cwd {
            v.push(PersistStep::Write(ConfigScope::Project));
        } else {
            v.push(PersistStep::MissingCwd);
        }
    }
    v
}

} // verus!
