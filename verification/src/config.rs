//! The configuration file and the import manifest, as plain records.
use vstd::prelude::*;

verus! {

/// A category as a configuration file or a manifest declares it.
#[derive(Clone, Debug, PartialEq, Eq)]
pub struct CategoryConfig {
    pub name: String,
    pub default_minutes: u32,
    pub color: String,
}

/// A weekly slot as a configuration file or a manifest declares it.
#[derive(Clone, Debug, PartialEq, Eq)]
pub struct ScheduleConfig {
    pub time: String,
    pub category: String,
    pub days: u8,
}


/// The `[general]` table of the configuration file.
#[derive(Clone, Debug, PartialEq, Eq)]
pub struct GeneralConfig {
    pub database_path: Option<String>,
    pub notifications_enabled: bool,
}

/// The configuration file: general settings, categories and an optional
/// weekly schedule.
#[derive(Clone, Debug, PartialEq, Eq)]
pub struct AppConfig {
    pub general: GeneralConfig,
    pub categories: Vec<CategoryConfig>,
    pub schedule: Option<Vec<ScheduleConfig>>,
}

/// A manifest to import: categories to reconcile and, where given, the
/// weekly schedule that replaces the stored one.
#[derive(Clone, Debug, PartialEq, Eq)]
pub struct ImportManifest {
    pub categories: Vec<CategoryConfig>,
    pub schedule: Option<Vec<ScheduleConfig>>,
}

/// Notifications are on unless the configuration turns them off.
pub fn default_notifications() -> (r: bool)
    ensures
        r,
{
    true
}

/// The text of the `[general]` table that the planner writes to a fresh
/// configuration file.
pub open spec fn general_config_text(database_path: Seq<char>, notifications_enabled: bool) -> Seq<
    char,
> {
    "[general]\ndatabase_path = \""@ + database_path + "\"\nnotifications_enabled = "@ + (
    if notifications_enabled {
        "true"@
    } else {
        "false"@
    }) + "\n"@
}

/// Writes the `[general]` table of a configuration file.
pub fn render_general_config(database_path: &str, notifications_enabled: bool) -> (r: String)
    ensures
        r@ == general_config_text(database_path@, notifications_enabled),
{
    let mut r = String::from_str("[general]\ndatabase_path = \"");
    r.append(database_path);
    r.append("\"\nnotifications_enabled = ");
    if notifications_enabled {
        r.append("true");
    } else {
        r.append("false");
    }
    r.append("\n");
    r
}

} // verus!
