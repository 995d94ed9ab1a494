//! The decisions behind the frontend commands: which history granularity a
//! name selects, how per-app rows are categorized, and the values the
//! autostart entry and the elevation request are made of.

use vstd::prelude::*;

use crate::history::types::{AppUsageRow, Granularity};
use crate::ip_policy::{replace_all, replace_str};
use crate::software::{categorize, category_of, SoftwareCatalog};
use crate::text::str_eq;

verus! {

/// The granularity a history request names: `daily`, `monthly`, and hourly
/// for anything else.
pub open spec fn granularity_named(name: Seq<char>) -> Granularity {
    if name == "daily"@ {
        Granularity::Daily
    } else if name == "monthly"@ {
        Granularity::Monthly
    } else {
        Granularity::Hourly
    }
}

/// The granularity a history request names (see `granularity_named`).
pub fn granularity_from_name(name: &str) -> (r: Granularity)
    ensures
        r == granularity_named(name@),
{
    if str_eq(name, "daily") {
        Granularity::Daily
    } else if str_eq(name, "monthly") {
        Granularity::Monthly
    } else {
        Granularity::Hourly
    }
}

/// One app's traffic in a range, with its category.
#[derive(Clone, Debug)]
pub struct AppCategoryRow {
    pub app: String,
    pub category: &'static str,
    pub rx_v4: u64,
    pub tx_v4: u64,
    pub rx_v6: u64,
    pub tx_v6: u64,
}

/// `c` is row `u` with its category under `catalog`.
pub open spec fn categorized(c: AppCategoryRow, u: AppUsageRow, catalog: SoftwareCatalog) -> bool {
    &&& c.app@ == u.app@
    &&& c.category@ == category_of(u.app@, catalog@)
    &&& c.rx_v4 == u.rx_v4
    &&& c.tx_v4 == u.tx_v4
    &&& c.rx_v6 == u.rx_v6
    &&& c.tx_v6 == u.tx_v6
}

/// Tags each per-app row with the app's category, keeping the order.
pub fn categorized_rows(rows: Vec<AppUsageRow>, catalog: &SoftwareCatalog) -> (r: Vec<AppCategoryRow>)
    ensures
        r@.len() == rows@.len(),
        forall|i: int| 0 <= i < rows@.len() ==> categorized(#[trigger] r@[i], rows@[i], *catalog),
{
    let mut out: Vec<AppCategoryRow> = Vec::new();
    let mut i: usize = 0;
    while i < rows.len()
        invariant
            i <= rows@.len(),
            out@.len() == i,
            forall|j: int| 0 <= j < i ==> categorized(#[trigger] out@[j], rows@[j], *catalog),
        decreases rows@.len() - i,
    {
        let u = &rows[i];
        let category = categorize(u.app.as_str(), catalog);
        out.push(AppCategoryRow {
            app: u.app.clone(),
            category,
            rx_v4: u.rx_v4,
            tx_v4: u.tx_v4,
            rx_v6: u.rx_v6,
            tx_v6: u.tx_v6,
        });
        i = i + 1;
    }
    out
}

/// The argument a login launch carries, so that the app starts in the tray.
pub const LAUNCH_ARG: &'static str = " --minimized";

/// The autostart command line: the quoted executable path, then the launch argument.
pub open spec fn autostart_command(exe: Seq<char>) -> Seq<char> {
    "\""@ + exe + "\""@ + LAUNCH_ARG@
}

/// The autostart command line for executable `exe` (see `autostart_command`).
pub fn command_value(exe: &str) -> (r: String)
    ensures
        r@ == autostart_command(exe@),
{
    let mut s = String::from_str("\"");
    s.append(exe);
    s.append("\"");
    s.append(LAUNCH_ARG);
    s
}

/// Whether autostart is on: the stored entry exists and launches this
/// executable (after the executable moved it counts as off).
pub fn autostart_status(exe: Option<&str>, stored: Option<String>) -> (r: bool)
    ensures
        r == match (exe, stored) {
            (Some(e), Some(v)) => v@ == autostart_command(e@),
            _ => false,
        },
{
    match (exe, stored) {
        (Some(e), Some(v)) => {
            let expected = command_value(e);
            expected == v
        },
        _ => false,
    }
}

/// The answer to an autostart change where it is unavailable.
pub fn autostart_set_unsupported() -> (r: Result<(), String>)
    ensures
        r matches Err(e) && e@ == "仅支持 Windows"@,
{
    Err(String::from_str("仅支持 Windows"))
}

/// The PowerShell command that relaunches `exe` elevated: single quotes in
/// the path doubled, exit status 0 when the relaunch was accepted.
pub open spec fn elevation_command(exe: Seq<char>) -> Seq<char> {
    "try { Start-Process -FilePath '"@ + replace_all(exe, "'"@, "''"@)
        + "' -Verb RunAs -ErrorAction Stop; exit 0 } catch { exit 1 }"@
}

/// The elevated-relaunch command for `exe` (see `elevation_command`).
pub fn elevation_script(exe: &str) -> (r: String)
    ensures
        r@ == elevation_command(exe@),
{
    proof {
        reveal_strlit("'");
    }
    let escaped = replace_str(exe, "'", "''");
    let mut s = String::from_str("try { Start-Process -FilePath '");
    s.append(escaped.as_str());
    s.append("' -Verb RunAs -ErrorAction Stop; exit 0 } catch { exit 1 }");
    s
}

} // verus!
