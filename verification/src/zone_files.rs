//! What to do with the file of a zone: a file that already holds the text
//! is left alone, any other is replaced as a whole.

use crate::text;
use vstd::prelude::*;
use vstd::string::StringExecFns;

verus! {

/// The mode of a zone file: it may be read and not written, since what is
/// written into it by hand would be lost.
pub const READ_ONLY: u32 = 0o444;

/// What was found where the file of a zone is to be.
#[derive(Debug, PartialEq, Eq)]
pub enum Previous<'a> {
    /// No file is there.
    Absent,
    /// A file is there and cannot be read.
    Unreadable,
    /// A file with this text is there.
    Text(&'a str),
}

/// What is to be done with the file.
#[derive(Clone, Copy, Debug, PartialEq, Eq)]
pub enum Action {
    /// The file holds the text already: nothing is written.
    Keep,
    /// The text is written to a new file, which then takes the place of
    /// the old one.
    Replace,
    /// The file is left as it is, and the zone is reported.
    GiveUp,
}

/// The file of a zone and what is to be done with it.
#[derive(Debug, PartialEq, Eq)]
pub struct Save {
    pub file_name: String,
    pub action: Action,
    pub mode: u32,
}

/// The name of the file of a zone.
pub open spec fn file_name(zone_name: Seq<char>) -> Seq<char> {
    zone_name + ".zone"@
}

/// What is to be done where `previous` was found and `zone_data` is the
/// text that the file is to hold.
pub open spec fn action_for(previous: Previous, zone_data: Seq<char>) -> Action {
    match previous {
        Previous::Absent => Action::Replace,
        Previous::Unreadable => Action::GiveUp,
        Previous::Text(found) => if found@ == zone_data {
            Action::Keep
        } else {
            Action::Replace
        },
    }
}

/// The file of the zone `zone_name` and what is to be done with it, so
/// that it holds `zone_data`.
pub fn save(zone_name: &str, zone_data: &str, previous: Previous) -> (plan: Save)
    ensures
        plan.file_name@ == file_name(zone_name@),
        plan.action == action_for(previous, zone_data@),
        plan.mode == READ_ONLY,
{
    let mut file_name = String::from_str(zone_name);
    file_name.append(".zone");
    let action = match previous {
        Previous::Absent => Action::Replace,
        Previous::Unreadable => Action::GiveUp,
        Previous::Text(found) => if text::same(found, zone_data) {
            Action::Keep
        } else {
            Action::Replace
        },
    };
    Save { file_name, action, mode: READ_ONLY }
}

} // verus!
