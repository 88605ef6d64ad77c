use vstd::prelude::*;
use crate::json::{JsonValue, Json};
use crate::sync::{json_to_string_pretty, json_pretty_of};

verus! {

/// The file, under the save root, that holds the inventory dump.
pub const INVENTORY_FILE_NAME: &'static str = "inventory.json";

/// The file, under the save root, that holds the Hall of Fame dump.
pub const VETERANS_FILE_NAME: &'static str = "veterans.json";

/// What to do with a list of trained characters.
pub enum VeteranPlan {
    /// Not an array: warn and write nothing.
    NotArray,
    /// An empty array: write nothing.
    Empty,
    /// Write `veterans.json`; this many characters.
    Save(usize),
}

/// Decides whether a Hall of Fame list is written: only a non-empty array is.
pub fn veteran_save_plan(list: &JsonValue) -> (res: VeteranPlan)
    ensures
        match list@ {
            Json::Array(a) => if a.len() == 0 {
                res is Empty
            } else {
                res matches VeteranPlan::Save(n) && n == a.len()
            },
            _ => res is NotArray,
        },
{
    match list {
        JsonValue::Array(a) => {
            proof {
                crate::json::lemma_json_view_seq(a@);
            }
            if a.len() == 0 {
                VeteranPlan::Empty
            } else {
                VeteranPlan::Save(a.len())
            }
        },
        _ => VeteranPlan::NotArray,
    }
}

/// The text written to `inventory.json` or `veterans.json` for a document: its
/// indented JSON (as serde_json's `to_string_pretty`).
pub fn json_file_text(data: &JsonValue) -> (res: String)
    ensures
        res@ == json_pretty_of(data@),
{
    match json_to_string_pretty(data) {
        Ok(t) => t,
        Err(_) => {
            proof {
                assert(false);
            }
            String::new()
        },
    }
}

} // verus!
