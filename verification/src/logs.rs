//! Log file naming and the one-shot rollover rule of the replicas' logs.

use crate::strings::{decimal, spec_decimal};
use vstd::prelude::*;

verus! {

/// The path of a log of node `id`: `./logs/log_<id>/febft<suffix>.log`.
pub open spec fn spec_log_path(id: u32, suffix: Seq<char>) -> Seq<char> {
    "./logs/log_"@ + spec_decimal(id as nat) + "/febft"@ + suffix + ".log"@
}

/// The pattern of a log's rolled files, whose `{}` the roller replaces by
/// the file's index: `./logs/log_<id>/old/febft<suffix>.log.{}`.
pub open spec fn spec_old_log_pattern(id: u32, suffix: Seq<char>) -> Seq<char> {
    "./logs/log_"@ + spec_decimal(id as nat) + "/old/febft"@ + suffix + ".log.{}"@
}

pub fn format_log(id: u32, suffix: &str) -> (r: String)
    ensures
        r@ == spec_log_path(id, suffix@),
{
    let mut path = String::from_str("./logs/log_");
    let n = decimal(id as usize);
    path.append(n.as_str());
    path.append("/febft");
    path.append(suffix);
    path.append(".log");
    path
}

pub fn format_old_log(id: u32, suffix: &str) -> (r: String)
    ensures
        r@ == spec_old_log_pattern(id, suffix@),
{
    let mut path = String::from_str("./logs/log_");
    let n = decimal(id as usize);
    path.append(n.as_str());
    path.append("/old/febft");
    path.append(suffix);
    path.append(".log.{}");
    path
}

/// The folder of node `id`'s logs: `./logs/log_<id>`.
pub open spec fn spec_log_folder(id: u32) -> Seq<char> {
    "./logs/log_"@ + spec_decimal(id as nat)
}

/// The file name of node `id`'s debug trace: `atlas_debug_<id>.log`.
pub open spec fn spec_debug_log_name(id: u32) -> Seq<char> {
    "atlas_debug_"@ + spec_decimal(id as nat) + ".log"@
}

/// The file name of node `id`'s informational trace: `atlas_<id>.log`.
pub open spec fn spec_info_log_name(id: u32) -> Seq<char> {
    "atlas_"@ + spec_decimal(id as nat) + ".log"@
}

pub fn log_folder(id: u32) -> (r: String)
    ensures
        r@ == spec_log_folder(id),
{
    let mut path = String::from_str("./logs/log_");
    let n = decimal(id as usize);
    path.append(n.as_str());
    path
}

pub fn debug_log_name(id: u32) -> (r: String)
    ensures
        r@ == spec_debug_log_name(id),
{
    let mut name = String::from_str("atlas_debug_");
    let n = decimal(id as usize);
    name.append(n.as_str());
    name.append(".log");
    name
}

pub fn info_log_name(id: u32) -> (r: String)
    ensures
        r@ == spec_info_log_name(id),
{
    let mut name = String::from_str("atlas_");
    let n = decimal(id as usize);
    name.append(n.as_str());
    name.append(".log");
    name
}

/// One look at a file of estimated length `len`: whether it rolls over,
/// and whether the rule has fired afterwards.
pub open spec fn spec_trigger(fired: bool, len: u64) -> (bool, bool) {
    (len != 0 && !fired, true)
}

/// How many of the successive looks at files of the given lengths roll over.
pub open spec fn rollovers(fired: bool, lens: Seq<u64>) -> nat
    decreases lens.len(),
{
    if lens.len() == 0 {
        0
    } else {
        (if spec_trigger(fired, lens[0]).0 {
            1nat
        } else {
            0nat
        }) + rollovers(spec_trigger(fired, lens[0]).1, lens.drop_first())
    }
}

/// The rollover rule of a log: the first look at a non-empty file rolls it
/// over, and nothing after that does; an empty file is never rolled over,
/// and once one has been seen nothing is.
pub struct InitTrigger {
    pub has_been_triggered: bool,
}

impl InitTrigger {
    /// A rule that has not fired.
    pub fn new() -> (t: Self)
        ensures
            !t.has_been_triggered,
    {
        InitTrigger { has_been_triggered: false }
    }

    /// Whether the file, of estimated length `len_estimate`, rolls over now.
    pub fn trigger(&mut self, len_estimate: u64) -> (r: bool)
        ensures
            (r, final(self).has_been_triggered) == spec_trigger(
                old(self).has_been_triggered,
                len_estimate,
            ),
    {
        if len_estimate == 0 {
            self.has_been_triggered = true;
            return false;
        }
        let fire = !self.has_been_triggered;
        self.has_been_triggered = true;
        fire
    }
}

/// A log rolls over at most once, and never once its rule has fired.
pub proof fn lemma_rolls_over_at_most_once(fired: bool, lens: Seq<u64>)
    ensures
        rollovers(fired, lens) <= 1,
        fired ==> rollovers(fired, lens) == 0,
    decreases lens.len(),
{
    if lens.len() > 0 {
        lemma_rolls_over_at_most_once(true, lens.drop_first());
    }
}

} // verus!
