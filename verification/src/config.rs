//! The user configuration: the interactive selector settings and the
//! regex handler rules, plus the pure decisions behind selector output and
//! terminal-emulator discovery.

use vstd::prelude::*;

use crate::apps::regex::ConfigHandler;
use crate::desktop_entry::DesktopEntry;
use crate::error::Error;
use crate::handler::Handler;
use crate::strutil::{contains_string, str_eq, trim_end, trim_end_spec};

verus! {

/// The configuration read at process start.
#[derive(Debug)]
pub struct Config {
    /// Whether the interactive selector may pick among several defaults.
    pub enable_selector: bool,
    /// The selector command line.
    pub selector: String,
    /// The regex handler rules.
    pub handlers: Vec<ConfigHandler>,
}

impl Default for Config {
    /// The selector is off by default and points at a common picker.
    fn default() -> (r: Config)
        ensures
            !r.enable_selector,
            r.selector@ == "rofi -dmenu -p 'Open With: '"@,
            r.handlers@.len() == 0,
    {
        Config {
            enable_selector: false,
            selector: String::from_str("rofi -dmenu -p 'Open With: '"),
            handlers: Vec::new(),
        }
    }
}

/// Interprets what the selector process wrote: its output with trailing
/// whitespace removed is the chosen name, and an empty choice is a
/// cancellation — distinct from any resolution failure.
pub fn interpret_selection(raw: &str) -> (r: Result<String, Error>)
    ensures
        trim_end_spec(raw@).len() == 0 ==> (r matches Err(e) && e matches Error::Cancelled),
        trim_end_spec(raw@).len() > 0 ==> (r matches Ok(s) && s@ == trim_end_spec(raw@)),
{
    let trimmed = trim_end(raw);
    if trimmed.as_str().unicode_len() == 0 {
        Err(Error::Cancelled)
    } else {
        Ok(trimmed)
    }
}

/// The handler of the first candidate pair whose display name is the
/// chosen one.
pub fn find_choice(pairs: &Vec<(Handler, String)>, name: &str) -> (r: Option<Handler>)
    ensures
        match r {
            Some(h) => exists|i: int|
                0 <= i < pairs@.len() && (#[trigger] pairs@[i]).1@ == name@ && pairs@[i].0@ == h@,
            None => forall|i: int| 0 <= i < pairs@.len() ==> (#[trigger] pairs@[i]).1@ != name@,
        },
{
    let n = pairs.len();
    let mut i: usize = 0;
    while i < n
        invariant
            n == pairs@.len(),
            0 <= i <= n,
            forall|t: int| 0 <= t < i ==> (#[trigger] pairs@[t]).1@ != name@,
        decreases n - i,
    {
        if str_eq(pairs[i].1.as_str(), name) {
            return Some(pairs[i].0.clone());
        }
        i = i + 1;
    }
    None
}

/// The first descriptor tagged as a terminal emulator, used to guess a
/// terminal when none is configured.
pub fn find_terminal_entry(entries: &Vec<DesktopEntry>) -> (r: Option<usize>)
    ensures
        match r {
            Some(i) => i < entries@.len() && entries@[i as int]@.categories.contains(
                "TerminalEmulator"@,
            ) && (forall|t: int|
                0 <= t < i ==> !(#[trigger] entries@[t])@.categories.contains(
                    "TerminalEmulator"@,
                )),
            None => forall|t: int|
                0 <= t < entries@.len() ==> !(#[trigger] entries@[t])@.categories.contains(
                    "TerminalEmulator"@,
                ),
        },
{
    let n = entries.len();
    let mut i: usize = 0;
    let probe = String::from_str("TerminalEmulator");
    while i < n
        invariant
            n == entries@.len(),
            0 <= i <= n,
            probe@ == "TerminalEmulator"@,
            forall|t: int|
                0 <= t < i ==> !(#[trigger] entries@[t])@.categories.contains(
                    "TerminalEmulator"@,
                ),
        decreases n - i,
    {
        if contains_string(&entries[i].categories, &probe) {
            proof {
                assert(entries@[i as int].categories.deep_view().contains("TerminalEmulator"@));
            }
            return Some(i);
        }
        proof {
            assert(!entries@[i as int]@.categories.contains("TerminalEmulator"@));
        }
        i = i + 1;
    }
    None
}

} // verus!
