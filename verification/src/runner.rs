//! The runner value objects: a full `Runner` and the partial
//! `RunnerConfigEntry` it is resolved from.

use vstd::prelude::*;

verus! {

/// The abstract value of a [`Runner`]: its fields as mathematical values.
pub struct RunnerView {
    pub name: Seq<char>,
    pub cmd: Seq<char>,
    pub quit_fast: bool,
}

/// Holds all state required by a runner to execute a command.
#[derive(Debug)]
pub struct Runner {
    /// The name shown for searching / selecting, and the key used when
    /// merging configuration sources and when looking a runner up.
    pub name: String,
    /// The shell command line to execute verbatim at run time.
    pub cmd: String,
    /// False if execution should pause for an extra acknowledgment before
    /// returning control.
    pub quit_fast: bool,
}

impl View for Runner {
    type V = RunnerView;

    open spec fn view(&self) -> RunnerView {
        RunnerView { name: self.name@, cmd: self.cmd@, quit_fast: self.quit_fast }
    }
}

impl Clone for Runner {
    fn clone(&self) -> (r: Self)
        ensures
            r == *self,
    {
        Runner { name: self.name.clone(), cmd: self.cmd.clone(), quit_fast: self.quit_fast }
    }
}

impl PartialEq for Runner {
    fn eq(&self, other: &Self) -> (r: bool) {
        self.name == other.name && self.cmd == other.cmd && self.quit_fast == other.quit_fast
    }
}

impl vstd::std_specs::cmp::PartialEqSpecImpl for Runner {
    open spec fn obeys_eq_spec() -> bool {
        true
    }

    open spec fn eq_spec(&self, other: &Self) -> bool {
        self@ == other@
    }
}

/// The abstract value of a [`RunnerConfigEntry`].
pub struct RunnerConfigEntryView {
    pub name: Option<Seq<char>>,
    pub cmd: Option<Seq<char>>,
    pub quit_fast: Option<bool>,
}

/// One partial runner entry as read from a configuration source: every field
/// is optional, and absent fields resolve to fixed defaults.
#[derive(Debug)]
pub struct RunnerConfigEntry {
    pub name: Option<String>,
    pub cmd: Option<String>,
    pub quit_fast: Option<bool>,
}

impl View for RunnerConfigEntry {
    type V = RunnerConfigEntryView;

    open spec fn view(&self) -> RunnerConfigEntryView {
        RunnerConfigEntryView {
            name: match self.name {
                Some(ref n) => Some(n@),
                None => None,
            },
            cmd: match self.cmd {
                Some(ref c) => Some(c@),
                None => None,
            },
            quit_fast: self.quit_fast,
        }
    }
}

/// The name a resolved runner gets when the entry leaves it out.
pub open spec fn default_name() -> Seq<char> {
    "Default Runner Name"@
}

/// The command a resolved runner gets when the entry leaves it out.
pub open spec fn default_cmd() -> Seq<char> {
    "echo 'command not set'"@
}

/// What resolving a partial entry yields: each present field is preserved
/// unchanged, each absent field is the fixed default (`quit_fast` defaults to
/// false).
pub open spec fn resolved(conf: RunnerConfigEntryView) -> RunnerView {
    RunnerView {
        name: match conf.name {
            Some(n) => n,
            None => default_name(),
        },
        cmd: match conf.cmd {
            Some(c) => c,
            None => default_cmd(),
        },
        quit_fast: match conf.quit_fast {
            Some(q) => q,
            None => false,
        },
    }
}

/// Relies on std's `String::push_str`: it appends the given string slice
/// onto the end of the string.
pub assume_specification[ String::push_str ](s: &mut String, other: &str)
    ensures
        final(s)@ == old(s)@ + other@,
;

/// The preview block shown beside a runner while selecting: its fields,
/// one `key=value` line each, under a `[PARAMS]` header.
pub open spec fn preview_text(r: RunnerView) -> Seq<char> {
    "[PARAMS]\n"@ + "name="@ + r.name + "\n"@ + "cmd="@ + r.cmd + "\n"@ + "quit_fast="@ + (if r.quit_fast {
        "true"@
    } else {
        "false"@
    }) + "\n"@
}

impl Runner {
    /// Returns a `Runner`, filling in any blanks with defaults.
    pub fn new_from_config(conf: &RunnerConfigEntry) -> (r: Runner)
        ensures
            r@ == resolved(conf@),
    {
        Runner {
            name: match &conf.name {
                Some(n) => n.clone(),
                None => "Default Runner Name".to_string(),
            },
            cmd: match &conf.cmd {
                Some(c) => c.clone(),
                None => "echo 'command not set'".to_string(),
            },
            quit_fast: match conf.quit_fast {
                Some(q) => q,
                None => false,
            },
        }
    }

    /// The searchable label a runner exposes to the selector: its name.
    pub fn text(&self) -> (r: &str)
        ensures
            r@ == self@.name,
    {
        self.name.as_str()
    }

    /// The human-readable preview block a runner exposes to the selector.
    pub fn preview(&self) -> (r: String)
        ensures
            r@ == preview_text(self@),
    {
        let mut prev = String::new();
        prev.push_str("[PARAMS]\n");

        prev.push_str("name=");
        prev.push_str(self.name.as_str());
        prev.push_str("\n");

        prev.push_str("cmd=");
        prev.push_str(self.cmd.as_str());
        prev.push_str("\n");

        prev.push_str("quit_fast=");
        if self.quit_fast {
            prev.push_str("true");
        } else {
            prev.push_str("false");
        }
        prev.push_str("\n");

        proof {
            assert(prev@ =~= preview_text(self@));
        }
        prev
    }
}

} // verus!
