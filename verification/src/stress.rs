//! The modes of the stress tester, each chosen by its name on the command
//! line.

use vstd::prelude::*;
use vstd::string::StringExecFns;

verus! {

#[derive(Clone, Copy, Debug, PartialEq, Eq, Structural)]
pub enum Mode {
    /// One connection that sends random bytes for ever.
    Dragon,
    /// As many open connections as the system allows.
    Hydra,
    /// Connections that are opened and dropped at once.
    Gnome,
}

/// How many random bytes the dragon sends at a time.
pub const DRAGON_BUFFER_SIZE: usize = 1024;

/// How long the dragon waits between the token and the flood: 100
/// milliseconds, in nanoseconds.
pub const DRAGON_PAUSE: u64 = 100_000_000;

impl Mode {
    pub open spec fn spec_name(self) -> Seq<char> {
        match self {
            Mode::Dragon => "dragon"@,
            Mode::Hydra => "hydra"@,
            Mode::Gnome => "gnome"@,
        }
    }

    pub open spec fn spec_description(self) -> Seq<char> {
        match self {
            Mode::Dragon => "Just connects and sends a lot of random data"@,
            Mode::Hydra => "Opens as many connections as possible"@,
            Mode::Gnome => "Keeps opening and closing connections"@,
        }
    }

    /// The name that chooses the mode.
    pub fn name(self) -> (name: &'static str)
        ensures
            name@ == self.spec_name(),
    {
        match self {
            Mode::Dragon => "dragon",
            Mode::Hydra => "hydra",
            Mode::Gnome => "gnome",
        }
    }

    /// What the mode does, in a few words.
    pub fn description(self) -> (text: &'static str)
        ensures
            text@ == self.spec_description(),
    {
        match self {
            Mode::Dragon => "Just connects and sends a lot of random data",
            Mode::Hydra => "Opens as many connections as possible",
            Mode::Gnome => "Keeps opening and closing connections",
        }
    }

    /// The mode that `name` chooses, if it chooses one.
    pub fn from_name(name: &str) -> (mode: Option<Mode>)
        ensures
            match mode {
                Some(m) => name@ == m.spec_name(),
                None => forall|m: Mode| name@ != m.spec_name(),
            },
    {
        let name = String::from_str(name);
        if name == String::from_str("dragon") {
            Some(Mode::Dragon)
        } else if name == String::from_str("hydra") {
            Some(Mode::Hydra)
        } else if name == String::from_str("gnome") {
            Some(Mode::Gnome)
        } else {
            None
        }
    }
}

/// The modes, in the order in which the usage text lists them.
pub fn modes() -> (all: Vec<Mode>)
    ensures
        all@ == seq![Mode::Dragon, Mode::Hydra, Mode::Gnome],
{
    let mut all: Vec<Mode> = Vec::new();
    all.push(Mode::Dragon);
    all.push(Mode::Hydra);
    all.push(Mode::Gnome);
    all
}

/// One line of the usage text for `mode`.
pub open spec fn spec_usage_line(mode: Mode) -> Seq<char> {
    "    "@ + mode.spec_name() + " - "@ + mode.spec_description()
}

/// The usage text of the program that was started as `program`: how to
/// call it, and a line for each mode.
pub fn usage(program: &str) -> (lines: Vec<String>)
    ensures
        lines@.len() == 5,
        lines@[0]@ == "Usage: "@ + program@ + " <command>"@,
        lines@[1]@ == "Commands:"@,
        lines@[2]@ == spec_usage_line(Mode::Dragon),
        lines@[3]@ == spec_usage_line(Mode::Hydra),
        lines@[4]@ == spec_usage_line(Mode::Gnome),
{
    let mut lines: Vec<String> = Vec::new();
    lines.push(String::from_str("Usage: ").concat(program).concat(" <command>"));
    lines.push(String::from_str("Commands:"));
    let all = modes();
    let mut i: usize = 0;
    while i < all.len()
        invariant
            i <= 3,
            all@ == seq![Mode::Dragon, Mode::Hydra, Mode::Gnome],
            lines@.len() == 2 + i,
            lines@[0]@ == "Usage: "@ + program@ + " <command>"@,
            lines@[1]@ == "Commands:"@,
            forall|k: int| 0 <= k < i ==> (#[trigger] lines@[2 + k])@ == spec_usage_line(all@[k]),
        decreases all.len() - i,
    {
        let mode = all[i];
        lines.push(
            String::from_str("    ").concat(mode.name()).concat(" - ").concat(mode.description()),
        );
        i += 1;
    }
    assert(lines@[2 + 0int]@ == spec_usage_line(all@[0]));
    assert(lines@[2 + 1int]@ == spec_usage_line(all@[1]));
    assert(lines@[2 + 2int]@ == spec_usage_line(all@[2]));
    lines
}

} // verus!
