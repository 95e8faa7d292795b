//! What the terminal client makes of a line of the server and of a line of
//! the user.

use vstd::prelude::*;
use vstd::slice::slice_subrange;
use vstd::string::StringExecFns;
use vstd::utf8::{decode_utf8, valid_utf8};
use crate::prompt::Prompt;
use crate::screen::{chars_of, Color};
use crate::text::{sanitize, spec_sanitize, utf8_text};

verus! {

/// The text to show for `bytes` that came from the server: the bytes
/// without their control characters, where those are text, and nothing where
/// they are not.
pub fn sanitize_terminal_output(bytes: &[u8]) -> (line: Option<String>)
    ensures
        line is Some <==> valid_utf8(spec_sanitize(bytes@)),
        line is Some ==> line->0@ == decode_utf8(spec_sanitize(bytes@)),
{
    let clean = sanitize(bytes);
    match utf8_text(clean.as_slice()) {
        Some(text) => Some(text.to_owned()),
        None => None,
    }
}

/// Where the first space of `s` stands, or the length of `s` where it has
/// none.
pub open spec fn spec_first_space(s: Seq<char>) -> int
    decreases s.len(),
{
    if s.len() == 0 || s[0] == ' ' {
        0
    } else {
        1 + spec_first_space(s.drop_first())
    }
}

/// The first space is a space, nothing left of it is one, and without a
/// space it is the length.
pub proof fn lemma_first_space(s: Seq<char>)
    ensures
        0 <= spec_first_space(s) <= s.len(),
        spec_first_space(s) < s.len() ==> s[spec_first_space(s)] == ' ',
        forall|j: int| 0 <= j < spec_first_space(s) ==> s[j] != ' ',
    decreases s.len(),
{
    if !(s.len() == 0 || s[0] == ' ') {
        lemma_first_space(s.drop_first());
        assert forall|j: int| 0 <= j < spec_first_space(s) implies s[j] != ' ' by {
            if j > 0 {
                assert(s.drop_first()[j - 1] == s[j]);
            }
        }
    }
}

/// The first space is the only position with those properties.
pub proof fn lemma_first_space_is(s: Seq<char>, k: int)
    requires
        0 <= k <= s.len(),
        k < s.len() ==> s[k] == ' ',
        forall|j: int| 0 <= j < k ==> s[j] != ' ',
    ensures
        spec_first_space(s) == k,
{
    lemma_first_space(s);
    let f = spec_first_space(s);
    if f < k {
        assert(s[f] != ' ');
    } else if k < f {
        assert(s[k] != ' ');
    }
}

/// A command line is a slash, the command's name up to the first space, and
/// behind that space the argument. Any other line is no command.
pub open spec fn spec_parse_command(prompt: Seq<char>) -> Option<(Seq<char>, Seq<char>)> {
    if prompt.len() == 0 || prompt[0] != '/' {
        None
    } else {
        let rest = prompt.subrange(1, prompt.len() as int);
        let k = spec_first_space(rest);
        if k < rest.len() {
            Some((rest.subrange(0, k), rest.subrange(k + 1, rest.len() as int)))
        } else {
            Some((rest, Seq::empty()))
        }
    }
}

/// Splits a command line into the command's name and its argument.
pub fn parse_command<'a>(prompt: &'a [char]) -> (parts: Option<(&'a [char], &'a [char])>)
    ensures
        match parts {
            Some((name, argument)) => spec_parse_command(prompt@) == Some((name@, argument@)),
            None => spec_parse_command(prompt@) is None,
        },
{
    if prompt.len() == 0 || prompt[0] != '/' {
        return None;
    }
    let rest = slice_subrange(prompt, 1, prompt.len());
    let mut k: usize = 0;
    while k < rest.len() && rest[k] != ' '
        invariant
            k <= rest@.len(),
            forall|j: int| 0 <= j < k ==> rest@[j] != ' ',
        decreases rest@.len() - k,
    {
        k += 1;
    }
    proof {
        lemma_first_space_is(rest@, k as int);
    }
    if k < rest.len() {
        Some((slice_subrange(rest, 0, k), slice_subrange(rest, k + 1, rest.len())))
    } else {
        let nothing = slice_subrange(rest, 0, 0);
        assert(nothing@ =~= Seq::<char>::empty());
        assert(rest@ =~= prompt@.subrange(1, prompt@.len() as int));
        Some((rest, nothing))
    }
}

/// What the user can order with a line that begins with a slash.
#[derive(Clone, Copy, Debug, PartialEq, Eq, Structural)]
pub enum Command {
    Connect,
    Disconnect,
    Quit,
    Help,
}

impl Command {
    pub open spec fn spec_name(self) -> Seq<char> {
        match self {
            Command::Connect => "connect"@,
            Command::Disconnect => "disconnect"@,
            Command::Quit => "quit"@,
            Command::Help => "help"@,
        }
    }

    pub open spec fn spec_description(self) -> Seq<char> {
        match self {
            Command::Connect => "Connect to a server by <ip> with authorization <token>"@,
            Command::Disconnect => "Disconnect from the server you are currently connected to"@,
            Command::Quit => "Close the chat"@,
            Command::Help => "Print help"@,
        }
    }

    pub open spec fn spec_signature(self) -> Seq<char> {
        match self {
            Command::Connect => "/connect <ip> <token>"@,
            Command::Disconnect => "/disconnect"@,
            Command::Quit => "/quit"@,
            Command::Help => "/help [command]"@,
        }
    }

    /// The word behind the slash that orders the command.
    pub fn name(self) -> (name: &'static str)
        ensures
            name@ == self.spec_name(),
    {
        match self {
            Command::Connect => "connect",
            Command::Disconnect => "disconnect",
            Command::Quit => "quit",
            Command::Help => "help",
        }
    }

    /// What the command does, in a few words.
    pub fn description(self) -> (text: &'static str)
        ensures
            text@ == self.spec_description(),
    {
        match self {
            Command::Connect => "Connect to a server by <ip> with authorization <token>",
            Command::Disconnect => "Disconnect from the server you are currently connected to",
            Command::Quit => "Close the chat",
            Command::Help => "Print help",
        }
    }

    /// How to write the command.
    pub fn signature(self) -> (text: &'static str)
        ensures
            text@ == self.spec_signature(),
    {
        match self {
            Command::Connect => "/connect <ip> <token>",
            Command::Disconnect => "/disconnect",
            Command::Quit => "/quit",
            Command::Help => "/help [command]",
        }
    }
}

/// The commands, in the order in which help lists them and completion
/// tries them.
pub open spec fn spec_commands() -> Seq<Command> {
    seq![Command::Connect, Command::Disconnect, Command::Quit, Command::Help]
}

pub fn commands() -> (all: Vec<Command>)
    ensures
        all@ == spec_commands(),
{
    let mut all: Vec<Command> = Vec::new();
    all.push(Command::Connect);
    all.push(Command::Disconnect);
    all.push(Command::Quit);
    all.push(Command::Help);
    all
}

/// Whether `a` and `b` are the same characters.
fn same_chars(a: &[char], b: &[char]) -> (same: bool)
    ensures
        same == (a@ == b@),
{
    if a.len() != b.len() {
        return false;
    }
    let mut i: usize = 0;
    while i < a.len()
        invariant
            i <= a@.len(),
            a@.len() == b@.len(),
            forall|j: int| 0 <= j < i ==> a@[j] == b@[j],
        decreases a@.len() - i,
    {
        if a[i] != b[i] {
            return false;
        }
        i += 1;
    }
    assert(a@ =~= b@);
    true
}

/// The command whose name is the characters `name`, if there is one.
pub fn find_named(name: &[char]) -> (found: Option<Command>)
    ensures
        match found {
            Some(c) => name@ == c.spec_name(),
            None => forall|c: Command| name@ != c.spec_name(),
        },
{
    let all = commands();
    let mut i: usize = 0;
    while i < all.len()
        invariant
            i <= all@.len(),
            all@ == spec_commands(),
            forall|j: int| 0 <= j < i ==> name@ != (#[trigger] all@[j]).spec_name(),
        decreases all@.len() - i,
    {
        let candidate = chars_of(all[i].name());
        if same_chars(name, candidate.as_slice()) {
            return Some(all[i]);
        }
        i += 1;
    }
    proof {
        assert forall|c: Command| name@ != c.spec_name() by {
            match c {
                Command::Connect => assert(all@[0] == c),
                Command::Disconnect => assert(all@[1] == c),
                Command::Quit => assert(all@[2] == c),
                Command::Help => assert(all@[3] == c),
            }
        }
    }
    None
}

/// The command of that name, if there is one.
pub fn find_command(name: &str) -> (found: Option<Command>)
    ensures
        match found {
            Some(c) => name@ == c.spec_name(),
            None => forall|c: Command| name@ != c.spec_name(),
        },
{
    let name = chars_of(name);
    find_named(name.as_slice())
}

/// Whether `name` begins with `prefix`.
fn starts_with(name: &[char], prefix: &[char]) -> (begins: bool)
    ensures
        begins == prefix@.is_prefix_of(name@),
{
    if prefix.len() > name.len() {
        return false;
    }
    let mut i: usize = 0;
    while i < prefix.len()
        invariant
            i <= prefix@.len() <= name@.len(),
            forall|j: int| 0 <= j < i ==> prefix@[j] == name@[j],
        decreases prefix@.len() - i,
    {
        if prefix[i] != name[i] {
            assert(name@.subrange(0, prefix@.len() as int)[i as int] != prefix@[i as int]);
            return false;
        }
        i += 1;
    }
    assert(name@.subrange(0, prefix@.len() as int) =~= prefix@);
    true
}

/// The first of `among` whose name begins with `prefix`.
pub open spec fn spec_complete(among: Seq<Command>, prefix: Seq<char>) -> Option<Command>
    decreases among.len(),
{
    if among.len() == 0 {
        None
    } else if prefix.is_prefix_of(among[0].spec_name()) {
        Some(among[0])
    } else {
        spec_complete(among.drop_first(), prefix)
    }
}

/// The command that `prefix` is the beginning of: the first such in the
/// order of the commands.
pub fn complete_command(prefix: &[char]) -> (found: Option<Command>)
    ensures
        found == spec_complete(spec_commands(), prefix@),
{
    let all = commands();
    let mut i: usize = 0;
    assert(all@.skip(0) =~= all@);
    while i < all.len()
        invariant
            i <= all@.len(),
            all@ == spec_commands(),
            spec_complete(all@.skip(i as int), prefix@) == spec_complete(
                spec_commands(),
                prefix@,
            ),
        decreases all@.len() - i,
    {
        let name = chars_of(all[i].name());
        proof {
            assert(all@.skip(i as int)[0] == all@[i as int]);
            assert(all@.skip(i as int).drop_first() =~= all@.skip(i + 1));
        }
        if starts_with(name.as_slice(), prefix) {
            return Some(all[i]);
        }
        i += 1;
    }
    None
}

/// The words of `s`: what stands between its spaces, without what is
/// empty.
pub open spec fn spec_words(s: Seq<char>) -> Seq<Seq<char>>
    decreases s.len(),
{
    if s.len() == 0 {
        Seq::empty()
    } else if s[0] == ' ' {
        spec_words(s.drop_first())
    } else {
        let k = spec_first_space(s);
        if 0 < k <= s.len() {
            seq![s.subrange(0, k)] + spec_words(s.subrange(k, s.len() as int))
        } else {
            Seq::empty()
        }
    }
}

/// What to do about an order to connect.
#[derive(Clone, Debug, PartialEq, Eq)]
pub enum ConnectPlan {
    /// Connect to the server at `ip` and send it `token`.
    Dial { ip: Vec<char>, token: Vec<char> },
    /// The argument is not an address and a token.
    BadUsage,
    /// There is a connection already.
    AlreadyConnected,
}

impl ConnectPlan {
    /// What to tell the user, where nothing is done.
    pub fn complaint(&self) -> (line: Option<&'static str>)
        ensures
            line is None <==> self is Dial,
            self is BadUsage ==> line->0@
                == "Incorrect usage of connect command. Try /connect <ip> <token>"@,
            self is AlreadyConnected ==> line->0@
                == "You are already connected to a server. Disconnect with /disconnect first."@,
    {
        match self {
            ConnectPlan::Dial { .. } => None,
            ConnectPlan::BadUsage => Some(
                "Incorrect usage of connect command. Try /connect <ip> <token>",
            ),
            ConnectPlan::AlreadyConnected => Some(
                "You are already connected to a server. Disconnect with /disconnect first.",
            ),
        }
    }
}

/// Splits `s` into its words.
pub fn split_words(s: &[char]) -> (words: Vec<Vec<char>>)
    ensures
        words@.len() == spec_words(s@).len(),
        forall|i: int| 0 <= i < words@.len() ==> (#[trigger] words@[i])@ == spec_words(s@)[i],
{
    let mut words: Vec<Vec<char>> = Vec::new();
    let mut i: usize = 0;
    let ghost mut found: Seq<Seq<char>> = Seq::empty();
    proof {
        assert(s@.subrange(0, s@.len() as int) =~= s@);
        assert(found + spec_words(s@) =~= spec_words(s@));
    }
    while i < s.len()
        invariant
            i <= s@.len(),
            found.len() == words@.len(),
            forall|j: int| 0 <= j < words@.len() ==> (#[trigger] words@[j])@ == found[j],
            found + spec_words(s@.subrange(i as int, s@.len() as int)) == spec_words(s@),
        decreases s@.len() - i,
    {
        let ghost rest = s@.subrange(i as int, s@.len() as int);
        if s[i] == ' ' {
            proof {
                assert(rest[0] == ' ');
                assert(rest.drop_first() =~= s@.subrange(i + 1, s@.len() as int));
            }
            i += 1;
        } else {
            let mut k: usize = i;
            let mut word: Vec<char> = Vec::new();
            while k < s.len() && s[k] != ' '
                invariant
                    i <= k <= s@.len(),
                    word@ == s@.subrange(i as int, k as int),
                    forall|j: int| i <= j < k ==> s@[j] != ' ',
                decreases s@.len() - k,
            {
                word.push(s[k]);
                assert(word@ =~= s@.subrange(i as int, k + 1));
                k += 1;
            }
            proof {
                assert(rest[0] != ' ');
                assert forall|j: int| 0 <= j < k - i implies rest[j] != ' ' by {
                    assert(rest[j] == s@[i + j]);
                }
                if k < s@.len() {
                    assert(rest[k - i] == ' ');
                }
                lemma_first_space_is(rest, k - i);
                assert(rest.subrange(0, k - i) =~= word@);
                assert(rest.subrange(k - i, rest.len() as int) =~= s@.subrange(
                    k as int,
                    s@.len() as int,
                ));
                assert(found.push(word@) + spec_words(s@.subrange(k as int, s@.len() as int))
                    =~= found + spec_words(rest));
                found = found.push(word@);
            }
            words.push(word);
            i = k;
        }
    }
    proof {
        assert(s@.subrange(s@.len() as int, s@.len() as int) =~= Seq::<char>::empty());
        assert(found + Seq::<Seq<char>>::empty() =~= found);
    }
    words
}

/// What to do about the order to connect with `argument`: with a connection
/// already nothing; else the argument must be two words, the address and the
/// token.
pub fn connect_command(connected: bool, argument: &[char]) -> (plan: ConnectPlan)
    ensures
        connected ==> plan is AlreadyConnected,
        !connected && spec_words(argument@).len() != 2 ==> plan is BadUsage,
        !connected && spec_words(argument@).len() == 2 ==> plan is Dial && plan->ip@
            == spec_words(argument@)[0] && plan->token@ == spec_words(argument@)[1],
{
    if connected {
        return ConnectPlan::AlreadyConnected;
    }
    let mut words = split_words(argument);
    if words.len() == 2 {
        let token = words.remove(1);
        let ip = words.remove(0);
        ConnectPlan::Dial { ip, token }
    } else {
        ConnectPlan::BadUsage
    }
}

/// What to tell the user about the order to disconnect.
pub fn disconnect_command(connected: bool) -> (line: &'static str)
    ensures
        line@ == if connected {
            "Disconnected."@
        } else {
            "You are already offline ._."@
        },
{
    if connected {
        "Disconnected."
    } else {
        "You are already offline ._."
    }
}

/// What `str::trim` leaves of a text.
pub uninterp spec fn spec_trim(text: Seq<char>) -> Seq<char>;

/// `str::trim`: the text without the white space at its two ends. What is
/// left depends on the text alone.
#[verifier::external_body]
fn trim(text: &str) -> (trimmed: &str)
    ensures
        trimmed@ == spec_trim(text@),
{
    text.trim()
}

/// The line of help for one command.
pub open spec fn spec_help_line(c: Command) -> Seq<char> {
    c.spec_signature() + " - "@ + c.spec_description()
}

/// The complaint about a name that is no command's.
pub open spec fn spec_unknown_command(name: Seq<char>) -> Seq<char> {
    "Unknown command `/"@ + name + "`"@
}

/// Whether `lines` are the help on `name`: on every command, in their
/// order and in blue, where the name is empty; on the command of that name,
/// in blue; or a complaint in red where there is no such command.
pub open spec fn spec_is_help(name: Seq<char>, lines: Seq<(String, Color)>) -> bool {
    if name.len() == 0 {
        &&& lines.len() == spec_commands().len()
        &&& forall|i: int|
            0 <= i < lines.len() ==> (#[trigger] lines[i]).0@ == spec_help_line(spec_commands()[i])
                && lines[i].1 == Color::Blue
    } else {
        &&& lines.len() == 1
        &&& forall|c: Command|
            name == c.spec_name() ==> lines[0].0@ == spec_help_line(c) && lines[0].1
                == Color::Blue
        &&& (forall|c: Command| name != c.spec_name()) ==> lines[0].0@ == spec_unknown_command(
            name,
        ) && lines[0].1 == Color::Red
    }
}

/// The line of help for `c`: how to write it, and what it does.
pub fn help_line(c: Command) -> (line: String)
    ensures
        line@ == spec_help_line(c),
{
    String::from_str(c.signature()).concat(" - ").concat(c.description())
}

/// The complaint about `name`, which is no command's name.
pub fn unknown_command(name: &str) -> (line: String)
    ensures
        line@ == spec_unknown_command(name@),
{
    String::from_str("Unknown command `/").concat(name).concat("`")
}

/// The names of two commands differ.
proof fn lemma_names_differ(a: Command, b: Command)
    requires
        a != b,
    ensures
        a.spec_name() != b.spec_name(),
{
    reveal_strlit("connect");
    reveal_strlit("disconnect");
    reveal_strlit("quit");
    reveal_strlit("help");
    if a.spec_name() == b.spec_name() {
        assert(a.spec_name().len() == b.spec_name().len());
        assert(a.spec_name()[0] == b.spec_name()[0]);
    }
}

/// The help on the command `name`, or on all commands where `name` is
/// empty.
pub fn help_lines(name: &str) -> (lines: Vec<(String, Color)>)
    ensures
        spec_is_help(name@, lines@),
{
    let mut lines: Vec<(String, Color)> = Vec::new();
    if name.is_empty() {
        let all = commands();
        let mut i: usize = 0;
        while i < all.len()
            invariant
                i <= all@.len(),
                all@ == spec_commands(),
                lines@.len() == i,
                forall|j: int|
                    0 <= j < i ==> (#[trigger] lines@[j]).0@ == spec_help_line(spec_commands()[j])
                        && lines@[j].1 == Color::Blue,
            decreases all@.len() - i,
        {
            lines.push((help_line(all[i]), Color::Blue));
            i += 1;
        }
    } else {
        match find_command(name) {
            Some(c) => {
                lines.push((help_line(c), Color::Blue));
                proof {
                    assert forall|d: Command| name@ == d.spec_name() implies d == c by {
                        if d != c {
                            lemma_names_differ(d, c);
                        }
                    }
                }
            },
            None => {
                lines.push((unknown_command(name), Color::Red));
            },
        }
    }
    lines
}

/// The help that the order `/help` with `argument` asks for: on the
/// command that the argument names once the white space at its ends is off,
/// or on all commands where nothing is left of it.
pub fn help_command(argument: &str) -> (lines: Vec<(String, Color)>)
    ensures
        spec_is_help(spec_trim(argument@), lines@),
{
    help_lines(trim(argument))
}

/// What a line of the user asks for when it is entered.
#[derive(Clone, Debug, PartialEq, Eq)]
pub enum Entered {
    /// The command, with its argument.
    Run { command: Command, argument: Vec<char> },
    /// A command that does not exist, by its name.
    Unknown { name: Vec<char> },
    /// The line is a message, and there is a server to send it to.
    Send,
    /// The line is a message, and there is no server.
    Offline,
}

/// The meaning of `line` as mathematics.
pub open spec fn spec_entered(line: Seq<char>, connected: bool, entered: Entered) -> bool {
    match spec_parse_command(line) {
        Some((name, argument)) => match entered {
            Entered::Run { command, argument: given } => name == command.spec_name() && given@
                == argument,
            Entered::Unknown { name: given } => given@ == name && forall|c: Command|
                name != c.spec_name(),
            _ => false,
        },
        None => if connected {
            entered is Send
        } else {
            entered is Offline
        },
    }
}

/// What the line `line` asks for: a command where it begins with a slash,
/// else a message to the server.
pub fn enter(line: &[char], connected: bool) -> (entered: Entered)
    ensures
        spec_entered(line@, connected, entered),
{
    match parse_command(line) {
        Some((name, argument)) => match find_named(name) {
            Some(command) => Entered::Run {
                command,
                argument: vstd::slice::slice_to_vec(argument),
            },
            None => Entered::Unknown { name: vstd::slice::slice_to_vec(name) },
        },
        None => if connected {
            Entered::Send
        } else {
            Entered::Offline
        },
    }
}

/// What to tell a user who writes a message without a server.
pub fn offline_line() -> (line: String)
    ensures
        line@ == "You are offline. Use "@ + Command::Connect.spec_signature()
            + " to connect to a server."@,
{
    String::from_str("You are offline. Use ").concat(Command::Connect.signature()).concat(
        " to connect to a server.",
    )
}

/// The line of the prompt once the command before the cursor is completed.
pub open spec fn spec_completed(command: Command, rest: Seq<char>) -> Seq<char> {
    seq!['/'] + command.spec_name() + rest
}

/// Completes the command that stands before the cursor. Where the line
/// up to the cursor is a slash and the beginning of a command's name, with
/// no argument behind it, that part becomes the slash and the whole name of
/// the first such command, and the cursor stands behind the name. Says
/// whether it did.
pub fn tab_complete(prompt: &mut Prompt) -> (done: bool)
    requires
        old(prompt).wf(),
    ensures
        final(prompt).wf(),
        final(prompt).scroll == old(prompt).scroll,
        match spec_parse_command(old(prompt).buffer@.subrange(0, old(prompt).cursor as int)) {
            Some((prefix, argument)) => match spec_complete(spec_commands(), prefix) {
                Some(command) => if argument.len() == 0 {
                    &&& done
                    &&& final(prompt).buffer@ == spec_completed(
                        command,
                        old(prompt).buffer@.subrange(
                            old(prompt).cursor as int,
                            old(prompt).buffer@.len() as int,
                        ),
                    )
                    &&& final(prompt).cursor == command.spec_name().len() + 1
                } else {
                    !done && *final(prompt) == *old(prompt)
                },
                None => !done && *final(prompt) == *old(prompt),
            },
            None => !done && *final(prompt) == *old(prompt),
        },
{
    let command = match parse_command(prompt.before_cursor()) {
        Some((prefix, argument)) => {
            if argument.len() != 0 {
                return false;
            }
            match complete_command(prefix) {
                Some(command) => command,
                None => {
                    return false;
                },
            }
        },
        None => {
            return false;
        },
    };
    let name = chars_of(command.name());
    let mut line: Vec<char> = Vec::new();
    line.push('/');
    let mut i: usize = 0;
    while i < name.len()
        invariant
            i <= name@.len(),
            line@ == seq!['/'] + name@.take(i as int),
        decreases name@.len() - i,
    {
        line.push(name[i]);
        assert(line@ =~= seq!['/'] + name@.take(i + 1));
        i += 1;
    }
    let mut k: usize = prompt.cursor;
    assert(name@.take(name@.len() as int) =~= name@);
    let behind_name = line.len();
    assert(line@ =~= seq!['/'] + name@ + prompt.buffer@.subrange(
        prompt.cursor as int,
        k as int,
    ));
    while k < prompt.buffer.len()
        invariant
            prompt.cursor <= k <= prompt.buffer@.len(),
            *prompt == *old(prompt),
            behind_name == name@.len() + 1,
            line@ == seq!['/'] + name@ + prompt.buffer@.subrange(prompt.cursor as int, k as int),
        decreases prompt.buffer@.len() - k,
    {
        line.push(prompt.buffer[k]);
        assert(line@ =~= seq!['/'] + name@ + prompt.buffer@.subrange(
            prompt.cursor as int,
            k + 1,
        ));
        k += 1;
    }
    prompt.buffer = line;
    prompt.cursor = behind_name;
    true
}

} // verus!
