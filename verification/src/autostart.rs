//! Registration of the background process with the operating system, so that
//! it starts when the user logs in.

use vstd::prelude::*;
use vstd::utf8::{decode_utf8, valid_utf8};

use crate::error::{Error, ErrorKind};
use crate::text::{
    decimal, decimal_reads_back, decimal_text, free_of, join, joined, lines, lines_of, number_of,
    parse_number, same, split_joined, starts_with, strip_prefix, texts, trim, trimmed,
};

verus! {

/// The operating systems that are told apart.
#[derive(Clone, Copy, Debug, PartialEq, Eq, Structural)]
pub enum Os {
    MacOs,
    Windows,
    /// Linux and the other systems of the Unix family.
    Unix,
    Other,
}

/// Which of the environment variables that name directories are set.
#[derive(Clone, Copy, Debug, PartialEq, Eq, Structural)]
pub struct Directories {
    pub home: bool,
    pub app_data: bool,
    pub xdg_config_home: bool,
}

/// An environment variable that names a directory.
#[derive(Clone, Copy, Debug, PartialEq, Eq, Structural)]
pub enum Variable {
    Home,
    AppData,
    XdgConfigHome,
}

/// A file below the directory that a variable names.
#[derive(Clone, Copy, Debug, PartialEq, Eq)]
pub struct Location {
    pub variable: Variable,
    pub relative: &'static str,
}

/// How a system is told to start the background process.
#[derive(Clone, Copy, Debug, PartialEq, Eq, Structural)]
pub enum Registration {
    /// A launch agent, described by a property list in the file.
    LaunchAgent,
    /// A scheduled task; the file is where a startup script would be.
    ScheduledTask,
    /// A desktop entry in the file.
    DesktopEntry,
}

/// A program and its arguments.
#[derive(Debug, PartialEq, Eq)]
pub struct Command {
    pub program: &'static str,
    pub arguments: Vec<String>,
}

impl Command {
    /// Whether this runs `program` with the arguments `arguments`.
    pub open spec fn runs(self, program: &str, arguments: Seq<Seq<char>>) -> bool {
        self.program@ == program@ && texts(self.arguments@) == arguments
    }
}

/// Whether `location` is the file in which the registration with a system is
/// kept, given which directories are known; where there is none, the failure.
pub open spec fn kept_at(os: Os, set: Directories, res: Result<Location, Error>) -> bool {
    match os {
        Os::MacOs => if set.home {
            res matches Ok(location) && location.variable == Variable::Home && location.relative@
                == "Library/LaunchAgents/com.span.daemon.plist"@
        } else {
            res matches Err(error) && error.is(ErrorKind::NotFound, "HOME not set")
        },
        Os::Windows => if set.app_data {
            res matches Ok(location) && location.variable == Variable::AppData && location.relative@
                == "Microsoft/Windows/Start Menu/Programs/Startup/span.cmd"@
        } else {
            res matches Err(error) && error.is(ErrorKind::NotFound, "APPDATA not set")
        },
        Os::Unix => if set.xdg_config_home {
            res matches Ok(location) && location.variable == Variable::XdgConfigHome
                && location.relative@ == "autostart/span.desktop"@
        } else if set.home {
            res matches Ok(location) && location.variable == Variable::Home && location.relative@
                == ".config/autostart/span.desktop"@
        } else {
            res matches Err(error) && error.is(ErrorKind::NotFound, "config directory not found")
        },
        Os::Other => res matches Err(error) && error.is(
            ErrorKind::Unsupported,
            "autostart unsupported on this platform",
        ),
    }
}

/// The file in which the registration with a system is kept.
pub fn registration_file(os: Os, set: &Directories) -> (res: Result<Location, Error>)
    ensures
        kept_at(os, *set, res),
{
    match os {
        Os::MacOs => if set.home {
            Ok(
                Location {
                    variable: Variable::Home,
                    relative: "Library/LaunchAgents/com.span.daemon.plist",
                },
            )
        } else {
            Err(Error::new(ErrorKind::NotFound, "HOME not set"))
        },
        Os::Windows => if set.app_data {
            Ok(
                Location {
                    variable: Variable::AppData,
                    relative: "Microsoft/Windows/Start Menu/Programs/Startup/span.cmd",
                },
            )
        } else {
            Err(Error::new(ErrorKind::NotFound, "APPDATA not set"))
        },
        Os::Unix => if set.xdg_config_home {
            Ok(Location { variable: Variable::XdgConfigHome, relative: "autostart/span.desktop" })
        } else if set.home {
            Ok(Location { variable: Variable::Home, relative: ".config/autostart/span.desktop" })
        } else {
            Err(Error::new(ErrorKind::NotFound, "config directory not found"))
        },
        Os::Other => Err(
            Error::new(ErrorKind::Unsupported, "autostart unsupported on this platform"),
        ),
    }
}

/// How the background process is registered with a system, and in which file.
pub fn install(os: Os, set: &Directories) -> (res: Result<(Registration, Location), Error>)
    ensures
        match res {
            Ok((registration, location)) => kept_at(os, *set, Ok(location)) && match os {
                Os::MacOs => registration == Registration::LaunchAgent,
                Os::Windows => registration == Registration::ScheduledTask,
                _ => registration == Registration::DesktopEntry,
            },
            Err(error) => kept_at(os, *set, Err(error)),
        },
{
    match registration_file(os, set) {
        Ok(location) => match os {
            Os::MacOs => Ok((Registration::LaunchAgent, location)),
            Os::Windows => Ok((Registration::ScheduledTask, location)),
            _ => Ok((Registration::DesktopEntry, location)),
        },
        Err(error) => Err(error),
    }
}

/// How the background process is taken out of a system's registration.
#[derive(Debug)]
pub struct Removal {
    /// What is run first; how it ends does not matter.
    pub command: Option<Command>,
    /// The file that is removed then.
    pub file: Result<Location, Error>,
}

/// How the background process is taken out of a system's registration. On
/// macOS nothing is run where the file is not known; on Windows the task is
/// deleted in any case.
pub fn uninstall(os: Os, set: &Directories, user: u32) -> (res: Removal)
    ensures
        kept_at(os, *set, res.file),
        match os {
            Os::MacOs => if set.home {
                res.command matches Some(command) && command.runs(
                    "launchctl",
                    seq!["bootout"@, service_name(user)],
                )
            } else {
                res.command is None
            },
            Os::Windows => res.command matches Some(command) && command.runs(
                "schtasks",
                seq!["/Delete"@, "/TN"@, "Span"@, "/F"@],
            ),
            _ => res.command is None,
        },
{
    let file = registration_file(os, set);
    let command = match os {
        Os::MacOs => if set.home {
            Some(bootout_command(launch_agent_service(user).as_str()))
        } else {
            None
        },
        Os::Windows => {
            let mut arguments: Vec<String> = Vec::new();
            arguments.push("/Delete".to_owned());
            arguments.push("/TN".to_owned());
            arguments.push("Span".to_owned());
            arguments.push("/F".to_owned());
            assert(texts(arguments@) =~= seq!["/Delete"@, "/TN"@, "Span"@, "/F"@]);
            Some(Command { program: "schtasks", arguments })
        },
        _ => None,
    };
    Removal { command, file }
}

/// Whether the removal of a file leaves none behind: it was removed, or it was
/// not there.
pub fn leaves_no_file(removed: &Result<(), Error>) -> (res: bool)
    ensures
        res == (removed is Ok || removed->Err_0.kind == ErrorKind::NotFound),
{
    match removed {
        Ok(_) => true,
        Err(error) => error.kind == ErrorKind::NotFound,
    }
}

// Windows
/// The command line of the scheduled task: the window, hidden, where it is
/// installed; else the background process itself.
pub open spec fn task_line(window: Option<Seq<char>>, program: Seq<char>) -> Seq<char> {
    match window {
        Some(window) => "\""@ + window + "\" --hidden"@,
        None => "\""@ + program + "\" run"@,
    }
}

/// The command line of the scheduled task.
pub fn task_command(window: Option<&str>, program: &str) -> (res: String)
    ensures
        res@ == task_line(
            match window {
                Some(window) => Some(window@),
                None => None,
            },
            program@,
        ),
{
    let mut res: String = "\"".to_owned();
    match window {
        Some(window) => {
            res.append(window);
            res.append("\" --hidden");
        },
        None => {
            res.append(program);
            res.append("\" run");
        },
    }
    res
}

/// The arguments that make a scheduled task of a command line: at logon, with
/// the user's own rights, in place of an earlier task.
pub open spec fn create_task(line: Seq<char>) -> Seq<Seq<char>> {
    seq![
        "/Create"@,
        "/SC"@,
        "ONLOGON"@,
        "/TN"@,
        "Span"@,
        "/TR"@,
        line,
        "/RL"@,
        "LIMITED"@,
        "/IT"@,
        "/F"@,
    ]
}

/// The command that makes a scheduled task of a command line.
pub fn create_task_command(line: String) -> (res: Command)
    ensures
        res.runs("schtasks", create_task(line@)),
{
    let mut arguments: Vec<String> = Vec::new();
    arguments.push("/Create".to_owned());
    arguments.push("/SC".to_owned());
    arguments.push("ONLOGON".to_owned());
    arguments.push("/TN".to_owned());
    arguments.push("Span".to_owned());
    arguments.push("/TR".to_owned());
    arguments.push(line);
    arguments.push("/RL".to_owned());
    arguments.push("LIMITED".to_owned());
    arguments.push("/IT".to_owned());
    arguments.push("/F".to_owned());
    assert(texts(arguments@) =~= create_task(line@));
    Command { program: "schtasks", arguments }
}

// Linux
/// The desktop entry that starts a program at logon.
pub open spec fn desktop_entry_of(program: Seq<char>) -> Seq<char> {
    "[Desktop Entry]\nType=Application\nName=span\nNoDisplay=true\nTerminal=false\nStartupNotify=false\nExec="@
        + program + " run\nX-GNOME-Autostart-enabled=true\n"@
}

/// The desktop entry that starts a program at logon.
pub fn desktop_entry(program: &str) -> (res: String)
    ensures
        res@ == desktop_entry_of(program@),
{
    let mut res: String =
        "[Desktop Entry]\nType=Application\nName=span\nNoDisplay=true\nTerminal=false\nStartupNotify=false\nExec=".to_owned();
    res.append(program);
    res.append(" run\nX-GNOME-Autostart-enabled=true\n");
    res
}

// macOS
/// A character as it is written in XML text.
pub open spec fn escaped_char(c: char) -> Seq<char> {
    if c == '&' {
        "&amp;"@
    } else if c == '"' {
        "&quot;"@
    } else if c == '<' {
        "&lt;"@
    } else if c == '>' {
        "&gt;"@
    } else {
        seq![c]
    }
}

/// Text as it is written in XML.
pub open spec fn escaped(value: Seq<char>) -> Seq<char>
    decreases value.len(),
{
    if value.len() == 0 {
        Seq::empty()
    } else {
        escaped(value.drop_last()) + escaped_char(value.last())
    }
}

/// Text as it is written in XML.
pub fn escape_xml(value: &str) -> (res: String)
    ensures
        res@ == escaped(value@),
{
    let chars = crate::text::chars_of(value);
    let mut res: String = String::new();
    let mut i: usize = 0;
    while i < chars.len()
        invariant
            i <= chars.len(),
            res@ == escaped(chars@.take(i as int)),
        decreases chars.len() - i,
    {
        let c = chars[i];
        assert(chars@.take(i + 1).drop_last() =~= chars@.take(i as int));
        if c == '&' {
            res.append("&amp;");
        } else if c == '"' {
            res.append("&quot;");
        } else if c == '<' {
            res.append("&lt;");
        } else if c == '>' {
            res.append("&gt;");
        } else {
            res.push(c);
            assert(res@ =~= escaped(chars@.take(i as int)) + seq![c]);
        }
        i += 1;
    }
    assert(chars@.take(i as int) =~= chars@);
    res
}

/// Escaped text holds none of the characters that would end the text or start
/// markup.
pub proof fn escaped_is_plain(value: Seq<char>)
    ensures
        free_of(escaped(value), '<'),
        free_of(escaped(value), '>'),
        free_of(escaped(value), '"'),
    decreases value.len(),
{
    reveal_strlit("&amp;");
    reveal_strlit("&quot;");
    reveal_strlit("&lt;");
    reveal_strlit("&gt;");
    if value.len() > 0 {
        escaped_is_plain(value.drop_last());
        let tail = escaped_char(value.last());
        assert(free_of(tail, '<') && free_of(tail, '>') && free_of(tail, '"'));
        let head = escaped(value.drop_last());
        assert forall|i: int| 0 <= i < (head + tail).len() implies #[trigger] (head + tail)[i]
            != '<' && (head + tail)[i] != '>' && (head + tail)[i] != '"' by {
            if i < head.len() {
                assert(head[i] != '<');
            } else {
                assert(tail[i - head.len()] != '<');
            }
        }
    }
}

proof fn escaped_front(value: Seq<char>)
    requires
        value.len() > 0,
    ensures
        escaped(value) == escaped_char(value.first()) + escaped(value.drop_first()),
    decreases value.len(),
{
    if value.len() == 1 {
        assert(value.drop_last() =~= Seq::empty());
        assert(value.drop_first() =~= Seq::empty());
        assert(escaped(value.drop_last()) =~= Seq::empty());
        assert(escaped(value) =~= escaped_char(value.first()) + escaped(value.drop_first()));
    } else {
        let less = value.drop_last();
        escaped_front(less);
        assert(less.drop_first() =~= value.drop_first().drop_last());
        assert(escaped(value) =~= escaped_char(value.first()) + (escaped(less.drop_first())
            + escaped_char(value.last())));
    }
}

proof fn escaped_char_starts(a: char, b: char)
    ensures
        escaped_char(a).len() > 0,
        escaped_char(a).len() <= escaped_char(b).len() && escaped_char(b).take(
            escaped_char(a).len() as int,
        ) == escaped_char(a) ==> a == b,
{
    reveal_strlit("&amp;");
    reveal_strlit("&quot;");
    reveal_strlit("&lt;");
    reveal_strlit("&gt;");
    let x = escaped_char(a);
    let y = escaped_char(b);
    assert("&amp;"@[1] == 'a' && "&quot;"@[1] == 'q' && "&lt;"@[1] == 'l' && "&gt;"@[1] == 'g');
    if x.len() <= y.len() && y.take(x.len() as int) == x {
        assert(y.take(x.len() as int)[0] == y[0]);
        if x.len() > 1 {
            assert(y.take(x.len() as int)[1] == y[1]);
        }
    }
}

/// Escaping loses nothing: texts that are not the same are not the same
/// escaped.
pub proof fn escaping_tells_apart(left: Seq<char>, right: Seq<char>)
    requires
        escaped(left) == escaped(right),
    ensures
        left == right,
    decreases left.len(),
{
    if left.len() > 0 {
        escaped_front(left);
        escaped_char_starts(left.first(), left.first());
        assert(escaped(left).len() > 0);
    }
    if right.len() > 0 {
        escaped_front(right);
        escaped_char_starts(right.first(), right.first());
        assert(escaped(right).len() > 0);
    }
    if left.len() > 0 && right.len() > 0 {
        let x = escaped_char(left.first());
        let y = escaped_char(right.first());
        let whole = escaped(left);
        assert(whole.take(x.len() as int) =~= x);
        assert(whole.take(y.len() as int) =~= y);
        if x.len() <= y.len() {
            assert(y.take(x.len() as int) =~= x);
            escaped_char_starts(left.first(), right.first());
        } else {
            assert(x.take(y.len() as int) =~= y);
            escaped_char_starts(right.first(), left.first());
        }
        assert(whole.skip(x.len() as int) =~= escaped(left.drop_first()));
        assert(whole.skip(x.len() as int) =~= escaped(right.drop_first()));
        escaping_tells_apart(left.drop_first(), right.drop_first());
        assert(left =~= seq![left.first()] + left.drop_first());
        assert(right =~= seq![right.first()] + right.drop_first());
    } else {
        assert(left.len() == 0 ==> escaped(left).len() == 0);
        assert(right.len() == 0 ==> escaped(right).len() == 0);
        assert(left =~= right);
    }
}

/// What tells one version of an executable from another at the same path: its
/// length and when it was changed.
pub open spec fn fingerprint_of(length: nat, seconds: nat, nanoseconds: nat) -> Seq<char> {
    join(seq![decimal(length), decimal(seconds), decimal(nanoseconds)], "-"@)
}

/// What tells one version of an executable from another at the same path.
pub fn executable_fingerprint(length: u64, seconds: u64, nanoseconds: u32) -> (res: String)
    ensures
        res@ == fingerprint_of(length as nat, seconds as nat, nanoseconds as nat),
{
    let mut parts: Vec<String> = Vec::new();
    parts.push(decimal_text(length));
    parts.push(decimal_text(seconds));
    parts.push(decimal_text(nanoseconds as u64));
    assert(texts(parts@) =~= seq![
        decimal(length as nat),
        decimal(seconds as nat),
        decimal(nanoseconds as nat),
    ]);
    joined(&parts, "-")
}

proof fn decimal_is_plain(number: nat)
    ensures
        free_of(decimal(number), '-'),
    decreases number,
{
    if number >= 10 {
        decimal_is_plain(number / 10);
    }
}

/// Versions of an executable that differ in length or time have different
/// fingerprints.
pub proof fn fingerprint_tells_apart(
    length: nat,
    seconds: nat,
    nanoseconds: nat,
    other_length: nat,
    other_seconds: nat,
    other_nanoseconds: nat,
)
    requires
        fingerprint_of(length, seconds, nanoseconds) == fingerprint_of(
            other_length,
            other_seconds,
            other_nanoseconds,
        ),
    ensures
        length == other_length,
        seconds == other_seconds,
        nanoseconds == other_nanoseconds,
{
    reveal_strlit("-");
    assert("-"@ =~= seq!['-']);
    let left = seq![decimal(length), decimal(seconds), decimal(nanoseconds)];
    let right = seq![decimal(other_length), decimal(other_seconds), decimal(other_nanoseconds)];
    decimal_is_plain(length);
    decimal_is_plain(seconds);
    decimal_is_plain(nanoseconds);
    decimal_is_plain(other_length);
    decimal_is_plain(other_seconds);
    decimal_is_plain(other_nanoseconds);
    split_joined(left, '-');
    split_joined(right, '-');
    assert(left[0] == right[0] && left[1] == right[1] && left[2] == right[2]);
    decimal_reads_back(length);
    decimal_reads_back(other_length);
    decimal_reads_back(seconds);
    decimal_reads_back(other_seconds);
    decimal_reads_back(nanoseconds);
    decimal_reads_back(other_nanoseconds);
}

/// The property list up to the program.
pub const PLIST_BEFORE_PROGRAM: &'static str =
    "<?xml version=\"1.0\" encoding=\"UTF-8\"?>\n<!DOCTYPE plist PUBLIC \"-//Apple//DTD PLIST 1.0//EN\" \"http://www.apple.com/DTDs/PropertyList-1.0.dtd\">\n<plist version=\"1.0\">\n<dict>\n  <key>Label</key>\n  <string>com.span.daemon</string>\n  <key>ProgramArguments</key>\n  <array>\n    <string>";

/// The property list from the program to the fingerprint.
pub const PLIST_BEFORE_FINGERPRINT: &'static str =
    "</string>\n    <string>run</string>\n  </array>\n  <key>RunAtLoad</key>\n  <true/>\n  <key>KeepAlive</key>\n  <true/>\n  <key>ProcessType</key>\n  <string>Background</string>\n  <key>EnvironmentVariables</key>\n  <dict>\n    <key>SPAN_EXECUTABLE_FINGERPRINT</key>\n    <string>";

/// The property list from the fingerprint to the log.
pub const PLIST_BEFORE_LOG: &'static str =
    "</string>\n  </dict>\n  <key>LimitLoadToSessionType</key>\n  <string>Aqua</string>\n  <key>ThrottleInterval</key>\n  <integer>5</integer>\n  <key>StandardOutPath</key>\n  <string>";

/// The property list between its two mentions of the log.
pub const PLIST_BETWEEN_LOGS: &'static str =
    "</string>\n  <key>StandardErrorPath</key>\n  <string>";

/// The property list behind the log.
pub const PLIST_END: &'static str = "</string>\n</dict>\n</plist>\n";

/// The property list of the launch agent.
pub open spec fn plist_of(
    program: Seq<char>,
    fingerprint: Seq<char>,
    log: Seq<char>,
) -> Seq<char> {
    PLIST_BEFORE_PROGRAM@ + escaped(program) + PLIST_BEFORE_FINGERPRINT@ + escaped(fingerprint)
        + PLIST_BEFORE_LOG@ + escaped(log) + PLIST_BETWEEN_LOGS@ + escaped(log) + PLIST_END@
}

/// The property list of the launch agent. It holds the fingerprint of the
/// executable, so that it changes when the executable is replaced in place.
pub fn launch_agent_plist(program: &str, fingerprint: &str, log: &str) -> (res: String)
    ensures
        res@ == plist_of(program@, fingerprint@, log@),
{
    let mut res: String = PLIST_BEFORE_PROGRAM.to_owned();
    res.append(escape_xml(program).as_str());
    res.append(PLIST_BEFORE_FINGERPRINT);
    res.append(escape_xml(fingerprint).as_str());
    res.append(PLIST_BEFORE_LOG);
    let log_text = escape_xml(log);
    res.append(log_text.as_str());
    res.append(PLIST_BETWEEN_LOGS);
    res.append(log_text.as_str());
    res.append(PLIST_END);
    res
}

/// An executable that is replaced in place changes the property list: with the
/// same program and log, property lists with different fingerprints are not
/// the same.
pub proof fn upgrade_changes_plist(
    program: Seq<char>,
    log: Seq<char>,
    fingerprint: Seq<char>,
    other: Seq<char>,
)
    requires
        plist_of(program, fingerprint, log) == plist_of(program, other, log),
    ensures
        fingerprint == other,
{
    let before = PLIST_BEFORE_PROGRAM@ + escaped(program) + PLIST_BEFORE_FINGERPRINT@;
    let after = PLIST_BEFORE_LOG@ + escaped(log) + PLIST_BETWEEN_LOGS@ + escaped(log) + PLIST_END@;
    let left = escaped(fingerprint);
    let right = escaped(other);
    assert(plist_of(program, fingerprint, log) =~= before + left + after);
    assert(plist_of(program, other, log) =~= before + right + after);
    let whole = before + left + after;
    assert(whole.len() == (before + right + after).len());
    assert(whole.subrange(before.len() as int, (before.len() + left.len()) as int) =~= left);
    assert(whole.subrange(before.len() as int, (before.len() + right.len()) as int) =~= right);
    escaping_tells_apart(fingerprint, other);
}

/// Whether the property list has to be written: there is none that can be
/// read, or another one.
pub fn plist_changed(existing: Option<&str>, plist: &str) -> (res: bool)
    ensures
        res == !(existing matches Some(text) && text@ == plist@),
{
    match existing {
        Some(text) => !same(text, plist),
        None => true,
    }
}

/// The launch domain of a user's session.
pub open spec fn domain_name(user: u32) -> Seq<char> {
    "gui/"@ + decimal(user as nat)
}

/// The name of the launch agent in the session of a user.
pub open spec fn service_name(user: u32) -> Seq<char> {
    domain_name(user) + "/com.span.daemon"@
}

/// The launch domain of a user's session.
pub fn launch_agent_domain(user: u32) -> (res: String)
    ensures
        res@ == domain_name(user),
{
    let mut res: String = "gui/".to_owned();
    res.append(decimal_text(user as u64).as_str());
    res
}

/// The name of the launch agent in the session of a user.
pub fn launch_agent_service(user: u32) -> (res: String)
    ensures
        res@ == service_name(user),
{
    let mut res = launch_agent_domain(user);
    res.append("/com.span.daemon");
    res
}

/// The command that unloads the launch agent.
pub fn bootout_command(service: &str) -> (res: Command)
    ensures
        res.runs("launchctl", seq!["bootout"@, service@]),
{
    let mut arguments: Vec<String> = Vec::new();
    arguments.push("bootout".to_owned());
    arguments.push(service.to_owned());
    assert(texts(arguments@) =~= seq!["bootout"@, service@]);
    Command { program: "launchctl", arguments }
}

/// The command that loads the launch agent from its property list.
pub fn bootstrap_command(domain: &str, plist: &str) -> (res: Command)
    ensures
        res.runs("launchctl", seq!["bootstrap"@, domain@, plist@]),
{
    let mut arguments: Vec<String> = Vec::new();
    arguments.push("bootstrap".to_owned());
    arguments.push(domain.to_owned());
    arguments.push(plist.to_owned());
    assert(texts(arguments@) =~= seq!["bootstrap"@, domain@, plist@]);
    Command { program: "launchctl", arguments }
}

/// The command that starts the process of a loaded launch agent.
pub fn kickstart_command(service: &str) -> (res: Command)
    ensures
        res.runs("launchctl", seq!["kickstart"@, service@]),
{
    let mut arguments: Vec<String> = Vec::new();
    arguments.push("kickstart".to_owned());
    arguments.push(service.to_owned());
    assert(texts(arguments@) =~= seq!["kickstart"@, service@]);
    Command { program: "launchctl", arguments }
}

/// The command that prints the state of the launch agent.
pub fn print_command(service: &str) -> (res: Command)
    ensures
        res.runs("launchctl", seq!["print"@, service@]),
{
    let mut arguments: Vec<String> = Vec::new();
    arguments.push("print".to_owned());
    arguments.push(service.to_owned());
    assert(texts(arguments@) =~= seq!["print"@, service@]);
    Command { program: "launchctl", arguments }
}

/// The state of the launch agent. A loaded one is not necessarily running.
#[derive(Clone, Copy, Debug, PartialEq, Eq, Structural)]
pub enum LaunchAgentState {
    NotLoaded,
    Loaded,
    Running,
}

/// The text that bytes are read as, each sequence that is no UTF-8 replaced.
pub uninterp spec fn lossy_text(bytes: Seq<u8>) -> Seq<char>;

/// `String::from_utf8_lossy` reads bytes as text and puts a replacement
/// character in the place of what is no UTF-8; valid UTF-8 it reads as it is.
#[verifier::external_body]
fn text_of(bytes: &[u8]) -> (res: String)
    ensures
        res@ == lossy_text(bytes@),
        valid_utf8(bytes@) ==> res@ == decode_utf8(bytes@),
{
    String::from_utf8_lossy(bytes).into_owned()
}

/// Whether a line of the printed state says that the process runs: by its
/// state, or by a process number that is not zero.
pub open spec fn line_shows_running(line: Seq<char>) -> bool {
    ||| line == "state = running"@
    ||| starts_with(line, "pid = "@) && match parse_number(
        line.skip("pid = "@.len() as int),
        u32::MAX as nat,
    ) {
        Some(process) => process > 0,
        None => false,
    }
}

/// Whether some line of the printed state says that the process runs.
pub open spec fn text_shows_running(text: Seq<char>) -> bool {
    exists|i: int| 0 <= i < lines(text).len() && line_shows_running(trim(#[trigger] lines(text)[i]))
}

/// Whether the printed state says that the process runs.
pub fn shows_running(text: &str) -> (res: bool)
    ensures
        res == text_shows_running(text@),
{
    let all = lines_of(text);
    let mut i: usize = 0;
    assert(forall|k: int| 0 <= k < all.len() ==> lines(text@)[k] == (#[trigger] all[k])@);
    while i < all.len()
        invariant
            i <= all.len(),
            all.len() == lines(text@).len(),
            forall|k: int| 0 <= k < all.len() ==> lines(text@)[k] == (#[trigger] all[k])@,
            forall|k: int|
                0 <= k < i ==> !line_shows_running(trim(#[trigger] lines(text@)[k])),
        decreases all.len() - i,
    {
        let line = trimmed(all[i].as_str());
        assert(line@ == trim(lines(text@)[i as int]));
        if same(line.as_str(), "state = running") {
            return true;
        }
        match strip_prefix(line.as_str(), "pid = ") {
            Some(process) => match number_of(process.as_str(), u32::MAX as u64) {
                Some(number) => if number > 0 {
                    return true;
                },
                None => {},
            },
            None => {},
        }
        i += 1;
    }
    false
}

/// Whether the printed state, as bytes, says that the process runs.
pub fn launchctl_output_is_running(output: &[u8]) -> (res: bool)
    ensures
        res == text_shows_running(lossy_text(output@)),
        valid_utf8(output@) ==> res == text_shows_running(decode_utf8(output@)),
{
    let text = text_of(output);
    shows_running(text.as_str())
}

/// The state of the launch agent, given what printing its state gave: nothing,
/// where that failed.
pub fn launchctl_state(printed: Option<&[u8]>) -> (res: LaunchAgentState)
    ensures
        res == match printed {
            Some(output) => if text_shows_running(lossy_text(output@)) {
                LaunchAgentState::Running
            } else {
                LaunchAgentState::Loaded
            },
            None => LaunchAgentState::NotLoaded,
        },
{
    match printed {
        Some(output) => if launchctl_output_is_running(output) {
            LaunchAgentState::Running
        } else {
            LaunchAgentState::Loaded
        },
        None => LaunchAgentState::NotLoaded,
    }
}

/// How often the state is asked for after the process was started.
pub const MAX_POLLS: u32 = 20;

/// How long to wait between two of these, in milliseconds.
pub const POLL_PAUSE_MILLISECONDS: u64 = 50;

/// How far the launch agent's installation has come: what it waits for.
#[derive(Clone, Copy, Debug, PartialEq, Eq, Structural)]
pub enum Phase {
    /// The state of the launch agent, before anything is done. `changed` says
    /// whether the property list was written anew.
    Found { changed: bool },
    /// How unloading ends.
    BootingOut,
    /// The state after unloading. `done` says whether unloading succeeded.
    BootedOut { done: bool },
    /// How loading ends.
    Bootstrapping,
    /// The state after loading failed.
    NotBootstrapped,
    /// How starting the process ends.
    Kicking,
    /// The state after the process was started, for the `poll`th time.
    Polling { poll: u32 },
    /// The end of the pause behind the `poll`th time.
    Pausing { poll: u32 },
    /// Nothing.
    Finished,
}

/// What the installation waited for.
#[derive(Clone, Copy, Debug, PartialEq, Eq, Structural)]
pub enum Event {
    State(LaunchAgentState),
    /// A command ended, with success or without.
    Ended(bool),
    Paused,
}

/// What failed.
#[derive(Clone, Copy, Debug, PartialEq, Eq, Structural)]
pub enum Failure {
    Bootout,
    Bootstrap,
    Kickstart,
    /// The process was started and does not run.
    NotRunning,
}

/// What the installation does next.
#[derive(Clone, Copy, Debug, PartialEq, Eq, Structural)]
pub enum Action {
    /// Ask for the state.
    Inspect,
    /// Unload the launch agent.
    Bootout,
    /// Load it.
    Bootstrap,
    /// Start its process.
    Kickstart,
    Pause,
    /// The installation is done.
    Succeed,
    /// It has failed.
    Fail(Failure),
}

/// What follows once the launch agent is as the property list says: a loaded
/// one is started, one that is not loaded is loaded first, and a running one
/// is left alone.
pub open spec fn settle(state: LaunchAgentState) -> (Phase, Action) {
    match state {
        LaunchAgentState::NotLoaded => (Phase::Bootstrapping, Action::Bootstrap),
        LaunchAgentState::Loaded => (Phase::Kicking, Action::Kickstart),
        LaunchAgentState::Running => (Phase::Finished, Action::Succeed),
    }
}

/// What follows an event that the phase waits for; an event that it does not
/// wait for changes nothing, and the state is asked for.
pub open spec fn advanced(phase: Phase, event: Event) -> (Phase, Action) {
    match (phase, event) {
        (Phase::Found { changed }, Event::State(state)) => if changed && state
            != LaunchAgentState::NotLoaded {
            (Phase::BootingOut, Action::Bootout)
        } else {
            settle(state)
        },
        (Phase::BootingOut, Event::Ended(done)) => (Phase::BootedOut { done }, Action::Inspect),
        (Phase::BootedOut { done }, Event::State(state)) => if !done && state
            != LaunchAgentState::NotLoaded {
            (Phase::Finished, Action::Fail(Failure::Bootout))
        } else {
            settle(state)
        },
        (Phase::Bootstrapping, Event::Ended(done)) => if done {
            (Phase::Kicking, Action::Kickstart)
        } else {
            (Phase::NotBootstrapped, Action::Inspect)
        },
        (Phase::NotBootstrapped, Event::State(state)) => if state == LaunchAgentState::NotLoaded {
            (Phase::Finished, Action::Fail(Failure::Bootstrap))
        } else {
            (Phase::Kicking, Action::Kickstart)
        },
        (Phase::Kicking, Event::Ended(done)) => if done {
            (Phase::Polling { poll: 1 }, Action::Inspect)
        } else {
            (Phase::Finished, Action::Fail(Failure::Kickstart))
        },
        (Phase::Polling { poll }, Event::State(state)) => if state == LaunchAgentState::Running {
            (Phase::Finished, Action::Succeed)
        } else if poll < MAX_POLLS {
            (Phase::Pausing { poll }, Action::Pause)
        } else {
            (Phase::Finished, Action::Fail(Failure::NotRunning))
        },
        (Phase::Pausing { poll }, Event::Paused) => if poll < MAX_POLLS {
            (Phase::Polling { poll: (poll + 1) as u32 }, Action::Inspect)
        } else {
            (Phase::Finished, Action::Fail(Failure::NotRunning))
        },
        _ => (phase, Action::Inspect),
    }
}

/// The start of an installation.
pub fn start_installation(changed: bool) -> (res: (Phase, Action))
    ensures
        res == (Phase::Found { changed }, Action::Inspect),
{
    (Phase::Found { changed }, Action::Inspect)
}

/// The start of the process of a loaded launch agent.
pub fn start_process() -> (res: (Phase, Action))
    ensures
        res == (Phase::Kicking, Action::Kickstart),
{
    (Phase::Kicking, Action::Kickstart)
}

fn settled(state: LaunchAgentState) -> (res: (Phase, Action))
    ensures
        res == settle(state),
{
    match state {
        LaunchAgentState::NotLoaded => (Phase::Bootstrapping, Action::Bootstrap),
        LaunchAgentState::Loaded => (Phase::Kicking, Action::Kickstart),
        LaunchAgentState::Running => (Phase::Finished, Action::Succeed),
    }
}

/// What follows an event.
pub fn advance(phase: Phase, event: Event) -> (res: (Phase, Action))
    ensures
        res == advanced(phase, event),
{
    match (phase, event) {
        (Phase::Found { changed }, Event::State(state)) => if changed && state
            != LaunchAgentState::NotLoaded {
            (Phase::BootingOut, Action::Bootout)
        } else {
            settled(state)
        },
        (Phase::BootingOut, Event::Ended(done)) => (Phase::BootedOut { done }, Action::Inspect),
        (Phase::BootedOut { done }, Event::State(state)) => if !done && state
            != LaunchAgentState::NotLoaded {
            (Phase::Finished, Action::Fail(Failure::Bootout))
        } else {
            settled(state)
        },
        (Phase::Bootstrapping, Event::Ended(done)) => if done {
            (Phase::Kicking, Action::Kickstart)
        } else {
            (Phase::NotBootstrapped, Action::Inspect)
        },
        (Phase::NotBootstrapped, Event::State(state)) => if state == LaunchAgentState::NotLoaded {
            (Phase::Finished, Action::Fail(Failure::Bootstrap))
        } else {
            (Phase::Kicking, Action::Kickstart)
        },
        (Phase::Kicking, Event::Ended(done)) => if done {
            (Phase::Polling { poll: 1 }, Action::Inspect)
        } else {
            (Phase::Finished, Action::Fail(Failure::Kickstart))
        },
        (Phase::Polling { poll }, Event::State(state)) => if state == LaunchAgentState::Running {
            (Phase::Finished, Action::Succeed)
        } else if poll < MAX_POLLS {
            (Phase::Pausing { poll }, Action::Pause)
        } else {
            (Phase::Finished, Action::Fail(Failure::NotRunning))
        },
        (Phase::Pausing { poll }, Event::Paused) => if poll < MAX_POLLS {
            (Phase::Polling { poll: poll + 1 }, Action::Inspect)
        } else {
            (Phase::Finished, Action::Fail(Failure::NotRunning))
        },
        _ => (phase, Action::Inspect),
    }
}

/// Whether an event is what a phase waits for.
pub open spec fn awaited(phase: Phase, event: Event) -> bool {
    match phase {
        Phase::Found { .. }
        | Phase::BootedOut { .. }
        | Phase::NotBootstrapped
        | Phase::Polling { .. } => event is State,
        Phase::BootingOut | Phase::Bootstrapping | Phase::Kicking => event is Ended,
        Phase::Pausing { .. } => event is Paused,
        Phase::Finished => false,
    }
}

/// Whether an action brings about what a phase waits for.
pub open spec fn brings(action: Action, phase: Phase) -> bool {
    match action {
        Action::Inspect => phase is Found || phase is BootedOut || phase is NotBootstrapped
            || phase is Polling,
        Action::Bootout => phase is BootingOut,
        Action::Bootstrap => phase is Bootstrapping,
        Action::Kickstart => phase is Kicking,
        Action::Pause => phase is Pausing,
        Action::Succeed | Action::Fail(_) => phase is Finished,
    }
}

/// A bound on the steps until an installation ends.
pub open spec fn steps_left(phase: Phase) -> int {
    match phase {
        Phase::Found { .. } => 60,
        Phase::BootingOut => 59,
        Phase::BootedOut { .. } => 58,
        Phase::Bootstrapping => 57,
        Phase::NotBootstrapped => 56,
        Phase::Kicking => 55,
        Phase::Polling { poll } => 2 * (MAX_POLLS - poll) + 2,
        Phase::Pausing { poll } => 2 * (MAX_POLLS - poll) + 1,
        Phase::Finished => 0,
    }
}

/// Whether the number of a poll is one of those that are made.
pub open spec fn valid_phase(phase: Phase) -> bool {
    match phase {
        Phase::Polling { poll } => 1 <= poll <= MAX_POLLS,
        Phase::Pausing { poll } => 1 <= poll < MAX_POLLS,
        _ => true,
    }
}

/// An installation comes to an end: each step does what it then waits for, and
/// takes it nearer to the end.
pub proof fn installation_ends(phase: Phase, event: Event)
    requires
        valid_phase(phase),
        awaited(phase, event),
    ensures
        valid_phase(advanced(phase, event).0),
        brings(advanced(phase, event).1, advanced(phase, event).0),
        0 <= steps_left(advanced(phase, event).0) < steps_left(phase),
{
}

/// An installation succeeds only where the process was just seen running.
pub proof fn success_means_running(phase: Phase, event: Event)
    requires
        advanced(phase, event).1 == Action::Succeed,
    ensures
        event == Event::State(LaunchAgentState::Running),
{
}

/// A running launch agent whose property list did not change is left alone;
/// one whose property list changed is unloaded first.
pub proof fn running_agent_is_left_alone(changed: bool)
    ensures
        advanced(Phase::Found { changed }, Event::State(LaunchAgentState::Running)) == if changed {
            (Phase::BootingOut, Action::Bootout)
        } else {
            (Phase::Finished, Action::Succeed)
        },
{
}

/// What is said of a failure; `status` is how the command ended.
pub open spec fn failure_message(failure: Failure, status: Seq<char>) -> Seq<char> {
    match failure {
        Failure::Bootout => "launchctl bootout failed with "@ + status,
        Failure::Bootstrap => "launchctl bootstrap failed with "@ + status,
        Failure::Kickstart => "launchctl kickstart failed with "@ + status,
        Failure::NotRunning => "launchctl kickstart completed but span daemon is not running"@,
    }
}

/// What is said of a failure.
pub fn failure_text(failure: Failure, status: &str) -> (res: String)
    ensures
        res@ == failure_message(failure, status@),
{
    let mut res: String = match failure {
        Failure::Bootout => "launchctl bootout failed with ".to_owned(),
        Failure::Bootstrap => "launchctl bootstrap failed with ".to_owned(),
        Failure::Kickstart => "launchctl kickstart failed with ".to_owned(),
        Failure::NotRunning => {
            return "launchctl kickstart completed but span daemon is not running".to_owned();
        },
    };
    res.append(status);
    res
}

/// A launch agent that is not loaded is loaded, started, and polled; once it is
/// seen running, the installation is done.
pub proof fn agent_is_loaded_and_started(changed: bool, poll: u32)
    ensures
        advanced(Phase::Found { changed }, Event::State(LaunchAgentState::NotLoaded)) == (
            Phase::Bootstrapping,
            Action::Bootstrap,
        ),
        advanced(Phase::Bootstrapping, Event::Ended(true)) == (Phase::Kicking, Action::Kickstart),
        advanced(Phase::Kicking, Event::Ended(true)) == (
            Phase::Polling { poll: 1 },
            Action::Inspect,
        ),
        advanced(Phase::Polling { poll }, Event::State(LaunchAgentState::Running)) == (
            Phase::Finished,
            Action::Succeed,
        ),
{
}

/// A launch agent that is loaded and does not run is started; but one whose
/// property list changed is unloaded first, and then loaded anew. Unloading
/// fails where it ended without success and the agent is still loaded.
pub proof fn changed_agent_is_loaded_anew(done: bool)
    ensures
        advanced(
            Phase::Found { changed: false },
            Event::State(LaunchAgentState::Loaded),
        ) == (Phase::Kicking, Action::Kickstart),
        advanced(
            Phase::Found { changed: true },
            Event::State(LaunchAgentState::Loaded),
        ) == (Phase::BootingOut, Action::Bootout),
        advanced(Phase::BootingOut, Event::Ended(done)) == (
            Phase::BootedOut { done },
            Action::Inspect,
        ),
        advanced(Phase::BootedOut { done }, Event::State(LaunchAgentState::NotLoaded)) == (
            Phase::Bootstrapping,
            Action::Bootstrap,
        ),
        advanced(
            Phase::BootedOut { done: false },
            Event::State(LaunchAgentState::Loaded),
        ).1 == Action::Fail(Failure::Bootout),
        advanced(
            Phase::BootedOut { done: false },
            Event::State(LaunchAgentState::Running),
        ).1 == Action::Fail(Failure::Bootout),
{
}

/// Loading that ended without success is a failure only where the agent is not
/// loaded; starting that ended without success always is one.
pub proof fn failed_steps_are_reported()
    ensures
        advanced(Phase::Bootstrapping, Event::Ended(false)) == (
            Phase::NotBootstrapped,
            Action::Inspect,
        ),
        advanced(Phase::NotBootstrapped, Event::State(LaunchAgentState::NotLoaded)).1
            == Action::Fail(Failure::Bootstrap),
        advanced(Phase::NotBootstrapped, Event::State(LaunchAgentState::Loaded)) == (
            Phase::Kicking,
            Action::Kickstart,
        ),
        advanced(Phase::Kicking, Event::Ended(false)).1 == Action::Fail(Failure::Kickstart),
{
}

/// A process that was started and is not seen running is looked at again after
/// a pause, twenty times in all.
pub proof fn started_process_is_awaited(poll: u32, state: LaunchAgentState)
    requires
        1 <= poll <= 20,
        state != LaunchAgentState::Running,
    ensures
        poll < 20 ==> advanced(Phase::Polling { poll }, Event::State(state)) == (
            Phase::Pausing { poll },
            Action::Pause,
        ),
        poll < 20 ==> advanced(Phase::Pausing { poll }, Event::Paused) == (
            Phase::Polling { poll: (poll + 1) as u32 },
            Action::Inspect,
        ),
        poll == 20 ==> advanced(Phase::Polling { poll }, Event::State(state)).1 == Action::Fail(
            Failure::NotRunning,
        ),
{
}

/// A line shows a running process where it says so, or where it gives a process
/// number other than zero.
pub proof fn process_number_shows_running(number: nat)
    requires
        number <= u32::MAX,
    ensures
        line_shows_running("state = running"@),
        line_shows_running("pid = "@ + decimal(number)) <==> number > 0,
{
    let line = "pid = "@ + decimal(number);
    let prefix = "pid = "@;
    assert(line.take(prefix.len() as int) =~= prefix);
    assert(line.skip(prefix.len() as int) =~= decimal(number));
    decimal_reads_back(number);
    assert(line != "state = running"@) by {
        reveal_strlit("pid = ");
        reveal_strlit("state = running");
        assert(line[0] == 'p');
        assert("state = running"@[0] == 's');
    }
}

/// Output shows a running process where one of its lines does, white space at
/// the ends of the line aside.
pub proof fn one_line_is_enough(text: Seq<char>, at: int)
    requires
        0 <= at < lines(text).len(),
        line_shows_running(trim(lines(text)[at])),
    ensures
        text_shows_running(text),
{
}

/// Escaping goes character by character: the four characters that mean
/// something are written out, every other stays.
pub proof fn escaping_goes_by_character(left: Seq<char>, right: Seq<char>, c: char)
    ensures
        escaped(left + right) == escaped(left) + escaped(right),
        c != '&' && c != '"' && c != '<' && c != '>' ==> escaped(seq![c]) == seq![c],
        escaped(seq!['&']) == "&amp;"@,
        escaped(seq!['"']) == "&quot;"@,
        escaped(seq!['<']) == "&lt;"@,
        escaped(seq!['>']) == "&gt;"@,
    decreases right.len(),
{
    if right.len() == 0 {
        assert(left + right =~= left);
        assert(escaped(left) + escaped(right) =~= escaped(left));
    } else {
        escaping_goes_by_character(left, right.drop_last(), c);
        assert((left + right).drop_last() =~= left + right.drop_last());
        assert((left + right).last() == right.last());
        assert(escaped(left + right) =~= escaped(left) + escaped(right));
    }
    escaped_one(c);
    escaped_one('&');
    escaped_one('"');
    escaped_one('<');
    escaped_one('>');
}

proof fn escaped_one(c: char)
    ensures
        escaped(seq![c]) == escaped_char(c),
{
    assert(seq![c].drop_last() =~= Seq::empty());
    assert(escaped(Seq::empty()) =~= Seq::empty());
    assert(seq![c].last() == c);
    assert(escaped(seq![c]) == escaped(seq![c].drop_last()) + escaped_char(c));
    assert(escaped(seq![c]) =~= escaped_char(c));
}

/// Uninstalling removes the file that installing wrote: where both name one, it
/// is the same.
pub proof fn removed_file_is_the_written_one(
    os: Os,
    set: Directories,
    written: Location,
    removed: Location,
)
    requires
        kept_at(os, set, Ok(written)),
        kept_at(os, set, Ok(removed)),
    ensures
        written.variable == removed.variable,
        written.relative@ == removed.relative@,
        os != Os::Other,
        match written.variable {
            Variable::Home => set.home,
            Variable::AppData => set.app_data,
            Variable::XdgConfigHome => set.xdg_config_home,
        },
{
}

/// Output none of whose lines shows a running process shows none.
pub proof fn no_line_shows_running(text: Seq<char>)
    requires
        forall|i: int|
            0 <= i < lines(text).len() ==> !line_shows_running(trim(#[trigger] lines(text)[i])),
    ensures
        !text_shows_running(text),
{
}

/// The property lists of two programs differ, and so do the desktop entries and
/// the scheduled tasks: each starts the program that it is for.
pub proof fn each_registration_starts_its_program(
    program: Seq<char>,
    other: Seq<char>,
    fingerprint: Seq<char>,
    log: Seq<char>,
)
    ensures
        plist_of(program, fingerprint, log) == plist_of(other, fingerprint, log) ==> program
            == other,
        desktop_entry_of(program) == desktop_entry_of(other) ==> program == other,
        task_line(None, program) == task_line(None, other) ==> program == other,
        task_line(Some(program), log) == task_line(Some(other), log) ==> program == other,
        task_line(Some(program), log) == "\""@ + program + "\" --hidden"@,
        task_line(None, program) == "\""@ + program + "\" run"@,
{
    if plist_of(program, fingerprint, log) == plist_of(other, fingerprint, log) {
        let before = PLIST_BEFORE_PROGRAM@;
        let after = PLIST_BEFORE_FINGERPRINT@ + escaped(fingerprint) + PLIST_BEFORE_LOG@ + escaped(
            log,
        ) + PLIST_BETWEEN_LOGS@ + escaped(log) + PLIST_END@;
        assert(plist_of(program, fingerprint, log) =~= before + escaped(program) + after);
        assert(plist_of(other, fingerprint, log) =~= before + escaped(other) + after);
        between_is_same(before, escaped(program), escaped(other), after);
        escaping_tells_apart(program, other);
    }
    let head = "[Desktop Entry]\nType=Application\nName=span\nNoDisplay=true\nTerminal=false\nStartupNotify=false\nExec="@;
    let tail = " run\nX-GNOME-Autostart-enabled=true\n"@;
    if desktop_entry_of(program) == desktop_entry_of(other) {
        between_is_same(head, program, other, tail);
    }
    if task_line(None, program) == task_line(None, other) {
        between_is_same("\""@, program, other, "\" run"@);
    }
    if task_line(Some(program), log) == task_line(Some(other), log) {
        between_is_same("\""@, program, other, "\" --hidden"@);
    }
}

proof fn between_is_same(
    before: Seq<char>,
    left: Seq<char>,
    right: Seq<char>,
    after: Seq<char>,
)
    requires
        before + left + after == before + right + after,
    ensures
        left == right,
{
    let whole = before + left + after;
    assert(whole.len() == (before + right + after).len());
    assert(whole.subrange(before.len() as int, (before.len() + left.len()) as int) =~= left);
    assert(whole.subrange(before.len() as int, (before.len() + right.len()) as int) =~= right);
}

/// The launch agent of a user is in the session of that user.
pub proof fn agent_is_in_the_session_of_its_user(user: u32)
    ensures
        domain_name(user) == "gui/"@ + decimal(user as nat),
        service_name(user) == "gui/"@ + decimal(user as nat) + "/com.span.daemon"@,
{
}

/// The task that is made carries the line and the name that it is removed by,
/// and starts when the user logs on.
pub proof fn task_carries_its_line(line: Seq<char>)
    ensures
        ({
            let arguments = create_task(line);
            &&& arguments[0] == "/Create"@
            &&& arguments[1] == "/SC"@ && arguments[2] == "ONLOGON"@
            &&& arguments[3] == "/TN"@ && arguments[4] == "Span"@
            &&& arguments[5] == "/TR"@ && arguments[6] == line
            &&& arguments[7] == "/RL"@ && arguments[8] == "LIMITED"@
            &&& arguments[9] == "/IT"@ && arguments[10] == "/F"@
            &&& arguments.len() == 11
        }),
{
}

/// What is said of a failed step names the step and ends with how it ended.
pub proof fn failure_names_its_step(failure: Failure, status: Seq<char>)
    ensures
        failure != Failure::NotRunning ==> failure_message(failure, status) == "launchctl "@ + (
        match failure {
            Failure::Bootout => "bootout"@,
            Failure::Bootstrap => "bootstrap"@,
            _ => "kickstart"@,
        }) + " failed with "@ + status,
        failure == Failure::NotRunning ==> failure_message(failure, status)
            == "launchctl kickstart completed but span daemon is not running"@,
{
    reveal_strlit("launchctl ");
    reveal_strlit("bootout");
    reveal_strlit("bootstrap");
    reveal_strlit("kickstart");
    reveal_strlit(" failed with ");
    reveal_strlit("launchctl bootout failed with ");
    reveal_strlit("launchctl bootstrap failed with ");
    reveal_strlit("launchctl kickstart failed with ");
    match failure {
        Failure::Bootout => {
            assert("launchctl "@ + "bootout"@ + " failed with "@
                =~= "launchctl bootout failed with "@);
        },
        Failure::Bootstrap => {
            assert("launchctl "@ + "bootstrap"@ + " failed with "@
                =~= "launchctl bootstrap failed with "@);
        },
        Failure::Kickstart => {
            assert("launchctl "@ + "kickstart"@ + " failed with "@
                =~= "launchctl kickstart failed with "@);
        },
        Failure::NotRunning => {},
    }
}

} // verus!
