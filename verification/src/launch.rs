//! How the tunnel is started: what is run at the other end of the ssh
//! connection and what is made of its output.
//!
//! The program copies itself to the remote machine or expects to be installed
//! there, starts the server, learns its port and its process id, and keeps an
//! ssh connection that forwards a local port to it.

use crate::processes;
use crate::random;
use crate::shell;
use crate::text;
use crate::text::{
    decimal_string, parse_u16, parse_u32, same_text, split, trim, NumberError,
};
use vstd::prelude::*;
#[allow(unused_imports)]
use vstd::string::*;
#[allow(unused_imports)]
use vstd::utf8::*;

verus! {

/// Why the tunnel could not be started.
#[derive(Debug, Clone, Copy, PartialEq, Eq, Structural)]
pub enum LaunchError {
    /// A quote without a match in the server's arguments.
    MismatchedQuotes,
    /// Text that is no number.
    NotANumber(NumberError),
    /// The server's process id was not to be had.
    NoServerPid,
}

impl LaunchError {
    /// The text of the error.
    pub open spec fn text(self) -> Seq<char> {
        match self {
            LaunchError::MismatchedQuotes => "Mismatched quotes"@,
            LaunchError::NotANumber(e) => e.text(),
            LaunchError::NoServerPid => "no server pid found"@,
        }
    }

    pub fn to_string(&self) -> (s: String)
        ensures
            s@ == self.text(),
    {
        match self {
            LaunchError::MismatchedQuotes => "Mismatched quotes".to_string(),
            LaunchError::NotANumber(e) => e.to_string(),
            LaunchError::NoServerPid => "no server pid found".to_string(),
        }
    }
}

/// What a number that was read, or was not, says.
pub open spec fn number_result(res: Result<nat, NumberError>) -> Result<nat, LaunchError> {
    match res {
        Ok(n) => Ok(n),
        Err(e) => Err(LaunchError::NotANumber(e)),
    }
}

/// The process id that the program is asked to check on, where it is started
/// for that: with exactly two arguments, of which the first says so.
pub open spec fn requested_check(args: Seq<Seq<char>>) -> Option<Result<nat, LaunchError>> {
    if args.len() == 3 && args[1] == "check-server-pid"@ {
        Some(number_result(text::number_value(args[2], u32::MAX as nat)))
    } else {
        None
    }
}

/// Whether the program is started to check on a server, and on which.
pub fn check_request(args: &Vec<String>) -> (res: Result<Option<u32>, LaunchError>)
    ensures
        match res {
            Ok(None) => requested_check(text::texts(args@)) is None,
            Ok(Some(pid)) => requested_check(text::texts(args@)) == Some(
                Ok::<nat, LaunchError>(pid as nat),
            ),
            Err(e) => requested_check(text::texts(args@)) == Some(Err::<nat, LaunchError>(e)),
        },
{
    if args.len() == 3 && same_text(args[1].as_str(), "check-server-pid") {
        match parse_u32(args[2].as_str()) {
            Ok(pid) => Ok(Some(pid)),
            Err(e) => Err(LaunchError::NotANumber(e)),
        }
    } else {
        Ok(None)
    }
}

/// The arguments of the server: the executable and what it was given.
pub fn server_arguments(exe: String, words: Vec<String>) -> (args: Vec<String>)
    ensures
        args@ == seq![exe] + words@,
{
    let mut args: Vec<String> = Vec::new();
    args.push(exe);
    let mut rest = words;
    args.append(&mut rest);
    assert(args@ =~= seq![exe] + words@);
    args
}

/// The arguments of the server from one line of them.
pub fn run_as_server_args(exe: String, line: &str) -> (res: Result<Vec<String>, LaunchError>)
    ensures
        match res {
            Ok(args) => shell::shell_words(line@) matches Some(words) && text::texts(args@)
                == seq![exe@] + words,
            Err(e) => shell::shell_words(line@) is None && e is MismatchedQuotes,
        },
{
    match shell::split_words(line) {
        Ok(words) => {
            let ghost all = text::texts(words@);
            let args = server_arguments(exe, words);
            assert(text::texts(args@) =~= seq![exe@] + all);
            Ok(args)
        },
        Err(_) => Err(LaunchError::MismatchedQuotes),
    }
}

/// A path and a name in the directory that it leads to, by the rules of Unix: a
/// name that starts at the root stands for itself.
pub open spec fn path_joined(dir: Seq<char>, name: Seq<char>) -> Seq<char> {
    if name.len() > 0 && name[0] == '/' {
        name
    } else if dir.len() == 0 || dir.last() == '/' {
        dir + name
    } else {
        dir + "/"@ + name
    }
}

/// Whether a string begins with a slash.
fn starts_at_root(path: &str) -> (root: bool)
    ensures
        root == (path@.len() > 0 && path@[0] == '/'),
{
    path.unicode_len() > 0 && path.get_char(0) == '/'
}

fn join_path(dir: &str, name: &str) -> (path: String)
    ensures
        path@ == path_joined(dir@, name@),
{
    if starts_at_root(name) {
        return name.to_string();
    }
    let len: usize = dir.unicode_len();
    let mut path = dir.to_string();
    if len > 0 && dir.get_char(len - 1) != '/' {
        path.append("/");
    }
    path.append(name);
    path
}

/// Where a file is put on the remote machine, given a random part of its name,
/// and the part of its name that does not vary.
pub open spec fn location(dir: Seq<char>, base: Seq<char>, username: Seq<char>, random: Seq<char>) -> (
    Seq<char>,
    Seq<char>,
) {
    let user_base = base + "_"@ + username;
    (path_joined(dir, user_base + "_"@ + random), user_base)
}

pub fn location_with(dir: &str, base: &str, username: &str, random: &str) -> (res: (String, String))
    ensures
        (res.0@, res.1@) == location(dir@, base@, username@, random@),
{
    let mut user_base = base.to_string();
    user_base.append("_");
    user_base.append(username);
    let mut name = user_base.clone();
    name.append("_");
    name.append(random);
    (join_path(dir, name.as_str()), user_base)
}

/// How many random characters a location has.
pub const RANDOM_LEN: usize = 15;

/// Whether all characters are ASCII letters and digits.
pub open spec fn all_alphanumeric(chars: Seq<char>) -> bool {
    forall|i: int|
        0 <= i < chars.len() ==> (#[trigger] chars[i]) as int <= 0x7f && random::is_alphanumeric(
            chars[i] as u8,
        )
}

/// A random string of ASCII letters and digits.
fn random_string(len: usize) -> (s: String)
    ensures
        s@.len() == len,
        all_alphanumeric(s@),
{
    let mut s = String::new();
    let mut i: usize = 0;
    while i < len
        invariant
            i <= len,
            s@.len() == i,
            all_alphanumeric(s@),
        decreases len - i,
    {
        let b: u8 = random::random_alphanumeric();
        s.push(b as char);
        i = i + 1;
    }
    s
}

/// A new location in `dir` for a file of the user, and the part of its name
/// that does not vary.
pub fn make_location(dir: &str, base: &str, username: &str) -> (res: Option<(String, String)>)
    ensures
        res matches Some((path, user_base)) && exists|random: Seq<char>|
            {
                &&& random.len() == RANDOM_LEN
                &&& all_alphanumeric(random)
                &&& (path@, user_base@) == #[trigger] location(dir@, base@, username@, random)
            },
{
    let random = random_string(RANDOM_LEN);
    Some(location_with(dir, base, username, random.as_str()))
}

/// Where the server puts its process id.
pub fn make_pid_file_location(dir: &str, username: &str) -> (res: Option<(String, String)>)
    ensures
        res matches Some((path, user_base)) && exists|random: Seq<char>|
            {
                &&& random.len() == RANDOM_LEN
                &&& all_alphanumeric(random)
                &&& (path@, user_base@) == #[trigger] location(
                    dir@,
                    "mobiletunnel_pid"@,
                    username@,
                    random,
                )
            },
{
    make_location(dir, "mobiletunnel_pid", username)
}

/// Where the program is copied to.
pub fn make_self_location(dir: &str, username: &str) -> (res: Option<(String, String)>)
    ensures
        res matches Some((path, user_base)) && exists|random: Seq<char>|
            {
                &&& random.len() == RANDOM_LEN
                &&& all_alphanumeric(random)
                &&& (path@, user_base@) == #[trigger] location(
                    dir@,
                    "mobiletunnel"@,
                    username@,
                    random,
                )
            },
{
    make_location(dir, "mobiletunnel", username)
}

/// A command: a program and its arguments.
#[derive(Debug)]
pub struct CommandLine {
    pub program: String,
    pub args: Vec<String>,
}

impl CommandLine {
    /// The program and its arguments, as one sequence.
    pub open spec fn words(self) -> Seq<Seq<char>> {
        seq![self.program@] + text::texts(self.args@)
    }

    /// Adds an argument.
    pub fn push(&mut self, arg: String)
        ensures
            final(self).words() == old(self).words().push(arg@),
    {
        self.args.push(arg);
        assert(self.words() =~= old(self).words().push(arg@));
    }
}

/// A command from the text of one, which is cut at every space.
pub fn command_line(base: &str) -> (command: CommandLine)
    ensures
        command.words() == text::pieces(base@, ' '),
{
    let mut words = split(base, ' ');
    let ghost all = text::texts(words@);
    let program = words.remove(0);
    let command = CommandLine { program, args: words };
    assert(command.words() =~= all);
    command
}

/// The command that runs something on the remote machine; what it runs there is
/// yet to be added.
pub fn ssh_command(ssh_base: &str, target_host: &str) -> (command: CommandLine)
    ensures
        command.words() == text::pieces(ssh_base@, ' ').push(target_host@),
{
    let mut command = command_line(ssh_base);
    command.push(target_host.to_string());
    command
}

/// The command that copies the program to the remote machine.
pub fn scp_command(scp_base: &str, exe: &str, target_host: &str, location: &str) -> (command:
    CommandLine)
    ensures
        command.words() == text::pieces(scp_base@, ' ').push(exe@).push(
            target_host@ + ":"@ + location@,
        ),
{
    let mut command = command_line(scp_base);
    command.push(exe.to_string());
    let mut destination = target_host.to_string();
    destination.append(":");
    destination.append(location);
    command.push(destination);
    command
}

/// The arguments that the server is started with: it connects to the target
/// port on its own machine, listens on any port, runs in the background, and
/// ends its predecessors.
pub open spec fn server_args_text(target_port: u16, pid_file: Seq<char>) -> Seq<char> {
    "--target-port="@ + text::decimal(target_port as nat)
        + " --target-host=localhost --bind-port=0 --daemonize="@ + pid_file + " --kill-old"@
}

pub fn server_arg_string(target_port: u16, pid_file: &str) -> (s: String)
    ensures
        s@ == server_args_text(target_port, pid_file@),
{
    let mut s = "--target-port=".to_string();
    s.append(decimal_string(target_port as u64).as_str());
    s.append(" --target-host=localhost --bind-port=0 --daemonize=");
    s.append(pid_file);
    s.append(" --kill-old");
    s
}

/// What starts the server where the program was copied to the remote machine.
pub open spec fn copied_server_text(
    debug_server: bool,
    program: Seq<char>,
    server_args: Seq<char>,
    kill_base: Seq<char>,
    window: usize,
) -> Seq<char> {
    (if debug_server {
        "RUST_LOG=debug"@
    } else {
        ""@
    }) + " "@ + program
        + " --local-port 0 --target-port 0 --target-host 0 --run-as-server=\""@ + server_args
        + " --kill-old-base="@ + kill_base + " --window="@ + text::decimal(window as nat) + "\""@
}

pub fn copied_server_command(
    debug_server: bool,
    program: &str,
    server_args: &str,
    kill_base: &str,
    window: usize,
) -> (s: String)
    ensures
        s@ == copied_server_text(debug_server, program@, server_args@, kill_base@, window),
{
    let mut s = if debug_server {
        "RUST_LOG=debug".to_string()
    } else {
        "".to_string()
    };
    s.append(" ");
    s.append(program);
    s.append(" --local-port 0 --target-port 0 --target-host 0 --run-as-server=\"");
    s.append(server_args);
    s.append(" --kill-old-base=");
    s.append(kill_base);
    s.append(" --window=");
    s.append(decimal_string(window as u64).as_str());
    s.append("\"");
    s
}

/// What starts the server where it is installed on the remote machine.
pub fn installed_server_command(server_command: &str, server_args: &str) -> (s: String)
    ensures
        s@ == server_command@ + " "@ + server_args@,
{
    let mut s = server_command.to_string();
    s.append(" ");
    s.append(server_args);
    s
}

/// What is wrong with the output of a remote command.
#[derive(Debug, Clone, Copy, PartialEq, Eq)]
pub enum OutputError {
    /// It is no text.
    NotUtf8(std::str::Utf8Error),
    /// The text is no number.
    NotANumber(NumberError),
}

/// The port that the server listens on, which is all that it prints.
pub fn server_port(output: &[u8]) -> (res: Result<u16, OutputError>)
    ensures
        match res {
            Ok(port) => valid_utf8(output@) && text::number_value(
                decode_utf8(output@),
                u16::MAX as nat,
            ) == Ok::<nat, NumberError>(port as nat),
            Err(OutputError::NotANumber(e)) => valid_utf8(output@) && text::number_value(
                decode_utf8(output@),
                u16::MAX as nat,
            ) == Err::<nat, NumberError>(e),
            Err(OutputError::NotUtf8(_)) => !valid_utf8(output@),
        },
{
    match std::str::from_utf8(output) {
        Err(e) => Err(OutputError::NotUtf8(e)),
        Ok(s) => {
            proof {
                encode_utf8_decode_utf8(s@);
            }
            match parse_u16(s) {
                Ok(port) => Ok(port),
                Err(e) => Err(OutputError::NotANumber(e)),
            }
        },
    }
}

/// The port that the server prints is the port that is read.
pub proof fn law_printed_port_is_read(port: u16)
    ensures
        ({
            let output = encode_utf8(text::decimal(port as nat));
            &&& valid_utf8(output)
            &&& text::number_value(decode_utf8(output), u16::MAX as nat) == Ok::<nat, NumberError>(
                port as nat,
            )
        }),
{
    encode_utf8_valid_utf8(text::decimal(port as nat));
    encode_utf8_decode_utf8(text::decimal(port as nat));
    text::law_written_number_is_read(port as nat, u16::MAX as nat);
}

/// The command that shows the server's process id.
pub fn pid_file_command(pid_file: &str) -> (s: String)
    ensures
        s@ == "cat "@ + pid_file@,
{
    let mut s = "cat ".to_string();
    s.append(pid_file);
    s
}

/// How often the server's process id is looked for.
pub const PID_TRIES: u32 = 20;

/// How long to wait before the server's process id is looked for again.
pub const PID_RETRY_SECS: u64 = 1;

/// What a look for the server's process id came to.
#[derive(Debug, Clone, Copy, PartialEq, Eq, Structural)]
pub enum PidLookup {
    Found(u32),
    /// It is not there yet: wait, and look again.
    NotYet,
}

/// The server's process id from the file that holds it, once it does.
pub open spec fn pid_in(output: Seq<char>) -> Option<Result<nat, NumberError>> {
    if output.len() == 0 {
        None
    } else {
        Some(text::number_value(text::trimmed(output), u32::MAX as nat))
    }
}

pub fn server_pid(output: &[u8]) -> (res: Result<PidLookup, OutputError>)
    ensures
        match res {
            Ok(PidLookup::NotYet) => valid_utf8(output@) && pid_in(decode_utf8(output@)) is None,
            Ok(PidLookup::Found(pid)) => valid_utf8(output@) && pid_in(decode_utf8(output@))
                == Some(Ok::<nat, NumberError>(pid as nat)),
            Err(OutputError::NotANumber(e)) => valid_utf8(output@) && pid_in(decode_utf8(output@))
                == Some(Err::<nat, NumberError>(e)),
            Err(OutputError::NotUtf8(_)) => !valid_utf8(output@),
        },
{
    match std::str::from_utf8(output) {
        Err(e) => Err(OutputError::NotUtf8(e)),
        Ok(s) => {
            proof {
                encode_utf8_decode_utf8(s@);
            }
            if s.unicode_len() == 0 {
                return Ok(PidLookup::NotYet);
            }
            match parse_u32(trim(s).as_str()) {
                Ok(pid) => Ok(PidLookup::Found(pid)),
                Err(e) => Err(OutputError::NotANumber(e)),
            }
        },
    }
}

/// Whether to look again after `tries` looks that came to nothing.
pub fn look_again(tries: u32) -> (res: Result<(), LaunchError>)
    ensures
        match res {
            Ok(_) => tries < PID_TRIES,
            Err(e) => tries >= PID_TRIES && e is NoServerPid,
        },
{
    if tries < PID_TRIES {
        Ok(())
    } else {
        Err(LaunchError::NoServerPid)
    }
}

/// The ports from which the local one is taken.
pub const LOCAL_PORT_LOW: u16 = 24000;

pub const LOCAL_PORT_HIGH: u16 = 32000;

/// A local port to forward.
pub fn pick_local_port() -> (port: u16)
    ensures
        LOCAL_PORT_LOW <= port < LOCAL_PORT_HIGH,
{
    random::random_in_range(LOCAL_PORT_LOW, LOCAL_PORT_HIGH)
}

/// What is run on the remote machine for as long as the tunnel is up: it says
/// every second whether the server runs.
pub fn check_command(program: &str, server_pid: u32) -> (s: String)
    ensures
        s@ == program@ + " check-server-pid "@ + text::decimal(server_pid as nat),
{
    let mut s = program.to_string();
    s.append(" check-server-pid ");
    s.append(decimal_string(server_pid as u64).as_str());
    s
}

/// What the remote program is asked to check on is what it checks on, once the
/// command has been cut into words.
pub proof fn law_check_is_understood(program: Seq<char>, server_pid: u32)
    requires
        !program.contains(' '),
    ensures
        requested_check(
            text::pieces(
                program + " check-server-pid "@ + text::decimal(server_pid as nat),
                ' ',
            ),
        ) == Some(Ok::<nat, LaunchError>(server_pid as nat)),
{
    let pid = text::decimal(server_pid as nat);
    let word = "check-server-pid"@;
    let line = program + " check-server-pid "@ + pid;
    reveal_strlit(" check-server-pid ");
    reveal_strlit("check-server-pid");
    assert(line =~= program.push(' ') + (word.push(' ') + pid));
    assert(!word.contains(' '));
    text::law_pieces_divide(program, ' ', word.push(' ') + pid);
    text::law_pieces_divide(word, ' ', pid);
    text::law_one_piece(program, ' ');
    text::law_one_piece(word, ' ');
    text::lemma_no_space_in_decimal(server_pid as nat);
    text::law_one_piece(pid, ' ');
    assert(text::pieces(line, ' ') =~= seq![program, word, pid]);
    text::law_written_number_is_read(server_pid as nat, u32::MAX as nat);
}

/// The argument that forwards the local port to the server's.
pub open spec fn forward_text(local_port: u16, server_port: u16) -> Seq<char> {
    "-L localhost:"@ + text::decimal(local_port as nat) + ":localhost:"@ + text::decimal(
        server_port as nat,
    )
}

/// The command that keeps the local port forwarded.
pub fn reconnecting_ssh_command(
    base: &str,
    local_port: u16,
    server_port: u16,
    target_host: &str,
    check: String,
) -> (command: CommandLine)
    ensures
        command.words() == text::pieces(base@, ' ').push(
            forward_text(local_port, server_port),
        ).push(target_host@).push(check@),
{
    let mut forward = "-L localhost:".to_string();
    forward.append(decimal_string(local_port as u64).as_str());
    forward.append(":localhost:");
    forward.append(decimal_string(server_port as u64).as_str());
    let mut command = command_line(base);
    command.push(forward);
    command.push(target_host.to_string());
    command.push(check);
    command
}

/// Where a server in the background writes its log.
pub fn stderr_log_name(logs_location: &str, username: &str, pid: u32) -> (s: String)
    ensures
        s@ == logs_location@ + "_"@ + username@ + "_"@ + text::decimal(pid as nat)
            + "_stderr.log"@,
{
    let mut s = logs_location.to_string();
    s.append("_");
    s.append(username);
    s.append("_");
    s.append(decimal_string(pid as u64).as_str());
    s.append("_stderr.log");
    s
}

/// Anything but exactly two arguments of which the first asks for it is no request
/// to check on a server; where it is one, the second is the process id.
pub proof fn law_check_requests(args: Seq<Seq<char>>)
    ensures
        requested_check(args) is Some <==> args.len() == 3 && args[1] == "check-server-pid"@,
        requested_check(args) matches Some(Ok(pid)) ==> text::number_value(
            args[2],
            u32::MAX as nat,
        ) == Ok::<nat, NumberError>(pid),
        requested_check(args) matches Some(Err(e)) ==> (e matches LaunchError::NotANumber(why)
            && text::number_value(args[2], u32::MAX as nat) == Err::<nat, NumberError>(why)),
{
}

/// What the errors are called.
pub proof fn law_launch_error_texts(e: NumberError)
    ensures
        LaunchError::MismatchedQuotes.text() == "Mismatched quotes"@,
        LaunchError::NoServerPid.text() == "no server pid found"@,
        LaunchError::NotANumber(e).text() == e.text(),
{
}

/// A file that is put into a directory is found there under its own name: the
/// path is that of the directory, with one slash between where it has none at its
/// end, and its last component is the name.
pub proof fn law_path_leads_to_the_name(dir: Seq<char>, name: Seq<char>)
    requires
        name.len() > 0,
        !name.contains('/'),
        name != "."@,
        name != ".."@,
    ensures
        processes::name_of(path_joined(dir, name)) == Some(name),
        dir.len() == 0 ==> path_joined(dir, name) == name,
        path_joined(dir.push('/'), name) == dir.push('/') + name,
        dir.len() > 0 && dir.last() != '/' ==> path_joined(dir, name) == path_joined(
            dir.push('/'),
            name,
        ),
{
    reveal_strlit("/");
    assert(name[0] != '/') by {
        assert(name.contains(name[0]));
    }
    if dir.len() == 0 {
        processes::law_file_name(dir, name);
        assert(path_joined(dir, name) =~= name);
    } else if dir.last() == '/' {
        assert(dir =~= dir.drop_last().push('/'));
        processes::law_file_name(dir.drop_last(), name);
    } else {
        processes::law_file_name(dir, name);
        assert(dir + "/"@ + name =~= dir.push('/') + name);
    }
}

/// A name that starts at the root stands for itself, in whatever directory.
pub proof fn law_rooted_name_stands_for_itself(dir: Seq<char>, name: Seq<char>)
    ensures
        path_joined(dir, seq!['/'] + name) == seq!['/'] + name,
{
}

/// The name of a copied file is made of what it is, whose it is and the random
/// part, and so are two files of one user different where their random parts are.
pub proof fn law_locations(
    dir: Seq<char>,
    base: Seq<char>,
    username: Seq<char>,
    random: Seq<char>,
    other: Seq<char>,
)
    ensures
        location(dir, base, username, random).1 == base + "_"@ + username,
        location(dir, base, username, random).0 == path_joined(
            dir,
            base + "_"@ + username + "_"@ + random,
        ),
        random.len() == other.len() && random != other ==> location(
            dir,
            base,
            username,
            random,
        ).0 != location(dir, base, username, other).0,
{
    reveal_strlit("/");
    reveal_strlit("_");
    let front = base + "_"@ + username + "_"@;
    let a = location(dir, base, username, random).0;
    let b = location(dir, base, username, other).0;
    assert((front + random)[0] == front[0]);
    assert((front + other)[0] == front[0]);
    if random.len() == other.len() && a == b {
        assert(a.skip(a.len() - random.len()) =~= random);
        assert(b.skip(b.len() - other.len()) =~= other);
    }
}

/// The random part of a location is made of the letters and digits of ASCII.
pub proof fn law_random_part(chars: Seq<char>, c: char)
    requires
        all_alphanumeric(chars),
        chars.contains(c),
    ensures
        'A' <= c <= 'Z' || 'a' <= c <= 'z' || '0' <= c <= '9',
{
    let i = choose|i: int| 0 <= i < chars.len() && chars[i] == c;
    assert(chars[i] == c);
    assert(c as int <= 0x7f && random::is_alphanumeric(c as u8));
}

/// The server's arguments, once they are cut at the spaces: the port to connect
/// to, on its own machine, any port to listen on, the file for its process id, and
/// that it ends its predecessors.
pub proof fn law_server_arguments(target_port: u16, pid_file: Seq<char>)
    requires
        !pid_file.contains(' '),
    ensures
        text::pieces(server_args_text(target_port, pid_file), ' ') == seq![
            "--target-port="@ + text::decimal(target_port as nat),
            "--target-host=localhost"@,
            "--bind-port=0"@,
            "--daemonize="@ + pid_file,
            "--kill-old"@,
        ],
{
    let port = text::decimal(target_port as nat);
    let a = "--target-port="@ + port;
    let b = "--target-host=localhost"@;
    let c = "--bind-port=0"@;
    let d = "--daemonize="@ + pid_file;
    let e = "--kill-old"@;
    reveal_strlit("--target-port=");
    reveal_strlit(" --target-host=localhost --bind-port=0 --daemonize=");
    reveal_strlit("--target-host=localhost");
    reveal_strlit("--bind-port=0");
    reveal_strlit("--daemonize=");
    reveal_strlit(" --kill-old");
    reveal_strlit("--kill-old");
    text::lemma_no_space_in_decimal(target_port as nat);
    lemma_concat_has_not("--target-port="@, port, ' ');
    lemma_concat_has_not("--daemonize="@, pid_file, ' ');
    let from_d = d.push(' ') + e;
    let from_c = c.push(' ') + from_d;
    let from_b = b.push(' ') + from_c;
    assert(server_args_text(target_port, pid_file) =~= a.push(' ') + from_b);
    text::law_pieces_divide(a, ' ', from_b);
    text::law_pieces_divide(b, ' ', from_c);
    text::law_pieces_divide(c, ' ', from_d);
    text::law_pieces_divide(d, ' ', e);
    text::law_one_piece(a, ' ');
    text::law_one_piece(b, ' ');
    text::law_one_piece(c, ' ');
    text::law_one_piece(d, ' ');
    text::law_one_piece(e, ' ');
    assert(text::pieces(server_args_text(target_port, pid_file), ' ') =~= seq![a, b, c, d, e]);
}

proof fn lemma_concat_has_not(a: Seq<char>, b: Seq<char>, c: char)
    requires
        !a.contains(c),
        !b.contains(c),
    ensures
        !(a + b).contains(c),
{
    if (a + b).contains(c) {
        let i = choose|i: int| 0 <= i < (a + b).len() && (a + b)[i] == c;
        if i < a.len() {
            assert(a[i] == c);
        } else {
            assert(b[i - a.len()] == c);
        }
    }
}

/// The copied program is started as a server with the arguments in one word, with
/// the part of its name that does not vary and the window behind them; that its
/// log is to be detailed only stands before that.
pub proof fn law_copied_server(
    program: Seq<char>,
    server_args: Seq<char>,
    kill_base: Seq<char>,
    window: usize,
)
    ensures
        copied_server_text(true, program, server_args, kill_base, window) == "RUST_LOG=debug"@
            + copied_server_text(false, program, server_args, kill_base, window),
        copied_server_text(false, program, server_args, kill_base, window) == " "@ + program
            + " --local-port 0 --target-port 0 --target-host 0 --run-as-server=\""@ + (server_args
            + " --kill-old-base="@ + kill_base + " --window="@ + text::decimal(window as nat))
            + "\""@,
{
    reveal_strlit("");
    assert(copied_server_text(false, program, server_args, kill_base, window) =~= " "@ + program
        + " --local-port 0 --target-port 0 --target-host 0 --run-as-server=\""@ + (server_args
        + " --kill-old-base="@ + kill_base + " --window="@ + text::decimal(window as nat))
        + "\""@);
    assert(copied_server_text(true, program, server_args, kill_base, window) =~= "RUST_LOG=debug"@
        + copied_server_text(false, program, server_args, kill_base, window));
}

/// The forwarding goes from the local port to the server's, both on the machines
/// themselves.
pub proof fn law_forwarding(local_port: u16, server_port: u16)
    ensures
        text::pieces(forward_text(local_port, server_port), ':') == seq![
            "-L localhost"@,
            text::decimal(local_port as nat),
            "localhost"@,
            text::decimal(server_port as nat),
        ],
{
    let a = "-L localhost"@;
    let b = text::decimal(local_port as nat);
    let c = "localhost"@;
    let d = text::decimal(server_port as nat);
    reveal_strlit("-L localhost:");
    reveal_strlit("-L localhost");
    reveal_strlit(":localhost:");
    reveal_strlit("localhost");
    text::lemma_no_colon_in_decimal(local_port as nat);
    text::lemma_no_colon_in_decimal(server_port as nat);
    let from_c = c.push(':') + d;
    let from_b = b.push(':') + from_c;
    assert(forward_text(local_port, server_port) =~= a.push(':') + from_b);
    text::law_pieces_divide(a, ':', from_b);
    text::law_pieces_divide(b, ':', from_c);
    text::law_pieces_divide(c, ':', d);
    text::law_one_piece(a, ':');
    text::law_one_piece(b, ':');
    text::law_one_piece(c, ':');
    text::law_one_piece(d, ':');
    assert(text::pieces(forward_text(local_port, server_port), ':') =~= seq![a, b, c, d]);
}

/// The process id is read from its file with whatever white space round it, and
/// waited for exactly while the file is empty.
pub proof fn law_pid_file_is_read(before: Seq<char>, pid: u32, after: Seq<char>, output: Seq<char>)
    requires
        forall|i: int| 0 <= i < before.len() ==> text::is_white_space(#[trigger] before[i]),
        forall|i: int| 0 <= i < after.len() ==> text::is_white_space(#[trigger] after[i]),
    ensures
        pid_in(before + text::decimal(pid as nat) + after) == Some(
            Ok::<nat, NumberError>(pid as nat),
        ),
        pid_in(output) is None <==> output.len() == 0,
        pid_in(output) matches Some(res) ==> res == text::number_value(
            text::trimmed(output),
            u32::MAX as nat,
        ),
{
    text::law_number_amid_space_is_read(before, pid as nat, after, u32::MAX as nat);
    let all = before + text::decimal(pid as nat) + after;
    if all.len() == 0 {
        text::law_written_number_is_read(pid as nat, u32::MAX as nat);
        assert(text::decimal(pid as nat).len() == 0);
    }
}

/// A command is its program, followed by its arguments.
pub proof fn law_command_words(command: CommandLine)
    ensures
        command.words().len() == 1 + command.args@.len(),
        command.words()[0] == command.program@,
        forall|i: int|
            0 <= i < command.args@.len() ==> #[trigger] command.words()[i + 1]
                == command.args@[i]@,
{
}

/// How long the server is waited for, and where local ports are taken from.
pub proof fn law_launch_limits()
    ensures
        PID_TRIES == 20,
        PID_RETRY_SECS == 1,
        RANDOM_LEN == 15,
        LOCAL_PORT_LOW == 24000,
        LOCAL_PORT_HIGH == 32000,
{
}

/// The command that is run to check on a server is understood by the program that
/// it names.
pub proof fn law_check_command_is_understood(program: &str, pid: u32, command: String)
    requires
        !program@.contains(' '),
        call_ensures(check_command, (program, pid), command),
    ensures
        text::pieces(command@, ' ').len() > 0,
        text::pieces(command@, ' ')[0] == program@,
        requested_check(text::pieces(command@, ' ')) == Some(Ok::<nat, LaunchError>(pid as nat)),
{
    law_check_is_understood(program@, pid);
    let rest = "check-server-pid "@ + text::decimal(pid as nat);
    reveal_strlit(" check-server-pid ");
    reveal_strlit("check-server-pid ");
    assert(command@ =~= program@.push(' ') + rest);
    text::law_pieces_divide(program@, ' ', rest);
    text::law_one_piece(program@, ' ');
}

/// The port that a server prints is the port that is read.
pub proof fn law_printed_port(port: u16, output: &[u8], res: Result<u16, OutputError>)
    requires
        output@ == encode_utf8(text::decimal(port as nat)),
        call_ensures(server_port, (output,), res),
    ensures
        res == Ok::<u16, OutputError>(port),
{
    law_printed_port_is_read(port);
}

} // verus!
