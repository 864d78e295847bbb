//! The ssh connection that forwards the local port: when to give it up and when
//! to make it anew.

use crate::server_check_port;
use crate::text;
use crate::text::starts_with;
use vstd::prelude::*;
#[allow(unused_imports)]
use vstd::string::*;

verus! {

/// How long a report on the server is waited for.
pub const LINE_TIMEOUT_SECS: u64 = 10;

/// What has ended.
#[derive(Debug, Clone, Copy, PartialEq, Eq, Structural)]
pub enum RunSshResult {
    /// The server on the remote machine.
    ServerDied,
    /// The ssh connection to it.
    SshDied,
}

/// What happens on an ssh connection.
pub enum SshEvent {
    /// The ssh process is over.
    Exited,
    /// A line that was printed on the remote machine, or `None` where there
    /// will be no more.
    Line(Option<String>),
    /// No line has come for too long.
    TimedOut,
    /// The tunnel is to stop.
    Cancelled,
}

/// What to do with an ssh connection.
#[derive(Debug, Clone, Copy, PartialEq, Eq, Structural)]
pub enum SshAction {
    /// Report that it has come to an end.
    Finish(RunSshResult),
    /// Wait for what happens next.
    Wait,
    /// End the ssh process, and wait for what happens next.
    Kill,
}

/// Whether a line says that the server has died.
pub open spec fn says_bad(line: Seq<char>) -> bool {
    text::begins_with(line, "BAD"@)
}

/// What is done about an event on an ssh connection.
pub open spec fn ssh_action(event: SshEvent) -> SshAction {
    match event {
        SshEvent::Exited => SshAction::Finish(RunSshResult::SshDied),
        SshEvent::Line(Some(line)) => if says_bad(line@) {
            SshAction::Finish(RunSshResult::ServerDied)
        } else {
            SshAction::Wait
        },
        SshEvent::Line(None) => SshAction::Wait,
        SshEvent::TimedOut | SshEvent::Cancelled => SshAction::Kill,
    }
}

pub fn next_ssh_action(event: SshEvent) -> (action: SshAction)
    ensures
        action == ssh_action(event),
{
    match event {
        SshEvent::Exited => SshAction::Finish(RunSshResult::SshDied),
        SshEvent::Line(Some(line)) => {
            if starts_with(line.as_str(), "BAD") {
                SshAction::Finish(RunSshResult::ServerDied)
            } else {
                SshAction::Wait
            }
        },
        SshEvent::Line(None) => SshAction::Wait,
        SshEvent::TimedOut | SshEvent::Cancelled => SshAction::Kill,
    }
}

/// What has become of the ssh connections.
#[derive(Debug, Clone, Copy, PartialEq, Eq, Structural)]
pub enum SshLoopEvent {
    /// An ssh process was started.
    Started,
    Checked { cancelled: bool },
    /// An ssh connection has come to an end.
    Finished(RunSshResult),
}

/// What to do next about the ssh connections.
#[derive(Debug, Clone, Copy, PartialEq, Eq, Structural)]
pub enum SshLoopAction {
    Return,
    CheckCancelled,
    /// Wait for the connection to come to an end.
    Run,
    /// Start an ssh process.
    Start,
}

/// The connection is made anew each time that it dies, until the server has
/// died or the tunnel is to stop.
pub open spec fn ssh_loop_action(event: SshLoopEvent) -> SshLoopAction {
    match event {
        SshLoopEvent::Started => SshLoopAction::CheckCancelled,
        SshLoopEvent::Checked { cancelled } => if cancelled {
            SshLoopAction::Return
        } else {
            SshLoopAction::Run
        },
        SshLoopEvent::Finished(RunSshResult::ServerDied) => SshLoopAction::Return,
        SshLoopEvent::Finished(RunSshResult::SshDied) => SshLoopAction::Start,
    }
}

pub fn next_ssh_loop_action(event: SshLoopEvent) -> (action: SshLoopAction)
    ensures
        action == ssh_loop_action(event),
{
    match event {
        SshLoopEvent::Started => SshLoopAction::CheckCancelled,
        SshLoopEvent::Checked { cancelled } => {
            if cancelled {
                SshLoopAction::Return
            } else {
                SshLoopAction::Run
            }
        },
        SshLoopEvent::Finished(RunSshResult::ServerDied) => SshLoopAction::Return,
        SshLoopEvent::Finished(RunSshResult::SshDied) => SshLoopAction::Start,
    }
}

/// The reports on the server are understood: the tunnel ends on one that says
/// that it has died, and on no other.
pub proof fn law_reports_are_understood(is_running: bool, iter: u64)
    ensures
        says_bad(server_check_port::report(is_running, iter)) <==> !is_running,
{
    reveal_strlit("BAD");
    reveal_strlit("BAD ");
    reveal_strlit("GOOD ");
    let line = server_check_port::report(is_running, iter);
    if is_running {
        assert(line[0] == 'G');
        assert(line.take(3)[0] != "BAD"@[0]);
    } else {
        assert(line.take(3) =~= "BAD"@);
    }
}

/// The tunnel ends on a report that the server does not run, whenever it comes,
/// and on no other; until then it waits for the next.
pub proof fn law_bad_report_ends_the_tunnel(is_running: bool, iter: u64, line: String)
    requires
        line@ == server_check_port::report(is_running, iter),
    ensures
        !is_running ==> ssh_action(SshEvent::Line(Some(line))) == SshAction::Finish(
            RunSshResult::ServerDied,
        ),
        is_running ==> ssh_action(SshEvent::Line(Some(line))) == SshAction::Wait,
{
    law_reports_are_understood(is_running, iter);
}

/// Of all that may be printed, exactly the lines that begin with the word BAD end
/// the tunnel. The connection is made anew exactly when its process is over, and
/// the process is ended when it has fallen silent or the tunnel is to stop.
pub proof fn law_ssh_events(event: SshEvent, rest: Seq<char>)
    ensures
        event matches SshEvent::Line(Some(line)) ==> {
            &&& line@ == "BAD"@ + rest ==> ssh_action(event) == SshAction::Finish(
                RunSshResult::ServerDied,
            )
            &&& ssh_action(event) is Finish ==> line@ == "BAD"@ + line@.skip(3)
            &&& !(ssh_action(event) is Kill)
        },
        event is Exited ==> ssh_action(event) == SshAction::Finish(RunSshResult::SshDied),
        ssh_action(event) == SshAction::Finish(RunSshResult::SshDied) ==> event is Exited,
        event is TimedOut || event is Cancelled <==> ssh_action(event) is Kill,
        event == SshEvent::Line(None) ==> ssh_action(event) is Wait,
{
    reveal_strlit("BAD");
    if let SshEvent::Line(Some(line)) = event {
        if line@ == "BAD"@ + rest {
            assert(line@.take(3) =~= "BAD"@);
        }
        if says_bad(line@) {
            assert(line@ =~= line@.take(3) + line@.skip(3));
        }
    }
}

/// The tunnel is given up exactly when the server has died or it is cancelled;
/// each time that only the connection has died, it is made anew.
pub proof fn law_ssh_is_kept_up(event: SshLoopEvent)
    ensures
        ssh_loop_action(event) is Return <==> {
            ||| event == (SshLoopEvent::Checked { cancelled: true })
            ||| event == SshLoopEvent::Finished(RunSshResult::ServerDied)
        },
        ssh_loop_action(event) is Start <==> event == SshLoopEvent::Finished(RunSshResult::SshDied),
        ssh_loop_action(event) is Run <==> event == (SshLoopEvent::Checked { cancelled: false }),
        ssh_loop_action(event) is CheckCancelled <==> event is Started,
{
}

/// A report comes every second, and the connection is ended after ten without one.
pub proof fn law_report_pace()
    ensures
        server_check_port::REPORT_SECS == 1,
        LINE_TIMEOUT_SECS == 10,
{
}

} // verus!
