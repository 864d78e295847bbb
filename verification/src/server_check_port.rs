//! Whether the server at the other end of the ssh connection still runs. The
//! answer goes out as a line of text, again and again.

use crate::processes;
use crate::processes::{process_matches, ProcessInfo};
use crate::text;
use crate::text::decimal_string;
use vstd::prelude::*;
#[allow(unused_imports)]
use vstd::string::*;

verus! {

/// Whether the first process of the given id runs the same executable.
pub open spec fn server_runs(
    this_exe: Seq<char>,
    list: Seq<ProcessInfo>,
    check_pid: u32,
) -> bool
    decreases list.len(),
{
    if list.len() == 0 {
        false
    } else if list[0].pid == check_pid {
        processes::runs_same_file(this_exe, list[0])
    } else {
        server_runs(this_exe, list.drop_first(), check_pid)
    }
}

/// Looks for the server among the processes.
pub fn check_server_port(this_exe: &str, list: &Vec<ProcessInfo>, check_pid: u32) -> (runs: bool)
    ensures
        runs == server_runs(this_exe@, list@, check_pid),
{
    let mut i: usize = 0;
    assert(list@.skip(0) =~= list@);
    while i < list.len()
        invariant
            i <= list@.len(),
            server_runs(this_exe@, list@, check_pid) == server_runs(
                this_exe@,
                list@.skip(i as int),
                check_pid,
            ),
        decreases list@.len() - i,
    {
        assert(list@.skip(i as int)[0] == list@[i as int]);
        assert(list@.skip(i as int).drop_first() =~= list@.skip(i + 1));
        if list[i].pid == check_pid {
            return process_matches(this_exe, &list[i]);
        }
        i = i + 1;
    }
    false
}

/// The order of the processes makes no difference, as no two have the same id:
/// the server runs where some process has its id and runs its executable.
pub proof fn law_server_runs_somewhere(
    this_exe: Seq<char>,
    list: Seq<ProcessInfo>,
    check_pid: u32,
)
    requires
        forall|i: int, j: int|
            0 <= i < j < list.len() ==> (#[trigger] list[i]).pid != (#[trigger] list[j]).pid,
    ensures
        server_runs(this_exe, list, check_pid) <==> exists|i: int|
            0 <= i < list.len() && (#[trigger] list[i]).pid == check_pid
                && processes::runs_same_file(this_exe, list[i]),
    decreases list.len(),
{
    if list.len() > 0 {
        let rest = list.drop_first();
        assert forall|i: int, j: int| 0 <= i < j < rest.len() implies (#[trigger] rest[i]).pid != (
        #[trigger] rest[j]).pid by {
            assert(rest[i] == list[i + 1]);
            assert(rest[j] == list[j + 1]);
        }
        law_server_runs_somewhere(this_exe, rest, check_pid);
        if list[0].pid != check_pid {
            assert forall|i: int|
                0 <= i < list.len() && (#[trigger] list[i]).pid == check_pid
                    && processes::runs_same_file(this_exe, list[i]) implies exists|k: int|
                0 <= k < rest.len() && (#[trigger] rest[k]).pid == check_pid
                    && processes::runs_same_file(this_exe, rest[k]) by {
                assert(rest[i - 1] == list[i]);
            }
            assert forall|k: int|
                0 <= k < rest.len() && (#[trigger] rest[k]).pid == check_pid
                    && processes::runs_same_file(this_exe, rest[k]) implies exists|i: int|
                0 <= i < list.len() && (#[trigger] list[i]).pid == check_pid
                    && processes::runs_same_file(this_exe, list[i]) by {
                assert(list[k + 1] == rest[k]);
            }
        } else {
            assert forall|i: int| 0 < i < list.len() implies (#[trigger] list[i]).pid
                != check_pid by {
                assert(list[0].pid != list[i].pid);
            }
        }
    }
}

/// The line that says for the `iter`-th time whether the server runs.
pub open spec fn report(is_running: bool, iter: u64) -> Seq<char> {
    (if is_running {
        "GOOD "@
    } else {
        "BAD "@
    }) + text::decimal(iter as nat)
}

/// How long to wait between two reports.
pub const REPORT_SECS: u64 = 1;

/// The reports of one run, numbered from 1.
pub struct ServerCheck {
    iter: u64,
}

impl View for ServerCheck {
    type V = u64;

    /// The number of reports that were made.
    closed spec fn view(&self) -> u64 {
        self.iter
    }
}

impl ServerCheck {
    pub fn new() -> (check: ServerCheck)
        ensures
            check@ == 0,
    {
        ServerCheck { iter: 0 }
    }

    /// The number of reports that were made.
    pub fn reports(&self) -> (n: u64)
        ensures
            n == self@,
    {
        self.iter
    }

    /// Looks for the server and says in a line whether it runs.
    pub fn next_line(
        &mut self,
        this_exe: &str,
        list: &Vec<ProcessInfo>,
        check_pid: u32,
    ) -> (line: String)
        requires
            old(self)@ < u64::MAX,
        ensures
            final(self)@ == old(self)@ + 1,
            line@ == report(server_runs(this_exe@, list@, check_pid), final(self)@),
    {
        self.iter = self.iter + 1;
        let mut line = if check_server_port(this_exe, list, check_pid) {
            "GOOD ".to_string()
        } else {
            "BAD ".to_string()
        };
        line.append(decimal_string(self.iter).as_str());
        line
    }
}

/// A report says in one word whether the server runs, and which report it is.
pub proof fn law_report_text(is_running: bool, iter: u64)
    ensures
        is_running ==> report(is_running, iter) == "GOOD "@ + text::decimal(iter as nat),
        !is_running ==> report(is_running, iter) == "BAD "@ + text::decimal(iter as nat),
{
}

} // verus!
