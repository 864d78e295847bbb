//! The processes of the machine: which of them are servers of this program.

use crate::text;
use crate::text::{remove_all, same_text, split};
use vstd::prelude::*;
#[allow(unused_imports)]
use vstd::string::*;

verus! {

/// What is known of a process.
#[derive(Debug, Clone)]
pub struct ProcessInfo {
    pub pid: u32,
    /// Whether it is a thread of another process.
    pub is_thread: bool,
    /// The file name of its executable, where it is known and valid UTF-8.
    pub exe_name: Option<String>,
    /// The user that it runs as, where that is known.
    pub uid: Option<u32>,
}

/// The last of the components that names something, unless that is the parent
/// directory. Empty components and those for the directory itself name nothing.
pub open spec fn last_name(components: Seq<Seq<char>>) -> Option<Seq<char>>
    decreases components.len(),
{
    if components.len() == 0 {
        None
    } else if components.last().len() == 0 || components.last() == "."@ {
        last_name(components.drop_last())
    } else if components.last() == ".."@ {
        None
    } else {
        Some(components.last())
    }
}

/// The file name at the end of a Unix path.
pub open spec fn name_of(path: Seq<char>) -> Option<Seq<char>> {
    last_name(text::pieces(path, '/'))
}

/// The contents of a string, where there is one.
pub open spec fn optional_text(s: Option<String>) -> Option<Seq<char>> {
    match s {
        Some(s) => Some(s@),
        None => None,
    }
}

/// Whether a string is empty.
fn is_empty(s: &String) -> (empty: bool)
    ensures
        empty == (s@.len() == 0),
{
    s.as_str().unicode_len() == 0
}

/// The file name at the end of a path, where it has one.
pub fn file_name(path: &str) -> (name: Option<String>)
    ensures
        optional_text(name) == name_of(path@),
{
    let mut components = split(path, '/');
    while components.len() > 0
        invariant
            last_name(text::texts(components@)) == name_of(path@),
        decreases components@.len(),
    {
        let ghost before = text::texts(components@);
        match components.pop() {
            None => {
                return None;
            },
            Some(component) => {
                assert(before.last() == component@);
                assert(text::texts(components@) =~= before.drop_last());
                if is_empty(&component) || same_text(component.as_str(), ".") {
                    continue ;
                }
                if same_text(component.as_str(), "..") {
                    return None;
                }
                return Some(component);
            },
        }
    }
    None
}

/// Whether a process runs an executable of the same file name as `this_exe`.
pub open spec fn runs_same_file(this_exe: Seq<char>, process: ProcessInfo) -> bool {
    &&& name_of(this_exe) is Some
    &&& optional_text(process.exe_name) == name_of(this_exe)
}

pub fn process_matches(this_exe: &str, process: &ProcessInfo) -> (same: bool)
    ensures
        same == runs_same_file(this_exe@, *process),
{
    match (file_name(this_exe), &process.exe_name) {
        (Some(this), Some(that)) => same_text(this.as_str(), that.as_str()),
        _ => false,
    }
}

/// Whether a process is an earlier server that makes way for this one: another
/// process of the same user that runs, or ran before it was replaced on disk,
/// an executable of the given file name.
pub open spec fn is_old(
    process: ProcessInfo,
    our_pid: u32,
    our_uid: u32,
    our_name: Seq<char>,
) -> bool {
    &&& process.pid != our_pid
    &&& !process.is_thread
    &&& process.exe_name matches Some(exe) && text::without(exe@, " (deleted)"@) == our_name
    &&& process.uid == Some(our_uid)
}

pub fn is_old_server(
    process: &ProcessInfo,
    our_pid: u32,
    our_uid: u32,
    our_name: &str,
) -> (old_server: bool)
    ensures
        old_server == is_old(*process, our_pid, our_uid, our_name@),
{
    if process.pid == our_pid {
        return false;
    }
    if process.is_thread {
        return false;
    }
    match &process.exe_name {
        None => {
            return false;
        },
        Some(exe) => {
            proof {
                reveal_strlit(" (deleted)");
            }
            let exe_str = remove_all(exe.as_str(), " (deleted)");
            if !same_text(exe_str.as_str(), our_name) {
                return false;
            }
        },
    }
    match process.uid {
        None => false,
        Some(uid) => uid == our_uid,
    }
}

/// Whether `pattern` is nowhere in `chars`.
pub open spec fn nowhere_in(chars: Seq<char>, pattern: Seq<char>) -> bool {
    forall|i: int| 0 <= i <= chars.len() ==> !text::begins_with(#[trigger] chars.skip(i), pattern)
}

/// What a path is named after is what is behind its last slash. Where that is
/// nothing, or stands for the directory itself, it is named as without it, and
/// where it stands for the parent it has no name.
pub proof fn law_file_name(path: Seq<char>, last: Seq<char>)
    requires
        !last.contains('/'),
    ensures
        ({
            let whole = path.push('/') + last;
            &&& last.len() == 0 || last == "."@ ==> {
                &&& name_of(whole) == name_of(path)
                &&& name_of(last) is None
            }
            &&& last == ".."@ ==> {
                &&& name_of(whole) is None
                &&& name_of(last) is None
            }
            &&& last.len() > 0 && last != "."@ && last != ".."@ ==> {
                &&& name_of(whole) == Some(last)
                &&& name_of(last) == Some(last)
            }
        }),
{
    reveal_strlit(".");
    reveal_strlit("..");
    reveal_with_fuel(last_name, 2);
    let whole = path.push('/') + last;
    text::law_pieces_divide(path, '/', last);
    text::law_one_piece(last, '/');
    let parts = text::pieces(path, '/');
    assert(text::pieces(whole, '/') =~= parts.push(last));
    assert(parts.push(last).drop_last() =~= parts);
    assert(seq![last].drop_last() =~= seq![]);
    assert(seq![last].last() == last);
    assert(parts.push(last).last() == last);
    if last.len() == 2 {
        assert(last != "."@);
    }
    if last.len() == 1 {
        assert(last != ".."@);
    }
}

/// Two executables are the same where both have a file name and it is one.
pub proof fn law_same_file_name(this_exe: Seq<char>, process: ProcessInfo)
    ensures
        runs_same_file(this_exe, process) <==> (process.exe_name matches Some(exe) && name_of(
            this_exe,
        ) == Some(exe@)),
{
}

proof fn lemma_without_absent(chars: Seq<char>, pattern: Seq<char>)
    requires
        nowhere_in(chars, pattern),
    ensures
        text::without(chars, pattern) == chars,
    decreases chars.len(),
{
    if chars.len() > 0 {
        assert(chars.skip(0) =~= chars);
        assert forall|i: int| 0 <= i <= chars.drop_first().len() implies !text::begins_with(
            #[trigger] chars.drop_first().skip(i),
            pattern,
        ) by {
            assert(chars.drop_first().skip(i) =~= chars.skip(i + 1));
        }
        lemma_without_absent(chars.drop_first(), pattern);
        if pattern.len() > 0 {
            assert(seq![chars[0]] + chars.drop_first() =~= chars);
        }
    }
}

proof fn lemma_without_deleted(name: Seq<char>)
    requires
        nowhere_in(name, " (deleted)"@),
    ensures
        text::without(name + " (deleted)"@, " (deleted)"@) == name,
    decreases name.len(),
{
    let mark = " (deleted)"@;
    reveal_strlit(" (deleted)");
    let whole = name + mark;
    if name.len() == 0 {
        assert(whole =~= mark);
        assert(mark.take(10) =~= mark);
        assert(text::begins_with(mark, mark));
        assert(mark.skip(10) =~= seq![]);
        assert(text::without(mark.skip(10), mark) =~= seq![]);
        assert(name =~= seq![]);
    } else {
        assert(name.skip(0) =~= name);
        assert(!text::begins_with(whole, mark)) by {
            if text::begins_with(whole, mark) {
                if name.len() >= 10 {
                    assert(name.take(10) =~= whole.take(10));
                } else {
                    assert(whole.take(10)[name.len() as int] == mark[0]);
                    assert(mark[name.len() as int] != mark[0]);
                }
            }
        }
        assert forall|i: int| 0 <= i <= name.drop_first().len() implies !text::begins_with(
            #[trigger] name.drop_first().skip(i),
            mark,
        ) by {
            assert(name.drop_first().skip(i) =~= name.skip(i + 1));
        }
        lemma_without_deleted(name.drop_first());
        assert(whole.drop_first() =~= name.drop_first() + mark);
        assert(whole[0] == name[0]);
        assert(seq![name[0]] + name.drop_first() =~= name);
    }
}

/// Every other process of the same user that runs the executable of the given
/// name, or one of that name that was replaced on disk, is an old server, whatever
/// its id; no thread is one, nor a process of another user, nor this one.
pub proof fn law_old_servers(
    process: ProcessInfo,
    our_pid: u32,
    our_uid: u32,
    our_name: Seq<char>,
)
    requires
        nowhere_in(our_name, " (deleted)"@),
    ensures
        ({
            let named = process.exe_name matches Some(exe) && (exe@ == our_name || exe@ == our_name
                + " (deleted)"@);
            &&& process.pid != our_pid && !process.is_thread && process.uid == Some(our_uid)
                && named ==> is_old(process, our_pid, our_uid, our_name)
            &&& is_old(process, our_pid, our_uid, our_name) <==> {
                &&& process.pid != our_pid
                &&& !process.is_thread
                &&& process.uid == Some(our_uid)
                &&& process.exe_name matches Some(exe) && text::without(exe@, " (deleted)"@)
                    == our_name
            }
            &&& process.pid == our_pid ==> !is_old(process, our_pid, our_uid, our_name)
            &&& process.is_thread ==> !is_old(process, our_pid, our_uid, our_name)
            &&& process.uid != Some(our_uid) ==> !is_old(process, our_pid, our_uid, our_name)
            &&& process.exe_name is None ==> !is_old(process, our_pid, our_uid, our_name)
            &&& process.exe_name matches Some(exe) ==> (nowhere_in(exe@, " (deleted)"@) && exe@
                != our_name ==> !is_old(process, our_pid, our_uid, our_name))
        }),
{
    lemma_without_absent(our_name, " (deleted)"@);
    lemma_without_deleted(our_name);
    if let Some(exe) = process.exe_name {
        if nowhere_in(exe@, " (deleted)"@) {
            lemma_without_absent(exe@, " (deleted)"@);
        }
    }
}

/// The id of a process only tells this server from the others: it makes no other
/// difference.
pub proof fn law_process_id_makes_no_difference(
    process: ProcessInfo,
    other_pid: u32,
    our_pid: u32,
    our_uid: u32,
    our_name: Seq<char>,
)
    requires
        process.pid != our_pid,
        other_pid != our_pid,
    ensures
        is_old(process, our_pid, our_uid, our_name) <==> is_old(
            ProcessInfo { pid: other_pid, ..process },
            our_pid,
            our_uid,
            our_name,
        ),
{
}

/// An optional string is there where its contents are.
pub proof fn law_optional_text(s: Option<String>)
    ensures
        s matches Some(string) ==> optional_text(s) == Some(string@),
        s is None ==> optional_text(s) is None,
{
}

} // verus!
