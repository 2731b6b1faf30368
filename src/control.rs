//! The control protocol's commands and responses, and how a command acts on
//! the task store.
use vstd::prelude::*;

use crate::store::{task_of, with_status, TaskStore};
use crate::task::{status_text, TaskInfo, TaskStatus};
use crate::text::{decimal, decimal_string};

verus! {

/// A command sent over the control channel.
#[derive(Debug)]
pub enum IpcCommand {
    Stop(Vec<u32>),
    Pause(Vec<u32>),
    Resume(Vec<u32>),
    List,
    Status(u32),
}

/// The answer to one command.
#[derive(Debug)]
pub enum IpcResponse {
    /// The command was applied.
    Ack,
    /// One `(id, status text, template)` entry per task.
    TaskList(Vec<(u32, String, String)>),
    Error(String),
}

/// The listing entry of a task.
pub open spec fn entry_of(t: TaskInfo) -> (u32, Seq<char>, Seq<char>) {
    (t.id, status_text(t.status), t.url_template@)
}

/// The characters of listing entries.
pub open spec fn entries_of(v: Seq<(u32, String, String)>) -> Seq<(u32, Seq<char>, Seq<char>)> {
    v.map_values(|e: (u32, String, String)| (e.0, e.1@, e.2@))
}

/// The error text for an unknown task id.
pub open spec fn not_found_message(id: u32) -> Seq<char> {
    "Task "@ + decimal(id as nat) + " not found"@
}

/// The tasks after a command.
pub open spec fn store_after(s: Seq<TaskInfo>, cmd: IpcCommand) -> Seq<TaskInfo> {
    match cmd {
        IpcCommand::Stop(ids) => with_status(s, ids@, TaskStatus::Stopped),
        IpcCommand::Pause(ids) => with_status(s, ids@, TaskStatus::Paused),
        IpcCommand::Resume(ids) => with_status(s, ids@, TaskStatus::Running),
        _ => s,
    }
}

/// The response a command owes, given the tasks before it.
pub open spec fn expected_response(s: Seq<TaskInfo>, cmd: IpcCommand, r: IpcResponse) -> bool {
    match cmd {
        IpcCommand::List => r matches IpcResponse::TaskList(v) && entries_of(v@) == s.map_values(
            |t: TaskInfo| entry_of(t),
        ),
        IpcCommand::Status(id) => match task_of(s, id) {
            Some(t) => r matches IpcResponse::TaskList(v) && entries_of(v@) == seq![entry_of(t)],
            None => r matches IpcResponse::Error(m) && m@ == not_found_message(id),
        },
        _ => r is Ack,
    }
}

/// The listing entry of a task.
fn entry(t: &TaskInfo) -> (r: (u32, String, String))
    ensures
        (r.0, r.1@, r.2@) == entry_of(*t),
{
    (t.id, t.status.to_string(), t.url_template.clone())
}

/// Applies one command to the store: Stop, Pause and Resume set the matching
/// status on every known id and ignore the others; List reports every task;
/// Status reports one task, or an error naming the unknown id.
pub fn handle_command(store: &mut TaskStore, cmd: IpcCommand) -> (r: IpcResponse)
    requires
        old(store).wf(),
    ensures
        final(store).wf(),
        final(store)@ == store_after(old(store)@, cmd),
        final(store).next_id_spec() == old(store).next_id_spec(),
        expected_response(old(store)@, cmd, r),
{
    match cmd {
        IpcCommand::Stop(ids) => {
            store.set_status_of(&ids, TaskStatus::Stopped);
            IpcResponse::Ack
        },
        IpcCommand::Pause(ids) => {
            store.set_status_of(&ids, TaskStatus::Paused);
            IpcResponse::Ack
        },
        IpcCommand::Resume(ids) => {
            store.set_status_of(&ids, TaskStatus::Running);
            IpcResponse::Ack
        },
        IpcCommand::List => {
            let tasks = store.tasks();
            let mut list: Vec<(u32, String, String)> = Vec::new();
            let mut i: usize = 0;
            while i < tasks.len()
                invariant
                    i <= tasks@.len(),
                    entries_of(list@) == tasks@.take(i as int).map_values(|t: TaskInfo| entry_of(t)),
                decreases tasks@.len() - i,
            {
                let ghost prev = list@;
                let e = entry(&tasks[i]);
                list.push(e);
                assert(entries_of(list@) =~= entries_of(prev).push((e.0, e.1@, e.2@)));
                i = i + 1;
                assert(entries_of(list@) =~= tasks@.take(i as int).map_values(
                    |t: TaskInfo| entry_of(t),
                ));
            }
            assert(tasks@.take(tasks@.len() as int) =~= tasks@);
            IpcResponse::TaskList(list)
        },
        IpcCommand::Status(id) => {
            match store.get_task_info(id) {
                Some(t) => {
                    let mut list: Vec<(u32, String, String)> = Vec::new();
                    let e = entry(&t);
                    list.push(e);
                    assert(entries_of(list@) =~= seq![entry_of(t)]);
                    IpcResponse::TaskList(list)
                },
                None => {
                    proof {
                        reveal_strlit("Task ");
                        reveal_strlit(" not found");
                    }
                    let mut m = String::from_str("Task ");
                    let d = decimal_string(id as u64);
                    m.append(d.as_str());
                    m.append(" not found");
                    IpcResponse::Error(m)
                },
            }
        },
    }
}

} // verus!
