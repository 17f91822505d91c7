//! What the daemon does for each IPC command: the command's defaults
//! resolved, and the answer to a request for the latest sample.

use crate::history::History;
use crate::protocol::{Command, SortField, StatusInfo};
use crate::subscriptions::{event_names, Subscriptions};
use vstd::prelude::*;

verus! {

/// The signal sent by a kill request that names none (SIGTERM).
pub const DEFAULT_SIGNAL: i32 = 15;

/// The statistics series a command asks about.
#[derive(Debug, Clone, Copy, PartialEq, Eq, Structural)]
pub enum Series {
    Cpu,
    Memory,
    Network,
    Disk,
}

/// What the daemon does for a command.
#[derive(Debug, Clone)]
pub enum Action {
    /// Report its status.
    Status,
    /// Send the latest sample of a series.
    Latest(Series),
    /// Send the last `count` samples of a series, or all of them.
    History { series: Series, count: Option<usize> },
    /// Collect the processes, sorted and limited.
    Processes { sort_by: SortField, limit: Option<usize> },
    /// Send `signal` to process `pid`.
    Kill { pid: i32, signal: i32 },
    /// Subscribe the client to event types.
    Subscribe(Vec<String>),
    /// Unsubscribe the client from event types.
    Unsubscribe(Vec<String>),
    /// Reload the configuration.
    Reload,
    /// Shut the daemon down.
    Quit,
}

/// The action for a command: a process list is sorted by CPU unless the
/// command names a field, and a kill sends SIGTERM unless it names a signal.
pub open spec fn action_of(cmd: Command) -> Action {
    match cmd {
        Command::Status => Action::Status,
        Command::GetCpu => Action::Latest(Series::Cpu),
        Command::GetMemory => Action::Latest(Series::Memory),
        Command::GetNetwork => Action::Latest(Series::Network),
        Command::GetDisk => Action::Latest(Series::Disk),
        Command::GetCpuHistory { count } => Action::History { series: Series::Cpu, count },
        Command::GetMemoryHistory { count } => Action::History { series: Series::Memory, count },
        Command::GetNetworkHistory { count } => Action::History { series: Series::Network, count },
        Command::GetDiskHistory { count } => Action::History { series: Series::Disk, count },
        Command::GetProcesses { sort_by, limit } => Action::Processes {
            sort_by: match sort_by {
                Some(s) => s,
                None => SortField::Cpu,
            },
            limit,
        },
        Command::KillProcess { pid, signal } => Action::Kill {
            pid,
            signal: match signal {
                Some(s) => s,
                None => DEFAULT_SIGNAL,
            },
        },
        Command::Subscribe { events } => Action::Subscribe(events),
        Command::Unsubscribe { events } => Action::Unsubscribe(events),
        Command::Reload => Action::Reload,
        Command::Quit => Action::Quit,
    }
}

/// The action for a command.
pub fn action_for(cmd: Command) -> (r: Action)
    ensures
        r == action_of(cmd),
{
    match cmd {
        Command::Status => Action::Status,
        Command::GetCpu => Action::Latest(Series::Cpu),
        Command::GetMemory => Action::Latest(Series::Memory),
        Command::GetNetwork => Action::Latest(Series::Network),
        Command::GetDisk => Action::Latest(Series::Disk),
        Command::GetCpuHistory { count } => Action::History { series: Series::Cpu, count },
        Command::GetMemoryHistory { count } => Action::History { series: Series::Memory, count },
        Command::GetNetworkHistory { count } => Action::History { series: Series::Network, count },
        Command::GetDiskHistory { count } => Action::History { series: Series::Disk, count },
        Command::GetProcesses { sort_by, limit } => {
            let sort_by = match sort_by {
                Some(s) => s,
                None => SortField::Cpu,
            };
            Action::Processes { sort_by, limit }
        },
        Command::KillProcess { pid, signal } => {
            let signal = match signal {
                Some(s) => s,
                None => DEFAULT_SIGNAL,
            };
            Action::Kill { pid, signal }
        },
        Command::Subscribe { events } => Action::Subscribe(events),
        Command::Unsubscribe { events } => Action::Unsubscribe(events),
        Command::Reload => Action::Reload,
        Command::Quit => Action::Quit,
    }
}

/// The error answered for a series that has no sample yet.
pub open spec fn no_data_message() -> Seq<char> {
    seq!['N', 'o', ' ', 'd', 'a', 't', 'a', ' ', 'y', 'e', 't']
}

/// The answer to a request for the latest sample of a series: the sample,
/// or the "No data yet" error while the history is empty.
pub fn latest_or_no_data<T: Clone>(h: &History<T>) -> (r: Result<&T, String>)
    ensures
        h@.len() > 0 ==> r == Ok::<&T, String>(&h@.last()),
        h@.len() == 0 ==> (r matches Err(m) && m@ == no_data_message()),
{
    match h.latest() {
        Some(v) => Ok(v),
        None => {
            let m = "No data yet".to_owned();
            proof {
                reveal_strlit("No data yet");
            }
            Err(m)
        },
    }
}

/// The daemon's answer to a status request: its version, uptime and sample
/// interval, and the size of its history buffer (the number of samples the
/// history keeps).
pub fn status_info<T: Clone>(version: String, uptime_secs: u64, sample_interval_ms: u64, history: &History<T>) -> (r: StatusInfo)
    ensures
        r.version == version,
        r.uptime_secs == uptime_secs,
        r.sample_interval_ms == sample_interval_ms,
        r.history_size == history.cap(),
{
    StatusInfo { version, uptime_secs, sample_interval_ms, history_size: history.capacity() }
}

/// The subscriptions a connection has once `cmd` was carried out: a
/// subscribe adds its event types, an unsubscribe removes its event types,
/// any other command leaves them.
pub open spec fn subscriptions_after(names: Set<Seq<char>>, cmd: Command) -> Set<Seq<char>> {
    match cmd {
        Command::Subscribe { events } => names.union(event_names(events@)),
        Command::Unsubscribe { events } => names.difference(event_names(events@)),
        _ => names,
    }
}

/// What a connection does once the reply to `cmd` is written: the client's
/// subscriptions take in what the command subscribes or unsubscribes, and
/// the connection stays open exactly while subscriptions remain.
pub fn after_reply(subs: &mut Subscriptions, cmd: &Command) -> (keep_open: bool)
    ensures
        final(subs)@ == subscriptions_after(old(subs)@, *cmd),
        keep_open == (final(subs)@ != Set::<Seq<char>>::empty()),
{
    match cmd {
        Command::Subscribe { events } => subs.subscribe(events.as_slice()),
        Command::Unsubscribe { events } => subs.unsubscribe(events.as_slice()),
        _ => {},
    }
    subs.has_subscriptions()
}

/// How many replies a connection writes when its client, starting with the
/// subscriptions `names`, sends the commands `cmds` and then closes: each
/// command read is answered, and after the reply the connection closes when
/// no subscriptions remain.
pub open spec fn replies_on_connection(names: Set<Seq<char>>, cmds: Seq<Command>) -> nat
    decreases cmds.len(),
{
    if cmds.len() == 0 {
        0
    } else {
        let after = subscriptions_after(names, cmds[0]);
        if after == Set::<Seq<char>>::empty() {
            1
        } else {
            1 + replies_on_connection(after, cmds.drop_first())
        }
    }
}

/// A new connection whose first command does not subscribe to any event
/// type gets exactly one reply and is closed.
pub proof fn law_one_reply_without_subscriptions(cmds: Seq<Command>)
    requires
        cmds.len() > 0,
        !(cmds[0] matches Command::Subscribe { events } && events@.len() > 0),
    ensures
        replies_on_connection(Set::<Seq<char>>::empty(), cmds) == 1,
{
    let after = subscriptions_after(Set::<Seq<char>>::empty(), cmds[0]);
    match cmds[0] {
        Command::Subscribe { events } => {
            assert(events@.len() == 0);
            assert(event_names(events@) =~= Set::<Seq<char>>::empty());
        },
        _ => {},
    }
    assert(after =~= Set::<Seq<char>>::empty());
}

/// While a connection has subscriptions and its client sends no unsubscribe,
/// every command gets its own reply until the client closes.
pub proof fn law_replies_while_subscribed(names: Set<Seq<char>>, cmds: Seq<Command>)
    requires
        names != Set::<Seq<char>>::empty(),
        forall|i: int| 0 <= i < cmds.len() ==> !(#[trigger] cmds[i] is Unsubscribe),
    ensures
        replies_on_connection(names, cmds) == cmds.len(),
    decreases cmds.len(),
{
    if cmds.len() > 0 {
        let after = subscriptions_after(names, cmds[0]);
        let w = choose|w: Seq<char>| names.contains(w);
        assert(names.contains(w)) by {
            if !names.contains(w) {
                assert(names =~= Set::<Seq<char>>::empty());
            }
        }
        assert(after.contains(w));
        assert(after != Set::<Seq<char>>::empty()) by {
            if after == Set::<Seq<char>>::empty() {
                assert(!Set::<Seq<char>>::empty().contains(w));
            }
        }
        let rest = cmds.drop_first();
        assert forall|i: int| 0 <= i < rest.len() implies !(#[trigger] rest[i] is Unsubscribe) by {
            assert(rest[i] == cmds[i + 1]);
        }
        law_replies_while_subscribed(after, rest);
    }
}

} // verus!
