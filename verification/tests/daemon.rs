use gartop::daemon::{action_for, latest_or_no_data, Action, Series, DEFAULT_SIGNAL};
use gartop::history::History;
use gartop::protocol::{Command, SortField};

#[test]
fn command_defaults() {
    assert!(matches!(
        action_for(Command::GetProcesses { sort_by: None, limit: Some(5) }),
        Action::Processes { sort_by: SortField::Cpu, limit: Some(5) }
    ));
    assert!(matches!(
        action_for(Command::GetProcesses { sort_by: Some(SortField::Name), limit: None }),
        Action::Processes { sort_by: SortField::Name, limit: None }
    ));
    assert_eq!(DEFAULT_SIGNAL, 15);
    assert!(matches!(action_for(Command::KillProcess { pid: 9, signal: None }), Action::Kill { pid: 9, signal: 15 }));
    assert!(matches!(action_for(Command::KillProcess { pid: 9, signal: Some(9) }), Action::Kill { pid: 9, signal: 9 }));
}

#[test]
fn command_series() {
    assert!(matches!(action_for(Command::Status), Action::Status));
    assert!(matches!(action_for(Command::GetCpu), Action::Latest(Series::Cpu)));
    assert!(matches!(action_for(Command::GetMemory), Action::Latest(Series::Memory)));
    assert!(matches!(action_for(Command::GetNetwork), Action::Latest(Series::Network)));
    assert!(matches!(action_for(Command::GetDisk), Action::Latest(Series::Disk)));
    assert!(matches!(
        action_for(Command::GetCpuHistory { count: Some(3) }),
        Action::History { series: Series::Cpu, count: Some(3) }
    ));
    assert!(matches!(
        action_for(Command::GetDiskHistory { count: None }),
        Action::History { series: Series::Disk, count: None }
    ));
    match action_for(Command::Subscribe { events: vec!["cpu".to_string()] }) {
        Action::Subscribe(e) => assert_eq!(e, vec!["cpu".to_string()]),
        _ => panic!("subscribe"),
    }
    assert!(matches!(action_for(Command::Reload), Action::Reload));
    assert!(matches!(action_for(Command::Quit), Action::Quit));
}

#[test]
fn latest_sample_or_no_data() {
    let mut h: History<u32> = History::new(3);
    assert_eq!(latest_or_no_data(&h), Err("No data yet".to_string()));
    h.push(4);
    h.push(5);
    assert_eq!(latest_or_no_data(&h), Ok(&5));
}

#[test]
fn history_windows() {
    let mut h: History<u32> = History::new(4);
    for v in 1..=6 {
        h.push(v);
    }
    assert_eq!(h.window(None), vec![3, 4, 5, 6]);
    assert_eq!(h.window(Some(2)), vec![5, 6]);
    assert_eq!(h.window(Some(10)), vec![3, 4, 5, 6]);
    assert_eq!(h.window(Some(0)), Vec::<u32>::new());
}
