use raft_core::commitment::{CommitSignal, Commitment};
use raft_core::configuration::{
    Configuration, ConfigurationChangeCommand, ConfigurationChangeRequest, Server, ServerSuffrage,
};

fn server(id: &str, addr: &str, suffrage: ServerSuffrage) -> Server {
    Server { suffrage, id: id.to_string(), addr: addr.to_string() }
}

fn three_voters() -> Configuration {
    Configuration {
        servers: vec![
            server("A", "10.0.0.1:1", ServerSuffrage::Voter),
            server("B", "10.0.0.2:1", ServerSuffrage::Voter),
            server("C", "10.0.0.3:1", ServerSuffrage::Voter),
        ],
    }
}

fn report(c: &mut Commitment, id: &str, index: u64) {
    c.commitment_match(&id.to_string(), index);
}

#[test]
fn new_tracks_voters_only() {
    let cfg = Configuration {
        servers: vec![
            server("A", "a:1", ServerSuffrage::Voter),
            server("B", "b:1", ServerSuffrage::Nonvoter),
            server("C", "c:1", ServerSuffrage::Staging),
        ],
    };
    let c = Commitment::new(CommitSignal::new(), cfg, 4);
    assert_eq!(c.match_indexes.len(), 1);
    assert_eq!(c.match_indexes[0].id, "A");
    assert_eq!(c.match_indexes[0].match_index, 0);
    assert_eq!(c.get_commit_index(), 0);
    assert_eq!(c.start_index, 4);
}

#[test]
fn commit_is_lower_median() {
    let mut c = Commitment::new(CommitSignal::new(), three_voters(), 0);
    report(&mut c, "A", 5);
    report(&mut c, "B", 7);
    report(&mut c, "C", 9);
    assert_eq!(c.get_commit_index(), 7);
}

#[test]
fn commit_independent_of_report_order() {
    let mut c = Commitment::new(CommitSignal::new(), three_voters(), 0);
    report(&mut c, "C", 9);
    report(&mut c, "A", 5);
    report(&mut c, "B", 7);
    assert_eq!(c.get_commit_index(), 7);
    let mut d = Commitment::new(CommitSignal::new(), three_voters(), 0);
    report(&mut d, "B", 9);
    report(&mut d, "C", 5);
    report(&mut d, "A", 7);
    assert_eq!(d.get_commit_index(), 7);
}

#[test]
fn even_voter_count_takes_lower_median() {
    let cfg = Configuration {
        servers: vec![
            server("A", "a:1", ServerSuffrage::Voter),
            server("B", "b:1", ServerSuffrage::Voter),
            server("C", "c:1", ServerSuffrage::Voter),
            server("D", "d:1", ServerSuffrage::Voter),
        ],
    };
    let mut c = Commitment::new(CommitSignal::new(), cfg, 0);
    report(&mut c, "A", 10);
    report(&mut c, "B", 20);
    report(&mut c, "C", 30);
    report(&mut c, "D", 40);
    assert_eq!(c.get_commit_index(), 20);
}

#[test]
fn removed_server_report_ignored() {
    let cfg = three_voters();
    let mut c = Commitment::new(CommitSignal::new(), cfg.clone(), 0);
    report(&mut c, "A", 5);
    report(&mut c, "B", 7);
    report(&mut c, "C", 9);
    let change = ConfigurationChangeRequest {
        command: ConfigurationChangeCommand::RemoveServer,
        server_id: "B".to_string(),
        server_addr: String::new(),
        prev_index: None,
    };
    let next = cfg.next_configuration(1, change).unwrap();
    c.set_configuration(&next);
    assert_eq!(c.match_indexes.len(), 2);
    let before = c.get_commit_index();
    assert_eq!(before, 7);
    report(&mut c, "B", 100);
    assert_eq!(c.get_commit_index(), before);
    assert_eq!(c.match_indexes.len(), 2);
    assert!(c.match_indexes.iter().all(|p| p.id != "B"));
}

#[test]
fn stale_report_leaves_state_unchanged() {
    let mut c = Commitment::new(CommitSignal::new(), three_voters(), 0);
    report(&mut c, "A", 9);
    report(&mut c, "B", 9);
    let commit = c.get_commit_index();
    let a = c.match_indexes[0].match_index;
    report(&mut c, "A", 5);
    report(&mut c, "A", 9);
    assert_eq!(c.get_commit_index(), commit);
    assert_eq!(c.match_indexes[0].match_index, a);
    assert_eq!(a, 9);
}

#[test]
fn unknown_server_report_ignored() {
    let mut c = Commitment::new(CommitSignal::new(), three_voters(), 0);
    report(&mut c, "Z", 50);
    assert_eq!(c.get_commit_index(), 0);
    assert!(c.match_indexes.iter().all(|p| p.match_index == 0));
}

#[test]
fn commit_respects_start_index() {
    let mut c = Commitment::new(CommitSignal::new(), three_voters(), 10);
    report(&mut c, "A", 5);
    report(&mut c, "B", 7);
    report(&mut c, "C", 9);
    assert_eq!(c.get_commit_index(), 0);
    report(&mut c, "A", 12);
    report(&mut c, "B", 11);
    assert_eq!(c.get_commit_index(), 11);
}

#[test]
fn commit_never_decreases_on_reconfiguration() {
    let mut c = Commitment::new(CommitSignal::new(), three_voters(), 0);
    report(&mut c, "A", 5);
    report(&mut c, "B", 7);
    report(&mut c, "C", 9);
    assert_eq!(c.get_commit_index(), 7);
    let cfg = Configuration {
        servers: vec![
            server("A", "10.0.0.1:1", ServerSuffrage::Voter),
            server("D", "10.0.0.4:1", ServerSuffrage::Voter),
            server("E", "10.0.0.5:1", ServerSuffrage::Voter),
        ],
    };
    c.set_configuration(&cfg);
    assert_eq!(c.get_commit_index(), 7);
    assert_eq!(c.match_indexes[0].match_index, 5);
    assert_eq!(c.match_indexes[1].match_index, 0);
}

#[test]
fn notification_coalesces() {
    let mut c = Commitment::new(CommitSignal::new(), three_voters(), 0);
    assert!(!c.take_commit_notification());
    report(&mut c, "A", 5);
    report(&mut c, "B", 5);
    report(&mut c, "C", 8);
    report(&mut c, "A", 8);
    assert_eq!(c.get_commit_index(), 8);
    assert!(c.take_commit_notification());
    assert!(!c.take_commit_notification());
}

#[test]
fn signal_take_empties_slot() {
    let mut s = CommitSignal::new();
    assert!(!s.take());
    s.notify();
    s.notify();
    assert!(s.take());
    assert!(!s.take());
}
