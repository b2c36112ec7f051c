use raft_core::configuration::{
    Configuration, ConfigurationChangeCommand, ConfigurationChangeRequest, Server, ServerSuffrage,
};
use raft_core::configuration_error::ConfigurationError;

fn server(id: &str, addr: &str, suffrage: ServerSuffrage) -> Server {
    Server { suffrage, id: id.to_string(), addr: addr.to_string() }
}

fn three_voters() -> Configuration {
    Configuration {
        servers: vec![
            server("A", "10.0.0.1:1", ServerSuffrage::Voter),
            server("B", "10.0.0.2:1", ServerSuffrage::Voter),
            server("C", "10.0.0.3:1", ServerSuffrage::Voter),
        ],
    }
}

fn request(
    command: ConfigurationChangeCommand,
    id: &str,
    addr: &str,
    prev_index: Option<u64>,
) -> ConfigurationChangeRequest {
    ConfigurationChangeRequest {
        command,
        server_id: id.to_string(),
        server_addr: addr.to_string(),
        prev_index,
    }
}

#[test]
fn validate_empty_configuration() {
    assert_eq!(
        Configuration::new().check_configuration(),
        Err(ConfigurationError::EmptyConfiguration)
    );
}

#[test]
fn validate_all_nonvoters() {
    let c = Configuration {
        servers: vec![
            server("A", "a:1", ServerSuffrage::Nonvoter),
            server("B", "b:1", ServerSuffrage::Nonvoter),
        ],
    };
    assert_eq!(c.check_configuration(), Err(ConfigurationError::NeedAtLeastOneVoterInConfiguration));
}

#[test]
fn validate_staging_only() {
    let c = Configuration { servers: vec![server("A", "a:1", ServerSuffrage::Staging)] };
    assert_eq!(c.check_configuration(), Err(ConfigurationError::NeedAtLeastOneVoterInConfiguration));
}

#[test]
fn validate_accepts_valid() {
    assert_eq!(three_voters().check_configuration(), Ok(()));
}

#[test]
fn validate_empty_id() {
    let c = Configuration {
        servers: vec![
            server("A", "a:1", ServerSuffrage::Voter),
            server("", "b:1", ServerSuffrage::Voter),
        ],
    };
    assert_eq!(c.check_configuration(), Err(ConfigurationError::EmptyIdInConfiguration));
}

#[test]
fn validate_empty_address() {
    let c = Configuration {
        servers: vec![
            server("A", "a:1", ServerSuffrage::Voter),
            server("B", "", ServerSuffrage::Voter),
        ],
    };
    assert_eq!(c.check_configuration(), Err(ConfigurationError::EmptyAddressInConfiguration));
}

#[test]
fn validate_duplicate_id() {
    let c = Configuration {
        servers: vec![
            server("A", "a:1", ServerSuffrage::Voter),
            server("A", "b:1", ServerSuffrage::Voter),
        ],
    };
    assert_eq!(c.check_configuration(), Err(ConfigurationError::FoundDuplicateIdInConfiguration));
}

#[test]
fn validate_duplicate_address() {
    let c = Configuration {
        servers: vec![
            server("A", "a:1", ServerSuffrage::Voter),
            server("B", "a:1", ServerSuffrage::Voter),
        ],
    };
    assert_eq!(
        c.check_configuration(),
        Err(ConfigurationError::FoundDuplicateAddressInConfiguration)
    );
}

#[test]
fn validate_first_fault_in_order_wins() {
    let c = Configuration {
        servers: vec![
            server("A", "a:1", ServerSuffrage::Voter),
            server("B", "a:1", ServerSuffrage::Voter),
            server("", "c:1", ServerSuffrage::Voter),
        ],
    };
    assert_eq!(
        c.check_configuration(),
        Err(ConfigurationError::FoundDuplicateAddressInConfiguration)
    );
}

#[test]
fn has_vote_needs_voter_suffrage() {
    let c = Configuration {
        servers: vec![
            server("A", "a:1", ServerSuffrage::Voter),
            server("B", "b:1", ServerSuffrage::Nonvoter),
            server("C", "c:1", ServerSuffrage::Staging),
        ],
    };
    assert!(c.has_vote("A".to_string()));
    assert!(!c.has_vote("B".to_string()));
    assert!(!c.has_vote("C".to_string()));
    assert!(!c.has_vote("D".to_string()));
}

#[test]
fn stale_change_is_rejected() {
    let c = three_voters();
    let r = c.next_configuration(
        5,
        request(ConfigurationChangeCommand::AddNonvoter, "D", "10.0.0.4:1", Some(3)),
    );
    assert_eq!(r, Err(ConfigurationError::ConfigurationChanged));
}

#[test]
fn matching_or_zero_prev_index_is_accepted() {
    let c = three_voters();
    let a = c.next_configuration(
        5,
        request(ConfigurationChangeCommand::AddNonvoter, "D", "10.0.0.4:1", Some(5)),
    );
    assert!(a.is_ok());
    let b = c.next_configuration(
        5,
        request(ConfigurationChangeCommand::AddNonvoter, "D", "10.0.0.4:1", Some(0)),
    );
    assert!(b.is_ok());
}

#[test]
fn add_staging_fresh_server_appends_voter() {
    let c = three_voters();
    let next = c
        .next_configuration(1, request(ConfigurationChangeCommand::AddStaging, "D", "d:1", None))
        .unwrap();
    assert_eq!(next.servers.len(), 4);
    assert_eq!(next.servers[..3], c.servers[..]);
    assert_eq!(next.servers[3], server("D", "d:1", ServerSuffrage::Voter));
    assert_eq!(next.check_configuration(), Ok(()));
    assert_eq!(c, three_voters());
}

#[test]
fn add_nonvoter_existing_updates_in_place() {
    let c = three_voters();
    let next = c
        .next_configuration(1, request(ConfigurationChangeCommand::AddNonvoter, "B", "b:9", None))
        .unwrap();
    assert_eq!(next.servers.len(), 3);
    assert_eq!(next.servers[1], server("B", "b:9", ServerSuffrage::Nonvoter));
    assert_eq!(next.servers[0], c.servers[0]);
    assert_eq!(next.servers[2], c.servers[2]);
}

#[test]
fn demote_voter_and_absent_is_noop() {
    let c = three_voters();
    let next = c
        .next_configuration(1, request(ConfigurationChangeCommand::DemoteVoter, "C", "", None))
        .unwrap();
    assert_eq!(next.servers[2].suffrage, ServerSuffrage::Nonvoter);
    let same = c
        .next_configuration(1, request(ConfigurationChangeCommand::DemoteVoter, "Z", "", None))
        .unwrap();
    assert_eq!(same, c);
}

#[test]
fn promote_nonvoter_is_noop() {
    let c = Configuration {
        servers: vec![
            server("A", "a:1", ServerSuffrage::Voter),
            server("B", "b:1", ServerSuffrage::Nonvoter),
        ],
    };
    let next = c
        .next_configuration(1, request(ConfigurationChangeCommand::Promote, "B", "b:1", None))
        .unwrap();
    assert_eq!(next, c);
}

#[test]
fn promote_staging_becomes_voter() {
    let c = Configuration {
        servers: vec![
            server("A", "a:1", ServerSuffrage::Voter),
            server("B", "b:1", ServerSuffrage::Staging),
        ],
    };
    let next = c
        .next_configuration(1, request(ConfigurationChangeCommand::Promote, "B", "", None))
        .unwrap();
    assert_eq!(next.servers[1], server("B", "b:1", ServerSuffrage::Voter));
}

#[test]
fn remove_server_keeps_order() {
    let c = three_voters();
    let next = c
        .next_configuration(1, request(ConfigurationChangeCommand::RemoveServer, "B", "", None))
        .unwrap();
    assert_eq!(next.servers.len(), 2);
    assert_eq!(next.servers[0].id, "A");
    assert_eq!(next.servers[1].id, "C");
}

#[test]
fn removing_last_voter_fails() {
    let c = Configuration {
        servers: vec![
            server("A", "a:1", ServerSuffrage::Voter),
            server("B", "b:1", ServerSuffrage::Nonvoter),
        ],
    };
    let r = c.next_configuration(1, request(ConfigurationChangeCommand::RemoveServer, "A", "", None));
    assert_eq!(r, Err(ConfigurationError::NextConfigurationFailed));
}

#[test]
fn command_names() {
    assert_eq!(ConfigurationChangeCommand::AddStaging.configuration_change_command(), "AddStaging");
    assert_eq!(ConfigurationChangeCommand::AddNonvoter.configuration_change_command(), "AddNonvoter");
    assert_eq!(ConfigurationChangeCommand::DemoteVoter.configuration_change_command(), "DemoteVoter");
    assert_eq!(
        ConfigurationChangeCommand::RemoveServer.configuration_change_command(),
        "RemoveServer"
    );
    assert_eq!(ConfigurationChangeCommand::Promote.configuration_change_command(), "Promote");
}
