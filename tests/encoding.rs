use raft_core::configuration::{Configuration, Server, ServerSuffrage};

fn server(id: &str, addr: &str, suffrage: ServerSuffrage) -> Server {
    Server { suffrage, id: id.to_string(), addr: addr.to_string() }
}

fn sample() -> Configuration {
    Configuration {
        servers: vec![
            server("A", "10.0.0.1:1", ServerSuffrage::Voter),
            server("nœud-β", "10.0.0.2:1", ServerSuffrage::Nonvoter),
            server("C", "10.0.0.3:1", ServerSuffrage::Staging),
        ],
    }
}

#[test]
fn encoding_round_trips() {
    let c = sample();
    let bytes = c.encode_configuration();
    let back = Configuration::decode_configuration(&bytes).unwrap();
    assert_eq!(back, c);
    assert_eq!(back.servers[1].id, "nœud-β");
    assert_eq!(back.servers[2].suffrage, ServerSuffrage::Staging);
}

#[test]
fn encoding_exact_bytes() {
    let c = Configuration { servers: vec![server("A", "b:1", ServerSuffrage::Nonvoter)] };
    let bytes = c.encode_configuration();
    let expected: Vec<u8> = vec![
        1, 1, 0, 0, 0, 0, 0, 0, 0, b'A', 3, 0, 0, 0, 0, 0, 0, 0, b'b', b':', b'1',
    ];
    assert_eq!(bytes, expected);
}

#[test]
fn empty_configuration_encodes_to_nothing() {
    let bytes = Configuration::new().encode_configuration();
    assert!(bytes.is_empty());
    let back = Configuration::decode_configuration(&bytes).unwrap();
    assert!(back.servers.is_empty());
}

#[test]
fn decode_rejects_unknown_tag() {
    let mut bytes = sample().encode_configuration();
    bytes[0] = 7;
    assert!(Configuration::decode_configuration(&bytes).is_none());
}

#[test]
fn decode_rejects_truncated_input() {
    let bytes = sample().encode_configuration();
    assert!(Configuration::decode_configuration(&bytes[..bytes.len() - 1]).is_none());
    assert!(Configuration::decode_configuration(&bytes[..5]).is_none());
}

#[test]
fn decode_rejects_invalid_utf8() {
    let bytes: Vec<u8> = vec![0, 1, 0, 0, 0, 0, 0, 0, 0, 0xff, 1, 0, 0, 0, 0, 0, 0, 0, b'a'];
    assert!(Configuration::decode_configuration(&bytes).is_none());
}
