use snmp::client::{
    check_bulk_answer, check_response, encode_v2c_message, next_step, request_binds, ClientError, ExchangeEvent,
    NextStep,
};
use snmp::obj_ident::ObjectIdentifier;
use snmp::params::new_params_v2c;
use snmp::pdu::{PDUError, PDUType, PDU};
use snmp::snmp::{new_client, SNMPClient, SNMPClientV2};
use snmp::var_bind::{BindValue, ObjectValue, VarBind};
use snmp::walk::{oid_less, in_subtree, Walk, WalkStep};
use snmp::usm::{check_timeliness, EngineState, SecurityError};

fn oid(s: &str) -> ObjectIdentifier {
    ObjectIdentifier::from_str(s).unwrap()
}

fn response(id: i32, status: i32, index: u32, binds: Vec<VarBind>) -> Vec<u8> {
    let pdu = PDU::from_parts(id, status, index, binds);
    let p = pdu.encode(PDUType::Response).unwrap();
    encode_v2c_message(b"public", &p).unwrap()
}

#[test]
fn get_reports_no_such_name_at_first_binding() {
    let params = new_params_v2c("host", "user", "public");
    let client = SNMPClientV2::new(&params);
    let oids = vec![oid("1.3.6.1.2.1.1.99.0")];
    let request = client.get_request(42, &oids).unwrap();
    assert_eq!(request[0], 0x30);
    let answer = response(42, 2, 1, request_binds(&oids));
    assert_eq!(
        client.handle_response(42, &answer),
        Err(ClientError::ProtocolError {
            status: PDUError::NoSuchName,
            index: 1
        })
    );
}

#[test]
fn get_returns_the_answer_bindings() {
    let params = new_params_v2c("host", "user", "public");
    let client = SNMPClientV2::new(&params);
    let binds = vec![VarBind::new(
        oid("1.3.6.1.2.1.1.5.0"),
        BindValue::Value(ObjectValue::OctetString(b"box".to_vec())),
    )];
    let answer = response(7, 0, 0, binds);
    let got = client.handle_response(7, &answer).unwrap();
    assert_eq!(
        got,
        vec![VarBind::new(
            oid("1.3.6.1.2.1.1.5.0"),
            BindValue::Value(ObjectValue::OctetString(b"box".to_vec())),
        )]
    );
}

#[test]
fn v2c_request_message_layout() {
    let params = new_params_v2c("host", "user", "public");
    let client = SNMPClientV2::new(&params);
    let msg = client.get_request(1, &vec![]).unwrap();
    assert_eq!(
        msg,
        vec![
            0x30, 0x18, 0x02, 0x01, 0x01, 0x04, 0x06, b'p', b'u', b'b', b'l', b'i', b'c', 0xA0,
            0x0B, 0x02, 0x01, 0x01, 0x02, 0x01, 0x00, 0x02, 0x01, 0x00, 0x30, 0x00
        ]
    );
}

#[test]
fn response_checks() {
    let binds = || vec![VarBind::new(oid("1.3.6.1"), BindValue::Unspecified)];
    assert_eq!(
        check_response(1, PDUType::Report, PDU::from_parts(1, 0, 0, binds())),
        Err(ClientError::NotAResponse)
    );
    assert_eq!(
        check_response(1, PDUType::Response, PDU::from_parts(2, 0, 0, binds())),
        Err(ClientError::RequestIdMismatch {
            expected: 1,
            received: 2
        })
    );
    assert_eq!(
        check_response(1, PDUType::Response, PDU::from_parts(1, 19, 1, binds())),
        Err(ClientError::UnknownErrorStatus(19))
    );
    assert_eq!(
        check_response(1, PDUType::Response, PDU::from_parts(1, 5, 2, binds())),
        Err(ClientError::BadErrorIndex(2))
    );
    assert_eq!(
        check_response(1, PDUType::Response, PDU::from_parts(1, 1, 0, binds())),
        Err(ClientError::ProtocolError {
            status: PDUError::TooBig,
            index: 0
        })
    );
    assert_eq!(
        check_response(1, PDUType::Response, PDU::from_parts(1, 0, 0, binds())),
        Ok(binds())
    );
}

#[test]
fn wrong_community_version_or_garbage_is_refused() {
    let params = new_params_v2c("host", "user", "public");
    let client = SNMPClientV2::new(&params);
    assert!(client.handle_response(1, &[0x30, 0x00]).is_err());
    assert!(client.handle_response(1, &[]).is_err());
}

#[test]
fn new_client_follows_version() {
    let params = new_params_v2c("host", "user", "public");
    assert!(matches!(new_client(&params), SNMPClient::V2(_)));
}

/// An agent that answers get-next from a sorted table.
fn agent_next(table: &[(ObjectIdentifier, i32)], after: &ObjectIdentifier) -> VarBind {
    for (name, v) in table {
        if oid_less(after, name) {
            return VarBind::new(name.clone(), BindValue::Value(ObjectValue::Integer(*v)));
        }
    }
    VarBind::new(after.clone(), BindValue::EndOfMibView)
}

#[test]
fn walk_collects_subtree_in_order_once() {
    let table = vec![
        (oid("1.3.6.1.2.1.1.1.0"), 1),
        (oid("1.3.6.1.2.1.1.2.0"), 2),
        (oid("1.3.6.1.2.1.1.3.0"), 3),
        (oid("1.3.6.1.2.1.2.1.0"), 4),
    ];
    let mut walk = Walk::new(oid("1.3.6.1.2.1.1"));
    let mut steps = 0;
    loop {
        let reply = agent_next(&table, walk.cursor());
        steps += 1;
        if walk.on_reply(reply) != WalkStep::Continue {
            break;
        }
    }
    assert_eq!(steps, 4);
    assert!(walk.is_finished());
    let names: Vec<Vec<u32>> = walk.results().iter().map(|b| b.name().get_value()).collect();
    assert_eq!(
        names,
        vec![
            vec![1, 3, 6, 1, 2, 1, 1, 1, 0],
            vec![1, 3, 6, 1, 2, 1, 1, 2, 0],
            vec![1, 3, 6, 1, 2, 1, 1, 3, 0]
        ]
    );
}

#[test]
fn walk_ends_at_end_of_mib_view() {
    let table = vec![(oid("1.3.6.1.2.1.1.1.0"), 1), (oid("1.3.6.1.2.1.1.2.0"), 2)];
    let mut walk = Walk::new(oid("1.3.6.1"));
    let mut last = WalkStep::Continue;
    let mut steps = 0;
    while last == WalkStep::Continue {
        last = walk.on_reply(agent_next(&table, walk.cursor()));
        steps += 1;
    }
    assert_eq!(last, WalkStep::Done);
    assert_eq!(steps, 3);
    assert_eq!(walk.results().len(), 2);
}

#[test]
fn walk_fails_on_non_increasing_answer() {
    let mut walk = Walk::new(oid("1.3.6.1"));
    let first = VarBind::new(oid("1.3.6.1.5"), BindValue::Unspecified);
    assert_eq!(walk.on_reply(first), WalkStep::Continue);
    let again = VarBind::new(oid("1.3.6.1.5"), BindValue::Unspecified);
    assert_eq!(walk.on_reply(again), WalkStep::NonIncreasing);
    assert!(walk.is_finished());
    assert_eq!(walk.results().len(), 1);

    let mut walk = Walk::new(oid("1.3.6.1"));
    let back = VarBind::new(oid("1.3.6"), BindValue::Unspecified);
    assert_eq!(walk.on_reply(back), WalkStep::NonIncreasing);
}

#[test]
fn oid_order_and_subtree() {
    assert!(oid_less(&oid("1.3.6"), &oid("1.3.6.1")));
    assert!(oid_less(&oid("1.3.6.1"), &oid("1.3.7")));
    assert!(!oid_less(&oid("1.3.7"), &oid("1.3.6.1")));
    assert!(!oid_less(&oid("1.3.6"), &oid("1.3.6")));
    assert!(in_subtree(&oid("1.3.6"), &oid("1.3.6.1")));
    assert!(!in_subtree(&oid("1.3.6"), &oid("1.3.6")));
    assert!(!in_subtree(&oid("1.3.6"), &oid("1.3.7.1")));
}

#[test]
fn replay_window() {
    assert_eq!(check_timeliness(3, 1000, 3, 1150), Ok(()));
    assert_eq!(check_timeliness(3, 1000, 3, 850), Ok(()));
    assert_eq!(
        check_timeliness(3, 1000, 3, 1151),
        Err(SecurityError::NotInTimeWindow)
    );
    assert_eq!(
        check_timeliness(3, 1000, 3, 849),
        Err(SecurityError::NotInTimeWindow)
    );
    assert_eq!(
        check_timeliness(3, 1000, 2, 1000),
        Err(SecurityError::BootsRegressed)
    );
}

#[test]
fn engine_state_refresh() {
    let mut e = EngineState::new(vec![0x80, 0, 0x1F], 5, 100);
    assert_eq!(e.refresh(50, 5, 160), Ok(()));
    assert_eq!((e.boots(), e.time()), (5, 160));
    assert_eq!(e.refresh(0, 4, 160), Err(SecurityError::BootsRegressed));
    assert_eq!((e.boots(), e.time()), (5, 160));
    assert_eq!(e.refresh(10, 5, 400), Err(SecurityError::NotInTimeWindow));
    assert_eq!(e.engine_id(), &vec![0x80, 0, 0x1F]);
}

#[test]
fn retry_policy() {
    assert_eq!(next_step(1, 2, false, ExchangeEvent::TransportFailed), NextStep::Resend);
    assert_eq!(next_step(2, 2, false, ExchangeEvent::TransportFailed), NextStep::Resend);
    assert_eq!(next_step(3, 2, false, ExchangeEvent::TransportFailed), NextStep::Finish);
    assert_eq!(next_step(1, 0, false, ExchangeEvent::TransportFailed), NextStep::Finish);
    assert_eq!(next_step(1, 2, false, ExchangeEvent::UnknownEngine), NextStep::Rediscover);
    assert_eq!(next_step(2, 2, true, ExchangeEvent::UnknownEngine), NextStep::Finish);
    assert_eq!(next_step(1, 2, false, ExchangeEvent::Answered), NextStep::Finish);
}

#[test]
fn bulk_answers_are_bounded() {
    let b = |k: usize| -> Vec<VarBind> {
        (0..k)
            .map(|i| VarBind::new(oid(&format!("1.3.6.{}", i + 1)), BindValue::Unspecified))
            .collect()
    };
    // 3 names, 1 non-repeater, 2 repetitions: at most 1 + 2 * 2 = 5.
    assert_eq!(check_bulk_answer(3, 1, 2, b(5)).unwrap().len(), 5);
    assert_eq!(check_bulk_answer(3, 1, 2, b(6)), Err(ClientError::TooManyBindings(6)));
    // Negative parameters count as zero; non-repeaters at most the names.
    assert_eq!(check_bulk_answer(3, -1, -4, b(1)), Err(ClientError::TooManyBindings(1)));
    assert_eq!(check_bulk_answer(2, 9, 5, b(2)).unwrap().len(), 2);
    assert_eq!(check_bulk_answer(2, 9, 5, b(3)), Err(ClientError::TooManyBindings(3)));
}

#[test]
fn bulk_response_is_read_and_bounded() {
    let params = new_params_v2c("host", "user", "public");
    let client = SNMPClientV2::new(&params);
    let binds = vec![
        VarBind::new(oid("1.3.6.1.2.1.1.1.0"), BindValue::Unspecified),
        VarBind::new(oid("1.3.6.1.2.1.1.2.0"), BindValue::Unspecified),
    ];
    let answer = response(9, 0, 0, binds);
    assert_eq!(client.handle_bulk_response(9, 1, 0, 2, &answer).unwrap().len(), 2);
    assert_eq!(
        client.handle_bulk_response(9, 1, 0, 1, &answer),
        Err(ClientError::TooManyBindings(2))
    );
    assert!(client.get_bulk_request(9, 0, 2, &vec![oid("1.3.6.1")]).unwrap()[0] == 0x30);
}

#[test]
fn walk_over_messages_counts_round_trips() {
    let params = new_params_v2c("host", "user", "public");
    let client = SNMPClientV2::new(&params);
    let table = vec![
        (oid("1.3.6.1.2.1.1.1.0"), 1),
        (oid("1.3.6.1.2.1.1.2.0"), 2),
        (oid("1.3.6.1.2.1.2.1.0"), 3),
    ];
    let mut walk = Walk::new(oid("1.3.6.1.2.1.1"));
    let mut trips = 0;
    let mut id = 100;
    while let Ok(request) = client.walk_request(id, &walk) {
        assert_eq!(request[0], 0x30);
        trips += 1;
        let answer = response(id, 0, 0, vec![agent_next(&table, walk.cursor())]);
        let step = client.handle_walk_response(&mut walk, id, &answer).unwrap();
        if step != WalkStep::Continue {
            assert_eq!(step, WalkStep::Done);
        }
        id += 1;
    }
    assert_eq!(trips, 3);
    assert_eq!(walk.results().len(), 2);
    assert_eq!(client.walk_request(id, &walk), Err(ClientError::WalkFinished));
}

#[test]
fn walk_over_messages_stops_at_first_non_increasing_answer() {
    let params = new_params_v2c("host", "user", "public");
    let client = SNMPClientV2::new(&params);
    let mut walk = Walk::new(oid("1.3.6.1"));
    let mut trips = 0;
    let answers = vec![oid("1.3.6.1.4"), oid("1.3.6.1.5"), oid("1.3.6.1.5"), oid("1.3.6.1.9")];
    let mut last = WalkStep::Continue;
    while let Ok(_) = client.walk_request(7, &walk) {
        let bind = VarBind::new(answers[trips].clone(), BindValue::Unspecified);
        trips += 1;
        last = client
            .handle_walk_response(&mut walk, 7, &response(7, 0, 0, vec![bind]))
            .unwrap();
    }
    assert_eq!(last, WalkStep::NonIncreasing);
    assert_eq!(trips, 3);
    assert_eq!(walk.results().len(), 2);
    let two = vec![
        VarBind::new(oid("1.3.6.1.7"), BindValue::Unspecified),
        VarBind::new(oid("1.3.6.1.8"), BindValue::Unspecified),
    ];
    let mut fresh = Walk::new(oid("1.3.6.1"));
    assert_eq!(
        client.handle_walk_response(&mut fresh, 7, &response(7, 0, 0, two)),
        Err(ClientError::NotOneBinding(2))
    );
}
