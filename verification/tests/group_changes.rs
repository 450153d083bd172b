use marmot_app::client::events::{
    application_event_id, event_group_id, member_departure, synthetic_source_message_id,
    terminates_local_outbound_queue, GroupEvent, GroupStateChange, SelfMembership,
};
use marmot_app::ids::{GroupId, MemberId, MessageId};

const SELF: &str = "aa";
const PEER: &str = "bb";

fn member(id_hex: &str) -> MemberId {
    MemberId {
        bytes: hex::decode(id_hex).unwrap(),
    }
}

#[test]
fn a_disband_terminates_the_queue_for_every_member() {
    assert!(terminates_local_outbound_queue(
        &GroupStateChange::GroupDisbanded,
        SELF
    ));
}

#[test]
fn losing_the_local_copy_terminates_the_queue_however_it_was_lost() {
    for change in [
        GroupStateChange::MemberRemoved {
            member: member(SELF),
        },
        GroupStateChange::MemberLeft {
            member: member(SELF),
        },
    ] {
        assert!(
            terminates_local_outbound_queue(&change, SELF),
            "{change:?} discards the local queue"
        );
    }
}

#[test]
fn a_peer_departure_leaves_the_local_queue_alive() {
    for change in [
        GroupStateChange::MemberRemoved {
            member: member(PEER),
        },
        GroupStateChange::MemberLeft {
            member: member(PEER),
        },
        GroupStateChange::MemberAdded {
            member: member(SELF),
        },
        GroupStateChange::AdminAdded {
            member: member(SELF),
        },
    ] {
        assert!(
            !terminates_local_outbound_queue(&change, SELF),
            "{change:?} must not terminate the local queue"
        );
    }
}

#[test]
fn the_self_subject_test_ignores_hex_case() {
    assert!(terminates_local_outbound_queue(
        &GroupStateChange::MemberRemoved {
            member: member("ab"),
        },
        "AB"
    ));
}

#[test]
fn member_departure_distinguishes_self_leave_from_eviction() {
    let leaver = MemberId { bytes: vec![0xaa] };

    let left = GroupStateChange::MemberLeft {
        member: MemberId { bytes: vec![0xaa] },
    };
    let (subject, membership) = member_departure(&left).expect("MemberLeft is a departure");
    assert_eq!(subject, &leaver);
    assert_eq!(membership, SelfMembership::Left);

    let removed = GroupStateChange::MemberRemoved {
        member: MemberId { bytes: vec![0xaa] },
    };
    let (subject, membership) = member_departure(&removed).expect("MemberRemoved is a departure");
    assert_eq!(subject, &leaver);
    assert_eq!(membership, SelfMembership::Removed);
}

#[test]
fn member_departure_ignores_non_departures() {
    let added = GroupStateChange::MemberAdded {
        member: MemberId { bytes: vec![0xaa] },
    };
    let admin = GroupStateChange::AdminAdded {
        member: MemberId { bytes: vec![0xaa] },
    };
    assert!(member_departure(&added).is_none());
    assert!(member_departure(&admin).is_none());
}

#[test]
fn messages_and_joins_wait_for_an_acknowledgement() {
    let message = GroupEvent::MessageReceived {
        group_id: GroupId::new(vec![1]),
        message_id: MessageId::new(vec![0xab, 0xcd]),
        sender: member(PEER),
        epoch: 3,
        payload: vec![],
        retention: None,
    };
    let joined = GroupEvent::GroupJoined {
        group_id: GroupId::new(vec![2]),
        via_welcome: MessageId::new(vec![0x01]),
    };
    let changed = GroupEvent::EpochChanged {
        group_id: GroupId::new(vec![3]),
        from: 1,
        to: 2,
    };
    assert_eq!(
        application_event_id(&message),
        Some(&MessageId::new(vec![0xab, 0xcd]))
    );
    assert_eq!(
        application_event_id(&joined),
        Some(&MessageId::new(vec![0x01]))
    );
    assert!(application_event_id(&changed).is_none());
    assert_eq!(event_group_id(&changed), Some(&GroupId::new(vec![3])));
    assert_eq!(synthetic_source_message_id(&message), "abcd");
    assert_eq!(synthetic_source_message_id(&joined), "01");
    assert_eq!(synthetic_source_message_id(&changed), "");
}
