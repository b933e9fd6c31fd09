use api_public::api::MassaPublic;
use api_public::api::API;
use api_public::ident::Address;
use api_public::ident::BlockId;
use api_public::ident::Digest;
use api_public::ident::EndorsementId;
use api_public::ident::OperationId;
use api_public::lookup::Endorsement;
use api_public::lookup::EndorsementInfo;
use api_public::lookup::OperationInfo;
use api_public::operation::Operation;
use api_public::operation::OperationKind;
use api_public::slot::Slot;
use api_public::stakers::RollCounts;

fn op_id(n: u128) -> OperationId {
    OperationId { digest: Digest { hi: 0, lo: n } }
}

fn end_id(n: u128) -> EndorsementId {
    EndorsementId { digest: Digest { hi: 0, lo: n } }
}

fn address(n: u128) -> Address {
    Address { digest: Digest { hi: 0, lo: n } }
}

fn operation_info(n: u128) -> OperationInfo {
    OperationInfo {
        id: op_id(n),
        in_pool: n % 2 == 0,
        in_blocks: vec![BlockId { digest: Digest { hi: 0, lo: n + 100 } }],
        is_final: n % 2 == 1,
        operation: Operation {
            sender_public_key: vec![n as u8; 3],
            fee: n as u64,
            expire_period: 10,
            kind: OperationKind::RollBuy { roll_count: 1 },
            signature: vec![1, 2, 3],
        },
    }
}

fn endorsement_info(n: u128) -> EndorsementInfo {
    EndorsementInfo {
        id: end_id(n),
        in_pool: true,
        in_blocks: vec![],
        is_final: false,
        endorsement: Endorsement {
            sender_public_key: vec![n as u8],
            slot: Slot { period: n as u64, thread: 0 },
            index: 0,
            endorsed_block: BlockId { digest: Digest { hi: 0, lo: n } },
            signature: vec![9],
        },
    }
}

#[test]
fn get_operations_answers_a_repeated_identifier_once_and_skips_an_unknown_one() {
    let index = vec![operation_info(1), operation_info(3)];
    let a = op_id(1);
    let b = op_id(2);
    let found = API.get_operations(&index, vec![a, b, a]).unwrap();
    assert_eq!(found, vec![operation_info(1)]);
}

#[test]
fn get_operations_answers_in_the_order_of_the_request() {
    let index = vec![operation_info(1), operation_info(2), operation_info(3)];
    let found = API.get_operations(&index, vec![op_id(3), op_id(1), op_id(3), op_id(2)]).unwrap();
    assert_eq!(found, vec![operation_info(3), operation_info(1), operation_info(2)]);
}

#[test]
fn get_operations_of_nothing_and_from_nothing() {
    let index = vec![operation_info(1)];
    assert_eq!(API.get_operations(&index, vec![]), Ok(vec![]));
    assert_eq!(API.get_operations(&vec![], vec![op_id(1)]), Ok(vec![]));
    assert_eq!(API.get_operations(&index, vec![op_id(2), op_id(5)]), Ok(vec![]));
}

#[test]
fn get_operations_tells_identifiers_apart_by_both_limbs() {
    let index = vec![operation_info(1)];
    let near = OperationId { digest: Digest { hi: 1, lo: 1 } };
    assert_eq!(API.get_operations(&index, vec![near]), Ok(vec![]));
}

#[test]
fn get_operations_takes_the_first_entry_of_an_identifier() {
    let mut second = operation_info(1);
    second.in_pool = true;
    second.is_final = false;
    let index = vec![operation_info(1), second];
    assert_eq!(API.get_operations(&index, vec![op_id(1)]), Ok(vec![operation_info(1)]));
}

#[test]
fn get_endorsements_answers_a_repeated_identifier_once_and_skips_an_unknown_one() {
    let index = vec![endorsement_info(4), endorsement_info(5)];
    let found = API.get_endorsements(&index, vec![end_id(5), end_id(6), end_id(5)]).unwrap();
    assert_eq!(found, vec![endorsement_info(5)]);
}

#[test]
fn get_endorsements_answers_in_the_order_of_the_request() {
    let index = vec![endorsement_info(4), endorsement_info(5)];
    let found = API.get_endorsements(&index, vec![end_id(5), end_id(4)]).unwrap();
    assert_eq!(found, vec![endorsement_info(5), endorsement_info(4)]);
    assert_eq!(API.get_endorsements(&index, vec![]), Ok(vec![]));
}

#[test]
fn get_stakers_gives_the_addresses_that_hold_rolls() {
    let rolls =
        RollCounts::new(vec![(address(1), 5), (address(2), 0), (address(3), 1)]).unwrap();
    assert_eq!(API.get_stakers(&rolls), Ok(vec![(address(1), 5), (address(3), 1)]));
}

#[test]
fn get_stakers_is_empty_when_nobody_holds_rolls() {
    let nobody = RollCounts::new(vec![]).unwrap();
    assert_eq!(API.get_stakers(&nobody), Ok(vec![]));
    let idle = RollCounts::new(vec![(address(1), 0), (address(2), 0)]).unwrap();
    assert_eq!(API.get_stakers(&idle), Ok(vec![]));
}

#[test]
fn roll_counts_reject_an_address_listed_twice() {
    assert!(RollCounts::new(vec![(address(1), 5), (address(2), 1), (address(1), 7)]).is_none());
    assert!(RollCounts::new(vec![(address(1), 5), (address(2), 5)]).is_some());
}
