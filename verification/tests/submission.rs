use api_public::api::MassaPublic;
use api_public::api::API;
use api_public::error::ApiError;
use api_public::ident::Address;
use api_public::ident::Digest;
use api_public::ident::OperationId;
use api_public::operation::validate_operation;
use api_public::operation::Operation;
use api_public::operation::OperationKind;
use api_public::operation::SubmitStep;

fn op_id(n: u128) -> OperationId {
    OperationId { digest: Digest { hi: 0, lo: n } }
}

fn valid(fee: u64) -> Operation {
    Operation {
        sender_public_key: vec![2; 33],
        fee,
        expire_period: 100,
        kind: OperationKind::Transaction {
            recipient: Address { digest: Digest { hi: 0, lo: 5 } },
            amount: 10,
        },
        signature: vec![3; 64],
    }
}

fn unsigned(fee: u64) -> Operation {
    let mut operation = valid(fee);
    operation.signature = vec![];
    operation
}

/// Runs a batch against a pool that gives the operation with fee `n` the
/// identifier `n`, and turns down every operation whose fee is odd.
fn submit(batch: Vec<Operation>) -> (Vec<Operation>, Vec<OperationId>) {
    let mut forwarded = Vec::new();
    let mut step = API.send_operations(batch).unwrap();
    loop {
        match step {
            SubmitStep::Reply(ids) => return (forwarded, ids),
            SubmitStep::Forward(submission, operation) => {
                let outcome = if operation.fee % 2 == 0 {
                    Ok(op_id(operation.fee as u128))
                } else {
                    Err(ApiError::ValidationError)
                };
                forwarded.push(operation);
                step = submission.step(outcome);
            }
        }
    }
}

#[test]
fn send_operations_replies_with_the_valid_operation_only() {
    let (forwarded, ids) = submit(vec![valid(4), unsigned(6)]);
    assert_eq!(ids, vec![op_id(4)]);
    assert_eq!(forwarded, vec![valid(4)]);
}

#[test]
fn send_operations_keeps_the_order_of_the_batch() {
    let (forwarded, ids) = submit(vec![valid(8), unsigned(2), valid(6), valid(4)]);
    assert_eq!(ids, vec![op_id(8), op_id(6), op_id(4)]);
    assert_eq!(forwarded, vec![valid(8), valid(6), valid(4)]);
}

#[test]
fn send_operations_goes_on_after_the_pool_turns_one_down() {
    let (forwarded, ids) = submit(vec![valid(2), valid(3), valid(4)]);
    assert_eq!(ids, vec![op_id(2), op_id(4)]);
    assert_eq!(forwarded, vec![valid(2), valid(3), valid(4)]);
}

#[test]
fn send_operations_of_an_empty_batch_replies_at_once() {
    match API.send_operations(vec![]).unwrap() {
        SubmitStep::Reply(ids) => assert!(ids.is_empty()),
        SubmitStep::Forward(_, _) => panic!("nothing to forward"),
    }
}

#[test]
fn send_operations_of_malformed_operations_forwards_nothing() {
    let (forwarded, ids) = submit(vec![unsigned(2), unsigned(4)]);
    assert!(forwarded.is_empty());
    assert!(ids.is_empty());
}

#[test]
fn send_operations_hands_out_the_first_valid_operation_first() {
    match API.send_operations(vec![unsigned(1), valid(2), valid(4)]).unwrap() {
        SubmitStep::Forward(_, operation) => assert_eq!(operation, valid(2)),
        SubmitStep::Reply(_) => panic!("two operations are valid"),
    }
}

#[test]
fn validate_operation_accepts_a_well_formed_operation() {
    assert_eq!(validate_operation(&valid(0)), Ok(()));
    let mut buy = valid(0);
    buy.kind = OperationKind::RollBuy { roll_count: 1 };
    assert_eq!(validate_operation(&buy), Ok(()));
    let mut sell = valid(0);
    sell.kind = OperationKind::RollSell { roll_count: u64::MAX };
    assert_eq!(validate_operation(&sell), Ok(()));
}

#[test]
fn validate_operation_rejects_a_missing_sender() {
    let mut operation = valid(1);
    operation.sender_public_key = vec![];
    assert_eq!(validate_operation(&operation), Err(ApiError::ValidationError));
}

#[test]
fn validate_operation_rejects_a_missing_signature() {
    assert_eq!(validate_operation(&unsigned(1)), Err(ApiError::ValidationError));
}

#[test]
fn validate_operation_rejects_an_operation_that_moves_nothing() {
    let mut transfer = valid(1);
    transfer.kind = OperationKind::Transaction {
        recipient: Address { digest: Digest { hi: 0, lo: 5 } },
        amount: 0,
    };
    assert_eq!(validate_operation(&transfer), Err(ApiError::ValidationError));
    let mut buy = valid(1);
    buy.kind = OperationKind::RollBuy { roll_count: 0 };
    assert_eq!(validate_operation(&buy), Err(ApiError::ValidationError));
    let mut sell = valid(1);
    sell.kind = OperationKind::RollSell { roll_count: 0 };
    assert_eq!(validate_operation(&sell), Err(ApiError::ValidationError));
}

#[test]
fn operation_quantity_is_what_the_operation_moves() {
    assert_eq!(valid(1).kind.quantity(), 10);
    assert_eq!(OperationKind::RollBuy { roll_count: 3 }.quantity(), 3);
    assert_eq!(OperationKind::RollSell { roll_count: 4 }.quantity(), 4);
}
