use pydynox::batch::batch_get_on_response;
use pydynox::batch::batch_get_start;
use pydynox::batch::batch_write_on_response;
use pydynox::batch::batch_write_start;
use pydynox::batch::chunk_requests;
use pydynox::batch::prepare_batch_write;
use pydynox::batch::BatchGetResponse;
use pydynox::batch::BatchGetStep;
use pydynox::batch::BatchWriteResponse;
use pydynox::batch::BatchWriteStep;
use pydynox::batch::WriteRequest;
use pydynox::errors::classify;
use pydynox::errors::Item;
use pydynox::errors::PydynoError;
use pydynox::errors::RawBackendError;
use pydynox::errors::TransportKind;
use pydynox::ops::delete_item_outcome;
use pydynox::ops::get_item_outcome;
use pydynox::ops::parse_return_values;
use pydynox::ops::prepare_delete_item;
use pydynox::ops::prepare_update_item;
use pydynox::ops::put_item_outcome;
use pydynox::ops::update_item_outcome;
use pydynox::ops::ReturnMode;
use pydynox::ops::WriteOutcome;
use pydynox::transact::build_transact_get;
use pydynox::transact::build_transact_write;
use pydynox::transact::read_transact_get_responses;
use pydynox::transact::transact_write_outcome;
use pydynox::transact::TransactGetOp;
use pydynox::transact::TransactWriteOp;
use pydynox::value::AttributeValue;
use pydynox::value::NativeValue;

fn s(x: &str) -> String {
    String::from(x)
}

fn service_error(code: &str, message: &str) -> RawBackendError {
    RawBackendError::Service {
        code: s(code),
        message: s(message),
        item: None,
        reasons: None,
    }
}

fn native_key(pk: &str) -> Vec<(String, NativeValue)> {
    vec![(s("pk"), NativeValue::Str(s(pk)))]
}

fn attr_key(pk: &str) -> Item {
    vec![(s("pk"), AttributeValue::S(s(pk)))]
}

#[test]
fn return_values_words() {
    assert_eq!(parse_return_values("NONE").unwrap(), ReturnMode::ReturnNone);
    assert_eq!(parse_return_values("ALL_OLD").unwrap(), ReturnMode::AllOld);
    assert_eq!(parse_return_values("UPDATED_OLD").unwrap(), ReturnMode::UpdatedOld);
    assert_eq!(parse_return_values("ALL_NEW").unwrap(), ReturnMode::AllNew);
    assert_eq!(parse_return_values("UPDATED_NEW").unwrap(), ReturnMode::UpdatedNew);
    match parse_return_values("SOMETIMES") {
        Err(PydynoError::Validation(m)) => assert_eq!(
            m,
            "Invalid return_values: 'SOMETIMES'. Must be one of: NONE, ALL_OLD, UPDATED_OLD, ALL_NEW, UPDATED_NEW"
        ),
        other => panic!("expected a validation error, got {:?}", other),
    }
}

#[test]
fn update_without_any_source_fails_locally() {
    let r = prepare_update_item(
        "users",
        &native_key("u1"),
        None,
        None,
        None,
        vec![],
        vec![],
        false,
        None,
    );
    match r {
        Err(PydynoError::Validation(m)) => {
            assert_eq!(m, "Either 'updates' or 'update_expression' must be provided");
        }
        other => panic!("expected a validation error, got {:?}", other),
    }
}

#[test]
fn update_with_both_sources_uses_updates_and_caller_placeholders_win() {
    let updates = vec![(s("name"), NativeValue::Str(s("auto")))];
    let r = prepare_update_item(
        "users",
        &native_key("u1"),
        Some(&updates),
        Some(s("SET ignored = :x")),
        None,
        vec![(s("#f0"), s("override"))],
        vec![(s(":v0"), NativeValue::Str(s("explicit")))],
        false,
        None,
    )
    .expect("prepare");
    assert_eq!(r.update_expression, "SET #f0 = :v0");
    assert_eq!(r.expression_attribute_names, vec![(s("#f0"), s("override"))]);
    assert_eq!(
        r.expression_attribute_values,
        vec![(s(":v0"), AttributeValue::S(s("explicit")))]
    );
}

#[test]
fn update_with_field_updates_compiles_the_expression() {
    let updates = vec![
        (s("name"), NativeValue::Str(s("John"))),
        (s("age"), NativeValue::Int(30)),
    ];
    let r = prepare_update_item(
        "users",
        &native_key("u1"),
        Some(&updates),
        None,
        Some(s("attribute_exists(pk)")),
        vec![],
        vec![],
        true,
        Some(s("ALL_NEW")),
    )
    .expect("prepare");
    assert_eq!(r.table, "users");
    assert_eq!(r.key, attr_key("u1"));
    assert_eq!(r.update_expression, "SET #f0 = :v0, #f1 = :v1");
    assert_eq!(r.condition_expression, Some(s("attribute_exists(pk)")));
    assert_eq!(
        r.expression_attribute_names,
        vec![(s("#f0"), s("name")), (s("#f1"), s("age"))]
    );
    assert_eq!(
        r.expression_attribute_values,
        vec![
            (s(":v0"), AttributeValue::S(s("John"))),
            (s(":v1"), AttributeValue::N(s("30"))),
        ]
    );
    assert!(r.return_values_on_condition_check_failure);
    assert_eq!(r.return_values, Some(ReturnMode::AllNew));
}

#[test]
fn update_return_mode_none_is_no_snapshot() {
    let r = prepare_update_item(
        "users",
        &native_key("u1"),
        None,
        Some(s("SET a = :a")),
        None,
        vec![],
        vec![],
        false,
        Some(s("NONE")),
    )
    .expect("prepare");
    assert_eq!(r.return_values, None);
}

#[test]
fn delete_restricts_return_mode_locally() {
    for bad in ["ALL_NEW", "UPDATED_OLD", "UPDATED_NEW", "WHATEVER"] {
        let r = prepare_delete_item(
            "users",
            &native_key("u1"),
            None,
            None,
            None,
            false,
            Some(s(bad)),
        );
        match r {
            Err(PydynoError::Validation(m)) => assert_eq!(
                m,
                format!(
                    "Invalid return_values for delete_item: '{}'. Must be NONE or ALL_OLD",
                    bad
                )
            ),
            other => panic!("expected a validation error, got {:?}", other),
        }
    }
    let ok = prepare_delete_item(
        "users",
        &native_key("u1"),
        None,
        None,
        None,
        false,
        Some(s("ALL_OLD")),
    )
    .expect("prepare");
    assert_eq!(ok.return_values, Some(ReturnMode::AllOld));
    let none = prepare_delete_item(
        "users",
        &native_key("u1"),
        None,
        None,
        None,
        false,
        Some(s("NONE")),
    )
    .expect("prepare");
    assert_eq!(none.return_values, None);
}

#[test]
fn resource_not_found_names_the_table() {
    let raw = service_error("ResourceNotFoundException", "Requested resource not found");
    match put_item_outcome("orders", Err(raw)) {
        Err(PydynoError::ResourceNotFound(m)) => assert_eq!(m, "Table not found: orders"),
        other => panic!("expected a resource-not-found error, got {:?}", other),
    }
    let raw = service_error("ResourceNotFoundException", "Requested resource not found");
    match get_item_outcome("orders", Err(raw)) {
        Err(PydynoError::ResourceNotFound(m)) => assert_eq!(m, "Table not found: orders"),
        other => panic!("expected a resource-not-found error, got {:?}", other),
    }
}

#[test]
fn condition_failure_attaches_the_conflicting_item() {
    let raw = RawBackendError::Service {
        code: s("ConditionalCheckFailedException"),
        message: s("The conditional request failed"),
        item: Some(attr_key("taken")),
        reasons: None,
    };
    match update_item_outcome("users", false, Err(raw)) {
        Err(PydynoError::ConditionCheckFailed(m, item)) => {
            assert_eq!(m, "Condition check failed: The conditional request failed");
            assert_eq!(item, Some(attr_key("taken")));
        }
        other => panic!("expected a condition-check failure, got {:?}", other),
    }
    let raw = RawBackendError::Service {
        code: s("ConditionalCheckFailedException"),
        message: s("The conditional request failed"),
        item: None,
        reasons: None,
    };
    match delete_item_outcome("users", false, Err(raw)) {
        Err(PydynoError::ConditionCheckFailed(_, item)) => assert_eq!(item, None),
        other => panic!("expected a condition-check failure, got {:?}", other),
    }
}

#[test]
fn outcome_decodes_attributes_only_when_requested() {
    let attrs = vec![(s("n"), AttributeValue::N(s("7")))];
    let out = update_item_outcome(
        "users",
        true,
        Ok(WriteOutcome { attributes: Some(attrs), capacity_units: Some(s("1.0")) }),
    )
    .expect("outcome");
    assert_eq!(out.attributes, Some(vec![(s("n"), NativeValue::Int(7))]));
    assert_eq!(out.capacity_units, Some(s("1.0")));

    let attrs = vec![(s("n"), AttributeValue::N(s("7")))];
    let out = update_item_outcome(
        "users",
        false,
        Ok(WriteOutcome { attributes: Some(attrs), capacity_units: None }),
    )
    .expect("outcome");
    assert_eq!(out.attributes, None);
}

#[test]
fn get_absence_is_not_an_error() {
    let out = get_item_outcome("users", Ok((None, Some(s("0.5"))))).expect("outcome");
    assert_eq!(out.item, None);
    assert_eq!(out.capacity_units, Some(s("0.5")));
    let found = get_item_outcome(
        "users",
        Ok((Some(vec![(s("pk"), AttributeValue::S(s("u1")))]), None)),
    )
    .expect("outcome");
    assert_eq!(found.item, Some(vec![(s("pk"), NativeValue::Str(s("u1")))]));
}

#[test]
fn transport_failures_classify_by_structure() {
    match classify(
        RawBackendError::Transport(TransportKind::Dispatch, s("no credential provider found")),
        None,
    ) {
        PydynoError::Credentials(m) => assert_eq!(m, "no credential provider found"),
        other => panic!("expected a credentials error, got {:?}", other),
    }
    match classify(
        RawBackendError::Transport(TransportKind::Dispatch, s("connection refused")),
        None,
    ) {
        PydynoError::Connection(m) => assert_eq!(m, "connection refused"),
        other => panic!("expected a connection error, got {:?}", other),
    }
    match classify(RawBackendError::Transport(TransportKind::Timeout, s("timed out")), None) {
        PydynoError::Connection(_) => {}
        other => panic!("expected a connection error, got {:?}", other),
    }
    match classify(
        RawBackendError::Transport(TransportKind::Response, s("bad payload")),
        None,
    ) {
        PydynoError::Serialization(_) => {}
        other => panic!("expected a serialization error, got {:?}", other),
    }
}

#[test]
fn service_codes_classify_uniformly() {
    match classify(service_error("ThrottlingException", "slow down"), Some("t")) {
        PydynoError::ThroughputExceeded(_) => {}
        other => panic!("expected a throughput error, got {:?}", other),
    }
    match classify(service_error("AccessDeniedException", "no"), None) {
        PydynoError::AccessDenied(_) => {}
        other => panic!("expected an access-denied error, got {:?}", other),
    }
    match classify(service_error("UnrecognizedClientException", "who"), None) {
        PydynoError::Credentials(_) => {}
        other => panic!("expected a credentials error, got {:?}", other),
    }
    match classify(service_error("ValidationException", "bad"), None) {
        PydynoError::Validation(_) => {}
        other => panic!("expected a validation error, got {:?}", other),
    }
    match classify(service_error("SomethingNewException", "huh"), None) {
        PydynoError::Generic(m) => assert_eq!(m, "huh"),
        other => panic!("expected a generic error, got {:?}", other),
    }
    let raw = RawBackendError::Service {
        code: s("TransactionCanceledException"),
        message: s("Transaction cancelled"),
        item: None,
        reasons: Some(vec![s("ConditionalCheckFailed"), s("None")]),
    };
    match classify(raw, None) {
        PydynoError::TransactionCanceled(m, reasons) => {
            assert_eq!(m, "Transaction canceled: Transaction cancelled");
            assert_eq!(reasons, Some(vec![s("ConditionalCheckFailed"), s("None")]));
        }
        other => panic!("expected a canceled transaction, got {:?}", other),
    }
}

#[test]
fn chunking_splits_thirty_into_twenty_five_and_five() {
    let reqs: Vec<u32> = (0..30).collect();
    let chunks = chunk_requests(reqs, 25);
    assert_eq!(chunks.len(), 2);
    assert_eq!(chunks[0].len(), 25);
    assert_eq!(chunks[1].len(), 5);
    assert_eq!(chunks[0][0], 0);
    assert_eq!(chunks[1][4], 29);

    let exact: Vec<u32> = (0..25).collect();
    assert_eq!(chunk_requests(exact, 25).len(), 1);
    let none: Vec<u32> = vec![];
    assert!(chunk_requests(none, 25).is_empty());
}

#[test]
fn batch_write_splits_and_retries_unprocessed_alone() {
    // Thirty puts split into two backend calls of 25 and 5.
    let puts: Vec<Vec<(String, NativeValue)>> =
        (0..30).map(|i| vec![(s("pk"), NativeValue::Int(i))]).collect();
    let reqs = prepare_batch_write(&puts, &vec![]).expect("prepare");
    assert_eq!(reqs.len(), 30);
    let (run, step) = batch_write_start(reqs);
    let first = match step {
        BatchWriteStep::Call(c) => c,
        other => panic!("expected a call, got {:?}", other),
    };
    assert_eq!(first.len(), 25);
    assert_eq!(run.remaining.len(), 1);

    // Three unprocessed requests come back: they are resubmitted alone,
    // with a delay, and a second failure waits strictly longer.
    let unprocessed: Vec<WriteRequest> = first.into_iter().take(3).collect();
    let (run, step) =
        batch_write_on_response(run, "orders", BatchWriteResponse::Success(unprocessed));
    let (d1, again) = match step {
        BatchWriteStep::Wait(d, again) => (d, again),
        other => panic!("expected a wait, got {:?}", other),
    };
    assert_eq!(again.len(), 3);
    assert_eq!(d1, 100);
    let (run, step) = batch_write_on_response(run, "orders", BatchWriteResponse::Success(again));
    let (d2, again) = match step {
        BatchWriteStep::Wait(d, again) => (d, again),
        other => panic!("expected a wait, got {:?}", other),
    };
    assert_eq!(d2, 200);
    assert!(d2 > d1);

    // A clean response moves on to the second chunk of five.
    let (run, step) = batch_write_on_response(run, "orders", BatchWriteResponse::Success(vec![]));
    let second = match step {
        BatchWriteStep::Call(c) => c,
        other => panic!("expected a call, got {:?}", other),
    };
    assert_eq!(second.len(), 5);
    let _ = again;
    let (_, step) = batch_write_on_response(run, "orders", BatchWriteResponse::Success(vec![]));
    match step {
        BatchWriteStep::Finished => {}
        other => panic!("expected the batch to finish, got {:?}", other),
    }
}

#[test]
fn batch_write_exhausts_retries_naming_the_count() {
    let puts: Vec<Vec<(String, NativeValue)>> =
        (0..3).map(|i| vec![(s("pk"), NativeValue::Int(i))]).collect();
    let reqs = prepare_batch_write(&puts, &vec![]).expect("prepare");
    let (mut run, step) = batch_write_start(reqs);
    let mut pending = match step {
        BatchWriteStep::Call(c) => c,
        other => panic!("expected a call, got {:?}", other),
    };
    for _ in 0..4 {
        let (next_run, step) =
            batch_write_on_response(run, "orders", BatchWriteResponse::Success(pending));
        run = next_run;
        pending = match step {
            BatchWriteStep::Wait(_, again) => again,
            other => panic!("expected a wait, got {:?}", other),
        };
    }
    let (_, step) = batch_write_on_response(run, "orders", BatchWriteResponse::Success(pending));
    match step {
        BatchWriteStep::Failed(PydynoError::Generic(m)) => {
            assert_eq!(m, "Failed to process 3 items after 5 retries");
        }
        other => panic!("expected the batch to fail, got {:?}", other),
    }
}

#[test]
fn batch_write_transport_failure_aborts_at_once() {
    let puts: Vec<Vec<(String, NativeValue)>> =
        vec![vec![(s("pk"), NativeValue::Int(1))]];
    let reqs = prepare_batch_write(&puts, &vec![]).expect("prepare");
    let (run, _) = batch_write_start(reqs);
    let raw = RawBackendError::Transport(TransportKind::Dispatch, s("connection reset"));
    let (_, step) = batch_write_on_response(run, "orders", BatchWriteResponse::Failure(raw));
    match step {
        BatchWriteStep::Failed(PydynoError::Connection(_)) => {}
        other => panic!("expected a connection failure, got {:?}", other),
    }
}

#[test]
fn batch_write_mixes_puts_and_deletes_in_order() {
    let puts = vec![vec![(s("pk"), NativeValue::Int(1))]];
    let dels = vec![vec![(s("pk"), NativeValue::Int(2))]];
    let reqs = prepare_batch_write(&puts, &dels).expect("prepare");
    assert_eq!(reqs.len(), 2);
    match &reqs[0] {
        WriteRequest::Put(it) => assert_eq!(it, &vec![(s("pk"), AttributeValue::N(s("1")))]),
        other => panic!("expected a put, got {:?}", other),
    }
    match &reqs[1] {
        WriteRequest::Delete(k) => assert_eq!(k, &vec![(s("pk"), AttributeValue::N(s("2")))]),
        other => panic!("expected a delete, got {:?}", other),
    }
}

#[test]
fn batch_get_collects_found_items_and_finishes() {
    let keys: Vec<Item> = (0..2).map(|i| vec![(s("pk"), AttributeValue::N(i64_text(i)))]).collect();
    let (run, step) = batch_get_start(keys);
    let asked = match step {
        BatchGetStep::Call(c) => c,
        other => panic!("expected a call, got {:?}", other),
    };
    assert_eq!(asked.len(), 2);
    let found = vec![attr_item("a"), attr_item("b")];
    let (_, step) = batch_get_on_response(
        run,
        "orders",
        BatchGetResponse::Success { items: found, unprocessed: vec![] },
    );
    match step {
        BatchGetStep::Finished(got) => {
            assert_eq!(got, vec![attr_item("a"), attr_item("b")]);
        }
        other => panic!("expected the read to finish, got {:?}", other),
    }
}

fn i64_text(i: i64) -> String {
    pydynox::numtext::i64_to_decimal(i)
}

fn attr_item(pk: &str) -> Item {
    vec![(s("pk"), AttributeValue::S(s(pk)))]
}

#[test]
fn transaction_cap_is_enforced_locally() {
    let mut ops: Vec<TransactWriteOp> = Vec::new();
    for i in 0..101 {
        ops.push(TransactWriteOp::Put {
            table: s("orders"),
            item: vec![(s("pk"), NativeValue::Int(i))],
            condition_expression: None,
            expression_attribute_names: vec![],
            expression_attribute_values: vec![],
        });
    }
    match build_transact_write(ops) {
        Err(PydynoError::Validation(m)) => {
            assert_eq!(m, "Transaction exceeds maximum of 100 items (got 101)");
        }
        other => panic!("expected a validation error, got {:?}", other),
    }

    let mut ops: Vec<TransactWriteOp> = Vec::new();
    for i in 0..100 {
        ops.push(TransactWriteOp::Put {
            table: s("orders"),
            item: vec![(s("pk"), NativeValue::Int(i))],
            condition_expression: None,
            expression_attribute_names: vec![],
            expression_attribute_values: vec![],
        });
    }
    let reqs = build_transact_write(ops).expect("build");
    assert_eq!(reqs.len(), 100);
}

#[test]
fn transact_get_preserves_order_and_absences() {
    let gets = vec![
        TransactGetOp {
            table: s("orders"),
            key: native_key("a"),
            projection_expression: None,
            expression_attribute_names: vec![],
        },
        TransactGetOp {
            table: s("orders"),
            key: native_key("b"),
            projection_expression: Some(s("pk")),
            expression_attribute_names: vec![],
        },
        TransactGetOp {
            table: s("orders"),
            key: native_key("c"),
            projection_expression: None,
            expression_attribute_names: vec![],
        },
    ];
    let reqs = build_transact_get(gets).expect("build");
    assert_eq!(reqs.len(), 3);
    assert_eq!(reqs[0].key, attr_key("a"));
    assert_eq!(reqs[1].projection_expression, Some(s("pk")));

    // The middle item is absent server-side: an explicit absence stands at
    // its original index, never omitted.
    let responses = vec![Some(attr_item("a")), None, Some(attr_item("c"))];
    let out = read_transact_get_responses(responses).expect("read");
    assert_eq!(out.len(), 3);
    assert_eq!(out[0], Some(vec![(s("pk"), NativeValue::Str(s("a")))]));
    assert_eq!(out[1], None);
    assert_eq!(out[2], Some(vec![(s("pk"), NativeValue::Str(s("c")))]));
}

#[test]
fn transact_write_outcome_classifies_cancellation() {
    assert!(transact_write_outcome(Ok(())).is_ok());
    let raw = RawBackendError::Service {
        code: s("TransactionCanceledException"),
        message: s("rejected"),
        item: None,
        reasons: Some(vec![s("ConditionalCheckFailed")]),
    };
    match transact_write_outcome(Err(raw)) {
        Err(PydynoError::TransactionCanceled(m, reasons)) => {
            assert_eq!(m, "Transaction canceled: rejected");
            assert_eq!(reasons, Some(vec![s("ConditionalCheckFailed")]));
        }
        other => panic!("expected a canceled transaction, got {:?}", other),
    }
}

#[test]
fn service_codes_for_other_backends() {
    match classify(service_error("InvalidCiphertextException", "bad blob"), None) {
        PydynoError::Encryption(_) => {}
        other => panic!("expected an encryption error, got {:?}", other),
    }
    match classify(service_error("NoSuchBucket", "missing"), None) {
        PydynoError::ObjectStoreError(_) => {}
        other => panic!("expected an object-store error, got {:?}", other),
    }
    match classify(service_error("ResourceInUseException", "busy"), None) {
        PydynoError::ResourceInUse(_) => {}
        other => panic!("expected a resource-in-use error, got {:?}", other),
    }
    match classify(service_error("ItemCollectionSizeLimitExceededException", "full"), None) {
        PydynoError::Validation(_) => {}
        other => panic!("expected a validation error, got {:?}", other),
    }
    match classify(service_error("SerializationException", "bad shape"), None) {
        PydynoError::Serialization(_) => {}
        other => panic!("expected a serialization error, got {:?}", other),
    }
    match classify(
        RawBackendError::Transport(TransportKind::Construction, s("cannot build")),
        None,
    ) {
        PydynoError::Serialization(_) => {}
        other => panic!("expected a serialization error, got {:?}", other),
    }
}

#[test]
fn transaction_build_refuses_unencodable_operations() {
    let ops = vec![TransactWriteOp::Put {
        table: s("orders"),
        item: vec![(s("bad"), NativeValue::SetVal(vec![]))],
        condition_expression: None,
        expression_attribute_names: vec![],
        expression_attribute_values: vec![],
    }];
    match build_transact_write(ops) {
        Err(PydynoError::Validation(m)) => {
            assert_eq!(m, "DynamoDB does not support empty sets");
        }
        other => panic!("expected a validation error, got {:?}", other),
    }
}

#[test]
fn transact_get_cap_is_enforced_locally() {
    let mut gets: Vec<TransactGetOp> = Vec::new();
    for i in 0..101 {
        gets.push(TransactGetOp {
            table: s("orders"),
            key: vec![(s("pk"), NativeValue::Int(i))],
            projection_expression: None,
            expression_attribute_names: vec![],
        });
    }
    match build_transact_get(gets) {
        Err(PydynoError::Validation(m)) => {
            assert_eq!(m, "Transaction exceeds maximum of 100 items (got 101)");
        }
        other => panic!("expected a validation error, got {:?}", other),
    }
}

#[test]
fn update_prepare_refuses_unencodable_key() {
    let key = vec![(s("pk"), NativeValue::SetVal(vec![]))];
    let r = prepare_update_item(
        "users",
        &key,
        None,
        Some(s("SET a = :a")),
        None,
        vec![],
        vec![],
        false,
        None,
    );
    match r {
        Err(PydynoError::Validation(m)) => {
            assert_eq!(m, "DynamoDB does not support empty sets");
        }
        other => panic!("expected a validation error, got {:?}", other),
    }
}

#[test]
fn batch_get_retries_unprocessed_keys() {
    let keys: Vec<Item> = vec![attr_key("a"), attr_key("b")];
    let (run, step) = batch_get_start(keys);
    match step {
        BatchGetStep::Call(_) => {}
        other => panic!("expected a call, got {:?}", other),
    }
    let (run, step) = batch_get_on_response(
        run,
        "orders",
        BatchGetResponse::Success { items: vec![attr_item("a")], unprocessed: vec![attr_key("b")] },
    );
    let again = match step {
        BatchGetStep::Wait(d, again) => {
            assert_eq!(d, 100);
            again
        }
        other => panic!("expected a wait, got {:?}", other),
    };
    assert_eq!(again, vec![attr_key("b")]);
    let (_, step) = batch_get_on_response(
        run,
        "orders",
        BatchGetResponse::Success { items: vec![attr_item("b")], unprocessed: vec![] },
    );
    match step {
        BatchGetStep::Finished(got) => assert_eq!(got, vec![attr_item("a"), attr_item("b")]),
        other => panic!("expected the read to finish, got {:?}", other),
    }
}
