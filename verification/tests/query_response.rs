use cosmwasm_schema::names::{
    compare_names, contains_name, covers, insert_name, position, sorted_names, NameOrder,
};
use cosmwasm_schema::{
    check_api_integrity, checked_responses, Alternative, InstanceType, InstanceTypes,
    IntegrityError, QueryResponses, QuerySchema, ResponseMap, Shape, Subschemas,
};
use schemars::gen::SchemaGenerator;
use schemars::schema::RootSchema;

fn schema_of_u128() -> RootSchema {
    SchemaGenerator::default().into_root_schema_for::<u128>()
}

fn schema_of_string() -> RootSchema {
    SchemaGenerator::default().into_root_schema_for::<String>()
}

fn object(required: &[&str]) -> Alternative {
    Alternative {
        instance_type: Some(InstanceTypes::Single(InstanceType::Object)),
        required: Some(required.iter().map(|s| s.to_string()).collect()),
        enum_values: None,
    }
}

fn unit(values: &[&str]) -> Alternative {
    Alternative {
        instance_type: Some(InstanceTypes::Single(InstanceType::Text)),
        required: None,
        enum_values: Some(values.iter().map(|s| Some(s.to_string())).collect()),
    }
}

fn one_of(alternatives: Vec<Alternative>) -> QuerySchema {
    QuerySchema { subschemas: Some(Subschemas { one_of: Some(alternatives) }) }
}

fn names(list: &[&str]) -> Vec<String> {
    list.iter().map(|s| s.to_string()).collect()
}

fn responses(keys: &[&str]) -> ResponseMap {
    let mut map = ResponseMap::new();
    for key in keys {
        map = map.insert(key.to_string(), schema_of_u128());
    }
    map
}

/// `BalanceFor { account }`, `AccountIdFor(String)`, `Supply {}`, `Liquidity`
/// and `AccountCount()`, renamed to snake case.
struct GoodMsg;

impl QueryResponses for GoodMsg {
    fn query_schema() -> QuerySchema {
        one_of(vec![
            object(&["balance_for"]),
            object(&["account_id_for"]),
            object(&["supply"]),
            unit(&["liquidity"]),
            object(&["account_count"]),
        ])
    }

    fn response_schemas_impl() -> ResponseMap {
        responses(&["balance_for", "account_id_for", "supply", "liquidity", "account_count"])
    }
}

#[test]
fn good_msg_works() {
    let response_schemas = GoodMsg::response_schemas().unwrap();
    assert_eq!(
        response_schemas,
        ResponseMap::new()
            .insert("balance_for".to_string(), schema_of_u128())
            .insert("account_id_for".to_string(), schema_of_u128())
            .insert("supply".to_string(), schema_of_u128())
            .insert("liquidity".to_string(), schema_of_u128())
            .insert("account_count".to_string(), schema_of_u128())
    );
}

/// An enum without variants.
struct EmptyMsg;

impl QueryResponses for EmptyMsg {
    fn query_schema() -> QuerySchema {
        QuerySchema { subschemas: None }
    }

    fn response_schemas_impl() -> ResponseMap {
        ResponseMap::new()
    }
}

#[test]
fn empty_msg_works() {
    let response_schemas = EmptyMsg::response_schemas().unwrap();
    assert_eq!(response_schemas, ResponseMap::new());
}

/// `BalanceFor { account }`, renamed to kebab case.
struct BadMsg;

impl QueryResponses for BadMsg {
    fn query_schema() -> QuerySchema {
        one_of(vec![object(&["balance-for"])])
    }

    fn response_schemas_impl() -> ResponseMap {
        responses(&["balance_for"])
    }
}

#[test]
fn bad_msg_fails() {
    let err = BadMsg::response_schemas().unwrap_err();
    assert_eq!(
        err,
        IntegrityError::InconsistentQueries {
            query_msg: vec!["balance-for".to_string()],
            responses: vec!["balance_for".to_string()]
        }
    );
}

#[test]
fn four_variant_shapes_match_their_keys() {
    let schema = one_of(vec![
        unit(&["liquidity"]),
        object(&["account_id_for"]),
        object(&["balance_for"]),
        object(&["account_count"]),
    ]);
    let declared = responses(&["liquidity", "account_id_for", "balance_for", "account_count"]);
    let expected = responses(&["liquidity", "account_id_for", "balance_for", "account_count"]);
    assert_eq!(checked_responses(&schema, declared), Ok(expected));
}

#[test]
fn declared_order_is_irrelevant() {
    let schema = one_of(vec![object(&["a"]), object(&["b"]), unit(&["c"])]);
    assert_eq!(check_api_integrity(&schema, names(&["c", "a", "b"])), Ok(()));
    let declared = responses(&["b", "c", "a"]);
    let back = checked_responses(&schema, declared).unwrap();
    assert_eq!(back.key_names(), names(&["a", "b", "c"]));
    assert_eq!(back, responses(&["a", "b", "c"]));
    assert_eq!(back.len(), 3);
}

#[test]
fn object_with_two_required_names_is_invalid() {
    let schema = one_of(vec![object(&["balance_for"]), object(&["pair", "second"])]);
    assert_eq!(
        check_api_integrity(&schema, names(&["balance_for", "pair"])),
        Err(IntegrityError::InvalidQueryMsgSchema)
    );
    assert_eq!(
        check_api_integrity(&schema, names(&[])),
        Err(IntegrityError::InvalidQueryMsgSchema)
    );
    assert_eq!(
        checked_responses(&schema, responses(&["balance_for", "pair", "second"])),
        Err(IntegrityError::InvalidQueryMsgSchema)
    );
}

#[test]
fn object_without_required_names_is_invalid() {
    let schema = one_of(vec![object(&[])]);
    assert_eq!(
        check_api_integrity(&schema, names(&[])),
        Err(IntegrityError::InvalidQueryMsgSchema)
    );
    let mut no_section = object(&["a"]);
    no_section.required = None;
    assert_eq!(
        check_api_integrity(&one_of(vec![no_section]), names(&["a"])),
        Err(IntegrityError::InvalidQueryMsgSchema)
    );
}

#[test]
fn string_needs_exactly_one_literal() {
    assert_eq!(
        check_api_integrity(&one_of(vec![unit(&[])]), names(&[])),
        Err(IntegrityError::InvalidQueryMsgSchema)
    );
    assert_eq!(
        check_api_integrity(&one_of(vec![unit(&["a", "b"])]), names(&["a", "b"])),
        Err(IntegrityError::InvalidQueryMsgSchema)
    );
    let mut unlisted = unit(&["a"]);
    unlisted.enum_values = None;
    assert_eq!(
        check_api_integrity(&one_of(vec![unlisted]), names(&["a"])),
        Err(IntegrityError::InvalidQueryMsgSchema)
    );
    let mut number = unit(&["a"]);
    number.enum_values = Some(vec![None]);
    assert_eq!(
        check_api_integrity(&one_of(vec![number]), names(&["a"])),
        Err(IntegrityError::InvalidQueryMsgSchema)
    );
}

#[test]
fn other_shapes_are_invalid() {
    for instance_type in [
        None,
        Some(InstanceTypes::Single(InstanceType::Null)),
        Some(InstanceTypes::Single(InstanceType::Boolean)),
        Some(InstanceTypes::Single(InstanceType::Array)),
        Some(InstanceTypes::Single(InstanceType::Number)),
        Some(InstanceTypes::Single(InstanceType::Integer)),
        Some(InstanceTypes::Several(vec![InstanceType::Object])),
    ] {
        let alternative = Alternative {
            instance_type,
            required: Some(names(&["a"])),
            enum_values: Some(vec![Some("a".to_string())]),
        };
        assert_eq!(alternative.shape(), Shape::Unsupported);
        assert_eq!(alternative.operation_name(), Err(IntegrityError::InvalidQueryMsgSchema));
        assert_eq!(
            check_api_integrity(&one_of(vec![alternative]), names(&["a"])),
            Err(IntegrityError::InvalidQueryMsgSchema)
        );
    }
}

#[test]
fn shapes_and_operation_names() {
    assert_eq!(object(&["supply"]).shape(), Shape::Object);
    assert_eq!(unit(&["liquidity"]).shape(), Shape::Text);
    assert_eq!(object(&["supply"]).operation_name(), Ok("supply".to_string()));
    assert_eq!(unit(&["liquidity"]).operation_name(), Ok("liquidity".to_string()));
    let both = Alternative {
        instance_type: Some(InstanceTypes::Single(InstanceType::Object)),
        required: Some(names(&["from_object"])),
        enum_values: Some(vec![Some("from_literal".to_string())]),
    };
    assert_eq!(both.operation_name(), Ok("from_object".to_string()));
}

#[test]
fn missing_one_of_list_is_invalid() {
    let schema = QuerySchema { subschemas: Some(Subschemas { one_of: None }) };
    assert_eq!(schema.queries(), Err(IntegrityError::InvalidQueryMsgSchema));
    assert_eq!(
        check_api_integrity(&schema, names(&[])),
        Err(IntegrityError::InvalidQueryMsgSchema)
    );
}

#[test]
fn empty_one_of_list_names_nothing() {
    let schema = one_of(vec![]);
    assert_eq!(schema.queries(), Ok(vec![]));
    assert_eq!(check_api_integrity(&schema, names(&[])), Ok(()));
    assert_eq!(
        check_api_integrity(&schema, names(&["a"])),
        Err(IntegrityError::InconsistentQueries { query_msg: vec![], responses: names(&["a"]) })
    );
}

#[test]
fn missing_and_extra_names_are_reported() {
    let schema = one_of(vec![object(&["a"]), unit(&["b"])]);
    assert_eq!(
        check_api_integrity(&schema, names(&["a"])),
        Err(IntegrityError::InconsistentQueries {
            query_msg: names(&["a", "b"]),
            responses: names(&["a"])
        })
    );
    assert_eq!(
        check_api_integrity(&schema, names(&["a", "b", "c"])),
        Err(IntegrityError::InconsistentQueries {
            query_msg: names(&["a", "b"]),
            responses: names(&["a", "b", "c"])
        })
    );
    assert_eq!(
        check_api_integrity(&QuerySchema { subschemas: None }, names(&["a"])),
        Err(IntegrityError::InconsistentQueries { query_msg: vec![], responses: names(&["a"]) })
    );
}

#[test]
fn repeated_names_count_once() {
    let schema = one_of(vec![object(&["b"]), unit(&["a"]), object(&["b"])]);
    assert_eq!(schema.queries(), Ok(names(&["a", "b"])));
    assert_eq!(check_api_integrity(&schema, names(&["b", "a", "b"])), Ok(()));
    assert_eq!(
        check_api_integrity(&schema, names(&["c", "a", "c"])),
        Err(IntegrityError::InconsistentQueries {
            query_msg: names(&["a", "b"]),
            responses: names(&["a", "c"])
        })
    );
}

#[test]
fn invalid_schema_wins_over_inconsistent_names() {
    let schema = one_of(vec![object(&["a"]), object(&[])]);
    assert_eq!(
        check_api_integrity(&schema, names(&["zzz"])),
        Err(IntegrityError::InvalidQueryMsgSchema)
    );
}

#[test]
fn success_means_equal_name_sets() {
    let schema = one_of(vec![object(&["a"]), unit(&["b"]), object(&["c"])]);
    let back = checked_responses(&schema, responses(&["c", "b", "a"])).unwrap();
    let derived = schema.queries().unwrap();
    let keys = back.key_names();
    assert_eq!(derived, keys);
    assert!(covers(&derived, &keys));
    assert!(covers(&keys, &derived));
    for key in &keys {
        assert_eq!(derived.iter().filter(|name| *name == key).count(), 1);
    }
    for name in &derived {
        assert_eq!(keys.iter().filter(|key| *key == name).count(), 1);
    }
}

#[test]
fn name_lists_as_sets() {
    let list = names(&["b", "a", "b", "c", "a"]);
    assert!(contains_name(&list, &"c".to_string()));
    assert!(!contains_name(&list, &"d".to_string()));
    assert_eq!(sorted_names(&list), names(&["a", "b", "c"]));
    assert_eq!(sorted_names(&names(&[])), names(&[]));
    assert!(covers(&list, &names(&["c", "c", "a"])));
    assert!(!covers(&list, &names(&["a", "d"])));
    assert!(covers(&names(&[]), &names(&[])));
    assert!(!covers(&names(&[]), &names(&["a"])));
}

#[test]
fn names_are_ordered_by_their_bytes() {
    let order = |a: &str, b: &str| compare_names(&a.to_string(), &b.to_string());
    assert_eq!(order("a", "b"), NameOrder::Before);
    assert_eq!(order("b", "a"), NameOrder::After);
    assert_eq!(order("supply", "supply"), NameOrder::Same);
    assert_eq!(order("", ""), NameOrder::Same);
    assert_eq!(order("", "a"), NameOrder::Before);
    assert_eq!(order("balance", "balance_for"), NameOrder::Before);
    assert_eq!(order("balance_for", "balance"), NameOrder::After);
    assert_eq!(order("balance-for", "balance_for"), NameOrder::Before);
    assert_eq!(order("Z", "a"), NameOrder::Before);
    assert_eq!(order("z", "\u{e9}"), NameOrder::Before);
    assert_eq!(order("\u{e9}", "\u{20ac}"), NameOrder::Before);
    for (a, b) in [("a", "b"), ("ab", "a"), ("x", "x"), ("\u{e9}", "z"), ("", "q")] {
        let expected = match a.cmp(b) {
            std::cmp::Ordering::Less => NameOrder::Before,
            std::cmp::Ordering::Equal => NameOrder::Same,
            std::cmp::Ordering::Greater => NameOrder::After,
        };
        assert_eq!(order(a, b), expected);
    }
}

#[test]
fn names_go_to_their_place() {
    let list = names(&["b", "d", "f"]);
    assert_eq!(position(&list, &"a".to_string()), (0, false));
    assert_eq!(position(&list, &"b".to_string()), (0, true));
    assert_eq!(position(&list, &"c".to_string()), (1, false));
    assert_eq!(position(&list, &"f".to_string()), (2, true));
    assert_eq!(position(&list, &"g".to_string()), (3, false));
    assert_eq!(position(&names(&[]), &"a".to_string()), (0, false));

    let mut list = names(&[]);
    for name in ["d", "b", "f", "d", "a", "g", "b"] {
        insert_name(&mut list, name.to_string());
    }
    assert_eq!(list, names(&["a", "b", "d", "f", "g"]));
}

#[test]
fn response_map_keeps_one_entry_per_name() {
    let map = ResponseMap::new()
        .insert("b".to_string(), schema_of_u128())
        .insert("a".to_string(), schema_of_u128())
        .insert("a".to_string(), schema_of_string());
    assert_eq!(map.len(), 2);
    assert_eq!(map.key_names(), names(&["a", "b"]));
    assert_eq!(map.get(&"a".to_string()), Some(&schema_of_string()));
    assert_eq!(map.get(&"b".to_string()), Some(&schema_of_u128()));
    assert_eq!(map.get(&"c".to_string()), None);
    assert_ne!(schema_of_string(), schema_of_u128());
    assert_eq!(ResponseMap::new().len(), 0);
    assert_eq!(ResponseMap::new().get(&"a".to_string()), None);
}

#[test]
fn response_maps_are_equal_whatever_the_order_of_insertion() {
    let one = ResponseMap::new()
        .insert("supply".to_string(), schema_of_u128())
        .insert("balance_for".to_string(), schema_of_string())
        .insert("liquidity".to_string(), schema_of_u128());
    let other = ResponseMap::new()
        .insert("liquidity".to_string(), schema_of_u128())
        .insert("supply".to_string(), schema_of_u128())
        .insert("balance_for".to_string(), schema_of_string());
    assert_eq!(one, other);
    let third = ResponseMap::new()
        .insert("liquidity".to_string(), schema_of_string())
        .insert("supply".to_string(), schema_of_u128())
        .insert("balance_for".to_string(), schema_of_string());
    assert_ne!(one, third);
}
