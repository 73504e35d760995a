use dscheck::causal;
use dscheck::causal::{
    cart_items, cart_text, cart_with, check_cart, check_count, check_single, ValuesBody,
    ValuesReply,
};
use dscheck::placement::{holds_key, key_replicas, non_replicas, preference_list};
use dscheck::random::random_string;
use dscheck::store::{check_delete, check_get, check_put, StoreError, ValueBody, ValueReply};
use rand::SeedableRng;

fn texts(items: &[&str]) -> Vec<String> {
    items.iter().map(|s| s.to_string()).collect()
}

fn value_reply(tag: &str, key: &str, value: Option<&str>) -> Option<ValueReply> {
    Some(ValueReply {
        tag: tag.to_string(),
        body: Some(ValueBody { key: key.to_string(), value: value.map(|v| v.to_string()) }),
    })
}

fn values_reply(tag: &str, key: &str, values: &[&str], context: Option<&str>) -> Option<ValuesReply> {
    Some(ValuesReply {
        tag: tag.to_string(),
        body: Some(ValuesBody {
            key: key.to_string(),
            values: texts(values),
            context: context.map(|c| c.to_string()),
        }),
    })
}

#[test]
fn put_then_get_returns_the_value_and_delete_clears_it() {
    let v = Some("v".to_string());
    assert_eq!(check_get(&value_reply("GET_RESP", "K", None), "K", &None), Ok(true));
    assert_eq!(check_put(&value_reply("PUT_RESP", "K", Some("v")), "K", "v"), Ok(true));
    assert_eq!(check_get(&value_reply("GET_RESP", "K", Some("v")), "K", &v), Ok(true));
    assert_eq!(check_delete(&value_reply("DELETE_RESP", "K", Some("v")), "K", &v), Ok(true));
    assert_eq!(check_get(&value_reply("GET_RESP", "K", None), "K", &None), Ok(true));
}

#[test]
fn each_store_error_has_its_input() {
    let v = Some("v".to_string());
    assert_eq!(check_get(&None, "K", &v), Err(StoreError::NoResponse));
    assert_eq!(check_get(&value_reply("PUT_RESP", "K", Some("v")), "K", &v), Err(StoreError::WrongType));
    let unreadable = Some(ValueReply { tag: "GET_RESP".to_string(), body: None });
    assert_eq!(check_get(&unreadable, "K", &v), Err(StoreError::Malformed));
    assert_eq!(check_get(&value_reply("GET_RESP", "J", Some("v")), "K", &v), Err(StoreError::WrongKey));
    assert_eq!(check_get(&value_reply("GET_RESP", "K", Some("w")), "K", &v), Err(StoreError::WrongValue));
    assert_eq!(check_get(&value_reply("GET_RESP", "K", None), "K", &v), Err(StoreError::WrongValue));
    assert_eq!(check_get(&value_reply("GET_RESP", "K", Some("v")), "K", &None), Err(StoreError::WrongValue));
    assert_eq!(check_put(&value_reply("PUT_RESP", "K", Some("w")), "K", "v"), Err(StoreError::WrongValue));
    assert_eq!(check_delete(&value_reply("GET_RESP", "K", Some("v")), "K", &v), Err(StoreError::WrongType));
}

#[test]
fn wrong_tag_comes_before_wrong_key_and_key_before_value() {
    let v = Some("v".to_string());
    assert_eq!(check_get(&value_reply("X", "J", Some("w")), "K", &v), Err(StoreError::WrongType));
    assert_eq!(check_get(&value_reply("GET_RESP", "J", Some("w")), "K", &v), Err(StoreError::WrongKey));
}

#[test]
fn concurrent_writes_come_back_as_siblings_in_any_order() {
    let expected = Some(texts(&["A", "B"]));
    let (values, context) =
        causal::check_get(values_reply("GET_RESP", "K", &["B", "A"], Some("ctx")), "K", &expected).unwrap();
    assert_eq!(values, texts(&["B", "A"]));
    assert_eq!(context, Some("ctx".to_string()));
    assert_eq!(
        causal::check_get(values_reply("GET_RESP", "K", &["A"], Some("ctx")), "K", &expected),
        Err(StoreError::WrongValue)
    );
    assert_eq!(
        causal::check_get(values_reply("GET_RESP", "K", &["A", "B", "C"], None), "K", &expected),
        Err(StoreError::WrongValue)
    );
}

#[test]
fn read_without_expectation_accepts_any_values() {
    let (values, context) =
        causal::check_get(values_reply("GET_RESP", "K", &["x", "y"], None), "K", &None).unwrap();
    assert_eq!(values, texts(&["x", "y"]));
    assert_eq!(context, None);
    let empty = Some(Vec::new());
    assert!(causal::check_get(values_reply("GET_RESP", "K", &[], None), "K", &empty).is_ok());
}

#[test]
fn causal_read_errors() {
    assert_eq!(causal::check_get(None, "K", &None), Err(StoreError::NoResponse));
    assert_eq!(
        causal::check_get(values_reply("PUT_RESP", "K", &[], None), "K", &None),
        Err(StoreError::WrongType)
    );
    let unreadable = Some(ValuesReply { tag: "GET_RESP".to_string(), body: None });
    assert_eq!(causal::check_get(unreadable, "K", &None), Err(StoreError::Malformed));
    assert_eq!(
        causal::check_get(values_reply("GET_RESP", "J", &[], None), "K", &None),
        Err(StoreError::WrongKey)
    );
}

#[test]
fn write_hands_out_values_and_context() {
    let (values, context) =
        causal::check_put(values_reply("PUT_RESP", "K", &["A", "B"], Some("c1")), "K").unwrap();
    assert_eq!(values, texts(&["A", "B"]));
    assert_eq!(context, "c1");
    assert_eq!(causal::check_put(None, "K"), Err(StoreError::NoResponse));
    assert_eq!(
        causal::check_put(values_reply("GET_RESP", "K", &["A"], Some("c")), "K"),
        Err(StoreError::WrongType)
    );
    assert_eq!(
        causal::check_put(values_reply("PUT_RESP", "K", &["A"], None), "K"),
        Err(StoreError::Malformed)
    );
    assert_eq!(
        causal::check_put(values_reply("PUT_RESP", "J", &["A"], Some("c")), "K"),
        Err(StoreError::WrongKey)
    );
}

#[test]
fn single_value_and_sibling_count() {
    assert_eq!(check_single(&texts(&["v"]), "v"), Ok(true));
    assert_eq!(check_single(&texts(&["w"]), "v"), Err(StoreError::WrongValue));
    assert_eq!(check_single(&texts(&["v", "v"]), "v"), Err(StoreError::NotSingle));
    assert_eq!(check_single(&texts(&[]), "v"), Err(StoreError::NotSingle));
    assert_eq!(check_count(&texts(&["a", "b"]), 2), Ok(true));
    assert_eq!(check_count(&texts(&["a"]), 2), Err(StoreError::NotSingle));
}

#[test]
fn carts_merge_to_the_union_of_both_branches() {
    let expected = texts(&["milk", "eggs", "flour", "ham", "bacon"]);
    assert_eq!(check_cart(&texts(&["eggs,ham,milk,flour,bacon"]), &expected), Ok(true));
    assert_eq!(check_cart(&texts(&["milk,flour,bacon"]), &expected), Err(StoreError::WrongValue));
    assert_eq!(
        check_cart(&texts(&["milk,eggs,flour,ham,bacon,wine"]), &expected),
        Err(StoreError::WrongValue)
    );
    assert_eq!(
        check_cart(&texts(&["milk,flour,bacon", "eggs,ham"]), &expected),
        Err(StoreError::NotSingle)
    );
    assert_eq!(check_cart(&texts(&[]), &expected), Err(StoreError::NotSingle));
}

#[test]
fn cart_values_and_items() {
    assert_eq!(cart_items("beer,snacks"), texts(&["beer", "snacks"]));
    assert_eq!(cart_text(&texts(&["beer", "snacks", "milk"])), "beer,snacks,milk");
    assert_eq!(cart_with("beer,snacks,milk", "eggs"), "beer,snacks,milk,eggs");
    assert_eq!(cart_with("", "eggs"), ",eggs");
}

#[test]
fn preference_list_is_three_nodes_in_a_ring() {
    assert_eq!(preference_list(0, 6), texts(&["0", "1", "2"]));
    assert_eq!(preference_list(4, 6), texts(&["4", "5", "0"]));
    assert_eq!(preference_list(5, 6), texts(&["5", "0", "1"]));
    assert_eq!(preference_list(6 * 1000 + 3, 6), texts(&["3", "4", "5"]));
    assert_eq!(preference_list(u128::MAX, 10), texts(&["5", "6", "7"]));
    assert_eq!(preference_list(7, 1), texts(&["0", "0", "0"]));
    assert_eq!(preference_list(7, 2), texts(&["1", "0", "1"]));
}

#[test]
fn key_is_placed_by_its_md5_read_little_endian() {
    // md5("") = d41d8cd98f00b204e9800998ecf8427e
    let digest: [u8; 16] = [
        0xd4, 0x1d, 0x8c, 0xd9, 0x8f, 0x00, 0xb2, 0x04, 0xe9, 0x80, 0x09, 0x98, 0xec, 0xf8, 0x42,
        0x7e,
    ];
    let hash = u128::from_le_bytes(digest);
    for n in [1u32, 3, 6, 10, 97] {
        assert_eq!(key_replicas("", n), preference_list(hash, n));
    }
    // md5("a") = 0cc175b9c0f1b6a831c399e269772661
    let digest: [u8; 16] = [
        0x0c, 0xc1, 0x75, 0xb9, 0xc0, 0xf1, 0xb6, 0xa8, 0x31, 0xc3, 0x99, 0xe2, 0x69, 0x77, 0x26,
        0x61,
    ];
    let hash = u128::from_le_bytes(digest);
    assert_eq!(key_replicas("a", 6), preference_list(hash, 6));
    assert_ne!(u128::from_be_bytes(digest) % 6, hash % 6);
    let start = (hash % 6) as u32;
    assert_eq!(key_replicas("a", 6)[0], start.to_string());
}

#[test]
fn replicas_and_the_rest_split_the_cluster() {
    let nodes: Vec<String> = (0..6).map(|n| n.to_string()).collect();
    let replicas = key_replicas("KEY", 6);
    let others = non_replicas(&nodes, &replicas);
    assert_eq!(others.len(), 3);
    for n in &nodes {
        assert_ne!(replicas.contains(n), others.contains(n));
        assert_eq!(holds_key(n, "KEY", 6), replicas.contains(n));
    }
    assert_eq!(non_replicas(&texts(&["0", "1", "2", "3"]), &texts(&["3", "0", "1"])), texts(&["2"]));
}

#[test]
fn random_strings_are_reproducible_and_made_of_symbols() {
    let mut rng = rand_pcg::Pcg64::seed_from_u64(2021);
    let a = random_string(8, &mut rng);
    let b = random_string(8, &mut rng);
    assert_eq!(a.len(), 8);
    assert!(a.chars().all(|c| c.is_ascii_lowercase() || c.is_ascii_digit()));
    assert_ne!(a, b);
    let mut again = rand_pcg::Pcg64::seed_from_u64(2021);
    assert_eq!(random_string(8, &mut again), a);
    assert_eq!(random_string(8, &mut again), b);
    assert_eq!(random_string(0, &mut again), "");
}
