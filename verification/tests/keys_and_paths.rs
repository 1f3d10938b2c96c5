use zshare::path::topic_key;
use zshare::path::topic_text;
use zshare::Address;
use zshare::Error;
use zshare::KeyExpr;
use zshare::{get_data_path, get_instance_path, get_update_path};

fn key(text: &str) -> KeyExpr {
    KeyExpr::new(text).unwrap()
}

#[test]
fn key_expr_keeps_its_text() {
    assert_eq!(key("workspace").as_str(), "workspace");
    assert_eq!(key("some/workspace").as_str(), "some/workspace");
    assert_eq!(key("a/*/b").as_str(), "a/*/b");
    assert_eq!(key("a/**").as_str(), "a/**");
}

#[test]
fn key_expr_refuses_empty_text() {
    assert_eq!(KeyExpr::new("").unwrap_err(), Error::Address);
}

#[test]
fn key_expr_refuses_empty_chunks() {
    assert_eq!(KeyExpr::new("a//b").unwrap_err(), Error::Address);
    assert_eq!(KeyExpr::new("/a").unwrap_err(), Error::Address);
    assert_eq!(KeyExpr::new("a/").unwrap_err(), Error::Address);
}

#[test]
fn key_expr_refuses_reserved_characters() {
    assert_eq!(KeyExpr::new("a#b").unwrap_err(), Error::Address);
    assert_eq!(KeyExpr::new("a?b").unwrap_err(), Error::Address);
    assert_eq!(KeyExpr::new("a$b").unwrap_err(), Error::Address);
    assert_eq!(KeyExpr::new("a*b").unwrap_err(), Error::Address);
}

#[test]
fn key_expr_refuses_what_is_not_canonical() {
    assert_eq!(KeyExpr::new("a/**/**").unwrap_err(), Error::Address);
    assert_eq!(KeyExpr::new("a/**/*").unwrap_err(), Error::Address);
}

#[test]
fn key_expr_same_compares_texts() {
    assert!(key("a/b").same(&key("a/b")));
    assert!(!key("a/b").same(&key("a/c")));
    assert_eq!(key("a/b"), key("a/b").clone());
}

#[test]
fn topic_text_joins_with_slashes() {
    assert_eq!(topic_text("ws", "counter", "id", "data"), "ws/counter/id/data");
    assert_eq!(topic_text("", "", "", ""), "///");
    assert_eq!(topic_text("a/b", "c", "d", "e"), "a/b/c/d/e");
}

#[test]
fn topic_key_checks_the_joined_text() {
    assert_eq!(topic_key("ws", "counter", "id", "data").unwrap().as_str(), "ws/counter/id/data");
    assert_eq!(topic_key("ws", "", "id", "data").unwrap_err(), Error::Address);
    assert_eq!(topic_key("ws", "a#", "id", "data").unwrap_err(), Error::Address);
}

#[test]
fn paths_follow_the_naming() {
    let ws = key("ws");
    let name = key("counter");
    let id = key("0b7c");
    assert_eq!(get_data_path(&ws, &id, &name).unwrap().as_str(), "ws/counter/0b7c/data");
    assert_eq!(get_update_path(&ws, &id, &name).unwrap().as_str(), "ws/counter/0b7c/update");
    assert_eq!(get_instance_path(&ws, &id, &name).unwrap().as_str(), "ws/counter/0b7c/instance");
}

#[test]
fn paths_of_a_deep_workspace() {
    let ws = key("org/site");
    let name = key("door/state");
    let id = key("i1");
    assert_eq!(get_data_path(&ws, &id, &name).unwrap().as_str(), "org/site/door/state/i1/data");
}

#[test]
fn paths_of_one_address_differ() {
    let ws = key("ws");
    let name = key("counter");
    let id = key("id");
    let data = get_data_path(&ws, &id, &name).unwrap();
    let update = get_update_path(&ws, &id, &name).unwrap();
    let instance = get_instance_path(&ws, &id, &name).unwrap();
    assert_ne!(data, update);
    assert_ne!(data, instance);
    assert_ne!(update, instance);
}

#[test]
fn paths_differ_between_instances() {
    let ws = key("ws");
    let name = key("counter");
    let a = get_update_path(&ws, &key("a"), &name).unwrap();
    let b = get_update_path(&ws, &key("b"), &name).unwrap();
    assert_ne!(a, b);
}

#[test]
fn paths_refuse_what_does_not_join() {
    let stars = key("**");
    let name = key("counter");
    let id = key("id");
    assert_eq!(get_data_path(&stars, &id, &stars).unwrap_err(), Error::Address);
    assert_eq!(get_update_path(&stars, &id, &stars).unwrap_err(), Error::Address);
    assert_eq!(get_instance_path(&stars, &id, &stars).unwrap_err(), Error::Address);
    assert_eq!(get_data_path(&stars, &id, &name).unwrap().as_str(), "**/counter/id/data");
}

#[test]
fn address_holds_the_three_topics() {
    let address = Address::new(&key("ws"), key("id"), key("counter")).unwrap();
    assert_eq!(address.workspace().as_str(), "ws");
    assert_eq!(address.instance().as_str(), "id");
    assert_eq!(address.name().as_str(), "counter");
    assert_eq!(address.data_path().as_str(), "ws/counter/id/data");
    assert_eq!(address.update_path().as_str(), "ws/counter/id/update");
    assert_eq!(address.instance_path().as_str(), "ws/counter/id/instance");
}

#[test]
fn address_refuses_what_does_not_join() {
    let stars = key("**");
    assert_eq!(Address::new(&stars, key("id"), key("**")).unwrap_err(), Error::Address);
}

#[test]
fn owner_and_view_compute_the_same_topics() {
    let for_owner = Address::new(&key("ws"), key("id"), key("counter")).unwrap();
    let for_view = Address::new(&key("ws"), key("id"), key("counter")).unwrap();
    assert_eq!(for_owner.data_path(), for_view.data_path());
    assert_eq!(for_owner.update_path(), for_view.update_path());
    assert_eq!(for_owner.instance_path(), for_view.instance_path());
}

fn simple(text: &[char]) -> bool {
    (0..text.len()).all(|i| {
        let c = text[i];
        c != '$'
            && c != '#'
            && c != '?'
            && (c != '*'
                || ((i == 0 || text[i - 1] == '/')
                    && (i == text.len() - 1 || text[i + 1] == '/')))
    })
}

fn well_parted(text: &[char]) -> bool {
    !text.is_empty()
        && text[0] != '/'
        && text[text.len() - 1] != '/'
        && (0..text.len() - 1).all(|i| !(text[i] == '/' && text[i + 1] == '/'))
}

#[test]
fn simple_texts_are_accepted_exactly_when_no_chunk_is_empty() {
    let alphabet = ['a', '/', '*', '$', '#', '?', '-', '\u{e9}'];
    let mut texts: Vec<Vec<char>> = vec![vec![]];
    let mut start = 0;
    for _ in 0..5 {
        let end = texts.len();
        for i in start..end {
            for c in alphabet {
                let mut longer = texts[i].clone();
                longer.push(c);
                texts.push(longer);
            }
        }
        start = end;
    }
    let mut simple_ones = 0;
    for text in &texts {
        if simple(text) {
            simple_ones += 1;
            let written: String = text.iter().collect();
            assert_eq!(KeyExpr::new(&written).is_ok(), well_parted(text), "{:?}", written);
        }
    }
    assert!(simple_ones > 1000);
}

#[test]
fn simple_texts_of_whole_chunks_are_accepted() {
    for text in ["a", "a b", "x-y.z", "caf\u{e9}/au lait", "*", "a/*", "*/a", "a/*/b", "0/1/2"] {
        assert_eq!(key(text).as_str(), text);
    }
}

#[test]
fn simple_addresses_always_join() {
    for (ws, id, name) in [("ws", "id", "n"), ("a/b", "c-d", "e f/g"), ("*", "*", "*")] {
        let address = Address::new(&key(ws), key(id), key(name)).unwrap();
        assert_eq!(address.data_path().as_str(), format!("{}/{}/{}/data", ws, name, id));
    }
}
