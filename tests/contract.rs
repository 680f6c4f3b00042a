use near_sdk::test_utils::accounts;
use smart_contract::contract::{ChatError, Contract};

fn name(i: usize) -> String {
    accounts(i).to_string()
}

fn two_friends() -> Contract {
    let mut contract = Contract::new();
    assert!(contract.register(name(2)));
    assert!(contract.register(name(3)));
    assert_eq!(contract.add_friend_as(name(2), name(3)), Ok(()));
    contract
}

#[test]
fn test_new() {
    let contract = Contract::new();
    assert_eq!(contract.get_users_length(), 0);
}

#[test]
fn test_create_account() {
    let user = name(2);
    let mut contract = Contract::new();

    let is_valid_user = contract.register(user.clone());
    assert!(is_valid_user);

    let is_valid_user = contract.is_registered(&user);
    assert!(is_valid_user);

    let users = contract.get_users(None, None);
    let is_valid_user = users.contains(&&user);
    assert!(is_valid_user);
}

#[test]
fn test_add_friend() {
    let user = name(2);
    let friend = name(3);
    let mut contract = Contract::new();

    let is_valid_user = contract.register(user.clone());
    assert!(is_valid_user);

    let is_valid_user = contract.register(friend.clone());
    assert!(is_valid_user);

    assert_eq!(contract.get_users_length(), 2);

    assert_eq!(contract.add_friend_as(user.clone(), friend.clone()), Ok(()));
    let is_friend_added = contract.are_friends(&user, &friend);
    assert!(is_friend_added);
}

#[test]
fn test_send_message() {
    let user = name(2);
    let friend = name(3);
    let mut contract = two_friends();

    let chat_id = contract
        .send_message_as(user.clone(), friend.clone(), "Hello World!".to_string(), 0)
        .unwrap();
    assert_eq!(chat_id, contract.get_chat_id(user.clone(), friend.clone()));
    let is_message_added = contract.get_messages(user, friend, None, None).is_ok();
    assert!(is_message_added);
}

#[test]
fn register_twice_is_idempotent() {
    let mut contract = Contract::new();
    assert!(contract.register("alice".to_string()));
    assert_eq!(contract.get_users_length(), 1);
    assert!(!contract.register("alice".to_string()));
    assert_eq!(contract.get_users_length(), 1);
}

#[test]
fn friendship_is_symmetric_and_readding_is_a_no_op() {
    let mut contract = two_friends();
    assert!(contract.are_friends(&name(2), &name(3)));
    assert!(contract.are_friends(&name(3), &name(2)));
    assert_eq!(contract.add_friend_as(name(2), name(3)), Ok(()));
    assert_eq!(contract.add_friend_as(name(3), name(2)), Ok(()));
    assert!(contract.are_friends(&name(2), &name(3)));
    assert!(!contract.are_friends(&name(2), &name(2)));
}

#[test]
fn add_friend_errors() {
    let mut contract = Contract::new();
    assert!(contract.register("alice".to_string()));
    assert_eq!(
        contract.add_friend_as("mallory".to_string(), "alice".to_string()),
        Err(ChatError::Unauthorized)
    );
    assert_eq!(
        contract.add_friend_as("alice".to_string(), "mallory".to_string()),
        Err(ChatError::InvalidTarget)
    );
    assert_eq!(
        contract.add_friend_as("alice".to_string(), "alice".to_string()),
        Err(ChatError::SelfReference)
    );
    assert!(!contract.are_friends(&"alice".to_string(), &"mallory".to_string()));
}

#[test]
fn channel_id_is_deterministic_and_ordered() {
    let contract = Contract::new();
    let ab = contract.get_chat_id("alice".to_string(), "bob".to_string());
    assert_eq!(ab, contract.get_chat_id("alice".to_string(), "bob".to_string()));
    assert_ne!(ab, contract.get_chat_id("bob".to_string(), "alice".to_string()));
    // only the concatenation counts
    assert_eq!(ab, contract.get_chat_id("alic".to_string(), "ebob".to_string()));
    assert_eq!(ab, near_sdk::env::keccak256_array(b"alicebob"));
}

#[test]
fn channel_id_of_empty_names_is_keccak_of_nothing() {
    let contract = Contract::new();
    let expected: [u8; 32] = [
        0xc5, 0xd2, 0x46, 0x01, 0x86, 0xf7, 0x23, 0x3c, 0x92, 0x7e, 0x7d, 0xb2, 0xdc, 0xc7, 0x03,
        0xc0, 0xe5, 0x00, 0xb6, 0x53, 0xca, 0x82, 0x27, 0x3b, 0x7b, 0xfa, 0xd8, 0x04, 0x5d, 0x85,
        0xa4, 0x70,
    ];
    assert_eq!(contract.get_chat_id(String::new(), String::new()), expected);
}

#[test]
fn send_message_is_gated() {
    let mut contract = Contract::new();
    assert!(contract.register("alice".to_string()));
    assert!(contract.register("bob".to_string()));
    assert!(contract.register("carol".to_string()));
    assert_eq!(
        contract.send_message_as("mallory".to_string(), "bob".to_string(), "hi".to_string(), 1),
        Err(ChatError::Unauthorized)
    );
    assert_eq!(
        contract.send_message_as("alice".to_string(), "mallory".to_string(), "hi".to_string(), 1),
        Err(ChatError::InvalidTarget)
    );
    assert_eq!(
        contract.send_message_as("alice".to_string(), "bob".to_string(), "hi".to_string(), 1),
        Err(ChatError::NoFriendsAtAll)
    );
    assert_eq!(contract.add_friend_as("alice".to_string(), "carol".to_string()), Ok(()));
    assert_eq!(
        contract.send_message_as("alice".to_string(), "bob".to_string(), "hi".to_string(), 1),
        Err(ChatError::NotFriend)
    );
    assert_eq!(
        contract.get_messages("alice".to_string(), "bob".to_string(), None, None).err(),
        Some(ChatError::NoSuchChannel)
    );
}

fn three_messages() -> Contract {
    let mut contract = two_friends();
    for (content, t) in [("m1", 10u64), ("m2", 20), ("m3", 30)] {
        assert!(contract.send_message_as(name(2), name(3), content.to_string(), t).is_ok());
    }
    contract
}

#[test]
fn messages_come_newest_first() {
    let contract = three_messages();
    let ms = contract.get_messages(name(2), name(3), Some(3), Some(0)).unwrap();
    let contents: Vec<&str> = ms.iter().map(|m| m.content.as_str()).collect();
    assert_eq!(contents, vec!["m3", "m2", "m1"]);
    let stamps: Vec<u64> = ms.iter().map(|m| m.created_at_ms).collect();
    assert_eq!(stamps, vec![30, 20, 10]);
    assert!(ms.iter().all(|m| m.author == name(2)));
}

#[test]
fn messages_page_of_one_after_one() {
    let contract = three_messages();
    let ms = contract.get_messages(name(2), name(3), Some(1), Some(1)).unwrap();
    assert_eq!(ms.len(), 1);
    assert_eq!(ms[0].content, "m2");
    let past_end = contract.get_messages(name(2), name(3), Some(5), Some(7)).unwrap();
    assert!(past_end.is_empty());
    let none = contract.get_messages(name(2), name(3), Some(0), None).unwrap();
    assert!(none.is_empty());
}

#[test]
fn empty_message_is_rejected() {
    let mut contract = three_messages();
    assert_eq!(
        contract.send_message_as(name(2), name(3), String::new(), 40),
        Err(ChatError::EmptyMessage)
    );
    let ms = contract.get_messages(name(2), name(3), None, None).unwrap();
    let contents: Vec<&str> = ms.iter().map(|m| m.content.as_str()).collect();
    assert_eq!(contents, vec!["m3", "m2", "m1"]);
}

#[test]
fn alice_and_bob_end_to_end() {
    let alice = "alice".to_string();
    let bob = "bob".to_string();
    let mut contract = Contract::new();
    assert!(contract.register(alice.clone()));
    assert!(contract.register(bob.clone()));
    assert_eq!(contract.add_friend_as(alice.clone(), bob.clone()), Ok(()));
    let c = contract.send_message_as(alice.clone(), bob.clone(), "hi".to_string(), 5).unwrap();
    assert_eq!(c, contract.get_chat_id(alice.clone(), bob.clone()));
    let ms = contract.get_messages(alice.clone(), bob.clone(), None, None).unwrap();
    assert_eq!(ms.len(), 1);
    assert_eq!(ms[0].author, alice);
    assert_eq!(ms[0].content, "hi");
    // the channel is keyed by the ordered pair, so the swapped order has none
    assert_eq!(
        contract.get_messages(bob.clone(), alice.clone(), None, None).err(),
        Some(ChatError::NoSuchChannel)
    );
}

#[test]
fn users_listed_latest_first_ten_by_default() {
    let mut contract = Contract::new();
    for i in 0..12 {
        assert!(contract.register(format!("user{}", i)));
    }
    assert_eq!(contract.get_users_length(), 12);
    let all = contract.get_users(None, None);
    assert_eq!(all.len(), 10);
    assert_eq!(all[0], "user11");
    assert_eq!(all[9], "user2");
    let tail = contract.get_users(Some(5), Some(10));
    let tail: Vec<&str> = tail.iter().map(|u| u.as_str()).collect();
    assert_eq!(tail, vec!["user1", "user0"]);
    assert!(contract.get_users(None, Some(12)).is_empty());
}

#[test]
fn default_page_holds_ten_messages() {
    let mut contract = two_friends();
    for i in 0..11u64 {
        assert!(contract.send_message_as(name(2), name(3), format!("n{}", i), i).is_ok());
    }
    let ms = contract.get_messages(name(2), name(3), None, None).unwrap();
    assert_eq!(ms.len(), 10);
    assert_eq!(ms[0].content, "n10");
    assert_eq!(ms[9].content, "n1");
}

#[test]
fn host_caller_drives_the_entry_points() {
    // the mocked host calls as bob.near at time zero
    let mut contract = Contract::new();
    assert!(contract.create_account());
    assert!(contract.is_registered(&"bob.near".to_string()));
    assert!(!contract.create_account());
    assert_eq!(contract.add_friend("alice.near".to_string()), Err(ChatError::InvalidTarget));
    assert!(contract.register("alice.near".to_string()));
    assert_eq!(contract.add_friend("alice.near".to_string()), Ok(()));
    assert!(contract.are_friends(&"alice.near".to_string(), &"bob.near".to_string()));
    let c = contract.send_message("alice.near".to_string(), "hello".to_string()).unwrap();
    assert_eq!(c, contract.get_chat_id("bob.near".to_string(), "alice.near".to_string()));
    let ms = contract
        .get_messages("bob.near".to_string(), "alice.near".to_string(), None, None)
        .unwrap();
    assert_eq!(ms.len(), 1);
    assert_eq!(ms[0].author, "bob.near");
    assert_eq!(ms[0].created_at_ms, 0);
}
