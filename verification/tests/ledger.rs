use mem_yaml::deck::CardItem;
use mem_yaml::learning::MemoryState;
use mem_yaml::lock::{find_by_id, update_lock_item_list, CardItemIdentify, LockItem};
use uuid::Uuid;

fn card(name: &str, content: &str) -> CardItem {
    CardItem { name: name.to_string(), glance: None, content: content.to_string(), tags: None }
}

fn reviewed_state(last_reviewed: i64, interval: f32, stability: f32, difficulty: f32) -> MemoryState {
    MemoryState {
        last_reviewed,
        interval: interval.to_bits(),
        item: fsrs::ItemState {
            memory: fsrs::MemoryState { stability, difficulty },
            interval,
        },
    }
}

#[test]
fn test_update_lock_item_list() {
    // name1: 65c5dc60-15a2-5411-8cfe-8fd050fcbb9b
    let name1 = Uuid::new_v5(&Uuid::NAMESPACE_OID, b"name_1").as_u128();
    // content1: a5351c64-fc3b-5239-9165-87a3dff27aef
    let content1 = Uuid::new_v5(&Uuid::from_u128(name1), b"content_1").as_u128();
    // name2: 8cc977b5-92e0-5792-b446-39c3acace751
    let name2 = Uuid::new_v5(&Uuid::NAMESPACE_OID, b"name_2").as_u128();
    // content2: 8e3da27b-cd19-5c09-b47d-4566371808e1
    let content2 = Uuid::new_v5(&Uuid::from_u128(name2), b"content_2").as_u128();
    // name3: 132c985a-1de4-5e57-8352-f8659cfdbe00
    let name3 = Uuid::new_v5(&Uuid::NAMESPACE_OID, b"name_3").as_u128();
    // content3: ff758803-89c6-566b-980c-b9e84de16acf
    let content3 = Uuid::new_v5(&Uuid::from_u128(name3), b"content_3").as_u128();

    let old_list = vec![
        LockItem { name: name2, content: content2, state: None, ignored: false },
        LockItem {
            name: name1,
            content: content1,
            state: Some(reviewed_state(0, 0.3, 0.4, 0.5)),
            ignored: false,
        },
    ];
    let new_content = vec![card("name_1", "content_1"), card("name_3", "content_3")];
    let new_list = update_lock_item_list(old_list, &new_content);

    assert_eq!(new_list.len(), 2);

    assert_eq!(new_list[0].name, name3);
    assert_eq!(new_list[0].content, content3);
    assert_eq!(new_list[1].name, name1);
    assert_eq!(new_list[1].content, content1);

    assert!(new_list[1].state.is_some());

    let state = new_list[1].state.as_ref().unwrap();
    assert_eq!(state.last_reviewed, 0);
    assert_eq!(state.interval, 0.3f32.to_bits());
    assert_eq!(state.item.memory.stability, 0.4);
    assert_eq!(state.item.memory.difficulty, 0.5);
}

#[test]
fn identify_matches_name_based_uuids() {
    let c = card("hello", "world");
    let id = c.get_id();
    let expected_name = Uuid::new_v5(&Uuid::NAMESPACE_OID, "hello".as_bytes());
    let expected_content = Uuid::new_v5(&expected_name, "world".as_bytes());
    assert_eq!(id.0, expected_name.as_u128());
    assert_eq!(id.1, expected_content.as_u128());
}

#[test]
fn identify_is_deterministic_and_sensitive() {
    let a = CardItem {
        name: "hello".to_string(),
        glance: Some("a glance".to_string()),
        content: "world".to_string(),
        tags: Some(vec!["t".to_string()]),
    };
    let b = card("hello", "world");
    // glance and tags play no part in the identity
    assert_eq!(a.get_id(), b.get_id());
    // either field changing changes the identity
    assert_ne!(card("hello!", "world").get_id(), b.get_id());
    assert_ne!(card("hello", "world!").get_id(), b.get_id());
    // swapping name and content changes the identity too
    assert_ne!(card("world", "hello").get_id(), b.get_id());
}

#[test]
fn new_from_card_starts_fresh() {
    let c = card("a", "b");
    let item = LockItem::new_from_card(&c);
    let id = c.get_id();
    assert_eq!(item.name, id.0);
    assert_eq!(item.content, id.1);
    assert!(item.state.is_none());
    assert!(!item.ignored);
    assert_eq!(item.get_id(), id);
}

#[test]
fn reconcile_preserves_drops_and_adds() {
    // old ledger: A reviewed, B unreviewed; new set: A and C.
    let a = card("A", "body a");
    let b = card("B", "body b");
    let c = card("C", "body c");
    let a_id = a.get_id();
    let b_id = b.get_id();
    let c_id = c.get_id();
    let old_list = vec![
        LockItem {
            name: a_id.0,
            content: a_id.1,
            state: Some(reviewed_state(1000, 2.5, 1.5, 3.0)),
            ignored: true,
        },
        LockItem { name: b_id.0, content: b_id.1, state: None, ignored: false },
    ];
    let new_list = update_lock_item_list(old_list, &vec![a.clone(), c.clone()]);

    assert_eq!(new_list.len(), 2);
    // B is gone
    assert!(find_by_id(&new_list, b_id).is_none());
    // A kept its state and its ignored flag verbatim
    let ka = find_by_id(&new_list, a_id).unwrap();
    let a_entry = &new_list[ka];
    assert!(a_entry.ignored);
    let st = a_entry.state.as_ref().unwrap();
    assert_eq!(st.last_reviewed, 1000);
    assert_eq!(st.interval, 2.5f32.to_bits());
    assert_eq!(st.item.memory.stability, 1.5);
    assert_eq!(st.item.memory.difficulty, 3.0);
    // C is fresh
    let kc = find_by_id(&new_list, c_id).unwrap();
    assert!(new_list[kc].state.is_none());
    assert!(!new_list[kc].ignored);
    // sorted by the primary hash component
    assert!(new_list[0].name <= new_list[1].name);
}

#[test]
fn reconcile_twice_is_idempotent() {
    let cards = vec![card("x", "1"), card("y", "2"), card("z", "3")];
    let once = update_lock_item_list(Vec::new(), &cards);
    assert_eq!(once.len(), 3);
    let twice = update_lock_item_list(once.clone(), &cards);
    assert_eq!(once, twice);
}

#[test]
fn reconcile_is_deterministic_across_runs() {
    let cards = vec![card("x", "1"), card("y", "2"), card("z", "3")];
    let old_list = update_lock_item_list(Vec::new(), &vec![card("y", "2"), card("w", "4")]);
    let first = update_lock_item_list(old_list.clone(), &cards);
    let second = update_lock_item_list(old_list, &cards);
    assert_eq!(first, second);
    // and the persisted order is sorted by the primary hash component
    for pair in first.windows(2) {
        assert!(pair[0].name <= pair[1].name);
    }
}

#[test]
fn reconcile_empty_cases() {
    let cards = vec![card("x", "1")];
    // empty old ledger: every card becomes a fresh entry
    let fresh = update_lock_item_list(Vec::new(), &cards);
    assert_eq!(fresh.len(), 1);
    assert!(fresh[0].state.is_none());
    // empty card set: the ledger empties
    let emptied = update_lock_item_list(fresh, &Vec::new());
    assert!(emptied.is_empty());
}

#[test]
fn reconcile_duplicate_cards_keep_one_entry() {
    let cards = vec![card("x", "1"), card("x", "1"), card("y", "2")];
    let list = update_lock_item_list(Vec::new(), &cards);
    assert_eq!(list.len(), 2);
}

#[test]
fn find_by_id_misses_absent_identity() {
    let list = update_lock_item_list(Vec::new(), &vec![card("x", "1")]);
    assert!(find_by_id(&list, CardItemIdentify(1, 2)).is_none());
    let id = card("x", "1").get_id();
    assert_eq!(find_by_id(&list, id), Some(0));
}
