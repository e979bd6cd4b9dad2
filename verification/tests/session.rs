use mem_yaml::deck::{
    default_algorithm, default_retention, partial_display, CardItem, Deck, FsrsOption,
    RepeatAlgorithm,
};
use mem_yaml::learning::Difficulty;
use mem_yaml::lock::{update_lock_item_list, LockItem};
use mem_yaml::session::{check_ids_unique, RunningCore};

fn card(name: &str, content: &str) -> CardItem {
    CardItem { name: name.to_string(), glance: None, content: content.to_string(), tags: None }
}

fn deck(cards: &[&str]) -> Deck {
    Deck {
        name: "test deck".to_string(),
        description: None,
        card_files: cards.iter().map(|s| s.to_string()).collect(),
        algorithm: RepeatAlgorithm::Fsrs,
        fsrs_option: None,
    }
}

fn start(cards: Vec<CardItem>, items: Vec<LockItem>) -> RunningCore {
    assert!(check_ids_unique(&items));
    RunningCore::new(deck(&["cards_1.yml"]), cards, items).expect("model builds")
}

#[test]
fn defaults_match_the_deck_conventions() {
    assert_eq!(default_retention(), "0.75");
    assert!(matches!(default_algorithm(), RepeatAlgorithm::Fsrs));
}

#[test]
fn retention_prefers_the_deck_option() {
    let mut d = deck(&[]);
    assert_eq!(d.retention(), "0.75");
    d.fsrs_option = Some(FsrsOption { retention: "0.9".to_string() });
    assert_eq!(d.retention(), "0.9");
}

#[test]
fn partial_display_shows_name_and_glance() {
    let plain = card("question", "answer");
    assert_eq!(partial_display(&plain), "question\n");
    let mut glanced = card("question", "answer");
    glanced.glance = Some("a hint".to_string());
    assert_eq!(partial_display(&glanced), "question\nglance: a hint\n");
}

#[test]
fn check_ids_unique_spots_duplicates() {
    let a = LockItem::new_from_card(&card("a", "1"));
    let b = LockItem::new_from_card(&card("b", "2"));
    assert!(check_ids_unique(&vec![]));
    assert!(check_ids_unique(&vec![a.clone(), b.clone()]));
    assert!(!check_ids_unique(&vec![a.clone(), b, a]));
}

#[test]
fn card_for_finds_by_identity() {
    let cards = vec![card("a", "1"), card("b", "2")];
    let items = update_lock_item_list(Vec::new(), &cards);
    let core = start(cards, items);
    assert_eq!(core.deck().name, "test deck");
    let id = card("b", "2").get_id();
    let found = core.card_for(id).expect("card b is present");
    assert_eq!(found.name, "b");
    assert!(core.card_for(card("c", "3").get_id()).is_none());
}

#[test]
fn pick_due_skips_ignored_and_not_due() {
    let cards = vec![card("a", "1"), card("b", "2")];
    let mut items = update_lock_item_list(Vec::new(), &cards);
    // ignore every entry: nothing can be picked at any instant
    for item in items.iter_mut() {
        item.ignored = true;
    }
    let core = start(cards.clone(), items);
    assert!(core.pick_due_at(0, 0).is_none());
    assert!(core.random_on_time().is_none());

    // one unreviewed entry stays eligible: it is always picked
    let mut items = update_lock_item_list(Vec::new(), &cards);
    let a_id = card("a", "1").get_id();
    for item in items.iter_mut() {
        if item.get_id() != a_id {
            item.ignored = true;
        }
    }
    let core = start(cards, items);
    let picked = core.pick_due_at(0, 7).expect("a is due");
    assert_eq!(picked.get_id(), a_id);
    assert!(!picked.ignored);
    let picked = core.random_on_time().expect("a is always due");
    assert_eq!(picked.get_id(), a_id);
}

#[test]
fn record_outcome_updates_one_entry_and_keeps_the_rest() {
    let cards = vec![card("a", "1"), card("b", "2")];
    let items = update_lock_item_list(Vec::new(), &cards);
    let mut core = start(cards, items);
    let a_id = card("a", "1").get_id();
    let b_id = card("b", "2").get_id();

    let before = chrono::Utc::now().timestamp();
    core.next_state(a_id, Difficulty::Good).expect("model answers");
    let after = chrono::Utc::now().timestamp();

    let snapshot = core.items_snapshot();
    assert_eq!(snapshot.len(), 2);
    for item in &snapshot {
        if item.get_id() == a_id {
            let st = item.state.as_ref().expect("a was reviewed");
            assert!(st.last_reviewed >= before && st.last_reviewed <= after);
        } else {
            assert_eq!(item.get_id(), b_id);
            assert!(item.state.is_none());
        }
    }
}

#[test]
fn record_outcome_with_bad_retention_leaves_ledger_alone() {
    let cards = vec![card("a", "1")];
    let items = update_lock_item_list(Vec::new(), &cards);
    let mut d = deck(&["cards_1.yml"]);
    d.fsrs_option = Some(FsrsOption { retention: "broken".to_string() });
    let mut core = RunningCore::new(d, cards.clone(), items.clone()).expect("model builds");
    let a_id = card("a", "1").get_id();
    assert!(core.next_state(a_id, Difficulty::Again).is_err());
    assert_eq!(core.items_snapshot(), items);
}

#[test]
fn ignore_marks_the_entry_and_keeps_state() {
    let cards = vec![card("a", "1"), card("b", "2")];
    let items = update_lock_item_list(Vec::new(), &cards);
    let mut core = start(cards, items);
    let a_id = card("a", "1").get_id();

    core.next_state(a_id, Difficulty::Hard).expect("model answers");
    core.set_ignored(a_id);

    let snapshot = core.items_snapshot();
    for item in &snapshot {
        if item.get_id() == a_id {
            assert!(item.ignored);
            assert!(item.state.is_some(), "ignoring keeps the memory state");
        } else {
            assert!(!item.ignored);
        }
    }
    // an ignored card is never offered again, due or not
    assert!(core.pick_due_at(i64::MAX, 0).map(|i| i.get_id()) != Some(a_id));
}

#[test]
fn session_round_trip_snapshot_reconciles_to_itself() {
    let cards = vec![card("a", "1"), card("b", "2"), card("c", "3")];
    let items = update_lock_item_list(Vec::new(), &cards);
    let mut core = start(cards.clone(), items);
    core.next_state(card("b", "2").get_id(), Difficulty::Easy).expect("model answers");
    let snapshot = core.items_snapshot();
    // what a later run would load and reconcile equals what this run wrote
    let reloaded = update_lock_item_list(snapshot.clone(), &cards);
    assert_eq!(reloaded, snapshot);
}
