//! The store that keeps boards in memory.

use pinz::model::Board;
use pinz::store::{MemoryStore, Store, StoreError};

#[test]
fn seeded_store_loads_three_boards() {
    let mut store = MemoryStore::seeded();
    let boards = store.load().unwrap();
    assert_eq!(boards.len(), 3);
    assert!(boards.iter().all(|b| !b.notes.is_empty()));
}

#[test]
fn deleting_a_board_drops_it_from_the_store() {
    let mut store = MemoryStore::empty();
    store
        .save(&[Board::new("ideas"), Board::new("scratch")])
        .unwrap();
    store.delete_board("scratch").unwrap();
    let names: Vec<String> = store.load().unwrap().into_iter().map(|b| b.name).collect();
    assert_eq!(names, ["ideas"]);
}

#[test]
fn deleting_a_board_that_is_not_there_is_not_found() {
    let mut store = MemoryStore::empty();
    store.save(&[Board::new("ideas")]).unwrap();
    assert!(matches!(
        store.delete_board("ghost"),
        Err(StoreError::NotFound(_))
    ));
}

#[test]
fn save_then_load_round_trips() {
    let mut store = MemoryStore::empty();
    let boards = vec![Board::new("scratch")];
    store.save(&boards).unwrap();
    assert_eq!(store.load().unwrap(), boards);
}
