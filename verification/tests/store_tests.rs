use callbreak::Game;
use callbreak::GameError;
use callbreak::store::GameOp;
use callbreak::store::VersionedStore;
use callbreak::store::execute;

fn two_player_game() -> Game {
    let mut g = Game::new();
    g.add_player(&"alice1".to_string()).unwrap();
    g.add_player(&"bob22".to_string()).unwrap();
    g
}

#[test]
fn losing_transaction_is_rejected_and_recomputes() {
    let mut store = VersionedStore::new();
    store.put(two_player_game());

    // Two transactions watch the same key and read the same snapshot.
    let watch_a = store.watch();
    let mut game_a = store.load().unwrap();
    let watch_b = store.watch();
    let mut game_b = store.load().unwrap();
    assert_eq!(game_a.player_count(), 2);
    assert_eq!(game_b.player_count(), 2);

    // The first commits.
    game_a.add_player(&"carol3".to_string()).unwrap();
    assert!(store.commit(watch_a, game_a));

    // The second's commit must be rejected: its snapshot is stale.
    game_b.add_player(&"dave44".to_string()).unwrap();
    assert!(!store.commit(watch_b, game_b));

    // It retries from scratch, recomputing against the fresh state: the
    // first commit is never silently overwritten.
    let watch_retry = store.watch();
    let mut game_retry = store.load().unwrap();
    assert_eq!(game_retry.player_count(), 3);
    assert_eq!(game_retry.add_player(&"dave44".to_string()), Ok(4));
    assert!(store.commit(watch_retry, game_retry));

    let end = store.load().unwrap();
    assert_eq!(end.player_count(), 4);
    assert_eq!(end.player_id(0), "alice1");
    assert_eq!(end.player_id(1), "bob22");
    assert_eq!(end.player_id(2), "carol3");
    assert_eq!(end.player_id(3), "dave44");
}

#[test]
fn commit_at_the_watched_version_succeeds_once() {
    let mut store = VersionedStore::new();
    let watched = store.watch();
    assert!(store.commit(watched, two_player_game()));
    // The same watermark cannot commit twice.
    assert!(!store.commit(watched, two_player_game()));
}

#[test]
fn execute_on_an_empty_store_reports_game_not_found() {
    let mut store = VersionedStore::new();
    let r = execute(&mut store, &GameOp::AddPlayer("alice1".to_string()));
    assert_eq!(r, Err(GameError::GameNotFound));
    assert!(store.load().is_none());
}

#[test]
fn execute_commits_accepted_operations_only() {
    let mut store = VersionedStore::new();
    store.put(two_player_game());
    let before = store.watch();

    // A rejected operation commits nothing.
    let r = execute(&mut store, &GameOp::AddPlayer("alice1".to_string()));
    assert_eq!(r, Err(GameError::IdentityConflict));
    assert_eq!(store.watch(), before);
    let r = execute(&mut store, &GameOp::StartRound);
    assert_eq!(r, Err(GameError::NotEnoughPlayers));
    assert_eq!(store.watch(), before);

    // Accepted operations advance the stored state.
    execute(&mut store, &GameOp::AddPlayer("carol3".to_string())).unwrap();
    execute(&mut store, &GameOp::AddPlayer("dave44".to_string())).unwrap();
    execute(&mut store, &GameOp::StartRound).unwrap();
    let g = store.load().unwrap();
    assert_eq!(g.player_count(), 4);
    assert_eq!(g.round_count(), 1);

    // Turn checking holds through the store as well.
    let r = execute(&mut store, &GameOp::Call("bob22".to_string(), 2));
    assert_eq!(r, Err(GameError::OutOfTurn));
    let r = execute(&mut store, &GameOp::Call("alice1".to_string(), 2));
    assert_eq!(r, Ok(()));
    let g = store.load().unwrap();
    assert_eq!(g.round_at(0).calls(), &vec![2u8]);
}
