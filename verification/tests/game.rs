use slot_pool::clear::Clear;
use slot_pool::error::PoolError;
use slot_pool::game::run_game;
use slot_pool::game::Friend;
use slot_pool::game::Game;
use slot_pool::game::Player;
use slot_pool::ptr::Ptr;

fn told(friends: &[Friend]) -> Vec<(String, i32)> {
    friends.iter().map(|f| (f.name.clone(), f.health)).collect()
}

#[test]
fn run_game_tells_of_tom_and_carl() {
    let friends = run_game().unwrap();
    assert_eq!(
        told(&friends),
        vec![(String::from("Tom"), 20), (String::from("Carl"), 17)]
    );
}

#[test]
fn create_player_fills_the_slot() {
    let mut game = Game::new(2);
    let p = game.create_player("Eric", 10).unwrap();
    assert_eq!(p, Ptr::new(0));
    assert_eq!(game.player(p).unwrap().name, "Eric");
    assert_eq!(game.player(p).unwrap().health, 10);
    assert_eq!(game.player(p).unwrap().friends.iter(), Vec::<Ptr>::new());
    assert!(game.player(Ptr::new(1)).is_none());
}

#[test]
fn create_player_in_full_game_fails() {
    let mut game = Game::new(1);
    assert_eq!(game.create_player("Eric", 10), Ok(Ptr::new(0)));
    assert_eq!(game.create_player("Tom", 15), Err(PoolError::PoolExhausted));
    assert_eq!(game.player(Ptr::new(0)).unwrap().name, "Eric");
}

#[test]
fn make_friends_goes_both_ways() {
    let mut game = Game::new(3);
    let a = game.create_player("Eric", 10).unwrap();
    let b = game.create_player("Tom", 15).unwrap();
    game.make_friends(a, b);
    assert_eq!(game.player(a).unwrap().friends.iter(), vec![b]);
    assert_eq!(game.player(b).unwrap().friends.iter(), vec![a]);
    assert_eq!(told(&game.friends_of(b)), vec![(String::from("Eric"), 10)]);
}

#[test]
fn make_friends_with_absent_player() {
    let mut game = Game::new(3);
    let a = game.create_player("Eric", 10).unwrap();
    let nobody = Ptr::new(2);
    game.make_friends(a, nobody);
    assert_eq!(game.player(a).unwrap().friends.iter(), vec![nobody]);
    assert!(game.player(nobody).is_none());
    assert_eq!(told(&game.friends_of(a)), Vec::<(String, i32)>::new());
    assert_eq!(told(&game.friends_of(nobody)), Vec::<(String, i32)>::new());
}

#[test]
fn make_friends_with_oneself() {
    let mut game = Game::new(1);
    let a = game.create_player("Eric", 10).unwrap();
    game.make_friends(a, a);
    assert_eq!(game.player(a).unwrap().friends.iter(), vec![a, a]);
}

#[test]
fn eleventh_friend_finds_no_place() {
    let mut game = Game::new(12);
    let first = game.create_player("Eric", 10).unwrap();
    let mut others = Vec::new();
    for i in 0..11 {
        let p = game.create_player("Tom", i).unwrap();
        game.make_friends(first, p);
        others.push(p);
    }
    assert_eq!(game.player(first).unwrap().friends.iter(), others[..10].to_vec());
    assert_eq!(game.player(others[10]).unwrap().friends.iter(), vec![first]);
}

#[test]
fn player_mut_changes_one_player() {
    let mut game = Game::new(2);
    let a = game.create_player("Eric", 10).unwrap();
    let b = game.create_player("Tom", 15).unwrap();
    game.player_mut(b).unwrap().health = 20;
    assert_eq!(game.player(b).unwrap().health, 20);
    assert_eq!(game.player(a).unwrap().health, 10);
    assert!(game.player_mut(Ptr::new(5)).is_none());
}

#[test]
fn player_clone_is_a_separate_player() {
    let mut player = Player::default();
    player.init("Carl", 17);
    assert_eq!(player.friends.add(Ptr::new(4)), Ok(()));
    let mut copy = player.clone();
    assert_eq!(copy.name, "Carl");
    assert_eq!(copy.health, 17);
    assert_eq!(copy.friends.iter(), vec![Ptr::new(4)]);
    copy.init("Tom", 15);
    assert_eq!(player.name, "Carl");
    assert_eq!(player.health, 17);
}

#[test]
fn player_init_and_clear() {
    let mut player = Player::default();
    assert_eq!(player.name, "");
    assert_eq!(player.health, 0);
    player.init("Carl", 17);
    assert_eq!(player.name, "Carl");
    assert_eq!(player.health, 17);
    assert_eq!(player.friends.add(Ptr::new(4)), Ok(()));
    player.clear();
    assert_eq!(player.name, "");
    assert_eq!(player.health, 17);
    assert_eq!(player.friends.iter(), vec![Ptr::new(4)]);
}
