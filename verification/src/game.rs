//! A small game on top of the pool: players live in the slots of a pool and
//! keep the handles of their friends.

use crate::cell_pool::CellPool;
use crate::clear::Clear;
use crate::error::PoolError;
use crate::pool_model::lemma_allocate_valid;
use crate::pool_model::PoolView;
use crate::ptr::Ptr;
use crate::ref_set::added;
use crate::ref_set::lemma_present_added;
use crate::ref_set::lemma_present_none;
use crate::ref_set::present;
use crate::ref_set::RefSet;
use vstd::prelude::*;

verus! {

/// A player: a name, a health, and the handles of the player's friends.
pub struct Player {
    pub name: String,
    pub health: i32,
    pub friends: RefSet,
}

impl Default for Player {
    /// A nameless player of health zero with ten places for friends.
    fn default() -> (player: Player)
        ensures
            player.name@ == Seq::<char>::empty(),
            player.health == 0,
            player.friends@ == Seq::new(10, |i: int| None::<Ptr>),
    {
        Player { name: String::new(), health: 0, friends: RefSet::default() }
    }
}

impl Clone for Player {
    /// A player of the same name and health with the same friends.
    fn clone(&self) -> (player: Player)
        ensures
            player.name@ == self.name@,
            player.health == self.health,
            player.friends@ == self.friends@,
    {
        Player { name: self.name.clone(), health: self.health, friends: self.friends.clone() }
    }
}

impl Player {
    /// Gives the player a name and a health. The friends stay.
    pub fn init(&mut self, name: &str, health: i32)
        ensures
            final(self).name@ == name@,
            final(self).health == health,
            final(self).friends == old(self).friends,
    {
        self.name = name.to_owned();
        self.health = health;
    }
}

impl Clear for Player {
    /// A player is reset when the name is empty.
    open spec fn is_clear(&self) -> bool {
        self.name@.len() == 0
    }

    /// Empties the name. Health and friends stay.
    fn clear(&mut self)
        ensures
            final(self).health == old(self).health,
            final(self).friends == old(self).friends,
    {
        Clear::clear(&mut self.name);
    }
}

/// What is told of a friend: the name and the health.
pub struct Friend {
    pub name: String,
    pub health: i32,
}

/// Name and health of every player among `handles` that is live in `players`,
/// in the order of `handles`.
pub open spec fn friend_lines(players: PoolView<Player>, handles: Seq<Ptr>) -> Seq<(Seq<char>, i32)>
    decreases handles.len(),
{
    if handles.len() == 0 {
        Seq::empty()
    } else {
        let rest = friend_lines(players, handles.drop_last());
        let p = handles.last();
        if players.live.contains(p) {
            rest.push((players.items[p.index as int].name@, players.items[p.index as int].health))
        } else {
            rest
        }
    }
}

/// The friends of the player in slot `i` after `player1` and `player2`
/// became friends: each of the two, if live, has added the other.
pub open spec fn friends_after(players: PoolView<Player>, player1: Ptr, player2: Ptr, i: int) -> Seq<Option<Ptr>> {
    let before = players.items[i].friends@;
    let first = if players.live.contains(player1) && i == player1.index {
        added(before, player2)
    } else {
        before
    };
    if players.live.contains(player2) && i == player2.index {
        added(first, player1)
    } else {
        first
    }
}

/// A game: a pool of players.
pub struct Game {
    players: CellPool<Player>,
}

impl View for Game {
    type V = PoolView<Player>;

    closed spec fn view(&self) -> PoolView<Player> {
        self.players@
    }
}

impl Game {
    /// A game for at most `max_player_count` players, without players.
    pub fn new(max_player_count: usize) -> (game: Game)
        ensures
            game@.valid(),
            game@ == PoolView::fresh(game@.items),
            game@.capacity() == max_player_count,
            forall|i: int|
                0 <= i < max_player_count ==> {
                    &&& (#[trigger] game@.items[i]).name@ == Seq::<char>::empty()
                    &&& game@.items[i].health == 0
                    &&& game@.items[i].friends@ == Seq::new(10, |i: int| None::<Ptr>)
                },
    {
        Game { players: CellPool::new(max_player_count) }
    }

    /// Allocates a slot and makes the player in it `name` of health
    /// `health`. Fails with `PoolExhausted`, and changes nothing, when the
    /// game is full.
    pub fn create_player(&mut self, name: &str, health: i32) -> (r: Result<Ptr, PoolError>)
        ensures
            old(self)@.valid(),
            final(self)@.valid(),
            r == old(self)@.allocate_result(),
            r is Err ==> final(self)@ == old(self)@,
            r matches Ok(p) ==> {
                &&& final(self)@.live == old(self)@.allocate().live
                &&& final(self)@.free == old(self)@.allocate().free
                &&& final(self)@.items.len() == old(self)@.items.len()
                &&& final(self)@.items[p.index as int].name@ == name@
                &&& final(self)@.items[p.index as int].health == health
                &&& final(self)@.items[p.index as int].friends == old(self)@.items[p.index as int].friends
                &&& forall|i: int|
                    0 <= i < old(self)@.items.len() && i != p.index ==> #[trigger] final(self)@.items[i] == old(self)@.items[i]
            },
    {
        let p = self.players.allocate()?;
        proof {
            lemma_allocate_valid(old(self)@);
        }
        match self.players.get_mut(p) {
            Some(player) => {
                player.init(name, health);
            },
            None => {},
        }
        Ok(p)
    }

    /// Makes two players friends of one another: each of them that is live
    /// adds the other to its friends, as far as it has an empty place.
    pub fn make_friends(&mut self, player1: Ptr, player2: Ptr)
        ensures
            old(self)@.valid(),
            final(self)@.live == old(self)@.live,
            final(self)@.free == old(self)@.free,
            final(self)@.items.len() == old(self)@.items.len(),
            forall|i: int|
                0 <= i < old(self)@.items.len() ==> {
                    &&& (#[trigger] final(self)@.items[i]).name == old(self)@.items[i].name
                    &&& final(self)@.items[i].health == old(self)@.items[i].health
                    &&& final(self)@.items[i].friends@ == friends_after(old(self)@, player1, player2, i)
                },
    {
        match self.players.get_mut(player1) {
            Some(player) => {
                let _ = player.friends.add(player2);
            },
            None => {},
        }
        match self.players.get_mut(player2) {
            Some(player) => {
                let _ = player.friends.add(player1);
            },
            None => {},
        }
    }

    /// The player in the slot that `p` names, or `None` if the slot is not live.
    pub fn player(&self, p: Ptr) -> (r: Option<&Player>)
        ensures
            self@.valid(),
            match r {
                Some(player) => self@.live.contains(p) && *player == self@.items[p.index as int],
                None => !self@.live.contains(p),
            },
    {
        self.players.get(p)
    }

    /// The player in the slot that `p` names, for writing, or `None` if the
    /// slot is not live.
    pub fn player_mut(&mut self, p: Ptr) -> (r: Option<&mut Player>)
        ensures
            old(self)@.valid(),
            match r {
                Some(player) => {
                    &&& old(self)@.live.contains(p)
                    &&& *player == old(self)@.items[p.index as int]
                    &&& final(self)@ == (PoolView {
                        items: old(self)@.items.update(p.index as int, *final(player)),
                        ..old(self)@
                    })
                },
                None => !old(self)@.live.contains(p) && final(self)@ == old(self)@,
            },
    {
        self.players.get_mut(p)
    }

    /// Name and health of every live friend of the player in the slot that
    /// `p` names, in the order of that player's friends; nothing if that
    /// slot is not live.
    pub fn friends_of(&self, p: Ptr) -> (lines: Vec<Friend>)
        ensures
            self@.live.contains(p) ==> lines@.map_values(|f: Friend| (f.name@, f.health)) == friend_lines(
                self@,
                present(self@.items[p.index as int].friends@),
            ),
            !self@.live.contains(p) ==> lines@.len() == 0,
    {
        let mut lines: Vec<Friend> = Vec::new();
        match self.players.get(p) {
            Some(player) => {
                let handles = player.friends.iter();
                let mut i: usize = 0;
                while i < handles.len()
                    invariant
                        i <= handles.len(),
                        lines@.map_values(|f: Friend| (f.name@, f.health)) == friend_lines(self@, handles@.take(i as int)),
                    decreases handles.len() - i,
                {
                    proof {
                        assert(handles@.take(i + 1).drop_last() =~= handles@.take(i as int));
                    }
                    let ghost before = lines@;
                    match self.players.get(handles[i]) {
                        Some(friend) => {
                            lines.push(Friend { name: friend.name.clone(), health: friend.health });
                            proof {
                                assert(lines@.map_values(|f: Friend| (f.name@, f.health)) =~= before.map_values(
                                    |f: Friend| (f.name@, f.health),
                                ).push((friend.name@, friend.health)));
                            }
                        },
                        None => {},
                    }
                    i = i + 1;
                }
                proof {
                    assert(handles@.take(i as int) =~= handles@);
                }
            },
            None => {},
        }
        lines
    }
}

/// Plays one round: Eric, Tom and Carl join a game for a hundred players,
/// Eric befriends Tom and then Carl, and Tom's health rises to 20. Returns
/// what is told of Eric's friends: Tom with health 20, then Carl with
/// health 17.
pub fn run_game() -> (r: Result<Vec<Friend>, PoolError>)
    ensures
        r matches Ok(lines) && {
            &&& lines@.len() == 2
            &&& lines@[0].name@ == "Tom"@
            &&& lines@[0].health == 20
            &&& lines@[1].name@ == "Carl"@
            &&& lines@[1].health == 17
        },
{
    let mut game = Game::new(100);
    let ghost none = Seq::new(10, |i: int| None::<Ptr>);
    let ghost g0 = game@;
    proof {
        lemma_allocate_valid(g0);
        lemma_allocate_valid(g0.allocate());
        lemma_allocate_valid(g0.allocate().allocate());
    }
    let eric = game.create_player("Eric", 10)?;
    let tom = game.create_player("Tom", 15)?;
    let carl = game.create_player("Carl", 17)?;
    let ghost g3 = game@;
    proof {
        assert(eric == Ptr { index: 0 } && tom == Ptr { index: 1 } && carl == Ptr { index: 2 });
        assert(g3.live =~= seq![eric, tom, carl]);
        assert(g3.live[0] == eric && g3.live[1] == tom && g3.live[2] == carl);
        assert(g3.items[0].friends@ == none);
        lemma_present_none(none);
        lemma_present_added(none, 0, tom);
    }
    game.make_friends(eric, tom);
    let ghost g4 = game@;
    proof {
        let one = none.update(0, Some(tom));
        assert(g4.items[0].friends@ == friends_after(g3, eric, tom, 0));
        assert(g4.items[0].friends@ == one);
        lemma_present_added(one, 1, carl);
    }
    game.make_friends(eric, carl);
    let ghost g5 = game@;
    proof {
        assert(g5.items[0].friends@ == friends_after(g4, eric, carl, 0));
        assert(g5.items[1].name == g4.items[1].name);
        assert(g5.items[2].name == g4.items[2].name);
        assert(g4.items[1].name == g3.items[1].name);
        assert(g4.items[2].name == g3.items[2].name);
        assert(present(g5.items[0].friends@) =~= seq![tom, carl]);
    }
    match game.player_mut(tom) {
        Some(player) => {
            player.health = 20;
        },
        None => {},
    }
    let ghost g6 = game@;
    let lines = game.friends_of(eric);
    proof {
        let handles = seq![tom, carl];
        assert(handles.drop_last() =~= seq![tom]);
        assert(seq![tom].drop_last() =~= Seq::<Ptr>::empty());
        reveal_with_fuel(friend_lines, 3);
        let told = friend_lines(g6, handles);
        assert(told =~= seq![(g6.items[1].name@, 20i32), (g6.items[2].name@, 17i32)]);
        let view = lines@.map_values(|f: Friend| (f.name@, f.health));
        assert(view == told);
        assert(view.len() == 2);
        assert(view[0] == (lines@[0].name@, lines@[0].health));
        assert(view[1] == (lines@[1].name@, lines@[1].health));
    }
    Ok(lines)
}

} // verus!
