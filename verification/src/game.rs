//! World state: the authoritative player registry, the movement rule, and
//! the observer registry with its broadcast plan.
//!
//! `GameState` owns one immutable map, a mapping from player id to character
//! (one entry per distinct id ever seen), and the set of live observer
//! handles. Mutations go through `add_player` and `move_character` alone;
//! after an accepted mutation the caller takes `notify_clients`'s delivery
//! plan and pushes one snapshot to every registered observer.

use crate::map::GameMap;
use vstd::prelude::*;

verus! {

/// A player's character. Spawns at the origin with full health.
#[derive(Clone, Copy, Debug, PartialEq, Eq)]
pub struct Character {
    pub x: i32,
    pub y: i32,
    pub health: i32,
}

impl Character {
    pub fn new(x: i32, y: i32, health: i32) -> (c: Character)
        ensures
            c.x == x,
            c.y == y,
            c.health == health,
    {
        Character { x, y, health }
    }

    /// Reposition the character; health is untouched.
    pub fn move_to(&mut self, x: i32, y: i32)
        ensures
            final(self).x == x,
            final(self).y == y,
            final(self).health == old(self).health,
    {
        self.x = x;
        self.y = y;
    }
}

/// The character every fresh registration starts from: the origin cell with
/// full health. The spawn cell is never validated against walkability; see
/// `GameState::add_player`.
pub open spec fn spawn_character() -> Character {
    Character { x: 0, y: 0, health: 100 }
}

/// The four recognized movement directions.
#[derive(Clone, Copy, Debug, PartialEq, Eq)]
pub enum Direction {
    Up,
    Down,
    Left,
    Right,
}

/// Horizontal displacement of one step in direction `d`.
pub open spec fn dir_dx(d: Direction) -> int {
    match d {
        Direction::Left => -1,
        Direction::Right => 1,
        _ => 0,
    }
}

/// Vertical displacement of one step in direction `d`. Up decreases `y`:
/// the origin is the top-left corner.
pub open spec fn dir_dy(d: Direction) -> int {
    match d {
        Direction::Up => -1,
        Direction::Down => 1,
        _ => 0,
    }
}

/// Which direction, if any, a direction name denotes. Only the four literal
/// names are recognized; everything else is rejected by the core itself.
pub open spec fn spec_parse_direction(s: Seq<char>) -> Option<Direction> {
    if s == "up"@ {
        Some(Direction::Up)
    } else if s == "down"@ {
        Some(Direction::Down)
    } else if s == "left"@ {
        Some(Direction::Left)
    } else if s == "right"@ {
        Some(Direction::Right)
    } else {
        None
    }
}

/// Parse a direction name into a `Direction`.
pub fn parse_direction(s: &str) -> (d: Option<Direction>)
    ensures
        d == spec_parse_direction(s@),
{
    let t = s.to_owned();
    if t == "up".to_owned() {
        Some(Direction::Up)
    } else if t == "down".to_owned() {
        Some(Direction::Down)
    } else if t == "left".to_owned() {
        Some(Direction::Left)
    } else if t == "right".to_owned() {
        Some(Direction::Right)
    } else {
        None
    }
}

/// Why a move request was rejected. All are expected, recoverable
/// conditions, returned to the immediate caller and never escalated.
#[derive(Clone, Copy, Debug, PartialEq, Eq)]
pub enum MoveError {
    /// The player id was never registered.
    UnknownPlayer,
    /// The direction name is not one of the four recognized literals.
    InvalidDirection,
    /// The target cell is out of bounds or a wall.
    Blocked,
}

/// One entry of the player registry: an externally supplied opaque id and
/// the character it registered.
#[derive(Clone, Debug)]
pub struct PlayerEntry {
    pub id: String,
    pub character: Character,
}

/// Some entry of `s` carries the id `id`.
pub open spec fn has_id(s: Seq<PlayerEntry>, id: Seq<char>) -> bool {
    exists|i: int| 0 <= i < s.len() && s[i].id@ == id
}

/// The index of the entry carrying `id`; meaningful under `unique_ids`.
pub open spec fn index_of_id(s: Seq<PlayerEntry>, id: Seq<char>) -> int {
    choose|i: int| 0 <= i < s.len() && s[i].id@ == id
}

/// No two entries carry the same id.
pub open spec fn unique_ids(s: Seq<PlayerEntry>) -> bool {
    forall|i: int, j: int| 0 <= i < j < s.len() ==> s[i].id@ != s[j].id@
}

/// The registry entries read as a mapping from player id to character.
pub open spec fn entries_map(s: Seq<PlayerEntry>) -> Map<Seq<char>, Character> {
    Map::new(|id: Seq<char>| has_id(s, id), |id: Seq<char>| s[index_of_id(s, id)].character)
}

/// Under unique ids, the mapping reads each entry back exactly.
proof fn lemma_entries_map_at(s: Seq<PlayerEntry>, i: int)
    requires
        unique_ids(s),
        0 <= i < s.len(),
    ensures
        entries_map(s).contains_key(s[i].id@),
        entries_map(s)[s[i].id@] == s[i].character,
{
    assert(has_id(s, s[i].id@));
    let j = index_of_id(s, s[i].id@);
    assert(0 <= j < s.len() && s[j].id@ == s[i].id@);
    assert(j == i);
}

/// Appending an entry with a fresh id inserts it into the mapping.
proof fn lemma_entries_map_push(s: Seq<PlayerEntry>, e: PlayerEntry)
    requires
        unique_ids(s),
        !has_id(s, e.id@),
    ensures
        unique_ids(s.push(e)),
        entries_map(s.push(e)) == entries_map(s).insert(e.id@, e.character),
{
    let t = s.push(e);
    assert forall|i: int, j: int| 0 <= i < j < t.len() implies t[i].id@ != t[j].id@ by {
        if j == s.len() {
            assert(t[i] == s[i]);
            if s[i].id@ == e.id@ {
                assert(has_id(s, e.id@));
            }
        } else {
            assert(t[i] == s[i] && t[j] == s[j]);
        }
    }
    let m1 = entries_map(t);
    let m2 = entries_map(s).insert(e.id@, e.character);
    assert forall|k: Seq<char>| m1.contains_key(k) <==> m2.contains_key(k) by {
        if has_id(t, k) {
            let w = choose|i: int| 0 <= i < t.len() && t[i].id@ == k;
            if w < s.len() {
                assert(s[w].id@ == k);
                assert(has_id(s, k));
            }
        }
        if has_id(s, k) {
            let w = choose|i: int| 0 <= i < s.len() && s[i].id@ == k;
            assert(t[w].id@ == k);
            assert(has_id(t, k));
        }
        if k == e.id@ {
            assert(t[s.len() as int].id@ == k);
            assert(has_id(t, k));
        }
    }
    assert forall|k: Seq<char>| m1.contains_key(k) implies m1[k] == m2[k] by {
        let w = index_of_id(t, k);
        assert(0 <= w < t.len() && t[w].id@ == k);
        if k == e.id@ {
            if w < s.len() {
                assert(s[w].id@ == e.id@);
                assert(has_id(s, e.id@));
            }
            assert(m1[k] == e.character);
        } else {
            assert(w < s.len());
            assert(has_id(s, k));
            let w2 = index_of_id(s, k);
            assert(0 <= w2 < s.len() && s[w2].id@ == k);
            assert(w2 == w);
            assert(m1[k] == s[w].character && m2[k] == s[w2].character);
        }
    }
    assert(m1 =~= m2);
}

/// Overwriting the character of the entry at `i`, keeping its id, is an
/// insert at that id.
proof fn lemma_entries_map_update(s: Seq<PlayerEntry>, i: int, e: PlayerEntry)
    requires
        unique_ids(s),
        0 <= i < s.len(),
        e.id@ == s[i].id@,
    ensures
        unique_ids(s.update(i, e)),
        entries_map(s.update(i, e)) == entries_map(s).insert(e.id@, e.character),
{
    let t = s.update(i, e);
    assert forall|j: int| 0 <= j < t.len() implies t[j].id@ == s[j].id@ by {}
    assert forall|a: int, b: int| 0 <= a < b < t.len() implies t[a].id@ != t[b].id@ by {
        assert(s[a].id@ != s[b].id@);
    }
    let m1 = entries_map(t);
    let m2 = entries_map(s).insert(e.id@, e.character);
    assert forall|k: Seq<char>| m1.contains_key(k) <==> m2.contains_key(k) by {
        if has_id(t, k) {
            let w = choose|j: int| 0 <= j < t.len() && t[j].id@ == k;
            assert(s[w].id@ == k);
            assert(has_id(s, k));
        }
        if has_id(s, k) {
            let w = choose|j: int| 0 <= j < s.len() && s[j].id@ == k;
            assert(t[w].id@ == k);
            assert(has_id(t, k));
        }
    }
    assert forall|k: Seq<char>| m1.contains_key(k) implies m1[k] == m2[k] by {
        let w = index_of_id(t, k);
        assert(0 <= w < t.len() && t[w].id@ == k);
        if k == e.id@ {
            if w != i {
                assert(s[w].id@ == s[i].id@);
                assert(w < i || i < w);
            }
            assert(w == i);
            assert(m1[k] == e.character);
        } else {
            assert(w != i);
            assert(has_id(s, k));
            let w2 = index_of_id(s, k);
            assert(0 <= w2 < s.len() && s[w2].id@ == k);
            assert(w2 == w);
            assert(m1[k] == s[w].character && m2[k] == s[w2].character);
        }
    }
    assert(m1 =~= m2);
}

/// A registered character either still sits on the spawn cell or on a
/// walkable cell of `m`. Spawning never validates walkability, so the
/// origin is allowed even when it is a wall or out of bounds; every later
/// position came through the movement rule and is walkable.
pub open spec fn wf_character(c: Character, m: GameMap) -> bool {
    ||| (c.x == 0 && c.y == 0)
    ||| m.spec_walkable(c.x as int, c.y as int)
}

/// What registering `id` does to the id-to-character mapping: a no-op when
/// the id is present, otherwise an insert of the spawn character.
pub open spec fn spec_register(m: Map<Seq<char>, Character>, id: Seq<char>) -> Map<
    Seq<char>,
    Character,
> {
    if m.contains_key(id) {
        m
    } else {
        m.insert(id, spawn_character())
    }
}

/// The world-state coordinator: one immutable map, the player registry, and
/// the registered observer handles. Constructed once at process start and
/// reached by every request handler through one serialization boundary;
/// the methods themselves are sequential, so holding the coordinator under
/// a single exclusive lock linearizes check-then-mutate steps and keeps
/// broadcast snapshots totally ordered.
pub struct GameState {
    pub players: Vec<PlayerEntry>,
    pub map: GameMap,
    /// Live observer handles, each allocated by `add_client`; no duplicates.
    pub clients: Vec<u64>,
    /// The next observer handle to hand out; grows past every live handle.
    pub next_client: u64,
}

/// One observer's share of a broadcast: the handle to deliver to and the
/// snapshot it is owed.
pub struct Delivery {
    pub client: u64,
    pub update: UpdateGameState,
}

/// An immutable snapshot of the world, taken at one instant for consistent
/// delivery to observers.
pub struct UpdateGameState {
    pub players: Vec<PlayerEntry>,
    pub map: GameMap,
}

impl GameState {
    /// The registry entries read as a mapping from player id to character.
    pub open spec fn players_map(self) -> Map<Seq<char>, Character> {
        entries_map(self.players@)
    }

    pub open spec fn has_player(self, id: Seq<char>) -> bool {
        self.players_map().contains_key(id)
    }

    pub open spec fn player(self, id: Seq<char>) -> Character {
        self.players_map()[id]
    }

    /// Observer-registry invariant: handles are unique, and every live
    /// handle was allocated below the `next_client` watermark.
    pub open spec fn clients_wf(self) -> bool {
        &&& forall|i: int| 0 <= i < self.clients@.len() ==> self.clients@[i] < self.next_client
        &&& forall|i: int, j: int|
            0 <= i < j < self.clients@.len() ==> self.clients@[i] != self.clients@[j]
    }

    /// The coordinator's invariant: a well-formed map, unique player ids,
    /// every character on its spawn cell or a walkable cell, and a
    /// well-formed observer registry. Established by `new` and preserved by
    /// every mutation.
    pub open spec fn wf(self) -> bool {
        &&& self.map.wf()
        &&& unique_ids(self.players@)
        &&& forall|i: int|
            0 <= i < self.players@.len() ==> wf_character(
                #[trigger] self.players@[i].character,
                self.map,
            )
        &&& self.clients_wf()
    }

    pub fn new(map: GameMap) -> (s: GameState)
        requires
            map.wf(),
        ensures
            s.wf(),
            s.map == map,
            s.players@.len() == 0,
            s.players_map() == Map::<Seq<char>, Character>::empty(),
            s.clients@.len() == 0,
            s.next_client == 0,
    {
        let s = GameState { players: Vec::new(), map, clients: Vec::new(), next_client: 0 };
        proof {
            assert(s.players_map() =~= Map::<Seq<char>, Character>::empty());
        }
        s
    }

    /// The index of the entry registered under `player_id`, if any.
    fn find_player(&self, player_id: &str) -> (r: Option<usize>)
        ensures
            (match r {
                Some(i) => i < self.players@.len() && self.players@[i as int].id@ == player_id@,
                None => !has_id(self.players@, player_id@),
            }),
    {
        let key = player_id.to_owned();
        let n = self.players.len();
        let mut i: usize = 0;
        while i < n
            invariant
                n == self.players@.len(),
                i <= n,
                key@ == player_id@,
                forall|j: int| 0 <= j < i ==> self.players@[j].id@ != player_id@,
            decreases n - i,
        {
            if self.players[i].id == key {
                return Some(i);
            }
            i += 1;
        }
        None
    }

    /// Register `player_id`: a first occurrence creates a character on the
    /// spawn cell (never validated against walkability) and reports that a
    /// new player was created, so the caller knows to broadcast; a repeat
    /// call is a no-op that leaves the whole state untouched.
    pub fn add_player(&mut self, player_id: String) -> (created: bool)
        requires
            old(self).wf(),
        ensures
            final(self).wf(),
            created == !old(self).has_player(player_id@),
            final(self).players_map() == spec_register(old(self).players_map(), player_id@),
            !created ==> *final(self) == *old(self),
            created ==> final(self).players@ == old(self).players@.push(
                (PlayerEntry { id: player_id, character: spawn_character() }),
            ),
            final(self).map == old(self).map,
            final(self).clients == old(self).clients,
            final(self).next_client == old(self).next_client,
    {
        match self.find_player(player_id.as_str()) {
            Some(i) => {
                proof {
                    lemma_entries_map_at(self.players@, i as int);
                }
                false
            },
            None => {
                let entry = PlayerEntry { id: player_id, character: Character::new(0, 0, 100) };
                proof {
                    lemma_entries_map_push(self.players@, entry);
                }
                self.players.push(entry);
                true
            },
        }
    }

    /// Read-only lookup of the character registered under `player_id`.
    pub fn get_character(&self, player_id: &str) -> (r: Option<Character>)
        requires
            self.wf(),
        ensures
            r == (if self.has_player(player_id@) {
                Some(self.player(player_id@))
            } else {
                None::<Character>
            }),
    {
        match self.find_player(player_id) {
            Some(i) => {
                proof {
                    lemma_entries_map_at(self.players@, i as int);
                }
                Some(self.players[i].character)
            },
            None => None,
        }
    }
}

fn direction_delta(d: Direction) -> (delta: (i32, i32))
    ensures
        delta.0 == dir_dx(d),
        delta.1 == dir_dy(d),
{
    match d {
        Direction::Up => (0, -1),
        Direction::Down => (0, 1),
        Direction::Left => (-1, 0),
        Direction::Right => (1, 0),
    }
}

impl GameState {
    /// One step of the movement rule, checked and applied atomically with
    /// respect to the coordinator's serialization boundary.
    ///
    /// The direction name is validated first (`InvalidDirection`), then the
    /// player id (`UnknownPlayer`); otherwise the candidate cell one unit
    /// from the player's position is checked for walkability. A walkable
    /// candidate updates exactly the moving player's position and returns
    /// the updated character; anything else is `Blocked`. Every rejection
    /// leaves the state untouched.
    pub fn move_character(&mut self, player_id: &str, direction: &str) -> (r: Result<
        Character,
        MoveError,
    >)
        requires
            old(self).wf(),
        ensures
            final(self).wf(),
            final(self).map == old(self).map,
            final(self).clients == old(self).clients,
            final(self).next_client == old(self).next_client,
            final(self).players@.len() == old(self).players@.len(),
            r is Err ==> *final(self) == *old(self),
            spec_parse_direction(direction@) is None ==> r == Err::<Character, MoveError>(
                MoveError::InvalidDirection,
            ),
            spec_parse_direction(direction@) is Some && !old(self).has_player(player_id@) ==> r
                == Err::<Character, MoveError>(MoveError::UnknownPlayer),
            (spec_parse_direction(direction@) matches Some(d) && old(self).has_player(player_id@)
                && !old(self).map.spec_walkable(
                old(self).player(player_id@).x + dir_dx(d),
                old(self).player(player_id@).y + dir_dy(d),
            )) ==> r == Err::<Character, MoveError>(MoveError::Blocked),
            (spec_parse_direction(direction@) matches Some(d) && old(self).has_player(player_id@)
                && old(self).map.spec_walkable(
                old(self).player(player_id@).x + dir_dx(d),
                old(self).player(player_id@).y + dir_dy(d),
            )) ==> (r matches Ok(c) && c.x == old(self).player(player_id@).x + dir_dx(
                spec_parse_direction(direction@)->Some_0,
            ) && c.y == old(self).player(player_id@).y + dir_dy(
                spec_parse_direction(direction@)->Some_0,
            ) && c.health == old(self).player(player_id@).health && final(self).players_map()
                == old(self).players_map().insert(player_id@, c)),
    {
        let dir = match parse_direction(direction) {
            Some(d) => d,
            None => {
                return Err(MoveError::InvalidDirection);
            },
        };
        let i = match self.find_player(player_id) {
            Some(i) => i,
            None => {
                return Err(MoveError::UnknownPlayer);
            },
        };
        proof {
            lemma_entries_map_at(self.players@, i as int);
        }
        let c = self.players[i].character;
        let (dx, dy) = direction_delta(dir);
        proof {
            assert(wf_character(self.players@[i as int].character, self.map));
        }
        let new_x = c.x + dx;
        let new_y = c.y + dy;
        if self.map.is_walkable(new_x, new_y) {
            let updated = Character { x: new_x, y: new_y, health: c.health };
            let ghost pre = self.players@;
            let entry = &mut self.players[i];
            entry.character = updated;
            proof {
                let e = PlayerEntry { id: pre[i as int].id, character: updated };
                assert(self.players@ =~= pre.update(i as int, e));
                lemma_entries_map_update(pre, i as int, e);
            }
            Ok(updated)
        } else {
            Err(MoveError::Blocked)
        }
    }
}

/// The observers kept when the handle `client` leaves the registry.
pub open spec fn keep_client(client: u64) -> spec_fn(u64) -> bool {
    |c: u64| c != client
}

impl GameState {
    /// Register a new observer: allocates a fresh handle, never a duplicate
    /// of a live one, and adds it to the registry. Called once per
    /// established connection.
    pub fn add_client(&mut self) -> (h: u64)
        requires
            old(self).wf(),
            old(self).next_client < u64::MAX,
        ensures
            final(self).wf(),
            final(self).players == old(self).players,
            final(self).map == old(self).map,
            final(self).clients@ == old(self).clients@.push(h),
            !old(self).clients@.contains(h),
            final(self).next_client == old(self).next_client + 1,
    {
        let h = self.next_client;
        self.next_client = self.next_client + 1;
        self.clients.push(h);
        h
    }

    /// Remove an observer handle; a no-op when the handle is already gone,
    /// so connection teardown is safe to invoke at any time.
    pub fn remove_client(&mut self, client: u64)
        ensures
            final(self).players == old(self).players,
            final(self).map == old(self).map,
            final(self).next_client == old(self).next_client,
            final(self).clients@ == old(self).clients@.filter(keep_client(client)),
            old(self).wf() ==> final(self).wf(),
    {
        let ghost all = self.clients@;
        proof {
            reveal_with_fuel(Seq::<u64>::filter, 1);
            assert(all.take(0).filter(keep_client(client)) =~= Seq::<u64>::empty());
        }
        let mut kept: Vec<u64> = Vec::new();
        let n = self.clients.len();
        let mut i: usize = 0;
        while i < n
            invariant
                n == all.len(),
                self.clients@ == all,
                i <= n,
                kept@ == all.take(i as int).filter(keep_client(client)),
            decreases n - i,
        {
            let c = self.clients[i];
            proof {
                reveal_with_fuel(Seq::<u64>::filter, 2);
                let pre = all.take(i as int);
                let post = all.take(i as int + 1);
                assert(post.drop_last() =~= pre);
                assert(post.last() == c);
            }
            if c != client {
                kept.push(c);
            }
            i += 1;
        }
        proof {
            assert(all.take(n as int) =~= all);
        }
        self.clients = kept;
        proof {
            if old(self).wf() {
                lemma_filter_distinct(all, keep_client(client));
                assert forall|i: int| 0 <= i < self.clients@.len() implies self.clients@[i]
                    < self.next_client by {
                    assert(self.clients@.contains(self.clients@[i]));
                    lemma_filter_subset(all, keep_client(client), self.clients@[i]);
                    let w = choose|w: int| 0 <= w < all.len() && all[w] == self.clients@[i];
                    assert(old(self).clients@[w] < old(self).next_client);
                }
            }
        }
    }

    /// An immutable copy of the full player mapping and the map, taken at
    /// one instant.
    pub fn snapshot(&self) -> (u: UpdateGameState)
        ensures
            u.players@ == self.players@,
            u.map.width == self.map.width,
            u.map.height == self.map.height,
            u.map.tiles@ == self.map.tiles@,
    {
        let mut players: Vec<PlayerEntry> = Vec::new();
        let n = self.players.len();
        let mut i: usize = 0;
        while i < n
            invariant
                n == self.players@.len(),
                i <= n,
                players@ == self.players@.take(i as int),
            decreases n - i,
        {
            let e = &self.players[i];
            let copy = PlayerEntry { id: e.id.clone(), character: e.character };
            proof {
                assert(copy == self.players@[i as int]);
                assert(self.players@.take(i as int).push(copy) =~= self.players@.take(
                    i as int + 1,
                ));
            }
            players.push(copy);
            i += 1;
        }
        proof {
            assert(self.players@.take(n as int) =~= self.players@);
        }
        UpdateGameState { players, map: self.map.duplicate() }
    }

    /// Whether `u` is a faithful snapshot of this state: same player
    /// entries, same map geometry.
    pub open spec fn snapshot_matches(self, u: UpdateGameState) -> bool {
        &&& u.players@ == self.players@
        &&& u.map.width == self.map.width
        &&& u.map.height == self.map.height
        &&& u.map.tiles@ == self.map.tiles@
    }

    /// The delivery plan of one broadcast: exactly one snapshot of the
    /// current state for every registered observer, in registry order. The
    /// caller performs the sends; a failed send is a signal to drop that
    /// handle, never an error surfaced to the mutation that triggered the
    /// broadcast.
    pub fn notify_clients(&self) -> (ds: Vec<Delivery>)
        ensures
            ds@.len() == self.clients@.len(),
            forall|i: int|
                0 <= i < ds@.len() ==> (#[trigger] ds@[i]).client == self.clients@[i]
                    && self.snapshot_matches(ds@[i].update),
    {
        let mut ds: Vec<Delivery> = Vec::new();
        let n = self.clients.len();
        let mut i: usize = 0;
        while i < n
            invariant
                n == self.clients@.len(),
                i <= n,
                ds@.len() == i,
                forall|j: int|
                    0 <= j < i ==> (#[trigger] ds@[j]).client == self.clients@[j]
                        && self.snapshot_matches(ds@[j].update),
            decreases n - i,
        {
            let update = self.snapshot();
            ds.push(Delivery { client: self.clients[i], update });
            i += 1;
        }
        ds
    }
}

impl GameState {
    /// Runtime test of the coordinator's invariant, for callers outside the
    /// proof boundary that must check it before relying on it. The methods
    /// of this type preserve the invariant, so on a state built through
    /// them it always answers true.
    pub fn check_invariants(&self) -> (b: bool)
        ensures
            b == self.wf(),
    {
        if !self.map.check_wf() {
            return false;
        }
        let n = self.players.len();
        let mut i: usize = 0;
        while i < n
            invariant
                n == self.players@.len(),
                i <= n,
                self.map.wf(),
                forall|a: int, b: int|
                    0 <= a < b < n && a < i ==> self.players@[a].id@ != self.players@[b].id@,
                forall|a: int|
                    0 <= a < i ==> wf_character(#[trigger] self.players@[a].character, self.map),
            decreases n - i,
        {
            let mut j: usize = i + 1;
            while j < n
                invariant
                    n == self.players@.len(),
                    i < j,
                    i < n,
                    j <= n,
                    forall|b: int| i < b < j ==> self.players@[i as int].id@ != self.players@[b].id@,
                decreases n - j,
            {
                if self.players[i].id == self.players[j].id {
                    return false;
                }
                j += 1;
            }
            let c = self.players[i].character;
            let spawn_cell = c.x == 0 && c.y == 0;
            if !spawn_cell && !self.map.is_walkable(c.x, c.y) {
                return false;
            }
            i += 1;
        }
        let m = self.clients.len();
        let mut i: usize = 0;
        while i < m
            invariant
                m == self.clients@.len(),
                i <= m,
                forall|a: int| 0 <= a < i ==> self.clients@[a] < self.next_client,
                forall|a: int, b: int|
                    0 <= a < b < m && a < i ==> self.clients@[a] != self.clients@[b],
            decreases m - i,
        {
            if !(self.clients[i] < self.next_client) {
                return false;
            }
            let mut j: usize = i + 1;
            while j < m
                invariant
                    m == self.clients@.len(),
                    i < j,
                    i < m,
                    j <= m,
                    forall|b: int| i < b < j ==> self.clients@[i as int] != self.clients@[b],
                decreases m - j,
            {
                if self.clients[i] == self.clients[j] {
                    return false;
                }
                j += 1;
            }
            i += 1;
        }
        true
    }
}

/// No two entries of `s` are the same handle.
pub open spec fn distinct_handles(s: Seq<u64>) -> bool {
    forall|i: int, j: int| 0 <= i < j < s.len() ==> s[i] != s[j]
}

/// Every handle that survives a filter was in the sequence to begin with.
proof fn lemma_filter_subset(s: Seq<u64>, pred: spec_fn(u64) -> bool, x: u64)
    requires
        s.filter(pred).contains(x),
    ensures
        s.contains(x),
    decreases s.len(),
{
    reveal_with_fuel(Seq::<u64>::filter, 2);
    if s.len() > 0 {
        let d = s.drop_last();
        if pred(s.last()) && x == s.last() {
            assert(s[s.len() - 1] == x);
        } else {
            assert(d.filter(pred).contains(x));
            lemma_filter_subset(d, pred, x);
            let w = choose|w: int| 0 <= w < d.len() && d[w] == x;
            assert(s[w] == x);
        }
    }
}

/// In a duplicate-free sequence the filtered survivors stay duplicate-free.
proof fn lemma_filter_distinct(s: Seq<u64>, pred: spec_fn(u64) -> bool)
    requires
        distinct_handles(s),
    ensures
        distinct_handles(s.filter(pred)),
    decreases s.len(),
{
    reveal_with_fuel(Seq::<u64>::filter, 2);
    if s.len() > 0 {
        let d = s.drop_last();
        assert(distinct_handles(d)) by {
            assert(forall|i: int, j: int| 0 <= i < j < d.len() ==> s[i] != s[j]);
        }
        lemma_filter_distinct(d, pred);
        if pred(s.last()) {
            assert(!d.filter(pred).contains(s.last())) by {
                if d.filter(pred).contains(s.last()) {
                    lemma_filter_subset(d, pred, s.last());
                    let w = choose|w: int| 0 <= w < d.len() && d[w] == s.last();
                    assert(s[w] == s[s.len() - 1]);
                }
            }
            let f = d.filter(pred).push(s.last());
            assert(s.filter(pred) == f);
            assert forall|i: int, j: int| 0 <= i < j < f.len() implies f[i] != f[j] by {
                if j < f.len() - 1 {
                    assert(f[i] == d.filter(pred)[i] && f[j] == d.filter(pred)[j]);
                } else {
                    assert(d.filter(pred).contains(d.filter(pred)[i]));
                }
            }
        }
    }
}

/// Registering the same id twice yields one character: the second
/// registration of `id` is a no-op on the id-to-character mapping.
pub proof fn lemma_register_idempotent(m: Map<Seq<char>, Character>, id: Seq<char>)
    ensures
        spec_register(spec_register(m, id), id) == spec_register(m, id),
{
    if !m.contains_key(id) {
        assert(spec_register(m, id).contains_key(id));
    }
}

/// A committed move rewrites exactly the mover's entry: the mover reads
/// back its updated character, and every other id keeps both its presence
/// and its character.
pub proof fn lemma_move_frames_others(
    m: Map<Seq<char>, Character>,
    id: Seq<char>,
    c: Character,
    other: Seq<char>,
)
    requires
        other != id,
    ensures
        m.insert(id, c).contains_key(id),
        m.insert(id, c)[id] == c,
        m.insert(id, c).contains_key(other) == m.contains_key(other),
        m.contains_key(other) ==> m.insert(id, c)[other] == m[other],
{
}

/// Serialized moves by distinct players lose no update: after both commit,
/// each player's entry is its own updated character, whichever order the
/// serialization point put them in.
pub proof fn lemma_no_lost_updates(
    m: Map<Seq<char>, Character>,
    id1: Seq<char>,
    c1: Character,
    id2: Seq<char>,
    c2: Character,
)
    requires
        id1 != id2,
    ensures
        m.insert(id1, c1).insert(id2, c2).contains_key(id1),
        m.insert(id1, c1).insert(id2, c2).contains_key(id2),
        m.insert(id1, c1).insert(id2, c2)[id1] == c1,
        m.insert(id1, c1).insert(id2, c2)[id2] == c2,
{
}

/// A step is one unit along exactly one axis: never diagonal, never a jump
/// of more than one cell, so a successful move from `(x, y)` lands on the
/// unique neighbor cell its direction implies.
pub proof fn lemma_step_is_unit(d: Direction)
    ensures
        vstd::math::abs(dir_dx(d)) + vstd::math::abs(dir_dy(d)) == 1,
{
}

} // verus!
