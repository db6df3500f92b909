//! The room registry: which clients sit in which room, which rooms are live
//! for an address, and which addresses have a worker.
//!
//! Every operation takes the request as plain strings, changes the maps and
//! hands back what the socket layer and the workers have to be told. With
//! each room the registry keeps the address and the pool id that the room was
//! opened for, so that a room can be torn down whatever its key looks like. The
//! model of the state is [`RegistryView`]; each operation's contract says that
//! the state afterwards is the model's own transition applied to the state
//! before.

use vstd::prelude::*;
use vstd::string::*;
use dashmap::DashMap;
use crate::keys::{kline_stream, normalize_address, normalize_spec, pool_id_for_chain,
    pool_id_spec, room_key, room_key_spec, tick_stream, tick_stream_spec};
use crate::lists;
use crate::shared::{lists_get, lists_in, lists_insert, lists_keys, lists_new, lists_remove,
    numbers_get, numbers_in, numbers_insert, numbers_new, numbers_remove, texts_get, texts_in,
    texts_insert, texts_new, texts_remove};
use crate::text::texts;
use crate::types::{command_views, CommandView, SubscriptionCommand};

verus! {

/// The registry as mathematics: each room's clients, each address's live
/// rooms, the pool id that each address's worker was started with, and the
/// address and pool id that each room was opened for.
#[verifier::ext_equal]
pub struct RegistryView {
    pub rooms: Map<Seq<char>, Set<Seq<char>>>,
    pub index: Map<Seq<char>, Set<Seq<char>>>,
    pub workers: Map<Seq<char>, i64>,
    pub homes: Map<Seq<char>, (Seq<char>, i64)>,
}

/// The address and the pool id of each room, from the two maps that hold
/// them.
pub open spec fn homes_of(addresses: Map<Seq<char>, Seq<char>>, pools: Map<Seq<char>, i64>) -> Map<
    Seq<char>,
    (Seq<char>, i64),
> {
    Map::new(
        |k: Seq<char>| addresses.contains_key(k) && pools.contains_key(k),
        |k: Seq<char>| (addresses[k], pools[k]),
    )
}

/// A map without the entries whose keys stand in `keys`.
pub open spec fn without_keys<V>(m: Map<Seq<char>, V>, keys: Seq<Seq<char>>) -> Map<Seq<char>, V> {
    Map::new(|k: Seq<char>| m.contains_key(k) && !keys.contains(k), |k: Seq<char>| m[k])
}

/// A map of lists read as a map of sets.
pub open spec fn as_sets(m: Map<Seq<char>, Seq<Seq<char>>>) -> Map<Seq<char>, Set<Seq<char>>> {
    Map::new(|k: Seq<char>| m.contains_key(k), |k: Seq<char>| m[k].to_set())
}

impl RegistryView {
    /// The clients of the room `key`; none where there is no such room.
    pub open spec fn clients(self, key: Seq<char>) -> Set<Seq<char>> {
        if self.rooms.contains_key(key) {
            self.rooms[key]
        } else {
            Set::empty()
        }
    }

    /// The live rooms of `address`; none where the index has no entry for it.
    pub open spec fn rooms_of(self, address: Seq<char>) -> Set<Seq<char>> {
        if self.index.contains_key(address) {
            self.index[address]
        } else {
            Set::empty()
        }
    }

    /// Every room has at least one client.
    pub open spec fn rooms_inhabited(self) -> bool {
        forall|k: Seq<char>| #[trigger]
            self.rooms.contains_key(k) ==> !self.rooms[k].is_empty()
    }

    /// The state after `client` has subscribed to `(pool_id, address,
    /// interval)`, the address in canonical form.
    pub open spec fn subscribe(
        self,
        pool_id: i64,
        address: Seq<char>,
        interval: Seq<char>,
        client: Seq<char>,
    ) -> RegistryView {
        let key = room_key_spec(pool_id as int, address, interval);
        RegistryView {
            rooms: self.rooms.insert(key, self.clients(key).insert(client)),
            index: self.index.insert(address, self.rooms_of(address).insert(key)),
            workers: if self.spawns_worker(key, address) {
                self.workers.insert(address, pool_id)
            } else {
                self.workers
            },
            homes: if self.rooms.contains_key(key) {
                self.homes
            } else {
                self.homes.insert(key, (address, pool_id))
            },
        }
    }

    /// Whether a subscription that opens the room `key` of `address` has to
    /// start a worker: the room is new and the address has no worker yet.
    pub open spec fn spawns_worker(self, key: Seq<char>, address: Seq<char>) -> bool {
        !self.rooms.contains_key(key) && !self.workers.contains_key(address)
    }

    /// The commands that a subscription sends to the worker of `address`:
    /// none where the room exists already; else the candle stream, followed by
    /// the trade stream where the address had no live room.
    pub open spec fn subscribe_commands(
        self,
        pool_id: i64,
        address: Seq<char>,
        interval: Seq<char>,
    ) -> Seq<CommandView> {
        let key = room_key_spec(pool_id as int, address, interval);
        if self.rooms.contains_key(key) {
            Seq::empty()
        } else if self.rooms_of(address).is_empty() {
            seq![
                CommandView::Subscribe(key),
                CommandView::Subscribe(tick_stream_spec(pool_id as int, address)),
            ]
        } else {
            seq![CommandView::Subscribe(key)]
        }
    }

    /// Whether `client` leaving the room `key` closes it: the room exists and
    /// holds nobody else.
    pub open spec fn closes_room(self, key: Seq<char>, client: Seq<char>) -> bool {
        self.rooms.contains_key(key) && self.rooms[key].remove(client).is_empty()
    }

    /// The index after the room `key` of `address` has been closed.
    pub open spec fn index_without(self, address: Seq<char>, key: Seq<char>) -> Map<
        Seq<char>,
        Set<Seq<char>>,
    > {
        if self.index.contains_key(address) {
            self.index.insert(address, self.index[address].remove(key))
        } else {
            self.index
        }
    }

    /// The state after `client` has left the room `key` of `address`.
    pub open spec fn leave(self, address: Seq<char>, key: Seq<char>, client: Seq<char>) -> RegistryView {
        if !self.rooms.contains_key(key) {
            self
        } else if self.closes_room(key, client) {
            RegistryView {
                rooms: self.rooms.remove(key),
                index: self.index_without(address, key),
                workers: self.workers,
                homes: self.homes.remove(key),
            }
        } else {
            RegistryView {
                rooms: self.rooms.insert(key, self.rooms[key].remove(client)),
                index: self.index,
                workers: self.workers,
                homes: self.homes,
            }
        }
    }

    /// The state after `client` has unsubscribed from `(pool_id, address,
    /// interval)`, the address in canonical form.
    pub open spec fn unsubscribe(
        self,
        pool_id: i64,
        address: Seq<char>,
        interval: Seq<char>,
        client: Seq<char>,
    ) -> RegistryView {
        self.leave(address, room_key_spec(pool_id as int, address, interval), client)
    }

    /// The command that closing the room `key` of `address` sends: the candle
    /// stream is dropped, if the address has a worker to tell.
    pub open spec fn leave_commands(self, address: Seq<char>, key: Seq<char>, client: Seq<char>) -> Seq<
        CommandView,
    > {
        if self.closes_room(key, client) && self.workers.contains_key(address) {
            seq![CommandView::Unsubscribe(key)]
        } else {
            Seq::empty()
        }
    }

    /// Whether `client` leaving the room `key` of `address` starts the timer
    /// that ends the trade stream: the room closes and leaves the address
    /// without a live room.
    pub open spec fn leave_starts_timer(self, address: Seq<char>, key: Seq<char>, client: Seq<char>) -> bool {
        self.closes_room(key, client) && self.rooms_of(address).remove(key).is_empty()
    }

    /// The state after the timer of `address` has fired: where the address
    /// has no live room, its index entry is gone; else nothing changes.
    pub open spec fn timer_fired(self, address: Seq<char>) -> RegistryView {
        if self.rooms_of(address).is_empty() {
            RegistryView {
                rooms: self.rooms,
                index: self.index.remove(address),
                workers: self.workers,
                homes: self.homes,
            }
        } else {
            self
        }
    }

    /// The address that the room `key` was opened for.
    pub open spec fn home_of(self, key: Seq<char>) -> Seq<char> {
        self.homes[key].0
    }

    /// The live rooms of `address` that are left when the rooms in `closed`
    /// have been taken out of the index, each from the entry of the address
    /// that it was opened for.
    pub open spec fn rooms_left(self, address: Seq<char>, closed: Seq<Seq<char>>) -> Set<
        Seq<char>,
    > {
        Set::new(
            |k: Seq<char>|
                self.rooms_of(address).contains(k) && !(closed.contains(k) && self.home_of(k)
                    == address),
        )
    }

    /// The state after `client` has gone: it sits in no room any more, the
    /// rooms that held nobody else are closed, and each closed room is taken
    /// out of the index entry of the address that it was opened for.
    pub open spec fn disconnect(self, client: Seq<char>) -> RegistryView {
        RegistryView {
            rooms: Map::new(
                |k: Seq<char>| self.rooms.contains_key(k) && !self.closes_room(k, client),
                |k: Seq<char>| self.rooms[k].remove(client),
            ),
            index: Map::new(
                |a: Seq<char>| self.index.contains_key(a),
                |a: Seq<char>|
                    Set::new(
                        |k: Seq<char>|
                            self.index[a].contains(k) && !(self.closes_room(k, client)
                                && self.home_of(k) == a),
                    ),
            ),
            workers: self.workers,
            homes: Map::new(
                |k: Seq<char>| self.homes.contains_key(k) && !self.closes_room(k, client),
                |k: Seq<char>| self.homes[k],
            ),
        }
    }

    /// The state after the worker of `address` has ended.
    pub open spec fn worker_exited(self, address: Seq<char>) -> RegistryView {
        RegistryView {
            rooms: self.rooms,
            index: self.index,
            workers: self.workers.remove(address),
            homes: self.homes,
        }
    }

    /// The rooms that an address and a pool id are kept for are the rooms
    /// that there are.
    pub open spec fn homes_match(self) -> bool {
        forall|k: Seq<char>|
            #![trigger self.homes.contains_key(k)]
            #![trigger self.rooms.contains_key(k)]
            self.homes.contains_key(k) <==> self.rooms.contains_key(k)
    }
}

/// A list is empty exactly if it has no members.
pub proof fn lemma_empty_list(s: Seq<Seq<char>>)
    ensures
        (s.len() == 0) == s.to_set().is_empty(),
{
    if s.len() > 0 {
        assert(s.to_set().contains(s[0]));
    }
}

/// What a subscription asks of the socket layer and of the workers.
pub struct Subscribed {
    /// The room that the client's socket joins.
    pub room: String,
    /// The canonical address of the token.
    pub address: String,
    /// The pool id of the chain.
    pub pool_id: i64,
    /// A worker for the address has to be started before the commands go out.
    pub spawn_worker: bool,
    /// The commands for the worker of the address, in order.
    pub commands: Vec<SubscriptionCommand>,
}

/// What leaving a room asks of the socket layer and of the workers.
pub struct Unsubscribed {
    /// The room that the client's socket leaves.
    pub room: String,
    /// The canonical address of the token.
    pub address: String,
    /// The pool id of the chain.
    pub pool_id: i64,
    /// The room held nobody else and is gone.
    pub room_closed: bool,
    /// The commands for the worker of the address, in order.
    pub commands: Vec<SubscriptionCommand>,
    /// The timer that ends the trade stream of the address has to be started.
    pub start_timer: bool,
}

/// A room that a disconnect has closed, and what closing it asks for.
pub struct RoomClosed {
    /// The key of the room, which is the name of its candle stream.
    pub room: String,
    /// The canonical address that the room was opened for.
    pub address: String,
    /// The pool id that the room was opened for.
    pub pool_id: i64,
    /// The commands for the worker of the room's address, in order.
    pub commands: Vec<SubscriptionCommand>,
    /// The timer that ends the trade stream of the address has to be started.
    pub start_timer: bool,
}

/// The room keys of a sequence of closed rooms.
pub open spec fn closed_rooms(records: Seq<RoomClosed>) -> Seq<Seq<char>> {
    Seq::new(records.len(), |i: int| records[i].room@)
}

/// What the `j`-th closed room `rec` of a disconnect says, where `keys` are
/// the keys of all the rooms closed, in the order of the records, and `v` is
/// the state before: address and pool id are those that the room was opened
/// for; the candle stream is dropped if the address has a worker; the timer
/// is started if the rooms closed up to here leave the address without a
/// live room. That is what an explicit unsubscribe of the last client does.
pub open spec fn closed_record_ok(
    v: RegistryView,
    keys: Seq<Seq<char>>,
    j: int,
    rec: RoomClosed,
) -> bool {
    &&& rec.room@ == keys[j]
    &&& rec.address@ == v.homes[keys[j]].0
    &&& rec.pool_id == v.homes[keys[j]].1
    &&& command_views(rec.commands@) == (if v.workers.contains_key(rec.address@) {
        seq![CommandView::Unsubscribe(keys[j])]
    } else {
        Seq::empty()
    })
    &&& rec.start_timer == v.rooms_left(rec.address@, keys.take(j + 1)).is_empty()
}

/// Whether the room stored as `lists[k]` closes when `client` leaves it.
pub open spec fn list_closes(
    lists: Map<Seq<char>, Seq<Seq<char>>>,
    k: Seq<char>,
    client: Seq<char>,
) -> bool {
    lists.contains_key(k) && lists[k].to_set().remove(client).is_empty()
}

/// The index entries after the rooms in `closed` have been torn down, each
/// taken out of the entry of the address that `homes` keeps for it.
pub open spec fn index_minus(
    index: Map<Seq<char>, Set<Seq<char>>>,
    homes: Map<Seq<char>, (Seq<char>, i64)>,
    closed: Seq<Seq<char>>,
) -> Map<Seq<char>, Set<Seq<char>>> {
    Map::new(
        |a: Seq<char>| index.contains_key(a),
        |a: Seq<char>|
            Set::new(
                |k: Seq<char>| index[a].contains(k) && !(closed.contains(k) && homes[k].0 == a),
            ),
    )
}

/// One more element taken is one more element that may be found.
pub proof fn lemma_take_contains(s: Seq<Seq<char>>, i: int, k: Seq<char>)
    requires
        0 <= i < s.len(),
    ensures
        s.take(i + 1).contains(k) == (s.take(i).contains(k) || s[i] == k),
{
    let a = s.take(i);
    let b = s.take(i + 1);
    if a.contains(k) {
        let j = choose|j: int| 0 <= j < a.len() && a[j] == k;
        assert(b[j] == k);
    }
    if s[i] == k {
        assert(b[i] == k);
    }
    if b.contains(k) {
        let j = choose|j: int| 0 <= j < b.len() && b[j] == k;
        if j < i {
            assert(a[j] == k);
        }
    }
}

/// What a fired timer asks of the workers.
pub struct TimerOutcome {
    /// The address was still without a live room, and its trade stream ends.
    pub unsubscribed: bool,
    /// The command for the worker of the address, if it has one.
    pub command: Option<SubscriptionCommand>,
}

/// The registry of rooms, live rooms per address, and workers.
pub struct Registry {
    rooms: DashMap<String, Vec<String>>,
    index: DashMap<String, Vec<String>>,
    workers: DashMap<String, i64>,
    room_address: DashMap<String, String>,
    room_pool: DashMap<String, i64>,
}

impl View for Registry {
    type V = RegistryView;

    closed spec fn view(&self) -> RegistryView {
        RegistryView {
            rooms: as_sets(lists_in(self.rooms)),
            index: as_sets(lists_in(self.index)),
            workers: numbers_in(self.workers),
            homes: homes_of(texts_in(self.room_address), numbers_in(self.room_pool)),
        }
    }
}

impl Registry {
    /// No list names anything twice, and no room is stored without a client.
    closed spec fn lists_ok(&self) -> bool {
        &&& forall|k: Seq<char>| #[trigger]
            lists_in(self.rooms).contains_key(k) ==> lists_in(self.rooms)[k].no_duplicates()
                && lists_in(self.rooms)[k].len() > 0
        &&& forall|a: Seq<char>| #[trigger]
            lists_in(self.index).contains_key(a) ==> lists_in(self.index)[a].no_duplicates()
    }

    /// The addresses that are kept for rooms.
    closed spec fn kept_addresses(&self) -> Map<Seq<char>, Seq<char>> {
        texts_in(self.room_address)
    }

    /// The pool ids that are kept for rooms.
    closed spec fn kept_pools(&self) -> Map<Seq<char>, i64> {
        numbers_in(self.room_pool)
    }

    /// The rooms as they are stored.
    closed spec fn stored_rooms(&self) -> Map<Seq<char>, Seq<Seq<char>>> {
        lists_in(self.rooms)
    }

    /// The invariant of the representation: no list names anything twice, no
    /// room is stored without a client, and an address and a pool id are
    /// kept for the rooms that there are and for nothing else.
    pub closed spec fn wf(&self) -> bool {
        &&& self.lists_ok()
        &&& self.stored_rooms().dom() =~= self.kept_addresses().dom()
        &&& self.stored_rooms().dom() =~= self.kept_pools().dom()
    }

    /// An address and a pool id are kept for the rooms of a well-formed
    /// registry and for nothing else.
    pub proof fn lemma_homes_match(&self)
        requires
            self.wf(),
        ensures
            self@.homes_match(),
    {
        assert forall|k: Seq<char>|
            #![trigger self@.homes.contains_key(k)]
            #![trigger self@.rooms.contains_key(k)]
            self@.homes.contains_key(k) <==> self@.rooms.contains_key(k) by {
            assert(self@.rooms.contains_key(k) == self.stored_rooms().dom().contains(k));
            assert(self.kept_addresses().dom().contains(k) == self.kept_addresses().contains_key(
                k,
            ));
            assert(self.kept_pools().dom().contains(k) == self.kept_pools().contains_key(k));
        }
    }

    /// Every room of a well-formed registry has at least one client.
    pub proof fn lemma_rooms_inhabited(&self)
        requires
            self.wf(),
        ensures
            self@.rooms_inhabited(),
    {
        assert forall|k: Seq<char>| #[trigger] self@.rooms.contains_key(k) implies !self@.rooms[k].is_empty() by {
            assert(lists_in(self.rooms).contains_key(k));
            lemma_empty_list(lists_in(self.rooms)[k]);
        }
    }

    /// A registry without rooms, index entries or workers.
    pub fn new() -> (r: Registry)
        ensures
            r.wf(),
            r@.rooms == Map::<Seq<char>, Set<Seq<char>>>::empty(),
            r@.index == Map::<Seq<char>, Set<Seq<char>>>::empty(),
            r@.workers == Map::<Seq<char>, i64>::empty(),
            r@.homes == Map::<Seq<char>, (Seq<char>, i64)>::empty(),
    {
        let r = Registry {
            rooms: lists_new(),
            index: lists_new(),
            workers: numbers_new(),
            room_address: texts_new(),
            room_pool: numbers_new(),
        };
        assert(r@.rooms =~= Map::<Seq<char>, Set<Seq<char>>>::empty());
        assert(r@.index =~= Map::<Seq<char>, Set<Seq<char>>>::empty());
        assert(r@.homes =~= Map::<Seq<char>, (Seq<char>, i64)>::empty());
        r
    }

    /// Puts `client` into the room of `(address, chain, interval)`, opening
    /// the room if need be. An unknown chain is refused and changes nothing.
    pub fn subscribe(&mut self, address: &str, chain: &str, interval: &str, client: &str) -> (r:
        Option<Subscribed>)
        requires
            old(self).wf(),
        ensures
            final(self).wf(),
            match r {
                None => pool_id_spec(chain@) is None && final(self)@ == old(self)@,
                Some(s) => {
                    &&& pool_id_spec(chain@) == Some(s.pool_id as int)
                    &&& s.address@ == normalize_spec(s.pool_id as int, address@)
                    &&& s.room@ == room_key_spec(s.pool_id as int, s.address@, interval@)
                    &&& final(self)@ == old(self)@.subscribe(
                        s.pool_id,
                        s.address@,
                        interval@,
                        client@,
                    )
                    &&& s.spawn_worker == old(self)@.spawns_worker(s.room@, s.address@)
                    &&& command_views(s.commands@) == old(self)@.subscribe_commands(
                        s.pool_id,
                        s.address@,
                        interval@,
                    )
                },
            },
    {
        let pool_id = match pool_id_for_chain(chain) {
            Some(p) => p,
            None => {
                return None;
            },
        };
        let addr = normalize_address(pool_id, address);
        let room = room_key(pool_id, addr.as_str(), interval);
        let ghost before = self@;

        let existing = lists_get(&self.rooms, room.as_str());
        let is_new_room = existing.is_none();
        let mut clients: Vec<String> = match existing {
            Some(c) => c,
            None => Vec::new(),
        };
        proof {
            if is_new_room {
                assert(texts(clients@) =~= Seq::<Seq<char>>::empty());
                assert(texts(clients@).to_set() =~= Set::<Seq<char>>::empty());
            }
            assert(texts(clients@).to_set() == before.clients(room@));
        }
        lists::add(&mut clients, String::from_str(client));
        lists_insert(&mut self.rooms, room.clone(), clients);

        let entry = lists_get(&self.index, addr.as_str());
        let mut keys: Vec<String> = match entry {
            Some(k) => k,
            None => Vec::new(),
        };
        let need_tick = keys.len() == 0;
        proof {
            if entry is None {
                assert(texts(keys@) =~= Seq::<Seq<char>>::empty());
                assert(texts(keys@).to_set() =~= Set::<Seq<char>>::empty());
            }
            assert(texts(keys@).to_set() == before.rooms_of(addr@));
            lemma_empty_list(texts(keys@));
        }
        lists::add(&mut keys, room.clone());
        lists_insert(&mut self.index, addr.clone(), keys);

        let mut commands: Vec<SubscriptionCommand> = Vec::new();
        let mut spawn_worker = false;
        if is_new_room {
            texts_insert(&mut self.room_address, room.clone(), addr.clone());
            numbers_insert(&mut self.room_pool, room.clone(), pool_id);
            if numbers_get(&self.workers, addr.as_str()).is_none() {
                numbers_insert(&mut self.workers, addr.clone(), pool_id);
                spawn_worker = true;
            }
            commands.push(SubscriptionCommand::Subscribe(kline_stream(pool_id, addr.as_str(), interval)));
            if need_tick {
                commands.push(SubscriptionCommand::Subscribe(tick_stream(pool_id, addr.as_str())));
            }
        }
        proof {
            let after = before.subscribe(pool_id, addr@, interval@, client@);
            assert(self@.rooms =~= after.rooms);
            assert(self@.index =~= after.index);
            assert(self@.workers =~= after.workers);
            assert(self@.homes =~= after.homes);
            assert(self@ =~= after);
            assert(self.stored_rooms().dom() =~= old(self).stored_rooms().dom().insert(room@));
            assert(self.kept_addresses().dom() =~= old(self).kept_addresses().dom().insert(room@));
            assert(self.kept_pools().dom() =~= old(self).kept_pools().dom().insert(room@));
            assert(command_views(commands@) =~= before.subscribe_commands(
                pool_id,
                addr@,
                interval@,
            ));
        }
        Some(Subscribed { room, address: addr, pool_id, spawn_worker, commands })
    }

    /// Takes the room `key` out of the index entry of `address`, if there is
    /// one; tells whether the address is left without a live room.
    fn index_remove(&mut self, address: &str, key: &str) -> (vacant: bool)
        requires
            old(self).lists_ok(),
        ensures
            final(self).lists_ok(),
            final(self).stored_rooms() == old(self).stored_rooms(),
            final(self).kept_addresses() == old(self).kept_addresses(),
            final(self).kept_pools() == old(self).kept_pools(),
            final(self)@.rooms == old(self)@.rooms,
            final(self)@.workers == old(self)@.workers,
            final(self)@.homes == old(self)@.homes,
            final(self)@.index == old(self)@.index_without(address@, key@),
            vacant == old(self)@.rooms_of(address@).remove(key@).is_empty(),
    {
        let ghost before = self@;
        match lists_get(&self.index, address) {
            Some(mut keys) => {
                lists::discard(&mut keys, key);
                let vacant = keys.len() == 0;
                proof {
                    lemma_empty_list(texts(keys@));
                }
                lists_insert(&mut self.index, String::from_str(address), keys);
                assert(self@.index =~= before.index_without(address@, key@));
                vacant
            },
            None => {
                assert(before.rooms_of(address@).remove(key@) =~= Set::<Seq<char>>::empty());
                true
            },
        }
    }

    /// Takes `client` out of the room `key` of `address`, closing the room
    /// if it held nobody else.
    fn leave(&mut self, pool_id: i64, address: String, key: String, client: &str) -> (r:
        Unsubscribed)
        requires
            old(self).wf(),
        ensures
            final(self).wf(),
            r.room@ == key@,
            r.address@ == address@,
            r.pool_id == pool_id,
            final(self)@ == old(self)@.leave(address@, key@, client@),
            r.room_closed == old(self)@.closes_room(key@, client@),
            command_views(r.commands@) == old(self)@.leave_commands(address@, key@, client@),
            r.start_timer == old(self)@.leave_starts_timer(address@, key@, client@),
    {
        let ghost before = self@;
        let mut commands: Vec<SubscriptionCommand> = Vec::new();
        let mut room_closed = false;
        let mut start_timer = false;
        match lists_get(&self.rooms, key.as_str()) {
            Some(mut clients) => {
                lists::discard(&mut clients, client);
                proof {
                    lemma_empty_list(texts(clients@));
                }
                if clients.len() == 0 {
                    room_closed = true;
                    lists_remove(&mut self.rooms, key.as_str());
                    if numbers_get(&self.workers, address.as_str()).is_some() {
                        commands.push(SubscriptionCommand::Unsubscribe(key.clone()));
                    }
                    texts_remove(&mut self.room_address, key.as_str());
                    numbers_remove(&mut self.room_pool, key.as_str());
                    assert(self@.rooms =~= before.rooms.remove(key@));
                    assert(self@.homes =~= before.homes.remove(key@));
                    start_timer = self.index_remove(address.as_str(), key.as_str());
                } else {
                    lists_insert(&mut self.rooms, key.clone(), clients);
                    assert(self@.rooms =~= before.rooms.insert(
                        key@,
                        before.rooms[key@].remove(client@),
                    ));
                }
            },
            None => {},
        }
        proof {
            assert(self@ =~= before.leave(address@, key@, client@));
            assert(command_views(commands@) =~= before.leave_commands(address@, key@, client@));
            if room_closed {
                assert(self.stored_rooms().dom() =~= old(self).stored_rooms().dom().remove(key@));
                assert(self.kept_addresses().dom() =~= old(self).kept_addresses().dom().remove(
                    key@,
                ));
                assert(self.kept_pools().dom() =~= old(self).kept_pools().dom().remove(key@));
            } else {
                assert(self.stored_rooms().dom() =~= old(self).stored_rooms().dom());
                assert(self.kept_addresses() == old(self).kept_addresses());
                assert(self.kept_pools() == old(self).kept_pools());
            }
        }
        Unsubscribed { room: key, address, pool_id, room_closed, commands, start_timer }
    }

    /// Takes `client` out of the room of `(address, chain, interval)`. The
    /// room is closed when it held nobody else: its candle stream is dropped,
    /// and the timer is started where the address is left without a live
    /// room. An unknown chain is refused and changes nothing.
    pub fn unsubscribe(&mut self, address: &str, chain: &str, interval: &str, client: &str) -> (r:
        Option<Unsubscribed>)
        requires
            old(self).wf(),
        ensures
            final(self).wf(),
            match r {
                None => pool_id_spec(chain@) is None && final(self)@ == old(self)@,
                Some(u) => {
                    &&& pool_id_spec(chain@) == Some(u.pool_id as int)
                    &&& u.address@ == normalize_spec(u.pool_id as int, address@)
                    &&& u.room@ == room_key_spec(u.pool_id as int, u.address@, interval@)
                    &&& final(self)@ == old(self)@.unsubscribe(
                        u.pool_id,
                        u.address@,
                        interval@,
                        client@,
                    )
                    &&& u.room_closed == old(self)@.closes_room(u.room@, client@)
                    &&& command_views(u.commands@) == old(self)@.leave_commands(
                        u.address@,
                        u.room@,
                        client@,
                    )
                    &&& u.start_timer == old(self)@.leave_starts_timer(
                        u.address@,
                        u.room@,
                        client@,
                    )
                },
            },
    {
        let pool_id = match pool_id_for_chain(chain) {
            Some(p) => p,
            None => {
                return None;
            },
        };
        let addr = normalize_address(pool_id, address);
        let room = room_key(pool_id, addr.as_str(), interval);
        Some(self.leave(pool_id, addr, room, client))
    }

    /// The timer of `address` has fired. Where the address still has no live
    /// room, its index entry is dropped and its worker, if it has one, is
    /// told to end the trade stream; where a room has come back, nothing
    /// happens. `address` is the canonical form.
    pub fn timer_fired(&mut self, address: &str, pool_id: i64) -> (r: TimerOutcome)
        requires
            old(self).wf(),
        ensures
            final(self).wf(),
            final(self)@ == old(self)@.timer_fired(address@),
            r.unsubscribed == old(self)@.rooms_of(address@).is_empty(),
            match r.command {
                Some(c) => {
                    &&& r.unsubscribed
                    &&& old(self)@.workers.contains_key(address@)
                    &&& c@ == CommandView::Unsubscribe(
                        tick_stream_spec(pool_id as int, address@),
                    )
                },
                None => !(r.unsubscribed && old(self)@.workers.contains_key(address@)),
            },
    {
        let ghost before = self@;
        let vacant = match lists_get(&self.index, address) {
            Some(keys) => {
                proof {
                    lemma_empty_list(texts(keys@));
                }
                keys.len() == 0
            },
            None => true,
        };
        if vacant {
            let command = if numbers_get(&self.workers, address).is_some() {
                Some(SubscriptionCommand::Unsubscribe(tick_stream(pool_id, address)))
            } else {
                None
            };
            lists_remove(&mut self.index, address);
            assert(self@.index =~= before.index.remove(address@));
            assert(self@ =~= before.timer_fired(address@));
            assert(self.stored_rooms() == old(self).stored_rooms());
            assert(self.kept_addresses() == old(self).kept_addresses());
            assert(self.kept_pools() == old(self).kept_pools());
            TimerOutcome { unsubscribed: true, command }
        } else {
            TimerOutcome { unsubscribed: false, command: None }
        }
    }

    /// The worker of `address` has ended: its handle is dropped, so that the
    /// next room of the address starts a new one.
    pub fn worker_exited(&mut self, address: &str)
        requires
            old(self).wf(),
        ensures
            final(self).wf(),
            final(self)@ == old(self)@.worker_exited(address@),
    {
        numbers_remove(&mut self.workers, address);
        assert(self@ =~= old(self)@.worker_exited(address@));
        assert(self.stored_rooms() == old(self).stored_rooms());
        assert(self.kept_addresses() == old(self).kept_addresses());
        assert(self.kept_pools() == old(self).kept_pools());
    }

    /// Tells whether `address` has a worker.
    pub fn has_worker(&self, address: &str) -> (r: bool)
        ensures
            r == self@.workers.contains_key(address@),
    {
        numbers_get(&self.workers, address).is_some()
    }

    /// Tells whether the room `key` exists.
    pub fn has_room(&self, key: &str) -> (r: bool)
        ensures
            r == self@.rooms.contains_key(key@),
    {
        lists_get(&self.rooms, key).is_some()
    }

    /// The clients of the room `key`, each once; none where there is no such
    /// room.
    pub fn clients_of(&self, key: &str) -> (r: Vec<String>)
        requires
            self.wf(),
        ensures
            texts(r@).no_duplicates(),
            texts(r@).to_set() == self@.clients(key@),
    {
        match lists_get(&self.rooms, key) {
            Some(c) => c,
            None => {
                let c: Vec<String> = Vec::new();
                assert(texts(c@).to_set() =~= Set::<Seq<char>>::empty());
                c
            },
        }
    }

    /// The live rooms of `address`, each once: the rooms that a trade of the
    /// token is merged into. `address` is the canonical form.
    pub fn rooms_for(&self, address: &str) -> (r: Vec<String>)
        requires
            self.wf(),
        ensures
            texts(r@).no_duplicates(),
            texts(r@).to_set() == self@.rooms_of(address@),
    {
        match lists_get(&self.index, address) {
            Some(k) => k,
            None => {
                let k: Vec<String> = Vec::new();
                assert(texts(k@).to_set() =~= Set::<Seq<char>>::empty());
                k
            },
        }
    }
}

impl Registry {
    /// Takes `client` out of every room and closes the rooms that held
    /// nobody else; hands back the keys of the rooms closed.
    fn drop_client(&mut self, client: &str) -> (closed: Vec<String>)
        requires
            old(self).lists_ok(),
        ensures
            final(self).lists_ok(),
            final(self).kept_addresses() == old(self).kept_addresses(),
            final(self).kept_pools() == old(self).kept_pools(),
            final(self)@.index == old(self)@.index,
            final(self)@.workers == old(self)@.workers,
            final(self)@.homes == old(self)@.homes,
            final(self)@.rooms == old(self)@.disconnect(client@).rooms,
            texts(closed@).no_duplicates(),
            forall|k: Seq<char>|
                texts(closed@).contains(k) <==> old(self)@.closes_room(k, client@),
    {
        let keys = lists_keys(&self.rooms);
        let ghost before = self@;
        let ghost r0 = lists_in(self.rooms);
        let ghost kept_a = self.kept_addresses();
        let ghost kept_p = self.kept_pools();
        let ghost names = texts(keys@);
        let mut closed: Vec<String> = Vec::new();
        let mut i: usize = 0;
        proof {
            assert(texts(closed@) =~= Seq::<Seq<char>>::empty());
            assert(names.take(0) =~= Seq::<Seq<char>>::empty());
        }
        while i < keys.len()
            invariant
                i <= keys.len(),
                names == texts(keys@),
                names.no_duplicates(),
                forall|k: Seq<char>| names.contains(k) == r0.contains_key(k),
                forall|k: Seq<char>| #[trigger]
                    r0.contains_key(k) ==> r0[k].no_duplicates() && r0[k].len() > 0,
                self.lists_ok(),
                self.kept_addresses() == kept_a,
                self.kept_pools() == kept_p,
                self@.index == before.index,
                self@.workers == before.workers,
                forall|k: Seq<char>|
                    lists_in(self.rooms).contains_key(k) <==> r0.contains_key(k) && !(names.take(
                        i as int,
                    ).contains(k) && list_closes(r0, k, client@)),
                forall|k: Seq<char>| #[trigger]
                    lists_in(self.rooms).contains_key(k) ==> (if names.take(i as int).contains(
                        k,
                    ) {
                        lists_in(self.rooms)[k].to_set() == r0[k].to_set().remove(client@)
                    } else {
                        lists_in(self.rooms)[k] == r0[k]
                    }),
                texts(closed@).no_duplicates(),
                forall|k: Seq<char>|
                    texts(closed@).contains(k) <==> names.take(i as int).contains(k)
                        && list_closes(r0, k, client@),
            decreases keys.len() - i,
        {
            let key = keys[i].clone();
            let ghost kv = key@;
            let ghost done = names.take(i as int);
            let ghost cur = lists_in(self.rooms);
            proof {
                assert(names[i as int] == kv);
                assert(names.contains(kv));
                assert(!done.contains(kv)) by {
                    if done.contains(kv) {
                        let j = choose|j: int| 0 <= j < done.len() && done[j] == kv;
                        assert(names[j] == kv);
                    }
                }
                assert forall|k: Seq<char>|
                    names.take(i + 1).contains(k) == (done.contains(k) || k == kv) by {
                    lemma_take_contains(names, i as int, k);
                }
                assert(cur.contains_key(kv));
                lemma_empty_list(r0[kv]);
            }
            match lists_get(&self.rooms, key.as_str()) {
                Some(mut clients) => {
                    let removed = lists::discard(&mut clients, client);
                    proof {
                        lemma_empty_list(texts(clients@));
                        if !removed {
                            assert(r0[kv].to_set().remove(client@) =~= r0[kv].to_set());
                        }
                        assert(list_closes(r0, kv, client@) == (clients.len() == 0));
                        assert((clients.len() == 0) ==> removed);
                    }
                    if removed && clients.len() == 0 {
                        lists_remove(&mut self.rooms, key.as_str());
                        let ghost was = texts(closed@);
                        closed.push(key);
                        proof {
                            assert(texts(closed@) =~= was.push(kv));
                            assert(!was.contains(kv));
                            assert forall|k: Seq<char>|
                                texts(closed@).contains(k) == (was.contains(k) || k == kv) by {
                                if was.contains(k) {
                                    let j = choose|j: int| 0 <= j < was.len() && was[j] == k;
                                    assert(texts(closed@)[j] == k);
                                }
                                if k == kv {
                                    assert(texts(closed@)[was.len() as int] == k);
                                }
                            }
                            assert forall|k: Seq<char>|
                                texts(closed@).contains(k) <==> names.take(i + 1).contains(k)
                                    && list_closes(r0, k, client@) by {
                                assert(was.contains(k) <==> done.contains(k) && list_closes(
                                    r0,
                                    k,
                                    client@,
                                ));
                            }
                        }
                    } else {
                        proof {
                            if !removed {
                                assert(r0[kv].to_set().remove(client@) =~= r0[kv].to_set());
                            }
                        }
                        lists_insert(&mut self.rooms, key, clients);
                        proof {
                            assert forall|k: Seq<char>|
                                texts(closed@).contains(k) <==> names.take(i + 1).contains(k)
                                    && list_closes(r0, k, client@) by {
                                assert(texts(closed@).contains(k) <==> done.contains(k)
                                    && list_closes(r0, k, client@));
                            }
                        }
                    }
                },
                None => {},
            }
            proof {
                assert(self@.index =~= before.index);
            }
            i += 1;
        }
        proof {
            assert(names.take(keys.len() as int) =~= names);
            assert(self@.rooms =~= before.disconnect(client@).rooms);
        }
        closed
    }

    /// Tears down the rooms in `closed`: drops each one's candle stream,
    /// takes it out of the index entry of the address it was opened for, and
    /// forgets that address and its pool id.
    fn tear_down(&mut self, closed: Vec<String>) -> (records: Vec<RoomClosed>)
        requires
            old(self).lists_ok(),
            texts(closed@).no_duplicates(),
            forall|j: int|
                0 <= j < closed.len() ==> old(self).kept_addresses().contains_key(
                    #[trigger] texts(closed@)[j],
                ) && old(self).kept_pools().contains_key(texts(closed@)[j]),
        ensures
            final(self).lists_ok(),
            final(self).stored_rooms() == old(self).stored_rooms(),
            final(self).kept_addresses() == without_keys(
                old(self).kept_addresses(),
                texts(closed@),
            ),
            final(self).kept_pools() == without_keys(old(self).kept_pools(), texts(closed@)),
            final(self)@.rooms == old(self)@.rooms,
            final(self)@.workers == old(self)@.workers,
            final(self)@.index == index_minus(
                old(self)@.index,
                old(self)@.homes,
                texts(closed@),
            ),
            closed_rooms(records@) == texts(closed@),
            forall|j: int|
                0 <= j < records.len() ==> closed_record_ok(
                    old(self)@,
                    texts(closed@),
                    j,
                    #[trigger] records@[j],
                ),
    {
        let ghost before = self@;
        let ghost kept_a = self.kept_addresses();
        let ghost kept_p = self.kept_pools();
        let ghost keys = texts(closed@);
        let mut records: Vec<RoomClosed> = Vec::new();
        let mut j: usize = 0;
        proof {
            assert(keys.take(0) =~= Seq::<Seq<char>>::empty());
            assert forall|a: Seq<char>| #[trigger] before.index.contains_key(a) implies before.index[a]
                =~= index_minus(before.index, before.homes, keys.take(0))[a] by {}
            assert(self@.index =~= index_minus(before.index, before.homes, keys.take(0)));
            assert(self.kept_addresses() =~= without_keys(kept_a, keys.take(0)));
            assert(self.kept_pools() =~= without_keys(kept_p, keys.take(0)));
        }
        while j < closed.len()
            invariant
                j <= closed.len(),
                keys == texts(closed@),
                keys.no_duplicates(),
                before.homes == homes_of(kept_a, kept_p),
                forall|t: int|
                    0 <= t < closed.len() ==> kept_a.contains_key(#[trigger] keys[t])
                        && kept_p.contains_key(keys[t]),
                self.lists_ok(),
                self.stored_rooms() == old(self).stored_rooms(),
                self.kept_addresses() == without_keys(kept_a, keys.take(j as int)),
                self.kept_pools() == without_keys(kept_p, keys.take(j as int)),
                self@.rooms == before.rooms,
                self@.workers == before.workers,
                self@.index == index_minus(before.index, before.homes, keys.take(j as int)),
                records.len() == j,
                forall|t: int| 0 <= t < j ==> closed_record_ok(before, keys, t, #[trigger] records@[t]),
            decreases closed.len() - j,
        {
            let key = closed[j].clone();
            let ghost kv = key@;
            let ghost done = keys.take(j as int);
            let ghost now = self@;
            proof {
                assert(keys[j as int] == kv);
                assert forall|k: Seq<char>|
                    keys.take(j + 1).contains(k) == (done.contains(k) || k == kv) by {
                    lemma_take_contains(keys, j as int, k);
                }
                assert(!done.contains(kv)) by {
                    if done.contains(kv) {
                        let t = choose|t: int| 0 <= t < done.len() && done[t] == kv;
                        assert(keys[t] == kv);
                    }
                }
                assert(kept_a.contains_key(keys[j as int]));
            }
            let address = match texts_get(&self.room_address, key.as_str()) {
                Some(a) => a,
                None => String::new(),
            };
            let pool_id: i64 = match numbers_get(&self.room_pool, key.as_str()) {
                Some(p) => p,
                None => 0,
            };
            proof {
                assert(address@ == kept_a[kv]);
                assert(pool_id == kept_p[kv]);
                assert(before.homes[kv] == (address@, pool_id));
            }
            let mut commands: Vec<SubscriptionCommand> = Vec::new();
            if numbers_get(&self.workers, address.as_str()).is_some() {
                commands.push(SubscriptionCommand::Unsubscribe(key.clone()));
            }
            texts_remove(&mut self.room_address, key.as_str());
            numbers_remove(&mut self.room_pool, key.as_str());
            let start_timer = self.index_remove(address.as_str(), key.as_str());
            proof {
                let a = address@;
                assert(self.kept_addresses() =~= without_keys(kept_a, keys.take(j + 1)));
                assert(self.kept_pools() =~= without_keys(kept_p, keys.take(j + 1)));
                assert(self@.index =~= index_minus(before.index, before.homes, keys.take(j + 1))) by {
                    assert forall|b: Seq<char>| #[trigger]
                        before.index.contains_key(b) implies self@.index[b] =~= index_minus(
                        before.index,
                        before.homes,
                        keys.take(j + 1),
                    )[b] by {
                        assert(now.index[b] == index_minus(before.index, before.homes, done)[b]);
                    }
                }
                assert(now.rooms_of(a).remove(kv) =~= before.rooms_left(a, keys.take(j + 1)));
                assert(command_views(commands@) =~= (if before.workers.contains_key(a) {
                    seq![CommandView::Unsubscribe(kv)]
                } else {
                    Seq::empty()
                }));
            }
            records.push(RoomClosed { room: key, address, pool_id, commands, start_timer });
            j += 1;
        }
        proof {
            assert(keys.take(closed.len() as int) =~= keys);
            assert(closed_rooms(records@) =~= keys);
        }
        records
    }

    /// The socket of `client` is gone. The client is taken out of every room;
    /// each room that held nobody else is closed and torn down as an explicit
    /// unsubscribe would: its candle stream is dropped, it leaves the index
    /// entry of the address it was opened for, and the timer is started
    /// where that address is left without a live room. The rooms closed come
    /// back in no stated order.
    pub fn disconnect(&mut self, client: &str) -> (records: Vec<RoomClosed>)
        requires
            old(self).wf(),
        ensures
            final(self).wf(),
            final(self)@ == old(self)@.disconnect(client@),
            closed_rooms(records@).no_duplicates(),
            forall|k: Seq<char>|
                closed_rooms(records@).contains(k) <==> old(self)@.closes_room(k, client@),
            forall|j: int|
                0 <= j < records.len() ==> closed_record_ok(
                    old(self)@,
                    closed_rooms(records@),
                    j,
                    #[trigger] records@[j],
                ),
    {
        let ghost before = self@;
        let ghost rooms0 = self.stored_rooms();
        let closed = self.drop_client(client);
        let ghost mid = self@;
        proof {
            assert forall|j: int| 0 <= j < closed.len() implies self.kept_addresses().contains_key(
                #[trigger] texts(closed@)[j],
            ) && self.kept_pools().contains_key(texts(closed@)[j]) by {
                let k = texts(closed@)[j];
                assert(texts(closed@).contains(k));
                assert(before.closes_room(k, client@));
                assert(before.rooms.contains_key(k));
                assert(rooms0.dom().contains(k));
            }
        }
        let records = self.tear_down(closed);
        proof {
            let keys = closed_rooms(records@);
            assert(mid.index == before.index);
            assert(mid.homes == before.homes);
            assert(mid.workers == before.workers);
            assert forall|j: int| 0 <= j < records.len() implies closed_record_ok(
                before,
                keys,
                j,
                #[trigger] records@[j],
            ) by {
                assert(closed_record_ok(mid, keys, j, records@[j]));
                assert(mid.rooms_left(records@[j].address@, keys.take(j + 1))
                    =~= before.rooms_left(records@[j].address@, keys.take(j + 1)));
            }
            assert(self@.index =~= before.disconnect(client@).index) by {
                assert forall|a: Seq<char>| #[trigger]
                    before.index.contains_key(a) implies self@.index[a] =~= before.disconnect(
                    client@,
                ).index[a] by {}
            }
            assert(self@.homes =~= before.disconnect(client@).homes);
            assert(self@ =~= before.disconnect(client@));
            assert(self.stored_rooms().dom() =~= self.kept_addresses().dom()) by {
                assert forall|k: Seq<char>|
                    self.stored_rooms().dom().contains(k) == self.kept_addresses().dom().contains(
                        k,
                    ) by {
                    assert(self@.rooms.contains_key(k) == self.stored_rooms().contains_key(k));
                    assert(before.rooms.contains_key(k) == rooms0.dom().contains(k));
                }
            }
            assert(self.stored_rooms().dom() =~= self.kept_pools().dom()) by {
                assert forall|k: Seq<char>|
                    self.stored_rooms().dom().contains(k) == self.kept_pools().dom().contains(
                        k,
                    ) by {
                    assert(self@.rooms.contains_key(k) == self.stored_rooms().contains_key(k));
                    assert(before.rooms.contains_key(k) == rooms0.dom().contains(k));
                }
            }
        }
        records
    }
}

// ---------------------------------------------------------------------------
// Laws of the model
// ---------------------------------------------------------------------------

impl RegistryView {
    /// The index is exact: the live rooms of an address are the rooms that
    /// were opened for that address, no more and no fewer.
    pub open spec fn index_exact(self) -> bool {
        forall|a: Seq<char>, k: Seq<char>| #[trigger]
            self.rooms_of(a).contains(k) <==> (self.rooms.contains_key(k) && self.home_of(k)
                == a)
    }

    /// Whether the room of `(pool_id, address, interval)`, if there is one,
    /// was opened for `address`. It was, unless another address shares the
    /// key, which takes an `@` in an address or an interval: keys whose
    /// addresses and intervals hold none are equal only for equal addresses.
    pub open spec fn no_clash(self, pool_id: i64, address: Seq<char>, interval: Seq<char>) -> bool {
        let key = room_key_spec(pool_id as int, address, interval);
        self.rooms.contains_key(key) ==> self.home_of(key) == address
    }

    /// The state without rooms, index entries or workers.
    pub open spec fn empty() -> RegistryView {
        RegistryView {
            rooms: Map::empty(),
            index: Map::empty(),
            workers: Map::empty(),
            homes: Map::empty(),
        }
    }

    /// The index of the empty registry is exact, and no room lacks a client.
    pub proof fn lemma_empty_is_sound()
        ensures
            Self::empty().index_exact(),
            Self::empty().rooms_inhabited(),
            Self::empty().homes_match(),
    {
    }

    /// A subscription keeps every room inhabited.
    pub proof fn lemma_subscribe_inhabited(
        self,
        pool_id: i64,
        address: Seq<char>,
        interval: Seq<char>,
        client: Seq<char>,
    )
        requires
            self.rooms_inhabited(),
        ensures
            self.subscribe(pool_id, address, interval, client).rooms_inhabited(),
    {
        let key = room_key_spec(pool_id as int, address, interval);
        let after = self.subscribe(pool_id, address, interval, client);
        assert forall|k: Seq<char>| #[trigger] after.rooms.contains_key(k) implies !after.rooms[k].is_empty() by {
            if k == key {
                assert(after.rooms[k].contains(client));
            } else {
                assert(self.rooms.contains_key(k));
            }
        }
    }

    /// Leaving a room keeps every other room inhabited, and the room itself
    /// too unless it is closed.
    pub proof fn lemma_leave_inhabited(self, address: Seq<char>, key: Seq<char>, client: Seq<char>)
        requires
            self.rooms_inhabited(),
        ensures
            self.leave(address, key, client).rooms_inhabited(),
    {
        let after = self.leave(address, key, client);
        assert forall|k: Seq<char>| #[trigger] after.rooms.contains_key(k) implies !after.rooms[k].is_empty() by {
            assert(self.rooms.contains_key(k));
        }
    }

    /// A disconnect keeps every remaining room inhabited.
    pub proof fn lemma_disconnect_inhabited(self, client: Seq<char>)
        requires
            self.rooms_inhabited(),
        ensures
            self.disconnect(client).rooms_inhabited(),
    {
    }

    /// A subscription keeps the index exact, unless the room is there and
    /// was opened for another address.
    pub proof fn lemma_subscribe_exact(
        self,
        pool_id: i64,
        address: Seq<char>,
        interval: Seq<char>,
        client: Seq<char>,
    )
        requires
            self.index_exact(),
            self.no_clash(pool_id, address, interval),
        ensures
            self.subscribe(pool_id, address, interval, client).index_exact(),
    {
        let key = room_key_spec(pool_id as int, address, interval);
        let after = self.subscribe(pool_id, address, interval, client);
        assert forall|a: Seq<char>, k: Seq<char>| #[trigger]
            after.rooms_of(a).contains(k) <==> (after.rooms.contains_key(k) && after.home_of(k)
                == a) by {
            assert(self.rooms_of(a).contains(k) <==> (self.rooms.contains_key(k) && self.home_of(k)
                == a));
        }
    }

    /// Leaving the room of `(pool_id, address, interval)` keeps the index
    /// exact, unless the room was opened for another address.
    pub proof fn lemma_unsubscribe_exact(
        self,
        pool_id: i64,
        address: Seq<char>,
        interval: Seq<char>,
        client: Seq<char>,
    )
        requires
            self.index_exact(),
            self.no_clash(pool_id, address, interval),
        ensures
            self.unsubscribe(pool_id, address, interval, client).index_exact(),
    {
        let key = room_key_spec(pool_id as int, address, interval);
        let after = self.unsubscribe(pool_id, address, interval, client);
        assert forall|a: Seq<char>, k: Seq<char>| #[trigger]
            after.rooms_of(a).contains(k) <==> (after.rooms.contains_key(k) && after.home_of(k)
                == a) by {
            assert(self.rooms_of(a).contains(k) <==> (self.rooms.contains_key(k) && self.home_of(k)
                == a));
        }
    }

    /// A disconnect keeps the index exact.
    pub proof fn lemma_disconnect_exact(self, client: Seq<char>)
        requires
            self.homes_match(),
            self.index_exact(),
        ensures
            self.disconnect(client).index_exact(),
    {
        let after = self.disconnect(client);
        assert forall|a: Seq<char>, k: Seq<char>| #[trigger]
            after.rooms_of(a).contains(k) <==> (after.rooms.contains_key(k) && after.home_of(k)
                == a) by {
            assert(self.rooms_of(a).contains(k) <==> (self.rooms.contains_key(k) && self.home_of(k)
                == a));
        }
    }

    /// A disconnect leaves no closed room in the index, whatever its key
    /// looks like: where the index was exact, no address has a live room
    /// that the disconnect has closed.
    pub proof fn lemma_disconnect_leaves_no_dead_room(self, client: Seq<char>)
        requires
            self.index_exact(),
        ensures
            forall|a: Seq<char>, k: Seq<char>|
                self.closes_room(k, client) ==> !#[trigger] self.disconnect(client).rooms_of(
                    a,
                ).contains(k),
    {
        let after = self.disconnect(client);
        assert forall|a: Seq<char>, k: Seq<char>| self.closes_room(k, client) implies !#[trigger] after.rooms_of(
            a,
        ).contains(k) by {
            assert(self.rooms_of(a).contains(k) <==> (self.rooms.contains_key(k) && self.home_of(k)
                == a));
        }
    }

    /// A fired timer keeps the index exact, and so does the end of a worker.
    pub proof fn lemma_timer_exact(self, address: Seq<char>)
        requires
            self.index_exact(),
        ensures
            self.timer_fired(address).index_exact(),
            self.worker_exited(address).index_exact(),
    {
        let after = self.timer_fired(address);
        assert forall|a: Seq<char>, k: Seq<char>| #[trigger]
            after.rooms_of(a).contains(k) <==> (after.rooms.contains_key(k) && after.home_of(k)
                == a) by {
            assert(self.rooms_of(a).contains(k) <==> (self.rooms.contains_key(k) && self.home_of(k)
                == a));
        }
        let other = self.worker_exited(address);
        assert forall|a: Seq<char>, k: Seq<char>| #[trigger]
            other.rooms_of(a).contains(k) <==> (other.rooms.contains_key(k) && other.home_of(k)
                == a) by {
            assert(self.rooms_of(a).contains(k) <==> (self.rooms.contains_key(k) && self.home_of(k)
                == a));
        }
    }

    /// An address has one worker at most: its handle is a single map entry,
    /// no operation but a subscription adds one, and a subscription starts a
    /// worker only for an address that has none.
    pub proof fn lemma_one_worker(
        self,
        pool_id: i64,
        address: Seq<char>,
        interval: Seq<char>,
        client: Seq<char>,
    )
        ensures
            self.workers.contains_key(address) ==> !self.spawns_worker(
                room_key_spec(pool_id as int, address, interval),
                address,
            ),
            self.workers.contains_key(address) ==> self.subscribe(
                pool_id,
                address,
                interval,
                client,
            ).workers == self.workers,
            forall|a: Seq<char>|
                a != address ==> (self.subscribe(pool_id, address, interval, client).workers.contains_key(
                    a,
                ) <==> self.workers.contains_key(a)),
    {
    }

    /// Subscribing and then unsubscribing the same client, address and
    /// interval restores the rooms, what is kept for them and each address's
    /// live rooms, and loses no worker, provided that the client was not in
    /// the room before, that the index was exact, and that the room, if it
    /// was there, was opened for this address. A worker that the subscription
    /// started stays.
    pub proof fn lemma_subscribe_then_unsubscribe(
        self,
        pool_id: i64,
        address: Seq<char>,
        interval: Seq<char>,
        client: Seq<char>,
    )
        requires
            self.rooms_inhabited(),
            self.homes_match(),
            self.index_exact(),
            self.no_clash(pool_id, address, interval),
            !self.clients(room_key_spec(pool_id as int, address, interval)).contains(client),
        ensures
            ({
                let after = self.subscribe(pool_id, address, interval, client).unsubscribe(
                    pool_id,
                    address,
                    interval,
                    client,
                );
                &&& after.rooms == self.rooms
                &&& after.homes == self.homes
                &&& forall|a: Seq<char>| after.rooms_of(a) == self.rooms_of(a)
                &&& forall|a: Seq<char>| #[trigger]
                    self.workers.contains_key(a) ==> after.workers.contains_key(a)
                        && after.workers[a] == self.workers[a]
                &&& forall|a: Seq<char>| #[trigger]
                    after.workers.contains_key(a) ==> self.workers.contains_key(a) || a
                        == address
            }),
    {
        let key = room_key_spec(pool_id as int, address, interval);
        let mid = self.subscribe(pool_id, address, interval, client);
        let after = mid.unsubscribe(pool_id, address, interval, client);
        assert(self.rooms_of(address).contains(key) <==> (self.rooms.contains_key(key)
            && self.home_of(key) == address));
        assert(mid.rooms[key].remove(client) =~= self.clients(key));
        if self.rooms.contains_key(key) {
            assert(!self.rooms[key].is_empty());
            assert(!mid.closes_room(key, client));
            assert(mid.rooms_of(address) =~= self.rooms_of(address));
        } else {
            assert(mid.closes_room(key, client));
            assert(mid.rooms_of(address).remove(key) =~= self.rooms_of(address));
            assert(!self.homes.contains_key(key));
        }
        assert(after.rooms =~= self.rooms);
        assert(after.homes =~= self.homes);
        assert forall|a: Seq<char>| after.rooms_of(a) == self.rooms_of(a) by {
            assert(after.rooms_of(a) =~= self.rooms_of(a));
        }
    }
}

} // verus!
