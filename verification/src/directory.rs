use vstd::prelude::*;

use crate::message::str_eq;

verus! {

/// One connected, nickname-registered client: a stable connection identity,
/// assigned at accept time, and the nickname chosen at registration.
pub struct Session {
    pub id: u64,
    pub nickname: String,
}

impl Session {
    pub fn new(id: u64, nickname: String) -> (s: Session)
        ensures
            s.id == id,
            s.nickname == nickname,
    {
        Session { id, nickname }
    }

    /// A copy equal to the original in both fields.
    pub fn duplicate(&self) -> (s: Session)
        ensures
            s == *self,
    {
        Session { id: self.id, nickname: self.nickname.clone() }
    }
}

/// A named group of sessions; messages are broadcast only within a room.
pub struct Room {
    pub name: String,
    pub members: Vec<Session>,
}

/// One membership-index record: a connection identity and the name of the
/// room that connection currently occupies.
pub struct Entry {
    pub id: u64,
    pub room: String,
}

/// The name of the room every client is assigned to at registration.
pub open spec fn default_name() -> Seq<char> {
    "default"@
}

/// The room directory and the membership index, kept consistent with each
/// other by every operation. Callers that share it across threads guard the
/// whole structure with one lock, one operation per critical section.
pub struct Directory {
    pub rooms: Vec<Room>,
    pub index: Vec<Entry>,
}

impl Directory {
    /// The room names, in creation order.
    pub open spec fn room_names_seq(self) -> Seq<Seq<char>> {
        self.rooms@.map_values(|r: Room| r.name@)
    }

    pub open spec fn has_room(self, name: Seq<char>) -> bool {
        exists|i: int| 0 <= i < self.rooms@.len() && self.rooms@[i].name@ == name
    }

    pub open spec fn room_idx(self, name: Seq<char>) -> int {
        choose|i: int| 0 <= i < self.rooms@.len() && self.rooms@[i].name@ == name
    }

    /// The member sessions of the room called `name`.
    pub open spec fn members(self, name: Seq<char>) -> Seq<Session> {
        self.rooms@[self.room_idx(name)].members@
    }

    /// Whether the membership index holds a record for `id`.
    pub open spec fn is_registered(self, id: u64) -> bool {
        exists|k: int| 0 <= k < self.index@.len() && self.index@[k].id == id
    }

    pub open spec fn entry_idx(self, id: u64) -> int {
        choose|k: int| 0 <= k < self.index@.len() && self.index@[k].id == id
    }

    /// The room the membership index records for `id`.
    pub open spec fn room_of(self, id: u64) -> Seq<char> {
        self.index@[self.entry_idx(id)].room@
    }

    pub open spec fn in_room(self, id: u64, name: Seq<char>) -> bool {
        self.has_room(name) && exists|m: int|
            0 <= m < self.members(name).len() && self.members(name)[m].id == id
    }

    pub open spec fn member_pos(self, name: Seq<char>, id: u64) -> int {
        choose|m: int| 0 <= m < self.members(name).len() && self.members(name)[m].id == id
    }

    /// The session record stored for a registered identity.
    pub open spec fn session_of(self, id: u64) -> Session {
        self.members(self.room_of(id))[self.member_pos(self.room_of(id), id)]
    }

    pub open spec fn room_names_distinct(self) -> bool {
        forall|i: int, j: int|
            0 <= i < j < self.rooms@.len() ==> self.rooms@[i].name@ != self.rooms@[j].name@
    }

    pub open spec fn index_ids_distinct(self) -> bool {
        forall|k: int, l: int|
            0 <= k < l < self.index@.len() ==> self.index@[k].id != self.index@[l].id
    }

    /// Index record `k` points at an existing room whose member set holds a
    /// session with the recorded identity.
    pub open spec fn entry_ok(self, k: int) -> bool {
        exists|i: int, m: int|
            0 <= i < self.rooms@.len() && self.rooms@[i].name@ == self.index@[k].room@ && 0 <= m
                < self.rooms@[i].members@.len() && self.rooms@[i].members@[m].id
                == self.index@[k].id
    }

    /// Member `m` of room `i` is recorded in the index as occupying that room.
    pub open spec fn member_ok(self, i: int, m: int) -> bool {
        exists|k: int|
            0 <= k < self.index@.len() && self.index@[k].id == self.rooms@[i].members@[m].id
                && self.index@[k].room@ == self.rooms@[i].name@
    }

    pub open spec fn members_distinct(self) -> bool {
        forall|i: int, m1: int, m2: int|
            0 <= i < self.rooms@.len() && 0 <= m1 < m2 < self.rooms@[i].members@.len()
                ==> self.rooms@[i].members@[m1].id != self.rooms@[i].members@[m2].id
    }

    /// The central consistency invariant: the default room exists, room names
    /// and registered identities are unique, every index record points at the
    /// one room that really holds the client, and every room member is
    /// recorded in the index under that room's name.
    pub open spec fn wf(self) -> bool {
        &&& self.room_names_distinct()
        &&& self.has_room(default_name())
        &&& self.index_ids_distinct()
        &&& forall|k: int| 0 <= k < self.index@.len() ==> self.entry_ok(k)
        &&& forall|i: int, m: int|
            0 <= i < self.rooms@.len() && 0 <= m < self.rooms@[i].members@.len()
                ==> self.member_ok(i, m)
        &&& self.members_distinct()
    }

    /// With distinct room names, a position that carries `nm` is the one the
    /// directory's room lookup denotes.
    pub proof fn lemma_unique_room(self, nm: Seq<char>, j: int)
        requires
            self.room_names_distinct(),
            0 <= j < self.rooms@.len(),
            self.rooms@[j].name@ == nm,
        ensures
            self.has_room(nm),
            self.room_idx(nm) == j,
    {
        assert(self.has_room(nm));
        let j2 = self.room_idx(nm);
        assert(0 <= j2 < self.rooms@.len() && self.rooms@[j2].name@ == nm);
        if j < j2 {
            assert(self.rooms@[j].name@ != self.rooms@[j2].name@);
        } else if j2 < j {
            assert(self.rooms@[j2].name@ != self.rooms@[j].name@);
        }
    }

    /// With distinct identities, a position that carries `id` is the one the
    /// membership-index lookup denotes.
    pub proof fn lemma_unique_entry(self, id: u64, k: int)
        requires
            self.index_ids_distinct(),
            0 <= k < self.index@.len(),
            self.index@[k].id == id,
        ensures
            self.is_registered(id),
            self.entry_idx(id) == k,
    {
        assert(self.is_registered(id));
        let k2 = self.entry_idx(id);
        assert(0 <= k2 < self.index@.len() && self.index@[k2].id == id);
        if k < k2 {
            assert(self.index@[k].id != self.index@[k2].id);
        } else if k2 < k {
            assert(self.index@[k2].id != self.index@[k].id);
        }
    }

    /// Within one room the member position of an identity is unique.
    pub proof fn lemma_unique_member(self, nm: Seq<char>, id: u64, m: int)
        requires
            self.room_names_distinct(),
            self.members_distinct(),
            self.has_room(nm),
            0 <= m < self.members(nm).len(),
            self.members(nm)[m].id == id,
        ensures
            self.in_room(id, nm),
            self.member_pos(nm, id) == m,
    {
        assert(self.in_room(id, nm));
        let m2 = self.member_pos(nm, id);
        assert(0 <= m2 < self.members(nm).len() && self.members(nm)[m2].id == id);
        let i = self.room_idx(nm);
        if m < m2 {
            assert(self.rooms@[i].members@[m].id != self.rooms@[i].members@[m2].id);
        } else if m2 < m {
            assert(self.rooms@[i].members@[m2].id != self.rooms@[i].members@[m].id);
        }
    }

    /// An identity with no index record stands in no room's member set.
    pub proof fn lemma_unregistered_not_member(self, id: u64)
        requires
            self.wf(),
            !self.is_registered(id),
        ensures
            forall|i: int, m: int|
                0 <= i < self.rooms@.len() && 0 <= m < self.rooms@[i].members@.len()
                    ==> self.rooms@[i].members@[m].id != id,
    {
        assert forall|i: int, m: int|
            0 <= i < self.rooms@.len() && 0 <= m
                < self.rooms@[i].members@.len() implies self.rooms@[i].members@[m].id != id by {
            assert(self.member_ok(i, m));
            if self.rooms@[i].members@[m].id == id {
                let k = choose|k: int|
                    0 <= k < self.index@.len() && self.index@[k].id == self.rooms@[i].members@[m].id
                        && self.index@[k].room@ == self.rooms@[i].name@;
                assert(self.is_registered(id));
            }
        }
    }

    /// A fresh directory: the default room, empty, and an empty index.
    pub fn new() -> (d: Directory)
        ensures
            d.wf(),
            d.rooms@.len() == 1,
            d.rooms@[0].name@ == default_name(),
            d.rooms@[0].members@.len() == 0,
            d.index@.len() == 0,
            d.has_room(default_name()),
    {
        let mut rooms: Vec<Room> = Vec::new();
        rooms.push(Room { name: "default".to_owned(), members: Vec::new() });
        let d = Directory { rooms, index: Vec::new() };
        proof {
            assert(d.rooms@[0].name@ == default_name());
        }
        d
    }

    /// Position of the room called `name`, if it exists.
    fn find_room(&self, name: &str) -> (r: Option<usize>)
        ensures
            match r {
                Some(i) => i < self.rooms@.len() && self.rooms@[i as int].name@ == name@,
                None => !self.has_room(name@),
            },
    {
        let mut i: usize = 0;
        while i < self.rooms.len()
            invariant
                i <= self.rooms@.len(),
                forall|k: int| 0 <= k < i ==> self.rooms@[k].name@ != name@,
            decreases self.rooms@.len() - i,
        {
            if str_eq(self.rooms[i].name.as_str(), name) {
                return Some(i);
            }
            i = i + 1;
        }
        None
    }

    /// Position of the index record for `id`, if one exists.
    fn find_entry(&self, id: u64) -> (r: Option<usize>)
        ensures
            match r {
                Some(k) => k < self.index@.len() && self.index@[k as int].id == id,
                None => !self.is_registered(id),
            },
    {
        let mut k: usize = 0;
        while k < self.index.len()
            invariant
                k <= self.index@.len(),
                forall|l: int| 0 <= l < k ==> self.index@[l].id != id,
            decreases self.index@.len() - k,
        {
            if self.index[k].id == id {
                return Some(k);
            }
            k = k + 1;
        }
        None
    }

    /// Read of the membership index: the recorded room name for `id`, or
    /// nothing for an identity with no record.
    pub fn current_room(&self, id: u64) -> (r: Option<String>)
        requires
            self.wf(),
        ensures
            r.is_some() == self.is_registered(id),
            r matches Some(name) ==> name@ == self.room_of(id),
    {
        match self.find_entry(id) {
            Some(k) => {
                proof {
                    let ghost e = self.entry_idx(id);
                    assert(0 <= e < self.index@.len() && self.index@[e].id == id);
                    assert(e == k);
                }
                Some(self.index[k].room.clone())
            },
            None => None,
        }
    }

    /// A snapshot of the member sessions of `name`, empty if no such room
    /// exists. Membership may change as soon as the directory lock is
    /// released, so callers must not assume the snapshot stays current.
    pub fn members_of(&self, name: &str) -> (r: Vec<Session>)
        requires
            self.wf(),
        ensures
            self.has_room(name@) ==> r@ == self.members(name@),
            !self.has_room(name@) ==> r@.len() == 0,
    {
        match self.find_room(name) {
            Some(i) => {
                proof {
                    let ghost ri = self.room_idx(name@);
                    assert(0 <= ri < self.rooms@.len() && self.rooms@[ri].name@ == name@);
                    assert(ri == i);
                }
                let room = &self.rooms[i];
                let mut r: Vec<Session> = Vec::new();
                let mut m: usize = 0;
                while m < room.members.len()
                    invariant
                        m <= room.members@.len(),
                        r@ =~= room.members@.take(m as int),
                    decreases room.members@.len() - m,
                {
                    r.push(room.members[m].duplicate());
                    m = m + 1;
                }
                proof {
                    assert(r@ =~= room.members@);
                }
                r
            },
            None => Vec::new(),
        }
    }

    /// All known room names, in creation order.
    pub fn room_names(&self) -> (r: Vec<String>)
        ensures
            r@.map_values(|s: String| s@) == self.room_names_seq(),
    {
        let mut r: Vec<String> = Vec::new();
        let mut i: usize = 0;
        while i < self.rooms.len()
            invariant
                i <= self.rooms@.len(),
                r@.len() == i,
                forall|k: int| 0 <= k < i ==> r@[k]@ == self.rooms@[k].name@,
            decreases self.rooms@.len() - i,
        {
            r.push(self.rooms[i].name.clone());
            i = i + 1;
        }
        proof {
            assert(r@.map_values(|s: String| s@) =~= self.room_names_seq());
        }
        r
    }

    /// Create an empty room called `name` if none exists; idempotent, and the
    /// membership index is untouched either way.
    pub fn ensure_room_exists(&mut self, name: &str)
        requires
            old(self).wf(),
        ensures
            final(self).wf(),
            final(self).has_room(name@),
            final(self).index@ == old(self).index@,
            old(self).has_room(name@) ==> *final(self) == *old(self),
            !old(self).has_room(name@) ==> final(self).room_names_seq() == old(
                self,
            ).room_names_seq().push(name@) && final(self).members(name@).len() == 0,
            forall|nm: Seq<char>| old(self).has_room(nm) ==> final(self).has_room(nm),
            forall|nm: Seq<char>|
                old(self).has_room(nm) ==> final(self).members(nm) == old(self).members(nm),
    {
        let ghost pre = *self;
        match self.find_room(name) {
            Some(_) => {
            },
            None => {
                self.rooms.push(Room { name: name.to_owned(), members: Vec::new() });
                proof {
                    let n = pre.rooms@.len() as int;
                    assert(self.rooms@[n].name@ == name@);
                    assert(forall|j: int| 0 <= j < n ==> self.rooms@[j] == pre.rooms@[j]);
                    assert(self.room_names_distinct());
                    self.lemma_unique_room(name@, n);
                    assert(self.members(name@).len() == 0);
                    // every pre room keeps its position, name and members
                    assert forall|nm: Seq<char>| pre.has_room(nm) implies self.has_room(nm)
                        && self.members(nm) == pre.members(nm) by {
                        let j = pre.room_idx(nm);
                        assert(0 <= j < n && pre.rooms@[j].name@ == nm);
                        pre.lemma_unique_room(nm, j);
                        self.lemma_unique_room(nm, j);
                    }
                    assert(self.has_room(default_name()));
                    // index records still point at their rooms
                    assert forall|k: int| 0 <= k < self.index@.len() implies self.entry_ok(k) by {
                        assert(pre.entry_ok(k));
                    }
                    assert forall|i: int, m: int|
                        0 <= i < self.rooms@.len() && 0 <= m
                            < self.rooms@[i].members@.len() implies self.member_ok(i, m) by {
                        if i < n {
                            assert(pre.member_ok(i, m));
                        }
                    }
                    assert(self.room_names_seq() =~= pre.room_names_seq().push(name@));
                }
            },
        }
    }

    /// Append `session` to the member set of the room called `room_name` and
    /// record that room for the session's identity in the membership index.
    pub fn add_member(&mut self, room_name: &str, session: Session)
        requires
            old(self).wf(),
            old(self).has_room(room_name@),
            !old(self).is_registered(session.id),
        ensures
            final(self).wf(),
            final(self).is_registered(session.id),
            final(self).room_of(session.id) == room_name@,
            final(self).session_of(session.id) == session,
            final(self).in_room(session.id, room_name@),
            final(self).members(room_name@) == old(self).members(room_name@).push(session),
            final(self).room_names_seq() == old(self).room_names_seq(),
            forall|nm: Seq<char>| final(self).has_room(nm) == old(self).has_room(nm),
            forall|nm: Seq<char>|
                nm != room_name@ && old(self).has_room(nm) ==> final(self).members(nm) == old(
                    self,
                ).members(nm),
            forall|x: u64|
                x != session.id ==> final(self).is_registered(x) == old(self).is_registered(x),
            forall|x: u64|
                x != session.id && old(self).is_registered(x) ==> final(self).room_of(x) == old(
                    self,
                ).room_of(x),
    {
        let ghost pre = *self;
        let ghost sid = session.id;
        let i = self.find_room(room_name).unwrap();
        proof {
            pre.lemma_unique_room(room_name@, i as int);
            pre.lemma_unregistered_not_member(sid);
        }
        let session_id = session.id;
        let room = &mut self.rooms[i];
        room.members.push(session);
        self.index.push(Entry { id: session_id, room: room_name.to_owned() });
        proof {
            let n = pre.rooms@.len() as int;
            let ki = pre.index@.len() as int;
            let ii = i as int;
            let oldmem = pre.rooms@[ii].members@;
            assert(self.rooms@ =~= pre.rooms@.update(
                ii,
                Room { name: pre.rooms@[ii].name, members: self.rooms@[ii].members },
            ));
            assert(self.rooms@[ii].members@ == oldmem.push(session));
            assert(forall|j: int| 0 <= j < n && j != ii ==> self.rooms@[j] == pre.rooms@[j]);
            assert(forall|j: int| 0 <= j < n ==> self.rooms@[j].name@ == pre.rooms@[j].name@);
            assert(self.index@ == pre.index@.push(
                Entry { id: sid, room: self.index@[ki].room },
            ));
            assert(self.index@[ki].id == sid && self.index@[ki].room@ == room_name@);

            assert(self.room_names_distinct());
            assert(self.room_names_seq() =~= pre.room_names_seq());
            self.lemma_unique_room(room_name@, ii);
            assert(self.members(room_name@) == oldmem.push(session));

            // room lookups agree between the two states
            assert forall|nm: Seq<char>| pre.has_room(nm) implies self.has_room(nm) by {
                let j = pre.room_idx(nm);
                self.lemma_unique_room(nm, j);
            }
            assert forall|nm: Seq<char>| self.has_room(nm) implies pre.has_room(nm) by {
                let j = self.room_idx(nm);
                pre.lemma_unique_room(nm, j);
            }
            assert forall|nm: Seq<char>|
                nm != room_name@ && pre.has_room(nm) implies self.members(nm) == pre.members(
                nm,
            ) by {
                let j = pre.room_idx(nm);
                pre.lemma_unique_room(nm, j);
                self.lemma_unique_room(nm, j);
                assert(j != ii);
            }

            // the index stays duplicate-free: the new identity was fresh
            assert forall|k: int, l: int|
                0 <= k < l < self.index@.len() implies self.index@[k].id != self.index@[l].id by {
                if l < ki {
                } else {
                    assert(l == ki);
                    if self.index@[k].id == sid {
                        pre.lemma_unique_entry(sid, k);
                    }
                }
            }
            self.lemma_unique_entry(sid, ki);
            assert(self.room_of(sid) == room_name@);

            // each index record still finds its member
            assert forall|k: int| 0 <= k < self.index@.len() implies self.entry_ok(k) by {
                if k < ki {
                    assert(pre.entry_ok(k));
                    let (i0, m0): (int, int) = choose|i0: int, m0: int|
                        0 <= i0 < pre.rooms@.len() && pre.rooms@[i0].name@ == pre.index@[k].room@
                            && 0 <= m0 < pre.rooms@[i0].members@.len()
                            && pre.rooms@[i0].members@[m0].id == pre.index@[k].id;
                    assert(self.rooms@[i0].members@[m0].id == self.index@[k].id);
                } else {
                    assert(self.rooms@[ii].members@[oldmem.len() as int].id == sid);
                }
            }

            // each member is still recorded in the index
            assert forall|i0: int, m0: int|
                0 <= i0 < self.rooms@.len() && 0 <= m0
                    < self.rooms@[i0].members@.len() implies self.member_ok(i0, m0) by {
                if i0 == ii && m0 == oldmem.len() {
                    assert(self.index@[ki].id == self.rooms@[i0].members@[m0].id);
                } else {
                    assert(pre.member_ok(i0, m0));
                    let k0 = choose|k0: int|
                        0 <= k0 < pre.index@.len() && pre.index@[k0].id
                            == pre.rooms@[i0].members@[m0].id && pre.index@[k0].room@
                            == pre.rooms@[i0].name@;
                    assert(self.index@[k0].id == self.rooms@[i0].members@[m0].id);
                }
            }

            // no duplicate identity inside any room
            assert forall|i0: int, m1: int, m2: int|
                0 <= i0 < self.rooms@.len() && 0 <= m1 < m2
                    < self.rooms@[i0].members@.len() implies self.rooms@[i0].members@[m1].id
                != self.rooms@[i0].members@[m2].id by {
                if i0 == ii && m2 == oldmem.len() {
                    assert(self.rooms@[i0].members@[m1].id != sid);
                }
            }

            assert(self.wf());
            self.lemma_unique_member(room_name@, sid, oldmem.len() as int);
            assert(self.session_of(sid) == session);

            // other identities keep their records at the same positions
            assert forall|x: u64| x != sid && pre.is_registered(x) implies self.is_registered(x)
                && self.room_of(x) == pre.room_of(x) by {
                let k = pre.entry_idx(x);
                self.lemma_unique_entry(x, k);
            }
            assert forall|x: u64| x != sid && self.is_registered(x) implies pre.is_registered(
                x,
            ) by {
                let k = self.entry_idx(x);
                assert(k != ki);
                assert(pre.index@[k].id == x);
            }
        }
    }

    /// The nickname stored for a registered identity.
    pub fn nickname_of(&self, id: u64) -> (r: String)
        requires
            self.wf(),
            self.is_registered(id),
        ensures
            r@ == self.session_of(id).nickname@,
    {
        let k = self.find_entry(id).unwrap();
        proof {
            self.lemma_unique_entry(id, k as int);
            assert(self.entry_ok(k as int));
        }
        let ghost rn = self.room_of(id);
        let room_name = self.index[k].room.clone();
        let ri = self.find_room(room_name.as_str()).unwrap();
        proof {
            self.lemma_unique_room(rn, ri as int);
        }
        let mopt = find_member(&self.rooms[ri].members, id);
        proof {
            let (i0, m0): (int, int) = choose|i0: int, m0: int|
                0 <= i0 < self.rooms@.len() && self.rooms@[i0].name@ == self.index@[k as int].room@
                    && 0 <= m0 < self.rooms@[i0].members@.len() && self.rooms@[i0].members@[m0].id
                    == self.index@[k as int].id;
            self.lemma_unique_room(rn, i0);
            if mopt is None {
                assert(self.rooms@[ri as int].members@[m0].id != id);
            }
        }
        let mi = mopt.unwrap();
        proof {
            self.lemma_unique_member(rn, id, mi as int);
        }
        self.rooms[ri].members[mi].nickname.clone()
    }

    /// Remove a registered client from the directory altogether: its session
    /// leaves its room's member set and its index record is dropped. Returns
    /// the removed session.
    pub fn deregister(&mut self, id: u64) -> (s: Session)
        requires
            old(self).wf(),
            old(self).is_registered(id),
        ensures
            final(self).wf(),
            s == old(self).session_of(id),
            s.id == id,
            !final(self).is_registered(id),
            final(self).room_names_seq() == old(self).room_names_seq(),
            forall|nm: Seq<char>| final(self).has_room(nm) == old(self).has_room(nm),
            final(self).members(old(self).room_of(id)) == old(self).members(
                old(self).room_of(id),
            ).remove(old(self).member_pos(old(self).room_of(id), id)),
            forall|nm: Seq<char>|
                nm != old(self).room_of(id) && old(self).has_room(nm) ==> final(self).members(nm)
                    == old(self).members(nm),
            forall|x: u64| x != id ==> final(self).is_registered(x) == old(self).is_registered(x),
            forall|x: u64|
                x != id && old(self).is_registered(x) ==> final(self).room_of(x) == old(
                    self,
                ).room_of(x),
            removed(*old(self), *final(self), id),
    {
        let ghost pre = *self;
        let k = self.find_entry(id).unwrap();
        proof {
            pre.lemma_unique_entry(id, k as int);
            assert(pre.entry_ok(k as int));
        }
        let ghost rn = pre.room_of(id);
        let room_name = self.index[k].room.clone();
        let ri = self.find_room(room_name.as_str()).unwrap();
        proof {
            pre.lemma_unique_room(rn, ri as int);
        }
        let mopt = find_member(&self.rooms[ri].members, id);
        proof {
            let (i0, m0): (int, int) = choose|i0: int, m0: int|
                0 <= i0 < pre.rooms@.len() && pre.rooms@[i0].name@ == pre.index@[k as int].room@
                    && 0 <= m0 < pre.rooms@[i0].members@.len() && pre.rooms@[i0].members@[m0].id
                    == pre.index@[k as int].id;
            pre.lemma_unique_room(rn, i0);
            assert(i0 == ri as int);
            assert(pre.rooms@[ri as int].members@[m0].id == id);
            if mopt is None {
                assert(pre.rooms@[ri as int].members@[m0].id != id);
            }
        }
        let mi = mopt.unwrap();
        proof {
            pre.lemma_unique_member(rn, id, mi as int);
        }
        let room = &mut self.rooms[ri];
        let s = room.members.remove(mi);
        self.index.remove(k);
        proof {
            let n = pre.rooms@.len() as int;
            let ii = ri as int;
            let kk = k as int;
            let mm = mi as int;
            let oldmem = pre.rooms@[ii].members@;
            assert(self.rooms@ =~= pre.rooms@.update(
                ii,
                Room { name: pre.rooms@[ii].name, members: self.rooms@[ii].members },
            ));
            assert(self.rooms@[ii].members@ == oldmem.remove(mm));
            assert(forall|j: int| 0 <= j < n && j != ii ==> self.rooms@[j] == pre.rooms@[j]);
            assert(forall|j: int| 0 <= j < n ==> self.rooms@[j].name@ == pre.rooms@[j].name@);
            assert(self.index@ == pre.index@.remove(kk));
            assert(forall|x: int| 0 <= x < kk ==> self.index@[x] == pre.index@[x]);
            assert(forall|x: int|
                kk <= x < self.index@.len() ==> self.index@[x] == pre.index@[x + 1]);

            assert(s == pre.members(rn)[mm] && s.id == id);
            assert(s == pre.session_of(id));

            assert(self.room_names_distinct());
            assert(self.room_names_seq() =~= pre.room_names_seq());
            self.lemma_unique_room(rn, ii);
            assert(self.members(rn) == oldmem.remove(mm));

            assert forall|nm: Seq<char>| pre.has_room(nm) implies self.has_room(nm) by {
                let j = pre.room_idx(nm);
                self.lemma_unique_room(nm, j);
            }
            assert forall|nm: Seq<char>| self.has_room(nm) implies pre.has_room(nm) by {
                let j = self.room_idx(nm);
                pre.lemma_unique_room(nm, j);
            }
            assert forall|nm: Seq<char>|
                nm != rn && pre.has_room(nm) implies self.members(nm) == pre.members(nm) by {
                let j = pre.room_idx(nm);
                pre.lemma_unique_room(nm, j);
                self.lemma_unique_room(nm, j);
                assert(j != ii);
            }

            // the shortened index is still duplicate-free
            assert forall|x: int, y: int|
                0 <= x < y < self.index@.len() implies self.index@[x].id != self.index@[y].id by {
                let px: int = if x < kk {
                    x
                } else {
                    x + 1
                };
                let py: int = if y < kk {
                    y
                } else {
                    y + 1
                };
                assert(px < py);
                assert(pre.index@[px].id != pre.index@[py].id);
            }

            // the removed identity has no record left
            assert forall|x: int| 0 <= x < self.index@.len() implies self.index@[x].id != id by {
                let px: int = if x < kk {
                    x
                } else {
                    x + 1
                };
                if pre.index@[px].id == id {
                    pre.lemma_unique_entry(id, px);
                }
            }
            assert(!self.is_registered(id));

            // each remaining record still finds its member
            assert forall|x: int| 0 <= x < self.index@.len() implies self.entry_ok(x) by {
                let px: int = if x < kk {
                    x
                } else {
                    x + 1
                };
                assert(pre.entry_ok(px));
                let (i0, m0): (int, int) = choose|i0: int, m0: int|
                    0 <= i0 < pre.rooms@.len() && pre.rooms@[i0].name@ == pre.index@[px].room@ && 0
                        <= m0 < pre.rooms@[i0].members@.len() && pre.rooms@[i0].members@[m0].id
                        == pre.index@[px].id;
                if pre.index@[px].id == id {
                    pre.lemma_unique_entry(id, px);
                }
                assert(pre.index@[px].id != id);
                if i0 == ii {
                    assert(oldmem[m0].id != oldmem[mm].id);
                    assert(m0 != mm);
                    if m0 < mm {
                        assert(self.rooms@[i0].members@[m0].id == self.index@[x].id);
                    } else {
                        assert(self.rooms@[i0].members@[m0 - 1].id == self.index@[x].id);
                    }
                } else {
                    assert(self.rooms@[i0].members@[m0].id == self.index@[x].id);
                }
            }

            // each remaining member is still recorded
            assert forall|i0: int, m0: int|
                0 <= i0 < self.rooms@.len() && 0 <= m0
                    < self.rooms@[i0].members@.len() implies self.member_ok(i0, m0) by {
                let pm: int = if i0 == ii && m0 >= mm {
                    m0 + 1
                } else {
                    m0
                };
                assert(self.rooms@[i0].members@[m0] == pre.rooms@[i0].members@[pm]);
                assert(pre.member_ok(i0, pm));
                let k0 = choose|k0: int|
                    0 <= k0 < pre.index@.len() && pre.index@[k0].id
                        == pre.rooms@[i0].members@[pm].id && pre.index@[k0].room@
                        == pre.rooms@[i0].name@;
                if pre.rooms@[i0].members@[pm].id == id {
                    // that would be the removed member itself
                    pre.lemma_unique_entry(id, k0);
                    pre.lemma_unique_room(pre.index@[k0].room@, i0);
                    pre.lemma_unique_member(rn, id, pm);
                    assert(false);
                }
                assert(k0 != kk);
                if k0 < kk {
                    assert(self.index@[k0].id == self.rooms@[i0].members@[m0].id);
                    assert(self.index@[k0].room@ == self.rooms@[i0].name@);
                } else {
                    assert(self.index@[k0 - 1].id == self.rooms@[i0].members@[m0].id);
                    assert(self.index@[k0 - 1].room@ == self.rooms@[i0].name@);
                }
            }

            // no duplicate identity inside any room
            assert forall|i0: int, m1: int, m2: int|
                0 <= i0 < self.rooms@.len() && 0 <= m1 < m2
                    < self.rooms@[i0].members@.len() implies self.rooms@[i0].members@[m1].id
                != self.rooms@[i0].members@[m2].id by {
                let p1: int = if i0 == ii && m1 >= mm {
                    m1 + 1
                } else {
                    m1
                };
                let p2: int = if i0 == ii && m2 >= mm {
                    m2 + 1
                } else {
                    m2
                };
                assert(p1 < p2);
                assert(pre.rooms@[i0].members@[p1].id != pre.rooms@[i0].members@[p2].id);
            }

            assert(self.wf());

            // other identities keep their records
            assert forall|x: u64| x != id && pre.is_registered(x) implies self.is_registered(x)
                && self.room_of(x) == pre.room_of(x) by {
                let k0 = pre.entry_idx(x);
                assert(pre.index@[k0].id == x);
                assert(k0 != kk);
                if k0 < kk {
                    self.lemma_unique_entry(x, k0);
                } else {
                    self.lemma_unique_entry(x, k0 - 1);
                }
            }
            assert forall|x: u64| x != id && self.is_registered(x) implies pre.is_registered(
                x,
            ) by {
                let k0 = self.entry_idx(x);
                let px: int = if k0 < kk {
                    k0
                } else {
                    k0 + 1
                };
                assert(pre.index@[px].id == x);
            }
        }
        s
    }

    /// Remove the session with identity `id` from the room called
    /// `room_name`, dropping its index record with it; a no-op when that room
    /// is not the one recorded for `id`.
    pub fn remove_member(&mut self, room_name: &str, id: u64)
        requires
            old(self).wf(),
        ensures
            final(self).wf(),
            old(self).is_registered(id) && old(self).room_of(id) == room_name@ ==> {
                &&& !final(self).is_registered(id)
                &&& final(self).members(room_name@) == old(self).members(room_name@).remove(
                    old(self).member_pos(room_name@, id),
                )
                &&& final(self).room_names_seq() == old(self).room_names_seq()
                &&& (forall|nm: Seq<char>| final(self).has_room(nm) == old(self).has_room(nm))
                &&& (forall|nm: Seq<char>|
                    nm != room_name@ && old(self).has_room(nm) ==> final(self).members(nm) == old(
                        self,
                    ).members(nm))
                &&& (forall|x: u64|
                    x != id ==> final(self).is_registered(x) == old(self).is_registered(x))
                &&& (forall|x: u64|
                    x != id && old(self).is_registered(x) ==> final(self).room_of(x) == old(
                        self,
                    ).room_of(x))
            },
            !(old(self).is_registered(id) && old(self).room_of(id) == room_name@) ==> *final(self)
                == *old(self),
    {
        let ghost pre = *self;
        match self.find_entry(id) {
            Some(k) => {
                proof {
                    pre.lemma_unique_entry(id, k as int);
                }
                if str_eq(self.index[k].room.as_str(), room_name) {
                    let _ = self.deregister(id);
                }
            },
            None => {
            },
        }
    }

    /// The composite room change: take `id` out of its current room, create
    /// the target room if it is missing, and put the session in there, all as
    /// one directory operation. Callers that share the directory perform it
    /// inside one critical section, so no one observes the client in zero or
    /// two rooms.
    pub fn move_member(&mut self, id: u64, new_room: &str)
        requires
            old(self).wf(),
            old(self).is_registered(id),
        ensures
            moved(*old(self), *final(self), id, new_room@),
    {
        proof {
            let d0 = *old(self);
            let kk = d0.entry_idx(id);
            assert(d0.index@[kk].id == id && d0.entry_ok(kk));
            let (i0, m0): (int, int) = choose|i0: int, m0: int|
                0 <= i0 < d0.rooms@.len() && d0.rooms@[i0].name@ == d0.index@[kk].room@ && 0 <= m0
                    < d0.rooms@[i0].members@.len() && d0.rooms@[i0].members@[m0].id
                    == d0.index@[kk].id;
            assert(d0.has_room(d0.room_of(id)));
            d0.lemma_unique_room(d0.room_of(id), i0);
            d0.lemma_unique_member(d0.room_of(id), id, m0);
        }
        let s = self.deregister(id);
        let ghost d1 = *self;
        self.ensure_room_exists(new_room);
        let ghost d2 = *self;
        proof {
            if !d1.has_room(new_room@) {
                assert(d2.members(new_room@) =~= Seq::<Session>::empty());
            }
        }
        self.add_member(new_room, s);
    }
}

/// What the composite room change leaves behind: `id` now occupies
/// `new_room` with its session intact, no other client's membership moved,
/// and the member sets changed only by the one departure and the one
/// arrival.
pub open spec fn moved(pre: Directory, post: Directory, id: u64, new_room: Seq<char>) -> bool {
    &&& post.wf()
    &&& post.is_registered(id)
    &&& post.room_of(id) == new_room
    &&& post.has_room(new_room)
    &&& post.in_room(id, new_room)
    &&& post.session_of(id) == pre.session_of(id)
    &&& (forall|x: u64| x != id ==> post.is_registered(x) == pre.is_registered(x))
    &&& (forall|x: u64| x != id && pre.is_registered(x) ==> post.room_of(x) == pre.room_of(x))
    &&& (forall|nm: Seq<char>| pre.has_room(nm) ==> post.has_room(nm))
    &&& post.room_names_seq() == (if pre.has_room(new_room) {
        pre.room_names_seq()
    } else {
        pre.room_names_seq().push(new_room)
    })
    &&& ({
        let orn = pre.room_of(id);
        let s = pre.session_of(id);
        let stripped = pre.members(orn).remove(pre.member_pos(orn, id));
        if new_room == orn {
            post.members(orn) == stripped.push(s)
        } else {
            post.members(orn) == stripped && post.members(new_room) == (if pre.has_room(new_room) {
                pre.members(new_room)
            } else {
                Seq::<Session>::empty()
            }).push(s)
        }
    })
    &&& (forall|nm: Seq<char>|
        nm != new_room && nm != pre.room_of(id) && pre.has_room(nm) ==> post.members(nm)
            == pre.members(nm))
}

/// What a departure leaves behind: `id` is gone from the index and from its
/// room's member set, and nothing else changed.
pub open spec fn removed(pre: Directory, post: Directory, id: u64) -> bool {
    &&& post.wf()
    &&& !post.is_registered(id)
    &&& post.room_names_seq() == pre.room_names_seq()
    &&& (forall|nm: Seq<char>| post.has_room(nm) == pre.has_room(nm))
    &&& post.members(pre.room_of(id)) == pre.members(pre.room_of(id)).remove(
        pre.member_pos(pre.room_of(id), id),
    )
    &&& (forall|nm: Seq<char>|
        nm != pre.room_of(id) && pre.has_room(nm) ==> post.members(nm) == pre.members(nm))
    &&& (forall|x: u64| x != id ==> post.is_registered(x) == pre.is_registered(x))
    &&& (forall|x: u64| x != id && pre.is_registered(x) ==> post.room_of(x) == pre.room_of(x))
}

/// Law: the default room exists in every well-formed directory state. A
/// fresh directory is well-formed with the default room already present, and
/// every operation of this module re-establishes well-formedness, so the
/// default room survives any sequence of joins, leaves and quits.
pub proof fn lemma_default_room_persists(d: Directory)
    requires
        d.wf(),
    ensures
        d.has_room(default_name()),
{
}

/// Law: in a well-formed directory, the membership index maps a registered
/// identity to exactly one room name, that room exists, its member set holds
/// exactly one session with that identity, and no other room holds one.
pub proof fn lemma_membership_consistent(d: Directory, id: u64)
    requires
        d.wf(),
        d.is_registered(id),
    ensures
        d.has_room(d.room_of(id)),
        d.in_room(id, d.room_of(id)),
        forall|k: int| 0 <= k < d.index@.len() && d.index@[k].id == id ==> k == d.entry_idx(id),
        forall|m1: int, m2: int|
            0 <= m1 < d.members(d.room_of(id)).len() && 0 <= m2 < d.members(d.room_of(id)).len()
                && d.members(d.room_of(id))[m1].id == id && d.members(d.room_of(id))[m2].id == id
                ==> m1 == m2,
        forall|nm: Seq<char>| d.has_room(nm) && nm != d.room_of(id) ==> !d.in_room(id, nm),
{
    let rn = d.room_of(id);
    let kk = d.entry_idx(id);
    assert(d.index@[kk].id == id && d.entry_ok(kk));
    let (i0, m0): (int, int) = choose|i0: int, m0: int|
        0 <= i0 < d.rooms@.len() && d.rooms@[i0].name@ == d.index@[kk].room@ && 0 <= m0
            < d.rooms@[i0].members@.len() && d.rooms@[i0].members@[m0].id == d.index@[kk].id;
    d.lemma_unique_room(rn, i0);
    assert(d.members(rn)[m0].id == id);
    assert(d.in_room(id, rn));
    assert forall|k: int| 0 <= k < d.index@.len() && d.index@[k].id == id implies k == kk by {
        d.lemma_unique_entry(id, k);
    }
    assert forall|m1: int, m2: int|
        0 <= m1 < d.members(rn).len() && 0 <= m2 < d.members(rn).len() && d.members(rn)[m1].id
            == id && d.members(rn)[m2].id == id implies m1 == m2 by {
        d.lemma_unique_member(rn, id, m1);
        d.lemma_unique_member(rn, id, m2);
    }
    assert forall|nm: Seq<char>| d.has_room(nm) && nm != rn implies !d.in_room(id, nm) by {
        if d.in_room(id, nm) {
            let j = d.room_idx(nm);
            let m = choose|m: int| 0 <= m < d.members(nm).len() && d.members(nm)[m].id == id;
            assert(d.member_ok(j, m));
            let k0 = choose|k0: int|
                0 <= k0 < d.index@.len() && d.index@[k0].id == d.rooms@[j].members@[m].id
                    && d.index@[k0].room@ == d.rooms@[j].name@;
            d.lemma_unique_entry(id, k0);
            assert(d.index@[k0].room@ == rn);
        }
    }
}

/// Law: after joining one room and then another, a client occupies only the
/// later room: the index answers with the later name, the later room's
/// member set holds the client, and the earlier room's no longer does.
pub proof fn lemma_rejoin_supersedes(
    d0: Directory,
    d1: Directory,
    d2: Directory,
    id: u64,
    r1: Seq<char>,
    r2: Seq<char>,
)
    requires
        moved(d0, d1, id, r1),
        moved(d1, d2, id, r2),
        r1 != r2,
    ensures
        d2.room_of(id) == r2,
        d2.in_room(id, r2),
        !d2.in_room(id, r1),
{
    lemma_membership_consistent(d2, id);
}

/// Position of the session with identity `id` in a member list, if any.
fn find_member(members: &Vec<Session>, id: u64) -> (r: Option<usize>)
    ensures
        match r {
            Some(m) => m < members@.len() && members@[m as int].id == id,
            None => forall|m: int| 0 <= m < members@.len() ==> members@[m].id != id,
        },
{
    let mut m: usize = 0;
    while m < members.len()
        invariant
            m <= members@.len(),
            forall|l: int| 0 <= l < m ==> members@[l].id != id,
        decreases members@.len() - m,
    {
        if members[m].id == id {
            return Some(m);
        }
        m = m + 1;
    }
    None
}

} // verus!
