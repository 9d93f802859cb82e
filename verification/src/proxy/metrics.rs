//! Traffic counters of the clients and of the server as a whole.

use std::collections::HashMap;
use vstd::prelude::*;

verus! {

/// Nanoseconds in a second.
pub const NANOS_PER_SEC: u64 = 1_000_000_000;

/// Which way bytes go.
#[derive(Clone, Copy, Debug, PartialEq, Eq, Structural)]
pub enum TrafficDirection {
    Upload,
    Download,
}

/// One client: its address, when it came (in nanoseconds of a clock that never goes back), and the
/// bytes that it sent and received.
pub struct ClientMetrics {
    pub id: u64,
    pub addr: String,
    pub start_time: u64,
    pub upload_bytes: u64,
    pub download_bytes: u64,
}

/// A counter after `n` more; it wraps around.
pub open spec fn counted(count: u64, n: u64) -> u64 {
    ((count + n) % 0x1_0000_0000_0000_0000) as u64
}

impl Clone for ClientMetrics {
    fn clone(&self) -> (r: Self)
        ensures
            r == *self,
    {
        ClientMetrics {
            id: self.id,
            addr: self.addr.clone(),
            start_time: self.start_time,
            upload_bytes: self.upload_bytes,
            download_bytes: self.download_bytes,
        }
    }
}

impl ClientMetrics {
    pub fn new(id: u64, addr: String, start_time: u64) -> (r: Self)
        ensures
            r == (ClientMetrics { id, addr, start_time, upload_bytes: 0, download_bytes: 0 }),
    {
        ClientMetrics { id, addr, start_time, upload_bytes: 0, download_bytes: 0 }
    }

    /// The bytes counted in one direction.
    pub open spec fn counter(self, direction: TrafficDirection) -> u64 {
        match direction {
            TrafficDirection::Upload => self.upload_bytes,
            TrafficDirection::Download => self.download_bytes,
        }
    }

    /// The client after `bytes` more in one direction.
    pub open spec fn with_bytes(self, direction: TrafficDirection, bytes: u64) -> ClientMetrics {
        match direction {
            TrafficDirection::Upload => ClientMetrics {
                upload_bytes: counted(self.upload_bytes, bytes),
                ..self
            },
            TrafficDirection::Download => ClientMetrics {
                download_bytes: counted(self.download_bytes, bytes),
                ..self
            },
        }
    }

    /// Counts bytes in one direction.
    pub fn count(&mut self, direction: TrafficDirection, bytes: u64)
        ensures
            *final(self) == old(self).with_bytes(direction, bytes),
    {
        match direction {
            TrafficDirection::Upload => {
                self.upload_bytes = self.upload_bytes.wrapping_add(bytes);
            },
            TrafficDirection::Download => {
                self.download_bytes = self.download_bytes.wrapping_add(bytes);
            },
        }
    }
}

/// All clients, and what was counted in all.
pub struct GlobalMetrics {
    clients: HashMap<u64, ClientMetrics>,
    total_upload: u64,
    total_download: u64,
    next_id: u64,
}

/// The mathematical content of `GlobalMetrics`.
pub struct MetricsView {
    pub clients: Map<u64, ClientMetrics>,
    pub total_upload: u64,
    pub total_download: u64,
    pub next_id: u64,
}

impl View for GlobalMetrics {
    type V = MetricsView;

    closed spec fn view(&self) -> MetricsView {
        MetricsView {
            clients: self.clients@,
            total_upload: self.total_upload,
            total_download: self.total_download,
            next_id: self.next_id,
        }
    }
}

/// What is told about one client.
pub struct ClientInfo {
    pub id: u64,
    pub addr: String,
    pub uptime_secs: u64,
    pub upload_bytes: u64,
    pub download_bytes: u64,
}

/// What is told about the server.
pub struct MetricsResponse {
    pub total_upload: u64,
    pub total_download: u64,
    pub clients: Vec<ClientInfo>,
}

/// Whole seconds between two times.
pub open spec fn secs_between(start: u64, now: u64) -> int {
    if now < start {
        0
    } else {
        (now - start) / 1_000_000_000
    }
}

/// What is told about a client at time `now`.
pub open spec fn info_of(c: ClientMetrics, now: u64) -> ClientInfo {
    ClientInfo {
        id: c.id,
        addr: c.addr,
        uptime_secs: secs_between(c.start_time, now) as u64,
        upload_bytes: c.upload_bytes,
        download_bytes: c.download_bytes,
    }
}

/// Whether ids come in descending order, none of them twice.
pub open spec fn is_descending(list: Seq<ClientInfo>) -> bool {
    forall|i: int, j: int| 0 <= i < j < list.len() ==> list[i].id > list[j].id
}

/// Whether `list` tells about exactly the clients in `clients`.
pub open spec fn tells_about(
    list: Seq<ClientInfo>,
    clients: Map<u64, ClientMetrics>,
    now: u64,
) -> bool {
    &&& forall|i: int|
        0 <= i < list.len() ==> clients.contains_key((#[trigger] list[i]).id) && list[i] == info_of(
            clients[list[i].id],
            now,
        )
    &&& forall|id: u64| #[trigger]
        clients.contains_key(id) ==> exists|i: int| 0 <= i < list.len() && #[trigger] list[i].id == id
}

impl MetricsView {
    /// What was counted in all in one direction.
    pub open spec fn total(self, direction: TrafficDirection) -> u64 {
        match direction {
            TrafficDirection::Upload => self.total_upload,
            TrafficDirection::Download => self.total_download,
        }
    }

    /// Whether a client, if it is listed, is listed with the counts that it has.
    pub open spec fn shows(self, client: ClientMetrics) -> bool {
        self.clients.contains_key(client.id) ==> self.clients[client.id] == client
    }

    /// The counters after `bytes` more of a client: the list, if the client is on it, shows them,
    /// and the sums hold them in any case.
    pub open spec fn with_count(
        self,
        client: ClientMetrics,
        direction: TrafficDirection,
        bytes: u64,
    ) -> MetricsView {
        MetricsView {
            clients: if self.clients.contains_key(client.id) {
                self.clients.insert(client.id, client.with_bytes(direction, bytes))
            } else {
                self.clients
            },
            total_upload: if direction == TrafficDirection::Upload {
                counted(self.total_upload, bytes)
            } else {
                self.total_upload
            },
            total_download: if direction == TrafficDirection::Download {
                counted(self.total_download, bytes)
            } else {
                self.total_download
            },
            next_id: self.next_id,
        }
    }

    /// Every client is kept under its own id.
    pub open spec fn consistent(self) -> bool {
        forall|id: u64| #[trigger] self.clients.contains_key(id) ==> self.clients[id].id == id
    }
}

fn info(c: &ClientMetrics, now: u64) -> (r: ClientInfo)
    ensures
        r == info_of(*c, now),
{
    let uptime_secs: u64 = if now < c.start_time {
        0
    } else {
        (now - c.start_time) / NANOS_PER_SEC
    };
    ClientInfo {
        id: c.id,
        addr: c.addr.clone(),
        uptime_secs,
        upload_bytes: c.upload_bytes,
        download_bytes: c.download_bytes,
    }
}

/// Puts an entry with a new id into its place.
fn insert_descending(list: &mut Vec<ClientInfo>, entry: ClientInfo)
    requires
        is_descending(old(list)@),
        forall|i: int| 0 <= i < old(list)@.len() ==> (#[trigger] old(list)@[i]).id != entry.id,
    ensures
        is_descending(final(list)@),
        exists|k: int|
            0 <= k <= old(list)@.len() && final(list)@ == #[trigger] old(list)@.insert(k, entry),
{
    let mut k: usize = 0;
    while k < list.len() && list[k].id > entry.id
        invariant
            list@ == old(list)@,
            k <= list@.len(),
            is_descending(list@),
            forall|i: int| 0 <= i < k ==> (#[trigger] list@[i]).id > entry.id,
        decreases list@.len() - k,
    {
        k = k + 1;
    }
    let ghost before = list@;
    list.insert(k, entry);
    assert(list@ == before.insert(k as int, entry));
    assert forall|i: int, j: int| 0 <= i < j < list@.len() implies list@[i].id > list@[j].id by {
        let left = if i < k {
            before[i]
        } else if i == k {
            entry
        } else {
            before[i - 1]
        };
        let right = if j < k {
            before[j]
        } else if j == k {
            entry
        } else {
            before[j - 1]
        };
        assert(list@[i] == left && list@[j] == right);
        if k < before.len() {
            assert(before[k as int].id < entry.id);
            if j > k {
                assert(before[j - 1].id <= before[k as int].id);
            }
        }
    }
}

impl GlobalMetrics {
    pub fn new() -> (r: Self)
        ensures
            r@ == (MetricsView {
                clients: Map::empty(),
                total_upload: 0,
                total_download: 0,
                next_id: 1,
            }),
            r@.consistent(),
    {
        broadcast use vstd::std_specs::hash::group_hash_axioms;

        let r = GlobalMetrics {
            clients: HashMap::new(),
            total_upload: 0,
            total_download: 0,
            next_id: 1,
        };
        assert(r@.clients =~= Map::empty());
        r
    }

    /// An id that no client had before, until they have all been used.
    pub fn generate_id(&mut self) -> (r: u64)
        ensures
            r == old(self)@.next_id,
            final(self)@ == (MetricsView { next_id: counted(r, 1), ..old(self)@ }),
    {
        let id: u64 = self.next_id;
        self.next_id = id.wrapping_add(1);
        id
    }

    /// Lists a client under its id.
    pub fn add_client(&mut self, client: &ClientMetrics)
        ensures
            final(self)@ == (MetricsView {
                clients: old(self)@.clients.insert(client.id, *client),
                ..old(self)@
            }),
            old(self)@.consistent() ==> final(self)@.consistent(),
            final(self)@.shows(*client),
    {
        broadcast use vstd::std_specs::hash::group_hash_axioms;

        let id: u64 = client.id;
        let ghost before = self@.clients;
        self.clients.insert(id, client.clone());
        assert(self@.clients =~= before.insert(id, *client));
        assert forall|k: u64| old(self)@.consistent() && self@.clients.contains_key(k) implies (
        #[trigger] self@.clients[k]).id == k by {
            if k != id {
                assert(before.contains_key(k));
            }
        }
    }

    /// Takes a client off the list.
    pub fn remove_client(&mut self, id: u64)
        ensures
            final(self)@ == (MetricsView { clients: old(self)@.clients.remove(id), ..old(self)@ }),
            old(self)@.consistent() ==> final(self)@.consistent(),
    {
        broadcast use vstd::std_specs::hash::group_hash_axioms;

        let ghost before = self@.clients;
        self.clients.remove(&id);
        assert(self@.clients =~= before.remove(id));
        assert forall|k: u64| old(self)@.consistent() && self@.clients.contains_key(k) implies (
        #[trigger] self@.clients[k]).id == k by {
            assert(before.contains_key(k));
        }
    }

    /// Counts bytes that clients sent.
    pub fn add_upload(&mut self, bytes: u64)
        ensures
            final(self)@ == (MetricsView {
                total_upload: counted(old(self)@.total_upload, bytes),
                ..old(self)@
            }),
    {
        self.total_upload = self.total_upload.wrapping_add(bytes);
    }

    /// Counts bytes that clients received.
    pub fn add_download(&mut self, bytes: u64)
        ensures
            final(self)@ == (MetricsView {
                total_download: counted(old(self)@.total_download, bytes),
                ..old(self)@
            }),
    {
        self.total_download = self.total_download.wrapping_add(bytes);
    }

    /// Counts bytes of a client: for the client itself, listed or not, and in all. Where the
    /// client is listed, the list shows the new counts.
    pub fn count(&mut self, client: &mut ClientMetrics, direction: TrafficDirection, bytes: u64)
        ensures
            *final(client) == old(client).with_bytes(direction, bytes),
            final(self)@ == old(self)@.with_count(*old(client), direction, bytes),
            old(self)@.consistent() ==> final(self)@.consistent(),
            final(self)@.shows(*final(client)),
    {
        broadcast use vstd::std_specs::hash::group_hash_axioms;

        let ghost before = self@.clients;
        client.count(direction, bytes);
        let id: u64 = client.id;
        if self.clients.contains_key(&id) {
            self.clients.insert(id, client.clone());
            assert(self@.clients =~= before.insert(id, *client));
        }
        match direction {
            TrafficDirection::Upload => self.add_upload(bytes),
            TrafficDirection::Download => self.add_download(bytes),
        }
    }

    /// What is told about the server at time `now`: the newest client first.
    pub fn snapshot(&self, now: u64) -> (r: MetricsResponse)
        requires
            self@.consistent(),
        ensures
            r.total_upload == self@.total_upload,
            r.total_download == self@.total_download,
            is_descending(r.clients@),
            tells_about(r.clients@, self@.clients, now),
    {
        broadcast use vstd::std_specs::hash::group_hash_axioms;

        let ghost m = self@.clients;
        let mut clients: Vec<ClientInfo> = Vec::new();
        let ghost mut done: Set<u64> = Set::empty();
        for entry in it: self.clients.iter()
            invariant
                m == self.clients@,
                forall|id: u64| #[trigger] m.contains_key(id) ==> m[id].id == id,
                it.seq().no_duplicates(),
                forall|i: int|
                    #![trigger it.seq()[i]]
                    0 <= i < it.seq().len() ==> m.contains_key(*it.seq()[i].0) && m[*it.seq()[i].0]
                        == *it.seq()[i].1,
                forall|k: u64| #[trigger]
                    m.contains_key(k) ==> it.seq().contains((&k, &m[k])),
                is_descending(clients@),
                forall|j: int|
                    0 <= j < clients@.len() ==> done.contains((#[trigger] clients@[j]).id)
                        && clients@[j] == info_of(m[clients@[j].id], now),
                forall|id: u64| #[trigger]
                    done.contains(id) ==> exists|j: int|
                        0 <= j < clients@.len() && #[trigger] clients@[j].id == id,
                forall|id: u64| #[trigger]
                    done.contains(id) ==> exists|i: int|
                        0 <= i < it.index() && *(#[trigger] it.seq()[i]).0 == id,
                forall|i: int|
                    0 <= i < it.index() ==> done.contains(*(#[trigger] it.seq()[i]).0),
        {
            let (key, client) = entry;
            let ghost n = it.index() as int;
            let ghost id = *key;
            let ghost before = clients@;
            let ghost was = done;
            assert(entry == it.seq()[n]);
            assert(m.contains_key(id) && m[id] == *client);
            assert forall|i: int| 0 <= i < n implies *(#[trigger] it.seq()[i]).0 != id by {
                if *it.seq()[i].0 == id {
                    assert(it.seq()[i] == it.seq()[n]);
                }
            }
            assert(!done.contains(id));
            insert_descending(&mut clients, info(client, now));
            proof {
                let k = choose|k: int|
                    0 <= k <= before.len() && clients@ == #[trigger] before.insert(
                        k,
                        info_of(*client, now),
                    );
                done = done.insert(id);
                assert(clients@[k].id == id);
                assert forall|j: int| 0 <= j < clients@.len() implies done.contains(
                    (#[trigger] clients@[j]).id,
                ) && clients@[j] == info_of(m[clients@[j].id], now) by {
                    if j < k {
                        assert(clients@[j] == before[j]);
                    } else if j > k {
                        assert(clients@[j] == before[j - 1]);
                    }
                }
                assert forall|x: u64| #[trigger] done.contains(x) implies exists|j: int|
                    0 <= j < clients@.len() && #[trigger] clients@[j].id == x by {
                    if x != id {
                        assert(was.contains(x));
                        let j = choose|j: int| 0 <= j < before.len() && #[trigger] before[j].id == x;
                        if j < k {
                            assert(clients@[j].id == x);
                        } else {
                            assert(clients@[j + 1].id == x);
                        }
                    }
                }
            }
            assert forall|x: u64| #[trigger] done.contains(x) implies exists|i: int|
                0 <= i < n + 1 && *(#[trigger] it.seq()[i]).0 == x by {
                if x != id {
                    assert(was.contains(x));
                } else {
                    assert(*it.seq()[n].0 == x);
                }
            }
        }
        assert forall|id: u64| #[trigger] m.contains_key(id) implies exists|j: int|
            0 <= j < clients@.len() && #[trigger] clients@[j].id == id by {
            assert(done.contains(id));
        }
        MetricsResponse {
            total_upload: self.total_upload,
            total_download: self.total_download,
            clients,
        }
    }
}

/// A counter holds the sum as long as that fits, and starts over behind the largest number.
pub proof fn lemma_counters_add_up(count: u64, n: u64)
    ensures
        count + n <= u64::MAX ==> counted(count, n) == count + n,
        count + n > u64::MAX ==> counted(count, n) == count + n - u64::MAX - 1,
        counted(count, 0) == count,
        counted(count, 1) != count,
{
}

/// Bytes in one direction leave the other one alone, and who the client is.
pub proof fn lemma_directions_stay_apart(
    c: ClientMetrics,
    m: MetricsView,
    d: TrafficDirection,
    e: TrafficDirection,
    bytes: u64,
)
    ensures
        c.with_bytes(d, bytes).counter(d) == counted(c.counter(d), bytes),
        m.with_count(c, d, bytes).total(d) == counted(m.total(d), bytes),
        d != e ==> c.with_bytes(d, bytes).counter(e) == c.counter(e),
        d != e ==> m.with_count(c, d, bytes).total(e) == m.total(e),
        c.with_bytes(d, bytes).id == c.id,
        c.with_bytes(d, bytes).addr == c.addr,
        c.with_bytes(d, bytes).start_time == c.start_time,
        m.with_count(c, d, bytes).next_id == m.next_id,
        c.counter(TrafficDirection::Upload) == c.upload_bytes,
        c.counter(TrafficDirection::Download) == c.download_bytes,
        m.total(TrafficDirection::Upload) == m.total_upload,
        m.total(TrafficDirection::Download) == m.total_download,
{
}

/// Counting for a client changes the list only where the client is on it, and nobody else there.
pub proof fn lemma_others_stay_as_they_are(
    m: MetricsView,
    c: ClientMetrics,
    d: TrafficDirection,
    bytes: u64,
    id: u64,
)
    ensures
        m.with_count(c, d, bytes).clients.contains_key(id) <==> m.clients.contains_key(id),
        id != c.id ==> m.with_count(c, d, bytes).clients[id] == m.clients[id],
        m.clients.contains_key(c.id) ==> m.with_count(c, d, bytes).clients[c.id] == c.with_bytes(
            d,
            bytes,
        ),
{
}

/// What is told about a client is what was counted for it, and how many whole seconds it has been
/// there.
pub proof fn lemma_what_is_told_about_a_client(c: ClientMetrics, now: u64)
    ensures
        info_of(c, now).id == c.id,
        info_of(c, now).addr == c.addr,
        info_of(c, now).upload_bytes == c.upload_bytes,
        info_of(c, now).download_bytes == c.download_bytes,
        now < c.start_time ==> info_of(c, now).uptime_secs == 0,
        now >= c.start_time ==> info_of(c, now).uptime_secs * 1_000_000_000 <= now - c.start_time
            < (info_of(c, now).uptime_secs + 1) * 1_000_000_000,
{
}

/// The newest client is told about first, and every client exactly once.
pub proof fn lemma_every_client_is_told_about_once(
    list: Seq<ClientInfo>,
    clients: Map<u64, ClientMetrics>,
    now: u64,
    i: int,
    id: u64,
)
    requires
        is_descending(list),
        tells_about(list, clients, now),
    ensures
        clients.contains_key(id) <==> exists|k: int| 0 <= k < list.len() && #[trigger] list[k].id
            == id,
        forall|j: int, k: int|
            0 <= j < list.len() && 0 <= k < list.len() && list[j].id == list[k].id ==> j == k,
        clients.contains_key(id) ==> list.len() > 0 && id <= list[0].id,
        0 <= i < list.len() ==> list[i].upload_bytes == clients[list[i].id].upload_bytes
            && list[i].download_bytes == clients[list[i].id].download_bytes,
{
    if clients.contains_key(id) {
        let k = choose|k: int| 0 <= k < list.len() && #[trigger] list[k].id == id;
        assert(k == 0 || list[0].id > list[k].id);
    }
    assert forall|j: int, k: int|
        0 <= j < list.len() && 0 <= k < list.len() && list[j].id == list[k].id implies j == k by {
        if j < k {
            assert(list[j].id > list[k].id);
        } else if k < j {
            assert(list[k].id > list[j].id);
        }
    }
}

} // verus!
