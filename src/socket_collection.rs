use crate::ports::Ports;
use crate::table::{
    find_key, has_key, keys_unique, lemma_table_index, lemma_table_push, lemma_table_update,
    table_of,
};
use std::sync::atomic::{AtomicBool, AtomicIsize, Ordering};
use std::sync::Arc;
use tokio::sync::mpsc::{Receiver, Sender};
use vstd::prelude::*;

verus! {

/// The sending side of tokio's bounded queue, carried through opaque.
#[verifier::external_type_specification]
#[verifier::external_body]
#[verifier::reject_recursive_types(T)]
pub struct ExSender<T>(Sender<T>);

/// The receiving side of tokio's bounded queue, carried through opaque.
#[verifier::external_type_specification]
#[verifier::external_body]
#[verifier::reject_recursive_types(T)]
pub struct ExReceiver<T>(Receiver<T>);

/// Relies on `tokio::sync::mpsc::channel`: a bounded queue with `capacity`
/// slots. It panics on a capacity of 0 or above `usize::MAX >> 3`, which is
/// at least `0x1fff_ffff`.
#[verifier::external_body]
fn hand_off_queue<T>(capacity: usize) -> (Sender<T>, Receiver<T>)
    requires
        0 < capacity <= 0x1fff_ffff,
{
    tokio::sync::mpsc::channel(capacity)
}

/// Relies on `Receiver::len`: how many messages are queued now.
#[verifier::external_body]
fn queued<T>(r: &Receiver<T>) -> usize {
    r.len()
}

/// Relies on `Receiver::try_recv`: the next queued message, or `None` when
/// the queue is empty or closed.
#[verifier::external_body]
fn next_queued<T>(r: &mut Receiver<T>) -> Option<T> {
    r.try_recv().ok()
}

/// Relies on `Sender`'s `Clone`: another handle to the same queue.
#[verifier::external_body]
fn another_sender<T>(s: &Sender<T>) -> Sender<T> {
    s.clone()
}

/// Relies on `Arc`'s `Clone`: another pointer to the same value.
#[verifier::external_body]
fn share<T>(a: &Arc<T>) -> (r: Arc<T>)
    ensures
        r == *a,
{
    Arc::clone(a)
}

/// The number of slots of the hand-off queue.
pub const QUEUE_CAPACITY: usize = 1024;

/// One admitted connection: whether it was seen closed, and its transport.
pub struct Connection<T> {
    pub closed: bool,
    pub transport: T,
}

/// The live table as a map: open entries kept, closed ones dropped.
pub open spec fn open_part<T>(m: Map<Seq<char>, Connection<T>>) -> Map<Seq<char>, Connection<T>> {
    Map::new(|k: Seq<char>| m.contains_key(k) && !m[k].closed, |k: Seq<char>| m[k])
}

/// The table after admitting each pair in turn: a new id adds an open
/// entry, a known id has its entry replaced by an open one.
pub open spec fn admitted_all<T>(m: Map<Seq<char>, Connection<T>>, got: Seq<(Seq<char>, T)>) -> Map<
    Seq<char>,
    Connection<T>,
>
    decreases got.len(),
{
    if got.len() == 0 {
        m
    } else {
        admitted_all(m, got.drop_last()).insert(
            got.last().0,
            Connection { closed: false, transport: got.last().1 },
        )
    }
}

/// A handle through which new connections are handed to the registry.
#[verifier::reject_recursive_types(T)]
pub struct SocketCollectionHandle<T> {
    sender: Sender<(String, T)>,
}

impl<T> SocketCollectionHandle<T> {
    /// The sending side of the hand-off queue.
    pub fn sender(&self) -> &Sender<(String, T)> {
        &self.sender
    }
}

/// The counters that the supervisor watches, shared with the registry.
pub struct SocketCollectionStateHandle {
    pub ws_count: Arc<AtomicIsize>,
    pub ws_added: Arc<AtomicBool>,
}

/// Whether the supervisor must rebuild the server: connections were
/// admitted once, and none is live now.
pub open spec fn restart_due(ever_admitted: bool, live_count: int) -> bool {
    ever_admitted && live_count <= 0
}

/// The supervisor's decision on what it observed.
pub fn needs_restart(ever_admitted: bool, live_count: isize) -> (r: bool)
    ensures
        r == restart_due(ever_admitted, live_count as int),
{
    ever_admitted && live_count <= 0
}

impl SocketCollectionStateHandle {
    /// Reads both counters and decides whether to restart.
    pub fn needs_restart(&self) -> bool {
        let added = self.ws_added.load(Ordering::Relaxed);
        let count = self.ws_count.load(Ordering::Relaxed);
        needs_restart(added, count)
    }
}

/// The registry of live connections: a table keyed by id, fed through a
/// bounded hand-off queue and drained by the one task that runs the ticks.
#[verifier::reject_recursive_types(T)]
pub struct SocketCollection<T> {
    data: Vec<(String, Connection<T>)>,
    ever_added: bool,
    ws_count: Arc<AtomicIsize>,
    ws_added: Arc<AtomicBool>,
    receiver: Receiver<(String, T)>,
    sender: Sender<(String, T)>,
}

impl<T> View for SocketCollection<T> {
    type V = Map<Seq<char>, Connection<T>>;

    closed spec fn view(&self) -> Map<Seq<char>, Connection<T>> {
        table_of(self.data@)
    }
}

impl<T> SocketCollection<T> {
    /// No id occurs twice in the table.
    pub closed spec fn wf(&self) -> bool {
        keys_unique(self.data@)
    }

    /// Whether any connection was ever admitted under a new id.
    pub closed spec fn ever_admitted(&self) -> bool {
        self.ever_added
    }

    /// An empty registry.
    pub fn new() -> (r: Self)
        ensures
            r.wf(),
            r@ == Map::<Seq<char>, Connection<T>>::empty(),
            !r.ever_admitted(),
    {
        let (s, r) = hand_off_queue(QUEUE_CAPACITY);
        let c = SocketCollection {
            data: Vec::new(),
            ever_added: false,
            ws_count: Arc::new(AtomicIsize::new(0)),
            ws_added: Arc::new(AtomicBool::new(false)),
            receiver: r,
            sender: s,
        };
        assert(table_of(c.data@) =~= Map::<Seq<char>, Connection<T>>::empty());
        c
    }

    /// A handle for the tasks that admit connections.
    pub fn get_handle(&self) -> SocketCollectionHandle<T> {
        SocketCollectionHandle { sender: another_sender(&self.sender) }
    }

    /// The counters, for the supervisor.
    pub fn get_state_handle(&self) -> SocketCollectionStateHandle {
        SocketCollectionStateHandle {
            ws_count: share(&self.ws_count),
            ws_added: share(&self.ws_added),
        }
    }

    /// Publishes the live count for the supervisor.
    fn publish_count(&self) {
        let n = self.data.len();
        let count: isize = if n > isize::MAX as usize { isize::MAX } else { n as isize };
        self.ws_count.store(count, Ordering::Relaxed);
    }

    /// Puts a connection in the table under `id`, replacing any entry of
    /// that id; returns whether the id was new.
    pub fn insert_connection(&mut self, id: String, transport: T) -> (added: bool)
        requires
            old(self).wf(),
        ensures
            final(self).wf(),
            final(self)@ == old(self)@.insert(id@, Connection { closed: false, transport }),
            added == !old(self)@.contains_key(id@),
            final(self).ever_admitted() == old(self).ever_admitted(),
    {
        match find_key(&self.data, id.as_str()) {
            Some(i) => {
                proof {
                    lemma_table_index(self.data@, i as int);
                    lemma_table_update(
                        self.data@,
                        i as int,
                        id,
                        Connection { closed: false, transport },
                    );
                }
                self.data.set(i, (id, Connection { closed: false, transport }));
                false
            },
            None => {
                proof {
                    lemma_table_push(self.data@, id, Connection { closed: false, transport });
                }
                self.data.push((id, Connection { closed: false, transport }));
                true
            },
        }
    }

    /// Moves every connection queued now into the table, in order; an id
    /// already present has its entry replaced. Admitting a new id sets the
    /// "ever admitted" flag.
    pub fn collect_connections(&mut self)
        requires
            old(self).wf(),
        ensures
            final(self).wf(),
            exists|got: Seq<(Seq<char>, T)>| final(self)@ == admitted_all(old(self)@, got),
            final(self).ever_admitted() == (old(self).ever_admitted() || !(final(self)@.dom()
                =~= old(self)@.dom())),
    {
        let ghost start = self@;
        let ghost mut got: Seq<(Seq<char>, T)> = Seq::empty();
        let n = queued(&self.receiver);
        let mut i: usize = 0;
        while i < n
            invariant
                self.wf(),
                self@ == admitted_all(start, got),
                start.dom().subset_of(self@.dom()),
                self.ever_added == (old(self).ever_added || !(self@.dom() =~= start.dom())),
                old(self)@ == start,
            decreases n - i,
        {
            match next_queued(&mut self.receiver) {
                Some((id, transport)) => {
                    let ghost key = id@;
                    let ghost t = transport;
                    let added = self.insert_connection(id, transport);
                    proof {
                        let prev = got;
                        got = got.push((key, t));
                        assert(got.drop_last() =~= prev);
                    }
                    if added {
                        self.ever_added = true;
                        self.ws_added.store(true, Ordering::Relaxed);
                        self.publish_count();
                        assert(self@.contains_key(key) && !start.contains_key(key));
                    }
                },
                None => {
                    break;
                },
            }
            i = i + 1;
        }
    }

    /// Removes every entry seen closed and keeps every other one, whatever
    /// the order of the table.
    pub fn clean(&mut self)
        requires
            old(self).wf(),
        ensures
            final(self).wf(),
            final(self)@ == open_part(old(self)@),
            final(self).ever_admitted() == old(self).ever_admitted(),
    {
        let mut rest: Vec<(String, Connection<T>)> = Vec::new();
        std::mem::swap(&mut rest, &mut self.data);
        let ghost all = rest@;
        let ghost full = table_of(all);
        assert(table_of(self.data@) =~= Map::<Seq<char>, Connection<T>>::empty());
        assert(rest@.take(rest@.len() as int) =~= rest@);
        assert(Map::new(
            |k: Seq<char>| open_part(full).contains_key(k) && !has_key(all.take(all.len() as int), k),
            |k: Seq<char>| full[k],
        ) =~= Map::<Seq<char>, Connection<T>>::empty()) by {
            assert(all.take(all.len() as int) =~= all);
        }
        while rest.len() > 0
            invariant
                keys_unique(all),
                full == table_of(all),
                rest@ == all.take(rest@.len() as int),
                rest@.len() <= all.len(),
                keys_unique(self.data@),
                self.ever_added == old(self).ever_added,
                old(self).data@ == all,
                table_of(self.data@) == Map::new(
                    |k: Seq<char>|
                        open_part(full).contains_key(k) && !has_key(
                            all.take(rest@.len() as int),
                            k,
                        ),
                    |k: Seq<char>| full[k],
                ),
            decreases rest@.len(),
        {
            let ghost m = rest@.len() as int;
            let (id, c) = rest.pop().unwrap();
            let ghost key = id@;
            proof {
                assert(all[m - 1] == (id, c));
                lemma_table_index(all, m - 1);
                assert(rest@ == all.take(m - 1));
                assert forall|k: Seq<char>| #[trigger] has_key(all.take(m), k) == (has_key(
                    all.take(m - 1),
                    k,
                ) || k == key) by {
                    if has_key(all.take(m), k) {
                        let j = choose|j: int| 0 <= j < m && (#[trigger] all.take(m)[j]).0@ == k;
                        if j < m - 1 {
                            assert(all.take(m - 1)[j] == all.take(m)[j]);
                        }
                    }
                    if has_key(all.take(m - 1), k) {
                        let j = choose|j: int|
                            0 <= j < m - 1 && (#[trigger] all.take(m - 1)[j]).0@ == k;
                        assert(all.take(m)[j] == all.take(m - 1)[j]);
                    }
                    if k == key {
                        assert(all.take(m)[m - 1] == all[m - 1]);
                    }
                }
                assert(!has_key(all.take(m - 1), key)) by {
                    if has_key(all.take(m - 1), key) {
                        let j = choose|j: int|
                            0 <= j < m - 1 && (#[trigger] all.take(m - 1)[j]).0@ == key;
                        assert(all.take(m - 1)[j] == all[j]);
                    }
                }
            }
            if !c.closed {
                proof {
                    assert(!table_of(self.data@).contains_key(key));
                    lemma_table_push(self.data@, id, c);
                }
                self.data.push((id, c));
            }
            assert(table_of(self.data@) =~= Map::new(
                |k: Seq<char>|
                    open_part(full).contains_key(k) && !has_key(all.take(rest@.len() as int), k),
                |k: Seq<char>| full[k],
            ));
        }
        assert(all.take(0) =~= Seq::<(String, Connection<T>)>::empty());
        assert(table_of(self.data@) =~= open_part(full));
        self.publish_count();
    }

    /// Lends every connection out for one tick, by id. The ids stay in the
    /// table: what is taken from the set comes back when the tick ends.
    pub fn ports(&mut self) -> (r: Ports<&mut Connection<T>>)
        requires
            old(self).wf(),
        ensures
            r.wf(),
            r@.dom() == old(self)@.dom(),
            forall|k: Seq<char>| #[trigger] r@.contains_key(k) ==> *r@[k] == old(self)@[k],
    {
        let ghost all = self.data@;
        let mut out: Vec<(String, &mut Connection<T>)> = Vec::new();
        let mut rest: &mut [(String, Connection<T>)] = self.data.as_mut_slice();
        let ghost mut i: int = 0;
        while rest.len() > 0
            invariant
                keys_unique(all),
                0 <= i <= all.len(),
                rest@ == all.skip(i),
                out@.len() == i,
                forall|j: int|
                    0 <= j < i ==> (#[trigger] out@[j]).0@ == all[j].0@ && *out@[j].1 == all[j].1,
            decreases rest@.len(),
        {
            let (head, tail) = rest.split_at_mut(1);
            let e = head.first_mut().unwrap();
            let (k, c) = (&mut e.0, &mut e.1);
            out.push((k.clone(), c));
            rest = tail;
            proof {
                i = i + 1;
            }
        }
        proof {
            assert(out@.len() == all.len());
            assert(keys_unique(out@));
            assert forall|k: Seq<char>| #[trigger] has_key(out@, k) == has_key(all, k) by {
                if has_key(out@, k) {
                    let j = choose|j: int| 0 <= j < out@.len() && (#[trigger] out@[j]).0@ == k;
                    assert(all[j].0@ == k);
                }
                if has_key(all, k) {
                    let j = choose|j: int| 0 <= j < all.len() && (#[trigger] all[j]).0@ == k;
                    assert(out@[j].0@ == k);
                }
            }
            assert(table_of(out@).dom() =~= table_of(all).dom());
            assert forall|k: Seq<char>| #[trigger] table_of(out@).contains_key(k) implies *table_of(
                out@,
            )[k] == table_of(all)[k] by {
                let j = choose|j: int| 0 <= j < out@.len() && (#[trigger] out@[j]).0@ == k;
                lemma_table_index(out@, j);
                lemma_table_index(all, j);
            }
        }
        Ports::new(out)
    }
}

/// Re-admitting an id within one drain leaves one entry for it, holding the
/// newest transport.
pub proof fn lemma_readmit_keeps_newest<T>(
    m: Map<Seq<char>, Connection<T>>,
    id: Seq<char>,
    first: T,
    second: T,
)
    ensures
        admitted_all(m, seq![(id, first), (id, second)]) == m.insert(
            id,
            Connection { closed: false, transport: second },
        ),
        admitted_all(m, seq![(id, first), (id, second)])[id].transport == second,
{
    let got = seq![(id, first), (id, second)];
    let one = seq![(id, first)];
    assert(got.drop_last() =~= one);
    assert(one.drop_last() =~= Seq::<(Seq<char>, T)>::empty());
    assert(admitted_all(m, one.drop_last()) == m);
    assert(one.last() == (id, first));
    assert(got.last() == (id, second));
    assert(admitted_all(m, one) == m.insert(id, Connection { closed: false, transport: first }));
    assert(admitted_all(m, got) == admitted_all(m, one).insert(
        id,
        Connection { closed: false, transport: second },
    ));
    assert(admitted_all(m, got) =~= m.insert(id, Connection { closed: false, transport: second }));
    assert(admitted_all(m, got)[id] == Connection { closed: false, transport: second });
}

/// A sweep keeps exactly the entries not marked closed, each unchanged.
pub proof fn lemma_sweep_exact<T>(m: Map<Seq<char>, Connection<T>>)
    ensures
        forall|k: Seq<char>|
            #[trigger] open_part(m).contains_key(k) <==> (m.contains_key(k) && !m[k].closed),
        forall|k: Seq<char>| #[trigger] open_part(m).contains_key(k) ==> open_part(m)[k] == m[k],
{
}

} // verus!

verus! {

/// Once every connection of a table was seen closed, the sweep leaves it
/// empty, and with connections admitted before, the supervisor's decision
/// is to restart.
pub proof fn lemma_restart_after_last_close<T>(m: Map<Seq<char>, Connection<T>>)
    requires
        forall|k: Seq<char>| #[trigger] m.contains_key(k) ==> m[k].closed,
    ensures
        open_part(m).len() == 0,
        restart_due(true, open_part(m).len() as int),
{
    assert(open_part(m).dom() =~= Set::<Seq<char>>::empty());
}

} // verus!
