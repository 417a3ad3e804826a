//! The control channel's core: command intake, line framing of client input
//! and the registry of connected clients.
use vstd::prelude::*;

use std::sync::mpsc::{Receiver, Sender, TryRecvError};

verus! {

#[verifier::external_type_specification]
#[verifier::external_body]
#[verifier::reject_recursive_types(T)]
pub struct ExSender<T>(std::sync::mpsc::Sender<T>);

#[verifier::external_type_specification]
#[verifier::external_body]
#[verifier::reject_recursive_types(T)]
pub struct ExReceiver<T>(std::sync::mpsc::Receiver<T>);

#[verifier::external_type_specification]
#[verifier::external_body]
pub struct ExTryRecvError(std::sync::mpsc::TryRecvError);

/// Relies on `Sender::clone`: a further handle to the same channel. What a
/// channel carries depends on other threads, so nothing is stated.
pub assume_specification<T>[ <std::sync::mpsc::Sender<T> as Clone>::clone ](
    s: &std::sync::mpsc::Sender<T>,
) -> std::sync::mpsc::Sender<T>;

/// Relies on `Receiver::try_recv`: takes the oldest queued message without
/// blocking. Whether one is queued depends on other threads, so nothing is
/// stated.
pub assume_specification<T>[ std::sync::mpsc::Receiver::<T>::try_recv ](
    r: &std::sync::mpsc::Receiver<T>,
) -> Result<T, std::sync::mpsc::TryRecvError>;

/// Handles of the local socket server: frames sent on `sender()` go to every
/// connected client; lines received from clients come out of
/// `try_recv_command`.
pub struct SocketServer {
    tx_broadcast: Sender<Vec<u8>>,
    rx_commands: Receiver<String>,
}

impl SocketServer {
    /// Wraps the broadcast sender and the command receiver that the server's
    /// threads serve.
    pub fn from_channels(tx_broadcast: Sender<Vec<u8>>, rx_commands: Receiver<String>) -> Self {
        SocketServer { tx_broadcast, rx_commands }
    }

    /// A sender of frames to broadcast to every connected client.
    pub fn sender(&self) -> Sender<Vec<u8>> {
        self.tx_broadcast.clone()
    }

    /// The oldest received command line, if one is waiting.
    pub fn try_recv_command(&self) -> Option<String> {
        match self.rx_commands.try_recv() {
            Ok(cmd) => Some(cmd),
            Err(_) => None,
        }
    }
}

/// Pause between read attempts on a client with nothing to read.
pub const CLIENT_IDLE_PAUSE_MS: u64 = 200;

/// How one read from a client connection ended.
#[derive(Debug, Clone, Copy, PartialEq, Eq, Structural)]
pub enum ClientRead {
    /// `len` bytes arrived.
    Data { len: usize },
    /// The client closed the connection.
    Closed,
    /// Nothing to read yet.
    WouldBlock,
    /// Any other read error.
    Failed,
}

/// What a client's read loop does next.
#[derive(Debug, Clone, Copy, PartialEq, Eq, Structural)]
pub enum ClientStep {
    /// Frame the first `len` bytes into command lines, then read again.
    Consume { len: usize },
    /// Sleep `pause_ms` milliseconds, then read again.
    PauseThenRead { pause_ms: u64 },
    /// End the loop and remove the client from the registry.
    Drop,
}

/// The client read loop's decision: consume what arrived, wait when nothing
/// is there, drop the client once it closed or failed.
pub fn client_step(read: ClientRead) -> (r: ClientStep)
    ensures
        r == match read {
            ClientRead::Data { len } => ClientStep::Consume { len },
            ClientRead::WouldBlock => ClientStep::PauseThenRead { pause_ms: CLIENT_IDLE_PAUSE_MS },
            ClientRead::Closed | ClientRead::Failed => ClientStep::Drop,
        },
{
    match read {
        ClientRead::Data { len } => ClientStep::Consume { len },
        ClientRead::WouldBlock => ClientStep::PauseThenRead { pause_ms: CLIENT_IDLE_PAUSE_MS },
        ClientRead::Closed | ClientRead::Failed => ClientStep::Drop,
    }
}

/// The text that `String::from_utf8_lossy` makes of the bytes `b`.
pub uninterp spec fn utf8_lossy(b: Seq<u8>) -> Seq<char>;

/// Relies on `String::from_utf8_lossy`: decodes UTF-8, replacing invalid
/// sequences with U+FFFD.
#[verifier::external_body]
fn decode_lossy(b: &[u8]) -> (r: String)
    ensures
        r@ == utf8_lossy(b@),
{
    String::from_utf8_lossy(b).into_owned()
}

/// The byte that ends a command line.
pub const NEWLINE: u8 = 10;

/// The complete lines of `s` (without their newline) and the unterminated
/// rest.
pub open spec fn split_lines(s: Seq<u8>) -> (Seq<Seq<u8>>, Seq<u8>)
    decreases s.len(),
{
    if s.len() == 0 {
        (seq![], seq![])
    } else {
        let (lines, rest) = split_lines(s.drop_last());
        if s.last() == NEWLINE {
            (lines.push(rest), seq![])
        } else {
            (lines, rest.push(s.last()))
        }
    }
}

proof fn lemma_no_newline_no_line(s: Seq<u8>)
    requires
        !s.contains(NEWLINE),
    ensures
        split_lines(s) == (Seq::<Seq<u8>>::empty(), s),
    decreases s.len(),
{
    if s.len() > 0 {
        assert(!s.drop_last().contains(NEWLINE)) by {
            if s.drop_last().contains(NEWLINE) {
                let k = choose|k: int| 0 <= k < s.drop_last().len() && s.drop_last()[k] == NEWLINE;
                assert(s[k] == NEWLINE);
            }
        }
        lemma_no_newline_no_line(s.drop_last());
        assert(s.last() != NEWLINE) by {
            if s.last() == NEWLINE {
                assert(s[s.len() - 1] == NEWLINE);
            }
        }
        assert(s.drop_last().push(s.last()) =~= s);
    }
}

proof fn lemma_rest_has_no_newline(s: Seq<u8>)
    ensures
        !split_lines(s).1.contains(NEWLINE),
    decreases s.len(),
{
    if s.len() > 0 {
        lemma_rest_has_no_newline(s.drop_last());
        let rest = split_lines(s.drop_last()).1;
        if s.last() != NEWLINE {
            assert forall|k: int| 0 <= k < rest.push(s.last()).len() implies rest.push(s.last())[k]
                != NEWLINE by {
                if k < rest.len() {
                    assert(rest.push(s.last())[k] == rest[k]);
                }
            }
        }
    }
}

/// Collects newline-delimited text from a byte stream.
pub struct LineBuffer {
    pending: Vec<u8>,
}

impl LineBuffer {
    /// No newline waits in the buffer.
    pub closed spec fn wf(&self) -> bool {
        !self.pending@.contains(NEWLINE)
    }

    /// Bytes received after the last newline.
    pub closed spec fn pending(&self) -> Seq<u8> {
        self.pending@
    }

    pub fn new() -> (r: Self)
        ensures
            r.wf(),
            r.pending() == Seq::<u8>::empty(),
    {
        LineBuffer { pending: Vec::new() }
    }

    /// Takes the next bytes of the stream and returns each line they
    /// complete, decoded as UTF-8; an unfinished line waits for more bytes.
    pub fn push_bytes(&mut self, data: &[u8]) -> (r: Vec<String>)
        requires
            old(self).wf(),
        ensures
            final(self).wf(),
            ({
                let (lines, rest) = split_lines(old(self).pending() + data@);
                &&& final(self).pending() == rest
                &&& r@.map_values(|l: String| l@) == lines.map_values(|l: Seq<u8>| utf8_lossy(l))
            }),
    {
        proof {
            lemma_no_newline_no_line(self.pending@);
        }
        let ghost start = self.pending@;
        let ghost raw: Seq<Seq<u8>> = seq![];
        let mut out: Vec<String> = Vec::new();
        let mut pending = Vec::new();
        std::mem::swap(&mut pending, &mut self.pending);
        assert(start + data@.take(0) =~= start);
        let mut i: usize = 0;
        while i < data.len()
            invariant
                i <= data.len(),
                split_lines(start + data@.take(i as int)) == (raw, pending@),
                out@.map_values(|l: String| l@) == raw.map_values(|l: Seq<u8>| utf8_lossy(l)),
                self.pending@ == Seq::<u8>::empty(),
            decreases data.len() - i,
        {
            let b = data[i];
            assert((start + data@.take(i + 1)).drop_last() =~= start + data@.take(i as int));
            assert((start + data@.take(i + 1)).last() == b);
            if b == NEWLINE {
                let line = decode_lossy(pending.as_slice());
                let ghost before = out@.map_values(|l: String| l@);
                out.push(line);
                proof {
                    assert(out@.map_values(|l: String| l@) =~= before.push(utf8_lossy(pending@)));
                    assert(raw.push(pending@).map_values(|l: Seq<u8>| utf8_lossy(l)) =~= raw.map_values(
                        |l: Seq<u8>| utf8_lossy(l),
                    ).push(utf8_lossy(pending@)));
                    raw = raw.push(pending@);
                }
                pending = Vec::new();
            } else {
                pending.push(b);
            }
            i = i + 1;
        }
        assert(data@.take(i as int) =~= data@);
        proof {
            lemma_rest_has_no_newline(start + data@);
        }
        self.pending = pending;
        out
    }
}

/// The elements of `s` whose flag in `keep` is set, in order.
pub open spec fn kept<T>(s: Seq<T>, keep: Seq<bool>) -> Seq<T>
    decreases s.len(),
{
    if s.len() == 0 || keep.len() == 0 {
        seq![]
    } else if keep.last() {
        kept(s.drop_last(), keep.drop_last()).push(s.last())
    } else {
        kept(s.drop_last(), keep.drop_last())
    }
}

proof fn lemma_kept_step<T>(s: Seq<T>, keep: Seq<bool>, j: int)
    requires
        s.len() == keep.len(),
        0 <= j < s.len(),
    ensures
        kept(s.take(j + 1), keep.take(j + 1)) == (if keep[j] {
            kept(s.take(j), keep.take(j)).push(s[j])
        } else {
            kept(s.take(j), keep.take(j))
        }),
{
    assert(s.take(j + 1).drop_last() =~= s.take(j));
    assert(keep.take(j + 1).drop_last() =~= keep.take(j));
}

proof fn lemma_kept_len<T>(s: Seq<T>, keep: Seq<bool>)
    ensures
        kept(s, keep).len() <= s.len(),
    decreases s.len(),
{
    if s.len() > 0 && keep.len() > 0 {
        lemma_kept_len(s.drop_last(), keep.drop_last());
    }
}

proof fn lemma_kept_same_len<A, B>(a: Seq<A>, b: Seq<B>, keep: Seq<bool>)
    requires
        a.len() == b.len(),
    ensures
        kept(a, keep).len() == kept(b, keep).len(),
    decreases a.len(),
{
    if a.len() > 0 && keep.len() > 0 {
        lemma_kept_same_len(a.drop_last(), b.drop_last(), keep.drop_last());
    }
}

/// Keeps the elements of `v` whose flag in `keep` is set.
fn retain_flagged<T>(v: &mut Vec<T>, keep: &Vec<bool>)
    requires
        old(v).len() == keep.len(),
    ensures
        final(v)@ == kept(old(v)@, keep@),
{
    let ghost s = old(v)@;
    let mut i: usize = 0;
    let mut j: usize = 0;
    assert(s.take(0) =~= Seq::<T>::empty());
    assert(s.skip(0) =~= s);
    while j < keep.len()
        invariant
            s.len() == keep.len(),
            j <= keep.len(),
            i == kept(s.take(j as int), keep@.take(j as int)).len(),
            v@ == kept(s.take(j as int), keep@.take(j as int)) + s.skip(j as int),
        decreases keep.len() - j,
    {
        proof {
            lemma_kept_step(s, keep@, j as int);
            lemma_kept_len(s.take(j as int), keep@.take(j as int));
        }
        let ghost prefix = kept(s.take(j as int), keep@.take(j as int));
        assert(s.skip(j as int) =~= seq![s[j as int]] + s.skip(j + 1));
        assert(v@[i as int] == s[j as int]);
        if keep[j] {
            i = i + 1;
            assert(v@ =~= prefix.push(s[j as int]) + s.skip(j + 1));
        } else {
            v.remove(i);
            assert(v@ =~= prefix + s.skip(j + 1));
        }
        j = j + 1;
    }
    assert(s.take(j as int) =~= s);
    assert(keep@.take(j as int) =~= keep@);
    assert(s.skip(j as int) =~= Seq::<T>::empty());
    assert(v@ =~= kept(s, keep@));
}

fn position_of(ids: &Vec<u64>, id: u64) -> (r: Option<usize>)
    ensures
        match r {
            Some(k) => k < ids@.len() && ids@[k as int] == id,
            None => !ids@.contains(id),
        },
{
    let mut k: usize = 0;
    while k < ids.len()
        invariant
            k <= ids.len(),
            forall|j: int| 0 <= j < k ==> ids@[j] != id,
        decreases ids.len() - k,
    {
        if ids[k] == id {
            return Some(k);
        }
        k = k + 1;
    }
    None
}

proof fn lemma_remove_unique(s: Seq<u64>, k: int, bound: u64)
    requires
        0 <= k < s.len(),
        s.no_duplicates(),
        forall|j: int| 0 <= j < s.len() ==> s[j] < bound,
    ensures
        s.remove(k).no_duplicates(),
        forall|j: int| 0 <= j < s.remove(k).len() ==> s.remove(k)[j] < bound,
        !s.remove(k).contains(s[k]),
{
    let r = s.remove(k);
    assert forall|j: int| 0 <= j < r.len() implies r[j] == s[if j < k { j } else { j + 1 }] by {}
    assert forall|a: int, b: int| 0 <= a < b < r.len() implies r[a] != r[b] by {
        assert(r[a] == s[if a < k { a } else { a + 1 }]);
        assert(r[b] == s[if b < k { b } else { b + 1 }]);
    }
    assert forall|j: int| 0 <= j < r.len() implies r[j] < bound by {
        assert(r[j] == s[if j < k { j } else { j + 1 }]);
    }
    if r.contains(s[k]) {
        let m = choose|m: int| 0 <= m < r.len() && r[m] == s[k];
        assert(r[m] == s[if m < k { m } else { m + 1 }]);
    }
}

/// The connected clients, each under an id unique within the registry.
pub struct ClientRegistry<C> {
    ids: Vec<u64>,
    clients: Vec<C>,
    next_id: u64,
}

impl<C> ClientRegistry<C> {
    /// One entry per id; ids are distinct and below the next one to give.
    pub closed spec fn wf(&self) -> bool {
        &&& self.ids.len() == self.clients.len()
        &&& forall|k: int| 0 <= k < self.ids.len() ==> self.ids[k] < self.next_id
        &&& self.ids@.no_duplicates()
    }

    /// Ids of the registered clients, in registration order.
    pub closed spec fn ids(&self) -> Seq<u64> {
        self.ids@
    }

    /// The registered clients, in the order of `ids()`.
    pub closed spec fn entries(&self) -> Seq<C> {
        self.clients@
    }

    /// The id the next registered client gets.
    pub closed spec fn next_id(&self) -> u64 {
        self.next_id
    }

    pub fn new() -> (r: Self)
        ensures
            r.wf(),
            r.next_id() == 0,
            r.ids() == Seq::<u64>::empty(),
            r.entries() == Seq::<C>::empty(),
    {
        ClientRegistry { ids: Vec::new(), clients: Vec::new(), next_id: 0 }
    }

    /// The registered clients, in the order of `ids()`.
    pub fn clients(&self) -> (r: &Vec<C>)
        requires
            self.wf(),
        ensures
            r@ == self.entries(),
            r@.len() == self.ids().len(),
    {
        &self.clients
    }

    pub fn len(&self) -> (r: usize)
        ensures
            r == self.ids().len(),
    {
        self.ids.len()
    }

    /// Adds a client under a fresh id; `None` (and the client is dropped)
    /// once ids are exhausted.
    pub fn register(&mut self, client: C) -> (r: Option<u64>)
        requires
            old(self).wf(),
        ensures
            final(self).wf(),
            r is None <==> old(self).next_id() == u64::MAX,
            match r {
                Some(id) => {
                    &&& id == old(self).next_id()
                    &&& final(self).next_id() == id + 1
                    &&& !old(self).ids().contains(id)
                    &&& final(self).ids() == old(self).ids().push(id)
                    &&& final(self).entries() == old(self).entries().push(client)
                },
                None => final(self).ids() == old(self).ids() && final(self).entries()
                    == old(self).entries(),
            },
    {
        if self.next_id == u64::MAX {
            return None;
        }
        let id = self.next_id;
        self.ids.push(id);
        self.clients.push(client);
        self.next_id = id + 1;
        Some(id)
    }

    /// Removes the client `id` (one whose connection closed); returns whether
    /// it was registered.
    pub fn remove(&mut self, id: u64) -> (r: bool)
        requires
            old(self).wf(),
        ensures
            final(self).wf(),
            r == old(self).ids().contains(id),
            !final(self).ids().contains(id),
            r ==> exists|k: int|
                0 <= k < old(self).ids().len() && old(self).ids()[k] == id && final(self).ids()
                    == old(self).ids().remove(k) && final(self).entries() == old(self).entries().remove(k),
            !r ==> final(self).ids() == old(self).ids() && final(self).entries() == old(self).entries(),
    {
        match position_of(&self.ids, id) {
            Some(k) => {
                proof {
                    lemma_remove_unique(self.ids@, k as int, self.next_id);
                }
                let ghost before_ids = self.ids@;
                let ghost before_clients = self.clients@;
                self.ids.remove(k);
                self.clients.remove(k);
                assert(before_ids[k as int] == id && self.ids@ == before_ids.remove(k as int)
                    && self.clients@ == before_clients.remove(k as int));
                assert(old(self).ids()[k as int] == id && self.ids() == old(self).ids().remove(k as int)
                    && self.entries() == old(self).entries().remove(k as int));
                true
            },
            None => false,
        }
    }

    /// After a broadcast: keeps the clients whose write succeeded
    /// (`delivered[k]` for the `k`-th client) and drops the others.
    pub fn retain_delivered(&mut self, delivered: &Vec<bool>)
        requires
            old(self).wf(),
            delivered@.len() == old(self).ids().len(),
        ensures
            final(self).wf(),
            final(self).ids() == kept(old(self).ids(), delivered@),
            final(self).entries() == kept(old(self).entries(), delivered@),
    {
        retain_flagged(&mut self.ids, delivered);
        retain_flagged(&mut self.clients, delivered);
        proof {
            lemma_kept_preserves(old(self).ids@, delivered@, self.next_id);
            lemma_kept_same_len(old(self).ids@, old(self).clients@, delivered@);
        }
    }
}

proof fn lemma_kept_within<T>(s: Seq<T>, keep: Seq<bool>, x: T)
    ensures
        kept(s, keep).contains(x) ==> s.contains(x),
    decreases s.len(),
{
    if s.len() > 0 && keep.len() > 0 {
        let s0 = s.drop_last();
        let r = kept(s0, keep.drop_last());
        lemma_kept_within(s0, keep.drop_last(), x);
        if kept(s, keep).contains(x) {
            if keep.last() && x == s.last() {
                assert(s[s.len() - 1] == x);
            } else {
                let m = choose|m: int| 0 <= m < kept(s, keep).len() && kept(s, keep)[m] == x;
                assert(r[m] == x);
                assert(r.contains(x));
                let n = choose|n: int| 0 <= n < s0.len() && s0[n] == x;
                assert(s[n] == x);
            }
        }
    }
}

/// A broadcast to a registry with no client writes to no one, and the
/// registry stays empty.
pub proof fn lemma_broadcast_to_no_client(delivered: Seq<bool>)
    requires
        delivered.len() == 0,
    ensures
        kept(Seq::<u64>::empty(), delivered) == Seq::<u64>::empty(),
{
}

/// A client that is not registered (it was removed when its connection
/// closed) is not registered after a broadcast either, so no later broadcast
/// writes to it.
pub proof fn lemma_removed_client_stays_out(ids: Seq<u64>, delivered: Seq<bool>, id: u64)
    requires
        !ids.contains(id),
    ensures
        !kept(ids, delivered).contains(id),
{
    lemma_kept_within(ids, delivered, id);
}

proof fn lemma_kept_preserves(s: Seq<u64>, keep: Seq<bool>, bound: u64)
    requires
        s.no_duplicates(),
        forall|k: int| 0 <= k < s.len() ==> s[k] < bound,
    ensures
        kept(s, keep).no_duplicates(),
        forall|k: int| 0 <= k < kept(s, keep).len() ==> kept(s, keep)[k] < bound,
        forall|x: u64| kept(s, keep).contains(x) ==> s.contains(x),
    decreases s.len(),
{
    if s.len() > 0 && keep.len() > 0 {
        let s0 = s.drop_last();
        assert forall|a: int, b: int| 0 <= a < b < s0.len() implies s0[a] != s0[b] by {
            assert(s[a] != s[b]);
        }
        lemma_kept_preserves(s0, keep.drop_last(), bound);
        let r = kept(s0, keep.drop_last());
        if keep.last() {
            assert(!r.contains(s.last())) by {
                if r.contains(s.last()) {
                    assert(s0.contains(s.last()));
                    let m = choose|m: int| 0 <= m < s0.len() && s0[m] == s.last();
                    assert(s[m] == s[s.len() - 1]);
                }
            }
            assert forall|x: u64| r.push(s.last()).contains(x) implies s.contains(x) by {
                if x != s.last() {
                    let m = choose|m: int| 0 <= m < r.push(s.last()).len() && r.push(s.last())[m] == x;
                    assert(r[m] == x);
                    assert(r.contains(x));
                    assert(s0.contains(x));
                    let n = choose|n: int| 0 <= n < s0.len() && s0[n] == x;
                    assert(s[n] == x);
                } else {
                    assert(s[s.len() - 1] == x);
                }
            }
        } else {
            assert forall|x: u64| r.contains(x) implies s.contains(x) by {
                assert(s0.contains(x));
                let n = choose|n: int| 0 <= n < s0.len() && s0[n] == x;
                assert(s[n] == x);
            }
        }
    }
}

} // verus!
