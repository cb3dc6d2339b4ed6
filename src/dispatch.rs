//! Typed protocol messages and the decisions taken on them: which kind of
//! message a frame carries, which advertised peers to remember, and which
//! shared transactions to keep.

use vstd::prelude::*;
use crate::protocol::{Input, Output, Transaction, TransactionModel, TxHash, bytes32_equal, spends_validly};
use crate::wire::{FrameError, PROTOCOL_VERSION};

verus! {

/// Message type of a handshake; type 1 is read as a handshake too.
pub const MSG_HANDSHAKE: u8 = 0;

/// Message type of a transaction share.
pub const MSG_SHARE_TX: u8 = 2;

/// What a frame's payload is to be decoded as.
#[derive(Clone, Copy, PartialEq, Eq, Debug)]
pub enum MessageKind {
    /// A list of peers.
    Handshake,
    /// A list of transactions.
    ShareTx,
    /// A type this node does not know; the payload is dropped.
    Unrecognized(u8),
}

/// The kind of message of type `t`.
pub open spec fn kind_of(t: u8) -> MessageKind {
    if t <= 1 {
        MessageKind::Handshake
    } else if t == MSG_SHARE_TX {
        MessageKind::ShareTx
    } else {
        MessageKind::Unrecognized(t)
    }
}

/// Routes a message by its type, refusing versions above the one supported.
pub fn message_kind(msg_version: u8, msg_type: u8) -> (r: Result<MessageKind, FrameError>)
    ensures
        msg_version > PROTOCOL_VERSION ==> r == Err::<MessageKind, FrameError>(
            FrameError::UnsupportedVersion(msg_version),
        ),
        msg_version <= PROTOCOL_VERSION ==> r == Ok::<MessageKind, FrameError>(kind_of(msg_type)),
{
    if msg_version > PROTOCOL_VERSION {
        Err(FrameError::UnsupportedVersion(msg_version))
    } else if msg_type <= 1 {
        Ok(MessageKind::Handshake)
    } else if msg_type == MSG_SHARE_TX {
        Ok(MessageKind::ShareTx)
    } else {
        Ok(MessageKind::Unrecognized(msg_type))
    }
}

/// A network address with its prefix length, IPv4 or IPv6, the address held
/// as an integer in network order.
#[derive(Clone, Copy, PartialEq, Eq, Structural, Debug, Hash)]
#[allow(inconsistent_fields)]
pub enum NetAddr {
    V4 { addr: u32, prefix_len: u8 },
    V6 { addr: u128, prefix_len: u8 },
}

impl NetAddr {
    /// Whether the prefix length fits the address family.
    pub open spec fn wf(&self) -> bool {
        match *self {
            NetAddr::V4 { prefix_len, .. } => prefix_len <= 32,
            NetAddr::V6 { prefix_len, .. } => prefix_len <= 128,
        }
    }
}

/// A peer: its network address and port.
#[derive(Clone, Copy, PartialEq, Eq, Structural, Debug, Hash)]
pub struct Node {
    pub addr: NetAddr,
    pub port: u16,
}

/// A handshake: the peers the sender knows.
pub struct MsgHandshake {
    pub nodes: Vec<Node>,
}

/// A transaction share: transactions offered to the receiver.
pub struct MsgShareTx {
    pub txs: Vec<Transaction>,
}

/// The peers known after learning `nodes`, in order, on top of `known`:
/// each node not yet known is appended.
pub open spec fn merged(known: Seq<Node>, nodes: Seq<Node>) -> Seq<Node>
    decreases nodes.len(),
{
    if nodes.len() == 0 {
        known
    } else {
        let m = merged(known, nodes.drop_last());
        if m.contains(nodes.last()) {
            m
        } else {
            m.push(nodes.last())
        }
    }
}

/// The peers this node knows, each once, in the order they were learnt.
pub struct PeerTable {
    peers: Vec<Node>,
}

impl View for PeerTable {
    type V = Seq<Node>;

    closed spec fn view(&self) -> Seq<Node> {
        self.peers@
    }
}

impl PeerTable {
    /// Whether no peer is listed twice.
    pub open spec fn wf(&self) -> bool {
        self@.no_duplicates()
    }

    /// An empty table.
    pub fn new() -> (r: PeerTable)
        ensures
            r.wf(),
            r@ == Seq::<Node>::empty(),
    {
        PeerTable { peers: Vec::new() }
    }

    /// The known peers.
    pub fn peers(&self) -> (r: &[Node])
        ensures
            r@ == self@,
    {
        self.peers.as_slice()
    }

    /// Whether the peer is known.
    pub fn contains(&self, node: &Node) -> (r: bool)
        ensures
            r == self@.contains(*node),
    {
        let mut i: usize = 0;
        while i < self.peers.len()
            invariant
                i <= self@.len(),
                forall|k: int| 0 <= k < i ==> self@[k] != *node,
            decreases self@.len() - i,
        {
            if self.peers[i] == *node {
                return true;
            }
            i = i + 1;
        }
        false
    }

    /// Records the peers of a handshake: each one not yet known is appended,
    /// in the order given.
    pub fn merge(&mut self, nodes: &[Node])
        requires
            old(self).wf(),
        ensures
            final(self).wf(),
            final(self)@ == merged(old(self)@, nodes@),
            final(self)@.to_set() == old(self)@.to_set().union(nodes@.to_set()),
            final(self)@.subrange(0, old(self)@.len() as int) == old(self)@,
    {
        let mut i: usize = 0;
        while i < nodes.len()
            invariant
                i <= nodes@.len(),
                self.wf(),
                self@.to_set() == old(self)@.to_set().union(nodes@.subrange(0, i as int).to_set()),
                old(self)@.len() <= self@.len(),
                self@.subrange(0, old(self)@.len() as int) == old(self)@,
                self@ == merged(old(self)@, nodes@.take(i as int)),
            decreases nodes@.len() - i,
        {
            let n = nodes[i];
            let ghost before = self@;
            proof {
                assert(nodes@.take(i + 1).drop_last() =~= nodes@.take(i as int));
                assert(nodes@.take(i + 1).last() == n);
            }
            if !self.contains(&n) {
                self.peers.push(n);
                proof {
                    assert(self@ == before.push(n));
                    assert forall|a: int, b: int|
                        0 <= a < self@.len() && 0 <= b < self@.len() && a != b implies self@[a]
                        != self@[b] by {
                        if a < before.len() && b < before.len() {
                        } else if a == before.len() {
                            assert(!before.contains(n));
                            assert(before[b] == self@[b]);
                        } else {
                            assert(!before.contains(n));
                            assert(before[a] == self@[a]);
                        }
                    }
                    assert(self@.subrange(0, old(self)@.len() as int) =~= before.subrange(
                        0,
                        old(self)@.len() as int,
                    ));
                }
            }
            proof {
                assert(nodes@.subrange(0, i + 1) =~= nodes@.subrange(0, i as int).push(n));
                nodes@.subrange(0, i as int).lemma_push_to_set_commute(n);
                before.lemma_push_to_set_commute(n);
                if before.contains(n) {
                    assert(self@.to_set() =~= before.to_set().insert(n));
                }
                assert(nodes@.subrange(0, i + 1).to_set() =~= nodes@.subrange(0, i as int).to_set().insert(n));
            }
            i = i + 1;
        }
        assert(nodes@.subrange(0, nodes@.len() as int) =~= nodes@);
        assert(nodes@.take(nodes@.len() as int) =~= nodes@);
    }
}

/// An output that the ledger knows: output `index` of transaction `tx`.
#[derive(Clone, Copy)]
pub struct LedgerEntry {
    pub tx: TxHash,
    pub index: u8,
    pub output: Output,
}

/// The output that the first entry for (`tx`, `index`) records, if any.
pub open spec fn resolve(ledger: Seq<LedgerEntry>, tx: Seq<u8>, index: u8) -> Option<Output>
    decreases ledger.len(),
{
    if ledger.len() == 0 {
        None
    } else if ledger[0].tx@ == tx && ledger[0].index == index {
        Some(ledger[0].output)
    } else {
        resolve(ledger.drop_first(), tx, index)
    }
}

/// The outputs that the inputs refer to, as the ledger resolves them.
pub open spec fn resolved_inputs(ledger: Seq<LedgerEntry>, inputs: Seq<Input>) -> Seq<
    Option<Output>,
> {
    Seq::new(inputs.len(), |k: int| resolve(ledger, inputs[k].tx@, inputs[k].index))
}

/// Whether a shared transaction is kept: it is a valid spend of the outputs
/// that the ledger resolves for its inputs.
pub open spec fn tx_accepted(t: TransactionModel, ledger: Seq<LedgerEntry>) -> bool {
    spends_validly(t, resolved_inputs(ledger, t.inputs))
}

/// The shared transactions that are kept, in the order they came.
pub open spec fn forwarded(txs: Seq<TransactionModel>, ledger: Seq<LedgerEntry>) -> Seq<
    TransactionModel,
>
    decreases txs.len(),
{
    if txs.len() == 0 {
        Seq::empty()
    } else {
        let rest = forwarded(txs.drop_last(), ledger);
        if tx_accepted(txs.last(), ledger) {
            rest.push(txs.last())
        } else {
            rest
        }
    }
}

/// What the transactions hold.
pub open spec fn models(txs: Seq<Transaction>) -> Seq<TransactionModel> {
    txs.map_values(|t: Transaction| t@)
}

/// Looks up the output that the first entry for (`tx`, `index`) records.
pub fn resolve_output(ledger: &[LedgerEntry], tx: &TxHash, index: u8) -> (r: Option<Output>)
    ensures
        r == resolve(ledger@, tx@, index),
{
    let mut i: usize = 0;
    assert(ledger@.skip(0) =~= ledger@);
    while i < ledger.len()
        invariant
            i <= ledger@.len(),
            resolve(ledger@, tx@, index) == resolve(ledger@.skip(i as int), tx@, index),
        decreases ledger@.len() - i,
    {
        assert(ledger@.skip(i + 1) =~= ledger@.skip(i as int).drop_first());
        let e = ledger[i];
        if bytes32_equal(e.tx.as_bytes(), tx.as_bytes()) && e.index == index {
            return Some(e.output);
        }
        i = i + 1;
    }
    None
}

/// The outputs that the inputs refer to, as the ledger resolves them.
pub fn resolve_inputs(ledger: &[LedgerEntry], inputs: &[Input]) -> (r: Vec<Option<Output>>)
    ensures
        r@ == resolved_inputs(ledger@, inputs@),
{
    let mut r: Vec<Option<Output>> = Vec::new();
    let mut k: usize = 0;
    while k < inputs.len()
        invariant
            k <= inputs@.len(),
            r@ == resolved_inputs(ledger@, inputs@.take(k as int)),
        decreases inputs@.len() - k,
    {
        let o = resolve_output(ledger, &inputs[k].tx, inputs[k].index);
        r.push(o);
        assert(r@ =~= resolved_inputs(ledger@, inputs@.take(k + 1)));
        k = k + 1;
    }
    assert(inputs@.take(inputs@.len() as int) =~= inputs@);
    r
}

impl MsgShareTx {
    /// The shared transactions that are valid spends of the outputs the
    /// ledger resolves for their inputs, in the order they came; the others
    /// are dropped.
    pub fn forward(self, ledger: &[LedgerEntry]) -> (r: Vec<Transaction>)
        ensures
            models(r@) == forwarded(models(self.txs@), ledger@),
    {
        let mut txs = self.txs;
        let ghost all = models(txs@);
        let ghost mut k: int = 0;
        let mut out: Vec<Transaction> = Vec::new();
        while txs.len() > 0
            invariant
                0 <= k <= all.len(),
                models(txs@) == all.skip(k),
                models(out@) == forwarded(all.take(k), ledger@),
            decreases txs@.len(),
        {
            let ghost rest = txs@;
            let t = txs.remove(0);
            proof {
                assert(models(rest).len() == rest.len());
                assert(models(rest)[0] == rest[0]@);
                assert(all.skip(k)[0] == all[k]);
                assert(t@ == all[k]);
                assert(txs@ == rest.subrange(1, rest.len() as int));
                assert forall|j: int| 0 <= j < txs@.len() implies #[trigger] models(txs@)[j] == all.skip(k + 1)[j] by {
                    assert(models(rest)[j + 1] == rest[j + 1]@);
                    assert(all.skip(k)[j + 1] == all[k + 1 + j]);
                }
                assert(models(txs@) =~= all.skip(k + 1));
                assert(all.take(k + 1).drop_last() =~= all.take(k));
                assert(all.take(k + 1).last() == all[k]);
            }
            let prior = resolve_inputs(ledger, t.inputs());
            if t.is_valid(prior.as_slice()) {
                let ghost before = out@;
                out.push(t);
                assert(models(out@) =~= models(before).push(t@));
            }
            proof {
                k = k + 1;
            }
        }
        assert(all.take(k) =~= all);
        out
    }
}

/// A decoded message.
pub enum Message {
    Handshake(MsgHandshake),
    ShareTx(MsgShareTx),
}

/// Acts on a decoded message: a handshake's peers are merged into the peer
/// table; a share's transactions are validated against the ledger, and the
/// valid ones are returned, in order, to be passed on (the others are
/// dropped).
pub fn handle_message(msg: Message, peers: &mut PeerTable, ledger: &[LedgerEntry]) -> (r: Vec<
    Transaction,
>)
    requires
        old(peers).wf(),
    ensures
        final(peers).wf(),
        match msg {
            Message::Handshake(h) => final(peers)@ == merged(old(peers)@, h.nodes@) && r@.len() == 0,
            Message::ShareTx(s) => final(peers)@ == old(peers)@ && models(r@) == forwarded(
                models(s.txs@),
                ledger@,
            ),
        },
{
    match msg {
        Message::Handshake(h) => {
            peers.merge(h.nodes.as_slice());
            Vec::new()
        },
        Message::ShareTx(s) => s.forward(ledger),
    }
}

} // verus!
