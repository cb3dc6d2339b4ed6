//! The transaction model: fixed-size digests and keys, inputs and outputs, the
//! canonical byte encoding that a transaction hash covers, per-input signing
//! and validation.

use vstd::prelude::*;
use crate::base58::{base58_of, encode};
use crate::crypto::{
    ed25519_accepts, ed25519_public, ed25519_public_of, ed25519_sign, ed25519_signature_of,
    ed25519_verify, sha256, sha256_of,
};
use crate::endian::{be_u64, lemma_be_u64_injective, push_u64_be};

verus! {

/// Length of a SHA-256 digest, and so of an address and a transaction hash.
pub const HASH_LENGTH: usize = 32;

/// Length of an Ed25519 public key.
pub const PUBLIC_KEY_LENGTH: usize = 32;

/// Length of an Ed25519 secret key.
pub const SECRET_KEY_LENGTH: usize = 32;

/// Length of an Ed25519 signature.
pub const SIGNATURE_LENGTH: usize = 64;

/// Copies a slice of exactly `N` bytes into an array.
fn copy_array<const N: usize>(b: &[u8]) -> (r: [u8; N])
    requires
        b@.len() == N,
    ensures
        r@ == b@,
{
    let mut a = [0u8; N];
    let mut i: usize = 0;
    while i < N
        invariant
            i <= N,
            b@.len() == N,
            forall|k: int| 0 <= k < i ==> a@[k] == b@[k],
        decreases N - i,
    {
        a[i] = b[i];
        i = i + 1;
    }
    assert(a@ =~= b@);
    a
}

/// Whether two 32-byte strings are equal.
pub fn bytes32_equal(a: &[u8; 32], b: &[u8; 32]) -> (r: bool)
    ensures
        r == (a@ == b@),
{
    let mut i: usize = 0;
    while i < 32
        invariant
            i <= 32,
            forall|k: int| 0 <= k < i ==> a@[k] == b@[k],
        decreases 32 - i,
    {
        if a[i] != b[i] {
            return false;
        }
        i = i + 1;
    }
    assert(a@ =~= b@);
    true
}

/// Public-key hash: the SHA-256 digest of an Ed25519 public key.
#[derive(Clone, Copy, PartialEq, Eq, PartialOrd, Ord, Hash)]
pub struct Address([u8; HASH_LENGTH]);

impl View for Address {
    type V = Seq<u8>;

    closed spec fn view(&self) -> Seq<u8> {
        self.0@
    }
}

impl Address {
    /// The all-zero address.
    pub fn new() -> (r: Address)
        ensures
            r@ == Seq::new(32, |i: int| 0u8),
    {
        let r = Address([0u8; HASH_LENGTH]);
        assert(r@ =~= Seq::new(32, |i: int| 0u8));
        r
    }

    /// The Base58 text of the address.
    pub fn display(&self) -> (r: String)
        ensures
            r@ == base58_of(self@),
    {
        encode(self.0.as_slice())
    }

    /// The address with these 32 bytes.
    pub fn from_bytes(b: &[u8]) -> (r: Address)
        requires
            b@.len() == HASH_LENGTH,
        ensures
            r@ == b@,
    {
        Address(copy_array(b))
    }

    /// The bytes of the address, without copying.
    pub fn as_bytes(&self) -> (r: &[u8; HASH_LENGTH])
        ensures
            r@ == self@,
    {
        &self.0
    }
}

/// SHA-256 digest of a transaction's canonical encoding.
#[derive(Clone, Copy, PartialEq, Eq, PartialOrd, Ord, Hash)]
pub struct TxHash([u8; HASH_LENGTH]);

impl View for TxHash {
    type V = Seq<u8>;

    closed spec fn view(&self) -> Seq<u8> {
        self.0@
    }
}

impl TxHash {
    /// The all-zero hash.
    pub fn new() -> (r: TxHash)
        ensures
            r@ == Seq::new(32, |i: int| 0u8),
    {
        let r = TxHash([0u8; HASH_LENGTH]);
        assert(r@ =~= Seq::new(32, |i: int| 0u8));
        r
    }

    /// The Base58 text of the hash.
    pub fn display(&self) -> (r: String)
        ensures
            r@ == base58_of(self@),
    {
        encode(self.0.as_slice())
    }

    /// The hash with these 32 bytes.
    pub fn from_bytes(b: &[u8]) -> (r: TxHash)
        requires
            b@.len() == HASH_LENGTH,
        ensures
            r@ == b@,
    {
        TxHash(copy_array(b))
    }

    /// The hash with these bytes, or `None` when there are not exactly 32.
    pub fn try_from_bytes(b: &[u8]) -> (r: Option<TxHash>)
        ensures
            b@.len() == HASH_LENGTH <==> r is Some,
            r matches Some(h) ==> h@ == b@,
    {
        if b.len() == HASH_LENGTH {
            Some(TxHash::from_bytes(b))
        } else {
            None
        }
    }

    /// The bytes of the hash, without copying.
    pub fn as_bytes(&self) -> (r: &[u8; HASH_LENGTH])
        ensures
            r@ == self@,
    {
        &self.0
    }
}

/// An Ed25519 public key, as its 32 compressed bytes.
#[derive(Clone, Copy, PartialEq, Eq, Hash)]
pub struct PublicKey([u8; PUBLIC_KEY_LENGTH]);

impl View for PublicKey {
    type V = Seq<u8>;

    closed spec fn view(&self) -> Seq<u8> {
        self.0@
    }
}

impl PublicKey {
    /// The key with these 32 bytes.
    pub fn from_bytes(b: &[u8]) -> (r: PublicKey)
        requires
            b@.len() == PUBLIC_KEY_LENGTH,
        ensures
            r@ == b@,
    {
        PublicKey(copy_array(b))
    }

    /// The bytes of the key, without copying.
    pub fn as_bytes(&self) -> (r: &[u8; PUBLIC_KEY_LENGTH])
        ensures
            r@ == self@,
    {
        &self.0
    }

    /// The Base58 text of the key.
    pub fn display(&self) -> (r: String)
        ensures
            r@ == base58_of(self@),
    {
        encode(self.0.as_slice())
    }

    /// The address of the key: its SHA-256 digest.
    pub fn address(&self) -> (r: Address)
        ensures
            r@ == sha256_of(self@),
    {
        Address(sha256(self.0.as_slice()))
    }
}

/// An Ed25519 signature, as its 64 bytes.
#[derive(Clone, Copy, PartialEq, Eq, Hash)]
pub struct Signature([u8; SIGNATURE_LENGTH]);

impl View for Signature {
    type V = Seq<u8>;

    closed spec fn view(&self) -> Seq<u8> {
        self.0@
    }
}

impl Signature {
    /// The all-zero placeholder that an input holds before it is signed.
    pub fn new() -> (r: Signature)
        ensures
            r@ == Seq::new(64, |i: int| 0u8),
    {
        let r = Signature([0u8; SIGNATURE_LENGTH]);
        assert(r@ =~= Seq::new(64, |i: int| 0u8));
        r
    }

    /// The signature with these 64 bytes.
    pub fn from_bytes(b: &[u8]) -> (r: Signature)
        requires
            b@.len() == SIGNATURE_LENGTH,
        ensures
            r@ == b@,
    {
        Signature(copy_array(b))
    }

    /// The bytes of the signature, without copying.
    pub fn as_bytes(&self) -> (r: &[u8; SIGNATURE_LENGTH])
        ensures
            r@ == self@,
    {
        &self.0
    }
}

/// An Ed25519 key pair; the public half always belongs to the secret half.
#[derive(Clone, Copy)]
pub struct Keypair {
    secret: [u8; SECRET_KEY_LENGTH],
    public: PublicKey,
}

impl Keypair {
    /// The secret key's bytes.
    pub closed spec fn secret_key(&self) -> Seq<u8> {
        self.secret@
    }

    /// The public key's bytes.
    pub closed spec fn public_key(&self) -> Seq<u8> {
        self.public@
    }

    #[verifier::type_invariant]
    spec fn halves_match(&self) -> bool {
        self.public@ == ed25519_public_of(self.secret@)
    }

    /// The key pair of a 32-byte secret key.
    pub fn from_secret(secret: [u8; SECRET_KEY_LENGTH]) -> (r: Keypair)
        ensures
            r.secret_key() == secret@,
            r.public_key() == ed25519_public_of(secret@),
    {
        Keypair { secret, public: PublicKey(ed25519_public(&secret)) }
    }

    /// The public half.
    pub fn public(&self) -> (r: PublicKey)
        ensures
            r@ == self.public_key(),
            r@ == ed25519_public_of(self.secret_key()),
    {
        proof {
            use_type_invariant(self);
        }
        self.public
    }

    /// The secret half's bytes.
    pub fn secret_bytes(&self) -> (r: [u8; SECRET_KEY_LENGTH])
        ensures
            r@ == self.secret_key(),
    {
        self.secret
    }
}

/// A transaction output: an amount of currency units and who receives it.
#[derive(Clone, Copy, PartialEq, Eq)]
pub struct Output {
    /// Amount of currency units to send.
    pub amount: u64,
    /// Destination address.
    pub creditor: Address,
}

/// A transaction input: the output `index` of the earlier transaction `tx`,
/// with the signature that unlocks it.
#[derive(Clone, Copy, PartialEq, Eq)]
pub struct Input {
    /// Hash of the referenced transaction.
    pub tx: TxHash,
    /// Index of the referenced output in that transaction.
    pub index: u8,
    /// Unlocking signature.
    pub signature: Signature,
}

/// A block: the hash of the previous block, the nonce that was found for it
/// and the signature over them.
pub struct Block {
    prev_hash: TxHash,
    nonce: u64,
    signature: Signature,
}

/// The bytes that an input adds to a transaction's encoding: the referenced
/// hash and the output index (the signature cannot sign itself).
pub open spec fn input_bytes(i: Input) -> Seq<u8> {
    i.tx@ + seq![i.index]
}

/// The bytes that an output adds: the amount (8 bytes, big-endian), then the
/// creditor's address.
pub open spec fn output_bytes(o: Output) -> Seq<u8> {
    be_u64(o.amount) + o.creditor@
}

/// The encodings of the inputs, in order.
pub open spec fn inputs_bytes(s: Seq<Input>) -> Seq<u8>
    decreases s.len(),
{
    if s.len() == 0 {
        Seq::empty()
    } else {
        inputs_bytes(s.drop_last()) + input_bytes(s.last())
    }
}

/// The encodings of the outputs, in order.
pub open spec fn outputs_bytes(s: Seq<Output>) -> Seq<u8>
    decreases s.len(),
{
    if s.len() == 0 {
        Seq::empty()
    } else {
        outputs_bytes(s.drop_last()) + output_bytes(s.last())
    }
}

/// The canonical encoding of a transaction: the debtor's key, then each input,
/// then each output, with no length or type tags.
pub open spec fn tx_bytes(debtor: Seq<u8>, inputs: Seq<Input>, outputs: Seq<Output>) -> Seq<u8> {
    debtor + inputs_bytes(inputs) + outputs_bytes(outputs)
}

/// The encoding of the simplified transaction that signs one input: the
/// signer's key, that input alone, and all the outputs.
pub open spec fn signing_bytes(debtor: Seq<u8>, input: Input, outputs: Seq<Output>) -> Seq<u8> {
    tx_bytes(debtor, seq![input], outputs)
}

/// Whether the input's signature is valid under `debtor` for the digest of
/// its simplified transaction.
pub open spec fn input_signed_by(debtor: Seq<u8>, input: Input, outputs: Seq<Output>) -> bool {
    ed25519_accepts(debtor, sha256_of(signing_bytes(debtor, input, outputs)), input.signature@)
}

/// The sum of the output amounts.
pub open spec fn total_amount(s: Seq<Output>) -> int
    decreases s.len(),
{
    if s.len() == 0 {
        0
    } else {
        total_amount(s.drop_last()) + s.last().amount
    }
}

/// The sum of the amounts of the resolved outputs (an unresolved one counts
/// as zero).
pub open spec fn resolved_total(p: Seq<Option<Output>>) -> int
    decreases p.len(),
{
    if p.len() == 0 {
        0
    } else {
        resolved_total(p.drop_last()) + match p.last() {
            Some(o) => o.amount as int,
            None => 0,
        }
    }
}

/// Whether the resolved outputs `prior` all exist and belong to `owner`, and
/// hold at least as much as `outputs` spend.
pub open spec fn funds_cover(prior: Seq<Option<Output>>, owner: Seq<u8>, outputs: Seq<Output>) -> bool {
    &&& forall|k: int|
        0 <= k < prior.len() ==> (#[trigger] prior[k]) is Some && prior[k]->Some_0.creditor@ == owner
    &&& total_amount(outputs) <= resolved_total(prior)
}

/// Checks that the resolved outputs `prior` all exist and belong to `owner`,
/// and hold at least as much as `outputs` spend (the difference is the fee).
pub fn funds_cover_outputs(prior: &[Option<Output>], owner: &Address, outputs: &[Output]) -> (r:
    bool)
    ensures
        r == funds_cover(prior@, owner@, outputs@),
{
    let mut in_total: u128 = 0;
    let mut k: usize = 0;
    while k < prior.len()
        invariant
            k <= prior@.len(),
            in_total == resolved_total(prior@.take(k as int)),
            in_total <= k * 0xffff_ffff_ffff_ffffu128,
            forall|j: int|
                0 <= j < k ==> (#[trigger] prior@[j]) is Some && prior@[j]->Some_0.creditor@
                    == owner@,
        decreases prior@.len() - k,
    {
        proof {
            assert(prior@.take(k + 1).drop_last() =~= prior@.take(k as int));
        }
        match prior[k] {
            Some(o) => {
                if !bytes32_equal(o.creditor.as_bytes(), owner.as_bytes()) {
                    return false;
                }
                in_total = in_total + o.amount as u128;
            },
            None => {
                return false;
            },
        }
        k = k + 1;
    }
    assert(prior@.take(prior@.len() as int) =~= prior@);
    let mut out_total: u128 = 0;
    let mut j: usize = 0;
    while j < outputs.len()
        invariant
            j <= outputs@.len(),
            out_total == total_amount(outputs@.take(j as int)),
            out_total <= j * 0xffff_ffff_ffff_ffffu128,
        decreases outputs@.len() - j,
    {
        proof {
            assert(outputs@.take(j + 1).drop_last() =~= outputs@.take(j as int));
        }
        out_total = out_total + outputs[j].amount as u128;
        j = j + 1;
    }
    assert(outputs@.take(outputs@.len() as int) =~= outputs@);
    out_total <= in_total
}

/// Whether a transaction is a valid spend of the resolved outputs `prior`
/// that its inputs refer to.
pub open spec fn spends_validly(t: TransactionModel, prior: Seq<Option<Output>>) -> bool {
    &&& t.inputs.len() > 0
    &&& t.outputs.len() > 0
    &&& prior.len() == t.inputs.len()
    &&& funds_cover(prior, sha256_of(t.debtor), t.outputs)
    &&& forall|k: int|
        0 <= k < t.inputs.len() ==> input_signed_by(t.debtor, #[trigger] t.inputs[k], t.outputs)
}

/// What a transaction holds, for contracts.
pub struct TransactionModel {
    pub debtor: Seq<u8>,
    pub inputs: Seq<Input>,
    pub outputs: Seq<Output>,
}

/// A value transfer from the debtor's earlier outputs to new outputs. The
/// order of inputs and of outputs is part of what the hash covers.
pub struct Transaction {
    debtor: PublicKey,
    inputs: Vec<Input>,
    outputs: Vec<Output>,
}

impl View for Transaction {
    type V = TransactionModel;

    closed spec fn view(&self) -> TransactionModel {
        TransactionModel { debtor: self.debtor@, inputs: self.inputs@, outputs: self.outputs@ }
    }
}

/// Appends the canonical encoding of the parts of a transaction.
fn encode_parts(debtor: &PublicKey, inputs: &[Input], outputs: &[Output]) -> (r: Vec<u8>)
    ensures
        r@ == tx_bytes(debtor@, inputs@, outputs@),
{
    let mut out: Vec<u8> = Vec::new();
    out.extend_from_slice(debtor.as_bytes().as_slice());
    assert(out@ =~= debtor@);
    let mut i: usize = 0;
    while i < inputs.len()
        invariant
            i <= inputs@.len(),
            out@ == debtor@ + inputs_bytes(inputs@.take(i as int)),
        decreases inputs@.len() - i,
    {
        let inp = inputs[i];
        out.extend_from_slice(inp.tx.as_bytes().as_slice());
        out.push(inp.index);
        proof {
            let s = inputs@.take(i + 1);
            assert(s.drop_last() =~= inputs@.take(i as int));
            assert(s.last() == inp);
        }
        assert(out@ =~= debtor@ + inputs_bytes(inputs@.take(i + 1)));
        i = i + 1;
    }
    assert(inputs@.take(inputs@.len() as int) =~= inputs@);
    let mut j: usize = 0;
    while j < outputs.len()
        invariant
            j <= outputs@.len(),
            inputs@.take(inputs@.len() as int) == inputs@,
            out@ == debtor@ + inputs_bytes(inputs@) + outputs_bytes(outputs@.take(j as int)),
        decreases outputs@.len() - j,
    {
        let outp = outputs[j];
        push_u64_be(&mut out, outp.amount);
        out.extend_from_slice(outp.creditor.as_bytes().as_slice());
        proof {
            let s = outputs@.take(j + 1);
            assert(s.drop_last() =~= outputs@.take(j as int));
            assert(s.last() == outp);
        }
        assert(out@ =~= debtor@ + inputs_bytes(inputs@) + outputs_bytes(outputs@.take(j + 1)));
        j = j + 1;
    }
    assert(outputs@.take(outputs@.len() as int) =~= outputs@);
    out
}

impl Transaction {
    /// An empty transaction of the debtor with this public key.
    pub fn new(pubk: PublicKey) -> (r: Transaction)
        ensures
            r@.debtor == pubk@,
            r@.inputs == Seq::<Input>::empty(),
            r@.outputs == Seq::<Output>::empty(),
    {
        Transaction { debtor: pubk, inputs: Vec::new(), outputs: Vec::new() }
    }

    /// A transaction made of these parts.
    pub fn from_parts(debtor: PublicKey, inputs: Vec<Input>, outputs: Vec<Output>) -> (r:
        Transaction)
        ensures
            r@.debtor == debtor@,
            r@.inputs == inputs@,
            r@.outputs == outputs@,
    {
        Transaction { debtor, inputs, outputs }
    }

    /// The debtor's public key.
    pub fn debtor(&self) -> (r: PublicKey)
        ensures
            r@ == self@.debtor,
    {
        self.debtor
    }

    /// The inputs, in order.
    pub fn inputs(&self) -> (r: &[Input])
        ensures
            r@ == self@.inputs,
    {
        self.inputs.as_slice()
    }

    /// The outputs, in order.
    pub fn outputs(&self) -> (r: &[Output])
        ensures
            r@ == self@.outputs,
    {
        self.outputs.as_slice()
    }

    /// Appends an input.
    pub fn add_input(&mut self, input: Input)
        ensures
            final(self)@.debtor == old(self)@.debtor,
            final(self)@.inputs == old(self)@.inputs.push(input),
            final(self)@.outputs == old(self)@.outputs,
    {
        self.inputs.push(input);
    }

    /// Appends an output.
    pub fn add_output(&mut self, output: Output)
        ensures
            final(self)@.debtor == old(self)@.debtor,
            final(self)@.inputs == old(self)@.inputs,
            final(self)@.outputs == old(self)@.outputs.push(output),
    {
        self.outputs.push(output);
    }

    /// The canonical byte encoding that the hash covers.
    pub fn canonical_bytes(&self) -> (r: Vec<u8>)
        ensures
            r@ == tx_bytes(self@.debtor, self@.inputs, self@.outputs),
    {
        encode_parts(&self.debtor, self.inputs.as_slice(), self.outputs.as_slice())
    }

    /// The SHA-256 digest of the canonical encoding.
    pub fn hash(&self) -> (r: TxHash)
        ensures
            r@ == sha256_of(tx_bytes(self@.debtor, self@.inputs, self@.outputs)),
    {
        let bytes = self.canonical_bytes();
        TxHash(sha256(bytes.as_slice()))
    }

    /// Signs every input, each over the digest of its simplified transaction
    /// (the key pair's public key, that input alone, all the outputs).
    pub fn sign(&mut self, kp: Keypair)
        ensures
            final(self)@.debtor == old(self)@.debtor,
            final(self)@.outputs == old(self)@.outputs,
            final(self)@.inputs.len() == old(self)@.inputs.len(),
            forall|k: int|
                0 <= k < old(self)@.inputs.len() ==> {
                    let before = #[trigger] old(self)@.inputs[k];
                    let after = final(self)@.inputs[k];
                    &&& after.tx == before.tx
                    &&& after.index == before.index
                    &&& after.signature@ == ed25519_signature_of(
                        kp.secret_key(),
                        sha256_of(signing_bytes(kp.public_key(), before, old(self)@.outputs)),
                    )
                    &&& input_signed_by(kp.public_key(), after, old(self)@.outputs)
                },
            old(self)@.debtor == kp.public_key() ==> forall|k: int|
                0 <= k < final(self)@.inputs.len() ==> input_signed_by(
                    final(self)@.debtor,
                    #[trigger] final(self)@.inputs[k],
                    final(self)@.outputs,
                ),
    {
        let public = kp.public();
        let secret = kp.secret_bytes();
        let mut i: usize = 0;
        while i < self.inputs.len()
            invariant
                i <= self@.inputs.len(),
                public@ == kp.public_key(),
                public@ == ed25519_public_of(secret@),
                secret@ == kp.secret_key(),
                self@.debtor == old(self)@.debtor,
                self@.outputs == old(self)@.outputs,
                self@.inputs.len() == old(self)@.inputs.len(),
                forall|k: int| i <= k < self@.inputs.len() ==> self@.inputs[k] == old(self)@.inputs[k],
                forall|k: int|
                    0 <= k < i ==> {
                        let before = #[trigger] old(self)@.inputs[k];
                        let after = self@.inputs[k];
                        &&& after.tx == before.tx
                        &&& after.index == before.index
                        &&& after.signature@ == ed25519_signature_of(
                            kp.secret_key(),
                            sha256_of(signing_bytes(kp.public_key(), before, old(self)@.outputs)),
                        )
                        &&& input_signed_by(kp.public_key(), after, old(self)@.outputs)
                    },
            decreases self@.inputs.len() - i,
        {
            let input = self.inputs[i];
            let single = vec![input];
            let msg = encode_parts(&public, single.as_slice(), self.outputs.as_slice());
            let digest = sha256(msg.as_slice());
            let sig = ed25519_sign(&secret, digest.as_slice());
            let signed = Input { tx: input.tx, index: input.index, signature: Signature(sig) };
            proof {
                assert(single@ =~= seq![input]);
                assert(input_bytes(signed) == input_bytes(input));
                assert(seq![signed].drop_last() =~= seq![input].drop_last());
                assert(signing_bytes(public@, signed, self@.outputs) == signing_bytes(
                    public@,
                    input,
                    self@.outputs,
                ));
            }
            self.inputs.set(i, signed);
            i = i + 1;
        }
        assert(old(self)@.debtor == kp.public_key() ==> forall|k: int|
            0 <= k < self@.inputs.len() ==> input_signed_by(
                self@.debtor,
                #[trigger] self@.inputs[k],
                self@.outputs,
            )) by {
            if old(self)@.debtor == kp.public_key() {
                assert forall|k: int| 0 <= k < self@.inputs.len() implies input_signed_by(
                    self@.debtor,
                    #[trigger] self@.inputs[k],
                    self@.outputs,
                ) by {
                    let _ = old(self)@.inputs[k];
                }
            }
        }
    }

    /// Whether input `i` exists and its signature is valid under the debtor's
    /// key for its simplified transaction.
    pub fn verify_input(&self, i: usize) -> (r: bool)
        ensures
            r == (i < self@.inputs.len() && input_signed_by(
                self@.debtor,
                self@.inputs[i as int],
                self@.outputs,
            )),
    {
        if i >= self.inputs.len() {
            return false;
        }
        let input = self.inputs[i];
        let single = vec![input];
        assert(single@ =~= seq![input]);
        let msg = encode_parts(&self.debtor, single.as_slice(), self.outputs.as_slice());
        let digest = sha256(msg.as_slice());
        ed25519_verify(self.debtor.as_bytes(), digest.as_slice(), input.signature.as_bytes())
    }

    /// Whether the transaction is valid, checked against the outputs that the
    /// inputs refer to, as a ledger resolved them (`prior[k]` for input `k`,
    /// `None` where unknown): it has inputs and outputs, every referenced
    /// output exists and belongs to the debtor's address, the outputs spend no
    /// more than the referenced amounts (the rest is the fee), and every
    /// input's signature is valid under the key that owns its output.
    pub fn is_valid(&self, prior: &[Option<Output>]) -> (r: bool)
        ensures
            r == spends_validly(self@, prior@),
    {
        if !self.has_inputs_and_outputs() || prior.len() != self.inputs.len() {
            return false;
        }
        let owner = self.debtor.address();
        if !funds_cover_outputs(prior, &owner, self.outputs.as_slice()) {
            return false;
        }
        let mut i: usize = 0;
        while i < self.inputs.len()
            invariant
                i <= self@.inputs.len(),
                forall|m: int|
                    0 <= m < i ==> input_signed_by(
                        self@.debtor,
                        #[trigger] self@.inputs[m],
                        self@.outputs,
                    ),
            decreases self@.inputs.len() - i,
        {
            if !self.verify_input(i) {
                return false;
            }
            i = i + 1;
        }
        true
    }

    /// Structural validity: at least one input and at least one output.
    pub fn has_inputs_and_outputs(&self) -> (r: bool)
        ensures
            r == (self@.inputs.len() > 0 && self@.outputs.len() > 0),
    {
        !(self.inputs.is_empty() || self.outputs.is_empty())
    }
}

/// An address has 32 bytes, and equal bytes make equal addresses.
pub proof fn lemma_address_bytes(a: Address, b: Address)
    ensures
        a@.len() == HASH_LENGTH,
        a@ == b@ ==> a == b,
{
    if a@ == b@ {
        assert forall|i: int| 0 <= i < 32 implies a.0[i] == b.0[i] by {
            assert(a.0@[i] == b.0@[i]);
        }
        assert(a.0 =~= b.0);
    }
}

/// An output is encoded in 40 bytes, from which it can be read back.
proof fn lemma_output_bytes_injective(a: Output, b: Output)
    ensures
        output_bytes(a).len() == 40,
        output_bytes(a) == output_bytes(b) ==> a == b,
{
    lemma_address_bytes(a.creditor, b.creditor);
    lemma_address_bytes(b.creditor, a.creditor);
    if output_bytes(a) == output_bytes(b) {
        assert(output_bytes(a).subrange(0, 8) =~= be_u64(a.amount));
        assert(output_bytes(b).subrange(0, 8) =~= be_u64(b.amount));
        lemma_be_u64_injective(a.amount, b.amount);
        assert(output_bytes(a).subrange(8, 40) =~= a.creditor@);
        assert(output_bytes(b).subrange(8, 40) =~= b.creditor@);
    }
}

/// The outputs' encoding gives 40 bytes to each output, in order.
proof fn lemma_outputs_layout(s: Seq<Output>)
    ensures
        outputs_bytes(s).len() == 40 * s.len(),
        forall|k: int|
            0 <= k < s.len() ==> outputs_bytes(s).subrange(40 * k, 40 * k + 40) == output_bytes(
                #[trigger] s[k],
            ),
    decreases s.len(),
{
    if s.len() > 0 {
        let p = s.drop_last();
        lemma_outputs_layout(p);
        lemma_output_bytes_injective(s.last(), s.last());
        let whole = outputs_bytes(s);
        assert(whole == outputs_bytes(p) + output_bytes(s.last()));
        assert forall|k: int| 0 <= k < s.len() implies whole.subrange(40 * k, 40 * k + 40)
            == output_bytes(#[trigger] s[k]) by {
            if k < s.len() - 1 {
                assert(p[k] == s[k]);
                assert(whole.subrange(40 * k, 40 * k + 40) =~= outputs_bytes(p).subrange(
                    40 * k,
                    40 * k + 40,
                ));
            } else {
                assert(whole.subrange(40 * k, 40 * k + 40) =~= output_bytes(s.last()));
            }
        }
    }
}

/// With the debtor and the inputs fixed, equal encodings of equally many
/// outputs mean equal outputs.
proof fn lemma_tx_bytes_outputs_injective(
    debtor: Seq<u8>,
    inputs: Seq<Input>,
    a: Seq<Output>,
    b: Seq<Output>,
)
    requires
        a.len() == b.len(),
        tx_bytes(debtor, inputs, a) == tx_bytes(debtor, inputs, b),
    ensures
        a == b,
{
    let pre = debtor + inputs_bytes(inputs);
    lemma_outputs_layout(a);
    lemma_outputs_layout(b);
    let ta = tx_bytes(debtor, inputs, a);
    let tb = tx_bytes(debtor, inputs, b);
    assert(ta.subrange(pre.len() as int, ta.len() as int) =~= outputs_bytes(a));
    assert(tb.subrange(pre.len() as int, tb.len() as int) =~= outputs_bytes(b));
    assert forall|k: int| 0 <= k < a.len() implies a[k] == b[k] by {
        let _ = output_bytes(a[k]);
        let _ = output_bytes(b[k]);
        lemma_output_bytes_injective(a[k], b[k]);
    }
    assert(a =~= b);
}

/// A transaction hash has 32 bytes, and equal bytes make equal hashes.
pub proof fn lemma_tx_hash_bytes(a: TxHash, b: TxHash)
    ensures
        a@.len() == HASH_LENGTH,
        a@ == b@ ==> a == b,
{
    if a@ == b@ {
        assert forall|i: int| 0 <= i < 32 implies a.0[i] == b.0[i] by {
            assert(a.0@[i] == b.0@[i]);
        }
        assert(a.0 =~= b.0);
    }
}

/// The inputs' encoding gives 33 bytes to each input, in order.
proof fn lemma_inputs_layout(s: Seq<Input>)
    ensures
        inputs_bytes(s).len() == 33 * s.len(),
        forall|k: int|
            0 <= k < s.len() ==> inputs_bytes(s).subrange(33 * k, 33 * k + 33) == input_bytes(
                #[trigger] s[k],
            ),
    decreases s.len(),
{
    if s.len() > 0 {
        let p = s.drop_last();
        lemma_inputs_layout(p);
        lemma_tx_hash_bytes(s.last().tx, s.last().tx);
        let whole = inputs_bytes(s);
        assert(whole == inputs_bytes(p) + input_bytes(s.last()));
        assert forall|k: int| 0 <= k < s.len() implies whole.subrange(33 * k, 33 * k + 33)
            == input_bytes(#[trigger] s[k]) by {
            if k < s.len() - 1 {
                assert(p[k] == s[k]);
                assert(whole.subrange(33 * k, 33 * k + 33) =~= inputs_bytes(p).subrange(
                    33 * k,
                    33 * k + 33,
                ));
            } else {
                assert(whole.subrange(33 * k, 33 * k + 33) =~= input_bytes(s.last()));
            }
        }
    }
}

/// Every hashed field shows in the encoding: two transactions with 32-byte
/// debtor keys and the same numbers of inputs and of outputs have the same
/// canonical encoding only when they have the same debtor key, the same
/// referenced hash and index in each input, and the same outputs. So a change
/// of any of these changes the bytes that the hash covers.
pub proof fn lemma_encoding_determines_fields(a: TransactionModel, b: TransactionModel)
    requires
        a.debtor.len() == PUBLIC_KEY_LENGTH,
        b.debtor.len() == PUBLIC_KEY_LENGTH,
        a.inputs.len() == b.inputs.len(),
        a.outputs.len() == b.outputs.len(),
        tx_bytes(a.debtor, a.inputs, a.outputs) == tx_bytes(b.debtor, b.inputs, b.outputs),
    ensures
        a.debtor == b.debtor,
        forall|k: int|
            0 <= k < a.inputs.len() ==> (#[trigger] a.inputs[k]).tx == b.inputs[k].tx
                && a.inputs[k].index == b.inputs[k].index,
        a.outputs == b.outputs,
{
    let ta = tx_bytes(a.debtor, a.inputs, a.outputs);
    let tb = tx_bytes(b.debtor, b.inputs, b.outputs);
    lemma_inputs_layout(a.inputs);
    lemma_inputs_layout(b.inputs);
    lemma_outputs_layout(a.outputs);
    lemma_outputs_layout(b.outputs);
    let n: int = 32 + 33 * a.inputs.len() as int;
    assert(ta.subrange(0, 32) =~= a.debtor);
    assert(tb.subrange(0, 32) =~= b.debtor);
    assert(ta.subrange(32, n) =~= inputs_bytes(a.inputs));
    assert(tb.subrange(32, n) =~= inputs_bytes(b.inputs));
    assert forall|k: int| 0 <= k < a.inputs.len() implies (#[trigger] a.inputs[k]).tx
        == b.inputs[k].tx && a.inputs[k].index == b.inputs[k].index by {
        let ia = input_bytes(a.inputs[k]);
        let ib = input_bytes(b.inputs[k]);
        assert(inputs_bytes(a.inputs).subrange(33 * k, 33 * k + 33) =~= ta.subrange(
            32 + 33 * k,
            32 + 33 * k + 33,
        ));
        assert(inputs_bytes(b.inputs).subrange(33 * k, 33 * k + 33) =~= tb.subrange(
            32 + 33 * k,
            32 + 33 * k + 33,
        ));
        lemma_tx_hash_bytes(a.inputs[k].tx, b.inputs[k].tx);
        lemma_tx_hash_bytes(b.inputs[k].tx, a.inputs[k].tx);
        assert(ia.subrange(0, 32) =~= a.inputs[k].tx@);
        assert(ib.subrange(0, 32) =~= b.inputs[k].tx@);
        assert(ia[32] == a.inputs[k].index);
        assert(ib[32] == b.inputs[k].index);
    }
    assert(tx_bytes(b.debtor, b.inputs, b.outputs) =~= a.debtor + inputs_bytes(a.inputs)
        + outputs_bytes(b.outputs)) by {
        assert(ta.subrange(0, n) =~= a.debtor + inputs_bytes(a.inputs));
        assert(tb.subrange(0, n) =~= b.debtor + inputs_bytes(b.inputs));
        assert(tb.subrange(n, tb.len() as int) =~= outputs_bytes(b.outputs));
    }
    lemma_tx_bytes_outputs_injective(a.debtor, a.inputs, a.outputs, b.outputs);
}

/// Hashing is deterministic: a transaction's hash is the digest of its
/// canonical encoding alone, so two transactions (or one transaction encoded
/// twice) with the same canonical bytes have the same hash.
pub proof fn lemma_hash_deterministic(a: TransactionModel, b: TransactionModel)
    requires
        tx_bytes(a.debtor, a.inputs, a.outputs) == tx_bytes(b.debtor, b.inputs, b.outputs),
    ensures
        sha256_of(tx_bytes(a.debtor, a.inputs, a.outputs)) == sha256_of(
            tx_bytes(b.debtor, b.inputs, b.outputs),
        ),
{
}

/// The order of outputs matters: reordering the outputs by any permutation
/// that changes the list (any permutation but the identity, when the outputs
/// are pairwise distinct) changes the canonical encoding that the hash
/// covers.
pub proof fn lemma_output_order_changes_encoding(
    debtor: Seq<u8>,
    inputs: Seq<Input>,
    outputs: Seq<Output>,
    perm: Seq<int>,
)
    requires
        perm.len() == outputs.len(),
        forall|i: int| 0 <= i < perm.len() ==> 0 <= #[trigger] perm[i] < outputs.len(),
        forall|i: int, j: int| 0 <= i < j < perm.len() ==> perm[i] != perm[j],
        Seq::new(outputs.len(), |i: int| outputs[perm[i]]) != outputs,
    ensures
        tx_bytes(debtor, inputs, Seq::new(outputs.len(), |i: int| outputs[perm[i]])) != tx_bytes(
            debtor,
            inputs,
            outputs,
        ),
{
    let permuted = Seq::new(outputs.len(), |i: int| outputs[perm[i]]);
    if tx_bytes(debtor, inputs, permuted) == tx_bytes(debtor, inputs, outputs) {
        lemma_tx_bytes_outputs_injective(debtor, inputs, permuted, outputs);
    }
}

/// Reordering pairwise distinct outputs by a permutation other than the
/// identity changes the list.
pub proof fn lemma_distinct_outputs_permuted_differ(outputs: Seq<Output>, perm: Seq<int>)
    requires
        perm.len() == outputs.len(),
        forall|i: int| 0 <= i < perm.len() ==> 0 <= #[trigger] perm[i] < outputs.len(),
        exists|i: int| 0 <= i < perm.len() && #[trigger] perm[i] != i,
        forall|i: int, j: int| 0 <= i < j < outputs.len() ==> outputs[i] != outputs[j],
    ensures
        Seq::new(outputs.len(), |i: int| outputs[perm[i]]) != outputs,
{
    let permuted = Seq::new(outputs.len(), |i: int| outputs[perm[i]]);
    let i0 = choose|i: int| 0 <= i < perm.len() && #[trigger] perm[i] != i;
    let j0 = perm[i0];
    if j0 < i0 {
        assert(outputs[j0] != outputs[i0]);
    } else {
        assert(outputs[i0] != outputs[j0]);
    }
    assert(permuted[i0] != outputs[i0]);
}

/// Signatures do not carry over to edited outputs: changing the amount of
/// any output changes, for every input, the bytes of the simplified
/// transaction that the input's signature was made over.
pub proof fn lemma_amount_change_alters_signed_bytes(
    debtor: Seq<u8>,
    input: Input,
    outputs: Seq<Output>,
    k: int,
    amount: u64,
)
    requires
        0 <= k < outputs.len(),
        amount != outputs[k].amount,
    ensures
        signing_bytes(
            debtor,
            input,
            outputs.update(k, Output { amount, creditor: outputs[k].creditor }),
        ) != signing_bytes(debtor, input, outputs),
{
    let edited = outputs.update(k, Output { amount, creditor: outputs[k].creditor });
    assert(edited[k] != outputs[k]);
    if signing_bytes(debtor, input, edited) == signing_bytes(debtor, input, outputs) {
        lemma_tx_bytes_outputs_injective(debtor, seq![input], edited, outputs);
    }
}

} // verus!
