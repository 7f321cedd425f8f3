use vstd::prelude::*;
use crate::chain::ChainId;

verus! {

/// Metadata that the proof engine attaches to a proof, carried as the bytes
/// the engine encoded it to; this library neither inspects nor validates it.
#[derive(Clone, Debug)]
pub struct ProofMetadata {
    pub encoded: Vec<u8>,
}

/// A zero-knowledge proof with its metadata.
#[derive(Clone, Debug)]
pub struct Proof {
    /// The actual proof bytes
    pub data: Vec<u8>,
    /// Metadata about the proof
    pub metadata: ProofMetadata,
}

/// The canonical cross-chain message.
///
/// Includes all data necessary for verification and replay protection.
#[derive(Clone, Debug)]
pub struct FrostMessage {
    /// Unique message id: a version-4 UUID as its 128-bit big-endian value.
    pub id: u128,
    /// Source chain identifier.
    pub from_chain: ChainId,
    /// Destination chain identifier.
    pub to_chain: ChainId,
    /// Arbitrary application payload.
    pub payload: Vec<u8>,
    /// Zero-knowledge proof attached to the message (optional for some flows).
    pub proof: Option<Proof>,
    /// Unix timestamp (seconds) for message creation.
    pub timestamp: u64,
    /// Per-sender nonce for replay protection.
    pub nonce: u64,
    /// Optional signature by a relayer or operator.
    pub signature: Option<Vec<u8>>,
    /// Optional fee, in the smallest unit of the source chain's currency.
    pub fee: Option<u128>,
    /// Optional annotations: key/value pairs with distinct keys.
    pub metadata: Option<Vec<(String, String)>>,
}

/// Lifecycle state of a message, assigned by the relay pipeline.
#[derive(Clone, Debug, PartialEq, Eq)]
pub enum MessageStatus {
    /// Message is pending processing
    Pending,
    /// Message is being processed
    InFlight,
    /// Message has been confirmed
    Confirmed,
    /// Message processing failed with error
    Failed(String),
}

/// Transaction hash or equivalent; its length depends on the chain.
pub type TxHash = Vec<u8>;

/// An observation of a message on its source chain.
#[derive(Clone, Debug)]
pub struct MessageEvent {
    /// The message associated with this event
    pub message: FrostMessage,
    /// Optional transaction hash if available
    pub tx_hash: Option<TxHash>,
    /// Optional block number where the event was emitted
    pub block_number: Option<u64>,
}

/// Abstract value of a `Proof`.
pub struct ProofModel {
    pub data: Seq<u8>,
    pub metadata: Seq<u8>,
}

/// Abstract value of a `FrostMessage`.
pub struct MessageModel {
    pub id: u128,
    pub from_chain: ChainId,
    pub to_chain: ChainId,
    pub payload: Seq<u8>,
    pub proof: Option<ProofModel>,
    pub timestamp: u64,
    pub nonce: u64,
    pub signature: Option<Seq<u8>>,
    pub fee: Option<u128>,
    pub metadata: Option<Seq<(Seq<char>, Seq<char>)>>,
}

/// Abstract value of a `MessageEvent`.
pub struct EventModel {
    pub message: MessageModel,
    pub tx_hash: Option<Seq<u8>>,
    pub block_number: Option<u64>,
}

pub open spec fn opt_bytes_view(o: Option<Vec<u8>>) -> Option<Seq<u8>> {
    match o {
        Some(v) => Some(v@),
        None => None,
    }
}

pub open spec fn pairs_view(v: Seq<(String, String)>) -> Seq<(Seq<char>, Seq<char>)> {
    v.map_values(|p: (String, String)| (p.0@, p.1@))
}

impl View for Proof {
    type V = ProofModel;

    open spec fn view(&self) -> ProofModel {
        ProofModel { data: self.data@, metadata: self.metadata.encoded@ }
    }
}

impl View for FrostMessage {
    type V = MessageModel;

    open spec fn view(&self) -> MessageModel {
        MessageModel {
            id: self.id,
            from_chain: self.from_chain,
            to_chain: self.to_chain,
            payload: self.payload@,
            proof: match self.proof {
                Some(p) => Some(p@),
                None => None,
            },
            timestamp: self.timestamp,
            nonce: self.nonce,
            signature: opt_bytes_view(self.signature),
            fee: self.fee,
            metadata: match self.metadata {
                Some(v) => Some(pairs_view(v@)),
                None => None,
            },
        }
    }
}

impl View for MessageEvent {
    type V = EventModel;

    open spec fn view(&self) -> EventModel {
        EventModel {
            message: self.message@,
            tx_hash: opt_bytes_view(self.tx_hash),
            block_number: self.block_number,
        }
    }
}

/// No two pairs share a key.
pub open spec fn keys_distinct(s: Seq<(Seq<char>, Seq<char>)>) -> bool {
    forall|i: int, j: int| 0 <= i < j < s.len() ==> s[i].0 != s[j].0
}

/// The version and variant bits of a version-4 UUID are set in `id`.
pub open spec fn is_v4_id(id: u128) -> bool {
    (id >> 76u128) & 0xfu128 == 4u128 && (id >> 62u128) & 3u128 == 2u128
}

impl MessageModel {
    /// The annotations, if any, have distinct keys.
    pub open spec fn well_formed(self) -> bool {
        match self.metadata {
            Some(s) => keys_distinct(s),
            None => true,
        }
    }
}

impl FrostMessage {
    /// A fresh message from `from_chain` to `to_chain` carrying `payload`:
    /// a new version-4 id, and no proof, signature, fee or annotations.
    pub fn new(
        from_chain: ChainId,
        to_chain: ChainId,
        payload: Vec<u8>,
        nonce: u64,
        timestamp: u64,
    ) -> (r: Self)
        ensures
            is_v4_id(r.id),
            r.id != 0,
            r@.well_formed(),
            r.from_chain == from_chain,
            r.to_chain == to_chain,
            r.payload@ == payload@,
            r.proof is None,
            r.timestamp == timestamp,
            r.nonce == nonce,
            r.signature is None,
            r.fee is None,
            r.metadata is None,
    {
        let id = fresh_v4_id();
        proof {
            lemma_v4_id_not_nil(id);
        }
        FrostMessage {
            id,
            from_chain,
            to_chain,
            payload,
            proof: None,
            timestamp,
            nonce,
            signature: None,
            fee: None,
            metadata: None,
        }
    }
}

/// A version-4 id is never the nil id.
pub proof fn lemma_v4_id_not_nil(id: u128)
    requires
        is_v4_id(id),
    ensures
        id != 0,
{
    assert(((id >> 76u128) & 0xfu128 == 4u128) ==> id != 0) by (bit_vector);
}

/// Relies on uuid::Uuid::new_v4: a random UUID whose version nibble is 4 and
/// whose variant bits are 0b10 (it masks random bits and sets those two
/// fields); `as_u128` reads it back as its big-endian value.
#[verifier::external_body]
fn fresh_v4_id() -> (r: u128)
    ensures
        is_v4_id(r),
{
    uuid::Uuid::new_v4().as_u128()
}

/// A message that can be sent across chains.
pub trait CrossChainMessage {
    /// The unique identifier of the message.
    fn id(&self) -> u128;

    /// The message payload.
    fn payload(&self) -> &[u8];

    /// Chain-specific data associated with the message, if any.
    fn chain_specific_data(&self) -> Option<&[u8]>;
}

impl CrossChainMessage for FrostMessage {
    fn id(&self) -> (r: u128)
        ensures
            r == self.id,
    {
        self.id
    }

    fn payload(&self) -> (r: &[u8])
        ensures
            r@ == self.payload@,
    {
        self.payload.as_slice()
    }

    /// Always absent: annotations of this message go in `metadata`.
    fn chain_specific_data(&self) -> (r: Option<&[u8]>)
        ensures
            r is None,
    {
        None
    }
}

} // verus!
