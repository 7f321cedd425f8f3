use vstd::prelude::*;
use vstd::seq_lib::lemma_concat_associative;
use vstd::utf8::{encode_utf8, encode_utf8_decode_utf8};
use crate::chain::{lemma_code_round_trip, ChainId};
use crate::message::{
    keys_distinct, opt_bytes_view, pairs_view, EventModel, FrostMessage, MessageEvent,
    MessageModel, Proof, ProofMetadata, ProofModel,
};
use crate::wire::{
    bytes_field, holds_at, le_bytes, lemma_bytes_round_trip, lemma_holds_split,
    lemma_tag_round_trip, lemma_text_round_trip, lemma_u128_round_trip, lemma_u64_round_trip,
    parse_bytes, parse_tag, parse_text, parse_u128, parse_u64, read_bytes, read_tag, read_text,
    read_u128, read_u64, tag_byte, text_field, u128_bytes, write_bytes, write_tag, write_text,
    write_u128, write_u64,
};

verus! {

pub open spec fn chain_field(c: ChainId) -> Seq<u8> {
    le_bytes(c.code())
}

pub open spec fn parse_chain(s: Seq<u8>, p: int) -> Option<(ChainId, int)> {
    match parse_u64(s, p) {
        Some((v, q)) => Some((ChainId::of_code(v), q)),
        None => None,
    }
}

pub open spec fn opt_bytes_field(o: Option<Seq<u8>>) -> Seq<u8> {
    match o {
        Some(b) => tag_byte(true) + bytes_field(b),
        None => tag_byte(false),
    }
}

pub open spec fn parse_opt_bytes(s: Seq<u8>, p: int) -> Option<(Option<Seq<u8>>, int)> {
    match parse_tag(s, p) {
        Some((true, q)) => match parse_bytes(s, q) {
            Some((b, r)) => Some((Some(b), r)),
            None => None,
        },
        Some((false, q)) => Some((None, q)),
        None => None,
    }
}

pub open spec fn opt_u64_field(o: Option<u64>) -> Seq<u8> {
    match o {
        Some(v) => tag_byte(true) + le_bytes(v),
        None => tag_byte(false),
    }
}

pub open spec fn parse_opt_u64(s: Seq<u8>, p: int) -> Option<(Option<u64>, int)> {
    match parse_tag(s, p) {
        Some((true, q)) => match parse_u64(s, q) {
            Some((v, r)) => Some((Some(v), r)),
            None => None,
        },
        Some((false, q)) => Some((None, q)),
        None => None,
    }
}

pub open spec fn opt_u128_field(o: Option<u128>) -> Seq<u8> {
    match o {
        Some(v) => tag_byte(true) + u128_bytes(v),
        None => tag_byte(false),
    }
}

pub open spec fn parse_opt_u128(s: Seq<u8>, p: int) -> Option<(Option<u128>, int)> {
    match parse_tag(s, p) {
        Some((true, q)) => match parse_u128(s, q) {
            Some((v, r)) => Some((Some(v), r)),
            None => None,
        },
        Some((false, q)) => Some((None, q)),
        None => None,
    }
}

pub open spec fn proof_field(pm: ProofModel) -> Seq<u8> {
    bytes_field(pm.data) + bytes_field(pm.metadata)
}

pub open spec fn parse_proof(s: Seq<u8>, p: int) -> Option<(ProofModel, int)> {
    match parse_bytes(s, p) {
        Some((data, q)) => match parse_bytes(s, q) {
            Some((metadata, r)) => Some((ProofModel { data, metadata }, r)),
            None => None,
        },
        None => None,
    }
}

pub open spec fn opt_proof_field(o: Option<ProofModel>) -> Seq<u8> {
    match o {
        Some(pm) => tag_byte(true) + proof_field(pm),
        None => tag_byte(false),
    }
}

pub open spec fn parse_opt_proof(s: Seq<u8>, p: int) -> Option<(Option<ProofModel>, int)> {
    match parse_tag(s, p) {
        Some((true, q)) => match parse_proof(s, q) {
            Some((pm, r)) => Some((Some(pm), r)),
            None => None,
        },
        Some((false, q)) => Some((None, q)),
        None => None,
    }
}

pub open spec fn pair_field(kv: (Seq<char>, Seq<char>)) -> Seq<u8> {
    text_field(kv.0) + text_field(kv.1)
}

pub open spec fn parse_pair(s: Seq<u8>, p: int) -> Option<((Seq<char>, Seq<char>), int)> {
    match parse_text(s, p) {
        Some((k, q)) => match parse_text(s, q) {
            Some((v, r)) => Some(((k, v), r)),
            None => None,
        },
        None => None,
    }
}

/// The pairs one after another.
pub open spec fn pair_list(ps: Seq<(Seq<char>, Seq<char>)>) -> Seq<u8>
    decreases ps.len(),
{
    if ps.len() == 0 {
        Seq::empty()
    } else {
        pair_list(ps.drop_last()) + pair_field(ps.last())
    }
}

/// Reads `n` pairs one after another.
pub open spec fn parse_pair_list(s: Seq<u8>, p: int, n: nat) -> Option<(Seq<(Seq<char>, Seq<char>)>, int)>
    decreases n,
{
    if n == 0 {
        Some((Seq::empty(), p))
    } else {
        match parse_pair_list(s, p, (n - 1) as nat) {
            Some((acc, q)) => match parse_pair(s, q) {
                Some((kv, r)) => Some((acc.push(kv), r)),
                None => None,
            },
            None => None,
        }
    }
}

/// Annotations: their count, then the pairs.
pub open spec fn pairs_field(ps: Seq<(Seq<char>, Seq<char>)>) -> Seq<u8> {
    le_bytes(ps.len() as u64) + pair_list(ps)
}

/// Reads annotations; their keys must be distinct.
pub open spec fn parse_pairs(s: Seq<u8>, p: int) -> Option<(Seq<(Seq<char>, Seq<char>)>, int)> {
    match parse_u64(s, p) {
        Some((n, q)) => match parse_pair_list(s, q, n as nat) {
            Some((ps, r)) => if keys_distinct(ps) {
                Some((ps, r))
            } else {
                None
            },
            None => None,
        },
        None => None,
    }
}

pub open spec fn opt_pairs_field(o: Option<Seq<(Seq<char>, Seq<char>)>>) -> Seq<u8> {
    match o {
        Some(ps) => tag_byte(true) + pairs_field(ps),
        None => tag_byte(false),
    }
}

pub open spec fn parse_opt_pairs(s: Seq<u8>, p: int) -> Option<
    (Option<Seq<(Seq<char>, Seq<char>)>>, int),
> {
    match parse_tag(s, p) {
        Some((true, q)) => match parse_pairs(s, q) {
            Some((ps, r)) => Some((Some(ps), r)),
            None => None,
        },
        Some((false, q)) => Some((None, q)),
        None => None,
    }
}

/// The wire form of a message: its fields in declaration order.
#[verifier::opaque]
pub open spec fn message_bytes(m: MessageModel) -> Seq<u8> {
    u128_bytes(m.id) + chain_field(m.from_chain) + chain_field(m.to_chain) + bytes_field(m.payload)
        + opt_proof_field(m.proof) + le_bytes(m.timestamp) + le_bytes(m.nonce) + opt_bytes_field(
        m.signature,
    ) + opt_u128_field(m.fee) + opt_pairs_field(m.metadata)
}

/// Reads a message at `p`.
#[verifier::opaque]
pub open spec fn parse_message(s: Seq<u8>, p: int) -> Option<(MessageModel, int)> {
    match parse_u128(s, p) {
        None => None,
        Some((id, p1)) => match parse_chain(s, p1) {
            None => None,
            Some((from_chain, p2)) => match parse_chain(s, p2) {
                None => None,
                Some((to_chain, p3)) => match parse_bytes(s, p3) {
                    None => None,
                    Some((payload, p4)) => match parse_opt_proof(s, p4) {
                        None => None,
                        Some((proof, p5)) => match parse_u64(s, p5) {
                            None => None,
                            Some((timestamp, p6)) => match parse_u64(s, p6) {
                                None => None,
                                Some((nonce, p7)) => match parse_opt_bytes(s, p7) {
                                    None => None,
                                    Some((signature, p8)) => match parse_opt_u128(s, p8) {
                                        None => None,
                                        Some((fee, p9)) => match parse_opt_pairs(s, p9) {
                                            None => None,
                                            Some((metadata, p10)) => Some(
                                                (
                                                    MessageModel {
                                                        id,
                                                        from_chain,
                                                        to_chain,
                                                        payload,
                                                        proof,
                                                        timestamp,
                                                        nonce,
                                                        signature,
                                                        fee,
                                                        metadata,
                                                    },
                                                    p10,
                                                ),
                                            ),
                                        },
                                    },
                                },
                            },
                        },
                    },
                },
            },
        },
    }
}

/// The wire form of an event: its message, then the transaction hash and
/// block number.
pub open spec fn event_bytes(e: EventModel) -> Seq<u8> {
    message_bytes(e.message) + (opt_bytes_field(e.tx_hash) + opt_u64_field(e.block_number))
}

pub open spec fn parse_event(s: Seq<u8>, p: int) -> Option<(EventModel, int)> {
    match parse_message(s, p) {
        None => None,
        Some((message, p1)) => match parse_opt_bytes(s, p1) {
            None => None,
            Some((tx_hash, p2)) => match parse_opt_u64(s, p2) {
                None => None,
                Some((block_number, p3)) => Some(
                    (EventModel { message, tx_hash, block_number }, p3),
                ),
            },
        },
    }
}

/// `s` is exactly one message.
pub open spec fn decodes_message(s: Seq<u8>) -> bool {
    parse_message(s, 0) matches Some((_, q)) && q == s.len()
}

/// `s` is exactly one event.
pub open spec fn decodes_event(s: Seq<u8>) -> bool {
    parse_event(s, 0) matches Some((_, q)) && q == s.len()
}

pub open spec fn text_fits(c: Seq<char>) -> bool {
    encode_utf8(c).len() <= u64::MAX
}

pub open spec fn opt_fits(o: Option<Seq<u8>>) -> bool {
    match o {
        Some(b) => b.len() <= u64::MAX,
        None => true,
    }
}

impl MessageModel {
    /// Every length fits the 64-bit length prefix of the wire form.
    pub open spec fn within_limits(self) -> bool {
        &&& self.payload.len() <= u64::MAX
        &&& match self.proof {
            Some(pm) => pm.data.len() <= u64::MAX && pm.metadata.len() <= u64::MAX,
            None => true,
        }
        &&& opt_fits(self.signature)
        &&& match self.metadata {
            Some(ps) => ps.len() <= u64::MAX && forall|i: int|
                0 <= i < ps.len() ==> text_fits(#[trigger] ps[i].0) && text_fits(ps[i].1),
            None => true,
        }
    }
}

impl EventModel {
    pub open spec fn within_limits(self) -> bool {
        self.message.within_limits() && opt_fits(self.tx_hash)
    }
}

proof fn lemma_opt_bytes_round_trip(s: Seq<u8>, p: int, o: Option<Seq<u8>>)
    requires
        holds_at(s, p, opt_bytes_field(o)),
        opt_fits(o),
    ensures
        parse_opt_bytes(s, p) == Some((o, p + opt_bytes_field(o).len())),
{
    match o {
        Some(b) => {
            lemma_holds_split(s, p, tag_byte(true), bytes_field(b));
            lemma_tag_round_trip(s, p, true);
            lemma_bytes_round_trip(s, p + 1, b);
        },
        None => {
            lemma_tag_round_trip(s, p, false);
        },
    }
}

proof fn lemma_opt_u64_round_trip(s: Seq<u8>, p: int, o: Option<u64>)
    requires
        holds_at(s, p, opt_u64_field(o)),
    ensures
        parse_opt_u64(s, p) == Some((o, p + opt_u64_field(o).len())),
{
    match o {
        Some(v) => {
            lemma_holds_split(s, p, tag_byte(true), le_bytes(v));
            lemma_tag_round_trip(s, p, true);
            lemma_u64_round_trip(s, p + 1, v);
        },
        None => {
            lemma_tag_round_trip(s, p, false);
        },
    }
}

proof fn lemma_opt_u128_round_trip(s: Seq<u8>, p: int, o: Option<u128>)
    requires
        holds_at(s, p, opt_u128_field(o)),
    ensures
        parse_opt_u128(s, p) == Some((o, p + opt_u128_field(o).len())),
{
    match o {
        Some(v) => {
            lemma_holds_split(s, p, tag_byte(true), u128_bytes(v));
            lemma_tag_round_trip(s, p, true);
            lemma_u128_round_trip(s, p + 1, v);
        },
        None => {
            lemma_tag_round_trip(s, p, false);
        },
    }
}

proof fn lemma_opt_proof_round_trip(s: Seq<u8>, p: int, o: Option<ProofModel>)
    requires
        holds_at(s, p, opt_proof_field(o)),
        match o {
            Some(pm) => pm.data.len() <= u64::MAX && pm.metadata.len() <= u64::MAX,
            None => true,
        },
    ensures
        parse_opt_proof(s, p) == Some((o, p + opt_proof_field(o).len())),
{
    match o {
        Some(pm) => {
            lemma_holds_split(s, p, tag_byte(true), proof_field(pm));
            lemma_tag_round_trip(s, p, true);
            lemma_holds_split(s, p + 1, bytes_field(pm.data), bytes_field(pm.metadata));
            lemma_bytes_round_trip(s, p + 1, pm.data);
            lemma_bytes_round_trip(s, p + 1 + bytes_field(pm.data).len(), pm.metadata);
        },
        None => {
            lemma_tag_round_trip(s, p, false);
        },
    }
}

proof fn lemma_pair_round_trip(s: Seq<u8>, p: int, kv: (Seq<char>, Seq<char>))
    requires
        holds_at(s, p, pair_field(kv)),
        text_fits(kv.0),
        text_fits(kv.1),
    ensures
        parse_pair(s, p) == Some((kv, p + pair_field(kv).len())),
{
    lemma_holds_split(s, p, text_field(kv.0), text_field(kv.1));
    lemma_text_round_trip(s, p, kv.0);
    lemma_text_round_trip(s, p + text_field(kv.0).len(), kv.1);
}

proof fn lemma_pair_list_round_trip(s: Seq<u8>, p: int, ps: Seq<(Seq<char>, Seq<char>)>)
    requires
        holds_at(s, p, pair_list(ps)),
        forall|i: int| 0 <= i < ps.len() ==> text_fits(#[trigger] ps[i].0) && text_fits(ps[i].1),
    ensures
        parse_pair_list(s, p, ps.len()) == Some((ps, p + pair_list(ps).len())),
    decreases ps.len(),
{
    if ps.len() > 0 {
        let init = ps.drop_last();
        lemma_holds_split(s, p, pair_list(init), pair_field(ps.last()));
        assert forall|i: int| 0 <= i < init.len() implies text_fits(#[trigger] init[i].0)
            && text_fits(init[i].1) by {
            assert(init[i] == ps[i]);
        }
        lemma_pair_list_round_trip(s, p, init);
        assert(text_fits(ps[ps.len() - 1].0));
        lemma_pair_round_trip(s, p + pair_list(init).len(), ps.last());
        assert(init.push(ps.last()) =~= ps);
    }
}

proof fn lemma_opt_pairs_round_trip(
    s: Seq<u8>,
    p: int,
    o: Option<Seq<(Seq<char>, Seq<char>)>>,
)
    requires
        holds_at(s, p, opt_pairs_field(o)),
        match o {
            Some(ps) => keys_distinct(ps) && ps.len() <= u64::MAX && forall|i: int|
                0 <= i < ps.len() ==> text_fits(#[trigger] ps[i].0) && text_fits(ps[i].1),
            None => true,
        },
    ensures
        parse_opt_pairs(s, p) == Some((o, p + opt_pairs_field(o).len())),
{
    match o {
        Some(ps) => {
            lemma_holds_split(s, p, tag_byte(true), pairs_field(ps));
            lemma_tag_round_trip(s, p, true);
            lemma_holds_split(s, p + 1, le_bytes(ps.len() as u64), pair_list(ps));
            lemma_u64_round_trip(s, p + 1, ps.len() as u64);
            lemma_pair_list_round_trip(s, p + 9, ps);
        },
        None => {
            lemma_tag_round_trip(s, p, false);
        },
    }
}

/// Reading a message back from its wire form gives the message, field for
/// field, and consumes exactly its wire form.
pub proof fn lemma_message_at(s: Seq<u8>, p: int, m: MessageModel)
    requires
        holds_at(s, p, message_bytes(m)),
        m.well_formed(),
        m.within_limits(),
    ensures
        parse_message(s, p) == Some((m, p + message_bytes(m).len())),
{
    reveal(parse_message);
    reveal(message_bytes);
    let f0 = u128_bytes(m.id);
    let f1 = chain_field(m.from_chain);
    let f2 = chain_field(m.to_chain);
    let f3 = bytes_field(m.payload);
    let f4 = opt_proof_field(m.proof);
    let f5 = le_bytes(m.timestamp);
    let f6 = le_bytes(m.nonce);
    let f7 = opt_bytes_field(m.signature);
    let f8 = opt_u128_field(m.fee);
    let f9 = opt_pairs_field(m.metadata);
    let l1 = f0 + f1;
    let l2 = l1 + f2;
    let l3 = l2 + f3;
    let l4 = l3 + f4;
    let l5 = l4 + f5;
    let l6 = l5 + f6;
    let l7 = l6 + f7;
    let l8 = l7 + f8;
    let p1 = p + f0.len();
    let p2 = p + l1.len();
    let p3 = p + l2.len();
    let p4 = p + l3.len();
    let p5 = p + l4.len();
    let p6 = p + l5.len();
    let p7 = p + l6.len();
    let p8 = p + l7.len();
    let p9 = p + l8.len();
    lemma_holds_split(s, p, l8, f9);
    lemma_holds_split(s, p, l7, f8);
    lemma_holds_split(s, p, l6, f7);
    lemma_holds_split(s, p, l5, f6);
    lemma_holds_split(s, p, l4, f5);
    lemma_holds_split(s, p, l3, f4);
    lemma_holds_split(s, p, l2, f3);
    lemma_holds_split(s, p, l1, f2);
    lemma_holds_split(s, p, f0, f1);
    lemma_u128_round_trip(s, p, m.id);
    lemma_u64_round_trip(s, p1, m.from_chain.code());
    lemma_u64_round_trip(s, p2, m.to_chain.code());
    lemma_code_round_trip(m.from_chain);
    lemma_code_round_trip(m.to_chain);
    lemma_bytes_round_trip(s, p3, m.payload);
    lemma_opt_proof_round_trip(s, p4, m.proof);
    lemma_u64_round_trip(s, p5, m.timestamp);
    lemma_u64_round_trip(s, p6, m.nonce);
    lemma_opt_bytes_round_trip(s, p7, m.signature);
    lemma_opt_u128_round_trip(s, p8, m.fee);
    lemma_opt_pairs_round_trip(s, p9, m.metadata);
}

proof fn lemma_event_at(s: Seq<u8>, p: int, e: EventModel)
    requires
        holds_at(s, p, event_bytes(e)),
        e.message.well_formed(),
        e.within_limits(),
    ensures
        parse_event(s, p) == Some((e, p + event_bytes(e).len())),
{
    let f0 = message_bytes(e.message);
    let f1 = opt_bytes_field(e.tx_hash);
    let f2 = opt_u64_field(e.block_number);
    lemma_holds_split(s, p, f0, f1 + f2);
    lemma_holds_split(s, p + f0.len(), f1, f2);
    lemma_message_at(s, p, e.message);
    lemma_opt_bytes_round_trip(s, p + f0.len(), e.tx_hash);
    lemma_opt_u64_round_trip(s, p + f0.len() + f1.len(), e.block_number);
}

/// Decoding the wire form of a well-formed message gives back a message
/// equal to it in every field, present and absent optional fields alike.
pub proof fn lemma_message_round_trip(m: MessageModel)
    requires
        m.well_formed(),
        m.within_limits(),
    ensures
        decodes_message(message_bytes(m)),
        parse_message(message_bytes(m), 0) == Some((m, message_bytes(m).len() as int)),
{
    let s = message_bytes(m);
    assert(s.subrange(0, s.len() as int) =~= s);
    lemma_message_at(s, 0, m);
}

/// Decoding the wire form of an event gives back an equal event; an absent
/// transaction hash or block number stays absent.
pub proof fn lemma_event_round_trip(e: EventModel)
    requires
        e.message.well_formed(),
        e.within_limits(),
    ensures
        decodes_event(event_bytes(e)),
        parse_event(event_bytes(e), 0) == Some((e, event_bytes(e).len() as int)),
{
    let s = event_bytes(e);
    assert(s.subrange(0, s.len() as int) =~= s);
    lemma_event_at(s, 0, e);
}

/// Why a byte string is not the wire form of a value.
#[derive(Clone, Copy, Debug, PartialEq, Eq, Structural)]
pub enum WireError {
    /// Truncated data, an unknown presence tag, text that is not UTF-8,
    /// repeated annotation keys, or bytes left over after the value.
    Malformed,
}

fn write_opt_bytes(out: &mut Vec<u8>, o: &Option<Vec<u8>>)
    ensures
        final(out)@ == old(out)@ + opt_bytes_field(opt_bytes_view(*o)),
{
    match o {
        Some(b) => {
            write_tag(out, true);
            write_bytes(out, b.as_slice());
        },
        None => write_tag(out, false),
    }
    assert(out@ =~= old(out)@ + opt_bytes_field(opt_bytes_view(*o)));
}

fn write_opt_u64(out: &mut Vec<u8>, o: Option<u64>)
    ensures
        final(out)@ == old(out)@ + opt_u64_field(o),
{
    match o {
        Some(v) => {
            write_tag(out, true);
            write_u64(out, v);
        },
        None => write_tag(out, false),
    }
    assert(out@ =~= old(out)@ + opt_u64_field(o));
}

fn write_opt_u128(out: &mut Vec<u8>, o: Option<u128>)
    ensures
        final(out)@ == old(out)@ + opt_u128_field(o),
{
    match o {
        Some(v) => {
            write_tag(out, true);
            write_u128(out, v);
        },
        None => write_tag(out, false),
    }
    assert(out@ =~= old(out)@ + opt_u128_field(o));
}

fn write_opt_proof(out: &mut Vec<u8>, o: &Option<Proof>)
    ensures
        final(out)@ == old(out)@ + opt_proof_field(
            match *o {
                Some(pf) => Some(pf@),
                None => None,
            },
        ),
{
    match o {
        Some(pf) => {
            write_tag(out, true);
            write_bytes(out, pf.data.as_slice());
            write_bytes(out, pf.metadata.encoded.as_slice());
            assert(out@ =~= old(out)@ + opt_proof_field(Some(pf@)));
        },
        None => {
            write_tag(out, false);
        },
    }
}

fn write_pairs(out: &mut Vec<u8>, v: &Vec<(String, String)>)
    ensures
        final(out)@ == old(out)@ + pairs_field(pairs_view(v@)),
{
    let ghost ps = pairs_view(v@);
    write_u64(out, v.len() as u64);
    let ghost mid = out@;
    let mut i: usize = 0;
    while i < v.len()
        invariant
            i <= v@.len(),
            ps == pairs_view(v@),
            out@ == mid + pair_list(ps.take(i as int)),
        decreases v@.len() - i,
    {
        write_text(out, &v[i].0);
        write_text(out, &v[i].1);
        assert(ps.take(i + 1).drop_last() =~= ps.take(i as int));
        i = i + 1;
        assert(out@ =~= mid + pair_list(ps.take(i as int)));
    }
    assert(ps.take(i as int) =~= ps);
    assert(out@ =~= old(out)@ + pairs_field(ps));
}

fn write_opt_pairs(out: &mut Vec<u8>, o: &Option<Vec<(String, String)>>)
    ensures
        final(out)@ == old(out)@ + opt_pairs_field(
            match *o {
                Some(v) => Some(pairs_view(v@)),
                None => None,
            },
        ),
{
    match o {
        Some(v) => {
            write_tag(out, true);
            write_pairs(out, v);
            assert(out@ =~= old(out)@ + opt_pairs_field(Some(pairs_view(v@))));
        },
        None => {
            write_tag(out, false);
        },
    }
}

fn write_message(out: &mut Vec<u8>, m: &FrostMessage)
    ensures
        final(out)@ == old(out)@ + message_bytes(m@),
{
    reveal(message_bytes);
    let ghost start = out@;
    let ghost mm = m@;
    let ghost f0 = u128_bytes(mm.id);
    let ghost f1 = chain_field(mm.from_chain);
    let ghost f2 = chain_field(mm.to_chain);
    let ghost f3 = bytes_field(mm.payload);
    let ghost f4 = opt_proof_field(mm.proof);
    let ghost f5 = le_bytes(mm.timestamp);
    let ghost f6 = le_bytes(mm.nonce);
    let ghost f7 = opt_bytes_field(mm.signature);
    let ghost f8 = opt_u128_field(mm.fee);
    let ghost f9 = opt_pairs_field(mm.metadata);
    write_u128(out, m.id);
    write_u64(out, m.from_chain.to_u64());
    proof {
        lemma_concat_associative(start, f0, f1);
    }
    write_u64(out, m.to_chain.to_u64());
    proof {
        lemma_concat_associative(start, f0 + f1, f2);
    }
    write_bytes(out, m.payload.as_slice());
    proof {
        lemma_concat_associative(start, f0 + f1 + f2, f3);
    }
    write_opt_proof(out, &m.proof);
    proof {
        lemma_concat_associative(start, f0 + f1 + f2 + f3, f4);
    }
    write_u64(out, m.timestamp);
    proof {
        lemma_concat_associative(start, f0 + f1 + f2 + f3 + f4, f5);
    }
    write_u64(out, m.nonce);
    proof {
        lemma_concat_associative(start, f0 + f1 + f2 + f3 + f4 + f5, f6);
    }
    write_opt_bytes(out, &m.signature);
    proof {
        lemma_concat_associative(start, f0 + f1 + f2 + f3 + f4 + f5 + f6, f7);
    }
    write_opt_u128(out, m.fee);
    proof {
        lemma_concat_associative(start, f0 + f1 + f2 + f3 + f4 + f5 + f6 + f7, f8);
    }
    write_opt_pairs(out, &m.metadata);
    proof {
        lemma_concat_associative(start, f0 + f1 + f2 + f3 + f4 + f5 + f6 + f7 + f8, f9);
    }
}

/// The wire form of a message.
pub fn encode_message(m: &FrostMessage) -> (r: Vec<u8>)
    ensures
        r@ == message_bytes(m@),
{
    let mut out: Vec<u8> = Vec::new();
    write_message(&mut out, m);
    assert(out@ =~= message_bytes(m@));
    out
}

/// The wire form of an event.
pub fn encode_event(e: &MessageEvent) -> (r: Vec<u8>)
    ensures
        r@ == event_bytes(e@),
{
    let mut out: Vec<u8> = Vec::new();
    write_message(&mut out, &e.message);
    write_opt_bytes(&mut out, &e.tx_hash);
    write_opt_u64(&mut out, e.block_number);
    assert(out@ =~= event_bytes(e@));
    out
}

/// Equal texts, compared by their UTF-8 bytes.
fn same_text(a: &String, b: &String) -> (r: bool)
    ensures
        r == (a@ == b@),
{
    let sa = a.as_str();
    let sb = b.as_str();
    let x = sa.as_bytes();
    let y = sb.as_bytes();
    assert(x@ == encode_utf8(a@));
    assert(y@ == encode_utf8(b@));
    proof {
        encode_utf8_decode_utf8(a@);
        encode_utf8_decode_utf8(b@);
    }
    if x.len() != y.len() {
        return false;
    }
    let mut i: usize = 0;
    while i < x.len()
        invariant
            x@ == encode_utf8(a@),
            y@ == encode_utf8(b@),
            x@.len() == y@.len(),
            i <= x@.len(),
            forall|j: int| 0 <= j < i ==> x@[j] == y@[j],
        decreases x@.len() - i,
    {
        if x[i] != y[i] {
            assert(x@[i as int] != y@[i as int]);
            return false;
        }
        i = i + 1;
    }
    assert(x@ =~= y@);
    true
}

/// No two pairs of `v` share a key.
fn keys_all_distinct(v: &Vec<(String, String)>) -> (r: bool)
    ensures
        r == keys_distinct(pairs_view(v@)),
{
    let ghost ps = pairs_view(v@);
    let mut i: usize = 0;
    while i < v.len()
        invariant
            i <= v@.len(),
            ps == pairs_view(v@),
            forall|a: int, b: int| 0 <= a < b < i ==> ps[a].0 != ps[b].0,
        decreases v@.len() - i,
    {
        let mut j: usize = 0;
        while j < i
            invariant
                j <= i < v@.len(),
                ps == pairs_view(v@),
                forall|a: int| 0 <= a < j ==> ps[a].0 != ps[i as int].0,
            decreases i - j,
        {
            if same_text(&v[j].0, &v[i].0) {
                assert(ps[j as int].0 == ps[i as int].0);
                return false;
            }
            j = j + 1;
        }
        i = i + 1;
    }
    true
}

fn read_chain(b: &[u8], pos: usize) -> (r: Option<(ChainId, usize)>)
    ensures
        match r {
            Some((v, q)) => parse_chain(b@, pos as int) == Some((v, q as int)),
            None => parse_chain(b@, pos as int) is None,
        },
{
    match read_u64(b, pos) {
        Some((v, q)) => Some((ChainId::from_u64(v), q)),
        None => None,
    }
}

fn read_opt_bytes(b: &[u8], pos: usize) -> (r: Option<(Option<Vec<u8>>, usize)>)
    ensures
        match r {
            Some((v, q)) => parse_opt_bytes(b@, pos as int) == Some(
                (opt_bytes_view(v), q as int),
            ),
            None => parse_opt_bytes(b@, pos as int) is None,
        },
{
    match read_tag(b, pos) {
        Some((true, q)) => match read_bytes(b, q) {
            Some((v, r)) => Some((Some(v), r)),
            None => None,
        },
        Some((false, q)) => Some((None, q)),
        None => None,
    }
}

fn read_opt_u64(b: &[u8], pos: usize) -> (r: Option<(Option<u64>, usize)>)
    ensures
        match r {
            Some((v, q)) => parse_opt_u64(b@, pos as int) == Some((v, q as int)),
            None => parse_opt_u64(b@, pos as int) is None,
        },
{
    match read_tag(b, pos) {
        Some((true, q)) => match read_u64(b, q) {
            Some((v, r)) => Some((Some(v), r)),
            None => None,
        },
        Some((false, q)) => Some((None, q)),
        None => None,
    }
}

fn read_opt_u128(b: &[u8], pos: usize) -> (r: Option<(Option<u128>, usize)>)
    ensures
        match r {
            Some((v, q)) => parse_opt_u128(b@, pos as int) == Some((v, q as int)),
            None => parse_opt_u128(b@, pos as int) is None,
        },
{
    match read_tag(b, pos) {
        Some((true, q)) => match read_u128(b, q) {
            Some((v, r)) => Some((Some(v), r)),
            None => None,
        },
        Some((false, q)) => Some((None, q)),
        None => None,
    }
}

fn read_opt_proof(b: &[u8], pos: usize) -> (r: Option<(Option<Proof>, usize)>)
    ensures
        match r {
            Some((v, q)) => parse_opt_proof(b@, pos as int) == Some(
                (
                    match v {
                        Some(pf) => Some(pf@),
                        None => None,
                    },
                    q as int,
                ),
            ),
            None => parse_opt_proof(b@, pos as int) is None,
        },
{
    match read_tag(b, pos) {
        Some((true, q)) => match read_bytes(b, q) {
            Some((data, q1)) => match read_bytes(b, q1) {
                Some((encoded, q2)) => Some(
                    (Some(Proof { data, metadata: ProofMetadata { encoded } }), q2),
                ),
                None => None,
            },
            None => None,
        },
        Some((false, q)) => Some((None, q)),
        None => None,
    }
}

proof fn lemma_pair_list_stays_failed(s: Seq<u8>, p: int, i: nat, n: nat)
    requires
        i <= n,
        parse_pair_list(s, p, i) is None,
    ensures
        parse_pair_list(s, p, n) is None,
    decreases n - i,
{
    if i < n {
        lemma_pair_list_stays_failed(s, p, i + 1, n);
    }
}

fn read_pairs(b: &[u8], pos: usize) -> (r: Option<(Vec<(String, String)>, usize)>)
    ensures
        match r {
            Some((v, q)) => parse_pairs(b@, pos as int) == Some((pairs_view(v@), q as int)),
            None => parse_pairs(b@, pos as int) is None,
        },
{
    let (n, start) = match read_u64(b, pos) {
        Some(x) => x,
        None => return None,
    };
    let mut v: Vec<(String, String)> = Vec::new();
    let mut at: usize = start;
    let mut i: u64 = 0;
    while i < n
        invariant
            i <= n,
            parse_u64(b@, pos as int) == Some((n, start as int)),
            parse_pair_list(b@, start as int, i as nat) == Some((pairs_view(v@), at as int)),
        decreases n - i,
    {
        let (k, q1) = match read_text(b, at) {
            Some(x) => x,
            None => {
                proof {
                    lemma_pair_list_stays_failed(b@, start as int, (i + 1) as nat, n as nat);
                }
                return None;
            },
        };
        let (val, q2) = match read_text(b, q1) {
            Some(x) => x,
            None => {
                proof {
                    lemma_pair_list_stays_failed(b@, start as int, (i + 1) as nat, n as nat);
                }
                return None;
            },
        };
        let ghost before = pairs_view(v@);
        v.push((k, val));
        assert(pairs_view(v@) =~= before.push((k@, val@)));
        at = q2;
        i = i + 1;
    }
    if keys_all_distinct(&v) {
        Some((v, at))
    } else {
        None
    }
}

fn read_opt_pairs(b: &[u8], pos: usize) -> (r: Option<(Option<Vec<(String, String)>>, usize)>)
    ensures
        match r {
            Some((v, q)) => parse_opt_pairs(b@, pos as int) == Some(
                (
                    match v {
                        Some(w) => Some(pairs_view(w@)),
                        None => None,
                    },
                    q as int,
                ),
            ),
            None => parse_opt_pairs(b@, pos as int) is None,
        },
{
    match read_tag(b, pos) {
        Some((true, q)) => match read_pairs(b, q) {
            Some((v, r)) => Some((Some(v), r)),
            None => None,
        },
        Some((false, q)) => Some((None, q)),
        None => None,
    }
}

fn read_message(b: &[u8], pos: usize) -> (r: Option<(FrostMessage, usize)>)
    ensures
        match r {
            Some((m, q)) => parse_message(b@, pos as int) == Some((m@, q as int)),
            None => parse_message(b@, pos as int) is None,
        },
{
    reveal(parse_message);
    let (id, p1) = match read_u128(b, pos) {
        Some(x) => x,
        None => return None,
    };
    let (from_chain, p2) = match read_chain(b, p1) {
        Some(x) => x,
        None => return None,
    };
    let (to_chain, p3) = match read_chain(b, p2) {
        Some(x) => x,
        None => return None,
    };
    let (payload, p4) = match read_bytes(b, p3) {
        Some(x) => x,
        None => return None,
    };
    let (proof, p5) = match read_opt_proof(b, p4) {
        Some(x) => x,
        None => return None,
    };
    let (timestamp, p6) = match read_u64(b, p5) {
        Some(x) => x,
        None => return None,
    };
    let (nonce, p7) = match read_u64(b, p6) {
        Some(x) => x,
        None => return None,
    };
    let (signature, p8) = match read_opt_bytes(b, p7) {
        Some(x) => x,
        None => return None,
    };
    let (fee, p9) = match read_opt_u128(b, p8) {
        Some(x) => x,
        None => return None,
    };
    let (metadata, p10) = match read_opt_pairs(b, p9) {
        Some(x) => x,
        None => return None,
    };
    let m = FrostMessage {
        id,
        from_chain,
        to_chain,
        payload,
        proof,
        timestamp,
        nonce,
        signature,
        fee,
        metadata,
    };
    Some((m, p10))
}

/// Decodes a message from its wire form. Fails exactly when `b` is not one
/// whole message; unknown chain codes decode to `ChainId::Unknown`.
pub fn decode_message(b: &[u8]) -> (r: Result<FrostMessage, WireError>)
    ensures
        r is Ok <==> decodes_message(b@),
        r matches Ok(m) ==> parse_message(b@, 0) == Some((m@, b@.len() as int)),
        r matches Ok(m) ==> m@.well_formed(),
{
    reveal(parse_message);
    match read_message(b, 0) {
        Some((m, q)) => if q == b.len() {
            Ok(m)
        } else {
            Err(WireError::Malformed)
        },
        None => Err(WireError::Malformed),
    }
}

/// Decodes an event from its wire form. Fails exactly when `b` is not one
/// whole event.
pub fn decode_event(b: &[u8]) -> (r: Result<MessageEvent, WireError>)
    ensures
        r is Ok <==> decodes_event(b@),
        r matches Ok(e) ==> parse_event(b@, 0) == Some((e@, b@.len() as int)),
{
    let (message, p1) = match read_message(b, 0) {
        Some(x) => x,
        None => return Err(WireError::Malformed),
    };
    let (tx_hash, p2) = match read_opt_bytes(b, p1) {
        Some(x) => x,
        None => return Err(WireError::Malformed),
    };
    let (block_number, p3) = match read_opt_u64(b, p2) {
        Some(x) => x,
        None => return Err(WireError::Malformed),
    };
    if p3 == b.len() {
        Ok(MessageEvent { message, tx_hash, block_number })
    } else {
        Err(WireError::Malformed)
    }
}

} // verus!
