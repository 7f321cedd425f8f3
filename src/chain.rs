use vstd::prelude::*;

verus! {

/// Supported chain identifiers, with an explicit fallback for chains that
/// this build does not know.
#[derive(Clone, Copy, Debug, PartialEq, Eq, Hash, Structural)]
pub enum ChainId {
    /// Ethereum blockchain
    Ethereum,
    /// Polkadot blockchain
    Polkadot,
    /// Solana blockchain
    Solana,
    /// Unknown or unsupported chain
    Unknown,
}

/// Numeric code of `ChainId::Unknown`.
pub const UNKNOWN_CHAIN_CODE: u64 = 0xffff_ffff_ffff_ffff;

impl ChainId {
    /// The stable numeric code of a chain.
    pub open spec fn code(self) -> u64 {
        match self {
            ChainId::Ethereum => 0,
            ChainId::Polkadot => 1,
            ChainId::Solana => 2,
            ChainId::Unknown => UNKNOWN_CHAIN_CODE,
        }
    }

    /// The chain that a numeric code stands for; every code outside
    /// {0, 1, 2} stands for `Unknown`, and which one it was is not kept.
    pub open spec fn of_code(v: u64) -> ChainId {
        if v == 0 {
            ChainId::Ethereum
        } else if v == 1 {
            ChainId::Polkadot
        } else if v == 2 {
            ChainId::Solana
        } else {
            ChainId::Unknown
        }
    }

    /// The chain's human-readable name.
    pub open spec fn spec_name(self) -> Seq<char> {
        match self {
            ChainId::Ethereum => seq!['E', 't', 'h', 'e', 'r', 'e', 'u', 'm'],
            ChainId::Polkadot => seq!['P', 'o', 'l', 'k', 'a', 'd', 'o', 't'],
            ChainId::Solana => seq!['S', 'o', 'l', 'a', 'n', 'a'],
            ChainId::Unknown => seq!['U', 'n', 'k', 'n', 'o', 'w', 'n'],
        }
    }

    /// Convert the chain identifier to its numeric code.
    pub fn to_u64(&self) -> (r: u64)
        ensures
            r == self.code(),
    {
        match self {
            ChainId::Ethereum => 0,
            ChainId::Polkadot => 1,
            ChainId::Solana => 2,
            ChainId::Unknown => UNKNOWN_CHAIN_CODE,
        }
    }

    /// Decode a numeric code. Never fails: unrecognised codes decode to
    /// `Unknown`, so that a node can parse a message naming a newer chain.
    pub fn from_u64(value: u64) -> (r: ChainId)
        ensures
            r == ChainId::of_code(value),
    {
        match value {
            0 => ChainId::Ethereum,
            1 => ChainId::Polkadot,
            2 => ChainId::Solana,
            _ => ChainId::Unknown,
        }
    }

    /// The chain's human-readable name, for logs and diagnostics.
    pub fn name(&self) -> (r: String)
        ensures
            r@ == self.spec_name(),
    {
        let s = match self {
            ChainId::Ethereum => "Ethereum",
            ChainId::Polkadot => "Polkadot",
            ChainId::Solana => "Solana",
            ChainId::Unknown => "Unknown",
        };
        proof {
            reveal_strlit("Ethereum");
            reveal_strlit("Polkadot");
            reveal_strlit("Solana");
            reveal_strlit("Unknown");
        }
        let r = s.to_string();
        r
    }
}

/// Decoding never fails: unrecognised codes give `Ok(ChainId::Unknown)`.
impl core::convert::TryFrom<u64> for ChainId {
    type Error = ();

    fn try_from(value: u64) -> (r: Result<ChainId, ()>)
        ensures
            r == Ok::<ChainId, ()>(ChainId::of_code(value)),
    {
        Ok(ChainId::from_u64(value))
    }
}

impl vstd::std_specs::convert::TryFromSpecImpl<u64> for ChainId {
    open spec fn obeys_try_from_spec() -> bool {
        true
    }

    open spec fn try_from_spec(v: u64) -> Result<ChainId, ()> {
        Ok(ChainId::of_code(v))
    }
}

/// Decoding the code of any chain gives that chain back.
pub proof fn lemma_code_round_trip(c: ChainId)
    ensures
        ChainId::of_code(c.code()) == c,
{
}

/// Every code outside {0, 1, 2} decodes to `Unknown`.
pub proof fn lemma_unrecognised_code(v: u64)
    requires
        v != 0 && v != 1 && v != 2,
    ensures
        ChainId::of_code(v) == ChainId::Unknown,
{
}

/// `Unknown` is coded as the largest `u64`, and that code decodes to `Unknown`.
pub proof fn lemma_unknown_code()
    ensures
        ChainId::Unknown.code() == u64::MAX,
        ChainId::of_code(u64::MAX) == ChainId::Unknown,
{
}

} // verus!
