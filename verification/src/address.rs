//! Account addresses in their textual form: a human-readable part that
//! names the network, and the account identifier in groups of five bits,
//! under the Bech32 checksum.

use vstd::prelude::*;
use vstd::string::*;
use crate::bits::{
    group_of_5, group_of_8, rearrange_bits_into_group_of_5, rearrange_bits_into_group_of_8,
};
use crate::hash::H160;

verus! {

/// The network that an address belongs to.
#[derive(Clone, Copy, Debug, PartialEq, Eq, Structural)]
pub enum Network {
    Mainnet,
    Testnet,
}

/// Why a string is not a Bech32 string.
#[derive(Clone, Copy, Debug, PartialEq, Eq, Structural)]
pub enum Bech32Error {
    /// The string holds no separator.
    MissingSeparator,
    /// The checksum does not match the rest.
    InvalidChecksum,
    /// The string, or one of its two parts, is too long or too short.
    InvalidLength,
    /// The string holds a character that may not stand there.
    InvalidChar(u8),
    /// A data value is out of range.
    InvalidData(u8),
    /// The string mixes upper and lower case.
    MixedCase,
}

/// Why a string is not an address.
#[derive(Clone, Copy, Debug, PartialEq, Eq, Structural)]
pub enum AddressError {
    /// The string is not a Bech32 string.
    Bech32(Bech32Error),
    /// The human-readable part names no network.
    Bech32UnknownHRP,
    /// The data part holds fewer than 32 groups.
    Bech32DataTooShort,
}

/// An account address.
#[derive(Clone, Copy, Debug, PartialEq, Eq)]
pub struct Address {
    /// The network of the address.
    pub network: Network,
    /// The hash of the public key.
    pub account_id: H160,
}

/// What `Bech32::to_string` returns, where it succeeds, for a
/// human-readable part and data values: the part, the separator, and the
/// characters of the values and of their checksum.
pub uninterp spec fn bech32_encoding(hrp: Seq<char>, data: Seq<u8>) -> Seq<char>;

/// What `Bech32::from_string` returns for a string: the human-readable
/// part and the data values without the checksum, or the reason why the
/// string is refused.
pub uninterp spec fn bech32_decoding(s: Seq<char>) -> Result<(Seq<char>, Seq<u8>), Bech32Error>;

/// `Bech32::to_string` on a value with this human-readable part and these
/// data values. It succeeds exactly when the part is not empty and every
/// value is below 32; the string then depends on the two alone.
#[verifier::external_body]
fn bech32_to_string(hrp: &str, data: &Vec<u8>) -> (out: Option<String>)
    ensures
        out is Some <==> (hrp@.len() >= 1 && forall|i: int|
            0 <= i < data@.len() ==> data@[i] < 32),
        out is Some ==> out->Some_0@ == bech32_encoding(hrp@, data@),
{
    bech32::Bech32 { hrp: hrp.to_string(), data: data.clone() }.to_string().ok()
}

/// `Bech32::from_string`: the two parts of the decoded value, or the
/// library's name for the error; both depend on the string alone.
#[verifier::external_body]
fn bech32_from_string(s: &str) -> (out: Result<(String, Vec<u8>), Bech32Error>)
    ensures
        match out {
            Ok(parts) => bech32_decoding(s@) == Ok::<(Seq<char>, Seq<u8>), Bech32Error>(
                (parts.0@, parts.1@),
            ),
            Err(e) => bech32_decoding(s@) == Err::<(Seq<char>, Seq<u8>), Bech32Error>(e),
        },
{
    match bech32::Bech32::from_string(s.to_string()) {
        Ok(decoded) => Ok((decoded.hrp, decoded.data)),
        Err(bech32::Error::MissingSeparator) => Err(Bech32Error::MissingSeparator),
        Err(bech32::Error::InvalidChecksum) => Err(Bech32Error::InvalidChecksum),
        Err(bech32::Error::InvalidLength) => Err(Bech32Error::InvalidLength),
        Err(bech32::Error::InvalidChar(c)) => Err(Bech32Error::InvalidChar(c)),
        Err(bech32::Error::InvalidData(d)) => Err(Bech32Error::InvalidData(d)),
        Err(bech32::Error::MixedCase) => Err(Bech32Error::MixedCase),
    }
}

/// The human-readable part that names a network.
pub open spec fn network_hrp(network: Network) -> Seq<char> {
    match network {
        Network::Mainnet => seq!['c', 'c'],
        Network::Testnet => seq!['t', 'c'],
    }
}

/// The network that a human-readable part names, if any.
pub open spec fn hrp_network(hrp: Seq<char>) -> Option<Network> {
    if hrp == seq!['c', 'c'] {
        Some(Network::Mainnet)
    } else if hrp == seq!['t', 'c'] {
        Some(Network::Testnet)
    } else {
        None
    }
}

/// The 32 groups of five bits of an account identifier.
pub open spec fn account_groups(account_id: H160) -> Seq<u8> {
    Seq::new(32, |i: int| group_of_5(account_id.0@, i))
}

/// The account identifier that the first 32 groups of `data` spell.
pub open spec fn account_of_groups(data: Seq<u8>) -> Seq<u8> {
    Seq::new(20, |i: int| group_of_8(data, i))
}

/// The address that a string spells, or the reason why it spells none. The
/// string must be a Bech32 string; its human-readable part must name a
/// network; its data part must hold at least 32 groups, of which the first
/// 32 are read.
pub open spec fn parse_address(s: Seq<char>) -> Result<(Network, Seq<u8>), AddressError> {
    match bech32_decoding(s) {
        Err(e) => Err(AddressError::Bech32(e)),
        Ok((hrp, data)) => match hrp_network(hrp) {
            None => Err(AddressError::Bech32UnknownHRP),
            Some(network) => if data.len() < 32 {
                Err(AddressError::Bech32DataTooShort)
            } else {
                Ok((network, account_of_groups(data)))
            },
        },
    }
}

impl Address {
    /// The address of the account whose identifier is all zero.
    pub fn default(network: Network) -> (address: Address)
        ensures
            address.network == network,
            address.account_id.0@ == Seq::new(20, |i: int| 0u8),
    {
        Address { network, account_id: H160::zero() }
    }

    /// The textual form of the address.
    pub fn to_string(&self) -> (out: String)
        ensures
            out@ == bech32_encoding(network_hrp(self.network), account_groups(self.account_id)),
    {
        let hrp = match self.network {
            Network::Mainnet => "cc",
            Network::Testnet => "tc",
        };
        proof {
            reveal_strlit("cc");
            reveal_strlit("tc");
            assert(hrp@ =~= network_hrp(self.network));
        }
        let data = rearrange_bits_into_group_of_5(&self.account_id.0);
        proof {
            assert(data@ =~= account_groups(self.account_id));
        }
        match bech32_to_string(hrp, &data) {
            Some(encoded) => encoded,
            None => {
                proof {
                    assert(false);
                }
                String::new()
            },
        }
    }

    /// Reads an address from its textual form: see [`parse_address`].
    pub fn from_str(s: &str) -> (out: Result<Address, AddressError>)
        ensures
            match parse_address(s@) {
                Ok((network, account)) => out is Ok && out->Ok_0.network == network
                    && out->Ok_0.account_id.0@ == account,
                Err(e) => out == Err::<Address, AddressError>(e),
            },
    {
        let (hrp, data) = match bech32_from_string(s) {
            Ok(parts) => parts,
            Err(e) => {
                return Err(AddressError::Bech32(e));
            },
        };
        let network = match read_network(hrp.as_str()) {
            Some(network) => network,
            None => {
                return Err(AddressError::Bech32UnknownHRP);
            },
        };
        if data.len() < 32 {
            return Err(AddressError::Bech32DataTooShort);
        }
        let account = rearrange_bits_into_group_of_8(&data);
        proof {
            assert(account@ =~= account_of_groups(data@));
        }
        Ok(Address { network, account_id: H160(account) })
    }
}

/// The network that a human-readable part names, if any.
fn read_network(hrp: &str) -> (network: Option<Network>)
    ensures
        network == hrp_network(hrp@),
{
    if hrp.unicode_len() != 2 {
        return None;
    }
    let first = hrp.get_char(0);
    let second = hrp.get_char(1);
    if second != 'c' {
        return None;
    }
    if first == 'c' {
        proof {
            assert(hrp@ =~= seq!['c', 'c']);
        }
        Some(Network::Mainnet)
    } else if first == 't' {
        proof {
            assert(hrp@ =~= seq!['t', 'c']);
        }
        Some(Network::Testnet)
    } else {
        None
    }
}

} // verus!
