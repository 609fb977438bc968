//! Identifiers and logical clocks.
use vstd::prelude::*;

use crate::text::{append_decimal, decimal, hex_digits};

verus! {

/// Unique numeric identifier for a node within a cluster.
#[derive(Debug, Clone, Copy, PartialEq, Eq, PartialOrd, Ord, Hash, Structural)]
pub struct NodeId(pub u64);

impl NodeId {
    pub open spec fn spec_text(self) -> Seq<char> {
        "NodeId("@ + decimal(self.0 as nat) + ")"@
    }

    /// How the identifier is written in messages: `NodeId(7)`.
    pub fn text(&self) -> (s: String)
        ensures
            s@ == self.spec_text(),
    {
        let mut s = String::from_str("NodeId(");
        append_decimal(&mut s, self.0);
        s.append(")");
        s
    }
}

/// Monotonically increasing logical clock identifying an election cycle.
#[derive(Debug, Clone, Copy, PartialEq, Eq, PartialOrd, Ord, Hash, Structural)]
pub struct Term(pub u64);

impl Term {
    /// The term before the first election.
    pub fn zero() -> (r: Term)
        ensures
            r == Term(0),
    {
        Term(0)
    }

    pub open spec fn spec_text(self) -> Seq<char> {
        "T"@ + decimal(self.0 as nat)
    }

    /// How the term is written in messages: `T7`.
    pub fn text(&self) -> (s: String)
        ensures
            s@ == self.spec_text(),
    {
        let mut s = String::from_str("T");
        append_decimal(&mut s, self.0);
        s
    }
}

impl Default for Term {
    fn default() -> (r: Self)
        ensures
            r == Term(0),
    {
        Term(0)
    }
}

/// Position in the log (0-indexed).
#[derive(Debug, Clone, Copy, PartialEq, Eq, PartialOrd, Ord, Hash, Structural)]
pub struct Offset(pub u64);

impl Offset {
    pub open spec fn spec_text(self) -> Seq<char> {
        "@"@ + decimal(self.0 as nat)
    }

    /// How the offset is written in messages: `@7`.
    pub fn text(&self) -> (s: String)
        ensures
            s@ == self.spec_text(),
    {
        let mut s = String::from_str("@");
        append_decimal(&mut s, self.0);
        s
    }
}

impl Default for Offset {
    fn default() -> (r: Self)
        ensures
            r == Offset(0),
    {
        Offset(0)
    }
}

/// Cluster identity for fencing: prevents cross-cluster message delivery.
/// Generated once by the operator. Holds the 128 bits of a UUID; the nil UUID
/// is 0.
#[derive(Debug, Clone, Copy, PartialEq, Eq, Hash, Structural)]
pub struct ClusterId(pub u128);

/// The text of a UUID with the given bits: groups of 8, 4, 4, 4 and 12 lower
/// case hexadecimal digits, separated by hyphens.
pub open spec fn hyphenated(bits: nat) -> Seq<char> {
    hex_digits(bits / 0x1_0000_0000_0000_0000_0000_0000, 8) + seq!['-']
        + hex_digits(bits / 0x1_0000_0000_0000_0000_0000, 4) + seq!['-']
        + hex_digits(bits / 0x1_0000_0000_0000_0000, 4) + seq!['-']
        + hex_digits(bits / 0x1_0000_0000_0000, 4) + seq!['-']
        + hex_digits(bits, 12)
}

/// `uuid::Uuid::hyphenated` of the UUID with these bits, as a string: the five
/// groups of lower case hexadecimal digits, most significant first.
#[verifier::external_body]
fn uuid_text(bits: u128) -> (s: String)
    ensures
        s@ == hyphenated(bits as nat),
{
    uuid::Uuid::from_u128(bits).hyphenated().to_string()
}

/// The bits of `uuid::Uuid::new_v4`: all random but for the version (the four
/// bits above bit 76 are 4) and the variant (the two bits above bit 62 are 2).
/// It panics only where the system has no randomness to give.
#[verifier::external_body]
fn uuid_random() -> (bits: u128)
    ensures
        bits / 0x1000_0000_0000_0000_0000 % 16 == 4,
        bits / 0x4000_0000_0000_0000 % 4 == 2,
{
    uuid::Uuid::new_v4().as_u128()
}

impl ClusterId {
    /// A new identity, drawn at random: a version 4 UUID, so never nil.
    pub fn random() -> (r: Self)
        ensures
            r.0 / 0x1000_0000_0000_0000_0000 % 16 == 4,
            r.0 / 0x4000_0000_0000_0000 % 4 == 2,
            r.0 != 0,
    {
        ClusterId(uuid_random())
    }

    /// True of the identity that no cluster has.
    pub fn is_nil(&self) -> (b: bool)
        ensures
            b == (self.0 == 0),
    {
        self.0 == 0
    }

    /// The identity as hyphenated text, used to name directories.
    pub fn as_str(&self) -> (s: String)
        ensures
            s@ == hyphenated(self.0 as nat),
    {
        uuid_text(self.0)
    }

    pub open spec fn spec_text(self) -> Seq<char> {
        "ClusterId("@ + hyphenated(self.0 as nat) + ")"@
    }

    /// How the identity is written in messages.
    pub fn text(&self) -> (s: String)
        ensures
            s@ == self.spec_text(),
    {
        let mut s = String::from_str("ClusterId(");
        let id = uuid_text(self.0);
        s.append(id.as_str());
        s.append(")");
        s
    }
}

impl Default for ClusterId {
    fn default() -> (r: Self)
        ensures
            r == ClusterId(0),
    {
        ClusterId(0)
    }
}

} // verus!
