//! Fixed-width address records: the payload of A (IPv4) and AAAA (IPv6) records.
use vstd::prelude::*;
use crate::bytes::{append_be, be_encode, be_value, lemma_be_round_trip, lemma_pow256_16, pow256, read_be};
use crate::error::SimpleDnsError;

verus! {

/// The wire image of an IPv6 address: 16 bytes, most significant first.
pub open spec fn aaaa_wire(address: u128) -> Seq<u8> {
    be_encode(address as nat, 16)
}

/// The wire image of an IPv4 address: 4 bytes, most significant first.
pub open spec fn a_wire(address: u32) -> Seq<u8> {
    be_encode(address as nat, 4)
}

/// Represents a Resource Address (IPv6)
#[derive(Debug, Clone, Copy, PartialEq, Eq, Structural)]
pub struct AAAA {
    /// a 128 bit ip address
    pub address: u128,
}

/// Represents a Resource Address (IPv4)
#[derive(Debug, Clone, Copy, PartialEq, Eq, Structural)]
pub struct A {
    /// a 32 bit ip address
    pub address: u32,
}

impl AAAA {
    /// Reads the record from the 16 bytes of `data` that start at `position`.
    pub fn parse(data: &[u8], position: usize) -> (r: Result<AAAA, SimpleDnsError>)
        ensures
            r is Err <==> position + 16 > data@.len(),
            r is Err ==> r == Err::<AAAA, SimpleDnsError>(SimpleDnsError::InsufficientData),
            r matches Ok(v) ==> v.address as nat == be_value(data@.subrange(position as int, position + 16)),
    {
        if position > data.len() || data.len() - position < 16 {
            return Err(SimpleDnsError::InsufficientData);
        }
        let v = read_be(data, position, 16);
        proof {
            crate::bytes::lemma_be_value_bound(data@.subrange(position as int, position + 16));
            lemma_pow256_16();
        }
        Ok(AAAA { address: v as u128 })
    }

    /// Appends the 16 bytes of the address to `out`.
    pub fn append_to_vec(&self, out: &mut Vec<u8>) -> (r: Result<(), SimpleDnsError>)
        ensures
            r is Ok,
            final(out)@ == old(out)@ + aaaa_wire(self.address),
    {
        proof {
            lemma_pow256_16();
        }
        append_be(out, self.address, 16);
        Ok(())
    }

    /// The length of the record's wire image.
    pub fn len(&self) -> (r: usize)
        ensures
            r == 16,
            r == aaaa_wire(self.address).len(),
    {
        16
    }
}

impl A {
    /// Reads the record from the 4 bytes of `data` that start at `position`.
    pub fn parse(data: &[u8], position: usize) -> (r: Result<A, SimpleDnsError>)
        ensures
            r is Err <==> position + 4 > data@.len(),
            r is Err ==> r == Err::<A, SimpleDnsError>(SimpleDnsError::InsufficientData),
            r matches Ok(v) ==> v.address as nat == be_value(data@.subrange(position as int, position + 4)),
    {
        if position > data.len() || data.len() - position < 4 {
            return Err(SimpleDnsError::InsufficientData);
        }
        let v = read_be(data, position, 4);
        proof {
            crate::bytes::lemma_be_value_bound(data@.subrange(position as int, position + 4));
            lemma_pow256_16();
        }
        Ok(A { address: v as u32 })
    }

    /// Appends the 4 bytes of the address to `out`.
    pub fn append_to_vec(&self, out: &mut Vec<u8>) -> (r: Result<(), SimpleDnsError>)
        ensures
            r is Ok,
            final(out)@ == old(out)@ + a_wire(self.address),
    {
        proof {
            lemma_pow256_16();
        }
        append_be(out, self.address as u128, 4);
        Ok(())
    }

    /// The length of the record's wire image.
    pub fn len(&self) -> (r: usize)
        ensures
            r == 4,
            r == a_wire(self.address).len(),
    {
        4
    }
}

/// Writing an IPv6 address record and reading it back from the start of the
/// written bytes gives the same address, and the image is as long as `len` says.
pub proof fn lemma_aaaa_round_trip(address: u128)
    ensures
        aaaa_wire(address).len() == 16,
        be_value(aaaa_wire(address).subrange(0, 16)) == address as nat,
{
    lemma_pow256_16();
    lemma_be_round_trip(address as nat, 16);
    assert(aaaa_wire(address).subrange(0, 16) =~= aaaa_wire(address));
}

/// Writing an IPv4 address record and reading it back from the start of the
/// written bytes gives the same address, and the image is as long as `len` says.
pub proof fn lemma_a_round_trip(address: u32)
    ensures
        a_wire(address).len() == 4,
        be_value(a_wire(address).subrange(0, 4)) == address as nat,
{
    lemma_pow256_16();
    lemma_be_round_trip(address as nat, 4);
    assert(a_wire(address).subrange(0, 4) =~= a_wire(address));
}

} // verus!
