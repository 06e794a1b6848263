use vstd::prelude::*;

verus! {

/// Why an address and a length do not make a prefix.
#[derive(Clone, Copy, Debug, PartialEq, Eq, Structural)]
pub enum CidrError {
    /// The length is larger than the number of bits in an address.
    NetworkLengthTooLong,
    /// A bit after the first `length` bits of the address is set.
    InvalidHostPart,
}

/// The bits of an IPv4 address that lie behind a prefix of `len` bits.
pub open spec fn host_mask_v4(len: u8) -> u32 {
    if len >= 32 {
        0u32
    } else {
        u32::MAX >> (len as u32)
    }
}

/// The bits of an IPv6 address that lie behind a prefix of `len` bits.
pub open spec fn host_mask_v6(len: u8) -> u128 {
    if len >= 128 {
        0u128
    } else {
        u128::MAX >> (len as u128)
    }
}

/// An address and a length make an IPv4 prefix when the length is at most 32
/// and no host bit of the address is set.
pub open spec fn is_prefix_v4(address: u32, len: u8) -> bool {
    len <= 32 && address & host_mask_v4(len) == 0
}

/// An address and a length make an IPv6 prefix when the length is at most 128
/// and no host bit of the address is set.
pub open spec fn is_prefix_v6(address: u128, len: u8) -> bool {
    len <= 128 && address & host_mask_v6(len) == 0
}

/// The four octets of an IPv4 address, most significant first.
pub open spec fn octets_v4(address: u32) -> Seq<u8> {
    Seq::new(4, |i: int| ((address >> ((24 - 8 * i) as u32)) & 0xff) as u8)
}

/// The sixteen octets of an IPv6 address, most significant first.
pub open spec fn octets_v6(address: u128) -> Seq<u8> {
    Seq::new(16, |i: int| ((address >> ((120 - 8 * i) as u128)) & 0xff) as u8)
}

/// An IPv4 prefix: the first address of a network and the network's length.
#[derive(Clone, Copy, Debug, PartialEq, Eq, Structural)]
pub struct Ipv4CidrWrapper {
    address: u32,
    length: u8,
}

impl Ipv4CidrWrapper {
    #[verifier::type_invariant]
    spec fn inv(self) -> bool {
        is_prefix_v4(self.address, self.length)
    }

    /// The first address of the network, as a number.
    pub closed spec fn address(self) -> u32 {
        self.address
    }

    /// The number of bits that the network fixes.
    pub closed spec fn length(self) -> u8 {
        self.length
    }

    /// Every value that executable code holds is a prefix; a value that only a
    /// proof speaks of is one where this holds.
    pub open spec fn wf(self) -> bool {
        is_prefix_v4(self.address(), self.length())
    }

    /// Makes the prefix of `len` bits that starts at `address`.
    pub fn new(address: u32, len: u8) -> (r: Result<Self, CidrError>)
        ensures
            r.is_ok() <==> is_prefix_v4(address, len),
            r matches Ok(c) ==> c.address() == address && c.length() == len && c.wf(),
            r matches Err(e) ==> (e == CidrError::NetworkLengthTooLong <==> len > 32),
    {
        if len > 32 {
            return Err(CidrError::NetworkLengthTooLong);
        }
        let mask: u32 = if len == 32 {
            0
        } else {
            u32::MAX >> (len as u32)
        };
        if address & mask != 0 {
            return Err(CidrError::InvalidHostPart);
        }
        Ok(Ipv4CidrWrapper { address, length: len })
    }

    /// The first address of the network.
    pub fn first_address(&self) -> (r: u32)
        ensures
            r == self.address(),
            self.wf(),
    {
        proof {
            use_type_invariant(self);
        }
        self.address
    }

    /// The number of bits that the network fixes.
    pub fn network_length(&self) -> (r: u8)
        ensures
            r == self.length(),
            r <= 32,
            self.wf(),
    {
        proof {
            use_type_invariant(self);
        }
        self.length
    }

    /// The octets of the first address, most significant first.
    pub fn octets(&self) -> (r: [u8; 4])
        ensures
            r@ == octets_v4(self.address()),
    {
        let a: u32 = self.address;
        let r = [
            ((a >> 24u32) & 0xff) as u8,
            ((a >> 16u32) & 0xff) as u8,
            ((a >> 8u32) & 0xff) as u8,
            (a & 0xff) as u8,
        ];
        proof {
            assert(a >> 0u32 == a) by (bit_vector);
            assert(r@ =~= octets_v4(self.address()));
        }
        r
    }
}

/// An IPv6 prefix: the first address of a network and the network's length.
#[derive(Clone, Copy, Debug, PartialEq, Eq, Structural)]
pub struct Ipv6CidrWrapper {
    address: u128,
    length: u8,
}

impl Ipv6CidrWrapper {
    #[verifier::type_invariant]
    spec fn inv(self) -> bool {
        is_prefix_v6(self.address, self.length)
    }

    /// The first address of the network, as a number.
    pub closed spec fn address(self) -> u128 {
        self.address
    }

    /// The number of bits that the network fixes.
    pub closed spec fn length(self) -> u8 {
        self.length
    }

    /// Every value that executable code holds is a prefix; a value that only a
    /// proof speaks of is one where this holds.
    pub open spec fn wf(self) -> bool {
        is_prefix_v6(self.address(), self.length())
    }

    /// Makes the prefix of `len` bits that starts at `address`.
    pub fn new(address: u128, len: u8) -> (r: Result<Self, CidrError>)
        ensures
            r.is_ok() <==> is_prefix_v6(address, len),
            r matches Ok(c) ==> c.address() == address && c.length() == len && c.wf(),
            r matches Err(e) ==> (e == CidrError::NetworkLengthTooLong <==> len > 128),
    {
        if len > 128 {
            return Err(CidrError::NetworkLengthTooLong);
        }
        let mask: u128 = if len == 128 {
            0
        } else {
            u128::MAX >> (len as u128)
        };
        if address & mask != 0 {
            return Err(CidrError::InvalidHostPart);
        }
        Ok(Ipv6CidrWrapper { address, length: len })
    }

    /// The first address of the network.
    pub fn first_address(&self) -> (r: u128)
        ensures
            r == self.address(),
            self.wf(),
    {
        proof {
            use_type_invariant(self);
        }
        self.address
    }

    /// The number of bits that the network fixes.
    pub fn network_length(&self) -> (r: u8)
        ensures
            r == self.length(),
            r <= 128,
            self.wf(),
    {
        proof {
            use_type_invariant(self);
        }
        self.length
    }

    /// The octets of the first address, most significant first.
    pub fn octets(&self) -> (r: [u8; 16])
        ensures
            r@ == octets_v6(self.address()),
    {
        let a: u128 = self.address;
        let r = [
            ((a >> 120u128) & 0xff) as u8,
            ((a >> 112u128) & 0xff) as u8,
            ((a >> 104u128) & 0xff) as u8,
            ((a >> 96u128) & 0xff) as u8,
            ((a >> 88u128) & 0xff) as u8,
            ((a >> 80u128) & 0xff) as u8,
            ((a >> 72u128) & 0xff) as u8,
            ((a >> 64u128) & 0xff) as u8,
            ((a >> 56u128) & 0xff) as u8,
            ((a >> 48u128) & 0xff) as u8,
            ((a >> 40u128) & 0xff) as u8,
            ((a >> 32u128) & 0xff) as u8,
            ((a >> 24u128) & 0xff) as u8,
            ((a >> 16u128) & 0xff) as u8,
            ((a >> 8u128) & 0xff) as u8,
            (a & 0xff) as u8,
        ];
        proof {
            assert(a >> 0u128 == a) by (bit_vector);
            assert(r@ =~= octets_v6(self.address()));
        }
        r
    }
}

/// What the `cidr` crate reads in a text as an IPv4 network: the first
/// address, as a number, and the length; `None` where it reads none.
pub uninterp spec fn ipv4_cidr_text(text: Seq<char>) -> Option<(u32, u8)>;

/// Hands `text` to the `FromStr` impl of `cidr::Ipv4Cidr` and returns the
/// first address and the length of the network that it read, or `None` where
/// it reported an error. Nothing is claimed of the outcome but that it is the
/// one that this text always gives.
#[verifier::external_body]
fn read_ipv4_cidr_text(text: &str) -> (r: Option<(u32, u8)>)
    ensures
        r == ipv4_cidr_text(text@),
{
    match text.parse::<::cidr::Ipv4Cidr>() {
        Ok(c) => Some((u32::from(c.first_address()), c.network_length())),
        Err(_) => None,
    }
}

impl Ipv4CidrWrapper {
    /// The prefix that an address and a length make, if they make one.
    pub open spec fn from_parts_spec(parts: Option<(u32, u8)>) -> Option<(u32, u8)> {
        match parts {
            Some((address, len)) => if is_prefix_v4(address, len) {
                Some((address, len))
            } else {
                None
            },
            None => None,
        }
    }

    /// The address and the length of a prefix.
    pub open spec fn parts(self) -> (u32, u8) {
        (self.address(), self.length())
    }

    /// The prefix of an address and a length that were read from a text, if
    /// there are any and they make a prefix.
    pub fn from_parts(parts: Option<(u32, u8)>) -> (r: Option<Self>)
        ensures
            r.is_some() == Self::from_parts_spec(parts).is_some(),
            r matches Some(c) ==> Some(c.parts()) == Self::from_parts_spec(parts) && c.wf(),
    {
        match parts {
            Some((address, len)) => match Self::new(address, len) {
                Ok(c) => Some(c),
                Err(_) => None,
            },
            None => None,
        }
    }

    /// The prefix that a text such as `10.1.0.0/16` stands for, if it stands
    /// for one.
    pub fn from_str(text: &str) -> (r: Option<Self>)
        ensures
            r.is_some() == Self::from_parts_spec(ipv4_cidr_text(text@)).is_some(),
            r matches Some(c) ==> Some(c.parts()) == Self::from_parts_spec(ipv4_cidr_text(text@))
                && c.wf(),
    {
        Self::from_parts(read_ipv4_cidr_text(text))
    }
}

/// What the `cidr` crate reads in a text as an IPv6 network: the first
/// address, as a number, and the length; `None` where it reads none.
pub uninterp spec fn ipv6_cidr_text(text: Seq<char>) -> Option<(u128, u8)>;

/// Hands `text` to the `FromStr` impl of `cidr::Ipv6Cidr` and returns the
/// first address and the length of the network that it read, or `None` where
/// it reported an error. Nothing is claimed of the outcome but that it is the
/// one that this text always gives.
#[verifier::external_body]
fn read_ipv6_cidr_text(text: &str) -> (r: Option<(u128, u8)>)
    ensures
        r == ipv6_cidr_text(text@),
{
    match text.parse::<::cidr::Ipv6Cidr>() {
        Ok(c) => Some((u128::from(c.first_address()), c.network_length())),
        Err(_) => None,
    }
}

impl Ipv6CidrWrapper {
    /// The prefix that an address and a length make, if they make one.
    pub open spec fn from_parts_spec(parts: Option<(u128, u8)>) -> Option<(u128, u8)> {
        match parts {
            Some((address, len)) => if is_prefix_v6(address, len) {
                Some((address, len))
            } else {
                None
            },
            None => None,
        }
    }

    /// The address and the length of a prefix.
    pub open spec fn parts(self) -> (u128, u8) {
        (self.address(), self.length())
    }

    /// The prefix of an address and a length that were read from a text, if
    /// there are any and they make a prefix.
    pub fn from_parts(parts: Option<(u128, u8)>) -> (r: Option<Self>)
        ensures
            r.is_some() == Self::from_parts_spec(parts).is_some(),
            r matches Some(c) ==> Some(c.parts()) == Self::from_parts_spec(parts) && c.wf(),
    {
        match parts {
            Some((address, len)) => match Self::new(address, len) {
                Ok(c) => Some(c),
                Err(_) => None,
            },
            None => None,
        }
    }

    /// The prefix that a text such as `fd00:1::/32` stands for, if it stands
    /// for one.
    pub fn from_str(text: &str) -> (r: Option<Self>)
        ensures
            r.is_some() == Self::from_parts_spec(ipv6_cidr_text(text@)).is_some(),
            r matches Some(c) ==> Some(c.parts()) == Self::from_parts_spec(ipv6_cidr_text(text@))
                && c.wf(),
    {
        Self::from_parts(read_ipv6_cidr_text(text))
    }
}

} // verus!
