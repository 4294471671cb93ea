//! Container identifiers: the runtime's full hexadecimal digest, compared on
//! the first twelve raw bytes it encodes.
use vstd::prelude::*;
use crate::hex_text::{
    bytes_of_hex, decode_hex, digit_value, encode_hex, hex_of_bytes, is_hex_text, lower_digit,
};

verus! {

/// Number of raw digest bytes that identify a container.
pub const SHORT_LEN: usize = 12;

/// A digest this library accepts: hexadecimal text of at least twelve bytes.
pub open spec fn is_valid_digest(digest: Seq<char>) -> bool {
    is_hex_text(digest) && digest.len() >= 2 * SHORT_LEN
}

/// The identity of the container a digest names: its first twelve raw bytes.
pub open spec fn short_of(digest: Seq<char>) -> Seq<u8> {
    bytes_of_hex(digest).take(SHORT_LEN as int)
}

/// Two digests that agree on their first twelve bytes (24 digits) name the
/// same container, whatever follows.
pub proof fn lemma_shared_prefix_same_container(a: Seq<char>, b: Seq<char>)
    requires
        is_valid_digest(a),
        is_valid_digest(b),
        a.take(2 * SHORT_LEN as int) == b.take(2 * SHORT_LEN as int),
    ensures
        short_of(a) == short_of(b),
{
    assert forall|i: int| 0 <= i < SHORT_LEN implies #[trigger] short_of(a)[i] == short_of(b)[i] by {
        assert(a.take(2 * SHORT_LEN as int)[2 * i] == a[2 * i]);
        assert(b.take(2 * SHORT_LEN as int)[2 * i] == b[2 * i]);
        assert(a.take(2 * SHORT_LEN as int)[2 * i + 1] == a[2 * i + 1]);
        assert(b.take(2 * SHORT_LEN as int)[2 * i + 1] == b[2 * i + 1]);
    }
    assert(short_of(a) =~= short_of(b));
}

/// A lowercase hexadecimal digit.
pub open spec fn is_lower_hex_digit(c: char) -> bool {
    ('0' <= c && c <= '9') || ('a' <= c && c <= 'f')
}

/// Writing a lowercase digit's value gives the digit back.
proof fn lemma_digit_round_trip(c: char)
    requires
        is_lower_hex_digit(c),
    ensures
        0 <= digit_value(c) < 16,
        lower_digit(digit_value(c)) == c,
{
}

/// For a lowercase digest, the canonical short form is the digest's first
/// 24 characters, so the short form never carries more than that prefix.
pub proof fn lemma_short_form_is_prefix(digest: Seq<char>)
    requires
        is_valid_digest(digest),
        forall|i: int| 0 <= i < digest.len() ==> is_lower_hex_digit(#[trigger] digest[i]),
    ensures
        hex_of_bytes(short_of(digest)) == digest.take(2 * SHORT_LEN as int),
{
    let h = hex_of_bytes(short_of(digest));
    assert forall|k: int| 0 <= k < 2 * SHORT_LEN implies #[trigger] h[k] == digest[k] by {
        let i = k / 2;
        lemma_digit_round_trip(digest[2 * i]);
        lemma_digit_round_trip(digest[2 * i + 1]);
        let hi = digit_value(digest[2 * i]);
        let lo = digit_value(digest[2 * i + 1]);
        let b = hi * 16 + lo;
        assert(0 <= b < 256);
        assert(b / 16 == hi && b % 16 == lo) by (nonlinear_arith)
            requires
                b == hi * 16 + lo,
                0 <= hi < 16,
                0 <= lo < 16,
        ;
        assert(short_of(digest)[i] == b as u8);
    }
    assert(h =~= digest.take(2 * SHORT_LEN as int));
}

/// A running container's identifier. Two identifiers name the same container
/// exactly when their keys (the first twelve digest bytes) are equal; the full
/// digest is kept for addressing the log endpoint.
pub struct ContainerId {
    short: Vec<u8>,
    digest: String,
}

impl View for ContainerId {
    type V = Seq<char>;

    /// The full digest text.
    closed spec fn view(&self) -> Seq<char> {
        self.digest@
    }
}

impl ContainerId {
    #[verifier::type_invariant]
    spec fn inv(&self) -> bool {
        &&& is_valid_digest(self.digest@)
        &&& self.short@ == short_of(self.digest@)
    }

    /// The key on which identifiers compare.
    pub open spec fn key(&self) -> Seq<u8> {
        short_of(self@)
    }

    /// Reads a digest as the runtime reports it; `None` where it is no
    /// hexadecimal text or is shorter than twelve bytes.
    pub fn from_digest(digest: String) -> (r: Option<ContainerId>)
        ensures
            r is Some <==> is_valid_digest(digest@),
            r matches Some(id) ==> id@ == digest@,
    {
        match decode_hex(digest.as_str()) {
            Ok(bytes) => {
                if bytes.len() < SHORT_LEN {
                    return None;
                }
                let mut short: Vec<u8> = Vec::new();
                let mut i: usize = 0;
                while i < SHORT_LEN
                    invariant
                        i <= SHORT_LEN,
                        bytes@ == bytes_of_hex(digest@),
                        bytes@.len() >= SHORT_LEN,
                        short@ == bytes@.take(i as int),
                    decreases SHORT_LEN - i,
                {
                    short.push(bytes[i]);
                    i = i + 1;
                    assert(short@ =~= bytes@.take(i as int));
                }
                Some(ContainerId { short, digest })
            },
            Err(_) => None,
        }
    }

    /// The full digest, for addressing the runtime's log endpoint.
    pub fn digest(&self) -> (r: &str)
        ensures
            r@ == self@,
    {
        self.digest.as_str()
    }

    /// The canonical short form: the key as 24 lowercase hexadecimal digits.
    pub fn short_hex(&self) -> (r: String)
        ensures
            r@ == hex_of_bytes(self.key()),
            r@.len() == 2 * SHORT_LEN,
    {
        proof { use_type_invariant(self); }
        encode_hex(self.short.as_slice())
    }

    /// Whether two identifiers name the same container.
    pub fn same_container(&self, other: &ContainerId) -> (r: bool)
        ensures
            r == (self.key() == other.key()),
    {
        proof {
            use_type_invariant(self);
            use_type_invariant(other);
        }
        let mut i: usize = 0;
        while i < SHORT_LEN
            invariant
                i <= SHORT_LEN,
                self.short@.len() == SHORT_LEN,
                other.short@.len() == SHORT_LEN,
                self.short@.take(i as int) == other.short@.take(i as int),
                self.short@ == self.key(),
                other.short@ == other.key(),
            decreases SHORT_LEN - i,
        {
            if self.short[i] != other.short[i] {
                assert(self.short@[i as int] != other.short@[i as int]);
                return false;
            }
            assert(self.short@.take(i + 1) =~= self.short@.take(i as int).push(self.short@[i as int]));
            assert(other.short@.take(i + 1) =~= other.short@.take(i as int).push(other.short@[i as int]));
            i = i + 1;
        }
        assert(self.short@ =~= self.short@.take(SHORT_LEN as int));
        assert(other.short@ =~= other.short@.take(SHORT_LEN as int));
        true
    }

    /// A second identifier for the same digest.
    pub fn duplicate(&self) -> (r: ContainerId)
        ensures
            r@ == self@,
    {
        proof { use_type_invariant(self); }
        ContainerId { short: self.short.clone(), digest: self.digest.clone() }
    }
}

} // verus!
