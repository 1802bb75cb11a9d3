//! SHA-256 digests and their text form.

use sha2::Digest;
use vstd::prelude::*;

use crate::numeral::Alphabet;

verus! {

/// The number of hexadecimal digits in one half of a digest.
pub const HALF_WIDTH: usize = 32;

/// The SHA-256 hash of some bytes, as the `sha2` crate computes it.
pub uninterp spec fn sha256(data: Seq<u8>) -> Seq<u8>;

/// Calls `sha2::Sha256::digest`: the hash is a function of the bytes alone. What the hash of
/// given bytes is, and that it differs for different bytes, is not stated.
#[verifier::external_body]
fn sha256_of(data: &[u8]) -> (hash: [u8; 32])
    ensures
        hash@ == sha256(data@),
{
    sha2::Sha256::digest(data).into()
}

/// Why a text is not a digest.
#[derive(Clone, Copy, Debug, PartialEq, Eq, Structural)]
pub enum DigestParseError {
    /// The text does not start with `sha256:`.
    WrongPrefix,
    /// What follows is not 64 lower-case hexadecimal digits.
    MalformedHex,
}

impl DigestParseError {
    /// What the error says to a reader.
    pub open spec fn text(self) -> Seq<char> {
        match self {
            DigestParseError::WrongPrefix => "digest does not start with sha256:"@,
            DigestParseError::MalformedHex => "digest is not 64 lower-case hexadecimal digits"@,
        }
    }

    /// What the error says to a reader.
    pub fn message(&self) -> (message: &'static str)
        ensures
            message@ == self.text(),
    {
        match self {
            DigestParseError::WrongPrefix => "digest does not start with sha256:",
            DigestParseError::MalformedHex => "digest is not 64 lower-case hexadecimal digits",
        }
    }
}

/// A SHA-256 digest, as the big-endian numbers that its two halves stand for.
#[derive(Clone, Copy, Debug, PartialEq, Eq, Structural)]
pub struct Sha256Digest {
    pub high: u128,
    pub low: u128,
}

/// The number that the bytes stand for, most significant byte first.
pub open spec fn big_endian(bytes: Seq<u8>) -> nat
    decreases bytes.len(),
{
    if bytes.len() == 0 {
        0
    } else {
        big_endian(bytes.drop_last()) * 256 + bytes.last() as nat
    }
}

spec fn power_of_256(width: nat) -> nat
    decreases width,
{
    if width == 0 {
        1
    } else {
        256 * power_of_256((width - 1) as nat)
    }
}

proof fn lemma_big_endian_bound(bytes: Seq<u8>)
    ensures
        big_endian(bytes) < power_of_256(bytes.len()),
    decreases bytes.len(),
{
    if bytes.len() > 0 {
        lemma_big_endian_bound(bytes.drop_last());
    }
}

proof fn lemma_power_of_256(width: nat)
    requires
        width <= 16,
    ensures
        power_of_256(width) <= 0x1_0000_0000_0000_0000_0000_0000_0000_0000,
    decreases 16 - width,
{
    if width == 16 {
        reveal_with_fuel(power_of_256, 17);
    } else {
        lemma_power_of_256(width + 1);
    }
}

fn read_big_endian(bytes: &[u8; 32], start: usize) -> (number: u128)
    requires
        start <= 16,
    ensures
        number == big_endian(bytes@.subrange(start as int, start + 16)),
{
    let ghost part = bytes@.subrange(start as int, start + 16);
    let mut number: u128 = 0;
    let mut i: usize = 0;
    while i < 16
        invariant
            start <= 16,
            i <= 16,
            part == bytes@.subrange(start as int, start + 16),
            bytes@.len() == 32,
            number == big_endian(part.take(i as int)),
        decreases 16 - i,
    {
        proof {
            let next = part.take(i + 1);
            assert(next.drop_last() =~= part.take(i as int));
            lemma_big_endian_bound(next);
            lemma_power_of_256((i + 1) as nat);
            assert(next.last() == bytes@[start + i]);
        }
        number = number * 256 + bytes[start + i] as u128;
        i = i + 1;
    }
    assert(part.take(16) =~= part);
    number
}

impl Sha256Digest {
    /// The digest whose bytes a hash gives.
    pub open spec fn of_hash(hash: Seq<u8>) -> Self {
        Sha256Digest {
            high: big_endian(hash.subrange(0, 16)) as u128,
            low: big_endian(hash.subrange(16, 32)) as u128,
        }
    }

    /// The digest of some bytes.
    pub open spec fn of(data: Seq<u8>) -> Self {
        Self::of_hash(sha256(data))
    }

    /// The digest of some bytes.
    pub fn of_bytes(data: &[u8]) -> (digest: Self)
        ensures
            digest == Self::of(data@),
    {
        let hash = sha256_of(data);
        Sha256Digest { high: read_big_endian(&hash, 0), low: read_big_endian(&hash, 16) }
    }

    /// The 64 hexadecimal digits of the digest.
    pub open spec fn hex(self) -> Seq<char> {
        Alphabet::Hex.write(self.high as nat, HALF_WIDTH as nat) + Alphabet::Hex.write(
            self.low as nat,
            HALF_WIDTH as nat,
        )
    }

    /// The digest as text: `sha256:` and its hexadecimal digits.
    pub open spec fn text(self) -> Seq<char> {
        "sha256:"@ + self.hex()
    }

    /// The digest that a text holds.
    pub open spec fn parsed(text: Seq<char>) -> Result<Self, DigestParseError> {
        if !"sha256:"@.is_prefix_of(text) {
            Err(DigestParseError::WrongPrefix)
        } else if exists|digest: Self| text == #[trigger] digest.text() {
            Ok(choose|digest: Self| text == #[trigger] digest.text())
        } else {
            Err(DigestParseError::MalformedHex)
        }
    }

    proof fn lemma_hex(self)
        ensures
            self.hex().len() == 64,
            self.hex().take(32) == Alphabet::Hex.write(self.high as nat, 32),
            self.hex().skip(32) == Alphabet::Hex.write(self.low as nat, 32),
            Alphabet::Hex.read(self.hex().take(32)) == self.high,
            Alphabet::Hex.read(self.hex().skip(32)) == self.low,
    {
        reveal_with_fuel(Alphabet::capacity, 33);
        assert(Alphabet::Hex.capacity(32) == 0x1_0000_0000_0000_0000_0000_0000_0000_0000);
        Alphabet::Hex.lemma_read_write(self.high as nat, 32);
        Alphabet::Hex.lemma_read_write(self.low as nat, 32);
        assert(self.hex().take(32) =~= Alphabet::Hex.write(self.high as nat, 32));
        assert(self.hex().skip(32) =~= Alphabet::Hex.write(self.low as nat, 32));
    }

    /// A digest is read back from its own text, and from no other.
    pub proof fn lemma_text(self, text: Seq<char>)
        ensures
            Self::parsed(text) == Ok::<Self, DigestParseError>(self) <==> text == self.text(),
            self.text().len() == 71,
    {
        reveal_strlit("sha256:");
        self.lemma_hex();
        if text == self.text() {
            assert(text.subrange(0, 7) =~= "sha256:"@);
            let found = Self::parsed(text)->Ok_0;
            assert(text == found.text());
            found.lemma_hex();
            assert(found.hex() =~= text.skip(7));
            assert(self.hex() =~= text.skip(7));
        }
    }

    /// The digest as text: `sha256:` and its hexadecimal digits.
    pub fn to_prefixed_string(&self) -> (text: String)
        ensures
            text@ == self.text(),
    {
        let mut text = "sha256:".to_owned();
        Alphabet::Hex.append(&mut text, self.high, 32);
        Alphabet::Hex.append(&mut text, self.low, 32);
        assert(text@ =~= self.text());
        text
    }

    /// Reads a digest from its text.
    pub fn parse(text: &str) -> (digest: Result<Self, DigestParseError>)
        ensures
            digest == Self::parsed(text@),
    {
        let prefix = "sha256:";
        let start: usize = 7;
        proof {
            reveal_strlit("sha256:");
        }
        let length: usize = text.unicode_len();
        if length < start {
            return Err(DigestParseError::WrongPrefix);
        }
        let mut i: usize = 0;
        while i < start
            invariant
                i <= start,
                start == prefix@.len(),
                prefix@ == "sha256:"@,
                length == text@.len(),
                start <= length,
                forall|k: int| 0 <= k < i ==> prefix@[k] == text@[k],
            decreases start - i,
        {
            if prefix.get_char(i) != text.get_char(i) {
                assert(prefix@[i as int] != text@.subrange(0, prefix@.len() as int)[i as int]);
                return Err(DigestParseError::WrongPrefix);
            }
            i = i + 1;
        }
        assert(prefix@ =~= text@.subrange(0, prefix@.len() as int));
        if length - start != 64 {
            proof {
                assert forall|digest: Self| text@ != #[trigger] digest.text() by {
                    digest.lemma_hex();
                }
            }
            return Err(DigestParseError::MalformedHex);
        }
        let high = Alphabet::Hex.parse(text, start, HALF_WIDTH);
        let low = Alphabet::Hex.parse(text, start + HALF_WIDTH, HALF_WIDTH);
        proof {
            assert forall|digest: Self| text@ == #[trigger] digest.text() implies text@.subrange(
                7,
                39,
            ) == Alphabet::Hex.write(digest.high as nat, 32) && text@.subrange(39, 71)
                == Alphabet::Hex.write(digest.low as nat, 32) by {
                digest.lemma_hex();
                assert(text@.subrange(7, 39) =~= digest.hex().take(32));
                assert(text@.subrange(39, 71) =~= digest.hex().skip(32));
            }
        }
        match (high, low) {
            (Some(high), Some(low)) => {
                let digest = Sha256Digest { high, low };
                proof {
                    assert(text@ =~= "sha256:"@ + (text@.subrange(7, 39) + text@.subrange(39, 71)));
                    digest.lemma_text(text@);
                }
                Ok(digest)
            },
            _ => Err(DigestParseError::MalformedHex),
        }
    }
}

} // verus!
