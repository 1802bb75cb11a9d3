//! Identifiers: a prefix that says what is named, and a ULID.

use vstd::prelude::*;

use crate::numeral::Alphabet;

verus! {

/// The number of characters of a ULID.
pub const ULID_WIDTH: usize = 26;

/// Why a text is not an identifier.
#[derive(Clone, Copy, Debug, PartialEq, Eq, Structural)]
pub enum IdentifierError {
    /// The text does not start with the prefix of the identifier's kind.
    WrongPrefix,
    /// What follows the prefix is not a ULID.
    MalformedUlid,
}

impl IdentifierError {
    /// What the error says to a reader.
    pub open spec fn text(self) -> Seq<char> {
        match self {
            IdentifierError::WrongPrefix => "identifier has the wrong prefix"@,
            IdentifierError::MalformedUlid => "identifier does not hold a canonical ULID"@,
        }
    }

    /// What the error says to a reader.
    pub fn message(&self) -> (message: &'static str)
        ensures
            message@ == self.text(),
    {
        match self {
            IdentifierError::WrongPrefix => "identifier has the wrong prefix",
            IdentifierError::MalformedUlid => "identifier does not hold a canonical ULID",
        }
    }
}

/// A ULID in its canonical form: 26 symbols of Crockford's base 32.
pub open spec fn ulid_text(ulid: u128) -> Seq<char> {
    Alphabet::Crockford.write(ulid as nat, ULID_WIDTH as nat)
}

/// The ULID in an identifier with the given prefix.
pub open spec fn identifier_ulid(prefix: Seq<char>, text: Seq<char>) -> Result<
    u128,
    IdentifierError,
> {
    if !prefix.is_prefix_of(text) {
        Err(IdentifierError::WrongPrefix)
    } else if exists|ulid: u128| text == prefix + #[trigger] ulid_text(ulid) {
        Ok(choose|ulid: u128| text == prefix + #[trigger] ulid_text(ulid))
    } else {
        Err(IdentifierError::MalformedUlid)
    }
}

proof fn lemma_ulid_text(ulid: u128)
    ensures
        ulid_text(ulid).len() == ULID_WIDTH,
        Alphabet::Crockford.read(ulid_text(ulid)) == ulid,
{
    reveal_with_fuel(Alphabet::capacity, 27);
    assert(ulid < Alphabet::Crockford.capacity(26));
    Alphabet::Crockford.lemma_read_write(ulid as nat, ULID_WIDTH as nat);
}

/// Each identifier is read back from its own text, and from no other.
pub proof fn lemma_identifier_ulid(prefix: Seq<char>, text: Seq<char>, ulid: u128)
    ensures
        identifier_ulid(prefix, text) == Ok::<u128, IdentifierError>(ulid) <==> text == prefix
            + ulid_text(ulid),
        (prefix + ulid_text(ulid)).len() == prefix.len() + ULID_WIDTH,
{
    lemma_ulid_text(ulid);
    if text == prefix + ulid_text(ulid) {
        assert(text.subrange(0, prefix.len() as int) =~= prefix);
        let found = identifier_ulid(prefix, text)->Ok_0;
        assert(text == prefix + ulid_text(found));
        lemma_ulid_text(found);
        assert(ulid_text(found) =~= text.skip(prefix.len() as int));
        assert(ulid_text(ulid) =~= text.skip(prefix.len() as int));
    }
}

fn append_identifier(prefix: &str, ulid: u128) -> (text: String)
    ensures
        text@ == prefix@ + ulid_text(ulid),
{
    let mut text = prefix.to_owned();
    Alphabet::Crockford.append(&mut text, ulid, 26);
    text
}

fn parse_identifier(prefix: &str, text: &str) -> (ulid: Result<u128, IdentifierError>)
    ensures
        ulid == identifier_ulid(prefix@, text@),
{
    let start: usize = prefix.unicode_len();
    let length: usize = text.unicode_len();
    if length < start {
        return Err(IdentifierError::WrongPrefix);
    }
    let mut i: usize = 0;
    while i < start
        invariant
            i <= start,
            start == prefix@.len(),
            length == text@.len(),
            start <= length,
            forall|k: int| 0 <= k < i ==> prefix@[k] == text@[k],
        decreases start - i,
    {
        if prefix.get_char(i) != text.get_char(i) {
            assert(prefix@[i as int] != text@.subrange(0, prefix@.len() as int)[i as int]);
            return Err(IdentifierError::WrongPrefix);
        }
        i = i + 1;
    }
    assert(prefix@ =~= text@.subrange(0, prefix@.len() as int));
    if length - start != ULID_WIDTH {
        proof {
            assert forall|ulid: u128| text@ != prefix@ + #[trigger] ulid_text(ulid) by {
                lemma_ulid_text(ulid);
            }
        }
        return Err(IdentifierError::MalformedUlid);
    }
    match Alphabet::Crockford.parse(text, start, ULID_WIDTH) {
        Some(ulid) => {
            proof {
                assert(text@ =~= prefix@ + text@.subrange(start as int, start + ULID_WIDTH));
                lemma_identifier_ulid(prefix@, text@, ulid);
            }
            Ok(ulid)
        },
        None => {
            proof {
                assert forall|ulid: u128| text@ != prefix@ + #[trigger] ulid_text(ulid) by {
                    lemma_ulid_text(ulid);
                    if text@ == prefix@ + ulid_text(ulid) {
                        assert(text@.subrange(start as int, start + ULID_WIDTH) =~= ulid_text(
                            ulid,
                        ));
                        assert(Alphabet::Crockford.write(ulid as nat, ULID_WIDTH as nat)
                            == ulid_text(ulid));
                    }
                }
            }
            Err(IdentifierError::MalformedUlid)
        },
    }
}

/// Names a run: `flow_` and a ULID.
#[derive(Clone, Copy, Debug, PartialEq, Eq, Structural)]
pub struct RunId {
    pub ulid: u128,
}

impl RunId {
    /// The identifier as text.
    pub open spec fn text(self) -> Seq<char> {
        "flow_"@ + ulid_text(self.ulid)
    }

    /// The identifier that a text holds.
    pub open spec fn parsed(text: Seq<char>) -> Result<Self, IdentifierError> {
        match identifier_ulid("flow_"@, text) {
            Ok(ulid) => Ok(RunId { ulid }),
            Err(error) => Err(error),
        }
    }

    /// Reads an identifier from its text.
    pub fn parse(text: &str) -> (id: Result<Self, IdentifierError>)
        ensures
            id == Self::parsed(text@),
    {
        match parse_identifier("flow_", text) {
            Ok(ulid) => Ok(RunId { ulid }),
            Err(error) => Err(error),
        }
    }

    /// The identifier as text.
    pub fn as_str(&self) -> (text: String)
        ensures
            text@ == self.text(),
    {
        append_identifier("flow_", self.ulid)
    }

    /// An identifier is read back from its own text, and from no other; two identifiers have
    /// one text only where they are the same.
    pub proof fn lemma_text(self, text: Seq<char>)
        ensures
            Self::parsed(text) == Ok::<Self, IdentifierError>(self) <==> text == self.text(),
            self.text().len() == 31,
    {
        reveal_strlit("flow_");
        lemma_identifier_ulid("flow_"@, text, self.ulid);
    }
}

/// Names one instance of a stage: `stage_` and a ULID.
#[derive(Clone, Copy, Debug, PartialEq, Eq, Structural)]
pub struct StageInstanceId {
    pub ulid: u128,
}

impl StageInstanceId {
    /// The identifier as text.
    pub open spec fn text(self) -> Seq<char> {
        "stage_"@ + ulid_text(self.ulid)
    }

    /// The identifier that a text holds.
    pub open spec fn parsed(text: Seq<char>) -> Result<Self, IdentifierError> {
        match identifier_ulid("stage_"@, text) {
            Ok(ulid) => Ok(StageInstanceId { ulid }),
            Err(error) => Err(error),
        }
    }

    /// Reads an identifier from its text.
    pub fn parse(text: &str) -> (id: Result<Self, IdentifierError>)
        ensures
            id == Self::parsed(text@),
    {
        match parse_identifier("stage_", text) {
            Ok(ulid) => Ok(StageInstanceId { ulid }),
            Err(error) => Err(error),
        }
    }

    /// The identifier as text.
    pub fn as_str(&self) -> (text: String)
        ensures
            text@ == self.text(),
    {
        append_identifier("stage_", self.ulid)
    }

    /// An identifier is read back from its own text, and from no other; two identifiers have
    /// one text only where they are the same.
    pub proof fn lemma_text(self, text: Seq<char>)
        ensures
            Self::parsed(text) == Ok::<Self, IdentifierError>(self) <==> text == self.text(),
            self.text().len() == 32,
    {
        reveal_strlit("stage_");
        lemma_identifier_ulid("stage_"@, text, self.ulid);
    }
}

/// Names a committed event: `evt_` and a ULID.
#[derive(Clone, Copy, Debug, PartialEq, Eq, Structural)]
pub struct EventId {
    pub ulid: u128,
}

impl EventId {
    /// The identifier as text.
    pub open spec fn text(self) -> Seq<char> {
        "evt_"@ + ulid_text(self.ulid)
    }

    /// The identifier that a text holds.
    pub open spec fn parsed(text: Seq<char>) -> Result<Self, IdentifierError> {
        match identifier_ulid("evt_"@, text) {
            Ok(ulid) => Ok(EventId { ulid }),
            Err(error) => Err(error),
        }
    }

    /// Reads an identifier from its text.
    pub fn parse(text: &str) -> (id: Result<Self, IdentifierError>)
        ensures
            id == Self::parsed(text@),
    {
        match parse_identifier("evt_", text) {
            Ok(ulid) => Ok(EventId { ulid }),
            Err(error) => Err(error),
        }
    }

    /// The identifier as text.
    pub fn as_str(&self) -> (text: String)
        ensures
            text@ == self.text(),
    {
        append_identifier("evt_", self.ulid)
    }

    /// An identifier is read back from its own text, and from no other; two identifiers have
    /// one text only where they are the same.
    pub proof fn lemma_text(self, text: Seq<char>)
        ensures
            Self::parsed(text) == Ok::<Self, IdentifierError>(self) <==> text == self.text(),
            self.text().len() == 30,
    {
        reveal_strlit("evt_");
        lemma_identifier_ulid("evt_"@, text, self.ulid);
    }
}

/// Names the message that asked for an event: `msg_` and a ULID.
#[derive(Clone, Copy, Debug, PartialEq, Eq, Structural)]
pub struct MessageId {
    pub ulid: u128,
}

impl MessageId {
    /// The identifier as text.
    pub open spec fn text(self) -> Seq<char> {
        "msg_"@ + ulid_text(self.ulid)
    }

    /// The identifier that a text holds.
    pub open spec fn parsed(text: Seq<char>) -> Result<Self, IdentifierError> {
        match identifier_ulid("msg_"@, text) {
            Ok(ulid) => Ok(MessageId { ulid }),
            Err(error) => Err(error),
        }
    }

    /// Reads an identifier from its text.
    pub fn parse(text: &str) -> (id: Result<Self, IdentifierError>)
        ensures
            id == Self::parsed(text@),
    {
        match parse_identifier("msg_", text) {
            Ok(ulid) => Ok(MessageId { ulid }),
            Err(error) => Err(error),
        }
    }

    /// The identifier as text.
    pub fn as_str(&self) -> (text: String)
        ensures
            text@ == self.text(),
    {
        append_identifier("msg_", self.ulid)
    }

    /// An identifier is read back from its own text, and from no other; two identifiers have
    /// one text only where they are the same.
    pub proof fn lemma_text(self, text: Seq<char>)
        ensures
            Self::parsed(text) == Ok::<Self, IdentifierError>(self) <==> text == self.text(),
            self.text().len() == 30,
    {
        reveal_strlit("msg_");
        lemma_identifier_ulid("msg_"@, text, self.ulid);
    }
}

/// Names an artifact: `artifact_` and a ULID.
#[derive(Clone, Copy, Debug, PartialEq, Eq, Structural)]
pub struct ArtifactId {
    pub ulid: u128,
}

impl ArtifactId {
    /// The identifier as text.
    pub open spec fn text(self) -> Seq<char> {
        "artifact_"@ + ulid_text(self.ulid)
    }

    /// The identifier that a text holds.
    pub open spec fn parsed(text: Seq<char>) -> Result<Self, IdentifierError> {
        match identifier_ulid("artifact_"@, text) {
            Ok(ulid) => Ok(ArtifactId { ulid }),
            Err(error) => Err(error),
        }
    }

    /// Reads an identifier from its text.
    pub fn parse(text: &str) -> (id: Result<Self, IdentifierError>)
        ensures
            id == Self::parsed(text@),
    {
        match parse_identifier("artifact_", text) {
            Ok(ulid) => Ok(ArtifactId { ulid }),
            Err(error) => Err(error),
        }
    }

    /// The identifier as text.
    pub fn as_str(&self) -> (text: String)
        ensures
            text@ == self.text(),
    {
        append_identifier("artifact_", self.ulid)
    }

    /// An identifier is read back from its own text, and from no other; two identifiers have
    /// one text only where they are the same.
    pub proof fn lemma_text(self, text: Seq<char>)
        ensures
            Self::parsed(text) == Ok::<Self, IdentifierError>(self) <==> text == self.text(),
            self.text().len() == 35,
    {
        reveal_strlit("artifact_");
        lemma_identifier_ulid("artifact_"@, text, self.ulid);
    }
}

} // verus!
