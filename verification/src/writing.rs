//! What texts and bytes look like: numerals, identifiers, digests, records and messages.

use vstd::arithmetic::div_mod::lemma_div_denominator;
use vstd::prelude::*;
use vstd::utf8::encode_utf8;

use crate::canonical_json::{
    CanonicalCommittedEvent, CanonicalCommittedPipelineEvent, CanonicalJsonError,
};
use crate::digest::{big_endian, sha256, DigestParseError, Sha256Digest};
use crate::durability::broken_pragma;
use crate::error::StoreError;
use crate::identifier::{
    ulid_text, ArtifactId, EventId, IdentifierError, MessageId, RunId, StageInstanceId,
};
use crate::numeral::{decimal, Alphabet};
use crate::pipeline::PipelineTransitionError;
use crate::stage::{StageEventKind, StageTransitionError};

verus! {

/// Crockford's symbols are the 32 digits and upper-case letters other than I, L, O and U in
/// ascending order, and the hexadecimal ones the 16 digits and lower-case letters up to f; the
/// value of each is its place.
pub proof fn lemma_alphabets(place: int)
    ensures
        Alphabet::Crockford.symbols().len() == 32,
        Alphabet::Hex.symbols().len() == 16,
        Alphabet::Crockford.radix() == 32,
        Alphabet::Hex.radix() == 16,
        forall|i: int, j: int|
            0 <= i < j < 32 ==> #[trigger] Alphabet::Crockford.symbols()[i]
                < #[trigger] Alphabet::Crockford.symbols()[j],
        forall|i: int|
            0 <= i < 32 ==> {
                let symbol = #[trigger] Alphabet::Crockford.symbols()[i];
                &&& ('0' <= symbol <= '9') || ('A' <= symbol <= 'Z')
                &&& symbol != 'I' && symbol != 'L' && symbol != 'O' && symbol != 'U'
            },
        forall|i: int, j: int|
            0 <= i < j < 16 ==> #[trigger] Alphabet::Hex.symbols()[i]
                < #[trigger] Alphabet::Hex.symbols()[j],
        forall|i: int|
            0 <= i < 16 ==> {
                let symbol = #[trigger] Alphabet::Hex.symbols()[i];
                ('0' <= symbol <= '9') || ('a' <= symbol <= 'f')
            },
        0 <= place < 32 ==> Alphabet::Crockford.value_of(Alphabet::Crockford.symbols()[place])
            == place,
        0 <= place < 16 ==> Alphabet::Hex.value_of(Alphabet::Hex.symbols()[place]) == place,
{
    Alphabet::Crockford.lemma_symbols();
    Alphabet::Hex.lemma_symbols();
}

/// `base` to the power of `exponent`.
pub open spec fn raised(base: nat, exponent: nat) -> nat
    decreases exponent,
{
    if exponent == 0 {
        1
    } else {
        base * raised(base, (exponent - 1) as nat)
    }
}

proof fn lemma_raised_is_positive(base: nat, exponent: nat)
    requires
        base > 0,
    ensures
        raised(base, exponent) > 0,
    decreases exponent,
{
    if exponent > 0 {
        lemma_raised_is_positive(base, (exponent - 1) as nat);
        assert(base * raised(base, (exponent - 1) as nat) > 0) by (nonlinear_arith)
            requires
                base > 0,
                raised(base, (exponent - 1) as nat) > 0,
        ;
    }
}

/// A numeral has as many symbols as its width, and the one with `places` symbols behind it is
/// the digit that counts `radix` to the power of `places`.
pub proof fn lemma_numeral_is_positional(alphabet: Alphabet, n: nat, width: nat, places: nat)
    requires
        places < width,
    ensures
        alphabet.write(n, width).len() == width,
        alphabet.write(n, width)[width - 1 - places] == alphabet.symbols()[(n / raised(
            alphabet.radix(),
            places,
        )) as int % alphabet.radix() as int],
    decreases width,
{
    alphabet.lemma_read_write(n, width);
    alphabet.lemma_read_write(n / alphabet.radix(), (width - 1) as nat);
    let radix = alphabet.radix();
    if places == 0 {
        assert(raised(radix, 0) == 1);
        assert(n / raised(radix, 0) == n);
    } else {
        let rest = (places - 1) as nat;
        lemma_numeral_is_positional(alphabet, n / radix, (width - 1) as nat, rest);
        lemma_raised_is_positive(radix, rest);
        lemma_div_denominator(n as int, radix as int, raised(radix, rest) as int);
        assert(n / radix / raised(radix, rest) == n / raised(radix, places));
        assert(alphabet.write(n, width)[width - 1 - places] == alphabet.write(
            n / radix,
            (width - 1) as nat,
        )[width - 1 - places]);
    }
}

/// The number that decimal digits stand for.
pub open spec fn decimal_value(text: Seq<char>) -> int
    decreases text.len(),
{
    if text.len() == 0 {
        0
    } else {
        decimal_value(text.drop_last()) * 10 + (text.last() as int - '0' as int)
    }
}

/// A number in decimal is made of decimal digits that stand for it, and starts with a zero only
/// where it is zero.
pub proof fn lemma_decimal_stands_for_its_number(n: nat)
    ensures
        decimal_value(decimal(n)) == n,
        decimal(n).len() > 0,
        forall|i: int| 0 <= i < decimal(n).len() ==> '0' <= #[trigger] decimal(n)[i] <= '9',
        decimal(n)[0] == '0' ==> n == 0 && decimal(n).len() == 1,
    decreases n,
{
    reveal_with_fuel(decimal_value, 2);
    if n >= 10 {
        lemma_decimal_stands_for_its_number(n / 10);
        assert(decimal(n).drop_last() =~= decimal(n / 10));
        assert(decimal(n)[0] == decimal(n / 10)[0]);
    } else {
        assert(decimal(n).drop_last() =~= Seq::empty());
    }
}

/// An identifier is its prefix and the 26 symbols of its ULID.
pub proof fn lemma_identifier_texts(
    run: RunId,
    stage: StageInstanceId,
    event: EventId,
    message: MessageId,
    artifact: ArtifactId,
)
    ensures
        run.text() == seq!['f', 'l', 'o', 'w', '_'] + ulid_text(run.ulid),
        stage.text() == seq!['s', 't', 'a', 'g', 'e', '_'] + ulid_text(stage.ulid),
        event.text() == seq!['e', 'v', 't', '_'] + ulid_text(event.ulid),
        message.text() == seq!['m', 's', 'g', '_'] + ulid_text(message.ulid),
        artifact.text() == seq!['a', 'r', 't', 'i', 'f', 'a', 'c', 't', '_'] + ulid_text(
            artifact.ulid,
        ),
{
    reveal_strlit("flow_");
    reveal_strlit("stage_");
    reveal_strlit("evt_");
    reveal_strlit("msg_");
    reveal_strlit("artifact_");
    assert("flow_"@ =~= seq!['f', 'l', 'o', 'w', '_']);
    assert("stage_"@ =~= seq!['s', 't', 'a', 'g', 'e', '_']);
    assert("evt_"@ =~= seq!['e', 'v', 't', '_']);
    assert("msg_"@ =~= seq!['m', 's', 'g', '_']);
    assert("artifact_"@ =~= seq!['a', 'r', 't', 'i', 'f', 'a', 'c', 't', '_']);
}

/// A ULID is written in 26 symbols, each the digit of its place.
pub proof fn lemma_ulid_is_positional(ulid: u128)
    ensures
        ulid_text(ulid).len() == 26,
        forall|places: nat|
            places < 26 ==> #[trigger] ulid_text(ulid)[25 - places]
                == Alphabet::Crockford.symbols()[(ulid as nat / raised(32, places)) as int % 32],
{
    lemma_numeral_is_positional(Alphabet::Crockford, ulid as nat, 26, 0);
    assert forall|places: nat| places < 26 implies #[trigger] ulid_text(ulid)[25 - places]
        == Alphabet::Crockford.symbols()[(ulid as nat / raised(32, places)) as int % 32] by {
        lemma_numeral_is_positional(Alphabet::Crockford, ulid as nat, 26, places);
    }
}

/// A text is refused as an identifier exactly where it is that of none; the prefix is blamed
/// exactly where it is not there.
pub proof fn lemma_refused_identifiers(text: Seq<char>)
    ensures
        RunId::parsed(text) is Ok <==> exists|id: RunId| text == #[trigger] id.text(),
        RunId::parsed(text) == Err::<RunId, IdentifierError>(IdentifierError::WrongPrefix)
            <==> !"flow_"@.is_prefix_of(text),
        StageInstanceId::parsed(text) is Ok <==> exists|id: StageInstanceId|
            text == #[trigger] id.text(),
        StageInstanceId::parsed(text) == Err::<StageInstanceId, IdentifierError>(
            IdentifierError::WrongPrefix,
        ) <==> !"stage_"@.is_prefix_of(text),
        EventId::parsed(text) is Ok <==> exists|id: EventId| text == #[trigger] id.text(),
        EventId::parsed(text) == Err::<EventId, IdentifierError>(IdentifierError::WrongPrefix)
            <==> !"evt_"@.is_prefix_of(text),
        MessageId::parsed(text) is Ok <==> exists|id: MessageId| text == #[trigger] id.text(),
        MessageId::parsed(text) == Err::<MessageId, IdentifierError>(
            IdentifierError::WrongPrefix,
        ) <==> !"msg_"@.is_prefix_of(text),
        ArtifactId::parsed(text) is Ok <==> exists|id: ArtifactId| text == #[trigger] id.text(),
        ArtifactId::parsed(text) == Err::<ArtifactId, IdentifierError>(
            IdentifierError::WrongPrefix,
        ) <==> !"artifact_"@.is_prefix_of(text),
{
    if let Ok(id) = RunId::parsed(text) {
        id.lemma_text(text);
    }
    if exists|id: RunId| text == #[trigger] id.text() {
        let id = choose|id: RunId| text == #[trigger] id.text();
        id.lemma_text(text);
    }
    if let Ok(id) = StageInstanceId::parsed(text) {
        id.lemma_text(text);
    }
    if exists|id: StageInstanceId| text == #[trigger] id.text() {
        let id = choose|id: StageInstanceId| text == #[trigger] id.text();
        id.lemma_text(text);
    }
    if let Ok(id) = EventId::parsed(text) {
        id.lemma_text(text);
    }
    if exists|id: EventId| text == #[trigger] id.text() {
        let id = choose|id: EventId| text == #[trigger] id.text();
        id.lemma_text(text);
    }
    if let Ok(id) = MessageId::parsed(text) {
        id.lemma_text(text);
    }
    if exists|id: MessageId| text == #[trigger] id.text() {
        let id = choose|id: MessageId| text == #[trigger] id.text();
        id.lemma_text(text);
    }
    if let Ok(id) = ArtifactId::parsed(text) {
        id.lemma_text(text);
    }
    if exists|id: ArtifactId| text == #[trigger] id.text() {
        let id = choose|id: ArtifactId| text == #[trigger] id.text();
        id.lemma_text(text);
    }
}

/// A text is refused as a digest exactly where it is that of none; the prefix is blamed exactly
/// where it is not there.
pub proof fn lemma_refused_digests(text: Seq<char>)
    ensures
        Sha256Digest::parsed(text) is Ok <==> exists|digest: Sha256Digest|
            text == #[trigger] digest.text(),
        Sha256Digest::parsed(text) == Err::<Sha256Digest, DigestParseError>(
            DigestParseError::WrongPrefix,
        ) <==> !"sha256:"@.is_prefix_of(text),
{
    if let Ok(digest) = Sha256Digest::parsed(text) {
        digest.lemma_text(text);
    }
    if exists|digest: Sha256Digest| text == #[trigger] digest.text() {
        let digest = choose|digest: Sha256Digest| text == #[trigger] digest.text();
        digest.lemma_text(text);
    }
}

proof fn lemma_big_endian_digits(bytes: Seq<u8>, i: int)
    requires
        0 <= i < bytes.len(),
    ensures
        Alphabet::Hex.write(big_endian(bytes), 2 * bytes.len()).len() == 2 * bytes.len(),
        Alphabet::Hex.write(big_endian(bytes), 2 * bytes.len())[2 * i]
            == Alphabet::Hex.symbols()[bytes[i] as int / 16],
        Alphabet::Hex.write(big_endian(bytes), 2 * bytes.len())[2 * i + 1]
            == Alphabet::Hex.symbols()[bytes[i] as int % 16],
    decreases bytes.len(),
{
    let front = bytes.drop_last();
    let n = big_endian(bytes);
    let width = 2 * bytes.len();
    reveal_with_fuel(Alphabet::write, 3);
    Alphabet::Hex.lemma_read_write(n, width);
    assert(n == big_endian(front) * 256 + bytes.last());
    assert(n / 16 / 16 == big_endian(front));
    assert(n % 16 == bytes.last() as int % 16);
    assert(n / 16 % 16 == bytes.last() as int / 16);
    let high = Alphabet::Hex.write(big_endian(front), (width - 2) as nat);
    Alphabet::Hex.lemma_read_write(big_endian(front), (width - 2) as nat);
    assert(Alphabet::Hex.write(n, width) == high.push(
        Alphabet::Hex.symbols()[(n / 16 % 16) as int],
    ).push(Alphabet::Hex.symbols()[(n % 16) as int]));
    if i < front.len() {
        lemma_big_endian_digits(front, i);
        assert(front[i] == bytes[i]);
    }
}

/// The digest of some bytes is their SHA-256 hash, all of it and of all of them: behind
/// `sha256:` its text has the two hexadecimal digits of each byte of the hash.
pub proof fn lemma_digest_shows_the_hash(data: Seq<u8>, i: int)
    requires
        0 <= i < 32,
    ensures
        Sha256Digest::of(data).text().len() == 71,
        Sha256Digest::of(data).text().take(7) == seq!['s', 'h', 'a', '2', '5', '6', ':'],
        sha256(data).len() == 32 ==> Sha256Digest::of(data).text()[7 + 2 * i]
            == Alphabet::Hex.symbols()[sha256(data)[i] as int / 16],
        sha256(data).len() == 32 ==> Sha256Digest::of(data).text()[8 + 2 * i]
            == Alphabet::Hex.symbols()[sha256(data)[i] as int % 16],
{
    reveal_strlit("sha256:");
    let hash = sha256(data);
    let digest = Sha256Digest::of(data);
    let high = hash.subrange(0, 16);
    let low = hash.subrange(16, 32);
    digest.lemma_text(digest.text());
    assert(digest.text().take(7) =~= seq!['s', 'h', 'a', '2', '5', '6', ':']);
    if hash.len() == 32 {
        lemma_sixteen_bytes_fit(high);
        lemma_sixteen_bytes_fit(low);
        lemma_big_endian_digits(high, 0);
        lemma_big_endian_digits(low, 0);
        if i < 16 {
            lemma_big_endian_digits(high, i);
            assert(high[i] == hash[i]);
        } else {
            lemma_big_endian_digits(low, i - 16);
            assert(low[i - 16] == hash[i]);
        }
    }
}

proof fn lemma_big_endian_is_below(bytes: Seq<u8>)
    ensures
        big_endian(bytes) < raised(256, bytes.len()),
    decreases bytes.len(),
{
    if bytes.len() > 0 {
        lemma_big_endian_is_below(bytes.drop_last());
    }
}

proof fn lemma_sixteen_bytes_fit(bytes: Seq<u8>)
    requires
        bytes.len() == 16,
    ensures
        big_endian(bytes) <= u128::MAX,
{
    lemma_big_endian_is_below(bytes);
    reveal_with_fuel(raised, 17);
}

/// A record has canonical JSON exactly where none of its numbers is above 2^53 - 1; then it is
/// the UTF-8 of its text.
pub proof fn lemma_record_in_range(record: CanonicalCommittedEvent)
    ensures
        record.canonical() is Ok <==> {
            &&& record.sequence <= 9007199254740991
            &&& record.prior_control_revision <= 9007199254740991
            &&& record.event.prior_control_revision <= 9007199254740991
            &&& record.event.kind matches StageEventKind::NodeStarted { attempt } ==> attempt
                <= 9007199254740991
        },
        record.canonical() matches Ok(bytes) ==> bytes == encode_utf8(record.text()),
        record.canonical() matches Err(error) ==> error == CanonicalJsonError::NumberOutOfRange,
{
}

/// A pipeline's record has canonical JSON exactly where none of its numbers is above 2^53 - 1;
/// then it is the UTF-8 of its text.
pub proof fn lemma_pipeline_record_in_range(record: CanonicalCommittedPipelineEvent)
    ensures
        record.canonical() is Ok <==> {
            &&& record.sequence <= 9007199254740991
            &&& record.prior_control_revision <= 9007199254740991
            &&& record.event.prior_control_revision <= 9007199254740991
        },
        record.canonical() matches Ok(bytes) ==> bytes == encode_utf8(record.text()),
        record.canonical() matches Err(error) ==> error == CanonicalJsonError::NumberOutOfRange,
{
}

/// A database keeps the durability contract exactly where its journal is a write-ahead log, in
/// whatever case it says so, it synchronises fully, enforces foreign keys and does not trust
/// its schema; otherwise the first setting that it does not keep is named.
pub proof fn lemma_durability_contract(
    mode: Seq<char>,
    synchronous: i64,
    foreign_keys: i64,
    trusted_schema: i64,
)
    ensures
        ({
            let broken = broken_pragma(mode, synchronous, foreign_keys, trusted_schema);
            let wal = mode.len() == 3 && (mode[0] == 'w' || mode[0] == 'W') && (mode[1] == 'a'
                || mode[1] == 'A') && (mode[2] == 'l' || mode[2] == 'L');
            &&& broken is None <==> wal && synchronous == 2 && foreign_keys == 1 && trusted_schema
                == 0
            &&& !wal ==> broken == Some("journal_mode")
            &&& wal && synchronous != 2 ==> broken == Some("synchronous")
            &&& wal && synchronous == 2 && foreign_keys != 1 ==> broken == Some("foreign_keys")
            &&& wal && synchronous == 2 && foreign_keys == 1 && trusted_schema != 0 ==> broken
                == Some("trusted_schema")
        }),
{
}

/// An error that has its reason from elsewhere says what it was told.
pub proof fn lemma_errors_pass_reasons_on(error: StoreError)
    ensures
        match error {
            StoreError::Serialization(reason) => error.text() == reason@,
            StoreError::Canonicalization(inner) => error.text() == inner.text(),
            StoreError::StageTransition(inner) => error.text() == inner.text(),
            StoreError::PipelineTransition(inner) => error.text() == inner.text(),
            StoreError::Identifier(inner) => error.text() == inner.text(),
            StoreError::Digest(inner) => error.text() == inner.text(),
            StoreError::IncompatiblePragma(name) => error.text() == "SQLite "@ + name@
                + " pragma is incompatible with the durability contract"@,
            StoreError::CorruptData(message) => error.text() == message@,
            _ => true,
        },
{
}

/// What each refusal says to a reader.
pub proof fn lemma_refusals_say(
    stage: StageTransitionError,
    pipeline: PipelineTransitionError,
    identifier: IdentifierError,
    digest: DigestParseError,
    json: CanonicalJsonError,
)
    ensures
        stage is WrongStage ==> stage.text() == "event belongs to another stage instance"@,
        stage is StaleRevision ==> stage.text() == "control revision is not current"@,
        stage is RevisionExhausted ==> stage.text() == "control revision is exhausted"@,
        stage is InvalidTransition ==> stage.text() == "stage status does not allow the step"@,
        pipeline is StaleRevision ==> pipeline.text() == "control revision is not current"@,
        pipeline is RevisionExhausted ==> pipeline.text() == "control revision is exhausted"@,
        pipeline is UnknownStage ==> pipeline.text() == "pipeline has no such stage"@,
        pipeline is AlreadyScheduled ==> pipeline.text() == "stage is scheduled already"@,
        pipeline is NeedsOutstanding ==> pipeline.text() == "stage needs are outstanding"@,
        identifier is WrongPrefix ==> identifier.text() == "identifier has the wrong prefix"@,
        identifier is MalformedUlid ==> identifier.text()
            == "identifier does not hold a canonical ULID"@,
        digest is WrongPrefix ==> digest.text() == "digest does not start with sha256:"@,
        digest is MalformedHex ==> digest.text()
            == "digest is not 64 lower-case hexadecimal digits"@,
        json.text() == "number is outside the range of canonical JSON"@,
{
}

/// What a store's error says to a reader where the store itself refuses.
pub proof fn lemma_store_errors_say(error: StoreError)
    ensures
        error is RunAlreadyExists ==> error.text() == "run already exists"@,
        error is RunNotFound ==> error.text() == "run does not exist"@,
        error is StageAlreadyExists ==> error.text() == "stage already exists"@,
        error is InvalidInitialStage ==> error.text()
            == "stage bootstrap state is not a pristine pending state"@,
        error is StageNotFound ==> error.text() == "stage does not exist"@,
        error is StageRunMismatch ==> error.text() == "stage belongs to another run"@,
        error is MessageIdConflict ==> error.text()
            == "message ID was reused with different content"@,
        error is EventIdConflict ==> error.text() == "event ID already exists"@,
        error is ConcurrentUpdate ==> error.text() == "snapshot compare-and-swap failed"@,
        error is EventSequenceExhausted ==> error.text() == "event sequence is exhausted"@,
        error is SnapshotMismatch ==> error.text()
            == "stage snapshot does not match deterministic event replay"@,
        error is InvalidInitialPipeline ==> error.text()
            == "pipeline bootstrap state is not pristine"@,
        error is PipelineRootConflict ==> error.text() == "run already has independent stages"@,
        error is PipelineDefinitionMismatch ==> error.text()
            == "pipeline definition does not match the run"@,
        error is PipelineAlreadyExists ==> error.text() == "pipeline already exists"@,
        error is PipelineNotFound ==> error.text() == "pipeline does not exist"@,
        error is PipelineSnapshotMismatch ==> error.text()
            == "pipeline snapshot does not match deterministic event replay"@,
        error is PipelineStageRegistrationRequired ==> error.text()
            == "stages of a pipeline run are registered by its pipeline"@,
{
}

} // verus!
