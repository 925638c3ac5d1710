//! Snapshot import/export guards for contract data migration: version
//! windows, payload and snapshot size limits, checksums that bind the schema
//! version, the format label and the canonical payload bytes, and replay
//! tracking of imported snapshots.

use vstd::prelude::*;
use vstd::string::*;
use vstd::utf8::*;
use crate::hex;
use crate::text::{decimal_string, push_decimal, spec_decimal};

verus! {

/// Current snapshot schema version for migration compatibility.
pub const SCHEMA_VERSION: u32 = 1;

/// Minimum supported schema version for import.
pub const MIN_SUPPORTED_VERSION: u32 = 1;

/// Alias used in snapshot headers to keep naming consistent with other contracts.
pub const SNAPSHOT_SCHEMA_VERSION: u32 = SCHEMA_VERSION;

/// Maximum allowed canonical payload size for migration snapshots (64 KiB).
pub const MAX_MIGRATION_PAYLOAD_BYTES: usize = 65536;

/// Maximum allowed number of logical records in a migration payload.
pub const MAX_MIGRATION_RECORDS: usize = 1024;

/// Maximum allowed serialized snapshot size accepted by JSON and binary
/// imports: the payload limit plus 32 KiB of envelope.
pub const MAX_MIGRATION_SNAPSHOT_BYTES: usize = 98304;

/// Algorithm used to compute the snapshot checksum.
#[derive(Debug, Clone, Copy, PartialEq, Eq, Structural)]
#[non_exhaustive]
pub enum ChecksumAlgorithm {
    /// SHA-256 over `version_le_bytes || format_utf8_bytes || canonical_payload_json`.
    Sha256,
    /// Legacy checksum used by older snapshots.
    Simple,
}

impl Default for ChecksumAlgorithm {
    /// Snapshots that carry no algorithm are legacy ones.
    fn default() -> (r: Self)
        ensures
            r == ChecksumAlgorithm::Simple,
    {
        ChecksumAlgorithm::Simple
    }
}

/// Base migration event containing metadata about the migration operation.
#[derive(Debug, Clone, PartialEq, Eq)]
pub struct MigrationEventV1 {
    pub contract_id: String,
    pub migration_type: String,
    pub version: u32,
    pub timestamp_ms: u64,
}

/// Versioned migration event payload meant for indexing and historical tracking.
#[derive(Debug, Clone, PartialEq, Eq)]
pub enum MigrationEvent {
    V1(MigrationEventV1),
}

/// Export format for snapshot data.
#[derive(Debug, Clone, Copy, PartialEq, Eq, Structural)]
pub enum ExportFormat {
    Json,
    Binary,
    Csv,
    Encrypted,
}

/// Snapshot header with version, checksum, and hash algorithm for integrity.
#[derive(Debug, Clone)]
pub struct SnapshotHeader {
    pub version: u32,
    pub checksum: String,
    pub hash_algorithm: ChecksumAlgorithm,
    pub format: String,
    pub created_at_ms: Option<u64>,
}

/// Exportable remittance split config.
#[derive(Debug, Clone, PartialEq, Eq)]
pub struct RemittanceSplitExport {
    pub owner: String,
    pub spending_percent: u32,
    pub savings_percent: u32,
    pub bills_percent: u32,
    pub insurance_percent: u32,
}

/// One exportable savings goal.
#[derive(Debug, Clone, PartialEq, Eq)]
pub struct SavingsGoalExport {
    pub id: u32,
    pub owner: String,
    pub name: String,
    pub target_amount: i64,
    pub current_amount: i64,
    pub target_date: u64,
    pub locked: bool,
}

/// Exportable savings goals list.
#[derive(Debug, Clone, PartialEq, Eq)]
pub struct SavingsGoalsExport {
    pub next_id: u32,
    pub goals: Vec<SavingsGoalExport>,
}

/// Rollback metadata (for migration scripts to record last good state).
#[derive(Debug, Clone)]
pub struct RollbackMetadata {
    pub previous_version: u32,
    pub previous_checksum: String,
    pub timestamp_ms: u64,
}

/// Migration/import errors.
#[derive(Debug, Clone, PartialEq, Eq)]
#[allow(inconsistent_fields)]
pub enum MigrationError {
    IncompatibleVersion { found: u32, min: u32, max: u32 },
    ChecksumMismatch,
    UnknownHashAlgorithm,
    PayloadTooLarge { size: usize, max: usize },
    SnapshotTooLarge { size: usize, max: usize },
    TooManyRecords { count: usize, max: usize },
    InvalidFormat(String),
    ValidationFailed(String),
    DeserializeError(String),
    DuplicateImport,
}

/// The human-readable message of a migration error.
pub open spec fn error_message(e: MigrationError) -> Seq<char> {
    match e {
        MigrationError::IncompatibleVersion { found, min, max } => "incompatible version "@
            + spec_decimal(found as nat) + " (supported "@ + spec_decimal(min as nat) + "-"@
            + spec_decimal(max as nat) + ")"@,
        MigrationError::ChecksumMismatch => "checksum mismatch: snapshot integrity could not be verified"@,
        MigrationError::UnknownHashAlgorithm => "unknown hash algorithm: cannot verify snapshot integrity"@,
        MigrationError::PayloadTooLarge { size, max } => "payload too large: "@ + spec_decimal(
            size as nat,
        ) + " bytes (max "@ + spec_decimal(max as nat) + ")"@,
        MigrationError::SnapshotTooLarge { size, max } => "snapshot too large: "@ + spec_decimal(
            size as nat,
        ) + " bytes (max "@ + spec_decimal(max as nat) + ")"@,
        MigrationError::TooManyRecords { count, max } => "too many records: "@ + spec_decimal(
            count as nat,
        ) + " (max "@ + spec_decimal(max as nat) + ")"@,
        MigrationError::InvalidFormat(s) => "invalid format: "@ + s@,
        MigrationError::ValidationFailed(s) => "validation failed: "@ + s@,
        MigrationError::DeserializeError(s) => "deserialize error: "@ + s@,
        MigrationError::DuplicateImport => "duplicate payload import detected"@,
    }
}

impl MigrationError {
    /// The human-readable message of this error.
    pub fn to_string(&self) -> (s: String)
        ensures
            s@ == error_message(*self),
    {
        match self {
            MigrationError::IncompatibleVersion { found, min, max } => {
                let mut s = String::from_str("incompatible version ");
                push_decimal(&mut s, *found as u64);
                s.append(" (supported ");
                push_decimal(&mut s, *min as u64);
                s.append("-");
                push_decimal(&mut s, *max as u64);
                s.append(")");
                s
            },
            MigrationError::ChecksumMismatch => String::from_str(
                "checksum mismatch: snapshot integrity could not be verified",
            ),
            MigrationError::UnknownHashAlgorithm => String::from_str(
                "unknown hash algorithm: cannot verify snapshot integrity",
            ),
            MigrationError::PayloadTooLarge { size, max } => {
                let mut s = String::from_str("payload too large: ");
                push_decimal(&mut s, *size as u64);
                s.append(" bytes (max ");
                push_decimal(&mut s, *max as u64);
                s.append(")");
                s
            },
            MigrationError::SnapshotTooLarge { size, max } => {
                let mut s = String::from_str("snapshot too large: ");
                push_decimal(&mut s, *size as u64);
                s.append(" bytes (max ");
                push_decimal(&mut s, *max as u64);
                s.append(")");
                s
            },
            MigrationError::TooManyRecords { count, max } => {
                let mut s = String::from_str("too many records: ");
                push_decimal(&mut s, *count as u64);
                s.append(" (max ");
                push_decimal(&mut s, *max as u64);
                s.append(")");
                s
            },
            MigrationError::InvalidFormat(m) => {
                let mut s = String::from_str("invalid format: ");
                s.append(m.as_str());
                s
            },
            MigrationError::ValidationFailed(m) => {
                let mut s = String::from_str("validation failed: ");
                s.append(m.as_str());
                s
            },
            MigrationError::DeserializeError(m) => {
                let mut s = String::from_str("deserialize error: ");
                s.append(m.as_str());
                s
            },
            MigrationError::DuplicateImport => String::from_str("duplicate payload import detected"),
        }
    }
}

// ---------------------------------------------------------------------------
// Version window and size guards
// ---------------------------------------------------------------------------

/// Whether `version` lies in the supported import window.
pub open spec fn version_supported(version: u32) -> bool {
    MIN_SUPPORTED_VERSION <= version <= SCHEMA_VERSION
}

/// Version compatibility check for migration scripts.
pub fn check_version_compatibility(version: u32) -> (r: Result<(), MigrationError>)
    ensures
        r is Ok <==> version_supported(version),
        r is Err ==> r == Err::<(), MigrationError>(
            MigrationError::IncompatibleVersion {
                found: version,
                min: MIN_SUPPORTED_VERSION,
                max: SCHEMA_VERSION,
            },
        ),
{
    if version >= MIN_SUPPORTED_VERSION && version <= SCHEMA_VERSION {
        Ok(())
    } else {
        Err(
            MigrationError::IncompatibleVersion {
                found: version,
                min: MIN_SUPPORTED_VERSION,
                max: SCHEMA_VERSION,
            },
        )
    }
}

/// Checks a payload's logical record count and canonical byte length:
/// the record count is checked first.
pub fn validate_payload_bounds(record_count: usize, payload_len: usize) -> (r: Result<
    (),
    MigrationError,
>)
    ensures
        record_count > MAX_MIGRATION_RECORDS ==> r == Err::<(), MigrationError>(
            MigrationError::TooManyRecords { count: record_count, max: MAX_MIGRATION_RECORDS },
        ),
        record_count <= MAX_MIGRATION_RECORDS && payload_len > MAX_MIGRATION_PAYLOAD_BYTES ==> r
            == Err::<(), MigrationError>(
            MigrationError::PayloadTooLarge { size: payload_len, max: MAX_MIGRATION_PAYLOAD_BYTES },
        ),
        r is Ok <==> record_count <= MAX_MIGRATION_RECORDS && payload_len
            <= MAX_MIGRATION_PAYLOAD_BYTES,
{
    if record_count > MAX_MIGRATION_RECORDS {
        return Err(
            MigrationError::TooManyRecords { count: record_count, max: MAX_MIGRATION_RECORDS },
        );
    }
    if payload_len > MAX_MIGRATION_PAYLOAD_BYTES {
        return Err(
            MigrationError::PayloadTooLarge { size: payload_len, max: MAX_MIGRATION_PAYLOAD_BYTES },
        );
    }
    Ok(())
}

/// Checks the size of a whole serialized snapshot before it is parsed.
pub fn validate_snapshot_size(snapshot_len: usize) -> (r: Result<(), MigrationError>)
    ensures
        r is Ok <==> snapshot_len <= MAX_MIGRATION_SNAPSHOT_BYTES,
        r is Err ==> r == Err::<(), MigrationError>(
            MigrationError::SnapshotTooLarge { size: snapshot_len, max: MAX_MIGRATION_SNAPSHOT_BYTES },
        ),
{
    if snapshot_len > MAX_MIGRATION_SNAPSHOT_BYTES {
        return Err(
            MigrationError::SnapshotTooLarge { size: snapshot_len, max: MAX_MIGRATION_SNAPSHOT_BYTES },
        );
    }
    Ok(())
}

/// The logical record count of a payload: one for a remittance split, the
/// number of goals for a savings export, the number of entries otherwise.
pub fn savings_record_count(export: &SavingsGoalsExport) -> (n: usize)
    ensures
        n == export.goals@.len(),
{
    export.goals.len()
}

// ---------------------------------------------------------------------------
// Format labels
// ---------------------------------------------------------------------------

/// The label written into a snapshot header for each export format.
pub open spec fn format_label_spec(format: ExportFormat) -> Seq<char> {
    match format {
        ExportFormat::Json => seq!['j', 's', 'o', 'n'],
        ExportFormat::Binary => seq!['b', 'i', 'n', 'a', 'r', 'y'],
        ExportFormat::Csv => seq!['c', 's', 'v'],
        ExportFormat::Encrypted => seq!['e', 'n', 'c', 'r', 'y', 'p', 't', 'e', 'd'],
    }
}

/// The header label of an export format.
pub fn format_label(format: ExportFormat) -> (s: String)
    ensures
        s@ == format_label_spec(format),
{
    match format {
        ExportFormat::Json => {
            proof {
                reveal_strlit("json");
            }
            String::from_str("json")
        },
        ExportFormat::Binary => {
            proof {
                reveal_strlit("binary");
            }
            String::from_str("binary")
        },
        ExportFormat::Csv => {
            proof {
                reveal_strlit("csv");
            }
            String::from_str("csv")
        },
        ExportFormat::Encrypted => {
            proof {
                reveal_strlit("encrypted");
            }
            String::from_str("encrypted")
        },
    }
}

// ---------------------------------------------------------------------------
// Checksums
// ---------------------------------------------------------------------------

/// What SHA-256 returns for a byte string.
pub uninterp spec fn sha256_digest(data: Seq<u8>) -> Seq<u8>;

/// `sha2::Sha256::digest`: the 32-byte SHA-256 digest of `data`; the result
/// is named, and only its length is stated beyond that.
#[verifier::external_body]
fn sha256(data: &[u8]) -> (r: Vec<u8>)
    ensures
        r@ == sha256_digest(data@),
        r@.len() == 32,
{
    <sha2::Sha256 as sha2::Digest>::digest(data).to_vec()
}

/// Little-endian bytes of a `u32`.
pub open spec fn le_bytes_u32(v: u32) -> Seq<u8> {
    seq![
        (v % 256) as u8,
        ((v / 256) % 256) as u8,
        ((v / 65536) % 256) as u8,
        ((v / 16777216) % 256) as u8,
    ]
}

/// The bytes a checksum is computed over:
/// `version_le_bytes || format_utf8_bytes || payload`.
pub open spec fn checksum_preimage(version: u32, format: Seq<char>, payload: Seq<u8>) -> Seq<u8> {
    le_bytes_u32(version) + encode_utf8(format) + payload
}

/// Sum of the bytes of `s`, as an unbounded number.
pub open spec fn byte_sum(s: Seq<u8>) -> nat
    decreases s.len(),
{
    if s.len() == 0 {
        0
    } else {
        byte_sum(s.drop_last()) + (s.last() as nat)
    }
}

/// 2^64, the modulus of the wrapping byte sums.
pub open spec fn two_pow_64() -> nat {
    0x1_0000_0000_0000_0000
}

/// SHA-256 checksum text (lower-case hex) of a snapshot's parts.
pub open spec fn sha256_checksum(version: u32, format: Seq<char>, payload: Seq<u8>) -> Seq<char> {
    hex::spec_hex(sha256_digest(checksum_preimage(version, format, payload)))
}

/// The `Simple` checksum: decimal wrapping sum of the preimage bytes.
pub open spec fn simple_checksum(version: u32, format: Seq<char>, payload: Seq<u8>) -> Seq<char> {
    spec_decimal(byte_sum(checksum_preimage(version, format, payload)) % two_pow_64())
}

/// The oldest checksum: decimal wrapping sum of the payload bytes alone.
pub open spec fn legacy_simple_checksum_spec(payload: Seq<u8>) -> Seq<char> {
    spec_decimal(byte_sum(payload) % two_pow_64())
}

/// Whether a header's checksum matches the payload under its algorithm;
/// `Simple` headers may carry either the versioned or the legacy sum.
pub open spec fn checksum_valid(header: SnapshotHeader, payload: Seq<u8>) -> bool {
    match header.hash_algorithm {
        ChecksumAlgorithm::Sha256 => header.checksum@ == sha256_checksum(
            header.version,
            header.format@,
            payload,
        ),
        ChecksumAlgorithm::Simple => header.checksum@ == simple_checksum(
            header.version,
            header.format@,
            payload,
        ) || header.checksum@ == legacy_simple_checksum_spec(payload),
    }
}

fn push_all(dst: &mut Vec<u8>, src: &[u8])
    ensures
        final(dst)@ == old(dst)@ + src@,
{
    let n = src.len();
    for i in 0..n
        invariant
            n == src@.len(),
            dst@ == old(dst)@ + src@.take(i as int),
    {
        dst.push(src[i]);
        proof {
            assert(src@.take(i + 1) =~= src@.take(i as int).push(src@[i as int]));
            assert(dst@ =~= old(dst)@ + src@.take(i + 1));
        }
    }
    proof {
        assert(src@.take(n as int) =~= src@);
    }
}

fn preimage(version: u32, format: &str, payload_bytes: &[u8]) -> (r: Vec<u8>)
    ensures
        r@ == checksum_preimage(version, format@, payload_bytes@),
{
    let mut v: Vec<u8> = Vec::new();
    v.push((version % 256) as u8);
    v.push(((version / 256) % 256) as u8);
    v.push(((version / 65536) % 256) as u8);
    v.push(((version / 16777216) % 256) as u8);
    proof {
        assert(v@ =~= le_bytes_u32(version));
    }
    push_all(&mut v, format.as_bytes());
    push_all(&mut v, payload_bytes);
    proof {
        assert(v@ =~= checksum_preimage(version, format@, payload_bytes@));
    }
    v
}

/// Wrapping (mod 2^64) sum of the bytes.
fn wrapping_byte_sum(data: &[u8]) -> (acc: u64)
    ensures
        acc == byte_sum(data@) % two_pow_64(),
{
    let mut acc: u64 = 0;
    let n = data.len();
    proof {
        assert(data@.take(0) =~= Seq::<u8>::empty());
        assert(byte_sum(data@.take(0)) == 0);
    }
    for i in 0..n
        invariant
            n == data@.len(),
            acc == byte_sum(data@.take(i as int)) % two_pow_64(),
    {
        let b = data[i];
        let old_acc = acc;
        acc = acc.wrapping_add(b as u64);
        proof {
            let pre = data@.take(i as int);
            assert(data@.take(i + 1).drop_last() =~= pre);
            assert(byte_sum(data@.take(i + 1)) == byte_sum(pre) + b);
            vstd::arithmetic::div_mod::lemma_add_mod_noop(
                byte_sum(pre) as int,
                b as int,
                two_pow_64() as int,
            );
            vstd::arithmetic::div_mod::lemma_small_mod(b as nat, two_pow_64());
            if old_acc + b > u64::MAX {
                let y = (old_acc + b) as int;
                vstd::arithmetic::div_mod::lemma_mod_sub_multiples_vanish(y, two_pow_64() as int);
                vstd::arithmetic::div_mod::lemma_small_mod(
                    (y - two_pow_64()) as nat,
                    two_pow_64(),
                );
            } else {
                vstd::arithmetic::div_mod::lemma_small_mod((old_acc + b) as nat, two_pow_64());
            }
        }
    }
    proof {
        assert(data@.take(n as int) =~= data@);
    }
    acc
}

/// SHA-256 checksum of a snapshot's parts, as lower-case hex.
pub fn checksum_for_parts(version: u32, format: &str, payload_bytes: &[u8]) -> (s: String)
    ensures
        s@ == sha256_checksum(version, format@, payload_bytes@),
        s@.len() == 64,
{
    let pre = preimage(version, format, payload_bytes);
    let digest = sha256(pre.as_slice());
    hex::encode(digest.as_slice())
}

/// The `Simple` checksum of a snapshot's parts.
pub fn simple_checksum_for_parts(version: u32, format: &str, payload_bytes: &[u8]) -> (s: String)
    ensures
        s@ == simple_checksum(version, format@, payload_bytes@),
{
    let pre = preimage(version, format, payload_bytes);
    decimal_string(wrapping_byte_sum(pre.as_slice()))
}

/// The legacy checksum: the wrapping sum of the payload bytes alone.
pub fn legacy_simple_checksum(payload_bytes: &[u8]) -> (s: String)
    ensures
        s@ == legacy_simple_checksum_spec(payload_bytes@),
{
    decimal_string(wrapping_byte_sum(payload_bytes))
}

impl SnapshotHeader {
    /// Compute the SHA-256 checksum for this header's version and format over
    /// the given canonical payload bytes.
    pub fn compute_checksum(&self, payload_bytes: &[u8]) -> (s: String)
        ensures
            s@ == sha256_checksum(self.version, self.format@, payload_bytes@),
            s@.len() == 64,
    {
        checksum_for_parts(self.version, self.format.as_str(), payload_bytes)
    }

    /// Verify that the stored checksum matches the canonical payload bytes.
    pub fn verify_checksum(&self, payload_bytes: &[u8]) -> (b: bool)
        ensures
            b == checksum_valid(*self, payload_bytes@),
    {
        match self.hash_algorithm {
            ChecksumAlgorithm::Sha256 => {
                let c = self.compute_checksum(payload_bytes);
                self.checksum == c
            },
            ChecksumAlgorithm::Simple => {
                let expected = simple_checksum_for_parts(
                    self.version,
                    self.format.as_str(),
                    payload_bytes,
                );
                if self.checksum == expected {
                    true
                } else {
                    let legacy = legacy_simple_checksum(payload_bytes);
                    self.checksum == legacy
                }
            },
        }
    }

    /// Check if the snapshot version is supported for import.
    pub fn is_version_compatible(&self) -> (b: bool)
        ensures
            b == version_supported(self.version),
    {
        self.version >= MIN_SUPPORTED_VERSION && self.version <= SCHEMA_VERSION
    }

    /// Validate a snapshot for import, in order: version window, payload
    /// bounds, checksum.
    pub fn validate_for_import(&self, record_count: usize, payload_bytes: &[u8]) -> (r: Result<
        (),
        MigrationError,
    >)
        ensures
            r == import_verdict(*self, record_count, payload_bytes@),
    {
        if !self.is_version_compatible() {
            return Err(
                MigrationError::IncompatibleVersion {
                    found: self.version,
                    min: MIN_SUPPORTED_VERSION,
                    max: SCHEMA_VERSION,
                },
            );
        }
        let b = validate_payload_bounds(record_count, payload_bytes.len());
        if b.is_err() {
            return b;
        }
        if !self.verify_checksum(payload_bytes) {
            return Err(MigrationError::ChecksumMismatch);
        }
        Ok(())
    }
}

/// What validating a snapshot for import answers: the first failing check
/// among version window, record count, payload size and checksum.
pub open spec fn import_verdict(header: SnapshotHeader, record_count: usize, payload: Seq<u8>) -> Result<
    (),
    MigrationError,
> {
    if !version_supported(header.version) {
        Err(
            MigrationError::IncompatibleVersion {
                found: header.version,
                min: MIN_SUPPORTED_VERSION,
                max: SCHEMA_VERSION,
            },
        )
    } else if record_count > MAX_MIGRATION_RECORDS {
        Err(MigrationError::TooManyRecords { count: record_count, max: MAX_MIGRATION_RECORDS })
    } else if payload.len() > MAX_MIGRATION_PAYLOAD_BYTES {
        Err(
            MigrationError::PayloadTooLarge {
                size: payload.len() as usize,
                max: MAX_MIGRATION_PAYLOAD_BYTES,
            },
        )
    } else if !checksum_valid(header, payload) {
        Err(MigrationError::ChecksumMismatch)
    } else {
        Ok(())
    }
}

/// Build the header of a new snapshot: current schema version, SHA-256
/// algorithm, the format's label and the checksum over the canonical payload
/// bytes (an empty checksum when the payload could not be serialized).
pub fn new_snapshot_header(format: ExportFormat, payload_bytes: Option<&[u8]>) -> (h: SnapshotHeader)
    ensures
        h.version == SCHEMA_VERSION,
        h.hash_algorithm == ChecksumAlgorithm::Sha256,
        h.format@ == format_label_spec(format),
        h.created_at_ms is None,
        match payload_bytes {
            Some(p) => h.checksum@ == sha256_checksum(SCHEMA_VERSION, format_label_spec(format), p@)
                && h.checksum@.len() == 64,
            None => h.checksum@ == Seq::<char>::empty(),
        },
{
    let format_str = format_label(format);
    let checksum = match payload_bytes {
        Some(p) => checksum_for_parts(SCHEMA_VERSION, format_str.as_str(), p),
        None => String::new(),
    };
    SnapshotHeader {
        version: SCHEMA_VERSION,
        checksum,
        hash_algorithm: ChecksumAlgorithm::Sha256,
        format: format_str,
        created_at_ms: None,
    }
}

/// A freshly built snapshot passes import validation whenever its payload is
/// within bounds: its version is current and its checksum verifies.
pub proof fn lemma_new_snapshot_validates(format: ExportFormat, payload: Seq<u8>, record_count: usize, h: SnapshotHeader)
    requires
        h.version == SCHEMA_VERSION,
        h.hash_algorithm == ChecksumAlgorithm::Sha256,
        h.format@ == format_label_spec(format),
        h.checksum@ == sha256_checksum(SCHEMA_VERSION, format_label_spec(format), payload),
        record_count <= MAX_MIGRATION_RECORDS,
        payload.len() <= MAX_MIGRATION_PAYLOAD_BYTES,
    ensures
        checksum_valid(h, payload),
        import_verdict(h, record_count, payload) == Ok::<(), MigrationError>(()),
{
}

/// Legacy snapshots keep importing: a `Simple` header whose checksum is the
/// decimal text of the wrapping (mod 2^64) sum of the payload bytes alone
/// verifies against that payload, as does one carrying the sum over version,
/// format and payload; with a supported version and a payload within bounds
/// either passes import validation.
pub proof fn lemma_simple_checksums_accepted(h: SnapshotHeader, payload: Seq<u8>, record_count: usize)
    requires
        h.hash_algorithm == ChecksumAlgorithm::Simple,
        h.checksum@ == spec_decimal(byte_sum(payload) % 0x1_0000_0000_0000_0000nat) || h.checksum@
            == spec_decimal(
            byte_sum(le_bytes_u32(h.version) + encode_utf8(h.format@) + payload) % 0x1_0000_0000_0000_0000nat,
        ),
    ensures
        checksum_valid(h, payload),
        MIN_SUPPORTED_VERSION <= h.version <= SCHEMA_VERSION && record_count <= MAX_MIGRATION_RECORDS
            && payload.len() <= MAX_MIGRATION_PAYLOAD_BYTES ==> import_verdict(h, record_count, payload)
            == Ok::<(), MigrationError>(()),
{
}

} // verus!
