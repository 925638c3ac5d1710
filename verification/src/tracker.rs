//! Replay protection for migration imports: remembers the identity
//! `(checksum, version)` of every snapshot that was imported.

use vstd::prelude::*;
use crate::migration::{
    format_label_spec, import_verdict, lemma_new_snapshot_validates, sha256_checksum, ChecksumAlgorithm,
    ExportFormat, MigrationError, SnapshotHeader, MAX_MIGRATION_PAYLOAD_BYTES, MAX_MIGRATION_RECORDS,
    SCHEMA_VERSION,
};

verus! {

/// The identity under which a snapshot is tracked.
pub open spec fn snapshot_identity(header: SnapshotHeader) -> (Seq<char>, u32) {
    (header.checksum@, header.version)
}

/// One recorded import.
#[derive(Debug)]
pub struct ImportedPayload {
    pub checksum: String,
    pub version: u32,
    pub timestamp_ms: u64,
}

/// The identity-to-timestamp map of a list of recorded imports.
pub open spec fn imports_map(s: Seq<ImportedPayload>) -> Map<(Seq<char>, u32), u64>
    decreases s.len(),
{
    if s.len() == 0 {
        Map::empty()
    } else {
        imports_map(s.drop_last()).insert((s.last().checksum@, s.last().version), s.last().timestamp_ms)
    }
}

proof fn lemma_imports_map_dom(s: Seq<ImportedPayload>, k: (Seq<char>, u32))
    ensures
        imports_map(s).contains_key(k) <==> exists|i: int|
            0 <= i < s.len() && (#[trigger] s[i]).checksum@ == k.0 && s[i].version == k.1,
    decreases s.len(),
{
    if s.len() > 0 {
        lemma_imports_map_dom(s.drop_last(), k);
        if imports_map(s).contains_key(k) {
            if k != (s.last().checksum@, s.last().version) {
                let i = choose|i: int|
                    0 <= i < s.drop_last().len() && (#[trigger] s.drop_last()[i]).checksum@ == k.0
                        && s.drop_last()[i].version == k.1;
                assert(s[i] == s.drop_last()[i]);
            } else {
                assert(s[s.len() - 1] == s.last());
            }
        }
        if exists|i: int| 0 <= i < s.len() && (#[trigger] s[i]).checksum@ == k.0 && s[i].version == k.1 {
            let i = choose|i: int| 0 <= i < s.len() && (#[trigger] s[i]).checksum@ == k.0 && s[i].version == k.1;
            if i < s.len() - 1 {
                assert(s.drop_last()[i] == s[i]);
            }
        }
    }
}

/// Tracks imported migration payloads to prevent replay attacks and duplicate restores.
#[derive(Debug)]
pub struct MigrationTracker {
    imported_payloads: Vec<ImportedPayload>,
}

impl View for MigrationTracker {
    type V = Map<(Seq<char>, u32), u64>;

    /// Which snapshot identities were imported, and when.
    closed spec fn view(&self) -> Map<(Seq<char>, u32), u64> {
        imports_map(self.imported_payloads@)
    }
}

/// The state and answer of recording `id` at `ts`: refused as a duplicate
/// when `id` is already known, otherwise added.
pub open spec fn mark_spec(m: Map<(Seq<char>, u32), u64>, id: (Seq<char>, u32), ts: u64) -> (Map<
    (Seq<char>, u32),
    u64,
>, Result<(), MigrationError>) {
    if m.contains_key(id) {
        (m, Err(MigrationError::DuplicateImport))
    } else {
        (m.insert(id, ts), Ok(()))
    }
}

impl Default for MigrationTracker {
    fn default() -> (t: Self)
        ensures
            t@ == Map::<(Seq<char>, u32), u64>::empty(),
    {
        MigrationTracker::new()
    }
}

impl MigrationTracker {
    /// An empty tracker.
    pub fn new() -> (t: Self)
        ensures
            t@ == Map::<(Seq<char>, u32), u64>::empty(),
    {
        let t = MigrationTracker { imported_payloads: Vec::new() };
        proof {
            assert(t.imported_payloads@.len() == 0);
        }
        t
    }

    /// Check if a snapshot with this header has already been imported.
    pub fn is_imported(&self, header: &SnapshotHeader) -> (b: bool)
        ensures
            b == self@.contains_key(snapshot_identity(*header)),
    {
        let n = self.imported_payloads.len();
        proof {
            lemma_imports_map_dom(self.imported_payloads@, snapshot_identity(*header));
        }
        for i in 0..n
            invariant
                n == self.imported_payloads@.len(),
                forall|j: int|
                    0 <= j < i ==> !((#[trigger] self.imported_payloads@[j]).checksum@
                        == header.checksum@ && self.imported_payloads@[j].version == header.version),
        {
            let e = &self.imported_payloads[i];
            if e.version == header.version && e.checksum == header.checksum {
                proof {
                    let k = snapshot_identity(*header);
                    assert(self.imported_payloads@[i as int].checksum@ == k.0);
                    lemma_imports_map_dom(self.imported_payloads@, k);
                }
                return true;
            }
        }
        false
    }

    /// Mark a snapshot as imported at `timestamp_ms`; a snapshot with the
    /// same checksum and version is refused as a duplicate.
    pub fn mark_imported(&mut self, header: &SnapshotHeader, timestamp_ms: u64) -> (r: Result<
        (),
        MigrationError,
    >)
        ensures
            (final(self)@, r) == mark_spec(old(self)@, snapshot_identity(*header), timestamp_ms),
    {
        if self.is_imported(header) {
            return Err(MigrationError::DuplicateImport);
        }
        let entry = ImportedPayload {
            checksum: header.checksum.clone(),
            version: header.version,
            timestamp_ms,
        };
        let ghost before = self.imported_payloads@;
        self.imported_payloads.push(entry);
        proof {
            assert(self.imported_payloads@.drop_last() =~= before);
        }
        Ok(())
    }
}

/// The checks an import makes once the snapshot bytes were deserialized:
/// the snapshot is validated (version window, payload bounds, checksum over
/// its canonical payload bytes) and then recorded in `tracker`, which refuses
/// a snapshot already imported. A refused import leaves the tracker as it was.
pub fn accept_import(
    header: &SnapshotHeader,
    record_count: usize,
    payload_bytes: &[u8],
    tracker: &mut MigrationTracker,
    timestamp_ms: u64,
) -> (r: Result<(), MigrationError>)
    ensures
        import_verdict(*header, record_count, payload_bytes@) is Err ==> r == import_verdict(
            *header,
            record_count,
            payload_bytes@,
        ) && final(tracker)@ == old(tracker)@,
        import_verdict(*header, record_count, payload_bytes@) is Ok ==> (final(tracker)@, r)
            == mark_spec(old(tracker)@, snapshot_identity(*header), timestamp_ms),
{
    let v = header.validate_for_import(record_count, payload_bytes);
    if v.is_err() {
        return v;
    }
    tracker.mark_imported(header, timestamp_ms)
}

/// Importing a fresh snapshot: a header built by `new_snapshot_header` over
/// canonical payload bytes within bounds passes validation, so
/// `accept_import` through a tracker that has not seen the snapshot records
/// it under its checksum and version and answers `Ok`.
pub proof fn lemma_fresh_snapshot_imports(
    format: ExportFormat,
    payload: Seq<u8>,
    record_count: usize,
    h: SnapshotHeader,
    m: Map<(Seq<char>, u32), u64>,
    ts: u64,
)
    requires
        h.version == SCHEMA_VERSION,
        h.hash_algorithm == ChecksumAlgorithm::Sha256,
        h.format@ == format_label_spec(format),
        h.checksum@ == sha256_checksum(SCHEMA_VERSION, format_label_spec(format), payload),
        record_count <= MAX_MIGRATION_RECORDS,
        payload.len() <= MAX_MIGRATION_PAYLOAD_BYTES,
        !m.contains_key(snapshot_identity(h)),
    ensures
        import_verdict(h, record_count, payload) == Ok::<(), MigrationError>(()),
        mark_spec(m, snapshot_identity(h), ts) == (
            m.insert(snapshot_identity(h), ts),
            Ok::<(), MigrationError>(()),
        ),
{
    lemma_new_snapshot_validates(format, payload, record_count, h);
}

/// Replay protection: once a snapshot identity has been recorded, a second
/// attempt to record it is refused and leaves the tracker unchanged, whatever
/// the timestamps.
pub proof fn lemma_replay_refused(
    m: Map<(Seq<char>, u32), u64>,
    id: (Seq<char>, u32),
    first_ts: u64,
    second_ts: u64,
)
    requires
        mark_spec(m, id, first_ts).1 is Ok,
    ensures
        mark_spec(mark_spec(m, id, first_ts).0, id, second_ts) == (
            mark_spec(m, id, first_ts).0,
            Err::<(), MigrationError>(MigrationError::DuplicateImport),
        ),
{
}

/// Identities differ by version too: recording the same checksum under two
/// different versions succeeds both times.
pub proof fn lemma_versions_tracked_apart(
    m: Map<(Seq<char>, u32), u64>,
    checksum: Seq<char>,
    v1: u32,
    v2: u32,
    t1: u64,
    t2: u64,
)
    requires
        v1 != v2,
        !m.contains_key((checksum, v1)),
        !m.contains_key((checksum, v2)),
    ensures
        mark_spec(m, (checksum, v1), t1).1 is Ok,
        mark_spec(mark_spec(m, (checksum, v1), t1).0, (checksum, v2), t2).1 is Ok,
{
}

} // verus!
