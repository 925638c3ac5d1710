//! CSV export and import of savings goals, with spreadsheet formula
//! injection guarded on both sides.

use vstd::prelude::*;
use vstd::string::*;
use vstd::utf8::*;
use crate::migration::{
    validate_payload_bounds, MigrationError, SavingsGoalExport, SavingsGoalsExport,
    MAX_MIGRATION_PAYLOAD_BYTES, MAX_MIGRATION_RECORDS,
};
use crate::text::{
    bool_string, decimal_string, push_char, signed_decimal_string, spec_bool_text, spec_decimal,
    spec_signed_decimal, string_of_chars,
};

verus! {

// ---------------------------------------------------------------------------
// Formula-injection escaping
// ---------------------------------------------------------------------------

/// Characters with which a spreadsheet starts a formula.
pub open spec fn is_formula_start(c: char) -> bool {
    c == '=' || c == '+' || c == '-' || c == '@'
}

/// A field made safe for spreadsheets: prefixed with `'` when it starts a formula.
pub open spec fn sanitize_spec(s: Seq<char>) -> Seq<char> {
    if s.len() > 0 && is_formula_start(s[0]) {
        seq!['\''] + s
    } else {
        s
    }
}

/// A field read back from CSV: a `'` in front of a formula character is removed.
pub open spec fn strip_spec(s: Seq<char>) -> Seq<char> {
    if s.len() >= 2 && s[0] == '\'' && is_formula_start(s[1]) {
        s.subrange(1, s.len() as int)
    } else {
        s
    }
}

fn formula_start(c: char) -> (b: bool)
    ensures
        b == is_formula_start(c),
{
    c == '=' || c == '+' || c == '-' || c == '@'
}

/// Sanitize a CSV field to prevent formula injection: fields beginning with
/// `=`, `+`, `-` or `@` get a leading single quote.
pub fn sanitize_csv_field(field: &str) -> (r: String)
    ensures
        r@ == sanitize_spec(field@),
{
    let n = field.unicode_len();
    if n > 0 && formula_start(field.get_char(0)) {
        let mut s = String::new();
        push_char(&mut s, '\'');
        s.append(field);
        proof {
            assert(s@ =~= seq!['\''] + field@);
        }
        s
    } else {
        String::from_str(field)
    }
}

/// Undo the escaping of `sanitize_csv_field` on a field read from CSV.
pub fn strip_csv_formula_prefix(value: &str) -> (r: String)
    ensures
        r@ == strip_spec(value@),
{
    let n = value.unicode_len();
    if n >= 2 && value.get_char(0) == '\'' && formula_start(value.get_char(1)) {
        String::from_str(value.substring_char(1, n))
    } else {
        String::from_str(value)
    }
}

/// Escaping then reading back gives the field unchanged, for every field that
/// does not itself start with a quote followed by a formula character.
pub proof fn lemma_strip_undoes_sanitize(s: Seq<char>)
    requires
        !(s.len() >= 2 && s[0] == '\'' && is_formula_start(s[1])),
    ensures
        strip_spec(sanitize_spec(s)) == s,
{
    if s.len() > 0 && is_formula_start(s[0]) {
        let t = seq!['\''] + s;
        assert(t[0] == '\'');
        assert(t[1] == s[0]);
        assert(t.subrange(1, t.len() as int) =~= s);
    }
}

// ---------------------------------------------------------------------------
// The csv writer
// ---------------------------------------------------------------------------

/// A `csv::Writer` over an in-memory byte buffer, held in a private field;
/// what it has written is known through `csv_rows`.
#[verifier::external_body]
pub struct CsvSink {
    inner: csv::Writer<Vec<u8>>,
}

/// The records a csv writer has written so far, each a list of field bytes.
pub uninterp spec fn csv_rows(w: CsvSink) -> Seq<Seq<Seq<u8>>>;

/// The bytes `csv::Writer::into_inner` hands back after the given records
/// were written (quoting and line endings as the csv crate does them).
pub uninterp spec fn csv_document(rows: Seq<Seq<Seq<u8>>>) -> Seq<u8>;

/// The UTF-8 bytes of each field of a record.
pub open spec fn record_bytes(fields: Seq<String>) -> Seq<Seq<u8>> {
    fields.map_values(|f: String| encode_utf8(f@))
}

/// `csv::Writer::from_writer(Vec::new())`: a writer over an empty buffer,
/// with no record written.
#[verifier::external_body]
fn csv_writer_new() -> (w: CsvSink)
    ensures
        csv_rows(w) == Seq::<Seq<Seq<u8>>>::empty(),
{
    CsvSink { inner: csv::Writer::from_writer(Vec::new()) }
}

/// `csv::Writer::write_record` on a writer over a `Vec<u8>`. Writing into a
/// vector cannot fail, so the write fails exactly when the record's field
/// count differs from that of the first record (the writer is not flexible).
/// A failed write leaves a partial record buffered in the writer, so the sink
/// is consumed and dropped on failure; on success it is handed back with the
/// record (the fields' bytes) appended.
#[verifier::external_body]
fn csv_write_record(w: CsvSink, fields: &Vec<String>) -> (r: Result<CsvSink, String>)
    requires
        fields@.len() > 0,
    ensures
        r is Ok <==> (csv_rows(w).len() == 0 || csv_rows(w)[0].len() == fields@.len()),
        r is Ok ==> csv_rows(r->Ok_0) == csv_rows(w).push(record_bytes(fields@)),
{
    let mut w = w;
    match w.inner.write_record(fields) {
        Ok(()) => Ok(w),
        Err(e) => Err(e.to_string()),
    }
}

/// `csv::Writer::flush`: moves buffered bytes into the vector, which cannot
/// fail; the records written stay the same.
#[verifier::external_body]
fn csv_flush(w: &mut CsvSink) -> (r: Result<(), String>)
    ensures
        r is Ok,
        csv_rows(*final(w)) == csv_rows(*old(w)),
{
    match w.inner.flush() {
        Ok(()) => Ok(()),
        Err(e) => Err(e.to_string()),
    }
}

/// `csv::Writer::into_inner`: flushes (which cannot fail into a vector) and
/// hands back the vector, holding the encoding of the records written.
#[verifier::external_body]
fn csv_into_inner(w: CsvSink) -> (r: Result<Vec<u8>, String>)
    ensures
        r is Ok,
        r->Ok_0@ == csv_document(csv_rows(w)),
{
    match w.inner.into_inner() {
        Ok(v) => Ok(v),
        Err(e) => Err(e.to_string()),
    }
}

// ---------------------------------------------------------------------------
// Savings goals as CSV
// ---------------------------------------------------------------------------

/// The header record of the goals table.
pub open spec fn goals_header() -> Seq<Seq<char>> {
    seq![
        seq!['i', 'd'],
        seq!['o', 'w', 'n', 'e', 'r'],
        seq!['n', 'a', 'm', 'e'],
        seq!['t', 'a', 'r', 'g', 'e', 't', '_', 'a', 'm', 'o', 'u', 'n', 't'],
        seq!['c', 'u', 'r', 'r', 'e', 'n', 't', '_', 'a', 'm', 'o', 'u', 'n', 't'],
        seq!['t', 'a', 'r', 'g', 'e', 't', '_', 'd', 'a', 't', 'e'],
        seq!['l', 'o', 'c', 'k', 'e', 'd'],
    ]
}

/// The record of one goal: numbers in decimal, owner and name escaped.
pub open spec fn goal_fields(g: SavingsGoalExport) -> Seq<Seq<char>> {
    seq![
        spec_decimal(g.id as nat),
        sanitize_spec(g.owner@),
        sanitize_spec(g.name@),
        spec_signed_decimal(g.target_amount),
        spec_signed_decimal(g.current_amount),
        spec_decimal(g.target_date as nat),
        spec_bool_text(g.locked),
    ]
}

/// UTF-8 bytes of each field.
pub open spec fn fields_bytes(fields: Seq<Seq<char>>) -> Seq<Seq<u8>> {
    fields.map_values(|f: Seq<char>| encode_utf8(f))
}

/// The records of the goals table: the header, then one record per goal.
pub open spec fn goals_table(goals: Seq<SavingsGoalExport>) -> Seq<Seq<Seq<u8>>> {
    seq![fields_bytes(goals_header())] + goals.map_values(|g: SavingsGoalExport| fields_bytes(goal_fields(g)))
}

fn header_record() -> (v: Vec<String>)
    ensures
        v@.map_values(|f: String| f@) == goals_header(),
{
    let mut v: Vec<String> = Vec::new();
    v.push(string_of_chars(&['i', 'd']));
    v.push(string_of_chars(&['o', 'w', 'n', 'e', 'r']));
    v.push(string_of_chars(&['n', 'a', 'm', 'e']));
    v.push(string_of_chars(&['t', 'a', 'r', 'g', 'e', 't', '_', 'a', 'm', 'o', 'u', 'n', 't']));
    v.push(string_of_chars(&['c', 'u', 'r', 'r', 'e', 'n', 't', '_', 'a', 'm', 'o', 'u', 'n', 't']));
    v.push(string_of_chars(&['t', 'a', 'r', 'g', 'e', 't', '_', 'd', 'a', 't', 'e']));
    v.push(string_of_chars(&['l', 'o', 'c', 'k', 'e', 'd']));
    proof {
        assert(v@.map_values(|f: String| f@) =~= goals_header());
    }
    v
}

fn goal_record(g: &SavingsGoalExport) -> (v: Vec<String>)
    ensures
        v@.map_values(|f: String| f@) == goal_fields(*g),
{
    let mut v: Vec<String> = Vec::new();
    v.push(decimal_string(g.id as u64));
    v.push(sanitize_csv_field(g.owner.as_str()));
    v.push(sanitize_csv_field(g.name.as_str()));
    v.push(signed_decimal_string(g.target_amount));
    v.push(signed_decimal_string(g.current_amount));
    v.push(decimal_string(g.target_date));
    v.push(bool_string(g.locked));
    proof {
        assert(v@.map_values(|f: String| f@) =~= goal_fields(*g));
    }
    v
}

proof fn lemma_record_bytes(v: Seq<String>, fields: Seq<Seq<char>>)
    requires
        v.map_values(|f: String| f@) == fields,
    ensures
        record_bytes(v) == fields_bytes(fields),
{
    assert(record_bytes(v).len() == fields_bytes(fields).len());
    assert forall|i: int| 0 <= i < v.len() implies record_bytes(v)[i] == fields_bytes(fields)[i] by {
        assert(v.map_values(|f: String| f@)[i] == v[i]@);
    }
    assert(record_bytes(v) =~= fields_bytes(fields));
}

/// Export savings goals to CSV. `payload_json_len` is the length of the
/// payload's canonical JSON, which must lie within the migration bounds like
/// the goal count; the CSV document itself must fit the payload limit too.
/// Within those bounds the export succeeds with the CSV encoding of the
/// header record followed by one record per goal, in order.
pub fn export_to_csv(payload: &SavingsGoalsExport, payload_json_len: usize) -> (r: Result<
    Vec<u8>,
    MigrationError,
>)
    ensures
        payload.goals@.len() > MAX_MIGRATION_RECORDS ==> r == Err::<Vec<u8>, MigrationError>(
            MigrationError::TooManyRecords {
                count: payload.goals@.len() as usize,
                max: MAX_MIGRATION_RECORDS,
            },
        ),
        payload.goals@.len() <= MAX_MIGRATION_RECORDS && payload_json_len
            > MAX_MIGRATION_PAYLOAD_BYTES ==> r == Err::<Vec<u8>, MigrationError>(
            MigrationError::PayloadTooLarge {
                size: payload_json_len,
                max: MAX_MIGRATION_PAYLOAD_BYTES,
            },
        ),
        payload.goals@.len() <= MAX_MIGRATION_RECORDS && payload_json_len <= MAX_MIGRATION_PAYLOAD_BYTES
            && csv_document(goals_table(payload.goals@)).len() <= MAX_MIGRATION_PAYLOAD_BYTES ==> r is Ok
            && r->Ok_0@ == csv_document(goals_table(payload.goals@)),
        payload.goals@.len() <= MAX_MIGRATION_RECORDS && payload_json_len <= MAX_MIGRATION_PAYLOAD_BYTES
            && csv_document(goals_table(payload.goals@)).len() > MAX_MIGRATION_PAYLOAD_BYTES ==> r
            == Err::<Vec<u8>, MigrationError>(
            MigrationError::PayloadTooLarge {
                size: csv_document(goals_table(payload.goals@)).len() as usize,
                max: MAX_MIGRATION_PAYLOAD_BYTES,
            },
        ),
{
    let b = validate_payload_bounds(payload.goals.len(), payload_json_len);
    if let Err(e) = b {
        return Err(e);
    }
    let wtr = csv_writer_new();
    let hdr = header_record();
    proof {
        lemma_record_bytes(hdr@, goals_header());
    }
    let mut wtr = match csv_write_record(wtr, &hdr) {
        Ok(w) => w,
        Err(m) => {
            return Err(MigrationError::InvalidFormat(m));
        },
    };
    proof {
        assert(csv_rows(wtr) =~= goals_table(payload.goals@).take(1));
    }
    let n = payload.goals.len();
    for i in 0..n
        invariant
            n == payload.goals@.len(),
            n <= MAX_MIGRATION_RECORDS,
            payload_json_len <= MAX_MIGRATION_PAYLOAD_BYTES,
            csv_rows(wtr) == goals_table(payload.goals@).take(i + 1),
            csv_rows(wtr)[0].len() == 7,
    {
        let rec = goal_record(&payload.goals[i]);
        proof {
            lemma_record_bytes(rec@, goal_fields(payload.goals@[i as int]));
            assert(rec@.len() == 7) by {
                assert(rec@.map_values(|f: String| f@).len() == 7);
            }
        }
        wtr = match csv_write_record(wtr, &rec) {
            Ok(w) => w,
            Err(m) => {
                return Err(MigrationError::InvalidFormat(m));
            },
        };
        proof {
            assert(csv_rows(wtr) =~= goals_table(payload.goals@).take(i + 2));
        }
    }
    proof {
        assert(goals_table(payload.goals@).take(n + 1) =~= goals_table(payload.goals@));
    }
    match csv_flush(&mut wtr) {
        Ok(()) => {},
        Err(m) => {
            return Err(MigrationError::InvalidFormat(m));
        },
    }
    let bytes = match csv_into_inner(wtr) {
        Ok(v) => v,
        Err(m) => {
            return Err(MigrationError::InvalidFormat(m));
        },
    };
    let c = validate_payload_bounds(payload.goals.len(), bytes.len());
    if let Err(e) = c {
        return Err(e);
    }
    Ok(bytes)
}

// ---------------------------------------------------------------------------
// Reading goals back
// ---------------------------------------------------------------------------

/// One goal record as parsed from CSV, before its text fields are unescaped.
#[derive(Debug)]
pub struct CsvGoalRow {
    pub id: u32,
    pub owner: String,
    pub name: String,
    pub target_amount: i64,
    pub current_amount: i64,
    pub target_date: u64,
    pub locked: bool,
}

/// The goal a parsed record stands for: text fields unescaped, the rest as read.
pub open spec fn row_goal_matches(row: CsvGoalRow, g: SavingsGoalExport) -> bool {
    &&& g.id == row.id
    &&& g.owner@ == strip_spec(row.owner@)
    &&& g.name@ == strip_spec(row.name@)
    &&& g.target_amount == row.target_amount
    &&& g.current_amount == row.current_amount
    &&& g.target_date == row.target_date
    &&& g.locked == row.locked
}

/// A parsed record holding exactly what the export wrote for `g`: its
/// numbers and flag, and its owner and name as escaped for spreadsheets.
pub open spec fn row_written_for(row: CsvGoalRow, g: SavingsGoalExport) -> bool {
    &&& row.id == g.id
    &&& row.owner@ == sanitize_spec(g.owner@)
    &&& row.name@ == sanitize_spec(g.name@)
    &&& row.target_amount == g.target_amount
    &&& row.current_amount == g.current_amount
    &&& row.target_date == g.target_date
    &&& row.locked == g.locked
}

/// Whether a text field survives escaping and unescaping: it does not itself
/// start with a quote followed by a formula character.
pub open spec fn escape_safe(s: Seq<char>) -> bool {
    !(s.len() >= 2 && s[0] == '\'' && is_formula_start(s[1]))
}

/// Two goals with the same fields.
pub open spec fn same_goal(a: SavingsGoalExport, b: SavingsGoalExport) -> bool {
    &&& a.id == b.id
    &&& a.owner@ == b.owner@
    &&& a.name@ == b.name@
    &&& a.target_amount == b.target_amount
    &&& a.current_amount == b.current_amount
    &&& a.target_date == b.target_date
    &&& a.locked == b.locked
}

/// CSV round trip: the goals imported from the records an export wrote for a
/// list of goals (`import_goals_from_csv_rows` relates each imported goal to
/// its record by `row_goal_matches`) are those goals, field for field and in
/// order, whenever no owner or name itself starts with a quote followed by a
/// formula character.
pub proof fn lemma_csv_round_trip(
    goals: Seq<SavingsGoalExport>,
    rows: Seq<CsvGoalRow>,
    imported: Seq<SavingsGoalExport>,
)
    requires
        rows.len() == goals.len(),
        imported.len() == rows.len(),
        forall|j: int| 0 <= j < goals.len() ==> row_written_for(#[trigger] rows[j], goals[j]),
        forall|j: int|
            0 <= j < goals.len() ==> escape_safe((#[trigger] goals[j]).owner@) && escape_safe(goals[j].name@),
        forall|j: int| 0 <= j < rows.len() ==> row_goal_matches(#[trigger] rows[j], imported[j]),
    ensures
        forall|j: int| 0 <= j < goals.len() ==> same_goal(#[trigger] imported[j], goals[j]),
{
    assert forall|j: int| 0 <= j < goals.len() implies same_goal(#[trigger] imported[j], goals[j]) by {
        assert(row_written_for(rows[j], goals[j]));
        assert(escape_safe(goals[j].owner@) && escape_safe(goals[j].name@));
        assert(row_goal_matches(rows[j], imported[j]));
        lemma_strip_undoes_sanitize(goals[j].owner@);
        lemma_strip_undoes_sanitize(goals[j].name@);
    }
}

/// Import goals from parsed CSV records (each the record or the parser's
/// message). The input may be at most the payload limit long
/// (`input_len` bytes); records are taken in order, and the first record
/// beyond the record limit, or the first record that failed to parse,
/// ends the import with an error.
pub fn import_goals_from_csv_rows(input_len: usize, rows: &Vec<Result<CsvGoalRow, String>>) -> (r:
    Result<Vec<SavingsGoalExport>, MigrationError>)
    ensures
        input_len > MAX_MIGRATION_PAYLOAD_BYTES ==> r == Err::<Vec<SavingsGoalExport>, MigrationError>(
            MigrationError::PayloadTooLarge { size: input_len, max: MAX_MIGRATION_PAYLOAD_BYTES },
        ),
        input_len <= MAX_MIGRATION_PAYLOAD_BYTES ==> {
            let cut = if rows@.len() > MAX_MIGRATION_RECORDS {
                MAX_MIGRATION_RECORDS as int
            } else {
                rows@.len() as int
            };
            // the first failed record within the limit decides
            &&& forall|k: int|
                0 <= k < cut && rows@[k] is Err && (forall|j: int| 0 <= j < k ==> rows@[j] is Ok)
                    ==> (r is Err && r->Err_0 is DeserializeError && r->Err_0->DeserializeError_0@
                    == rows@[k]->Err_0@)
            &&& (forall|j: int| 0 <= j < cut ==> rows@[j] is Ok) && rows@.len()
                > MAX_MIGRATION_RECORDS ==> r == Err::<Vec<SavingsGoalExport>, MigrationError>(
                MigrationError::TooManyRecords {
                    count: (MAX_MIGRATION_RECORDS + 1) as usize,
                    max: MAX_MIGRATION_RECORDS,
                },
            )
            &&& (forall|j: int| 0 <= j < cut ==> rows@[j] is Ok) && rows@.len()
                <= MAX_MIGRATION_RECORDS ==> {
                &&& r is Ok
                &&& r->Ok_0@.len() == rows@.len()
                &&& forall|j: int|
                    0 <= j < rows@.len() ==> row_goal_matches(
                        rows@[j]->Ok_0,
                        #[trigger] r->Ok_0@[j],
                    )
            }
        },
{
    if input_len > MAX_MIGRATION_PAYLOAD_BYTES {
        return Err(
            MigrationError::PayloadTooLarge { size: input_len, max: MAX_MIGRATION_PAYLOAD_BYTES },
        );
    }
    let mut goals: Vec<SavingsGoalExport> = Vec::new();
    let n = rows.len();
    for i in 0..n
        invariant
            n == rows@.len(),
            input_len <= MAX_MIGRATION_PAYLOAD_BYTES,
            i <= MAX_MIGRATION_RECORDS,
            goals@.len() == i,
            forall|j: int| 0 <= j < i ==> rows@[j] is Ok,
            forall|j: int| 0 <= j < i ==> row_goal_matches(rows@[j]->Ok_0, #[trigger] goals@[j]),
    {
        if goals.len() == MAX_MIGRATION_RECORDS {
            return Err(
                MigrationError::TooManyRecords {
                    count: MAX_MIGRATION_RECORDS + 1,
                    max: MAX_MIGRATION_RECORDS,
                },
            );
        }
        match &rows[i] {
            Err(m) => {
                return Err(MigrationError::DeserializeError(m.clone()));
            },
            Ok(row) => {
                goals.push(
                    SavingsGoalExport {
                        id: row.id,
                        owner: strip_csv_formula_prefix(row.owner.as_str()),
                        name: strip_csv_formula_prefix(row.name.as_str()),
                        target_amount: row.target_amount,
                        current_amount: row.current_amount,
                        target_date: row.target_date,
                        locked: row.locked,
                    },
                );
            },
        }
    }
    Ok(goals)
}

} // verus!
