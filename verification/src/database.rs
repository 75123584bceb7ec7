//! Deletion-history records and the decisions of the history store: record
//! construction, id allocation, schema-version handling and migrations,
//! aggregation over stored rows, and the age cutoff used for cleanup.
//!
//! Storage itself (the embedded database file) is handled by the caller, which
//! passes the rows it read and applies the outcomes computed here.

use vstd::prelude::*;
use crate::directory_item::DirectoryType;
use crate::error::{ArtifactError, prefixed};
use crate::text::{chars_of, string_of, push_char, chars_eq};
use crate::history::{HistoryEntry, HistoryRun, group_into_runs, run_totals_fit, run_view, runs_of};

verus! {

/// Current on-disk schema version.
pub const SCHEMA_VERSION: u64 = 1;

/// Name of the database file inside the data directory.
pub const DB_FILE: &'static str = "artifact.redb";

/// A record of a single directory deletion.
#[derive(Debug)]
pub struct DeletionRecord {
    id: i64,
    pub path: String,
    pub dir_type: String,
    pub size_bytes: i64,
    pub project_root: Option<String>,
    pub project_name: Option<String>,
    pub deleted_at: i64,
    pub metadata: String,
}

/// The lowercase hexadecimal digit for `d < 16`.
pub open spec fn hex_digit(d: int) -> char {
    if d < 10 { crate::history::digit_char(d) } else if d == 10 { 'a' } else if d == 11 { 'b' }
    else if d == 12 { 'c' } else if d == 13 { 'd' } else if d == 14 { 'e' } else { 'f' }
}

/// How one character is written inside a JSON string: quote and backslash
/// escaped, the control characters below U+0020 as `\b \t \n \f \r` or
/// `\u00XX`, every other character as itself.
pub open spec fn json_escape_char(c: char) -> Seq<char> {
    if c == '"' {
        seq!['\\', '"']
    } else if c == '\\' {
        seq!['\\', '\\']
    } else if c == '\x08' {
        seq!['\\', 'b']
    } else if c == '\t' {
        seq!['\\', 't']
    } else if c == '\n' {
        seq!['\\', 'n']
    } else if c == '\x0C' {
        seq!['\\', 'f']
    } else if c == '\r' {
        seq!['\\', 'r']
    } else if (c as int) < 0x20 {
        seq!['\\', 'u', '0', '0', hex_digit((c as int) / 16), hex_digit((c as int) % 16)]
    } else {
        seq![c]
    }
}

/// The escaped characters of `s`.
pub open spec fn json_escaped(s: Seq<char>) -> Seq<char>
    decreases s.len(),
{
    if s.len() == 0 { Seq::empty() } else { json_escaped(s.drop_last()) + json_escape_char(s.last()) }
}

/// JSON text of a string value: `s` escaped, between double quotes.
pub open spec fn json_string_text(s: Seq<char>) -> Seq<char> {
    seq!['"'] + json_escaped(s) + seq!['"']
}

/// Serialize a string as a JSON string literal: `serde_json::to_string`.
///
/// Trusted: the text is `json_string_text` of the input, as serde_json's
/// string serializer writes it (its escape table: `"` and `\\`, and the
/// bytes below 0x20, the common ones by letter and the rest as `\u00XX` in
/// lowercase hex; everything else copied). It only writes into an in-memory
/// buffer, which cannot fail, so the result is always present.
#[verifier::external_body]
fn json_string(s: &String) -> (r: Option<String>)
    ensures
        r is Some,
        r matches Some(t) ==> t@ == json_string_text(s@),
{
    serde_json::to_string(s).ok()
}

/// The host name of this machine, when it can be read as UTF-8:
/// `hostname::get`.
///
/// Trusted, with nothing stated of the value: it depends on the machine.
#[verifier::external_body]
fn read_hostname() -> (r: Option<String>) {
    match hostname::get() {
        Ok(h) => h.into_string().ok(),
        Err(_) => None,
    }
}

/// Decimal text of `n`.
pub open spec fn decimal_u64(n: nat) -> Seq<char>
    decreases n,
{
    if n < 10 {
        seq![crate::history::digit_char(n as int)]
    } else {
        decimal_u64(n / 10).push(crate::history::digit_char((n % 10) as int))
    }
}

fn digit64(d: u64) -> (c: char)
    requires
        d < 10,
    ensures
        c == crate::history::digit_char(d as int),
{
    if d == 0 { '0' } else if d == 1 { '1' } else if d == 2 { '2' } else if d == 3 { '3' }
    else if d == 4 { '4' } else if d == 5 { '5' } else if d == 6 { '6' } else if d == 7 { '7' }
    else if d == 8 { '8' } else { '9' }
}

fn push_decimal_u64(out: &mut Vec<char>, n: u64)
    ensures
        final(out)@ == old(out)@ + decimal_u64(n as nat),
    decreases n,
{
    if n < 10 {
        out.push(digit64(n));
    } else {
        push_decimal_u64(out, n / 10);
        out.push(digit64(n % 10));
    }
    assert(out@ =~= old(out)@ + decimal_u64(n as nat));
}

/// Decimal text of `n`.
pub fn decimal_text(n: u64) -> (s: String)
    ensures
        s@ == decimal_u64(n as nat),
{
    let mut cs: Vec<char> = Vec::new();
    push_decimal_u64(&mut cs, n);
    assert(cs@ =~= decimal_u64(n as nat));
    string_of(&cs)
}

/// `a` followed by `b`.
fn concat_chars(a: &mut Vec<char>, b: &Vec<char>)
    ensures
        final(a)@ == old(a)@ + b@,
{
    let mut i: usize = 0;
    let ghost start = a@;
    while i < b.len()
        invariant
            i <= b@.len(),
            a@ == start + b@.subrange(0, i as int),
        decreases b@.len() - i,
    {
        a.push(b[i]);
        i = i + 1;
        assert(a@ =~= start + b@.subrange(0, i as int));
    }
    assert(b@.subrange(0, b@.len() as int) =~= b@);
}

/// The metadata JSON stored with a record: the schema version and the host
/// name (`null` when unknown), as `{"version":<n>,"hostname":<json>}`.
pub open spec fn metadata_text(host_json: Option<Seq<char>>) -> Seq<char> {
    "{\"version\":"@ + decimal_u64(SCHEMA_VERSION as nat) + ",\"hostname\":"@
        + match host_json { Some(j) => j, None => "null"@ } + "}"@
}

/// The metadata JSON for a host name, when known: the name as a JSON string,
/// else `null`.
pub open spec fn host_metadata(hostname: Option<Seq<char>>) -> Seq<char> {
    metadata_text(match hostname {
        Some(name) => Some(json_string_text(name)),
        None => None,
    })
}

/// Metadata JSON for a host name.
pub fn record_metadata(hostname: &Option<String>) -> (m: String)
    ensures
        match hostname {
            None => m@ == metadata_text(None),
            Some(h) => m@ == metadata_text(Some(json_string_text(h@))),
        },
{
    let host_json: Option<String> = match hostname {
        None => None,
        Some(h) => match json_string(h) {
            Some(j) => Some(j),
            None => return string_of(&chars_of("{}")),
        },
    };
    let mut cs = chars_of("{\"version\":");
    let v = chars_of(decimal_text(SCHEMA_VERSION).as_str());
    concat_chars(&mut cs, &v);
    let sep = chars_of(",\"hostname\":");
    concat_chars(&mut cs, &sep);
    match &host_json {
        Some(j) => {
            let jc = chars_of(j.as_str());
            concat_chars(&mut cs, &jc);
        },
        None => {
            let n = chars_of("null");
            concat_chars(&mut cs, &n);
        },
    }
    let close = chars_of("}");
    concat_chars(&mut cs, &close);
    string_of(&cs)
}

/// The fields of a deletion record.
pub struct RecordView {
    pub id: i64,
    pub path: String,
    pub dir_type: String,
    pub size_bytes: i64,
    pub project_root: Option<String>,
    pub project_name: Option<String>,
    pub deleted_at: i64,
    pub metadata: String,
}

impl View for DeletionRecord {
    type V = RecordView;

    closed spec fn view(&self) -> RecordView {
        RecordView {
            id: self.id,
            path: self.path,
            dir_type: self.dir_type,
            size_bytes: self.size_bytes,
            project_root: self.project_root,
            project_name: self.project_name,
            deleted_at: self.deleted_at,
            metadata: self.metadata,
        }
    }
}

impl DeletionRecord {

    /// A new, unpersisted deletion record deleted at `deleted_at` (seconds
    /// since the UNIX epoch) on the machine named `hostname`.
    pub fn at(
        path: String,
        dir_type: DirectoryType,
        size_bytes: u64,
        project_root: Option<String>,
        project_name: Option<String>,
        deleted_at: i64,
        hostname: &Option<String>,
    ) -> (r: Self)
        ensures
            r@.id == 0,
            r@.path == path,
            r@.dir_type@ == dir_type.rule.name@,
            r@.size_bytes == size_bytes as i64,
            r@.project_root == project_root,
            r@.project_name == project_name,
            r@.deleted_at == deleted_at,
            r@.metadata@ == metadata_text(match hostname {
                Some(h) => Some(json_string_text(h@)),
                None => None,
            }),
    {
        DeletionRecord {
            id: 0,
            path,
            dir_type: string_of(&chars_of(dir_type.name())),
            size_bytes: size_bytes as i64,
            project_root,
            project_name,
            deleted_at,
            metadata: record_metadata(hostname),
        }
    }

    /// A new, unpersisted deletion record stamped with the whole seconds of
    /// the current time (`0` when the clock reads before the UNIX epoch) and
    /// this machine's host name.
    pub fn new(
        path: String,
        dir_type: DirectoryType,
        size_bytes: u64,
        project_root: Option<String>,
        project_name: Option<String>,
    ) -> (r: Self)
        ensures
            r@.id == 0,
            r@.path == path,
            r@.dir_type@ == dir_type.rule.name@,
            r@.size_bytes == size_bytes as i64,
            r@.project_root == project_root,
            r@.project_name == project_name,
            exists|reading: Result<u128, u128>| r@.deleted_at == crate::clock::stamp_of_reading(reading),
            exists|h: Option<Seq<char>>| r@.metadata@ == #[trigger] host_metadata(h),
    {
        let secs = crate::clock::unix_time_secs();
        let deleted_at: i64 = match secs {
            Some(t) => t as i64,
            None => 0,
        };
        proof {
            let reading = choose|rd: Result<u128, u128>| secs == crate::clock::secs_of_reading(rd);
            assert(deleted_at == crate::clock::stamp_of_reading(reading));
        }
        let host = read_hostname();
        let r = DeletionRecord::at(path, dir_type, size_bytes, project_root, project_name, deleted_at, &host);
        proof {
            let h: Option<Seq<char>> = match host {
                Some(name) => Some(name@),
                None => None,
            };
            assert(r@.metadata@ == host_metadata(h));
        }
        r
    }

    /// A record with every field given, as read back from storage.
    pub fn from_parts(
        id: i64,
        path: String,
        dir_type: String,
        size_bytes: i64,
        project_root: Option<String>,
        project_name: Option<String>,
        deleted_at: i64,
        metadata: String,
    ) -> (r: Self)
        ensures
            r@.id == id,
            r@.path == path,
            r@.dir_type == dir_type,
            r@.size_bytes == size_bytes,
            r@.project_root == project_root,
            r@.project_name == project_name,
            r@.deleted_at == deleted_at,
            r@.metadata == metadata,
    {
        DeletionRecord { id, path, dir_type, size_bytes, project_root, project_name, deleted_at, metadata }
    }

    /// Return the database-assigned integer id (`0` for a record that has not
    /// been stored).
    pub fn id(&self) -> (i: i64)
        ensures
            i == self@.id,
    {
        self.id
    }

    /// This record as stored under `id`: every other field unchanged.
    pub fn stored_as(&self, id: i64) -> (r: Self)
        ensures
            r@.id == id,
            r@.path == self@.path,
            r@.dir_type == self@.dir_type,
            r@.size_bytes == self@.size_bytes,
            r@.project_root == self@.project_root,
            r@.project_name == self@.project_name,
            r@.deleted_at == self@.deleted_at,
            r@.metadata == self@.metadata,
    {
        DeletionRecord {
            id,
            path: self.path.clone(),
            dir_type: self.dir_type.clone(),
            size_bytes: self.size_bytes,
            project_root: match &self.project_root { Some(p) => Some(p.clone()), None => None },
            project_name: match &self.project_name { Some(p) => Some(p.clone()), None => None },
            deleted_at: self.deleted_at,
            metadata: self.metadata.clone(),
        }
    }

    /// A copy of this record.
    pub fn duplicate(&self) -> (r: Self)
        ensures
            r@ == self@,
    {
        self.stored_as(self.id)
    }
}

/// The id the next stored record gets: the stored counter, or `1` in a fresh
/// database.
pub open spec fn next_id(stored_next: Option<u64>) -> int {
    match stored_next {
        Some(n) => n as int,
        None => 1,
    }
}

/// The id given to the next stored record and the counter left behind, from
/// the stored counter (absent in a fresh database, which starts at `1`).
pub fn allocate_id(stored_next: Option<u64>) -> (r: (u64, u64))
    requires
        stored_next != Some(u64::MAX),
    ensures
        r.0 == next_id(stored_next),
        r.1 == r.0 + 1,
{
    let next = match stored_next {
        Some(n) => n,
        None => 1,
    };
    (next, next + 1)
}

/// Ids only grow: when every id handed out so far lies below the stored
/// counter, the next id is positive, above all of them, and, with it, they
/// all lie below the counter left behind. So a fresh database hands out
/// `1, 2, 3, ...`, each id above every earlier one.
pub proof fn lemma_ids_increase(stored_next: Option<u64>, earlier: Set<int>)
    requires
        stored_next != Some(u64::MAX),
        next_id(stored_next) >= 1,
        forall|e: int| earlier.contains(e) ==> 0 < e < next_id(stored_next),
    ensures
        next_id(stored_next) >= 1,
        forall|e: int| earlier.contains(e) ==> e < next_id(stored_next),
        next_id(Some((next_id(stored_next) + 1) as u64)) == next_id(stored_next) + 1,
        forall|e: int| #![trigger earlier.insert(next_id(stored_next)).contains(e)]
            earlier.insert(next_id(stored_next)).contains(e) ==> 0 < e < next_id(Some((next_id(stored_next) + 1) as u64)),
{
}

/// The stored counter after `k` successive allocations, each starting from
/// the counter the one before left behind.
pub open spec fn counter_after(stored_next: Option<u64>, k: nat) -> Option<u64>
    decreases k,
{
    if k == 0 {
        stored_next
    } else {
        Some((next_id(counter_after(stored_next, (k - 1) as nat)) + 1) as u64)
    }
}

/// The ids handed out by `k` successive allocations, in call order.
pub open spec fn ids_handed_out(stored_next: Option<u64>, k: nat) -> Seq<int>
    decreases k,
{
    if k == 0 {
        Seq::empty()
    } else {
        ids_handed_out(stored_next, (k - 1) as nat).push(next_id(counter_after(stored_next, (k - 1) as nat)))
    }
}

/// Successive allocations hand out consecutive ids, each above every earlier
/// one: the `i`-th call gets the starting id plus `i`, so a fresh database
/// hands out `1, 2, 3, ...`. Holds while the counter stays below `u64::MAX`.
pub proof fn lemma_successive_ids(stored_next: Option<u64>, k: nat)
    requires
        next_id(stored_next) + k < u64::MAX,
    ensures
        ids_handed_out(stored_next, k).len() == k,
        forall|i: int| 0 <= i < k ==> #[trigger] ids_handed_out(stored_next, k)[i] == next_id(stored_next) + i,
        forall|i: int, j: int| 0 <= i < j < k ==>
            ids_handed_out(stored_next, k)[i] < ids_handed_out(stored_next, k)[j],
        stored_next is None ==> forall|i: int| 0 <= i < k ==> ids_handed_out(stored_next, k)[i] == i + 1,
        next_id(counter_after(stored_next, k)) == next_id(stored_next) + k,
    decreases k,
{
    if k > 0 {
        lemma_successive_ids(stored_next, (k - 1) as nat);
        let prev = ids_handed_out(stored_next, (k - 1) as nat);
        assert forall|i: int| 0 <= i < k implies #[trigger] ids_handed_out(stored_next, k)[i] == next_id(stored_next) + i by {
            if i < k - 1 {
                assert(ids_handed_out(stored_next, k)[i] == prev[i]);
            }
        }
    }
}

/// What storing one record writes: the id it gets, the counter left behind,
/// and the record as stored under that id.
pub struct RecordWrite {
    pub id: u64,
    pub next: u64,
    pub stored: DeletionRecord,
}

/// `r` as stored under id `id`: every other field unchanged.
pub open spec fn stored_view(r: RecordView, id: int) -> RecordView {
    RecordView { id: id as i64, ..r }
}

/// Plan the writes that store `record`, from the stored id counter (absent
/// in a fresh database). The record is then kept under the id, and indexed
/// under `(deleted_at, id)` and `(dir_type, id)`.
pub fn plan_record(stored_next: Option<u64>, record: &DeletionRecord) -> (w: RecordWrite)
    requires
        stored_next != Some(u64::MAX),
    ensures
        w.id == next_id(stored_next),
        w.next == w.id + 1,
        w.stored@ == stored_view(record@, w.id as int),
{
    let (id, next) = allocate_id(stored_next);
    let stored = record.stored_as(id as i64);
    RecordWrite { id, next, stored }
}

/// What the history store holds: the id counter and the records by id.
pub struct StoreModel {
    pub next: Option<u64>,
    pub records: Map<u64, RecordView>,
}

/// The store after storing `r` as [`plan_record`] plans it.
pub open spec fn store_write(s: StoreModel, r: RecordView) -> StoreModel {
    let id = next_id(s.next);
    StoreModel {
        next: Some((id + 1) as u64),
        records: s.records.insert(id as u64, stored_view(r, id)),
    }
}

/// A fresh store after storing each of `rs` in turn.
pub open spec fn store_after(rs: Seq<RecordView>) -> StoreModel
    decreases rs.len(),
{
    if rs.len() == 0 {
        StoreModel { next: None, records: Map::empty() }
    } else {
        store_write(store_after(rs.drop_last()), rs.last())
    }
}

/// Recording into a fresh store: the `i`-th record stored gets id `i + 1`,
/// so each id is positive and above every id returned before it; the store
/// then holds exactly those ids, each with its record stored under it, and
/// the next record gets an id above all of them.
pub proof fn lemma_recorded_ids(rs: Seq<RecordView>)
    requires
        rs.len() + 1 < i64::MAX,
    ensures
        store_after(rs).next == counter_after(None, rs.len()),
        ids_handed_out(None, rs.len()).len() == rs.len(),
        forall|i: int| 0 <= i < rs.len() ==> #[trigger] ids_handed_out(None, rs.len())[i] == i + 1,
        forall|i: int, j: int| 0 <= i < j < rs.len() ==>
            0 < #[trigger] ids_handed_out(None, rs.len())[i] < #[trigger] ids_handed_out(None, rs.len())[j],
        forall|id: u64| store_after(rs).records.dom().contains(id) <==> 1 <= id <= rs.len(),
        forall|i: int| 0 <= i < rs.len() ==>
            #[trigger] store_after(rs).records[(i + 1) as u64] == stored_view(rs[i], i + 1),
        forall|id: u64| #[trigger] store_after(rs).records.dom().contains(id) ==>
            id < next_id(store_after(rs).next),
    decreases rs.len(),
{
    lemma_successive_ids(None, rs.len());
    if rs.len() > 0 {
        let prev = rs.drop_last();
        lemma_recorded_ids(prev);
        lemma_successive_ids(None, prev.len());
        let s0 = store_after(prev);
        assert(next_id(s0.next) == prev.len() + 1);
        assert forall|i: int| 0 <= i < rs.len() implies
            #[trigger] store_after(rs).records[(i + 1) as u64] == stored_view(rs[i], i + 1) by {
            if i < prev.len() {
                assert(rs[i] == prev[i]);
                assert(s0.records[(i + 1) as u64] == stored_view(prev[i], i + 1));
            }
        }
    }
}

/// What opening the database does about the stored schema version.
#[derive(Debug, Clone, Copy, PartialEq, Eq, Structural)]
pub enum SchemaAction {
    /// Fresh database: stamp the current version.
    Stamp,
    /// Already at the current version.
    UpToDate,
    /// Older but known: migrate forward from this version.
    Migrate(u64),
    /// Newer than this build supports: refuse.
    Reject(u64),
}

/// Decide what to do about the stored schema version.
pub fn schema_action(stored: Option<u64>) -> (a: SchemaAction)
    ensures
        a == match stored {
            None => SchemaAction::Stamp,
            Some(v) => if v == SCHEMA_VERSION { SchemaAction::UpToDate }
                else if v < SCHEMA_VERSION { SchemaAction::Migrate(v) }
                else { SchemaAction::Reject(v) },
        },
{
    match stored {
        None => SchemaAction::Stamp,
        Some(v) => if v == SCHEMA_VERSION {
            SchemaAction::UpToDate
        } else if v < SCHEMA_VERSION {
            SchemaAction::Migrate(v)
        } else {
            SchemaAction::Reject(v)
        },
    }
}

/// The refusal for a version newer than supported.
pub open spec fn newer_version_text(v: u64) -> Seq<char> {
    "Database schema version "@ + decimal_u64(v as nat) + " is newer than supported (this build supports up to "@
        + decimal_u64(SCHEMA_VERSION as nat) + "); please upgrade the application"@
}

/// The refusal for an older version with no migration path.
pub open spec fn no_migration_text(v: u64) -> Seq<char> {
    "No migration path from schema version "@ + decimal_u64(v as nat) + " to "@
        + decimal_u64(SCHEMA_VERSION as nat)
}

/// Join five pieces of text.
fn join5(a: &str, b: &String, c: &str, d: &String, e: &str) -> (s: String)
    ensures
        s@ == a@ + b@ + c@ + d@ + e@,
{
    let mut cs = chars_of(a);
    concat_chars(&mut cs, &chars_of(b.as_str()));
    concat_chars(&mut cs, &chars_of(c));
    concat_chars(&mut cs, &chars_of(d.as_str()));
    concat_chars(&mut cs, &chars_of(e));
    string_of(&cs)
}

/// The error for a schema version newer than this build supports.
pub fn newer_version_error(v: u64) -> (e: ArtifactError)
    ensures
        e matches ArtifactError::DatabaseInit(m) && m@ == newer_version_text(v),
{
    let vt = decimal_text(v);
    let st = decimal_text(SCHEMA_VERSION);
    ArtifactError::DatabaseInit(join5(
        "Database schema version ",
        &vt,
        " is newer than supported (this build supports up to ",
        &st,
        "); please upgrade the application",
    ))
}

/// Apply forward migrations from `from_version`: the ordered ladder (only
/// `0 -> 1` exists) must end at [`SCHEMA_VERSION`], which is the version to
/// stamp; otherwise there is no migration path.
pub fn run_migrations(from_version: u64) -> (r: Result<u64, ArtifactError>)
    ensures
        (from_version == 0 || from_version == SCHEMA_VERSION) ==> r == Ok::<u64, ArtifactError>(SCHEMA_VERSION),
        !(from_version == 0 || from_version == SCHEMA_VERSION) ==>
            (r matches Err(ArtifactError::DatabaseInit(m)) && m@ == no_migration_text(from_version)),
{
    let mut version = from_version;
    if version == 0 {
        version = 1;
    }
    if version != SCHEMA_VERSION {
        let vt = decimal_text(from_version);
        let st = decimal_text(SCHEMA_VERSION);
        let msg = join5("No migration path from schema version ", &vt, " to ", &st, "");
        proof { reveal_strlit(""); }
        assert(msg@ =~= no_migration_text(from_version));
        return Err(ArtifactError::DatabaseInit(msg));
    }
    Ok(SCHEMA_VERSION)
}

/// Whether the database file must be backed up before it is opened: it
/// exists and carries a version other than the current one.
pub fn needs_backup(exists: bool, stored: Option<u64>) -> (b: bool)
    ensures
        b == (exists && stored is Some && stored.unwrap() != SCHEMA_VERSION),
{
    exists && match stored {
        Some(v) => v != SCHEMA_VERSION,
        None => false,
    }
}

/// Suffix of the backup copy: `.bak-<version or "unknown">-<epoch secs>`.
pub fn backup_suffix(stored: Option<u64>, epoch_secs: u64) -> (s: String)
    ensures
        s@ == ".bak-"@ + match stored { Some(v) => decimal_u64(v as nat), None => "unknown"@ } + "-"@
            + decimal_u64(epoch_secs as nat),
{
    let tag = match stored {
        Some(v) => decimal_text(v),
        None => string_of(&chars_of("unknown")),
    };
    let et = decimal_text(epoch_secs);
    let s = join5(".bak-", &tag, "-", &et, "");
    proof { reveal_strlit(""); }
    assert(s@ =~= ".bak-"@ + tag@ + "-"@ + et@);
    s
}

/// Per-kind breakdown entry: how many records of `dir_type`, and their bytes.
#[derive(Debug)]
pub struct TypeTally {
    pub dir_type: String,
    pub count: i64,
    pub bytes: i64,
}

/// Aggregate statistics computed over all deletion records.
#[derive(Debug)]
pub struct DeletionStatistics {
    /// Total number of deletion records.
    pub total_deletions: i64,
    /// Sum of `size_bytes` across all records.
    pub total_space_freed: i64,
    /// Per-kind breakdown, one entry per distinct `dir_type`, in order of
    /// first appearance.
    pub deletions_by_type: Vec<TypeTally>,
}

impl DeletionStatistics {
    /// The breakdown entry for `dir_type`, if any record has that kind.
    pub fn by_type(&self, dir_type: &str) -> (t: Option<(i64, i64)>)
        ensures
            match t {
                Some((c, b)) => exists|k: int| 0 <= k < self.deletions_by_type@.len()
                    && self.deletions_by_type@[k].dir_type@ == dir_type@
                    && self.deletions_by_type@[k].count == c && self.deletions_by_type@[k].bytes == b,
                None => forall|k: int| 0 <= k < self.deletions_by_type@.len()
                    ==> self.deletions_by_type@[k].dir_type@ != dir_type@,
            },
    {
        let mut k: usize = 0;
        while k < self.deletions_by_type.len()
            invariant
                k <= self.deletions_by_type@.len(),
                forall|j: int| 0 <= j < k ==> self.deletions_by_type@[j].dir_type@ != dir_type@,
            decreases self.deletions_by_type@.len() - k,
        {
            let t = &self.deletions_by_type[k];
            if crate::text::str_eq(t.dir_type.as_str(), dir_type) {
                return Some((t.count, t.bytes));
            }
            k = k + 1;
        }
        None
    }

    /// Whether some record has kind `dir_type`.
    pub fn contains_type(&self, dir_type: &str) -> (b: bool)
        ensures
            b == exists|k: int| 0 <= k < self.deletions_by_type@.len()
                && self.deletions_by_type@[k].dir_type@ == dir_type@,
    {
        self.by_type(dir_type).is_some()
    }
}

/// Sum of the sizes of the rows that decoded.
pub open spec fn decoded_bytes(rows: Seq<Option<DeletionRecord>>) -> int
    decreases rows.len(),
{
    if rows.len() == 0 {
        0
    } else {
        decoded_bytes(rows.drop_last()) + match rows.last() { Some(r) => r@.size_bytes as int, None => 0 }
    }
}

/// Number of rows that decoded.
pub open spec fn decoded_count(rows: Seq<Option<DeletionRecord>>) -> int
    decreases rows.len(),
{
    if rows.len() == 0 {
        0
    } else {
        decoded_count(rows.drop_last()) + if rows.last() is Some { 1int } else { 0 }
    }
}

/// Number of decoded rows of kind `t`.
pub open spec fn type_count(rows: Seq<Option<DeletionRecord>>, t: Seq<char>) -> int
    decreases rows.len(),
{
    if rows.len() == 0 {
        0
    } else {
        type_count(rows.drop_last(), t) + match rows.last() {
            Some(r) => if r@.dir_type@ == t { 1int } else { 0 },
            None => 0,
        }
    }
}

/// Bytes of the decoded rows of kind `t`.
pub open spec fn type_bytes(rows: Seq<Option<DeletionRecord>>, t: Seq<char>) -> int
    decreases rows.len(),
{
    if rows.len() == 0 {
        0
    } else {
        type_bytes(rows.drop_last(), t) + match rows.last() {
            Some(r) => if r@.dir_type@ == t { r@.size_bytes as int } else { 0 },
            None => 0,
        }
    }
}

/// Every running byte total over the rows fits in an `i64`.
pub open spec fn running_total_fits(rows: Seq<Option<DeletionRecord>>) -> bool {
    forall|k: int| 0 <= k <= rows.len() ==> i64::MIN <= #[trigger] decoded_bytes(rows.take(k)) <= i64::MAX
}

/// Every running per-kind byte total over the rows fits in an `i64`.
pub open spec fn running_type_totals_fit(rows: Seq<Option<DeletionRecord>>) -> bool {
    forall|k: int, t: Seq<char>| 0 <= k <= rows.len() ==> i64::MIN <= #[trigger] type_bytes(rows.take(k), t) <= i64::MAX
}

/// Sum the sizes of every record that decodes; rows that failed to decode
/// (`None`) are skipped.
pub fn total_space_freed(rows: &Vec<Option<DeletionRecord>>) -> (total: i64)
    requires
        running_total_fits(rows@),
    ensures
        total == decoded_bytes(rows@),
{
    let mut total: i64 = 0;
    let mut i: usize = 0;
    assert(rows@.take(0) =~= Seq::<Option<DeletionRecord>>::empty());
    while i < rows.len()
        invariant
            i <= rows@.len(),
            running_total_fits(rows@),
            total == decoded_bytes(rows@.take(i as int)),
        decreases rows@.len() - i,
    {
        assert(rows@.take(i + 1).drop_last() =~= rows@.take(i as int));
        assert(rows@.take(i + 1).last() == rows@[i as int]);
        assert(i64::MIN <= decoded_bytes(rows@.take(i + 1)) <= i64::MAX);
        match &rows[i] {
            Some(rec) => {
                total = total + rec.size_bytes;
            },
            None => {},
        }
        i = i + 1;
    }
    assert(rows@.take(rows@.len() as int) =~= rows@);
    total
}

/// Sum of the counts of a breakdown.
pub open spec fn tally_counts(ts: Seq<TypeTally>) -> int
    decreases ts.len(),
{
    if ts.len() == 0 { 0 } else { tally_counts(ts.drop_last()) + ts.last().count }
}

/// Sum of the bytes of a breakdown.
pub open spec fn tally_bytes(ts: Seq<TypeTally>) -> int
    decreases ts.len(),
{
    if ts.len() == 0 { 0 } else { tally_bytes(ts.drop_last()) + ts.last().bytes }
}

proof fn lemma_tally_update(ts: Seq<TypeTally>, k: int, x: TypeTally)
    requires
        0 <= k < ts.len(),
    ensures
        tally_counts(ts.update(k, x)) == tally_counts(ts) - ts[k].count + x.count,
        tally_bytes(ts.update(k, x)) == tally_bytes(ts) - ts[k].bytes + x.bytes,
    decreases ts.len(),
{
    if k < ts.len() - 1 {
        lemma_tally_update(ts.drop_last(), k, x);
        assert(ts.update(k, x).drop_last() =~= ts.drop_last().update(k, x));
    } else {
        assert(ts.update(k, x).drop_last() =~= ts.drop_last());
    }
}

/// The breakdown `ts` describes `rows` exactly: one entry per distinct kind
/// present, each with that kind's count and bytes.
pub open spec fn describes(ts: Seq<TypeTally>, rows: Seq<Option<DeletionRecord>>) -> bool {
    &&& forall|a: int, b: int| 0 <= a < ts.len() && 0 <= b < ts.len() && a != b
            ==> #[trigger] ts[a].dir_type@ != #[trigger] ts[b].dir_type@
    &&& forall|k: int| 0 <= k < ts.len() ==> {
            &&& (#[trigger] ts[k]).count == type_count(rows, ts[k].dir_type@)
            &&& ts[k].bytes == type_bytes(rows, ts[k].dir_type@)
        }
    &&& forall|t: Seq<char>| #[trigger] type_count(rows, t) > 0
            <==> exists|k: int| 0 <= k < ts.len() && ts[k].dir_type@ == t
}

proof fn lemma_type_count_nonneg(rows: Seq<Option<DeletionRecord>>, t: Seq<char>)
    ensures
        type_count(rows, t) >= 0,
        type_count(rows, t) <= decoded_count(rows),
    decreases rows.len(),
{
    if rows.len() > 0 {
        lemma_type_count_nonneg(rows.drop_last(), t);
    }
}

/// Compute aggregate statistics over the stored rows; rows that failed to
/// decode (`None`) are skipped.
pub fn deletion_statistics(rows: &Vec<Option<DeletionRecord>>) -> (stats: DeletionStatistics)
    requires
        running_total_fits(rows@),
        running_type_totals_fit(rows@),
        rows@.len() <= i64::MAX,
    ensures
        stats.total_deletions == decoded_count(rows@),
        stats.total_space_freed == decoded_bytes(rows@),
        describes(stats.deletions_by_type@, rows@),
        tally_counts(stats.deletions_by_type@) == stats.total_deletions,
        tally_bytes(stats.deletions_by_type@) == stats.total_space_freed,
{
    let mut count: i64 = 0;
    let mut total: i64 = 0;
    let mut tallies: Vec<TypeTally> = Vec::new();
    let mut i: usize = 0;
    assert(rows@.take(0) =~= Seq::<Option<DeletionRecord>>::empty());
    while i < rows.len()
        invariant
            i <= rows@.len(),
            rows@.len() <= i64::MAX,
            running_total_fits(rows@),
            running_type_totals_fit(rows@),
            count == decoded_count(rows@.take(i as int)),
            count <= i,
            total == decoded_bytes(rows@.take(i as int)),
            describes(tallies@, rows@.take(i as int)),
            tally_counts(tallies@) == count,
            tally_bytes(tallies@) == total,
        decreases rows@.len() - i,
    {
        let ghost pre = rows@.take(i as int);
        let ghost next = rows@.take(i + 1);
        assert(next.drop_last() =~= pre);
        assert(next.last() == rows@[i as int]);
        assert(i64::MIN <= decoded_bytes(next) <= i64::MAX);
        match &rows[i] {
            None => {
                assert forall|t: Seq<char>| type_count(next, t) == type_count(pre, t)
                    && type_bytes(next, t) == type_bytes(pre, t) by {}
                assert(describes(tallies@, next));
            },
            Some(rec) => {
                let ghost key = rec.dir_type@;
                assert(i64::MIN <= type_bytes(next, key) <= i64::MAX);
                count = count + 1;
                total = total + rec.size_bytes;
                let mut k: usize = 0;
                while k < tallies.len() && !(tallies[k].dir_type == rec.dir_type)
                    invariant
                        k <= tallies@.len(),
                        forall|j: int| 0 <= j < k ==> tallies@[j].dir_type@ != rec.dir_type@,
                    decreases tallies@.len() - k,
                {
                    k = k + 1;
                }
                assert forall|t: Seq<char>| t != key implies type_count(next, t) == type_count(pre, t)
                    && type_bytes(next, t) == type_bytes(pre, t) by {}
                let ghost old_t = tallies@;
                if k < tallies.len() {
                    assert(tallies@[k as int].dir_type@ == key);
                    let c = tallies[k].count;
                    let b = tallies[k].bytes;
                    proof { lemma_type_count_nonneg(pre, key); }
                    let nt = TypeTally { dir_type: rec.dir_type.clone(), count: c + 1, bytes: b + rec.size_bytes };
                    proof { lemma_tally_update(old_t, k as int, nt); }
                    tallies.set(k, nt);
                    assert(tallies@[k as int].dir_type@ == key);
                    assert forall|t: Seq<char>| #[trigger] type_count(next, t) > 0
                        <==> exists|j: int| 0 <= j < tallies@.len() && tallies@[j].dir_type@ == t by {
                        lemma_type_count_nonneg(pre, t);
                        if t == key {
                            assert(tallies@[k as int].dir_type@ == t);
                        } else {
                            if type_count(next, t) > 0 {
                                assert(type_count(pre, t) > 0);
                                let j = choose|j: int| 0 <= j < old_t.len() && old_t[j].dir_type@ == t;
                                assert(j != k);
                                assert(tallies@[j] == old_t[j]);
                                assert(tallies@[j].dir_type@ == t);
                            }
                            if exists|j: int| 0 <= j < tallies@.len() && tallies@[j].dir_type@ == t {
                                let j = choose|j: int| 0 <= j < tallies@.len() && tallies@[j].dir_type@ == t;
                                assert(j != k);
                                assert(tallies@[j] == old_t[j]);
                                assert(old_t[j].dir_type@ == t);
                                assert(type_count(pre, t) > 0);
                            }
                        }
                    }
                    assert forall|a: int, b: int| 0 <= a < tallies@.len() && 0 <= b < tallies@.len() && a != b
                        implies #[trigger] tallies@[a].dir_type@ != #[trigger] tallies@[b].dir_type@ by {
                        assert(old_t[a].dir_type@ != old_t[b].dir_type@);
                    }
                    assert forall|j: int| 0 <= j < tallies@.len() implies {
                        &&& (#[trigger] tallies@[j]).count == type_count(next, tallies@[j].dir_type@)
                        &&& tallies@[j].bytes == type_bytes(next, tallies@[j].dir_type@)
                    } by {
                        if j != k {
                            assert(old_t[j].dir_type@ != key);
                        }
                    }
                } else {
                    proof { lemma_type_count_nonneg(pre, key); }
                    assert(type_count(pre, key) == 0) by {
                        if type_count(pre, key) > 0 {
                            let j = choose|j: int| 0 <= j < old_t.len() && old_t[j].dir_type@ == key;
                        }
                    }
                    proof { lemma_type_count_bytes_zero(pre, key); }
                    let nt = TypeTally { dir_type: rec.dir_type.clone(), count: 1, bytes: rec.size_bytes };
                    tallies.push(nt);
                    assert(tallies@.drop_last() =~= old_t);
                    assert forall|t: Seq<char>| #[trigger] type_count(next, t) > 0
                        <==> exists|j: int| 0 <= j < tallies@.len() && tallies@[j].dir_type@ == t by {
                        if type_count(next, t) > 0 && t != key {
                            let j = choose|j: int| 0 <= j < old_t.len() && old_t[j].dir_type@ == t;
                            assert(tallies@[j].dir_type@ == t);
                        }
                        if t == key {
                            assert(tallies@[old_t.len() as int].dir_type@ == t);
                        }
                        if exists|j: int| 0 <= j < tallies@.len() && tallies@[j].dir_type@ == t {
                            let j = choose|j: int| 0 <= j < tallies@.len() && tallies@[j].dir_type@ == t;
                            if j < old_t.len() {
                                assert(old_t[j].dir_type@ == t);
                            }
                            lemma_type_count_nonneg(pre, t);
                        }
                    }
                    assert forall|a: int, b: int| 0 <= a < tallies@.len() && 0 <= b < tallies@.len() && a != b
                        implies #[trigger] tallies@[a].dir_type@ != #[trigger] tallies@[b].dir_type@ by {
                        if a < old_t.len() && b < old_t.len() {
                            assert(old_t[a].dir_type@ != old_t[b].dir_type@);
                        } else if a < old_t.len() {
                            assert(type_count(pre, old_t[a].dir_type@) > 0);
                        } else {
                            assert(type_count(pre, old_t[b].dir_type@) > 0);
                        }
                    }
                    assert forall|j: int| 0 <= j < tallies@.len() implies {
                        &&& (#[trigger] tallies@[j]).count == type_count(next, tallies@[j].dir_type@)
                        &&& tallies@[j].bytes == type_bytes(next, tallies@[j].dir_type@)
                    } by {
                        if j < old_t.len() {
                            assert(type_count(pre, old_t[j].dir_type@) > 0);
                            assert(old_t[j].dir_type@ != key);
                        }
                    }
                }
            },
        }
        i = i + 1;
    }
    assert(rows@.take(rows@.len() as int) =~= rows@);
    DeletionStatistics { total_deletions: count, total_space_freed: total, deletions_by_type: tallies }
}

proof fn lemma_type_count_bytes_zero(rows: Seq<Option<DeletionRecord>>, t: Seq<char>)
    requires
        type_count(rows, t) == 0,
    ensures
        type_bytes(rows, t) == 0,
    decreases rows.len(),
{
    if rows.len() > 0 {
        lemma_type_count_nonneg(rows.drop_last(), t);
        lemma_type_count_bytes_zero(rows.drop_last(), t);
    }
}

/// Seconds in one day.
pub const SECS_PER_DAY: i64 = 86_400;

/// Cutoff for cleanup: `Some(now - days)` (in seconds), records deleted
/// strictly before it being stale; `None` for a negative `older_than_days`,
/// under which every record is stale, whatever its timestamp (one dated in
/// the future too).
pub fn cleanup_cutoff(now_secs: i64, older_than_days: i64) -> (c: Option<i64>)
    requires
        older_than_days >= 0 ==> older_than_days * SECS_PER_DAY <= i64::MAX,
        older_than_days >= 0 ==> i64::MIN <= now_secs - older_than_days * SECS_PER_DAY,
    ensures
        older_than_days < 0 ==> c is None,
        older_than_days < 0 ==> forall|k: (i64, u64)| #[trigger] is_stale(k, c),
        older_than_days >= 0 ==> c == Some((now_secs - older_than_days * SECS_PER_DAY) as i64),
        older_than_days >= 0 ==> forall|k: (i64, u64)|
            #[trigger] is_stale(k, c) <==> k.0 < now_secs - older_than_days * SECS_PER_DAY,
{
    if older_than_days < 0 {
        None
    } else {
        Some(now_secs - older_than_days * SECS_PER_DAY)
    }
}

/// Whether the record under time-index key `k` is removed by a cleanup with
/// this cutoff.
pub open spec fn is_stale(k: (i64, u64), cutoff: Option<i64>) -> bool {
    match cutoff {
        None => true,
        Some(c) => k.0 < c,
    }
}

/// The time-index keys `(deleted_at, id)` of stale records, in index order:
/// every key without a cutoff, else those deleted strictly before it.
pub fn stale_keys(index: &Vec<(i64, u64)>, cutoff: Option<i64>) -> (r: Vec<(i64, u64)>)
    ensures
        r@ == index@.filter(|k: (i64, u64)| is_stale(k, cutoff)),
        cutoff is None ==> r@ == index@,
{
    broadcast use vstd::seq_lib::group_filter_ensures;
    let ghost pred = |k: (i64, u64)| is_stale(k, cutoff);
    let mut r: Vec<(i64, u64)> = Vec::new();
    let mut i: usize = 0;
    assert(index@.take(0) =~= Seq::<(i64, u64)>::empty());
    while i < index.len()
        invariant
            i <= index@.len(),
            pred == (|k: (i64, u64)| is_stale(k, cutoff)),
            r@ == index@.take(i as int).filter(pred),
            cutoff is None ==> r@ == index@.take(i as int),
        decreases index@.len() - i,
    {
        let key = index[i];
        let ghost t = index@.take(i as int);
        assert(index@.take(i + 1) =~= t.push(key));
        proof { t.lemma_filter_push(key, pred); }
        let stale = match cutoff {
            None => true,
            Some(c) => key.0 < c,
        };
        if stale {
            r.push(key);
        }
        i = i + 1;
        assert(cutoff is None ==> r@ =~= index@.take(i as int));
    }
    assert(index@.take(index@.len() as int) =~= index@);
    r
}

} // verus!

verus! {

/// An initialization failure of the history store, carrying the underlying
/// error's text: a corrupt or incompatible store reports as this kind.
pub fn init_err(text: String) -> (e: ArtifactError)
    ensures
        e == ArtifactError::DatabaseInit(text),
{
    ArtifactError::DatabaseInit(text)
}

/// The history entry shown for a stored record.
pub open spec fn entry_of(r: RecordView) -> HistoryEntry {
    HistoryEntry { path: r.path, size_bytes: r.size_bytes, deleted_at: r.deleted_at }
}

/// The history entries of `records`, in order.
pub open spec fn entries_of(records: Seq<DeletionRecord>) -> Seq<HistoryEntry> {
    records.map_values(|r: DeletionRecord| entry_of(r@))
}

/// Group stored records (newest first, as the store returns them) into the
/// deletion runs shown by the history view.
pub fn runs_from_records(records: Vec<DeletionRecord>) -> (runs: Vec<HistoryRun>)
    requires
        run_totals_fit(entries_of(records@)),
    ensures
        runs@.map_values(|r: HistoryRun| run_view(r)) == runs_of(entries_of(records@)),
{
    let mut entries: Vec<HistoryEntry> = Vec::new();
    let mut i: usize = 0;
    while i < records.len()
        invariant
            i <= records@.len(),
            entries@ == entries_of(records@).take(i as int),
        decreases records@.len() - i,
    {
        let r = &records[i];
        entries.push(HistoryEntry { path: r.path.clone(), size_bytes: r.size_bytes, deleted_at: r.deleted_at });
        i = i + 1;
        assert(entries@ =~= entries_of(records@).take(i as int));
    }
    assert(entries_of(records@).take(records@.len() as int) =~= entries_of(records@));
    group_into_runs(entries)
}

} // verus!

verus! {

/// The records among `rows` (rows are `None` where an index entry had no
/// record), in order.
pub open spec fn present_rows(rows: Seq<Option<DeletionRecord>>) -> Seq<DeletionRecord>
    decreases rows.len(),
{
    if rows.len() == 0 {
        Seq::empty()
    } else {
        present_rows(rows.drop_last()) + match rows.last() {
            Some(r) => seq![r],
            None => Seq::empty(),
        }
    }
}

/// The abstract state of a newest-first history read.
pub struct RecentView {
    pub limit: nat,
    pub offered: Seq<Option<DeletionRecord>>,
    pub found: Seq<DeletionRecord>,
}

/// The collector of a history read: the caller offers the rows of the time
/// index newest first while it wants more, and keeps the first `limit`
/// records found (entries without a record are skipped).
pub struct RecentRecords {
    limit: usize,
    found: Vec<DeletionRecord>,
    offered: Ghost<Seq<Option<DeletionRecord>>>,
}

impl View for RecentRecords {
    type V = RecentView;

    closed spec fn view(&self) -> RecentView {
        RecentView { limit: self.limit as nat, offered: self.offered@, found: self.found@ }
    }
}

impl RecentRecords {
    /// The collector holds exactly the records offered so far, and at most
    /// `limit` of them.
    pub closed spec fn well_formed(&self) -> bool {
        &&& self.found@ == present_rows(self.offered@)
        &&& self.found@.len() <= self.limit
    }

    /// A collector keeping up to `limit` records.
    pub fn new(limit: usize) -> (r: Self)
        ensures
            r.well_formed(),
            r@.limit == limit,
            r@.offered.len() == 0,
            r@.found.len() == 0,
    {
        RecentRecords { limit, found: Vec::new(), offered: Ghost(Seq::empty()) }
    }

    /// Whether fewer than `limit` records were found so far.
    pub fn wants_more(&self) -> (b: bool)
        ensures
            b == (self@.found.len() < self@.limit),
    {
        self.found.len() < self.limit
    }

    /// Offer the next row (newest first): its record, if the index entry
    /// has one.
    pub fn offer(&mut self, row: Option<DeletionRecord>)
        requires
            old(self).well_formed(),
            old(self)@.found.len() < old(self)@.limit,
        ensures
            final(self).well_formed(),
            final(self)@.limit == old(self)@.limit,
            final(self)@.offered == old(self)@.offered.push(row),
            final(self)@.found == present_rows(old(self)@.offered.push(row)),
    {
        let ghost before = self.offered@;
        proof {
            assert(before.push(row).drop_last() =~= before);
        }
        match row {
            Some(r) => {
                self.found.push(r);
            },
            None => {},
        }
        self.offered = Ghost(before.push(row));
        assert(self.found@ =~= present_rows(self.offered@));
    }

    /// The records found, newest first.
    pub fn into_records(self) -> (v: Vec<DeletionRecord>)
        requires
            self.well_formed(),
        ensures
            v@ == present_rows(self@.offered),
            v@.len() <= self@.limit,
    {
        self.found
    }
}

} // verus!
