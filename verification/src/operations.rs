//! Health, inventories, backups and alerts.
pub mod archive;

use crate::engine::{ConfigModel, Core, extended};
use crate::error::{Error, Failure, agrees, agrees_with, fails};
use crate::json::{Json, JsonModel, items_of, lemma_items_of, text_of};
use crate::migration::clients::Sources;
use crate::model::{Audit, Client, ClientModel, Group, GroupModel, User, UserModel, UserView, UserViewModel, user_view};
use crate::mtls::{named_user, user_by_name};
use crate::outside::{base64url_bytes, base64url_decode, digest, digest_of};
use crate::reports::{EXAMINE_CAP, accepted_count, examined, scan_flags};
use crate::store::{Tx, TxModel};
use crate::table::{Row, Table, keyed, lemma_as_map, opt_view, position, views};
use crate::text::{before, byte_count, byte_len, chars_of, concat, contains, contains_text, decimal, decimal_text, first_at, has_control, has_whitespace, lemma_first_at_range, opt_is, opt_text, same, same_opt, slice_of, some_control, some_whitespace, split_once, text_lt, texts, trim, trimmed, whitespace};
use vstd::prelude::*;
use vstd::string::*;

verus! {

/// The most bytes of a complete archive.
pub const MAX_BACKUP_BYTES: usize = 67108864;

/// The most bytes of one page before it is sealed.
pub const MAX_BACKUP_PAGE_BYTES: usize = 8388608;

pub const BACKUP_V1: &'static str = "riauth.backup/v1";

pub const BACKUP_V2: &'static str = "riauth.backup/v2";

/// A record's key: the bucket and the key in it.
pub open spec fn record_key(name: Seq<char>) -> Result<(Seq<char>, Seq<char>), Failure> {
    let at = first_at(name, '/');
    if at >= name.len() || at == 0 || at + 1 == name.len() {
        Err(Failure::Bad("Invalid backup record key"@))
    } else {
        Ok((name.take(at), name.skip(at + 1)))
    }
}

pub fn split_record_key(name: &str) -> (r: Result<(String, String), Error>)
    ensures
        match record_key(name@) {
            Ok(p) => r is Ok && (r->Ok_0).0@ == p.0 && (r->Ok_0).1@ == p.1,
            Err(f) => fails(r, f),
        },
{
    proof {
        lemma_first_at_range(name@, '/');
    }
    match split_once(name, '/') {
        None => Err(Error::bad("Invalid backup record key")),
        Some(p) => {
            if p.0.as_str().is_empty() || p.1.as_str().is_empty() {
                Err(Error::bad("Invalid backup record key"))
            } else {
                Ok(p)
            }
        },
    }
}

proof fn lemma_first_slash(bucket: Seq<char>, rest: Seq<char>)
    requires
        !bucket.contains('/'),
    ensures
        first_at(bucket + seq!['/'] + rest, '/') == bucket.len(),
    decreases bucket.len(),
{
    let s = bucket + seq!['/'] + rest;
    if bucket.len() > 0 {
        assert(s[0] == bucket[0]);
        assert(bucket.contains(bucket[0]));
        let b = bucket.drop_first();
        assert forall|c: char| b.contains(c) implies bucket.contains(c) by {
            let i = b.index_of(c);
            assert(bucket[i + 1] == c);
        }
        assert(s.drop_first() =~= b + seq!['/'] + rest);
        assert(s.skip(1) =~= b + seq!['/'] + rest);
        lemma_first_slash(b, rest);
    } else {
        assert(s[0] == '/');
    }
}

/// A record's key is taken apart into what it was put together from: bucket names hold no slash.
pub proof fn record_keys_come_apart(bucket: Seq<char>, key: Seq<char>)
    requires
        bucket.len() > 0,
        key.len() > 0,
        !bucket.contains('/'),
    ensures
        record_key(bucket + seq!['/'] + key) == Ok::<(Seq<char>, Seq<char>), Failure>((bucket, key)),
{
    let s = bucket + seq!['/'] + key;
    lemma_first_slash(bucket, key);
    assert(s.take(bucket.len() as int) =~= bucket);
    assert(s.skip((bucket.len() + 1) as int) =~= key);
}

/// What a page of records is sealed with.
pub open spec fn chunk_context(index: nat) -> Seq<char> {
    "riauth.backup/v2/records/"@ + decimal(index)
}

pub fn record_chunk_aad(index: usize) -> (r: String)
    ensures
        r@ == chunk_context(index as nat),
{
    let n = decimal_text(index as u64);
    concat("riauth.backup/v2/records/", n.as_str())
}

/// The schema is one that this version can read.
pub open spec fn readable_schema(schema: Option<JsonModel>, current: u64) -> bool {
    schema matches Some(v) && (v.number() matches Some(n) && 1 <= n <= current)
}

pub fn schema_supported(schema: &Option<Json>, current: u64) -> (r: bool)
    ensures
        r == readable_schema(opt_view(*schema), current),
{
    match schema {
        None => false,
        Some(v) => match v.as_number() {
            Some(n) => 1 <= n && n <= current,
            None => false,
        },
    }
}

/// A backup key: 32 bytes.
pub open spec fn backup_key(text: Seq<char>) -> Result<Seq<u8>, Failure> {
    match base64url_bytes(trimmed(text)) {
        None => Err(Failure::Bad("Invalid backup key encoding"@)),
        Some(b) => if b.len() == 32 {
            Ok(b)
        } else {
            Err(Failure::Bad("Backup key must contain 32 bytes"@))
        },
    }
}

pub fn decode_key(text: &str) -> (r: Result<Vec<u8>, Error>)
    ensures
        match backup_key(text@) {
            Ok(b) => r is Ok && r->Ok_0@ == b,
            Err(f) => fails(r, f),
        },
{
    let t = trim(text);
    match base64url_decode(t.as_str()) {
        None => Err(Error::bad("Invalid backup key encoding")),
        Some(b) => {
            if b.len() == 32 {
                Ok(b)
            } else {
                Err(Error::bad("Backup key must contain 32 bytes"))
            }
        },
    }
}

/// How far a backup has come.
pub struct BackupProgress {
    /// The bytes of the archive so far, with room for what encloses it.
    pub bytes: u64,
    pub digests: Vec<String>,
    pub records: u64,
    pub after: Option<String>,
}

/// What a [`BackupProgress`] holds.
pub struct BackupProgressModel {
    pub bytes: u64,
    pub digests: Seq<Seq<char>>,
    pub records: u64,
    pub after: Option<Seq<char>>,
}

impl View for BackupProgress {
    type V = BackupProgressModel;

    open spec fn view(&self) -> BackupProgressModel {
        BackupProgressModel {
            bytes: self.bytes,
            digests: crate::text::texts(self.digests@),
            records: self.records,
            after: crate::text::opt_text(self.after),
        }
    }
}

impl Row for BackupProgress {
    fn dup(&self) -> (r: Self) {
        BackupProgress {
            bytes: self.bytes,
            digests: crate::text::copy_list(&self.digests),
            records: self.records,
            after: crate::text::copy_opt(&self.after),
        }
    }
}

/// A backup that has sealed nothing yet.
pub open spec fn backup_started() -> BackupProgressModel {
    BackupProgressModel { bytes: 512, digests: Seq::empty(), records: 0, after: None }
}

/// One more sealed page.
pub open spec fn page_sealed(
    p: BackupProgressModel,
    last_key: Seq<char>,
    records: u64,
    sealed: Seq<char>,
) -> Result<BackupProgressModel, Failure> {
    if p.after is Some && !text_lt(p.after->0, last_key) {
        Err(Failure::Internal("Backup page did not advance"@))
    } else if p.bytes + byte_count(sealed) + 4 > MAX_BACKUP_BYTES {
        Err(Failure::Bad("Backup archive exceeds 64 MiB"@))
    } else {
        Ok(
            BackupProgressModel {
                bytes: (p.bytes + byte_count(sealed) + 4) as u64,
                digests: p.digests.push(digest_of(sealed)),
                records: extended(p.records, records),
                after: Some(last_key),
            },
        )
    }
}

impl BackupProgress {
    pub fn start() -> (r: BackupProgress)
        ensures
            r@ == backup_started(),
    {
        let r = BackupProgress { bytes: 512, digests: Vec::new(), records: 0, after: None };
        assert(texts(r.digests@) =~= Seq::<Seq<char>>::empty());
        r
    }

    /// Takes a sealed page of `records` records up to `last_key`.
    pub fn seal_page(&mut self, last_key: &str, records: u64, sealed: &str) -> (r: Result<(), Error>)
        ensures
            match page_sealed(old(self)@, last_key@, records, sealed@) {
                Ok(p) => r is Ok && final(self)@ == p,
                Err(f) => fails(r, f) && final(self)@ == old(self)@,
            },
    {
        if let Some(a) = &self.after {
            if !before(a.as_str(), last_key) {
                return Err(Error::internal("Backup page did not advance"));
            }
        }
        let n: u64 = byte_len(sealed) as u64;
        if n > 67108864 || self.bytes > 67108864 || self.bytes + n + 4 > 67108864 {
            return Err(Error::bad("Backup archive exceeds 64 MiB"));
        }
        self.bytes = self.bytes + n + 4;
        let ghost was = texts(self.digests@);
        let d = digest(sealed);
        let ghost dm = d@;
        self.digests.push(d);
        assert(texts(self.digests@) =~= was.push(dm));
        self.records = self.records.saturating_add(records);
        self.after = Some(last_key.to_owned());
        Ok(())
    }

    /// Whether the archive still fits with its sealed manifest.
    pub fn fits_with(&self, manifest: &str) -> (r: bool)
        ensures
            r == (self@.bytes + byte_count(manifest@) + 4 <= MAX_BACKUP_BYTES),
    {
        let n: u64 = byte_len(manifest) as u64;
        n <= 67108864 && self.bytes <= 67108864 && self.bytes + n + 4 <= 67108864
    }
}

/// A backup in progress never outgrows the limit, and each page goes further than the one before.
pub proof fn backups_stay_bounded(
    p: BackupProgressModel,
    last_key: Seq<char>,
    records: u64,
    sealed: Seq<char>,
)
    requires
        page_sealed(p, last_key, records, sealed) is Ok,
    ensures
        (page_sealed(p, last_key, records, sealed)->Ok_0).bytes <= MAX_BACKUP_BYTES,
        p.after matches Some(a) ==> text_lt(a, last_key),
        (page_sealed(p, last_key, records, sealed)->Ok_0).digests.len() == p.digests.len() + 1,
{
}

/// The manifest of an archive, once it was opened.
pub struct ArchiveManifest {
    pub kind: String,
    pub api_version: String,
    pub created_at: u64,
    pub issuer: String,
    pub record_count: u64,
    pub digests: Vec<String>,
}

/// What a [`ArchiveManifest`] holds.
pub struct ArchiveManifestModel {
    pub kind: Seq<char>,
    pub api_version: Seq<char>,
    pub created_at: u64,
    pub issuer: Seq<char>,
    pub record_count: u64,
    pub digests: Seq<Seq<char>>,
}

impl View for ArchiveManifest {
    type V = ArchiveManifestModel;

    open spec fn view(&self) -> ArchiveManifestModel {
        ArchiveManifestModel {
            kind: self.kind@,
            api_version: self.api_version@,
            created_at: self.created_at,
            issuer: self.issuer@,
            record_count: self.record_count,
            digests: crate::text::texts(self.digests@),
        }
    }
}

impl Row for ArchiveManifest {
    fn dup(&self) -> (r: Self) {
        ArchiveManifest {
            kind: self.kind.clone(),
            api_version: self.api_version.clone(),
            created_at: self.created_at,
            issuer: self.issuer.clone(),
            record_count: self.record_count,
            digests: crate::text::copy_list(&self.digests),
        }
    }
}

/// A page of records, once it was opened.
pub struct RecordsChunk {
    pub kind: String,
    pub index: u64,
    pub names: Vec<String>,
    /// The values of the records, in the order of their names.
    pub values: Vec<Json>,
}

/// What a [`RecordsChunk`] holds.
pub struct RecordsChunkModel {
    pub kind: Seq<char>,
    pub index: u64,
    pub names: Seq<Seq<char>>,
    pub values: Seq<JsonModel>,
}

impl View for RecordsChunk {
    type V = RecordsChunkModel;

    open spec fn view(&self) -> RecordsChunkModel {
        RecordsChunkModel {
            kind: self.kind@,
            index: self.index,
            names: crate::text::texts(self.names@),
            values: crate::table::views(self.values@),
        }
    }
}

impl Row for RecordsChunk {
    fn dup(&self) -> (r: Self) {
        RecordsChunk {
            kind: self.kind.clone(),
            index: self.index,
            names: crate::text::copy_list(&self.names),
            values: crate::table::dup_list(&self.values),
        }
    }
}

/// What the pages of an archive have shown.
pub struct ArchiveCheck {
    pub next: usize,
    pub count: u64,
    pub schema: Option<Json>,
    pub issuer: Option<Json>,
}

/// What a [`ArchiveCheck`] holds.
pub struct ArchiveCheckModel {
    pub next: usize,
    pub count: u64,
    pub schema: Option<JsonModel>,
    pub issuer: Option<JsonModel>,
}

impl View for ArchiveCheck {
    type V = ArchiveCheckModel;

    open spec fn view(&self) -> ArchiveCheckModel {
        ArchiveCheckModel {
            next: self.next,
            count: self.count,
            schema: crate::table::opt_view(self.schema),
            issuer: crate::table::opt_view(self.issuer),
        }
    }
}

impl Row for ArchiveCheck {
    fn dup(&self) -> (r: Self) {
        ArchiveCheck {
            next: self.next,
            count: self.count,
            schema: crate::table::dup_opt(&self.schema),
            issuer: crate::table::dup_opt(&self.issuer),
        }
    }
}

pub open spec fn bad_payload() -> Failure {
    Failure::Bad("Backup payload is invalid"@)
}

/// Whether a manifest fits its archive. `pages` is how many pages stand before it.
pub open spec fn manifest_check(m: ArchiveManifestModel, created_at: Option<u64>, pages: nat) -> Result<
    (),
    Failure,
> {
    if m.kind != "manifest"@ || m.api_version != BACKUP_V2@ {
        Err(Failure::Bad("Unsupported backup format"@))
    } else if created_at != Some(m.created_at) || m.digests.len() != pages {
        Err(bad_payload())
    } else {
        Ok(())
    }
}

pub fn check_manifest(m: &ArchiveManifest, created_at: Option<u64>, pages: usize) -> (r: Result<
    (),
    Error,
>)
    ensures
        agrees(r, manifest_check(m@, created_at, pages as nat)),
{
    assert(texts(m.digests@).len() == m.digests.len());
    if !same(m.kind.as_str(), "manifest") || !same(m.api_version.as_str(), BACKUP_V2) {
        return Err(Error::bad("Unsupported backup format"));
    }
    if created_at != Some(m.created_at) || m.digests.len() != pages {
        return Err(Error::bad("Backup payload is invalid"));
    }
    Ok(())
}

/// The records of a page, noted up to the `n`-th.
pub open spec fn records_noted(c: ArchiveCheckModel, p: RecordsChunkModel, n: nat) -> Result<
    ArchiveCheckModel,
    Failure,
>
    decreases n,
{
    if n == 0 {
        Ok(c)
    } else {
        match records_noted(c, p, (n - 1) as nat) {
            Err(f) => Err(f),
            Ok(x) => {
                let name = p.names[n - 1];
                match record_key(name) {
                    Err(f) => Err(f),
                    Ok(_) => Ok(
                        ArchiveCheckModel {
                            count: extended(x.count, 1),
                            schema: if name == "meta/schema"@ {
                                Some(p.values[n - 1])
                            } else {
                                x.schema
                            },
                            issuer: if name == "meta/issuer"@ {
                                Some(p.values[n - 1])
                            } else {
                                x.issuer
                            },
                            ..x
                        },
                    ),
                }
            },
        }
    }
}

proof fn lemma_records_fail(c: ArchiveCheckModel, p: RecordsChunkModel, n: nat, m: nat)
    requires
        n <= m,
        records_noted(c, p, n) is Err,
    ensures
        records_noted(c, p, m) == records_noted(c, p, n),
    decreases m - n,
{
    if n < m {
        lemma_records_fail(c, p, n, (m - 1) as nat);
    }
}

/// What opening a page gave.
pub open spec fn opened_page(r: Result<RecordsChunk, Error>) -> Result<RecordsChunkModel, Failure> {
    match r {
        Ok(p) => Ok(p@),
        Err(e) => Err(e@),
    }
}

/// What opening each page gave.
pub open spec fn opened_pages(v: Seq<Result<RecordsChunk, Error>>) -> Seq<
    Result<RecordsChunkModel, Failure>,
> {
    v.map_values(|r: Result<RecordsChunk, Error>| opened_page(r))
}

/// One more page of an archive: `sealed` is its sealed text, `page` what it holds once it is opened.
pub open spec fn page_taken(
    c: ArchiveCheckModel,
    m: ArchiveManifestModel,
    sealed: Seq<char>,
    page: Result<RecordsChunkModel, Failure>,
) -> Result<ArchiveCheckModel, Failure> {
    if c.next >= m.digests.len() || digest_of(sealed) != m.digests[c.next as int] {
        Err(bad_payload())
    } else {
        match page {
            Err(f) => Err(f),
            Ok(p) => if p.kind != "records"@ || p.index != c.next || p.names.len() != p.values.len() {
                Err(bad_payload())
            } else {
                match records_noted(c, p, p.names.len()) {
                    Err(f) => Err(f),
                    Ok(x) => Ok(ArchiveCheckModel { next: (c.next + 1) as usize, ..x }),
                }
            },
        }
    }
}

/// Whether an archive is complete and for this version: every page that the manifest lists was
/// taken.
pub open spec fn archive_check(c: ArchiveCheckModel, m: ArchiveManifestModel, current: u64) -> Result<
    (),
    Failure,
> {
    if c.next != m.digests.len() {
        Err(bad_payload())
    } else if c.count != m.record_count || !readable_schema(c.schema, current) {
        Err(Failure::Bad("Unsupported backup schema"@))
    } else if c.issuer != Some(JsonModel::Text(m.issuer)) {
        Err(Failure::Bad("Backup issuer mismatch"@))
    } else {
        Ok(())
    }
}

impl ArchiveCheck {
    pub fn start() -> (r: ArchiveCheck)
        ensures
            r@ == (ArchiveCheckModel { next: 0, count: 0, schema: None, issuer: None }),
    {
        ArchiveCheck { next: 0, count: 0, schema: None, issuer: None }
    }

    #[verifier::loop_isolation(false)]
    fn note_records(&self, p: &RecordsChunk) -> (r: Result<ArchiveCheck, Error>)
        requires
            p.names.len() == p.values.len(),
        ensures
            agrees_with(r, records_noted(self@, p@, p@.names.len())),
    {
        let mut c = self.dup();
        let ghost c0 = self@;
        let ghost pm = p@;
        let n: usize = p.names.len();
        assert(pm.names.len() == n);
        assert(pm.values.len() == n);
        let mut i: usize = 0;
        while i < n
            invariant
                i <= n,
                records_noted(c0, pm, i as nat) == Ok::<ArchiveCheckModel, Failure>(c@),
            decreases n - i,
        {
            assert(pm.names[i as int] == p.names[i as int]@);
            assert(pm.values[i as int] == p.values[i as int]@);
            let name = p.names[i].as_str();
            if let Err(e) = split_record_key(name) {
                proof {
                    lemma_records_fail(c0, pm, (i + 1) as nat, n as nat);
                }
                return Err(e);
            }
            c.count = c.count.saturating_add(1);
            if same(name, "meta/schema") {
                c.schema = Some(p.values[i].dup());
            }
            if same(name, "meta/issuer") {
                c.issuer = Some(p.values[i].dup());
            }
            i = i + 1;
        }
        Ok(c)
    }

    /// Takes the next page of the archive.
    pub fn take_page(&mut self, manifest: &ArchiveManifest, sealed: &str, page: &Result<
        RecordsChunk,
        Error,
    >) -> (r: Result<(), Error>)
        ensures
            match page_taken(old(self)@, manifest@, sealed@, opened_page(*page)) {
                Ok(c) => r is Ok && final(self)@ == c,
                Err(f) => fails(r, f) && final(self)@ == old(self)@,
            },
    {
        assert(texts(manifest.digests@).len() == manifest.digests.len());
        if self.next >= manifest.digests.len() {
            return Err(Error::bad("Backup payload is invalid"));
        }
        assert(manifest@.digests[self.next as int] == manifest.digests[self.next as int]@);
        let d = digest(sealed);
        if !same(d.as_str(), manifest.digests[self.next].as_str()) {
            return Err(Error::bad("Backup payload is invalid"));
        }
        let p: &RecordsChunk = match page {
            Err(e) => return Err(e.dup()),
            Ok(p) => p,
        };
        assert(texts(p.names@).len() == p.names.len());
        assert(views(p.values@).len() == p.values.len());
        if !same(p.kind.as_str(), "records") || p.index != self.next as u64 || p.names.len()
            != p.values.len() {
            return Err(Error::bad("Backup payload is invalid"));
        }
        match self.note_records(p) {
            Err(e) => Err(e),
            Ok(c) => {
                let next: usize = self.next + 1;
                *self = c;
                self.next = next;
                Ok(())
            },
        }
    }

    /// Ends the check of an archive.
    pub fn finish(&self, manifest: &ArchiveManifest, current: u64) -> (r: Result<(), Error>)
        ensures
            agrees(r, archive_check(self@, manifest@, current)),
    {
        assert(texts(manifest.digests@).len() == manifest.digests.len());
        if self.next != manifest.digests.len() {
            return Err(Error::bad("Backup payload is invalid"));
        }
        if self.count != manifest.record_count || !schema_supported(&self.schema, current) {
            return Err(Error::bad("Unsupported backup schema"));
        }
        let fits = match &self.issuer {
            Some(Json::Text(t)) => same(t.as_str(), manifest.issuer.as_str()),
            _ => false,
        };
        if !fits {
            return Err(Error::bad("Backup issuer mismatch"));
        }
        Ok(())
    }
}

/// A page that was changed, moved or exchanged is refused: only the page whose digest the sealed
/// manifest lists at this place is taken.
pub proof fn archives_cannot_be_rearranged(
    c: ArchiveCheckModel,
    m: ArchiveManifestModel,
    sealed: Seq<char>,
    page: Result<RecordsChunkModel, Failure>,
)
    requires
        page_taken(c, m, sealed, page) is Ok,
    ensures
        c.next < m.digests.len(),
        digest_of(sealed) == m.digests[c.next as int],
        page is Ok,
        (page->Ok_0).index == c.next,
        c.next < usize::MAX ==> (page_taken(c, m, sealed, page)->Ok_0).next == c.next + 1,
{
    let p = page->Ok_0;
    lemma_notes_keep_place(c, p, p.names.len());
}

proof fn lemma_notes_keep_place(c: ArchiveCheckModel, p: RecordsChunkModel, n: nat)
    requires
        records_noted(c, p, n) is Ok,
    ensures
        (records_noted(c, p, n)->Ok_0).next == c.next,
    decreases n,
{
    if n > 0 {
        lemma_notes_keep_place(c, p, (n - 1) as nat);
    }
}

/// The records of a page, written to `m` up to the `n`-th. A record that is there already is
/// refused.
pub open spec fn records_written(
    m: Map<Seq<char>, JsonModel>,
    p: RecordsChunkModel,
    n: nat,
) -> Result<Map<Seq<char>, JsonModel>, Failure>
    decreases n,
{
    if n == 0 {
        Ok(m)
    } else {
        match records_written(m, p, (n - 1) as nat) {
            Err(f) => Err(f),
            Ok(w) => match record_key(p.names[n - 1]) {
                Err(f) => Err(f),
                Ok(_) => if w.dom().contains(p.names[n - 1]) {
                    Err(bad_payload())
                } else {
                    Ok(w.insert(p.names[n - 1], p.values[n - 1]))
                },
            },
        }
    }
}

proof fn lemma_writing_fails(m: Map<Seq<char>, JsonModel>, p: RecordsChunkModel, n: nat, l: nat)
    requires
        n <= l,
        records_written(m, p, n) is Err,
    ensures
        records_written(m, p, l) == records_written(m, p, n),
    decreases l - n,
{
    if n < l {
        lemma_writing_fails(m, p, n, (l - 1) as nat);
    }
}

/// The pages of an archive, written in order up to the `n`-th.
pub open spec fn pages_written(pages: Seq<Result<RecordsChunkModel, Failure>>, n: nat) -> Result<
    Map<Seq<char>, JsonModel>,
    Failure,
>
    decreases n,
{
    if n == 0 {
        Ok(Map::empty())
    } else {
        match pages_written(pages, (n - 1) as nat) {
            Err(f) => Err(f),
            Ok(m) => match pages[n - 1] {
                Err(f) => Err(f),
                Ok(p) => if p.kind != "records"@ || p.index != n - 1 || p.names.len()
                    != p.values.len() {
                    Err(bad_payload())
                } else {
                    records_written(m, p, p.names.len())
                },
            },
        }
    }
}

proof fn lemma_pages_fail(pages: Seq<Result<RecordsChunkModel, Failure>>, n: nat, l: nat)
    requires
        n <= l,
        pages_written(pages, n) is Err,
    ensures
        pages_written(pages, l) == pages_written(pages, n),
    decreases l - n,
{
    if n < l {
        lemma_pages_fail(pages, n, (l - 1) as nat);
    }
}

/// Writes the records of a page.
#[verifier::loop_isolation(false)]
fn write_records(records: &mut Table<Json>, p: &RecordsChunk) -> (r: Result<(), Error>)
    requires
        p.names.len() == p.values.len(),
    ensures
        match records_written(old(records)@, p@, p@.names.len()) {
            Ok(m) => r is Ok && final(records)@ == m,
            Err(f) => fails(r, f),
        },
{
    let ghost m0 = records@;
    let ghost pm = p@;
    let n: usize = p.names.len();
    assert(pm.names.len() == n);
    assert(pm.values.len() == n);
    let mut i: usize = 0;
    while i < n
        invariant
            i <= n,
            records_written(m0, pm, i as nat) == Ok::<Map<Seq<char>, JsonModel>, Failure>(records@),
        decreases n - i,
    {
        assert(pm.names[i as int] == p.names[i as int]@);
        assert(pm.values[i as int] == p.values[i as int]@);
        let name = p.names[i].as_str();
        if let Err(e) = split_record_key(name) {
            proof {
                lemma_writing_fails(m0, pm, (i + 1) as nat, n as nat);
            }
            return Err(e);
        }
        if records.has(name) {
            proof {
                lemma_writing_fails(m0, pm, (i + 1) as nat, n as nat);
            }
            return Err(Error::bad("Backup payload is invalid"));
        }
        records.put(name, p.values[i].dup());
        i = i + 1;
    }
    Ok(())
}

/// The records that the pages of an archive hold.
pub open spec fn imported(pages: Seq<Result<RecordsChunkModel, Failure>>, record_count: u64) -> Result<
    Map<Seq<char>, JsonModel>,
    Failure,
> {
    match pages_written(pages, pages.len()) {
        Err(f) => Err(f),
        Ok(m) => if m.dom().len() != record_count {
            Err(bad_payload())
        } else {
            Ok(m)
        },
    }
}

/// Imports the pages of an archive, in their order: each record once, and as many as the manifest
/// counts.
#[verifier::loop_isolation(false)]
pub fn import_pages(pages: &Vec<Result<RecordsChunk, Error>>, record_count: u64) -> (r: Result<
    Table<Json>,
    Error,
>)
    ensures
        agrees_with(r, imported(opened_pages(pages@), record_count)),
{
    let ghost ps = opened_pages(pages@);
    assert(ps.len() == pages.len());
    let mut records: Table<Json> = Table::new();
    assert(records@ =~= Map::empty());
    let mut i: usize = 0;
    while i < pages.len()
        invariant
            i <= pages.len(),
            pages_written(ps, i as nat) == Ok::<Map<Seq<char>, JsonModel>, Failure>(records@),
        decreases pages.len() - i,
    {
        assert(ps[i as int] == opened_page(pages[i as int]));
        let p: &RecordsChunk = match &pages[i] {
            Err(e) => {
                proof {
                    lemma_pages_fail(ps, (i + 1) as nat, ps.len());
                }
                return Err(e.dup());
            },
            Ok(p) => p,
        };
        assert(texts(p.names@).len() == p.names.len());
        assert(views(p.values@).len() == p.values.len());
        if !same(p.kind.as_str(), "records") || p.index != i as u64 || p.names.len()
            != p.values.len() {
            proof {
                lemma_pages_fail(ps, (i + 1) as nat, ps.len());
            }
            return Err(Error::bad("Backup payload is invalid"));
        }
        if let Err(e) = write_records(&mut records, p) {
            proof {
                lemma_pages_fail(ps, (i + 1) as nat, ps.len());
            }
            return Err(e);
        }
        i = i + 1;
    }
    let names = records.keys();
    if names.len() as u64 != record_count {
        return Err(Error::bad("Backup payload is invalid"));
    }
    Ok(records)
}

/// The sealed pages of an archive and, behind them, its sealed manifest.
pub open spec fn sealed_parts(envelope: JsonModel) -> Result<Seq<JsonModel>, Failure> {
    match envelope.member("chunks"@) {
        Some(JsonModel::Array(v)) => if v.len() == 0 {
            Err(Failure::Bad("Unsupported backup format"@))
        } else if v.last().text() is None {
            Err(Failure::Bad("Invalid backup ciphertext"@))
        } else {
            Ok(v)
        },
        _ => Err(Failure::Bad("Unsupported backup format"@)),
    }
}

/// The first `n` pages of an archive, taken in order.
pub open spec fn pages_taken(
    m: ArchiveManifestModel,
    parts: Seq<JsonModel>,
    pages: Seq<Result<RecordsChunkModel, Failure>>,
    n: nat,
) -> Result<ArchiveCheckModel, Failure>
    decreases n,
{
    if n == 0 {
        Ok(ArchiveCheckModel { next: 0, count: 0, schema: None, issuer: None })
    } else {
        match pages_taken(m, parts, pages, (n - 1) as nat) {
            Err(f) => Err(f),
            Ok(c) => match parts[n - 1].text() {
                None => Err(Failure::Bad("Invalid backup ciphertext"@)),
                Some(sealed) => page_taken(c, m, sealed, pages[n - 1]),
            },
        }
    }
}

proof fn lemma_taking_fails(
    m: ArchiveManifestModel,
    parts: Seq<JsonModel>,
    pages: Seq<Result<RecordsChunkModel, Failure>>,
    n: nat,
    l: nat,
)
    requires
        n <= l,
        pages_taken(m, parts, pages, n) is Err,
    ensures
        pages_taken(m, parts, pages, l) == pages_taken(m, parts, pages, n),
    decreases l - n,
{
    if n < l {
        lemma_taking_fails(m, parts, pages, n, (l - 1) as nat);
    }
}

/// The records that an archive in pages restores. `manifest` and `pages` are what opening its parts
/// gave.
pub open spec fn restored(
    envelope: JsonModel,
    manifest: Result<ArchiveManifestModel, Failure>,
    pages: Seq<Result<RecordsChunkModel, Failure>>,
    current: u64,
) -> Result<Map<Seq<char>, JsonModel>, Failure> {
    if envelope.member("encrypted"@) != Some(JsonModel::Bool(true)) {
        Err(Failure::Bad("Unsupported backup format"@))
    } else {
        match sealed_parts(envelope) {
            Err(f) => Err(f),
            Ok(parts) => match manifest {
                Err(f) => Err(f),
                Ok(m) => match manifest_check(
                    m,
                    number_member(envelope, "created_at"@),
                    (parts.len() - 1) as nat,
                ) {
                    Err(f) => Err(f),
                    Ok(_) => match pages_taken(m, parts, pages, (parts.len() - 1) as nat) {
                        Err(f) => Err(f),
                        Ok(c) => match archive_check(c, m, current) {
                            Err(f) => Err(f),
                            Ok(_) => imported(pages, m.record_count),
                        },
                    },
                },
            },
        }
    }
}

/// A member that is a whole number from zero up.
pub open spec fn number_member(j: JsonModel, key: Seq<char>) -> Option<u64> {
    match j.member(key) {
        Some(JsonModel::Unsigned(n)) => Some(n),
        _ => None,
    }
}

/// How many sealed pages stand before the sealed manifest of an archive.
pub fn count_pages(envelope: &Json) -> (r: Result<usize, Error>)
    ensures
        match sealed_parts(envelope@) {
            Ok(v) => r is Ok && r->Ok_0 == v.len() - 1,
            Err(f) => fails(r, f),
        },
{
    match envelope.get("chunks") {
        Some(Json::Array(v)) => {
            proof {
                lemma_items_of(*v);
            }
            if v.len() == 0 {
                return Err(Error::bad("Unsupported backup format"));
            }
            assert(items_of(v@).last() == v[v.len() - 1]@);
            if v[v.len() - 1].as_text().is_none() {
                return Err(Error::bad("Invalid backup ciphertext"));
            }
            Ok(v.len() - 1)
        },
        _ => Err(Error::bad("Unsupported backup format")),
    }
}

/// The records that an archive in pages restores: every part is checked before the first record
/// is written.
#[verifier::loop_isolation(false)]
pub fn restore(
    envelope: &Json,
    manifest: &Result<ArchiveManifest, Error>,
    pages: &Vec<Result<RecordsChunk, Error>>,
    current: u64,
) -> (r: Result<Table<Json>, Error>)
    requires
        sealed_parts(envelope@) matches Ok(parts) ==> pages.len() == parts.len() - 1,
    ensures
        agrees_with(
            r,
            restored(envelope@, opened_manifest(*manifest), opened_pages(pages@), current),
        ),
{
    let ghost ps = opened_pages(pages@);
    assert(ps.len() == pages.len());
    match envelope.get("encrypted") {
        Some(Json::Bool(b)) => {
            if !*b {
                return Err(Error::bad("Unsupported backup format"));
            }
        },
        _ => return Err(Error::bad("Unsupported backup format")),
    }
    let count: usize = match count_pages(envelope) {
        Ok(n) => n,
        Err(e) => return Err(e),
    };
    let m: &ArchiveManifest = match manifest {
        Ok(m) => m,
        Err(e) => return Err(e.dup()),
    };
    let created: Option<u64> = match envelope.get("created_at") {
        Some(Json::Unsigned(n)) => Some(*n),
        _ => None,
    };
    if let Err(e) = check_manifest(m, created, count) {
        return Err(e);
    }
    let parts: &Vec<Json> = match envelope.get("chunks") {
        Some(Json::Array(v)) => v,
        _ => return Err(Error::bad("Unsupported backup format")),
    };
    proof {
        lemma_items_of(*parts);
    }
    let ghost sealed = items_of(parts@);
    let mut c = ArchiveCheck::start();
    let mut i: usize = 0;
    while i < count
        invariant
            i <= count,
            count == pages.len(),
            count + 1 == parts.len(),
            pages_taken(m@, sealed, ps, i as nat) == Ok::<ArchiveCheckModel, Failure>(c@),
        decreases count - i,
    {
        assert(sealed[i as int] == parts[i as int]@);
        assert(ps[i as int] == opened_page(pages[i as int]));
        let text = match parts[i].as_text() {
            Some(t) => t,
            None => {
                proof {
                    lemma_taking_fails(m@, sealed, ps, (i + 1) as nat, count as nat);
                }
                return Err(Error::bad("Invalid backup ciphertext"));
            },
        };
        if let Err(e) = c.take_page(m, text.as_str(), &pages[i]) {
            proof {
                lemma_taking_fails(m@, sealed, ps, (i + 1) as nat, count as nat);
            }
            return Err(e);
        }
        i = i + 1;
    }
    if let Err(e) = c.finish(m, current) {
        return Err(e);
    }
    import_pages(pages, m.record_count)
}

/// What opening the manifest gave.
pub open spec fn opened_manifest(r: Result<ArchiveManifest, Error>) -> Result<
    ArchiveManifestModel,
    Failure,
> {
    match r {
        Ok(m) => Ok(m@),
        Err(e) => Err(e@),
    }
}

/// What an archive in one piece holds, once it was opened.
pub struct WholeBackup {
    pub api_version: String,
    pub issuer: String,
    pub records: Table<Json>,
}

/// The sealed text of an archive in one piece.
pub fn sealed_text(envelope: &Json) -> (r: Result<String, Error>)
    ensures
        match text_of(envelope@, "ciphertext"@) {
            Some(t) => r is Ok && r->Ok_0@ == t,
            None => fails(r, Failure::Bad("Missing backup ciphertext"@)),
        },
{
    match envelope.get_text("ciphertext") {
        Some(t) => Ok(t.clone()),
        None => Err(Error::bad("Missing backup ciphertext")),
    }
}

/// The record at `k`.
pub open spec fn record_at(m: Map<Seq<char>, JsonModel>, k: Seq<char>) -> Option<JsonModel> {
    if m.dom().contains(k) {
        Some(m[k])
    } else {
        None
    }
}

/// Whether an archive in one piece can be restored here. Its records are looked at in the order of
/// their names.
pub open spec fn whole_check(
    api_version: Seq<char>,
    issuer: Seq<char>,
    records: Map<Seq<char>, JsonModel>,
    current: u64,
) -> Result<(), Failure> {
    if api_version != BACKUP_V1@ || !readable_schema(record_at(records, "meta/schema"@), current) {
        Err(Failure::Bad("Unsupported backup schema"@))
    } else if record_at(records, "meta/issuer"@) != Some(JsonModel::Text(issuer)) {
        Err(Failure::Bad("Backup issuer mismatch"@))
    } else if exists|k: Seq<char>| #[trigger] records.dom().contains(k) && record_key(k) is Err {
        Err(Failure::Bad("Invalid backup record key"@))
    } else {
        Ok(())
    }
}

impl WholeBackup {
    #[verifier::loop_isolation(false)]
    pub fn check(&self, current: u64) -> (r: Result<(), Error>)
        ensures
            agrees(r, whole_check(self.api_version@, self.issuer@, self.records@, current)),
    {
        let schema: Option<Json> = match self.records.get("meta/schema") {
            Some(j) => Some(j.dup()),
            None => None,
        };
        if !same(self.api_version.as_str(), BACKUP_V1) || !schema_supported(&schema, current) {
            return Err(Error::bad("Unsupported backup schema"));
        }
        let fits = match self.records.get("meta/issuer") {
            Some(Json::Text(t)) => same(t.as_str(), self.issuer.as_str()),
            _ => false,
        };
        if !fits {
            return Err(Error::bad("Backup issuer mismatch"));
        }
        self.records.listing();
        let ghost rows = self.records.entries();
        let mut i: usize = 0;
        while i < self.records.len()
            invariant
                i <= self.records.entries().len(),
                rows == self.records.entries(),
                forall|j: int| 0 <= j < i ==> record_key((#[trigger] rows[j]).0) is Ok,
            decreases rows.len() - i,
        {
            if let Err(e) = split_record_key(self.records.key_at(i).as_str()) {
                proof {
                    lemma_as_map(rows);
                    assert(self.records@.dom().contains(rows[i as int].0));
                }
                return Err(e);
            }
            i = i + 1;
        }
        proof {
            lemma_as_map(rows);
            assert forall|k: Seq<char>| #[trigger] self.records@.dom().contains(k) implies record_key(k) is Ok by {
                let j = position(rows, k);
                assert(keyed(rows, k));
                assert(record_key(rows[j].0) is Ok);
            }
        }
        Ok(())
    }
}

/// What is restored is what the pages hold: every record of every page, under its name, and
/// nothing else, and no name stands in two places.
pub proof fn restoring_gives_back_every_record(
    envelope: JsonModel,
    manifest: Result<ArchiveManifestModel, Failure>,
    pages: Seq<Result<RecordsChunkModel, Failure>>,
    current: u64,
    i: int,
    j: int,
)
    requires
        restored(envelope, manifest, pages, current) is Ok,
        0 <= i < pages.len(),
        pages[i] matches Ok(p) ==> 0 <= j < p.names.len(),
    ensures
        pages[i] is Ok,
        restored(envelope, manifest, pages, current)->Ok_0.dom().contains((pages[i]->Ok_0).names[j]),
        restored(envelope, manifest, pages, current)->Ok_0[(pages[i]->Ok_0).names[j]] == (
        pages[i]->Ok_0).values[j],
{
    lemma_pages_hold(pages, i, j, pages.len());
}

proof fn lemma_pages_hold(pages: Seq<Result<RecordsChunkModel, Failure>>, i: int, j: int, n: nat)
    requires
        pages_written(pages, n) is Ok,
        0 <= i < n <= pages.len(),
        pages[i] matches Ok(p) ==> 0 <= j < p.names.len(),
    ensures
        pages[i] is Ok,
        pages_written(pages, n)->Ok_0.dom().contains((pages[i]->Ok_0).names[j]),
        pages_written(pages, n)->Ok_0[(pages[i]->Ok_0).names[j]] == (pages[i]->Ok_0).values[j],
    decreases n,
{
    let m = pages_written(pages, (n - 1) as nat)->Ok_0;
    let p = pages[n - 1]->Ok_0;
    if i == n - 1 {
        lemma_written(m, p, p.names.len(), j);
    } else {
        lemma_pages_hold(pages, i, j, (n - 1) as nat);
        lemma_kept(m, p, p.names.len(), (pages[i]->Ok_0).names[j]);
    }
}

proof fn lemma_written(m: Map<Seq<char>, JsonModel>, p: RecordsChunkModel, n: nat, j: int)
    requires
        records_written(m, p, n) is Ok,
        0 <= j < n,
    ensures
        records_written(m, p, n)->Ok_0.dom().contains(p.names[j]),
        records_written(m, p, n)->Ok_0[p.names[j]] == p.values[j],
    decreases n,
{
    if j < n - 1 {
        lemma_written(m, p, (n - 1) as nat, j);
    }
}

proof fn lemma_kept(m: Map<Seq<char>, JsonModel>, p: RecordsChunkModel, n: nat, k: Seq<char>)
    requires
        records_written(m, p, n) is Ok,
        m.dom().contains(k),
    ensures
        records_written(m, p, n)->Ok_0.dom().contains(k),
        records_written(m, p, n)->Ok_0[k] == m[k],
    decreases n,
{
    if n > 0 {
        lemma_kept(m, p, (n - 1) as nat, k);
    }
}

/// An archive from which a page was cut off is refused, whatever its other pages hold.
pub proof fn cut_archives_are_refused(c: ArchiveCheckModel, m: ArchiveManifestModel, current: u64)
    requires
        c.next < m.digests.len(),
    ensures
        archive_check(c, m, current) is Err,
{
}

/// The version of an archive.
pub fn archive_version(envelope: &Json) -> (r: Result<bool, Error>)
    ensures
        match r {
            Ok(chunked) => text_of(envelope@, "api_version"@) == Some(
                if chunked {
                    BACKUP_V2@
                } else {
                    BACKUP_V1@
                },
            ) && (chunked ==> envelope@.member("encrypted"@) == Some(JsonModel::Bool(true))),
            Err(e) => e@ == Failure::Bad("Unsupported backup format"@) && text_of(
                envelope@,
                "api_version"@,
            ) != Some(BACKUP_V1@) && (text_of(envelope@, "api_version"@) == Some(BACKUP_V2@)
                ==> envelope@.member("encrypted"@) != Some(JsonModel::Bool(true))),
        },
{
    let v = match envelope.get_text("api_version") {
        Some(t) => t.clone(),
        None => return Err(Error::bad("Unsupported backup format")),
    };
    if same(v.as_str(), BACKUP_V1) {
        return Ok(false);
    }
    if !same(v.as_str(), BACKUP_V2) {
        return Err(Error::bad("Unsupported backup format"));
    }
    match envelope.get("encrypted") {
        Some(Json::Bool(b)) => {
            if *b {
                Ok(true)
            } else {
                Err(Error::bad("Unsupported backup format"))
            }
        },
        _ => Err(Error::bad("Unsupported backup format")),
    }
}

pub open spec fn is_administrator() -> spec_fn(UserModel) -> bool {
    |u: UserModel| u.admin && u.enabled
}

fn pick_administrator(u: &User) -> (b: bool)
    ensures
        b == is_administrator()(u@),
{
    u.admin && u.enabled
}

pub open spec fn is_undelivered() -> spec_fn(crate::logout::DeliveryModel) -> bool {
    |d: crate::logout::DeliveryModel| d.delivered_at is None
}

fn pick_undelivered(d: &crate::logout::Delivery) -> (b: bool)
    ensures
        b == is_undelivered()(d@),
{
    d.delivered_at.is_none()
}

/// How the provider stands.
pub struct Health {
    pub healthy: bool,
    pub revision: u64,
    pub issuer: String,
    pub users: usize,
    pub enabled_administrators: usize,
    pub clients: usize,
    pub pending_logout_deliveries: usize,
    pub checked_at: u64,
}

/// What a [`Health`] holds.
pub struct HealthModel {
    pub healthy: bool,
    pub revision: u64,
    pub issuer: Seq<char>,
    pub users: usize,
    pub enabled_administrators: usize,
    pub clients: usize,
    pub pending_logout_deliveries: usize,
    pub checked_at: u64,
}

impl View for Health {
    type V = HealthModel;

    open spec fn view(&self) -> HealthModel {
        HealthModel {
            healthy: self.healthy,
            revision: self.revision,
            issuer: self.issuer@,
            users: self.users,
            enabled_administrators: self.enabled_administrators,
            clients: self.clients,
            pending_logout_deliveries: self.pending_logout_deliveries,
            checked_at: self.checked_at,
        }
    }
}

impl Row for Health {
    fn dup(&self) -> (r: Self) {
        Health {
            healthy: self.healthy,
            revision: self.revision,
            issuer: self.issuer.clone(),
            users: self.users,
            enabled_administrators: self.enabled_administrators,
            clients: self.clients,
            pending_logout_deliveries: self.pending_logout_deliveries,
            checked_at: self.checked_at,
        }
    }
}

/// The enabled administrators.
pub open spec fn administrators(users: Map<Seq<char>, UserModel>) -> nat {
    users.dom().filter(|k: Seq<char>| is_administrator()(users[k])).len()
}

pub open spec fn undelivered(m: Map<Seq<char>, crate::logout::DeliveryModel>) -> nat {
    m.dom().filter(|k: Seq<char>| is_undelivered()(m[k])).len()
}

impl Core {
    /// Reports how the provider stands: it is healthy while somebody can administer it.
    pub fn doctor(&self, tx: &Tx) -> (r: Health)
        ensures
            r@ == health_of(tx@, self@.config),
    {
        let admins = tx.users.keys_where(pick_administrator, Ghost(is_administrator()));
        let pending = tx.logout_deliveries.keys_where(pick_undelivered, Ghost(is_undelivered()));
        let users = tx.users.keys();
        let clients = tx.clients.keys();
        Health {
            healthy: admins.len() > 0,
            revision: tx.revision,
            issuer: self.config.issuer.clone(),
            users: users.len(),
            enabled_administrators: admins.len(),
            clients: clients.len(),
            pending_logout_deliveries: pending.len(),
            checked_at: tx.now,
        }
    }

    /// A restored store needs an administrator who can log in.
    pub fn check_restored(&self, tx: &Tx) -> (r: Result<(), Error>)
        ensures
            agrees(
                r,
                if administrators(tx@.users) > 0 {
                    Ok(())
                } else {
                    Err(Failure::Bad("Backup has no enabled administrator"@))
                },
            ),
    {
        let admins = tx.users.keys_where(pick_administrator, Ghost(is_administrator()));
        if admins.len() > 0 {
            Ok(())
        } else {
            Err(Error::bad("Backup has no enabled administrator"))
        }
    }
}

/// What an inventory lists.
#[derive(Clone, Copy, PartialEq, Eq, Structural, Debug)]
pub enum InventoryKind {
    Users,
    Clients,
    Groups,
    Sources,
    Audit,
}

pub open spec fn kind_of(kind: Seq<char>) -> Option<InventoryKind> {
    if kind == "users"@ {
        Some(InventoryKind::Users)
    } else if kind == "clients"@ {
        Some(InventoryKind::Clients)
    } else if kind == "groups"@ {
        Some(InventoryKind::Groups)
    } else if kind == "sources"@ {
        Some(InventoryKind::Sources)
    } else if kind == "audit"@ {
        Some(InventoryKind::Audit)
    } else {
        None
    }
}

/// Whether an inventory can be asked for.
pub open spec fn inventory_check(
    kind: Seq<char>,
    after: Option<Seq<char>>,
    filter: Option<Seq<char>>,
) -> Result<InventoryKind, Failure> {
    match kind_of(kind) {
        None => Err(Failure::Bad("Unknown inventory kind"@)),
        Some(k) => if (after matches Some(a) && (byte_count(a) > 4096 || some_control(a))) || (
        filter matches Some(f) && byte_count(f) > 256) {
            Err(Failure::Bad("Invalid inventory cursor or filter"@))
        } else {
            Ok(k)
        },
    }
}

pub fn check_inventory(kind: &str, after: &Option<String>, filter: &Option<String>) -> (r: Result<
    InventoryKind,
    Error,
>)
    ensures
        match inventory_check(kind@, opt_text(*after), opt_text(*filter)) {
            Ok(k) => r is Ok && r->Ok_0 == k,
            Err(f) => fails(r, f),
        },
{
    let k = if same(kind, "users") {
        InventoryKind::Users
    } else if same(kind, "clients") {
        InventoryKind::Clients
    } else if same(kind, "groups") {
        InventoryKind::Groups
    } else if same(kind, "sources") {
        InventoryKind::Sources
    } else if same(kind, "audit") {
        InventoryKind::Audit
    } else {
        return Err(Error::bad("Unknown inventory kind"));
    };
    let long = match after {
        Some(a) => byte_len(a.as_str()) > 4096 || has_control(a.as_str()),
        None => false,
    };
    let wide = match filter {
        Some(f) => byte_len(f.as_str()) > 256,
        None => false,
    };
    if long || wide {
        return Err(Error::bad("Invalid inventory cursor or filter"));
    }
    Ok(k)
}

/// What an inventory cursor holds, once it was opened.
pub struct InventoryCursor {
    pub actor: String,
    pub kind: String,
    pub filter: Option<String>,
    pub revision: Option<u64>,
    pub expires_at: Option<u64>,
    pub after: Option<String>,
}

/// What a [`InventoryCursor`] holds.
pub struct InventoryCursorModel {
    pub actor: Seq<char>,
    pub kind: Seq<char>,
    pub filter: Option<Seq<char>>,
    pub revision: Option<u64>,
    pub expires_at: Option<u64>,
    pub after: Option<Seq<char>>,
}

impl View for InventoryCursor {
    type V = InventoryCursorModel;

    open spec fn view(&self) -> InventoryCursorModel {
        InventoryCursorModel {
            actor: self.actor@,
            kind: self.kind@,
            filter: crate::text::opt_text(self.filter),
            revision: self.revision,
            expires_at: self.expires_at,
            after: crate::text::opt_text(self.after),
        }
    }
}

impl Row for InventoryCursor {
    fn dup(&self) -> (r: Self) {
        InventoryCursor {
            actor: self.actor.clone(),
            kind: self.kind.clone(),
            filter: crate::text::copy_opt(&self.filter),
            revision: self.revision,
            expires_at: self.expires_at,
            after: crate::text::copy_opt(&self.after),
        }
    }
}

/// Where an opened inventory cursor continues.
pub open spec fn inventory_cursor_check(
    c: InventoryCursorModel,
    actor: Seq<char>,
    kind: Seq<char>,
    filter: Option<Seq<char>>,
    revision: u64,
    now: u64,
) -> Result<Seq<char>, Failure> {
    if c.actor != actor || c.kind != kind || c.filter != filter {
        Err(Failure::Bad("Inventory cursor belongs to another query or actor"@))
    } else if c.revision != Some(revision) || c.expires_at is None || c.expires_at->0 <= now {
        Err(Failure::Conflict("Inventory changed or cursor expired; restart enumeration"@))
    } else {
        match c.after {
            None => Err(Failure::Bad("Invalid inventory cursor"@)),
            Some(a) => Ok(a),
        }
    }
}

pub fn open_inventory_cursor(
    c: &InventoryCursor,
    actor: &str,
    kind: &str,
    filter: &Option<String>,
    revision: u64,
    now: u64,
) -> (r: Result<String, Error>)
    ensures
        agrees_with(
            r,
            inventory_cursor_check(c@, actor@, kind@, opt_text(*filter), revision, now),
        ),
{
    if !same(c.actor.as_str(), actor) || !same(c.kind.as_str(), kind) || !same_opt(
        &c.filter,
        filter,
    ) {
        return Err(Error::bad("Inventory cursor belongs to another query or actor"));
    }
    let live = match c.expires_at {
        Some(t) => t > now,
        None => false,
    };
    if c.revision != Some(revision) || !live {
        return Err(
            Error::conflict("Inventory changed or cursor expired; restart enumeration"),
        );
    }
    match &c.after {
        None => Err(Error::bad("Invalid inventory cursor")),
        Some(a) => Ok(a.clone()),
    }
}

/// Where an inventory stands after it examined rows of which `flags` tells whether each is listed:
/// how many were examined, and whether the next page continues after them. Every row that remains
/// is read before the inventory is known to be complete.
pub open spec fn inventory_end(flags: Seq<bool>, limit: nat) -> (nat, bool) {
    let end = examined(flags, 0, 0, limit);
    (end, end > 0 && (accepted_count(flags, end) == limit || end >= EXAMINE_CAP))
}

#[verifier::loop_isolation(false)]
fn scan_inventory(flags: &Vec<bool>, limit: usize) -> (r: (usize, bool))
    requires
        1 <= limit <= 1000,
    ensures
        ({
            let out = inventory_end(flags@, limit as nat);
            r.0 == out.0 && r.1 == out.1
        }),
{
    let (end, _) = scan_flags(flags, limit);
    let mut found: usize = 0;
    let mut i: usize = 0;
    while i < end
        invariant
            i <= end,
            found <= i,
            found == accepted_count(flags@, i as nat),
        decreases end - i,
    {
        if flags[i] {
            found = found + 1;
        }
        i = i + 1;
    }
    (end, end > 0 && (found == limit || end >= EXAMINE_CAP))
}

/// A row that an inventory examines: what it is called, the run that an audit entry belongs to, and
/// whether the caller may read it.
pub struct InventoryRow {
    pub name: String,
    pub run_id: Option<String>,
    pub allowed: bool,
}

/// What a [`InventoryRow`] holds.
pub struct InventoryRowModel {
    pub name: Seq<char>,
    pub run_id: Option<Seq<char>>,
    pub allowed: bool,
}

impl View for InventoryRow {
    type V = InventoryRowModel;

    open spec fn view(&self) -> InventoryRowModel {
        InventoryRowModel {
            name: self.name@,
            run_id: crate::text::opt_text(self.run_id),
            allowed: self.allowed,
        }
    }
}

impl Row for InventoryRow {
    fn dup(&self) -> (r: Self) {
        InventoryRow {
            name: self.name.clone(),
            run_id: crate::text::copy_opt(&self.run_id),
            allowed: self.allowed,
        }
    }
}

/// Whether an inventory lists the row `w`: the entries of one run, or the names that hold a text.
pub open spec fn inventoried(k: InventoryKind, filter: Option<Seq<char>>, w: InventoryRowModel) -> bool {
    w.allowed && match filter {
        None => true,
        Some(f) => if k == InventoryKind::Audit {
            w.run_id == Some(f)
        } else {
            contains_text(w.name, f)
        },
    }
}

/// Which of the rows an inventory lists.
pub open spec fn inventory_flags(
    k: InventoryKind,
    filter: Option<Seq<char>>,
    rows: Seq<InventoryRowModel>,
) -> Seq<bool> {
    rows.map_values(|w: InventoryRowModel| inventoried(k, filter, w))
}

/// How many rows a page of an inventory holds when `asked` were asked for.
pub open spec fn inventory_limit(asked: usize) -> nat {
    if asked < 1 {
        1
    } else if asked > 1000 {
        1000
    } else {
        asked as nat
    }
}

impl Core {
    /// Lists a page of an inventory: which rows stand on it, how many were examined, and whether
    /// another page follows.
    #[verifier::loop_isolation(false)]
    pub fn inventory(
        &self,
        kind: InventoryKind,
        filter: &Option<String>,
        rows: &Vec<InventoryRow>,
        asked: usize,
    ) -> (r: (Vec<bool>, usize, bool))
        ensures
            r.0@ == inventory_flags(kind, opt_text(*filter), views(rows@)),
            ({
                let out = inventory_end(r.0@, inventory_limit(asked));
                r.1 == out.0 && r.2 == out.1
            }),
    {
        let ghost all = inventory_flags(kind, opt_text(*filter), views(rows@));
        assert(all.len() == rows.len());
        let mut flags: Vec<bool> = Vec::new();
        let mut i: usize = 0;
        while i < rows.len()
            invariant
                i <= rows.len(),
                flags@ == all.take(i as int),
            decreases rows.len() - i,
        {
            let w = &rows[i];
            assert(views(rows@)[i as int] == w@);
            assert(all[i as int] == inventoried(kind, opt_text(*filter), w@));
            let fits = match filter {
                None => true,
                Some(f) => if kind == InventoryKind::Audit {
                    opt_is(&w.run_id, f.as_str())
                } else {
                    contains(w.name.as_str(), f.as_str())
                },
            };
            let ghost was = flags@;
            flags.push(w.allowed && fits);
            i = i + 1;
            assert(all.take(i as int) =~= was.push(all[i - 1]));
        }
        assert(all.take(i as int) =~= all);
        let limit: usize = if asked < 1 {
            1
        } else if asked > 1000 {
            1000
        } else {
            asked
        };
        let (end, more) = scan_inventory(&flags, limit);
        (flags, end, more)
    }
}

/// The conditions that an alert is sent for.
pub struct AlertSelection {
    pub storage_not_ready: bool,
    pub cleanup_errors: bool,
    pub signing_failures: bool,
}

/// What a [`AlertSelection`] holds.
pub struct AlertSelectionModel {
    pub storage_not_ready: bool,
    pub cleanup_errors: bool,
    pub signing_failures: bool,
}

impl View for AlertSelection {
    type V = AlertSelectionModel;

    open spec fn view(&self) -> AlertSelectionModel {
        AlertSelectionModel {
            storage_not_ready: self.storage_not_ready,
            cleanup_errors: self.cleanup_errors,
            signing_failures: self.signing_failures,
        }
    }
}

impl Row for AlertSelection {
    fn dup(&self) -> (r: Self) {
        AlertSelection {
            storage_not_ready: self.storage_not_ready,
            cleanup_errors: self.cleanup_errors,
            signing_failures: self.signing_failures,
        }
    }
}

/// A condition that holds.
pub struct Signal {
    pub name: String,
    pub count: Option<u64>,
}

/// What a [`Signal`] holds.
pub struct SignalModel {
    pub name: Seq<char>,
    pub count: Option<u64>,
}

impl View for Signal {
    type V = SignalModel;

    open spec fn view(&self) -> SignalModel {
        SignalModel {
            name: self.name@,
            count: self.count,
        }
    }
}

impl Row for Signal {
    fn dup(&self) -> (r: Self) {
        Signal {
            name: self.name.clone(),
            count: self.count,
        }
    }
}

/// The selected conditions that hold.
pub open spec fn signals_of(s: AlertSelectionModel, ready: bool, cleanup: u64, signing: u64) -> Seq<
    SignalModel,
> {
    let a = if s.storage_not_ready && !ready {
        seq![SignalModel { name: "storage_not_ready"@, count: None }]
    } else {
        Seq::empty()
    };
    let b = if s.cleanup_errors && cleanup > 0 {
        a.push(SignalModel { name: "cleanup_errors"@, count: Some(cleanup) })
    } else {
        a
    };
    if s.signing_failures && signing > 0 {
        b.push(SignalModel { name: "signing_failures"@, count: Some(signing) })
    } else {
        b
    }
}

fn push_signal(v: &mut Vec<Signal>, name: &str, count: Option<u64>)
    ensures
        views(final(v)@) == views(old(v)@).push(SignalModel { name: name@, count }),
{
    let ghost was = views(v@);
    let s = Signal { name: name.to_owned(), count };
    let ghost sm = s@;
    v.push(s);
    assert(views(v@) =~= was.push(sm));
}

/// Which conditions an alert is about.
pub fn alert_signals(selection: &AlertSelection, ready: bool, cleanup: u64, signing: u64) -> (r: Vec<
    Signal,
>)
    ensures
        views(r@) == signals_of(selection@, ready, cleanup, signing),
{
    let mut v: Vec<Signal> = Vec::new();
    assert(views(v@) =~= Seq::<SignalModel>::empty());
    if selection.storage_not_ready && !ready {
        push_signal(&mut v, "storage_not_ready", None);
        assert(views(v@) =~= seq![SignalModel { name: "storage_not_ready"@, count: None }]);
    }
    if selection.cleanup_errors && cleanup > 0 {
        push_signal(&mut v, "cleanup_errors", Some(cleanup));
    }
    if selection.signing_failures && signing > 0 {
        push_signal(&mut v, "signing_failures", Some(signing));
    }
    v
}

/// The characters that a credential file may end with.
pub open spec fn trailing(c: char) -> bool {
    c == '\n' || c == '\r' || c == ' ' || c == '\t'
}

pub open spec fn without_trailing(s: Seq<char>) -> Seq<char>
    decreases s.len(),
{
    if s.len() > 0 && trailing(s.last()) {
        without_trailing(s.drop_last())
    } else {
        s
    }
}

/// The credential of the alert receiver.
pub open spec fn alert_credential(text: Seq<char>) -> Option<Seq<char>> {
    let t = without_trailing(text);
    if t.len() == 0 || byte_count(t) > 4096 || some_control(t) || some_whitespace(t) {
        None
    } else {
        Some(t)
    }
}

pub fn bearer_token(text: &str) -> (r: Option<String>)
    ensures
        opt_text(r) == alert_credential(text@),
{
    let v = chars_of(text);
    let mut end: usize = v.len();
    assert(v@.take(end as int) =~= text@);
    while end > 0 && (v[end - 1] == '\n' || v[end - 1] == '\r' || v[end - 1] == ' ' || v[end - 1]
        == '\t')
        invariant
            end <= v.len(),
            v@ == text@,
            without_trailing(v@.take(end as int)) == without_trailing(text@),
        decreases end,
    {
        assert(v@.take(end as int).drop_last() =~= v@.take(end - 1));
        end = end - 1;
    }
    let s = slice_of(&v, 0, end);
    assert(v@.subrange(0, end as int) =~= v@.take(end as int));
    if s.as_str().is_empty() || byte_len(s.as_str()) > 4096 || has_control(s.as_str())
        || has_whitespace(s.as_str()) {
        None
    } else {
        Some(s)
    }
}

/// Whether records are copied to a target store: an empty one is filled, one that already holds them
/// is left, and any other is refused.
pub fn migration_target(empty: bool, same_records: bool) -> (r: Result<bool, Error>)
    ensures
        match r {
            Ok(copy) => copy == empty && (empty || same_records),
            Err(e) => !empty && !same_records && e@ == Failure::Conflict(
                "Target database is not empty and does not match this migration"@,
            ),
        },
{
    if empty {
        Ok(true)
    } else if same_records {
        Ok(false)
    } else {
        Err(
            Error::conflict("Target database is not empty and does not match this migration"),
        )
    }
}

/// What is prepared for the alert receiver.
pub enum AlertPrep {
    /// Nothing is to be told.
    Quiet,
    /// The alert about these conditions cannot be sent, for this reason.
    Failed(String, Vec<Signal>),
    /// The alert about these conditions, with the receiver's credential where it has one.
    Post(Vec<Signal>, Option<String>),
}

/// What an [`AlertPrep`] holds.
pub enum AlertPrepModel {
    Quiet,
    Failed(Seq<char>, Seq<SignalModel>),
    Post(Seq<SignalModel>, Option<Seq<char>>),
}

impl View for AlertPrep {
    type V = AlertPrepModel;

    open spec fn view(&self) -> AlertPrepModel {
        match *self {
            AlertPrep::Quiet => AlertPrepModel::Quiet,
            AlertPrep::Failed(why, signals) => AlertPrepModel::Failed(why@, views(signals@)),
            AlertPrep::Post(signals, bearer) => AlertPrepModel::Post(
                views(signals@),
                opt_text(bearer),
            ),
        }
    }
}

/// What the conditions call for. `valid` says whether the receiver is configured well, `guarded`
/// whether it has a credential file, `credential` what that file held, if it could be read.
pub open spec fn alert_prepared(
    selection: Option<AlertSelectionModel>,
    valid: bool,
    signals: Seq<SignalModel>,
    guarded: bool,
    credential: Option<Seq<char>>,
) -> AlertPrepModel {
    if selection is None {
        AlertPrepModel::Quiet
    } else if !valid {
        AlertPrepModel::Failed("invalid_webhook"@, Seq::empty())
    } else if signals.len() == 0 {
        AlertPrepModel::Quiet
    } else if !guarded {
        AlertPrepModel::Post(signals, None)
    } else if credential is Some && alert_credential(credential->0) is Some {
        AlertPrepModel::Post(signals, alert_credential(credential->0))
    } else {
        AlertPrepModel::Failed("credential_unreadable"@, signals)
    }
}

/// Prepares an alert about the store and the counters of this process.
pub fn prepare_alert(
    selection: &Option<AlertSelection>,
    valid: bool,
    ready: bool,
    cleanup: u64,
    signing: u64,
    guarded: bool,
    credential: &Option<String>,
) -> (r: AlertPrep)
    ensures
        r@ == alert_prepared(
            opt_view(*selection),
            valid,
            match opt_view(*selection) {
                Some(s) => signals_of(s, ready, cleanup, signing),
                None => Seq::empty(),
            },
            guarded,
            opt_text(*credential),
        ),
{
    let chosen = match selection {
        None => return AlertPrep::Quiet,
        Some(s) => s,
    };
    if !valid {
        let none: Vec<Signal> = Vec::new();
        assert(views(none@) =~= Seq::<SignalModel>::empty());
        return AlertPrep::Failed("invalid_webhook".to_owned(), none);
    }
    let signals = alert_signals(chosen, ready, cleanup, signing);
    assert(views(signals@).len() == signals.len());
    if signals.len() == 0 {
        return AlertPrep::Quiet;
    }
    if !guarded {
        return AlertPrep::Post(signals, None);
    }
    let bearer = match credential {
        None => None,
        Some(t) => bearer_token(t.as_str()),
    };
    match bearer {
        None => AlertPrep::Failed("credential_unreadable".to_owned(), signals),
        Some(b) => AlertPrep::Post(signals, Some(b)),
    }
}

/// Why an alert was not delivered, if it was not; `status` is that of the answer, if one came.
pub open spec fn alert_failure(status: Option<u16>) -> Option<Seq<char>> {
    match status {
        None => Some("request_failed"@),
        Some(s) => if 200 <= s < 300 {
            None
        } else {
            Some("rejected"@)
        },
    }
}

pub fn alert_answered(status: Option<u16>) -> (r: Option<String>)
    ensures
        opt_text(r) == alert_failure(status),
{
    match status {
        None => Some("request_failed".to_owned()),
        Some(s) => if 200 <= s && s < 300 {
            None
        } else {
            Some("rejected".to_owned())
        },
    }
}

/// A named record.
pub enum NamedResource {
    User(UserView),
    Client(Client),
    Group(Group),
    Source(Json),
}

/// What a [`NamedResource`] holds.
pub enum NamedResourceModel {
    User(UserViewModel),
    Client(ClientModel),
    Group(GroupModel),
    Source(JsonModel),
}

impl View for NamedResource {
    type V = NamedResourceModel;

    open spec fn view(&self) -> NamedResourceModel {
        match *self {
            NamedResource::User(u) => NamedResourceModel::User(u@),
            NamedResource::Client(c) => NamedResourceModel::Client(c@),
            NamedResource::Group(g) => NamedResourceModel::Group(g@),
            NamedResource::Source(v) => NamedResourceModel::Source(v@),
        }
    }
}

/// The record of a kind with a name.
pub open spec fn resource_named(
    t: TxModel,
    sources: Map<Seq<char>, JsonModel>,
    kind: Seq<char>,
    name: Seq<char>,
) -> Result<NamedResourceModel, Failure> {
    if kind == "user"@ {
        match named_user(t, name) {
            Some(u) => Ok(NamedResourceModel::User(user_view(u))),
            None => Err(Failure::Missing("User not found"@)),
        }
    } else if kind == "client"@ {
        if t.clients.dom().contains(name) {
            Ok(NamedResourceModel::Client(t.clients[name]))
        } else {
            Err(Failure::Missing("Client not found"@))
        }
    } else if kind == "group"@ {
        if t.groups.dom().contains(name) {
            Ok(NamedResourceModel::Group(t.groups[name]))
        } else {
            Err(Failure::Missing("Group not found"@))
        }
    } else if kind == "source"@ {
        if sources.dom().contains(name) {
            Ok(NamedResourceModel::Source(sources[name]))
        } else {
            Err(Failure::Missing("Source not found"@))
        }
    } else {
        Err(Failure::Bad("Unknown resource kind"@))
    }
}

impl Core {
    /// Looks a record up for a caller who may read it.
    pub fn get_resource(&self, tx: &Tx, sources: &Table<Json>, kind: &str, name: &str) -> (r: Result<
        NamedResource,
        Error,
    >)
        ensures
            agrees_with(r, resource_named(tx@, sources@, kind@, name@)),
    {
        if same(kind, "user") {
            return match user_by_name(tx, name) {
                Ok(u) => Ok(NamedResource::User(u.shown())),
                Err(e) => Err(e),
            };
        }
        if same(kind, "client") {
            return match tx.clients.get(name) {
                Some(c) => Ok(NamedResource::Client(c.dup())),
                None => Err(Error::missing("Client not found")),
            };
        }
        if same(kind, "group") {
            return match tx.groups.get(name) {
                Some(g) => Ok(NamedResource::Group(g.dup())),
                None => Err(Error::missing("Group not found")),
            };
        }
        if same(kind, "source") {
            return match sources.get(name) {
                Some(v) => Ok(NamedResource::Source(v.dup())),
                None => Err(Error::missing("Source not found")),
            };
        }
        Err(Error::bad("Unknown resource kind"))
    }
}

/// A chosen alarm is raised where there is cause for it, with how often it happened, and no other.
pub proof fn alarms_are_raised_for_a_cause(
    s: AlertSelectionModel,
    ready: bool,
    cleanup: u64,
    signing: u64,
    x: SignalModel,
)
    ensures
        signals_of(s, ready, cleanup, signing).contains(x) <==> {
            ||| s.storage_not_ready && !ready && x == (SignalModel {
                name: "storage_not_ready"@,
                count: None,
            })
            ||| s.cleanup_errors && cleanup > 0 && x == (SignalModel {
                name: "cleanup_errors"@,
                count: Some(cleanup),
            })
            ||| s.signing_failures && signing > 0 && x == (SignalModel {
                name: "signing_failures"@,
                count: Some(signing),
            })
        },
{
    let v = signals_of(s, ready, cleanup, signing);
    let a = SignalModel { name: "storage_not_ready"@, count: None };
    let b = SignalModel { name: "cleanup_errors"@, count: Some(cleanup) };
    let c = SignalModel { name: "signing_failures"@, count: Some(signing) };
    let n0: int = if s.storage_not_ready && !ready {
        1
    } else {
        0
    };
    let n1: int = n0 + if s.cleanup_errors && cleanup > 0 {
        1int
    } else {
        0int
    };
    if s.storage_not_ready && !ready {
        assert(v[0] == a);
    }
    if s.cleanup_errors && cleanup > 0 {
        assert(v[n0] == b);
    }
    if s.signing_failures && signing > 0 {
        assert(v[n1] == c);
    }
    if v.contains(x) {
        let i = v.index_of(x);
        assert(v[i] == x);
    }
}

/// A row is in the inventory where it may be seen and holds what was asked for: a part of its name, or
/// for an event its run.
pub proof fn inventories_show_what_may_be_seen(
    k: InventoryKind,
    filter: Option<Seq<char>>,
    w: InventoryRowModel,
)
    ensures
        inventoried(k, None, w) <==> w.allowed,
        filter is Some && k == InventoryKind::Audit ==> (inventoried(k, filter, w) <==> w.allowed
            && w.run_id == filter),
        filter is Some && k != InventoryKind::Audit ==> (inventoried(k, filter, w) <==> w.allowed
            && contains_text(w.name, filter->0)),
{
}

/// A cursor goes on for whoever got it, with the question that it was for, while nothing has changed.
pub proof fn inventory_cursors_continue_their_question(
    c: InventoryCursorModel,
    actor: Seq<char>,
    kind: Seq<char>,
    filter: Option<Seq<char>>,
    revision: u64,
    now: u64,
)
    ensures
        inventory_cursor_check(c, actor, kind, filter, revision, now) is Ok <==> {
            &&& c.actor == actor && c.kind == kind && c.filter == filter
            &&& c.revision == Some(revision)
            &&& c.expires_at is Some && c.expires_at->0 > now
            &&& c.after is Some
        },
        inventory_cursor_check(c, actor, kind, filter, revision, now) matches Ok(a) ==> c.after == Some(
            a,
        ),
{
}

/// A resource is found under its kind and its name.
pub proof fn resources_are_found_by_name(
    t: TxModel,
    sources: Map<Seq<char>, JsonModel>,
    name: Seq<char>,
)
    ensures
        t.clients.dom().contains(name) ==> resource_named(t, sources, "client"@, name) == Ok::<
            NamedResourceModel,
            Failure,
        >(NamedResourceModel::Client(t.clients[name])),
        t.groups.dom().contains(name) ==> resource_named(t, sources, "group"@, name) == Ok::<
            NamedResourceModel,
            Failure,
        >(NamedResourceModel::Group(t.groups[name])),
        sources.dom().contains(name) ==> resource_named(t, sources, "source"@, name) == Ok::<
            NamedResourceModel,
            Failure,
        >(NamedResourceModel::Source(sources[name])),
        !t.clients.dom().contains(name) ==> resource_named(t, sources, "client"@, name) is Err,
        !t.groups.dom().contains(name) ==> resource_named(t, sources, "group"@, name) is Err,
        !sources.dom().contains(name) ==> resource_named(t, sources, "source"@, name) is Err,
{
    reveal_strlit("user");
    reveal_strlit("client");
    reveal_strlit("group");
    reveal_strlit("source");
    assert("user"@.len() == 4 && "client"@.len() == 6 && "group"@.len() == 5 && "source"@.len() == 6);
    assert("client"@[0] == 'c' && "source"@[0] == 's');
}

/// An archive is taken back only where all its pages are there, it holds as many records as it says, of
/// a schema that can be read, and comes from the issuer that it names.
pub proof fn archives_are_complete(c: ArchiveCheckModel, m: ArchiveManifestModel, current: u64)
    ensures
        archive_check(c, m, current) is Ok <==> {
            &&& c.next == m.digests.len()
            &&& c.count == m.record_count
            &&& c.schema matches Some(v) && v.number() matches Some(n) && n >= 1 && n <= current
            &&& c.issuer == Some(JsonModel::Text(m.issuer))
        },
{
}

/// How the provider stands.
pub open spec fn health_of(t: TxModel, config: ConfigModel) -> HealthModel {
    HealthModel {
        healthy: administrators(t.users) > 0,
        revision: t.revision,
        issuer: config.issuer,
        users: t.users.dom().len() as usize,
        enabled_administrators: administrators(t.users) as usize,
        clients: t.clients.dom().len() as usize,
        pending_logout_deliveries: undelivered(t.logout_deliveries) as usize,
        checked_at: t.now,
    }
}

/// The provider is healthy exactly while an enabled administrator is left, and says when it looked.
pub proof fn health_needs_an_administrator(t: TxModel, config: ConfigModel)
    requires
        t.users.dom().finite(),
    ensures
        health_of(t, config).healthy <==> exists|k: Seq<char>| #[trigger]
            t.users.dom().contains(k) && t.users[k].admin && t.users[k].enabled,
        health_of(t, config).checked_at == t.now,
        health_of(t, config).issuer == config.issuer,
        health_of(t, config).revision == t.revision,
        t.users.dom().len() <= usize::MAX ==> health_of(t, config).users == t.users.dom().len(),
        t.clients.dom().len() <= usize::MAX ==> health_of(t, config).clients == t.clients.dom().len(),
{
    let found = t.users.dom().filter(|k: Seq<char>| is_administrator()(t.users[k]));
    if exists|k: Seq<char>| #[trigger]
        t.users.dom().contains(k) && t.users[k].admin && t.users[k].enabled {
        let k = choose|k: Seq<char>| #[trigger]
            t.users.dom().contains(k) && t.users[k].admin && t.users[k].enabled;
        assert(found.contains(k));
        if found.len() == 0 {
            assert(found =~= Set::<Seq<char>>::empty());
        }
    }
    if found.len() > 0 {
        let k = found.choose();
        assert(found.contains(k)) by {
            if forall|x: Seq<char>| !found.contains(x) {
                assert(found =~= Set::<Seq<char>>::empty());
            }
        }
        assert(t.users.dom().contains(k));
    }
}

/// A backup key is the base64url text of thirty-two bytes, blanks around it aside.
pub proof fn backup_keys_have_their_length(text: Seq<char>)
    ensures
        backup_key(text) is Ok <==> (base64url_bytes(trimmed(text)) is Some && (base64url_bytes(
            trimmed(text),
        )->0).len() == 32),
        backup_key(text) matches Ok(b) ==> b.len() == 32 && base64url_bytes(trimmed(text)) == Some(b),
{
}

/// The kinds of inventory are known by name, and a cursor or a filter is short.
pub proof fn inventories_are_asked_by_name(kind: Seq<char>, after: Option<Seq<char>>, filter: Option<Seq<char>>)
    ensures
        inventory_check(kind, after, filter) is Ok <==> {
            &&& kind == "users"@ || kind == "clients"@ || kind == "groups"@ || kind == "sources"@ || kind
                == "audit"@
            &&& after matches Some(a) ==> byte_count(a) <= 4096 && !some_control(a)
            &&& filter matches Some(f) ==> byte_count(f) <= 256
        },
        inventory_check("users"@, None, None) == Ok::<InventoryKind, Failure>(InventoryKind::Users),
        inventory_check("clients"@, None, None) == Ok::<InventoryKind, Failure>(InventoryKind::Clients),
        inventory_check("groups"@, None, None) == Ok::<InventoryKind, Failure>(InventoryKind::Groups),
        inventory_check("sources"@, None, None) == Ok::<InventoryKind, Failure>(InventoryKind::Sources),
        inventory_check("audit"@, None, None) == Ok::<InventoryKind, Failure>(InventoryKind::Audit),
{
    reveal_strlit("users");
    reveal_strlit("clients");
    reveal_strlit("groups");
    reveal_strlit("sources");
    reveal_strlit("audit");
    assert("users"@[0] == 'u' && "clients"@[0] == 'c' && "groups"@[0] == 'g' && "sources"@[0] == 's'
        && "audit"@[0] == 'a');
}

/// A page of an inventory has one to a thousand rows.
pub proof fn inventory_pages_are_bounded(asked: usize)
    ensures
        1 <= inventory_limit(asked) <= 1000,
        1 <= asked <= 1000 ==> inventory_limit(asked) == asked,
{
}

/// An alarm is posted with its signals, and with a credential where one is asked for; without a
/// readable one it fails, and without signals nothing happens.
pub proof fn alarms_are_posted_with_their_credential(
    selection: AlertSelectionModel,
    signals: Seq<SignalModel>,
    credential: Option<Seq<char>>,
)
    ensures
        alert_prepared(None, true, signals, false, credential) == AlertPrepModel::Quiet,
        signals.len() == 0 ==> alert_prepared(Some(selection), true, signals, true, credential)
            == AlertPrepModel::Quiet,
        signals.len() > 0 ==> {
            &&& alert_prepared(Some(selection), true, signals, false, credential) == AlertPrepModel::Post(
                signals,
                None,
            )
            &&& credential is Some && alert_credential(credential->0) is Some ==> alert_prepared(
                Some(selection),
                true,
                signals,
                true,
                credential,
            ) == AlertPrepModel::Post(signals, alert_credential(credential->0))
            &&& credential is None ==> alert_prepared(Some(selection), true, signals, true, credential)
                == AlertPrepModel::Failed("credential_unreadable"@, signals)
        },
        alert_prepared(Some(selection), false, signals, true, credential) is Failed,
{
}

/// A credential is one line without blanks, of at most four kibibytes; line ends and blanks behind it
/// do not count.
pub proof fn alert_credentials_are_one_word(text: Seq<char>)
    ensures
        alert_credential(text) matches Some(t) ==> 0 < t.len() && byte_count(t) <= 4096 && !some_control(t)
            && !some_whitespace(t) && t.len() <= text.len() && t == text.take(t.len() as int) && forall|i: int|
            t.len() <= i < text.len() ==> (#[trigger] text[i]) == '\n' || text[i] == '\r' || text[i] == ' '
                || text[i] == '\t',
        text.len() > 0 && byte_count(text) <= 4096 && !some_control(text) && !some_whitespace(text)
            ==> alert_credential(text) == Some(text),
{
    lemma_without_trailing(text);
    if text.len() > 0 && !some_whitespace(text) {
        assert(!whitespace(text[text.len() - 1]));
    }
}

proof fn lemma_without_trailing(s: Seq<char>)
    ensures
        without_trailing(s).len() <= s.len(),
        without_trailing(s) == s.take(without_trailing(s).len() as int),
        forall|i: int| without_trailing(s).len() <= i < s.len() ==> trailing(#[trigger] s[i]),
    decreases s.len(),
{
    if s.len() > 0 && trailing(s.last()) {
        let w = s.drop_last();
        lemma_without_trailing(w);
        let t = without_trailing(w);
        assert(w.take(t.len() as int) =~= s.take(t.len() as int));
        assert forall|i: int| t.len() <= i < s.len() implies trailing(#[trigger] s[i]) by {
            if i < w.len() {
                assert(w[i] == s[i]);
            }
        }
    } else {
        assert(s.take(s.len() as int) =~= s);
    }
}

/// An alarm that was answered with success has arrived; any other answer, or none, is a failure.
pub proof fn alarms_arrive_or_fail(status: u16)
    ensures
        alert_failure(Some(status)) is None <==> 200 <= status <= 299,
        alert_failure(None) is Some,
{
}

/// A whole backup is taken for the issuer that it was made for, in a form that can be read, with keys
/// that can be stored.
pub proof fn whole_backups_are_for_their_issuer(
    api_version: Seq<char>,
    issuer: Seq<char>,
    records: Map<Seq<char>, JsonModel>,
    current: u64,
)
    requires
        whole_check(api_version, issuer, records, current) is Ok,
    ensures
        record_at(records, "meta/issuer"@) == Some(JsonModel::Text(issuer)),
        readable_schema(record_at(records, "meta/schema"@), current),
        forall|k: Seq<char>| #[trigger] records.dom().contains(k) ==> record_key(k) is Ok,
{
}

/// A manifest is for the archive that holds it: made with it, in its form, for as many pages.
pub proof fn manifests_fit_their_archive(m: ArchiveManifestModel, created_at: Option<u64>, pages: nat)
    ensures
        manifest_check(m, created_at, pages) is Ok <==> m.kind == "manifest"@ && m.api_version == BACKUP_V2@
            && created_at is Some && created_at->0 == m.created_at && m.digests.len() == pages,
{
}

} // verus!
