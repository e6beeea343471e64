//! Backups as wholes: the pages of a store, their archive, and what restoring it gives back.
use crate::engine::Core;
use crate::error::{Error, Failure, agrees_with};
use crate::json::{Json, JsonModel, Member, canonical, items_of, json_text, lemma_items_of, lemma_members_of, lookup, member, members_of, text, to_canonical, to_text};
use crate::names::{ascending, finite_sets_are_listed, in_order, lemma_lt_irreflexive};
use crate::operations::{ArchiveCheckModel, ArchiveManifest, ArchiveManifestModel, BACKUP_V2, BackupProgress, BackupProgressModel, MAX_BACKUP_BYTES, MAX_BACKUP_PAGE_BYTES, RecordsChunk, RecordsChunkModel, backup_key, backup_started, decode_key, page_sealed, pages_taken, pages_written, readable_schema, record_at, record_key, records_noted, records_written, restored};
use crate::outside::digest_of;
use crate::table::{Row, Table, views};
use crate::text::{byte_count, byte_len, copy_list, text_lt, texts};
use vstd::prelude::*;
use vstd::string::*;

verus! {

/// The records from one place in the order of their names to another, as one page.
pub open spec fn page_of(
    m: Map<Seq<char>, JsonModel>,
    names: Seq<Seq<char>>,
    from: int,
    to: int,
    index: int,
) -> RecordsChunkModel {
    RecordsChunkModel {
        kind: "records"@,
        index: index as u64,
        names: names.subrange(from, to),
        values: Seq::new((to - from) as nat, |j: int| m[names[from + j]]),
    }
}

/// Where the `n`-th page ends, of pages of `limit` records.
pub open spec fn page_end(len: nat, limit: nat, n: nat) -> nat
    decreases n,
{
    if n == 0 {
        0
    } else {
        let end = page_end(len, limit, (n - 1) as nat) + limit;
        if end < len {
            end
        } else {
            len
        }
    }
}

/// The first `n` pages of a store.
pub open spec fn pages_of(m: Map<Seq<char>, JsonModel>, limit: nat, n: nat) -> Seq<RecordsChunkModel> {
    let names = in_order(m.dom());
    Seq::new(
        n,
        |i: int| page_of(
            m,
            names,
            page_end(names.len(), limit, i as nat) as int,
            page_end(names.len(), limit, (i + 1) as nat) as int,
            i,
        ),
    )
}

/// `n` pages hold the whole store, and no fewer do.
pub open spec fn page_count(len: nat, limit: nat, n: nat) -> bool {
    page_end(len, limit, n) == len && (n > 0 ==> page_end(len, limit, (n - 1) as nat) < len)
}

/// The records of a store in pages of `limit`, in the order of their names.
#[verifier::loop_isolation(false)]
pub fn draft_pages(records: &Table<Json>, limit: usize) -> (r: Vec<RecordsChunk>)
    requires
        limit >= 1,
    ensures
        views(r@) == pages_of(records@, limit as nat, r.len() as nat),
        page_count(in_order(records@.dom()).len(), limit as nat, r.len() as nat),
        forall|i: int|
            0 <= i < r.len() ==> (#[trigger] r[i]).names.len() > 0 && r[i].names.len()
                == r[i].values.len(),
{
    let keys = records.keys();
    let list = keys.to_list();
    let ghost m = records@;
    let ghost names = in_order(m.dom());
    let n: usize = list.len();
    assert(texts(list@).len() == n);
    keys.listing();
    let mut out: Vec<RecordsChunk> = Vec::new();
    let mut from: usize = 0;
    assert(views(out@) =~= pages_of(m, limit as nat, 0));
    while from < n
        invariant
            from <= n,
            out.len() <= from,
            from == page_end(n as nat, limit as nat, out.len() as nat),
            out.len() > 0 ==> page_end(n as nat, limit as nat, (out.len() - 1) as nat) < n,
            views(out@) == pages_of(m, limit as nat, out.len() as nat),
            forall|j: int|
                0 <= j < out.len() ==> (#[trigger] out[j]).names.len() > 0 && out[j].names.len()
                    == out[j].values.len(),
        decreases n - from,
    {
        let to: usize = if limit < n - from {
            from + limit
        } else {
            n
        };
        let mut page: Vec<String> = Vec::new();
        let mut values: Vec<Json> = Vec::new();
        let mut i: usize = from;
        assert(texts(page@) =~= names.subrange(from as int, from as int));
        assert(views(values@) =~= Seq::new(0, |j: int| m[names[from + j]]));
        while i < to
            invariant
                from <= i <= to <= n,
                texts(page@) == names.subrange(from as int, i as int),
                views(values@) == Seq::new((i - from) as nat, |j: int| m[names[from + j]]),
            decreases to - i,
        {
            assert(names[i as int] == list[i as int]@);
            assert(m.dom().contains(names[i as int])) by {
                assert(names.to_set().contains(names[i as int])) by {
                    assert(names.contains(names[i as int]));
                }
            }
            let ghost was = texts(page@);
            let ghost held = views(values@);
            let value = match records.get(list[i].as_str()) {
                Some(v) => v.dup(),
                None => Json::Null,
            };
            let ghost vm = value@;
            page.push(list[i].clone());
            values.push(value);
            assert(texts(page@) =~= was.push(names[i as int]));
            assert(views(values@) =~= held.push(vm));
            i = i + 1;
            assert(names.subrange(from as int, i as int) =~= names.subrange(from as int, i - 1).push(
                names[i - 1],
            ));
            assert(views(values@) =~= Seq::new((i - from) as nat, |j: int| m[names[from + j]]));
        }
        assert(texts(page@).len() == to - from);
        assert(views(values@).len() == to - from);
        let ghost was = views(out@);
        let chunk = RecordsChunk {
            kind: "records".to_owned(),
            index: out.len() as u64,
            names: page,
            values,
        };
        let ghost cm = chunk@;
        out.push(chunk);
        proof {
            assert(views(out@) =~= was.push(cm));
            assert(pages_of(m, limit as nat, out.len() as nat) =~= was.push(cm));
        }
        from = to;
    }
    out
}

/// The records of a page as JSON members, each value in its one form.
pub open spec fn record_members(p: RecordsChunkModel) -> Seq<(Seq<char>, JsonModel)> {
    Seq::new(p.names.len(), |i: int| (p.names[i], canonical(p.values[i])))
}

/// A page as it is written before it is sealed.
pub open spec fn page_json(p: RecordsChunkModel) -> JsonModel {
    JsonModel::Object(
        seq![
            ("kind"@, JsonModel::Text(p.kind)),
            ("index"@, JsonModel::Unsigned(p.index)),
            ("records"@, JsonModel::Object(record_members(p))),
        ],
    )
}

/// A value as text, where that stays within `limit` bytes.
pub open spec fn bounded_text(j: JsonModel, limit: nat) -> Result<Seq<char>, Failure> {
    if byte_count(json_text(j)) > limit {
        Err(Failure::Bad("Backup plaintext page exceeds 8 MiB"@))
    } else {
        Ok(json_text(j))
    }
}

/// Writes a value as text of at most `limit` bytes.
pub fn bounded_backup_json(value: &Json, limit: usize) -> (r: Result<String, Error>)
    ensures
        agrees_with(r, bounded_text(value@, limit as nat)),
{
    let written = to_text(value);
    if byte_len(written.as_str()) > limit {
        return Err(Error::bad("Backup plaintext page exceeds 8 MiB"));
    }
    Ok(written)
}

/// Writes a page, ready to be sealed.
#[verifier::loop_isolation(false)]
pub fn write_page(page: &RecordsChunk) -> (r: Result<String, Error>)
    requires
        page.names.len() == page.values.len(),
    ensures
        agrees_with(r, bounded_text(page_json(page@), MAX_BACKUP_PAGE_BYTES as nat)),
{
    let ghost all = record_members(page@);
    assert(all.len() == page.names.len());
    let mut records: Vec<Member> = Vec::new();
    let mut i: usize = 0;
    while i < page.names.len()
        invariant
            i <= page.names.len(),
            members_of(records@) == all.take(i as int),
        decreases page.names.len() - i,
    {
        let ghost was = members_of(records@);
        assert(page@.names[i as int] == page.names[i as int]@);
        assert(page@.values[i as int] == page.values[i as int]@);
        records.push(member(page.names[i].as_str(), to_canonical(&page.values[i])));
        i = i + 1;
        assert(members_of(records@) =~= was.push(all[i - 1]));
        assert(all.take(i as int) =~= all.take(i - 1).push(all[i - 1]));
    }
    assert(all.take(i as int) =~= all);
    proof {
        lemma_members_of(records);
    }
    let mut m: Vec<Member> = Vec::new();
    m.push(member("kind", text(page.kind.as_str())));
    m.push(member("index", Json::Unsigned(page.index)));
    m.push(member("records", Json::Object(records)));
    proof {
        lemma_members_of(m);
        assert(members_of(m@) =~= page_json(page@)->Object_0);
    }
    let whole = Json::Object(m);
    bounded_backup_json(&whole, MAX_BACKUP_PAGE_BYTES)
}

/// What sealing gave.
pub open spec fn sealing(r: Result<String, Error>) -> Result<Seq<char>, Failure> {
    match r {
        Ok(t) => Ok(t@),
        Err(e) => Err(e@),
    }
}

/// What sealing each page gave.
pub open spec fn sealings(v: Seq<Result<String, Error>>) -> Seq<Result<Seq<char>, Failure>> {
    v.map_values(|r: Result<String, Error>| sealing(r))
}

/// The sealed texts, where every page was sealed.
pub open spec fn sealed_texts(v: Seq<Result<Seq<char>, Failure>>) -> Seq<Seq<char>> {
    v.map_values(|r: Result<Seq<char>, Failure>| r->Ok_0)
}

/// The progress of a backup once the first `n` pages are sealed. `sealed` is what sealing the pages
/// gave.
pub open spec fn pages_sealed(
    pages: Seq<RecordsChunkModel>,
    sealed: Seq<Result<Seq<char>, Failure>>,
    n: nat,
) -> Result<BackupProgressModel, Failure>
    decreases n,
{
    if n == 0 {
        Ok(backup_started())
    } else {
        let page = pages[n - 1];
        match pages_sealed(pages, sealed, (n - 1) as nat) {
            Err(f) => Err(f),
            Ok(p) => match bounded_text(page_json(page), MAX_BACKUP_PAGE_BYTES as nat) {
                Err(f) => Err(f),
                Ok(_) => match sealed[n - 1] {
                    Err(f) => Err(f),
                    Ok(t) => page_sealed(p, page.names.last(), page.names.len() as u64, t),
                },
            },
        }
    }
}

proof fn lemma_sealing_fails(
    pages: Seq<RecordsChunkModel>,
    sealed: Seq<Result<Seq<char>, Failure>>,
    n: nat,
    l: nat,
)
    requires
        n <= l,
        pages_sealed(pages, sealed, n) is Err,
    ensures
        pages_sealed(pages, sealed, l) == pages_sealed(pages, sealed, n),
    decreases l - n,
{
    if n < l {
        lemma_sealing_fails(pages, sealed, n, (l - 1) as nat);
    }
}

/// Takes what sealing the pages of a backup gave, in their order.
#[verifier::loop_isolation(false)]
pub fn seal_pages(pages: &Vec<RecordsChunk>, sealed: &Vec<Result<String, Error>>) -> (r: Result<
    BackupProgress,
    Error,
>)
    requires
        pages.len() == sealed.len(),
        forall|i: int|
            0 <= i < pages.len() ==> (#[trigger] pages[i]).names.len() > 0 && pages[i].names.len()
                == pages[i].values.len(),
    ensures
        agrees_with(r, pages_sealed(views(pages@), sealings(sealed@), pages.len() as nat)),
{
    let ghost ps = views(pages@);
    let ghost ts = sealings(sealed@);
    let mut progress = BackupProgress::start();
    let mut i: usize = 0;
    while i < pages.len()
        invariant
            i <= pages.len(),
            pages_sealed(ps, ts, i as nat) == Ok::<BackupProgressModel, Failure>(progress@),
        decreases pages.len() - i,
    {
        let page = &pages[i];
        let n: usize = page.names.len();
        assert(ps[i as int] == page@);
        assert(ts[i as int] == sealing(sealed[i as int]));
        assert(page@.names.len() == n);
        assert(page@.names.last() == page.names[n - 1]@);
        if let Err(e) = write_page(page) {
            proof {
                lemma_sealing_fails(ps, ts, (i + 1) as nat, pages.len() as nat);
            }
            return Err(e);
        }
        let t: &String = match &sealed[i] {
            Ok(t) => t,
            Err(e) => {
                proof {
                    lemma_sealing_fails(ps, ts, (i + 1) as nat, pages.len() as nat);
                }
                return Err(e.dup());
            },
        };
        if let Err(e) = progress.seal_page(page.names[n - 1].as_str(), n as u64, t.as_str()) {
            proof {
                lemma_sealing_fails(ps, ts, (i + 1) as nat, pages.len() as nat);
            }
            return Err(e);
        }
        i = i + 1;
    }
    Ok(progress)
}

/// The manifest of a backup whose pages are sealed.
pub open spec fn manifest_of(p: BackupProgressModel, created_at: u64, issuer: Seq<char>) -> ArchiveManifestModel {
    ArchiveManifestModel {
        kind: "manifest"@,
        api_version: BACKUP_V2@,
        created_at,
        issuer,
        record_count: p.records,
        digests: p.digests,
    }
}

/// The sealed parts of an archive: its pages, and its manifest behind them.
pub open spec fn parts_of(sealed: Seq<Seq<char>>, manifest: Seq<char>) -> Seq<JsonModel> {
    sealed.push(manifest).map_values(|t: Seq<char>| JsonModel::Text(t))
}

/// The archive of a backup.
pub open spec fn envelope_of(created_at: u64, sealed: Seq<Seq<char>>, manifest: Seq<char>) -> JsonModel {
    JsonModel::Object(
        seq![
            ("api_version"@, JsonModel::Text(BACKUP_V2@)),
            ("created_at"@, JsonModel::Unsigned(created_at)),
            ("encrypted"@, JsonModel::Bool(true)),
            ("chunks"@, JsonModel::Array(parts_of(sealed, manifest))),
        ],
    )
}

impl BackupProgress {
    pub fn manifest(&self, created_at: u64, issuer: &str) -> (r: ArchiveManifest)
        ensures
            r@ == manifest_of(self@, created_at, issuer@),
    {
        ArchiveManifest {
            kind: "manifest".to_owned(),
            api_version: BACKUP_V2.to_owned(),
            created_at,
            issuer: issuer.to_owned(),
            record_count: self.records,
            digests: copy_list(&self.digests),
        }
    }

    /// Closes a backup with its sealed manifest.
    #[verifier::loop_isolation(false)]
    fn close(&self, created_at: u64, sealed: &Vec<String>, manifest: &str) -> (r: Result<Json, Error>)
        ensures
            agrees_with(
                r,
                if self@.bytes + byte_count(manifest@) + 4 > MAX_BACKUP_BYTES {
                    Err(Failure::Bad("Backup archive exceeds 64 MiB"@))
                } else {
                    Ok(envelope_of(created_at, texts(sealed@), manifest@))
                },
            ),
    {
        if !self.fits_with(manifest) {
            return Err(Error::bad("Backup archive exceeds 64 MiB"));
        }
        let ghost all = parts_of(texts(sealed@), manifest@);
        let mut parts: Vec<Json> = Vec::new();
        let mut i: usize = 0;
        while i < sealed.len()
            invariant
                i <= sealed.len(),
                items_of(parts@) == all.take(i as int),
            decreases sealed.len() - i,
        {
            let ghost was = items_of(parts@);
            assert(all[i as int] == JsonModel::Text(sealed[i as int]@));
            parts.push(text(sealed[i].as_str()));
            i = i + 1;
            assert(items_of(parts@) =~= was.push(all[i - 1]));
            assert(all.take(i as int) =~= all.take(i - 1).push(all[i - 1]));
        }
        let ghost was = items_of(parts@);
        parts.push(text(manifest));
        assert(items_of(parts@) =~= was.push(JsonModel::Text(manifest@)));
        assert(items_of(parts@) =~= all);
        proof {
            lemma_items_of(parts);
        }
        let mut m: Vec<Member> = Vec::new();
        m.push(member("api_version", text(BACKUP_V2)));
        m.push(member("created_at", Json::Unsigned(created_at)));
        m.push(member("encrypted", Json::Bool(true)));
        m.push(member("chunks", Json::Array(parts)));
        proof {
            lemma_members_of(m);
            assert(members_of(m@) =~= envelope_of(created_at, texts(sealed@), manifest@)->Object_0);
        }
        Ok(Json::Object(m))
    }
}

/// What a backup comes to. `sealed` is what sealing the pages of the store gave, and `manifest` what
/// sealing the manifest gave.
pub open spec fn backed_up(
    m: Map<Seq<char>, JsonModel>,
    limit: nat,
    created_at: u64,
    key: Seq<char>,
    sealed: Seq<Result<Seq<char>, Failure>>,
    manifest: Result<Seq<char>, Failure>,
) -> Result<JsonModel, Failure> {
    match backup_key(key) {
        Err(f) => Err(f),
        Ok(_) => match pages_sealed(pages_of(m, limit, sealed.len()), sealed, sealed.len()) {
            Err(f) => Err(f),
            Ok(p) => match manifest {
                Err(f) => Err(f),
                Ok(t) => if p.bytes + byte_count(t) + 4 > MAX_BACKUP_BYTES {
                    Err(Failure::Bad("Backup archive exceeds 64 MiB"@))
                } else {
                    Ok(envelope_of(created_at, sealed_texts(sealed), t))
                },
            },
        },
    }
}

proof fn lemma_ends_grow(len: nat, limit: nat, a: nat, b: nat)
    requires
        limit >= 1,
        a <= b,
    ensures
        page_end(len, limit, a) <= page_end(len, limit, b),
    decreases b,
{
    if a < b {
        lemma_ends_grow(len, limit, a, (b - 1) as nat);
        lemma_page_end(len, limit, b);
    }
}

proof fn lemma_one_count(len: nat, limit: nat, a: nat, b: nat)
    requires
        limit >= 1,
        page_count(len, limit, a),
        page_count(len, limit, b),
    ensures
        a == b,
{
    if a < b {
        lemma_ends_grow(len, limit, a, (b - 1) as nat);
    } else if b < a {
        lemma_ends_grow(len, limit, b, (a - 1) as nat);
    }
}

impl Core {
    /// Makes the archive of a store. Its pages are those of [`draft_pages`], each as [`write_page`]
    /// writes it, and its manifest that of [`BackupProgress::manifest`]; `sealed` and `manifest` are
    /// what sealing them under the key gave.
    #[verifier::loop_isolation(false)]
    pub fn backup(
        &self,
        records: &Table<Json>,
        limit: usize,
        created_at: u64,
        encryption_key: &str,
        sealed: &Vec<Result<String, Error>>,
        manifest: &Result<String, Error>,
    ) -> (r: Result<Json, Error>)
        requires
            limit >= 1,
            page_count(in_order(records@.dom()).len(), limit as nat, sealed.len() as nat),
        ensures
            agrees_with(
                r,
                backed_up(
                    records@,
                    limit as nat,
                    created_at,
                    encryption_key@,
                    sealings(sealed@),
                    sealing(*manifest),
                ),
            ),
    {
        if let Err(e) = decode_key(encryption_key) {
            return Err(e);
        }
        let ghost ts = sealings(sealed@);
        let pages = draft_pages(records, limit);
        proof {
            lemma_one_count(
                in_order(records@.dom()).len(),
                limit as nat,
                pages.len() as nat,
                sealed.len() as nat,
            );
        }
        let progress = match seal_pages(&pages, sealed) {
            Err(e) => return Err(e),
            Ok(p) => p,
        };
        let last: &String = match manifest {
            Err(e) => return Err(e.dup()),
            Ok(t) => t,
        };
        proof {
            lemma_sealed(views(pages@), ts, sealed.len() as nat);
        }
        let mut list: Vec<String> = Vec::new();
        let mut i: usize = 0;
        assert(texts(list@) =~= sealed_texts(ts).take(0));
        while i < sealed.len()
            invariant
                i <= sealed.len(),
                texts(list@) == sealed_texts(ts).take(i as int),
            decreases sealed.len() - i,
        {
            let ghost was = texts(list@);
            assert(ts[i as int] == sealing(sealed[i as int]));
            assert(ts[i as int] is Ok);
            if let Ok(t) = &sealed[i] {
                list.push(t.clone());
                assert(texts(list@) =~= was.push(t@));
            }
            i = i + 1;
            assert(sealed_texts(ts).take(i as int) =~= sealed_texts(ts).take(i - 1).push(
                sealed_texts(ts)[i - 1],
            ));
        }
        assert(sealed_texts(ts).take(i as int) =~= sealed_texts(ts));
        progress.close(created_at, &list, last.as_str())
    }
}

/// The part of a store that its first `e` names make.
pub open spec fn part(m: Map<Seq<char>, JsonModel>, names: Seq<Seq<char>>, e: nat) -> Map<
    Seq<char>,
    JsonModel,
> {
    Map::new(|k: Seq<char>| names.take(e as int).contains(k), |k: Seq<char>| m[k])
}

/// The record `key`, where it is among the first `e` names.
pub open spec fn seen(
    m: Map<Seq<char>, JsonModel>,
    names: Seq<Seq<char>>,
    e: nat,
    key: Seq<char>,
) -> Option<JsonModel> {
    if names.take(e as int).contains(key) {
        Some(m[key])
    } else {
        None
    }
}

/// The pages as opening them gives them.
pub open spec fn all_opened(pages: Seq<RecordsChunkModel>) -> Seq<Result<RecordsChunkModel, Failure>> {
    pages.map_values(|p: RecordsChunkModel| Ok::<RecordsChunkModel, Failure>(p))
}

proof fn lemma_take_more(names: Seq<Seq<char>>, e: nat)
    requires
        e < names.len(),
    ensures
        forall|k: Seq<char>| #[trigger]
            names.take((e + 1) as int).contains(k) <==> names.take(e as int).contains(k) || k == names[e as int],
{
    let a = names.take(e as int);
    let b = names.take((e + 1) as int);
    assert forall|k: Seq<char>| #[trigger] b.contains(k) <==> a.contains(k) || k == names[e as int] by {
        if b.contains(k) && k != names[e as int] {
            let i = b.index_of(k);
            assert(a[i] == k);
        }
        if a.contains(k) {
            let i = a.index_of(k);
            assert(b[i] == k);
        }
        if k == names[e as int] {
            assert(b[e as int] == k);
        }
    }
}

proof fn lemma_page_end(len: nat, limit: nat, n: nat)
    requires
        limit >= 1,
    ensures
        page_end(len, limit, n) <= len,
        n > 0 ==> page_end(len, limit, (n - 1) as nat) <= page_end(len, limit, n),
        page_end(len, limit, n) < len ==> page_end(len, limit, n) >= n,
    decreases n,
{
    if n > 0 {
        lemma_page_end(len, limit, (n - 1) as nat);
    }
}

proof fn lemma_page_written(
    m: Map<Seq<char>, JsonModel>,
    names: Seq<Seq<char>>,
    from: nat,
    to: nat,
    index: int,
    j: nat,
)
    requires
        ascending(names),
        from <= to <= names.len(),
        j <= to - from,
        forall|i: int| 0 <= i < names.len() ==> record_key(#[trigger] names[i]) is Ok,
    ensures
        records_written(part(m, names, from), page_of(m, names, from as int, to as int, index), j) == Ok::<
            Map<Seq<char>, JsonModel>,
            Failure,
        >(part(m, names, from + j)),
    decreases j,
{
    if j > 0 {
        lemma_page_written(m, names, from, to, index, (j - 1) as nat);
        let p = page_of(m, names, from as int, to as int, index);
        let e = (from + j - 1) as nat;
        let name = names[e as int];
        assert(p.names[j - 1] == name);
        assert(p.values[j - 1] == m[name]);
        let was = part(m, names, e);
        lemma_take_more(names, e);
        assert(!names.take(e as int).contains(name)) by {
            if names.take(e as int).contains(name) {
                let i = names.take(e as int).index_of(name);
                assert(text_lt(names[i], names[e as int]));
                lemma_lt_irreflexive(name);
            }
        }
        assert(was.insert(name, m[name]) =~= part(m, names, e + 1));
    }
}

proof fn lemma_pages_written(m: Map<Seq<char>, JsonModel>, limit: nat, n: nat, k: nat)
    requires
        ascending(in_order(m.dom())),
        limit >= 1,
        k <= n <= u64::MAX,
        forall|i: int|
            0 <= i < in_order(m.dom()).len() ==> record_key(#[trigger] in_order(m.dom())[i]) is Ok,
    ensures
        pages_written(all_opened(pages_of(m, limit, n)), k) == Ok::<Map<Seq<char>, JsonModel>, Failure>(
            part(m, in_order(m.dom()), page_end(in_order(m.dom()).len(), limit, k)),
        ),
    decreases k,
{
    let names = in_order(m.dom());
    if k == 0 {
        assert(names.take(0) =~= Seq::<Seq<char>>::empty());
        assert(part(m, names, 0) =~= Map::empty());
    } else {
        lemma_pages_written(m, limit, n, (k - 1) as nat);
        lemma_page_end(names.len(), limit, k);
        lemma_page_end(names.len(), limit, (k - 1) as nat);
        let from = page_end(names.len(), limit, (k - 1) as nat);
        let to = page_end(names.len(), limit, k);
        let p = pages_of(m, limit, n)[k - 1];
        assert(all_opened(pages_of(m, limit, n))[k - 1] == Ok::<RecordsChunkModel, Failure>(p));
        assert(p == page_of(m, names, from as int, to as int, k - 1));
        lemma_page_written(m, names, from, to, k - 1, (to - from) as nat);
    }
}

proof fn lemma_page_noted(
    m: Map<Seq<char>, JsonModel>,
    names: Seq<Seq<char>>,
    from: nat,
    to: nat,
    index: int,
    c: ArchiveCheckModel,
    j: nat,
)
    requires
        from <= to <= names.len(),
        names.len() <= u64::MAX,
        j <= to - from,
        c.count == from,
        c.schema == seen(m, names, from, "meta/schema"@),
        c.issuer == seen(m, names, from, "meta/issuer"@),
        forall|i: int| 0 <= i < names.len() ==> record_key(#[trigger] names[i]) is Ok,
    ensures
        records_noted(c, page_of(m, names, from as int, to as int, index), j) == Ok::<
            ArchiveCheckModel,
            Failure,
        >(
            ArchiveCheckModel {
                next: c.next,
                count: (from + j) as u64,
                schema: seen(m, names, from + j, "meta/schema"@),
                issuer: seen(m, names, from + j, "meta/issuer"@),
            },
        ),
    decreases j,
{
    if j > 0 {
        lemma_page_noted(m, names, from, to, index, c, (j - 1) as nat);
        let p = page_of(m, names, from as int, to as int, index);
        let e = (from + j - 1) as nat;
        assert(p.names[j - 1] == names[e as int]);
        assert(p.values[j - 1] == m[names[e as int]]);
        lemma_take_more(names, e);
    }
}

proof fn lemma_sealed(
    pages: Seq<RecordsChunkModel>,
    sealed: Seq<Result<Seq<char>, Failure>>,
    n: nat,
)
    requires
        pages_sealed(pages, sealed, n) is Ok,
        n <= sealed.len(),
    ensures
        (pages_sealed(pages, sealed, n)->Ok_0).digests.len() == n,
        forall|i: int| 0 <= i < n ==> (#[trigger] sealed[i]) is Ok,
        forall|i: int|
            0 <= i < n ==> #[trigger] (pages_sealed(pages, sealed, n)->Ok_0).digests[i] == digest_of(
                sealed_texts(sealed)[i],
            ),
    decreases n,
{
    if n > 0 {
        lemma_sealed(pages, sealed, (n - 1) as nat);
        assert(sealed_texts(sealed)[n - 1] == sealed[n - 1]->Ok_0);
    }
}

proof fn lemma_counted(
    m: Map<Seq<char>, JsonModel>,
    limit: nat,
    n: nat,
    sealed: Seq<Result<Seq<char>, Failure>>,
    k: nat,
)
    requires
        limit >= 1,
        k <= n,
        in_order(m.dom()).len() <= u64::MAX,
        pages_sealed(pages_of(m, limit, n), sealed, k) is Ok,
    ensures
        (pages_sealed(pages_of(m, limit, n), sealed, k)->Ok_0).records == page_end(
            in_order(m.dom()).len(),
            limit,
            k,
        ),
    decreases k,
{
    let names = in_order(m.dom());
    if k > 0 {
        lemma_counted(m, limit, n, sealed, (k - 1) as nat);
        lemma_page_end(names.len(), limit, k);
        lemma_page_end(names.len(), limit, (k - 1) as nat);
        let from = page_end(names.len(), limit, (k - 1) as nat);
        let to = page_end(names.len(), limit, k);
        let p = pages_of(m, limit, n)[k - 1];
        assert(p == page_of(m, names, from as int, to as int, k - 1));
        assert(p.names.len() == to - from);
    }
}

proof fn lemma_pages_taken(
    m: Map<Seq<char>, JsonModel>,
    limit: nat,
    n: nat,
    sealed: Seq<Seq<char>>,
    seal: Seq<char>,
    manifest: ArchiveManifestModel,
    k: nat,
)
    requires
        limit >= 1,
        k <= n < usize::MAX,
        sealed.len() == n,
        in_order(m.dom()).len() <= u64::MAX,
        manifest.digests.len() == n,
        forall|i: int| 0 <= i < n ==> #[trigger] manifest.digests[i] == digest_of(sealed[i]),
        forall|i: int|
            0 <= i < in_order(m.dom()).len() ==> record_key(#[trigger] in_order(m.dom())[i]) is Ok,
    ensures
        ({
            let names = in_order(m.dom());
            let e = page_end(names.len(), limit, k);
            pages_taken(manifest, parts_of(sealed, seal), all_opened(pages_of(m, limit, n)), k) == Ok::<
                ArchiveCheckModel,
                Failure,
            >(
                ArchiveCheckModel {
                    next: k as usize,
                    count: e as u64,
                    schema: seen(m, names, e, "meta/schema"@),
                    issuer: seen(m, names, e, "meta/issuer"@),
                },
            )
        }),
    decreases k,
{
    let names = in_order(m.dom());
    if k == 0 {
        assert(names.take(0) =~= Seq::<Seq<char>>::empty());
    } else {
        lemma_pages_taken(m, limit, n, sealed, seal, manifest, (k - 1) as nat);
        lemma_page_end(names.len(), limit, k);
        lemma_page_end(names.len(), limit, (k - 1) as nat);
        let from = page_end(names.len(), limit, (k - 1) as nat);
        let to = page_end(names.len(), limit, k);
        let p = pages_of(m, limit, n)[k - 1];
        assert(all_opened(pages_of(m, limit, n))[k - 1] == Ok::<RecordsChunkModel, Failure>(p));
        assert(p == page_of(m, names, from as int, to as int, k - 1));
        assert(parts_of(sealed, seal)[k - 1] == JsonModel::Text(sealed[k - 1]));
        assert(manifest.digests[k - 1] == digest_of(sealed[k - 1]));
        let c = ArchiveCheckModel {
            next: (k - 1) as usize,
            count: from as u64,
            schema: seen(m, names, from, "meta/schema"@),
            issuer: seen(m, names, from, "meta/issuer"@),
        };
        lemma_page_noted(m, names, from, to, k - 1, c, (to - from) as nat);
    }
}

/// A backup gives back what was backed up: the archive of a store, opened under the same key,
/// restores exactly the records of that store. The store has to say its schema and its issuer, and
/// its records to be named by bucket and key, as those of a store are.
pub proof fn restoring_a_backup_gives_back_the_store(
    m: Map<Seq<char>, JsonModel>,
    limit: nat,
    created_at: u64,
    issuer: Seq<char>,
    key: Seq<char>,
    sealed: Seq<Result<Seq<char>, Failure>>,
    seal: Result<Seq<char>, Failure>,
    current: u64,
)
    requires
        m.dom().finite(),
        m.dom().len() <= u64::MAX,
        limit >= 1,
        sealed.len() < usize::MAX,
        page_count(in_order(m.dom()).len(), limit, sealed.len()),
        backed_up(m, limit, created_at, key, sealed, seal) is Ok,
        forall|k: Seq<char>| #[trigger] m.dom().contains(k) ==> record_key(k) is Ok,
        readable_schema(record_at(m, "meta/schema"@), current),
        record_at(m, "meta/issuer"@) == Some(JsonModel::Text(issuer)),
    ensures
        ({
            let pages = pages_of(m, limit, sealed.len());
            let p = pages_sealed(pages, sealed, sealed.len())->Ok_0;
            restored(
                backed_up(m, limit, created_at, key, sealed, seal)->Ok_0,
                Ok(manifest_of(p, created_at, issuer)),
                all_opened(pages),
                current,
            ) == Ok::<Map<Seq<char>, JsonModel>, Failure>(m)
        }),
{
    let n = sealed.len();
    let names = in_order(m.dom());
    let pages = pages_of(m, limit, n);
    let p = pages_sealed(pages, sealed, n)->Ok_0;
    let manifest = manifest_of(p, created_at, issuer);
    let list = sealed_texts(sealed);
    let parts = parts_of(list, seal->Ok_0);
    finite_sets_are_listed(m.dom());
    lemma_ascending_len(names);
    assert forall|i: int| 0 <= i < names.len() implies record_key(#[trigger] names[i]) is Ok by {
        assert(names.contains(names[i]));
        assert(names.to_set().contains(names[i]));
    }
    assert forall|k: Seq<char>| #[trigger] m.dom().contains(k) <==> names.contains(k) by {
        assert(names.to_set().contains(k) <==> names.contains(k));
    }
    assert(names.take(names.len() as int) =~= names);
    assert(part(m, names, names.len()) =~= m);
    lemma_sealed(pages, sealed, n);
    lemma_counted(m, limit, n, sealed, n);
    lemma_pages_taken(m, limit, n, list, seal->Ok_0, manifest, n);
    lemma_pages_written(m, limit, n, n);
    assert(all_opened(pages).len() == n);
    lemma_envelope(created_at, list, seal->Ok_0);
    assert(parts.len() == n + 1);
    assert(parts.last() == JsonModel::Text(seal->Ok_0));
}

proof fn lemma_ascending_len(names: Seq<Seq<char>>)
    requires
        ascending(names),
    ensures
        names.to_set().len() == names.len(),
{
    assert(names.no_duplicates()) by {
        assert forall|i: int, j: int|
            0 <= i < names.len() && 0 <= j < names.len() && i != j implies names[i] != names[j] by {
            if i < j {
                assert(text_lt(names[i], names[j]));
            } else {
                assert(text_lt(names[j], names[i]));
            }
            lemma_lt_irreflexive(names[i]);
        }
    }
    names.unique_seq_to_set();
}

proof fn lemma_envelope(created_at: u64, sealed: Seq<Seq<char>>, seal: Seq<char>)
    ensures
        ({
            let e = envelope_of(created_at, sealed, seal);
            &&& e.member("encrypted"@) == Some(JsonModel::Bool(true))
            &&& e.member("created_at"@) == Some(JsonModel::Unsigned(created_at))
            &&& e.member("chunks"@) == Some(JsonModel::Array(parts_of(sealed, seal)))
        }),
{
    let m = envelope_of(created_at, sealed, seal)->Object_0;
    reveal_strlit("api_version");
    reveal_strlit("created_at");
    reveal_strlit("encrypted");
    reveal_strlit("chunks");
    assert("api_version"@.len() == 11);
    assert("created_at"@.len() == 10);
    assert("encrypted"@.len() == 9);
    assert("chunks"@.len() == 6);
    let m1 = m.drop_first();
    let m2 = m1.drop_first();
    let m3 = m2.drop_first();
    assert(m1[0] == m[1] && m2[0] == m[2] && m3[0] == m[3]);
    assert(lookup(m, "created_at"@) == lookup(m1, "created_at"@));
    assert(lookup(m, "encrypted"@) == lookup(m1, "encrypted"@));
    assert(lookup(m1, "encrypted"@) == lookup(m2, "encrypted"@));
    assert(lookup(m, "chunks"@) == lookup(m1, "chunks"@));
    assert(lookup(m1, "chunks"@) == lookup(m2, "chunks"@));
    assert(lookup(m2, "chunks"@) == lookup(m3, "chunks"@));
}

} // verus!
