//! An account's documents, their tag-index entries and the change log, and
//! the purge that reclaims stale documents together with their index entries
//! and the change records that precede the purge boundary.

use vstd::prelude::*;
use crate::log_key::LogKey;

verus! {

/// A stored document.
#[derive(Clone, Copy, PartialEq, Eq, Structural, Debug)]
pub struct DocumentRecord {
    pub account_id: u32,
    pub collection: u8,
    pub document_id: u32,
    /// Change id of the document's last mutation.
    pub change_id: u64,
}

/// One entry of a tag index: the document carries the tag.
#[derive(Clone, Copy, PartialEq, Eq, Structural, Debug)]
pub struct TagEntry {
    pub account_id: u32,
    pub collection: u8,
    pub document_id: u32,
    pub tag: u32,
}

/// What the collector considers stale: a document last changed before
/// `boundary` that carries one of `expiring_tags`; and every change record
/// before `boundary`.
pub struct PurgePolicy {
    pub expiring_tags: Vec<u32>,
    pub boundary: u64,
}

/// The entry refers to the document.
pub open spec fn same_doc(t: TagEntry, d: DocumentRecord) -> bool {
    t.account_id == d.account_id && t.collection == d.collection && t.document_id
        == d.document_id
}

/// The document carries one of the tags `expiring` in the index `tags`.
pub open spec fn carries_expiring(
    tags: Seq<TagEntry>,
    d: DocumentRecord,
    expiring: Seq<u32>,
) -> bool {
    exists|j: int| 0 <= j < tags.len() && same_doc(#[trigger] tags[j], d) && expiring.contains(tags[j].tag)
}

/// The document of `account` is reclaimed by a purge.
pub open spec fn is_stale(
    tags: Seq<TagEntry>,
    d: DocumentRecord,
    account: u32,
    expiring: Seq<u32>,
    boundary: u64,
) -> bool {
    d.account_id == account && d.change_id < boundary && carries_expiring(tags, d, expiring)
}

/// Documents that a purge keeps.
pub open spec fn keeps_doc(
    tags: Seq<TagEntry>,
    account: u32,
    expiring: Seq<u32>,
    boundary: u64,
) -> spec_fn(DocumentRecord) -> bool {
    |d: DocumentRecord| !is_stale(tags, d, account, expiring, boundary)
}

/// Tag entries that a purge keeps: those of no stale document.
pub open spec fn keeps_entry(
    docs: Seq<DocumentRecord>,
    tags: Seq<TagEntry>,
    account: u32,
    expiring: Seq<u32>,
    boundary: u64,
) -> spec_fn(TagEntry) -> bool {
    |t: TagEntry|
        !(exists|i: int|
            0 <= i < docs.len() && same_doc(t, #[trigger] docs[i]) && is_stale(
                tags,
                docs[i],
                account,
                expiring,
                boundary,
            ))
}

/// Change records that a purge keeps: those of other accounts, and those
/// from `boundary` on.
pub open spec fn keeps_change(account: u32, boundary: u64) -> spec_fn(LogKey) -> bool {
    |k: LogKey| !(k.account_id == account && k.change_id < boundary)
}

/// Some document of `docs` is the one the entry refers to.
pub open spec fn has_document(docs: Seq<DocumentRecord>, t: TagEntry) -> bool {
    exists|i: int| 0 <= i < docs.len() && same_doc(t, #[trigger] docs[i])
}

/// Every tag entry refers to a stored document.
pub open spec fn index_consistent(docs: Seq<DocumentRecord>, tags: Seq<TagEntry>) -> bool {
    forall|j: int| 0 <= j < tags.len() ==> has_document(docs, #[trigger] tags[j])
}

/// Documents, tag entries and change records after purging `account`.
pub open spec fn purged(
    docs: Seq<DocumentRecord>,
    tags: Seq<TagEntry>,
    changes: Seq<LogKey>,
    account: u32,
    expiring: Seq<u32>,
    boundary: u64,
) -> (Seq<DocumentRecord>, Seq<TagEntry>, Seq<LogKey>) {
    (
        docs.filter(keeps_doc(tags, account, expiring, boundary)),
        tags.filter(keeps_entry(docs, tags, account, expiring, boundary)),
        changes.filter(keeps_change(account, boundary)),
    )
}

proof fn lemma_filter_step<A>(s: Seq<A>, p: spec_fn(A) -> bool, i: int)
    requires
        0 <= i < s.len(),
    ensures
        s.take(i + 1).filter(p) == (if p(s[i]) {
            s.take(i).filter(p).push(s[i])
        } else {
            s.take(i).filter(p)
        }),
{
    reveal(Seq::filter);
    assert(s.take(i + 1).drop_last() =~= s.take(i));
}

proof fn lemma_filter_all<A>(s: Seq<A>, p: spec_fn(A) -> bool)
    requires
        forall|i: int| 0 <= i < s.len() ==> p(#[trigger] s[i]),
    ensures
        s.filter(p) == s,
    decreases s.len(),
{
    reveal(Seq::filter);
    if s.len() > 0 {
        lemma_filter_all(s.drop_last(), p);
        assert(s.drop_last().push(s.last()) =~= s);
    }
}

proof fn lemma_filter_members<A>(s: Seq<A>, p: spec_fn(A) -> bool, i: int)
    requires
        0 <= i < s.filter(p).len(),
    ensures
        p(s.filter(p)[i]),
        s.contains(s.filter(p)[i]),
{
    s.lemma_filter_pred(p, i);
    assert(s.filter(p).contains(s.filter(p)[i]));
    s.lemma_filter_contains_rev(p, s.filter(p)[i]);
}

/// Purging an account twice in a row leaves what the first purge left.
pub proof fn lemma_purge_idempotent(
    docs: Seq<DocumentRecord>,
    tags: Seq<TagEntry>,
    changes: Seq<LogKey>,
    account: u32,
    expiring: Seq<u32>,
    boundary: u64,
)
    ensures
        ({
            let (d1, t1, c1) = purged(docs, tags, changes, account, expiring, boundary);
            purged(d1, t1, c1, account, expiring, boundary) == (d1, t1, c1)
        }),
{
    let (d1, t1, c1) = purged(docs, tags, changes, account, expiring, boundary);
    let kd = keeps_doc(tags, account, expiring, boundary);
    let ke = keeps_entry(docs, tags, account, expiring, boundary);
    let kc = keeps_change(account, boundary);
    // No kept document is stale against the kept entries.
    assert forall|i: int| 0 <= i < d1.len() implies !is_stale(
        t1,
        #[trigger] d1[i],
        account,
        expiring,
        boundary,
    ) by {
        lemma_filter_members(docs, kd, i);
        if is_stale(t1, d1[i], account, expiring, boundary) {
            let j = choose|j: int|
                0 <= j < t1.len() && same_doc(#[trigger] t1[j], d1[i]) && expiring.contains(
                    t1[j].tag,
                );
            lemma_filter_members(tags, ke, j);
            let jj = choose|jj: int| 0 <= jj < tags.len() && tags[jj] == t1[j];
            assert(same_doc(tags[jj], d1[i]) && expiring.contains(tags[jj].tag));
            assert(is_stale(tags, d1[i], account, expiring, boundary));
        }
    }
    lemma_filter_all(d1, keeps_doc(t1, account, expiring, boundary));
    assert forall|j: int| 0 <= j < t1.len() implies #[trigger] keeps_entry(
        d1,
        t1,
        account,
        expiring,
        boundary,
    )(t1[j]) by {
        if exists|i: int|
            0 <= i < d1.len() && same_doc(t1[j], #[trigger] d1[i]) && is_stale(
                t1,
                d1[i],
                account,
                expiring,
                boundary,
            ) {
            let i = choose|i: int|
                0 <= i < d1.len() && same_doc(t1[j], #[trigger] d1[i]) && is_stale(
                    t1,
                    d1[i],
                    account,
                    expiring,
                    boundary,
                );
            assert(!is_stale(t1, d1[i], account, expiring, boundary));
        }
    }
    lemma_filter_all(t1, keeps_entry(d1, t1, account, expiring, boundary));
    assert forall|k: int| 0 <= k < c1.len() implies #[trigger] kc(c1[k]) by {
        lemma_filter_members(changes, kc, k);
    }
    lemma_filter_all(c1, kc);
}

/// A purge leaves no tag entry that refers to a reclaimed document.
pub proof fn lemma_purge_keeps_index_consistent(
    docs: Seq<DocumentRecord>,
    tags: Seq<TagEntry>,
    changes: Seq<LogKey>,
    account: u32,
    expiring: Seq<u32>,
    boundary: u64,
)
    requires
        index_consistent(docs, tags),
    ensures
        ({
            let (d1, t1, c1) = purged(docs, tags, changes, account, expiring, boundary);
            index_consistent(d1, t1)
        }),
{
    let (d1, t1, c1) = purged(docs, tags, changes, account, expiring, boundary);
    let kd = keeps_doc(tags, account, expiring, boundary);
    let ke = keeps_entry(docs, tags, account, expiring, boundary);
    assert forall|j: int| 0 <= j < t1.len() implies has_document(d1, #[trigger] t1[j]) by {
        lemma_filter_members(tags, ke, j);
        let jj = choose|jj: int| 0 <= jj < tags.len() && tags[jj] == t1[j];
        assert(has_document(docs, tags[jj]));
        let i = choose|i: int| 0 <= i < docs.len() && same_doc(tags[jj], #[trigger] docs[i]);
        assert(same_doc(t1[j], docs[i]));
        assert(kd(docs[i]));
        docs.lemma_filter_contains(kd, i);
        let k = choose|k: int| 0 <= k < d1.len() && d1[k] == docs[i];
        assert(same_doc(t1[j], d1[k]));
    }
    assert(index_consistent(d1, t1));
}

} // verus!

verus! {

/// Ids of the documents of `account` in `collection`, in storage order.
pub open spec fn document_ids_of(
    docs: Seq<DocumentRecord>,
    account: u32,
    collection: u8,
) -> Seq<u32> {
    docs.filter(in_collection(account, collection)).map_values(|d: DocumentRecord| d.document_id)
}

/// Documents of `account` in `collection`.
pub open spec fn in_collection(account: u32, collection: u8) -> spec_fn(DocumentRecord) -> bool {
    |d: DocumentRecord| d.account_id == account && d.collection == collection
}

/// Index entries of `account` in `collection` for `tag`.
pub open spec fn entry_for_tag(account: u32, collection: u8, tag: u32) -> spec_fn(TagEntry) -> bool {
    |t: TagEntry| t.account_id == account && t.collection == collection && t.tag == tag
}

/// Ids of the documents of `account` in `collection` that carry `tag`.
pub open spec fn tagged_ids_of(
    tags: Seq<TagEntry>,
    account: u32,
    collection: u8,
    tag: u32,
) -> Seq<u32> {
    tags.filter(entry_for_tag(account, collection, tag)).map_values(|t: TagEntry| t.document_id)
}

/// The index entries that a new document carrying `tags` adds.
pub open spec fn entries_for(
    account: u32,
    collection: u8,
    document_id: u32,
    tags: Seq<u32>,
) -> Seq<TagEntry> {
    tags.map_values(
        |t: u32| TagEntry { account_id: account, collection, document_id, tag: t },
    )
}

proof fn lemma_document_ids_push(s: Seq<DocumentRecord>, d: DocumentRecord, account: u32, collection: u8)
    ensures
        document_ids_of(s.push(d), account, collection) == (if d.account_id == account
            && d.collection == collection {
            document_ids_of(s, account, collection).push(d.document_id)
        } else {
            document_ids_of(s, account, collection)
        }),
{
    reveal(Seq::filter);
    assert(s.push(d).drop_last() =~= s);
    let p = in_collection(account, collection);
    if p(d) {
        assert(s.push(d).filter(p) == s.filter(p).push(d));
        assert(document_ids_of(s.push(d), account, collection) =~= document_ids_of(s, account, collection).push(d.document_id));
    }
}

proof fn lemma_tagged_ids_push(s: Seq<TagEntry>, t: TagEntry, account: u32, collection: u8, tag: u32)
    ensures
        tagged_ids_of(s.push(t), account, collection, tag) == (if t.account_id == account
            && t.collection == collection && t.tag == tag {
            tagged_ids_of(s, account, collection, tag).push(t.document_id)
        } else {
            tagged_ids_of(s, account, collection, tag)
        }),
{
    reveal(Seq::filter);
    assert(s.push(t).drop_last() =~= s);
    let p = entry_for_tag(account, collection, tag);
    if p(t) {
        assert(s.push(t).filter(p) == s.filter(p).push(t));
        assert(tagged_ids_of(s.push(t), account, collection, tag) =~= tagged_ids_of(s, account, collection, tag).push(t.document_id));
    }
}

/// Documents, their tag-index entries and the change log of a store.
pub struct MailStore {
    documents: Vec<DocumentRecord>,
    tags: Vec<TagEntry>,
    changes: Vec<LogKey>,
}

impl MailStore {
    pub closed spec fn docs(&self) -> Seq<DocumentRecord> {
        self.documents@
    }

    pub closed spec fn tag_entries(&self) -> Seq<TagEntry> {
        self.tags@
    }

    pub closed spec fn change_log(&self) -> Seq<LogKey> {
        self.changes@
    }

    /// Every index entry refers to a stored document.
    pub open spec fn wf(&self) -> bool {
        index_consistent(self.docs(), self.tag_entries())
    }

    /// An empty store.
    pub fn new() -> (r: MailStore)
        ensures
            r.wf(),
            r.docs().len() == 0,
            r.tag_entries().len() == 0,
            r.change_log().len() == 0,
    {
        MailStore { documents: Vec::new(), tags: Vec::new(), changes: Vec::new() }
    }

    /// Stores a document carrying `tags`, its index entries, and the change
    /// record of its creation.
    pub fn insert_document(
        &mut self,
        account_id: u32,
        collection: u8,
        document_id: u32,
        tags: &Vec<u32>,
        change_id: u64,
    )
        requires
            old(self).wf(),
        ensures
            final(self).wf(),
            final(self).docs() == old(self).docs().push(
                DocumentRecord { account_id, collection, document_id, change_id },
            ),
            final(self).tag_entries() == old(self).tag_entries() + entries_for(
                account_id,
                collection,
                document_id,
                tags@,
            ),
            final(self).change_log() == old(self).change_log().push(
                LogKey { account_id, collection, change_id },
            ),
    {
        let doc = DocumentRecord { account_id, collection, document_id, change_id };
        let ghost tags0 = self.tags@;
        let ghost docs0 = self.documents@;
        let ghost changes0 = self.changes@;
        self.documents.push(doc);
        let mut i: usize = 0;
        while i < tags.len()
            invariant
                i <= tags@.len(),
                self.documents@ == docs0.push(doc),
                self.changes@ == changes0,
                self.tags@ == tags0 + entries_for(account_id, collection, document_id, tags@).take(
                    i as int,
                ),
            decreases tags@.len() - i,
        {
            self.tags.push(TagEntry { account_id, collection, document_id, tag: tags[i] });
            i += 1;
            assert(self.tags@ =~= tags0 + entries_for(
                account_id,
                collection,
                document_id,
                tags@,
            ).take(i as int));
        }
        self.changes.push(LogKey { account_id, collection, change_id });
        proof {
            let all = entries_for(account_id, collection, document_id, tags@);
            assert(all.take(tags@.len() as int) =~= all);
            let docs1 = self.documents@;
            assert forall|j: int| 0 <= j < self.tags@.len() implies has_document(
                docs1,
                #[trigger] self.tags@[j],
            ) by {
                if j < tags0.len() {
                    assert(has_document(docs0, tags0[j]));
                    let k = choose|k: int| 0 <= k < docs0.len() && same_doc(tags0[j], #[trigger] docs0[k]);
                    assert(docs1[k] == docs0[k]);
                } else {
                    assert(docs1[docs0.len() as int] == doc);
                    assert(same_doc(self.tags@[j], docs1[docs0.len() as int]));
                }
            }
        }
    }

    /// Ids of the documents of `account_id` in `collection`.
    pub fn get_document_ids(&self, account_id: u32, collection: u8) -> (r: Vec<u32>)
        ensures
            r@ == document_ids_of(self.docs(), account_id, collection),
    {
        let mut out: Vec<u32> = Vec::new();
        let mut i: usize = 0;
        while i < self.documents.len()
            invariant
                i <= self.documents@.len(),
                out@ == document_ids_of(self.documents@.take(i as int), account_id, collection),
            decreases self.documents@.len() - i,
        {
            let d = self.documents[i];
            if d.account_id == account_id && d.collection == collection {
                out.push(d.document_id);
            }
            proof {
                assert(self.documents@.take(i as int + 1) =~= self.documents@.take(i as int).push(d));
                lemma_document_ids_push(self.documents@.take(i as int), d, account_id, collection);
            }
            i += 1;
            assert(out@ =~= document_ids_of(self.documents@.take(i as int), account_id, collection));
        }
        assert(self.documents@.take(i as int) =~= self.documents@);
        out
    }

    /// Ids of the documents of `account_id` in `collection` that carry `tag`.
    pub fn get_tag(&self, account_id: u32, collection: u8, tag: u32) -> (r: Vec<u32>)
        ensures
            r@ == tagged_ids_of(self.tag_entries(), account_id, collection, tag),
    {
        let mut out: Vec<u32> = Vec::new();
        let mut i: usize = 0;
        while i < self.tags.len()
            invariant
                i <= self.tags@.len(),
                out@ == tagged_ids_of(self.tags@.take(i as int), account_id, collection, tag),
            decreases self.tags@.len() - i,
        {
            let t = self.tags[i];
            if t.account_id == account_id && t.collection == collection && t.tag == tag {
                out.push(t.document_id);
            }
            proof {
                assert(self.tags@.take(i as int + 1) =~= self.tags@.take(i as int).push(t));
                lemma_tagged_ids_push(self.tags@.take(i as int), t, account_id, collection, tag);
            }
            i += 1;
            assert(out@ =~= tagged_ids_of(self.tags@.take(i as int), account_id, collection, tag));
        }
        assert(self.tags@.take(i as int) =~= self.tags@);
        out
    }

    /// Every change record, in storage order.
    pub fn changes(&self) -> (r: Vec<LogKey>)
        ensures
            r@ == self.change_log(),
    {
        let mut out: Vec<LogKey> = Vec::new();
        let mut i: usize = 0;
        while i < self.changes.len()
            invariant
                i <= self.changes@.len(),
                out@ == self.changes@.take(i as int),
            decreases self.changes@.len() - i,
        {
            out.push(self.changes[i]);
            i += 1;
            assert(out@ =~= self.changes@.take(i as int));
        }
        assert(self.changes@.take(i as int) =~= self.changes@);
        out
    }

    /// Reclaims the stale documents of `account_id` together with their
    /// index entries, and the account's change records before the boundary.
    pub fn purge_account(&mut self, account_id: u32, policy: &PurgePolicy)
        requires
            old(self).wf(),
        ensures
            final(self).wf(),
            (final(self).docs(), final(self).tag_entries(), final(self).change_log()) == purged(
                old(self).docs(),
                old(self).tag_entries(),
                old(self).change_log(),
                account_id,
                policy.expiring_tags@,
                policy.boundary,
            ),
    {
        let ghost docs0 = self.documents@;
        let ghost tags0 = self.tags@;
        let ghost changes0 = self.changes@;
        let ghost expiring = policy.expiring_tags@;
        let ghost kd = keeps_doc(tags0, account_id, expiring, policy.boundary);
        let ghost ke = keeps_entry(docs0, tags0, account_id, expiring, policy.boundary);
        let ghost kc = keeps_change(account_id, policy.boundary);

        let mut stale: Vec<bool> = Vec::new();
        let mut kept_docs: Vec<DocumentRecord> = Vec::new();
        let mut i: usize = 0;
        while i < self.documents.len()
            invariant
                i <= docs0.len(),
                expiring == policy.expiring_tags@,
                kd == keeps_doc(tags0, account_id, expiring, policy.boundary),
                self.documents@ == docs0,
                self.tags@ == tags0,
                stale@.len() == i,
                forall|k: int|
                    0 <= k < i ==> #[trigger] stale@[k] == is_stale(
                        tags0,
                        docs0[k],
                        account_id,
                        expiring,
                        policy.boundary,
                    ),
                kept_docs@ == docs0.take(i as int).filter(kd),
            decreases docs0.len() - i,
        {
            let d = self.documents[i];
            let ghost old_stale = stale@;
            let is_old = d.account_id == account_id && d.change_id < policy.boundary;
            let gone = is_old && find_expiring(&self.tags, d, &policy.expiring_tags);
            proof {
                lemma_filter_step(docs0, kd, i as int);
                assert(gone == is_stale(tags0, d, account_id, expiring, policy.boundary));
                assert(kd(d) == !gone);
            }
            stale.push(gone);
            if !gone {
                kept_docs.push(d);
            }
            proof {
                assert forall|k: int| 0 <= k < i + 1 implies #[trigger] stale@[k] == is_stale(
                    tags0,
                    docs0[k],
                    account_id,
                    expiring,
                    policy.boundary,
                ) by {
                    if k < i {
                        assert(stale@[k] == old_stale[k]);
                    }
                }
            }
            i += 1;
        }
        assert(docs0.take(docs0.len() as int) =~= docs0);

        let mut kept_tags: Vec<TagEntry> = Vec::new();
        let mut j: usize = 0;
        while j < self.tags.len()
            invariant
                j <= tags0.len(),
                ke == keeps_entry(docs0, tags0, account_id, expiring, policy.boundary),
                self.documents@ == docs0,
                self.tags@ == tags0,
                stale@.len() == docs0.len(),
                forall|k: int|
                    0 <= k < docs0.len() ==> #[trigger] stale@[k] == is_stale(
                        tags0,
                        docs0[k],
                        account_id,
                        expiring,
                        policy.boundary,
                    ),
                kept_tags@ == tags0.take(j as int).filter(ke),
            decreases tags0.len() - j,
        {
            let t = self.tags[j];
            let hit = references_stale(&self.documents, &stale, t);
            proof {
                lemma_filter_step(tags0, ke, j as int);
                if hit {
                    let m = choose|m: int| 0 <= m < docs0.len() && same_doc(t, #[trigger] docs0[m]) && stale@[m];
                    assert(is_stale(tags0, docs0[m], account_id, expiring, policy.boundary));
                } else {
                    assert forall|m: int| 0 <= m < docs0.len() && same_doc(t, #[trigger] docs0[m])
                        implies !is_stale(tags0, docs0[m], account_id, expiring, policy.boundary) by {
                        assert(!stale@[m]);
                    }
                }
                assert(hit == !ke(t));
            }
            if !hit {
                kept_tags.push(t);
            }
            j += 1;
        }
        assert(tags0.take(tags0.len() as int) =~= tags0);

        let mut kept_changes: Vec<LogKey> = Vec::new();
        let mut c: usize = 0;
        while c < self.changes.len()
            invariant
                c <= changes0.len(),
                kc == keeps_change(account_id, policy.boundary),
                self.changes@ == changes0,
                kept_changes@ == changes0.take(c as int).filter(kc),
            decreases changes0.len() - c,
        {
            let k = self.changes[c];
            proof {
                lemma_filter_step(changes0, kc, c as int);
                assert(kc(k) == !(k.account_id == account_id && k.change_id < policy.boundary));
            }
            if !(k.account_id == account_id && k.change_id < policy.boundary) {
                kept_changes.push(k);
            }
            c += 1;
        }
        assert(changes0.take(changes0.len() as int) =~= changes0);

        self.documents = kept_docs;
        self.tags = kept_tags;
        self.changes = kept_changes;
        proof {
            lemma_purge_keeps_index_consistent(
                docs0,
                tags0,
                changes0,
                account_id,
                expiring,
                policy.boundary,
            );
        }
    }
}

/// Some document marked in `stale` is the one the entry refers to.
fn references_stale(docs: &Vec<DocumentRecord>, stale: &Vec<bool>, t: TagEntry) -> (r: bool)
    requires
        stale@.len() == docs@.len(),
    ensures
        r == exists|m: int| 0 <= m < docs@.len() && same_doc(t, #[trigger] docs@[m]) && stale@[m],
{
    let mut m: usize = 0;
    while m < docs.len()
        invariant
            m <= docs@.len(),
            stale@.len() == docs@.len(),
            forall|q: int| 0 <= q < m ==> !(same_doc(t, #[trigger] docs@[q]) && stale@[q]),
        decreases docs@.len() - m,
    {
        let d = docs[m];
        if stale[m] && t.account_id == d.account_id && t.collection == d.collection
            && t.document_id == d.document_id {
            assert(same_doc(t, docs@[m as int]) && stale@[m as int]);
            return true;
        }
        m += 1;
    }
    false
}

/// `v` holds `x`.
fn contains_u32(v: &Vec<u32>, x: u32) -> (r: bool)
    ensures
        r == v@.contains(x),
{
    let mut i: usize = 0;
    while i < v.len()
        invariant
            i <= v@.len(),
            forall|k: int| 0 <= k < i ==> v@[k] != x,
        decreases v@.len() - i,
    {
        if v[i] == x {
            assert(v@[i as int] == x);
            return true;
        }
        i += 1;
    }
    false
}

/// The document carries one of `expiring` in the index `tags`.
fn find_expiring(tags: &Vec<TagEntry>, d: DocumentRecord, expiring: &Vec<u32>) -> (r: bool)
    ensures
        r == carries_expiring(tags@, d, expiring@),
{
    let mut j: usize = 0;
    while j < tags.len()
        invariant
            j <= tags@.len(),
            forall|k: int|
                0 <= k < j ==> !(same_doc(#[trigger] tags@[k], d) && expiring@.contains(
                    tags@[k].tag,
                )),
        decreases tags@.len() - j,
    {
        let t = tags[j];
        if t.account_id == d.account_id && t.collection == d.collection && t.document_id
            == d.document_id && contains_u32(expiring, t.tag) {
            assert(same_doc(tags@[j as int], d));
            return true;
        }
        j += 1;
    }
    false
}

} // verus!
