use tikv_store::log_key::LogKey;
use tikv_store::purge::{MailStore, PurgePolicy};

const EMAIL: u8 = 1;
const INBOX_ID: u32 = 0;
const TRASH_ID: u32 = 1;
const JUNK_ID: u32 = 2;
const ACCOUNT: u32 = 7;

fn changes_of(store: &MailStore, account_id: u32) -> Vec<(u64, u8)> {
    store
        .changes()
        .iter()
        .filter(|k| k.account_id == account_id)
        .map(|k| {
            let key = LogKey::deserialize(&k.serialize()).unwrap();
            (key.change_id, key.collection)
        })
        .collect()
}

fn policy(boundary: u64) -> PurgePolicy {
    PurgePolicy {
        expiring_tags: vec![TRASH_ID, JUNK_ID],
        boundary,
    }
}

fn two_passes() -> (MailStore, Vec<(u64, u8)>, u64) {
    let mut store = MailStore::new();
    let mut change_id = 0u64;
    let mut document_id = 0u32;
    let mut first_pass = Vec::new();
    for pass in 1..=2 {
        for folder in [INBOX_ID, TRASH_ID, JUNK_ID] {
            change_id += 1;
            store.insert_document(ACCOUNT, EMAIL, document_id, &vec![folder], change_id);
            document_id += 1;
        }
        if pass == 1 {
            first_pass = changes_of(&store, ACCOUNT);
        }
    }
    (store, first_pass, 4)
}

fn snapshot(store: &MailStore) -> (usize, [usize; 3], Vec<(u64, u8)>) {
    (
        store.get_document_ids(ACCOUNT, EMAIL).len(),
        [
            store.get_tag(ACCOUNT, EMAIL, INBOX_ID).len(),
            store.get_tag(ACCOUNT, EMAIL, TRASH_ID).len(),
            store.get_tag(ACCOUNT, EMAIL, JUNK_ID).len(),
        ],
        changes_of(store, ACCOUNT),
    )
}

#[test]
fn purge_removes_old_trash_and_junk_and_old_changes() {
    let (mut store, first_pass, boundary) = two_passes();
    assert_eq!(store.get_document_ids(ACCOUNT, EMAIL).len(), 6);
    assert_eq!(snapshot(&store).1, [2, 2, 2]);
    assert_eq!(first_pass.len(), 3);

    store.purge_account(ACCOUNT, &policy(boundary));

    assert_eq!(store.get_document_ids(ACCOUNT, EMAIL).len(), 4);
    assert_eq!(store.get_document_ids(ACCOUNT, EMAIL), vec![0, 3, 4, 5]);
    assert_eq!(store.get_tag(ACCOUNT, EMAIL, INBOX_ID).len(), 2);
    assert_eq!(store.get_tag(ACCOUNT, EMAIL, TRASH_ID), vec![4]);
    assert_eq!(store.get_tag(ACCOUNT, EMAIL, JUNK_ID), vec![5]);

    let new_changes = changes_of(&store, ACCOUNT);
    assert!(!new_changes.is_empty());
    for change in &first_pass {
        assert!(!new_changes.contains(change), "Change {change:?} was not purged");
    }
    assert_eq!(new_changes, vec![(4, EMAIL), (5, EMAIL), (6, EMAIL)]);
}

#[test]
fn second_purge_changes_nothing() {
    let (mut store, _, boundary) = two_passes();
    store.purge_account(ACCOUNT, &policy(boundary));
    let once = snapshot(&store);
    store.purge_account(ACCOUNT, &policy(boundary));
    assert_eq!(snapshot(&store), once);
    assert_eq!(once.0, 4);
    assert_eq!(once.1, [2, 1, 1]);
}

#[test]
fn purge_leaves_other_accounts_alone() {
    let mut store = MailStore::new();
    store.insert_document(1, EMAIL, 0, &vec![TRASH_ID], 1);
    store.insert_document(2, EMAIL, 0, &vec![TRASH_ID], 1);
    store.purge_account(1, &policy(10));
    assert!(store.get_document_ids(1, EMAIL).is_empty());
    assert!(store.get_tag(1, EMAIL, TRASH_ID).is_empty());
    assert_eq!(store.get_document_ids(2, EMAIL), vec![0]);
    assert_eq!(store.get_tag(2, EMAIL, TRASH_ID), vec![0]);
    assert_eq!(
        store.changes(),
        vec![LogKey {
            account_id: 2,
            collection: EMAIL,
            change_id: 1
        }]
    );
}

#[test]
fn document_with_several_tags_loses_every_entry() {
    let mut store = MailStore::new();
    store.insert_document(3, EMAIL, 9, &vec![INBOX_ID, JUNK_ID], 2);
    store.insert_document(3, EMAIL, 10, &vec![INBOX_ID], 2);
    assert_eq!(store.get_tag(3, EMAIL, INBOX_ID), vec![9, 10]);
    store.purge_account(3, &policy(3));
    assert_eq!(store.get_document_ids(3, EMAIL), vec![10]);
    assert_eq!(store.get_tag(3, EMAIL, INBOX_ID), vec![10]);
    assert!(store.get_tag(3, EMAIL, JUNK_ID).is_empty());
}

#[test]
fn recent_trash_is_kept() {
    let mut store = MailStore::new();
    store.insert_document(4, EMAIL, 1, &vec![TRASH_ID], 5);
    store.purge_account(4, &policy(5));
    assert_eq!(store.get_document_ids(4, EMAIL), vec![1]);
    assert_eq!(store.changes().len(), 1);
}
