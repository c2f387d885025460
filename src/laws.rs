use vstd::prelude::*;
use crate::ledger::{
    AccessEntryView, ErrorCode, MAX_CID_LEN, MAX_ENC_KEY_LEN, MAX_RECIPIENTS, MAX_TITLE_LEN,
    RecordView, byte_len, create_outcome, first_match, grant_outcome, has_recipient,
    lemma_first_match, revoke_outcome,
};

verus! {

/// Valid input creates a well-formed record with exactly one unrevoked
/// entry per (recipient, key) pair, in the order supplied.
pub proof fn law_create_keeps_pairs(
    owner: Seq<u8>,
    created_at: i64,
    cid: Seq<char>,
    title: Seq<char>,
    recipients: Seq<Seq<u8>>,
    keys: Seq<Seq<u8>>,
)
    requires
        recipients.len() == keys.len(),
        recipients.len() <= MAX_RECIPIENTS,
        byte_len(cid) <= MAX_CID_LEN,
        byte_len(title) <= MAX_TITLE_LEN,
        forall|i: int| 0 <= i < keys.len() ==> keys[i].len() <= MAX_ENC_KEY_LEN,
    ensures
        create_outcome(owner, created_at, cid, title, recipients, keys) is Ok,
        ({
            let rec = create_outcome(owner, created_at, cid, title, recipients, keys)->Ok_0;
            &&& rec.wf()
            &&& rec.owner == owner
            &&& rec.access_entries.len() == recipients.len()
            &&& forall|i: int|
                0 <= i < recipients.len() ==> {
                    &&& (#[trigger] rec.access_entries[i]).recipient == recipients[i]
                    &&& rec.access_entries[i].encrypted_key == keys[i]
                    &&& !rec.access_entries[i].revoked
                }
        }),
{
}

/// Recipient and key lists of different lengths are rejected first.
pub proof fn law_create_rejects_mismatch(
    owner: Seq<u8>,
    created_at: i64,
    cid: Seq<char>,
    title: Seq<char>,
    recipients: Seq<Seq<u8>>,
    keys: Seq<Seq<u8>>,
)
    requires
        recipients.len() != keys.len(),
    ensures
        create_outcome(owner, created_at, cid, title, recipients, keys) == Err::<
            RecordView,
            ErrorCode,
        >(ErrorCode::RecipientsKeysMismatch),
{
}

/// Each size bound, once the checks before it pass, rejects the record
/// with its own error: cid, then title, then recipient count, then key size.
pub proof fn law_create_rejects_oversize(
    owner: Seq<u8>,
    created_at: i64,
    cid: Seq<char>,
    title: Seq<char>,
    recipients: Seq<Seq<u8>>,
    keys: Seq<Seq<u8>>,
)
    requires
        recipients.len() == keys.len(),
    ensures
        byte_len(cid) > MAX_CID_LEN ==> create_outcome(
            owner,
            created_at,
            cid,
            title,
            recipients,
            keys,
        ) == Err::<RecordView, ErrorCode>(ErrorCode::CidTooLong),
        byte_len(cid) <= MAX_CID_LEN && byte_len(title) > MAX_TITLE_LEN ==> create_outcome(
            owner,
            created_at,
            cid,
            title,
            recipients,
            keys,
        ) == Err::<RecordView, ErrorCode>(ErrorCode::TitleTooLong),
        byte_len(cid) <= MAX_CID_LEN && byte_len(title) <= MAX_TITLE_LEN && recipients.len()
            > MAX_RECIPIENTS ==> create_outcome(owner, created_at, cid, title, recipients, keys)
            == Err::<RecordView, ErrorCode>(ErrorCode::TooManyRecipients),
        forall|i: int|
            byte_len(cid) <= MAX_CID_LEN && byte_len(title) <= MAX_TITLE_LEN && recipients.len()
                <= MAX_RECIPIENTS && 0 <= i < keys.len() && (#[trigger] keys[i]).len()
                > MAX_ENC_KEY_LEN ==> create_outcome(
                owner,
                created_at,
                cid,
                title,
                recipients,
                keys,
            ) == Err::<RecordView, ErrorCode>(ErrorCode::EncryptedKeyTooLarge),
{
}

/// Only the owner may grant; anyone else is refused.
pub proof fn law_grant_needs_owner(
    rec: RecordView,
    caller: Seq<u8>,
    recipient: Seq<u8>,
    key: Seq<u8>,
)
    requires
        caller != rec.owner,
    ensures
        grant_outcome(rec, caller, recipient, key) == Err::<Seq<AccessEntryView>, ErrorCode>(
            ErrorCode::Unauthorized,
        ),
{
}

/// Granting to a recipient already present, revoked or not, un-revokes the
/// entry and replaces its key without changing the number of entries; this
/// holds at the recipient bound too.
pub proof fn law_grant_existing_updates(
    rec: RecordView,
    recipient: Seq<u8>,
    key: Seq<u8>,
)
    requires
        has_recipient(rec.access_entries, recipient),
        key.len() <= MAX_ENC_KEY_LEN,
    ensures
        grant_outcome(rec, rec.owner, recipient, key) is Ok,
        ({
            let es = grant_outcome(rec, rec.owner, recipient, key)->Ok_0;
            let k = first_match(rec.access_entries, recipient);
            &&& 0 <= k < rec.access_entries.len()
            &&& es.len() == rec.access_entries.len()
            &&& es[k].recipient == recipient
            &&& es[k].encrypted_key == key
            &&& !es[k].revoked
            &&& forall|j: int| 0 <= j < es.len() && j != k ==> es[j] == rec.access_entries[j]
        }),
{
    lemma_first_match(rec.access_entries, recipient);
}

/// A new recipient is refused once the record holds the most entries it
/// may; below the bound it is appended as an active entry.
pub proof fn law_grant_new_recipient(
    rec: RecordView,
    recipient: Seq<u8>,
    key: Seq<u8>,
)
    requires
        !has_recipient(rec.access_entries, recipient),
        key.len() <= MAX_ENC_KEY_LEN,
    ensures
        rec.access_entries.len() >= MAX_RECIPIENTS ==> grant_outcome(
            rec,
            rec.owner,
            recipient,
            key,
        ) == Err::<Seq<AccessEntryView>, ErrorCode>(ErrorCode::TooManyRecipients),
        rec.access_entries.len() < MAX_RECIPIENTS ==> grant_outcome(
            rec,
            rec.owner,
            recipient,
            key,
        ) == Ok::<Seq<AccessEntryView>, ErrorCode>(
            rec.access_entries.push(
                AccessEntryView { recipient, encrypted_key: key, revoked: false },
            ),
        ),
{
    lemma_first_match(rec.access_entries, recipient);
}

/// A successful grant keeps a well-formed record well-formed.
pub proof fn law_grant_keeps_bounds(
    rec: RecordView,
    caller: Seq<u8>,
    recipient: Seq<u8>,
    key: Seq<u8>,
)
    requires
        rec.wf(),
        grant_outcome(rec, caller, recipient, key) is Ok,
    ensures
        rec.with_entries(grant_outcome(rec, caller, recipient, key)->Ok_0).wf(),
{
    lemma_first_match(rec.access_entries, recipient);
}

/// Revoking a recipient with no entry is refused.
pub proof fn law_revoke_absent(rec: RecordView, recipient: Seq<u8>)
    requires
        !has_recipient(rec.access_entries, recipient),
    ensures
        revoke_outcome(rec, rec.owner, recipient) == Err::<Seq<AccessEntryView>, ErrorCode>(
            ErrorCode::RecipientNotFound,
        ),
{
    lemma_first_match(rec.access_entries, recipient);
}

/// Revoking a present recipient flags its first entry and keeps everything
/// else; revoking again succeeds and leaves the same entries.
pub proof fn law_revoke_twice(rec: RecordView, recipient: Seq<u8>)
    requires
        has_recipient(rec.access_entries, recipient),
    ensures
        revoke_outcome(rec, rec.owner, recipient) is Ok,
        ({
            let es = revoke_outcome(rec, rec.owner, recipient)->Ok_0;
            let k = first_match(rec.access_entries, recipient);
            &&& 0 <= k < rec.access_entries.len()
            &&& es.len() == rec.access_entries.len()
            &&& es[k].revoked
            &&& es[k].recipient == recipient
            &&& es[k].encrypted_key == rec.access_entries[k].encrypted_key
            &&& forall|j: int| 0 <= j < es.len() && j != k ==> es[j] == rec.access_entries[j]
            &&& revoke_outcome(rec.with_entries(es), rec.owner, recipient) == Ok::<
                Seq<AccessEntryView>,
                ErrorCode,
            >(es)
        }),
{
    let es = revoke_outcome(rec, rec.owner, recipient)->Ok_0;
    let k = first_match(rec.access_entries, recipient);
    lemma_first_match(rec.access_entries, recipient);
    lemma_first_match(es, recipient);
    assert forall|j: int| 0 <= j < k implies es[j].recipient != recipient by {}
    lemma_first_is_unique(es, recipient, k);
    assert(es.update(k, AccessEntryView { revoked: true, ..es[k] }) =~= es);
}

/// An index holding `r` with no earlier `r` is the first match.
proof fn lemma_first_is_unique(entries: Seq<AccessEntryView>, r: Seq<u8>, k: int)
    requires
        0 <= k < entries.len(),
        entries[k].recipient == r,
        forall|j: int| 0 <= j < k ==> entries[j].recipient != r,
    ensures
        first_match(entries, r) == k,
{
    lemma_first_match(entries, r);
}

/// A successful revocation keeps a well-formed record well-formed.
pub proof fn law_revoke_keeps_bounds(rec: RecordView, caller: Seq<u8>, recipient: Seq<u8>)
    requires
        rec.wf(),
        revoke_outcome(rec, caller, recipient) is Ok,
    ensures
        rec.with_entries(revoke_outcome(rec, caller, recipient)->Ok_0).wf(),
{
    lemma_first_match(rec.access_entries, recipient);
}

} // verus!
