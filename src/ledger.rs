use vstd::prelude::*;
use crate::identity::Identity;

verus! {

/// Longest content identifier, in bytes.
pub const MAX_CID_LEN: usize = 64;

/// Longest title, in bytes.
pub const MAX_TITLE_LEN: usize = 64;

/// Largest wrapped content key, in bytes.
pub const MAX_ENC_KEY_LEN: usize = 512;

/// Most access entries a record may hold.
pub const MAX_RECIPIENTS: usize = 10;

/// Why an operation was rejected. A rejected operation changes nothing.
#[derive(Clone, Copy, Debug, PartialEq, Eq, Structural)]
pub enum ErrorCode {
    RecipientsKeysMismatch,
    TooManyRecipients,
    CidTooLong,
    TitleTooLong,
    EncryptedKeyTooLarge,
    Unauthorized,
    RecipientNotFound,
    AlreadyInitialized,
}

impl ErrorCode {
    /// The human-readable text of each error.
    pub open spec fn text(self) -> Seq<char> {
        match self {
            ErrorCode::RecipientsKeysMismatch => "Recipients and encrypted keys arrays length mismatch"@,
            ErrorCode::TooManyRecipients => "Too many recipients"@,
            ErrorCode::CidTooLong => "CID too long"@,
            ErrorCode::TitleTooLong => "Title too long"@,
            ErrorCode::EncryptedKeyTooLarge => "Encrypted symmetric key too large"@,
            ErrorCode::Unauthorized => "Unauthorized"@,
            ErrorCode::RecipientNotFound => "Recipient not found"@,
            ErrorCode::AlreadyInitialized => "Configuration already initialized"@,
        }
    }

    pub fn message(&self) -> (r: String)
        ensures
            r@ == self.text(),
    {
        let s: &str = match self {
            ErrorCode::RecipientsKeysMismatch => "Recipients and encrypted keys arrays length mismatch",
            ErrorCode::TooManyRecipients => "Too many recipients",
            ErrorCode::CidTooLong => "CID too long",
            ErrorCode::TitleTooLong => "Title too long",
            ErrorCode::EncryptedKeyTooLarge => "Encrypted symmetric key too large",
            ErrorCode::Unauthorized => "Unauthorized",
            ErrorCode::RecipientNotFound => "Recipient not found",
            ErrorCode::AlreadyInitialized => "Configuration already initialized",
        };
        s.to_owned()
    }
}

/// The admin configuration, created once.
#[derive(Clone, Copy, Debug)]
pub struct Config {
    pub admin: Identity,
    pub bump: u8,
}

/// One recipient's grant: a content key wrapped for that recipient, and
/// whether the grant has been withdrawn.
#[derive(Clone, Debug)]
pub struct AccessEntry {
    pub recipient: Identity,
    pub encrypted_key: Vec<u8>,
    pub revoked: bool,
}

pub struct AccessEntryView {
    pub recipient: Seq<u8>,
    pub encrypted_key: Seq<u8>,
    pub revoked: bool,
}

impl View for AccessEntry {
    type V = AccessEntryView;

    open spec fn view(&self) -> AccessEntryView {
        AccessEntryView {
            recipient: self.recipient@,
            encrypted_key: self.encrypted_key@,
            revoked: self.revoked,
        }
    }
}

/// A stored document reference, with its owner and its access entries in
/// the order they were added.
#[derive(Clone, Debug)]
pub struct Record {
    pub owner: Identity,
    pub cid: String,
    pub title: String,
    pub created_at: i64,
    pub access_entries: Vec<AccessEntry>,
}

pub struct RecordView {
    pub owner: Seq<u8>,
    pub cid: Seq<char>,
    pub title: Seq<char>,
    pub created_at: i64,
    pub access_entries: Seq<AccessEntryView>,
}

impl View for Record {
    type V = RecordView;

    open spec fn view(&self) -> RecordView {
        RecordView {
            owner: self.owner@,
            cid: self.cid@,
            title: self.title@,
            created_at: self.created_at,
            access_entries: self.access_entries@.map_values(|e: AccessEntry| e@),
        }
    }
}

/// Length in bytes of a string's UTF-8 encoding.
pub open spec fn byte_len(s: Seq<char>) -> nat {
    vstd::utf8::encode_utf8(s).len()
}

impl RecordView {
    /// The bounds every stored record keeps.
    pub open spec fn wf(self) -> bool {
        &&& byte_len(self.cid) <= MAX_CID_LEN
        &&& byte_len(self.title) <= MAX_TITLE_LEN
        &&& self.access_entries.len() <= MAX_RECIPIENTS
        &&& forall|i: int|
            0 <= i < self.access_entries.len() ==> self.access_entries[i].encrypted_key.len()
                <= MAX_ENC_KEY_LEN
    }

    /// The same record with other access entries.
    pub open spec fn with_entries(self, entries: Seq<AccessEntryView>) -> RecordView {
        RecordView { access_entries: entries, ..self }
    }
}

impl Record {
    pub open spec fn wf(&self) -> bool {
        self@.wf()
    }
}

/// Index of the first entry for `r`, or -1 where there is none.
pub open spec fn first_match(entries: Seq<AccessEntryView>, r: Seq<u8>) -> int
    decreases entries.len(),
{
    if entries.len() == 0 {
        -1
    } else {
        let k = first_match(entries.drop_last(), r);
        if k >= 0 {
            k
        } else if entries.last().recipient == r {
            entries.len() - 1
        } else {
            -1
        }
    }
}

/// Whether some entry is for `r`.
pub open spec fn has_recipient(entries: Seq<AccessEntryView>, r: Seq<u8>) -> bool {
    exists|i: int| 0 <= i < entries.len() && entries[i].recipient == r
}

/// A fresh, unrevoked entry.
pub open spec fn active_entry(r: Seq<u8>, key: Seq<u8>) -> AccessEntryView {
    AccessEntryView { recipient: r, encrypted_key: key, revoked: false }
}

/// What creating a record yields: the first rule the input breaks, or the
/// record with one active entry per (recipient, key) pair, in input order.
pub open spec fn create_outcome(
    owner: Seq<u8>,
    created_at: i64,
    cid: Seq<char>,
    title: Seq<char>,
    recipients: Seq<Seq<u8>>,
    keys: Seq<Seq<u8>>,
) -> Result<RecordView, ErrorCode> {
    if recipients.len() != keys.len() {
        Err(ErrorCode::RecipientsKeysMismatch)
    } else if byte_len(cid) > MAX_CID_LEN {
        Err(ErrorCode::CidTooLong)
    } else if byte_len(title) > MAX_TITLE_LEN {
        Err(ErrorCode::TitleTooLong)
    } else if recipients.len() > MAX_RECIPIENTS {
        Err(ErrorCode::TooManyRecipients)
    } else if exists|i: int| 0 <= i < keys.len() && keys[i].len() > MAX_ENC_KEY_LEN {
        Err(ErrorCode::EncryptedKeyTooLarge)
    } else {
        Ok(
            RecordView {
                owner,
                cid,
                title,
                created_at,
                access_entries: Seq::new(
                    recipients.len(),
                    |i: int| active_entry(recipients[i], keys[i]),
                ),
            },
        )
    }
}

/// What granting yields: the first rule broken, or the entries with the
/// first entry for `recipient` given the new key and un-revoked, or the new
/// entry appended where there was none.
pub open spec fn grant_outcome(
    rec: RecordView,
    caller: Seq<u8>,
    recipient: Seq<u8>,
    key: Seq<u8>,
) -> Result<Seq<AccessEntryView>, ErrorCode> {
    let k = first_match(rec.access_entries, recipient);
    if caller != rec.owner {
        Err(ErrorCode::Unauthorized)
    } else if key.len() > MAX_ENC_KEY_LEN {
        Err(ErrorCode::EncryptedKeyTooLarge)
    } else if k >= 0 {
        Ok(rec.access_entries.update(k, active_entry(recipient, key)))
    } else if rec.access_entries.len() >= MAX_RECIPIENTS {
        Err(ErrorCode::TooManyRecipients)
    } else {
        Ok(rec.access_entries.push(active_entry(recipient, key)))
    }
}

/// What revoking yields: the first rule broken, or the entries with the
/// first entry for `recipient` marked revoked, key kept.
pub open spec fn revoke_outcome(rec: RecordView, caller: Seq<u8>, recipient: Seq<u8>) -> Result<
    Seq<AccessEntryView>,
    ErrorCode,
> {
    let k = first_match(rec.access_entries, recipient);
    if caller != rec.owner {
        Err(ErrorCode::Unauthorized)
    } else if k < 0 {
        Err(ErrorCode::RecipientNotFound)
    } else {
        Ok(
            rec.access_entries.update(
                k,
                AccessEntryView { revoked: true, ..rec.access_entries[k] },
            ),
        )
    }
}

/// Where `first_match` points, and when it finds nothing.
pub proof fn lemma_first_match(entries: Seq<AccessEntryView>, r: Seq<u8>)
    ensures
        -1 <= first_match(entries, r) < entries.len(),
        first_match(entries, r) >= 0 ==> entries[first_match(entries, r)].recipient == r,
        first_match(entries, r) >= 0 ==> forall|j: int|
            0 <= j < first_match(entries, r) ==> entries[j].recipient != r,
        first_match(entries, r) < 0 <==> !has_recipient(entries, r),
    decreases entries.len(),
{
    if entries.len() > 0 {
        let init = entries.drop_last();
        lemma_first_match(init, r);
        if first_match(init, r) < 0 && entries.last().recipient != r {
            assert forall|i: int| 0 <= i < entries.len() implies entries[i].recipient != r by {
                if i < entries.len() - 1 {
                    assert(entries[i] == init[i]);
                }
            }
        }
        if first_match(init, r) >= 0 {
            assert(entries[first_match(init, r)] == init[first_match(init, r)]);
            assert forall|j: int| 0 <= j < first_match(entries, r) implies entries[j].recipient != r by {
                assert(entries[j] == init[j]);
            }
        } else {
            assert forall|j: int| 0 <= j < entries.len() - 1 implies entries[j].recipient != r by {
                assert(entries[j] == init[j]);
            }
        }
    }
}

/// Finds the first entry for `recipient`.
fn find_entry(entries: &Vec<AccessEntry>, recipient: &Identity) -> (r: Option<usize>)
    ensures
        match r {
            Some(i) => i < entries@.len() && i as int == first_match(entries@.map_values(|e: AccessEntry| e@), recipient@),
            None => first_match(entries@.map_values(|e: AccessEntry| e@), recipient@) == -1,
        },
{
    let ghost views = entries@.map_values(|e: AccessEntry| e@);
    let mut i: usize = 0;
    while i < entries.len()
        invariant
            0 <= i <= entries.len(),
            views == entries@.map_values(|e: AccessEntry| e@),
            first_match(views.take(i as int), recipient@) == -1,
        decreases entries.len() - i,
    {
        proof {
            assert(views.take(i as int + 1).drop_last() =~= views.take(i as int));
        }
        if entries[i].recipient.same_as(recipient) {
            proof {
                assert(views.take(i as int + 1).last() == views[i as int]);
                lemma_first_match(views, recipient@);
                lemma_first_match(views.take(i as int), recipient@);
                lemma_prefix_first_match(views, recipient@, i as int + 1);
            }
            return Some(i);
        }
        i = i + 1;
    }
    proof {
        assert(views.take(i as int) =~= views);
    }
    None
}

/// A match found in a prefix is the first match of the whole sequence.
proof fn lemma_prefix_first_match(entries: Seq<AccessEntryView>, r: Seq<u8>, n: int)
    requires
        0 <= n <= entries.len(),
        first_match(entries.take(n), r) >= 0,
    ensures
        first_match(entries, r) == first_match(entries.take(n), r),
    decreases entries.len() - n,
{
    if n < entries.len() {
        assert(entries.take(n + 1).drop_last() =~= entries.take(n));
        lemma_prefix_first_match(entries, r, n + 1);
    } else {
        assert(entries.take(n) =~= entries);
    }
}

/// The accounts an admin initialization acts on: the configuration slot,
/// the signing admin, and the addressing tag the storage layer derived.
pub struct Initialize {
    pub config: Option<Config>,
    pub admin: Identity,
    pub bump: u8,
}

/// Creates the admin configuration with the signer as admin; refuses a
/// second initialization.
pub fn initialize(ctx: &mut Initialize) -> (r: Result<(), ErrorCode>)
    ensures
        final(ctx).admin == old(ctx).admin,
        final(ctx).bump == old(ctx).bump,
        old(ctx).config is Some ==> r == Err::<(), ErrorCode>(ErrorCode::AlreadyInitialized)
            && final(ctx).config == old(ctx).config,
        old(ctx).config is None ==> r is Ok && final(ctx).config == Some(
            Config { admin: old(ctx).admin, bump: old(ctx).bump },
        ),
{
    if ctx.config.is_some() {
        return Err(ErrorCode::AlreadyInitialized);
    }
    ctx.config = Some(Config { admin: ctx.admin, bump: ctx.bump });
    Ok(())
}

/// The context of a record creation: the signing owner and the time the
/// environment's clock gave.
pub struct CreateRecord {
    pub owner: Identity,
    pub now: i64,
}

/// Whether every key is within the size bound.
fn keys_within_bound(keys: &Vec<Vec<u8>>) -> (r: bool)
    ensures
        r == forall|i: int| 0 <= i < keys@.len() ==> keys@[i]@.len() <= MAX_ENC_KEY_LEN,
{
    let mut i: usize = 0;
    while i < keys.len()
        invariant
            0 <= i <= keys@.len(),
            forall|j: int| 0 <= j < i ==> keys@[j]@.len() <= MAX_ENC_KEY_LEN,
        decreases keys@.len() - i,
    {
        if keys[i].len() > MAX_ENC_KEY_LEN {
            return false;
        }
        i = i + 1;
    }
    true
}

/// Creates a record owned by the signer, with one active entry per
/// (recipient, key) pair in input order. All input is checked before any
/// entry is built; duplicate recipients are kept as given.
pub fn create_record(
    ctx: &CreateRecord,
    cid: String,
    title: String,
    recipients: Vec<Identity>,
    encrypted_keys: Vec<Vec<u8>>,
) -> (r: Result<Record, ErrorCode>)
    ensures
        ({
            let outcome = create_outcome(
                ctx.owner@,
                ctx.now,
                cid@,
                title@,
                recipients@.map_values(|x: Identity| x@),
                encrypted_keys@.map_values(|k: Vec<u8>| k@),
            );
            match r {
                Ok(rec) => outcome == Ok::<RecordView, ErrorCode>(rec@),
                Err(e) => outcome == Err::<RecordView, ErrorCode>(e),
            }
        }),
{
    let ghost rs = recipients@.map_values(|x: Identity| x@);
    let ghost ks = encrypted_keys@.map_values(|k: Vec<u8>| k@);
    if recipients.len() != encrypted_keys.len() {
        return Err(ErrorCode::RecipientsKeysMismatch);
    }
    let cid_len = cid.as_str().as_bytes().len();
    if cid_len > MAX_CID_LEN {
        return Err(ErrorCode::CidTooLong);
    }
    let title_len = title.as_str().as_bytes().len();
    if title_len > MAX_TITLE_LEN {
        return Err(ErrorCode::TitleTooLong);
    }
    if recipients.len() > MAX_RECIPIENTS {
        return Err(ErrorCode::TooManyRecipients);
    }
    if !keys_within_bound(&encrypted_keys) {
        proof {
            let i = choose|i: int| 0 <= i < encrypted_keys@.len() && encrypted_keys@[i]@.len() > MAX_ENC_KEY_LEN;
            assert(ks[i] == encrypted_keys@[i]@);
        }
        return Err(ErrorCode::EncryptedKeyTooLarge);
    }
    proof {
        assert forall|i: int| 0 <= i < ks.len() implies !(ks[i].len() > MAX_ENC_KEY_LEN) by {
            assert(ks[i] == encrypted_keys@[i]@);
        }
    }
    let mut entries: Vec<AccessEntry> = Vec::with_capacity(recipients.len());
    let mut i: usize = 0;
    while i < recipients.len()
        invariant
            0 <= i <= recipients@.len(),
            recipients@.len() == encrypted_keys@.len(),
            rs == recipients@.map_values(|x: Identity| x@),
            ks == encrypted_keys@.map_values(|k: Vec<u8>| k@),
            entries@.len() == i,
            forall|j: int|
                0 <= j < i ==> (#[trigger] entries@[j])@ == active_entry(rs[j], ks[j]),
        decreases recipients@.len() - i,
    {
        let key = encrypted_keys[i].clone();
        assert(key@ =~= encrypted_keys@[i as int]@);
        entries.push(AccessEntry { recipient: recipients[i], encrypted_key: key, revoked: false });
        i = i + 1;
    }
    let record = Record {
        owner: ctx.owner,
        cid,
        title,
        created_at: ctx.now,
        access_entries: entries,
    };
    proof {
        assert(record@.access_entries =~= Seq::new(
            rs.len(),
            |j: int| active_entry(rs[j], ks[j]),
        ));
    }
    Ok(record)
}

/// The context of a grant or a revocation: the record and the signer.
pub struct GrantAccess {
    pub record: Record,
    pub owner: Identity,
}

/// Gives `recipient` access with `encrypted_key`: the first entry for that
/// recipient gets the new key and is un-revoked; where there is none, a new
/// active entry is appended, within the recipient bound. Only the record's
/// owner may grant.
pub fn grant_access(ctx: &mut GrantAccess, recipient: Identity, encrypted_key: Vec<u8>) -> (r:
    Result<(), ErrorCode>)
    ensures
        final(ctx).owner == old(ctx).owner,
        match grant_outcome(old(ctx).record@, old(ctx).owner@, recipient@, encrypted_key@) {
            Ok(es) => r is Ok && final(ctx).record@ == old(ctx).record@.with_entries(es),
            Err(e) => r == Err::<(), ErrorCode>(e) && final(ctx).record@ == old(ctx).record@,
        },
{
    let ghost before = ctx.record@;
    if !ctx.owner.same_as(&ctx.record.owner) {
        return Err(ErrorCode::Unauthorized);
    }
    if encrypted_key.len() > MAX_ENC_KEY_LEN {
        return Err(ErrorCode::EncryptedKeyTooLarge);
    }
    let entry = AccessEntry { recipient, encrypted_key, revoked: false };
    match find_entry(&ctx.record.access_entries, &recipient) {
        Some(k) => {
            ctx.record.access_entries[k] = entry;
            proof {
                assert(ctx.record@.access_entries =~= before.access_entries.update(
                    k as int,
                    entry@,
                ));
            }
        },
        None => {
            if ctx.record.access_entries.len() >= MAX_RECIPIENTS {
                return Err(ErrorCode::TooManyRecipients);
            }
            ctx.record.access_entries.push(entry);
            proof {
                assert(ctx.record@.access_entries =~= before.access_entries.push(entry@));
            }
        },
    }
    Ok(())
}

/// The context of a revocation: the record and the signer.
pub struct RevokeAccess {
    pub record: Record,
    pub owner: Identity,
}

/// Marks the first entry for `recipient` revoked, keeping its key. Only the
/// record's owner may revoke; revoking twice is allowed.
pub fn revoke_access(ctx: &mut RevokeAccess, recipient: Identity) -> (r: Result<(), ErrorCode>)
    ensures
        final(ctx).owner == old(ctx).owner,
        match revoke_outcome(old(ctx).record@, old(ctx).owner@, recipient@) {
            Ok(es) => r is Ok && final(ctx).record@ == old(ctx).record@.with_entries(es),
            Err(e) => r == Err::<(), ErrorCode>(e) && final(ctx).record@ == old(ctx).record@,
        },
{
    let ghost before = ctx.record@;
    if !ctx.owner.same_as(&ctx.record.owner) {
        return Err(ErrorCode::Unauthorized);
    }
    match find_entry(&ctx.record.access_entries, &recipient) {
        Some(k) => {
            ctx.record.access_entries[k].revoked = true;
            proof {
                assert(ctx.record@.access_entries =~= before.access_entries.update(
                    k as int,
                    AccessEntryView { revoked: true, ..before.access_entries[k as int] },
                ));
            }
            Ok(())
        },
        None => Err(ErrorCode::RecipientNotFound),
    }
}

} // verus!
