use health_ledger::{
    create_record, grant_access, initialize, revoke_access, AccessEntry, Config, CreateRecord,
    ErrorCode, GrantAccess, Identity, Initialize, Record, RevokeAccess,
};

fn id(n: u8) -> Identity {
    Identity::new([n; 32])
}

fn key(fill: u8, len: usize) -> Vec<u8> {
    vec![fill; len]
}

fn creator() -> CreateRecord {
    CreateRecord { owner: id(1), now: 1_700_000_000 }
}

fn fresh(recipients: Vec<Identity>, keys: Vec<Vec<u8>>) -> Record {
    create_record(&creator(), "bafycid".to_string(), "Lab results".to_string(), recipients, keys)
        .expect("valid input")
}

fn summary(entries: &[AccessEntry]) -> Vec<(u8, bool)> {
    entries.iter().map(|e| (e.recipient.to_bytes()[0], e.revoked)).collect()
}

fn granter(record: Record, caller: Identity) -> GrantAccess {
    GrantAccess { record, owner: caller }
}

#[test]
fn create_keeps_pairs_in_order() {
    let rec = fresh(vec![id(7), id(8), id(9)], vec![key(1, 3), key(2, 4), key(3, 5)]);
    assert_eq!(rec.owner.to_bytes(), [1u8; 32]);
    assert_eq!(rec.cid, "bafycid");
    assert_eq!(rec.title, "Lab results");
    assert_eq!(rec.created_at, 1_700_000_000);
    assert_eq!(summary(&rec.access_entries), vec![(7, false), (8, false), (9, false)]);
    assert_eq!(rec.access_entries[1].encrypted_key, key(2, 4));
    assert_eq!(rec.access_entries[2].encrypted_key, key(3, 5));
}

#[test]
fn create_with_no_recipients() {
    let rec = fresh(vec![], vec![]);
    assert!(rec.access_entries.is_empty());
}

#[test]
fn create_keeps_duplicate_recipients() {
    let rec = fresh(vec![id(7), id(7)], vec![key(1, 2), key(2, 2)]);
    assert_eq!(summary(&rec.access_entries), vec![(7, false), (7, false)]);
}

#[test]
fn create_at_every_bound() {
    let recipients: Vec<Identity> = (0..10).map(id).collect();
    let keys: Vec<Vec<u8>> = (0..10).map(|_| key(9, 512)).collect();
    let rec = create_record(&creator(), "c".repeat(64), "t".repeat(64), recipients, keys)
        .expect("bounds are inclusive");
    assert_eq!(rec.access_entries.len(), 10);
}

#[test]
fn create_rejects_mismatch() {
    let r = create_record(&creator(), "c".into(), "t".into(), vec![id(2), id(3)], vec![key(1, 1)]);
    assert_eq!(r.unwrap_err(), ErrorCode::RecipientsKeysMismatch);
}

#[test]
fn create_rejects_long_cid() {
    let r = create_record(&creator(), "c".repeat(65), "t".into(), vec![], vec![]);
    assert_eq!(r.unwrap_err(), ErrorCode::CidTooLong);
}

#[test]
fn create_measures_cid_in_bytes() {
    let r = create_record(&creator(), "\u{e9}".repeat(33), "t".into(), vec![], vec![]);
    assert_eq!(r.unwrap_err(), ErrorCode::CidTooLong);
}

#[test]
fn create_rejects_long_title() {
    let r = create_record(&creator(), "c".into(), "t".repeat(65), vec![], vec![]);
    assert_eq!(r.unwrap_err(), ErrorCode::TitleTooLong);
}

#[test]
fn create_rejects_eleven_recipients() {
    let recipients: Vec<Identity> = (0..11).map(id).collect();
    let keys: Vec<Vec<u8>> = (0..11).map(|_| key(1, 8)).collect();
    let r = create_record(&creator(), "c".into(), "t".into(), recipients, keys);
    assert_eq!(r.unwrap_err(), ErrorCode::TooManyRecipients);
}

#[test]
fn create_rejects_large_key() {
    let r = create_record(
        &creator(),
        "c".into(),
        "t".into(),
        vec![id(2), id(3)],
        vec![key(1, 8), key(1, 513)],
    );
    assert_eq!(r.unwrap_err(), ErrorCode::EncryptedKeyTooLarge);
}

#[test]
fn create_checks_mismatch_before_sizes() {
    let r = create_record(&creator(), "c".repeat(65), "t".repeat(65), vec![id(2)], vec![]);
    assert_eq!(r.unwrap_err(), ErrorCode::RecipientsKeysMismatch);
}

#[test]
fn grant_by_stranger_is_unauthorized() {
    let mut ctx = granter(fresh(vec![id(7)], vec![key(1, 4)]), id(99));
    assert_eq!(grant_access(&mut ctx, id(8), key(2, 4)), Err(ErrorCode::Unauthorized));
    assert_eq!(summary(&ctx.record.access_entries), vec![(7, false)]);
}

#[test]
fn grant_appends_new_recipient() {
    let mut ctx = granter(fresh(vec![id(7)], vec![key(1, 4)]), id(1));
    assert_eq!(grant_access(&mut ctx, id(8), key(2, 6)), Ok(()));
    assert_eq!(summary(&ctx.record.access_entries), vec![(7, false), (8, false)]);
    assert_eq!(ctx.record.access_entries[1].encrypted_key, key(2, 6));
}

#[test]
fn grant_rejects_large_key() {
    let mut ctx = granter(fresh(vec![id(7)], vec![key(1, 4)]), id(1));
    assert_eq!(grant_access(&mut ctx, id(7), key(2, 513)), Err(ErrorCode::EncryptedKeyTooLarge));
    assert_eq!(ctx.record.access_entries[0].encrypted_key, key(1, 4));
}

#[test]
fn grant_unrevokes_and_rotates_key() {
    let rec = fresh(vec![id(7), id(8)], vec![key(1, 4), key(2, 4)]);
    let mut rev = RevokeAccess { record: rec, owner: id(1) };
    assert_eq!(revoke_access(&mut rev, id(8)), Ok(()));
    let mut ctx = granter(rev.record, id(1));
    assert_eq!(grant_access(&mut ctx, id(8), key(5, 9)), Ok(()));
    assert_eq!(ctx.record.access_entries.len(), 2);
    assert!(!ctx.record.access_entries[1].revoked);
    assert_eq!(ctx.record.access_entries[1].encrypted_key, key(5, 9));
}

#[test]
fn grant_updates_first_of_duplicates() {
    let mut ctx = granter(fresh(vec![id(7), id(7)], vec![key(1, 2), key(2, 2)]), id(1));
    assert_eq!(grant_access(&mut ctx, id(7), key(3, 3)), Ok(()));
    assert_eq!(ctx.record.access_entries[0].encrypted_key, key(3, 3));
    assert_eq!(ctx.record.access_entries[1].encrypted_key, key(2, 2));
}

#[test]
fn grant_new_recipient_at_capacity_fails() {
    let recipients: Vec<Identity> = (0..10).map(id).collect();
    let keys: Vec<Vec<u8>> = (0..10).map(|_| key(1, 8)).collect();
    let mut ctx = granter(fresh(recipients, keys), id(1));
    assert_eq!(grant_access(&mut ctx, id(50), key(2, 8)), Err(ErrorCode::TooManyRecipients));
    assert_eq!(ctx.record.access_entries.len(), 10);
}

#[test]
fn grant_existing_recipient_at_capacity_succeeds() {
    let recipients: Vec<Identity> = (0..10).map(id).collect();
    let keys: Vec<Vec<u8>> = (0..10).map(|_| key(1, 8)).collect();
    let mut ctx = granter(fresh(recipients, keys), id(1));
    assert_eq!(grant_access(&mut ctx, id(4), key(2, 8)), Ok(()));
    assert_eq!(ctx.record.access_entries.len(), 10);
    assert_eq!(ctx.record.access_entries[4].encrypted_key, key(2, 8));
}

#[test]
fn revoke_absent_recipient_fails() {
    let mut ctx = RevokeAccess { record: fresh(vec![id(7)], vec![key(1, 4)]), owner: id(1) };
    assert_eq!(revoke_access(&mut ctx, id(8)), Err(ErrorCode::RecipientNotFound));
    assert_eq!(summary(&ctx.record.access_entries), vec![(7, false)]);
}

#[test]
fn revoke_by_stranger_is_unauthorized() {
    let mut ctx = RevokeAccess { record: fresh(vec![id(7)], vec![key(1, 4)]), owner: id(2) };
    assert_eq!(revoke_access(&mut ctx, id(7)), Err(ErrorCode::Unauthorized));
    assert_eq!(summary(&ctx.record.access_entries), vec![(7, false)]);
}

#[test]
fn revoke_twice_is_harmless() {
    let mut ctx = RevokeAccess { record: fresh(vec![id(7)], vec![key(1, 4)]), owner: id(1) };
    assert_eq!(revoke_access(&mut ctx, id(7)), Ok(()));
    assert_eq!(summary(&ctx.record.access_entries), vec![(7, true)]);
    assert_eq!(revoke_access(&mut ctx, id(7)), Ok(()));
    assert_eq!(summary(&ctx.record.access_entries), vec![(7, true)]);
    assert_eq!(ctx.record.access_entries[0].encrypted_key, key(1, 4));
}

#[test]
fn end_to_end_grant_revoke_regrant() {
    let (a, b, c) = (id(10), id(11), id(12));
    let rec = fresh(vec![a, b], vec![key(0xa, 4), key(0xb, 4)]);
    let mut g = granter(rec, id(1));
    assert_eq!(grant_access(&mut g, c, key(0xc, 4)), Ok(()));
    assert_eq!(summary(&g.record.access_entries), vec![(10, false), (11, false), (12, false)]);
    let mut r = RevokeAccess { record: g.record, owner: id(1) };
    assert_eq!(revoke_access(&mut r, b), Ok(()));
    assert_eq!(summary(&r.record.access_entries), vec![(10, false), (11, true), (12, false)]);
    let mut g = granter(r.record, id(1));
    assert_eq!(grant_access(&mut g, b, key(0xb2, 6)), Ok(()));
    assert_eq!(summary(&g.record.access_entries), vec![(10, false), (11, false), (12, false)]);
    assert_eq!(g.record.access_entries[1].encrypted_key, key(0xb2, 6));
    assert_eq!(g.record.access_entries.len(), 3);
}

#[test]
fn initialize_once() {
    let mut ctx = Initialize { config: None, admin: id(3), bump: 254 };
    assert_eq!(initialize(&mut ctx), Ok(()));
    let cfg: Config = ctx.config.expect("created");
    assert_eq!(cfg.admin.to_bytes(), [3u8; 32]);
    assert_eq!(cfg.bump, 254);
    assert_eq!(initialize(&mut ctx), Err(ErrorCode::AlreadyInitialized));
}

#[test]
fn identities_compare_by_bytes() {
    let mut bytes = [5u8; 32];
    assert!(id(5).same_as(&Identity::new(bytes)));
    bytes[31] = 6;
    assert!(!id(5).same_as(&Identity::new(bytes)));
}

#[test]
fn error_messages() {
    assert_eq!(ErrorCode::CidTooLong.message(), "CID too long");
    assert_eq!(ErrorCode::RecipientNotFound.message(), "Recipient not found");
}
