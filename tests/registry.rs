use dao_agreement::documents::{
    DocumentRegistry, DocumentStatus, DocumentUploadRequest, SigningRequest, VerificationStatus,
};
use dao_agreement::registry::{AuditAction, InvalidField, RegistryError};

const H1: &str = "1111111111111111111111111111111111111111111111111111111111111111";
const H2: &str = "abcdefabcdefabcdefabcdefabcdefabcdefabcdefabcdefabcdefabcdefabcd";

fn s(x: &str) -> String {
    x.to_string()
}

fn upload(r: &mut DocumentRegistry, admin: &str, id: &str, participants: &[&str]) -> Result<(), RegistryError> {
    let request = DocumentUploadRequest {
        document_id: s(id),
        document_hash: s(H1),
        participants: participants.iter().map(|p| s(p)).collect(),
        title: Some(s("Lease")),
        description: None,
        document_type: None,
        expires_at: None,
    };
    r.upload_document(&s(admin), 10, &s("audit_10"), request)
}

fn sign(r: &mut DocumentRegistry, who: &str, id: &str, consent: bool) -> Result<(), RegistryError> {
    let request = SigningRequest { document_id: s(id), consent_acknowledged: consent, signature_metadata: None };
    r.sign_document(&s(who), 20, &s("audit_20"), request)
}

#[test]
fn upload_and_duplicates() {
    let mut r = DocumentRegistry::new();
    assert_eq!(upload(&mut r, "admin", "doc1", &["bob"]), Ok(()));
    assert_eq!(upload(&mut r, "admin", "doc1", &[]), Err(RegistryError::AlreadyExists));
    assert_eq!(upload(&mut r, "admin", "bad id", &[]), Err(RegistryError::InvalidInput(InvalidField::DocumentIdCharacters)));
    let rec = r.get_document_record(&s("doc1")).unwrap();
    assert_eq!(rec.original_hash, H1);
    assert_eq!(rec.admin_id, "admin");
    assert_eq!(rec.document_status, DocumentStatus::Pending);
    assert_eq!(r.get_document_status(&s("doc1")), Ok(DocumentStatus::Pending));
    assert_eq!(r.get_document_status(&s("doc2")), Err(RegistryError::NotFound));
    let trail = r.get_audit_trail(&s("doc1")).unwrap();
    assert_eq!(trail.len(), 1);
    assert_eq!(trail[0].action, AuditAction::DocumentUploaded);
    assert_eq!(r.get_audit_trail(&s("nothing")).unwrap().len(), 0);
    assert_eq!(r.record_original_hash(&s("admin"), 11, &s("a"), s("doc2"), s("short")),
        Err(RegistryError::InvalidInput(InvalidField::HashLength)));
    assert_eq!(r.record_original_hash(&s("admin"), 11, &s("a"), s("doc2"), s(H2)), Ok(()));
    assert_eq!(r.get_hashes(&s("doc2")).unwrap().original_hash, H2);
}

#[test]
fn signing_needs_consent_and_completes() {
    let mut r = DocumentRegistry::new();
    upload(&mut r, "admin", "doc1", &["bob"]).unwrap();
    assert_eq!(sign(&mut r, "bob", "doc1", false), Err(RegistryError::ConsentRequired));
    assert_eq!(sign(&mut r, "bob", "doc1", true), Err(RegistryError::ConsentRequired));
    assert_eq!(sign(&mut r, "eve", "doc1", true), Err(RegistryError::Unauthorized));
    assert_eq!(r.record_consent(&s("eve"), 15, &s("c"), s("doc1")), Err(RegistryError::Unauthorized));
    assert_eq!(r.record_consent(&s("bob"), 15, &s("c"), s("doc1")), Ok(()));
    assert_eq!(sign(&mut r, "bob", "doc1", true), Ok(()));
    assert_eq!(r.get_document_status(&s("doc1")), Ok(DocumentStatus::PartiallySigned));
    assert!(matches!(sign(&mut r, "bob", "doc1", true), Err(RegistryError::UpdateConflict(_))));
    r.record_consent(&s("admin"), 16, &s("c"), s("doc1")).unwrap();
    assert_eq!(sign(&mut r, "admin", "doc1", true), Ok(()));
    let rec = r.get_document_record(&s("doc1")).unwrap();
    assert_eq!(rec.document_status, DocumentStatus::FullySigned);
    assert_eq!(rec.timestamp_final, Some(20));
    let trail = r.get_audit_trail(&s("doc1")).unwrap();
    let last = trail.last().unwrap();
    assert_eq!(last.action, AuditAction::DocumentCompleted);
    assert_eq!(last.user_id, "system");
    assert_eq!(last.metadata, Some(s("All 2 required parties have signed.")));
}

#[test]
fn participants_views_and_final_hash() {
    let mut r = DocumentRegistry::new();
    upload(&mut r, "admin", "doc1", &["bob"]).unwrap();
    assert_eq!(r.add_participant(&s("bob"), 12, &s("a"), s("doc1"), s("carol")), Err(RegistryError::Unauthorized));
    assert!(matches!(r.add_participant(&s("admin"), 12, &s("a"), s("doc1"), s("bob")), Err(RegistryError::UpdateConflict(_))));
    assert!(matches!(r.add_participant(&s("admin"), 12, &s("a"), s("doc1"), s("admin")), Err(RegistryError::UpdateConflict(_))));
    assert_eq!(r.add_participant(&s("admin"), 12, &s("a"), s("nope"), s("carol")), Err(RegistryError::NotFound));
    assert_eq!(r.add_participant(&s("admin"), 12, &s("a"), s("doc1"), s("carol")), Ok(()));
    assert_eq!(r.get_audit_trail(&s("doc1")).unwrap().last().unwrap().metadata, Some(s("Added participant: carol")));
    assert_eq!(r.record_document_view(&s("zed"), 13, &s("v"), s("doc1")), Ok(()));
    assert_eq!(r.record_document_view(&s("zed"), 13, &s("v"), s("nope")), Err(RegistryError::NotFound));
    let (required, signed) = r.get_signing_progress(&s("doc1")).unwrap();
    assert_eq!(required, vec![s("admin"), s("bob"), s("carol")]);
    assert!(signed.is_empty());
    assert_eq!(r.verify_hash(&s("doc1"), &s(H1)), VerificationStatus::OriginalMatch);
    assert_eq!(r.verify_hash(&s("doc1"), &s(H2)), VerificationStatus::NoMatch);
    assert_eq!(r.record_final_hash(&s("admin"), 30, &s("f"), s("doc1"), s(H2)), Ok(()));
    assert!(matches!(r.record_final_hash(&s("admin"), 31, &s("f"), s("doc1"), s(H2)), Err(RegistryError::UpdateConflict(_))));
    assert_eq!(r.verify_hash(&s("doc1"), &s(H2)), VerificationStatus::FinalMatch);
    assert_eq!(r.verify_hash(&s("doc9"), &s(H2)), VerificationStatus::Unrecorded);
    assert_eq!(r.verify_hash(&s("doc1"), &s("xyz")), VerificationStatus::Unrecorded);
    assert_eq!(r.get_document_status(&s("doc1")), Ok(DocumentStatus::FullySigned));
}

#[test]
fn signing_progress_is_sorted_and_unique() {
    let mut r = DocumentRegistry::new();
    upload(&mut r, "mike", "doc1", &["zoe", "amy", "zoe", "mike", "Bob"]).unwrap();
    let (required, _) = r.get_signing_progress(&s("doc1")).unwrap();
    assert_eq!(required, vec![s("Bob"), s("amy"), s("mike"), s("zoe")]);
}
