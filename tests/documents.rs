use dao_agreement::analysis::{
    chunk_document, extract_risk_level, format_response, parse_response, ContractAnalysis,
};
use dao_agreement::registry::{
    add_audit_entry, validate_document_id, validate_hash, AuditAction, AuditEntry, AuditTrail,
    InvalidField, RegistryError,
};

fn entry(user: &str, action: AuditAction) -> AuditEntry {
    AuditEntry {
        entry_id: "audit_1".to_string(),
        user_id: user.to_string(),
        action,
        timestamp: 1,
        consent_given: None,
        document_hash_after_action: None,
        metadata: None,
    }
}

#[test]
fn document_ids_are_checked() {
    assert_eq!(validate_document_id(""), Err(RegistryError::InvalidInput(InvalidField::EmptyDocumentId)));
    assert_eq!(validate_document_id(&"a".repeat(129)), Err(RegistryError::InvalidInput(InvalidField::DocumentIdTooLong)));
    assert_eq!(validate_document_id(&"a".repeat(128)), Ok(()));
    assert_eq!(validate_document_id("doc-1_A"), Ok(()));
    assert_eq!(validate_document_id("doc 1"), Err(RegistryError::InvalidInput(InvalidField::DocumentIdCharacters)));
    assert_eq!(validate_document_id("doc.pdf"), Err(RegistryError::InvalidInput(InvalidField::DocumentIdCharacters)));
    assert_eq!(validate_document_id("ünïcode"), Ok(()));
}

#[test]
fn hashes_are_checked() {
    let good = "0123456789abcdefABCDEF0123456789abcdef0123456789abcdef0123456789";
    assert_eq!(good.len(), 64);
    assert_eq!(validate_hash(good), Ok(()));
    assert_eq!(validate_hash(&good[..63]), Err(RegistryError::InvalidInput(InvalidField::HashLength)));
    let bad = format!("{}g", &good[..63]);
    assert_eq!(validate_hash(&bad), Err(RegistryError::InvalidInput(InvalidField::HashNotHex)));
}

#[test]
fn audit_entries_append_per_document() {
    let mut trails = Vec::new();
    add_audit_entry(&mut trails, "d1", entry("alice", AuditAction::DocumentUploaded));
    add_audit_entry(&mut trails, "d2", entry("bob", AuditAction::DocumentUploaded));
    add_audit_entry(&mut trails, "d1", entry("carol", AuditAction::ConsentGiven));
    assert_eq!(trails.len(), 2);
    assert_eq!(trails[0].document_id, "d1");
    let entries = trails[0].trail.get_entries();
    assert_eq!(entries.len(), 2);
    assert_eq!(entries[1].user_id, "carol");
    assert_eq!(entries[1].action, AuditAction::ConsentGiven);
    assert_eq!(trails[1].trail.get_entries().len(), 1);
    let mut t = AuditTrail::new();
    assert!(t.get_entries().is_empty());
    t.add_entry(entry("dave", AuditAction::SignerAdded));
    assert_eq!(t.get_entries()[0].user_id, "dave");
}

#[test]
fn risk_level_follows_the_text() {
    assert_eq!(extract_risk_level("Overall risk: HIGH"), "High");
    assert_eq!(extract_risk_level("risk is Low here"), "Low");
    assert_eq!(extract_risk_level("both high and low"), "High");
    assert_eq!(extract_risk_level("moderate"), "Medium");
}

#[test]
fn documents_are_chunked_with_overlap() {
    assert_eq!(chunk_document("a b  c\td e", 2), vec!["a b", "c d", "e"]);
    let ten = "w0 w1 w2 w3 w4 w5 w6 w7 w8 w9";
    assert_eq!(chunk_document(ten, 4), vec!["w0 w1 w2 w3", "w3 w4 w5 w6", "w6 w7 w8 w9"]);
    assert_eq!(chunk_document(ten, 20), vec![ten]);
    assert!(chunk_document("   ", 3).is_empty());
}

#[test]
fn analysis_report_layout() {
    let a = ContractAnalysis {
        summary: "Fine.".to_string(),
        key_clauses: vec!["Pay".to_string(), "Deliver".to_string()],
        risks: vec!["Late".to_string()],
        risk_level: "Low".to_string(),
    };
    let expected = "# CONTRACT ANALYSIS\n\n**Risk Level**: Low\n\n## Summary\nFine.\n\n## Key Points\n1. Pay\n2. Deliver\n\n## Risks\n\u{26a0}\u{fe0f} 1. Late\n";
    assert_eq!(format_response(&a), expected);
    let b = ContractAnalysis { summary: "S".to_string(), key_clauses: vec![], risks: vec![], risk_level: "High".to_string() };
    assert_eq!(format_response(&b), "# CONTRACT ANALYSIS\n\n**Risk Level**: High\n\n## Summary\nS\n\n");
    let many: Vec<String> = (0..12).map(|i| format!("k{}", i)).collect();
    let c = ContractAnalysis { summary: String::new(), key_clauses: many, risks: vec![], risk_level: String::new() };
    assert!(format_response(&c).contains("\n12. k11\n"));
}

#[test]
fn model_answers_are_parsed() {
    let answer = "SUMMARY: Pays on delivery\n  key: Fixed price \nKEY:Two phases\n\nRISKS: none\nRisks:   Late delivery\nOther text";
    let (summary, keys, risks) = parse_response(answer);
    assert_eq!(summary, "Pays on delivery");
    assert_eq!(keys, vec!["Fixed price", "Two phases"]);
    assert_eq!(risks, vec!["Late delivery"]);
    let (summary, keys, risks) = parse_response("no labels here");
    assert_eq!(summary, "no labels here...");
    assert!(keys.is_empty() && risks.is_empty());
    let long = "x".repeat(150);
    assert_eq!(parse_response(&long).0, format!("{}...", "x".repeat(100)));
    let (_, _, risks) = parse_response("RISKS:\nRISKS: None at all");
    assert!(risks.is_empty());
}
