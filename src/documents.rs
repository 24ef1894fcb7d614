use crate::registry::{
    add_audit_entry, document_id_problem, entries_of, hash_problem, validate_document_id,
    validate_hash, AuditAction, AuditEntry, DocumentTrail, RegistryError,
};
use crate::search::{first_match, lemma_first_match_at, lemma_first_match_none};
use vstd::prelude::*;
use vstd::string::StringExecFns;

verus! {

#[derive(PartialEq, Eq, Structural, Clone, Copy, Debug)]
pub enum DocumentStatus {
    Pending,
    PartiallySigned,
    FullySigned,
}

#[derive(PartialEq, Eq, Structural, Clone, Copy, Debug)]
pub enum VerificationStatus {
    Unrecorded,
    OriginalMatch,
    FinalMatch,
    NoMatch,
}

pub struct DocumentMetadata {
    pub title: Option<String>,
    pub description: Option<String>,
    pub document_type: Option<String>,
    pub created_at: u64,
    pub expires_at: Option<u64>,
}

/// The hashes of a document, who must sign it and who has.
pub struct DocumentRecord {
    pub original_hash: String,
    pub timestamp_original: u64,
    pub final_hash: Option<String>,
    pub timestamp_final: Option<u64>,
    pub admin_id: String,
    pub participants: Vec<String>,
    pub current_signers: Vec<String>,
    pub document_status: DocumentStatus,
    pub metadata: DocumentMetadata,
}

pub struct DocumentUploadRequest {
    pub document_id: String,
    pub document_hash: String,
    pub participants: Vec<String>,
    pub title: Option<String>,
    pub description: Option<String>,
    pub document_type: Option<String>,
    pub expires_at: Option<u64>,
}

pub struct SigningRequest {
    pub document_id: String,
    pub consent_acknowledged: bool,
    pub signature_metadata: Option<String>,
}

/// One document's record, under the document's id.
pub struct StoredRecord {
    pub document_id: String,
    pub record: DocumentRecord,
}

/// The registry: a record and an audit trail per document id.
pub struct DocumentRegistry {
    pub records: Vec<StoredRecord>,
    pub trails: Vec<DocumentTrail>,
}

/// Whether `x` is one of the texts of `v`.
pub open spec fn lists_text(v: Seq<String>, x: Seq<char>) -> bool {
    exists|i: int| 0 <= i < v.len() && (#[trigger] v[i])@ == x
}

pub fn contains_text(v: &Vec<String>, x: &String) -> (r: bool)
    ensures
        r == lists_text(v@, x@),
{
    let mut i: usize = 0;
    while i < v.len()
        invariant
            i <= v@.len(),
            forall|k: int| 0 <= k < i ==> (#[trigger] v@[k])@ != x@,
        decreases v@.len() - i,
    {
        if v[i] == *x {
            return true;
        }
        i = i + 1;
    }
    false
}

impl DocumentRegistry {
    pub fn new() -> (r: DocumentRegistry)
        ensures
            r.records@.len() == 0,
            r.trails@.len() == 0,
    {
        DocumentRegistry { records: Vec::new(), trails: Vec::new() }
    }

    pub open spec fn position(&self, document_id: Seq<char>) -> Option<int> {
        first_match(self.records@, |r: StoredRecord| r.document_id@ == document_id)
    }

    /// The record of `document_id`, where there is one.
    pub open spec fn record_of(&self, document_id: Seq<char>) -> Option<DocumentRecord> {
        match self.position(document_id) {
            Some(k) => Some(self.records@[k].record),
            None => None,
        }
    }

    pub fn find_record(&self, document_id: &String) -> (r: Option<usize>)
        ensures
            match r {
                Some(k) => self.position(document_id@) == Some(k as int) && k < self.records@.len(),
                None => self.position(document_id@) is None,
            },
    {
        let ghost p = |r: StoredRecord| r.document_id@ == document_id@;
        let mut k: usize = 0;
        while k < self.records.len()
            invariant
                k <= self.records@.len(),
                p == (|r: StoredRecord| r.document_id@ == document_id@),
                forall|i: int| 0 <= i < k ==> !p(#[trigger] self.records@[i]),
            decreases self.records@.len() - k,
        {
            if self.records[k].document_id == *document_id {
                proof {
                    lemma_first_match_at(self.records@, p, k as int);
                }
                return Some(k);
            }
            k = k + 1;
        }
        proof {
            lemma_first_match_none(self.records@, p);
        }
        None
    }

    /// Records a new document by its hash, with `caller` as its admin, and logs the upload.
    pub fn upload_document(&mut self, caller: &String, now: u64, audit_id: &String, request: DocumentUploadRequest) -> (r: Result<(), RegistryError>)
        ensures
            match document_id_problem(request.document_id@) {
                Some(p) => r == Err::<(), RegistryError>(RegistryError::InvalidInput(p)) && *final(self) == *old(self),
                None => match hash_problem(request.document_hash@) {
                    Some(p) => r == Err::<(), RegistryError>(RegistryError::InvalidInput(p)) && *final(self) == *old(self),
                    None => if old(self).position(request.document_id@) is Some {
                        r == Err::<(), RegistryError>(RegistryError::AlreadyExists) && *final(self) == *old(self)
                    } else {
                        let stored = final(self).records@.last();
                        &&& r is Ok
                        &&& final(self).records@.len() == old(self).records@.len() + 1
                        &&& final(self).records@.subrange(0, old(self).records@.len() as int) == old(self).records@
                        &&& stored.document_id == request.document_id
                        &&& stored.record == (DocumentRecord {
                            original_hash: request.document_hash,
                            timestamp_original: now,
                            final_hash: None,
                            timestamp_final: None,
                            admin_id: *caller,
                            participants: request.participants,
                            current_signers: stored.record.current_signers,
                            document_status: DocumentStatus::Pending,
                            metadata: DocumentMetadata {
                                title: request.title,
                                description: request.description,
                                document_type: request.document_type,
                                created_at: now,
                                expires_at: request.expires_at,
                            },
                        })
                        &&& stored.record.current_signers@.len() == 0
                        &&& entries_of(final(self).trails@, request.document_id@) == entries_of(
                            old(self).trails@,
                            request.document_id@,
                        ).push(AuditEntry {
                            entry_id: *audit_id,
                            user_id: *caller,
                            action: AuditAction::DocumentUploaded,
                            timestamp: now,
                            consent_given: None,
                            document_hash_after_action: Some(request.document_hash),
                            metadata: None,
                        })
                    }
                },
            },
    {
        let DocumentUploadRequest { document_id, document_hash, participants, title, description, document_type, expires_at } = request;
        if let Err(e) = validate_document_id(document_id.as_str()) {
            return Err(e);
        }
        if let Err(e) = validate_hash(document_hash.as_str()) {
            return Err(e);
        }
        if self.find_record(&document_id).is_some() {
            return Err(RegistryError::AlreadyExists);
        }
        let record = DocumentRecord {
            original_hash: document_hash.clone(),
            timestamp_original: now,
            final_hash: None,
            timestamp_final: None,
            admin_id: caller.clone(),
            participants,
            current_signers: Vec::new(),
            document_status: DocumentStatus::Pending,
            metadata: DocumentMetadata { title, description, document_type, created_at: now, expires_at },
        };
        let key = document_id.clone();
        self.records.push(StoredRecord { document_id, record });
        let entry = AuditEntry {
            entry_id: audit_id.clone(),
            user_id: caller.clone(),
            action: AuditAction::DocumentUploaded,
            timestamp: now,
            consent_given: None,
            document_hash_after_action: Some(document_hash),
            metadata: None,
        };
        add_audit_entry(&mut self.trails, key.as_str(), entry);
        assert(self.records@.subrange(0, old(self).records@.len() as int) =~= old(self).records@);
        Ok(())
    }

    /// Records a document by its original hash alone: no participants, no metadata.
    pub fn record_original_hash(&mut self, caller: &String, now: u64, audit_id: &String, document_id: String, hash: String) -> (r: Result<(), RegistryError>)
        ensures
            r is Ok <==> (document_id_problem(document_id@) is None && hash_problem(hash@) is None
                && old(self).position(document_id@) is None),
            r is Ok ==> final(self).records@.last().record.original_hash == hash
                && final(self).records@.last().record.participants@.len() == 0,
    {
        let request = DocumentUploadRequest {
            document_id,
            document_hash: hash,
            participants: Vec::new(),
            title: None,
            description: None,
            document_type: None,
            expires_at: None,
        };
        self.upload_document(caller, now, audit_id, request)
    }

    /// The record of a document, once its id is checked.
    pub fn get_document_record(&self, document_id: &String) -> (r: Result<&DocumentRecord, RegistryError>)
        ensures
            match document_id_problem(document_id@) {
                Some(p) => r == Err::<&DocumentRecord, RegistryError>(RegistryError::InvalidInput(p)),
                None => match self.record_of(document_id@) {
                    Some(rec) => r matches Ok(found) && *found == rec,
                    None => r == Err::<&DocumentRecord, RegistryError>(RegistryError::NotFound),
                },
            },
    {
        if let Err(e) = validate_document_id(document_id.as_str()) {
            return Err(e);
        }
        match self.find_record(document_id) {
            Some(k) => Ok(&self.records[k].record),
            None => Err(RegistryError::NotFound),
        }
    }

    pub fn get_hashes(&self, document_id: &String) -> (r: Result<&DocumentRecord, RegistryError>)
        ensures
            match document_id_problem(document_id@) {
                Some(p) => r == Err::<&DocumentRecord, RegistryError>(RegistryError::InvalidInput(p)),
                None => match self.record_of(document_id@) {
                    Some(rec) => r matches Ok(found) && *found == rec,
                    None => r == Err::<&DocumentRecord, RegistryError>(RegistryError::NotFound),
                },
            },
    {
        self.get_document_record(document_id)
    }

    pub fn get_document_status(&self, document_id: &String) -> (r: Result<DocumentStatus, RegistryError>)
        ensures
            match document_id_problem(document_id@) {
                Some(p) => r == Err::<DocumentStatus, RegistryError>(RegistryError::InvalidInput(p)),
                None => match self.record_of(document_id@) {
                    Some(rec) => r == Ok::<DocumentStatus, RegistryError>(rec.document_status),
                    None => r == Err::<DocumentStatus, RegistryError>(RegistryError::NotFound),
                },
            },
    {
        match self.get_document_record(document_id) {
            Ok(rec) => Ok(rec.document_status),
            Err(e) => Err(e),
        }
    }

    /// The audit entries of a document, once its id is checked; none where it has no trail.
    pub fn get_audit_trail(&self, document_id: &String) -> (r: Result<Vec<&AuditEntry>, RegistryError>)
        ensures
            match document_id_problem(document_id@) {
                Some(p) => r == Err::<Vec<&AuditEntry>, RegistryError>(RegistryError::InvalidInput(p)),
                None => r matches Ok(entries) && entries@.len() == entries_of(self.trails@, document_id@).len()
                    && forall|i: int| 0 <= i < entries@.len() ==> *entries@[i] == entries_of(self.trails@, document_id@)[i],
            },
    {
        if let Err(e) = validate_document_id(document_id.as_str()) {
            return Err(e);
        }
        let ghost p = |t: DocumentTrail| t.document_id@ == document_id@;
        let mut k: usize = 0;
        while k < self.trails.len()
            invariant
                k <= self.trails@.len(),
                p == (|t: DocumentTrail| t.document_id@ == document_id@),
                forall|i: int| 0 <= i < k ==> !p(#[trigger] self.trails@[i]),
                document_id_problem(document_id@) is None,
            decreases self.trails@.len() - k,
        {
            if self.trails[k].document_id == *document_id {
                proof {
                    lemma_first_match_at(self.trails@, p, k as int);
                }
                let entries = self.trails[k].trail.get_entries();
                let mut out: Vec<&AuditEntry> = Vec::new();
                let mut i: usize = 0;
                while i < entries.len()
                    invariant
                        i <= entries@.len(),
                        entries == &self.trails@[k as int].trail.entries,
                        out@.len() == i,
                        forall|j: int| 0 <= j < i ==> *out@[j] == entries@[j],
                    decreases entries@.len() - i,
                {
                    out.push(&entries[i]);
                    i = i + 1;
                }
                return Ok(out);
            }
            k = k + 1;
        }
        proof {
            lemma_first_match_none(self.trails@, p);
        }
        Ok(Vec::new())
    }

    /// Whether a hash is the document's original or final hash. Ids and hashes that are
    /// malformed, and documents never recorded, are reported as unrecorded.
    pub fn verify_hash(&self, document_id: &String, hash_to_check: &String) -> (r: VerificationStatus)
        ensures
            r == if document_id_problem(document_id@) is Some || hash_problem(hash_to_check@) is Some {
                VerificationStatus::Unrecorded
            } else {
                match self.record_of(document_id@) {
                    None => VerificationStatus::Unrecorded,
                    Some(rec) => if rec.original_hash@ == hash_to_check@ {
                        VerificationStatus::OriginalMatch
                    } else if rec.final_hash matches Some(f) && f@ == hash_to_check@ {
                        VerificationStatus::FinalMatch
                    } else {
                        VerificationStatus::NoMatch
                    },
                }
            },
    {
        if validate_document_id(document_id.as_str()).is_err() || validate_hash(hash_to_check.as_str()).is_err() {
            return VerificationStatus::Unrecorded;
        }
        match self.find_record(document_id) {
            Some(k) => {
                let rec = &self.records[k].record;
                if rec.original_hash == *hash_to_check {
                    VerificationStatus::OriginalMatch
                } else {
                    match &rec.final_hash {
                        Some(f) => if *f == *hash_to_check {
                            VerificationStatus::FinalMatch
                        } else {
                            VerificationStatus::NoMatch
                        },
                        None => VerificationStatus::NoMatch,
                    }
                }
            },
            None => VerificationStatus::Unrecorded,
        }
    }
}

impl DocumentRegistry {
    /// The document's admin adds a required signer.
    pub fn add_participant(&mut self, caller: &String, now: u64, audit_id: &String, document_id: String, participant_id: String) -> (r: Result<(), RegistryError>)
        ensures
            match document_id_problem(document_id@) {
                Some(p) => r == Err::<(), RegistryError>(RegistryError::InvalidInput(p)) && *final(self) == *old(self),
                None => match old(self).position(document_id@) {
                    None => r == Err::<(), RegistryError>(RegistryError::NotFound) && *final(self) == *old(self),
                    Some(k) => {
                        let rec0 = old(self).records@[k].record;
                        let rec1 = final(self).records@[k].record;
                        if rec0.admin_id@ != caller@ {
                            r == Err::<(), RegistryError>(RegistryError::Unauthorized) && *final(self) == *old(self)
                        } else if rec0.admin_id@ == participant_id@ || lists_text(rec0.participants@, participant_id@) {
                            r matches Err(RegistryError::UpdateConflict(_)) && *final(self) == *old(self)
                        } else {
                            &&& r is Ok
                            &&& final(self).records@.len() == old(self).records@.len()
                            &&& forall|j: int| 0 <= j < old(self).records@.len() && j != k ==> (#[trigger] final(self).records@[j]) == old(self).records@[j]
                            &&& final(self).records@[k].document_id == old(self).records@[k].document_id
                            &&& rec1 == DocumentRecord { participants: rec1.participants, ..rec0 }
                            &&& rec1.participants@ == rec0.participants@.push(participant_id)
                            &&& entries_of(final(self).trails@, document_id@) == entries_of(old(self).trails@, document_id@).push(AuditEntry {
                                entry_id: *audit_id,
                                user_id: *caller,
                                action: AuditAction::SignerAdded,
                                timestamp: now,
                                consent_given: None,
                                document_hash_after_action: None,
                                metadata: entries_of(final(self).trails@, document_id@).last().metadata,
                            })
                            &&& entries_of(final(self).trails@, document_id@).last().metadata matches Some(m)
                                && m@ == "Added participant: "@ + participant_id@
                        }
                    },
                },
            },
    {
        if let Err(e) = validate_document_id(document_id.as_str()) {
            return Err(e);
        }
        let k = match self.find_record(&document_id) {
            Some(k) => k,
            None => {
                return Err(RegistryError::NotFound);
            },
        };
        if self.records[k].record.admin_id != *caller {
            return Err(RegistryError::Unauthorized);
        }
        if self.records[k].record.admin_id == participant_id || contains_text(&self.records[k].record.participants, &participant_id) {
            return Err(RegistryError::UpdateConflict(String::from_str("User is already a required signer.")));
        }
        let mut note = String::from_str("Added participant: ");
        note.append(participant_id.as_str());
        self.records[k].record.participants.push(participant_id);
        let entry = AuditEntry {
            entry_id: audit_id.clone(),
            user_id: caller.clone(),
            action: AuditAction::SignerAdded,
            timestamp: now,
            consent_given: None,
            document_hash_after_action: None,
            metadata: Some(note),
        };
        add_audit_entry(&mut self.trails, document_id.as_str(), entry);
        Ok(())
    }

    /// Logs that `caller` viewed a recorded document.
    pub fn record_document_view(&mut self, caller: &String, now: u64, audit_id: &String, document_id: String) -> (r: Result<(), RegistryError>)
        ensures
            final(self).records == old(self).records,
            match document_id_problem(document_id@) {
                Some(p) => r == Err::<(), RegistryError>(RegistryError::InvalidInput(p)) && *final(self) == *old(self),
                None => if old(self).position(document_id@) is None {
                    r == Err::<(), RegistryError>(RegistryError::NotFound) && *final(self) == *old(self)
                } else {
                    r is Ok && entries_of(final(self).trails@, document_id@) == entries_of(old(self).trails@, document_id@).push(AuditEntry {
                        entry_id: *audit_id,
                        user_id: *caller,
                        action: AuditAction::DocumentViewed,
                        timestamp: now,
                        consent_given: None,
                        document_hash_after_action: None,
                        metadata: None,
                    })
                },
            },
    {
        if let Err(e) = validate_document_id(document_id.as_str()) {
            return Err(e);
        }
        if self.find_record(&document_id).is_none() {
            return Err(RegistryError::NotFound);
        }
        let entry = AuditEntry {
            entry_id: audit_id.clone(),
            user_id: caller.clone(),
            action: AuditAction::DocumentViewed,
            timestamp: now,
            consent_given: None,
            document_hash_after_action: None,
            metadata: None,
        };
        add_audit_entry(&mut self.trails, document_id.as_str(), entry);
        Ok(())
    }

    /// Logs the consent of `caller`, who must be the document's admin or one of its signers.
    pub fn record_consent(&mut self, caller: &String, now: u64, audit_id: &String, document_id: String) -> (r: Result<(), RegistryError>)
        ensures
            final(self).records == old(self).records,
            match document_id_problem(document_id@) {
                Some(p) => r == Err::<(), RegistryError>(RegistryError::InvalidInput(p)) && *final(self) == *old(self),
                None => match old(self).record_of(document_id@) {
                    None => r == Err::<(), RegistryError>(RegistryError::NotFound) && *final(self) == *old(self),
                    Some(rec) => if caller@ != rec.admin_id@ && !lists_text(rec.participants@, caller@) {
                        r == Err::<(), RegistryError>(RegistryError::Unauthorized) && *final(self) == *old(self)
                    } else {
                        r is Ok && entries_of(final(self).trails@, document_id@) == entries_of(old(self).trails@, document_id@).push(AuditEntry {
                            entry_id: *audit_id,
                            user_id: *caller,
                            action: AuditAction::ConsentGiven,
                            timestamp: now,
                            consent_given: Some(true),
                            document_hash_after_action: None,
                            metadata: None,
                        })
                    },
                },
            },
    {
        if let Err(e) = validate_document_id(document_id.as_str()) {
            return Err(e);
        }
        let k = match self.find_record(&document_id) {
            Some(k) => k,
            None => {
                return Err(RegistryError::NotFound);
            },
        };
        let rec = &self.records[k].record;
        if *caller != rec.admin_id && !contains_text(&rec.participants, caller) {
            return Err(RegistryError::Unauthorized);
        }
        let entry = AuditEntry {
            entry_id: audit_id.clone(),
            user_id: caller.clone(),
            action: AuditAction::ConsentGiven,
            timestamp: now,
            consent_given: Some(true),
            document_hash_after_action: None,
            metadata: None,
        };
        add_audit_entry(&mut self.trails, document_id.as_str(), entry);
        Ok(())
    }

    /// Records the hash of the completed document, once; the document counts as fully signed
    /// from then on.
    pub fn record_final_hash(&mut self, caller: &String, now: u64, audit_id: &String, document_id: String, hash: String) -> (r: Result<(), RegistryError>)
        ensures
            match document_id_problem(document_id@) {
                Some(p) => r == Err::<(), RegistryError>(RegistryError::InvalidInput(p)) && *final(self) == *old(self),
                None => match hash_problem(hash@) {
                    Some(p) => r == Err::<(), RegistryError>(RegistryError::InvalidInput(p)) && *final(self) == *old(self),
                    None => match old(self).position(document_id@) {
                        None => r == Err::<(), RegistryError>(RegistryError::NotFound) && *final(self) == *old(self),
                        Some(k) => {
                            let rec0 = old(self).records@[k].record;
                            if rec0.final_hash is Some {
                                r matches Err(RegistryError::UpdateConflict(_)) && *final(self) == *old(self)
                            } else {
                                &&& r is Ok
                                &&& final(self).records@.len() == old(self).records@.len()
                                &&& forall|j: int| 0 <= j < old(self).records@.len() && j != k ==> (#[trigger] final(self).records@[j]) == old(self).records@[j]
                                &&& final(self).records@[k].document_id == old(self).records@[k].document_id
                                &&& final(self).records@[k].record == (DocumentRecord {
                                    final_hash: Some(hash),
                                    timestamp_final: Some(now),
                                    document_status: DocumentStatus::FullySigned,
                                    ..rec0
                                })
                                &&& entries_of(final(self).trails@, document_id@).len() == entries_of(old(self).trails@, document_id@).len() + 1
                                &&& entries_of(final(self).trails@, document_id@).last().action == AuditAction::DocumentCompleted
                                &&& entries_of(final(self).trails@, document_id@).last().document_hash_after_action == Some(hash)
                            }
                        },
                    },
                },
            },
    {
        if let Err(e) = validate_document_id(document_id.as_str()) {
            return Err(e);
        }
        if let Err(e) = validate_hash(hash.as_str()) {
            return Err(e);
        }
        let k = match self.find_record(&document_id) {
            Some(k) => k,
            None => {
                return Err(RegistryError::NotFound);
            },
        };
        if self.records[k].record.final_hash.is_some() {
            return Err(RegistryError::UpdateConflict(String::from_str("Final hash has already been recorded.")));
        }
        let rec = &mut self.records[k].record;
        rec.final_hash = Some(hash.clone());
        rec.timestamp_final = Some(now);
        rec.document_status = DocumentStatus::FullySigned;
        let entry = AuditEntry {
            entry_id: audit_id.clone(),
            user_id: caller.clone(),
            action: AuditAction::DocumentCompleted,
            timestamp: now,
            consent_given: None,
            document_hash_after_action: Some(hash),
            metadata: Some(String::from_str("Final hash recorded")),
        };
        add_audit_entry(&mut self.trails, document_id.as_str(), entry);
        Ok(())
    }
}

/// Whether `user` has given consent in these audit entries.
pub open spec fn has_consent(entries: Seq<AuditEntry>, user: Seq<char>) -> bool {
    exists|i: int|
        0 <= i < entries.len() && (#[trigger] entries[i]).user_id@ == user && entries[i].action
            == AuditAction::ConsentGiven && entries[i].consent_given == Some(true)
}

/// Whether every participant and the admin are among the signers.
pub open spec fn all_signed(participants: Seq<String>, admin: Seq<char>, signers: Seq<String>) -> bool {
    &&& forall|i: int| 0 <= i < participants.len() ==> lists_text(signers, (#[trigger] participants[i])@)
    &&& lists_text(signers, admin)
}

/// The participants other than the admin, each counted once.
pub open spec fn other_signers(participants: Seq<String>, admin: Seq<char>) -> nat
    decreases participants.len(),
{
    if participants.len() == 0 {
        0
    } else {
        other_signers(participants.drop_last(), admin) + if participants.last()@ != admin && !lists_text(
            participants.drop_last(),
            participants.last()@,
        ) {
            1nat
        } else {
            0nat
        }
    }
}

/// How many distinct parties must sign: the participants and the admin.
fn required_parties(participants: &Vec<String>, admin: &String) -> (r: u128)
    ensures
        r == other_signers(participants@, admin@) + 1,
{
    let mut count: usize = 0;
    let mut i: usize = 0;
    while i < participants.len()
        invariant
            i <= participants@.len(),
            count <= i,
            count == other_signers(participants@.subrange(0, i as int), admin@),
        decreases participants@.len() - i,
    {
        let ghost prefix = participants@.subrange(0, i as int + 1);
        assert(prefix.drop_last() =~= participants@.subrange(0, i as int));
        let mut seen = participants[i] == *admin;
        let mut j: usize = 0;
        while j < i && !seen
            invariant
                j <= i < participants@.len(),
                prefix == participants@.subrange(0, i as int + 1),
                seen ==> (participants@[i as int]@ == admin@ || lists_text(prefix.drop_last(), participants@[i as int]@)),
                !seen ==> participants@[i as int]@ != admin@ && forall|q: int| 0 <= q < j ==> participants@[q]@ != participants@[i as int]@,
            decreases i - j,
        {
            if participants[j] == participants[i] {
                assert(prefix.drop_last()[j as int] == participants@[j as int]);
                seen = true;
            }
            j = j + 1;
        }
        proof {
            if !seen {
                assert forall|q: int| 0 <= q < prefix.drop_last().len() implies (#[trigger] prefix.drop_last()[q])@ != participants@[i as int]@ by {
                    assert(prefix.drop_last()[q] == participants@[q]);
                }
            }
            assert(prefix.last() == participants@[i as int]);
        }
        if !seen {
            count = count + 1;
        }
        i = i + 1;
    }
    assert(participants@.subrange(0, i as int) =~= participants@);
    count as u128 + 1
}

/// Adds `caller` to the record's signers and updates its status: fully signed, with the
/// time, once every party has signed; partially signed after a first signature. Says whether
/// the record is now fully signed.
fn sign_record(rec: &mut DocumentRecord, caller: &String, now: u64) -> (complete: bool)
    ensures
        final(rec).current_signers@ == old(rec).current_signers@.push(*caller),
        complete == all_signed(old(rec).participants@, old(rec).admin_id@, final(rec).current_signers@),
        *final(rec) == (DocumentRecord {
            current_signers: final(rec).current_signers,
            document_status: if complete {
                DocumentStatus::FullySigned
            } else if old(rec).document_status == DocumentStatus::Pending {
                DocumentStatus::PartiallySigned
            } else {
                old(rec).document_status
            },
            timestamp_final: if complete { Some(now) } else { old(rec).timestamp_final },
            ..*old(rec)
        }),
{
    rec.current_signers.push(caller.clone());
    let complete = DocumentRegistry::all_required_signed(rec);
    if complete {
        rec.document_status = DocumentStatus::FullySigned;
        rec.timestamp_final = Some(now);
    } else if rec.document_status == DocumentStatus::Pending {
        rec.document_status = DocumentStatus::PartiallySigned;
    }
    complete
}

/// Logs a signature, and the document's completion where there is one.
fn log_signing(trails: &mut Vec<DocumentTrail>, document_id: &str, signature: AuditEntry, completion: Option<AuditEntry>)
    ensures
        entries_of(final(trails)@, document_id@) == match completion {
            Some(c) => entries_of(old(trails)@, document_id@).push(signature).push(c),
            None => entries_of(old(trails)@, document_id@).push(signature),
        },
{
    add_audit_entry(trails, document_id, signature);
    if let Some(c) = completion {
        add_audit_entry(trails, document_id, c);
    }
}

impl DocumentRegistry {
    /// Where `caller` may sign document `document_id`, its position; else why not.
    pub fn signable(&self, caller: &String, document_id: &String, consent_acknowledged: bool) -> (r: Result<usize, RegistryError>)
        ensures
            r matches Ok(k) ==> k < self.records@.len() && self.position(document_id@) == Some(k as int),
            match document_id_problem(document_id@) {
                Some(p) => r == Err::<usize, RegistryError>(RegistryError::InvalidInput(p)),
                None => if !consent_acknowledged {
                    r == Err::<usize, RegistryError>(RegistryError::ConsentRequired)
                } else {
                    match self.position(document_id@) {
                        None => r == Err::<usize, RegistryError>(RegistryError::NotFound),
                        Some(k) => {
                            let rec = self.records@[k].record;
                            if caller@ != rec.admin_id@ && !lists_text(rec.participants@, caller@) {
                                r == Err::<usize, RegistryError>(RegistryError::Unauthorized)
                            } else if lists_text(rec.current_signers@, caller@) {
                                r matches Err(RegistryError::UpdateConflict(_))
                            } else if !has_consent(entries_of(self.trails@, document_id@), caller@) {
                                r == Err::<usize, RegistryError>(RegistryError::ConsentRequired)
                            } else {
                                r == Ok::<usize, RegistryError>(k as usize) && k < self.records@.len()
                            }
                        },
                    }
                },
            },
    {
        if let Err(e) = validate_document_id(document_id.as_str()) {
            return Err(e);
        }
        if !consent_acknowledged {
            return Err(RegistryError::ConsentRequired);
        }
        let k = match self.find_record(document_id) {
            Some(k) => k,
            None => {
                return Err(RegistryError::NotFound);
            },
        };
        let rec = &self.records[k].record;
        if *caller != rec.admin_id && !contains_text(&rec.participants, caller) {
            return Err(RegistryError::Unauthorized);
        }
        if contains_text(&rec.current_signers, caller) {
            return Err(RegistryError::UpdateConflict(String::from_str("User has already signed this document.")));
        }
        if !self.consent_recorded(document_id, caller) {
            return Err(RegistryError::ConsentRequired);
        }
        Ok(k)
    }

    /// Whether `user` has consented to document `document_id`.
    pub fn consent_recorded(&self, document_id: &String, user: &String) -> (r: bool)
        ensures
            r == has_consent(entries_of(self.trails@, document_id@), user@),
    {
        let ghost p = |t: DocumentTrail| t.document_id@ == document_id@;
        let mut k: usize = 0;
        while k < self.trails.len()
            invariant
                k <= self.trails@.len(),
                p == (|t: DocumentTrail| t.document_id@ == document_id@),
                forall|i: int| 0 <= i < k ==> !p(#[trigger] self.trails@[i]),
            decreases self.trails@.len() - k,
        {
            if self.trails[k].document_id == *document_id {
                proof {
                    lemma_first_match_at(self.trails@, p, k as int);
                }
                let entries = self.trails[k].trail.get_entries();
                assert(entries@ == entries_of(self.trails@, document_id@));
                let mut i: usize = 0;
                while i < entries.len()
                    invariant
                        i <= entries@.len(),
                        entries@ == entries_of(self.trails@, document_id@),
                        forall|j: int| 0 <= j < i ==> !((#[trigger] entries@[j]).user_id@ == user@ && entries@[j].action
                            == AuditAction::ConsentGiven && entries@[j].consent_given == Some(true)),
                    decreases entries@.len() - i,
                {
                    let e = &entries[i];
                    if e.user_id == *user && e.action == AuditAction::ConsentGiven && e.consent_given == Some(true) {
                        return true;
                    }
                    i = i + 1;
                }
                return false;
            }
            k = k + 1;
        }
        proof {
            lemma_first_match_none(self.trails@, p);
        }
        false
    }

    pub fn all_required_signed(rec: &DocumentRecord) -> (r: bool)
        ensures
            r == all_signed(rec.participants@, rec.admin_id@, rec.current_signers@),
    {
        let mut i: usize = 0;
        while i < rec.participants.len()
            invariant
                i <= rec.participants@.len(),
                forall|q: int| 0 <= q < i ==> lists_text(rec.current_signers@, (#[trigger] rec.participants@[q])@),
            decreases rec.participants@.len() - i,
        {
            if !contains_text(&rec.current_signers, &rec.participants[i]) {
                return false;
            }
            i = i + 1;
        }
        contains_text(&rec.current_signers, &rec.admin_id)
    }

    /// `caller`, a party to the document who has consented and not signed yet, signs it. Once
    /// every party has signed, the document is fully signed and its completion is logged.
    #[verifier::rlimit(80)]
    pub fn sign_document(&mut self, caller: &String, now: u64, audit_id: &String, request: SigningRequest) -> (r: Result<(), RegistryError>)
        ensures
            match document_id_problem(request.document_id@) {
                Some(p) => r == Err::<(), RegistryError>(RegistryError::InvalidInput(p)) && *final(self) == *old(self),
                None => if !request.consent_acknowledged {
                    r == Err::<(), RegistryError>(RegistryError::ConsentRequired) && *final(self) == *old(self)
                } else {
                    match old(self).position(request.document_id@) {
                        None => r == Err::<(), RegistryError>(RegistryError::NotFound) && *final(self) == *old(self),
                        Some(k) => {
                            let rec0 = old(self).records@[k].record;
                            let rec1 = final(self).records@[k].record;
                            let before = entries_of(old(self).trails@, request.document_id@);
                            let after = entries_of(final(self).trails@, request.document_id@);
                            let complete = all_signed(rec0.participants@, rec0.admin_id@, rec1.current_signers@);
                            if caller@ != rec0.admin_id@ && !lists_text(rec0.participants@, caller@) {
                                r == Err::<(), RegistryError>(RegistryError::Unauthorized) && *final(self) == *old(self)
                            } else if lists_text(rec0.current_signers@, caller@) {
                                r matches Err(RegistryError::UpdateConflict(_)) && *final(self) == *old(self)
                            } else if !has_consent(before, caller@) {
                                r == Err::<(), RegistryError>(RegistryError::ConsentRequired) && *final(self) == *old(self)
                            } else {
                                &&& r is Ok
                                &&& final(self).records@.len() == old(self).records@.len()
                                &&& forall|j: int| 0 <= j < old(self).records@.len() && j != k ==> (#[trigger] final(self).records@[j]) == old(self).records@[j]
                                &&& final(self).records@[k].document_id == old(self).records@[k].document_id
                                &&& rec1 == DocumentRecord {
                                    current_signers: rec1.current_signers,
                                    document_status: rec1.document_status,
                                    timestamp_final: rec1.timestamp_final,
                                    ..rec0
                                }
                                &&& rec1.current_signers@ == rec0.current_signers@.push(*caller)
                                &&& rec1.document_status == if complete {
                                    DocumentStatus::FullySigned
                                } else if rec0.document_status == DocumentStatus::Pending {
                                    DocumentStatus::PartiallySigned
                                } else {
                                    rec0.document_status
                                }
                                &&& rec1.timestamp_final == if complete { Some(now) } else { rec0.timestamp_final }
                                &&& after.len() == before.len() + if complete { 2int } else { 1int }
                                &&& after.subrange(0, before.len() as int) == before
                                &&& after[before.len() as int] == (AuditEntry {
                                    entry_id: *audit_id,
                                    user_id: *caller,
                                    action: AuditAction::SignatureApplied,
                                    timestamp: now,
                                    consent_given: Some(true),
                                    document_hash_after_action: None,
                                    metadata: request.signature_metadata,
                                })
                                &&& complete ==> {
                                    &&& after.last().action == AuditAction::DocumentCompleted
                                    &&& after.last().user_id@ == "system"@
                                    &&& after.last().document_hash_after_action == rec0.final_hash
                                    &&& after.last().metadata matches Some(m) && m@ == "All "@ + crate::analysis::decimal(
                                        other_signers(rec0.participants@, rec0.admin_id@) + 1,
                                    ) + " required parties have signed."@
                                }
                            }
                        },
                    }
                },
            },
    {
        let SigningRequest { document_id, consent_acknowledged, signature_metadata } = request;
        let k = match self.signable(caller, &document_id, consent_acknowledged) {
            Ok(k) => k,
            Err(e) => {
                return Err(e);
            },
        };
        let complete = sign_record(&mut self.records[k].record, caller, now);
        let signature = AuditEntry {
            entry_id: audit_id.clone(),
            user_id: caller.clone(),
            action: AuditAction::SignatureApplied,
            timestamp: now,
            consent_given: Some(true),
            document_hash_after_action: None,
            metadata: signature_metadata,
        };
        let completion = if complete {
            let rec = &self.records[k].record;
            let parties = required_parties(&rec.participants, &rec.admin_id);
            let mut note = String::from_str("All ");
            let count = crate::analysis::decimal_text(parties);
            note.append(count.as_str());
            note.append(" required parties have signed.");
            Some(
                AuditEntry {
                    entry_id: audit_id.clone(),
                    user_id: String::from_str("system"),
                    action: AuditAction::DocumentCompleted,
                    timestamp: now,
                    consent_given: None,
                    document_hash_after_action: rec.final_hash.clone(),
                    metadata: Some(note),
                },
            )
        } else {
            None
        };
        log_signing(&mut self.trails, document_id.as_str(), signature, completion);
        Ok(())
    }
}

/// Byte-wise lexicographic order, the order of `String`s.
pub open spec fn bytes_before(a: Seq<u8>, b: Seq<u8>) -> bool
    decreases a.len(),
{
    if a.len() == 0 {
        b.len() > 0
    } else if b.len() == 0 {
        false
    } else if a[0] != b[0] {
        a[0] < b[0]
    } else {
        bytes_before(a.drop_first(), b.drop_first())
    }
}

pub open spec fn text_before(a: Seq<char>, b: Seq<char>) -> bool {
    bytes_before(vstd::utf8::encode_utf8(a), vstd::utf8::encode_utf8(b))
}

proof fn lemma_bytes_total(a: Seq<u8>, b: Seq<u8>)
    requires
        a != b,
    ensures
        bytes_before(a, b) || bytes_before(b, a),
    decreases a.len(),
{
    if a.len() == 0 {
        if b.len() == 0 {
            assert(a =~= b);
        }
    } else if b.len() == 0 {
    } else if a[0] == b[0] {
        if a.drop_first() == b.drop_first() {
            assert(a =~= seq![a[0]] + a.drop_first());
            assert(b =~= seq![b[0]] + b.drop_first());
        }
        lemma_bytes_total(a.drop_first(), b.drop_first());
    }
}

proof fn lemma_text_total(a: Seq<char>, b: Seq<char>)
    requires
        a != b,
    ensures
        text_before(a, b) || text_before(b, a),
{
    broadcast use vstd::utf8::encode_utf8_decode_utf8;
    if vstd::utf8::encode_utf8(a) == vstd::utf8::encode_utf8(b) {
        assert(vstd::utf8::decode_utf8(vstd::utf8::encode_utf8(a)) == a);
    } else {
        lemma_bytes_total(vstd::utf8::encode_utf8(a), vstd::utf8::encode_utf8(b));
    }
}

fn text_less(a: &String, b: &String) -> (r: bool)
    ensures
        r == text_before(a@, b@),
{
    let x = a.as_str().as_bytes();
    let y = b.as_str().as_bytes();
    let ghost xs = x@;
    let ghost ys = y@;
    let mut i: usize = 0;
    assert(xs.skip(0) =~= xs);
    assert(ys.skip(0) =~= ys);
    while i < x.len() && i < y.len() && x[i] == y[i]
        invariant
            i <= xs.len(),
            i <= ys.len(),
            xs == x@,
            ys == y@,
            xs == vstd::utf8::encode_utf8(a@),
            ys == vstd::utf8::encode_utf8(b@),
            bytes_before(xs, ys) == bytes_before(xs.skip(i as int), ys.skip(i as int)),
        decreases xs.len() - i,
    {
        assert(xs.skip(i as int).drop_first() =~= xs.skip(i as int + 1));
        assert(ys.skip(i as int).drop_first() =~= ys.skip(i as int + 1));
        i = i + 1;
    }
    if i == x.len() {
        i < y.len()
    } else if i == y.len() {
        false
    } else {
        x[i] < y[i]
    }
}

/// Texts in strictly increasing order, each one before the next.
pub open spec fn ascending(v: Seq<String>) -> bool {
    forall|i: int| 0 <= i < v.len() - 1 ==> text_before((#[trigger] v[i])@, v[i + 1]@)
}

/// Adds `x` to an ascending list unless it is there already, keeping the order.
fn insert_sorted(v: &mut Vec<String>, x: String)
    requires
        ascending(old(v)@),
    ensures
        ascending(final(v)@),
        forall|t: Seq<char>| lists_text(final(v)@, t) <==> (lists_text(old(v)@, t) || t == x@),
{
    let mut p: usize = 0;
    while p < v.len() && text_less(&v[p], &x)
        invariant
            p <= v@.len(),
            v@ == old(v)@,
            ascending(v@),
            forall|q: int| 0 <= q < p ==> text_before((#[trigger] v@[q])@, x@),
        decreases v@.len() - p,
    {
        p = p + 1;
    }
    if p < v.len() && v[p] == x {
        return;
    }
    proof {
        if p < v@.len() {
            lemma_text_total(v@[p as int]@, x@);
        }
    }
    let ghost before = v@;
    let ghost xv = x;
    v.insert(p, x);
    proof {
        lemma_insert_ascending(before, p as int, xv);
        lemma_insert_lists(before, p as int, xv);
    }
}

proof fn lemma_insert_ascending(before: Seq<String>, p: int, x: String)
    requires
        ascending(before),
        0 <= p <= before.len(),
        p > 0 ==> text_before(before[p - 1]@, x@),
        p < before.len() ==> text_before(x@, before[p]@),
    ensures
        ascending(before.insert(p, x)),
{
    let v = before.insert(p, x);
    assert forall|i: int| 0 <= i < v.len() - 1 implies text_before((#[trigger] v[i])@, v[i + 1]@) by {
        if i < p - 1 {
            assert(v[i] == before[i] && v[i + 1] == before[i + 1]);
        } else if i == p - 1 {
            assert(v[i] == before[i] && v[i + 1] == x);
        } else if i == p {
            assert(v[i] == x && v[i + 1] == before[i]);
        } else {
            assert(v[i] == before[i - 1] && v[i + 1] == before[i]);
        }
    }
}

proof fn lemma_insert_lists(before: Seq<String>, p: int, x: String)
    requires
        0 <= p <= before.len(),
    ensures
        forall|t: Seq<char>| lists_text(before.insert(p, x), t) <==> (lists_text(before, t) || t == x@),
{
    let v = before.insert(p, x);
    assert forall|t: Seq<char>| lists_text(v, t) <==> (lists_text(before, t) || t == x@) by {
        if lists_text(v, t) {
            let i = choose|i: int| 0 <= i < v.len() && (#[trigger] v[i])@ == t;
            if i < p {
                assert(v[i] == before[i]);
            } else if i > p {
                assert(v[i] == before[i - 1]);
            }
        }
        if lists_text(before, t) {
            let i = choose|i: int| 0 <= i < before.len() && (#[trigger] before[i])@ == t;
            if i < p {
                assert(v[i] == before[i]);
            } else {
                assert(v[i + 1] == before[i]);
            }
        }
        if t == x@ {
            assert(v[p] == x);
        }
    }
}

impl DocumentRegistry {
    /// Who must sign the document, in ascending order and each once (its participants and
    /// its admin), and who has signed.
    pub fn get_signing_progress(&self, document_id: &String) -> (r: Result<(Vec<String>, Vec<String>), RegistryError>)
        ensures
            match document_id_problem(document_id@) {
                Some(p) => r == Err::<(Vec<String>, Vec<String>), RegistryError>(RegistryError::InvalidInput(p)),
                None => match self.record_of(document_id@) {
                    None => r == Err::<(Vec<String>, Vec<String>), RegistryError>(RegistryError::NotFound),
                    Some(rec) => r matches Ok((required, signed)) && {
                        &&& ascending(required@)
                        &&& forall|t: Seq<char>| lists_text(required@, t) <==> (lists_text(rec.participants@, t)
                            || t == rec.admin_id@)
                        &&& signed@ == rec.current_signers@
                    },
                },
            },
    {
        let rec = match self.get_document_record(document_id) {
            Ok(rec) => rec,
            Err(e) => {
                return Err(e);
            },
        };
        let mut required: Vec<String> = Vec::new();
        let mut i: usize = 0;
        while i < rec.participants.len()
            invariant
                i <= rec.participants@.len(),
                ascending(required@),
                forall|t: Seq<char>| lists_text(required@, t) <==> lists_text(rec.participants@.subrange(0, i as int), t),
            decreases rec.participants@.len() - i,
        {
            let ghost prefix = rec.participants@.subrange(0, i as int);
            let ghost next = rec.participants@.subrange(0, i as int + 1);
            insert_sorted(&mut required, rec.participants[i].clone());
            assert forall|t: Seq<char>| lists_text(next, t) <==> (lists_text(prefix, t) || t == rec.participants@[i as int]@) by {
                if lists_text(next, t) {
                    let q = choose|q: int| 0 <= q < next.len() && (#[trigger] next[q])@ == t;
                    if q < i {
                        assert(prefix[q] == next[q]);
                    }
                }
                if lists_text(prefix, t) {
                    let q = choose|q: int| 0 <= q < prefix.len() && (#[trigger] prefix[q])@ == t;
                    assert(next[q] == prefix[q]);
                }
                if t == rec.participants@[i as int]@ {
                    assert(next[i as int] == rec.participants@[i as int]);
                }
            }
            i = i + 1;
        }
        assert(rec.participants@.subrange(0, i as int) =~= rec.participants@);
        insert_sorted(&mut required, rec.admin_id.clone());
        let signed = rec.current_signers.clone();
        assert(signed@ =~= rec.current_signers@);
        Ok((required, signed))
    }
}

} // verus!
