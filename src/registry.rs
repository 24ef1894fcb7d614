use crate::search::{first_match, lemma_first_match_at, lemma_first_match_none};
use vstd::prelude::*;
use vstd::string::StrSliceExecFns;

verus! {

/// Document ids are at most this many bytes long.
pub const MAX_DOCUMENT_ID_SIZE: usize = 128;

#[derive(PartialEq, Eq, Structural, Clone, Copy, Debug)]
pub enum InvalidField {
    EmptyDocumentId,
    DocumentIdTooLong,
    DocumentIdCharacters,
    HashLength,
    HashNotHex,
}

#[derive(PartialEq, Eq, Debug)]
pub enum RegistryError {
    InvalidInput(InvalidField),
    NotFound,
    AlreadyExists,
    UpdateConflict(String),
    Unauthorized,
    DocumentNotReady,
    ConsentRequired,
}

#[derive(PartialEq, Eq, Structural, Clone, Copy, Debug)]
pub enum AuditAction {
    DocumentUploaded,
    DocumentViewed,
    ConsentGiven,
    SignatureApplied,
    DocumentCompleted,
    SignerAdded,
}

pub struct AuditEntry {
    pub entry_id: String,
    pub user_id: String,
    pub action: AuditAction,
    pub timestamp: u64,
    pub consent_given: Option<bool>,
    pub document_hash_after_action: Option<String>,
    pub metadata: Option<String>,
}

/// The append-only audit entries of one document.
pub struct AuditTrail {
    pub entries: Vec<AuditEntry>,
}

/// One document's audit trail, under the document's id.
pub struct DocumentTrail {
    pub document_id: String,
    pub trail: AuditTrail,
}

impl AuditTrail {
    pub fn new() -> (r: AuditTrail)
        ensures
            r.entries@.len() == 0,
    {
        AuditTrail { entries: Vec::new() }
    }

    pub fn add_entry(&mut self, entry: AuditEntry)
        ensures
            final(self).entries@ == old(self).entries@.push(entry),
    {
        self.entries.push(entry);
    }

    pub fn get_entries(&self) -> (r: &Vec<AuditEntry>)
        ensures
            r == &self.entries,
    {
        &self.entries
    }
}

/// The trail of `document_id` among `trails`: the first one under that id.
pub open spec fn trail_position(trails: Seq<DocumentTrail>, document_id: Seq<char>) -> Option<int> {
    first_match(trails, |t: DocumentTrail| t.document_id@ == document_id)
}

/// The audit entries recorded for `document_id`; none where it has no trail.
pub open spec fn entries_of(trails: Seq<DocumentTrail>, document_id: Seq<char>) -> Seq<AuditEntry> {
    match trail_position(trails, document_id) {
        Some(k) => trails[k].trail.entries@,
        None => Seq::empty(),
    }
}

/// Appends `entry` to the trail of `document_id`, starting a trail for it where there is none.
pub fn add_audit_entry(trails: &mut Vec<DocumentTrail>, document_id: &str, entry: AuditEntry)
    ensures
        entries_of(final(trails)@, document_id@) == entries_of(old(trails)@, document_id@).push(entry),
        match trail_position(old(trails)@, document_id@) {
            Some(k) => {
                &&& final(trails)@.len() == old(trails)@.len()
                &&& forall|j: int| 0 <= j < old(trails)@.len() && j != k ==> (#[trigger] final(trails)@[j]) == old(trails)@[j]
                &&& final(trails)@[k].document_id == old(trails)@[k].document_id
                &&& final(trails)@[k].trail.entries@ == old(trails)@[k].trail.entries@.push(entry)
            },
            None => {
                &&& final(trails)@.len() == old(trails)@.len() + 1
                &&& final(trails)@.subrange(0, old(trails)@.len() as int) == old(trails)@
                &&& final(trails)@.last().document_id@ == document_id@
                &&& final(trails)@.last().trail.entries@ == seq![entry]
            },
        },
{
    let ghost p = |t: DocumentTrail| t.document_id@ == document_id@;
    let key = document_id.to_owned();
    let mut k: usize = 0;
    while k < trails.len()
        invariant
            k <= trails@.len(),
            trails@ == old(trails)@,
            key@ == document_id@,
            p == (|t: DocumentTrail| t.document_id@ == document_id@),
            forall|i: int| 0 <= i < k ==> !p(#[trigger] trails@[i]),
        decreases trails@.len() - k,
    {
        if trails[k].document_id == key {
            proof {
                lemma_first_match_at(trails@, p, k as int);
            }
            let ghost e = entry;
            trails[k].trail.add_entry(entry);
            proof {
                assert forall|i: int| 0 <= i < k implies !p(#[trigger] trails@[i]) by {
                    assert(trails@[i] == old(trails)@[i]);
                }
                lemma_first_match_at(trails@, p, k as int);
            }
            return;
        }
        k = k + 1;
    }
    proof {
        lemma_first_match_none(trails@, p);
    }
    let mut trail = AuditTrail::new();
    trail.add_entry(entry);
    trails.push(DocumentTrail { document_id: key, trail });
    assert(trails@.subrange(0, old(trails)@.len() as int) =~= old(trails)@);
    assert(trails@.last().trail.entries@ =~= seq![entry]);
    proof {
        assert forall|i: int| 0 <= i < old(trails)@.len() implies !p(#[trigger] trails@[i]) by {
            assert(trails@[i] == old(trails)@[i]);
        }
        lemma_first_match_at(trails@, p, old(trails)@.len() as int);
        assert(Seq::<AuditEntry>::empty().push(entry) =~= seq![entry]);
    }
}

/// Whether a character may stand in a document id: a Unicode letter or digit, `-` or `_`.
pub open spec fn id_char_allowed(c: char) -> bool {
    alphanumeric(c) || c == '-' || c == '_'
}

/// Whether a character is alphabetic or numeric in the Unicode sense.
pub uninterp spec fn alphanumeric(c: char) -> bool;

/// Relies on `char::is_alphanumeric`: Unicode's `Alphabetic` or `Numeric` property.
#[verifier::external_body]
fn is_alphanumeric(c: char) -> (r: bool)
    ensures
        r == alphanumeric(c),
        ('a' <= c <= 'z' || 'A' <= c <= 'Z' || '0' <= c <= '9') ==> r,
{
    c.is_alphanumeric()
}

/// What is wrong with a document id, if anything.
pub open spec fn document_id_problem(id: Seq<char>) -> Option<InvalidField> {
    if id.len() == 0 {
        Some(InvalidField::EmptyDocumentId)
    } else if vstd::utf8::encode_utf8(id).len() > MAX_DOCUMENT_ID_SIZE {
        Some(InvalidField::DocumentIdTooLong)
    } else if !(forall|i: int| 0 <= i < id.len() ==> id_char_allowed(#[trigger] id[i])) {
        Some(InvalidField::DocumentIdCharacters)
    } else {
        None
    }
}

/// What is wrong with a document hash, if anything.
pub open spec fn hash_problem(hash: Seq<char>) -> Option<InvalidField> {
    if vstd::utf8::encode_utf8(hash).len() != 64 {
        Some(InvalidField::HashLength)
    } else if !hex_text(vstd::utf8::encode_utf8(hash)) {
        Some(InvalidField::HashNotHex)
    } else {
        None
    }
}

/// Checks a document id: not empty, at most `MAX_DOCUMENT_ID_SIZE` bytes, and made of
/// letters, digits, `-` and `_` only.
pub fn validate_document_id(id: &str) -> (r: Result<(), RegistryError>)
    ensures
        r == match document_id_problem(id@) {
            Some(p) => Err::<(), RegistryError>(RegistryError::InvalidInput(p)),
            None => Ok(()),
        },
{
    if id.is_empty() {
        return Err(RegistryError::InvalidInput(InvalidField::EmptyDocumentId));
    }
    if id.as_bytes().len() > MAX_DOCUMENT_ID_SIZE {
        return Err(RegistryError::InvalidInput(InvalidField::DocumentIdTooLong));
    }
    let n = id.unicode_len();
    let mut i: usize = 0;
    while i < n
        invariant
            i <= n == id@.len(),
            id@.len() != 0,
            vstd::utf8::encode_utf8(id@).len() <= MAX_DOCUMENT_ID_SIZE,
            forall|k: int| 0 <= k < i ==> id_char_allowed(#[trigger] id@[k]),
        decreases n - i,
    {
        let c = id.get_char(i);
        if !(is_alphanumeric(c) || c == '-' || c == '_') {
            assert(!id_char_allowed(id@[i as int]));
            return Err(RegistryError::InvalidInput(InvalidField::DocumentIdCharacters));
        }
        i = i + 1;
    }
    Ok(())
}

pub open spec fn is_hex_digit(b: u8) -> bool {
    (48 <= b <= 57) || (65 <= b <= 70) || (97 <= b <= 102)
}

/// What `hex::decode` accepts: an even number of hex digits, either case.
pub open spec fn hex_text(bytes: Seq<u8>) -> bool {
    bytes.len() % 2 == 0 && forall|i: int| 0 <= i < bytes.len() ==> is_hex_digit(#[trigger] bytes[i])
}

/// Relies on `hex::decode`: it succeeds exactly on an even number of hex digits.
#[verifier::external_body]
fn hex_decodes(text: &str) -> (r: bool)
    ensures
        r == hex_text(vstd::utf8::encode_utf8(text@)),
{
    hex::decode(text).is_ok()
}

/// Checks a document hash: 64 hex digits.
pub fn validate_hash(hash: &str) -> (r: Result<(), RegistryError>)
    ensures
        r == match hash_problem(hash@) {
            Some(p) => Err::<(), RegistryError>(RegistryError::InvalidInput(p)),
            None => Ok(()),
        },
{
    if hash.as_bytes().len() != 64 {
        return Err(RegistryError::InvalidInput(InvalidField::HashLength));
    }
    if !hex_decodes(hash) {
        return Err(RegistryError::InvalidInput(InvalidField::HashNotHex));
    }
    Ok(())
}

} // verus!
