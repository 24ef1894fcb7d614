use vstd::prelude::*;
use vstd::string::{StrSliceExecFns, StringExecFns};

verus! {

/// The result of analysing a contract: a summary, its key clauses, its risks and an overall
/// risk level.
pub struct ContractAnalysis {
    pub summary: String,
    pub key_clauses: Vec<String>,
    pub risks: Vec<String>,
    pub risk_level: String,
}

/// Whether `needle` occurs in `hay` as a contiguous run.
pub open spec fn has_infix(hay: Seq<char>, needle: Seq<char>) -> bool {
    exists|i: int| 0 <= i <= hay.len() - needle.len() && #[trigger] hay.subrange(i, i + needle.len()) == needle
}

/// The lower-case form of a text, by Unicode's case mapping.
pub uninterp spec fn lower_of(s: Seq<char>) -> Seq<char>;

/// Relies on `str::to_lowercase`: the Unicode lower-case mapping of each character.
#[verifier::external_body]
fn lowercase(s: &str) -> (r: String)
    ensures
        r@ == lower_of(s@),
{
    s.to_lowercase()
}

/// Relies on `str::contains`: whether the pattern occurs as a sub-slice.
#[verifier::external_body]
fn text_contains(hay: &str, needle: &str) -> (r: bool)
    ensures
        r == has_infix(hay@, needle@),
{
    hay.contains(needle)
}

/// The risk level that an already lower-cased text states: "High" where it mentions
/// "high", else "Low" where it mentions "low", else "Medium".
pub fn risk_level_of_lowered(lower: &str) -> (r: String)
    ensures
        r@ == if has_infix(lower@, "high"@) {
            "High"@
        } else if has_infix(lower@, "low"@) {
            "Low"@
        } else {
            "Medium"@
        },
{
    if text_contains(lower, "high") {
        String::from_str("High")
    } else if text_contains(lower, "low") {
        String::from_str("Low")
    } else {
        String::from_str("Medium")
    }
}

/// The risk level that a model's answer states, whatever its case.
pub fn extract_risk_level(content: &str) -> (r: String)
    ensures
        r@ == if has_infix(lower_of(content@), "high"@) {
            "High"@
        } else if has_infix(lower_of(content@), "low"@) {
            "Low"@
        } else {
            "Medium"@
        },
{
    let lower = lowercase(content);
    risk_level_of_lowered(lower.as_str())
}

pub open spec fn texts(v: Seq<String>) -> Seq<Seq<char>> {
    v.map_values(|s: String| s@)
}

/// The words of a text: its maximal runs of non-whitespace characters, in order.
pub uninterp spec fn words_of(s: Seq<char>) -> Seq<Seq<char>>;

/// Relies on `str::split_whitespace`: the runs between Unicode whitespace, empty runs left out.
#[verifier::external_body]
fn split_words(s: &str) -> (r: Vec<String>)
    ensures
        texts(r@) == words_of(s@),
{
    let mut words = Vec::new();
    for w in s.split_whitespace() {
        words.push(w.to_string());
    }
    words
}

/// The words joined by single spaces.
pub open spec fn joined(ws: Seq<Seq<char>>) -> Seq<char>
    decreases ws.len(),
{
    if ws.len() == 0 {
        Seq::empty()
    } else if ws.len() == 1 {
        ws[0]
    } else {
        joined(ws.drop_last()) + seq![' '] + ws.last()
    }
}

/// The chunks from word `start` on: windows of `size` words, each starting `overlap` words
/// before the end of the previous one, the last one ending with the last word.
pub open spec fn chunk_windows(words: Seq<Seq<char>>, start: int, size: int, overlap: int) -> Seq<Seq<char>>
    decreases words.len() - start,
{
    if start < 0 || start >= words.len() || size <= overlap || overlap < 0 {
        Seq::empty()
    } else {
        let end = if start + size < words.len() {
            start + size
        } else {
            words.len() as int
        };
        let first = joined(words.subrange(start, end));
        if end >= words.len() {
            seq![first]
        } else {
            seq![first] + chunk_windows(words, end - overlap, size, overlap)
        }
    }
}

fn join_words(words: &Vec<String>, start: usize, end: usize) -> (r: String)
    requires
        start < end <= words@.len(),
    ensures
        r@ == joined(texts(words@).subrange(start as int, end as int)),
{
    let ghost ws = texts(words@);
    let mut out = words[start].clone();
    let mut i: usize = start + 1;
    assert(ws.subrange(start as int, i as int) =~= seq![ws[start as int]]);
    while i < end
        invariant
            start < i <= end <= words@.len(),
            ws == texts(words@),
            out@ == joined(ws.subrange(start as int, i as int)),
        decreases end - i,
    {
        let ghost before = ws.subrange(start as int, i as int);
        out.append(" ");
        out.append(words[i].as_str());
        proof {
            let after = ws.subrange(start as int, i as int + 1);
            assert(after.drop_last() =~= before);
            assert(after.last() == words@[i as int]@);
            reveal_strlit(" ");
        }
        i = i + 1;
    }
    out
}

/// Splits a document into overlapping chunks of `chunk_size` words, each next chunk
/// repeating the last quarter of the one before.
pub fn chunk_document(document: &str, chunk_size: usize) -> (r: Vec<String>)
    requires
        chunk_size > 0,
    ensures
        texts(r@) == chunk_windows(words_of(document@), 0, chunk_size as int, (chunk_size / 4) as int),
{
    let words = split_words(document);
    let ghost ws = texts(words@);
    let n = words.len();
    let overlap = chunk_size / 4;
    let ghost total = chunk_windows(ws, 0, chunk_size as int, overlap as int);
    let mut chunks: Vec<String> = Vec::new();
    let mut start: usize = 0;
    while start < n
        invariant
            start <= n == words@.len() == ws.len(),
            ws == texts(words@),
            ws == words_of(document@),
            overlap == chunk_size / 4,
            chunk_size > 0,
            total == chunk_windows(ws, 0, chunk_size as int, overlap as int),
            texts(chunks@) + chunk_windows(ws, start as int, chunk_size as int, overlap as int) == total,
        decreases n - start,
    {
        let end = if chunk_size < n - start {
            start + chunk_size
        } else {
            n
        };
        let chunk = join_words(&words, start, end);
        let ghost before = texts(chunks@);
        chunks.push(chunk);
        proof {
            assert(texts(chunks@) =~= before.push(chunk@));
        }
        if end >= n {
            assert(texts(chunks@) =~= total);
            return chunks;
        }
        proof {
            assert(texts(chunks@) + chunk_windows(ws, (end - overlap) as int, chunk_size as int, overlap as int)
                =~= before + chunk_windows(ws, start as int, chunk_size as int, overlap as int));
        }
        start = end - overlap;
    }
    assert(chunk_windows(ws, start as int, chunk_size as int, overlap as int) =~= Seq::<Seq<char>>::empty());
    assert(texts(chunks@) =~= total);
    chunks
}

pub open spec fn digit_char(d: nat) -> char {
    if d == 0 { '0' } else if d == 1 { '1' } else if d == 2 { '2' } else if d == 3 { '3' }
    else if d == 4 { '4' } else if d == 5 { '5' } else if d == 6 { '6' } else if d == 7 { '7' }
    else if d == 8 { '8' } else { '9' }
}

/// The decimal digits of `n`, without sign or padding.
pub open spec fn decimal(n: nat) -> Seq<char>
    decreases n,
{
    if n < 10 {
        seq![digit_char(n)]
    } else {
        decimal(n / 10) + seq![digit_char(n % 10)]
    }
}

/// Relies on the `Display` of `u128` (through `to_string`): its decimal digits.
#[verifier::external_body]
pub(crate) fn decimal_text(n: u128) -> (r: String)
    ensures
        r@ == decimal(n as nat),
{
    n.to_string()
}

/// The items as lines `<marker><k>. <item>`, numbered from 1.
pub open spec fn numbered(items: Seq<Seq<char>>, marker: Seq<char>) -> Seq<char>
    decreases items.len(),
{
    if items.len() == 0 {
        Seq::empty()
    } else {
        numbered(items.drop_last(), marker) + marker + decimal(items.len()) + ". "@ + items.last() + "\n"@
    }
}

/// The report that `format_response` renders.
pub open spec fn report(a: ContractAnalysis) -> Seq<char> {
    let keys = texts(a.key_clauses@);
    let risks = texts(a.risks@);
    "# CONTRACT ANALYSIS\n\n"@ + "**Risk Level**: "@ + a.risk_level@ + "\n\n"@ + "## Summary\n"@ + a.summary@
        + "\n\n"@ + (if keys.len() == 0 {
        Seq::empty()
    } else {
        "## Key Points\n"@ + numbered(keys, Seq::empty()) + "\n"@
    }) + (if risks.len() == 0 {
        Seq::empty()
    } else {
        "## Risks\n"@ + numbered(risks, "\u{26a0}\u{fe0f} "@)
    })
}

fn append_numbered(out: &mut String, items: &Vec<String>, marker: &str)
    ensures
        final(out)@ == old(out)@ + numbered(texts(items@), marker@),
{
    let ghost start = out@;
    let mut i: usize = 0;
    while i < items.len()
        invariant
            i <= items@.len(),
            out@ == start + numbered(texts(items@).subrange(0, i as int), marker@),
        decreases items@.len() - i,
    {
        let ghost before = texts(items@).subrange(0, i as int);
        out.append(marker);
        let number = decimal_text(i as u128 + 1);
        out.append(number.as_str());
        out.append(". ");
        out.append(items[i].as_str());
        out.append("\n");
        proof {
            let after = texts(items@).subrange(0, i as int + 1);
            assert(after.drop_last() =~= before);
            assert(after.last() == items@[i as int]@);
            assert(out@ =~= start + numbered(after, marker@));
        }
        i = i + 1;
    }
    assert(texts(items@).subrange(0, i as int) =~= texts(items@));
}

/// Renders an analysis as a markdown report: risk level, summary, then the numbered key
/// points and risks where there are any.
pub fn format_response(analysis: &ContractAnalysis) -> (r: String)
    ensures
        r@ == report(*analysis),
{
    let mut response = String::new();
    response.append("# CONTRACT ANALYSIS\n\n");
    response.append("**Risk Level**: ");
    response.append(analysis.risk_level.as_str());
    response.append("\n\n");
    response.append("## Summary\n");
    response.append(analysis.summary.as_str());
    response.append("\n\n");
    let ghost head = response@;
    if analysis.key_clauses.len() > 0 {
        response.append("## Key Points\n");
        append_numbered(&mut response, &analysis.key_clauses, "");
        response.append("\n");
    }
    let ghost middle = response@;
    if analysis.risks.len() > 0 {
        response.append("## Risks\n");
        append_numbered(&mut response, &analysis.risks, "\u{26a0}\u{fe0f} ");
    }
    proof {
        assert(""@ =~= Seq::<char>::empty()) by {
            reveal_strlit("");
        }
        assert(response@ =~= report(*analysis));
    }
    response
}

/// The lines of a text, as `str::lines` cuts them.
pub uninterp spec fn lines_of(s: Seq<char>) -> Seq<Seq<char>>;

/// A text without its leading and trailing whitespace.
pub uninterp spec fn trim_of(s: Seq<char>) -> Seq<char>;

/// The upper-case form of a text, by Unicode's case mapping.
pub uninterp spec fn upper_of(s: Seq<char>) -> Seq<char>;

/// Relies on `str::lines`: the text cut at `\n` or `\r\n`, with no final empty line.
#[verifier::external_body]
fn split_lines(s: &str) -> (r: Vec<String>)
    ensures
        texts(r@) == lines_of(s@),
{
    let mut lines = Vec::new();
    for line in s.lines() {
        lines.push(line.to_string());
    }
    lines
}

/// Relies on `str::trim`: removes leading and trailing Unicode whitespace.
#[verifier::external_body]
fn trim_text(s: &str) -> (r: String)
    ensures
        r@ == trim_of(s@),
{
    s.trim().to_string()
}

/// Relies on `str::to_uppercase`: the Unicode upper-case mapping of each character.
#[verifier::external_body]
fn uppercase(s: &str) -> (r: String)
    ensures
        r@ == upper_of(s@),
{
    s.to_uppercase()
}

/// Relies on `str::starts_with`: whether the text begins with the pattern.
#[verifier::external_body]
fn text_starts_with(s: &str, prefix: &str) -> (r: bool)
    ensures
        r == prefix@.is_prefix_of(s@),
{
    s.starts_with(prefix)
}

/// The characters of `t` after its first `n` bytes.
pub open spec fn after_bytes(t: Seq<char>, n: int) -> Seq<char> {
    let b = vstd::utf8::encode_utf8(t);
    vstd::utf8::decode_utf8(b.subrange(n, b.len() as int))
}

/// Whether `t`, upper-cased, begins with `label` of `n` bytes, and `t` can be cut after its
/// first `n` bytes.
pub open spec fn labelled(t: Seq<char>, label: Seq<char>, n: int) -> bool {
    label.is_prefix_of(upper_of(t)) && n <= vstd::utf8::encode_utf8(t).len()
        && vstd::utf8::is_char_boundary(vstd::utf8::encode_utf8(t), n)
}

/// What reading one more line of a model's answer does to the notes: a `SUMMARY:` line
/// replaces the summary, a `KEY:` line adds a key point, a `RISKS:` line adds a risk unless
/// it is empty or says "none"; other lines change nothing.
pub open spec fn read_line(
    notes: (Seq<char>, Seq<Seq<char>>, Seq<Seq<char>>),
    line: Seq<char>,
) -> (Seq<char>, Seq<Seq<char>>, Seq<Seq<char>>) {
    let t = trim_of(line);
    if t.len() == 0 {
        notes
    } else if labelled(t, "SUMMARY:"@, 8) {
        (trim_of(after_bytes(t, 8)), notes.1, notes.2)
    } else if labelled(t, "KEY:"@, 4) {
        (notes.0, notes.1.push(trim_of(after_bytes(t, 4))), notes.2)
    } else if labelled(t, "RISKS:"@, 6) {
        let risk = trim_of(after_bytes(t, 6));
        if risk.len() != 0 && !has_infix(lower_of(risk), "none"@) {
            (notes.0, notes.1, notes.2.push(risk))
        } else {
            notes
        }
    } else {
        notes
    }
}

pub open spec fn read_lines(lines: Seq<Seq<char>>) -> (Seq<char>, Seq<Seq<char>>, Seq<Seq<char>>)
    decreases lines.len(),
{
    if lines.len() == 0 {
        (Seq::empty(), Seq::empty(), Seq::empty())
    } else {
        read_line(read_lines(lines.drop_last()), lines.last())
    }
}

/// The text after the first `n` bytes of `t`, where that is a character boundary.
fn cut_after(t: &str, n: usize) -> (r: Option<String>)
    ensures
        match r {
            Some(rest) => n <= vstd::utf8::encode_utf8(t@).len() && vstd::utf8::is_char_boundary(
                vstd::utf8::encode_utf8(t@),
                n as int,
            ) && rest@ == after_bytes(t@, n as int),
            None => !(n <= vstd::utf8::encode_utf8(t@).len() && vstd::utf8::is_char_boundary(
                vstd::utf8::encode_utf8(t@),
                n as int,
            )),
        },
{
    broadcast use vstd::utf8::encode_utf8_decode_utf8;
    if n > t.as_bytes().len() || !t.is_char_boundary(n) {
        return None;
    }
    let (_, rest) = t.split_at(n);
    assert(vstd::utf8::decode_utf8(vstd::utf8::encode_utf8(rest@)) == rest@);
    Some(rest.to_owned())
}

/// Reads a model's answer about one section: its summary (or, without one, the first 100
/// characters of the answer followed by "..."), its key points and its risks.
pub fn parse_response(content: &str) -> (r: (String, Vec<String>, Vec<String>))
    ensures
        ({
            let notes = read_lines(lines_of(content@));
            &&& r.0@ == if notes.0.len() == 0 {
                content@.subrange(0, if content@.len() < 100 { content@.len() as int } else { 100 }) + "..."@
            } else {
                notes.0
            }
            &&& texts(r.1@) == notes.1
            &&& texts(r.2@) == notes.2
        }),
{
    let lines = split_lines(content);
    let mut summary = String::new();
    let mut key_points: Vec<String> = Vec::new();
    let mut risks: Vec<String> = Vec::new();
    let mut i: usize = 0;
    while i < lines.len()
        invariant
            i <= lines@.len(),
            texts(lines@) == lines_of(content@),
            (summary@, texts(key_points@), texts(risks@)) == read_lines(texts(lines@).subrange(0, i as int)),
        decreases lines@.len() - i,
    {
        let ghost prefix = texts(lines@).subrange(0, i as int + 1);
        assert(prefix.drop_last() =~= texts(lines@).subrange(0, i as int));
        assert(prefix.last() == lines@[i as int]@);
        let line = trim_text(lines[i].as_str());
        if line.as_str().is_empty() {
        } else if text_starts_with(uppercase(line.as_str()).as_str(), "SUMMARY:") && cut_after(line.as_str(), 8).is_some() {
            let rest = cut_after(line.as_str(), 8).unwrap();
            summary = trim_text(rest.as_str());
        } else if text_starts_with(uppercase(line.as_str()).as_str(), "KEY:") && cut_after(line.as_str(), 4).is_some() {
            let rest = cut_after(line.as_str(), 4).unwrap();
            let ghost before = texts(key_points@);
            key_points.push(trim_text(rest.as_str()));
            assert(texts(key_points@) =~= before.push(key_points@.last()@));
        } else if text_starts_with(uppercase(line.as_str()).as_str(), "RISKS:") && cut_after(line.as_str(), 6).is_some() {
            let rest = cut_after(line.as_str(), 6).unwrap();
            let risk = trim_text(rest.as_str());
            if !risk.as_str().is_empty() && !text_contains(lowercase(risk.as_str()).as_str(), "none") {
                let ghost before = texts(risks@);
                risks.push(risk);
                assert(texts(risks@) =~= before.push(risks@.last()@));
            }
        }
        i = i + 1;
    }
    assert(texts(lines@).subrange(0, i as int) =~= texts(lines@));
    if summary.as_str().is_empty() {
        let n = content.unicode_len();
        let take = if n < 100 { n } else { 100 };
        let mut head = content.substring_char(0, take).to_owned();
        head.append("...");
        summary = head;
    }
    (summary, key_points, risks)
}

} // verus!
