//! Documents: dated, tagged entries identified by a hash of their content.
use vstd::prelude::*;
use vstd::utf8::encode_utf8;

use crate::text::{chars_of, str_eq};

verus! {

/// A point in time, in milliseconds since 1970-01-01T00:00:00Z.
#[derive(Clone, Copy, Debug, PartialEq, Eq, Structural)]
pub struct Timestamp {
    pub millis: i64,
}

/// Title, date and tags of a document.
pub struct Metadata {
    /// Document title.
    pub title: String,
    /// Document date.
    pub date: Timestamp,
    /// Document tags.
    pub tags: Vec<String>,
}

/// A document of the search index.
pub struct Document {
    /// Unique document identifier.
    pub id: String,
    /// Title, date and tags.
    pub metadata: Metadata,
    /// Body text.
    pub text: String,
}

/// A document as a mathematical value.
pub struct DocumentView {
    pub id: Seq<char>,
    pub title: Seq<char>,
    pub date: Timestamp,
    pub tags: Seq<Seq<char>>,
    pub text: Seq<char>,
}

/// The characters of each string.
pub open spec fn strings_view(v: Seq<String>) -> Seq<Seq<char>> {
    v.map_values(|s: String| s@)
}

impl View for Document {
    type V = DocumentView;

    open spec fn view(&self) -> DocumentView {
        DocumentView {
            id: self.id@,
            title: self.metadata.title@,
            date: self.metadata.date,
            tags: strings_view(self.metadata.tags@),
            text: self.text@,
        }
    }
}

/// The view of each document.
pub open spec fn documents_view(v: Seq<Document>) -> Seq<DocumentView> {
    v.map_values(|d: Document| d@)
}

/// What SHA-256 gives for `data`.
pub uninterp spec fn sha256_of(data: Seq<u8>) -> Seq<u8>;

/// Relies on `sha2::Sha256::digest`: the 32-byte SHA-256 digest of `data`.
#[verifier::external_body]
pub(crate) fn sha256(data: &[u8]) -> (r: Vec<u8>)
    ensures
        r@ == sha256_of(data@),
        r@.len() == 32,
{
    <sha2::Sha256 as sha2::Digest>::digest(data).to_vec()
}

/// The lower-case hexadecimal digit of `n < 16`.
pub open spec fn hex_digit(n: u8) -> char {
    if n < 10 {
        (('0' as u8) + n) as char
    } else {
        (('a' as u8) + (n - 10)) as char
    }
}

/// Two lower-case hexadecimal digits for each byte, high half first.
pub open spec fn hex_of(b: Seq<u8>) -> Seq<char> {
    Seq::new(
        2 * b.len(),
        |i: int|
            if i % 2 == 0 {
                hex_digit(b[i / 2] / 16)
            } else {
                hex_digit(b[i / 2] % 16)
            },
    )
}

/// Relies on `hex::encode`: two lower-case hexadecimal digits per byte.
#[verifier::external_body]
pub(crate) fn hex_encode(b: &[u8]) -> (r: String)
    ensures
        r@ == hex_of(b@),
{
    hex::encode(b)
}

/// Relies on `uuid::Uuid::new_v4` and its hyphenated text form: a random
/// identifier. Nothing is assumed of the value.
#[verifier::external_body]
fn random_id() -> (r: String) {
    uuid::Uuid::new_v4().to_string()
}

/// The bytes that identify a document's content: the UTF-8 title, a zero
/// byte, then the UTF-8 body.
pub open spec fn content_bytes(title: Seq<char>, text: Seq<char>) -> Seq<u8> {
    encode_utf8(title) + seq![0u8] + encode_utf8(text)
}

/// The content hash of a title and body: the first 16 hexadecimal digits of
/// the SHA-256 digest of their content bytes.
pub open spec fn content_hash_of(title: Seq<char>, text: Seq<char>) -> Seq<char> {
    hex_of(sha256_of(content_bytes(title, text)).take(8))
}

/// Whether `s` holds the separator ` / ` at `i`.
pub open spec fn sep_at(s: Seq<char>, i: int) -> bool {
    0 <= i && i + 3 <= s.len() && s[i] == ' ' && s[i + 1] == '/' && s[i + 2] == ' '
}

/// Where the next separator at or after `from` starts, or the length of `s`.
pub open spec fn next_sep(s: Seq<char>, from: int) -> int
    decreases s.len() - from,
{
    if from < 0 || from + 3 > s.len() {
        s.len() as int
    } else if sep_at(s, from) {
        from
    } else {
        next_sep(s, from + 1)
    }
}

proof fn lemma_next_sep_bounds(s: Seq<char>, from: int)
    requires
        0 <= from <= s.len(),
    ensures
        from <= next_sep(s, from) <= s.len(),
        next_sep(s, from) < s.len() ==> sep_at(s, next_sep(s, from)),
    decreases s.len() - from,
{
    if from + 3 <= s.len() && !sep_at(s, from) {
        lemma_next_sep_bounds(s, from + 1);
    }
}

/// Finds `next_sep(s, from)`.
fn find_sep(s: &Vec<char>, from: usize) -> (r: usize)
    requires
        from <= s@.len(),
    ensures
        r == next_sep(s@, from as int),
{
    let mut i = from;
    while i < s.len() && s.len() - i >= 3
        invariant
            from <= i <= s@.len(),
            next_sep(s@, from as int) == next_sep(s@, i as int),
        decreases s@.len() - i,
    {
        if s[i] == ' ' && s[i + 1] == '/' && s[i + 2] == ' ' {
            return i;
        }
        i = i + 1;
    }
    s.len()
}

/// Copies a list of strings.
pub fn copy_strings(v: &Vec<String>) -> (r: Vec<String>)
    ensures
        r@ == v@,
{
    let mut r: Vec<String> = Vec::new();
    let mut i: usize = 0;
    while i < v.len()
        invariant
            i <= v@.len(),
            r@ == v@.take(i as int),
        decreases v@.len() - i,
    {
        r.push(v[i].clone());
        i = i + 1;
        assert(r@ =~= v@.take(i as int));
    }
    assert(v@.take(v@.len() as int) =~= v@);
    r
}

/// Whether `tag` is among `tags`.
pub open spec fn has_tag_in(tags: Seq<String>, tag: Seq<char>) -> bool {
    exists|i: int| 0 <= i < tags.len() && tags[i]@ == tag
}

/// `has_tag_in` is membership in the view of the tags.
pub proof fn lemma_has_tag_view(tags: Seq<String>, tag: Seq<char>)
    ensures
        has_tag_in(tags, tag) == strings_view(tags).contains(tag),
{
    let tv = strings_view(tags);
    if tv.contains(tag) {
        let j = choose|j: int| 0 <= j < tv.len() && tv[j] == tag;
        assert(tags[j]@ == tag);
    }
    if has_tag_in(tags, tag) {
        let j = choose|j: int| 0 <= j < tags.len() && tags[j]@ == tag;
        assert(tv[j] == tag);
    }
}

impl Document {
    /// A document with a fresh random ID.
    pub fn new(title: String, date: Timestamp, tags: Vec<String>, text: String) -> (r: Self)
        ensures
            r.metadata.title == title,
            r.metadata.date == date,
            r.metadata.tags == tags,
            r.text == text,
    {
        Document { id: random_id(), metadata: Metadata { title, date, tags }, text }
    }

    /// A document with the given ID.
    pub fn with_id(id: String, title: String, date: Timestamp, tags: Vec<String>, text: String) -> (r:
        Self)
        ensures
            r.id == id,
            r.metadata.title == title,
            r.metadata.date == date,
            r.metadata.tags == tags,
            r.text == text,
    {
        Document { id, metadata: Metadata { title, date, tags }, text }
    }

    /// The content hash of a title and body: 16 hexadecimal digits taken from
    /// the SHA-256 digest of `title`, a zero byte and `text`.
    pub fn compute_content_hash(title: &str, text: &str) -> (r: String)
        ensures
            r@ == content_hash_of(title@, text@),
            r@.len() == 16,
    {
        let tb = title.as_bytes();
        let xb = text.as_bytes();
        let mut data: Vec<u8> = Vec::new();
        let mut i: usize = 0;
        while i < tb.len()
            invariant
                i <= tb@.len(),
                data@ == tb@.take(i as int),
            decreases tb@.len() - i,
        {
            data.push(tb[i]);
            i = i + 1;
            assert(data@ =~= tb@.take(i as int));
        }
        data.push(0u8);
        let mut j: usize = 0;
        while j < xb.len()
            invariant
                j <= xb@.len(),
                data@ == tb@ + seq![0u8] + xb@.take(j as int),
            decreases xb@.len() - j,
        {
            data.push(xb[j]);
            j = j + 1;
            assert(data@ =~= tb@ + seq![0u8] + xb@.take(j as int));
        }
        assert(tb@.take(tb@.len() as int) =~= tb@);
        assert(xb@.take(xb@.len() as int) =~= xb@);
        assert(data@ == content_bytes(title@, text@));
        let digest = sha256(data.as_slice());
        let mut head: Vec<u8> = Vec::new();
        let mut k: usize = 0;
        while k < 8
            invariant
                k <= 8,
                digest@.len() == 32,
                head@ == digest@.take(k as int),
            decreases 8 - k,
        {
            head.push(digest[k]);
            k = k + 1;
            assert(head@ =~= digest@.take(k as int));
        }
        hex_encode(head.as_slice())
    }

    /// A document whose ID is the content hash of its title and body.
    pub fn with_content_id(title: String, date: Timestamp, tags: Vec<String>, text: String) -> (r:
        Self)
        ensures
            r.id@ == content_hash_of(title@, text@),
            r.metadata.title == title,
            r.metadata.date == date,
            r.metadata.tags == tags,
            r.text == text,
    {
        let id = Self::compute_content_hash(title.as_str(), text.as_str());
        Document { id, metadata: Metadata { title, date, tags }, text }
    }

    /// The hash of this document's title and body; tags and date play no part.
    pub open spec fn spec_content_hash(&self) -> Seq<char> {
        content_hash_of(self.metadata.title@, self.text@)
    }

    /// The content hash of this document's title and body.
    pub fn content_hash(&self) -> (r: String)
        ensures
            r@ == self.spec_content_hash(),
    {
        Self::compute_content_hash(self.metadata.title.as_str(), self.text.as_str())
    }

    /// The title.
    pub fn title(&self) -> (r: &str)
        ensures
            r@ == self.metadata.title@,
    {
        self.metadata.title.as_str()
    }

    /// The date.
    pub fn date(&self) -> (r: Timestamp)
        ensures
            r == self.metadata.date,
    {
        self.metadata.date
    }

    /// The tags, in their given order.
    pub fn tags(&self) -> (r: &[String])
        ensures
            r@ == self.metadata.tags@,
    {
        self.metadata.tags.as_slice()
    }

    /// Whether `tag` is one of this document's tags.
    pub fn has_tag(&self, tag: &str) -> (r: bool)
        ensures
            r == has_tag_in(self.metadata.tags@, tag@),
    {
        let mut i: usize = 0;
        while i < self.metadata.tags.len()
            invariant
                i <= self.metadata.tags@.len(),
                forall|j: int| 0 <= j < i ==> self.metadata.tags@[j]@ != tag@,
            decreases self.metadata.tags@.len() - i,
        {
            if str_eq(self.metadata.tags[i].as_str(), tag) {
                return true;
            }
            i = i + 1;
        }
        false
    }

    /// The category: the part of the title before the first ` / `, or the
    /// whole title when it has none; `None` for an empty title.
    pub fn category(&self) -> (r: Option<&str>)
        ensures
            self.metadata.title@.len() == 0 ==> r is None,
            self.metadata.title@.len() > 0 ==> r is Some && r->0@ == self.metadata.title@.take(
                next_sep(self.metadata.title@, 0),
            ),
    {
        let t = self.metadata.title.as_str();
        let cs = chars_of(t);
        if cs.len() == 0 {
            return None;
        }
        let p = find_sep(&cs, 0);
        proof {
            lemma_next_sep_bounds(cs@, 0);
        }
        Some(t.substring_char(0, p))
    }

    /// The subcategory: the part of the title between the first ` / ` and the
    /// next one (or the end); `None` when the title has no ` / `.
    pub fn subcategory(&self) -> (r: Option<&str>)
        ensures
            ({
                let s = self.metadata.title@;
                let p = next_sep(s, 0);
                if p < s.len() {
                    r is Some && r->0@ == s.subrange(p + 3, next_sep(s, p + 3))
                } else {
                    r is None
                }
            }),
    {
        let t = self.metadata.title.as_str();
        let cs = chars_of(t);
        let p = find_sep(&cs, 0);
        proof {
            lemma_next_sep_bounds(cs@, 0);
        }
        if p < cs.len() {
            let q = find_sep(&cs, p + 3);
            proof {
                lemma_next_sep_bounds(cs@, p + 3);
            }
            Some(t.substring_char(p + 3, q))
        } else {
            None
        }
    }

    /// An exact copy of this document.
    pub fn duplicate(&self) -> (r: Self)
        ensures
            r@ == self@,
            r.id@ == self.id@,
            r.metadata.title@ == self.metadata.title@,
            r.metadata.date == self.metadata.date,
            r.metadata.tags@ == self.metadata.tags@,
            r.text@ == self.text@,
            r.spec_content_hash() == self.spec_content_hash(),
    {
        Document {
            id: self.id.clone(),
            metadata: Metadata {
                title: self.metadata.title.clone(),
                date: self.metadata.date,
                tags: copy_strings(&self.metadata.tags),
            },
            text: self.text.clone(),
        }
    }
}

/// Two documents with the same title and body have the same content hash,
/// whatever their IDs, tags and dates.
pub proof fn lemma_content_hash_ignores_metadata(a: Document, b: Document)
    requires
        a.metadata.title@ == b.metadata.title@,
        a.text@ == b.text@,
    ensures
        a.spec_content_hash() == b.spec_content_hash(),
{
}

} // verus!
