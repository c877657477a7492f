//! Remote repository paths: parsing the engine's repository URI scheme,
//! building download and listing URIs, and walking paginated listing
//! responses.
//!
//! A repository URI has the shape
//! `hf:// [datasets | spaces] / {username} / {reponame} @ {revision} / {path}`,
//! with the revision defaulting to `main` when absent.
use vstd::prelude::*;

use vstd::slice::{slice_index_get, slice_subrange};
use vstd::string::*;
use vstd::utf8::{
    decode_utf8, encode_utf8, encode_utf8_decode_utf8, encode_utf8_valid_utf8, is_ascii_chars,
    is_ascii_chars_encode_utf8, valid_utf8,
};

verus! {

/// Errors of the repository-path layer.
#[derive(Debug, PartialEq, Eq)]
pub enum HfError {
    /// The URI does not have the repository shape.
    InvalidPath { uri: String },
    /// The URI's bucket is neither of the two known ones.
    InvalidBucket { bucket: String },
    /// A pagination link holds a URI that is not text.
    InvalidLinkEncoding,
}

/// Relies on `memchr::memchr`: the position of the first occurrence of
/// `needle` in `haystack`, if any.
pub assume_specification[ memchr::memchr ](needle: u8, haystack: &[u8]) -> (r: Option<usize>)
    ensures
        match r {
            Some(i) => i < haystack@.len() && haystack@[i as int] == needle && (forall|j: int|
                0 <= j < i ==> haystack@[j] != needle),
            None => forall|j: int| 0 <= j < haystack@.len() ==> haystack@[j] != needle,
        },
;

/// Relies on `std::str::from_utf8`: text exactly when the bytes are valid
/// UTF-8, and then the characters are their decoding.
#[verifier::external_body]
pub fn bytes_to_str<'a>(v: &'a [u8]) -> (r: Option<&'a str>)
    ensures
        r is Some <==> valid_utf8(v@),
        r matches Some(s) ==> s@ == decode_utf8(v@),
{
    std::str::from_utf8(v).ok()
}

/// A byte a URL path position must write as an escape: the controls,
/// space and delete, every non-ASCII byte, and the path set of the URL
/// standard (quote, angle brackets, backtick, hash, question mark,
/// braces).
pub open spec fn spec_url_escaped_byte(b: u8) -> bool {
    b < 0x21 || b > 0x7e || b == 0x22 || b == 0x3c || b == 0x3e || b == 0x60 || b == 0x23 || b
        == 0x3f || b == 0x7b || b == 0x7d
}

/// The uppercase hexadecimal digit of a value below sixteen, as a byte.
pub open spec fn spec_hex_upper(n: u8) -> u8 {
    if n < 10 {
        (0x30 + n) as u8
    } else {
        (0x37 + n) as u8
    }
}

/// The byte form of percent-encoding `bs` for a URL path position:
/// escaped bytes become their three-byte escape, all others pass through.
pub open spec fn spec_url_encode_bytes(bs: Seq<u8>) -> Seq<u8>
    decreases bs,
{
    if bs.len() == 0 {
        Seq::empty()
    } else {
        spec_url_encode_bytes(bs.drop_last()) + (if spec_url_escaped_byte(bs.last()) {
            seq![0x25u8, spec_hex_upper(bs.last() / 16), spec_hex_upper(bs.last() % 16)]
        } else {
            seq![bs.last()]
        })
    }
}

/// The text form of percent-encoding the UTF-8 bytes of a string.
pub open spec fn spec_url_encode(bs: Seq<u8>) -> Seq<char> {
    spec_url_encode_bytes(bs).map_values(|b: u8| b as char)
}

/// Relies on `percent_encoding::percent_encode_byte`: the `%XX` escape of
/// one byte, with uppercase hexadecimal digits.
#[verifier::external_body]
fn percent_encode_byte_bytes(b: u8) -> (r: &'static [u8])
    ensures
        r@ == seq![0x25u8, spec_hex_upper(b / 16), spec_hex_upper(b % 16)],
{
    percent_encoding::percent_encode_byte(b).as_bytes()
}

/// ASCII bytes are valid text and decode to the same characters.
proof fn lemma_ascii_bytes_decode(bytes: Seq<u8>)
    requires
        forall|i: int| 0 <= i < bytes.len() ==> bytes[i] < 128,
    ensures
        valid_utf8(bytes),
        decode_utf8(bytes) == bytes.map_values(|b: u8| b as char),
{
    broadcast use vstd::utf8::group_utf8_lib;

    let chars = bytes.map_values(|b: u8| b as char);
    assert forall|i: int| 0 <= i < chars.len() implies '\0' <= #[trigger] chars[i]
        <= '\u{7f}' by {
        assert(chars[i] == bytes[i] as char);
    }
    assert(is_ascii_chars(chars));
    is_ascii_chars_encode_utf8(chars);
    assert forall|i: int| 0 <= i < bytes.len() implies encode_utf8(chars)[i] == bytes[i] by {
        assert(chars[i] as u8 == encode_utf8(chars)[i]);
        assert((bytes[i] as char) as u8 == bytes[i]);
    }
    assert(encode_utf8(chars) =~= bytes);
    encode_utf8_valid_utf8(chars);
    encode_utf8_decode_utf8(chars);
}

/// Percent-encode text for a URL path position. Which bytes must be
/// escaped is this library's own verified rule; the escape of each byte
/// comes from the outside crate.
#[verifier::loop_isolation(false)]
pub fn percent_encode(s: &str) -> (r: String)
    ensures
        r@ == spec_url_encode(s.spec_bytes()),
{
    let bytes = s.as_bytes();
    let n = bytes.len();
    let mut out: Vec<u8> = Vec::new();
    let mut i: usize = 0;
    while i < n
        invariant
            i <= n,
            n == bytes@.len(),
            out@ == spec_url_encode_bytes(bytes@.take(i as int)),
            forall|k: int| 0 <= k < out@.len() ==> (#[trigger] out@[k]) < 128,
        decreases n - i,
    {
        proof {
            assert(bytes@.take(i + 1).drop_last() =~= bytes@.take(i as int));
            assert(bytes@.take(i + 1).last() == bytes@[i as int]);
        }
        let b = *slice_index_get(bytes, i);
        if b < 0x21 || b > 0x7e || b == 0x22 || b == 0x3c || b == 0x3e || b == 0x60 || b == 0x23
            || b == 0x3f || b == 0x7b || b == 0x7d {
            let esc = percent_encode_byte_bytes(b);
            out.push(*slice_index_get(esc, 0));
            out.push(*slice_index_get(esc, 1));
            out.push(*slice_index_get(esc, 2));
            proof {
                assert(out@ =~= spec_url_encode_bytes(bytes@.take(i + 1)));
            }
        } else {
            out.push(b);
            proof {
                assert(out@ =~= spec_url_encode_bytes(bytes@.take(i + 1)));
            }
        }
        i = i + 1;
    }
    proof {
        assert(bytes@.take(n as int) =~= bytes@);
        lemma_ascii_bytes_decode(out@);
    }
    match bytes_to_str(out.as_slice()) {
        Some(t) => {
            let r = t.to_owned();
            proof {
                assert(r@ =~= spec_url_encode(s.spec_bytes()));
            }
            r
        },
        None => {
            // unreachable: the output is ASCII, hence valid text
            proof {
                assert(false);
            }
            String::new()
        },
    }
}

/// The base URIs of one repository: the listing endpoint and the file
/// download prefix, both ending in a slash.
#[derive(Debug, PartialEq, Eq)]
pub struct HFRepoLocation {
    pub api_base_path: String,
    pub download_base_path: String,
}

impl HFRepoLocation {
    /// Build both base URIs for a repository at a revision.
    pub fn new(bucket: &str, repository: &str, revision: &str) -> (r: HFRepoLocation)
        ensures
            r.api_base_path@ == "https://huggingface.co/api/"@ + spec_url_encode(
                bucket.spec_bytes(),
            ) + "/"@ + spec_url_encode(repository.spec_bytes()) + "/tree/"@ + revision@ + "/"@,
            r.download_base_path@ == "https://huggingface.co/"@ + spec_url_encode(
                bucket.spec_bytes(),
            ) + "/"@ + spec_url_encode(repository.spec_bytes()) + "/resolve/"@ + revision@
                + "/"@,
    {
        let bucket_enc = percent_encode(bucket);
        let repository_enc = percent_encode(repository);
        let api_base_path = String::from_str("https://huggingface.co/api/").concat(
            bucket_enc.as_str(),
        ).concat("/").concat(repository_enc.as_str()).concat("/tree/").concat(revision).concat(
            "/",
        );
        let download_base_path = String::from_str("https://huggingface.co/").concat(
            bucket_enc.as_str(),
        ).concat("/").concat(repository_enc.as_str()).concat("/resolve/").concat(revision).concat(
            "/",
        );
        HFRepoLocation { api_base_path, download_base_path }
    }

    /// The download URI of a file at `rel_path`.
    pub fn get_file_uri(&self, rel_path: &str) -> (r: String)
        ensures
            r@ == self.download_base_path@ + spec_url_encode(rel_path.spec_bytes()),
    {
        let enc = percent_encode(rel_path);
        let base = self.download_base_path.as_str().to_owned();
        base.concat(enc.as_str())
    }

    /// The listing URI of `rel_path`.
    pub fn get_api_uri(&self, rel_path: &str) -> (r: String)
        ensures
            r@ == self.api_base_path@ + spec_url_encode(rel_path.spec_bytes()),
    {
        let enc = percent_encode(rel_path);
        let base = self.api_base_path.as_str().to_owned();
        base.concat(enc.as_str())
    }
}

/// One entry of a repository listing response.
#[derive(Debug, PartialEq, Eq)]
pub struct HFAPIResponse {
    pub type_: String,
    pub path: String,
    pub size: u64,
}

impl HFAPIResponse {
    pub fn is_file(&self) -> (r: bool)
        ensures
            r == (self.type_@ == "file"@),
    {
        self.type_.eq(&String::from_str("file"))
    }

    pub fn is_directory(&self) -> (r: bool)
        ensures
            r == (self.type_@ == "directory"@),
    {
        self.type_.eq(&String::from_str("directory"))
    }

    /// Whether a listing entry survives the walk: directories always, files
    /// only when they hold data.
    pub fn keep_entry(&self) -> (r: bool)
        ensures
            r == (!(self.type_@ == "file"@) || self.size > 0),
    {
        !self.is_file() || self.size > 0
    }
}

/// Byte-lexicographic order of two listing entries' paths, the order the
/// repository walk visits them in.
pub open spec fn spec_entry_le(a: HFAPIResponse, b: HFAPIResponse) -> bool {
    crate::topk::lex_ge(encode_utf8(b.path@), encode_utf8(a.path@))
}

/// Stable insertion of an entry after every entry whose path is not
/// greater.
pub open spec fn spec_insert_entry(s: Seq<HFAPIResponse>, x: HFAPIResponse) -> Seq<HFAPIResponse>
    decreases s,
{
    if s.len() == 0 {
        seq![x]
    } else if spec_entry_le(s[0], x) {
        seq![s[0]] + spec_insert_entry(s.drop_first(), x)
    } else {
        seq![x] + s
    }
}

/// The listing entries in ascending path order, equal paths keeping their
/// original order.
pub open spec fn spec_sort_entries(s: Seq<HFAPIResponse>) -> Seq<HFAPIResponse>
    decreases s,
{
    if s.len() == 0 {
        Seq::empty()
    } else {
        spec_insert_entry(spec_sort_entries(s.drop_last()), s.last())
    }
}

proof fn lemma_insert_entry_len(s: Seq<HFAPIResponse>, x: HFAPIResponse)
    ensures
        spec_insert_entry(s, x).len() == s.len() + 1,
    decreases s,
{
    if s.len() > 0 && spec_entry_le(s[0], x) {
        lemma_insert_entry_len(s.drop_first(), x);
    }
}

proof fn lemma_insert_entry_at(s: Seq<HFAPIResponse>, x: HFAPIResponse, j: int)
    requires
        0 <= j <= s.len(),
        forall|l: int| 0 <= l < j ==> spec_entry_le(#[trigger] s[l], x),
        j < s.len() ==> !spec_entry_le(s[j], x),
    ensures
        spec_insert_entry(s, x) == s.take(j) + seq![x] + s.skip(j),
    decreases s,
{
    if j == 0 {
        if s.len() == 0 {
            assert(seq![x] =~= s.take(0) + seq![x] + s.skip(0));
        } else {
            assert(seq![x] + s =~= s.take(0) + seq![x] + s.skip(0));
        }
    } else {
        assert(spec_entry_le(s[0], x));
        lemma_insert_entry_at(s.drop_first(), x, j - 1);
        assert(s.drop_first().take(j - 1) =~= s.take(j).drop_first());
        assert(seq![s[0]] + (s.drop_first().take(j - 1) + seq![x] + s.drop_first().skip(j - 1))
            =~= s.take(j) + seq![x] + s.skip(j));
    }
}

/// Whether entry `a`'s path is not greater than entry `b`'s.
fn entry_le(a: &HFAPIResponse, b: &HFAPIResponse) -> (r: bool)
    ensures
        r == spec_entry_le(*a, *b),
{
    let ab = a.path.as_str().as_bytes();
    let bb = b.path.as_str().as_bytes();
    let an = ab.len();
    let bn = bb.len();
    let mut i: usize = 0;
    proof {
        assert(bb@.skip(0) =~= bb@);
        assert(ab@.skip(0) =~= ab@);
    }
    #[verifier::loop_isolation(false)]
    while i < an && i < bn
        invariant
            i <= an,
            i <= bn,
            an == ab@.len(),
            bn == bb@.len(),
            crate::topk::lex_ge(bb@, ab@) == crate::topk::lex_ge(
                bb@.skip(i as int),
                ab@.skip(i as int),
            ),
        decreases an - i,
    {
        proof {
            assert(ab@.skip(i as int)[0] == ab@[i as int]);
            assert(bb@.skip(i as int)[0] == bb@[i as int]);
            assert(ab@.skip(i as int).drop_first() =~= ab@.skip(i + 1));
            assert(bb@.skip(i as int).drop_first() =~= bb@.skip(i + 1));
        }
        let x = *slice_index_get(ab, i);
        let y = *slice_index_get(bb, i);
        if y > x {
            return true;
        }
        if y < x {
            return false;
        }
        i = i + 1;
    }
    proof {
        if i >= an {
            assert(ab@.skip(i as int).len() == 0);
        } else {
            assert(bb@.skip(i as int).len() == 0);
            assert(ab@.skip(i as int).len() > 0);
        }
    }
    an <= bn
}

/// Order the listing entries of one directory page set by path, stably:
/// the order the walk emits files and descends into directories.
#[verifier::loop_isolation(false)]
pub fn sort_entries_by_path(entries: Vec<HFAPIResponse>) -> (r: Vec<HFAPIResponse>)
    ensures
        r@ == spec_sort_entries(entries@),
{
    let ghost input = entries@;
    let mut rest = entries;
    let total = rest.len();
    let mut out: Vec<HFAPIResponse> = Vec::new();
    let mut k: usize = 0;
    while rest.len() > 0
        invariant
            k <= total,
            total == input.len(),
            k + rest@.len() == total,
            rest@ == input.skip(k as int),
            out@ == spec_sort_entries(input.take(k as int)),
        decreases rest@.len(),
    {
        let x = rest.remove(0);
        proof {
            assert(input.skip(k as int).drop_first() =~= input.skip(k + 1));
            assert(input.take(k + 1).drop_last() =~= input.take(k as int));
            assert(input.take(k + 1).last() == input[k as int]);
        }
        let mut j: usize = 0;
        while j < out.len() && entry_le(&out[j], &x)
            invariant
                j <= out@.len(),
                forall|l: int| 0 <= l < j ==> spec_entry_le(#[trigger] out@[l], x),
            decreases out@.len() - j,
        {
            j = j + 1;
        }
        let ghost out_old = out@;
        out.insert(j, x);
        proof {
            lemma_insert_entry_at(out_old, x, j as int);
            assert(out@ =~= out_old.take(j as int) + seq![x] + out_old.skip(j as int));
            lemma_insert_entry_len(out_old, x);
        }
        k = k + 1;
    }
    proof {
        assert(input.skip(k as int).len() == 0);
        assert(k == input.len());
        assert(input.take(k as int) =~= input);
    }
    out
}

/// The path components of a repository URI.
#[derive(Debug, PartialEq, Eq)]
pub struct HFPathParts {
    pub bucket: String,
    pub repository: String,
    pub revision: String,
    /// Path relative to the repository root.
    pub path: String,
}

/// The position of the first `c` in `s`, if any.
pub open spec fn spec_find_char(s: Seq<char>, c: char) -> Option<int>
    decreases s,
{
    if s.len() == 0 {
        None
    } else if s[0] == c {
        Some(0)
    } else {
        match spec_find_char(s.drop_first(), c) {
            None => None,
            Some(i) => Some(i + 1),
        }
    }
}

/// What parsing a repository URI yields: its bucket, repository, revision
/// and relative path, or nothing when the URI does not have the shape.
pub open spec fn spec_hf_parse(u: Seq<char>) -> Option<
    (Seq<char>, Seq<char>, Seq<char>, Seq<char>),
> {
    if u.len() < 5 || u[0] != 'h' || u[1] != 'f' || u[2] != ':' || u[3] != '/' || u[4] != '/' {
        None
    } else {
        let rest = u.skip(5);
        match spec_find_char(rest, '/') {
            None => None,
            Some(i) => {
                let bucket = rest.take(i);
                let rest2 = rest.skip(i + 1);
                match spec_find_char(rest2, '/') {
                    None => None,
                    Some(j) => {
                        let after = rest2.skip(j + 1);
                        if after.len() == 0 {
                            None
                        } else {
                            let j2 = j + 1 + (match spec_find_char(after, '/') {
                                Some(l) => l,
                                None => after.len() as int,
                            });
                            let repo_full = rest2.take(j2);
                            let path = if j2 < rest2.len() {
                                rest2.skip(j2 + 1)
                            } else {
                                Seq::empty()
                            };
                            match spec_find_char(repo_full, '@') {
                                Some(a) => Some(
                                    (bucket, repo_full.take(a), repo_full.skip(a + 1), path),
                                ),
                                None => Some((bucket, repo_full, "main"@, path)),
                            }
                        }
                    },
                }
            },
        }
    }
}

/// Find the first `c` at or after position `from` and before `to`.
fn find_char_from(s: &str, from: usize, to: usize, c: char) -> (r: Option<usize>)
    requires
        from <= to,
        to <= s@.len(),
    ensures
        match r {
            Some(i) => from <= i < to && spec_find_char(s@.subrange(from as int, to as int), c)
                == Some(i - from as int),
            None => spec_find_char(s@.subrange(from as int, to as int), c) is None,
        },
{
    let mut i: usize = from;
    #[verifier::loop_isolation(false)]
    while i < to
        invariant
            from <= i <= to,
            spec_find_char(s@.subrange(from as int, to as int), c) == (match spec_find_char(
                s@.subrange(i as int, to as int),
                c,
            ) {
                None => None,
                Some(j) => Some(i - from + j),
            }),
        decreases to - i,
    {
        proof {
            assert(s@.subrange(i as int, to as int)[0] == s@[i as int]);
            assert(s@.subrange(i as int, to as int).drop_first() =~= s@.subrange(
                i + 1,
                to as int,
            ));
        }
        if s.get_char(i) == c {
            return Some(i);
        }
        i = i + 1;
    }
    proof {
        assert(s@.subrange(to as int, to as int).len() == 0);
    }
    None
}

impl HFPathParts {
    /// Extract the path components of a repository URI.
    #[verifier::loop_isolation(false)]
    #[verifier::rlimit(100)]
    pub fn try_from_uri(uri: &str) -> (r: Result<HFPathParts, HfError>)
        ensures
            match r {
                Ok(p) => spec_hf_parse(uri@) matches Some(t) && p.bucket@ == t.0 && p.repository@
                    == t.1 && p.revision@ == t.2 && p.path@ == t.3 && (t.0 == "datasets"@ || t.0
                    == "spaces"@),
                Err(e) => {
                    ||| (spec_hf_parse(uri@) is None && (e matches HfError::InvalidPath {
                        uri: u,
                    } && u@ == uri@))
                    ||| (spec_hf_parse(uri@) matches Some(t) && !(t.0 == "datasets"@ || t.0
                        == "spaces"@) && (e matches HfError::InvalidBucket { bucket } && bucket@
                        == t.0))
                },
            },
    {
        let n = uri.unicode_len();
        let shape_ok = n >= 5 && uri.get_char(0) == 'h' && uri.get_char(1) == 'f' && uri.get_char(
            2,
        ) == ':' && uri.get_char(3) == '/' && uri.get_char(4) == '/';
        if !shape_ok {
            return Err(HfError::InvalidPath { uri: uri.to_owned() });
        }
        proof {
            assert(uri@.subrange(5, n as int) =~= uri@.skip(5));
        }
        // bucket: up to the first slash after the scheme
        let i = match find_char_from(uri, 5, n, '/') {
            Some(i) => i,
            None => {
                return Err(HfError::InvalidPath { uri: uri.to_owned() });
            },
        };
        proof {
            assert(uri@.skip(5).take(i - 5) =~= uri@.subrange(5, i as int));
            assert(uri@.skip(5).skip(i - 5 + 1) =~= uri@.skip(i + 1));
        }
        let bucket = uri.substring_char(5, i).to_owned();
        // repository: username slash reponame, optionally with a revision
        proof {
            assert(uri@.subrange(i + 1, n as int) =~= uri@.skip(i + 1));
        }
        let j = match find_char_from(uri, i + 1, n, '/') {
            Some(j) => j,
            None => {
                return Err(HfError::InvalidPath { uri: uri.to_owned() });
            },
        };
        proof {
            let rest2 = uri@.skip(i + 1);
            assert(spec_find_char(rest2, '/') == Some(j - (i + 1)));
        }
        if j + 1 >= n {
            proof {
                assert(uri@.skip(i + 1).skip(j - i) =~= uri@.skip(j + 1));
            }
            return Err(HfError::InvalidPath { uri: uri.to_owned() });
        }
        proof {
            assert(uri@.skip(i + 1).skip(j - i) =~= uri@.skip(j + 1));
        }
        proof {
            assert(uri@.subrange(j + 1, n as int) =~= uri@.skip(j + 1));
        }
        let j2 = match find_char_from(uri, j + 1, n, '/') {
            Some(l) => l,
            None => n,
        };
        proof {
            let rest2 = uri@.skip(i + 1);
            let after = rest2.skip(j - i);
            assert(after =~= uri@.skip(j + 1));
            let rel_j2 = (j - (i + 1)) + 1 + (match spec_find_char(after, '/') {
                Some(l) => l,
                None => after.len() as int,
            });
            assert(rel_j2 == j2 - (i + 1));
            assert(rest2.take(rel_j2) =~= uri@.subrange(i + 1, j2 as int));
        }
        let repo_full_start = i + 1;
        let path = if j2 < n {
            proof {
                assert(uri@.skip(i + 1).skip(j2 - i) =~= uri@.subrange(j2 + 1, n as int));
            }
            uri.substring_char(j2 + 1, n).to_owned()
        } else {
            String::new()
        };
        // split the repository at the revision marker
        let a = find_char_from(uri, repo_full_start, j2, '@');
        let (repository, revision) = match a {
            Some(a) => {
                proof {
                    let repo_full = uri@.subrange(i + 1, j2 as int);
                    assert(spec_find_char(repo_full, '@') == Some(a - (i + 1)));
                    assert(repo_full.take(a - (i + 1)) =~= uri@.subrange(
                        repo_full_start as int,
                        a as int,
                    ));
                    assert(repo_full.skip(a - (i + 1) + 1) =~= uri@.subrange(a + 1, j2 as int));
                }
                (
                    uri.substring_char(repo_full_start, a).to_owned(),
                    uri.substring_char(a + 1, j2).to_owned(),
                )
            },
            None => {
                proof {
                    let repo_full = uri@.subrange(i + 1, j2 as int);
                    assert(spec_find_char(repo_full, '@') is None);
                }
                (uri.substring_char(repo_full_start, j2).to_owned(), String::from_str("main"))
            },
        };
        // only the two known buckets exist
        let ok = bucket.eq(&String::from_str("datasets")) || bucket.eq(
            &String::from_str("spaces"),
        );
        if !ok {
            return Err(HfError::InvalidBucket { bucket });
        }
        Ok(HFPathParts { bucket, repository, revision, path })
    }
}


/// The position of the first `b` in `s`, if any.
pub open spec fn spec_find_byte(s: Seq<u8>, b: u8) -> Option<int>
    decreases s,
{
    if s.len() == 0 {
        None
    } else if s[0] == b {
        Some(0)
    } else {
        match spec_find_byte(s.drop_first(), b) {
            None => None,
            Some(i) => Some(i + 1),
        }
    }
}

proof fn lemma_find_byte_some(s: Seq<u8>, b: u8, i: int)
    requires
        0 <= i < s.len(),
        s[i] == b,
        forall|j: int| 0 <= j < i ==> s[j] != b,
    ensures
        spec_find_byte(s, b) == Some(i),
    decreases s,
{
    if i > 0 {
        lemma_find_byte_some(s.drop_first(), b, i - 1);
    }
}

proof fn lemma_find_byte_none(s: Seq<u8>, b: u8)
    requires
        forall|j: int| 0 <= j < s.len() ==> s[j] != b,
    ensures
        spec_find_byte(s, b) is None,
    decreases s,
{
    if s.len() > 0 {
        lemma_find_byte_none(s.drop_first(), b);
    }
}

/// Whether the link text starts with the relation marker.
pub open spec fn spec_has_rel_marker(l: Seq<u8>) -> bool {
    l.len() >= 5 && l[0] == 114u8 && l[1] == 101u8 && l[2] == 108u8 && l[3] == 61u8 && l[4]
        == 34u8
}

/// The suffix of the link text starting at the next relation marker.
pub open spec fn spec_skip_to_rel(l: Seq<u8>) -> Option<Seq<u8>>
    decreases l,
{
    if spec_has_rel_marker(l) {
        Some(l)
    } else if l.len() == 0 {
        None
    } else {
        spec_skip_to_rel(l.drop_first())
    }
}

proof fn lemma_skip_to_rel_len(l: Seq<u8>)
    ensures
        spec_skip_to_rel(l) matches Some(t) ==> t.len() <= l.len() && spec_has_rel_marker(t),
    decreases l,
{
    if !spec_has_rel_marker(l) && l.len() > 0 {
        lemma_skip_to_rel_len(l.drop_first());
    }
}

/// What scanning a pagination `link` header for relation `rel` yields:
/// the bytes of the first angle-bracketed URI whose following relation
/// marker carries exactly `rel`.
pub open spec fn spec_find_link(link: Seq<u8>, rel: Seq<u8>) -> Option<Seq<u8>>
    decreases link.len(),
        via spec_find_link_decreases
{
    if link.len() == 0 {
        None
    } else {
        match spec_find_byte(link, 60u8) {
            None => None,
            Some(i) => {
                let l1 = link.skip(i + 1);
                match spec_find_byte(l1, 62u8) {
                    None => None,
                    Some(j) => {
                        let uri = l1.take(j);
                        let l2 = l1.skip(j + 1);
                        match spec_skip_to_rel(l2) {
                            None => None,
                            Some(l3) => {
                                let l4 = l3.skip(5);
                                match spec_find_byte(l4, 34u8) {
                                    None => None,
                                    Some(q) => {
                                        if l4.take(q) == rel {
                                            Some(uri)
                                        } else {
                                            spec_find_link(l4, rel)
                                        }
                                    },
                                }
                            },
                        }
                    },
                }
            },
        }
    }
}

#[via_fn]
proof fn spec_find_link_decreases(link: Seq<u8>, rel: Seq<u8>) {
    if link.len() > 0 {
        match spec_find_byte(link, 60u8) {
            None => {},
            Some(i) => {
                lemma_find_byte_ge0(link, 60u8);
                let l1 = link.skip(i + 1);
                match spec_find_byte(l1, 62u8) {
                    None => {},
                    Some(j) => {
                        lemma_find_byte_ge0(l1, 62u8);
                        let l2 = l1.skip(j + 1);
                        lemma_skip_to_rel_len(l2);
                        match spec_skip_to_rel(l2) {
                            None => {},
                            Some(l3) => {
                                assert(l3.len() >= 5);
                                let l4 = l3.skip(5);
                                assert(l4.len() < link.len());
                            },
                        }
                    },
                }
            },
        }
    }
}

proof fn lemma_find_byte_ge0(s: Seq<u8>, b: u8)
    ensures
        spec_find_byte(s, b) matches Some(i) ==> 0 <= i < s.len(),
    decreases s,
{
    if s.len() > 0 && s[0] != b {
        lemma_find_byte_ge0(s.drop_first(), b);
    }
}

/// Whether a range of the link equals the wanted relation bytes.
fn range_matches(link: &Vec<u8>, start: usize, len_r: usize, rel: &Vec<u8>) -> (r: bool)
    requires
        start + len_r <= link@.len(),
    ensures
        r == (link@.subrange(start as int, start + len_r) == rel@),
{
    if len_r != rel.len() {
        proof {
            assert(link@.subrange(start as int, start + len_r).len() == len_r);
        }
        return false;
    }
    let nn = link.len();
    let mut t: usize = 0;
    #[verifier::loop_isolation(false)]
    while t < len_r
        invariant
            t <= len_r,
            nn == link@.len(),
            start + len_r <= nn,
            forall|l: int| 0 <= l < t ==> link@[start + l] == rel@[l],
        decreases len_r - t,
    {
        if link[start + t] != rel[t] {
            proof {
                assert(link@.subrange(start as int, start + len_r)[t as int] != rel@[t as int]);
            }
            return false;
        }
        t = t + 1;
    }
    proof {
        assert(link@.subrange(start as int, start + len_r) =~= rel@);
    }
    true
}

/// Scan a pagination `link` header for the URI of relation `rel` (as the
/// response's `next` or `last` relation). Yields nothing when no entry
/// carries the relation, and an encoding error when the URI bytes are not
/// text.
#[verifier::loop_isolation(false)]
#[verifier::rlimit(100)]
pub fn find_link(link: &Vec<u8>, rel: &Vec<u8>) -> (r: Option<Result<String, HfError>>)
    ensures
        match spec_find_link(link@, rel@) {
            None => r is None,
            Some(ub) => r matches Some(x) && (if valid_utf8(ub) {
                x matches Ok(s) && s@ == decode_utf8(ub)
            } else {
                x == Err::<String, HfError>(HfError::InvalidLinkEncoding)
            }),
        },
{
    let n = link.len();
    let mut pos: usize = 0;
    proof {
        assert(link@.skip(0) =~= link@);
    }
    while pos < n
        invariant
            pos <= n,
            n == link@.len(),
            spec_find_link(link@, rel@) == spec_find_link(link@.skip(pos as int), rel@),
        decreases n - pos,
    {
        // the URI opener
        let sub1 = slice_subrange(link.as_slice(), pos, n);
        proof {
            assert(sub1@ =~= link@.skip(pos as int));
        }
        let i = match memchr::memchr(60u8, sub1) {
            None => {
                proof {
                    lemma_find_byte_none(link@.skip(pos as int), 60u8);
                }
                return None;
            },
            Some(i) => {
                proof {
                    lemma_find_byte_some(link@.skip(pos as int), 60u8, i as int);
                }
                i
            },
        };
        let p1 = pos + i + 1;
        proof {
            assert(link@.skip(pos as int).skip(i + 1) =~= link@.skip(p1 as int));
        }
        // the URI closer
        let sub2 = slice_subrange(link.as_slice(), p1, n);
        proof {
            assert(sub2@ =~= link@.skip(p1 as int));
        }
        let j = match memchr::memchr(62u8, sub2) {
            None => {
                proof {
                    lemma_find_byte_none(link@.skip(p1 as int), 62u8);
                }
                return None;
            },
            Some(j) => {
                proof {
                    lemma_find_byte_some(link@.skip(p1 as int), 62u8, j as int);
                }
                j
            },
        };
        let ghost uri_v = link@.skip(p1 as int).take(j as int);
        let p2 = p1 + j + 1;
        proof {
            assert(link@.skip(p1 as int).skip(j + 1) =~= link@.skip(p2 as int));
        }
        // the relation marker
        let mut q = p2;
        proof {
            assert(link@.skip(p2 as int).len() == n - p2);
        }
        while !(n - q >= 5 && link[q] == 114 && link[q + 1] == 101 && link[q + 2] == 108 && link[
            q + 3] == 61 && link[q + 4] == 34)
            invariant
                p2 <= q <= n,
                spec_skip_to_rel(link@.skip(p2 as int)) == spec_skip_to_rel(
                    link@.skip(q as int),
                ),
            decreases n - q,
        {
            proof {
                assert(!spec_has_rel_marker(link@.skip(q as int)));
            }
            if q >= n {
                proof {
                    assert(link@.skip(q as int).len() == 0);
                }
                return None;
            }
            proof {
                assert(link@.skip(q as int).drop_first() =~= link@.skip(q + 1));
            }
            q = q + 1;
        }
        proof {
            assert(spec_has_rel_marker(link@.skip(q as int)));
            assert(spec_skip_to_rel(link@.skip(p2 as int)) == Some(link@.skip(q as int)));
        }
        let p4 = q + 5;
        proof {
            assert(link@.skip(q as int).skip(5) =~= link@.skip(p4 as int));
        }
        // the relation's closing quote
        let sub3 = slice_subrange(link.as_slice(), p4, n);
        proof {
            assert(sub3@ =~= link@.skip(p4 as int));
        }
        let qq = match memchr::memchr(34u8, sub3) {
            None => {
                proof {
                    lemma_find_byte_none(link@.skip(p4 as int), 34u8);
                }
                return None;
            },
            Some(qq) => {
                proof {
                    lemma_find_byte_some(link@.skip(p4 as int), 34u8, qq as int);
                }
                qq
            },
        };
        let is_match = range_matches(link, p4, qq, rel);
        proof {
            assert(link@.skip(p4 as int).take(qq as int) =~= link@.subrange(p4 as int, p4 + qq));
        }
        if is_match {
            proof {
                assert(spec_find_link(link@.skip(pos as int), rel@) == Some(uri_v));
            }
            let uri_slice = slice_subrange(link.as_slice(), p1, p1 + j);
            proof {
                assert(uri_slice@ =~= uri_v);
            }
            match bytes_to_str(uri_slice) {
                Some(s) => {
                    return Some(Ok(s.to_owned()));
                },
                None => {
                    return Some(Err(HfError::InvalidLinkEncoding));
                },
            }
        }
        proof {
            assert(spec_find_link(link@.skip(pos as int), rel@) == spec_find_link(
                link@.skip(p4 as int),
                rel@,
            ));
        }
        pos = p4;
    }
    proof {
        assert(link@.skip(n as int).len() == 0);
    }
    None
}

} // verus!
