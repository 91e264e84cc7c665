//! The file cache and the response that serves a static file.

use vstd::prelude::*;
use vstd::string::*;
use crate::error::HttpError;
use crate::fields::{distinct_keys, lemma_key_index_unique, upsert, FieldMap};
use crate::http::{
    http_version, sent_in_chunks, Response, ResponseHeader, ResponseHeaderField,
    ResponseHeaderView, ResponseHeaders, ResponseView, StatusCode, StatusLine, StatusLineView,
    CHUNK_LEN,
};
use crate::numeric::{decimal_digits, lemma_decimal_roundtrip, push_decimal};
use crate::text::{ascii, bytes_eq, last_octet, lit, rfind_octet, to_vec};
use crate::time::{date_1123, spec_date_1123};

verus! {

/// How many octets a kilobyte of the `CacheSize` directive stands for.
pub const BYTES_PER_KILOBYTE: u32 = 1024;

/// What is known of a file: its content and when it was last modified, in
/// seconds since the Unix epoch.
#[derive(Debug)]
pub struct File {
    pub content: Vec<u8>,
    pub modified: i64,
}

/// What reading a file from disk came to.
#[derive(Debug)]
pub enum FileRead {
    /// The file was read.
    Content(File),
    /// There is no such file; the detail is for the operator.
    NotFound(String),
    /// The file could not be read; the detail is for the operator.
    Failed(String),
}

/// The part of a path after its last `/`.
pub open spec fn file_name(path: Seq<u8>) -> Seq<u8> {
    match last_octet(path, 47) {
        Some(i) => path.skip(i + 1),
        None => path,
    }
}

/// The extension of a path: what follows the last `.` of its file name,
/// unless that `.` is the file name's first octet.
pub open spec fn extension(path: Seq<u8>) -> Option<Seq<u8>> {
    match last_octet(file_name(path), 46) {
        Some(i) => if i > 0 {
            Some(file_name(path).skip(i + 1))
        } else {
            None
        },
        None => None,
    }
}

/// The media type that a path's extension stands for.
pub open spec fn content_type(path: Seq<u8>) -> Option<Seq<u8>> {
    match extension(path) {
        Some(e) => if e == ascii("txt"@) {
            Some(ascii("text/plain"@))
        } else if e == ascii("html"@) {
            Some(ascii("text/html"@))
        } else if e == ascii("jpg"@) {
            Some(ascii("image/jpeg"@))
        } else {
            None
        },
        None => None,
    }
}

fn path_extension(path: &[u8]) -> (r: Option<&[u8]>)
    ensures
        r is Some <==> extension(path@) is Some,
        r matches Some(e) ==> extension(path@) == Some(e@),
{
    let n: usize = path.len();
    let name = match rfind_octet(path, 47) {
        Some(i) => vstd::slice::slice_subrange(path, i + 1, n),
        None => path,
    };
    let m: usize = name.len();
    match rfind_octet(name, 46) {
        Some(i) => if i > 0 {
            Some(vstd::slice::slice_subrange(name, i + 1, m))
        } else {
            None
        },
        None => None,
    }
}

fn media_type(path: &[u8]) -> (r: Option<Vec<u8>>)
    ensures
        r is Some <==> content_type(path@) is Some,
        r matches Some(t) ==> content_type(path@) == Some(t@),
{
    proof {
        reveal_strlit("txt");
        reveal_strlit("html");
        reveal_strlit("jpg");
        reveal_strlit("text/plain");
        reveal_strlit("text/html");
        reveal_strlit("image/jpeg");
    }
    match path_extension(path) {
        Some(e) => if bytes_eq(e, lit("txt")) {
            Some(to_vec(lit("text/plain")))
        } else if bytes_eq(e, lit("html")) {
            Some(to_vec(lit("text/html")))
        } else if bytes_eq(e, lit("jpg")) {
            Some(to_vec(lit("image/jpeg")))
        } else {
            None
        },
        None => None,
    }
}

/// The header block of the response that serves a file: the length of the
/// content plus two, the modification date, and the media type where the
/// extension names one.
pub open spec fn file_headers(path: Seq<u8>, content: Seq<u8>, modified_text: Seq<u8>) -> Seq<
    (ResponseHeaderField, Seq<u8>),
> {
    let base = seq![
        (ResponseHeaderField::ContentLength, decimal_digits(content.len() + 2)),
        (ResponseHeaderField::LastModified, modified_text),
    ];
    match content_type(path) {
        Some(t) => base.push((ResponseHeaderField::ContentType, t)),
        None => base,
    }
}

/// The response that serves a file: status 200, the file's headers, and
/// the content as body. There is none where the modification time has no
/// RFC 1123 form.
pub open spec fn file_response(path: Seq<u8>, content: Seq<u8>, modified: i64) -> Option<
    ResponseView,
> {
    match spec_date_1123(modified) {
        Some(text) => Some(
            ResponseView {
                header: ResponseHeaderView {
                    status_line: StatusLineView {
                        http_version: http_version(),
                        status_code: StatusCode::Success,
                    },
                    header_lines: file_headers(path, content, text),
                },
                body: content,
            },
        ),
        None => None,
    }
}

/// A file goes on the wire whole when its content and the line terminator
/// after it come to no more than `CHUNK_LEN` octets, and in chunks when
/// they come to more.
pub proof fn lemma_file_in_chunks_iff_long(path: Seq<u8>, content: Seq<u8>, modified: i64)
    ensures
        file_response(path, content, modified) matches Some(v) ==> (sent_in_chunks(
            v.header.header_lines,
        ) <==> content.len() + 2 > CHUNK_LEN),
{
    if let Some(v) = file_response(path, content, modified) {
        let lines = v.header.header_lines;
        assert(lines[0].0 == ResponseHeaderField::ContentLength);
        assert(lines[1].0 == ResponseHeaderField::LastModified);
        assert(lines.len() == 3 ==> lines[2].0 == ResponseHeaderField::ContentType);
        assert(distinct_keys(lines));
        lemma_key_index_unique(lines, ResponseHeaderField::ContentLength, 0);
        lemma_decimal_roundtrip(content.len() + 2);
    }
}

/// Builds the response that serves a file from what is known of it.
pub fn serve_file(path: &[u8], file: &File) -> (r: Result<Response, HttpError>)
    ensures
        match file_response(path@, file.content@, file.modified) {
            Some(v) => r matches Ok(x) && x@ == v,
            None => r matches Err(e) && e.status == StatusCode::InternalServerError,
        },
{
    proof {
        reveal_strlit("HTTP/1.1");
    }
    let modified_text = match date_1123(file.modified) {
        Some(text) => text,
        None => {
            return Err(
                HttpError {
                    status: StatusCode::InternalServerError,
                    message: Some(String::from_str("Could not format the modification time")),
                },
            );
        },
    };
    let mut header_lines: ResponseHeaders = FieldMap::new();
    let mut length: Vec<u8> = Vec::new();
    push_decimal(&mut length, file.content.len() as u128 + 2);
    assert(length@ =~= decimal_digits(file.content@.len() + 2));
    header_lines.insert(ResponseHeaderField::ContentLength, length);
    header_lines.insert(ResponseHeaderField::LastModified, modified_text);
    match media_type(path) {
        Some(t) => {
            header_lines.insert(ResponseHeaderField::ContentType, t);
        },
        None => {},
    }
    proof {
        let text = spec_date_1123(file.modified)->0;
        let e = Seq::<(ResponseHeaderField, Seq<u8>)>::empty();
        let one = upsert(
            e,
            ResponseHeaderField::ContentLength,
            decimal_digits(file.content@.len() + 2),
        );
        assert(one =~= seq![
            (ResponseHeaderField::ContentLength, decimal_digits(file.content@.len() + 2)),
        ]);
        let two = upsert(one, ResponseHeaderField::LastModified, text);
        assert(one[0].0 == ResponseHeaderField::ContentLength);
        assert(two =~= seq![
            (ResponseHeaderField::ContentLength, decimal_digits(file.content@.len() + 2)),
            (ResponseHeaderField::LastModified, text),
        ]);
        assert(two[0].0 == ResponseHeaderField::ContentLength);
        assert(two[1].0 == ResponseHeaderField::LastModified);
        if let Some(t) = content_type(path@) {
            assert(upsert(two, ResponseHeaderField::ContentType, t) =~= two.push(
                (ResponseHeaderField::ContentType, t),
            ));
        }
        assert(header_lines@ =~= file_headers(path@, file.content@, text));
    }
    Ok(
        Response {
            header: ResponseHeader {
                status_line: StatusLine {
                    http_version: to_vec(lit("HTTP/1.1")),
                    status_code: StatusCode::Success,
                },
                header_lines,
            },
            body: to_vec(file.content.as_slice()),
        },
    )
}

/// A cached file as a mathematical value: path, content, and modification
/// time.
pub type CachedFile = (Seq<u8>, Seq<u8>, i64);

/// The first entry of a cache that holds `path`.
pub open spec fn cache_index(entries: Seq<CachedFile>, path: Seq<u8>) -> Option<int> {
    if exists|i: int| 0 <= i < entries.len() && (#[trigger] entries[i]).0 == path {
        Some(choose|i: int| 0 <= i < entries.len() && (#[trigger] entries[i]).0 == path)
    } else {
        None
    }
}

/// What a cache holds of `path`: content and modification time.
pub open spec fn cached_in(entries: Seq<CachedFile>, path: Seq<u8>) -> Option<(Seq<u8>, i64)> {
    match cache_index(entries, path) {
        Some(i) => Some((entries[i].1, entries[i].2)),
        None => None,
    }
}

/// No two entries of a cache hold the same path.
pub open spec fn distinct_paths(entries: Seq<CachedFile>) -> bool {
    forall|i: int, j: int|
        0 <= i < j < entries.len() ==> (#[trigger] entries[i]).0 != (#[trigger] entries[j]).0
}

/// Whether an outcome serves the given response, or fails with status 500
/// where there is none.
pub open spec fn serves(r: Result<Response, HttpError>, expected: Option<ResponseView>) -> bool {
    match expected {
        Some(v) => r matches Ok(x) && x@ == v,
        None => r matches Err(e) && e.status == StatusCode::InternalServerError,
    }
}

/// Whether an outcome is a failure that answers with `status`.
pub open spec fn refuses<T>(r: Result<T, HttpError>, status: StatusCode) -> bool {
    r matches Err(e) && e.status == status
}

/// Whether an outcome is a failure that answers with `status` and carries
/// the detail `message`.
pub open spec fn refuses_with<T>(r: Result<T, HttpError>, status: StatusCode, message: String)
    -> bool {
    r matches Err(e) && e.status == status && e.message == Some(message)
}

/// The number of octets that a cache of `cache_size` kilobytes is laid out
/// for: as many as that, or as many as the machine word can count.
pub open spec fn capacity_for(cache_size: u32) -> usize {
    if cache_size * BYTES_PER_KILOBYTE <= usize::MAX {
        (cache_size * BYTES_PER_KILOBYTE) as usize
    } else {
        usize::MAX
    }
}

/// The copies of files that were read before, by path. A file that was
/// read once is served from here ever after: nothing leaves the cache.
#[derive(Debug)]
pub struct Files {
    capacity: usize,
    cache: Vec<(Vec<u8>, File)>,
}

impl Files {
    /// The cached files, oldest first.
    pub closed spec fn entries(&self) -> Seq<CachedFile> {
        Seq::new(
            self.cache@.len(),
            |i: int| (self.cache@[i].0@, self.cache@[i].1.content@, self.cache@[i].1.modified),
        )
    }

    /// The number of octets that the cache was laid out for.
    pub closed spec fn capacity(&self) -> usize {
        self.capacity
    }

    #[verifier::type_invariant]
    spec fn distinct(&self) -> bool {
        distinct_paths(self.entries())
    }

    /// What the cache holds of `path`: content and modification time.
    pub open spec fn cached(&self, path: Seq<u8>) -> Option<(Seq<u8>, i64)> {
        cached_in(self.entries(), path)
    }

    /// An empty cache laid out for `cache_size` kilobytes, or for as much
    /// as the machine word can count.
    pub fn new(cache_size: u32) -> (r: Files)
        ensures
            r.entries() == Seq::<CachedFile>::empty(),
            r.capacity() == capacity_for(cache_size),
    {
        assert(BYTES_PER_KILOBYTE == 1024);
        assert(cache_size as u64 * BYTES_PER_KILOBYTE as u64 == cache_size as u64 * 1024);
        let wanted: u64 = cache_size as u64 * BYTES_PER_KILOBYTE as u64;
        let capacity: usize = if wanted <= usize::MAX as u64 {
            wanted as usize
        } else {
            usize::MAX
        };
        let r = Files { capacity, cache: Vec::new() };
        assert(r.entries() =~= Seq::<CachedFile>::empty());
        r
    }

    /// The number of octets that the cache was laid out for.
    pub fn capacity_hint(&self) -> (r: usize)
        ensures
            r == self.capacity(),
    {
        self.capacity
    }

    /// Whether a file that was last modified at `modified` has changed
    /// since the instant `since`; both in seconds since the Unix epoch.
    pub fn modified_since(modified: i64, since: i64) -> (r: bool)
        ensures
            r == (modified > since),
    {
        modified > since
    }

    fn position(&self, path: &[u8]) -> (r: Option<usize>)
        ensures
            distinct_paths(self.entries()),
            r is Some <==> cache_index(self.entries(), path@) is Some,
            r matches Some(i) ==> cache_index(self.entries(), path@) == Some(i as int) && i
                < self.cache@.len(),
    {
        proof {
            use_type_invariant(self);
        }
        let mut i: usize = 0;
        while i < self.cache.len()
            invariant
                i <= self.cache@.len(),
                self.entries().len() == self.cache@.len(),
                distinct_paths(self.entries()),
                forall|j: int| 0 <= j < i ==> (#[trigger] self.entries()[j]).0 != path@,
            decreases self.cache.len() - i,
        {
            if bytes_eq(self.cache[i].0.as_slice(), path) {
                proof {
                    let entries = self.entries();
                    assert(entries[i as int].0 == path@);
                    let k = choose|k: int|
                        0 <= k < entries.len() && (#[trigger] entries[k]).0 == path@;
                    if k < i {
                        assert(entries[k].0 != path@);
                    } else if i < k {
                        assert(entries[i as int].0 != entries[k].0);
                    }
                }
                return Some(i);
            }
            i += 1;
        }
        None
    }

    /// Whether the cache holds a copy of `path`.
    pub fn is_cached(&self, path: &[u8]) -> (r: bool)
        ensures
            r == self.cached(path@) is Some,
    {
        self.position(path).is_some()
    }

    /// The response that serves the file at `path`. A file that the cache
    /// holds is served from there, and `read` is not looked at. Any other
    /// is served from what reading it came to, and enters the cache where
    /// it was read. A file that is missing answers 404, one that could not
    /// be read (or was not read at all) answers 500.
    pub fn get_content(&mut self, path: Vec<u8>, read: Option<FileRead>) -> (r: Result<
        Response,
        HttpError,
    >)
        ensures
            match old(self).cached(path@) {
                Some((content, modified)) => final(self).entries() == old(self).entries()
                    && serves(r, file_response(path@, content, modified)),
                None => match read {
                    Some(FileRead::Content(file)) => final(self).entries() == old(
                        self,
                    ).entries().push((path@, file.content@, file.modified)) && serves(
                        r,
                        file_response(path@, file.content@, file.modified),
                    ),
                    Some(FileRead::NotFound(m)) => final(self).entries() == old(self).entries()
                        && refuses_with(r, StatusCode::NotFound, m),
                    Some(FileRead::Failed(m)) => final(self).entries() == old(self).entries()
                        && refuses_with(r, StatusCode::InternalServerError, m),
                    None => final(self).entries() == old(self).entries() && refuses(
                        r,
                        StatusCode::InternalServerError,
                    ),
                },
            },
            final(self).capacity() == old(self).capacity(),
    {
        match self.position(path.as_slice()) {
            Some(i) => serve_file(path.as_slice(), &self.cache[i].1),
            None => match read {
                Some(FileRead::Content(file)) => {
                    let r = serve_file(path.as_slice(), &file);
                    let ghost before = self.entries();
                    let mut cache: Vec<(Vec<u8>, File)> = Vec::new();
                    std::mem::swap(&mut self.cache, &mut cache);
                    cache.push((path, file));
                    proof {
                        let after = Seq::new(
                            cache@.len(),
                            |i: int| (cache@[i].0@, cache@[i].1.content@, cache@[i].1.modified),
                        );
                        assert(after =~= before.push((path@, file.content@, file.modified)));
                        assert forall|a: int, b: int| 0 <= a < b < after.len() implies (
                        #[trigger] after[a]).0 != (#[trigger] after[b]).0 by {
                            if b == before.len() {
                                assert(before[a].0 != path@);
                            } else {
                                assert(before[a].0 != before[b].0);
                            }
                        }
                    }
                    std::mem::swap(&mut self.cache, &mut cache);
                    r
                },
                Some(FileRead::NotFound(m)) => Err(
                    HttpError { status: StatusCode::NotFound, message: Some(m) },
                ),
                Some(FileRead::Failed(m)) => Err(
                    HttpError { status: StatusCode::InternalServerError, message: Some(m) },
                ),
                None => Err(HttpError::bare(StatusCode::InternalServerError)),
            },
        }
    }
}

} // verus!
