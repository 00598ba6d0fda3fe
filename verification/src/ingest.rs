//! The ingestion pipeline: turns a raw, size-bounded request body into a
//! validated payload before any byte reaches storage.
//!
//! A body is accepted when it is a multipart form whose first part carries the
//! field named `j`; that part's bytes, in exact order and with no text
//! assumption, become the payload. A body whose declared or actual size
//! exceeds the maximum is rejected outright; a request that does not encode a
//! multipart form at all is rejected as malformed; a multipart body that
//! cannot be decoded, has no parts, or opens with a field other than `j`
//! yields the empty payload, leaving the "empty content" decision to the
//! caller.

use vstd::prelude::*;

verus! {

/// Largest payload the service accepts: 1 MiB.
pub const MAX_PAYLOAD: usize = 1024 * 1024;

/// Why a request body was rejected before reaching storage.
#[derive(Clone, Copy, Debug, PartialEq, Eq, Structural)]
pub enum IngestError {
    /// The declared or accumulated body size exceeds `MAX_PAYLOAD`.
    PayloadTooLarge,
    /// The request does not encode a multipart form.
    MalformedBody,
}

/// The needle `n` occurs in the haystack `h` at position `i`.
pub open spec fn match_at(h: Seq<u8>, n: Seq<u8>, i: int) -> bool {
    &&& 0 <= i
    &&& i + n.len() <= h.len()
    &&& h.subrange(i, i + n.len() as int) == n
}

/// Position of the first occurrence of `n` in `h`, if it occurs at all.
pub open spec fn first_match(h: Seq<u8>, n: Seq<u8>) -> Option<int>
    decreases h.len(),
{
    if n.len() > h.len() {
        None
    } else if h.subrange(0, n.len() as int) == n {
        Some(0)
    } else if n.len() == h.len() {
        None
    } else {
        match first_match(h.subrange(1, h.len() as int), n) {
            Some(i) => Some(i + 1),
            None => None,
        }
    }
}

/// `first_match` yields the least position at which the needle occurs, and
/// `None` exactly where it occurs nowhere.
pub proof fn lemma_first_match(h: Seq<u8>, n: Seq<u8>)
    ensures
        (match first_match(h, n) {
            Some(i) => match_at(h, n, i) && (forall|j: int| 0 <= j < i ==> !match_at(h, n, j)),
            None => forall|j: int| !match_at(h, n, j),
        }),
    decreases h.len(),
{
    let hl = h.len() as int;
    let nl = n.len() as int;
    if nl > hl {
    } else if h.subrange(0, nl) == n {
    } else if nl == hl {
        assert forall|j: int| !match_at(h, n, j) by {
            if match_at(h, n, j) {
                assert(j == 0);
            }
        }
    } else {
        let t = h.subrange(1, hl);
        lemma_first_match(t, n);
        assert forall|i: int| 0 <= i && i + nl <= hl - 1 implies (match_at(t, n, i) == match_at(
            h,
            n,
            i + 1,
        )) by {
            assert(t.subrange(i, i + nl) =~= h.subrange(i + 1, i + 1 + nl));
        }
        match first_match(t, n) {
            Some(i) => {
                assert(match_at(h, n, i + 1));
                assert forall|j: int| 0 <= j < i + 1 implies !match_at(h, n, j) by {
                    if j == 0 {
                        if match_at(h, n, 0) {
                            assert(h.subrange(0, nl) == n);
                        }
                    } else {
                        if match_at(h, n, j) {
                            assert(match_at(t, n, j - 1));
                        }
                    }
                }
            },
            None => {
                assert forall|j: int| !match_at(h, n, j) by {
                    if match_at(h, n, j) {
                        if j == 0 {
                            assert(h.subrange(0, nl) == n);
                        } else {
                            assert(match_at(t, n, j - 1));
                        }
                    }
                }
            },
        }
    }
}

/// Whether `n` occurs in `h` at the given position.
fn match_here(h: &[u8], n: &[u8], i: usize) -> (b: bool)
    requires
        i + n@.len() <= h@.len(),
    ensures
        b == match_at(h@, n@, i as int),
{
    let h_len = h.len();
    let n_len = n.len();
    let mut j: usize = 0;
    while j < n_len
        invariant
            h_len == h@.len(),
            n_len == n@.len(),
            i + n@.len() <= h@.len(),
            j <= n@.len(),
            forall|m: int| 0 <= m < j ==> h@[i + m] == n@[m],
        decreases n@.len() - j,
    {
        if h[i + j] != n[j] {
            proof {
                assert(h@.subrange(i as int, i + n@.len()) != n@) by {
                    assert(h@.subrange(i as int, i + n@.len())[j as int] == h@[i + j]);
                }
            }
            return false;
        }
        j = j + 1;
    }
    proof {
        assert(h@.subrange(i as int, i + n@.len()) =~= n@);
    }
    true
}

/// Position of the first occurrence of `n` in `h`, if any.
fn find_sub(h: &[u8], n: &[u8]) -> (r: Option<usize>)
    ensures
        (match r {
            Some(i) => first_match(h@, n@) == Some(i as int),
            None => first_match(h@, n@) is None,
        }),
{
    let h_len = h.len();
    let n_len = n.len();
    if n_len > h_len {
        proof {
            lemma_first_match(h@, n@);
        }
        return None;
    }
    if n_len == 0 {
        proof {
            assert(h@.subrange(0, 0) =~= n@);
        }
        return Some(0);
    }
    let end = h_len - n_len;
    let mut i: usize = 0;
    while i <= end
        invariant
            h_len == h@.len(),
            n_len == n@.len(),
            1 <= n_len <= h_len,
            end == h_len - n_len,
            i <= end + 1,
            forall|j: int| 0 <= j < i ==> !match_at(h@, n@, j),
        decreases end + 1 - i,
    {
        if match_here(h, n, i) {
            proof {
                lemma_first_match(h@, n@);
                match first_match(h@, n@) {
                    Some(k) => {
                        if k < i {
                            assert(!match_at(h@, n@, k));
                        } else if k > i {
                            assert(!match_at(h@, n@, i as int));
                        }
                    },
                    None => {
                        assert(!match_at(h@, n@, i as int));
                    },
                }
            }
            return Some(i);
        }
        i = i + 1;
    }
    proof {
        lemma_first_match(h@, n@);
        assert forall|j: int| !match_at(h@, n@, j) by {
            if match_at(h@, n@, j) {
                assert(j + n@.len() <= h@.len());
                assert(j < i);
            }
        }
        if first_match(h@, n@) is Some {
            let k = first_match(h@, n@)->Some_0;
            assert(match_at(h@, n@, k));
        }
    }
    None
}

/// The blank line that separates a part's headers from its content: CRLF CRLF.
pub open spec fn crlf2() -> Seq<u8> {
    seq![13u8, 10u8, 13u8, 10u8]
}

/// The delimiter that opens the first part: `--`, the boundary, CRLF.
pub open spec fn open_delim(boundary: Seq<u8>) -> Seq<u8> {
    seq![45u8, 45u8] + boundary + seq![13u8, 10u8]
}

/// The marker that ends a part's content: CRLF, `--`, the boundary.
pub open spec fn close_delim(boundary: Seq<u8>) -> Seq<u8> {
    seq![13u8, 10u8, 45u8, 45u8] + boundary
}

/// The bytes of `name="`, which introduce a part's field name in its headers.
pub open spec fn name_intro() -> Seq<u8> {
    seq![110u8, 97u8, 109u8, 101u8, 61u8, 34u8]
}

/// The double-quote byte that closes a quoted field name.
pub open spec fn quote() -> Seq<u8> {
    seq![34u8]
}

/// The bytes of `multipart/form-data`, which a multipart content type opens
/// with.
pub open spec fn multipart_marker() -> Seq<u8> {
    seq![
        109u8, 117u8, 108u8, 116u8, 105u8, 112u8, 97u8, 114u8, 116u8, 47u8, 102u8, 111u8, 114u8,
        109u8, 45u8, 100u8, 97u8, 116u8, 97u8,
    ]
}

/// The bytes of `boundary=`, which introduce the boundary parameter of a
/// multipart content type.
pub open spec fn boundary_intro() -> Seq<u8> {
    seq![98u8, 111u8, 117u8, 110u8, 100u8, 97u8, 114u8, 121u8, 61u8]
}

/// The bytes of `j`, the one form field the service reads.
pub open spec fn field_j() -> Seq<u8> {
    seq![106u8]
}

/// The field name the first part of a multipart body carries, read from its
/// header block: the bytes between `name="` and the closing quote. `None`
/// where the headers name no field.
pub open spec fn spec_part_name(headers: Seq<u8>) -> Option<Seq<u8>> {
    match first_match(headers, name_intro()) {
        Some(i) => {
            let rest = headers.subrange(i + name_intro().len(), headers.len() as int);
            match first_match(rest, quote()) {
                Some(j) => Some(rest.subrange(0, j)),
                None => None,
            }
        },
        None => None,
    }
}

/// The first part of a multipart body: its field name and its content bytes.
/// The body must open with the first-part delimiter, carry a header block
/// closed by a blank line that names the field, and close the content with
/// the boundary marker; any other shape cannot be decoded and yields `None`.
pub open spec fn spec_first_part(body: Seq<u8>, boundary: Seq<u8>) -> Option<(Seq<u8>, Seq<u8>)> {
    let od = open_delim(boundary);
    if od.len() <= body.len() && body.subrange(0, od.len() as int) == od {
        let rest = body.subrange(od.len() as int, body.len() as int);
        match first_match(rest, crlf2()) {
            Some(h_end) => {
                let headers = rest.subrange(0, h_end);
                let content_zone = rest.subrange(h_end + 4, rest.len() as int);
                match spec_part_name(headers) {
                    Some(nm) => match first_match(content_zone, close_delim(boundary)) {
                        Some(c_end) => Some((nm, content_zone.subrange(0, c_end))),
                        None => None,
                    },
                    None => None,
                }
            },
            None => None,
        }
    } else {
        None
    }
}

/// The boundary a content type declares: the content type must open with
/// `multipart/form-data`, and the boundary is everything after `boundary=`.
/// `None` where the request does not encode a multipart form.
pub open spec fn spec_boundary(content_type: Seq<u8>) -> Option<Seq<u8>> {
    let marker = multipart_marker();
    if marker.len() <= content_type.len() && content_type.subrange(0, marker.len() as int)
        == marker {
        match first_match(content_type, boundary_intro()) {
            Some(i) => Some(
                content_type.subrange(i + boundary_intro().len(), content_type.len() as int),
            ),
            None => None,
        }
    } else {
        None
    }
}

/// What the whole pipeline yields for a request body: the size checks
/// short-circuit the shape checks, a request that is no multipart form is
/// malformed, and a multipart body without a decodable first part named `j`
/// yields the empty payload.
pub open spec fn spec_ingest(
    body: Seq<u8>,
    content_type: Seq<u8>,
    declared_len: Option<usize>,
) -> Result<Seq<u8>, IngestError> {
    if (match declared_len {
        Some(l) => l > MAX_PAYLOAD,
        None => false,
    }) {
        Err(IngestError::PayloadTooLarge)
    } else if body.len() > MAX_PAYLOAD {
        Err(IngestError::PayloadTooLarge)
    } else {
        match spec_boundary(content_type) {
            None => Err(IngestError::MalformedBody),
            Some(b) => match spec_first_part(body, b) {
                None => Ok(Seq::empty()),
                Some(p) => if p.0 == field_j() {
                    Ok(p.1)
                } else {
                    Ok(Seq::empty())
                },
            },
        }
    }
}

/// Copies the given range of a byte slice into a fresh vector.
fn subvec(h: &[u8], from: usize, to: usize) -> (r: Vec<u8>)
    requires
        from <= to <= h@.len(),
    ensures
        r@ == h@.subrange(from as int, to as int),
{
    vstd::slice::slice_to_vec(vstd::slice::slice_subrange(h, from, to))
}

/// Appends the bytes of a slice to a byte vector.
fn push_bytes(v: &mut Vec<u8>, other: &[u8])
    ensures
        final(v)@ == old(v)@ + other@,
{
    v.extend_from_slice(other);
    proof {
        assert forall|i: int| 0 <= i < v@.len() implies v@[i] == (old(v)@ + other@)[i] by {
            if i >= old(v)@.len() {
                assert(cloned::<u8>(other@[i - old(v)@.len()], v@[i]));
            }
        }
        assert(v@ =~= old(v)@ + other@);
    }
}

/// Whether two byte slices hold the same bytes.
fn bytes_eq(a: &[u8], b: &[u8]) -> (r: bool)
    ensures
        r == (a@ == b@),
{
    let a_len = a.len();
    if a_len != b.len() {
        proof {
            assert(a@ != b@);
        }
        return false;
    }
    let mut i: usize = 0;
    while i < a_len
        invariant
            a_len == a@.len() == b@.len(),
            i <= a_len,
            forall|j: int| 0 <= j < i ==> a@[j] == b@[j],
        decreases a_len - i,
    {
        if a[i] != b[i] {
            return false;
        }
        i = i + 1;
    }
    proof {
        assert(a@ =~= b@);
    }
    true
}

/// The bytes of the blank line separating headers from content.
fn crlf2_vec() -> (v: Vec<u8>)
    ensures
        v@ == crlf2(),
{
    let mut v: Vec<u8> = Vec::new();
    v.push(13);
    v.push(10);
    v.push(13);
    v.push(10);
    proof {
        assert(v@ =~= crlf2());
    }
    v
}

/// The delimiter that opens the first part, for the given boundary.
fn open_delim_vec(boundary: &[u8]) -> (v: Vec<u8>)
    ensures
        v@ == open_delim(boundary@),
{
    let mut v: Vec<u8> = Vec::new();
    v.push(45);
    v.push(45);
    push_bytes(&mut v, boundary);
    v.push(13);
    v.push(10);
    proof {
        assert(v@ =~= open_delim(boundary@));
    }
    v
}

/// The marker that ends the first part's content, for the given boundary.
fn close_delim_vec(boundary: &[u8]) -> (v: Vec<u8>)
    ensures
        v@ == close_delim(boundary@),
{
    let mut v: Vec<u8> = Vec::new();
    v.push(13);
    v.push(10);
    v.push(45);
    v.push(45);
    push_bytes(&mut v, boundary);
    proof {
        assert(v@ =~= close_delim(boundary@));
    }
    v
}

/// The bytes of `name="`.
fn name_intro_vec() -> (v: Vec<u8>)
    ensures
        v@ == name_intro(),
{
    let mut v: Vec<u8> = Vec::new();
    v.push(110);
    v.push(97);
    v.push(109);
    v.push(101);
    v.push(61);
    v.push(34);
    proof {
        assert(v@ =~= name_intro());
    }
    v
}

/// The bytes of `multipart/form-data`.
fn multipart_marker_vec() -> (v: Vec<u8>)
    ensures
        v@ == multipart_marker(),
{
    let mut v: Vec<u8> = Vec::new();
    v.push(109);
    v.push(117);
    v.push(108);
    v.push(116);
    v.push(105);
    v.push(112);
    v.push(97);
    v.push(114);
    v.push(116);
    v.push(47);
    v.push(102);
    v.push(111);
    v.push(114);
    v.push(109);
    v.push(45);
    v.push(100);
    v.push(97);
    v.push(116);
    v.push(97);
    proof {
        assert(v@ =~= multipart_marker());
    }
    v
}

/// The bytes of `boundary=`.
fn boundary_intro_vec() -> (v: Vec<u8>)
    ensures
        v@ == boundary_intro(),
{
    let mut v: Vec<u8> = Vec::new();
    v.push(98);
    v.push(111);
    v.push(117);
    v.push(110);
    v.push(100);
    v.push(97);
    v.push(114);
    v.push(121);
    v.push(61);
    proof {
        assert(v@ =~= boundary_intro());
    }
    v
}

/// The field name of the first part of the given header block, as
/// `spec_part_name` reads it.
fn part_name(headers: &[u8]) -> (r: Option<Vec<u8>>)
    ensures
        (match r {
            Some(nm) => spec_part_name(headers@) == Some(nm@),
            None => spec_part_name(headers@) is None,
        }),
{
    let h_len = headers.len();
    let intro = name_intro_vec();
    match find_sub(headers, intro.as_slice()) {
        Some(i) => {
            proof {
                lemma_first_match(headers@, name_intro());
                assert(name_intro().len() == 6);
                assert(i + 6 <= h_len);
            }
            let rest = vstd::slice::slice_subrange(headers, i + 6, h_len);
            let mut q: Vec<u8> = Vec::new();
            q.push(34);
            proof {
                assert(q@ =~= quote());
            }
            match find_sub(rest, q.as_slice()) {
                Some(j) => {
                    proof {
                        lemma_first_match(rest@, quote());
                    }
                    Some(subvec(rest, 0, j))
                },
                None => None,
            }
        },
        None => None,
    }
}

/// The first part of the given multipart body, as `spec_first_part` reads it:
/// the field name and a copy of the content bytes.
fn first_part(body: &[u8], boundary: &[u8]) -> (r: Option<(Vec<u8>, Vec<u8>)>)
    ensures
        (match r {
            Some(p) => spec_first_part(body@, boundary@) == Some((p.0@, p.1@)),
            None => spec_first_part(body@, boundary@) is None,
        }),
{
    let od = open_delim_vec(boundary);
    if od.len() > body.len() {
        return None;
    }
    if !match_here(body, od.as_slice(), 0) {
        return None;
    }
    let rest = vstd::slice::slice_subrange(body, od.len(), body.len());
    let sep = crlf2_vec();
    match find_sub(rest, sep.as_slice()) {
        Some(h_end) => {
            proof {
                lemma_first_match(rest@, crlf2());
            }
            let headers = vstd::slice::slice_subrange(rest, 0, h_end);
            let content_zone = vstd::slice::slice_subrange(rest, h_end + 4, rest.len());
            match part_name(headers) {
                Some(nm) => {
                    let cd = close_delim_vec(boundary);
                    match find_sub(content_zone, cd.as_slice()) {
                        Some(c_end) => {
                            proof {
                                lemma_first_match(content_zone@, close_delim(boundary@));
                            }
                            Some((nm, subvec(content_zone, 0, c_end)))
                        },
                        None => None,
                    }
                },
                None => None,
            }
        },
        None => None,
    }
}

/// The boundary the given content type declares, as `spec_boundary` reads it.
pub fn extract_boundary(content_type: &[u8]) -> (r: Option<Vec<u8>>)
    ensures
        (match r {
            Some(b) => spec_boundary(content_type@) == Some(b@),
            None => spec_boundary(content_type@) is None,
        }),
{
    let marker = multipart_marker_vec();
    if marker.len() > content_type.len() {
        return None;
    }
    if !match_here(content_type, marker.as_slice(), 0) {
        return None;
    }
    let intro = boundary_intro_vec();
    match find_sub(content_type, intro.as_slice()) {
        Some(i) => {
            proof {
                lemma_first_match(content_type@, boundary_intro());
            }
            Some(subvec(content_type, i + 9, content_type.len()))
        },
        None => None,
    }
}

/// The result of the pipeline with payload bytes abstracted to their view.
pub open spec fn res_view(r: Result<Vec<u8>, IngestError>) -> Result<Seq<u8>, IngestError> {
    match r {
        Ok(v) => Ok(v@),
        Err(e) => Err(e),
    }
}

/// Converts a raw request body into a validated payload, exactly as
/// `spec_ingest` describes: the size checks come first, then the request must
/// encode a multipart form, and a decodable first part named `j` yields its
/// content while any other decodable outcome yields the empty payload.
pub fn ingest(body: &[u8], content_type: &[u8], declared_len: Option<usize>) -> (r: Result<
    Vec<u8>,
    IngestError,
>)
    ensures
        res_view(r) == spec_ingest(body@, content_type@, declared_len),
{
    match declared_len {
        Some(l) => {
            if l > MAX_PAYLOAD {
                return Err(IngestError::PayloadTooLarge);
            }
        },
        None => {},
    }
    if body.len() > MAX_PAYLOAD {
        return Err(IngestError::PayloadTooLarge);
    }
    let boundary = match extract_boundary(content_type) {
        Some(b) => b,
        None => {
            return Err(IngestError::MalformedBody);
        },
    };
    match first_part(body, boundary.as_slice()) {
        Some(p) => {
            let (nm, content) = p;
            let mut j: Vec<u8> = Vec::new();
            j.push(106);
            proof {
                assert(j@ =~= field_j());
            }
            if bytes_eq(nm.as_slice(), j.as_slice()) {
                Ok(content)
            } else {
                Ok(Vec::new())
            }
        },
        None => Ok(Vec::new()),
    }
}

/// A bounded accumulator for a streamed request body: consumes the body's
/// chunks one by one, in order, and refuses to grow past its bound, so that a
/// stream with no declared length cannot exhaust memory.
pub struct BoundedAccumulator {
    buf: Vec<u8>,
    bound: usize,
}

impl View for BoundedAccumulator {
    type V = Seq<u8>;

    closed spec fn view(&self) -> Seq<u8> {
        self.buf@
    }
}

impl BoundedAccumulator {
    /// The accumulated bytes never exceed the bound.
    pub closed spec fn inv(&self) -> bool {
        self.buf@.len() <= self.bound
    }

    /// The largest number of bytes the accumulator accepts in total.
    pub closed spec fn bound(&self) -> usize {
        self.bound
    }

    /// An empty accumulator with the given bound.
    pub fn new(bound: usize) -> (a: BoundedAccumulator)
        ensures
            a.inv(),
            a@ == Seq::<u8>::empty(),
            a.bound() == bound,
    {
        BoundedAccumulator { buf: Vec::new(), bound }
    }

    /// Number of bytes accumulated so far.
    pub fn len(&self) -> (n: usize)
        ensures
            n == self@.len(),
    {
        self.buf.len()
    }

    /// Appends one chunk of the stream. The chunk is accepted exactly where
    /// it still fits within the bound; otherwise the accumulator is left
    /// unchanged and the body is rejected as too large.
    pub fn push_chunk(&mut self, chunk: &[u8]) -> (r: Result<(), IngestError>)
        requires
            old(self).inv(),
        ensures
            final(self).inv(),
            final(self).bound() == old(self).bound(),
            (match r {
                Ok(_) => old(self)@.len() + chunk@.len() <= old(self).bound() && final(self)@
                    == old(self)@ + chunk@,
                Err(e) => e == IngestError::PayloadTooLarge && old(self)@.len() + chunk@.len()
                    > old(self).bound() && final(self)@ == old(self)@,
            }),
    {
        if chunk.len() > self.bound - self.buf.len() {
            return Err(IngestError::PayloadTooLarge);
        }
        push_bytes(&mut self.buf, chunk);
        Ok(())
    }

    /// Hands the accumulated bytes over, consuming the accumulator.
    pub fn into_bytes(self) -> (v: Vec<u8>)
        ensures
            v@ == self@,
    {
        self.buf
    }
}

} // verus!
