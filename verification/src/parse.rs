//! The wire grammar of one request: a CR LF terminated request line,
//! a header block closed by an empty line, then an optional body of
//! exactly `Content-Length` bytes.

use vstd::prelude::*;
use vstd::string::StrSliceExecFns;
use vstd::string::StringExecFns;
use crate::error::ErrKind;
use crate::error::RequestError;
use crate::headers::Entry;
use crate::headers::HeaderMap;
use crate::headers::entries_insert;
use crate::headers::first_exact;
use crate::request::Request;

verus! {

/// Bytes are taken as single-byte characters: the code point is the
/// byte value, with no multi-byte decoding.
pub open spec fn byte_char(b: u8) -> char {
    b as char
}

/// A byte sequence read as text, one character per byte.
pub open spec fn chars_of_bytes(s: Seq<u8>) -> Seq<char> {
    Seq::new(s.len(), |i: int| byte_char(s[i]))
}

/// The first index at or past `from` holding a carriage return.
pub open spec fn find_cr(s: Seq<u8>, from: int) -> Option<int>
    decreases s.len() - from,
{
    if from < 0 || from >= s.len() {
        None
    } else if s[from] == 13u8 {
        Some(from)
    } else {
        find_cr(s, from + 1)
    }
}

/// One line out of the stream, starting at `from`: the text before
/// the next carriage return, which must be followed by one more byte
/// (the line feed, read and discarded).  `None` when the stream ends
/// first.
pub open spec fn spec_read_line(s: Seq<u8>, from: int) -> Option<(Seq<char>, int)> {
    match find_cr(s, from) {
        Some(i) => if i + 1 < s.len() {
            Some((chars_of_bytes(s.subrange(from, i)), i + 2))
        } else {
            None
        },
        None => None,
    }
}

/// The first index at or past `from` holding `c`.
pub open spec fn find_char(s: Seq<char>, c: char, from: int) -> Option<int>
    decreases s.len() - from,
{
    if from < 0 || from >= s.len() {
        None
    } else if s[from] == c {
        Some(from)
    } else {
        find_char(s, c, from + 1)
    }
}

/// The last index at or before `from` holding `c`.
pub open spec fn rfind_char(s: Seq<char>, c: char, from: int) -> Option<int>
    decreases from + 1,
{
    if from < 0 || from >= s.len() {
        None
    } else if s[from] == c {
        Some(from)
    } else {
        rfind_char(s, c, from - 1)
    }
}

/// Split at the first occurrence of `c`, excluding it.
pub open spec fn spec_split_first(s: Seq<char>, c: char) -> Option<(Seq<char>, Seq<char>)> {
    match find_char(s, c, 0) {
        Some(i) => Some((s.take(i), s.skip(i + 1))),
        None => None,
    }
}

/// Split at the last occurrence of `c`, excluding it.
pub open spec fn spec_split_last(s: Seq<char>, c: char) -> Option<(Seq<char>, Seq<char>)> {
    match rfind_char(s, c, s.len() - 1) {
        Some(i) => Some((s.take(i), s.skip(i + 1))),
        None => None,
    }
}

/// The request line taken apart: the method before the first space,
/// then path and version split at the last space of the remainder,
/// so that a path holding spaces still leaves the version intact.
pub open spec fn spec_request_line(line: Seq<char>) -> Result<(Seq<char>, Seq<char>, Seq<char>), ErrKind> {
    match spec_split_first(line, ' ') {
        None => Err(ErrKind::MissingMethod),
        Some((method, rest)) => match spec_split_last(rest, ' ') {
            None => Err(ErrKind::MissingVersionOrPath),
            Some((path, version)) => Ok((method, path, version)),
        },
    }
}

/// The first index where `": "` begins, if any.
pub open spec fn find_colon_space(s: Seq<char>, from: int) -> Option<int>
    decreases s.len() - from,
{
    if from < 0 || from + 1 >= s.len() {
        None
    } else if s[from] == ':' && s[from + 1] == ' ' {
        Some(from)
    } else {
        find_colon_space(s, from + 1)
    }
}

/// A header line taken apart at the first `": "`: key before it,
/// value after it.
pub open spec fn spec_header_line(line: Seq<char>) -> Option<(Seq<char>, Seq<char>)> {
    match find_colon_space(line, 0) {
        Some(i) => Some((line.take(i), line.skip(i + 2))),
        None => None,
    }
}

/// A decimal digit.
pub open spec fn is_digit(c: char) -> bool {
    48 <= c as u32 <= 57
}

/// Every character is a decimal digit.
pub open spec fn all_digits(s: Seq<char>) -> bool {
    forall|i: int| 0 <= i < s.len() ==> is_digit(s[i])
}

/// The value of a digit string, most significant first.
pub open spec fn dec_value(s: Seq<char>) -> int
    decreases s.len(),
{
    if s.len() == 0 {
        0
    } else {
        dec_value(s.drop_last()) * 10 + (s.last() as u32 - 48)
    }
}

/// What a `Content-Length` value denotes: a non-empty run of decimal
/// digits, else nothing.
pub open spec fn content_length_value(s: Seq<char>) -> Option<int> {
    if s.len() > 0 && all_digits(s) {
        Some(dec_value(s))
    } else {
        None
    }
}

// ------------------------------------------------------------------
// Executable line reading and splitting
// ------------------------------------------------------------------

/// Relies on `String::push`: appends the given character at the end.
#[verifier::external_body]
fn push_byte_char(s: &mut String, b: u8)
    ensures
        final(s)@ == old(s)@ + seq![byte_char(b)],
{
    s.push(b as char)
}

/// One step of the line reader, fed one byte: a carriage return ends
/// the line (the byte after it is the terminator's second half, to be
/// read and dropped by the caller); any other byte is appended to the
/// line as a single-byte character.
pub fn line_step(line: &mut String, b: u8) -> (done: bool)
    ensures
        done == (b == 13u8),
        done ==> final(line)@ == old(line)@,
        !done ==> final(line)@ == old(line)@ + seq![byte_char(b)],
{
    if b == 13u8 {
        true
    } else {
        push_byte_char(line, b);
        false
    }
}

/// Read one CR LF terminated line out of `input`, starting at `from`.
pub fn read_line_at(input: &Vec<u8>, from: usize) -> (r: Option<(String, usize)>)
    requires
        from <= input@.len(),
    ensures
        match r {
            Some(v) => spec_read_line(input@, from as int) == Some((v.0@, v.1 as int)) && from < v.1
                <= input@.len(),
            None => spec_read_line(input@, from as int) is None,
        },
{
    let ghost s = input@;
    let n = input.len();
    let mut line = String::new();
    let mut i = from;
    loop
        invariant
            s == input@,
            n == s.len(),
            from <= i <= n,
            find_cr(s, from as int) == find_cr(s, i as int),
            line@ == chars_of_bytes(s.subrange(from as int, i as int)),
        decreases n - i,
    {
        if i >= n {
            return None;
        }
        let b = input[i];
        if b == 13u8 {
            proof {
                assert(find_cr(s, i as int) == Some(i as int));
            }
            if i + 1 < n {
                proof {
                    assert(spec_read_line(s, from as int) == Some(
                        (chars_of_bytes(s.subrange(from as int, i as int)), i + 2),
                    ));
                }
                return Some((line, i + 2));
            } else {
                return None;
            }
        }
        push_byte_char(&mut line, b);
        proof {
            assert(s.subrange(from as int, i + 1) =~= s.subrange(from as int, i as int) + seq![
                s[i as int],
            ]);
            assert(chars_of_bytes(s.subrange(from as int, i + 1)) =~= chars_of_bytes(
                s.subrange(from as int, i as int),
            ) + seq![byte_char(s[i as int])]);
        }
        i = i + 1;
    }
}

/// Split a string at its first space.
pub fn split_first_space(s: &str) -> (r: Option<(String, String)>)
    ensures
        match r {
            Some(v) => spec_split_first(s@, ' ') == Some((v.0@, v.1@)),
            None => spec_split_first(s@, ' ') is None,
        },
{
    let n = s.unicode_len();
    for i in 0..n
        invariant
            n == s@.len(),
            find_char(s@, ' ', 0) == find_char(s@, ' ', i as int),
    {
        if s.get_char(i) == ' ' {
            let left = String::from_str(s.substring_char(0, i));
            let right = String::from_str(s.substring_char(i + 1, n));
            proof {
                assert(find_char(s@, ' ', i as int) == Some(i as int));
                assert(left@ =~= s@.take(i as int));
                assert(right@ =~= s@.skip(i + 1));
            }
            return Some((left, right));
        }
    }
    None
}

/// Split a string at its last space.
pub fn split_last_space(s: &str) -> (r: Option<(String, String)>)
    ensures
        match r {
            Some(v) => spec_split_last(s@, ' ') == Some((v.0@, v.1@)),
            None => spec_split_last(s@, ' ') is None,
        },
{
    let n = s.unicode_len();
    let mut i = n;
    loop
        invariant
            n == s@.len(),
            i <= n,
            rfind_char(s@, ' ', s@.len() - 1) == rfind_char(s@, ' ', i - 1),
        decreases i,
    {
        if i == 0 {
            return None;
        }
        i = i - 1;
        if s.get_char(i) == ' ' {
            let left = String::from_str(s.substring_char(0, i));
            let right = String::from_str(s.substring_char(i + 1, n));
            proof {
                assert(rfind_char(s@, ' ', i as int) == Some(i as int));
                assert(left@ =~= s@.take(i as int));
                assert(right@ =~= s@.skip(i + 1));
            }
            return Some((left, right));
        }
    }
}

/// Take the request line apart into method, path and version.
pub fn parse_request_line(line: &str) -> (r: Result<(String, String, String), RequestError>)
    ensures
        match r {
            Ok(v) => spec_request_line(line@) == Ok::<_, ErrKind>((v.0@, v.1@, v.2@)),
            Err(e) => spec_request_line(line@) == Err::<(Seq<char>, Seq<char>, Seq<char>), _>(
                e.kind(),
            ) && e.detail() == Seq::<char>::empty(),
        },
{
    let (method, rest) = match split_first_space(line) {
        Some(v) => v,
        None => {
            return Err(RequestError::MissingMethod);
        },
    };
    let (path, version) = match split_last_space(rest.as_str()) {
        Some(v) => v,
        None => {
            return Err(RequestError::MissingVersionOrPath);
        },
    };
    Ok((method, path, version))
}

/// Take a header line apart at its first `": "`.
pub fn split_header_line(s: &str) -> (r: Option<(String, String)>)
    ensures
        match r {
            Some(v) => spec_header_line(s@) == Some((v.0@, v.1@)),
            None => spec_header_line(s@) is None,
        },
{
    let n = s.unicode_len();
    if n == 0 {
        return None;
    }
    for i in 0..n - 1
        invariant
            n == s@.len(),
            n >= 1,
            find_colon_space(s@, 0) == find_colon_space(s@, i as int),
    {
        if s.get_char(i) == ':' && s.get_char(i + 1) == ' ' {
            let key = String::from_str(s.substring_char(0, i));
            let value = String::from_str(s.substring_char(i + 2, n));
            proof {
                assert(find_colon_space(s@, i as int) == Some(i as int));
                assert(key@ =~= s@.take(i as int));
                assert(value@ =~= s@.skip(i + 2));
            }
            return Some((key, value));
        }
    }
    None
}

/// The value of a digit string is never negative.
pub proof fn lemma_dec_value_nonneg(s: Seq<char>)
    requires
        all_digits(s),
    ensures
        dec_value(s) >= 0,
    decreases s.len(),
{
    if s.len() > 0 {
        assert(all_digits(s.drop_last()));
        lemma_dec_value_nonneg(s.drop_last());
    }
}

/// A digit string's value is never smaller than the value of any of
/// its prefixes.
proof fn lemma_dec_value_monotone(s: Seq<char>, i: int)
    requires
        all_digits(s),
        0 <= i <= s.len(),
    ensures
        dec_value(s) >= dec_value(s.take(i)),
    decreases s.len() - i,
{
    if i == s.len() {
        assert(s.take(i) =~= s);
    } else {
        lemma_dec_value_monotone(s, i + 1);
        assert(s.take(i + 1).drop_last() =~= s.take(i));
        assert(all_digits(s.take(i)));
        lemma_dec_value_nonneg(s.take(i));
        let d = s[i] as u32 - 48;
        assert(is_digit(s[i]));
        assert(d >= 0);
        assert(dec_value(s.take(i + 1)) == dec_value(s.take(i)) * 10 + d);
        assert(dec_value(s.take(i + 1)) >= dec_value(s.take(i)));
    }
}

/// Parse a `Content-Length` value: a non-empty run of decimal digits
/// whose value fits the machine.
pub fn parse_content_length(v: &str) -> (r: Option<usize>)
    ensures
        r matches Some(n) ==> content_length_value(v@) == Some(n as int),
        match content_length_value(v@) {
            Some(n) => if n <= usize::MAX as int {
                r == Some(n as usize)
            } else {
                r is None
            },
            None => r is None,
        },
{
    let n = v.unicode_len();
    if n == 0 {
        return None;
    }
    let mut acc: usize = 0;
    for i in 0..n
        invariant
            n == v@.len(),
            n >= 1,
            all_digits(v@.take(i as int)),
            acc == dec_value(v@.take(i as int)),
    {
        let c = v.get_char(i);
        let u = c as u32;
        if u < 48 || u > 57 {
            proof {
                assert(!is_digit(v@[i as int]));
                assert(content_length_value(v@) is None);
            }
            return None;
        }
        let d = (u - 48) as usize;
        proof {
            assert(v@.take(i + 1).drop_last() =~= v@.take(i as int));
            assert(all_digits(v@.take(i + 1)));
        }
        let step = match acc.checked_mul(10) {
            Some(x) => x.checked_add(d),
            None => None,
        };
        match step {
            Some(next) => {
                acc = next;
            },
            None => {
                proof {
                    if all_digits(v@) {
                        lemma_dec_value_monotone(v@, i + 1);
                        assert(dec_value(v@.take(i + 1)) == acc * 10 + d);
                        assert(dec_value(v@) > usize::MAX as int);
                    }
                }
                return None;
            },
        }
    }
    proof {
        assert(v@.take(n as int) =~= v@);
    }
    Some(acc)
}

// ------------------------------------------------------------------
// The whole request
// ------------------------------------------------------------------

/// Where a found carriage return can lie.
pub proof fn lemma_find_cr_bounds(s: Seq<u8>, from: int)
    ensures
        find_cr(s, from) matches Some(i) ==> from <= i < s.len() && s[i] == 13u8,
    decreases s.len() - from,
{
    if 0 <= from < s.len() && s[from] != 13u8 {
        lemma_find_cr_bounds(s, from + 1);
    }
}

/// The outcome of the header block: the entries with the position
/// just past the blank line, or the failure with its detail line.
pub enum HeadersOut {
    Parsed(Seq<Entry>, int),
    Failed(ErrKind, Seq<char>),
}

/// The header block read from `from` on, folded over `acc`: lines are
/// taken until an empty one, each split at `": "` and inserted with
/// overwrite.  A line that cannot be read is a read failure; one
/// without `": "` is a malformed header.
pub open spec fn spec_headers(s: Seq<u8>, from: int, acc: Seq<Entry>) -> HeadersOut
    decreases s.len() - from,
        when 0 <= from
        via spec_headers_decreases
{
    match spec_read_line(s, from) {
        None => HeadersOut::Failed(ErrKind::IoError, Seq::empty()),
        Some((line, next)) => if line.len() == 0 {
            HeadersOut::Parsed(acc, next)
        } else {
            match spec_header_line(line) {
                None => HeadersOut::Failed(ErrKind::MalformedHeader, line),
                Some(kv) => spec_headers(s, next, entries_insert(acc, kv.0, kv.1)),
            }
        },
    }
}

#[via_fn]
proof fn spec_headers_decreases(s: Seq<u8>, from: int, acc: Seq<Entry>) {
    lemma_find_cr_bounds(s, from);
}

/// A parsed request at the specification level.
pub struct SpecRequest {
    pub method: Seq<char>,
    pub path: Seq<char>,
    pub version: Seq<char>,
    pub headers: Seq<Entry>,
    pub body: Seq<u8>,
    /// How many bytes of the stream the request occupied; anything
    /// after them is left unread for the caller.
    pub used: int,
}

/// What a byte stream parses to: a request, or a failure with its
/// class and, for a malformed header, the offending line.
pub enum SpecOutcome {
    Parsed(SpecRequest),
    Failed(ErrKind, Seq<char>),
}

/// The request grammar, end to end: request line, header block, then
/// a body of exactly `Content-Length` bytes when that header is
/// present (matched case-sensitively, as stored) and absent, empty.
pub open spec fn spec_parse(s: Seq<u8>) -> SpecOutcome {
    match spec_read_line(s, 0) {
        None => SpecOutcome::Failed(ErrKind::MalformedRequestLine, Seq::empty()),
        Some((line0, p1)) => match spec_request_line(line0) {
            Err(k) => SpecOutcome::Failed(k, Seq::empty()),
            Ok((method, path, version)) => match spec_headers(s, p1, Seq::empty()) {
                HeadersOut::Failed(k, d) => SpecOutcome::Failed(k, d),
                HeadersOut::Parsed(es, p2) => match first_exact(es, "Content-Length"@) {
                    None => SpecOutcome::Parsed(
                        SpecRequest {
                            method,
                            path,
                            version,
                            headers: es,
                            body: Seq::empty(),
                            used: p2,
                        },
                    ),
                    Some(cl) => match content_length_value(cl) {
                        None => SpecOutcome::Failed(ErrKind::InvalidContentLength, Seq::empty()),
                        Some(n) => if n > usize::MAX as int {
                            SpecOutcome::Failed(ErrKind::InvalidContentLength, Seq::empty())
                        } else if p2 + n <= s.len() {
                            SpecOutcome::Parsed(
                                SpecRequest {
                                    method,
                                    path,
                                    version,
                                    headers: es,
                                    body: s.subrange(p2, p2 + n),
                                    used: p2 + n,
                                },
                            )
                        } else {
                            SpecOutcome::Failed(ErrKind::IoError, Seq::empty())
                        },
                    },
                },
            },
        },
    }
}

/// Parse one request out of `input`, reading from its start.  On
/// success the request holds exactly the bytes the grammar assigns to
/// it and the returned count says how many bytes were consumed; the
/// rest of `input` is untouched.  On failure the error class is the
/// one the grammar gives for `input`.
pub fn parse_request(input: &Vec<u8>, peer: String) -> (r: Result<(Request, usize), RequestError>)
    ensures
        match r {
            Ok(v) => spec_parse(input@) == SpecOutcome::Parsed(
                SpecRequest {
                    method: v.0.method@,
                    path: v.0.path@,
                    version: v.0.version@,
                    headers: v.0.headers@,
                    body: v.0.body@,
                    used: v.1 as int,
                },
            ) && v.0.peer_addr@ == peer@ && v.0.headers.wf() && v.1 <= input@.len(),
            Err(e) => spec_parse(input@) matches SpecOutcome::Failed(k, d) && e.kind() == k
                && e.detail() == d,
        },
{
    let ghost s = input@;
    let (line0, p1) = match read_line_at(input, 0) {
        Some(v) => v,
        None => {
            return Err(RequestError::MalformedRequestLine);
        },
    };
    let (method, path, version) = match parse_request_line(line0.as_str()) {
        Ok(v) => v,
        Err(e) => {
            return Err(e);
        },
    };
    let mut headers = HeaderMap::new();
    let mut pos: usize = p1;
    let mut done = false;
    proof {
        assert(spec_headers(s, p1 as int, Seq::<Entry>::empty()) == spec_headers(
            s,
            pos as int,
            headers@,
        ));
    }
    while !done
        invariant
            s == input@,
            pos <= s.len(),
            headers.wf(),
            spec_read_line(s, 0) == Some((line0@, p1 as int)),
            spec_request_line(line0@) == Ok::<(Seq<char>, Seq<char>, Seq<char>), ErrKind>(
                (method@, path@, version@),
            ),
            !done ==> spec_headers(s, p1 as int, Seq::<Entry>::empty()) == spec_headers(
                s,
                pos as int,
                headers@,
            ),
            done ==> spec_headers(s, p1 as int, Seq::<Entry>::empty()) == HeadersOut::Parsed(
                headers@,
                pos as int,
            ),
        decreases s.len() - pos + (if done {
            0int
        } else {
            1int
        }),
    {
        let (line, next) = match read_line_at(input, pos) {
            Some(v) => v,
            None => {
                return Err(RequestError::IoError);
            },
        };
        if line.as_str().unicode_len() == 0 {
            pos = next;
            done = true;
        } else {
            match split_header_line(line.as_str()) {
                Some(kv) => {
                    headers.insert(kv.0, kv.1);
                    pos = next;
                },
                None => {
                    return Err(RequestError::MalformedHeader(line));
                },
            }
        }
    }
    let ghost p2 = pos as int;
    proof {
        assert(spec_headers(s, p1 as int, Seq::<Entry>::empty()) == HeadersOut::Parsed(
            headers@,
            p2,
        ));
    }
    let cl = headers.get("Content-Length");
    match cl {
        None => {
            proof {
                assert(first_exact(headers@, "Content-Length"@) is None);
                assert(spec_parse(s) == SpecOutcome::Parsed(
                    SpecRequest {
                        method: method@,
                        path: path@,
                        version: version@,
                        headers: headers@,
                        body: Seq::<u8>::empty(),
                        used: p2,
                    },
                ));
            }
            let req = Request {
                method,
                path,
                version,
                headers,
                body: Vec::new(),
                peer_addr: peer,
            };
            proof {
                assert(req.body@ =~= Seq::<u8>::empty());
            }
            Ok((req, pos))
        },
        Some(v) => {
            proof {
                assert(first_exact(headers@, "Content-Length"@) == Some(v@));
            }
            let n = match parse_content_length(v.as_str()) {
                Some(n) => n,
                None => {
                    return Err(RequestError::InvalidContentLength);
                },
            };
            proof {
                assert(content_length_value(v@) == Some(n as int));
            }
            if n <= input.len() - pos {
                let body = copy_bytes(input, pos, pos + n);
                proof {
                    assert(body@ == s.subrange(p2, p2 + n));
                    assert(spec_parse(s) == SpecOutcome::Parsed(
                        SpecRequest {
                            method: method@,
                            path: path@,
                            version: version@,
                            headers: headers@,
                            body: s.subrange(p2, p2 + n),
                            used: p2 + n,
                        },
                    ));
                }
                let req = Request { method, path, version, headers, body, peer_addr: peer };
                Ok((req, pos + n))
            } else {
                Err(RequestError::IoError)
            }
        },
    }
}

/// Copy `input[from..to]` out as a fresh byte vector.
pub fn copy_bytes(input: &Vec<u8>, from: usize, to: usize) -> (r: Vec<u8>)
    requires
        from <= to <= input@.len(),
    ensures
        r@ == input@.subrange(from as int, to as int),
{
    let mut out: Vec<u8> = Vec::new();
    for i in from..to
        invariant
            from <= i <= to <= input@.len(),
            out@ == input@.subrange(from as int, i as int),
    {
        out.push(input[i]);
        proof {
            assert(input@.subrange(from as int, i + 1) =~= input@.subrange(from as int, i as int)
                + seq![input@[i as int]]);
        }
    }
    out
}

} // verus!
