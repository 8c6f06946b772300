//! What holds of the grammar as a whole: a parsed request is decided
//! by the bytes it consumed, the body is exactly what `Content-Length`
//! announced, and a request without that header has an empty body
//! whatever arrives after it.

use vstd::prelude::*;
use crate::error::ErrKind;
use crate::headers::Entry;
use crate::headers::first_exact;
use crate::parse::HeadersOut;
use crate::parse::SpecOutcome;
use crate::parse::SpecRequest;
use crate::parse::chars_of_bytes;
use crate::parse::content_length_value;
use crate::parse::find_char;
use crate::parse::find_cr;
use crate::parse::lemma_find_cr_bounds;
use crate::parse::spec_headers;
use crate::parse::spec_parse;
use crate::parse::spec_read_line;
use crate::parse::spec_request_line;

verus! {

/// A carriage return found in a stream is found at the same place in
/// any extension of it.
proof fn lemma_find_cr_extend(s: Seq<u8>, t: Seq<u8>, from: int, i: int)
    requires
        find_cr(s, from) == Some(i),
    ensures
        find_cr(s + t, from) == Some(i),
    decreases s.len() - from,
{
    lemma_find_cr_bounds(s, from);
    assert((s + t)[from] == s[from]);
    if s[from] != 13u8 {
        lemma_find_cr_extend(s, t, from + 1, i);
    }
}

/// A line read out of a stream is read identically out of any
/// extension of it.
proof fn lemma_read_line_extend(s: Seq<u8>, t: Seq<u8>, from: int, line: Seq<char>, next: int)
    requires
        spec_read_line(s, from) == Some((line, next)),
    ensures
        spec_read_line(s + t, from) == Some((line, next)),
{
    let i = find_cr(s, from)->Some_0;
    lemma_find_cr_bounds(s, from);
    lemma_find_cr_extend(s, t, from, i);
    assert((s + t).subrange(from, i) =~= s.subrange(from, i));
}

/// A header block parsed to its blank line is parsed identically out
/// of any extension of the stream.
proof fn lemma_headers_extend(s: Seq<u8>, t: Seq<u8>, from: int, acc: Seq<Entry>)
    requires
        0 <= from,
        spec_headers(s, from, acc) is Parsed,
    ensures
        spec_headers(s + t, from, acc) == spec_headers(s, from, acc),
    decreases s.len() - from,
{
    let r = spec_read_line(s, from);
    match r {
        Some((line, next)) => {
            lemma_read_line_extend(s, t, from, line, next);
            lemma_find_cr_bounds(s, from);
            if line.len() != 0 {
                match crate::parse::spec_header_line(line) {
                    Some(kv) => {
                        lemma_headers_extend(
                            s,
                            t,
                            next,
                            crate::headers::entries_insert(acc, kv.0, kv.1),
                        );
                    },
                    None => {},
                }
            }
        },
        None => {},
    }
}

/// What a stream parses to is settled by the bytes the request
/// consumed: bytes arriving after them change nothing, and stay
/// unread.
pub proof fn lemma_parse_prefix_stable(s: Seq<u8>, t: Seq<u8>)
    requires
        spec_parse(s) is Parsed,
    ensures
        spec_parse(s + t) == spec_parse(s),
{
    let (line0, p1) = spec_read_line(s, 0)->Some_0;
    lemma_read_line_extend(s, t, 0, line0, p1);
    lemma_find_cr_bounds(s, 0);
    let hs = spec_headers(s, p1, Seq::<Entry>::empty());
    match hs {
        HeadersOut::Parsed(es, p2) => {
            lemma_headers_extend(s, t, p1, Seq::<Entry>::empty());
            lemma_headers_bounds(s, p1, Seq::<Entry>::empty());
            match first_exact(es, "Content-Length"@) {
                Some(cl) => {
                    match content_length_value(cl) {
                        Some(n) => {
                            crate::parse::lemma_dec_value_nonneg(cl);
                            if n <= usize::MAX as int && p2 + n <= s.len() {
                                assert((s + t).subrange(p2, p2 + n) =~= s.subrange(p2, p2 + n));
                            }
                        },
                        None => {},
                    }
                },
                None => {},
            }
        },
        HeadersOut::Failed(_, _) => {},
    }
}

/// Where a parsed header block can end.
proof fn lemma_headers_bounds(s: Seq<u8>, from: int, acc: Seq<Entry>)
    requires
        0 <= from,
        spec_headers(s, from, acc) is Parsed,
    ensures
        spec_headers(s, from, acc) matches HeadersOut::Parsed(es, p2) ==> 0 <= p2 <= s.len(),
    decreases s.len() - from,
{
    match spec_read_line(s, from) {
        Some((line, next)) => {
            lemma_find_cr_bounds(s, from);
            if line.len() != 0 {
                match crate::parse::spec_header_line(line) {
                    Some(kv) => {
                        lemma_headers_bounds(
                            s,
                            next,
                            crate::headers::entries_insert(acc, kv.0, kv.1),
                        );
                    },
                    None => {},
                }
            }
        },
        None => {},
    }
}

/// With a well-formed head, a `Content-Length` of `n` and at least
/// `n` bytes on the wire after the blank line, parsing succeeds and
/// the body is exactly those `n` bytes.
pub proof fn lemma_body_is_exact(
    s: Seq<u8>,
    line0: Seq<char>,
    p1: int,
    method: Seq<char>,
    path: Seq<char>,
    version: Seq<char>,
    es: Seq<Entry>,
    p2: int,
    cl: Seq<char>,
    n: int,
)
    requires
        spec_read_line(s, 0) == Some((line0, p1)),
        spec_request_line(line0) == Ok::<(Seq<char>, Seq<char>, Seq<char>), ErrKind>(
            (method, path, version),
        ),
        spec_headers(s, p1, Seq::<Entry>::empty()) == HeadersOut::Parsed(es, p2),
        first_exact(es, "Content-Length"@) == Some(cl),
        content_length_value(cl) == Some(n),
        n <= usize::MAX as int,
        p2 + n <= s.len(),
    ensures
        spec_parse(s) == SpecOutcome::Parsed(
            SpecRequest {
                method,
                path,
                version,
                headers: es,
                body: s.subrange(p2, p2 + n),
                used: p2 + n,
            },
        ),
{
}

/// With a well-formed head and no `Content-Length` header, parsing
/// succeeds with an empty body, whatever bytes follow the blank line:
/// they stay unread on the stream.
pub proof fn lemma_absent_length_empty_body(
    s: Seq<u8>,
    t: Seq<u8>,
    line0: Seq<char>,
    p1: int,
    method: Seq<char>,
    path: Seq<char>,
    version: Seq<char>,
    es: Seq<Entry>,
    p2: int,
)
    requires
        spec_read_line(s, 0) == Some((line0, p1)),
        spec_request_line(line0) == Ok::<(Seq<char>, Seq<char>, Seq<char>), ErrKind>(
            (method, path, version),
        ),
        spec_headers(s, p1, Seq::<Entry>::empty()) == HeadersOut::Parsed(es, p2),
        first_exact(es, "Content-Length"@) is None,
    ensures
        spec_parse(s) == SpecOutcome::Parsed(
            SpecRequest { method, path, version, headers: es, body: Seq::<u8>::empty(), used: p2 },
        ),
        spec_parse(s + t) == spec_parse(s),
{
    lemma_parse_prefix_stable(s, t);
}

/// A request line holding no space at all fails as a missing method,
/// whatever the rest of the stream holds.
pub proof fn lemma_no_space_missing_method(s: Seq<u8>, line0: Seq<char>, p1: int)
    requires
        spec_read_line(s, 0) == Some((line0, p1)),
        find_char(line0, ' ', 0) is None,
    ensures
        spec_parse(s) == SpecOutcome::Failed(ErrKind::MissingMethod, Seq::<char>::empty()),
{
}

/// A line of text carries no carriage return, so a stream made of it
/// and a CR LF terminator reads back as exactly that line.
pub proof fn lemma_line_round_trip(text: Seq<u8>, rest: Seq<u8>)
    requires
        forall|j: int| 0 <= j < text.len() ==> text[j] != 13u8,
    ensures
        spec_read_line(text + seq![13u8, 10u8] + rest, 0) == Some(
            (chars_of_bytes(text), text.len() as int + 2),
        ),
{
    let s = text + seq![13u8, 10u8] + rest;
    assert(s[text.len() as int] == 13u8);
    lemma_find_cr_at(s, 0, text.len() as int);
    assert(s.subrange(0, text.len() as int) =~= text);
}

/// The first carriage return of a stream whose earlier bytes are all
/// something else stands exactly where it stands.
proof fn lemma_find_cr_at(s: Seq<u8>, from: int, i: int)
    requires
        0 <= from <= i < s.len(),
        s[i] == 13u8,
        forall|j: int| from <= j < i ==> s[j] != 13u8,
    ensures
        find_cr(s, from) == Some(i),
    decreases i - from,
{
    if from < i {
        lemma_find_cr_at(s, from + 1, i);
    }
}

/// A line read from the middle of a stream: CR-free text from `p` up
/// to the carriage return at `e`, with at least one byte after it.
proof fn lemma_read_line_mid(s: Seq<u8>, p: int, e: int)
    requires
        0 <= p <= e,
        e + 1 < s.len(),
        s[e] == 13u8,
        forall|j: int| p <= j < e ==> s[j] != 13u8,
    ensures
        spec_read_line(s, p) == Some((chars_of_bytes(s.subrange(p, e)), e + 2)),
{
    lemma_find_cr_at(s, p, e);
}

/// The first occurrence of a character that stands at `i` with none
/// of it earlier.
proof fn lemma_find_char_at(s: Seq<char>, c: char, from: int, i: int)
    requires
        0 <= from <= i < s.len(),
        s[i] == c,
        forall|j: int| from <= j < i ==> s[j] != c,
    ensures
        find_char(s, c, from) == Some(i),
    decreases i - from,
{
    if from < i {
        lemma_find_char_at(s, c, from + 1, i);
    }
}

/// The last occurrence of a character that stands at `i` with none of
/// it later, up to `from`.
proof fn lemma_rfind_char_at(s: Seq<char>, c: char, from: int, i: int)
    requires
        0 <= i <= from < s.len(),
        s[i] == c,
        forall|j: int| i < j <= from ==> s[j] != c,
    ensures
        crate::parse::rfind_char(s, c, from) == Some(i),
    decreases from - i,
{
    if from > i {
        lemma_rfind_char_at(s, c, from - 1, i);
    }
}

/// The `": "` separator that stands at `i` with no colon earlier.
proof fn lemma_colon_space_at(s: Seq<char>, from: int, i: int)
    requires
        0 <= from <= i,
        i + 1 < s.len(),
        s[i] == ':',
        s[i + 1] == ' ',
        forall|j: int| from <= j < i ==> s[j] != ':',
    ensures
        crate::parse::find_colon_space(s, from) == Some(i),
    decreases i - from,
{
    if from < i {
        lemma_colon_space_at(s, from + 1, i);
    }
}

/// A request line assembled from a space-free method, any path, and a
/// space-free version splits back into exactly those three parts.
pub proof fn lemma_request_line_round_trip(m: Seq<char>, p: Seq<char>, v: Seq<char>)
    requires
        forall|j: int| 0 <= j < m.len() ==> m[j] != ' ',
        forall|j: int| 0 <= j < v.len() ==> v[j] != ' ',
    ensures
        spec_request_line(m + seq![' '] + p + seq![' '] + v) == Ok::<
            (Seq<char>, Seq<char>, Seq<char>),
            ErrKind,
        >((m, p, v)),
{
    let line = m + seq![' '] + p + seq![' '] + v;
    assert(line[m.len() as int] == ' ');
    lemma_find_char_at(line, ' ', 0, m.len() as int);
    assert(line.take(m.len() as int) =~= m);
    let rest = line.skip(m.len() as int + 1);
    assert(rest =~= p + seq![' '] + v);
    assert(rest[p.len() as int] == ' ');
    assert forall|j: int| p.len() < j <= rest.len() - 1 implies rest[j] != ' ' by {
        assert(rest[j] == v[j - p.len() - 1]);
    }
    lemma_rfind_char_at(rest, ' ', rest.len() as int - 1, p.len() as int);
    assert(rest.take(p.len() as int) =~= p);
    assert(rest.skip(p.len() as int + 1) =~= v);
}

/// A header line assembled from a colon-free key and any value splits
/// back into exactly that key and value.
pub proof fn lemma_header_line_round_trip(k: Seq<char>, w: Seq<char>)
    requires
        forall|j: int| 0 <= j < k.len() ==> k[j] != ':',
    ensures
        crate::parse::spec_header_line(k + seq![':', ' '] + w) == Some((k, w)),
{
    let line = k + seq![':', ' '] + w;
    assert(line[k.len() as int] == ':');
    assert(line[k.len() as int + 1] == ' ');
    lemma_colon_space_at(line, 0, k.len() as int);
    assert(line.take(k.len() as int) =~= k);
    assert(line.skip(k.len() as int + 2) =~= w);
}

/// A whole well-formed request on the wire parses, and every field
/// comes back as sent: a space-free method and version around any
/// path, one header whose key holds no colon, and a body of exactly
/// the announced number of bytes.  None of the bytes may be a
/// carriage return except the terminators.
pub proof fn lemma_wire_round_trip(
    mb: Seq<u8>,
    pb: Seq<u8>,
    vb: Seq<u8>,
    kb: Seq<u8>,
    wb: Seq<u8>,
    body: Seq<u8>,
)
    requires
        forall|j: int| 0 <= j < mb.len() ==> mb[j] != 13u8 && mb[j] != 32u8,
        forall|j: int| 0 <= j < pb.len() ==> pb[j] != 13u8,
        forall|j: int| 0 <= j < vb.len() ==> vb[j] != 13u8 && vb[j] != 32u8,
        forall|j: int| 0 <= j < kb.len() ==> kb[j] != 13u8 && kb[j] != 58u8,
        forall|j: int| 0 <= j < wb.len() ==> wb[j] != 13u8,
        chars_of_bytes(kb) == "Content-Length"@,
        content_length_value(chars_of_bytes(wb)) == Some(body.len() as int),
        body.len() <= usize::MAX,
    ensures
        ({
            let s = mb + seq![32u8] + pb + seq![32u8] + vb + seq![13u8, 10u8] + kb + seq![
                58u8,
                32u8,
            ] + wb + seq![13u8, 10u8] + seq![13u8, 10u8] + body;
            spec_parse(s) == SpecOutcome::Parsed(
                SpecRequest {
                    method: chars_of_bytes(mb),
                    path: chars_of_bytes(pb),
                    version: chars_of_bytes(vb),
                    headers: seq![(chars_of_bytes(kb), chars_of_bytes(wb))],
                    body: body,
                    used: s.len() as int,
                },
            )
        }),
{
    let s = mb + seq![32u8] + pb + seq![32u8] + vb + seq![13u8, 10u8] + kb + seq![58u8, 32u8] + wb
        + seq![13u8, 10u8] + seq![13u8, 10u8] + body;
    let l0: int = mb.len() as int + 1 + pb.len() as int + 1 + vb.len() as int;
    let p1: int = l0 + 2;
    let e1: int = p1 + kb.len() as int + 2 + wb.len() as int;
    let p2: int = e1 + 2;
    let p3: int = p2 + 2;

    // The request line: everything before the first carriage return.
    assert(s[l0 as int] == 13u8);
    assert forall|j: int| 0 <= j < l0 implies s[j] != 13u8 by {
        if j < mb.len() {
            assert(s[j] == mb[j]);
        } else if j == mb.len() {
            assert(s[j] == 32u8);
        } else if j < mb.len() + 1 + pb.len() {
            assert(s[j] == pb[j - mb.len() - 1]);
        } else if j == mb.len() + 1 + pb.len() {
            assert(s[j] == 32u8);
        } else {
            assert(s[j] == vb[j - mb.len() - pb.len() - 2]);
        }
    }
    lemma_read_line_mid(s, 0, l0 as int);
    let line0 = chars_of_bytes(s.subrange(0, l0 as int));
    assert(s.subrange(0, l0 as int) =~= mb + seq![32u8] + pb + seq![32u8] + vb);
    assert(line0 =~= chars_of_bytes(mb) + seq![' '] + chars_of_bytes(pb) + seq![' ']
        + chars_of_bytes(vb));
    assert forall|j: int| 0 <= j < mb.len() implies chars_of_bytes(mb)[j] != ' ' by {
        assert((mb[j] as char) as u32 == mb[j] as u32);
    }
    assert forall|j: int| 0 <= j < vb.len() implies chars_of_bytes(vb)[j] != ' ' by {
        assert((vb[j] as char) as u32 == vb[j] as u32);
    }
    lemma_request_line_round_trip(chars_of_bytes(mb), chars_of_bytes(pb), chars_of_bytes(vb));

    // The single header line.
    assert(s[e1 as int] == 13u8);
    assert forall|j: int| p1 <= j < e1 implies s[j] != 13u8 by {
        if j < p1 + kb.len() {
            assert(s[j] == kb[j - p1]);
        } else if j == p1 + kb.len() {
            assert(s[j] == 58u8);
        } else if j == p1 + kb.len() + 1 {
            assert(s[j] == 32u8);
        } else {
            assert(s[j] == wb[j - p1 - kb.len() - 2]);
        }
    }
    lemma_read_line_mid(s, p1 as int, e1 as int);
    let line1 = chars_of_bytes(s.subrange(p1 as int, e1 as int));
    assert(s.subrange(p1 as int, e1 as int) =~= kb + seq![58u8, 32u8] + wb);
    assert(line1 =~= chars_of_bytes(kb) + seq![':', ' '] + chars_of_bytes(wb));
    assert(line1.len() > 0);
    assert forall|j: int| 0 <= j < kb.len() implies chars_of_bytes(kb)[j] != ':' by {
        assert((kb[j] as char) as u32 == kb[j] as u32);
    }
    lemma_header_line_round_trip(chars_of_bytes(kb), chars_of_bytes(wb));

    // The blank line that closes the header block.
    assert(s[p2 as int] == 13u8);
    lemma_read_line_mid(s, p2 as int, p2 as int);
    assert(s.subrange(p2 as int, p2 as int) =~= Seq::<u8>::empty());
    assert(chars_of_bytes(Seq::<u8>::empty()) =~= Seq::<char>::empty());

    let es = crate::headers::entries_insert(
        Seq::<Entry>::empty(),
        chars_of_bytes(kb),
        chars_of_bytes(wb),
    );
    assert(es == seq![(chars_of_bytes(kb), chars_of_bytes(wb))]);
    assert(spec_headers(s, p1 as int, Seq::<Entry>::empty()) == spec_headers(s, p2 as int, es));
    assert(spec_headers(s, p2 as int, es) == HeadersOut::Parsed(es, p3 as int));

    // The lookup of the one stored header.
    assert(es[0].0 == "Content-Length"@);
    assert(first_exact(es, "Content-Length"@) == Some(chars_of_bytes(wb)));

    // The body: the announced number of bytes, which all stand on the
    // wire.
    crate::parse::lemma_dec_value_nonneg(chars_of_bytes(wb));
    assert(s.len() as int == p3 + body.len() as int);
    assert(s.subrange(p3, p3 + body.len() as int) =~= body);
}

} // verus!
