//! Writing a response: the status line and header block as text, and the body
//! in chunked transfer encoding.
use crate::table::{put, TextMap};
use crate::text::{append_chars, chars_of, joined, string_of};
use crate::wire::{status_text, version_name, StatusCode, Version};
use vstd::prelude::*;
use vstd::string::StringSliceAdditionalSpecFns;

verus! {

/// The largest number of body bytes in one chunk.
pub const CHUNK_SIZE: usize = 4096;

/// A response: version, status, header fields, and an optional body.
#[derive(Debug)]
pub struct HTTPResponse {
    pub version: Version,
    pub status_code: StatusCode,
    pub headers: TextMap,
    pub body: Option<Vec<u8>>,
}

/// One header line, `name: value`.
pub open spec fn header_line(p: (Seq<char>, Seq<char>)) -> Seq<char> {
    p.0 + seq![':', ' '] + p.1
}

/// The status line and header lines, separated by line feeds.
///
/// The head uses a bare line feed where HTTP/1.1 asks for CRLF, and a single
/// blank line follows it (`wire`). This framing is kept on purpose, for wire
/// compatibility with existing peers of this server; clients that insist on
/// CRLF line endings will not accept it.
pub open spec fn head_text(v: Version, s: StatusCode, ps: Seq<(Seq<char>, Seq<char>)>) -> Seq<
    char,
> {
    version_name(v) + seq![' '] + status_text(s) + seq!['\n'] + joined(
        ps.map_values(|p: (Seq<char>, Seq<char>)| header_line(p)),
        '\n',
    )
}

/// The ASCII upper-case hexadecimal digit of `d`.
pub open spec fn hex_digit(d: nat) -> u8 {
    if d < 10 {
        (48 + d) as u8
    } else {
        (55 + d) as u8
    }
}

/// `n` in upper-case hexadecimal, without leading zeros.
pub open spec fn hex(n: nat) -> Seq<u8>
    decreases n,
{
    if n < 16 {
        seq![hex_digit(n)]
    } else {
        hex(n / 16).push(hex_digit(n % 16))
    }
}

/// Carriage return and line feed.
pub open spec fn crlf() -> Seq<u8> {
    seq![13u8, 10u8]
}

/// One chunk on the wire: its length in hex, CRLF, its bytes, CRLF.
pub open spec fn chunk_frame(c: Seq<u8>) -> Seq<u8> {
    hex(c.len()) + crlf() + c + crlf()
}

/// The number of bytes that the next chunk of `b` takes.
pub open spec fn next_chunk_len(b: Seq<u8>) -> int {
    if b.len() < CHUNK_SIZE {
        b.len() as int
    } else {
        CHUNK_SIZE as int
    }
}

/// The chunks of `b` on the wire, each of at most `CHUNK_SIZE` bytes, without the last-chunk marker.
pub open spec fn chunked(b: Seq<u8>) -> Seq<u8>
    decreases b.len(),
{
    if b.len() == 0 {
        Seq::empty()
    } else {
        chunk_frame(b.take(next_chunk_len(b))) + chunked(b.skip(next_chunk_len(b)))
    }
}

/// The zero-length chunk that ends every body: `0` CRLF CRLF.
pub open spec fn last_chunk() -> Seq<u8> {
    seq![48u8, 13u8, 10u8, 13u8, 10u8]
}

/// The bytes of a whole response with the given header entries: the UTF-8
/// head, a blank-line separator, the chunked body if any, and the last chunk.
pub open spec fn wire(
    v: Version,
    s: StatusCode,
    ps: Seq<(Seq<char>, Seq<char>)>,
    body: Option<Seq<u8>>,
) -> Seq<u8> {
    vstd::utf8::encode_utf8(head_text(v, s, ps) + seq!['\n', '\n']) + match body {
        Some(b) => chunked(b),
        None => Seq::empty(),
    } + last_chunk()
}

/// Whether `c` is an upper-case hexadecimal digit.
pub open spec fn is_hex_digit(c: u8) -> bool {
    (48 <= c && c <= 57) || (65 <= c && c <= 70)
}

/// The value of a hexadecimal digit.
pub open spec fn digit_value(c: u8) -> nat {
    if 48 <= c && c <= 57 {
        (c - 48) as nat
    } else if 65 <= c && c <= 70 {
        (c - 55) as nat
    } else {
        0
    }
}

/// The number that the hexadecimal digits `d` denote.
pub open spec fn hex_value(d: Seq<u8>) -> nat
    decreases d.len(),
{
    if d.len() == 0 {
        0
    } else {
        hex_value(d.drop_last()) * 16 + digit_value(d.last())
    }
}

/// The body `b` cut into chunks of `CHUNK_SIZE` bytes, the last one shorter.
pub open spec fn chunks_of(b: Seq<u8>) -> Seq<Seq<u8>>
    decreases b.len(),
{
    if b.len() == 0 {
        Seq::empty()
    } else {
        seq![b.take(next_chunk_len(b))] + chunks_of(b.skip(next_chunk_len(b)))
    }
}

/// The sequences of `cs` one after the other.
pub open spec fn flatten(cs: Seq<Seq<u8>>) -> Seq<u8>
    decreases cs.len(),
{
    if cs.len() == 0 {
        Seq::empty()
    } else {
        cs[0] + flatten(cs.drop_first())
    }
}

proof fn lemma_digit_value(d: nat)
    requires
        d < 16,
    ensures
        is_hex_digit(hex_digit(d)),
        digit_value(hex_digit(d)) == d,
{
}

/// A chunk-size line decodes: it is a non-empty run of hexadecimal digits,
/// none of them a carriage return, whose value is the size written.
pub proof fn lemma_hex_decodes(n: nat)
    ensures
        hex(n).len() > 0,
        forall|i: int| 0 <= i < hex(n).len() ==> is_hex_digit(#[trigger] hex(n)[i]),
        hex_value(hex(n)) == n,
    decreases n,
{
    if n >= 16 {
        lemma_hex_decodes(n / 16);
        assert(hex(n).drop_last() =~= hex(n / 16));
        assert((n / 16) * 16 + n % 16 == n);
        lemma_digit_value(n % 16);
        let h = hex(n);
        assert(h.last() == hex_digit(n % 16));
        assert(hex_value(h) == hex_value(h.drop_last()) * 16 + digit_value(h.last()));
    } else {
        let h = hex(n);
        assert(h.drop_last() =~= Seq::<u8>::empty());
        lemma_digit_value(n);
        assert(hex_value(h) == hex_value(h.drop_last()) * 16 + digit_value(h.last()));
    }
}

/// Chunked framing decodes to the body: the body is its chunks one after the
/// other, every chunk holds between 1 and `CHUNK_SIZE` bytes, and the framed
/// body is each chunk framed by its size line and CRLF, in order. With
/// `lemma_hex_decodes`, a reader of size lines recovers every chunk; the
/// zero-length chunk that follows (`last_chunk`) ends the body.
pub proof fn lemma_chunked_decodes(b: Seq<u8>)
    ensures
        flatten(chunks_of(b)) == b,
        forall|i: int|
            0 <= i < chunks_of(b).len() ==> 0 < (#[trigger] chunks_of(b)[i]).len() <= CHUNK_SIZE,
        chunked(b) == flatten(chunks_of(b).map_values(|c: Seq<u8>| chunk_frame(c))),
    decreases b.len(),
{
    if b.len() == 0 {
        assert(chunks_of(b).map_values(|c: Seq<u8>| chunk_frame(c)) =~= Seq::<Seq<u8>>::empty());
    } else {
        let n = next_chunk_len(b);
        let rest = b.skip(n);
        lemma_chunked_decodes(rest);
        let cs = chunks_of(b);
        assert(cs[0] == b.take(n));
        assert(cs.drop_first() =~= chunks_of(rest));
        assert(b.take(n) + rest =~= b);
        let fs = cs.map_values(|c: Seq<u8>| chunk_frame(c));
        assert(fs.drop_first() =~= chunks_of(rest).map_values(|c: Seq<u8>| chunk_frame(c)));
        assert(fs[0] == chunk_frame(b.take(n)));
        assert forall|i: int| 0 <= i < cs.len() implies 0 < (#[trigger] cs[i]).len() <= CHUNK_SIZE by {
            if i > 0 {
                assert(cs[i] == chunks_of(rest)[i - 1]);
            }
        }
    }
}

/// A response without a body ends its head with the zero-length chunk and
/// carries no other chunk.
pub proof fn lemma_empty_body_framing(v: Version, s: StatusCode, ps: Seq<(Seq<char>, Seq<char>)>)
    ensures
        wire(v, s, ps, None) == vstd::utf8::encode_utf8(head_text(v, s, ps) + seq!['\n', '\n'])
            + last_chunk(),
        chunks_of(Seq::<u8>::empty()).len() == 0,
{
    assert(wire(v, s, ps, None) =~= vstd::utf8::encode_utf8(head_text(v, s, ps) + seq!['\n', '\n'])
        + last_chunk());
}

/// Appends `n` in upper-case hexadecimal.
fn push_hex(out: &mut Vec<u8>, n: usize)
    ensures
        final(out)@ == old(out)@ + hex(n as nat),
    decreases n,
{
    if n >= 16 {
        push_hex(out, n / 16);
    }
    let d = n % 16;
    let digit: u8 = if d < 10 {
        (48 + d) as u8
    } else {
        (55 + d) as u8
    };
    out.push(digit);
    assert(out@ =~= old(out)@ + hex(n as nat));
}

/// Appends `b[lo..hi]`.
fn append_bytes(out: &mut Vec<u8>, b: &Vec<u8>, lo: usize, hi: usize)
    requires
        lo <= hi <= b.len(),
    ensures
        final(out)@ == old(out)@ + b@.subrange(lo as int, hi as int),
{
    let mut i: usize = lo;
    while i < hi
        invariant
            lo <= i <= hi <= b.len(),
            out@ == old(out)@ + b@.subrange(lo as int, i as int),
        decreases hi - i,
    {
        out.push(b[i]);
        i += 1;
        assert(out@ =~= old(out)@ + b@.subrange(lo as int, i as int));
    }
}

/// Appends the chunks of `b`, each of at most `CHUNK_SIZE` bytes.
pub fn push_chunks(out: &mut Vec<u8>, b: &Vec<u8>)
    ensures
        final(out)@ == old(out)@ + chunked(b@),
{
    let len = b.len();
    let mut start: usize = 0;
    assert(b@.skip(0) =~= b@);
    while start < len
        invariant
            start <= len == b.len(),
            out@ + chunked(b@.skip(start as int)) =~= old(out)@ + chunked(b@),
        decreases len - start,
    {
        let n: usize = if len - start < CHUNK_SIZE {
            len - start
        } else {
            CHUNK_SIZE
        };
        let ghost rest = b@.skip(start as int);
        let ghost mid = out@;
        assert(rest.take(n as int) =~= b@.subrange(start as int, start + n));
        assert(rest.skip(n as int) =~= b@.skip(start + n));
        push_hex(out, n);
        out.push(13);
        out.push(10);
        append_bytes(out, b, start, start + n);
        out.push(13);
        out.push(10);
        assert(out@ =~= mid + chunk_frame(rest.take(n as int)));
        start += n;
    }
    assert(b@.skip(len as int) =~= Seq::<u8>::empty());
}

impl HTTPResponse {
    /// The status line and the header lines, separated by line feeds.
    pub fn to_string(&self) -> (r: String)
        ensures
            r@ == head_text(self.version, self.status_code, self.headers.pairs()),
    {
        let mut out = chars_of(self.version.to_string().as_str());
        out.push(' ');
        append_chars(&mut out, &chars_of(self.status_code.to_string().as_str()));
        out.push('\n');
        let ghost start = out@;
        let ghost ps = self.headers.pairs();
        let ghost hl = ps.map_values(|p: (Seq<char>, Seq<char>)| header_line(p));
        let n = self.headers.len();
        let mut i: usize = 0;
        assert(hl.take(0) =~= Seq::<Seq<char>>::empty());
        while i < n
            invariant
                n == ps.len(),
                ps == self.headers.pairs(),
                hl == ps.map_values(|p: (Seq<char>, Seq<char>)| header_line(p)),
                i <= n,
                out@ == start + joined(hl.take(i as int), '\n'),
            decreases n - i,
        {
            let (k, v) = self.headers.entry(i);
            let ghost mid = out@;
            if i > 0 {
                out.push('\n');
            }
            append_chars(&mut out, &chars_of(k.as_str()));
            out.push(':');
            out.push(' ');
            append_chars(&mut out, &chars_of(v.as_str()));
            assert(hl.take(i + 1).drop_last() =~= hl.take(i as int));
            if i > 0 {
                assert(out@ =~= mid.push('\n') + hl[i as int]);
            } else {
                assert(out@ =~= mid + hl[i as int]);
            }
            i += 1;
        }
        assert(hl.take(n as int) =~= hl);
        assert(out@ =~= head_text(self.version, self.status_code, ps));
        string_of(&out)
    }

    /// The response as bytes on the wire. The head ends its lines with a bare
    /// line feed, not CRLF (see `head_text`). `Transfer-Encoding: chunked` is set
    /// first, replacing any earlier value; the body, if any, follows in chunks
    /// of at most `CHUNK_SIZE` bytes, and a zero-length chunk always ends it.
    pub fn to_wire(self) -> (r: Vec<u8>)
        requires
            self.headers.wf(),
        ensures
            r@ == wire(
                self.version,
                self.status_code,
                put(self.headers.pairs(), "Transfer-Encoding"@, "chunked"@),
                match self.body {
                    Some(b) => Some(b@),
                    None => None,
                },
            ),
    {
        let mut response = self;
        response.headers.insert("Transfer-Encoding".to_owned(), "chunked".to_owned());
        let mut head = chars_of(response.to_string().as_str());
        head.push('\n');
        head.push('\n');
        let text = string_of(&head);
        let ghost head_view = head_text(response.version, response.status_code, response.headers.pairs())
            + seq!['\n', '\n'];
        assert(head@ =~= head_view);
        let mut out = vstd::slice::slice_to_vec(text.as_str().as_bytes());
        assert(out@ == vstd::utf8::encode_utf8(head_view));
        let ghost enc = out@;
        match &response.body {
            Some(b) => {
                push_chunks(&mut out, b);
            },
            None => {
                assert(out@ =~= enc + Seq::<u8>::empty());
            },
        }
        let ghost mid = out@;
        out.push(48);
        out.push(13);
        out.push(10);
        out.push(13);
        out.push(10);
        assert(out@ =~= mid + last_chunk());
        out
    }
}

} // verus!
