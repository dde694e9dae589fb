//! The HTTP/1.1 responses that the server sends, as text.
use vstd::prelude::*;
use vstd::utf8::*;
use crate::decimal::{decimal, is_digit, lemma_decimal_value, lemma_parse_decimal, parse_usize,
    push_decimal};

verus! {

/// Status line and headers of a `200 OK` plain-text response, up to the length.
pub const PLAIN_TEXT_HEAD: &'static str = "HTTP/1.1 200 OK\r\nContent-Type: text/plain\r\nContent-Length: ";

/// Status line and headers of a `200 OK` binary response, up to the length.
pub const OCTET_STREAM_HEAD: &'static str =
    "HTTP/1.1 200 OK\r\nContent-Type: application/octet-stream\r\nContent-Length:";

/// Status line and headers of a `200 OK` JSON response, up to the length.
pub const JSON_HEAD: &'static str = "HTTP/1.1 200 OK\r\nContent-Type: application/json\r\nContent-Length:";

/// The blank line that ends the header block.
pub const HEADER_END: &'static str = "\r\n\r\n";

/// A `201 Created` response without a body.
pub const CREATED: &'static str = "HTTP/1.1 201 Created\r\n\r\n";

/// A `404 Not Found` response without a body.
pub const NOT_FOUND: &'static str = "HTTP/1.1 404 Not Found\r\n\r\n";

/// A `200 OK` response without a body.
pub const OK_EMPTY: &'static str = "HTTP/1.1 200 OK\r\n\r\n";

/// The number of bytes that `content` takes in UTF-8.
pub open spec fn byte_len(content: Seq<char>) -> nat {
    encode_utf8(content).len()
}

/// A response whose headers end with the byte length of `content`, followed
/// by the blank line and `content` itself.
pub open spec fn framed(head: Seq<char>, content: Seq<char>) -> Seq<char> {
    head + decimal(byte_len(content)) + HEADER_END@ + content
}

/// The response text `head`, the byte length of `content`, the blank line,
/// then `content`.
pub fn framed_response(head: &str, content: &str) -> (r: String)
    ensures
        r@ == framed(head@, content@),
{
    let len = content.as_bytes().len();
    let mut r = String::new();
    r.append(head);
    push_decimal(&mut r, len);
    r.append(HEADER_END);
    r.append(content);
    assert(r@ =~= framed(head@, content@));
    r
}

/// UTF-8 encoding distributes over concatenation.
pub proof fn lemma_encode_concat(a: Seq<char>, b: Seq<char>)
    ensures
        encode_utf8(a + b) == encode_utf8(a) + encode_utf8(b),
    decreases a.len(),
{
    if a.len() == 0 {
        assert(a + b =~= b);
        assert(encode_utf8(a) =~= Seq::<u8>::empty());
        assert(Seq::<u8>::empty() + encode_utf8(b) =~= encode_utf8(b));
    } else {
        assert((a + b).drop_first() =~= a.drop_first() + b);
        assert((a + b)[0] == a[0]);
        lemma_encode_concat(a.drop_first(), b);
        assert(encode_scalar(a[0] as u32) + (encode_utf8(a.drop_first()) + encode_utf8(b))
            =~= (encode_scalar(a[0] as u32) + encode_utf8(a.drop_first())) + encode_utf8(b));
    }
}

/// On the wire, a framed response is its header block followed by exactly
/// the bytes of the content, and the declared length reads back as the
/// number of those bytes.
pub proof fn lemma_framed_declares_body_length(head: Seq<char>, content: Seq<char>)
    requires
        byte_len(content) <= usize::MAX,
    ensures
        encode_utf8(framed(head, content)) == encode_utf8(
            head + decimal(byte_len(content)) + HEADER_END@,
        ) + encode_utf8(content),
        parse_usize(decimal(byte_len(content))) == Some(encode_utf8(content).len() as usize),
{
    lemma_encode_concat(head + decimal(byte_len(content)) + HEADER_END@, content);
    lemma_parse_decimal(byte_len(content) as usize);
}

/// A blank line (CR LF CR LF) starts at index `i` of `b`.
pub open spec fn blank_line_at(b: Seq<u8>, i: int) -> bool {
    &&& 0 <= i
    &&& i + 4 <= b.len()
    &&& b[i] == 13u8
    &&& b[i + 1] == 10u8
    &&& b[i + 2] == 13u8
    &&& b[i + 3] == 10u8
}

/// The blank line as bytes.
pub proof fn lemma_header_end_bytes()
    ensures
        encode_utf8(HEADER_END@) == seq![13u8, 10u8, 13u8, 10u8],
{
    reveal_strlit("\r\n\r\n");
    assert(HEADER_END@ == "\r\n\r\n"@);
    assert(is_ascii_chars(HEADER_END@));
    is_ascii_chars_encode_utf8(HEADER_END@);
    assert(encode_utf8(HEADER_END@) =~= seq![13u8, 10u8, 13u8, 10u8]);
}

/// A decimal numeral is ASCII digits: its bytes hold neither CR nor LF, and
/// there is at least one.
pub proof fn lemma_decimal_bytes(n: nat)
    ensures
        encode_utf8(decimal(n)).len() > 0,
        forall|j: int|
            0 <= j < encode_utf8(decimal(n)).len() ==> #[trigger] encode_utf8(decimal(n))[j] != 13u8
                && encode_utf8(decimal(n))[j] != 10u8,
{
    let d = decimal(n);
    lemma_decimal_value(n);
    assert(is_ascii_chars(d)) by {
        assert forall|i: int| 0 <= i < d.len() implies '\0' <= #[trigger] d[i] <= '\u{7f}' by {
            assert(is_digit(d[i]));
        }
    }
    is_ascii_chars_encode_utf8(d);
    assert forall|j: int| 0 <= j < encode_utf8(d).len() implies #[trigger] encode_utf8(d)[j] != 13u8
        && encode_utf8(d)[j] != 10u8 by {
        assert(is_digit(d[j]));
        assert(d[j] as u8 == encode_utf8(d)[j]);
    }
}

/// In a header block `h` without a blank line, followed by the digits `d`,
/// the blank line and the body `c`, the first blank line is the one right
/// after the digits, and what follows it is exactly `c`.
pub proof fn lemma_first_blank_line(h: Seq<u8>, d: Seq<u8>, c: Seq<u8>)
    requires
        forall|i: int| !blank_line_at(h, i),
        d.len() > 0,
        forall|j: int| 0 <= j < d.len() ==> #[trigger] d[j] != 13u8 && d[j] != 10u8,
    ensures
        ({
            let b = h + d + seq![13u8, 10u8, 13u8, 10u8] + c;
            let n = (h.len() + d.len()) as int;
            &&& blank_line_at(b, n)
            &&& forall|i: int| 0 <= i < n ==> !blank_line_at(b, i)
            &&& b.take(n) == h + d
            &&& b.skip(n + 4) == c
        }),
{
    let b = h + d + seq![13u8, 10u8, 13u8, 10u8] + c;
    let n = (h.len() + d.len()) as int;
    assert(b.take(n) =~= h + d);
    assert(b.skip(n + 4) =~= c);
    assert(b[n] == 13u8 && b[n + 1] == 10u8 && b[n + 2] == 13u8 && b[n + 3] == 10u8);
    assert forall|i: int| 0 <= i < n implies !blank_line_at(b, i) by {
        if i + 4 <= h.len() {
            assert(b[i] == h[i] && b[i + 1] == h[i + 1] && b[i + 2] == h[i + 2] && b[i + 3] == h[i
                + 3]);
            assert(!blank_line_at(h, i));
        } else {
            let k = if i < h.len() {
                h.len() as int
            } else {
                i
            };
            assert(b[k] == d[k - h.len()]);
            assert(d[k - h.len()] != 13u8 && d[k - h.len()] != 10u8);
        }
    }
}

/// The status line of a `200 OK` response.
pub open spec fn ok_status_line() -> Seq<char> {
    "HTTP/1.1 200 OK\r\n"@
}

/// `lead` ends `s`.
pub open spec fn ends_with(s: Seq<char>, lead: Seq<char>) -> bool {
    lead.len() <= s.len() && s.skip(s.len() - lead.len()) == lead
}

/// Facts about one head of a `200 OK` response: it is ASCII, starts with
/// the status line, ends with `lead`, and its bytes hold no blank line.
pub open spec fn well_formed_head(head: Seq<char>, lead: Seq<char>) -> bool {
    &&& is_prefix_of(ok_status_line(), head)
    &&& ends_with(head, lead)
    &&& forall|i: int| !blank_line_at(encode_utf8(head), i)
}

/// `p` is a prefix of `s`.
pub open spec fn is_prefix_of<T>(p: Seq<T>, s: Seq<T>) -> bool {
    p.len() <= s.len() && s.take(p.len() as int) == p
}

/// The three heads of the `200 OK` responses with a body are well formed;
/// plain text puts a space after `Content-Length:`, the others do not.
pub proof fn lemma_heads_well_formed()
    ensures
        well_formed_head(PLAIN_TEXT_HEAD@, "Content-Length: "@),
        well_formed_head(OCTET_STREAM_HEAD@, "Content-Length:"@),
        well_formed_head(JSON_HEAD@, "Content-Length:"@),
{
    reveal_strlit("HTTP/1.1 200 OK\r\n");
    reveal_strlit("Content-Length: ");
    reveal_strlit("Content-Length:");
    reveal_strlit("HTTP/1.1 200 OK\r\nContent-Type: text/plain\r\nContent-Length: ");
    reveal_strlit("HTTP/1.1 200 OK\r\nContent-Type: application/octet-stream\r\nContent-Length:");
    reveal_strlit("HTTP/1.1 200 OK\r\nContent-Type: application/json\r\nContent-Length:");
    let p = PLAIN_TEXT_HEAD@;
    assert(p == "HTTP/1.1 200 OK\r\nContent-Type: text/plain\r\nContent-Length: "@);
    assert(is_ascii_chars(p));
    is_ascii_chars_encode_utf8(p);
    assert(p.take(17) =~= ok_status_line());
    assert(p.skip(p.len() - 16) =~= "Content-Length: "@);
    assert forall|i: int| !blank_line_at(encode_utf8(p), i) by {
        if blank_line_at(encode_utf8(p), i) {
            assert(p[i] as u8 == 13u8);
        }
    }
    let o = OCTET_STREAM_HEAD@;
    assert(o == "HTTP/1.1 200 OK\r\nContent-Type: application/octet-stream\r\nContent-Length:"@);
    assert(is_ascii_chars(o));
    is_ascii_chars_encode_utf8(o);
    assert(o.take(17) =~= ok_status_line());
    assert(o.skip(o.len() - 15) =~= "Content-Length:"@);
    assert forall|i: int| !blank_line_at(encode_utf8(o), i) by {
        if blank_line_at(encode_utf8(o), i) {
            assert(o[i] as u8 == 13u8);
        }
    }
    let j = JSON_HEAD@;
    assert(j == "HTTP/1.1 200 OK\r\nContent-Type: application/json\r\nContent-Length:"@);
    assert(is_ascii_chars(j));
    is_ascii_chars_encode_utf8(j);
    assert(j.take(17) =~= ok_status_line());
    assert(j.skip(j.len() - 15) =~= "Content-Length:"@);
    assert forall|i: int| !blank_line_at(encode_utf8(j), i) by {
        if blank_line_at(encode_utf8(j), i) {
            assert(j[i] as u8 == 13u8);
        }
    }
}

/// A framed response with a well-formed head, as bytes: it starts with the
/// status line; its first blank line comes right after the head and the
/// length digits; the head ends with `lead` followed by the digits of the
/// content's byte length, which read back as that length; and everything
/// after the blank line is exactly the content's bytes.
pub proof fn lemma_framed_first_blank_line(head: Seq<char>, lead: Seq<char>, content: Seq<char>)
    requires
        well_formed_head(head, lead),
        byte_len(content) <= usize::MAX,
    ensures
        ({
            let b = encode_utf8(framed(head, content));
            let h = encode_utf8(head) + encode_utf8(decimal(byte_len(content)));
            let n = h.len() as int;
            &&& is_prefix_of(encode_utf8(ok_status_line()), b)
            &&& blank_line_at(b, n)
            &&& forall|i: int| 0 <= i < n ==> !blank_line_at(b, i)
            &&& b.take(n) == h
            &&& ends_with(head, lead)
            &&& parse_usize(decimal(byte_len(content))) == Some(byte_len(content) as usize)
            &&& b.skip(n + 4) == encode_utf8(content)
        }),
{
    let d = decimal(byte_len(content));
    let hc = encode_utf8(head);
    let dc = encode_utf8(d);
    let cc = encode_utf8(content);
    lemma_encode_concat(head + d + HEADER_END@, content);
    lemma_encode_concat(head + d, HEADER_END@);
    lemma_encode_concat(head, d);
    lemma_header_end_bytes();
    lemma_decimal_bytes(byte_len(content));
    lemma_first_blank_line(hc, dc, cc);
    lemma_parse_decimal(byte_len(content) as usize);
    let b = encode_utf8(framed(head, content));
    assert(b == hc + dc + seq![13u8, 10u8, 13u8, 10u8] + cc);
    let s = ok_status_line();
    assert(head =~= s + head.skip(s.len() as int));
    lemma_encode_concat(s, head.skip(s.len() as int));
    assert(b.take(encode_utf8(s).len() as int) =~= encode_utf8(s));
}

} // verus!
