//! Structured HTTP responses and the builder that turns one into the
//! exact bytes to put on the wire.

use crate::httprequest::{
    apply_line, colon_free, has_colon, has_http, header_key, header_val, init_model, is_http_at,
    is_token_text, is_ws, parse_from, single_line, token, ReqModel,
};
use vstd::prelude::*;

verus! {

/// The decimal digit characters.
pub open spec fn digit_char(d: int) -> char {
    if d == 0 {
        '0'
    } else if d == 1 {
        '1'
    } else if d == 2 {
        '2'
    } else if d == 3 {
        '3'
    } else if d == 4 {
        '4'
    } else if d == 5 {
        '5'
    } else if d == 6 {
        '6'
    } else if d == 7 {
        '7'
    } else if d == 8 {
        '8'
    } else {
        '9'
    }
}

/// The usual decimal notation of a natural number, most significant digit
/// first, no leading zeros (a single zero for zero itself).
pub open spec fn dec_seq(n: int) -> Seq<char>
    decreases n,
{
    if n < 10 {
        seq![digit_char(n)]
    } else {
        dec_seq(n / 10).push(digit_char(n % 10))
    }
}

fn digit_str(d: u64) -> (s: String)
    requires
        d < 10,
    ensures
        s@ == seq![digit_char(d as int)],
{
    let s = match d {
        0 => "0",
        1 => "1",
        2 => "2",
        3 => "3",
        4 => "4",
        5 => "5",
        6 => "6",
        7 => "7",
        8 => "8",
        _ => "9",
    };
    proof {
        reveal_strlit("0");
        reveal_strlit("1");
        reveal_strlit("2");
        reveal_strlit("3");
        reveal_strlit("4");
        reveal_strlit("5");
        reveal_strlit("6");
        reveal_strlit("7");
        reveal_strlit("8");
        reveal_strlit("9");
    }
    String::from_str(s)
}

/// Writes a number in decimal.
pub fn dec_str(n: u64) -> (s: String)
    ensures
        s@ == dec_seq(n as int),
    decreases n,
{
    if n < 10 {
        digit_str(n)
    } else {
        let mut s = dec_str(n / 10);
        let last = digit_str(n % 10);
        s.append(last.as_str());
        s
    }
}

/// The number of bytes a text occupies on the wire, as the machine
/// reports a length.
pub open spec fn byte_len(s: Seq<char>) -> int {
    (vstd::utf8::encode_utf8(s).len() as usize) as int
}

/// What one response denotes: its fields at the level of sequences, in
/// the shape the wire format is specified over.
pub struct RespModel {
    pub version: Seq<char>,
    pub status_code: u16,
    pub status_text: Seq<char>,
    pub headers: Seq<(Seq<char>, Seq<char>)>,
    pub body: Option<Seq<char>>,
}

pub open spec fn crlf() -> Seq<char> {
    seq!['\r', '\n']
}

/// One serialized header line: `name: value` and a line break.
pub open spec fn header_wire(h: (Seq<char>, Seq<char>)) -> Seq<char> {
    h.0 + seq![':', ' '] + h.1 + crlf()
}

/// The serialized header block, in insertion order.
pub open spec fn headers_wire(hs: Seq<(Seq<char>, Seq<char>)>) -> Seq<char>
    decreases hs.len(),
{
    if hs.len() == 0 {
        Seq::empty()
    } else {
        header_wire(hs[0]) + headers_wire(hs.drop_first())
    }
}

/// The exact wire bytes of a response: the status line, each header in
/// insertion order, a blank line, then the body verbatim.
pub open spec fn wire(m: RespModel) -> Seq<char> {
    m.version + seq![' '] + dec_seq(m.status_code as int) + seq![' '] + m.status_text + crlf()
        + headers_wire(m.headers) + crlf() + (match m.body {
        Option::Some(b) => b,
        Option::None => Seq::empty(),
    })
}

/// The reason phrase that belongs to a status code; empty for a code this
/// core never produces.
pub open spec fn reason_of(code: u16) -> Seq<char> {
    if code == 200 {
        "OK"@
    } else if code == 400 {
        "Bad Request"@
    } else if code == 404 {
        "Not Found"@
    } else if code == 500 {
        "Internal Server Error"@
    } else {
        Seq::empty()
    }
}

/// A structured response: status line components, headers in insertion
/// order, and an optional body. Built once per handled request,
/// serialized, then discarded.
#[derive(Debug)]
pub struct HttpResponse {
    pub version: String,
    pub status_code: u16,
    pub status_text: String,
    pub headers: Vec<(String, String)>,
    pub body: Option<String>,
}

impl View for HttpResponse {
    type V = RespModel;

    open spec fn view(&self) -> RespModel {
        RespModel {
            version: self.version@,
            status_code: self.status_code,
            status_text: self.status_text@,
            headers: Seq::new(self.headers@.len(), |i: int| (self.headers@[i].0@, self.headers@[i].1@)),
            body: match self.body {
                Option::Some(ref b) => Option::Some(b@),
                Option::None => Option::None,
            },
        }
    }
}

impl HttpResponse {
    /// Builds a response for the given status code: version `HTTP/1.1`,
    /// the code's reason phrase, and the headers and body as given.
    pub fn new(status_code: u16, headers: Vec<(String, String)>, body: Option<String>) -> (r:
        HttpResponse)
        ensures
            r@.version == "HTTP/1.1"@,
            r@.status_code == status_code,
            r@.status_text == reason_of(status_code),
            r@.headers == Seq::new(headers@.len(), |i: int| (headers@[i].0@, headers@[i].1@)),
            r@.body == (match body {
                Option::Some(b) => Option::Some(b@),
                Option::None => Option::<Seq<char>>::None,
            }),
    {
        let status_text = if status_code == 200 {
            String::from_str("OK")
        } else if status_code == 400 {
            String::from_str("Bad Request")
        } else if status_code == 404 {
            String::from_str("Not Found")
        } else if status_code == 500 {
            String::from_str("Internal Server Error")
        } else {
            String::new()
        };
        HttpResponse { version: String::from_str("HTTP/1.1"), status_code, status_text, headers, body }
    }

    /// Serializes the response into its exact wire bytes.
    pub fn serialize(&self) -> (s: String)
        ensures
            s@ == wire(self@),
    {
        let mut s = String::new();
        s.append(self.version.as_str());
        s.append(" ");
        let code = dec_str(self.status_code as u64);
        s.append(code.as_str());
        s.append(" ");
        s.append(self.status_text.as_str());
        s.append("\r\n");
        proof {
            reveal_strlit(" ");
            reveal_strlit("\r\n");
            assert(" "@ =~= seq![' ']);
            assert("\r\n"@ =~= crlf());
            assert(s@ =~= self@.version + seq![' '] + dec_seq(self@.status_code as int) + seq![' ']
                + self@.status_text + crlf());
        }
        let n = self.headers.len();
        let mut i: usize = 0;
        while i < n
            invariant
                n == self.headers@.len(),
                i <= n,
                s@ =~= self@.version + seq![' '] + dec_seq(self@.status_code as int) + seq![' ']
                    + self@.status_text + crlf() + headers_wire(self@.headers.take(i as int)),
            decreases n - i,
        {
            s.append(self.headers[i].0.as_str());
            s.append(": ");
            s.append(self.headers[i].1.as_str());
            s.append("\r\n");
            proof {
                reveal_strlit(": ");
                reveal_strlit("\r\n");
                assert(": "@ =~= seq![':', ' ']);
                assert("\r\n"@ =~= crlf());
                lemma_headers_wire_snoc(self@.headers, i as int);
            }
            i += 1;
        }
        proof {
            assert(self@.headers.take(n as int) =~= self@.headers);
        }
        s.append("\r\n");
        match &self.body {
            Option::Some(b) => {
                s.append(b.as_str());
            },
            Option::None => {},
        }
        proof {
            reveal_strlit("\r\n");
            assert("\r\n"@ =~= crlf());
            assert(s@ =~= wire(self@));
        }
        s
    }

    /// The protocol version of the status line.
    pub fn version(&self) -> (r: &String)
        ensures
            r@ == self@.version,
    {
        &self.version
    }

    /// The numeric status code.
    pub fn status_code(&self) -> (r: u16)
        ensures
            r == self@.status_code,
    {
        self.status_code
    }

    /// The reason phrase of the status line.
    pub fn status_text(&self) -> (r: &String)
        ensures
            r@ == self@.status_text,
    {
        &self.status_text
    }

    /// The response headers, in insertion order.
    pub fn headers(&self) -> (r: &Vec<(String, String)>)
        ensures
            self@.headers == Seq::new(r@.len(), |i: int| (r@[i].0@, r@[i].1@)),
    {
        &self.headers
    }

    /// The response body, if one was set.
    pub fn body(&self) -> (r: &Option<String>)
        ensures
            self@.body == (match r {
                Option::Some(b) => Option::Some(b@),
                Option::None => Option::<Seq<char>>::None,
            }),
    {
        &self.body
    }
}

proof fn lemma_headers_wire_snoc(hs: Seq<(Seq<char>, Seq<char>)>, i: int)
    requires
        0 <= i < hs.len(),
    ensures
        headers_wire(hs.take(i + 1)) =~= headers_wire(hs.take(i)) + header_wire(hs[i]),
    decreases i,
{
    if i == 0 {
        assert(hs.take(1).drop_first() =~= Seq::empty());
        assert(headers_wire(hs.take(1).drop_first()) =~= Seq::<char>::empty());
        assert(hs.take(1)[0] == hs[0]);
        assert(headers_wire(hs.take(1)) =~= header_wire(hs[0]));
    } else {
        lemma_headers_wire_snoc(hs.drop_first(), i - 1);
        assert(hs.take(i + 1).drop_first() =~= hs.drop_first().take(i));
        assert(hs.take(i).drop_first() =~= hs.drop_first().take(i - 1));
    }
}

/// Decimal notation is never empty and holds only digit characters —
/// in particular no whitespace, no colon, no line break.
pub proof fn lemma_dec_seq_chars(x: int)
    requires
        x >= 0,
    ensures
        dec_seq(x).len() >= 1,
        forall|i: int| 0 <= i < dec_seq(x).len() ==> !crate::httprequest::is_ws(
            #[trigger] dec_seq(x)[i],
        ) && dec_seq(x)[i] != ':' && dec_seq(x)[i] != '\n',
    decreases x,
{
    if x >= 10 {
        lemma_dec_seq_chars(x / 10);
        assert(dec_seq(x) == dec_seq(x / 10).push(digit_char(x % 10)));
    }
}

/// What the parser finds in a serialized status line: it is classified as
/// a request line with at least three tokens, and the status code stands
/// as its middle token.
proof fn lemma_status_line_facts(code: u16, rt: Seq<char>)
    requires
        rt.len() > 0,
        !crate::httprequest::is_ws(rt[0]),
        crate::httprequest::single_line(rt),
    ensures
        ({
            let sl = "HTTP/1.1"@ + seq![' '] + dec_seq(code as int) + seq![' '] + rt;
            &&& crate::httprequest::has_http(sl)
            &&& crate::httprequest::has_token(sl, 2)
            &&& crate::httprequest::token(sl, 1) == dec_seq(code as int)
            &&& crate::httprequest::single_line(sl)
        }),
{
    reveal_strlit("HTTP/1.1");
    let sl = "HTTP/1.1"@ + seq![' '] + dec_seq(code as int) + seq![' '] + rt;
    let d = dec_seq(code as int);
    let dl = d.len() as int;
    lemma_dec_seq_chars(code as int);
    assert("HTTP/1.1"@.len() == 8);
    assert(forall|x: int| 0 <= x < 8 ==> sl[x] == "HTTP/1.1"@[x]);
    assert(sl[8] == ' ');
    assert(forall|x: int| 0 <= x < dl ==> sl[9 + x] == d[x]);
    assert(sl[9 + dl] == ' ');
    assert(forall|x: int| 0 <= x < rt.len() ==> sl[10 + dl + x] == rt[x]);
    assert(sl[0] == 'H' && sl[1] == 'T' && sl[2] == 'T' && sl[3] == 'P');
    assert(crate::httprequest::is_http_at(sl, 0));
    assert(crate::httprequest::is_token_text("HTTP/1.1"@));
    assert(crate::httprequest::is_token_text(d));
    crate::httprequest::lemma_three_tokens("HTTP/1.1"@, d, rt);
    assert forall|k: int| 0 <= k < sl.len() implies sl[k] != '\n' by {
        if k < 8 {
        } else if k == 8 || k == 9 + dl {
            assert(sl[k] == ' ');
        } else if k < 9 + dl {
            assert(sl[k] == d[k - 9]);
        } else {
            assert(sl[k] == rt[k - 10 - dl]);
        }
    }
}

/// What the parser finds in a serialized header line: it is classified as
/// a header, and name and value come back as written — the value keeping
/// the space that followed the colon.
proof fn lemma_header_line_facts(k: Seq<char>, v: Seq<char>)
    requires
        crate::httprequest::colon_free(k),
        crate::httprequest::single_line(k),
        crate::httprequest::single_line(v),
    ensures
        ({
            let hl = k + seq![':', ' '] + v;
            &&& crate::httprequest::has_colon(hl)
            &&& crate::httprequest::header_key(hl) == k
            &&& crate::httprequest::header_val(hl) == seq![' '] + v
            &&& crate::httprequest::single_line(hl)
        }),
{
    let hl = k + seq![':', ' '] + v;
    let lk = k.len() as int;
    assert(forall|x: int| 0 <= x < lk ==> hl[x] == k[x]);
    assert(hl[lk] == ':' && hl[lk + 1] == ' ');
    assert(forall|x: int| 0 <= x < v.len() ==> hl[lk + 2 + x] == v[x]);
    crate::httprequest::lemma_next_colon_at(hl, 0, lk);
    assert(crate::httprequest::header_key(hl) =~= k);
    assert(crate::httprequest::header_val(hl) =~= seq![' '] + v);
    assert forall|x: int| 0 <= x < hl.len() implies hl[x] != '\n' by {
        if x < lk {
        } else if x == lk || x == lk + 1 {
        } else {
            assert(hl[x] == v[x - lk - 2]);
        }
    }
}

/// A header whose line the parser reads back as a header: the name free
/// of colons, name and value on one line, and the line not holding the
/// request-line marker `HTTP`.
pub open spec fn plain_header(h: (Seq<char>, Seq<char>)) -> bool {
    &&& colon_free(h.0)
    &&& single_line(h.0)
    &&& single_line(h.1)
    &&& !has_http(h.0 + seq![':', ' '] + h.1)
}

/// The mapping that rereading serialized headers produces: each recorded
/// in order, its value behind the space written after the colon.
pub open spec fn reread_headers(
    h: Map<Seq<char>, Seq<char>>,
    hs: Seq<(Seq<char>, Seq<char>)>,
) -> Map<Seq<char>, Seq<char>>
    decreases hs.len(),
{
    if hs.len() == 0 {
        h
    } else {
        reread_headers(h.insert(hs[0].0, seq![' '] + hs[0].1), hs.drop_first())
    }
}

/// Parsing walks a serialized header block line by line, recording every
/// header in order.
proof fn lemma_parse_header_block(
    t: Seq<char>,
    i: int,
    hs: Seq<(Seq<char>, Seq<char>)>,
    m: ReqModel,
)
    requires
        0 <= i,
        i + headers_wire(hs).len() <= t.len(),
        forall|x: int| 0 <= x < headers_wire(hs).len() ==> t[i + x] == headers_wire(hs)[x],
        forall|j: int| 0 <= j < hs.len() ==> plain_header(#[trigger] hs[j]),
    ensures
        parse_from(t, i, m) == parse_from(
            t,
            i + headers_wire(hs).len(),
            ReqModel { headers: reread_headers(m.headers, hs), ..m },
        ),
    decreases hs.len(),
{
    if hs.len() == 0 {
        assert(headers_wire(hs).len() == 0);
        assert(ReqModel { headers: reread_headers(m.headers, hs), ..m } == m);
    } else {
        let h = hs[0];
        let hl = h.0 + seq![':', ' '] + h.1;
        let rest = hs.drop_first();
        let hlen = hl.len() as int;
        assert(plain_header(h));
        assert(headers_wire(hs) =~= hl + crlf() + headers_wire(rest));
        let flat = hl + crlf() + headers_wire(rest);
        assert forall|x: int| i <= x < i + hlen implies t[x] == hl[x - i] by {
            assert(t[i + (x - i)] == headers_wire(hs)[x - i]);
            assert(flat[x - i] == hl[x - i]);
        }
        assert(t[i + hlen] == flat[hlen]);
        assert(t[i + hlen] == '\r');
        assert(t[i + hlen + 1] == flat[hlen + 1]);
        assert(t[i + hlen + 1] == '\n');
        lemma_header_line_facts(h.0, h.1);
        assert forall|x: int| i <= x < i + hlen implies t[x] != '\n' by {
            assert(t[x] == hl[x - i]);
        }
        crate::httprequest::lemma_parse_step_crlf(t, i, i + hlen, m);
        assert(t.subrange(i, i + hlen) =~= hl);
        let m1 = ReqModel { headers: m.headers.insert(h.0, seq![' '] + h.1), ..m };
        assert(apply_line(m, hl) == Some(m1));
        assert forall|x: int| 0 <= x < headers_wire(rest).len() implies t[i + hlen + 2 + x]
            == headers_wire(rest)[x] by {
            assert(t[i + hlen + 2 + x] == headers_wire(hs)[hlen + 2 + x]);
            assert(flat[hlen + 2 + x] == headers_wire(rest)[x]);
        }
        assert(forall|j: int| 0 <= j < rest.len() ==> plain_header(#[trigger] rest[j]));
        lemma_parse_header_block(t, i + hlen + 2, rest, m1);
        assert(reread_headers(m.headers, hs) == reread_headers(m1.headers, rest));
    }
}

/// Law: serialization round-trips through the parser. Serializing a
/// response with any run of headers and a body, and reading the produced
/// bytes back as a generic message, recovers the status code (as the
/// middle token of the status line), every header in order (each value
/// keeping the space written after the colon), and the body verbatim.
/// The reason phrase must be non-empty, every text must stay on one line,
/// header names and the body must be free of colons, and neither a header
/// line nor the body may hold the request-line marker `HTTP`.
pub proof fn lemma_serialization_round_trip(
    code: u16,
    hs: Seq<(Seq<char>, Seq<char>)>,
    b: Seq<char>,
)
    requires
        reason_of(code).len() > 0,
        !is_ws(reason_of(code)[0]),
        single_line(reason_of(code)),
        forall|j: int| 0 <= j < hs.len() ==> plain_header(#[trigger] hs[j]),
        b.len() > 0,
        single_line(b),
        colon_free(b),
        !has_http(b),
    ensures
        ({
            let m = RespModel {
                version: "HTTP/1.1"@,
                status_code: code,
                status_text: reason_of(code),
                headers: hs,
                body: Option::Some(b),
            };
            parse_from(wire(m), 0, init_model()) matches Some(q) && q.path == dec_seq(code as int)
                && q.headers == reread_headers(Map::<Seq<char>, Seq<char>>::empty(), hs) && q.body
                == b
        }),
{
    let rt = reason_of(code);
    let sl = "HTTP/1.1"@ + seq![' '] + dec_seq(code as int) + seq![' '] + rt;
    let w = headers_wire(hs);
    let m = RespModel {
        version: "HTTP/1.1"@,
        status_code: code,
        status_text: rt,
        headers: hs,
        body: Option::Some(b),
    };
    let t = wire(m);
    assert(t =~= sl + crlf() + w + crlf() + b);

    let s0 = sl.len() as int;
    let h0 = s0 + 2;
    let i2 = h0 + w.len();
    let i3 = i2 + 2;
    let n = t.len() as int;
    assert(n == i3 + b.len());
    assert(forall|x: int| 0 <= x < s0 ==> t[x] == sl[x]);
    assert(t[s0] == '\r' && t[s0 + 1] == '\n');
    assert(forall|x: int| 0 <= x < w.len() ==> t[h0 + x] == w[x]);
    assert(t[i2] == '\r' && t[i2 + 1] == '\n');
    assert(forall|x: int| 0 <= x < b.len() ==> t[i3 + x] == b[x]);

    // The status line becomes the request line of the reread message; the
    // status code is its middle token.
    lemma_status_line_facts(code, rt);
    crate::httprequest::lemma_parse_step_crlf(t, 0, s0, init_model());
    assert(t.subrange(0, s0) =~= sl);
    let m1 = ReqModel {
        method: crate::httprequest::method_of(token(sl, 0)),
        path: token(sl, 1),
        version: crate::httprequest::version_of(token(sl, 2)),
        ..init_model()
    };
    assert(apply_line(init_model(), sl) == Some(m1));

    // The header block comes back header by header.
    lemma_parse_header_block(t, h0, hs, m1);
    let m2 = ReqModel { headers: reread_headers(m1.headers, hs), ..m1 };

    // The blank separator line changes nothing.
    crate::httprequest::lemma_parse_step_crlf(t, i2, i2, m2);
    assert(t.subrange(i2, i2) =~= Seq::<char>::empty());
    assert(forall|x: int| !is_http_at(t.subrange(i2, i2), x));
    assert(apply_line(m2, t.subrange(i2, i2)) == Some(m2));

    // The body is the last line and is captured verbatim.
    crate::httprequest::lemma_parse_step_last(t, i3, m2);
    assert(t.subrange(i3, n) =~= b);
    crate::httprequest::lemma_next_colon_at(b, 0, b.len() as int);
    assert(!has_colon(b));
    let m3 = ReqModel { body: b, ..m2 };
    assert(apply_line(m2, b) == Some(m3));

    assert(parse_from(t, 0, init_model()) == Some(m3));
}

} // verus!
