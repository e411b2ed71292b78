//! Structured HTTP requests and the parser that produces them from the raw
//! text of one request.

use vstd::prelude::*;

verus! {

/// The request methods this core recognizes. `UNINITIALIZED` is a sentinel
/// for any unrecognized token; it is a value, not an error.
#[derive(Debug, PartialEq, Eq, Structural, Clone, Copy)]
pub enum Method {
    GET,
    POST,
    UNINITIALIZED,
}

/// The enumeration mapping for method tokens: exactly `GET` and `POST` are
/// recognized; anything else degrades to the sentinel.
pub open spec fn method_of(s: Seq<char>) -> Method {
    if s == "GET"@ {
        Method::GET
    } else if s == "POST"@ {
        Method::POST
    } else {
        Method::UNINITIALIZED
    }
}

impl Method {
    /// Maps a method token to its enumeration value.
    pub fn from(s: &str) -> (m: Method)
        ensures
            m == method_of(s@),
    {
        if str_eq(s, "GET") {
            Method::GET
        } else if str_eq(s, "POST") {
            Method::POST
        } else {
            Method::UNINITIALIZED
        }
    }
}

/// The protocol versions this core recognizes. `V2_0` is reserved; the
/// parser never produces it.
#[derive(Debug, PartialEq, Eq, Structural, Clone, Copy)]
pub enum Version {
    V1_1,
    V2_0,
    UNINITIALIZED,
}

/// The enumeration mapping for version tokens: exactly the literal
/// `HTTP/1.1` is recognized; anything else degrades to the sentinel.
pub open spec fn version_of(s: Seq<char>) -> Version {
    if s == "HTTP/1.1"@ {
        Version::V1_1
    } else {
        Version::UNINITIALIZED
    }
}

impl Version {
    /// Maps a version token to its enumeration value.
    pub fn from(s: &str) -> (v: Version)
        ensures
            v == version_of(s@),
    {
        if str_eq(s, "HTTP/1.1") {
            Version::V1_1
        } else {
            Version::UNINITIALIZED
        }
    }
}

/// The path of the requested resource, exactly as it stood in the request
/// line (query string included; no normalization).
#[derive(Debug)]
pub enum Resource {
    Path(String),
}

impl PartialEq for Resource {
    fn eq(&self, other: &Resource) -> (r: bool) {
        match (self, other) {
            (Resource::Path(a), Resource::Path(b)) => str_eq(a.as_str(), b.as_str()),
        }
    }
}

impl vstd::std_specs::cmp::PartialEqSpecImpl for Resource {
    open spec fn obeys_eq_spec() -> bool {
        true
    }

    open spec fn eq_spec(&self, other: &Resource) -> bool {
        self->Path_0@ == other->Path_0@
    }
}

/// The one way a request text is rejected: a line was classified as the
/// request line but holds fewer than three whitespace-delimited tokens.
#[derive(Debug, PartialEq, Eq, Structural, Clone, Copy)]
pub enum ParseError {
    MalformedRequestLine,
}

/// The whitespace class used to delimit request-line tokens: the
/// characters with the Unicode `White_Space` property.
pub open spec fn is_ws(c: char) -> bool {
    c == ' ' || c == '\t' || c == '\n' || c == '\u{0B}' || c == '\u{0C}' || c == '\r'
        || c == '\u{85}' || c == '\u{A0}' || c == '\u{1680}' || ('\u{2000}' <= c
        && c <= '\u{200A}') || c == '\u{2028}' || c == '\u{2029}' || c == '\u{202F}'
        || c == '\u{205F}' || c == '\u{3000}'
}

/// Index of the first non-whitespace character at or after `i`, or the
/// length of `s` if there is none.
pub open spec fn next_non_ws(s: Seq<char>, i: int) -> int
    decreases s.len() - i,
{
    if i < 0 || i >= s.len() {
        s.len() as int
    } else if !is_ws(s[i]) {
        i
    } else {
        next_non_ws(s, i + 1)
    }
}

/// Index of the first whitespace character at or after `i`, or the length
/// of `s` if there is none.
pub open spec fn next_ws(s: Seq<char>, i: int) -> int
    decreases s.len() - i,
{
    if i < 0 || i >= s.len() {
        s.len() as int
    } else if is_ws(s[i]) {
        i
    } else {
        next_ws(s, i + 1)
    }
}

/// Start of the `n`-th whitespace-delimited token of `s` (counting from
/// zero), or the length of `s` if there are not that many.
pub open spec fn token_start(s: Seq<char>, n: nat) -> int
    decreases n,
{
    if n == 0 {
        next_non_ws(s, 0)
    } else {
        next_non_ws(s, next_ws(s, token_start(s, (n - 1) as nat)))
    }
}

/// End (exclusive) of the `n`-th whitespace-delimited token of `s`.
pub open spec fn token_end(s: Seq<char>, n: nat) -> int {
    next_ws(s, token_start(s, n))
}

/// The `n`-th whitespace-delimited token of `s`; empty if there are not
/// that many tokens.
pub open spec fn token(s: Seq<char>, n: nat) -> Seq<char> {
    s.subrange(token_start(s, n), token_end(s, n))
}

/// Whether `s` holds at least `n + 1` whitespace-delimited tokens.
pub open spec fn has_token(s: Seq<char>, n: nat) -> bool {
    token_start(s, n) < s.len()
}

/// Whether the four characters of `HTTP` stand in `s` at index `i`.
pub open spec fn is_http_at(s: Seq<char>, i: int) -> bool {
    &&& 0 <= i
    &&& i + 4 <= s.len()
    &&& s[i] == 'H'
    &&& s[i + 1] == 'T'
    &&& s[i + 2] == 'T'
    &&& s[i + 3] == 'P'
}

/// Whether `s` holds the substring `HTTP`; such a line is classified as
/// the request line.
pub open spec fn has_http(s: Seq<char>) -> bool {
    exists|i: int| is_http_at(s, i)
}

/// Index of the first colon at or after `i`, or the length of `s` if
/// there is none.
pub open spec fn next_colon(s: Seq<char>, i: int) -> int
    decreases s.len() - i,
{
    if i < 0 || i >= s.len() {
        s.len() as int
    } else if s[i] == ':' {
        i
    } else {
        next_colon(s, i + 1)
    }
}

/// Whether `s` holds a colon; such a line (when not the request line) is
/// classified as a header line.
pub open spec fn has_colon(s: Seq<char>) -> bool {
    next_colon(s, 0) < s.len()
}

/// The header name: everything before the first colon (the whole line if
/// there is none).
pub open spec fn header_key(s: Seq<char>) -> Seq<char> {
    s.subrange(0, next_colon(s, 0))
}

/// The header value: everything after the first colon, leading whitespace
/// kept; empty if there is no colon.
pub open spec fn header_val(s: Seq<char>) -> Seq<char> {
    if has_colon(s) {
        s.subrange(next_colon(s, 0) + 1, s.len() as int)
    } else {
        Seq::empty()
    }
}

/// Index of the first line feed at or after `i`, or the length of `s` if
/// there is none.
pub open spec fn next_nl(s: Seq<char>, i: int) -> int
    decreases s.len() - i,
{
    if i < 0 || i >= s.len() {
        s.len() as int
    } else if s[i] == '\n' {
        i
    } else {
        next_nl(s, i + 1)
    }
}

proof fn lemma_next_nl_bounds(s: Seq<char>, i: int)
    requires
        0 <= i <= s.len(),
    ensures
        i <= next_nl(s, i) <= s.len(),
    decreases s.len() - i,
{
    if i < s.len() && s[i] != '\n' {
        lemma_next_nl_bounds(s, i + 1);
    }
}

/// Characterizes `next_non_ws`: it yields `j` exactly when everything
/// before `j` (from `i` on) is whitespace and `j` is the length or a
/// non-whitespace position.
pub proof fn lemma_next_non_ws_at(s: Seq<char>, i: int, j: int)
    requires
        0 <= i <= j <= s.len(),
        forall|k: int| i <= k < j ==> is_ws(s[k]),
        j == s.len() || !is_ws(s[j]),
    ensures
        next_non_ws(s, i) == j,
    decreases j - i,
{
    if i < j {
        lemma_next_non_ws_at(s, i + 1, j);
    }
}

/// Characterizes `next_ws` in the same way.
pub proof fn lemma_next_ws_at(s: Seq<char>, i: int, j: int)
    requires
        0 <= i <= j <= s.len(),
        forall|k: int| i <= k < j ==> !is_ws(s[k]),
        j == s.len() || is_ws(s[j]),
    ensures
        next_ws(s, i) == j,
    decreases j - i,
{
    if i < j {
        lemma_next_ws_at(s, i + 1, j);
    }
}

/// Characterizes `next_colon` in the same way.
pub proof fn lemma_next_colon_at(s: Seq<char>, i: int, j: int)
    requires
        0 <= i <= j <= s.len(),
        forall|k: int| i <= k < j ==> s[k] != ':',
        j == s.len() || s[j] == ':',
    ensures
        next_colon(s, i) == j,
    decreases j - i,
{
    if i < j {
        lemma_next_colon_at(s, i + 1, j);
    }
}

/// Characterizes `next_nl` in the same way.
pub proof fn lemma_next_nl_at(s: Seq<char>, i: int, j: int)
    requires
        0 <= i <= j <= s.len(),
        forall|k: int| i <= k < j ==> s[k] != '\n',
        j == s.len() || s[j] == '\n',
    ensures
        next_nl(s, i) == j,
    decreases j - i,
{
    if i < j {
        lemma_next_nl_at(s, i + 1, j);
    }
}

fn is_ws_exec(c: char) -> (r: bool)
    ensures
        r == is_ws(c),
{
    c == ' ' || c == '\t' || c == '\n' || c == '\u{0B}' || c == '\u{0C}' || c == '\r'
        || c == '\u{85}' || c == '\u{A0}' || c == '\u{1680}' || ('\u{2000}' <= c
        && c <= '\u{200A}') || c == '\u{2028}' || c == '\u{2029}' || c == '\u{202F}'
        || c == '\u{205F}' || c == '\u{3000}'
}

/// First non-whitespace position at or after `from`.
fn skip_ws(s: &str, from: usize) -> (r: usize)
    requires
        from <= s@.len(),
    ensures
        r == next_non_ws(s@, from as int),
        from <= r <= s@.len(),
{
    let n = s.unicode_len();
    let mut i = from;
    while i < n && is_ws_exec(s.get_char(i))
        invariant
            n == s@.len(),
            from <= i <= n,
            next_non_ws(s@, from as int) == next_non_ws(s@, i as int),
        decreases n - i,
    {
        i += 1;
    }
    i
}

/// First whitespace position at or after `from`.
fn scan_token(s: &str, from: usize) -> (r: usize)
    requires
        from <= s@.len(),
    ensures
        r == next_ws(s@, from as int),
        from <= r <= s@.len(),
{
    let n = s.unicode_len();
    let mut i = from;
    while i < n && !is_ws_exec(s.get_char(i))
        invariant
            n == s@.len(),
            from <= i <= n,
            next_ws(s@, from as int) == next_ws(s@, i as int),
        decreases n - i,
    {
        i += 1;
    }
    i
}

/// Whether the substring `HTTP` stands anywhere in `s`.
pub fn contains_http(s: &str) -> (r: bool)
    ensures
        r == has_http(s@),
{
    let n = s.unicode_len();
    if n < 4 {
        return false;
    }
    let limit = n - 4;
    let mut i: usize = 0;
    while i <= limit
        invariant
            n == s@.len(),
            limit == n - 4,
            i <= limit + 1,
            forall|k: int| 0 <= k < i ==> !is_http_at(s@, k),
        decreases limit + 1 - i,
    {
        if s.get_char(i) == 'H' && s.get_char(i + 1) == 'T' && s.get_char(i + 2) == 'T'
            && s.get_char(i + 3) == 'P' {
            proof {
                assert(is_http_at(s@, i as int));
            }
            return true;
        }
        i += 1;
    }
    false
}

/// Position of the first colon of `s`, or its length if there is none.
fn find_colon(s: &str) -> (r: usize)
    ensures
        r == next_colon(s@, 0),
        r <= s@.len(),
{
    let n = s.unicode_len();
    let mut i: usize = 0;
    while i < n && s.get_char(i) != ':'
        invariant
            n == s@.len(),
            i <= n,
            next_colon(s@, 0) == next_colon(s@, i as int),
        decreases n - i,
    {
        i += 1;
    }
    i
}

/// Whether `s` holds a colon.
pub fn contains_colon(s: &str) -> (r: bool)
    ensures
        r == has_colon(s@),
{
    let n = s.unicode_len();
    find_colon(s) < n
}

/// Splits the request line into its first three tokens and maps them
/// through the enumeration mappings. A line with fewer than three tokens
/// is reported as malformed rather than processed.
pub fn process_req_line(s: &str) -> (r: Result<(Method, Resource, Version), ParseError>)
    ensures
        has_token(s@, 2) <==> r is Ok,
        r matches Ok(t) ==> {
            &&& t.0 == method_of(token(s@, 0))
            &&& t.1->Path_0@ == token(s@, 1)
            &&& t.2 == version_of(token(s@, 2))
        },
        r matches Err(e) ==> e == ParseError::MalformedRequestLine,
{
    let n = s.unicode_len();
    let a0 = skip_ws(s, 0);
    let b0 = scan_token(s, a0);
    let a1 = skip_ws(s, b0);
    let b1 = scan_token(s, a1);
    let a2 = skip_ws(s, b1);
    let b2 = scan_token(s, a2);
    proof {
        assert(token_start(s@, 0) == a0);
        assert(token_start(s@, 1) == a1);
        assert(token_start(s@, 2) == a2);
    }
    if a2 >= n {
        return Err(ParseError::MalformedRequestLine);
    }
    let method = Method::from(s.substring_char(a0, b0));
    let resource = Resource::Path(String::from_str(s.substring_char(a1, b1)));
    let version = Version::from(s.substring_char(a2, b2));
    Ok((method, resource, version))
}

/// Splits a header line at its first colon into name and value; the value
/// keeps any whitespace that followed the colon. A line without a colon
/// becomes a name with an empty value.
pub fn process_header_line(s: &str) -> (r: (String, String))
    ensures
        r.0@ == header_key(s@),
        r.1@ == header_val(s@),
{
    let n = s.unicode_len();
    let c = find_colon(s);
    let key = String::from_str(s.substring_char(0, c));
    let value = if c < n {
        String::from_str(s.substring_char(c + 1, n))
    } else {
        String::new()
    };
    (key, value)
}

/// The header mapping of one request: looking a name up yields the value
/// most recently recorded for it — the last write wins.
#[derive(Debug)]
pub struct Headers {
    entries: Vec<(String, String)>,
}

/// The mapping that a run of entries denotes when each entry is recorded
/// in order: a later entry for the same name overwrites the earlier one.
pub open spec fn entries_map(s: Seq<(String, String)>) -> Map<Seq<char>, Seq<char>>
    decreases s.len(),
{
    if s.len() == 0 {
        Map::empty()
    } else {
        entries_map(s.drop_last()).insert(s.last().0@, s.last().1@)
    }
}

impl View for Headers {
    type V = Map<Seq<char>, Seq<char>>;

    closed spec fn view(&self) -> Map<Seq<char>, Seq<char>> {
        entries_map(self.entries@)
    }
}

proof fn lemma_entries_absent(s: Seq<(String, String)>, k: Seq<char>)
    requires
        forall|i: int| 0 <= i < s.len() ==> s[i].0@ != k,
    ensures
        !entries_map(s).contains_key(k),
    decreases s.len(),
{
    if s.len() > 0 {
        lemma_entries_absent(s.drop_last(), k);
    }
}

proof fn lemma_entries_found(s: Seq<(String, String)>, j: int)
    requires
        0 <= j < s.len(),
        forall|i: int| j < i < s.len() ==> s[i].0@ != s[j].0@,
    ensures
        entries_map(s).contains_key(s[j].0@),
        entries_map(s)[s[j].0@] == s[j].1@,
    decreases s.len(),
{
    if j < s.len() - 1 {
        lemma_entries_found(s.drop_last(), j);
    }
}

impl Headers {
    /// An empty header mapping.
    pub fn new() -> (h: Headers)
        ensures
            h@ == Map::<Seq<char>, Seq<char>>::empty(),
    {
        Headers { entries: Vec::new() }
    }

    /// Records a header; an earlier value for the same name is overwritten
    /// in the mapping this type denotes.
    pub fn insert(&mut self, key: String, value: String)
        ensures
            final(self)@ == old(self)@.insert(key@, value@),
    {
        self.entries.push((key, value));
        proof {
            assert(self.entries@.drop_last() =~= old(self).entries@);
        }
    }

    /// Looks a name up; `None` exactly when the name was never recorded.
    pub fn get(&self, key: &str) -> (r: Option<&String>)
        ensures
            match r {
                Some(v) => self@.contains_key(key@) && v@ == self@[key@],
                None => !self@.contains_key(key@),
            },
    {
        let n = self.entries.len();
        let mut j: usize = n;
        while j > 0
            invariant
                n == self.entries@.len(),
                j <= n,
                forall|k: int| j <= k < n ==> self.entries@[k].0@ != key@,
            decreases j,
        {
            j -= 1;
            if str_eq(self.entries[j].0.as_str(), key) {
                proof {
                    lemma_entries_found(self.entries@, j as int);
                }
                return Some(&self.entries[j].1);
            }
        }
        proof {
            lemma_entries_absent(self.entries@, key@);
        }
        None
    }
}

/// Compares two string slices character by character.
pub fn str_eq(a: &str, b: &str) -> (r: bool)
    ensures
        r == (a@ == b@),
{
    let an = a.unicode_len();
    let bn = b.unicode_len();
    if an != bn {
        proof {
            assert(a@ != b@) by {
                assert(a@.len() != b@.len());
            }
        }
        return false;
    }
    let mut i: usize = 0;
    while i < an
        invariant
            an == a@.len(),
            an == b@.len(),
            i <= an,
            forall|k: int| 0 <= k < i ==> a@[k] == b@[k],
        decreases an - i,
    {
        if a.get_char(i) != b.get_char(i) {
            return false;
        }
        i += 1;
    }
    proof {
        assert(a@ =~= b@);
    }
    true
}

/// The line starting at `i`: the text up to the next line feed, with a
/// carriage return stripped when it stood right before that line feed.
pub open spec fn line_at(s: Seq<char>, i: int) -> Seq<char> {
    let j = next_nl(s, i);
    let raw = s.subrange(i, j);
    if j < s.len() && raw.len() > 0 && raw.last() == '\r' {
        raw.drop_last()
    } else {
        raw
    }
}

/// What one request text denotes: the fields of the structured request, at
/// the level of sequences and mappings.
pub struct ReqModel {
    pub method: Method,
    pub version: Version,
    pub path: Seq<char>,
    pub headers: Map<Seq<char>, Seq<char>>,
    pub body: Seq<char>,
}

/// The parser's starting state: both enumerations at their bootstrapping
/// defaults, no headers, empty path and body.
pub open spec fn init_model() -> ReqModel {
    ReqModel {
        method: Method::UNINITIALIZED,
        version: Version::V1_1,
        path: Seq::empty(),
        headers: Map::empty(),
        body: Seq::empty(),
    }
}

/// How one line changes the parser's state. A line holding `HTTP` is the
/// request line and must carry three tokens; a line with a colon is a
/// header; an empty line is a separator; anything else is the body, each
/// such line overwriting the one before.
pub open spec fn apply_line(m: ReqModel, line: Seq<char>) -> Option<ReqModel> {
    if has_http(line) {
        if has_token(line, 2) {
            Some(
                ReqModel {
                    method: method_of(token(line, 0)),
                    path: token(line, 1),
                    version: version_of(token(line, 2)),
                    ..m
                },
            )
        } else {
            None
        }
    } else if has_colon(line) {
        Some(ReqModel { headers: m.headers.insert(header_key(line), header_val(line)), ..m })
    } else if line.len() == 0 {
        Some(m)
    } else {
        Some(ReqModel { body: line, ..m })
    }
}

/// The parser's state after every line of `s` from position `i` on has
/// been applied to `m`; `None` once any request line is malformed.
pub open spec fn parse_from(s: Seq<char>, i: int, m: ReqModel) -> Option<ReqModel>
    decreases s.len() + 1 - i,
    via parse_from_decreases
{
    if i < 0 || i >= s.len() {
        Some(m)
    } else {
        match apply_line(m, line_at(s, i)) {
            Option::None => Option::None,
            Option::Some(m2) => parse_from(s, next_nl(s, i) + 1, m2),
        }
    }
}

#[via_fn]
proof fn parse_from_decreases(s: Seq<char>, i: int, m: ReqModel) {
    if 0 <= i < s.len() {
        lemma_next_nl_bounds(s, i);
    }
}

/// Law: applying a header line and then another header line with the same
/// name leaves the later value in the mapping — the last write wins.
pub proof fn lemma_header_last_write_wins(m: ReqModel, l1: Seq<char>, l2: Seq<char>)
    requires
        !has_http(l1),
        !has_http(l2),
        has_colon(l1),
        has_colon(l2),
        header_key(l1) == header_key(l2),
    ensures
        apply_line(m, l1) matches Some(m1) && apply_line(m1, l2) matches Some(m2)
            && m2.headers.contains_key(header_key(l2)) && m2.headers[header_key(l2)] == header_val(
            l2,
        ),
{
}

/// Law: a well-formed request line round-trips its three tokens through
/// the enumeration mappings — `GET` to GET, `POST` to POST, any other
/// method token to the sentinel; `HTTP/1.1` to V1_1, any other version
/// token to the sentinel; the path token kept as it stands.
pub proof fn lemma_request_line_round_trip(m: ReqModel, line: Seq<char>)
    requires
        has_http(line),
        has_token(line, 2),
    ensures
        apply_line(m, line) matches Some(m2) && m2.method == method_of(token(line, 0)) && m2.path
            == token(line, 1) && m2.version == version_of(token(line, 2)),
{
}

/// Text free of line feeds: it stays on one line.
pub open spec fn single_line(s: Seq<char>) -> bool {
    forall|i: int| 0 <= i < s.len() ==> s[i] != '\n'
}

/// Text free of colons.
pub open spec fn colon_free(s: Seq<char>) -> bool {
    forall|i: int| 0 <= i < s.len() ==> s[i] != ':'
}

/// One step of the parser: a stretch free of line feeds, closed by a
/// carriage return and a line feed, is one line; parsing continues right
/// after the pair.
pub proof fn lemma_parse_step_crlf(t: Seq<char>, i: int, e: int, m: ReqModel)
    requires
        0 <= i <= e,
        e + 2 <= t.len(),
        forall|x: int| i <= x < e ==> t[x] != '\n',
        t[e] == '\r',
        t[e + 1] == '\n',
    ensures
        parse_from(t, i, m) == (match apply_line(m, t.subrange(i, e)) {
            Option::None => Option::<ReqModel>::None,
            Option::Some(m2) => parse_from(t, e + 2, m2),
        }),
{
    lemma_next_nl_at(t, i, e + 1);
    assert(t.subrange(i, e + 1).drop_last() =~= t.subrange(i, e));
    assert(line_at(t, i) == t.subrange(i, e));
}

/// The parser's last step: a final stretch free of line feeds, with no
/// terminator, is the last line.
pub proof fn lemma_parse_step_last(t: Seq<char>, i: int, m: ReqModel)
    requires
        0 <= i < t.len(),
        forall|x: int| i <= x < t.len() ==> t[x] != '\n',
    ensures
        parse_from(t, i, m) == (match apply_line(m, t.subrange(i, t.len() as int)) {
            Option::None => Option::<ReqModel>::None,
            Option::Some(m2) => Option::Some(m2),
        }),
{
    lemma_next_nl_at(t, i, t.len() as int);
    assert(line_at(t, i) == t.subrange(i, t.len() as int));
    match apply_line(m, t.subrange(i, t.len() as int)) {
        Option::None => {},
        Option::Some(m2) => {
            assert(parse_from(t, t.len() as int + 1, m2) == Some(m2));
        },
    }
}

/// A run of characters that can stand as one whitespace-delimited token:
/// non-empty and free of whitespace.
pub open spec fn is_token_text(s: Seq<char>) -> bool {
    s.len() > 0 && forall|i: int| 0 <= i < s.len() ==> !is_ws(s[i])
}

/// Where the tokens of a line of the shape `a b c` stand: the first two
/// come back exactly, and a third one starts right after the second
/// separator (and is `c` itself when `c` holds no whitespace).
pub proof fn lemma_three_tokens(a: Seq<char>, b: Seq<char>, c: Seq<char>)
    requires
        is_token_text(a),
        is_token_text(b),
        c.len() > 0,
        !is_ws(c[0]),
    ensures
        token(a + seq![' '] + b + seq![' '] + c, 0) == a,
        token(a + seq![' '] + b + seq![' '] + c, 1) == b,
        has_token(a + seq![' '] + b + seq![' '] + c, 2),
        is_token_text(c) ==> token(a + seq![' '] + b + seq![' '] + c, 2) == c,
{
    let line = a + seq![' '] + b + seq![' '] + c;
    let la = a.len() as int;
    let lb = b.len() as int;
    let n = line.len() as int;
    assert(n == la + 1 + lb + 1 + c.len());
    assert(forall|x: int| 0 <= x < la ==> line[x] == a[x]);
    assert(line[la] == ' ');
    assert(forall|x: int| 0 <= x < lb ==> line[la + 1 + x] == b[x]);
    assert(line[la + 1 + lb] == ' ');
    assert(forall|x: int| 0 <= x < c.len() ==> line[la + lb + 2 + x] == c[x]);

    lemma_next_non_ws_at(line, 0, 0);
    lemma_next_ws_at(line, 0, la);
    assert(token_start(line, 0) == 0);
    assert(token_end(line, 0) == la);
    assert(token(line, 0) =~= a);

    lemma_next_non_ws_at(line, la, la + 1);
    lemma_next_ws_at(line, la + 1, la + 1 + lb);
    assert(token_start(line, 1) == la + 1);
    assert(token_end(line, 1) == la + 1 + lb);
    assert(token(line, 1) =~= b);

    lemma_next_non_ws_at(line, la + 1 + lb, la + lb + 2);
    assert(token_start(line, 2) == la + lb + 2);
    assert(has_token(line, 2));
    if c.len() > 0 && (forall|i: int| 0 <= i < c.len() ==> !is_ws(c[i])) {
        lemma_next_ws_at(line, la + lb + 2, n);
        assert(token_end(line, 2) == n);
        assert(token(line, 2) =~= c);
    }
}

/// Law: for every request text consisting of one well-formed three-token
/// request line, parsing round-trips the tokens through the enumeration
/// mappings: the method and version tokens come back as their mapped
/// values and the path token comes back as it stands.
pub proof fn lemma_parse_single_request_line(mt: Seq<char>, pt: Seq<char>, vt: Seq<char>)
    requires
        is_token_text(mt),
        is_token_text(pt),
        is_token_text(vt),
        has_http(mt + seq![' '] + pt + seq![' '] + vt),
    ensures
        parse_from(mt + seq![' '] + pt + seq![' '] + vt, 0, init_model()) == Some(
            ReqModel {
                method: method_of(mt),
                version: version_of(vt),
                path: pt,
                headers: Map::empty(),
                body: Seq::empty(),
            },
        ),
{
    let line = mt + seq![' '] + pt + seq![' '] + vt;
    let n = line.len() as int;
    assert forall|k: int| 0 <= k < n implies line[k] != '\n' by {
        let la = mt.len() as int;
        let lb = pt.len() as int;
        if k < la {
            assert(!is_ws(mt[k]));
        } else if k == la || k == la + 1 + lb {
            assert(line[k] == ' ');
        } else if k < la + 1 + lb {
            assert(line[k] == pt[k - la - 1]);
            assert(!is_ws(pt[k - la - 1]));
        } else {
            assert(line[k] == vt[k - la - lb - 2]);
            assert(!is_ws(vt[k - la - lb - 2]));
        }
    }
    lemma_parse_step_last(line, 0, init_model());
    assert(line.subrange(0, n) =~= line);
    lemma_three_tokens(mt, pt, vt);
    let m2 = ReqModel {
        method: method_of(mt),
        version: version_of(vt),
        path: pt,
        headers: Map::empty(),
        body: Seq::empty(),
    };
    assert(apply_line(init_model(), line) == Some(m2));
}

/// The structured request denoted by one request text.
#[derive(Debug)]
pub struct HttpRequest {
    pub method: Method,
    pub version: Version,
    pub resource: Resource,
    pub headers: Headers,
    pub msg_body: String,
}

impl View for HttpRequest {
    type V = ReqModel;

    open spec fn view(&self) -> ReqModel {
        ReqModel {
            method: self.method,
            version: self.version,
            path: self.resource->Path_0@,
            headers: self.headers@,
            body: self.msg_body@,
        }
    }
}

/// Position of the first line feed of `s` at or after `from`, or its
/// length if there is none.
fn find_nl(s: &str, from: usize) -> (r: usize)
    requires
        from <= s@.len(),
    ensures
        r == next_nl(s@, from as int),
        from <= r <= s@.len(),
{
    let n = s.unicode_len();
    let mut i = from;
    while i < n && s.get_char(i) != '\n'
        invariant
            n == s@.len(),
            from <= i <= n,
            next_nl(s@, from as int) == next_nl(s@, i as int),
        decreases n - i,
    {
        i += 1;
    }
    i
}

impl HttpRequest {
    /// Parses the complete text of one request, line by line. Parsing
    /// degrades to sentinel values rather than failing, with one
    /// exception: a request line holding fewer than three tokens is
    /// reported as a malformed request, never a panic.
    pub fn parse(req: &str) -> (r: Result<HttpRequest, ParseError>)
        ensures
            r matches Ok(q) ==> parse_from(req@, 0, init_model()) == Some(q@),
            r matches Err(e) ==> parse_from(req@, 0, init_model()) is None && e
                == ParseError::MalformedRequestLine,
    {
        let n = req.unicode_len();
        let mut method = Method::UNINITIALIZED;
        let mut version = Version::V1_1;
        let mut resource = Resource::Path(String::new());
        let mut headers = Headers::new();
        let mut body = String::new();
        let mut i: usize = 0;
        while i < n
            invariant
                n == req@.len(),
                i <= n + 1,
                parse_from(req@, 0, init_model()) == parse_from(
                    req@,
                    i as int,
                    ReqModel {
                        method: method,
                        version: version,
                        path: resource->Path_0@,
                        headers: headers@,
                        body: body@,
                    },
                ),
            decreases n - i,
        {
            let ghost cur = ReqModel {
                method: method,
                version: version,
                path: resource->Path_0@,
                headers: headers@,
                body: body@,
            };
            let j = find_nl(req, i);
            let line_end = if j < n && j > i && req.get_char(j - 1) == '\r' {
                j - 1
            } else {
                j
            };
            let line = req.substring_char(i, line_end);
            proof {
                if line_end < j {
                    assert(req@.subrange(i as int, j as int).drop_last() =~= req@.subrange(
                        i as int,
                        j - 1,
                    ));
                }
                assert(line@ == line_at(req@, i as int));
            }
            if contains_http(line) {
                match process_req_line(line) {
                    Ok(t) => {
                        method = t.0;
                        resource = t.1;
                        version = t.2;
                    },
                    Err(e) => {
                        return Err(e);
                    },
                }
            } else if contains_colon(line) {
                let kv = process_header_line(line);
                headers.insert(kv.0, kv.1);
            } else if line.unicode_len() == 0 {
            } else {
                body = String::from_str(line);
            }
            proof {
                let nxt = ReqModel {
                    method: method,
                    version: version,
                    path: resource->Path_0@,
                    headers: headers@,
                    body: body@,
                };
                assert(apply_line(cur, line_at(req@, i as int)) == Some(nxt));
                assert(parse_from(req@, i as int, cur) == parse_from(req@, j + 1, nxt));
            }
            i = if j < n {
                j + 1
            } else {
                n
            };
        }
        Ok(HttpRequest { method, version, resource, headers, msg_body: body })
    }
}

} // verus!
