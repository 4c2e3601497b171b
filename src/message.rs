//! The wire model of one SSDP datagram: its kind, its header lines, and the
//! parser and serializer between that model and bytes.
use vstd::prelude::*;

verus! {

/// Carriage return.
pub const CR: u8 = 13;
/// Line feed.
pub const LF: u8 = 10;
/// The colon that ends a header name.
pub const COLON: u8 = 58;
/// A space.
pub const SP: u8 = 32;
/// A horizontal tab.
pub const HT: u8 = 9;

/// Enumerates the kinds of SSDP messages.
#[derive(Copy, Clone, Hash, Debug, PartialEq, Eq, Structural)]
pub enum MessageType {
    /// A notify message.
    Notify,
    /// A search message.
    Search,
    /// A response to a search message.
    Response,
}

/// Why a datagram could not be read as a message.
#[derive(Copy, Clone, Debug, PartialEq, Eq, Structural)]
pub enum SSDPError {
    /// The bytes are not a well-framed SSDP message.
    InvalidMessage,
    /// The bytes are a well-framed message of another kind than the one asked for.
    KindMismatch { expected: MessageType, found: MessageType },
}

/// What a message is: its kind and its header lines, in order, as
/// (name, value) byte strings. A repeated header is one line per value.
pub struct MessageView {
    pub kind: MessageType,
    pub headers: Seq<(Seq<u8>, Seq<u8>)>,
}

// ---------------------------------------------------------------------------
// Byte-level vocabulary
// ---------------------------------------------------------------------------

pub open spec fn crlf() -> Seq<u8> {
    seq![CR, LF]
}

/// `M-SEARCH * HTTP/1.1`
pub open spec fn search_line() -> Seq<u8> {
    seq![77u8, 45, 83, 69, 65, 82, 67, 72, 32, 42, 32, 72, 84, 84, 80, 47, 49, 46, 49]
}

/// `NOTIFY * HTTP/1.1`
pub open spec fn notify_line() -> Seq<u8> {
    seq![78u8, 79, 84, 73, 70, 89, 32, 42, 32, 72, 84, 84, 80, 47, 49, 46, 49]
}

/// `HTTP/1.1 200 OK`
pub open spec fn response_line() -> Seq<u8> {
    seq![72u8, 84, 84, 80, 47, 49, 46, 49, 32, 50, 48, 48, 32, 79, 75]
}

/// `HTTP/1.1 `, the start of every status line.
pub open spec fn http_version_sp() -> Seq<u8> {
    seq![72u8, 84, 84, 80, 47, 49, 46, 49, 32]
}

/// The canonical start line written for each kind.
pub open spec fn start_line(kind: MessageType) -> Seq<u8> {
    match kind {
        MessageType::Search => search_line(),
        MessageType::Notify => notify_line(),
        MessageType::Response => response_line(),
    }
}

pub open spec fn is_digit(b: u8) -> bool {
    48 <= b <= 57
}

pub open spec fn is_ws(b: u8) -> bool {
    b == SP || b == HT
}

/// A byte that may stand in a header name: visible ASCII other than the colon.
pub open spec fn is_name_byte(b: u8) -> bool {
    33 <= b <= 126 && b != COLON
}

pub open spec fn lacks(s: Seq<u8>, b: u8) -> bool {
    forall|i: int| 0 <= i < s.len() ==> s[i] != b
}

pub open spec fn valid_name(n: Seq<u8>) -> bool {
    n.len() > 0 && forall|i: int| 0 <= i < n.len() ==> is_name_byte(n[i])
}

/// A value holds no line break and neither starts nor ends with white space
/// (the parser trims it).
pub open spec fn valid_value(v: Seq<u8>) -> bool {
    lacks(v, CR) && lacks(v, LF) && (v.len() > 0 ==> !is_ws(v[0]) && !is_ws(v.last()))
}

/// A message whose every header line survives serialization unchanged.
pub open spec fn well_formed(m: MessageView) -> bool {
    lines_valid(m.headers)
}

/// The first index at or after `i` that holds `b`, or the length if none does.
pub open spec fn index_of(s: Seq<u8>, b: u8, i: int) -> int
    decreases s.len() - i,
{
    if i >= s.len() {
        s.len() as int
    } else if s[i] == b {
        i
    } else {
        index_of(s, b, i + 1)
    }
}

pub open spec fn trim_start(v: Seq<u8>) -> Seq<u8>
    decreases v.len(),
{
    if v.len() > 0 && is_ws(v[0]) {
        trim_start(v.drop_first())
    } else {
        v
    }
}

pub open spec fn trim_end(v: Seq<u8>) -> Seq<u8>
    decreases v.len(),
{
    if v.len() > 0 && is_ws(v.last()) {
        trim_end(v.drop_last())
    } else {
        v
    }
}

// ---------------------------------------------------------------------------
// The grammar
// ---------------------------------------------------------------------------

/// `HTTP/1.1 <3 digits> <reason>`
pub open spec fn is_status_line(l: Seq<u8>) -> bool {
    &&& l.len() >= 13
    &&& l.subrange(0, 9) == http_version_sp()
    &&& is_digit(l[9]) && is_digit(l[10]) && is_digit(l[11])
    &&& l[12] == SP
    &&& lacks(l, LF)
}

/// The kind that a start line announces.
pub open spec fn start_kind(l: Seq<u8>) -> Option<MessageType> {
    if l == search_line() {
        Some(MessageType::Search)
    } else if l == notify_line() {
        Some(MessageType::Notify)
    } else if is_status_line(l) {
        Some(MessageType::Response)
    } else {
        None
    }
}

/// A header line `name: value`, split at its first colon, with the value trimmed.
pub open spec fn parse_line(l: Seq<u8>) -> Option<(Seq<u8>, Seq<u8>)> {
    let c = index_of(l, COLON, 0);
    if c < l.len() && valid_name(l.subrange(0, c)) && lacks(l, LF) {
        Some((l.subrange(0, c), trim_end(trim_start(l.subrange(c + 1, l.len() as int)))))
    } else {
        None
    }
}

/// The header block: CRLF-terminated header lines, then an empty line that
/// ends the datagram. `acc` holds the lines read so far.
pub open spec fn parse_headers(rest: Seq<u8>, acc: Seq<(Seq<u8>, Seq<u8>)>) -> Option<
    Seq<(Seq<u8>, Seq<u8>)>,
>
    decreases rest.len(),
{
    let j = index_of(rest, CR, 0);
    if j < 0 || j + 1 >= rest.len() || rest[j + 1] != LF {
        None
    } else if j == 0 {
        if rest.len() == 2 {
            Some(acc)
        } else {
            None
        }
    } else {
        match parse_line(rest.subrange(0, j)) {
            None => None,
            Some(h) => parse_headers(rest.subrange(j + 2, rest.len() as int), acc.push(h)),
        }
    }
}

/// What a datagram means, whatever its kind.
pub open spec fn parse_spec(s: Seq<u8>) -> Result<MessageView, SSDPError> {
    let j = index_of(s, CR, 0);
    if j + 1 >= s.len() || s[j + 1] != LF {
        Err(SSDPError::InvalidMessage)
    } else {
        match start_kind(s.subrange(0, j)) {
            None => Err(SSDPError::InvalidMessage),
            Some(k) => match parse_headers(s.subrange(j + 2, s.len() as int), seq![]) {
                None => Err(SSDPError::InvalidMessage),
                Some(hs) => Ok(MessageView { kind: k, headers: hs }),
            },
        }
    }
}

/// What a datagram means when a message of kind `expected` is asked for.
pub open spec fn parse_as_spec(s: Seq<u8>, expected: MessageType) -> Result<
    MessageView,
    SSDPError,
> {
    match parse_spec(s) {
        Ok(m) => if m.kind == expected {
            Ok(m)
        } else {
            Err(SSDPError::KindMismatch { expected, found: m.kind })
        },
        Err(e) => Err(e),
    }
}

pub open spec fn render_line(h: (Seq<u8>, Seq<u8>)) -> Seq<u8> {
    h.0 + seq![COLON, SP] + h.1 + crlf()
}

pub open spec fn render_lines(hs: Seq<(Seq<u8>, Seq<u8>)>) -> Seq<u8>
    decreases hs.len(),
{
    if hs.len() == 0 {
        seq![]
    } else {
        render_lines(hs.drop_last()) + render_line(hs.last())
    }
}

/// The bytes of a message: start line, one line per header value, empty line.
pub open spec fn serialize_spec(m: MessageView) -> Seq<u8> {
    start_line(m.kind) + crlf() + render_lines(m.headers) + crlf()
}

// ---------------------------------------------------------------------------
// Lemmas
// ---------------------------------------------------------------------------

pub proof fn lemma_index_of_bounds(s: Seq<u8>, b: u8, i: int)
    requires
        0 <= i <= s.len(),
    ensures
        i <= index_of(s, b, i) <= s.len(),
        forall|k: int| i <= k < index_of(s, b, i) ==> s[k] != b,
        index_of(s, b, i) < s.len() ==> s[index_of(s, b, i)] == b,
    decreases s.len() - i,
{
    if i < s.len() && s[i] != b {
        lemma_index_of_bounds(s, b, i + 1);
    }
}

pub proof fn lemma_index_of_at(s: Seq<u8>, b: u8, i: int, j: int)
    requires
        0 <= i <= j <= s.len(),
        forall|k: int| i <= k < j ==> s[k] != b,
        j == s.len() || s[j] == b,
    ensures
        index_of(s, b, i) == j,
    decreases j - i,
{
    if i < j {
        lemma_index_of_at(s, b, i + 1, j);
    }
}

/// Searching a suffix is searching the whole from the suffix's start.
pub proof fn lemma_index_of_shift(s: Seq<u8>, b: u8, i: int)
    requires
        0 <= i <= s.len(),
    ensures
        index_of(s.subrange(i, s.len() as int), b, 0) == index_of(s, b, i) - i,
{
    let r = s.subrange(i, s.len() as int);
    lemma_index_of_bounds(s, b, i);
    lemma_index_of_at(r, b, 0, index_of(s, b, i) - i);
}

proof fn lemma_render_lines_front(hs: Seq<(Seq<u8>, Seq<u8>)>)
    requires
        hs.len() > 0,
    ensures
        render_lines(hs) == render_line(hs[0]) + render_lines(hs.drop_first()),
    decreases hs.len(),
{
    if hs.len() == 1 {
        assert(hs.drop_last() =~= seq![]);
        assert(hs.drop_first() =~= seq![]);
        assert(render_lines(hs) =~= render_line(hs[0]) + render_lines(hs.drop_first()));
    } else {
        let dl = hs.drop_last();
        lemma_render_lines_front(dl);
        assert(dl.drop_first() =~= hs.drop_first().drop_last());
        assert(hs.drop_first().last() == hs.last());
        assert(render_lines(hs) =~= render_line(hs[0]) + render_lines(hs.drop_first()));
    }
}

proof fn lemma_trim_valid(v: Seq<u8>)
    requires
        valid_value(v),
    ensures
        trim_end(trim_start(seq![SP] + v)) == v,
{
    let w = seq![SP] + v;
    assert(w.drop_first() =~= v);
    assert(trim_start(v) == v);
    assert(trim_start(w) == v);
}

proof fn lemma_parse_rendered_line(h: (Seq<u8>, Seq<u8>))
    requires
        valid_name(h.0),
        valid_value(h.1),
    ensures
        parse_line(h.0 + seq![COLON, SP] + h.1) == Some(h),
{
    let l = h.0 + seq![COLON, SP] + h.1;
    let c = h.0.len() as int;
    assert(l[c] == COLON);
    lemma_index_of_at(l, COLON, 0, c);
    assert(l.subrange(0, c) =~= h.0);
    assert(l.subrange(c + 1, l.len() as int) =~= seq![SP] + h.1);
    lemma_trim_valid(h.1);
    assert forall|i: int| 0 <= i < l.len() implies l[i] != LF by {
        if i >= c + 2 {
            assert(l[i] == h.1[i - c - 2]);
        }
    }
}

proof fn lemma_parse_rendered_headers(
    hs: Seq<(Seq<u8>, Seq<u8>)>,
    acc: Seq<(Seq<u8>, Seq<u8>)>,
)
    requires
        forall|i: int|
            0 <= i < hs.len() ==> valid_name(#[trigger] hs[i].0) && valid_value(hs[i].1),
    ensures
        parse_headers(render_lines(hs) + crlf(), acc) == Some(acc + hs),
    decreases hs.len(),
{
    let rest = render_lines(hs) + crlf();
    if hs.len() == 0 {
        assert(rest =~= crlf());
        lemma_index_of_at(rest, CR, 0, 0);
        assert(acc + hs =~= acc);
    } else {
        let h = hs[0];
        let tail = hs.drop_first();
        lemma_render_lines_front(hs);
        let line = h.0 + seq![COLON, SP] + h.1;
        let j = line.len() as int;
        assert(rest =~= line + crlf() + (render_lines(tail) + crlf()));
        assert forall|k: int| 0 <= k < j implies rest[k] != CR by {
            assert(rest[k] == line[k]);
            if k >= h.0.len() + 2 {
                assert(line[k] == h.1[k - h.0.len() - 2]);
            }
        }
        lemma_index_of_at(rest, CR, 0, j);
        assert(rest.subrange(0, j) =~= line);
        assert(rest.subrange(j + 2, rest.len() as int) =~= render_lines(tail) + crlf());
        lemma_parse_rendered_line(h);
        assert forall|i: int| 0 <= i < tail.len() implies valid_name(#[trigger] tail[i].0)
            && valid_value(tail[i].1) by {
            assert(tail[i] == hs[i + 1]);
        }
        lemma_parse_rendered_headers(tail, acc.push(h));
        assert(acc.push(h) + tail =~= acc + hs);
    }
}

proof fn lemma_start_kind(k: MessageType)
    ensures
        start_kind(start_line(k)) == Some(k),
        lacks(start_line(k), CR),
{
    let l = start_line(k);
    assert(search_line().len() == 19);
    assert(notify_line().len() == 17);
    assert(response_line().len() == 15);
    if k == MessageType::Response {
        assert(l.subrange(0, 9) =~= http_version_sp());
    }
}

/// Serializing a well-formed message and parsing the bytes gives the message
/// back, its kind and its header lines in order, repeated values included;
/// parsing them as a message of its own kind succeeds too.
pub proof fn lemma_round_trip(m: MessageView)
    requires
        well_formed(m),
    ensures
        parse_spec(serialize_spec(m)) == Ok::<MessageView, SSDPError>(m),
        parse_as_spec(serialize_spec(m), m.kind) == Ok::<MessageView, SSDPError>(m),
{
    let s = serialize_spec(m);
    let sl = start_line(m.kind);
    let j = sl.len() as int;
    lemma_start_kind(m.kind);
    assert(s =~= sl + crlf() + (render_lines(m.headers) + crlf()));
    lemma_index_of_at(s, CR, 0, j);
    assert(s.subrange(0, j) =~= sl);
    assert(s.subrange(j + 2, s.len() as int) =~= render_lines(m.headers) + crlf());
    lemma_parse_rendered_headers(m.headers, seq![]);
    assert(seq![] + m.headers =~= m.headers);
}

/// A well-formed message serialized as one kind is refused, as a kind
/// mismatch, when a message of any other kind is asked for.
pub proof fn lemma_kind_rejection(m: MessageView, expected: MessageType)
    requires
        well_formed(m),
        m.kind != expected,
    ensures
        parse_as_spec(serialize_spec(m), expected) == Err::<MessageView, SSDPError>(
            SSDPError::KindMismatch { expected, found: m.kind },
        ),
{
    lemma_round_trip(m);
}

/// Bytes whose first line is no SSDP start line are refused as an invalid
/// message, whatever kind is asked for.
pub proof fn lemma_unknown_start_line(s: Seq<u8>, expected: MessageType)
    requires
        start_kind(s.subrange(0, index_of(s, CR, 0))) is None,
    ensures
        parse_spec(s) == Err::<MessageView, SSDPError>(SSDPError::InvalidMessage),
        parse_as_spec(s, expected) == Err::<MessageView, SSDPError>(SSDPError::InvalidMessage),
{
}

// ---------------------------------------------------------------------------
// Executable model
// ---------------------------------------------------------------------------

/// One header line: a name and one value.
#[derive(Clone, Debug)]
pub struct HeaderLine {
    pub name: Vec<u8>,
    pub value: Vec<u8>,
}

impl View for HeaderLine {
    type V = (Seq<u8>, Seq<u8>);

    open spec fn view(&self) -> (Seq<u8>, Seq<u8>) {
        (self.name@, self.value@)
    }
}

pub open spec fn header_views(hs: Seq<HeaderLine>) -> Seq<(Seq<u8>, Seq<u8>)> {
    hs.map_values(|h: HeaderLine| h@)
}

/// One SSDP datagram. Its start line follows from its kind and is rebuilt
/// when it is serialized.
#[derive(Clone, Debug)]
pub struct SSDPMessage {
    kind: MessageType,
    headers: Vec<HeaderLine>,
}

impl View for SSDPMessage {
    type V = MessageView;

    closed spec fn view(&self) -> MessageView {
        MessageView { kind: self.kind, headers: header_views(self.headers@) }
    }
}

pub open spec fn parsed_view(r: Result<SSDPMessage, SSDPError>) -> Result<MessageView, SSDPError> {
    match r {
        Ok(m) => Ok(m@),
        Err(e) => Err(e),
    }
}

/// The first index at or after `from` that holds `b`, or the length.
pub fn find_byte(s: &[u8], b: u8, from: usize) -> (r: usize)
    requires
        from <= s@.len(),
    ensures
        r == index_of(s@, b, from as int),
{
    let mut i = from;
    while i < s.len()
        invariant
            from <= i <= s@.len(),
            index_of(s@, b, i as int) == index_of(s@, b, from as int),
        decreases s@.len() - i,
    {
        if s[i] == b {
            return i;
        }
        i = i + 1;
    }
    i
}

fn has_byte(s: &[u8], b: u8) -> (r: bool)
    ensures
        r == !lacks(s@, b),
{
    let mut i: usize = 0;
    while i < s.len()
        invariant
            i <= s@.len(),
            forall|k: int| 0 <= k < i ==> s@[k] != b,
        decreases s@.len() - i,
    {
        if s[i] == b {
            return true;
        }
        i = i + 1;
    }
    false
}

fn bytes_eq(a: &[u8], b: &[u8]) -> (r: bool)
    ensures
        r == (a@ == b@),
{
    if a.len() != b.len() {
        return false;
    }
    let mut i: usize = 0;
    while i < a.len()
        invariant
            i <= a@.len(),
            a@.len() == b@.len(),
            forall|k: int| 0 <= k < i ==> a@[k] == b@[k],
        decreases a@.len() - i,
    {
        if a[i] != b[i] {
            return false;
        }
        i = i + 1;
    }
    assert(a@ =~= b@);
    true
}

/// A copy of `s[lo..hi]`.
fn copy_range(s: &[u8], lo: usize, hi: usize) -> (r: Vec<u8>)
    requires
        lo <= hi <= s@.len(),
    ensures
        r@ == s@.subrange(lo as int, hi as int),
{
    let mut r: Vec<u8> = Vec::new();
    let mut i = lo;
    while i < hi
        invariant
            lo <= i <= hi <= s@.len(),
            r@ == s@.subrange(lo as int, i as int),
        decreases hi - i,
    {
        r.push(s[i]);
        i = i + 1;
        assert(r@ =~= s@.subrange(lo as int, i as int));
    }
    r
}

fn push_all(out: &mut Vec<u8>, s: &[u8])
    ensures
        final(out)@ == old(out)@ + s@,
{
    let mut i: usize = 0;
    while i < s.len()
        invariant
            i <= s@.len(),
            out@ == old(out)@ + s@.subrange(0, i as int),
        decreases s@.len() - i,
    {
        out.push(s[i]);
        i = i + 1;
        assert(out@ =~= old(out)@ + s@.subrange(0, i as int));
    }
    assert(s@.subrange(0, s@.len() as int) =~= s@);
}

fn start_line_bytes(kind: MessageType) -> (r: Vec<u8>)
    ensures
        r@ == start_line(kind),
{
    let r: Vec<u8> = match kind {
        MessageType::Search => vec![77u8, 45, 83, 69, 65, 82, 67, 72, 32, 42, 32, 72, 84, 84, 80, 47, 49, 46, 49],
        MessageType::Notify => vec![78u8, 79, 84, 73, 70, 89, 32, 42, 32, 72, 84, 84, 80, 47, 49, 46, 49],
        MessageType::Response => vec![72u8, 84, 84, 80, 47, 49, 46, 49, 32, 50, 48, 48, 32, 79, 75],
    };
    assert(r@ =~= start_line(kind));
    r
}

fn start_kind_of(l: &[u8]) -> (r: Option<MessageType>)
    ensures
        r == start_kind(l@),
{
    let search = start_line_bytes(MessageType::Search);
    let notify = start_line_bytes(MessageType::Notify);
    if bytes_eq(l, search.as_slice()) {
        return Some(MessageType::Search);
    }
    if bytes_eq(l, notify.as_slice()) {
        return Some(MessageType::Notify);
    }
    if l.len() < 13 {
        return None;
    }
    let version: Vec<u8> = vec![72u8, 84, 84, 80, 47, 49, 46, 49, 32];
    assert(version@ =~= http_version_sp());
    let head = vstd::slice::slice_subrange(l, 0, 9);
    if bytes_eq(head, version.as_slice()) && 48 <= l[9] && l[9] <= 57 && 48 <= l[10] && l[10]
        <= 57 && 48 <= l[11] && l[11] <= 57 && l[12] == SP && !has_byte(l, LF) {
        Some(MessageType::Response)
    } else {
        None
    }
}

fn trimmed_bounds(v: &[u8]) -> (r: (usize, usize))
    ensures
        r.0 <= r.1 <= v@.len(),
        v@.subrange(r.0 as int, r.1 as int) == trim_end(trim_start(v@)),
{
    let mut a: usize = 0;
    assert(v@.subrange(0, v@.len() as int) =~= v@);
    while a < v.len() && (v[a] == SP || v[a] == HT)
        invariant
            a <= v@.len(),
            trim_start(v@.subrange(a as int, v@.len() as int)) == trim_start(v@),
        decreases v@.len() - a,
    {
        assert(v@.subrange(a as int, v@.len() as int).drop_first() =~= v@.subrange(
            a + 1,
            v@.len() as int,
        ));
        a = a + 1;
    }
    assert(v@.subrange(a as int, v@.len() as int) == trim_start(v@));
    let mut b: usize = v.len();
    while b > a && (v[b - 1] == SP || v[b - 1] == HT)
        invariant
            a <= b <= v@.len(),
            trim_end(v@.subrange(a as int, b as int)) == trim_end(trim_start(v@)),
        decreases b,
    {
        assert(v@.subrange(a as int, b as int).drop_last() =~= v@.subrange(
            a as int,
            b - 1,
        ));
        b = b - 1;
    }
    (a, b)
}

fn parse_header_line(l: &[u8]) -> (r: Option<HeaderLine>)
    ensures
        match r {
            Some(h) => parse_line(l@) == Some(h@),
            None => parse_line(l@) is None,
        },
{
    let c = find_byte(l, COLON, 0);
    if c >= l.len() || c == 0 || has_byte(l, LF) {
        return None;
    }
    let mut i: usize = 0;
    while i < c
        invariant
            c < l@.len(),
            c == index_of(l@, COLON, 0),
            lacks(l@, LF),
            i <= c,
            forall|k: int| 0 <= k < i ==> is_name_byte(l@[k]),
        decreases c - i,
    {
        if !(33 <= l[i] && l[i] <= 126 && l[i] != COLON) {
            assert(l@.subrange(0, c as int)[i as int] == l@[i as int]);

            return None;
        }
        i = i + 1;
    }
    let name = copy_range(l, 0, c);
    let raw = vstd::slice::slice_subrange(l, c + 1, l.len());
    let (a, b) = trimmed_bounds(raw);
    let value = copy_range(raw, a, b);
    assert(name@ =~= l@.subrange(0, c as int));
    Some(HeaderLine { name, value })
}

impl SSDPMessage {
    /// An empty message of the given kind.
    pub fn new(kind: MessageType) -> (r: SSDPMessage)
        ensures
            r@.kind == kind,
            r@.headers.len() == 0,
    {
        SSDPMessage { kind, headers: Vec::new() }
    }

    pub fn message_type(&self) -> (r: MessageType)
        ensures
            r == self@.kind,
    {
        self.kind
    }

    /// Reads one datagram as a message of whatever kind its start line gives.
    pub fn raw_ssdp(bytes: &[u8]) -> (r: Result<SSDPMessage, SSDPError>)
        ensures
            parsed_view(r) == parse_spec(bytes@),
    {
        let n = bytes.len();
        let j = find_byte(bytes, CR, 0);
        if j >= n || j + 1 >= n || bytes[j + 1] != LF {
            return Err(SSDPError::InvalidMessage);
        }
        let kind = match start_kind_of(vstd::slice::slice_subrange(bytes, 0, j)) {
            Some(k) => k,
            None => {
                return Err(SSDPError::InvalidMessage);
            },
        };
        let ghost body = bytes@.subrange(j + 2, n as int);
        let mut headers: Vec<HeaderLine> = Vec::new();
        let mut pos = j + 2;
        assert(header_views(headers@) =~= seq![]);
        loop
            invariant
                j + 2 <= pos <= n,
                n == bytes@.len(),
                body == bytes@.subrange(j + 2, n as int),
                start_kind(bytes@.subrange(0, j as int)) == Some(kind),
                index_of(bytes@, CR, 0) == j,
                bytes@[j + 1] == LF,
                parse_headers(bytes@.subrange(pos as int, n as int), header_views(headers@))
                    == parse_headers(body, seq![]),
            decreases n - pos,
        {
            let ghost rest = bytes@.subrange(pos as int, n as int);
            let e = find_byte(bytes, CR, pos);
            proof {
                lemma_index_of_shift(bytes@, CR, pos as int);
                lemma_index_of_bounds(bytes@, CR, pos as int);
            }
            if e >= n || e + 1 >= n || bytes[e + 1] != LF {
                return Err(SSDPError::InvalidMessage);
            }
            assert(rest[e - pos + 1] == bytes@[e + 1]);
            if e == pos {
                if e + 2 == n {
                    return Ok(SSDPMessage { kind, headers });
                }
                return Err(SSDPError::InvalidMessage);
            }
            let line = vstd::slice::slice_subrange(bytes, pos, e);
            assert(rest.subrange(0, e - pos) =~= line@);
            assert(rest.subrange(e - pos + 2, rest.len() as int) =~= bytes@.subrange(
                e + 2,
                n as int,
            ));
            match parse_header_line(line) {
                None => {
                    return Err(SSDPError::InvalidMessage);
                },
                Some(h) => {
                    let ghost before = header_views(headers@);
                    headers.push(h);
                    assert(header_views(headers@) =~= before.push(h@));
                    pos = e + 2;
                },
            }
        }
    }

    /// Reads one datagram as a message of kind `expected`.
    pub fn parse_as(bytes: &[u8], expected: MessageType) -> (r: Result<SSDPMessage, SSDPError>)
        ensures
            parsed_view(r) == parse_as_spec(bytes@, expected),
    {
        match SSDPMessage::raw_ssdp(bytes) {
            Ok(m) => if m.kind == expected {
                Ok(m)
            } else {
                Err(SSDPError::KindMismatch { expected, found: m.kind })
            },
            Err(e) => Err(e),
        }
    }

    /// The bytes of this message: its start line, one line per header value,
    /// and the empty line.
    pub fn serialize(&self) -> (r: Vec<u8>)
        ensures
            r@ == serialize_spec(self@),
    {
        let mut out = start_line_bytes(self.kind);
        out.push(CR);
        out.push(LF);
        let mut i: usize = 0;
        while i < self.headers.len()
            invariant
                i <= self.headers@.len(),
                out@ == start_line(self.kind) + crlf() + render_lines(
                    header_views(self.headers@).take(i as int),
                ),
            decreases self.headers@.len() - i,
        {
            let h = &self.headers[i];
            push_all(&mut out, h.name.as_slice());
            out.push(COLON);
            out.push(SP);
            push_all(&mut out, h.value.as_slice());
            out.push(CR);
            out.push(LF);
            let ghost hv = header_views(self.headers@);
            assert(hv.take(i + 1).drop_last() =~= hv.take(i as int));
            i = i + 1;
            assert(out@ =~= start_line(self.kind) + crlf() + render_lines(hv.take(i as int)));
        }
        assert(header_views(self.headers@).take(i as int) =~= header_views(self.headers@));
        out.push(CR);
        out.push(LF);
        assert(out@ =~= serialize_spec(self@));
        out
    }
}


// ---------------------------------------------------------------------------
// Header access
// ---------------------------------------------------------------------------

/// ASCII lower case of one byte.
pub open spec fn lower(b: u8) -> u8 {
    if 65 <= b <= 90 {
        (b + 32) as u8
    } else {
        b
    }
}

/// Header names compare without regard to ASCII case.
pub open spec fn same_name(a: Seq<u8>, b: Seq<u8>) -> bool {
    a.len() == b.len() && forall|i: int| 0 <= i < a.len() ==> lower(a[i]) == lower(b[i])
}

/// The values of every line named `name`, in order.
pub open spec fn values_of(hs: Seq<(Seq<u8>, Seq<u8>)>, name: Seq<u8>) -> Seq<Seq<u8>>
    decreases hs.len(),
{
    if hs.len() == 0 {
        seq![]
    } else if same_name(hs.last().0, name) {
        values_of(hs.drop_last(), name).push(hs.last().1)
    } else {
        values_of(hs.drop_last(), name)
    }
}

/// The lines not named `name`, in order.
pub open spec fn without(hs: Seq<(Seq<u8>, Seq<u8>)>, name: Seq<u8>) -> Seq<(Seq<u8>, Seq<u8>)>
    decreases hs.len(),
{
    if hs.len() == 0 {
        seq![]
    } else if same_name(hs.last().0, name) {
        without(hs.drop_last(), name)
    } else {
        without(hs.drop_last(), name).push(hs.last())
    }
}

/// One line named `name` for each of `values`.
pub open spec fn lines_for(name: Seq<u8>, values: Seq<Seq<u8>>) -> Seq<(Seq<u8>, Seq<u8>)> {
    values.map_values(|v: Seq<u8>| (name, v))
}

pub open spec fn byte_views(v: Seq<Vec<u8>>) -> Seq<Seq<u8>> {
    v.map_values(|x: Vec<u8>| x@)
}

fn to_lower(b: u8) -> (r: u8)
    ensures
        r == lower(b),
{
    if 65 <= b && b <= 90 {
        b + 32
    } else {
        b
    }
}

fn names_match(a: &[u8], b: &[u8]) -> (r: bool)
    ensures
        r == same_name(a@, b@),
{
    if a.len() != b.len() {
        return false;
    }
    let mut i: usize = 0;
    while i < a.len()
        invariant
            i <= a@.len(),
            a@.len() == b@.len(),
            forall|k: int| 0 <= k < i ==> lower(a@[k]) == lower(b@[k]),
        decreases a@.len() - i,
    {
        if to_lower(a[i]) != to_lower(b[i]) {
            return false;
        }
        i = i + 1;
    }
    true
}

/// The first index at or after `i` whose line is named `name`, or the length.
pub open spec fn first_named(hs: Seq<(Seq<u8>, Seq<u8>)>, name: Seq<u8>, i: int) -> int
    decreases hs.len() - i,
{
    if i >= hs.len() {
        hs.len() as int
    } else if same_name(hs[i].0, name) {
        i
    } else {
        first_named(hs, name, i + 1)
    }
}

/// The lines `hs` with the header `name` set to `new_lines`: they stand where
/// the first line of that name stood, or at the end where there was none;
/// the other lines of that name go, and every other line keeps its place.
pub open spec fn replaced(
    hs: Seq<(Seq<u8>, Seq<u8>)>,
    name: Seq<u8>,
    new_lines: Seq<(Seq<u8>, Seq<u8>)>,
) -> Seq<(Seq<u8>, Seq<u8>)> {
    let f = first_named(hs, name, 0);
    hs.take(f) + new_lines + without(hs.skip(f), name)
}

/// Every header line has a valid name and a valid value.
pub open spec fn lines_valid(hs: Seq<(Seq<u8>, Seq<u8>)>) -> bool {
    forall|i: int| 0 <= i < hs.len() ==> valid_name(#[trigger] hs[i].0) && valid_value(hs[i].1)
}

pub open spec fn values_valid(vs: Seq<Seq<u8>>) -> bool {
    forall|i: int| 0 <= i < vs.len() ==> valid_value(#[trigger] vs[i])
}

pub proof fn lemma_first_named_bounds(hs: Seq<(Seq<u8>, Seq<u8>)>, name: Seq<u8>, i: int)
    requires
        0 <= i <= hs.len(),
    ensures
        i <= first_named(hs, name, i) <= hs.len(),
        forall|k: int| i <= k < first_named(hs, name, i) ==> !same_name(#[trigger] hs[k].0, name),
        first_named(hs, name, i) < hs.len() ==> same_name(hs[first_named(hs, name, i)].0, name),
    decreases hs.len() - i,
{
    if i < hs.len() && !same_name(hs[i].0, name) {
        lemma_first_named_bounds(hs, name, i + 1);
    }
}

proof fn lemma_without_valid(hs: Seq<(Seq<u8>, Seq<u8>)>, name: Seq<u8>)
    requires
        lines_valid(hs),
    ensures
        lines_valid(without(hs, name)),
    decreases hs.len(),
{
    if hs.len() > 0 {
        assert(lines_valid(hs.drop_last())) by {
            assert forall|i: int| 0 <= i < hs.drop_last().len() implies valid_name(
                #[trigger] hs.drop_last()[i].0,
            ) && valid_value(hs.drop_last()[i].1) by {
                assert(hs.drop_last()[i] == hs[i]);
            }
        }
        lemma_without_valid(hs.drop_last(), name);
        assert(hs.last() == hs[hs.len() - 1]);
    }
}

proof fn lemma_replaced_well_formed(hs: Seq<(Seq<u8>, Seq<u8>)>, name: Seq<u8>, vals: Seq<Seq<u8>>)
    requires
        lines_valid(hs),
        valid_name(name),
        values_valid(vals),
    ensures
        lines_valid(replaced(hs, name, lines_for(name, vals))),
{
    let f = first_named(hs, name, 0);
    lemma_first_named_bounds(hs, name, 0);
    let rest = hs.skip(f);
    assert(lines_valid(rest)) by {
        assert forall|i: int| 0 <= i < rest.len() implies valid_name(#[trigger] rest[i].0)
            && valid_value(rest[i].1) by {
            assert(rest[i] == hs[i + f]);
        }
    }
    lemma_without_valid(rest, name);
    let r = replaced(hs, name, lines_for(name, vals));
    let a = hs.take(f);
    let l = lines_for(name, vals);
    let w = without(rest, name);
    assert forall|i: int| 0 <= i < r.len() implies valid_name(#[trigger] r[i].0) && valid_value(
        r[i].1,
    ) by {
        if i < a.len() {
            assert(r[i] == hs[i]);
        } else if i < a.len() + l.len() {
            assert(r[i] == l[i - a.len()]);
            assert(l[i - a.len()] == (name, vals[i - a.len()]));
        } else {
            assert(r[i] == w[i - a.len() - l.len()]);
        }
    }
}

fn copy_line(h: &HeaderLine) -> (r: HeaderLine)
    ensures
        r@ == h@,
{
    let n = copy_range(h.name.as_slice(), 0, h.name.len());
    let v = copy_range(h.value.as_slice(), 0, h.value.len());
    assert(h.name@.subrange(0, h.name@.len() as int) =~= h.name@);
    assert(h.value@.subrange(0, h.value@.len() as int) =~= h.value@);
    HeaderLine { name: n, value: v }
}

impl SSDPMessage {
    /// The raw values of the header `name`, in order; `None` where it is absent.
    pub fn get_raw(&self, name: &[u8]) -> (r: Option<Vec<Vec<u8>>>)
        ensures
            match r {
                None => values_of(self@.headers, name@).len() == 0,
                Some(v) => byte_views(v@) == values_of(self@.headers, name@) && v@.len() > 0,
            },
    {
        let ghost hs = self@.headers;
        let mut out: Vec<Vec<u8>> = Vec::new();
        let mut i: usize = 0;
        while i < self.headers.len()
            invariant
                i <= self.headers@.len(),
                hs == header_views(self.headers@),
                byte_views(out@) == values_of(hs.take(i as int), name@),
            decreases self.headers@.len() - i,
        {
            let h = &self.headers[i];
            assert(hs.take(i + 1).drop_last() =~= hs.take(i as int));
            if names_match(h.name.as_slice(), name) {
                let v = copy_range(h.value.as_slice(), 0, h.value.len());
                assert(h.value@.subrange(0, h.value@.len() as int) =~= h.value@);
                out.push(v);
            }
            i = i + 1;
            assert(byte_views(out@) =~= values_of(hs.take(i as int), name@));
        }
        assert(hs.take(i as int) =~= hs);
        if out.len() == 0 {
            None
        } else {
            Some(out)
        }
    }

    /// Sets the header `name` to one line per value. Where the name is present
    /// the new lines stand where its first line stood and its other lines go;
    /// where it is new they go at the end. Every other line keeps its place.
    pub fn set_raw(&mut self, name: &[u8], values: Vec<Vec<u8>>)
        ensures
            final(self)@.kind == old(self)@.kind,
            final(self)@.headers == replaced(
                old(self)@.headers,
                name@,
                lines_for(name@, byte_views(values@)),
            ),
            well_formed(old(self)@) && valid_name(name@) && values_valid(byte_views(values@))
                ==> well_formed(final(self)@),
    {
        let ghost hs = self@.headers;
        let ghost new_lines = lines_for(name@, byte_views(values@));
        let mut f: usize = 0;
        while f < self.headers.len() && !names_match(self.headers[f].name.as_slice(), name)
            invariant
                f <= self.headers@.len(),
                hs == header_views(self.headers@),
                first_named(hs, name@, f as int) == first_named(hs, name@, 0),
            decreases self.headers@.len() - f,
        {
            f = f + 1;
        }
        let mut kept: Vec<HeaderLine> = Vec::new();
        let mut i: usize = 0;
        while i < f
            invariant
                i <= f <= self.headers@.len(),
                hs == header_views(self.headers@),
                header_views(kept@) == hs.take(i as int),
            decreases f - i,
        {
            let ghost before = header_views(kept@);
            kept.push(copy_line(&self.headers[i]));
            assert(header_views(kept@) =~= before.push(hs[i as int]));
            i = i + 1;
            assert(header_views(kept@) =~= hs.take(i as int));
        }
        let ghost base = header_views(kept@);
        let mut j: usize = 0;
        while j < values.len()
            invariant
                j <= values@.len(),
                header_views(kept@) == base + lines_for(
                    name@,
                    byte_views(values@).take(j as int),
                ),
            decreases values@.len() - j,
        {
            let n = copy_range(name, 0, name.len());
            let v = copy_range(values[j].as_slice(), 0, values[j].len());
            assert(name@.subrange(0, name@.len() as int) =~= name@);
            assert(values[j as int]@.subrange(0, values[j as int]@.len() as int) =~= values[j as int]@);
            let ghost before = header_views(kept@);
            kept.push(HeaderLine { name: n, value: v });
            assert(header_views(kept@) =~= before.push((name@, values@[j as int]@)));
            assert(lines_for(name@, byte_views(values@).take(j + 1)) =~= lines_for(
                name@,
                byte_views(values@).take(j as int),
            ).push((name@, values@[j as int]@)));
            j = j + 1;
            assert(header_views(kept@) =~= base + lines_for(
                name@,
                byte_views(values@).take(j as int),
            ));
        }
        assert(byte_views(values@).take(j as int) =~= byte_views(values@));
        let ghost mid = header_views(kept@);
        let mut k: usize = f;
        while k < self.headers.len()
            invariant
                f <= k <= self.headers@.len(),
                hs == header_views(self.headers@),
                header_views(kept@) == mid + without(hs.subrange(f as int, k as int), name@),
            decreases self.headers@.len() - k,
        {
            assert(hs.subrange(f as int, k + 1).drop_last() =~= hs.subrange(f as int, k as int));
            if !names_match(self.headers[k].name.as_slice(), name) {
                let ghost before = header_views(kept@);
                kept.push(copy_line(&self.headers[k]));
                assert(header_views(kept@) =~= before.push(hs[k as int]));
            }
            k = k + 1;
            assert(header_views(kept@) =~= mid + without(hs.subrange(f as int, k as int), name@));
        }
        assert(hs.subrange(f as int, k as int) =~= hs.skip(f as int));
        proof {
            lemma_first_named_bounds(hs, name@, 0);
            assert(header_views(kept@) =~= replaced(hs, name@, new_lines));
            if well_formed(old(self)@) && valid_name(name@) && values_valid(byte_views(values@)) {
                lemma_replaced_well_formed(hs, name@, byte_views(values@));
            }
        }
        self.headers = kept;
    }
}

} // verus!
