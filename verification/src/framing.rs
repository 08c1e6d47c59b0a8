//! Messages with a `Content-Length` header.
//!
//! A message is a block of header lines that ends with an empty line, and then as many bytes of UTF-8
//! as its `Content-Length` says.
use vstd::prelude::*;
use vstd::utf8::{decode_utf8, valid_utf8};

use crate::digest::{push_bytes, push_text, utf8};
use crate::text::{cat, cat4, chars_of, copy, decimal, digit, lower_of, number, same, split_at_first, split_once, string_of, to_lower, trim, trim_of, trim_start_of};

verus! {

/// What `String::from_utf8` says of bytes that are not UTF-8.
pub uninterp spec fn utf8_complaint(bytes: Seq<u8>) -> Seq<char>;

/// `String::from_utf8`: the text of bytes that are UTF-8, or what the error says.
#[verifier::external_body]
fn text_of(bytes: Vec<u8>) -> (r: Result<String, String>)
    ensures
        r is Ok == valid_utf8(bytes@),
        match r {
            Ok(s) => s@ == decode_utf8(bytes@),
            Err(e) => e@ == utf8_complaint(bytes@),
        },
{
    String::from_utf8(bytes).map_err(|e| e.to_string())
}

/// The debug form of a text: in quotes, and with escapes.
pub uninterp spec fn debug_form(s: Seq<char>) -> Seq<char>;

/// The `Debug` form of a `str`.
#[verifier::external_body]
pub(crate) fn debug_text(s: &str) -> (r: String)
    ensures
        r@ == debug_form(s@),
{
    format!("{:?}", s)
}

/// Why a text is not a length.
#[derive(Debug, Clone, Copy, PartialEq, Eq, Structural)]
pub enum LengthError {
    Empty,
    InvalidDigit,
    /// It does not fit in a `usize`.
    TooLarge,
}

impl LengthError {
    /// What the error says.
    pub open spec fn text(self) -> Seq<char> {
        match self {
            LengthError::Empty => "cannot parse integer from empty string"@,
            LengthError::InvalidDigit => "invalid digit found in string"@,
            LengthError::TooLarge => "number too large to fit in target type"@,
        }
    }

    /// What the error says.
    pub fn message(self) -> (r: String)
        ensures
            r@ == self.text(),
    {
        match self {
            LengthError::Empty => copy("cannot parse integer from empty string"),
            LengthError::InvalidDigit => copy("invalid digit found in string"),
            LengthError::TooLarge => copy("number too large to fit in target type"),
        }
    }
}

/// Why a message cannot be read.
#[derive(Debug)]
pub enum FrameError {
    /// The stream failed; what it says.
    Io(String),
    UnexpectedEof { while_doing: &'static str },
    MalformedHeader { line: String },
    MissingContentLength,
    InvalidContentLength { value: String, source: LengthError },
    /// The body is not UTF-8; why.
    Utf8(String),
}

#[verifier::ext_equal]
pub enum FrameErrorModel {
    Io(Seq<char>),
    UnexpectedEof { while_doing: Seq<char> },
    MalformedHeader { line: Seq<char> },
    MissingContentLength,
    InvalidContentLength { value: Seq<char>, source: LengthError },
    Utf8(Seq<char>),
}

impl DeepView for FrameError {
    type V = FrameErrorModel;

    open spec fn deep_view(&self) -> FrameErrorModel {
        match self {
            FrameError::Io(e) => FrameErrorModel::Io(e@),
            FrameError::UnexpectedEof { while_doing } => FrameErrorModel::UnexpectedEof {
                while_doing: while_doing@,
            },
            FrameError::MalformedHeader { line } => FrameErrorModel::MalformedHeader { line: line@ },
            FrameError::MissingContentLength => FrameErrorModel::MissingContentLength,
            FrameError::InvalidContentLength { value, source } => FrameErrorModel::InvalidContentLength {
                value: value@,
                source: *source,
            },
            FrameError::Utf8(e) => FrameErrorModel::Utf8(e@),
        }
    }
}

impl FrameErrorModel {
    /// What the error says.
    pub open spec fn text(self) -> Seq<char> {
        match self {
            FrameErrorModel::Io(e) => "io error reading frame: "@ + e,
            FrameErrorModel::UnexpectedEof { while_doing } => "unexpected end of stream while reading "@
                + while_doing,
            FrameErrorModel::MalformedHeader { line } => "malformed header line "@ + debug_form(line),
            FrameErrorModel::MissingContentLength => "missing Content-Length header"@,
            FrameErrorModel::InvalidContentLength { value, source } => "invalid Content-Length value "@
                + debug_form(value) + ": "@ + source.text(),
            FrameErrorModel::Utf8(e) => "body was not valid UTF-8: "@ + e,
        }
    }
}

impl FrameError {
    /// What the error says.
    pub fn message(&self) -> (r: String)
        ensures
            r@ == self.deep_view().text(),
    {
        match self {
            FrameError::Io(e) => cat("io error reading frame: ", e.as_str()),
            FrameError::UnexpectedEof { while_doing } => cat(
                "unexpected end of stream while reading ",
                *while_doing,
            ),
            FrameError::MalformedHeader { line } => {
                let l = debug_text(line.as_str());
                cat("malformed header line ", l.as_str())
            },
            FrameError::MissingContentLength => copy("missing Content-Length header"),
            FrameError::InvalidContentLength { value, source } => {
                let v = debug_text(value.as_str());
                let e = source.message();
                cat4("invalid Content-Length value ", v.as_str(), ": ", e.as_str())
            },
            FrameError::Utf8(e) => cat("body was not valid UTF-8: ", e.as_str()),
        }
    }
}

/// The number that digits stand for behind others that stand for `acc`.
pub open spec fn scanned(ds: Seq<char>, acc: nat) -> Result<nat, LengthError>
    decreases ds.len(),
{
    if ds.len() == 0 {
        Ok(acc)
    } else if !('0' <= ds[0] <= '9') {
        Err(LengthError::InvalidDigit)
    } else if acc * 10 + (ds[0] as u32 - '0' as u32) > usize::MAX {
        Err(LengthError::TooLarge)
    } else {
        scanned(ds.skip(1), (acc * 10 + (ds[0] as u32 - '0' as u32)) as nat)
    }
}

/// The length that a text stands for: decimal digits, with a `+` in front of them or without.
pub open spec fn length_of(s: Seq<char>) -> Result<nat, LengthError> {
    if s.len() == 0 {
        Err(LengthError::Empty)
    } else if s[0] == '+' {
        if s.len() == 1 {
            Err(LengthError::InvalidDigit)
        } else {
            scanned(s.skip(1), 0)
        }
    } else {
        scanned(s, 0)
    }
}

/// The length that a text stands for.
pub fn parse_length(s: &str) -> (r: Result<usize, LengthError>)
    ensures
        match r {
            Ok(n) => length_of(s@) == Ok::<nat, LengthError>(n as nat),
            Err(e) => length_of(s@) == Err::<nat, LengthError>(e),
        },
{
    let v = chars_of(s);
    if v.len() == 0 {
        return Err(LengthError::Empty);
    }
    let mut i: usize = 0;
    if v[0] == '+' {
        if v.len() == 1 {
            return Err(LengthError::InvalidDigit);
        }
        i = 1;
    }
    let mut acc: usize = 0;
    assert(v@.skip(0) =~= v@);
    while i < v.len()
        invariant
            v@ == s@,
            i <= v@.len(),
            length_of(s@) == scanned(v@.skip(i as int), acc as nat),
        decreases v.len() - i,
    {
        let c = v[i];
        assert(v@.skip(i as int)[0] == c);
        assert(v@.skip(i as int).skip(1) =~= v@.skip(i + 1));
        if !('0' <= c && c <= '9') {
            return Err(LengthError::InvalidDigit);
        }
        let d: usize = (c as u32 - '0' as u32) as usize;
        if acc > usize::MAX / 10 || acc * 10 > usize::MAX - d {
            return Err(LengthError::TooLarge);
        }
        acc = acc * 10 + d;
        i += 1;
    }
    Ok(acc)
}

/// A text without the line ends behind it.
pub open spec fn without_newlines(s: Seq<char>) -> Seq<char>
    decreases s.len(),
{
    if s.len() > 0 && (s.last() == '\r' || s.last() == '\n') {
        without_newlines(s.drop_last())
    } else {
        s
    }
}

fn trim_newlines(s: &str) -> (r: String)
    ensures
        r@ == without_newlines(s@),
{
    let v = chars_of(s);
    let mut b: usize = v.len();
    assert(v@.subrange(0, b as int) =~= v@);
    while b > 0 && (v[b - 1] == '\r' || v[b - 1] == '\n')
        invariant
            b <= v@.len(),
            without_newlines(v@) == without_newlines(v@.subrange(0, b as int)),
        decreases b,
    {
        assert(v@.subrange(0, b as int).drop_last() =~= v@.subrange(0, b - 1));
        b -= 1;
    }
    string_of(&v, 0, b)
}

/// The content length after a header line; only a `Content-Length`, in whatever case, changes it.
pub open spec fn header(line: Seq<char>, so_far: Option<nat>) -> Result<Option<nat>, FrameErrorModel> {
    let trimmed = without_newlines(line);
    match split_at_first(trimmed, ':') {
        None => Err(FrameErrorModel::MalformedHeader { line: trimmed }),
        Some((name, value)) => if lower_of(trim_of(name)) == "content-length"@ {
            match length_of(trim_of(value)) {
                Ok(n) => Ok(Some(n)),
                Err(e) => Err(FrameErrorModel::InvalidContentLength { value: trim_of(value), source: e }),
            }
        } else {
            Ok(so_far)
        },
    }
}

/// The content length, as a number.
pub open spec fn length_so_far(n: Option<usize>) -> Option<nat> {
    match n {
        Some(x) => Some(x as nat),
        None => None,
    }
}

/// What follows a line of a header block.
#[derive(Debug, Clone, Copy, PartialEq, Eq, Structural)]
pub enum HeaderStep {
    /// Another line; the content length so far.
    More(Option<usize>),
    /// A body of so many bytes.
    Body(usize),
}

/// Whether a line ends a header block.
pub open spec fn ends_headers(line: Seq<u8>) -> bool {
    line == seq![13u8, 10u8] || line == seq![10u8]
}

/// What follows a line of a header block. An empty line, without even a line end, means that the
/// stream has ended.
pub open spec fn header_step(line: Seq<u8>, so_far: Option<nat>) -> Result<(bool, Option<nat>), FrameErrorModel> {
    if line.len() == 0 {
        Err(FrameErrorModel::UnexpectedEof { while_doing: "headers"@ })
    } else if !valid_utf8(line) {
        Err(FrameErrorModel::Io("stream did not contain valid UTF-8"@))
    } else if ends_headers(line) {
        match so_far {
            Some(n) => Ok((true, Some(n))),
            None => Err(FrameErrorModel::MissingContentLength),
        }
    } else {
        match header(decode_utf8(line), so_far) {
            Ok(c) => Ok((false, c)),
            Err(e) => Err(e),
        }
    }
}

/// What follows a line of a header block.
pub fn read_header(line: Vec<u8>, so_far: Option<usize>) -> (r: Result<HeaderStep, FrameError>)
    ensures
        match r {
            Ok(HeaderStep::More(c)) => header_step(line@, length_so_far(so_far)) == Ok::<
                (bool, Option<nat>),
                FrameErrorModel,
            >((false, length_so_far(c))),
            Ok(HeaderStep::Body(n)) => header_step(line@, length_so_far(so_far)) == Ok::<
                (bool, Option<nat>),
                FrameErrorModel,
            >((true, Some(n as nat))),
            Err(e) => header_step(line@, length_so_far(so_far)) == Err::<(bool, Option<nat>), FrameErrorModel>(
                e.deep_view(),
            ),
        },
{
    let n = line.len();
    if n == 0 {
        return Err(FrameError::UnexpectedEof { while_doing: "headers" });
    }
    let bare = (n == 1 && line[0] == 10) || (n == 2 && line[0] == 13 && line[1] == 10);
    proof {
        if line@ == seq![13u8, 10u8] {
            assert(line@.len() == 2 && line@[0] == 13 && line@[1] == 10);
        }
        if line@ == seq![10u8] {
            assert(line@.len() == 1 && line@[0] == 10);
        }
        if bare {
            assert(line@ =~= seq![10u8] || line@ =~= seq![13u8, 10u8]);
        }
        assert(bare == ends_headers(line@));
    }
    let text = match text_of(line) {
        Ok(t) => t,
        Err(_) => {
            return Err(FrameError::Io(copy("stream did not contain valid UTF-8")));
        },
    };
    if bare {
        return match so_far {
            Some(len) => Ok(HeaderStep::Body(len)),
            None => Err(FrameError::MissingContentLength),
        };
    }
    let trimmed = trim_newlines(text.as_str());
    let (name, value) = match split_once(trimmed.as_str(), ':') {
        Some(p) => p,
        None => {
            return Err(FrameError::MalformedHeader { line: trimmed });
        },
    };
    let name = trim(name.as_str());
    let value = trim(value.as_str());
    let lower = to_lower(name.as_str());
    if same(lower.as_str(), "content-length") {
        match parse_length(value.as_str()) {
            Ok(len) => Ok(HeaderStep::More(Some(len))),
            Err(source) => Err(FrameError::InvalidContentLength { value, source }),
        }
    } else {
        Ok(HeaderStep::More(so_far))
    }
}

/// The text of a body, or why it has none.
pub open spec fn body_text(bytes: Seq<u8>) -> Result<Seq<char>, FrameErrorModel> {
    if valid_utf8(bytes) {
        Ok(decode_utf8(bytes))
    } else {
        Err(FrameErrorModel::Utf8(utf8_complaint(bytes)))
    }
}

/// The text of a body, or why it has none.
pub fn read_body(bytes: Vec<u8>) -> (r: Result<String, FrameError>)
    ensures
        match r {
            Ok(s) => body_text(bytes@) == Ok::<Seq<char>, FrameErrorModel>(s@),
            Err(e) => body_text(bytes@) == Err::<Seq<char>, FrameErrorModel>(e.deep_view()),
        },
{
    match text_of(bytes) {
        Ok(s) => Ok(s),
        Err(e) => Err(FrameError::Utf8(e)),
    }
}

/// The length of the first line, with its line end.
pub open spec fn line_len(s: Seq<u8>) -> nat
    decreases s.len(),
{
    if s.len() == 0 {
        0
    } else if s[0] == 10 {
        1
    } else {
        1 + line_len(s.skip(1))
    }
}

proof fn lemma_line_len(s: Seq<u8>, n: int)
    requires
        0 <= n <= s.len(),
        forall|i: int| 0 <= i < n - 1 ==> s[i] != 10,
        n > 0 && n < s.len() ==> s[n - 1] == 10,
        n == 0 ==> s.len() == 0,
    ensures
        line_len(s) == n,
    decreases s.len(),
{
    if n > 0 {
        if s[0] == 10 {
            assert(n == 1);
        } else if n == 1 {
            assert(s.len() == 1);
            assert(s.skip(1).len() == 0);
            assert(line_len(s.skip(1)) == 0);
        } else {
            assert forall|i: int| 0 <= i < n - 2 implies s.skip(1)[i] != 10 by {
                assert(s.skip(1)[i] == s[i + 1]);
            }
            lemma_line_len(s.skip(1), n - 1);
        }
    }
}

proof fn lemma_line_bound(s: Seq<u8>)
    ensures
        line_len(s) <= s.len(),
        s.len() > 0 ==> line_len(s) > 0,
    decreases s.len(),
{
    if s.len() > 0 && s[0] != 10 {
        lemma_line_bound(s.skip(1));
    }
}

/// The message at the beginning of a stream, or why there is none, and what is left of the stream.
/// `so_far` is the content length that the header lines before have given.
pub open spec fn message_at(s: Seq<u8>, so_far: Option<nat>) -> (Result<Seq<char>, FrameErrorModel>, Seq<u8>)
    decreases s.len(),
{
    let n = line_len(s) as int;
    let rest = s.skip(n);
    match header_step(s.take(n), so_far) {
        Err(e) => (Err(e), rest),
        Ok((true, c)) => {
            let len = c->0 as int;
            if rest.len() < len {
                (Err(FrameErrorModel::UnexpectedEof { while_doing: "body"@ }), Seq::empty())
            } else {
                (body_text(rest.take(len)), rest.skip(len))
            }
        },
        Ok((false, c)) => if rest.len() < s.len() {
            message_at(rest, c)
        } else {
            arbitrary()
        },
    }
}

/// Bytes that are read from the front.
pub struct ByteReader {
    bytes: Vec<u8>,
    at: usize,
}

impl View for ByteReader {
    type V = Seq<u8>;

    /// The bytes that are left.
    closed spec fn view(&self) -> Seq<u8> {
        self.bytes@.skip(self.at as int)
    }
}

impl ByteReader {
    #[verifier::type_invariant]
    spec fn in_bounds(self) -> bool {
        self.at <= self.bytes@.len()
    }

    /// A reader of some bytes.
    pub fn new(bytes: Vec<u8>) -> (r: ByteReader)
        ensures
            r@ == bytes@,
    {
        assert(bytes@.skip(0) =~= bytes@);
        ByteReader { bytes, at: 0 }
    }

    /// The next line, with its line end; empty where nothing is left.
    fn line(&mut self) -> (r: Vec<u8>)
        ensures
            r@ == old(self)@.take(line_len(old(self)@) as int),
            final(self)@ == old(self)@.skip(line_len(old(self)@) as int),
    {
        proof {
            use_type_invariant(&*self);
        }
        let ghost left = self@;
        let start = self.at;
        let mut end: usize = start;
        let mut found = false;
        let mut line: Vec<u8> = Vec::new();
        while end < self.bytes.len() && !found
            invariant
                start <= end <= self.bytes@.len(),
                left == self.bytes@.skip(start as int),
                line@ == left.take(end - start),
                forall|i: int| 0 <= i < end - start - 1 ==> left[i] != 10,
                found ==> end > start && left[end - start - 1] == 10,
                !found && end > start ==> left[end - start - 1] != 10,
            decreases self.bytes.len() - end,
        {
            let b = self.bytes[end];
            assert(left[end - start] == b);
            line.push(b);
            assert(left.take(end - start + 1) =~= left.take(end - start).push(b));
            if b == 10 {
                found = true;
            }
            end += 1;
        }
        proof {
            assert(left.len() == self.bytes@.len() - start);
            if end - start == 0 {
                assert(left.len() == 0);
            }
            lemma_line_len(left, end - start);
            assert(self.bytes@.skip(end as int) =~= left.skip(end - start));
        }
        self.at = end;
        line
    }

    /// The next `n` bytes.
    fn take(&mut self, n: usize) -> (r: Option<Vec<u8>>)
        ensures
            r is Some == (n <= old(self)@.len()),
            r matches Some(v) ==> v@ == old(self)@.take(n as int) && final(self)@ == old(self)@.skip(n as int),
            r is None ==> final(self)@ == Seq::<u8>::empty(),
    {
        proof {
            use_type_invariant(&*self);
        }
        let ghost left = self@;
        if n > self.bytes.len() - self.at {
            let end = self.bytes.len();
            self.at = end;
            assert(self@ =~= Seq::empty());
            return None;
        }
        let start = self.at;
        let mut v: Vec<u8> = Vec::new();
        let mut i: usize = 0;
        while i < n
            invariant
                i <= n,
                start + n <= self.bytes.len(),
                left == self.bytes@.skip(start as int),
                v@ == left.take(i as int),
            decreases n - i,
        {
            let b = self.bytes[start + i];
            assert(left.take(i + 1) =~= left.take(i as int).push(b));
            v.push(b);
            i += 1;
        }
        assert(self.bytes@.skip(start + n) =~= left.skip(n as int));
        self.at = start + n;
        Some(v)
    }
}

/// The next message. A body that is cut short uses up the stream, and so does a stream without one.
pub fn read_message(r: &mut ByteReader) -> (res: Result<String, FrameError>)
    ensures
        ({
            let (want, rest) = message_at(old(r)@, None);
            &&& final(r)@ == rest
            &&& match res {
                Ok(s) => want == Ok::<Seq<char>, FrameErrorModel>(s@),
                Err(e) => want == Err::<Seq<char>, FrameErrorModel>(e.deep_view()),
            }
        }),
{
    let ghost whole = r@;
    let mut so_far: Option<usize> = None;
    loop
        invariant
            message_at(whole, None) == message_at(r@, length_so_far(so_far)),
            whole == old(r)@,
        decreases r@.len(),
    {
        let ghost s = r@;
        proof {
            lemma_line_bound(s);
        }
        let line = r.line();
        let ghost head = line@;
        match read_header(line, so_far) {
            Err(e) => {
                return Err(e);
            },
            Ok(HeaderStep::More(c)) => {
                assert(head.len() > 0);
                so_far = c;
            },
            Ok(HeaderStep::Body(len)) => {
                return match r.take(len) {
                    Some(bytes) => read_body(bytes),
                    None => Err(FrameError::UnexpectedEof { while_doing: "body" }),
                };
            },
        }
    }
}

/// A message with its header.
pub open spec fn framed(body: Seq<char>) -> Seq<u8> {
    utf8("Content-Length: "@) + utf8(decimal(utf8(body).len())) + utf8("\r\n\r\n"@) + utf8(body)
}

/// Appends a message, with its header.
pub fn write_message(w: &mut Vec<u8>, body: &str)
    ensures
        final(w)@ == old(w)@ + framed(body@),
{
    let ghost start = w@;
    let mut bytes: Vec<u8> = Vec::new();
    push_text(&mut bytes, body);
    assert(bytes@ =~= utf8(body@));
    let n = number(bytes.len() as u64);
    push_text(w, "Content-Length: ");
    push_text(w, n.as_str());
    push_text(w, "\r\n\r\n");
    push_bytes(w, bytes.as_slice());
    assert(w@ =~= start + framed(body@));
}

proof fn lemma_scan_push(ds: Seq<char>, c: char, acc: nat)
    ensures
        scanned(ds.push(c), acc) == (match scanned(ds, acc) {
            Err(e) => Err(e),
            Ok(m) => scanned(seq![c], m),
        }),
    decreases ds.len(),
{
    let all = ds.push(c);
    if ds.len() == 0 {
        assert(all =~= seq![c]);
    } else {
        assert(all[0] == ds[0]);
        assert(all.skip(1) =~= ds.skip(1).push(c));
        if '0' <= ds[0] <= '9' {
            lemma_scan_push(ds.skip(1), c, (acc * 10 + (ds[0] as u32 - '0' as u32)) as nat);
        }
    }
}

/// The decimal form of a number holds digits, and they stand for the number.
proof fn lemma_scan_decimal(n: nat)
    requires
        n <= usize::MAX,
    ensures
        decimal(n).len() > 0,
        forall|i: int| 0 <= i < decimal(n).len() ==> '0' <= #[trigger] decimal(n)[i] <= '9',
        scanned(decimal(n), 0) == Ok::<nat, LengthError>(n),
    decreases n,
{
    if n < 10 {
        let d = digit(n as int);
        assert(decimal(n) =~= seq![d]);
        assert(seq![d].skip(1).len() == 0);
        assert(scanned(seq![d].skip(1), n) == Ok::<nat, LengthError>(n));
    } else {
        let d = digit((n % 10) as int);
        lemma_scan_decimal(n / 10);
        lemma_scan_push(decimal(n / 10), d, 0);
        assert(seq![d].skip(1).len() == 0);
        assert(scanned(seq![d].skip(1), n) == Ok::<nat, LengthError>(n));
        assert((n / 10) * 10 + n % 10 == n);
    }
}

/// What begins and ends with something else than white space is not trimmed.
proof fn lemma_trim_none(s: Seq<char>)
    requires
        s.len() > 0,
        !crate::text::is_white(s[0]),
        !crate::text::is_white(s.last()),
    ensures
        trim_of(s) == s,
{
}

/// A text of ASCII characters, as bytes.
spec fn ascii(s: Seq<char>) -> bool {
    vstd::utf8::is_ascii_chars(s)
}

/// The first header line that is written gives the length.
proof fn lemma_header_line(n: nat)
    requires
        n <= usize::MAX,
    ensures
        header("Content-Length: "@ + decimal(n) + seq!['\r', '\n'], None) == Ok::<Option<nat>, FrameErrorModel>(
            Some(n),
        ),
{
    let line = "Content-Length: "@ + decimal(n) + seq!['\r', '\n'];
    let trimmed = "Content-Length: "@ + decimal(n);
    lemma_scan_decimal(n);
    assert(without_newlines(line) == trimmed) by {
        assert(line.drop_last() =~= trimmed.push('\r'));
        assert(trimmed.push('\r').drop_last() =~= trimmed);
        assert(trimmed.last() == decimal(n).last());
        assert(without_newlines(trimmed) == trimmed);
        assert(without_newlines(trimmed.push('\r')) == trimmed);
    }
    reveal_strlit("Content-Length: ");
    reveal_strlit("content-length");
    crate::text::lemma_find_is(trimmed, ':', 14);
    let name = trimmed.take(14);
    let value = trimmed.skip(15);
    assert(split_at_first(trimmed, ':') == Some((name, value)));
    assert(name =~= "Content-Length: "@.take(14));
    lemma_trim_none(name);
    assert(lower_of(name) =~= "content-length"@);
    assert(value =~= seq![' '] + decimal(n));
    assert(value.skip(1) =~= decimal(n));
    assert(trim_start_of(value) == trim_start_of(decimal(n)));
    lemma_trim_none(decimal(n));
    assert(trim_of(value) == decimal(n));
}

/// What is written is read back: reading a message gives its text, and leaves what follows it.
pub proof fn law_read_gives_back_what_was_written(body: Seq<char>, rest: Seq<u8>)
    requires
        utf8(body).len() <= usize::MAX,
    ensures
        message_at(framed(body) + rest, None) == (Ok::<Seq<char>, FrameErrorModel>(body), rest),
{
    let n = utf8(body).len();
    let first = "Content-Length: "@ + decimal(n) + seq!['\r', '\n'];
    let s = framed(body) + rest;
    let after = seq![13u8, 10u8] + utf8(body) + rest;
    lemma_scan_decimal(n);
    reveal_strlit("Content-Length: ");
    reveal_strlit("\r\n\r\n");
    assert(ascii("Content-Length: "@));
    assert(ascii(decimal(n)));
    assert(ascii("\r\n\r\n"@));
    assert(ascii(first));
    vstd::utf8::is_ascii_chars_encode_utf8("Content-Length: "@);
    vstd::utf8::is_ascii_chars_encode_utf8(decimal(n));
    vstd::utf8::is_ascii_chars_encode_utf8("\r\n\r\n"@);
    vstd::utf8::is_ascii_chars_encode_utf8(first);
    assert(utf8("Content-Length: "@) + utf8(decimal(n)) + utf8("\r\n\r\n"@) =~= utf8(first) + seq![13u8, 10u8]);
    assert(s =~= utf8(first) + after);
    let k = first.len() as int;
    assert(utf8(first).len() == k);
    assert forall|i: int| 0 <= i < k - 1 implies s[i] != 10 by {
        assert(s[i] == utf8(first)[i]);
        assert(utf8(first)[i] == first[i] as u8);
        if i < 16 {
            assert(first[i] == "Content-Length: "@[i]);
        } else if i < 16 + decimal(n).len() {
            assert(first[i] == decimal(n)[i - 16]);
        }
    }
    assert(s[k - 1] == 10) by {
        assert(s[k - 1] == utf8(first)[k - 1]);
        assert(first[k - 1] == '\n');
    }
    lemma_line_len(s, k);
    assert(s.take(k) =~= utf8(first));
    assert(s.skip(k) =~= after);
    vstd::utf8::encode_utf8_valid_utf8(first);
    vstd::utf8::encode_utf8_decode_utf8(first);
    lemma_header_line(n);
    assert(!ends_headers(utf8(first))) by {
        assert(utf8(first).len() > 2);
    }
    assert(header_step(s.take(k), None) == Ok::<(bool, Option<nat>), FrameErrorModel>((false, Some(n))));
    lemma_line_len(after, 2);
    assert(after.take(2) =~= seq![13u8, 10u8]);
    assert(after.skip(2) =~= utf8(body) + rest);
    assert(valid_utf8(seq![13u8, 10u8])) by {
        let crlf = seq!['\r', '\n'];
        assert(ascii(crlf));
        vstd::utf8::is_ascii_chars_encode_utf8(crlf);
        vstd::utf8::encode_utf8_valid_utf8(crlf);
        assert(utf8(crlf) =~= seq![13u8, 10u8]);
    }
    assert(header_step(after.take(2), Some(n)) == Ok::<(bool, Option<nat>), FrameErrorModel>((true, Some(n))));
    let tail = utf8(body) + rest;
    assert(tail.take(n as int) =~= utf8(body));
    assert(tail.skip(n as int) =~= rest);
    vstd::utf8::encode_utf8_valid_utf8(body);
    vstd::utf8::encode_utf8_decode_utf8(body);
    assert(message_at(after, Some(n)) == (Ok::<Seq<char>, FrameErrorModel>(body), rest));
}

/// Messages that are written one behind the other are read back one after the other.
pub proof fn law_back_to_back(first: Seq<char>, second: Seq<char>, rest: Seq<u8>)
    requires
        utf8(first).len() <= usize::MAX,
        utf8(second).len() <= usize::MAX,
    ensures
        ({
            let (one, left) = message_at(framed(first) + framed(second) + rest, None);
            &&& one == Ok::<Seq<char>, FrameErrorModel>(first)
            &&& message_at(left, None) == (Ok::<Seq<char>, FrameErrorModel>(second), rest)
        }),
{
    assert(framed(first) + framed(second) + rest =~= framed(first) + (framed(second) + rest));
    law_read_gives_back_what_was_written(first, framed(second) + rest);
    law_read_gives_back_what_was_written(second, rest);
}

/// Only a `Content-Length`, in whatever case and with whatever white space around it, says how long a body is;
/// any other header changes nothing, and a line without a colon is no header.
pub proof fn law_headers(name: Seq<char>, value: Seq<char>, so_far: Option<nat>)
    requires
        !name.contains(':'),
        value.len() > 0 ==> value.last() != '\r' && value.last() != '\n',
        name.len() > 0 ==> name.last() != '\r' && name.last() != '\n',
    ensures
        ({
            let line = name + seq![':'] + value;
            &&& lower_of(trim_of(name)) != "content-length"@ ==> header(line, so_far) == Ok::<
                Option<nat>,
                FrameErrorModel,
            >(so_far)
            &&& lower_of(trim_of(name)) == "content-length"@ ==> (length_of(trim_of(value)) matches Ok(n) ==> header(
                line,
                so_far,
            ) == Ok::<Option<nat>, FrameErrorModel>(Some(n)))
            &&& lower_of(trim_of(name)) == "content-length"@ && length_of(trim_of(value)) is Err ==> header(line, so_far)
                is Err
            &&& header(name, so_far) is Err
        }),
{
    let line = name + seq![':'] + value;
    assert(line.last() != '\r' && line.last() != '\n');
    assert(without_newlines(line) == line);
    assert(without_newlines(name) == name);
    crate::text::lemma_find_is(line, ':', name.len() as int);
    crate::text::lemma_find_is(name, ':', name.len() as int);
    assert(line.take(name.len() as int) =~= name);
    assert(line.skip(name.len() as int + 1) =~= value);
}

/// Headers end at an empty line, and the body has the length that was given; without one, or where the stream
/// ends among the headers, there is no body.
pub proof fn law_when_headers_end(line: Seq<u8>, n: nat)
    requires
        line == seq![13u8, 10u8] || line == seq![10u8],
        valid_utf8(line),
    ensures
        header_step(line, Some(n)) == Ok::<(bool, Option<nat>), FrameErrorModel>((true, Some(n))),
        header_step(line, None) == Err::<(bool, Option<nat>), FrameErrorModel>(FrameErrorModel::MissingContentLength),
        header_step(Seq::empty(), Some(n)) matches Err(FrameErrorModel::UnexpectedEof { .. }),
        header_step(Seq::empty(), None) matches Err(FrameErrorModel::UnexpectedEof { .. }),
{
}

} // verus!
