//! Bytes that come in piece by piece.
//!
//! However a transfer is cut into pieces, what is kept of it depends on the
//! whole alone.

use vstd::prelude::*;
use crate::http;
use crate::http::{declared_total, parse_http_response, parse_response_head, ResponseHead};
use crate::model::HttpResponse;
use crate::numbers;
use crate::numbers::push_decimal;
use crate::server;
use crate::server::{Answer, INCOMPLETE_BODY};
use crate::text;
use crate::text::push_text;
use crate::transfer::REPORT_INTERVAL_MS;
use crate::wire;
use crate::wire::find_head_end;

verus! {

/// Shown where an answer ended before its head did.
pub const NO_HEAD: &'static str = "服务端响应格式无效，未收到完整响应头";

/// Shown, around the numbers, where an answer ended before its body did.
pub const INCOMPLETE_BEFORE: &'static str = "下载未完成：已接收 ";

pub const INCOMPLETE_AFTER: &'static str = " 字节";

/// The most that is read at once.
pub const CHUNK_SIZE: usize = 65536;

/// What a download reports at the latest first, in bytes.
pub const FIRST_REPORT: u64 = 2097152;

/// What comes in between two reports of a download at the latest, in bytes.
pub const REPORT_STEP: u64 = 524288;

/// How many pieces a download reports one by one.
pub const EAGER_CHUNKS: u64 = 3;

/// The most that a download can count.
pub const MAX_TRANSFER: u64 = 18446744073709027327;

// ---------------------------------------------------------------------------
// Facts about searching in what grows
// ---------------------------------------------------------------------------

/// What was found in a beginning is found in the whole.
pub proof fn lemma_find_grows<T>(s: Seq<T>, more: Seq<T>, pat: Seq<T>)
    requires
        text::find(s, pat) is Some,
    ensures
        text::find(s + more, pat) == text::find(s, pat),
{
    text::lemma_find_from(s, pat, 0);
    let k = text::find(s, pat)->0;
    let all = s + more;
    assert(all.subrange(k, k + pat.len()) =~= s.subrange(k, k + pat.len()));
    assert forall|j: int| 0 <= j < k implies !text::matches_at(all, pat, j) by {
        assert(!text::matches_at(s, pat, j));
        assert(all.subrange(j, j + pat.len()) =~= s.subrange(j, j + pat.len()));
    }
    text::lemma_find_is(all, pat, k);
}

/// Where the head of what came in ends.
pub open spec fn head_at(all: Seq<u8>) -> Option<int> {
    text::find(all, wire::head_end())
}

/// What came in of the body.
pub open spec fn body_of(all: Seq<u8>) -> Seq<u8> {
    match head_at(all) {
        Some(i) => all.skip(i + 4),
        None => Seq::empty(),
    }
}

/// The length of the body that the head gives.
pub open spec fn total_of(all: Seq<u8>) -> u64 {
    match head_at(all) {
        Some(i) => http::declared_length(
            http::headers_from(http::head_lines(all.take(i)), 1, false),
        ),
        None => 0,
    }
}

/// The body grows with what comes in, and the head stays what it was.
pub proof fn law_body_grows(all: Seq<u8>, more: Seq<u8>)
    requires
        head_at(all) is Some,
    ensures
        head_at(all + more) == head_at(all),
        body_of(all + more) == body_of(all) + more,
        total_of(all + more) == total_of(all),
{
    lemma_find_grows(all, more, wire::head_end());
    text::lemma_find_from(all, wire::head_end(), 0);
    let i = head_at(all)->0;
    assert((all + more).take(i) =~= all.take(i));
    assert((all + more).skip(i + 4) =~= all.skip(i + 4) + more);
}

/// What is shown where a body is not whole.
pub open spec fn incomplete(transferred: nat, total: nat) -> Seq<char> {
    INCOMPLETE_BEFORE@ + numbers::decimal(transferred) + " / "@ + numbers::decimal(total)
        + INCOMPLETE_AFTER@
}

/// Whether what came in is an answer with its whole body. An answer that gives
/// no length is taken as it ends.
pub open spec fn completeness(all: Seq<u8>) -> Result<(), Seq<char>> {
    if head_at(all) is None {
        Err(NO_HEAD@)
    } else if total_of(all) > 0 && body_of(all).len() != total_of(all) {
        Err(incomplete(body_of(all).len(), total_of(all) as nat))
    } else {
        Ok(())
    }
}

fn check_complete(transferred: u64, total: u64) -> (r: Result<(), String>)
    ensures
        match r {
            Ok(_) => !(total > 0 && transferred != total),
            Err(e) => total > 0 && transferred != total && e@ == incomplete(
                transferred as nat,
                total as nat,
            ),
        },
{
    if total > 0 && transferred != total {
        let mut message = INCOMPLETE_BEFORE.to_string();
        push_decimal(&mut message, transferred);
        push_text(&mut message, " / ");
        push_decimal(&mut message, total);
        push_text(&mut message, INCOMPLETE_AFTER);
        return Err(message);
    }
    Ok(())
}

fn append_bytes(out: &mut Vec<u8>, chunk: &[u8])
    ensures
        final(out)@ == old(out)@ + chunk@,
{
    let mut i: usize = 0;
    assert(out@ + chunk@.take(0) =~= out@);
    while i < chunk.len()
        invariant
            i <= chunk@.len(),
            out@ == old(out)@ + chunk@.take(i as int),
        decreases chunk@.len() - i,
    {
        out.push(chunk[i]);
        assert(out@ =~= old(out)@ + chunk@.take(i + 1));
        i = i + 1;
    }
    assert(chunk@.take(i as int) =~= chunk@);
}

// ---------------------------------------------------------------------------
// An answer that is kept in memory
// ---------------------------------------------------------------------------

/// An answer as far as it has come in.
pub struct ResponseStream {
    response: Vec<u8>,
    head_end: Option<usize>,
    total: u64,
}

impl ResponseStream {
    /// What came in.
    pub closed spec fn seen(self) -> Seq<u8> {
        self.response@
    }

    /// What is kept beside the bytes is what they say.
    pub closed spec fn wf(self) -> bool {
        match self.head_end {
            Some(i) => head_at(self.response@) == Some(i as int) && i + 4 <= self.response@.len()
                && self.total == total_of(self.response@),
            None => head_at(self.response@) is None,
        }
    }

    /// Nothing came in yet.
    pub fn new() -> (r: Self)
        ensures
            r.wf(),
            r.seen() == Seq::<u8>::empty(),
    {
        let r = ResponseStream { response: Vec::new(), head_end: None, total: 0 };
        proof {
            text::lemma_find_from(r.response@, wire::head_end(), 0);
        }
        r
    }

    /// Takes a piece in.
    pub fn push(&mut self, chunk: &[u8])
        requires
            old(self).wf(),
        ensures
            final(self).wf(),
            final(self).seen() == old(self).seen() + chunk@,
    {
        let ghost before = self.response@;
        append_bytes(&mut self.response, chunk);
        match self.head_end {
            Some(_) => {
                proof {
                    law_body_grows(before, chunk@);
                }
            },
            None => {
                let n: usize = self.response.len();
                match find_head_end(&self.response) {
                    Some(i) => {
                        let head = &self.response[0..i];
                        assert(head@ =~= self.response@.take(i as int));
                        let total = declared_total(head);
                        self.head_end = Some(i);
                        self.total = total;
                    },
                    None => {},
                }
            },
        }
    }

    /// How much of the body came in, and how much there is to be; nothing
    /// before the head is whole.
    pub fn progress(&self) -> (r: Option<(u64, u64)>)
        requires
            self.wf(),
        ensures
            match r {
                Some((transferred, total)) => head_at(self.seen()) is Some && transferred
                    == body_of(self.seen()).len() && total == total_of(self.seen()),
                None => head_at(self.seen()) is None,
            },
    {
        match self.head_end {
            Some(i) => {
                let n: usize = self.response.len();
                let transferred: usize = n - (i + 4);
                assert(body_of(self.response@).len() == transferred);
                Some((transferred as u64, self.total))
            },
            None => None,
        }
    }

    /// The answer, where it is whole.
    pub fn finish(&self) -> (r: Result<HttpResponse, String>)
        requires
            self.wf(),
        ensures
            match completeness(self.seen()) {
                Err(problem) => r matches Err(e) && e@ == problem,
                Ok(_) => match http::parsed_response(self.seen()) {
                    Ok(parsed) => r matches Ok(response) && response@ == parsed,
                    Err(problem) => r matches Err(e) && e@ == problem,
                },
            },
    {
        match self.progress() {
            None => Err(NO_HEAD.to_string()),
            Some((transferred, total)) => {
                match check_complete(transferred, total) {
                    Ok(_) => parse_http_response(&self.response),
                    Err(e) => Err(e),
                }
            },
        }
    }
}

// ---------------------------------------------------------------------------
// An answer whose body goes to a file
// ---------------------------------------------------------------------------

/// The next count of bytes at which a download reports at the latest.
pub open spec fn report_after(transferred: int, next: int) -> int
    decreases transferred + REPORT_STEP - next,
{
    if transferred < next {
        next
    } else {
        report_after(transferred, next + REPORT_STEP)
    }
}

/// An answer as far as it has come in; its body was handed on.
pub struct Download {
    buffer: Vec<u8>,
    head: Option<ResponseHead>,
    transferred: u64,
    chunks: u64,
    next_report: u64,
    seen: Ghost<Seq<u8>>,
}

impl Download {
    /// What came in.
    pub closed spec fn seen(self) -> Seq<u8> {
        self.seen@
    }

    /// How much of the body was handed on.
    pub closed spec fn handed_on(self) -> u64 {
        self.transferred
    }

    /// How many pieces came in, as far as they are counted.
    pub closed spec fn pieces(self) -> u64 {
        self.chunks
    }

    /// At how many bytes the next report is due at the latest.
    pub closed spec fn next_due(self) -> u64 {
        self.next_report
    }

    /// What is kept is what the bytes that came in say.
    pub closed spec fn wf(self) -> bool {
        &&& self.transferred == body_of(self.seen@).len()
        &&& match self.head {
            Some(head) => head_at(self.seen@) matches Some(i) && http::head_matches(
                head,
                self.seen@.take(i),
            ),
            None => head_at(self.seen@) is None && self.buffer@ == self.seen@,
        }
    }

    /// Nothing came in yet.
    pub fn new() -> (r: Self)
        ensures
            r.wf(),
            r.seen() == Seq::<u8>::empty(),
            r.handed_on() == 0,
            r.pieces() == 0,
            r.next_due() == FIRST_REPORT,
    {
        let r = Download {
            buffer: Vec::new(),
            head: None,
            transferred: 0,
            chunks: 0,
            next_report: FIRST_REPORT,
            seen: Ghost(Seq::empty()),
        };
        proof {
            text::lemma_find_from(r.seen@, wire::head_end(), 0);
        }
        r
    }

    /// How much of the body was handed on.
    pub fn transferred(&self) -> (r: u64)
        requires
            self.wf(),
        ensures
            r == self.handed_on(),
            r == body_of(self.seen()).len(),
    {
        self.transferred
    }

    /// The head of the answer, once it is whole.
    pub fn head(&self) -> (r: Option<&ResponseHead>)
        requires
            self.wf(),
        ensures
            match r {
                Some(head) => head_at(self.seen()) matches Some(i) && http::head_matches(
                    *head,
                    self.seen().take(i),
                ),
                None => head_at(self.seen()) is None,
            },
    {
        match &self.head {
            Some(head) => Some(head),
            None => None,
        }
    }

    /// Takes a piece in. What it adds to the body is handed on. A head without
    /// a status ends the download.
    pub fn accept(&mut self, chunk: &[u8]) -> (r: Result<Vec<u8>, String>)
        requires
            old(self).wf(),
            old(self).handed_on() + chunk@.len() <= MAX_TRANSFER,
        ensures
            match r {
                Ok(out) => {
                    &&& final(self).wf()
                    &&& final(self).seen() == old(self).seen() + chunk@
                    &&& body_of(final(self).seen()) == body_of(old(self).seen()) + out@
                    &&& final(self).pieces() == if old(self).pieces() > EAGER_CHUNKS {
                        old(self).pieces()
                    } else {
                        (old(self).pieces() + 1) as u64
                    }
                    &&& final(self).next_due() == old(self).next_due()
                    &&& head_at(final(self).seen()) matches Some(i) ==> http::status_in(
                        http::head_lines(final(self).seen().take(i)),
                    ) is Ok
                },
                Err(e) => {
                    &&& head_at(old(self).seen()) is None
                    &&& head_at(old(self).seen() + chunk@) matches Some(i) && http::status_in(
                        http::head_lines((old(self).seen() + chunk@).take(i)),
                    ) == Err::<u16, Seq<char>>(e@)
                },
            },
    {
        let ghost before = self.seen@;
        let ghost all = before + chunk@;
        if self.chunks <= EAGER_CHUNKS {
            self.chunks = self.chunks + 1;
        }
        if self.head.is_some() {
            proof {
                law_body_grows(before, chunk@);
                text::lemma_find_from(before, wire::head_end(), 0);
                assert(all.take(head_at(before)->0) =~= before.take(head_at(before)->0));
            }
            let n: usize = chunk.len();
            self.transferred = self.transferred + n as u64;
            self.seen = Ghost(all);
            let out = crate::model::copy_bytes(chunk);
            return Ok(out);
        }
        append_bytes(&mut self.buffer, chunk);
        let n: usize = self.buffer.len();
        self.seen = Ghost(all);
        match find_head_end(&self.buffer) {
            Some(i) => {
                let head_bytes = &self.buffer[0..i];
                assert(head_bytes@ =~= all.take(i as int));
                let head = match parse_response_head(head_bytes) {
                    Ok(head) => head,
                    Err(e) => {
                        return Err(e);
                    },
                };
                let out = crate::model::copy_bytes(&self.buffer[i + 4..n]);
                assert(out@ =~= all.skip(i + 4));
                assert(body_of(before) =~= Seq::<u8>::empty());
                assert(body_of(all) =~= body_of(before) + out@);
                proof {
                    lemma_new_body_fits(before, chunk@);
                }
                let m: usize = out.len();
                self.transferred = m as u64;
                self.head = Some(head);
                self.buffer = Vec::new();
                Ok(out)
            },
            None => {
                let out: Vec<u8> = Vec::new();
                assert(body_of(all) =~= body_of(before) + out@);
                Ok(out)
            },
        }
    }

    /// Whether it is time for a report.
    pub fn wants_report(&self, elapsed_ms: u128) -> (r: bool)
        requires
            self.wf(),
        ensures
            r == (head_at(self.seen()) is Some && (self.pieces() <= EAGER_CHUNKS
                || self.handed_on() >= self.next_due() || elapsed_ms > REPORT_INTERVAL_MS
                || self.handed_on() == total_of(self.seen()))),
    {
        match &self.head {
            Some(head) => self.chunks <= EAGER_CHUNKS || self.transferred >= self.next_report
                || elapsed_ms > REPORT_INTERVAL_MS || self.transferred == head.total,
            None => false,
        }
    }

    /// Takes note of a report.
    pub fn reported(&mut self)
        requires
            old(self).wf(),
            old(self).handed_on() <= MAX_TRANSFER,
        ensures
            final(self).wf(),
            final(self).seen() == old(self).seen(),
            final(self).pieces() == old(self).pieces(),
            final(self).next_due() == report_after(
                old(self).handed_on() as int,
                old(self).next_due() as int,
            ),
    {
        let mut next: u64 = self.next_report;
        while self.transferred >= next
            invariant
                self.wf(),
                *self == *old(self),
                self.transferred <= MAX_TRANSFER,
                report_after(self.transferred as int, next as int) == report_after(
                    self.transferred as int,
                    self.next_report as int,
                ),
            decreases self.transferred + REPORT_STEP - next,
        {
            next = next + REPORT_STEP;
        }
        self.next_report = next;
    }

    /// Whether the answer came in whole.
    pub fn finish(&self) -> (r: Result<(), String>)
        requires
            self.wf(),
        ensures
            match r {
                Ok(_) => completeness(self.seen()) is Ok,
                Err(e) => completeness(self.seen()) == Err::<(), Seq<char>>(e@),
            },
    {
        match &self.head {
            None => Err(NO_HEAD.to_string()),
            Some(head) => check_complete(self.transferred, head.total),
        }
    }
}

/// What a piece that ends the head adds to the body is no longer than the
/// piece.
proof fn lemma_new_body_fits(before: Seq<u8>, chunk: Seq<u8>)
    requires
        head_at(before) is None,
    ensures
        body_of(before + chunk).len() <= chunk.len(),
{
    let all = before + chunk;
    text::lemma_find_from(all, wire::head_end(), 0);
    text::lemma_find_from(before, wire::head_end(), 0);
    if let Some(i) = head_at(all) {
        if i + 4 <= before.len() {
            assert(before.subrange(i, i + 4) =~= all.subrange(i, i + 4));
            assert(text::matches_at(before, wire::head_end(), i));
        }
    }
}

// ---------------------------------------------------------------------------
// A package that is sent to the server
// ---------------------------------------------------------------------------

/// The pieces one after the other.
pub open spec fn concat(pieces: Seq<Seq<u8>>) -> Seq<u8>
    decreases pieces.len(),
{
    if pieces.len() == 0 {
        Seq::empty()
    } else {
        concat(pieces.drop_last()) + pieces.last()
    }
}

/// The smaller of two numbers.
pub open spec fn least(a: int, b: int) -> int {
    if a < b {
        a
    } else {
        b
    }
}

/// What is kept of the pieces of a package of the expected length.
pub open spec fn kept_of(expected: nat, pieces: Seq<Seq<u8>>) -> Seq<u8>
    decreases pieces.len(),
{
    if pieces.len() == 0 {
        Seq::empty()
    } else {
        let before = kept_of(expected, pieces.drop_last());
        before + pieces.last().take(least(expected - before.len(), pieces.last().len() as int))
    }
}

/// However a package is cut into pieces, what is kept is its beginning, up to
/// the expected length.
pub proof fn law_pieces_do_not_matter(expected: nat, pieces: Seq<Seq<u8>>)
    ensures
        kept_of(expected, pieces) == concat(pieces).take(
            least(expected as int, concat(pieces).len() as int),
        ),
        kept_of(expected, pieces).len() <= expected,
    decreases pieces.len(),
{
    if pieces.len() > 0 {
        law_pieces_do_not_matter(expected, pieces.drop_last());
        let before = kept_of(expected, pieces.drop_last());
        let c = concat(pieces.drop_last());
        let n = least(expected as int, concat(pieces).len() as int);
        assert(kept_of(expected, pieces) =~= concat(pieces).take(n));
    } else {
        assert(concat(pieces).take(0) =~= Seq::<u8>::empty());
    }
}

/// Where `kept` bytes of a package of the expected length were kept, keeping
/// `taken` of a piece of the given length keeps what is to be kept of the
/// package with that piece.
pub open spec fn keeps(expected: nat, kept: nat, length: nat, taken: int) -> bool {
    forall|pieces: Seq<Seq<u8>>, piece: Seq<u8>|
        piece.len() == length && kept_of(expected, pieces).len() == kept ==> #[trigger] kept_of(
            expected,
            pieces.push(piece),
        ) == kept_of(expected, pieces) + piece.take(taken)
}

/// A package as far as it has come in.
#[derive(Debug)]
pub struct UploadReceiver {
    expected: usize,
    written: usize,
}

impl UploadReceiver {
    /// The length of the whole package.
    pub closed spec fn expected(self) -> usize {
        self.expected
    }

    /// The length of what was kept.
    pub closed spec fn kept(self) -> usize {
        self.written
    }

    /// No more is kept than expected.
    pub closed spec fn wf(self) -> bool {
        self.written <= self.expected
    }

    /// Nothing came in yet.
    pub fn new(expected: usize) -> (r: Self)
        ensures
            r.wf(),
            r.expected() == expected,
            r.kept() == 0,
    {
        UploadReceiver { expected, written: 0 }
    }

    /// How much of a piece is to be kept; it counts as kept.
    pub fn accept(&mut self, length: usize) -> (r: usize)
        requires
            old(self).wf(),
        ensures
            final(self).wf(),
            final(self).expected() == old(self).expected(),
            r == least(old(self).expected() - old(self).kept(), length as int),
            final(self).kept() == old(self).kept() + r,
            keeps(
                old(self).expected() as nat,
                old(self).kept() as nat,
                length as nat,
                r as int,
            ),
    {
        let left: usize = self.expected - self.written;
        let taken: usize = if left < length {
            left
        } else {
            length
        };
        proof {
            let expected = self.expected as nat;
            assert forall|pieces: Seq<Seq<u8>>, piece: Seq<u8>|
                piece.len() == length && kept_of(expected, pieces).len()
                    == self.written implies #[trigger] kept_of(expected, pieces.push(piece))
                == kept_of(expected, pieces) + piece.take(taken as int) by {
                assert(pieces.push(piece).drop_last() =~= pieces);
                assert(pieces.push(piece).last() == piece);
            }
        }
        self.written = self.written + taken;
        taken
    }

    /// How much is to be read next; nothing where the package is whole.
    pub fn wanted(&self) -> (r: usize)
        requires
            self.wf(),
        ensures
            r == least(self.expected() - self.kept(), CHUNK_SIZE as int),
    {
        let left: usize = self.expected - self.written;
        if left < CHUNK_SIZE {
            left
        } else {
            CHUNK_SIZE
        }
    }

    /// The length of the whole package.
    pub fn whole(&self) -> (r: usize)
        ensures
            r == self.expected(),
    {
        self.expected
    }

    /// The length of what was kept.
    pub fn written(&self) -> (r: usize)
        ensures
            r == self.kept(),
    {
        self.written
    }

    /// Refuses a package that is not whole.
    pub fn finish(&self) -> (r: Result<(), Answer>)
        requires
            self.wf(),
        ensures
            match r {
                Ok(_) => self.kept() == self.expected(),
                Err(a) => self.kept() != self.expected() && server::is_answer(
                    a,
                    400,
                    INCOMPLETE_BODY@,
                ),
            },
    {
        if self.written != self.expected {
            return Err(Answer { status: 400, body: INCOMPLETE_BODY.to_string() });
        }
        Ok(())
    }
}

/// An answer falls apart at its first empty line: the head stands before it, the
/// body behind it.
pub proof fn law_body_of(all: Seq<u8>)
    ensures
        head_at(all) matches Some(i) ==> 0 <= i <= all.len() && all == all.take(i)
            + wire::head_end() + body_of(all) && forall|x: Seq<u8>, y: Seq<u8>|
            all == #[trigger] (x + wire::head_end() + y) ==> i <= x.len(),
        head_at(all) is None ==> body_of(all).len() == 0 && total_of(all) == 0 && forall|
            x: Seq<u8>,
            y: Seq<u8>,
        |
            all != #[trigger] (x + wire::head_end() + y),
{
    let mark = wire::head_end();
    text::lemma_find_from(all, mark, 0);
    if let Some(i) = head_at(all) {
        assert(all.subrange(i, i + mark.len()) == mark);
        assert(all =~= all.take(i) + all.subrange(i, i + 4) + all.skip(i + 4));
    }
    assert forall|x: Seq<u8>, y: Seq<u8>| all == #[trigger] (x + mark + y) implies (head_at(
        all,
    ) matches Some(i) && i <= x.len()) by {
        let n = x.len() as int;
        assert((x + mark + y).subrange(n, n + mark.len()) =~= mark);
        assert(text::matches_at(all, mark, n));
    }
}

/// A download is whole where its head came and, as far as it declares a length,
/// as many bytes as that; else the user is told how many came of how many.
pub proof fn law_completeness(all: Seq<u8>)
    ensures
        completeness(all) is Ok == (head_at(all) is Some && (total_of(all) == 0 || body_of(all).len()
            == total_of(all))),
        head_at(all) is None ==> completeness(all) == Err::<(), _>(
            "服务端响应格式无效，未收到完整响应头"@,
        ),
        head_at(all) is Some && completeness(all) is Err ==> completeness(all) == Err::<(), _>(
            "下载未完成：已接收 "@ + numbers::decimal(body_of(all).len()) + " / "@
                + numbers::decimal(total_of(all) as nat) + " 字节"@,
        ),
{
}

/// The next report is due at the first of the steps of 512 KiB that has not been
/// reached yet.
pub proof fn law_report_after(transferred: int, next: int)
    ensures
        report_after(transferred, next) > transferred,
        report_after(transferred, next) >= next,
        report_after(transferred, next) == next || report_after(transferred, next) - 524288
            <= transferred,
        (report_after(transferred, next) - next) % 524288 == 0,
    decreases transferred + 524288 - next,
{
    if transferred >= next {
        law_report_after(transferred, next + 524288);
    }
}

/// The lesser of two numbers.
pub proof fn law_least(a: int, b: int)
    ensures
        least(a, b) <= a,
        least(a, b) <= b,
        least(a, b) == a || least(a, b) == b,
{
}

/// Pieces that came one after the other are all bytes, in their order.
pub proof fn law_concat(a: Seq<Seq<u8>>, b: Seq<Seq<u8>>, piece: Seq<u8>)
    ensures
        concat(a + b) == concat(a) + concat(b),
        concat(seq![piece]) == piece,
        a.len() == 0 ==> concat(a).len() == 0,
    decreases b.len(),
{
    let one = seq![piece];
    assert(one.drop_last() =~= Seq::empty());
    assert(concat(one.drop_last()) =~= Seq::empty());
    assert(one.last() == piece);
    assert(concat(one) =~= piece);
    if b.len() == 0 {
        assert(a + b =~= a);
        assert(concat(a + b) =~= concat(a) + concat(b));
    } else {
        assert((a + b).drop_last() =~= a + b.drop_last());
        assert((a + b).last() == b.last());
        law_concat(a, b.drop_last(), piece);
        assert(concat(a + b) =~= concat(a) + concat(b));
    }
}

} // verus!
