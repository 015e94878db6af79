//! The resumable upload of an archive to Google Drive: the request that
//! opens the session, the ranges of the chunks, and how each answer moves
//! the upload on.
use vstd::prelude::*;
use crate::text::{chars_of, decimal, index_of_first, lemma_index_of_first, find_char_between,
    join3, push_char, push_decimal};

verus! {

/// Whether `c` is an ASCII decimal digit.
pub open spec fn is_digit(c: char) -> bool {
    '0' <= c && c <= '9'
}

/// The digits of a number: the text after a leading `+`, if any.
pub open spec fn unsigned_digits(s: Seq<char>) -> Seq<char> {
    if s.len() > 0 && s[0] == '+' {
        s.skip(1)
    } else {
        s
    }
}

/// The number that a string of decimal digits spells.
pub open spec fn digits_value(ds: Seq<char>) -> nat
    decreases ds.len(),
{
    if ds.len() == 0 {
        0
    } else {
        10 * digits_value(ds.drop_last()) + ((ds.last() as nat) - 48) as nat
    }
}

/// What `str::parse::<u64>` reads: an optional `+` and at least one
/// decimal digit, spelling at most `u64::MAX`.
pub open spec fn parse_u64_spec(s: Seq<char>) -> Option<u64> {
    let ds = unsigned_digits(s);
    if ds.len() > 0 && (forall|i: int| 0 <= i < ds.len() ==> is_digit(#[trigger] ds[i]))
        && digits_value(ds) <= u64::MAX {
        Some(digits_value(ds) as u64)
    } else {
        None
    }
}

proof fn lemma_digits_value_grows(ds: Seq<char>, k: int)
    requires
        0 <= k <= ds.len(),
        forall|i: int| 0 <= i < ds.len() ==> is_digit(#[trigger] ds[i]),
    ensures
        digits_value(ds.take(k)) <= digits_value(ds),
    decreases ds.len() - k,
{
    if k < ds.len() {
        lemma_digits_value_grows(ds, k + 1);
        assert(ds.take(k + 1).drop_last() =~= ds.take(k));
    } else {
        assert(ds.take(k) =~= ds);
    }
}

/// Reads `cs[from..to]` as a `u64`, as `str::parse::<u64>` does.
fn parse_u64_chars(cs: &Vec<char>, from: usize, to: usize) -> (res: Option<u64>)
    requires
        from <= to <= cs@.len(),
    ensures
        res == parse_u64_spec(cs@.subrange(from as int, to as int)),
{
    let ghost s = cs@.subrange(from as int, to as int);
    let start = if from < to && cs[from] == '+' {
        from + 1
    } else {
        from
    };
    let ghost ds = cs@.subrange(start as int, to as int);
    assert(ds =~= unsigned_digits(s));
    if start == to {
        return None;
    }
    let mut i = start;
    while i < to
        invariant
            start <= i <= to <= cs@.len(),
            ds == cs@.subrange(start as int, to as int),
            s == cs@.subrange(from as int, to as int),
            ds == unsigned_digits(s),
            forall|j: int| start <= j < i ==> is_digit(#[trigger] cs@[j]),
        decreases to - i,
    {
        if !('0' <= cs[i] && cs[i] <= '9') {
            assert(ds[i - start] == cs@[i as int]);
            assert(!is_digit(ds[i - start]));
            return None;
        }
        i = i + 1;
    }
    assert forall|j: int| 0 <= j < ds.len() implies is_digit(#[trigger] ds[j]) by {
        assert(ds[j] == cs@[start + j]);
    }
    let mut value: u64 = 0;
    let mut k = start;
    assert(ds.take(0) =~= Seq::<char>::empty());
    while k < to
        invariant
            start <= k <= to <= cs@.len(),
            ds == cs@.subrange(start as int, to as int),
            s == cs@.subrange(from as int, to as int),
            ds == unsigned_digits(s),
            forall|j: int| 0 <= j < ds.len() ==> is_digit(#[trigger] ds[j]),
            value == digits_value(ds.take(k - start)),
        decreases to - k,
    {
        let ghost t = ds.take(k - start + 1);
        assert(t.drop_last() =~= ds.take(k - start));
        assert(t.last() == cs@[k as int]);
        assert(ds[k - start] == cs@[k as int]);
        assert(is_digit(ds[k - start]));
        let d = (cs[k] as u32 - 48) as u64;
        assert(d as nat == (cs@[k as int] as nat) - 48);
        assert(digits_value(t) == 10 * value + d);
        match value.checked_mul(10) {
            None => {
                proof {
                    lemma_digits_value_grows(ds, k - start + 1);
                }
                return None;
            },
            Some(tens) => match tens.checked_add(d) {
                None => {
                    proof {
                        lemma_digits_value_grows(ds, k - start + 1);
                    }
                    return None;
                },
                Some(v) => {
                    value = v;
                },
            },
        }
        k = k + 1;
    }
    assert(ds.take(to - start) =~= ds);
    Some(value)
}

/// Reads a decimal `u64` from `s`, as `str::parse::<u64>` does.
pub fn parse_u64(s: &str) -> (res: Option<u64>)
    ensures
        res == parse_u64_spec(s@),
{
    let cs = chars_of(s);
    assert(cs@.subrange(0, cs@.len() as int) =~= cs@);
    parse_u64_chars(&cs, 0, cs.len())
}

/// The last byte that the server confirms in a `Range` header such as
/// `bytes=0-1048575`: the number after the first `-` following the
/// `bytes=` prefix.
pub open spec fn confirmed_end(header: Seq<char>) -> Option<u64> {
    let prefix = seq!['b', 'y', 't', 'e', 's', '='];
    if header.len() >= 6 && header.take(6) == prefix {
        let rest = header.skip(6);
        let dash = index_of_first(rest, '-');
        if dash < rest.len() {
            parse_u64_spec(rest.skip(dash + 1int))
        } else {
            None
        }
    } else {
        None
    }
}

/// The last byte the server holds, read from the `Range` header of its
/// answer (none without a readable header).
pub fn uploaded_from_range(range: Option<&str>) -> (res: Option<u64>)
    ensures
        match range {
            Some(h) => res == confirmed_end(h@),
            None => res is None,
        },
{
    let h = match range {
        Some(h) => h,
        None => {
            return None;
        },
    };
    let cs = chars_of(h);
    let len = cs.len();
    let ghost prefix = seq!['b', 'y', 't', 'e', 's', '='];
    if len < 6 || cs[0] != 'b' || cs[1] != 'y' || cs[2] != 't' || cs[3] != 'e' || cs[4] != 's'
        || cs[5] != '=' {
        proof {
            if len >= 6 {
                if cs@.take(6) == prefix {
                    assert(cs@.take(6)[0] == 'b');
                    assert(cs@.take(6)[1] == 'y');
                    assert(cs@.take(6)[2] == 't');
                    assert(cs@.take(6)[3] == 'e');
                    assert(cs@.take(6)[4] == 's');
                    assert(cs@.take(6)[5] == '=');
                }
            }
        }
        return None;
    }
    assert(cs@.take(6) =~= prefix);
    let ghost rest = cs@.skip(6);
    let dash = find_char_between(&cs, '-', 6, len);
    assert(cs@.subrange(6, len as int) =~= rest);
    proof {
        lemma_index_of_first(rest, '-');
    }
    if dash == len {
        return None;
    }
    assert(rest.skip(dash - 6 + 1) =~= cs@.subrange(dash + 1, len as int));
    parse_u64_chars(&cs, dash + 1, len)
}

/// The `Content-Range` of a chunk: `bytes <start>-<end>/<total>`.
pub fn content_range(start: u64, end: u64, total: u64) -> (res: String)
    ensures
        res@ == "bytes "@ + decimal(start as nat) + seq!['-'] + decimal(end as nat) + seq!['/']
            + decimal(total as nat),
{
    let mut res = String::from_str("bytes ");
    push_decimal(&mut res, start);
    push_char(&mut res, '-');
    push_decimal(&mut res, end);
    push_char(&mut res, '/');
    push_decimal(&mut res, total);
    res
}

/// The last byte of a chunk of `read` bytes sent from offset `uploaded`.
pub fn chunk_end(uploaded: u64, read: usize) -> (res: u64)
    requires
        read >= 1,
        uploaded + read <= u64::MAX,
    ensures
        res == uploaded + read - 1,
{
    uploaded + read as u64 - 1
}

/// The most bytes sent in one chunk (8 MiB).
pub const CHUNK_SIZE: usize = 8388608;

/// The request that sends one chunk.
pub struct ChunkRequest {
    /// The offset of its first byte.
    pub start: u64,
    /// The offset of its last byte.
    pub end: u64,
    /// Its `Content-Length`: the number of bytes sent.
    pub length: u64,
    /// Its `Content-Range`.
    pub range: String,
}

/// The request for a chunk of `read` bytes (at most `CHUNK_SIZE`) sent
/// from offset `uploaded` of an archive of `file_size` bytes.
pub fn chunk_request(uploaded: u64, read: usize, file_size: u64) -> (res: ChunkRequest)
    requires
        1 <= read <= CHUNK_SIZE,
        uploaded + read <= u64::MAX,
    ensures
        res.start == uploaded,
        res.end == uploaded + read - 1,
        res.length == read,
        res.length <= CHUNK_SIZE,
        res.range@ == "bytes "@ + decimal(uploaded as nat) + seq!['-'] + decimal(
            (uploaded + read - 1) as nat,
        ) + seq!['/'] + decimal(file_size as nat),
{
    let end = chunk_end(uploaded, read);
    ChunkRequest {
        start: uploaded,
        end,
        length: read as u64,
        range: content_range(uploaded, end, file_size),
    }
}

/// What the user is told when the server refuses a chunk: its status (as
/// the HTTP client writes it) and the body of its answer.
pub fn rejection_message(status: &str, body: &str) -> (res: String)
    ensures
        res@ == "Google Drive recusou bloco do upload: "@ + status@ + " "@ + body@,
{
    let mut res = join3("Google Drive recusou bloco do upload: ", status, " ");
    res.append(body);
    res
}

/// How the upload goes on after the server answered a chunk.
pub enum ChunkOutcome {
    /// Go on from offset `uploaded`; when `seek`, the file is read again
    /// from there, since the server kept less than was sent.
    Continue { uploaded: u64, seek: bool },
    /// The server refused the chunk.
    Rejected,
}

/// Whether an HTTP status is a success (2xx).
pub open spec fn is_success(status: u16) -> bool {
    200 <= status <= 299
}

/// Where the upload goes on after a chunk ending at byte `end` was
/// answered with `status`; `confirmed` is the last byte the server says it
/// holds (from its `Range` header). A success moves past the chunk; 308
/// (resume incomplete) moves just past the confirmed byte, or past the
/// chunk when none is confirmed, and asks for a re-read when that is
/// before the end of the chunk; any other status refuses the chunk.
pub open spec fn chunk_outcome(end: u64, status: u16, confirmed: Option<u64>) -> ChunkOutcome {
    if is_success(status) {
        ChunkOutcome::Continue { uploaded: (end + 1) as u64, seek: false }
    } else if status == 308 {
        let next: int = match confirmed {
            Some(c) => c + 1,
            None => end + 1,
        };
        ChunkOutcome::Continue { uploaded: next as u64, seek: next < end + 1 }
    } else {
        ChunkOutcome::Rejected
    }
}

/// Where the upload goes on after the server answered a chunk ending at
/// byte `end` (see `chunk_outcome`).
pub fn after_chunk(end: u64, status: u16, confirmed: Option<u64>) -> (res: ChunkOutcome)
    requires
        is_success(status) || status == 308 ==> end < u64::MAX,
        status == 308 ==> confirmed != Some(u64::MAX),
    ensures
        res == chunk_outcome(end, status, confirmed),
{
    if 200 <= status && status <= 299 {
        ChunkOutcome::Continue { uploaded: end + 1, seek: false }
    } else if status == 308 {
        let next = match confirmed {
            Some(c) => c + 1,
            None => end + 1,
        };
        ChunkOutcome::Continue { uploaded: next, seek: next < end + 1 }
    } else {
        ChunkOutcome::Rejected
    }
}

/// Refuses to upload an empty archive.
pub fn check_archive_size(file_size: u64) -> (res: Result<(), String>)
    ensures
        file_size == 0 ==> (res matches Err(e) && e@ == "Arquivo de backup vazio"@),
        file_size > 0 ==> res is Ok,
{
    if file_size == 0 {
        Err(String::from_str("Arquivo de backup vazio"))
    } else {
        Ok(())
    }
}

/// The lower-case hexadecimal digit of `d` (below 16).
pub open spec fn hex_digit(d: int) -> char {
    if d < 10 {
        (48 + d) as char
    } else {
        (97 + d - 10) as char
    }
}

/// What `serde_json` writes for the character `c` inside a string: `"`
/// and `\` after a backslash, the five short escapes for backspace, tab,
/// line feed, form feed and carriage return, `\u00XX` for the other
/// control characters below U+0020, and any other character as it is.
pub open spec fn json_escape(c: char) -> Seq<char> {
    if c == '"' {
        seq!['\\', '"']
    } else if c == '\\' {
        seq!['\\', '\\']
    } else if c == '\u{8}' {
        seq!['\\', 'b']
    } else if c == '\t' {
        seq!['\\', 't']
    } else if c == '\n' {
        seq!['\\', 'n']
    } else if c == '\u{c}' {
        seq!['\\', 'f']
    } else if c == '\r' {
        seq!['\\', 'r']
    } else if (c as int) < 32 {
        seq!['\\', 'u', '0', '0', hex_digit((c as int) / 16), hex_digit((c as int) % 16)]
    } else {
        seq![c]
    }
}

/// The characters of `s`, each written as `json_escape` writes it.
pub open spec fn json_escaped(s: Seq<char>) -> Seq<char>
    decreases s.len(),
{
    if s.len() == 0 {
        seq![]
    } else {
        json_escaped(s.drop_last()) + json_escape(s.last())
    }
}

/// What `serde_json` writes for a JSON string holding `s`: the escaped
/// characters between double quotes.
pub open spec fn json_string(s: Seq<char>) -> Seq<char> {
    seq!['"'] + json_escaped(s) + seq!['"']
}

/// `serde_json::to_string` on a `&str`: the JSON string literal for `s`,
/// as `json_string` states it. Writing a `str` into memory cannot fail,
/// so the error branch is never taken.
#[verifier::external_body]
fn json_quote(s: &str) -> (res: String)
    ensures
        res@ == json_string(s@),
{
    match serde_json::to_string(s) {
        Ok(v) => v,
        Err(_) => String::new(),
    }
}

/// The JSON body that opens the upload session: the archive's name and
/// the folder it goes to, as `{"name":...,"parents":[...]}` (the keys in
/// the order `serde_json` writes an object's keys).
pub fn upload_metadata(name: &str, folder_id: &str) -> (res: String)
    ensures
        res@ == "{\"name\":"@ + json_string(name@) + ",\"parents\":["@ + json_string(folder_id@)
            + "]}"@,
{
    let mut res = String::from_str("{\"name\":");
    res.append(json_quote(name).as_str());
    res.append(",\"parents\":[");
    res.append(json_quote(folder_id).as_str());
    res.append("]}");
    res
}

proof fn lemma_decimal_digits(n: nat)
    ensures
        decimal(n).len() > 0,
        forall|i: int| 0 <= i < decimal(n).len() ==> is_digit(#[trigger] decimal(n)[i]),
        digits_value(decimal(n)) == n,
    decreases n,
{
    if n >= 10 {
        lemma_decimal_digits(n / 10);
        let d = decimal(n);
        assert(d.drop_last() =~= decimal(n / 10));
        assert forall|i: int| 0 <= i < d.len() implies is_digit(#[trigger] d[i]) by {
            if i < d.len() - 1 {
                assert(d[i] == decimal(n / 10)[i]);
            }
        }
        assert(d.last() == crate::text::digit_char(n % 10));
        assert((d.last() as nat) == 48 + n % 10);
        assert(digits_value(d) == 10 * digits_value(d.drop_last()) + n % 10);
    } else {
        let d = decimal(n);
        assert(d.drop_last() =~= Seq::<char>::empty());
        assert((d.last() as nat) == 48 + n);
        assert(digits_value(d) == 10 * digits_value(d.drop_last()) + n);
    }
}

/// Reading a decimal numeral gives the number back: for every `n`,
/// `parse_u64(&decimal_string(n))` is `Some(n)`.
pub proof fn law_parse_reads_decimal(n: u64)
    ensures
        parse_u64_spec(decimal(n as nat)) == Some(n),
{
    lemma_decimal_digits(n as nat);
    let d = decimal(n as nat);
    assert(is_digit(d[0]));
    assert(unsigned_digits(d) == d);
}

/// The server's `Range` header `bytes=<first>-<last>` is read as its last
/// byte: `uploaded_from_range(Some("bytes=<first>-<last>"))` is
/// `Some(last)`.
pub proof fn law_range_header_reads_last_byte(first: u64, last: u64)
    ensures
        confirmed_end(seq!['b', 'y', 't', 'e', 's', '='] + decimal(first as nat) + seq!['-']
            + decimal(last as nat)) == Some(last),
{
    let prefix = seq!['b', 'y', 't', 'e', 's', '='];
    let a = decimal(first as nat);
    let b = decimal(last as nat);
    let h = prefix + a + seq!['-'] + b;
    lemma_decimal_digits(first as nat);
    assert(h.take(6) =~= prefix);
    let rest = h.skip(6);
    assert(rest =~= a + seq!['-'] + b);
    assert forall|j: int| 0 <= j < a.len() implies rest[j] != '-' by {
        assert(rest[j] == a[j]);
        assert(is_digit(a[j]));
    }
    crate::text::lemma_index_of_first_unique(rest, '-', a.len() as int);
    assert(rest.skip(a.len() + 1int) =~= b);
    law_parse_reads_decimal(last);
}

/// A chunk the server accepts moves the upload on by exactly its size:
/// after `read` bytes sent from `uploaded`, the upload goes on from
/// `uploaded + read` with no re-read.
pub proof fn law_accepted_chunk_advances(uploaded: u64, read: u64, status: u16, confirmed: Option<u64>)
    requires
        read >= 1,
        uploaded + read < u64::MAX,
        is_success(status),
    ensures
        chunk_outcome((uploaded + read - 1) as u64, status, confirmed) == (ChunkOutcome::Continue {
            uploaded: (uploaded + read) as u64,
            seek: false,
        }),
{
}

/// When the server confirms less than a chunk, the upload goes on just
/// after the confirmed byte and reads the file again from there; when it
/// confirms the whole chunk, it goes on after it without re-reading.
pub proof fn law_partial_chunk_is_resent(end: u64, confirmed: u64)
    requires
        confirmed < u64::MAX,
        end < u64::MAX,
    ensures
        confirmed < end ==> chunk_outcome(end, 308, Some(confirmed)) == (ChunkOutcome::Continue {
            uploaded: (confirmed + 1) as u64,
            seek: true,
        }),
        confirmed == end ==> chunk_outcome(end, 308, Some(confirmed)) == (ChunkOutcome::Continue {
            uploaded: (end + 1) as u64,
            seek: false,
        }),
{
}


/// An answer the upload goes on from: a success, or 308 with no confirmed
/// byte or a confirmed byte within what was sent (up to `end`).
pub open spec fn goes_on(end: int, answer: (u16, Option<u64>)) -> bool {
    ||| is_success(answer.0)
    ||| answer.0 == 308 && match answer.1 {
        Some(k) => k <= end,
        None => true,
    }
}

/// The offset the `i`-th chunk starts at, when chunk `j` carried
/// `reads[j]` bytes and was answered `answers[j]` (a status and the byte
/// its `Range` header confirms): the first starts at 0, and each next one
/// where `chunk_outcome` goes on after the previous.
pub open spec fn chunk_start(reads: Seq<nat>, answers: Seq<(u16, Option<u64>)>, i: nat) -> int
    decreases i,
{
    if i == 0 {
        0
    } else {
        let s = chunk_start(reads, answers, (i - 1) as nat);
        let end = s + reads[i - 1] - 1;
        match chunk_outcome(end as u64, answers[i - 1].0, answers[i - 1].1) {
            ChunkOutcome::Continue { uploaded, .. } => uploaded as int,
            ChunkOutcome::Rejected => s,
        }
    }
}

/// Where the archive is read next before the `i`-th chunk: reading a chunk
/// moves past it, and the file is read again from the new offset when
/// `chunk_outcome` asks for it.
pub open spec fn read_position(reads: Seq<nat>, answers: Seq<(u16, Option<u64>)>, i: nat) -> int
    decreases i,
{
    if i == 0 {
        0
    } else {
        let p = read_position(reads, answers, (i - 1) as nat) + reads[i - 1];
        let s = chunk_start(reads, answers, (i - 1) as nat);
        let end = s + reads[i - 1] - 1;
        match chunk_outcome(end as u64, answers[i - 1].0, answers[i - 1].1) {
            ChunkOutcome::Continue { uploaded, seek } => if seek {
                uploaded as int
            } else {
                p
            },
            ChunkOutcome::Rejected => p,
        }
    }
}

/// Over a whole upload of an archive of `n` bytes, each chunk is read
/// from exactly the offset it is sent as: when every read returns between
/// one byte and `CHUNK_SIZE` bytes of what is left of the file, and every
/// answer lets the upload go on, the file is read from where the server
/// stopped (unconfirmed bytes are sent again), every chunk lies within the
/// archive, and the upload never passes its end.
pub proof fn law_upload_resumes_where_server_stopped(
    reads: Seq<nat>,
    answers: Seq<(u16, Option<u64>)>,
    n: u64,
)
    requires
        reads.len() == answers.len(),
        forall|i: nat|
            i < reads.len() ==> 1 <= #[trigger] reads[i as int] <= CHUNK_SIZE && reads[i as int]
                <= n - read_position(reads, answers, i),
        forall|i: nat|
            i < reads.len() ==> goes_on(
                chunk_start(reads, answers, i) + reads[i as int] - 1,
                #[trigger] answers[i as int],
            ),
    ensures
        forall|i: nat|
            i <= reads.len() ==> #[trigger] read_position(reads, answers, i) == chunk_start(
                reads,
                answers,
                i,
            ) && 0 <= chunk_start(reads, answers, i) <= n,
        forall|i: nat|
            i < reads.len() ==> #[trigger] chunk_start(reads, answers, i) + reads[i as int] <= n,
{
    assert forall|i: nat| i <= reads.len() implies #[trigger] read_position(reads, answers, i)
        == chunk_start(reads, answers, i) && 0 <= chunk_start(reads, answers, i) <= n by {
        lemma_upload_prefix(reads, answers, n, i);
    }
    assert forall|i: nat| i < reads.len() implies #[trigger] chunk_start(reads, answers, i)
        + reads[i as int] <= n by {
        lemma_upload_prefix(reads, answers, n, i);
        assert(reads[i as int] <= n - read_position(reads, answers, i));
    }
}

proof fn lemma_upload_prefix(
    reads: Seq<nat>,
    answers: Seq<(u16, Option<u64>)>,
    n: u64,
    i: nat,
)
    requires
        i <= reads.len() == answers.len(),
        forall|i: nat|
            i < reads.len() ==> 1 <= #[trigger] reads[i as int] <= CHUNK_SIZE && reads[i as int]
                <= n - read_position(reads, answers, i),
        forall|i: nat|
            i < reads.len() ==> goes_on(
                chunk_start(reads, answers, i) + reads[i as int] - 1,
                #[trigger] answers[i as int],
            ),
    ensures
        read_position(reads, answers, i) == chunk_start(reads, answers, i),
        0 <= chunk_start(reads, answers, i) <= n,
    decreases i,
{
    if i > 0 {
        let j = (i - 1) as nat;
        lemma_upload_prefix(reads, answers, n, j);
        let s = chunk_start(reads, answers, j);
        let r = reads[j as int];
        assert(1 <= r <= n - read_position(reads, answers, j));
        assert(goes_on(s + r - 1, answers[j as int]));
        let end = s + r - 1;
        assert(0 <= end < n);
    }
}

/// An upload whose reads are all full and whose chunks are all accepted
/// goes on in steps of `CHUNK_SIZE`: the `i`-th chunk starts at
/// `min(i * CHUNK_SIZE, n)`, and once the archive is all read the upload
/// stands at `n`.
pub proof fn law_full_chunks_advance_by_chunk_size(
    reads: Seq<nat>,
    answers: Seq<(u16, Option<u64>)>,
    n: u64,
)
    requires
        reads.len() == answers.len(),
        forall|i: nat|
            i < reads.len() ==> #[trigger] reads[i as int] == if n - read_position(
                reads,
                answers,
                i,
            ) < CHUNK_SIZE {
                n - read_position(reads, answers, i)
            } else {
                CHUNK_SIZE as int
            },
        forall|i: nat| i < reads.len() ==> #[trigger] reads[i as int] >= 1,
        forall|i: nat| i < answers.len() ==> is_success(#[trigger] answers[i as int].0),
    ensures
        forall|i: nat|
            i <= reads.len() ==> #[trigger] chunk_start(reads, answers, i) == if i * CHUNK_SIZE
                < n {
                i * CHUNK_SIZE
            } else {
                n as int
            },
{
    assert forall|i: nat| i <= reads.len() implies #[trigger] chunk_start(reads, answers, i) == if i
        * CHUNK_SIZE < n {
        i * CHUNK_SIZE
    } else {
        n as int
    } by {
        lemma_full_chunks_prefix(reads, answers, n, i);
    }
}

proof fn lemma_full_chunks_prefix(
    reads: Seq<nat>,
    answers: Seq<(u16, Option<u64>)>,
    n: u64,
    i: nat,
)
    requires
        i <= reads.len() == answers.len(),
        forall|i: nat|
            i < reads.len() ==> #[trigger] reads[i as int] == if n - read_position(
                reads,
                answers,
                i,
            ) < CHUNK_SIZE {
                n - read_position(reads, answers, i)
            } else {
                CHUNK_SIZE as int
            },
        forall|i: nat| i < reads.len() ==> #[trigger] reads[i as int] >= 1,
        forall|i: nat| i < answers.len() ==> is_success(#[trigger] answers[i as int].0),
    ensures
        read_position(reads, answers, i) == chunk_start(reads, answers, i),
        chunk_start(reads, answers, i) == if i * CHUNK_SIZE < n {
            i * CHUNK_SIZE
        } else {
            n as int
        },
        i < reads.len() ==> i * CHUNK_SIZE < n,
    decreases i,
{
    if i > 0 {
        let j = (i - 1) as nat;
        lemma_full_chunks_prefix(reads, answers, n, j);
        let r = reads[j as int];
        assert(is_success(answers[j as int].0));
        assert(j * CHUNK_SIZE + CHUNK_SIZE == i * CHUNK_SIZE);
    }
    if i < reads.len() {
        assert(reads[i as int] >= 1);
    }
}


/// How an answer moves the upload on, by its status: a 2xx status goes on
/// just past the chunk, 308 goes on just past the byte the server confirms
/// (or past the chunk when it confirms none), re-reading the file when
/// that is before the chunk's end; every other status refuses the chunk.
pub proof fn law_answers_by_status(end: u64, status: u16, confirmed: Option<u64>)
    requires
        end < u64::MAX,
        confirmed != Some(u64::MAX),
    ensures
        200 <= status <= 299 ==> chunk_outcome(end, status, confirmed) == (ChunkOutcome::Continue {
            uploaded: (end + 1) as u64,
            seek: false,
        }),
        status == 308 && confirmed is None ==> chunk_outcome(end, status, confirmed) == (
        ChunkOutcome::Continue { uploaded: (end + 1) as u64, seek: false }),
        status == 308 && confirmed is Some ==> chunk_outcome(end, status, confirmed) == (
        ChunkOutcome::Continue {
            uploaded: (confirmed->0 + 1) as u64,
            seek: confirmed->0 < end,
        }),
        !(200 <= status <= 299) && status != 308 ==> chunk_outcome(end, status, confirmed)
            == ChunkOutcome::Rejected,
{
}

/// Whatever the chunk and the confirmed byte, a status that is neither a
/// success (2xx) nor 308 refuses the chunk.
pub proof fn law_other_statuses_refuse(end: u64, status: u16, confirmed: Option<u64>)
    requires
        !(200 <= status <= 299),
        status != 308,
    ensures
        chunk_outcome(end, status, confirmed) == ChunkOutcome::Rejected,
{
}

} // verus!
