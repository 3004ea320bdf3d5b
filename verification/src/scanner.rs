//! The archive label scanner: consumes the derived copy of the stream
//! as a sequence of archive entries, looking for the one entry named
//! `backup_label` and, inside its text content, for the first line that
//! begins with `START WAL LOCATION`; the label is the substring between
//! the token `file` and the line's end, trimmed of exactly one leading
//! and one trailing character.
//!
//! The entry walk is a verified state machine over 512-byte headers:
//! name and size (padded octal, or the binary base-256 extension) are
//! parsed with explicit bounds checks, content and padding are consumed
//! incrementally, and a malformed header is a decode error, never a
//! crash.

use vstd::prelude::*;
use crate::errors::CaptureError;
use crate::tee::SplitReceiver;

verus! {

/// The ASCII codes of the line marker `START WAL LOCATION`.
pub open spec fn marker() -> Seq<u8> {
    seq![
        83u8, 84u8, 65u8, 82u8, 84u8, 32u8, 87u8, 65u8, 76u8, 32u8, 76u8, 79u8, 67u8, 65u8,
        84u8, 73u8, 79u8, 78u8,
    ]
}

/// The ASCII codes of the delimiter token `file`.
pub open spec fn file_token() -> Seq<u8> {
    seq![102u8, 105u8, 108u8, 101u8]
}

/// The ASCII codes of the sentinel entry name `backup_label`.
pub open spec fn sentinel_name() -> Seq<u8> {
    seq![98u8, 97u8, 99u8, 107u8, 117u8, 112u8, 95u8, 108u8, 97u8, 98u8, 101u8, 108u8]
}

/// Whether `pat` occurs in `h` at position `i`.
pub open spec fn matches_at(h: Seq<u8>, pat: Seq<u8>, i: int) -> bool {
    0 <= i && i + pat.len() <= h.len() && h.subrange(i, i + pat.len()) == pat
}

/// Position of the first occurrence of `pat` in `h` at or after `from`.
pub open spec fn find_sub_spec(h: Seq<u8>, pat: Seq<u8>, from: int) -> Option<int>
    decreases h.len() - from,
{
    if pat.len() == 0 || from + pat.len() > h.len() {
        None
    } else if matches_at(h, pat, from) {
        Some(from)
    } else {
        find_sub_spec(h, pat, from + 1)
    }
}

/// A found occurrence lies at or after `from` and fits inside `h`.
pub proof fn lemma_find_sub_bounds(h: Seq<u8>, pat: Seq<u8>, from: int)
    requires
        find_sub_spec(h, pat, from) is Some,
    ensures
        from <= find_sub_spec(h, pat, from)->0,
        find_sub_spec(h, pat, from)->0 + pat.len() <= h.len(),
    decreases h.len() - from,
{
    if pat.len() == 0 || from + pat.len() > h.len() {
    } else if matches_at(h, pat, from) {
    } else {
        lemma_find_sub_bounds(h, pat, from + 1);
    }
}

/// Position of the first newline in `c` at or after `from`, or the
/// length of `c` if there is none.
pub open spec fn line_end(c: Seq<u8>, from: int) -> int
    decreases c.len() - from,
{
    if from < 0 {
        0
    } else if from >= c.len() {
        c.len() as int
    } else if c[from] == 10 {
        from
    } else {
        line_end(c, from + 1)
    }
}

/// The end of a line lies between its start and the end of the text.
pub proof fn lemma_line_end_bounds(c: Seq<u8>, from: int)
    requires
        0 <= from <= c.len(),
    ensures
        from <= line_end(c, from) <= c.len(),
    decreases c.len() - from,
{
    if from < c.len() && c[from] != 10 {
        lemma_line_end_bounds(c, from + 1);
    }
}

/// A raw line with one trailing carriage return stripped.
pub open spec fn line_body(l: Seq<u8>) -> Seq<u8> {
    if l.len() > 0 && l[l.len() - 1] == 13 {
        l.subrange(0, l.len() - 1)
    } else {
        l
    }
}

/// What one line yields: if it begins with the marker and holds the
/// delimiter token, the segment between the first token occurrence and
/// the next occurrence (or the line's end), trimmed of exactly one
/// leading and one trailing character; `None` when any of that is
/// absent or the segment is too short to trim.
pub open spec fn extract_from_line(l: Seq<u8>) -> Option<Seq<u8>> {
    if !marker().is_prefix_of(l) {
        None
    } else {
        match find_sub_spec(l, file_token(), 0) {
            None => None,
            Some(i) => {
                let start = i + file_token().len();
                let end = match find_sub_spec(l, file_token(), start) {
                    Some(j) => j,
                    None => l.len() as int,
                };
                let seg = l.subrange(start, end);
                if seg.len() >= 2 {
                    Some(seg.subrange(1, seg.len() - 1))
                } else {
                    None
                }
            },
        }
    }
}

/// What scanning the text content line by line from position `from`
/// yields: the extraction of the first line that yields one.
pub open spec fn scan_from(c: Seq<u8>, from: int) -> Option<Seq<u8>>
    decreases c.len() - from,
    when 0 <= from
    via scan_from_decreases
{
    if from >= c.len() {
        None
    } else {
        let end = line_end(c, from);
        match extract_from_line(line_body(c.subrange(from, end))) {
            Some(x) => Some(x),
            None => if end >= c.len() {
                None
            } else {
                scan_from(c, end + 1)
            },
        }
    }
}

#[via_fn]
proof fn scan_from_decreases(c: Seq<u8>, from: int) {
    if 0 <= from < c.len() {
        lemma_line_end_bounds(c, from);
    }
}

/// Whether `pat` occurs in `h` at position `at`.
fn bytes_match(h: &Vec<u8>, at: usize, pat: &Vec<u8>) -> (r: bool)
    requires
        at + pat@.len() <= h@.len(),
    ensures
        r == matches_at(h@, pat@, at as int),
{
    let hl = h.len();
    let mut k: usize = 0;
    while k < pat.len()
        invariant
            at + pat@.len() <= h@.len(),
            h@.len() == hl,
            k <= pat@.len(),
            forall|j: int| 0 <= j < k ==> h@[at + j] == pat@[j],
        decreases pat@.len() - k,
    {
        if h[at + k] != pat[k] {
            proof {
                assert(h@.subrange(at as int, at + pat@.len())[k as int] != pat@[k as int]);
            }
            return false;
        }
        k = k + 1;
    }
    proof {
        assert(h@.subrange(at as int, at + pat@.len()) =~= pat@);
    }
    true
}

/// First occurrence of `pat` in `h` at or after `from`.
fn find_sub(h: &Vec<u8>, pat: &Vec<u8>, from: usize) -> (r: Option<usize>)
    requires
        from <= h@.len(),
        pat@.len() >= 1,
    ensures
        r is Some <==> find_sub_spec(h@, pat@, from as int) is Some,
        r is Some ==> r->0 as int == find_sub_spec(h@, pat@, from as int)->0,
{
    let hl = h.len();
    let pl = pat.len();
    if pl > hl {
        return None;
    }
    let mut i: usize = from;
    while i <= hl - pl
        invariant
            from <= i,
            pl <= hl,
            i <= hl,
            h@.len() == hl,
            pat@.len() == pl,
            pat@.len() >= 1,
            find_sub_spec(h@, pat@, from as int) == find_sub_spec(h@, pat@, i as int),
        decreases h@.len() - i,
    {
        if bytes_match(h, i, pat) {
            return Some(i);
        }
        i = i + 1;
    }
    None
}

/// Builds the marker byte string.
fn make_marker() -> (r: Vec<u8>)
    ensures
        r@ == marker(),
{
    let mut v: Vec<u8> = Vec::new();
    v.push(83);
    v.push(84);
    v.push(65);
    v.push(82);
    v.push(84);
    v.push(32);
    v.push(87);
    v.push(65);
    v.push(76);
    v.push(32);
    v.push(76);
    v.push(79);
    v.push(67);
    v.push(65);
    v.push(84);
    v.push(73);
    v.push(79);
    v.push(78);
    proof {
        assert(v@ =~= marker());
    }
    v
}

/// Builds the delimiter token byte string.
fn make_file_token() -> (r: Vec<u8>)
    ensures
        r@ == file_token(),
{
    let mut v: Vec<u8> = Vec::new();
    v.push(102);
    v.push(105);
    v.push(108);
    v.push(101);
    proof {
        assert(v@ =~= file_token());
    }
    v
}

/// Builds the sentinel entry name byte string.
fn make_sentinel_name() -> (r: Vec<u8>)
    ensures
        r@ == sentinel_name(),
{
    let mut v: Vec<u8> = Vec::new();
    v.push(98);
    v.push(97);
    v.push(99);
    v.push(107);
    v.push(117);
    v.push(112);
    v.push(95);
    v.push(108);
    v.push(97);
    v.push(98);
    v.push(101);
    v.push(108);
    proof {
        assert(v@ =~= sentinel_name());
    }
    v
}

/// What one line yields, executably.
fn extract_line(line: &Vec<u8>) -> (r: Option<Vec<u8>>)
    ensures
        r is Some <==> extract_from_line(line@) is Some,
        r is Some ==> r->0@ == extract_from_line(line@)->0,
{
    let m = make_marker();
    if line.len() < m.len() {
        proof {
            assert(!marker().is_prefix_of(line@));
        }
        return None;
    }
    if !bytes_match(line, 0, &m) {
        proof {
            assert(!marker().is_prefix_of(line@)) by {
                if marker().is_prefix_of(line@) {
                    assert(line@.subrange(0, marker().len() as int) =~= marker());
                }
            }
        }
        return None;
    }
    proof {
        assert(marker().is_prefix_of(line@)) by {
            assert(line@.subrange(0, marker().len() as int) =~= marker());
        }
    }
    let tok = make_file_token();
    let i = match find_sub(line, &tok, 0) {
        None => {
            return None;
        },
        Some(i) => i,
    };
    proof {
        lemma_find_sub_bounds(line@, file_token(), 0);
    }
    let start = i + tok.len();
    let end = match find_sub(line, &tok, start) {
        Some(j) => {
            proof {
                lemma_find_sub_bounds(line@, file_token(), start as int);
            }
            j
        },
        None => line.len(),
    };
    if end - start < 2 {
        return None;
    }
    let mut out: Vec<u8> = Vec::new();
    let mut k: usize = start + 1;
    while k < end - 1
        invariant
            start + 1 <= k <= end - 1,
            end <= line@.len(),
            out@ == line@.subrange(start + 1, k as int),
        decreases end - k,
    {
        out.push(line[k]);
        proof {
            assert(out@ =~= line@.subrange(start + 1, k + 1));
        }
        k = k + 1;
    }
    proof {
        let l = line@;
        let seg = l.subrange(start as int, end as int);
        assert(seg.subrange(1, seg.len() - 1) =~= l.subrange(start + 1, end - 1));
        assert(out@ =~= l.subrange(start + 1, end - 1));
    }
    Some(out)
}

/// Scans text content line by line for the label.
pub fn find_label_line(content: &Vec<u8>) -> (r: Option<Vec<u8>>)
    ensures
        r is Some <==> scan_from(content@, 0) is Some,
        r is Some ==> r->0@ == scan_from(content@, 0)->0,
{
    let mut start: usize = 0;
    loop
        invariant
            start <= content@.len(),
            scan_from(content@, 0) == scan_from(content@, start as int),
        decreases content@.len() - start,
    {
        if start >= content.len() {
            return None;
        }
        let mut end: usize = start;
        while end < content.len() && content[end] != 10
            invariant
                start <= end <= content@.len(),
                line_end(content@, start as int) == line_end(content@, end as int),
            decreases content@.len() - end,
        {
            end = end + 1;
        }
        proof {
            assert(line_end(content@, end as int) == end as int);
        }
        let lend = if end > start && content[end - 1] == 13 {
            end - 1
        } else {
            end
        };
        let mut line: Vec<u8> = Vec::new();
        let mut k: usize = start;
        while k < lend
            invariant
                start <= k <= lend,
                lend <= content@.len(),
                line@ == content@.subrange(start as int, k as int),
            decreases lend - k,
        {
            line.push(content[k]);
            proof {
                assert(line@ =~= content@.subrange(start as int, k + 1));
            }
            k = k + 1;
        }
        proof {
            let c = content@;
            let raw = c.subrange(start as int, end as int);
            assert(line@ =~= line_body(raw)) by {
                if raw.len() > 0 && raw[raw.len() - 1] == 13 {
                    assert(raw.subrange(0, raw.len() - 1) =~= c.subrange(
                        start as int,
                        lend as int,
                    ));
                } else {
                    assert(raw =~= c.subrange(start as int, lend as int));
                }
                assert(line@ =~= c.subrange(start as int, lend as int));
            }
        }
        match extract_line(&line) {
            Some(v) => {
                return Some(v);
            },
            None => {},
        }
        if end >= content.len() {
            return None;
        }
        start = end + 1;
    }
}

/// Size of one archive header block.
pub const HEADER_LEN: usize = 512;

/// Largest entry size the scanner accepts: block arithmetic on a
/// larger one would not fit the skip counter.
pub const MAX_ENTRY_SIZE: u64 = 0xFFFFFFFFFFFFFE00;

/// An entry's content size rounded up to whole blocks.
pub open spec fn padded_size(size: nat) -> nat {
    (size + ((512 - size % 512) % 512)) as nat
}

/// Where the next entry would begin after the entry headed at `off`:
/// the header must lie whole inside the stream, must not be the
/// end-of-archive marker, and must carry a parseable size.
pub open spec fn boundary_after(s: Seq<u8>, off: int) -> Option<int> {
    if 0 <= off && off + 512 <= s.len() && !all_zero(s.subrange(off, off + 512)) {
        match parse_size_spec(size_field(s.subrange(off, off + 512))) {
            Some(size) => Some(off + 512 + padded_size(size)),
            None => None,
        }
    } else {
        None
    }
}

/// The entry boundary after walking `n` whole entries from the start
/// of the stream, if that many can be walked.
pub open spec fn walk_n(s: Seq<u8>, n: nat) -> Option<int>
    decreases n,
{
    if n == 0 {
        Some(0int)
    } else {
        match walk_n(s, (n - 1) as nat) {
            None => None,
            Some(off) => boundary_after(s, off),
        }
    }
}

/// Whether `off` is an entry boundary reached by walking headers from
/// the start of the stream.
pub open spec fn reaches(s: Seq<u8>, off: int) -> bool {
    exists|n: nat| walk_n(s, n) == Some(off)
}

/// Walking is stable under extending the stream: every boundary
/// reached in a prefix is reached in the whole.
pub proof fn lemma_walk_extend(s: Seq<u8>, e: Seq<u8>, n: nat)
    requires
        walk_n(s, n) is Some,
    ensures
        walk_n(s + e, n) == walk_n(s, n),
    decreases n,
{
    if n != 0 {
        lemma_walk_extend(s, e, (n - 1) as nat);
        let prev = walk_n(s, (n - 1) as nat)->0;
        assert((s + e).subrange(prev, prev + 512) =~= s.subrange(prev, prev + 512));
    }
}

/// Reachability is stable under extending the stream.
pub proof fn lemma_reaches_extend(s: Seq<u8>, e: Seq<u8>, off: int)
    requires
        reaches(s, off),
    ensures
        reaches(s + e, off),
{
    let n = choose|n: nat| walk_n(s, n) == Some(off);
    lemma_walk_extend(s, e, n);
    assert(walk_n(s + e, n) == Some(off));
}

/// One more entry can be walked from a reached boundary whose header
/// admits a next boundary.
pub proof fn lemma_reaches_step(s: Seq<u8>, off: int, next: int)
    requires
        reaches(s, off),
        boundary_after(s, off) == Some(next),
    ensures
        reaches(s, next),
{
    let n = choose|n: nat| walk_n(s, n) == Some(off);
    assert(walk_n(s, n + 1) == Some(next));
}

/// Whether every byte of a block is zero: the end-of-archive marker.
pub open spec fn all_zero(h: Seq<u8>) -> bool {
    forall|i: int| 0 <= i < h.len() ==> h[i] == 0
}

/// Whether a header names exactly the sentinel: the name field holds
/// the sentinel name alone, and the path-prefix field is empty.
pub open spec fn sentinel_named(h: Seq<u8>) -> bool {
    h.subrange(0, 12) == sentinel_name() && h[12] == 0 && h[345] == 0
}

/// The twelve-byte octal size field of a header.
pub open spec fn size_field(h: Seq<u8>) -> Seq<u8> {
    h.subrange(124, 136)
}

/// Whether an ASCII code is an octal digit.
pub open spec fn is_octal_digit(c: u8) -> bool {
    48 <= c && c <= 55
}

/// First position at or after `i` that is not a space, or the field's
/// length.
pub open spec fn skip_spaces(f: Seq<u8>, i: int) -> int
    decreases f.len() - i,
{
    if i < 0 {
        0
    } else if i >= f.len() {
        f.len() as int
    } else if f[i] == 32 {
        skip_spaces(f, i + 1)
    } else {
        i
    }
}

/// First position at or after `i` that is not an octal digit, or the
/// field's length.
pub open spec fn skip_digits(f: Seq<u8>, i: int) -> int
    decreases f.len() - i,
{
    if i < 0 {
        0
    } else if i >= f.len() {
        f.len() as int
    } else if is_octal_digit(f[i]) {
        skip_digits(f, i + 1)
    } else {
        i
    }
}

/// Value of the octal digit run `f[a..b)`.
pub open spec fn octal_val(f: Seq<u8>, a: int, b: int) -> nat
    decreases b - a,
{
    if b <= a {
        0
    } else {
        (octal_val(f, a, b - 1) * 8 + (f[b - 1] - 48)) as nat
    }
}

/// Whether everything from `b` to the field's end is NUL or space
/// padding.
pub open spec fn tail_padded(f: Seq<u8>, b: int) -> bool {
    forall|k: int| b <= k < f.len() ==> f[k] == 0 || f[k] == 32
}

/// What an octal size field means: optional leading spaces, then at
/// least one octal digit, then only NUL or space padding; `None` on
/// anything else.
pub open spec fn parse_octal_spec(f: Seq<u8>) -> Option<nat> {
    let a = skip_spaces(f, 0);
    let b = skip_digits(f, a);
    if a >= f.len() || b == a || !tail_padded(f, b) {
        None
    } else {
        Some(octal_val(f, a, b))
    }
}

/// Value of the big-endian binary run `f[4..i)` of a base-256 size
/// field; the first four bytes carry only the marker bit and are
/// ignored.
pub open spec fn base256_val(f: Seq<u8>, i: int) -> nat
    decreases i,
{
    if i <= 4 {
        0
    } else {
        (base256_val(f, i - 1) * 256 + f[i - 1]) as nat
    }
}

/// What a size field means: with the high bit of its first byte set it
/// is the binary base-256 extension (the value of its last eight
/// bytes), otherwise a padded octal run.
pub open spec fn parse_size_spec(f: Seq<u8>) -> Option<nat> {
    if f.len() == 12 && f[0] >= 128 {
        Some(base256_val(f, 12))
    } else {
        parse_octal_spec(f)
    }
}

/// Two-hundred-fifty-six to the given power.
pub open spec fn pow256(e: nat) -> nat
    decreases e,
{
    if e == 0 {
        1nat
    } else {
        256 * pow256((e - 1) as nat)
    }
}

proof fn lemma_pow256_mono(e1: nat, e2: nat)
    requires
        e1 <= e2,
    ensures
        pow256(e1) <= pow256(e2),
    decreases e2,
{
    if e1 < e2 {
        lemma_pow256_mono(e1, (e2 - 1) as nat);
    }
}

proof fn lemma_pow256_seven()
    ensures
        pow256(7) == 0x100000000000000,
{
    assert(pow256(0) == 1);
    assert(pow256(1) == 256);
    assert(pow256(2) == 0x10000);
    assert(pow256(3) == 0x1000000);
    assert(pow256(4) == 0x100000000);
    assert(pow256(5) == 0x10000000000);
    assert(pow256(6) == 0x1000000000000);
}

/// Eight to the given power.
pub open spec fn pow8(e: nat) -> nat
    decreases e,
{
    if e == 0 {
        1nat
    } else {
        8 * pow8((e - 1) as nat)
    }
}

proof fn lemma_pow8_mono(e1: nat, e2: nat)
    requires
        e1 <= e2,
    ensures
        pow8(e1) <= pow8(e2),
    decreases e2,
{
    if e1 < e2 {
        lemma_pow8_mono(e1, (e2 - 1) as nat);
    }
}

proof fn lemma_pow8_twelve()
    ensures
        pow8(12) == 68719476736,
{
    assert(pow8(0) == 1);
    assert(pow8(1) == 8);
    assert(pow8(2) == 64);
    assert(pow8(3) == 512);
    assert(pow8(4) == 4096);
    assert(pow8(5) == 32768);
    assert(pow8(6) == 262144);
    assert(pow8(7) == 2097152);
    assert(pow8(8) == 16777216);
    assert(pow8(9) == 134217728);
    assert(pow8(10) == 1073741824);
    assert(pow8(11) == 8589934592);
}

/// The value of a digit run is bounded by eight to its width.
proof fn lemma_octal_val_bound(f: Seq<u8>, a: int, b: int)
    requires
        a <= b,
        forall|k: int| a <= k < b ==> is_octal_digit(#[trigger] f[k]),
    ensures
        octal_val(f, a, b) < pow8((b - a) as nat),
    decreases b - a,
{
    if a < b {
        lemma_octal_val_bound(f, a, b - 1);
    }
}

/// Parses the octal size field; `None` exactly when it is not a
/// well-formed padded octal run.
pub fn parse_octal(field: &Vec<u8>) -> (r: Option<u64>)
    requires
        field@.len() == 12,
    ensures
        r is Some <==> parse_octal_spec(field@) is Some,
        r is Some ==> Some(r->0 as nat) == parse_octal_spec(field@),
        r is Some ==> r->0 < 68719476736,
{
    let mut a: usize = 0;
    while a < 12 && field[a] == 32
        invariant
            a <= 12,
            field@.len() == 12,
            skip_spaces(field@, 0) == skip_spaces(field@, a as int),
        decreases 12 - a,
    {
        a = a + 1;
    }
    proof {
        assert(skip_spaces(field@, 0) == a as int);
    }
    if a == 12 {
        return None;
    }
    let mut b: usize = a;
    let mut value: u64 = 0;
    while b < 12 && 48 <= field[b] && field[b] <= 55
        invariant
            a <= b <= 12,
            a < 12,
            field@.len() == 12,
            skip_spaces(field@, 0) == a as int,
            skip_digits(field@, a as int) == skip_digits(field@, b as int),
            forall|k: int| a <= k < b ==> is_octal_digit(#[trigger] field@[k]),
            value == octal_val(field@, a as int, b as int),
            value < pow8((b - a) as nat),
        decreases 12 - b,
    {
        proof {
            lemma_pow8_mono(((b - a) + 1) as nat, 12);
            lemma_pow8_twelve();
        }
        value = value * 8 + ((field[b] - 48) as u64);
        b = b + 1;
    }
    proof {
        assert(skip_digits(field@, a as int) == b as int);
        lemma_pow8_mono((b - a) as nat, 12);
        lemma_pow8_twelve();
    }
    if b == a {
        return None;
    }
    let mut k: usize = b;
    while k < 12
        invariant
            a < b <= k <= 12,
            field@.len() == 12,
            skip_spaces(field@, 0) == a as int,
            skip_digits(field@, a as int) == b as int,
            value == octal_val(field@, a as int, b as int),
            value < 68719476736,
            forall|j: int| b <= j < k ==> field@[j] == 0 || field@[j] == 32,
        decreases 12 - k,
    {
        let c = field[k];
        if c != 0 && c != 32 {
            proof {
                assert(!tail_padded(field@, b as int));
            }
            return None;
        }
        k = k + 1;
    }
    proof {
        assert(tail_padded(field@, b as int));
    }
    Some(value)
}

/// Parses the size field in either of its encodings: base-256 when the
/// marker bit is set, padded octal otherwise.
pub fn parse_size(field: &Vec<u8>) -> (r: Option<u64>)
    requires
        field@.len() == 12,
    ensures
        r is Some <==> parse_size_spec(field@) is Some,
        r is Some ==> Some(r->0 as nat) == parse_size_spec(field@),
{
    if field[0] >= 128 {
        let mut value: u64 = 0;
        let mut i: usize = 4;
        while i < 12
            invariant
                4 <= i <= 12,
                field@.len() == 12,
                value == base256_val(field@, i as int),
                value < pow256((i - 4) as nat),
            decreases 12 - i,
        {
            proof {
                lemma_pow256_mono((i - 4) as nat, 7);
                lemma_pow256_seven();
            }
            value = value * 256 + (field[i] as u64);
            i = i + 1;
        }
        Some(value)
    } else {
        parse_octal(field)
    }
}

/// What one parsed header block means.
#[derive(Clone, Copy)]
pub enum HeaderKind {
    /// An all-zero block: the end of the archive.
    EndOfArchive,
    /// The sentinel entry, with its content size.
    Sentinel { size: u64 },
    /// Any other entry, with its content size.
    Other { size: u64 },
    /// The size field could not be parsed.
    Malformed,
}

/// Parses one 512-byte header block: end marker, sentinel or other
/// entry with its size, or malformed — which also covers a size too
/// large for block arithmetic.
pub fn parse_header(hdr: &Vec<u8>) -> (r: HeaderKind)
    requires
        hdr@.len() == 512,
    ensures
        r is EndOfArchive <==> all_zero(hdr@),
        !all_zero(hdr@) ==> ((r is Malformed) <==> (parse_size_spec(size_field(hdr@)) is None
            || parse_size_spec(size_field(hdr@))->0 > MAX_ENTRY_SIZE)),
        r matches HeaderKind::Sentinel { size } ==> sentinel_named(hdr@) && parse_size_spec(
            size_field(hdr@),
        ) == Some(size as nat) && size <= MAX_ENTRY_SIZE,
        r matches HeaderKind::Other { size } ==> !sentinel_named(hdr@) && parse_size_spec(
            size_field(hdr@),
        ) == Some(size as nat) && size <= MAX_ENTRY_SIZE,
{
    let mut z: usize = 0;
    let mut zero = true;
    while z < 512
        invariant
            z <= 512,
            hdr@.len() == 512,
            zero == (forall|j: int| 0 <= j < z ==> hdr@[j] == 0),
        decreases 512 - z,
    {
        if hdr[z] != 0 {
            zero = false;
            proof {
                assert(!all_zero(hdr@));
            }
        }
        z = z + 1;
    }
    if zero {
        return HeaderKind::EndOfArchive;
    }
    let mut field: Vec<u8> = Vec::new();
    let mut f: usize = 124;
    while f < 136
        invariant
            124 <= f <= 136,
            hdr@.len() == 512,
            field@ == hdr@.subrange(124, f as int),
        decreases 136 - f,
    {
        field.push(hdr[f]);
        proof {
            assert(field@ =~= hdr@.subrange(124, f + 1));
        }
        f = f + 1;
    }
    proof {
        assert(field@ =~= size_field(hdr@));
    }
    let size = match parse_size(&field) {
        None => {
            return HeaderKind::Malformed;
        },
        Some(v) => v,
    };
    if size > MAX_ENTRY_SIZE {
        return HeaderKind::Malformed;
    }
    let name = make_sentinel_name();
    let is_sentinel = bytes_match(hdr, 0, &name) && hdr[12] == 0 && hdr[345] == 0;
    proof {
        assert(matches_at(hdr@, sentinel_name(), 0) == (hdr@.subrange(0, 12) == sentinel_name()));
    }
    if is_sentinel {
        HeaderKind::Sentinel { size }
    } else {
        HeaderKind::Other { size }
    }
}

/// One step's outcome when feeding the scanner.
pub enum ScanStep {
    /// The chunk is consumed and the label is still unresolved.
    NeedMore,
    /// The label was found; the scanner is finished.
    Found(Vec<u8>),
    /// The end-of-archive marker was reached without a matching line.
    EndOfArchive,
    /// A header could not be parsed.
    Malformed,
}

#[derive(Clone, Copy)]
enum ScanState {
    AtHeader,
    InSentinel { remaining: u64, padding: u64 },
    Skipping { remaining: u64 },
    Finished,
}

/// The incremental archive scanner: fed arbitrary chunks of the
/// derived stream, it walks entry headers, collects the sentinel
/// entry's content, skips everything else, and reports the first label
/// extracted from the sentinel's text.
pub struct LabelScanner {
    state: ScanState,
    header_buf: Vec<u8>,
    content_buf: Vec<u8>,
    fed_log: Ghost<Seq<u8>>,
    content_start: Ghost<int>,
    header_start: Ghost<int>,
    skip_to: Ghost<int>,
}

impl LabelScanner {
    /// All bytes fed so far, in order.
    pub closed spec fn fed(&self) -> Seq<u8> {
        self.fed_log@
    }

    /// Whether the scan has concluded, successfully or not.
    pub closed spec fn finished(&self) -> bool {
        self.state is Finished
    }

    /// The scanner's internal consistency: a partial header stays
    /// below one block, and pending content or skip counts are
    /// positive.
    pub closed spec fn wf(&self) -> bool {
        match self.state {
            ScanState::AtHeader => self.header_buf@.len() < 512 && self.content_buf@.len() == 0
                && 0 <= self.header_start@
                && self.header_start@ + self.header_buf@.len() <= self.fed().len()
                && self.header_buf@ == self.fed().subrange(
                self.header_start@,
                self.header_start@ + self.header_buf@.len(),
            ) && reaches(self.fed(), self.header_start@),
            ScanState::InSentinel { remaining, padding } => remaining >= 1 && padding < 512
                && self.header_buf@.len() == 0 && 512 <= self.content_start@
                && self.content_start@ + self.content_buf@.len() <= self.fed().len()
                && self.content_buf@ == self.fed().subrange(
                self.content_start@,
                self.content_start@ + self.content_buf@.len(),
            ) && reaches(self.fed(), self.content_start@ - 512) && sentinel_named(
                self.fed().subrange(self.content_start@ - 512, self.content_start@),
            ) && parse_size_spec(
                size_field(self.fed().subrange(self.content_start@ - 512, self.content_start@)),
            ) == Some((remaining + self.content_buf@.len()) as nat) && padding == ((512 - (
            remaining + self.content_buf@.len()) % 512) % 512),
            ScanState::Skipping { remaining } => remaining >= 1 && self.header_buf@.len() == 0
                && self.content_buf@.len() == 0 && reaches(self.fed(), self.skip_to@),
            ScanState::Finished => true,
        }
    }

    /// Between feeds, collected sentinel content always extends to the
    /// very end of the fed stream: nothing fed is still unprocessed.
    pub closed spec fn caught_up(&self) -> bool {
        match self.state {
            ScanState::AtHeader => self.header_start@ + self.header_buf@.len()
                == self.fed().len(),
            ScanState::InSentinel { remaining, padding } => self.content_start@
                + self.content_buf@.len() == self.fed().len(),
            ScanState::Skipping { remaining } => self.skip_to@ == self.fed().len() + remaining,
            _ => true,
        }
    }

    /// Creates a scanner expecting the first header.
    pub fn new() -> (r: LabelScanner)
        ensures
            r.wf(),
            r.caught_up(),
            !r.finished(),
            r.fed() == Seq::<u8>::empty(),
    {
        let r = LabelScanner {
            state: ScanState::AtHeader,
            header_buf: Vec::new(),
            content_buf: Vec::new(),
            fed_log: Ghost(Seq::empty()),
            content_start: Ghost(0),
            header_start: Ghost(0),
            skip_to: Ghost(0),
        };
        proof {
            assert(r.header_buf@ =~= r.fed_log@.subrange(0, 0));
            assert(walk_n(r.fed_log@, 0) == Some(0int));
        }
        r
    }

    /// Consumes one chunk of the derived stream.  The scan concludes —
    /// and only concludes — with a step other than `NeedMore`.  A found
    /// label is the line-scan extraction of the content of a
    /// sentinel-named entry whose header is reached by walking the
    /// archive's blocks from the start of the fed stream; the end and
    /// malformed steps likewise point at an actual reached header.
    #[verifier::rlimit(100)]
    pub fn feed(&mut self, chunk: &Vec<u8>) -> (r: ScanStep)
        requires
            old(self).wf(),
            old(self).caught_up(),
            !old(self).finished(),
        ensures
            final(self).wf(),
            final(self).caught_up(),
            final(self).fed() == old(self).fed() + chunk@,
            (r is NeedMore <==> !final(self).finished()),
            r matches ScanStep::Found(l) ==> (exists|off: int, size: nat|
                reaches(final(self).fed(), off) && 0 <= off
                    && off + 512 + size <= final(self).fed().len()
                    && sentinel_named(final(self).fed().subrange(off, off + 512))
                    && parse_size_spec(size_field(final(self).fed().subrange(off, off + 512)))
                    == Some(size)
                    && scan_from(
                    #[trigger] final(self).fed().subrange(off + 512, off + 512 + size),
                    0,
                ) == Some::<Seq<u8>>(l@)),
            r is EndOfArchive ==> (exists|off: int|
                reaches(final(self).fed(), off) && 0 <= off
                    && off + 512 <= final(self).fed().len()
                    && all_zero(#[trigger] final(self).fed().subrange(off, off + 512))),
            r is Malformed ==> (exists|off: int|
                reaches(final(self).fed(), off) && 0 <= off
                    && off + 512 <= final(self).fed().len()
                    && !all_zero(#[trigger] final(self).fed().subrange(off, off + 512))
                    && (parse_size_spec(size_field(final(self).fed().subrange(off, off + 512)))
                    is None || parse_size_spec(
                    size_field(final(self).fed().subrange(off, off + 512)),
                )->0 > MAX_ENTRY_SIZE)),
    {
        proof {
            let prior = self.fed_log@;
            self.fed_log@ = self.fed_log@ + chunk@;
            if self.state is InSentinel {
                assert(self.content_buf@ =~= self.fed_log@.subrange(
                    self.content_start@,
                    self.content_start@ + self.content_buf@.len(),
                ));
                lemma_reaches_extend(prior, chunk@, self.content_start@ - 512);
                assert(prior.subrange(self.content_start@ - 512, self.content_start@)
                    =~= self.fed_log@.subrange(self.content_start@ - 512, self.content_start@));
            }
            if self.state is AtHeader {
                assert(self.header_buf@ =~= self.fed_log@.subrange(
                    self.header_start@,
                    self.header_start@ + self.header_buf@.len(),
                ));
                lemma_reaches_extend(prior, chunk@, self.header_start@);
            }
            if self.state is Skipping {
                lemma_reaches_extend(prior, chunk@, self.skip_to@);
            }
        }
        let cl = chunk.len();
        let mut i: usize = 0;
        while i < cl
            invariant
                i <= cl,
                cl == chunk@.len(),
                self.wf(),
                !self.finished(),
                self.fed() == old(self).fed() + chunk@,
                self.state is InSentinel ==> self.content_start@ + self.content_buf@.len()
                    == self.fed().len() - cl + i,
                self.state is AtHeader ==> self.header_start@ + self.header_buf@.len()
                    == self.fed().len() - cl + i,
                self.state matches ScanState::Skipping { remaining } ==> self.skip_to@
                    == self.fed().len() - cl + i + remaining,
            decreases cl - i,
        {
            match self.state {
                ScanState::AtHeader => {
                    let have = self.header_buf.len();
                    let need = HEADER_LEN - have;
                    let avail = cl - i;
                    let t = if need < avail {
                        need
                    } else {
                        avail
                    };
                    let mut k: usize = 0;
                    while k < t
                        invariant
                            k <= t,
                            i + t <= cl,
                            cl == chunk@.len(),
                            self.state is AtHeader,
                            self.content_buf@.len() == 0,
                            self.fed() == old(self).fed() + chunk@,
                            self.header_buf@.len() == have + k,
                            have + t <= 512,
                            0 <= self.header_start@,
                            self.header_start@ + have == self.fed().len() - cl + i,
                            self.header_buf@ == self.fed().subrange(
                                self.header_start@,
                                self.header_start@ + have + k,
                            ),
                        decreases t - k,
                    {
                        self.header_buf.push(chunk[i + k]);
                        proof {
                            assert(self.fed_log@[self.header_start@ + have + k] == chunk@[i + k]);
                            assert(self.header_buf@ =~= self.fed_log@.subrange(
                                self.header_start@,
                                self.header_start@ + have + k + 1,
                            ));
                        }
                        k = k + 1;
                    }
                    i = i + t;
                    if self.header_buf.len() == HEADER_LEN {
                        let ghost hpos = self.header_start@;
                        let ghost hdr = self.header_buf@;
                        let kind = parse_header(&self.header_buf);
                        self.header_buf.clear();
                        proof {
                            assert(hdr == self.fed_log@.subrange(hpos, hpos + 512));
                        }
                        match kind {
                            HeaderKind::EndOfArchive => {
                                self.state = ScanState::Finished;
                                proof {
                                    assert(reaches(self.fed(), hpos));
                                    assert(all_zero(self.fed().subrange(hpos, hpos + 512)));
                                }
                                return ScanStep::EndOfArchive;
                            },
                            HeaderKind::Malformed => {
                                self.state = ScanState::Finished;
                                proof {
                                    assert(reaches(self.fed(), hpos));
                                    assert(!all_zero(self.fed().subrange(hpos, hpos + 512)));
                                    assert(parse_size_spec(
                                        size_field(self.fed().subrange(hpos, hpos + 512)),
                                    ) is None || parse_size_spec(
                                        size_field(self.fed().subrange(hpos, hpos + 512)),
                                    )->0 > MAX_ENTRY_SIZE);
                                }
                                return ScanStep::Malformed;
                            },
                            HeaderKind::Sentinel { size } => {
                                let padding: u64 = (512 - size % 512) % 512;
                                proof {
                                    assert(padded_size(size as nat) == size + padding);
                                    assert(boundary_after(self.fed_log@, hpos) == Some(
                                        hpos + 512 + padded_size(size as nat),
                                    ));
                                    lemma_reaches_step(
                                        self.fed_log@,
                                        hpos,
                                        hpos + 512 + padded_size(size as nat),
                                    );
                                }
                                if size == 0 {
                                    self.state = ScanState::AtHeader;
                                    proof {
                                        self.header_start@ = self.fed_log@.len() - cl + i;
                                        assert(self.header_start@ == hpos + 512 + padded_size(
                                            size as nat,
                                        ));
                                        assert(self.header_buf@ =~= self.fed_log@.subrange(
                                            self.header_start@,
                                            self.header_start@,
                                        ));
                                    }
                                } else {
                                    self.state = ScanState::InSentinel { remaining: size, padding };
                                    proof {
                                        self.content_start@ = self.fed_log@.len() - cl + i;
                                        assert(self.content_start@ == hpos + 512);
                                        assert(self.content_buf@ =~= self.fed_log@.subrange(
                                            self.content_start@,
                                            self.content_start@,
                                        ));
                                    }
                                }
                            },
                            HeaderKind::Other { size } => {
                                let padding: u64 = (512 - size % 512) % 512;
                                let total = size + padding;
                                proof {
                                    assert(padded_size(size as nat) == size + padding);
                                    assert(boundary_after(self.fed_log@, hpos) == Some(
                                        hpos + 512 + padded_size(size as nat),
                                    ));
                                    lemma_reaches_step(
                                        self.fed_log@,
                                        hpos,
                                        hpos + 512 + padded_size(size as nat),
                                    );
                                }
                                if total == 0 {
                                    self.state = ScanState::AtHeader;
                                    proof {
                                        self.header_start@ = self.fed_log@.len() - cl + i;
                                        assert(self.header_start@ == hpos + 512 + padded_size(
                                            size as nat,
                                        ));
                                        assert(self.header_buf@ =~= self.fed_log@.subrange(
                                            self.header_start@,
                                            self.header_start@,
                                        ));
                                    }
                                } else {
                                    self.state = ScanState::Skipping { remaining: total };
                                    proof {
                                        self.skip_to@ = self.fed_log@.len() - cl + i + total;
                                        assert(self.skip_to@ == hpos + 512 + padded_size(
                                            size as nat,
                                        ));
                                    }
                                }
                            },
                        }
                    }
                },
                ScanState::InSentinel { remaining, padding } => {
                    let ghost es: nat = (remaining + self.content_buf@.len()) as nat;
                    let ghost clen0 = self.content_buf@.len();
                    let avail64 = (cl - i) as u64;
                    let t64 = if remaining < avail64 {
                        remaining
                    } else {
                        avail64
                    };
                    let t = t64 as usize;
                    let mut k: usize = 0;
                    while k < t
                        invariant
                            k <= t,
                            i + t <= cl,
                            cl == chunk@.len(),
                            self.state == (ScanState::InSentinel { remaining, padding }),
                            remaining >= 1,
                            padding < 512,
                            self.header_buf@.len() == 0,
                            self.fed() == old(self).fed() + chunk@,
                            512 <= self.content_start@,
                            self.content_buf@.len() == clen0 + k,
                            es == remaining + clen0,
                            padding == ((512 - es % 512) % 512),
                            reaches(self.fed(), self.content_start@ - 512),
                            sentinel_named(
                                self.fed().subrange(
                                    self.content_start@ - 512,
                                    self.content_start@,
                                ),
                            ),
                            parse_size_spec(
                                size_field(
                                    self.fed().subrange(
                                        self.content_start@ - 512,
                                        self.content_start@,
                                    ),
                                ),
                            ) == Some(es),
                            self.content_start@ + self.content_buf@.len() == self.fed().len() - cl
                                + i + k,
                            self.content_buf@ == self.fed().subrange(
                                self.content_start@,
                                self.content_start@ + self.content_buf@.len(),
                            ),
                        decreases t - k,
                    {
                        self.content_buf.push(chunk[i + k]);
                        proof {
                            assert(self.fed_log@[self.content_start@
                                + self.content_buf@.len() - 1] == chunk@[i + k]);
                            assert(self.content_buf@ =~= self.fed_log@.subrange(
                                self.content_start@,
                                self.content_start@ + self.content_buf@.len(),
                            ));
                        }
                        k = k + 1;
                    }
                    i = i + t;
                    let rem2 = remaining - t64;
                    if rem2 == 0 {
                        let ghost cont = self.content_buf@;
                        let ghost hpos = self.content_start@ - 512;
                        proof {
                            let h = self.fed_log@.subrange(hpos, hpos + 512);
                            assert(h.subrange(0, 12)[0] == h[0]);
                            assert(h[0] == 98);
                            assert(!all_zero(h));
                            assert(padded_size(es) == es + padding);
                            assert(boundary_after(self.fed_log@, hpos) == Some(
                                hpos + 512 + padded_size(es),
                            ));
                            lemma_reaches_step(self.fed_log@, hpos, hpos + 512 + padded_size(es));
                        }
                        let res = find_label_line(&self.content_buf);
                        self.content_buf.clear();
                        match res {
                            Some(l) => {
                                self.state = ScanState::Finished;
                                proof {
                                    let a = self.content_start@;
                                    let b = a + cont.len();
                                    assert(cont.len() == es);
                                    assert(cont == self.fed_log@.subrange(a, b));
                                    assert(reaches(self.fed(), hpos));
                                    assert(sentinel_named(self.fed().subrange(hpos, hpos + 512)));
                                    assert(parse_size_spec(
                                        size_field(self.fed().subrange(hpos, hpos + 512)),
                                    ) == Some(es));
                                    assert(hpos + 512 + es <= self.fed().len());
                                    assert(scan_from(
                                        self.fed().subrange(hpos + 512, hpos + 512 + es),
                                        0,
                                    ) == Some(l@));
                                }
                                return ScanStep::Found(l);
                            },
                            None => {
                                if padding == 0 {
                                    self.state = ScanState::AtHeader;
                                    proof {
                                        self.header_start@ = self.fed_log@.len() - cl + i;
                                        assert(self.header_start@ == hpos + 512 + padded_size(es));
                                        assert(self.header_buf@ =~= self.fed_log@.subrange(
                                            self.header_start@,
                                            self.header_start@,
                                        ));
                                    }
                                } else {
                                    self.state = ScanState::Skipping { remaining: padding };
                                    proof {
                                        self.skip_to@ = self.fed_log@.len() - cl + i + padding;
                                        assert(self.skip_to@ == hpos + 512 + padded_size(es));
                                    }
                                }
                            },
                        }
                    } else {
                        self.state = ScanState::InSentinel { remaining: rem2, padding };
                    }
                },
                ScanState::Skipping { remaining } => {
                    let avail64 = (cl - i) as u64;
                    let t64 = if remaining < avail64 {
                        remaining
                    } else {
                        avail64
                    };
                    i = i + t64 as usize;
                    let rem2 = remaining - t64;
                    if rem2 == 0 {
                        self.state = ScanState::AtHeader;
                        proof {
                            self.header_start@ = self.fed_log@.len() - cl + i;
                            assert(self.header_start@ == self.skip_to@);
                            assert(self.header_buf@ =~= self.fed_log@.subrange(
                                self.header_start@,
                                self.header_start@,
                            ));
                        }
                    } else {
                        self.state = ScanState::Skipping { remaining: rem2 };
                    }
                },
                ScanState::Finished => {
                    proof {
                        assert(false);
                    }
                    return ScanStep::NeedMore;
                },
            }
        }
        ScanStep::NeedMore
    }
}

/// Consumes up to `max_reads` bounded reads of the derived copy of the
/// stream, entry by entry, and returns the first label found; fails
/// with "label not found" when the stream or the archive ends first,
/// and with a malformed-archive error on an unparseable header.  Stops
/// reading as soon as its single result is known.  The read budget
/// bounds the loop; the driving thread passes the largest one, and an
/// exhausted budget reports the label as not found.
pub fn find_wal_label(rx: &mut SplitReceiver, max_reads: usize) -> (r: Result<
    Vec<u8>,
    CaptureError,
>)
    requires
        old(rx).wf(),
        old(rx).delivered() == Seq::<u8>::empty(),
    ensures
        final(rx).wf(),
        r matches Ok(l) ==> (exists|off: int, size: nat|
            reaches(final(rx).delivered(), off) && 0 <= off
                && off + 512 + size <= final(rx).delivered().len()
                && sentinel_named(final(rx).delivered().subrange(off, off + 512))
                && parse_size_spec(size_field(final(rx).delivered().subrange(off, off + 512)))
                == Some(size)
                && scan_from(
                #[trigger] final(rx).delivered().subrange(off + 512, off + 512 + size),
                0,
            ) == Some::<Seq<u8>>(l@)),
        r matches Err(e) ==> (e == CaptureError::LabelNotFound || e
            == CaptureError::MalformedArchive),
        r matches Err(e) ==> (e == CaptureError::MalformedArchive ==> (exists|off: int|
            reaches(final(rx).delivered(), off) && 0 <= off
                && off + 512 <= final(rx).delivered().len()
                && (parse_size_spec(
                size_field(#[trigger] final(rx).delivered().subrange(off, off + 512)),
            ) is None || parse_size_spec(
                size_field(final(rx).delivered().subrange(off, off + 512)),
            )->0 > MAX_ENTRY_SIZE))),
{
    let mut sc = LabelScanner::new();
    let mut reads: usize = 0;
    proof {
        assert(sc.fed() =~= rx.delivered());
    }
    while reads < max_reads
        invariant
            rx.wf(),
            sc.wf(),
            sc.caught_up(),
            !sc.finished(),
            sc.fed() == rx.delivered(),
        decreases max_reads - reads,
    {
        reads = reads + 1;
        let chunk = rx.read(4096);
        if chunk.len() == 0 {
            return Err(CaptureError::LabelNotFound);
        }
        match sc.feed(&chunk) {
            ScanStep::NeedMore => {
                proof {
                    assert(sc.fed() =~= rx.delivered());
                }
            },
            ScanStep::Found(l) => {
                proof {
                    assert(sc.fed() =~= rx.delivered());
                }
                return Ok(l);
            },
            ScanStep::EndOfArchive => {
                return Err(CaptureError::LabelNotFound);
            },
            ScanStep::Malformed => {
                proof {
                    assert(sc.fed() =~= rx.delivered());
                }
                return Err(CaptureError::MalformedArchive);
            },
        }
    }
    Err(CaptureError::LabelNotFound)
}

} // verus!
