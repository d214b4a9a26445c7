//! Workload decisions of the benchmark driver.
//!
//! The driver binds threads, drives sessions and does file input/output; the
//! decisions it takes per operation index live here: which operation a
//! workload issues for a key, when to refresh the epoch and drain pending
//! completions, how keys are laid out big-endian in the preprocessed key
//! files, and how a user identifier is extracted from a YCSB trace line.

use vstd::prelude::*;

verus! {

/// The operation a workload issues for one key.
pub enum Operation {
    Read,
    Upsert,
    Rmw,
}

/// Issue operations every one of which refreshes the epoch.
pub const REFRESH_INTERVAL: usize = 64;

/// Issue operations every one of which drains pending completions.
pub const COMPLETE_PENDING_INTERVAL: usize = 1600;

/// The half-reads, half-upserts workload: even keys are read, odd keys are
/// upserted.
pub fn read_upsert5050(key: usize) -> (r: Operation)
    ensures
        key % 2 == 0 ==> r is Read,
        key % 2 == 1 ==> r is Upsert,
{
    if key % 2 == 0 {
        Operation::Read
    } else {
        Operation::Upsert
    }
}

/// The all-read-modify-write workload.
pub fn rmw_100(_key: usize) -> (r: Operation)
    ensures
        r is Rmw,
{
    Operation::Rmw
}

/// The all-upserts workload.
pub fn upsert_100(_key: usize) -> (r: Operation)
    ensures
        r is Upsert,
{
    Operation::Upsert
}

/// The maintenance due before issuing operation `i`: an epoch refresh every
/// [`REFRESH_INTERVAL`] operations, and within those a completion drain
/// every [`COMPLETE_PENDING_INTERVAL`] operations.
pub fn maintenance_due(i: usize) -> (r: (bool, bool))
    ensures
        r.0 == (i % REFRESH_INTERVAL == 0),
        r.1 == (i % REFRESH_INTERVAL == 0 && i % COMPLETE_PENDING_INTERVAL == 0),
{
    let refresh = i % REFRESH_INTERVAL == 0;
    (refresh, refresh && i % COMPLETE_PENDING_INTERVAL == 0)
}

/// The eight big-endian bytes of a 64-bit key, most significant first, as
/// the preprocessed key files store them.
pub open spec fn spec_u64_to_be_bytes(x: u64) -> Seq<u8> {
    seq![
        ((x >> 56) & 0xff) as u8,
        ((x >> 48) & 0xff) as u8,
        ((x >> 40) & 0xff) as u8,
        ((x >> 32) & 0xff) as u8,
        ((x >> 24) & 0xff) as u8,
        ((x >> 16) & 0xff) as u8,
        ((x >> 8) & 0xff) as u8,
        (x & 0xff) as u8,
    ]
}

/// Write a key as its eight big-endian bytes.
pub fn u64_to_be_bytes(x: u64) -> (r: Vec<u8>)
    ensures
        r@ == spec_u64_to_be_bytes(x),
{
    let mut r: Vec<u8> = Vec::new();
    r.push(((x >> 56) & 0xff) as u8);
    r.push(((x >> 48) & 0xff) as u8);
    r.push(((x >> 40) & 0xff) as u8);
    r.push(((x >> 32) & 0xff) as u8);
    r.push(((x >> 24) & 0xff) as u8);
    r.push(((x >> 16) & 0xff) as u8);
    r.push(((x >> 8) & 0xff) as u8);
    r.push((x & 0xff) as u8);
    proof {
        assert(r@ =~= spec_u64_to_be_bytes(x));
    }
    r
}

/// Read the key eight big-endian bytes hold.
pub fn u64_from_be_bytes(b: &[u8]) -> (x: u64)
    requires
        b@.len() == 8,
    ensures
        spec_u64_to_be_bytes(x) == b@,
{
    let b0 = b[0] as u64;
    let b1 = b[1] as u64;
    let b2 = b[2] as u64;
    let b3 = b[3] as u64;
    let b4 = b[4] as u64;
    let b5 = b[5] as u64;
    let b6 = b[6] as u64;
    let b7 = b[7] as u64;
    let x = (b0 << 56) | (b1 << 48) | (b2 << 40) | (b3 << 32) | (b4 << 24) | (b5 << 16) | (b6
        << 8) | b7;
    proof {
        assert((b0 < 256 && b1 < 256 && b2 < 256 && b3 < 256 && b4 < 256 && b5 < 256 && b6 < 256
            && b7 < 256) ==> {
            let y = (b0 << 56) | (b1 << 48) | (b2 << 40) | (b3 << 32) | (b4 << 24) | (b5 << 16) | (
            b6 << 8) | b7;
            &&& ((y >> 56) & 0xff) == b0
            &&& ((y >> 48) & 0xff) == b1
            &&& ((y >> 40) & 0xff) == b2
            &&& ((y >> 32) & 0xff) == b3
            &&& ((y >> 24) & 0xff) == b4
            &&& ((y >> 16) & 0xff) == b5
            &&& ((y >> 8) & 0xff) == b6
            &&& (y & 0xff) == b7
        }) by (bit_vector);
        assert(spec_u64_to_be_bytes(x) =~= b@);
    }
    x
}

/// The keys a preprocessed key file chunk holds: one per eight big-endian
/// bytes, in file order; a trailing partial key is ignored.
pub fn keys_from_chunk(buf: &[u8]) -> (r: Vec<u64>)
    ensures
        r@.len() == buf@.len() / 8,
        forall|i: int|
            0 <= i < r@.len() ==> spec_u64_to_be_bytes(r@[i]) == buf@.subrange(8 * i, 8 * i + 8),
{
    let count = buf.len() / 8;
    let mut r: Vec<u64> = Vec::new();
    let mut i: usize = 0;
    while i < count
        invariant
            i <= count,
            count == buf@.len() / 8,
            r@.len() == i,
            forall|j: int|
                0 <= j < i ==> spec_u64_to_be_bytes(r@[j]) == buf@.subrange(8 * j, 8 * j + 8),
        decreases count - i,
    {
        proof {
            vstd::slice::axiom_spec_len::<u8>(buf);
            assert(8 * i + 8 <= 8 * count);
            assert(8 * (buf@.len() / 8) <= buf@.len());
        }
        let word = vstd::slice::slice_subrange(buf, 8 * i, 8 * i + 8);
        r.push(u64_from_be_bytes(word));
        i = i + 1;
    }
    r
}

/// The bytes of the marker `usertable user` that precedes a user identifier
/// in a YCSB trace line.
pub open spec fn ycsb_marker() -> Seq<u8> {
    seq![117u8, 115u8, 101u8, 114u8, 116u8, 97u8, 98u8, 108u8, 101u8, 32u8, 117u8, 115u8, 101u8, 114u8]
}

/// An ASCII decimal digit.
pub open spec fn is_ascii_digit(b: u8) -> bool {
    48 <= b <= 57
}

/// The marker stands at position `i` of the line, followed by at least one
/// digit.
pub open spec fn key_match_at(s: Seq<u8>, i: int) -> bool {
    &&& 0 <= i
    &&& i + 14 < s.len()
    &&& s.subrange(i, i + 14) == ycsb_marker()
    &&& is_ascii_digit(s[i + 14])
}

/// The position right after the digit run starting at `j`.
pub open spec fn digit_run_end(s: Seq<u8>, j: int) -> int
    recommends
        0 <= j <= s.len(),
    decreases s.len() - j,
{
    if 0 <= j < s.len() && is_ascii_digit(s[j]) {
        digit_run_end(s, j + 1)
    } else {
        j
    }
}

/// The decimal value of the digits at positions `from` (inclusive) to `to`
/// (exclusive).
pub open spec fn digits_val(s: Seq<u8>, from: int, to: int) -> int
    decreases to - from,
{
    if to <= from {
        0
    } else {
        digits_val(s, from, to - 1) * 10 + (s[to - 1] - 48)
    }
}

proof fn lemma_digits_val_bounds(s: Seq<u8>, from: int, to: int)
    requires
        0 <= from <= to <= s.len(),
        forall|k: int| from <= k < to ==> is_ascii_digit(s[k]),
    ensures
        digits_val(s, from, to) >= 0,
    decreases to - from,
{
    if to > from {
        lemma_digits_val_bounds(s, from, to - 1);
    }
}

proof fn lemma_digits_val_monotone(s: Seq<u8>, from: int, mid: int, to: int)
    requires
        0 <= from <= mid <= to <= s.len(),
        forall|k: int| from <= k < to ==> is_ascii_digit(s[k]),
    ensures
        digits_val(s, from, to) >= digits_val(s, from, mid),
    decreases to - mid,
{
    lemma_digits_val_bounds(s, from, mid);
    if to > mid {
        lemma_digits_val_monotone(s, from, mid, to - 1);
        lemma_digits_val_bounds(s, from, to - 1);
    }
}

proof fn lemma_digit_run_all_digits(s: Seq<u8>, j: int)
    requires
        0 <= j <= s.len(),
    ensures
        j <= digit_run_end(s, j) <= s.len(),
        forall|k: int| j <= k < digit_run_end(s, j) ==> is_ascii_digit(s[k]),
    decreases s.len() - j,
{
    if j < s.len() && is_ascii_digit(s[j]) {
        lemma_digit_run_all_digits(s, j + 1);
    }
}

/// Whether the marker, followed by a digit, stands at position `i`.
fn marker_matches(line: &[u8], i: usize) -> (r: bool)
    requires
        i + 15 <= line@.len(),
    ensures
        r == key_match_at(line@, i as int),
{
    let m = line[i] == 117 && line[i + 1] == 115 && line[i + 2] == 101 && line[i + 3] == 114
        && line[i + 4] == 116 && line[i + 5] == 97 && line[i + 6] == 98 && line[i + 7] == 108
        && line[i + 8] == 101 && line[i + 9] == 32 && line[i + 10] == 117 && line[i + 11] == 115
        && line[i + 12] == 101 && line[i + 13] == 114;
    let d = line[i + 14] >= 48 && line[i + 14] <= 57;
    proof {
        let sub = line@.subrange(i as int, i as int + 14);
        if m {
            assert(sub =~= ycsb_marker());
        } else {
            assert(forall|k: int| 0 <= k < 14 ==> sub[k] == line@[i + k]);
            assert(sub != ycsb_marker()) by {
                if sub == ycsb_marker() {
                    assert(sub[0] == 117 && sub[1] == 115 && sub[2] == 101 && sub[3] == 114
                        && sub[4] == 116 && sub[5] == 97 && sub[6] == 98 && sub[7] == 108
                        && sub[8] == 101 && sub[9] == 32 && sub[10] == 117 && sub[11] == 115
                        && sub[12] == 101 && sub[13] == 114);
                }
            }
        }
    }
    m && d
}

/// The value of the digit run starting at `start`, or nothing if it does
/// not fit in a 64-bit key.
fn parse_digits(line: &[u8], start: usize) -> (r: Option<u64>)
    requires
        start <= line@.len(),
    ensures
        digits_val(line@, start as int, digit_run_end(line@, start as int)) <= u64::MAX as int
            ==> (r matches Some(v) && v as int == digits_val(
            line@,
            start as int,
            digit_run_end(line@, start as int),
        )),
        digits_val(line@, start as int, digit_run_end(line@, start as int)) > u64::MAX as int
            ==> r is None,
{
    proof {
        lemma_digit_run_all_digits(line@, start as int);
    }
    let mut j: usize = start;
    let mut v: u64 = 0;
    loop
        invariant
            start <= j <= line@.len(),
            j <= digit_run_end(line@, start as int) <= line@.len(),
            digit_run_end(line@, start as int) == digit_run_end(line@, j as int),
            forall|k: int|
                start <= k < digit_run_end(line@, start as int) ==> is_ascii_digit(line@[k]),
            v as int == digits_val(line@, start as int, j as int),
        decreases line@.len() - j,
    {
        let ghost e = digit_run_end(line@, start as int);
        if j >= line.len() || line[j] < 48 || line[j] > 57 {
            proof {
                assert(e == j);
            }
            return Some(v);
        }
        let d = (line[j] - 48) as u64;
        proof {
            assert(e == digit_run_end(line@, j as int + 1));
            lemma_digit_run_all_digits(line@, j as int + 1);
        }
        if v > (u64::MAX - d) / 10 {
            proof {
                assert(10 * ((u64::MAX - d) / 10) >= u64::MAX - d - 9);
                assert(v as int * 10 + d > u64::MAX as int);
                lemma_digits_val_monotone(line@, start as int, j as int + 1, e);
            }
            return None;
        }
        proof {
            assert(10 * ((u64::MAX - d) / 10) <= u64::MAX - d);
        }
        v = v * 10 + d;
        j = j + 1;
    }
}

/// The user identifier a YCSB trace line carries: the decimal number after
/// the last marker that is followed by a digit, or nothing if no marker is
/// followed by a digit or the number does not fit in a 64-bit key.
pub fn ycsb_key_of_line(line: &[u8]) -> (r: Option<u64>)
    ensures
        (forall|i: int| !key_match_at(line@, i)) ==> r is None,
        forall|i: int|
            (#[trigger] key_match_at(line@, i) && (forall|j: int|
                j > i ==> !key_match_at(line@, j))) ==> {
                let value = digits_val(line@, i + 14, digit_run_end(line@, i + 14));
                &&& value <= u64::MAX as int ==> (r matches Some(v) && v as int == value)
                &&& value > u64::MAX as int ==> r is None
            },
{
    let n = line.len();
    if n < 15 {
        return None;
    }
    let mut i: usize = n - 14;
    while i > 0
        invariant
            i <= n - 14,
            n == line@.len(),
            15 <= n,
            forall|j: int| i <= j ==> !key_match_at(line@, j),
        decreases i,
    {
        i = i - 1;
        if marker_matches(line, i) {
            return parse_digits(line, i + 14);
        }
    }
    None
}

} // verus!
