//! Log segments: the fixed-size files of the write-ahead log.
use vstd::prelude::*;
use vstd::string::*;

use crate::codec::text::{decimal, digit_char, lemma_u64_decimal_len, u64_to_decimal_string};

verus! {

/// Length of the prefix of every record: checksum (4), length (3) and type (1).
pub const RECORD_PREFIX_LENGTH: u64 = 8;

/// Length of the footer of a full segment: checksum (4), length (3), type (1), earliest
/// record time (8) and latest record time (8).
pub const FOOTER_LENGTH: u64 = 24;

/// Earliest and latest record time of a segment, in nanoseconds since the Unix epoch.
#[derive(Debug, Clone, Copy, PartialEq, Eq, Structural)]
pub struct TimeRange {
    pub begin: u64,
    pub end: Option<u64>,
}

impl TimeRange {
    pub fn new(begin: u64) -> (t: TimeRange)
        ensures
            t == (TimeRange { begin, end: None }),
    {
        TimeRange { begin, end: None }
    }
}

/// Status of a segment file: which operations it allows.
#[derive(Debug, Clone, Copy, PartialEq, Eq, Structural)]
pub enum Status {
    /// No file yet; it is to be opened with `O_CREAT`.
    OpenAt,
    /// Space is to be preallocated.
    Fallocate64,
    /// Ready for reads and writes.
    ReadWrite,
    /// Full, hence read-only.
    Read,
    /// Data expired and no longer referenced: the descriptor is to be closed.
    Close,
    /// The file is to be deleted to reclaim disk space.
    UnlinkAt,
}

/// How a status reads in logs.
pub open spec fn status_text(s: Status) -> Seq<char> {
    match s {
        Status::OpenAt => "open"@,
        Status::Fallocate64 => "fallocate"@,
        Status::ReadWrite => "read/write"@,
        Status::Read => "read"@,
        Status::Close => "close"@,
        Status::UnlinkAt => "unlink"@,
    }
}

impl Status {
    /// The text of the status, as logs show it.
    pub fn describe(&self) -> (t: String)
        ensures
            t@ == status_text(*self),
    {
        match self {
            Status::OpenAt => String::from_str("open"),
            Status::Fallocate64 => String::from_str("fallocate"),
            Status::ReadWrite => String::from_str("read/write"),
            Status::Read => String::from_str("read"),
            Status::Close => String::from_str("close"),
            Status::UnlinkAt => String::from_str("unlink"),
        }
    }
}

#[derive(Debug, Clone, Copy, PartialEq, Eq, Structural)]
pub enum Medium {
    Ssd,
    Hdd,
    S3,
}

/// A segment of the write-ahead log: fixed-length, written from its start on.
#[derive(Debug)]
pub struct LogSegment {
    /// Offset of the segment in the whole WAL, in bytes.
    pub offset: u64,
    /// Fixed size of the segment file; `offset + size` starts the next segment.
    pub size: u64,
    /// Position up to which the segment is written, relative to its start.
    pub written: u64,
    pub time_range: Option<TimeRange>,
    pub status: Status,
    /// Path of the segment file.
    pub path: String,
}

/// `s` padded on the left with `'0'` to `width` characters.
pub open spec fn zero_padded(s: Seq<char>, width: nat) -> Seq<char> {
    if s.len() >= width {
        s
    } else {
        Seq::new((width - s.len()) as nat, |i: int| '0') + s
    }
}

impl LogSegment {
    /// The WAL offset that a segment file name spells, if it spells one.
    pub fn parse_offset(file_name: &[u8]) -> (r: Option<u64>)
        ensures
            r == u64_text_value(file_name@),
    {
        let n = file_name.len();
        let start: usize = if n > 0 && file_name[0] == 43u8 { 1 } else { 0 };
        let ghost d = file_name@.subrange(start as int, n as int);
        assert(d == if file_name@.len() > 0 && file_name@[0] == 43 {
            file_name@.subrange(1, file_name@.len() as int)
        } else {
            file_name@
        });
        if start == n {
            return None;
        }
        let mut value: u64 = 0;
        let mut i: usize = start;
        while i < n
            invariant
                start <= i <= n,
                n == file_name@.len(),
                d == file_name@.subrange(start as int, n as int),
                d == if file_name@.len() > 0 && file_name@[0] == 43 {
                    file_name@.subrange(1, file_name@.len() as int)
                } else {
                    file_name@
                },
                d.len() > 0,
                all_digits(d.subrange(0, i - start)),
                value == digits_value(d.subrange(0, i - start)),
            decreases n - i,
        {
            let b = file_name[i];
            let ghost pre = d.subrange(0, i - start);
            let ghost next = d.subrange(0, i - start + 1);
            assert(next.drop_last() == pre);
            assert(next.last() == b);
            if b < 48u8 || b > 57u8 {
                assert(!all_digits(d)) by {
                    assert(d[i - start] == b);
                }
                return None;
            }
            if value > (u64::MAX - (b - 48u8) as u64) / 10 {
                let ghost c = (b - 48u8) as int;
                assert(value * 10 + c > u64::MAX) by (nonlinear_arith)
                    requires
                        value > (u64::MAX - c) / 10,
                        0 <= c <= 9,
                ;
                assert(digits_value(next) == value * 10 + c);
                proof {
                    if all_digits(d) {
                        lemma_digits_value_grows(d, i - start + 1);
                    }
                }
                return None;
            }
            value = value * 10 + (b - 48u8) as u64;
            assert(all_digits(next)) by {
                assert forall|j: int| 0 <= j < next.len() implies 48 <= #[trigger] next[j] <= 57 by {
                    if j < pre.len() {
                        assert(next[j] == pre[j]);
                    }
                }
            }
            i = i + 1;
        }
        assert(d.subrange(0, n - start) == d);
        Some(value)
    }

    pub fn new(offset: u64, size: u64, path: String) -> (s: LogSegment)
        ensures
            s.offset == offset,
            s.size == size,
            s.written == 0,
            s.time_range is None,
            s.status == Status::OpenAt,
            s.path == path,
    {
        LogSegment { offset, size, written: 0, time_range: None, status: Status::OpenAt, path }
    }

    /// The file name of the segment at `offset`: its decimal offset, zero-padded to 20 digits.
    pub fn format(offset: u64) -> (s: String)
        ensures
            s@ == zero_padded(decimal(offset as nat), 20),
            s@.len() == 20,
    {
        proof {
            lemma_u64_decimal_len(offset);
        }
        let digits = u64_to_decimal_string(offset);
        let n = digits.as_str().unicode_len();
        let mut s = String::new();
        let mut i: usize = n;
        proof {
            reveal_strlit("0");
        }
        while i < 20
            invariant
                n == digits@.len(),
                n <= i <= 20 || (n > 20 && i == n),
                s@ == Seq::new((i - n) as nat, |j: int| '0'),
            decreases 20 - i,
        {
            proof {
                reveal_strlit("0");
            }
            s.append("0");
            i = i + 1;
            assert(s@ =~= Seq::new((i - n) as nat, |j: int| '0'));
        }
        s.append(digits.as_str());
        assert(s@ =~= zero_padded(decimal(offset as nat), 20));
        s
    }

    pub fn is_full(&self) -> (b: bool)
        ensures
            b == (self.written >= self.size),
    {
        self.written >= self.size
    }

    /// The segment takes a record with a payload of `payload_length` bytes and still has
    /// room for its footer; never when it is read-only.
    pub fn can_hold(&self, payload_length: u64) -> (b: bool)
        requires
            self.written + RECORD_PREFIX_LENGTH + payload_length + FOOTER_LENGTH <= u64::MAX,
        ensures
            b == (self.status != Status::Read && self.written + RECORD_PREFIX_LENGTH
                + payload_length + FOOTER_LENGTH <= self.size),
    {
        self.status != Status::Read && self.written + RECORD_PREFIX_LENGTH + payload_length
            + FOOTER_LENGTH <= self.size
    }

    /// Bytes left to write; none unless the segment is open for reads and writes.
    pub fn remaining(&self) -> (n: u64)
        requires
            self.status == Status::ReadWrite ==> self.size >= self.written,
        ensures
            n == if self.status == Status::ReadWrite { self.size - self.written } else { 0 },
    {
        if self.status != Status::ReadWrite {
            0
        } else {
            self.size - self.written
        }
    }
}

/// The value of decimal digits `s`.
pub open spec fn digits_value(s: Seq<u8>) -> nat
    decreases s.len(),
{
    if s.len() == 0 {
        0
    } else {
        digits_value(s.drop_last()) * 10 + (s.last() - 48) as nat
    }
}

/// Every byte is an ASCII decimal digit.
pub open spec fn all_digits(s: Seq<u8>) -> bool {
    forall|i: int| 0 <= i < s.len() ==> 48 <= #[trigger] s[i] <= 57
}

/// The unsigned number that text `s` spells as `u64::from_str` reads it: an optional `+`,
/// then at least one decimal digit and nothing else, of a value that fits in 64 bits.
pub open spec fn u64_text_value(s: Seq<u8>) -> Option<u64> {
    let d = if s.len() > 0 && s[0] == 43 {
        s.subrange(1, s.len() as int)
    } else {
        s
    };
    if d.len() > 0 && all_digits(d) && digits_value(d) <= u64::MAX {
        Some(digits_value(d) as u64)
    } else {
        None
    }
}

/// A longer run of digits is worth at least as much as its prefix.
proof fn lemma_digits_value_grows(s: Seq<u8>, k: int)
    requires
        0 <= k <= s.len(),
        all_digits(s),
    ensures
        digits_value(s.subrange(0, k)) <= digits_value(s),
    decreases s.len(),
{
    if k < s.len() {
        let init = s.drop_last();
        assert(all_digits(init)) by {
            assert forall|i: int| 0 <= i < init.len() implies 48 <= #[trigger] init[i] <= 57 by {
                assert(init[i] == s[i]);
            }
        }
        lemma_digits_value_grows(init, k);
        assert(init.subrange(0, k) == s.subrange(0, k));
        assert(48 <= s[s.len() - 1] <= 57);
    } else {
        assert(s.subrange(0, k) == s);
    }
}

/// The bytes of ASCII text `s`, one per character.
pub open spec fn ascii_bytes(s: Seq<char>) -> Seq<u8> {
    s.map_values(|c: char| c as u8)
}

proof fn lemma_digit_byte(d: nat)
    requires
        d < 10,
    ensures
        digit_char(d) as u8 == 48 + d,
{
}

/// The decimal text of `n` spells `n`.
proof fn lemma_decimal_value(n: nat)
    ensures
        all_digits(ascii_bytes(decimal(n))),
        ascii_bytes(decimal(n)).len() > 0,
        digits_value(ascii_bytes(decimal(n))) == n,
    decreases n,
{
    lemma_digit_byte(n % 10);
    if n < 10 {
        assert(ascii_bytes(decimal(n)) =~= seq![(48 + n) as u8]);
        assert(seq![(48 + n) as u8].drop_last() =~= Seq::<u8>::empty());
        assert(digits_value(Seq::<u8>::empty()) == 0);
        assert(digits_value(seq![(48 + n) as u8]) == 0 * 10 + n);
    } else {
        lemma_decimal_value(n / 10);
        let prev = ascii_bytes(decimal(n / 10));
        let b = ascii_bytes(decimal(n));
        assert(b =~= prev.push((48 + n % 10) as u8));
        assert(b.drop_last() =~= prev);
        assert(b.last() == (48 + n % 10) as u8);
        assert(n == (n / 10) * 10 + n % 10) by {
            vstd::arithmetic::div_mod::lemma_fundamental_div_mod(n as int, 10);
        }
        assert(digits_value(b) == digits_value(prev) * 10 + (n % 10));
        assert(all_digits(b)) by {
            assert forall|i: int| 0 <= i < b.len() implies 48 <= #[trigger] b[i] <= 57 by {
                if i < prev.len() {
                    assert(b[i] == prev[i]);
                }
            }
        }
    }
}

/// Leading zeros add nothing to the value of digits `d`.
proof fn lemma_leading_zeros(k: nat, d: Seq<u8>)
    ensures
        digits_value(Seq::new(k, |i: int| 48u8) + d) == digits_value(d),
    decreases d.len(), k,
{
    let z = Seq::new(k, |i: int| 48u8);
    if d.len() == 0 {
        assert(z + d =~= z);
        if k > 0 {
            assert(z.drop_last() =~= Seq::new((k - 1) as nat, |i: int| 48u8));
            lemma_leading_zeros((k - 1) as nat, d);
            assert(Seq::new((k - 1) as nat, |i: int| 48u8) + d =~= Seq::new((k - 1) as nat, |i: int| 48u8));
        }
    } else {
        assert((z + d).drop_last() =~= z + d.drop_last());
        lemma_leading_zeros(k, d.drop_last());
    }
}

/// A segment file name, as `format` writes it, reads back as its offset with
/// `parse_offset`.
pub proof fn lemma_parse_reads_format(offset: u64)
    ensures
        u64_text_value(ascii_bytes(zero_padded(decimal(offset as nat), 20))) == Some(offset),
{
    lemma_u64_decimal_len(offset);
    lemma_decimal_value(offset as nat);
    let d = decimal(offset as nat);
    let k = (20 - d.len()) as nat;
    let db = ascii_bytes(d);
    let bytes = ascii_bytes(zero_padded(d, 20));
    assert(bytes =~= Seq::new(k, |i: int| 48u8) + db);
    lemma_leading_zeros(k, db);
    assert(bytes[0] != 43) by {
        if k > 0 {
            assert(bytes[0] == 48u8);
        } else {
            assert(bytes[0] == db[0]);
        }
    }
    assert(all_digits(bytes)) by {
        assert forall|i: int| 0 <= i < bytes.len() implies 48 <= #[trigger] bytes[i] <= 57 by {
            if i >= k {
                assert(bytes[i] == db[i - k]);
            }
        }
    }
}

} // verus!
