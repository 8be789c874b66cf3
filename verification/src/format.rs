//! Decimal text formatting into fixed-size byte buffers, and the
//! nul-terminated-bytes-to-text view used when a formatted buffer is read
//! back as a string.
//!
//! The telemetry output is best-effort ASCII text, so the formatters are
//! pure functions over a caller-supplied buffer with explicit failure modes
//! (a buffer too small, a missing terminator, bytes that are not text)
//! instead of silent truncation.

use vstd::prelude::*;
use vstd::slice::slice_index_get;
use vstd::slice::slice_subrange;
use vstd::utf8::decode_utf8;
use vstd::utf8::valid_utf8;

verus! {

/// Failure modes of the buffer formatters.
#[derive(Clone, Copy, Debug, PartialEq, Eq, Structural)]
pub enum FormatError {
    /// The caller's buffer cannot hold the text and its terminating nul.
    BufferTooSmall,
}

/// Decimal ASCII digits of `n`, most significant first, no sign and no
/// leading zeros (a single `'0'` for zero).
pub open spec fn dec_digits(n: nat) -> Seq<u8>
    decreases n,
{
    if n < 10 {
        seq![(0x30 + n) as u8]
    } else {
        dec_digits(n / 10).push((0x30 + n % 10) as u8)
    }
}

/// Decimal ASCII text of a signed value: a `'-'` before the digits of the
/// magnitude when negative.
pub open spec fn dec_digits_signed(v: int) -> Seq<u8> {
    if v < 0 {
        seq![0x2du8] + dec_digits((-v) as nat)
    } else {
        dec_digits(v as nat)
    }
}

/// A run of `n` zero bytes.
pub open spec fn zero_bytes(n: int) -> Seq<u8> {
    Seq::new(n as nat, |i: int| 0u8)
}

/// Appends the decimal digits of `value` to `out`.
pub fn push_u32_decimal(out: &mut Vec<u8>, value: u32)
    ensures
        final(out)@ == old(out)@ + dec_digits(value as nat),
{
    let mut rev: Vec<u8> = Vec::new();
    let mut n: u32 = value;
    let mut done: bool = false;
    while !done
        invariant
            !done ==> ((n == value && rev@.len() == 0) || (n > 0 && dec_digits(value as nat)
                == dec_digits(n as nat) + rev@.reverse())),
            done ==> dec_digits(value as nat) == rev@.reverse(),
        decreases n, (if done {
            0int
        } else {
            1int
        }),
    {
        let ghost old_n: nat = n as nat;
        let ghost old_rev = rev@;
        let digit: u8 = (n % 10) as u8 + 0x30;
        rev.push(digit);
        n = n / 10;
        if n == 0 {
            done = true;
        }
        proof {
            assert(rev@.reverse() =~= seq![digit] + old_rev.reverse());
            assert(dec_digits(value as nat) == dec_digits(old_n) + old_rev.reverse()) by {
                if old_rev.len() == 0 {
                    assert(old_rev.reverse() =~= Seq::<u8>::empty());
                    assert(dec_digits(old_n) + old_rev.reverse() =~= dec_digits(old_n));
                }
            }
            if old_n < 10 {
                assert(dec_digits(old_n) == seq![digit]);
                assert(dec_digits(value as nat) == rev@.reverse());
            } else {
                assert(dec_digits(old_n) == dec_digits(old_n / 10).push(
                    (0x30 + old_n % 10) as u8,
                ));
                assert(dec_digits(old_n) =~= dec_digits(old_n / 10) + seq![digit]);
                assert(dec_digits(value as nat) =~= dec_digits(n as nat) + rev@.reverse());
            }
        }
    }
    let ghost target = dec_digits(value as nat);
    let total: usize = rev.len();
    let mut i: usize = total;
    while i > 0
        invariant
            i <= total,
            total == rev@.len(),
            target == rev@.reverse(),
            out@ == old(out)@ + target.take((total - i) as int),
        decreases i,
    {
        let b: u8 = rev[i - 1];
        out.push(b);
        i = i - 1;
        proof {
            assert(target[(total - i - 1) as int] == b);
            assert(out@ =~= old(out)@ + target.take((total - i) as int));
        }
    }
    proof {
        assert(target.take(total as int) =~= target);
    }
}

/// Writes the decimal text of `value` into `buf`: the whole buffer is first
/// zeroed, then the digits go at the front with a terminating nul already
/// in place behind them. Returns the text length, or
/// [`FormatError::BufferTooSmall`] (leaving the buffer zeroed) exactly when
/// the digits and their nul do not fit.
pub fn u32_to_str(value: u32, buf: &mut Vec<u8>) -> (r: Result<usize, FormatError>)
    ensures
        final(buf)@.len() == old(buf)@.len(),
        r is Ok <==> old(buf)@.len() >= dec_digits(value as nat).len() + 1,
        r matches Ok(len) ==> len == dec_digits(value as nat).len() && final(buf)@ == dec_digits(
            value as nat,
        ) + zero_bytes(old(buf)@.len() - len),
        r is Err ==> final(buf)@ == zero_bytes(old(buf)@.len() as int),
{
    let cap: usize = buf.len();
    zero_fill(buf);
    let mut text: Vec<u8> = Vec::new();
    push_u32_decimal(&mut text, value);
    if cap <= text.len() {
        return Err(FormatError::BufferTooSmall);
    }
    copy_to_front(buf, &text);
    proof {
        assert(buf@ =~= dec_digits(value as nat) + zero_bytes(cap - text@.len()));
    }
    Ok(text.len())
}

/// Writes the decimal text of `value`, sign included, into `buf`, exactly
/// as [`u32_to_str`] does for the unsigned magnitude.
pub fn i32_to_str(value: i32, buf: &mut Vec<u8>) -> (r: Result<usize, FormatError>)
    ensures
        final(buf)@.len() == old(buf)@.len(),
        r is Ok <==> old(buf)@.len() >= dec_digits_signed(value as int).len() + 1,
        r matches Ok(len) ==> len == dec_digits_signed(value as int).len() && final(buf)@
            == dec_digits_signed(value as int) + zero_bytes(old(buf)@.len() - len),
        r is Err ==> final(buf)@ == zero_bytes(old(buf)@.len() as int),
{
    let cap: usize = buf.len();
    zero_fill(buf);
    let mut text: Vec<u8> = Vec::new();
    if value < 0 {
        text.push(0x2d);
    }
    let magnitude: u32 = if value >= 0 {
        value as u32
    } else {
        (-(value as i64)) as u32
    };
    push_u32_decimal(&mut text, magnitude);
    proof {
        if value < 0 {
            assert(text@ =~= dec_digits_signed(value as int));
        }
    }
    if cap <= text.len() {
        return Err(FormatError::BufferTooSmall);
    }
    copy_to_front(buf, &text);
    proof {
        assert(buf@ =~= dec_digits_signed(value as int) + zero_bytes(cap - text@.len()));
    }
    Ok(text.len())
}

/// Sets every byte of `buf` to zero.
fn zero_fill(buf: &mut Vec<u8>)
    ensures
        final(buf)@ == zero_bytes(old(buf)@.len() as int),
{
    let cap: usize = buf.len();
    let mut i: usize = 0;
    while i < cap
        invariant
            i <= cap,
            buf@.len() == cap,
            forall|k: int| 0 <= k < i ==> buf@[k] == 0u8,
        decreases cap - i,
    {
        buf.set(i, 0);
        i = i + 1;
    }
    proof {
        assert(buf@ =~= zero_bytes(cap as int));
    }
}

/// Copies `text` over the front of `buf`, which must be strictly longer, so
/// a terminating nul is guaranteed to follow the copied text.
fn copy_to_front(buf: &mut Vec<u8>, text: &Vec<u8>)
    requires
        text@.len() < old(buf)@.len(),
    ensures
        final(buf)@.len() == old(buf)@.len(),
        final(buf)@ == text@ + old(buf)@.subrange(text@.len() as int, old(buf)@.len() as int),
{
    let count: usize = text.len();
    let mut j: usize = 0;
    while j < count
        invariant
            j <= count,
            count == text@.len(),
            buf@.len() == old(buf)@.len(),
            count < buf@.len(),
            forall|k: int| 0 <= k < j ==> buf@[k] == text@[k],
            forall|k: int| j <= k < buf@.len() ==> buf@[k] == old(buf)@[k],
        decreases count - j,
    {
        let b: u8 = text[j];
        buf.set(j, b);
        j = j + 1;
    }
    proof {
        assert(buf@ =~= text@ + old(buf)@.subrange(text@.len() as int, old(buf)@.len() as int));
    }
}

/// `s` with the elements from position `i` through position `j` in reverse
/// order and everything else in place.
pub open spec fn reverse_range(s: Seq<u8>, i: int, j: int) -> Seq<u8> {
    Seq::new(
        s.len(),
        |k: int|
            if i <= k <= j {
                s[i + j - k]
            } else {
                s[k]
            },
    )
}

/// Reverses `buf` between positions `i` and `j` inclusive, in place; does
/// nothing when the range is empty.
pub fn reverse(buf: &mut Vec<u8>, i: u8, j: u8)
    requires
        i < j ==> (j as int) < old(buf)@.len(),
    ensures
        final(buf)@ == reverse_range(old(buf)@, i as int, j as int),
{
    let mut lo: usize = i as usize;
    let mut hi: usize = j as usize;
    while lo < hi
        invariant
            i < j ==> {
                &&& i <= lo
                &&& hi <= j
                &&& lo + hi == i + j
                &&& (j as int) < buf@.len()
            },
            !(i < j) ==> (lo == i && hi == j),
            buf@.len() == old(buf)@.len(),
            forall|k: int|
                0 <= k < buf@.len() && !(i <= k <= j) ==> buf@[k] == old(buf)@[k],
            forall|k: int| lo <= k <= hi ==> buf@[k] == old(buf)@[k],
            forall|k: int|
                i <= k <= j && !(lo <= k <= hi) ==> buf@[k] == old(buf)@[i + j - k],
        decreases hi + 1 - lo,
    {
        let a: u8 = buf[lo];
        let b: u8 = buf[hi];
        buf.set(lo, b);
        buf.set(hi, a);
        lo = lo + 1;
        hi = hi - 1;
    }
    proof {
        assert(buf@ =~= reverse_range(old(buf)@, i as int, j as int));
    }
}

/// Whether the bytes hold a nul terminator.
pub open spec fn has_nul(s: Seq<u8>) -> bool {
    exists|k: int| 0 <= k < s.len() && s[k] == 0
}

/// Position of the first nul byte.
pub open spec fn first_nul(s: Seq<u8>) -> int
    decreases s.len(),
{
    if s.len() == 0 {
        0
    } else if s[0] == 0 {
        0
    } else {
        1 + first_nul(s.drop_first())
    }
}

proof fn lemma_first_nul_at(s: Seq<u8>, i: int)
    requires
        0 <= i < s.len(),
        s[i] == 0,
        forall|k: int| 0 <= k < i ==> s[k] != 0,
    ensures
        first_nul(s) == i,
    decreases i,
{
    if i > 0 {
        let rest = s.drop_first();
        assert(forall|k: int| 0 <= k < i - 1 ==> rest[k] == s[k + 1] && rest[k] != 0);
        lemma_first_nul_at(rest, i - 1);
    }
}

/// Relies on `core::str::from_utf8`: `Ok` exactly on valid UTF-8, giving
/// the string those bytes decode to.
#[verifier::external_body]
fn str_from_utf8(bytes: &[u8]) -> (r: Result<&str, &'static str>)
    ensures
        r is Ok <==> valid_utf8(bytes@),
        r matches Ok(s) ==> s@ == decode_utf8(bytes@),
        r matches Err(e) ==> e@ == "Invalid UTF-8 sequence"@,
{
    match core::str::from_utf8(bytes) {
        Ok(s) => Ok(s),
        Err(_) => Err("Invalid UTF-8 sequence"),
    }
}

/// Text view of a formatted buffer: the bytes before the first nul
/// terminator, decoded as UTF-8. Fails when no nul is present, or when the
/// bytes before it are not valid UTF-8, each with its own message.
pub fn byte_array_to_str(bytes: &[u8]) -> (r: Result<&str, &'static str>)
    ensures
        r is Ok <==> (has_nul(bytes@) && valid_utf8(bytes@.subrange(0, first_nul(bytes@)))),
        r matches Ok(s) ==> s@ == decode_utf8(bytes@.subrange(0, first_nul(bytes@))),
        !has_nul(bytes@) ==> (r matches Err(e) && e@ == "No null terminator found"@),
        has_nul(bytes@) && !valid_utf8(bytes@.subrange(0, first_nul(bytes@))) ==> (r matches Err(e)
            && e@ == "Invalid UTF-8 sequence"@),
{
    let total: usize = bytes.len();
    let mut idx: usize = 0;
    let mut found: bool = false;
    while !found && idx < total
        invariant
            idx <= total,
            total == bytes@.len(),
            forall|k: int| 0 <= k < idx ==> bytes@[k] != 0,
            found ==> (idx < total && bytes@[idx as int] == 0),
        decreases total - idx + (if found {
            0int
        } else {
            1int
        }),
    {
        if *slice_index_get(bytes, idx) == 0 {
            found = true;
        } else {
            idx = idx + 1;
        }
    }
    if !found {
        return Err("No null terminator found");
    }
    proof {
        lemma_first_nul_at(bytes@, idx as int);
    }
    let prefix: &[u8] = slice_subrange(bytes, 0, idx);
    str_from_utf8(prefix)
}

} // verus!
