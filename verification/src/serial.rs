//! Assembly of the serial telemetry records, and the USART clock divisor.
//!
//! The link carries line-terminated ASCII: a startup header, one `csv-1`
//! record per second with the measured frequency and RMS voltage, and one
//! `csv-2` record per captured waveform sample, streamed once per outer
//! window. The records are built here as byte sequences; handing the bytes
//! to the transmit hardware stays with the caller.

use vstd::prelude::*;
use vstd::string::StringSliceAdditionalSpecFns;
use crate::format::dec_digits;
use crate::format::push_u32_decimal;
use crate::ring::RingBufferIndex8bit;

verus! {

/// The bytes of `"csv-1,"`.
pub open spec fn csv1_prefix() -> Seq<u8> {
    seq![0x63u8, 0x73u8, 0x76u8, 0x2du8, 0x31u8, 0x2cu8]
}

/// The bytes of `"csv-2,"`.
pub open spec fn csv2_prefix() -> Seq<u8> {
    seq![0x63u8, 0x73u8, 0x76u8, 0x2du8, 0x32u8, 0x2cu8]
}

/// A per-second record: `"csv-1,<frequency>,<rms>\n"`, with the two numbers
/// already formatted by the caller (they are fixed-point decimal text of
/// floating-point results).
pub open spec fn csv1_record_bytes(freq_text: Seq<u8>, rms_text: Seq<u8>) -> Seq<u8> {
    csv1_prefix() + freq_text + seq![0x2cu8] + rms_text + seq![0x0au8]
}

/// A waveform record: `"csv-2,<remaining-count>,<raw-sample>\n"`.
pub open spec fn csv2_record_bytes(remaining: nat, sample: nat) -> Seq<u8> {
    csv2_prefix() + dec_digits(remaining) + seq![0x2cu8] + dec_digits(sample) + seq![0x0au8]
}

/// Appends every byte of `text` to `out`.
fn push_bytes(out: &mut Vec<u8>, text: &[u8])
    ensures
        final(out)@ == old(out)@ + text@,
{
    let count: usize = text.len();
    let mut i: usize = 0;
    while i < count
        invariant
            i <= count,
            count == text@.len(),
            out@ == old(out)@ + text@.take(i as int),
        decreases count - i,
    {
        let b: u8 = *vstd::slice::slice_index_get(text, i);
        out.push(b);
        i = i + 1;
        proof {
            assert(out@ =~= old(out)@ + text@.take(i as int));
        }
    }
    proof {
        assert(text@.take(count as int) =~= text@);
    }
}

/// Builds one `csv-1` record from the formatted frequency and RMS text.
pub fn csv1_record(freq_text: &[u8], rms_text: &[u8]) -> (out: Vec<u8>)
    ensures
        out@ == csv1_record_bytes(freq_text@, rms_text@),
{
    let mut out: Vec<u8> = Vec::new();
    out.push(0x63);
    out.push(0x73);
    out.push(0x76);
    out.push(0x2d);
    out.push(0x31);
    out.push(0x2c);
    push_bytes(&mut out, freq_text);
    out.push(0x2c);
    push_bytes(&mut out, rms_text);
    out.push(0x0a);
    proof {
        assert(out@ =~= csv1_record_bytes(freq_text@, rms_text@));
    }
    out
}

/// Builds one `csv-2` record from the count of samples still queued and the
/// raw sample value itself.
pub fn csv2_record(remaining: u32, sample: u16) -> (out: Vec<u8>)
    ensures
        out@ == csv2_record_bytes(remaining as nat, sample as nat),
{
    let mut out: Vec<u8> = Vec::new();
    out.push(0x63);
    out.push(0x73);
    out.push(0x76);
    out.push(0x2d);
    out.push(0x32);
    out.push(0x2c);
    push_u32_decimal(&mut out, remaining);
    out.push(0x2c);
    push_u32_decimal(&mut out, sample as u32);
    out.push(0x0a);
    proof {
        assert(out@ =~= csv2_record_bytes(remaining as nat, sample as nat));
    }
    out
}

/// Queues every byte of `text` on the serial transmit buffer, in order.
/// The room precondition is the producer side of the transmit protocol: the
/// hardware-side caller waits (the transmit interrupt drains one byte per
/// fire) until the queue has the space, then queues.
pub fn queue_bytes<const N: usize>(queue: &mut RingBufferIndex8bit<u8, N>, text: &[u8])
    requires
        old(queue).wf(),
        old(queue)@.len() + text@.len() <= N - 1,
    ensures
        final(queue).wf(),
        final(queue)@ == old(queue)@ + text@,
{
    let count: usize = text.len();
    let mut i: usize = 0;
    while i < count
        invariant
            i <= count,
            count == text@.len(),
            queue.wf(),
            queue@ == old(queue)@ + text@.take(i as int),
            old(queue)@.len() + count <= N - 1,
        decreases count - i,
    {
        let b: u8 = *vstd::slice::slice_index_get(text, i);
        queue.enqueue(b);
        i = i + 1;
        proof {
            assert(queue@ =~= old(queue)@ + text@.take(i as int));
        }
    }
    proof {
        assert(text@.take(count as int) =~= text@);
    }
}

/// Queues a string's bytes for transmission, given room: the data half of
/// the firmware send path, leaving only the wait-for-room and the
/// transmit-interrupt enable at the hardware edge.
pub fn send_str<const N: usize>(queue: &mut RingBufferIndex8bit<u8, N>, s: &str)
    requires
        old(queue).wf(),
        old(queue)@.len() + s.spec_bytes().len() <= N - 1,
    ensures
        final(queue).wf(),
        final(queue)@ == old(queue)@ + s.spec_bytes(),
{
    queue_bytes(queue, s.as_bytes());
}

/// Queues a string's bytes and the line terminator behind them, given room.
pub fn send_str_line<const N: usize>(queue: &mut RingBufferIndex8bit<u8, N>, s: &str)
    requires
        old(queue).wf(),
        old(queue)@.len() + s.spec_bytes().len() + 1 <= N - 1,
    ensures
        final(queue).wf(),
        final(queue)@ == old(queue)@ + s.spec_bytes() + seq![0x0au8],
{
    send_str(queue, s);
    queue.enqueue(0x0a);
    proof {
        assert(queue@ =~= old(queue)@ + s.spec_bytes() + seq![0x0au8]);
    }
}

/// USART baud-rate divisor for normal asynchronous mode, as the hardware
/// register takes it: `f_cpu / (16 * baud) - 1`. The preconditions keep the
/// divisor in the register's range.
pub fn uart_baud_divisor(f_cpu: u32, baud: u32) -> (r: u16)
    requires
        baud > 0,
        f_cpu as int / baud as int / 16 >= 1,
        f_cpu as int / baud as int / 16 - 1 <= u16::MAX,
    ensures
        r as int == f_cpu as int / baud as int / 16 - 1,
{
    (f_cpu / baud / 16 - 1) as u16
}

} // verus!
