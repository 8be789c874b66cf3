use measurement_program::serial::csv1_record;
use measurement_program::serial::csv2_record;
use measurement_program::serial::queue_bytes;
use measurement_program::serial::send_str;
use measurement_program::serial::send_str_line;
use measurement_program::serial::uart_baud_divisor;
use measurement_program::RingBufferIndex8bit;

#[test]
fn send_str_queues_bytes_in_order() {
    let mut q = RingBufferIndex8bit::<u8, 256>::new(256);
    send_str(&mut q, "csv-1,");
    send_str_line(&mut q, "50.0,102.3");
    let mut drained: Vec<u8> = Vec::new();
    while !q.is_empty() {
        drained.push(q.dequeue());
    }
    assert_eq!(drained, b"csv-1,50.0,102.3\n".to_vec());
}

#[test]
fn queue_bytes_appends_behind_existing() {
    let mut q = RingBufferIndex8bit::<u8, 16>::new(16);
    queue_bytes(&mut q, b"ab");
    assert_eq!(q.dequeue(), b'a');
    queue_bytes(&mut q, b"cd");
    assert_eq!(q.dequeue(), b'b');
    assert_eq!(q.dequeue(), b'c');
    assert_eq!(q.dequeue(), b'd');
    assert!(q.is_empty());
}

#[test]
fn csv2_record_exact_bytes() {
    assert_eq!(csv2_record(12, 734), b"csv-2,12,734\n".to_vec());
    assert_eq!(csv2_record(0, 0), b"csv-2,0,0\n".to_vec());
    assert_eq!(csv2_record(512, 1023), b"csv-2,512,1023\n".to_vec());
}

#[test]
fn csv1_record_exact_bytes() {
    assert_eq!(
        csv1_record(b"50.0123", b"102.345"),
        b"csv-1,50.0123,102.345\n".to_vec()
    );
    assert_eq!(csv1_record(b"0.0000", b"0.000"), b"csv-1,0.0000,0.000\n".to_vec());
}

#[test]
fn uart_divisor_for_the_stock_clock_and_baud() {
    // 20 MHz core clock at 19200 baud: 20000000 / 19200 / 16 - 1.
    assert_eq!(uart_baud_divisor(20_000_000, 19200), 64);
    // 16 MHz at 9600 baud, the other common setting.
    assert_eq!(uart_baud_divisor(16_000_000, 9600), 103);
}
