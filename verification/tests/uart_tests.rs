use rvkernel::uart::print_integer;
use rvkernel::uart::print_integerln;
use rvkernel::uart::print_string;
use rvkernel::uart::ReadRing;
use rvkernel::uart::WriteRing;

#[test]
fn read_delivers_one_line_with_a_nul() {
    let mut rx = ReadRing::new();
    let echo = rx.uart_irq_handler(b"hello\n");
    assert_eq!(echo, b"hello\n".to_vec());
    let line = rx.uart_read(128).unwrap();
    assert_eq!(line.len(), 6);
    assert_eq!(&line[0..5], b"hello");
    assert_eq!(line[5], 0);
    assert_eq!(rx.uart_read(128), None);
}

#[test]
fn read_without_a_complete_line_returns_nothing() {
    let mut rx = ReadRing::new();
    rx.uart_irq_handler(b"partial");
    assert_eq!(rx.uart_read(128), None);
    rx.uart_irq_handler(b"\n");
    let line = rx.uart_read(128).unwrap();
    assert_eq!(&line[0..7], b"partial");
    assert_eq!(line[7], 0);
}

#[test]
fn read_with_zero_capacity_returns_nothing() {
    let mut rx = ReadRing::new();
    rx.uart_irq_handler(b"x\n");
    assert_eq!(rx.uart_read(0), None);
}

#[test]
fn read_truncates_a_long_line_to_the_capacity() {
    let mut rx = ReadRing::new();
    rx.uart_irq_handler(b"abcdef\n");
    let line = rx.uart_read(4).unwrap();
    assert_eq!(line, vec![97u8, 98, 99, 0]);
    // The rest of the line, newline included, was consumed.
    assert_eq!(rx.uart_read(4), None);
}

#[test]
fn read_into_a_one_byte_buffer_still_consumes_the_line() {
    let mut rx = ReadRing::new();
    rx.uart_irq_handler(b"abc\n");
    assert_eq!(rx.uart_read(1).unwrap(), vec![0u8]);
    assert_eq!(rx.uart_read(1), None);
}

#[test]
fn carriage_return_counts_as_a_line_end() {
    let mut rx = ReadRing::new();
    let echo = rx.uart_irq_handler(b"ok\r");
    assert_eq!(echo, b"ok\n".to_vec());
    let line = rx.uart_read(16).unwrap();
    assert_eq!(line, vec![111u8, 107, 0]);
}

#[test]
fn two_lines_are_delivered_one_read_at_a_time() {
    let mut rx = ReadRing::new();
    rx.uart_irq_handler(b"a\nb\n");
    assert_eq!(rx.uart_read(16).unwrap(), vec![97u8, 0]);
    assert_eq!(rx.uart_read(16).unwrap(), vec![98u8, 0]);
    assert_eq!(rx.uart_read(16), None);
}

#[test]
fn receiver_overflow_drops_the_excess() {
    let mut rx = ReadRing::new();
    let mut input = vec![97u8; 300];
    input[254] = 10;
    let echo = rx.uart_irq_handler(&input);
    // The ring keeps 255 bytes; the echo shows exactly what was stored.
    assert_eq!(echo.len(), 255);
    let line = rx.uart_read(300).unwrap();
    assert_eq!(line.len(), 255);
    assert_eq!(line[254], 0);
}

#[test]
fn writer_buffers_and_flushes_in_order() {
    let mut tx = WriteRing::new();
    tx.uart_write(b"hello ");
    tx.uart_write(b"world");
    let out = tx.uart_write_buffer_flush();
    assert_eq!(out, b"hello world".to_vec());
    assert_eq!(tx.uart_write_buffer_flush(), Vec::<u8>::new());
}

#[test]
fn writer_overflow_keeps_the_first_bytes_uncorrupted() {
    let mut tx = WriteRing::new();
    let mut data = Vec::new();
    for i in 0..1024u32 {
        data.push((i % 251) as u8);
    }
    tx.uart_write(&data);
    let out = tx.uart_write_buffer_flush();
    // The first 255 bytes land in the ring; the remainder is dropped.
    assert_eq!(out.len(), 255);
    assert_eq!(&out[..], &data[0..255]);
    // Dropping the excess did not corrupt later writes either.
    tx.uart_write(b"after");
    assert_eq!(tx.uart_write_buffer_flush(), b"after".to_vec());
}

#[test]
fn print_helpers_append_bytes() {
    let mut out = Vec::new();
    print_string(&mut out, b"tick=");
    print_integer(&mut out, 42);
    print_integerln(&mut out, 7);
    assert_eq!(out, b"tick=427\n".to_vec());
}
