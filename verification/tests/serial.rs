use nucleo_rtos::serial_nb::{SerialNbGlobal, WriteError, SERIAL_BUF_SIZE};

fn drain(g: &mut SerialNbGlobal) -> Vec<u8> {
    let mut out = Vec::new();
    while let Some(b) = g.next_tx_byte() {
        out.push(b);
    }
    out
}

#[test]
fn bytes_go_out_in_the_order_written() {
    let mut g = SerialNbGlobal::new();
    assert_eq!(g.len(), 0);
    assert_eq!(g.next_tx_byte(), None);
    g.write_byte(b'>');
    assert_eq!(g.write_str("hi\r\n"), Ok(()));
    assert_eq!(g.write_bytes(&[0xff, 0]), Ok(()));
    assert_eq!(g.len(), 7);
    assert_eq!(drain(&mut g), vec![b'>', b'h', b'i', b'\r', b'\n', 0xff, 0]);
    assert_eq!(g.len(), 0);
    assert_eq!(g.next_tx_byte(), None);
}

#[test]
fn a_write_that_does_not_fit_keeps_what_fits() {
    let mut g = SerialNbGlobal::new();
    let first: Vec<u8> = (0..190u32).map(|i| i as u8).collect();
    assert_eq!(g.write_bytes(&first), Ok(()));
    assert!(!g.is_full());
    let second: Vec<u8> = (0..15u8).map(|i| 100 + i).collect();
    assert_eq!(g.write_bytes(&second), Err(WriteError));
    assert_eq!(g.len(), SERIAL_BUF_SIZE);
    assert!(g.is_full());
    let out = drain(&mut g);
    assert_eq!(&out[..190], &first[..]);
    assert_eq!(&out[190..], &second[..10]);
}

#[test]
fn a_full_buffer_refuses_everything_and_recovers_after_sending() {
    let mut g = SerialNbGlobal::new();
    let bytes = vec![7u8; SERIAL_BUF_SIZE];
    assert_eq!(g.write_bytes(&bytes), Ok(()));
    assert!(g.is_full());
    assert_eq!(g.write_str("x"), Err(WriteError));
    assert_eq!(g.write_bytes(&[]), Ok(()));
    assert_eq!(g.len(), SERIAL_BUF_SIZE);
    assert_eq!(g.next_tx_byte(), Some(7));
    assert!(!g.is_full());
    g.write_byte(9);
    assert!(g.is_full());
    let out = drain(&mut g);
    assert_eq!(out.len(), SERIAL_BUF_SIZE);
    assert_eq!(out[SERIAL_BUF_SIZE - 1], 9);
}
