use spi_flash::opcode::{
    ARRAY_READ, ARRAY_READ_LOW_FREQ, BLOCK_ERASE_32K, BLOCK_ERASE_4K, BLOCK_ERASE_64K,
    BYTE_PAGE_PROGRAM, CHIP_ERASE, ID_READ, SLEEP, STATUS_READ, STATUS_WRITE, UNIQUE_ID_READ, WAKE,
    WRITE_ENABLE,
};
use spi_flash::{Direction, Exchange, FlashError, RecordingTransport, SPIFlash, TransportError};

fn sent(tx: &[u8]) -> Exchange {
    Exchange { dir: Direction::Send, tx: tx.to_vec(), rx: vec![], outcome: Ok(()) }
}

fn exchanged(tx: &[u8], rx: &[u8]) -> Exchange {
    Exchange { dir: Direction::SendRead, tx: tx.to_vec(), rx: rx.to_vec(), outcome: Ok(()) }
}

fn status(s: u8) -> Exchange {
    exchanged(&[STATUS_READ], &[s])
}

fn flash_with(replies: Vec<u8>) -> SPIFlash<RecordingTransport> {
    SPIFlash::new(RecordingTransport::new(replies, 0x00), 0xEF30)
}

fn log(flash: &SPIFlash<RecordingTransport>) -> &Vec<Exchange> {
    flash.transport.exchanges()
}

#[test]
fn it_works() {
    assert_eq!(2 + 2, 4);
}

#[test]
fn opcode_table_matches_command_set() {
    assert_eq!(STATUS_READ, 0x05);
    assert_eq!(STATUS_WRITE, 0x01);
    assert_eq!(WRITE_ENABLE, 0x06);
    assert_eq!(BLOCK_ERASE_4K, 0x20);
    assert_eq!(BLOCK_ERASE_32K, 0x52);
    assert_eq!(BLOCK_ERASE_64K, 0xD8);
    assert_eq!(CHIP_ERASE, 0x60);
    assert_eq!(BYTE_PAGE_PROGRAM, 0x02);
    assert_eq!(ARRAY_READ, 0x0B);
    assert_eq!(ARRAY_READ_LOW_FREQ, 0x03);
    assert_eq!(ID_READ, 0x9F);
    assert_eq!(UNIQUE_ID_READ, 0x4B);
    assert_eq!(SLEEP, 0xB9);
    assert_eq!(WAKE, 0xAB);
}

#[test]
fn new_makes_no_transaction() {
    let flash = flash_with(vec![]);
    assert!(log(&flash).is_empty());
    assert_eq!(flash.jedec_id, 0xEF30);
}

#[test]
fn erase_4k_after_two_busy_polls() {
    let mut flash = flash_with(vec![0x01, 0x01]);
    assert_eq!(flash.erase_4k_block(0x12345), Ok(()));
    let expected = vec![
        sent(&[0x06]),
        status(0x01),
        status(0x01),
        status(0x00),
        sent(&[0x20, 0x01, 0x20, 0x00]),
        status(0x00),
    ];
    assert_eq!(log(&flash), &expected);
}

#[test]
fn erase_4k_clears_low_twelve_bits() {
    let mut flash = flash_with(vec![]);
    assert_eq!(flash.erase_4k_block(0x00AB_CFFF), Ok(()));
    assert_eq!(log(&flash)[2], sent(&[0x20, 0xAB, 0xC0, 0x00]));
    let mut flash = flash_with(vec![]);
    assert_eq!(flash.erase_4k_block(0x0000_1000), Ok(()));
    assert_eq!(log(&flash)[2], sent(&[0x20, 0x00, 0x10, 0x00]));
}

#[test]
fn erase_32k_and_64k_align_and_wait() {
    let mut flash = flash_with(vec![]);
    assert_eq!(flash.erase_32k_block(0x0012_FFFF), Ok(()));
    let expected = vec![sent(&[0x06]), status(0x00), sent(&[0x52, 0x12, 0x80, 0x00]), status(0x00)];
    assert_eq!(log(&flash), &expected);

    let mut flash = flash_with(vec![]);
    assert_eq!(flash.erase_64k_block(0x0012_FFFF), Ok(()));
    let expected = vec![sent(&[0x06]), status(0x00), sent(&[0xD8, 0x12, 0x00, 0x00]), status(0x00)];
    assert_eq!(log(&flash), &expected);
}

#[test]
fn only_low_24_address_bits_are_sent() {
    let mut flash = flash_with(vec![0x42]);
    assert_eq!(flash.read_byte(0xFF12_3456), Ok(0x42));
    assert_eq!(log(&flash)[0], exchanged(&[0x03, 0x12, 0x34, 0x56], &[0x42]));
}

#[test]
fn chip_erase_waits_for_completion() {
    let mut flash = flash_with(vec![0x00, 0x03, 0x01]);
    assert_eq!(flash.chip_erase(), Ok(()));
    let expected = vec![
        sent(&[0x06]),
        status(0x00),
        sent(&[0x60]),
        status(0x03),
        status(0x01),
        status(0x00),
    ];
    assert_eq!(log(&flash), &expected);
}

#[test]
fn write_byte_enables_write_first_and_does_not_wait_after() {
    let mut flash = flash_with(vec![]);
    assert_eq!(flash.write_byte(0x0001_0203, 0x5A), Ok(()));
    let expected = vec![sent(&[0x06]), status(0x00), sent(&[0x02, 0x01, 0x02, 0x03, 0x5A])];
    assert_eq!(log(&flash), &expected);
}

#[test]
fn unlock_clears_status_register() {
    let mut flash = flash_with(vec![]);
    assert_eq!(flash.unlock(), Ok(()));
    let expected = vec![sent(&[0x06]), status(0x00), sent(&[0x01, 0x00])];
    assert_eq!(log(&flash), &expected);
}

#[test]
fn write_command_enables_write_first() {
    let mut flash = flash_with(vec![]);
    assert_eq!(flash.write_command(0x60), Ok(()));
    let expected = vec![sent(&[0x06]), status(0x00), sent(&[0x60])];
    assert_eq!(log(&flash), &expected);
}

#[test]
fn command_waits_until_ready_first() {
    let mut flash = flash_with(vec![0x01, 0x01]);
    assert_eq!(flash.command(0x04), Ok(()));
    let expected = vec![status(0x01), status(0x01), status(0x00), sent(&[0x04])];
    assert_eq!(log(&flash), &expected);
}

#[test]
fn command_treats_only_bit_zero_as_busy() {
    let mut flash = flash_with(vec![0xFE]);
    assert_eq!(flash.command(0x06), Ok(()));
    assert_eq!(log(&flash), &vec![status(0xFE), sent(&[0x06])]);
}

#[test]
fn command_wake_is_sent_at_once() {
    let mut flash = flash_with(vec![0x01]);
    assert_eq!(flash.command(WAKE), Ok(()));
    assert_eq!(log(&flash), &vec![sent(&[0xAB])]);
}

#[test]
fn sleep_and_wakeup_do_not_poll() {
    let mut flash = flash_with(vec![0x01, 0x01, 0x01]);
    assert_eq!(flash.sleep(), Ok(()));
    assert_eq!(flash.wakeup(), Ok(()));
    assert_eq!(log(&flash), &vec![sent(&[0xB9]), sent(&[0xAB])]);
}

#[test]
fn read_status_returns_byte_unchanged() {
    for pattern in [0x00u8, 0x01, 0x5A, 0xA5, 0xFE, 0xFF] {
        let mut flash = flash_with(vec![pattern]);
        assert_eq!(flash.read_status(), Ok(pattern));
        assert_eq!(log(&flash), &vec![status(pattern)]);
    }
}

#[test]
fn is_busy_reads_bit_zero_each_time() {
    let mut flash = flash_with(vec![0x01, 0xFE, 0x03]);
    assert_eq!(flash.is_busy(), Ok(true));
    assert_eq!(flash.is_busy(), Ok(false));
    assert_eq!(flash.is_busy(), Ok(true));
    assert_eq!(flash.is_busy(), Ok(false));
    assert_eq!(log(&flash), &vec![status(0x01), status(0xFE), status(0x03), status(0x00)]);
}

#[test]
fn wait_polls_busy_count_plus_one() {
    for n in [0usize, 1, 3, 10] {
        let mut flash = flash_with(vec![0x01; n]);
        assert_eq!(flash.wait(), Ok(()));
        let reads = log(&flash);
        assert_eq!(reads.len(), n + 1);
        assert!(reads.iter().all(|e| e.tx == vec![STATUS_READ] && e.dir == Direction::SendRead));
        assert_eq!(reads[n], status(0x00));
    }
}

#[test]
fn read_device_id_is_big_endian_and_kept() {
    let mut flash = SPIFlash::new(RecordingTransport::new(vec![0x1F, 0x44], 0x00), 0xEF30);
    assert_eq!(flash.read_device_id(), Ok(0x1F44));
    assert_eq!(flash.jedec_id, 0x1F44);
    assert_eq!(log(&flash), &vec![exchanged(&[0x9F], &[0x1F, 0x44])]);
}

#[test]
fn read_unique_id_skips_four_dummy_bytes() {
    let id = vec![1u8, 2, 3, 4, 5, 6, 7, 8];
    let mut flash = flash_with(id.clone());
    assert_eq!(flash.read_unique_id(), Ok([1, 2, 3, 4, 5, 6, 7, 8]));
    assert_eq!(log(&flash), &vec![exchanged(&[0x4B, 0, 0, 0, 0], &id)]);
}

#[test]
fn read_byte_uses_low_frequency_read() {
    let mut flash = flash_with(vec![0x99]);
    assert_eq!(flash.read_byte(0x0001_0203), Ok(0x99));
    assert_eq!(log(&flash), &vec![exchanged(&[0x03, 0x01, 0x02, 0x03], &[0x99])]);
}

#[test]
fn read_bytes_uses_fast_read_with_dummy_byte() {
    let mut flash = flash_with(vec![10, 20, 30, 40]);
    let mut buffer = [0u8; 4];
    assert_eq!(flash.read_bytes(0x00AB_CDEF, &mut buffer), Ok(()));
    assert_eq!(buffer, [10, 20, 30, 40]);
    assert_eq!(log(&flash), &vec![exchanged(&[0x0B, 0xAB, 0xCD, 0xEF, 0x00], &[10, 20, 30, 40])]);
}

#[test]
fn read_bytes_of_nothing() {
    let mut flash = flash_with(vec![]);
    let mut buffer: [u8; 0] = [];
    assert_eq!(flash.read_bytes(0, &mut buffer), Ok(()));
    assert_eq!(log(&flash), &vec![exchanged(&[0x0B, 0, 0, 0, 0], &[])]);
}

#[test]
fn read_fault_is_reported_not_hidden() {
    let transport = RecordingTransport::with_fault(vec![1, 2, 3], 0x00, 0, TransportError::Receive);
    let mut flash = SPIFlash::new(transport, 0);
    let mut buffer = [0u8; 3];
    assert_eq!(
        flash.read_bytes(0x10, &mut buffer),
        Err(FlashError::Transport(TransportError::Receive))
    );
    let transport = RecordingTransport::with_fault(vec![0x00], 0x00, 0, TransportError::RxBufferTooLong);
    let mut flash = SPIFlash::new(transport, 0);
    assert_eq!(flash.read_status(), Err(FlashError::Transport(TransportError::RxBufferTooLong)));
}

#[test]
fn write_enable_fault_stops_the_erase() {
    let transport = RecordingTransport::with_fault(vec![], 0x00, 0, TransportError::Transmit);
    let mut flash = SPIFlash::new(transport, 0);
    assert_eq!(flash.erase_4k_block(0x1000), Err(FlashError::Transport(TransportError::Transmit)));
    let records = log(&flash);
    assert_eq!(records.len(), 1);
    assert_eq!(records[0].tx, vec![0x06]);
    assert_eq!(records[0].outcome, Err(TransportError::Transmit));
}

#[test]
fn poll_fault_stops_the_write() {
    let transport = RecordingTransport::with_fault(vec![0x01], 0x00, 2, TransportError::TxBufferTooLong);
    let mut flash = SPIFlash::new(transport, 0);
    assert_eq!(
        flash.write_byte(0, 0xAA),
        Err(FlashError::Transport(TransportError::TxBufferTooLong))
    );
    let records = log(&flash);
    assert_eq!(records.len(), 3);
    assert_eq!(records[1], status(0x01));
    assert_eq!(records[2].tx, vec![STATUS_READ]);
    assert_eq!(records[2].outcome, Err(TransportError::TxBufferTooLong));
}

#[test]
fn program_fault_is_returned() {
    let transport = RecordingTransport::with_fault(vec![], 0x00, 2, TransportError::Transmit);
    let mut flash = SPIFlash::new(transport, 0);
    assert_eq!(flash.write_byte(5, 0xAA), Err(FlashError::Transport(TransportError::Transmit)));
    assert_eq!(log(&flash).len(), 3);
}

#[test]
fn device_id_fault_keeps_expected_id() {
    let transport = RecordingTransport::with_fault(vec![0x12, 0x34], 0x00, 0, TransportError::Receive);
    let mut flash = SPIFlash::new(transport, 0xEF30);
    assert_eq!(flash.read_device_id(), Err(FlashError::Transport(TransportError::Receive)));
    assert_eq!(flash.jedec_id, 0xEF30);
}
