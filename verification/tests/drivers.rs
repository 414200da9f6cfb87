use zephyrlite::drivers::ata::{
    busy, lba28_registers, put_sector_word, read_ready, sector_word, word_wanted, write_ok, StorageAction,
    StorageServer,
};
use zephyrlite::drivers::nic::{
    capr_value, irq_has_rx, rx_frame_len, rx_next_offset, tx_frame_ok, NicAction, NicServer, NIC_OP_GET_MAC,
    NIC_OP_RECV, NIC_OP_SEND, NIC_OP_SET_BUFFER, NIC_OP_SET_REPLY, NIC_OP_TRY_RECV,
};
use zephyrlite::ipc::{
    Message, RecvResult, STORAGE_OP_READ_BLOCK, STORAGE_OP_SET_BUFFER, STORAGE_OP_SET_REPLY, STORAGE_OP_WRITE_BLOCK,
};

#[test]
fn lba28_register_values() {
    assert_eq!(lba28_registers(0), (0xE0, 0, 0, 0));
    assert_eq!(lba28_registers(0x0123_4567), (0xE1, 0x67, 0x45, 0x23));
    // Bits above 27 are dropped.
    assert_eq!(lba28_registers(0xFFFF_FFFF), (0xEF, 0xFF, 0xFF, 0xFF));
}

#[test]
fn ata_status_decisions() {
    assert!(busy(0x80));
    assert!(!busy(0x58));
    assert!(read_ready(0x58));
    assert!(!read_ready(0x59));
    assert!(!read_ready(0x50));
    assert!(write_ok(0x50));
    assert!(!write_ok(0x51));
    assert!(!write_ok(0x70));
    assert!(word_wanted(0x08));
    assert!(!word_wanted(0x88));
    assert!(!word_wanted(0x00));
}

#[test]
fn sector_words_are_little_endian() {
    let mut buf = [0u8; 512];
    buf[10] = 0x34;
    buf[11] = 0x12;
    assert_eq!(sector_word(&buf, 5), 0x1234);
    put_sector_word(&mut buf, 255, 0xBEEF);
    assert_eq!((buf[510], buf[511]), (0xEF, 0xBE));
    assert_eq!(buf[509], 0);
}

#[test]
fn rx_ring_entries() {
    assert!(irq_has_rx(0x0005));
    assert!(!irq_has_rx(0x0004));
    assert_eq!(rx_frame_len(0x0001, 64), Some(60));
    assert_eq!(rx_frame_len(0x0001, 1522), Some(1518));
    assert_eq!(rx_frame_len(0x0001, 1523), None);
    assert_eq!(rx_frame_len(0x0001, 3), None);
    assert_eq!(rx_frame_len(0x0000, 64), None);
    // Header plus length, rounded up to 4.
    assert_eq!(rx_next_offset(0, 64), 68);
    assert_eq!(rx_next_offset(0, 61), 68);
    assert_eq!(rx_next_offset(8100, 100), 8204 - 8192);
    assert_eq!(rx_next_offset(8188, 0), 8192);
    assert_eq!(capr_value(100), 84);
    assert_eq!(capr_value(0), 0xFFF0);
    assert!(tx_frame_ok(60));
    assert!(tx_frame_ok(1518));
    assert!(!tx_frame_ok(0));
    assert!(!tx_frame_ok(1519));
}

fn req(w0: u32, w1: u32, slot: u32) -> RecvResult {
    RecvResult { sender: 7, w0, w1, w2: 0, transferred_slot: slot }
}

fn m(dest_slot: u32, w0: u32, w1: u32) -> Message {
    Message { dest_slot, w0, w1, w2: 0, transfer_slot: 0 }
}

const MAC: [u8; 6] = [0x52, 0x54, 0x00, 0x12, 0x34, 0x56];

#[test]
fn nic_server_requests() {
    let mut s = NicServer::new();
    // Nothing is answered before a reply slot is set.
    assert_eq!(s.handle(&req(NIC_OP_GET_MAC, 0, 0), false, &MAC), NicAction::Idle);
    assert_eq!(s.handle(&req(NIC_OP_SEND, 60, 0), false, &MAC), NicAction::Idle);
    assert_eq!(s.handle(&req(NIC_OP_SET_REPLY, 0, 9), false, &MAC), NicAction::Idle);
    assert_eq!(s.client_reply, 9);
    assert_eq!(s.handle(&req(NIC_OP_GET_MAC, 0, 0), false, &MAC), NicAction::Reply(m(9, 0x1200_5452, 0x5634)));
    // Without a buffer, transfers are refused with 0.
    assert_eq!(s.handle(&req(NIC_OP_SEND, 60, 0), false, &MAC), NicAction::Reply(m(9, 0, 0)));
    assert_eq!(s.handle(&req(NIC_OP_RECV, 0, 0), false, &MAC), NicAction::Reply(m(9, 0, 0)));
    assert!(NicServer::needs_mapping(&req(NIC_OP_SET_BUFFER, 0, 4)));
    assert!(!NicServer::needs_mapping(&req(NIC_OP_SET_BUFFER, 0, 0)));
    s.handle(&req(NIC_OP_SET_BUFFER, 0, 4), false, &MAC);
    assert!(!s.client_buf_mapped);
    s.handle(&req(NIC_OP_SET_BUFFER, 0, 4), true, &MAC);
    assert!(s.client_buf_mapped);
    assert_eq!(s.handle(&req(NIC_OP_SEND, 60, 0), false, &MAC), NicAction::Transmit(60));
    assert_eq!(s.handle(&req(NIC_OP_SEND, 9000, 0), false, &MAC), NicAction::Transmit(1518));
    assert_eq!(s.tx_reply(true), m(9, 1, 0));
    assert_eq!(s.tx_reply(false), m(9, 0, 0));
    let irq = RecvResult { sender: 0, w0: 0, w1: 0, w2: 0, transferred_slot: 0 };
    assert_eq!(s.handle(&irq, false, &MAC), NicAction::ServiceInterrupt);
}

#[test]
fn nic_frames_are_delivered_once() {
    let mut s = NicServer::new();
    s.handle(&req(NIC_OP_SET_REPLY, 0, 9), false, &MAC);
    s.handle(&req(NIC_OP_SET_BUFFER, 0, 4), true, &MAC);
    // Non-blocking receive with nothing held: 0.
    assert_eq!(s.handle(&req(NIC_OP_TRY_RECV, 0, 0), false, &MAC), NicAction::Reply(m(9, 0, 0)));
    // A held frame goes to the next receive, then is gone.
    assert_eq!(s.on_frame(60), NicAction::Idle);
    assert_eq!(s.handle(&req(NIC_OP_TRY_RECV, 0, 0), false, &MAC), NicAction::Deliver(60, m(9, 60, 0)));
    assert_eq!(s.handle(&req(NIC_OP_TRY_RECV, 0, 0), false, &MAC), NicAction::Reply(m(9, 0, 0)));
    // A blocking receive waits, and the next frame goes straight out.
    assert_eq!(s.handle(&req(NIC_OP_RECV, 0, 0), false, &MAC), NicAction::Idle);
    assert!(s.recv_armed);
    assert_eq!(s.on_frame(42), NicAction::Deliver(42, m(9, 42, 0)));
    assert!(!s.recv_armed);
    assert_eq!(s.last_rx_len, 0);
    // A newer frame replaces one not yet taken.
    s.on_frame(10);
    s.on_frame(20);
    assert_eq!(s.handle(&req(NIC_OP_RECV, 0, 0), false, &MAC), NicAction::Deliver(20, m(9, 20, 0)));
}

#[test]
fn storage_server_requests() {
    let mut s = StorageServer::new();
    assert!(!s.buf_mapped);
    assert_eq!(s.reply_slot, 0);
    // Transfers are ignored until a reply slot is set.
    assert_eq!(s.handle(&req(STORAGE_OP_READ_BLOCK, 5, 0), false), StorageAction::Idle);
    assert_eq!(s.handle(&req(STORAGE_OP_SET_REPLY, 0, 0), false), StorageAction::Idle);
    assert_eq!(s.reply_slot, 0);
    assert_eq!(s.handle(&req(STORAGE_OP_SET_REPLY, 0, 7), false), StorageAction::Idle);
    assert_eq!(s.reply_slot, 7);
    // ... and refused with 0 until a buffer is mapped.
    assert_eq!(s.handle(&req(STORAGE_OP_READ_BLOCK, 5, 0), false), StorageAction::Reply(m(7, 0, 0)));
    assert_eq!(s.handle(&req(STORAGE_OP_WRITE_BLOCK, 5, 0), false), StorageAction::Reply(m(7, 0, 0)));
    assert!(StorageServer::needs_mapping(&req(STORAGE_OP_SET_BUFFER, 0, 3)));
    assert!(!StorageServer::needs_mapping(&req(STORAGE_OP_SET_BUFFER, 0, 0)));
    assert!(!StorageServer::needs_mapping(&req(STORAGE_OP_SET_REPLY, 0, 3)));
    s.handle(&req(STORAGE_OP_SET_BUFFER, 0, 3), false);
    assert!(!s.buf_mapped);
    s.handle(&req(STORAGE_OP_SET_BUFFER, 0, 3), true);
    assert!(s.buf_mapped);
    assert_eq!(s.handle(&req(STORAGE_OP_READ_BLOCK, 5, 0), false), StorageAction::Read(5));
    assert_eq!(s.handle(&req(STORAGE_OP_WRITE_BLOCK, 9, 0), false), StorageAction::Write(9));
    assert_eq!(s.handle(&req(99, 9, 0), false), StorageAction::Idle);
    assert_eq!(s.io_reply(true), m(7, 1, 0));
    assert_eq!(s.io_reply(false), m(7, 0, 0));
}
