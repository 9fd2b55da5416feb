use qdl::types::{
    FirehoseConfiguration, FirehoseResetMode, FirehoseStatus, FirehoseStorageType, NameError,
    NullChannel, QdlBackend, QdlChan, QdlDevice, QdlReadWrite,
};
use sha2::{Digest, Sha256};
use std::io::{BufRead, Read, Write};

fn device() -> QdlDevice<NullChannel> {
    QdlDevice {
        rw: Box::new(NullChannel),
        fh_cfg: FirehoseConfiguration::default(false),
        reset_on_drop: false,
        digests: vec![],
        vip_digest_table: vec![],
        vip_signed_mbn: vec![],
        send_counter: 0,
        vip_digest_offset: 0,
    }
}

#[test]
fn status_codes() {
    assert_eq!(FirehoseStatus::Ack as u32, 0);
    assert_eq!(FirehoseStatus::Nak as u32, 1);
    assert_ne!(FirehoseStatus::Ack, FirehoseStatus::Nak);
}

#[test]
fn backend_names() {
    assert_eq!("serial".parse::<QdlBackend>(), Ok(QdlBackend::Serial));
    assert_eq!("usb".parse::<QdlBackend>(), Ok(QdlBackend::Usb));
    for name in ["", "USB", "usb ", "us", "serial\0"] {
        assert_eq!(name.parse::<QdlBackend>(), Err(NameError::UnknownBackend));
    }
}

#[test]
fn backend_default_follows_the_system() {
    assert_eq!(QdlBackend::default(true), QdlBackend::Serial);
    assert_eq!(QdlBackend::default(false), QdlBackend::Usb);
}

#[test]
fn storage_type_names_round_trip() {
    let all = [
        (FirehoseStorageType::Emmc, "emmc"),
        (FirehoseStorageType::Ufs, "ufs"),
        (FirehoseStorageType::Nand, "nand"),
        (FirehoseStorageType::Nvme, "nvme"),
        (FirehoseStorageType::Spinor, "spinor"),
    ];
    for (storage_type, name) in all {
        assert_eq!(storage_type.to_string(), name);
        assert_eq!(name.parse::<FirehoseStorageType>(), Ok(storage_type));
    }
    for name in ["", "eMMC", "emm", "emmc1", "spi\u{f6}or"] {
        assert_eq!(name.parse::<FirehoseStorageType>(), Err(NameError::UnknownStorageType));
    }
}

#[test]
fn reset_mode_names_round_trip() {
    let all = [
        (FirehoseResetMode::ResetToEdl, "edl"),
        (FirehoseResetMode::Reset, "system"),
        (FirehoseResetMode::Off, "off"),
    ];
    for (mode, name) in all {
        assert_eq!(mode.to_string(), name);
        assert_eq!(name.parse::<FirehoseResetMode>(), Ok(mode));
    }
    for name in ["", "reset", "OFF", "edl\n"] {
        assert_eq!(name.parse::<FirehoseResetMode>(), Err(NameError::InvalidInput));
    }
}

#[test]
fn name_error_texts() {
    assert_eq!(NameError::UnknownBackend.to_string(), "Unknown backend");
    assert_eq!(NameError::UnknownStorageType.to_string(), "Unknown storage type");
    let io = std::io::Error::from(std::io::ErrorKind::InvalidInput);
    assert_eq!(NameError::InvalidInput.to_string(), io.to_string());
}

#[test]
fn default_configuration() {
    let cfg = FirehoseConfiguration::default(false);
    assert_eq!(cfg.send_buffer_size, 1048576);
    assert_eq!(cfg.recv_buffer_size, 4096);
    assert_eq!(cfg.xml_buf_size, 4096);
    assert_eq!(cfg.storage_sector_size, 512);
    assert_eq!(cfg.storage_type, FirehoseStorageType::Emmc);
    assert!(cfg.bypass_storage && cfg.skip_firehose_log);
    assert!(!cfg.hash_packets && !cfg.read_back_verify);
    assert!(!cfg.verbose_firehose && !cfg.dry_run);
    assert_eq!(cfg.backend, QdlBackend::Usb);
    assert_eq!(FirehoseConfiguration::default(true).backend, QdlBackend::Serial);
}

#[test]
fn recorded_commands_are_hashed_in_order() {
    let mut dev = device();
    dev.record_xml_command(b"<data/>");
    dev.record_data_command(b"");
    dev.record_data_command(&[7; 100]);
    let expected = vec![
        Sha256::digest(b"<data/>").to_vec(),
        Sha256::digest(b"").to_vec(),
        Sha256::digest([7; 100]).to_vec(),
    ];
    assert_eq!(dev.digests, expected);
    assert_eq!(dev.send_counter, 0);
    assert_eq!(dev.vip_digest_offset, 0);
}

#[test]
fn sends_are_counted() {
    let mut dev = device();
    assert_eq!(dev.get_send_count(), 0);
    dev.increment_send_count();
    dev.increment_send_count();
    assert_eq!(dev.get_send_count(), 2);
    assert!(dev.digests.is_empty());
}

#[test]
fn either_way_of_recording_adds_the_same_digests() {
    let messages: [&[u8]; 4] = [b"one", b"", b"three", b"one"];
    let mut mixed = device();
    mixed.digests = vec![vec![9]];
    mixed.record_data_command(messages[0]);
    mixed.record_xml_command(messages[1]);
    mixed.record_xml_command(messages[2]);
    mixed.record_data_command(messages[3]);
    let mut expected = vec![vec![9]];
    expected.extend(messages.iter().map(|m| Sha256::digest(m).to_vec()));
    assert_eq!(mixed.digests, expected);
    assert_eq!(mixed.send_counter, 0);
    assert_eq!(mixed.vip_digest_offset, 0);
    assert!(mixed.vip_digest_table.is_empty() && mixed.vip_signed_mbn.is_empty());
    assert!(!mixed.reset_on_drop);
}

#[test]
fn only_counting_counts() {
    let mut dev = device();
    dev.send_counter = 5;
    dev.vip_digest_table = vec![1, 2, 3];
    dev.increment_send_count();
    dev.record_xml_command(b"xml");
    dev.record_data_command(b"data");
    dev.rw.write_all(b"bytes").unwrap();
    dev.rw.flush().unwrap();
    dev.increment_send_count();
    let _ = dev.next_digest_chunk(2);
    dev.mut_fh_config().dry_run = true;
    let mut buf = [0u8; 4];
    assert_eq!(dev.rw.read(&mut buf).unwrap(), 0);
    dev.increment_send_count();
    assert_eq!(dev.get_send_count(), 8);
    assert_eq!(dev.digests.len(), 2);
}

#[test]
fn configuration_is_changed_in_place() {
    let mut dev = device();
    dev.mut_fh_config().storage_type = FirehoseStorageType::Ufs;
    dev.mut_fh_config().dry_run = true;
    assert_eq!(dev.fh_config().storage_type, FirehoseStorageType::Ufs);
    assert!(dev.fh_config().dry_run);
    assert_eq!(dev.fh_config().recv_buffer_size, 4096);
}

#[test]
fn digest_table_comes_in_chunks() {
    let mut dev = device();
    dev.vip_digest_table = (0u8..10).collect();
    assert_eq!(dev.next_digest_chunk(4), Some(&[0u8, 1, 2, 3][..]));
    assert_eq!(dev.next_digest_chunk(0), Some(&[][..]));
    assert_eq!(dev.next_digest_chunk(4), Some(&[4u8, 5, 6, 7][..]));
    assert_eq!(dev.next_digest_chunk(4), Some(&[8u8, 9][..]));
    assert_eq!(dev.vip_digest_offset, 10);
    assert_eq!(dev.next_digest_chunk(4), None);
    assert_eq!(dev.next_digest_chunk(usize::MAX), None);
    assert_eq!(dev.vip_digest_offset, 10);
}

#[test]
fn digest_chunks_join_up() {
    let table: Vec<u8> = (0u8..100).collect();
    let mut by_two = device();
    by_two.vip_digest_table = table.clone();
    let mut joined = by_two.next_digest_chunk(30).unwrap().to_vec();
    joined.extend_from_slice(by_two.next_digest_chunk(12).unwrap());
    let mut at_once = device();
    at_once.vip_digest_table = table.clone();
    assert_eq!(at_once.next_digest_chunk(42), Some(&joined[..]));
    assert_eq!(by_two.vip_digest_offset, at_once.vip_digest_offset);

    let mut all = device();
    all.vip_digest_table = table.clone();
    let mut drained = vec![];
    while let Some(chunk) = all.next_digest_chunk(7) {
        drained.extend_from_slice(chunk);
    }
    assert_eq!(drained, table);
}

#[test]
fn offset_behind_the_table_gives_nothing() {
    let mut dev = device();
    dev.vip_digest_table = vec![1, 2];
    dev.vip_digest_offset = 9;
    assert_eq!(dev.next_digest_chunk(1), None);
    assert_eq!(dev.vip_digest_offset, 9);
}

#[test]
fn reset_on_drop_asks_for_edl() {
    let mut dev = device();
    assert_eq!(dev.reset_mode_on_drop(), None);
    dev.reset_on_drop = true;
    assert_eq!(dev.reset_mode_on_drop(), Some(FirehoseResetMode::ResetToEdl));
}

#[test]
fn null_channel_swallows_everything() {
    let mut null = NullChannel;
    let mut buf = [1u8, 2, 3];
    assert_eq!(null.read(&mut buf).unwrap(), 0);
    assert_eq!(buf, [1, 2, 3]);
    assert_eq!(null.write(&[0; 17]).unwrap(), 17);
    null.flush().unwrap();
    assert!(null.fill_buf().unwrap().is_empty());
    null.consume(5);
    assert!(null.fill_buf().unwrap().is_empty());
}

fn is_read_write<T: QdlReadWrite + ?Sized>(_: &T) -> bool {
    true
}

#[test]
fn borrowed_channels_are_channels() {
    let mut null = NullChannel;
    assert!(is_read_write(&null));
    let borrowed = &mut null;
    assert!(is_read_write(&borrowed));
}
