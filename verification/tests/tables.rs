use qdl::digest::digest;
use qdl::vip::{gen_hash_tables, make_elf_header};
use sha2::{Digest, Sha256};

fn digests(count: usize) -> Vec<Vec<u8>> {
    (0..count).map(|i| Sha256::digest(i.to_le_bytes()).to_vec()).collect()
}

#[test]
fn known_digests() {
    let abc = [
        0xba, 0x78, 0x16, 0xbf, 0x8f, 0x01, 0xcf, 0xea, 0x41, 0x41, 0x40, 0xde, 0x5d, 0xae, 0x22,
        0x23, 0xb0, 0x03, 0x61, 0xa3, 0x96, 0x17, 0x7a, 0x9c, 0xb4, 0x10, 0xff, 0x61, 0xf2, 0x00,
        0x15, 0xad,
    ];
    assert_eq!(digest(b"abc"), abc);
    let empty = [
        0xe3, 0xb0, 0xc4, 0x42, 0x98, 0xfc, 0x1c, 0x14, 0x9a, 0xfb, 0xf4, 0xc8, 0x99, 0x6f, 0xb9,
        0x24, 0x27, 0xae, 0x41, 0xe4, 0x64, 0x9b, 0x93, 0x4c, 0xa4, 0x95, 0x99, 0x1b, 0x78, 0x52,
        0xb8, 0x55,
    ];
    assert_eq!(digest(b""), empty);
}

#[test]
fn elf_header_bytes() {
    let first_96: [u8; 96] = [
        0x7F, 0x45, 0x4C, 0x46, 0x02, 0x01, 0x01, 0x00, 0x00, 0x00, 0x00, 0x00, 0x00, 0x00, 0x00,
        0x00, 0x00, 0x00, 0x28, 0x00, 0x01, 0x00, 0x00, 0x00, 0x00, 0x00, 0x00, 0x00, 0x00, 0x00,
        0x00, 0x00, 0x40, 0x00, 0x00, 0x00, 0x00, 0x00, 0x00, 0x00, 0x00, 0x00, 0x00, 0x00, 0x00,
        0x00, 0x00, 0x00, 0x00, 0x00, 0x00, 0x00, 0x40, 0x00, 0x38, 0x00, 0x01, 0x00, 0x00, 0x00,
        0x00, 0x00, 0x00, 0x00, 0x01, 0x00, 0x00, 0x00, 0x00, 0x00, 0x00, 0x00, 0xE8, 0x00, 0x00,
        0x00, 0x00, 0x00, 0x00, 0x00, 0x00, 0x00, 0x00, 0x00, 0x00, 0x00, 0x00, 0x00, 0x00, 0x00,
        0x00, 0x00, 0x00, 0x00, 0x00, 0x00,
    ];
    for size in [0u32, 32, 1728, 0x0102_0304, u32::MAX] {
        let hdr = make_elf_header(size);
        assert_eq!(hdr[..96], first_96);
        assert_eq!(hdr[96..104], (size as u64).to_le_bytes());
        assert_eq!(hdr[104..112], (size as u64).to_le_bytes());
        assert!(hdr[112..].iter().all(|b| *b == 0));
        assert_eq!(hdr.len(), 232);
    }
}

#[test]
fn no_digests() {
    let res = gen_hash_tables(vec![], 0);
    let mut signme = make_elf_header(32).to_vec();
    signme.extend([0; 32]);
    assert_eq!(res.signme, signme);
    assert_eq!(res.tables, None);
    assert_eq!(res.primary_count, 0);
    assert_eq!(res.first_table_size, 32);
    assert_eq!(res.chained_count, 0);
}

#[test]
fn first_table_alone() {
    for count in [1, 2, 52, 53] {
        let d = digests(count);
        let res = gen_hash_tables(d.clone(), 8192);
        let size = 32 * (count as u32 + 1);
        let mut signme = make_elf_header(size).to_vec();
        signme.extend(d.concat());
        signme.extend([0; 32]);
        assert_eq!(res.signme, signme);
        assert_eq!(res.tables, None);
        assert_eq!(res.primary_count, count);
        assert_eq!(res.first_table_size, size);
        assert_eq!(res.chained_count, 0);
    }
}

#[test]
fn one_chained_table() {
    for count in [54, 100, 308] {
        let d = digests(count);
        let res = gen_hash_tables(d.clone(), 1);
        let mut table = d[53..].concat();
        table.push(0);
        let mut signme = make_elf_header(1728).to_vec();
        signme.extend(d[..53].concat());
        signme.extend(Sha256::digest(&table));
        assert_eq!(res.signme, signme);
        assert_eq!(res.tables, Some(table));
        assert_eq!(res.primary_count, 53);
        assert_eq!(res.first_table_size, 1728);
        assert_eq!(res.chained_count, 1);
    }
}

#[test]
fn three_chained_tables() {
    let d = digests(53 + 2 * 255 + 1);
    let res = gen_hash_tables(d.clone(), 0);
    let mut last = d[563..].concat();
    last.push(0);
    let mut second = d[308..563].concat();
    second.extend(Sha256::digest(&last));
    let mut first = d[53..308].concat();
    first.extend(Sha256::digest(&second));
    let mut signme = make_elf_header(1728).to_vec();
    signme.extend(d[..53].concat());
    signme.extend(Sha256::digest(&first));
    assert_eq!(res.signme, signme);
    assert_eq!(res.tables, Some([first, second, last].concat()));
    assert_eq!(res.chained_count, 3);
}

#[test]
fn full_last_table_needs_no_more() {
    let d = digests(53 + 2 * 255);
    let res = gen_hash_tables(d, 0);
    assert_eq!(res.chained_count, 2);
    assert_eq!(res.tables.unwrap().len(), 8192 + 255 * 32 + 1);
}

#[test]
fn tables_chain_and_hold_all_digests() {
    let d = digests(53 + 3 * 255 + 17);
    let res = gen_hash_tables(d.clone(), 0);
    let tables = res.tables.unwrap();
    let mut held = res.signme[232..232 + 53 * 32].to_vec();
    let mut expected_hash = res.signme[232 + 53 * 32..].to_vec();
    let mut chunks = tables.chunks(8192).peekable();
    while let Some(table) = chunks.next() {
        assert_eq!(Sha256::digest(table).to_vec(), expected_hash);
        if chunks.peek().is_some() {
            assert_eq!(table.len(), 8192);
            held.extend(&table[..8160]);
            expected_hash = table[8160..].to_vec();
        } else {
            assert_eq!(table.len(), 17 * 32 + 1);
            assert_eq!(table.last(), Some(&0));
            held.extend(&table[..17 * 32]);
        }
    }
    assert_eq!(held, d.concat());
}

#[test]
fn header_gives_the_size_of_the_payload() {
    for count in [0, 1, 53, 54, 1000] {
        let res = gen_hash_tables(digests(count), 0);
        let payload = (res.signme.len() - 232) as u64;
        assert_eq!(res.signme[96..104], payload.to_le_bytes());
        assert_eq!(res.signme[104..112], payload.to_le_bytes());
        assert_eq!(res.first_table_size as u64, payload);
    }
}

#[test]
fn any_digest_reaches_the_signed_file() {
    let d = digests(700);
    let before = gen_hash_tables(d.clone(), 0).signme;
    for i in [0, 52, 53, 307, 308, 562, 563, 699] {
        let mut changed = d.clone();
        changed[i][31] ^= 1;
        assert_ne!(gen_hash_tables(changed, 0).signme, before);
    }
}

#[test]
fn digests_of_other_lengths_are_joined_as_they_are() {
    let d = vec![vec![1, 2, 3], vec![], vec![4]];
    let res = gen_hash_tables(d, 0);
    let mut signme = make_elf_header(128).to_vec();
    signme.extend([1, 2, 3, 4]);
    signme.extend([0; 32]);
    assert_eq!(res.signme, signme);
}
