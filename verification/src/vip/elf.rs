//! The ELF header in front of the first hash table.
use vstd::prelude::*;

verus! {

/// Length in bytes of the header: where the payload of the file begins.
pub const ELF_HEADER_SIZE: usize = 232;

/// The low `width` bytes of `value`, least significant byte first.
pub open spec fn le_bytes(value: nat, width: nat) -> Seq<u8>
    decreases width,
{
    if width == 0 {
        Seq::empty()
    } else {
        seq![(value % 256) as u8] + le_bytes(value / 256, (width - 1) as nat)
    }
}

/// `count` zero bytes.
pub open spec fn zeros(count: nat) -> Seq<u8> {
    Seq::new(count, |i: int| 0u8)
}

/// The ELF64 file header: a little-endian file of version 1 for the machine
/// 0x28, whose only program header follows at once.
pub open spec fn elf_file_header() -> Seq<u8> {
    // e_ident: the magic number, 64-bit class, little-endian, version 1
    seq![0x7f, 0x45, 0x4c, 0x46, 2, 1, 1] + zeros(9)
    // e_type, e_machine, e_version
    + le_bytes(0, 2) + le_bytes(0x28, 2) + le_bytes(1, 4)
    // e_entry, e_phoff, e_shoff
    + le_bytes(0, 8) + le_bytes(0x40, 8) + le_bytes(0, 8)
    // e_flags, e_ehsize, e_phentsize, e_phnum
    + le_bytes(0, 4) + le_bytes(0x40, 2) + le_bytes(0x38, 2) + le_bytes(1, 2)
    // e_shentsize, e_shnum, e_shstrndx
    + le_bytes(0, 2) + le_bytes(0, 2) + le_bytes(0, 2)
}

/// The program header of a loadable segment of `payload_size` bytes that
/// begins behind the header.
pub open spec fn elf_program_header(payload_size: nat) -> Seq<u8> {
    // p_type, p_flags, p_offset
    le_bytes(1, 4) + le_bytes(0, 4) + le_bytes(ELF_HEADER_SIZE as nat, 8)
    // p_vaddr, p_paddr
    + le_bytes(0, 8) + le_bytes(0, 8)
    // p_filesz, p_memsz, p_align
    + le_bytes(payload_size, 8) + le_bytes(payload_size, 8) + le_bytes(0, 8)
}

/// The whole header of a file with `payload_size` bytes of payload.
pub open spec fn elf_header(payload_size: nat) -> Seq<u8> {
    elf_file_header() + elf_program_header(payload_size) + zeros(112)
}

/// `le_bytes` has the length it is asked for.
broadcast proof fn lemma_le_bytes_len(value: nat, width: nat)
    ensures
        #[trigger] le_bytes(value, width).len() == width,
    decreases width,
{
    if width > 0 {
        lemma_le_bytes_len(value / 256, (width - 1) as nat);
    }
}

/// Appends the low `width` bytes of `value`, least significant byte first.
fn put_le(out: &mut Vec<u8>, value: u64, width: usize)
    ensures
        final(out)@ == old(out)@ + le_bytes(value as nat, width as nat),
{
    let mut rest: u64 = value;
    let mut left: usize = width;
    while left > 0
        invariant
            out@ + le_bytes(rest as nat, left as nat) =~= old(out)@ + le_bytes(
                value as nat,
                width as nat,
            ),
        decreases left,
    {
        out.push((rest % 256) as u8);
        rest = rest / 256;
        left = left - 1;
    }
}

/// Appends the 64 bytes of the ELF64 file header.
fn put_file_header(out: &mut Vec<u8>)
    ensures
        final(out)@ =~= old(out)@ + elf_file_header(),
{
    let ident: [u8; 16] = [0x7f, 0x45, 0x4c, 0x46, 2, 1, 1, 0, 0, 0, 0, 0, 0, 0, 0, 0];
    out.extend_from_slice(ident.as_slice());
    assert(out@ =~= old(out)@ + (seq![0x7fu8, 0x45, 0x4c, 0x46, 2, 1, 1] + zeros(9)));
    put_le(out, 0, 2);
    put_le(out, 0x28, 2);
    put_le(out, 1, 4);
    put_le(out, 0, 8);
    put_le(out, 0x40, 8);
    put_le(out, 0, 8);
    put_le(out, 0, 4);
    put_le(out, 0x40, 2);
    put_le(out, 0x38, 2);
    put_le(out, 1, 2);
    put_le(out, 0, 2);
    put_le(out, 0, 2);
    put_le(out, 0, 2);
}

/// Appends the 56 bytes of the program header.
fn put_program_header(out: &mut Vec<u8>, payload_size: u32)
    ensures
        final(out)@ =~= old(out)@ + elf_program_header(payload_size as nat),
{
    put_le(out, 1, 4);
    put_le(out, 0, 4);
    put_le(out, ELF_HEADER_SIZE as u64, 8);
    put_le(out, 0, 8);
    put_le(out, 0, 8);
    put_le(out, payload_size as u64, 8);
    put_le(out, payload_size as u64, 8);
    put_le(out, 0, 8);
}

/// The header of an ELF file that holds `payload_size` bytes behind it.
pub fn make_elf_header(payload_size: u32) -> (hdr: [u8; 232])
    ensures
        hdr@ == elf_header(payload_size as nat),
{
    let mut fields: Vec<u8> = Vec::new();
    put_file_header(&mut fields);
    put_program_header(&mut fields, payload_size);
    proof {
        lemma_header_lens(payload_size as nat);
    }
    let mut hdr = [0u8; 232];
    let mut i: usize = 0;
    while i < 120
        invariant
            i <= 120,
            fields@.len() == 120,
            forall|j: int| 0 <= j < i ==> hdr@[j] == fields@[j],
            forall|j: int| i <= j < 232 ==> hdr@[j] == 0,
        decreases 120 - i,
    {
        hdr[i] = fields[i];
        i = i + 1;
    }
    assert(hdr@ =~= fields@ + zeros(112));
    hdr
}

/// The number whose little-endian bytes are `bytes`.
pub open spec fn le_value(bytes: Seq<u8>) -> nat
    decreases bytes.len(),
{
    if bytes.len() == 0 {
        0
    } else {
        bytes[0] as nat + 256 * le_value(bytes.drop_first())
    }
}

/// The lengths of the two parts of the header.
proof fn lemma_header_lens(payload_size: nat)
    ensures
        elf_file_header().len() == 64,
        elf_program_header(payload_size).len() == 56,
{
    broadcast use lemma_le_bytes_len;

}

/// A number below 256 to the power of `width` survives being written in
/// `width` little-endian bytes.
proof fn lemma_le_value(value: nat, width: nat)
    requires
        value < vstd::arithmetic::power::pow(256, width),
    ensures
        le_value(le_bytes(value, width)) == value,
    decreases width,
{
    reveal(vstd::arithmetic::power::pow);
    if width > 0 {
        let rest = (width - 1) as nat;
        assert(value / 256 < vstd::arithmetic::power::pow(256, rest)) by {
            assert(vstd::arithmetic::power::pow(256, width) == 256 * vstd::arithmetic::power::pow(
                256,
                rest,
            ));
        }
        lemma_le_value(value / 256, rest);
        assert(le_bytes(value, width).drop_first() =~= le_bytes(value / 256, rest));
    }
}

/// The header is `ELF_HEADER_SIZE` bytes long, places the segment right behind
/// itself, and gives the size of the payload both as the segment's size in the
/// file and as its size in memory.
pub proof fn law_elf_header_locates_payload(payload_size: u32)
    ensures
        elf_header(payload_size as nat).len() == ELF_HEADER_SIZE,
        le_value(elf_header(payload_size as nat).subrange(72, 80)) == ELF_HEADER_SIZE,
        le_value(elf_header(payload_size as nat).subrange(96, 104)) == payload_size,
        le_value(elf_header(payload_size as nat).subrange(104, 112)) == payload_size,
{
    broadcast use lemma_le_bytes_len;

    let size = payload_size as nat;
    lemma_header_lens(size);
    assert(elf_header(size).subrange(72, 80) =~= le_bytes(ELF_HEADER_SIZE as nat, 8));
    assert(elf_header(size).subrange(96, 104) =~= le_bytes(size, 8));
    assert(elf_header(size).subrange(104, 112) =~= le_bytes(size, 8));
    assert(vstd::arithmetic::power::pow(256, 8) == 0x1_0000_0000_0000_0000) by {
        reveal_with_fuel(vstd::arithmetic::power::pow, 9);
    }
    lemma_le_value(size, 8);
    lemma_le_value(ELF_HEADER_SIZE as nat, 8);
}

/// Numbers of two, four and eight bytes, byte by byte.
proof fn lemma_le_bytes_spelt_out(value: nat)
    ensures
        le_bytes(value, 2) == seq![(value % 256) as u8, (value / 256 % 256) as u8],
        le_bytes(value, 4) == seq![
            (value % 256) as u8,
            (value / 256 % 256) as u8,
            (value / 0x1_0000 % 256) as u8,
            (value / 0x100_0000 % 256) as u8,
        ],
        value < 0x1_0000_0000 ==> le_bytes(value, 8) == seq![
            (value % 256) as u8,
            (value / 256 % 256) as u8,
            (value / 0x1_0000 % 256) as u8,
            (value / 0x100_0000) as u8,
            0,
            0,
            0,
            0,
        ],
{
    reveal_with_fuel(le_bytes, 9);
    assert(value / 256 / 256 == value / 0x1_0000);
    assert(value / 0x1_0000 / 256 == value / 0x100_0000);
    assert(le_bytes(value, 2) =~= seq![(value % 256) as u8, (value / 256 % 256) as u8]);
    assert(le_bytes(value, 4) =~= seq![
        (value % 256) as u8,
        (value / 256 % 256) as u8,
        (value / 0x1_0000 % 256) as u8,
        (value / 0x100_0000 % 256) as u8,
    ]);
    if value < 0x1_0000_0000 {
        assert(value / 0x100_0000 / 256 == 0);
        assert(le_bytes(value, 8) =~= seq![
            (value % 256) as u8,
            (value / 256 % 256) as u8,
            (value / 0x1_0000 % 256) as u8,
            (value / 0x100_0000) as u8,
            0,
            0,
            0,
            0,
        ]);
    }
}

/// The first 96 bytes of the header are the same for every payload: the magic
/// number and identification of an ELF64 file, machine 0x28, version 1, one program
/// header of 0x38 bytes at 0x40, whose segment is loadable and begins at byte 0xe8
/// of the file. Then comes the size of the payload, twice, in eight little-endian
/// bytes each, and zeros fill the header up to its 232 bytes.
pub proof fn law_elf_header_bytes(payload_size: u32)
    ensures
        elf_header(payload_size as nat).len() == 232,
        elf_header(payload_size as nat).take(96) == seq![
            0x7fu8, 0x45, 0x4c, 0x46, 2, 1, 1, 0, 0, 0, 0, 0, 0, 0, 0, 0,
            0, 0, 0x28, 0, 1, 0, 0, 0, 0, 0, 0, 0, 0, 0, 0, 0,
            0x40, 0, 0, 0, 0, 0, 0, 0, 0, 0, 0, 0, 0, 0, 0, 0,
            0, 0, 0, 0, 0x40, 0, 0x38, 0, 1, 0, 0, 0, 0, 0, 0, 0,
            1, 0, 0, 0, 0, 0, 0, 0, 0xe8, 0, 0, 0, 0, 0, 0, 0,
            0, 0, 0, 0, 0, 0, 0, 0, 0, 0, 0, 0, 0, 0, 0, 0,
        ],
        elf_header(payload_size as nat).subrange(96, 104) == seq![
            (payload_size % 256) as u8,
            (payload_size / 256 % 256) as u8,
            (payload_size / 0x1_0000 % 256) as u8,
            (payload_size / 0x100_0000) as u8,
            0,
            0,
            0,
            0,
        ],
        elf_header(payload_size as nat).subrange(104, 112) == elf_header(
            payload_size as nat,
        ).subrange(96, 104),
        forall|i: int| 112 <= i < 232 ==> #[trigger] elf_header(payload_size as nat)[i] == 0,
{
    broadcast use lemma_le_bytes_len;

    let size = payload_size as nat;
    lemma_header_lens(size);
    lemma_le_bytes_spelt_out(0);
    lemma_le_bytes_spelt_out(1);
    lemma_le_bytes_spelt_out(0x28);
    lemma_le_bytes_spelt_out(0x38);
    lemma_le_bytes_spelt_out(0x40);
    lemma_le_bytes_spelt_out(ELF_HEADER_SIZE as nat);
    lemma_le_bytes_spelt_out(size);
    assert(elf_file_header() =~= seq![
        0x7fu8, 0x45, 0x4c, 0x46, 2, 1, 1, 0, 0, 0, 0, 0, 0, 0, 0, 0,
        0, 0, 0x28, 0, 1, 0, 0, 0, 0, 0, 0, 0, 0, 0, 0, 0,
        0x40, 0, 0, 0, 0, 0, 0, 0, 0, 0, 0, 0, 0, 0, 0, 0,
        0, 0, 0, 0, 0x40, 0, 0x38, 0, 1, 0, 0, 0, 0, 0, 0, 0,
    ]);
    assert(elf_program_header(size).take(32) =~= seq![
        1u8, 0, 0, 0, 0, 0, 0, 0, 0xe8, 0, 0, 0, 0, 0, 0, 0,
        0, 0, 0, 0, 0, 0, 0, 0, 0, 0, 0, 0, 0, 0, 0, 0,
    ]);
    assert(elf_header(size).take(96) =~= elf_file_header() + elf_program_header(size).take(32));
    assert(elf_file_header() + elf_program_header(size).take(32) =~= seq![
        0x7fu8, 0x45, 0x4c, 0x46, 2, 1, 1, 0, 0, 0, 0, 0, 0, 0, 0, 0,
        0, 0, 0x28, 0, 1, 0, 0, 0, 0, 0, 0, 0, 0, 0, 0, 0,
        0x40, 0, 0, 0, 0, 0, 0, 0, 0, 0, 0, 0, 0, 0, 0, 0,
        0, 0, 0, 0, 0x40, 0, 0x38, 0, 1, 0, 0, 0, 0, 0, 0, 0,
        1, 0, 0, 0, 0, 0, 0, 0, 0xe8, 0, 0, 0, 0, 0, 0, 0,
        0, 0, 0, 0, 0, 0, 0, 0, 0, 0, 0, 0, 0, 0, 0, 0,
    ]);
    assert(elf_header(size).subrange(96, 104) =~= le_bytes(size, 8));
    assert(elf_header(size).subrange(104, 112) =~= le_bytes(size, 8));
}

} // verus!
