//! The hash tables of Validated Image Programming.
//!
//! The first table is what gets signed: up to 53 digests and the hash of the
//! first chained table. Each chained table holds up to 255 further digests and,
//! unless it is the last one, the hash of the next chained table.
use super::elf::{
    elf_header, law_elf_header_locates_payload, le_value, make_elf_header, zeros, ELF_HEADER_SIZE,
};
use crate::digest::{digest, sha256, DIGEST_SIZE, SHA256_MAX_MESSAGE_LEN};
use vstd::math::min;
use vstd::prelude::*;

verus! {

/// How many digests the first table holds at most.
pub const FIRST_TABLE_PAYLOAD_HASHES: usize = 53;

/// Length in bytes of a full chained table.
pub const VIP_CHAINED_TABLE_SIZE: usize = 8192;

/// How many digests a chained table holds at most, beside the hash of the next.
pub const CHAINED_DIGESTS_PER_TABLE: usize = VIP_CHAINED_TABLE_SIZE / DIGEST_SIZE - 1;

/// The byte that ends the last chained table.
pub const LAST_TABLE_MARK: u8 = 0;

/// The contents of a sequence of byte vectors.
pub open spec fn rows(vecs: Seq<Vec<u8>>) -> Seq<Seq<u8>> {
    vecs.map_values(|v: Vec<u8>| v@)
}

/// The digests that the first table holds.
pub open spec fn primary_digests(digests: Seq<Seq<u8>>) -> Seq<Seq<u8>> {
    digests.take(min(digests.len() as int, FIRST_TABLE_PAYLOAD_HASHES as int))
}

/// The digests left over for the chained tables.
pub open spec fn aux_digests(digests: Seq<Seq<u8>>) -> Seq<Seq<u8>> {
    digests.skip(min(digests.len() as int, FIRST_TABLE_PAYLOAD_HASHES as int))
}

/// How many chained tables there are: as few as hold all left-over digests.
pub open spec fn chained_table_count(digests: Seq<Seq<u8>>) -> nat {
    (aux_digests(digests).len() + CHAINED_DIGESTS_PER_TABLE - 1) as nat
        / CHAINED_DIGESTS_PER_TABLE as nat
}

/// The digests that chained table `i` holds.
pub open spec fn table_digests(digests: Seq<Seq<u8>>, i: int) -> Seq<Seq<u8>> {
    let aux = aux_digests(digests);
    aux.subrange(
        i * CHAINED_DIGESTS_PER_TABLE,
        min((i + 1) * CHAINED_DIGESTS_PER_TABLE, aux.len() as int),
    )
}

/// The bytes of chained table `i`: its digests, then the hash of the next
/// table, or the end mark in the last table.
pub open spec fn chained_table(digests: Seq<Seq<u8>>, i: int) -> Seq<u8>
    decreases chained_table_count(digests) - i,
{
    table_digests(digests, i).flatten() + if i + 1 < chained_table_count(digests) {
        sha256(chained_table(digests, i + 1))@
    } else {
        seq![LAST_TABLE_MARK]
    }
}

/// All chained tables, in order.
pub open spec fn chained_tables(digests: Seq<Seq<u8>>) -> Seq<Seq<u8>> {
    Seq::new(chained_table_count(digests), |i: int| chained_table(digests, i))
}

/// The hash that ends the first table: that of the first chained table, or
/// zeros where there is none.
pub open spec fn chain_head_hash(digests: Seq<Seq<u8>>) -> Seq<u8> {
    if chained_table_count(digests) > 0 {
        sha256(chained_table(digests, 0))@
    } else {
        zeros(DIGEST_SIZE as nat)
    }
}

/// The size that the header gives for the first table: one slot for each of its
/// digests and one for the chain head.
pub open spec fn first_table_size(digests: Seq<Seq<u8>>) -> nat {
    ((primary_digests(digests).len() + 1) * DIGEST_SIZE) as nat
}

/// The first table: its digests and the chain head.
pub open spec fn first_table(digests: Seq<Seq<u8>>) -> Seq<u8> {
    primary_digests(digests).flatten() + chain_head_hash(digests)
}

/// The contents of the file to be signed.
pub open spec fn signme_file(digests: Seq<Seq<u8>>) -> Seq<u8> {
    elf_header(first_table_size(digests)) + first_table(digests)
}

/// What the two files hold, and the figures to report of them.
pub struct HashTables {
    /// The contents of `signme.elf`.
    pub signme: Vec<u8>,
    /// The contents of `tables.bin`, where that file is needed at all.
    pub tables: Option<Vec<u8>>,
    /// How many digests the first table holds.
    pub primary_count: usize,
    /// The size that the header gives for the first table.
    pub first_table_size: u32,
    /// How many chained tables there are.
    pub chained_count: usize,
}

/// Whether every byte string has the length of a digest.
pub open spec fn all_digest_sized(digests: Seq<Seq<u8>>) -> bool {
    forall|i: int| 0 <= i < digests.len() ==> (#[trigger] digests[i]).len() == DIGEST_SIZE
}

/// A part of a sequence of byte strings is no longer than the whole.
proof fn lemma_flatten_part_len(s: Seq<Seq<u8>>, from: int, to: int)
    requires
        0 <= from <= to <= s.len(),
    ensures
        s.subrange(from, to).flatten().len() <= s.flatten().len(),
{
    let head = s.take(from);
    let mid = s.subrange(from, to);
    let tail = s.skip(to);
    vstd::seq_lib::lemma_flatten_concat(head, mid);
    vstd::seq_lib::lemma_flatten_concat(head + mid, tail);
    assert(head + mid + tail =~= s);
}

/// Appends the digests from `from` up to, and without, `to`.
fn put_digests(out: &mut Vec<u8>, digests: &Vec<Vec<u8>>, from: usize, to: usize)
    requires
        from <= to <= digests@.len(),
    ensures
        final(out)@ == old(out)@ + rows(digests@).subrange(from as int, to as int).flatten(),
{
    let mut i: usize = from;
    assert(rows(digests@).subrange(from as int, from as int) =~= Seq::<Seq<u8>>::empty());
    while i < to
        invariant
            from <= i <= to <= digests@.len(),
            out@ =~= old(out)@ + rows(digests@).subrange(from as int, i as int).flatten(),
        decreases to - i,
    {
        let ghost done = rows(digests@).subrange(from as int, i as int);
        out.extend_from_slice(digests[i].as_slice());
        proof {
            done.lemma_flatten_push(digests@[i as int]@);
            assert(rows(digests@).subrange(from as int, i + 1) =~= done.push(digests@[i as int]@));
        }
        i = i + 1;
    }
}

/// The figures of the chained tables, worked out.
proof fn lemma_table_figures(digests: Seq<Seq<u8>>, i: int)
    ensures
        CHAINED_DIGESTS_PER_TABLE == 255,
        i * CHAINED_DIGESTS_PER_TABLE == 255 * i,
        (i + 1) * CHAINED_DIGESTS_PER_TABLE == 255 * i + 255,
        chained_table_count(digests) == (aux_digests(digests).len() + 254) / 255,
{
    let per_table = CHAINED_DIGESTS_PER_TABLE as int;
    assert(per_table == 255);
    assert(i * per_table == 255 * i) by (nonlinear_arith)
        requires
            per_table == 255,
    ;
    assert((i + 1) * per_table == 255 * i + 255) by (nonlinear_arith)
        requires
            per_table == 255,
    ;
}

/// Every chained table begins inside the left-over digests, and together the
/// tables reach their end.
proof fn lemma_table_bounds(digests: Seq<Seq<u8>>, i: int)
    requires
        0 <= i < chained_table_count(digests),
    ensures
        i * CHAINED_DIGESTS_PER_TABLE < aux_digests(digests).len(),
        i + 1 < chained_table_count(digests) ==> (i + 1) * CHAINED_DIGESTS_PER_TABLE
            < aux_digests(digests).len(),
        i + 1 == chained_table_count(digests) ==> aux_digests(digests).len() <= (i + 1)
            * CHAINED_DIGESTS_PER_TABLE,
{
    lemma_table_figures(digests, i);
}

/// The digests of a chained table, by their place among all digests.
proof fn lemma_table_digests_place(digests: Seq<Seq<u8>>, i: int)
    requires
        0 <= i < chained_table_count(digests),
    ensures
        table_digests(digests, i) == digests.subrange(
            FIRST_TABLE_PAYLOAD_HASHES + i * CHAINED_DIGESTS_PER_TABLE,
            min(
                FIRST_TABLE_PAYLOAD_HASHES + (i + 1) * CHAINED_DIGESTS_PER_TABLE,
                digests.len() as int,
            ),
        ),
{
    lemma_table_figures(digests, i);
    lemma_table_bounds(digests, i);
    assert(table_digests(digests, i) =~= digests.subrange(
        FIRST_TABLE_PAYLOAD_HASHES + i * CHAINED_DIGESTS_PER_TABLE,
        min(
            FIRST_TABLE_PAYLOAD_HASHES + (i + 1) * CHAINED_DIGESTS_PER_TABLE,
            digests.len() as int,
        ),
    ));
}

/// Appends chained table `i` of `count`, given the hash of the next one.
fn put_chained_table(
    out: &mut Vec<u8>,
    digests: &Vec<Vec<u8>>,
    i: usize,
    count: usize,
    next_hash: &[u8],
)
    requires
        i < count,
        count == chained_table_count(rows(digests@)),
        i + 1 < count ==> next_hash@ == sha256(chained_table(rows(digests@), i + 1))@,
    ensures
        final(out)@ == old(out)@ + chained_table(rows(digests@), i as int),
{
    let len: usize = digests.len();
    proof {
        lemma_table_figures(rows(digests@), i as int);
        lemma_table_bounds(rows(digests@), i as int);
        lemma_table_digests_place(rows(digests@), i as int);
    }
    let from: usize = FIRST_TABLE_PAYLOAD_HASHES + i * CHAINED_DIGESTS_PER_TABLE;
    let to: usize = if len - from < CHAINED_DIGESTS_PER_TABLE {
        len
    } else {
        from + CHAINED_DIGESTS_PER_TABLE
    };
    put_digests(out, digests, from, to);
    if i == count - 1 {
        out.push(LAST_TABLE_MARK);
    } else {
        out.extend_from_slice(next_hash);
    }
    assert(out@ =~= old(out)@ + chained_table(rows(digests@), i as int));
}

/// The hash of each chained table, worked out from the last table to the first.
fn chained_table_hashes(digests: &Vec<Vec<u8>>, count: usize) -> (hashes: Vec<Vec<u8>>)
    requires
        count == chained_table_count(rows(digests@)),
        aux_digests(rows(digests@)).flatten().len() + DIGEST_SIZE <= SHA256_MAX_MESSAGE_LEN,
    ensures
        hashes@.len() == count,
        forall|i: int|
            0 <= i < count ==> (#[trigger] hashes@[i])@ == sha256(
                chained_table(rows(digests@), i),
            )@,
{
    let mut hashes: Vec<Vec<u8>> = vec![vec![0u8; DIGEST_SIZE]; count];
    let mut running_hash: Vec<u8> = Vec::new();
    let mut i: usize = count;
    while i > 0
        invariant
            i <= count,
            count == chained_table_count(rows(digests@)),
            aux_digests(rows(digests@)).flatten().len() + DIGEST_SIZE <= SHA256_MAX_MESSAGE_LEN,
            i < count ==> running_hash@ == sha256(chained_table(rows(digests@), i as int))@,
            hashes@.len() == count,
            forall|j: int|
                i <= j < count ==> (#[trigger] hashes@[j])@ == sha256(
                    chained_table(rows(digests@), j),
                )@,
        decreases i,
    {
        i = i - 1;
        let mut table_bytes: Vec<u8> = Vec::new();
        put_chained_table(&mut table_bytes, digests, i, count, running_hash.as_slice());
        proof {
            let all = rows(digests@);
            lemma_table_figures(all, i as int);
            lemma_table_bounds(all, i as int);
            lemma_flatten_part_len(
                aux_digests(all),
                i * CHAINED_DIGESTS_PER_TABLE,
                min((i + 1) * CHAINED_DIGESTS_PER_TABLE, aux_digests(all).len() as int),
            );
            assert(table_bytes@ =~= chained_table(all, i as int));
        }
        running_hash = digest(table_bytes.as_slice());
        hashes.set(i, running_hash.clone());
    }
    hashes
}

/// How many chained tables `len` digests need.
fn count_chained_tables(len: usize) -> (count: usize)
    ensures
        forall|digests: Seq<Seq<u8>>|
            digests.len() == len ==> count == #[trigger] chained_table_count(digests),
{
    assert forall|digests: Seq<Seq<u8>>| #[trigger] chained_table_count(digests) == (aux_digests(
        digests,
    ).len() + 254) / 255 by {
        lemma_table_figures(digests, 0);
    }
    proof {
        lemma_table_figures(Seq::empty(), 0);
    }
    if len >= FIRST_TABLE_PAYLOAD_HASHES {
        let extra: usize = len - FIRST_TABLE_PAYLOAD_HASHES;
        let full: usize = extra / CHAINED_DIGESTS_PER_TABLE;
        let rem: usize = extra % CHAINED_DIGESTS_PER_TABLE;
        if rem > 0 {
            full + 1
        } else {
            full
        }
    } else {
        0
    }
}

/// Appends all chained tables in order, given their hashes.
fn put_chained_tables(out: &mut Vec<u8>, digests: &Vec<Vec<u8>>, hashes: &Vec<Vec<u8>>)
    requires
        hashes@.len() == chained_table_count(rows(digests@)),
        forall|i: int|
            0 <= i < hashes@.len() ==> (#[trigger] hashes@[i])@ == sha256(
                chained_table(rows(digests@), i),
            )@,
    ensures
        final(out)@ == old(out)@ + chained_tables(rows(digests@)).flatten(),
{
    let count: usize = hashes.len();
    let ghost tables = chained_tables(rows(digests@));
    let mut i: usize = 0;
    assert(tables.take(0) =~= Seq::<Seq<u8>>::empty());
    while i < count
        invariant
            i <= count,
            count == hashes@.len(),
            count == chained_table_count(rows(digests@)),
            tables == chained_tables(rows(digests@)),
            forall|j: int|
                0 <= j < count ==> (#[trigger] hashes@[j])@ == sha256(
                    chained_table(rows(digests@), j),
                )@,
            out@ =~= old(out)@ + tables.take(i as int).flatten(),
        decreases count - i,
    {
        if i < count - 1 {
            put_chained_table(out, digests, i, count, hashes[i + 1].as_slice());
        } else {
            put_chained_table(out, digests, i, count, &[]);
        }
        proof {
            tables.take(i as int).lemma_flatten_push(tables[i as int]);
            assert(tables.take(i + 1) =~= tables.take(i as int).push(tables[i as int]));
        }
        i = i + 1;
    }
    assert(tables.take(count as int) =~= tables);
}

/// Works out the hash tables for `digests`: the file to be signed, with the
/// first digests and the head of the chain, and the chained tables, where the
/// first table does not hold all digests.
pub fn gen_hash_tables(digests: Vec<Vec<u8>>, _max_table_size: usize) -> (res: HashTables)
    requires
        aux_digests(rows(digests@)).flatten().len() + DIGEST_SIZE <= SHA256_MAX_MESSAGE_LEN,
    ensures
        res.signme@ == signme_file(rows(digests@)),
        match res.tables {
            Some(tables) => chained_table_count(rows(digests@)) > 0 && tables@ == chained_tables(
                rows(digests@),
            ).flatten(),
            None => chained_table_count(rows(digests@)) == 0,
        },
        res.primary_count == primary_digests(rows(digests@)).len(),
        res.first_table_size == first_table_size(rows(digests@)),
        res.chained_count == chained_table_count(rows(digests@)),
        res.tables is Some <==> digests@.len() > 53,
        res.primary_count == (if digests@.len() <= 53 {
            digests@.len() as int
        } else {
            53
        }),
        res.first_table_size == 32 * (res.primary_count + 1),
        digests@.len() <= 53 ==> res.chained_count == 0,
        digests@.len() > 53 ==> 255 * (res.chained_count - 1) < digests@.len() - 53 <= 255
            * res.chained_count,
{
    proof {
        lemma_table_figures(rows(digests@), 0);
    }
    let num_digests: usize = digests.len();
    let primary_count: usize = if num_digests >= FIRST_TABLE_PAYLOAD_HASHES {
        FIRST_TABLE_PAYLOAD_HASHES
    } else {
        num_digests
    };
    let chained_count: usize = count_chained_tables(num_digests);
    let hashes: Vec<Vec<u8>> = chained_table_hashes(&digests, chained_count);
    let first_table_size: u32 = ((primary_count + 1) * DIGEST_SIZE) as u32;

    let mut signme: Vec<u8> = Vec::new();
    let header = make_elf_header(first_table_size);
    signme.extend_from_slice(header.as_slice());
    put_digests(&mut signme, &digests, 0, primary_count);
    if chained_count > 0 {
        signme.extend_from_slice(hashes[0].as_slice());
    } else {
        let no_chain: [u8; 32] = [0u8; 32];
        signme.extend_from_slice(no_chain.as_slice());
    }
    proof {
        let all = rows(digests@);
        assert(all.subrange(0, primary_count as int) =~= primary_digests(all));
        assert(signme@ =~= signme_file(all));
    }

    let tables: Option<Vec<u8>> = if chained_count > 0 {
        let mut bytes: Vec<u8> = Vec::new();
        put_chained_tables(&mut bytes, &digests, &hashes);
        assert(bytes@ =~= chained_tables(rows(digests@)).flatten());
        Some(bytes)
    } else {
        None
    };
    HashTables { signme, tables, primary_count, first_table_size, chained_count }
}

/// Byte strings of the length of a digest add up.
pub proof fn lemma_flatten_digests_len(digests: Seq<Seq<u8>>)
    requires
        all_digest_sized(digests),
    ensures
        digests.flatten().len() == 32 * digests.len(),
    decreases digests.len(),
{
    if digests.len() > 0 {
        lemma_flatten_digests_len(digests.drop_first());
    }
}

/// There are chained tables exactly where the first table does not hold all
/// digests.
pub proof fn law_chained_tables_only_when_needed(digests: Seq<Seq<u8>>)
    ensures
        chained_table_count(digests) == 0 <==> digests.len() <= FIRST_TABLE_PAYLOAD_HASHES,
{
    lemma_table_figures(digests, 0);
}

/// The digests of the first `count` chained tables are the first left-over ones.
proof fn lemma_tables_hold_prefix(digests: Seq<Seq<u8>>, count: nat)
    requires
        count <= chained_table_count(digests),
    ensures
        Seq::new(count, |i: int| table_digests(digests, i)).flatten() == aux_digests(digests).take(
            min(count * CHAINED_DIGESTS_PER_TABLE, aux_digests(digests).len() as int),
        ),
    decreases count,
{
    let aux = aux_digests(digests);
    let tables = Seq::new(count, |i: int| table_digests(digests, i));
    lemma_table_figures(digests, count as int);
    if count == 0 {
        assert(tables.flatten() =~= aux.take(0));
    } else {
        let less = (count - 1) as nat;
        lemma_table_figures(digests, less as int);
        lemma_table_bounds(digests, less as int);
        lemma_tables_hold_prefix(digests, less);
        let before = Seq::new(less, |i: int| table_digests(digests, i));
        assert(tables =~= before.push(table_digests(digests, less as int)));
        before.lemma_flatten_push(table_digests(digests, less as int));
        assert(tables.flatten() =~= aux.take(
            min(count * CHAINED_DIGESTS_PER_TABLE, aux.len() as int),
        ));
    }
}

/// The first table and the chained tables together hold every digest once, in
/// order.
pub proof fn law_tables_hold_all_digests(digests: Seq<Seq<u8>>)
    ensures
        primary_digests(digests) + Seq::new(
            chained_table_count(digests),
            |i: int| table_digests(digests, i),
        ).flatten() == digests,
{
    let count = chained_table_count(digests);
    lemma_table_figures(digests, count as int);
    lemma_tables_hold_prefix(digests, count);
    let aux = aux_digests(digests);
    assert(aux.take(min(count * CHAINED_DIGESTS_PER_TABLE, aux.len() as int)) =~= aux);
    assert(primary_digests(digests) + aux =~= digests);
}

/// The last bytes of a file or table, as many as a digest has.
pub open spec fn trailing_hash(bytes: Seq<u8>) -> Seq<u8> {
    bytes.skip(bytes.len() - DIGEST_SIZE)
}

/// Every table is vouched for by the one before it: the signed file ends with the
/// hash of the first chained table, and each chained table but the last ends with
/// the hash of the next.
pub proof fn law_tables_chain(digests: Seq<Seq<u8>>, i: int)
    requires
        0 <= i < chained_table_count(digests),
    ensures
        trailing_hash(signme_file(digests)) == sha256(chained_table(digests, 0))@,
        i + 1 < chained_table_count(digests) ==> trailing_hash(chained_table(digests, i)) == sha256(
            chained_table(digests, i + 1),
        )@,
        i + 1 == chained_table_count(digests) ==> chained_table(digests, i).last()
            == LAST_TABLE_MARK,
{
    assert(trailing_hash(signme_file(digests)) =~= sha256(chained_table(digests, 0))@);
    if i + 1 < chained_table_count(digests) {
        assert(trailing_hash(chained_table(digests, i)) =~= sha256(
            chained_table(digests, i + 1),
        )@);
    }
}

/// Where all digests have their proper length, every chained table but the last
/// fills `VIP_CHAINED_TABLE_SIZE` bytes, and the last, which ends in a single
/// byte, is shorter.
pub proof fn law_chained_table_sizes(digests: Seq<Seq<u8>>, i: int)
    requires
        all_digest_sized(digests),
        0 <= i < chained_table_count(digests),
    ensures
        i + 1 < chained_table_count(digests) ==> chained_table(digests, i).len()
            == VIP_CHAINED_TABLE_SIZE,
        i + 1 == chained_table_count(digests) ==> {
            &&& chained_table(digests, i).len() == 32 * (aux_digests(digests).len() - 255 * i) + 1
            &&& chained_table(digests, i).len() < VIP_CHAINED_TABLE_SIZE
        },
{
    lemma_table_figures(digests, i);
    lemma_table_bounds(digests, i);
    lemma_table_digests_sized(digests, i);
    lemma_flatten_digests_len(table_digests(digests, i));
}

/// Where byte string `i` stands when those before it are equally long.
proof fn lemma_flatten_at(tables: Seq<Seq<u8>>, size: nat, i: int)
    requires
        0 <= i < tables.len(),
        forall|j: int| 0 <= j < i ==> (#[trigger] tables[j]).len() == size,
    ensures
        size * i + tables[i].len() <= tables.flatten().len(),
        0 <= size * i,
        tables.flatten().subrange(size * i, size * i + tables[i].len()) == tables[i],
    decreases i,
{
    if i == 0 {
        assert(size * i == 0) by (nonlinear_arith)
            requires
                i == 0,
        ;
        assert(tables.flatten().subrange(0, tables[0].len() as int) =~= tables[0]);
    } else {
        let left = tables.drop_first();
        lemma_flatten_at(left, size, i - 1);
        assert(size * i == size + size * (i - 1)) by (nonlinear_arith);
        assert(tables.flatten().subrange(size * i, size * i + tables[i].len())
            =~= left.flatten().subrange(size * (i - 1), size * (i - 1) + left[i - 1].len()));
    }
}

/// Where all digests have their proper length, chained table `i` begins at a
/// multiple of `VIP_CHAINED_TABLE_SIZE` in the file of chained tables.
pub proof fn law_chained_table_offsets(digests: Seq<Seq<u8>>, i: int)
    requires
        all_digest_sized(digests),
        0 <= i < chained_table_count(digests),
    ensures
        chained_tables(digests).flatten().subrange(
            VIP_CHAINED_TABLE_SIZE * i,
            VIP_CHAINED_TABLE_SIZE * i + chained_table(digests, i).len(),
        ) == chained_table(digests, i),
{
    assert forall|j: int| 0 <= j < i implies (#[trigger] chained_tables(digests)[j]).len()
        == VIP_CHAINED_TABLE_SIZE as nat by {
        law_chained_table_sizes(digests, j);
    }
    lemma_flatten_at(chained_tables(digests), VIP_CHAINED_TABLE_SIZE as nat, i);
}

/// The digests of the first table are among all digests.
proof fn lemma_primary_digests_sized(digests: Seq<Seq<u8>>)
    requires
        all_digest_sized(digests),
    ensures
        all_digest_sized(primary_digests(digests)),
{
    let primary = primary_digests(digests);
    assert forall|j: int| 0 <= j < primary.len() implies (#[trigger] primary[j]).len()
        == DIGEST_SIZE by {
        assert(primary[j] == digests[j]);
    }
}

/// Where all digests have their proper length, the header of the signed file gives
/// the length of what follows it.
pub proof fn law_signed_file_size(digests: Seq<Seq<u8>>)
    requires
        all_digest_sized(digests),
    ensures
        first_table(digests).len() == first_table_size(digests),
        signme_file(digests).len() == ELF_HEADER_SIZE + first_table_size(digests),
        le_value(signme_file(digests).subrange(96, 104)) == signme_file(digests).len()
            - ELF_HEADER_SIZE,
        le_value(signme_file(digests).subrange(104, 112)) == signme_file(digests).len()
            - ELF_HEADER_SIZE,
{
    lemma_primary_digests_sized(digests);
    lemma_flatten_digests_len(primary_digests(digests));
    let size = first_table_size(digests);
    law_elf_header_locates_payload(size as u32);
    let header = elf_header(size);
    assert(signme_file(digests).subrange(96, 104) =~= header.subrange(96, 104));
    assert(signme_file(digests).subrange(104, 112) =~= header.subrange(104, 112));
}

/// Byte strings of the length of a digest can be told apart when joined.
proof fn lemma_flatten_digests_injective(a: Seq<Seq<u8>>, b: Seq<Seq<u8>>)
    requires
        all_digest_sized(a),
        all_digest_sized(b),
        a.flatten() == b.flatten(),
    ensures
        a == b,
    decreases a.len(),
{
    lemma_flatten_digests_len(a);
    lemma_flatten_digests_len(b);
    if a.len() > 0 {
        let x = a.flatten();
        assert(a[0] =~= x.take(32));
        assert(b[0] =~= x.take(32));
        assert(a.drop_first().flatten() =~= x.skip(32));
        assert(b.drop_first().flatten() =~= x.skip(32));
        lemma_flatten_digests_injective(a.drop_first(), b.drop_first());
        assert(a =~= seq![a[0]] + a.drop_first());
        assert(b =~= seq![b[0]] + b.drop_first());
    } else {
        assert(a =~= b);
    }
}

/// The digests of a chained table are among all digests.
proof fn lemma_table_digests_sized(digests: Seq<Seq<u8>>, i: int)
    requires
        all_digest_sized(digests),
        0 <= i < chained_table_count(digests),
    ensures
        all_digest_sized(table_digests(digests, i)),
{
    lemma_table_figures(digests, i);
    lemma_table_bounds(digests, i);
    let held = table_digests(digests, i);
    assert forall|j: int| 0 <= j < held.len() implies (#[trigger] held[j]).len() == DIGEST_SIZE by {
        let start = min(digests.len() as int, FIRST_TABLE_PAYLOAD_HASHES as int);
        assert(held[j] == digests[start + i * CHAINED_DIGESTS_PER_TABLE + j]);
    }
}

/// Whether no chained table of `a` has the hash of the chained table of `b` in the
/// same place without being that table.
pub open spec fn no_table_collision(a: Seq<Seq<u8>>, b: Seq<Seq<u8>>) -> bool {
    forall|i: int|
        0 <= i < chained_table_count(a) && i < chained_table_count(b) && sha256(
            #[trigger] chained_table(a, i),
        )@ == sha256(chained_table(b, i))@ ==> chained_table(a, i) == chained_table(b, i)
}

/// From one common chained table on, all chained tables are common.
proof fn lemma_chain_binds(a: Seq<Seq<u8>>, b: Seq<Seq<u8>>, i: int)
    requires
        all_digest_sized(a),
        all_digest_sized(b),
        no_table_collision(a, b),
        0 <= i < chained_table_count(a),
        i < chained_table_count(b),
        chained_table(a, i) == chained_table(b, i),
    ensures
        chained_table_count(a) == chained_table_count(b),
        forall|j: int|
            i <= j < chained_table_count(a) ==> #[trigger] table_digests(a, j) == table_digests(
                b,
                j,
            ),
    decreases chained_table_count(a) - i,
{
    law_chained_table_sizes(a, i);
    law_chained_table_sizes(b, i);
    lemma_table_digests_sized(a, i);
    lemma_table_digests_sized(b, i);
    let x = chained_table(a, i);
    if i + 1 < chained_table_count(a) {
        law_tables_chain(a, i);
        law_tables_chain(b, i);
        assert(chained_table(a, i + 1) == chained_table(b, i + 1));
        lemma_chain_binds(a, b, i + 1);
        assert(table_digests(a, i).flatten() =~= x.take(x.len() - 32));
        assert(table_digests(b, i).flatten() =~= x.take(x.len() - 32));
    } else {
        assert(table_digests(a, i).flatten() =~= x.take(x.len() - 1));
        assert(table_digests(b, i).flatten() =~= x.take(x.len() - 1));
    }
    lemma_flatten_digests_injective(table_digests(a, i), table_digests(b, i));
}

/// The signed file vouches for every digest, also for those in the chained tables:
/// two lists of digests of proper length that lead to the same signed file are the
/// same, unless two of their chained tables have the same hash, or a first chained
/// table has a hash of zeros, which stands for no table.
pub proof fn law_signed_file_binds_digests(a: Seq<Seq<u8>>, b: Seq<Seq<u8>>)
    requires
        all_digest_sized(a),
        all_digest_sized(b),
        signme_file(a) == signme_file(b),
        no_table_collision(a, b),
        chained_table_count(a) > 0 ==> sha256(chained_table(a, 0))@ != zeros(DIGEST_SIZE as nat),
        chained_table_count(b) > 0 ==> sha256(chained_table(b, 0))@ != zeros(DIGEST_SIZE as nat),
    ensures
        a == b,
{
    law_signed_file_size(a);
    law_signed_file_size(b);
    let file = signme_file(a);
    assert(elf_header(first_table_size(a)).len() == 232) by {
        law_elf_header_locates_payload(first_table_size(a) as u32);
    }
    assert(elf_header(first_table_size(b)).len() == 232) by {
        law_elf_header_locates_payload(first_table_size(b) as u32);
    }
    assert(first_table(a) =~= file.skip(232));
    assert(first_table(b) =~= file.skip(232));
    let table = first_table(a);
    let held = table.len() - 32;
    assert(chain_head_hash(a) =~= table.skip(held));
    assert(chain_head_hash(b) =~= table.skip(held));
    assert(primary_digests(a).flatten() =~= table.take(held));
    assert(primary_digests(b).flatten() =~= table.take(held));
    lemma_primary_digests_sized(a);
    lemma_primary_digests_sized(b);
    lemma_flatten_digests_injective(primary_digests(a), primary_digests(b));
    if chained_table_count(a) > 0 && chained_table_count(b) > 0 {
        assert(chained_table(a, 0) == chained_table(b, 0));
        lemma_chain_binds(a, b, 0);
    }
    let count = chained_table_count(a);
    assert(Seq::new(count, |i: int| table_digests(a, i)) =~= Seq::new(
        count,
        |i: int| table_digests(b, i),
    ));
    law_tables_hold_all_digests(a);
    law_tables_hold_all_digests(b);
}

/// The contents of byte vectors, one by one.
pub proof fn law_rows(vecs: Seq<Vec<u8>>, i: int)
    ensures
        rows(vecs).len() == vecs.len(),
        0 <= i < vecs.len() ==> rows(vecs)[i] == vecs[i]@,
{
}

/// Up to 53 digests need no chained table. More need as many tables as hold 255 of
/// the others each, and no more.
pub proof fn law_chained_table_count(digests: Seq<Seq<u8>>)
    ensures
        chained_tables(digests).len() == chained_table_count(digests),
        digests.len() <= 53 ==> chained_table_count(digests) == 0,
        digests.len() > 53 ==> 255 * (chained_table_count(digests) - 1) < digests.len() - 53 <= 255
            * chained_table_count(digests),
{
    lemma_table_figures(digests, 0);
}

/// The signed file, whatever the lengths of the digests: the header, for a payload
/// of 32 bytes for each of the first 53 digests and 32 more; those digests, joined
/// in order; and 32 bytes that are zeros where these were all digests, and otherwise
/// the hash of the first chained table.
pub proof fn law_signed_file_contents(digests: Seq<Seq<u8>>, held: int)
    requires
        held == (if digests.len() <= 53 {
            digests.len() as int
        } else {
            53
        }),
    ensures
        signme_file(digests).take(232) == elf_header((32 * (held + 1)) as nat),
        signme_file(digests).len() == 232 + digests.take(held).flatten().len() + 32,
        signme_file(digests).subrange(232, signme_file(digests).len() - 32) == digests.take(
            held,
        ).flatten(),
        digests.len() <= 53 ==> forall|k: int|
            signme_file(digests).len() - 32 <= k < signme_file(digests).len()
                ==> #[trigger] signme_file(digests)[k] == 0,
        digests.len() > 53 ==> signme_file(digests).skip(signme_file(digests).len() - 32) == sha256(
            chained_tables(digests)[0],
        )@,
{
    lemma_table_figures(digests, 0);
    law_elf_header_locates_payload(first_table_size(digests) as u32);
    let file = signme_file(digests);
    assert(file.take(232) =~= elf_header((32 * (held + 1)) as nat));
    assert(file.subrange(232, file.len() - 32) =~= digests.take(held).flatten());
    if digests.len() > 53 {
        assert(file.skip(file.len() - 32) =~= sha256(chained_tables(digests)[0])@);
    }
}

/// A chained table, whatever the lengths of the digests: its digests, which are the
/// 255, or in the last table fewer, that follow those of the tables before, joined
/// in order; and then the hash of the next table, or a single zero byte where no
/// digest is left.
pub proof fn law_chained_table_contents(digests: Seq<Seq<u8>>, i: int)
    requires
        0 <= i,
        53 + 255 * i < digests.len(),
    ensures
        0 <= i < chained_tables(digests).len(),
        53 + 255 * (i + 1) < digests.len() ==> {
            &&& i + 1 < chained_tables(digests).len()
            &&& chained_tables(digests)[i] == digests.subrange(
                53 + 255 * i,
                53 + 255 * (i + 1),
            ).flatten() + sha256(chained_tables(digests)[i + 1])@
        },
        digests.len() <= 53 + 255 * (i + 1) ==> {
            &&& i + 1 == chained_tables(digests).len()
            &&& chained_tables(digests)[i] == digests.skip(53 + 255 * i).flatten() + seq![0u8]
        },
{
    lemma_table_figures(digests, i);
    lemma_table_bounds(digests, i);
    lemma_table_digests_place(digests, i);
    if digests.len() <= 53 + 255 * (i + 1) {
        assert(digests.skip(53 + 255 * i) =~= table_digests(digests, i));
    }
}

/// A digest in its slot among others of its length.
proof fn lemma_flatten_slot(digests: Seq<Seq<u8>>, j: int)
    requires
        all_digest_sized(digests),
        0 <= j < digests.len(),
    ensures
        digests.flatten().len() == 32 * digests.len(),
        digests.flatten().subrange(32 * j, 32 * j + 32) == digests[j],
{
    lemma_flatten_digests_len(digests);
    lemma_flatten_at(digests, 32, j);
}

/// Where all digests have 32 bytes, digest `j` of the first 53 stands in the signed
/// file in slot `j` behind the header: its bytes from 232 + 32 j on.
pub proof fn law_signed_file_slots(digests: Seq<Seq<u8>>, j: int)
    requires
        forall|k: int| 0 <= k < digests.len() ==> (#[trigger] digests[k]).len() == 32,
        0 <= j < digests.len(),
        j < 53,
    ensures
        signme_file(digests).len() == 232 + 32 * ((if digests.len() <= 53 {
            digests.len() as int
        } else {
            53
        }) + 1),
        signme_file(digests).subrange(232 + 32 * j, 232 + 32 * j + 32) == digests[j],
{
    law_signed_file_size(digests);
    law_elf_header_locates_payload(first_table_size(digests) as u32);
    let primary = primary_digests(digests);
    lemma_primary_digests_sized(digests);
    lemma_flatten_slot(primary, j);
    assert(signme_file(digests).subrange(232 + 32 * j, 232 + 32 * j + 32)
        =~= primary.flatten().subrange(32 * j, 32 * j + 32));
}

/// Where all digests have 32 bytes, digest 53 + 255 i + j stands in slot `j` of
/// chained table `i`: its bytes from 32 j on.
pub proof fn law_chained_table_slots(digests: Seq<Seq<u8>>, i: int, j: int)
    requires
        forall|k: int| 0 <= k < digests.len() ==> (#[trigger] digests[k]).len() == 32,
        0 <= i,
        0 <= j < 255,
        53 + 255 * i + j < digests.len(),
    ensures
        i < chained_tables(digests).len(),
        chained_tables(digests)[i].subrange(32 * j, 32 * j + 32) == digests[53 + 255 * i + j],
{
    lemma_table_figures(digests, i);
    lemma_table_bounds(digests, i);
    lemma_table_digests_place(digests, i);
    lemma_table_digests_sized(digests, i);
    let held = table_digests(digests, i);
    lemma_flatten_slot(held, j);
    assert(chained_tables(digests)[i].subrange(32 * j, 32 * j + 32) =~= held.flatten().subrange(
        32 * j,
        32 * j + 32,
    ));
}

/// The length of joined byte strings, all but the last of them equally long.
proof fn lemma_flatten_equal_len(tables: Seq<Seq<u8>>, size: nat)
    requires
        tables.len() > 0,
        forall|j: int| 0 <= j < tables.len() - 1 ==> (#[trigger] tables[j]).len() == size,
    ensures
        tables.flatten().len() == size * (tables.len() - 1) + tables.last().len(),
    decreases tables.len(),
{
    let left = tables.drop_first();
    if tables.len() == 1 {
        assert(size * 0 == 0);
        assert(left.flatten() =~= Seq::empty());
    } else {
        lemma_flatten_equal_len(left, size);
        let n = tables.len() as int;
        assert(size * (n - 1) == size + size * (n - 2)) by (nonlinear_arith);
    }
}

/// Where a chained table stands in the file of chained tables, and how long that
/// file is.
proof fn lemma_tables_file(digests: Seq<Seq<u8>>, last: int)
    requires
        all_digest_sized(digests),
        digests.len() > 53,
        last == (digests.len() - 54) / 255,
    ensures
        chained_tables(digests).len() == last + 1,
        chained_tables(digests).flatten().len() == 8192 * last + 32 * (digests.len() - 53 - 255
            * last) + 1,
        forall|i: int|
            0 <= i < last ==> (#[trigger] chained_tables(digests)[i]).len() == 8192
                && chained_tables(digests).flatten().subrange(8192 * i, 8192 * (i + 1))
                == chained_tables(digests)[i],
        chained_tables(digests).flatten().skip(8192 * last) == chained_tables(digests)[last],
{
    lemma_table_figures(digests, last);
    let tables = chained_tables(digests);
    let file = tables.flatten();
    assert forall|i: int| 0 <= i < last implies (#[trigger] tables[i]).len() == 8192
        && file.subrange(8192 * i, 8192 * (i + 1)) == tables[i] by {
        law_chained_table_sizes(digests, i);
        law_chained_table_offsets(digests, i);
    }
    law_chained_table_sizes(digests, last);
    law_chained_table_offsets(digests, last);
    lemma_flatten_equal_len(tables, 8192);
    assert(file.skip(8192 * last) =~= file.subrange(
        8192 * last,
        8192 * last + tables[last].len(),
    ));
}

/// The file of chained tables, where all digests have 32 bytes, byte for byte:
/// digest 53 + 255 i + j stands at 8192 i + 32 j, and the file ends in a zero byte
/// right behind the last digest.
pub proof fn law_tables_file_slots(digests: Seq<Seq<u8>>, i: int, j: int)
    requires
        forall|k: int| 0 <= k < digests.len() ==> (#[trigger] digests[k]).len() == 32,
        0 <= i,
        0 <= j < 255,
        53 + 255 * i + j < digests.len(),
    ensures
        ({
            let file = chained_tables(digests).flatten();
            &&& file.subrange(8192 * i + 32 * j, 8192 * i + 32 * j + 32) == digests[53 + 255 * i
                + j]
            &&& 53 + 255 * i + j + 1 == digests.len() ==> {
                &&& file.len() == 8192 * i + 32 * j + 33
                &&& file[file.len() - 1] == 0
            }
        }),
{
    let last = (digests.len() - 54) / 255;
    assert(all_digest_sized(digests));
    lemma_tables_file(digests, last);
    law_chained_table_slots(digests, i, j);
    lemma_table_figures(digests, i);
    let tables = chained_tables(digests);
    let file = tables.flatten();
    if i < last {
        law_chained_table_slots(digests, i, j);
        assert(file.subrange(8192 * i, 8192 * (i + 1)).subrange(32 * j, 32 * j + 32)
            =~= file.subrange(8192 * i + 32 * j, 8192 * i + 32 * j + 32));
    } else {
        assert(i == last);
        law_chained_table_sizes(digests, i);
        assert(file.skip(8192 * i).subrange(32 * j, 32 * j + 32) =~= file.subrange(
            8192 * i + 32 * j,
            8192 * i + 32 * j + 32,
        ));
        law_tables_chain(digests, i);
        assert(file.skip(8192 * i).last() == file.last());
    }
}

/// The file of chained tables, where all digests have 32 bytes, by its own bytes: it
/// comes in pieces of 8192 bytes, the last of them shorter; each piece but the last
/// ends with the hash of the piece behind it; and the signed file ends with the hash
/// of the first piece.
pub proof fn law_tables_file_chain(digests: Seq<Seq<u8>>, i: int, last: int)
    requires
        forall|k: int| 0 <= k < digests.len() ==> (#[trigger] digests[k]).len() == 32,
        digests.len() > 53,
        last == (digests.len() - 54) / 255,
        0 <= i < last,
    ensures
        ({
            let file = chained_tables(digests).flatten();
            let signed = signme_file(digests);
            let next_end = if i + 1 < last {
                8192 * (i + 2)
            } else {
                file.len() as int
            };
            &&& 8192 * last < file.len() < 8192 * (last + 1)
            &&& file.subrange(8192 * i + 8160, 8192 * i + 8192) == sha256(
                file.subrange(8192 * (i + 1), next_end),
            )@
            &&& signed.skip(signed.len() - 32) == sha256(file.take(8192))@
        }),
{
    assert(all_digest_sized(digests));
    lemma_tables_file(digests, last);
    let tables = chained_tables(digests);
    let file = tables.flatten();
    law_tables_chain(digests, i);
    assert(tables[i].len() == 8192);
    assert(trailing_hash(tables[i]) =~= tables[i].subrange(8160, 8192));
    assert(tables[i].subrange(8160, 8192) =~= file.subrange(8192 * i + 8160, 8192 * i + 8192));
    if i + 1 < last {
        assert(tables[i + 1].len() == 8192);
    } else {
        assert(file.subrange(8192 * last, file.len() as int) =~= file.skip(8192 * last));
    }
    assert(tables[0].len() == 8192);
    assert(file.take(8192) =~= file.subrange(0, 8192));
    assert(signme_file(digests).skip(signme_file(digests).len() - 32) =~= trailing_hash(
        signme_file(digests),
    ));
}

/// Where all digests have 32 bytes and one chained table is enough, the signed file
/// ends with the hash of the whole file of chained tables.
pub proof fn law_single_table_file(digests: Seq<Seq<u8>>)
    requires
        forall|k: int| 0 <= k < digests.len() ==> (#[trigger] digests[k]).len() == 32,
        53 < digests.len() <= 308,
    ensures
        signme_file(digests).skip(signme_file(digests).len() - 32) == sha256(
            chained_tables(digests).flatten(),
        )@,
{
    assert(all_digest_sized(digests));
    lemma_tables_file(digests, 0);
    law_tables_chain(digests, 0);
    let file = chained_tables(digests).flatten();
    assert(file.skip(0) =~= file);
    assert(signme_file(digests).skip(signme_file(digests).len() - 32) =~= trailing_hash(
        signme_file(digests),
    ));
}

} // verus!
