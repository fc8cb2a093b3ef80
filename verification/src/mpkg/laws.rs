//! What the writer lays out, the reader reads back.

use vstd::prelude::*;
use crate::mpkg::format::{u32_le, spec_entries, spec_entry, EntryStep, spec_read_directory,
    DirectorySpec, ranges_ok, entry_end, path_taken, MAX_ENTRY_COUNT, MAX_PATH_LENGTH, MAGIC_LENGTH,
    entries_view, entry_view, MpkgEntry};
use crate::mpkg::layout::{u32_bytes, entry_bytes, table_bytes, table_len, payload_total,
    spec_total_size, entry_offset, spec_directory_bytes, pending_ok, path_len, writable_path,
    lemma_prefix_sums, lemma_take_step, lemma_table_bytes_step, staged_matches, FOUR_GIB, MpkgBuilder, SourceModel};
use crate::mpkg::path::{archive_text_ok};
use crate::mpkg::version::{ContainerVersion, magic_bytes};

verus! {

/// Entries as the reader returns them: path, payload offset and size.
pub open spec fn read_back(es: Seq<(Seq<char>, int)>) -> Seq<(Seq<char>, int, int)> {
    Seq::new(es.len(), |j: int| (es[j].0, entry_offset(es, j), es[j].1))
}

pub proof fn lemma_u32_round_trip(b: Seq<u8>, p: int, v: int)
    requires
        0 <= v < 4294967296,
        0 <= p,
        p + 4 <= b.len(),
        b.subrange(p, p + 4) == u32_bytes(v),
    ensures
        u32_le(b, p) == v,
{
    assert(b[p] == u32_bytes(v)[0]);
    assert(b[p + 1] == u32_bytes(v)[1]);
    assert(b[p + 2] == u32_bytes(v)[2]);
    assert(b[p + 3] == u32_bytes(v)[3]);
    let x = v as u32;
    assert(x == v);
    assert((x % 256) as int + 256 * ((x / 256) % 256) as int + 65536 * ((x / 65536) % 256) as int
        + 16777216 * ((x / 16777216) % 256) as int == x as int) by (bit_vector);
}

pub proof fn lemma_table_len(es: Seq<(Seq<char>, int)>)
    ensures
        table_bytes(es).len() == table_len(es),
    decreases es.len(),
{
    if es.len() > 0 {
        lemma_table_len(es.drop_last());
    }
}

/// The table of the first `k` entries starts the table of all entries.
pub proof fn lemma_table_prefix(es: Seq<(Seq<char>, int)>, k: int)
    requires
        0 <= k <= es.len(),
    ensures
        table_bytes(es.take(k)).len() <= table_bytes(es).len(),
        table_bytes(es).subrange(0, table_bytes(es.take(k)).len() as int) == table_bytes(es.take(k)),
    decreases es.len(),
{
    if k == es.len() {
        assert(es.take(k) =~= es);
        assert(table_bytes(es).subrange(0, table_bytes(es).len() as int) =~= table_bytes(es));
    } else {
        let d = es.drop_last();
        assert(d.take(k) =~= es.take(k));
        lemma_table_prefix(d, k);
        let whole = table_bytes(es);
        assert(whole == table_bytes(d) + entry_bytes(es.last().0, payload_total(d), es.last().1));
        assert(whole.subrange(0, table_bytes(es.take(k)).len() as int) =~= table_bytes(d).subrange(
            0,
            table_bytes(es.take(k)).len() as int,
        ));
    }
}

/// An entry's bytes at `pos` read back as that entry.
pub proof fn lemma_parse_entry_bytes(
    b: Seq<u8>,
    pos: int,
    path: Seq<char>,
    off: int,
    size: int,
    prior: Seq<(Seq<char>, int, int)>,
)
    requires
        0 <= pos,
        pos + entry_bytes(path, off, size).len() <= b.len(),
        b.subrange(pos, pos + entry_bytes(path, off, size).len()) == entry_bytes(path, off, size),
        writable_path(path),
        !path_taken(prior, path),
        0 <= off < 4294967296,
        0 <= size < 4294967296,
    ensures
        spec_entry(b, prior, pos) == EntryStep::Parsed(prior.push((path, off, size)), pos + 12 + path_len(path)),
{
    let eb = entry_bytes(path, off, size);
    let plen = path_len(path);
    let enc = vstd::utf8::encode_utf8(path);
    assert(eb.len() == 12 + plen);
    assert(plen > 0);
    assert(b.subrange(pos, pos + 4) =~= u32_bytes(plen)) by {
        assert(b.subrange(pos, pos + 4) =~= eb.subrange(0, 4));
    }
    lemma_u32_round_trip(b, pos, plen);
    assert(b.subrange(pos + 4, pos + 4 + plen) =~= enc) by {
        assert(b.subrange(pos + 4, pos + 4 + plen) =~= eb.subrange(4, 4 + plen));
    }
    assert(b.subrange(pos + 4 + plen, pos + 8 + plen) =~= u32_bytes(off)) by {
        assert(b.subrange(pos + 4 + plen, pos + 8 + plen) =~= eb.subrange(4 + plen, 8 + plen));
    }
    assert(b.subrange(pos + 8 + plen, pos + 12 + plen) =~= u32_bytes(size)) by {
        assert(b.subrange(pos + 8 + plen, pos + 12 + plen) =~= eb.subrange(8 + plen, 12 + plen));
    }
    lemma_u32_round_trip(b, pos + 4 + plen, off);
    lemma_u32_round_trip(b, pos + 8 + plen, size);
    vstd::utf8::encode_utf8_valid_utf8(path);
    vstd::utf8::encode_utf8_decode_utf8(path);
}

/// Entry `k` lies at its table position inside the table of all entries.
proof fn lemma_entry_in_table(es: Seq<(Seq<char>, int)>, k: int)
    requires
        pending_ok(es),
        0 <= k < es.len(),
    ensures
        ({
            let t = table_bytes(es);
            let eb = entry_bytes(es[k].0, payload_total(es.take(k)), es[k].1);
            let tl = table_len(es.take(k));
            &&& 0 <= tl
            &&& tl + eb.len() <= t.len()
            &&& t.subrange(tl, tl + eb.len()) == eb
            &&& table_len(es.take(k + 1)) == tl + 12 + path_len(es[k].0)
            &&& eb.len() == 12 + path_len(es[k].0)
        }),
{
    let t = table_bytes(es);
    let tk = table_bytes(es.take(k));
    let tk1 = table_bytes(es.take(k + 1));
    let eb = entry_bytes(es[k].0, payload_total(es.take(k)), es[k].1);
    lemma_table_bytes_step(es, k);
    lemma_table_prefix(es, k + 1);
    lemma_table_len(es.take(k));
    lemma_prefix_sums(es, k, k);
    lemma_take_step(es, k);
    let tl = table_len(es.take(k));
    assert(tk1 == tk + eb);
    assert(t.subrange(0, tk1.len() as int) == tk1);
    assert(t.subrange(tl, tl + eb.len()) =~= eb) by {
        assert forall|i: int| 0 <= i < eb.len() implies t.subrange(tl, tl + eb.len())[i] == eb[i] by {
            assert(t.subrange(0, tk1.len() as int)[tl + i] == tk1[tl + i]);
        }
    }
}

/// Entry `k` lies at its table position in the container bytes.
proof fn lemma_entry_region(
    version: ContainerVersion,
    es: Seq<(Seq<char>, int)>,
    payload: Seq<u8>,
    k: int,
)
    requires
        pending_ok(es),
        spec_total_size(es) < FOUR_GIB,
        payload.len() == payload_total(es),
        0 <= k < es.len(),
    ensures
        ({
            let b = spec_directory_bytes(version, es) + payload;
            let eb = entry_bytes(es[k].0, payload_total(es.take(k)), es[k].1);
            let pos = 16 + table_len(es.take(k));
            &&& 16 <= pos
            &&& pos + eb.len() <= b.len()
            &&& b.subrange(pos, pos + eb.len()) == eb
            &&& 16 + table_len(es.take(k + 1)) == pos + 12 + path_len(es[k].0)
            &&& 0 <= payload_total(es.take(k)) < 4294967296
            &&& 0 <= es[k].1 < 4294967296
        }),
{
    let b = spec_directory_bytes(version, es) + payload;
    let header = u32_bytes(8) + magic_bytes(version) + u32_bytes(es.len() as int);
    let t = table_bytes(es);
    assert(b =~= header + t + payload);
    assert(header.len() == 16);
    lemma_entry_in_table(es, k);
    lemma_table_len(es);
    let eb = entry_bytes(es[k].0, payload_total(es.take(k)), es[k].1);
    let tl = table_len(es.take(k));
    let pos = 16 + tl;
    assert(b.subrange(pos, pos + eb.len()) =~= t.subrange(tl, tl + eb.len()));
    lemma_fields_small(es, k);
}

/// The offset and size of entry `k` fit in 32 bits.
proof fn lemma_fields_small(es: Seq<(Seq<char>, int)>, k: int)
    requires
        pending_ok(es),
        spec_total_size(es) < FOUR_GIB,
        0 <= k < es.len(),
    ensures
        0 <= payload_total(es.take(k)) < 4294967296,
        0 <= es[k].1 < 4294967296,
{
    lemma_take_step(es, k);
    lemma_prefix_sums(es, k + 1, es.len() as int);
    lemma_prefix_sums(es, k, k);
    lemma_prefix_sums(es, es.len() as int, es.len() as int);
    assert(es.take(es.len() as int) =~= es);
}

proof fn lemma_read_entry(
    version: ContainerVersion,
    es: Seq<(Seq<char>, int)>,
    payload: Seq<u8>,
    k: int,
)
    requires
        pending_ok(es),
        spec_total_size(es) < FOUR_GIB,
        payload.len() == payload_total(es),
        0 <= k < es.len(),
        spec_entries(spec_directory_bytes(version, es) + payload, k as nat) == EntryStep::Parsed(
            read_back(es).take(k),
            16 + table_len(es.take(k)),
        ),
    ensures
        spec_entries(spec_directory_bytes(version, es) + payload, (k + 1) as nat)
            == EntryStep::Parsed(read_back(es).take(k + 1), 16 + table_len(es.take(k + 1))),
{
    let b = spec_directory_bytes(version, es) + payload;
    lemma_entry_region(version, es, payload, k);
    let path = es[k].0;
    let off = payload_total(es.take(k));
    let size = es[k].1;
    let prior = read_back(es).take(k);
    assert(!path_taken(prior, path)) by {
        if path_taken(prior, path) {
            let j = choose|j: int| 0 <= j < prior.len() && (#[trigger] prior[j]).0 == path;
            assert(es[j].0 == path);
            assert(es[j].0 != es[k].0);
        }
    }
    assert(writable_path(path));
    lemma_parse_entry_bytes(b, 16 + table_len(es.take(k)), path, off, size, prior);
    assert(prior.push((path, off, size)) =~= read_back(es).take(k + 1));
}

proof fn lemma_read_entries(
    version: ContainerVersion,
    es: Seq<(Seq<char>, int)>,
    payload: Seq<u8>,
    k: int,
)
    requires
        pending_ok(es),
        spec_total_size(es) < FOUR_GIB,
        payload.len() == payload_total(es),
        0 <= k <= es.len(),
    ensures
        spec_entries(spec_directory_bytes(version, es) + payload, k as nat) == EntryStep::Parsed(
            read_back(es).take(k),
            16 + table_len(es.take(k)),
        ),
    decreases k,
{
    if k == 0 {
        assert(read_back(es).take(0) =~= Seq::<(Seq<char>, int, int)>::empty());
        assert(es.take(0) =~= Seq::<(Seq<char>, int)>::empty());
    } else {
        lemma_read_entries(version, es, payload, k - 1);
        lemma_read_entry(version, es, payload, k - 1);
    }
}

/// Round trip of the container directory: the header and entry table that
/// the writer lays out for pending entries, followed by their payloads, read
/// back as a valid directory holding the version's magic, the payload start
/// right after the table, and each entry's path, offset and size. The writer
/// accepts up to `u32::MAX` entries while the reader refuses more than one
/// million, so the law holds for at most one million entries.
pub proof fn lemma_directory_round_trip(
    version: ContainerVersion,
    es: Seq<(Seq<char>, int)>,
    payload: Seq<u8>,
)
    requires
        pending_ok(es),
        es.len() <= MAX_ENTRY_COUNT,
        spec_total_size(es) < FOUR_GIB,
        payload.len() == payload_total(es),
    ensures
        spec_read_directory(spec_directory_bytes(version, es) + payload, spec_total_size(es))
            == DirectorySpec::Valid(magic_bytes(version), 16 + table_len(es), read_back(es)),
{
    let b = spec_directory_bytes(version, es) + payload;
    let header = u32_bytes(8) + magic_bytes(version) + u32_bytes(es.len() as int);
    let t = table_bytes(es);
    lemma_table_len(es);
    lemma_prefix_sums(es, es.len() as int, es.len() as int);
    assert(es.take(es.len() as int) =~= es);
    assert(b =~= header + t + payload);
    assert(b.len() == spec_total_size(es));
    assert(b.subrange(0, 4) =~= u32_bytes(8));
    lemma_u32_round_trip(b, 0, 8);
    assert(b.subrange(12, 16) =~= u32_bytes(es.len() as int));
    lemma_u32_round_trip(b, 12, es.len() as int);
    assert(b.subrange(4, 12) =~= magic_bytes(version));
    lemma_read_entries(version, es, payload, es.len() as int);
    assert(read_back(es).take(es.len() as int) =~= read_back(es));
    let rb = read_back(es);
    let payload_len = spec_total_size(es) - (16 + table_len(es));
    assert(payload_len == payload_total(es));
    assert forall|i: int| 0 <= i < rb.len() implies entry_end(#[trigger] rb[i]) <= payload_len by {
        lemma_take_step(es, i);
        lemma_prefix_sums(es, i + 1, es.len() as int);
    }
    assert forall|i: int, j: int|
        0 <= i < j < rb.len() && (#[trigger] rb[i]).2 > 0 && (#[trigger] rb[j]).2 > 0 implies entry_end(rb[i])
            <= rb[j].1 || entry_end(rb[j]) <= rb[i].1 by {
        lemma_take_step(es, i);
        lemma_prefix_sums(es, i + 1, j);
    }
    assert(ranges_ok(rb, payload_len));
}

/// Paths of parsed entries are safe archive paths, pairwise distinct.
pub open spec fn paths_safe_and_distinct(es: Seq<(Seq<char>, int, int)>) -> bool {
    &&& forall|i: int| 0 <= i < es.len() ==> archive_text_ok(#[trigger] es[i].0)
    &&& forall|i: int, j: int| 0 <= i < j < es.len() ==> (#[trigger] es[i]).0 != (#[trigger] es[j]).0
}

proof fn lemma_entries_safe(b: Seq<u8>, n: nat)
    ensures
        spec_entries(b, n) matches EntryStep::Parsed(es, pos) ==> paths_safe_and_distinct(es) && es.len() == n,
    decreases n,
{
    if n > 0 {
        lemma_entries_safe(b, (n - 1) as nat);
        if let EntryStep::Parsed(es0, pos0) = spec_entries(b, (n - 1) as nat) {
            if let EntryStep::Parsed(es, pos) = spec_entry(b, es0, pos0) {
                let plen = u32_le(b, pos0);
                let pb = b.subrange(pos0 + 4, pos0 + 4 + plen);
                let path = vstd::utf8::decode_utf8(pb);
                vstd::utf8::decode_utf8_encode_utf8(pb);
                assert(es == es0.push((path, u32_le(b, pos0 + 4 + plen), u32_le(b, pos0 + 8 + plen))));
                assert(archive_text_ok(path));
                assert forall|i: int, j: int| 0 <= i < j < es.len() implies (#[trigger] es[i]).0 != (#[trigger] es[j]).0 by {
                    if j == es.len() - 1 {
                        if es[i].0 == path {
                            assert(path_taken(es0, path));
                        }
                    }
                }
            }
        }
    }
}

/// An accepted package directory names each entry once, by a safe relative
/// archive path, and every entry's byte range lies inside the payload
/// without overlapping another non-empty entry.
pub proof fn lemma_accepted_directory(b: Seq<u8>, file_len: int)
    ensures
        spec_read_directory(b, file_len) matches DirectorySpec::Valid(magic, payload_start, es) ==> {
            &&& paths_safe_and_distinct(es)
            &&& es.len() <= MAX_ENTRY_COUNT
            &&& payload_start <= file_len
            &&& ranges_ok(es, file_len - payload_start)
            &&& magic.len() == 8
        },
{
    if b.len() >= 16 && u32_le(b, 0) == MAGIC_LENGTH && u32_le(b, 12) <= MAX_ENTRY_COUNT {
        lemma_entries_safe(b, u32_le(b, 12) as nat);
    }
}

/// Law: entries read back from what the writer laid out pass the writer's
/// own staged check, with the version it wrote.
pub proof fn lemma_read_back_passes_staged_check(
    version: ContainerVersion,
    es: Seq<(Seq<char>, int)>,
    staged: Seq<MpkgEntry>,
)
    requires
        entries_view(staged) == read_back(es),
    ensures
        staged_matches(es, version, version, staged),
{
    assert(staged.len() == es.len()) by {
        assert(entries_view(staged).len() == staged.len());
    }
    assert forall|k: int| 0 <= k < es.len() implies (#[trigger] staged[k]).path@ == es[k].0 && staged[k].size
        == es[k].1 by {
        assert(entries_view(staged)[k] == entry_view(staged[k]));
        assert(read_back(es)[k] == (es[k].0, entry_offset(es, k), es[k].1));
    }
}

/// The payloads of the entries, one after another.
pub open spec fn payload_bytes(datas: Seq<Seq<u8>>) -> Seq<u8>
    decreases datas.len(),
{
    if datas.len() == 0 {
        Seq::empty()
    } else {
        payload_bytes(datas.drop_last()) + datas.last()
    }
}

/// Each pending entry's size is the length of its payload.
pub open spec fn sizes_match(es: Seq<(Seq<char>, int)>, datas: Seq<Seq<u8>>) -> bool {
    &&& es.len() == datas.len()
    &&& forall|k: int| 0 <= k < es.len() ==> (#[trigger] es[k]).1 == datas[k].len()
}

/// The payloads of sized entries fill exactly their total size.
proof fn lemma_payload_len(es: Seq<(Seq<char>, int)>, datas: Seq<Seq<u8>>)
    requires
        sizes_match(es, datas),
    ensures
        payload_bytes(datas).len() == payload_total(es),
    decreases es.len(),
{
    if es.len() > 0 {
        assert(sizes_match(es.drop_last(), datas.drop_last()));
        lemma_payload_len(es.drop_last(), datas.drop_last());
    }
}

/// The payloads of the first `j` entries start the payloads of all entries.
proof fn lemma_payload_prefix(datas: Seq<Seq<u8>>, j: int)
    requires
        0 <= j <= datas.len(),
    ensures
        payload_bytes(datas.take(j)).len() <= payload_bytes(datas).len(),
        payload_bytes(datas).subrange(0, payload_bytes(datas.take(j)).len() as int) == payload_bytes(datas.take(j)),
    decreases datas.len(),
{
    if j == datas.len() {
        assert(datas.take(j) =~= datas);
        assert(payload_bytes(datas).subrange(0, payload_bytes(datas).len() as int) =~= payload_bytes(datas));
    } else {
        let d = datas.drop_last();
        assert(d.take(j) =~= datas.take(j));
        lemma_payload_prefix(d, j);
        assert(payload_bytes(datas).subrange(0, payload_bytes(datas.take(j)).len() as int) =~= payload_bytes(
            d,
        ).subrange(0, payload_bytes(datas.take(j)).len() as int));
    }
}

/// Entry `k`'s payload lies at its offset among the payloads.
proof fn lemma_payload_region(es: Seq<(Seq<char>, int)>, datas: Seq<Seq<u8>>, k: int)
    requires
        sizes_match(es, datas),
        0 <= k < es.len(),
    ensures
        0 <= entry_offset(es, k),
        0 <= es[k].1,
        entry_offset(es, k) + es[k].1 <= payload_bytes(datas).len(),
        payload_bytes(datas).subrange(entry_offset(es, k), entry_offset(es, k) + es[k].1) == datas[k],
{
    let before = datas.take(k);
    let upto = datas.take(k + 1);
    assert(sizes_match(es.take(k), before));
    lemma_payload_len(es.take(k), before);
    assert(upto.drop_last() =~= before);
    assert(upto.last() == datas[k]);
    lemma_payload_prefix(datas, k + 1);
    let pb = payload_bytes(datas);
    let off = entry_offset(es, k);
    assert(payload_bytes(upto) == payload_bytes(before) + datas[k]);
    assert(pb.subrange(off, off + es[k].1) =~= payload_bytes(upto).subrange(off, off + es[k].1));
    assert(payload_bytes(upto).subrange(off, off + es[k].1) =~= datas[k]);
}

/// Round trip of a whole container: the header and table that the writer
/// lays out, followed by each entry's payload in order, read back as a
/// valid directory, and the bytes at each entry's region (the payload start
/// plus its offset, for its size) are that entry's payload. As for the
/// directory alone, it holds for at most one million entries.
pub proof fn lemma_package_round_trip(version: ContainerVersion, es: Seq<(Seq<char>, int)>, datas: Seq<Seq<u8>>)
    requires
        pending_ok(es),
        es.len() <= MAX_ENTRY_COUNT,
        spec_total_size(es) < FOUR_GIB,
        sizes_match(es, datas),
    ensures
        ({
            let package = spec_directory_bytes(version, es) + payload_bytes(datas);
            let start = 16 + table_len(es);
            &&& package.len() == spec_total_size(es)
            &&& spec_read_directory(package, spec_total_size(es)) == DirectorySpec::Valid(
                magic_bytes(version),
                start,
                read_back(es),
            )
            &&& forall|k: int|
                0 <= k < es.len() ==> package.subrange(
                    start + (#[trigger] read_back(es)[k]).1,
                    start + read_back(es)[k].1 + read_back(es)[k].2,
                ) == datas[k]
        }),
{
    let package = spec_directory_bytes(version, es) + payload_bytes(datas);
    let dir = spec_directory_bytes(version, es);
    let start = 16 + table_len(es);
    lemma_payload_len(es, datas);
    lemma_table_len(es);
    assert(dir.len() == start);
    lemma_directory_round_trip(version, es, payload_bytes(datas));
    assert forall|k: int| 0 <= k < es.len() implies package.subrange(
        start + (#[trigger] read_back(es)[k]).1,
        start + read_back(es)[k].1 + read_back(es)[k].2,
    ) == datas[k] by {
        lemma_payload_region(es, datas, k);
        let off = entry_offset(es, k);
        assert(package.subrange(start + off, start + off + es[k].1) =~= payload_bytes(datas).subrange(
            off,
            off + es[k].1,
        ));
    }
}

/// The bytes an entry carries in memory (empty for a file entry).
pub open spec fn held_bytes(s: SourceModel) -> Seq<u8> {
    match s {
        SourceModel::Bytes(b) => b,
        SourceModel::File(_, _) => Seq::empty(),
    }
}

/// Round trip of a builder whose entries all carry bytes in memory: its
/// header and table followed by those bytes in order read back as a valid
/// directory with the builder's version and entries, and each entry's
/// region holds exactly the bytes that were added for it.
pub proof fn lemma_builder_round_trip(b: MpkgBuilder)
    requires
        pending_ok(b.view_entries()),
        b.view_entries().len() <= MAX_ENTRY_COUNT,
        spec_total_size(b.view_entries()) < FOUR_GIB,
        forall|k: int| 0 <= k < b.view_sources().len() ==> #[trigger] b.view_sources()[k] is Bytes,
    ensures
        ({
            let es = b.view_entries();
            let datas = Seq::new(es.len(), |k: int| held_bytes(b.view_sources()[k]));
            let package = spec_directory_bytes(b.spec_version(), es) + payload_bytes(datas);
            let start = 16 + table_len(es);
            &&& spec_read_directory(package, spec_total_size(es)) == DirectorySpec::Valid(
                magic_bytes(b.spec_version()),
                start,
                read_back(es),
            )
            &&& forall|k: int|
                0 <= k < es.len() ==> package.subrange(
                    start + (#[trigger] read_back(es)[k]).1,
                    start + read_back(es)[k].1 + read_back(es)[k].2,
                ) == b.view_sources()[k]->Bytes_0
        }),
{
    b.lemma_sizes_of_sources();
    let es = b.view_entries();
    let datas = Seq::new(es.len(), |k: int| held_bytes(b.view_sources()[k]));
    assert forall|k: int| 0 <= k < es.len() implies (#[trigger] es[k]).1 == datas[k].len() by {
        assert(b.view_sources()[k] is Bytes);
    }
    lemma_package_round_trip(b.spec_version(), es, datas);
    assert forall|k: int| 0 <= k < es.len() implies #[trigger] datas[k] == b.view_sources()[k]->Bytes_0 by {
        assert(b.view_sources()[k] is Bytes);
    }
}

} // verus!
