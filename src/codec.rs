//! The container format: a magic marker, a little-endian `u64` manifest
//! length, the manifest bytes, then asset records of a `u32` path length,
//! the path bytes, a `u64` content length and the content bytes.

use vstd::prelude::*;
use vstd::bytes::*;
use vstd::slice::*;

verus! {

/// Longest asset path, in bytes, that a record may carry.
pub const MAX_PATH_LEN: u32 = 4096;

/// Content lengths above this are skipped during extraction, never loaded.
pub const MAX_CONTENT_LEN: u64 = 500_000_000;

/// Size of the fixed header: magic marker and manifest length.
pub const HEADER_LEN: usize = 12;

/// The four bytes `RSKN` that open every archive.
pub open spec fn magic() -> Seq<u8> {
    seq![0x52u8, 0x53u8, 0x4Bu8, 0x4Eu8]
}

/// The bytes of one asset record.
pub open spec fn record_bytes(path: Seq<u8>, content: Seq<u8>) -> Seq<u8> {
    spec_u32_to_le_bytes(path.len() as u32) + path + spec_u64_to_le_bytes(content.len() as u64)
        + content
}

/// The bytes of a sequence of asset records, in order.
pub open spec fn records_bytes(assets: Seq<(Seq<u8>, Seq<u8>)>) -> Seq<u8>
    decreases assets.len(),
{
    if assets.len() == 0 {
        Seq::empty()
    } else {
        record_bytes(assets[0].0, assets[0].1) + records_bytes(assets.drop_first())
    }
}

/// The bytes of a whole archive.
pub open spec fn archive_bytes(manifest: Seq<u8>, assets: Seq<(Seq<u8>, Seq<u8>)>) -> Seq<u8> {
    magic() + spec_u64_to_le_bytes(manifest.len() as u64) + manifest + records_bytes(assets)
}

/// A path that stays inside the directory it is joined to: not absolute and
/// without a `..` segment.
pub open spec fn is_confined_path(p: Seq<u8>) -> bool {
    &&& !(p.len() > 0 && p[0] == 0x2Fu8)
    &&& !exists|i: int|
        #![trigger p[i]]
        0 <= i && i + 1 < p.len() && (i == 0 || p[i - 1] == 0x2Fu8) && p[i] == 0x2Eu8 && p[i
            + 1] == 0x2Eu8 && (i + 2 == p.len() || p[i + 2] == 0x2Fu8)
}

/// A path that a record may carry: its length within `(0, MAX_PATH_LEN]`
/// and confined to the output directory.
pub open spec fn is_valid_asset_path(p: Seq<u8>) -> bool {
    0 < p.len() <= MAX_PATH_LEN && is_confined_path(p)
}

/// What tolerant extraction recovers from `data` starting at offset `pos`.
/// It stops at a short read or a path length outside `(0, MAX_PATH_LEN]`,
/// skips records whose content length exceeds `MAX_CONTENT_LEN` and records
/// whose path is not confined, and keeps the others.
pub open spec fn decode_records(data: Seq<u8>, pos: int) -> Seq<(Seq<u8>, Seq<u8>)>
    decreases data.len() - pos,
{
    if pos < 0 || pos + 4 > data.len() {
        Seq::empty()
    } else {
        let plen = spec_u32_from_le_bytes(data.subrange(pos, pos + 4)) as int;
        if plen == 0 || plen > MAX_PATH_LEN || pos + 4 + plen + 8 > data.len() {
            Seq::empty()
        } else {
            let path = data.subrange(pos + 4, pos + 4 + plen);
            let cstart = pos + 12 + plen;
            let clen = spec_u64_from_le_bytes(data.subrange(pos + 4 + plen, cstart)) as int;
            if cstart + clen > data.len() {
                Seq::empty()
            } else if clen > MAX_CONTENT_LEN || !is_confined_path(path) {
                decode_records(data, cstart + clen)
            } else {
                seq![(path, data.subrange(cstart, cstart + clen))] + decode_records(
                    data,
                    cstart + clen,
                )
            }
        }
    }
}

/// One asset: its relative path and its content, both as bytes.
pub struct AssetEntry {
    pub path: Vec<u8>,
    pub content: Vec<u8>,
}

impl View for AssetEntry {
    type V = (Seq<u8>, Seq<u8>);

    open spec fn view(&self) -> (Seq<u8>, Seq<u8>) {
        (self.path@, self.content@)
    }
}

/// The abstract contents of a list of assets.
pub open spec fn assets_view(v: Seq<AssetEntry>) -> Seq<(Seq<u8>, Seq<u8>)> {
    v.map_values(|a: AssetEntry| a@)
}

/// The records of a list with one more asset end with that asset's record.
pub proof fn lemma_records_bytes_push(assets: Seq<(Seq<u8>, Seq<u8>)>, a: (Seq<u8>, Seq<u8>))
    ensures
        records_bytes(assets.push(a)) == records_bytes(assets) + record_bytes(a.0, a.1),
    decreases assets.len(),
{
    if assets.len() == 0 {
        let e = Seq::<(Seq<u8>, Seq<u8>)>::empty();
        assert(assets.push(a).drop_first() =~= e);
        assert(records_bytes(e) == Seq::<u8>::empty());
        assert(records_bytes(assets) == Seq::<u8>::empty());
        assert(records_bytes(assets.push(a)) =~= record_bytes(a.0, a.1) + Seq::<u8>::empty());
        assert(records_bytes(assets.push(a)) =~= records_bytes(assets) + record_bytes(a.0, a.1));
    } else {
        assert(assets.push(a).drop_first() =~= assets.drop_first().push(a));
        lemma_records_bytes_push(assets.drop_first(), a);
        assert(records_bytes(assets.push(a)) =~= records_bytes(assets) + record_bytes(a.0, a.1));
    }
}

/// Appends the bytes of `s` to `out`.
fn append_bytes(out: &mut Vec<u8>, s: &[u8])
    ensures
        final(out)@ == old(out)@ + s@,
{
    let mut tail = slice_to_vec(s);
    out.append(&mut tail);
}

/// Serializes a manifest document and a list of assets into archive bytes.
/// Fails with the index of the first asset whose path is not a valid asset
/// path; writes nothing in that case.
pub fn encode_archive(manifest: &Vec<u8>, assets: &Vec<AssetEntry>) -> (r: Result<
    Vec<u8>,
    usize,
>)
    ensures
        match r {
            Ok(bytes) => (forall|i: int|
                0 <= i < assets@.len() ==> is_valid_asset_path(#[trigger] assets@[i].path@))
                && bytes@ == archive_bytes(manifest@, assets_view(assets@)),
            Err(i) => i < assets@.len() && !is_valid_asset_path(assets@[i as int].path@) && (
            forall|j: int| 0 <= j < i ==> is_valid_asset_path(#[trigger] assets@[j].path@)),
        },
{
    let mut i: usize = 0;
    while i < assets.len()
        invariant
            i <= assets@.len(),
            forall|j: int| 0 <= j < i ==> is_valid_asset_path(#[trigger] assets@[j].path@),
        decreases assets@.len() - i,
    {
        if !valid_asset_path(assets[i].path.as_slice()) {
            return Err(i);
        }
        i = i + 1;
    }
    let mut out: Vec<u8> = Vec::new();
    out.push(0x52u8);
    out.push(0x53u8);
    out.push(0x4Bu8);
    out.push(0x4Eu8);
    let mlen = u64_to_le_bytes(manifest.len() as u64);
    append_bytes(&mut out, mlen.as_slice());
    append_bytes(&mut out, manifest.as_slice());
    assert(out@ =~= archive_bytes(manifest@, Seq::empty())) by {
        assert(records_bytes(Seq::<(Seq<u8>, Seq<u8>)>::empty()) =~= Seq::empty());
    }
    let mut k: usize = 0;
    while k < assets.len()
        invariant
            k <= assets@.len(),
            out@ == archive_bytes(manifest@, assets_view(assets@).take(k as int)),
        decreases assets@.len() - k,
    {
        let a = &assets[k];
        let plen = u32_to_le_bytes(a.path.len() as u32);
        let clen = u64_to_le_bytes(a.content.len() as u64);
        append_bytes(&mut out, plen.as_slice());
        append_bytes(&mut out, a.path.as_slice());
        append_bytes(&mut out, clen.as_slice());
        append_bytes(&mut out, a.content.as_slice());
        proof {
            let av = assets_view(assets@);
            assert(av.take(k + 1) =~= av.take(k as int).push(av[k as int]));
            lemma_records_bytes_push(av.take(k as int), av[k as int]);
        }
        k = k + 1;
    }
    assert(assets_view(assets@).take(assets@.len() as int) =~= assets_view(assets@));
    Ok(out)
}

/// Whether `p` is a valid asset path.
pub fn valid_asset_path(p: &[u8]) -> (r: bool)
    ensures
        r == is_valid_asset_path(p@),
{
    p.len() > 0 && p.len() <= MAX_PATH_LEN as usize && confined_path(p)
}

/// Reads the little-endian `u32` at `data[pos..pos + 4]`.
fn read_u32(data: &Vec<u8>, pos: usize) -> (r: u32)
    requires
        pos + 4 <= data@.len(),
    ensures
        r == spec_u32_from_le_bytes(data@.subrange(pos as int, pos + 4)),
{
    let _n = data.len();
    u32_from_le_bytes(slice_subrange(data.as_slice(), pos, pos + 4))
}

/// Reads the little-endian `u64` at `data[pos..pos + 8]`.
fn read_u64(data: &Vec<u8>, pos: usize) -> (r: u64)
    requires
        pos + 8 <= data@.len(),
    ensures
        r == spec_u64_from_le_bytes(data@.subrange(pos as int, pos + 8)),
{
    let _n = data.len();
    u64_from_le_bytes(slice_subrange(data.as_slice(), pos, pos + 8))
}

/// Recovers the asset records of `data` from offset `start` on, tolerating
/// truncation and corrupt length fields as `decode_records` describes.
pub fn decode_assets(data: &Vec<u8>, start: usize) -> (r: Vec<AssetEntry>)
    ensures
        assets_view(r@) == decode_records(data@, start as int),
{
    let mut out: Vec<AssetEntry> = Vec::new();
    let mut pos: usize = start;
    let len = data.len();
    loop
        invariant
            len == data@.len(),
            decode_records(data@, start as int) == assets_view(out@) + decode_records(
                data@,
                pos as int,
            ),
        decreases len - pos,
    {
        if pos > len || len - pos < 4 {
            assert(decode_records(data@, pos as int) =~= Seq::empty());
            assert(assets_view(out@) + Seq::empty() =~= assets_view(out@));
            return out;
        }
        let plen = read_u32(data, pos) as usize;
        if plen == 0 || plen > MAX_PATH_LEN as usize || len - pos - 4 < plen + 8 {
            assert(decode_records(data@, pos as int) =~= Seq::empty());
            assert(assets_view(out@) + Seq::empty() =~= assets_view(out@));
            return out;
        }
        let cstart = pos + 12 + plen;
        let clen = read_u64(data, pos + 4 + plen);
        if clen > (len - cstart) as u64 {
            assert(decode_records(data@, pos as int) =~= Seq::empty());
            assert(assets_view(out@) + Seq::empty() =~= assets_view(out@));
            return out;
        }
        let next = cstart + clen as usize;
        let path = slice_to_vec(slice_subrange(data.as_slice(), pos + 4, pos + 4 + plen));
        if clen > MAX_CONTENT_LEN || !confined_path(path.as_slice()) {
            pos = next;
        } else {
            let content = slice_to_vec(slice_subrange(data.as_slice(), cstart, next));
            let ghost old_out = out@;
            let entry = AssetEntry { path, content };
            out.push(entry);
            proof {
                assert(assets_view(out@) =~= assets_view(old_out).push(entry@));
                assert(decode_records(data@, pos as int) == seq![entry@] + decode_records(
                    data@,
                    next as int,
                ));
                assert(assets_view(old_out) + (seq![entry@] + decode_records(data@, next as int))
                    =~= assets_view(out@) + decode_records(data@, next as int));
            }
            pos = next;
        }
    }
}

/// Whether `p` is confined to the directory it is joined to.
pub fn confined_path(p: &[u8]) -> (r: bool)
    ensures
        r == is_confined_path(p@),
{
    if p.len() > 0 && p[0] == 0x2Fu8 {
        return false;
    }
    let mut i: usize = 0;
    while p.len() - i > 1
        invariant
            i <= p@.len(),
            !(p@.len() > 0 && p@[0] == 0x2Fu8),
            forall|j: int|
                #![trigger p@[j]]
                0 <= j < i && j + 1 < p@.len() ==> !((j == 0 || p@[j - 1] == 0x2Fu8) && p@[j]
                    == 0x2Eu8 && p@[j + 1] == 0x2Eu8 && (j + 2 == p@.len() || p@[j + 2]
                    == 0x2Fu8)),
        decreases p@.len() - i,
    {
        if (i == 0 || p[i - 1] == 0x2Fu8) && p[i] == 0x2Eu8 && p[i + 1] == 0x2Eu8 && (i + 2
            == p.len() || p[i + 2] == 0x2Fu8) {
            return false;
        }
        i = i + 1;
    }
    true
}

/// Every asset of `assets` can travel through an archive unchanged: its path
/// is valid and its content within the extraction bound.
pub open spec fn transportable(assets: Seq<(Seq<u8>, Seq<u8>)>) -> bool {
    forall|i: int|
        0 <= i < assets.len() ==> is_valid_asset_path(#[trigger] assets[i].0) && assets[i].1.len()
            <= MAX_CONTENT_LEN
}

proof fn lemma_record_fields(data: Seq<u8>, pos: int, path: Seq<u8>, content: Seq<u8>)
    requires
        0 <= pos,
        0 < path.len() <= MAX_PATH_LEN,
        content.len() <= u64::MAX,
        pos + record_bytes(path, content).len() <= data.len(),
        data.subrange(pos, pos + record_bytes(path, content).len()) == record_bytes(path, content),
    ensures
        record_bytes(path, content).len() == 12 + path.len() + content.len(),
        spec_u32_from_le_bytes(data.subrange(pos, pos + 4)) == path.len(),
        data.subrange(pos + 4, pos + 4 + path.len()) == path,
        spec_u64_from_le_bytes(data.subrange(pos + 4 + path.len(), pos + 12 + path.len()))
            == content.len(),
        data.subrange(pos + 12 + path.len(), pos + 12 + path.len() + content.len()) == content,
{
    lemma_auto_spec_u32_to_from_le_bytes();
    lemma_auto_spec_u64_to_from_le_bytes();
    let r = record_bytes(path, content);
    let pl = path.len() as int;
    let sub = data.subrange(pos, pos + r.len());
    assert(data.subrange(pos, pos + 4) =~= sub.subrange(0, 4));
    assert(sub.subrange(0, 4) =~= spec_u32_to_le_bytes(pl as u32));
    assert(data.subrange(pos + 4, pos + 4 + pl) =~= sub.subrange(4, 4 + pl));
    assert(sub.subrange(4, 4 + pl) =~= path);
    assert(data.subrange(pos + 4 + pl, pos + 12 + pl) =~= sub.subrange(4 + pl, 12 + pl));
    assert(sub.subrange(4 + pl, 12 + pl) =~= spec_u64_to_le_bytes(content.len() as u64));
    assert(data.subrange(pos + 12 + pl, pos + 12 + pl + content.len()) =~= sub.subrange(
        12 + pl,
        12 + pl + content.len(),
    ));
    assert(sub.subrange(12 + pl, 12 + pl + content.len()) =~= content);
}

/// Decoding `prefix + records_bytes(assets) + tail` from the end of `prefix`
/// recovers `assets` and then goes on with `tail`.
proof fn lemma_decode_concat(
    prefix: Seq<u8>,
    assets: Seq<(Seq<u8>, Seq<u8>)>,
    tail: Seq<u8>,
)
    requires
        transportable(assets),
    ensures
        decode_records(prefix + records_bytes(assets) + tail, prefix.len() as int) == assets
            + decode_records(
            prefix + records_bytes(assets) + tail,
            (prefix.len() + records_bytes(assets).len()) as int,
        ),
    decreases assets.len(),
{
    let data = prefix + records_bytes(assets) + tail;
    if assets.len() == 0 {
        assert(records_bytes(assets) =~= Seq::empty());
        assert(assets + decode_records(data, prefix.len() as int) =~= decode_records(
            data,
            prefix.len() as int,
        ));
    } else {
        let (path, content) = assets[0];
        let rest = assets.drop_first();
        assert(is_valid_asset_path(assets[0].0));
        let r = record_bytes(path, content);
        let pos = prefix.len() as int;
        assert(records_bytes(assets) == r + records_bytes(rest));
        assert(data =~= (prefix + r) + records_bytes(rest) + tail);
        assert(data.subrange(pos, pos + r.len()) =~= r);
        lemma_record_fields(data, pos, path, content);
        assert(transportable(rest)) by {
            assert forall|i: int| 0 <= i < rest.len() implies is_valid_asset_path(
                #[trigger] rest[i].0,
            ) && rest[i].1.len() <= MAX_CONTENT_LEN by {
                assert(rest[i] == assets[i + 1]);
            }
        }
        lemma_decode_concat(prefix + r, rest, tail);
        assert(decode_records(data, pos) == seq![(path, content)] + decode_records(
            data,
            pos + r.len(),
        ));
        assert(assets =~= seq![(path, content)] + rest);
        assert(assets + decode_records(data, pos + records_bytes(assets).len()) =~= seq![
            (path, content),
        ] + (rest + decode_records(data, pos + records_bytes(assets).len())));
    }
}

/// A strict prefix of a record yields nothing.
proof fn lemma_decode_partial_record(
    prefix: Seq<u8>,
    path: Seq<u8>,
    content: Seq<u8>,
    keep: int,
)
    requires
        is_valid_asset_path(path),
        content.len() <= MAX_CONTENT_LEN,
        0 <= keep < record_bytes(path, content).len(),
    ensures
        decode_records(prefix + record_bytes(path, content).take(keep), prefix.len() as int)
            == Seq::<(Seq<u8>, Seq<u8>)>::empty(),
{
    let r = record_bytes(path, content);
    let data = prefix + r.take(keep);
    let full = prefix + r;
    let pos = prefix.len() as int;
    assert(full.subrange(pos, pos + r.len()) =~= r);
    lemma_record_fields(full, pos, path, content);
    if pos + 4 <= data.len() {
        assert(data.subrange(pos, pos + 4) =~= full.subrange(pos, pos + 4));
        let pl = path.len() as int;
        if pos + 4 + pl + 8 <= data.len() {
            assert(data.subrange(pos + 4 + pl, pos + 12 + pl) =~= full.subrange(
                pos + 4 + pl,
                pos + 12 + pl,
            ));
        }
    }
}

/// Packing then extracting gives back exactly the assets that were packed,
/// in order, for any number of assets that can travel through an archive.
pub proof fn lemma_round_trip(manifest: Seq<u8>, assets: Seq<(Seq<u8>, Seq<u8>)>)
    requires
        manifest.len() <= u64::MAX,
        transportable(assets),
    ensures
        decode_records(archive_bytes(manifest, assets), HEADER_LEN + manifest.len()) == assets,
{
    lemma_auto_spec_u64_to_from_le_bytes();
    let header = magic() + spec_u64_to_le_bytes(manifest.len() as u64) + manifest;
    let data = archive_bytes(manifest, assets);
    assert(data =~= header + records_bytes(assets) + Seq::empty());
    lemma_decode_concat(header, assets, Seq::empty());
    assert(decode_records(data, (header.len() + records_bytes(assets).len()) as int)
        =~= Seq::empty());
    assert(assets + Seq::<(Seq<u8>, Seq<u8>)>::empty() =~= assets);
}

/// Removing the last `k` bytes of an archive, for any `k` from one up to the
/// size of its final record, loses that final asset and no other.
pub proof fn lemma_truncation_tolerance(
    manifest: Seq<u8>,
    assets: Seq<(Seq<u8>, Seq<u8>)>,
    k: int,
)
    requires
        manifest.len() <= u64::MAX,
        transportable(assets),
        assets.len() > 0,
        1 <= k <= record_bytes(assets.last().0, assets.last().1).len(),
    ensures
        ({
            let data = archive_bytes(manifest, assets);
            decode_records(data.take(data.len() - k), HEADER_LEN + manifest.len())
                == assets.drop_last()
        }),
{
    lemma_auto_spec_u64_to_from_le_bytes();
    let header = magic() + spec_u64_to_le_bytes(manifest.len() as u64) + manifest;
    let init = assets.drop_last();
    let last = assets.last();
    let r = record_bytes(last.0, last.1);
    assert(assets =~= init.push(last));
    lemma_records_bytes_push(init, last);
    let data = archive_bytes(manifest, assets);
    let cut = data.take(data.len() - k);
    assert(transportable(init)) by {
        assert forall|i: int| 0 <= i < init.len() implies is_valid_asset_path(
            #[trigger] init[i].0,
        ) && init[i].1.len() <= MAX_CONTENT_LEN by {
            assert(init[i] == assets[i]);
        }
    }
    assert(is_valid_asset_path(assets[assets.len() - 1].0));
    let tail = r.take(r.len() - k);
    assert(cut =~= header + records_bytes(init) + tail);
    lemma_decode_concat(header, init, tail);
    assert(header + records_bytes(init) + tail =~= (header + records_bytes(init)) + tail);
    lemma_decode_partial_record(header + records_bytes(init), last.0, last.1, r.len() - k);
    assert(init + Seq::<(Seq<u8>, Seq<u8>)>::empty() =~= init);
}

/// A record whose declared content length exceeds `MAX_CONTENT_LEN` is
/// skipped without yielding an asset, and extraction continues with the
/// records after it.
pub proof fn lemma_oversized_skipped(
    prefix: Seq<u8>,
    path: Seq<u8>,
    content: Seq<u8>,
    rest: Seq<(Seq<u8>, Seq<u8>)>,
)
    requires
        is_valid_asset_path(path),
        MAX_CONTENT_LEN < content.len() <= u64::MAX,
        transportable(rest),
    ensures
        decode_records(
            prefix + record_bytes(path, content) + records_bytes(rest),
            prefix.len() as int,
        ) == rest,
{
    let r = record_bytes(path, content);
    let data = prefix + r + records_bytes(rest);
    let pos = prefix.len() as int;
    assert(data.subrange(pos, pos + r.len()) =~= r);
    lemma_record_fields(data, pos, path, content);
    assert(data =~= (prefix + r) + records_bytes(rest) + Seq::empty());
    lemma_decode_concat(prefix + r, rest, Seq::empty());
    assert(decode_records(data, pos + r.len() + records_bytes(rest).len()) =~= Seq::empty());
    assert(rest + Seq::<(Seq<u8>, Seq<u8>)>::empty() =~= rest);
}

} // verus!
