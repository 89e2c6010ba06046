//! Whole archives: packing a manifest with its assets, probing an archive's
//! manifest, and tolerant extraction of everything it holds.

use vstd::prelude::*;
use vstd::bytes::*;
use vstd::slice::*;
use crate::codec::{
    AssetEntry, HEADER_LEN, archive_bytes, assets_view, decode_assets, decode_records,
    encode_archive, is_valid_asset_path, lemma_records_bytes_push, lemma_round_trip,
    lemma_truncation_tolerance, magic,
    record_bytes, records_bytes, transportable,
};
use crate::manifest::{decode_manifest, encode_manifest, is_manifest_doc, manifest_json, parses_to};
use crate::types::ThemeManifest;

verus! {

/// Why an archive's header or manifest could not be read.
#[derive(Clone, Copy, Debug, PartialEq, Eq, Structural)]
pub enum ArchiveError {
    /// Shorter than the fixed header.
    TooSmall,
    /// The first four bytes are not the magic marker.
    BadMagic,
    /// The declared manifest length runs past the end of the input.
    ManifestSizeMismatch,
    /// The manifest region does not hold a manifest document.
    ManifestParse,
}

/// The manifest length that the header of `data` declares.
pub open spec fn declared_manifest_len(data: Seq<u8>) -> int {
    spec_u64_from_le_bytes(data.subrange(4, 12)) as int
}

/// The manifest region of `data`, once the header has been checked.
pub open spec fn manifest_region(data: Seq<u8>) -> Seq<u8> {
    data.subrange(HEADER_LEN as int, HEADER_LEN + declared_manifest_len(data))
}

/// The header failure of `data`, if any, in the order the checks are made.
pub open spec fn header_error(data: Seq<u8>) -> Option<ArchiveError> {
    if data.len() < HEADER_LEN {
        Some(ArchiveError::TooSmall)
    } else if data.subrange(0, 4) != magic() {
        Some(ArchiveError::BadMagic)
    } else if HEADER_LEN + declared_manifest_len(data) > data.len() {
        Some(ArchiveError::ManifestSizeMismatch)
    } else if !is_manifest_doc(manifest_region(data)) {
        Some(ArchiveError::ManifestParse)
    } else {
        None
    }
}

/// Checks the header of `data`; on success returns the manifest length.
fn check_header(data: &Vec<u8>) -> (r: Result<usize, ArchiveError>)
    ensures
        match r {
            Ok(n) => data@.len() >= HEADER_LEN && data@.subrange(0, 4) == magic() && n
                == declared_manifest_len(data@) && HEADER_LEN + n <= data@.len(),
            Err(e) => e != ArchiveError::ManifestParse && header_error(data@) == Some(e),
        },
{
    if data.len() < HEADER_LEN {
        return Err(ArchiveError::TooSmall);
    }
    if !(data[0] == 0x52u8 && data[1] == 0x53u8 && data[2] == 0x4Bu8 && data[3] == 0x4Eu8) {
        assert(data@.subrange(0, 4) != magic()) by {
            if data@.subrange(0, 4) == magic() {
                assert(data@[0] == data@.subrange(0, 4)[0]);
                assert(data@[1] == data@.subrange(0, 4)[1]);
                assert(data@[2] == data@.subrange(0, 4)[2]);
                assert(data@[3] == data@.subrange(0, 4)[3]);
            }
        }
        return Err(ArchiveError::BadMagic);
    }
    assert(data@.subrange(0, 4) =~= magic());
    let declared = u64_from_le_bytes(slice_subrange(data.as_slice(), 4, 12));
    if declared > (data.len() - HEADER_LEN) as u64 {
        return Err(ArchiveError::ManifestSizeMismatch);
    }
    Ok(declared as usize)
}

/// Reads the manifest of an archive held in memory, without touching its
/// assets.
pub fn extract_theme_info(file_data: Vec<u8>) -> (r: Result<ThemeManifest, ArchiveError>)
    ensures
        match r {
            Ok(m) => header_error(file_data@) is None && parses_to(
                manifest_region(file_data@),
                m,
            ),
            Err(e) => header_error(file_data@) == Some(e),
        },
{
    let n = check_header(&file_data)?;
    let doc = slice_subrange(file_data.as_slice(), HEADER_LEN, HEADER_LEN + n);
    match decode_manifest(doc) {
        Some(m) => Ok(m),
        None => Err(ArchiveError::ManifestParse),
    }
}

/// Everything extraction recovers from an archive: the parsed manifest, its
/// raw bytes (written beside the assets) and the assets.
pub struct Extraction {
    pub manifest: ThemeManifest,
    pub manifest_bytes: Vec<u8>,
    pub assets: Vec<AssetEntry>,
}

/// `x` is what extraction of `data` yields.
pub open spec fn extracted(data: Seq<u8>, x: Extraction) -> bool {
    &&& header_error(data) is None
    &&& x.manifest_bytes@ == manifest_region(data)
    &&& parses_to(manifest_region(data), x.manifest)
    &&& assets_view(x.assets@) == decode_records(data, HEADER_LEN + declared_manifest_len(data))
}

/// Extracts an archive held in memory. A bad header or manifest is an
/// error; after the manifest, truncated or corrupt records end extraction
/// quietly and oversized or unconfined records are skipped.
pub fn extract_archive(data: &Vec<u8>) -> (r: Result<Extraction, ArchiveError>)
    ensures
        match r {
            Ok(x) => extracted(data@, x),
            Err(e) => header_error(data@) == Some(e),
        },
{
    let n = check_header(data)?;
    let _total = data.len();
    let doc = slice_subrange(data.as_slice(), HEADER_LEN, HEADER_LEN + n);
    match decode_manifest(doc) {
        Some(manifest) => {
            let manifest_bytes = slice_to_vec(doc);
            let assets = decode_assets(data, HEADER_LEN + n);
            Ok(Extraction { manifest, manifest_bytes, assets })
        },
        None => Err(ArchiveError::ManifestParse),
    }
}

/// Packs a manifest and its assets into archive bytes. Fails with the index
/// of the first asset whose path is not a valid asset path.
pub fn encode_bundle(manifest: &ThemeManifest, assets: &Vec<AssetEntry>) -> (r: Result<
    Vec<u8>,
    usize,
>)
    ensures
        match r {
            Ok(bytes) => (forall|i: int|
                0 <= i < assets@.len() ==> is_valid_asset_path(#[trigger] assets@[i].path@))
                && bytes@ == archive_bytes(manifest_json(*manifest), assets_view(assets@)),
            Err(i) => i < assets@.len() && !is_valid_asset_path(assets@[i as int].path@) && (
            forall|j: int| 0 <= j < i ==> is_valid_asset_path(#[trigger] assets@[j].path@)),
        },
{
    let doc = encode_manifest(manifest);
    encode_archive(&doc, assets)
}

/// Extracting the same archive twice yields the same manifest, the same
/// manifest bytes and the same assets.
pub proof fn lemma_extraction_deterministic(data: Seq<u8>, x: Extraction, y: Extraction)
    requires
        extracted(data, x),
        extracted(data, y),
    ensures
        x.manifest_bytes@ == y.manifest_bytes@,
        x.manifest.name@ == y.manifest.name@,
        x.manifest.author@ == y.manifest.author@,
        x.manifest.description@ == y.manifest.description@,
        x.manifest.version@ == y.manifest.version@,
        x.manifest.tags@ == y.manifest.tags@,
        x.manifest.license@ == y.manifest.license@,
        assets_view(x.assets@) == assets_view(y.assets@),
{
}

/// Any prefix of an archive that keeps the whole manifest has that
/// manifest's header: its declared length and region are the manifest's,
/// and it fails only when the manifest is not a manifest document.
pub proof fn lemma_archive_header(doc: Seq<u8>, assets: Seq<(Seq<u8>, Seq<u8>)>, keep: int)
    requires
        doc.len() <= u64::MAX,
        HEADER_LEN + doc.len() <= keep <= archive_bytes(doc, assets).len(),
    ensures
        ({
            let data = archive_bytes(doc, assets).take(keep);
            &&& declared_manifest_len(data) == doc.len()
            &&& manifest_region(data) == doc
            &&& header_error(data) == if is_manifest_doc(doc) {
                None
            } else {
                Some(ArchiveError::ManifestParse)
            }
        }),
{
    lemma_auto_spec_u64_to_from_le_bytes();
    let data = archive_bytes(doc, assets).take(keep);
    let len_bytes = spec_u64_to_le_bytes(doc.len() as u64);
    assert(data.subrange(0, 4) =~= magic());
    assert(data.subrange(4, 12) =~= len_bytes);
    assert(data.subrange(HEADER_LEN as int, HEADER_LEN + doc.len()) =~= doc);
}

/// Packing assets with a manifest document and extracting the result gives
/// back that document and exactly those assets, in order.
pub proof fn lemma_pack_then_extract(
    doc: Seq<u8>,
    assets: Seq<(Seq<u8>, Seq<u8>)>,
    x: Extraction,
)
    requires
        doc.len() <= u64::MAX,
        transportable(assets),
        extracted(archive_bytes(doc, assets), x),
    ensures
        x.manifest_bytes@ == doc,
        assets_view(x.assets@) == assets,
{
    lemma_auto_spec_u64_to_from_le_bytes();
    let data = archive_bytes(doc, assets);
    assert(data.take(data.len() as int) =~= data);
    lemma_archive_header(doc, assets, data.len() as int);
    lemma_round_trip(doc, assets);
}

/// An archive cut short by up to its final record still extracts: the
/// manifest comes through whole and every asset but the last survives.
pub proof fn lemma_truncated_extract(
    doc: Seq<u8>,
    assets: Seq<(Seq<u8>, Seq<u8>)>,
    k: int,
)
    requires
        doc.len() <= u64::MAX,
        is_manifest_doc(doc),
        transportable(assets),
        assets.len() > 0,
        1 <= k <= record_bytes(assets.last().0, assets.last().1).len(),
    ensures
        ({
            let data = archive_bytes(doc, assets);
            let cut = data.take(data.len() - k);
            &&& header_error(cut) is None
            &&& manifest_region(cut) == doc
            &&& decode_records(cut, HEADER_LEN + declared_manifest_len(cut)) == assets.drop_last()
        }),
{
    let data = archive_bytes(doc, assets);
    lemma_auto_spec_u64_to_from_le_bytes();
    let init = assets.drop_last();
    let last = assets.last();
    assert(assets =~= init.push(last));
    lemma_records_bytes_push(init, last);
    assert(data =~= magic() + spec_u64_to_le_bytes(doc.len() as u64) + doc + records_bytes(init)
        + record_bytes(last.0, last.1));
    lemma_archive_header(doc, assets, data.len() - k);
    lemma_truncation_tolerance(doc, assets, k);
}

} // verus!
