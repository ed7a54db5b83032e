use vstd::prelude::*;
use std::io::Write;
use crate::errors::AppError;

verus! {

broadcast use vstd::seq_lib::group_seq_properties;

/// An in-memory ZIP writer. It wraps zip::write::ZipWriter over an owned
/// buffer; Verus sees it only through `zip_entries` and the functions below.
#[verifier::external_body]
pub struct ArchiveWriter {
    inner: zip::write::ZipWriter<std::io::Cursor<Vec<u8>>>,
}

/// The entries written to an in-memory ZIP writer so far, in order: each is an
/// entry name and the bytes stored under it.
pub uninterp spec fn zip_entries(w: ArchiveWriter) -> Seq<(Seq<char>, Seq<u8>)>;

/// The bytes of the finished archive holding the given entries. The entries
/// are stored uncompressed under fixed metadata, so the archive is a function
/// of them alone.
pub uninterp spec fn zip_archive_bytes(entries: Seq<(Seq<char>, Seq<u8>)>) -> Seq<u8>;

/// Relies on zip::write::ZipWriter::new: a writer over a fresh in-memory
/// buffer holds no entries.
#[verifier::external_body]
pub(crate) fn zip_writer_new() -> (w: ArchiveWriter)
    ensures
        zip_entries(w) == Seq::<(Seq<char>, Seq<u8>)>::empty(),
{
    ArchiveWriter { inner: zip::write::ZipWriter::new(std::io::Cursor::new(Vec::new())) }
}

/// Relies on zip::write::ZipWriter::start_file, called with stored (that is,
/// uncompressed) entries, 0o755 unix permissions, the Unix system id and the
/// crate's constant default timestamp: on success a new empty entry of this
/// name is appended. Over an in-memory buffer the call fails only on a name
/// already present (duplicates are refused) or a name whose UTF-8 form
/// overflows the format's two-byte length field; 16383 characters keep any
/// UTF-8 form within it, so success is owed below that.
#[verifier::external_body]
pub(crate) fn zip_start_file(
    w: &mut ArchiveWriter,
    name: &str,
) -> (r: Result<(), AppError>)
    ensures
        r is Ok ==> zip_entries(*final(w)) == zip_entries(*old(w)).push((name@, Seq::<u8>::empty())),
        name@.len() <= 16383 && (forall|i: int|
            0 <= i < zip_entries(*old(w)).len() ==> (#[trigger] zip_entries(*old(w))[i]).0
                != name@) ==> r is Ok,
        (exists|i: int| 0 <= i < zip_entries(*old(w)).len() && zip_entries(*old(w))[i].0 == name@)
            ==> r is Err,
        r matches Err(e) ==> e == AppError::ZipStartError,
{
    let options = zip::write::SimpleFileOptions::default()
        .compression_method(zip::CompressionMethod::Stored)
        .unix_permissions(0o755)
        .system(zip::System::Unix);
    w.inner.start_file(name, options).map_err(|_| AppError::ZipStartError)
}

/// Relies on std::io::Write::write_all on zip::write::ZipWriter, called while
/// the entry opened last is still open: the bytes are appended to it. Writes
/// to the Vec-backed cursor are infallible; the only failure is crossing the
/// stored-size threshold of u32::MAX bytes without the large-file option, so
/// success is owed below it.
#[verifier::external_body]
pub(crate) fn zip_write_all(
    w: &mut ArchiveWriter,
    data: &Vec<u8>,
) -> (r: Result<(), AppError>)
    requires
        zip_entries(*old(w)).len() > 0,
    ensures
        zip_entries(*old(w)).last().1.len() + data@.len() <= 0xFFFF_FFFF ==> r is Ok,
        r is Ok ==> zip_entries(*final(w)) == zip_entries(*old(w)).update(
            zip_entries(*old(w)).len() - 1,
            (zip_entries(*old(w)).last().0, zip_entries(*old(w)).last().1 + data@),
        ),
        r matches Err(e) ==> e == AppError::ZipWriteError,
{
    w.inner.write_all(data.as_slice()).map_err(|_| AppError::ZipWriteError)
}

/// Relies on zip::write::ZipWriter::finish: it writes the central directory
/// and hands the buffer back; with stored entries and fixed metadata the
/// archive bytes are a function of the entries alone. Writing the central
/// directory of stored, unencrypted entries to the in-memory buffer cannot
/// fail (sizes are clamped, names were validated when their entries started,
/// and a failed start removes its entry), so success is owed.
#[verifier::external_body]
pub(crate) fn zip_finish(w: ArchiveWriter) -> (r: Result<
    Vec<u8>,
    AppError,
>)
    ensures
        r is Ok,
        r matches Ok(v) ==> v@ == zip_archive_bytes(zip_entries(w)),
{
    match w.inner.finish() {
        Ok(c) => Ok(c.into_inner()),
        Err(_) => Err(AppError::ZipFinishError),
    }
}

/// The mathematical value of a sequence of named byte buffers.
pub open spec fn pair_views(items: Seq<(String, Vec<u8>)>) -> Seq<(Seq<char>, Seq<u8>)> {
    items.map_values(|it: (String, Vec<u8>)| (it.0@, it.1@))
}

/// Entries the ZIP format accepts here: every name short enough for its
/// length field, every body below the stored-size threshold, and no two
/// entries sharing a name.
pub open spec fn zippable(entries: Seq<(Seq<char>, Seq<u8>)>) -> bool {
    &&& forall|i: int| 0 <= i < entries.len() ==> (#[trigger] entries[i]).0.len() <= 16383
    &&& forall|i: int| 0 <= i < entries.len() ==> (#[trigger] entries[i]).1.len() <= 0xFFFF_FFFF
    &&& forall|i: int, j: int|
        0 <= i < j < entries.len() ==> (#[trigger] entries[i]).0 != (#[trigger] entries[j]).0
}

/// Build the response archive: one stored entry per converted item, written
/// in input order. The first failure aborts the whole archive; items within
/// the format's limits and with pairwise distinct names always succeed.
pub fn create_zip(webp_images: Vec<(String, Vec<u8>)>) -> (r: Result<Vec<u8>, AppError>)
    ensures
        zippable(pair_views(webp_images@)) ==> r is Ok,
        r matches Ok(v) ==> v@ == zip_archive_bytes(pair_views(webp_images@)),
        r matches Err(e) ==> (e == AppError::ZipStartError || e == AppError::ZipWriteError),
{
    let mut zip = zip_writer_new();
    let mut idx: usize = 0;
    while idx < webp_images.len()
        invariant
            idx <= webp_images@.len(),
            zip_entries(zip) == pair_views(webp_images@.take(idx as int)),
        decreases webp_images@.len() - idx,
    {
        let pair = &webp_images[idx];
        let ghost ents = pair_views(webp_images@);
        let ghost sofar = pair_views(webp_images@.take(idx as int));
        proof {
            assert(ents[idx as int] == (pair.0@, pair.1@));
        }
        match zip_start_file(&mut zip, pair.0.as_str()) {
            Ok(_) => {},
            Err(e) => {
                proof {
                    if pair.0@.len() <= 16383 {
                        let dup = choose|i: int| 0 <= i < sofar.len() && sofar[i].0 == pair.0@;
                        assert(sofar[dup] == ents[dup]);
                        assert(ents[dup].0 == ents[idx as int].0);
                        assert(!zippable(ents));
                    } else {
                        assert(!zippable(ents));
                    }
                }
                return Err(e);
            },
        }
        match zip_write_all(&mut zip, &pair.1) {
            Ok(_) => {},
            Err(e) => {
                proof {
                    assert(!zippable(ents));
                }
                return Err(e);
            },
        }
        proof {
            assert(Seq::<u8>::empty() + pair.1@ =~= pair.1@);
            assert(zip_entries(zip) =~= pair_views(webp_images@.take(idx as int)).push((pair.0@, pair.1@)));
            assert(webp_images@.take(idx + 1).drop_last() =~= webp_images@.take(idx as int));
            assert(pair_views(webp_images@.take(idx + 1)) =~= pair_views(webp_images@.take(idx as int)).push((pair.0@, pair.1@)));
        }
        idx = idx + 1;
    }
    proof {
        assert(webp_images@.take(webp_images@.len() as int) =~= webp_images@);
    }
    zip_finish(zip)
}

} // verus!
