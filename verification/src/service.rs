use vstd::prelude::*;
use crate::archive::{create_zip, pair_views, zip_archive_bytes, zippable};
use crate::convert::{decoded_image, indexed_png, process_image, process_spec, webp_name_of};
use crate::errors::AppError;

verus! {

broadcast use vstd::seq_lib::group_seq_properties;

/// One multipart field as the transport layer hands it over: either a field,
/// whose file name may be absent and whose body may have failed to read, or a
/// failure of the multipart framing itself.
pub enum FieldEvent {
    Field { filename: Option<String>, data: Option<Vec<u8>> },
    FramingError,
}

/// What collecting the fields yields: the ordered (file name, raw bytes)
/// pairs, or the error of the first structurally bad field. A field without a
/// file name fails before its body is even considered.
pub open spec fn gather_spec(fields: Seq<FieldEvent>) -> Result<Seq<(Seq<char>, Seq<u8>)>, AppError>
    decreases fields.len(),
{
    if fields.len() == 0 {
        Ok(Seq::empty())
    } else {
        match gather_spec(fields.drop_last()) {
            Err(e) => Err(e),
            Ok(items) => match fields.last() {
                FieldEvent::FramingError => Err(AppError::ProcessingError),
                FieldEvent::Field { filename, data } => match filename {
                    None => Err(AppError::MissingFileName),
                    Some(name) => match data {
                        None => Err(AppError::FailedToReadData),
                        Some(bytes) => Ok(items.push((name@, bytes@))),
                    },
                },
            },
        }
    }
}

/// What converting every gathered item yields: the ordered (output name, WebP
/// bytes) pairs, or the error of the first item that fails.
pub open spec fn convert_all_spec(items: Seq<(Seq<char>, Seq<u8>)>) -> Result<Seq<(Seq<char>, Seq<u8>)>, AppError>
    decreases items.len(),
{
    if items.len() == 0 {
        Ok(Seq::empty())
    } else {
        match convert_all_spec(items.drop_last()) {
            Err(e) => Err(e),
            Ok(done) => match process_spec(items.last().1, items.last().0) {
                Err(e) => Err(e),
                Ok(item) => Ok(done.push(item)),
            },
        }
    }
}

/// Collecting then converting a batch of fields.
pub open spec fn collect_spec(fields: Seq<FieldEvent>) -> Result<Seq<(Seq<char>, Seq<u8>)>, AppError> {
    match gather_spec(fields) {
        Err(e) => Err(e),
        Ok(items) => convert_all_spec(items),
    }
}

/// The whole pipeline short of archive encoding: the archive's entries, or
/// the error of the request; a batch with no items yields no archive.
pub open spec fn pipeline_spec(fields: Seq<FieldEvent>) -> Result<Seq<(Seq<char>, Seq<u8>)>, AppError> {
    match collect_spec(fields) {
        Err(e) => Err(e),
        Ok(items) => if items.len() == 0 {
            Err(AppError::NoImagesProcessed)
        } else {
            Ok(items)
        },
    }
}

pub proof fn lemma_gather_err_extends(fields: Seq<FieldEvent>, i: int)
    requires
        0 <= i <= fields.len(),
        gather_spec(fields.take(i)) is Err,
    ensures
        gather_spec(fields) == gather_spec(fields.take(i)),
    decreases fields.len() - i,
{
    if i < fields.len() {
        assert(fields.take(i + 1).drop_last() =~= fields.take(i));
        assert(gather_spec(fields.take(i + 1)) == gather_spec(fields.take(i)));
        lemma_gather_err_extends(fields, i + 1);
    } else {
        assert(fields.take(i) =~= fields);
    }
}

pub proof fn lemma_convert_err_extends(items: Seq<(Seq<char>, Seq<u8>)>, i: int)
    requires
        0 <= i <= items.len(),
        convert_all_spec(items.take(i)) is Err,
    ensures
        convert_all_spec(items) == convert_all_spec(items.take(i)),
    decreases items.len() - i,
{
    if i < items.len() {
        assert(items.take(i + 1).drop_last() =~= items.take(i));
        assert(convert_all_spec(items.take(i + 1)) == convert_all_spec(items.take(i)));
        lemma_convert_err_extends(items, i + 1);
    } else {
        assert(items.take(i) =~= items);
    }
}

/// Copy a byte buffer.
fn clone_bytes(v: &Vec<u8>) -> (r: Vec<u8>)
    ensures
        r@ == v@,
{
    let mut r: Vec<u8> = Vec::new();
    let mut i: usize = 0;
    while i < v.len()
        invariant
            i <= v@.len(),
            r@ == v@.take(i as int),
        decreases v@.len() - i,
    {
        r.push(v[i]);
        proof {
            assert(v@.take(i + 1).drop_last() =~= v@.take(i as int));
            assert(r@ =~= v@.take(i + 1));
        }
        i = i + 1;
    }
    proof {
        assert(v@.take(v@.len() as int) =~= v@);
    }
    r
}

/// Gather the batch's fields in arrival order, then convert each item,
/// failing the whole batch on the first error of either stage.
pub fn collect_images(fields: Vec<FieldEvent>) -> (r: Result<Vec<(String, Vec<u8>)>, AppError>)
    ensures
        r matches Ok(v) ==> collect_spec(fields@) == Ok::<Seq<(Seq<char>, Seq<u8>)>, AppError>(pair_views(v@)),
        r matches Err(e) ==> collect_spec(fields@) == Err::<Seq<(Seq<char>, Seq<u8>)>, AppError>(e),
{
    let mut raw: Vec<(String, Vec<u8>)> = Vec::new();
    let mut i: usize = 0;
    proof {
        assert(fields@.take(0) =~= Seq::<FieldEvent>::empty());
        assert(pair_views(raw@) =~= Seq::<(Seq<char>, Seq<u8>)>::empty());
    }
    while i < fields.len()
        invariant
            i <= fields@.len(),
            gather_spec(fields@.take(i as int)) == Ok::<Seq<(Seq<char>, Seq<u8>)>, AppError>(pair_views(raw@)),
        decreases fields@.len() - i,
    {
        let ghost raw_before = raw@;
        proof {
            assert(fields@.take(i + 1).drop_last() =~= fields@.take(i as int));
            assert(fields@.take(i + 1).last() == fields@[i as int]);
        }
        match &fields[i] {
            FieldEvent::FramingError => {
                proof {
                    lemma_gather_err_extends(fields@, i + 1);
                }
                return Err(AppError::ProcessingError);
            },
            FieldEvent::Field { filename, data } => {
                match filename {
                    None => {
                        proof {
                            lemma_gather_err_extends(fields@, i + 1);
                        }
                        return Err(AppError::MissingFileName);
                    },
                    Some(name) => {
                        match data {
                            None => {
                                proof {
                                    lemma_gather_err_extends(fields@, i + 1);
                                }
                                return Err(AppError::FailedToReadData);
                            },
                            Some(bytes) => {
                                let name_copy = name.clone();
                                let bytes_copy = clone_bytes(bytes);
                                raw.push((name_copy, bytes_copy));
                                proof {
                                    assert(pair_views(raw@) =~= pair_views(raw_before).push((name@, bytes@)));
                                }
                            },
                        }
                    },
                }
            },
        }
        i = i + 1;
    }
    proof {
        assert(fields@.take(fields@.len() as int) =~= fields@);
    }
    let ghost items = pair_views(raw@);
    let mut out: Vec<(String, Vec<u8>)> = Vec::new();
    let ghost mut j: int = 0;
    proof {
        assert(items.skip(0) =~= items);
        assert(items.take(0) =~= Seq::<(Seq<char>, Seq<u8>)>::empty());
        assert(pair_views(out@) =~= Seq::<(Seq<char>, Seq<u8>)>::empty());
    }
    while raw.len() > 0
        invariant
            0 <= j <= items.len(),
            pair_views(raw@) == items.skip(j),
            gather_spec(fields@) == Ok::<Seq<(Seq<char>, Seq<u8>)>, AppError>(items),
            convert_all_spec(items.take(j)) == Ok::<Seq<(Seq<char>, Seq<u8>)>, AppError>(pair_views(out@)),
        decreases raw@.len(),
    {
        let ghost out_before = out@;
        let ghost raw_prev = raw@;
        let item = raw.remove(0);
        proof {
            assert(pair_views(raw_prev).len() == raw_prev.len());
            assert(j < items.len());
            assert(pair_views(raw_prev)[0] == (raw_prev[0].0@, raw_prev[0].1@));
            assert((item.0@, item.1@) == items.skip(j)[0]);
            assert(items.skip(j)[0] == items[j]);
            assert forall|n: int| 0 <= n < raw@.len() implies #[trigger] pair_views(raw@)[n] == items.skip(
                j + 1,
            )[n] by {
                assert(raw@[n] == raw_prev[n + 1]);
                assert(pair_views(raw@)[n] == (raw@[n].0@, raw@[n].1@));
                assert(pair_views(raw_prev)[n + 1] == (raw_prev[n + 1].0@, raw_prev[n + 1].1@));
                assert(items.skip(j)[n + 1] == items[j + n + 1]);
                assert(items.skip(j + 1)[n] == items[j + 1 + n]);
            }
            assert(pair_views(raw@) =~= items.skip(j + 1));
            assert(items.take(j + 1).drop_last() =~= items.take(j));
            assert(items.take(j + 1).last() == items[j]);
        }
        let (name, bytes) = item;
        match process_image(bytes, name) {
            Ok(converted) => {
                let ghost conv_view = (converted.0@, converted.1@);
                out.push(converted);
                proof {
                    assert(pair_views(out@) =~= pair_views(out_before).push(conv_view));
                }
            },
            Err(e) => {
                proof {
                    lemma_convert_err_extends(items, j + 1);
                }
                return Err(e);
            },
        }
        proof {
            j = j + 1;
        }
    }
    proof {
        assert(items.take(j) =~= items);
    }
    Ok(out)
}

/// Convert a batch of uploaded fields into one in-memory ZIP archive of
/// losslessly WebP-encoded images, or fail the whole request with the first
/// error. A batch that yields no items never yields an (empty) archive; a
/// batch whose entries fit the archive format and share no output name is
/// owed an archive.
pub fn convert_images_to_webp(fields: Vec<FieldEvent>) -> (r: Result<Vec<u8>, AppError>)
    ensures
        (match pipeline_spec(fields@) {
            Ok(entries) => (zippable(entries) ==> r is Ok) && (r matches Ok(v) ==> v@
                == zip_archive_bytes(entries)) && (r matches Err(e) ==> (e
                == AppError::ZipStartError || e == AppError::ZipWriteError)),
            Err(err) => r == Err::<Vec<u8>, AppError>(err),
        }),
        fields@.len() == 0 ==> r == Err::<Vec<u8>, AppError>(AppError::NoImagesProcessed),
{
    let webp_images = match collect_images(fields) {
        Ok(v) => v,
        Err(e) => {
            return Err(e);
        },
    };
    if webp_images.len() == 0 {
        return Err(AppError::NoImagesProcessed);
    }
    create_zip(webp_images)
}

/// A field that arrived whole: framing held, it carries a file name, and its
/// body was read.
pub open spec fn field_complete(f: FieldEvent) -> bool {
    f matches FieldEvent::Field { filename: Some(_), data: Some(_) }
}

/// A field whose body was read; it may still lack a file name.
pub open spec fn field_readable(f: FieldEvent) -> bool {
    f matches FieldEvent::Field { filename: _, data: Some(_) }
}

/// A complete field's (file name, raw bytes) pair.
pub open spec fn field_item(f: FieldEvent) -> (Seq<char>, Seq<u8>) {
    match f {
        FieldEvent::Field { filename, data } => (
            match filename {
                Some(s) => s@,
                None => Seq::empty(),
            },
            match data {
                Some(d) => d@,
                None => Seq::empty(),
            },
        ),
        FieldEvent::FramingError => (Seq::empty(), Seq::empty()),
    }
}

/// The (name, bytes) pairs of a batch of complete fields, in order.
pub open spec fn field_items(fields: Seq<FieldEvent>) -> Seq<(Seq<char>, Seq<u8>)> {
    fields.map_values(|f: FieldEvent| field_item(f))
}

/// The converted entry of one gathered item, meaningful when it converts.
pub open spec fn process_ok(it: (Seq<char>, Seq<u8>)) -> (Seq<char>, Seq<u8>) {
    match process_spec(it.1, it.0) {
        Ok(p) => p,
        Err(_) => (Seq::empty(), Seq::empty()),
    }
}

/// The converted entries of gathered items that all convert, in order.
pub open spec fn converted_items(items: Seq<(Seq<char>, Seq<u8>)>) -> Seq<(Seq<char>, Seq<u8>)> {
    items.map_values(|it: (Seq<char>, Seq<u8>)| process_ok(it))
}

pub proof fn lemma_gather_complete(fields: Seq<FieldEvent>)
    requires
        forall|i: int| 0 <= i < fields.len() ==> field_complete(#[trigger] fields[i]),
    ensures
        gather_spec(fields) == Ok::<Seq<(Seq<char>, Seq<u8>)>, AppError>(field_items(fields)),
    decreases fields.len(),
{
    if fields.len() == 0 {
        assert(field_items(fields) =~= Seq::<(Seq<char>, Seq<u8>)>::empty());
    } else {
        lemma_gather_complete(fields.drop_last());
        assert(field_items(fields.drop_last()).push(field_item(fields.last())) =~= field_items(fields));
    }
}

pub proof fn lemma_convert_all_ok(items: Seq<(Seq<char>, Seq<u8>)>)
    requires
        forall|i: int| 0 <= i < items.len() ==> process_spec((#[trigger] items[i]).1, items[i].0) is Ok,
    ensures
        convert_all_spec(items) == Ok::<Seq<(Seq<char>, Seq<u8>)>, AppError>(converted_items(items)),
    decreases items.len(),
{
    if items.len() == 0 {
        assert(converted_items(items) =~= Seq::<(Seq<char>, Seq<u8>)>::empty());
    } else {
        lemma_convert_all_ok(items.drop_last());
        assert(converted_items(items.drop_last()).push(process_ok(items.last())) =~= converted_items(items));
    }
}

/// Law: a non-empty batch of complete fields whose bytes all convert yields
/// an archive with exactly one entry per field, in field order, each named
/// stem + ".webp" after its field and holding that field's converted bytes.
pub proof fn lemma_entry_per_input(fields: Seq<FieldEvent>)
    requires
        fields.len() > 0,
        forall|i: int| 0 <= i < fields.len() ==> field_complete(#[trigger] fields[i]),
        forall|i: int| 0 <= i < fields.len() ==> process_spec(
            field_item(#[trigger] fields[i]).1,
            field_item(fields[i]).0,
        ) is Ok,
    ensures
        pipeline_spec(fields) is Ok,
        pipeline_spec(fields)->Ok_0.len() == fields.len(),
        forall|i: int| 0 <= i < fields.len() ==> #[trigger] pipeline_spec(fields)->Ok_0[i]
            == process_ok(field_item(fields[i])),
        forall|i: int| 0 <= i < fields.len() ==> (#[trigger] pipeline_spec(fields)->Ok_0[i]).0
            == webp_name_of(field_item(fields[i]).0),
{
    lemma_gather_complete(fields);
    let items = field_items(fields);
    assert forall|i: int| 0 <= i < items.len() implies process_spec(
        (#[trigger] items[i]).1,
        items[i].0,
    ) is Ok by {
        assert(items[i] == field_item(fields[i]));
    }
    lemma_convert_all_ok(items);
    let ents = converted_items(items);
    assert(pipeline_spec(fields) == Ok::<Seq<(Seq<char>, Seq<u8>)>, AppError>(ents));
    assert forall|i: int| 0 <= i < fields.len() implies #[trigger] pipeline_spec(fields)->Ok_0[i]
        == process_ok(field_item(fields[i])) && (pipeline_spec(fields)->Ok_0[i]).0 == webp_name_of(
        field_item(fields[i]).0,
    ) by {
        assert(items[i] == field_item(fields[i]));
        assert(ents[i] == process_ok(items[i]));
    }
}

proof fn lemma_gather_missing(fields: Seq<FieldEvent>)
    requires
        forall|i: int| 0 <= i < fields.len() ==> field_readable(#[trigger] fields[i]),
        exists|i: int| 0 <= i < fields.len() && !field_complete(#[trigger] fields[i]),
    ensures
        gather_spec(fields) == Err::<Seq<(Seq<char>, Seq<u8>)>, AppError>(AppError::MissingFileName),
    decreases fields.len(),
{
    let k = choose|i: int| 0 <= i < fields.len() && !field_complete(#[trigger] fields[i]);
    if exists|i: int| 0 <= i < fields.len() - 1 && !field_complete(#[trigger] fields[i]) {
        let w = choose|i: int| 0 <= i < fields.len() - 1 && !field_complete(#[trigger] fields[i]);
        assert(fields.drop_last()[w] == fields[w]);
        assert(!field_complete(fields.drop_last()[w]));
        lemma_gather_missing(fields.drop_last());
    } else {
        assert(k == fields.len() - 1);
        lemma_gather_complete(fields.drop_last());
        assert(fields.last() matches FieldEvent::Field { filename: None, data: Some(_) });
    }
}

/// Law: when every field's body was read but some field lacks a file name,
/// the whole batch fails with MissingFileName -- no archive is produced,
/// whatever the other fields hold.
pub proof fn lemma_missing_name_fails(fields: Seq<FieldEvent>)
    requires
        forall|i: int| 0 <= i < fields.len() ==> field_readable(#[trigger] fields[i]),
        exists|i: int| 0 <= i < fields.len() && !field_complete(#[trigger] fields[i]),
    ensures
        pipeline_spec(fields) == Err::<Seq<(Seq<char>, Seq<u8>)>, AppError>(AppError::MissingFileName),
{
    lemma_gather_missing(fields);
}

/// Law: when every field is complete, the items before position k convert,
/// and the bytes at position k declare no indexed layout yet decode as no
/// supported image, the whole batch fails with InvalidImageFormat -- never a
/// partial archive.
pub proof fn lemma_invalid_image_fails(fields: Seq<FieldEvent>, k: int)
    requires
        forall|i: int| 0 <= i < fields.len() ==> field_complete(#[trigger] fields[i]),
        0 <= k < fields.len(),
        forall|i: int| 0 <= i < k ==> process_spec(
            field_item(#[trigger] fields[i]).1,
            field_item(fields[i]).0,
        ) is Ok,
        !indexed_png(field_item(fields[k]).1),
        decoded_image(field_item(fields[k]).1) is None,
    ensures
        pipeline_spec(fields) == Err::<Seq<(Seq<char>, Seq<u8>)>, AppError>(AppError::InvalidImageFormat),
{
    lemma_gather_complete(fields);
    let items = field_items(fields);
    assert forall|i: int| 0 <= i < items.take(k).len() implies process_spec(
        (#[trigger] items.take(k)[i]).1,
        items.take(k)[i].0,
    ) is Ok by {
        assert(items.take(k)[i] == items[i]);
        assert(items[i] == field_item(fields[i]));
    }
    lemma_convert_all_ok(items.take(k));
    assert(items.take(k + 1).drop_last() =~= items.take(k));
    assert(items.take(k + 1).last() == items[k]);
    assert(items[k] == field_item(fields[k]));
    assert(convert_all_spec(items.take(k + 1)) == Err::<Seq<(Seq<char>, Seq<u8>)>, AppError>(
        AppError::InvalidImageFormat,
    ));
    lemma_convert_err_extends(items, k + 1);
}

} // verus!
