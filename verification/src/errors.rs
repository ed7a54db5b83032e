use vstd::prelude::*;

verus! {

/// The error taxonomy of the pipeline. Every error is terminal for the whole
/// request: nothing is retried and no partial archive is ever produced.
#[derive(Debug, Clone, Copy, PartialEq, Eq, Structural)]
pub enum AppError {
    /// A multipart field carried no file name.
    MissingFileName,
    /// Reading a field's bytes failed.
    FailedToReadData,
    /// A file's bytes decode as no supported image format.
    InvalidImageFormat,
    /// The decoded image has an unsupported pixel layout, or encoding it
    /// produced no output.
    ConversionFailed,
    /// No items survived to packaging.
    NoImagesProcessed,
    /// Opening a new entry in the archive failed.
    ZipStartError,
    /// Writing an entry's bytes into the archive failed.
    ZipWriteError,
    /// Finalizing the archive failed.
    ZipFinishError,
    /// The multipart framing itself failed.
    ProcessingError,
    /// Decoding an image failed.
    LoadError,
    /// The minifier rejected its input.
    MinifyError,
}

/// The human-readable message for each error, as the HTTP layer surfaces it.
pub open spec fn error_message(e: AppError) -> Seq<char> {
    match e {
        AppError::MissingFileName => "Missing file name in multipart form-data."@,
        AppError::FailedToReadData => "Failed to read data from the field."@,
        AppError::InvalidImageFormat => "Invalid image format encountered."@,
        AppError::ConversionFailed => "Image conversion to WebP failed."@,
        AppError::NoImagesProcessed => "No images were processed."@,
        AppError::ZipStartError => "Failed to start a new file in the ZIP archive."@,
        AppError::ZipWriteError => "Failed to write data to the ZIP archive."@,
        AppError::ZipFinishError => "Failed to finish the ZIP archive."@,
        AppError::ProcessingError => "An error occurred while processing the multipart form-data."@,
        AppError::LoadError => "Failed to load image."@,
        AppError::MinifyError => "Failed to minify the CSS or JS."@,
    }
}

impl AppError {
    /// The message that describes this error.
    pub fn message(&self) -> (r: &'static str)
        ensures
            r@ == error_message(*self),
    {
        match self {
            AppError::MissingFileName => "Missing file name in multipart form-data.",
            AppError::FailedToReadData => "Failed to read data from the field.",
            AppError::InvalidImageFormat => "Invalid image format encountered.",
            AppError::ConversionFailed => "Image conversion to WebP failed.",
            AppError::NoImagesProcessed => "No images were processed.",
            AppError::ZipStartError => "Failed to start a new file in the ZIP archive.",
            AppError::ZipWriteError => "Failed to write data to the ZIP archive.",
            AppError::ZipFinishError => "Failed to finish the ZIP archive.",
            AppError::ProcessingError => "An error occurred while processing the multipart form-data.",
            AppError::LoadError => "Failed to load image.",
            AppError::MinifyError => "Failed to minify the CSS or JS.",
        }
    }
}

} // verus!
