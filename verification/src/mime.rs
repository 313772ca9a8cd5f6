//! The closed set of recognized content categories.

use vstd::prelude::*;

verus! {

/// A recognized content category. Values are compared by identity.
#[derive(Clone, Copy, Debug, PartialEq, Eq, Structural)]
pub enum MimeType {
    TextPlain,
    ApplicationPdf,
    ApplicationMsWord,
    ApplicationVndOpenxmlformatsOfficedocumentWordprocessingmlDocument,
    ApplicationVndOasisOpendocumentPresentation,
    ApplicationVndOasisOpendocumentSpreadsheet,
    ApplicationVndOasisOpendocumentText,
    ApplicationVndMsPowerpoint,
    ApplicationVndOpenxmlformatsOfficedocumentPresentationmlPresentation,
    ApplicationRtf,
    ApplicationVndMsExcel,
    ApplicationVndOpenxmlformatsOfficedocumentSpreadsheetmlSheet,
    ImageAvif,
    ImageBmp,
    ImageGif,
    ImageIcon,
    ImageJpeg,
    ImagePng,
    ImageSvgXml,
    ImageTiff,
    ImageWebp,
}

} // verus!
