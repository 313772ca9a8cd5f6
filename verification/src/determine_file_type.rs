//! The type-determination cascade: by extension, then by heuristic
//! readability, then by magic-byte signature (a reserved slot that never
//! decides). The first strategy that returns a value wins, so resolution
//! is a function of the file's path and bytes alone.

use vstd::prelude::*;

use crate::mime::MimeType;
use crate::pathname::{matches_lower, spec_extension};
use crate::readability::{mostly_readable, readable_fraction_exceeds_threshold};
use crate::scanned_file::ScannedFile;

verus! {

/// The static extension table: lowercased extension to content category.
pub open spec fn ext_table() -> Seq<(Seq<char>, MimeType)> {
    seq![
        ("txt"@, MimeType::TextPlain),
        ("xml"@, MimeType::TextPlain),
        ("json"@, MimeType::TextPlain),
        ("md"@, MimeType::TextPlain),
        ("ascii"@, MimeType::TextPlain),
        ("env"@, MimeType::TextPlain),
        ("gitignore"@, MimeType::TextPlain),
        ("taurignore"@, MimeType::TextPlain),
        ("lock"@, MimeType::TextPlain),
        ("toml"@, MimeType::TextPlain),
        ("yaml"@, MimeType::TextPlain),
        ("rs"@, MimeType::TextPlain),
        ("js"@, MimeType::TextPlain),
        ("ts"@, MimeType::TextPlain),
        ("c"@, MimeType::TextPlain),
        ("cpp"@, MimeType::TextPlain),
        ("cs"@, MimeType::TextPlain),
        ("php"@, MimeType::TextPlain),
        ("html"@, MimeType::TextPlain),
        ("css"@, MimeType::TextPlain),
        ("csv"@, MimeType::TextPlain),
        ("iml"@, MimeType::TextPlain),
        ("cmd"@, MimeType::TextPlain),
        ("ps1"@, MimeType::TextPlain),
        ("sh"@, MimeType::TextPlain),
        ("bash"@, MimeType::TextPlain),
        ("fish"@, MimeType::TextPlain),
        ("java"@, MimeType::TextPlain),
        ("bat"@, MimeType::TextPlain),
        ("py"@, MimeType::TextPlain),
        ("tsx"@, MimeType::TextPlain),
        ("jsx"@, MimeType::TextPlain),
        ("gradle"@, MimeType::TextPlain),
        ("properties"@, MimeType::TextPlain),
        ("groovy"@, MimeType::TextPlain),
        ("avif"@, MimeType::ImageAvif),
        ("bmp"@, MimeType::ImageBmp),
        ("doc"@, MimeType::ApplicationMsWord),
        ("docx"@, MimeType::ApplicationVndOpenxmlformatsOfficedocumentWordprocessingmlDocument),
        ("gif"@, MimeType::ImageGif),
        ("ico"@, MimeType::ImageIcon),
        ("jpg"@, MimeType::ImageJpeg),
        ("jpeg"@, MimeType::ImageJpeg),
        ("odp"@, MimeType::ApplicationVndOasisOpendocumentPresentation),
        ("ods"@, MimeType::ApplicationVndOasisOpendocumentSpreadsheet),
        ("odt"@, MimeType::ApplicationVndOasisOpendocumentText),
        ("png"@, MimeType::ImagePng),
        ("pdf"@, MimeType::ApplicationPdf),
        ("ppt"@, MimeType::ApplicationVndMsPowerpoint),
        ("pptx"@, MimeType::ApplicationVndOpenxmlformatsOfficedocumentPresentationmlPresentation),
        ("rtf"@, MimeType::ApplicationRtf),
        ("svg"@, MimeType::ImageSvgXml),
        ("tif"@, MimeType::ImageTiff),
        ("tiff"@, MimeType::ImageTiff),
        ("xls"@, MimeType::ApplicationVndMsExcel),
        ("xlsx"@, MimeType::ApplicationVndOpenxmlformatsOfficedocumentSpreadsheetmlSheet),
    ]
}

/// First entry of `t` whose key the lowercased `ext` equals, if any.
pub open spec fn table_lookup(t: Seq<(Seq<char>, MimeType)>, ext: Seq<char>) -> Option<MimeType>
    decreases t.len(),
{
    if t.len() == 0 {
        None
    } else if matches_lower(ext, t[0].0) {
        Some(t[0].1)
    } else {
        table_lookup(t.drop_first(), ext)
    }
}

/// What lookup by extension answers for `path` against table `t`.
pub open spec fn spec_ext_lookup(t: Seq<(Seq<char>, MimeType)>, path: Seq<char>) -> Option<
    MimeType,
> {
    match spec_extension(path) {
        None => None,
        Some(e) => table_lookup(t, e),
    }
}

/// What the full cascade answers over table `t`: extension lookup first,
/// then the readability heuristic. The magic-byte slot never decides.
pub open spec fn spec_resolve_with_table(
    t: Seq<(Seq<char>, MimeType)>,
    path: Seq<char>,
    bytes: Seq<u8>,
) -> Option<MimeType> {
    match spec_ext_lookup(t, path) {
        Some(m) => Some(m),
        None => if mostly_readable(bytes) {
            Some(MimeType::TextPlain)
        } else {
            None
        },
    }
}

/// Content-type resolution as a pure function of path and bytes.
pub open spec fn spec_resolve(path: Seq<char>, bytes: Seq<u8>) -> Option<MimeType> {
    spec_resolve_with_table(ext_table(), path, bytes)
}

/// An extension-to-category table held as a list of entries.
pub struct ExtensionMimeMap {
    pub entries: Vec<(String, MimeType)>,
}

impl View for ExtensionMimeMap {
    type V = Seq<(Seq<char>, MimeType)>;

    open spec fn view(&self) -> Seq<(Seq<char>, MimeType)> {
        self.entries@.map_values(|e: (String, MimeType)| (e.0@, e.1))
    }
}

/// Classifies by the lowercased extension of the final path component.
pub struct DetermineFileTypeByExtension {
    pub map: ExtensionMimeMap,
}

impl DetermineFileTypeByExtension {
    pub fn new(file_extension_mime_type_map: ExtensionMimeMap) -> (r: Self)
        ensures
            r.map@ == file_extension_mime_type_map@,
    {
        Self { map: file_extension_mime_type_map }
    }

    /// Looks the extension of `file` up in the table; no extension or no
    /// entry means the strategy passes.
    pub fn determine(&self, file: &ScannedFile) -> (r: Option<MimeType>)
        ensures
            r == spec_ext_lookup(self.map@, file.path@),
    {
        let path: &str = file.path.as_str();
        match crate::pathname::extension_start(path) {
            None => None,
            Some(d) => {
                let ghost ext = path@.subrange(d as int, path@.len() as int);
                let n: usize = self.map.entries.len();
                let mut k: usize = 0;
                proof {
                    assert(self.map@.skip(0) =~= self.map@);
                }
                while k < n
                    invariant
                        n == self.map.entries.len(),
                        k <= n,
                        d <= path@.len(),
                        path@ == file.path@,
                        ext == path@.subrange(d as int, path@.len() as int),
                        spec_extension(file.path@) == Some(ext),
                        table_lookup(self.map@, ext) == table_lookup(
                            self.map@.skip(k as int),
                            ext,
                        ),
                    decreases n - k,
                {
                    let entry = &self.map.entries[k];
                    proof {
                        assert(self.map@.len() == self.map.entries@.len());
                        assert(self.map@.skip(k as int)[0] == self.map@[k as int]);
                        assert(self.map@[k as int] == (entry.0@, entry.1));
                    }
                    if crate::pathname::suffix_matches_lower(path, d, entry.0.as_str()) {
                        proof {
                            assert(matches_lower(ext, self.map@.skip(k as int)[0].0));
                            assert(table_lookup(self.map@.skip(k as int), ext) == Some(entry.1));
                        }
                        return Some(entry.1);
                    }
                    proof {
                        assert(self.map@.skip(k as int).drop_first() =~= self.map@.skip(k + 1));
                    }
                    k = k + 1;
                }
                proof {
                    assert(self.map@.skip(n as int) =~= Seq::<(Seq<char>, MimeType)>::empty());
                }
                None
            },
        }
    }
}

/// Builds the extension strategy over the static table.
pub struct DetermineFileTypeByExtensionFactory;

impl DetermineFileTypeByExtensionFactory {
    pub fn create() -> (r: DetermineFileTypeByExtension)
        ensures
            r.map@ == ext_table(),
    {
        DetermineFileTypeByExtension::new(Self::get_file_type_mime_type_map())
    }

    /// The static extension table as a value.
    pub fn get_file_type_mime_type_map() -> (r: ExtensionMimeMap)
        ensures
            r@ == ext_table(),
    {
        let mut entries: Vec<(String, MimeType)> = Vec::new();
        entries.push(("txt".to_owned(), MimeType::TextPlain));
        entries.push(("xml".to_owned(), MimeType::TextPlain));
        entries.push(("json".to_owned(), MimeType::TextPlain));
        entries.push(("md".to_owned(), MimeType::TextPlain));
        entries.push(("ascii".to_owned(), MimeType::TextPlain));
        entries.push(("env".to_owned(), MimeType::TextPlain));
        entries.push(("gitignore".to_owned(), MimeType::TextPlain));
        entries.push(("taurignore".to_owned(), MimeType::TextPlain));
        entries.push(("lock".to_owned(), MimeType::TextPlain));
        entries.push(("toml".to_owned(), MimeType::TextPlain));
        entries.push(("yaml".to_owned(), MimeType::TextPlain));
        entries.push(("rs".to_owned(), MimeType::TextPlain));
        entries.push(("js".to_owned(), MimeType::TextPlain));
        entries.push(("ts".to_owned(), MimeType::TextPlain));
        entries.push(("c".to_owned(), MimeType::TextPlain));
        entries.push(("cpp".to_owned(), MimeType::TextPlain));
        entries.push(("cs".to_owned(), MimeType::TextPlain));
        entries.push(("php".to_owned(), MimeType::TextPlain));
        entries.push(("html".to_owned(), MimeType::TextPlain));
        entries.push(("css".to_owned(), MimeType::TextPlain));
        entries.push(("csv".to_owned(), MimeType::TextPlain));
        entries.push(("iml".to_owned(), MimeType::TextPlain));
        entries.push(("cmd".to_owned(), MimeType::TextPlain));
        entries.push(("ps1".to_owned(), MimeType::TextPlain));
        entries.push(("sh".to_owned(), MimeType::TextPlain));
        entries.push(("bash".to_owned(), MimeType::TextPlain));
        entries.push(("fish".to_owned(), MimeType::TextPlain));
        entries.push(("java".to_owned(), MimeType::TextPlain));
        entries.push(("bat".to_owned(), MimeType::TextPlain));
        entries.push(("py".to_owned(), MimeType::TextPlain));
        entries.push(("tsx".to_owned(), MimeType::TextPlain));
        entries.push(("jsx".to_owned(), MimeType::TextPlain));
        entries.push(("gradle".to_owned(), MimeType::TextPlain));
        entries.push(("properties".to_owned(), MimeType::TextPlain));
        entries.push(("groovy".to_owned(), MimeType::TextPlain));
        entries.push(("avif".to_owned(), MimeType::ImageAvif));
        entries.push(("bmp".to_owned(), MimeType::ImageBmp));
        entries.push(("doc".to_owned(), MimeType::ApplicationMsWord));
        entries.push(
            (
                "docx".to_owned(),
                MimeType::ApplicationVndOpenxmlformatsOfficedocumentWordprocessingmlDocument,
            ),
        );
        entries.push(("gif".to_owned(), MimeType::ImageGif));
        entries.push(("ico".to_owned(), MimeType::ImageIcon));
        entries.push(("jpg".to_owned(), MimeType::ImageJpeg));
        entries.push(("jpeg".to_owned(), MimeType::ImageJpeg));
        entries.push(("odp".to_owned(), MimeType::ApplicationVndOasisOpendocumentPresentation));
        entries.push(("ods".to_owned(), MimeType::ApplicationVndOasisOpendocumentSpreadsheet));
        entries.push(("odt".to_owned(), MimeType::ApplicationVndOasisOpendocumentText));
        entries.push(("png".to_owned(), MimeType::ImagePng));
        entries.push(("pdf".to_owned(), MimeType::ApplicationPdf));
        entries.push(("ppt".to_owned(), MimeType::ApplicationVndMsPowerpoint));
        entries.push(
            (
                "pptx".to_owned(),
                MimeType::ApplicationVndOpenxmlformatsOfficedocumentPresentationmlPresentation,
            ),
        );
        entries.push(("rtf".to_owned(), MimeType::ApplicationRtf));
        entries.push(("svg".to_owned(), MimeType::ImageSvgXml));
        entries.push(("tif".to_owned(), MimeType::ImageTiff));
        entries.push(("tiff".to_owned(), MimeType::ImageTiff));
        entries.push(("xls".to_owned(), MimeType::ApplicationVndMsExcel));
        entries.push(
            (
                "xlsx".to_owned(),
                MimeType::ApplicationVndOpenxmlformatsOfficedocumentSpreadsheetmlSheet,
            ),
        );
        let r = ExtensionMimeMap { entries };
        proof {
            assert(r@ =~= ext_table());
        }
        r
    }
}

/// Classifies by scanning the bytes for readability.
pub struct DetermineFileTypeByHumanReadability;

impl DetermineFileTypeByHumanReadability {
    pub fn new() -> (r: Self) {
        Self {}
    }

    /// Emits plain text when the readable fraction of the bytes strictly
    /// exceeds 7/10; passes otherwise.
    pub fn determine_from_bytes(&self, bytes: &[u8]) -> (r: Option<MimeType>)
        ensures
            r == if mostly_readable(bytes@) {
                Some(MimeType::TextPlain)
            } else {
                None::<MimeType>
            },
    {
        if readable_fraction_exceeds_threshold(bytes) {
            Some(MimeType::TextPlain)
        } else {
            None
        }
    }
}

/// Builds the readability strategy.
pub struct DetermineFileTypeByHumanReadabilityFactory;

impl DetermineFileTypeByHumanReadabilityFactory {
    pub fn create() -> (r: DetermineFileTypeByHumanReadability) {
        DetermineFileTypeByHumanReadability::new()
    }
}

/// The reserved magic-byte slot: always passes.
pub struct DetermineFileTypeLibMagic;

impl DetermineFileTypeLibMagic {
    pub fn new() -> (r: Self) {
        Self {}
    }

    pub fn determine(&self, _file: &ScannedFile) -> (r: Option<MimeType>)
        ensures
            r is None,
    {
        None
    }
}

/// The ordered cascade of the three strategies.
pub struct DefaultDetermineFileType {
    pub by_extension: DetermineFileTypeByExtension,
    pub by_human_readability: DetermineFileTypeByHumanReadability,
    pub by_lib_magic: DetermineFileTypeLibMagic,
}

impl DefaultDetermineFileType {
    /// The cascade resolves against the static table.
    pub open spec fn wf(&self) -> bool {
        self.by_extension.map@ == ext_table()
    }

    pub fn new(
        by_extension: DetermineFileTypeByExtension,
        by_human_readability: DetermineFileTypeByHumanReadability,
        by_lib_magic: DetermineFileTypeLibMagic,
    ) -> (r: Self)
        ensures
            r.by_extension.map@ == by_extension.map@,
    {
        Self { by_extension, by_human_readability, by_lib_magic }
    }

    /// Resolves the content type of `file` with contents `bytes`: the first
    /// strategy in order that returns a value wins.
    pub fn determine(&self, file: &ScannedFile, bytes: &[u8]) -> (r: Option<MimeType>)
        ensures
            r == spec_resolve_with_table(self.by_extension.map@, file.path@, bytes@),
            self.wf() ==> r == spec_resolve(file.path@, bytes@),
    {
        let by_ext = self.by_extension.determine(file);
        if by_ext.is_some() {
            return by_ext;
        }
        let by_read = self.by_human_readability.determine_from_bytes(bytes);
        if by_read.is_some() {
            return by_read;
        }
        self.by_lib_magic.determine(file)
    }
}

/// Builds the cascade in its required order.
pub struct DefaultDetermineFileTypeFactory;

impl DefaultDetermineFileTypeFactory {
    pub fn create() -> (r: DefaultDetermineFileType)
        ensures
            r.wf(),
    {
        DefaultDetermineFileType::new(
            DetermineFileTypeByExtensionFactory::create(),
            DetermineFileTypeByHumanReadabilityFactory::create(),
            DetermineFileTypeLibMagic::new(),
        )
    }
}

} // verus!
