//! The data model of parsed EPUB packages, the standardized workspace,
//! navigation entries and the results handed to the front end.
//!
//! Maps of the package (manifest by id, path maps) are lists of pairs in
//! insertion order; the functions that fill them keep keys unique.

use vstd::prelude::*;
use crate::text::{string_of, extend_chars, chars_of};

verus! {

/// Result of validating an EPUB file before it is imported.
pub struct EpubInfo {
    pub id: String,
    pub name: String,
    pub path: String,
    pub loaded_at: u64,
    pub epub_id: String,
    pub refactored_structure: RefactoredEpubResult,
}

/// Outcome of an import request.
pub struct ImportResult {
    pub success: bool,
    pub epub_info: Option<EpubInfo>,
    pub error: Option<String>,
}

/// A parsed EPUB package.
pub struct ParsedEpub {
    pub metadata: EpubMetadata,
    pub manifest: Manifest,
    pub spine: Spine,
    pub table_of_contents: Option<Toc>,
}

/// Dublin Core metadata of a package.
#[derive(Clone)]
pub struct EpubMetadata {
    pub title: String,
    pub author: Option<String>,
    pub language: Option<String>,
    pub identifier: String,
}

/// The manifest of a package: every item, keyed by its id.
pub struct Manifest {
    pub items: Vec<ManifestItem>,
}

/// One manifest item.
#[derive(Clone)]
pub struct ManifestItem {
    pub id: String,
    pub href: String,
    pub media_type: String,
    pub properties: Option<Vec<String>>,
}

/// Reading order of a package.
pub struct Spine {
    pub itemrefs: Vec<SpineItemref>,
}

/// One entry of the reading order.
#[derive(Clone)]
pub struct SpineItemref {
    pub idref: String,
    pub linear: Option<bool>,
}

/// Table of contents of a package.
pub struct Toc {
    pub nav_points: Vec<NavPoint>,
}

/// One navigation point with its nested points.
pub struct NavPoint {
    pub id: String,
    pub label: String,
    pub content_src: String,
    pub children: Vec<NavPoint>,
}

/// Chapter content with its embedded (Base64) resources.
pub struct ChapterContent {
    pub html: String,
    pub resources: Vec<(String, ResourceData)>,
}

/// A resource encoded in Base64.
pub struct ResourceData {
    pub mime_type: String,
    pub data: String,
}

/// The structure of an EPUB as the original package lays it out.
pub struct EpubStructureResult {
    pub metadata: EpubMetadata,
    pub oebps_path: String,
    pub content_opf: String,
    pub toc_ncx: Option<String>,
    pub nav_xhtml: Option<String>,
    pub chapters: Vec<ChapterInfo>,
    pub styles: Vec<String>,
    pub images: Vec<String>,
}

/// A chapter of the original package.
#[derive(Clone)]
pub struct ChapterInfo {
    pub id: String,
    pub path: String,
    pub name: String,
    pub order: usize,
}

/// Errors of the standardization and workspace operations.
#[derive(Debug)]
pub enum RefactorError {
    IoError(String),
    ParseError(String),
    InvalidStructure(String),
    MissingFile(String),
    XmlError(String),
}

/// The characters `prefix` followed by those of `msg`.
pub open spec fn prefixed(prefix: Seq<char>, msg: Seq<char>) -> Seq<char> {
    prefix + msg
}

impl RefactorError {
    /// The prefix that the message of each kind of error carries.
    pub open spec fn spec_prefix(&self) -> Seq<char> {
        match self {
            RefactorError::IoError(_) => "IO 错误: "@,
            RefactorError::ParseError(_) => "解析错误: "@,
            RefactorError::InvalidStructure(_) => "无效结构: "@,
            RefactorError::MissingFile(_) => "文件缺失: "@,
            RefactorError::XmlError(_) => "XML 错误: "@,
        }
    }

    /// The detail carried by the error.
    pub open spec fn spec_detail(&self) -> Seq<char> {
        match self {
            RefactorError::IoError(m) => m@,
            RefactorError::ParseError(m) => m@,
            RefactorError::InvalidStructure(m) => m@,
            RefactorError::MissingFile(m) => m@,
            RefactorError::XmlError(m) => m@,
        }
    }

    /// The message shown to users: the kind of error, then its detail.
    pub fn to_message(&self) -> (r: String)
        ensures
            r@ == self.spec_prefix() + self.spec_detail(),
    {
        let (prefix, detail) = match self {
            RefactorError::IoError(m) => ("IO 错误: ", m),
            RefactorError::ParseError(m) => ("解析错误: ", m),
            RefactorError::InvalidStructure(m) => ("无效结构: ", m),
            RefactorError::MissingFile(m) => ("文件缺失: ", m),
            RefactorError::XmlError(m) => ("XML 错误: ", m),
        };
        let mut out = chars_of(prefix);
        let d = chars_of(detail.as_str());
        extend_chars(&mut out, d.as_slice());
        string_of(out.as_slice())
    }
}

/// The standardized package kept in the workspace.
pub struct RefactoredEpub {
    pub epub_id: String,
    pub metadata: EpubMetadata,
    pub manifest: StandardManifest,
    pub spine: StandardSpine,
    pub navigation: Navigation,
    pub storage_path: String,
    pub file_map: FileMap,
    pub created_at: u64,
}

/// The manifest of the standardized package.
#[derive(Clone)]
pub struct StandardManifest {
    pub items: Vec<StandardManifestItem>,
}

/// One item of the standardized manifest; its href is relative to `OEBPS/`.
#[derive(Clone)]
pub struct StandardManifestItem {
    pub id: String,
    pub href: String,
    pub media_type: String,
    pub properties: Option<Vec<String>>,
}

/// The reading order of the standardized package.
#[derive(Clone)]
pub struct StandardSpine {
    pub itemrefs: Vec<StandardSpineItemref>,
}

/// One entry of the standardized reading order.
#[derive(Clone)]
pub struct StandardSpineItemref {
    pub idref: String,
    pub linear: Option<bool>,
}

/// Navigation of the standardized package.
pub struct Navigation {
    pub toc: Vec<TocEntry>,
}

/// One entry of the table of contents.
pub struct TocEntry {
    pub id: String,
    pub label: String,
    pub content_src: String,
    pub level: usize,
    pub children: Vec<TocEntry>,
}

/// The resources of a package, by kind.
pub struct ResourceCollection {
    pub styles: Vec<ResourceFile>,
    pub images: Vec<ResourceFile>,
    pub fonts: Vec<ResourceFile>,
    pub misc: Vec<ResourceFile>,
}

/// A resource with its original and standard path.
#[derive(Clone)]
pub struct ResourceFile {
    pub id: String,
    pub original_path: String,
    pub standard_path: String,
    pub media_type: String,
}

/// A chapter with its original and standard path.
#[derive(Clone)]
pub struct ExtendedChapterInfo {
    pub id: String,
    pub original_path: String,
    pub standard_path: String,
    pub title: Option<String>,
    pub order: usize,
    pub media_type: String,
}

/// Maps between original and standard paths, as pairs in insertion order
/// with unique keys.
pub struct FileMap {
    pub original_to_standard: Vec<(String, String)>,
    pub standard_to_original: Vec<(String, String)>,
}

/// The cover page, EPUB 3 navigation document and NCX of a package.
pub struct SpecialFiles {
    pub cover: Option<String>,
    pub nav: Option<String>,
    pub ncx: Option<String>,
}

/// Everything the standardization decides about a package.
pub struct EpubStructureAnalysis {
    pub chapters: Vec<ExtendedChapterInfo>,
    pub resources: ResourceCollection,
    pub special_files: SpecialFiles,
    pub file_map: FileMap,
}

/// The standardized package as the front end receives it.
pub struct RefactoredEpubResult {
    pub epub_id: String,
    pub metadata: EpubMetadata,
    pub structure: StandardEpubStructure,
    pub storage_path: String,
}

/// Chapters, resources and navigation of the standardized package.
pub struct StandardEpubStructure {
    pub chapters: Vec<StandardChapter>,
    pub styles: Vec<String>,
    pub images: Vec<String>,
    pub fonts: Vec<String>,
    pub navigation: Vec<NavigationEntry>,
}

/// A chapter of the standardized package.
pub struct StandardChapter {
    pub id: String,
    pub original_filename: String,
    pub standard_path: String,
    pub title: Option<String>,
    pub order: usize,
}

/// One navigation entry for the front end.
pub struct NavigationEntry {
    pub id: String,
    pub label: String,
    pub content_src: String,
    pub level: usize,
    pub children: Vec<NavigationEntry>,
}

/// A table-of-contents entry with the chapter files it covers.
pub struct TocChapterDto {
    pub id: String,
    pub label: String,
    pub content_src: String,
    pub file_path: Option<String>,
    pub file_paths: Vec<String>,
    pub file_name: Option<String>,
    pub file_names: Vec<String>,
    pub anchor: Option<String>,
    pub level: usize,
    pub order: usize,
    pub children: Vec<TocChapterDto>,
}

/// A table-of-contents entry in a new order chosen by the user.
pub struct TocOrderDto {
    pub id: String,
    pub label: String,
    pub content_src: String,
    pub children: Vec<TocOrderDto>,
}

/// A request to change one table-of-contents entry.
pub struct TocUpdateRequest {
    pub entry_id: String,
    pub new_label: Option<String>,
    pub new_content_src: Option<String>,
}

/// Totals of a batch of image downloads.
pub struct ImageProcessResult {
    pub task_id: String,
    pub total_chapters: u32,
    pub processed_chapters: u32,
    pub detected_raw_matches: u32,
    pub detected_unique_urls: u32,
    pub successful_images: u32,
    pub failed_images: u32,
    pub skipped_duplicates: u32,
    pub inserted_images: u32,
    pub failures: Vec<ImageProcessFailure>,
}

/// One image that could not be downloaded.
pub struct ImageProcessFailure {
    pub chapter_path: String,
    pub image_url: String,
    pub error: String,
}

/// Progress of a batch of image downloads.
pub struct ImageProcessProgress {
    pub task_id: String,
    pub chapter_path: String,
    pub current_chapter_index: u32,
    pub total_chapters: u32,
    pub image_url: Option<String>,
    pub processed_unique_images: u32,
    pub total_unique_images: u32,
    pub successful_images: u32,
    pub failed_images: u32,
    pub skipped_duplicates: u32,
    pub stage: String,
    pub message: String,
}

/// The resolution of a link inside a chapter.
pub struct ResolvedChapterHrefDto {
    pub chapter_path: Option<String>,
    pub anchor: Option<String>,
    pub same_chapter: bool,
}

/// The kind of a resource of the standardized package.
#[derive(Clone, Copy, Debug, PartialEq, Eq, Structural)]
pub enum ResourceIndexType {
    Chapter,
    Style,
    Image,
    Font,
    Nav,
    Ncx,
    Misc,
}

/// One resource of the index with the files that reference it.
#[derive(Clone)]
pub struct ResourceIndexItem {
    pub path: String,
    pub href: String,
    pub manifest_id: Option<String>,
    pub media_type: String,
    pub resource_type: ResourceIndexType,
    pub properties: Option<Vec<String>>,
    pub referenced_by: Vec<String>,
}

/// One reference found in a file of the package.
#[derive(Clone)]
pub struct ResourceReference {
    pub source_path: String,
    pub target_path: Option<String>,
    pub raw_reference: String,
    pub attribute: String,
    pub is_resolved: bool,
}

/// Which resources reference which, for the whole package.
pub struct ResourceIndex {
    pub version: u32,
    pub epub_id: String,
    pub generated_at: u64,
    pub resources: Vec<ResourceIndexItem>,
    pub references: Vec<ResourceReference>,
    pub unresolved_references: Vec<ResourceReference>,
}

/// What the workspace records about the book it was made from.
pub struct OghamWorkspaceMetadata {
    pub version: u32,
    pub epub_id: String,
    pub source_path: String,
    pub source_name: String,
    pub file_map: FileMap,
    pub created_at: u64,
    pub updated_at: u64,
}

} // verus!
