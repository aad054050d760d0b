//! Errors of reading an original package, and the location of its OPF.

use vstd::prelude::*;
use crate::text::{chars_of, decimal, decimal_chars, extend_chars, extend_str, rfind_char, rfind_char_exec, slice_chars, string_of};
use crate::models::EpubMetadata;
use crate::epub_path::string_views;
use crate::opf_parse::{split_words, words};

verus! {

/// Errors of reading an original EPUB package.
#[derive(Debug)]
pub enum EpubParseError {
    InvalidZip(String),
    XmlError(String),
    MissingFile(String),
    ContainerError(String),
    OpfError(String),
}

impl EpubParseError {
    /// The prefix that the message of each kind of error carries.
    pub open spec fn spec_prefix(&self) -> Seq<char> {
        match self {
            EpubParseError::InvalidZip(_) => "无效的 ZIP 文件: "@,
            EpubParseError::XmlError(_) => "XML 解析错误: "@,
            EpubParseError::MissingFile(_) => "缺少必需文件: "@,
            EpubParseError::ContainerError(_) => "容器解析错误: "@,
            EpubParseError::OpfError(_) => "OPF 解析错误: "@,
        }
    }

    /// The detail carried by the error.
    pub open spec fn spec_detail(&self) -> Seq<char> {
        match self {
            EpubParseError::InvalidZip(m) => m@,
            EpubParseError::XmlError(m) => m@,
            EpubParseError::MissingFile(m) => m@,
            EpubParseError::ContainerError(m) => m@,
            EpubParseError::OpfError(m) => m@,
        }
    }

    /// The message shown to users: the kind of error, then its detail.
    pub fn to_message(&self) -> (r: String)
        ensures
            r@ == self.spec_prefix() + self.spec_detail(),
    {
        let (prefix, detail) = match self {
            EpubParseError::InvalidZip(m) => ("无效的 ZIP 文件: ", m),
            EpubParseError::XmlError(m) => ("XML 解析错误: ", m),
            EpubParseError::MissingFile(m) => ("缺少必需文件: ", m),
            EpubParseError::ContainerError(m) => ("容器解析错误: ", m),
            EpubParseError::OpfError(m) => ("OPF 解析错误: ", m),
        };
        let mut out = chars_of(prefix);
        let d = chars_of(detail.as_str());
        extend_chars(&mut out, d.as_slice());
        string_of(out.as_slice())
    }
}

/// The directory of the OPF file: everything before its last `/`.
pub open spec fn spec_opf_base_path(opf_path: Seq<char>) -> Seq<char> {
    match rfind_char(opf_path, '/') {
        Some(i) => opf_path.take(i),
        None => seq![],
    }
}

/// The directory of the OPF file (empty when it is at the root).
pub fn get_opf_base_path(opf_path: &str) -> (r: String)
    ensures
        r@ == spec_opf_base_path(opf_path@),
{
    let v = chars_of(opf_path);
    proof {
        crate::epub_path::lemma_rfind_char_bounds(v@, '/', v@.len() as int);
    }
    match rfind_char_exec(v.as_slice(), '/') {
        Some(i) => string_of(slice_chars(v.as_slice(), 0, i).as_slice()),
        None => String::new(),
    }
}

/// The metadata of a package from its `title`, `creator`, `language` and
/// `identifier` values: without a title, `Unknown Title`; without an
/// identifier, the empty string.
pub fn metadata_from(
    title: Option<String>,
    creator: Option<String>,
    language: Option<String>,
    identifier: Option<String>,
) -> (r: EpubMetadata)
    ensures
        r.title@ == match title {
            Some(t) => t@,
            None => "Unknown Title"@,
        },
        r.author == creator,
        r.language == language,
        r.identifier@ == match identifier {
            Some(i) => i@,
            None => Seq::<char>::empty(),
        },
{
    let title = match title {
        Some(t) => t,
        None => string_of(chars_of("Unknown Title").as_slice()),
    };
    let identifier = match identifier {
        Some(i) => i,
        None => String::new(),
    };
    EpubMetadata { title, author: creator, language, identifier }
}

/// The properties of a manifest item from its `properties` attribute: none
/// without one or for an empty one, else its white-space separated words.
pub fn manifest_properties(properties: Option<String>) -> (r: Option<Vec<String>>)
    ensures
        match properties {
            Some(p) => if p@.len() == 0 {
                r is None
            } else {
                r matches Some(v) && string_views(v@) == words(p@)
            },
            None => r is None,
        },
{
    match properties {
        Some(p) => {
            let c = chars_of(p.as_str());
            if c.len() == 0 {
                None
            } else {
                Some(split_words(c.as_slice()))
            }
        },
        None => None,
    }
}

/// The id of a navigation point from its play order, as its debug form:
/// `nav-point-Some(N)` or `nav-point-None`.
pub fn nav_point_id(play_order: Option<usize>) -> (r: String)
    ensures
        r@ == "nav-point-"@ + match play_order {
            Some(n) => "Some("@ + decimal(n as nat) + ")"@,
            None => "None"@,
        },
{
    let mut out = chars_of("nav-point-");
    match play_order {
        Some(n) => {
            extend_str(&mut out, "Some(");
            let d = decimal_chars(n as u128);
            extend_chars(&mut out, d.as_slice());
            extend_str(&mut out, ")");
        },
        None => {
            extend_str(&mut out, "None");
        },
    }
    string_of(out.as_slice())
}

} // verus!
