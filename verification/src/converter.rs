//! Simplified/Traditional Chinese conversion of the workspace's text files.

use vstd::prelude::*;
use crate::text::{chars_eq, chars_of, extend_chars, lowercase_chars, string_of};

verus! {

/// Totals of a conversion run.
#[derive(Clone)]
pub struct ConversionResult {
    pub task_id: String,
    pub files_converted: usize,
    pub total_files: usize,
}

/// Progress of a conversion run.
#[derive(Clone)]
pub struct ConversionProgress {
    pub task_id: String,
    pub file_path: Option<String>,
    pub processed_files: usize,
    pub total_files: usize,
    pub files_converted: usize,
    pub progress: u32,
    pub stage: String,
    pub message: String,
}

/// The direction of a conversion.
#[derive(Clone, Copy, Debug, PartialEq, Eq, Structural)]
pub enum ConversionMode {
    SimplifiedToTraditional,
    TraditionalToSimplified,
}

/// What `zhconv::zhconv` returns for `text` converted to Traditional
/// (`ZhHant`, when `to_traditional`) or Simplified (`ZhCN`) Chinese.
pub uninterp spec fn zhconv_result(text: Seq<char>, to_traditional: bool) -> Seq<char>;

/// `zhconv::zhconv` with the built-in conversion tables; the result is named
/// by `zhconv_result`, a function of the text and the target alone.
#[verifier::external_body]
fn zhconv_convert(text: &str, to_traditional: bool) -> (r: String)
    ensures
        r@ == zhconv_result(text@, to_traditional),
{
    zhconv::zhconv(text, if to_traditional { zhconv::Variant::ZhHant } else { zhconv::Variant::ZhCN })
}

impl ConversionMode {
    /// `s2t` and `t2s` name the two directions; anything else is refused
    /// with a message that names it.
    pub fn from_str(s: &str) -> (r: Result<Self, String>)
        ensures
            s@ == "s2t"@ ==> r == Ok::<ConversionMode, String>(ConversionMode::SimplifiedToTraditional),
            s@ == "t2s"@ ==> r == Ok::<ConversionMode, String>(ConversionMode::TraditionalToSimplified),
            s@ != "s2t"@ && s@ != "t2s"@ ==> (r matches Err(m) && m@ == "无效的转换模式: "@ + s@
                + ", 支持的模式: s2t, t2s"@),
    {
        let v = chars_of(s);
        proof {
            reveal_strlit("s2t");
            reveal_strlit("t2s");
            assert("s2t"@[0] != "t2s"@[0]);
        }
        let a = chars_of("s2t");
        let b = chars_of("t2s");
        if chars_eq(v.as_slice(), a.as_slice()) {
            Ok(ConversionMode::SimplifiedToTraditional)
        } else if chars_eq(v.as_slice(), b.as_slice()) {
            Ok(ConversionMode::TraditionalToSimplified)
        } else {
            let mut m = chars_of("无效的转换模式: ");
            extend_chars(&mut m, v.as_slice());
            let tail = chars_of(", 支持的模式: s2t, t2s");
            extend_chars(&mut m, tail.as_slice());
            Err(string_of(m.as_slice()))
        }
    }

    /// Whether the target is Traditional Chinese.
    pub open spec fn spec_to_traditional(self) -> bool {
        self == ConversionMode::SimplifiedToTraditional
    }

    /// Whether the conversion targets Traditional Chinese (`ZhHant`) rather
    /// than Simplified Chinese (`ZhCN`).
    pub fn to_traditional(&self) -> (r: bool)
        ensures
            r == self.spec_to_traditional(),
    {
        match self {
            ConversionMode::SimplifiedToTraditional => true,
            ConversionMode::TraditionalToSimplified => false,
        }
    }
}

/// Converts the content of one file in the given direction.
pub fn convert_file_content(content: &str, mode: ConversionMode) -> (r: String)
    ensures
        r@ == zhconv_result(content@, mode.spec_to_traditional()),
{
    zhconv_convert(content, mode.to_traditional())
}

/// The file extensions whose files are converted.
pub open spec fn is_convertible_extension(lower_ext: Seq<char>) -> bool {
    ||| lower_ext == "xhtml"@
    ||| lower_ext == "html"@
    ||| lower_ext == "xml"@
    ||| lower_ext == "css"@
    ||| lower_ext == "ncx"@
    ||| lower_ext == "opf"@
}

/// Whether a file with this extension (compared in lowercase) is converted.
pub fn is_convertible_file_extension(ext: &str) -> (r: bool)
    ensures
        r == is_convertible_extension(crate::text::lowercase(ext@)),
{
    let e = chars_of(ext);
    let low = lowercase_chars(e.as_slice());
    let x = chars_of("xhtml");
    let h = chars_of("html");
    let xm = chars_of("xml");
    let c = chars_of("css");
    let n = chars_of("ncx");
    let o = chars_of("opf");
    chars_eq(low.as_slice(), x.as_slice()) || chars_eq(low.as_slice(), h.as_slice()) || chars_eq(
        low.as_slice(),
        xm.as_slice(),
    ) || chars_eq(low.as_slice(), c.as_slice()) || chars_eq(low.as_slice(), n.as_slice())
        || chars_eq(low.as_slice(), o.as_slice())
}

// ---------------------------------------------------------------------------
// The conversion run
// ---------------------------------------------------------------------------

/// A file to convert: its path, and the path shown in progress reports.
pub struct ConversionFile {
    pub path: String,
    pub display_path: String,
}

/// What the caller is to do next in a conversion run.
pub enum ConversionAction {
    /// Report progress (the caller adds the percentage).
    Progress {
        file_path: Option<String>,
        processed_files: usize,
        total_files: usize,
        files_converted: usize,
        stage: String,
        message: String,
    },
    /// Convert this file in place with `convert_file_content`.
    Convert { path: String },
    /// The run is over.
    Finished(ConversionResult),
}

/// A conversion run over text files in order.
pub struct ConversionRun {
    pub task_id: String,
    pub files: Vec<ConversionFile>,
    /// The next file to convert.
    pub next: usize,
    pub files_converted: usize,
    /// 0: not started; 1: converting; 2: awaiting a conversion;
    /// 3: completion reported.
    pub phase: u8,
}

impl ConversionRun {
    /// The run's invariant.
    pub open spec fn wf(self) -> bool {
        &&& self.next <= self.files@.len()
        &&& self.phase <= 3
        &&& (self.phase == 2 ==> self.next < self.files@.len())
        &&& self.files_converted == self.next
        &&& (self.phase == 0 ==> self.next == 0)
        &&& (self.phase == 3 ==> self.next == self.files@.len())
    }

    /// A run over these files, in this order.
    pub fn new(task_id: &str, files: Vec<ConversionFile>) -> (r: ConversionRun)
        ensures
            r.wf(),
            r.phase == 0,
            r.task_id@ == task_id@,
            r.files@ == files@,
    {
        ConversionRun { task_id: task_id.to_string(), files, next: 0, files_converted: 0, phase: 0 }
    }

    /// One step: after the caller carried out the last action, the next
    /// one. The run reports its start, then converts each file in order
    /// and reports it, then reports completion and finishes with the
    /// totals.
    pub fn step(&mut self) -> (r: ConversionAction)
        requires
            old(self).wf(),
        ensures
            final(self).wf(),
            final(self).files@ == old(self).files@,
            final(self).task_id@ == old(self).task_id@,
            final(self).files_converted == final(self).next,
            old(self).phase == 0 ==> final(self).phase == 1 && final(self).next == 0 && (r matches ConversionAction::Progress {
                file_path: None,
                processed_files,
                total_files,
                files_converted,
                stage,
                message,
            } && processed_files == 0 && total_files == old(self).files@.len() && files_converted == 0 && stage@
                == "started"@ && message@ == "开始简繁转换"@),
            old(self).phase == 1 && old(self).next < old(self).files@.len() ==> final(self).phase == 2 && final(self).next == old(self).next && (r matches ConversionAction::Convert {
                path,
            } && path@ == old(self).files@[old(self).next as int].path@),
            old(self).phase == 2 ==> final(self).phase == 1 && final(self).next == old(self).next + 1 && (r matches ConversionAction::Progress {
                file_path: Some(fp),
                processed_files,
                total_files,
                files_converted,
                stage,
                message,
            } && fp@ == old(self).files@[old(self).next as int].display_path@ && processed_files == old(self).next + 1
                && total_files == old(self).files@.len() && files_converted == old(self).next + 1 && stage@
                == "converting"@ && message@ == "正在转换文本文件"@),
            old(self).phase == 1 && old(self).next == old(self).files@.len() ==> final(self).phase == 3 && final(self).next == old(self).next && (
            r matches ConversionAction::Progress { file_path: None, processed_files, total_files, files_converted, stage, message }
                && processed_files == old(self).files@.len() && total_files == old(self).files@.len() && files_converted
                == old(self).files@.len() && stage@ == "completed"@ && message@ == "简繁转换完成"@),
            old(self).phase == 3 ==> final(self).phase == 3 && final(self).next == old(self).next && (r matches ConversionAction::Finished(res) && res.task_id@ == old(self).task_id@
                && res.files_converted == old(self).files@.len() && res.total_files == old(self).files@.len()),
    {
        let total = self.files.len();
        if self.phase == 0 {
            self.phase = 1;
            ConversionAction::Progress {
                file_path: None,
                processed_files: 0,
                total_files: total,
                files_converted: 0,
                stage: "started".to_string(),
                message: "开始简繁转换".to_string(),
            }
        } else if self.phase == 1 && self.next < total {
            self.phase = 2;
            ConversionAction::Convert { path: self.files[self.next].path.clone() }
        } else if self.phase == 2 {
            let shown = self.files[self.next].display_path.clone();
            self.next = self.next + 1;
            self.files_converted = self.files_converted + 1;
            self.phase = 1;
            ConversionAction::Progress {
                file_path: Some(shown),
                processed_files: self.next,
                total_files: total,
                files_converted: self.files_converted,
                stage: "converting".to_string(),
                message: "正在转换文本文件".to_string(),
            }
        } else if self.phase == 1 {
            self.phase = 3;
            ConversionAction::Progress {
                file_path: None,
                processed_files: total,
                total_files: total,
                files_converted: self.files_converted,
                stage: "completed".to_string(),
                message: "简繁转换完成".to_string(),
            }
        } else {
            ConversionAction::Finished(
                ConversionResult { task_id: self.task_id.clone(), files_converted: self.files_converted, total_files: total },
            )
        }
    }
}

} // verus!
