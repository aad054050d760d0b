//! The run that replaces the remote image links of every chapter by
//! downloaded copies, as a state machine: each step takes what the caller
//! reports of the last action (done, downloaded, failed) and gives the next
//! action (report progress, download, save, write a chapter, finish).

use vstd::prelude::*;
use crate::pattern::{opt_seq, piece_view, pieces_view, regex_captures, regex_compiles, regex_split, whole_match, MatchPiece};
use crate::text::{chars_eq, chars_of, extend_chars, extend_str, find, find_from_exec, slice_chars, string_of};
use crate::opf_document::lemma_find_from_bounds;
use crate::image_handler::{group_or_empty, image_filename, spec_extension_from_mime, spec_image_filename};
use crate::analyzer::{pair_lookup, pair_views};
use crate::resource_manager::pairs_get;
use crate::models::{ImageProcessFailure, ImageProcessProgress, ImageProcessResult, RefactorError};
use crate::epub_path::{parent_chars, relative_path_chars, spec_parent, spec_relative_path};

verus! {

// ---------------------------------------------------------------------------
// Image links in chapters
// ---------------------------------------------------------------------------

/// A remote image link of a chapter: the whole matched paragraph and its URL.
pub struct ImageLink {
    pub matched: String,
    pub url: String,
}

/// A chapter with its content and the image links found in it.
pub struct ChapterScan {
    pub path: String,
    pub content: String,
    pub links: Vec<ImageLink>,
}

/// The view of a link.
pub open spec fn link_view(l: ImageLink) -> (Seq<char>, Seq<char>) {
    (l.matched@, l.url@)
}

/// The views of links.
pub open spec fn link_views(ls: Seq<ImageLink>) -> Seq<(Seq<char>, Seq<char>)> {
    ls.map_values(|l: ImageLink| link_view(l))
}

/// The pattern of a remote image paragraph: `<p>&lt;图片&gt;URL</p>`.
pub open spec fn image_link_pattern() -> Seq<char> {
    "<p>&lt;图片&gt;(https?://[^<]+)</p>"@
}

/// The links of the matches with a non-empty whole match and URL, in order.
pub open spec fn image_links(ps: Seq<(Seq<char>, Seq<Option<Seq<char>>>)>) -> Seq<(Seq<char>, Seq<char>)>
    decreases ps.len(),
{
    if ps.len() == 0 {
        seq![]
    } else {
        let prev = image_links(ps.drop_last());
        let m = group_or_empty(ps.last(), 0);
        let u = group_or_empty(ps.last(), 1);
        if m.len() > 0 && u.len() > 0 {
            prev.push((m, u))
        } else {
            prev
        }
    }
}

/// The text of capture group `g` of a match, empty where it took no part.
fn group_string(p: &MatchPiece, g: usize) -> (r: String)
    ensures
        r@ == group_or_empty(piece_view(*p), g as int),
{
    if g < p.1.len() {
        match &p.1[g] {
            Some(t) => t.clone(),
            None => String::new(),
        }
    } else {
        String::new()
    }
}

/// The remote image links of a chapter, in order; an error exactly when
/// the pattern does not compile.
pub fn find_image_links(content: &str) -> (r: Result<Vec<ImageLink>, RefactorError>)
    ensures
        r is Ok <==> regex_compiles(image_link_pattern()),
        r matches Err(e) ==> e matches RefactorError::IoError(m) && m@ == "图片匹配规则初始化失败"@,
        r matches Ok(v) ==> link_views(v@) == image_links(regex_split(image_link_pattern(), content@).0),
{
    let pieces = match regex_captures("<p>&lt;图片&gt;(https?://[^<]+)</p>", content) {
        Some(v) => v.0,
        None => return Err(RefactorError::IoError("图片匹配规则初始化失败".to_string())),
    };
    let ghost pv = pieces_view(pieces@);
    let mut out: Vec<ImageLink> = Vec::new();
    let mut i: usize = 0;
    while i < pieces.len()
        invariant
            i <= pieces@.len(),
            pv == pieces_view(pieces@),
            link_views(out@) == image_links(pv.take(i as int)),
        decreases pieces@.len() - i,
    {
        proof {
            let t = pv.take(i + 1);
            assert(t.drop_last() =~= pv.take(i as int));
            assert(t.last() == piece_view(pieces@[i as int]));
        }
        let matched = group_string(&pieces[i], 0);
        let url = group_string(&pieces[i], 1);
        let mc = chars_of(matched.as_str());
        let uc = chars_of(url.as_str());
        if mc.len() > 0 && uc.len() > 0 {
            let ghost before = out@;
            let l = ImageLink { matched, url };
            out.push(l);
            proof {
                assert(link_views(out@) =~= link_views(before).push(link_view(l)));
            }
        }
        i += 1;
    }
    proof {
        assert(pv.take(pieces@.len() as int) =~= pv);
    }
    Ok(out)
}

// ---------------------------------------------------------------------------
// Replacing a link by an image
// ---------------------------------------------------------------------------

/// `s` with its first occurrence of `pat` replaced by `rep`, as
/// `str::replacen(pat, rep, 1)` does.
pub open spec fn replace_first(s: Seq<char>, pat: Seq<char>, rep: Seq<char>) -> Seq<char> {
    match find(s, pat) {
        Some(i) => s.take(i) + rep + s.skip(i + pat.len()),
        None => s,
    }
}

/// The `src` of an image of the package at `image_path` in the chapter at
/// `chapter_path`: the image's path relative to the chapter's directory.
pub open spec fn image_src(chapter_path: Seq<char>, image_path: Seq<char>) -> Seq<char> {
    spec_relative_path(spec_parent(chapter_path), image_path)
}

/// The paragraph that shows an image of the package.
pub open spec fn img_tag(path: Seq<char>) -> Seq<char> {
    "<p><img src=\""@ + path + "\" alt=\"图片\" /></p>"@
}

/// The first occurrence of `pat` in `s` replaced by `rep`.
fn replace_first_chars(s: &[char], pat: &[char], rep: &[char]) -> (r: Vec<char>)
    ensures
        r@ == replace_first(s@, pat@, rep@),
{
    proof {
        lemma_find_from_bounds(s@, pat@, 0);
    }
    match find_from_exec(s, pat, 0) {
        Some(i) => {
            let slen = s.len();
            assert(i + pat@.len() <= slen);
            let mut out = slice_chars(s, 0, i);
            extend_chars(&mut out, rep);
            let rest = slice_chars(s, i + pat.len(), slen);
            extend_chars(&mut out, rest.as_slice());
            out
        },
        None => slice_chars(s, 0, s.len()),
    }
}

/// The content with the link replaced by the paragraph of the image at `path`.
fn insert_image(content: &String, link: &ImageLink, path: &[char]) -> (r: String)
    ensures
        r@ == replace_first(content@, link.matched@, img_tag(path@)),
{
    let mut tag = chars_of("<p><img src=\"");
    extend_chars(&mut tag, path);
    extend_str(&mut tag, "\" alt=\"图片\" /></p>");
    let c = chars_of(content.as_str());
    let m = chars_of(link.matched.as_str());
    let out = replace_first_chars(c.as_slice(), m.as_slice(), tag.as_slice());
    string_of(out.as_slice())
}

// ---------------------------------------------------------------------------
// Counting links
// ---------------------------------------------------------------------------

/// The number of links of the first `n` chapters.
pub open spec fn link_count(chs: Seq<ChapterScan>, n: int) -> nat
    decreases n,
{
    if n <= 0 {
        0
    } else {
        link_count(chs, n - 1) + chs[n - 1].links@.len()
    }
}

/// The URLs of the links of the first `n` chapters, in order.
pub open spec fn urls_before(chs: Seq<ChapterScan>, n: int) -> Seq<Seq<char>>
    decreases n,
{
    if n <= 0 {
        seq![]
    } else {
        urls_before(chs, n - 1) + chs[n - 1].links@.map_values(|l: ImageLink| l.url@)
    }
}

/// Counting up to `n` never counts less than up to `m <= n`.
proof fn lemma_link_count_monotone(chs: Seq<ChapterScan>, m: int, n: int)
    requires
        m <= n,
    ensures
        link_count(chs, m) <= link_count(chs, n),
    decreases n - m,
{
    if m < n {
        lemma_link_count_monotone(chs, m, n - 1);
    }
}

/// Each value of `s` once, at its first occurrence.
pub open spec fn first_occurrences(s: Seq<Seq<char>>) -> Seq<Seq<char>>
    decreases s.len(),
{
    if s.len() == 0 {
        seq![]
    } else if s.drop_last().contains(s.last()) {
        first_occurrences(s.drop_last())
    } else {
        first_occurrences(s.drop_last()).push(s.last())
    }
}

/// The first occurrences hold exactly the values of the sequence.
proof fn lemma_first_occurrences_contains(s: Seq<Seq<char>>, x: Seq<char>)
    ensures
        first_occurrences(s).contains(x) <==> s.contains(x),
    decreases s.len(),
{
    if s.len() > 0 {
        let t = s.drop_last();
        lemma_first_occurrences_contains(t, x);
        lemma_first_occurrences_contains(t, s.last());
        if s.contains(x) {
            let k = choose|k: int| 0 <= k < s.len() && s[k] == x;
            if k < t.len() {
                assert(t[k] == x);
            }
        }
        if t.contains(x) {
            let k = choose|k: int| 0 <= k < t.len() && t[k] == x;
            assert(s[k] == x);
        }
        if first_occurrences(s).contains(x) && !first_occurrences(t).contains(x) {
            assert(first_occurrences(s) == first_occurrences(t).push(s.last()));
            let k = choose|k: int| 0 <= k < first_occurrences(s).len() && first_occurrences(s)[k] == x;
            assert(x == s.last());
            assert(s[s.len() - 1] == x);
        }
        if x == s.last() && !t.contains(x) {
            let f = first_occurrences(t).push(s.last());
            assert(f[f.len() - 1] == x);
        }
        if first_occurrences(t).contains(x) {
            let k = choose|k: int| 0 <= k < first_occurrences(t).len() && first_occurrences(t)[k] == x;
            if !t.contains(s.last()) {
                assert(first_occurrences(t).push(s.last())[k] == x);
            }
        }
    }
}

/// The number of different URLs among the links of all chapters.
pub open spec fn unique_url_count(chs: Seq<ChapterScan>) -> nat {
    first_occurrences(urls_before(chs, chs.len() as int)).len()
}

/// Whether `x` is among the character sequences of `v`.
fn contains_seq(v: &Vec<Vec<char>>, x: &[char]) -> (r: bool)
    ensures
        r == v@.map_values(|c: Vec<char>| c@).contains(x@),
{
    let ghost vv = v@.map_values(|c: Vec<char>| c@);
    let mut i: usize = 0;
    while i < v.len()
        invariant
            i <= v@.len(),
            vv == v@.map_values(|c: Vec<char>| c@),
            forall|k: int| 0 <= k < i ==> vv[k] != x@,
        decreases v@.len() - i,
    {
        if chars_eq(v[i].as_slice(), x) {
            assert(vv[i as int] == x@);
            return true;
        }
        i += 1;
    }
    false
}

/// The number of links and of different URLs in the chapters.
fn count_links(chapters: &Vec<ChapterScan>) -> (r: (u64, u64))
    requires
        link_count(chapters@, chapters@.len() as int) <= u32::MAX,
    ensures
        r.0 == link_count(chapters@, chapters@.len() as int),
        r.1 == unique_url_count(chapters@),
{
    let ghost chs = chapters@;
    let mut seen: Vec<Vec<char>> = Vec::new();
    let mut raw: u64 = 0;
    let mut c: usize = 0;
    while c < chapters.len()
        invariant
            c <= chs.len(),
            chs == chapters@,
            link_count(chs, chs.len() as int) <= u32::MAX,
            raw == link_count(chs, c as int),
            seen@.map_values(|v: Vec<char>| v@) == first_occurrences(urls_before(chs, c as int)),
        decreases chs.len() - c,
    {
        let links = &chapters[c].links;
        let ghost base = urls_before(chs, c as int);
        let ghost lv = links@.map_values(|l: ImageLink| l.url@);
        proof {
            lemma_link_count_monotone(chs, c + 1, chs.len() as int);
        }
        let mut k: usize = 0;
        while k < links.len()
            invariant
                k <= links@.len(),
                lv == links@.map_values(|l: ImageLink| l.url@),
                seen@.map_values(|v: Vec<char>| v@) == first_occurrences(base + lv.take(k as int)),
            decreases links@.len() - k,
        {
            let u = chars_of(links[k].url.as_str());
            let ghost prefix = base + lv.take(k as int);
            proof {
                assert((base + lv.take(k + 1)).drop_last() =~= prefix);
                assert((base + lv.take(k + 1)).last() == u@);
                lemma_first_occurrences_contains(prefix, u@);
            }
            if !contains_seq(&seen, u.as_slice()) {
                let ghost before = seen@;
                seen.push(u);
                proof {
                    assert(seen@.map_values(|v: Vec<char>| v@) =~= before.map_values(|v: Vec<char>| v@).push(
                        u@,
                    ));
                }
            }
            k += 1;
        }
        proof {
            assert(lv.take(links@.len() as int) =~= lv);
            assert(urls_before(chs, c + 1) == base + lv);
        }
        raw = raw + links.len() as u64;
        c += 1;
    }
    (raw, seen.len() as u64)
}

// ---------------------------------------------------------------------------
// The run
// ---------------------------------------------------------------------------

/// Where a run stands.
pub enum ImagePhase {
    /// About to open the current chapter (or to finish, after the last).
    StartChapter,
    /// At the current link of the current chapter, or after its last.
    NextLink,
    /// The current link's URL is to be downloaded.
    Download,
    /// Waiting for the download of the current link.
    AwaitDownload,
    /// Waiting for the downloaded image to be saved under this file name.
    AwaitSave { filename: String },
    /// Waiting for the changed chapter to be written.
    EndChapter,
    /// Finished.
    Done,
}

/// What the caller reports of the last action.
pub enum ImageEvent {
    /// The action was carried out.
    Continue,
    /// The download succeeded, with this media type.
    Downloaded { mime_type: String },
    /// The download failed with this error.
    DownloadFailed { error: String },
}

/// What the caller is to do next.
pub enum ImageAction {
    /// Report progress.
    Progress(ImageProcessProgress),
    /// Download the image at this URL.
    Download { url: String },
    /// Save the downloaded image as `OEBPS/Images/<filename>` and add it to
    /// the manifest.
    SaveImage { filename: String, mime_type: String },
    /// Write the new content of this chapter.
    WriteChapter { path: String, content: String },
    /// The run is over; these are its totals.
    Finished(ImageProcessResult),
}

/// A run over the chapters of a package.
pub struct ImageRun {
    pub task_id: String,
    pub chapters: Vec<ChapterScan>,
    pub total_chapters: u32,
    pub total_unique_images: u32,
    pub detected_raw_matches: u32,
    /// The chapter being processed.
    pub chapter: usize,
    /// The link being processed in that chapter.
    pub link: usize,
    /// The content of that chapter so far.
    pub content: String,
    pub phase: ImagePhase,
    /// The saved images: URL and package path, in the order they were saved.
    pub saved: Vec<(String, String)>,
    /// The number of the next saved image.
    pub next_index: u32,
    pub processed_chapters: u32,
    pub processed_unique_images: u32,
    pub successful_images: u32,
    pub failed_images: u32,
    pub skipped_duplicates: u32,
    pub inserted_images: u32,
    pub failures: Vec<ImageProcessFailure>,
}

/// The URLs of saved images.
pub open spec fn saved_urls(saved: Seq<(String, String)>) -> Seq<Seq<char>> {
    saved.map_values(|p: (String, String)| p.0@)
}

/// `pair_lookup` finds nothing exactly when no key is `k`.
proof fn lemma_lookup_none(ps: Seq<(Seq<char>, Seq<char>)>, k: Seq<char>, i: int)
    requires
        0 <= i,
    ensures
        pair_lookup(ps, k, i) is None <==> (forall|j: int| i <= j < ps.len() ==> #[trigger] ps[j].0 != k),
        pair_lookup(ps, k, i) matches Some(v) ==> exists|j: int| i <= j < ps.len() && #[trigger] ps[j] == (k, v),
    decreases ps.len() - i,
{
    if i < ps.len() && ps[i].0 != k {
        lemma_lookup_none(ps, k, i + 1);
    }
}

impl ImageRun {
    /// The links of the current chapter.
    pub open spec fn current_links(self) -> Seq<ImageLink> {
        self.chapters@[self.chapter as int].links@
    }

    /// The link being processed.
    pub open spec fn current_link(self) -> ImageLink {
        self.current_links()[self.link as int]
    }

    /// The run's invariant: where it stands, and its counters.
    pub open spec fn wf(self) -> bool {
        let n = self.chapters@.len();
        &&& n <= u32::MAX
        &&& self.total_chapters == n
        &&& self.detected_raw_matches == link_count(self.chapters@, n as int)
        &&& self.total_unique_images == unique_url_count(self.chapters@)
        &&& self.chapter <= n
        &&& (self.phase is Done ==> self.chapter == n)
        &&& (self.phase is StartChapter || self.phase is Done ==> self.link == 0)
        &&& (!(self.phase is StartChapter) && !(self.phase is Done) ==> self.chapter < n && self.link
            <= self.current_links().len())
        &&& (self.phase is Download || self.phase is AwaitDownload || self.phase is AwaitSave ==> self.link
            < self.current_links().len() && !saved_urls(self.saved@).contains(self.current_link().url@))
        &&& (self.phase is EndChapter ==> self.link == self.current_links().len())
        &&& saved_urls(self.saved@).no_duplicates()
        &&& self.skipped_duplicates + self.successful_images + self.failed_images == link_count(
            self.chapters@,
            self.chapter as int,
        ) + self.link
        &&& self.processed_unique_images == self.successful_images + self.failed_images
        &&& self.inserted_images == self.successful_images + self.skipped_duplicates
        &&& self.successful_images == self.saved@.len()
        &&& self.failed_images == self.failures@.len()
        &&& self.processed_chapters == self.chapter
    }

    /// Whether the run waits for the outcome of a download.
    pub open spec fn spec_awaits_download(self) -> bool {
        self.phase is AwaitDownload
    }

    /// Whether the run waits for the outcome of a download.
    pub fn awaits_download(&self) -> (r: bool)
        ensures
            r == self.spec_awaits_download(),
    {
        match self.phase {
            ImagePhase::AwaitDownload => true,
            _ => false,
        }
    }

    /// A run over these chapters, the first saved image to be numbered
    /// `first_index`.
    pub fn new(task_id: &str, chapters: Vec<ChapterScan>, first_index: u32) -> (r: ImageRun)
        requires
            chapters@.len() <= u32::MAX,
            link_count(chapters@, chapters@.len() as int) <= u32::MAX,
        ensures
            r.wf(),
            r.phase is StartChapter,
            r.chapter == 0,
            r.next_index == first_index,
            r.task_id@ == task_id@,
            r.chapters@ == chapters@,
            r.saved@.len() == 0,
    {
        let (raw, unique) = count_links(&chapters);
        proof {
            let chs = chapters@;
            let all = urls_before(chs, chs.len() as int);
            lemma_first_occurrences_len(all);
            lemma_urls_before_len(chs, chs.len() as int);
            assert(unique <= u32::MAX);
            assert(saved_urls(Seq::<(String, String)>::empty()) =~= Seq::<Seq<char>>::empty());
        }
        let n = chapters.len() as u32;
        ImageRun {
            task_id: task_id.to_string(),
            chapters,
            total_chapters: n,
            total_unique_images: unique as u32,
            detected_raw_matches: raw as u32,
            chapter: 0,
            link: 0,
            content: String::new(),
            phase: ImagePhase::StartChapter,
            saved: Vec::new(),
            next_index: first_index,
            processed_chapters: 0,
            processed_unique_images: 0,
            successful_images: 0,
            failed_images: 0,
            skipped_duplicates: 0,
            inserted_images: 0,
            failures: Vec::new(),
        }
    }
}

/// There are no more first occurrences than values.
proof fn lemma_first_occurrences_len(s: Seq<Seq<char>>)
    ensures
        first_occurrences(s).len() <= s.len(),
    decreases s.len(),
{
    if s.len() > 0 {
        lemma_first_occurrences_len(s.drop_last());
    }
}

/// There are as many URLs as links.
proof fn lemma_urls_before_len(chs: Seq<ChapterScan>, n: int)
    ensures
        urls_before(chs, n).len() == link_count(chs, n),
    decreases n,
{
    if n > 0 {
        lemma_urls_before_len(chs, n - 1);
    }
}

/// The progress report of a run at its current chapter.
pub open spec fn reports(p: ImageProcessProgress, run: ImageRun, url: Option<Seq<char>>, stage: Seq<char>, message: Seq<char>) -> bool {
    &&& p.task_id@ == run.task_id@
    &&& p.chapter_path@ == run.chapters@[run.chapter as int].path@
    &&& p.current_chapter_index == run.chapter + 1
    &&& p.total_chapters == run.total_chapters
    &&& opt_seq(p.image_url) == url
    &&& p.processed_unique_images == run.processed_unique_images
    &&& p.total_unique_images == run.total_unique_images
    &&& p.successful_images == run.successful_images
    &&& p.failed_images == run.failed_images
    &&& p.skipped_duplicates == run.skipped_duplicates
    &&& p.stage@ == stage
    &&& p.message@ == message
}

/// The totals of a run.
pub open spec fn totals(res: ImageProcessResult, run: ImageRun) -> bool {
    &&& res.task_id@ == run.task_id@
    &&& res.total_chapters == run.total_chapters
    &&& res.processed_chapters == run.processed_chapters
    &&& res.detected_raw_matches == run.detected_raw_matches
    &&& res.detected_unique_urls == run.total_unique_images
    &&& res.successful_images == run.successful_images
    &&& res.failed_images == run.failed_images
    &&& res.skipped_duplicates == run.skipped_duplicates
    &&& res.inserted_images == run.inserted_images
    &&& res.failures@.len() == run.failures@.len()
}

/// A copy of a failure.
fn copy_failure(f: &ImageProcessFailure) -> (r: ImageProcessFailure)
    ensures
        r.chapter_path@ == f.chapter_path@,
        r.image_url@ == f.image_url@,
        r.error@ == f.error@,
{
    ImageProcessFailure {
        chapter_path: f.chapter_path.clone(),
        image_url: f.image_url.clone(),
        error: f.error.clone(),
    }
}

impl ImageRun {
    /// The progress report at the current chapter.
    fn progress(&self, url: Option<String>, stage: &str, message: &str) -> (p: ImageProcessProgress)
        requires
            self.chapter < self.chapters@.len(),
            self.chapters@.len() <= u32::MAX,
        ensures
            reports(p, *self, opt_seq(url), stage@, message@),
    {
        ImageProcessProgress {
            task_id: self.task_id.clone(),
            chapter_path: self.chapters[self.chapter].path.clone(),
            current_chapter_index: (self.chapter + 1) as u32,
            total_chapters: self.total_chapters,
            image_url: url,
            processed_unique_images: self.processed_unique_images,
            total_unique_images: self.total_unique_images,
            successful_images: self.successful_images,
            failed_images: self.failed_images,
            skipped_duplicates: self.skipped_duplicates,
            stage: stage.to_string(),
            message: message.to_string(),
        }
    }

    /// The totals of the run.
    fn result(&self) -> (res: ImageProcessResult)
        ensures
            totals(res, *self),
    {
        let mut failures: Vec<ImageProcessFailure> = Vec::new();
        let mut i: usize = 0;
        while i < self.failures.len()
            invariant
                i <= self.failures@.len(),
                failures@.len() == i,
            decreases self.failures@.len() - i,
        {
            failures.push(copy_failure(&self.failures[i]));
            i += 1;
        }
        ImageProcessResult {
            task_id: self.task_id.clone(),
            total_chapters: self.total_chapters,
            processed_chapters: self.processed_chapters,
            detected_raw_matches: self.detected_raw_matches,
            detected_unique_urls: self.total_unique_images,
            successful_images: self.successful_images,
            failed_images: self.failed_images,
            skipped_duplicates: self.skipped_duplicates,
            inserted_images: self.inserted_images,
            failures,
        }
    }
}

impl ImageRun {
    /// Opens the current chapter, or finishes after the last.
    pub fn start_chapter(&mut self) -> (r: ImageAction)
        requires
            old(self).wf(),
            old(self).phase is StartChapter,
        ensures
            final(self).wf(),
            final(self).saved@ == old(self).saved@,
            final(self).next_index == old(self).next_index,
            old(self).chapter == old(self).chapters@.len() ==> final(self).phase is Done && (r matches ImageAction::Finished(res)
                && totals(res, *final(self))),
            old(self).chapter < old(self).chapters@.len() ==> final(self).phase is NextLink && final(self).chapter
                == old(self).chapter && final(self).link == 0 && final(self).content@
                == old(self).chapters@[old(self).chapter as int].content@ && (r matches ImageAction::Progress(p)
                && reports(p, *final(self), None, "chapter_start"@, "开始处理章节"@)),
            final(self).chapters@ == old(self).chapters@,
            final(self).task_id@ == old(self).task_id@,
    {
        if self.chapter == self.chapters.len() {
            self.phase = ImagePhase::Done;
            return ImageAction::Finished(self.result());
        }
        self.content = self.chapters[self.chapter].content.clone();
        self.link = 0;
        self.phase = ImagePhase::NextLink;
        ImageAction::Progress(self.progress(None, "chapter_start", "开始处理章节"))
    }

    /// Closes the current chapter.
    pub fn finish_chapter(&mut self) -> (r: ImageAction)
        requires
            old(self).wf(),
            old(self).phase is EndChapter || old(self).phase is NextLink,
            old(self).link == old(self).current_links().len(),
        ensures
            final(self).wf(),
            final(self).phase is StartChapter,
            final(self).chapter == old(self).chapter + 1,
            final(self).content@ == old(self).content@,
            final(self).saved@ == old(self).saved@,
            final(self).next_index == old(self).next_index,
            final(self).chapters@ == old(self).chapters@,
            final(self).task_id@ == old(self).task_id@,
            r matches ImageAction::Progress(p) && reports(
                p,
                ImageRun { chapter: old(self).chapter, ..*final(self) },
                None,
                "chapter_done"@,
                "章节处理完成"@,
            ),
    {
        proof {
            lemma_link_count_monotone(self.chapters@, self.chapter + 1, self.chapters@.len() as int);
        }
        self.processed_chapters = self.processed_chapters + 1;
        let p = self.progress(None, "chapter_done", "章节处理完成");
        self.chapter = self.chapter + 1;
        self.link = 0;
        self.phase = ImagePhase::StartChapter;
        ImageAction::Progress(p)
    }
}

impl ImageRun {
    /// Takes the current link: reuses an image already saved for its URL,
    /// or asks for a download; after the last link, writes the chapter if
    /// it changed, else closes it.
    pub fn next_link(&mut self) -> (r: ImageAction)
        requires
            old(self).wf(),
            old(self).phase is NextLink,
        ensures
            final(self).wf(),
            old(self).link < old(self).current_links().len() ==> final(self).chapter == old(self).chapter,
            final(self).saved@ == old(self).saved@,
            final(self).next_index == old(self).next_index,
            final(self).chapters@ == old(self).chapters@,
            final(self).task_id@ == old(self).task_id@,
            old(self).link < old(self).current_links().len() && saved_urls(old(self).saved@).contains(
                old(self).current_link().url@,
            ) ==> final(self).phase is NextLink && final(self).link == old(self).link + 1 && final(self).skipped_duplicates
                == old(self).skipped_duplicates + 1 && (exists|k: int|
                0 <= k < old(self).saved@.len() && #[trigger] old(self).saved@[k].0@ == old(self).current_link().url@
                && final(self).content@ == replace_first(
                    old(self).content@,
                    old(self).current_link().matched@,
                    img_tag(image_src(old(self).chapters@[old(self).chapter as int].path@, old(self).saved@[k].1@)),
                )) && (r matches ImageAction::Progress(p) && reports(
                p,
                *final(self),
                Some(old(self).current_link().url@),
                "reuse"@,
                "复用已下载图片"@,
            )),
            old(self).link < old(self).current_links().len() && !saved_urls(old(self).saved@).contains(
                old(self).current_link().url@,
            ) ==> final(self).phase is Download && final(self).link == old(self).link && final(self).content@
                == old(self).content@ && (r matches ImageAction::Progress(p) && reports(
                p,
                *final(self),
                Some(old(self).current_link().url@),
                "download"@,
                "下载图片中"@,
            )),
            old(self).link == old(self).current_links().len() && old(self).content@ != old(self).chapters@[old(
                self,
            ).chapter as int].content@ ==> final(self).phase is EndChapter && final(self).chapter == old(self).chapter
                && final(self).content@ == old(self).content@ && (r matches ImageAction::WriteChapter {
                path,
                content,
            } && path@ == old(self).chapters@[old(self).chapter as int].path@ && content@ == old(self).content@),
            old(self).link == old(self).current_links().len() && old(self).content@ == old(self).chapters@[old(
                self,
            ).chapter as int].content@ ==> final(self).phase is StartChapter && final(self).chapter == old(self).chapter
                + 1 && final(self).content@ == old(self).content@ && (r matches ImageAction::Progress(p) && reports(
                p, ImageRun { chapter: old(self).chapter, ..*final(self) }, None, "chapter_done"@, "章节处理完成"@)),
    {
        let ghost pairs = pair_views(self.saved@);
        let links = &self.chapters[self.chapter].links;
        if self.link < links.len() {
            let l = &links[self.link];
            let u = chars_of(l.url.as_str());
            proof {
                lemma_lookup_none(pairs, u@, 0);
                lemma_link_count_monotone(self.chapters@, self.chapter + 1, self.chapters@.len() as int);
                assert(saved_urls(self.saved@).contains(u@) <==> exists|j: int| 0 <= j < pairs.len() && #[trigger] pairs[j].0 == u@) by {
                    if saved_urls(self.saved@).contains(u@) {
                        let j = choose|j: int| 0 <= j < saved_urls(self.saved@).len() && saved_urls(self.saved@)[j] == u@;
                        assert(pairs[j].0 == u@);
                    }
                    if exists|j: int| 0 <= j < pairs.len() && #[trigger] pairs[j].0 == u@ {
                        let j = choose|j: int| 0 <= j < pairs.len() && #[trigger] pairs[j].0 == u@;
                        assert(saved_urls(self.saved@)[j] == u@);
                    }
                }
            }
            match pairs_get(&self.saved, u.as_slice()) {
                Some(path) => {
                    let url = l.url.clone();
                    let dir = parent_chars(chars_of(self.chapters[self.chapter].path.as_str()).as_slice());
                    let src = relative_path_chars(dir.as_slice(), path.as_slice());
                    let new_content = insert_image(&self.content, l, src.as_slice());
                    self.content = new_content;
                    self.skipped_duplicates = self.skipped_duplicates + 1;
                    self.inserted_images = self.inserted_images + 1;
                    self.link = self.link + 1;
                    ImageAction::Progress(self.progress(Some(url), "reuse", "复用已下载图片"))
                },
                None => {
                    let url = l.url.clone();
                    self.phase = ImagePhase::Download;
                    ImageAction::Progress(self.progress(Some(url), "download", "下载图片中"))
                },
            }
        } else {
            let original = chars_of(self.chapters[self.chapter].content.as_str());
            let now = chars_of(self.content.as_str());
            if !chars_eq(now.as_slice(), original.as_slice()) {
                self.phase = ImagePhase::EndChapter;
                ImageAction::WriteChapter {
                    path: self.chapters[self.chapter].path.clone(),
                    content: self.content.clone(),
                }
            } else {
                self.finish_chapter()
            }
        }
    }
}

impl ImageRun {
    /// Asks for the download of the current link's URL.
    pub fn download(&mut self) -> (r: ImageAction)
        requires
            old(self).wf(),
            old(self).phase is Download,
        ensures
            *final(self) == (ImageRun { phase: ImagePhase::AwaitDownload, ..*old(self) }),
            final(self).wf(),
            r matches ImageAction::Download { url } && url@ == old(self).current_link().url@,
    {
        self.phase = ImagePhase::AwaitDownload;
        ImageAction::Download { url: self.chapters[self.chapter].links[self.link].url.clone() }
    }

    /// The download succeeded: names the image and asks for it to be saved.
    pub fn downloaded(&mut self, mime_type: String) -> (r: ImageAction)
        requires
            old(self).wf(),
            old(self).phase is AwaitDownload,
            old(self).next_index < u32::MAX,
        ensures
            final(self).wf(),
            final(self).next_index == old(self).next_index + 1,
            final(self).saved@ == old(self).saved@,
            final(self).content@ == old(self).content@,
            final(self).chapters@ == old(self).chapters@,
            final(self).task_id@ == old(self).task_id@,
            final(self).chapter == old(self).chapter,
            final(self).link == old(self).link,
            final(self).phase matches ImagePhase::AwaitSave { filename } && filename@ == spec_image_filename(
                old(self).next_index as nat,
                spec_extension_from_mime(mime_type@),
            ),
            r matches ImageAction::SaveImage { filename, mime_type: m } && filename@ == spec_image_filename(
                old(self).next_index as nat,
                spec_extension_from_mime(mime_type@),
            ) && m@ == mime_type@,
    {
        let filename = image_filename(self.next_index, mime_type.as_str());
        self.next_index = self.next_index + 1;
        self.phase = ImagePhase::AwaitSave { filename: filename.clone() };
        ImageAction::SaveImage { filename, mime_type }
    }

    /// The download failed: records the failure and moves to the next link.
    pub fn download_failed(&mut self, error: String) -> (r: ImageAction)
        requires
            old(self).wf(),
            old(self).phase is AwaitDownload,
        ensures
            final(self).wf(),
            final(self).phase is NextLink,
            final(self).link == old(self).link + 1,
            final(self).chapter == old(self).chapter,
            final(self).saved@ == old(self).saved@,
            final(self).next_index == old(self).next_index,
            final(self).content@ == old(self).content@,
            final(self).chapters@ == old(self).chapters@,
            final(self).task_id@ == old(self).task_id@,
            final(self).failed_images == old(self).failed_images + 1,
            final(self).failures@.len() == old(self).failures@.len() + 1,
            final(self).failures@.last().chapter_path@ == old(self).chapters@[old(self).chapter as int].path@,
            final(self).failures@.last().image_url@ == old(self).current_link().url@,
            final(self).failures@.last().error@ == error@,
            r matches ImageAction::Progress(p) && reports(
                p,
                *final(self),
                Some(old(self).current_link().url@),
                "failed"@,
                "图片下载失败"@,
            ),
    {
        proof {
            lemma_link_count_monotone(self.chapters@, self.chapter + 1, self.chapters@.len() as int);
        }
        let url = self.chapters[self.chapter].links[self.link].url.clone();
        self.processed_unique_images = self.processed_unique_images + 1;
        self.failed_images = self.failed_images + 1;
        self.failures.push(
            ImageProcessFailure {
                chapter_path: self.chapters[self.chapter].path.clone(),
                image_url: url.clone(),
                error,
            },
        );
        self.link = self.link + 1;
        self.phase = ImagePhase::NextLink;
        ImageAction::Progress(self.progress(Some(url), "failed", "图片下载失败"))
    }

    /// The image was saved: puts it in place of the link, remembers it for
    /// its URL and moves to the next link.
    pub fn image_saved(&mut self, filename: String) -> (r: ImageAction)
        requires
            old(self).wf(),
            old(self).phase is AwaitSave,
        ensures
            final(self).wf(),
            final(self).phase is NextLink,
            final(self).link == old(self).link + 1,
            final(self).chapter == old(self).chapter,
            final(self).next_index == old(self).next_index,
            final(self).chapters@ == old(self).chapters@,
            final(self).task_id@ == old(self).task_id@,
            final(self).successful_images == old(self).successful_images + 1,
            pair_views(final(self).saved@) == pair_views(old(self).saved@).push(
                (old(self).current_link().url@, "OEBPS/Images/"@ + filename@),
            ),
            final(self).content@ == replace_first(
                old(self).content@,
                old(self).current_link().matched@,
                img_tag(image_src(old(self).chapters@[old(self).chapter as int].path@, "OEBPS/Images/"@ + filename@)),
            ),
            r matches ImageAction::Progress(p) && reports(
                p,
                *final(self),
                Some(old(self).current_link().url@),
                "saved"@,
                "图片已保存并插入章节"@,
            ),
    {
        proof {
            lemma_link_count_monotone(self.chapters@, self.chapter + 1, self.chapters@.len() as int);
        }
        let mut path = chars_of("OEBPS/Images/");
        extend_str(&mut path, filename.as_str());
        let l = &self.chapters[self.chapter].links[self.link];
        let url = l.url.clone();
        let dir = parent_chars(chars_of(self.chapters[self.chapter].path.as_str()).as_slice());
        let src = relative_path_chars(dir.as_slice(), path.as_slice());
        let new_content = insert_image(&self.content, l, src.as_slice());
        self.content = new_content;
        let ghost before = self.saved@;
        self.saved.push((url.clone(), string_of(path.as_slice())));
        proof {
            assert(saved_urls(self.saved@) =~= saved_urls(before).push(url@));
            assert(pair_views(self.saved@) =~= pair_views(before).push((url@, path@)));
        }
        self.processed_unique_images = self.processed_unique_images + 1;
        self.successful_images = self.successful_images + 1;
        self.inserted_images = self.inserted_images + 1;
        self.link = self.link + 1;
        self.phase = ImagePhase::NextLink;
        ImageAction::Progress(self.progress(Some(url), "saved", "图片已保存并插入章节"))
    }
}

impl ImageRun {
    /// One step of the run: `event` reports the outcome of the last action
    /// (a download's outcome exactly when the run awaits one), and the
    /// result is the next action.
    pub fn step(&mut self, event: ImageEvent) -> (r: ImageAction)
        requires
            old(self).wf(),
            old(self).spec_awaits_download() <==> !(event is Continue),
            event is Downloaded ==> old(self).next_index < u32::MAX,
        ensures
            final(self).wf(),
            final(self).chapters@ == old(self).chapters@,
            final(self).task_id@ == old(self).task_id@,
            pair_views(old(self).saved@).is_prefix_of(pair_views(final(self).saved@)),
            r matches ImageAction::Download { url } ==> url@ == final(self).current_link().url@
                && !saved_urls(final(self).saved@).contains(url@) && final(self).spec_awaits_download(),
            event matches ImageEvent::Downloaded { mime_type } ==> final(self).next_index == old(self).next_index + 1
                && (r matches ImageAction::SaveImage { filename, mime_type: m } && filename@ == spec_image_filename(
                old(self).next_index as nat,
                spec_extension_from_mime(mime_type@),
            ) && m@ == mime_type@),
            !(event is Downloaded) ==> final(self).next_index == old(self).next_index,
            event matches ImageEvent::DownloadFailed { error } ==> final(self).failures@.len() == old(self).failures@.len()
                + 1 && final(self).failures@.last().error@ == error@ && final(self).failures@.last().image_url@ == old(
                self,
            ).current_link().url@,
            r matches ImageAction::WriteChapter { path, content } ==> path@ == old(self).chapters@[old(
                self,
            ).chapter as int].path@ && content@ == old(self).content@ && content@ != old(self).chapters@[old(
                self,
            ).chapter as int].content@,
            old(self).phase is StartChapter && old(self).chapter < old(self).chapters@.len() ==> final(self).phase is NextLink
                && final(self).chapter == old(self).chapter && final(self).link == 0 && final(self).content@
                == old(self).chapters@[old(self).chapter as int].content@ && (r matches ImageAction::Progress(p)
                && reports(p, *final(self), None, "chapter_start"@, "开始处理章节"@)),
            old(self).phase is StartChapter && old(self).chapter == old(self).chapters@.len() ==> r is Finished,
            old(self).phase is NextLink && old(self).link < old(self).current_links().len() && saved_urls(old(self).saved@).contains(
                old(self).current_link().url@,
            ) ==> final(self).phase is NextLink && final(self).chapter == old(self).chapter && final(self).link == old(self).link + 1
                && (exists|k: int|
                0 <= k < old(self).saved@.len() && #[trigger] old(self).saved@[k].0@ == old(self).current_link().url@
                && final(self).content@ == replace_first(
                    old(self).content@,
                    old(self).current_link().matched@,
                    img_tag(image_src(old(self).chapters@[old(self).chapter as int].path@, old(self).saved@[k].1@)),
                )) && (r matches ImageAction::Progress(p) && reports(p, *final(self), Some(old(self).current_link().url@), "reuse"@, "复用已下载图片"@)),
            old(self).phase is NextLink && old(self).link < old(self).current_links().len() && !saved_urls(old(self).saved@).contains(
                old(self).current_link().url@,
            ) ==> final(self).phase is Download && final(self).chapter == old(self).chapter && final(self).link == old(self).link
                && final(self).content@ == old(self).content@ && (r matches ImageAction::Progress(p) && reports(
                p, *final(self), Some(old(self).current_link().url@), "download"@, "下载图片中"@)),
            old(self).phase is NextLink && old(self).link == old(self).current_links().len() && old(self).content@ != old(self).chapters@[old(
                self,
            ).chapter as int].content@ ==> final(self).phase is EndChapter && final(self).chapter == old(self).chapter
                && final(self).content@ == old(self).content@ && r is WriteChapter,
            old(self).phase is NextLink && old(self).link == old(self).current_links().len() && old(self).content@ == old(self).chapters@[old(
                self,
            ).chapter as int].content@ ==> final(self).phase is StartChapter && final(self).chapter == old(self).chapter + 1
                && (r matches ImageAction::Progress(p) && reports(p, ImageRun { chapter: old(self).chapter, ..*final(self) }, None,
                "chapter_done"@, "章节处理完成"@)),
            old(self).phase is Download ==> *final(self) == (ImageRun { phase: ImagePhase::AwaitDownload, ..*old(self) }),
            old(self).phase is AwaitDownload && event is Downloaded ==> final(self).chapter == old(self).chapter
                && final(self).link == old(self).link && final(self).content@ == old(self).content@ && final(self).phase is AwaitSave,
            old(self).phase is AwaitDownload && event is DownloadFailed ==> final(self).phase is NextLink && final(self).chapter
                == old(self).chapter && final(self).link == old(self).link + 1 && final(self).content@ == old(self).content@
                && (r matches ImageAction::Progress(p) && reports(p, *final(self), Some(old(self).current_link().url@), "failed"@,
                "图片下载失败"@)),
            old(self).phase matches ImagePhase::AwaitSave { filename } ==> final(self).phase is NextLink && final(self).chapter
                == old(self).chapter && final(self).link == old(self).link + 1 && final(self).content@ == replace_first(
                old(self).content@,
                old(self).current_link().matched@,
                img_tag(image_src(old(self).chapters@[old(self).chapter as int].path@, "OEBPS/Images/"@ + filename@)),
            ) && (r matches ImageAction::Progress(p) && reports(p, *final(self), Some(old(self).current_link().url@), "saved"@,
                "图片已保存并插入章节"@)),
            old(self).phase is EndChapter ==> final(self).phase is StartChapter && final(self).chapter == old(self).chapter + 1
                && final(self).content@ == old(self).content@ && (r matches ImageAction::Progress(p) && reports(p, ImageRun {
                chapter: old(self).chapter, ..*final(self) }, None, "chapter_done"@, "章节处理完成"@)),
            old(self).phase is Done ==> r is Finished && final(self).phase is Done,
            r matches ImageAction::Finished(res) ==> final(self).phase is Done && totals(res, *final(self))
                && res.successful_images + res.failed_images + res.skipped_duplicates == res.detected_raw_matches
                && res.inserted_images == res.successful_images + res.skipped_duplicates && res.processed_chapters
                == res.total_chapters && res.failures@.len() == res.failed_images,
    {
        let tag: u8 = match &self.phase {
            ImagePhase::StartChapter => 0,
            ImagePhase::NextLink => 1,
            ImagePhase::Download => 2,
            ImagePhase::AwaitDownload => 3,
            ImagePhase::AwaitSave { .. } => 4,
            ImagePhase::EndChapter => 5,
            ImagePhase::Done => 6,
        };
        if tag == 0 {
            self.start_chapter()
        } else if tag == 1 {
            self.next_link()
        } else if tag == 2 {
            self.download()
        } else if tag == 3 {
            match event {
                ImageEvent::Downloaded { mime_type } => self.downloaded(mime_type),
                ImageEvent::DownloadFailed { error } => self.download_failed(error),
                ImageEvent::Continue => {
                    assert(false);
                    ImageAction::Finished(self.result())
                },
            }
        } else if tag == 4 {
            let filename = match &self.phase {
                ImagePhase::AwaitSave { filename } => filename.clone(),
                _ => String::new(),
            };
            self.image_saved(filename)
        } else if tag == 5 {
            self.finish_chapter()
        } else {
            ImageAction::Finished(self.result())
        }
    }
}

} // verus!
