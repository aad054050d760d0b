//! Writing `content.opf` for the standardized package.

use vstd::prelude::*;
use crate::epub_path::string_views;
use crate::models::{EpubMetadata, RefactorError, StandardManifest, StandardManifestItem, StandardSpine};
use crate::opf_document::{push_spine_lines, spine_lines};
use crate::text::{
    chars_of, decimal, decimal_chars, escape_xml_spec, extend_chars, extend_str, join_with,
    push_escaped, push_joined, starts_with, string_of,
};

pub use crate::text::escape_xml;

verus! {

// ---------------------------------------------------------------------------
// Manifest and spine
// ---------------------------------------------------------------------------

/// The ` properties="..."` attribute of an item, if it has any properties.
pub open spec fn properties_attr(p: Option<Vec<String>>) -> Seq<char> {
    match p {
        Some(v) => if v@.len() > 0 {
            " properties=\""@ + join_with(string_views(v@), seq![' ']) + "\""@
        } else {
            seq![]
        },
        None => seq![],
    }
}

/// One `item` line of the manifest, id, href and media type escaped.
pub open spec fn manifest_item_line(item: StandardManifestItem) -> Seq<char> {
    "    <item id=\""@ + escape_xml_spec(item.id@) + "\" href=\""@ + escape_xml_spec(item.href@)
        + "\" media-type=\""@ + escape_xml_spec(item.media_type@) + "\""@ + properties_attr(
        item.properties,
    ) + " />"@
}

/// The `item` lines of a manifest, one per line.
pub open spec fn manifest_lines(items: Seq<StandardManifestItem>) -> Seq<char> {
    join_with(items.map_values(|i: StandardManifestItem| manifest_item_line(i)), seq!['\n'])
}

/// Appends one `item` line.
fn push_manifest_item(out: &mut Vec<char>, item: &StandardManifestItem)
    ensures
        final(out)@ == old(out)@ + manifest_item_line(*item),
{
    let ghost base = out@;
    extend_str(out, "    <item id=\"");
    let id = chars_of(item.id.as_str());
    push_escaped(out, id.as_slice());
    extend_str(out, "\" href=\"");
    let href = chars_of(item.href.as_str());
    push_escaped(out, href.as_slice());
    extend_str(out, "\" media-type=\"");
    let mt = chars_of(item.media_type.as_str());
    push_escaped(out, mt.as_slice());
    extend_str(out, "\"");
    let ghost before = out@;
    match &item.properties {
        Some(values) => {
            if values.len() > 0 {
                extend_str(out, " properties=\"");
                push_joined(out, values, " ");
                proof {
                    reveal_strlit(" ");
                    assert(" "@ =~= seq![' ']);
                }
                extend_str(out, "\"");
            }
        },
        None => {},
    }
    assert(out@ =~= before + properties_attr(item.properties));
    extend_str(out, " />");
    assert(out@ =~= base + manifest_item_line(*item));
}

/// Appends the `item` lines of a manifest, one per line.
fn push_manifest_lines(out: &mut Vec<char>, manifest: &StandardManifest)
    ensures
        final(out)@ == old(out)@ + manifest_lines(manifest.items@),
{
    let ghost base = out@;
    let ghost lines = manifest.items@.map_values(|i: StandardManifestItem| manifest_item_line(i));
    let mut i: usize = 0;
    while i < manifest.items.len()
        invariant
            i <= manifest.items@.len(),
            lines == manifest.items@.map_values(|i: StandardManifestItem| manifest_item_line(i)),
            out@ == base + join_with(lines.take(i as int), seq!['\n']),
        decreases manifest.items@.len() - i,
    {
        proof {
            let t = lines.take(i + 1);
            assert(t.drop_last() =~= lines.take(i as int));
        }
        if i > 0 {
            out.push('\n');
        }
        let ghost before = out@;
        push_manifest_item(out, &manifest.items[i]);
        proof {
            let t = lines.take(i + 1);
            assert(t.last() == manifest_item_line(manifest.items@[i as int]));
            if i == 0 {
                assert(join_with(t, seq!['\n']) == t[0]);
            }
            assert(out@ =~= base + join_with(t, seq!['\n']));
        }
        i += 1;
    }
    assert(lines.take(manifest.items@.len() as int) =~= lines);
}

/// The `item` lines of the manifest of `content.opf`.
pub fn build_manifest_items(manifest: &StandardManifest) -> (r: String)
    ensures
        r@ == manifest_lines(manifest.items@),
{
    let mut out: Vec<char> = Vec::new();
    push_manifest_lines(&mut out, manifest);
    assert(out@ =~= manifest_lines(manifest.items@));
    string_of(out.as_slice())
}

/// The `itemref` lines of the spine of `content.opf`.
pub fn build_spine_items(spine: &StandardSpine) -> (r: String)
    ensures
        r@ == spine_lines(spine.itemrefs@),
{
    let mut out: Vec<char> = Vec::new();
    push_spine_lines(&mut out, spine);
    assert(out@ =~= spine_lines(spine.itemrefs@));
    string_of(out.as_slice())
}

// ---------------------------------------------------------------------------
// The whole document
// ---------------------------------------------------------------------------

/// The language of the book, `en` if it has none.
pub open spec fn language_of(m: EpubMetadata) -> Seq<char> {
    match m.language {
        Some(l) => l@,
        None => "en"@,
    }
}

/// The `dc:creator` element of the book's author, if it has one.
pub open spec fn creator_of(m: EpubMetadata) -> Seq<char> {
    match m.author {
        Some(a) => "<dc:creator>"@ + escape_xml_spec(a@) + "</dc:creator>"@,
        None => seq![],
    }
}

/// `content.opf`: an EPUB 3 package with identifier `book-id`, the book's
/// identifier, title, author and language, the modification date, and the
/// manifest and spine lines.
pub open spec fn spec_opf_xml(
    metadata: EpubMetadata,
    manifest: StandardManifest,
    spine: StandardSpine,
    modified: Seq<char>,
) -> Seq<char> {
    "<?xml version=\"1.0\" encoding=\"UTF-8\"?>\n<package xmlns=\"http://www.idpf.org/2007/opf\" version=\"3.0\" unique-identifier=\"book-id\" xml:lang=\""@
        + language_of(metadata)
        + "\">\n  <metadata xmlns:dc=\"http://purl.org/dc/elements/1.1/\">\n    <dc:identifier id=\"book-id\">"@
        + escape_xml_spec(metadata.identifier@) + "</dc:identifier>\n    <dc:title>"@
        + escape_xml_spec(metadata.title@) + "</dc:title>\n    "@ + creator_of(metadata)
        + "\n    <dc:language>"@ + language_of(metadata)
        + "</dc:language>\n    <meta property=\"dcterms:modified\">"@ + modified
        + "</meta>\n  </metadata>\n\n  <manifest>\n    "@ + manifest_lines(manifest.items@)
        + "\n  </manifest>\n\n  <spine>\n    "@ + spine_lines(spine.itemrefs@)
        + "\n  </spine>\n</package>\n"@
}

/// `p` occurs in `s`.
pub open spec fn occurs_in(s: Seq<char>, p: Seq<char>) -> bool {
    exists|a: Seq<char>, b: Seq<char>| s == a + p + b
}

/// The head of `content.opf` up to the package's `xml:lang` value.
pub open spec fn package_head() -> Seq<char> {
    "<?xml version=\"1.0\" encoding=\"UTF-8\"?>\n<package xmlns=\"http://www.idpf.org/2007/opf\" version=\"3.0\" unique-identifier=\"book-id\" xml:lang=\""@
}

/// The book's language is the package's `xml:lang` and its `dc:language`:
/// the metadata's language when it has one, `en` when it has none.
#[verifier::rlimit(60)]
pub proof fn law_opf_language(
    metadata: EpubMetadata,
    manifest: StandardManifest,
    spine: StandardSpine,
    modified: Seq<char>,
)
    ensures
        metadata.language matches Some(l) ==> starts_with(
            spec_opf_xml(metadata, manifest, spine, modified),
            package_head() + l@ + "\""@,
        ) && occurs_in(
            spec_opf_xml(metadata, manifest, spine, modified),
            "<dc:language>"@ + l@ + "</dc:language>"@,
        ),
        metadata.language is None ==> starts_with(
            spec_opf_xml(metadata, manifest, spine, modified),
            package_head() + "en\""@,
        ) && occurs_in(spec_opf_xml(metadata, manifest, spine, modified), "<dc:language>en</dc:language>"@),
{
    let doc = spec_opf_xml(metadata, manifest, spine, modified);
    let lang = language_of(metadata);
    let head = package_head();
    let q = "\">\n  <metadata xmlns:dc=\"http://purl.org/dc/elements/1.1/\">\n    <dc:identifier id=\"book-id\">"@;
    let nl_lang = "\n    <dc:language>"@;
    let lang_end = "</dc:language>\n    <meta property=\"dcterms:modified\">"@;
    assert(q =~= "\""@ + q.skip(1)) by {
        reveal_strlit("\">\n  <metadata xmlns:dc=\"http://purl.org/dc/elements/1.1/\">\n    <dc:identifier id=\"book-id\">");
        reveal_strlit("\"");
    }
    assert(nl_lang =~= "\n    "@ + "<dc:language>"@) by {
        reveal_strlit("\n    <dc:language>");
        reveal_strlit("\n    ");
        reveal_strlit("<dc:language>");
    }
    assert(lang_end =~= "</dc:language>"@ + "\n    <meta property=\"dcterms:modified\">"@) by {
        reveal_strlit("</dc:language>\n    <meta property=\"dcterms:modified\">");
        reveal_strlit("</dc:language>");
        reveal_strlit("\n    <meta property=\"dcterms:modified\">");
    }
    let rest = q.skip(1) + escape_xml_spec(metadata.identifier@) + "</dc:identifier>\n    <dc:title>"@
        + escape_xml_spec(metadata.title@) + "</dc:title>\n    "@ + creator_of(metadata) + "\n    "@;
    let tail = "\n    <meta property=\"dcterms:modified\">"@ + modified
        + "</meta>\n  </metadata>\n\n  <manifest>\n    "@ + manifest_lines(manifest.items@)
        + "\n  </manifest>\n\n  <spine>\n    "@ + spine_lines(spine.itemrefs@)
        + "\n  </spine>\n</package>\n"@;
    let piece = "<dc:language>"@ + lang + "</dc:language>"@;
    let front = head + lang + "\""@;
    assert(doc =~= front + rest + piece + tail);
    assert((front + (rest + piece + tail)).subrange(0, front.len() as int) =~= front);
    assert(front + rest + piece + tail =~= front + (rest + piece + tail));
    assert(doc == (front + rest) + piece + tail);
    if metadata.language is None {
        assert(lang == "en"@);
        assert("en"@ + "\""@ =~= "en\""@) by {
            reveal_strlit("en");
            reveal_strlit("\"");
            reveal_strlit("en\"");
        }
        assert(front =~= head + "en\""@);
        assert(piece =~= "<dc:language>en</dc:language>"@) by {
            reveal_strlit("en");
            reveal_strlit("<dc:language>");
            reveal_strlit("</dc:language>");
            reveal_strlit("<dc:language>en</dc:language>");
        }
    }
}

/// Appends the language of the book.
fn push_language(out: &mut Vec<char>, metadata: &EpubMetadata)
    ensures
        final(out)@ == old(out)@ + language_of(*metadata),
{
    match &metadata.language {
        Some(l) => extend_str(out, l.as_str()),
        None => extend_str(out, "en"),
    }
}

/// Builds `content.opf` with the modification date `modified_date`.
pub fn build_opf_xml(
    metadata: &EpubMetadata,
    manifest: &StandardManifest,
    spine: &StandardSpine,
    modified_date: &str,
) -> (r: Result<String, RefactorError>)
    ensures
        r matches Ok(s) && s@ == spec_opf_xml(*metadata, *manifest, *spine, modified_date@),
{
    let mut out = chars_of(
        "<?xml version=\"1.0\" encoding=\"UTF-8\"?>\n<package xmlns=\"http://www.idpf.org/2007/opf\" version=\"3.0\" unique-identifier=\"book-id\" xml:lang=\"",
    );
    push_language(&mut out, metadata);
    extend_str(&mut out, "\">\n  <metadata xmlns:dc=\"http://purl.org/dc/elements/1.1/\">\n    <dc:identifier id=\"book-id\">");
    let ident = chars_of(metadata.identifier.as_str());
    push_escaped(&mut out, ident.as_slice());
    extend_str(&mut out, "</dc:identifier>\n    <dc:title>");
    let title = chars_of(metadata.title.as_str());
    push_escaped(&mut out, title.as_slice());
    extend_str(&mut out, "</dc:title>\n    ");
    match &metadata.author {
        Some(a) => {
            extend_str(&mut out, "<dc:creator>");
            let av = chars_of(a.as_str());
            push_escaped(&mut out, av.as_slice());
            extend_str(&mut out, "</dc:creator>");
        },
        None => {},
    }
    extend_str(&mut out, "\n    <dc:language>");
    push_language(&mut out, metadata);
    extend_str(&mut out, "</dc:language>\n    <meta property=\"dcterms:modified\">");
    extend_str(&mut out, modified_date);
    extend_str(&mut out, "</meta>\n  </metadata>\n\n  <manifest>\n    ");
    push_manifest_lines(&mut out, manifest);
    extend_str(&mut out, "\n  </manifest>\n\n  <spine>\n    ");
    push_spine_lines(&mut out, spine);
    extend_str(&mut out, "\n  </spine>\n</package>\n");
    assert(out@ =~= spec_opf_xml(*metadata, *manifest, *spine, modified_date@));
    Ok(string_of(out.as_slice()))
}


// ---------------------------------------------------------------------------
// Dates
// ---------------------------------------------------------------------------

/// A date of the Gregorian calendar and a time of day (UTC).
pub struct DateTime {
    pub year: i32,
    pub month: u32,
    pub day: u32,
    pub hour: u32,
    pub minute: u32,
    pub second: u32,
}

/// Leap years of the Gregorian calendar.
pub open spec fn is_leap_year(y: int) -> bool {
    y % 4 == 0 && (y % 100 != 0 || y % 400 == 0)
}

/// The number of days of year `y`.
pub open spec fn year_length(y: int) -> nat {
    if is_leap_year(y) {
        366
    } else {
        365
    }
}

/// The number of days of month `m` (1 to 12) of year `y`.
pub open spec fn month_length(y: int, m: nat) -> nat {
    if m == 2 {
        if is_leap_year(y) {
            29
        } else {
            28
        }
    } else if m == 4 || m == 6 || m == 9 || m == 11 {
        30
    } else {
        31
    }
}

/// The year and the day within it (from 0) of the day `d` days after
/// January 1 of year `y`.
pub open spec fn year_and_day(y: int, d: nat) -> (int, nat)
    decreases d,
{
    if d < year_length(y) {
        (y, d)
    } else {
        year_and_day(y + 1, (d - year_length(y)) as nat)
    }
}

/// The month and the day of the month (from 1) of day `d` (from 0) of
/// month `m` of year `y`, counting on into later months.
pub open spec fn month_and_day(y: int, m: nat, d: nat) -> (nat, nat)
    decreases 12 - m,
{
    if m >= 12 || d < month_length(y, m) {
        (m, d + 1)
    } else {
        month_and_day(y, m + 1, (d - month_length(y, m)) as nat)
    }
}

/// The date and time (UTC) of `secs` seconds after 1970-01-01T00:00:00:
/// the Gregorian year, month and day of the whole days, then hours,
/// minutes and seconds of the rest.
pub open spec fn spec_datetime(secs: nat) -> (int, nat, nat, nat, nat, nat) {
    let days = secs / 86400;
    let sod = secs % 86400;
    let yd = year_and_day(1970, days);
    let md = month_and_day(yd.0, 1, yd.1);
    (yd.0, md.0, md.1, sod / 3600, (sod % 3600) / 60, sod % 60)
}

fn is_leap_year_exec(y: u64) -> (r: bool)
    ensures
        r == is_leap_year(y as int),
{
    y % 4 == 0 && (y % 100 != 0 || y % 400 == 0)
}

fn year_length_exec(y: u64) -> (r: u64)
    ensures
        r == year_length(y as int),
{
    if is_leap_year_exec(y) {
        366
    } else {
        365
    }
}

fn month_length_exec(y: u64, m: u64) -> (r: u64)
    ensures
        r == month_length(y as int, m as nat),
{
    if m == 2 {
        if is_leap_year_exec(y) {
            29
        } else {
            28
        }
    } else if m == 4 || m == 6 || m == 9 || m == 11 {
        30
    } else {
        31
    }
}

/// The date of a timestamp; the day count must fit an `i32`.
pub fn chrono_timestamp_to_datetime(secs: u64) -> (r: DateTime)
    requires
        secs / 86400 <= i32::MAX,
    ensures
        (r.year as int, r.month as nat, r.day as nat, r.hour as nat, r.minute as nat, r.second as nat)
            == spec_datetime(secs as nat),
        r.year >= 1970,
{
    let days = secs / 86400;
    let sod = secs % 86400;
    let mut y: u64 = 1970;
    let mut d: u64 = days;
    while d >= year_length_exec(y)
        invariant
            days <= i32::MAX,
            d <= days,
            1970 <= y,
            365 * (y - 1970) <= days - d,
            year_and_day(1970, days as nat) == year_and_day(y as int, d as nat),
        decreases d,
    {
        d = d - year_length_exec(y);
        y = y + 1;
    }
    let mut m: u64 = 1;
    let mut dd: u64 = d;
    while m < 12 && dd >= month_length_exec(y, m)
        invariant
            1 <= m <= 12,
            dd <= d,
            d < 366,
            month_and_day(y as int, 1, d as nat) == month_and_day(y as int, m as nat, dd as nat),
        decreases 12 - m,
    {
        dd = dd - month_length_exec(y, m);
        m = m + 1;
    }
    DateTime {
        year: y as i32,
        month: m as u32,
        day: (dd + 1) as u32,
        hour: (sod / 3600) as u32,
        minute: ((sod % 3600) / 60) as u32,
        second: (sod % 60) as u32,
    }
}

/// The decimal digits of `n`, with leading zeros up to `width` digits.
pub open spec fn padded(n: nat, width: nat) -> Seq<char> {
    let d = decimal(n);
    if d.len() < width {
        Seq::new((width - d.len()) as nat, |i: int| '0') + d
    } else {
        d
    }
}

/// Appends `n` with leading zeros up to `width` digits.
fn push_padded(out: &mut Vec<char>, n: usize, width: usize)
    ensures
        final(out)@ == old(out)@ + padded(n as nat, width as nat),
{
    let ghost base = out@;
    let d = decimal_chars(n as u128);
    let mut k = d.len();
    while k < width
        invariant
            d.len() <= k <= width || (k == d.len() && d.len() >= width),
            out@ == base + Seq::new((k - d.len()) as nat, |i: int| '0'),
        decreases width - k,
    {
        out.push('0');
        k += 1;
        assert(out@ =~= base + Seq::new((k - d.len()) as nat, |i: int| '0'));
    }
    extend_chars(out, d.as_slice());
    assert(out@ =~= base + padded(n as nat, width as nat));
}

/// `YYYY-MM-DDTHH:MM:SSZ` for the date of `secs`.
pub open spec fn spec_format_timestamp(secs: nat) -> Seq<char> {
    let t = spec_datetime(secs);
    padded(t.0 as nat, 4) + seq!['-'] + padded(t.1, 2) + seq!['-'] + padded(t.2, 2) + seq!['T']
        + padded(t.3, 2) + seq![':'] + padded(t.4, 2) + seq![':'] + padded(t.5, 2) + seq!['Z']
}

/// Formats the date of a timestamp as `YYYY-MM-DDTHH:MM:SSZ`.
pub fn format_timestamp(secs: u64) -> (r: String)
    requires
        secs / 86400 <= i32::MAX,
    ensures
        r@ == spec_format_timestamp(secs as nat),
{
    let dt = chrono_timestamp_to_datetime(secs);
    let mut out: Vec<char> = Vec::new();
    push_padded(&mut out, dt.year as usize, 4);
    out.push('-');
    push_padded(&mut out, dt.month as usize, 2);
    out.push('-');
    push_padded(&mut out, dt.day as usize, 2);
    out.push('T');
    push_padded(&mut out, dt.hour as usize, 2);
    out.push(':');
    push_padded(&mut out, dt.minute as usize, 2);
    out.push(':');
    push_padded(&mut out, dt.second as usize, 2);
    out.push('Z');
    assert(out@ =~= spec_format_timestamp(secs as nat));
    string_of(out.as_slice())
}

/// `SystemTime::now()` as whole seconds after the Unix epoch; `None` if the
/// clock is set before the epoch.
#[verifier::external_body]
fn now_unix_secs() -> (r: Option<u64>) {
    match std::time::SystemTime::now().duration_since(std::time::UNIX_EPOCH) {
        Ok(d) => Some(d.as_secs()),
        Err(_) => None,
    }
}

/// The seconds that a clock reading stands for when dated: the reading
/// itself, or the epoch when the clock is set before the epoch or its day
/// count would not fit an `i32`.
pub open spec fn dated_secs(now: Option<u64>) -> nat {
    match now {
        Some(s) => if s / 86400 <= i32::MAX {
            s as nat
        } else {
            0
        },
        None => 0,
    }
}

/// The date of the clock reading `now` (whole seconds after the epoch, or
/// `None` before the epoch) as `YYYY-MM-DDTHH:MM:SSZ`.
pub fn date_of_clock(now: Option<u64>) -> (r: String)
    ensures
        r@ == spec_format_timestamp(dated_secs(now)),
{
    let secs = match now {
        Some(s) => if s / 86400 <= 2147483647 {
            s
        } else {
            0
        },
        None => 0,
    };
    format_timestamp(secs)
}

/// The current date as `YYYY-MM-DDTHH:MM:SSZ`: the date of whatever the
/// clock reads, as `date_of_clock` gives it.
pub fn get_current_date() -> (r: String)
    ensures
        exists|now: Option<u64>| r@ == spec_format_timestamp(dated_secs(now)),
{
    let now = now_unix_secs();
    date_of_clock(now)
}

/// Builds `content.opf` dated now.
pub fn build_opf_xml_now(
    metadata: &EpubMetadata,
    manifest: &StandardManifest,
    spine: &StandardSpine,
) -> (r: Result<String, RefactorError>)
    ensures
        r matches Ok(s) && exists|d: Seq<char>| s@ == spec_opf_xml(*metadata, *manifest, *spine, d),
{
    let date = get_current_date();
    build_opf_xml(metadata, manifest, spine, date.as_str())
}

} // verus!
