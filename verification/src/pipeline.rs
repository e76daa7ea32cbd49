//! Per-page orchestration of a conversion run.
//!
//! A [`Conversion`] is created once per invocation from the parsed page
//! list and the document's page count — the pre-flight bounds check
//! happens here, before any page is rendered — and then walks the pages
//! in order. For each page the caller fetches the current page number,
//! computes target dimensions, renders outside, and hands the raw
//! buffer back to [`Conversion::finish_page`], which normalizes it and
//! names the output file. Failures are fatal: the caller stops at the
//! first error, so pages after a failing one are never produced.

use vstd::prelude::*;

verus! {

use crate::geometry::MAX_DPI;
use crate::geometry::MAX_PAGE_MILLIPOINTS;
use crate::geometry::compute_pixels;
use crate::geometry::spec_pixels;
use crate::pixels::CanonicalImage;
use crate::pixels::PixelFormatError;
use crate::pixels::normalize;
use crate::pixels::rgb_triple_from_bgra;
use crate::text::spec_udec;
use crate::text::str_chars;
use crate::text::u32_to_string;
use vstd::string::StringExecFns;

/// The two output formats pages can be encoded in.
#[derive(Debug, Clone, Copy, PartialEq, Eq, Structural)]
pub enum OutputFormat {
    Png,
    Jpeg,
}

/// The requested page range reaches past the end of the document.
#[derive(Debug, Clone, Copy, PartialEq, Eq, Structural)]
pub struct PageBoundsError {
    /// The largest page number asked for.
    pub max_requested: u32,
    /// How many pages the document has.
    pub total_pages: u32,
}

/// A raw buffer of a specific page was rejected by the normalizer.
#[derive(Debug, Clone, Copy, PartialEq, Eq, Structural)]
pub struct PagePixelFormatError {
    /// The 1-based page whose buffer was malformed.
    pub page: u32,
    /// The two acceptable lengths and the actual one.
    pub error: PixelFormatError,
}

/// One converted page: its number, output file name and canonical image.
#[derive(Debug)]
pub struct PageOutput {
    pub page: u32,
    pub filename: String,
    pub image: CanonicalImage,
}

pub open spec fn matches_case_insensitive_p(c: char) -> bool {
    c == 'p' || c == 'P'
}

pub open spec fn matches_case_insensitive_n(c: char) -> bool {
    c == 'n' || c == 'N'
}

pub open spec fn matches_case_insensitive_g(c: char) -> bool {
    c == 'g' || c == 'G'
}

pub open spec fn matches_case_insensitive_j(c: char) -> bool {
    c == 'j' || c == 'J'
}

pub open spec fn matches_case_insensitive_e(c: char) -> bool {
    c == 'e' || c == 'E'
}

/// `s` spells `png`, in any letter case.
pub open spec fn spells_png(s: Seq<char>) -> bool {
    s.len() == 3 && matches_case_insensitive_p(s[0]) && matches_case_insensitive_n(s[1])
        && matches_case_insensitive_g(s[2])
}

/// `s` spells `jpeg`, in any letter case.
pub open spec fn spells_jpeg(s: Seq<char>) -> bool {
    s.len() == 4 && matches_case_insensitive_j(s[0]) && matches_case_insensitive_p(s[1])
        && matches_case_insensitive_e(s[2]) && matches_case_insensitive_g(s[3])
}

/// `s` spells the conventional alias `jpg`, in any letter case.
pub open spec fn spells_jpg(s: Seq<char>) -> bool {
    s.len() == 3 && matches_case_insensitive_j(s[0]) && matches_case_insensitive_p(s[1])
        && matches_case_insensitive_g(s[2])
}

/// The format a format argument denotes: `png`, `jpeg`, or the alias
/// `jpg` which is normalized to JPEG; anything else is unsupported.
pub open spec fn format_of(s: Seq<char>) -> Option<OutputFormat> {
    if spells_png(s) {
        Some(OutputFormat::Png)
    } else if spells_jpeg(s) || spells_jpg(s) {
        Some(OutputFormat::Jpeg)
    } else {
        None
    }
}

/// Parse the requested output format, accepting letters in any case and
/// normalizing the alias `jpg` to JPEG.
pub fn parse_output_format(s: &str) -> (r: Option<OutputFormat>)
    ensures
        r == format_of(s@),
{
    let v = str_chars(s);
    if v.len() == 3 {
        let c0 = v[0];
        let c1 = v[1];
        let c2 = v[2];
        if (c0 == 'p' || c0 == 'P') && (c1 == 'n' || c1 == 'N') && (c2 == 'g' || c2 == 'G') {
            Some(OutputFormat::Png)
        } else if (c0 == 'j' || c0 == 'J') && (c1 == 'p' || c1 == 'P') && (c2 == 'g' || c2 == 'G') {
            Some(OutputFormat::Jpeg)
        } else {
            None
        }
    } else if v.len() == 4 {
        let c0 = v[0];
        let c1 = v[1];
        let c2 = v[2];
        let c3 = v[3];
        if (c0 == 'j' || c0 == 'J') && (c1 == 'p' || c1 == 'P') && (c2 == 'e' || c2 == 'E') && (c3
            == 'g' || c3 == 'G') {
            Some(OutputFormat::Jpeg)
        } else {
            None
        }
    } else {
        None
    }
}

/// The file extension written for a format: the alias `jpg` never
/// appears in an output name, JPEG files carry `jpeg`.
pub open spec fn spec_extension(f: OutputFormat) -> Seq<char> {
    match f {
        OutputFormat::Png => "png"@,
        OutputFormat::Jpeg => "jpeg"@,
    }
}

/// The extension for a format, as written into output file names.
pub fn extension_str(format: OutputFormat) -> (r: &'static str)
    ensures
        r@ == spec_extension(format),
{
    match format {
        OutputFormat::Png => "png",
        OutputFormat::Jpeg => "jpeg",
    }
}

/// The output file name for a page: `{stem}_page_{page}.{extension}`.
pub open spec fn spec_page_filename(stem: Seq<char>, page: u32, f: OutputFormat) -> Seq<char> {
    stem + "_page_"@ + spec_udec(page as nat) + "."@ + spec_extension(f)
}

/// Build the output file name `{stem}_page_{page}.{extension}`.
pub fn page_filename(stem: &str, page: u32, format: OutputFormat) -> (r: String)
    ensures
        r@ == spec_page_filename(stem@, page, format),
{
    let mut s = String::from_str(stem);
    s.append("_page_");
    let digits = u32_to_string(page);
    s.append(digits.as_str());
    s.append(".");
    s.append(extension_str(format));
    proof {
        assert(s@ =~= spec_page_filename(stem@, page, format));
    }
    s
}

/// The largest element of `s`, zero when `s` is empty.
pub open spec fn seq_max(s: Seq<u32>) -> u32
    decreases s.len(),
{
    if s.len() == 0 {
        0
    } else {
        let m = seq_max(s.drop_last());
        if s.last() > m {
            s.last()
        } else {
            m
        }
    }
}

/// The walk over the requested pages of one conversion run.
#[derive(Debug)]
pub struct Conversion {
    pages: Vec<u32>,
    format: OutputFormat,
    dpi: u32,
    stem: String,
    next: usize,
}

impl Conversion {
    /// The requested pages, ascending, as validated at construction.
    pub closed spec fn spec_pages(self) -> Seq<u32> {
        self.pages@
    }

    /// The output format of the run.
    pub closed spec fn spec_format(self) -> OutputFormat {
        self.format
    }

    /// The DPI setting of the run.
    pub closed spec fn spec_dpi(self) -> u32 {
        self.dpi
    }

    /// The document's base file name, used in output names.
    pub closed spec fn spec_stem(self) -> Seq<char> {
        self.stem@
    }

    /// How many pages have been finished so far.
    pub closed spec fn spec_done(self) -> int {
        self.next as int
    }

    #[verifier::type_invariant]
    spec fn inv(self) -> bool {
        &&& self.next <= self.pages@.len()
        &&& self.dpi <= MAX_DPI
        &&& forall|i: int| 0 <= i < self.pages@.len() ==> 1 <= #[trigger] self.pages@[i]
    }

    /// Start a conversion run: the pre-flight check. If any requested
    /// page lies past the end of the document the whole run is refused,
    /// before any page is rendered, naming the largest requested page
    /// and the document's page count.
    pub fn new(
        pages: Vec<u32>,
        total_pages: u32,
        format: OutputFormat,
        dpi: u32,
        stem: String,
    ) -> (r: Result<Conversion, PageBoundsError>)
        requires
            forall|i: int| 0 <= i < pages@.len() ==> 1 <= #[trigger] pages@[i],
            dpi <= MAX_DPI,
        ensures
            ({
                if pages@.len() > 0 && seq_max(pages@) > total_pages {
                    r matches Err(e) && e == (PageBoundsError {
                        max_requested: seq_max(pages@),
                        total_pages,
                    })
                } else {
                    &&& r matches Ok(c)
                    &&& c.spec_pages() == pages@
                    &&& c.spec_format() == format
                    &&& c.spec_dpi() == dpi
                    &&& c.spec_stem() == stem@
                    &&& c.spec_done() == 0
                }
            }),
    {
        let n = pages.len();
        let mut maxp: u32 = 0;
        let mut i: usize = 0;
        while i < n
            invariant
                0 <= i <= n,
                n == pages@.len(),
                maxp == seq_max(pages@.subrange(0, i as int)),
            decreases n - i,
        {
            let p = pages[i];
            let ghost pre = pages@.subrange(0, i as int);
            if p > maxp {
                maxp = p;
            }
            i = i + 1;
            proof {
                let cur = pages@.subrange(0, i as int);
                assert(cur.drop_last() =~= pre);
                assert(cur.last() == pages@[i - 1]);
            }
        }
        proof {
            assert(pages@.subrange(0, n as int) =~= pages@);
        }
        if n > 0 && maxp > total_pages {
            return Err(PageBoundsError { max_requested: maxp, total_pages });
        }
        Ok(Conversion { pages, format, dpi, stem, next: 0 })
    }

    /// The page to convert next, or `None` when the run is complete.
    pub fn current_page(&self) -> (r: Option<u32>)
        ensures
            r == (if self.spec_done() < self.spec_pages().len() {
                Some(self.spec_pages()[self.spec_done()])
            } else {
                None::<u32>
            }),
    {
        if self.next < self.pages.len() {
            Some(self.pages[self.next])
        } else {
            None
        }
    }

    /// The renderer's 0-based index of the page to convert next.
    pub fn current_page_index(&self) -> (r: Option<u32>)
        ensures
            r == (if self.spec_done() < self.spec_pages().len() {
                Some((self.spec_pages()[self.spec_done()] - 1) as u32)
            } else {
                None::<u32>
            }),
    {
        proof {
            use_type_invariant(self);
        }
        if self.next < self.pages.len() {
            let p = self.pages[self.next];
            Some(p - 1)
        } else {
            None
        }
    }

    /// Target pixel dimensions for a page of the given physical size at
    /// this run's DPI setting.
    pub fn target_dimensions(&self, width_millipoints: u64, height_millipoints: u64) -> (r: (
        i64,
        i64,
    ))
        requires
            width_millipoints <= MAX_PAGE_MILLIPOINTS,
            height_millipoints <= MAX_PAGE_MILLIPOINTS,
        ensures
            r.0 == spec_pixels(width_millipoints as int, self.spec_dpi() as int),
            r.1 == spec_pixels(height_millipoints as int, self.spec_dpi() as int),
    {
        proof {
            use_type_invariant(self);
        }
        compute_pixels(width_millipoints, height_millipoints, self.dpi)
    }

    /// How many pages have been finished.
    pub fn pages_done(&self) -> (r: usize)
        ensures
            r == self.spec_done(),
    {
        self.next
    }

    /// How many pages the run asks for in all.
    pub fn pages_requested(&self) -> (r: usize)
        ensures
            r == self.spec_pages().len(),
    {
        self.pages.len()
    }

    /// Whether every requested page has been finished.
    pub fn is_done(&self) -> (r: bool)
        ensures
            r == (self.spec_done() == self.spec_pages().len()),
    {
        proof {
            use_type_invariant(self);
        }
        self.next == self.pages.len()
    }

    /// The format pages are encoded in.
    pub fn output_format(&self) -> (r: OutputFormat)
        ensures
            r == self.spec_format(),
    {
        self.format
    }

    /// Finish the current page: normalize the renderer's raw buffer —
    /// judged against the dimensions the renderer actually produced,
    /// not the requested ones — and name the output file. On success
    /// the run advances to the next page; a malformed buffer reports
    /// the page and the length mismatch and leaves the run unchanged,
    /// so the caller stops without touching later pages.
    pub fn finish_page(&mut self, raw: &[u8], actual_width: u32, actual_height: u32) -> (r: Result<
        PageOutput,
        PagePixelFormatError,
    >)
        requires
            old(self).spec_done() < old(self).spec_pages().len(),
            actual_width as int * actual_height as int * 4 <= u64::MAX,
        ensures
            final(self).spec_pages() == old(self).spec_pages(),
            final(self).spec_format() == old(self).spec_format(),
            final(self).spec_dpi() == old(self).spec_dpi(),
            final(self).spec_stem() == old(self).spec_stem(),
            ({
                let pc = actual_width as int * actual_height as int;
                let page = old(self).spec_pages()[old(self).spec_done()];
                if raw@.len() == pc * 4 || raw@.len() == pc * 3 {
                    &&& r matches Ok(out)
                    &&& out.page == page
                    &&& out.filename@ == spec_page_filename(
                        old(self).spec_stem(),
                        page,
                        old(self).spec_format(),
                    )
                    &&& out.image.width == actual_width
                    &&& out.image.height == actual_height
                    &&& out.image.wf()
                    &&& (if raw@.len() == pc * 4 {
                        out.image.bytes@.len() == pc * 3 && (forall|p: int|
                            0 <= p < pc ==> rgb_triple_from_bgra(raw@, out.image.bytes@, p))
                    } else {
                        out.image.bytes@ == raw@
                    })
                    &&& final(self).spec_done() == old(self).spec_done() + 1
                } else {
                    &&& r matches Err(e)
                    &&& e == (PagePixelFormatError {
                        page,
                        error: PixelFormatError {
                            expected_rgb: (pc * 3) as u64,
                            expected_bgra: (pc * 4) as u64,
                            actual: raw@.len() as u64,
                        },
                    })
                    &&& final(self).spec_done() == old(self).spec_done()
                }
            }),
    {
        proof {
            use_type_invariant(&*self);
        }
        let n = self.pages.len();
        let page = self.pages[self.next];
        match normalize(raw, actual_width, actual_height) {
            Ok(img) => {
                let filename = page_filename(self.stem.as_str(), page, self.format);
                self.next = self.next + 1;
                Ok(PageOutput { page, filename, image: img })
            },
            Err(e) => Err(PagePixelFormatError { page, error: e }),
        }
    }
}

/// The assembled buffer the encoders consume. It wraps the image
/// crate's RGB buffer type, which stays opaque here; the surrounding
/// binary reaches the buffer through the public field.
#[verifier::external_body]
pub struct OutputImage {
    pub inner: image::RgbImage,
}

impl OutputImage {
    /// Relies on image::ImageBuffer::from_raw: it returns `Some` when
    /// the container holds at least `3 * width * height` bytes for an
    /// RGB image and its internal `3 * width * height` length check,
    /// computed stepwise in `usize`, does not overflow.
    #[verifier::external_body]
    fn from_canonical_parts(width: u32, height: u32, bytes: Vec<u8>) -> (r: Option<OutputImage>)
        ensures
            bytes@.len() == width as int * height as int * 3 && 3 * (width as int) <= usize::MAX
                ==> r is Some,
    {
        image::RgbImage::from_raw(width, height, bytes).map(|inner| OutputImage { inner })
    }
}

/// Assemble a canonical image into the buffer type the encoders take.
/// The canonical-layout invariant makes the defensive construction
/// check unfailing, so no error case is left.
pub fn build_output_image(img: CanonicalImage) -> OutputImage
    requires
        img.wf(),
        3 * (img.width as int) <= usize::MAX,
{
    let w = img.width;
    let h = img.height;
    let opt = OutputImage::from_canonical_parts(w, h, img.bytes);
    opt.unwrap()
}

} // verus!
