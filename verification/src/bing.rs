//! Bing daily-image metadata: request URL, image records, UHD URLs, file
//! names taken from image URLs and the dates of the API.

use vstd::prelude::*;
use crate::text::{
    append_str, before_first, chars_of, contains_seq, contains_str, decimal, decimal_text, digit_char,
    digit_exec, find, find_exec, find_from, has_prefix, lemma_find_from, lemma_find_from_char,
    occurs_at, push_char, replace_all, replace_str, split_second, string_of_range, zero_pad,
};
use chrono::Datelike;

verus! {

/// Metadata for a single Bing daily image.
#[derive(Debug, Clone)]
pub struct BingImage {
    pub title: String,
    pub date: String,
    pub url: String,
    pub url_base: String,
    pub copyright: String,
    pub copyright_link: String,
}

/// One image record as the Bing API sends it.
#[derive(Debug, Clone)]
pub struct BingApiImage {
    pub title: String,
    pub startdate: String,
    pub url: String,
    pub urlbase: String,
    pub copyright: String,
    pub copyrightlink: String,
}

// ---------------------------------------------------------------------------
// Specifications
// ---------------------------------------------------------------------------

/// The marker of the 1920x1080 rendition in an image URL.
pub open spec fn hd_marker() -> Seq<char> {
    "_1920x1080"@
}

/// The marker of the UHD rendition in an image URL.
pub open spec fn uhd_marker() -> Seq<char> {
    "_UHD"@
}

/// The URL of the UHD rendition of `url`.
pub open spec fn uhd_url(url: Seq<char>) -> Seq<char> {
    replace_all(url, hd_marker(), uhd_marker())
}

/// The file name that an image URL names: the value of its `id=` parameter,
/// up to the next `&`, or `wallpaper.jpg` when there is none.
pub open spec fn filename_of_url(url: Seq<char>) -> Seq<char> {
    match split_second(url, "id="@) {
        Some(seg) => before_first(seg, "&"@),
        None => "wallpaper.jpg"@,
    }
}

/// The number of images asked for: `count` held within 1..=8.
pub open spec fn clamped_count(count: u8) -> u8 {
    if count > 8 {
        8
    } else if count < 1 {
        1
    } else {
        count
    }
}

/// The API request for `count` images of market `region`.
pub open spec fn api_url(region: Seq<char>, count: u8) -> Seq<char> {
    "https://www.bing.com/HPImageArchive.aspx?format=js&idx=0&n="@ + decimal(
        clamped_count(count) as nat,
    ) + "&mkt="@ + region
}

/// Two decimal digits of `n` (< 100).
pub open spec fn two_digits(n: nat) -> Seq<char> {
    seq![digit_char(n / 10), digit_char(n % 10)]
}

/// The year as `%Y` renders it: four digits, zero-padded, for years
/// 0..=9999; otherwise a sign and at least four digits.
pub open spec fn year_text(y: int) -> Seq<char> {
    if 0 <= y <= 9999 {
        zero_pad(decimal(y as nat), 4)
    } else if y < 0 {
        seq!['-'] + zero_pad(decimal((-y) as nat), 4)
    } else {
        seq!['+'] + zero_pad(decimal(y as nat), 4)
    }
}

/// A calendar date as `YYYY-MM-DD` (the `%Y-%m-%d` layout).
pub open spec fn iso_date(y: int, m: nat, d: nat) -> Seq<char> {
    year_text(y) + seq!['-'] + two_digits(m) + seq!['-'] + two_digits(d)
}

/// The smallest and largest years of a calendar date.
pub open spec fn min_year() -> int {
    -262143
}

pub open spec fn max_year() -> int {
    262142
}

/// The date that a `YYYYMMDD` text denotes, as chrono's
/// `NaiveDate::parse_from_str(raw, "%Y%m%d")` reads it.
pub uninterp spec fn compact_date(raw: Seq<char>) -> Option<(int, int, int)>;

/// An API date (`YYYYMMDD`) as `YYYY-MM-DD`, or unchanged when it is not a date.
pub open spec fn formatted_date(raw: Seq<char>) -> Seq<char> {
    match compact_date(raw) {
        Some((y, m, d)) => iso_date(y, m as nat, d as nat),
        None => raw,
    }
}

// ---------------------------------------------------------------------------
// Trusted item
// ---------------------------------------------------------------------------

/// chrono's `NaiveDate::parse_from_str(raw, "%Y%m%d")`, with the date taken
/// apart into year, month and day. Claim: the result is the named
/// `compact_date(raw)`, and a parsed date has a month in 1..=12, a day in
/// 1..=31 and a year within chrono's range. Which texts parse is not stated.
#[verifier::external_body]
fn parse_compact_date(raw: &str) -> (r: Option<(i32, u32, u32)>)
    ensures
        match r {
            Some((y, m, d)) => {
                &&& compact_date(raw@) == Some((y as int, m as int, d as int))
                &&& 1 <= m <= 12
                &&& 1 <= d <= 31
                &&& min_year() <= y <= max_year()
            },
            None => compact_date(raw@) is None,
        },
{
    match chrono::NaiveDate::parse_from_str(raw, "%Y%m%d") {
        Ok(d) => Some((d.year(), d.month(), d.day())),
        Err(_) => None,
    }
}

// ---------------------------------------------------------------------------
// Laws
// ---------------------------------------------------------------------------

/// A text without the pattern is left as it is by `replace_all`.
pub proof fn lemma_replace_absent(s: Seq<char>, p: Seq<char>, r: Seq<char>)
    requires
        !contains_seq(s, p),
    ensures
        replace_all(s, p, r) == s,
    decreases s.len(),
{
    if s.len() == 0 || p.len() == 0 {
    } else {
        if has_prefix(s, p) {
            assert(occurs_at(s, p, 0));
        }
        let t = s.skip(1);
        assert forall|i: int| !occurs_at(t, p, i) by {
            if occurs_at(t, p, i) {
                assert(s.subrange(i + 1, i + 1 + p.len()) =~= t.subrange(i, i + p.len()));
                assert(occurs_at(s, p, i + 1));
            }
        }
        lemma_replace_absent(t, p, r);
        assert(seq![s[0]] + t =~= s);
    }
}

/// A prefix without '_' of an upgraded text is a prefix of the text before
/// the upgrade.
proof fn lemma_uhd_prefix_back(t: Seq<char>, q: Seq<char>)
    requires
        has_prefix(uhd_url(t), q),
        forall|k: int| 0 <= k < q.len() ==> #[trigger] q[k] != '_',
    ensures
        has_prefix(t, q),
    decreases t.len(),
{
    reveal_strlit("_1920x1080");
    reveal_strlit("_UHD");
    if q.len() == 0 {
        assert(t.subrange(0, 0) =~= q);
    } else if t.len() == 0 {
    } else if has_prefix(t, hd_marker()) {
        assert(uhd_url(t)[0] == '_');
        assert(q[0] == uhd_url(t).subrange(0, q.len() as int)[0]);
    } else {
        let u = uhd_url(t.skip(1));
        assert(uhd_url(t) == seq![t[0]] + u);
        assert(has_prefix(u, q.skip(1))) by {
            assert(u.subrange(0, q.len() - 1) =~= uhd_url(t).subrange(0, q.len() as int).skip(1));
        }
        lemma_uhd_prefix_back(t.skip(1), q.skip(1));
        assert(t.subrange(0, q.len() as int) =~= seq![t[0]] + t.skip(1).subrange(0, q.len() - 1));
        assert(q =~= seq![q[0]] + q.skip(1));
        assert(q[0] == uhd_url(t).subrange(0, q.len() as int)[0]);
    }
}

/// After the UHD upgrade no 1920x1080 marker is left in a URL.
pub proof fn lemma_uhd_url_has_no_hd_marker(url: Seq<char>)
    ensures
        !contains_seq(uhd_url(url), hd_marker()),
    decreases url.len(),
{
    reveal_strlit("_1920x1080");
    reveal_strlit("_UHD");
    let p = hd_marker();
    let out = uhd_url(url);
    if url.len() == 0 {
        assert forall|i: int| !occurs_at(out, p, i) by {}
    } else if has_prefix(url, p) {
        let rest = uhd_url(url.skip(10));
        lemma_uhd_url_has_no_hd_marker(url.skip(10));
        assert(out == uhd_marker() + rest);
        assert forall|i: int| !occurs_at(out, p, i) by {
            if occurs_at(out, p, i) {
                let w = out.subrange(i, i + 10);
                if i < 4 {
                    // The first character of the marker is '_', found only at
                    // index 0 of "_UHD", which is followed by 'U', not '1'.
                    assert(w[0] == out[i]);
                    assert(w[0] == '_');
                    if i == 0 {
                        assert(w[1] == out[1]);
                    } else {
                        assert(out[i] == uhd_marker()[i]);
                    }
                } else {
                    assert(rest.subrange(i - 4, i - 4 + 10) =~= w);
                    assert(occurs_at(rest, p, i - 4));
                }
            }
        }
    } else {
        let t = url.skip(1);
        let rest = uhd_url(t);
        lemma_uhd_url_has_no_hd_marker(t);
        assert(out == seq![url[0]] + rest);
        assert forall|i: int| !occurs_at(out, p, i) by {
            if occurs_at(out, p, i) {
                if i == 0 {
                    let q = p.skip(1);
                    assert(q =~= "1920x1080"@.take(9)) by {
                        reveal_strlit("1920x1080");
                    }
                    assert forall|k: int| 0 <= k < q.len() implies #[trigger] q[k] != '_' by {
                        assert(q[k] == p[k + 1]);
                    }
                    assert(has_prefix(rest, q)) by {
                        assert(rest.subrange(0, 9) =~= out.subrange(0, 10).skip(1));
                    }
                    lemma_uhd_prefix_back(t, q);
                    assert(url.subrange(0, 10) =~= seq![url[0]] + t.subrange(0, 9));
                    assert(url[0] == out[0]);
                    assert(p =~= seq![p[0]] + q);
                    assert(p[0] == out.subrange(0, 10)[0]);
                    assert(has_prefix(url, p));
                } else {
                    assert(rest.subrange(i - 1, i - 1 + 10) =~= out.subrange(i, i + 10));
                    assert(occurs_at(rest, p, i - 1));
                }
            }
        }
    }
}

/// Upgrading a URL to UHD twice is upgrading it once.
pub proof fn lemma_uhd_idempotent(url: Seq<char>)
    ensures
        uhd_url(uhd_url(url)) == uhd_url(url),
{
    lemma_uhd_url_has_no_hd_marker(url);
    lemma_replace_absent(uhd_url(url), hd_marker(), uhd_marker());
}

/// The part of a text before the first occurrence of `p` does not hold `p`.
pub proof fn lemma_before_first_excludes(s: Seq<char>, p: Seq<char>)
    requires
        p.len() > 0,
    ensures
        !contains_seq(before_first(s, p), p),
{
    lemma_find_from(s, p, 0);
    let i = find(s, p);
    let b = before_first(s, p);
    assert forall|j: int| !occurs_at(b, p, j) by {
        if occurs_at(b, p, j) {
            if i >= 0 {
                assert(b == s.take(i));
                assert(s.subrange(j, j + p.len()) =~= b.subrange(j, j + p.len()));
                assert(occurs_at(s, p, j));
                assert(j < i);
            } else {
                assert(b == s);
                assert(occurs_at(s, p, j));
            }
        }
    }
}

/// A file name taken from an image URL never holds '&'.
pub proof fn lemma_filename_has_no_ampersand(url: Seq<char>)
    ensures
        !contains_seq(filename_of_url(url), "&"@),
{
    reveal_strlit("&");
    reveal_strlit("wallpaper.jpg");
    match split_second(url, "id="@) {
        Some(seg) => {
            assert("&"@.len() == 1);
            lemma_before_first_excludes(seg, "&"@);
        },
        None => {
            let w = "wallpaper.jpg"@;
            assert forall|j: int| !occurs_at(w, "&"@, j) by {
                if occurs_at(w, "&"@, j) {
                    assert(w.subrange(j, j + 1)[0] == w[j]);
                }
            }
        },
    }
}

/// `count` is held within 1..=8 and kept when already within.
pub proof fn lemma_clamped_count(count: u8)
    ensures
        1 <= clamped_count(count) <= 8,
        1 <= count <= 8 ==> clamped_count(count) == count,
{
}

/// A date of years 0..=9999 comes out as `YYYY-MM-DD`: ten characters with
/// '-' at indices 4 and 7.
pub proof fn lemma_iso_date_shape(y: int, m: nat, d: nat)
    requires
        0 <= y <= 9999,
        m < 100,
        d < 100,
    ensures
        iso_date(y, m, d).len() == 10,
        iso_date(y, m, d)[4] == '-',
        iso_date(y, m, d)[7] == '-',
{
    lemma_decimal_len(y as nat);
    assert(year_text(y).len() == 4);
}

/// The number of decimal digits of `n`.
pub proof fn lemma_decimal_len(n: nat)
    ensures
        decimal(n).len() >= 1,
        n < 10000 ==> decimal(n).len() <= 4,
        n < 1000 ==> decimal(n).len() <= 3,
        n < 100 ==> decimal(n).len() <= 2,
        n < 10 ==> decimal(n).len() == 1,
    decreases n,
{
    if n >= 10 {
        lemma_decimal_len(n / 10);
    }
}

// ---------------------------------------------------------------------------
// Executable functions
// ---------------------------------------------------------------------------

/// Upgrade a standard Bing image URL to UHD (4K) resolution:
/// `_1920x1080` becomes `_UHD`; a URL without that marker is returned as is.
pub fn upgrade_to_uhd(url: &str) -> (r: String)
    ensures
        r@ == uhd_url(url@),
        !contains_seq(url@, hd_marker()) ==> r@ == url@,
{
    proof {
        reveal_strlit("_1920x1080");
        reveal_strlit("_UHD");
    }
    if contains_str(url, "_1920x1080") {
        replace_str(url, "_1920x1080", "_UHD")
    } else {
        proof {
            lemma_replace_absent(url@, hd_marker(), uhd_marker());
        }
        url.to_string()
    }
}

/// Extract a clean file name from a Bing image URL: the value of `id=` up to
/// the next `&`, e.g. `/th?id=OHR.Fox_UHD.jpg&rf=1` gives `OHR.Fox_UHD.jpg`.
pub fn extract_filename(url: &str) -> (r: String)
    ensures
        r@ == filename_of_url(url@),
{
    let uv = chars_of(url);
    let idv = chars_of("id=");
    let ampv = chars_of("&");
    proof {
        reveal_strlit("id=");
    }
    let first = find_exec(&uv, &idv, 0);
    proof {
        lemma_find_from(uv@, idv@, 0);
    }
    match first {
        None => {
            "wallpaper.jpg".to_string()
        },
        Some(i) => {
            assert(occurs_at(uv@, idv@, i as int));
            assert(idv@.len() == 3);
            let n = uv.len();
            assert(i + 3 <= n);
            let start = i + 3;
            let ghost rest = uv@.skip(start as int);
            // The segment after the first "id=" ends at the next "id=".
            let next = find_exec(&uv, &idv, start);
            proof {
                lemma_find_from(uv@, idv@, start as int);
                lemma_shift_find(uv@, idv@, start as int);
            }
            let seg_end = match next {
                Some(j) => j,
                None => uv.len(),
            };
            let seg = string_of_range(&uv, start, seg_end);
            assert(seg@ == before_first(rest, "id="@)) by {
                if next is Some {
                    assert(uv@.subrange(start as int, seg_end as int) =~= rest.take(seg_end - start));
                } else {
                    assert(uv@.subrange(start as int, seg_end as int) =~= rest);
                }
            }
            let segv = chars_of(seg.as_str());
            let amp = find_exec(&segv, &ampv, 0);
            proof {
                lemma_find_from(segv@, ampv@, 0);
            }
            let end = match amp {
                Some(k) => k,
                None => segv.len(),
            };
            let r = string_of_range(&segv, 0, end);
            assert(r@ == before_first(seg@, "&"@)) by {
                if amp is Some {
                    assert(segv@.subrange(0, end as int) =~= segv@.take(end as int));
                } else {
                    assert(segv@.subrange(0, end as int) =~= segv@);
                }
            }
            r
        },
    }
}

/// The search for `p` in `s.skip(a)` is the search in `s` from `a`, shifted.
pub proof fn lemma_shift_find(s: Seq<char>, p: Seq<char>, a: int)
    requires
        0 <= a <= s.len(),
    ensures
        find(s.skip(a), p) == (if find_from(s, p, a) < 0 { -1 } else { find_from(s, p, a) - a }),
{
    let t = s.skip(a);
    lemma_find_from(s, p, a);
    let f = find_from(s, p, a);
    assert forall|j: int| 0 <= j implies (occurs_at(t, p, j) <==> occurs_at(s, p, j + a)) by {
        if 0 <= j && j + p.len() <= t.len() {
            assert(t.subrange(j, j + p.len()) =~= s.subrange(j + a, j + a + p.len()));
        }
    }
    let r = if f < 0 { -1 } else { f - a };
    assert forall|j: int| 0 <= j && (r == -1 || j < r) implies !occurs_at(t, p, j) by {
        assert(!occurs_at(s, p, j + a));
    }
    lemma_find_from_char(t, p, 0, r);
}

/// Format a Bing date string `20260317` as `2026-03-17`; a text that is not
/// such a date is returned unchanged.
pub fn format_date(raw: &str) -> (r: String)
    ensures
        r@ == formatted_date(raw@),
{
    match parse_compact_date(raw) {
        Some((y, m, d)) => iso_date_text(y, m, d),
        None => raw.to_string(),
    }
}

/// `s` left-padded with '0' to four characters.
fn zero_pad4(s: String) -> (r: String)
    ensures
        r@ == zero_pad(s@, 4),
{
    if s.as_str().unicode_len() >= 4 {
        return s;
    }
    let mut r = String::new();
    let n = s.as_str().unicode_len();
    let mut i: usize = n;
    while i < 4
        invariant
            n <= i <= 4,
            n == s@.len(),
            r@ == Seq::new((i - n) as nat, |k: int| '0'),
        decreases 4 - i,
    {
        push_char(&mut r, '0');
        assert(r@ =~= Seq::new((i + 1 - n) as nat, |k: int| '0'));
        i += 1;
    }
    append_str(&mut r, s.as_str());
    r
}

/// Two decimal digits of `n`.
fn two_digits_text(n: u32) -> (r: String)
    requires
        n < 100,
    ensures
        r@ == two_digits(n as nat),
{
    let mut r = String::new();
    push_char(&mut r, digit_exec(n / 10));
    push_char(&mut r, digit_exec(n % 10));
    assert(r@ =~= two_digits(n as nat));
    r
}

/// A calendar date rendered as `YYYY-MM-DD`.
pub fn iso_date_text(y: i32, m: u32, d: u32) -> (r: String)
    requires
        m < 100,
        d < 100,
        min_year() <= y <= max_year(),
    ensures
        r@ == iso_date(y as int, m as nat, d as nat),
{
    let mut r = if 0 <= y && y <= 9999 {
        zero_pad4(decimal_text(y as u32))
    } else if y < 0 {
        let mut s = String::new();
        push_char(&mut s, '-');
        let digits = zero_pad4(decimal_text((-y) as u32));
        append_str(&mut s, digits.as_str());
        s
    } else {
        let mut s = String::new();
        push_char(&mut s, '+');
        let digits = zero_pad4(decimal_text(y as u32));
        append_str(&mut s, digits.as_str());
        s
    };
    assert(r@ =~= year_text(y as int));
    push_char(&mut r, '-');
    let mm = two_digits_text(m);
    append_str(&mut r, mm.as_str());
    push_char(&mut r, '-');
    let dd = two_digits_text(d);
    append_str(&mut r, dd.as_str());
    assert(r@ =~= iso_date(y as int, m as nat, d as nat));
    r
}

/// The number of images to ask for: `count` held within 1..=8.
pub fn clamp_fetch_count(count: u8) -> (r: u8)
    ensures
        r == clamped_count(count),
{
    if count > 8 {
        8
    } else if count < 1 {
        1
    } else {
        count
    }
}

/// The Bing API URL that asks for `count` (held within 1..=8) images of
/// market `region`.
pub fn fetch_url(region: &str, count: u8) -> (r: String)
    ensures
        r@ == api_url(region@, count),
{
    let n = clamp_fetch_count(count);
    let mut r = "https://www.bing.com/HPImageArchive.aspx?format=js&idx=0&n=".to_string();
    let digits = decimal_text(n as u32);
    append_str(&mut r, digits.as_str());
    append_str(&mut r, "&mkt=");
    append_str(&mut r, region);
    r
}

/// The image record for one API record: the URL is made absolute on
/// `https://www.bing.com` and the date is formatted as `YYYY-MM-DD`.
pub fn image_from_api(api: BingApiImage) -> (r: BingImage)
    ensures
        r.title@ == api.title@,
        r.date@ == formatted_date(api.startdate@),
        r.url@ == "https://www.bing.com"@ + api.url@,
        r.url_base@ == api.urlbase@,
        r.copyright@ == api.copyright@,
        r.copyright_link@ == api.copyrightlink@,
{
    let date = format_date(api.startdate.as_str());
    let mut url = "https://www.bing.com".to_string();
    append_str(&mut url, api.url.as_str());
    BingImage {
        title: api.title,
        date,
        url,
        url_base: api.urlbase,
        copyright: api.copyright,
        copyright_link: api.copyrightlink,
    }
}

} // verus!
