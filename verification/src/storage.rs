//! Wallpaper storage rules: save file names, image file names, dates and
//! titles read back from file names, expiry and gallery order.

use vstd::prelude::*;
use vstd::utf8::{decode_utf8, encode_utf8, is_char_boundary};
use crate::bing::{
    compact_date, extract_filename, lemma_replace_absent, filename_of_url, formatted_date, iso_date, iso_date_text,
    lemma_iso_date_shape, max_year, min_year, two_digits, year_text, BingImage,
};
use crate::config::{join, joined, path_of, path_text_of};
use crate::calendar::{date_before, day_number, is_valid_date, lemma_day_number_order};
use chrono::Datelike;
use crate::text::{
    append_str, before_first, chars_of, eq_ignore_ascii_case, eq_ignore_ascii_case_exec,
    has_prefix, in_set, is_whitespace, lemma_strip_end_is_take, lemma_strip_start_is_skip,
    push_char, replace_all, replace_str, seq_lt, seq_lt_exec, starts_with_str, string_of,
    string_of_range, strip, strip_end, strip_start, strip_seq, trim, zero_pad, CharSet, find_exec,
    find, lemma_find_from, lemma_find_from_char, occurs_at, decimal, digit_char,
};

verus! {

/// A wallpaper stored on disk, as the gallery lists it.
#[derive(Debug, Clone)]
pub struct LocalWallpaper {
    pub title: String,
    pub date: String,
    pub path: String,
    pub copyright: String,
}

// ---------------------------------------------------------------------------
// Specifications
// ---------------------------------------------------------------------------

/// Characters that cannot stand in a file name.
pub open spec fn is_forbidden_in_filename(c: char) -> bool {
    c == '/' || c == '\\' || c == ':' || c == '*' || c == '?' || c == '"' || c == '<' || c == '>'
        || c == '|'
}

/// `s` with each forbidden character replaced by '_'.
pub open spec fn replace_forbidden(s: Seq<char>) -> Seq<char> {
    s.map_values(|c: char| if is_forbidden_in_filename(c) { '_' } else { c })
}

/// `s` made safe for use as a file name: forbidden characters become '_',
/// surrounding whitespace is removed.
pub open spec fn sanitized(s: Seq<char>) -> Seq<char> {
    trim(replace_forbidden(s))
}

/// The name under which an image is saved: `{date}_{title}.jpg`, or
/// `{date}_{file name of the URL}` when the sanitized title is empty.
pub open spec fn save_name(date: Seq<char>, title: Seq<char>, url: Seq<char>) -> Seq<char> {
    let t = sanitized(title);
    if t.len() == 0 {
        date + seq!['_'] + filename_of_url(url)
    } else {
        date + seq!['_'] + t + ".jpg"@
    }
}

/// Index of the last `c` in `s`, or -1.
pub open spec fn rfind_char(s: Seq<char>, c: char) -> int
    decreases s.len(),
{
    if s.len() == 0 {
        -1
    } else if s.last() == c {
        s.len() - 1
    } else {
        rfind_char(s.drop_last(), c)
    }
}

/// The extension of a file name, as `Path::extension` defines it: the part
/// after the last '.', unless the name has no '.', its only '.' comes first,
/// or the name is "..".
pub open spec fn extension_of(name: Seq<char>) -> Option<Seq<char>> {
    let i = rfind_char(name, '.');
    if name == ".."@ || i <= 0 {
        None
    } else {
        Some(name.skip(i + 1))
    }
}

/// An extension of an image format the gallery shows, in any ASCII case.
pub open spec fn is_image_extension(e: Seq<char>) -> bool {
    ||| eq_ignore_ascii_case(e, "jpg"@)
    ||| eq_ignore_ascii_case(e, "jpeg"@)
    ||| eq_ignore_ascii_case(e, "png"@)
    ||| eq_ignore_ascii_case(e, "webp"@)
    ||| eq_ignore_ascii_case(e, "bmp"@)
}

/// A file name with an image extension.
pub open spec fn is_image_name(name: Seq<char>) -> bool {
    match extension_of(name) {
        Some(e) => is_image_extension(e),
        None => false,
    }
}

/// Whether a date prefix is read from a file name with these UTF-8 bytes:
/// ten bytes or more, with '-' at byte 4 and byte 7.
pub open spec fn has_date_prefix(bytes: Seq<u8>) -> bool {
    bytes.len() >= 10 && bytes[4] == 45 && bytes[7] == 45
}

/// Reading the date prefix does not cut a character in two.
pub open spec fn date_prefix_readable(name: Seq<char>) -> bool {
    has_date_prefix(encode_utf8(name)) ==> is_char_boundary(encode_utf8(name), 10)
}

/// The `YYYY-MM-DD` prefix of a file name, or empty.
pub open spec fn date_of_name(name: Seq<char>) -> Seq<char> {
    let bytes = encode_utf8(name);
    if has_date_prefix(bytes) {
        decode_utf8(bytes.take(10))
    } else {
        Seq::empty()
    }
}

pub open spec fn is_ascii_digit(c: char) -> bool {
    '0' <= c <= '9'
}

/// The name begins with a `YYYY-MM-DD_` date: four digits, '-', two
/// digits, '-', two digits, '_'.
pub open spec fn has_dated_prefix(name: Seq<char>) -> bool {
    &&& name.len() >= 11
    &&& is_ascii_digit(name[0]) && is_ascii_digit(name[1]) && is_ascii_digit(name[2])
        && is_ascii_digit(name[3])
    &&& name[4] == '-'
    &&& is_ascii_digit(name[5]) && is_ascii_digit(name[6])
    &&& name[7] == '-'
    &&& is_ascii_digit(name[8]) && is_ascii_digit(name[9])
    &&& name[10] == '_'
}

/// A readable title made of a file name: a leading `YYYY-MM-DD_` date
/// dropped (any other name is kept whole), "OHR." removed, '_' turned to
/// ' ', and everything from the first '.' dropped.
pub open spec fn title_of_name(name: Seq<char>) -> Seq<char> {
    let base = if has_dated_prefix(name) {
        name.skip(11)
    } else {
        name
    };
    before_first(replace_all(replace_all(base, "OHR."@, Seq::empty()), "_"@, " "@), "."@)
}

/// A wallpaper file whose name has this stem is older than the cutoff date.
pub open spec fn is_expired(stem: Seq<char>, cutoff: Seq<char>) -> bool {
    let d = date_of_name(stem);
    d.len() > 0 && seq_lt(d, cutoff)
}

/// A stored file with this name is an image for `date`.
pub open spec fn is_image_for_date(name: Seq<char>, date: Seq<char>) -> bool {
    has_prefix(name, date) && is_image_name(name)
}

// ---------------------------------------------------------------------------
// Executable functions
// ---------------------------------------------------------------------------

/// Sanitize a string for use as a file name.
pub fn sanitize_filename(s: &str) -> (r: String)
    ensures
        r@ == sanitized(s@),
{
    let v = chars_of(s);
    let mut m: Vec<char> = Vec::new();
    let mut i: usize = 0;
    while i < v.len()
        invariant
            i <= v.len(),
            v@ == s@,
            m@ == replace_forbidden(s@).take(i as int),
        decreases v.len() - i,
    {
        let c = v[i];
        let d = if c == '/' || c == '\\' || c == ':' || c == '*' || c == '?' || c == '"' || c == '<'
            || c == '>' || c == '|' {
            '_'
        } else {
            c
        };
        m.push(d);
        assert(m@ =~= replace_forbidden(s@).take(i + 1));
        i += 1;
    }
    assert(m@ =~= replace_forbidden(s@));
    let t = strip_seq(&m, &CharSet::Whitespace);
    string_of(&t)
}

/// The file name under which `image` is saved.
pub fn save_file_name(image: &BingImage) -> (r: String)
    ensures
        r@ == save_name(image.date@, image.title@, image.url@),
{
    let title = sanitize_filename(image.title.as_str());
    let mut r = image.date.clone();
    push_char(&mut r, '_');
    if title.as_str().unicode_len() == 0 {
        let fallback = extract_filename(image.url.as_str());
        append_str(&mut r, fallback.as_str());
    } else {
        append_str(&mut r, title.as_str());
        append_str(&mut r, ".jpg");
    }
    r
}

/// Build the save path for a Bing image: `{storage_path}/{date}_{title}.jpg`,
/// falling back to the file name of the URL when the title is empty: the
/// storage path joined with `save_file_name(image)`.
pub fn build_save_path(storage_path: &str, image: &BingImage) -> (r: std::path::PathBuf)
    ensures
        path_text_of(r) == joined(storage_path@, save_name(image.date@, image.title@, image.url@)),
{
    let name = save_file_name(image);
    join(&path_of(storage_path), name.as_str())
}

/// Index of the last `c` in `v`.
fn rfind_char_exec(v: &Vec<char>, c: char) -> (r: Option<usize>)
    ensures
        match r {
            Some(i) => rfind_char(v@, c) == i as int,
            None => rfind_char(v@, c) == -1,
        },
{
    let mut j: usize = v.len();
    assert(v@.take(j as int) =~= v@);
    while j > 0
        invariant
            j <= v.len(),
            rfind_char(v@, c) == rfind_char(v@.take(j as int), c),
        decreases j,
    {
        let ghost t = v@.take(j as int);
        assert(t.drop_last() =~= v@.take(j - 1));
        if v[j - 1] == c {
            return Some(j - 1);
        }
        j -= 1;
    }
    None
}

/// Whether a file name has an image extension (jpg, jpeg, png, webp or bmp,
/// in any ASCII case). No other character lower-cases into these letters, so
/// this is the same test as comparing the Unicode lower case.
pub fn is_image_file_name(name: &str) -> (r: bool)
    ensures
        r == is_image_name(name@),
{
    let v = chars_of(name);
    let dots = chars_of("..");
    proof {
        reveal_strlit("..");
    }
    if v.len() == 2 && v[0] == '.' && v[1] == '.' {
        assert(v@ =~= dots@);
        return false;
    }
    assert(name@ != ".."@) by {
        if name@ == ".."@ {
            assert(v@[0] == '.' && v@[1] == '.');
        }
    }
    match rfind_char_exec(&v, '.') {
        None => false,
        Some(i) => {
            if i == 0 {
                return false;
            }
            proof {
                lemma_rfind_char_bound(v@, '.');
            }
            let e = string_of_range(&v, i + 1, v.len());
            assert(e@ =~= v@.skip(i + 1));
            let ev = chars_of(e.as_str());
            let jpg = chars_of("jpg");
            let jpeg = chars_of("jpeg");
            let png = chars_of("png");
            let webp = chars_of("webp");
            let bmp = chars_of("bmp");
            eq_ignore_ascii_case_exec(&ev, &jpg) || eq_ignore_ascii_case_exec(&ev, &jpeg)
                || eq_ignore_ascii_case_exec(&ev, &png) || eq_ignore_ascii_case_exec(&ev, &webp)
                || eq_ignore_ascii_case_exec(&ev, &bmp)
        },
    }
}

proof fn lemma_rfind_char_bound(s: Seq<char>, c: char)
    ensures
        -1 <= rfind_char(s, c) < s.len(),
        rfind_char(s, c) >= 0 ==> s[rfind_char(s, c)] == c,
    decreases s.len(),
{
    if s.len() > 0 && s.last() != c {
        lemma_rfind_char_bound(s.drop_last(), c);
    }
}

/// A stored file named `name` is an image for `date`: its name starts with
/// the date and it has an image extension.
pub fn name_is_image_for_date(name: &str, date: &str) -> (r: bool)
    ensures
        r == is_image_for_date(name@, date@),
{
    starts_with_str(name, date) && is_image_file_name(name)
}

/// Extract a date prefix (YYYY-MM-DD) from a file name: the first ten bytes
/// when there are at least ten with '-' at bytes 4 and 7, else empty.
pub fn extract_date_from_filename(filename: &str) -> (r: String)
    requires
        date_prefix_readable(filename@),
    ensures
        r@ == date_of_name(filename@),
{
    proof {
        vstd::utf8::encode_utf8_valid_utf8(filename@);
    }
    let bytes = filename.as_bytes();
    let n = bytes.len();
    assert(bytes@ == encode_utf8(filename@));
    if n >= 10 && bytes[4] == 45u8 && bytes[7] == 45u8 {
        assert(has_date_prefix(encode_utf8(filename@)));
        assert(is_char_boundary(encode_utf8(filename@), 10));
        let (head, _tail) = filename.split_at(10);
        proof {
            vstd::utf8::encode_utf8_decode_utf8(head@);
            assert(encode_utf8(filename@).take(10) =~= encode_utf8(head@));
            assert(decode_utf8(encode_utf8(filename@).take(10)) == head@);
        }
        let r = head.to_string();
        assert(r@ == head@);
        assert(r@ == date_of_name(filename@));
        r
    } else {
        assert(!has_date_prefix(encode_utf8(filename@)));
        let r = String::new();
        assert(r@ == date_of_name(filename@));
        r
    }
}

/// Clean up a file name into a human-readable title: drop a leading
/// `YYYY-MM-DD_` date, remove "OHR.", turn '_' into ' ', and cut at the
/// first '.'.
pub fn clean_title(filename: &str) -> (r: String)
    ensures
        r@ == title_of_name(filename@),
{
    proof {
        reveal_strlit("OHR.");
        reveal_strlit("");
        reveal_strlit("_");
        reveal_strlit(".");
    }
    let v = chars_of(filename);
    let dated = v.len() >= 11 && digit_at(&v, 0) && digit_at(&v, 1) && digit_at(&v, 2)
        && digit_at(&v, 3) && v[4] == '-' && digit_at(&v, 5) && digit_at(&v, 6) && v[7] == '-'
        && digit_at(&v, 8) && digit_at(&v, 9) && v[10] == '_';
    let rest;
    let base: &str = if dated {
        rest = string_of_range(&v, 11, v.len());
        assert(rest@ =~= filename@.skip(11));
        rest.as_str()
    } else {
        filename
    };
    assert(base@ == (if has_dated_prefix(filename@) {
        filename@.skip(11)
    } else {
        filename@
    }));
    let a = replace_str(base, "OHR.", "");
    assert(""@ =~= Seq::<char>::empty());
    assert(a@ == replace_all(base@, "OHR."@, Seq::empty()));
    let b = replace_str(a.as_str(), "_", " ");
    assert(b@ == replace_all(replace_all(base@, "OHR."@, Seq::empty()), "_"@, " "@));
    let bv = chars_of(b.as_str());
    let dot = chars_of(".");
    let cut = find_exec(&bv, &dot, 0);
    proof {
        lemma_find_from(bv@, dot@, 0);
    }
    match cut {
        Some(k) => {
            let r = string_of_range(&bv, 0, k);
            assert(r@ =~= bv@.take(k as int));
            assert(find(b@, "."@) == k);
            assert(r@ == before_first(b@, "."@));
            r
        },
        None => {
            assert(before_first(b@, "."@) == b@);
            b
        },
    }
}

/// Whether `v[i]` is an ASCII digit.
fn digit_at(v: &Vec<char>, i: usize) -> (b: bool)
    requires
        i < v.len(),
    ensures
        b == is_ascii_digit(v@[i as int]),
{
    '0' <= v[i] && v[i] <= '9'
}

/// A wallpaper file whose name has stem `stem` was saved before `cutoff`
/// (a `YYYY-MM-DD` date): it has a date prefix that sorts before the cutoff.
pub fn is_expired_wallpaper(stem: &str, cutoff: &str) -> (r: bool)
    requires
        date_prefix_readable(stem@),
    ensures
        r == is_expired(stem@, cutoff@),
{
    let date = extract_date_from_filename(stem);
    let dv = chars_of(date.as_str());
    let cv = chars_of(cutoff);
    dv.len() > 0 && seq_lt_exec(&dv, &cv)
}

/// The gallery record for a stored image file with stem `stem` at `path`.
pub fn wallpaper_entry(stem: &str, path: &str) -> (r: LocalWallpaper)
    requires
        date_prefix_readable(stem@),
    ensures
        r.title@ == title_of_name(stem@),
        r.date@ == date_of_name(stem@),
        r.path@ == path@,
        r.copyright@ == Seq::<char>::empty(),
{
    LocalWallpaper {
        title: clean_title(stem),
        date: extract_date_from_filename(stem),
        path: path.to_string(),
        copyright: String::new(),
    }
}

// ---------------------------------------------------------------------------
// Gallery order
// ---------------------------------------------------------------------------

/// `out` lists `items` newest first through the permutation `p`
/// (`out[k] == items[p[k]]`): dates never increase along `out`, and items
/// with equal dates keep their order in `items` (a stable sort by date,
/// descending).
pub open spec fn newest_first_by(items: Seq<LocalWallpaper>, out: Seq<LocalWallpaper>, p: Seq<int>) -> bool {
    &&& p.len() == items.len()
    &&& out.len() == items.len()
    &&& forall|k: int| 0 <= k < p.len() ==> 0 <= #[trigger] p[k] < items.len()
    &&& forall|k: int, l: int| 0 <= k < l < p.len() ==> p[k] != p[l]
    &&& forall|k: int| 0 <= k < out.len() ==> #[trigger] out[k] == items[p[k]]
    &&& forall|k: int, l: int|
        0 <= k < l < out.len() ==> !seq_lt(#[trigger] out[k].date@, #[trigger] out[l].date@)
    &&& forall|k: int, l: int|
        0 <= k < l < out.len() && #[trigger] out[k].date@ == #[trigger] out[l].date@ ==> p[k] < p[l]
}

proof fn lemma_char_code_injective(x: char, y: char)
    ensures
        (x as u32) == (y as u32) ==> x == y,
{
    if (x as u32) == (y as u32) {
        vstd::utf8::char_u32_cast(x, x as u32);
        vstd::utf8::char_u32_cast(y, y as u32);
    }
}

proof fn lemma_seq_lt_irrefl(a: Seq<char>)
    ensures
        !seq_lt(a, a),
    decreases a.len(),
{
    if a.len() > 0 {
        lemma_seq_lt_irrefl(a.skip(1));
    }
}

proof fn lemma_seq_lt_asym(a: Seq<char>, b: Seq<char>)
    ensures
        seq_lt(a, b) ==> !seq_lt(b, a),
    decreases a.len(),
{
    if a.len() > 0 && b.len() > 0 && a[0] == b[0] {
        lemma_seq_lt_asym(a.skip(1), b.skip(1));
    }
}

proof fn lemma_seq_lt_total(a: Seq<char>, b: Seq<char>)
    ensures
        a != b ==> seq_lt(a, b) || seq_lt(b, a),
    decreases a.len(),
{
    if a.len() > 0 && b.len() > 0 {
        if a[0] == b[0] {
            lemma_seq_lt_total(a.skip(1), b.skip(1));
            if a.skip(1) == b.skip(1) {
                assert(a =~= seq![a[0]] + a.skip(1));
                assert(b =~= seq![b[0]] + b.skip(1));
            }
        } else {
            lemma_char_code_injective(a[0], b[0]);
        }
    } else if a.len() == 0 && b.len() == 0 {
        assert(a =~= b);
    }
}

proof fn lemma_seq_lt_trans(a: Seq<char>, b: Seq<char>, c: Seq<char>)
    ensures
        seq_lt(a, b) && seq_lt(b, c) ==> seq_lt(a, c),
    decreases a.len(),
{
    if a.len() > 0 && b.len() > 0 && c.len() > 0 {
        lemma_seq_lt_trans(a.skip(1), b.skip(1), c.skip(1));
        lemma_char_code_injective(a[0], b[0]);
        lemma_char_code_injective(b[0], c[0]);
        lemma_char_code_injective(a[0], c[0]);
    }
}

/// The order of dates is a strict total order.
pub proof fn lemma_seq_lt_order(a: Seq<char>, b: Seq<char>, c: Seq<char>)
    ensures
        !seq_lt(a, a),
        seq_lt(a, b) ==> !seq_lt(b, a),
        a != b ==> seq_lt(a, b) || seq_lt(b, a),
        seq_lt(a, b) && seq_lt(b, c) ==> seq_lt(a, c),
{
    lemma_seq_lt_irrefl(a);
    lemma_seq_lt_asym(a, b);
    lemma_seq_lt_total(a, b);
    lemma_seq_lt_trans(a, b, c);
}

/// A copy of a gallery record.
pub fn copy_wallpaper(w: &LocalWallpaper) -> (r: LocalWallpaper)
    ensures
        r == *w,
{
    LocalWallpaper {
        title: w.title.clone(),
        date: w.date.clone(),
        path: w.path.clone(),
        copyright: w.copyright.clone(),
    }
}

/// The gallery sorted by date, newest first; wallpapers of one date keep the
/// order in which they were listed.
#[verifier::spinoff_prover]
pub fn sort_newest_first(items: &Vec<LocalWallpaper>) -> (r: Vec<LocalWallpaper>)
    ensures
        exists|p: Seq<int>| newest_first_by(items@, r@, p),
{
    let n = items.len();
    let mut dates: Vec<Vec<char>> = Vec::new();
    let mut i: usize = 0;
    while i < n
        invariant
            i <= n,
            n == items.len(),
            dates.len() == i,
            forall|k: int| 0 <= k < i ==> #[trigger] dates@[k]@ == items@[k].date@,
        decreases n - i,
    {
        dates.push(chars_of(items[i].date.as_str()));
        i += 1;
    }
    let mut order: Vec<usize> = Vec::new();
    i = 0;
    while i < n
        invariant
            i <= n,
            n == items.len(),
            dates.len() == n,
            forall|k: int| 0 <= k < n ==> #[trigger] dates@[k]@ == items@[k].date@,
            order.len() == i,
            forall|k: int| 0 <= k < i ==> #[trigger] order@[k] < i,
            forall|k: int, l: int| 0 <= k < l < i ==> order@[k] != order@[l],
            forall|k: int, l: int|
                0 <= k < l < i ==> !seq_lt(
                    #[trigger] items@[order@[k] as int].date@,
                    #[trigger] items@[order@[l] as int].date@,
                ),
            forall|k: int, l: int|
                0 <= k < l < i && #[trigger] items@[order@[k] as int].date@
                    == #[trigger] items@[order@[l] as int].date@ ==> order@[k] < order@[l],
        decreases n - i,
    {
        let ghost di = items@[i as int].date@;
        let mut pos: usize = 0;
        while pos < order.len() && !seq_lt_exec(&dates[order[pos]], &dates[i])
            invariant
                pos <= order.len(),
                order.len() == i,
                i < n,
                n == items.len(),
                di == items@[i as int].date@,
                dates.len() == n,
                forall|k: int| 0 <= k < n ==> #[trigger] dates@[k]@ == items@[k].date@,
                forall|k: int| 0 <= k < i ==> #[trigger] order@[k] < i,
                forall|k: int| 0 <= k < pos ==> !seq_lt(#[trigger] items@[order@[k] as int].date@, di),
            decreases order.len() - pos,
        {
            assert(order@[pos as int] < i);
            assert(dates@[i as int]@ == di);
            assert(dates@[order@[pos as int] as int]@ == items@[order@[pos as int] as int].date@);
            assert(!seq_lt(items@[order@[pos as int] as int].date@, di));
            pos += 1;
        }
        let ghost old_order = order@;
        proof {
            // Everything from `pos` on is strictly older than item `i`.
            assert forall|q: int| pos <= q < i implies seq_lt(
                #[trigger] items@[old_order[q] as int].date@,
                di,
            ) by {
                let dp = items@[old_order[pos as int] as int].date@;
                let dq = items@[old_order[q] as int].date@;
                lemma_seq_lt_order(dq, dp, di);
                if q > pos {
                    assert(!seq_lt(dp, dq));
                }
            }
        }
        order.insert(pos, i);
        proof {
            assert forall|k: int| 0 <= k < i + 1 implies #[trigger] order@[k] < i + 1 by {
                if k < pos {
                    assert(order@[k] == old_order[k]);
                } else if k > pos {
                    assert(order@[k] == old_order[k - 1]);
                }
            }
            assert forall|k: int, l: int| 0 <= k < l < i + 1 implies order@[k] != order@[l] by {
                if k < pos {
                    assert(order@[k] == old_order[k]);
                } else if k > pos {
                    assert(order@[k] == old_order[k - 1]);
                }
                if l < pos {
                    assert(order@[l] == old_order[l]);
                } else if l > pos {
                    assert(order@[l] == old_order[l - 1]);
                }
            }
            assert forall|k: int, l: int| 0 <= k < l < i + 1 implies !seq_lt(
                #[trigger] items@[order@[k] as int].date@,
                #[trigger] items@[order@[l] as int].date@,
            ) && (items@[order@[k] as int].date@ == items@[order@[l] as int].date@ ==> order@[k]
                < order@[l]) by {
                let dk = items@[order@[k] as int].date@;
                let dl = items@[order@[l] as int].date@;
                lemma_seq_lt_order(dk, dl, di);
                lemma_seq_lt_order(dl, dk, di);
                if l < pos {
                    assert(order@[k] == old_order[k]);
                    assert(order@[l] == old_order[l]);
                } else if l == pos {
                    assert(order@[k] == old_order[k]);
                } else if k < pos {
                    assert(order@[k] == old_order[k]);
                    assert(order@[l] == old_order[l - 1]);
                    assert(seq_lt(dl, di));
                    assert(!seq_lt(dk, di));
                    lemma_seq_lt_order(dk, di, dl);
                    lemma_seq_lt_order(dl, di, dk);
                } else if k == pos {
                    assert(order@[l] == old_order[l - 1]);
                    assert(seq_lt(dl, di));
                } else {
                    assert(order@[k] == old_order[k - 1]);
                    assert(order@[l] == old_order[l - 1]);
                }
            }
        }
        i += 1;
    }
    let mut r: Vec<LocalWallpaper> = Vec::new();
    let mut k: usize = 0;
    while k < n
        invariant
            k <= n,
            n == items.len(),
            order.len() == n,
            forall|j: int| 0 <= j < n ==> #[trigger] order@[j] < n,
            r.len() == k,
            forall|j: int| 0 <= j < k ==> #[trigger] r@[j] == items@[order@[j] as int],
        decreases n - k,
    {
        r.push(copy_wallpaper(&items[order[k]]));
        k += 1;
    }
    let ghost p = order@.map_values(|x: usize| x as int);
    assert(newest_first_by(items@, r@, p));
    r
}

// ---------------------------------------------------------------------------
// Laws of file names
// ---------------------------------------------------------------------------

proof fn lemma_strip_start_suffix(s: Seq<char>, set: CharSet) -> (a: int)
    ensures
        0 <= a <= s.len(),
        strip_start(s, set) == s.skip(a),
        a < s.len() ==> !in_set(s[a], set),
    decreases s.len(),
{
    if s.len() > 0 && in_set(s[0], set) {
        let b = lemma_strip_start_suffix(s.skip(1), set);
        assert(s.skip(1).skip(b) =~= s.skip(b + 1));
        b + 1
    } else {
        assert(s.skip(0) =~= s);
        0
    }
}

proof fn lemma_strip_end_prefix(s: Seq<char>, set: CharSet) -> (b: int)
    ensures
        0 <= b <= s.len(),
        strip_end(s, set) == s.take(b),
        b > 0 ==> !in_set(s[b - 1], set),
    decreases s.len(),
{
    if s.len() > 0 && in_set(s.last(), set) {
        let c = lemma_strip_end_prefix(s.drop_last(), set);
        assert(s.drop_last().take(c) =~= s.take(c));
        c
    } else {
        assert(s.take(s.len() as int) =~= s);
        s.len() as int
    }
}

proof fn lemma_stripped_start_in_set(s: Seq<char>, set: CharSet, i: int)
    requires
        0 <= i,
        i + strip_start(s, set).len() < s.len(),
    ensures
        in_set(s[i], set),
    decreases s.len(),
{
    if s.len() > 0 && in_set(s[0], set) {
        if i > 0 {
            lemma_stripped_start_in_set(s.skip(1), set, i - 1);
        }
    }
}

proof fn lemma_stripped_end_in_set(s: Seq<char>, set: CharSet, i: int)
    requires
        strip_end(s, set).len() <= i < s.len(),
    ensures
        in_set(s[i], set),
    decreases s.len(),
{
    if s.len() > 0 && in_set(s.last(), set) {
        if i < s.len() - 1 {
            lemma_stripped_end_in_set(s.drop_last(), set, i);
        }
    }
}

/// A sanitized name holds no forbidden character and neither begins nor
/// ends with whitespace; sanitizing it again changes nothing.
pub proof fn lemma_sanitized(s: Seq<char>)
    ensures
        forall|k: int| 0 <= k < sanitized(s).len() ==> !is_forbidden_in_filename(#[trigger] sanitized(s)[k]),
        sanitized(s).len() > 0 ==> !is_whitespace(sanitized(s)[0]) && !is_whitespace(sanitized(s).last()),
        sanitized(sanitized(s)) == sanitized(s),
{
    let m = replace_forbidden(s);
    let set = CharSet::Whitespace;
    let a = lemma_strip_start_suffix(m, set);
    let t = m.skip(a);
    let b = lemma_strip_end_prefix(t, set);
    let r = sanitized(s);
    assert(r == t.take(b));
    assert forall|k: int| 0 <= k < r.len() implies !is_forbidden_in_filename(#[trigger] r[k]) by {
        assert(r[k] == m[k + a]);
    }
    if r.len() > 0 {
        assert(r[0] == m[a]);
        assert(r.last() == t[b - 1]);
    }
    // Sanitizing again: nothing to replace, nothing to strip.
    assert(replace_forbidden(r) =~= r);
    if r.len() > 0 {
        lemma_strip_start_is_skip(r, set, 0);
        assert(r.skip(0) =~= r);
        lemma_strip_end_is_take(r, set, r.len() as int);
        assert(r.take(r.len() as int) =~= r);
    }
}

/// `c` with the nine characters / \ : * ? " < > | turned to '_'.
pub open spec fn underscore_if_reserved(c: char) -> char {
    if c == '/' || c == '\\' || c == ':' || c == '*' || c == '?' || c == '"' || c == '<' || c == '>'
        || c == '|' {
        '_'
    } else {
        c
    }
}

proof fn lemma_sanitized_stretch(t: Seq<char>) -> (ab: (int, int))
    ensures
        0 <= ab.0 <= ab.1 <= t.len(),
        sanitized(t).len() == ab.1 - ab.0,
        forall|k: int|
            0 <= k < ab.1 - ab.0 ==> #[trigger] sanitized(t)[k] == underscore_if_reserved(t[ab.0 + k]),
        forall|i: int| 0 <= i < ab.0 ==> is_whitespace(#[trigger] t[i]),
        forall|i: int| ab.1 <= i < t.len() ==> is_whitespace(#[trigger] t[i]),
{
    let m = replace_forbidden(t);
    let set = CharSet::Whitespace;
    let a = lemma_strip_start_suffix(m, set);
    let u = m.skip(a);
    let bb = lemma_strip_end_prefix(u, set);
    let r = sanitized(t);
    assert(r == u.take(bb));
    let b = a + bb;
    assert forall|i: int| 0 <= i < a implies is_whitespace(#[trigger] t[i]) by {
        lemma_stripped_start_in_set(m, set, i);
    }
    assert forall|i: int| b <= i < t.len() implies is_whitespace(#[trigger] t[i]) by {
        lemma_stripped_end_in_set(u, set, i - a);
        assert(u[i - a] == m[i]);
    }
    assert forall|k: int| 0 <= k < b - a implies #[trigger] r[k] == underscore_if_reserved(t[a + k]) by {
        assert(r[k] == m[a + k]);
    }
    (a, b)
}

/// Sanitizing a title changes nothing but the nine characters
/// / \ : * ? " < > |, each turned to '_', and the whitespace around it:
/// the result is the stretch `[a, b)` of the title with those nine
/// replaced, and only whitespace lies outside the stretch. Every other
/// character, letters of any script included, stays in its place.
pub proof fn lemma_sanitize_changes_only_reserved(t: Seq<char>)
    ensures
        exists|a: int, b: int|
            #![trigger t.subrange(a, b)]
            {
                &&& 0 <= a <= b <= t.len()
                &&& sanitized(t).len() == b - a
                &&& forall|k: int|
                    0 <= k < b - a ==> #[trigger] sanitized(t)[k] == underscore_if_reserved(t[a + k])
                &&& forall|i: int| 0 <= i < a ==> is_whitespace(#[trigger] t[i])
                &&& forall|i: int| b <= i < t.len() ==> is_whitespace(#[trigger] t[i])
            },
{
    let (a, b) = lemma_sanitized_stretch(t);
    let _ = t.subrange(a, b);
}

/// A title without any of the nine characters / \ : * ? " < > | and
/// without whitespace at either end is saved under itself, unchanged.
pub proof fn lemma_sanitize_keeps_clean_title(t: Seq<char>)
    requires
        forall|k: int| 0 <= k < t.len() ==> #[trigger] underscore_if_reserved(t[k]) == t[k],
        t.len() > 0 ==> !is_whitespace(t[0]) && !is_whitespace(t.last()),
    ensures
        sanitized(t) == t,
{
    let (a, b) = lemma_sanitized_stretch(t);
    if t.len() > 0 {
        if a > 0 {
            assert(is_whitespace(t[0]));
        }
        if b < t.len() {
            assert(is_whitespace(t[t.len() - 1]));
        }
    }
    assert forall|k: int| 0 <= k < t.len() implies sanitized(t)[k] == t[k] by {
        assert(underscore_if_reserved(t[a + k]) == t[a + k]);
    }
    assert(sanitized(t) =~= t);
}

proof fn lemma_underscores_to_spaces(t: Seq<char>)
    ensures
        replace_all(t, "_"@, " "@) == t.map_values(|c: char| if c == '_' { ' ' } else { c }),
    decreases t.len(),
{
    reveal_strlit("_");
    reveal_strlit(" ");
    let f = |c: char| if c == '_' { ' ' } else { c };
    if t.len() > 0 {
        lemma_underscores_to_spaces(t.skip(1));
        assert(t.skip(1).map_values(f) =~= t.map_values(f).skip(1));
        if t[0] == '_' {
            assert(t.subrange(0, 1) =~= "_"@);
        } else {
            assert(t.subrange(0, 1)[0] != "_"@[0]);
        }
        assert(t.map_values(f) =~= seq![f(t[0])] + t.map_values(f).skip(1));
    }
}

/// The title read back from a saved name `{date}_{t}` is the title `t`
/// itself, with each '_' shown as a space, whenever `t` holds no '.': no
/// character of the title after the date is dropped or changed otherwise.
pub proof fn lemma_title_of_saved_name(date: Seq<char>, t: Seq<char>)
    requires
        date.len() == 10,
        forall|k: int| 0 <= k < 10 && k != 4 && k != 7 ==> '0' <= #[trigger] date[k] <= '9',
        date[4] == '-',
        date[7] == '-',
        forall|k: int| 0 <= k < t.len() ==> #[trigger] t[k] != '.',
    ensures
        title_of_name(date + seq!['_'] + t) == t.map_values(|c: char| if c == '_' { ' ' } else { c }),
{
    reveal_strlit("OHR.");
    reveal_strlit(".");
    let name = date + seq!['_'] + t;
    assert(is_ascii_digit(name[0]) && is_ascii_digit(name[1]) && is_ascii_digit(name[2])
        && is_ascii_digit(name[3]) && is_ascii_digit(name[5]) && is_ascii_digit(name[6])
        && is_ascii_digit(name[8]) && is_ascii_digit(name[9]));
    assert(has_dated_prefix(name));
    assert(name.skip(11) =~= t);
    assert forall|i: int| !occurs_at(t, "OHR."@, i) by {
        if occurs_at(t, "OHR."@, i) {
            assert(t.subrange(i, i + 4)[3] == t[i + 3]);
        }
    }
    lemma_replace_absent(t, "OHR."@, Seq::empty());
    lemma_underscores_to_spaces(t);
    let u = t.map_values(|c: char| if c == '_' { ' ' } else { c });
    assert forall|j: int| 0 <= j && (-1int == -1 || j < -1) implies !occurs_at(u, "."@, j) by {
        if occurs_at(u, "."@, j) {
            assert(u.subrange(j, j + 1)[0] == u[j]);
        }
    }
    lemma_find_from_char(u, "."@, 0, -1);
}

/// UTF-8 encoding distributes over concatenation.
pub proof fn lemma_encode_concat(a: Seq<char>, b: Seq<char>)
    ensures
        encode_utf8(a + b) == encode_utf8(a) + encode_utf8(b),
    decreases a.len(),
{
    if a.len() == 0 {
        assert(a + b =~= b);
        assert(encode_utf8(a) + encode_utf8(b) =~= encode_utf8(b));
    } else {
        lemma_encode_concat(a.drop_first(), b);
        assert((a + b).drop_first() =~= a.drop_first() + b);
        assert((a + b)[0] == a[0]);
    }
}

/// A `YYYY-MM-DD` date in ASCII.
pub open spec fn is_date_text(d: Seq<char>) -> bool {
    &&& vstd::utf8::is_ascii_chars(d)
    &&& d.len() == 10
    &&& d[4] == '-'
    &&& d[7] == '-'
}

/// The date of a saved wallpaper reads back from the stem of its file name:
/// a name `{date}_...` gives back `date`, and reading it cuts no character.
pub proof fn lemma_date_reads_back(date: Seq<char>, rest: Seq<char>)
    requires
        is_date_text(date),
    ensures
        date_prefix_readable(date + seq!['_'] + rest),
        date_of_name(date + seq!['_'] + rest) == date,
{
    let stem = date + seq!['_'] + rest;
    let tail = seq!['_'] + rest;
    assert(stem =~= date + tail);
    lemma_encode_concat(date, tail);
    lemma_encode_concat(seq!['_'], rest);
    vstd::utf8::is_ascii_chars_encode_utf8(date);
    let ed = encode_utf8(date);
    let bytes = encode_utf8(stem);
    assert(encode_utf8(seq!['_']) =~= seq![95u8]) by {
        assert(vstd::utf8::is_ascii_chars(seq!['_']));
        vstd::utf8::is_ascii_chars_encode_utf8(seq!['_']);
        assert(seq!['_'][0] as u8 == 95u8);
    }
    assert(bytes =~= ed + (seq![95u8] + encode_utf8(rest)));
    assert(date[4] as u8 == 45u8);
    assert(bytes[4] == ed[4]);
    assert(bytes[7] == ed[7]);
    assert(bytes[10] == 95u8);
    vstd::utf8::encode_utf8_valid_utf8(stem);
    vstd::utf8::is_char_boundary_iff_not_is_continuation_byte(bytes, 10);
    assert(bytes.take(10) =~= ed);
    vstd::utf8::encode_utf8_decode_utf8(date);
}

proof fn lemma_rfind_jpg(s: Seq<char>)
    ensures
        rfind_char(s + ".jpg"@, '.') == s.len(),
{
    reveal_strlit(".jpg");
    assert(".jpg"@ =~= seq!['.', 'j', 'p', 'g']);
    let n = s + seq!['.', 'j', 'p', 'g'];
    let n1 = s + seq!['.', 'j', 'p'];
    let n2 = s + seq!['.', 'j'];
    let n3 = s + seq!['.'];
    assert(n.drop_last() =~= n1);
    assert(n1.drop_last() =~= n2);
    assert(n2.drop_last() =~= n3);
    assert(rfind_char(n3, '.') == s.len());
    assert(rfind_char(n2, '.') == s.len());
    assert(rfind_char(n1, '.') == s.len());
    assert(rfind_char(n, '.') == s.len());
}

/// A wallpaper saved under `save_name` is found again by the check for an
/// image of its date, so the next update skips that date.
pub proof fn lemma_saved_file_is_found(date: Seq<char>, title: Seq<char>, url: Seq<char>)
    requires
        sanitized(title).len() > 0,
    ensures
        is_image_for_date(save_name(date, title, url), date),
{
    reveal_strlit(".jpg");
    reveal_strlit("..");
    reveal_strlit("jpg");
    let t = sanitized(title);
    let base = date + seq!['_'] + t;
    let name = save_name(date, title, url);
    assert(name == base + ".jpg"@);
    assert(name.subrange(0, date.len() as int) =~= date);
    lemma_rfind_jpg(base);
    assert(name.skip(base.len() + 1 as int) =~= "jpg"@);
    assert(name != ".."@) by {
        assert(name.len() > 2);
    }
    assert(eq_ignore_ascii_case("jpg"@, "jpg"@));
}

/// Every wallpaper saved for a date reads that date back from its stem, and
/// is found again as an image of that date.
pub proof fn lemma_saved_file_reads_back(date: Seq<char>, title: Seq<char>, url: Seq<char>)
    requires
        is_date_text(date),
        sanitized(title).len() > 0,
    ensures
        is_image_for_date(save_name(date, title, url), date),
        date_of_name(save_name(date, title, url).drop_last().drop_last().drop_last().drop_last())
            == date,
{
    reveal_strlit(".jpg");
    lemma_saved_file_is_found(date, title, url);
    let t = sanitized(title);
    let stem = date + seq!['_'] + t;
    assert(save_name(date, title, url).drop_last().drop_last().drop_last().drop_last() =~= stem);
    lemma_date_reads_back(date, t);
}

proof fn lemma_decimal_digits(n: nat)
    ensures
        forall|k: int| 0 <= k < decimal(n).len() ==> '0' <= #[trigger] decimal(n)[k] <= '9',
    decreases n,
{
    if n >= 10 {
        lemma_decimal_digits(n / 10);
        assert(decimal(n) == decimal(n / 10).push(digit_char(n % 10)));
    }
}

/// A date of years 0..=9999 rendered as `YYYY-MM-DD` is a date text.
pub proof fn lemma_iso_date_is_date_text(y: int, m: nat, d: nat)
    requires
        0 <= y <= 9999,
        m < 100,
        d < 100,
    ensures
        is_date_text(iso_date(y, m, d)),
{
    lemma_iso_date_shape(y, m, d);
    lemma_decimal_digits(y as nat);
    let yt = year_text(y);
    let dec = decimal(y as nat);
    assert forall|k: int| 0 <= k < yt.len() implies '0' <= #[trigger] yt[k] <= '9' by {
        if dec.len() < 4 {
            let pad = 4 - dec.len();
            if k >= pad {
                assert(yt[k] == dec[k - pad]);
            }
        }
    }
    let t = iso_date(y, m, d);
    assert forall|k: int| 0 <= k < t.len() implies '\0' <= #[trigger] t[k] <= '\u{7f}' by {
        if k < 4 {
            assert(t[k] == yt[k]);
        }
    }
}

/// Read-after-write of dates: an image dated by the API with a year in
/// 0..=9999 is saved under a name whose stem reads back the same date, and
/// the file is found again as an image of that date.
pub proof fn lemma_api_date_reads_back(raw: Seq<char>, title: Seq<char>, url: Seq<char>)
    requires
        compact_date(raw) matches Some((y, m, d)) && 0 <= y <= 9999 && 1 <= m <= 12 && 1 <= d <= 31,
        sanitized(title).len() > 0,
    ensures
        is_image_for_date(save_name(formatted_date(raw), title, url), formatted_date(raw)),
        date_of_name(
            save_name(formatted_date(raw), title, url).drop_last().drop_last().drop_last().drop_last(),
        ) == formatted_date(raw),
{
    let (y, m, d) = compact_date(raw).unwrap();
    lemma_iso_date_is_date_text(y, m as nat, d as nat);
    lemma_saved_file_reads_back(formatted_date(raw), title, url);
}

// ---------------------------------------------------------------------------
// Directory listings
// ---------------------------------------------------------------------------
// A listing of the storage directory is given entry by entry: the file name,
// the file stem and the path of each entry, in the order the directory
// yields them.

/// The positions among the first `n` entries whose names are image files.
pub open spec fn image_positions(names: Seq<String>, n: int) -> Seq<int>
    decreases n,
{
    if n <= 0 {
        Seq::empty()
    } else {
        let before = image_positions(names, n - 1);
        if is_image_name(names[n - 1]@) {
            before.push(n - 1)
        } else {
            before
        }
    }
}

/// The positions among the first `n` entries that the cleanup removes:
/// image files whose stems carry a date before `cutoff`.
pub open spec fn expired_positions(names: Seq<String>, stems: Seq<String>, cutoff: Seq<char>, n: int) -> Seq<int>
    decreases n,
{
    if n <= 0 {
        Seq::empty()
    } else {
        let before = expired_positions(names, stems, cutoff, n - 1);
        if is_image_name(names[n - 1]@) && is_expired(stems[n - 1]@, cutoff) {
            before.push(n - 1)
        } else {
            before
        }
    }
}

/// Each image entry has a stem from which a date prefix can be read.
pub open spec fn image_stems_readable(names: Seq<String>, stems: Seq<String>) -> bool {
    forall|i: int|
        0 <= i < names.len() && is_image_name(#[trigger] names[i]@) ==> date_prefix_readable(stems[i]@)
}

proof fn lemma_positions_below(names: Seq<String>, stems: Seq<String>, cutoff: Seq<char>, n: int)
    ensures
        forall|k: int| 0 <= k < image_positions(names, n).len() ==> 0 <= #[trigger] image_positions(names, n)[k] < n,
        forall|k: int| 0 <= k < expired_positions(names, stems, cutoff, n).len()
            ==> 0 <= #[trigger] expired_positions(names, stems, cutoff, n)[k] < n,
    decreases n,
{
    if n > 0 {
        lemma_positions_below(names, stems, cutoff, n - 1);
        let a = image_positions(names, n - 1);
        let b = expired_positions(names, stems, cutoff, n - 1);
        assert forall|k: int| 0 <= k < image_positions(names, n).len() implies 0
            <= #[trigger] image_positions(names, n)[k] < n by {
            if k < a.len() {
                assert(image_positions(names, n)[k] == a[k]);
            }
        }
        assert forall|k: int| 0 <= k < expired_positions(names, stems, cutoff, n).len() implies 0
            <= #[trigger] expired_positions(names, stems, cutoff, n)[k] < n by {
            if k < b.len() {
                assert(expired_positions(names, stems, cutoff, n)[k] == b[k]);
            }
        }
    }
}

/// The gallery records of the image entries of a listing, in listing order.
pub fn image_records(names: &Vec<String>, stems: &Vec<String>, paths: &Vec<String>) -> (r: Vec<LocalWallpaper>)
    requires
        names.len() == stems.len(),
        names.len() == paths.len(),
        image_stems_readable(names@, stems@),
    ensures
        r.len() == image_positions(names@, names.len() as int).len(),
        forall|k: int| 0 <= k < r.len() ==> {
            let i = #[trigger] image_positions(names@, names.len() as int)[k];
            &&& r@[k].title@ == title_of_name(stems@[i]@)
            &&& r@[k].date@ == date_of_name(stems@[i]@)
            &&& r@[k].path@ == paths@[i]@
            &&& r@[k].copyright@ == Seq::<char>::empty()
        },
{
    let mut r: Vec<LocalWallpaper> = Vec::new();
    let mut i: usize = 0;
    while i < names.len()
        invariant
            i <= names.len(),
            names.len() == stems.len(),
            names.len() == paths.len(),
            image_stems_readable(names@, stems@),
            r.len() == image_positions(names@, i as int).len(),
            forall|k: int| 0 <= k < r.len() ==> {
                let j = #[trigger] image_positions(names@, i as int)[k];
                &&& r@[k].title@ == title_of_name(stems@[j]@)
                &&& r@[k].date@ == date_of_name(stems@[j]@)
                &&& r@[k].path@ == paths@[j]@
                &&& r@[k].copyright@ == Seq::<char>::empty()
            },
        decreases names.len() - i,
    {
        if is_image_file_name(names[i].as_str()) {
            assert(is_image_name(names@[i as int]@));
            let w = wallpaper_entry(stems[i].as_str(), paths[i].as_str());
            r.push(w);
        }
        i = i + 1;
    }
    r
}

/// The positions of the entries of a listing that the cleanup removes, in
/// listing order.
pub fn expired_entries(names: &Vec<String>, stems: &Vec<String>, cutoff: &str) -> (r: Vec<usize>)
    requires
        names.len() == stems.len(),
        image_stems_readable(names@, stems@),
    ensures
        r@.len() == expired_positions(names@, stems@, cutoff@, names.len() as int).len(),
        forall|k: int| 0 <= k < r.len() ==> r@[k] as int == #[trigger] expired_positions(
            names@,
            stems@,
            cutoff@,
            names.len() as int,
        )[k],
        forall|k: int| 0 <= k < r.len() ==> #[trigger] r@[k] < names.len(),
{
    let mut r: Vec<usize> = Vec::new();
    let mut i: usize = 0;
    while i < names.len()
        invariant
            i <= names.len(),
            names.len() == stems.len(),
            image_stems_readable(names@, stems@),
            r@.len() == expired_positions(names@, stems@, cutoff@, i as int).len(),
            forall|k: int| 0 <= k < r.len() ==> r@[k] as int == #[trigger] expired_positions(
                names@,
                stems@,
                cutoff@,
                i as int,
            )[k],
        decreases names.len() - i,
    {
        if is_image_file_name(names[i].as_str()) {
            assert(is_image_name(names@[i as int]@));
            if is_expired_wallpaper(stems[i].as_str(), cutoff) {
                r.push(i);
            }
        }
        i = i + 1;
    }
    proof {
        lemma_positions_below(names@, stems@, cutoff@, names.len() as int);
        assert forall|k: int| 0 <= k < r.len() implies #[trigger] r@[k] < names.len() by {
            assert(r@[k] as int == expired_positions(names@, stems@, cutoff@, names.len() as int)[k]);
        }
    }
    r
}

/// Whether a listing holds an image file for `date`.
pub fn listing_has_image_for_date(names: &Vec<String>, date: &str) -> (r: bool)
    ensures
        r == exists|i: int| 0 <= i < names.len() && is_image_for_date(#[trigger] names@[i]@, date@),
{
    let mut i: usize = 0;
    while i < names.len()
        invariant
            i <= names.len(),
            forall|j: int| 0 <= j < i ==> !is_image_for_date(#[trigger] names@[j]@, date@),
        decreases names.len() - i,
    {
        if name_is_image_for_date(names[i].as_str(), date) {
            return true;
        }
        i = i + 1;
    }
    false
}

// ---------------------------------------------------------------------------
// Retention cutoff
// ---------------------------------------------------------------------------

/// The last `w` decimal digits of `n`, zero-padded.
pub open spec fn fixed_digits(n: nat, w: nat) -> Seq<char>
    decreases w,
{
    if w == 0 {
        Seq::empty()
    } else {
        fixed_digits(n / 10, (w - 1) as nat).push(digit_char(n % 10))
    }
}

pub open spec fn pow10(w: nat) -> nat
    decreases w,
{
    if w == 0 {
        1
    } else {
        10 * pow10((w - 1) as nat)
    }
}

/// Texts of equal-length heads compare by their heads, or by their tails
/// where the heads are equal.
proof fn lemma_seq_lt_concat(a: Seq<char>, x: Seq<char>, b: Seq<char>, y: Seq<char>)
    requires
        a.len() == b.len(),
    ensures
        seq_lt(a + x, b + y) == if a == b {
            seq_lt(x, y)
        } else {
            seq_lt(a, b)
        },
    decreases a.len(),
{
    if a.len() == 0 {
        assert(a =~= b);
        assert(a + x =~= x);
        assert(b + y =~= y);
    } else {
        assert((a + x)[0] == a[0]);
        assert((b + y)[0] == b[0]);
        assert((a + x).skip(1) =~= a.skip(1) + x);
        assert((b + y).skip(1) =~= b.skip(1) + y);
        lemma_seq_lt_concat(a.skip(1), x, b.skip(1), y);
        if a[0] == b[0] {
            if a.skip(1) == b.skip(1) {
                assert(a =~= seq![a[0]] + a.skip(1));
                assert(b =~= seq![b[0]] + b.skip(1));
            } else {
                assert(a != b);
            }
        } else {
            assert(a != b);
        }
    }
}

proof fn lemma_fixed_digits_len(n: nat, w: nat)
    ensures
        fixed_digits(n, w).len() == w,
    decreases w,
{
    if w > 0 {
        lemma_fixed_digits_len(n / 10, (w - 1) as nat);
    }
}

proof fn lemma_digit_char_order(a: nat, b: nat)
    requires
        a < b < 10,
    ensures
        (digit_char(a) as u32) < (digit_char(b) as u32),
{
}

/// Zero-padded decimal texts of one width sort as their numbers.
proof fn lemma_fixed_digits_order(n: nat, n2: nat, w: nat)
    requires
        n < n2 < pow10(w),
    ensures
        seq_lt(fixed_digits(n, w), fixed_digits(n2, w)),
    decreases w,
{
    let v = (w - 1) as nat;
    lemma_fixed_digits_len(n / 10, v);
    lemma_fixed_digits_len(n2 / 10, v);
    let a = fixed_digits(n / 10, v);
    let b = fixed_digits(n2 / 10, v);
    assert(fixed_digits(n, w) =~= a + seq![digit_char(n % 10)]);
    assert(fixed_digits(n2, w) =~= b + seq![digit_char(n2 % 10)]);
    if n / 10 < n2 / 10 {
        lemma_fixed_digits_order(n / 10, n2 / 10, v);
        lemma_seq_lt_irrefl(a);
    } else {
        lemma_digit_char_order(n % 10, n2 % 10);
        assert(seq![digit_char(n % 10)] + Seq::<char>::empty() =~= seq![digit_char(n % 10)]);
        assert(seq_lt(seq![digit_char(n % 10)], seq![digit_char(n2 % 10)]));
    }
    lemma_seq_lt_concat(a, seq![digit_char(n % 10)], b, seq![digit_char(n2 % 10)]);
}

proof fn lemma_year_text_fixed(y: int)
    requires
        0 <= y <= 9999,
    ensures
        year_text(y) == fixed_digits(y as nat, 4),
{
    reveal_with_fuel(decimal, 5);
    reveal_with_fuel(fixed_digits, 5);
    let n = y as nat;
    if n < 10 {
        assert(year_text(y) =~= fixed_digits(n, 4));
    } else if n < 100 {
        assert(year_text(y) =~= fixed_digits(n, 4));
    } else if n < 1000 {
        assert(year_text(y) =~= fixed_digits(n, 4));
    } else {
        assert(year_text(y) =~= fixed_digits(n, 4));
    }
}


proof fn lemma_two_digits_fixed(n: nat)
    requires
        n < 100,
    ensures
        two_digits(n) == fixed_digits(n, 2),
{
    reveal_with_fuel(fixed_digits, 3);
    assert(two_digits(n) =~= fixed_digits(n, 2));
}

/// The year texts of `a` and `b` sort as the years do (when `a < b`).
pub open spec fn year_texts_sort(a: int, b: int) -> bool {
    a < b ==> seq_lt(year_text(a), year_text(b))
}

/// A text that sorts before another still does with anything appended,
/// provided that, where it is a proper prefix of the other, what is
/// appended to it starts with a smaller character than the other goes on
/// with.
proof fn lemma_seq_lt_extend(a: Seq<char>, x: Seq<char>, b: Seq<char>, y: Seq<char>)
    requires
        seq_lt(a, b),
        x.len() > 0,
        a.len() < b.len() ==> (x[0] as u32) < (b[a.len() as int] as u32),
    ensures
        seq_lt(a + x, b + y),
    decreases a.len(),
{
    assert((b + y)[0] == b[0]);
    if a.len() == 0 {
        assert(a + x =~= x);
    } else {
        assert((a + x)[0] == a[0]);
        if a[0] == b[0] {
            assert((a + x).skip(1) =~= a.skip(1) + x);
            assert((b + y).skip(1) =~= b.skip(1) + y);
            lemma_seq_lt_extend(a.skip(1), x, b.skip(1), y);
        }
    }
}

proof fn lemma_zero_pad_digits(s: Seq<char>, w: nat)
    requires
        forall|k: int| 0 <= k < s.len() ==> '0' <= #[trigger] s[k] <= '9',
    ensures
        zero_pad(s, w).len() >= w,
        forall|k: int| 0 <= k < zero_pad(s, w).len() ==> '0' <= #[trigger] zero_pad(s, w)[k] <= '9',
{
    if s.len() < w {
        let z = zero_pad(s, w);
        let pad = (w - s.len()) as nat;
        assert forall|k: int| 0 <= k < z.len() implies '0' <= #[trigger] z[k] <= '9' by {
            if k >= pad {
                assert(z[k] == s[k - pad]);
            }
        }
    }
}

/// A year text has at least four characters, and all but a leading sign
/// are digits.
proof fn lemma_year_text_digits(y: int)
    ensures
        year_text(y).len() >= 4,
        forall|k: int|
            (if 0 <= y <= 9999 { 0int } else { 1int }) <= k < year_text(y).len() ==> '0'
                <= #[trigger] year_text(y)[k] <= '9',
{
    let n: nat = if y < 0 { (-y) as nat } else { y as nat };
    lemma_decimal_digits(n);
    lemma_zero_pad_digits(decimal(n), 4);
    let z = zero_pad(decimal(n), 4);
    if !(0 <= y <= 9999) {
        let t = year_text(y);
        assert forall|k: int| 1 <= k < t.len() implies '0' <= #[trigger] t[k] <= '9' by {
            assert(t[k] == z[k - 1]);
        }
    }
}

proof fn lemma_pow10_small(w: nat)
    requires
        w <= 4,
    ensures
        pow10(w) <= 10000,
{
    reveal_with_fuel(pow10, 5);
}

/// The decimal text of `n` is its `L`-digit text, `L` its length, and `n`
/// is below `10^L`.
proof fn lemma_decimal_fixed(n: nat)
    ensures
        decimal(n) == fixed_digits(n, decimal(n).len()),
        n < pow10(decimal(n).len()),
    decreases n,
{
    if n < 10 {
        reveal_with_fuel(fixed_digits, 2);
        reveal_with_fuel(pow10, 2);
        assert(decimal(n) =~= fixed_digits(n, 1));
    } else {
        lemma_decimal_fixed(n / 10);
        let l = decimal(n / 10).len();
        assert(decimal(n) == decimal(n / 10).push(digit_char(n % 10)));
        assert(fixed_digits(n, l + 1) == fixed_digits(n / 10, l).push(digit_char(n % 10)));
        assert(pow10(l + 1) == 10 * pow10(l));
    }
}

/// Year texts sort as years when both years are in 0..=9999, when the
/// first is negative and the second in 0..=9999, and when both are above
/// 9999 with as many digits.
pub proof fn lemma_year_texts_sort(a: int, b: int)
    requires
        (0 <= a && b <= 9999) || (a < 0 && 0 <= b <= 9999) || (9999 < a && decimal(a as nat).len()
            == decimal(b as nat).len()),
    ensures
        year_texts_sort(a, b),
{
    if a < b {
        if 0 <= a && b <= 9999 {
            lemma_year_text_fixed(a);
            lemma_year_text_fixed(b);
            assert(pow10(4) == 10000) by {
                reveal_with_fuel(pow10, 5);
            }
            lemma_fixed_digits_order(a as nat, b as nat, 4);
        } else if a < 0 {
            lemma_year_text_digits(b);
            let ta = year_text(a);
            let tb = year_text(b);
            assert(ta[0] == '-');
            assert('0' <= tb[0] <= '9');
            assert(ta[0] != tb[0]);
        } else {
            let l = decimal(a as nat).len();
            lemma_decimal_fixed(a as nat);
            lemma_decimal_fixed(b as nat);
            if l <= 4 {
                lemma_pow10_small(l);
            }
            let fa = fixed_digits(a as nat, l);
            let fb = fixed_digits(b as nat, l);
            assert(year_text(a) == seq!['+'] + fa);
            assert(year_text(b) == seq!['+'] + fb);
            lemma_fixed_digits_order(a as nat, b as nat, l);
            lemma_seq_lt_concat(seq!['+'], fa, seq!['+'], fb);
        }
    }
}

/// `YYYY-MM-DD` texts sort as their dates wherever the year texts sort as
/// the years.
pub proof fn lemma_iso_date_order(y: int, m: int, d: int, y2: int, m2: int, d2: int)
    requires
        year_texts_sort(y, y2),
        0 <= m < 100,
        0 <= m2 < 100,
        0 <= d < 100,
        0 <= d2 < 100,
        date_before(y, m, d, y2, m2, d2),
    ensures
        seq_lt(iso_date(y, m as nat, d as nat), iso_date(y2, m2 as nat, d2 as nat)),
{
    lemma_two_digits_fixed(m as nat);
    lemma_two_digits_fixed(m2 as nat);
    lemma_two_digits_fixed(d as nat);
    lemma_two_digits_fixed(d2 as nat);
    lemma_fixed_digits_len(m as nat, 2);
    lemma_fixed_digits_len(m2 as nat, 2);
    let ya = year_text(y);
    let yb = year_text(y2);
    let ma = two_digits(m as nat);
    let mb = two_digits(m2 as nat);
    let da = seq!['-'] + two_digits(d as nat);
    let db = seq!['-'] + two_digits(d2 as nat);
    let dash = seq!['-'];
    assert(iso_date(y, m as nat, d as nat) =~= ya + (dash + (ma + da)));
    assert(iso_date(y2, m2 as nat, d2 as nat) =~= yb + (dash + (mb + db)));
    if y < y2 {
        lemma_year_text_digits(y);
        lemma_year_text_digits(y2);
        assert((dash + (ma + da))[0] == '-');
        lemma_seq_lt_extend(ya, dash + (ma + da), yb, dash + (mb + db));
    } else {
        lemma_seq_lt_concat(ya, dash + (ma + da), yb, dash + (mb + db));
        lemma_seq_lt_concat(dash, ma + da, dash, mb + db);
        lemma_seq_lt_concat(ma, da, mb, db);
        assert(pow10(2) == 100) by {
            reveal_with_fuel(pow10, 3);
        }
        if m < m2 {
            lemma_fixed_digits_order(m as nat, m2 as nat, 2);
            lemma_seq_lt_irrefl(ma);
        } else {
            lemma_seq_lt_concat(dash, two_digits(d as nat), dash, two_digits(d2 as nat));
            lemma_fixed_digits_order(d as nat, d2 as nat, 2);
        }
    }
}

/// A date of chrono's calendar: a valid date with a year in chrono's range.
pub open spec fn is_chrono_date(y: int, m: int, d: int) -> bool {
    is_valid_date(y, m, d) && min_year() <= y <= max_year()
}

/// The calendar date (UTC) of a Unix timestamp in seconds: the date of
/// chrono's calendar whose day number is the timestamp's day (seconds
/// divided by 86400, rounded down), or `None` where no such date exists.
pub open spec fn utc_date(ts: int) -> Option<(int, int, int)> {
    let day = ts / 86400;
    if exists|y: int, m: int, d: int| is_chrono_date(y, m, d) && #[trigger] day_number(y, m, d) == day {
        Some(choose|y: int, m: int, d: int| is_chrono_date(y, m, d) && #[trigger] day_number(y, m, d) == day)
    } else {
        None
    }
}

/// chrono's `DateTime::<Utc>::from_timestamp(ts, 0)`, taken apart into year,
/// month and day. Claim: a result is a date of chrono's calendar
/// (`NaiveDate::MIN..=NaiveDate::MAX`) whose day number is `ts` divided by
/// 86400 rounded down (chrono counts days with `div_euclid(86_400)` from
/// 1970-01-01); `None` only where no date of that range has that day number.
#[verifier::external_body]
fn utc_date_of(ts: i64) -> (r: Option<(i32, u32, u32)>)
    ensures
        match r {
            Some((y, m, d)) => {
                &&& is_chrono_date(y as int, m as int, d as int)
                &&& day_number(y as int, m as int, d as int) == (ts as int) / 86400
            },
            None => forall|y: int, m: int, d: int|
                is_chrono_date(y, m, d) ==> #[trigger] day_number(y, m, d) != (ts as int) / 86400,
        },
{
    match chrono::DateTime::from_timestamp(ts, 0) {
        Some(t) => Some((t.year(), t.month(), t.day())),
        None => None,
    }
}

/// A date of chrono's calendar with the day number of `ts` is `utc_date(ts)`.
proof fn lemma_utc_date_is(ts: int, y: int, m: int, d: int)
    requires
        is_chrono_date(y, m, d),
        day_number(y, m, d) == ts / 86400,
    ensures
        utc_date(ts) == Some((y, m, d)),
{
    let day = ts / 86400;
    assert(is_chrono_date(y, m, d) && day_number(y, m, d) == day);
    let (y2, m2, d2) = choose|y: int, m: int, d: int|
        is_chrono_date(y, m, d) && #[trigger] day_number(y, m, d) == day;
    if date_before(y, m, d, y2, m2, d2) {
        lemma_day_number_order(y, m, d, y2, m2, d2);
    } else if date_before(y2, m2, d2, y, m, d) {
        lemma_day_number_order(y2, m2, d2, y, m, d);
    }
}

/// The UTC date `retention_days` days before `now` (Unix seconds), or
/// `None` when that date is outside the calendar's range.
pub open spec fn cutoff_date(now: i64, retention_days: u32) -> Option<(int, int, int)> {
    let ts = now - retention_days * 86400;
    if ts < i64::MIN {
        None
    } else {
        utc_date(ts)
    }
}

/// The retention cutoff: the date of `cutoff_date` as `YYYY-MM-DD`.
pub open spec fn cutoff_of(now: i64, retention_days: u32) -> Option<Seq<char>> {
    match cutoff_date(now, retention_days) {
        Some((y, m, d)) => Some(iso_date(y, m as nat, d as nat)),
        None => None,
    }
}

/// The date before which stored wallpapers are removed: `retention_days`
/// days before `now`, or `None` when that lies outside the calendar.
pub fn cleanup_cutoff(now: i64, retention_days: u32) -> (r: Option<String>)
    ensures
        match cutoff_of(now, retention_days) {
            Some(c) => r matches Some(s) && s@ == c,
            None => r is None,
        },
{
    let span: i64 = (retention_days as i64) * 86400;
    match now.checked_sub(span) {
        None => None,
        Some(ts) => match utc_date_of(ts) {
            Some((y, m, d)) => {
                proof {
                    lemma_utc_date_is(ts as int, y as int, m as int, d as int);
                }
                Some(iso_date_text(y, m, d))
            },
            None => None,
        },
    }
}

/// A longer retention never removes more. With the same clock, the cutoff
/// for `longer` days of retention is the cutoff for `shorter` days or an
/// earlier date, so every stored file that the cleanup removes under
/// `longer` days it also removes under `shorter` days. This holds wherever
/// the two cutoffs' year texts sort as their years (see
/// `lemma_year_texts_sort`); where they do not, as for "+10000" against
/// "9999", the cutoff texts sort against their dates.
pub proof fn lemma_longer_retention_removes_less(now: i64, shorter: u32, longer: u32, stem: Seq<char>)
    requires
        shorter <= longer,
        cutoff_date(now, shorter) is Some,
        cutoff_date(now, longer) is Some,
        year_texts_sort(cutoff_date(now, longer).unwrap().0, cutoff_date(now, shorter).unwrap().0),
    ensures
        cutoff_of(now, longer) == cutoff_of(now, shorter) || seq_lt(
            cutoff_of(now, longer).unwrap(),
            cutoff_of(now, shorter).unwrap(),
        ),
        is_expired(stem, cutoff_of(now, longer).unwrap()) ==> is_expired(
            stem,
            cutoff_of(now, shorter).unwrap(),
        ),
{
    let ts1 = now - shorter * 86400;
    let ts2 = now - longer * 86400;
    assert(ts2 / 86400 <= ts1 / 86400) by (nonlinear_arith)
        requires
            ts2 <= ts1,
    ;
    let (y1, m1, d1) = cutoff_date(now, shorter).unwrap();
    let (y2, m2, d2) = cutoff_date(now, longer).unwrap();
    assert(is_chrono_date(y1, m1, d1) && day_number(y1, m1, d1) == ts1 / 86400);
    assert(is_chrono_date(y2, m2, d2) && day_number(y2, m2, d2) == ts2 / 86400);
    if date_before(y1, m1, d1, y2, m2, d2) {
        lemma_day_number_order(y1, m1, d1, y2, m2, d2);
    }
    let c1 = iso_date(y1, m1 as nat, d1 as nat);
    let c2 = iso_date(y2, m2 as nat, d2 as nat);
    if date_before(y2, m2, d2, y1, m1, d1) {
        lemma_iso_date_order(y2, m2, d2, y1, m1, d1);
        lemma_seq_lt_trans(date_of_name(stem), c2, c1);
    }
}

/// With no retention, the cutoff is today's date (UTC) and a file dated
/// today is kept.
pub proof fn lemma_today_is_kept(now: i64, stem: Seq<char>)
    requires
        cutoff_of(now, 0) is Some,
        date_of_name(stem) == cutoff_of(now, 0).unwrap(),
    ensures
        cutoff_date(now, 0) == utc_date(now as int),
        !is_expired(stem, cutoff_of(now, 0).unwrap()),
{
    lemma_seq_lt_irrefl(date_of_name(stem));
}

// ---------------------------------------------------------------------------
// Laws of dates read from names
// ---------------------------------------------------------------------------

/// A date read from a file name is empty or ten bytes with '-' at bytes 4
/// and 7, the layout `YYYY-MM-DD`.
pub proof fn lemma_date_of_name_shape(name: Seq<char>)
    requires
        date_prefix_readable(name),
    ensures
        date_of_name(name).len() == 0 || has_date_prefix(encode_utf8(date_of_name(name)))
            && encode_utf8(date_of_name(name)).len() == 10,
{
    let bytes = encode_utf8(name);
    if has_date_prefix(bytes) {
        vstd::utf8::encode_utf8_valid_utf8(name);
        vstd::utf8::valid_utf8_split(bytes, 10);
        assert(bytes.subrange(0, 10) =~= bytes.take(10));
        vstd::utf8::decode_utf8_encode_utf8(bytes.take(10));
    }
}

} // verus!
