//! Windows: the wallpaper is set through `SystemParametersInfoW` with a
//! UTF-16 path and read from the registry with `reg query`.

use vstd::prelude::*;
use crate::bing::lemma_shift_find;
use crate::platform::{command_view, prefixed, prefixed_text, CommandOutput, CommandSpec, PlatformError, PlatformResult};
use crate::text::{
    chars_of, contains_seq, find, find_exec, lemma_find_from, split_second,
    string_of_range, trim, trim_str, before_first,
};

verus! {

// ---------------------------------------------------------------------------
// Specifications
// ---------------------------------------------------------------------------

/// The UTF-16 code units of one character.
pub open spec fn utf16_of_char(c: char) -> Seq<u16> {
    let v = c as u32;
    if v < 0x10000 {
        seq![v as u16]
    } else {
        seq![(0xD800 + (v - 0x10000) / 0x400) as u16, (0xDC00 + (v - 0x10000) % 0x400) as u16]
    }
}

/// The UTF-16 encoding of a text.
pub open spec fn utf16(s: Seq<char>) -> Seq<u16>
    decreases s.len(),
{
    if s.len() == 0 {
        Seq::empty()
    } else {
        utf16(s.drop_last()) + utf16_of_char(s.last())
    }
}

/// `l` without one trailing carriage return.
pub open spec fn strip_cr(l: Seq<char>) -> Seq<char> {
    if l.len() > 0 && l.last() == '\r' {
        l.drop_last()
    } else {
        l
    }
}

/// The first line of `s` (as `str::lines` splits it) that holds `needle`.
pub open spec fn first_line_containing(s: Seq<char>, needle: Seq<char>) -> Option<Seq<char>>
    decreases s.len(),
{
    if s.len() == 0 {
        None
    } else {
        let i = find(s, seq!['\n']);
        if i < 0 {
            if contains_seq(s, needle) {
                Some(s)
            } else {
                None
            }
        } else {
            let line = strip_cr(s.take(i));
            if contains_seq(line, needle) {
                Some(line)
            } else {
                proof {
                    lemma_find_from(s, seq!['\n'], 0);
                }
                first_line_containing(s.skip(i + 1), needle)
            }
        }
    }
}

/// The wallpaper path in the output of
/// `reg query "HKCU\Control Panel\Desktop" /v Wallpaper`: the text after
/// `REG_SZ` on the first line naming `Wallpaper`, trimmed, if not empty.
pub open spec fn reg_wallpaper(stdout: Seq<char>) -> Option<Seq<char>> {
    match first_line_containing(stdout, "Wallpaper"@) {
        Some(line) => match split_second(line, "REG_SZ"@) {
            Some(v) => if trim(v).len() > 0 {
                Some(trim(v))
            } else {
                None
            },
            None => None,
        },
        None => None,
    }
}

// ---------------------------------------------------------------------------
// Executable functions
// ---------------------------------------------------------------------------

/// Set the wallpaper: the null-terminated UTF-16 path (`None` when the path
/// is not valid text) to hand to `SystemParametersInfoW`.
pub fn set_wallpaper(path: Option<&str>) -> (r: PlatformResult<Vec<u16>>)
    ensures
        path is None ==> (r matches Err(PlatformError::SetWallpaper(m)) && m@ == "Invalid path encoding"@),
        path matches Some(p) ==> (r matches Ok(w) && w@ == utf16(p@).push(0u16)),
{
    match path {
        None => Err(PlatformError::SetWallpaper("Invalid path encoding".to_string())),
        Some(p) => {
            let mut w = to_utf16(p);
            w.push(0u16);
            Ok(w)
        },
    }
}

/// The UTF-16 code units of `s`.
pub fn to_utf16(s: &str) -> (r: Vec<u16>)
    ensures
        r@ == utf16(s@),
{
    let v = chars_of(s);
    let mut r: Vec<u16> = Vec::new();
    let mut i: usize = 0;
    while i < v.len()
        invariant
            i <= v.len(),
            v@ == s@,
            r@ == utf16(s@.take(i as int)),
        decreases v.len() - i,
    {
        let c = v[i];
        let x = c as u32;
        proof {
            vstd::utf8::char_is_scalar(c);
        }
        if x < 0x10000 {
            r.push(x as u16);
        } else {
            let y = x - 0x10000;
            r.push((0xD800 + y / 0x400) as u16);
            r.push((0xDC00 + y % 0x400) as u16);
        }
        assert(s@.take(i + 1).drop_last() =~= s@.take(i as int));
        assert(r@ =~= utf16(s@.take(i as int)) + utf16_of_char(c));
        i += 1;
    }
    assert(s@.take(v.len() as int) =~= s@);
    r
}

/// The result of `SystemParametersInfoW`: non-zero is success.
pub fn set_wallpaper_outcome(result: i32) -> (r: PlatformResult<()>)
    ensures
        result != 0 ==> r is Ok,
        result == 0 ==> (r matches Err(PlatformError::SetWallpaper(m)) && m@ == "SystemParametersInfoW returned 0"@),
{
    if result != 0 {
        Ok(())
    } else {
        Err(PlatformError::SetWallpaper("SystemParametersInfoW returned 0".to_string()))
    }
}

/// The registry query for the wallpaper path.
pub fn current_wallpaper_query() -> (r: CommandSpec)
    ensures
        command_view(r) == ("reg"@, seq!["query"@, "HKCU\\Control Panel\\Desktop"@, "/v"@, "Wallpaper"@]),
{
    let c = CommandSpec {
        program: "reg".to_string(),
        args: vec![
            "query".to_string(),
            "HKCU\\Control Panel\\Desktop".to_string(),
            "/v".to_string(),
            "Wallpaper".to_string(),
        ],
    };
    assert(c.args@.map_values(|a: String| a@) =~= seq!["query"@, "HKCU\\Control Panel\\Desktop"@, "/v"@, "Wallpaper"@]);
    c
}

/// Whether `needle` occurs in `v`.
fn holds(v: &Vec<char>, needle: &Vec<char>) -> (b: bool)
    ensures
        b == contains_seq(v@, needle@),
{
    let r = find_exec(v, needle, 0);
    proof {
        lemma_find_from(v@, needle@, 0);
    }
    r.is_some()
}

/// The first line of `s` that holds `needle`.
pub fn first_line_with(s: &str, needle: &str) -> (r: Option<String>)
    ensures
        match r {
            Some(l) => first_line_containing(s@, needle@) == Some(l@),
            None => first_line_containing(s@, needle@) is None,
        },
{
    let v = chars_of(s);
    let nv = chars_of(needle);
    let nl: Vec<char> = vec!['\n'];
    assert(nl@ =~= seq!['\n']);
    let mut start: usize = 0;
    assert(v@.skip(0) =~= v@);
    while start < v.len()
        invariant
            start <= v.len(),
            v@ == s@,
            nv@ == needle@,
            nl@ == seq!['\n'],
            first_line_containing(s@, needle@) == first_line_containing(v@.skip(start as int), needle@),
        decreases v.len() - start,
    {
        let ghost t = v@.skip(start as int);
        let next = find_exec(&v, &nl, start);
        proof {
            lemma_find_from(v@, nl@, start as int);
            lemma_shift_find(v@, nl@, start as int);
        }
        match next {
            None => {
                let line = string_of_range(&v, start, v.len());
                assert(line@ =~= t);
                let lv = chars_of(line.as_str());
                if holds(&lv, &nv) {
                    return Some(line);
                }
                return None;
            },
            Some(j) => {
                let mut end = j;
                if end > start && v[end - 1] == '\r' {
                    end = end - 1;
                }
                let line = string_of_range(&v, start, end);
                assert(line@ =~= strip_cr(t.take(j - start))) by {
                    assert(t.take(j - start) =~= v@.subrange(start as int, j as int));
                    if j > start && v@[j - 1] == '\r' {
                        assert(v@.subrange(start as int, j as int).drop_last() =~= v@.subrange(start as int, j - 1));
                    }
                }
                let lv = chars_of(line.as_str());
                if holds(&lv, &nv) {
                    return Some(line);
                }
                assert(t.skip(j - start + 1) =~= v@.skip(j + 1));
                start = j + 1;
            },
        }
    }
    assert(v@.skip(start as int).len() == 0);
    None
}

/// Get the current wallpaper from the outcome of the registry query: the
/// value after `REG_SZ` on the `Wallpaper` line, trimmed; `None` when there
/// is none or the query failed; an error when `reg` could not be started.
pub fn get_current_wallpaper(ran: Result<CommandOutput, String>) -> (r: PlatformResult<Option<String>>)
    ensures
        match ran {
            Err(e) => r matches Err(PlatformError::CommandFailed(s)) && s@ == prefixed("reg query: "@, e@),
            Ok(o) => if o.success {
                match reg_wallpaper(o.stdout@) {
                    Some(p) => r matches Ok(Some(s)) && s@ == p,
                    None => r matches Ok(None),
                }
            } else {
                r matches Ok(None)
            },
        },
{
    match ran {
        Err(e) => Err(PlatformError::CommandFailed(prefixed_text("reg query: ", e.as_str()))),
        Ok(o) => {
            if !o.success {
                return Ok(None);
            }
            match first_line_with(o.stdout.as_str(), "Wallpaper") {
                None => Ok(None),
                Some(line) => {
                    let lv = chars_of(line.as_str());
                    let sep = chars_of("REG_SZ");
                    proof {
                        reveal_strlit("REG_SZ");
                    }
                    let first = find_exec(&lv, &sep, 0);
                    proof {
                        lemma_find_from(lv@, sep@, 0);
                    }
                    match first {
                        None => Ok(None),
                        Some(i) => {
                            assert(sep@.len() == 6);
                            let n = lv.len();
                            assert(i + 6 <= n);
                            let start = i + 6;
                            let next = find_exec(&lv, &sep, start);
                            proof {
                                lemma_find_from(lv@, sep@, start as int);
                                lemma_shift_find(lv@, sep@, start as int);
                            }
                            let end = match next {
                                Some(j) => j,
                                None => n,
                            };
                            let val = string_of_range(&lv, start, end);
                            assert(val@ == before_first(lv@.skip(start as int), sep@)) by {
                                if next is Some {
                                    assert(lv@.subrange(start as int, end as int) =~= lv@.skip(start as int).take(end - start));
                                } else {
                                    assert(lv@.subrange(start as int, end as int) =~= lv@.skip(start as int));
                                }
                            }
                            let path = trim_str(val.as_str());
                            if path.as_str().unicode_len() == 0 {
                                Ok(None)
                            } else {
                                Ok(Some(path))
                            }
                        },
                    }
                },
            }
        },
    }
}

} // verus!
