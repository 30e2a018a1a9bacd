//! Best-effort, line-oriented extraction of `name value` pairs from metrics
//! exposition text.
//!
//! The splitting is lenient: comment lines and lines with fewer than two
//! whitespace-separated tokens are skipped rather than rejected.  The caller
//! interprets the extracted value token (for example as a number), keeping
//! this module purely about text.

use vstd::prelude::*;
use vstd::string::StrSliceExecFns;

verus! {

/// True for the characters that split tokens (the Unicode white space set).
pub open spec fn spec_is_ws(c: char) -> bool {
    ||| (9 <= c as u32 && c as u32 <= 13)
    ||| c as u32 == 32
    ||| c as u32 == 0x85
    ||| c as u32 == 0xA0
    ||| c as u32 == 0x1680
    ||| (0x2000 <= c as u32 && c as u32 <= 0x200A)
    ||| c as u32 == 0x2028
    ||| c as u32 == 0x2029
    ||| c as u32 == 0x202F
    ||| c as u32 == 0x205F
    ||| c as u32 == 0x3000
}

/// Tests whether a character splits tokens.
pub fn is_ws(c: char) -> (r: bool)
    ensures
        r == spec_is_ws(c),
{
    let u = c as u32;
    (9 <= u && u <= 13) || u == 32 || u == 0x85 || u == 0xA0 || u == 0x1680 || (0x2000 <= u && u
        <= 0x200A) || u == 0x2028 || u == 0x2029 || u == 0x202F || u == 0x205F || u == 0x3000
}

/// The first index at or after `i` holding a newline, or the length.
pub open spec fn spec_find_nl(s: Seq<char>, i: int) -> int
    decreases s.len() - i,
{
    if i < 0 || i >= s.len() {
        s.len() as int
    } else if s[i] == '\n' {
        i
    } else {
        spec_find_nl(s, i + 1)
    }
}

/// The characterization of [`spec_find_nl`]: the least newline position at or
/// after `i` (within bounds), or the length when there is none.
pub proof fn lemma_find_nl(s: Seq<char>, i: int)
    requires
        0 <= i <= s.len(),
    ensures
        i <= spec_find_nl(s, i) <= s.len(),
        spec_find_nl(s, i) < s.len() ==> s[spec_find_nl(s, i)] == '\n',
        forall|j: int| i <= j < spec_find_nl(s, i) ==> s[j] != '\n',
    decreases s.len() - i,
{
    if i < s.len() && s[i] != '\n' {
        lemma_find_nl(s, i + 1);
    }
}

/// The first index at or after `i` (within `[i, hi]`) holding a non-blank
/// character, or `hi`.
pub open spec fn spec_skip_ws(s: Seq<char>, i: int, hi: int) -> int
    decreases hi - i,
{
    if i < 0 || i >= hi || i >= s.len() {
        hi
    } else if spec_is_ws(s[i]) {
        spec_skip_ws(s, i + 1, hi)
    } else {
        i
    }
}

/// The first index at or after `i` (within `[i, hi]`) holding a blank
/// character, or `hi`.
pub open spec fn spec_scan_token(s: Seq<char>, i: int, hi: int) -> int
    decreases hi - i,
{
    if i < 0 || i >= hi || i >= s.len() {
        hi
    } else if !spec_is_ws(s[i]) {
        spec_scan_token(s, i + 1, hi)
    } else {
        i
    }
}

/// The first two whitespace-separated tokens of the line `s[lo..hi]`, if the
/// line is a sample line: not a comment (`#` first), at least two tokens.
pub open spec fn spec_line_entry(s: Seq<char>, lo: int, hi: int) -> Option<(Seq<char>, Seq<char>)> {
    if lo < hi && s[lo] == '#' {
        None
    } else {
        let a0 = spec_skip_ws(s, lo, hi);
        let a1 = spec_scan_token(s, a0, hi);
        let b0 = spec_skip_ws(s, a1, hi);
        let b1 = spec_scan_token(s, b0, hi);
        if a0 < a1 && b0 < b1 {
            Some((s.subrange(a0, a1), s.subrange(b0, b1)))
        } else {
            None
        }
    }
}

/// The `name value` pairs of every sample line at or after position `i`.
///
/// Lines end at newlines; a carriage return just before a newline does not
/// belong to the line; the final line needs no newline.
pub open spec fn spec_parse_at(s: Seq<char>, i: int) -> Seq<(Seq<char>, Seq<char>)>
    decreases s.len() - i,
    via spec_parse_at_decreases
{
    if i < 0 || i >= s.len() {
        Seq::empty()
    } else {
        let j = spec_find_nl(s, i);
        let end = if j < s.len() && j > i && s[j - 1] == '\r' {
            j - 1
        } else {
            j
        };
        let next = if j + 1 <= s.len() {
            j + 1
        } else {
            s.len() as int
        };
        (match spec_line_entry(s, i, end) {
            Some(p) => seq![p],
            None => Seq::empty(),
        }) + spec_parse_at(s, next)
    }
}

#[via_fn]
proof fn spec_parse_at_decreases(s: Seq<char>, i: int) {
    if 0 <= i && i < s.len() {
        lemma_find_nl(s, i);
    }
}

/// The `name value` pairs of every sample line of the text.
pub open spec fn spec_parse(s: Seq<char>) -> Seq<(Seq<char>, Seq<char>)> {
    spec_parse_at(s, 0)
}

/// Extracts the `metric_name value_token` pairs from metrics exposition text.
///
/// Comment lines (starting with `#`) and lines with fewer than two
/// whitespace-separated tokens are skipped.  Pairs come in line order; the
/// value token is handed back as text, uninterpreted.
pub fn parse_prometheus_lines(data: &str) -> (r: Vec<(String, String)>)
    ensures
        r.deep_view() == spec_parse(data@),
{
    let ghost s = data@;
    let n = data.unicode_len();
    let mut chars: Vec<char> = Vec::new();
    let mut i: usize = 0;
    while i < n
        invariant
            i <= n,
            n == s.len(),
            s == data@,
            chars@ =~= s.take(i as int),
        decreases n - i,
    {
        chars.push(data.get_char(i));
        proof {
            assert(chars@ =~= s.take(i + 1));
        }
        i += 1;
    }
    proof {
        assert(chars@ =~= s);
    }

    let mut out: Vec<(String, String)> = Vec::new();
    let mut i: usize = 0;
    while i < n
        invariant
            n == s.len(),
            s == data@,
            chars@ == s,
            i <= n + 1,
            spec_parse(s) == out.deep_view() + spec_parse_at(s, i as int),
        decreases n - i,
    {
        // find the end of the line and strip one carriage return before it
        let mut j: usize = i;
        while j < n && chars[j] != '\n'
            invariant
                i <= j <= n,
                n == s.len(),
                chars@ == s,
                forall|k: int| i <= k < j ==> s[k] != '\n',
            decreases n - j,
        {
            j += 1;
        }
        proof {
            lemma_find_nl(s, i as int);
            assert(spec_find_nl(s, i as int) == j as int) by {
                if spec_find_nl(s, i as int) < j {
                    assert(s[spec_find_nl(s, i as int)] != '\n');
                }
                if j < spec_find_nl(s, i as int) {
                    assert(s[j as int] != '\n');
                }
            };
        }
        let end: usize = if j < n && j > i && chars[j - 1] == '\r' {
            j - 1
        } else {
            j
        };
        // extract the first two tokens of the line, if it is a sample line
        if !(i < end && chars[i] == '#') {
            let a0 = exec_skip_ws(&chars, i, end);
            let a1 = exec_scan_token(&chars, a0, end);
            let b0 = exec_skip_ws(&chars, a1, end);
            let b1 = exec_scan_token(&chars, b0, end);
            if a0 < a1 && b0 < b1 {
                let name = data.substring_char(a0, a1).to_owned();
                let value = data.substring_char(b0, b1).to_owned();
                let ghost pre = out.deep_view();
                out.push((name, value));
                proof {
                    assert(out.deep_view() =~~= pre.push(
                        (s.subrange(a0 as int, a1 as int), s.subrange(b0 as int, b1 as int)),
                    ));
                }
            }
        }
        let next: usize = if j < n {
            j + 1
        } else {
            n
        };
        proof {
            assert(spec_parse(s) =~~= out.deep_view() + spec_parse_at(s, next as int));
        }
        i = next;
    }
    proof {
        assert(spec_parse_at(s, i as int) == Seq::<(Seq<char>, Seq<char>)>::empty());
        assert(out.deep_view() =~~= spec_parse(s));
    }
    out
}

/// Finds the first non-blank position in `chars[i..hi]`, or `hi`.
fn exec_skip_ws(chars: &Vec<char>, i: usize, hi: usize) -> (r: usize)
    requires
        i <= hi <= chars@.len(),
    ensures
        r == spec_skip_ws(chars@, i as int, hi as int),
        i <= r <= hi,
    decreases hi - i,
{
    if i >= hi {
        hi
    } else if is_ws(chars[i]) {
        exec_skip_ws(chars, i + 1, hi)
    } else {
        i
    }
}

/// Finds the first blank position in `chars[i..hi]`, or `hi`.
fn exec_scan_token(chars: &Vec<char>, i: usize, hi: usize) -> (r: usize)
    requires
        i <= hi <= chars@.len(),
    ensures
        r == spec_scan_token(chars@, i as int, hi as int),
        i <= r <= hi,
    decreases hi - i,
{
    if i >= hi {
        hi
    } else if !is_ws(chars[i]) {
        exec_scan_token(chars, i + 1, hi)
    } else {
        i
    }
}

} // verus!
