//! What counts as a font file, and how font file names are taken apart:
//! extensions, MIME types, magic numbers, and the numbered rename used when
//! a name conflict is resolved by keeping both files.

use vstd::prelude::*;
use crate::text::{dec_str, push_char, push_dec, str_eq};

verus! {

/// The index of the last `.` in `name`, or `-1` if there is none.
pub open spec fn last_dot(name: Seq<char>) -> int
    decreases name.len(),
{
    if name.len() == 0 {
        -1
    } else if name.last() == '.' {
        name.len() - 1
    } else {
        last_dot(name.drop_last())
    }
}

/// The extension of a file name, as `Path::extension` sees it: the part
/// after the last `.`, provided that dot is neither absent nor the leading
/// character (so a dotfile has no extension).
pub open spec fn extension_of(name: Seq<char>) -> Option<Seq<char>> {
    if last_dot(name) >= 1 {
        Some(name.subrange(last_dot(name) + 1, name.len() as int))
    } else {
        None
    }
}

proof fn lemma_last_dot_at(name: Seq<char>, i: int)
    requires
        0 <= i < name.len(),
        name[i] == '.',
        forall|j: int| i < j < name.len() ==> name[j] != '.',
    ensures
        last_dot(name) == i,
    decreases name.len(),
{
    if i == name.len() - 1 {
    } else {
        assert(name.last() != '.');
        lemma_last_dot_at(name.drop_last(), i);
    }
}

proof fn lemma_last_dot_none(name: Seq<char>)
    requires
        forall|j: int| 0 <= j < name.len() ==> name[j] != '.',
    ensures
        last_dot(name) == -1,
    decreases name.len(),
{
    if name.len() > 0 {
        lemma_last_dot_none(name.drop_last());
    }
}

/// The position of the last `.` in `name`, if any.
fn rfind_dot(name: &str) -> (r: Option<usize>)
    ensures
        match r {
            Some(j) => j < name@.len() && j as int == last_dot(name@),
            None => last_dot(name@) == -1,
        },
{
    let len = name.unicode_len();
    let mut i: usize = len;
    while i > 0
        invariant
            i <= len,
            len == name@.len(),
            forall|j: int| i <= j < len ==> name@[j] != '.',
        decreases i,
    {
        i = i - 1;
        let c = name.get_char(i);
        if c == '.' {
            proof {
                lemma_last_dot_at(name@, i as int);
            }
            return Some(i);
        }
    }
    proof {
        lemma_last_dot_none(name@);
    }
    None
}

/// ASCII lowercasing of one character; everything outside `A`..`Z` is kept.
pub open spec fn ascii_lower(c: char) -> char {
    if c == 'A' {
        'a'
    } else if c == 'B' {
        'b'
    } else if c == 'C' {
        'c'
    } else if c == 'D' {
        'd'
    } else if c == 'E' {
        'e'
    } else if c == 'F' {
        'f'
    } else if c == 'G' {
        'g'
    } else if c == 'H' {
        'h'
    } else if c == 'I' {
        'i'
    } else if c == 'J' {
        'j'
    } else if c == 'K' {
        'k'
    } else if c == 'L' {
        'l'
    } else if c == 'M' {
        'm'
    } else if c == 'N' {
        'n'
    } else if c == 'O' {
        'o'
    } else if c == 'P' {
        'p'
    } else if c == 'Q' {
        'q'
    } else if c == 'R' {
        'r'
    } else if c == 'S' {
        's'
    } else if c == 'T' {
        't'
    } else if c == 'U' {
        'u'
    } else if c == 'V' {
        'v'
    } else if c == 'W' {
        'w'
    } else if c == 'X' {
        'x'
    } else if c == 'Y' {
        'y'
    } else if c == 'Z' {
        'z'
    } else {
        c
    }
}

pub open spec fn lower_of(s: Seq<char>) -> Seq<char> {
    s.map_values(|c: char| ascii_lower(c))
}

fn ascii_lower_char(c: char) -> (r: char)
    ensures
        r == ascii_lower(c),
{
    if c == 'A' {
        'a'
    } else if c == 'B' {
        'b'
    } else if c == 'C' {
        'c'
    } else if c == 'D' {
        'd'
    } else if c == 'E' {
        'e'
    } else if c == 'F' {
        'f'
    } else if c == 'G' {
        'g'
    } else if c == 'H' {
        'h'
    } else if c == 'I' {
        'i'
    } else if c == 'J' {
        'j'
    } else if c == 'K' {
        'k'
    } else if c == 'L' {
        'l'
    } else if c == 'M' {
        'm'
    } else if c == 'N' {
        'n'
    } else if c == 'O' {
        'o'
    } else if c == 'P' {
        'p'
    } else if c == 'Q' {
        'q'
    } else if c == 'R' {
        'r'
    } else if c == 'S' {
        's'
    } else if c == 'T' {
        't'
    } else if c == 'U' {
        'u'
    } else if c == 'V' {
        'v'
    } else if c == 'W' {
        'w'
    } else if c == 'X' {
        'x'
    } else if c == 'Y' {
        'y'
    } else if c == 'Z' {
        'z'
    } else {
        c
    }
}

/// ASCII lowercasing of a string slice.
fn ascii_lowercase(s: &str) -> (r: String)
    ensures
        r@ == lower_of(s@),
{
    let len = s.unicode_len();
    let mut out = String::new();
    let mut i: usize = 0;
    while i < len
        invariant
            len == s@.len(),
            i <= len,
            out@ == lower_of(s@.take(i as int)),
        decreases len - i,
    {
        let c = ascii_lower_char(s.get_char(i));
        push_char(&mut out, c);
        proof {
            assert(out@ =~= lower_of(s@.take(i + 1)));
        }
        i = i + 1;
    }
    proof {
        assert(s@.take(len as int) == s@);
    }
    out
}

/// The extensions, compared case-insensitively, under which a file is
/// treated as a font.
pub open spec fn is_font_extension(e: Seq<char>) -> bool {
    ||| lower_of(e) == "ttf"@
    ||| lower_of(e) == "otf"@
    ||| lower_of(e) == "woff"@
    ||| lower_of(e) == "woff2"@
    ||| lower_of(e) == "eot"@
    ||| lower_of(e) == "ttc"@
    ||| lower_of(e) == "pfa"@
    ||| lower_of(e) == "pfb"@
    ||| lower_of(e) == "afm"@
    ||| lower_of(e) == "pfm"@
}

pub open spec fn is_font_file_spec(name: Seq<char>) -> bool {
    match extension_of(name) {
        Some(e) => is_font_extension(e),
        None => false,
    }
}

/// Whether a file name carries one of the known font extensions.
pub fn is_font_file(name: &str) -> (r: bool)
    ensures
        r == is_font_file_spec(name@),
{
    let len = name.unicode_len();
    match rfind_dot(name) {
        Some(j) => {
            if j == 0 {
                false
            } else {
                let ext = name.substring_char(j + 1, len);
                let low = ascii_lowercase(ext);
                let l = low.as_str();
                str_eq(l, "ttf") || str_eq(l, "otf") || str_eq(l, "woff") || str_eq(l, "woff2")
                    || str_eq(l, "eot") || str_eq(l, "ttc") || str_eq(l, "pfa") || str_eq(l, "pfb")
                    || str_eq(l, "afm") || str_eq(l, "pfm")
            }
        },
        None => false,
    }
}

/// The extensions a downloaded font is installed under; a strict subset of
/// `is_font_file`, without the legacy Type 1 metric formats.
pub open spec fn is_installable_extension(e: Seq<char>) -> bool {
    ||| lower_of(e) == "ttf"@
    ||| lower_of(e) == "otf"@
    ||| lower_of(e) == "woff"@
    ||| lower_of(e) == "woff2"@
    ||| lower_of(e) == "eot"@
    ||| lower_of(e) == "ttc"@
}

pub open spec fn is_installable_font_file_spec(name: Seq<char>) -> bool {
    match extension_of(name) {
        Some(e) => is_installable_extension(e),
        None => false,
    }
}

/// Whether a file name is one the installer will accept.
pub fn is_installable_font_file(name: &str) -> (r: bool)
    ensures
        r == is_installable_font_file_spec(name@),
{
    let len = name.unicode_len();
    match rfind_dot(name) {
        Some(j) => {
            if j == 0 {
                false
            } else {
                let ext = name.substring_char(j + 1, len);
                let low = ascii_lowercase(ext);
                let l = low.as_str();
                str_eq(l, "ttf") || str_eq(l, "otf") || str_eq(l, "woff") || str_eq(l, "woff2")
                    || str_eq(l, "eot") || str_eq(l, "ttc")
            }
        },
        None => false,
    }
}

/// The MIME type reported for a font file name.
pub open spec fn mime_type_spec(name: Seq<char>) -> Seq<char> {
    match extension_of(name) {
        Some(e) => {
            let l = lower_of(e);
            if l == "ttf"@ {
                "font/ttf"@
            } else if l == "otf"@ {
                "font/otf"@
            } else if l == "woff"@ {
                "font/woff"@
            } else if l == "woff2"@ {
                "font/woff2"@
            } else if l == "eot"@ {
                "application/vnd.ms-fontobject"@
            } else if l == "ttc"@ {
                "font/collection"@
            } else if l == "pfa"@ || l == "pfb"@ {
                "application/x-font-type1"@
            } else if l == "afm"@ {
                "application/x-font-afm"@
            } else if l == "pfm"@ {
                "application/x-font-pfm"@
            } else {
                "application/octet-stream"@
            }
        },
        None => "application/octet-stream"@,
    }
}

/// The MIME type a server advertises for a font file, by its extension.
pub fn get_font_mime_type(name: &str) -> (r: String)
    ensures
        r@ == mime_type_spec(name@),
{
    let len = name.unicode_len();
    match rfind_dot(name) {
        Some(j) => {
            if j == 0 {
                String::from_str("application/octet-stream")
            } else {
                let ext = name.substring_char(j + 1, len);
                let low = ascii_lowercase(ext);
                let l = low.as_str();
                if str_eq(l, "ttf") {
                    String::from_str("font/ttf")
                } else if str_eq(l, "otf") {
                    String::from_str("font/otf")
                } else if str_eq(l, "woff") {
                    String::from_str("font/woff")
                } else if str_eq(l, "woff2") {
                    String::from_str("font/woff2")
                } else if str_eq(l, "eot") {
                    String::from_str("application/vnd.ms-fontobject")
                } else if str_eq(l, "ttc") {
                    String::from_str("font/collection")
                } else if str_eq(l, "pfa") || str_eq(l, "pfb") {
                    String::from_str("application/x-font-type1")
                } else if str_eq(l, "afm") {
                    String::from_str("application/x-font-afm")
                } else if str_eq(l, "pfm") {
                    String::from_str("application/x-font-pfm")
                } else {
                    String::from_str("application/octet-stream")
                }
            }
        },
        None => String::from_str("application/octet-stream"),
    }
}

/// The magic numbers of the font containers the system recognises: TrueType,
/// OpenType (CFF), WOFF, WOFF2, and TrueType collections.
pub open spec fn valid_font_magic_spec(header: Seq<u8>) -> bool {
    &&& header.len() >= 4
    &&& {
        ||| (header[0] == 0x00 && header[1] == 0x01 && header[2] == 0x00 && header[3] == 0x00)
        ||| (header[0] == 0x4f && header[1] == 0x54 && header[2] == 0x54 && header[3] == 0x4f)
        ||| (header[0] == 0x77 && header[1] == 0x4f && header[2] == 0x46 && header[3] == 0x46)
        ||| (header[0] == 0x77 && header[1] == 0x4f && header[2] == 0x46 && header[3] == 0x32)
        ||| (header[0] == 0x74 && header[1] == 0x74 && header[2] == 0x63 && header[3] == 0x66)
    }
}

/// Whether the first bytes of a file carry a known font magic number.
pub fn valid_font_magic(header: &[u8]) -> (r: bool)
    ensures
        r == valid_font_magic_spec(header@),
{
    if header.len() < 4 {
        return false;
    }
    let b0 = header[0];
    let b1 = header[1];
    let b2 = header[2];
    let b3 = header[3];
    (b0 == 0x00 && b1 == 0x01 && b2 == 0x00 && b3 == 0x00) || (b0 == 0x4f && b1 == 0x54 && b2
        == 0x54 && b3 == 0x4f) || (b0 == 0x77 && b1 == 0x4f && b2 == 0x46 && b3 == 0x46) || (b0
        == 0x77 && b1 == 0x4f && b2 == 0x46 && b3 == 0x32) || (b0 == 0x74 && b1 == 0x74 && b2
        == 0x63 && b3 == 0x66)
}

/// The numbered variant of a file name used to resolve a conflict by
/// renaming: `X.ttf` becomes `X (k).ttf`, and a name without an extension
/// gets the suffix appended at its end.
pub open spec fn rename_candidate_spec(name: Seq<char>, k: nat) -> Seq<char> {
    if last_dot(name) >= 1 {
        name.subrange(0, last_dot(name)) + seq![' ', '('] + dec_str(k) + seq![')', '.']
            + name.subrange(last_dot(name) + 1, name.len() as int)
    } else {
        name + seq![' ', '('] + dec_str(k) + seq![')']
    }
}

/// Cancelling a shared prefix and suffix around two equal concatenations
/// leaves the middles equal.
proof fn lemma_concat_middle_cancel(
    front: Seq<char>,
    a: Seq<char>,
    b: Seq<char>,
    back: Seq<char>,
)
    requires
        front + a + back == front + b + back,
    ensures
        a == b,
{
    let s1 = front + a + back;
    let s2 = front + b + back;
    assert(s1.len() == s2.len());
    assert(a.len() == b.len());
    assert forall|i: int| 0 <= i < a.len() implies a[i] == b[i] by {
        assert(s1[front.len() + i] == a[i]);
        assert(s2[front.len() + i] == b[i]);
    }
    assert(a =~= b);
}

/// Distinct counters give distinct numbered renames of the same name.
pub proof fn lemma_rename_candidate_injective(name: Seq<char>, j: nat, k: nat)
    requires
        rename_candidate_spec(name, j) == rename_candidate_spec(name, k),
    ensures
        j == k,
{
    if last_dot(name) >= 1 {
        let d = last_dot(name);
        let front = name.subrange(0, d) + seq![' ', '('];
        let back = seq![')', '.'] + name.subrange(d + 1, name.len() as int);
        assert(rename_candidate_spec(name, j) =~= front + dec_str(j) + back);
        assert(rename_candidate_spec(name, k) =~= front + dec_str(k) + back);
        lemma_concat_middle_cancel(front, dec_str(j), dec_str(k), back);
    } else {
        let front = name + seq![' ', '('];
        let back = seq![')'];
        assert(rename_candidate_spec(name, j) =~= front + dec_str(j) + back);
        assert(rename_candidate_spec(name, k) =~= front + dec_str(k) + back);
        lemma_concat_middle_cancel(front, dec_str(j), dec_str(k), back);
    }
    crate::text::lemma_dec_str_injective(j, k);
}

/// Builds the `k`-th numbered rename of `name`.
pub fn rename_candidate(name: &str, k: u64) -> (r: String)
    ensures
        r@ == rename_candidate_spec(name@, k as nat),
{
    let len = name.unicode_len();
    let dot = rfind_dot(name);
    match dot {
        Some(j) if j > 0 => {
            let stem = name.substring_char(0, j);
            let ext = name.substring_char(j + 1, len);
            let mut out = stem.to_owned();
            push_char(&mut out, ' ');
            push_char(&mut out, '(');
            push_dec(&mut out, k);
            push_char(&mut out, ')');
            push_char(&mut out, '.');
            out.append(ext);
            proof {
                assert(out@ =~= rename_candidate_spec(name@, k as nat));
            }
            out
        },
        _ => {
            let mut out = name.to_owned();
            push_char(&mut out, ' ');
            push_char(&mut out, '(');
            push_dec(&mut out, k);
            push_char(&mut out, ')');
            proof {
                assert(out@ =~= rename_candidate_spec(name@, k as nat));
            }
            out
        },
    }
}

} // verus!
