//! Where to look for a UI font for the menu, and which font files will do.
//!
//! A path probe rather than a platform font API: every desktop that can run
//! the crab ships one of these faces. Probing the disk is the caller's
//! business; this module holds the lists and the rule for picking a face out
//! of a directory.

use vstd::prelude::*;

use crate::event::first_occurrence;
use crate::text::{chars_of, same_chars};

verus! {

/// The platforms with a font list of their own.
#[derive(Debug, Clone, Copy, PartialEq, Eq, Structural)]
pub enum FontPlatform {
    Linux,
    MacOs,
    Windows,
    Other,
}

/// The faces each platform tries, in order.
pub open spec fn candidates_spec(platform: FontPlatform) -> Seq<&'static str> {
    match platform {
        FontPlatform::Linux => seq![
            "/usr/share/fonts/noto/NotoSans-Regular.ttf",
            "/usr/share/fonts/TTF/DejaVuSans.ttf",
            "/usr/share/fonts/dejavu/DejaVuSans.ttf",
            "/usr/share/fonts/truetype/dejavu/DejaVuSans.ttf",
            "/usr/share/fonts/liberation/LiberationSans-Regular.ttf",
            "/usr/share/fonts/truetype/liberation/LiberationSans-Regular.ttf",
            "/usr/share/fonts/gnu-free/FreeSans.ttf",
            "/usr/share/fonts/Adwaita/AdwaitaSans-Regular.ttf",
            "/usr/share/fonts/cantarell/Cantarell-Regular.otf",
            "/usr/share/fonts/google-noto/NotoSans-Regular.ttf",
            "/run/host/fonts/NotoSans-Regular.ttf",
        ],
        FontPlatform::MacOs => seq![
            "/System/Library/Fonts/SFNS.ttf",
            "/System/Library/Fonts/Helvetica.ttc",
            "/System/Library/Fonts/Geneva.ttf",
            "/System/Library/Fonts/Supplemental/Arial.ttf",
            "/Library/Fonts/Arial.ttf",
        ],
        FontPlatform::Windows => seq![
            "C:\\Windows\\Fonts\\segoeui.ttf",
            "C:\\Windows\\Fonts\\tahoma.ttf",
            "C:\\Windows\\Fonts\\arial.ttf",
            "C:\\Windows\\Fonts\\verdana.ttf",
        ],
        FontPlatform::Other => seq!["/usr/share/fonts/TTF/DejaVuSans.ttf"],
    }
}

/// The directories each platform sweeps, in order.
pub open spec fn sweep_dirs_spec(platform: FontPlatform) -> Seq<&'static str> {
    match platform {
        FontPlatform::Linux => seq!["/usr/share/fonts", "/usr/local/share/fonts", "/run/host/fonts"],
        FontPlatform::MacOs => seq!["/System/Library/Fonts", "/Library/Fonts"],
        FontPlatform::Windows => seq!["C:\\Windows\\Fonts"],
        FontPlatform::Other => seq!["/usr/share/fonts"],
    }
}

/// Faces to try, in order. Deliberately boring, always-present families.
pub fn candidates(platform: FontPlatform) -> (r: Vec<&'static str>)
    ensures
        r@ == candidates_spec(platform),
{
    let mut r: Vec<&'static str> = Vec::new();
    match platform {
        FontPlatform::Linux => {
            r.push("/usr/share/fonts/noto/NotoSans-Regular.ttf");
            r.push("/usr/share/fonts/TTF/DejaVuSans.ttf");
            r.push("/usr/share/fonts/dejavu/DejaVuSans.ttf");
            r.push("/usr/share/fonts/truetype/dejavu/DejaVuSans.ttf");
            r.push("/usr/share/fonts/liberation/LiberationSans-Regular.ttf");
            r.push("/usr/share/fonts/truetype/liberation/LiberationSans-Regular.ttf");
            r.push("/usr/share/fonts/gnu-free/FreeSans.ttf");
            r.push("/usr/share/fonts/Adwaita/AdwaitaSans-Regular.ttf");
            r.push("/usr/share/fonts/cantarell/Cantarell-Regular.otf");
            r.push("/usr/share/fonts/google-noto/NotoSans-Regular.ttf");
            // Flatpak exposes the host's fonts here.
            r.push("/run/host/fonts/NotoSans-Regular.ttf");
        },
        FontPlatform::MacOs => {
            r.push("/System/Library/Fonts/SFNS.ttf");
            r.push("/System/Library/Fonts/Helvetica.ttc");
            r.push("/System/Library/Fonts/Geneva.ttf");
            r.push("/System/Library/Fonts/Supplemental/Arial.ttf");
            r.push("/Library/Fonts/Arial.ttf");
        },
        FontPlatform::Windows => {
            r.push("C:\\Windows\\Fonts\\segoeui.ttf");
            r.push("C:\\Windows\\Fonts\\tahoma.ttf");
            r.push("C:\\Windows\\Fonts\\arial.ttf");
            r.push("C:\\Windows\\Fonts\\verdana.ttf");
        },
        FontPlatform::Other => {
            r.push("/usr/share/fonts/TTF/DejaVuSans.ttf");
        },
    }
    r
}

/// Directories to sweep if no known path matched.
pub fn sweep_dirs(platform: FontPlatform) -> (r: Vec<&'static str>)
    ensures
        r@ == sweep_dirs_spec(platform),
{
    let mut r: Vec<&'static str> = Vec::new();
    match platform {
        FontPlatform::Linux => {
            r.push("/usr/share/fonts");
            r.push("/usr/local/share/fonts");
            r.push("/run/host/fonts");
        },
        FontPlatform::MacOs => {
            r.push("/System/Library/Fonts");
            r.push("/Library/Fonts");
        },
        FontPlatform::Windows => {
            r.push("C:\\Windows\\Fonts");
        },
        FontPlatform::Other => {
            r.push("/usr/share/fonts");
        },
    }
    r
}

/// `c` with an ASCII capital made small.
pub open spec fn lower(c: char) -> char {
    if 'A' <= c <= 'Z' {
        ((c as u32) + 32) as char
    } else {
        c
    }
}

pub open spec fn lowered(t: Seq<char>) -> Seq<char> {
    t.map_values(|c: char| lower(c))
}

pub open spec fn contains_word(t: Seq<char>, w: Seq<char>) -> bool {
    first_occurrence(t, w, 0) >= 0
}

/// A file is a font the menu can use: its extension is ttf, otf or ttc in
/// any case, and its name, in any case, says nothing of italic, bold or mono
/// so the menu does not come out slanted, heavy or typewritten.
///
/// Lower-casing maps no letter but the ASCII capitals onto the letters of
/// these words one for one, so ASCII lower-casing decides this exactly as
/// full Unicode lower-casing would.
pub open spec fn menu_face_spec(ext: Seq<char>, name: Seq<char>) -> bool {
    let e = lowered(ext);
    let n = lowered(name);
    &&& (e == "ttf"@ || e == "otf"@ || e == "ttc"@)
    &&& !contains_word(n, "italic"@)
    &&& !contains_word(n, "bold"@)
    &&& !contains_word(n, "mono"@)
}

fn lower_chars(s: &str) -> (r: Vec<char>)
    ensures
        r@ == lowered(s@),
{
    let cs = chars_of(s);
    let mut r: Vec<char> = Vec::new();
    let mut i: usize = 0;
    while i < cs.len()
        invariant
            i <= cs@.len(),
            cs@ == s@,
            r@ == lowered(cs@.take(i as int)),
        decreases cs@.len() - i,
    {
        let c = cs[i];
        let l = if 'A' <= c && c <= 'Z' {
            ((c as u32) + 32) as u8 as char
        } else {
            c
        };
        assert(l == lower(c)) by {
            if 'A' <= c && c <= 'Z' {
                assert((c as u32) + 32 < 128);
            }
        }
        r.push(l);
        assert(cs@.take(i + 1) =~= cs@.take(i as int).push(c));
        assert(lowered(cs@.take(i + 1)) =~= lowered(cs@.take(i as int)).push(lower(c)));
        i += 1;
    }
    assert(cs@.take(cs@.len() as int) =~= cs@);
    r
}

fn has_word(t: &Vec<char>, w: &str) -> (r: bool)
    ensures
        r == contains_word(t@, w@),
{
    let wc = chars_of(w);
    if wc.len() == 0 {
        assert(t@.subrange(0, 0) =~= wc@);
        return true;
    }
    let tl = t.len();
    let mut i: usize = 0;
    while i <= t.len() && wc.len() <= t.len() - i
        invariant
            tl == t@.len(),
            wc@ == w@,
            wc@.len() >= 1,
            first_occurrence(t@, w@, 0) == first_occurrence(t@, w@, i as int),
        decreases t@.len() + 1 - i,
    {
        let mut k: usize = 0;
        let mut hit = true;
        while k < wc.len()
            invariant
                k <= wc@.len(),
                tl == t@.len(),
                i + wc@.len() <= t@.len(),
                hit ==> forall|m: int| 0 <= m < k ==> t@[i + m] == wc@[m],
                !hit ==> !(t@.subrange(i as int, i + wc@.len()) == wc@),
            decreases wc@.len() - k,
        {
            if hit && t[i + k] != wc[k] {
                assert(t@.subrange(i as int, i + wc@.len())[k as int] != wc@[k as int]);
                hit = false;
            }
            k += 1;
        }
        if hit {
            assert(t@.subrange(i as int, i + wc@.len()) =~= wc@);
            return true;
        }
        i += 1;
    }
    false
}

/// Whether a font file with extension `ext` and file name `name` suits the
/// menu.
pub fn is_menu_face(ext: &str, name: &str) -> (r: bool)
    ensures
        r == menu_face_spec(ext@, name@),
{
    let e = lower_chars(ext);
    let ttf = chars_of("ttf");
    let otf = chars_of("otf");
    let ttc = chars_of("ttc");
    if !(same_chars(&e, &ttf) || same_chars(&e, &otf) || same_chars(&e, &ttc)) {
        return false;
    }
    let n = lower_chars(name);
    !(has_word(&n, "italic") || has_word(&n, "bold") || has_word(&n, "mono"))
}

} // verus!
