//! The parts of the HTML preview that hold no geometry: CSS keywords for the
//! designer's settings, the keyframes of each animation, asset names and
//! encodings, and the storyboard the preview plays.
use vstd::prelude::*;

use crate::model::{effective_type_of, Animation, Storyboard};
use crate::paths::{file_name, file_name_of};
use crate::text::{
    eq_ignore_ascii_case, lower_seq, owned, replace_char, replace_seq, same_ignoring_case, str_eq,
    to_ascii_lowercase, trim, trim_seq,
};
use crate::warn::Warning;
use crate::write::escaped_attr;
use crate::OutputAsset;

verus! {

/// A rendered title: the HTML, the files to write beside it, and the
/// warnings of rendering.
#[derive(Debug)]
pub struct Rendered {
    pub html: String,
    pub assets: Vec<OutputAsset>,
    pub warnings: Vec<Warning>,
}

/// `html_escape::encode_double_quoted_attribute`: `&`, `<`, `>` and `"`
/// written as entities.
#[verifier::external_body]
fn encode_attribute(value: &str) -> (res: String)
    ensures
        res@ == escaped_attr(value@),
{
    html_escape::encode_double_quoted_attribute(value).into_owned()
}

/// Text made safe inside a double-quoted HTML attribute.
pub fn html_attr(value: &str) -> (res: String)
    ensures
        res@ == escaped_attr(value@),
{
    encode_attribute(value)
}

/// Text with outer white space removed and ASCII letters lowered.
pub open spec fn normal(s: Seq<char>) -> Seq<char> {
    lower_seq(trim_seq(s))
}

fn normalize(value: &str) -> (res: String)
    ensures
        res@ == normal(value@),
{
    to_ascii_lowercase(trim(value))
}

pub open spec fn normal_opt(raw: Option<Seq<char>>) -> Option<Seq<char>> {
    match raw {
        Some(r) => Some(normal(r)),
        None => None,
    }
}

pub open spec fn opt_view(raw: Option<&str>) -> Option<Seq<char>> {
    match raw {
        Some(r) => Some(r@),
        None => None,
    }
}

/// The CSS timing function of an interpolation name. GT's cubic names are
/// inverted: `CubicEasingIn` decelerates and `CubicEasingOut` accelerates.
pub open spec fn timing_of(raw: Option<Seq<char>>) -> Seq<char> {
    match normal_opt(raw) {
        Some(n) => if n == "line"@ || n == "linear"@ {
            "linear"@
        } else if n == "cubiceasingin"@ {
            "cubic-bezier(0,0,0.58,1)"@
        } else if n == "cubiceasingout"@ {
            "cubic-bezier(0.42,0,1,1)"@
        } else if n == "cubiceasinginout"@ {
            "cubic-bezier(0.42,0,0.58,1)"@
        } else if n == "bouncein"@ || n == "bounceout"@ {
            "cubic-bezier(0.215,0.61,0.355,1)"@
        } else {
            "ease"@
        },
        None => "ease"@,
    }
}

/// The CSS timing function of an interpolation (see `timing_of`).
pub fn interpolation_css(raw: Option<&str>, kind: &str) -> (res: String)
    ensures
        res@ == timing_of(opt_view(raw)),
{
    let n = match raw {
        Some(r) => normalize(r),
        None => return owned("ease"),
    };
    let s = n.as_str();
    if str_eq(s, "line") || str_eq(s, "linear") {
        owned("linear")
    } else if str_eq(s, "cubiceasingin") {
        owned("cubic-bezier(0,0,0.58,1)")
    } else if str_eq(s, "cubiceasingout") {
        owned("cubic-bezier(0.42,0,1,1)")
    } else if str_eq(s, "cubiceasinginout") {
        owned("cubic-bezier(0.42,0,0.58,1)")
    } else if str_eq(s, "bouncein") || str_eq(s, "bounceout") {
        owned("cubic-bezier(0.215,0.61,0.355,1)")
    } else {
        owned("ease")
    }
}

/// The CSS that fits an image to its box for a size mode; a missing mode
/// is `Centered`.
pub open spec fn fit_of(mode: Option<Seq<char>>) -> Seq<char> {
    match normal_opt(mode) {
        Some(n) => if n == "stretch"@ || n == "fill"@ {
            "object-fit:fill;"@
        } else if n == "normal"@ {
            "object-fit:none;object-position:0 0;"@
        } else if n == "centered"@ || n == "center"@ {
            "object-fit:contain;object-position:center;"@
        } else {
            "object-fit:contain;object-position:0 0;"@
        },
        None => "object-fit:contain;object-position:center;"@,
    }
}

/// The image-fitting CSS of a size mode (see `fit_of`).
pub fn size_mode_css(mode: Option<&str>) -> (res: String)
    ensures
        res@ == fit_of(opt_view(mode)),
{
    let n = match mode {
        Some(m) => normalize(m),
        None => return owned("object-fit:contain;object-position:center;"),
    };
    let s = n.as_str();
    if str_eq(s, "stretch") || str_eq(s, "fill") {
        owned("object-fit:fill;")
    } else if str_eq(s, "normal") {
        owned("object-fit:none;object-position:0 0;")
    } else if str_eq(s, "centered") || str_eq(s, "center") {
        owned("object-fit:contain;object-position:center;")
    } else {
        owned("object-fit:contain;object-position:0 0;")
    }
}

/// The CSS `font-weight` of a designer weight name; an unknown name is kept,
/// normalised.
pub open spec fn weight_of(w: Seq<char>) -> Seq<char> {
    let n = normal(w);
    if n == "bold"@ {
        "700"@
    } else if n == "regular"@ || n == "normal"@ {
        "400"@
    } else if n == "light"@ {
        "300"@
    } else if n == "semibold"@ || n == "semi-bold"@ || n == "demibold"@ {
        "600"@
    } else {
        n
    }
}

/// The CSS font weight of a weight name (see `weight_of`).
pub fn map_weight(weight: &str) -> (res: String)
    ensures
        res@ == weight_of(weight@),
{
    let n = normalize(weight);
    let s = n.as_str();
    if str_eq(s, "bold") {
        owned("700")
    } else if str_eq(s, "regular") || str_eq(s, "normal") {
        owned("400")
    } else if str_eq(s, "light") {
        owned("300")
    } else if str_eq(s, "semibold") || str_eq(s, "semi-bold") || str_eq(s, "demibold") {
        owned("600")
    } else {
        n
    }
}

/// The CSS `font-stretch` of a designer stretch name: the name, normalised.
pub fn map_stretch(stretch: &str) -> (res: String)
    ensures
        res@ == normal(stretch@),
{
    let n = normalize(stretch);
    if str_eq(n.as_str(), "condensed") {
        owned("condensed")
    } else if str_eq(n.as_str(), "expanded") {
        owned("expanded")
    } else {
        n
    }
}

/// The SVG `spreadMethod` of a gradient's wrap mode.
pub open spec fn spread_of(wrap: Option<Seq<char>>) -> Seq<char> {
    match normal_opt(wrap) {
        Some(n) => if n == "wrap"@ || n == "repeat"@ {
            "repeat"@
        } else if n == "clamp"@ || n == "pad"@ {
            "pad"@
        } else {
            "reflect"@
        },
        None => "reflect"@,
    }
}

/// The SVG spread method of a wrap mode (see `spread_of`).
pub fn spread(wrap: Option<&str>) -> (res: &'static str)
    ensures
        res@ == spread_of(opt_view(wrap)),
{
    let n = match wrap {
        Some(w) => normalize(w),
        None => return "reflect",
    };
    let s = n.as_str();
    if str_eq(s, "wrap") || str_eq(s, "repeat") {
        "repeat"
    } else if str_eq(s, "clamp") || str_eq(s, "pad") {
        "pad"
    } else {
        "reflect"
    }
}

/// ASCII letters and digits kept, anything else as `-`.
pub open spec fn id_char(c: char) -> char {
    if ('a' <= c <= 'z') || ('A' <= c <= 'Z') || ('0' <= c <= '9') {
        c
    } else {
        '-'
    }
}

/// A name made into an HTML id (see `id_char`).
pub fn sanitize_id(name: &str) -> (res: String)
    ensures
        res@ == name@.map_values(|c: char| id_char(c)),
{
    let cs = crate::text::chars_of(name);
    let mut out: Vec<char> = Vec::new();
    let n = cs.len();
    let mut i: usize = 0;
    while i < n
        invariant
            cs@ == name@,
            n == cs@.len(),
            i <= n,
            out@ == name@.take(i as int).map_values(|c: char| id_char(c)),
        decreases n - i,
    {
        let c = cs[i];
        let d = if ('a' <= c && c <= 'z') || ('A' <= c && c <= 'Z') || ('0' <= c && c <= '9') {
            c
        } else {
            '-'
        };
        out.push(d);
        proof {
            assert(out@ =~= name@.take(i + 1).map_values(|c: char| id_char(c)));
        }
        i = i + 1;
    }
    proof {
        assert(name@.take(n as int) =~= name@);
    }
    crate::text::string_from_chars(out.as_slice())
}

/// Characters that cannot stand in a file name, written as `_`.
pub open spec fn safe_char(c: char) -> char {
    if c == '\\' || c == '/' || c == ':' || c == '*' || c == '?' || c == '"' || c == '<' || c == '>'
        || c == '|' {
        '_'
    } else {
        c
    }
}

/// Whether a file name has an extension: a `.` after its first character.
pub open spec fn has_extension(name: Seq<char>) -> bool {
    file_name(name) matches Some(f) && has_inner_dot(f)
}

/// A `.` after the first character.
pub open spec fn has_inner_dot(f: Seq<char>) -> bool {
    exists|i: int| 0 < i < f.len() && f[i] == '.'
}

/// The file name under which an asset is written: the source's file name
/// (or the source) with unsafe characters as `_`, and `ext` added when it
/// has no extension.
pub open spec fn asset_name(source: Seq<char>, ext: Seq<char>) -> Seq<char> {
    let base = match file_name(source) {
        Some(f) => f,
        None => source,
    };
    let name = base.map_values(|c: char| safe_char(c));
    let full = if has_extension(name) {
        name
    } else {
        name + "."@ + ext
    };
    if full.len() == 0 {
        "asset."@ + ext
    } else {
        full
    }
}

fn has_dot_after_first(cs: &Vec<char>) -> (res: bool)
    ensures
        res == exists|i: int| 0 < i < cs@.len() && cs@[i] == '.',
{
    let n = cs.len();
    let mut i: usize = 1;
    while i < n
        invariant
            n == cs@.len(),
            1 <= i,
            forall|j: int| 0 < j < i && j < n ==> cs@[j] != '.',
        decreases n - i,
    {
        if cs[i] == '.' {
            return true;
        }
        i = i + 1;
    }
    false
}

/// The file name of an asset (see `asset_name`).
pub fn asset_file_name(source: &str, ext: &str) -> (res: String)
    ensures
        res@ == asset_name(source@, ext@),
{
    let base = match file_name_of(source) {
        Some(f) => f,
        None => owned(source),
    };
    let cs = crate::text::chars_of(base.as_str());
    let mut out: Vec<char> = Vec::new();
    let n = cs.len();
    let mut i: usize = 0;
    while i < n
        invariant
            n == cs@.len(),
            i <= n,
            out@ == cs@.take(i as int).map_values(|c: char| safe_char(c)),
        decreases n - i,
    {
        let c = cs[i];
        let d = if c == '\\' || c == '/' || c == ':' || c == '*' || c == '?' || c == '"' || c == '<'
            || c == '>' || c == '|' {
            '_'
        } else {
            c
        };
        out.push(d);
        proof {
            assert(out@ =~= cs@.take(i + 1).map_values(|c: char| safe_char(c)));
        }
        i = i + 1;
    }
    proof {
        assert(cs@.take(n as int) =~= cs@);
    }
    let name = crate::text::string_from_chars(out.as_slice());
    let has_ext = match file_name_of(name.as_str()) {
        Some(f) => {
            let fc = crate::text::chars_of(f.as_str());
            let r = has_dot_after_first(&fc);
            proof {
                assert(fc@ == f@);
                assert(file_name(name@) == Some(f@));
                if r {
                    let i = choose|i: int| 0 < i < fc@.len() && fc@[i] == '.';
                    assert(0 < i < f@.len() && f@[i] == '.');
                    let g = file_name(name@)->0;
                    assert(g == f@);
                    assert(0 < i < g.len() && g[i] == '.');
                    assert(has_extension(name@));
                } else {
                    assert forall|i: int| 0 < i < f@.len() implies f@[i] != '.' by {
                        assert(fc@[i] == f@[i]);
                    }
                    assert(!has_extension(name@));
                }
            }
            r
        },
        None => false,
    };
    proof {
        assert(cs@ == base@);
        assert(name@ == base@.map_values(|c: char| safe_char(c)));
        assert(has_ext == has_extension(name@));
    }
    let full = if has_ext {
        name
    } else {
        name.concat(".").concat(ext)
    };
    if full.as_str().is_empty() {
        owned("asset.").concat(ext)
    } else {
        full
    }
}

/// The storyboard whose type, normalised, is the one asked for.
pub open spec fn selects(sb: Storyboard, wanted: Seq<char>) -> bool {
    normal(effective_type_of(sb.storyboard_type)) == normal(wanted)
}

/// The first storyboard of the asked-for type, by index.
pub fn select_storyboard(storyboards: &Vec<Storyboard>, options: &crate::ConvertOptions) -> (res: Option<usize>)
    ensures
        match res {
            Some(i) => i < storyboards@.len() && selects(storyboards@[i as int], options.storyboard@)
                && forall|j: int| 0 <= j < i ==> !selects(#[trigger] storyboards@[j], options.storyboard@),
            None => forall|j: int| 0 <= j < storyboards@.len() ==> !selects(#[trigger] storyboards@[j], options.storyboard@),
        },
{
    let wanted = normalize(options.storyboard.as_str());
    let n = storyboards.len();
    let mut i: usize = 0;
    while i < n
        invariant
            n == storyboards@.len(),
            i <= n,
            wanted@ == normal(options.storyboard@),
            forall|j: int| 0 <= j < i ==> !selects(#[trigger] storyboards@[j], options.storyboard@),
        decreases n - i,
    {
        if str_eq(normalize(storyboards[i].effective_type()).as_str(), wanted.as_str()) {
            return Some(i);
        }
        i = i + 1;
    }
    None
}

/// The base64 digit of a 6-bit value.
pub open spec fn b64_digit(i: int) -> char {
    if i < 26 {
        (65 + i) as char
    } else if i < 52 {
        (97 + i - 26) as char
    } else if i < 62 {
        (48 + i - 52) as char
    } else if i == 62 {
        '+'
    } else {
        '/'
    }
}

/// The four digits of one group of three bytes.
pub open spec fn b64_group(b0: int, b1: int, b2: int) -> Seq<char> {
    let n = b0 * 65536 + b1 * 256 + b2;
    seq![b64_digit(n / 262144), b64_digit((n / 4096) % 64), b64_digit((n / 64) % 64), b64_digit(n % 64)]
}

/// The digits of the first `k` whole groups.
pub open spec fn b64_groups(data: Seq<u8>, k: int) -> Seq<char>
    decreases k,
{
    if k <= 0 {
        Seq::empty()
    } else {
        b64_groups(data, k - 1) + b64_group(
            data[3 * (k - 1)] as int,
            data[3 * (k - 1) + 1] as int,
            data[3 * (k - 1) + 2] as int,
        )
    }
}

/// Standard base64 with `=` padding.
pub open spec fn base64(data: Seq<u8>) -> Seq<char> {
    let k: int = (data.len() / 3) as int;
    let r: int = (data.len() % 3) as int;
    b64_groups(data, k) + if r == 0 {
        Seq::empty()
    } else if r == 1 {
        b64_group(data[3 * k] as int, 0, 0).take(2) + seq!['=', '=']
    } else {
        b64_group(data[3 * k] as int, data[3 * k + 1] as int, 0).take(3) + seq!['=']
    }
}

fn b64_char(i: u32) -> (c: char)
    requires
        i < 64,
    ensures
        c == b64_digit(i as int),
{
    if i < 26 {
        ((65 + i) as u8) as char
    } else if i < 52 {
        ((97 + i - 26) as u8) as char
    } else if i < 62 {
        ((48 + i - 52) as u8) as char
    } else if i == 62 {
        '+'
    } else {
        '/'
    }
}

/// Bytes written as standard base64 with `=` padding, for data URIs.
pub fn base64_encode(data: &[u8]) -> (res: String)
    ensures
        res@ == base64(data@),
{
    let len = data.len();
    let groups = len / 3;
    let mut out: Vec<char> = Vec::new();
    let mut k: usize = 0;
    while k < groups
        invariant
            len == data@.len(),
            groups == len / 3,
            k <= groups,
            out@ == b64_groups(data@, k as int),
        decreases groups - k,
    {
        let b0 = data[3 * k] as u32;
        let b1 = data[3 * k + 1] as u32;
        let b2 = data[3 * k + 2] as u32;
        let n: u32 = b0 * 65536 + b1 * 256 + b2;
        out.push(b64_char(n / 262144));
        out.push(b64_char((n / 4096) % 64));
        out.push(b64_char((n / 64) % 64));
        out.push(b64_char(n % 64));
        proof {
            assert(out@ =~= b64_groups(data@, k + 1));
        }
        k = k + 1;
    }
    let r = len % 3;
    if r == 1 {
        let n: u32 = (data[3 * groups] as u32) * 65536;
        out.push(b64_char(n / 262144));
        out.push(b64_char((n / 4096) % 64));
        out.push('=');
        out.push('=');
    } else if r == 2 {
        let n: u32 = (data[3 * groups] as u32) * 65536 + (data[3 * groups + 1] as u32) * 256;
        out.push(b64_char(n / 262144));
        out.push(b64_char((n / 4096) % 64));
        out.push(b64_char((n / 64) % 64));
        out.push('=');
    }
    proof {
        assert(out@ =~= base64(data@));
    }
    crate::text::string_from_chars(out.as_slice())
}

/// The keyframes that play an animation in the preview, by its kind,
/// direction and axis; `None` for kinds the preview does not animate.
pub open spec fn keyframes_of(a: Animation) -> Option<Seq<char>> {
    let k = a.kind@;
    let dir = match a.direction {
        Some(d) => Some(normal(d@)),
        None => None,
    };
    if k == "Fade"@ {
        Some(
            if a.reversed {
                "gt-fade-out"@
            } else {
                "gt-fade-in"@
            },
        )
    } else if k == "Reveal"@ || k == "Wipe"@ {
        Some(
            if dir == Some("right"@) {
                "gt-reveal-right"@
            } else if dir == Some("top"@) {
                "gt-reveal-top"@
            } else if dir == Some("bottom"@) {
                "gt-reveal-bottom"@
            } else if dir == Some("center"@) {
                if a.center_axis matches Some(ax) && same_ignoring_case(ax@, "Y"@) {
                    "gt-reveal-center-y"@
                } else {
                    "gt-reveal-center-x"@
                }
            } else {
                "gt-reveal-left"@
            },
        )
    } else if k == "Fly"@ || k == "Move"@ {
        Some(
            if dir == Some("right"@) {
                "gt-fly-right"@
            } else if dir == Some("top"@) {
                "gt-fly-top"@
            } else if dir == Some("left"@) {
                "gt-fly-left"@
            } else {
                "gt-fly-bottom"@
            },
        )
    } else if k == "ZoomFade"@ || k == "Zoom"@ {
        Some("gt-zoomfade-in"@)
    } else if k == "Scale"@ {
        Some("gt-scale-in"@)
    } else if k == "Rotate"@ || k == "Spin"@ {
        Some("gt-spin"@)
    } else if k == "Flip"@ {
        Some("gt-reveal-center-x"@)
    } else {
        None
    }
}

fn dir_is(dir: &Option<String>, want: &str) -> (r: bool)
    ensures
        r == (match dir {
            Some(d) => d@ == want@,
            None => false,
        }),
{
    match dir {
        Some(d) => str_eq(d.as_str(), want),
        None => false,
    }
}

/// The keyframes of an animation (see `keyframes_of`).
pub fn animation_keyframes(a: &Animation) -> (res: Option<&'static str>)
    ensures
        match res {
            Some(n) => keyframes_of(*a) == Some(n@),
            None => keyframes_of(*a) is None,
        },
{
    let k = a.kind.as_str();
    let dir: Option<String> = match &a.direction {
        Some(d) => Some(normalize(d.as_str())),
        None => None,
    };
    if str_eq(k, "Fade") {
        Some(
            if a.reversed {
                "gt-fade-out"
            } else {
                "gt-fade-in"
            },
        )
    } else if str_eq(k, "Reveal") || str_eq(k, "Wipe") {
        Some(
            if dir_is(&dir, "right") {
                "gt-reveal-right"
            } else if dir_is(&dir, "top") {
                "gt-reveal-top"
            } else if dir_is(&dir, "bottom") {
                "gt-reveal-bottom"
            } else if dir_is(&dir, "center") {
                let y = match &a.center_axis {
                    Some(ax) => eq_ignore_ascii_case(ax.as_str(), "Y"),
                    None => false,
                };
                if y {
                    "gt-reveal-center-y"
                } else {
                    "gt-reveal-center-x"
                }
            } else {
                "gt-reveal-left"
            },
        )
    } else if str_eq(k, "Fly") || str_eq(k, "Move") {
        Some(
            if dir_is(&dir, "right") {
                "gt-fly-right"
            } else if dir_is(&dir, "top") {
                "gt-fly-top"
            } else if dir_is(&dir, "left") {
                "gt-fly-left"
            } else {
                "gt-fly-bottom"
            },
        )
    } else if str_eq(k, "ZoomFade") || str_eq(k, "Zoom") {
        Some("gt-zoomfade-in")
    } else if str_eq(k, "Scale") {
        Some("gt-scale-in")
    } else if str_eq(k, "Rotate") || str_eq(k, "Spin") {
        Some("gt-spin")
    } else if str_eq(k, "Flip") {
        Some("gt-reveal-center-x")
    } else {
        None
    }
}

/// The parts of an animation's CSS that do not depend on its timing
/// numbers: keyframes, timing function, iteration count and direction.
#[derive(Debug, Clone)]
pub struct AnimationCss {
    pub keyframes: &'static str,
    pub timing: String,
    pub iterate: &'static str,
    pub direction: &'static str,
}

/// The CSS parts of an animation: its keyframes and timing function; it
/// repeats forever in a continuous storyboard; a reversed animation plays
/// backwards unless its keyframes are a fade, which has both directions.
pub fn animation_css_parts(a: &Animation, continuous: bool) -> (res: Option<AnimationCss>)
    ensures
        match res {
            Some(p) => {
                &&& keyframes_of(*a) == Some(p.keyframes@)
                &&& p.timing@ == timing_of(
                    match a.interpolation {
                        Some(i) => Some(i@),
                        None => None,
                    },
                )
                &&& p.iterate@ == if continuous {
                    "infinite"@
                } else {
                    "1"@
                }
                &&& p.direction@ == if a.reversed && p.keyframes@ != "gt-fade-out"@ && p.keyframes@
                    != "gt-fade-in"@ {
                    "reverse"@
                } else {
                    "normal"@
                }
            },
            None => keyframes_of(*a) is None,
        },
{
    let keyframes = match animation_keyframes(a) {
        Some(k) => k,
        None => return None,
    };
    let interp: Option<&str> = match &a.interpolation {
        Some(i) => Some(i.as_str()),
        None => None,
    };
    let timing = interpolation_css(interp, a.kind.as_str());
    let baked = str_eq(keyframes, "gt-fade-out") || str_eq(keyframes, "gt-fade-in");
    let direction = if a.reversed && !baked {
        "reverse"
    } else {
        "normal"
    };
    let iterate = if continuous {
        "infinite"
    } else {
        "1"
    };
    Some(AnimationCss { keyframes, timing, iterate, direction })
}

/// The keyframes a ticker scrolls with, from its direction (`Left` when
/// none).
pub open spec fn ticker_keyframes_of(direction: Option<Seq<char>>) -> &'static str {
    let n = normal(
        match direction {
            Some(d) => d,
            None => "Left"@,
        },
    );
    if n == "right"@ {
        "gt-ticker-right"
    } else if n == "top"@ {
        "gt-ticker-top"
    } else if n == "bottom"@ {
        "gt-ticker-bottom"
    } else {
        "gt-ticker-left"
    }
}

/// The keyframes a ticker scrolls with (see `ticker_keyframes_of`).
pub fn ticker_keyframes(direction: Option<&str>) -> (res: &'static str)
    ensures
        res == ticker_keyframes_of(opt_view(direction)),
{
    let n = normalize(
        match direction {
            Some(d) => d,
            None => "Left",
        },
    );
    let s = n.as_str();
    if str_eq(s, "right") {
        "gt-ticker-right"
    } else if str_eq(s, "top") {
        "gt-ticker-top"
    } else if str_eq(s, "bottom") {
        "gt-ticker-bottom"
    } else {
        "gt-ticker-left"
    }
}

/// The blend CSS of a compositing mode: additive adds light, replace
/// isolates; any other mode adds nothing.
pub open spec fn compositing_of(mode: Seq<char>) -> &'static str {
    let n = normal(mode);
    if n == "additive"@ {
        "mix-blend-mode:plus-lighter;"
    } else if n == "replace"@ {
        "isolation:isolate;mix-blend-mode:normal;"
    } else {
        ""
    }
}

/// The blend CSS of a compositing mode (see `compositing_of`).
pub fn compositing_css(mode: &str) -> (res: &'static str)
    ensures
        res == compositing_of(mode@),
{
    let n = normalize(mode);
    if str_eq(n.as_str(), "additive") {
        "mix-blend-mode:plus-lighter;"
    } else if str_eq(n.as_str(), "replace") {
        "isolation:isolate;mix-blend-mode:normal;"
    } else {
        ""
    }
}

/// The flex alignments of a text box: horizontal from its text alignment,
/// vertical from its vertical alignment, each at the start unless centred
/// or at the far end.
pub open spec fn flex_of(raw: Option<Seq<char>>, far: Seq<char>) -> &'static str {
    match normal_opt(raw) {
        Some(n) => if n == "center"@ {
            "center"
        } else if n == far {
            "flex-end"
        } else {
            "flex-start"
        },
        None => "flex-start",
    }
}

/// The CSS of a text box's alignment (see `flex_of`): `justify-content`
/// from `text_align` (`right` at the far end), `align-items` from
/// `vertical_align` (`bottom` at the far end).
pub fn text_alignment_css(text_align: Option<&str>, vertical_align: Option<&str>) -> (res: String)
    ensures
        res@ == "justify-content:"@ + flex_of(opt_view(text_align), "right"@)@ + ";align-items:"@
            + flex_of(opt_view(vertical_align), "bottom"@)@ + ";"@,
{
    let justify = flex(text_align, "right");
    let align = flex(vertical_align, "bottom");
    owned("justify-content:").concat(justify).concat(";align-items:").concat(align).concat(";")
}

fn flex(raw: Option<&str>, far: &str) -> (res: &'static str)
    ensures
        res == flex_of(opt_view(raw), far@),
{
    match raw {
        Some(r) => {
            let n = normalize(r);
            if str_eq(n.as_str(), "center") {
                "center"
            } else if str_eq(n.as_str(), far) {
                "flex-end"
            } else {
                "flex-start"
            }
        },
        None => "flex-start",
    }
}

/// White space is kept and wraps, unless wrapping is `nowrap` or `no-wrap`.
pub open spec fn white_space_of(wrapping: Option<Seq<char>>) -> &'static str {
    match normal_opt(wrapping) {
        Some(n) => if n == "nowrap"@ || n == "no-wrap"@ {
            "white-space:nowrap;"
        } else {
            "white-space:pre-wrap;"
        },
        None => "white-space:pre-wrap;",
    }
}

/// The white-space CSS of a wrapping mode (see `white_space_of`).
pub fn white_space_css(wrapping: Option<&str>) -> (res: &'static str)
    ensures
        res == white_space_of(opt_view(wrapping)),
{
    match wrapping {
        Some(w) => {
            let n = normalize(w);
            if str_eq(n.as_str(), "nowrap") || str_eq(n.as_str(), "no-wrap") {
                "white-space:nowrap;"
            } else {
                "white-space:pre-wrap;"
            }
        },
        None => "white-space:pre-wrap;",
    }
}

/// A picture fill in its original size or tiled is laid out in user space;
/// otherwise it is stretched over the shape's box.
pub open spec fn pattern_units_of(size_mode: Option<Seq<char>>) -> &'static str {
    match normal_opt(size_mode) {
        Some(n) => if n == "original"@ || n == "tile"@ {
            "userSpaceOnUse"
        } else {
            "objectBoundingBox"
        },
        None => "objectBoundingBox",
    }
}

/// The SVG pattern units of a picture fill (see `pattern_units_of`).
pub fn pattern_units(size_mode: Option<&str>) -> (res: &'static str)
    ensures
        res == pattern_units_of(opt_view(size_mode)),
{
    match size_mode {
        Some(m) => {
            let n = normalize(m);
            if str_eq(n.as_str(), "original") || str_eq(n.as_str(), "tile") {
                "userSpaceOnUse"
            } else {
                "objectBoundingBox"
            }
        },
        None => "objectBoundingBox",
    }
}

/// The CSS font family: the family without `"`, then the generic
/// sans-serif family.
pub open spec fn font_family_of(family: Option<Seq<char>>) -> Seq<char> {
    match family {
        Some(f) => "font-family:\""@ + replace_seq(f, '"', Seq::empty()) + "\",sans-serif;"@,
        None => "font-family:sans-serif;"@,
    }
}

/// The CSS font family of a text (see `font_family_of`).
pub fn font_family_css(family: Option<&str>) -> (res: String)
    ensures
        res@ == font_family_of(opt_view(family)),
{
    proof {
        reveal_strlit("");
        assert(""@ =~= Seq::<char>::empty());
    }
    match family {
        Some(f) => owned("font-family:\"").concat(replace_char(f, '"', "").as_str()).concat("\",sans-serif;"),
        None => owned("font-family:sans-serif;"),
    }
}

/// The CSS text decoration: underline, line-through, both, or none.
pub open spec fn decoration_of(underline: bool, strikethrough: bool) -> &'static str {
    if underline && strikethrough {
        "text-decoration:underline line-through;"
    } else if underline {
        "text-decoration:underline;"
    } else if strikethrough {
        "text-decoration:line-through;"
    } else {
        ""
    }
}

/// The CSS text decoration of a text (see `decoration_of`).
pub fn decoration_css(underline: bool, strikethrough: bool) -> (res: &'static str)
    ensures
        res == decoration_of(underline, strikethrough),
{
    if underline && strikethrough {
        "text-decoration:underline line-through;"
    } else if underline {
        "text-decoration:underline;"
    } else if strikethrough {
        "text-decoration:line-through;"
    } else {
        ""
    }
}

/// The normalised direction of an animation, if it has one.
pub open spec fn direction_of(a: Animation) -> Option<Seq<char>> {
    match a.direction {
        Some(d) => Some(normal(d@)),
        None => None,
    }
}

/// A `Fly` or `Move` animation plays the keyframes of its own direction:
/// `gt-fly-` and the direction when that is right, top or left, and
/// `gt-fly-bottom` otherwise.
pub proof fn lemma_fly_follows_direction(a: Animation)
    requires
        a.kind@ == "Fly"@ || a.kind@ == "Move"@,
    ensures
        (direction_of(a) matches Some(d) && (d == "right"@ || d == "top"@ || d == "left"@))
            ==> keyframes_of(a) == Some("gt-fly-"@ + direction_of(a)->0),
        !(direction_of(a) matches Some(d) && (d == "right"@ || d == "top"@ || d == "left"@))
            ==> keyframes_of(a) == Some("gt-fly-bottom"@),
{
    reveal_strlit("Fly");
    reveal_strlit("Move");
    reveal_strlit("Fade");
    reveal_strlit("Reveal");
    reveal_strlit("Wipe");
    reveal_strlit("gt-fly-");
    reveal_strlit("right");
    reveal_strlit("top");
    reveal_strlit("left");
    reveal_strlit("gt-fly-right");
    reveal_strlit("gt-fly-top");
    reveal_strlit("gt-fly-left");
    assert("gt-fly-"@ + "right"@ =~= "gt-fly-right"@);
    assert("gt-fly-"@ + "top"@ =~= "gt-fly-top"@);
    assert("gt-fly-"@ + "left"@ =~= "gt-fly-left"@);
    assert("Fly"@.len() == 3 && "Fade"@.len() == 4 && "Reveal"@.len() == 6 && "Wipe"@.len() == 4);
    assert("Move"@[0] != "Fade"@[0] && "Move"@[0] != "Wipe"@[0]);
    assert("Fly"@ != "Fade"@ && "Fly"@ != "Reveal"@ && "Fly"@ != "Wipe"@);
    assert("Move"@ != "Fade"@ && "Move"@ != "Reveal"@ && "Move"@ != "Wipe"@);
}

/// A `Reveal` or `Wipe` animation plays the keyframes of its own direction:
/// `gt-reveal-` and the direction when that is right, top or bottom, a
/// centre reveal across the axis it names, and `gt-reveal-left` otherwise.
pub proof fn lemma_reveal_follows_direction(a: Animation)
    requires
        a.kind@ == "Reveal"@ || a.kind@ == "Wipe"@,
    ensures
        (direction_of(a) matches Some(d) && (d == "right"@ || d == "top"@ || d == "bottom"@))
            ==> keyframes_of(a) == Some("gt-reveal-"@ + direction_of(a)->0),
        direction_of(a) == Some("center"@) ==> keyframes_of(a) == Some(
            if a.center_axis matches Some(ax) && same_ignoring_case(ax@, "Y"@) {
                "gt-reveal-center-y"@
            } else {
                "gt-reveal-center-x"@
            },
        ),
        !(direction_of(a) matches Some(d) && (d == "right"@ || d == "top"@ || d == "bottom"@ || d
            == "center"@)) ==> keyframes_of(a) == Some("gt-reveal-left"@),
{
    reveal_strlit("Reveal");
    reveal_strlit("Wipe");
    reveal_strlit("Fade");
    reveal_strlit("gt-reveal-");
    reveal_strlit("right");
    reveal_strlit("top");
    reveal_strlit("bottom");
    reveal_strlit("gt-reveal-right");
    reveal_strlit("gt-reveal-top");
    reveal_strlit("gt-reveal-bottom");
    assert("gt-reveal-"@ + "right"@ =~= "gt-reveal-right"@);
    assert("gt-reveal-"@ + "top"@ =~= "gt-reveal-top"@);
    assert("gt-reveal-"@ + "bottom"@ =~= "gt-reveal-bottom"@);
    reveal_strlit("center");
    assert("Reveal"@.len() == 6 && "Fade"@.len() == 4 && "Wipe"@[0] != "Fade"@[0]);
    assert("Reveal"@ != "Fade"@ && "Wipe"@ != "Fade"@);
    assert("center"@[0] != "right"@[0] && "center"@[0] != "top"@[0] && "center"@[0] != "bottom"@[0]);
    assert("center"@ != "right"@ && "center"@ != "top"@ && "center"@ != "bottom"@);
}

} // verus!
