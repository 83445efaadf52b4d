//! Names of package entries and image sources: their last path component and
//! the normal form under which sources are looked up.
use vstd::prelude::*;

use crate::text::{
    chars_of, eq_ignore_ascii_case, owned, lower_seq, replace_char, replace_seq, same_ignoring_case,
    string_from_chars, to_ascii_lowercase, trim, trim_seq,
};

verus! {

/// A path component that names a file: not empty, `.` or `..`.
pub open spec fn named(seg: Seq<char>) -> Option<Seq<char>> {
    if seg.len() == 0 || seg == seq!['.'] || seg == seq!['.', '.'] {
        None
    } else {
        Some(seg)
    }
}

/// The last component of `s + seg`, where `seg` holds no `/`: trailing
/// separators and `.` components are passed over, `..` names no file.
pub open spec fn final_name(s: Seq<char>, seg: Seq<char>) -> Option<Seq<char>>
    decreases s.len(),
{
    if s.len() == 0 {
        named(seg)
    } else if s.last() == '/' {
        if seg.len() == 0 || seg == seq!['.'] {
            final_name(s.drop_last(), Seq::empty())
        } else {
            named(seg)
        }
    } else {
        final_name(s.drop_last(), seq![s.last()] + seg)
    }
}

/// The file name of a `/`-separated path, as `Path::file_name` gives it.
pub open spec fn file_name(s: Seq<char>) -> Option<Seq<char>> {
    final_name(s, Seq::empty())
}

/// The file name of a `/`-separated path: its last component, passing over
/// trailing separators and `.` components; `None` when that component is
/// `..` or there is none.
pub fn file_name_of(path: &str) -> (res: Option<String>)
    ensures
        res is Some == file_name(path@) is Some,
        res matches Some(n) ==> file_name(path@) == Some(n@),
{
    let chars = chars_of(path);
    let n = chars.len();
    let mut end: usize = n;
    let mut j: usize = n;
    proof {
        assert(chars@.take(n as int) =~= chars@);
        assert(chars@.subrange(n as int, n as int) =~= Seq::<char>::empty());
    }
    while j > 0
        invariant
            chars@ == path@,
            n == chars@.len(),
            j <= end <= n,
            file_name(path@) == final_name(chars@.take(j as int), chars@.subrange(j as int, end as int)),
        decreases j,
    {
        let c = chars[j - 1];
        proof {
            assert(chars@.take(j as int).drop_last() =~= chars@.take(j - 1));
            assert(chars@.take(j as int).last() == c);
        }
        if c == '/' {
            let len = end - j;
            let dot = len == 1 && chars[j] == '.';
            if len == 0 || dot {
                proof {
                    if dot {
                        assert(chars@.subrange(j as int, end as int) =~= seq!['.']);
                    } else {
                        assert(chars@.subrange(j as int, end as int).len() == 0);
                    }
                    assert(chars@.subrange(j - 1, j - 1) =~= Seq::<char>::empty());
                }
                end = j - 1;
            } else {
                let dotdot = len == 2 && chars[j] == '.' && chars[j + 1] == '.';
                proof {
                    let seg = chars@.subrange(j as int, end as int);
                    if dotdot {
                        assert(seg =~= seq!['.', '.']);
                    } else {
                        if seg == seq!['.', '.'] {
                            assert(seg[0] == chars@[j as int]);
                        }
                    }
                    if seg == seq!['.'] {
                        assert(seg[0] == chars@[j as int]);
                    }
                }
                if dotdot {
                    return None;
                }
                return Some(string_from_chars(&chars.as_slice()[j..end]));
            }
        } else {
            proof {
                assert(seq![c] + chars@.subrange(j as int, end as int) =~= chars@.subrange(
                    j - 1,
                    end as int,
                ));
            }
        }
        j = j - 1;
    }
    proof {
        assert(chars@.take(0) =~= Seq::<char>::empty());
    }
    let len = end;
    let seg_is_dot = len == 1 && chars[0] == '.';
    let seg_is_dotdot = len == 2 && chars[0] == '.' && chars[1] == '.';
    proof {
        let seg = chars@.subrange(0, end as int);
        if seg_is_dot {
            assert(seg =~= seq!['.']);
        }
        if seg_is_dotdot {
            assert(seg =~= seq!['.', '.']);
        }
        if seg == seq!['.'] || seg == seq!['.', '.'] {
            assert(seg[0] == chars@[0]);
        }
        if seg == seq!['.', '.'] {
            assert(seg[1] == chars@[1]);
        }
    }
    if len == 0 || seg_is_dot || seg_is_dotdot {
        None
    } else {
        Some(string_from_chars(&chars.as_slice()[0..end]))
    }
}

/// Sources are compared with `/` read as `\`, outer white space removed and
/// ASCII case ignored.
pub open spec fn normalized(s: Seq<char>) -> Seq<char> {
    lower_seq(trim_seq(replace_seq(s, '/', seq!['\\'])))
}

/// The form under which an image source is looked up.
pub fn normalize_source(source: &str) -> (res: String)
    ensures
        res@ == normalized(source@),
{
    proof {
        reveal_strlit("\\");
        assert("\\"@ =~= seq!['\\']);
    }
    let replaced = replace_char(source, '/', "\\");
    to_ascii_lowercase(trim(replaced.as_str()))
}

/// Whether an entry's file name is `document.xml`, in any ASCII case.
pub open spec fn names_document(name: Seq<char>) -> bool {
    file_name(name) matches Some(f) && same_ignoring_case(f, "document.xml"@)
}

/// Whether a package entry is the title's `document.xml`.
pub fn is_document_xml(name: &str) -> (res: bool)
    ensures
        res == names_document(name@),
{
    match file_name_of(name) {
        Some(f) => eq_ignore_ascii_case(f.as_str(), "document.xml"),
        None => false,
    }
}

/// The index of the last `.` of a name, or -1 when it has none.
pub open spec fn last_dot(s: Seq<char>) -> int
    decreases s.len(),
{
    if s.len() == 0 {
        -1
    } else if s.last() == '.' {
        s.len() - 1
    } else {
        last_dot(s.drop_last())
    }
}

/// A file name without its extension, as `Path::file_stem` takes it: the
/// part before the last `.`, or the whole name when its only `.` is the
/// first character or it has none.
pub open spec fn stem(name: Seq<char>) -> Seq<char> {
    let k = last_dot(name);
    if k <= 0 {
        name
    } else {
        name.take(k)
    }
}

/// Where a conversion writes by default: the input's stem with `_html`, or
/// `gt-title_html` for a path that names no file.
pub open spec fn output_dir_name(path: Seq<char>) -> Seq<char> {
    match file_name(path) {
        Some(n) => stem(n) + "_html"@,
        None => "gt-title_html"@,
    }
}

/// The directory a conversion writes to when none is given (see
/// `output_dir_name`).
pub fn default_output_dir(input: &str) -> (res: String)
    ensures
        res@ == output_dir_name(input@),
{
    match file_name_of(input) {
        Some(name) => {
            let chars = chars_of(name.as_str());
            let n = chars.len();
            let mut j: usize = n;
            proof {
                assert(chars@.take(n as int) =~= chars@);
            }
            while j > 0 && chars[j - 1] != '.'
                invariant
                    chars@ == name@,
                    n == chars@.len(),
                    j <= n,
                    last_dot(name@) == last_dot(chars@.take(j as int)),
                decreases j,
            {
                proof {
                    assert(chars@.take(j as int).drop_last() =~= chars@.take(j - 1));
                }
                j = j - 1;
            }
            proof {
                if j == 0 {
                    assert(chars@.take(0).len() == 0);
                } else {
                    assert(chars@.take(j as int).last() == '.');
                }
            }
            let base = if j <= 1 {
                name
            } else {
                string_from_chars(&chars.as_slice()[0..j - 1])
            };
            proof {
                if j > 1 {
                    assert(chars@.subrange(0, j - 1) =~= name@.take(j - 1));
                }
            }
            base.concat("_html")
        },
        None => owned("gt-title_html"),
    }
}

} // verus!
