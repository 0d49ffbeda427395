use vstd::prelude::*;
use vstd::string::*;

verus! {

/// The final component of a path, as `std::path::Path::file_name` finds it.
pub uninterp spec fn file_name_of(path: Seq<char>) -> Option<Seq<char>>;

/// Relies on `std::path::Path::file_name`: the last component of the path, if
/// it is a normal one. A path made from a `&str` is valid UTF-8, so the
/// conversion back loses nothing.
#[verifier::external_body]
fn file_name(path: &str) -> (r: Option<String>)
    ensures
        file_name_of(path@) == opt_view(r),
{
    std::path::Path::new(path).file_name().map(|n| n.to_string_lossy().into_owned())
}

/// The views of an optional string.
pub open spec fn opt_view(o: Option<String>) -> Option<Seq<char>> {
    match o {
        Some(s) => Some(s@),
        None => None,
    }
}

/// The index of the last `.` in `s`, or -1 where there is none.
pub open spec fn last_dot(s: Seq<char>) -> int
    decreases s.len(),
{
    if s.len() == 0 {
        -1
    } else if s.last() == '.' {
        s.len() - 1
    } else {
        last_dot(s.drop_last())
    }
}

/// The extension of a file name: what follows its final `.`; none where the
/// name holds no `.` or only a leading one.
pub open spec fn name_extension(name: Seq<char>) -> Option<Seq<char>> {
    let d = last_dot(name);
    if d <= 0 {
        None
    } else {
        Some(name.subrange(d + 1, name.len() as int))
    }
}

/// The stem of a file name: what precedes its final `.`; the whole name where it
/// holds no `.` or only a leading one.
pub open spec fn name_stem(name: Seq<char>) -> Seq<char> {
    let d = last_dot(name);
    if d <= 0 {
        name
    } else {
        name.subrange(0, d)
    }
}

/// The extension of the file that `path` names.
pub open spec fn extension_of(path: Seq<char>) -> Option<Seq<char>> {
    match file_name_of(path) {
        Some(n) => name_extension(n),
        None => None,
    }
}

/// The stem of the file that `path` names.
pub open spec fn file_stem_of(path: Seq<char>) -> Option<Seq<char>> {
    match file_name_of(path) {
        Some(n) => Some(name_stem(n)),
        None => None,
    }
}

fn last_dot_index(name: &str) -> (r: Option<usize>)
    ensures
        match r {
            Some(i) => last_dot(name@) == i as int && i < name@.len(),
            None => last_dot(name@) == -1,
        },
{
    let n = name.unicode_len();
    let mut i: usize = n;
    assert(name@.subrange(0, n as int) =~= name@);
    while i > 0
        invariant
            n == name@.len(),
            i <= n,
            last_dot(name@) == last_dot(name@.subrange(0, i as int)),
        decreases i,
    {
        assert(name@.subrange(0, i as int).drop_last() =~= name@.subrange(0, i - 1));
        if name.get_char(i - 1) == '.' {
            return Some(i - 1);
        }
        i = i - 1;
    }
    None
}

/// The extension of a file name, by `name_extension`.
pub fn file_name_extension(name: &str) -> (r: Option<String>)
    ensures
        opt_view(r) == name_extension(name@),
{
    let len = name.unicode_len();
    match last_dot_index(name) {
        Some(d) if d > 0 => Some(String::from_str(name.substring_char(d + 1, len))),
        _ => None,
    }
}

/// The stem of a file name, by `name_stem`.
pub fn file_name_stem(name: &str) -> (r: String)
    ensures
        r@ == name_stem(name@),
{
    match last_dot_index(name) {
        Some(d) if d > 0 => String::from_str(name.substring_char(0, d)),
        _ => String::from_str(name),
    }
}

/// The extension of the file that `path` names.
pub fn extension(path: &str) -> (r: Option<String>)
    ensures
        opt_view(r) == extension_of(path@),
{
    match file_name(path) {
        None => None,
        Some(name) => file_name_extension(name.as_str()),
    }
}

/// The stem of the file that `path` names.
pub fn file_stem(path: &str) -> (r: Option<String>)
    ensures
        opt_view(r) == file_stem_of(path@),
{
    match file_name(path) {
        None => None,
        Some(name) => Some(file_name_stem(name.as_str())),
    }
}

} // verus!
