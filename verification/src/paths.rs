//! Paths as lists of components, and the rules that place an output file.

use vstd::prelude::*;
use crate::text::{clone_strs, lowercase_of, push_str, str_to_lowercase, strs};

verus! {

/// A file found by a directory walk: its path as one string, and the same
/// path as components.
pub struct SourceFile {
    pub path: String,
    pub parts: Vec<String>,
}

/// Whether two strings hold the same characters.
pub fn str_eq(a: &str, b: &str) -> (r: bool)
    ensures
        r == (a@ == b@),
{
    let x = String::from_str(a);
    let y = String::from_str(b);
    x == y
}

/// A component that names no file: the root, the current directory or
/// the parent directory.
pub open spec fn is_special_part(part: Seq<char>) -> bool {
    part == "/"@ || part == "."@ || part == ".."@
}

/// Whether the component names no file.
pub fn part_is_special(part: &str) -> (r: bool)
    ensures
        r == is_special_part(part@),
{
    str_eq(part, "/") || str_eq(part, ".") || str_eq(part, "..")
}

/// The last component of a path, unless the path is empty or its last
/// component names no file.
pub open spec fn file_name_of(parts: Seq<Seq<char>>) -> Option<Seq<char>> {
    if parts.len() == 0 || is_special_part(parts.last()) {
        None
    } else {
        Some(parts.last())
    }
}

/// The file name of a path given by its components.
pub fn file_name(parts: &Vec<String>) -> (r: Option<String>)
    ensures
        crate::text::opt_str(r) == file_name_of(strs(parts@)),
{
    if parts.len() == 0 {
        return None;
    }
    let last = &parts[parts.len() - 1];
    if part_is_special(last.as_str()) {
        None
    } else {
        Some(last.clone())
    }
}

/// The index of the last `.` in `s`, or -1 where there is none.
pub open spec fn last_dot(s: Seq<char>) -> int
    decreases s.len(),
{
    if s.len() == 0 {
        -1
    } else if s.last() == '.' {
        s.len() - 1
    } else {
        last_dot(s.drop_last())
    }
}

/// The extension of a file name: what follows its last `.`, unless that dot
/// is the name's first character, there is none, or the component names no
/// file.
pub open spec fn extension_spec(name: Seq<char>) -> Option<Seq<char>> {
    let d = last_dot(name);
    if is_special_part(name) || d <= 0 {
        None
    } else {
        Some(name.subrange(d + 1, name.len() as int))
    }
}

/// The file name with its extension replaced by `ext`: the part before the
/// extension's dot, then, unless `ext` is empty, a dot and `ext`. A
/// component that names no file is left as it is.
pub open spec fn with_extension_spec(name: Seq<char>, ext: Seq<char>) -> Seq<char> {
    let d = last_dot(name);
    if is_special_part(name) {
        name
    } else {
        let stem = if d <= 0 {
            name
        } else {
            name.subrange(0, d)
        };
        if ext.len() == 0 {
            stem
        } else {
            stem + "."@ + ext
        }
    }
}

fn find_last_dot(name: &str) -> (r: Option<usize>)
    ensures
        match r {
            Some(i) => last_dot(name@) == i && i < name@.len(),
            None => last_dot(name@) == -1,
        },
{
    let n: usize = name.unicode_len();
    let mut i: usize = n;
    proof {
        assert(name@.take(n as int) =~= name@);
    }
    while i > 0
        invariant
            i <= n,
            n == name@.len(),
            last_dot(name@) == last_dot(name@.take(i as int)),
        decreases i,
    {
        let c = name.get_char(i - 1);
        proof {
            assert(name@.take(i as int).last() == name@[i - 1]);
            assert(name@.take(i as int).drop_last() =~= name@.take(i - 1));
        }
        if c == '.' {
            return Some(i - 1);
        }
        i -= 1;
    }
    None
}

/// The extension of a file name.
pub fn extension(name: &str) -> (r: Option<String>)
    ensures
        crate::text::opt_str(r) == extension_spec(name@),
{
    if part_is_special(name) {
        return None;
    }
    match find_last_dot(name) {
        Some(d) => {
            if d == 0 {
                None
            } else {
                let n: usize = name.unicode_len();
                Some(String::from_str(name.substring_char(d + 1, n)))
            }
        },
        None => None,
    }
}

/// The file name with its extension replaced by `ext`.
pub fn with_extension(name: &str, ext: &str) -> (r: String)
    ensures
        r@ == with_extension_spec(name@, ext@),
{
    if part_is_special(name) {
        return String::from_str(name);
    }
    let mut out = match find_last_dot(name) {
        Some(d) => {
            if d == 0 {
                String::from_str(name)
            } else {
                String::from_str(name.substring_char(0, d))
            }
        },
        None => String::from_str(name),
    };
    if ext.unicode_len() > 0 {
        out.append(".");
        out.append(ext);
    }
    out
}

/// `prefix` is the beginning of `path`, component by component.
pub open spec fn is_prefix(prefix: Seq<Seq<char>>, path: Seq<Seq<char>>) -> bool {
    prefix.len() <= path.len() && path.take(prefix.len() as int) == prefix
}

/// Where a path below `root` lands below `dest_root`: the root's components
/// are replaced and the rest is kept.
pub open spec fn remap_spec(
    root: Seq<Seq<char>>,
    current: Seq<Seq<char>>,
    dest_root: Seq<Seq<char>>,
) -> Option<Seq<Seq<char>>> {
    if is_prefix(root, current) {
        Some(dest_root + current.skip(root.len() as int))
    } else {
        None
    }
}

/// Mirrors `current`, a path below the traversal root `root`, into the tree
/// below `dest_root`. Fails exactly when `current` does not lie below `root`.
pub fn remap(root: &Vec<String>, current: &Vec<String>, dest_root: &Vec<String>) -> (r: Option<
    Vec<String>,
>)
    ensures
        match r {
            Some(p) => Some(strs(p@)) == remap_spec(strs(root@), strs(current@), strs(dest_root@)),
            None => remap_spec(strs(root@), strs(current@), strs(dest_root@)) is None,
        },
{
    if root.len() > current.len() {
        return None;
    }
    let mut i: usize = 0;
    while i < root.len()
        invariant
            i <= root.len() <= current.len(),
            forall|j: int| 0 <= j < i ==> root@[j]@ == current@[j]@,
        decreases root.len() - i,
    {
        if !str_eq(root[i].as_str(), current[i].as_str()) {
            proof {
                assert(strs(current@).take(root.len() as int)[i as int] == current@[i as int]@);
                assert(strs(root@)[i as int] == root@[i as int]@);
            }
            return None;
        }
        i += 1;
    }
    proof {
        assert(strs(current@).take(root.len() as int) =~= strs(root@));
    }
    let mut out = clone_strs(dest_root);
    let mut k: usize = root.len();
    while k < current.len()
        invariant
            root.len() <= k <= current.len(),
            strs(out@) == strs(dest_root@) + strs(current@).subrange(root.len() as int, k as int),
        decreases current.len() - k,
    {
        push_str(&mut out, current[k].as_str());
        proof {
            assert(strs(out@) =~= strs(dest_root@) + strs(current@).subrange(
                root.len() as int,
                k as int + 1,
            ));
        }
        k += 1;
    }
    proof {
        assert(strs(current@).subrange(root.len() as int, current.len() as int) =~= strs(
            current@,
        ).skip(root.len() as int));
    }
    Some(out)
}

/// The extension of a path's file name, or nothing where it has none.
pub open spec fn extension_or_empty(parts: Seq<Seq<char>>) -> Seq<char> {
    match file_name_of(parts) {
        Some(name) => match extension_spec(name) {
            Some(ext) => ext,
            None => Seq::empty(),
        },
        None => Seq::empty(),
    }
}

/// The extension of a path's file name, or the empty string.
pub fn path_extension(parts: &Vec<String>) -> (r: String)
    ensures
        r@ == extension_or_empty(strs(parts@)),
{
    match file_name(parts) {
        Some(name) => match extension(name.as_str()) {
            Some(ext) => ext,
            None => String::new(),
        },
        None => String::new(),
    }
}

/// A path with the extension of its last component replaced.
pub open spec fn retarget_spec(parts: Seq<Seq<char>>, ext: Seq<char>) -> Seq<Seq<char>> {
    if parts.len() == 0 {
        parts
    } else {
        parts.drop_last().push(with_extension_spec(parts.last(), ext))
    }
}

/// Replaces the extension of a path's last component by `ext`.
pub fn retarget(parts: &Vec<String>, ext: &str) -> (r: Vec<String>)
    ensures
        strs(r@) == retarget_spec(strs(parts@), ext@),
{
    let mut out: Vec<String> = Vec::new();
    if parts.len() == 0 {
        proof {
            assert(strs(out@) =~= strs(parts@));
        }
        return out;
    }
    let last: usize = parts.len() - 1;
    let mut i: usize = 0;
    while i < last
        invariant
            i <= last,
            last + 1 == parts.len(),
            strs(out@) == strs(parts@).take(i as int),
        decreases last - i,
    {
        push_str(&mut out, parts[i].as_str());
        proof {
            assert(strs(out@) =~= strs(parts@).take(i as int + 1));
        }
        i += 1;
    }
    let name = with_extension(parts[last].as_str(), ext);
    push_str(&mut out, name.as_str());
    proof {
        assert(strs(parts@).take(last as int) =~= strs(parts@).drop_last());
        assert(strs(parts@).last() == parts@[last as int]@);
    }
    out
}

/// The indices below `n` of the files that `keep` selects, in rising order.
pub open spec fn selected(files: Seq<SourceFile>, keep: spec_fn(SourceFile) -> bool, n: int) -> Seq<
    int,
>
    decreases n,
{
    if n <= 0 {
        Seq::empty()
    } else {
        let before = selected(files, keep, n - 1);
        if keep(files[n - 1]) {
            before.push(n - 1)
        } else {
            before
        }
    }
}

/// Why the files of a walk could not be placed.
pub enum WalkError {
    /// The file at `index` does not lie below the traversal root.
    OutsideRoot { index: usize },
}

/// An extension that names a video container: `mkv`, `mp4` or `mov`, in
/// any case of letters.
pub open spec fn is_video_extension(ext: Seq<char>) -> bool {
    let lower = lowercase_of(ext);
    lower == "mkv"@ || lower == "mp4"@ || lower == "mov"@
}

/// A path whose file name has the extension of a video container.
pub open spec fn is_video_path(parts: Seq<Seq<char>>) -> bool {
    match file_name_of(parts) {
        Some(name) => match extension_spec(name) {
            Some(ext) => is_video_extension(ext),
            None => false,
        },
        None => false,
    }
}

/// The files whose name has the extension of a video container.
pub open spec fn is_video_file() -> spec_fn(SourceFile) -> bool {
    |f: SourceFile| is_video_path(strs(f.parts@))
}

/// Whether the file's name has the extension of a video container.
pub fn has_video_extension(parts: &Vec<String>) -> (r: bool)
    ensures
        r == is_video_path(strs(parts@)),
{
    match file_name(parts) {
        Some(name) => match extension(name.as_str()) {
            Some(ext) => {
                let lower = str_to_lowercase(ext.as_str());
                str_eq(lower.as_str(), "mkv") || str_eq(lower.as_str(), "mp4") || str_eq(
                    lower.as_str(),
                    "mov",
                )
            },
            None => false,
        },
        None => false,
    }
}

/// A selected file and the place of its output.
pub struct Placement {
    pub source: usize,
    pub dest: Vec<String>,
}

/// `p` places the file at index `at` in its mirrored place below
/// `dest_root`.
pub open spec fn placed(
    p: Placement,
    at: int,
    root: Seq<Seq<char>>,
    dest_root: Seq<Seq<char>>,
    files: Seq<SourceFile>,
) -> bool {
    &&& 0 <= at < files.len()
    &&& p.source == at
    &&& strs(p.dest@) == dest_root + strs(files[at].parts@).skip(root.len() as int)
}

/// `p` places the file at index `at`, one of the first `n`.
pub open spec fn placed_below(
    p: Placement,
    at: int,
    n: int,
    root: Seq<Seq<char>>,
    dest_root: Seq<Seq<char>>,
    files: Seq<SourceFile>,
) -> bool {
    at < n && placed(p, at, root, dest_root, files)
}

/// The error names the first video file that lies outside the root.
pub open spec fn video_walk_error_ok(e: WalkError, root: Seq<Seq<char>>, files: Seq<SourceFile>) -> bool {
    match e {
        WalkError::OutsideRoot { index } => {
            &&& index < files.len()
            &&& is_video_file()(files[index as int])
            &&& !is_prefix(root, strs(files[index as int].parts@))
            &&& forall|j: int|
                0 <= j < index && is_video_file()(#[trigger] files[j]) ==> is_prefix(
                    root,
                    strs(files[j].parts@),
                )
        },
    }
}

/// What placing the video files of a walk comes to: one placement for each
/// video file, in the order of the walk, unless one of them lies outside
/// the root; then the first such file is named.
pub open spec fn placements_ok(
    r: Result<Vec<Placement>, WalkError>,
    root: Seq<Seq<char>>,
    dest_root: Seq<Seq<char>>,
    files: Seq<SourceFile>,
) -> bool {
    match r {
        Ok(ps) => {
            let chosen = selected(files, is_video_file(), files.len() as int);
            &&& ps.len() == chosen.len()
            &&& forall|k: int| 0 <= k < ps.len() ==> placed(#[trigger] ps[k], chosen[k], root, dest_root, files)
            &&& forall|j: int|
                0 <= j < files.len() && is_video_file()(#[trigger] files[j]) ==> is_prefix(
                    root,
                    strs(files[j].parts@),
                )
        },
        Err(e) => video_walk_error_ok(e, root, files),
    }
}

/// Selects the video files of a flat walk and mirrors each from below
/// `root` to below `dest_root`.
pub fn place_video_files(root: &Vec<String>, dest_root: &Vec<String>, files: &Vec<SourceFile>) -> (r:
    Result<Vec<Placement>, WalkError>)
    ensures
        placements_ok(r, strs(root@), strs(dest_root@), files@),
{
    let mut out: Vec<Placement> = Vec::new();
    let mut i: usize = 0;
    while i < files.len()
        invariant
            i <= files.len(),
            out.len() == selected(files@, is_video_file(), i as int).len(),
            forall|k: int|
                0 <= k < out.len() ==> placed_below(
                    #[trigger] out[k],
                    selected(files@, is_video_file(), i as int)[k],
                    i as int,
                    strs(root@),
                    strs(dest_root@),
                    files@,
                ),
            forall|j: int|
                0 <= j < i && is_video_file()(#[trigger] files@[j]) ==> is_prefix(
                    strs(root@),
                    strs(files@[j].parts@),
                ),
        decreases files.len() - i,
    {
        let file = &files[i];
        let ghost before = selected(files@, is_video_file(), i as int);
        let ghost old_out = out@;
        if has_video_extension(&file.parts) {
            let dest = match remap(root, &file.parts, dest_root) {
                Some(dest) => dest,
                None => {
                    return Err(WalkError::OutsideRoot { index: i });
                },
            };
            out.push(Placement { source: i, dest });
            proof {
                assert(selected(files@, is_video_file(), i as int + 1) == before.push(i as int));
            }
        } else {
            proof {
                assert(selected(files@, is_video_file(), i as int + 1) == before);
            }
        }
        proof {
            let after = selected(files@, is_video_file(), i as int + 1);
            assert forall|k: int| 0 <= k < out.len() implies placed_below(
                #[trigger] out[k],
                after[k],
                i as int + 1,
                strs(root@),
                strs(dest_root@),
                files@,
            ) by {
                if k < old_out.len() {
                    assert(out[k] == old_out[k]);
                    assert(after[k] == before[k]);
                    assert(placed_below(
                        old_out[k],
                        before[k],
                        i as int,
                        strs(root@),
                        strs(dest_root@),
                        files@,
                    ));
                } else {
                    assert(after[k] == i as int);
                }
            }
        }
        i += 1;
    }
    Ok(out)
}

/// Writes a list of components as one path, by `std::path::PathBuf::push`
/// for each component in turn. Trusted, and nothing is promised of the
/// result: how components are joined is the platform's affair.
#[verifier::external_body]
pub(crate) fn render_path(parts: &Vec<String>) -> (r: String) {
    let mut path = std::path::PathBuf::new();
    for part in parts.iter() {
        path.push(part);
    }
    path.to_string_lossy().into_owned()
}

} // verus!
