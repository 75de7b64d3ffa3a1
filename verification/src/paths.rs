//! File locations inside a deck's directory.

use vstd::prelude::*;

verus! {

/// A file name that names one entry in a directory on every platform: not
/// empty, not `.` or `..`, and free of separators and drive colons.
pub open spec fn spec_plain_file_name(f: Seq<char>) -> bool {
    &&& f.len() > 0
    &&& f != seq!['.']
    &&& f != seq!['.', '.']
    &&& forall|i: int| 0 <= i < f.len() ==> f[i] != '/' && f[i] != '\\' && f[i] != ':'
}

/// `c` separates path components on some platform.
pub open spec fn spec_is_separator(c: char) -> bool {
    c == '/' || c == '\\'
}

/// `dir` begins like a Windows verbatim path (two separators, then `?`);
/// joining onto such a directory may rewrite it.
pub open spec fn spec_verbatim_like(dir: Seq<char>) -> bool {
    &&& dir.len() >= 3
    &&& spec_is_separator(dir[0])
    &&& spec_is_separator(dir[1])
    &&& dir[2] == '?'
}

/// `r` is `dir`, then at most one separator, then `file`: nothing between
/// where `dir` is empty or ends in `/`, and exactly one `/` or `\` where `dir`
/// ends in anything but a separator or a drive colon.
pub open spec fn spec_joined(r: Seq<char>, dir: Seq<char>, file: Seq<char>) -> bool {
    &&& (r == dir + file || r == dir + seq!['/'] + file || r == dir + seq!['\\'] + file)
    &&& (dir.len() == 0 || dir.last() == '/') ==> r == dir + file
    &&& (dir.len() > 0 && !spec_is_separator(dir.last()) && dir.last() != ':') ==> (r == dir
        + seq!['/'] + file || r == dir + seq!['\\'] + file)
}

/// `std::path::Path::join` of a directory and a plain file name, read back as
/// text (the inputs are text, so `to_string_lossy` changes nothing). The
/// documentation of `PathBuf::push` says that a relative path is appended,
/// with the platform's separator between where the directory does not already
/// end in one (an empty directory or a bare drive like `C:` gets none). Which
/// separator is added depends on the platform, so the contract allows `/` or
/// `\`. For a directory with a Windows verbatim prefix the documentation says
/// the result is normalized, so nothing is stated for directories that begin
/// like one.
#[verifier::external_body]
pub(crate) fn path_join(dir: &str, file: &str) -> (r: String)
    requires
        spec_plain_file_name(file@),
    ensures
        !spec_verbatim_like(dir@) ==> spec_joined(r@, dir@, file@),
{
    std::path::Path::new(dir).join(file).to_string_lossy().into_owned()
}

} // verus!
