//! File paths: what the index asks of `std::path`, and the form it keys files by.
use crate::text::{lowercase, replace_char, replaced, to_lowercase};
use std::path::{Path, PathBuf};
use vstd::prelude::*;
use vstd::utf8::encode_utf8;

verus! {

/// A borrowed path of the platform the crate is built for.
#[verifier::external_type_specification]
#[verifier::external_body]
pub struct ExPath(Path);

/// An owned path of the platform the crate is built for.
#[verifier::external_type_specification]
#[verifier::external_body]
pub struct ExPathBuf(PathBuf);

/// The bytes a borrowed path holds, as `OsStr::as_encoded_bytes` shows them.
pub uninterp spec fn path_bytes(path: &Path) -> Seq<u8>;

/// The bytes an owned path holds, as `OsStr::as_encoded_bytes` shows them.
pub uninterp spec fn buf_bytes(path: PathBuf) -> Seq<u8>;

/// The components of a path that holds these bytes, read by the path grammar of the platform the
/// crate is built for. `Path` compares and hashes by them, so repeated and trailing separators do
/// not tell two paths apart.
pub uninterp spec fn path_parts(bytes: Seq<u8>) -> Seq<Seq<u8>>;

/// The text `Path::to_string_lossy` shows for a path that holds these bytes.
pub uninterp spec fn lossy_text(bytes: Seq<u8>) -> Seq<char>;

/// The bytes of the path that `Path::join` makes of a base and a relative or absolute text.
pub uninterp spec fn joined(base: Seq<u8>, rest: Seq<char>) -> Seq<u8>;

/// The bytes of what `Path::extension` finds in a path that holds these bytes.
pub uninterp spec fn extension_of(bytes: Seq<u8>) -> Option<Seq<u8>>;

/// `PathBuf::as_path` lends the same path.
pub assume_specification[ PathBuf::as_path ](path: &PathBuf) -> (borrowed: &Path)
    ensures
        path_bytes(borrowed) == buf_bytes(*path),
;

/// `Path::to_path_buf` copies the path.
pub assume_specification[ Path::to_path_buf ](path: &Path) -> (owned: PathBuf)
    ensures
        buf_bytes(owned) == path_bytes(path),
;

/// Cloning an owned path copies it.
pub assume_specification[ <PathBuf as Clone>::clone ](path: &PathBuf) -> (copy: PathBuf)
    ensures
        buf_bytes(copy) == buf_bytes(*path),
;

/// `Path::to_string_lossy`, made an owned text: it depends on the bytes of the path alone.
#[verifier::external_body]
pub(crate) fn to_lossy(path: &Path) -> (text: String)
    ensures
        text@ == lossy_text(path_bytes(path)),
{
    path.to_string_lossy().into_owned()
}

/// `PathBuf::from` on a text: the path holds the text's UTF-8 bytes, and `Path::to_string_lossy` shows
/// the text as it is.
#[verifier::external_body]
pub(crate) fn path_from_text(text: String) -> (path: PathBuf)
    ensures
        buf_bytes(path) == encode_utf8(text@),
        lossy_text(buf_bytes(path)) == text@,
{
    PathBuf::from(text)
}

/// Whether a path from the root, joined to one on a drive, stays on that drive. `Path::join` does so
/// on Windows alone; elsewhere a path from the root takes the place of the other.
pub open spec fn drives_stay() -> bool {
    path_parts(joined(encode_utf8("c:/x"@), "/a"@)) == path_parts(encode_utf8("c:/a"@))
}

/// Whether a backslash parts the components of a path. On Unix it is a character like any other.
pub open spec fn backslashes_part() -> bool {
    path_parts(encode_utf8("a\\b"@)).len() > 1
}

/// Whether a text starts with a letter and a colon, as Windows names drives.
pub open spec fn starts_with_drive(text: Seq<char>) -> bool {
    &&& text.len() > 1
    &&& 'a' <= text[0] <= 'z' || 'A' <= text[0] <= 'Z'
    &&& text[1] == ':'
}

/// Whether a path starts with two separators, as network and verbatim paths do on Windows.
pub open spec fn starts_doubled(bytes: Seq<u8>) -> bool {
    &&& bytes.len() >= 2
    &&& bytes[0] == 47 || bytes[0] == 92
    &&& bytes[1] == 47 || bytes[1] == 92
}

/// Whether `rest` is a relative path, for `Path::join` to adjoin to a base. On Windows a path may also
/// start with a backslash or a drive, and bases that start with two separators are left out, since
/// some of those are normalized there. Elsewhere a path is relative unless it starts with a slash,
/// where that is the only separator.
pub open spec fn adjoins(base: Seq<u8>, rest: Seq<char>) -> bool {
    &&& !(rest.len() > 0 && rest[0] == '/')
    &&& if drives_stay() {
        &&& !(rest.len() > 0 && rest[0] == '\\')
        &&& !starts_with_drive(rest)
        &&& !starts_doubled(base)
    } else {
        !backslashes_part()
    }
}

/// `Path::join` with a text: it depends on the bytes of the base and on the text. A relative path is
/// adjoined, so that what was there stays in front.
#[verifier::external_body]
pub(crate) fn join(base: &Path, rest: &str) -> (path: PathBuf)
    ensures
        buf_bytes(path) == joined(path_bytes(base), rest@),
        adjoins(path_bytes(base), rest@) ==> path_parts(path_bytes(base)).is_prefix_of(
            path_parts(buf_bytes(path)),
        ),
{
    base.join(rest)
}

/// `Path`'s `==`: two paths are equal when their components are.
#[verifier::external_body]
pub(crate) fn same_path(a: &Path, b: &Path) -> (same: bool)
    ensures
        same == (path_parts(path_bytes(a)) == path_parts(path_bytes(b))),
{
    a == b
}

/// `Path::starts_with`: only whole components match.
#[verifier::external_body]
pub(crate) fn starts_with(path: &Path, base: &Path) -> (inside: bool)
    ensures
        inside == path_parts(path_bytes(base)).is_prefix_of(path_parts(path_bytes(path))),
{
    path.starts_with(base)
}

/// `Path::extension`, as its bytes: it depends on the bytes of the path alone.
#[verifier::external_body]
pub(crate) fn extension<'a>(path: &'a Path) -> (found: Option<&'a [u8]>)
    ensures
        found matches Some(bytes) ==> extension_of(path_bytes(path)) == Some(bytes@),
        found is None ==> extension_of(path_bytes(path)) is None,
{
    path.extension().map(|found| found.as_encoded_bytes())
}

/// Whether the crate is built for Windows, where paths use backslashes, by what `Path::join` makes of
/// a drive.
pub(crate) fn host_uses_backslashes() -> (windows: bool)
    ensures
        windows == drives_stay(),
{
    let base = path_from_text("c:/x".to_owned());
    let on_drive = path_from_text("c:/a".to_owned());
    same_path(join(base.as_path(), "/a").as_path(), on_drive.as_path())
}

/// The bytes of the normalized form of a path: on Windows the lower-cased text with backslashes
/// only, since paths differ in neither there; elsewhere the path itself.
pub open spec fn normalized(windows: bool, bytes: Seq<u8>) -> Seq<u8> {
    if windows {
        encode_utf8(folded(bytes))
    } else {
        bytes
    }
}

/// The text of the normalized form of a path on Windows.
pub open spec fn folded(bytes: Seq<u8>) -> Seq<char> {
    lowercase(replaced(lossy_text(bytes), '/', '\\'))
}

/// Whether lower-casing leaves a text as it is, and it holds no slash.
pub open spec fn is_folded(text: Seq<char>) -> bool {
    lowercase(text) == text && !text.contains('/')
}

/// What tells one indexed file from another: the components of its normalized path.
pub open spec fn path_key(windows: bool, bytes: Seq<u8>) -> Seq<Seq<u8>> {
    path_parts(normalized(windows, bytes))
}

/// The normalized form of `path` under the rules of the given platform. Normalizing it again changes
/// nothing, on Windows as far as lower-casing a text twice does what once does.
pub fn normalize_path_for(windows: bool, path: &Path) -> (result: PathBuf)
    ensures
        buf_bytes(result) == normalized(windows, path_bytes(path)),
        windows ==> lossy_text(buf_bytes(result)) == folded(path_bytes(path)),
        (windows ==> is_folded(folded(path_bytes(path)))) ==> normalized(windows, buf_bytes(result))
            == buf_bytes(result),
{
    let result = if windows {
        let text = to_lossy(path);
        let text = replace_char(text.as_str(), '/', '\\');
        path_from_text(to_lowercase(text.as_str()))
    } else {
        path.to_path_buf()
    };
    proof {
        if !windows || is_folded(folded(path_bytes(path))) {
            lemma_folded(windows, path_bytes(path));
        }
    }
    result
}

/// What is folded already is normalized already.
pub proof fn lemma_folded(windows: bool, bytes: Seq<u8>)
    requires
        windows ==> lossy_text(normalized(windows, bytes)) == folded(bytes) && is_folded(
            folded(bytes),
        ),
    ensures
        normalized(windows, normalized(windows, bytes)) == normalized(windows, bytes),
{
    if windows {
        let text = folded(bytes);
        assert forall|i: int| 0 <= i < text.len() implies text[i] != '/' by {
            assert(!text.contains('/'));
        }
        assert(replaced(text, '/', '\\') =~= text);
    }
}

/// The normalized form of `path` on the platform the crate is built for. Normalizing it again changes
/// nothing, on Windows as far as lower-casing a text twice does what once does.
pub fn normalize_path(path: &Path) -> (result: PathBuf)
    ensures
        buf_bytes(result) == normalized(drives_stay(), path_bytes(path)),
        (drives_stay() ==> is_folded(folded(path_bytes(path)))) ==> normalized(
            drives_stay(),
            buf_bytes(result),
        ) == buf_bytes(result),
{
    let windows = host_uses_backslashes();
    normalize_path_for(windows, path)
}

} // verus!
