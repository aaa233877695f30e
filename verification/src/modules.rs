//! `require` arguments: `name.sub`, `name/sub`, and either after `@resource` and a separator.
use crate::paths::starts_with_drive;
use crate::text::{chars_of, replace_char, replaced, string_of};
use vstd::prelude::*;

verus! {

/// Whether `c` parts a resource from a module in `@resource/module`.
pub open spec fn is_separator(c: char) -> bool {
    c == '/' || c == '.'
}

/// The position of the first separator from `i` on; the length where there is none.
pub open spec fn first_separator(text: Seq<char>, i: int) -> int
    decreases text.len() - i,
{
    if i >= text.len() || is_separator(text[i]) {
        i
    } else {
        first_separator(text, i + 1)
    }
}

/// Whether the argument names its resource.
pub open spec fn names_resource(module: Seq<char>) -> bool {
    module.len() > 0 && module[0] == '@'
}

/// The resource that the argument names, if it names one.
pub open spec fn required_resource(module: Seq<char>) -> Option<Seq<char>> {
    if names_resource(module) {
        Some(module.subrange(1, first_separator(module, 1)))
    } else {
        None
    }
}

/// `text` without the `.lua` endings, as often as there is one.
pub open spec fn trimmed(text: Seq<char>) -> Seq<char>
    decreases text.len(),
{
    if text.len() >= 4 && text.subrange(text.len() - 4, text.len() as int) == seq![
        '.',
        'l',
        'u',
        'a',
    ] {
        trimmed(text.subrange(0, text.len() - 4))
    } else {
        text
    }
}

/// `text` without the slashes it starts with.
pub open spec fn below(text: Seq<char>) -> Seq<char>
    decreases text.len(),
{
    if text.len() > 0 && text[0] == '/' {
        below(text.subrange(1, text.len() as int))
    } else {
        text
    }
}

/// The path below the resource root, without ending. A slash anywhere means that the module is
/// written as a path; otherwise its dots part the directories. Slashes in front do not lead out of
/// the resource.
pub open spec fn relative(module: Seq<char>) -> Seq<char> {
    trimmed(
        below(
            if module.contains('/') {
                module
            } else {
                replaced(module, '.', '/')
            },
        ),
    )
}

/// Whether a path would not be taken relative to the resource root: on Windows one may also start
/// with a backslash or with a drive.
pub open spec fn leaves_root(windows: bool, path: Seq<char>) -> bool {
    windows && (path.len() > 0 && path[0] == '\\' || starts_with_drive(path))
}

/// The path of the script that a directory is required by; the resource itself is one.
pub open spec fn init_script(path: Seq<char>) -> Seq<char> {
    if path.len() == 0 {
        "init.lua"@
    } else {
        path + "/init.lua"@
    }
}

/// Whether a path is relative to the resource root and ends as scripts do.
pub open spec fn is_script(windows: bool, path: Seq<char>) -> bool {
    &&& !(path.len() > 0 && path[0] == '/')
    &&& !leaves_root(windows, path)
    &&& path.len() >= 4
    &&& path.subrange(path.len() - 4, path.len() as int) == ".lua"@
}

/// The path that the argument stands for; none where it names a resource and nothing in it.
pub open spec fn required_path(module: Seq<char>) -> Option<Seq<char>> {
    if names_resource(module) {
        let at = first_separator(module, 1);
        if at < module.len() {
            Some(relative(module.subrange(at + 1, module.len() as int)))
        } else {
            None
        }
    } else {
        Some(relative(module))
    }
}

/// Whether `rest` is one of the two scripts that the argument stands for.
pub open spec fn is_tried(module: Seq<char>, rest: Seq<char>) -> bool {
    required_path(module) matches Some(path) && (rest == path + ".lua"@ || rest == init_script(path))
}

fn has_char(chars: &Vec<char>, wanted: char) -> (found: bool)
    ensures
        found == chars@.contains(wanted),
{
    let mut i: usize = 0;
    while i < chars.len()
        invariant
            i <= chars.len(),
            forall|j: int| 0 <= j < i ==> chars@[j] != wanted,
        decreases chars.len() - i,
    {
        if chars[i] == wanted {
            assert(chars@[i as int] == wanted);
            return true;
        }
        i = i + 1;
    }
    false
}

/// How many slashes `text` starts with.
fn leading_slashes(text: &Vec<char>) -> (count: usize)
    ensures
        count <= text.len(),
        below(text@) == text@.subrange(count as int, text@.len() as int),
{
    let mut count: usize = 0;
    assert(text@.subrange(0, text@.len() as int) =~= text@);
    while count < text.len() && text[count] == '/'
        invariant
            count <= text.len(),
            below(text@) == below(text@.subrange(count as int, text@.len() as int)),
        decreases text.len() - count,
    {
        let ghost now = text@.subrange(count as int, text@.len() as int);
        assert(now[0] == '/');
        assert(now.subrange(1, now.len() as int) =~= text@.subrange(
            count + 1,
            text@.len() as int,
        ));
        count = count + 1;
    }
    proof {
        let now = text@.subrange(count as int, text@.len() as int);
        if count < text.len() {
            assert(now[0] == text@[count as int]);
        }
    }
    count
}

/// Whether a path would not be taken relative to the resource root.
pub(crate) fn is_outside(windows: bool, path: &str) -> (outside: bool)
    ensures
        outside == leaves_root(windows, path@),
{
    let chars = chars_of(path);
    if !windows || chars.len() == 0 {
        return false;
    }
    let first = chars[0];
    first == '\\' || (chars.len() > 1 && chars[1] == ':' && (('a' <= first && first <= 'z') || (
    'A' <= first && first <= 'Z')))
}

/// The path of the script that a directory is required by.
pub(crate) fn init_path(path: &str) -> (script: String)
    ensures
        script@ == init_script(path@),
{
    if path.is_empty() {
        "init.lua".to_owned()
    } else {
        path.to_owned().concat("/init.lua")
    }
}

/// The length of `text` without its `.lua` endings.
fn trimmed_len(text: &Vec<char>) -> (len: usize)
    ensures
        len <= text.len(),
        trimmed(text@) == text@.subrange(0, len as int),
{
    let mut len: usize = text.len();
    assert(text@.subrange(0, len as int) =~= text@);
    while len >= 4 && text[len - 4] == '.' && text[len - 3] == 'l' && text[len - 2] == 'u'
        && text[len - 1] == 'a'
        invariant
            len <= text.len(),
            trimmed(text@) == trimmed(text@.subrange(0, len as int)),
        decreases len,
    {
        let ghost now = text@.subrange(0, len as int);
        assert(now.subrange(now.len() - 4, now.len() as int) =~= seq!['.', 'l', 'u', 'a']);
        assert(now.subrange(0, now.len() - 4) =~= text@.subrange(0, len - 4));
        len = len - 4;
    }
    proof {
        let now = text@.subrange(0, len as int);
        if now.len() >= 4 {
            let end = now.subrange(now.len() - 4, now.len() as int);
            assert(end[0] == text@[len - 4]);
            assert(end[1] == text@[len - 3]);
            assert(end[2] == text@[len - 2]);
            assert(end[3] == text@[len - 1]);
            assert(end != seq!['.', 'l', 'u', 'a']) by {
                let lua = seq!['.', 'l', 'u', 'a'];
                assert(lua[0] == '.' && lua[1] == 'l' && lua[2] == 'u' && lua[3] == 'a');
            }
        }
    }
    len
}

/// The path below the resource root that a module stands for, without ending.
pub(crate) fn relative_path(module: &str) -> (path: String)
    ensures
        path@ == relative(module@),
{
    let chars = chars_of(module);
    let text = if has_char(&chars, '/') {
        module.to_owned()
    } else {
        replace_char(module, '.', '/')
    };
    let written = chars_of(text.as_str());
    let inside = string_of(&written, leading_slashes(&written), written.len());
    let kept = chars_of(inside.as_str());
    let len = trimmed_len(&kept);
    string_of(&kept, 0, len)
}

/// A `require` argument taken apart.
pub(crate) struct ModuleName {
    pub resource: Option<String>,
    pub path: Option<String>,
}

/// Takes a `require` argument apart.
pub(crate) fn split_module(module: &str) -> (name: ModuleName)
    ensures
        match name.resource {
            Some(resource) => required_resource(module@) == Some(resource@),
            None => required_resource(module@) is None,
        },
        match name.path {
            Some(path) => required_path(module@) == Some(path@),
            None => required_path(module@) is None,
        },
{
    let chars = chars_of(module);
    if chars.len() == 0 || chars[0] != '@' {
        return ModuleName { resource: None, path: Some(relative_path(module)) };
    }
    let mut at: usize = 1;
    while at < chars.len() && chars[at] != '/' && chars[at] != '.'
        invariant
            1 <= at <= chars.len(),
            chars@ == module@,
            first_separator(module@, 1) == first_separator(module@, at as int),
        decreases chars.len() - at,
    {
        at = at + 1;
    }
    assert(first_separator(module@, 1) == at);
    let resource = string_of(&chars, 1, at);
    let path = if at < chars.len() {
        let rest = string_of(&chars, at + 1, chars.len());
        Some(relative_path(rest.as_str()))
    } else {
        None
    };
    ModuleName { resource: Some(resource), path }
}

} // verus!
