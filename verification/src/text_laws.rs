//! What holds of texts, paths, `require` arguments, settings and messages.
use crate::documents::{enumerates, url_text, urls};
use crate::messages::{decimal, digit, start_text};
use crate::model::IndexView;
use crate::modules::{
    below, first_separator, relative, required_path, required_resource, trimmed,
};
use crate::paths::{drives_stay, joined, lossy_text, normalized, path_key, path_parts};
use crate::settings::{level_of, overrides, strings, DiagnosticSettings, Level, Settings};
use crate::symbols::{Language, ResourceView};
use crate::tables::{rule_texts, FileId};
use crate::text::{ascii_lower, lowercase, replaced, same_ignoring_case};
use lsp_types::Url;
use vstd::prelude::*;
use vstd::utf8::encode_utf8;

verus! {

// Texts.

/// Whether `b` is the small letter of the ASCII capital `a`.
pub open spec fn is_small_of(a: char, b: char) -> bool {
    'A' <= a <= 'Z' && b as int == a as int + 32
}

/// Replacing turns each occurrence of one character into the other and leaves the rest.
pub proof fn law_replacing_turns_one_character(text: Seq<char>, old: char, new: char, i: int)
    ensures
        replaced(text, old, new).len() == text.len(),
        0 <= i < text.len() && text[i] == old ==> replaced(text, old, new)[i] == new,
        0 <= i < text.len() && text[i] != old ==> replaced(text, old, new)[i] == text[i],
{
}

/// Two names are the same exactly if they differ at most in the case of ASCII letters.
pub proof fn law_names_differ_in_case_only(a: Seq<char>, b: Seq<char>)
    ensures
        same_ignoring_case(a, b) <==> a.len() == b.len() && forall|i: int|
            0 <= i < a.len() ==> #[trigger] a[i] == b[i] || is_small_of(a[i], b[i]) || is_small_of(
                b[i],
                a[i],
            ),
{
    let la = a.map_values(|c: char| ascii_lower(c));
    let lb = b.map_values(|c: char| ascii_lower(c));
    assert(la.len() == a.len() && lb.len() == b.len());
    if a.len() == b.len() {
        assert forall|i: int| 0 <= i < a.len() implies (la[i] == lb[i] <==> (a[i] == b[i]
            || is_small_of(a[i], b[i]) || is_small_of(b[i], a[i]))) by {
            lemma_lower(a[i]);
            lemma_lower(b[i]);
        }
        if same_ignoring_case(a, b) {
            assert forall|i: int| 0 <= i < a.len() implies #[trigger] a[i] == b[i] || is_small_of(
                a[i],
                b[i],
            ) || is_small_of(b[i], a[i]) by {
                assert(la[i] == lb[i]);
            }
        }
        if forall|i: int|
            0 <= i < a.len() ==> #[trigger] a[i] == b[i] || is_small_of(a[i], b[i]) || is_small_of(
                b[i],
                a[i],
            ) {
            assert forall|i: int| 0 <= i < la.len() implies la[i] == lb[i] by {
                assert(a[i] == b[i] || is_small_of(a[i], b[i]) || is_small_of(b[i], a[i]));
            }
            assert(la =~= lb);
        }
    }
}

proof fn lemma_lower(c: char)
    ensures
        'A' <= c <= 'Z' ==> ascii_lower(c) as int == c as int + 32,
        !('A' <= c <= 'Z') ==> ascii_lower(c) == c,
{
}

// Paths.

/// On Windows a path's normal form is its text with backslashes for slashes, lower-cased; elsewhere
/// it is the path itself.
pub proof fn law_normal_form(bytes: Seq<u8>, text: Seq<char>)
    requires
        text.len() == lossy_text(bytes).len(),
        forall|i: int|
            0 <= i < text.len() ==> #[trigger] text[i] == if lossy_text(bytes)[i] == '/' {
                '\\'
            } else {
                lossy_text(bytes)[i]
            },
    ensures
        normalized(true, bytes) == encode_utf8(lowercase(text)),
        normalized(false, bytes) == bytes,
{
    assert(replaced(lossy_text(bytes), '/', '\\') =~= text);
}

/// Windows is told by what joining makes of a drive.
pub proof fn law_windows_keeps_drives()
    ensures
        drives_stay() <==> path_parts(joined(encode_utf8("c:/x"@), "/a"@)) == path_parts(
            encode_utf8("c:/a"@),
        ),
{
}

/// A reserved number is found by every path with the components of the normal form that it was
/// reserved for; every other path is found as before.
pub proof fn law_numbers_are_found_by_components<L: Language>(
    index: IndexView<L>,
    reserved: Seq<u8>,
    asked: Seq<u8>,
)
    ensures
        ({
            let after = index.allocated(path_key(index.windows, reserved));
            if path_parts(normalized(index.windows, reserved)) == path_parts(
                normalized(index.windows, asked),
            ) {
                after.file_id(asked) == Some(index.id_for(path_key(index.windows, reserved)))
            } else {
                after.file_id(asked) == index.file_id(asked)
            }
        }),
{
}

// Modules.

/// Whether a text holds neither of the separators that part a resource from a module.
pub open spec fn is_unparted(text: Seq<char>) -> bool {
    forall|i: int| 0 <= i < text.len() ==> #[trigger] text[i] != '/' && text[i] != '.'
}

/// An argument names a resource exactly if it starts with `@`: what follows up to the first slash or
/// dot, and the module is what stands behind that. Without either there is no module.
pub proof fn law_arguments_name_resources(
    name: Seq<char>,
    separator: char,
    module: Seq<char>,
    plain: Seq<char>,
)
    requires
        is_unparted(name),
        separator == '/' || separator == '.',
        !(plain.len() > 0 && plain[0] == '@'),
    ensures
        required_resource(seq!['@'] + name + seq![separator] + module) == Some(name),
        required_path(seq!['@'] + name + seq![separator] + module) == Some(relative(module)),
        required_resource(seq!['@'] + name) == Some(name),
        required_path(seq!['@'] + name) is None,
        required_resource(plain) is None,
        required_path(plain) == Some(relative(plain)),
{
    let full = seq!['@'] + name + seq![separator] + module;
    let at = name.len() as int + 1;
    assert forall|i: int| 1 <= i < at implies full[i] != '/' && full[i] != '.' by {
        assert(full[i] == name[i - 1]);
    }
    assert(full[at] == separator);
    lemma_separator_at(full, 1, at);
    assert(full.subrange(1, at) =~= name);
    assert(full.subrange(at + 1, full.len() as int) =~= module);
    let short = seq!['@'] + name;
    assert forall|i: int| 1 <= i < at implies short[i] != '/' && short[i] != '.' by {
        assert(short[i] == name[i - 1]);
    }
    lemma_separator_at(short, 1, at);
    assert(short.subrange(1, at) =~= name);
}

proof fn lemma_separator_at(text: Seq<char>, i: int, at: int)
    requires
        0 <= i <= at <= text.len(),
        at < text.len() ==> text[at] == '/' || text[at] == '.',
        forall|j: int| i <= j < at ==> #[trigger] text[j] != '/' && text[j] != '.',
    ensures
        first_separator(text, i) == at,
    decreases at - i,
{
    if i < at {
        assert(text[i] != '/' && text[i] != '.');
        lemma_separator_at(text, i + 1, at);
    }
}

/// `n` slashes.
pub open spec fn slashes(n: nat) -> Seq<char> {
    Seq::new(n, |i: int| '/')
}

/// `n` times the ending of a script.
pub open spec fn endings(n: nat) -> Seq<char>
    decreases n,
{
    if n == 0 {
        Seq::empty()
    } else {
        endings((n - 1) as nat) + seq!['.', 'l', 'u', 'a']
    }
}

/// Whether a text ends as scripts do.
pub open spec fn ends_as_script(text: Seq<char>) -> bool {
    &&& text.len() >= 4
    &&& text[text.len() - 4] == '.'
    &&& text[text.len() - 3] == 'l'
    &&& text[text.len() - 2] == 'u'
    &&& text[text.len() - 1] == 'a'
}

/// A module's path is the module, its dots turned into slashes unless it holds a slash already,
/// without the slashes in front and without the endings behind.
pub proof fn law_module_paths_are_bare(
    module: Seq<char>,
    text: Seq<char>,
    front: nat,
    core: Seq<char>,
    back: nat,
)
    requires
        text.len() == module.len(),
        forall|i: int|
            0 <= i < text.len() ==> #[trigger] text[i] == if !module.contains('/') && module[i]
                == '.' {
                '/'
            } else {
                module[i]
            },
        text == slashes(front) + core + endings(back),
        !(core.len() > 0 && core[0] == '/'),
        !ends_as_script(core),
    ensures
        relative(module) == core,
{
    let written = if module.contains('/') {
        module
    } else {
        replaced(module, '.', '/')
    };
    assert(written =~= text);
    assert(text =~= slashes(front) + (core + endings(back)));
    let inside = core + endings(back);
    if core.len() == 0 && back > 0 {
        lemma_endings_start(back);
        assert(inside[0] == endings(back)[0]);
    } else if core.len() > 0 {
        assert(inside[0] == core[0]);
    }
    lemma_below_strips(front, inside);
    lemma_trimmed_strips(core, back);
}

proof fn lemma_endings_start(n: nat)
    requires
        n > 0,
    ensures
        endings(n).len() > 0,
        endings(n)[0] == '.',
    decreases n,
{
    if n > 1 {
        lemma_endings_start((n - 1) as nat);
    } else {
        assert(endings(0).len() == 0);
        assert(endings(1) =~= seq!['.', 'l', 'u', 'a']);
    }
}

proof fn lemma_below_strips(n: nat, text: Seq<char>)
    requires
        !(text.len() > 0 && text[0] == '/'),
    ensures
        below(slashes(n) + text) == text,
    decreases n,
{
    let all = slashes(n) + text;
    if n == 0 {
        assert(all =~= text);
    } else {
        assert(all[0] == '/');
        assert(all.subrange(1, all.len() as int) =~= slashes((n - 1) as nat) + text);
        lemma_below_strips((n - 1) as nat, text);
    }
}

proof fn lemma_trimmed_strips(core: Seq<char>, n: nat)
    requires
        !ends_as_script(core),
    ensures
        trimmed(core + endings(n)) == core,
    decreases n,
{
    let all = core + endings(n);
    let lua = seq!['.', 'l', 'u', 'a'];
    if n == 0 {
        assert(all =~= core);
        if core.len() >= 4 {
            let end = core.subrange(core.len() - 4, core.len() as int);
            assert(end[0] == core[core.len() - 4] && end[1] == core[core.len() - 3] && end[2]
                == core[core.len() - 2] && end[3] == core[core.len() - 1]);
            if end == lua {
                assert(lua[0] == '.' && lua[1] == 'l' && lua[2] == 'u' && lua[3] == 'a');
            }
        }
    } else {
        assert(all.subrange(all.len() - 4, all.len() as int) =~= lua);
        assert(all.subrange(0, all.len() - 4) =~= core + endings((n - 1) as nat));
        lemma_trimmed_strips(core, (n - 1) as nat);
    }
}

/// Whether a path leaves the resource root under Windows rules: it starts with a backslash, or with a
/// letter and a colon.
pub open spec fn starts_elsewhere(path: Seq<char>) -> bool {
    ||| path.len() > 0 && path[0] == '\\'
    ||| path.len() > 1 && path[1] == ':' && ('a' <= path[0] <= 'z' || 'A' <= path[0] <= 'Z')
}

/// An argument resolves whenever one of its two scripts has a number, the script of that name before
/// that of the directory, whatever is stored under the number.
pub proof fn law_require_finds_the_script<L: Language>(
    index: IndexView<L>,
    module: Seq<char>,
    from: FileId,
    home: ResourceView<L>,
    path: Seq<char>,
)
    requires
        index.module_home(module, from) == Some(home),
        required_path(module) == Some(path),
        !(index.windows && starts_elsewhere(path)),
    ensures
        ({
            let script = index.file_id(joined(home.root, path + ".lua"@));
            let init = index.file_id(
                joined(
                    home.root,
                    if path.len() == 0 {
                        "init.lua"@
                    } else {
                        path + "/init.lua"@
                    },
                ),
            );
            &&& script is Some ==> index.required(module, from) == script
            &&& script is None ==> index.required(module, from) == init
        }),
{
}

/// An argument resolves to nothing where its resource is unknown, where it names no module, and where
/// Windows would take its path elsewhere.
pub proof fn law_require_finds_nothing_else<L: Language>(
    index: IndexView<L>,
    module: Seq<char>,
    from: FileId,
)
    requires
        index.module_home(module, from) is None || required_path(module) is None || (index.windows
            && starts_elsewhere(required_path(module)->0)),
    ensures
        index.required(module, from) is None,
{
}

/// What an argument resolves to depends on the paths that have numbers, on the resources, and on the
/// requiring file's resource, and on nothing else that the index holds.
pub proof fn law_require_ignores_what_is_stored<L: Language>(
    a: IndexView<L>,
    b: IndexView<L>,
    module: Seq<char>,
    from: FileId,
)
    requires
        a.windows == b.windows,
        a.paths == b.paths,
        a.resources == b.resources,
        a.owner_of(from) == b.owner_of(from),
    ensures
        a.required(module, from) == b.required(module, from),
{
}

/// A module is looked up in the resource that the argument names, or else in the requiring file's.
pub proof fn law_modules_have_a_home<L: Language>(
    index: IndexView<L>,
    module: Seq<char>,
    from: FileId,
)
    requires
        index.resources.len() <= 0x1_0000_0000,
    ensures
        required_resource(module) matches Some(name) ==> index.module_home(module, from) == match (
        index.resource_named(name)) {
            Some(r) => index.resource(r),
            None => None,
        },
        required_resource(module) is None ==> index.module_home(module, from) == index.resource_of(
            from,
        ),
        required_resource(module) is Some <==> module.len() > 0 && module[0] == '@',
{
}

// Settings.

/// A rule's level is overridden exactly if the settings name a level for it and the rule is known.
pub proof fn law_overrides_are_of_known_rules(
    rules: Map<Seq<char>, Seq<char>>,
    known: Seq<Seq<char>>,
    code: Seq<char>,
    level: Level,
)
    ensures
        overrides(rules, known).contains_pair(code, level) <==> rules.contains_key(code)
            && known.contains(code) && level_of(rules[code]) == Some(level),
{
}

/// Each level goes by its name, a warning by two, and nothing else is a level.
pub proof fn law_levels_go_by_their_names(text: Seq<char>)
    ensures
        level_of("off"@) == Some(Level::Off),
        level_of("hint"@) == Some(Level::Hint),
        level_of("info"@) == Some(Level::Info),
        level_of("warning"@) == Some(Level::Warning),
        level_of("warn"@) == Some(Level::Warning),
        level_of("error"@) == Some(Level::Error),
        level_of(text) is Some ==> text == "off"@ || text == "hint"@ || text == "info"@ || text
            == "warning"@ || text == "warn"@ || text == "error"@,
{
    reveal_strlit("off");
    reveal_strlit("hint");
    reveal_strlit("info");
    reveal_strlit("warning");
    reveal_strlit("warn");
    reveal_strlit("error");
    assert("off"@.len() == 3);
    assert("hint"@[0] == 'h' && "info"@[0] == 'i' && "warn"@[0] == 'w');
    assert("hint"@.len() == 4 && "info"@.len() == 4 && "warn"@.len() == 4);
    assert("warning"@.len() == 7 && "error"@.len() == 5);
}

/// Linting is on unless it is switched off, for closed files by either of two switches.
pub proof fn law_linting_is_on_unless_switched_off(settings: DiagnosticSettings)
    ensures
        settings.lints_open() <==> !(settings.enable is Some && !settings.enable->0),
        settings.lints_closed() <==> !(settings.enable is Some && !settings.enable->0) && !(
        settings.workspace is Some && !settings.workspace->0),
{
}

/// Settings that say nothing switch nothing off, name no folder and no rule.
pub proof fn law_silent_settings_change_nothing(settings: Settings, code: Seq<char>)
    requires
        settings.says_nothing(),
    ensures
        settings.diagnostics.lints_open(),
        settings.diagnostics.lints_closed(),
        settings.diagnostics.enable is None,
        settings.diagnostics.workspace is None,
        settings.inlay_hints.enable is None,
        settings.semantic_tokens.enable is None,
        settings.library.len() == 0,
        !rule_texts(settings.diagnostics.rules).contains_key(code),
{
}

// Lists.

/// A list that enumerates a set holds exactly its members, each once.
pub proof fn law_enumerating_lists_each_once(
    list: Seq<Url>,
    set: Set<Seq<char>>,
    i: int,
    j: int,
    text: Seq<char>,
)
    requires
        enumerates(list, set),
    ensures
        0 <= i < j < list.len() ==> url_text(list[i]) != url_text(list[j]),
        set.contains(text) <==> exists|k: int|
            0 <= k < list.len() && url_text(#[trigger] list[k]) == text,
{
    let all = urls(list);
    if 0 <= i < j < list.len() {
        assert(all[i] != all[j]);
    }
    if set.contains(text) {
        assert(all.to_set().contains(text));
        let k = choose|k: int| 0 <= k < all.len() && all[k] == text;
        assert(url_text(list[k]) == text);
    }
    if exists|k: int| 0 <= k < list.len() && url_text(#[trigger] list[k]) == text {
        let k = choose|k: int| 0 <= k < list.len() && url_text(#[trigger] list[k]) == text;
        assert(all[k] == text);
        assert(all.to_set().contains(text));
    }
}

/// The texts of a list of strings are theirs, one for one.
pub proof fn law_strings_are_their_texts(list: Seq<String>, i: int)
    ensures
        strings(list).len() == list.len(),
        0 <= i < list.len() ==> strings(list)[i] == list[i]@,
{
}

// Messages.

/// The number that decimal digits stand for.
pub open spec fn value(text: Seq<char>) -> int
    decreases text.len(),
{
    if text.len() == 0 {
        0
    } else {
        value(text.drop_last()) * 10 + (text.last() as int - '0' as int)
    }
}

/// A number is written in digits that stand for it, without a zero in front.
pub proof fn law_decimals_stand_for_their_number(n: nat, i: int)
    ensures
        value(decimal(n)) == n,
        decimal(n).len() > 0,
        0 <= i < decimal(n).len() ==> '0' <= decimal(n)[i] <= '9',
        decimal(n).len() > 1 ==> decimal(n)[0] != '0',
        n > 0 ==> decimal(n)[0] != '0',
    decreases n,
{
    reveal_with_fuel(value, 2);
    let text = decimal(n);
    if n < 10 {
        assert(text.drop_last() =~= Seq::empty());
        assert(digit(n as int) as int == n + 48);
    } else {
        let front = decimal(n / 10);
        law_decimals_stand_for_their_number(n / 10, i);
        assert(text.drop_last() =~= front);
        assert(digit((n % 10) as int) as int == n % 10 + 48);
        assert(text[0] == front[0]);
    }
}

/// The first message counts files, resources, milliseconds and natives, each where it says so.
pub proof fn law_start_text_counts(files: nat, resources: nat, millis: nat, natives: nat)
    ensures
        start_text(files, resources, millis, natives) == "indexed "@ + decimal(files)
            + " files in "@ + decimal(resources) + " resources in "@ + decimal(millis) + " ms ("@
            + decimal(natives) + " natives available)"@,
{
}

} // verus!
