//! The user's settings.
use crate::tables::{new_rules, rule_entries, rule_texts};
use crate::text::same_text;
use rustc_hash::FxHashMap;
use vstd::prelude::*;

verus! {

/// How loudly a lint rule speaks.
#[derive(Clone, Copy, Debug, PartialEq, Eq, Structural)]
pub enum Level {
    Off,
    Hint,
    Info,
    Warning,
    Error,
}

/// The level that a setting's text stands for.
pub open spec fn level_of(text: Seq<char>) -> Option<Level> {
    if text == "off"@ {
        Some(Level::Off)
    } else if text == "hint"@ {
        Some(Level::Hint)
    } else if text == "info"@ {
        Some(Level::Info)
    } else if text == "warning"@ || text == "warn"@ {
        Some(Level::Warning)
    } else if text == "error"@ {
        Some(Level::Error)
    } else {
        None
    }
}

/// The level that a setting's text stands for; none for any other text.
pub fn parse_level(text: &str) -> (level: Option<Level>)
    ensures
        level == level_of(text@),
{
    if same_text(text, "off") {
        Some(Level::Off)
    } else if same_text(text, "hint") {
        Some(Level::Hint)
    } else if same_text(text, "info") {
        Some(Level::Info)
    } else if same_text(text, "warning") || same_text(text, "warn") {
        Some(Level::Warning)
    } else if same_text(text, "error") {
        Some(Level::Error)
    } else {
        None
    }
}

#[derive(Clone, Debug)]
pub struct DiagnosticSettings {
    pub enable: Option<bool>,
    pub workspace: Option<bool>,
    pub rules: FxHashMap<String, String>,
}

#[derive(Clone, Debug)]
pub struct ToggleSettings {
    pub enable: Option<bool>,
}

#[derive(Clone, Debug)]
pub struct Settings {
    pub library: Vec<String>,
    pub diagnostics: DiagnosticSettings,
    pub inlay_hints: ToggleSettings,
    pub semantic_tokens: ToggleSettings,
}

impl Default for DiagnosticSettings {
    fn default() -> (settings: Self)
        ensures
            settings.enable is None,
            settings.workspace is None,
            rule_texts(settings.rules).dom() == Set::<Seq<char>>::empty(),
    {
        DiagnosticSettings { enable: None, workspace: None, rules: new_rules() }
    }
}

impl Default for ToggleSettings {
    fn default() -> (settings: Self)
        ensures
            settings.enable is None,
    {
        ToggleSettings { enable: None }
    }
}

impl Default for Settings {
    fn default() -> (settings: Self)
        ensures
            settings.says_nothing(),
    {
        Settings {
            library: Vec::new(),
            diagnostics: DiagnosticSettings::default(),
            inlay_hints: ToggleSettings::default(),
            semantic_tokens: ToggleSettings::default(),
        }
    }
}

/// The levels that settings override: those of known rules whose text stands for a level.
pub open spec fn overrides(rules: Map<Seq<char>, Seq<char>>, known: Seq<Seq<char>>) -> Map<
    Seq<char>,
    Level,
> {
    Map::new(
        |code: Seq<char>|
            rules.contains_key(code) && known.contains(code) && level_of(rules[code]) is Some,
        |code: Seq<char>| level_of(rules[code])->0,
    )
}

/// The texts of a list of strings.
pub open spec fn strings(list: Seq<String>) -> Seq<Seq<char>> {
    list.map_values(|text: String| text@)
}

fn contains_text(list: &Vec<String>, text: &str) -> (found: bool)
    ensures
        found == strings(list@).contains(text@),
{
    let mut i: usize = 0;
    while i < list.len()
        invariant
            i <= list.len(),
            forall|j: int| 0 <= j < i ==> strings(list@)[j] != text@,
        decreases list.len() - i,
    {
        if same_text(list[i].as_str(), text) {
            assert(strings(list@)[i as int] == text@);
            return true;
        }
        i = i + 1;
    }
    false
}

impl DiagnosticSettings {
    /// Whether open documents are linted: unless switched off.
    pub open spec fn lints_open(self) -> bool {
        self.enable != Some(false)
    }

    /// Whether the files nobody has open are linted: unless either switch is off.
    pub open spec fn lints_closed(self) -> bool {
        self.enable != Some(false) && self.workspace != Some(false)
    }
}

impl Settings {
    /// Nothing is set.
    pub open spec fn says_nothing(self) -> bool {
        &&& self.library.len() == 0
        &&& self.diagnostics.enable is None
        &&& self.diagnostics.workspace is None
        &&& rule_texts(self.diagnostics.rules).dom() == Set::<Seq<char>>::empty()
        &&& self.inlay_hints.enable is None
        &&& self.semantic_tokens.enable is None
    }

    /// The rule levels that the settings override, of the rules in `known`, in no stated order.
    pub fn rule_overrides(&self, known: &Vec<String>) -> (levels: Vec<(String, Level)>)
        ensures
            levels@.map_values(|entry: (String, Level)| entry.0@).no_duplicates(),
            forall|i: int|
                0 <= i < levels@.len() ==> overrides(
                    rule_texts(self.diagnostics.rules),
                    strings(known@),
                ).contains_pair((#[trigger] levels@[i]).0@, levels@[i].1),
            levels@.map_values(|entry: (String, Level)| entry.0@).to_set() == overrides(
                rule_texts(self.diagnostics.rules),
                strings(known@),
            ).dom(),
    {
        let entries = rule_entries(&self.diagnostics.rules);
        let ghost rules = rule_texts(self.diagnostics.rules);
        let ghost expected = overrides(rules, strings(known@));
        let ghost codes = entries@.map_values(|entry: (&String, &String)| entry.0@);
        let mut levels: Vec<(String, Level)> = Vec::new();
        let mut i: usize = 0;
        while i < entries.len()
            invariant
                i <= entries.len(),
                rules == rule_texts(self.diagnostics.rules),
                expected == overrides(rules, strings(known@)),
                codes == entries@.map_values(|entry: (&String, &String)| entry.0@),
                codes.no_duplicates(),
                codes.to_set() == rules.dom(),
                forall|j: int|
                    0 <= j < entries@.len() ==> rules[(#[trigger] entries@[j]).0@]
                        == entries@[j].1@,
                forall|k: int|
                    0 <= k < levels@.len() ==> expected.contains_pair(
                        (#[trigger] levels@[k]).0@,
                        levels@[k].1,
                    ) && codes.take(i as int).contains(levels@[k].0@),
                forall|k: int, m: int|
                    0 <= k < m < levels@.len() ==> (#[trigger] levels@[k]).0@ != (
                    #[trigger] levels@[m]).0@,
                forall|j: int|
                    0 <= j < i && expected.contains_key(#[trigger] codes[j]) ==> exists|k: int|
                        0 <= k < levels@.len() && (#[trigger] levels@[k]).0@ == codes[j],
            decreases entries.len() - i,
        {
            let ghost before = levels@;
            let (code, text) = entries[i];
            assert(codes[i as int] == code@);
            assert(codes.to_set().contains(code@)) by {
                assert(codes.contains(codes[i as int]));
            }
            assert(!codes.take(i as int).contains(code@)) by {
                if codes.take(i as int).contains(code@) {
                    let j = choose|j: int|
                        0 <= j < i && codes.take(i as int)[j] == code@;
                    assert(codes[j] == codes[i as int]);
                }
            }
            assert forall|c: Seq<char>| codes.take(i as int).contains(c) implies codes.take(
                i + 1,
            ).contains(c) by {
                let j = choose|j: int| 0 <= j < i && codes.take(i as int)[j] == c;
                assert(codes.take(i + 1)[j] == c);
            }
            assert(codes.take(i + 1)[i as int] == code@);
            if contains_text(known, code.as_str()) {
                if let Some(level) = parse_level(text.as_str()) {
                    levels.push((code.clone(), level));
                    assert(levels@[before.len() as int].0@ == code@);
                }
            }
            assert forall|j: int|
                0 <= j < i + 1 && expected.contains_key(#[trigger] codes[j]) implies exists|k: int|
                0 <= k < levels@.len() && (#[trigger] levels@[k]).0@ == codes[j] by {
                if j < i {
                    let k = choose|k: int|
                        0 <= k < before.len() && (#[trigger] before[k]).0@ == codes[j];
                    assert(levels@[k] == before[k]);
                }
            }
            i = i + 1;
        }
        let ghost found = levels@.map_values(|entry: (String, Level)| entry.0@);
        assert(found.no_duplicates());
        assert(found.to_set() =~= expected.dom()) by {
            assert forall|c: Seq<char>| found.to_set().contains(c) implies expected.dom().contains(
                c,
            ) by {
                let k = choose|k: int| 0 <= k < found.len() && found[k] == c;
                assert(expected.contains_pair(levels@[k].0@, levels@[k].1));
            }
            assert forall|c: Seq<char>| expected.dom().contains(c) implies found.to_set().contains(
                c,
            ) by {
                assert(codes.to_set().contains(c));
                let j = choose|j: int| 0 <= j < codes.len() && codes[j] == c;
                assert(expected.contains_key(codes[j]));
                let k = choose|k: int| 0 <= k < levels@.len() && (#[trigger] levels@[k]).0@ == codes[j];
                assert(found[k] == c);
            }
        }
        levels
    }
}

} // verus!
