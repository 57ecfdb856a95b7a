//! The settings snapshot read on every keyboard event: trigger string,
//! confirmation behaviour, variable separator, expansions and groups.
//! A spec-level model flattens the nested structs so that the state machine
//! and the expansion engine can state their contracts over plain sequences.

use vstd::prelude::*;
use vstd::string::StringExecFns;

verus! {

/// The string whose typing starts a capture.
pub struct TriggerSettings {
    pub string: String,
}

/// How a capture is confirmed: by one of `chars`, by the enter or right-arrow
/// keys, whether the confirming character is echoed after the expansion, and
/// whether a uniquely matching abbreviation fires on its own.
pub struct ConfirmSettings {
    pub chars: Vec<String>,
    pub key_enter: bool,
    pub key_right_arrow: bool,
    pub append: bool,
    pub auto: bool,
}

/// Settings for inline arguments: the literal separator between the
/// abbreviation and its arguments.
pub struct VariableSettings {
    pub separator: String,
}

/// One expansion rule: an abbreviation and the template it expands to,
/// optionally bound to a group.
pub struct Expansion {
    pub id: String,
    pub abbr: String,
    pub text: String,
    pub group: Option<String>,
}

/// An application entry of a group: a process path on one platform.
pub struct App {
    pub path: String,
    pub os: String,
}

/// A named set of applications to which grouped expansions are scoped.
pub struct Group {
    pub id: String,
    pub name: String,
    pub apps: Vec<App>,
}

/// The whole settings snapshot.
pub struct AppSettings {
    pub trigger: TriggerSettings,
    pub confirm: ConfirmSettings,
    pub variables: VariableSettings,
    pub expansions: Vec<Expansion>,
    pub groups: Option<Vec<Group>>,
    pub active_group: Option<String>,
}

/// Spec model of an expansion rule.
pub struct ExpansionModel {
    pub id: Seq<char>,
    pub abbr: Seq<char>,
    pub text: Seq<char>,
    pub group: Option<Seq<char>>,
}

/// Spec model of a group's application entry.
pub struct AppModel {
    pub path: Seq<char>,
    pub os: Seq<char>,
}

/// Spec model of a group.
pub struct GroupModel {
    pub id: Seq<char>,
    pub name: Seq<char>,
    pub apps: Seq<AppModel>,
}

/// Spec model of a settings snapshot, flattened to plain values. A missing
/// group list is modelled as the empty sequence.
pub struct SettingsModel {
    pub trigger: Seq<char>,
    pub confirm_chars: Seq<Seq<char>>,
    pub key_enter: bool,
    pub key_right_arrow: bool,
    pub append: bool,
    pub auto: bool,
    pub separator: Seq<char>,
    pub expansions: Seq<ExpansionModel>,
    pub groups: Seq<GroupModel>,
    pub active_group: Option<Seq<char>>,
}

impl View for Expansion {
    type V = ExpansionModel;

    open spec fn view(&self) -> ExpansionModel {
        ExpansionModel {
            id: self.id@,
            abbr: self.abbr@,
            text: self.text@,
            group: match self.group {
                Some(g) => Some(g@),
                None => None,
            },
        }
    }
}

impl DeepView for Expansion {
    type V = ExpansionModel;

    open spec fn deep_view(&self) -> ExpansionModel {
        self.view()
    }
}

impl View for App {
    type V = AppModel;

    open spec fn view(&self) -> AppModel {
        AppModel { path: self.path@, os: self.os@ }
    }
}

impl DeepView for App {
    type V = AppModel;

    open spec fn deep_view(&self) -> AppModel {
        self.view()
    }
}

impl View for Group {
    type V = GroupModel;

    open spec fn view(&self) -> GroupModel {
        GroupModel { id: self.id@, name: self.name@, apps: self.apps.deep_view() }
    }
}

impl DeepView for Group {
    type V = GroupModel;

    open spec fn deep_view(&self) -> GroupModel {
        self.view()
    }
}

impl View for AppSettings {
    type V = SettingsModel;

    open spec fn view(&self) -> SettingsModel {
        SettingsModel {
            trigger: self.trigger.string@,
            confirm_chars: self.confirm.chars.deep_view(),
            key_enter: self.confirm.key_enter,
            key_right_arrow: self.confirm.key_right_arrow,
            append: self.confirm.append,
            auto: self.confirm.auto,
            separator: self.variables.separator@,
            expansions: self.expansions.deep_view(),
            groups: match self.groups {
                Some(gs) => gs.deep_view(),
                None => Seq::<GroupModel>::empty(),
            },
            active_group: match self.active_group {
                Some(g) => Some(g@),
                None => None,
            },
        }
    }
}

/// The settings applied on first run and after a failed configuration parse:
/// apostrophe trigger, the seven punctuation confirm characters, enter and
/// right-arrow confirmation on, echoed confirm characters, no auto-confirm,
/// `|` separator, and one sample expansion.
pub fn default_settings() -> (s: AppSettings)
    ensures
        s@.trigger == "'"@,
        s@.confirm_chars == seq![" "@, "."@, ";"@, "!"@, "?"@, ":"@, ","@],
        s@.key_enter == true,
        s@.key_right_arrow == true,
        s@.append == true,
        s@.auto == false,
        s@.separator == "|"@,
        s@.expansions.len() == 1,
        s@.expansions[0].id == "typls"@,
        s@.expansions[0].abbr == "typls"@,
        s@.expansions[0].text == "Type less with typls: https://typls.app"@,
        s@.expansions[0].group is None,
        s@.groups == Seq::<GroupModel>::empty(),
        s@.active_group is None,
{
    let mut confirm_chars: Vec<String> = Vec::new();
    confirm_chars.push(String::from_str(" "));
    confirm_chars.push(String::from_str("."));
    confirm_chars.push(String::from_str(";"));
    confirm_chars.push(String::from_str("!"));
    confirm_chars.push(String::from_str("?"));
    confirm_chars.push(String::from_str(":"));
    confirm_chars.push(String::from_str(","));
    let mut expansions: Vec<Expansion> = Vec::new();
    expansions.push(
        Expansion {
            id: String::from_str("typls"),
            abbr: String::from_str("typls"),
            text: String::from_str("Type less with typls: https://typls.app"),
            group: None,
        },
    );
    let s = AppSettings {
        trigger: TriggerSettings { string: String::from_str("'") },
        confirm: ConfirmSettings {
            chars: confirm_chars,
            key_enter: true,
            key_right_arrow: true,
            append: true,
            auto: false,
        },
        variables: VariableSettings { separator: String::from_str("|") },
        expansions,
        groups: Some(Vec::new()),
        active_group: None,
    };
    proof {
        assert(s@.confirm_chars =~= seq![" "@, "."@, ";"@, "!"@, "?"@, ":"@, ","@]);
        assert(s@.expansions =~= seq![s.expansions[0]@]);
        assert(s@.groups =~= Seq::<GroupModel>::empty());
    }
    s
}

} // verus!
