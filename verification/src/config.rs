//! The config file: which version it is, what it sets, and where it is.

use vstd::prelude::*;

use crate::bytes::{append_ascii, ascii};
use crate::count::{append_decimal, decimal};
use crate::keybind::{default_keybinds, key_in, KeyBinding, KeyCode, Keybinds};
use crate::names::copy_name;
use crate::text::{append, literal};

verus! {

/// The version of the config file's format that is supported.
pub const CONFIG_VERSION: u32 = 1;

/// What a config file sets.
#[derive(Debug, PartialEq, Eq)]
pub struct DuscapeConfig {
    pub version: u32,
    pub base: BaseConfig,
    pub keybinds: KeybindConfig,
}

/// Defaults used when the command line does not say.
#[derive(Debug, Clone, Copy, PartialEq, Eq, Structural)]
pub struct BaseConfig {
    pub apparent_size: bool,
}

/// The keys that a config file binds to actions.
#[derive(Debug, PartialEq, Eq)]
pub struct KeybindConfig {
    pub quit: Option<String>,
    pub delete: Option<String>,
    pub move_left: Option<String>,
    pub move_right: Option<String>,
    pub move_up: Option<String>,
    pub move_down: Option<String>,
    pub enter: Option<String>,
    pub parent: Option<String>,
    pub zoom_in: Option<String>,
    pub zoom_out: Option<String>,
    pub reset_zoom: Option<String>,
    pub confirm: Option<String>,
    pub cancel: Option<String>,
    pub switch_panel: Option<String>,
    pub rescan: Option<String>,
    pub rescan_all: Option<String>,
    pub toggle_size: Option<String>,
}

/// What is wrong with a config file.
#[derive(Debug, PartialEq, Eq)]
pub enum ConfigError {
    UnsupportedVersion(u32),
    InvalidKeybind { name: String, reason: String },
    /// It could not be read.
    Io(String),
    /// It is not in the format.
    Parse(String),
}

impl ConfigError {
    /// The error in words.
    pub open spec fn words(self) -> Seq<char> {
        match self {
            ConfigError::UnsupportedVersion(version) => ((("unsupported config version "@
                + decimal(version as nat)) + " (expected "@) + decimal(CONFIG_VERSION as nat))
                + ")"@,
            ConfigError::InvalidKeybind { name, reason } => (("invalid keybind '"@ + name@)
                + "': "@) + reason@,
            ConfigError::Io(error) => "failed to read config file: "@ + error@,
            ConfigError::Parse(error) => "failed to parse config file: "@ + error@,
        }
    }

    /// The error in words.
    pub fn message(&self) -> (message: String)
        ensures
            message@ == self.words(),
    {
        match self {
            ConfigError::UnsupportedVersion(version) => {
                let mut message = literal("unsupported config version ");
                append_decimal(&mut message, *version as u64);
                append(&mut message, " (expected ");
                append_decimal(&mut message, CONFIG_VERSION as u64);
                append(&mut message, ")");
                message
            },
            ConfigError::InvalidKeybind { name, reason } => {
                let mut message = literal("invalid keybind '");
                append(&mut message, name.as_str());
                append(&mut message, "': ");
                append(&mut message, reason.as_str());
                message
            },
            ConfigError::Io(error) => {
                let mut message = literal("failed to read config file: ");
                append(&mut message, error.as_str());
                message
            },
            ConfigError::Parse(error) => {
                let mut message = literal("failed to parse config file: ");
                append(&mut message, error.as_str());
                message
            },
        }
    }
}

impl Default for BaseConfig {
    fn default() -> (base: Self)
        ensures
            !base.apparent_size,
    {
        BaseConfig { apparent_size: false }
    }
}

impl KeybindConfig {
    /// Whether no key is bound.
    pub open spec fn binds_nothing(self) -> bool {
        &&& self.quit is None
        &&& self.delete is None
        &&& self.move_left is None
        &&& self.move_right is None
        &&& self.move_up is None
        &&& self.move_down is None
        &&& self.enter is None
        &&& self.parent is None
        &&& self.zoom_in is None
        &&& self.zoom_out is None
        &&& self.reset_zoom is None
        &&& self.confirm is None
        &&& self.cancel is None
        &&& self.switch_panel is None
        &&& self.rescan is None
        &&& self.rescan_all is None
        &&& self.toggle_size is None
    }
}

impl Default for KeybindConfig {
    fn default() -> (keybinds: Self)
        ensures
            keybinds.binds_nothing(),
    {
        KeybindConfig {
            quit: None,
            delete: None,
            move_left: None,
            move_right: None,
            move_up: None,
            move_down: None,
            enter: None,
            parent: None,
            zoom_in: None,
            zoom_out: None,
            reset_zoom: None,
            confirm: None,
            cancel: None,
            switch_panel: None,
            rescan: None,
            rescan_all: None,
            toggle_size: None,
        }
    }
}

impl DuscapeConfig {
    /// Whether nothing is set.
    pub open spec fn is_default(self) -> bool {
        self.version == CONFIG_VERSION && !self.base.apparent_size
            && self.keybinds.binds_nothing()
    }
}

impl Default for DuscapeConfig {
    fn default() -> (config: Self)
        ensures
            config.is_default(),
    {
        DuscapeConfig {
            version: CONFIG_VERSION,
            base: BaseConfig::default(),
            keybinds: KeybindConfig::default(),
        }
    }
}

/// The key bound to an action: the one that a config file names, or the default. `None` when it
/// names none there is.
pub open spec fn bound(value: Option<String>, default: KeyBinding) -> Option<KeyBinding> {
    match value {
        Some(text) => match key_in(text@) {
            Some(code) => Some(KeyBinding { code }),
            None => None,
        },
        None => Some(default),
    }
}

/// The name of an action in a config file, the text there, and the default.
#[verifier::ext_equal]
pub struct Slot {
    pub name: Seq<char>,
    pub value: Option<String>,
    pub default: KeyBinding,
}

impl KeybindConfig {
    /// Each action with what is set for it, in order.
    pub open spec fn slots(self) -> Seq<Slot> {
        let defaults = default_keybinds();
        seq![
            Slot { name: "quit"@, value: self.quit, default: defaults.quit },
            Slot { name: "delete"@, value: self.delete, default: defaults.delete },
            Slot { name: "move-left"@, value: self.move_left, default: defaults.move_left },
            Slot { name: "move-right"@, value: self.move_right, default: defaults.move_right },
            Slot { name: "move-up"@, value: self.move_up, default: defaults.move_up },
            Slot { name: "move-down"@, value: self.move_down, default: defaults.move_down },
            Slot { name: "enter"@, value: self.enter, default: defaults.enter },
            Slot { name: "parent"@, value: self.parent, default: defaults.parent },
            Slot { name: "zoom-in"@, value: self.zoom_in, default: defaults.zoom_in },
            Slot { name: "zoom-out"@, value: self.zoom_out, default: defaults.zoom_out },
            Slot { name: "reset-zoom"@, value: self.reset_zoom, default: defaults.reset_zoom },
            Slot { name: "confirm"@, value: self.confirm, default: defaults.confirm },
            Slot { name: "cancel"@, value: self.cancel, default: defaults.cancel },
            Slot {
                name: "switch-panel"@,
                value: self.switch_panel,
                default: defaults.switch_panel,
            },
            Slot { name: "rescan"@, value: self.rescan, default: defaults.rescan },
            Slot { name: "rescan-all"@, value: self.rescan_all, default: defaults.rescan_all },
            Slot {
                name: "toggle-size"@,
                value: self.toggle_size,
                default: defaults.toggle_size,
            },
        ]
    }

    /// Whether each of the first `count` actions is set to a key there is, or not set.
    pub open spec fn sets_keys(self, count: int) -> bool {
        forall|i: int|
            0 <= i < count ==> bound(
                (#[trigger] self.slots()[i]).value,
                self.slots()[i].default,
            ) is Some
    }

    /// The keys in the order of the actions.
    pub open spec fn in_order(keybinds: Keybinds) -> Seq<KeyBinding> {
        seq![
            keybinds.quit,
            keybinds.delete,
            keybinds.move_left,
            keybinds.move_right,
            keybinds.move_up,
            keybinds.move_down,
            keybinds.enter,
            keybinds.parent,
            keybinds.zoom_in,
            keybinds.zoom_out,
            keybinds.reset_zoom,
            keybinds.confirm,
            keybinds.cancel,
            keybinds.switch_panel,
            keybinds.rescan,
            keybinds.rescan_all,
            keybinds.toggle_size,
        ]
    }
}

/// The key bound to an action, or the error that says what is wrong with what is set for it.
fn parse_keybind(value: &Option<String>, name: &str, default: KeyBinding) -> (binding: Result<
    KeyBinding,
    ConfigError,
>)
    ensures
        match bound(*value, default) {
            Some(key) => binding is Ok && binding->Ok_0 == key,
            None => is_invalid(binding, name@, *value),
        },
{
    match value {
        Some(text) => match KeyBinding::parse(text.as_str()) {
            Ok(binding) => Ok(binding),
            Err(reason) => Err(ConfigError::InvalidKeybind { name: literal(name), reason }),
        },
        None => Ok(default),
    }
}

/// Whether a result is the error of an action that is set to no key.
pub open spec fn is_invalid<T>(
    result: Result<T, ConfigError>,
    name: Seq<char>,
    value: Option<String>,
) -> bool {
    match result {
        Err(ConfigError::InvalidKeybind { name: named, reason }) => named@ == name && value is Some
            && reason@ == "unknown key: "@ + value->0@,
        _ => false,
    }
}

impl KeybindConfig {
    /// The keys bound to actions: those set, and the defaults for the rest. An error names the
    /// first action that is set to no key.
    pub fn resolve(&self) -> (keybinds: Result<Keybinds, ConfigError>)
        ensures
            keybinds is Ok == self.sets_keys(17),
            match keybinds {
                Ok(keybinds) => forall|i: int|
                    0 <= i < 17 ==> bound(
                        (#[trigger] self.slots()[i]).value,
                        self.slots()[i].default,
                    ) == Some(KeybindConfig::in_order(keybinds)[i]),
                Err(_) => exists|i: int|
                    0 <= i < 17 && self.sets_keys(i) && bound(
                        self.slots()[i].value,
                        self.slots()[i].default,
                    ) is None && is_invalid(
                        keybinds,
                        (#[trigger] self.slots()[i]).name,
                        self.slots()[i].value,
                    ),
            },
    {
        let mut keys: Vec<KeyBinding> = Vec::new();
        let mut i: usize = 0;
        while i < 17
            invariant
                i <= 17,
                keys.len() == i,
                forall|j: int|
                    0 <= j < i ==> bound(
                        (#[trigger] self.slots()[j]).value,
                        self.slots()[j].default,
                    ) == Some(keys@[j]),
            decreases 17 - i,
        {
            let (value, name, default) = self.slot(i);
            match parse_keybind(value, name, default) {
                Ok(binding) => keys.push(binding),
                Err(error) => {
                    let refused: Result<Keybinds, ConfigError> = Err(error);
                    assert(bound(
                        self.slots()[i as int].value,
                        self.slots()[i as int].default,
                    ) is None);
                    assert(is_invalid(
                        refused,
                        self.slots()[i as int].name,
                        self.slots()[i as int].value,
                    ));
                    return refused;
                },
            }
            i += 1;
        }
        let keybinds = Keybinds {
            quit: keys[0],
            delete: keys[1],
            move_left: keys[2],
            move_right: keys[3],
            move_up: keys[4],
            move_down: keys[5],
            enter: keys[6],
            parent: keys[7],
            zoom_in: keys[8],
            zoom_out: keys[9],
            reset_zoom: keys[10],
            confirm: keys[11],
            cancel: keys[12],
            switch_panel: keys[13],
            rescan: keys[14],
            rescan_all: keys[15],
            toggle_size: keys[16],
        };
        assert(KeybindConfig::in_order(keybinds) =~= keys@);
        Ok(keybinds)
    }

    /// An action by its place: what is set for it, its name and the default.
    fn slot(&self, at: usize) -> (slot: (&Option<String>, &'static str, KeyBinding))
        requires
            at < 17,
        ensures
            self.slots()[at as int] == (Slot { name: slot.1@, value: *slot.0, default: slot.2 }),
    {
        let defaults = Keybinds::default();
        match at {
            0 => (&self.quit, "quit", defaults.quit),
            1 => (&self.delete, "delete", defaults.delete),
            2 => (&self.move_left, "move-left", defaults.move_left),
            3 => (&self.move_right, "move-right", defaults.move_right),
            4 => (&self.move_up, "move-up", defaults.move_up),
            5 => (&self.move_down, "move-down", defaults.move_down),
            6 => (&self.enter, "enter", defaults.enter),
            7 => (&self.parent, "parent", defaults.parent),
            8 => (&self.zoom_in, "zoom-in", defaults.zoom_in),
            9 => (&self.zoom_out, "zoom-out", defaults.zoom_out),
            10 => (&self.reset_zoom, "reset-zoom", defaults.reset_zoom),
            11 => (&self.confirm, "confirm", defaults.confirm),
            12 => (&self.cancel, "cancel", defaults.cancel),
            13 => (&self.switch_panel, "switch-panel", defaults.switch_panel),
            14 => (&self.rescan, "rescan", defaults.rescan),
            15 => (&self.rescan_all, "rescan-all", defaults.rescan_all),
            _ => (&self.toggle_size, "toggle-size", defaults.toggle_size),
        }
    }
}

impl DuscapeConfig {
    /// The config that was read, if it is of the version supported. Without a file to read it
    /// is the default.
    pub fn load(read: Option<Result<DuscapeConfig, ConfigError>>) -> (config: Result<
        DuscapeConfig,
        ConfigError,
    >)
        ensures
            match read {
                None => config is Ok && config->Ok_0.is_default(),
                Some(Err(error)) => config == Err::<DuscapeConfig, ConfigError>(error),
                Some(Ok(read)) => if read.version == CONFIG_VERSION {
                    config == Ok::<DuscapeConfig, ConfigError>(read)
                } else {
                    config == Err::<DuscapeConfig, ConfigError>(
                        ConfigError::UnsupportedVersion(read.version),
                    )
                },
            },
    {
        match read {
            None => Ok(DuscapeConfig::default()),
            Some(Err(error)) => Err(error),
            Some(Ok(config)) => if config.version == CONFIG_VERSION {
                Ok(config)
            } else {
                Err(ConfigError::UnsupportedVersion(config.version))
            },
        }
    }

    /// The keys bound to actions.
    pub fn keybinds(&self) -> (keybinds: Result<Keybinds, ConfigError>)
        ensures
            keybinds is Ok == self.keybinds.sets_keys(17),
            match keybinds {
                Ok(keybinds) => forall|i: int|
                    0 <= i < 17 ==> bound(
                        (#[trigger] self.keybinds.slots()[i]).value,
                        self.keybinds.slots()[i].default,
                    ) == Some(KeybindConfig::in_order(keybinds)[i]),
                Err(_) => exists|i: int|
                    0 <= i < 17 && self.keybinds.sets_keys(i) && bound(
                        self.keybinds.slots()[i].value,
                        self.keybinds.slots()[i].default,
                    ) is None && is_invalid(
                        keybinds,
                        (#[trigger] self.keybinds.slots()[i]).name,
                        self.keybinds.slots()[i].value,
                    ),
            },
    {
        self.keybinds.resolve()
    }
}

/// A path with a `/` and a name after it.
pub open spec fn joined_path(folder: Seq<u8>, name: Seq<u8>) -> Seq<u8> {
    if folder.len() == 0 {
        name
    } else if folder.last() == 47 {
        folder + name
    } else {
        folder.push(47) + name
    }
}

/// The config file under a home folder, by the program's name in its path.
pub open spec fn config_path_named(home: Seq<u8>, path: Seq<char>) -> Seq<u8> {
    joined_path(home, ascii(path))
}

/// The config file under `home`: the one in its place, or where it was before the program was
/// renamed while only that one is there, so that a config made then goes on working until it is
/// moved. `is_file` says whether there is a file in its place, and `was_file` where it was.
pub fn config_path_in(home: &Vec<u8>, is_file: bool, was_file: bool) -> (path: Vec<u8>)
    ensures
        path@ == config_path_named(
            home@,
            if !is_file && was_file {
                ".config/diskonaut/config.toml"@
            } else {
                ".config/duscape/config.toml"@
            },
        ),
{
    let mut path = copy_name(home);
    if path.len() > 0 && path[path.len() - 1] != 47 {
        path.push(47);
    }
    if !is_file && was_file {
        append_ascii(&mut path, ".config/diskonaut/config.toml");
        assert(path@ =~= config_path_named(home@, ".config/diskonaut/config.toml"@));
    } else {
        append_ascii(&mut path, ".config/duscape/config.toml");
        assert(path@ =~= config_path_named(home@, ".config/duscape/config.toml"@));
    }
    path
}

/// Each action has the key that the config sets for it, and its own usual key where the config sets
/// none.
pub proof fn each_action_has_its_own_key(config: KeybindConfig, keybinds: Keybinds)
    requires
        forall|i: int|
            0 <= i < 17 ==> bound(
                (#[trigger] config.slots()[i]).value,
                config.slots()[i].default,
            ) == Some(KeybindConfig::in_order(keybinds)[i]),
    ensures
        ({
            let key = |text: Option<String>, usual: KeyCode| match text {
                Some(text) => key_in(text@),
                None => Some(usual),
            };
            &&& key(config.quit, KeyCode::Char('q')) == Some(keybinds.quit.code)
            &&& key(config.delete, KeyCode::Char('d')) == Some(keybinds.delete.code)
            &&& key(config.move_left, KeyCode::Char('h')) == Some(keybinds.move_left.code)
            &&& key(config.move_right, KeyCode::Char('l')) == Some(keybinds.move_right.code)
            &&& key(config.move_up, KeyCode::Char('k')) == Some(keybinds.move_up.code)
            &&& key(config.move_down, KeyCode::Char('j')) == Some(keybinds.move_down.code)
            &&& key(config.enter, KeyCode::Enter) == Some(keybinds.enter.code)
            &&& key(config.parent, KeyCode::Esc) == Some(keybinds.parent.code)
            &&& key(config.zoom_in, KeyCode::Char('+')) == Some(keybinds.zoom_in.code)
            &&& key(config.zoom_out, KeyCode::Char('-')) == Some(keybinds.zoom_out.code)
            &&& key(config.reset_zoom, KeyCode::Char('0')) == Some(keybinds.reset_zoom.code)
            &&& key(config.confirm, KeyCode::Char('y')) == Some(keybinds.confirm.code)
            &&& key(config.cancel, KeyCode::Char('n')) == Some(keybinds.cancel.code)
            &&& key(config.switch_panel, KeyCode::Tab) == Some(keybinds.switch_panel.code)
            &&& key(config.rescan, KeyCode::Char('r')) == Some(keybinds.rescan.code)
            &&& key(config.rescan_all, KeyCode::Char('R')) == Some(keybinds.rescan_all.code)
            &&& key(config.toggle_size, KeyCode::Char('a')) == Some(keybinds.toggle_size.code)
        }),
{
    let slots = config.slots();
    let order = KeybindConfig::in_order(keybinds);
    assert(bound(slots[0].value, slots[0].default) == Some(order[0]));
    assert(bound(slots[1].value, slots[1].default) == Some(order[1]));
    assert(bound(slots[2].value, slots[2].default) == Some(order[2]));
    assert(bound(slots[3].value, slots[3].default) == Some(order[3]));
    assert(bound(slots[4].value, slots[4].default) == Some(order[4]));
    assert(bound(slots[5].value, slots[5].default) == Some(order[5]));
    assert(bound(slots[6].value, slots[6].default) == Some(order[6]));
    assert(bound(slots[7].value, slots[7].default) == Some(order[7]));
    assert(bound(slots[8].value, slots[8].default) == Some(order[8]));
    assert(bound(slots[9].value, slots[9].default) == Some(order[9]));
    assert(bound(slots[10].value, slots[10].default) == Some(order[10]));
    assert(bound(slots[11].value, slots[11].default) == Some(order[11]));
    assert(bound(slots[12].value, slots[12].default) == Some(order[12]));
    assert(bound(slots[13].value, slots[13].default) == Some(order[13]));
    assert(bound(slots[14].value, slots[14].default) == Some(order[14]));
    assert(bound(slots[15].value, slots[15].default) == Some(order[15]));
    assert(bound(slots[16].value, slots[16].default) == Some(order[16]));
}

/// The action that an error names is the one whose key it is about.
pub proof fn actions_go_by_their_names(config: KeybindConfig)
    ensures
        ({
            let slots = config.slots();
            &&& slots.len() == 17
            &&& slots[0].name == "quit"@ && slots[0].value == config.quit
            &&& slots[1].name == "delete"@ && slots[1].value == config.delete
            &&& slots[2].name == "move-left"@ && slots[2].value == config.move_left
            &&& slots[3].name == "move-right"@ && slots[3].value == config.move_right
            &&& slots[4].name == "move-up"@ && slots[4].value == config.move_up
            &&& slots[5].name == "move-down"@ && slots[5].value == config.move_down
            &&& slots[6].name == "enter"@ && slots[6].value == config.enter
            &&& slots[7].name == "parent"@ && slots[7].value == config.parent
            &&& slots[8].name == "zoom-in"@ && slots[8].value == config.zoom_in
            &&& slots[9].name == "zoom-out"@ && slots[9].value == config.zoom_out
            &&& slots[10].name == "reset-zoom"@ && slots[10].value == config.reset_zoom
            &&& slots[11].name == "confirm"@ && slots[11].value == config.confirm
            &&& slots[12].name == "cancel"@ && slots[12].value == config.cancel
            &&& slots[13].name == "switch-panel"@ && slots[13].value == config.switch_panel
            &&& slots[14].name == "rescan"@ && slots[14].value == config.rescan
            &&& slots[15].name == "rescan-all"@ && slots[15].value == config.rescan_all
            &&& slots[16].name == "toggle-size"@ && slots[16].value == config.toggle_size
        }),
{
}

/// The config file is below the home folder, with one slash between.
pub proof fn the_config_is_below_home(home: Seq<u8>, path: Seq<char>)
    requires
        home.len() > 0,
    ensures
        ({
            let whole = config_path_named(home, path);
            &&& home.is_prefix_of(whole)
            &&& whole.skip(whole.len() - path.len()) == ascii(path)
            &&& whole[whole.len() - path.len() - 1] == 47
            &&& whole.len() == home.len() + path.len() + if home.last() == 47 {
                0int
            } else {
                1int
            }
        }),
{
    let whole = config_path_named(home, path);
    assert(whole.skip(whole.len() - path.len()) =~= ascii(path));
}

} // verus!
