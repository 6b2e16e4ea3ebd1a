//! The crab's settings.
//!
//! Every key of the config file is optional: a missing key keeps its default,
//! and an out-of-range value is replaced rather than refused, because a config
//! typo should not cost you the crab. A file's bytes give a `ConfigPatch` of
//! the keys it sets, which becomes a validated `CrabConfig`. Saving a setting
//! rewrites just its keys and keeps every other one, and never overwrites a
//! file that is not a JSON object. Which directory the hooks' inbox is
//! follows from the environment the caller reads.

use vstd::prelude::*;
use vstd::string::{StrSliceExecFns, StringExecFns};

use crate::json::{
    bool_of, config_with_members, entries_view, int_of, json_object, json_object_of,
    json_set_members, member, member_of, str_of, JsonLeaf, JsonObject, JsonValue,
};
use crate::text::{chars_of, str_eq};

verus! {

/// Sprite variants this build knows how to render.
pub const SPRITE_VARIANTS: [&'static str; 3] = ["default", "fancy", "party"];

pub open spec fn known_variant(v: Seq<char>) -> bool {
    v == "default"@ || v == "fancy"@ || v == "party"@
}

/// Is `variant` one of `SPRITE_VARIANTS`?
pub fn is_known_variant(variant: &str) -> (r: bool)
    ensures
        r == known_variant(variant@),
{
    str_eq(variant, "default") || str_eq(variant, "fancy") || str_eq(variant, "party")
}

pub open spec fn label_spec(variant: Seq<char>) -> Seq<char> {
    if variant == "fancy"@ {
        "Top Hat and Monocle"@
    } else if variant == "party"@ {
        "Party Hat"@
    } else if variant == "default"@ {
        "Plain"@
    } else {
        variant
    }
}

/// Human-readable label for a variant, for menu entries.
pub fn label_for(variant: &str) -> (r: &str)
    ensures
        r@ == label_spec(variant@),
{
    if str_eq(variant, "fancy") {
        "Top Hat and Monocle"
    } else if str_eq(variant, "party") {
        "Party Hat"
    } else if str_eq(variant, "default") {
        "Plain"
    } else {
        variant
    }
}

/// Which one-shot reactions and flourishes are switched on.
#[derive(Debug, Clone, Copy, PartialEq, Eq, Structural)]
pub struct Reactions {
    pub waiting: bool,
    pub finished: bool,
    pub error: bool,
    pub tool_flavour: bool,
}

impl Default for Reactions {
    fn default() -> (r: Reactions)
        ensures
            r == (Reactions { waiting: true, finished: true, error: true, tool_flavour: true }),
    {
        Reactions { waiting: true, finished: true, error: true, tool_flavour: true }
    }
}

/// The settings the crab runs with.
#[derive(Debug, Clone, PartialEq, Eq)]
pub struct CrabConfig {
    pub strip_height: i32,
    /// Transparent space reserved above the strip for the right-click menu.
    pub menu_headroom: i32,
    /// Connector name, e.g. "DP-1"; empty means primary.
    pub output: String,
    pub sleep_corner: String,
    /// Pixels to lift the strip off the bottom of the screen.
    pub bottom_margin: i32,
    /// Sprite variant: "default", "fancy" or "party".
    pub sprite: String,
    pub stale_timeout_minutes: i32,
    /// Inbox budget. Hooks keep writing while the crab is stopped, so the
    /// directory needs an upper bound in both age and size.
    pub inbox_max_age_minutes: i32,
    pub inbox_max_megabytes: i32,
    pub reactions: Reactions,
    /// Pinned by the user: drags are ignored.
    pub lock_position: bool,
    /// The height above the strip floor a pinned crab was left at, in
    /// logical pixels; it comes back there after a restart.
    pub pinned_lift: i32,
}

/// A `CrabConfig`, as contracts speak of it.
pub ghost struct ConfigView {
    pub strip_height: int,
    pub menu_headroom: int,
    pub output: Seq<char>,
    pub sleep_corner: Seq<char>,
    pub bottom_margin: int,
    pub sprite: Seq<char>,
    pub stale_timeout_minutes: int,
    pub inbox_max_age_minutes: int,
    pub inbox_max_megabytes: int,
    pub reactions: Reactions,
    pub lock_position: bool,
    pub pinned_lift: int,
}

impl View for CrabConfig {
    type V = ConfigView;

    open spec fn view(&self) -> ConfigView {
        ConfigView {
            strip_height: self.strip_height as int,
            menu_headroom: self.menu_headroom as int,
            output: self.output@,
            sleep_corner: self.sleep_corner@,
            bottom_margin: self.bottom_margin as int,
            sprite: self.sprite@,
            stale_timeout_minutes: self.stale_timeout_minutes as int,
            inbox_max_age_minutes: self.inbox_max_age_minutes as int,
            inbox_max_megabytes: self.inbox_max_megabytes as int,
            reactions: self.reactions,
            lock_position: self.lock_position,
            pinned_lift: self.pinned_lift as int,
        }
    }
}

pub open spec fn default_config() -> ConfigView {
    ConfigView {
        strip_height: 72,
        menu_headroom: 220,
        output: Seq::empty(),
        sleep_corner: "right"@,
        bottom_margin: 0,
        sprite: "default"@,
        stale_timeout_minutes: 10,
        inbox_max_age_minutes: 60,
        inbox_max_megabytes: 32,
        reactions: Reactions { waiting: true, finished: true, error: true, tool_flavour: true },
        lock_position: false,
        pinned_lift: 0,
    }
}

/// Every setting is in range.
pub open spec fn valid_config(c: ConfigView) -> bool {
    &&& c.sleep_corner == "left"@ || c.sleep_corner == "right"@
    &&& known_variant(c.sprite)
    &&& c.bottom_margin >= 0
    &&& c.menu_headroom >= 0
    &&& c.inbox_max_age_minutes >= 1
    &&& c.inbox_max_megabytes >= 1
    &&& c.strip_height >= 16
}

/// Out-of-range settings replaced, each on its own: a bad key costs its own
/// setting, not the whole file.
pub open spec fn validated(c: ConfigView) -> ConfigView {
    ConfigView {
        sleep_corner: if c.sleep_corner == "left"@ || c.sleep_corner == "right"@ {
            c.sleep_corner
        } else {
            "right"@
        },
        sprite: if known_variant(c.sprite) {
            c.sprite
        } else {
            "default"@
        },
        bottom_margin: if c.bottom_margin < 0 {
            0
        } else {
            c.bottom_margin
        },
        menu_headroom: if c.menu_headroom < 0 {
            0
        } else {
            c.menu_headroom
        },
        inbox_max_age_minutes: if c.inbox_max_age_minutes < 1 {
            60
        } else {
            c.inbox_max_age_minutes
        },
        inbox_max_megabytes: if c.inbox_max_megabytes < 1 {
            32
        } else {
            c.inbox_max_megabytes
        },
        strip_height: if c.strip_height < 16 {
            72
        } else {
            c.strip_height
        },
        ..c
    }
}

impl Default for CrabConfig {
    fn default() -> (c: CrabConfig)
        ensures
            c@ == default_config(),
    {
        CrabConfig {
            strip_height: 72,
            menu_headroom: 220,
            output: String::new(),
            sleep_corner: String::from_str("right"),
            bottom_margin: 0,
            sprite: String::from_str("default"),
            stale_timeout_minutes: 10,
            inbox_max_age_minutes: 60,
            inbox_max_megabytes: 32,
            reactions: Reactions { waiting: true, finished: true, error: true, tool_flavour: true },
            lock_position: false,
            pinned_lift: 0,
        }
    }
}

/// The keys a config file sets. A key that is absent, or whose value has
/// the wrong type, is `None`. Each entry of `reactions` is a key of the
/// file's `reactions` object with its value, `None` where it is not a
/// boolean.
pub struct ConfigPatch {
    pub strip_height: Option<i32>,
    pub menu_headroom: Option<i32>,
    pub output: Option<String>,
    pub sleep_corner: Option<String>,
    pub bottom_margin: Option<i32>,
    pub sprite: Option<String>,
    pub stale_timeout_minutes: Option<i32>,
    pub inbox_max_age_minutes: Option<i32>,
    pub inbox_max_megabytes: Option<i32>,
    pub lock_position: Option<bool>,
    pub pinned_lift: Option<i32>,
    pub reactions: Vec<(String, Option<bool>)>,
}

pub open spec fn or_int(v: Option<i32>, d: int) -> int {
    match v {
        Some(x) => x as int,
        None => d,
    }
}

pub open spec fn or_text(v: Option<String>, d: Seq<char>) -> Seq<char> {
    match v {
        Some(x) => x@,
        None => d,
    }
}

/// The setting the `reactions` entries give `key`: the last entry for it
/// wins, and a value that is not a boolean reads as on.
pub open spec fn reaction_flag(entries: Seq<(String, Option<bool>)>, key: Seq<char>, d: bool) -> bool
    decreases entries.len(),
{
    if entries.len() == 0 {
        d
    } else if entries.last().0@ == key {
        match entries.last().1 {
            Some(b) => b,
            None => true,
        }
    } else {
        reaction_flag(entries.drop_last(), key, d)
    }
}

pub open spec fn patched_reactions(entries: Seq<(String, Option<bool>)>, r: Reactions) -> Reactions {
    Reactions {
        waiting: reaction_flag(entries, "waiting"@, r.waiting),
        finished: reaction_flag(entries, "finished"@, r.finished),
        error: reaction_flag(entries, "error"@, r.error),
        tool_flavour: reaction_flag(entries, "toolFlavour"@, r.tool_flavour),
    }
}

/// The defaults with the file's keys laid over them.
pub open spec fn patched(p: ConfigPatch) -> ConfigView {
    let d = default_config();
    ConfigView {
        strip_height: or_int(p.strip_height, d.strip_height),
        menu_headroom: or_int(p.menu_headroom, d.menu_headroom),
        output: or_text(p.output, d.output),
        sleep_corner: or_text(p.sleep_corner, d.sleep_corner),
        bottom_margin: or_int(p.bottom_margin, d.bottom_margin),
        sprite: or_text(p.sprite, d.sprite),
        stale_timeout_minutes: or_int(p.stale_timeout_minutes, d.stale_timeout_minutes),
        inbox_max_age_minutes: or_int(p.inbox_max_age_minutes, d.inbox_max_age_minutes),
        inbox_max_megabytes: or_int(p.inbox_max_megabytes, d.inbox_max_megabytes),
        reactions: patched_reactions(p.reactions@, d.reactions),
        lock_position: match p.lock_position {
            Some(b) => b,
            None => d.lock_position,
        },
        pinned_lift: or_int(p.pinned_lift, d.pinned_lift),
    }
}

/// The entries of a config object's `reactions` member, in order: each key
/// with its value when that is a boolean, `None` otherwise. No entries when
/// the member is absent or not an object.
pub open spec fn reaction_entries(v: Option<JsonValue>) -> Seq<(String, Option<bool>)> {
    match v {
        Some(JsonValue::Object(es)) => es@.map_values(
            |e: (String, JsonLeaf)|
                (
                    e.0,
                    match e.1 {
                        JsonLeaf::Bool(b) => Some(b),
                        _ => None,
                    },
                ),
        ),
        _ => Seq::empty(),
    }
}

/// The defaults with the keys of the config object `o` laid over them: a
/// number for an integer key (truncated), a string for a text key, a
/// boolean for `lockPosition`; a member of another type counts as absent.
pub open spec fn config_of(o: JsonObject) -> ConfigView {
    let d = default_config();
    let ms = o.members@;
    ConfigView {
        strip_height: or_int(int_of(member_of(ms, "stripHeight"@)), d.strip_height),
        menu_headroom: or_int(int_of(member_of(ms, "menuHeadroom"@)), d.menu_headroom),
        output: or_text(str_of(member_of(ms, "output"@)), d.output),
        sleep_corner: or_text(str_of(member_of(ms, "sleepCorner"@)), d.sleep_corner),
        bottom_margin: or_int(int_of(member_of(ms, "bottomMargin"@)), d.bottom_margin),
        sprite: or_text(str_of(member_of(ms, "sprite"@)), d.sprite),
        stale_timeout_minutes: or_int(
            int_of(member_of(ms, "staleTimeoutMinutes"@)),
            d.stale_timeout_minutes,
        ),
        inbox_max_age_minutes: or_int(
            int_of(member_of(ms, "inboxMaxAgeMinutes"@)),
            d.inbox_max_age_minutes,
        ),
        inbox_max_megabytes: or_int(
            int_of(member_of(ms, "inboxMaxMegabytes"@)),
            d.inbox_max_megabytes,
        ),
        reactions: patched_reactions(reaction_entries(member_of(ms, "reactions"@)), d.reactions),
        lock_position: match bool_of(member_of(ms, "lockPosition"@)) {
            Some(b) => b,
            None => d.lock_position,
        },
        pinned_lift: or_int(int_of(member_of(ms, "pinnedLift"@)), d.pinned_lift),
    }
}

fn int_member(o: &JsonObject, key: &str) -> (r: Option<i32>)
    ensures
        r == int_of(member_of(o.members@, key@)),
{
    match member(o, key) {
        Some(JsonValue::Leaf(JsonLeaf::Number(n))) => Some(*n),
        _ => None,
    }
}

fn str_member(o: &JsonObject, key: &str) -> (r: Option<String>)
    ensures
        r == str_of(member_of(o.members@, key@)),
{
    match member(o, key) {
        Some(JsonValue::Leaf(JsonLeaf::Text(t))) => Some(t.clone()),
        _ => None,
    }
}

fn bool_member(o: &JsonObject, key: &str) -> (r: Option<bool>)
    ensures
        r == bool_of(member_of(o.members@, key@)),
{
    match member(o, key) {
        Some(JsonValue::Leaf(JsonLeaf::Bool(b))) => Some(*b),
        _ => None,
    }
}

fn reaction_member(o: &JsonObject) -> (r: Vec<(String, Option<bool>)>)
    ensures
        r@ == reaction_entries(member_of(o.members@, "reactions"@)),
{
    let mut r: Vec<(String, Option<bool>)> = Vec::new();
    match member(o, "reactions") {
        Some(JsonValue::Object(es)) => {
            let ghost want = reaction_entries(member_of(o.members@, "reactions"@));
            let mut i: usize = 0;
            while i < es.len()
                invariant
                    i <= es@.len(),
                    want == es@.map_values(
                        |e: (String, JsonLeaf)|
                            (
                                e.0,
                                match e.1 {
                                    JsonLeaf::Bool(b) => Some(b),
                                    _ => None,
                                },
                            ),
                    ),
                    r@ == want.take(i as int),
                decreases es@.len() - i,
            {
                let value = match &es[i].1 {
                    JsonLeaf::Bool(b) => Some(*b),
                    _ => None,
                };
                r.push((es[i].0.clone(), value));
                proof {
                    assert(want.take(i + 1) =~= want.take(i as int).push(want[i as int]));
                }
                i += 1;
            }
            proof {
                assert(want.take(es@.len() as int) =~= want);
            }
        },
        _ => {},
    }
    r
}

/// The keys a config file sets, when it parses as a JSON object; `None`
/// when it does not.
pub fn config_patch(raw: &[u8]) -> (r: Option<ConfigPatch>)
    ensures
        match json_object_of(raw@) {
            Some(o) => r matches Some(p) && patched(p) == config_of(o),
            None => r is None,
        },
{
    let o = match json_object(raw) {
        Some(o) => o,
        None => {
            return None;
        },
    };
    Some(
        ConfigPatch {
            strip_height: int_member(&o, "stripHeight"),
            menu_headroom: int_member(&o, "menuHeadroom"),
            output: str_member(&o, "output"),
            sleep_corner: str_member(&o, "sleepCorner"),
            bottom_margin: int_member(&o, "bottomMargin"),
            sprite: str_member(&o, "sprite"),
            stale_timeout_minutes: int_member(&o, "staleTimeoutMinutes"),
            inbox_max_age_minutes: int_member(&o, "inboxMaxAgeMinutes"),
            inbox_max_megabytes: int_member(&o, "inboxMaxMegabytes"),
            lock_position: bool_member(&o, "lockPosition"),
            pinned_lift: int_member(&o, "pinnedLift"),
            reactions: reaction_member(&o),
        },
    )
}

/// A config file may be rewritten key by key when it is empty or holds a
/// JSON object; anything else belongs to the user and is left alone.
pub fn config_rewritable(raw: &[u8]) -> (r: bool)
    ensures
        r == (raw@.len() == 0 || json_object_of(raw@) is Some),
{
    raw.len() == 0 || json_object(raw).is_some()
}

/// `b` appended to the path `a` as a relative component: with no separator
/// after an empty path or one that already ends in `/`, with one otherwise.
pub open spec fn path_join(a: Seq<char>, b: Seq<char>) -> Seq<char> {
    if a.len() == 0 {
        b
    } else if a.last() == '/' {
        a + b
    } else {
        a + "/"@ + b
    }
}

/// The directory the hooks write events into, from what the environment
/// says: a non-empty override names the state directory outright; otherwise
/// the state directory is `XDG_STATE_HOME` when it is set, non-empty and not
/// inside a Flatpak (where it points into the sandbox, not at the host the
/// hooks write to), and `~/.local/state` else.
pub open spec fn inbox_dir_spec(
    state_override: Option<Seq<char>>,
    flatpak: bool,
    xdg_state_home: Option<Seq<char>>,
    home: Seq<char>,
) -> Seq<char> {
    if state_override is Some && state_override->0.len() > 0 {
        path_join(state_override->0, "inbox"@)
    } else {
        let base = if !flatpak && xdg_state_home is Some && xdg_state_home->0.len() > 0 {
            xdg_state_home->0
        } else {
            path_join(home, ".local/state"@)
        };
        path_join(base, "crabwalk/inbox"@)
    }
}

fn join_path(a: String, b: &str) -> (r: String)
    ensures
        r@ == path_join(a@, b@),
{
    let cs = chars_of(a.as_str());
    let mut r = a;
    if cs.len() > 0 && cs[cs.len() - 1] != '/' {
        r.append("/");
    }
    r.append(b);
    r
}

/// The inbox directory for the given environment: the override variable,
/// whether the process runs inside a Flatpak, `XDG_STATE_HOME`, and the
/// home directory.
pub fn inbox_dir_for(
    state_override: Option<String>,
    flatpak: bool,
    xdg_state_home: Option<String>,
    home: String,
) -> (r: String)
    ensures
        r@ == inbox_dir_spec(state_override.deep_view(), flatpak, xdg_state_home.deep_view(), home@),
{
    if let Some(o) = state_override {
        if o.as_str().unicode_len() > 0 {
            return join_path(o, "inbox");
        }
    }
    let mut base = String::new();
    let mut have_base = false;
    if !flatpak {
        if let Some(x) = xdg_state_home {
            if x.as_str().unicode_len() > 0 {
                base = x;
                have_base = true;
            }
        }
    }
    if !have_base {
        base = join_path(home, ".local/state");
    }
    join_path(base, "crabwalk/inbox")
}

/// The bytes to write back to a config file so that it sets `entries` and
/// keeps every other key: `None` when the file's bytes may not be rewritten
/// (they are neither empty nor a JSON object), otherwise the object (or an
/// empty one) with each entry set, printed again.
pub fn rewritten_config(raw: &[u8], entries: &Vec<(String, JsonLeaf)>) -> (r: Option<Vec<u8>>)
    ensures
        r is None <==> !(raw@.len() == 0 || json_object_of(raw@) is Some),
        r matches Some(b) ==> b@ == config_with_members(raw@, entries_view(entries@)),
{
    if !config_rewritable(raw) {
        return None;
    }
    Some(json_set_members(raw, entries))
}

impl CrabConfig {
    /// The config a file with these keys gives: the defaults, overridden by
    /// each key the file sets, then validated.
    pub fn from_patch(patch: &ConfigPatch) -> (c: CrabConfig)
        ensures
            c@ == validated(patched(*patch)),
    {
        let mut c = CrabConfig::default();
        if let Some(v) = patch.strip_height {
            c.strip_height = v;
        }
        if let Some(v) = patch.menu_headroom {
            c.menu_headroom = v;
        }
        if let Some(v) = &patch.output {
            c.output = v.clone();
        }
        if let Some(v) = &patch.sleep_corner {
            c.sleep_corner = v.clone();
        }
        if let Some(v) = patch.bottom_margin {
            c.bottom_margin = v;
        }
        if let Some(v) = &patch.sprite {
            c.sprite = v.clone();
        }
        if let Some(v) = patch.stale_timeout_minutes {
            c.stale_timeout_minutes = v;
        }
        if let Some(v) = patch.inbox_max_age_minutes {
            c.inbox_max_age_minutes = v;
        }
        if let Some(v) = patch.inbox_max_megabytes {
            c.inbox_max_megabytes = v;
        }
        if let Some(v) = patch.lock_position {
            c.lock_position = v;
        }
        if let Some(v) = patch.pinned_lift {
            c.pinned_lift = v;
        }
        let ghost base = c.reactions;
        let ghost before = c@;
        let mut i: usize = 0;
        while i < patch.reactions.len()
            invariant
                i <= patch.reactions@.len(),
                c@ == (ConfigView { reactions: c.reactions, ..before }),
                c.reactions == patched_reactions(patch.reactions@.take(i as int), base),
            decreases patch.reactions@.len() - i,
        {
            let (key, value) = (&patch.reactions[i].0, patch.reactions[i].1);
            // A value that is not a boolean reads as on.
            let on = match value {
                Some(b) => b,
                None => true,
            };
            let k = key.as_str();
            if str_eq(k, "waiting") {
                c.reactions.waiting = on;
            } else if str_eq(k, "finished") {
                c.reactions.finished = on;
            } else if str_eq(k, "error") {
                c.reactions.error = on;
            } else if str_eq(k, "toolFlavour") {
                c.reactions.tool_flavour = on;
            }
            proof {
                let t = patch.reactions@.take(i + 1);
                assert(t.drop_last() =~= patch.reactions@.take(i as int));
                assert(t.last() == patch.reactions@[i as int]);
                reveal_strlit("waiting");
                reveal_strlit("finished");
                reveal_strlit("error");
                reveal_strlit("toolFlavour");
                assert("waiting"@.len() == 7 && "finished"@.len() == 8 && "error"@.len() == 5
                    && "toolFlavour"@.len() == 11);
                assert(c.reactions.waiting == reaction_flag(t, "waiting"@, base.waiting));
                assert(c.reactions.finished == reaction_flag(t, "finished"@, base.finished));
                assert(c.reactions.error == reaction_flag(t, "error"@, base.error));
                assert(c.reactions.tool_flavour == reaction_flag(t, "toolFlavour"@, base.tool_flavour));
            }
            i += 1;
        }
        proof {
            assert(patch.reactions@.take(patch.reactions@.len() as int) =~= patch.reactions@);
        }
        c.validate();
        c
    }

    /// The config a file's bytes give: the defaults when they are not a
    /// JSON object, otherwise the defaults with the object's keys laid over
    /// them, then validated.
    pub fn from_json(raw: &[u8]) -> (c: CrabConfig)
        ensures
            c@ == match json_object_of(raw@) {
                Some(o) => validated(config_of(o)),
                None => default_config(),
            },
    {
        match config_patch(raw) {
            Some(p) => CrabConfig::from_patch(&p),
            None => CrabConfig::default(),
        }
    }

    /// Replace out-of-range settings with their defaults.
    pub fn validate(&mut self)
        ensures
            final(self)@ == validated(old(self)@),
    {
        if !(str_eq(self.sleep_corner.as_str(), "left") || str_eq(self.sleep_corner.as_str(), "right")) {
            self.sleep_corner = String::from_str("right");
        }
        if !is_known_variant(self.sprite.as_str()) {
            self.sprite = String::from_str("default");
        }
        if self.bottom_margin < 0 {
            self.bottom_margin = 0;
        }
        if self.menu_headroom < 0 {
            self.menu_headroom = 0;
        }
        // A zero or negative budget would disable pruning entirely, which is
        // the one setting that cannot be allowed: the inbox would grow
        // without bound.
        if self.inbox_max_age_minutes < 1 {
            self.inbox_max_age_minutes = 60;
        }
        if self.inbox_max_megabytes < 1 {
            self.inbox_max_megabytes = 32;
        }
        if self.strip_height < 16 {
            self.strip_height = 72;
        }
    }
}

/// A validated config has every setting in range.
pub proof fn lemma_validated_is_valid(c: ConfigView)
    ensures
        valid_config(validated(c)),
{
}

/// Validating a config that is already in range changes nothing, so
/// validating twice is the same as validating once.
pub proof fn lemma_validate_idempotent(c: ConfigView)
    ensures
        valid_config(c) ==> validated(c) == c,
        validated(validated(c)) == validated(c),
{
}

/// The defaults are in range.
pub proof fn lemma_defaults_valid()
    ensures
        valid_config(default_config()),
{
}

} // verus!
