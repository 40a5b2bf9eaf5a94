//! User settings from `~/.config/myx/config.toml`. Missing, empty or malformed all fall back to
//! defaults: a typo must never lock someone out of the app.

use vstd::prelude::*;

use crate::home::{below, Location};
use crate::text::same;

verus! {

/// The user's settings.
#[derive(Debug)]
pub struct Config {
    /// Rows kept visible above and below the list cursor, like vim's `scrolloff`.
    pub scrolloff: usize,
    /// Spotify app client id. `MYX_CLIENT_ID` takes precedence.
    pub client_id: Option<String>,
}

/// What a [`Config`] says.
pub struct Settings {
    pub scrolloff: int,
    pub client_id: Option<Seq<char>>,
}

impl View for Config {
    type V = Settings;

    open spec fn view(&self) -> Settings {
        Settings {
            scrolloff: self.scrolloff as int,
            client_id: match self.client_id {
                Some(id) => Some(id@),
                None => None,
            },
        }
    }
}

/// A value in a TOML table; of those that no setting takes, only the kind.
#[derive(Debug)]
pub enum TomlValue {
    Text(String),
    /// A finite number; its value where it is an integer.
    Number(Option<i64>),
    /// A number that is infinite or none.
    NotFinite,
    Boolean(bool),
    Array,
    /// A table, or a date or time.
    Table,
}

/// What a [`TomlValue`] says.
pub enum TomlItem {
    Text(Seq<char>),
    Number(Option<i64>),
    NotFinite,
    Boolean(bool),
    Array,
    Table,
}

impl View for TomlValue {
    type V = TomlItem;

    open spec fn view(&self) -> TomlItem {
        match self {
            TomlValue::Text(s) => TomlItem::Text(s@),
            TomlValue::Number(n) => TomlItem::Number(*n),
            TomlValue::NotFinite => TomlItem::NotFinite,
            TomlValue::Boolean(b) => TomlItem::Boolean(*b),
            TomlValue::Array => TomlItem::Array,
            TomlValue::Table => TomlItem::Table,
        }
    }
}

/// The keys and values of a TOML table.
pub open spec fn items(entries: Seq<(String, TomlValue)>) -> Seq<(Seq<char>, TomlItem)> {
    entries.map_values(|e: (String, TomlValue)| (e.0@, e.1@))
}

/// The value of the first entry with a key.
pub open spec fn item(entries: Seq<(Seq<char>, TomlItem)>, key: Seq<char>) -> Option<TomlItem>
    decreases entries.len(),
{
    if entries.len() == 0 {
        None
    } else if entries[0].0 == key {
        Some(entries[0].1)
    } else {
        item(entries.skip(1), key)
    }
}

/// The settings where nothing is set.
pub open spec fn defaults() -> Settings {
    Settings { scrolloff: 3, client_id: None }
}

/// The rows that a value asks for: the default without one, and nothing where it is no number
/// of rows.
pub open spec fn scrolloff_setting(value: Option<TomlItem>) -> Option<int> {
    match value {
        None => Some(defaults().scrolloff),
        Some(TomlItem::Number(Some(rows))) => if 0 <= rows <= usize::MAX {
            Some(rows as int)
        } else {
            None
        },
        Some(_) => None,
    }
}

/// The client id that a value gives: none without one, and nothing where it is no text.
pub open spec fn client_id_setting(value: Option<TomlItem>) -> Option<Option<Seq<char>>> {
    match value {
        None => Some(defaults().client_id),
        Some(TomlItem::Text(id)) => Some(Some(id)),
        Some(_) => None,
    }
}

/// The settings that the entries of a TOML table make, unless one of them has a wrong type.
pub open spec fn settings(entries: Seq<(Seq<char>, TomlItem)>) -> Option<Settings> {
    let scrolloff = scrolloff_setting(item(entries, "scrolloff"@));
    let client_id = client_id_setting(item(entries, "client_id"@));
    if scrolloff is Some && client_id is Some {
        Some(Settings { scrolloff: scrolloff->0, client_id: client_id->0 })
    } else {
        None
    }
}

/// The settings of a TOML document, unless it is malformed.
pub open spec fn parsed(text: Seq<char>) -> Option<Settings> {
    match toml_document(text) {
        Some(entries) => settings(entries),
        None => None,
    }
}

/// The settings of a file that may be missing: the defaults where it is, or is malformed.
pub open spec fn loaded(contents: Option<&str>) -> Settings {
    match contents {
        Some(text) => match parsed(text@) {
            Some(found) => found,
            None => defaults(),
        },
        None => defaults(),
    }
}

/// The top-level keys and values of the TOML document that `toml::from_str` reads from a text,
/// if the text is one.
pub uninterp spec fn toml_document(text: Seq<char>) -> Option<Seq<(Seq<char>, TomlItem)>>;

/// `toml::from_str`: the entries of the document, and `None` where the text is no TOML document.
///
/// It reads into a map of `serde_json::Value`, which takes every TOML value, whatever the keys of
/// its tables, and each value is then taken apart one variant for one. An integer is the number
/// that `serde_json::Number::as_i64` gives, a number that is not finite becomes a null, and a date
/// or time an object.
#[verifier::external_body]
fn entries_from_str(text: &str) -> (entries: Option<Vec<(String, TomlValue)>>)
    ensures
        entries is Some <==> toml_document(text@) is Some,
        entries matches Some(list) ==> items(list@) == toml_document(text@)->0,
{
    let table = toml::from_str::<serde_json::Map<String, serde_json::Value>>(text).ok()?;
    let convert = |value| match value {
        serde_json::Value::String(s) => TomlValue::Text(s),
        serde_json::Value::Number(n) => TomlValue::Number(n.as_i64()),
        serde_json::Value::Null => TomlValue::NotFinite,
        serde_json::Value::Bool(b) => TomlValue::Boolean(b),
        serde_json::Value::Array(_) => TomlValue::Array,
        serde_json::Value::Object(_) => TomlValue::Table,
    };
    Some(table.into_iter().map(|(key, value)| (key, convert(value))).collect())
}

/// The value of the first entry with a key.
fn value_of<'a>(entries: &'a Vec<(String, TomlValue)>, key: &str) -> (value: Option<&'a TomlValue>)
    ensures
        value is Some <==> item(items(entries@), key@) is Some,
        value matches Some(v) ==> v@ == item(items(entries@), key@)->0,
{
    let ghost all = items(entries@);
    let mut i: usize = 0;
    assert(all.skip(0) =~= all);
    while i < entries.len()
        invariant
            i <= entries@.len(),
            all == items(entries@),
            item(all, key@) == item(all.skip(i as int), key@),
        decreases entries@.len() - i,
    {
        assert(all.skip(i as int)[0] == (entries@[i as int].0@, entries@[i as int].1@));
        if same(entries[i].0.as_str(), key) {
            return Some(&entries[i].1);
        }
        assert(all.skip(i as int).skip(1) =~= all.skip(i + 1));
        i += 1;
    }
    None
}

impl Default for Config {
    fn default() -> (config: Self)
        ensures
            config@ == defaults(),
    {
        Config { scrolloff: 3, client_id: None }
    }
}

impl Config {
    /// Where the settings are kept.
    pub fn path(home: Option<&str>) -> (path: Option<Location>)
        ensures
            path is Some <==> home is Some,
            path matches Some(l) ==> l.home@ == home->0@ && l.tail@ == ".config/myx/config.toml"@,
    {
        below(home, ".config/myx/config.toml")
    }

    /// The settings of the file's contents; the defaults where there is no file or it is
    /// malformed.
    pub fn load(contents: Option<&str>) -> (config: Self)
        ensures
            config@ == loaded(contents),
    {
        match contents {
            Some(text) => match Config::parse(text) {
                Some(config) => config,
                None => Config::default(),
            },
            None => Config::default(),
        }
    }

    /// The settings of a TOML document; `None` where it is malformed or a setting has a wrong
    /// type. Keys that are no settings are ignored.
    pub fn parse(text: &str) -> (config: Option<Self>)
        ensures
            config is Some <==> parsed(text@) is Some,
            config matches Some(c) ==> c@ == parsed(text@)->0,
    {
        match entries_from_str(text) {
            Some(entries) => Config::from_entries(&entries),
            None => None,
        }
    }

    /// The settings of a TOML table's entries; `None` where one has a wrong type.
    pub fn from_entries(entries: &Vec<(String, TomlValue)>) -> (config: Option<Self>)
        ensures
            config is Some <==> settings(items(entries@)) is Some,
            config matches Some(c) ==> c@ == settings(items(entries@))->0,
    {
        let scrolloff: usize = match value_of(entries, "scrolloff") {
            None => 3,
            Some(TomlValue::Number(Some(rows))) => {
                if *rows < 0 || *rows as u64 > usize::MAX as u64 {
                    return None;
                }
                *rows as usize
            },
            Some(_) => {
                return None;
            },
        };
        let client_id: Option<String> = match value_of(entries, "client_id") {
            None => None,
            Some(TomlValue::Text(id)) => Some(id.clone()),
            Some(_) => {
                return None;
            },
        };
        Some(Config { scrolloff, client_id })
    }
}

/// The settings, read once: from `contents` where `slot` is still empty, and from then on those
/// in `slot`. Shared so that the client-id lookup and the UI cannot disagree about what the file
/// says.
pub fn get<'a>(slot: &'a mut Option<Config>, contents: Option<&str>) -> (config: &'a Config)
    ensures
        *final(slot) == Some(*config),
        *old(slot) is Some ==> *final(slot) == *old(slot),
        *old(slot) is None ==> config@ == loaded(contents),
{
    if slot.is_none() {
        *slot = Some(Config::load(contents));
    }
    slot.as_ref().unwrap()
}

/// An empty table sets nothing: every setting has its default.
pub proof fn empty_table_is_all_defaults()
    ensures
        settings(seq![]) == Some(defaults()),
{
}

/// An entry whose key is no setting changes nothing, wherever it stands and whatever its value.
pub proof fn unknown_keys_are_ignored(
    entries: Seq<(Seq<char>, TomlItem)>,
    at: int,
    key: Seq<char>,
    value: TomlItem,
)
    requires
        0 <= at <= entries.len(),
        key != "scrolloff"@,
        key != "client_id"@,
    ensures
        settings(entries.insert(at, (key, value))) == settings(entries),
{
    lemma_other_key(entries, at, key, value, "scrolloff"@);
    lemma_other_key(entries, at, key, value, "client_id"@);
}

proof fn lemma_other_key(
    entries: Seq<(Seq<char>, TomlItem)>,
    at: int,
    key: Seq<char>,
    value: TomlItem,
    wanted: Seq<char>,
)
    requires
        0 <= at <= entries.len(),
        key != wanted,
    ensures
        item(entries.insert(at, (key, value)), wanted) == item(entries, wanted),
    decreases entries.len(),
{
    let longer = entries.insert(at, (key, value));
    if at == 0 {
        assert(longer.skip(1) =~= entries);
    } else {
        assert(longer[0] == entries[0]);
        assert(longer.skip(1) =~= entries.skip(1).insert(at - 1, (key, value)));
        lemma_other_key(entries.skip(1), at - 1, key, value, wanted);
    }
}

/// A setting of the wrong type makes the whole table malformed: rows that are no integer or
/// negative, and a client id that is no text.
pub proof fn wrong_types_are_malformed(entries: Seq<(Seq<char>, TomlItem)>)
    requires
        match item(entries, "scrolloff"@) {
            None => false,
            Some(TomlItem::Number(Some(rows))) => rows < 0,
            Some(_) => true,
        } || match item(entries, "client_id"@) {
            None => false,
            Some(TomlItem::Text(_)) => false,
            Some(_) => true,
        },
    ensures
        settings(entries) is None,
{
}

/// A value of a TOML table says what it holds.
pub proof fn values_say_what_they_hold(text: String, number: Option<i64>, truth: bool)
    ensures
        TomlValue::Text(text)@ == TomlItem::Text(text@),
        TomlValue::Number(number)@ == TomlItem::Number(number),
        TomlValue::NotFinite@ == TomlItem::NotFinite,
        TomlValue::Boolean(truth)@ == TomlItem::Boolean(truth),
        TomlValue::Array@ == TomlItem::Array,
        TomlValue::Table@ == TomlItem::Table,
{
}

/// The entries of a table stand in it as they are given, each at its place.
pub proof fn entries_stand_at_their_places(entries: Seq<(String, TomlValue)>)
    ensures
        items(entries).len() == entries.len(),
        forall|i: int|
            0 <= i < entries.len() ==> #[trigger] items(entries)[i] == (
                entries[i].0@,
                entries[i].1@,
            ),
{
}

/// The settings of a configuration are the ones that it holds.
pub proof fn config_says_what_it_holds(config: Config)
    ensures
        config@.scrolloff == config.scrolloff,
        config.client_id matches Some(id) ==> config@.client_id == Some(id@),
        config.client_id is None ==> config@.client_id is None,
{
}

/// The value of a key is that of the first entry with it.
pub proof fn value_is_the_first_with_its_key(
    entries: Seq<(Seq<char>, TomlItem)>,
    key: Seq<char>,
    at: int,
)
    requires
        0 <= at <= entries.len(),
        at < entries.len() ==> entries[at].0 == key,
        forall|i: int| 0 <= i < at ==> (#[trigger] entries[i]).0 != key,
    ensures
        at < entries.len() ==> item(entries, key) == Some(entries[at].1),
        at == entries.len() ==> item(entries, key) is None,
    decreases entries.len(),
{
    if at > 0 {
        let rest = entries.skip(1);
        assert(entries[0].0 != key);
        assert forall|i: int| 0 <= i < at - 1 implies (#[trigger] rest[i]).0 != key by {
            assert(rest[i] == entries[i + 1]);
        }
        value_is_the_first_with_its_key(rest, key, at - 1);
    }
}

/// Settings are taken over as they are written: any number of rows that fits and any text as the
/// client id, three rows and no client id where nothing is written, and nothing is taken over
/// from a table in which either has a wrong type.
pub proof fn settings_are_taken_over(entries: Seq<(Seq<char>, TomlItem)>)
    ensures
        settings(entries) matches Some(found) ==> {
            &&& match item(entries, "scrolloff"@) {
                Some(value) => value == TomlItem::Number(Some(found.scrolloff as i64))
                    && 0 <= found.scrolloff <= i64::MAX,
                None => found.scrolloff == 3,
            }
            &&& match item(entries, "client_id"@) {
                Some(value) => found.client_id is Some && value == TomlItem::Text(
                    found.client_id->0,
                ),
                None => found.client_id is None,
            }
        },
        settings(entries) is Some <==> {
            &&& item(entries, "scrolloff"@) matches Some(value) ==> (value matches TomlItem::Number(
                Some(rows),
            ) && 0 <= rows <= usize::MAX)
            &&& item(entries, "client_id"@) matches Some(value) ==> value is Text
        },
{
}

/// A file that is missing or malformed loads as the defaults, and any other as it says.
pub proof fn bad_files_load_as_defaults(text: &str, entries: Seq<(Seq<char>, TomlItem)>)
    ensures
        loaded(None).scrolloff == 3 && loaded(None).client_id is None,
        toml_document(text@) is None ==> loaded(Some(text)).scrolloff == 3 && loaded(
            Some(text),
        ).client_id is None,
        toml_document(text@) == Some(entries) ==> match settings(entries) {
            Some(found) => parsed(text@) == Some(found) && loaded(Some(text)) == found,
            None => parsed(text@) is None && loaded(Some(text)).scrolloff == 3 && loaded(
                Some(text),
            ).client_id is None,
        },
        toml_document(text@) is None ==> parsed(text@) is None,
{
}

} // verus!
