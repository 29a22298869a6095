use super::errors::{ConfigError, ConfigErrorView};
use vstd::prelude::*;
use vstd::string::{StrSliceExecFns, StringExecFns};

verus! {

/// The key of the port we listen on.
pub const LISTEN_PORT: &'static str = "listen_port";

/// The key of the directory that logs are written to.
pub const LOG_PATH: &'static str = "log_path";

/// The key of the directory that the download is saved in.
pub const DOWNLOAD_PATH: &'static str = "download_path";

/// The key that says whether pieces are kept on disk.
pub const PERSIST_PIECES: &'static str = "persist_pieces";

/// Configuration of the client.
#[derive(Debug, Clone)]
pub struct Config {
    /// The TCP port on which the client takes connections from peers.
    pub listen_port: u16,
    /// The directory that logs are written to.
    pub log_path: String,
    /// The directory that the download is saved in.
    pub download_path: String,
    /// Whether pieces are kept on disk after the download.
    pub persist_pieces: bool,
}

/// A configuration, as plain values.
pub struct ConfigView {
    pub listen_port: u16,
    pub log_path: Seq<char>,
    pub download_path: Seq<char>,
    pub persist_pieces: bool,
}

impl View for Config {
    type V = ConfigView;

    open spec fn view(&self) -> ConfigView {
        ConfigView {
            listen_port: self.listen_port,
            log_path: self.log_path@,
            download_path: self.download_path@,
            persist_pieces: self.persist_pieces,
        }
    }
}

/// The first place from `from` on and before `to` at which `text` holds
/// `wanted`; `to` if there is none.
pub open spec fn find_char(text: Seq<char>, from: int, to: int, wanted: char) -> int
    decreases to - from,
{
    if from >= to {
        to
    } else if text[from] == wanted {
        from
    } else {
        find_char(text, from + 1, to, wanted)
    }
}

/// What the line `text[start .. stop]` adds to a dictionary: the text before
/// its first `=` as the key and the text between its first and its second
/// `=`, or the rest of the line if there is no second, as the value. A line
/// without `=` adds nothing.
pub open spec fn entry_of(text: Seq<char>, start: int, stop: int) -> Option<
    (Seq<char>, Seq<char>),
> {
    let equals = find_char(text, start, stop, '=');
    if equals >= stop {
        None
    } else {
        Some(
            (
                text.subrange(start, equals),
                text.subrange(equals + 1, find_char(text, equals + 1, stop, '=')),
            ),
        )
    }
}

/// Where the line that starts at `start` ends: before the line feed that
/// closes it, and before a carriage return in front of that line feed.
pub open spec fn line_stop(text: Seq<char>, start: int) -> int {
    let end = find_char(text, start, text.len() as int, '\n');
    if end < text.len() && end > start && text[end - 1] == '\r' {
        end - 1
    } else {
        end
    }
}

/// The entries that the lines of `text` from `start` on add to a
/// dictionary, in the order of the lines.
pub open spec fn entries_from(text: Seq<char>, start: int) -> Seq<(Seq<char>, Seq<char>)>
    decreases text.len() - start,
{
    if start < 0 || start >= text.len() {
        Seq::empty()
    } else {
        let end = find_char(text, start, text.len() as int, '\n');
        let rest = if start <= end < text.len() {
            entries_from(text, end + 1)
        } else {
            Seq::empty()
        };
        match entry_of(text, start, line_stop(text, start)) {
            Some(entry) => seq![entry] + rest,
            None => rest,
        }
    }
}

/// The value that the entries give for `key`: that of the last entry with
/// that key.
pub open spec fn lookup(entries: Seq<(Seq<char>, Seq<char>)>, key: Seq<char>) -> Option<Seq<char>>
    decreases entries.len(),
{
    if entries.len() == 0 {
        None
    } else if entries.last().0 == key {
        Some(entries.last().1)
    } else {
        lookup(entries.drop_last(), key)
    }
}

/// Whether `c` is one of the digits 0 to 9.
pub open spec fn is_digit(c: char) -> bool {
    '0' <= c <= '9'
}

/// The number that the first `count` characters of `digits` spell in
/// decimal.
pub open spec fn digits_value(digits: Seq<char>, count: nat) -> nat
    decreases count,
{
    if count == 0 {
        0
    } else {
        digits_value(digits, (count - 1) as nat) * 10 + (digits[count - 1] as nat
            - '0' as nat) as nat
    }
}

/// What `text` holds behind a plus sign at its front, if it has one.
pub open spec fn unsigned_part(text: Seq<char>) -> Seq<char> {
    if text.len() > 0 && text[0] == '+' {
        text.subrange(1, text.len() as int)
    } else {
        text
    }
}

/// The number that `text` spells, if it spells one that fits 16 bits: an
/// optional plus sign, then one or more decimal digits and nothing else.
pub open spec fn port_value(text: Seq<char>) -> Option<u16> {
    let digits = unsigned_part(text);
    if digits.len() > 0 && (forall|i: int| 0 <= i < digits.len() ==> is_digit(#[trigger] digits[i]))
        && digits_value(digits, digits.len()) <= u16::MAX {
        Some(digits_value(digits, digits.len()) as u16)
    } else {
        None
    }
}

/// The port to listen on: the port of the configuration plus the number
/// that the index spells, or plus nothing if the index spells none. A port
/// that is no number, or that the index moves past the last port, is
/// refused.
pub open spec fn indexed_port(port: Seq<char>, index: Seq<char>) -> Option<u16> {
    let shift = match port_value(index) {
        Some(shift) => shift,
        None => 0u16,
    };
    match port_value(port) {
        Some(base) => if base + shift <= u16::MAX {
            Some((base + shift) as u16)
        } else {
            None
        },
        None => None,
    }
}

/// The configuration that the entries and the index give. The port, the log
/// path, the download path and whether pieces are kept must each have an
/// entry, and the first of them that has none is reported; a port that is
/// refused is reported before the paths are looked at. The index is added to
/// the port and appended to both paths; pieces are kept if the entry says
/// `true`.
pub open spec fn config_of(entries: Seq<(Seq<char>, Seq<char>)>, index: Seq<char>) -> Result<
    ConfigView,
    ConfigErrorView,
> {
    match lookup(entries, LISTEN_PORT@) {
        None => Err(ConfigErrorView::MissingKey(LISTEN_PORT@)),
        Some(port) => match indexed_port(port, index) {
            None => Err(ConfigErrorView::InvalidPort(port)),
            Some(listen_port) => match lookup(entries, LOG_PATH@) {
                None => Err(ConfigErrorView::MissingKey(LOG_PATH@)),
                Some(log_path) => match lookup(entries, DOWNLOAD_PATH@) {
                    None => Err(ConfigErrorView::MissingKey(DOWNLOAD_PATH@)),
                    Some(download_path) => match lookup(entries, PERSIST_PIECES@) {
                        None => Err(ConfigErrorView::MissingKey(PERSIST_PIECES@)),
                        Some(persist) => Ok(
                            ConfigView {
                                listen_port,
                                log_path: log_path + index,
                                download_path: download_path + index,
                                persist_pieces: persist == "true"@,
                            },
                        ),
                    },
                },
            },
        },
    }
}

/// What a dictionary holds, as plain values.
pub open spec fn entries_view(entries: Seq<(String, String)>) -> Seq<(Seq<char>, Seq<char>)> {
    entries.map_values(|entry: (String, String)| (entry.0@, entry.1@))
}

/// The first place from `from` on and before `to` at which `text` holds
/// `wanted`; `to` if there is none.
fn position_of(text: &str, from: usize, to: usize, wanted: char) -> (place: usize)
    requires
        from <= to <= text@.len(),
    ensures
        place == find_char(text@, from as int, to as int, wanted),
        from <= place <= to,
{
    let mut place: usize = from;
    while place < to
        invariant
            from <= place <= to <= text@.len(),
            find_char(text@, from as int, to as int, wanted) == find_char(
                text@,
                place as int,
                to as int,
                wanted,
            ),
        decreases to - place,
    {
        if text.get_char(place) == wanted {
            return place;
        }
        place += 1;
    }
    place
}

/// Reads the lines of a configuration into a dictionary. Each line of the
/// form `key=value` adds an entry; other lines add nothing. The entries come
/// in the order of the lines, and a later entry for a key goes before an
/// earlier one when the key is looked up.
pub fn create_config_dict(content: &str) -> (entries: Vec<(String, String)>)
    ensures
        entries_view(entries@) == entries_from(content@, 0),
{
    let length: usize = content.unicode_len();
    let mut entries: Vec<(String, String)> = Vec::new();
    let mut start: usize = 0;
    assert(entries_view(entries@) + entries_from(content@, 0) =~= entries_from(content@, 0));
    while start < length
        invariant
            length == content@.len(),
            entries_from(content@, 0) == entries_view(entries@) + entries_from(
                content@,
                start as int,
            ),
        decreases length - start,
    {
        let ghost before = entries_view(entries@);
        let end = position_of(content, start, length, '\n');
        let stop: usize = if end < length && end > start && content.get_char(end - 1) == '\r' {
            end - 1
        } else {
            end
        };
        let equals = position_of(content, start, stop, '=');
        if equals < stop {
            let second = position_of(content, equals + 1, stop, '=');
            let key = String::from_str(content.substring_char(start, equals));
            let value = String::from_str(content.substring_char(equals + 1, second));
            entries.push((key, value));
            assert(entries_view(entries@) =~= before.push(
                (
                    content@.subrange(start as int, equals as int),
                    content@.subrange(equals + 1, second as int),
                ),
            ));
        }
        proof {
            let rest = entries_from(content@, end + 1);
            assert(entries_from(content@, start as int) == match entry_of(
                content@,
                start as int,
                stop as int,
            ) {
                Some(entry) => seq![entry] + rest,
                None => rest,
            });
            assert(before + entries_from(content@, start as int) =~= entries_view(entries@) + rest);
        }
        if end >= length {
            assert(entries_from(content@, end + 1) =~= Seq::empty());
            assert(entries_view(entries@) + Seq::empty() =~= entries_view(entries@));
            return entries;
        }
        start = end + 1;
    }
    assert(entries_view(entries@) + Seq::empty() =~= entries_view(entries@));
    entries
}

/// Whether two strings hold the same characters.
fn same_text(left: &str, right: &str) -> (same: bool)
    ensures
        same == (left@ == right@),
{
    let length = left.unicode_len();
    if length != right.unicode_len() {
        return false;
    }
    let mut at: usize = 0;
    while at < length
        invariant
            at <= length,
            length == left@.len(),
            length == right@.len(),
            forall|i: int| 0 <= i < at ==> left@[i] == right@[i],
        decreases length - at,
    {
        if left.get_char(at) != right.get_char(at) {
            return false;
        }
        at += 1;
    }
    assert(left@ =~= right@);
    true
}

/// The value that the dictionary gives for `key`: that of the last entry
/// with that key.
pub fn find_value<'a>(entries: &'a Vec<(String, String)>, key: &str) -> (value: Option<&'a String>)
    ensures
        match value {
            Some(text) => lookup(entries_view(entries@), key@) == Some(text@),
            None => lookup(entries_view(entries@), key@) is None,
        },
{
    let ghost all = entries_view(entries@);
    let mut left: usize = entries.len();
    assert(all.take(left as int) =~= all);
    while left > 0
        invariant
            left <= entries@.len(),
            all == entries_view(entries@),
            lookup(all, key@) == lookup(all.take(left as int), key@),
        decreases left,
    {
        assert(all.take(left as int).drop_last() =~= all.take(left - 1));
        assert(all.take(left as int).last() == all[left - 1]);
        if same_text(entries[left - 1].0.as_str(), key) {
            return Some(&entries[left - 1].1);
        }
        left -= 1;
    }
    None
}

/// Reads a port: an optional plus sign, then one or more decimal digits that
/// spell a number of at most 65535.
pub fn parse_port(text: &str) -> (port: Option<u16>)
    ensures
        port == port_value(text@),
{
    let length = text.unicode_len();
    let first: usize = if length > 0 && text.get_char(0) == '+' {
        1
    } else {
        0
    };
    let ghost digits = unsigned_part(text@);
    assert(digits =~= text@.subrange(first as int, length as int));
    if first >= length {
        return None;
    }
    let mut value: u32 = 0;
    let mut at: usize = first;
    while at < length
        invariant
            first <= at <= length,
            length == text@.len(),
            digits == unsigned_part(text@),
            digits == text@.subrange(first as int, length as int),
            forall|i: int| 0 <= i < at - first ==> is_digit(#[trigger] digits[i]),
            value == digits_value(digits, (at - first) as nat),
            value <= u16::MAX,
        decreases length - at,
    {
        let c = text.get_char(at);
        assert(digits[at - first] == c);
        if c < '0' || c > '9' {
            assert(!is_digit(digits[at - first]));
            return None;
        }
        let digit: u32 = c as u32 - '0' as u32;
        let next: u32 = value * 10 + digit;
        if next > 0xffff {
            proof {
                assert(digits_value(digits, (at - first + 1) as nat) == next);
                lemma_digits_value_grows(digits, (at - first + 1) as nat, digits.len());
            }
            return None;
        }
        value = next;
        at += 1;
    }
    Some(value as u16)
}

/// Reading more digits never gives a smaller number.
proof fn lemma_digits_value_grows(digits: Seq<char>, fewer: nat, more: nat)
    requires
        fewer <= more,
    ensures
        digits_value(digits, fewer) <= digits_value(digits, more),
    decreases more - fewer,
{
    if fewer < more {
        lemma_digits_value_grows(digits, fewer, (more - 1) as nat);
    }
}

/// Makes the configuration that the dictionary and the index give. The port,
/// the log path, the download path and whether pieces are kept must each
/// have an entry, and the first of them that has none is reported; a port
/// that is no port is reported with the text found in its place. The index
/// is added to the port, if it spells a number, and appended to both paths.
pub fn create_config(config_dict: &Vec<(String, String)>, index: &str) -> (config: Result<
    Config,
    ConfigError,
>)
    ensures
        match config {
            Ok(made) => config_of(entries_view(config_dict@), index@) == Ok::<
                ConfigView,
                ConfigErrorView,
            >(made@),
            Err(error) => config_of(entries_view(config_dict@), index@) == Err::<
                ConfigView,
                ConfigErrorView,
            >(error@),
        },
{
    let port_text = match find_value(config_dict, LISTEN_PORT) {
        Some(text) => text,
        None => {
            return Err(ConfigError::MissingKey(String::from_str(LISTEN_PORT)));
        },
    };
    let shift: u16 = match parse_port(index) {
        Some(shift) => shift,
        None => 0,
    };
    let listen_port: u16 = match parse_port(port_text.as_str()) {
        Some(base) => {
            if base > u16::MAX - shift {
                return Err(ConfigError::InvalidPort(port_text.clone()));
            }
            base + shift
        },
        None => {
            return Err(ConfigError::InvalidPort(port_text.clone()));
        },
    };
    let log_path = match find_value(config_dict, LOG_PATH) {
        Some(text) => text.clone().concat(index),
        None => {
            return Err(ConfigError::MissingKey(String::from_str(LOG_PATH)));
        },
    };
    let download_path = match find_value(config_dict, DOWNLOAD_PATH) {
        Some(text) => text.clone().concat(index),
        None => {
            return Err(ConfigError::MissingKey(String::from_str(DOWNLOAD_PATH)));
        },
    };
    let persist_pieces = match find_value(config_dict, PERSIST_PIECES) {
        Some(text) => same_text(text.as_str(), "true"),
        None => {
            return Err(ConfigError::MissingKey(String::from_str(PERSIST_PIECES)));
        },
    };
    Ok(Config { listen_port, log_path, download_path, persist_pieces })
}

impl Config {
    /// Reads a configuration from the text of a configuration file. `index`
    /// tells several clients on one machine apart: it is added to the port
    /// and appended to the paths.
    pub fn from_content(content: &str, index: &str) -> (config: Result<Config, ConfigError>)
        ensures
            match config {
                Ok(made) => config_of(entries_from(content@, 0), index@) == Ok::<
                    ConfigView,
                    ConfigErrorView,
                >(made@),
                Err(error) => config_of(entries_from(content@, 0), index@) == Err::<
                    ConfigView,
                    ConfigErrorView,
                >(error@),
            },
    {
        let config_dictionary = create_config_dict(content);
        create_config(&config_dictionary, index)
    }
}

} // verus!
