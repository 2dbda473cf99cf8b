//! The `wallpaper.conf` configuration file: `key:value` lines and
//! `monitor:name:wallpaper` lines, with `#` comments.

use vstd::prelude::*;
use crate::text::{
    chars_eq, chars_eq_str, chars_of, decimal, join_lines, lemma_lines_of_join,
    lemma_split_on_basics, lemma_split_on_pair, lemma_split_on_triple, lines_of, lines_of_chars,
    push_char, push_chars, push_decimal, push_str, lowercase, split_chars, split_on, string_of,
    strip_cr, lowercase_str, views, is_ascii_text, law_lowercase_ascii,
};

verus! {

/// Key/value entries in the order they were first inserted.
pub type Entries = Seq<(Seq<char>, Seq<char>)>;

/// The entries held by a vector of string pairs.
pub open spec fn pair_views(v: Seq<(String, String)>) -> Entries {
    Seq::new(v.len(), |i: int| (v[i].0@, v[i].1@))
}

/// Whether some entry has key `k`.
pub open spec fn has_key(e: Entries, k: Seq<char>) -> bool {
    exists|i: int| 0 <= i < e.len() && #[trigger] e[i].0 == k
}

/// No key occurs twice.
pub open spec fn distinct_keys(e: Entries) -> bool {
    forall|i: int, j: int|
        0 <= i < e.len() && 0 <= j < e.len() && i != j ==> #[trigger] e[i].0 != #[trigger] e[j].0
}

/// The position of the entry with key `k`, where there is one.
pub open spec fn key_index(e: Entries, k: Seq<char>) -> int {
    choose|i: int| 0 <= i < e.len() && #[trigger] e[i].0 == k
}

/// Inserting into a map: the value of an existing key is replaced in place,
/// a new key is added at the end.
pub open spec fn entry_insert(e: Entries, k: Seq<char>, v: Seq<char>) -> Entries {
    if has_key(e, k) {
        e.update(key_index(e, k), (k, v))
    } else {
        e.push((k, v))
    }
}

/// The map that the entries describe.
pub open spec fn entries_map(e: Entries) -> Map<Seq<char>, Seq<char>> {
    Map::new(|k: Seq<char>| has_key(e, k), |k: Seq<char>| e[key_index(e, k)].1)
}

/// The word that marks a monitor line.
pub open spec fn monitor_word() -> Seq<char> {
    seq!['m', 'o', 'n', 'i', 't', 'o', 'r']
}

/// Where reading a configuration text stands after some of its lines.
pub enum ConfigParse {
    /// All lines so far were read; `line` counts the lines that were not comments.
    Reading { values: Entries, monitors: Entries, line: nat },
    /// A monitor line without exactly two fields was found.
    InvalidMonitor { line: nat },
    /// A line with neither a `:` nor the monitor word was found (the reader gives up).
    MissingSeparator,
}

/// Reads one line that is not a comment, once lowercased, into the entries
/// read so far (`line` of them being lines that were not comments).
pub open spec fn read_lowered(values: Entries, monitors: Entries, line: nat, lowered: Seq<char>) -> ConfigParse {
    let parts = split_on(lowered, ':');
    if parts[0] == monitor_word() {
        if parts.len() != 3 {
            ConfigParse::InvalidMonitor { line }
        } else {
            ConfigParse::Reading {
                values,
                monitors: entry_insert(monitors, parts[1], parts[2]),
                line: line + 1,
            }
        }
    } else if parts.len() < 2 {
        ConfigParse::MissingSeparator
    } else {
        ConfigParse::Reading {
            values: entry_insert(values, parts[0], parts[1]),
            monitors,
            line: line + 1,
        }
    }
}

/// Whether a raw line is a comment: it starts with `#`.
pub open spec fn is_comment(raw: Seq<char>) -> bool {
    raw.len() > 0 && raw[0] == '#'
}

/// Reads one raw line of the file.
pub open spec fn config_step(st: ConfigParse, raw: Seq<char>) -> ConfigParse {
    match st {
        ConfigParse::Reading { values, monitors, line } => {
            if is_comment(raw) {
                st
            } else {
                read_lowered(values, monitors, line, lowercase(raw))
            }
        },
        _ => st,
    }
}

/// Reads the raw lines in order, from an empty configuration.
pub open spec fn config_run(lines: Seq<Seq<char>>) -> ConfigParse
    decreases lines.len(),
{
    if lines.len() == 0 {
        ConfigParse::Reading { values: Seq::empty(), monitors: Seq::empty(), line: 0 }
    } else {
        config_step(config_run(lines.drop_last()), lines.last())
    }
}

/// The outcome of reading the whole text of a configuration file.
pub open spec fn parse_config_text(text: Seq<char>) -> ConfigParse {
    config_run(lines_of(text))
}

/// The lines that are not comments, in order.
pub open spec fn without_comments(lines: Seq<Seq<char>>) -> Seq<Seq<char>> {
    lines.filter(|l: Seq<char>| !is_comment(l))
}

/// Reading skips comment lines: it reads the lines as it reads the lines
/// that are not comments.
proof fn lemma_config_run_without_comments(lines: Seq<Seq<char>>)
    ensures
        config_run(lines) == config_run(without_comments(lines)),
    decreases lines.len(),
{
    reveal(Seq::filter);
    if lines.len() > 0 {
        let init = lines.drop_last();
        lemma_config_run_without_comments(init);
        let f = without_comments(init);
        if !is_comment(lines.last()) {
            assert(without_comments(lines) == f.push(lines.last()));
            assert(f.push(lines.last()).drop_last() =~= f);
        } else {
            assert(without_comments(lines) == f);
        }
    }
}

/// Law: comment lines change nothing in what a configuration text reads as:
/// two texts with the same lines apart from comments (lines that start with
/// `#`) give the same settings, monitor entries and errors, the line number
/// of an error included.
pub proof fn law_comment_lines_change_nothing(text: Seq<char>, other: Seq<char>)
    requires
        without_comments(lines_of(text)) == without_comments(lines_of(other)),
    ensures
        parse_config_text(text) == parse_config_text(other),
{
    lemma_config_run_without_comments(lines_of(text));
    lemma_config_run_without_comments(lines_of(other));
}

/// Once reading has stopped, later lines change nothing.
pub proof fn lemma_config_run_stops(lines: Seq<Seq<char>>, i: int)
    requires
        0 <= i <= lines.len(),
        !(config_run(lines.take(i)) is Reading),
    ensures
        config_run(lines) == config_run(lines.take(i)),
    decreases lines.len() - i,
{
    if i < lines.len() {
        assert(lines.take(i + 1).drop_last() =~= lines.take(i));
        lemma_config_run_stops(lines, i + 1);
    } else {
        assert(lines.take(i) =~= lines);
    }
}

/// The line of text that stores the value entry `(k, v)`.
pub open spec fn value_line(k: Seq<char>, v: Seq<char>) -> Seq<char> {
    k + seq![':'] + v
}

/// The line of text that stores the monitor entry `(k, v)`.
pub open spec fn monitor_line(k: Seq<char>, v: Seq<char>) -> Seq<char> {
    monitor_word() + seq![':'] + k + seq![':'] + v
}

/// The lines that store the settings `values`.
pub open spec fn value_lines(values: Entries) -> Seq<Seq<char>> {
    Seq::new(values.len(), |i: int| value_line(values[i].0, values[i].1))
}

/// The lines that store the monitor entries `monitors`.
pub open spec fn monitor_lines(monitors: Entries) -> Seq<Seq<char>> {
    Seq::new(monitors.len(), |i: int| monitor_line(monitors[i].0, monitors[i].1))
}

/// The lines that store `values` and then `monitors`.
pub open spec fn config_lines(values: Entries, monitors: Entries) -> Seq<Seq<char>> {
    value_lines(values) + monitor_lines(monitors)
}

/// The text that `Config::to_text` writes.
pub open spec fn config_text(values: Entries, monitors: Entries) -> Seq<char> {
    join_lines(config_lines(values, monitors))
}

/// How a configuration file failed to read.
#[derive(Debug, PartialEq, Eq, Structural)]
pub enum ConfigError {
    /// A `monitor` line did not have exactly a name and a wallpaper; `line`
    /// counts the lines before it that were not comments, from 0.
    InvalidMonitor { line: usize },
}

impl ConfigError {
    /// The message the error carries: `Invalid monitor config at line <n>`.
    pub fn message(&self) -> (res: String)
        ensures
            res@ == (match self {
                ConfigError::InvalidMonitor { line } => invalid_monitor_prefix() + decimal(*line as nat),
            }),
    {
        match self {
            ConfigError::InvalidMonitor { line } => {
                let mut s = String::new();
                push_chars(&mut s, &invalid_monitor_prefix_chars());
                push_decimal(&mut s, *line as u64);
                s
            },
        }
    }
}

/// `Invalid monitor config at line `.
pub open spec fn invalid_monitor_prefix() -> Seq<char> {
    seq![
        'I', 'n', 'v', 'a', 'l', 'i', 'd', ' ', 'm', 'o', 'n', 'i', 't', 'o', 'r', ' ', 'c',
        'o', 'n', 'f', 'i', 'g', ' ', 'a', 't', ' ', 'l', 'i', 'n', 'e', ' ',
    ]
}

fn invalid_monitor_prefix_chars() -> (res: Vec<char>)
    ensures
        res@ == invalid_monitor_prefix(),
{
    let v = vec![
        'I', 'n', 'v', 'a', 'l', 'i', 'd', ' ', 'm', 'o', 'n', 'i', 't', 'o', 'r', ' ', 'c',
        'o', 'n', 'f', 'i', 'g', ' ', 'a', 't', ' ', 'l', 'i', 'n', 'e', ' ',
    ];
    assert(v@ =~= invalid_monitor_prefix());
    v
}

/// Inserts `(k, v)` into `entries` as a map insert does.
fn entries_insert(entries: &mut Vec<(String, String)>, k: String, v: String)
    requires
        distinct_keys(pair_views(old(entries)@)),
    ensures
        pair_views(final(entries)@) == entry_insert(pair_views(old(entries)@), k@, v@),
        distinct_keys(pair_views(final(entries)@)),
{
    let ghost e = pair_views(entries@);
    let mut i: usize = 0;
    while i < entries.len()
        invariant
            i <= entries.len(),
            e == pair_views(entries@),
            e == pair_views(old(entries)@),
            distinct_keys(e),
            forall|j: int| 0 <= j < i ==> e[j].0 != k@,
        decreases entries.len() - i,
    {
        if entries[i].0 == k {
            assert(e[i as int].0 == k@);
            assert(has_key(e, k@));
            assert(key_index(e, k@) == i);
            entries.set(i, (k, v));
            assert(pair_views(entries@) =~= e.update(i as int, (k@, v@)));
            return;
        }
        i = i + 1;
    }
    assert(!has_key(e, k@));
    entries.push((k, v));
    assert(pair_views(entries@) =~= e.push((k@, v@)));
}

/// The value stored under `k` in `entries`, if any.
fn entries_get(entries: &Vec<(String, String)>, k: &str) -> (res: Option<String>)
    requires
        distinct_keys(pair_views(entries@)),
    ensures
        res is Some <==> has_key(pair_views(entries@), k@),
        res matches Some(v) ==> v@ == entries_map(pair_views(entries@))[k@],
{
    let ghost e = pair_views(entries@);
    let kc = chars_of(k);
    let mut i: usize = 0;
    while i < entries.len()
        invariant
            i <= entries.len(),
            e == pair_views(entries@),
            kc@ == k@,
            distinct_keys(e),
            forall|j: int| 0 <= j < i ==> e[j].0 != k@,
        decreases entries.len() - i,
    {
        let ec = chars_of(entries[i].0.as_str());
        if chars_eq(ec.as_slice(), kc.as_slice()) {
            assert(e[i as int].0 == k@);
            assert(has_key(e, k@));
            assert(key_index(e, k@) == i);
            return Some(entries[i].1.clone());
        }
        i = i + 1;
    }
    None
}

/// The configuration: plain settings and the wallpaper chosen per monitor.
pub struct Config {
    /// All config values without monitors.
    values: Vec<(String, String)>,
    /// All monitor entries.
    monitors: Vec<(String, String)>,
}

impl Config {
    /// No key occurs twice among the values, nor among the monitors.
    #[verifier::type_invariant]
    spec fn inv(self) -> bool {
        &&& distinct_keys(pair_views(self.values@))
        &&& distinct_keys(pair_views(self.monitors@))
    }

    /// The settings, in the order their keys first appeared.
    pub closed spec fn values_view(&self) -> Entries {
        pair_views(self.values@)
    }

    /// The monitor entries, in the order their names first appeared.
    pub closed spec fn monitors_view(&self) -> Entries {
        pair_views(self.monitors@)
    }

    /// A configuration with no entries.
    pub fn new() -> (res: Config)
        ensures
            res.values_view() == Seq::<(Seq<char>, Seq<char>)>::empty(),
            res.monitors_view() == Seq::<(Seq<char>, Seq<char>)>::empty(),
    {
        let c = Config { values: Vec::new(), monitors: Vec::new() };
        assert(pair_views(c.values@) =~= Seq::<(Seq<char>, Seq<char>)>::empty());
        assert(pair_views(c.monitors@) =~= Seq::<(Seq<char>, Seq<char>)>::empty());
        c
    }

    /// Sets the setting `key` to `value`.
    pub fn set_value(&mut self, key: String, value: String)
        ensures
            final(self).values_view() == entry_insert(old(self).values_view(), key@, value@),
            final(self).monitors_view() == old(self).monitors_view(),
    {
        proof {
            use_type_invariant(&*self);
        }
        let mut values: Vec<(String, String)> = Vec::new();
        std::mem::swap(&mut values, &mut self.values);
        entries_insert(&mut values, key, value);
        self.values = values;
    }

    /// Reads the text of a configuration file: each line that does not start
    /// with `#` is lowercased and split at `:`; `monitor:<name>:<wallpaper>`
    /// sets a monitor entry, any other `<key>:<value>` sets a value (fields
    /// after the second are ignored). A monitor line with another number of
    /// fields stops the reading with an error that names the line.
    pub fn from_text(text: &str) -> (res: Result<Config, ConfigError>)
        requires
            !(parse_config_text(text@) is MissingSeparator),
        ensures
            match res {
                Ok(c) => parse_config_text(text@) matches ConfigParse::Reading { values, monitors, .. }
                    && values == c.values_view() && monitors == c.monitors_view(),
                Err(ConfigError::InvalidMonitor { line }) => parse_config_text(text@)
                    == ConfigParse::InvalidMonitor { line: line as nat },
            },
    {
        match Self::read_text(text) {
            Some(r) => r,
            None => {
                assert(false);
                Err(ConfigError::InvalidMonitor { line: 0 })
            },
        }
    }

    /// Reads the text of a configuration file as `from_text` does, but gives
    /// `None` for a text on which `from_text` cannot be called: one where a
    /// line that is read has neither a `:` nor the monitor word.
    pub fn try_from_text(text: &str) -> (res: Option<Result<Config, ConfigError>>)
        ensures
            res is None <==> parse_config_text(text@) is MissingSeparator,
            match res {
                Some(Ok(c)) => parse_config_text(text@) matches ConfigParse::Reading {
                    values,
                    monitors,
                    ..
                } && values == c.values_view() && monitors == c.monitors_view(),
                Some(Err(ConfigError::InvalidMonitor { line })) => parse_config_text(text@)
                    == ConfigParse::InvalidMonitor { line: line as nat },
                None => true,
            },
    {
        match Self::read_text(text) {
            Some(_) => Some(Self::from_text(text)),
            None => None,
        }
    }

    /// The reading behind `from_text`, with `None` where it gives up.
    fn read_text(text: &str) -> (res: Option<Result<Config, ConfigError>>)
        ensures
            res is None <==> parse_config_text(text@) is MissingSeparator,
            match res {
                Some(Ok(c)) => parse_config_text(text@) matches ConfigParse::Reading {
                    values,
                    monitors,
                    ..
                } && values == c.values_view() && monitors == c.monitors_view(),
                Some(Err(ConfigError::InvalidMonitor { line })) => parse_config_text(text@)
                    == ConfigParse::InvalidMonitor { line: line as nat },
                None => true,
            },
    {
        let chars = chars_of(text);
        let lines = lines_of_chars(chars.as_slice());
        let ghost ls = views(lines@);
        let mut c = Config::new();
        let mut line: usize = 0;
        let mut i: usize = 0;
        assert(ls.take(0) =~= Seq::<Seq<char>>::empty());
        while i < lines.len()
            invariant
                ls == views(lines@),
                ls == lines_of(text@),
                i <= lines.len(),
                line <= i,
                config_run(ls.take(i as int)) == (ConfigParse::Reading {
                    values: c.values_view(),
                    monitors: c.monitors_view(),
                    line: line as nat,
                }),
            decreases lines.len() - i,
        {
            let raw = &lines[i];
            assert(raw@ == ls[i as int]);
            assert(ls.take(i + 1).drop_last() =~= ls.take(i as int));
            assert(ls.take(i + 1).last() == ls[i as int]);
            if raw.len() > 0 && raw[0] == '#' {
                i = i + 1;
                continue;
            }
            let raw_string = string_of(raw.as_slice());
            let lower = lowercase_str(raw_string.as_str());
            match c.read_lowered_line(line, lower.as_str()) {
                None => {
                    proof {
                        lemma_config_run_stops(ls, i + 1);
                        assert(ls.take(ls.len() as int) =~= ls);
                    }
                    return None;
                },
                Some(Err(e)) => {
                    proof {
                        lemma_config_run_stops(ls, i + 1);
                        assert(ls.take(ls.len() as int) =~= ls);
                    }
                    return Some(Err(e));
                },
                Some(Ok(())) => {},
            }
            line = line + 1;
            i = i + 1;
        }
        assert(ls.take(lines.len() as int) =~= ls);
        Some(Ok(c))
    }

    /// Reads one line of a configuration file that is not a comment, once
    /// lowercased, as `from_text` does: `monitor:<name>:<wallpaper>` sets a
    /// monitor entry, `<key>:<value>` (further fields ignored) sets a value.
    /// A monitor line with another number of fields gives the error of line
    /// number `line`; a line with neither a `:` nor the monitor word gives
    /// `None`. The configuration changes only where the line is read.
    pub fn read_lowered_line(&mut self, line: usize, lowered: &str) -> (res: Option<Result<(), ConfigError>>)
        ensures
            match read_lowered(old(self).values_view(), old(self).monitors_view(), line as nat, lowered@) {
                ConfigParse::Reading { values, monitors, .. } => res == Some(Ok::<(), ConfigError>(()))
                    && final(self).values_view() == values && final(self).monitors_view() == monitors,
                ConfigParse::InvalidMonitor { .. } => res == Some(Err::<(), ConfigError>(ConfigError::InvalidMonitor { line }))
                    && final(self).values_view() == old(self).values_view()
                    && final(self).monitors_view() == old(self).monitors_view(),
                ConfigParse::MissingSeparator => res is None
                    && final(self).values_view() == old(self).values_view()
                    && final(self).monitors_view() == old(self).monitors_view(),
            },
    {
        let lc = chars_of(lowered);
        let parts = split_chars(lc.as_slice(), ':');
        proof {
            lemma_split_on_basics(lc@, ':');
            reveal_strlit("monitor");
            assert("monitor"@ =~= monitor_word());
        }
        assert(views(parts@)[0] == parts[0]@);
        if chars_eq_str(parts[0].as_slice(), "monitor") {
            if parts.len() != 3 {
                return Some(Err(ConfigError::InvalidMonitor { line }));
            }
            assert(views(parts@)[1] == parts[1]@);
            assert(views(parts@)[2] == parts[2]@);
            let k = string_of(parts[1].as_slice());
            let v = string_of(parts[2].as_slice());
            self.set_monitor(k, v);
        } else {
            if parts.len() < 2 {
                return None;
            }
            assert(views(parts@)[1] == parts[1]@);
            let k = string_of(parts[0].as_slice());
            let v = string_of(parts[1].as_slice());
            self.set_value(k, v);
        }
        Some(Ok(()))
    }

    /// The value of the setting `key`, if it is set.
    pub fn value(&self, key: &str) -> (res: Option<String>)
        ensures
            res is Some <==> entries_map(self.values_view()).contains_key(key@),
            res matches Some(v) ==> v@ == entries_map(self.values_view())[key@],
    {
        proof {
            use_type_invariant(self);
        }
        entries_get(&self.values, key)
    }

    /// The wallpaper set for the monitor `name`, if any.
    pub fn monitor(&self, name: &str) -> (res: Option<String>)
        ensures
            res is Some <==> entries_map(self.monitors_view()).contains_key(name@),
            res matches Some(v) ==> v@ == entries_map(self.monitors_view())[name@],
    {
        proof {
            use_type_invariant(self);
        }
        entries_get(&self.monitors, name)
    }

    /// Sets the wallpaper of the monitor `name`.
    pub fn set_monitor(&mut self, name: String, wallpaper: String)
        ensures
            final(self).monitors_view() == entry_insert(old(self).monitors_view(), name@, wallpaper@),
            final(self).values_view() == old(self).values_view(),
    {
        proof {
            use_type_invariant(&*self);
        }
        let mut monitors: Vec<(String, String)> = Vec::new();
        std::mem::swap(&mut monitors, &mut self.monitors);
        entries_insert(&mut monitors, name, wallpaper);
        self.monitors = monitors;
    }

    /// The text that stores this configuration: one `<key>:<value>` line per
    /// setting, then one `monitor:<name>:<wallpaper>` line per monitor.
    pub fn to_text(&self) -> (res: String)
        ensures
            res@ == config_text(self.values_view(), self.monitors_view()),
    {
        let ghost ls = config_lines(self.values_view(), self.monitors_view());
        let ghost vn: int = self.values@.len() as int;
        let mut s = String::new();
        let mut i: usize = 0;
        assert(ls.take(0) =~= Seq::<Seq<char>>::empty());
        while i < self.values.len()
            invariant
                ls == config_lines(self.values_view(), self.monitors_view()),
                vn == self.values@.len(),
                i <= vn,
                s@ == join_lines(ls.take(i as int)),
            decreases self.values.len() - i,
        {
            let ghost before = s@;
            push_str(&mut s, self.values[i].0.as_str());
            push_char(&mut s, ':');
            push_str(&mut s, self.values[i].1.as_str());
            push_char(&mut s, '\n');
            assert(ls.take(i + 1).drop_last() =~= ls.take(i as int));
            assert(ls[i as int] == value_line(self.values@[i as int].0@, self.values@[i as int].1@));
            assert(s@ =~= before + ls[i as int] + seq!['\n']);
            i = i + 1;
        }
        let mut j: usize = 0;
        while j < self.monitors.len()
            invariant
                ls == config_lines(self.values_view(), self.monitors_view()),
                vn == self.values@.len(),
                j <= self.monitors@.len(),
                s@ == join_lines(ls.take(vn + j)),
            decreases self.monitors.len() - j,
        {
            let ghost before = s@;
            push_chars(&mut s, &monitor_chars());
            push_char(&mut s, ':');
            push_str(&mut s, self.monitors[j].0.as_str());
            push_char(&mut s, ':');
            push_str(&mut s, self.monitors[j].1.as_str());
            push_char(&mut s, '\n');
            assert(ls.take(vn + j + 1).drop_last() =~= ls.take(vn + j));
            assert(ls[vn + j] == monitor_line(self.monitors@[j as int].0@, self.monitors@[j as int].1@));
            assert(s@ =~= before + ls[vn + j] + seq!['\n']);
            j = j + 1;
        }
        assert(ls.take(vn + self.monitors@.len() as int) =~= ls);
        s
    }
}

/// The characters of the monitor word.
fn monitor_chars() -> (res: Vec<char>)
    ensures
        res@ == monitor_word(),
{
    let v = vec!['m', 'o', 'n', 'i', 't', 'o', 'r'];
    assert(v@ =~= monitor_word());
    v
}

/// A key or value that a line of the file can hold and give back unchanged:
/// no `:` and no line feed.
pub open spec fn plain_field(s: Seq<char>) -> bool {
    !s.contains(':') && !s.contains('\n')
}

/// The entries that writing and reading back keep: keys do not repeat, no
/// field holds a `:` or a line feed, no setting is called `monitor` or starts
/// with `#`, and every written line is left alone by lowercasing and does not
/// end with a carriage return.
pub open spec fn config_round_trips(values: Entries, monitors: Entries) -> bool {
    &&& distinct_keys(values)
    &&& distinct_keys(monitors)
    &&& forall|i: int|
        0 <= i < values.len() ==> {
            &&& plain_field(#[trigger] values[i].0)
            &&& plain_field(values[i].1)
            &&& values[i].0 != monitor_word()
            &&& !(values[i].0.len() > 0 && values[i].0[0] == '#')
        }
    &&& forall|i: int|
        0 <= i < monitors.len() ==> plain_field(#[trigger] monitors[i].0) && plain_field(
            monitors[i].1,
        )
    &&& forall|i: int|
        0 <= i < config_lines(values, monitors).len() ==> {
            &&& lowercase(#[trigger] config_lines(values, monitors)[i])
                == config_lines(values, monitors)[i]
            &&& strip_cr(config_lines(values, monitors)[i]) == config_lines(values, monitors)[i]
        }
}

proof fn lemma_concat_lacks(a: Seq<char>, b: Seq<char>, c: char)
    requires
        !a.contains(c),
        !b.contains(c),
    ensures
        !(a + b).contains(c),
{
    if (a + b).contains(c) {
        let k = choose|k: int| 0 <= k < (a + b).len() && (a + b)[k] == c;
        if k < a.len() {
            assert(a[k] == c);
        } else {
            assert(b[k - a.len()] == c);
        }
    }
}

proof fn lemma_single_lacks(x: char, c: char)
    requires
        x != c,
    ensures
        !seq![x].contains(c),
{
}

proof fn lemma_monitor_word_plain()
    ensures
        plain_field(monitor_word()),
{
    assert(!monitor_word().contains(':')) by {
        if monitor_word().contains(':') {
            let k = choose|k: int| 0 <= k < monitor_word().len() && monitor_word()[k] == ':';
        }
    }
    assert(!monitor_word().contains('\n')) by {
        if monitor_word().contains('\n') {
            let k = choose|k: int| 0 <= k < monitor_word().len() && monitor_word()[k] == '\n';
        }
    }
}

/// A new key is added at the end.
proof fn lemma_insert_new_key(e: Entries, k: Seq<char>, v: Seq<char>)
    requires
        !has_key(e, k),
    ensures
        entry_insert(e, k, v) == e.push((k, v)),
{
}

/// The reading of the first `i` written lines.
proof fn lemma_config_run_written(values: Entries, monitors: Entries, i: int)
    requires
        config_round_trips(values, monitors),
        0 <= i <= values.len() + monitors.len(),
    ensures
        config_run(config_lines(values, monitors).take(i)) == (if i <= values.len() {
            ConfigParse::Reading { values: values.take(i), monitors: Seq::empty(), line: i as nat }
        } else {
            ConfigParse::Reading {
                values,
                monitors: monitors.take(i - values.len()),
                line: i as nat,
            }
        }),
    decreases i,
{
    let ls = config_lines(values, monitors);
    let vn = values.len() as int;
    if i == 0 {
        assert(ls.take(0) =~= Seq::<Seq<char>>::empty());
        assert(values.take(0) =~= Seq::<(Seq<char>, Seq<char>)>::empty());
    } else {
        lemma_config_run_written(values, monitors, i - 1);
        assert(ls.take(i).drop_last() =~= ls.take(i - 1));
        let raw = ls[i - 1];
        assert(ls.take(i).last() == raw);
        assert(lowercase(raw) == raw);
        lemma_monitor_word_plain();
        if i - 1 < vn {
            let k = values[i - 1].0;
            let v = values[i - 1].1;
            assert(raw == value_line(k, v));
            assert(plain_field(k) && plain_field(v));
            lemma_split_on_pair(k, v, ':');
            assert(!(raw.len() > 0 && raw[0] == '#')) by {
                if k.len() > 0 {
                    assert(raw[0] == k[0]);
                } else {
                    assert(raw[0] == ':');
                }
            }
            assert(!has_key(values.take(i - 1), k)) by {
                if has_key(values.take(i - 1), k) {
                    let j = choose|j: int| 0 <= j < values.take(i - 1).len() && #[trigger] values.take(i - 1)[j].0 == k;
                    assert(values[j].0 == values[i - 1].0);
                }
            }
            lemma_insert_new_key(values.take(i - 1), k, v);
            assert(values.take(i - 1).push((k, v)) =~= values.take(i));
            if i == vn {
                assert(values.take(i) =~= values);
            }
        } else {
            let j = i - 1 - vn;
            let k = monitors[j].0;
            let v = monitors[j].1;
            assert(raw == monitor_line(k, v));
            lemma_split_on_triple(monitor_word(), k, v, ':');
            assert(raw[0] == 'm');
            assert(!has_key(monitors.take(j), k)) by {
                if has_key(monitors.take(j), k) {
                    let x = choose|x: int| 0 <= x < monitors.take(j).len() && #[trigger] monitors.take(j)[x].0 == k;
                    assert(monitors[x].0 == monitors[j].0);
                }
            }
            lemma_insert_new_key(monitors.take(j), k, v);
            assert(monitors.take(j).push((k, v)) =~= monitors.take(j + 1));
            if j == 0 {
                assert(values.take(vn) =~= values);
                assert(monitors.take(0) =~= Seq::<(Seq<char>, Seq<char>)>::empty());
            }
        }
    }
}

/// Law: the text that `Config::to_text` writes reads back, through
/// `Config::from_text`, as the same settings and monitor entries in the same
/// order, for every configuration whose fields a line can hold
/// (`config_round_trips`).
pub proof fn law_config_text_round_trip(values: Entries, monitors: Entries)
    requires
        config_round_trips(values, monitors),
    ensures
        parse_config_text(config_text(values, monitors)) == (ConfigParse::Reading {
            values,
            monitors,
            line: (values.len() + monitors.len()) as nat,
        }),
{
    let ls = config_lines(values, monitors);
    lemma_monitor_word_plain();
    assert forall|i: int| 0 <= i < ls.len() implies !(#[trigger] ls[i]).contains('\n') by {
        lemma_single_lacks(':', '\n');
        if i < values.len() {
            let k = values[i].0;
            let v = values[i].1;
            assert(plain_field(k) && plain_field(v));
            lemma_concat_lacks(k, seq![':'], '\n');
            lemma_concat_lacks(k + seq![':'], v, '\n');
        } else {
            let j = i - values.len();
            let k = monitors[j].0;
            let v = monitors[j].1;
            assert(plain_field(k) && plain_field(v));
            lemma_concat_lacks(monitor_word(), seq![':'], '\n');
            lemma_concat_lacks(monitor_word() + seq![':'], k, '\n');
            lemma_concat_lacks(monitor_word() + seq![':'] + k, seq![':'], '\n');
            lemma_concat_lacks(monitor_word() + seq![':'] + k + seq![':'], v, '\n');
        }
    }
    lemma_lines_of_join(ls);
    lemma_config_run_written(values, monitors, ls.len() as int);
    assert(ls.take(ls.len() as int) =~= ls);
    if monitors.len() == 0 {
        assert(values.take(values.len() as int) =~= values);
        assert(monitors =~= Seq::<(Seq<char>, Seq<char>)>::empty());
    } else {
        assert(monitors.take(monitors.len() as int) =~= monitors);
    }
}

/// Law: the entries behave as a map: setting `k` to `v` makes `k` hold `v`
/// and leaves every other key as it was.
pub proof fn law_entry_insert_is_map_insert(e: Entries, k: Seq<char>, v: Seq<char>)
    requires
        distinct_keys(e),
    ensures
        distinct_keys(entry_insert(e, k, v)),
        entries_map(entry_insert(e, k, v)) == entries_map(e).insert(k, v),
{
    let e2 = entry_insert(e, k, v);
    if has_key(e, k) {
        let i = key_index(e, k);
        assert(e2 == e.update(i, (k, v)));
        assert forall|x: Seq<char>| #[trigger] has_key(e2, x) == (has_key(e, x) || x == k) by {
            if has_key(e, x) {
                let j = choose|j: int| 0 <= j < e.len() && #[trigger] e[j].0 == x;
                if j == i {
                    assert(e2[i].0 == k);
                } else {
                    assert(e2[j].0 == x);
                }
            }
            if has_key(e2, x) {
                let j = choose|j: int| 0 <= j < e2.len() && #[trigger] e2[j].0 == x;
                if j != i {
                    assert(e[j].0 == x);
                }
            }
            if x == k {
                assert(e2[i].0 == k);
            }
        }
        assert forall|x: Seq<char>| has_key(e2, x) implies #[trigger] e2[key_index(e2, x)].1
            == entries_map(e).insert(k, v)[x] by {
            let j = key_index(e2, x);
            if x == k {
                assert(e2[i].0 == k);
                assert(j == i);
            } else {
                assert(has_key(e, x));
                let j0 = key_index(e, x);
                assert(e2[j0].0 == x);
                assert(j == j0);
            }
        }
    } else {
        assert(e2 == e.push((k, v)));
        assert forall|x: Seq<char>| #[trigger] has_key(e2, x) == (has_key(e, x) || x == k) by {
            if has_key(e, x) {
                let j = choose|j: int| 0 <= j < e.len() && #[trigger] e[j].0 == x;
                assert(e2[j].0 == x);
            }
            if has_key(e2, x) {
                let j = choose|j: int| 0 <= j < e2.len() && #[trigger] e2[j].0 == x;
                if j < e.len() {
                    assert(e[j].0 == x);
                }
            }
            if x == k {
                assert(e2[e.len() as int].0 == k);
            }
        }
        assert forall|x: Seq<char>| has_key(e2, x) implies #[trigger] e2[key_index(e2, x)].1
            == entries_map(e).insert(k, v)[x] by {
            let j = key_index(e2, x);
            if x == k {
                assert(e2[e.len() as int].0 == k);
                assert(j == e.len());
            } else {
                assert(has_key(e, x));
                let j0 = key_index(e, x);
                assert(e2[j0].0 == x);
                assert(j == j0);
            }
        }
    }
    assert(entries_map(e2) =~= entries_map(e).insert(k, v));
}

/// A field already in lowercase ASCII: ASCII characters, none of them a
/// letter `A` to `Z` or a carriage return.
pub open spec fn lower_ascii_field(s: Seq<char>) -> bool {
    &&& is_ascii_text(s)
    &&& forall|i: int| 0 <= i < s.len() ==> !('A' <= #[trigger] s[i] && s[i] <= 'Z') && s[i] != '\r'
}

proof fn lemma_lower_ascii_concat(a: Seq<char>, b: Seq<char>)
    requires
        lower_ascii_field(a),
        lower_ascii_field(b),
    ensures
        lower_ascii_field(a + b),
{
    assert forall|i: int| 0 <= i < (a + b).len() implies ((#[trigger] (a + b)[i]) as u32) < 128
        && !('A' <= (a + b)[i] && (a + b)[i] <= 'Z') && (a + b)[i] != '\r' by {
        if i < a.len() {
            assert((a + b)[i] == a[i]);
        } else {
            assert((a + b)[i] == b[i - a.len()]);
        }
    }
}

/// A line in lowercase ASCII is left alone by lowercasing and by the
/// removal of a final carriage return.
proof fn lemma_lower_ascii_line(line: Seq<char>)
    requires
        lower_ascii_field(line),
    ensures
        lowercase(line) == line,
        strip_cr(line) == line,
{
    law_lowercase_ascii(line);
    if line.len() > 0 {
        assert(line.last() == line[line.len() - 1]);
    }
}

/// Law: a configuration whose keys and values are in lowercase ASCII (and
/// that a line can hold: no `:`, no line feed, no setting called `monitor` or
/// starting with `#`, no key twice) reads back from the text `to_text`
/// writes as the same settings and monitor entries: lowercasing each line
/// changes none of them.
pub proof fn law_lowercase_config_round_trip(values: Entries, monitors: Entries)
    requires
        distinct_keys(values),
        distinct_keys(monitors),
        forall|i: int|
            0 <= i < values.len() ==> {
                &&& plain_field(#[trigger] values[i].0)
                &&& plain_field(values[i].1)
                &&& lower_ascii_field(values[i].0)
                &&& lower_ascii_field(values[i].1)
                &&& values[i].0 != monitor_word()
                &&& !(values[i].0.len() > 0 && values[i].0[0] == '#')
            },
        forall|i: int|
            0 <= i < monitors.len() ==> {
                &&& plain_field(#[trigger] monitors[i].0)
                &&& plain_field(monitors[i].1)
                &&& lower_ascii_field(monitors[i].0)
                &&& lower_ascii_field(monitors[i].1)
            },
    ensures
        parse_config_text(config_text(values, monitors)) == (ConfigParse::Reading {
            values,
            monitors,
            line: (values.len() + monitors.len()) as nat,
        }),
{
    let ls = config_lines(values, monitors);
    let vl = value_lines(values);
    assert(lower_ascii_field(seq![':']));
    assert(lower_ascii_field(monitor_word()));
    assert forall|i: int| 0 <= i < ls.len() implies {
        &&& lowercase(#[trigger] ls[i]) == ls[i]
        &&& strip_cr(ls[i]) == ls[i]
    } by {
        if i < vl.len() {
            let k = values[i].0;
            let v = values[i].1;
            assert(ls[i] == k + seq![':'] + v);
            lemma_lower_ascii_concat(k, seq![':']);
            lemma_lower_ascii_concat(k + seq![':'], v);
        } else {
            let j = i - vl.len();
            let k = monitors[j].0;
            let v = monitors[j].1;
            assert(ls[i] == monitor_word() + seq![':'] + k + seq![':'] + v);
            lemma_lower_ascii_concat(monitor_word(), seq![':']);
            lemma_lower_ascii_concat(monitor_word() + seq![':'], k);
            lemma_lower_ascii_concat(monitor_word() + seq![':'] + k, seq![':']);
            lemma_lower_ascii_concat(monitor_word() + seq![':'] + k + seq![':'], v);
        }
        lemma_lower_ascii_line(ls[i]);
    }
    law_config_text_round_trip(values, monitors);
}

} // verus!
