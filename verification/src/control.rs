//! The `control` file of a package: an RFC822-like text of `Key: value`
//! fields whose values may run on over lines that begin with whitespace.

use crate::error::{DebError, DebErrorView};
use crate::text::{
    char_is_whitespace, find_char, is_whitespace, lemma_position_of, lemma_position_of_unique,
    position_of, slice_text, to_chars, trim, trim_start, trim_start_bound, trimmed,
};
use vstd::prelude::*;
use vstd::string::StringExecFns;

verus! {

/// The keys of a run of fields, in order.
pub open spec fn keys_of(entries: Seq<(Seq<char>, Seq<char>)>) -> Seq<Seq<char>> {
    entries.map_values(|e: (Seq<char>, Seq<char>)| e.0)
}

/// Whether no key occurs twice.
pub open spec fn distinct_keys(entries: Seq<(Seq<char>, Seq<char>)>) -> bool {
    keys_of(entries).no_duplicates()
}

/// The value filed under `key`, if there is one.
pub open spec fn lookup(entries: Seq<(Seq<char>, Seq<char>)>, key: Seq<char>) -> Option<
    Seq<char>,
> {
    let i = position_of(keys_of(entries), key);
    if i < entries.len() {
        Some(entries[i].1)
    } else {
        None
    }
}

/// The fields after `value` is filed under `key`: a key already present
/// keeps its place and takes the new value, a new key goes to the end.
pub open spec fn inserted(
    entries: Seq<(Seq<char>, Seq<char>)>,
    key: Seq<char>,
    value: Seq<char>,
) -> Seq<(Seq<char>, Seq<char>)> {
    let i = position_of(keys_of(entries), key);
    if i < entries.len() {
        entries.update(i, (key, value))
    } else {
        entries.push((key, value))
    }
}

/// The state of the parser between two lines: the fields committed so far
/// and the field that is still being read, as key and value so far.
pub struct ParserState {
    pub entries: Seq<(Seq<char>, Seq<char>)>,
    pub pending: Option<(Seq<char>, Seq<char>)>,
}

/// The state before the first line.
pub open spec fn initial_state() -> ParserState {
    ParserState { entries: Seq::empty(), pending: None }
}

/// Whether a line continues the value of the field before it.
pub open spec fn is_continuation(line: Seq<char>) -> bool {
    line.len() > 0 && is_whitespace(line[0])
}

/// Whether a line opens a new field.
pub open spec fn is_field(line: Seq<char>) -> bool {
    !is_continuation(line) && position_of(line, ':') < line.len()
}

/// The key of a line that opens a field: what stands before the first `:`.
pub open spec fn field_key(line: Seq<char>) -> Seq<char> {
    line.take(position_of(line, ':'))
}

/// The start of the value of a line that opens a field: what follows the
/// first `:`, without leading whitespace.
pub open spec fn field_value(line: Seq<char>) -> Seq<char> {
    trim_start(line.skip(position_of(line, ':') + 1))
}

/// The committed fields once the pending one, if any, is committed with
/// its value trimmed.
pub open spec fn committed(state: ParserState) -> Seq<(Seq<char>, Seq<char>)> {
    match state.pending {
        Some((key, value)) => inserted(state.entries, key, trim(value)),
        None => state.entries,
    }
}

/// The state after one more line. A continuation line adds a newline and
/// its own text, without leading whitespace, to the pending value, and is
/// dropped when nothing is pending. A line with a `:` commits what is
/// pending and opens a new field. Any other line changes nothing.
pub open spec fn step(state: ParserState, line: Seq<char>) -> ParserState {
    if is_continuation(line) {
        match state.pending {
            Some((key, value)) => ParserState {
                entries: state.entries,
                pending: Some((key, value + seq!['\n'] + trim_start(line))),
            },
            None => state,
        }
    } else if is_field(line) {
        ParserState {
            entries: committed(state),
            pending: Some((field_key(line), field_value(line))),
        }
    } else {
        state
    }
}

/// The first line of a non-empty text: what stands before the first line
/// feed, less a carriage return directly before that line feed.
pub open spec fn first_line(text: Seq<char>) -> Seq<char> {
    let end = position_of(text, '\n');
    if 0 < end < text.len() && text[end - 1] == '\r' {
        text.take(end - 1)
    } else {
        text.take(end)
    }
}

/// What follows the first line and its line feed.
pub open spec fn after_first_line(text: Seq<char>) -> Seq<char> {
    let end = position_of(text, '\n');
    if end < text.len() {
        text.skip(end + 1)
    } else {
        Seq::empty()
    }
}

/// The lines of a text, each without its line ending. A line feed at the
/// very end opens no further line.
pub open spec fn lines_of(text: Seq<char>) -> Seq<Seq<char>>
    decreases text.len(),
{
    if text.len() == 0 {
        Seq::empty()
    } else {
        proof {
            lemma_position_of(text, '\n');
        }
        seq![first_line(text)] + lines_of(after_first_line(text))
    }
}

/// The state after the given lines, taken in order.
pub open spec fn feed(state: ParserState, lines: Seq<Seq<char>>) -> ParserState
    decreases lines.len(),
{
    if lines.len() == 0 {
        state
    } else {
        feed(step(state, lines[0]), lines.drop_first())
    }
}

/// The fields that a control text holds: what is committed once every line
/// has been taken and the field still pending is committed too.
pub open spec fn control_of(text: Seq<char>) -> Seq<(Seq<char>, Seq<char>)> {
    committed(feed(initial_state(), lines_of(text)))
}

/// Filing a value keeps the keys distinct.
pub proof fn lemma_inserted_distinct(
    entries: Seq<(Seq<char>, Seq<char>)>,
    key: Seq<char>,
    value: Seq<char>,
)
    requires
        distinct_keys(entries),
    ensures
        distinct_keys(inserted(entries, key, value)),
{
    let keys = keys_of(entries);
    let i = position_of(keys, key);
    lemma_position_of(keys, key);
    let after = keys_of(inserted(entries, key, value));
    if i < entries.len() {
        assert(after =~= keys);
    } else {
        assert(after =~= keys.push(key));
        assert forall|a: int, b: int| 0 <= a < after.len() && 0 <= b < after.len() && a
            != b implies after[a] != after[b] by {
            if a < keys.len() {
                assert(keys[a] != key);
            }
            if b < keys.len() {
                assert(keys[b] != key);
            }
        }
    }
}

/// What was filed under a key is found under it, and filing under one key
/// leaves every other key as it was.
pub proof fn lemma_lookup_inserted(
    entries: Seq<(Seq<char>, Seq<char>)>,
    key: Seq<char>,
    value: Seq<char>,
    other: Seq<char>,
)
    ensures
        lookup(inserted(entries, key, value), key) == Some(value),
        other != key ==> lookup(inserted(entries, key, value), other) == lookup(entries, other),
{
    let keys = keys_of(entries);
    let after = inserted(entries, key, value);
    let i = position_of(keys, key);
    let j = position_of(keys, other);
    lemma_position_of(keys, key);
    lemma_position_of(keys, other);
    if i < entries.len() {
        assert(keys_of(after) =~= keys);
    } else {
        assert(keys_of(after) =~= keys.push(key));
        lemma_position_of_unique(keys_of(after), key, i);
        if other != key {
            if j < keys.len() {
                lemma_position_of_unique(keys_of(after), other, j);
            } else {
                lemma_position_of_unique(keys_of(after), other, j + 1);
            }
        }
    }
}

/// Of two fields with the same key, the later one wins: once both lines
/// are taken and the pending field is committed, the key holds the value
/// of the second line, and it still occurs only once.
pub proof fn lemma_later_field_wins(state: ParserState, first: Seq<char>, second: Seq<char>)
    requires
        is_field(first),
        is_field(second),
        field_key(first) == field_key(second),
    ensures
        lookup(committed(step(step(state, first), second)), field_key(second)) == Some(
            trim(field_value(second)),
        ),
        distinct_keys(state.entries) ==> distinct_keys(
            committed(step(step(state, first), second)),
        ),
{
    let key = field_key(second);
    let so_far = committed(state);
    let once = inserted(so_far, key, trim(field_value(first)));
    lemma_lookup_inserted(once, key, trim(field_value(second)), key);
    if distinct_keys(state.entries) {
        lemma_committed_distinct(state);
        lemma_inserted_distinct(so_far, key, trim(field_value(first)));
        lemma_inserted_distinct(once, key, trim(field_value(second)));
    }
}

/// Committing the pending field keeps the keys distinct.
pub proof fn lemma_committed_distinct(state: ParserState)
    requires
        distinct_keys(state.entries),
    ensures
        distinct_keys(committed(state)),
{
    match state.pending {
        Some((key, value)) => {
            lemma_inserted_distinct(state.entries, key, trim(value));
        },
        None => {},
    }
}

/// Whatever the lines, no key is ever committed twice.
pub proof fn lemma_feed_distinct(state: ParserState, lines: Seq<Seq<char>>)
    requires
        distinct_keys(state.entries),
    ensures
        distinct_keys(feed(state, lines).entries),
    decreases lines.len(),
{
    if lines.len() > 0 {
        lemma_committed_distinct(state);
        lemma_feed_distinct(step(state, lines[0]), lines.drop_first());
    }
}

/// The fields of any control text have distinct keys.
pub proof fn lemma_control_of_distinct(text: Seq<char>)
    ensures
        distinct_keys(control_of(text)),
{
    assert(keys_of(initial_state().entries) =~= Seq::<Seq<char>>::empty());
    lemma_feed_distinct(initial_state(), lines_of(text));
    lemma_committed_distinct(feed(initial_state(), lines_of(text)));
}

/// The mapping from field name to field value that a control file holds.
/// Fields stand in the order in which their keys first appeared, and no key
/// occurs twice.
#[derive(Debug, Clone, PartialEq, Eq)]
pub struct ControlMap {
    entries: Vec<(String, String)>,
}

impl View for ControlMap {
    type V = Seq<(Seq<char>, Seq<char>)>;

    closed spec fn view(&self) -> Seq<(Seq<char>, Seq<char>)> {
        self.entries@.map_values(|e: (String, String)| (e.0@, e.1@))
    }
}

impl ControlMap {
    /// Whether no key occurs twice. Every mapping made by [`ControlMap::new`]
    /// and [`ControlMap::insert`] is well formed.
    pub open spec fn well_formed(&self) -> bool {
        distinct_keys(self@)
    }

    /// A mapping without fields.
    pub fn new() -> (map: ControlMap)
        ensures
            map@ == Seq::<(Seq<char>, Seq<char>)>::empty(),
            map.well_formed(),
    {
        let map = ControlMap { entries: Vec::new() };
        proof {
            assert(map@ =~= Seq::<(Seq<char>, Seq<char>)>::empty());
            assert(keys_of(map@) =~= Seq::<Seq<char>>::empty());
        }
        map
    }

    /// The number of fields.
    pub fn len(&self) -> (n: usize)
        ensures
            n == self@.len(),
    {
        self.entries.len()
    }

    /// Whether there is no field.
    pub fn is_empty(&self) -> (b: bool)
        ensures
            b == (self@.len() == 0),
    {
        self.entries.len() == 0
    }

    /// The key and the value of the field at position `index`.
    pub fn entry(&self, index: usize) -> (r: (&String, &String))
        requires
            index < self@.len(),
        ensures
            (r.0@, r.1@) == self@[index as int],
    {
        (&self.entries[index].0, &self.entries[index].1)
    }

    /// The value filed under `key`.
    pub fn get(&self, key: &str) -> (r: Option<&String>)
        ensures
            match r {
                Some(value) => lookup(self@, key@) == Some(value@),
                None => lookup(self@, key@) is None,
            },
    {
        let wanted = String::from_str(key);
        let mut i: usize = 0;
        while i < self.entries.len()
            invariant
                i <= self.entries.len(),
                wanted@ == key@,
                forall|j: int| 0 <= j < i ==> keys_of(self@)[j] != key@,
            decreases self.entries.len() - i,
        {
            if self.entries[i].0 == wanted {
                proof {
                    lemma_position_of_unique(keys_of(self@), key@, i as int);
                }
                return Some(&self.entries[i].1);
            }
            i = i + 1;
        }
        proof {
            lemma_position_of_unique(keys_of(self@), key@, i as int);
        }
        None
    }

    /// Files `value` under `key`. A later value for a key silently takes
    /// the place of the earlier one.
    pub fn insert(&mut self, key: String, value: String)
        ensures
            final(self)@ == inserted(old(self)@, key@, value@),
            old(self).well_formed() ==> final(self).well_formed(),
    {
        proof {
            if self.well_formed() {
                lemma_inserted_distinct(self@, key@, value@);
            }
        }
        let mut i: usize = 0;
        while i < self.entries.len()
            invariant
                i <= self.entries.len(),
                self.entries == old(self).entries,
                old(self).well_formed() ==> distinct_keys(inserted(old(self)@, key@, value@)),
                forall|j: int| 0 <= j < i ==> keys_of(self@)[j] != key@,
            decreases self.entries.len() - i,
        {
            if self.entries[i].0 == key {
                proof {
                    lemma_position_of_unique(keys_of(self@), key@, i as int);
                }
                self.entries[i] = (key, value);
                proof {
                    assert(self@ =~= inserted(old(self)@, key@, value@));
                }
                return ;
            }
            i = i + 1;
        }
        proof {
            lemma_position_of_unique(keys_of(self@), key@, i as int);
        }
        self.entries.push((key, value));
        proof {
            assert(self@ =~= inserted(old(self)@, key@, value@));
        }
    }
}

/// The control parser as an explicit machine with two states: awaiting a
/// key, or accumulating the value of the current key.
pub struct ControlParser {
    map: ControlMap,
    pending: Option<(String, String)>,
}

impl View for ControlParser {
    type V = ParserState;

    closed spec fn view(&self) -> ParserState {
        ParserState {
            entries: self.map@,
            pending: match self.pending {
                Some((key, value)) => Some((key@, value@)),
                None => None,
            },
        }
    }
}

impl ControlParser {
    /// A parser that has seen no line.
    pub fn new() -> (parser: ControlParser)
        ensures
            parser@ == initial_state(),
    {
        ControlParser { map: ControlMap::new(), pending: None }
    }

    /// Takes the next line, given without its line ending.
    pub fn feed_line(&mut self, line: &str)
        ensures
            final(self)@ == step(old(self)@, line@),
    {
        let v = to_chars(line);
        let n: usize = v.len();
        proof {
            assert(v@.subrange(0, n as int) =~= v@);
        }
        if n > 0 && char_is_whitespace(v[0]) {
            match self.pending.take() {
                Some((key, mut value)) => {
                    let from: usize = trim_start_bound(&v, 0, n);
                    let rest = slice_text(line, from, n);
                    proof {
                        reveal_strlit("\n");
                        assert("\n"@ =~= seq!['\n']);
                    }
                    value.append("\n");
                    value.append(rest.as_str());
                    self.pending = Some((key, value));
                },
                None => {},
            }
        } else {
            let colon: usize = find_char(&v, 0, n, ':');
            if colon < n {
                match self.pending.take() {
                    Some((key, value)) => {
                        let value = trimmed(value.as_str());
                        self.map.insert(key, value);
                    },
                    None => {},
                }
                let key = slice_text(line, 0, colon);
                let from: usize = trim_start_bound(&v, colon + 1, n);
                let value = slice_text(line, from, n);
                proof {
                    assert(v@.subrange(colon + 1, n as int) =~= v@.skip(colon + 1));
                    assert(v@.subrange(0, colon as int) =~= v@.take(colon as int));
                }
                self.pending = Some((key, value));
            }
        }
    }

    /// Commits what is pending and hands out the mapping.
    pub fn finish(self) -> (map: ControlMap)
        ensures
            map@ == committed(self@),
    {
        let ControlParser { map, pending } = self;
        let mut map = map;
        match pending {
            Some((key, value)) => {
                let value = trimmed(value.as_str());
                map.insert(key, value);
            },
            None => {},
        }
        map
    }
}

/// Parses the text of a control file into its fields.
pub fn parse_control(content: &str) -> (map: ControlMap)
    ensures
        map@ == control_of(content@),
        map.well_formed(),
{
    proof {
        lemma_control_of_distinct(content@);
    }
    let v = to_chars(content);
    let n: usize = v.len();
    let mut parser = ControlParser::new();
    let mut pos: usize = 0;
    proof {
        assert(v@.skip(0) =~= v@);
    }
    while pos < n
        invariant
            pos <= n,
            n == v.len(),
            v@ == content@,
            feed(initial_state(), lines_of(v@)) == feed(parser@, lines_of(v@.skip(pos as int))),
        decreases n - pos,
    {
        let ghost rest = v@.skip(pos as int);
        let rel: usize = find_char(&v, pos, n, '\n');
        let end: usize = pos + rel;
        let line_end: usize = if end < n && end > pos && v[end - 1] == '\r' {
            end - 1
        } else {
            end
        };
        let next: usize = if end < n {
            end + 1
        } else {
            n
        };
        let line = slice_text(content, pos, line_end);
        proof {
            assert(rest =~= v@.subrange(pos as int, n as int));
            assert(first_line(rest) =~= v@.subrange(pos as int, line_end as int));
            assert(after_first_line(rest) =~= v@.skip(next as int));
            let lines = lines_of(rest);
            assert(lines[0] == first_line(rest));
            assert(lines.drop_first() =~= lines_of(after_first_line(rest)));
        }
        parser.feed_line(line.as_str());
        pos = next;
    }
    parser.finish()
}

/// The path of the control file below the working directory, once the
/// extraction is done.
pub fn control_file_path() -> (path: String)
    ensures
        path@ == "control/control"@,
{
    String::from_str("control/control")
}

/// What reading and parsing the control file at `path` comes to: the fields
/// of the text that was read, or a failure that names the path and the
/// cause for which no text was read. No text, however malformed, makes the
/// parsing itself fail.
pub open spec fn control_file_outcome(path: Seq<char>, content: Result<Seq<char>, Seq<char>>)
    -> Result<Seq<(Seq<char>, Seq<char>)>, DebErrorView> {
    match content {
        Ok(text) => Ok(control_of(text)),
        Err(cause) => Err(DebErrorView::ControlFileRead { path, cause }),
    }
}

/// The view of what was read from a file: its text, or the cause for which
/// there is none.
pub open spec fn content_view(content: Result<&str, &str>) -> Result<Seq<char>, Seq<char>> {
    match content {
        Ok(text) => Ok(text@),
        Err(cause) => Err(cause@),
    }
}

/// The view of a parsed control file or of the failure in its place.
pub open spec fn loaded_view(loaded: Result<ControlMap, DebError>) -> Result<
    Seq<(Seq<char>, Seq<char>)>,
    DebErrorView,
> {
    match loaded {
        Ok(map) => Ok(map@),
        Err(e) => Err(e@),
    }
}

/// Parses the control file of an extracted package. `path` is where the
/// file was looked for, which is [`control_file_path`] below the working
/// directory; `content` is the text read from there, or the cause for
/// which the file is missing or cannot be read as text, which is a failure
/// of its own kind.
pub fn load_control_file(path: &str, content: Result<&str, &str>) -> (r: Result<
    ControlMap,
    DebError,
>)
    ensures
        loaded_view(r) == control_file_outcome(path@, content_view(content)),
        r matches Ok(map) ==> map.well_formed(),
{
    match content {
        Ok(text) => Ok(parse_control(text)),
        Err(cause) => Err(
            DebError::ControlFileRead {
                path: String::from_str(path),
                cause: String::from_str(cause),
            },
        ),
    }
}

} // verus!
